use vstd::prelude::*;

use crate::table::StrMap;
use crate::util::{decimal_spec, push_decimal, push_str};

verus! {

/// The gzip level snapshots are compressed at.
pub const SNAPSHOT_LEVEL: u32 = 9;

/// State snapshot for fast synchronization.
#[derive(Debug, Clone, Copy)]
pub struct StateSnapshot {
    pub snapshot_id: u64,
    pub batch_id: u64,
    pub state_root: crate::hash_utils::Hash,
    pub timestamp: u64,
    pub account_count: usize,
    pub total_balance: u64,
    pub snapshot_type: SnapshotType,
    pub compressed_size: usize,
    pub uncompressed_size: usize,
}

#[derive(Debug, Clone, Copy, PartialEq, Eq, Structural)]
pub enum SnapshotType {
    Full,
    Incremental { base_snapshot: u64 },
    Archive,
}

#[derive(Debug, Clone)]
pub struct AccountSnapshot {
    pub address: String,
    pub balance: u64,
    pub nonce: u64,
    pub state_data: Vec<u8>,
    pub code_hash: Option<crate::hash_utils::Hash>,
}

#[derive(Debug, Clone, Copy, PartialEq, Eq, Structural)]
pub struct SnapshotStats {
    pub total_snapshots: usize,
    pub full_snapshots: usize,
    pub incremental_snapshots: usize,
    pub archive_snapshots: usize,
    pub total_compressed_size: usize,
    pub total_uncompressed_size: usize,
}

/// Why a snapshot operation failed.
#[derive(Debug, Clone, Copy, PartialEq, Eq, Structural)]
pub enum SnapshotError {
    NotFound { snapshot_id: u64 },
    NoSnapshots,
    /// The compressor or decompressor reported an error.
    Io,
}

/// The balances added up.
pub open spec fn balance_sum(s: Seq<AccountSnapshot>) -> int
    decreases s.len(),
{
    if s.len() == 0 {
        0
    } else {
        balance_sum(s.drop_last()) + s.last().balance
    }
}

/// The file name of a snapshot's data.
pub open spec fn data_name_spec(id: u64) -> Seq<char> {
    "snapshot_"@ + decimal_spec(id as nat) + ".dat"@
}

/// The file name of a snapshot's metadata.
pub open spec fn meta_name_spec(id: u64) -> Seq<char> {
    "snapshot_"@ + decimal_spec(id as nat) + ".json"@
}

/// How many snapshots that are not archived have a larger id than `id`.
pub open spec fn newer(s: Seq<StateSnapshot>, id: u64) -> nat {
    s.filter(|x: StateSnapshot| x.snapshot_type != SnapshotType::Archive && x.snapshot_id > id).len()
}

/// A snapshot is dropped when it is not archived and `max` or more newer ones are kept.
pub open spec fn doomed(s: Seq<StateSnapshot>, x: StateSnapshot, max: usize) -> bool {
    x.snapshot_type != SnapshotType::Archive && newer(s, x.snapshot_id) >= max
}

/// Whether the snapshots are ordered by id.
pub open spec fn sorted_by_id(s: Seq<StateSnapshot>) -> bool {
    forall|i: int, j: int| 0 <= i < j < s.len() ==> s[i].snapshot_id <= s[j].snapshot_id
}

/// The compressed sizes added up.
pub open spec fn compressed_sum(s: Seq<StateSnapshot>) -> int
    decreases s.len(),
{
    if s.len() == 0 {
        0
    } else {
        compressed_sum(s.drop_last()) + s.last().compressed_size
    }
}

/// The uncompressed sizes added up.
pub open spec fn uncompressed_sum(s: Seq<StateSnapshot>) -> int
    decreases s.len(),
{
    if s.len() == 0 {
        0
    } else {
        uncompressed_sum(s.drop_last()) + s.last().uncompressed_size
    }
}

/// The position of the snapshot with `id`, if stored.
pub open spec fn snap_pos(s: Seq<StateSnapshot>, id: u64) -> Option<int> {
    crate::util::find_first(s, |x: StateSnapshot| x.snapshot_id == id)
}

/// The snapshots with `x` stored: in place of the one with its id, else last.
pub open spec fn put_spec(s: Seq<StateSnapshot>, x: StateSnapshot) -> Seq<StateSnapshot> {
    match snap_pos(s, x.snapshot_id) {
        Some(i) => s.update(i, x),
        None => s.push(x),
    }
}

/// Keeps the snapshots' metadata, assigns ids and decides which old snapshots to drop; the
/// caller writes, reads and removes the files in `snapshot_dir`, and turns accounts into bytes
/// and back.
pub struct SnapshotManager {
    snapshot_dir: String,
    snapshot_counter: u64,
    snapshots: Vec<StateSnapshot>,
    max_snapshots: usize,
}

impl SnapshotManager {
    pub closed spec fn dir(&self) -> Seq<char> {
        self.snapshot_dir@
    }

    /// The id the next snapshot gets.
    pub closed spec fn next_id(&self) -> u64 {
        self.snapshot_counter
    }

    /// The stored snapshots, in the order they were stored.
    pub closed spec fn snapshot_list(&self) -> Seq<StateSnapshot> {
        self.snapshots@
    }

    /// The stored snapshot with `id`, if any.
    pub open spec fn snapshot(&self, id: u64) -> Option<StateSnapshot> {
        match snap_pos(self.snapshot_list(), id) {
            Some(i) => Some(self.snapshot_list()[i]),
            None => None,
        }
    }

    /// How many snapshots that are not archived are kept.
    pub closed spec fn max(&self) -> usize {
        self.max_snapshots
    }

    /// No two stored snapshots share an id.
    pub closed spec fn wf(&self) -> bool {
        forall|i: int, j: int| 0 <= i < j < self.snapshots@.len() ==> self.snapshots@[i].snapshot_id != self.snapshots@[j].snapshot_id
    }

    pub fn new(snapshot_dir: String, max_snapshots: usize) -> (m: Self)
        ensures
            m.wf(),
            m.dir() == snapshot_dir@,
            m.next_id() == 0,
            m.snapshot_list() == Seq::<StateSnapshot>::empty(),
            m.max() == max_snapshots,
    {
        SnapshotManager { snapshot_dir, snapshot_counter: 0, snapshots: Vec::new(), max_snapshots }
    }

    /// The directory the snapshot files live in.
    pub fn snapshot_dir(&self) -> (r: &String)
        ensures
            r@ == self.dir(),
    {
        &self.snapshot_dir
    }

    /// The file name of a snapshot's data.
    pub fn data_file_name(snapshot_id: u64) -> (s: String)
        ensures
            s@ == data_name_spec(snapshot_id),
    {
        let mut s = "snapshot_".to_owned();
        push_decimal(&mut s, snapshot_id);
        push_str(&mut s, ".dat");
        s
    }

    /// The file name of a snapshot's metadata.
    pub fn meta_file_name(snapshot_id: u64) -> (s: String)
        ensures
            s@ == meta_name_spec(snapshot_id),
    {
        let mut s = "snapshot_".to_owned();
        push_decimal(&mut s, snapshot_id);
        push_str(&mut s, ".json");
        s
    }

    fn find(&self, snapshot_id: u64) -> (r: Option<usize>)
        ensures
            match r {
                Some(i) => snap_pos(self.snapshot_list(), snapshot_id) == Some(i as int) && (i as int) < self.snapshot_list().len(),
                None => snap_pos(self.snapshot_list(), snapshot_id) is None,
            },
    {
        let ghost pred = |x: StateSnapshot| x.snapshot_id == snapshot_id;
        let mut i: usize = 0;
        while i < self.snapshots.len()
            invariant
                0 <= i <= self.snapshots@.len(),
                pred == (|x: StateSnapshot| x.snapshot_id == snapshot_id),
                forall|j: int| 0 <= j < i ==> !pred(#[trigger] self.snapshots@[j]),
            decreases self.snapshots@.len() - i,
        {
            if self.snapshots[i].snapshot_id == snapshot_id {
                proof {
                    crate::util::lemma_find_first_at(self.snapshots@, pred, i as int);
                }
                return Some(i);
            }
            i = i + 1;
        }
        proof {
            crate::util::lemma_find_first(self.snapshots@, pred);
        }
        None
    }

    /// Describe a snapshot of `accounts`, whose serialized form is `serialized`, taken at
    /// `now`: it takes the next id (the counter wraps, also when compression fails) and its
    /// data is `serialized` compressed with gzip at the best level.
    fn prepare(
        &mut self,
        batch_id: u64,
        state_root: crate::hash_utils::Hash,
        accounts: &StrMap<AccountSnapshot>,
        serialized: &[u8],
        snapshot_type: SnapshotType,
        now: u64,
    ) -> (r: Result<(StateSnapshot, Vec<u8>), SnapshotError>)
        requires
            accounts.wf(),
            balance_sum(accounts.values()) <= u64::MAX,
        ensures
            final(self).next_id() == (if old(self).next_id() == u64::MAX {
                0
            } else {
                (old(self).next_id() + 1) as u64
            }),
            final(self).snapshot_list() == old(self).snapshot_list(),
            final(self).max() == old(self).max(),
            final(self).dir() == old(self).dir(),
            r is Ok,
            r matches Ok(p) ==> {
                &&& p.1@ == crate::compression::gzip_spec(serialized@, SNAPSHOT_LEVEL)
                &&& crate::compression::gunzip_spec(p.1@) == Some(serialized@)
                &&& p.0.snapshot_id == old(self).next_id()
                &&& p.0.batch_id == batch_id
                &&& p.0.state_root == state_root
                &&& p.0.timestamp == now
                &&& p.0.account_count == accounts@.dom().len()
                &&& p.0.total_balance == balance_sum(accounts.values())
                &&& p.0.snapshot_type == snapshot_type
                &&& p.0.compressed_size == p.1@.len()
                &&& p.0.uncompressed_size == serialized@.len()
            },
    {
        let snapshot_id = self.snapshot_counter;
        self.snapshot_counter = self.snapshot_counter.wrapping_add(1);
        let compressed = match crate::compression::gzip_compress(serialized, SNAPSHOT_LEVEL) {
            Some(c) => c,
            None => return Err(SnapshotError::Io),
        };
        let ghost vals = accounts.values();
        let n = accounts.len_entries();
        let mut total: u64 = 0;
        let mut i: usize = 0;
        proof {
            lemma_balance_mono(vals, vals.len() as int);
        }
        while i < n
            invariant
                n == vals.len(),
                vals == accounts.values(),
                balance_sum(vals) <= u64::MAX,
                0 <= i <= n,
                total == balance_sum(vals.take(i as int)),
            decreases n - i,
        {
            let a = accounts.value_at(i);
            proof {
                assert(vals[i as int] == *a);
                assert(vals.take(i + 1).drop_last() =~= vals.take(i as int));
                lemma_balance_mono(vals, i + 1);
            }
            total = total + a.balance;
            i = i + 1;
        }
        assert(vals.take(n as int) =~= vals);
        let snapshot = StateSnapshot {
            snapshot_id,
            batch_id,
            state_root,
            timestamp: now,
            account_count: accounts.len(),
            total_balance: total,
            snapshot_type,
            compressed_size: compressed.len(),
            uncompressed_size: serialized.len(),
        };
        Ok((snapshot, compressed))
    }

    /// Describe a full snapshot taken at `now` (see `prepare`); the caller writes its files and
    /// then stores it with `commit_snapshot`.
    pub fn create_full_snapshot_at(
        &mut self,
        batch_id: u64,
        state_root: crate::hash_utils::Hash,
        accounts: &StrMap<AccountSnapshot>,
        serialized: &[u8],
        now: u64,
    ) -> (r: Result<(StateSnapshot, Vec<u8>), SnapshotError>)
        requires
            accounts.wf(),
            balance_sum(accounts.values()) <= u64::MAX,
        ensures
            final(self).next_id() == (if old(self).next_id() == u64::MAX {
                0
            } else {
                (old(self).next_id() + 1) as u64
            }),
            final(self).snapshot_list() == old(self).snapshot_list(),
            final(self).max() == old(self).max(),
            r is Ok,
            r matches Ok(p) ==> {
                &&& p.1@ == crate::compression::gzip_spec(serialized@, SNAPSHOT_LEVEL)
                &&& crate::compression::gunzip_spec(p.1@) == Some(serialized@)
                &&& p.0.snapshot_id == old(self).next_id()
                &&& p.0.batch_id == batch_id
                &&& p.0.state_root == state_root
                &&& p.0.timestamp == now
                &&& p.0.account_count == accounts@.dom().len()
                &&& p.0.total_balance == balance_sum(accounts.values())
                &&& p.0.snapshot_type == SnapshotType::Full
                &&& p.0.compressed_size == p.1@.len()
                &&& p.0.uncompressed_size == serialized@.len()
            },
    {
        self.prepare(batch_id, state_root, accounts, serialized, SnapshotType::Full, now)
    }

    /// Describe an incremental snapshot on `base_snapshot_id`, of the changed accounts, taken
    /// at `now` (see `prepare`); the caller writes its files and then stores it with
    /// `commit_snapshot`.
    pub fn create_incremental_snapshot_at(
        &mut self,
        base_snapshot_id: u64,
        batch_id: u64,
        state_root: crate::hash_utils::Hash,
        changed_accounts: &StrMap<AccountSnapshot>,
        serialized: &[u8],
        now: u64,
    ) -> (r: Result<(StateSnapshot, Vec<u8>), SnapshotError>)
        requires
            changed_accounts.wf(),
            balance_sum(changed_accounts.values()) <= u64::MAX,
        ensures
            final(self).next_id() == (if old(self).next_id() == u64::MAX {
                0
            } else {
                (old(self).next_id() + 1) as u64
            }),
            final(self).snapshot_list() == old(self).snapshot_list(),
            final(self).max() == old(self).max(),
            r is Ok,
            r matches Ok(p) ==> {
                &&& p.1@ == crate::compression::gzip_spec(serialized@, SNAPSHOT_LEVEL)
                &&& crate::compression::gunzip_spec(p.1@) == Some(serialized@)
                &&& p.0.snapshot_id == old(self).next_id()
                &&& p.0.batch_id == batch_id
                &&& p.0.state_root == state_root
                &&& p.0.timestamp == now
                &&& p.0.account_count == changed_accounts@.dom().len()
                &&& p.0.total_balance == balance_sum(changed_accounts.values())
                &&& p.0.snapshot_type == (SnapshotType::Incremental { base_snapshot: base_snapshot_id })
                &&& p.0.compressed_size == p.1@.len()
                &&& p.0.uncompressed_size == serialized@.len()
            },
    {
        self.prepare(
            batch_id,
            state_root,
            changed_accounts,
            serialized,
            SnapshotType::Incremental { base_snapshot: base_snapshot_id },
            now,
        )
    }

    /// Describe a full snapshot taken now (see `create_full_snapshot_at`).
    pub fn create_full_snapshot(
        &mut self,
        batch_id: u64,
        state_root: crate::hash_utils::Hash,
        accounts: &StrMap<AccountSnapshot>,
        serialized: &[u8],
    ) -> (r: Result<(StateSnapshot, Vec<u8>), SnapshotError>)
        requires
            accounts.wf(),
            balance_sum(accounts.values()) <= u64::MAX,
        ensures
            final(self).next_id() == (if old(self).next_id() == u64::MAX {
                0
            } else {
                (old(self).next_id() + 1) as u64
            }),
            final(self).snapshot_list() == old(self).snapshot_list(),
            final(self).max() == old(self).max(),
            r is Ok,
            r matches Ok(p) ==> {
                &&& p.1@ == crate::compression::gzip_spec(serialized@, SNAPSHOT_LEVEL)
                &&& crate::compression::gunzip_spec(p.1@) == Some(serialized@)
                &&& p.0.snapshot_id == old(self).next_id()
                &&& p.0.batch_id == batch_id
                &&& p.0.state_root == state_root
                &&& p.0.account_count == accounts@.dom().len()
                &&& p.0.total_balance == balance_sum(accounts.values())
                &&& p.0.snapshot_type == SnapshotType::Full
                &&& p.0.compressed_size == p.1@.len()
                &&& p.0.uncompressed_size == serialized@.len()
            },
    {
        self.create_full_snapshot_at(batch_id, state_root, accounts, serialized, crate::clock::now_secs())
    }

    /// Describe an incremental snapshot taken now (see `create_incremental_snapshot_at`).
    pub fn create_incremental_snapshot(
        &mut self,
        base_snapshot_id: u64,
        batch_id: u64,
        state_root: crate::hash_utils::Hash,
        changed_accounts: &StrMap<AccountSnapshot>,
        serialized: &[u8],
    ) -> (r: Result<(StateSnapshot, Vec<u8>), SnapshotError>)
        requires
            changed_accounts.wf(),
            balance_sum(changed_accounts.values()) <= u64::MAX,
        ensures
            final(self).next_id() == (if old(self).next_id() == u64::MAX {
                0
            } else {
                (old(self).next_id() + 1) as u64
            }),
            final(self).snapshot_list() == old(self).snapshot_list(),
            final(self).max() == old(self).max(),
            r is Ok,
            r matches Ok(p) ==> {
                &&& p.1@ == crate::compression::gzip_spec(serialized@, SNAPSHOT_LEVEL)
                &&& crate::compression::gunzip_spec(p.1@) == Some(serialized@)
                &&& p.0.snapshot_id == old(self).next_id()
                &&& p.0.batch_id == batch_id
                &&& p.0.state_root == state_root
                &&& p.0.account_count == changed_accounts@.dom().len()
                &&& p.0.total_balance == balance_sum(changed_accounts.values())
                &&& p.0.snapshot_type == (SnapshotType::Incremental { base_snapshot: base_snapshot_id })
                &&& p.0.compressed_size == p.1@.len()
                &&& p.0.uncompressed_size == serialized@.len()
            },
    {
        self.create_incremental_snapshot_at(
            base_snapshot_id,
            batch_id,
            state_root,
            changed_accounts,
            serialized,
            crate::clock::now_secs(),
        )
    }

    /// Store `s`, in place of a stored snapshot with its id.
    fn put(&mut self, s: StateSnapshot)
        requires
            old(self).wf(),
        ensures
            final(self).wf(),
            final(self).snapshot_list() == put_spec(old(self).snapshot_list(), s),
            final(self).next_id() == old(self).next_id(),
            final(self).max() == old(self).max(),
            final(self).dir() == old(self).dir(),
    {
        let ghost l = self.snapshots@;
        let ghost pred = |x: StateSnapshot| x.snapshot_id == s.snapshot_id;
        match self.find(s.snapshot_id) {
            Some(i) => {
                self.snapshots.set(i, s);
                proof {
                    assert forall|a: int, b: int| 0 <= a < b < self.snapshots@.len() implies self.snapshots@[a].snapshot_id != self.snapshots@[b].snapshot_id by {
                        if a != i && b != i {
                        } else if a == i {
                            assert(self.snapshots@[b] == l[b]);
                        } else {
                            assert(self.snapshots@[a] == l[a]);
                        }
                    }
                }
            },
            None => {
                proof {
                    crate::util::lemma_find_first(l, pred);
                }
                self.snapshots.push(s);
                proof {
                    assert forall|a: int, b: int| 0 <= a < b < self.snapshots@.len() implies self.snapshots@[a].snapshot_id != self.snapshots@[b].snapshot_id by {
                        if b == l.len() {
                            assert(!pred(l[a]));
                        }
                    }
                }
            },
        }
    }

    /// Store a snapshot whose files were written. With `cleanup`, drop the snapshots that are
    /// not archived and have `max` or more newer ones (see `doomed`); their ids are returned,
    /// for their files to be removed.
    pub fn commit_snapshot(&mut self, snapshot: StateSnapshot, cleanup: bool) -> (deleted: Vec<u64>)
        requires
            old(self).wf(),
        ensures
            final(self).wf(),
            ({
                let l1 = put_spec(old(self).snapshot_list(), snapshot);
                if cleanup {
                    &&& final(self).snapshot_list() == l1.filter(|x: StateSnapshot| !doomed(l1, x, old(self).max()))
                    &&& deleted@ == l1.filter(|x: StateSnapshot| doomed(l1, x, old(self).max())).map_values(
                        |x: StateSnapshot| x.snapshot_id,
                    )
                } else {
                    final(self).snapshot_list() == l1 && deleted@.len() == 0
                }
            }),
            final(self).next_id() == old(self).next_id(),
            final(self).max() == old(self).max(),
            final(self).dir() == old(self).dir(),
    {
        self.put(snapshot);
        let mut deleted: Vec<u64> = Vec::new();
        if !cleanup {
            return deleted;
        }
        let ghost l1 = self.snapshots@;
        let ghost max = self.max_snapshots;
        let ghost pk = |x: StateSnapshot| !doomed(l1, x, max);
        let ghost pd = |x: StateSnapshot| doomed(l1, x, max);
        let mut kept: Vec<StateSnapshot> = Vec::new();
        let n = self.snapshots.len();
        let mut i: usize = 0;
        while i < n
            invariant
                n == l1.len(),
                l1 == self.snapshots@,
                max == self.max_snapshots,
                0 <= i <= n,
                pk == (|x: StateSnapshot| !doomed(l1, x, max)),
                pd == (|x: StateSnapshot| doomed(l1, x, max)),
                kept@ == l1.take(i as int).filter(pk),
                deleted@ == l1.take(i as int).filter(pd).map_values(|x: StateSnapshot| x.snapshot_id),
            decreases n - i,
        {
            let x = self.snapshots[i];
            proof {
                assert(l1.take(i + 1) =~= l1.take(i as int).push(l1[i as int]));
                l1.take(i as int).lemma_filter_push(l1[i as int], pk);
                l1.take(i as int).lemma_filter_push(l1[i as int], pd);
            }
            let is_doomed = if x.snapshot_type == SnapshotType::Archive {
                false
            } else {
                count_newer(&self.snapshots, x.snapshot_id) >= self.max_snapshots
            };
            if is_doomed {
                let ghost before = deleted@;
                deleted.push(x.snapshot_id);
                assert(deleted@ =~= l1.take(i + 1).filter(pd).map_values(|x: StateSnapshot| x.snapshot_id));
            } else {
                kept.push(x);
            }
            i = i + 1;
        }
        assert(l1.take(n as int) =~= l1);
        proof {
            lemma_filter_ids_unique(l1, pk);
        }
        self.snapshots = kept;
        deleted
    }

    /// The accounts' bytes of a stored snapshot, read back from its compressed data: refused
    /// when the snapshot is not stored, or the data does not decompress.
    pub fn load_snapshot(&self, snapshot_id: u64, compressed: &[u8]) -> (r: Result<Vec<u8>, SnapshotError>)
        ensures
            self.snapshot(snapshot_id) is None ==> r == Err::<Vec<u8>, SnapshotError>(
                SnapshotError::NotFound { snapshot_id },
            ),
            self.snapshot(snapshot_id) is Some ==> match crate::compression::gunzip_spec(compressed@) {
                Some(x) => r matches Ok(v) && v@ == x,
                None => r == Err::<Vec<u8>, SnapshotError>(SnapshotError::Io),
            },
    {
        if self.find(snapshot_id).is_none() {
            return Err(SnapshotError::NotFound { snapshot_id });
        }
        match crate::compression::gzip_decompress(compressed) {
            Some(v) => Ok(v),
            None => Err(SnapshotError::Io),
        }
    }

    /// The latest stored snapshot and its accounts' bytes, read back from its compressed
    /// data (see `get_latest_snapshot` and `load_snapshot`).
    pub fn load_latest_snapshot(&self, compressed: &[u8]) -> (r: Result<(StateSnapshot, Vec<u8>), SnapshotError>)
        ensures
            self.snapshot_list().len() == 0 ==> r == Err::<(StateSnapshot, Vec<u8>), SnapshotError>(SnapshotError::NoSnapshots),
            self.snapshot_list().len() > 0 ==> match crate::compression::gunzip_spec(compressed@) {
                Some(x) => r matches Ok((s, v)) && v@ == x && self.snapshot_list().contains(s) && forall|j: int|
                    0 <= j < self.snapshot_list().len() ==> #[trigger] self.snapshot_list()[j].snapshot_id <= s.snapshot_id,
                None => r == Err::<(StateSnapshot, Vec<u8>), SnapshotError>(SnapshotError::Io),
            },
    {
        let latest = match self.get_latest_snapshot() {
            Ok(s) => s,
            Err(e) => return Err(e),
        };
        proof {
            let l = self.snapshot_list();
            let k = choose|k: int| 0 <= k < l.len() && l[k] == latest;
            crate::util::lemma_find_first(l, |x: StateSnapshot| x.snapshot_id == latest.snapshot_id);
            assert(l[k].snapshot_id == latest.snapshot_id);
        }
        match self.load_snapshot(latest.snapshot_id, compressed) {
            Ok(v) => Ok((latest, v)),
            Err(e) => Err(e),
        }
    }

    /// The snapshot with `snapshot_id`, if stored.
    pub fn get_snapshot(&self, snapshot_id: u64) -> (r: Option<StateSnapshot>)
        ensures
            r == self.snapshot(snapshot_id),
    {
        match self.find(snapshot_id) {
            Some(i) => Some(self.snapshots[i]),
            None => None,
        }
    }

    /// The stored snapshot with the largest id.
    pub fn get_latest_snapshot(&self) -> (r: Result<StateSnapshot, SnapshotError>)
        ensures
            self.snapshot_list().len() == 0 <==> r is Err,
            r matches Err(e) ==> e == SnapshotError::NoSnapshots,
            r matches Ok(s) ==> self.snapshot_list().contains(s) && forall|j: int|
                0 <= j < self.snapshot_list().len() ==> #[trigger] self.snapshot_list()[j].snapshot_id <= s.snapshot_id,
    {
        let n = self.snapshots.len();
        if n == 0 {
            return Err(SnapshotError::NoSnapshots);
        }
        let mut best: usize = 0;
        let mut i: usize = 1;
        while i < n
            invariant
                n == self.snapshots@.len(),
                0 <= best < i <= n,
                forall|j: int| 0 <= j < i ==> #[trigger] self.snapshots@[j].snapshot_id <= self.snapshots@[best as int].snapshot_id,
            decreases n - i,
        {
            if self.snapshots[i].snapshot_id > self.snapshots[best].snapshot_id {
                best = i;
            }
            i = i + 1;
        }
        assert(self.snapshots@.contains(self.snapshots@[best as int]));
        Ok(self.snapshots[best])
    }

    /// The stored snapshots, ordered by id.
    pub fn list_snapshots(&self) -> (r: Vec<StateSnapshot>)
        ensures
            sorted_by_id(r@),
            r@.to_multiset() == self.snapshot_list().to_multiset(),
    {
        let mut v: Vec<StateSnapshot> = Vec::new();
        let n = self.snapshots.len();
        let mut i: usize = 0;
        while i < n
            invariant
                n == self.snapshots@.len(),
                0 <= i <= n,
                v@ == self.snapshots@.take(i as int),
            decreases n - i,
        {
            v.push(self.snapshots[i]);
            assert(v@ =~= self.snapshots@.take(i + 1));
            i = i + 1;
        }
        assert(self.snapshots@.take(n as int) =~= self.snapshots@);
        sort_snapshots(v)
    }

    /// Drop a snapshot from the table (the caller removes its files).
    pub fn delete_snapshot(&mut self, snapshot_id: u64)
        requires
            old(self).wf(),
        ensures
            final(self).wf(),
            final(self).snapshot_list() == old(self).snapshot_list().filter(|x: StateSnapshot| x.snapshot_id != snapshot_id),
            final(self).next_id() == old(self).next_id(),
            final(self).max() == old(self).max(),
            final(self).dir() == old(self).dir(),
    {
        let ghost l = self.snapshots@;
        let ghost p = |x: StateSnapshot| x.snapshot_id != snapshot_id;
        let mut kept: Vec<StateSnapshot> = Vec::new();
        let n = self.snapshots.len();
        let mut i: usize = 0;
        while i < n
            invariant
                n == l.len(),
                l == self.snapshots@,
                0 <= i <= n,
                p == (|x: StateSnapshot| x.snapshot_id != snapshot_id),
                kept@ == l.take(i as int).filter(p),
            decreases n - i,
        {
            let x = self.snapshots[i];
            proof {
                assert(l.take(i + 1) =~= l.take(i as int).push(l[i as int]));
                l.take(i as int).lemma_filter_push(l[i as int], p);
            }
            if x.snapshot_id != snapshot_id {
                kept.push(x);
            }
            i = i + 1;
        }
        assert(l.take(n as int) =~= l);
        proof {
            lemma_filter_ids_unique(l, p);
        }
        self.snapshots = kept;
    }

    /// Mark a stored snapshot as archived, so that cleanup keeps it; it is returned, for its
    /// metadata to be written again.
    pub fn archive_snapshot(&mut self, snapshot_id: u64) -> (r: Option<StateSnapshot>)
        requires
            old(self).wf(),
        ensures
            final(self).wf(),
            match old(self).snapshot(snapshot_id) {
                Some(s) => r == Some(StateSnapshot { snapshot_type: SnapshotType::Archive, ..s })
                    && final(self).snapshot_list() == old(self).snapshot_list().update(
                    snap_pos(old(self).snapshot_list(), snapshot_id)->Some_0,
                    r->Some_0,
                ),
                None => r is None && final(self).snapshot_list() == old(self).snapshot_list(),
            },
            final(self).next_id() == old(self).next_id(),
            final(self).max() == old(self).max(),
            final(self).dir() == old(self).dir(),
    {
        match self.find(snapshot_id) {
            None => None,
            Some(i) => {
                let updated = StateSnapshot { snapshot_type: SnapshotType::Archive, ..self.snapshots[i] };
                let ghost l = self.snapshots@;
                self.snapshots.set(i, updated);
                proof {
                    assert forall|a: int, b: int| 0 <= a < b < self.snapshots@.len() implies self.snapshots@[a].snapshot_id != self.snapshots@[b].snapshot_id by {
                        assert(self.snapshots@[a].snapshot_id == l[a].snapshot_id);
                        assert(self.snapshots@[b].snapshot_id == l[b].snapshot_id);
                    }
                }
                Some(updated)
            },
        }
    }

    /// Snapshot statistics: how many of each kind, and the sizes added up.
    pub fn get_stats(&self) -> (st: SnapshotStats)
        requires
            compressed_sum(self.snapshot_list()) <= usize::MAX,
            uncompressed_sum(self.snapshot_list()) <= usize::MAX,
        ensures
            st.total_snapshots == self.snapshot_list().len(),
            st.full_snapshots == self.snapshot_list().filter(|s: StateSnapshot| s.snapshot_type == SnapshotType::Full).len(),
            st.incremental_snapshots == self.snapshot_list().filter(|s: StateSnapshot| s.snapshot_type is Incremental).len(),
            st.archive_snapshots == self.snapshot_list().filter(|s: StateSnapshot| s.snapshot_type == SnapshotType::Archive).len(),
            st.total_compressed_size == compressed_sum(self.snapshot_list()),
            st.total_uncompressed_size == uncompressed_sum(self.snapshot_list()),
    {
        let ghost s = self.snapshots@;
        let ghost pf = |x: StateSnapshot| x.snapshot_type == SnapshotType::Full;
        let ghost pi = |x: StateSnapshot| x.snapshot_type is Incremental;
        let ghost pa = |x: StateSnapshot| x.snapshot_type == SnapshotType::Archive;
        let n = self.snapshots.len();
        let mut full: usize = 0;
        let mut inc: usize = 0;
        let mut arch: usize = 0;
        let mut csum: usize = 0;
        let mut usum: usize = 0;
        let mut i: usize = 0;
        proof {
            lemma_sums_mono(s, n as int);
        }
        while i < n
            invariant
                n == s.len(),
                s == self.snapshots@,
                compressed_sum(s) <= usize::MAX,
                uncompressed_sum(s) <= usize::MAX,
                0 <= i <= n,
                pf == (|x: StateSnapshot| x.snapshot_type == SnapshotType::Full),
                pi == (|x: StateSnapshot| x.snapshot_type is Incremental),
                pa == (|x: StateSnapshot| x.snapshot_type == SnapshotType::Archive),
                full == s.take(i as int).filter(pf).len(),
                inc == s.take(i as int).filter(pi).len(),
                arch == s.take(i as int).filter(pa).len(),
                full <= i && inc <= i && arch <= i,
                csum == compressed_sum(s.take(i as int)),
                usum == uncompressed_sum(s.take(i as int)),
            decreases n - i,
        {
            let x = self.snapshots[i];
            proof {
                assert(s.take(i + 1) =~= s.take(i as int).push(s[i as int]));
                s.take(i as int).lemma_filter_push(s[i as int], pf);
                s.take(i as int).lemma_filter_push(s[i as int], pi);
                s.take(i as int).lemma_filter_push(s[i as int], pa);
                assert(s.take(i + 1).drop_last() =~= s.take(i as int));
                lemma_sums_mono(s, i + 1);
            }
            match x.snapshot_type {
                SnapshotType::Full => {
                    full = full + 1;
                },
                SnapshotType::Incremental { .. } => {
                    inc = inc + 1;
                },
                SnapshotType::Archive => {
                    arch = arch + 1;
                },
            }
            csum = csum + x.compressed_size;
            usum = usum + x.uncompressed_size;
            i = i + 1;
        }
        assert(s.take(n as int) =~= s);
        SnapshotStats {
            total_snapshots: n,
            full_snapshots: full,
            incremental_snapshots: inc,
            archive_snapshots: arch,
            total_compressed_size: csum,
            total_uncompressed_size: usum,
        }
    }
}

proof fn lemma_filter_ids_unique(l: Seq<StateSnapshot>, p: spec_fn(StateSnapshot) -> bool)
    requires
        forall|i: int, j: int| 0 <= i < j < l.len() ==> l[i].snapshot_id != l[j].snapshot_id,
    ensures
        forall|i: int, j: int| 0 <= i < j < l.filter(p).len() ==> l.filter(p)[i].snapshot_id != l.filter(p)[j].snapshot_id,
    decreases l.len(),
{
    reveal(Seq::filter);
    if l.len() > 0 {
        let t = l.drop_last();
        lemma_filter_ids_unique(t, p);
        let ft = t.filter(p);
        if p(l.last()) {
            assert(l.filter(p) == ft.push(l.last()));
            assert forall|i: int, j: int| 0 <= i < j < l.filter(p).len() implies l.filter(p)[i].snapshot_id != l.filter(p)[j].snapshot_id by {
                if j == ft.len() {
                    assert(ft.contains(ft[i]));
                    t.lemma_filter_contains_rev(p, ft[i]);
                    let k = choose|k: int| 0 <= k < t.len() && t[k] == ft[i];
                    assert(l[k] == t[k]);
                }
            }
        }
    }
}

/// How many stored snapshots that are not archived have an id above `id`.
fn count_newer(v: &Vec<StateSnapshot>, id: u64) -> (c: usize)
    ensures
        c == newer(v@, id),
{
    let ghost s = v@;
    let ghost p = |x: StateSnapshot| x.snapshot_type != SnapshotType::Archive && x.snapshot_id > id;
    let n = v.len();
    let mut c: usize = 0;
    let mut i: usize = 0;
    while i < n
        invariant
            n == s.len(),
            s == v@,
            0 <= i <= n,
            p == (|x: StateSnapshot| x.snapshot_type != SnapshotType::Archive && x.snapshot_id > id),
            c == s.take(i as int).filter(p).len(),
            c <= i,
        decreases n - i,
    {
        let x = v[i];
        proof {
            assert(s.take(i + 1) =~= s.take(i as int).push(s[i as int]));
            s.take(i as int).lemma_filter_push(s[i as int], p);
        }
        if x.snapshot_type != SnapshotType::Archive && x.snapshot_id > id {
            c = c + 1;
        }
        i = i + 1;
    }
    assert(s.take(n as int) =~= s);
    c
}

proof fn lemma_balance_mono(s: Seq<AccountSnapshot>, n: int)
    requires
        0 <= n <= s.len(),
    ensures
        balance_sum(s.take(n)) <= balance_sum(s),
    decreases s.len() - n,
{
    if n < s.len() {
        lemma_balance_mono(s, n + 1);
        assert(s.take(n + 1).drop_last() =~= s.take(n));
    } else {
        assert(s.take(n) =~= s);
    }
}

proof fn lemma_sums_mono(s: Seq<StateSnapshot>, n: int)
    requires
        0 <= n <= s.len(),
    ensures
        compressed_sum(s.take(n)) <= compressed_sum(s),
        uncompressed_sum(s.take(n)) <= uncompressed_sum(s),
    decreases s.len() - n,
{
    if n < s.len() {
        lemma_sums_mono(s, n + 1);
        assert(s.take(n + 1).drop_last() =~= s.take(n));
    } else {
        assert(s.take(n) =~= s);
    }
}

/// The snapshots ordered by id (insertion sort).
fn sort_snapshots(v: Vec<StateSnapshot>) -> (r: Vec<StateSnapshot>)
    ensures
        sorted_by_id(r@),
        r@.to_multiset() == v@.to_multiset(),
{
    let mut r: Vec<StateSnapshot> = Vec::new();
    let mut rest = v;
    let ghost all = rest@;
    let mut i: usize = 0;
    let n: usize = rest.len();
    broadcast use vstd::seq_lib::group_to_multiset_ensures;
    while rest.len() > 0
        invariant
            n == all.len(),
            0 <= i <= n,
            rest@ == all.skip(i as int),
            sorted_by_id(r@),
            r@.to_multiset() == all.take(i as int).to_multiset(),
        decreases rest.len(),
    {
        let x = rest.remove(0);
        assert(x == all[i as int]);
        let mut k: usize = 0;
        while k < r.len() && r[k].snapshot_id <= x.snapshot_id
            invariant
                0 <= k <= r@.len(),
                forall|m: int| 0 <= m < k ==> r@[m].snapshot_id <= x.snapshot_id,
            decreases r@.len() - k,
        {
            k = k + 1;
        }
        let ghost r0 = r@;
        r.insert(k, x);
        proof {
            assert(r@ == r0.insert(k as int, x));
            assert forall|a: int, b: int| 0 <= a < b < r@.len() implies r@[a].snapshot_id <= r@[b].snapshot_id by {
                if k < r0.len() {
                    assert(r0[k as int].snapshot_id > x.snapshot_id);
                }
                if a < k && b == k {
                } else if a == k && b > k {
                    assert(r@[b] == r0[b - 1]);
                    if b - 1 > k {
                        assert(r0[k as int].snapshot_id <= r0[b - 1].snapshot_id);
                    }
                } else if a < k && b > k {
                    assert(r@[b] == r0[b - 1]);
                }
            }
            vstd::seq_lib::to_multiset_insert(r0, k as int, x);
            assert(all.take(i + 1) =~= all.take(i as int).push(x));
            vstd::seq_lib::to_multiset_build(all.take(i as int), x);
        }
        assert(rest@ =~= all.skip(i + 1));
        i = i + 1;
    }
    assert(all.take(n as int) =~= all);
    r
}

/// Which snapshots cleanup drops: never an archived one; one that is not archived exactly
/// when `max` kept snapshots that are not archived are newer (fewer keep it, `max` drop it);
/// so with a limit of zero every one that is not archived, and, with a positive limit, never
/// the newest snapshot that is not archived (none that is not archived has a larger id).
pub proof fn lemma_cleanup_rules(l: Seq<StateSnapshot>, x: StateSnapshot, max: usize)
    ensures
        x.snapshot_type == SnapshotType::Archive ==> !doomed(l, x, max),
        x.snapshot_type != SnapshotType::Archive && max == 0 ==> doomed(l, x, max),
        x.snapshot_type != SnapshotType::Archive && newer(l, x.snapshot_id) < max ==> !doomed(l, x, max),
        x.snapshot_type != SnapshotType::Archive && newer(l, x.snapshot_id) == max ==> doomed(l, x, max),
        x.snapshot_type != SnapshotType::Archive && max > 0 && (forall|j: int|
            0 <= j < l.len() ==> (#[trigger] l[j]).snapshot_type == SnapshotType::Archive || l[j].snapshot_id
                <= x.snapshot_id) ==> !doomed(l, x, max),
{
    let pred = |y: StateSnapshot| y.snapshot_type != SnapshotType::Archive && y.snapshot_id > x.snapshot_id;
    if forall|j: int|
        0 <= j < l.len() ==> (#[trigger] l[j]).snapshot_type == SnapshotType::Archive || l[j].snapshot_id
            <= x.snapshot_id {
        assert(l.all(|y: StateSnapshot| !pred(y)));
        l.lemma_all_neg_filter_empty(pred);
        assert(newer(l, x.snapshot_id) == 0);
    }
}

/// No two snapshots share a file: different ids give different data names and different
/// metadata names, and a data name is never a metadata name.
pub proof fn lemma_snapshot_files_distinct(a: u64, b: u64)
    ensures
        a != b ==> data_name_spec(a) != data_name_spec(b),
        a != b ==> meta_name_spec(a) != meta_name_spec(b),
        data_name_spec(a) != meta_name_spec(b),
{
    if a != b && data_name_spec(a) == data_name_spec(b) {
        crate::util::lemma_framed_decimal_injective("snapshot_"@, ".dat"@, a as nat, b as nat);
    }
    if a != b && meta_name_spec(a) == meta_name_spec(b) {
        crate::util::lemma_framed_decimal_injective("snapshot_"@, ".json"@, a as nat, b as nat);
    }
    reveal_strlit(".dat");
    reveal_strlit(".json");
    let d = data_name_spec(a);
    let m = meta_name_spec(b);
    assert(d.last() == 't');
    assert(m.last() == 'n');
}

} // verus!
