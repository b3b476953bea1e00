use vstd::prelude::*;

use crate::compression::{gunzip_spec, gzip_compress, gzip_decompress, gzip_spec};
use crate::util::{decimal_spec, push_decimal, push_str};

verus! {

/// Checkpoint of rollup state at a point in time.
#[derive(Debug, Clone)]
pub struct Checkpoint {
    pub checkpoint_id: u64,
    pub batch_id: u64,
    pub state_root: crate::hash_utils::Hash,
    pub timestamp: u64,
    pub transaction_count: u64,
    pub account_count: usize,
    pub data_size: usize,
    pub metadata: CheckpointMetadata,
}

#[derive(Debug, Clone)]
pub struct CheckpointMetadata {
    pub version: String,
    pub created_at: String,
    pub checkpoint_type: CheckpointType,
    pub compression: bool,
}

#[derive(Debug, Clone, Copy, PartialEq, Eq, Structural)]
pub enum CheckpointType {
    /// Complete state snapshot.
    Full,
    /// Only changes since the last checkpoint.
    Incremental,
    /// Emergency backup.
    Emergency,
}

#[derive(Debug, Clone, Copy, PartialEq, Eq, Structural)]
pub struct CheckpointStats {
    pub total_checkpoints: usize,
    pub total_size_bytes: u64,
    pub oldest_checkpoint: Option<u64>,
    pub newest_checkpoint: Option<u64>,
    pub last_checkpoint_batch: u64,
}

/// Why a checkpoint could not be restored.
#[derive(Debug, Clone, Copy, PartialEq, Eq, Structural)]
pub enum CheckpointError {
    /// The data file is not a gzip stream that decodes.
    CorruptData,
}

/// The gzip level checkpoint data is written at (flate2's default).
pub const CHECKPOINT_GZIP_LEVEL: u32 = 6;

/// The file name of a checkpoint's metadata.
pub open spec fn meta_name_spec(id: u64) -> Seq<char> {
    "checkpoint_"@ + decimal_spec(id as nat) + "_meta.json"@
}

/// The file name of a checkpoint's compressed data.
pub open spec fn data_name_spec(id: u64) -> Seq<char> {
    "checkpoint_"@ + decimal_spec(id as nat) + "_data.bin.gz"@
}

/// Whether the checkpoints are ordered by id.
pub open spec fn sorted_by_id(s: Seq<Checkpoint>) -> bool {
    forall|i: int, j: int| 0 <= i < j < s.len() ==> s[i].checkpoint_id <= s[j].checkpoint_id
}

/// The data sizes added up.
pub open spec fn size_sum(s: Seq<Checkpoint>) -> int
    decreases s.len(),
{
    if s.len() == 0 {
        0
    } else {
        size_sum(s.drop_last()) + s.last().data_size
    }
}

/// Decides when and under which ids checkpoints are made; the files are written and read by
/// the caller, in `checkpoint_dir`.
pub struct CheckpointManager {
    checkpoint_dir: String,
    checkpoint_interval: u64,
    last_checkpoint_batch: u64,
    checkpoint_counter: u64,
}

impl CheckpointManager {
    pub closed spec fn dir(&self) -> Seq<char> {
        self.checkpoint_dir@
    }

    /// A checkpoint is due every `interval` batches.
    pub closed spec fn interval(&self) -> u64 {
        self.checkpoint_interval
    }

    /// The batch of the last checkpoint written.
    pub closed spec fn last_batch(&self) -> u64 {
        self.last_checkpoint_batch
    }

    /// The id the next checkpoint gets.
    pub closed spec fn next_id(&self) -> u64 {
        self.checkpoint_counter
    }

    pub fn new(checkpoint_dir: String, checkpoint_interval: u64) -> (m: Self)
        ensures
            m.dir() == checkpoint_dir@,
            m.interval() == checkpoint_interval,
            m.last_batch() == 0,
            m.next_id() == 0,
    {
        CheckpointManager { checkpoint_dir, checkpoint_interval, last_checkpoint_batch: 0, checkpoint_counter: 0 }
    }

    /// The directory the checkpoints live in.
    pub fn checkpoint_dir(&self) -> (r: &String)
        ensures
            r@ == self.dir(),
    {
        &self.checkpoint_dir
    }

    /// Whether a checkpoint is due at `current_batch`: `interval` batches or more have passed
    /// since the last one.
    pub fn should_checkpoint(&self, current_batch: u64) -> (b: bool)
        requires
            current_batch >= self.last_batch(),
        ensures
            b == (current_batch - self.last_batch() >= self.interval()),
    {
        current_batch - self.last_checkpoint_batch >= self.checkpoint_interval
    }

    /// Describe the next checkpoint, which takes the next id (the counter wraps): version
    /// "1.0.0", compressed.
    pub fn next_checkpoint(
        &mut self,
        batch_id: u64,
        state_root: crate::hash_utils::Hash,
        transaction_count: u64,
        account_count: usize,
        data_size: usize,
        checkpoint_type: CheckpointType,
        timestamp: u64,
        created_at: String,
    ) -> (c: Checkpoint)
        ensures
            c.checkpoint_id == old(self).next_id(),
            c.batch_id == batch_id,
            c.state_root == state_root,
            c.timestamp == timestamp,
            c.transaction_count == transaction_count,
            c.account_count == account_count,
            c.data_size == data_size,
            c.metadata.version@ == "1.0.0"@,
            c.metadata.created_at == created_at,
            c.metadata.checkpoint_type == checkpoint_type,
            c.metadata.compression,
            final(self).next_id() == (if old(self).next_id() == u64::MAX {
                0
            } else {
                (old(self).next_id() + 1) as u64
            }),
            final(self).last_batch() == old(self).last_batch(),
            final(self).interval() == old(self).interval(),
            final(self).dir() == old(self).dir(),
    {
        let checkpoint_id = self.checkpoint_counter;
        self.checkpoint_counter = self.checkpoint_counter.wrapping_add(1);
        Checkpoint {
            checkpoint_id,
            batch_id,
            state_root,
            timestamp,
            transaction_count,
            account_count,
            data_size,
            metadata: CheckpointMetadata {
                version: "1.0.0".to_owned(),
                created_at,
                checkpoint_type,
                compression: true,
            },
        }
    }

    /// The bytes written to a checkpoint's data file: the state data, gzip-compressed at the
    /// default level. The gzip decoder reads the state data back from them.
    pub fn compress_state(state_data: &[u8]) -> (r: Vec<u8>)
        ensures
            r@ == gzip_spec(state_data@, CHECKPOINT_GZIP_LEVEL),
            gunzip_spec(r@) == Some(state_data@),
    {
        match gzip_compress(state_data, CHECKPOINT_GZIP_LEVEL) {
            Some(v) => v,
            None => Vec::new(),
        }
    }

    /// Note that the checkpoint of `batch_id` was written.
    pub fn record_checkpoint(&mut self, batch_id: u64)
        ensures
            final(self).last_batch() == batch_id,
            final(self).next_id() == old(self).next_id(),
            final(self).interval() == old(self).interval(),
            final(self).dir() == old(self).dir(),
    {
        self.last_checkpoint_batch = batch_id;
    }

    /// The file name of a checkpoint's metadata.
    pub fn meta_file_name(checkpoint_id: u64) -> (s: String)
        ensures
            s@ == meta_name_spec(checkpoint_id),
    {
        let mut s = "checkpoint_".to_owned();
        push_decimal(&mut s, checkpoint_id);
        push_str(&mut s, "_meta.json");
        s
    }

    /// The file name of a checkpoint's compressed data.
    pub fn data_file_name(checkpoint_id: u64) -> (s: String)
        ensures
            s@ == data_name_spec(checkpoint_id),
    {
        let mut s = "checkpoint_".to_owned();
        push_decimal(&mut s, checkpoint_id);
        push_str(&mut s, "_data.bin.gz");
        s
    }

    /// The latest of the listed checkpoints: one with the largest id, the last such when
    /// several share it; `None` when none is listed.
    pub fn get_latest_checkpoint<'a>(&self, listed: &'a Vec<Checkpoint>) -> (r: Option<&'a Checkpoint>)
        ensures
            listed@.len() == 0 <==> r is None,
            r matches Some(c) ==> exists|i: int|
                0 <= i < listed@.len() && listed@[i] == *c && (forall|j: int|
                    0 <= j < listed@.len() ==> #[trigger] listed@[j].checkpoint_id <= c.checkpoint_id)
                    && (forall|j: int| i < j < listed@.len() ==> #[trigger] listed@[j].checkpoint_id < c.checkpoint_id),
    {
        if listed.len() == 0 {
            return None;
        }
        let mut best: usize = 0;
        let mut i: usize = 1;
        while i < listed.len()
            invariant
                0 <= best < i <= listed@.len(),
                forall|j: int| 0 <= j < i ==> #[trigger] listed@[j].checkpoint_id <= listed@[best as int].checkpoint_id,
                forall|j: int| best < j < i ==> #[trigger] listed@[j].checkpoint_id < listed@[best as int].checkpoint_id,
            decreases listed@.len() - i,
        {
            if listed[i].checkpoint_id >= listed[best].checkpoint_id {
                best = i;
            }
            i = i + 1;
        }
        Some(&listed[best])
    }

    /// The ids of the checkpoints to delete so that only the last `keep_count` of the listed
    /// ones (ordered by id) remain: the oldest, in order.
    pub fn cleanup_old_checkpoints(&self, listed: &Vec<Checkpoint>, keep_count: usize) -> (r: Vec<u64>)
        requires
            sorted_by_id(listed@),
        ensures
            listed@.len() <= keep_count ==> r@.len() == 0,
            listed@.len() > keep_count ==> r@ == listed@.take(listed@.len() - keep_count).map_values(
                |c: Checkpoint| c.checkpoint_id,
            ),
    {
        let mut r: Vec<u64> = Vec::new();
        if listed.len() <= keep_count {
            return r;
        }
        let n = listed.len() - keep_count;
        let mut i: usize = 0;
        while i < n
            invariant
                n <= listed@.len(),
                0 <= i <= n,
                r@ == listed@.take(i as int).map_values(|c: Checkpoint| c.checkpoint_id),
            decreases n - i,
        {
            r.push(listed[i].checkpoint_id);
            assert(r@ =~= listed@.take(i + 1).map_values(|c: Checkpoint| c.checkpoint_id));
            i = i + 1;
        }
        r
    }

    /// Statistics of the listed checkpoints (ordered by id): how many, their data sizes added
    /// up, the first and last ids, and the batch of the last checkpoint written.
    pub fn get_stats(&self, listed: &Vec<Checkpoint>) -> (st: CheckpointStats)
        requires
            size_sum(listed@) <= u64::MAX,
        ensures
            st.total_checkpoints == listed@.len(),
            st.total_size_bytes == size_sum(listed@),
            st.oldest_checkpoint == (if listed@.len() == 0 {
                None
            } else {
                Some(listed@[0].checkpoint_id)
            }),
            st.newest_checkpoint == (if listed@.len() == 0 {
                None
            } else {
                Some(listed@.last().checkpoint_id)
            }),
            st.last_checkpoint_batch == self.last_batch(),
    {
        let ghost s = listed@;
        let mut total: u64 = 0;
        let mut i: usize = 0;
        proof {
            lemma_size_sum_all(s);
        }
        while i < listed.len()
            invariant
                s == listed@,
                size_sum(s) <= u64::MAX,
                0 <= i <= s.len(),
                total == size_sum(s.take(i as int)),
            decreases s.len() - i,
        {
            proof {
                lemma_size_sum_step(s, i as int);
                lemma_size_sum_mono(s, i + 1);
            }
            total = total + listed[i].data_size as u64;
            i = i + 1;
        }
        proof {
            lemma_size_sum_all(s);
        }
        let oldest = if listed.len() == 0 {
            None
        } else {
            Some(listed[0].checkpoint_id)
        };
        let newest = if listed.len() == 0 {
            None
        } else {
            Some(listed[listed.len() - 1].checkpoint_id)
        };
        CheckpointStats {
            total_checkpoints: listed.len(),
            total_size_bytes: total,
            oldest_checkpoint: oldest,
            newest_checkpoint: newest,
            last_checkpoint_batch: self.last_checkpoint_batch,
        }
    }
}

proof fn lemma_size_sum_step(s: Seq<Checkpoint>, n: int)
    requires
        0 <= n < s.len(),
    ensures
        size_sum(s.take(n + 1)) == size_sum(s.take(n)) + s[n].data_size,
{
    assert(s.take(n + 1).drop_last() =~= s.take(n));
}

proof fn lemma_size_sum_mono(s: Seq<Checkpoint>, n: int)
    requires
        0 <= n <= s.len(),
    ensures
        size_sum(s.take(n)) <= size_sum(s),
    decreases s.len() - n,
{
    if n < s.len() {
        lemma_size_sum_mono(s, n + 1);
        lemma_size_sum_step(s, n);
    } else {
        assert(s.take(n) =~= s);
    }
}

proof fn lemma_size_sum_all(s: Seq<Checkpoint>)
    ensures
        size_sum(s.take(s.len() as int)) == size_sum(s),
{
    assert(s.take(s.len() as int) =~= s);
}

/// The checkpoints ordered by id; checkpoints with equal ids keep their order.
pub fn sort_checkpoints(v: Vec<Checkpoint>) -> (r: Vec<Checkpoint>)
    ensures
        sorted_by_id(r@),
        r@.to_multiset() == v@.to_multiset(),
{
    let mut r: Vec<Checkpoint> = Vec::new();
    let mut rest = v;
    let ghost all = rest@;
    let mut i: usize = 0;
    let n: usize = rest.len();
    broadcast use vstd::seq_lib::group_to_multiset_ensures;
    while rest.len() > 0
        invariant
            n == all.len(),
            0 <= i <= n,
            rest@ == all.skip(i as int),
            sorted_by_id(r@),
            r@.to_multiset() == all.take(i as int).to_multiset(),
        decreases rest.len(),
    {
        let x = rest.remove(0);
        assert(x == all[i as int]);
        let mut k: usize = 0;
        while k < r.len() && r[k].checkpoint_id <= x.checkpoint_id
            invariant
                0 <= k <= r@.len(),
                forall|m: int| 0 <= m < k ==> r@[m].checkpoint_id <= x.checkpoint_id,
            decreases r@.len() - k,
        {
            k = k + 1;
        }
        let ghost r0 = r@;
        let ghost xid = x.checkpoint_id;
        r.insert(k, x);
        proof {
            assert(r@ == r0.insert(k as int, x));
            assert forall|a: int, b: int| 0 <= a < b < r@.len() implies r@[a].checkpoint_id <= r@[b].checkpoint_id by {
                if k < r0.len() {
                    assert(r0[k as int].checkpoint_id > xid);
                }
                if a < k && b == k {
                } else if a == k && b > k {
                    assert(r@[b] == r0[b - 1]);
                    if b - 1 > k {
                        assert(r0[k as int].checkpoint_id <= r0[b - 1].checkpoint_id);
                    }
                } else if a < k && b > k {
                    assert(r@[b] == r0[b - 1]);
                }
            }
            vstd::seq_lib::to_multiset_insert(r0, k as int, x);
            assert(all.take(i + 1) =~= all.take(i as int).push(x));
            vstd::seq_lib::to_multiset_build(all.take(i as int), x);
        }
        assert(rest@ =~= all.skip(i + 1));
        i = i + 1;
    }
    assert(all.take(n as int) =~= all);
    r
}

/// Restores state from checkpoints.
pub struct RecoveryManager {
    checkpoint_manager: CheckpointManager,
}

impl RecoveryManager {
    pub closed spec fn manager(&self) -> CheckpointManager {
        self.checkpoint_manager
    }

    pub fn new(checkpoint_manager: CheckpointManager) -> (r: Self)
        ensures
            r.manager() == checkpoint_manager,
    {
        RecoveryManager { checkpoint_manager }
    }

    /// The manager the checkpoints come from.
    pub fn checkpoint_manager(&self) -> (m: &CheckpointManager)
        ensures
            *m == self.manager(),
    {
        &self.checkpoint_manager
    }

    /// The id of the checkpoint to recover from: the latest listed (see
    /// `CheckpointManager::get_latest_checkpoint`); `None` when none is listed.
    pub fn recover_from_latest(&self, listed: &Vec<Checkpoint>) -> (r: Option<u64>)
        ensures
            listed@.len() == 0 <==> r is None,
            r matches Some(id) ==> (forall|j: int| 0 <= j < listed@.len() ==> #[trigger] listed@[j].checkpoint_id <= id)
                && exists|i: int| 0 <= i < listed@.len() && listed@[i].checkpoint_id == id,
    {
        match self.checkpoint_manager.get_latest_checkpoint(listed) {
            None => None,
            Some(c) => Some(c.checkpoint_id),
        }
    }

    /// Restore a checkpoint from its metadata and the contents of its data file: the
    /// state data is what the gzip stream decodes to; a stream that does not decode is
    /// `CorruptData`.
    pub fn recover_from_checkpoint(&self, checkpoint: Checkpoint, compressed: &[u8]) -> (r: Result<
        (Checkpoint, Vec<u8>),
        CheckpointError,
    >)
        ensures
            match gunzip_spec(compressed@) {
                Some(x) => r matches Ok((c, v)) && c == checkpoint && v@ == x,
                None => r == Err::<(Checkpoint, Vec<u8>), CheckpointError>(CheckpointError::CorruptData),
            },
    {
        match gzip_decompress(compressed) {
            Some(data) => Ok((checkpoint, data)),
            None => Err(CheckpointError::CorruptData),
        }
    }

    /// A loaded checkpoint is intact when its data has the recorded size.
    pub fn verify_checkpoint(&self, checkpoint: &Checkpoint, data: &[u8]) -> (b: bool)
        ensures
            b == (data@.len() == checkpoint.data_size),
    {
        data.len() == checkpoint.data_size
    }
}

/// No two checkpoints share a file: different ids give different metadata names and
/// different data names, and a metadata name is never a data name.
pub proof fn lemma_checkpoint_files_distinct(a: u64, b: u64)
    ensures
        a != b ==> meta_name_spec(a) != meta_name_spec(b),
        a != b ==> data_name_spec(a) != data_name_spec(b),
        meta_name_spec(a) != data_name_spec(b),
{
    if a != b && meta_name_spec(a) == meta_name_spec(b) {
        crate::util::lemma_framed_decimal_injective("checkpoint_"@, "_meta.json"@, a as nat, b as nat);
    }
    if a != b && data_name_spec(a) == data_name_spec(b) {
        crate::util::lemma_framed_decimal_injective("checkpoint_"@, "_data.bin.gz"@, a as nat, b as nat);
    }
    reveal_strlit("_meta.json");
    reveal_strlit("_data.bin.gz");
    let m = meta_name_spec(a);
    let d = data_name_spec(b);
    assert(m.last() == 'n');
    assert(d.last() == 'z');
}

} // verus!
