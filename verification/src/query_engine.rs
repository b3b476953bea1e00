use vstd::prelude::*;

use crate::table::{IdMap, StrMap};
use crate::types::utf8_spec;
use crate::util::{copy_opt_string, copy_strings, copy_vec, find_first, lemma_find_first, lemma_find_first_at, lemma_find_first_none};

verus! {

#[derive(Debug)]
pub struct AccountRecord {
    pub address: String,
    pub balance: u64,
    pub nonce: u64,
    pub created_at: u64,
    pub last_updated: u64,
    pub tx_count: u64,
}

#[derive(Debug)]
pub struct TransactionRecord {
    pub hash: crate::hash_utils::Hash,
    pub from: String,
    pub to: Option<String>,
    pub value: u64,
    pub gas_used: u64,
    pub fee: u64,
    pub status: TransactionStatus,
    pub batch_id: u64,
    pub timestamp: u64,
    pub logs: Vec<String>,
}

#[derive(Debug, Clone, Copy, PartialEq, Eq, Structural)]
pub enum TransactionStatus {
    Pending,
    Success,
    Failed,
    Reverted,
}

#[derive(Debug, Clone, Copy)]
pub struct BatchRecord {
    pub batch_id: u64,
    pub tx_count: usize,
    pub state_root: crate::hash_utils::Hash,
    pub timestamp: u64,
    pub gas_used: u64,
    pub fees_collected: u64,
}

#[derive(Debug)]
pub struct TransactionReceipt {
    pub tx_hash: crate::hash_utils::Hash,
    pub status: TransactionStatus,
    pub batch_id: u64,
    pub gas_used: u64,
    pub fee_paid: u64,
    pub logs: Vec<EventLog>,
    pub contract_address: Option<String>,
}

#[derive(Debug)]
pub struct EventLog {
    pub address: String,
    pub topics: Vec<crate::hash_utils::Hash>,
    pub data: Vec<u8>,
}

#[derive(Debug)]
pub struct TransactionFilter {
    pub from: Option<String>,
    pub to: Option<String>,
    pub min_value: Option<u64>,
    pub max_value: Option<u64>,
    pub status: Option<TransactionStatus>,
    pub min_timestamp: Option<u64>,
    pub max_timestamp: Option<u64>,
}

#[derive(Debug, Clone, Copy, PartialEq, Eq, Structural)]
pub struct QueryEngineStats {
    pub total_accounts: usize,
    pub total_transactions: usize,
    pub total_batches: usize,
}

/// At most this many accounts answer a search.
pub const SEARCH_LIMIT: usize = 100;

impl AccountRecord {
    /// A field-by-field copy.
    pub fn duplicate(&self) -> (r: AccountRecord)
        ensures
            r == *self,
    {
        AccountRecord {
            address: self.address.clone(),
            balance: self.balance,
            nonce: self.nonce,
            created_at: self.created_at,
            last_updated: self.last_updated,
            tx_count: self.tx_count,
        }
    }
}

/// Two transaction records that agree in every field, the logs compared as sequences.
pub open spec fn same_record(a: TransactionRecord, b: TransactionRecord) -> bool {
    &&& a == TransactionRecord { logs: a.logs, ..b }
    &&& a.logs@ == b.logs@
}

impl TransactionRecord {
    /// A field-by-field copy.
    pub fn duplicate(&self) -> (r: TransactionRecord)
        ensures
            same_record(r, *self),
    {
        TransactionRecord {
            hash: self.hash,
            from: self.from.clone(),
            to: copy_opt_string(&self.to),
            value: self.value,
            gas_used: self.gas_used,
            fee: self.fee,
            status: self.status,
            batch_id: self.batch_id,
            timestamp: self.timestamp,
            logs: copy_strings(&self.logs),
        }
    }
}

/// Whether a transaction passes a filter: its sender, recipient and value are checked
/// against those the filter sets (status and time bounds are not consulted).
pub open spec fn matches_spec(f: TransactionFilter, tx: TransactionRecord) -> bool {
    &&& f.from matches Some(from) ==> tx.from@ == from@
    &&& f.to matches Some(to) ==> (tx.to matches Some(t) && t@ == to@)
    &&& f.min_value matches Some(min) ==> tx.value >= min
    &&& f.max_value matches Some(max) ==> tx.value <= max
}

impl TransactionFilter {
    /// Whether `tx` passes the filter (see `matches_spec`).
    pub fn matches(&self, tx: &TransactionRecord) -> (b: bool)
        ensures
            b == matches_spec(*self, *tx),
    {
        match &self.from {
            Some(from) => {
                if tx.from != *from {
                    return false;
                }
            },
            None => {},
        }
        match &self.to {
            Some(to) => {
                match &tx.to {
                    Some(t) => {
                        if *t != *to {
                            return false;
                        }
                    },
                    None => {
                        return false;
                    },
                }
            },
            None => {},
        }
        match self.min_value {
            Some(min) => {
                if tx.value < min {
                    return false;
                }
            },
            None => {},
        }
        match self.max_value {
            Some(max) => {
                if tx.value > max {
                    return false;
                }
            },
            None => {},
        }
        true
    }
}

/// Whether `needle` occurs in `hay` as a run of consecutive bytes.
pub open spec fn bytes_contain(hay: Seq<u8>, needle: Seq<u8>) -> bool {
    exists|i: int| 0 <= i <= hay.len() - needle.len() && #[trigger] hay.subrange(i, i + needle.len()) == needle
}

/// Whether `hay` contains `needle`, compared by UTF-8 bytes as `str::contains` does.
pub open spec fn str_contains(hay: Seq<char>, needle: Seq<char>) -> bool {
    bytes_contain(utf8_spec(hay), utf8_spec(needle))
}

/// Whether `needle` occurs in `hay` at `i`.
fn occurs_at(hay: &[u8], needle: &[u8], i: usize) -> (b: bool)
    requires
        i + needle@.len() <= hay@.len(),
    ensures
        b == (hay@.subrange(i as int, i + needle@.len()) == needle@),
{
    let hl = hay.len();
    let mut j: usize = 0;
    while j < needle.len()
        invariant
            hl == hay@.len(),
            i + needle@.len() <= hay@.len(),
            0 <= j <= needle@.len(),
            forall|k: int| 0 <= k < j ==> hay@[i + k] == needle@[k],
        decreases needle@.len() - j,
    {
        if hay[i + j] != needle[j] {
            assert(hay@.subrange(i as int, i + needle@.len())[j as int] != needle@[j as int]);
            return false;
        }
        j = j + 1;
    }
    assert(hay@.subrange(i as int, i + needle@.len()) =~= needle@);
    true
}

/// Whether `needle` occurs in `hay` (see `bytes_contain`).
fn contains_bytes(hay: &[u8], needle: &[u8]) -> (b: bool)
    ensures
        b == bytes_contain(hay@, needle@),
{
    if needle.len() > hay.len() {
        return false;
    }
    let n = hay.len() - needle.len();
    let mut i: usize = 0;
    while i < n
        invariant
            n + needle@.len() == hay@.len(),
            0 <= i <= n,
            forall|k: int| 0 <= k < i ==> #[trigger] hay@.subrange(k, k + needle@.len()) != needle@,
        decreases n - i,
    {
        if occurs_at(hay, needle, i) {
            return true;
        }
        i = i + 1;
    }
    occurs_at(hay, needle, n)
}

/// The key a record is filed under in a transaction list.
pub open spec fn tx_pos(s: Seq<TransactionRecord>, h: Seq<u8>) -> Option<int> {
    find_first(s, |t: TransactionRecord| t.hash@ == h)
}

/// A history after `h` is added for `address`: appended, the history started if new.
pub open spec fn history_push(m: Map<Seq<char>, Seq<crate::hash_utils::Hash>>, address: Seq<char>, h: crate::hash_utils::Hash) -> Map<Seq<char>, Seq<crate::hash_utils::Hash>> {
    m.insert(address, if m.dom().contains(address) { m[address].push(h) } else { seq![h] })
}

/// The `limit` latest records of `m`: in descending id order, and every record left out has
/// a lower id than all those given, which are `limit` many.
pub open spec fn latest_batches_spec(r: Seq<BatchRecord>, m: Map<u64, BatchRecord>, limit: usize) -> bool {
    &&& r.len() <= limit
    &&& forall|i: int| 0 <= i < r.len() ==> m.dom().contains(#[trigger] r[i].batch_id) && m[r[i].batch_id] == r[i]
    &&& forall|i: int, j: int| 0 <= i < j < r.len() ==> #[trigger] r[i].batch_id > #[trigger] r[j].batch_id
    &&& forall|id: u64| #[trigger] m.dom().contains(id) ==> (exists|i: int| 0 <= i < r.len() && r[i].batch_id == id) || (
    r.len() == limit && (r.len() == 0 || id < r.last().batch_id))
}

/// Accounts, transactions, batches, histories and balances, indexed for queries.
pub struct QueryEngine {
    account_index: StrMap<AccountRecord>,
    tx_index: Vec<TransactionRecord>,
    batch_index: IdMap<BatchRecord>,
    account_history: StrMap<Vec<crate::hash_utils::Hash>>,
    balances: StrMap<u64>,
}

impl QueryEngine {
    /// The accounts, by address.
    pub closed spec fn accounts(&self) -> Map<Seq<char>, AccountRecord> {
        self.account_index@
    }

    /// The accounts, in the order they were first stored.
    pub closed spec fn account_list(&self) -> Seq<AccountRecord> {
        self.account_index.values()
    }

    /// The indexed transactions, in the order their hashes were first indexed.
    pub closed spec fn transactions(&self) -> Seq<TransactionRecord> {
        self.tx_index@
    }

    /// The batches, by id.
    pub closed spec fn batches(&self) -> Map<u64, BatchRecord> {
        self.batch_index@
    }

    /// Each address's transaction hashes, oldest first.
    pub closed spec fn histories(&self) -> Map<Seq<char>, Seq<crate::hash_utils::Hash>> {
        self.account_history@.map_values(|v: Vec<crate::hash_utils::Hash>| v@)
    }

    /// The tracked balances.
    pub closed spec fn balances(&self) -> Map<Seq<char>, u64> {
        self.balances@
    }

    pub closed spec fn wf(&self) -> bool {
        &&& self.account_index.wf()
        &&& self.batch_index.wf()
        &&& self.account_history.wf()
        &&& self.balances.wf()
        &&& forall|i: int, j: int| 0 <= i < j < self.tx_index@.len() ==> (#[trigger] self.tx_index@[i]).hash@
            != (#[trigger] self.tx_index@[j]).hash@
        &&& forall|id: u64| #[trigger] self.batch_index@.dom().contains(id) ==> self.batch_index@[id].batch_id == id
    }

    pub fn new() -> (q: Self)
        ensures
            q.wf(),
            q.accounts() == Map::<Seq<char>, AccountRecord>::empty(),
            q.transactions() == Seq::<TransactionRecord>::empty(),
            q.batches() == Map::<u64, BatchRecord>::empty(),
            q.histories() == Map::<Seq<char>, Seq<crate::hash_utils::Hash>>::empty(),
            q.balances() == Map::<Seq<char>, u64>::empty(),
    {
        let q = QueryEngine {
            account_index: StrMap::new(),
            tx_index: Vec::new(),
            batch_index: IdMap::new(),
            account_history: StrMap::new(),
            balances: StrMap::new(),
        };
        assert(q.histories() =~= Map::<Seq<char>, Seq<crate::hash_utils::Hash>>::empty());
        q
    }

    /// A copy of the account at `address`, if stored.
    pub fn get_account(&self, address: &str) -> (r: Option<AccountRecord>)
        requires
            self.wf(),
        ensures
            r == if self.accounts().dom().contains(address@) {
                Some(self.accounts()[address@])
            } else {
                None::<AccountRecord>
            },
    {
        match self.account_index.get(address) {
            Some(a) => Some(a.duplicate()),
            None => None,
        }
    }

    /// Store an account under its address, replacing what was there.
    pub fn update_account(&mut self, record: AccountRecord)
        requires
            old(self).wf(),
        ensures
            final(self).wf(),
            final(self).accounts() == old(self).accounts().insert(record.address@, record),
            final(self).transactions() == old(self).transactions(),
            final(self).batches() == old(self).batches(),
            final(self).histories() == old(self).histories(),
            final(self).balances() == old(self).balances(),
    {
        let key = record.address.clone();
        self.account_index.insert(key, record);
    }

    /// The tracked balance of `address`, 0 if untracked.
    pub fn get_balance(&self, address: &str) -> (b: u64)
        requires
            self.wf(),
        ensures
            b == if self.balances().dom().contains(address@) { self.balances()[address@] } else { 0 },
    {
        match self.balances.get(address) {
            Some(b) => *b,
            None => 0,
        }
    }

    /// Set the tracked balance of `address`.
    pub fn update_balance(&mut self, address: &str, balance: u64)
        requires
            old(self).wf(),
        ensures
            final(self).wf(),
            final(self).balances() == old(self).balances().insert(address@, balance),
            final(self).accounts() == old(self).accounts(),
            final(self).transactions() == old(self).transactions(),
            final(self).batches() == old(self).batches(),
            final(self).histories() == old(self).histories(),
    {
        self.balances.insert(address.to_owned(), balance);
    }

    /// The latest `limit` transaction hashes of `address`, oldest first (all of them when
    /// there are no more than `limit`; none for an unknown address).
    pub fn get_account_history(&self, address: &str, limit: usize) -> (r: Vec<crate::hash_utils::Hash>)
        requires
            self.wf(),
        ensures
            !self.histories().dom().contains(address@) ==> r@.len() == 0,
            self.histories().dom().contains(address@) ==> {
                let h = self.histories()[address@];
                r@ == if h.len() > limit { h.subrange(h.len() - limit, h.len() as int) } else { h }
            },
    {
        match self.account_history.get(address) {
            Some(h) => {
                let len = h.len();
                if len > limit {
                    let mut r: Vec<crate::hash_utils::Hash> = Vec::new();
                    let mut i: usize = len - limit;
                    while i < len
                        invariant
                            len == h@.len(),
                            limit < len,
                            len - limit <= i <= len,
                            r@ == h@.subrange(len - limit, i as int),
                        decreases len - i,
                    {
                        r.push(h[i]);
                        i = i + 1;
                        assert(r@ =~= h@.subrange(len - limit, i as int));
                    }
                    r
                } else {
                    copy_vec(h)
                }
            },
            None => Vec::new(),
        }
    }

    fn find_tx(&self, h: &crate::hash_utils::Hash) -> (r: Option<usize>)
        ensures
            match r {
                Some(i) => tx_pos(self.transactions(), h@) == Some(i as int) && (i as int) < self.transactions().len(),
                None => tx_pos(self.transactions(), h@) is None,
            },
    {
        let ghost pred = |t: TransactionRecord| t.hash@ == h@;
        let mut i: usize = 0;
        while i < self.tx_index.len()
            invariant
                0 <= i <= self.tx_index@.len(),
                pred == (|t: TransactionRecord| t.hash@ == h@),
                forall|j: int| 0 <= j < i ==> !pred(#[trigger] self.tx_index@[j]),
            decreases self.tx_index@.len() - i,
        {
            if self.tx_index[i].hash == *h {
                proof {
                    lemma_find_first_at(self.tx_index@, pred, i as int);
                }
                return Some(i);
            }
            i = i + 1;
        }
        proof {
            lemma_find_first(self.tx_index@, pred);
        }
        None
    }

    /// Append `h` to the history of `address`, starting it if new.
    fn push_history(&mut self, address: String, h: crate::hash_utils::Hash)
        requires
            old(self).wf(),
        ensures
            final(self).wf(),
            final(self).histories() == history_push(old(self).histories(), address@, h),
            final(self).accounts() == old(self).accounts(),
            final(self).transactions() == old(self).transactions(),
            final(self).batches() == old(self).batches(),
            final(self).balances() == old(self).balances(),
    {
        let ghost m0 = self.account_history@;
        let v: Vec<crate::hash_utils::Hash> = match self.account_history.remove(address.as_str()) {
            Some(mut v) => {
                v.push(h);
                v
            },
            None => {
                let mut v: Vec<crate::hash_utils::Hash> = Vec::new();
                v.push(h);
                v
            },
        };
        let ghost vv = v@;
        self.account_history.insert(address, v);
        proof {
            assert(vv =~= if m0.dom().contains(address@) { m0[address@]@.push(h) } else { seq![h] });
            assert(self.histories() =~= history_push(old(self).histories(), address@, h));
        }
    }

    /// The transactions after `record` is indexed: it replaces a record of the same hash in
    /// its place, or else goes last.
    pub open spec fn indexed(s: Seq<TransactionRecord>, record: TransactionRecord) -> Seq<TransactionRecord> {
        match tx_pos(s, record.hash@) {
            Some(i) => s.update(i, record),
            None => s.push(record),
        }
    }

    /// Index a transaction: it is filed under its hash, added to the sender's history and,
    /// if it has one, to the recipient's, and the sender's account, if stored, counts one
    /// more transaction.
    pub fn index_transaction(&mut self, record: TransactionRecord)
        requires
            old(self).wf(),
            old(self).accounts().dom().contains(record.from@) ==> old(self).accounts()[record.from@].tx_count < u64::MAX,
        ensures
            final(self).wf(),
            final(self).transactions() == Self::indexed(old(self).transactions(), record),
            final(self).histories() == match record.to {
                Some(to) => history_push(history_push(old(self).histories(), record.from@, record.hash), to@, record.hash),
                None => history_push(old(self).histories(), record.from@, record.hash),
            },
            final(self).accounts() == if old(self).accounts().dom().contains(record.from@) {
                old(self).accounts().insert(record.from@, AccountRecord {
                    tx_count: (old(self).accounts()[record.from@].tx_count + 1) as u64,
                    ..old(self).accounts()[record.from@]
                })
            } else {
                old(self).accounts()
            },
            final(self).batches() == old(self).batches(),
            final(self).balances() == old(self).balances(),
    {
        let hash = record.hash;
        let from = record.from.clone();
        let to = copy_opt_string(&record.to);
        let ghost s0 = self.tx_index@;
        let ghost rv = record;
        match self.find_tx(&hash) {
            Some(i) => {
                self.tx_index.set(i, record);
                assert forall|a: int, b: int| 0 <= a < b < self.tx_index@.len() implies (#[trigger] self.tx_index@[a]).hash@
                    != (#[trigger] self.tx_index@[b]).hash@ by {
                    if a != i && b != i {
                    } else if a == i {
                        assert(s0[a].hash@ == rv.hash@);
                    } else {
                        assert(s0[b].hash@ == rv.hash@);
                    }
                }
            },
            None => {
                proof {
                    lemma_find_first_none(s0, |t: TransactionRecord| t.hash@ == rv.hash@);
                }
                self.tx_index.push(record);
                assert forall|a: int, b: int| 0 <= a < b < self.tx_index@.len() implies (#[trigger] self.tx_index@[a]).hash@
                    != (#[trigger] self.tx_index@[b]).hash@ by {
                    if b == s0.len() {
                        assert(self.tx_index@[a] == s0[a]);
                    }
                }
            },
        }
        self.push_history(from.clone(), hash);
        match to {
            Some(t) => self.push_history(t, hash),
            None => {},
        }
        match self.account_index.position(from.as_str()) {
            Some(p) => {
                proof {
                    self.account_index.lemma_view();
                }
                let mut acc = self.account_index.value_at(p).duplicate();
                acc.tx_count = acc.tx_count + 1;
                self.account_index.set_value_at(p, acc);
            },
            None => {},
        }
    }

    /// A copy of the transaction with `hash`, if indexed.
    pub fn get_transaction(&self, hash: &crate::hash_utils::Hash) -> (r: Option<TransactionRecord>)
        ensures
            match r {
                Some(t) => tx_pos(self.transactions(), hash@) matches Some(i) && same_record(t, self.transactions()[i]),
                None => tx_pos(self.transactions(), hash@) is None,
            },
    {
        match self.find_tx(hash) {
            Some(i) => Some(self.tx_index[i].duplicate()),
            None => None,
        }
    }

    /// The receipt of the transaction with `hash`, if indexed: its status, batch, gas and fee,
    /// with no logs and no contract address.
    pub fn get_receipt(&self, hash: &crate::hash_utils::Hash) -> (r: Option<TransactionReceipt>)
        ensures
            match r {
                Some(rc) => tx_pos(self.transactions(), hash@) matches Some(i) && {
                    let t = self.transactions()[i];
                    &&& rc.tx_hash == t.hash
                    &&& rc.status == t.status
                    &&& rc.batch_id == t.batch_id
                    &&& rc.gas_used == t.gas_used
                    &&& rc.fee_paid == t.fee
                    &&& rc.logs@.len() == 0
                    &&& rc.contract_address is None
                },
                None => tx_pos(self.transactions(), hash@) is None,
            },
    {
        match self.find_tx(hash) {
            Some(i) => {
                let t = &self.tx_index[i];
                Some(TransactionReceipt {
                    tx_hash: t.hash,
                    status: t.status,
                    batch_id: t.batch_id,
                    gas_used: t.gas_used,
                    fee_paid: t.fee,
                    logs: Vec::new(),
                    contract_address: None,
                })
            },
            None => None,
        }
    }

    /// File a batch under its id, replacing what was there.
    pub fn index_batch(&mut self, record: BatchRecord)
        requires
            old(self).wf(),
        ensures
            final(self).wf(),
            final(self).batches() == old(self).batches().insert(record.batch_id, record),
            final(self).accounts() == old(self).accounts(),
            final(self).transactions() == old(self).transactions(),
            final(self).histories() == old(self).histories(),
            final(self).balances() == old(self).balances(),
    {
        self.batch_index.insert(record.batch_id, record);
    }

    /// The batch with `batch_id`, if filed.
    pub fn get_batch(&self, batch_id: u64) -> (r: Option<BatchRecord>)
        requires
            self.wf(),
        ensures
            r == if self.batches().dom().contains(batch_id) {
                Some(self.batches()[batch_id])
            } else {
                None::<BatchRecord>
            },
    {
        match self.batch_index.get(batch_id) {
            Some(b) => Some(*b),
            None => None,
        }
    }

    /// The batch with the highest id below `bound` (any id if there is no bound), if any.
    fn highest_below(&self, bound: Option<u64>) -> (r: Option<BatchRecord>)
        requires
            self.wf(),
        ensures
            match r {
                Some(b) => self.batches().dom().contains(b.batch_id) && self.batches()[b.batch_id] == b
                    && (bound matches Some(x) ==> b.batch_id < x)
                    && forall|id: u64| #[trigger] self.batches().dom().contains(id) && (bound matches Some(x) ==> id < x) ==> id <= b.batch_id,
                None => forall|id: u64| #[trigger] self.batches().dom().contains(id) ==> (bound matches Some(x) && id >= x),
            },
    {
        proof {
            self.batch_index.lemma_view();
        }
        let n = self.batch_index.len_entries();
        let mut best: Option<BatchRecord> = None;
        let mut i: usize = 0;
        while i < n
            invariant
                self.wf(),
                n == self.batch_index.entries().len(),
                0 <= i <= n,
                forall|k: int| 0 <= k < n ==> #[trigger] self.batch_index@.dom().contains(self.batch_index.entries()[k].0)
                    && self.batch_index@[self.batch_index.entries()[k].0] == self.batch_index.entries()[k].1,
                match best {
                    Some(b) => self.batches().dom().contains(b.batch_id) && self.batches()[b.batch_id] == b
                        && (bound matches Some(x) ==> b.batch_id < x)
                        && forall|k: int| 0 <= k < i && (bound matches Some(x) ==> #[trigger] self.batch_index.entries()[k].0 < x)
                        ==> self.batch_index.entries()[k].0 <= b.batch_id,
                    None => forall|k: int| 0 <= k < i ==> (bound matches Some(x) && #[trigger] self.batch_index.entries()[k].0 >= x),
                },
            decreases n - i,
        {
            let id = self.batch_index.key_at(i);
            let rec = self.batch_index.value_at(i);
            assert(self.batch_index@.dom().contains(self.batch_index.entries()[i as int].0));
            assert(rec.batch_id == id);
            let below = match bound {
                Some(x) => id < x,
                None => true,
            };
            if below {
                match best {
                    Some(b) => {
                        if id > b.batch_id {
                            best = Some(*rec);
                        }
                    },
                    None => {
                        best = Some(*rec);
                    },
                }
            }
            i = i + 1;
        }
        proof {
            assert forall|id: u64| #[trigger] self.batches().dom().contains(id) implies exists|k: int| 0 <= k < n && self.batch_index.entries()[k].0 == id by {
            }
        }
        best
    }

    /// The `limit` batches with the highest ids, highest first.
    pub fn get_latest_batches(&self, limit: usize) -> (r: Vec<BatchRecord>)
        requires
            self.wf(),
        ensures
            latest_batches_spec(r@, self.batches(), limit),
    {
        let mut r: Vec<BatchRecord> = Vec::new();
        let mut bound: Option<u64> = None;
        while r.len() < limit
            invariant
                self.wf(),
                r@.len() <= limit,
                forall|i: int| 0 <= i < r@.len() ==> self.batches().dom().contains(#[trigger] r@[i].batch_id) && self.batches()[r@[i].batch_id] == r@[i],
                forall|i: int, j: int| 0 <= i < j < r@.len() ==> #[trigger] r@[i].batch_id > #[trigger] r@[j].batch_id,
                bound is None <==> r@.len() == 0,
                bound matches Some(x) ==> x == r@.last().batch_id,
                bound matches Some(x) ==> forall|id: u64| #[trigger] self.batches().dom().contains(id) ==> (exists|i: int| 0 <= i < r@.len() && r@[i].batch_id == id)
                    || id < x,
            decreases limit - r@.len(),
        {
            match self.highest_below(bound) {
                None => {
                    assert(latest_batches_spec(r@, self.batches(), limit)) by {
                        assert forall|id: u64| #[trigger] self.batches().dom().contains(id) implies (exists|i: int| 0 <= i < r@.len() && r@[i].batch_id == id) by {
                            if !(exists|i: int| 0 <= i < r@.len() && r@[i].batch_id == id) {
                                assert(bound matches Some(x) && id >= x);
                            }
                        }
                    }
                    return r;
                },
                Some(b) => {
                    let ghost r0 = r@;
                    r.push(b);
                    bound = Some(b.batch_id);
                    proof {
                        assert forall|id: u64| #[trigger] self.batches().dom().contains(id) implies (exists|i: int| 0 <= i < r@.len() && r@[i].batch_id == id)
                            || id < b.batch_id by {
                            if !(exists|i: int| 0 <= i < r0.len() && r0[i].batch_id == id) {
                                if id == b.batch_id {
                                    assert(r@[r0.len() as int].batch_id == id);
                                }
                            } else {
                                let i = choose|i: int| 0 <= i < r0.len() && r0[i].batch_id == id;
                                assert(r@[i].batch_id == id);
                            }
                        }
                    }
                },
            }
        }
        r
    }
    /// Copies of the transactions that pass `filter`, in index order.
    pub fn query_transactions(&self, filter: TransactionFilter) -> (r: Vec<TransactionRecord>)
        ensures
            r@.len() == self.transactions().filter(|t: TransactionRecord| matches_spec(filter, t)).len(),
            forall|i: int| 0 <= i < r@.len() ==> same_record(#[trigger] r@[i], self.transactions().filter(
                |t: TransactionRecord| matches_spec(filter, t),
            )[i]),
    {
        let ghost s = self.transactions();
        let ghost pred = |t: TransactionRecord| matches_spec(filter, t);
        let mut r: Vec<TransactionRecord> = Vec::new();
        let mut i: usize = 0;
        while i < self.tx_index.len()
            invariant
                s == self.transactions(),
                0 <= i <= s.len(),
                pred == (|t: TransactionRecord| matches_spec(filter, t)),
                r@.len() == s.take(i as int).filter(pred).len(),
                forall|k: int| 0 <= k < r@.len() ==> same_record(#[trigger] r@[k], s.take(i as int).filter(pred)[k]),
            decreases s.len() - i,
        {
            let t = &self.tx_index[i];
            proof {
                assert(s.take(i + 1) =~= s.take(i as int).push(*t));
                s.take(i as int).lemma_filter_push(*t, pred);
            }
            if filter.matches(t) {
                r.push(t.duplicate());
            }
            i = i + 1;
        }
        assert(s.take(i as int) =~= s);
        r
    }

    /// The accounts whose address contains `query` (by UTF-8 bytes), in storing order, at most
    /// `SEARCH_LIMIT` of them.
    pub fn search_accounts(&self, query: &str) -> (r: Vec<AccountRecord>)
        requires
            self.wf(),
        ensures
            ({
                let found = self.account_list().filter(|a: AccountRecord| str_contains(a.address@, query@));
                r@ == if found.len() > SEARCH_LIMIT { found.take(SEARCH_LIMIT as int) } else { found }
            }),
    {
        let ghost s = self.account_list();
        let ghost pred = |a: AccountRecord| str_contains(a.address@, query@);
        let qb = query.as_bytes();
        let n = self.account_index.len_entries();
        let mut r: Vec<AccountRecord> = Vec::new();
        let mut i: usize = 0;
        while i < n
            invariant
                s == self.account_list(),
                n == s.len(),
                n == self.account_index.entries().len(),
                qb@ == utf8_spec(query@),
                0 <= i <= n,
                pred == (|a: AccountRecord| str_contains(a.address@, query@)),
                r@.len() <= SEARCH_LIMIT,
                r@.len() < SEARCH_LIMIT ==> r@ == s.take(i as int).filter(pred),
                r@.len() == SEARCH_LIMIT ==> r@ == s.take(i as int).filter(pred).take(SEARCH_LIMIT as int),
                r@.len() == SEARCH_LIMIT ==> s.take(i as int).filter(pred).len() >= SEARCH_LIMIT,
            decreases n - i,
        {
            let a = self.account_index.value_at(i);
            assert(*a == s[i as int]);
            proof {
                assert(s.take(i + 1) =~= s.take(i as int).push(*a));
                s.take(i as int).lemma_filter_push(*a, pred);
            }
            if r.len() < SEARCH_LIMIT {
                let ab = a.address.as_str().as_bytes();
                if contains_bytes(ab, qb) {
                    r.push(a.duplicate());
                }
            } else {
                assert(s.take(i + 1).filter(pred).take(SEARCH_LIMIT as int) =~= s.take(i as int).filter(pred).take(SEARCH_LIMIT as int));
            }
            i = i + 1;
        }
        assert(s.take(n as int) =~= s);
        proof {
            let found = s.filter(pred);
            if r@.len() < SEARCH_LIMIT {
            } else if found.len() == SEARCH_LIMIT {
                assert(found.take(SEARCH_LIMIT as int) =~= found);
            }
        }
        r
    }

    /// How many accounts, transactions and batches are indexed.
    pub fn get_stats(&self) -> (st: QueryEngineStats)
        requires
            self.wf(),
        ensures
            st.total_accounts == self.accounts().dom().len(),
            st.total_transactions == self.transactions().len(),
            st.total_batches == self.batches().dom().len(),
    {
        QueryEngineStats {
            total_accounts: self.account_index.len(),
            total_transactions: self.tx_index.len(),
            total_batches: self.batch_index.len(),
        }
    }
}

impl Default for QueryEngine {
    fn default() -> (q: Self)
        ensures
            q.wf(),
            q.accounts() == Map::<Seq<char>, AccountRecord>::empty(),
            q.transactions() == Seq::<TransactionRecord>::empty(),
            q.batches() == Map::<u64, BatchRecord>::empty(),
            q.histories() == Map::<Seq<char>, Seq<crate::hash_utils::Hash>>::empty(),
            q.balances() == Map::<Seq<char>, u64>::empty(),
    {
        Self::new()
    }
}

/// What a read gives back of a write: after `update_account(record)`, `get_account` of its
/// address answers the record, and every other address answers what it did before.
pub proof fn lemma_account_read_after_write(
    before: Map<Seq<char>, AccountRecord>,
    record: AccountRecord,
    other: Seq<char>,
)
    ensures
        before.insert(record.address@, record).dom().contains(record.address@),
        before.insert(record.address@, record)[record.address@] == record,
        other != record.address@ ==> (before.insert(record.address@, record).dom().contains(other)
            == before.dom().contains(other)),
        other != record.address@ && before.dom().contains(other) ==> before.insert(record.address@, record)[other]
            == before[other],
{
}

/// How a transaction filter judges: a filter that names no sender, recipient or value bound
/// passes every transaction; a named sender turns away every other sender; a named recipient
/// turns away a contract creation (no recipient); the value bounds are inclusive, so with
/// nothing else set a transaction passes exactly when `min <= value <= max`.
pub proof fn lemma_filter_semantics(f: TransactionFilter, tx: TransactionRecord)
    ensures
        (f.from is None && f.to is None && f.min_value is None && f.max_value is None) ==> matches_spec(f, tx),
        (f.from matches Some(a) && a@ != tx.from@) ==> !matches_spec(f, tx),
        (f.to is Some && tx.to is None) ==> !matches_spec(f, tx),
        (f.from is None && f.to is None && f.min_value is Some && f.max_value is Some) ==> (matches_spec(f, tx)
            <==> f.min_value->Some_0 <= tx.value <= f.max_value->Some_0),
{
}

/// Every text contains itself.
pub proof fn lemma_contains_itself(hay: Seq<char>)
    ensures
        str_contains(hay, hay),
{
    let b = utf8_spec(hay);
    assert(b.subrange(0, 0 + b.len() as int) =~= b);
}

} // verus!
