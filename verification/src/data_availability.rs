use vstd::prelude::*;
use sha3::Digest;

use crate::clock::now_secs;
use crate::table::IdMap;
use crate::util::{copy_vec, sort_u64, ascending};

verus! {

/// The Keccak-256 digest of `data`, as the `sha3` crate computes it.
pub uninterp spec fn keccak256_spec(data: Seq<u8>) -> Seq<u8>;

/// Calls `sha3::Keccak256::digest` (through the `Digest` trait). The contract claims only
/// that the 32 bytes returned are the Keccak-256 digest of `data`, named by `keccak256_spec`.
#[verifier::external_body]
fn keccak256(data: &[u8]) -> (out: [u8; 32])
    ensures
        out@ == keccak256_spec(data@),
{
    sha3::Keccak256::digest(data).into()
}

/// A batch's data, with its Keccak-256 hash and when it was stored.
#[derive(Debug)]
pub struct DataBlob {
    pub batch_id: u64,
    pub data: Vec<u8>,
    pub hash: [u8; 32],
    pub timestamp: u64,
}

/// What a data blob holds.
pub struct BlobModel {
    pub batch_id: u64,
    pub data: Seq<u8>,
    pub hash: Seq<u8>,
    pub timestamp: u64,
}

impl View for DataBlob {
    type V = BlobModel;

    open spec fn view(&self) -> BlobModel {
        BlobModel { batch_id: self.batch_id, data: self.data@, hash: self.hash@, timestamp: self.timestamp }
    }
}

/// Whether two 32-byte arrays hold the same bytes.
fn same_bytes(a: &[u8; 32], b: &[u8; 32]) -> (r: bool)
    ensures
        r == (a@ == b@),
{
    let mut i: usize = 0;
    while i < 32
        invariant
            0 <= i <= 32,
            a@.len() == 32,
            b@.len() == 32,
            forall|j: int| 0 <= j < i ==> a@[j] == b@[j],
        decreases 32 - i,
    {
        if a[i] != b[i] {
            return false;
        }
        i = i + 1;
    }
    assert(a@ =~= b@);
    true
}

impl DataBlob {
    /// The blob of `data` for `batch_id`, hashed with Keccak-256, stored at `now`.
    pub fn new_at(batch_id: u64, data: Vec<u8>, now: u64) -> (b: Self)
        ensures
            b@ == (BlobModel { batch_id, data: data@, hash: keccak256_spec(data@), timestamp: now }),
    {
        let hash = keccak256(data.as_slice());
        DataBlob { batch_id, data, hash, timestamp: now }
    }

    /// The blob of `data` for `batch_id`, stored now by the wall clock.
    pub fn new(batch_id: u64, data: Vec<u8>) -> (b: Self)
        ensures
            b.batch_id == batch_id,
            b.data@ == data@,
            b.hash@ == keccak256_spec(data@),
    {
        Self::new_at(batch_id, data, now_secs())
    }

    /// Whether the hash is the Keccak-256 of the data.
    pub fn verify(&self) -> (b: bool)
        ensures
            b == (keccak256_spec(self.data@) == self.hash@),
    {
        let h = keccak256(self.data.as_slice());
        same_bytes(&h, &self.hash)
    }

    /// A field-by-field copy.
    pub fn duplicate(&self) -> (r: DataBlob)
        ensures
            r@ == self@,
    {
        DataBlob { batch_id: self.batch_id, data: copy_vec(&self.data), hash: self.hash, timestamp: self.timestamp }
    }
}

/// Why a blob was refused.
#[derive(Debug, Clone, Copy, PartialEq, Eq, Structural)]
pub enum DaError {
    VerificationFailed,
}

#[derive(Debug, Clone, Copy, PartialEq, Eq, Structural)]
pub struct DAStats {
    pub total_blobs: usize,
    pub total_bytes: usize,
}

/// The data sizes of the blobs, added up.
pub open spec fn bytes_total(s: Seq<BlobModel>) -> nat
    decreases s.len(),
{
    if s.len() == 0 {
        0
    } else {
        bytes_total(s.drop_last()) + s.last().data.len()
    }
}

/// The hash index after `(h, id)` is set: a present hash gets the new id in its place, a new
/// one goes last.
pub open spec fn index_set(s: Seq<(Seq<u8>, u64)>, h: Seq<u8>, id: u64) -> Seq<(Seq<u8>, u64)> {
    match crate::util::find_first(s, |e: (Seq<u8>, u64)| e.0 == h) {
        Some(i) => s.update(i, (h, id)),
        None => s.push((h, id)),
    }
}

/// The hash index without hash `h`.
pub open spec fn index_remove(s: Seq<(Seq<u8>, u64)>, h: Seq<u8>) -> Seq<(Seq<u8>, u64)> {
    match crate::util::find_first(s, |e: (Seq<u8>, u64)| e.0 == h) {
        Some(i) => s.remove(i),
        None => s,
    }
}

/// The hash index after the hashes of the blobs in `removed` are taken out, one after
/// another.
pub open spec fn index_remove_all(s: Seq<(Seq<u8>, u64)>, removed: Seq<BlobModel>) -> Seq<(Seq<u8>, u64)>
    decreases removed.len(),
{
    if removed.len() == 0 {
        s
    } else {
        index_remove(index_remove_all(s, removed.drop_last()), removed.last().hash)
    }
}

/// Stored batch data, by batch id, with an index from hash to batch id.
pub struct DataAvailabilityLayer {
    storage: IdMap<DataBlob>,
    hash_index: Vec<([u8; 32], u64)>,
}

impl DataAvailabilityLayer {
    /// The blobs, by batch id.
    pub closed spec fn blobs(&self) -> Map<u64, BlobModel> {
        self.storage@.map_values(|b: DataBlob| b@)
    }

    /// The blobs, in the order their batch ids were first stored.
    pub closed spec fn blob_list(&self) -> Seq<BlobModel> {
        self.storage.values().map_values(|b: DataBlob| b@)
    }

    /// The hash index: each hash with the batch id it points to, in the order the hashes
    /// were first indexed.
    pub closed spec fn index(&self) -> Seq<(Seq<u8>, u64)> {
        self.hash_index@.map_values(|e: ([u8; 32], u64)| (e.0@, e.1))
    }

    pub closed spec fn wf(&self) -> bool {
        &&& self.storage.wf()
        &&& forall|id: u64| #[trigger] self.storage@.dom().contains(id) ==> self.storage@[id].batch_id == id
        &&& forall|i: int, j: int| 0 <= i < j < self.hash_index@.len() ==> (#[trigger] self.hash_index@[i]).0@
            != (#[trigger] self.hash_index@[j]).0@
    }

    pub fn new() -> (d: Self)
        ensures
            d.wf(),
            d.blobs() == Map::<u64, BlobModel>::empty(),
            d.index() == Seq::<(Seq<u8>, u64)>::empty(),
    {
        let d = DataAvailabilityLayer { storage: IdMap::new(), hash_index: Vec::new() };
        assert(d.blobs() =~= Map::<u64, BlobModel>::empty());
        assert(d.index() =~= Seq::<(Seq<u8>, u64)>::empty());
        d
    }

    fn index_pos(&self, h: &[u8; 32]) -> (r: Option<usize>)
        ensures
            match r {
                Some(i) => crate::util::find_first(self.index(), |e: (Seq<u8>, u64)| e.0 == h@) == Some(i as int)
                    && (i as int) < self.index().len(),
                None => crate::util::find_first(self.index(), |e: (Seq<u8>, u64)| e.0 == h@) is None,
            },
    {
        let ghost s = self.index();
        let ghost pred = |e: (Seq<u8>, u64)| e.0 == h@;
        let mut i: usize = 0;
        while i < self.hash_index.len()
            invariant
                s == self.index(),
                0 <= i <= s.len(),
                pred == (|e: (Seq<u8>, u64)| e.0 == h@),
                forall|j: int| 0 <= j < i ==> !pred(#[trigger] s[j]),
            decreases s.len() - i,
        {
            if same_bytes(&self.hash_index[i].0, h) {
                proof {
                    crate::util::lemma_find_first_at(s, pred, i as int);
                }
                return Some(i);
            }
            i = i + 1;
        }
        proof {
            crate::util::lemma_find_first(s, pred);
        }
        None
    }

    /// Point `h` at `id` in the hash index.
    fn index_insert(&mut self, h: [u8; 32], id: u64)
        requires
            old(self).wf(),
        ensures
            final(self).wf(),
            final(self).index() == index_set(old(self).index(), h@, id),
            final(self).blobs() == old(self).blobs(),
            final(self).blob_list() == old(self).blob_list(),
    {
        let ghost s0 = self.hash_index@;
        let ghost sv = self.index();
        match self.index_pos(&h) {
            Some(i) => {
                self.hash_index.set(i, (h, id));
                assert(self.index() =~= sv.update(i as int, (h@, id)));
                assert forall|a: int, b: int| 0 <= a < b < self.hash_index@.len() implies (#[trigger] self.hash_index@[a]).0@
                    != (#[trigger] self.hash_index@[b]).0@ by {
                    if a != i && b != i {
                    } else if a == i {
                        assert(sv[a].0 == h@);
                    } else {
                        assert(sv[b].0 == h@);
                    }
                }
            },
            None => {
                proof {
                    crate::util::lemma_find_first(sv, |e: (Seq<u8>, u64)| e.0 == h@);
                }
                self.hash_index.push((h, id));
                assert(self.index() =~= sv.push((h@, id)));
                assert forall|a: int, b: int| 0 <= a < b < self.hash_index@.len() implies (#[trigger] self.hash_index@[a]).0@
                    != (#[trigger] self.hash_index@[b]).0@ by {
                    if b == s0.len() {
                        assert(sv[a].0 == s0[a].0@);
                    }
                }
            },
        }
    }

    /// Take `h` out of the hash index.
    fn index_delete(&mut self, h: &[u8; 32])
        requires
            old(self).wf(),
        ensures
            final(self).wf(),
            final(self).index() == index_remove(old(self).index(), h@),
            final(self).blobs() == old(self).blobs(),
            final(self).blob_list() == old(self).blob_list(),
    {
        let ghost s0 = self.hash_index@;
        let ghost sv = self.index();
        match self.index_pos(h) {
            Some(i) => {
                self.hash_index.remove(i);
                assert(self.index() =~= sv.remove(i as int));
                assert forall|a: int, b: int| 0 <= a < b < self.hash_index@.len() implies (#[trigger] self.hash_index@[a]).0@
                    != (#[trigger] self.hash_index@[b]).0@ by {
                    if a < i {
                        if b >= i {
                            assert(self.hash_index@[b] == s0[b + 1]);
                        }
                    } else {
                        assert(self.hash_index@[a] == s0[a + 1]);
                        assert(self.hash_index@[b] == s0[b + 1]);
                    }
                }
            },
            None => {},
        }
    }

    /// Store a blob whose hash checks out, replacing the blob of its batch, and point its
    /// hash at its batch; refused, changing nothing, when the hash does not check out.
    pub fn store(&mut self, blob: DataBlob) -> (r: Result<(), DaError>)
        requires
            old(self).wf(),
        ensures
            final(self).wf(),
            r is Err <==> keccak256_spec(blob.data@) != blob.hash@,
            r is Err ==> r == Err::<(), DaError>(DaError::VerificationFailed) && *final(self) == *old(self),
            r is Ok ==> {
                &&& final(self).blobs() == old(self).blobs().insert(blob.batch_id, blob@)
                &&& final(self).index() == index_set(old(self).index(), blob.hash@, blob.batch_id)
            },
    {
        if !blob.verify() {
            return Err(DaError::VerificationFailed);
        }
        let batch_id = blob.batch_id;
        let hash = blob.hash;
        let ghost bv = blob@;
        let ghost m0 = self.storage@;
        self.storage.insert(batch_id, blob);
        assert(self.blobs() =~= m0.map_values(|b: DataBlob| b@).insert(batch_id, bv));
        self.index_insert(hash, batch_id);
        Ok(())
    }

    /// A copy of the blob of `batch_id`, if stored.
    pub fn get_by_batch_id(&self, batch_id: u64) -> (r: Option<DataBlob>)
        requires
            self.wf(),
        ensures
            match r {
                Some(b) => self.blobs().dom().contains(batch_id) && b@ == self.blobs()[batch_id],
                None => !self.blobs().dom().contains(batch_id),
            },
    {
        match self.storage.get(batch_id) {
            Some(b) => Some(b.duplicate()),
            None => None,
        }
    }

    /// A copy of the blob the index points `hash` at, if any.
    pub fn get_by_hash(&self, hash: &[u8; 32]) -> (r: Option<DataBlob>)
        requires
            self.wf(),
        ensures
            match crate::util::find_first(self.index(), |e: (Seq<u8>, u64)| e.0 == hash@) {
                Some(i) => match r {
                    Some(b) => self.blobs().dom().contains(self.index()[i].1) && b@ == self.blobs()[self.index()[i].1],
                    None => !self.blobs().dom().contains(self.index()[i].1),
                },
                None => r is None,
            },
    {
        match self.index_pos(hash) {
            Some(i) => {
                let id = self.hash_index[i].1;
                self.get_by_batch_id(id)
            },
            None => None,
        }
    }

    /// Whether the data of `batch_id` is stored.
    pub fn is_available(&self, batch_id: u64) -> (b: bool)
        requires
            self.wf(),
        ensures
            b == self.blobs().dom().contains(batch_id),
    {
        self.storage.contains_key(batch_id)
    }

    /// The stored batch ids, in ascending order.
    pub fn get_all_batch_ids(&self) -> (r: Vec<u64>)
        requires
            self.wf(),
        ensures
            ascending(r@),
            r@.to_set() == self.blobs().dom(),
            r@.len() == self.blobs().dom().len(),
    {
        proof {
            self.storage.lemma_view();
        }
        let n = self.storage.len_entries();
        let mut ids: Vec<u64> = Vec::new();
        let mut i: usize = 0;
        while i < n
            invariant
                n == self.storage.entries().len(),
                0 <= i <= n,
                ids@ == self.storage.entries().take(i as int).map_values(|e: (u64, DataBlob)| e.0),
            decreases n - i,
        {
            ids.push(self.storage.key_at(i));
            i = i + 1;
            assert(ids@ =~= self.storage.entries().take(i as int).map_values(|e: (u64, DataBlob)| e.0));
        }
        assert(self.storage.entries().take(n as int) =~= self.storage.entries());
        let ghost keys = ids@;
        let sorted = sort_u64(ids);
        proof {
            broadcast use vstd::seq_lib::group_to_multiset_ensures;
            assert forall|k: u64| #[trigger] sorted@.to_set().contains(k) == self.blobs().dom().contains(k) by {
                assert(sorted@.to_multiset().count(k) == keys.to_multiset().count(k));
                if self.blobs().dom().contains(k) {
                    let j = choose|j: int| 0 <= j < self.storage.entries().len() && self.storage.entries()[j].0 == k;
                    assert(keys[j] == k);
                    assert(keys.contains(k));
                    assert(sorted@.contains(k));
                }
                if sorted@.contains(k) {
                    assert(keys.contains(k));
                    let j = choose|j: int| 0 <= j < keys.len() && keys[j] == k;
                    assert(self.storage@.dom().contains(self.storage.entries()[j].0));
                }
            }
            assert(sorted@.to_set() =~= self.blobs().dom());
            assert(self.blobs().dom() =~= self.storage@.dom());
            assert(sorted@.len() == self.storage@.dom().len());
        }
        sorted
    }

    /// How many blobs are stored and their data's total size.
    pub fn get_stats(&self) -> (st: DAStats)
        requires
            self.wf(),
            bytes_total(self.blob_list()) <= usize::MAX,
        ensures
            st.total_blobs == self.blobs().dom().len(),
            st.total_bytes == bytes_total(self.blob_list()),
    {
        proof {
            self.storage.lemma_view();
            assert(self.blobs().dom() =~= self.storage@.dom());
        }
        let ghost s = self.blob_list();
        let n = self.storage.len_entries();
        let mut total: usize = 0;
        let mut i: usize = 0;
        while i < n
            invariant
                s == self.blob_list(),
                n == s.len(),
                n == self.storage.entries().len(),
                0 <= i <= n,
                bytes_total(s) <= usize::MAX,
                total == bytes_total(s.take(i as int)),
            decreases n - i,
        {
            let b = self.storage.value_at(i);
            assert(b@ == s[i as int]);
            proof {
                lemma_bytes_total_take(s, i as int);
                lemma_bytes_total_take(s, i + 1);
            }
            total = total + b.data.len();
            i = i + 1;
        }
        assert(s.take(n as int) =~= s);
        DAStats { total_blobs: self.storage.len(), total_bytes: total }
    }

    /// Drop the blobs of batches before `batch_id`, and their hashes from the index; answers
    /// how many were dropped.
    pub fn prune_before(&mut self, batch_id: u64) -> (count: usize)
        requires
            old(self).wf(),
        ensures
            final(self).wf(),
            final(self).blobs() == old(self).blobs().restrict(old(self).blobs().dom().filter(|id: u64| id >= batch_id)),
            count == old(self).blob_list().filter(|b: BlobModel| b.batch_id < batch_id).len(),
            final(self).index() == index_remove_all(old(self).index(), old(self).blob_list().filter(|b: BlobModel| b.batch_id < batch_id)),
    {
        let ghost s = self.blob_list();
        let ghost pred = |b: BlobModel| b.batch_id < batch_id;
        let ghost idx0 = self.index();
        proof {
            self.storage.lemma_view();
        }
        let mut removed: Vec<DataBlob> = Vec::new();
        let n = self.storage.len_entries();
        let mut i: usize = 0;
        while i < n
            invariant
                s == old(self).blob_list(),
                n == s.len(),
                n == old(self).storage.entries().len(),
                self.storage == old(self).storage,
                self.wf(),
                0 <= i <= n,
                pred == (|b: BlobModel| b.batch_id < batch_id),
                removed@.map_values(|b: DataBlob| b@) == s.take(i as int).filter(pred),
                self.index() == idx0,
            decreases n - i,
        {
            let b = self.storage.value_at(i);
            assert(b@ == s[i as int]);
            proof {
                assert(s.take(i + 1) =~= s.take(i as int).push(b@));
                s.take(i as int).lemma_filter_push(b@, pred);
            }
            if b.batch_id < batch_id {
                let ghost r0 = removed@.map_values(|b: DataBlob| b@);
                removed.push(b.duplicate());
                assert(removed@.map_values(|b: DataBlob| b@) =~= r0.push(b@));
            }
            i = i + 1;
        }
        assert(s.take(n as int) =~= s);
        let ghost m0 = self.storage@;
        let keep = (|id: u64, b: &DataBlob| -> (k: bool) ensures k == (id >= batch_id) { id >= batch_id });
        self.storage.retain(keep, Ghost(|id: u64, b: DataBlob| id >= batch_id));
        assert(self.blobs() =~= old(self).blobs().restrict(old(self).blobs().dom().filter(|id: u64| id >= batch_id)));
        let count = removed.len();
        let ghost rs = removed@.map_values(|b: DataBlob| b@);
        let mut k: usize = 0;
        while k < removed.len()
            invariant
                self.wf(),
                0 <= k <= removed@.len(),
                rs == removed@.map_values(|b: DataBlob| b@),
                self.index() == index_remove_all(idx0, rs.take(k as int)),
                self.blobs() == old(self).blobs().restrict(old(self).blobs().dom().filter(|id: u64| id >= batch_id)),
            decreases removed@.len() - k,
        {
            let h = removed[k].hash;
            assert(rs.take(k + 1).drop_last() =~= rs.take(k as int));
            self.index_delete(&h);
            k = k + 1;
        }
        assert(rs.take(k as int) =~= rs);
        count
    }
}

impl Default for DataAvailabilityLayer {
    fn default() -> (d: Self)
        ensures
            d.wf(),
            d.blobs() == Map::<u64, BlobModel>::empty(),
            d.index() == Seq::<(Seq<u8>, u64)>::empty(),
    {
        Self::new()
    }
}

/// A prefix adds up to no more than the whole, and one more element adds its own amount.
pub proof fn lemma_bytes_total_take(s: Seq<BlobModel>, i: int)
    requires
        0 <= i <= s.len(),
    ensures
        bytes_total(s.take(i)) <= bytes_total(s),
        i < s.len() ==> bytes_total(s.take(i + 1)) == bytes_total(s.take(i)) + s[i].data.len(),
    decreases s.len(),
{
    if i < s.len() {
        assert(s.take(i + 1).drop_last() =~= s.take(i));
        if i + 1 < s.len() {
            assert(s.drop_last().take(i + 1) =~= s.take(i + 1));
            lemma_bytes_total_take(s.drop_last(), i + 1);
        } else {
            assert(s.take(i + 1) =~= s);
        }
    } else {
        assert(s.take(i) =~= s);
    }
}

/// A commitment to a blob, for settlement.
#[derive(Debug)]
pub struct DACommitment {
    pub batch_id: u64,
    pub data_hash: [u8; 32],
    pub data_size: usize,
    /// A proof of availability (left empty).
    pub availability_proof: Vec<u8>,
}

impl DACommitment {
    /// The commitment to `blob`: its batch, hash and data size, with an empty proof.
    pub fn from_blob(blob: &DataBlob) -> (c: Self)
        ensures
            c.batch_id == blob.batch_id,
            c.data_hash@ == blob.hash@,
            c.data_size == blob.data@.len(),
            c.availability_proof@.len() == 0,
    {
        DACommitment { batch_id: blob.batch_id, data_hash: blob.hash, data_size: blob.data.len(), availability_proof: Vec::new() }
    }

    /// Whether the commitment matches `blob`: same batch, hash and data size.
    pub open spec fn commits_to(&self, blob: &DataBlob) -> bool {
        self.batch_id == blob.batch_id && self.data_hash@ == blob.hash@ && self.data_size == blob.data@.len()
    }

    /// Whether the commitment matches `blob` (see `commits_to`).
    pub fn verify(&self, blob: &DataBlob) -> (b: bool)
        ensures
            b == self.commits_to(blob),
    {
        self.batch_id == blob.batch_id && same_bytes(&self.data_hash, &blob.hash) && self.data_size == blob.data.len()
    }
}

/// What a read gives back of a write: once a blob is stored, its batch id is available and
/// a read by that id answers the blob; the other batch ids are as they were.
pub proof fn lemma_blob_read_after_store(before: Map<u64, BlobModel>, blob: BlobModel, other: u64)
    ensures
        before.insert(blob.batch_id, blob).dom().contains(blob.batch_id),
        before.insert(blob.batch_id, blob)[blob.batch_id] == blob,
        other != blob.batch_id ==> (before.insert(blob.batch_id, blob).dom().contains(other)
            == before.dom().contains(other)),
        other != blob.batch_id && before.dom().contains(other) ==> before.insert(blob.batch_id, blob)[other]
            == before[other],
{
}

/// A commitment made from a blob verifies against that blob.
pub proof fn lemma_commitment_verifies(c: DACommitment, blob: DataBlob)
    requires
        c.batch_id == blob.batch_id,
        c.data_hash@ == blob.hash@,
        c.data_size == blob.data@.len(),
    ensures
        c.commits_to(&blob),
{
}

} // verus!
