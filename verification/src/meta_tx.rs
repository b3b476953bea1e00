use vstd::prelude::*;

use crate::clock::now_secs;
use crate::table::StrMap;
use crate::types::{
    append_prefixed_bytes, append_str, encode_bytes_spec, encode_str_spec, opt_string_view, Transaction, TransactionModel,
};
use crate::util::{copy_opt_string, copy_strings, copy_vec, find_first, lemma_find_first, lemma_find_first_at, lemma_find_first_none, mul_div};

verus! {

/// Rebate rates are fractions written in parts per million.
pub const PPM: u64 = 1_000_000;

#[derive(Debug)]
pub struct MetaTransaction {
    pub meta_tx_hash: crate::hash_utils::Hash,
    pub inner_tx: Transaction,
    pub signature: Vec<u8>,
    pub relayer: String,
    pub sponsor: Option<String>,
    pub gas_paid_by: String,
    pub created_at: u64,
    pub executed: bool,
}

#[derive(Debug)]
pub struct Sponsor {
    pub sponsor_id: String,
    pub sponsor_address: String,
    pub budget: u64,
    pub spent: u64,
    pub sponsored_count: u64,
    /// The addresses it sponsors; an empty list sponsors everyone.
    pub whitelist: Vec<String>,
    pub is_active: bool,
}

#[derive(Debug)]
pub struct FeeRebate {
    pub user_address: String,
    /// The share of a fee given back, in parts per million (at most `PPM`).
    pub rebate_ppm: u64,
    pub total_rebated: u64,
    pub eligible_until: u64,
}

#[derive(Debug)]
pub struct SponsorshipRequest {
    pub tx: Transaction,
    pub requester: String,
    pub preferred_sponsor: Option<String>,
}

#[derive(Debug, Clone, Copy, PartialEq, Eq, Structural)]
pub struct MetaTxStats {
    pub total_meta_txs: usize,
    pub executed_meta_txs: usize,
    pub total_sponsors: usize,
    pub active_sponsors: usize,
    pub total_sponsored: u64,
    pub total_spent: u64,
    pub total_rebates: usize,
    pub total_rebated: u64,
}

/// Why a meta-transaction operation was refused.
#[derive(Debug, Clone, Copy, PartialEq, Eq, Structural)]
pub enum MetaTxError {
    SponsorAlreadyRegistered,
    MetaTxNotFound,
    NoEligibleSponsor,
    SponsorBudgetExceeded,
    InvalidRebate,
    AlreadyExecuted,
}

/// What a meta transaction holds.
pub struct MetaTxModel {
    pub meta_tx_hash: Seq<u8>,
    pub inner_tx: TransactionModel,
    pub signature: Seq<u8>,
    pub relayer: Seq<char>,
    pub sponsor: Option<Seq<char>>,
    pub gas_paid_by: Seq<char>,
    pub created_at: u64,
    pub executed: bool,
}

/// What a sponsor holds.
pub struct SponsorModel {
    pub sponsor_id: Seq<char>,
    pub sponsor_address: Seq<char>,
    pub budget: u64,
    pub spent: u64,
    pub sponsored_count: u64,
    pub whitelist: Seq<Seq<char>>,
    pub is_active: bool,
}

impl View for MetaTransaction {
    type V = MetaTxModel;

    open spec fn view(&self) -> MetaTxModel {
        MetaTxModel {
            meta_tx_hash: self.meta_tx_hash@,
            inner_tx: self.inner_tx@,
            signature: self.signature@,
            relayer: self.relayer@,
            sponsor: opt_string_view(self.sponsor),
            gas_paid_by: self.gas_paid_by@,
            created_at: self.created_at,
            executed: self.executed,
        }
    }
}

impl View for Sponsor {
    type V = SponsorModel;

    open spec fn view(&self) -> SponsorModel {
        SponsorModel {
            sponsor_id: self.sponsor_id@,
            sponsor_address: self.sponsor_address@,
            budget: self.budget,
            spent: self.spent,
            sponsored_count: self.sponsored_count,
            whitelist: self.whitelist@.map_values(|s: String| s@),
            is_active: self.is_active,
        }
    }
}

impl MetaTransaction {
    /// A field-by-field copy.
    pub fn duplicate(&self) -> (r: MetaTransaction)
        ensures
            r@ == self@,
    {
        MetaTransaction {
            meta_tx_hash: self.meta_tx_hash,
            inner_tx: self.inner_tx.duplicate(),
            signature: copy_vec(&self.signature),
            relayer: self.relayer.clone(),
            sponsor: copy_opt_string(&self.sponsor),
            gas_paid_by: self.gas_paid_by.clone(),
            created_at: self.created_at,
            executed: self.executed,
        }
    }
}

impl Sponsor {
    /// A field-by-field copy.
    pub fn duplicate(&self) -> (r: Sponsor)
        ensures
            r@ == self@,
    {
        let whitelist = copy_strings(&self.whitelist);
        let r = Sponsor {
            sponsor_id: self.sponsor_id.clone(),
            sponsor_address: self.sponsor_address.clone(),
            budget: self.budget,
            spent: self.spent,
            sponsored_count: self.sponsored_count,
            whitelist,
            is_active: self.is_active,
        };
        assert(r@.whitelist =~= self@.whitelist);
        r
    }
}

impl FeeRebate {
    /// A field-by-field copy.
    pub fn duplicate(&self) -> (r: FeeRebate)
        ensures
            r == *self,
    {
        FeeRebate {
            user_address: self.user_address.clone(),
            rebate_ppm: self.rebate_ppm,
            total_rebated: self.total_rebated,
            eligible_until: self.eligible_until,
        }
    }
}

/// The bytes a meta transaction's hash is taken of: the transaction, the signature and the
/// relayer, each in the binary layout, one after the other.
pub open spec fn meta_tx_bytes(tx: Transaction, signature: Seq<u8>, relayer: Seq<char>) -> Seq<u8> {
    tx.encoding_spec() + encode_bytes_spec(signature) + encode_str_spec(relayer)
}

/// The meta transaction created at time `now`.
pub open spec fn created_spec(tx: Transaction, signature: Seq<u8>, relayer: Seq<char>, now: u64) -> MetaTxModel {
    MetaTxModel {
        meta_tx_hash: crate::hash_utils::sha256_spec(meta_tx_bytes(tx, signature, relayer)),
        inner_tx: tx@,
        signature,
        relayer,
        sponsor: None,
        gas_paid_by: Seq::empty(),
        created_at: now,
        executed: false,
    }
}

/// The position of the meta transaction with hash `h`, if any.
pub open spec fn meta_pos(s: Seq<MetaTxModel>, h: Seq<u8>) -> Option<int> {
    find_first(s, |m: MetaTxModel| m.meta_tx_hash == h)
}

/// The meta transactions after `m` is stored: it replaces one with the same hash in its
/// place, or else goes last.
pub open spec fn meta_stored(s: Seq<MetaTxModel>, m: MetaTxModel) -> Seq<MetaTxModel> {
    match meta_pos(s, m.meta_tx_hash) {
        Some(i) => s.update(i, m),
        None => s.push(m),
    }
}

/// Whether a sponsor would pay `gas` for `user`: it is active, has the budget left, and
/// either sponsors everyone or lists `user`.
pub open spec fn eligible(s: SponsorModel, user: Seq<char>, gas: u64) -> bool {
    &&& s.is_active
    &&& s.spent + gas <= s.budget
    &&& (s.whitelist.len() == 0 || s.whitelist.contains(user))
}

/// The first eligible sponsor, in registration order.
pub open spec fn first_eligible(s: Seq<SponsorModel>, user: Seq<char>, gas: u64) -> Option<int> {
    find_first(s, |sp: SponsorModel| eligible(sp, user, gas))
}

/// A quantity of each sponsor, added up.
pub open spec fn sponsor_total(s: Seq<SponsorModel>, f: spec_fn(SponsorModel) -> nat) -> nat
    decreases s.len(),
{
    if s.len() == 0 {
        0
    } else {
        sponsor_total(s.drop_last(), f) + f(s.last())
    }
}

pub open spec fn sponsored_f() -> spec_fn(SponsorModel) -> nat {
    |s: SponsorModel| s.sponsored_count as nat
}

pub open spec fn spent_f() -> spec_fn(SponsorModel) -> nat {
    |s: SponsorModel| s.spent as nat
}

/// The rebates' totals added up.
pub open spec fn rebated_total(s: Seq<FeeRebate>) -> nat
    decreases s.len(),
{
    if s.len() == 0 {
        0
    } else {
        rebated_total(s.drop_last()) + s.last().total_rebated as nat
    }
}

/// A prefix adds up to no more than the whole, and one more element adds its own amount.
pub proof fn lemma_sponsor_total_take(s: Seq<SponsorModel>, f: spec_fn(SponsorModel) -> nat, i: int)
    requires
        0 <= i <= s.len(),
    ensures
        sponsor_total(s.take(i), f) <= sponsor_total(s, f),
        i < s.len() ==> sponsor_total(s.take(i + 1), f) == sponsor_total(s.take(i), f) + f(s[i]),
    decreases s.len(),
{
    if i < s.len() {
        assert(s.take(i + 1).drop_last() =~= s.take(i));
        if i + 1 < s.len() {
            assert(s.drop_last().take(i + 1) =~= s.take(i + 1));
            lemma_sponsor_total_take(s.drop_last(), f, i + 1);
        } else {
            assert(s.take(i + 1) =~= s);
        }
    } else {
        assert(s.take(i) =~= s);
    }
}

/// A prefix adds up to no more than the whole, and one more element adds its own amount.
pub proof fn lemma_rebated_total_take(s: Seq<FeeRebate>, i: int)
    requires
        0 <= i <= s.len(),
    ensures
        rebated_total(s.take(i)) <= rebated_total(s),
        i < s.len() ==> rebated_total(s.take(i + 1)) == rebated_total(s.take(i)) + s[i].total_rebated,
    decreases s.len(),
{
    if i < s.len() {
        assert(s.take(i + 1).drop_last() =~= s.take(i));
        if i + 1 < s.len() {
            assert(s.drop_last().take(i + 1) =~= s.take(i + 1));
            lemma_rebated_total_take(s.drop_last(), i + 1);
        } else {
            assert(s.take(i + 1) =~= s);
        }
    } else {
        assert(s.take(i) =~= s);
    }
}

/// Meta transactions, their sponsors and fee rebates.
pub struct MetaTransactionManager {
    meta_txs: Vec<MetaTransaction>,
    sponsors: StrMap<Sponsor>,
    fee_rebates: StrMap<FeeRebate>,
}

impl MetaTransactionManager {
    /// The meta transactions, in the order their hashes were first stored.
    pub closed spec fn meta_txs(&self) -> Seq<MetaTxModel> {
        self.meta_txs@.map_values(|m: MetaTransaction| m@)
    }

    /// The sponsors, by id.
    pub closed spec fn sponsors(&self) -> Map<Seq<char>, SponsorModel> {
        self.sponsors@.map_values(|s: Sponsor| s@)
    }

    /// The sponsors, in registration order.
    pub closed spec fn sponsor_list(&self) -> Seq<SponsorModel> {
        self.sponsors.values().map_values(|s: Sponsor| s@)
    }

    /// The fee rebates, by user.
    pub closed spec fn rebates(&self) -> Map<Seq<char>, FeeRebate> {
        self.fee_rebates@
    }

    /// The fee rebates, in the order their users were first added.
    pub closed spec fn rebate_list(&self) -> Seq<FeeRebate> {
        self.fee_rebates.values()
    }

    pub closed spec fn wf(&self) -> bool {
        &&& self.sponsors.wf()
        &&& self.fee_rebates.wf()
        &&& forall|i: int, j: int| 0 <= i < j < self.meta_txs@.len() ==> (#[trigger] self.meta_txs@[i]).meta_tx_hash@
            != (#[trigger] self.meta_txs@[j]).meta_tx_hash@
        &&& forall|k: Seq<char>| #[trigger] self.sponsors@.dom().contains(k) ==> self.sponsors@[k].sponsor_id@ == k
        &&& forall|k: Seq<char>| #[trigger] self.fee_rebates@.dom().contains(k) ==> self.fee_rebates@[k].rebate_ppm <= PPM
    }

    pub fn new() -> (m: Self)
        ensures
            m.wf(),
            m.meta_txs() == Seq::<MetaTxModel>::empty(),
            m.sponsors() == Map::<Seq<char>, SponsorModel>::empty(),
            m.rebates() == Map::<Seq<char>, FeeRebate>::empty(),
    {
        let m = MetaTransactionManager { meta_txs: Vec::new(), sponsors: StrMap::new(), fee_rebates: StrMap::new() };
        assert(m.meta_txs() =~= Seq::<MetaTxModel>::empty());
        assert(m.sponsors() =~= Map::<Seq<char>, SponsorModel>::empty());
        m
    }

    /// Register a sponsor under its id; refused when the id is taken.
    pub fn register_sponsor(&mut self, sponsor: Sponsor) -> (r: Result<(), MetaTxError>)
        requires
            old(self).wf(),
        ensures
            final(self).wf(),
            r is Err <==> old(self).sponsors().dom().contains(sponsor.sponsor_id@),
            r is Err ==> r == Err::<(), MetaTxError>(MetaTxError::SponsorAlreadyRegistered) && final(self).sponsors() == old(self).sponsors(),
            r is Ok ==> final(self).sponsors() == old(self).sponsors().insert(sponsor.sponsor_id@, sponsor@),
            final(self).meta_txs() == old(self).meta_txs(),
            final(self).rebates() == old(self).rebates(),
    {
        if self.sponsors.contains_key(sponsor.sponsor_id.as_str()) {
            return Err(MetaTxError::SponsorAlreadyRegistered);
        }
        let ghost m0 = self.sponsors@;
        let ghost sv = sponsor@;
        let key = sponsor.sponsor_id.clone();
        self.sponsors.insert(key, sponsor);
        assert(self.sponsors() =~= m0.map_values(|s: Sponsor| s@).insert(sv.sponsor_id, sv));
        Ok(())
    }

    fn find_meta(&self, h: &crate::hash_utils::Hash) -> (r: Option<usize>)
        ensures
            match r {
                Some(i) => meta_pos(self.meta_txs(), h@) == Some(i as int) && (i as int) < self.meta_txs().len(),
                None => meta_pos(self.meta_txs(), h@) is None,
            },
    {
        let ghost pred = |m: MetaTxModel| m.meta_tx_hash == h@;
        let mut i: usize = 0;
        while i < self.meta_txs.len()
            invariant
                0 <= i <= self.meta_txs@.len(),
                pred == (|m: MetaTxModel| m.meta_tx_hash == h@),
                forall|j: int| 0 <= j < i ==> !pred(#[trigger] self.meta_txs()[j]),
            decreases self.meta_txs@.len() - i,
        {
            if self.meta_txs[i].meta_tx_hash == *h {
                proof {
                    lemma_find_first_at(self.meta_txs(), pred, i as int);
                }
                return Some(i);
            }
            i = i + 1;
        }
        proof {
            lemma_find_first(self.meta_txs(), pred);
        }
        None
    }

    /// Replace the meta transaction at `i` by `m`, which has the same hash.
    fn set_meta(&mut self, i: usize, m: MetaTransaction)
        requires
            old(self).wf(),
            i < old(self).meta_txs().len(),
            m.meta_tx_hash@ == old(self).meta_txs()[i as int].meta_tx_hash,
        ensures
            final(self).wf(),
            final(self).meta_txs() == old(self).meta_txs().update(i as int, m@),
            final(self).sponsors() == old(self).sponsors(),
            final(self).rebates() == old(self).rebates(),
            final(self).sponsor_list() == old(self).sponsor_list(),
    {
        let ghost s0 = self.meta_txs@;
        let ghost mv = m@;
        self.meta_txs.set(i, m);
        assert(self.meta_txs() =~= s0.map_values(|m: MetaTransaction| m@).update(i as int, mv));
        assert forall|a: int, b: int| 0 <= a < b < self.meta_txs@.len() implies (#[trigger] self.meta_txs@[a]).meta_tx_hash@
            != (#[trigger] self.meta_txs@[b]).meta_tx_hash@ by {
            if a != i && b != i {
            } else if a == i {
                assert(s0[a].meta_tx_hash@ == mv.meta_tx_hash);
            } else {
                assert(s0[b].meta_tx_hash@ == mv.meta_tx_hash);
            }
        }
    }

    /// Create a meta transaction at time `now`, hashed over the transaction, the signature and
    /// the relayer; it replaces one with the same hash. Answers a copy.
    pub fn create_meta_transaction_at(&mut self, tx: Transaction, signature: Vec<u8>, relayer: String, now: u64) -> (r: Result<MetaTransaction, MetaTxError>)
        requires
            old(self).wf(),
        ensures
            final(self).wf(),
            r matches Ok(m) && m@ == created_spec(tx, signature@, relayer@, now),
            final(self).meta_txs() == meta_stored(old(self).meta_txs(), created_spec(tx, signature@, relayer@, now)),
            final(self).sponsors() == old(self).sponsors(),
            final(self).rebates() == old(self).rebates(),
    {
        let mut bytes = tx.encode();
        append_prefixed_bytes(&mut bytes, signature.as_slice());
        append_str(&mut bytes, relayer.as_str());
        let meta_tx_hash = crate::hash_utils::Hash::new(bytes.as_slice());
        let meta = MetaTransaction {
            meta_tx_hash,
            inner_tx: tx,
            signature,
            relayer,
            sponsor: None,
            gas_paid_by: String::new(),
            created_at: now,
            executed: false,
        };
        let copy = meta.duplicate();
        let ghost mv = meta@;
        assert(mv == created_spec(tx, signature@, relayer@, now));
        match self.find_meta(&meta_tx_hash) {
            Some(i) => {
                self.set_meta(i, meta);
            },
            None => {
                let ghost s0 = self.meta_txs@;
                proof {
                    lemma_find_first_none(s0.map_values(|m: MetaTransaction| m@), |m: MetaTxModel| m.meta_tx_hash == mv.meta_tx_hash);
                }
                self.meta_txs.push(meta);
                assert(self.meta_txs() =~= s0.map_values(|m: MetaTransaction| m@).push(mv));
                assert forall|a: int, b: int| 0 <= a < b < self.meta_txs@.len() implies (#[trigger] self.meta_txs@[a]).meta_tx_hash@
                    != (#[trigger] self.meta_txs@[b]).meta_tx_hash@ by {
                    if b == s0.len() {
                        assert(self.meta_txs@[a] == s0[a]);
                        assert(s0.map_values(|m: MetaTransaction| m@)[a] == s0[a]@);
                    }
                }
            },
        }
        Ok(copy)
    }

    /// Create a meta transaction now, by the wall clock (see `create_meta_transaction_at`).
    pub fn create_meta_transaction(&mut self, tx: Transaction, signature: Vec<u8>, relayer: String) -> (r: Result<MetaTransaction, MetaTxError>)
        requires
            old(self).wf(),
        ensures
            final(self).wf(),
            exists|now: u64| {
                &&& r matches Ok(m) && m@ == #[trigger] created_spec(tx, signature@, relayer@, now)
                &&& final(self).meta_txs() == meta_stored(old(self).meta_txs(), created_spec(tx, signature@, relayer@, now))
            },
            final(self).sponsors() == old(self).sponsors(),
            final(self).rebates() == old(self).rebates(),
    {
        let now = now_secs();
        self.create_meta_transaction_at(tx, signature, relayer, now)
    }

    /// The additions a search for a sponsor of `gas` makes, up to the first eligible one, fit
    /// in 64 bits.
    pub open spec fn search_fits(s: Seq<SponsorModel>, user: Seq<char>, gas: u64) -> bool {
        forall|i: int| 0 <= i < s.len() && (#[trigger] s[i]).is_active && (forall|j: int| 0 <= j < i ==> !eligible(s[j], user, gas))
            ==> s[i].spent + gas <= u64::MAX
    }

    /// Whether `list` holds `user`.
    fn whitelist_contains(list: &Vec<String>, user: &String) -> (b: bool)
        ensures
            b == list@.map_values(|s: String| s@).contains(user@),
    {
        let mut i: usize = 0;
        while i < list.len()
            invariant
                0 <= i <= list@.len(),
                forall|j: int| 0 <= j < i ==> list@[j]@ != user@,
            decreases list@.len() - i,
        {
            if list[i] == *user {
                assert(list@.map_values(|s: String| s@)[i as int] == user@);
                return true;
            }
            i = i + 1;
        }
        proof {
            let v = list@.map_values(|s: String| s@);
            if v.contains(user@) {
                let j = choose|j: int| 0 <= j < v.len() && #[trigger] v[j] == user@;
                assert(list@[j]@ == user@);
            }
        }
        false
    }

    /// The position of the first eligible sponsor, in registration order.
    fn find_sponsor(&self, user: &String, estimated_gas: u64) -> (r: Option<usize>)
        requires
            self.wf(),
            Self::search_fits(self.sponsor_list(), user@, estimated_gas),
        ensures
            match r {
                Some(i) => first_eligible(self.sponsor_list(), user@, estimated_gas) == Some(i as int)
                    && (i as int) < self.sponsor_list().len(),
                None => first_eligible(self.sponsor_list(), user@, estimated_gas) is None,
            },
    {
        let ghost s = self.sponsor_list();
        let ghost pred = |sp: SponsorModel| eligible(sp, user@, estimated_gas);
        let n = self.sponsors.len_entries();
        let mut i: usize = 0;
        while i < n
            invariant
                s == self.sponsor_list(),
                n == s.len(),
                n == self.sponsors.entries().len(),
                0 <= i <= n,
                Self::search_fits(s, user@, estimated_gas),
                pred == (|sp: SponsorModel| eligible(sp, user@, estimated_gas)),
                forall|j: int| 0 <= j < i ==> !pred(#[trigger] s[j]),
            decreases n - i,
        {
            let sp = self.sponsors.value_at(i);
            assert(sp@ == s[i as int]);
            if sp.is_active {
                assert(s[i as int].spent + estimated_gas <= u64::MAX);
                if sp.spent + estimated_gas <= sp.budget {
                    if sp.whitelist.len() == 0 || Self::whitelist_contains(&sp.whitelist, user) {
                        proof {
                            lemma_find_first_at(s, pred, i as int);
                        }
                        return Some(i);
                    }
                }
            }
            i = i + 1;
        }
        proof {
            lemma_find_first(s, pred);
        }
        None
    }

    /// What asking a sponsor to pay `gas` for the meta transaction `h` answers: the first
    /// eligible sponsor's id.
    pub open spec fn sponsorship_result(&self, h: Seq<u8>, gas: u64) -> Result<Seq<char>, MetaTxError> {
        match meta_pos(self.meta_txs(), h) {
            None => Err(MetaTxError::MetaTxNotFound),
            Some(i) => match first_eligible(self.sponsor_list(), self.meta_txs()[i].inner_tx.from, gas) {
                None => Err(MetaTxError::NoEligibleSponsor),
                Some(j) => Ok(self.sponsor_list()[j].sponsor_id),
            },
        }
    }

    /// Ask a sponsor to pay `estimated_gas` for a meta transaction: the first eligible sponsor
    /// (see `eligible`), in registration order, spends it and counts one more sponsorship, and
    /// the meta transaction records the sponsor and is paid by the sponsor's address.
    pub fn request_sponsorship(&mut self, meta_tx_hash: crate::hash_utils::Hash, estimated_gas: u64) -> (r: Result<String, MetaTxError>)
        requires
            old(self).wf(),
            meta_pos(old(self).meta_txs(), meta_tx_hash@) matches Some(i) ==> {
                let user = old(self).meta_txs()[i].inner_tx.from;
                &&& Self::search_fits(old(self).sponsor_list(), user, estimated_gas)
                &&& first_eligible(old(self).sponsor_list(), user, estimated_gas) matches Some(j)
                    ==> old(self).sponsor_list()[j].sponsored_count < u64::MAX
            },
        ensures
            final(self).wf(),
            match r {
                Ok(id) => old(self).sponsorship_result(meta_tx_hash@, estimated_gas) == Ok::<Seq<char>, MetaTxError>(id@),
                Err(e) => old(self).sponsorship_result(meta_tx_hash@, estimated_gas) == Err::<Seq<char>, MetaTxError>(e),
            },
            r is Err ==> final(self).meta_txs() == old(self).meta_txs() && final(self).sponsors() == old(self).sponsors(),
            r is Ok ==> {
                let i = meta_pos(old(self).meta_txs(), meta_tx_hash@)->Some_0;
                let m = old(self).meta_txs()[i];
                let sp = old(self).sponsors()[r->Ok_0@];
                &&& old(self).sponsors().dom().contains(r->Ok_0@)
                &&& final(self).sponsors() == old(self).sponsors().insert(r->Ok_0@, SponsorModel {
                    spent: (sp.spent + estimated_gas) as u64,
                    sponsored_count: (sp.sponsored_count + 1) as u64,
                    ..sp
                })
                &&& final(self).meta_txs() == old(self).meta_txs().update(i, MetaTxModel {
                    sponsor: Some(r->Ok_0@),
                    gas_paid_by: sp.sponsor_address,
                    ..m
                })
            },
            final(self).rebates() == old(self).rebates(),
    {
        let i = match self.find_meta(&meta_tx_hash) {
            None => return Err(MetaTxError::MetaTxNotFound),
            Some(i) => i,
        };
        let user = self.meta_txs[i].inner_tx.from.clone();
        let p = match self.find_sponsor(&user, estimated_gas) {
            None => return Err(MetaTxError::NoEligibleSponsor),
            Some(p) => p,
        };
        proof {
            self.sponsors.lemma_view();
            lemma_find_first(self.sponsor_list(), |sp: SponsorModel| eligible(sp, user@, estimated_gas));
        }
        let ghost m0 = self.sponsors@;
        let mut sp = self.sponsors.value_at(p).duplicate();
        assert(m0.dom().contains(self.sponsors.entries()[p as int].0@));
        if sp.spent + estimated_gas > sp.budget {
            return Err(MetaTxError::SponsorBudgetExceeded);
        }
        sp.spent = sp.spent + estimated_gas;
        sp.sponsored_count = sp.sponsored_count + 1;
        let id = sp.sponsor_id.clone();
        let address = sp.sponsor_address.clone();
        let ghost spv = sp@;
        self.sponsors.set_value_at(p, sp);
        assert(self.sponsors() =~= m0.map_values(|s: Sponsor| s@).insert(id@, spv));
        let mut m = self.meta_txs[i].duplicate();
        m.sponsor = Some(id.clone());
        m.gas_paid_by = address;
        self.set_meta(i, m);
        Ok(id)
    }

    /// Add or replace a user's fee rebate; refused when its share is above one whole.
    pub fn add_fee_rebate(&mut self, rebate: FeeRebate) -> (r: Result<(), MetaTxError>)
        requires
            old(self).wf(),
        ensures
            final(self).wf(),
            r is Err <==> rebate.rebate_ppm > PPM,
            r is Err ==> r == Err::<(), MetaTxError>(MetaTxError::InvalidRebate) && final(self).rebates() == old(self).rebates(),
            r is Ok ==> final(self).rebates() == old(self).rebates().insert(rebate.user_address@, rebate),
            final(self).meta_txs() == old(self).meta_txs(),
            final(self).sponsors() == old(self).sponsors(),
    {
        if rebate.rebate_ppm > PPM {
            return Err(MetaTxError::InvalidRebate);
        }
        let key = rebate.user_address.clone();
        self.fee_rebates.insert(key, rebate);
        Ok(())
    }

    /// The rebate `user` gets on `fee_paid` at time `now`: its share of the fee, rounded down,
    /// while its rebate lasts; else nothing.
    pub open spec fn rebate_spec(&self, user: Seq<char>, fee_paid: u64, now: u64) -> u64 {
        if self.rebates().dom().contains(user) && now <= self.rebates()[user].eligible_until {
            ((fee_paid as int * self.rebates()[user].rebate_ppm as int) / (PPM as int)) as u64
        } else {
            0
        }
    }

    /// The rebate on `fee_paid` for `user` at time `now` (see `rebate_spec`).
    pub fn calculate_rebate_at(&self, user: &str, fee_paid: u64, now: u64) -> (r: u64)
        requires
            self.wf(),
        ensures
            r == self.rebate_spec(user@, fee_paid, now),
    {
        match self.fee_rebates.get(user) {
            Some(rb) => {
                if now <= rb.eligible_until {
                    mul_div(fee_paid, rb.rebate_ppm, PPM)
                } else {
                    0
                }
            },
            None => 0,
        }
    }

    /// The rebate on `fee_paid` for `user` now, by the wall clock.
    pub fn calculate_rebate(&self, user: &str, fee_paid: u64) -> (r: u64)
        requires
            self.wf(),
        ensures
            exists|now: u64| r == #[trigger] self.rebate_spec(user@, fee_paid, now),
    {
        let now = now_secs();
        self.calculate_rebate_at(user, fee_paid, now)
    }

    /// Pay out the rebate on `fee_paid` for `user` at time `now`, adding it to the user's total
    /// rebated; answers the amount.
    pub fn apply_rebate_at(&mut self, user: &str, fee_paid: u64, now: u64) -> (r: Result<u64, MetaTxError>)
        requires
            old(self).wf(),
            old(self).rebates().dom().contains(user@) ==> old(self).rebates()[user@].total_rebated + old(self).rebate_spec(user@, fee_paid, now) <= u64::MAX,
        ensures
            final(self).wf(),
            r == Ok::<u64, MetaTxError>(old(self).rebate_spec(user@, fee_paid, now)),
            final(self).rebates() == if old(self).rebate_spec(user@, fee_paid, now) > 0 {
                old(self).rebates().insert(user@, FeeRebate {
                    total_rebated: (old(self).rebates()[user@].total_rebated + old(self).rebate_spec(user@, fee_paid, now)) as u64,
                    ..old(self).rebates()[user@]
                })
            } else {
                old(self).rebates()
            },
            final(self).meta_txs() == old(self).meta_txs(),
            final(self).sponsors() == old(self).sponsors(),
    {
        let amount = self.calculate_rebate_at(user, fee_paid, now);
        if amount > 0 {
            proof {
                self.fee_rebates.lemma_view();
            }
            match self.fee_rebates.position(user) {
                Some(p) => {
                    let mut rb = self.fee_rebates.value_at(p).duplicate();
                    rb.total_rebated = rb.total_rebated + amount;
                    self.fee_rebates.set_value_at(p, rb);
                },
                None => {},
            }
        }
        Ok(amount)
    }

    /// Pay out a rebate now, by the wall clock (see `apply_rebate_at`).
    pub fn apply_rebate(&mut self, user: &str, fee_paid: u64) -> (r: Result<u64, MetaTxError>)
        requires
            old(self).wf(),
            old(self).rebates().dom().contains(user@) ==> old(self).rebates()[user@].total_rebated + (fee_paid as int
                * old(self).rebates()[user@].rebate_ppm as int) / (PPM as int) <= u64::MAX,
        ensures
            final(self).wf(),
            exists|now: u64| {
                &&& r == Ok::<u64, MetaTxError>(#[trigger] old(self).rebate_spec(user@, fee_paid, now))
                &&& final(self).rebates() == if old(self).rebate_spec(user@, fee_paid, now) > 0 {
                    old(self).rebates().insert(user@, FeeRebate {
                        total_rebated: (old(self).rebates()[user@].total_rebated + old(self).rebate_spec(user@, fee_paid, now)) as u64,
                        ..old(self).rebates()[user@]
                    })
                } else {
                    old(self).rebates()
                }
            },
            final(self).meta_txs() == old(self).meta_txs(),
            final(self).sponsors() == old(self).sponsors(),
    {
        let now = now_secs();
        self.apply_rebate_at(user, fee_paid, now)
    }

    /// Mark a meta transaction executed; refused when unknown or already executed.
    pub fn execute_meta_transaction(&mut self, meta_tx_hash: crate::hash_utils::Hash) -> (r: Result<(), MetaTxError>)
        requires
            old(self).wf(),
        ensures
            final(self).wf(),
            meta_pos(old(self).meta_txs(), meta_tx_hash@) is None ==> r == Err::<(), MetaTxError>(MetaTxError::MetaTxNotFound),
            meta_pos(old(self).meta_txs(), meta_tx_hash@) matches Some(i) ==> {
                let m = old(self).meta_txs()[i];
                &&& m.executed ==> r == Err::<(), MetaTxError>(MetaTxError::AlreadyExecuted)
                &&& !m.executed ==> r is Ok && final(self).meta_txs() == old(self).meta_txs().update(i, MetaTxModel { executed: true, ..m })
            },
            r is Err ==> final(self).meta_txs() == old(self).meta_txs(),
            final(self).sponsors() == old(self).sponsors(),
            final(self).rebates() == old(self).rebates(),
    {
        let i = match self.find_meta(&meta_tx_hash) {
            None => return Err(MetaTxError::MetaTxNotFound),
            Some(i) => i,
        };
        if self.meta_txs[i].executed {
            return Err(MetaTxError::AlreadyExecuted);
        }
        let mut m = self.meta_txs[i].duplicate();
        m.executed = true;
        self.set_meta(i, m);
        Ok(())
    }

    /// A copy of the meta transaction with `hash`, if stored.
    pub fn get_meta_transaction(&self, hash: &crate::hash_utils::Hash) -> (r: Option<MetaTransaction>)
        ensures
            match r {
                Some(m) => meta_pos(self.meta_txs(), hash@) matches Some(i) && m@ == self.meta_txs()[i],
                None => meta_pos(self.meta_txs(), hash@) is None,
            },
    {
        match self.find_meta(hash) {
            Some(i) => Some(self.meta_txs[i].duplicate()),
            None => None,
        }
    }

    /// A copy of the sponsor with `sponsor_id`, if registered.
    pub fn get_sponsor(&self, sponsor_id: &str) -> (r: Option<Sponsor>)
        requires
            self.wf(),
        ensures
            match r {
                Some(s) => self.sponsors().dom().contains(sponsor_id@) && s@ == self.sponsors()[sponsor_id@],
                None => !self.sponsors().dom().contains(sponsor_id@),
            },
    {
        match self.sponsors.get(sponsor_id) {
            Some(s) => Some(s.duplicate()),
            None => None,
        }
    }

    /// A copy of the fee rebate of `user`, if any.
    pub fn get_rebate(&self, user: &str) -> (r: Option<FeeRebate>)
        requires
            self.wf(),
        ensures
            r == if self.rebates().dom().contains(user@) {
                Some(self.rebates()[user@])
            } else {
                None::<FeeRebate>
            },
    {
        match self.fee_rebates.get(user) {
            Some(rb) => Some(rb.duplicate()),
            None => None,
        }
    }

    /// The statistics: meta transactions made and executed, sponsors registered and active,
    /// sponsorships and gas spent added up, rebates and their totals added up.
    pub fn get_stats(&self) -> (st: MetaTxStats)
        requires
            self.wf(),
            sponsor_total(self.sponsor_list(), sponsored_f()) <= u64::MAX,
            sponsor_total(self.sponsor_list(), spent_f()) <= u64::MAX,
            rebated_total(self.rebate_list()) <= u64::MAX,
        ensures
            st.total_meta_txs == self.meta_txs().len(),
            st.executed_meta_txs == self.meta_txs().filter(|m: MetaTxModel| m.executed).len(),
            st.total_sponsors == self.sponsor_list().len(),
            st.active_sponsors == self.sponsor_list().filter(|s: SponsorModel| s.is_active).len(),
            st.total_sponsored == sponsor_total(self.sponsor_list(), sponsored_f()),
            st.total_spent == sponsor_total(self.sponsor_list(), spent_f()),
            st.total_rebates == self.rebate_list().len(),
            st.total_rebated == rebated_total(self.rebate_list()),
    {
        let ghost ms = self.meta_txs();
        let ghost mpred = |m: MetaTxModel| m.executed;
        let mut executed: usize = 0;
        let mut i: usize = 0;
        while i < self.meta_txs.len()
            invariant
                ms == self.meta_txs(),
                0 <= i <= ms.len(),
                mpred == (|m: MetaTxModel| m.executed),
                executed == ms.take(i as int).filter(mpred).len(),
            decreases ms.len() - i,
        {
            proof {
                assert(ms.take(i + 1) =~= ms.take(i as int).push(ms[i as int]));
                ms.take(i as int).lemma_filter_push(ms[i as int], mpred);
                ms.take(i as int).lemma_filter_len(mpred);
            }
            if self.meta_txs[i].executed {
                executed = executed + 1;
            }
            i = i + 1;
        }
        assert(ms.take(i as int) =~= ms);
        let ghost ss = self.sponsor_list();
        let ghost spred = |s: SponsorModel| s.is_active;
        let ns = self.sponsors.len_entries();
        let mut active: usize = 0;
        let mut sponsored: u64 = 0;
        let mut spent: u64 = 0;
        let mut j: usize = 0;
        while j < ns
            invariant
                ss == self.sponsor_list(),
                ns == ss.len(),
                ns == self.sponsors.entries().len(),
                0 <= j <= ns,
                spred == (|s: SponsorModel| s.is_active),
                sponsor_total(ss, sponsored_f()) <= u64::MAX,
                sponsor_total(ss, spent_f()) <= u64::MAX,
                active == ss.take(j as int).filter(spred).len(),
                sponsored == sponsor_total(ss.take(j as int), sponsored_f()),
                spent == sponsor_total(ss.take(j as int), spent_f()),
            decreases ns - j,
        {
            let sp = self.sponsors.value_at(j);
            assert(sp@ == ss[j as int]);
            proof {
                lemma_sponsor_total_take(ss, sponsored_f(), j as int);
                lemma_sponsor_total_take(ss, sponsored_f(), j + 1);
                lemma_sponsor_total_take(ss, spent_f(), j as int);
                lemma_sponsor_total_take(ss, spent_f(), j + 1);
                assert(ss.take(j + 1) =~= ss.take(j as int).push(ss[j as int]));
                ss.take(j as int).lemma_filter_push(ss[j as int], spred);
                ss.take(j as int).lemma_filter_len(spred);
            }
            if sp.is_active {
                active = active + 1;
            }
            sponsored = sponsored + sp.sponsored_count;
            spent = spent + sp.spent;
            j = j + 1;
        }
        assert(ss.take(ns as int) =~= ss);
        let ghost rs = self.rebate_list();
        let nr = self.fee_rebates.len_entries();
        let mut rebated: u64 = 0;
        let mut k: usize = 0;
        while k < nr
            invariant
                rs == self.rebate_list(),
                nr == rs.len(),
                nr == self.fee_rebates.entries().len(),
                0 <= k <= nr,
                rebated_total(rs) <= u64::MAX,
                rebated == rebated_total(rs.take(k as int)),
            decreases nr - k,
        {
            let rb = self.fee_rebates.value_at(k);
            assert(*rb == rs[k as int]);
            proof {
                lemma_rebated_total_take(rs, k as int);
                lemma_rebated_total_take(rs, k + 1);
            }
            rebated = rebated + rb.total_rebated;
            k = k + 1;
        }
        assert(rs.take(nr as int) =~= rs);
        MetaTxStats {
            total_meta_txs: self.meta_txs.len(),
            executed_meta_txs: executed,
            total_sponsors: ns,
            active_sponsors: active,
            total_sponsored: sponsored,
            total_spent: spent,
            total_rebates: nr,
            total_rebated: rebated,
        }
    }
}

impl Default for MetaTransactionManager {
    fn default() -> (m: Self)
        ensures
            m.wf(),
            m.meta_txs() == Seq::<MetaTxModel>::empty(),
            m.sponsors() == Map::<Seq<char>, SponsorModel>::empty(),
            m.rebates() == Map::<Seq<char>, FeeRebate>::empty(),
    {
        Self::new()
    }
}

/// A rebate is the user's share of the fee while its rebate lasts: the largest `r` with
/// `r * 1_000_000 <= fee_paid * rebate_ppm` up to and including `eligible_until`, and nothing
/// for a user without a rebate or after it ends (for a share of at most 100%, which never gives
/// back more than the fee).
pub proof fn lemma_rebate_share(m: &MetaTransactionManager, user: Seq<char>, fee_paid: u64, now: u64)
    ensures
        !m.rebates().dom().contains(user) ==> m.rebate_spec(user, fee_paid, now) == 0,
        m.rebates().dom().contains(user) && now > m.rebates()[user].eligible_until ==> m.rebate_spec(user, fee_paid, now) == 0,
        m.rebates().dom().contains(user) && now <= m.rebates()[user].eligible_until
            && m.rebates()[user].rebate_ppm <= 1_000_000 ==> {
            let r = m.rebate_spec(user, fee_paid, now) as int;
            let ppm = m.rebates()[user].rebate_ppm;
            &&& r * 1_000_000 <= fee_paid * ppm < (r + 1) * 1_000_000
            &&& r <= fee_paid
        },
{
    if m.rebates().dom().contains(user) && now <= m.rebates()[user].eligible_until {
        let ppm = m.rebates()[user].rebate_ppm;
        let x = fee_paid * ppm;
        assert(x >= 0) by (nonlinear_arith)
            requires
                x == fee_paid * ppm,
        ;
        crate::util::lemma_floor_div(x, 1_000_000);
        assert(x / 1_000_000 <= fee_paid * ppm) by (nonlinear_arith)
            requires
                x == fee_paid * ppm,
                x >= 0,
        ;
        if ppm <= 1_000_000 {
            assert(x / 1_000_000 <= fee_paid) by (nonlinear_arith)
                requires
                    x == fee_paid * ppm,
                    ppm <= 1_000_000,
                    (x / 1_000_000) * 1_000_000 <= x,
            ;
        }
    }
}

/// A sponsor pays for a user's transaction only while active, with budget left for the gas,
/// and when it sponsors everyone (an empty list) or lists the user; the first such sponsor
/// registered is the one that pays.
pub proof fn lemma_sponsor_choice(s: Seq<SponsorModel>, user: Seq<char>, gas: u64)
    ensures
        first_eligible(s, user, gas) matches Some(i) ==> {
            &&& 0 <= i < s.len()
            &&& s[i].is_active
            &&& s[i].spent + gas <= s[i].budget
            &&& s[i].whitelist.len() == 0 || s[i].whitelist.contains(user)
            &&& forall|j: int| 0 <= j < i ==> !(#[trigger] s[j].is_active && s[j].spent + gas <= s[j].budget && (
                s[j].whitelist.len() == 0 || s[j].whitelist.contains(user)))
        },
        first_eligible(s, user, gas) is None ==> forall|j: int|
            0 <= j < s.len() ==> !(#[trigger] s[j].is_active && s[j].spent + gas <= s[j].budget && (s[j].whitelist.len()
                == 0 || s[j].whitelist.contains(user))),
{
    crate::util::lemma_find_first(s, |sp: SponsorModel| eligible(sp, user, gas));
}

} // verus!
