use vstd::prelude::*;

use crate::clock::now_secs;

verus! {

/// Fraud proof for challenging invalid state transitions.
#[derive(Debug, Clone)]
pub struct FraudProof {
    pub proof_id: u64,
    pub batch_id: u64,
    pub challenged_tx_index: usize,
    pub claim: FraudClaim,
    pub evidence: FraudEvidence,
    pub timestamp: u64,
}

#[derive(Debug, Clone)]
pub enum FraudClaim {
    InvalidStateTransition {
        expected_post_state: crate::hash_utils::Hash,
        actual_post_state: crate::hash_utils::Hash,
    },
    InvalidExecution { reason: String },
    InvalidSignature,
    DoubleSpend,
    InvalidNonce { expected: u64, actual: u64 },
}

#[derive(Debug, Clone)]
pub struct FraudEvidence {
    pub pre_state_proof: Vec<crate::hash_utils::Hash>,
    pub post_state_proof: Vec<crate::hash_utils::Hash>,
    pub transaction_data: Vec<u8>,
    pub witnesses: Vec<String>,
}

/// What `verify_proof` answers for a stored proof: a state-transition claim holds when both
/// Merkle proofs are nonempty and the two post states differ; a nonce claim holds when the two
/// nonces differ; the other claims are accepted as they stand.
pub open spec fn claim_holds_spec(p: FraudProof) -> bool {
    match p.claim {
        FraudClaim::InvalidStateTransition { expected_post_state, actual_post_state } => {
            &&& p.evidence.pre_state_proof@.len() > 0
            &&& p.evidence.post_state_proof@.len() > 0
            &&& expected_post_state@ != actual_post_state@
        },
        FraudClaim::InvalidExecution { .. } => true,
        FraudClaim::InvalidSignature => true,
        FraudClaim::DoubleSpend => true,
        FraudClaim::InvalidNonce { expected, actual } => expected != actual,
    }
}

/// A proof is active while fewer than `period` seconds have passed since it was submitted
/// (the elapsed time computed with wrapping subtraction).
pub open spec fn is_active_spec(p: FraudProof, now: u64, period: u64) -> bool {
    (if now >= p.timestamp {
        now - p.timestamp
    } else {
        now + 0x1_0000_0000_0000_0000 - p.timestamp
    }) < period
}

/// The proofs active at time `now`, in order.
pub open spec fn active_proofs_spec(s: Seq<FraudProof>, now: u64, period: u64) -> Seq<FraudProof> {
    s.filter(|p: FraudProof| is_active_spec(p, now, period))
}

/// The proofs other than the one with `id`.
pub open spec fn without_id(s: Seq<FraudProof>, id: u64) -> Seq<FraudProof> {
    s.filter(|p: FraudProof| p.proof_id != id)
}

/// The position of the proof with `id`, if any.
pub open spec fn position_of(s: Seq<FraudProof>, id: u64) -> Option<int> {
    if exists|i: int| 0 <= i < s.len() && s[i].proof_id == id {
        Some(choose|i: int| 0 <= i < s.len() && s[i].proof_id == id)
    } else {
        None
    }
}

/// Fraud proof manager.
pub struct FraudProofManager {
    proofs: Vec<FraudProof>,
    proof_counter: u64,
    challenge_period: u64,
}

impl FraudProofManager {
    /// The stored proofs, in the order they were submitted.
    pub closed spec fn proofs(&self) -> Seq<FraudProof> {
        self.proofs@
    }

    /// The id the next proof gets.
    pub closed spec fn next_id(&self) -> u64 {
        self.proof_counter
    }

    pub closed spec fn period(&self) -> u64 {
        self.challenge_period
    }

    /// No two stored proofs share an id.
    pub closed spec fn wf(&self) -> bool {
        forall|i: int, j: int|
            0 <= i < j < self.proofs@.len() ==> self.proofs@[i].proof_id != self.proofs@[j].proof_id
    }

    /// The stored proof with `id`, if any.
    pub open spec fn lookup(&self, id: u64) -> Option<FraudProof> {
        match position_of(self.proofs(), id) {
            Some(i) => Some(self.proofs()[i]),
            None => None,
        }
    }

    pub fn new(challenge_period: u64) -> (m: Self)
        ensures
            m.wf(),
            m.proofs() == Seq::<FraudProof>::empty(),
            m.next_id() == 0,
            m.period() == challenge_period,
    {
        FraudProofManager { proofs: Vec::new(), proof_counter: 0, challenge_period }
    }

    fn find(&self, proof_id: u64) -> (r: Option<usize>)
        requires
            self.wf(),
        ensures
            match r {
                Some(i) => i < self.proofs@.len() && self.proofs@[i as int].proof_id == proof_id
                    && position_of(self.proofs(), proof_id) == Some(i as int),
                None => position_of(self.proofs(), proof_id) is None,
            },
    {
        let mut i: usize = 0;
        while i < self.proofs.len()
            invariant
                self.wf(),
                0 <= i <= self.proofs@.len(),
                forall|k: int| 0 <= k < i ==> self.proofs@[k].proof_id != proof_id,
            decreases self.proofs@.len() - i,
        {
            if self.proofs[i].proof_id == proof_id {
                let ghost s = self.proofs@;
                assert(exists|k: int| 0 <= k < s.len() && s[k].proof_id == proof_id);
                let ghost c = choose|k: int| 0 <= k < s.len() && s[k].proof_id == proof_id;
                assert(c == i as int) by {
                    if c != i as int {
                        if c < i as int {
                        } else {
                            assert(s[i as int].proof_id != s[c].proof_id);
                        }
                    }
                }
                return Some(i);
            }
            i = i + 1;
        }
        None
    }

    /// Drop the proof with `proof_id`, if any, keeping the others in order.
    fn remove_id(&mut self, proof_id: u64)
        requires
            old(self).wf(),
        ensures
            final(self).wf(),
            final(self).proofs() == without_id(old(self).proofs(), proof_id),
            final(self).proof_counter == old(self).proof_counter,
            final(self).challenge_period == old(self).challenge_period,
    {
        let ghost s = self.proofs@;
        let ghost pred = |p: FraudProof| p.proof_id != proof_id;
        let mut rest: Vec<FraudProof> = Vec::new();
        std::mem::swap(&mut rest, &mut self.proofs);
        let mut kept: Vec<FraudProof> = Vec::new();
        let n = rest.len();
        let mut i: usize = 0;
        while i < n
            invariant
                n == s.len(),
                0 <= i <= n,
                pred == (|p: FraudProof| p.proof_id != proof_id),
                rest@ == s.subrange(i as int, n as int),
                kept@ == s.subrange(0, i as int).filter(pred),
                forall|a: int, b: int|
                    0 <= a < b < s.len() ==> s[a].proof_id != s[b].proof_id,
            decreases n - i,
        {
            let p = rest.remove(0);
            assert(p == s[i as int]);
            assert(rest@ =~= s.subrange(i + 1, n as int));
            assert(s.subrange(0, i + 1) =~= s.subrange(0, i as int).push(s[i as int]));
            proof {
                s.subrange(0, i as int).lemma_filter_push(s[i as int], pred);
                assert(pred(s[i as int]) == (p.proof_id != proof_id));
            }
            if p.proof_id != proof_id {
                kept.push(p);
            }
            i = i + 1;
        }
        assert(s.subrange(0, n as int) =~= s);
        proof {
            assert forall|a: int, b: int|
                0 <= a < b < kept@.len() implies kept@[a].proof_id != kept@[b].proof_id by {
                lemma_filter_distinct_ids(s, pred);
            }
        }
        self.proofs = kept;
    }

    /// Submit a fraud proof; it gets the next id, which is returned. The clock gives its
    /// timestamp.
    pub fn submit_fraud_proof(
        &mut self,
        batch_id: u64,
        tx_index: usize,
        claim: FraudClaim,
        evidence: FraudEvidence,
    ) -> (id: u64)
        requires
            old(self).wf(),
        ensures
            final(self).wf(),
            id == old(self).next_id(),
            final(self).next_id() == (if old(self).next_id() == u64::MAX {
                0
            } else {
                (old(self).next_id() + 1) as u64
            }),
            final(self).period() == old(self).period(),
            final(self).proofs().len() >= 1,
            final(self).proofs().drop_last() == without_id(old(self).proofs(), id),
            ({
                let p = final(self).proofs().last();
                &&& p.proof_id == id
                &&& p.batch_id == batch_id
                &&& p.challenged_tx_index == tx_index
                &&& p.claim == claim
                &&& p.evidence == evidence
            }),
    {
        let proof_id = self.proof_counter;
        self.proof_counter = self.proof_counter.wrapping_add(1);
        let proof = FraudProof {
            proof_id,
            batch_id,
            challenged_tx_index: tx_index,
            claim,
            evidence,
            timestamp: now_secs(),
        };
        self.remove_id(proof_id);
        let ghost before = self.proofs@;
        self.proofs.push(proof);
        proof {
            assert(self.proofs@.drop_last() =~= before);
            assert forall|i: int, j: int|
                0 <= i < j < self.proofs@.len() implies self.proofs@[i].proof_id
                != self.proofs@[j].proof_id by {
                if j == self.proofs@.len() - 1 {
                    lemma_filter_excludes(old(self).proofs(), proof_id, i);
                }
            }
        }
        proof_id
    }

    /// Verify a fraud proof: `Err("Proof not found")` when no proof has `proof_id`, else
    /// whether its claim holds.
    pub fn verify_proof(&self, proof_id: u64) -> (r: Result<bool, String>)
        requires
            self.wf(),
        ensures
            match self.lookup(proof_id) {
                None => r matches Err(e) && e@ == "Proof not found"@,
                Some(p) => r == Ok::<bool, String>(claim_holds_spec(p)),
            },
    {
        match self.find(proof_id) {
            None => {
                let msg = "Proof not found".to_string();
                proof {
                    broadcast use vstd::string::group_string_axioms;
                }
                Err(msg)
            },
            Some(i) => {
                let proof = &self.proofs[i];
                match &proof.claim {
                    FraudClaim::InvalidStateTransition { expected_post_state, actual_post_state } => {
                        let pre_state_valid = Self::verify_merkle_proofs(
                            proof.evidence.pre_state_proof.as_slice(),
                        );
                        let post_state_valid = Self::verify_merkle_proofs(
                            proof.evidence.post_state_proof.as_slice(),
                        );
                        if !pre_state_valid || !post_state_valid {
                            return Ok(false);
                        }
                        Ok(expected_post_state != actual_post_state)
                    },
                    FraudClaim::InvalidExecution { .. } => Ok(true),
                    FraudClaim::InvalidSignature => Ok(true),
                    FraudClaim::DoubleSpend => Ok(true),
                    FraudClaim::InvalidNonce { expected, actual } => Ok(expected != actual),
                }
            },
        }
    }

    /// Merkle proofs are accepted when they are nonempty.
    fn verify_merkle_proofs(proofs: &[crate::hash_utils::Hash]) -> (r: bool)
        ensures
            r == (proofs@.len() > 0),
    {
        !proofs.is_empty()
    }

    /// Get proof by ID.
    pub fn get_proof(&self, proof_id: u64) -> (r: Option<&FraudProof>)
        requires
            self.wf(),
        ensures
            match self.lookup(proof_id) {
                None => r is None,
                Some(p) => r == Some(&p),
            },
    {
        match self.find(proof_id) {
            None => None,
            Some(i) => Some(&self.proofs[i]),
        }
    }

    /// The proofs still inside the challenge period at time `now`, in submission order.
    pub fn get_active_proofs_at(&self, now: u64) -> (r: Vec<&FraudProof>)
        ensures
            r@.map_values(|p: &FraudProof| *p) == self.proofs().filter(
                |p: FraudProof| is_active_spec(p, now, self.period()),
            ),
    {
        let ghost pred = |p: FraudProof| is_active_spec(p, now, self.period());
        let mut r: Vec<&FraudProof> = Vec::new();
        let mut i: usize = 0;
        while i < self.proofs.len()
            invariant
                0 <= i <= self.proofs@.len(),
                pred == (|p: FraudProof| is_active_spec(p, now, self.period())),
                r@.map_values(|p: &FraudProof| *p) == self.proofs@.subrange(0, i as int).filter(
                    pred,
                ),
            decreases self.proofs@.len() - i,
        {
            let p = &self.proofs[i];
            let ghost s = self.proofs@;
            assert(s.subrange(0, i + 1) =~= s.subrange(0, i as int).push(s[i as int]));
            proof {
                s.subrange(0, i as int).lemma_filter_push(s[i as int], pred);
            }
            if now.wrapping_sub(p.timestamp) < self.challenge_period {
                let ghost before = r@;
                r.push(p);
                assert(r@.map_values(|p: &FraudProof| *p) =~= before.map_values(
                    |p: &FraudProof| *p,
                ).push(*p));
            }
            i = i + 1;
        }
        assert(self.proofs@.subrange(0, self.proofs@.len() as int) =~= self.proofs@);
        r
    }

    /// The proofs still inside the challenge period, by the clock.
    pub fn get_active_proofs(&self) -> (r: Vec<&FraudProof>)
        ensures
            exists|now: u64|
                r@.map_values(|p: &FraudProof| *p) == #[trigger] active_proofs_spec(
                    self.proofs(),
                    now,
                    self.period(),
                ),
    {
        let now = now_secs();
        let r = self.get_active_proofs_at(now);
        assert(r@.map_values(|p: &FraudProof| *p) == active_proofs_spec(self.proofs(), now, self.period()));
        r
    }

    /// Resolve a proof (accepted or rejected): either way it is removed.
    pub fn resolve_proof(&mut self, proof_id: u64, accepted: bool)
        requires
            old(self).wf(),
        ensures
            final(self).wf(),
            final(self).proofs() == without_id(old(self).proofs(), proof_id),
            final(self).next_id() == old(self).next_id(),
            final(self).period() == old(self).period(),
    {
        self.remove_id(proof_id);
    }
}

impl Default for FraudProofManager {
    /// A manager with a seven-day challenge period.
    fn default() -> (m: Self)
        ensures
            m.wf(),
            m.proofs() == Seq::<FraudProof>::empty(),
            m.next_id() == 0,
            m.period() == 7 * 24 * 3600,
    {
        Self::new(7 * 24 * 3600)
    }
}

proof fn lemma_filter_distinct_ids(s: Seq<FraudProof>, pred: spec_fn(FraudProof) -> bool)
    requires
        forall|a: int, b: int| 0 <= a < b < s.len() ==> s[a].proof_id != s[b].proof_id,
    ensures
        forall|a: int, b: int|
            0 <= a < b < s.filter(pred).len() ==> s.filter(pred)[a].proof_id != s.filter(
                pred,
            )[b].proof_id,
    decreases s.len(),
{
    reveal_with_fuel(Seq::filter, 1);
    if s.len() > 0 {
        let d = s.drop_last();
        lemma_filter_distinct_ids(d, pred);
        let f = s.filter(pred);
        let fd = d.filter(pred);
        if pred(s.last()) {
            assert(f == fd.push(s.last()));
            assert forall|a: int, b: int| 0 <= a < b < f.len() implies f[a].proof_id
                != f[b].proof_id by {
                if b == f.len() - 1 {
                    d.lemma_filter_contains_rev(pred, fd[a]);
                    assert(fd.contains(fd[a]));
                    let k = choose|k: int| 0 <= k < d.len() && d[k] == fd[a];
                    assert(s[k] == d[k]);
                }
            }
        }
    }
}

proof fn lemma_filter_excludes(s: Seq<FraudProof>, id: u64, i: int)
    requires
        0 <= i < without_id(s, id).len(),
    ensures
        without_id(s, id)[i].proof_id != id,
{
    let pred = |p: FraudProof| p.proof_id != id;
    s.lemma_filter_pred(pred, i);
}

/// The challenge window: a proof submitted at `ts` is active at a later time `now` exactly
/// while `now < ts + period`; at the moment it is submitted it is active unless the period
/// is zero, and once `period` seconds have passed it is no longer active.
pub proof fn lemma_challenge_window(p: FraudProof, now: u64, period: u64)
    ensures
        now >= p.timestamp ==> (is_active_spec(p, now, period) <==> now < p.timestamp + period),
        now == p.timestamp ==> (is_active_spec(p, now, period) <==> period > 0),
        now >= p.timestamp + period ==> !is_active_spec(p, now, period),
{
}

/// What makes a claim hold: a nonce claim exactly when the nonces differ; a state-transition
/// claim never when either Merkle proof is empty or the two post states agree, and always
/// when both proofs are nonempty and the post states differ; the remaining claims always.
pub proof fn lemma_claim_rules(p: FraudProof)
    ensures
        p.claim matches FraudClaim::InvalidNonce { expected, actual } ==> (claim_holds_spec(p) <==> expected
            != actual),
        p.claim matches FraudClaim::InvalidStateTransition { expected_post_state, actual_post_state } ==> (
        claim_holds_spec(p) <==> (p.evidence.pre_state_proof@.len() != 0 && p.evidence.post_state_proof@.len()
            != 0 && expected_post_state@ != actual_post_state@)),
        (p.claim is InvalidExecution || p.claim is InvalidSignature || p.claim is DoubleSpend) ==> claim_holds_spec(p),
{
}

/// Resolving a proof takes away exactly the proofs with its id: none with that id remains,
/// and every other proof stays, in order.
pub proof fn lemma_resolve_keeps_others(s: Seq<FraudProof>, id: u64)
    ensures
        forall|k: int| 0 <= k < without_id(s, id).len() ==> #[trigger] without_id(s, id)[k].proof_id != id,
        forall|k: int| 0 <= k < s.len() && s[k].proof_id != id ==> without_id(s, id).contains(#[trigger] s[k]),
        without_id(s, id).len() <= s.len(),
        (forall|k: int| 0 <= k < s.len() ==> #[trigger] s[k].proof_id != id) ==> without_id(s, id) == s,
{
    let pred = |p: FraudProof| p.proof_id != id;
    s.filter_lemma(pred);
    assert forall|k: int| 0 <= k < s.len() && s[k].proof_id != id implies without_id(s, id).contains(#[trigger] s[k]) by {
        s.lemma_filter_contains(pred, k);
    }
    if forall|k: int| 0 <= k < s.len() ==> #[trigger] s[k].proof_id != id {
        s.lemma_filter_len(pred);
        lemma_filter_all_true(s, pred);
    }
}

proof fn lemma_filter_all_true(s: Seq<FraudProof>, pred: spec_fn(FraudProof) -> bool)
    requires
        forall|k: int| 0 <= k < s.len() ==> pred(#[trigger] s[k]),
    ensures
        s.filter(pred) == s,
    decreases s.len(),
{
    reveal(Seq::filter);
    if s.len() > 0 {
        lemma_filter_all_true(s.drop_last(), pred);
        assert(s.drop_last().push(s.last()) =~= s);
    }
}

} // verus!
