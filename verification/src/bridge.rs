use vstd::prelude::*;
use vstd::bytes::spec_u64_to_le_bytes;

use crate::clock::now_secs;
use crate::table::StrMap;
use crate::util::{decimal_spec, find_first, lemma_find_first, lemma_find_first_at, push_decimal, push_str};

verus! {

#[derive(Debug, Clone)]
pub struct Bridge {
    pub bridge_id: String,
    pub chain_id: u64,
    pub chain_name: String,
    pub bridge_address: String,
    pub status: BridgeStatus,
    pub total_locked: u64,
    pub total_transfers: u64,
    pub supported_tokens: Vec<String>,
}

#[derive(Debug, Clone, Copy, PartialEq, Eq, Structural)]
pub enum BridgeStatus {
    Active,
    Paused,
    Deprecated,
}

#[derive(Debug, Clone)]
pub struct BridgeTransfer {
    pub transfer_id: u64,
    pub transfer_hash: crate::hash_utils::Hash,
    pub bridge_id: String,
    pub direction: TransferDirection,
    pub sender: String,
    pub recipient: String,
    pub token: String,
    pub amount: u64,
    pub status: TransferStatus,
    pub initiated_at: u64,
    pub completed_at: Option<u64>,
    pub proof: Option<Vec<u8>>,
}

#[derive(Debug, Clone, Copy, PartialEq, Eq, Structural)]
pub enum TransferDirection {
    /// From the external chain to the rollup.
    Deposit,
    /// From the rollup to the external chain.
    Withdrawal,
}

#[derive(Debug, Clone, Copy, PartialEq, Eq, Structural)]
pub enum TransferStatus {
    Pending,
    Confirmed,
    Completed,
    Failed,
    Challenged,
}

#[derive(Debug, Clone, PartialEq, Eq)]
pub struct WrappedToken {
    pub wrapped_address: String,
    pub original_chain: u64,
    pub original_address: String,
    pub total_supply: u64,
    pub holders: u64,
}

#[derive(Debug, Clone, Copy, PartialEq, Eq, Structural)]
pub struct BridgeStats {
    pub total_bridges: usize,
    pub active_bridges: usize,
    pub total_transfers: usize,
    pub pending_transfers: usize,
    pub completed_transfers: usize,
    pub total_volume: u64,
    pub wrapped_tokens: usize,
}

/// Why a bridge operation was refused.
#[derive(Debug, Clone, Copy, PartialEq, Eq, Structural)]
pub enum BridgeError {
    AlreadyRegistered,
    BridgeNotFound,
    BridgeNotActive,
    TransferNotFound,
    TransferNotConfirmed,
    WrappedTokenExists,
}

/// The hash a transfer is filed under: SHA-256 of its id as 8 little-endian bytes.
pub open spec fn transfer_hash_spec(id: u64) -> Seq<u8> {
    crate::hash_utils::sha256_spec(spec_u64_to_le_bytes(id))
}

/// The position of the transfer filed under `h`, if any.
pub open spec fn transfer_pos(s: Seq<BridgeTransfer>, h: Seq<u8>) -> Option<int> {
    find_first(s, |t: BridgeTransfer| t.transfer_hash@ == h)
}

/// Two transfers that agree in every field, the proofs compared by their bytes.
pub open spec fn same_transfer(a: BridgeTransfer, b: BridgeTransfer) -> bool {
    &&& a == BridgeTransfer { proof: a.proof, ..b }
    &&& match (a.proof, b.proof) {
        (Some(x), Some(y)) => x@ == y@,
        (None, None) => true,
        _ => false,
    }
}

/// The address of the wrapped form of a token.
pub open spec fn wrapped_address_spec(chain: u64, address: Seq<char>) -> Seq<char> {
    "wrapped_"@ + decimal_spec(chain as nat) + "_"@ + address
}

/// The amounts added up.
pub open spec fn amount_sum(s: Seq<BridgeTransfer>) -> int
    decreases s.len(),
{
    if s.len() == 0 {
        0
    } else {
        amount_sum(s.drop_last()) + s.last().amount
    }
}

/// Cross-chain bridges, their transfers and wrapped tokens.
pub struct BridgeManager {
    bridges: StrMap<Bridge>,
    transfers: Vec<BridgeTransfer>,
    wrapped_tokens: StrMap<WrappedToken>,
    transfer_counter: u64,
}

impl BridgeManager {
    pub closed spec fn bridges(&self) -> Map<Seq<char>, Bridge> {
        self.bridges@
    }

    /// The bridges in the order they were registered.
    pub closed spec fn bridge_list(&self) -> Seq<Bridge> {
        self.bridges.values()
    }

    /// The transfers in the order they were initiated, each filed under its own hash.
    pub closed spec fn transfers(&self) -> Seq<BridgeTransfer> {
        self.transfers@
    }

    pub closed spec fn wrapped(&self) -> Map<Seq<char>, WrappedToken> {
        self.wrapped_tokens@
    }

    /// The id the next transfer gets.
    pub closed spec fn next_id(&self) -> u64 {
        self.transfer_counter
    }

    /// The transfer filed under `h`, if any.
    pub open spec fn transfer(&self, h: Seq<u8>) -> Option<BridgeTransfer> {
        match transfer_pos(self.transfers(), h) {
            Some(i) => Some(self.transfers()[i]),
            None => None,
        }
    }

    /// The tables are well formed and no two transfers share a hash.
    pub closed spec fn wf(&self) -> bool {
        &&& self.bridges.wf()
        &&& self.wrapped_tokens.wf()
        &&& forall|i: int, j: int|
            0 <= i < j < self.transfers@.len() ==> self.transfers@[i].transfer_hash@ != self.transfers@[j].transfer_hash@
    }

    pub fn new() -> (m: Self)
        ensures
            m.wf(),
            m.bridges() == Map::<Seq<char>, Bridge>::empty(),
            m.transfers() == Seq::<BridgeTransfer>::empty(),
            m.wrapped() == Map::<Seq<char>, WrappedToken>::empty(),
            m.next_id() == 0,
    {
        BridgeManager { bridges: StrMap::new(), transfers: Vec::new(), wrapped_tokens: StrMap::new(), transfer_counter: 0 }
    }

    /// Register a bridge under its id; refused when the id is taken.
    pub fn register_bridge(&mut self, bridge: Bridge) -> (r: Result<(), BridgeError>)
        requires
            old(self).wf(),
        ensures
            final(self).wf(),
            old(self).bridges().dom().contains(bridge.bridge_id@) ==> r == Err::<(), BridgeError>(
                BridgeError::AlreadyRegistered,
            ) && *final(self) == *old(self),
            !old(self).bridges().dom().contains(bridge.bridge_id@) ==> r is Ok && final(self).bridges()
                == old(self).bridges().insert(bridge.bridge_id@, bridge) && final(self).transfers()
                == old(self).transfers() && final(self).wrapped() == old(self).wrapped()
                && final(self).next_id() == old(self).next_id(),
    {
        if self.bridges.contains_key(bridge.bridge_id.as_str()) {
            return Err(BridgeError::AlreadyRegistered);
        }
        let id = bridge.bridge_id.clone();
        self.bridges.insert(id, bridge);
        Ok(())
    }

    fn find_transfer(&self, h: &crate::hash_utils::Hash) -> (r: Option<usize>)
        ensures
            match r {
                Some(i) => transfer_pos(self.transfers(), h@) == Some(i as int) && (i as int) < self.transfers().len(),
                None => transfer_pos(self.transfers(), h@) is None,
            },
    {
        let ghost pred = |t: BridgeTransfer| t.transfer_hash@ == h@;
        let mut i: usize = 0;
        while i < self.transfers.len()
            invariant
                0 <= i <= self.transfers@.len(),
                pred == (|t: BridgeTransfer| t.transfer_hash@ == h@),
                forall|j: int| 0 <= j < i ==> !pred(#[trigger] self.transfers@[j]),
            decreases self.transfers@.len() - i,
        {
            if self.transfers[i].transfer_hash == *h {
                proof {
                    lemma_find_first_at(self.transfers@, pred, i as int);
                }
                return Some(i);
            }
            i = i + 1;
        }
        proof {
            lemma_find_first(self.transfers@, pred);
        }
        None
    }

    /// File `t` under its hash, replacing a transfer filed under the same hash.
    fn put_transfer(&mut self, t: BridgeTransfer)
        requires
            old(self).wf(),
        ensures
            final(self).wf(),
            final(self).transfers() == (match transfer_pos(old(self).transfers(), t.transfer_hash@) {
                Some(i) => old(self).transfers().update(i, t),
                None => old(self).transfers().push(t),
            }),
            final(self).bridges() == old(self).bridges(),
            final(self).wrapped() == old(self).wrapped(),
            final(self).next_id() == old(self).next_id(),
    {
        let ghost s = self.transfers@;
        let ghost pred = |x: BridgeTransfer| x.transfer_hash@ == t.transfer_hash@;
        match self.find_transfer(&t.transfer_hash) {
            Some(i) => {
                self.transfers.set(i, t);
                proof {
                    assert forall|a: int, b: int| 0 <= a < b < self.transfers@.len() implies self.transfers@[a].transfer_hash@ != self.transfers@[b].transfer_hash@ by {
                        if a != i && b != i {
                        } else if a == i {
                            assert(self.transfers@[b] == s[b]);
                        } else {
                            assert(self.transfers@[a] == s[a]);
                        }
                    }
                }
            },
            None => {
                proof {
                    lemma_find_first(s, pred);
                }
                self.transfers.push(t);
                proof {
                    assert forall|a: int, b: int| 0 <= a < b < self.transfers@.len() implies self.transfers@[a].transfer_hash@ != self.transfers@[b].transfer_hash@ by {
                        if b == s.len() {
                            assert(!pred(s[a]));
                        }
                    }
                }
            },
        }
    }

    /// What `initiate_deposit` and `initiate_withdrawal` answer for a bridge: refused when
    /// it is unknown or not active.
    pub open spec fn initiate_result(&self, bridge_id: Seq<char>) -> Result<(), BridgeError> {
        if !self.bridges().dom().contains(bridge_id) {
            Err(BridgeError::BridgeNotFound)
        } else if self.bridges()[bridge_id].status != BridgeStatus::Active {
            Err(BridgeError::BridgeNotActive)
        } else {
            Ok(())
        }
    }

    fn initiate_at(
        &mut self,
        bridge_id: String,
        direction: TransferDirection,
        sender: String,
        recipient: String,
        token: String,
        amount: u64,
        carried: Option<Vec<u8>>,
        now: u64,
    ) -> (r: Result<BridgeTransfer, BridgeError>)
        requires
            old(self).wf(),
        ensures
            final(self).wf(),
            match old(self).initiate_result(bridge_id@) {
                Err(e) => r == Err::<BridgeTransfer, BridgeError>(e) && *final(self) == *old(self),
                Ok(_) => r matches Ok(t) && {
                    &&& t == BridgeTransfer {
                        transfer_id: old(self).next_id(),
                        transfer_hash: t.transfer_hash,
                        bridge_id,
                        direction,
                        sender,
                        recipient,
                        token,
                        amount,
                        status: TransferStatus::Pending,
                        initiated_at: now,
                        completed_at: None,
                        proof: t.proof,
                    }
                    &&& t.transfer_hash@ == transfer_hash_spec(old(self).next_id())
                    &&& (match (t.proof, carried) {
                        (Some(x), Some(y)) => x@ == y@,
                        (None, None) => true,
                        _ => false,
                    })
                    &&& final(self).transfers().len() >= 1
                    &&& same_transfer(final(self).transfer(t.transfer_hash@)->Some_0, t)
                    &&& final(self).transfer(t.transfer_hash@) is Some
                    &&& final(self).transfers() == (match transfer_pos(old(self).transfers(), t.transfer_hash@) {
                        Some(i) => old(self).transfers().update(i, final(self).transfer(t.transfer_hash@)->Some_0),
                        None => old(self).transfers().push(final(self).transfer(t.transfer_hash@)->Some_0),
                    })
                    &&& final(self).bridges() == old(self).bridges()
                    &&& final(self).wrapped() == old(self).wrapped()
                    &&& final(self).next_id() == (if old(self).next_id() == u64::MAX {
                        0
                    } else {
                        (old(self).next_id() + 1) as u64
                    })
                },
            },
    {
        match self.bridges.get(bridge_id.as_str()) {
            None => return Err(BridgeError::BridgeNotFound),
            Some(b) => {
                if b.status != BridgeStatus::Active {
                    return Err(BridgeError::BridgeNotActive);
                }
            },
        }
        let transfer_id = self.transfer_counter;
        self.transfer_counter = self.transfer_counter.wrapping_add(1);
        let id_bytes = vstd::bytes::u64_to_le_bytes(transfer_id);
        let transfer_hash = crate::hash_utils::Hash::new(id_bytes.as_slice());
        let stored_proof = match &carried {
            Some(p) => Some(crate::util::copy_vec(p)),
            None => None,
        };
        let stored = BridgeTransfer {
            transfer_id,
            transfer_hash,
            bridge_id: bridge_id.clone(),
            direction,
            sender: sender.clone(),
            recipient: recipient.clone(),
            token: token.clone(),
            amount,
            status: TransferStatus::Pending,
            initiated_at: now,
            completed_at: None,
            proof: stored_proof,
        };
        let ghost sv = stored;
        let ghost s0 = self.transfers@;
        self.put_transfer(stored);
        let t = BridgeTransfer {
            transfer_id,
            transfer_hash,
            bridge_id,
            direction,
            sender,
            recipient,
            token,
            amount,
            status: TransferStatus::Pending,
            initiated_at: now,
            completed_at: None,
            proof: carried,
        };
        proof {
            let pred = |x: BridgeTransfer| x.transfer_hash@ == transfer_hash@;
            let s1 = self.transfers@;
            match transfer_pos(s0, transfer_hash@) {
                Some(i) => {
                    lemma_find_first(s0, pred);
                    assert forall|j: int| 0 <= j < i implies !pred(#[trigger] s1[j]) by {
                        assert(s1[j] == s0[j]);
                    }
                    lemma_find_first_at(s1, pred, i);
                },
                None => {
                    lemma_find_first(s0, pred);
                    assert forall|j: int| 0 <= j < s0.len() implies !pred(#[trigger] s1[j]) by {
                        assert(s1[j] == s0[j]);
                    }
                    lemma_find_first_at(s1, pred, s0.len() as int);
                },
            }
            assert(self.transfer(transfer_hash@) == Some(sv));
        }
        Ok(t)
    }

    /// Initiate a deposit (external chain to rollup) at time `now`: a pending transfer with the
    /// next id, filed under the hash of that id, holding the proof.
    pub fn initiate_deposit_at(
        &mut self,
        bridge_id: String,
        sender: String,
        recipient: String,
        token: String,
        amount: u64,
        deposit_proof: Vec<u8>,
        now: u64,
    ) -> (r: Result<BridgeTransfer, BridgeError>)
        requires
            old(self).wf(),
        ensures
            final(self).wf(),
            match old(self).initiate_result(bridge_id@) {
                Err(e) => r == Err::<BridgeTransfer, BridgeError>(e) && *final(self) == *old(self),
                Ok(_) => r matches Ok(t) && {
                    &&& t.transfer_id == old(self).next_id()
                    &&& t.transfer_hash@ == transfer_hash_spec(old(self).next_id())
                    &&& t.bridge_id == bridge_id
                    &&& t.direction == TransferDirection::Deposit
                    &&& t.sender == sender
                    &&& t.recipient == recipient
                    &&& t.token == token
                    &&& t.amount == amount
                    &&& t.status == TransferStatus::Pending
                    &&& t.initiated_at == now
                    &&& t.completed_at is None
                    &&& t.proof matches Some(p) && p@ == deposit_proof@
                    &&& final(self).transfer(t.transfer_hash@) is Some
                    &&& same_transfer(final(self).transfer(t.transfer_hash@)->Some_0, t)
                    &&& final(self).bridges() == old(self).bridges()
                    &&& final(self).wrapped() == old(self).wrapped()
                },
            },
    {
        self.initiate_at(bridge_id, TransferDirection::Deposit, sender, recipient, token, amount, Some(deposit_proof), now)
    }

    /// Initiate a deposit now, by the wall clock (see `initiate_deposit_at`).
    pub fn initiate_deposit(
        &mut self,
        bridge_id: String,
        sender: String,
        recipient: String,
        token: String,
        amount: u64,
        deposit_proof: Vec<u8>,
    ) -> (r: Result<BridgeTransfer, BridgeError>)
        requires
            old(self).wf(),
        ensures
            final(self).wf(),
            match old(self).initiate_result(bridge_id@) {
                Err(e) => r == Err::<BridgeTransfer, BridgeError>(e) && *final(self) == *old(self),
                Ok(_) => r matches Ok(t) && {
                    &&& t.transfer_id == old(self).next_id()
                    &&& t.transfer_hash@ == transfer_hash_spec(old(self).next_id())
                    &&& t.bridge_id == bridge_id
                    &&& t.direction == TransferDirection::Deposit
                    &&& t.sender == sender
                    &&& t.recipient == recipient
                    &&& t.token == token
                    &&& t.amount == amount
                    &&& t.status == TransferStatus::Pending
                    &&& t.completed_at is None
                    &&& t.proof matches Some(p) && p@ == deposit_proof@
                    &&& final(self).transfer(t.transfer_hash@) is Some
                    &&& same_transfer(final(self).transfer(t.transfer_hash@)->Some_0, t)
                    &&& final(self).bridges() == old(self).bridges()
                    &&& final(self).wrapped() == old(self).wrapped()
                },
            },
    {
        let now = now_secs();
        self.initiate_deposit_at(bridge_id, sender, recipient, token, amount, deposit_proof, now)
    }

    /// Initiate a withdrawal (rollup to external chain) at time `now`: a pending transfer with
    /// the next id, filed under the hash of that id, without a proof.
    pub fn initiate_withdrawal_at(
        &mut self,
        bridge_id: String,
        sender: String,
        recipient: String,
        token: String,
        amount: u64,
        now: u64,
    ) -> (r: Result<BridgeTransfer, BridgeError>)
        requires
            old(self).wf(),
        ensures
            final(self).wf(),
            match old(self).initiate_result(bridge_id@) {
                Err(e) => r == Err::<BridgeTransfer, BridgeError>(e) && *final(self) == *old(self),
                Ok(_) => r matches Ok(t) && {
                    &&& t.transfer_id == old(self).next_id()
                    &&& t.transfer_hash@ == transfer_hash_spec(old(self).next_id())
                    &&& t.bridge_id == bridge_id
                    &&& t.direction == TransferDirection::Withdrawal
                    &&& t.sender == sender
                    &&& t.recipient == recipient
                    &&& t.token == token
                    &&& t.amount == amount
                    &&& t.status == TransferStatus::Pending
                    &&& t.initiated_at == now
                    &&& t.completed_at is None
                    &&& t.proof is None
                    &&& final(self).transfer(t.transfer_hash@) == Some(t)
                    &&& final(self).bridges() == old(self).bridges()
                    &&& final(self).wrapped() == old(self).wrapped()
                },
            },
    {
        self.initiate_at(bridge_id, TransferDirection::Withdrawal, sender, recipient, token, amount, None, now)
    }

    /// Initiate a withdrawal now, by the wall clock (see `initiate_withdrawal_at`).
    pub fn initiate_withdrawal(
        &mut self,
        bridge_id: String,
        sender: String,
        recipient: String,
        token: String,
        amount: u64,
    ) -> (r: Result<BridgeTransfer, BridgeError>)
        requires
            old(self).wf(),
        ensures
            final(self).wf(),
            match old(self).initiate_result(bridge_id@) {
                Err(e) => r == Err::<BridgeTransfer, BridgeError>(e) && *final(self) == *old(self),
                Ok(_) => r matches Ok(t) && {
                    &&& t.transfer_id == old(self).next_id()
                    &&& t.transfer_hash@ == transfer_hash_spec(old(self).next_id())
                    &&& t.bridge_id == bridge_id
                    &&& t.direction == TransferDirection::Withdrawal
                    &&& t.sender == sender
                    &&& t.recipient == recipient
                    &&& t.token == token
                    &&& t.amount == amount
                    &&& t.status == TransferStatus::Pending
                    &&& t.completed_at is None
                    &&& t.proof is None
                    &&& final(self).transfer(t.transfer_hash@) == Some(t)
                    &&& final(self).bridges() == old(self).bridges()
                    &&& final(self).wrapped() == old(self).wrapped()
                },
            },
    {
        let now = now_secs();
        self.initiate_withdrawal_at(bridge_id, sender, recipient, token, amount, now)
    }

    /// What `complete_transfer` answers: refused for an unknown transfer or one that is not
    /// confirmed.
    pub open spec fn complete_result(&self, h: Seq<u8>) -> Result<(), BridgeError> {
        match self.transfer(h) {
            None => Err(BridgeError::TransferNotFound),
            Some(t) => if t.status != TransferStatus::Confirmed {
                Err(BridgeError::TransferNotConfirmed)
            } else {
                Ok(())
            },
        }
    }

    /// `next` is this manager after the transfer with hash `transfer_hash` was completed at
    /// `now`: it is marked completed at `now`, its bridge (if registered) counts one more
    /// transfer, and nothing else changes.
    pub open spec fn completed(&self, next: &Self, transfer_hash: Seq<u8>, now: u64) -> bool {
        let i = transfer_pos(self.transfers(), transfer_hash)->Some_0;
        let t = self.transfers()[i];
        &&& next.transfers() == self.transfers().update(
            i,
            BridgeTransfer { status: TransferStatus::Completed, completed_at: Some(now), ..t },
        )
        &&& next.bridges() == (if self.bridges().dom().contains(t.bridge_id@) {
            self.bridges().insert(
                t.bridge_id@,
                Bridge { total_transfers: (self.bridges()[t.bridge_id@].total_transfers + 1) as u64, ..self.bridges()[t.bridge_id@] },
            )
        } else {
            self.bridges()
        })
        &&& next.wrapped() == self.wrapped()
        &&& next.next_id() == self.next_id()
    }

    /// Complete a confirmed transfer at time `now`; its bridge, if registered, counts one more
    /// transfer.
    pub fn complete_transfer_at(&mut self, transfer_hash: crate::hash_utils::Hash, now: u64) -> (r: Result<(), BridgeError>)
        requires
            old(self).wf(),
            old(self).transfer(transfer_hash@) matches Some(t) ==> (old(self).bridges().dom().contains(t.bridge_id@)
                ==> old(self).bridges()[t.bridge_id@].total_transfers < u64::MAX),
        ensures
            final(self).wf(),
            r == old(self).complete_result(transfer_hash@),
            r is Err ==> *final(self) == *old(self),
            r is Ok ==> old(self).completed(final(self), transfer_hash@, now),
    {
        let i = match self.find_transfer(&transfer_hash) {
            None => return Err(BridgeError::TransferNotFound),
            Some(i) => i,
        };
        if self.transfers[i].status != TransferStatus::Confirmed {
            return Err(BridgeError::TransferNotConfirmed);
        }
        let ghost s0 = self.transfers@;
        let mut t = self.transfers.remove(i);
        t.status = TransferStatus::Completed;
        t.completed_at = Some(now);
        let bid = t.bridge_id.clone();
        let ghost tv = t;
        self.transfers.insert(i, t);
        proof {
            assert(self.transfers@ =~= s0.update(i as int, tv));
            assert forall|a: int, b: int| 0 <= a < b < self.transfers@.len() implies self.transfers@[a].transfer_hash@ != self.transfers@[b].transfer_hash@ by {
                assert(self.transfers@[a].transfer_hash == s0[a].transfer_hash);
                assert(self.transfers@[b].transfer_hash == s0[b].transfer_hash);
            }
        }
        match self.bridges.remove(bid.as_str()) {
            Some(mut b) => {
                b.total_transfers = b.total_transfers + 1;
                self.bridges.insert(bid, b);
            },
            None => {},
        }
        assert(i as int == transfer_pos(old(self).transfers(), transfer_hash@)->Some_0);
        assert(self.bridges() == (if old(self).bridges().dom().contains(s0[i as int].bridge_id@) {
            old(self).bridges().insert(
                s0[i as int].bridge_id@,
                Bridge { total_transfers: (old(self).bridges()[s0[i as int].bridge_id@].total_transfers + 1) as u64, ..old(self).bridges()[s0[i as int].bridge_id@] },
            )
        } else {
            old(self).bridges()
        }));
        Ok(())
    }

    /// Complete a confirmed transfer now, by the wall clock (see `complete_transfer_at`).
    pub fn complete_transfer(&mut self, transfer_hash: crate::hash_utils::Hash) -> (r: Result<(), BridgeError>)
        requires
            old(self).wf(),
            old(self).transfer(transfer_hash@) matches Some(t) ==> (old(self).bridges().dom().contains(t.bridge_id@)
                ==> old(self).bridges()[t.bridge_id@].total_transfers < u64::MAX),
        ensures
            final(self).wf(),
            r == old(self).complete_result(transfer_hash@),
            r is Err ==> *final(self) == *old(self),
            r is Ok ==> exists|now: u64| #[trigger] old(self).completed(final(self), transfer_hash@, now),
    {
        let now = now_secs();
        self.complete_transfer_at(transfer_hash, now)
    }

    /// Create the wrapped form of a token, at address "wrapped_<chain>_<address>" with no
    /// supply; refused when it exists.
    pub fn create_wrapped_token(&mut self, original_chain: u64, original_address: String) -> (r: Result<WrappedToken, BridgeError>)
        requires
            old(self).wf(),
        ensures
            final(self).wf(),
            old(self).wrapped().dom().contains(wrapped_address_spec(original_chain, original_address@)) ==> r
                == Err::<WrappedToken, BridgeError>(BridgeError::WrappedTokenExists) && *final(self) == *old(self),
            !old(self).wrapped().dom().contains(wrapped_address_spec(original_chain, original_address@)) ==> (r matches Ok(t) && {
                &&& t.wrapped_address@ == wrapped_address_spec(original_chain, original_address@)
                &&& t.original_chain == original_chain
                &&& t.original_address == original_address
                &&& t.total_supply == 0
                &&& t.holders == 0
                &&& final(self).wrapped() == old(self).wrapped().insert(t.wrapped_address@, t)
                &&& final(self).bridges() == old(self).bridges()
                &&& final(self).transfers() == old(self).transfers()
                &&& final(self).next_id() == old(self).next_id()
            }),
    {
        let mut wrapped_address = "wrapped_".to_owned();
        push_decimal(&mut wrapped_address, original_chain);
        push_str(&mut wrapped_address, "_");
        push_str(&mut wrapped_address, original_address.as_str());
        if self.wrapped_tokens.contains_key(wrapped_address.as_str()) {
            return Err(BridgeError::WrappedTokenExists);
        }
        let token = WrappedToken {
            wrapped_address: wrapped_address.clone(),
            original_chain,
            original_address: original_address.clone(),
            total_supply: 0,
            holders: 0,
        };
        let stored = WrappedToken {
            wrapped_address: wrapped_address.clone(),
            original_chain,
            original_address,
            total_supply: 0,
            holders: 0,
        };
        self.wrapped_tokens.insert(wrapped_address, stored);
        Ok(token)
    }

    /// The bridge with `bridge_id`, if registered.
    pub fn get_bridge(&self, bridge_id: &str) -> (r: Option<&Bridge>)
        requires
            self.wf(),
        ensures
            match r {
                Some(b) => self.bridges().dom().contains(bridge_id@) && *b == self.bridges()[bridge_id@],
                None => !self.bridges().dom().contains(bridge_id@),
            },
    {
        self.bridges.get(bridge_id)
    }

    /// The transfer filed under `transfer_hash`, if any.
    pub fn get_transfer(&self, transfer_hash: &crate::hash_utils::Hash) -> (r: Option<&BridgeTransfer>)
        ensures
            match self.transfer(transfer_hash@) {
                Some(t) => r == Some(&t),
                None => r is None,
            },
    {
        match self.find_transfer(transfer_hash) {
            Some(i) => Some(&self.transfers[i]),
            None => None,
        }
    }

    /// All bridges, in the order they were registered.
    pub fn get_all_bridges(&self) -> (r: Vec<&Bridge>)
        ensures
            r@.map_values(|b: &Bridge| *b) == self.bridge_list(),
    {
        let mut r: Vec<&Bridge> = Vec::new();
        let mut i: usize = 0;
        while i < self.bridges.len_entries()
            invariant
                0 <= i <= self.bridges.entries().len(),
                r@.map_values(|b: &Bridge| *b) == self.bridges.entries().take(i as int).map_values(
                    |e: (String, Bridge)| e.1,
                ),
            decreases self.bridges.entries().len() - i,
        {
            let b = self.bridges.value_at(i);
            let ghost before = r@;
            r.push(b);
            assert(r@.map_values(|b: &Bridge| *b) =~= before.map_values(|b: &Bridge| *b).push(*b));
            assert(self.bridges.entries().take(i + 1).map_values(|e: (String, Bridge)| e.1)
                =~= self.bridges.entries().take(i as int).map_values(|e: (String, Bridge)| e.1).push(*b));
            i = i + 1;
        }
        assert(self.bridges.entries().take(i as int) =~= self.bridges.entries());
        r
    }

    /// Bridge statistics: bridges and how many are active, transfers and how many are pending
    /// or completed, the transferred amounts added up, and the wrapped tokens.
    pub fn get_stats(&self) -> (st: BridgeStats)
        requires
            self.wf(),
            amount_sum(self.transfers()) <= u64::MAX,
        ensures
            st.total_bridges == self.bridges().dom().len(),
            st.active_bridges == self.bridge_list().filter(|b: Bridge| b.status == BridgeStatus::Active).len(),
            st.total_transfers == self.transfers().len(),
            st.pending_transfers == self.transfers().filter(|t: BridgeTransfer| t.status == TransferStatus::Pending).len(),
            st.completed_transfers == self.transfers().filter(|t: BridgeTransfer| t.status == TransferStatus::Completed).len(),
            st.total_volume == amount_sum(self.transfers()),
            st.wrapped_tokens == self.wrapped().dom().len(),
    {
        let ghost bs = self.bridges.values();
        let ghost pa = |b: Bridge| b.status == BridgeStatus::Active;
        let nb = self.bridges.len_entries();
        let mut active: usize = 0;
        let mut i: usize = 0;
        while i < nb
            invariant
                nb == bs.len(),
                bs == self.bridges.values(),
                0 <= i <= nb,
                pa == (|b: Bridge| b.status == BridgeStatus::Active),
                active == bs.take(i as int).filter(pa).len(),
                active <= i,
            decreases nb - i,
        {
            let b = self.bridges.value_at(i);
            proof {
                assert(bs[i as int] == *b);
                assert(bs.take(i + 1) =~= bs.take(i as int).push(bs[i as int]));
                bs.take(i as int).lemma_filter_push(bs[i as int], pa);
            }
            if b.status == BridgeStatus::Active {
                active = active + 1;
            }
            i = i + 1;
        }
        assert(bs.take(nb as int) =~= bs);
        let ghost ts = self.transfers@;
        let ghost pp = |t: BridgeTransfer| t.status == TransferStatus::Pending;
        let ghost pc = |t: BridgeTransfer| t.status == TransferStatus::Completed;
        let mut pending: usize = 0;
        let mut completed: usize = 0;
        let mut volume: u64 = 0;
        let mut j: usize = 0;
        proof {
            lemma_amount_mono(ts, ts.len() as int);
        }
        while j < self.transfers.len()
            invariant
                ts == self.transfers@,
                amount_sum(ts) <= u64::MAX,
                0 <= j <= ts.len(),
                pp == (|t: BridgeTransfer| t.status == TransferStatus::Pending),
                pc == (|t: BridgeTransfer| t.status == TransferStatus::Completed),
                pending == ts.take(j as int).filter(pp).len(),
                completed == ts.take(j as int).filter(pc).len(),
                pending <= j,
                completed <= j,
                volume == amount_sum(ts.take(j as int)),
            decreases ts.len() - j,
        {
            proof {
                assert(ts.take(j + 1) =~= ts.take(j as int).push(ts[j as int]));
                ts.take(j as int).lemma_filter_push(ts[j as int], pp);
                ts.take(j as int).lemma_filter_push(ts[j as int], pc);
                assert(ts.take(j + 1).drop_last() =~= ts.take(j as int));
                lemma_amount_mono(ts, j + 1);
            }
            let st = self.transfers[j].status;
            if st == TransferStatus::Pending {
                pending = pending + 1;
            }
            if st == TransferStatus::Completed {
                completed = completed + 1;
            }
            volume = volume + self.transfers[j].amount;
            j = j + 1;
        }
        assert(ts.take(ts.len() as int) =~= ts);
        BridgeStats {
            total_bridges: self.bridges.len(),
            active_bridges: active,
            total_transfers: self.transfers.len(),
            pending_transfers: pending,
            completed_transfers: completed,
            total_volume: volume,
            wrapped_tokens: self.wrapped_tokens.len(),
        }
    }
}

proof fn lemma_amount_mono(s: Seq<BridgeTransfer>, n: int)
    requires
        0 <= n <= s.len(),
    ensures
        amount_sum(s.take(n)) <= amount_sum(s),
    decreases s.len() - n,
{
    if n < s.len() {
        lemma_amount_mono(s, n + 1);
        assert(s.take(n + 1).drop_last() =~= s.take(n));
    } else {
        assert(s.take(n) =~= s);
    }
}

/// Which requests a bridge manager admits: a deposit or withdrawal exactly over a registered
/// bridge that is active, and a completion exactly of a filed transfer that is confirmed.
pub proof fn lemma_bridge_admits(m: BridgeManager, bridge_id: Seq<char>, h: Seq<u8>)
    ensures
        (m.initiate_result(bridge_id) is Ok) <==> (m.bridges().dom().contains(bridge_id) && m.bridges()[bridge_id].status
            == BridgeStatus::Active),
        (m.complete_result(h) is Ok) <==> (m.transfer(h) matches Some(t) && t.status == TransferStatus::Confirmed),
        m.transfer(h) is None ==> m.complete_result(h) == Err::<(), BridgeError>(BridgeError::TransferNotFound),
{
}

/// Completing a confirmed transfer at `now`: the transfer filed under its hash is then the
/// same transfer, marked completed at `now`; the list keeps its length and every transfer
/// filed under another hash stays as it was, in its place.
pub proof fn lemma_completion_effect(m: BridgeManager, next: BridgeManager, h: Seq<u8>, now: u64)
    requires
        m.complete_result(h) is Ok,
        m.completed(&next, h, now),
    ensures
        m.transfer(h) matches Some(t) && t.status == TransferStatus::Confirmed,
        next.transfer(h) == Some(
            BridgeTransfer { status: TransferStatus::Completed, completed_at: Some(now), ..m.transfer(h)->Some_0 },
        ),
        next.transfers().len() == m.transfers().len(),
        forall|k: int|
            0 <= k < m.transfers().len() && (#[trigger] m.transfers()[k]).transfer_hash@ != h ==> next.transfers()[k]
                == m.transfers()[k],
{
    let pred = |t: BridgeTransfer| t.transfer_hash@ == h;
    let s0 = m.transfers();
    let s1 = next.transfers();
    lemma_find_first(s0, pred);
    let i = transfer_pos(s0, h)->Some_0;
    assert forall|j: int| 0 <= j < i implies !pred(#[trigger] s1[j]) by {
        assert(s1[j] == s0[j]);
    }
    lemma_find_first_at(s1, pred, i);
}

impl Default for BridgeManager {
    fn default() -> (m: Self)
        ensures
            m.wf(),
            m.bridges() == Map::<Seq<char>, Bridge>::empty(),
            m.transfers() == Seq::<BridgeTransfer>::empty(),
            m.wrapped() == Map::<Seq<char>, WrappedToken>::empty(),
            m.next_id() == 0,
    {
        Self::new()
    }
}

} // verus!
