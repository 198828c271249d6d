//! The dispatcher: routes an operation to the ledger that owns it, under
//! the credential it was submitted with, and hands back the record or the
//! error. It also answers the point queries on all four ledgers.
use crate::amm::{self, TokenId};
use crate::community_token;
use crate::error::Error;
use crate::governance::{self, GovernanceState, ProposalId};
use crate::kyc;
use crate::origin::{AccountId, Origin};
use std::collections::BTreeMap;
use vstd::prelude::*;

verus! {

/// An operation, with its arguments. The credential travels beside it.
#[derive(Clone, Debug, PartialEq, Eq)]
pub enum Operation {
    Mint { to: AccountId, amount: u128 },
    Burn { from: AccountId, amount: u128 },
    Transfer { to: AccountId, amount: u128 },
    CreatePool { token_a: TokenId, token_b: TokenId, amount_a: u128, amount_b: u128 },
    Swap { token_a: TokenId, token_b: TokenId, amount_in: u128 },
    Propose { description: Vec<u8> },
    Vote { proposal_id: ProposalId, approve: bool },
    Verify { who: AccountId },
    Unverify { who: AccountId },
}

/// The record of a successful operation, tagged with its ledger.
#[derive(Clone, Debug, PartialEq, Eq)]
pub enum Record {
    Token(community_token::Event),
    Amm(amm::Event),
    Governance(governance::Event),
    Kyc(kyc::Event),
}

/// The contents of all four ledgers.
pub struct RuntimeState {
    pub balances: Map<AccountId, u128>,
    pub pools: Map<(TokenId, TokenId), (u128, u128)>,
    pub governance: GovernanceState,
    pub verified: Map<AccountId, bool>,
}

/// Lifts a ledger's outcome to a record.
pub open spec fn lift<E>(r: Result<E, Error>, tag: spec_fn(E) -> Record) -> Result<Record, Error> {
    match r {
        Ok(e) => Ok(tag(e)),
        Err(e) => Err(e),
    }
}

/// Outcome and next state of `apply`: the owning ledger takes the step and
/// the other three stay as they are.
pub open spec fn apply_step(s: RuntimeState, origin: Origin, op: Operation) -> (
    Result<Record, Error>,
    RuntimeState,
) {
    match op {
        Operation::Mint { to, amount } => {
            let (r, m) = community_token::mint_step(s.balances, origin, to, amount);
            (lift(r, |e| Record::Token(e)), RuntimeState { balances: m, ..s })
        },
        Operation::Burn { from, amount } => {
            let (r, m) = community_token::burn_step(s.balances, origin, from, amount);
            (lift(r, |e| Record::Token(e)), RuntimeState { balances: m, ..s })
        },
        Operation::Transfer { to, amount } => {
            let (r, m) = community_token::transfer_step(s.balances, origin, to, amount);
            (lift(r, |e| Record::Token(e)), RuntimeState { balances: m, ..s })
        },
        Operation::CreatePool { token_a, token_b, amount_a, amount_b } => {
            let (r, m) = amm::create_pool_step(
                s.pools,
                origin,
                token_a,
                token_b,
                amount_a,
                amount_b,
            );
            (lift(r, |e| Record::Amm(e)), RuntimeState { pools: m, ..s })
        },
        Operation::Swap { token_a, token_b, amount_in } => {
            let (r, m) = amm::swap_step(s.pools, origin, token_a, token_b, amount_in);
            (lift(r, |e| Record::Amm(e)), RuntimeState { pools: m, ..s })
        },
        Operation::Propose { description } => {
            let (r, g) = governance::propose_step(s.governance, origin, description);
            (lift(r, |e| Record::Governance(e)), RuntimeState { governance: g, ..s })
        },
        Operation::Vote { proposal_id, approve } => {
            let (r, g) = governance::vote_step(s.governance, origin, proposal_id, approve);
            (lift(r, |e| Record::Governance(e)), RuntimeState { governance: g, ..s })
        },
        Operation::Verify { who } => {
            let (r, m) = kyc::verify_step(s.verified, origin, who);
            (lift(r, |e| Record::Kyc(e)), RuntimeState { verified: m, ..s })
        },
        Operation::Unverify { who } => {
            let (r, m) = kyc::unverify_step(s.verified, origin, who);
            (lift(r, |e| Record::Kyc(e)), RuntimeState { verified: m, ..s })
        },
    }
}

/// Whether `op` needs the administrative credential.
pub open spec fn is_root_only(op: Operation) -> bool {
    op is Mint || op is Burn || op is Verify || op is Unverify
}

/// The administrative operations, submitted with a signed credential, fail
/// with `Unauthorized` and leave every ledger as it was.
pub proof fn lemma_root_only_rejects_signed(s: RuntimeState, who: AccountId, op: Operation)
    requires
        is_root_only(op),
    ensures
        apply_step(s, Origin::Signed(who), op) == (Err::<Record, Error>(Error::Unauthorized), s),
{
    assert(apply_step(s, Origin::Signed(who), op).1 =~= s);
}

/// Every operation is all or nothing: whenever `apply` reports an error,
/// all four ledgers are exactly as they were.
pub proof fn lemma_errors_change_nothing(s: RuntimeState, origin: Origin, op: Operation)
    ensures
        apply_step(s, origin, op).0 is Err ==> apply_step(s, origin, op).1 == s,
{
    if apply_step(s, origin, op).0 is Err {
        assert(apply_step(s, origin, op).1 =~= s);
    }
}

/// The full contents of the engine, each map ordered by key, for a host
/// to persist and to start again from.
pub struct Snapshot {
    pub balances: BTreeMap<AccountId, u128>,
    pub pools: BTreeMap<(TokenId, TokenId), (u128, u128)>,
    pub proposals: BTreeMap<ProposalId, Vec<u8>>,
    pub votes: BTreeMap<(ProposalId, AccountId), bool>,
    pub next_proposal_id: ProposalId,
    pub verified: BTreeMap<AccountId, bool>,
}

impl View for Snapshot {
    type V = RuntimeState;

    open spec fn view(&self) -> RuntimeState {
        RuntimeState {
            balances: self.balances@,
            pools: self.pools@,
            governance: GovernanceState {
                proposals: self.proposals@.map_values(|d: Vec<u8>| d@),
                votes: self.votes@,
                next_id: self.next_proposal_id,
            },
            verified: self.verified@,
        }
    }
}

/// The engine: the four ledgers and the dispatcher over them.
pub struct Runtime {
    token: community_token::Pallet,
    amm: amm::Pallet,
    governance: governance::Pallet,
    kyc: kyc::Pallet,
}

impl View for Runtime {
    type V = RuntimeState;

    closed spec fn view(&self) -> RuntimeState {
        RuntimeState {
            balances: self.token@,
            pools: self.amm@,
            governance: self.governance@,
            verified: self.kyc@,
        }
    }
}

impl Runtime {
    /// An engine whose four ledgers are empty.
    pub fn new() -> (r: Runtime)
        ensures
            r@.balances == Map::<AccountId, u128>::empty(),
            r@.pools == Map::<(TokenId, TokenId), (u128, u128)>::empty(),
            r@.governance.proposals == Map::<ProposalId, Seq<u8>>::empty(),
            r@.governance.votes == Map::<(ProposalId, AccountId), bool>::empty(),
            r@.governance.next_id == 0,
            r@.verified == Map::<AccountId, bool>::empty(),
    {
        Runtime {
            token: community_token::Pallet::new(),
            amm: amm::Pallet::new(),
            governance: governance::Pallet::new(),
            kyc: kyc::Pallet::new(),
        }
    }

    /// Applies one operation under `origin`. On an error nothing changes.
    pub fn apply(&mut self, origin: Origin, op: Operation) -> (r: Result<Record, Error>)
        ensures
            (r, final(self)@) == apply_step(old(self)@, origin, op),
            final(self)@.governance.wf(),
    {
        proof {
            use_type_invariant(&self.governance);
        }
        match op {
            Operation::Mint { to, amount } => match self.token.mint(origin, to, amount) {
                Ok(e) => Ok(Record::Token(e)),
                Err(e) => Err(e),
            },
            Operation::Burn { from, amount } => match self.token.burn(origin, from, amount) {
                Ok(e) => Ok(Record::Token(e)),
                Err(e) => Err(e),
            },
            Operation::Transfer { to, amount } => match self.token.transfer(origin, to, amount) {
                Ok(e) => Ok(Record::Token(e)),
                Err(e) => Err(e),
            },
            Operation::CreatePool { token_a, token_b, amount_a, amount_b } => match self.amm.create_pool(
                origin,
                token_a,
                token_b,
                amount_a,
                amount_b,
            ) {
                Ok(e) => Ok(Record::Amm(e)),
                Err(e) => Err(e),
            },
            Operation::Swap { token_a, token_b, amount_in } => match self.amm.swap(
                origin,
                token_a,
                token_b,
                amount_in,
            ) {
                Ok(e) => Ok(Record::Amm(e)),
                Err(e) => Err(e),
            },
            Operation::Propose { description } => match self.governance.propose(origin, description) {
                Ok(e) => Ok(Record::Governance(e)),
                Err(e) => Err(e),
            },
            Operation::Vote { proposal_id, approve } => match self.governance.vote(
                origin,
                proposal_id,
                approve,
            ) {
                Ok(e) => Ok(Record::Governance(e)),
                Err(e) => Err(e),
            },
            Operation::Verify { who } => match self.kyc.verify(origin, who) {
                Ok(e) => Ok(Record::Kyc(e)),
                Err(e) => Err(e),
            },
            Operation::Unverify { who } => match self.kyc.unverify(origin, who) {
                Ok(e) => Ok(Record::Kyc(e)),
                Err(e) => Err(e),
            },
        }
    }

    /// The full contents of all four ledgers.
    pub fn export(&self) -> (r: Snapshot)
        ensures
            r@ == self@,
            r@.governance.wf(),
    {
        let (proposals, votes, next_proposal_id) = self.governance.export();
        Snapshot {
            balances: self.token.export(),
            pools: self.amm.export(),
            proposals,
            votes,
            next_proposal_id,
            verified: self.kyc.export(),
        }
    }

    /// An engine holding exactly the contents of `snapshot`, or `None`
    /// where some proposal id is not below the next one: importing what
    /// `export` gave back yields the same state.
    pub fn import(snapshot: Snapshot) -> (r: Option<Runtime>)
        ensures
            r is Some <==> snapshot@.governance.wf(),
            r matches Some(rt) ==> rt@ == snapshot@,
    {
        let Snapshot { balances, pools, proposals, votes, next_proposal_id, verified } = snapshot;
        proof {
            let stored = proposals@.map_values(|d: Vec<u8>| d@);
            assert(stored.dom() =~= proposals@.dom());
            assert(snapshot@.governance.proposals == stored);
            assert(snapshot@.governance.wf() <==> forall|id: ProposalId|
                #[trigger] proposals@.contains_key(id) ==> id < next_proposal_id) by {
                assert forall|id: ProposalId| #[trigger] stored.contains_key(id) <==> proposals@.contains_key(id) by {
                    assert(stored.dom().contains(id) == proposals@.dom().contains(id));
                }
            }
        }
        match governance::Pallet::import(proposals, votes, next_proposal_id) {
            None => None,
            Some(governance) => Some(
                Runtime {
                    token: community_token::Pallet::import(balances),
                    amm: amm::Pallet::import(pools),
                    governance,
                    kyc: kyc::Pallet::import(verified),
                },
            ),
        }
    }

    /// The balance of `who`.
    pub fn balance_of(&self, who: AccountId) -> (r: u128)
        ensures
            r == community_token::balance_in(self@.balances, who),
    {
        self.token.balance_of(who)
    }

    /// The reserves of the pool of `token_a` and `token_b`, in that order.
    pub fn pool_of(&self, token_a: TokenId, token_b: TokenId) -> (r: Option<(u128, u128)>)
        ensures
            r == amm::pool_in(self@.pools, token_a, token_b),
    {
        self.amm.pool_of(token_a, token_b)
    }

    /// The description of proposal `id`, if it exists.
    pub fn proposal(&self, id: ProposalId) -> (r: Option<Vec<u8>>)
        ensures
            match r {
                Some(d) => self@.governance.proposals.contains_key(id) && d@
                    == self@.governance.proposals[id],
                None => !self@.governance.proposals.contains_key(id),
            },
    {
        self.governance.proposal(id)
    }

    /// The vote of `voter` on proposal `id`, if one was cast.
    pub fn vote_of(&self, id: ProposalId, voter: AccountId) -> (r: Option<bool>)
        ensures
            r == (if self@.governance.votes.contains_key((id, voter)) {
                Some(self@.governance.votes[(id, voter)])
            } else {
                None
            }),
    {
        self.governance.vote_of(id, voter)
    }

    /// Whether `who` is verified.
    pub fn is_verified(&self, who: AccountId) -> (r: bool)
        ensures
            r == kyc::verified_in(self@.verified, who),
    {
        self.kyc.is_verified(who)
    }
}

} // verus!
