//! The governance ledger: proposals under sequential ids, and at most one
//! final vote per voter and proposal.
pub use crate::error::Error;
use crate::origin::{ensure_signed, AccountId, Origin};
use crate::store::StorageMap;
use std::collections::BTreeMap;
use vstd::prelude::*;

verus! {

broadcast use vstd::std_specs::btree::group_btree_axioms;

/// A proposal id.
pub type ProposalId = u32;

/// What a successful governance operation reports.
#[derive(Clone, Debug, PartialEq, Eq)]
pub enum Event {
    /// `ProposalCreated(id, description)`
    ProposalCreated(ProposalId, Vec<u8>),
    /// `Voted(proposal_id, voter, approve)`
    Voted(ProposalId, AccountId, bool),
}

/// The contents of the governance ledger: the proposals, the votes, and
/// the id that the next proposal gets.
pub struct GovernanceState {
    pub proposals: Map<ProposalId, Seq<u8>>,
    pub votes: Map<(ProposalId, AccountId), bool>,
    pub next_id: ProposalId,
}

impl GovernanceState {
    /// Every proposal has an id below the next one, so that no id is
    /// handed out twice.
    pub open spec fn wf(self) -> bool {
        forall|id: ProposalId| #[trigger] self.proposals.contains_key(id) ==> id < self.next_id
    }
}

/// Outcome and next state of `propose`: the proposal is stored under the
/// next id.
pub open spec fn propose_step(s: GovernanceState, origin: Origin, description: Vec<u8>) -> (
    Result<Event, Error>,
    GovernanceState,
) {
    if origin is Root {
        (Err(Error::Unauthorized), s)
    } else if s.next_id == u32::MAX {
        (Err(Error::Overflow), s)
    } else {
        (
            Ok(Event::ProposalCreated(s.next_id, description)),
            GovernanceState {
                proposals: s.proposals.insert(s.next_id, description@),
                votes: s.votes,
                next_id: (s.next_id + 1) as u32,
            },
        )
    }
}

/// Outcome and next state of `vote`.
pub open spec fn vote_step(
    s: GovernanceState,
    origin: Origin,
    proposal_id: ProposalId,
    approve: bool,
) -> (Result<Event, Error>, GovernanceState) {
    match origin {
        Origin::Root => (Err(Error::Unauthorized), s),
        Origin::Signed(voter) => {
            if !s.proposals.contains_key(proposal_id) {
                (Err(Error::ProposalNotFound), s)
            } else if s.votes.contains_key((proposal_id, voter)) {
                (Err(Error::AlreadyVoted), s)
            } else {
                (
                    Ok(Event::Voted(proposal_id, voter, approve)),
                    GovernanceState {
                        votes: s.votes.insert((proposal_id, voter), approve),
                        ..s
                    },
                )
            }
        },
    }
}

/// Votes are final: once a voter's vote on a proposal is recorded, a second
/// vote by the same voter on it fails with `AlreadyVoted`, whichever way it
/// goes, and changes nothing.
pub proof fn lemma_second_vote_fails(
    s: GovernanceState,
    voter: AccountId,
    proposal_id: ProposalId,
    first: bool,
    second: bool,
)
    ensures
        ({
            let (r, s1) = vote_step(s, Origin::Signed(voter), proposal_id, first);
            r is Ok ==> {
                &&& s1.votes[(proposal_id, voter)] == first
                &&& vote_step(s1, Origin::Signed(voter), proposal_id, second) == (
                    Err::<Event, Error>(Error::AlreadyVoted),
                    s1,
                )
            }
        }),
{
}

/// A new proposal never takes the id of an existing one, and every later
/// proposal gets a larger id.
pub proof fn lemma_ids_never_reused(s: GovernanceState, origin: Origin, description: Vec<u8>)
    requires
        s.wf(),
    ensures
        ({
            let (r, s1) = propose_step(s, origin, description);
            &&& s1.wf()
            &&& r matches Ok(Event::ProposalCreated(id, _)) ==> !s.proposals.contains_key(id) && id
                < s1.next_id
            &&& s.next_id <= s1.next_id
        }),
{
}

/// The governance ledger.
pub struct Pallet {
    proposals: StorageMap<ProposalId, Vec<u8>>,
    votes: StorageMap<(ProposalId, AccountId), bool>,
    proposal_count: ProposalId,
}

impl View for Pallet {
    type V = GovernanceState;

    closed spec fn view(&self) -> GovernanceState {
        GovernanceState {
            proposals: self.proposals@.map_values(|d: Vec<u8>| d@),
            votes: self.votes@,
            next_id: self.proposal_count,
        }
    }
}

impl Pallet {
    /// Every stored proposal has an id below the counter.
    #[verifier::type_invariant]
    pub open spec fn ids_below_count(&self) -> bool {
        self@.wf()
    }

    /// A ledger with no proposals; the first id is zero.
    pub fn new() -> (r: Pallet)
        ensures
            r@.proposals == Map::<ProposalId, Seq<u8>>::empty(),
            r@.votes == Map::<(ProposalId, AccountId), bool>::empty(),
            r@.next_id == 0,
            r@.wf(),
    {
        let r = Pallet { proposals: StorageMap::new(), votes: StorageMap::new(), proposal_count: 0 };
        assert(r@.proposals =~= Map::<ProposalId, Seq<u8>>::empty());
        r
    }

    /// The id that the next proposal gets.
    pub fn proposal_count(&self) -> (r: ProposalId)
        ensures
            r == self@.next_id,
            self@.wf(),
    {
        proof {
            use_type_invariant(&*self);
        }
        self.proposal_count
    }

    /// The description of proposal `id`, if it exists.
    pub fn proposal(&self, id: ProposalId) -> (r: Option<Vec<u8>>)
        ensures
            match r {
                Some(d) => self@.proposals.contains_key(id) && d@ == self@.proposals[id],
                None => !self@.proposals.contains_key(id),
            },
            self@.wf(),
    {
        proof {
            use_type_invariant(&*self);
        }
        match self.proposals.get_ref(id) {
            Some(d) => Some(d.clone()),
            None => None,
        }
    }

    /// The vote of `voter` on proposal `id`, if one was cast.
    pub fn vote_of(&self, id: ProposalId, voter: AccountId) -> (r: Option<bool>)
        ensures
            r == (if self@.votes.contains_key((id, voter)) {
                Some(self@.votes[(id, voter)])
            } else {
                None
            }),
            self@.wf(),
    {
        proof {
            use_type_invariant(&*self);
        }
        self.votes.get((id, voter))
    }

    /// A copy of the proposals, the votes (both ordered by key) and the next
    /// id.
    pub fn export(&self) -> (r: (
        BTreeMap<ProposalId, Vec<u8>>,
        BTreeMap<(ProposalId, AccountId), bool>,
        ProposalId,
    ))
        ensures
            r.0@.map_values(|d: Vec<u8>| d@) == self@.proposals,
            r.1@ == self@.votes,
            r.2 == self@.next_id,
            self@.wf(),
    {
        proof {
            use_type_invariant(&*self);
        }
        (self.proposals.as_map().clone(), self.votes.as_map().clone(), self.proposal_count)
    }

    /// A ledger holding exactly the given proposals, votes and next id,
    /// provided that every proposal id is below the next one; `None`
    /// otherwise, since a later proposal would then overwrite one.
    pub fn import(
        proposals: BTreeMap<ProposalId, Vec<u8>>,
        votes: BTreeMap<(ProposalId, AccountId), bool>,
        next_id: ProposalId,
    ) -> (r: Option<Pallet>)
        ensures
            (forall|id: ProposalId| #[trigger] proposals@.contains_key(id) ==> id < next_id)
                <==> r is Some,
            r matches Some(p) ==> {
                &&& p@.proposals == proposals@.map_values(|d: Vec<u8>| d@)
                &&& p@.votes == votes@
                &&& p@.next_id == next_id
                &&& p@.wf()
            },
    {
        let mut ok = true;
        let ghost keys = vstd::std_specs::iter::IteratorSpec::remaining(
            &vstd::std_specs::btree::spec_keys_iter(&proposals),
        );
        for id in it: proposals.keys()
            invariant
                it.seq() == keys,
                ok <==> forall|i: int| 0 <= i < it.index() ==> *keys[i] < next_id,
        {
            if *id >= next_id {
                ok = false;
            }
        }
        proof {
            assert(keys.unref().to_set() == proposals@.dom());
            if ok {
                assert forall|id: ProposalId| #[trigger] proposals@.contains_key(id) implies id
                    < next_id by {
                    assert(keys.unref().to_set().contains(id));
                    let i = choose|i: int| 0 <= i < keys.unref().len() && keys.unref()[i] == id;
                    assert(*keys[i] == id);
                }
            } else {
                let i = choose|i: int| 0 <= i < keys.len() && !(*keys[i] < next_id);
                assert(keys.unref()[i] == *keys[i]);
                assert(keys.unref().to_set().contains(*keys[i]));
            }
        }
        if !ok {
            return None;
        }
        let p = Pallet {
            proposals: StorageMap::from_map(proposals),
            votes: StorageMap::from_map(votes),
            proposal_count: next_id,
        };
        Some(p)
    }

    /// Stores a proposal under the next id [Signed]. Fails with `Overflow`
    /// once the ids are used up.
    pub fn propose(&mut self, origin: Origin, description: Vec<u8>) -> (r: Result<Event, Error>)
        ensures
            (r, final(self)@) == propose_step(old(self)@, origin, description),
            final(self)@.wf(),
    {
        proof {
            use_type_invariant(&*self);
        }
        if let Err(e) = ensure_signed(origin) {
            return Err(e);
        }
        let id = self.proposal_count;
        if id == u32::MAX {
            return Err(Error::Overflow);
        }
        // The invariant must hold after every step, so the map is taken out,
        // extended, and put back once the counter is past the new id.
        let mut proposals = StorageMap::new();
        std::mem::swap(&mut self.proposals, &mut proposals);
        proposals.insert(id, description.clone());
        self.proposal_count = id + 1;
        proof {
            let before = old(self).proposals@;
            assert forall|k: ProposalId| #[trigger] proposals@.contains_key(k) implies k < id + 1 by {
                if k != id {
                    assert(before.contains_key(k));
                    assert(old(self)@.proposals.contains_key(k));
                }
            }
            assert(proposals@.map_values(|d: Vec<u8>| d@).dom() =~= proposals@.dom());
        }
        self.proposals = proposals;
        proof {
            assert(self@.proposals =~= old(self)@.proposals.insert(id, description@));
        }
        Ok(Event::ProposalCreated(id, description))
    }

    /// Records the signer's vote on `proposal_id` [Signed]. Fails with
    /// `ProposalNotFound` for an unknown id, and with `AlreadyVoted` where
    /// the signer has voted on it before.
    pub fn vote(&mut self, origin: Origin, proposal_id: ProposalId, approve: bool) -> (r: Result<
        Event,
        Error,
    >)
        ensures
            (r, final(self)@) == vote_step(old(self)@, origin, proposal_id, approve),
            final(self)@.wf(),
    {
        proof {
            use_type_invariant(&*self);
        }
        let voter = match ensure_signed(origin) {
            Ok(who) => who,
            Err(e) => return Err(e),
        };
        if !self.proposals.contains_key(proposal_id) {
            return Err(Error::ProposalNotFound);
        }
        let record = (|entry: Option<bool>| -> (res: Result<(bool, ()), Error>)
            ensures
                res == (if entry is Some {
                    Err::<(bool, ()), Error>(Error::AlreadyVoted)
                } else {
                    Ok((approve, ()))
                }),
            {
                match entry {
                    Some(_) => Err(Error::AlreadyVoted),
                    None => Ok((approve, ())),
                }
            });
        let mut votes = StorageMap::new();
        std::mem::swap(&mut self.votes, &mut votes);
        let outcome = votes.try_mutate((proposal_id, voter), record);
        self.votes = votes;
        match outcome {
            Ok(()) => Ok(Event::Voted(proposal_id, voter, approve)),
            Err(e) => Err(e),
        }
    }
}

} // verus!
