use tokenchain::runtime::{Operation, Record, Runtime};
use tokenchain::{amm, community_token, governance, kyc};
use tokenchain::{Error, Origin};

fn populated() -> Runtime {
    let mut rt = Runtime::new();
    rt.apply(Origin::Root, Operation::Mint { to: 1, amount: 100 }).unwrap();
    rt.apply(Origin::Signed(1), Operation::Transfer { to: 2, amount: 40 }).unwrap();
    rt.apply(Origin::Signed(1), Operation::CreatePool { token_a: 1, token_b: 2, amount_a: 1000, amount_b: 1000 }).unwrap();
    rt.apply(Origin::Signed(1), Operation::Propose { description: b"fund".to_vec() }).unwrap();
    rt.apply(Origin::Signed(2), Operation::Vote { proposal_id: 0, approve: true }).unwrap();
    rt.apply(Origin::Root, Operation::Verify { who: 3 }).unwrap();
    rt
}

#[test]
fn apply_routes_to_each_ledger() {
    let mut rt = Runtime::new();
    assert_eq!(
        rt.apply(Origin::Root, Operation::Mint { to: 1, amount: 100 }),
        Ok(Record::Token(community_token::Event::Minted(1, 100)))
    );
    assert_eq!(
        rt.apply(Origin::Signed(1), Operation::CreatePool { token_a: 1, token_b: 2, amount_a: 1000, amount_b: 1000 }),
        Ok(Record::Amm(amm::Event::PoolCreated(1, 2)))
    );
    assert_eq!(
        rt.apply(Origin::Signed(5), Operation::Swap { token_a: 1, token_b: 2, amount_in: 100 }),
        Ok(Record::Amm(amm::Event::Swapped(5, 1, 2, 100, 90)))
    );
    assert_eq!(
        rt.apply(Origin::Signed(1), Operation::Propose { description: vec![7] }),
        Ok(Record::Governance(governance::Event::ProposalCreated(0, vec![7])))
    );
    assert_eq!(
        rt.apply(Origin::Signed(2), Operation::Vote { proposal_id: 0, approve: false }),
        Ok(Record::Governance(governance::Event::Voted(0, 2, false)))
    );
    assert_eq!(
        rt.apply(Origin::Root, Operation::Verify { who: 2 }),
        Ok(Record::Kyc(kyc::Event::Verified(2)))
    );
    assert_eq!(
        rt.apply(Origin::Root, Operation::Unverify { who: 2 }),
        Ok(Record::Kyc(kyc::Event::Unverified(2)))
    );
    assert_eq!(
        rt.apply(Origin::Root, Operation::Burn { from: 1, amount: 30 }),
        Ok(Record::Token(community_token::Event::Burned(1, 30)))
    );
    assert_eq!(rt.balance_of(1), 70);
    assert_eq!(rt.pool_of(2, 1), Some((910, 1100)));
    assert_eq!(rt.proposal(0), Some(vec![7]));
    assert_eq!(rt.vote_of(0, 2), Some(false));
    assert!(!rt.is_verified(2));
}

#[test]
fn root_only_operations_refuse_signed_and_change_nothing() {
    let mut rt = populated();
    let before = rt.export();
    let ops = [
        Operation::Mint { to: 1, amount: 5 },
        Operation::Burn { from: 1, amount: 5 },
        Operation::Verify { who: 9 },
        Operation::Unverify { who: 3 },
    ];
    for op in ops {
        assert_eq!(rt.apply(Origin::Signed(1), op), Err(Error::Unauthorized));
    }
    let after = rt.export();
    assert_eq!(after.balances, before.balances);
    assert_eq!(after.pools, before.pools);
    assert_eq!(after.proposals, before.proposals);
    assert_eq!(after.votes, before.votes);
    assert_eq!(after.next_proposal_id, before.next_proposal_id);
    assert_eq!(after.verified, before.verified);
}

#[test]
fn failed_operations_leave_state_unchanged() {
    let mut rt = populated();
    let before = rt.export();
    assert_eq!(rt.apply(Origin::Root, Operation::Burn { from: 2, amount: 41 }), Err(Error::InsufficientBalance));
    assert_eq!(rt.apply(Origin::Signed(1), Operation::CreatePool { token_a: 2, token_b: 1, amount_a: 1, amount_b: 1 }), Err(Error::PoolExists));
    assert_eq!(rt.apply(Origin::Signed(1), Operation::Swap { token_a: 1, token_b: 3, amount_in: 1 }), Err(Error::PoolNotFound));
    assert_eq!(rt.apply(Origin::Signed(2), Operation::Vote { proposal_id: 0, approve: false }), Err(Error::AlreadyVoted));
    assert_eq!(rt.apply(Origin::Signed(2), Operation::Vote { proposal_id: 4, approve: false }), Err(Error::ProposalNotFound));
    assert_eq!(rt.apply(Origin::Root, Operation::Verify { who: 3 }), Err(Error::AlreadyVerified));
    assert_eq!(rt.apply(Origin::Root, Operation::Unverify { who: 2 }), Err(Error::NotVerified));
    let after = rt.export();
    assert_eq!(after.balances, before.balances);
    assert_eq!(after.pools, before.pools);
    assert_eq!(after.votes, before.votes);
    assert_eq!(after.verified, before.verified);
}

#[test]
fn export_then_import_round_trips() {
    let rt = populated();
    let copy = Runtime::import(rt.export()).unwrap();
    assert_eq!(copy.balance_of(1), 60);
    assert_eq!(copy.balance_of(2), 40);
    assert_eq!(copy.pool_of(1, 2), Some((1000, 1000)));
    assert_eq!(copy.proposal(0), Some(b"fund".to_vec()));
    assert_eq!(copy.vote_of(0, 2), Some(true));
    assert!(copy.is_verified(3));
    let keys: Vec<u64> = copy.export().balances.keys().copied().collect();
    assert_eq!(keys, vec![1, 2]);
    let mut copy = copy;
    assert_eq!(
        copy.apply(Origin::Signed(1), Operation::Propose { description: vec![] }),
        Ok(Record::Governance(governance::Event::ProposalCreated(1, vec![])))
    );
}

#[test]
fn import_refuses_snapshot_that_would_reuse_ids() {
    let rt = populated();
    let mut snapshot = rt.export();
    snapshot.next_proposal_id = 0;
    assert!(Runtime::import(snapshot).is_none());
}
