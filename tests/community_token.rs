use tokenchain::community_token::{Call, Event, Pallet};
use tokenchain::{Error, Origin};

#[test]
fn mint_works() {
    let mut tokens = Pallet::new();
    let account = 1u64;
    assert_eq!(tokens.mint(Origin::Root, account, 100), Ok(Event::Minted(account, 100)));
    assert_eq!(tokens.balance_of(account), 100);
}

#[test]
fn transfer_fails_for_insufficient_balance() {
    let mut tokens = Pallet::new();
    let alice = 1u64;
    let bob = 2u64;
    assert_eq!(tokens.transfer(Origin::Signed(alice), bob, 50), Err(Error::InsufficientBalance));
    assert_eq!(tokens.balance_of(alice), 0);
    assert_eq!(tokens.balance_of(bob), 0);
    assert!(tokens.export().is_empty());
}

#[test]
fn transfer_moves_balance() {
    let mut tokens = Pallet::new();
    tokens.mint(Origin::Root, 1, 100).unwrap();
    assert_eq!(tokens.transfer(Origin::Signed(1), 2, 30), Ok(Event::Transferred(1, 2, 30)));
    assert_eq!(tokens.balance_of(1), 70);
    assert_eq!(tokens.balance_of(2), 30);
}

#[test]
fn transfer_to_self_changes_nothing() {
    let mut tokens = Pallet::new();
    tokens.mint(Origin::Root, 7, 40).unwrap();
    assert_eq!(tokens.transfer(Origin::Signed(7), 7, 40), Ok(Event::Transferred(7, 7, 40)));
    assert_eq!(tokens.balance_of(7), 40);
    assert_eq!(tokens.transfer(Origin::Signed(7), 7, 41), Err(Error::InsufficientBalance));
    assert_eq!(tokens.balance_of(7), 40);
}

#[test]
fn burn_beyond_balance_fails_and_keeps_balance() {
    let mut tokens = Pallet::new();
    tokens.mint(Origin::Root, 3, 10).unwrap();
    assert_eq!(tokens.burn(Origin::Root, 3, 11), Err(Error::InsufficientBalance));
    assert_eq!(tokens.balance_of(3), 10);
    assert_eq!(tokens.burn(Origin::Root, 3, 10), Ok(Event::Burned(3, 10)));
    assert_eq!(tokens.balance_of(3), 0);
}

#[test]
fn mint_overflow_is_rejected() {
    let mut tokens = Pallet::new();
    tokens.mint(Origin::Root, 1, u128::MAX).unwrap();
    assert_eq!(tokens.mint(Origin::Root, 1, 1), Err(Error::Overflow));
    assert_eq!(tokens.balance_of(1), u128::MAX);
}

#[test]
fn transfer_overflow_is_rejected() {
    let mut tokens = Pallet::new();
    tokens.mint(Origin::Root, 1, u128::MAX).unwrap();
    tokens.mint(Origin::Root, 2, 5).unwrap();
    assert_eq!(tokens.transfer(Origin::Signed(2), 1, 5), Err(Error::Overflow));
    assert_eq!(tokens.balance_of(1), u128::MAX);
    assert_eq!(tokens.balance_of(2), 5);
}

#[test]
fn root_only_token_calls_refuse_signed() {
    let mut tokens = Pallet::new();
    tokens.mint(Origin::Root, 1, 10).unwrap();
    assert_eq!(tokens.mint(Origin::Signed(1), 1, 5), Err(Error::Unauthorized));
    assert_eq!(tokens.burn(Origin::Signed(1), 1, 5), Err(Error::Unauthorized));
    assert_eq!(tokens.transfer(Origin::Root, 2, 5), Err(Error::Unauthorized));
    assert_eq!(tokens.balance_of(1), 10);
}

#[test]
fn supply_tracks_mints_and_burns() {
    let mut tokens = Pallet::new();
    let calls = [
        (Origin::Root, Call::Mint { to: 1, amount: 100 }),
        (Origin::Root, Call::Mint { to: 2, amount: 50 }),
        (Origin::Signed(1), Call::Transfer { to: 3, amount: 60 }),
        (Origin::Root, Call::Burn { from: 3, amount: 20 }),
        (Origin::Root, Call::Burn { from: 2, amount: 80 }),
        (Origin::Signed(2), Call::Transfer { to: 2, amount: 50 }),
    ];
    let mut minted = 0u128;
    let mut burned = 0u128;
    for (origin, call) in calls {
        if tokens.dispatch(origin, call).is_ok() {
            match call {
                Call::Mint { amount, .. } => minted += amount,
                Call::Burn { amount, .. } => burned += amount,
                Call::Transfer { .. } => {}
            }
        }
    }
    let total: u128 = (1..=3).map(|a| tokens.balance_of(a)).sum();
    assert_eq!(minted, 150);
    assert_eq!(burned, 20);
    assert_eq!(total, minted - burned);
    assert_eq!(tokens.export().len(), 3);
}
