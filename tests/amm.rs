use tokenchain::amm::{Event, Pallet};
use tokenchain::{Error, Origin};

#[test]
fn swap_pays_rounded_down_constant_product() {
    let mut pools = Pallet::new();
    pools.create_pool(Origin::Signed(1), 10, 20, 1000, 1000).unwrap();
    assert_eq!(pools.swap(Origin::Signed(2), 10, 20, 100), Ok(Event::Swapped(2, 10, 20, 100, 90)));
    assert_eq!(pools.pool_of(10, 20), Some((1100, 910)));
    assert_eq!(pools.pool_of(20, 10), Some((910, 1100)));
}

#[test]
fn create_pool_in_either_order_names_one_pool() {
    let mut pools = Pallet::new();
    assert_eq!(pools.create_pool(Origin::Signed(1), 5, 3, 70, 30), Ok(Event::PoolCreated(5, 3)));
    assert_eq!(pools.create_pool(Origin::Signed(2), 3, 5, 30, 70), Err(Error::PoolExists));
    assert_eq!(pools.create_pool(Origin::Signed(2), 5, 3, 1, 1), Err(Error::PoolExists));
    assert_eq!(pools.pool_of(5, 3), Some((70, 30)));
    assert_eq!(pools.pool_of(3, 5), Some((30, 70)));

    let mut other = Pallet::new();
    other.create_pool(Origin::Signed(1), 3, 5, 30, 70).unwrap();
    assert_eq!(other.export(), pools.export());
}

#[test]
fn swap_in_reverse_direction_uses_other_reserve() {
    let mut pools = Pallet::new();
    pools.create_pool(Origin::Signed(1), 1, 2, 1000, 2000).unwrap();
    // 100 of token 2 in: floor(100 * 1000 / 2100) = 47
    assert_eq!(pools.swap(Origin::Signed(1), 2, 1, 100), Ok(Event::Swapped(1, 2, 1, 100, 47)));
    assert_eq!(pools.pool_of(1, 2), Some((953, 2100)));
}

#[test]
fn swap_without_pool_fails() {
    let mut pools = Pallet::new();
    assert_eq!(pools.swap(Origin::Signed(1), 1, 2, 10), Err(Error::PoolNotFound));
}

#[test]
fn swap_with_zero_output_fails() {
    let mut pools = Pallet::new();
    pools.create_pool(Origin::Signed(1), 1, 2, 1000, 5).unwrap();
    assert_eq!(pools.swap(Origin::Signed(1), 1, 2, 10), Err(Error::InsufficientLiquidity));
    assert_eq!(pools.swap(Origin::Signed(1), 1, 2, 0), Err(Error::InsufficientLiquidity));
    assert_eq!(pools.pool_of(1, 2), Some((1000, 5)));
}

#[test]
fn swap_handles_products_beyond_u128() {
    let mut pools = Pallet::new();
    let half = 1u128 << 126;
    pools.create_pool(Origin::Signed(1), 1, 2, half, u128::MAX).unwrap();
    let expected = (1u128 << 127) - 1;
    assert_eq!(pools.swap(Origin::Signed(1), 1, 2, half), Ok(Event::Swapped(1, 1, 2, half, expected)));
    assert_eq!(pools.pool_of(1, 2), Some((1u128 << 127, u128::MAX - expected)));
}

#[test]
fn swap_reserve_overflow_is_rejected() {
    let mut pools = Pallet::new();
    pools.create_pool(Origin::Signed(1), 1, 2, u128::MAX, u128::MAX).unwrap();
    // floor(2 * MAX / (MAX + 2)) = 1, but the input reserve would exceed u128
    assert_eq!(pools.swap(Origin::Signed(1), 1, 2, 2), Err(Error::Overflow));
    assert_eq!(pools.pool_of(1, 2), Some((u128::MAX, u128::MAX)));
}

#[test]
fn zero_payout_beats_reserve_overflow() {
    let mut pools = Pallet::new();
    pools.create_pool(Origin::Signed(1), 1, 2, u128::MAX, 3).unwrap();
    // floor(30 / (MAX + 10)) = 0
    assert_eq!(pools.swap(Origin::Signed(1), 1, 2, 10), Err(Error::InsufficientLiquidity));
    // floor(1 * MAX / (MAX + 1)) = 0
    pools.create_pool(Origin::Signed(1), 3, 4, u128::MAX, u128::MAX).unwrap();
    assert_eq!(pools.swap(Origin::Signed(1), 3, 4, 1), Err(Error::InsufficientLiquidity));
    assert_eq!(pools.pool_of(1, 2), Some((u128::MAX, 3)));
    assert_eq!(pools.pool_of(3, 4), Some((u128::MAX, u128::MAX)));
}

#[test]
fn swap_into_empty_reserve_can_drain_pool() {
    let mut pools = Pallet::new();
    pools.create_pool(Origin::Signed(1), 1, 2, 0, 10).unwrap();
    assert_eq!(pools.swap(Origin::Signed(1), 1, 2, 3), Ok(Event::Swapped(1, 1, 2, 3, 10)));
    assert_eq!(pools.pool_of(1, 2), Some((3, 0)));
}

#[test]
fn pool_calls_refuse_root() {
    let mut pools = Pallet::new();
    assert_eq!(pools.create_pool(Origin::Root, 1, 2, 5, 5), Err(Error::Unauthorized));
    assert_eq!(pools.swap(Origin::Root, 1, 2, 5), Err(Error::Unauthorized));
    assert_eq!(pools.pool_of(1, 2), None);
}
