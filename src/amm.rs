//! The pool ledger: constant-product pools keyed by an unordered pair of
//! token ids, with pool creation and a fee-free swap.
pub use crate::error::Error;
use crate::origin::{ensure_signed, AccountId, Origin};
use crate::store::StorageMap;
use std::collections::BTreeMap;
use vstd::prelude::*;

verus! {

broadcast use vstd::std_specs::btree::group_btree_axioms;

/// A token identifier.
pub type TokenId = u32;

/// What a successful pool operation reports.
#[derive(Clone, Copy, Debug, PartialEq, Eq, Structural)]
pub enum Event {
    /// `PoolCreated(token_a, token_b)`
    PoolCreated(TokenId, TokenId),
    /// `Swapped(who, token_in, token_out, amount_in, amount_out)`
    Swapped(AccountId, TokenId, TokenId, u128, u128),
}

/// The storage key of the pair: the smaller id first, so that both orders
/// of a pair name the same pool.
pub open spec fn pair_key(a: TokenId, b: TokenId) -> (TokenId, TokenId) {
    if a <= b {
        (a, b)
    } else {
        (b, a)
    }
}

/// Turns reserves stored under `pair_key(a, b)` into (reserve of `a`,
/// reserve of `b`), and back.
pub open spec fn oriented(a: TokenId, b: TokenId, r: (u128, u128)) -> (u128, u128) {
    if a <= b {
        r
    } else {
        (r.1, r.0)
    }
}

/// The reserves of the pool of `a` and `b`, in the order (a, b).
pub open spec fn pool_in(m: Map<(TokenId, TokenId), (u128, u128)>, a: TokenId, b: TokenId) -> Option<
    (u128, u128),
> {
    if m.contains_key(pair_key(a, b)) {
        Some(oriented(a, b, m[pair_key(a, b)]))
    } else {
        None
    }
}

/// The constant-product output of a swap, rounded down.
pub open spec fn swap_output(amount_in: u128, reserve_in: u128, reserve_out: u128) -> int {
    if reserve_in + amount_in == 0 {
        0
    } else {
        (amount_in * reserve_out) as int / (reserve_in + amount_in) as int
    }
}

/// Outcome and next pools of `create_pool`.
pub open spec fn create_pool_step(
    m: Map<(TokenId, TokenId), (u128, u128)>,
    origin: Origin,
    token_a: TokenId,
    token_b: TokenId,
    amount_a: u128,
    amount_b: u128,
) -> (Result<Event, Error>, Map<(TokenId, TokenId), (u128, u128)>) {
    if origin is Root {
        (Err(Error::Unauthorized), m)
    } else if m.contains_key(pair_key(token_a, token_b)) {
        (Err(Error::PoolExists), m)
    } else {
        (
            Ok(Event::PoolCreated(token_a, token_b)),
            m.insert(pair_key(token_a, token_b), oriented(token_a, token_b, (amount_a, amount_b))),
        )
    }
}

/// The stored entry after a swap of `amount_in` of `token_a` for
/// `token_b`, with the amount paid out; or why the swap fails.
pub open spec fn swap_entry(
    entry: Option<(u128, u128)>,
    token_a: TokenId,
    token_b: TokenId,
    amount_in: u128,
) -> Result<((u128, u128), u128), Error> {
    match entry {
        None => Err(Error::PoolNotFound),
        Some(stored) => {
            let (ra, rb) = oriented(token_a, token_b, stored);
            let out = swap_output(amount_in, ra, rb);
            if out == 0 || out > rb {
                Err(Error::InsufficientLiquidity)
            } else {
                if ra + amount_in > u128::MAX {
                    Err(Error::Overflow)
                } else {
                    Ok(
                        (
                            oriented(
                                token_a,
                                token_b,
                                ((ra + amount_in) as u128, (rb - out) as u128),
                            ),
                            out as u128,
                        ),
                    )
                }
            }
        },
    }
}

/// Outcome and next pools of `swap`: `amount_in` of `token_a` goes into
/// the pool and `swap_output` of `token_b` comes out.
pub open spec fn swap_step(
    m: Map<(TokenId, TokenId), (u128, u128)>,
    origin: Origin,
    token_a: TokenId,
    token_b: TokenId,
    amount_in: u128,
) -> (Result<Event, Error>, Map<(TokenId, TokenId), (u128, u128)>) {
    match origin {
        Origin::Root => (Err(Error::Unauthorized), m),
        Origin::Signed(who) => match swap_entry(
            m.get(pair_key(token_a, token_b)),
            token_a,
            token_b,
            amount_in,
        ) {
            Err(e) => (Err(e), m),
            Ok((entry, out)) => (
                Ok(Event::Swapped(who, token_a, token_b, amount_in, out)),
                m.insert(pair_key(token_a, token_b), entry),
            ),
        },
    }
}

/// A pool is named by its unordered pair: creating it with the tokens in
/// the other order, and the reserves to match, gives the same ledger, and
/// once it exists a second creation in either order fails with `PoolExists`
/// and changes nothing. (A pool of a token with itself has no second order.)
pub proof fn lemma_create_pool_order_independent(
    m: Map<(TokenId, TokenId), (u128, u128)>,
    who: AccountId,
    a: TokenId,
    b: TokenId,
    amount_a: u128,
    amount_b: u128,
    other: AccountId,
    again_a: u128,
    again_b: u128,
)
    requires
        a != b,
    ensures
        create_pool_step(m, Origin::Signed(who), b, a, amount_b, amount_a).1 == create_pool_step(
            m,
            Origin::Signed(who),
            a,
            b,
            amount_a,
            amount_b,
        ).1,
        ({
            let (r, m1) = create_pool_step(m, Origin::Signed(who), a, b, amount_a, amount_b);
            r is Ok ==> {
                &&& pool_in(m1, a, b) == Some((amount_a, amount_b))
                &&& pool_in(m1, b, a) == Some((amount_b, amount_a))
                &&& create_pool_step(m1, Origin::Signed(other), b, a, again_b, again_a) == (
                    Err::<Event, Error>(Error::PoolExists),
                    m1,
                )
                &&& create_pool_step(m1, Origin::Signed(other), a, b, again_a, again_b) == (
                    Err::<Event, Error>(Error::PoolExists),
                    m1,
                )
            }
        }),
{
}

/// A successful swap never lowers the product of the reserves, and pays out
/// exactly the rounded-down constant-product amount.
pub proof fn lemma_swap_keeps_product(
    m: Map<(TokenId, TokenId), (u128, u128)>,
    origin: Origin,
    a: TokenId,
    b: TokenId,
    amount_in: u128,
)
    ensures
        ({
            let (r, m2) = swap_step(m, origin, a, b, amount_in);
            r is Ok ==> {
                let (ra, rb) = pool_in(m, a, b)->Some_0;
                let (na, nb) = pool_in(m2, a, b)->Some_0;
                &&& pool_in(m, a, b) is Some
                &&& pool_in(m2, a, b) is Some
                &&& na == ra + amount_in
                &&& nb == rb - swap_output(amount_in, ra, rb)
                &&& na * nb >= ra * rb
            }
        }),
{
    let (r, m2) = swap_step(m, origin, a, b, amount_in);
    if r is Ok {
        let (ra, rb) = pool_in(m, a, b)->Some_0;
        let den = ra + amount_in;
        let num = amount_in * rb;
        let out = swap_output(amount_in, ra, rb);
        assert(out * den <= num) by (nonlinear_arith)
            requires
                den > 0,
                num >= 0,
                out == num / den,
        ;
        assert(den * (rb - out) >= ra * rb) by (nonlinear_arith)
            requires
                out * den <= amount_in * rb,
                den == ra + amount_in,
        ;
    }
}

/// `a + b` split into a carry and a remainder modulo `d`.
fn add_mod(a: u128, b: u128, d: u128) -> (r: (u128, u128))
    requires
        a < d,
        b < d,
    ensures
        r.0 <= 1,
        r.1 < d,
        a + b == r.0 * d + r.1,
{
    if a >= d - b {
        (1, a - (d - b))
    } else {
        (0, a + b)
    }
}

proof fn lemma_mul_div_step(
    p: int,
    y: int,
    q: int,
    rem: int,
    d: int,
    bit: int,
    yq: int,
    yr: int,
    c1: int,
    r1: int,
    add: int,
    c2: int,
    r2: int,
)
    requires
        p * y == q * d + rem,
        y == yq * d + yr,
        2 * rem == c1 * d + r1,
        add == bit * yr,
        r1 + add == c2 * d + r2,
    ensures
        (2 * p + bit) * y == (2 * q + c1 + c2 + bit * yq) * d + r2,
{
    assert((2 * p + bit) * y == 2 * (p * y) + bit * y) by (nonlinear_arith);
    assert(bit * y == bit * yq * d + bit * yr) by (nonlinear_arith)
        requires
            y == yq * d + yr,
    ;
    assert((2 * q + c1 + c2 + bit * yq) * d == 2 * (q * d) + c1 * d + c2 * d + bit * yq * d)
        by (nonlinear_arith);
}

proof fn lemma_quotient_bound(p: int, y: int, q: int, r: int, x: int, d: int)
    requires
        q * d + r == p * y,
        0 <= p <= x <= d,
        0 <= r,
        0 < d,
        0 <= y,
        0 <= q,
    ensures
        q <= y,
{
    assert(p * y <= d * y) by (nonlinear_arith)
        requires
            0 <= p <= d,
            0 <= y,
    ;
    if q > y {
        assert(q * d >= (y + 1) * d) by (nonlinear_arith)
            requires
                q >= y + 1,
                d > 0,
        ;
        assert((y + 1) * d == y * d + d) by (nonlinear_arith);
    }
}

/// `floor(x * y / d)`, computed without overflow in the product, for
/// `x <= d` (so that the quotient is at most `y`).
fn mul_div_floor(x: u128, y: u128, d: u128) -> (r: u128)
    requires
        0 < d,
        x <= d,
    ensures
        r as int == (x * y) as int / d as int,
{
    let yq = y / d;
    let yr = y % d;
    assert(y == yq * d + yr) by (nonlinear_arith)
        requires
            yq == y / d,
            yr == y % d,
            d > 0,
    ;
    let mut q: u128 = 0;
    let mut rem: u128 = 0;
    let mut shift: u128 = 128;
    let ghost mut p: int = 0;
    while shift > 0
        invariant
            0 < d,
            x <= d,
            yq == y / d,
            yr == y % d,
            y == yq * d + yr,
            shift <= 128,
            shift < 128 ==> p == (x >> shift) as int,
            shift == 128 ==> p == 0,
            0 <= p <= x,
            p * y == q * d + rem,
            rem < d,
        decreases shift,
    {
        let s2: u128 = shift - 1;
        let xs: u128 = x >> s2;
        let bit: u128 = xs % 2;
        proof {
            if shift == 128 {
                assert(x >> 127u128 <= 1) by (bit_vector);
            } else {
                assert(x >> shift == (x >> (shift - 1) as u128) / 2) by (bit_vector)
                    requires
                        0 < shift < 128,
                ;
            }
            assert(x >> s2 <= x) by (bit_vector);
            assert(xs == 2 * p + bit);
        }
        let (c1, r1) = add_mod(rem, rem, d);
        let add: u128 = if bit == 1 { yr } else { 0 };
        let (c2, r2) = add_mod(r1, add, d);
        let ghost np: int = 2 * p + bit;
        proof {
            assert(bit == 0 || bit == 1);
            if bit == 1 {
                assert(bit * yr == yr);
                assert(bit * yq == yq);
            } else {
                assert(bit * yr == 0);
                assert(bit * yq == 0);
            }
            lemma_mul_div_step(p, y as int, q as int, rem as int, d as int, bit as int,
                yq as int, yr as int, c1 as int, r1 as int, add as int, c2 as int, r2 as int);
            let nq = 2 * q + c1 + c2 + bit * yq;
            assert(0 <= bit * yq) by (nonlinear_arith)
                requires
                    0 <= bit,
                    0 <= yq,
            ;
            lemma_quotient_bound(np, y as int, nq, r2 as int, x as int, d as int);
        }
        let mut nq: u128 = q * 2 + c1 + c2;
        if bit == 1 {
            nq = nq + yq;
        }
        q = nq;
        rem = r2;
        shift = s2;
        proof {
            p = np;
        }
    }
    proof {
        assert(x >> 0u128 == x) by (bit_vector);
        vstd::arithmetic::div_mod::lemma_fundamental_div_mod_converse(
            (x * y) as int, d as int, q as int, rem as int);
    }
    q
}

/// Of a positive denominator: the quotient is zero exactly when the
/// numerator is below it, and at most `rb` when the numerator is `a * rb`
/// with `a` at most the denominator.
proof fn lemma_payout_bounds(a: int, ra: int, rb: int)
    requires
        0 <= a,
        0 <= ra,
        0 <= rb,
        0 < ra + a,
    ensures
        (a * rb) / (ra + a) == 0 <==> a * rb < ra + a,
        (a * rb) / (ra + a) <= rb,
{
    let den = ra + a;
    let n = a * rb;
    assert(0 <= n) by (nonlinear_arith)
        requires
            n == a * rb,
            0 <= a,
            0 <= rb,
    ;
    let q = n / den;
    let r = n % den;
    vstd::arithmetic::div_mod::lemma_fundamental_div_mod(n, den);
    vstd::arithmetic::div_mod::lemma_mod_bound(n, den);
    vstd::arithmetic::div_mod::lemma_div_pos_is_pos(n, den);
    if n < den {
        vstd::arithmetic::div_mod::lemma_fundamental_div_mod_converse(n, den, 0, n);
    } else {
        assert(q >= 1) by (nonlinear_arith)
            requires
                n == den * q + r,
                0 <= r < den,
                n >= den,
                q >= 0,
        ;
    }
    assert(q <= rb) by (nonlinear_arith)
        requires
            n == den * q + r,
            0 <= r,
            n == a * rb,
            0 <= a <= den,
            0 <= rb,
            0 <= q,
            0 < den,
    ;
}

/// Whether a swap whose new input reserve would exceed `u128` pays out
/// nothing, decided without forming the overflowing sum.
fn pays_nothing_beyond_u128(amount_in: u128, reserve_in: u128, reserve_out: u128) -> (r: bool)
    requires
        reserve_in + amount_in > u128::MAX,
    ensures
        r == (swap_output(amount_in, reserve_in, reserve_out) == 0),
        swap_output(amount_in, reserve_in, reserve_out) <= reserve_out,
{
    proof {
        lemma_payout_bounds(amount_in as int, reserve_in as int, reserve_out as int);
    }
    if reserve_out == 0 {
        proof {
            assert(amount_in * reserve_out == 0) by (nonlinear_arith)
                requires
                    reserve_out == 0,
            ;
        }
        return true;
    }
    proof {
        assert(amount_in * reserve_out == amount_in * (reserve_out - 1) + amount_in)
            by (nonlinear_arith);
    }
    match amount_in.checked_mul(reserve_out - 1) {
        None => false,
        Some(p) => p < reserve_in,
    }
}

/// The pool ledger.
pub struct Pallet {
    pools: StorageMap<(TokenId, TokenId), (u128, u128)>,
}

impl View for Pallet {
    type V = Map<(TokenId, TokenId), (u128, u128)>;

    closed spec fn view(&self) -> Map<(TokenId, TokenId), (u128, u128)> {
        self.pools@
    }
}

impl Pallet {
    /// A ledger with no pools.
    pub fn new() -> (r: Pallet)
        ensures
            r@ == Map::<(TokenId, TokenId), (u128, u128)>::empty(),
    {
        Pallet { pools: StorageMap::new() }
    }

    /// The reserves of the pool of `token_a` and `token_b`, in that order.
    pub fn pool_of(&self, token_a: TokenId, token_b: TokenId) -> (r: Option<(u128, u128)>)
        ensures
            r == pool_in(self@, token_a, token_b),
    {
        let key = if token_a <= token_b { (token_a, token_b) } else { (token_b, token_a) };
        match self.pools.get(key) {
            None => None,
            Some(res) => {
                let (x, y) = res;
                if token_a <= token_b { Some((x, y)) } else { Some((y, x)) }
            },
        }
    }

    /// A copy of every pool, ordered by its pair key.
    pub fn export(&self) -> (r: BTreeMap<(TokenId, TokenId), (u128, u128)>)
        ensures
            r@ == self@,
    {
        self.pools.as_map().clone()
    }

    /// A ledger holding exactly the given pools.
    pub fn import(pools: BTreeMap<(TokenId, TokenId), (u128, u128)>) -> (r: Pallet)
        ensures
            r@ == pools@,
    {
        Pallet { pools: StorageMap::from_map(pools) }
    }

    /// Creates the pool of `token_a` and `token_b` with the given reserves
    /// [Signed]. Fails with `PoolExists` where a pool for the pair, in
    /// either order, already exists.
    pub fn create_pool(
        &mut self,
        origin: Origin,
        token_a: TokenId,
        token_b: TokenId,
        amount_a: u128,
        amount_b: u128,
    ) -> (r: Result<Event, Error>)
        ensures
            (r, final(self)@) == create_pool_step(
                old(self)@,
                origin,
                token_a,
                token_b,
                amount_a,
                amount_b,
            ),
    {
        if let Err(e) = ensure_signed(origin) {
            return Err(e);
        }
        let key = if token_a <= token_b { (token_a, token_b) } else { (token_b, token_a) };
        let reserves = if token_a <= token_b { (amount_a, amount_b) } else { (amount_b, amount_a) };
        let create = (|entry: Option<(u128, u128)>| -> (res: Result<((u128, u128), ()), Error>)
            ensures
                res == (if entry is Some {
                    Err::<((u128, u128), ()), Error>(Error::PoolExists)
                } else {
                    Ok((reserves, ()))
                }),
            {
                match entry {
                    Some(_) => Err(Error::PoolExists),
                    None => Ok((reserves, ())),
                }
            });
        match self.pools.try_mutate(key, create) {
            Ok(()) => Ok(Event::PoolCreated(token_a, token_b)),
            Err(e) => Err(e),
        }
    }

    /// Swaps `amount_in` of `token_a` for `token_b` at the constant-product
    /// price, rounded down in favour of the pool [Signed].
    pub fn swap(&mut self, origin: Origin, token_a: TokenId, token_b: TokenId, amount_in: u128) -> (r:
        Result<Event, Error>)
        ensures
            (r, final(self)@) == swap_step(old(self)@, origin, token_a, token_b, amount_in),
    {
        let who = match ensure_signed(origin) {
            Ok(who) => who,
            Err(e) => return Err(e),
        };
        let key = if token_a <= token_b { (token_a, token_b) } else { (token_b, token_a) };
        let exchange = (|entry: Option<(u128, u128)>| -> (res: Result<((u128, u128), u128), Error>)
            ensures
                res == swap_entry(entry, token_a, token_b, amount_in),
            {
                let (reserve_a, reserve_b) = match entry {
                    None => return Err(Error::PoolNotFound),
                    Some((x, y)) => if token_a <= token_b { (x, y) } else { (y, x) },
                };
                let denom = match reserve_a.checked_add(amount_in) {
                    None => {
                        if pays_nothing_beyond_u128(amount_in, reserve_a, reserve_b) {
                            return Err(Error::InsufficientLiquidity);
                        }
                        return Err(Error::Overflow);
                    },
                    Some(s) => s,
                };
                let amount_out = if denom == 0 {
                    0
                } else {
                    mul_div_floor(amount_in, reserve_b, denom)
                };
                if amount_out == 0 || amount_out > reserve_b {
                    return Err(Error::InsufficientLiquidity);
                }
                let new_b = reserve_b - amount_out;
                let stored = if token_a <= token_b { (denom, new_b) } else { (new_b, denom) };
                Ok((stored, amount_out))
            });
        match self.pools.try_mutate(key, exchange) {
            Ok(amount_out) => Ok(Event::Swapped(who, token_a, token_b, amount_in, amount_out)),
            Err(e) => Err(e),
        }
    }
}

} // verus!
