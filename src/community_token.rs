//! The token ledger: one balance per account, changed by mint, burn and
//! transfer.
pub use crate::error::Error;
use crate::origin::{ensure_root, ensure_signed, AccountId, Origin};
use crate::store::StorageMap;
use std::collections::BTreeMap;
use vstd::prelude::*;

verus! {

broadcast use vstd::std_specs::btree::group_btree_axioms;

/// What a successful token operation reports.
#[derive(Clone, Copy, Debug, PartialEq, Eq, Structural)]
pub enum Event {
    /// `Minted(to, amount)`
    Minted(AccountId, u128),
    /// `Burned(from, amount)`
    Burned(AccountId, u128),
    /// `Transferred(from, to, amount)`
    Transferred(AccountId, AccountId, u128),
}

/// A token operation, without its credential.
#[derive(Clone, Copy, Debug, PartialEq, Eq, Structural)]
pub enum Call {
    Mint { to: AccountId, amount: u128 },
    Burn { from: AccountId, amount: u128 },
    Transfer { to: AccountId, amount: u128 },
}

/// The balance of `who` in `m`: an absent account holds zero.
pub open spec fn balance_in(m: Map<AccountId, u128>, who: AccountId) -> u128 {
    if m.contains_key(who) {
        m[who]
    } else {
        0
    }
}

/// Outcome and next balances of `mint`.
pub open spec fn mint_step(m: Map<AccountId, u128>, origin: Origin, to: AccountId, amount: u128) -> (
    Result<Event, Error>,
    Map<AccountId, u128>,
) {
    if origin != Origin::Root {
        (Err(Error::Unauthorized), m)
    } else if balance_in(m, to) + amount > u128::MAX {
        (Err(Error::Overflow), m)
    } else {
        (Ok(Event::Minted(to, amount)), m.insert(to, (balance_in(m, to) + amount) as u128))
    }
}

/// Outcome and next balances of `burn`.
pub open spec fn burn_step(m: Map<AccountId, u128>, origin: Origin, from: AccountId, amount: u128) -> (
    Result<Event, Error>,
    Map<AccountId, u128>,
) {
    if origin != Origin::Root {
        (Err(Error::Unauthorized), m)
    } else if balance_in(m, from) < amount {
        (Err(Error::InsufficientBalance), m)
    } else {
        (Ok(Event::Burned(from, amount)), m.insert(from, (balance_in(m, from) - amount) as u128))
    }
}

/// Outcome and next balances of `transfer`. A transfer to oneself succeeds
/// whenever the balance covers it, and changes nothing.
pub open spec fn transfer_step(
    m: Map<AccountId, u128>,
    origin: Origin,
    to: AccountId,
    amount: u128,
) -> (Result<Event, Error>, Map<AccountId, u128>) {
    match origin {
        Origin::Root => (Err(Error::Unauthorized), m),
        Origin::Signed(from) => {
            if balance_in(m, from) < amount {
                (Err(Error::InsufficientBalance), m)
            } else if from == to {
                (Ok(Event::Transferred(from, to, amount)), m)
            } else if balance_in(m, to) + amount > u128::MAX {
                (Err(Error::Overflow), m)
            } else {
                (
                    Ok(Event::Transferred(from, to, amount)),
                    m.insert(from, (balance_in(m, from) - amount) as u128).insert(
                        to,
                        (balance_in(m, to) + amount) as u128,
                    ),
                )
            }
        },
    }
}

/// Outcome and next balances of one token call.
pub open spec fn call_step(m: Map<AccountId, u128>, origin: Origin, call: Call) -> (
    Result<Event, Error>,
    Map<AccountId, u128>,
) {
    match call {
        Call::Mint { to, amount } => mint_step(m, origin, to, amount),
        Call::Burn { from, amount } => burn_step(m, origin, from, amount),
        Call::Transfer { to, amount } => transfer_step(m, origin, to, amount),
    }
}

/// The sum of the balances of the accounts in `s`.
pub open spec fn sum_over(m: Map<AccountId, u128>, s: Set<AccountId>) -> int
    decreases s.len(),
    when s.finite()
{
    if s.len() == 0 {
        0
    } else {
        let k = s.choose();
        balance_in(m, k) + sum_over(m, s.remove(k))
    }
}

/// The balance held by a stored entry, or zero for none.
pub open spec fn entry_balance(entry: Option<u128>) -> u128 {
    match entry {
        Some(b) => b,
        None => 0,
    }
}

/// The total outstanding balance.
pub open spec fn total_issuance(m: Map<AccountId, u128>) -> int {
    sum_over(m, m.dom())
}

/// The amount that a call created, given its outcome.
pub open spec fn minted_by(r: Result<Event, Error>, call: Call) -> int {
    match (r, call) {
        (Ok(_), Call::Mint { amount, .. }) => amount as int,
        _ => 0,
    }
}

/// The amount that a call destroyed, given its outcome.
pub open spec fn burned_by(r: Result<Event, Error>, call: Call) -> int {
    match (r, call) {
        (Ok(_), Call::Burn { amount, .. }) => amount as int,
        _ => 0,
    }
}

/// Applies `calls` in order from `m`: the final balances, the total amount
/// minted and the total amount burned by the calls that succeeded.
pub open spec fn run_calls(m: Map<AccountId, u128>, calls: Seq<(Origin, Call)>) -> (
    Map<AccountId, u128>,
    int,
    int,
)
    decreases calls.len(),
{
    if calls.len() == 0 {
        (m, 0, 0)
    } else {
        let (m1, minted, burned) = run_calls(m, calls.drop_last());
        let (origin, call) = calls.last();
        let (r, m2) = call_step(m1, origin, call);
        (m2, minted + minted_by(r, call), burned + burned_by(r, call))
    }
}

proof fn lemma_sum_remove(m: Map<AccountId, u128>, s: Set<AccountId>, k: AccountId)
    requires
        s.finite(),
        s.contains(k),
    ensures
        sum_over(m, s) == balance_in(m, k) + sum_over(m, s.remove(k)),
    decreases s.len(),
{
    let c = s.choose();
    if c != k {
        lemma_sum_remove(m, s.remove(c), k);
        lemma_sum_remove(m, s.remove(k), c);
        assert(s.remove(c).remove(k) =~= s.remove(k).remove(c));
    }
}

proof fn lemma_sum_agree(m1: Map<AccountId, u128>, m2: Map<AccountId, u128>, s: Set<AccountId>)
    requires
        s.finite(),
        forall|k: AccountId| s.contains(k) ==> balance_in(m1, k) == balance_in(m2, k),
    ensures
        sum_over(m1, s) == sum_over(m2, s),
    decreases s.len(),
{
    if s.len() > 0 {
        let c = s.choose();
        lemma_sum_agree(m1, m2, s.remove(c));
    }
}

/// Setting one balance changes the total by the difference.
proof fn lemma_total_insert(m: Map<AccountId, u128>, k: AccountId, v: u128)
    requires
        m.dom().finite(),
    ensures
        total_issuance(m.insert(k, v)) == total_issuance(m) - balance_in(m, k) + v,
        m.insert(k, v).dom().finite(),
{
    let m2 = m.insert(k, v);
    let d2 = m2.dom();
    lemma_sum_remove(m2, d2, k);
    lemma_sum_agree(m2, m, d2.remove(k));
    if m.dom().contains(k) {
        assert(d2 =~= m.dom());
        lemma_sum_remove(m, m.dom(), k);
    } else {
        assert(d2.remove(k) =~= m.dom());
    }
}

/// Each call changes the total by what it minted minus what it burned.
pub proof fn lemma_call_supply(m: Map<AccountId, u128>, origin: Origin, call: Call)
    requires
        m.dom().finite(),
    ensures
        ({
            let (r, m2) = call_step(m, origin, call);
            &&& m2.dom().finite()
            &&& total_issuance(m2) == total_issuance(m) + minted_by(r, call) - burned_by(r, call)
        }),
{
    let (r, m2) = call_step(m, origin, call);
    if r is Ok {
        match call {
            Call::Mint { to, amount } => {
                lemma_total_insert(m, to, (balance_in(m, to) + amount) as u128);
            },
            Call::Burn { from, amount } => {
                lemma_total_insert(m, from, (balance_in(m, from) - amount) as u128);
            },
            Call::Transfer { to, amount } => {
                let from = origin->Signed_0;
                if from != to {
                    let m1 = m.insert(from, (balance_in(m, from) - amount) as u128);
                    lemma_total_insert(m, from, (balance_in(m, from) - amount) as u128);
                    lemma_total_insert(m1, to, (balance_in(m, to) + amount) as u128);
                }
            },
        }
    }
}

/// Over any sequence of mints, burns and transfers, the total outstanding
/// balance grows by exactly the amount minted and shrinks by exactly the
/// amount burned.
pub proof fn lemma_supply_is_minted_minus_burned(
    m: Map<AccountId, u128>,
    calls: Seq<(Origin, Call)>,
)
    requires
        m.dom().finite(),
    ensures
        ({
            let (m2, minted, burned) = run_calls(m, calls);
            &&& m2.dom().finite()
            &&& total_issuance(m2) == total_issuance(m) + minted - burned
        }),
    decreases calls.len(),
{
    if calls.len() > 0 {
        lemma_supply_is_minted_minus_burned(m, calls.drop_last());
        let (m1, _, _) = run_calls(m, calls.drop_last());
        let (origin, call) = calls.last();
        lemma_call_supply(m1, origin, call);
    }
}

/// A transfer from an account to itself succeeds whenever the balance
/// covers it, and leaves every balance as it was.
pub proof fn lemma_self_transfer_is_noop(m: Map<AccountId, u128>, who: AccountId, amount: u128)
    requires
        balance_in(m, who) >= amount,
    ensures
        transfer_step(m, Origin::Signed(who), who, amount) == (
            Ok::<Event, Error>(Event::Transferred(who, who, amount)),
            m,
        ),
{
}

/// Burning more than the balance fails with `InsufficientBalance` and
/// leaves the balances as they were.
pub proof fn lemma_overdrawn_burn_fails(m: Map<AccountId, u128>, from: AccountId, amount: u128)
    requires
        amount > balance_in(m, from),
    ensures
        burn_step(m, Origin::Root, from, amount) == (
            Err::<Event, Error>(Error::InsufficientBalance),
            m,
        ),
{
}

/// The token ledger.
pub struct Pallet {
    balances: StorageMap<AccountId, u128>,
}

impl View for Pallet {
    type V = Map<AccountId, u128>;

    closed spec fn view(&self) -> Map<AccountId, u128> {
        self.balances@
    }
}

impl Pallet {
    /// An empty ledger: every account holds zero.
    pub fn new() -> (r: Pallet)
        ensures
            r@ == Map::<AccountId, u128>::empty(),
    {
        Pallet { balances: StorageMap::new() }
    }

    /// The balance of `who`.
    pub fn balance_of(&self, who: AccountId) -> (r: u128)
        ensures
            r == balance_in(self@, who),
    {
        match self.balances.get(who) {
            Some(b) => b,
            None => 0,
        }
    }

    /// A copy of every stored balance, ordered by account.
    pub fn export(&self) -> (r: BTreeMap<AccountId, u128>)
        ensures
            r@ == self@,
    {
        self.balances.as_map().clone()
    }

    /// A ledger holding exactly the given balances.
    pub fn import(balances: BTreeMap<AccountId, u128>) -> (r: Pallet)
        ensures
            r@ == balances@,
    {
        Pallet { balances: StorageMap::from_map(balances) }
    }

    /// Adds `amount` to the balance of `to`, or fails with `Overflow` and
    /// changes nothing.
    fn credit(&mut self, to: AccountId, amount: u128) -> (r: Result<(), Error>)
        ensures
            balance_in(old(self)@, to) + amount > u128::MAX ==> {
                &&& r == Err::<(), Error>(Error::Overflow)
                &&& final(self)@ == old(self)@
            },
            balance_in(old(self)@, to) + amount <= u128::MAX ==> {
                &&& r == Ok::<(), Error>(())
                &&& final(self)@ == old(self)@.insert(to, (balance_in(old(self)@, to) + amount) as u128)
            },
    {
        let credit = (|entry: Option<u128>| -> (res: Result<(u128, ()), Error>)
            ensures
                res == (if entry_balance(entry) + amount > u128::MAX {
                    Err::<(u128, ()), Error>(Error::Overflow)
                } else {
                    Ok(((entry_balance(entry) + amount) as u128, ()))
                }),
            {
                let bal = match entry {
                    Some(b) => b,
                    None => 0,
                };
                match bal.checked_add(amount) {
                    None => Err(Error::Overflow),
                    Some(nb) => Ok((nb, ())),
                }
            });
        self.balances.try_mutate(to, credit)
    }

    /// Creates `amount` tokens on `to` [Root]. Fails with `Overflow` where
    /// the balance would not fit.
    pub fn mint(&mut self, origin: Origin, to: AccountId, amount: u128) -> (r: Result<Event, Error>)
        ensures
            (r, final(self)@) == mint_step(old(self)@, origin, to, amount),
    {
        if let Err(e) = ensure_root(origin) {
            return Err(e);
        }
        match self.credit(to, amount) {
            Ok(()) => Ok(Event::Minted(to, amount)),
            Err(e) => Err(e),
        }
    }

    /// Destroys `amount` tokens of `from` [Root].
    pub fn burn(&mut self, origin: Origin, from: AccountId, amount: u128) -> (r: Result<Event, Error>)
        ensures
            (r, final(self)@) == burn_step(old(self)@, origin, from, amount),
    {
        if let Err(e) = ensure_root(origin) {
            return Err(e);
        }
        let debit = (|entry: Option<u128>| -> (res: Result<(u128, ()), Error>)
            ensures
                res == (if entry_balance(entry) < amount {
                    Err::<(u128, ()), Error>(Error::InsufficientBalance)
                } else {
                    Ok(((entry_balance(entry) - amount) as u128, ()))
                }),
            {
                let bal = match entry {
                    Some(b) => b,
                    None => 0,
                };
                if bal < amount {
                    Err(Error::InsufficientBalance)
                } else {
                    Ok((bal - amount, ()))
                }
            });
        match self.balances.try_mutate(from, debit) {
            Ok(()) => Ok(Event::Burned(from, amount)),
            Err(e) => Err(e),
        }
    }

    /// Moves `amount` tokens from the signer to `to` [Signed].
    pub fn transfer(&mut self, origin: Origin, to: AccountId, amount: u128) -> (r: Result<
        Event,
        Error,
    >)
        ensures
            (r, final(self)@) == transfer_step(old(self)@, origin, to, amount),
    {
        let from = match ensure_signed(origin) {
            Ok(who) => who,
            Err(e) => return Err(e),
        };
        let bal_from = self.balance_of(from);
        if bal_from < amount {
            return Err(Error::InsufficientBalance);
        }
        if from == to {
            return Ok(Event::Transferred(from, to, amount));
        }
        if let Err(e) = self.credit(to, amount) {
            return Err(e);
        }
        self.balances.insert(from, bal_from - amount);
        proof {
            assert(self@ =~= old(self)@.insert(from, (bal_from - amount) as u128).insert(
                to,
                (balance_in(old(self)@, to) + amount) as u128,
            ));
        }
        Ok(Event::Transferred(from, to, amount))
    }

    /// Applies one token call.
    pub fn dispatch(&mut self, origin: Origin, call: Call) -> (r: Result<Event, Error>)
        ensures
            (r, final(self)@) == call_step(old(self)@, origin, call),
    {
        match call {
            Call::Mint { to, amount } => self.mint(origin, to, amount),
            Call::Burn { from, amount } => self.burn(origin, from, amount),
            Call::Transfer { to, amount } => self.transfer(origin, to, amount),
        }
    }
}

} // verus!
