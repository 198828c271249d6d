//! The identity ledger: one verified flag per account, switched on and off
//! by the administrative credential.
pub use crate::error::Error;
use crate::origin::{ensure_root, AccountId, Origin};
use crate::store::StorageMap;
use std::collections::BTreeMap;
use vstd::prelude::*;

verus! {

broadcast use vstd::std_specs::btree::group_btree_axioms;

/// What a successful identity operation reports.
#[derive(Clone, Copy, Debug, PartialEq, Eq, Structural)]
pub enum Event {
    /// `Verified(who)`
    Verified(AccountId),
    /// `Unverified(who)`
    Unverified(AccountId),
}

/// Whether `who` is verified in `m`: an absent account is not.
pub open spec fn verified_in(m: Map<AccountId, bool>, who: AccountId) -> bool {
    m.contains_key(who) && m[who]
}

/// Outcome and next flags of `verify`.
pub open spec fn verify_step(m: Map<AccountId, bool>, origin: Origin, who: AccountId) -> (
    Result<Event, Error>,
    Map<AccountId, bool>,
) {
    if origin != Origin::Root {
        (Err(Error::Unauthorized), m)
    } else if verified_in(m, who) {
        (Err(Error::AlreadyVerified), m)
    } else {
        (Ok(Event::Verified(who)), m.insert(who, true))
    }
}

/// Outcome and next flags of `unverify`.
pub open spec fn unverify_step(m: Map<AccountId, bool>, origin: Origin, who: AccountId) -> (
    Result<Event, Error>,
    Map<AccountId, bool>,
) {
    if origin != Origin::Root {
        (Err(Error::Unauthorized), m)
    } else if !verified_in(m, who) {
        (Err(Error::NotVerified), m)
    } else {
        (Ok(Event::Unverified(who)), m.insert(who, false))
    }
}

/// Both switches refuse to repeat themselves: from any flags, `verify`
/// twice fails the second time with `AlreadyVerified`; an `unverify` then
/// succeeds; a second `unverify` fails with `NotVerified`. Each failure
/// leaves the flags as they were.
pub proof fn lemma_switches_refuse_repeats(m: Map<AccountId, bool>, who: AccountId)
    ensures
        ({
            let m1 = verify_step(m, Origin::Root, who).1;
            let m2 = unverify_step(m1, Origin::Root, who).1;
            &&& verified_in(m1, who)
            &&& verify_step(m1, Origin::Root, who) == (
                Err::<Event, Error>(Error::AlreadyVerified),
                m1,
            )
            &&& unverify_step(m1, Origin::Root, who) == (
                Ok::<Event, Error>(Event::Unverified(who)),
                m1.insert(who, false),
            )
            &&& !verified_in(m2, who)
            &&& unverify_step(m2, Origin::Root, who) == (Err::<Event, Error>(Error::NotVerified), m2)
        }),
{
}

/// The new flag for `verify`, given the stored one.
fn switch_on(flag: Option<bool>) -> (r: Result<(bool, ()), Error>)
    ensures
        r == (if flag == Some(true) {
            Err::<(bool, ()), Error>(Error::AlreadyVerified)
        } else {
            Ok((true, ()))
        }),
{
    match flag {
        Some(true) => Err(Error::AlreadyVerified),
        _ => Ok((true, ())),
    }
}

/// The new flag for `unverify`, given the stored one.
fn switch_off(flag: Option<bool>) -> (r: Result<(bool, ()), Error>)
    ensures
        r == (if flag == Some(true) {
            Ok::<(bool, ()), Error>((false, ()))
        } else {
            Err(Error::NotVerified)
        }),
{
    match flag {
        Some(true) => Ok((false, ())),
        _ => Err(Error::NotVerified),
    }
}

/// The identity ledger.
pub struct Pallet {
    verified: StorageMap<AccountId, bool>,
}

impl View for Pallet {
    type V = Map<AccountId, bool>;

    closed spec fn view(&self) -> Map<AccountId, bool> {
        self.verified@
    }
}

impl Pallet {
    /// A ledger in which no account is verified.
    pub fn new() -> (r: Pallet)
        ensures
            r@ == Map::<AccountId, bool>::empty(),
    {
        Pallet { verified: StorageMap::new() }
    }

    /// Whether `who` is verified.
    pub fn is_verified(&self, who: AccountId) -> (r: bool)
        ensures
            r == verified_in(self@, who),
    {
        match self.verified.get(who) {
            Some(f) => f,
            None => false,
        }
    }

    /// A copy of every stored flag, ordered by account.
    pub fn export(&self) -> (r: BTreeMap<AccountId, bool>)
        ensures
            r@ == self@,
    {
        self.verified.as_map().clone()
    }

    /// A ledger holding exactly the given flags.
    pub fn import(verified: BTreeMap<AccountId, bool>) -> (r: Pallet)
        ensures
            r@ == verified@,
    {
        Pallet { verified: StorageMap::from_map(verified) }
    }

    /// Marks `who` verified [Root]. Fails with `AlreadyVerified` where it
    /// already is.
    pub fn verify(&mut self, origin: Origin, who: AccountId) -> (r: Result<Event, Error>)
        ensures
            (r, final(self)@) == verify_step(old(self)@, origin, who),
    {
        if let Err(e) = ensure_root(origin) {
            return Err(e);
        }
        match self.verified.try_mutate(who, switch_on) {
            Ok(()) => Ok(Event::Verified(who)),
            Err(e) => Err(e),
        }
    }

    /// Clears the verified flag of `who` [Root]. Fails with `NotVerified`
    /// where it is not set.
    pub fn unverify(&mut self, origin: Origin, who: AccountId) -> (r: Result<Event, Error>)
        ensures
            (r, final(self)@) == unverify_step(old(self)@, origin, who),
    {
        if let Err(e) = ensure_root(origin) {
            return Err(e);
        }
        match self.verified.try_mutate(who, switch_off) {
            Ok(()) => Ok(Event::Unverified(who)),
            Err(e) => Err(e),
        }
    }
}

} // verus!
