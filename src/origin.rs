//! The authorization guard: the credential attached to every operation, and
//! the two checks that extract the privilege an operation needs.
use crate::error::Error;
use vstd::prelude::*;

verus! {

/// An account identifier. Accounts have no structure beyond equality.
pub type AccountId = u64;

/// The credential under which an operation is submitted.
#[derive(Clone, Copy, Debug, PartialEq, Eq, Structural)]
pub enum Origin {
    /// The administrative credential.
    Root,
    /// An authenticated end user, who acts as exactly this account.
    Signed(AccountId),
}

/// Accepts the administrative credential only.
pub fn ensure_root(origin: Origin) -> (r: Result<(), Error>)
    ensures
        r == (if origin == Origin::Root { Ok::<(), Error>(()) } else { Err(Error::Unauthorized) }),
{
    match origin {
        Origin::Root => Ok(()),
        Origin::Signed(_) => Err(Error::Unauthorized),
    }
}

/// Accepts a signed credential and yields the account that signed.
pub fn ensure_signed(origin: Origin) -> (r: Result<AccountId, Error>)
    ensures
        r == (match origin {
            Origin::Signed(who) => Ok::<AccountId, Error>(who),
            Origin::Root => Err(Error::Unauthorized),
        }),
{
    match origin {
        Origin::Signed(who) => Ok(who),
        Origin::Root => Err(Error::Unauthorized),
    }
}

} // verus!
