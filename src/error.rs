use vstd::prelude::*;

verus! {

/// The ways an operation can be rejected. None of them is retried by the
/// engine; on every one of them the state is left as it was.
#[derive(Clone, Copy, Debug, PartialEq, Eq, Structural)]
pub enum Error {
    /// The caller's credential is not the one the operation requires.
    Unauthorized,
    /// The account holds less than the amount asked for.
    InsufficientBalance,
    /// The result would not fit in its integer type.
    Overflow,
    /// A pool for this unordered pair of tokens already exists.
    PoolExists,
    /// No pool exists for this unordered pair of tokens.
    PoolNotFound,
    /// The swap would pay out nothing, or more than the pool holds.
    InsufficientLiquidity,
    /// No proposal has this id.
    ProposalNotFound,
    /// The voter has already voted on this proposal.
    AlreadyVoted,
    /// The account is already verified.
    AlreadyVerified,
    /// The account is not verified.
    NotVerified,
}

} // verus!
