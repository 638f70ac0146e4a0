//! Plain data of a challenge: its state, its record and the errors that the
//! lifecycle can report.
use vstd::prelude::*;

verus! {

/// Largest identifier that is ever issued.
pub const MAX_ID: u32 = 0x9999_9999;

/// Largest expected answer: five decimal digits.
pub const MAX_ANSWER: u32 = 99_999;

/// Where a live challenge stands in its life.
#[derive(Clone, Copy, Debug, PartialEq, Eq, Structural)]
pub enum QuestionState {
    /// Issued; its picture has not been fetched yet.
    NewlyGenerated,
    /// The picture was fetched once; an answer may be submitted.
    WaitingAnswer,
}

/// One outstanding challenge.
#[derive(Clone, Copy, Debug, PartialEq, Eq, Structural)]
pub struct ChallengeRecord {
    /// The identifier under which the record is stored.
    pub id: u32,
    /// The five digits that the caller has to send back, as a number.
    pub answer: u32,
    /// The record's place in the lifecycle.
    pub state: QuestionState,
    /// The time of issuance, in the clock units of the caller.
    pub created_at: u64,
}

/// What the lifecycle reports when an operation does not go through.
#[derive(Clone, Copy, Debug, PartialEq, Eq, Structural)]
pub enum ChallengeError {
    /// An identifier or an answer could not be read.
    MalformedInput,
    /// The picture was asked for twice, or for a challenge that does not exist.
    ChallengeNotReady,
    /// Wrong, late, replayed or unknown: deliberately one outcome.
    VerificationRejected,
    /// A drawn identifier is already in use.
    AllocationCollision,
}

/// The age key of a record: time of issuance first, identifier second.
pub open spec fn age_key(r: ChallengeRecord) -> (u64, u32) {
    (r.created_at, r.id)
}

/// Lexicographic order on age keys.
pub open spec fn precedes(a: (u64, u32), b: (u64, u32)) -> bool {
    a.0 < b.0 || (a.0 == b.0 && a.1 < b.1)
}

/// A record issued at `created_at` is past its deadline at `now` when more
/// than `ttl` has gone by. A clock that reads earlier than the issuance
/// counts as no time gone by.
pub open spec fn is_expired(created_at: u64, now: u64, ttl: u64) -> bool {
    now - created_at > ttl
}

/// Decides [`is_expired`] without overflow.
pub fn expired(created_at: u64, now: u64, ttl: u64) -> (r: bool)
    ensures
        r == is_expired(created_at, now, ttl),
{
    now > created_at && now - created_at > ttl
}

} // verus!
