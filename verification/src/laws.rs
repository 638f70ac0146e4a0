//! What holds of the lifecycle as a whole, proved from the rules in
//! [`crate::engine`].
//!
//! A history is a sequence of steps applied to an engine that starts
//! without challenges. The engine is used through `&mut`, so whatever number
//! of callers there are, their operations take effect one after another: a
//! history describes every execution.
use vstd::prelude::*;
use crate::record::{ChallengeError, ChallengeRecord, QuestionState};
use crate::engine::{
    accepts, after_display, after_issue, after_submit, awaits_answer, can_display, created,
    display_outcome, submit_outcome, unexpired,
};
use crate::record::precedes;
use crate::store::{key_of, lists_expired, oldest_first};

verus! {

/// One operation on the engine, with its arguments.
pub enum Step {
    /// A challenge is issued, if the identifier is free.
    Issue { id: u32, answer: u32, now: u64 },
    /// The picture of a challenge is asked for.
    Display { id: u32 },
    /// An answer is submitted.
    Submit { id: u32, candidate: u32, now: u64 },
    /// The records past their deadline are dropped.
    Sweep { now: u64 },
}

/// The live records after `step` was applied to `m`.
pub open spec fn apply(m: Map<u32, ChallengeRecord>, step: Step, ttl: u64) -> Map<
    u32,
    ChallengeRecord,
> {
    match step {
        Step::Issue { id, answer, now } => after_issue(m, id, answer, now),
        Step::Display { id } => after_display(m, id),
        Step::Submit { id, .. } => after_submit(m, id),
        Step::Sweep { now } => unexpired(m, ttl, now),
    }
}

/// The live records after all of `steps`, starting without any.
pub open spec fn replay(steps: Seq<Step>, ttl: u64) -> Map<u32, ChallengeRecord>
    decreases steps.len(),
{
    if steps.len() == 0 {
        Map::empty()
    } else {
        apply(replay(steps.drop_last(), ttl), steps.last(), ttl)
    }
}

/// `step` issues the identifier `id`.
pub open spec fn issues(step: Step, id: u32) -> bool {
    step matches Step::Issue { id: issued, .. } && issued == id
}

/// `maps` are the live records before, between and after creations that
/// returned `ids` in this order.
pub open spec fn creations(maps: Seq<Map<u32, ChallengeRecord>>, ids: Seq<u32>, times: Seq<u64>) -> bool {
    &&& maps.len() == ids.len() + 1
    &&& times.len() == ids.len()
    &&& forall|k: int|
        0 <= k < ids.len() ==> created(#[trigger] maps[k], maps[k + 1], ids[k], times[k])
}

/// Identifiers returned by creations that follow one another are pairwise
/// distinct.
pub proof fn law_created_ids_distinct(
    maps: Seq<Map<u32, ChallengeRecord>>,
    ids: Seq<u32>,
    times: Seq<u64>,
)
    requires
        creations(maps, ids, times),
    ensures
        forall|i: int, j: int| 0 <= i < j < ids.len() ==> ids[i] != ids[j],
{
    assert forall|i: int, j: int| 0 <= i < j < ids.len() implies ids[i] != ids[j] by {
        lemma_created_stays(maps, ids, times, i, j);
        assert(created(maps[j], maps[j + 1], ids[j], times[j]));
    }
}

/// An identifier that a creation returned is in use through all the
/// creations that follow.
proof fn lemma_created_stays(
    maps: Seq<Map<u32, ChallengeRecord>>,
    ids: Seq<u32>,
    times: Seq<u64>,
    i: int,
    j: int,
)
    requires
        creations(maps, ids, times),
        0 <= i < j <= ids.len(),
    ensures
        maps[j].contains_key(ids[i]),
    decreases j - i,
{
    assert(created(maps[j - 1], maps[j], ids[j - 1], times[j - 1]));
    if i < j - 1 {
        lemma_created_stays(maps, ids, times, i, j - 1);
    }
}

/// An identifier that no step of a history issued has no record, so an
/// answer for it is rejected and changes nothing.
pub proof fn law_unissued_rejected(
    steps: Seq<Step>,
    ttl: u64,
    id: u32,
    candidate: u32,
    now: u64,
)
    requires
        forall|k: int| 0 <= k < steps.len() ==> !issues(#[trigger] steps[k], id),
    ensures
        !replay(steps, ttl).contains_key(id),
        submit_outcome(replay(steps, ttl), id, candidate, now, ttl) == Err::<(), ChallengeError>(
            ChallengeError::VerificationRejected,
        ),
        after_submit(replay(steps, ttl), id) == replay(steps, ttl),
    decreases steps.len(),
{
    if steps.len() > 0 {
        let earlier = steps.drop_last();
        assert forall|k: int| 0 <= k < earlier.len() implies !issues(#[trigger] earlier[k], id) by {
            assert(earlier[k] == steps[k]);
        }
        law_unissued_rejected(earlier, ttl, id, candidate, now);
        assert(!issues(steps[steps.len() - 1], id));
    }
}

/// An answer for a challenge whose picture was never fetched is rejected,
/// and the challenge stays as it was issued.
pub proof fn law_submit_before_display_rejected(
    m: Map<u32, ChallengeRecord>,
    id: u32,
    answer: u32,
    issued_at: u64,
    candidate: u32,
    now: u64,
    ttl: u64,
)
    requires
        !m.contains_key(id),
    ensures
        submit_outcome(after_issue(m, id, answer, issued_at), id, candidate, now, ttl) == Err::<
            (),
            ChallengeError,
        >(ChallengeError::VerificationRejected),
        after_submit(after_issue(m, id, answer, issued_at), id) == after_issue(
            m,
            id,
            answer,
            issued_at,
        ),
{
}

/// The picture of a challenge is handed out once: where the first request
/// goes through, the second is refused.
pub proof fn law_display_once(m: Map<u32, ChallengeRecord>, id: u32)
    requires
        can_display(m, id),
    ensures
        display_outcome(m, id) == Ok::<u32, ChallengeError>(m[id].answer),
        awaits_answer(after_display(m, id), id),
        display_outcome(after_display(m, id), id) == Err::<u32, ChallengeError>(
            ChallengeError::ChallengeNotReady,
        ),
        after_display(after_display(m, id), id) == after_display(m, id),
{
}

/// The deadline: the right answer is accepted up to `ttl` after the
/// issuance and no answer is accepted later than that.
pub proof fn law_deadline(
    m: Map<u32, ChallengeRecord>,
    id: u32,
    candidate: u32,
    now: u64,
    ttl: u64,
)
    requires
        awaits_answer(m, id),
    ensures
        now <= m[id].created_at + ttl ==> submit_outcome(m, id, m[id].answer, now, ttl) == Ok::<
            (),
            ChallengeError,
        >(()),
        now > m[id].created_at + ttl ==> submit_outcome(m, id, candidate, now, ttl) == Err::<
            (),
            ChallengeError,
        >(ChallengeError::VerificationRejected),
{
}

/// A challenge is answered at most once: whatever a submission yields, the
/// next submission for the same identifier is rejected.
pub proof fn law_submit_consumes(
    m: Map<u32, ChallengeRecord>,
    id: u32,
    again: u32,
    later: u64,
    ttl: u64,
)
    ensures
        !awaits_answer(after_submit(m, id), id),
        submit_outcome(after_submit(m, id), id, again, later, ttl) == Err::<(), ChallengeError>(
            ChallengeError::VerificationRejected,
        ),
        after_submit(after_submit(m, id), id) == after_submit(m, id),
{
}

/// Of two submissions for one challenge that awaits its answer, whichever
/// takes effect first, at most that one is accepted.
pub proof fn law_one_of_two_accepted(
    m: Map<u32, ChallengeRecord>,
    id: u32,
    first: u32,
    first_at: u64,
    second: u32,
    second_at: u64,
    ttl: u64,
)
    ensures
        !(submit_outcome(m, id, first, first_at, ttl) is Ok && submit_outcome(
            after_submit(m, id),
            id,
            second,
            second_at,
            ttl,
        ) is Ok),
        accepts(m, id, first, first_at, ttl) ==> submit_outcome(m, id, first, first_at, ttl) is Ok
            && submit_outcome(after_submit(m, id), id, second, second_at, ttl) is Err,
{
}

/// The time of issuance of a record never changes while the record lives.
pub proof fn law_created_at_fixed(m: Map<u32, ChallengeRecord>, step: Step, ttl: u64, id: u32)
    requires
        m.contains_key(id),
        apply(m, step, ttl).contains_key(id),
    ensures
        apply(m, step, ttl)[id].created_at == m[id].created_at,
        apply(m, step, ttl)[id].answer == m[id].answer,
{
}

/// A record never goes back from shown to not shown.
pub proof fn law_state_moves_forward(m: Map<u32, ChallengeRecord>, step: Step, ttl: u64, id: u32)
    requires
        m.contains_key(id),
        m[id].state == QuestionState::WaitingAnswer,
        apply(m, step, ttl).contains_key(id),
    ensures
        apply(m, step, ttl)[id].state == QuestionState::WaitingAnswer,
{
}

/// A sweep is not seen by the answers that come after it: what a
/// submission yields at `later` is the same whether or not the records
/// that were late at `now` have been dropped in between.
pub proof fn law_sweep_unseen(
    m: Map<u32, ChallengeRecord>,
    id: u32,
    candidate: u32,
    now: u64,
    later: u64,
    ttl: u64,
)
    requires
        now <= later,
    ensures
        submit_outcome(unexpired(m, ttl, now), id, candidate, later, ttl) == submit_outcome(
            m,
            id,
            candidate,
            later,
            ttl,
        ),
{
}

/// Two lists that hold the same records of `m`, each from the oldest on,
/// are one and the same list.
pub proof fn law_oldest_first_unique(m: Map<u32, ChallengeRecord>, a: Seq<u32>, b: Seq<u32>)
    requires
        oldest_first(m, a),
        oldest_first(m, b),
        forall|id: u32| a.contains(id) <==> b.contains(id),
    ensures
        a == b,
    decreases a.len(),
{
    if a.len() == 0 {
        if b.len() > 0 {
            assert(b.contains(b[0]));
        }
        assert(a =~= b);
    } else {
        let x = a.last();
        assert(a.contains(x));
        let j = choose|j: int| 0 <= j < b.len() && b[j] == x;
        if j != b.len() - 1 {
            let y = b.last();
            assert(b.contains(y));
            let k = choose|k: int| 0 <= k < a.len() && a[k] == y;
            assert(precedes(key_of(m, b[j]), key_of(m, b[b.len() - 1])));
            if k != a.len() - 1 {
                assert(precedes(key_of(m, a[k]), key_of(m, a[a.len() - 1])));
            }
        }
        let shorter_a = a.drop_last();
        let shorter_b = b.drop_last();
        assert forall|id: u32| shorter_a.contains(id) <==> shorter_b.contains(id) by {
            if shorter_a.contains(id) {
                let i = choose|i: int| 0 <= i < shorter_a.len() && shorter_a[i] == id;
                assert(a[i] == id);
                assert(precedes(key_of(m, a[i]), key_of(m, a[a.len() - 1])));
                assert(a.contains(id));
                let t = choose|t: int| 0 <= t < b.len() && b[t] == id;
                assert(shorter_b[t] == id);
            }
            if shorter_b.contains(id) {
                let i = choose|i: int| 0 <= i < shorter_b.len() && shorter_b[i] == id;
                assert(b[i] == id);
                assert(precedes(key_of(m, b[i]), key_of(m, b[b.len() - 1])));
                assert(b.contains(id));
                let t = choose|t: int| 0 <= t < a.len() && a[t] == id;
                assert(shorter_a[t] == id);
            }
        }
        assert forall|i: int, k: int| 0 <= i < k < shorter_a.len() implies precedes(
            key_of(m, #[trigger] shorter_a[i]),
            key_of(m, #[trigger] shorter_a[k]),
        ) by {
            assert(precedes(key_of(m, a[i]), key_of(m, a[k])));
        }
        assert forall|i: int, k: int| 0 <= i < k < shorter_b.len() implies precedes(
            key_of(m, #[trigger] shorter_b[i]),
            key_of(m, #[trigger] shorter_b[k]),
        ) by {
            assert(precedes(key_of(m, b[i]), key_of(m, b[k])));
        }
        law_oldest_first_unique(m, shorter_a, shorter_b);
        assert(a =~= shorter_a.push(x));
        assert(b =~= shorter_b.push(x));
    }
}

/// The list of the records that are late at `now`, from the oldest on, is
/// determined by the records: there is one such list and no other.
pub proof fn law_expired_list_unique(
    m: Map<u32, ChallengeRecord>,
    a: Seq<u32>,
    b: Seq<u32>,
    ttl: u64,
    now: u64,
)
    requires
        lists_expired(m, a, ttl, now),
        lists_expired(m, b, ttl, now),
    ensures
        a == b,
{
    assert forall|id: u32| a.contains(id) <==> b.contains(id) by {
        if a.contains(id) {
            let i = choose|i: int| 0 <= i < a.len() && a[i] == id;
            assert(m.contains_key(a[i]));
        }
        if b.contains(id) {
            let i = choose|i: int| 0 <= i < b.len() && b[i] == id;
            assert(m.contains_key(b[i]));
        }
    }
    law_oldest_first_unique(m, a, b);
}

} // verus!
