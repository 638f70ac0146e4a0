//! The lifecycle of a challenge: issued, shown once, answered once or
//! dropped when its time is up.
//!
//! The rules are written twice. The spec functions at the top say what each
//! operation does to the map of live records; the methods of [`Engine`]
//! carry them out and are proved to agree.
use vstd::prelude::*;
use crate::record::{
    ChallengeError, ChallengeRecord, QuestionState, MAX_ANSWER, MAX_ID, expired, is_expired,
};
use crate::allocator::{
    allocate_from, allocated, draw_answer, draw_until_free, in_space, is_drawing,
    lemma_first_free_is_drawn,
};
use crate::store::{ChallengeStore, lists_expired};

verus! {

/// The record of a challenge at the moment it is issued.
pub open spec fn fresh_record(id: u32, answer: u32, now: u64) -> ChallengeRecord {
    ChallengeRecord { id, answer, state: QuestionState::NewlyGenerated, created_at: now }
}

/// The map of live records after `id` was issued with `answer` at `now`.
pub open spec fn after_issue(
    m: Map<u32, ChallengeRecord>,
    id: u32,
    answer: u32,
    now: u64,
) -> Map<u32, ChallengeRecord> {
    if m.contains_key(id) {
        m
    } else {
        m.insert(id, fresh_record(id, answer, now))
    }
}

/// `post` is `pre` with one more challenge, issued at `now` under the
/// identifier `id`, which was free, with some five digits.
pub open spec fn created(
    pre: Map<u32, ChallengeRecord>,
    post: Map<u32, ChallengeRecord>,
    id: u32,
    now: u64,
) -> bool {
    &&& id <= MAX_ID
    &&& !pre.contains_key(id)
    &&& post[id].answer <= MAX_ANSWER
    &&& post == pre.insert(id, fresh_record(id, post[id].answer, now))
}

/// The map of live records after a creation that handed out `r`, with
/// `answer` at `now`: one more record where an identifier was found, and
/// no change where none was.
pub open spec fn after_creation(
    m: Map<u32, ChallengeRecord>,
    r: Option<u32>,
    answer: u32,
    now: u64,
) -> Map<u32, ChallengeRecord> {
    match r {
        Some(id) => m.insert(id, fresh_record(id, answer, now)),
        None => m,
    }
}

/// `post` is `pre` after a creation with `answer` at `now` that handed out
/// `r` for `draws`.
pub open spec fn created_from(
    pre: Map<u32, ChallengeRecord>,
    post: Map<u32, ChallengeRecord>,
    draws: Seq<u32>,
    answer: u32,
    now: u64,
    r: Option<u32>,
) -> bool {
    &&& allocated(pre, draws, r)
    &&& r matches Some(id) ==> id <= MAX_ID
    &&& post == after_creation(pre, r, answer, now)
}

/// The picture of `id` may be fetched: the record exists and was never shown.
pub open spec fn can_display(m: Map<u32, ChallengeRecord>, id: u32) -> bool {
    m.contains_key(id) && m[id].state == QuestionState::NewlyGenerated
}

/// The map of live records after the picture of `id` was asked for.
pub open spec fn after_display(m: Map<u32, ChallengeRecord>, id: u32) -> Map<u32, ChallengeRecord> {
    if can_display(m, id) {
        m.insert(id, ChallengeRecord { state: QuestionState::WaitingAnswer, ..m[id] })
    } else {
        m
    }
}

/// What asking for the picture of `id` yields: the digits to draw, or a
/// refusal.
pub open spec fn display_outcome(m: Map<u32, ChallengeRecord>, id: u32) -> Result<
    u32,
    ChallengeError,
> {
    if can_display(m, id) {
        Ok(m[id].answer)
    } else {
        Err(ChallengeError::ChallengeNotReady)
    }
}

/// An answer for `id` is looked at: the record exists and was shown.
pub open spec fn awaits_answer(m: Map<u32, ChallengeRecord>, id: u32) -> bool {
    m.contains_key(id) && m[id].state == QuestionState::WaitingAnswer
}

/// The map of live records after an answer for `id` was submitted: a record
/// that awaited its answer is gone, whatever the answer was and whenever it
/// came.
pub open spec fn after_submit(m: Map<u32, ChallengeRecord>, id: u32) -> Map<u32, ChallengeRecord> {
    if awaits_answer(m, id) {
        m.remove(id)
    } else {
        m
    }
}

/// The submission of `candidate` for `id` at `now` is accepted.
pub open spec fn accepts(
    m: Map<u32, ChallengeRecord>,
    id: u32,
    candidate: u32,
    now: u64,
    ttl: u64,
) -> bool {
    &&& awaits_answer(m, id)
    &&& !is_expired(m[id].created_at, now, ttl)
    &&& m[id].answer == candidate
}

/// What submitting `candidate` for `id` at `now` yields.
pub open spec fn submit_outcome(
    m: Map<u32, ChallengeRecord>,
    id: u32,
    candidate: u32,
    now: u64,
    ttl: u64,
) -> Result<(), ChallengeError> {
    if accepts(m, id, candidate, now, ttl) {
        Ok(())
    } else {
        Err(ChallengeError::VerificationRejected)
    }
}

/// The records of `m` that are still within their time at `now`.
pub open spec fn unexpired(m: Map<u32, ChallengeRecord>, ttl: u64, now: u64) -> Map<
    u32,
    ChallengeRecord,
> {
    Map::new(
        |id: u32| m.contains_key(id) && !is_expired(m[id].created_at, now, ttl),
        |id: u32| m[id],
    )
}

/// Every record sits under its own identifier and expects five digits.
spec fn records_valid(m: Map<u32, ChallengeRecord>) -> bool {
    forall|id: u32| #[trigger] m.contains_key(id) ==> m[id].id == id && m[id].answer <= MAX_ANSWER
}

/// The engine: the live challenges and the time each of them is given.
pub struct Engine {
    store: ChallengeStore,
    ttl: u64,
}

impl View for Engine {
    type V = Map<u32, ChallengeRecord>;

    closed spec fn view(&self) -> Map<u32, ChallengeRecord> {
        self.store@
    }
}

impl Engine {
    #[verifier::type_invariant]
    spec fn well_formed(self) -> bool {
        records_valid(self.store@)
    }

    /// The time a challenge is given, in the units of the caller's clock.
    pub closed spec fn spec_ttl(&self) -> u64 {
        self.ttl
    }

    /// An engine without challenges that gives each `ttl` units of time.
    pub fn new(ttl: u64) -> (e: Self)
        ensures
            e@ == Map::<u32, ChallengeRecord>::empty(),
            e.spec_ttl() == ttl,
    {
        Engine { store: ChallengeStore::new(), ttl }
    }

    /// The time a challenge is given.
    #[verifier::when_used_as_spec(spec_ttl)]
    pub fn ttl(&self) -> (t: u64)
        ensures
            t == self.spec_ttl(),
    {
        self.ttl
    }

    /// The state of the challenge `id`, if it is live.
    pub fn state_of(&self, id: u32) -> (r: Option<QuestionState>)
        ensures
            r == (if self@.contains_key(id) {
                Some(self@[id].state)
            } else {
                None
            }),
    {
        match self.store.get(id) {
            Some(rec) => Some(rec.state),
            None => None,
        }
    }

    /// The number of live challenges, swept or not.
    pub fn len(&self) -> (n: usize)
        ensures
            n == self@.len(),
            self@.dom().finite(),
    {
        self.store.len()
    }

    /// Issues the challenge `id` with `answer` at `now`, unless `id` is in
    /// use.
    pub fn issue(&mut self, id: u32, answer: u32, now: u64) -> (r: Result<(), ChallengeError>)
        requires
            answer <= MAX_ANSWER,
        ensures
            final(self)@ == after_issue(old(self)@, id, answer, now),
            final(self).spec_ttl() == old(self).spec_ttl(),
            r == (if old(self)@.contains_key(id) {
                Err::<(), ChallengeError>(ChallengeError::AllocationCollision)
            } else {
                Ok::<(), ChallengeError>(())
            }),
    {
        proof {
            use_type_invariant(&*self);
        }
        let record = ChallengeRecord {
            id,
            answer,
            state: QuestionState::NewlyGenerated,
            created_at: now,
        };
        let mut taken = Engine::new(self.ttl);
        std::mem::swap(self, &mut taken);
        let Engine { mut store, ttl } = taken;
        let stored = store.insert(record);
        *self = Engine { store, ttl };
        match stored {
            Ok(()) => Ok(()),
            Err(_) => Err(ChallengeError::AllocationCollision),
        }
    }

    /// A run of random draws of identifiers for the challenges as they
    /// stand.
    pub fn draw_identifiers(&self) -> (draws: Vec<u32>)
        ensures
            is_drawing(self@, draws@),
    {
        draw_until_free(&self.store)
    }

    /// Issues a challenge at `now` with `answer`, under the identifier that
    /// is handed out for `draws`: the first of them that is free, and the
    /// lowest free identifier where all of them collide. `None` comes back
    /// only when no identifier is free. Collisions are not reported and
    /// leave the records that they hit as they are.
    pub fn create_from(&mut self, draws: &Vec<u32>, answer: u32, now: u64) -> (r: Option<u32>)
        requires
            in_space(draws@),
            answer <= MAX_ANSWER,
        ensures
            created_from(old(self)@, final(self)@, draws@, answer, now, r),
            final(self).spec_ttl() == old(self).spec_ttl(),
    {
        let id = match allocate_from(&self.store, draws) {
            Some(id) => id,
            None => {
                return None;
            },
        };
        proof {
            lemma_first_free_is_drawn(self@, draws@);
        }
        let _ = self.issue(id, answer, now);
        Some(id)
    }

    /// Issues a challenge at `now` under an identifier that is not in use,
    /// with five digits drawn at random, and returns the identifier: what
    /// [`Engine::create_from`] hands out for a run of random draws. `None`
    /// comes back only when no identifier is free.
    pub fn create(&mut self, now: u64) -> (r: Option<u32>)
        ensures
            final(self).spec_ttl() == old(self).spec_ttl(),
            exists|draws: Seq<u32>, answer: u32|
                {
                    &&& is_drawing(old(self)@, draws)
                    &&& answer <= MAX_ANSWER
                    &&& #[trigger] created_from(old(self)@, final(self)@, draws, answer, now, r)
                },
            match r {
                Some(id) => created(old(self)@, final(self)@, id, now),
                None => {
                    &&& final(self)@ == old(self)@
                    &&& forall|id: u32| id <= MAX_ID ==> old(self)@.contains_key(id)
                },
            },
    {
        let draws = self.draw_identifiers();
        let answer = draw_answer();
        let r = self.create_from(&draws, answer, now);
        proof {
            lemma_first_free_is_drawn(old(self)@, draws@);
            assert(created_from(old(self)@, final(self)@, draws@, answer, now, r));
        }
        r
    }

    /// Hands out the digits of `id` for drawing, once: the record must exist
    /// and never have been shown. Anything else is refused and changes
    /// nothing.
    pub fn fetch_display(&mut self, id: u32) -> (r: Result<u32, ChallengeError>)
        ensures
            final(self)@ == after_display(old(self)@, id),
            final(self).spec_ttl() == old(self).spec_ttl(),
            r == display_outcome(old(self)@, id),
            r matches Ok(answer) ==> answer <= MAX_ANSWER,
    {
        proof {
            use_type_invariant(&*self);
        }
        let found = match self.store.get(id) {
            Some(rec) => rec,
            None => {
                return Err(ChallengeError::ChallengeNotReady);
            },
        };
        if found.state != QuestionState::NewlyGenerated {
            return Err(ChallengeError::ChallengeNotReady);
        }
        let mut taken = Engine::new(self.ttl);
        std::mem::swap(self, &mut taken);
        let Engine { mut store, ttl } = taken;
        let _ = store.update_state(id, QuestionState::WaitingAnswer);
        *self = Engine { store, ttl };
        Ok(found.answer)
    }

    /// Takes the answer `candidate` for `id` at `now`. A record that was
    /// shown is used up by this, whether the answer is right, wrong or late;
    /// it is accepted when it is right and in time.
    pub fn submit(&mut self, id: u32, candidate: u32, now: u64) -> (r: Result<(), ChallengeError>)
        ensures
            final(self)@ == after_submit(old(self)@, id),
            final(self).spec_ttl() == old(self).spec_ttl(),
            r == submit_outcome(old(self)@, id, candidate, now, old(self).spec_ttl()),
    {
        proof {
            use_type_invariant(&*self);
        }
        let found = match self.store.get(id) {
            Some(rec) => rec,
            None => {
                return Err(ChallengeError::VerificationRejected);
            },
        };
        if found.state != QuestionState::WaitingAnswer {
            return Err(ChallengeError::VerificationRejected);
        }
        let mut taken = Engine::new(self.ttl);
        std::mem::swap(self, &mut taken);
        let Engine { mut store, ttl } = taken;
        let _ = store.remove(id);
        *self = Engine { store, ttl };
        if expired(found.created_at, now, ttl) {
            return Err(ChallengeError::VerificationRejected);
        }
        if found.answer != candidate {
            return Err(ChallengeError::VerificationRejected);
        }
        Ok(())
    }

    /// Drops every record that is past its deadline at `now` and returns
    /// their identifiers, the oldest first.
    pub fn sweep(&mut self, now: u64) -> (ids: Vec<u32>)
        ensures
            lists_expired(old(self)@, ids@, old(self).spec_ttl(), now),
            final(self)@ == unexpired(old(self)@, old(self).spec_ttl(), now),
            final(self).spec_ttl() == old(self).spec_ttl(),
    {
        proof {
            use_type_invariant(&*self);
        }
        let ghost before = self@;
        let mut taken = Engine::new(self.ttl);
        std::mem::swap(self, &mut taken);
        let Engine { mut store, ttl } = taken;
        let ids = store.oldest_older_than(ttl, now);
        let mut i: usize = 0;
        while i < ids.len()
            invariant
                i <= ids@.len(),
                lists_expired(before, ids@, ttl, now),
                forall|id: u32|
                    store@.contains_key(id) <==> (before.contains_key(id) && !ids@.subrange(
                        0,
                        i as int,
                    ).contains(id)),
                forall|id: u32| store@.contains_key(id) ==> store@[id] == before[id],
            decreases ids@.len() - i,
        {
            let ghost prev = store@;
            let _ = store.remove(ids[i]);
            proof {
                let done = ids@.subrange(0, i as int);
                let next = ids@.subrange(0, i + 1);
                assert(next =~= done.push(ids@[i as int]));
                assert forall|id: u32|
                    store@.contains_key(id) <==> (before.contains_key(id) && !next.contains(
                        id,
                    )) by {
                    if done.contains(id) {
                        let j = choose|j: int| 0 <= j < done.len() && done[j] == id;
                        assert(next[j] == id);
                    }
                    if id == ids@[i as int] {
                        assert(next[i as int] == id);
                    }
                    if next.contains(id) {
                        let j = choose|j: int| 0 <= j < next.len() && next[j] == id;
                        if j < i {
                            assert(done[j] == id);
                        }
                    }
                }
            }
            i += 1;
        }
        proof {
            assert(ids@.subrange(0, i as int) =~= ids@);
            let goal = unexpired(before, ttl, now);
            assert forall|id: u32| #[trigger]
                store@.contains_key(id) implies goal.contains_key(id) by {
                if is_expired(before[id].created_at, now, ttl) {
                    assert(before.contains_key(id));
                    assert(ids@.contains(id));
                }
            }
            assert forall|id: u32| #[trigger]
                goal.contains_key(id) implies store@.contains_key(id) by {
                if ids@.contains(id) {
                    let j = choose|j: int| 0 <= j < ids@.len() && ids@[j] == id;
                    assert(is_expired(before[ids@[j]].created_at, now, ttl));
                }
            }
            assert(store@ =~= goal);
        }
        *self = Engine { store, ttl };
        ids
    }
}

} // verus!
