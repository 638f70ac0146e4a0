//! The operations offered to the transport: texts come in, are checked for
//! their shape, and go on to the engine; what the engine says is turned
//! into what the caller is told.
use vstd::prelude::*;
use crate::allocator::{draw_answer, in_space, lemma_first_free_is_drawn};
use crate::engine::{
    Engine, accepts, after_display, after_submit, can_display, created, created_from,
};
use crate::record::{ChallengeRecord, MAX_ANSWER, MAX_ID};
use crate::registry::{Registry, is_listing, lines};
use crate::text::{
    decimal_digits, decimal_text, has_several_tokens, law_decimal_round_trip, parse_decimal,
    parsed_decimal, token_count,
};

verus! {

/// Why a request was turned down, as the caller is told.
#[derive(Clone, Copy, Debug, PartialEq, Eq, Structural)]
pub enum Refusal {
    /// The request is not well formed.
    BadRequest,
    /// There is no picture to fetch under this identifier.
    NotFound,
    /// The answer was not accepted: wrong, late, used or unknown.
    Unauthorized,
}

/// What a request for the picture of `qid` yields: the digits to draw, or
/// the refusal.
pub open spec fn picture_reply(m: Map<u32, ChallengeRecord>, qid: Seq<char>) -> Result<
    u32,
    Refusal,
> {
    match parsed_decimal(qid) {
        None => Err(Refusal::BadRequest),
        Some(id) => if can_display(m, id) {
            Ok(m[id].answer)
        } else {
            Err(Refusal::NotFound)
        },
    }
}

/// The live records after a request for the picture of `qid`.
pub open spec fn after_picture(m: Map<u32, ChallengeRecord>, qid: Seq<char>) -> Map<
    u32,
    ChallengeRecord,
> {
    match parsed_decimal(qid) {
        None => m,
        Some(id) => after_display(m, id),
    }
}

/// A submission is well formed: the answer text writes a number and the
/// identity does not hold several tokens.
pub open spec fn well_formed(username: Seq<char>, answer: Seq<char>) -> bool {
    parsed_decimal(answer) is Some && token_count(username) <= 1
}

/// What the submission of the answer text `answer` for `id` under the
/// identity `username` yields. A submission that is not well formed is a
/// bad request, whatever the challenge; a well-formed one is accepted or
/// unauthorized as the engine says.
pub open spec fn submit_reply(
    m: Map<u32, ChallengeRecord>,
    username: Seq<char>,
    id: u32,
    answer: Seq<char>,
    now: u64,
    ttl: u64,
) -> Result<(), Refusal> {
    if !well_formed(username, answer) {
        Err(Refusal::BadRequest)
    } else if !accepts(m, id, parsed_decimal(answer)->0, now, ttl) {
        Err(Refusal::Unauthorized)
    } else {
        Ok(())
    }
}

/// The live records after a submission for `id`: one that is not well
/// formed leaves them alone.
pub open spec fn after_submission(
    m: Map<u32, ChallengeRecord>,
    username: Seq<char>,
    id: u32,
    answer: Seq<char>,
) -> Map<u32, ChallengeRecord> {
    if well_formed(username, answer) {
        after_submit(m, id)
    } else {
        m
    }
}

/// The challenges and the identities that passed one, behind the
/// operations that the transport calls.
pub struct Gateway {
    engine: Engine,
    registry: Registry,
}

impl Gateway {
    /// The live challenges, by identifier.
    pub closed spec fn challenges(&self) -> Map<u32, ChallengeRecord> {
        self.engine@
    }

    /// The names of the registered identities.
    pub closed spec fn identities(&self) -> Set<Seq<char>> {
        self.registry@
    }

    /// The time a challenge is given.
    pub closed spec fn ttl(&self) -> u64 {
        self.engine.spec_ttl()
    }

    /// A gateway without challenges or identities that gives each
    /// challenge `ttl` units of time.
    pub fn new(ttl: u64) -> (g: Self)
        ensures
            g.challenges() == Map::<u32, ChallengeRecord>::empty(),
            g.identities() == Set::<Seq<char>>::empty(),
            g.ttl() == ttl,
    {
        Gateway { engine: Engine::new(ttl), registry: Registry::new() }
    }

    /// Issues a challenge at `now` with `answer`, under the identifier that
    /// is handed out for `draws`, and returns the identifier as decimal text:
    /// the first draw that is free, and the lowest free identifier where
    /// all of them collide. Collisions are not reported and change nothing.
    pub fn new_qid_from(&mut self, draws: &Vec<u32>, answer: u32, now: u64) -> (r: Option<String>)
        requires
            in_space(draws@),
            answer <= MAX_ANSWER,
        ensures
            final(self).identities() == old(self).identities(),
            final(self).ttl() == old(self).ttl(),
            match r {
                Some(text) => {
                    &&& parsed_decimal(text@) matches Some(id) && text@ == decimal_digits(id as nat)
                    &&& created_from(
                        old(self).challenges(),
                        final(self).challenges(),
                        draws@,
                        answer,
                        now,
                        parsed_decimal(text@),
                    )
                },
                None => created_from(
                    old(self).challenges(),
                    final(self).challenges(),
                    draws@,
                    answer,
                    now,
                    None,
                ),
            },
    {
        match self.engine.create_from(draws, answer, now) {
            Some(id) => {
                proof {
                    law_decimal_round_trip(id);
                }
                Some(decimal_text(id))
            },
            None => None,
        }
    }

    /// Issues a challenge at `now` and returns its identifier as decimal
    /// text: what [`Gateway::new_qid_from`] returns for a run of random
    /// draws and five random digits. `None` comes back only when no
    /// identifier is free.
    pub fn new_qid(&mut self, now: u64) -> (r: Option<String>)
        ensures
            final(self).identities() == old(self).identities(),
            final(self).ttl() == old(self).ttl(),
            match r {
                Some(text) => parsed_decimal(text@) matches Some(id) && text@ == decimal_digits(
                    id as nat,
                ) && created(old(self).challenges(), final(self).challenges(), id, now),
                None => {
                    &&& final(self).challenges() == old(self).challenges()
                    &&& forall|id: u32| id <= MAX_ID ==> old(self).challenges().contains_key(id)
                },
            },
    {
        let draws = self.engine.draw_identifiers();
        let answer = draw_answer();
        proof {
            lemma_first_free_is_drawn(self.challenges(), draws@);
        }
        self.new_qid_from(&draws, answer, now)
    }

    /// Hands out the digits of the challenge that the text `qid` names, for
    /// drawing, once.
    pub fn captcha_img(&mut self, qid: &str) -> (r: Result<u32, Refusal>)
        ensures
            r == picture_reply(old(self).challenges(), qid@),
            final(self).challenges() == after_picture(old(self).challenges(), qid@),
            final(self).identities() == old(self).identities(),
            final(self).ttl() == old(self).ttl(),
            r matches Ok(answer) ==> answer <= MAX_ANSWER,
    {
        let id = match parse_decimal(qid) {
            Some(id) => id,
            None => {
                return Err(Refusal::BadRequest);
            },
        };
        match self.engine.fetch_display(id) {
            Ok(answer) => Ok(answer),
            Err(_) => Err(Refusal::NotFound),
        }
    }

    /// Takes the answer text `captcha_ans` for the challenge `captcha_qid`
    /// at `now`, and registers `username` where the answer is accepted. The
    /// shape of both texts is checked first: a submission that is not well
    /// formed changes nothing.
    pub fn submit(&mut self, username: String, captcha_qid: u32, captcha_ans: &str, now: u64) -> (r:
        Result<(), Refusal>)
        ensures
            r == submit_reply(
                old(self).challenges(),
                username@,
                captcha_qid,
                captcha_ans@,
                now,
                old(self).ttl(),
            ),
            final(self).challenges() == after_submission(
                old(self).challenges(),
                username@,
                captcha_qid,
                captcha_ans@,
            ),
            final(self).identities() == (if r is Ok {
                old(self).identities().insert(username@)
            } else {
                old(self).identities()
            }),
            final(self).ttl() == old(self).ttl(),
    {
        let candidate = match parse_decimal(captcha_ans) {
            Some(candidate) => candidate,
            None => {
                return Err(Refusal::BadRequest);
            },
        };
        if has_several_tokens(username.as_str()) {
            return Err(Refusal::BadRequest);
        }
        if self.engine.submit(captcha_qid, candidate, now).is_err() {
            return Err(Refusal::Unauthorized);
        }
        let _ = self.registry.register(username);
        Ok(())
    }

    /// The registered identities, one per line, in no particular order.
    pub fn users(&self) -> (text: String)
        ensures
            exists|names: Seq<Seq<char>>|
                is_listing(self.identities(), names) && text@ == lines(names),
    {
        self.registry.listing()
    }
}

} // verus!
