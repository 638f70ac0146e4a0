//! Finding an identifier that is not in use, and the five digits that go
//! with it.
//!
//! Chance and choice are kept apart. [`draw_until_free`] draws identifiers
//! at random; [`allocate_from`] takes the draws as they came and says which
//! identifier is handed out for them.
use vstd::prelude::*;
use crate::random::draw_between;
use crate::record::{ChallengeRecord, MAX_ANSWER, MAX_ID};
use crate::store::ChallengeStore;

verus! {

/// How many identifiers are drawn at random, at most, before the free
/// ones are searched in order.
pub const RANDOM_DRAWS: usize = 1024;

/// The first of `draws` that is free in `m`.
pub open spec fn first_free_draw(m: Map<u32, ChallengeRecord>, draws: Seq<u32>) -> Option<u32>
    decreases draws.len(),
{
    if draws.len() == 0 {
        None
    } else if !m.contains_key(draws[0]) {
        Some(draws[0])
    } else {
        first_free_draw(m, draws.drop_first())
    }
}

/// `id` is the lowest identifier that is free in `m`.
pub open spec fn is_lowest_free(m: Map<u32, ChallengeRecord>, id: u32) -> bool {
    &&& id <= MAX_ID
    &&& !m.contains_key(id)
    &&& forall|k: u32| k < id ==> m.contains_key(k)
}

/// No identifier is free in `m`.
pub open spec fn is_full(m: Map<u32, ChallengeRecord>) -> bool {
    forall|id: u32| id <= MAX_ID ==> m.contains_key(id)
}

/// `r` is what is handed out for `draws`: the first draw that is free;
/// where every draw collides, the lowest identifier that is free; and
/// nothing only where none is free.
pub open spec fn allocated(m: Map<u32, ChallengeRecord>, draws: Seq<u32>, r: Option<u32>) -> bool {
    match first_free_draw(m, draws) {
        Some(id) => r == Some(id),
        None => match r {
            Some(id) => is_lowest_free(m, id),
            None => is_full(m),
        },
    }
}

/// Every draw is an identifier of the space: none is beyond [`MAX_ID`].
pub open spec fn in_space(draws: Seq<u32>) -> bool {
    forall|i: int| 0 <= i < draws.len() ==> #[trigger] draws[i] <= MAX_ID
}

/// `draws` is a run of draws for `m`: identifiers of the space, drawn
/// again while they collide, and given up only after [`RANDOM_DRAWS`] of
/// them.
pub open spec fn is_drawing(m: Map<u32, ChallengeRecord>, draws: Seq<u32>) -> bool {
    &&& draws.len() <= RANDOM_DRAWS
    &&& in_space(draws)
    &&& forall|i: int| 0 <= i < draws.len() - 1 ==> m.contains_key(#[trigger] draws[i])
    &&& first_free_draw(m, draws) is None ==> draws.len() == RANDOM_DRAWS
}

/// Where the draws before place `k` collide and the one at `k` is free,
/// that one is the first free draw.
pub proof fn lemma_first_free_at(m: Map<u32, ChallengeRecord>, draws: Seq<u32>, k: int)
    requires
        0 <= k < draws.len(),
        forall|j: int| 0 <= j < k ==> m.contains_key(#[trigger] draws[j]),
        !m.contains_key(draws[k]),
    ensures
        first_free_draw(m, draws) == Some(draws[k]),
    decreases k,
{
    if k > 0 {
        let rest = draws.drop_first();
        assert(m.contains_key(draws[0]));
        assert forall|j: int| 0 <= j < k - 1 implies m.contains_key(#[trigger] rest[j]) by {
            assert(rest[j] == draws[j + 1]);
        }
        assert(rest[k - 1] == draws[k]);
        lemma_first_free_at(m, rest, k - 1);
    }
}

/// Where every draw collides, there is no first free draw.
pub proof fn lemma_no_free_draw(m: Map<u32, ChallengeRecord>, draws: Seq<u32>)
    requires
        forall|j: int| 0 <= j < draws.len() ==> m.contains_key(#[trigger] draws[j]),
    ensures
        first_free_draw(m, draws) is None,
    decreases draws.len(),
{
    if draws.len() > 0 {
        let rest = draws.drop_first();
        assert(m.contains_key(draws[0]));
        assert forall|j: int| 0 <= j < rest.len() implies m.contains_key(#[trigger] rest[j]) by {
            assert(rest[j] == draws[j + 1]);
        }
        lemma_no_free_draw(m, rest);
    }
}

/// The first free draw is one of the draws and is free.
pub proof fn lemma_first_free_is_drawn(m: Map<u32, ChallengeRecord>, draws: Seq<u32>)
    ensures
        first_free_draw(m, draws) matches Some(id) ==> draws.contains(id) && !m.contains_key(id),
    decreases draws.len(),
{
    if draws.len() > 0 {
        if m.contains_key(draws[0]) {
            let rest = draws.drop_first();
            lemma_first_free_is_drawn(m, rest);
            if first_free_draw(m, rest) is Some {
                let id = first_free_draw(m, rest)->0;
                let j = choose|j: int| 0 <= j < rest.len() && rest[j] == id;
                assert(draws[j + 1] == id);
            }
        } else {
            assert(draws.contains(draws[0]));
        }
    }
}

/// The first of `draws` that `store` does not hold.
pub fn first_free(store: &ChallengeStore, draws: &Vec<u32>) -> (r: Option<u32>)
    ensures
        r == first_free_draw(store@, draws@),
{
    let mut i: usize = 0;
    while i < draws.len()
        invariant
            i <= draws@.len(),
            forall|j: int| 0 <= j < i ==> store@.contains_key(#[trigger] draws@[j]),
        decreases draws@.len() - i,
    {
        if !store.contains(draws[i]) {
            proof {
                lemma_first_free_at(store@, draws@, i as int);
            }
            return Some(draws[i]);
        }
        i += 1;
    }
    proof {
        lemma_no_free_draw(store@, draws@);
    }
    None
}

/// The lowest identifier that `store` does not hold.
pub fn lowest_free(store: &ChallengeStore) -> (r: Option<u32>)
    ensures
        match r {
            Some(id) => is_lowest_free(store@, id),
            None => is_full(store@),
        },
{
    let mut id: u32 = 0;
    loop
        invariant
            id <= MAX_ID,
            forall|k: u32| k < id ==> store@.contains_key(k),
        decreases MAX_ID - id,
    {
        if !store.contains(id) {
            return Some(id);
        }
        if id == MAX_ID {
            return None;
        }
        id += 1;
    }
}

/// The identifier handed out for `draws`: the first of them that `store`
/// does not hold, and the lowest free identifier where all of them collide.
/// The collisions are not seen by the caller and change nothing.
pub fn allocate_from(store: &ChallengeStore, draws: &Vec<u32>) -> (r: Option<u32>)
    requires
        in_space(draws@),
    ensures
        allocated(store@, draws@, r),
        r matches Some(id) ==> id <= MAX_ID && !store@.contains_key(id),
{
    proof {
        lemma_first_free_is_drawn(store@, draws@);
    }
    match first_free(store, draws) {
        Some(id) => Some(id),
        None => lowest_free(store),
    }
}

/// Draws identifiers at random until one is free in `store`, and gives up
/// after [`RANDOM_DRAWS`] collisions. All the draws come back, in the order
/// in which they were made.
pub fn draw_until_free(store: &ChallengeStore) -> (draws: Vec<u32>)
    ensures
        is_drawing(store@, draws@),
{
    let mut draws: Vec<u32> = Vec::new();
    while draws.len() < RANDOM_DRAWS
        invariant
            draws@.len() <= RANDOM_DRAWS,
            in_space(draws@),
            forall|i: int| 0 <= i < draws@.len() ==> store@.contains_key(#[trigger] draws@[i]),
        decreases RANDOM_DRAWS - draws@.len(),
    {
        let id: u32 = draw_between(0, MAX_ID);
        draws.push(id);
        if !store.contains(id) {
            proof {
                lemma_first_free_at(store@, draws@, draws@.len() - 1);
            }
            return draws;
        }
    }
    draws
}

/// An identifier that `store` does not hold: the first free one of a run
/// of random draws, or the lowest free one after [`RANDOM_DRAWS`]
/// collisions. `None` comes back only when no identifier is free.
pub fn allocate(store: &ChallengeStore) -> (r: Option<u32>)
    ensures
        exists|draws: Seq<u32>| is_drawing(store@, draws) && allocated(store@, draws, r),
        match r {
            Some(id) => id <= MAX_ID && !store@.contains_key(id),
            None => is_full(store@),
        },
{
    let draws = draw_until_free(store);
    let r = allocate_from(store, &draws);
    proof {
        lemma_first_free_is_drawn(store@, draws@);
        assert(is_drawing(store@, draws@) && allocated(store@, draws@, r));
    }
    r
}

/// Five digits drawn at random, as a number.
pub fn draw_answer() -> (answer: u32)
    ensures
        answer <= MAX_ANSWER,
{
    draw_between(0, MAX_ANSWER)
}

} // verus!
