use captcha_engine::record::{expired, ChallengeRecord, QuestionState};
use captcha_engine::store::{ChallengeStore, StoreError};

fn record(id: u32, answer: u32, created_at: u64) -> ChallengeRecord {
    ChallengeRecord { id, answer, state: QuestionState::NewlyGenerated, created_at }
}

#[test]
fn new_store_is_empty() {
    let store = ChallengeStore::new();
    assert_eq!(store.len(), 0);
    assert!(!store.contains(0));
    assert_eq!(store.get(7), None);
    assert_eq!(store.oldest_older_than(0, u64::MAX), Vec::<u32>::new());
}

#[test]
fn insert_then_get_returns_the_record() {
    let mut store = ChallengeStore::new();
    assert_eq!(store.insert(record(12, 4821, 100)), Ok(()));
    assert_eq!(store.len(), 1);
    assert!(store.contains(12));
    assert_eq!(store.get(12), Some(record(12, 4821, 100)));
    assert_eq!(store.get(13), None);
}

#[test]
fn insert_refuses_a_taken_identifier() {
    let mut store = ChallengeStore::new();
    assert_eq!(store.insert(record(12, 4821, 100)), Ok(()));
    assert_eq!(store.insert(record(12, 111, 200)), Err(StoreError::DuplicateId));
    assert_eq!(store.len(), 1);
    assert_eq!(store.get(12), Some(record(12, 4821, 100)));
    assert_eq!(store.oldest_older_than(0, 1000), vec![12]);
}

#[test]
fn update_state_changes_only_the_state() {
    let mut store = ChallengeStore::new();
    store.insert(record(5, 42, 77)).unwrap();
    assert_eq!(store.update_state(5, QuestionState::WaitingAnswer), Ok(()));
    assert_eq!(
        store.get(5),
        Some(ChallengeRecord {
            id: 5,
            answer: 42,
            state: QuestionState::WaitingAnswer,
            created_at: 77
        })
    );
    assert_eq!(store.len(), 1);
    assert_eq!(store.oldest_older_than(0, 78), vec![5]);
}

#[test]
fn update_state_fails_on_an_unknown_identifier() {
    let mut store = ChallengeStore::new();
    store.insert(record(5, 42, 77)).unwrap();
    assert_eq!(store.update_state(6, QuestionState::WaitingAnswer), Err(StoreError::UnknownId));
    assert_eq!(store.get(5), Some(record(5, 42, 77)));
    assert_eq!(store.get(6), None);
}

#[test]
fn remove_hands_back_the_record_once() {
    let mut store = ChallengeStore::new();
    store.insert(record(5, 42, 77)).unwrap();
    store.insert(record(6, 43, 78)).unwrap();
    assert_eq!(store.remove(5), Some(record(5, 42, 77)));
    assert_eq!(store.remove(5), None);
    assert_eq!(store.len(), 1);
    assert!(!store.contains(5));
    assert!(store.contains(6));
    assert_eq!(store.oldest_older_than(0, 1000), vec![6]);
}

#[test]
fn remove_of_an_unknown_identifier_changes_nothing() {
    let mut store = ChallengeStore::new();
    store.insert(record(5, 42, 77)).unwrap();
    assert_eq!(store.remove(9), None);
    assert_eq!(store.len(), 1);
    assert_eq!(store.get(5), Some(record(5, 42, 77)));
}

#[test]
fn oldest_older_than_lists_by_time_then_identifier() {
    let mut store = ChallengeStore::new();
    store.insert(record(30, 1, 50)).unwrap();
    store.insert(record(10, 2, 70)).unwrap();
    store.insert(record(20, 3, 50)).unwrap();
    store.insert(record(40, 4, 10)).unwrap();
    store.insert(record(50, 5, 90)).unwrap();
    // ttl 20 at 100: issued before 80
    assert_eq!(store.oldest_older_than(20, 100), vec![40, 20, 30, 10]);
    // issued exactly ttl ago is not older than ttl
    assert_eq!(store.oldest_older_than(30, 100), vec![40, 20, 30]);
    assert_eq!(store.oldest_older_than(50, 100), vec![40]);
    assert_eq!(store.oldest_older_than(49, 100), vec![40, 20, 30]);
    assert_eq!(store.oldest_older_than(90, 100), Vec::<u32>::new());
    assert_eq!(store.oldest_older_than(0, 91), vec![40, 20, 30, 10, 50]);
    assert_eq!(store.oldest_older_than(0, 90), vec![40, 20, 30, 10]);
}

#[test]
fn oldest_older_than_with_a_clock_before_the_ttl() {
    let mut store = ChallengeStore::new();
    store.insert(record(1, 1, 0)).unwrap();
    store.insert(record(2, 1, 5)).unwrap();
    assert_eq!(store.oldest_older_than(10, 10), Vec::<u32>::new());
    assert_eq!(store.oldest_older_than(10, 11), vec![1]);
    assert_eq!(store.oldest_older_than(10, 3), Vec::<u32>::new());
    assert_eq!(store.oldest_older_than(u64::MAX, u64::MAX), Vec::<u32>::new());
}

#[test]
fn store_keeps_its_order_through_many_changes() {
    let mut store = ChallengeStore::new();
    let mut expected: Vec<(u64, u32)> = Vec::new();
    let mut seed: u64 = 12345;
    for round in 0..400u32 {
        seed = seed.wrapping_mul(6364136223846793005).wrapping_add(1442695040888963407);
        let id = ((seed >> 33) % 64) as u32;
        let time = (seed >> 20) % 16;
        if round % 3 == 2 {
            let had = expected.iter().position(|k| k.1 == id);
            let removed = store.remove(id);
            match had {
                Some(at) => {
                    let key = expected.remove(at);
                    assert_eq!(removed, Some(record(id, id + 1, key.0)));
                }
                None => assert_eq!(removed, None),
            }
        } else {
            let taken = expected.iter().any(|k| k.1 == id);
            let outcome = store.insert(record(id, id + 1, time));
            if taken {
                assert_eq!(outcome, Err(StoreError::DuplicateId));
            } else {
                assert_eq!(outcome, Ok(()));
                expected.push((time, id));
            }
        }
        expected.sort();
        assert_eq!(store.len(), expected.len());
        let all: Vec<u32> = expected.iter().map(|k| k.1).collect();
        assert_eq!(store.oldest_older_than(0, 1000), all);
        let old: Vec<u32> = expected.iter().filter(|k| k.0 < 8).map(|k| k.1).collect();
        assert_eq!(store.oldest_older_than(2, 10), old);
    }
}

#[test]
fn expired_is_strictly_after_the_ttl() {
    assert!(!expired(100, 100, 0));
    assert!(expired(100, 101, 0));
    assert!(!expired(100, 110, 10));
    assert!(expired(100, 111, 10));
    assert!(!expired(100, 99, 0));
    assert!(!expired(u64::MAX, 0, 0));
    assert!(expired(0, u64::MAX, u64::MAX - 1));
    assert!(!expired(0, u64::MAX, u64::MAX));
}
