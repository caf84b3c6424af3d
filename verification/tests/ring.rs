use p2panda::ingest::ring::ChainRing;
use p2panda::types::{LogId, OperationHash, VerifyingKey};

const ALICE: VerifyingKey = VerifyingKey { high: 0, low: 1 };
const BOB: VerifyingKey = VerifyingKey { high: 0, low: 2 };
const TEST_LOG: LogId = LogId { high: 0, low: 1 };
const SHARED_LOG: LogId = LogId { high: 0, low: 2 };

fn id(id: u128) -> OperationHash {
    OperationHash { high: 0, low: id }
}

#[test]
fn push_and_pop_from() {
    let mut ring = ChainRing::with_capacity(64);

    // Form a chain: 4 <- [5] <- [6] <- [7]
    ring.push(ALICE, id(5), Some(id(4)), TEST_LOG, 5);
    ring.push(ALICE, id(6), Some(id(5)), TEST_LOG, 6);
    ring.push(ALICE, id(7), Some(id(6)), TEST_LOG, 7);
    assert_eq!(ring.len(), 3);

    // Try to pop chain range from 3 on, but item [4] is missing.
    assert!(ring.pop_from(ALICE, Some(id(3)), TEST_LOG).is_empty());

    // Add item [4] to chain: 3 <- [4] <- [5] <- [6] <- [7]
    ring.push(ALICE, id(4), Some(id(3)), TEST_LOG, 4);
    assert_eq!(ring.len(), 4);

    // Pop chain range from 3 on.
    assert_eq!(ring.pop_from(ALICE, Some(id(3)), TEST_LOG), vec![4, 5, 6, 7]);
    assert_eq!(ring.len(), 0);
}

#[test]
fn log_from_beginning() {
    let mut ring = ChainRing::with_capacity(64);
    ring.push(ALICE, id(0), None, TEST_LOG, 0);
    ring.push(ALICE, id(1), Some(id(0)), TEST_LOG, 1);
    ring.push(ALICE, id(2), Some(id(1)), TEST_LOG, 2);
    assert_eq!(ring.len(), 3);
    assert_eq!(ring.pop_from(ALICE, None, TEST_LOG), vec![0, 1, 2]);
}

/// The ring evicts the oldest entry first.
#[test]
fn ring_buffer_evicts_oldest_first() {
    let mut ring = ChainRing::with_capacity(2);
    ring.push(ALICE, id(1), Some(id(0)), TEST_LOG, "first");
    ring.push(ALICE, id(2), Some(id(1)), TEST_LOG, "second");
    assert_eq!(ring.len(), 2);

    // Pushing a third item evicts the first ([1], "first"), not the second.
    ring.push(ALICE, id(3), Some(id(2)), TEST_LOG, "third");
    assert_eq!(ring.len(), 2);
    assert!(ring.pop_from(ALICE, Some(id(0)), TEST_LOG).is_empty());
    assert_eq!(
        ring.pop_from(ALICE, Some(id(1)), TEST_LOG),
        vec!["second", "third"]
    );
}

/// Log ids are often shared by every author on a topic, entries must never chain across authors.
#[test]
fn cross_author_entries_never_chain_together() {
    let mut ring = ChainRing::with_capacity(64);

    // Alice's own chain: [10] <- [11].
    ring.push(ALICE, id(10), None, SHARED_LOG, "alice-0");
    ring.push(ALICE, id(11), Some(id(10)), SHARED_LOG, "alice-1");

    // Bob buffers an operation whose backlink happens to equal alice's op [10].
    ring.push(BOB, id(99), Some(id(10)), SHARED_LOG, "bob-forged");
    assert_eq!(ring.len(), 3);

    // Alice's own pop_from must only ever release alice's entries.
    let released = ring.pop_from(ALICE, None, SHARED_LOG);
    assert_eq!(released, vec!["alice-0", "alice-1"]);

    // Bob's entry is untouched and pops correctly under bob's own author.
    assert_eq!(ring.len(), 1);
    assert_eq!(
        ring.pop_from(BOB, Some(id(10)), SHARED_LOG),
        vec!["bob-forged"]
    );
    assert!(ring.is_empty());
}

#[test]
fn same_position_is_replaced_in_place() {
    let mut ring = ChainRing::with_capacity(3);
    ring.push(ALICE, id(1), None, TEST_LOG, "first");
    ring.push(BOB, id(2), None, TEST_LOG, "second");
    ring.push(ALICE, id(3), None, TEST_LOG, "replaced");
    assert_eq!(ring.len(), 2);

    // The replaced entry kept its place, it is still the oldest one.
    ring.push(BOB, id(4), Some(id(2)), TEST_LOG, "third");
    ring.push(BOB, id(5), Some(id(4)), TEST_LOG, "fourth");
    assert_eq!(ring.len(), 3);
    assert!(ring.pop_from(ALICE, None, TEST_LOG).is_empty());
    assert_eq!(
        ring.pop_from(BOB, None, TEST_LOG),
        vec!["second", "third", "fourth"]
    );
}

#[test]
fn logs_of_one_author_never_chain_together() {
    let mut ring = ChainRing::with_capacity(8);
    ring.push(ALICE, id(1), None, TEST_LOG, 1);
    ring.push(ALICE, id(2), Some(id(1)), SHARED_LOG, 2);
    assert_eq!(ring.pop_from(ALICE, None, TEST_LOG), vec![1]);
    assert_eq!(ring.len(), 1);
}

#[test]
fn popping_twice_releases_once() {
    let mut ring = ChainRing::with_capacity(8);
    ring.push(ALICE, id(1), None, TEST_LOG, 1);
    assert_eq!(ring.pop_from(ALICE, None, TEST_LOG), vec![1]);
    assert_eq!(ring.pop_from(ALICE, None, TEST_LOG), Vec::<i32>::new());
}

#[test]
fn ring_without_capacity_keeps_one_entry() {
    let mut ring = ChainRing::with_capacity(0);
    ring.push(ALICE, id(1), None, TEST_LOG, 1);
    assert_eq!(ring.len(), 1);
    ring.push(BOB, id(2), None, TEST_LOG, 2);
    assert_eq!(ring.len(), 1);
    assert!(ring.pop_from(ALICE, None, TEST_LOG).is_empty());
    assert_eq!(ring.pop_from(BOB, None, TEST_LOG), vec![2]);
}

#[test]
fn cleared_ring_is_empty() {
    let mut ring = ChainRing::with_capacity(8);
    ring.push(ALICE, id(1), None, TEST_LOG, 1);
    assert!(!ring.is_empty());
    ring.clear();
    assert!(ring.is_empty());
    assert!(ring.pop_from(ALICE, None, TEST_LOG).is_empty());
}
