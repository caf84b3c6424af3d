use std::collections::VecDeque;
use std::sync::Arc;

use p2panda::streams::acked::{
    get_log_heights, Ack, AckAction, AckPhase, AckReply, AckStep, Acked, AckedError, Comparison,
    Cursor, ReplayAction, ReplayReply, ReplayStep, StreamFrom, ACK_BATCH_MAX_DELAY_NANOS,
    ACK_BATCH_MAX_OPS,
};
use p2panda::types::{LogId, Topic, VerifyingKey};

const TOPIC: Topic = Topic { high: 1, low: 2 };
const OTHER_TOPIC: Topic = Topic { high: 3, low: 4 };

/// Operations which were acked, by their sequence number.
type Heights = Vec<u64>;

const AUTHOR: VerifyingKey = VerifyingKey { high: 0, low: 9 };
const LOG: LogId = LogId { high: 0, low: 4 };

/// Store with a log and a single cursor, which fails where it was told to.
#[derive(Default)]
struct TestStore {
    log: Heights,
    persisted: Option<(String, Heights)>,
    writes: u32,
    failures: u32,
    error: String,
    slept: Vec<u64>,
}

impl TestStore {
    fn write(&mut self, cursor: &Cursor<Heights>) -> Result<(), String> {
        if self.failures > 0 {
            self.failures -= 1;
            return Err(self.error.clone());
        }
        self.writes += 1;
        self.persisted = Some((cursor.name.clone(), (*cursor.state).clone()));
        Ok(())
    }

    fn read(&self, name: &str) -> Option<Cursor<Heights>> {
        match &self.persisted {
            Some((persisted, heights)) if persisted == name => Some(Cursor {
                name: persisted.clone(),
                state: Arc::new(heights.clone()),
            }),
            _ => None,
        }
    }
}

fn empty() -> Arc<Heights> {
    Arc::new(Vec::new())
}

fn drive(
    store: &mut TestStore,
    acked: &mut Acked<Heights>,
    ack: Ack<Heights>,
    now: u64,
) -> Result<(), AckedError> {
    let mut ack = ack;
    loop {
        let reply = match acked.action(&ack) {
            AckAction::Load { name } => {
                assert_eq!(name, acked.cursor_name());
                AckReply::Loaded(Ok(store.read(&name)))
            }
            AckAction::Advance {
                cursor,
                author,
                log_id,
                seq_num,
            } => {
                assert_eq!((author, log_id), (AUTHOR, LOG));
                assert_eq!(cursor.name, acked.cursor_name());
                let mut heights = (*cursor.state).clone();
                if !heights.contains(&seq_num) {
                    heights.push(seq_num);
                }
                AckReply::Advanced {
                    cursor: Cursor {
                        name: cursor.name,
                        state: Arc::new(heights),
                    },
                    now,
                }
            }
            AckAction::Persist { cursor } => {
                assert_eq!(cursor.name, acked.cursor_name());
                AckReply::Persisted(store.write(&cursor))
            }
        };
        match acked.advance(ack, reply, &empty()) {
            AckStep::Perform(next) => ack = next,
            AckStep::Retry { ack: next, millis } => {
                store.slept.push(millis);
                ack = next;
            }
            AckStep::Finished(result) => return result,
        }
    }
}

fn ack(store: &mut TestStore, acked: &mut Acked<Heights>, seq_num: u64, now: u64) -> Result<(), AckedError> {
    let started = acked.ack(AUTHOR, LOG, seq_num);
    drive(store, acked, started, now)
}

fn replay(
    store: &mut TestStore,
    acked: &mut Acked<Heights>,
    from: StreamFrom<Heights>,
) -> Result<Comparison<Heights, Heights>, AckedError> {
    let mut replay = acked.nacked_log_ranges(from);
    loop {
        let reply = match acked.replay_action(&replay) {
            ReplayAction::Resolve { topic } => {
                assert_eq!(topic, acked.topic());
                let mut replies = VecDeque::new();
                replies.push_back((AUTHOR, Some(store.log.clone())));
                ReplayReply::Resolved(Ok(replies))
            }
            ReplayAction::Load { name } => {
                assert_eq!(name, acked.cursor_name());
                ReplayReply::Loaded(Ok(store.read(&name)))
            }
            ReplayAction::Write { cursor } => {
                assert_eq!(cursor.name, acked.cursor_name());
                ReplayReply::Written(store.write(&cursor))
            }
        };
        match acked.replay_advance(replay, reply, &empty()) {
            ReplayStep::Perform(next) => replay = next,
            ReplayStep::Finished(result) => return result,
        }
    }
}

/// Operations of the log which were not acked yet.
fn nacked(
    store: &mut TestStore,
    acked: &mut Acked<Heights>,
    from: StreamFrom<Heights>,
) -> Result<Heights, AckedError> {
    let comparison = replay(store, acked, from)?;
    let mut ranges = comparison.heights.get(&AUTHOR).unwrap().clone();
    ranges.retain(|seq_num| !comparison.cursor.state.contains(seq_num));
    Ok(ranges)
}

/// Acks until the next one is due to be written.
fn fill(store: &mut TestStore, acked: &mut Acked<Heights>) {
    for seq_num in 0..(ACK_BATCH_MAX_OPS as u64 - 1) {
        ack(store, acked, seq_num, 0).unwrap();
    }
    assert_eq!(store.writes, 0);
}

#[test]
fn nacked_log_ranges() {
    let mut store = TestStore::default();
    let mut acked = Acked::new(TOPIC, "my-topic");

    // Expect name to be the same as topic.
    assert_eq!(acked.cursor_name(), "my-topic");

    // There's nothing nacked yet.
    assert!(nacked(&mut store, &mut acked, StreamFrom::Frontier).unwrap().is_empty());

    // This first operation was not acked yet.
    store.log.push(0);
    assert_eq!(nacked(&mut store, &mut acked, StreamFrom::Frontier).unwrap(), vec![0]);

    // Ack it.
    ack(&mut store, &mut acked, 0, 0).unwrap();
    assert!(nacked(&mut store, &mut acked, StreamFrom::Frontier).unwrap().is_empty());
}

#[test]
fn custom_name() {
    let mut store = TestStore {
        log: vec![0],
        ..TestStore::default()
    };

    // We keep track of the same topic but with two independent "acked" cursors.
    let mut acked_1: Acked<Heights> = Acked::from_name(TOPIC, "one");
    let mut acked_2: Acked<Heights> = Acked::from_name(TOPIC, "two");
    assert_eq!(acked_1.cursor_name(), "one");
    assert_eq!(acked_2.cursor_name(), "two");

    // The first cursor acks it.
    ack(&mut store, &mut acked_1, 0, 0).unwrap();

    // Both cursors end up in different states.
    assert!(nacked(&mut store, &mut acked_1, StreamFrom::Frontier).unwrap().is_empty());
    assert_eq!(nacked(&mut store, &mut acked_2, StreamFrom::Frontier).unwrap(), vec![0]);

    // It is the same after the first one was persisted.
    let cursor = acked_1.flush().unwrap();
    let written = store.write(&cursor);
    acked_1.flushed(written).unwrap();
    assert_eq!(nacked(&mut store, &mut acked_2, StreamFrom::Frontier).unwrap(), vec![0]);
    let mut restarted: Acked<Heights> = Acked::from_name(TOPIC, "one");
    assert!(nacked(&mut store, &mut restarted, StreamFrom::Frontier).unwrap().is_empty());
}

#[test]
fn equality_by_name_and_topic() {
    let acked: Acked<Heights> = Acked::from_name(TOPIC, "one");
    assert_eq!(acked.topic(), TOPIC);
    assert_ne!(acked, Acked::from_name(TOPIC, "two"));
    assert_eq!(acked, Acked::from_name(TOPIC, "one"));
    assert_ne!(acked, Acked::from_name(OTHER_TOPIC, "one"));
}

#[test]
fn single_ack_below_threshold_does_not_persist() {
    let mut store = TestStore::default();
    let mut acked = Acked::from_name(TOPIC, "one");
    ack(&mut store, &mut acked, 0, 0).unwrap();

    // In-memory state already reflects the ack.
    let cursor = acked.cursor().unwrap();
    assert_eq!(cursor.name, "one");
    assert_eq!(*cursor.state, vec![0]);

    // The store itself must not have been written to yet.
    assert!(store.persisted.is_none());
}

#[test]
fn flush_persists_a_pending_batch() {
    let mut store = TestStore::default();
    let mut acked = Acked::from_name(TOPIC, "one");
    assert!(acked.flush().is_none());
    ack(&mut store, &mut acked, 0, 0).unwrap();
    assert!(store.persisted.is_none());

    let cursor = acked.flush().unwrap();
    let written = store.write(&cursor);
    acked.flushed(written).unwrap();
    assert_eq!(store.persisted, Some(("one".to_string(), vec![0])));
    assert!(acked.flush().is_none());
}

#[test]
fn failed_flush_stays_pending() {
    let mut store = TestStore::default();
    let mut acked = Acked::from_name(TOPIC, "one");
    ack(&mut store, &mut acked, 0, 0).unwrap();
    let error = acked.flushed(Err("disk is full".to_string())).unwrap_err();
    assert_eq!(
        error.message(""),
        "an error occurred while querying the store: disk is full"
    );
    assert!(acked.flush().is_some());
}

#[test]
fn full_batch_is_persisted() {
    let mut store = TestStore::default();
    let mut acked = Acked::from_name(TOPIC, "one");
    fill(&mut store, &mut acked);
    ack(&mut store, &mut acked, 99, 0).unwrap();
    assert_eq!(store.writes, 1);
    assert_eq!(store.persisted.as_ref().unwrap().1.len(), 32);
    assert!(acked.flush().is_none());
}

#[test]
fn old_batch_is_persisted() {
    let mut store = TestStore::default();
    let mut acked = Acked::from_name(TOPIC, "one");
    ack(&mut store, &mut acked, 0, 1000).unwrap();
    ack(&mut store, &mut acked, 1, 1000 + ACK_BATCH_MAX_DELAY_NANOS - 1).unwrap();
    assert_eq!(store.writes, 0);
    ack(&mut store, &mut acked, 2, 1000 + ACK_BATCH_MAX_DELAY_NANOS).unwrap();
    assert_eq!(store.writes, 1);
    assert_eq!(ACK_BATCH_MAX_DELAY_NANOS, 50_000_000);

    // The next batch starts with its own first ack.
    ack(&mut store, &mut acked, 3, 1001 + ACK_BATCH_MAX_DELAY_NANOS).unwrap();
    assert_eq!(store.writes, 1);
}

#[test]
fn ack_retries_single_transient_failure() {
    let mut store = TestStore::default();
    let mut acked = Acked::from_name(TOPIC, "one");
    fill(&mut store, &mut acked);
    store.failures = 1;
    store.error = "database is locked".to_string();
    ack(&mut store, &mut acked, 99, 0).unwrap();
    assert_eq!(store.slept, vec![10]);
    assert_eq!(store.persisted.as_ref().unwrap().1.len(), 32);
}

#[test]
fn ack_gives_up_after_exhausting_retries() {
    let mut store = TestStore::default();
    let mut acked = Acked::from_name(TOPIC, "one");
    fill(&mut store, &mut acked);
    store.failures = 10;
    store.error = "SQLITE_BUSY".to_string();
    let result = ack(&mut store, &mut acked, 99, 0);
    assert!(matches!(result, Err(AckedError::Store(_))));
    assert_eq!(store.slept, vec![10, 50, 250]);

    // Nothing of it is lost, the next ack writes everything.
    store.failures = 0;
    ack(&mut store, &mut acked, 100, 0).unwrap();
    assert_eq!(store.persisted.as_ref().unwrap().1.len(), 33);
}

#[test]
fn without_retry_ack_attempt_surfaces_the_transient_error() {
    let mut store = TestStore::default();
    let mut acked = Acked::from_name(TOPIC, "one");
    fill(&mut store, &mut acked);
    store.failures = 1;
    store.error = "database is locked".to_string();
    let started = acked.ack_attempt(AUTHOR, LOG, 99);
    assert_eq!(started.phase(), AckPhase::Advance);
    let result = drive(&mut store, &mut acked, started, 0);
    assert!(matches!(result, Err(AckedError::Store(_))));
}

#[test]
fn critical_store_error_is_not_retried() {
    let mut acked: Acked<Heights> = Acked::from_name(TOPIC, "one");
    let started = acked.ack(AUTHOR, LOG, 0);
    assert_eq!(started.phase(), AckPhase::Load);
    let step = acked.advance(started, AckReply::Loaded(Err("corrupt".to_string())), &empty());
    assert!(matches!(step, AckStep::Finished(Err(AckedError::Store(_)))));
}

#[test]
fn persisted_cursor_is_continued() {
    let mut store = TestStore {
        persisted: Some(("one".to_string(), vec![7])),
        ..TestStore::default()
    };
    let mut acked = Acked::from_name(TOPIC, "one");
    assert!(acked.cursor().is_none());
    let cursor = acked.persisted_cursor(Ok(store.read("one")), &empty()).unwrap();
    assert_eq!(*cursor.state, vec![7]);
    let fresh = acked.persisted_cursor(Ok(None), &empty()).unwrap();
    assert_eq!(fresh.name, "one");
    assert!(fresh.state.is_empty());
    ack(&mut store, &mut acked, 8, 0).unwrap();
    assert_eq!(*acked.cursor().unwrap().state, vec![7, 8]);
}

#[test]
fn replaying_mutates_cursor_state() {
    let mut store = TestStore {
        log: vec![0],
        ..TestStore::default()
    };
    let mut acked = Acked::from_name(TOPIC, "one");
    ack(&mut store, &mut acked, 0, 0).unwrap();
    assert!(nacked(&mut store, &mut acked, StreamFrom::Frontier).unwrap().is_empty());

    // Requesting to stream from the start will reset the internal state.
    assert_eq!(nacked(&mut store, &mut acked, StreamFrom::Start).unwrap(), vec![0]);

    // It was persisted, nothing from before can be written over it.
    assert_eq!(store.persisted, Some(("one".to_string(), vec![])));
    assert!(acked.cursor().unwrap().state.is_empty());
    assert!(acked.flush().is_none());

    // Do it again to show how it was persisted (the "frontier" was reset).
    assert_eq!(nacked(&mut store, &mut acked, StreamFrom::Frontier).unwrap(), vec![0]);
    let mut restarted = Acked::from_name(TOPIC, "one");
    assert_eq!(nacked(&mut store, &mut restarted, StreamFrom::Frontier).unwrap(), vec![0]);
}

#[test]
fn replay_from_given_cursor() {
    let mut store = TestStore {
        log: vec![0, 1, 2],
        ..TestStore::default()
    };
    let mut acked = Acked::from_name(TOPIC, "one");
    let cursor = Cursor {
        name: "one".to_string(),
        state: Arc::new(vec![0, 1]),
    };
    assert_eq!(nacked(&mut store, &mut acked, StreamFrom::Cursor(cursor)).unwrap(), vec![2]);
    assert_eq!(store.persisted, Some(("one".to_string(), vec![0, 1])));
    assert_eq!(*acked.cursor().unwrap().state, vec![0, 1]);
}

#[test]
fn failed_reset_changes_nothing() {
    let mut store = TestStore::default();
    let mut acked = Acked::from_name(TOPIC, "one");
    ack(&mut store, &mut acked, 0, 0).unwrap();
    store.failures = 1;
    store.error = "disk is full".to_string();
    let result = replay(&mut store, &mut acked, StreamFrom::Start);
    assert!(matches!(result, Err(AckedError::Store(_))));
    assert!(store.persisted.is_none());
    assert_eq!(*acked.cursor().unwrap().state, vec![0]);
    assert!(acked.flush().is_some());
}

#[test]
fn failed_resolve_and_load_surface() {
    let mut acked: Acked<Heights> = Acked::from_name(TOPIC, "one");
    let resolve = acked.nacked_log_ranges::<u64>(StreamFrom::Start);
    let reply = ReplayReply::Resolved(Err("corrupt".to_string()));
    let step = acked.replay_advance(resolve, reply, &empty());
    assert!(matches!(step, ReplayStep::Finished(Err(AckedError::Store(_)))));

    let resolve = acked.nacked_log_ranges::<u64>(StreamFrom::Frontier);
    let reply = ReplayReply::Resolved(Ok(VecDeque::new()));
    let load = match acked.replay_advance(resolve, reply, &empty()) {
        ReplayStep::Perform(load) => load,
        other => panic!("expected to load the cursor, got {other:?}"),
    };
    let reply = ReplayReply::Loaded(Err("corrupt".to_string()));
    let step = acked.replay_advance(load, reply, &empty());
    assert!(matches!(step, ReplayStep::Finished(Err(AckedError::Store(_)))));
}

#[test]
fn cursor_of_another_state_is_rejected() {
    let mut store = TestStore::default();
    let mut acked: Acked<Heights> = Acked::from_name(TOPIC, "one");
    let other = Cursor {
        name: "two".to_string(),
        state: empty(),
    };
    let error = replay(&mut store, &mut acked, StreamFrom::Cursor(other)).unwrap_err();
    assert_eq!(
        error.message(""),
        "can't use cursor with different name 'two' for this stream, expected: one"
    );
    assert_eq!(
        AckedError::InvalidTopic(TOPIC).message("dogs"),
        "can't ack operation which is part of a different topic, expected: dogs"
    );

    // Nothing was written.
    assert_eq!(store.writes, 0);
    assert!(acked.cursor().is_none());
}

#[test]
fn authors_without_logs_have_no_heights() {
    let author = |low: u128| VerifyingKey { high: 0, low };
    let mut replies = VecDeque::new();
    replies.push_back((author(1), Some(5)));
    replies.push_back((author(2), None));
    replies.push_back((author(3), Some(7)));
    let heights = get_log_heights(replies);
    assert_eq!(heights.get(&author(1)), Some(&5));
    assert_eq!(heights.get(&author(2)), None);
    assert_eq!(heights.get(&author(3)), Some(&7));
    assert_eq!(heights.len(), 2);
}
