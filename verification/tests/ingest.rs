use std::sync::Arc;

use p2panda::ingest::args::IngestArgs;
use p2panda::ingest::ooo::{OooBuffer, OooResult};
use p2panda::ingest::operation::{
    ingest_operation, ingest_operation_attempt, validate_operation, Action, IngestError,
    IngestResult, Ingestion, Phase, Reply, Step, ValidationStep,
};
use p2panda::ingest::processor::{Event, Ingest, ParkNotice};
use p2panda::types::{AuthorLog, Frontier, Header, LogId, Operation, OperationHash, Topic, VerifyingKey};

const LOG: LogId = LogId { high: 0, low: 1 };
const TOPIC: Topic = Topic { high: 7, low: 7 };

/// What an operation carries.
type Body = Vec<u8>;

/// Creates the operations of a single author's log, one after the other.
struct TestLog {
    author: VerifyingKey,
    next: u64,
    backlink: Option<OperationHash>,
}

impl TestLog {
    fn new(author: u128) -> Self {
        TestLog {
            author: VerifyingKey { high: 0, low: author },
            next: 0,
            backlink: None,
        }
    }

    fn operation(&mut self) -> Operation<Body> {
        let operation = operation(self.author, self.next, self.backlink);
        self.next += 1;
        self.backlink = Some(operation.hash);
        operation
    }
}

fn operation(
    author: VerifyingKey,
    seq_num: u64,
    backlink: Option<OperationHash>,
) -> Operation<Body> {
    Operation {
        hash: OperationHash {
            high: author.low,
            low: seq_num as u128 + 1000,
        },
        header: Header {
            verifying_key: author,
            seq_num,
            backlink,
        },
        content: Arc::new(format!("body {seq_num}").into_bytes()),
    }
}

/// The latest entry of a log which ends with this operation.
fn frontier(operation: &Operation<Body>) -> Frontier {
    Frontier {
        hash: operation.hash,
        header: operation.header,
    }
}

/// Database with transactions, which fails where it was told to.
#[derive(Default)]
struct TestStore {
    operations: Vec<(LogId, Operation<Body>)>,
    associations: Vec<(Topic, VerifyingKey, LogId)>,
    open: Option<(usize, usize)>,
    insert_failures: u32,
    commit_failures: u32,
    begin_error: Option<String>,
    slept: Vec<u64>,
    begun: u32,
}

impl TestStore {
    fn has(&self, hash: OperationHash) -> bool {
        self.operations.iter().any(|(_, op)| op.hash == hash)
    }

    fn latest(&self, author: VerifyingKey, log_id: LogId) -> Option<&Operation<Body>> {
        self.operations
            .iter()
            .filter(|(log, op)| *log == log_id && op.header.verifying_key == author)
            .map(|(_, op)| op)
            .max_by_key(|op| op.header.seq_num)
    }

    fn roll_back(&mut self) {
        if let Some((operations, associations)) = self.open.take() {
            self.operations.truncate(operations);
            self.associations.truncate(associations);
        }
    }

    fn validate_backlink(
        &self,
        operation: &Operation<Body>,
        log_id: LogId,
        prune_flag: bool,
    ) -> Result<(), String> {
        if prune_flag {
            return Ok(());
        }
        let header = operation.header;
        let valid = match self.latest(header.verifying_key, log_id) {
            Some(latest) => {
                header.seq_num == latest.header.seq_num + 1 && header.backlink == Some(latest.hash)
            }
            None => header.seq_num == 0 && header.backlink.is_none(),
        };
        if valid {
            Ok(())
        } else {
            Err("backlink does not match".to_string())
        }
    }

    fn perform(&mut self, action: Action<Body, Topic>, log_id: LogId) -> Reply<String> {
        match action {
            Action::Begin => {
                self.begun += 1;
                assert!(self.open.is_none());
                if let Some(message) = &self.begin_error {
                    return Reply::Begun(Err(message.clone()));
                }
                self.open = Some((self.operations.len(), self.associations.len()));
                Reply::Begun(Ok(()))
            }
            Action::HasOperation(hash) => Reply::Exists(Ok(self.has(hash))),
            Action::GetLatestEntry { author, log_id } => {
                Reply::Latest(Ok(self.latest(author, log_id).map(frontier)))
            }
            Action::ValidateBacklink {
                latest,
                operation,
                prune_flag,
            } => {
                assert_eq!(
                    latest,
                    self.latest(operation.header.verifying_key, log_id)
                        .map(frontier)
                );
                Reply::Backlink(self.validate_backlink(&operation, log_id, prune_flag))
            }
            Action::InsertOperation { operation, log_id } => {
                if self.insert_failures > 0 {
                    self.insert_failures -= 1;
                    return Reply::Inserted(Err("(code: 5) database is locked".to_string()));
                }
                self.operations.push((log_id, operation));
                Reply::Inserted(Ok(()))
            }
            Action::Associate {
                topic,
                author,
                log_id,
            } => {
                self.associations.push((topic, author, log_id));
                Reply::Associated(Ok(()))
            }
            Action::Commit => {
                if self.commit_failures > 0 {
                    self.commit_failures -= 1;
                    return Reply::Committed(Err("SQLITE_BUSY".to_string()));
                }
                self.open = None;
                Reply::Committed(Ok(()))
            }
        }
    }
}

fn drive(
    store: &mut TestStore,
    ooo: &mut OooBuffer<Body>,
    job: Ingestion<Body, Topic>,
    log_id: LogId,
) -> Result<IngestResult<Body>, IngestError<String>> {
    let mut job = job;
    loop {
        let reply = store.perform(job.action(), log_id);
        match job.advance(reply, ooo) {
            Step::Perform(next) => job = next,
            Step::Retry { job: next, millis } => {
                store.roll_back();
                store.slept.push(millis);
                job = next;
            }
            Step::Finished(result) => {
                store.roll_back();
                return result;
            }
        }
    }
}

fn ingest_into(
    store: &mut TestStore,
    ooo: Option<&mut OooBuffer<Body>>,
    operation: &Operation<Body>,
    log_id: LogId,
    topic: Topic,
    prune_flag: bool,
) -> Result<IngestResult<Body>, IngestError<String>> {
    let job = ingest_operation(
        operation.duplicate(),
        operation.hash,
        Ok(()),
        log_id,
        topic,
        prune_flag,
        ooo.is_some(),
    )?;
    let mut unused = OooBuffer::new();
    drive(store, ooo.unwrap_or(&mut unused), job, log_id)
}

fn ingest(
    store: &mut TestStore,
    ooo: Option<&mut OooBuffer<Body>>,
    operation: &Operation<Body>,
    prune_flag: bool,
) -> Result<IngestResult<Body>, IngestError<String>> {
    ingest_into(store, ooo, operation, LOG, TOPIC, prune_flag)
}

fn hashes(result: &IngestResult<Body>) -> Vec<OperationHash> {
    match result {
        IngestResult::Ordered(operations) => operations.iter().map(|op| op.hash).collect(),
        other => panic!("expected released operations, got {other:?}"),
    }
}

#[test]
fn valid_log() {
    let mut store = TestStore::default();
    let mut log = TestLog::new(1);

    for _ in 0..128 {
        let operation = log.operation();
        let result = ingest(&mut store, None, &operation, false);
        assert!(result.is_ok());
    }
}

#[test]
fn deduplicate_operations() {
    let mut store = TestStore::default();
    let operation = TestLog::new(1).operation();

    let result = ingest(&mut store, None, &operation, false).unwrap();
    assert!(matches!(result, IngestResult::Inserted));

    // Inserting duplicates is ok and are silently ignored.
    let result = ingest(&mut store, None, &operation, false).unwrap();
    assert!(matches!(result, IngestResult::AlreadyExists));
    assert_eq!(store.operations.len(), 1);
}

#[test]
fn topic_association() {
    let mut store = TestStore::default();

    let mut log_0 = TestLog::new(10);
    let mut log_1 = TestLog::new(11);
    let mut log_2 = TestLog::new(12);
    let id = |low: u128| LogId { high: 0, low };

    let dogs = Topic { high: 2, low: 2 };
    let cats = Topic { high: 3, low: 3 };

    for (log, log_id, topic, operations) in [
        (&mut log_0, id(0), dogs, 2),
        (&mut log_1, id(1), dogs, 1),
        (&mut log_2, id(2), cats, 3),
    ] {
        for _ in 0..operations {
            let operation = log.operation();
            ingest_into(&mut store, None, &operation, log_id, topic, false).unwrap();
        }
    }

    // Topic "dogs" contains two logs, "cats" the other one.
    let resolve = |topic: Topic| -> Vec<(VerifyingKey, LogId)> {
        let mut logs: Vec<(VerifyingKey, LogId)> = Vec::new();
        for (over, author, log_id) in &store.associations {
            if *over == topic && !logs.contains(&(*author, *log_id)) {
                logs.push((*author, *log_id));
            }
        }
        logs
    };
    assert_eq!(resolve(dogs), vec![(log_0.author, id(0)), (log_1.author, id(1))]);
    assert_eq!(resolve(cats), vec![(log_2.author, id(2))]);
    assert_eq!(store.latest(log_0.author, id(0)).unwrap().header.seq_num, 1);
    assert_eq!(store.latest(log_1.author, id(1)).unwrap().header.seq_num, 0);
    assert_eq!(store.latest(log_2.author, id(2)).unwrap().header.seq_num, 2);
}

#[test]
fn missing_prefix() {
    let mut store = TestStore::default();
    let author = VerifyingKey { high: 0, low: 1 };

    // We'll be missing 11 operations between the first and this one.
    let mock = OperationHash { high: 5, low: 5 };
    let operation = operation(author, 12, Some(mock));
    let result = ingest(&mut store, None, &operation, false);
    assert!(result.is_err());
    assert!(store.operations.is_empty());
}

#[test]
fn ignore_outdated_pruned_operations() {
    let mut store = TestStore::default();
    let author = VerifyingKey { high: 0, low: 1 };

    // Create an advanced operation in a log which assumes that all previous operations have been
    // pruned.
    let mock = OperationHash { high: 5, low: 5 };
    let advanced = operation(author, 1, Some(mock));
    assert!(ingest(&mut store, None, &advanced, true).is_ok());

    // Create an operation which is from an "outdated" seq from before the log was pruned.
    let outdated = operation(author, 0, None);
    let result = ingest(&mut store, None, &outdated, false);
    assert!(matches!(result, Err(IngestError::InvalidOperation(_))));
}

#[test]
fn ooo_operation_before_pruning_point() {
    let mut log = TestLog::new(1);
    let mut store = TestStore::default();
    let mut ooo = OooBuffer::with_capacity(32);

    let operation_0 = log.operation();
    let operation_1 = log.operation();

    // Ingest second operation in log which has a pruning point.
    let result = ingest(&mut store, Some(&mut ooo), &operation_1, true);
    assert!(matches!(result, Ok(IngestResult::Inserted)));

    // The next operation is "from the past" and already redundant due to pruning of the log before.
    let result = ingest(&mut store, Some(&mut ooo), &operation_0, false);
    assert!(matches!(result, Ok(IngestResult::Outdated)));
}

#[test]
fn ooo_operations() {
    let mut log = TestLog::new(1);
    let mut store = TestStore::default();
    let mut ooo = OooBuffer::with_capacity(32);

    let operation_0 = log.operation();
    let operation_1 = log.operation();
    let operation_2 = log.operation();

    // Both of these arrive with an empty store, no predecessor is known at all.
    let result = ingest(&mut store, Some(&mut ooo), &operation_1, false);
    assert_eq!(
        result,
        Ok(IngestResult::OutOfOrder {
            no_predecessor: true
        })
    );

    let result = ingest(&mut store, Some(&mut ooo), &operation_2, false);
    assert_eq!(
        result,
        Ok(IngestResult::OutOfOrder {
            no_predecessor: true
        })
    );

    let result = ingest(&mut store, Some(&mut ooo), &operation_0, false);
    assert_eq!(
        result,
        Ok(IngestResult::Ordered(vec![
            operation_0,
            operation_1,
            operation_2
        ]))
    );
    assert!(ooo.is_empty());
}

#[test]
fn ooo_operation_with_known_frontier_is_not_no_predecessor() {
    let mut log = TestLog::new(1);
    let mut store = TestStore::default();
    let mut ooo = OooBuffer::with_capacity(32);

    let operation_0 = log.operation();
    let operation_1 = log.operation();
    let operation_2 = log.operation();

    // A log's very first operation comes back as released.
    let result = ingest(&mut store, Some(&mut ooo), &operation_0, false);
    assert_eq!(result, Ok(IngestResult::Ordered(vec![operation_0.clone()])));

    // The frontier is known, so this is an ordinary gap.
    let result = ingest(&mut store, Some(&mut ooo), &operation_2, false);
    assert_eq!(
        result,
        Ok(IngestResult::OutOfOrder {
            no_predecessor: false
        })
    );

    let result = ingest(&mut store, Some(&mut ooo), &operation_1, false);
    assert_eq!(
        result,
        Ok(IngestResult::Ordered(vec![operation_1, operation_2]))
    );
}

#[test]
fn retries_single_transient_failure_and_inserts() {
    let mut store = TestStore {
        insert_failures: 1,
        ..TestStore::default()
    };
    let operation = TestLog::new(1).operation();

    let result = ingest(&mut store, None, &operation, false);
    assert!(matches!(result, Ok(IngestResult::Inserted)));
    assert!(store.has(operation.hash));
    assert_eq!(store.slept, vec![10]);
}

#[test]
fn gives_up_after_exhausting_retries() {
    let mut store = TestStore {
        insert_failures: 10,
        ..TestStore::default()
    };
    let operation = TestLog::new(1).operation();

    let result = ingest(&mut store, None, &operation, false);
    assert!(matches!(result, Err(IngestError::StoreError(_))));
    assert!(!store.has(operation.hash));
    assert_eq!(store.begun, 4);
    assert_eq!(store.slept, vec![10, 50, 250]);
}

#[test]
fn without_retry_a_single_transient_failure_is_dropped() {
    let mut store = TestStore {
        insert_failures: 1,
        ..TestStore::default()
    };
    let operation = TestLog::new(1).operation();

    let job = ingest_operation_attempt(
        operation.duplicate(),
        operation.hash,
        Ok::<(), String>(()),
        LOG,
        TOPIC,
        false,
        false,
    )
    .unwrap();
    let result = drive(&mut store, &mut OooBuffer::new(), job, LOG);
    assert!(matches!(result, Err(IngestError::StoreError(_))));
    assert!(!store.has(operation.hash));
}

#[test]
fn retry_recovers_full_release_batch_after_transient_commit_error() {
    let mut store = TestStore::default();
    let mut log = TestLog::new(1);
    let mut ooo = OooBuffer::new();

    let operation_0 = log.operation();
    let operation_1 = log.operation();
    let operation_2 = log.operation();
    let operation_3 = log.operation();

    // Establish the frontier.
    ingest(&mut store, Some(&mut ooo), &operation_0, false).unwrap();

    // Park two operations out of order.
    ingest(&mut store, Some(&mut ooo), &operation_2, false).unwrap();
    ingest(&mut store, Some(&mut ooo), &operation_3, false).unwrap();
    assert_eq!(ooo.len(), 2);

    // Deliver the trigger, the first commit attempt fails transiently.
    store.commit_failures = 1;
    let result = ingest(&mut store, Some(&mut ooo), &operation_1, false).unwrap();
    assert_eq!(
        hashes(&result),
        vec![operation_1.hash, operation_2.hash, operation_3.hash]
    );
    for operation in [&operation_1, &operation_2, &operation_3] {
        assert!(store.has(operation.hash));
    }
    assert_eq!(ooo.len(), 0);
}

#[test]
fn failed_release_loses_nothing() {
    let mut store = TestStore::default();
    let mut log = TestLog::new(1);
    let mut ooo = OooBuffer::new();

    let operation_0 = log.operation();
    let operation_1 = log.operation();
    let operation_2 = log.operation();
    ingest(&mut store, Some(&mut ooo), &operation_0, false).unwrap();
    ingest(&mut store, Some(&mut ooo), &operation_2, false).unwrap();

    // Every attempt to commit the release fails.
    store.commit_failures = 4;
    let result = ingest(&mut store, Some(&mut ooo), &operation_1, false);
    assert!(matches!(result, Err(IngestError::StoreError(_))));
    assert_eq!(ooo.len(), 1);
    assert!(!store.has(operation_1.hash));
    assert!(!store.has(operation_2.hash));

    // The same operation releases everything once the store recovered.
    let result = ingest(&mut store, Some(&mut ooo), &operation_1, false).unwrap();
    assert_eq!(hashes(&result), vec![operation_1.hash, operation_2.hash]);
    assert_eq!(ooo.len(), 0);
}

#[test]
fn critical_store_error_surfaces_at_once() {
    let mut store = TestStore {
        begin_error: Some("disk is full".to_string()),
        ..TestStore::default()
    };
    let operation = TestLog::new(1).operation();
    let error = ingest(&mut store, None, &operation, false).unwrap_err();
    assert_eq!(error.message(), "critical storage failure: disk is full");
    assert_eq!(store.begun, 1);
}

#[test]
fn hash_mismatch_is_rejected_before_anything_else() {
    let operation = TestLog::new(1).operation();
    let digest = OperationHash { high: 9, low: 9 };
    let result = ingest_operation(
        operation.duplicate(),
        digest,
        Err("broken".to_string()),
        LOG,
        TOPIC,
        false,
        true,
    );
    let error = result.unwrap_err();
    assert!(matches!(error, IngestError::HashMismatch));
    assert_eq!(
        error.message(),
        "hash associated with operation does not match header digest"
    );
}

#[test]
fn invalid_format_is_rejected() {
    let operation = TestLog::new(1).operation();
    let result = ingest_operation(
        operation.duplicate(),
        operation.hash,
        Err("broken".to_string()),
        LOG,
        TOPIC,
        false,
        true,
    );
    assert_eq!(result.unwrap_err().message(), "invalid operation: broken");
}

#[test]
fn validation_persists_nothing() {
    let mut store = TestStore::default();
    let mut log = TestLog::new(1);
    let operation_0 = log.operation();
    let operation_1 = log.operation();

    for (operation, valid) in [(&operation_0, true), (&operation_1, false)] {
        let mut job = validate_operation(
            operation.duplicate(),
            operation.hash,
            Ok::<(), String>(()),
            LOG,
            false,
        )
        .unwrap();
        assert_eq!(job.phase(), Phase::Begin);
        let result = loop {
            let reply = store.perform(job.action(), LOG);
            match job.advance(reply) {
                ValidationStep::Perform(next) => job = next,
                ValidationStep::Finished(result) => break result,
            }
        };
        store.roll_back();
        assert_eq!(result.is_ok(), valid);
    }
    assert!(store.operations.is_empty());
}

#[test]
fn preview_leaves_buffer_as_it_is() {
    let mut log = TestLog::new(1);
    let mut ooo = OooBuffer::new();
    let operation_0 = log.operation();
    let operation_1 = log.operation();
    let operation_2 = log.operation();

    let result = ooo.process(&operation_2, Some(frontier(&operation_0)), LOG, false);
    assert!(matches!(result, OooResult::OutOfOrder));
    assert_eq!(ooo.len(), 1);

    for _ in 0..2 {
        match ooo.process(&operation_1, Some(frontier(&operation_0)), LOG, false) {
            OooResult::Ordered(operations) => {
                assert_eq!(operations.len(), 2);
                assert_eq!(operations[0].hash, operation_1.hash);
                assert_eq!(operations[1].hash, operation_2.hash);
            }
            other => panic!("expected a release, got {other:?}"),
        }
        assert_eq!(ooo.len(), 1);
    }

    ooo.commit_release(&operation_1, Some(frontier(&operation_0)), LOG);
    assert!(ooo.is_empty());
    let result = ooo.process(&operation_1, Some(frontier(&operation_0)), LOG, false);
    assert!(matches!(result, OooResult::InOrder(_)));
}

#[test]
fn full_buffer_evicts_oldest_operation() {
    let mut log = TestLog::new(1);
    let mut ooo = OooBuffer::with_capacity(2);
    let operations: Vec<Operation<Body>> = (0..5).map(|_| log.operation()).collect();
    for seq_num in [2, 3, 4] {
        let result = ooo.process(&operations[seq_num], None, LOG, false);
        assert!(matches!(result, OooResult::OutOfOrder));
    }
    assert_eq!(ooo.len(), 2);

    // The evicted operation is missing in the chain.
    let result = ooo.process(&operations[1], Some(frontier(&operations[0])), LOG, false);
    assert!(matches!(result, OooResult::InOrder(_)));
    ooo.clear();
    assert!(ooo.is_empty());
}

#[test]
fn fork_is_left_to_the_log_check() {
    let mut log = TestLog::new(1);
    let mut store = TestStore::default();
    let mut ooo = OooBuffer::new();
    let operation_0 = log.operation();
    let operation_1 = log.operation();
    for operation in [&operation_0, &operation_1] {
        ingest(&mut store, Some(&mut ooo), operation, false).unwrap();
    }

    // Another operation at the height of the frontier, after the same predecessor.
    let mut fork = operation_1.duplicate();
    fork.hash = OperationHash { high: 8, low: 8 };
    match ooo.process(&fork, Some(frontier(&operation_1)), LOG, false) {
        OooResult::Ordered(operations) => assert_eq!(operations, vec![fork.duplicate()]),
        other => panic!("expected the fork, got {other:?}"),
    }
    let result = ingest(&mut store, Some(&mut ooo), &fork, false);
    assert!(matches!(result, Err(IngestError::InvalidOperation(_))));
    assert!(ooo.is_empty());

    // A second operation at the start of a log is in order as well.
    let mut fork = operation_0.duplicate();
    fork.hash = OperationHash { high: 9, low: 9 };
    let result = ooo.process(&fork, Some(frontier(&operation_0)), LOG, false);
    assert!(matches!(result, OooResult::InOrder(_)));
}

#[test]
fn fork_after_another_predecessor_is_parked() {
    let mut log = TestLog::new(1);
    let mut store = TestStore::default();
    let mut ooo = OooBuffer::new();
    let operation_0 = log.operation();
    let operation_1 = log.operation();
    for operation in [&operation_0, &operation_1] {
        ingest(&mut store, Some(&mut ooo), operation, false).unwrap();
    }
    let mut fork = operation(log.author, 1, Some(OperationHash { high: 8, low: 8 }));
    fork.hash = OperationHash { high: 9, low: 9 };
    let result = ingest(&mut store, Some(&mut ooo), &fork, false);
    assert_eq!(
        result,
        Ok(IngestResult::OutOfOrder {
            no_predecessor: false
        })
    );
    assert_eq!(ooo.len(), 1);
}

#[test]
fn chain_which_leads_back_is_released_as_it_is() {
    let mut ooo = OooBuffer::new();
    let author = VerifyingKey { high: 0, low: 1 };
    let latest = operation(author, 0, None);
    let next = operation(author, 1, Some(latest.hash));

    // It waits on the next operation and has its hash.
    let mut waiting = operation(author, 2, Some(next.hash));
    waiting.hash = next.hash;
    let result = ooo.process(&waiting, Some(frontier(&latest)), LOG, false);
    assert!(matches!(result, OooResult::OutOfOrder));
    match ooo.process(&next, Some(frontier(&latest)), LOG, false) {
        OooResult::Ordered(operations) => assert_eq!(operations, vec![next.clone(), waiting]),
        other => panic!("expected a release, got {other:?}"),
    }
}

#[test]
fn full_buffer_tells_what_it_evicts() {
    let mut log = TestLog::new(1);
    let mut other = TestLog::new(2);
    let mut ooo = OooBuffer::with_capacity(2);
    let operations: Vec<Operation<Body>> = (0..5).map(|_| log.operation()).collect();
    other.operation();
    let first = other.operation();
    let latest = Some(frontier(&operations[0]));

    for operation in [&first, &operations[3]] {
        assert_eq!(ooo.evicts(operation, None, false), None);
        ooo.process(operation, None, LOG, false);
    }
    let evicted = ooo.evicts(&operations[4], latest, false);
    assert_eq!(
        evicted,
        Some(AuthorLog {
            author: other.author,
            log_id: LOG
        })
    );

    // Nothing is buffered of a pruning point, of the next operation and of an outdated one.
    assert_eq!(ooo.evicts(&operations[4], latest, true), None);
    assert_eq!(ooo.evicts(&operations[1], latest, false), None);
    assert_eq!(ooo.evicts(&operations[0], Some(frontier(&operations[1])), false), None);

    ooo.process(&operations[4], latest, LOG, false);
    let evicted = ooo.evicts(&operations[2], latest, false);
    assert_eq!(
        evicted,
        Some(AuthorLog {
            author: log.author,
            log_id: LOG
        })
    );
}

#[test]
fn stale_buffered_operation_releases_nothing() {
    let mut log = TestLog::new(1);
    let mut store = TestStore::default();
    let mut ooo = OooBuffer::new();
    let operations: Vec<Operation<Body>> = (0..8).map(|_| log.operation()).collect();
    let parked = Ok(IngestResult::OutOfOrder {
        no_predecessor: false,
    });

    ingest(&mut store, Some(&mut ooo), &operations[0], false).unwrap();
    assert_eq!(ingest(&mut store, Some(&mut ooo), &operations[5], false), parked);
    let result = ingest(&mut store, Some(&mut ooo), &operations[4], true);
    assert_eq!(result, Ok(IngestResult::Inserted));

    // The operation arrives a second time, it is the next one now. Its first copy stays buffered.
    let result = ingest(&mut store, Some(&mut ooo), &operations[5], false);
    assert_eq!(result, Ok(IngestResult::Inserted));
    assert_eq!(ooo.len(), 1);

    // The one after the next is parked, whatever else is buffered.
    assert_eq!(ingest(&mut store, Some(&mut ooo), &operations[7], false), parked);
    assert_eq!(ooo.len(), 2);
    let result = ingest(&mut store, Some(&mut ooo), &operations[6], false).unwrap();
    assert_eq!(hashes(&result), vec![operations[6].hash, operations[7].hash]);
}

#[test]
fn gap_operation_completes_waiting_chain() {
    let mut log = TestLog::new(1);
    let mut ooo = OooBuffer::new();
    let operations: Vec<Operation<Body>> = (0..4).map(|_| log.operation()).collect();
    let latest = Some(frontier(&operations[0]));

    // The operation right behind the frontier was buffered before the frontier was known.
    let result = ooo.process(&operations[1], None, LOG, false);
    assert!(matches!(result, OooResult::OutOfOrder));

    // An operation which isn't linked to it is buffered as well.
    let result = ooo.process(&operations[3], latest, LOG, false);
    assert!(matches!(result, OooResult::OutOfOrder));
    assert_eq!(ooo.len(), 2);

    // The one in between makes it a whole.
    match ooo.process(&operations[2], latest, LOG, false) {
        OooResult::Ordered(released) => assert_eq!(released, operations[1..4].to_vec()),
        other => panic!("expected a release, got {other:?}"),
    }
    ooo.commit_release(&operations[2], latest, LOG);
    assert!(ooo.is_empty());
}

fn event(operation: &Operation<Body>, metadata: &str) -> Event<Body, Topic, String> {
    Event {
        operation: operation.duplicate(),
        args: IngestArgs {
            log_id: LOG,
            topic: TOPIC,
            prune_flag: false,
        },
        metadata: Arc::new(metadata.to_string()),
    }
}

fn process(
    store: &mut TestStore,
    ingest: &mut Ingest<Body, Topic, String>,
    input: Event<Body, Topic, String>,
) -> Option<ParkNotice> {
    let mut job = ingest
        .start(&input, input.operation.hash, Ok::<(), String>(()))
        .unwrap();
    let result = loop {
        let reply = store.perform(job.action(), LOG);
        match ingest.advance(job, reply) {
            Step::Perform(next) => job = next,
            Step::Retry { job: next, .. } => {
                store.roll_back();
                job = next;
            }
            Step::Finished(result) => break result,
        }
    };
    store.roll_back();
    if let Ok(IngestResult::Ordered(operations)) = &result {
        assert!(ingest.can_release(&input, operations));
    }
    ingest.process(input, result).unwrap()
}

#[test]
fn ingest_incoming_operations() {
    let mut log = TestLog::new(1);
    let mut store = TestStore::default();
    let mut ingest = Ingest::new();

    let operations: Vec<Operation<Body>> = (0..3).map(|_| log.operation()).collect();
    for operation in &operations {
        process(&mut store, &mut ingest, event(operation, ""));
    }
    for operation in &operations {
        let (event, _) = ingest.next().unwrap();
        assert_eq!(event.operation, *operation);
    }
    assert!(ingest.next().is_none());
}

#[test]
fn ingest_reorders_out_of_order_operations() {
    let mut log = TestLog::new(1);
    let mut store = TestStore::default();
    let mut ingest = Ingest::new();

    let operation_0 = log.operation();
    let operation_1 = log.operation();
    let operation_2 = log.operation();

    // Deliver 0, then 2 (out of order), then 1 (releases 1 and 2).
    process(&mut store, &mut ingest, event(&operation_0, "zero"));
    process(&mut store, &mut ingest, event(&operation_2, "two"));
    process(&mut store, &mut ingest, event(&operation_1, "one"));

    let (event, result) = ingest.next().unwrap();
    assert_eq!(event.operation, operation_0);
    assert!(matches!(result, IngestResult::Ordered(_)));

    let (event, result) = ingest.next().unwrap();
    assert_eq!(event.operation, operation_2);
    assert_eq!(
        result,
        IngestResult::OutOfOrder {
            no_predecessor: false
        }
    );

    let (event, result) = ingest.next().unwrap();
    assert_eq!(event.operation, operation_1);
    assert_eq!(*event.metadata, "one");
    assert!(matches!(result, IngestResult::Ordered(_)));

    // The released operation comes with its own metadata.
    let (event, result) = ingest.next().unwrap();
    assert_eq!(event.operation, operation_2);
    assert_eq!(*event.metadata, "two");
    assert!(matches!(result, IngestResult::Ordered(_)));
}

#[test]
fn every_release_becomes_events() {
    let mut log = TestLog::new(1);
    let mut store = TestStore::default();
    let mut ingest = Ingest::new();
    let operations: Vec<Operation<Body>> = (0..5).map(|_| log.operation()).collect();

    // Some are parked more than once, the metadata of the last time counts.
    for (seq_num, metadata) in [(3, "old"), (2, "two"), (4, "four"), (3, "three"), (1, "one")] {
        process(&mut store, &mut ingest, event(&operations[seq_num], metadata));
        let (event, _) = ingest.next().unwrap();
        assert_eq!(*event.metadata, metadata);
    }
    process(&mut store, &mut ingest, event(&operations[0], "zero"));
    for (seq_num, metadata) in ["zero", "one", "two", "three", "four"].iter().enumerate() {
        let (event, result) = ingest.next().unwrap();
        assert_eq!(event.operation, operations[seq_num]);
        assert_eq!(*event.metadata, *metadata);
        assert_eq!(event.args.topic, TOPIC);
        assert_eq!(result, IngestResult::Ordered(operations.clone()));
    }
    assert!(ingest.next().is_none());
}

#[test]
fn second_release_of_an_operation_finds_no_metadata() {
    let mut log = TestLog::new(1);
    let mut store = TestStore::default();
    let mut ingest = Ingest::new();
    let operation_0 = log.operation();
    let operation_1 = log.operation();
    let other_log = LogId { high: 0, low: 2 };

    // The same operation waits in two logs, the metadata of the last time is kept.
    process(&mut store, &mut ingest, event(&operation_1, "mine"));
    let mut again = event(&operation_1, "other");
    again.args.log_id = other_log;
    let job = ingest.start(&again, operation_1.hash, Ok::<(), String>(())).unwrap();
    let job = match ingest.advance(job, Reply::<String>::Begun(Ok(()))) {
        Step::Perform(job) => job,
        other => panic!("expected another action, got {other:?}"),
    };
    let job = match ingest.advance(job, Reply::<String>::Exists(Ok(false))) {
        Step::Perform(job) => job,
        other => panic!("expected another action, got {other:?}"),
    };
    let result = match ingest.advance(job, Reply::<String>::Latest(Ok(None))) {
        Step::Finished(result) => result,
        other => panic!("expected a result, got {other:?}"),
    };
    ingest.process(again, result).unwrap();

    // It is released with it once.
    process(&mut store, &mut ingest, event(&operation_0, "zero"));
    let metadata: Vec<String> = (0..4)
        .map(|_| (*ingest.next().unwrap().0.metadata).clone())
        .collect();
    assert_eq!(metadata, vec!["mine", "other", "zero", "other"]);
    let released = vec![operation_0.duplicate(), operation_1.duplicate()];
    assert!(!ingest.can_release(&event(&operation_0, ""), &released));
}

#[test]
fn known_gap_park_logs_once_until_released() {
    let mut log = TestLog::new(1);
    let mut store = TestStore::default();
    let mut ingest = Ingest::new();
    let operations: Vec<Operation<Body>> = (0..7).map(|_| log.operation()).collect();

    // Establish the frontier.
    assert_eq!(process(&mut store, &mut ingest, event(&operations[0], "")), None);

    // First park on a known gap must be told about.
    assert_eq!(
        process(&mut store, &mut ingest, event(&operations[2], "")),
        Some(ParkNotice::KnownGap {
            expected_seq_num: 1
        })
    );

    // A second park on the same still-open gap must not.
    assert_eq!(process(&mut store, &mut ingest, event(&operations[3], "")), None);

    // Release the chain, then insert in-order.
    assert_eq!(process(&mut store, &mut ingest, event(&operations[1], "")), None);
    assert_eq!(process(&mut store, &mut ingest, event(&operations[4], "")), None);

    // A later, separate stall on the same log must be told about again.
    assert_eq!(
        process(&mut store, &mut ingest, event(&operations[6], "")),
        Some(ParkNotice::KnownGap {
            expected_seq_num: 5
        })
    );
}

#[test]
fn park_without_predecessor_is_always_told() {
    let mut log = TestLog::new(1);
    let mut store = TestStore::default();
    let node_id = VerifyingKey { high: 1, low: 1 };
    let mut ingest = Ingest::new().with_node_id(node_id);
    assert_eq!(ingest.node_id(), Some(node_id));
    let operations: Vec<Operation<Body>> = (0..3).map(|_| log.operation()).collect();
    for seq_num in [1, 2] {
        assert_eq!(
            process(&mut store, &mut ingest, event(&operations[seq_num], "")),
            Some(ParkNotice::NoPredecessor)
        );
    }
}

#[test]
fn failed_ingestion_returns_its_input() {
    let operation = TestLog::new(1).operation();
    let mut ingest: Ingest<Body, Topic, String> = Ingest::new();
    let result = ingest.process(
        event(&operation, "mine"),
        Err(IngestError::<String>::HashMismatch),
    );
    let (event, error) = result.unwrap_err();
    assert_eq!(*event.metadata, "mine");
    assert!(matches!(error, IngestError::HashMismatch));
    assert!(ingest.next().is_none());
}

#[test]
fn unknown_release_is_recognised() {
    let mut log = TestLog::new(1);
    let operation_0 = log.operation();
    let operation_1 = log.operation();
    let ingest: Ingest<Body, Topic, String> = Ingest::new();
    let input = event(&operation_0, "");
    assert!(ingest.can_release(&input, &vec![operation_0.duplicate()]));
    assert!(!ingest.can_release(&input, &vec![operation_0.duplicate(), operation_1.duplicate()]));
    assert!(!ingest.can_release(&input, &vec![operation_0.duplicate(), operation_0.duplicate()]));
}
