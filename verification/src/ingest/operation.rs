//! Ingestion of single operations.
//!
//! [`ingest_operation`] and [`validate_operation`] start a job. A job names the next action against
//! the store, takes the store's reply and goes on from there until it is finished.

use crate::ingest::ooo::{drained, entry, placement, release, OooBuffer, OooResult, Placement};
use crate::ingest::ring::{pushed, RingEntry};
use crate::retry::{backoff_after, retries, retry_after, RETRY_ATTEMPTS};
use crate::types::{Frontier, LogId, Operation, OperationHash, VerifyingKey};
use vstd::prelude::*;

verus! {

/// What became of an ingested operation.
#[derive(Clone, Debug, PartialEq, Eq)]
pub enum IngestResult<E> {
    /// Validated and inserted operation into store.
    Inserted,

    /// Duplicate operation which was ignored.
    AlreadyExists,

    /// Operation freed buffered items which are now in-order.
    ///
    /// The incoming operation itself is also included in the array.
    Ordered(Vec<Operation<E>>),

    /// Out-of-order operation which was moved to internal buffer.
    OutOfOrder {
        /// `true` when this author's log had no known predecessor at all (the log's local frontier
        /// was unknown, and this isn't the log's own first operation), as opposed to the ordinary
        /// case of a known frontier with a specific gap to it.
        no_predecessor: bool,
    },

    /// Operation was from before a pruning point and was ignored.
    Outdated,
}

/// Errors which can occur due to invalid operations or critical storage failures.
///
/// `V` describes what is wrong with an invalid operation.
#[derive(Clone, Debug, PartialEq, Eq)]
pub enum IngestError<V> {
    /// Operation can not be authenticated, or has broken log- or payload integrity.
    InvalidOperation(V),

    /// Hash delivered with operation ("checksum") does not match digest of header.
    HashMismatch,

    /// Critical storage failure occurred. This is usually a reason to panic.
    StoreError(String),
}

impl IngestError<String> {
    /// Describes the error to humans.
    pub fn message(&self) -> (message: String)
        ensures
            message@ == match *self {
                IngestError::InvalidOperation(reason) => "invalid operation: "@ + reason@,
                IngestError::HashMismatch =>
                    "hash associated with operation does not match header digest"@,
                IngestError::StoreError(reason) => "critical storage failure: "@ + reason@,
            },
    {
        match self {
            IngestError::InvalidOperation(reason) => {
                "invalid operation: ".to_owned().concat(reason.as_str())
            },
            IngestError::HashMismatch => {
                "hash associated with operation does not match header digest".to_owned()
            },
            IngestError::StoreError(reason) => {
                "critical storage failure: ".to_owned().concat(reason.as_str())
            },
        }
    }
}

/// What the end of a job says.
pub enum Outcome<E, V> {
    Inserted,
    AlreadyExists,
    Ordered(Seq<Operation<E>>),
    OutOfOrder { no_predecessor: bool },
    Outdated,
    InvalidOperation(V),
    StoreError(Seq<char>),
}

/// The outcome which a result tells.
pub open spec fn outcome_of<E, V>(result: Result<IngestResult<E>, IngestError<V>>) -> Option<
    Outcome<E, V>,
> {
    match result {
        Ok(IngestResult::Inserted) => Some(Outcome::Inserted),
        Ok(IngestResult::AlreadyExists) => Some(Outcome::AlreadyExists),
        Ok(IngestResult::Ordered(operations)) => Some(Outcome::Ordered(operations@)),
        Ok(IngestResult::OutOfOrder { no_predecessor }) => Some(
            Outcome::OutOfOrder { no_predecessor },
        ),
        Ok(IngestResult::Outdated) => Some(Outcome::Outdated),
        Err(IngestError::InvalidOperation(reason)) => Some(Outcome::InvalidOperation(reason)),
        Err(IngestError::StoreError(message)) => Some(Outcome::StoreError(message@)),
        Err(IngestError::HashMismatch) => None,
    }
}

/// Where a job stands: the action it waits for.
#[derive(Clone, Copy, Debug, PartialEq, Eq, Structural)]
pub enum Phase {
    /// Begin a transaction.
    Begin,

    /// Deduplication.
    Dedup,

    /// Get log frontier for out-of-order buffering.
    Frontier,

    /// Get log frontier for the log integrity check.
    Latest,

    /// Log integrity check.
    Backlink,

    /// Write operation to database.
    Insert,

    /// Associate the operation's log with the topic.
    Associate,

    /// Commit the transaction.
    Commit,
}

/// What has to be done against the store.
#[derive(Debug)]
pub enum Action<E, TP> {
    /// Begin a transaction.
    Begin,

    /// Check inside of the transaction if an operation exists.
    HasOperation(OperationHash),

    /// Get the latest entry of a log, inside of the transaction.
    GetLatestEntry { author: VerifyingKey, log_id: LogId },

    /// Check that an operation continues its log, `latest` being the log's latest entry.
    ValidateBacklink { latest: Option<Frontier>, operation: Operation<E>, prune_flag: bool },

    /// Insert an operation.
    InsertOperation { operation: Operation<E>, log_id: LogId },

    /// Associate an author's log with a topic.
    Associate { topic: TP, author: VerifyingKey, log_id: LogId },

    /// Commit the transaction.
    Commit,
}

/// What came of an action. Store errors are given as text.
#[derive(Debug)]
pub enum Reply<V> {
    Begun(Result<(), String>),
    Exists(Result<bool, String>),
    Latest(Result<Option<Frontier>, String>),
    Backlink(Result<(), V>),
    Inserted(Result<(), String>),
    Associated(Result<(), String>),
    Committed(Result<(), String>),
}

/// Whether a reply belongs to the action a job waits for.
pub open spec fn answers<V>(reply: Reply<V>, phase: Phase) -> bool {
    match phase {
        Phase::Begin => reply is Begun,
        Phase::Dedup => reply is Exists,
        Phase::Frontier => reply is Latest,
        Phase::Latest => reply is Latest,
        Phase::Backlink => reply is Backlink,
        Phase::Insert => reply is Inserted,
        Phase::Associate => reply is Associated,
        Phase::Commit => reply is Committed,
    }
}

/// The store error which a reply reports.
pub open spec fn store_error<V>(reply: Reply<V>) -> Option<Seq<char>> {
    match reply {
        Reply::Begun(Err(message)) => Some(message@),
        Reply::Exists(Err(message)) => Some(message@),
        Reply::Latest(Err(message)) => Some(message@),
        Reply::Inserted(Err(message)) => Some(message@),
        Reply::Associated(Err(message)) => Some(message@),
        Reply::Committed(Err(message)) => Some(message@),
        _ => None,
    }
}

/// The state of an ingestion.
#[verifier::ext_equal]
pub struct Job<E, TP> {
    /// The incoming operation.
    pub operation: Operation<E>,
    pub log_id: LogId,

    /// The topic which the operation's log is associated with.
    pub topic: TP,
    pub prune_flag: bool,

    /// Whether an out-of-order buffer is used.
    pub buffered: bool,

    /// Number of the current attempt, counted from one.
    pub attempt: nat,
    pub phase: Phase,

    /// Log frontier which the out-of-order buffer was asked with.
    pub frontier: Option<Frontier>,

    /// Log frontier for the log integrity check of the next operation.
    pub latest: Option<Frontier>,

    /// The operations to insert.
    pub batch: Seq<Operation<E>>,

    /// Index of the next operation to insert.
    pub next: nat,

    /// Whether the batch was released from the out-of-order buffer.
    pub released: bool,
}

/// A job which starts with the given attempt.
pub open spec fn starting<E, TP>(
    operation: Operation<E>,
    log_id: LogId,
    topic: TP,
    prune_flag: bool,
    buffered: bool,
    attempt: nat,
) -> Job<E, TP> {
    Job {
        operation,
        log_id,
        topic,
        prune_flag,
        buffered,
        attempt,
        phase: Phase::Begin,
        frontier: None,
        latest: None,
        batch: seq![],
        next: 0,
        released: false,
    }
}

/// A job which goes on to check and insert a batch.
pub open spec fn inserting<E, TP>(
    job: Job<E, TP>,
    frontier: Option<Frontier>,
    batch: Seq<Operation<E>>,
    released: bool,
) -> Job<E, TP> {
    Job { phase: Phase::Latest, frontier, batch, next: 0, released, ..job }
}

/// How a job goes on.
pub enum Next<E, TP, V> {
    /// With another action.
    Perform(Job<E, TP>),

    /// With another attempt, after some milliseconds.
    Retry(Job<E, TP>, u64),

    /// It is finished.
    Finished(Outcome<E, V>),
}

/// How a job goes on after a store error.
pub open spec fn failing<E, TP, V>(job: Job<E, TP>, message: Seq<char>) -> Next<E, TP, V> {
    if retries(job.attempt, message) {
        Next::Retry(
            starting(
                job.operation,
                job.log_id,
                job.topic,
                job.prune_flag,
                job.buffered,
                job.attempt + 1,
            ),
            backoff_after(job.attempt),
        )
    } else {
        Next::Finished(Outcome::StoreError(message))
    }
}

/// How a job goes on once the out-of-order buffer was asked, `latest` being the log frontier.
pub open spec fn sorted<E, TP, V>(
    job: Job<E, TP>,
    latest: Option<Frontier>,
    ring: Seq<RingEntry<Operation<E>>>,
    capacity: nat,
) -> Next<E, TP, V> {
    let freed = release(ring, capacity, job.operation, latest, job.log_id);
    match placement(job.operation.header, latest, job.prune_flag) {
        Placement::PruningPoint => Next::Perform(
            inserting(job, latest, seq![job.operation], false),
        ),
        Placement::Outdated => Next::Finished(Outcome::Outdated),
        Placement::Next => {
            if freed.len() == 0 {
                Next::Perform(inserting(job, latest, seq![job.operation], false))
            } else {
                Next::Perform(inserting(job, latest, freed, true))
            }
        },
        Placement::Waiting(_) => {
            if freed.len() == 0 {
                Next::Finished(
                    Outcome::OutOfOrder {
                        no_predecessor: latest is None && job.operation.header.seq_num > 0,
                    },
                )
            } else {
                Next::Perform(inserting(job, latest, freed, true))
            }
        },
    }
}

/// How a job goes on after a reply.
pub open spec fn next<E, TP, V>(
    job: Job<E, TP>,
    reply: Reply<V>,
    ring: Seq<RingEntry<Operation<E>>>,
    capacity: nat,
) -> Next<E, TP, V> {
    match store_error(reply) {
        Some(message) => failing(job, message),
        None => match job.phase {
            Phase::Begin => Next::Perform(Job { phase: Phase::Dedup, ..job }),
            Phase::Dedup => {
                if reply == Reply::<V>::Exists(Ok(true)) {
                    Next::Finished(Outcome::AlreadyExists)
                } else if job.buffered {
                    Next::Perform(Job { phase: Phase::Frontier, ..job })
                } else {
                    Next::Perform(inserting(job, None, seq![job.operation], false))
                }
            },
            Phase::Frontier => sorted(job, reply->Latest_0->Ok_0, ring, capacity),
            Phase::Latest => Next::Perform(
                Job { phase: Phase::Backlink, latest: reply->Latest_0->Ok_0, ..job },
            ),
            Phase::Backlink => match reply {
                Reply::Backlink(Err(reason)) => Next::Finished(Outcome::InvalidOperation(reason)),
                _ => Next::Perform(Job { phase: Phase::Insert, ..job }),
            },
            Phase::Insert => Next::Perform(Job { phase: Phase::Associate, ..job }),
            Phase::Associate => {
                if job.next + 1 < job.batch.len() {
                    Next::Perform(Job { phase: Phase::Latest, next: job.next + 1, ..job })
                } else {
                    Next::Perform(Job { phase: Phase::Commit, ..job })
                }
            },
            Phase::Commit => {
                if job.released {
                    Next::Finished(Outcome::Ordered(job.batch))
                } else {
                    Next::Finished(Outcome::Inserted)
                }
            },
        },
    }
}

/// The out-of-order buffer after a reply.
///
/// It changes in two places only: an operation which has to wait is buffered, and released
/// operations leave the buffer once they were committed.
pub open spec fn next_ring<E, TP, V>(
    job: Job<E, TP>,
    reply: Reply<V>,
    ring: Seq<RingEntry<Operation<E>>>,
    capacity: nat,
) -> Seq<RingEntry<Operation<E>>> {
    if store_error(reply) is Some {
        ring
    } else if job.phase == Phase::Frontier && sorted::<E, TP, V>(
        job,
        reply->Latest_0->Ok_0,
        ring,
        capacity,
    ) matches Next::Finished(Outcome::OutOfOrder { .. }) {
        pushed(ring, capacity, entry(job.operation, job.log_id))
    } else if job.phase == Phase::Commit && job.released {
        drained(ring, capacity, job.operation, job.frontier, job.log_id)
    } else {
        ring
    }
}

/// Whether the state of a job makes sense.
pub open spec fn sensible<E, TP>(job: Job<E, TP>) -> bool {
    &&& 1 <= job.attempt <= RETRY_ATTEMPTS
    &&& match job.phase {
        Phase::Begin | Phase::Dedup | Phase::Frontier => true,
        _ => job.next < job.batch.len(),
    }
}

/// The action a job waits for.
pub open spec fn action_of<E, TP>(job: Job<E, TP>) -> Action<E, TP> {
    let operation = job.batch[job.next as int];
    let author = operation.header.verifying_key;
    let log_id = job.log_id;
    match job.phase {
        Phase::Begin => Action::Begin,
        Phase::Dedup => Action::HasOperation(job.operation.hash),
        Phase::Frontier => Action::GetLatestEntry {
            author: job.operation.header.verifying_key,
            log_id,
        },
        Phase::Latest => Action::GetLatestEntry { author, log_id },
        Phase::Backlink => Action::ValidateBacklink {
            latest: job.latest,
            operation,
            prune_flag: job.prune_flag,
        },
        Phase::Insert => Action::InsertOperation { operation, log_id },
        Phase::Associate => Action::Associate { topic: job.topic, author, log_id },
        Phase::Commit => Action::Commit,
    }
}

/// Ingestion of an operation, see [`ingest_operation`].
#[derive(Debug)]
pub struct Ingestion<E, TP> {
    operation: Operation<E>,
    log_id: LogId,
    topic: TP,
    prune_flag: bool,
    buffered: bool,
    attempt: usize,
    phase: Phase,
    frontier: Option<Frontier>,
    latest: Option<Frontier>,
    batch: Vec<Operation<E>>,
    next: usize,
    released: bool,
}

/// How an ingestion goes on.
#[derive(Debug)]
pub enum Step<E, TP, V> {
    /// Perform the next action.
    Perform(Ingestion<E, TP>),

    /// Give up the transaction, wait and start over.
    Retry { job: Ingestion<E, TP>, millis: u64 },

    /// The ingestion is finished. Give up the transaction if it wasn't committed.
    Finished(Result<IngestResult<E>, IngestError<V>>),
}

/// Whether a step is what comes next.
pub open spec fn steps<E, TP, V>(step: Step<E, TP, V>, next: Next<E, TP, V>) -> bool {
    match step {
        Step::Perform(job) => job.wf() && next == Next::<E, TP, V>::Perform(job@),
        Step::Retry { job, millis } => job.wf() && next == Next::<E, TP, V>::Retry(job@, millis),
        Step::Finished(result) => {
            &&& outcome_of(result) matches Some(outcome)
            &&& next == Next::<E, TP, V>::Finished(outcome)
        },
    }
}

/// Checks the parts of an operation which need no store: the hash delivered with it has to be the
/// digest of its header, and its format has to be valid.
fn check_format<E, V>(
    operation: &Operation<E>,
    header_digest: OperationHash,
    format: Result<(), V>,
) -> (result: Result<(), IngestError<V>>)
    ensures
        result == if operation.hash != header_digest {
            Err::<(), IngestError<V>>(IngestError::HashMismatch)
        } else {
            match format {
                Ok(()) => Ok(()),
                Err(reason) => Err(IngestError::InvalidOperation(reason)),
            }
        },
{
    if operation.hash != header_digest {
        return Err(IngestError::HashMismatch);
    }
    match format {
        Ok(()) => Ok(()),
        Err(reason) => Err(IngestError::InvalidOperation(reason)),
    }
}

/// Checks an incoming operation to ensure correct formatting and log integrity before persisting it
/// into the store when valid. Duplicate operations are ignored.
///
/// `header_digest` is the digest of the operation's header, `format` says whether its format is
/// valid. The operation's log is associated with `topic`. With `buffered` an [`OooBuffer`] offers a window for incoming operations to wait in memory
/// if they can't be validated yet due to missing predecessors.
///
/// The whole span from beginning a transaction to committing it is retried when the store reports a
/// transient error.
pub fn ingest_operation<E, TP, V>(
    operation: Operation<E>,
    header_digest: OperationHash,
    format: Result<(), V>,
    log_id: LogId,
    topic: TP,
    prune_flag: bool,
    buffered: bool,
) -> (result: Result<Ingestion<E, TP>, IngestError<V>>)
    ensures
        match result {
            Ok(job) => {
                &&& operation.hash == header_digest
                &&& format is Ok
                &&& job.wf()
                &&& job@ == starting(operation, log_id, topic, prune_flag, buffered, 1)
            },
            Err(error) => if operation.hash != header_digest {
                error == IngestError::<V>::HashMismatch
            } else {
                format matches Err(reason) && error == IngestError::InvalidOperation(reason)
            },
        },
{
    match check_format(&operation, header_digest, format) {
        Ok(()) => Ok(Ingestion::attempt(operation, log_id, topic, prune_flag, buffered, 1)),
        Err(error) => Err(error),
    }
}

/// Makes a single attempt to ingest an operation: any store error surfaces at once.
///
/// See [`ingest_operation`] for the arguments.
pub fn ingest_operation_attempt<E, TP, V>(
    operation: Operation<E>,
    header_digest: OperationHash,
    format: Result<(), V>,
    log_id: LogId,
    topic: TP,
    prune_flag: bool,
    buffered: bool,
) -> (result: Result<Ingestion<E, TP>, IngestError<V>>)
    ensures
        match result {
            Ok(job) => {
                &&& operation.hash == header_digest
                &&& format is Ok
                &&& job.wf()
                &&& job@ == starting(
                    operation,
                    log_id,
                    topic,
                    prune_flag,
                    buffered,
                    RETRY_ATTEMPTS as nat,
                )
            },
            Err(error) => if operation.hash != header_digest {
                error == IngestError::<V>::HashMismatch
            } else {
                format matches Err(reason) && error == IngestError::InvalidOperation(reason)
            },
        },
{
    match check_format(&operation, header_digest, format) {
        Ok(()) => Ok(
            Ingestion::attempt(operation, log_id, topic, prune_flag, buffered, RETRY_ATTEMPTS),
        ),
        Err(error) => Err(error),
    }
}

impl<E, TP> Ingestion<E, TP> {
    pub closed spec fn view(&self) -> Job<E, TP> {
        Job {
            operation: self.operation,
            log_id: self.log_id,
            topic: self.topic,
            prune_flag: self.prune_flag,
            buffered: self.buffered,
            attempt: self.attempt as nat,
            phase: self.phase,
            frontier: self.frontier,
            latest: self.latest,
            batch: self.batch@,
            next: self.next as nat,
            released: self.released,
        }
    }

    pub closed spec fn wf(&self) -> bool {
        sensible(self@)
    }

    /// Starts with an attempt.
    fn attempt(
        operation: Operation<E>,
        log_id: LogId,
        topic: TP,
        prune_flag: bool,
        buffered: bool,
        attempt: usize,
    ) -> (job: Self)
        requires
            1 <= attempt <= RETRY_ATTEMPTS,
        ensures
            job.wf(),
            job@ == starting(operation, log_id, topic, prune_flag, buffered, attempt as nat),
    {
        let job = Ingestion {
            operation,
            log_id,
            topic,
            prune_flag,
            buffered,
            attempt,
            phase: Phase::Begin,
            frontier: None,
            latest: None,
            batch: Vec::new(),
            next: 0,
            released: false,
        };
        assert(job@ =~= starting(operation, log_id, topic, prune_flag, buffered, attempt as nat));
        job
    }

    /// The action this ingestion waits for.
    pub fn action(&self) -> (action: Action<E, TP>) where TP: Copy
        requires
            self.wf(),
        ensures
            action == action_of(self@),
    {
        match self.phase {
            Phase::Begin => Action::Begin,
            Phase::Dedup => Action::HasOperation(self.operation.hash),
            Phase::Frontier => Action::GetLatestEntry {
                author: self.operation.header.verifying_key,
                log_id: self.log_id,
            },
            Phase::Latest => Action::GetLatestEntry {
                author: self.batch[self.next].header.verifying_key,
                log_id: self.log_id,
            },
            Phase::Backlink => Action::ValidateBacklink {
                latest: self.latest,
                operation: self.batch[self.next].duplicate(),
                prune_flag: self.prune_flag,
            },
            Phase::Insert => Action::InsertOperation {
                operation: self.batch[self.next].duplicate(),
                log_id: self.log_id,
            },
            Phase::Associate => Action::Associate {
                topic: self.topic,
                author: self.batch[self.next].header.verifying_key,
                log_id: self.log_id,
            },
            Phase::Commit => Action::Commit,
        }
    }

    /// The action this ingestion waits for.
    pub fn phase(&self) -> (phase: Phase)
        ensures
            phase == self@.phase,
    {
        self.phase
    }

    /// Goes on after a store error.
    fn fail<V>(self, message: String) -> (step: Step<E, TP, V>)
        requires
            self.wf(),
        ensures
            steps(step, failing::<E, TP, V>(self@, message@)),
    {
        match retry_after(self.attempt, message.as_str()) {
            Some(millis) => {
                let job = Ingestion::attempt(
                    self.operation,
                    self.log_id,
                    self.topic,
                    self.prune_flag,
                    self.buffered,
                    self.attempt + 1,
                );
                Step::Retry { job, millis }
            },
            None => Step::Finished(Err(IngestError::StoreError(message))),
        }
    }

    /// Goes on to check and insert a batch.
    fn insert(self, frontier: Option<Frontier>, batch: Vec<Operation<E>>, released: bool) -> (job: Self)
        requires
            self.wf(),
            batch@.len() > 0,
        ensures
            job.wf(),
            job@ == inserting(self@, frontier, batch@, released),
    {
        let job = Ingestion { phase: Phase::Latest, frontier, batch, next: 0, released, ..self };
        assert(job@ =~= inserting(self@, frontier, batch@, released));
        job
    }

    /// Goes on to check and insert the incoming operation alone.
    fn insert_single(self, frontier: Option<Frontier>) -> (job: Self)
        requires
            self.wf(),
        ensures
            job.wf(),
            job@ == inserting(self@, frontier, seq![self@.operation], false),
    {
        let mut batch: Vec<Operation<E>> = Vec::new();
        batch.push(self.operation.duplicate());
        assert(batch@ =~= seq![self@.operation]);
        self.insert(frontier, batch, false)
    }

    /// Asks the out-of-order buffer what to do with the operation, `latest` being the log frontier.
    fn sort<V>(self, latest: Option<Frontier>, ooo: &mut OooBuffer<E>) -> (step: Step<E, TP, V>)
        requires
            self.wf(),
            self@.phase == Phase::Frontier,
            old(ooo).wf(),
        ensures
            final(ooo).wf(),
            final(ooo).limit() == old(ooo).limit(),
            steps(step, sorted::<E, TP, V>(self@, latest, old(ooo)@, old(ooo).limit())),
            final(ooo)@ == next_ring(
                self@,
                Reply::<V>::Latest(Ok(latest)),
                old(ooo)@,
                old(ooo).limit(),
            ),
    {
        let released: Option<Vec<Operation<E>>> = match ooo.process(
            &self.operation,
            latest,
            self.log_id,
            self.prune_flag,
        ) {
            OooResult::InOrder(_) => None,
            OooResult::Ordered(operations) => Some(operations),
            OooResult::OutOfOrder => {
                // Nothing is known about any predecessor yet, or there's a specific gap to the log
                // frontier.
                let no_predecessor = latest.is_none() && self.operation.header.seq_num > 0;
                return Step::Finished(Ok(IngestResult::OutOfOrder { no_predecessor }));
            },
            OooResult::Outdated => {
                return Step::Finished(Ok(IngestResult::Outdated));
            },
        };
        match released {
            None => Step::Perform(self.insert_single(latest)),
            Some(operations) => Step::Perform(self.insert(latest, operations, true)),
        }
    }

    /// Goes on with what came of the action.
    ///
    /// The out-of-order buffer is not touched where the ingestion is not `buffered`.
    pub fn advance<V>(self, reply: Reply<V>, ooo: &mut OooBuffer<E>) -> (step: Step<E, TP, V>)
        requires
            self.wf(),
            answers(reply, self@.phase),
            old(ooo).wf(),
        ensures
            final(ooo).wf(),
            final(ooo).limit() == old(ooo).limit(),
            steps(step, next(self@, reply, old(ooo)@, old(ooo).limit())),
            final(ooo)@ == next_ring(self@, reply, old(ooo)@, old(ooo).limit()),
    {
        match reply {
            Reply::Begun(Ok(())) => Step::Perform(Ingestion { phase: Phase::Dedup, ..self }),
            Reply::Exists(Ok(already_exists)) => {
                // Ignore insertion if operation already exists.
                if already_exists {
                    return Step::Finished(Ok(IngestResult::AlreadyExists));
                }
                if self.buffered {
                    Step::Perform(Ingestion { phase: Phase::Frontier, ..self })
                } else {
                    // We don't handle out-of-order operations, continue to validate and insert if
                    // operation is in-order, otherwise reject it.
                    Step::Perform(self.insert_single(None))
                }
            },
            Reply::Latest(Ok(latest)) => {
                if self.phase == Phase::Frontier {
                    return self.sort(latest, ooo);
                }
                Step::Perform(Ingestion { phase: Phase::Backlink, latest, ..self })
            },
            Reply::Backlink(Ok(())) => Step::Perform(Ingestion { phase: Phase::Insert, ..self }),
            Reply::Backlink(Err(reason)) => {
                Step::Finished(Err(IngestError::InvalidOperation(reason)))
            },
            Reply::Inserted(Ok(())) => Step::Perform(Ingestion { phase: Phase::Associate, ..self }),
            Reply::Associated(Ok(())) => {
                if self.next < self.batch.len() - 1 {
                    Step::Perform(Ingestion { phase: Phase::Latest, next: self.next + 1, ..self })
                } else {
                    Step::Perform(Ingestion { phase: Phase::Commit, ..self })
                }
            },
            Reply::Committed(Ok(())) => {
                if self.released {
                    // The released operations are in the store, they can leave the buffer now. On
                    // any earlier error the buffer still holds them.
                    ooo.commit_release(&self.operation, self.frontier, self.log_id);
                    Step::Finished(Ok(IngestResult::Ordered(self.batch)))
                } else {
                    Step::Finished(Ok(IngestResult::Inserted))
                }
            },
            Reply::Begun(Err(message)) => self.fail(message),
            Reply::Exists(Err(message)) => self.fail(message),
            Reply::Latest(Err(message)) => self.fail(message),
            Reply::Inserted(Err(message)) => self.fail(message),
            Reply::Associated(Err(message)) => self.fail(message),
            Reply::Committed(Err(message)) => self.fail(message),
        }
    }
}

/// The state of a validation.
pub struct Check {
    pub author: VerifyingKey,
    pub log_id: LogId,
    pub phase: Phase,

    /// Log frontier for the log integrity check.
    pub latest: Option<Frontier>,
}

/// How a validation goes on.
pub enum CheckNext<V> {
    Perform(Check),
    Invalid(V),
    StoreError(Seq<char>),
    Valid,
}

/// How a validation goes on after a reply.
pub open spec fn next_check<V>(check: Check, reply: Reply<V>) -> CheckNext<V> {
    match store_error(reply) {
        Some(message) => CheckNext::StoreError(message),
        None => match check.phase {
            Phase::Begin => CheckNext::Perform(Check { phase: Phase::Latest, ..check }),
            Phase::Latest => CheckNext::Perform(
                Check { phase: Phase::Backlink, latest: reply->Latest_0->Ok_0, ..check },
            ),
            Phase::Backlink => match reply {
                Reply::Backlink(Err(reason)) => CheckNext::Invalid(reason),
                _ => CheckNext::Perform(Check { phase: Phase::Commit, ..check }),
            },
            _ => CheckNext::Valid,
        },
    }
}

/// Validation of an operation, see [`validate_operation`].
#[derive(Debug)]
pub struct Validation<E> {
    operation: Operation<E>,
    log_id: LogId,
    prune_flag: bool,
    phase: Phase,
    latest: Option<Frontier>,
}

/// How a validation goes on.
#[derive(Debug)]
pub enum ValidationStep<E, V> {
    /// Perform the next action.
    Perform(Validation<E>),

    /// The validation is finished. Give up the transaction if it wasn't committed.
    Finished(Result<(), IngestError<V>>),
}

/// Checks an incoming operation to ensure correct formatting and log integrity, without persisting
/// it.
///
/// `header_digest` is the digest of the operation's header, `format` says whether its format is
/// valid.
pub fn validate_operation<E, V>(
    operation: Operation<E>,
    header_digest: OperationHash,
    format: Result<(), V>,
    log_id: LogId,
    prune_flag: bool,
) -> (result: Result<Validation<E>, IngestError<V>>)
    ensures
        match result {
            Ok(check) => {
                &&& operation.hash == header_digest
                &&& format is Ok
                &&& check.wf()
                &&& check.operation() == operation
                &&& check.prune_flag() == prune_flag
                &&& check@ == (Check {
                    author: operation.header.verifying_key,
                    log_id,
                    phase: Phase::Begin,
                    latest: None,
                })
            },
            Err(error) => if operation.hash != header_digest {
                error == IngestError::<V>::HashMismatch
            } else {
                format matches Err(reason) && error == IngestError::InvalidOperation(reason)
            },
        },
{
    match check_format(&operation, header_digest, format) {
        Ok(()) => Ok(
            Validation { operation, log_id, prune_flag, phase: Phase::Begin, latest: None },
        ),
        Err(error) => Err(error),
    }
}

impl<E> Validation<E> {
    pub closed spec fn view(&self) -> Check {
        Check {
            author: self.operation.header.verifying_key,
            log_id: self.log_id,
            phase: self.phase,
            latest: self.latest,
        }
    }

    /// The operation which is validated.
    pub closed spec fn operation(&self) -> Operation<E> {
        self.operation
    }

    /// Whether the operation prunes its log.
    pub closed spec fn prune_flag(&self) -> bool {
        self.prune_flag
    }

    pub closed spec fn wf(&self) -> bool {
        self.phase == Phase::Begin || self.phase == Phase::Latest || self.phase == Phase::Backlink
            || self.phase == Phase::Commit
    }

    /// The action this validation waits for.
    pub fn action<TP>(&self) -> (action: Action<E, TP>)
        requires
            self.wf(),
        ensures
            action == match self@.phase {
                Phase::Begin => Action::<E, TP>::Begin,
                Phase::Latest => Action::GetLatestEntry {
                    author: self@.author,
                    log_id: self@.log_id,
                },
                Phase::Backlink => Action::ValidateBacklink {
                    latest: self@.latest,
                    operation: self.operation(),
                    prune_flag: self.prune_flag(),
                },
                _ => Action::Commit,
            },
    {
        match self.phase {
            Phase::Begin => Action::Begin,
            Phase::Latest => Action::GetLatestEntry {
                author: self.operation.header.verifying_key,
                log_id: self.log_id,
            },
            Phase::Backlink => Action::ValidateBacklink {
                latest: self.latest,
                operation: self.operation.duplicate(),
                prune_flag: self.prune_flag,
            },
            _ => Action::Commit,
        }
    }

    /// The phase this validation is in.
    pub fn phase(&self) -> (phase: Phase)
        ensures
            phase == self@.phase,
    {
        self.phase
    }

    /// Goes on with what came of the action.
    pub fn advance<V>(self, reply: Reply<V>) -> (step: ValidationStep<E, V>)
        requires
            self.wf(),
            answers(reply, self@.phase),
        ensures
            match next_check(self@, reply) {
                CheckNext::Perform(check) => {
                    &&& step matches ValidationStep::Perform(job)
                    &&& job.wf()
                    &&& job@ == check
                    &&& job.operation() == self.operation()
                    &&& job.prune_flag() == self.prune_flag()
                },
                CheckNext::Invalid(reason) => step == ValidationStep::<E, V>::Finished(
                    Err(IngestError::InvalidOperation(reason)),
                ),
                CheckNext::StoreError(message) => {
                    &&& step matches ValidationStep::Finished(Err(IngestError::StoreError(text)))
                    &&& text@ == message
                },
                CheckNext::Valid => step == ValidationStep::<E, V>::Finished(Ok(())),
            },
    {
        match reply {
            Reply::Begun(Ok(())) => {
                ValidationStep::Perform(Validation { phase: Phase::Latest, ..self })
            },
            Reply::Latest(Ok(latest)) => {
                ValidationStep::Perform(Validation { phase: Phase::Backlink, latest, ..self })
            },
            Reply::Backlink(Ok(())) => {
                ValidationStep::Perform(Validation { phase: Phase::Commit, ..self })
            },
            Reply::Backlink(Err(reason)) => {
                ValidationStep::Finished(Err(IngestError::InvalidOperation(reason)))
            },
            Reply::Begun(Err(message)) => {
                ValidationStep::Finished(Err(IngestError::StoreError(message)))
            },
            Reply::Exists(Err(message)) => {
                ValidationStep::Finished(Err(IngestError::StoreError(message)))
            },
            Reply::Latest(Err(message)) => {
                ValidationStep::Finished(Err(IngestError::StoreError(message)))
            },
            Reply::Inserted(Err(message)) => {
                ValidationStep::Finished(Err(IngestError::StoreError(message)))
            },
            Reply::Associated(Err(message)) => {
                ValidationStep::Finished(Err(IngestError::StoreError(message)))
            },
            Reply::Committed(Err(message)) => {
                ValidationStep::Finished(Err(IngestError::StoreError(message)))
            },
            _ => ValidationStep::Finished(Ok(())),
        }
    }
}

/// An author's log which is part of a topic.
pub struct Association<TP> {
    pub topic: TP,
    pub author: VerifyingKey,
    pub log_id: LogId,
}

/// What an open transaction holds.
#[verifier::ext_equal]
pub struct Open<E, TP> {
    pub inserted: Seq<Operation<E>>,
    pub associated: Seq<Association<TP>>,
}

/// A transaction which holds nothing.
pub open spec fn untouched<E, TP>() -> Open<E, TP> {
    Open { inserted: seq![], associated: seq![] }
}

/// What the open transaction holds after a successful action.
pub open spec fn performed<E, TP>(job: Job<E, TP>, open: Open<E, TP>) -> Open<E, TP> {
    match action_of(job) {
        Action::InsertOperation { operation, .. } => Open {
            inserted: open.inserted.push(operation),
            ..open
        },
        Action::Associate { topic, author, log_id } => Open {
            associated: open.associated.push(Association { topic, author, log_id }),
            ..open
        },
        _ => open,
    }
}

/// The associations which come with operations.
pub open spec fn associations<E, TP>(
    operations: Seq<Operation<E>>,
    topic: TP,
    log_id: LogId,
) -> Seq<Association<TP>> {
    operations.map_values(
        |operation: Operation<E>|
            Association { topic, author: operation.header.verifying_key, log_id },
    )
}

/// What a whole run of an ingestion amounts to.
pub struct Run<E, TP, V> {
    /// The operations which committed transactions wrote to the store, in order.
    pub stored: Seq<Operation<E>>,

    /// The associations which committed transactions made, in order.
    pub associated: Seq<Association<TP>>,

    /// The out-of-order buffer afterwards.
    pub ring: Seq<RingEntry<Operation<E>>>,

    /// How the ingestion ended, `None` if it was left unfinished.
    pub outcome: Option<Outcome<E, V>>,
}

/// Runs an ingestion against the replies of a store. `open` is what the open transaction holds so
/// far.
pub open spec fn run<E, TP, V>(
    job: Job<E, TP>,
    open: Open<E, TP>,
    replies: Seq<Reply<V>>,
    ring: Seq<RingEntry<Operation<E>>>,
    capacity: nat,
) -> Run<E, TP, V>
    decreases replies.len(),
{
    if replies.len() == 0 {
        Run { stored: seq![], associated: seq![], ring, outcome: None }
    } else {
        let reply = replies[0];
        let rest = replies.skip(1);
        match next(job, reply, ring, capacity) {
            Next::Perform(after) => {
                run(
                    after,
                    performed(job, open),
                    rest,
                    next_ring(job, reply, ring, capacity),
                    capacity,
                )
            },
            // The transaction was rolled back.
            Next::Retry(after, _) => run(
                after,
                untouched(),
                rest,
                next_ring(job, reply, ring, capacity),
                capacity,
            ),
            Next::Finished(outcome) => Run {
                stored: if job.phase == Phase::Commit && store_error(reply) is None {
                    open.inserted
                } else {
                    seq![]
                },
                associated: if job.phase == Phase::Commit && store_error(reply) is None {
                    open.associated
                } else {
                    seq![]
                },
                ring: next_ring(job, reply, ring, capacity),
                outcome: Some(outcome),
            },
        }
    }
}

/// Whether all replies belong to the actions which the ingestion asks for, one after the other.
pub open spec fn in_step<E, TP, V>(
    job: Job<E, TP>,
    replies: Seq<Reply<V>>,
    ring: Seq<RingEntry<Operation<E>>>,
    capacity: nat,
) -> bool
    decreases replies.len(),
{
    replies.len() == 0 || {
        &&& answers(replies[0], job.phase)
        &&& match next(job, replies[0], ring, capacity) {
            Next::Perform(after) => in_step(
                after,
                replies.skip(1),
                next_ring(job, replies[0], ring, capacity),
                capacity,
            ),
            Next::Retry(after, _) => in_step(
                after,
                replies.skip(1),
                next_ring(job, replies[0], ring, capacity),
                capacity,
            ),
            Next::Finished(_) => true,
        }
    }
}

/// A transaction which holds the first operations and associations of a job's batch.
spec fn holding<E, TP>(job: Job<E, TP>, inserted: nat, associated: nat) -> Open<E, TP> {
    Open {
        inserted: job.batch.take(inserted as int),
        associated: associations(job.batch, job.topic, job.log_id).take(associated as int),
    }
}

/// What the open transaction of a job holds.
spec fn on_track<E, TP>(
    job: Job<E, TP>,
    open: Open<E, TP>,
    ring: Seq<RingEntry<Operation<E>>>,
    capacity: nat,
) -> bool {
    match job.phase {
        Phase::Begin | Phase::Dedup | Phase::Frontier => open == untouched::<E, TP>(),
        _ => {
            &&& job.next < job.batch.len()
            &&& job.batch == if job.released {
                release(ring, capacity, job.operation, job.frontier, job.log_id)
            } else {
                seq![job.operation]
            }
            &&& match job.phase {
                Phase::Associate => open == holding(job, job.next + 1, job.next),
                Phase::Commit => open == holding(job, job.batch.len(), job.batch.len()),
                _ => open == holding(job, job.next, job.next),
            }
        },
    }
}

/// Whether `operations` is what the operation releases from `before` at some log frontier, at least
/// one of them, and `after` the buffer without them.
pub open spec fn released_from<E>(
    operations: Seq<Operation<E>>,
    after: Seq<RingEntry<Operation<E>>>,
    before: Seq<RingEntry<Operation<E>>>,
    capacity: nat,
    operation: Operation<E>,
    log_id: LogId,
) -> bool {
    operations.len() > 0 && exists|frontier: Option<Frontier>|
        {
            &&& operations == #[trigger] release(before, capacity, operation, frontier, log_id)
            &&& after == drained(before, capacity, operation, frontier, log_id)
        }
}

#[verifier::rlimit(40)]
proof fn lemma_run<E, TP, V>(
    job: Job<E, TP>,
    open: Open<E, TP>,
    replies: Seq<Reply<V>>,
    ring: Seq<RingEntry<Operation<E>>>,
    capacity: nat,
)
    requires
        on_track(job, open, ring, capacity),
        in_step(job, replies, ring, capacity),
    ensures
        ({
            let result = run(job, open, replies, ring, capacity);
            &&& result.stored == match result.outcome {
                Some(Outcome::Ordered(operations)) => operations,
                Some(Outcome::Inserted) => seq![job.operation],
                _ => seq![],
            }
            &&& result.associated == associations(result.stored, job.topic, job.log_id)
            &&& !(result.outcome matches Some(Outcome::Ordered(_))) && !(
            result.outcome matches Some(Outcome::OutOfOrder { .. })) ==> result.ring == ring
            &&& result.outcome matches Some(Outcome::OutOfOrder { .. }) ==> result.ring == pushed(
                ring,
                capacity,
                entry(job.operation, job.log_id),
            )
            &&& result.outcome matches Some(Outcome::Ordered(operations)) ==> released_from(
                operations,
                result.ring,
                ring,
                capacity,
                job.operation,
                job.log_id,
            )
        }),
    decreases replies.len(),
{
    if replies.len() > 0 {
        let reply = replies[0];
        let rest = replies.skip(1);
        let ring_after = next_ring(job, reply, ring, capacity);
        match next(job, reply, ring, capacity) {
            Next::Perform(after) => {
                let open_after = performed(job, open);
                if job.phase == Phase::Insert {
                    assert(open_after.inserted =~= job.batch.take(job.next as int + 1));
                }
                if job.phase == Phase::Associate {
                    assert(open_after.associated =~= associations(
                        job.batch,
                        job.topic,
                        job.log_id,
                    ).take(job.next as int + 1));
                }
                if after.phase == Phase::Latest && job.phase != Phase::Associate {
                    assert(open_after.inserted =~= after.batch.take(0));
                    assert(open_after.associated =~= associations(
                        after.batch,
                        after.topic,
                        after.log_id,
                    ).take(0));
                }
                lemma_run(after, open_after, rest, ring_after, capacity);
            },
            Next::Retry(after, _) => {
                lemma_run(after, untouched(), rest, ring_after, capacity);
            },
            Next::Finished(_) => {
                if job.phase == Phase::Commit && job.released && store_error(reply) is None {
                    assert(release(ring, capacity, job.operation, job.frontier, job.log_id)
                        == job.batch);
                }
                let all = associations(job.batch, job.topic, job.log_id);
                assert(job.batch.take(job.batch.len() as int) =~= job.batch);
                assert(all.take(job.batch.len() as int) =~= all);
                assert(associations(Seq::<Operation<E>>::empty(), job.topic, job.log_id)
                    =~= seq![]);
            },
        }
    }
}

/// An ingestion is all or nothing: what it reports as inserted or released is exactly what it wrote
/// to the store, in order, each operation's log is associated with the given topic, and whatever else
/// happens nothing is written.
pub proof fn law_ingestion_is_atomic<E, TP, V>(
    operation: Operation<E>,
    log_id: LogId,
    topic: TP,
    prune_flag: bool,
    buffered: bool,
    replies: Seq<Reply<V>>,
    ring: Seq<RingEntry<Operation<E>>>,
    capacity: nat,
)
    requires
        in_step(starting(operation, log_id, topic, prune_flag, buffered, 1), replies, ring, capacity),
    ensures
        ({
            let job = starting(operation, log_id, topic, prune_flag, buffered, 1);
            let result = run(job, untouched(), replies, ring, capacity);
            &&& result.stored == match result.outcome {
                Some(Outcome::Ordered(operations)) => operations,
                Some(Outcome::Inserted) => seq![operation],
                _ => seq![],
            }
            &&& result.associated == associations(result.stored, topic, log_id)
        }),
{
    let job = starting(operation, log_id, topic, prune_flag, buffered, 1);
    lemma_run(job, untouched(), replies, ring, capacity);
}

/// An ingestion which fails, or is given up, loses no buffered operation: however many attempts the
/// store let fail, the buffer is what it was before. Only an operation which has to wait is added to
/// it, and only released operations which were committed leave it.
pub proof fn law_failed_ingestion_keeps_buffer<E, TP, V>(
    operation: Operation<E>,
    log_id: LogId,
    topic: TP,
    prune_flag: bool,
    buffered: bool,
    replies: Seq<Reply<V>>,
    ring: Seq<RingEntry<Operation<E>>>,
    capacity: nat,
)
    requires
        in_step(starting(operation, log_id, topic, prune_flag, buffered, 1), replies, ring, capacity),
    ensures
        ({
            let job = starting(operation, log_id, topic, prune_flag, buffered, 1);
            let result = run(job, untouched(), replies, ring, capacity);
            match result.outcome {
                Some(Outcome::OutOfOrder { .. }) => result.ring == pushed(
                    ring,
                    capacity,
                    entry(operation, log_id),
                ),
                Some(Outcome::Ordered(operations)) => released_from(
                    operations,
                    result.ring,
                    ring,
                    capacity,
                    operation,
                    log_id,
                ),
                _ => result.ring == ring,
            }
        }),
{
    let job = starting(operation, log_id, topic, prune_flag, buffered, 1);
    lemma_run(job, untouched(), replies, ring, capacity);
}

/// The replies of a store which accepts a batch: for every operation of it the log frontier (one of
/// `latests`), a valid backlink, the insertion and the association, and the commit at last.
pub open spec fn accepting<V>(latests: Seq<Option<Frontier>>) -> Seq<Reply<V>>
    decreases latests.len(),
{
    if latests.len() == 0 {
        seq![Reply::Committed(Ok(()))]
    } else {
        seq![
            Reply::Latest(Ok(latests[0])),
            Reply::Backlink(Ok(())),
            Reply::Inserted(Ok(())),
            Reply::Associated(Ok(())),
        ] + accepting(latests.skip(1))
    }
}

proof fn lemma_accepted_batch<E, TP, V>(
    job: Job<E, TP>,
    latests: Seq<Option<Frontier>>,
    ring: Seq<RingEntry<Operation<E>>>,
    capacity: nat,
)
    requires
        job.phase == Phase::Latest,
        job.next < job.batch.len(),
        latests.len() == job.batch.len() - job.next,
    ensures
        run(
            job,
            holding(job, job.next, job.next),
            accepting::<V>(latests),
            ring,
            capacity,
        ) == (Run::<E, TP, V> {
            stored: job.batch,
            associated: associations(job.batch, job.topic, job.log_id),
            ring: if job.released {
                drained(ring, capacity, job.operation, job.frontier, job.log_id)
            } else {
                ring
            },
            outcome: Some(
                if job.released {
                    Outcome::Ordered(job.batch)
                } else {
                    Outcome::Inserted
                },
            ),
        }),
    decreases latests.len(),
{
    reveal_with_fuel(run, 6);
    let replies = accepting::<V>(latests);
    let open = holding(job, job.next, job.next);
    let inserted = holding(job, job.next + 1, job.next + 1);
    let rest = accepting::<V>(latests.skip(1));
    let all = associations(job.batch, job.topic, job.log_id);
    assert(replies.skip(1).skip(1).skip(1).skip(1) =~= rest);
    assert(open.inserted.push(job.batch[job.next as int]) =~= inserted.inserted);
    assert(open.associated.push(all[job.next as int]) =~= inserted.associated);
    assert(replies.skip(1)[0] == Reply::<V>::Backlink(Ok(())));
    assert(replies.skip(1).skip(1)[0] == Reply::<V>::Inserted(Ok(())));
    assert(replies.skip(1).skip(1).skip(1)[0] == Reply::<V>::Associated(Ok(())));
    let checked = Job { phase: Phase::Backlink, latest: latests[0], ..job };
    if latests.len() > 1 {
        let after = Job { phase: Phase::Latest, next: job.next + 1, ..checked };
        lemma_accepted_batch::<E, TP, V>(after, latests.skip(1), ring, capacity);
        assert(run(job, open, replies, ring, capacity) == run(after, inserted, rest, ring, capacity));
    } else {
        let after = Job { phase: Phase::Commit, ..checked };
        assert(inserted.inserted =~= job.batch);
        assert(inserted.associated =~= all);
        assert(rest =~= seq![Reply::<V>::Committed(Ok(()))]);
        assert(run(job, open, replies, ring, capacity) == run(after, inserted, rest, ring, capacity));
    }
}

/// Without an out-of-order buffer, a new operation which continues its log ends up in the store when
/// the store accepts it.
pub proof fn law_accepted_operation_is_inserted<E, TP, V>(
    operation: Operation<E>,
    log_id: LogId,
    topic: TP,
    prune_flag: bool,
    latest: Option<Frontier>,
    ring: Seq<RingEntry<Operation<E>>>,
    capacity: nat,
)
    ensures
        ({
            let job = starting(operation, log_id, topic, prune_flag, false, 1);
            let replies = seq![Reply::<V>::Begun(Ok(())), Reply::Exists(Ok(false))] + accepting(
                seq![latest],
            );
            run(job, untouched(), replies, ring, capacity) == (Run::<E, TP, V> {
                stored: seq![operation],
                associated: seq![
                    Association { topic, author: operation.header.verifying_key, log_id },
                ],
                ring,
                outcome: Some(Outcome::Inserted),
            })
        }),
{
    reveal_with_fuel(run, 3);
    let job = starting(operation, log_id, topic, prune_flag, false, 1);
    let tail = accepting::<V>(seq![latest]);
    let replies = seq![Reply::<V>::Begun(Ok(())), Reply::Exists(Ok(false))] + tail;
    assert(replies.skip(1)[0] == Reply::<V>::Exists(Ok(false)));
    assert(replies.skip(1).skip(1) =~= tail);
    let inserting_job = inserting(
        Job { phase: Phase::Dedup, ..job },
        None,
        seq![operation],
        false,
    );
    assert(holding(inserting_job, 0, 0) =~= untouched::<E, TP>());
    lemma_accepted_batch::<E, TP, V>(inserting_job, seq![latest], ring, capacity);
    assert(associations(seq![operation], topic, log_id) =~= seq![
        Association { topic, author: operation.header.verifying_key, log_id },
    ]);
}

/// With an out-of-order buffer, a new operation ends up in the store together with everything it
/// releases when the store accepts them: all of it is stored in the order of the log, and nothing of
/// it is left in the buffer.
pub proof fn law_accepted_release_is_stored<E, TP, V>(
    operation: Operation<E>,
    log_id: LogId,
    topic: TP,
    frontier: Option<Frontier>,
    latests: Seq<Option<Frontier>>,
    ring: Seq<RingEntry<Operation<E>>>,
    capacity: nat,
)
    requires
        release(ring, capacity, operation, frontier, log_id).len() > 0,
        latests.len() == release(ring, capacity, operation, frontier, log_id).len(),
    ensures
        ({
            let job = starting(operation, log_id, topic, false, true, 1);
            let released = release(ring, capacity, operation, frontier, log_id);
            let replies = seq![
                Reply::<V>::Begun(Ok(())),
                Reply::Exists(Ok(false)),
                Reply::Latest(Ok(frontier)),
            ] + accepting(latests);
            run(job, untouched(), replies, ring, capacity) == (Run::<E, TP, V> {
                stored: released,
                associated: associations(released, topic, log_id),
                ring: drained(ring, capacity, operation, frontier, log_id),
                outcome: Some(Outcome::Ordered(released)),
            })
        }),
{
    reveal_with_fuel(run, 4);
    let job = starting(operation, log_id, topic, false, true, 1);
    let released = release(ring, capacity, operation, frontier, log_id);
    let tail = accepting::<V>(latests);
    let replies = seq![
        Reply::<V>::Begun(Ok(())),
        Reply::Exists(Ok(false)),
        Reply::Latest(Ok(frontier)),
    ] + tail;
    assert(replies.skip(1)[0] == Reply::<V>::Exists(Ok(false)));
    assert(replies.skip(1).skip(1)[0] == Reply::<V>::Latest(Ok(frontier)));
    assert(replies.skip(1).skip(1).skip(1) =~= tail);
    let inserting_job = inserting(
        Job { phase: Phase::Frontier, ..job },
        frontier,
        released,
        true,
    );
    assert(holding(inserting_job, 0, 0) =~= untouched::<E, TP>());
    lemma_accepted_batch::<E, TP, V>(inserting_job, latests, ring, capacity);
}

/// A retried attempt finds the identical release: where an attempt failed after the buffer was
/// asked, the next attempt with the same log frontier goes on with the same operations.
pub proof fn law_retry_finds_same_release<E, TP, V>(
    job: Job<E, TP>,
    latest: Option<Frontier>,
    message: Seq<char>,
    ring: Seq<RingEntry<Operation<E>>>,
    capacity: nat,
)
    requires
        job.phase == Phase::Frontier,
        retries(job.attempt, message),
    ensures
        failing::<E, TP, V>(job, message) matches Next::Retry(again, _) && {
            let asked = Job { phase: Phase::Frontier, ..again };
            match (
                sorted::<E, TP, V>(job, latest, ring, capacity),
                sorted::<E, TP, V>(asked, latest, ring, capacity),
            ) {
                (Next::Perform(first), Next::Perform(second)) => first.batch == second.batch
                    && first.released == second.released && first.frontier == second.frontier,
                (Next::Finished(first), Next::Finished(second)) => first == second,
                _ => false,
            }
        },
{
}

/// A duplicate is recognised before anything else is looked at: nothing is written, nothing is
/// buffered.
pub proof fn law_duplicates_are_ignored<E, TP, V>(
    job: Job<E, TP>,
    ring: Seq<RingEntry<Operation<E>>>,
    capacity: nat,
)
    requires
        job.phase == Phase::Dedup,
    ensures
        next(job, Reply::<V>::Exists(Ok(true)), ring, capacity) == Next::<E, TP, V>::Finished(
            Outcome::AlreadyExists,
        ),
        next_ring(job, Reply::<V>::Exists(Ok(true)), ring, capacity) == ring,
{
}

/// There are at most four attempts, however often the store fails: an attempt which fails with a
/// transient error is followed by the next one, any other reply stays within the current attempt.
pub proof fn law_attempts_are_bounded<E, TP, V>(
    job: Job<E, TP>,
    reply: Reply<V>,
    ring: Seq<RingEntry<Operation<E>>>,
    capacity: nat,
)
    requires
        sensible(job),
    ensures
        match next(job, reply, ring, capacity) {
            Next::Perform(after) => after.attempt == job.attempt,
            Next::Retry(again, millis) => {
                &&& again.attempt == job.attempt + 1
                &&& again.attempt <= RETRY_ATTEMPTS
                &&& again == starting(
                    job.operation,
                    job.log_id,
                    job.topic,
                    job.prune_flag,
                    job.buffered,
                    again.attempt,
                )
                &&& millis == backoff_after(job.attempt)
            },
            Next::Finished(_) => true,
        },
{
}

} // verus!
