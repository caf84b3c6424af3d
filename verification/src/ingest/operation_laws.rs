//! What the ingestion of an operation promises.
//!
//! Every law here speaks of calls, of their arguments and of what they return, or of a whole ingestion
//! against a store.

use crate::ingest::ooo::{OooBuffer, OooResult};
use crate::ingest::operation::{
    action_of, answers, ingest_operation, ingest_operation_attempt, next, next_ring,
    validate_operation, Action, IngestError, IngestResult, Ingestion, Job, Next, Outcome, Phase,
    Reply, Step, Validation, ValidationStep,
};
use crate::ingest::ring::RingEntry;
use crate::retry::retry_after;
use crate::types::{Frontier, LogId, Operation, OperationHash, VerifyingKey};
use vstd::prelude::*;

verus! {

/// An operation is rejected without looking at any store where its hash isn't the digest of its header
/// or its format is invalid, in this order. Otherwise its ingestion starts with the arguments it was
/// given, and with the first of four attempts.
pub proof fn law_ingestion_starts_with_its_arguments<E, TP, V>(
    operation: Operation<E>,
    header_digest: OperationHash,
    format: Result<(), V>,
    log_id: LogId,
    topic: TP,
    prune_flag: bool,
    buffered: bool,
    result: Result<Ingestion<E, TP>, IngestError<V>>,
)
    requires
        call_ensures(
            ingest_operation::<E, TP, V>,
            (operation, header_digest, format, log_id, topic, prune_flag, buffered),
            result,
        ),
    ensures
        operation.hash != header_digest ==> (result matches Err(error) && error is HashMismatch),
        operation.hash == header_digest ==> (format matches Err(reason) ==> result == Err::<
            Ingestion<E, TP>,
            IngestError<V>,
        >(IngestError::InvalidOperation(reason))),
        operation.hash == header_digest && format is Ok ==> (result matches Ok(job) && {
            &&& job.wf()
            &&& job@.operation == operation
            &&& job@.log_id == log_id
            &&& job@.topic == topic
            &&& job@.prune_flag == prune_flag
            &&& job@.buffered == buffered
            &&& job@.attempt == 1
            &&& job@.phase is Begin
        }),
{
}

/// A single attempt is the last one of four, and otherwise no different.
pub proof fn law_single_attempt_is_the_last<E, TP, V>(
    operation: Operation<E>,
    header_digest: OperationHash,
    format: Result<(), V>,
    log_id: LogId,
    topic: TP,
    prune_flag: bool,
    buffered: bool,
    result: Result<Ingestion<E, TP>, IngestError<V>>,
)
    requires
        call_ensures(
            ingest_operation_attempt::<E, TP, V>,
            (operation, header_digest, format, log_id, topic, prune_flag, buffered),
            result,
        ),
    ensures
        operation.hash != header_digest ==> (result matches Err(error) && error is HashMismatch),
        operation.hash == header_digest ==> (format matches Err(reason) ==> result == Err::<
            Ingestion<E, TP>,
            IngestError<V>,
        >(IngestError::InvalidOperation(reason))),
        operation.hash == header_digest && format is Ok ==> (result matches Ok(job) && {
            &&& job.wf()
            &&& job@.operation == operation
            &&& job@.log_id == log_id
            &&& job@.topic == topic
            &&& job@.prune_flag == prune_flag
            &&& job@.buffered == buffered
            &&& job@.attempt == 4
            &&& job@.phase is Begin
        }),
{
}

/// What the store is asked for is about the operation at hand: whether the incoming operation's own
/// hash is known, the latest entry of its author's log, its backlink, and then it is this operation
/// which is inserted into its log and whose author's log is associated with the topic.
pub proof fn law_store_is_asked_about_the_operation<E, TP: Copy>(
    job: &Ingestion<E, TP>,
    action: Action<E, TP>,
)
    requires
        call_ensures(Ingestion::<E, TP>::action, (job,), action),
    ensures
        job@.phase is Begin ==> action is Begin,
        job@.phase is Dedup ==> action == (Action::<E, TP>::HasOperation(job@.operation.hash)),
        job@.phase is Frontier ==> action == (Action::<E, TP>::GetLatestEntry {
            author: job@.operation.header.verifying_key,
            log_id: job@.log_id,
        }),
        job@.phase is Latest ==> action == (Action::<E, TP>::GetLatestEntry {
            author: job@.batch[job@.next as int].header.verifying_key,
            log_id: job@.log_id,
        }),
        job@.phase is Backlink ==> action == (Action::<E, TP>::ValidateBacklink {
            latest: job@.latest,
            operation: job@.batch[job@.next as int],
            prune_flag: job@.prune_flag,
        }),
        job@.phase is Insert ==> action == (Action::<E, TP>::InsertOperation {
            operation: job@.batch[job@.next as int],
            log_id: job@.log_id,
        }),
        job@.phase is Associate ==> action == (Action::<E, TP>::Associate {
            topic: job@.topic,
            author: job@.batch[job@.next as int].header.verifying_key,
            log_id: job@.log_id,
        }),
        job@.phase is Commit ==> action is Commit,
{
}

/// A known operation ends the ingestion at once. An unknown one goes on to the out-of-order buffer
/// where there is one, else it is checked and inserted alone. The buffer stays as it is.
pub proof fn law_only_unknown_operation_goes_on<E, TP, V>(
    job: Ingestion<E, TP>,
    known: bool,
    ooo: &mut OooBuffer<E>,
    step: Step<E, TP, V>,
)
    requires
        job@.phase is Dedup,
        call_ensures(
            Ingestion::<E, TP>::advance::<V>,
            (job, Reply::<V>::Exists(Ok(known)), ooo),
            step,
        ),
    ensures
        final(ooo)@ == old(ooo)@,
        known ==> (step matches Step::Finished(Ok(result)) && result is AlreadyExists),
        !known ==> (step matches Step::Perform(after) && {
            &&& after@ == (Job {
                phase: after@.phase,
                frontier: after@.frontier,
                batch: after@.batch,
                next: after@.next,
                released: after@.released,
                ..job@
            })
            &&& job@.buffered ==> after@.phase is Frontier
            &&& !job@.buffered ==> after@.phase is Latest && after@.batch == seq![job@.operation]
                && after@.next == 0 && !after@.released
        }),
{
}

/// A transaction which began leads to deduplication, with nothing else changed.
pub proof fn law_transaction_begins_with_dedup<E, TP, V>(
    job: Ingestion<E, TP>,
    ooo: &mut OooBuffer<E>,
    step: Step<E, TP, V>,
)
    requires
        job@.phase is Begin,
        call_ensures(
            Ingestion::<E, TP>::advance::<V>,
            (job, Reply::<V>::Begun(Ok(())), ooo),
            step,
        ),
    ensures
        final(ooo)@ == old(ooo)@,
        step matches Step::Perform(after) && after@ == (Job { phase: Phase::Dedup, ..job@ }),
{
}

/// An ingestion does what the out-of-order buffer says of its operation, asked with the log frontier
/// which the store has told: an operation which is in order is inserted alone, a release as a whole,
/// one which has to wait or is outdated ends the ingestion. The buffer changes as it does when it is
/// asked.
pub proof fn law_ingestion_follows_the_buffer<'a, E, TP, V>(
    job: Ingestion<E, TP>,
    latest: Option<Frontier>,
    asked: &mut OooBuffer<E>,
    answer: OooResult<'a, E>,
    operation: &'a Operation<E>,
    ooo: &mut OooBuffer<E>,
    step: Step<E, TP, V>,
)
    requires
        job@.phase is Frontier,
        *operation == job@.operation,
        old(ooo).wf(),
        *old(asked) == *old(ooo),
        call_ensures(
            OooBuffer::<E>::process,
            (asked, operation, latest, job@.log_id, job@.prune_flag),
            answer,
        ),
        call_ensures(
            Ingestion::<E, TP>::advance::<V>,
            (job, Reply::<V>::Latest(Ok(latest)), ooo),
            step,
        ),
    ensures
        final(ooo)@ == final(asked)@,
        answer is InOrder ==> (step matches Step::Perform(after) && {
            &&& after@.phase is Latest
            &&& after@.batch == seq![job@.operation]
            &&& after@.next == 0
            &&& !after@.released
        }),
        answer matches OooResult::Ordered(operations) ==> (step matches Step::Perform(after) && {
            &&& after@.phase is Latest
            &&& after@.batch == operations@
            &&& after@.next == 0
            &&& after@.released
            &&& after@.frontier == latest
        }),
        step matches Step::Perform(after) ==> after@ == (Job {
            phase: after@.phase,
            frontier: after@.frontier,
            batch: after@.batch,
            next: after@.next,
            released: after@.released,
            ..job@
        }),
        answer is OutOfOrder ==> (step matches Step::Finished(
            Ok(IngestResult::OutOfOrder { no_predecessor }),
        ) && no_predecessor == (latest is None && job@.operation.header.seq_num > 0)),
        answer is Outdated ==> (step matches Step::Finished(Ok(result)) && result is Outdated),
{
    old(ooo).law_buffer_invariant();
}

/// Every operation of a batch is checked against the latest entry of its log before it is inserted,
/// and its log is associated before the next one is looked at. An operation which fails the check ends
/// the ingestion with the reason. After the last one the transaction is committed.
pub proof fn law_batch_is_checked_and_inserted_in_order<E, TP, V>(
    job: Ingestion<E, TP>,
    reply: Reply<V>,
    ooo: &mut OooBuffer<E>,
    step: Step<E, TP, V>,
)
    requires
        answers(reply, job@.phase),
        call_ensures(Ingestion::<E, TP>::advance::<V>, (job, reply, ooo), step),
    ensures
        job@.phase is Latest || job@.phase is Backlink || job@.phase is Insert
            || job@.phase is Associate ==> final(ooo)@ == old(ooo)@,
        job@.phase is Latest ==> (reply matches Reply::Latest(Ok(latest)) ==> (
        step matches Step::Perform(after) && after@ == (Job {
            phase: Phase::Backlink,
            latest,
            ..job@
        }))),
        job@.phase is Backlink ==> (reply matches Reply::Backlink(Ok(())) ==> (
        step matches Step::Perform(after) && after@ == (Job { phase: Phase::Insert, ..job@ }))),
        reply matches Reply::Backlink(Err(reason)) ==> (step matches Step::Finished(
            Err(IngestError::InvalidOperation(told)),
        ) && told == reason),
        job@.phase is Insert ==> (reply matches Reply::Inserted(Ok(())) ==> (
        step matches Step::Perform(after) && after@ == (Job { phase: Phase::Associate, ..job@ }))),
        job@.phase is Associate && reply == (Reply::<V>::Associated(Ok(()))) && job@.next + 1
            < job@.batch.len() ==> (step matches Step::Perform(after) && after@ == (Job {
            phase: Phase::Latest,
            next: job@.next + 1,
            ..job@
        })),
        job@.phase is Associate && reply == (Reply::<V>::Associated(Ok(()))) && job@.next + 1
            >= job@.batch.len() ==> (step matches Step::Perform(after) && after@ == (Job {
            phase: Phase::Commit,
            ..job@
        })),
{
}

/// A committed batch is what the ingestion reports: all released operations in their order, and they
/// have left the buffer as they do when their release is committed, or that the incoming operation was
/// inserted, and the buffer is what it was.
pub proof fn law_commit_is_reported<E, TP, V>(
    job: Ingestion<E, TP>,
    operation: &Operation<E>,
    committed: &mut OooBuffer<E>,
    ooo: &mut OooBuffer<E>,
    step: Step<E, TP, V>,
)
    requires
        job@.phase is Commit,
        *operation == job@.operation,
        *old(committed) == *old(ooo),
        call_ensures(
            OooBuffer::<E>::commit_release,
            (committed, operation, job@.frontier, job@.log_id),
            (),
        ),
        call_ensures(
            Ingestion::<E, TP>::advance::<V>,
            (job, Reply::<V>::Committed(Ok(())), ooo),
            step,
        ),
    ensures
        job@.released ==> {
            &&& step matches Step::Finished(Ok(IngestResult::Ordered(operations)))
            &&& operations@ == job@.batch
            &&& final(ooo)@ == final(committed)@
        },
        !job@.released ==> {
            &&& step matches Step::Finished(Ok(result))
            &&& result is Inserted
            &&& final(ooo)@ == old(ooo)@
        },
{
}

/// Whatever the store fails at, nothing of the buffer is lost, and whether the ingestion starts over
/// depends on the error and the number of the attempt alone: it starts over with the same arguments
/// after the backoff, or ends with the error's own words.
pub proof fn law_store_error_is_retried_or_surfaces<E, TP, V>(
    job: Ingestion<E, TP>,
    message: String,
    text: &str,
    reply: Reply<V>,
    attempt: usize,
    millis: Option<u64>,
    ooo: &mut OooBuffer<E>,
    step: Step<E, TP, V>,
)
    requires
        reply == (Reply::<V>::Begun(Err(message))) || reply == (Reply::<V>::Exists(Err(message)))
            || reply == (Reply::<V>::Latest(Err(message))) || reply == (Reply::<V>::Inserted(
            Err(message),
        )) || reply == (Reply::<V>::Associated(Err(message))) || reply == (Reply::<V>::Committed(
            Err(message),
        )),
        attempt == job@.attempt,
        text@ == message@,
        call_ensures(retry_after, (attempt, text), millis),
        call_ensures(Ingestion::<E, TP>::advance::<V>, (job, reply, ooo), step),
    ensures
        final(ooo)@ == old(ooo)@,
        millis matches Some(wait) ==> (step matches Step::Retry { job: again, millis: told } && {
            &&& told == wait
            &&& again.wf()
            &&& again@.operation == job@.operation
            &&& again@.log_id == job@.log_id
            &&& again@.topic == job@.topic
            &&& again@.prune_flag == job@.prune_flag
            &&& again@.buffered == job@.buffered
            &&& again@.attempt == job@.attempt + 1
            &&& again@.phase is Begin
        }),
        millis is None ==> (step matches Step::Finished(Err(IngestError::StoreError(told)))
            && told@ == message@),
{
}

/// Errors are described by their reasons.
pub proof fn law_ingest_errors_are_described(error: &IngestError<String>, message: String)
    requires
        call_ensures(IngestError::<String>::message, (error,), message),
    ensures
        *error matches IngestError::InvalidOperation(reason) ==> message@ == "invalid operation: "@
            + reason@,
        *error is HashMismatch ==> message@
            == "hash associated with operation does not match header digest"@,
        *error matches IngestError::StoreError(reason) ==> message@ == "critical storage failure: "@
            + reason@,
{
}

/// The phase which is told is the one the action belongs to.
pub proof fn law_phase_names_the_action<E, TP: Copy>(
    job: &Ingestion<E, TP>,
    phase: Phase,
    action: Action<E, TP>,
)
    requires
        call_ensures(Ingestion::<E, TP>::phase, (job,), phase),
        call_ensures(Ingestion::<E, TP>::action, (job,), action),
    ensures
        phase is Begin <==> action is Begin,
        phase is Dedup <==> action is HasOperation,
        phase is Frontier || phase is Latest <==> action is GetLatestEntry,
        phase is Backlink <==> action is ValidateBacklink,
        phase is Insert <==> action is InsertOperation,
        phase is Associate <==> action is Associate,
        phase is Commit <==> action is Commit,
        phase == job@.phase,
{
}

/// What a store holds: the hashes of its operations, and the latest entry of every log.
pub struct Held {
    pub operations: Set<OperationHash>,
    pub latest: Map<(VerifyingKey, LogId), Frontier>,
}

/// Whether a reply says what a store holds, where it was asked for that. A store can fail at anything.
pub open spec fn truthful<E, TP, V>(held: Held, action: Action<E, TP>, reply: Reply<V>) -> bool {
    match (action, reply) {
        (Action::HasOperation(hash), Reply::Exists(Ok(known))) => known
            == held.operations.contains(hash),
        (Action::GetLatestEntry { author, log_id }, Reply::Latest(Ok(latest))) => latest
            == if held.latest.contains_key((author, log_id)) {
            Some(held.latest[(author, log_id)])
        } else {
            None
        },
        _ => true,
    }
}

/// Whether an ingestion is answered by a store until it ends: every reply belongs to the action which
/// was asked for, and says what the store holds.
pub open spec fn answered_by<E, TP, V>(
    held: Held,
    job: Job<E, TP>,
    replies: Seq<Reply<V>>,
    ring: Seq<RingEntry<Operation<E>>>,
    capacity: nat,
) -> bool
    decreases replies.len(),
{
    replies.len() == 0 || {
        &&& answers(replies[0], job.phase)
        &&& truthful(held, action_of(job), replies[0])
        &&& match next(job, replies[0], ring, capacity) {
            Next::Perform(after) => answered_by(
                held,
                after,
                replies.skip(1),
                next_ring(job, replies[0], ring, capacity),
                capacity,
            ),
            Next::Retry(after, _) => answered_by(
                held,
                after,
                replies.skip(1),
                next_ring(job, replies[0], ring, capacity),
                capacity,
            ),
            Next::Finished(_) => true,
        }
    }
}

/// How an ingestion ends which gets these replies, `None` if it is left unfinished.
pub open spec fn ends_with<E, TP, V>(
    job: Job<E, TP>,
    replies: Seq<Reply<V>>,
    ring: Seq<RingEntry<Operation<E>>>,
    capacity: nat,
) -> Option<(Outcome<E, V>, Seq<RingEntry<Operation<E>>>)>
    decreases replies.len(),
{
    if replies.len() == 0 {
        None
    } else {
        let after_ring = next_ring(job, replies[0], ring, capacity);
        match next(job, replies[0], ring, capacity) {
            Next::Perform(after) => ends_with(after, replies.skip(1), after_ring, capacity),
            Next::Retry(after, _) => ends_with(after, replies.skip(1), after_ring, capacity),
            Next::Finished(outcome) => Some((outcome, after_ring)),
        }
    }
}

/// Ingestion is idempotent: against a store which holds the operation, however often the store fails
/// in between, an ingestion ends with the operation being known already, or with a store error. The
/// buffer is what it was.
pub proof fn law_known_operation_already_exists<E, TP, V>(
    held: Held,
    operation: Operation<E>,
    header_digest: OperationHash,
    format: Result<(), V>,
    log_id: LogId,
    topic: TP,
    prune_flag: bool,
    buffered: bool,
    job: Ingestion<E, TP>,
    replies: Seq<Reply<V>>,
    ring: Seq<RingEntry<Operation<E>>>,
    capacity: nat,
)
    requires
        held.operations.contains(operation.hash),
        call_ensures(
            ingest_operation::<E, TP, V>,
            (operation, header_digest, format, log_id, topic, prune_flag, buffered),
            Ok(job),
        ),
        answered_by(held, job@, replies, ring, capacity),
    ensures
        ends_with(job@, replies, ring, capacity) matches Some((outcome, after)) ==> {
            &&& after == ring
            &&& outcome is AlreadyExists || outcome is StoreError
        },
        replies.len() >= 2 && replies[0] == (Reply::<V>::Begun(Ok(()))) && (
        replies[1] matches Reply::Exists(Ok(_))) ==> (ends_with(
            job@,
            replies,
            ring,
            capacity,
        ) matches Some((outcome, _)) && outcome is AlreadyExists),
{
    reveal_with_fuel(ends_with, 3);
    reveal_with_fuel(answered_by, 3);
    lemma_known(held, job@, replies, ring, capacity);
    if replies.len() >= 2 {
        assert(replies.skip(1)[0] == replies[1]);
    }
}

proof fn lemma_known<E, TP, V>(
    held: Held,
    job: Job<E, TP>,
    replies: Seq<Reply<V>>,
    ring: Seq<RingEntry<Operation<E>>>,
    capacity: nat,
)
    requires
        held.operations.contains(job.operation.hash),
        job.phase is Begin || job.phase is Dedup,
        answered_by(held, job, replies, ring, capacity),
    ensures
        ends_with(job, replies, ring, capacity) matches Some((outcome, after)) ==> after == ring && (
        outcome is AlreadyExists || outcome is StoreError),
    decreases replies.len(),
{
    if replies.len() > 0 {
        match next(job, replies[0], ring, capacity) {
            Next::Perform(after) => {
                lemma_known(held, after, replies.skip(1), ring, capacity);
            },
            Next::Retry(after, _) => {
                lemma_known(held, after, replies.skip(1), ring, capacity);
            },
            Next::Finished(_) => {},
        }
    }
}

/// An operation which is new to the store is never taken for a known one, whatever else the store
/// holds.
pub proof fn law_new_operation_is_not_taken_for_known<E, TP, V>(
    held: Held,
    operation: Operation<E>,
    header_digest: OperationHash,
    format: Result<(), V>,
    log_id: LogId,
    topic: TP,
    prune_flag: bool,
    buffered: bool,
    job: Ingestion<E, TP>,
    replies: Seq<Reply<V>>,
    ring: Seq<RingEntry<Operation<E>>>,
    capacity: nat,
)
    requires
        !held.operations.contains(operation.hash),
        call_ensures(
            ingest_operation::<E, TP, V>,
            (operation, header_digest, format, log_id, topic, prune_flag, buffered),
            Ok(job),
        ),
        answered_by(held, job@, replies, ring, capacity),
    ensures
        ends_with(job@, replies, ring, capacity) matches Some((outcome, _)) ==> !(
        outcome is AlreadyExists),
{
    lemma_new(held, job@, replies, ring, capacity);
}

proof fn lemma_new<E, TP, V>(
    held: Held,
    job: Job<E, TP>,
    replies: Seq<Reply<V>>,
    ring: Seq<RingEntry<Operation<E>>>,
    capacity: nat,
)
    requires
        !held.operations.contains(job.operation.hash),
        answered_by(held, job, replies, ring, capacity),
    ensures
        ends_with(job, replies, ring, capacity) matches Some((outcome, _)) ==> !(
        outcome is AlreadyExists),
    decreases replies.len(),
{
    if replies.len() > 0 {
        let after_ring = next_ring(job, replies[0], ring, capacity);
        match next(job, replies[0], ring, capacity) {
            Next::Perform(after) => {
                lemma_new(held, after, replies.skip(1), after_ring, capacity);
            },
            Next::Retry(after, _) => {
                lemma_new(held, after, replies.skip(1), after_ring, capacity);
            },
            Next::Finished(_) => {},
        }
    }
}

/// An operation from before the frontier which the store holds of its log is outdated: with an
/// out-of-order buffer and without a prune flag, its ingestion ends so and touches neither store nor
/// buffer, or ends with a store error.
pub proof fn law_ingestion_of_pruned_operation_is_outdated<E, TP, V>(
    held: Held,
    operation: Operation<E>,
    header_digest: OperationHash,
    format: Result<(), V>,
    log_id: LogId,
    topic: TP,
    job: Ingestion<E, TP>,
    replies: Seq<Reply<V>>,
    ring: Seq<RingEntry<Operation<E>>>,
    capacity: nat,
)
    requires
        !held.operations.contains(operation.hash),
        held.latest.contains_key((operation.header.verifying_key, log_id)),
        operation.header.seq_num < held.latest[(
            operation.header.verifying_key,
            log_id,
        )].header.seq_num,
        call_ensures(
            ingest_operation::<E, TP, V>,
            (operation, header_digest, format, log_id, topic, false, true),
            Ok(job),
        ),
        answered_by(held, job@, replies, ring, capacity),
    ensures
        ends_with(job@, replies, ring, capacity) matches Some((outcome, after)) ==> {
            &&& after == ring
            &&& outcome is Outdated || outcome is StoreError
        },
{
    lemma_outdated(held, job@, replies, ring, capacity);
}

proof fn lemma_outdated<E, TP, V>(
    held: Held,
    job: Job<E, TP>,
    replies: Seq<Reply<V>>,
    ring: Seq<RingEntry<Operation<E>>>,
    capacity: nat,
)
    requires
        !held.operations.contains(job.operation.hash),
        held.latest.contains_key((job.operation.header.verifying_key, job.log_id)),
        job.operation.header.seq_num < held.latest[(
            job.operation.header.verifying_key,
            job.log_id,
        )].header.seq_num,
        job.buffered,
        !job.prune_flag,
        job.phase is Begin || job.phase is Dedup || job.phase is Frontier,
        answered_by(held, job, replies, ring, capacity),
    ensures
        ends_with(job, replies, ring, capacity) matches Some((outcome, after)) ==> after == ring && (
        outcome is Outdated || outcome is StoreError),
    decreases replies.len(),
{
    if replies.len() > 0 {
        match next(job, replies[0], ring, capacity) {
            Next::Perform(after) => {
                lemma_outdated(held, after, replies.skip(1), ring, capacity);
            },
            Next::Retry(after, _) => {
                lemma_outdated(held, after, replies.skip(1), ring, capacity);
            },
            Next::Finished(_) => {},
        }
    }
}

/// A validation rejects what an ingestion rejects before it asks any store, and starts with its
/// arguments otherwise.
pub proof fn law_validation_starts_with_its_arguments<E, V>(
    operation: Operation<E>,
    header_digest: OperationHash,
    format: Result<(), V>,
    log_id: LogId,
    prune_flag: bool,
    result: Result<Validation<E>, IngestError<V>>,
)
    requires
        call_ensures(
            validate_operation::<E, V>,
            (operation, header_digest, format, log_id, prune_flag),
            result,
        ),
    ensures
        operation.hash != header_digest ==> (result matches Err(error) && error is HashMismatch),
        operation.hash == header_digest ==> (format matches Err(reason) ==> result == Err::<
            Validation<E>,
            IngestError<V>,
        >(IngestError::InvalidOperation(reason))),
        operation.hash == header_digest && format is Ok ==> (result matches Ok(check) && {
            &&& check.wf()
            &&& check.operation() == operation
            &&& check.prune_flag() == prune_flag
            &&& check@.author == operation.header.verifying_key
            &&& check@.log_id == log_id
            &&& check@.phase is Begin
        }),
{
}

/// A validation asks for the latest entry of the operation's log and for its backlink, and never for
/// anything to be written.
pub proof fn law_validation_writes_nothing<E, TP>(check: &Validation<E>, action: Action<E, TP>)
    requires
        check.wf(),
        call_ensures(Validation::<E>::action::<TP>, (check,), action),
    ensures
        !(action is InsertOperation),
        !(action is Associate),
        check@.phase is Begin ==> action is Begin,
        check@.phase is Latest ==> action == (Action::<E, TP>::GetLatestEntry {
            author: check@.author,
            log_id: check@.log_id,
        }),
        check@.phase is Backlink ==> action == (Action::<E, TP>::ValidateBacklink {
            latest: check@.latest,
            operation: check.operation(),
            prune_flag: check.prune_flag(),
        }),
        check@.phase is Commit ==> action is Commit,
{
}

/// A validation is about one operation throughout. It looks at the latest entry of the log, then at the
/// backlink, and is successful only after both: an invalid backlink is told with its reason, a store
/// error with its own words.
pub proof fn law_validation_is_decided_by_backlink<E, V>(
    check: Validation<E>,
    reply: Reply<V>,
    step: ValidationStep<E, V>,
)
    requires
        answers(reply, check@.phase),
        call_ensures(Validation::<E>::advance::<V>, (check, reply), step),
    ensures
        step matches ValidationStep::Perform(after) ==> {
            &&& after.operation() == check.operation()
            &&& after.prune_flag() == check.prune_flag()
            &&& after@.author == check@.author
            &&& after@.log_id == check@.log_id
        },
        check@.phase is Begin ==> (reply matches Reply::Begun(Ok(())) ==> (
        step matches ValidationStep::Perform(after) && after@.phase is Latest)),
        check@.phase is Latest ==> (reply matches Reply::Latest(Ok(latest)) ==> (
        step matches ValidationStep::Perform(after) && after@.phase is Backlink && after@.latest
            == latest)),
        reply matches Reply::Backlink(Ok(())) ==> (step matches ValidationStep::Perform(after)
            && after@.phase is Commit),
        reply matches Reply::Backlink(Err(reason)) ==> step == (ValidationStep::<E, V>::Finished(
            Err(IngestError::InvalidOperation(reason)),
        )),
        reply matches Reply::Committed(Ok(())) ==> step == (ValidationStep::<E, V>::Finished(
            Ok(()),
        )),
        reply matches Reply::Begun(Err(message)) ==> (step matches ValidationStep::Finished(
            Err(IngestError::StoreError(told)),
        ) && told@ == message@),
        reply matches Reply::Latest(Err(message)) ==> (step matches ValidationStep::Finished(
            Err(IngestError::StoreError(told)),
        ) && told@ == message@),
        reply matches Reply::Committed(Err(message)) ==> (step matches ValidationStep::Finished(
            Err(IngestError::StoreError(told)),
        ) && told@ == message@),
{
}

} // verus!
