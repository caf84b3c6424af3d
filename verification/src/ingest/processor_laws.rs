//! What the stream processor promises.
//!
//! Every law here speaks of calls, of their arguments and of what they return, or of what an ingestion
//! has come to.

use crate::ingest::ooo::OooBuffer;
use crate::ingest::operation::{
    in_step, IngestError, IngestResult, Ingestion, Outcome, Reply, Step,
};
use crate::ingest::processor::{
    after_arrival, arriving, ingested, released_items, Arrival, Event, Ingest, ParkNotice, Parked,
    Processing,
};
use crate::types::{AuthorLog, Frontier, Operation, OperationHash, VerifyingKey};
use vstd::prelude::*;

verus! {

/// A processor starts with nothing buffered, parked or queued, and its buffer keeps 128 operations.
pub proof fn law_processor_starts_empty<E, TP, M>(
    ingest: Ingest<E, TP, M>,
    node_id: VerifyingKey,
    tagged: Ingest<E, TP, M>,
    unset: Option<VerifyingKey>,
    told: Option<VerifyingKey>,
)
    requires
        call_ensures(Ingest::<E, TP, M>::new, (), ingest),
        call_ensures(Ingest::<E, TP, M>::with_node_id, (ingest, node_id), tagged),
        call_ensures(Ingest::<E, TP, M>::node_id, (&ingest,), unset),
        call_ensures(Ingest::<E, TP, M>::node_id, (&tagged,), told),
    ensures
        ingest.limit() == 128,
        ingest@.ring.len() == 0,
        ingest@.queue.len() == 0,
        forall|hash: OperationHash| !#[trigger] ingest@.pending.contains_key(hash),
        forall|log: AuthorLog| !#[trigger] ingest@.logged.contains(log),
        unset is None,
        told == Some(node_id),
        tagged@ == ingest@,
        tagged.limit() == ingest.limit(),
{
}

/// The operation of an event is ingested with the arguments of the event and with the out-of-order
/// buffer. It is rejected at once where its hash isn't the digest of its header or its format is
/// invalid.
pub proof fn law_event_is_ingested_with_its_arguments<E, TP: Copy, M, V>(
    ingest: &Ingest<E, TP, M>,
    input: &Event<E, TP, M>,
    header_digest: OperationHash,
    format: Result<(), V>,
    result: Result<Ingestion<E, TP>, IngestError<V>>,
)
    requires
        call_ensures(
            Ingest::<E, TP, M>::start::<V>,
            (ingest, input, header_digest, format),
            result,
        ),
    ensures
        input.operation.hash != header_digest ==> (result matches Err(error)
            && error is HashMismatch),
        input.operation.hash == header_digest ==> (format matches Err(reason) ==> result == Err::<
            Ingestion<E, TP>,
            IngestError<V>,
        >(IngestError::InvalidOperation(reason))),
        input.operation.hash == header_digest && format is Ok ==> (result matches Ok(job) && {
            &&& job.wf()
            &&& job@.operation == input.operation
            &&& job@.log_id == input.args.log_id
            &&& job@.topic == input.args.topic
            &&& job@.prune_flag == input.args.prune_flag
            &&& job@.buffered
            &&& job@.attempt == 1
            &&& job@.phase is Begin
        }),
{
}

/// A processor goes on with an ingestion as the ingestion itself does with a buffer which holds the
/// same, and touches nothing but its buffer.
pub proof fn law_processor_goes_on_like_ingestion<E, TP, M, V>(
    ingest: &mut Ingest<E, TP, M>,
    job: Ingestion<E, TP>,
    reply: Reply<V>,
    step: Step<E, TP, V>,
    ooo: &mut OooBuffer<E>,
    other: Step<E, TP, V>,
)
    requires
        old(ooo)@ == old(ingest)@.ring,
        old(ooo).limit() == old(ingest).limit(),
        call_ensures(Ingest::<E, TP, M>::advance::<V>, (ingest, job, reply), step),
        call_ensures(Ingestion::<E, TP>::advance::<V>, (job, reply, ooo), other),
    ensures
        final(ingest).limit() == old(ingest).limit(),
        final(ingest).tagged() == old(ingest).tagged(),
        final(ingest)@.ring == final(ooo)@,
        final(ingest)@ == (Processing { ring: final(ingest)@.ring, ..old(ingest)@ }),
        match (step, other) {
            (Step::Perform(one), Step::Perform(two)) => one@ == two@,
            (Step::Retry { job: one, millis: first }, Step::Retry { job: two, millis: second }) => {
                &&& one@ == two@
                &&& first == second
            },
            (Step::Finished(one), Step::Finished(two)) => match (one, two) {
                (Ok(IngestResult::Ordered(first)), Ok(IngestResult::Ordered(second))) => first@
                    == second@,
                (
                    Err(IngestError::StoreError(first)),
                    Err(IngestError::StoreError(second)),
                ) => first@ == second@,
                (
                    Err(IngestError::InvalidOperation(first)),
                    Err(IngestError::InvalidOperation(second)),
                ) => first == second,
                (
                    Ok(IngestResult::OutOfOrder { no_predecessor: first }),
                    Ok(IngestResult::OutOfOrder { no_predecessor: second }),
                ) => first == second,
                (Ok(IngestResult::Inserted), Ok(IngestResult::Inserted)) => true,
                (Ok(IngestResult::AlreadyExists), Ok(IngestResult::AlreadyExists)) => true,
                (Ok(IngestResult::Outdated), Ok(IngestResult::Outdated)) => true,
                _ => false,
            },
            _ => false,
        },
{
}

/// An event is handed on with the very result of its own ingestion: whoever picks up what was queued
/// gets, where nothing else was queued and nothing was released, exactly the event which was processed
/// and the result it was processed with, and nothing more.
pub proof fn law_event_is_handed_on_with_its_result<E, TP: Copy, M, V>(
    processing: &mut Ingest<E, TP, M>,
    picking: &mut Ingest<E, TP, M>,
    further: &mut Ingest<E, TP, M>,
    input: Event<E, TP, M>,
    result: IngestResult<E>,
    notified: Result<Option<ParkNotice>, (Event<E, TP, M>, IngestError<V>)>,
    item: Option<(Event<E, TP, M>, IngestResult<E>)>,
    more: Option<(Event<E, TP, M>, IngestResult<E>)>,
)
    requires
        !(result is Ordered),
        old(processing)@.queue.len() == 0,
        call_ensures(
            Ingest::<E, TP, M>::process::<V>,
            (processing, input, Ok::<IngestResult<E>, IngestError<V>>(result)),
            notified,
        ),
        *old(picking) == *final(processing),
        call_ensures(Ingest::<E, TP, M>::next, (picking,), item),
        *old(further) == *final(picking),
        call_ensures(Ingest::<E, TP, M>::next, (further,), more),
    ensures
        item == Some((input, result)),
        more is None,
{
}

/// The same behind whatever was queued before: once that was picked up, the event comes with the very
/// result of its own ingestion.
pub proof fn law_queued_event_comes_with_its_result<E, TP: Copy, M, V>(
    processing: &mut Ingest<E, TP, M>,
    picking: &mut Ingest<E, TP, M>,
    input: Event<E, TP, M>,
    result: IngestResult<E>,
    notified: Result<Option<ParkNotice>, (Event<E, TP, M>, IngestError<V>)>,
    item: Option<(Event<E, TP, M>, IngestResult<E>)>,
)
    requires
        !(result is Ordered),
        call_ensures(
            Ingest::<E, TP, M>::process::<V>,
            (processing, input, Ok::<IngestResult<E>, IngestError<V>>(result)),
            notified,
        ),
        old(picking)@.queue == final(processing)@.queue.skip(old(processing)@.queue.len() as int),
        call_ensures(Ingest::<E, TP, M>::next, (picking,), item),
    ensures
        final(processing)@.queue.len() == old(processing)@.queue.len() + 1,
        item == Some((input, result)),
{
}

/// What is queued is handed on in its order: the oldest item comes first and leaves the queue, all
/// others stay in their order, and nothing but the queue changes.
pub proof fn law_queue_is_handed_on_in_order<E, TP: Copy, M, V>(
    processing: &mut Ingest<E, TP, M>,
    picking: &mut Ingest<E, TP, M>,
    input: Event<E, TP, M>,
    result: Result<IngestResult<E>, IngestError<V>>,
    notified: Result<Option<ParkNotice>, (Event<E, TP, M>, IngestError<V>)>,
    item: Option<(Event<E, TP, M>, IngestResult<E>)>,
)
    requires
        call_ensures(Ingest::<E, TP, M>::process::<V>, (processing, input, result), notified),
        *old(picking) == *final(processing),
        call_ensures(Ingest::<E, TP, M>::next, (picking,), item),
    ensures
        old(processing)@.queue.is_prefix_of(final(processing)@.queue),
        final(picking).limit() == old(processing).limit(),
        final(picking).tagged() == old(processing).tagged(),
        old(picking)@.queue.len() > 0 ==> {
            &&& item matches Some((event, outcome))
            &&& event == old(picking)@.queue[0].0
            &&& outcome is Inserted <==> old(picking)@.queue[0].1 is Inserted
            &&& outcome is AlreadyExists <==> old(picking)@.queue[0].1 is AlreadyExists
            &&& outcome is Outdated <==> old(picking)@.queue[0].1 is Outdated
            &&& outcome is OutOfOrder <==> old(picking)@.queue[0].1 is OutOfOrder
            &&& outcome is Ordered <==> old(picking)@.queue[0].1 is Ordered
            &&& final(picking)@.queue == old(picking)@.queue.skip(1)
            &&& final(picking)@ == (Processing { queue: final(picking)@.queue, ..old(picking)@ })
        },
        old(picking)@.queue.len() == 0 ==> item is None && final(picking)@ == old(picking)@,
        old(processing)@.queue.len() > 0 ==> old(picking)@.queue[0] == old(processing)@.queue[0],
{
}

/// A failed ingestion hands its event back together with its error, and changes nothing.
pub proof fn law_failed_event_is_handed_back<E, TP: Copy, M, V>(
    ingest: &mut Ingest<E, TP, M>,
    input: Event<E, TP, M>,
    error: IngestError<V>,
    notified: Result<Option<ParkNotice>, (Event<E, TP, M>, IngestError<V>)>,
)
    requires
        call_ensures(
            Ingest::<E, TP, M>::process::<V>,
            (ingest, input, Err::<IngestResult<E>, IngestError<V>>(error)),
            notified,
        ),
    ensures
        notified == Err::<Option<ParkNotice>, (Event<E, TP, M>, IngestError<V>)>((input, error)),
        final(ingest)@ == old(ingest)@,
{
}

/// Nothing but the queue changes for an operation which was inserted, was known or is outdated, and
/// nothing is told about it.
pub proof fn law_settled_event_changes_queue_only<E, TP: Copy, M, V>(
    ingest: &mut Ingest<E, TP, M>,
    input: Event<E, TP, M>,
    result: IngestResult<E>,
    notified: Result<Option<ParkNotice>, (Event<E, TP, M>, IngestError<V>)>,
)
    requires
        result is Inserted || result is AlreadyExists || result is Outdated,
        call_ensures(
            Ingest::<E, TP, M>::process::<V>,
            (ingest, input, Ok::<IngestResult<E>, IngestError<V>>(result)),
            notified,
        ),
    ensures
        notified == Ok::<Option<ParkNotice>, (Event<E, TP, M>, IngestError<V>)>(None),
        final(ingest)@ == (Processing { queue: final(ingest)@.queue, ..old(ingest)@ }),
        final(ingest)@.queue.len() == old(ingest)@.queue.len() + 1,
        final(ingest)@.queue.last().0 == input,
{
}

/// The arguments and the metadata of an event are kept while its operation waits, under its hash and
/// in place of earlier ones. A missing predecessor is told about every time, a known gap only the
/// first time for its log.
pub proof fn law_waiting_event_is_parked<E, TP: Copy, M, V>(
    ingest: &mut Ingest<E, TP, M>,
    input: Event<E, TP, M>,
    no_predecessor: bool,
    notified: Result<Option<ParkNotice>, (Event<E, TP, M>, IngestError<V>)>,
)
    requires
        call_ensures(
            Ingest::<E, TP, M>::process::<V>,
            (
                ingest,
                input,
                Ok::<IngestResult<E>, IngestError<V>>(IngestResult::OutOfOrder { no_predecessor }),
            ),
            notified,
        ),
    ensures
        ({
            let log = AuthorLog {
                author: input.operation.header.verifying_key,
                log_id: input.args.log_id,
            };
            &&& final(ingest)@.pending.contains_key(input.operation.hash)
            &&& final(ingest)@.pending[input.operation.hash] == (Parked {
                args: input.args,
                metadata: input.metadata,
            })
            &&& forall|hash: OperationHash|
                hash != input.operation.hash ==> (#[trigger] final(ingest)@.pending.contains_key(
                    hash,
                ) <==> old(ingest)@.pending.contains_key(hash)) && final(ingest)@.pending[hash]
                    == old(ingest)@.pending[hash]
            &&& final(ingest)@.ring == old(ingest)@.ring
            &&& forall|other: AuthorLog| #[trigger]
                final(ingest)@.logged.contains(other) <==> old(ingest)@.logged.contains(other) || (
                other == log && !no_predecessor)
            &&& no_predecessor ==> notified == Ok::<
                Option<ParkNotice>,
                (Event<E, TP, M>, IngestError<V>),
            >(Some(ParkNotice::NoPredecessor))
            &&& !no_predecessor && old(ingest)@.logged.contains(log) ==> notified == Ok::<
                Option<ParkNotice>,
                (Event<E, TP, M>, IngestError<V>),
            >(None)
            &&& !no_predecessor && !old(ingest)@.logged.contains(log) ==> {
                &&& notified matches Ok(Some(ParkNotice::KnownGap { expected_seq_num }))
                &&& input.operation.header.seq_num > 0 ==> expected_seq_num
                    == input.operation.header.seq_num - 1
                &&& input.operation.header.seq_num == 0 ==> expected_seq_num == 0
            }
        }),
{
}

/// A release is handed on as one event per operation, in their order and behind everything which was
/// queued before: the incoming event itself for its own operation, and for any other one an event with
/// the arguments and the metadata which were parked for it. They are no longer parked then, everything
/// else still is, and the next gap of the log is told about again.
pub proof fn law_release_is_handed_on<E, TP: Copy, M, V>(
    ingest: &mut Ingest<E, TP, M>,
    input: Event<E, TP, M>,
    operations: Vec<Operation<E>>,
    notified: Result<Option<ParkNotice>, (Event<E, TP, M>, IngestError<V>)>,
)
    requires
        call_ensures(
            Ingest::<E, TP, M>::process::<V>,
            (ingest, input, Ok::<IngestResult<E>, IngestError<V>>(IngestResult::Ordered(operations))),
            notified,
        ),
    ensures
        notified == Ok::<Option<ParkNotice>, (Event<E, TP, M>, IngestError<V>)>(None),
        final(ingest)@.ring == old(ingest)@.ring,
        final(ingest)@.queue.len() == old(ingest)@.queue.len() + operations@.len(),
        old(ingest)@.queue.is_prefix_of(final(ingest)@.queue),
        forall|i: int|
            0 <= i < operations@.len() && operations@[i].hash == input.operation.hash ==> (
            #[trigger] final(ingest)@.queue[old(ingest)@.queue.len() + i]).0 == input,
        forall|i: int|
            0 <= i < operations@.len() && operations@[i].hash != input.operation.hash ==> {
                let event = (#[trigger] final(ingest)@.queue[old(ingest)@.queue.len() + i]).0;
                &&& event.operation == operations@[i]
                &&& event.args == old(ingest)@.pending[operations@[i].hash].args
                &&& event.metadata == old(ingest)@.pending[operations@[i].hash].metadata
            },
        forall|hash: OperationHash| #[trigger]
            final(ingest)@.pending.contains_key(hash) <==> old(ingest)@.pending.contains_key(hash)
                && !(hash != input.operation.hash && exists|i: int|
                0 <= i < operations@.len() && (#[trigger] operations@[i]).hash == hash),
        forall|hash: OperationHash| #[trigger]
            final(ingest)@.pending.contains_key(hash) ==> final(ingest)@.pending[hash] == old(ingest)@.pending[hash],
        forall|log: AuthorLog| #[trigger]
            final(ingest)@.logged.contains(log) <==> old(ingest)@.logged.contains(log) && !(log.author
                == input.operation.header.verifying_key && log.log_id == input.args.log_id),
{
    let items = released_items(
        old(ingest)@.pending,
        input,
        operations@,
    );
    let log = AuthorLog {
        author: input.operation.header.verifying_key,
        log_id: input.args.log_id,
    };
    assert(final(ingest)@.queue == old(ingest)@.queue + items);
    assert forall|i: int| 0 <= i < operations@.len() implies #[trigger] final(ingest)@.queue[old(ingest)@.queue.len() + i] == items[i] by {}
    assert forall|other: AuthorLog| other.author == log.author && other.log_id
        == log.log_id implies other == log by {}
}

/// The result which comes with every event of a release is the release: whoever picks up the first
/// event of a release from an empty queue gets all of its operations with it.
pub proof fn law_release_comes_with_every_event<E, TP: Copy, M, V>(
    processing: &mut Ingest<E, TP, M>,
    picking: &mut Ingest<E, TP, M>,
    input: Event<E, TP, M>,
    operations: Vec<Operation<E>>,
    notified: Result<Option<ParkNotice>, (Event<E, TP, M>, IngestError<V>)>,
    index: int,
    item: Option<(Event<E, TP, M>, IngestResult<E>)>,
)
    requires
        call_ensures(
            Ingest::<E, TP, M>::process::<V>,
            (
                processing,
                input,
                Ok::<IngestResult<E>, IngestError<V>>(IngestResult::Ordered(operations)),
            ),
            notified,
        ),
        0 <= index < operations@.len(),
        old(picking)@.queue == final(processing)@.queue.skip(
            old(processing)@.queue.len() + index,
        ),
        call_ensures(Ingest::<E, TP, M>::next, (picking,), item),
    ensures
        item matches Some((event, IngestResult::Ordered(told))) && {
            &&& told@ == operations@
            &&& event.operation.hash == operations@[index].hash
        },
{
    let items = released_items(
        old(processing)@.pending,
        input,
        operations@,
    );
    assert(final(processing)@.queue == old(processing)@.queue + items);
    assert(old(picking)@.queue[0] == items[index]);
}

/// A release can be put together again exactly where no hash occurs twice in it, and every operation
/// but the incoming one is parked.
pub proof fn law_release_needs_parked_events<E, TP, M>(
    ingest: &Ingest<E, TP, M>,
    input: &Event<E, TP, M>,
    operations: &Vec<Operation<E>>,
    result: bool,
)
    requires
        call_ensures(Ingest::<E, TP, M>::can_release, (ingest, input, operations), result),
    ensures
        result <==> {
            &&& forall|i: int|
                0 <= i < operations@.len() && (#[trigger] operations@[i]).hash
                    != input.operation.hash ==> ingest@.pending.contains_key(operations@[i].hash)
            &&& forall|i: int, j: int|
                0 <= i < j < operations@.len() ==> (#[trigger] operations@[i]).hash != (
                #[trigger] operations@[j]).hash
        },
{
}

/// A processor tells what its buffer is about to evict.
pub proof fn law_processor_tells_eviction<E, TP, M>(
    ingest: &Ingest<E, TP, M>,
    input: &Event<E, TP, M>,
    latest: Option<Frontier>,
    log: Option<AuthorLog>,
)
    requires
        call_ensures(Ingest::<E, TP, M>::evicts, (ingest, input, latest), log),
    ensures
        log is Some <==> {
            &&& !input.args.prune_flag
            &&& ingest@.ring.len() > 0
            &&& ingest@.ring.len() >= ingest.limit()
            &&& latest matches Some(frontier) ==> {
                &&& input.operation.header.seq_num >= frontier.header.seq_num
                &&& input.operation.header.seq_num != frontier.header.seq_num + 1
                &&& input.operation.header.seq_num > 0
            }
        },
        log matches Some(log) ==> log.author == ingest@.ring[0].author && log.log_id
            == ingest@.ring[0].log_id,
{
}

/// Whatever an ingestion which releases nothing has come to, this is what the event is queued with,
/// and it is queued last. An ingestion which failed queues nothing.
pub proof fn law_outcome_is_handed_on<E, TP, M, V>(
    s: Processing<E, TP, M>,
    arrival: Arrival<E, TP, M, V>,
    capacity: nat,
)
    requires
        in_step(arriving(arrival), arrival.replies, s.ring, capacity),
    ensures
        ({
            let after = after_arrival(s, arrival, capacity).queue;
            match ingested(s, arrival, capacity).outcome {
                Some(Outcome::Inserted) => after == s.queue.push((arrival.input, Outcome::Inserted)),
                Some(Outcome::AlreadyExists) => after == s.queue.push(
                    (arrival.input, Outcome::AlreadyExists),
                ),
                Some(Outcome::Outdated) => after == s.queue.push((arrival.input, Outcome::Outdated)),
                Some(Outcome::OutOfOrder { no_predecessor }) => after == s.queue.push(
                    (arrival.input, Outcome::OutOfOrder { no_predecessor }),
                ),
                Some(Outcome::Ordered(operations)) => after.len() == s.queue.len()
                    + operations.len() && forall|i: int|
                    0 <= i < operations.len() ==> (#[trigger] after[s.queue.len() + i]).1
                        == Outcome::<E, ()>::Ordered(operations),
                _ => after == s.queue,
            }
        }),
{
    if let Some(Outcome::Ordered(operations)) = ingested(s, arrival, capacity).outcome {
        let items = released_items(s.pending, arrival.input, operations);
        let after = after_arrival(s, arrival, capacity).queue;
        assert(after == s.queue + items);
        assert forall|i: int| 0 <= i < operations.len() implies (#[trigger] after[s.queue.len()
            + i]).1 == Outcome::<E, ()>::Ordered(operations) by {
            assert(after[s.queue.len() + i] == items[i]);
        }
    }
}

} // verus!
