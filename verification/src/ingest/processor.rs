//! Stream processor which ingests incoming operations.

use crate::collections::{VecMap, VecSet};
use crate::ingest::args::IngestArgs;
use crate::ingest::ooo::{
    among, buffered, drained, entry, filed, law_release_comes_from_buffer, law_release_is_one_run,
    law_release_is_unambiguous, leads_back, one_place, placement, release, OooBuffer, Placement,
    DEFAULT_CAPACITY,
};
use crate::ingest::operation::{
    answers, in_step, ingest_operation, law_failed_ingestion_keeps_buffer, next, next_ring, run,
    starting, steps, untouched, IngestError, IngestResult, Ingestion, Job, Outcome, Reply, Run, Step,
};
use crate::ingest::ring::{
    evicted_log, ids_distinct, law_push_adds_one_entry, law_push_keeps_ids_distinct,
    law_push_keeps_positions_distinct, positions_distinct, pushed, waits_on, RingEntry,
};
use crate::shared::share;
use crate::types::{
    duplicate_all, AuthorLog, Frontier, LogId, Operation, OperationHash, SeqNum, VerifyingKey,
};
use std::collections::VecDeque;
use std::sync::Arc;
use vstd::prelude::*;

verus! {

/// An operation on its way through the processor, with everything else its sender knows about it.
#[derive(Debug)]
pub struct Event<E, TP, M> {
    pub operation: Operation<E>,
    pub args: IngestArgs<LogId, TP>,
    pub metadata: Arc<M>,
}

/// What has to be kept of an event while its operation waits in the out-of-order buffer.
#[derive(Debug)]
pub struct Parked<TP, M> {
    pub args: IngestArgs<LogId, TP>,
    pub metadata: Arc<M>,
}

/// The event of an operation which is no longer parked.
pub open spec fn unparked<E, TP, M>(operation: Operation<E>, parked: Parked<TP, M>) -> Event<E, TP, M> {
    Event { operation, args: parked.args, metadata: parked.metadata }
}

/// What is worth telling about an operation which was buffered.
#[derive(Clone, Copy, Debug, PartialEq, Eq, Structural)]
pub enum ParkNotice {
    /// Nothing is known about any predecessor. Only the missing predecessor itself releases the
    /// operation.
    NoPredecessor,

    /// First operation which waits on a known gap of its log. Further ones stay silent until the
    /// log releases.
    KnownGap { expected_seq_num: SeqNum },
}

/// The outcome which an ingestion result tells.
pub open spec fn told<E>(result: IngestResult<E>) -> Outcome<E, ()> {
    match result {
        IngestResult::Inserted => Outcome::Inserted,
        IngestResult::AlreadyExists => Outcome::AlreadyExists,
        IngestResult::Ordered(operations) => Outcome::Ordered(operations@),
        IngestResult::OutOfOrder { no_predecessor } => Outcome::OutOfOrder { no_predecessor },
        IngestResult::Outdated => Outcome::Outdated,
    }
}

/// The state of a processor.
#[verifier::ext_equal]
pub struct Processing<E, TP, M> {
    /// The out-of-order buffer.
    pub ring: Seq<RingEntry<Operation<E>>>,

    /// Metadata of parked operations.
    pub pending: Map<OperationHash, Parked<TP, M>>,

    /// Processed events which were not picked up yet, oldest first.
    pub queue: Seq<(Event<E, TP, M>, Outcome<E, ()>)>,

    /// Logs with a known gap which was already told about.
    pub logged: Set<AuthorLog>,
}

/// The log of an event.
pub open spec fn log_of<E, TP, M>(event: Event<E, TP, M>) -> AuthorLog {
    AuthorLog { author: event.operation.header.verifying_key, log_id: event.args.log_id }
}

/// Whether no two operations have the same hash.
pub open spec fn hashes_distinct<E>(operations: Seq<Operation<E>>) -> bool {
    forall|i: int, j: int|
        0 <= i < j < operations.len() ==> (#[trigger] operations[i]).hash != (
        #[trigger] operations[j]).hash
}

/// Whether the events of all released operations can be put together again: each of them was parked,
/// or is the one which triggered the release, and none occurs twice.
pub open spec fn releasable<E, TP, M>(
    pending: Map<OperationHash, Parked<TP, M>>,
    trigger: OperationHash,
    operations: Seq<Operation<E>>,
) -> bool {
    &&& forall|i: int|
        0 <= i < operations.len() && (#[trigger] operations[i]).hash != trigger
            ==> pending.contains_key(operations[i].hash)
    &&& hashes_distinct(operations)
}

/// The event of a released operation.
pub open spec fn released_event<E, TP, M>(
    pending: Map<OperationHash, Parked<TP, M>>,
    input: Event<E, TP, M>,
    operation: Operation<E>,
) -> Event<E, TP, M> {
    if operation.hash == input.operation.hash {
        input
    } else {
        unparked(operation, pending[operation.hash])
    }
}

/// The events of released operations, in their order.
pub open spec fn released_items<E, TP, M>(
    pending: Map<OperationHash, Parked<TP, M>>,
    input: Event<E, TP, M>,
    operations: Seq<Operation<E>>,
) -> Seq<(Event<E, TP, M>, Outcome<E, ()>)> {
    Seq::new(
        operations.len(),
        |i: int| (released_event(pending, input, operations[i]), Outcome::Ordered(operations)),
    )
}

/// The metadata which is left once operations were released.
pub open spec fn still_pending<E, TP, M>(
    pending: Map<OperationHash, Parked<TP, M>>,
    trigger: OperationHash,
    operations: Seq<Operation<E>>,
) -> Map<OperationHash, Parked<TP, M>> {
    pending.remove_keys(
        Set::new(
            |hash: OperationHash| hash != trigger && among(operations, hash),
        ),
    )
}

/// The state after an ingestion ended with this result.
pub open spec fn processed<E, TP, M>(
    s: Processing<E, TP, M>,
    input: Event<E, TP, M>,
    outcome: Outcome<E, ()>,
) -> Processing<E, TP, M> {
    match outcome {
        Outcome::OutOfOrder { no_predecessor } => Processing {
            pending: s.pending.insert(
                input.operation.hash,
                Parked { args: input.args, metadata: input.metadata },
            ),
            queue: s.queue.push((input, outcome)),
            logged: if no_predecessor {
                s.logged
            } else {
                s.logged.insert(log_of(input))
            },
            ..s
        },
        Outcome::Ordered(operations) => Processing {
            pending: still_pending(s.pending, input.operation.hash, operations),
            queue: s.queue + released_items(s.pending, input, operations),
            logged: s.logged.remove(log_of(input)),
            ..s
        },
        _ => Processing { queue: s.queue.push((input, outcome)), ..s },
    }
}

/// What is told about an ingestion which ended with this result.
pub open spec fn notice<E, TP, M>(
    s: Processing<E, TP, M>,
    input: Event<E, TP, M>,
    outcome: Outcome<E, ()>,
) -> Option<ParkNotice> {
    match outcome {
        Outcome::OutOfOrder { no_predecessor: true } => Some(ParkNotice::NoPredecessor),
        Outcome::OutOfOrder { no_predecessor: false } => {
            if s.logged.contains(log_of(input)) {
                None
            } else {
                let seq_num = input.operation.header.seq_num;
                Some(
                    ParkNotice::KnownGap {
                        expected_seq_num: if seq_num == 0 {
                            0
                        } else {
                            (seq_num - 1) as SeqNum
                        },
                    },
                )
            }
        },
        _ => None,
    }
}

/// Ingests incoming operations and hands them on in the order of their logs.
///
/// Operations which arrive out of order are buffered. Once the buffer releases them, one event per
/// operation is handed on, exactly as if it had arrived in order in the first place.
#[derive(Debug)]
pub struct Ingest<E, TP, M> {
    /// Out-of-order buffer for incoming operations.
    ooo: OooBuffer<E>,

    /// Metadata for operations currently sitting in the buffer. The buffer only stores bare
    /// operations, this lets us put together full events once it releases them.
    pending_metadata: VecMap<OperationHash, Parked<TP, M>>,

    queue: VecDeque<(Event<E, TP, M>, IngestResult<E>)>,

    /// This node's own id, purely to tag what is told about parked operations.
    node_id: Option<VerifyingKey>,

    /// Logs for which the known-gap case was already told about. Cleared once the log's chain
    /// actually releases, so a later, separate stall on the same log is told about again.
    known_gap_park_logged: VecSet<AuthorLog>,
}

impl<E, TP, M> Ingest<E, TP, M> {
    pub closed spec fn view(&self) -> Processing<E, TP, M> {
        Processing {
            ring: self.ooo@,
            pending: self.pending_metadata@,
            queue: self.queue@.map_values(
                |item: (Event<E, TP, M>, IngestResult<E>)| (item.0, told(item.1)),
            ),
            logged: self.known_gap_park_logged@,
        }
    }

    /// Number of operations the out-of-order buffer keeps.
    pub closed spec fn limit(&self) -> nat {
        self.ooo.limit()
    }

    /// The node which was set as our own.
    pub closed spec fn tagged(&self) -> Option<VerifyingKey> {
        self.node_id
    }

    pub closed spec fn wf(&self) -> bool {
        &&& self.ooo.wf()
        &&& self.pending_metadata.wf()
        &&& self.known_gap_park_logged.wf()
    }

    /// Every buffered operation stands under its own key, and no two of them wait on the same
    /// position.
    pub proof fn law_processor_invariant(&self)
        requires
            self.wf(),
        ensures
            filed(self@.ring),
            positions_distinct(self@.ring),
    {
        self.ooo.law_buffer_invariant();
    }

    pub fn new() -> (ingest: Self)
        ensures
            ingest.wf(),
            ingest.limit() == DEFAULT_CAPACITY,
            ingest.tagged() is None,
            ingest@ == (Processing::<E, TP, M> {
                ring: seq![],
                pending: Map::empty(),
                queue: seq![],
                logged: Set::empty(),
            }),
    {
        let ingest: Ingest<E, TP, M> = Ingest {
            ooo: OooBuffer::new(),
            pending_metadata: VecMap::new(),
            queue: VecDeque::new(),
            node_id: None,
            known_gap_park_logged: VecSet::new(),
        };
        assert(ingest@.queue =~= seq![]);
        ingest
    }

    /// Sets this node's own id, purely to tag what is told about parked operations.
    pub fn with_node_id(self, node_id: VerifyingKey) -> (ingest: Self)
        requires
            self.wf(),
        ensures
            ingest.wf(),
            ingest@ == self@,
            ingest.limit() == self.limit(),
            ingest.tagged() == Some(node_id),
    {
        Ingest { node_id: Some(node_id), ..self }
    }

    /// This node's own id, where it was set.
    pub fn node_id(&self) -> (node_id: Option<VerifyingKey>)
        ensures
            node_id == self.tagged(),
    {
        self.node_id
    }

    /// Starts to ingest the operation of an event.
    ///
    /// `header_digest` is the digest of the operation's header, `format` says whether its format is
    /// valid.
    pub fn start<V>(
        &self,
        input: &Event<E, TP, M>,
        header_digest: OperationHash,
        format: Result<(), V>,
    ) -> (result: Result<Ingestion<E, TP>, IngestError<V>>) where TP: Copy
        ensures
            match result {
                Ok(job) => {
                    &&& input.operation.hash == header_digest
                    &&& format is Ok
                    &&& job.wf()
                    &&& job@ == starting(
                        input.operation,
                        input.args.log_id,
                        input.args.topic,
                        input.args.prune_flag,
                        true,
                        1,
                    )
                },
                Err(error) => if input.operation.hash != header_digest {
                    error == IngestError::<V>::HashMismatch
                } else {
                    format matches Err(reason) && error == IngestError::InvalidOperation(reason)
                },
            },
    {
        ingest_operation(
            input.operation.duplicate(),
            header_digest,
            format,
            input.args.log_id,
            input.args.topic,
            input.args.prune_flag,
            true,
        )
    }

    /// The log which loses its oldest buffered operation when the operation of an event is ingested,
    /// `latest` being the frontier of the operation's log.
    pub fn evicts(&self, input: &Event<E, TP, M>, latest: Option<Frontier>) -> (log: Option<
        AuthorLog,
    >)
        requires
            self.wf(),
        ensures
            log == match placement(input.operation.header, latest, input.args.prune_flag) {
                Placement::Waiting(_) => evicted_log(self@.ring, self.limit()),
                _ => None,
            },
    {
        self.ooo.evicts(&input.operation, latest, input.args.prune_flag)
    }

    /// Goes on with an ingestion, see [`Ingestion::advance`].
    pub fn advance<V>(&mut self, job: Ingestion<E, TP>, reply: Reply<V>) -> (step: Step<E, TP, V>)
        requires
            old(self).wf(),
            job.wf(),
            answers(reply, job@.phase),
        ensures
            final(self).wf(),
            final(self).limit() == old(self).limit(),
            final(self).tagged() == old(self).tagged(),
            steps(step, next(job@, reply, old(self)@.ring, old(self).limit())),
            final(self)@ == (Processing {
                ring: next_ring(job@, reply, old(self)@.ring, old(self).limit()),
                ..old(self)@
            }),
    {
        job.advance(reply, &mut self.ooo)
    }

    /// Whether the events of all released operations can be put together again.
    pub fn can_release(&self, input: &Event<E, TP, M>, operations: &Vec<Operation<E>>) -> (result: bool)
        requires
            self.wf(),
        ensures
            result == releasable(self@.pending, input.operation.hash, operations@),
    {
        let mut index: usize = 0;
        while index < operations.len()
            invariant
                self.wf(),
                index <= operations@.len(),
                forall|i: int|
                    0 <= i < index && (#[trigger] operations@[i]).hash != input.operation.hash
                        ==> self@.pending.contains_key(operations@[i].hash),
                forall|i: int, j: int|
                    0 <= i < j < operations@.len() && i < index ==> (
                    #[trigger] operations@[i]).hash != (#[trigger] operations@[j]).hash,
            decreases operations@.len() - index,
        {
            let hash = operations[index].hash;
            if hash != input.operation.hash && !self.pending_metadata.contains_key(&hash) {
                assert(operations@[index as int].hash == hash);
                return false;
            }
            let mut later: usize = index + 1;
            while later < operations.len()
                invariant
                    index < later <= operations@.len(),
                    hash == operations@[index as int].hash,
                    forall|j: int| index < j < later ==> hash != (#[trigger] operations@[j]).hash,
                decreases operations@.len() - later,
            {
                if hash == operations[later].hash {
                    assert(operations@[index as int].hash == operations@[later as int].hash);
                    return false;
                }
                later = later + 1;
            }
            index = index + 1;
        }
        true
    }

    /// Queues the event of an ingestion which has ended, together with the events of all operations
    /// it released.
    ///
    /// Returns the input next to an error to allow mapping it back to its source.
    pub fn process<V>(
        &mut self,
        input: Event<E, TP, M>,
        result: Result<IngestResult<E>, IngestError<V>>,
    ) -> (notified: Result<Option<ParkNotice>, (Event<E, TP, M>, IngestError<V>)>) where TP: Copy
        requires
            old(self).wf(),
            result matches Ok(IngestResult::Ordered(operations)) ==> releasable(
                old(self)@.pending,
                input.operation.hash,
                operations@,
            ),
        ensures
            final(self).wf(),
            final(self).limit() == old(self).limit(),
            final(self).tagged() == old(self).tagged(),
            match result {
                Ok(result) => {
                    &&& final(self)@ == processed(old(self)@, input, told(result))
                    &&& notified == Ok::<Option<ParkNotice>, (Event<E, TP, M>, IngestError<V>)>(
                        notice(old(self)@, input, told(result)),
                    )
                },
                Err(error) => {
                    &&& final(self)@ == old(self)@
                    &&& notified == Err::<Option<ParkNotice>, (Event<E, TP, M>, IngestError<V>)>(
                        (input, error),
                    )
                },
            },
    {
        let result = match result {
            Ok(result) => result,
            Err(error) => {
                return Err((input, error));
            },
        };
        match result {
            IngestResult::OutOfOrder { no_predecessor } => {
                let notice = self.park(&input, no_predecessor);
                self.queue.push_back((input, IngestResult::OutOfOrder { no_predecessor }));
                assert(self@ =~= processed(old(self)@, input, told(result)));
                Ok(notice)
            },
            IngestResult::Ordered(operations) => {
                let log = AuthorLog {
                    author: input.operation.header.verifying_key,
                    log_id: input.args.log_id,
                };
                self.known_gap_park_logged.remove(&log);
                self.release(input, operations);
                assert(self@ =~= processed(old(self)@, input, told(result)));
                Ok(None)
            },
            other => {
                self.queue.push_back((input, other));
                assert(self@ =~= processed(old(self)@, input, told(result)));
                Ok(None)
            },
        }
    }

    /// Keeps what is needed to put together an event again once its operation leaves the buffer.
    fn park(&mut self, input: &Event<E, TP, M>, no_predecessor: bool) -> (told: Option<
        ParkNotice,
    >) where TP: Copy
        requires
            old(self).wf(),
        ensures
            final(self).wf(),
            final(self).limit() == old(self).limit(),
            final(self).tagged() == old(self).tagged(),
            final(self).queue@ == old(self).queue@,
            final(self)@ == (Processing {
                queue: old(self)@.queue,
                ..processed(old(self)@, *input, Outcome::OutOfOrder { no_predecessor })
            }),
            told == notice(old(self)@, *input, Outcome::OutOfOrder { no_predecessor }),
    {
        let mut told: Option<ParkNotice> = None;
        if no_predecessor {
            told = Some(ParkNotice::NoPredecessor);
        } else {
            let log = AuthorLog {
                author: input.operation.header.verifying_key,
                log_id: input.args.log_id,
            };
            let first_park = self.known_gap_park_logged.insert(log);
            if first_park {
                let expected_seq_num: SeqNum = input.operation.header.seq_num.saturating_sub(1);
                told = Some(ParkNotice::KnownGap { expected_seq_num });
            }
        }
        let parked = Parked { args: input.args, metadata: share(&input.metadata) };
        self.pending_metadata.insert(input.operation.hash, parked);
        told
    }

    /// Queues one event per released operation, so each of them flows on as if it had arrived in
    /// order in the first place.
    fn release(&mut self, input: Event<E, TP, M>, operations: Vec<Operation<E>>)
        requires
            old(self).wf(),
            releasable(old(self)@.pending, input.operation.hash, operations@),
        ensures
            final(self).wf(),
            final(self).limit() == old(self).limit(),
            final(self).tagged() == old(self).tagged(),
            final(self)@ == (Processing {
                pending: still_pending(old(self)@.pending, input.operation.hash, operations@),
                queue: old(self)@.queue + released_items(old(self)@.pending, input, operations@),
                ..old(self)@
            }),
    {
        let trigger_hash = input.operation.hash;
        let ghost s = self@;
        let ghost items = released_items(s.pending, input, operations@);
        let ghost event = input;
        let mut input: Option<Event<E, TP, M>> = Some(input);
        let mut index: usize = 0;
        assert(s.queue + items.take(0) =~= s.queue);
        assert(still_pending(s.pending, trigger_hash, operations@.take(0)) =~= s.pending);
        while index < operations.len()
            invariant
                self.wf(),
                self.limit() == old(self).limit(),
                self.tagged() == old(self).tagged(),
                index <= operations@.len(),
                s == old(self)@,
                trigger_hash == event.operation.hash,
                releasable(s.pending, trigger_hash, operations@),
                items == released_items(s.pending, event, operations@),
                input == Some(event) || exists|i: int|
                    0 <= i < index && (#[trigger] operations@[i]).hash == trigger_hash,
                self@ == (Processing {
                    pending: still_pending(
                        s.pending,
                        trigger_hash,
                        operations@.take(index as int),
                    ),
                    queue: s.queue + items.take(index as int),
                    ..s
                }),
            decreases operations@.len() - index,
        {
            let hash = operations[index].hash;
            let ghost before = self@;
            let ghost released = operations@.take(index as int);
            let item = if hash == trigger_hash {
                assert(operations@[index as int].hash == trigger_hash);
                input.take().unwrap()
            } else {
                assert(s.pending.contains_key(operations@[index as int].hash));
                assert forall|i: int| 0 <= i < released.len() implies (
                #[trigger] released[i]).hash != hash by {
                    assert(operations@[i].hash != operations@[index as int].hash);
                }
                let parked = self.pending_metadata.remove(&hash).unwrap();
                Event {
                    operation: operations[index].duplicate(),
                    args: parked.args,
                    metadata: parked.metadata,
                }
            };
            let outcome = IngestResult::Ordered(duplicate_all(&operations));
            self.queue.push_back((item, outcome));
            proof {
                let after = operations@.take(index + 1);
                assert(after =~= released.push(operations@[index as int]));
                assert(items[index as int] == (item, told(outcome)));
                assert(self@.queue =~= before.queue.push((item, told(outcome))));
                assert(s.queue + items.take(index + 1) =~= (s.queue + items.take(
                    index as int,
                )).push(items[index as int]));
                lemma_still_pending_push(s.pending, trigger_hash, released, operations@[index as int]);
                assert(self@.pending == still_pending(s.pending, trigger_hash, after));
            }
            index = index + 1;
        }
        assert(operations@.take(index as int) =~= operations@);
        assert(items.take(index as int) =~= items);
    }

    /// The oldest processed event which was not picked up yet.
    pub fn next(&mut self) -> (item: Option<(Event<E, TP, M>, IngestResult<E>)>)
        requires
            old(self).wf(),
        ensures
            final(self).wf(),
            final(self).limit() == old(self).limit(),
            final(self).tagged() == old(self).tagged(),
            match item {
                Some(item) => {
                    &&& old(self)@.queue.len() > 0
                    &&& old(self)@.queue[0] == (item.0, told(item.1))
                    &&& final(self)@ == (Processing {
                        queue: old(self)@.queue.skip(1),
                        ..old(self)@
                    })
                },
                None => old(self)@.queue.len() == 0 && final(self)@ == old(self)@,
            },
    {
        let item = self.queue.pop_front();
        match &item {
            Some(_) => {
                assert(self@.queue =~= old(self)@.queue.skip(1));
            },
            None => {
                assert(self@.queue =~= old(self)@.queue);
            },
        }
        item
    }
}

proof fn lemma_still_pending_push<E, TP, M>(
    pending: Map<OperationHash, Parked<TP, M>>,
    trigger: OperationHash,
    operations: Seq<Operation<E>>,
    last: Operation<E>,
)
    ensures
        still_pending(pending, trigger, operations.push(last)) == if last.hash == trigger {
            still_pending(pending, trigger, operations)
        } else {
            still_pending(pending, trigger, operations).remove(last.hash)
        },
{
    let more = operations.push(last);
    let left = still_pending(pending, trigger, operations);
    let left_more = still_pending(pending, trigger, more);
    assert forall|hash: OperationHash| #[trigger]
        among(more, hash) <==> last.hash == hash || among(operations, hash) by {
        if last.hash == hash {
            assert(more[operations.len() as int].hash == hash);
        }
        if among(operations, hash) {
            let i = choose|i: int|
                0 <= i < operations.len() && (#[trigger] operations[i]).hash == hash;
            assert(more[i].hash == hash);
        }
        if among(more, hash) {
            let i = choose|i: int| 0 <= i < more.len() && (#[trigger] more[i]).hash == hash;
            if i < operations.len() {
                assert(operations[i].hash == hash);
            }
        }
    }
    if last.hash == trigger {
        assert(left_more =~= left);
    } else {
        assert(left_more =~= left.remove(last.hash));
    }
}

/// What has happened to the operations which were parked.
pub struct History<E, TP, M> {
    /// The event which was parked last for every hash.
    pub parked: Map<OperationHash, Event<E, TP, M>>,

    /// The hashes which were released since they were last parked.
    pub released: Set<OperationHash>,
}

/// Nothing was parked yet.
pub open spec fn no_history<E, TP, M>() -> History<E, TP, M> {
    History { parked: Map::empty(), released: Set::empty() }
}

/// Whether a processor knows what has happened: every buffered operation was parked under its own key,
/// and what is kept of a parked event is the metadata of the last time, until it is released.
pub open spec fn remembers<E, TP, M>(s: Processing<E, TP, M>, history: History<E, TP, M>) -> bool {
    &&& filed(s.ring)
    &&& positions_distinct(s.ring)
    &&& forall|i: int|
        0 <= i < s.ring.len() ==> history.parked.contains_key((#[trigger] s.ring[i]).item.hash)
    &&& forall|hash: OperationHash| #[trigger]
        s.pending.contains_key(hash) <==> history.parked.contains_key(hash)
            && !history.released.contains(hash)
    &&& forall|hash: OperationHash| #[trigger]
        s.pending.contains_key(hash) ==> s.pending[hash] == parked_of(history.parked[hash])
}

/// What is kept of an event.
pub open spec fn parked_of<E, TP, M>(event: Event<E, TP, M>) -> Parked<TP, M> {
    Parked { args: event.args, metadata: event.metadata }
}

/// An event which arrives, and how the store replies while its operation is ingested.
pub struct Arrival<E, TP, M, V> {
    pub input: Event<E, TP, M>,
    pub replies: Seq<Reply<V>>,
}

/// How the ingestion of an event's operation starts.
pub open spec fn arriving<E, TP, M, V>(arrival: Arrival<E, TP, M, V>) -> Job<E, TP> {
    let input = arrival.input;
    starting(input.operation, input.args.log_id, input.args.topic, input.args.prune_flag, true, 1)
}

/// The ingestion of an event's operation.
pub open spec fn ingested<E, TP, M, V>(
    s: Processing<E, TP, M>,
    arrival: Arrival<E, TP, M, V>,
    capacity: nat,
) -> Run<E, TP, V> {
    run(arriving(arrival), untouched(), arrival.replies, s.ring, capacity)
}

/// What is processed of an ingestion: everything but an error.
pub open spec fn success<E, V>(outcome: Option<Outcome<E, V>>) -> Option<Outcome<E, ()>> {
    match outcome {
        Some(Outcome::Inserted) => Some(Outcome::Inserted),
        Some(Outcome::AlreadyExists) => Some(Outcome::AlreadyExists),
        Some(Outcome::Ordered(operations)) => Some(Outcome::Ordered(operations)),
        Some(Outcome::OutOfOrder { no_predecessor }) => Some(
            Outcome::OutOfOrder { no_predecessor },
        ),
        Some(Outcome::Outdated) => Some(Outcome::Outdated),
        _ => None,
    }
}

/// The state after an event was ingested and processed.
pub open spec fn after_arrival<E, TP, M, V>(
    s: Processing<E, TP, M>,
    arrival: Arrival<E, TP, M, V>,
    capacity: nat,
) -> Processing<E, TP, M> {
    let result = ingested(s, arrival, capacity);
    let ingested_state = Processing { ring: result.ring, ..s };
    match success(result.outcome) {
        Some(outcome) => processed(ingested_state, arrival.input, outcome),
        None => ingested_state,
    }
}

/// What has happened after an event was ingested and processed.
pub open spec fn history_after<E, TP, M, V>(
    history: History<E, TP, M>,
    s: Processing<E, TP, M>,
    arrival: Arrival<E, TP, M, V>,
    capacity: nat,
) -> History<E, TP, M> {
    let hash = arrival.input.operation.hash;
    match ingested(s, arrival, capacity).outcome {
        Some(Outcome::OutOfOrder { .. }) => History {
            parked: history.parked.insert(hash, arrival.input),
            released: history.released.remove(hash),
        },
        Some(Outcome::Ordered(operations)) => History {
            released: history.released.union(
                Set::new(|other: OperationHash| other != hash && among(operations, other)),
            ),
            ..history
        },
        _ => history,
    }
}

/// Whether every operation of a release is released for the first time since it was parked, and only
/// once: hashes are distinct, and no hash but the incoming one has left the buffer before.
pub open spec fn first_release<E, TP, M>(
    history: History<E, TP, M>,
    trigger: OperationHash,
    operations: Seq<Operation<E>>,
) -> bool {
    &&& hashes_distinct(operations)
    &&& forall|i: int|
        0 <= i < operations.len() && (#[trigger] operations[i]).hash != trigger
            ==> !history.released.contains(operations[i].hash)
}

/// Whether a release is turned into events: one per operation and in their order, the incoming event
/// itself for its own operation, and for every other one an event with the arguments and the metadata
/// of the event which was parked last for it.
pub open spec fn becomes_events<E, TP, M>(
    s: Processing<E, TP, M>,
    history: History<E, TP, M>,
    input: Event<E, TP, M>,
    operations: Seq<Operation<E>>,
    after: Processing<E, TP, M>,
) -> bool {
    &&& operations.contains(input.operation)
    &&& after.queue.len() == s.queue.len() + operations.len()
    &&& s.queue.is_prefix_of(after.queue)
    &&& forall|i: int|
        0 <= i < operations.len() ==> {
            let event = if operations[i].hash == input.operation.hash {
                input
            } else {
                unparked(operations[i], parked_of(history.parked[operations[i].hash]))
            };
            &&& event.operation == operations[i]
            &&& #[trigger] after.queue[s.queue.len() + i] == (
                event,
                Outcome::<E, ()>::Ordered(operations),
            )
        }
}

/// Whatever comes of an event, the processor knows what has happened. If the event's operation
/// releases others, all of them become events, unless one of them was released before since it was
/// parked.
pub proof fn law_arrival_is_remembered<E, TP, M, V>(
    s: Processing<E, TP, M>,
    history: History<E, TP, M>,
    arrival: Arrival<E, TP, M, V>,
    capacity: nat,
)
    requires
        remembers(s, history),
        in_step(arriving(arrival), arrival.replies, s.ring, capacity),
    ensures
        remembers(
            after_arrival(s, arrival, capacity),
            history_after(history, s, arrival, capacity),
        ),
        ingested(s, arrival, capacity).outcome matches Some(Outcome::Ordered(operations)) ==> {
            let hash = arrival.input.operation.hash;
            let after = after_arrival(s, arrival, capacity);
            &&& releasable(s.pending, hash, operations) <==> first_release(
                history,
                hash,
                operations,
            )
            &&& first_release(history, hash, operations) ==> becomes_events(
                s,
                history,
                arrival.input,
                operations,
                after,
            )
        },
{
    let input = arrival.input;
    let operation = input.operation;
    let result = ingested(s, arrival, capacity);
    let after = after_arrival(s, arrival, capacity);
    let later = history_after(history, s, arrival, capacity);
    lemma_ingestion(s, arrival, capacity);
    match result.outcome {
        Some(Outcome::OutOfOrder { .. }) => {
            let arrived = entry(operation, input.args.log_id);
            law_push_keeps_positions_distinct(s.ring, capacity, arrived);
            law_push_adds_one_entry(s.ring, capacity, arrived);
            assert forall|i: int| 0 <= i < after.ring.len() implies #[trigger] after.ring[i] == entry(
                after.ring[i].item,
                after.ring[i].log_id,
            ) && later.parked.contains_key(after.ring[i].item.hash) by {
                if after.ring[i] != arrived {
                    assert(s.ring.contains(after.ring[i]));
                    let j = choose|j: int| 0 <= j < s.ring.len() && s.ring[j] == after.ring[i];
                    assert(s.ring[j] == entry(s.ring[j].item, s.ring[j].log_id));
                    assert(history.parked.contains_key(s.ring[j].item.hash));
                }
            }
        },
        Some(Outcome::Ordered(operations)) => {
            assert forall|i: int| 0 <= i < after.ring.len() implies later.parked.contains_key(
                (#[trigger] after.ring[i]).item.hash,
            ) by {
                assert(s.ring.contains(after.ring[i]));
                let j = choose|j: int| 0 <= j < s.ring.len() && s.ring[j] == after.ring[i];
                assert(history.parked.contains_key(s.ring[j].item.hash));
            }
            assert forall|i: int| 0 <= i < operations.len() && (#[trigger] operations[i]).hash
                != operation.hash implies history.parked.contains_key(operations[i].hash) by {
                assert(buffered(s.ring, operations[i]));
                let k = choose|k: int| 0 <= k < s.ring.len() && (#[trigger] s.ring[k]).item
                    == operations[i];
                assert(history.parked.contains_key(s.ring[k].item.hash));
            }
            lemma_released_before(s.pending, history, operation.hash, operations);
            if first_release(history, operation.hash, operations) {
                lemma_release_becomes_events(s, history, input, operations, result.ring);
            }
        },
        _ => {},
    }
}

/// What an ingestion leaves of the buffer.
proof fn lemma_ingestion<E, TP, M, V>(s: Processing<E, TP, M>, arrival: Arrival<E, TP, M, V>, capacity: nat)
    requires
        filed(s.ring),
        positions_distinct(s.ring),
        in_step(arriving(arrival), arrival.replies, s.ring, capacity),
    ensures
        ({
            let operation = arrival.input.operation;
            let result = ingested(s, arrival, capacity);
            match result.outcome {
                Some(Outcome::OutOfOrder { .. }) => result.ring == pushed(
                    s.ring,
                    capacity,
                    entry(operation, arrival.input.args.log_id),
                ),
                Some(Outcome::Ordered(operations)) => {
                    &&& operations.contains(operation)
                    &&& forall|i: int|
                        0 <= i < operations.len() ==> #[trigger] operations[i] == operation
                            || buffered(s.ring, operations[i])
                    &&& forall|k: int|
                        0 <= k < result.ring.len() ==> s.ring.contains(#[trigger] result.ring[k])
                    &&& filed(result.ring)
                    &&& positions_distinct(result.ring)
                    &&& unambiguous(s, arrival) ==> {
                        &&& hashes_distinct(operations)
                        &&& forall|i: int, k: int|
                            0 <= i < operations.len() && 0 <= k < result.ring.len() && (
                            #[trigger] operations[i]).hash != operation.hash ==> operations[i].hash
                                != (#[trigger] result.ring[k]).item.hash
                        &&& ids_distinct(result.ring)
                    }
                },
                _ => result.ring == s.ring,
            }
        }),
{
    let operation = arrival.input.operation;
    let log_id = arrival.input.args.log_id;
    let result = ingested(s, arrival, capacity);
    law_failed_ingestion_keeps_buffer(
        operation,
        log_id,
        arrival.input.args.topic,
        arrival.input.args.prune_flag,
        true,
        arrival.replies,
        s.ring,
        capacity,
    );
    if let Some(Outcome::Ordered(operations)) = result.outcome {
        let frontier = choose|frontier: Option<Frontier>|
            {
                &&& operations == #[trigger] release(s.ring, capacity, operation, frontier, log_id)
                &&& result.ring == drained(s.ring, capacity, operation, frontier, log_id)
            };
        law_release_is_one_run(s.ring, capacity, operation, frontier, log_id);
        law_release_comes_from_buffer(s.ring, capacity, operation, frontier, log_id);
        if unambiguous(s, arrival) {
            law_release_is_unambiguous(s.ring, capacity, operation, frontier, log_id);
        }
    }
}

/// A release whose operations were all parked can be put together again exactly when none of them was
/// released before.
proof fn lemma_released_before<E, TP, M>(
    pending: Map<OperationHash, Parked<TP, M>>,
    history: History<E, TP, M>,
    trigger: OperationHash,
    operations: Seq<Operation<E>>,
)
    requires
        forall|hash: OperationHash| #[trigger]
            pending.contains_key(hash) <==> history.parked.contains_key(hash)
                && !history.released.contains(hash),
        forall|i: int|
            0 <= i < operations.len() && (#[trigger] operations[i]).hash != trigger
                ==> history.parked.contains_key(operations[i].hash),
    ensures
        releasable(pending, trigger, operations) <==> first_release(history, trigger, operations),
{
    if releasable(pending, trigger, operations) {
        assert forall|i: int| 0 <= i < operations.len() && (#[trigger] operations[i]).hash
            != trigger implies !history.released.contains(operations[i].hash) by {
            assert(pending.contains_key(operations[i].hash));
        }
    }
    if first_release(history, trigger, operations) {
        assert forall|i: int| 0 <= i < operations.len() && (#[trigger] operations[i]).hash
            != trigger implies pending.contains_key(operations[i].hash) by {
            assert(!history.released.contains(operations[i].hash));
        }
    }
}

proof fn lemma_release_becomes_events<E, TP, M>(
    s: Processing<E, TP, M>,
    history: History<E, TP, M>,
    input: Event<E, TP, M>,
    operations: Seq<Operation<E>>,
    left: Seq<RingEntry<Operation<E>>>,
)
    requires
        remembers(s, history),
        operations.contains(input.operation),
        hashes_distinct(operations),
        releasable(s.pending, input.operation.hash, operations),
    ensures
        becomes_events(
            s,
            history,
            input,
            operations,
            processed((Processing { ring: left, ..s }), input, Outcome::Ordered(operations)),
        ),
{
    let after = processed(Processing { ring: left, ..s }, input, Outcome::Ordered(operations));
    let items = released_items(s.pending, input, operations);
    let own = choose|i: int| 0 <= i < operations.len() && operations[i] == input.operation;
    assert forall|i: int| 0 <= i < operations.len() implies ({
        let event = if operations[i].hash == input.operation.hash {
            input
        } else {
            unparked(operations[i], parked_of(history.parked[operations[i].hash]))
        };
        &&& event.operation == operations[i]
        &&& #[trigger] after.queue[s.queue.len() + i] == (
            event,
            Outcome::<E, ()>::Ordered(operations),
        )
    }) by {
        if operations[i].hash == input.operation.hash {
            if i < own {
                assert(operations[i].hash != operations[own].hash);
            }
            if own < i {
                assert(operations[own].hash != operations[i].hash);
            }
        } else {
            assert(s.pending.contains_key(operations[i].hash));
        }
        assert(after.queue[s.queue.len() + i] == items[i]);
    }
}

/// The state and what has happened after the first `count` events were ingested and processed.
pub open spec fn after_arrivals<E, TP, M, V>(
    s: Processing<E, TP, M>,
    history: History<E, TP, M>,
    arrivals: Seq<Arrival<E, TP, M, V>>,
    capacity: nat,
    count: nat,
) -> (Processing<E, TP, M>, History<E, TP, M>)
    decreases count,
{
    if count == 0 {
        (s, history)
    } else {
        let before = (count - 1) as nat;
        let (earlier, known) = after_arrivals(s, history, arrivals, capacity, before);
        (
            after_arrival(earlier, arrivals[before as int], capacity),
            history_after(known, earlier, arrivals[before as int], capacity),
        )
    }
}

/// Whether the store replies to what it is asked, whatever arrives.
pub open spec fn all_in_step<E, TP, M, V>(
    s: Processing<E, TP, M>,
    history: History<E, TP, M>,
    arrivals: Seq<Arrival<E, TP, M, V>>,
    capacity: nat,
) -> bool {
    forall|i: nat|
        i < arrivals.len() ==> in_step(
            arriving(arrivals[i as int]),
            arrivals[i as int].replies,
            (#[trigger] after_arrivals(s, history, arrivals, capacity, i)).0.ring,
            capacity,
        )
}

/// Every release becomes events: whatever events arrive and however the store replies, an operation
/// which the buffer releases comes out with the arguments and the metadata which were parked for it.
/// The only release which can't be put together again is one of an operation which was already
/// released since it was parked, as it can be where it was sent under two log ids.
pub proof fn law_every_release_becomes_events<E, TP, M, V>(
    s: Processing<E, TP, M>,
    history: History<E, TP, M>,
    arrivals: Seq<Arrival<E, TP, M, V>>,
    capacity: nat,
    count: nat,
)
    requires
        remembers(s, history),
        all_in_step(s, history, arrivals, capacity),
        count < arrivals.len(),
    ensures
        ({
            let (before, known) = after_arrivals(s, history, arrivals, capacity, count);
            let arrival = arrivals[count as int];
            let hash = arrival.input.operation.hash;
            &&& remembers(before, known)
            &&& ingested(before, arrival, capacity).outcome matches Some(
                Outcome::Ordered(operations),
            ) ==> {
                &&& releasable(before.pending, hash, operations) <==> first_release(
                    known,
                    hash,
                    operations,
                )
                &&& first_release(known, hash, operations) ==> becomes_events(
                    before,
                    known,
                    arrival.input,
                    operations,
                    after_arrival(before, arrival, capacity),
                )
            }
        }),
    decreases count,
{
    if count > 0 {
        let earlier = (count - 1) as nat;
        law_every_release_becomes_events(s, history, arrivals, capacity, earlier);
        let (state, known) = after_arrivals(s, history, arrivals, capacity, earlier);
        law_arrival_is_remembered(state, known, arrivals[earlier as int], capacity);
    }
    let (before, known) = after_arrivals(s, history, arrivals, capacity, count);
    law_arrival_is_remembered(before, known, arrivals[count as int], capacity);
}

/// Whether everything is kept for every buffered operation: its hash waits in one place only, and its
/// metadata is there.
pub open spec fn sound<E, TP, M>(s: Processing<E, TP, M>) -> bool {
    &&& filed(s.ring)
    &&& positions_distinct(s.ring)
    &&& ids_distinct(s.ring)
    &&& forall|i: int|
        0 <= i < s.ring.len() ==> s.pending.contains_key((#[trigger] s.ring[i]).item.hash)
}

/// Whether it is clear which operation an arrival is about: every buffered hash waits in one place
/// only, the arriving one at its own, and no hash leads back to itself.
pub open spec fn unambiguous<E, TP, M, V>(s: Processing<E, TP, M>, arrival: Arrival<E, TP, M, V>) -> bool {
    &&& ids_distinct(s.ring)
    &&& one_place(s.ring, arrival.input.operation, arrival.input.args.log_id)
    &&& !leads_back(s.ring, arrival.input.operation, arrival.input.args.log_id)
}

/// Where no operation is sent again under another log id while it waits, every release can be put
/// together again, and everything is kept for the operations which go on waiting.
pub proof fn law_arrival_is_sound<E, TP, M, V>(
    s: Processing<E, TP, M>,
    arrival: Arrival<E, TP, M, V>,
    capacity: nat,
)
    requires
        sound(s),
        unambiguous(s, arrival),
        in_step(arriving(arrival), arrival.replies, s.ring, capacity),
    ensures
        sound(after_arrival(s, arrival, capacity)),
        ingested(s, arrival, capacity).outcome matches Some(Outcome::Ordered(operations))
            ==> releasable(s.pending, arrival.input.operation.hash, operations),
{
    let input = arrival.input;
    let operation = input.operation;
    let result = ingested(s, arrival, capacity);
    let after = after_arrival(s, arrival, capacity);
    lemma_ingestion(s, arrival, capacity);
    match result.outcome {
        Some(Outcome::OutOfOrder { .. }) => {
            let arrived = entry(operation, input.args.log_id);
            assert forall|i: int| 0 <= i < s.ring.len() && (#[trigger] s.ring[i]).id
                == arrived.id implies waits_on(
                s.ring[i],
                arrived.author,
                arrived.backlink,
                arrived.log_id,
            ) by {
                assert(s.ring[i] == entry(s.ring[i].item, s.ring[i].log_id));
            }
            law_push_keeps_positions_distinct(s.ring, capacity, arrived);
            law_push_keeps_ids_distinct(s.ring, capacity, arrived);
            law_push_adds_one_entry(s.ring, capacity, arrived);
            assert forall|i: int| 0 <= i < after.ring.len() implies #[trigger] after.ring[i] == entry(
                after.ring[i].item,
                after.ring[i].log_id,
            ) && after.pending.contains_key(after.ring[i].item.hash) by {
                if after.ring[i] != arrived {
                    assert(s.ring.contains(after.ring[i]));
                    let j = choose|j: int| 0 <= j < s.ring.len() && s.ring[j] == after.ring[i];
                    assert(s.ring[j] == entry(s.ring[j].item, s.ring[j].log_id));
                    assert(s.pending.contains_key(s.ring[j].item.hash));
                }
            }
        },
        Some(Outcome::Ordered(operations)) => {
            assert forall|k: int| 0 <= k < after.ring.len() implies after.pending.contains_key(
                (#[trigger] after.ring[k]).item.hash,
            ) by {
                assert(s.ring.contains(after.ring[k]));
                let j = choose|j: int| 0 <= j < s.ring.len() && s.ring[j] == after.ring[k];
                assert(s.pending.contains_key(s.ring[j].item.hash));
                let hash = after.ring[k].item.hash;
                if hash != operation.hash && among(operations, hash) {
                    let i = choose|i: int|
                        0 <= i < operations.len() && (#[trigger] operations[i]).hash == hash;
                    assert(operations[i].hash != result.ring[k].item.hash);
                }
            }
            assert forall|i: int| 0 <= i < operations.len() && (#[trigger] operations[i]).hash
                != operation.hash implies s.pending.contains_key(operations[i].hash) by {
                assert(buffered(s.ring, operations[i]));
                let k = choose|k: int| 0 <= k < s.ring.len() && (#[trigger] s.ring[k]).item
                    == operations[i];
                assert(s.pending.contains_key(s.ring[k].item.hash));
            }
        },
        _ => {},
    }
}

/// The same over a whole course of arrivals: where it is always clear which operation an arrival is
/// about, every release can be put together again.
pub proof fn law_every_release_is_releasable<E, TP, M, V>(
    s: Processing<E, TP, M>,
    history: History<E, TP, M>,
    arrivals: Seq<Arrival<E, TP, M, V>>,
    capacity: nat,
    count: nat,
)
    requires
        sound(s),
        all_in_step(s, history, arrivals, capacity),
        forall|i: nat|
            i < arrivals.len() ==> unambiguous(
                (#[trigger] after_arrivals(s, history, arrivals, capacity, i)).0,
                arrivals[i as int],
            ),
        count < arrivals.len(),
    ensures
        ({
            let before = after_arrivals(s, history, arrivals, capacity, count).0;
            let arrival = arrivals[count as int];
            &&& sound(before)
            &&& ingested(before, arrival, capacity).outcome matches Some(
                Outcome::Ordered(operations),
            ) ==> releasable(before.pending, arrival.input.operation.hash, operations)
        }),
    decreases count,
{
    if count > 0 {
        let earlier = (count - 1) as nat;
        law_every_release_is_releasable(s, history, arrivals, capacity, earlier);
        let state = after_arrivals(s, history, arrivals, capacity, earlier).0;
        law_arrival_is_sound(state, arrivals[earlier as int], capacity);
    }
    let before = after_arrivals(s, history, arrivals, capacity, count).0;
    law_arrival_is_sound(before, arrivals[count as int], capacity);
}

/// No event is lost: one whose operation was ingested without an error is handed on itself, behind
/// everything which was queued before.
pub proof fn law_arrived_event_is_handed_on<E, TP, M, V>(
    s: Processing<E, TP, M>,
    arrival: Arrival<E, TP, M, V>,
    capacity: nat,
)
    requires
        filed(s.ring),
        positions_distinct(s.ring),
        in_step(arriving(arrival), arrival.replies, s.ring, capacity),
        success(ingested(s, arrival, capacity).outcome) is Some,
    ensures
        s.queue.is_prefix_of(after_arrival(s, arrival, capacity).queue),
        exists|i: int|
            {
                &&& s.queue.len() <= i < after_arrival(s, arrival, capacity).queue.len()
                &&& (#[trigger] after_arrival(s, arrival, capacity).queue[i]).0 == arrival.input
            },
{
    let input = arrival.input;
    let after = after_arrival(s, arrival, capacity);
    lemma_ingestion(s, arrival, capacity);
    match ingested(s, arrival, capacity).outcome {
        Some(Outcome::Ordered(operations)) => {
            let own = choose|i: int| 0 <= i < operations.len() && operations[i] == input.operation;
            let items = released_items(s.pending, input, operations);
            assert(items[own].0 == input);
            assert(after.queue[s.queue.len() + own] == items[own]);
        },
        _ => {
            assert(after.queue[s.queue.len() as int].0 == input);
        },
    }
}

/// A processor which has just started knows everything.
pub proof fn law_fresh_processor_is_sound<E, TP, M>(s: Processing<E, TP, M>)
    requires
        s.ring.len() == 0,
        s.pending == Map::<OperationHash, Parked<TP, M>>::empty(),
    ensures
        sound(s),
        remembers(s, no_history()),
{
}

/// A known gap is told about once: the next operations which park on the same log stay silent, until
/// the log released something. Then it is told about again.
pub proof fn law_known_gap_is_told_once<E, TP, M>(
    s: Processing<E, TP, M>,
    first: Event<E, TP, M>,
    second: Event<E, TP, M>,
    release: Event<E, TP, M>,
    operations: Seq<Operation<E>>,
)
    requires
        log_of(first) == log_of(second),
        log_of(first) == log_of(release),
    ensures
        ({
            let park = Outcome::<E, ()>::OutOfOrder { no_predecessor: false };
            let parked = processed(s, first, park);
            let released = processed(parked, release, Outcome::Ordered(operations));
            &&& notice(parked, second, park) is None
            &&& notice(released, second, park) is Some
        }),
{
}

/// Events are handed on in the order in which they were processed: what was queued before stays
/// queued in front of what is added.
pub proof fn law_queue_grows_at_its_end<E, TP, M>(
    s: Processing<E, TP, M>,
    input: Event<E, TP, M>,
    outcome: Outcome<E, ()>,
)
    ensures
        s.queue.is_prefix_of(processed(s, input, outcome).queue),
        processed(s, input, outcome).queue.len() == s.queue.len() + match outcome {
            Outcome::Ordered(operations) => operations.len(),
            _ => 1,
        },
{
}

} // verus!
