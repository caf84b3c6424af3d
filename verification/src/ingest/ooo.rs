//! Out-of-order (ooo) buffer.

use crate::ingest::ring::{
    chain, evicted, evicted_log, holds, ids_distinct, items_of, law_chain_comes_from_ring,
    law_chain_is_linked, law_chain_positions_distinct, law_left_comes_from_ring,
    law_nothing_waits_on_released, law_pop_again_is_empty, law_pop_conserves,
    law_pop_keeps_ids_distinct, law_pop_keeps_positions_distinct, law_pop_spares_other_logs,
    law_pop_splits_ring, law_push_adds_one_entry, law_push_keeps_ids_distinct,
    law_push_keeps_positions_distinct, law_released_position_is_free, other_logs, position,
    positions_distinct, pushed, waits_on, without_chain, ChainRing, RingEntry,
};
use crate::types::{
    AuthorLog, Frontier, Header, LogId, Operation, OperationHash, SeqNum, VerifyingKey,
};
use vstd::prelude::*;

verus! {

/// Number of operations which the default buffer holds.
pub const DEFAULT_CAPACITY: usize = 128;

/// What the buffer decided about an incoming operation.
#[derive(Debug)]
pub enum OooResult<'a, E> {
    /// Operation is already in-order and doesn't need buffering.
    InOrder(&'a Operation<E>),

    /// Operation freed buffered items which are now in-order.
    ///
    /// The incoming operation itself is also included in the array.
    Ordered(Vec<Operation<E>>),

    /// Operation is out-of-order and will be buffered.
    OutOfOrder,

    /// Operation is from before a pruning point and thus outdated.
    Outdated,
}

/// Where an operation stands relative to the frontier of its log.
pub enum Placement {
    /// It marks a pruning point: all operations before it become redundant.
    PruningPoint,

    /// It is from before the frontier.
    Outdated,

    /// It is the next expected operation of the log, as far as its height tells.
    Next,

    /// It has to wait until the log can be continued from this position.
    Waiting(Option<OperationHash>),
}

/// Whether an operation at `seq_num` is to be appended to a log with a frontier at `latest`.
///
/// A second operation at the very start of a log counts as in-order as well: it is left to the log
/// integrity check to reject it.
pub open spec fn follows(latest: SeqNum, seq_num: SeqNum) -> bool {
    seq_num == latest + 1 || (seq_num == 0 && latest == 0)
}

/// The position from which a log has to be continued so that an operation at `seq_num` can be
/// appended, `latest` being the frontier of the log.
///
/// This is the frontier itself. An operation at the frontier's own height is a fork: it takes the
/// place of the frontier and goes on from the position before it.
pub open spec fn expected_position(latest: Frontier, seq_num: SeqNum) -> Option<OperationHash> {
    if seq_num == latest.header.seq_num {
        latest.header.backlink
    } else {
        Some(latest.hash)
    }
}

/// Where an operation with this header stands, `latest` being the frontier of its log.
pub open spec fn placement(
    header: Header,
    latest: Option<Frontier>,
    prune_flag: bool,
) -> Placement {
    if prune_flag {
        Placement::PruningPoint
    } else {
        match latest {
            None => Placement::Waiting(None),
            Some(latest) => {
                if header.seq_num < latest.header.seq_num {
                    Placement::Outdated
                } else if follows(latest.header.seq_num, header.seq_num) {
                    Placement::Next
                } else {
                    Placement::Waiting(expected_position(latest, header.seq_num))
                }
            },
        }
    }
}

/// The ring entry of an operation.
pub open spec fn entry<E>(operation: Operation<E>, log_id: LogId) -> RingEntry<Operation<E>> {
    RingEntry {
        author: operation.header.verifying_key,
        backlink: operation.header.backlink,
        log_id,
        id: operation.hash,
        item: operation,
    }
}

/// Whether every entry of `ring` stands under the key of its own operation.
pub open spec fn filed<E>(ring: Seq<RingEntry<Operation<E>>>) -> bool {
    forall|i: int|
        0 <= i < ring.len() ==> #[trigger] ring[i] == entry(ring[i].item, ring[i].log_id)
}

/// Whether one of the operations has this hash.
pub open spec fn among<E>(operations: Seq<Operation<E>>, hash: OperationHash) -> bool {
    exists|i: int| 0 <= i < operations.len() && (#[trigger] operations[i]).hash == hash
}

/// Whether the chain which waits on an operation leads back to the operation's own hash. No log is
/// like this, as a hash would depend on itself.
pub open spec fn leads_back<E>(
    ring: Seq<RingEntry<Operation<E>>>,
    operation: Operation<E>,
    log_id: LogId,
) -> bool {
    among(
        items_of(chain(ring, operation.header.verifying_key, Some(operation.hash), log_id)),
        operation.hash,
    )
}

/// What an operation releases which is the next one of its log: itself and the chain which waits on
/// it.
pub open spec fn next_release<E>(
    ring: Seq<RingEntry<Operation<E>>>,
    operation: Operation<E>,
    log_id: LogId,
) -> Seq<Operation<E>> {
    let freed = items_of(
        chain(ring, operation.header.verifying_key, Some(operation.hash), log_id),
    );
    if freed.len() == 0 {
        seq![]
    } else {
        seq![operation] + freed
    }
}

/// What an operation releases which can't be appended to its log yet: the chain which continues the
/// log from the expected position on, if the operation itself is part of it.
pub open spec fn waiting_release<E>(
    ring: Seq<RingEntry<Operation<E>>>,
    capacity: nat,
    operation: Operation<E>,
    expected: Option<OperationHash>,
    log_id: LogId,
) -> Seq<Operation<E>> {
    let links = chain(
        pushed(ring, capacity, entry(operation, log_id)),
        operation.header.verifying_key,
        expected,
        log_id,
    );
    if links.contains(entry(operation, log_id)) {
        items_of(links)
    } else {
        seq![]
    }
}

/// The operations which an arriving operation releases, in the order of the log. It is empty where
/// nothing is released.
pub open spec fn release<E>(
    ring: Seq<RingEntry<Operation<E>>>,
    capacity: nat,
    operation: Operation<E>,
    latest: Option<Frontier>,
    log_id: LogId,
) -> Seq<Operation<E>> {
    match placement(operation.header, latest, false) {
        Placement::Next => next_release(ring, operation, log_id),
        Placement::Waiting(expected) => waiting_release(
            ring,
            capacity,
            operation,
            expected,
            log_id,
        ),
        _ => seq![],
    }
}

/// The ring once an arriving operation was handled and everything it releases has left: an operation
/// which has to wait is in it.
pub open spec fn drained<E>(
    ring: Seq<RingEntry<Operation<E>>>,
    capacity: nat,
    operation: Operation<E>,
    latest: Option<Frontier>,
    log_id: LogId,
) -> Seq<RingEntry<Operation<E>>> {
    let author = operation.header.verifying_key;
    let released = release(ring, capacity, operation, latest, log_id);
    match placement(operation.header, latest, false) {
        Placement::Next => {
            if released.len() == 0 {
                ring
            } else {
                without_chain(ring, author, Some(operation.hash), log_id)
            }
        },
        Placement::Waiting(expected) => {
            let waiting = pushed(ring, capacity, entry(operation, log_id));
            if released.len() == 0 {
                waiting
            } else {
                without_chain(waiting, author, expected, log_id)
            }
        },
        _ => ring,
    }
}

/// Whether an operation is buffered.
pub open spec fn buffered<E>(ring: Seq<RingEntry<Operation<E>>>, operation: Operation<E>) -> bool {
    exists|i: int| 0 <= i < ring.len() && (#[trigger] ring[i]).item == operation
}

/// Whether the hash of an operation waits at the operation's own place only, if it is buffered at all.
///
/// An operation which was sent under two log ids could wait in two places.
pub open spec fn one_place<E>(
    ring: Seq<RingEntry<Operation<E>>>,
    operation: Operation<E>,
    log_id: LogId,
) -> bool {
    forall|i: int|
        0 <= i < ring.len() && (#[trigger] ring[i]).item.hash == operation.hash ==> waits_on(
            ring[i],
            operation.header.verifying_key,
            operation.header.backlink,
            log_id,
        )
}

/// Whether a value occurs exactly once.
pub open spec fn once<A>(values: Seq<A>, value: A) -> bool {
    exists|i: int|
        {
            &&& 0 <= i < values.len()
            &&& #[trigger] values[i] == value
            &&& forall|j: int| 0 <= j < values.len() && #[trigger] values[j] == value ==> j == i
        }
}

/// Whether `operations` is one gapless run of the author's log which holds the operation: each one
/// links back to the one before it. It begins with the operation itself where that is the next one of
/// the log, and right after the expected position where it is not.
pub open spec fn one_run<E>(
    operations: Seq<Operation<E>>,
    operation: Operation<E>,
    latest: Option<Frontier>,
) -> bool {
    &&& operations.contains(operation)
    &&& forall|i: int|
        0 <= i < operations.len() ==> (#[trigger] operations[i]).header.verifying_key
            == operation.header.verifying_key
    &&& forall|i: int|
        0 <= i < operations.len() - 1 ==> #[trigger] operations[i + 1].header.backlink == Some(
            operations[i].hash,
        )
    &&& match placement(operation.header, latest, false) {
        Placement::Next => operations[0] == operation,
        Placement::Waiting(expected) => operations[0].header.backlink == expected,
        _ => false,
    }
}

/// Out-of-order (ooo) buffer allowing a configurable window for handling operations with no
/// predecessors yet.
///
/// For every operation this buffer checks if it arrived out-of-order. If yes, it is stored in the
/// internal ring-buffer. If the buffer runs full the oldest item gets evicted first.
///
/// ## Example
///
/// If a log is at log height `[1]` (frontier) and an operation of sequence number `[3]` arrives, it
/// can not be appended to the log due to the strict nature of an append-only log. It will be pushed
/// into the buffer, awaiting the missing `[2]` operation. When `[2]` arrives it frees the waiting
/// items, and the buffer returns `[2, 3]`.
///
/// ## Releases are previewed
///
/// [`OooBuffer::process`] leaves the ring as it is when it returns [`OooResult::Ordered`]. Only
/// once the released operations were committed to the store, [`OooBuffer::commit_release`] takes
/// them out of the ring. A failed commit therefore loses nothing, and a second attempt finds the
/// identical release.
///
/// ## Keys
///
/// Entries are keyed by `(author, backlink, log_id)`: a log id is frequently shared by every author
/// on a topic, and no author may release or replace another author's operations.
#[derive(Debug)]
pub struct OooBuffer<E> {
    ring: ChainRing<Operation<E>>,
}

impl<E> Default for OooBuffer<E> {
    fn default() -> (buffer: Self)
        ensures
            buffer.wf(),
            buffer@ == Seq::<RingEntry<Operation<E>>>::empty(),
            buffer.limit() == DEFAULT_CAPACITY,
    {
        Self::new()
    }
}

impl<E> OooBuffer<E> {
    /// The buffered operations, oldest first.
    pub closed spec fn view(&self) -> Seq<RingEntry<Operation<E>>> {
        self.ring@
    }

    /// Number of operations the buffer keeps.
    pub closed spec fn limit(&self) -> nat {
        self.ring.limit()
    }

    /// The ring is well-formed, and every entry stands under its own operation's key.
    pub closed spec fn wf(&self) -> bool {
        &&& self.ring.wf()
        &&& filed(self.ring@)
    }

    /// Every entry of a buffer stands under its own operation's key, no two entries wait on the same
    /// position, and there are never more of them than the buffer keeps.
    pub proof fn law_buffer_invariant(&self)
        requires
            self.wf(),
        ensures
            filed(self@),
            positions_distinct(self@),
            self@.len() <= self.limit() || self@.len() <= 1,
    {
        self.ring.lemma_positions_distinct();
        self.ring.law_ring_is_bounded();
    }

    pub fn new() -> (buffer: Self)
        ensures
            buffer.wf(),
            buffer@ == Seq::<RingEntry<Operation<E>>>::empty(),
            buffer.limit() == DEFAULT_CAPACITY,
    {
        Self::with_capacity(DEFAULT_CAPACITY)
    }

    pub fn with_capacity(capacity: usize) -> (buffer: Self)
        ensures
            buffer.wf(),
            buffer@ == Seq::<RingEntry<Operation<E>>>::empty(),
            buffer.limit() == capacity,
    {
        OooBuffer { ring: ChainRing::with_capacity(capacity) }
    }

    pub fn len(&self) -> (len: usize)
        requires
            self.wf(),
        ensures
            len == self@.len(),
    {
        self.ring.len()
    }

    pub fn is_empty(&self) -> (empty: bool)
        requires
            self.wf(),
        ensures
            empty == (self@.len() == 0),
    {
        self.ring.is_empty()
    }

    pub fn clear(&mut self)
        requires
            old(self).wf(),
        ensures
            final(self).wf(),
            final(self).limit() == old(self).limit(),
            final(self)@ == Seq::<RingEntry<Operation<E>>>::empty(),
    {
        self.ring.clear();
    }

    /// The log which loses its oldest buffered operation when an incoming one is processed, `latest`
    /// being the frontier of the incoming operation's log.
    ///
    /// Only an operation which has to wait is buffered, and only a full buffer evicts.
    pub fn evicts(
        &self,
        operation: &Operation<E>,
        latest: Option<Frontier>,
        prune_flag: bool,
    ) -> (log: Option<AuthorLog>)
        requires
            self.wf(),
        ensures
            log == match placement(operation.header, latest, prune_flag) {
                Placement::Waiting(_) => evicted_log(self@, self.limit()),
                _ => None,
            },
    {
        if prune_flag {
            return None;
        }
        if let Some(frontier) = latest {
            let seq_num: SeqNum = operation.header.seq_num;
            if seq_num < frontier.header.seq_num || Self::is_next(frontier.header.seq_num, seq_num) {
                return None;
            }
        }
        self.ring.evicts_next()
    }

    /// Decides about an incoming operation, `latest` being the frontier of its log.
    ///
    /// An operation which can't be appended yet and completes no chain is buffered. A release is only
    /// previewed, see [`OooBuffer::commit_release`].
    pub fn process<'a>(
        &mut self,
        operation: &'a Operation<E>,
        latest: Option<Frontier>,
        log_id: LogId,
        prune_flag: bool,
    ) -> (result: OooResult<'a, E>)
        requires
            old(self).wf(),
        ensures
            final(self).wf(),
            final(self).limit() == old(self).limit(),
            ({
                let freed = release(old(self)@, old(self).limit(), *operation, latest, log_id);
                match placement(operation.header, latest, prune_flag) {
                    Placement::PruningPoint => {
                        &&& result == OooResult::InOrder(operation)
                        &&& final(self)@ == old(self)@
                    },
                    Placement::Outdated => {
                        &&& result == OooResult::<'a, E>::Outdated
                        &&& final(self)@ == old(self)@
                    },
                    Placement::Next => {
                        &&& final(self)@ == old(self)@
                        &&& if freed.len() == 0 {
                            result == OooResult::InOrder(operation)
                        } else {
                            result matches OooResult::Ordered(operations) && operations@ == freed
                        }
                    },
                    Placement::Waiting(_) => {
                        if freed.len() == 0 {
                            &&& result == OooResult::<'a, E>::OutOfOrder
                            &&& final(self)@ == pushed(
                                old(self)@,
                                old(self).limit(),
                                entry(*operation, log_id),
                            )
                        } else {
                            &&& result matches OooResult::Ordered(operations)
                            &&& operations@ == freed
                            &&& final(self)@ == old(self)@
                        }
                    },
                }
            }),
            result matches OooResult::Ordered(operations) ==> one_run(
                operations@,
                *operation,
                latest,
            ),
            result matches OooResult::Ordered(operations) ==> once(operations@, *operation)
                || leads_back(old(self)@, *operation, log_id),
    {
        // Operation marks a prune point and all operations before that point become redundant,
        // including the ones which would theoretically be "freed" by it. They remain in the buffer
        // unused, until they get evicted.
        if prune_flag {
            return OooResult::InOrder(operation);
        }
        proof {
            self.law_buffer_invariant();
            if release(self@, self.limit(), *operation, latest, log_id).len() > 0 {
                law_release_is_one_run(self@, self.limit(), *operation, latest, log_id);
            }
        }
        match latest {
            Some(frontier) => {
                if operation.header.seq_num < frontier.header.seq_num {
                    // Operation is from _before_ the log frontier and thus redundant. Duplicates
                    // were filtered out before, so it belongs to a removed log-prefix.
                    return OooResult::Outdated;
                }
                if Self::is_next(frontier.header.seq_num, operation.header.seq_num) {
                    // Operation is the next expected item in the log. It may be the missing
                    // predecessor of a chain which waits in the buffer.
                    let (_, freed) = self.plan_next(operation, log_id);
                    if freed.len() == 0 {
                        return OooResult::InOrder(operation);
                    }
                    return OooResult::Ordered(freed);
                }
            },
            None => {},
        }
        // Operation is _after_ the log frontier, or there's no log yet: it can't be appended. It
        // waits in the buffer unless it completes a chain which continues the log.
        let expected: Option<OperationHash> = match latest {
            Some(frontier) => Self::expected(frontier, operation.header.seq_num),
            None => None,
        };
        let (ring, freed) = self.plan_waiting(operation, expected, log_id);
        if freed.len() == 0 {
            self.ring = ring;
            OooResult::OutOfOrder
        } else {
            OooResult::Ordered(freed)
        }
    }

    /// Whether an operation at `seq_num` is to be appended to a log with a frontier at `latest`.
    fn is_next(latest: SeqNum, seq_num: SeqNum) -> (next: bool)
        ensures
            next == follows(latest, seq_num),
    {
        (seq_num == 0 && latest == 0) || (seq_num > latest && seq_num - latest == 1)
    }

    /// The position from which a log has to be continued.
    fn expected(latest: Frontier, seq_num: SeqNum) -> (expected: Option<OperationHash>)
        ensures
            expected == expected_position(latest, seq_num),
    {
        if seq_num == latest.header.seq_num {
            latest.header.backlink
        } else {
            Some(latest.hash)
        }
    }

    /// What the next operation of a log releases, with the ring it leaves behind.
    fn plan_next(&self, operation: &Operation<E>, log_id: LogId) -> (plan: (
        ChainRing<Operation<E>>,
        Vec<Operation<E>>,
    ))
        requires
            self.wf(),
        ensures
            plan.1@ == next_release(self@, *operation, log_id),
            plan.0.wf(),
            filed(plan.0@),
            plan.0.limit() == self.limit(),
            plan.0@ == if plan.1@.len() == 0 {
                self@
            } else {
                without_chain(
                    self@,
                    operation.header.verifying_key,
                    Some(operation.hash),
                    log_id,
                )
            },
    {
        let author = operation.header.verifying_key;
        let mut ring = self.ring.duplicate();
        let mut freed = ring.pop_from(author, Some(operation.hash), log_id);
        proof {
            lemma_filed_without_chain(self@, author, Some(operation.hash), log_id);
        }
        let mut released: Vec<Operation<E>> = Vec::new();
        if freed.len() == 0 {
            return (self.ring.duplicate(), released);
        }
        released.push(operation.duplicate());
        released.append(&mut freed);
        (ring, released)
    }

    /// What an operation releases which can't be appended yet, with the ring it leaves behind. The
    /// operation is in that ring if nothing is released.
    fn plan_waiting(
        &self,
        operation: &Operation<E>,
        expected: Option<OperationHash>,
        log_id: LogId,
    ) -> (plan: (ChainRing<Operation<E>>, Vec<Operation<E>>))
        requires
            self.wf(),
        ensures
            plan.1@ == waiting_release(self@, self.limit(), *operation, expected, log_id),
            plan.0.wf(),
            filed(plan.0@),
            plan.0.limit() == self.limit(),
            ({
                let waiting = pushed(self@, self.limit(), entry(*operation, log_id));
                plan.0@ == if plan.1@.len() == 0 {
                    waiting
                } else {
                    without_chain(waiting, operation.header.verifying_key, expected, log_id)
                }
            }),
    {
        let author = operation.header.verifying_key;
        let backlink = operation.header.backlink;
        let mut waiting = self.ring.duplicate();
        waiting.push(author, operation.hash, backlink, log_id, operation.duplicate());
        let mut ring = waiting.duplicate();
        let freed = ring.pop_from(author, expected, log_id);
        // The operation was released if nothing waits at its place any longer.
        let mut rest = ring.duplicate();
        let parked = rest.pop_from(author, backlink, log_id);
        proof {
            self.law_buffer_invariant();
            law_push_keeps_positions_distinct(self@, self.limit(), entry(*operation, log_id));
            lemma_filed_without_chain(waiting@, author, expected, log_id);
            lemma_pushed_entry(self@, self.limit(), *operation, log_id);
            lemma_released_or_parked(waiting@, *operation, expected, log_id);
        }
        if parked.len() == 0 {
            (ring, freed)
        } else {
            (waiting, Vec::new())
        }
    }

    /// Takes a previewed release out of the ring.
    ///
    /// Call it with the arguments of the [`OooBuffer::process`] call which returned
    /// [`OooResult::Ordered`], after the released operations were committed.
    pub fn commit_release(
        &mut self,
        operation: &Operation<E>,
        latest: Option<Frontier>,
        log_id: LogId,
    )
        requires
            old(self).wf(),
        ensures
            final(self).wf(),
            final(self).limit() == old(self).limit(),
            final(self)@ == drained(old(self)@, old(self).limit(), *operation, latest, log_id),
    {
        let mut expected: Option<OperationHash> = None;
        if let Some(frontier) = latest {
            if operation.header.seq_num < frontier.header.seq_num {
                return;
            }
            if Self::is_next(frontier.header.seq_num, operation.header.seq_num) {
                let (ring, _) = self.plan_next(operation, log_id);
                self.ring = ring;
                return;
            }
            expected = Self::expected(frontier, operation.header.seq_num);
        }
        let (ring, _) = self.plan_waiting(operation, expected, log_id);
        self.ring = ring;
    }
}

/// An operation which was pushed stands in the ring.
proof fn lemma_pushed_entry<E>(
    ring: Seq<RingEntry<Operation<E>>>,
    capacity: nat,
    operation: Operation<E>,
    log_id: LogId,
)
    ensures
        pushed(ring, capacity, entry(operation, log_id)).contains(entry(operation, log_id)),
{
    let kept = evicted(ring, capacity);
    let waiting = entry(operation, log_id);
    let after = pushed(ring, capacity, waiting);
    if holds(kept, waiting.author, waiting.backlink, waiting.log_id) {
        let at = position(kept, waiting.author, waiting.backlink, waiting.log_id);
        assert(after[at] == waiting);
    } else {
        assert(after[kept.len() as int] == waiting);
    }
}

/// A chain holds an operation of the ring exactly when nothing is left at the operation's position.
proof fn lemma_released_or_parked<E>(
    ring: Seq<RingEntry<Operation<E>>>,
    operation: Operation<E>,
    expected: Option<OperationHash>,
    log_id: LogId,
)
    requires
        positions_distinct(ring),
        ring.contains(entry(operation, log_id)),
    ensures
        ({
            let author = operation.header.verifying_key;
            let links = chain(ring, author, expected, log_id);
            let left = without_chain(ring, author, expected, log_id);
            let parked = chain(left, author, operation.header.backlink, log_id);
            &&& links.contains(entry(operation, log_id)) <==> parked.len() == 0
            &&& links.contains(entry(operation, log_id)) ==> links.len() > 0
        }),
{
    let author = operation.header.verifying_key;
    let backlink = operation.header.backlink;
    let waiting = entry(operation, log_id);
    let links = chain(ring, author, expected, log_id);
    let left = without_chain(ring, author, expected, log_id);
    let at = choose|i: int| 0 <= i < ring.len() && ring[i] == waiting;
    law_pop_splits_ring(ring, author, expected, log_id, at);
    if links.contains(waiting) {
        law_released_position_is_free(ring, author, expected, log_id, waiting);
    } else {
        let k = choose|k: int| 0 <= k < left.len() && left[k] == waiting;
        assert(waits_on(left[k], author, backlink, log_id));
        assert(holds(left, author, backlink, log_id));
    }
}

proof fn lemma_filed_without_chain<E>(
    ring: Seq<RingEntry<Operation<E>>>,
    author: VerifyingKey,
    backlink: Option<OperationHash>,
    log_id: LogId,
)
    requires
        filed(ring),
    ensures
        filed(without_chain(ring, author, backlink, log_id)),
    decreases ring.len(),
{
    if holds(ring, author, backlink, log_id) {
        let i = position(ring, author, backlink, log_id);
        lemma_filed_without_chain(ring.remove(i), author, Some(ring[i].id), log_id);
    }
}

/// A release is one gapless run of the author's log which holds the incoming operation, exactly once
/// unless what waits on it leads back to its own hash.
pub proof fn law_release_is_one_run<E>(
    ring: Seq<RingEntry<Operation<E>>>,
    capacity: nat,
    operation: Operation<E>,
    latest: Option<Frontier>,
    log_id: LogId,
)
    requires
        filed(ring),
        positions_distinct(ring),
        release(ring, capacity, operation, latest, log_id).len() > 0,
    ensures
        one_run(release(ring, capacity, operation, latest, log_id), operation, latest),
        once(release(ring, capacity, operation, latest, log_id), operation) || leads_back(
            ring,
            operation,
            log_id,
        ),
{
    let author = operation.header.verifying_key;
    let released = release(ring, capacity, operation, latest, log_id);
    match placement(operation.header, latest, false) {
        Placement::Next => {
            let freed = chain(ring, author, Some(operation.hash), log_id);
            law_chain_is_linked(ring, author, Some(operation.hash), log_id);
            lemma_filed_chain(ring, author, Some(operation.hash), log_id);
            assert forall|i: int| 0 <= i < released.len() - 1 implies #[trigger] released[i
                + 1].header.backlink == Some(released[i].hash) by {
                assert(released[i + 1] == freed[i].item);
                if i > 0 {
                    assert(released[i] == freed[i - 1].item);
                    assert(freed[(i - 1) + 1].backlink == Some(freed[i - 1].id));
                }
            }
            assert(released[0] == operation);
            if !leads_back(ring, operation, log_id) {
                assert forall|j: int| 0 <= j < released.len() && #[trigger] released[j]
                    == operation implies j == 0 by {
                    if j > 0 {
                        assert(items_of(freed)[j - 1].hash == operation.hash);
                    }
                }
            }
        },
        Placement::Waiting(expected) => {
            let waiting = pushed(ring, capacity, entry(operation, log_id));
            let freed = chain(waiting, author, expected, log_id);
            assert(filed(waiting));
            law_push_keeps_positions_distinct(ring, capacity, entry(operation, log_id));
            law_chain_is_linked(waiting, author, expected, log_id);
            law_chain_positions_distinct(waiting, author, expected, log_id);
            lemma_filed_chain(waiting, author, expected, log_id);
            assert forall|i: int| 0 <= i < released.len() - 1 implies #[trigger] released[i
                + 1].header.backlink == Some(released[i].hash) by {
                assert(freed[i + 1].backlink == Some(freed[i].id));
            }
            let at = choose|i: int| 0 <= i < freed.len() && freed[i] == entry(operation, log_id);
            assert(released[at] == operation);
            assert forall|j: int| 0 <= j < released.len() && #[trigger] released[j]
                == operation implies j == at by {
                assert(freed[j].item == operation);
                assert(freed[j] == entry(operation, log_id));
                if j < at {
                    assert(!waits_on(
                        freed[j],
                        freed[at].author,
                        freed[at].backlink,
                        freed[at].log_id,
                    ));
                }
                if at < j {
                    assert(!waits_on(
                        freed[at],
                        freed[j].author,
                        freed[j].backlink,
                        freed[j].log_id,
                    ));
                }
            }
        },
        _ => {},
    }
}

/// Nothing is lost between a release and the ring it leaves behind. A release which an in-order
/// operation triggers takes exactly the operations after the first one out of the ring; one which a
/// waiting operation triggers takes all of them out of the ring it was pushed into.
pub proof fn law_release_conserves<E>(
    ring: Seq<RingEntry<Operation<E>>>,
    capacity: nat,
    operation: Operation<E>,
    latest: Option<Frontier>,
    log_id: LogId,
)
    ensures
        ({
            let released = release(ring, capacity, operation, latest, log_id);
            let after = drained(ring, capacity, operation, latest, log_id);
            let left = items_of(after).to_multiset();
            match placement(operation.header, latest, false) {
                Placement::Next => {
                    &&& released.len() > 0 ==> released[0] == operation
                    &&& released.len() > 0 ==> items_of(ring).to_multiset() == released.skip(
                        1,
                    ).to_multiset().add(left)
                    &&& released.len() == 0 ==> after == ring
                },
                Placement::Waiting(_) => {
                    let waiting = pushed(ring, capacity, entry(operation, log_id));
                    &&& released.len() > 0 ==> items_of(waiting).to_multiset()
                        == released.to_multiset().add(left)
                    &&& released.len() == 0 ==> after == waiting
                },
                _ => released.len() == 0 && after == ring,
            }
        }),
{
    let author = operation.header.verifying_key;
    let released = release(ring, capacity, operation, latest, log_id);
    match placement(operation.header, latest, false) {
        Placement::Next => {
            let freed = items_of(chain(ring, author, Some(operation.hash), log_id));
            law_pop_conserves(ring, author, Some(operation.hash), log_id);
            if released.len() > 0 {
                assert(released.skip(1) =~= freed);
            }
        },
        Placement::Waiting(expected) => {
            law_pop_conserves(
                pushed(ring, capacity, entry(operation, log_id)),
                author,
                expected,
                log_id,
            );
        },
        _ => {},
    }
}

/// Releasing for one author leaves every other author's operations, and the author's own operations
/// in other logs, where they are and in the order they arrived in.
pub proof fn law_release_spares_other_logs<E>(
    ring: Seq<RingEntry<Operation<E>>>,
    capacity: nat,
    operation: Operation<E>,
    latest: Option<Frontier>,
    log_id: LogId,
)
    ensures
        ({
            let author = operation.header.verifying_key;
            let left = drained(ring, capacity, operation, latest, log_id);
            match placement(operation.header, latest, false) {
                Placement::Waiting(_) => other_logs(left, author, log_id) == other_logs(
                    pushed(ring, capacity, entry(operation, log_id)),
                    author,
                    log_id,
                ),
                _ => other_logs(left, author, log_id) == other_logs(ring, author, log_id),
            }
        }),
{
    let author = operation.header.verifying_key;
    match placement(operation.header, latest, false) {
        Placement::Next => {
            law_pop_spares_other_logs(ring, author, Some(operation.hash), log_id);
        },
        Placement::Waiting(expected) => {
            law_pop_spares_other_logs(
                pushed(ring, capacity, entry(operation, log_id)),
                author,
                expected,
                log_id,
            );
        },
        _ => {},
    }
}

/// A committed release is not found again: an in-order operation whose waiting chain was drained
/// frees nothing when it arrives a second time.
pub proof fn law_release_happens_once<E>(
    ring: Seq<RingEntry<Operation<E>>>,
    capacity: nat,
    operation: Operation<E>,
    latest: Option<Frontier>,
    log_id: LogId,
)
    requires
        positions_distinct(ring),
        placement(operation.header, latest, false) is Next,
        release(ring, capacity, operation, latest, log_id).len() > 0,
    ensures
        release(
            drained(ring, capacity, operation, latest, log_id),
            capacity,
            operation,
            latest,
            log_id,
        ).len() == 0,
{
    law_pop_again_is_empty(ring, operation.header.verifying_key, Some(operation.hash), log_id);
}

/// A buffered operation is released by its predecessor: when the operation it links back to arrives
/// in order, both come out right after each other.
pub proof fn law_waiting_operation_is_released<E>(
    ring: Seq<RingEntry<Operation<E>>>,
    capacity: nat,
    operation: Operation<E>,
    latest: Option<Frontier>,
    log_id: LogId,
    waiting: Operation<E>,
)
    requires
        positions_distinct(ring),
        placement(operation.header, latest, false) is Next,
        ring.contains(entry(waiting, log_id)),
        waiting.header.verifying_key == operation.header.verifying_key,
        waiting.header.backlink == Some(operation.hash),
    ensures
        ({
            let released = release(ring, capacity, operation, latest, log_id);
            &&& released.len() >= 2
            &&& released[0] == operation
            &&& released[1] == waiting
        }),
{
    let author = operation.header.verifying_key;
    let at = choose|i: int| 0 <= i < ring.len() && ring[i] == entry(waiting, log_id);
    assert(waits_on(ring[at], author, Some(operation.hash), log_id));
    let found = position(ring, author, Some(operation.hash), log_id);
    assert(waits_on(ring[found], author, Some(operation.hash), log_id));
    assert(found == at);
    let freed = chain(ring, author, Some(operation.hash), log_id);
    assert(freed[0] == ring[at]);
    assert(items_of(freed)[0] == waiting);
}

/// A gap operation which completes the chain behind the frontier releases it: where the buffer holds
/// the operation right after the frontier and the incoming one links back to that, both come out.
pub proof fn law_gap_operation_completes_chain<E>(
    ring: Seq<RingEntry<Operation<E>>>,
    capacity: nat,
    operation: Operation<E>,
    frontier: Frontier,
    log_id: LogId,
    behind: Operation<E>,
)
    requires
        positions_distinct(ring),
        ring.len() < capacity,
        operation.header.seq_num > frontier.header.seq_num + 1,
        ring.contains(entry(behind, log_id)),
        behind.header.verifying_key == operation.header.verifying_key,
        behind.header.backlink == Some(frontier.hash),
        operation.header.backlink == Some(behind.hash),
        behind.hash != frontier.hash,
    ensures
        ({
            let released = release(ring, capacity, operation, Some(frontier), log_id);
            &&& released.len() >= 2
            &&& released[0] == behind
            &&& released[1] == operation
        }),
{
    let author = operation.header.verifying_key;
    let arrived = entry(operation, log_id);
    let first = entry(behind, log_id);
    let waiting = pushed(ring, capacity, arrived);
    law_push_keeps_positions_distinct(ring, capacity, arrived);
    lemma_pushed_entry(ring, capacity, operation, log_id);
    let i = choose|i: int| 0 <= i < ring.len() && ring[i] == first;
    assert(waiting[i] == first);
    let at = position(waiting, author, Some(frontier.hash), log_id);
    assert(waits_on(waiting[i], author, Some(frontier.hash), log_id));
    assert(waits_on(waiting[at], author, Some(frontier.hash), log_id));
    assert(at == i);
    let left = waiting.remove(at);
    let j = choose|j: int| 0 <= j < waiting.len() && waiting[j] == arrived;
    let k = if j < at { j } else { j - 1 };
    assert(left[k] == arrived);
    let next = position(left, author, Some(behind.hash), log_id);
    assert(waits_on(left[k], author, Some(behind.hash), log_id));
    assert(waits_on(left[next], author, Some(behind.hash), log_id));
    let m = if next < at { next } else { next + 1 };
    assert(waiting[m] == left[next]);
    assert(m == j);
    let links = chain(waiting, author, Some(frontier.hash), log_id);
    let rest = chain(left, author, Some(behind.hash), log_id);
    assert(rest[0] == arrived);
    assert(links[0] == first);
    assert(links[1] == rest[0]);
    assert(items_of(links)[0] == behind);
    assert(items_of(links)[1] == operation);
}

/// A fork of the frontier, at its height and with its backlink, comes out at once: it is left to the
/// log integrity check to reject it.
pub proof fn law_fork_is_released<E>(
    ring: Seq<RingEntry<Operation<E>>>,
    capacity: nat,
    operation: Operation<E>,
    frontier: Frontier,
    log_id: LogId,
)
    requires
        positions_distinct(ring),
        operation.header.seq_num == frontier.header.seq_num > 0,
        operation.header.backlink == frontier.header.backlink,
    ensures
        release(ring, capacity, operation, Some(frontier), log_id).len() > 0,
        release(ring, capacity, operation, Some(frontier), log_id)[0] == operation,
{
    let author = operation.header.verifying_key;
    let backlink = operation.header.backlink;
    let arrived = entry(operation, log_id);
    let waiting = pushed(ring, capacity, arrived);
    law_push_keeps_positions_distinct(ring, capacity, arrived);
    lemma_pushed_entry(ring, capacity, operation, log_id);
    let i = choose|i: int| 0 <= i < waiting.len() && waiting[i] == arrived;
    let at = position(waiting, author, backlink, log_id);
    assert(waits_on(waiting[i], author, backlink, log_id));
    assert(waits_on(waiting[at], author, backlink, log_id));
    assert(at == i);
    let links = chain(waiting, author, backlink, log_id);
    assert(links[0] == arrived);
    assert(items_of(links)[0] == operation);
}

/// A release is complete: once it was committed, no operation which is still buffered continues the
/// log after any of the released ones.
pub proof fn law_release_is_complete<E>(
    ring: Seq<RingEntry<Operation<E>>>,
    capacity: nat,
    operation: Operation<E>,
    latest: Option<Frontier>,
    log_id: LogId,
)
    requires
        filed(ring),
        positions_distinct(ring),
    ensures
        forall|i: int|
            0 <= i < release(ring, capacity, operation, latest, log_id).len() ==> !holds(
                drained(ring, capacity, operation, latest, log_id),
                operation.header.verifying_key,
                Some((#[trigger] release(ring, capacity, operation, latest, log_id)[i]).hash),
                log_id,
            ),
{
    let author = operation.header.verifying_key;
    let released = release(ring, capacity, operation, latest, log_id);
    let left = drained(ring, capacity, operation, latest, log_id);
    match placement(operation.header, latest, false) {
        Placement::Next => {
            let freed = chain(ring, author, Some(operation.hash), log_id);
            lemma_filed_chain(ring, author, Some(operation.hash), log_id);
            law_nothing_waits_on_released(ring, author, Some(operation.hash), log_id);
            law_pop_again_is_empty(ring, author, Some(operation.hash), log_id);
            if released.len() > 0 {
                assert(!holds(left, author, Some(operation.hash), log_id));
            }
            assert forall|i: int| 0 <= i < released.len() implies !holds(
                left,
                author,
                Some((#[trigger] released[i]).hash),
                log_id,
            ) by {
                if i > 0 {
                    assert(released[i] == freed[i - 1].item);
                    assert(freed[i - 1] == entry(freed[i - 1].item, freed[i - 1].log_id));
                }
            }
        },
        Placement::Waiting(expected) => {
            let waiting = pushed(ring, capacity, entry(operation, log_id));
            let freed = chain(waiting, author, expected, log_id);
            assert(filed(waiting));
            law_push_keeps_positions_distinct(ring, capacity, entry(operation, log_id));
            lemma_filed_chain(waiting, author, expected, log_id);
            law_nothing_waits_on_released(waiting, author, expected, log_id);
            assert forall|i: int| 0 <= i < released.len() implies !holds(
                left,
                author,
                Some((#[trigger] released[i]).hash),
                log_id,
            ) by {
                assert(released[i] == freed[i].item);
                assert(freed[i] == entry(freed[i].item, freed[i].log_id));
            }
        },
        _ => {},
    }
}

/// Whatever is released is the incoming operation or was buffered, and nothing but what was buffered
/// is left behind, each under its own key and alone at its position.
pub proof fn law_release_comes_from_buffer<E>(
    ring: Seq<RingEntry<Operation<E>>>,
    capacity: nat,
    operation: Operation<E>,
    latest: Option<Frontier>,
    log_id: LogId,
)
    requires
        filed(ring),
        positions_distinct(ring),
        release(ring, capacity, operation, latest, log_id).len() > 0,
    ensures
        ({
            let released = release(ring, capacity, operation, latest, log_id);
            let left = drained(ring, capacity, operation, latest, log_id);
            &&& forall|i: int|
                0 <= i < released.len() ==> #[trigger] released[i] == operation || buffered(
                    ring,
                    released[i],
                )
            &&& forall|k: int| 0 <= k < left.len() ==> ring.contains(#[trigger] left[k])
            &&& filed(left)
            &&& positions_distinct(left)
        }),
{
    let author = operation.header.verifying_key;
    let arrived = entry(operation, log_id);
    let released = release(ring, capacity, operation, latest, log_id);
    let left = drained(ring, capacity, operation, latest, log_id);
    match placement(operation.header, latest, false) {
        Placement::Next => {
            let links = chain(ring, author, Some(operation.hash), log_id);
            lemma_filed_without_chain(ring, author, Some(operation.hash), log_id);
            law_pop_keeps_positions_distinct(ring, author, Some(operation.hash), log_id);
            law_chain_comes_from_ring(ring, author, Some(operation.hash), log_id);
            law_left_comes_from_ring(ring, author, Some(operation.hash), log_id);
            assert forall|i: int| 0 <= i < released.len() implies #[trigger] released[i]
                == operation || buffered(ring, released[i]) by {
                if i > 0 {
                    assert(items_of(links)[i - 1] == released[i]);
                    assert(ring.contains(links[i - 1]));
                    let k = choose|k: int| 0 <= k < ring.len() && ring[k] == links[i - 1];
                    assert(ring[k].item == released[i]);
                }
            }
        },
        Placement::Waiting(expected) => {
            let waiting = pushed(ring, capacity, arrived);
            let links = chain(waiting, author, expected, log_id);
            assert(filed(waiting));
            law_push_keeps_positions_distinct(ring, capacity, arrived);
            law_push_adds_one_entry(ring, capacity, arrived);
            lemma_filed_without_chain(waiting, author, expected, log_id);
            law_pop_keeps_positions_distinct(waiting, author, expected, log_id);
            law_chain_comes_from_ring(waiting, author, expected, log_id);
            law_left_comes_from_ring(waiting, author, expected, log_id);
            law_released_position_is_free(waiting, author, expected, log_id, arrived);
            assert forall|i: int| 0 <= i < released.len() implies #[trigger] released[i]
                == operation || buffered(ring, released[i]) by {
                assert(released[i] == links[i].item);
                assert(waiting.contains(links[i]));
                let k = choose|k: int| 0 <= k < waiting.len() && waiting[k] == links[i];
                if waiting[k] != arrived {
                    assert(ring.contains(waiting[k]));
                    let l = choose|l: int| 0 <= l < ring.len() && ring[l] == waiting[k];
                    assert(ring[l].item == released[i]);
                }
            }
            assert forall|k: int| 0 <= k < left.len() implies ring.contains(#[trigger] left[k]) by {
                assert(waiting.contains(left[k]));
                let l = choose|l: int| 0 <= l < waiting.len() && waiting[l] == left[k];
                if waiting[l] == arrived {
                    assert(waits_on(left[k], author, arrived.backlink, log_id));
                    assert(holds(left, author, arrived.backlink, log_id));
                }
                assert(ring.contains(waiting[l]));
            }
        },
        _ => {},
    }
}

/// Where every buffered hash waits in one place only, it is clear which operation a release is about:
/// the hashes of a release are distinct, and none of them is left in the buffer, but for a copy of an
/// incoming operation which was the next one of its log.
pub proof fn law_release_is_unambiguous<E>(
    ring: Seq<RingEntry<Operation<E>>>,
    capacity: nat,
    operation: Operation<E>,
    latest: Option<Frontier>,
    log_id: LogId,
)
    requires
        filed(ring),
        positions_distinct(ring),
        ids_distinct(ring),
        one_place(ring, operation, log_id),
        !leads_back(ring, operation, log_id),
        release(ring, capacity, operation, latest, log_id).len() > 0,
    ensures
        ({
            let released = release(ring, capacity, operation, latest, log_id);
            let left = drained(ring, capacity, operation, latest, log_id);
            &&& forall|i: int, j: int|
                0 <= i < j < released.len() ==> (#[trigger] released[i]).hash != (
                #[trigger] released[j]).hash
            &&& forall|i: int, k: int|
                0 <= i < released.len() && 0 <= k < left.len() && (#[trigger] released[i]).hash
                    != operation.hash ==> released[i].hash != (#[trigger] left[k]).item.hash
            &&& ids_distinct(left)
        }),
{
    let author = operation.header.verifying_key;
    let arrived = entry(operation, log_id);
    let released = release(ring, capacity, operation, latest, log_id);
    let left = drained(ring, capacity, operation, latest, log_id);
    law_release_comes_from_buffer(ring, capacity, operation, latest, log_id);
    match placement(operation.header, latest, false) {
        Placement::Next => {
            let links = chain(ring, author, Some(operation.hash), log_id);
            lemma_filed_chain(ring, author, Some(operation.hash), log_id);
            law_pop_keeps_ids_distinct(ring, author, Some(operation.hash), log_id);
            assert forall|i: int| 1 <= i < released.len() implies #[trigger] released[i] == links[i
                - 1].item && released[i].hash == links[i - 1].id && released[i].hash
                != operation.hash by {
                assert(items_of(links)[i - 1] == released[i]);
                assert(links[i - 1] == entry(links[i - 1].item, links[i - 1].log_id));
            }
            assert(released[0] == operation);
            assert forall|i: int, j: int| 0 <= i < j < released.len() implies (
            #[trigger] released[i]).hash != (#[trigger] released[j]).hash by {
                if i > 0 {
                    assert(links[i - 1].id != links[j - 1].id);
                }
            }
            assert forall|i: int, k: int|
                0 <= i < released.len() && 0 <= k < left.len() && (#[trigger] released[i]).hash
                    != operation.hash implies released[i].hash != (#[trigger] left[k]).item.hash by {
                assert(left[k] == entry(left[k].item, left[k].log_id));
                assert(links[i - 1].id != left[k].id);
            }
        },
        Placement::Waiting(expected) => {
            let waiting = pushed(ring, capacity, arrived);
            let links = chain(waiting, author, expected, log_id);
            assert(filed(waiting));
            assert forall|i: int| 0 <= i < ring.len() && (#[trigger] ring[i]).id
                == arrived.id implies waits_on(
                ring[i],
                arrived.author,
                arrived.backlink,
                arrived.log_id,
            ) by {
                assert(ring[i] == entry(ring[i].item, ring[i].log_id));
            }
            law_push_keeps_positions_distinct(ring, capacity, arrived);
            law_push_keeps_ids_distinct(ring, capacity, arrived);
            lemma_filed_chain(waiting, author, expected, log_id);
            law_pop_keeps_ids_distinct(waiting, author, expected, log_id);
            assert forall|i: int| 0 <= i < released.len() implies #[trigger] released[i]
                == links[i].item && released[i].hash == links[i].id by {
                assert(links[i] == entry(links[i].item, links[i].log_id));
            }
            assert forall|i: int, j: int| 0 <= i < j < released.len() implies (
            #[trigger] released[i]).hash != (#[trigger] released[j]).hash by {
                assert(links[i].id != links[j].id);
            }
            assert forall|i: int, k: int|
                0 <= i < released.len() && 0 <= k < left.len() && (#[trigger] released[i]).hash
                    != operation.hash implies released[i].hash != (#[trigger] left[k]).item.hash by {
                assert(left[k] == entry(left[k].item, left[k].log_id));
                assert(links[i].id != left[k].id);
            }
        },
        _ => {},
    }
}

proof fn lemma_filed_chain<E>(
    ring: Seq<RingEntry<Operation<E>>>,
    author: VerifyingKey,
    backlink: Option<OperationHash>,
    log_id: LogId,
)
    requires
        filed(ring),
    ensures
        filed(chain(ring, author, backlink, log_id)),
    decreases ring.len(),
{
    if holds(ring, author, backlink, log_id) {
        let i = position(ring, author, backlink, log_id);
        lemma_filed_chain(ring.remove(i), author, Some(ring[i].id), log_id);
    }
}

} // verus!
