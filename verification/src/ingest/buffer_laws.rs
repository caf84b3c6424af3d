//! What the out-of-order buffer promises.
//!
//! Every law here speaks of calls: of the arguments of a function, of what it returns and of the
//! buffered entries before and after.

use crate::ingest::ooo::{
    drained, entry, filed, law_release_comes_from_buffer, law_release_is_complete,
    law_release_is_one_run, placement, release, OooBuffer, OooResult, Placement,
};
use crate::ingest::ring::{
    chain, evicted, holds, items_of, law_chain_comes_from_ring, law_chain_is_linked,
    law_left_comes_from_ring, law_nothing_waits_on_released, law_pop_again_is_empty,
    law_pop_splits_ring, law_push_adds_one_entry,
    law_push_keeps_positions_distinct, law_released_position_is_free, position, positions_distinct,
    pushed, waits_on, without_chain, ChainRing, RingEntry,
};
use crate::types::{AuthorLog, Frontier, LogId, Operation, OperationHash, VerifyingKey};
use vstd::prelude::*;

verus! {

/// Whether one value stands before another one.
pub open spec fn stands_before<A>(all: Seq<A>, first: A, second: A) -> bool {
    exists|p: int, q: int|
        0 <= p < q < all.len() && #[trigger] all[p] == first && #[trigger] all[q] == second
}

/// A buffer starts empty and keeps 128 operations, or as many as it was told to.
pub proof fn law_buffer_starts_empty<E>(
    buffer: OooBuffer<E>,
    capacity: usize,
    sized: OooBuffer<E>,
    len: usize,
    empty: bool,
)
    requires
        call_ensures(OooBuffer::<E>::new, (), buffer) || call_ensures(
            <OooBuffer<E> as Default>::default,
            (),
            buffer,
        ),
        call_ensures(OooBuffer::<E>::with_capacity, (capacity,), sized),
        call_ensures(OooBuffer::<E>::len, (&buffer,), len),
        call_ensures(OooBuffer::<E>::is_empty, (&sized,), empty),
    ensures
        buffer.limit() == 128,
        sized.limit() == capacity,
        len == 0,
        empty,
{
}

/// A buffer counts its entries, and is empty once it was cleared.
pub proof fn law_buffer_counts_its_entries<E>(
    buffer: &mut OooBuffer<E>,
    len: usize,
    empty: bool,
    cleared: usize,
)
    requires
        call_ensures(OooBuffer::<E>::len, (old(buffer),), len),
        call_ensures(OooBuffer::<E>::is_empty, (old(buffer),), empty),
        call_ensures(OooBuffer::<E>::clear, (buffer,), ()),
        call_ensures(OooBuffer::<E>::len, (final(buffer),), cleared),
    ensures
        len == old(buffer)@.len(),
        empty <==> len == 0,
        cleared == 0,
        final(buffer).limit() == old(buffer).limit(),
{
}

/// An operation from before the frontier of its log is outdated, however far before, and is neither
/// buffered nor handed on.
pub proof fn law_operation_before_frontier_is_outdated<'a, E>(
    buffer: &mut OooBuffer<E>,
    operation: &'a Operation<E>,
    frontier: Frontier,
    log_id: LogId,
    result: OooResult<'a, E>,
)
    requires
        call_ensures(
            OooBuffer::<E>::process,
            (buffer, operation, Some(frontier), log_id, false),
            result,
        ),
    ensures
        final(buffer).limit() == old(buffer).limit(),
        operation.header.seq_num < frontier.header.seq_num ==> result is Outdated && final(buffer)@
            == old(buffer)@,
        result is Outdated ==> operation.header.seq_num < frontier.header.seq_num,
{
}

/// Nothing is outdated in a log without a frontier, and no pruning point is.
pub proof fn law_nothing_is_outdated_without_frontier<'a, E>(
    buffer: &mut OooBuffer<E>,
    operation: &'a Operation<E>,
    latest: Option<Frontier>,
    log_id: LogId,
    prune_flag: bool,
    result: OooResult<'a, E>,
)
    requires
        latest is None || prune_flag,
        call_ensures(
            OooBuffer::<E>::process,
            (buffer, operation, latest, log_id, prune_flag),
            result,
        ),
    ensures
        !(result is Outdated),
{
}

/// A pruning point is handed on alone, wherever its log stands, and leaves the buffer as it is.
pub proof fn law_pruning_point_is_handed_on<'a, E>(
    buffer: &mut OooBuffer<E>,
    operation: &'a Operation<E>,
    latest: Option<Frontier>,
    log_id: LogId,
    result: OooResult<'a, E>,
)
    requires
        call_ensures(OooBuffer::<E>::process, (buffer, operation, latest, log_id, true), result),
    ensures
        result == OooResult::InOrder(operation),
        final(buffer)@ == old(buffer)@,
        final(buffer).limit() == old(buffer).limit(),
{
}

/// The operation right after the frontier is handed on alone where nothing waits on it.
pub proof fn law_next_operation_is_handed_on<'a, E>(
    buffer: &mut OooBuffer<E>,
    operation: &'a Operation<E>,
    frontier: Frontier,
    log_id: LogId,
    result: OooResult<'a, E>,
)
    requires
        operation.header.seq_num == frontier.header.seq_num + 1 || (operation.header.seq_num == 0
            && frontier.header.seq_num == 0),
        forall|k: int|
            0 <= k < old(buffer)@.len() ==> !((#[trigger] old(buffer)@[k]).author
                == operation.header.verifying_key && old(buffer)@[k].log_id == log_id && old(buffer)@[k].backlink == Some(operation.hash)),
        call_ensures(
            OooBuffer::<E>::process,
            (buffer, operation, Some(frontier), log_id, false),
            result,
        ),
    ensures
        result == OooResult::InOrder(operation),
        final(buffer)@ == old(buffer)@,
        final(buffer).limit() == old(buffer).limit(),
{
    let ring = old(buffer)@;
    let author = operation.header.verifying_key;
    assert(!holds(ring, author, Some(operation.hash), log_id));
    assert(chain(ring, author, Some(operation.hash), log_id) =~= seq![]);
}

/// The operation right after the frontier frees what waits on it: it comes first, followed by every
/// buffered operation of its author and log which links back to it or to one of those. The buffer
/// still holds them until they are committed.
pub proof fn law_next_operation_frees_what_waits<'a, E>(
    buffer: &mut OooBuffer<E>,
    operation: &'a Operation<E>,
    frontier: Frontier,
    log_id: LogId,
    result: OooResult<'a, E>,
    waiting: int,
)
    requires
        old(buffer).wf(),
        operation.header.seq_num == frontier.header.seq_num + 1 || (operation.header.seq_num == 0
            && frontier.header.seq_num == 0),
        0 <= waiting < old(buffer)@.len(),
        old(buffer)@[waiting].author == operation.header.verifying_key,
        old(buffer)@[waiting].log_id == log_id,
        old(buffer)@[waiting].backlink == Some(operation.hash),
        call_ensures(
            OooBuffer::<E>::process,
            (buffer, operation, Some(frontier), log_id, false),
            result,
        ),
    ensures
        final(buffer)@ == old(buffer)@,
        final(buffer).limit() == old(buffer).limit(),
        result matches OooResult::Ordered(operations) && {
            &&& operations@.len() >= 2
            &&& operations@[0] == *operation
            &&& operations@[1] == old(buffer)@[waiting].item
            &&& forall|i: int|
                0 <= i < operations@.len() - 1 ==> #[trigger] operations@[i + 1].header.backlink
                    == Some(operations@[i].hash)
            &&& forall|i: int|
                1 <= i < operations@.len() ==> exists|k: int|
                    0 <= k < old(buffer)@.len() && (#[trigger] old(buffer)@[k]).item
                        == #[trigger] operations@[i] && old(buffer)@[k].author
                        == operation.header.verifying_key && old(buffer)@[k].log_id == log_id
            &&& forall|i: int, k: int|
                0 <= i < operations@.len() && 0 <= k < old(buffer)@.len() && (#[trigger] old(buffer)@[k]).author == operation.header.verifying_key && old(buffer)@[k].log_id == log_id
                    && old(buffer)@[k].backlink == Some((#[trigger] operations@[i]).hash)
                    ==> operations@.contains(old(buffer)@[k].item)
        },
{
    old(buffer).law_buffer_invariant();
    let ring = old(buffer)@;
    let capacity = old(buffer).limit();
    let author = operation.header.verifying_key;
    let latest = Some(frontier);
    let links = chain(ring, author, Some(operation.hash), log_id);
    let left = without_chain(ring, author, Some(operation.hash), log_id);
    assert(waits_on(ring[waiting], author, Some(operation.hash), log_id));
    assert(holds(ring, author, Some(operation.hash), log_id));
    let at = position(ring, author, Some(operation.hash), log_id);
    assert(waits_on(ring[at], author, Some(operation.hash), log_id));
    assert(at == waiting);
    assert(links[0] == ring[waiting]);
    assert(items_of(links)[0] == ring[waiting].item);
    law_release_is_one_run(ring, capacity, *operation, latest, log_id);
    law_release_is_complete(ring, capacity, *operation, latest, log_id);
    law_chain_comes_from_ring(ring, author, Some(operation.hash), log_id);
    law_chain_is_linked(ring, author, Some(operation.hash), log_id);
    if let OooResult::Ordered(operations) = result {
        assert forall|i: int| 1 <= i < operations@.len() implies exists|k: int|
            0 <= k < ring.len() && (#[trigger] ring[k]).item == #[trigger] operations@[i]
                && ring[k].author == author && ring[k].log_id == log_id by {
            assert(items_of(links)[i - 1] == operations@[i]);
            assert(ring.contains(links[i - 1]));
            let k = choose|k: int| 0 <= k < ring.len() && ring[k] == links[i - 1];
            assert(ring[k].item == operations@[i]);
        }
        assert forall|i: int, k: int|
            0 <= i < operations@.len() && 0 <= k < ring.len() && (#[trigger] ring[k]).author
                == author && ring[k].log_id == log_id && ring[k].backlink == Some(
                (#[trigger] operations@[i]).hash,
            ) implies operations@.contains(ring[k].item) by {
            law_pop_splits_ring(ring, author, Some(operation.hash), log_id, k);
            if left.contains(ring[k]) {
                let m = choose|m: int| 0 <= m < left.len() && left[m] == ring[k];
                assert(waits_on(left[m], author, Some(operations@[i].hash), log_id));
                assert(holds(left, author, Some(operations@[i].hash), log_id));
            }
            let m = choose|m: int| 0 <= m < links.len() && links[m] == ring[k];
            assert(operations@[m + 1] == items_of(links)[m]);
        }
    }
}

/// An operation which can't be appended to its log yet is either buffered under its own key, and the
/// buffer is otherwise what it was, or it completes a run of its log: one which begins right after the
/// expected position, is linked without a gap, holds the operation and was buffered otherwise.
///
/// The expected position is the frontier, the start of a log without one, and the position before the
/// frontier for an operation at the frontier's own height.
pub proof fn law_early_operation_waits_or_completes_run<'a, E>(
    buffer: &mut OooBuffer<E>,
    operation: &'a Operation<E>,
    latest: Option<Frontier>,
    log_id: LogId,
    expected: Option<OperationHash>,
    kept: Seq<RingEntry<Operation<E>>>,
    result: OooResult<'a, E>,
)
    requires
        old(buffer).wf(),
        kept == if old(buffer)@.len() >= old(buffer).limit() && old(buffer)@.len() > 0 {
            old(buffer)@.skip(1)
        } else {
            old(buffer)@
        },
        latest matches Some(frontier) ==> {
            &&& operation.header.seq_num >= frontier.header.seq_num
            &&& operation.header.seq_num != frontier.header.seq_num + 1
            &&& operation.header.seq_num > 0
        },
        expected == match latest {
            Some(frontier) => if operation.header.seq_num == frontier.header.seq_num {
                frontier.header.backlink
            } else {
                Some(frontier.hash)
            },
            None => None,
        },
        call_ensures(OooBuffer::<E>::process, (buffer, operation, latest, log_id, false), result),
    ensures
        result is OutOfOrder || result is Ordered,
        final(buffer).limit() == old(buffer).limit(),
        operation.header.backlink == expected ==> (result matches OooResult::Ordered(operations)
            && operations@.len() > 0 && operations@[0] == *operation),
        result is OutOfOrder ==> {
            let own = RingEntry {
                author: operation.header.verifying_key,
                backlink: operation.header.backlink,
                log_id,
                id: operation.hash,
                item: *operation,
            };
            &&& final(buffer)@.contains(own)
            &&& forall|k: int|
                0 <= k < final(buffer)@.len() ==> #[trigger] final(buffer)@[k] == own || old(buffer)@.contains(final(buffer)@[k])
            &&& old(buffer)@.len() < old(buffer).limit() ==> forall|k: int|
                0 <= k < old(buffer)@.len() ==> final(buffer)@.contains(#[trigger] old(buffer)@[k])
                    || (old(buffer)@[k].author == own.author && old(buffer)@[k].backlink
                    == own.backlink && old(buffer)@[k].log_id == own.log_id)
        },
        result matches OooResult::Ordered(operations) ==> {
            &&& final(buffer)@ == old(buffer)@
            &&& operations@.contains(*operation)
            &&& operations@[0].header.backlink == expected
            &&& forall|i: int|
                0 <= i < operations@.len() - 1 ==> #[trigger] operations@[i + 1].header.backlink
                    == Some(operations@[i].hash)
            &&& forall|i: int|
                0 <= i < operations@.len() ==> #[trigger] operations@[i] == *operation || exists|
                    k: int,
                |
                    0 <= k < kept.len() && (#[trigger] kept[k]).item == operations@[i]
                        && kept[k].author == operation.header.verifying_key && kept[k].log_id
                        == log_id
        },
{
    old(buffer).law_buffer_invariant();
    let ring = old(buffer)@;
    let capacity = old(buffer).limit();
    let author = operation.header.verifying_key;
    let own = entry(*operation, log_id);
    let waiting = pushed(ring, capacity, own);
    let links = chain(waiting, author, expected, log_id);
    if ring.len() > 0 {
        assert(ring.remove(0) =~= ring.skip(1));
    }
    assert(kept == evicted(ring, capacity));
    if holds(kept, own.author, own.backlink, own.log_id) {
        let at = position(kept, own.author, own.backlink, own.log_id);
        assert(waits_on(kept[at], own.author, own.backlink, own.log_id));
    }
    lemma_pushed_own(ring, capacity, own);
    law_push_keeps_positions_distinct(ring, capacity, own);
    law_push_adds_one_entry(ring, capacity, own);
    law_chain_comes_from_ring(waiting, author, expected, log_id);
    law_chain_is_linked(waiting, author, expected, log_id);
    if operation.header.backlink == expected {
        let i = choose|i: int| 0 <= i < waiting.len() && waiting[i] == own;
        assert(waits_on(waiting[i], author, expected, log_id));
        assert(holds(waiting, author, expected, log_id));
        let at = position(waiting, author, expected, log_id);
        assert(waits_on(waiting[at], author, expected, log_id));
        assert(at == i);
        assert(links[0] == own);
        assert(items_of(links)[0] == *operation);
    }
    if result is OutOfOrder && ring.len() < capacity {
        assert forall|k: int| 0 <= k < ring.len() implies waiting.contains(#[trigger] ring[k]) || (
        ring[k].author == own.author && ring[k].backlink == own.backlink && ring[k].log_id
            == own.log_id) by {
            assert(evicted(ring, capacity) == ring);
            if holds(ring, own.author, own.backlink, own.log_id) {
                let at = position(ring, own.author, own.backlink, own.log_id);
                assert(waits_on(ring[at], own.author, own.backlink, own.log_id));
            }
            assert(waiting[k] == ring[k] || waits_on(
                ring[k],
                own.author,
                own.backlink,
                own.log_id,
            ));
        }
    }
    if let OooResult::Ordered(operations) = result {
        law_release_is_one_run(ring, capacity, *operation, latest, log_id);
        assert forall|i: int| 0 <= i < operations@.len() implies #[trigger] operations@[i]
            == *operation || exists|k: int|
            0 <= k < kept.len() && (#[trigger] kept[k]).item == operations@[i] && kept[k].author
                == author && kept[k].log_id == log_id by {
            assert(operations@[i] == items_of(links)[i]);
            assert(waiting.contains(links[i]));
            let m = choose|m: int| 0 <= m < waiting.len() && waiting[m] == links[i];
            if waiting[m] != own {
                assert(kept[m] == waiting[m]);
                assert(kept[m].item == operations@[i]);
            }
        }
    }
}

/// An operation which has to wait goes last in the buffer, or takes the place of the one which waits on
/// the same position. A full buffer loses its oldest entry for it, any other one nothing.
pub proof fn law_waiting_operation_goes_last<'a, E>(
    buffer: &mut OooBuffer<E>,
    operation: &'a Operation<E>,
    latest: Option<Frontier>,
    log_id: LogId,
    prune_flag: bool,
    kept: Seq<RingEntry<Operation<E>>>,
)
    requires
        old(buffer).wf(),
        kept == if old(buffer)@.len() >= old(buffer).limit() && old(buffer)@.len() > 0 {
            old(buffer)@.skip(1)
        } else {
            old(buffer)@
        },
        call_ensures(
            OooBuffer::<E>::process,
            (buffer, operation, latest, log_id, prune_flag),
            OooResult::<'a, E>::OutOfOrder,
        ),
    ensures
        (forall|k: int|
            0 <= k < kept.len() ==> !((#[trigger] kept[k]).author == operation.header.verifying_key
                && kept[k].backlink == operation.header.backlink && kept[k].log_id == log_id))
            ==> final(buffer)@ == kept.push(
            RingEntry {
                author: operation.header.verifying_key,
                backlink: operation.header.backlink,
                log_id,
                id: operation.hash,
                item: *operation,
            },
        ),
        forall|k: int|
            0 <= k < kept.len() && (#[trigger] kept[k]).author == operation.header.verifying_key
                && kept[k].backlink == operation.header.backlink && kept[k].log_id == log_id
                ==> final(buffer)@ == kept.update(
                k,
                RingEntry {
                    author: operation.header.verifying_key,
                    backlink: operation.header.backlink,
                    log_id,
                    id: operation.hash,
                    item: *operation,
                },
            ),
{
    old(buffer).law_buffer_invariant();
    let own = entry(*operation, log_id);
    if old(buffer)@.len() > 0 {
        assert(old(buffer)@.remove(0) =~= old(buffer)@.skip(1));
    }
    assert(kept == evicted(old(buffer)@, old(buffer).limit()));
    assert(final(buffer)@ == pushed(old(buffer)@, old(buffer).limit(), own));
    assert(positions_distinct(kept));
    if holds(kept, own.author, own.backlink, log_id) {
        let at = position(kept, own.author, own.backlink, log_id);
        assert(waits_on(kept[at], own.author, own.backlink, log_id));
    }
    assert forall|k: int|
        0 <= k < kept.len() && (#[trigger] kept[k]).author == own.author && kept[k].backlink
            == own.backlink && kept[k].log_id == log_id implies final(buffer)@ == kept.update(
        k,
        own,
    ) by {
        assert(waits_on(kept[k], own.author, own.backlink, log_id));
        let at = position(kept, own.author, own.backlink, log_id);
        assert(waits_on(kept[at], own.author, own.backlink, log_id));
        assert(at == k);
    }
}

/// No operation is kept waiting without need: where the buffer holds a whole run of the author's log, which
/// it doesn't have to evict, from the expected position up to what the incoming operation links back to, the
/// operation is released and not buffered.
pub proof fn law_completed_run_is_released<'a, E>(
    buffer: &mut OooBuffer<E>,
    operation: &'a Operation<E>,
    latest: Option<Frontier>,
    log_id: LogId,
    expected: Option<OperationHash>,
    kept: Seq<RingEntry<Operation<E>>>,
    found: Seq<int>,
    result: OooResult<'a, E>,
)
    requires
        old(buffer).wf(),
        kept == if old(buffer)@.len() >= old(buffer).limit() && old(buffer)@.len() > 0 {
            old(buffer)@.skip(1)
        } else {
            old(buffer)@
        },
        latest matches Some(frontier) ==> {
            &&& operation.header.seq_num >= frontier.header.seq_num
            &&& operation.header.seq_num != frontier.header.seq_num + 1
            &&& operation.header.seq_num > 0
        },
        expected == match latest {
            Some(frontier) => if operation.header.seq_num == frontier.header.seq_num {
                frontier.header.backlink
            } else {
                Some(frontier.hash)
            },
            None => None,
        },
        found.len() > 0,
        forall|i: int|
            0 <= i < found.len() ==> {
                &&& 0 <= #[trigger] found[i] < kept.len()
                &&& kept[found[i]].author == operation.header.verifying_key
                &&& kept[found[i]].log_id == log_id
            },
        kept[found[0]].backlink == expected,
        forall|i: int|
            0 < i < found.len() ==> kept[#[trigger] found[i]].backlink == Some(
                kept[found[i - 1]].id,
            ),
        operation.header.backlink == Some(kept[found.last()].id),
        call_ensures(OooBuffer::<E>::process, (buffer, operation, latest, log_id, false), result),
    ensures
        result is Ordered,
{
    old(buffer).law_buffer_invariant();
    let ring = old(buffer)@;
    let capacity = old(buffer).limit();
    let author = operation.header.verifying_key;
    let own = entry(*operation, log_id);
    let waiting = pushed(ring, capacity, own);
    let links = chain(waiting, author, expected, log_id);
    let left = without_chain(waiting, author, expected, log_id);
    if ring.len() > 0 {
        assert(ring.remove(0) =~= ring.skip(1));
    }
    assert(kept == evicted(ring, capacity));
    lemma_pushed_own(ring, capacity, own);
    law_push_keeps_positions_distinct(ring, capacity, own);
    law_nothing_waits_on_released(waiting, author, expected, log_id);
    law_pop_again_is_empty(waiting, author, expected, log_id);
    assert(!holds(left, author, expected, log_id));
    let at = choose|i: int| 0 <= i < waiting.len() && waiting[i] == own;
    law_pop_splits_ring(waiting, author, expected, log_id, at);
    if !links.contains(own) {
        assert(left.contains(own));
        let m = choose|m: int| 0 <= m < left.len() && left[m] == own;
        assert(waits_on(left[m], author, own.backlink, log_id));
        assert(holds(left, author, own.backlink, log_id));
        lemma_run_is_released(ring, capacity, own, expected, kept, found, found.len() as int - 1);
        assert(links.contains(kept[found.last()]));
        let n = choose|n: int| 0 <= n < links.len() && links[n] == kept[found.last()];
        assert(!holds(left, author, Some(links[n].id), log_id));
    }
    let n = choose|n: int| 0 <= n < links.len() && links[n] == own;
    assert(items_of(links).len() > 0);
}

/// As long as the pushed entry is left behind, every entry of a run which starts at the expected
/// position is part of the chain.
proof fn lemma_run_is_released<E>(
    ring: Seq<RingEntry<Operation<E>>>,
    capacity: nat,
    own: RingEntry<Operation<E>>,
    expected: Option<OperationHash>,
    kept: Seq<RingEntry<Operation<E>>>,
    found: Seq<int>,
    index: int,
)
    requires
        positions_distinct(ring),
        kept == evicted(ring, capacity),
        0 <= index < found.len(),
        forall|i: int|
            0 <= i < found.len() ==> {
                &&& 0 <= #[trigger] found[i] < kept.len()
                &&& kept[found[i]].author == own.author
                &&& kept[found[i]].log_id == own.log_id
            },
        kept[found[0]].backlink == expected,
        forall|i: int|
            0 < i < found.len() ==> kept[#[trigger] found[i]].backlink == Some(
                kept[found[i - 1]].id,
            ),
        !chain(pushed(ring, capacity, own), own.author, expected, own.log_id).contains(own),
    ensures
        chain(pushed(ring, capacity, own), own.author, expected, own.log_id).contains(
            kept[found[index]],
        ),
    decreases index,
{
    let waiting = pushed(ring, capacity, own);
    let links = chain(waiting, own.author, expected, own.log_id);
    let left = without_chain(waiting, own.author, expected, own.log_id);
    lemma_pushed_own(ring, capacity, own);
    law_push_keeps_positions_distinct(ring, capacity, own);
    law_nothing_waits_on_released(waiting, own.author, expected, own.log_id);
    law_pop_again_is_empty(waiting, own.author, expected, own.log_id);
    assert(!holds(left, own.author, expected, own.log_id));
    let wanted = kept[found[index]];
    if index > 0 {
        lemma_run_is_released(ring, capacity, own, expected, kept, found, index - 1);
        let before = kept[found[index - 1]];
        let n = choose|n: int| 0 <= n < links.len() && links[n] == before;
        assert(!holds(left, own.author, Some(links[n].id), own.log_id));
    }
    assert(!holds(left, own.author, wanted.backlink, own.log_id));
    // The incoming entry would have been released in its place.
    if waits_on(wanted, own.author, own.backlink, own.log_id) {
        let at = choose|i: int| 0 <= i < waiting.len() && waiting[i] == own;
        law_pop_splits_ring(waiting, own.author, expected, own.log_id, at);
        let m = choose|m: int| 0 <= m < left.len() && left[m] == own;
        assert(waits_on(left[m], own.author, wanted.backlink, own.log_id));
        assert(holds(left, own.author, wanted.backlink, own.log_id));
    }
    let k = found[index];
    if holds(kept, own.author, own.backlink, own.log_id) {
        let at = position(kept, own.author, own.backlink, own.log_id);
        assert(waits_on(kept[at], own.author, own.backlink, own.log_id));
    }
    assert(waiting[k] == wanted);
    law_pop_splits_ring(waiting, own.author, expected, own.log_id, k);
    if left.contains(wanted) {
        let m = choose|m: int| 0 <= m < left.len() && left[m] == wanted;
        assert(waits_on(left[m], own.author, wanted.backlink, own.log_id));
        assert(holds(left, own.author, wanted.backlink, own.log_id));
    }
}

proof fn lemma_pushed_own<T>(ring: Seq<RingEntry<T>>, capacity: nat, own: RingEntry<T>)
    ensures
        pushed(ring, capacity, own).contains(own),
{
    let kept = evicted(ring, capacity);
    let after = pushed(ring, capacity, own);
    if holds(kept, own.author, own.backlink, own.log_id) {
        let at = position(kept, own.author, own.backlink, own.log_id);
        assert(after[at] == own);
    } else {
        assert(after[kept.len() as int] == own);
    }
}

/// A release leaves the buffer once it was committed, and nothing else does: what is left was buffered
/// before and keeps its order, nothing of it waits on a released operation, and no released operation
/// is left but for a copy of one which was next in its log. Everything else stays; only the oldest
/// entry of a full buffer is lost where the incoming operation had to be buffered in between.
pub proof fn law_committed_release_leaves_buffer<'a, E>(
    asking: &mut OooBuffer<E>,
    committing: &mut OooBuffer<E>,
    operation: &'a Operation<E>,
    latest: Option<Frontier>,
    log_id: LogId,
    operations: Vec<Operation<E>>,
    kept: Seq<RingEntry<Operation<E>>>,
)
    requires
        old(asking).wf(),
        call_ensures(
            OooBuffer::<E>::process,
            (asking, operation, latest, log_id, false),
            OooResult::<'a, E>::Ordered(operations),
        ),
        *old(committing) == *final(asking),
        call_ensures(
            OooBuffer::<E>::commit_release,
            (committing, operation, latest, log_id),
            (),
        ),
        kept == if old(asking)@.len() >= old(asking).limit() && old(asking)@.len() > 0 && !(
        latest matches Some(frontier) && (operation.header.seq_num == frontier.header.seq_num + 1
            || operation.header.seq_num == 0)) {
            old(asking)@.skip(1)
        } else {
            old(asking)@
        },
    ensures
        final(committing).limit() == old(asking).limit(),
        forall|k: int|
            0 <= k < final(committing)@.len() ==> kept.contains(#[trigger] final(committing)@[k]),
        forall|j: int, k: int|
            0 <= j < k < final(committing)@.len() ==> stands_before(
                kept,
                #[trigger] final(committing)@[j],
                #[trigger] final(committing)@[k],
            ),
        forall|k: int, i: int|
            0 <= k < final(committing)@.len() && 0 <= i < operations@.len() ==> !((
            #[trigger] final(committing)@[k]).author == operation.header.verifying_key
                && final(committing)@[k].log_id == log_id && final(committing)@[k].backlink == Some(
                (#[trigger] operations@[i]).hash,
            )),
        operations@[0] != *operation ==> forall|k: int|
            0 <= k < final(committing)@.len() ==> !((#[trigger] final(committing)@[k]).author
                == operation.header.verifying_key && final(committing)@[k].log_id == log_id
                && final(committing)@[k].backlink == operations@[0].header.backlink),
        forall|k: int|
            0 <= k < kept.len() && ((#[trigger] kept[k]).author != operation.header.verifying_key
                || kept[k].log_id != log_id) ==> final(committing)@.contains(kept[k]),
        forall|k: int|
            0 <= k < kept.len() && !operations@.contains((#[trigger] kept[k]).item)
                && kept[k].backlink != operation.header.backlink ==> final(committing)@.contains(
                kept[k],
            ),
{
    old(asking).law_buffer_invariant();
    let ring = old(asking)@;
    let capacity = old(asking).limit();
    let author = operation.header.verifying_key;
    let own = entry(*operation, log_id);
    let waiting = pushed(ring, capacity, own);
    let left = drained(ring, capacity, *operation, latest, log_id);
    let freed = release(ring, capacity, *operation, latest, log_id);
    law_release_comes_from_buffer(ring, capacity, *operation, latest, log_id);
    law_release_is_complete(ring, capacity, *operation, latest, log_id);
    law_release_is_one_run(ring, capacity, *operation, latest, log_id);
    if ring.len() > 0 {
        assert(ring.remove(0) =~= ring.skip(1));
    }
    assert(final(committing)@ == left);
    assert forall|k: int, i: int| 0 <= k < left.len() && 0 <= i < operations@.len() implies !((
    #[trigger] left[k]).author == author && left[k].log_id == log_id && left[k].backlink == Some(
        (#[trigger] operations@[i]).hash,
    )) by {
        assert(!holds(left, author, Some(freed[i].hash), log_id));
        assert(!waits_on(left[k], author, Some(freed[i].hash), log_id));
    }
    if operations@[0] != *operation {
        let expected = operations@[0].header.backlink;
        law_push_keeps_positions_distinct(ring, capacity, own);
        law_pop_again_is_empty(waiting, author, expected, log_id);
        assert(!holds(left, author, expected, log_id));
        assert forall|k: int| 0 <= k < left.len() implies !((#[trigger] left[k]).author == author
            && left[k].log_id == log_id && left[k].backlink == expected) by {
            assert(!waits_on(left[k], author, expected, log_id));
        }
    }
    lemma_left_of_release(ring, capacity, *operation, latest, log_id, kept);
}

/// What is left behind by a release are the kept entries in their order, without the chain.
proof fn lemma_left_of_release<E>(
    ring: Seq<RingEntry<Operation<E>>>,
    capacity: nat,
    operation: Operation<E>,
    latest: Option<Frontier>,
    log_id: LogId,
    kept: Seq<RingEntry<Operation<E>>>,
)
    requires
        filed(ring),
        positions_distinct(ring),
        release(ring, capacity, operation, latest, log_id).len() > 0,
        kept == match placement(operation.header, latest, false) {
            Placement::Waiting(_) => evicted(ring, capacity),
            _ => ring,
        },
    ensures
        ({
            let freed = release(ring, capacity, operation, latest, log_id);
            let left = drained(ring, capacity, operation, latest, log_id);
            &&& forall|k: int| 0 <= k < left.len() ==> kept.contains(#[trigger] left[k])
            &&& forall|j: int, k: int|
                0 <= j < k < left.len() ==> stands_before(
                    kept,
                    #[trigger] left[j],
                    #[trigger] left[k],
                )
            &&& forall|k: int|
                0 <= k < kept.len() && ((#[trigger] kept[k]).author
                    != operation.header.verifying_key || kept[k].log_id != log_id || (
                !freed.contains(kept[k].item) && kept[k].backlink != operation.header.backlink))
                    ==> left.contains(kept[k])
        }),
{
    let author = operation.header.verifying_key;
    let freed = release(ring, capacity, operation, latest, log_id);
    let left = drained(ring, capacity, operation, latest, log_id);
    match placement(operation.header, latest, false) {
        Placement::Next => {
            let links = chain(ring, author, Some(operation.hash), log_id);
            law_chain_is_linked(ring, author, Some(operation.hash), log_id);
            law_left_comes_from_ring(ring, author, Some(operation.hash), log_id);
            lemma_left_keeps_order(ring, author, Some(operation.hash), log_id);
            assert forall|k: int|
                0 <= k < ring.len() && ((#[trigger] ring[k]).author != author || ring[k].log_id
                    != log_id || (!freed.contains(ring[k].item) && ring[k].backlink
                    != operation.header.backlink)) implies left.contains(ring[k]) by {
                law_pop_splits_ring(ring, author, Some(operation.hash), log_id, k);
                if links.contains(ring[k]) {
                    let m = choose|m: int| 0 <= m < links.len() && links[m] == ring[k];
                    assert(freed[m + 1] == items_of(links)[m]);
                }
            }
        },
        Placement::Waiting(expected) => {
            let own = entry(operation, log_id);
            let waiting = pushed(ring, capacity, own);
            let links = chain(waiting, author, expected, log_id);
            law_push_keeps_positions_distinct(ring, capacity, own);
            law_chain_is_linked(waiting, author, expected, log_id);
            law_left_comes_from_ring(waiting, author, expected, log_id);
            lemma_left_keeps_order(waiting, author, expected, log_id);
            law_released_position_is_free(waiting, author, expected, log_id, own);
            if holds(kept, own.author, own.backlink, own.log_id) {
                let at = position(kept, own.author, own.backlink, own.log_id);
                assert(waits_on(kept[at], own.author, own.backlink, own.log_id));
            }
            assert forall|k: int| 0 <= k < left.len() implies (#[trigger] left[k]) != own by {
                if left[k] == own {
                    assert(waits_on(left[k], author, own.backlink, log_id));
                    assert(holds(left, author, own.backlink, log_id));
                }
            }
            assert forall|k: int| 0 <= k < left.len() implies kept.contains(#[trigger] left[k]) by {
                assert(waiting.contains(left[k]));
                let m = choose|m: int| 0 <= m < waiting.len() && waiting[m] == left[k];
                assert(kept[m] == left[k]);
            }
            assert forall|j: int, k: int| 0 <= j < k < left.len() implies stands_before(
                kept,
                #[trigger] left[j],
                #[trigger] left[k],
            ) by {
                assert(stands_before(waiting, left[j], left[k]));
                let (p, q) = choose|p: int, q: int|
                    0 <= p < q < waiting.len() && #[trigger] waiting[p] == left[j]
                        && #[trigger] waiting[q] == left[k];
                assert(kept[p] == left[j] && kept[q] == left[k]);
            }
            assert forall|k: int|
                0 <= k < kept.len() && ((#[trigger] kept[k]).author != author || kept[k].log_id
                    != log_id || (!freed.contains(kept[k].item) && kept[k].backlink
                    != operation.header.backlink)) implies left.contains(kept[k]) by {
                assert(waiting[k] == kept[k]);
                law_pop_splits_ring(waiting, author, expected, log_id, k);
                if links.contains(kept[k]) {
                    let m = choose|m: int| 0 <= m < links.len() && links[m] == kept[k];
                    assert(freed[m] == items_of(links)[m]);
                }
            }
        },
        _ => {},
    }
}

/// What is left of a ring keeps its order.
proof fn lemma_left_keeps_order<T>(
    ring: Seq<RingEntry<T>>,
    author: VerifyingKey,
    backlink: Option<OperationHash>,
    log_id: LogId,
)
    ensures
        forall|j: int, k: int|
            0 <= j < k < without_chain(ring, author, backlink, log_id).len() ==> stands_before(
                ring,
                #[trigger] without_chain(ring, author, backlink, log_id)[j],
                #[trigger] without_chain(ring, author, backlink, log_id)[k],
            ),
    decreases ring.len(),
{
    let left = without_chain(ring, author, backlink, log_id);
    if holds(ring, author, backlink, log_id) {
        let at = position(ring, author, backlink, log_id);
        let rest = ring.remove(at);
        let inner = without_chain(rest, author, Some(ring[at].id), log_id);
        lemma_left_keeps_order(rest, author, Some(ring[at].id), log_id);
        assert(left == inner);
        assert forall|j: int, k: int| 0 <= j < k < left.len() implies stands_before(
            ring,
            #[trigger] left[j],
            #[trigger] left[k],
        ) by {
            assert(stands_before(rest, inner[j], inner[k]));
            let (p, q) = choose|p: int, q: int|
                0 <= p < q < rest.len() && #[trigger] rest[p] == left[j] && #[trigger] rest[q]
                    == left[k];
            let above = if p < at { p } else { p + 1 };
            let below = if q < at { q } else { q + 1 };
            assert(ring[above] == left[j]);
            assert(ring[below] == left[k]);
        }
    } else {
        assert forall|j: int, k: int| 0 <= j < k < left.len() implies stands_before(
            ring,
            #[trigger] left[j],
            #[trigger] left[k],
        ) by {
            assert(ring[j] == left[j] && ring[k] == left[k]);
        }
    }
}

/// It can be told before an operation is processed whether a full buffer evicts its oldest entry, and
/// of which log: only for an operation which has to wait.
pub proof fn law_eviction_can_be_told<E>(
    buffer: &OooBuffer<E>,
    operation: &Operation<E>,
    latest: Option<Frontier>,
    prune_flag: bool,
    log: Option<AuthorLog>,
)
    requires
        call_ensures(OooBuffer::<E>::evicts, (buffer, operation, latest, prune_flag), log),
    ensures
        log is Some <==> {
            &&& !prune_flag
            &&& buffer@.len() > 0
            &&& buffer@.len() >= buffer.limit()
            &&& latest matches Some(frontier) ==> {
                &&& operation.header.seq_num >= frontier.header.seq_num
                &&& operation.header.seq_num != frontier.header.seq_num + 1
                &&& operation.header.seq_num > 0
            }
        },
        log matches Some(log) ==> log.author == buffer@[0].author && log.log_id
            == buffer@[0].log_id,
{
}

/// A ring starts empty, counts its entries, is empty once it was cleared, and tells of which log the next
/// push evicts the oldest entry, if it is full.
pub proof fn law_ring_counts_its_entries<T>(
    capacity: usize,
    fresh: ChainRing<T>,
    ring: &mut ChainRing<T>,
    len: usize,
    empty: bool,
    log: Option<AuthorLog>,
    cleared: usize,
)
    requires
        call_ensures(ChainRing::<T>::with_capacity, (capacity,), fresh),
        call_ensures(ChainRing::<T>::len, (old(ring),), len),
        call_ensures(ChainRing::<T>::is_empty, (old(ring),), empty),
        call_ensures(ChainRing::<T>::evicts_next, (old(ring),), log),
        call_ensures(ChainRing::<T>::clear, (ring,), ()),
        call_ensures(ChainRing::<T>::len, (final(ring),), cleared),
    ensures
        fresh@.len() == 0,
        fresh.limit() == capacity,
        len == old(ring)@.len(),
        empty <==> len == 0,
        cleared == 0,
        final(ring).limit() == old(ring).limit(),
        log is Some <==> len > 0 && len >= old(ring).limit(),
        log matches Some(log) ==> log.author == old(ring)@[0].author && log.log_id
            == old(ring)@[0].log_id,
{
}

/// An item which is pushed goes last, or takes the place of the one which waits on the same position.
/// A full ring loses its oldest entry for it, any other one nothing.
pub proof fn law_pushed_item_is_kept<T>(
    ring: &mut ChainRing<T>,
    author: VerifyingKey,
    id: OperationHash,
    backlink: Option<OperationHash>,
    log_id: LogId,
    item: T,
    kept: Seq<RingEntry<T>>,
)
    requires
        old(ring).wf(),
        kept == if old(ring)@.len() >= old(ring).limit() && old(ring)@.len() > 0 {
            old(ring)@.skip(1)
        } else {
            old(ring)@
        },
        call_ensures(ChainRing::<T>::push, (ring, author, id, backlink, log_id, item), ()),
    ensures
        (forall|k: int|
            0 <= k < kept.len() ==> !((#[trigger] kept[k]).author == author && kept[k].backlink
                == backlink && kept[k].log_id == log_id)) ==> final(ring)@ == kept.push(
            RingEntry { author, backlink, log_id, id, item },
        ),
        forall|k: int|
            0 <= k < kept.len() && (#[trigger] kept[k]).author == author && kept[k].backlink
                == backlink && kept[k].log_id == log_id ==> final(ring)@ == kept.update(
                k,
                RingEntry { author, backlink, log_id, id, item },
            ),
        final(ring).limit() == old(ring).limit(),
{
    let own = RingEntry { author, backlink, log_id, id, item };
    old(ring).lemma_positions_distinct();
    if old(ring)@.len() > 0 {
        assert(old(ring)@.remove(0) =~= old(ring)@.skip(1));
    }
    assert(kept == evicted(old(ring)@, old(ring).limit()));
    assert(positions_distinct(kept));
    if holds(kept, author, backlink, log_id) {
        let at = position(kept, author, backlink, log_id);
        assert(waits_on(kept[at], author, backlink, log_id));
    }
    assert forall|k: int|
        0 <= k < kept.len() && (#[trigger] kept[k]).author == author && kept[k].backlink == backlink
            && kept[k].log_id == log_id implies final(ring)@ == kept.update(k, own) by {
        assert(waits_on(kept[k], author, backlink, log_id));
        let at = position(kept, author, backlink, log_id);
        assert(waits_on(kept[at], author, backlink, log_id));
        assert(at == k);
    }
}

/// What is popped are items of the author's log which were in the ring, linked from the given position
/// on. Nothing is left which waits on this position or on one of them, and every other entry stays.
pub proof fn law_popped_items_are_one_chain<T>(
    ring: &mut ChainRing<T>,
    author: VerifyingKey,
    backlink: Option<OperationHash>,
    log_id: LogId,
    items: Vec<T>,
)
    requires
        old(ring).wf(),
        call_ensures(ChainRing::<T>::pop_from, (ring, author, backlink, log_id), items),
    ensures
        exists|entries: Seq<RingEntry<T>>|
            {
                &&& entries.len() == items@.len()
                &&& forall|i: int|
                    0 <= i < entries.len() ==> {
                        &&& (#[trigger] entries[i]).item == items@[i]
                        &&& entries[i].author == author
                        &&& entries[i].log_id == log_id
                        &&& old(ring)@.contains(entries[i])
                    }
                &&& entries.len() > 0 ==> entries[0].backlink == backlink
                &&& forall|i: int|
                    0 < i < entries.len() ==> (#[trigger] entries[i]).backlink == Some(
                        entries[i - 1].id,
                    )
                &&& forall|k: int|
                    0 <= k < final(ring)@.len() && (#[trigger] final(ring)@[k]).author == author
                        && final(ring)@[k].log_id == log_id ==> final(ring)@[k].backlink != backlink
                        && forall|i: int|
                        0 <= i < entries.len() ==> final(ring)@[k].backlink != Some(
                            (#[trigger] entries[i]).id,
                        )
                &&& forall|k: int|
                    0 <= k < old(ring)@.len() ==> #[trigger] entries.contains(old(ring)@[k]) || final(ring)@.contains(old(ring)@[k])
                &&& forall|k: int|
                    0 <= k < final(ring)@.len() ==> old(ring)@.contains(#[trigger] final(ring)@[k])
                &&& final(ring)@.len() + items@.len() == old(ring)@.len()
            },
        final(ring).limit() == old(ring).limit(),
{
    old(ring).lemma_positions_distinct();
    let before = old(ring)@;
    let links = chain(before, author, backlink, log_id);
    let left = without_chain(before, author, backlink, log_id);
    law_chain_is_linked(before, author, backlink, log_id);
    law_chain_comes_from_ring(before, author, backlink, log_id);
    law_left_comes_from_ring(before, author, backlink, log_id);
    law_nothing_waits_on_released(before, author, backlink, log_id);
    law_pop_again_is_empty(before, author, backlink, log_id);
    assert(!holds(left, author, backlink, log_id));
    lemma_popped_len(before, author, backlink, log_id);
    assert forall|i: int| 0 < i < links.len() implies (#[trigger] links[i]).backlink == Some(
        links[i - 1].id,
    ) by {
        assert(links[(i - 1) + 1].backlink == Some(links[i - 1].id));
    }
    assert forall|i: int| 0 <= i < links.len() implies (#[trigger] links[i]).item == items@[i] by {
        assert(items_of(links)[i] == items@[i]);
    }
    assert forall|k: int|
        0 <= k < left.len() && (#[trigger] left[k]).author == author && left[k].log_id
            == log_id implies left[k].backlink != backlink && forall|i: int|
        0 <= i < links.len() ==> left[k].backlink != Some((#[trigger] links[i]).id) by {
        assert(!waits_on(left[k], author, backlink, log_id));
        assert forall|i: int| 0 <= i < links.len() implies left[k].backlink != Some(
            (#[trigger] links[i]).id,
        ) by {
            assert(!holds(left, author, Some(links[i].id), log_id));
            assert(!waits_on(left[k], author, Some(links[i].id), log_id));
        }
    }
    assert forall|k: int| 0 <= k < before.len() implies #[trigger] links.contains(before[k])
        || left.contains(before[k]) by {
        law_pop_splits_ring(before, author, backlink, log_id, k);
    }
    assert(links.len() == items@.len());
}

/// What is left after a pop keeps its order.
pub proof fn law_pop_keeps_order<T>(
    ring: &mut ChainRing<T>,
    author: VerifyingKey,
    backlink: Option<OperationHash>,
    log_id: LogId,
    items: Vec<T>,
)
    requires
        call_ensures(ChainRing::<T>::pop_from, (ring, author, backlink, log_id), items),
    ensures
        forall|j: int, k: int|
            0 <= j < k < final(ring)@.len() ==> stands_before(
                old(ring)@,
                #[trigger] final(ring)@[j],
                #[trigger] final(ring)@[k],
            ),
{
    lemma_left_keeps_order(old(ring)@, author, backlink, log_id);
}

proof fn lemma_popped_len<T>(
    ring: Seq<RingEntry<T>>,
    author: VerifyingKey,
    backlink: Option<OperationHash>,
    log_id: LogId,
)
    ensures
        chain(ring, author, backlink, log_id).len() + without_chain(
            ring,
            author,
            backlink,
            log_id,
        ).len() == ring.len(),
    decreases ring.len(),
{
    if holds(ring, author, backlink, log_id) {
        let at = position(ring, author, backlink, log_id);
        lemma_popped_len(ring.remove(at), author, Some(ring[at].id), log_id);
    }
}

} // verus!
