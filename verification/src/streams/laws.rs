//! What the acknowledgement of operations promises.
//!
//! Every law here speaks of calls: of the arguments of a function, of what it returns and of what is
//! known in memory before and after.

use crate::collections::VecMap;
use crate::retry::retry_after;
use crate::streams::acked::{
    get_log_heights, heights_of, replies_to, Ack, AckAction, AckReply, AckStep, Acked, AckedError,
    Cursor, Replay, ReplayAction, ReplayReply, ReplayStep, StreamFrom,
};
use crate::types::{LogId, SeqNum, Topic, VerifyingKey};
use std::collections::VecDeque;
use std::sync::Arc;
use vstd::prelude::*;

verus! {

/// Ack-state starts with the name and the topic it was given, without a cursor in memory and with
/// nothing pending.
pub proof fn law_acked_starts_empty<C>(
    topic: Topic,
    name: &str,
    acked: Acked<C>,
    cursor_name: &str,
    about: Topic,
    pending: usize,
    cursor: Option<Cursor<C>>,
    flush: Option<Cursor<C>>,
)
    requires
        call_ensures(Acked::<C>::from_name, (topic, name), acked) || call_ensures(
            Acked::<C>::new,
            (topic, name),
            acked,
        ),
        call_ensures(Acked::<C>::cursor_name, (&acked,), cursor_name),
        call_ensures(Acked::<C>::topic, (&acked,), about),
        call_ensures(Acked::<C>::pending, (&acked,), pending),
        call_ensures(Acked::<C>::cursor, (&acked,), cursor),
        call_ensures(Acked::<C>::flush, (&acked,), flush),
    ensures
        cursor_name@ == name@,
        about == topic,
        pending == 0,
        cursor is None,
        flush is None,
        acked@.since is None,
{
}

/// The cursor in memory is told as it is. What was persisted is used where there is something, and a
/// cursor of this name which has acked nothing where there is not.
pub proof fn law_cursor_is_memory_or_persisted<C>(
    acked: &Acked<C>,
    memory: Option<Cursor<C>>,
    persisted: Result<Option<Cursor<C>>, String>,
    empty: &Arc<C>,
    result: Result<Cursor<C>, AckedError>,
)
    requires
        call_ensures(Acked::<C>::cursor, (acked,), memory),
        call_ensures(Acked::<C>::persisted_cursor, (acked, persisted, empty), result),
    ensures
        memory == acked@.cursor,
        persisted matches Ok(Some(cursor)) ==> result == Ok::<Cursor<C>, AckedError>(cursor),
        persisted matches Ok(None) ==> (result matches Ok(cursor) && cursor.name@ == acked.name()@
            && cursor.state == *empty),
        persisted matches Err(message) ==> (result matches Err(AckedError::Store(told)) && told@
            == message@),
{
}

/// A fresh cursor has the tracked name and has acked nothing, and a copy of a cursor is no different
/// from it.
pub proof fn law_fresh_cursor_has_acked_nothing<C>(
    acked: &Acked<C>,
    name: &str,
    empty: &Arc<C>,
    cursor: Cursor<C>,
    copy: Cursor<C>,
)
    requires
        call_ensures(Acked::<C>::cursor_name, (acked,), name),
        call_ensures(Acked::<C>::fresh_cursor, (acked, empty), cursor),
        call_ensures(Cursor::<C>::duplicate, (&cursor,), copy),
    ensures
        cursor.name@ == name@,
        cursor.state == *empty,
        copy == cursor,
{
}

/// An ack begins with the cursor in memory where there is one, else it has to be loaded. It is about
/// the operation it was given, and has four attempts, or one where any error is to surface at once.
pub proof fn law_ack_begins_with_memory<C>(
    acked: &Acked<C>,
    author: VerifyingKey,
    log_id: LogId,
    seq_num: SeqNum,
    ack: Ack<C>,
    single: Ack<C>,
)
    requires
        call_ensures(Acked::<C>::ack, (acked, author, log_id, seq_num), ack),
        call_ensures(Acked::<C>::ack_attempt, (acked, author, log_id, seq_num), single),
    ensures
        ack@.attempt == 1,
        single@.attempt == 4,
        ack@.position.author == author && ack@.position.log_id == log_id && ack@.position.seq_num
            == seq_num,
        single@.position == ack@.position,
        ack@.cursor == acked@.cursor,
        single@.cursor == acked@.cursor,
        acked@.cursor is Some ==> ack@.phase is Advance && single@.phase is Advance,
        acked@.cursor is None ==> ack@.phase is Load && single@.phase is Load,
{
}

/// It is the tracked cursor which is loaded, the cursor of the ack which is advanced by the acked
/// operation, and the same which is persisted.
pub proof fn law_ack_acts_on_its_cursor<C>(acked: &Acked<C>, ack: &Ack<C>, action: AckAction<C>)
    requires
        ack.wf(),
        call_ensures(Acked::<C>::action, (acked, ack), action),
    ensures
        ack@.phase is Load ==> (action matches AckAction::Load { name } && name@ == acked.name()@),
        ack@.phase is Advance ==> (action matches AckAction::Advance {
            cursor,
            author,
            log_id,
            seq_num,
        } && {
            &&& Some(cursor) == ack@.cursor
            &&& author == ack@.position.author
            &&& log_id == ack@.position.log_id
            &&& seq_num == ack@.position.seq_num
        }),
        ack@.phase is Persist ==> (action matches AckAction::Persist { cursor } && Some(cursor)
            == ack@.cursor),
{
    ack.law_ack_invariant();
}

/// A loaded cursor is advanced, or one which has acked nothing where none was persisted. Nothing changes
/// in memory.
pub proof fn law_loaded_cursor_is_advanced<C>(
    acked: &mut Acked<C>,
    ack: Ack<C>,
    persisted: Option<Cursor<C>>,
    empty: &Arc<C>,
    step: AckStep<C>,
)
    requires
        call_ensures(
            Acked::<C>::advance,
            (acked, ack, AckReply::<C>::Loaded(Ok(persisted)), empty),
            step,
        ),
    ensures
        final(acked)@ == old(acked)@,
        final(acked).name() == old(acked).name(),
        final(acked).about() == old(acked).about(),
        step matches AckStep::Perform(after) && {
            &&& after@.phase is Advance
            &&& after@.attempt == ack@.attempt
            &&& after@.position == ack@.position
            &&& persisted is Some ==> after@.cursor == persisted
            &&& persisted is None ==> (after@.cursor matches Some(cursor) && cursor.name@ == old(acked).name()@ && cursor.state == *empty)
        },
{
}

/// An advanced cursor is kept in memory at once, with one more ack pending. It is written after 32
/// acks, or once the first of them is 50 milliseconds old, and not before.
pub proof fn law_advanced_cursor_is_batched<C>(
    acked: &mut Acked<C>,
    ack: Ack<C>,
    cursor: Cursor<C>,
    now: u64,
    empty: &Arc<C>,
    step: AckStep<C>,
    since: u64,
)
    requires
        since == match old(acked)@.since {
            Some(since) => since,
            None => now,
        },
        call_ensures(
            Acked::<C>::advance,
            (acked, ack, AckReply::<C>::Advanced { cursor, now }, empty),
            step,
        ),
    ensures
        final(acked)@.cursor == Some(cursor),
        final(acked)@.pending == old(acked)@.pending + 1,
        final(acked)@.since == Some(since),
        final(acked).name() == old(acked).name(),
        final(acked).about() == old(acked).about(),
        old(acked)@.pending + 1 >= 32 || now - since >= 50_000_000 ==> (step matches AckStep::Perform(
            after,
        ) && {
            &&& after@.phase is Persist
            &&& after@.cursor == Some(cursor)
            &&& after@.attempt == ack@.attempt
            &&& after@.position == ack@.position
        }),
        old(acked)@.pending + 1 < 32 && now - since < 50_000_000 ==> (step matches AckStep::Finished(
            result,
        ) && result is Ok),
{
}

/// Once a cursor was persisted nothing is pending, and the cursor is still the one in memory.
pub proof fn law_persisted_cursor_settles_batch<C>(
    acked: &mut Acked<C>,
    ack: Ack<C>,
    empty: &Arc<C>,
    step: AckStep<C>,
)
    requires
        call_ensures(
            Acked::<C>::advance,
            (acked, ack, AckReply::<C>::Persisted(Ok(())), empty),
            step,
        ),
    ensures
        final(acked).name() == old(acked).name(),
        final(acked).about() == old(acked).about(),
        final(acked)@.cursor == old(acked)@.cursor,
        final(acked)@.pending == 0,
        final(acked)@.since is None,
        step matches AckStep::Finished(result) && result is Ok,
{
}

/// A store error changes nothing in memory. Whether the ack is tried again depends on the error and
/// the number of the attempt alone: it begins again with what is in memory after the backoff, about
/// the same operation, or ends with the error's own words.
pub proof fn law_failed_ack_is_retried_or_surfaces<C>(
    acked: &mut Acked<C>,
    ack: Ack<C>,
    message: String,
    text: &str,
    reply: AckReply<C>,
    attempt: usize,
    millis: Option<u64>,
    empty: &Arc<C>,
    step: AckStep<C>,
)
    requires
        reply == (AckReply::<C>::Loaded(Err(message))) || reply == (AckReply::<C>::Persisted(
            Err(message),
        )),
        attempt == ack@.attempt,
        text@ == message@,
        call_ensures(retry_after, (attempt, text), millis),
        call_ensures(Acked::<C>::advance, (acked, ack, reply, empty), step),
    ensures
        final(acked)@ == old(acked)@,
        final(acked).name() == old(acked).name(),
        final(acked).about() == old(acked).about(),
        millis matches Some(wait) ==> (step matches AckStep::Retry { ack: again, millis: told } && {
            &&& told == wait
            &&& again@.attempt == ack@.attempt + 1
            &&& again@.position == ack@.position
            &&& again@.cursor == old(acked)@.cursor
            &&& old(acked)@.cursor is Some ==> again@.phase is Advance
            &&& old(acked)@.cursor is None ==> again@.phase is Load
        }),
        millis is None ==> (step matches AckStep::Finished(Err(AckedError::Store(told))) && told@
            == message@),
{
}

/// Exactly what is pending is flushed: the cursor in memory as long as an ack is pending, and nothing
/// otherwise. A successful flush settles it, a failed one changes nothing and tells the error.
pub proof fn law_pending_cursor_is_flushed<C>(
    acked: &mut Acked<C>,
    cursor: Option<Cursor<C>>,
    written: Result<(), String>,
    result: Result<(), AckedError>,
)
    requires
        call_ensures(Acked::<C>::flush, (old(acked),), cursor),
        call_ensures(Acked::<C>::flushed, (acked, written), result),
    ensures
        final(acked).name() == old(acked).name(),
        final(acked).about() == old(acked).about(),
        old(acked)@.pending == 0 ==> cursor is None,
        old(acked)@.pending > 0 ==> cursor is Some && cursor == old(acked)@.cursor,
        written is Ok ==> {
            &&& result is Ok
            &&& final(acked)@.cursor == old(acked)@.cursor
            &&& final(acked)@.pending == 0
            &&& final(acked)@.since is None
        },
        written matches Err(message) ==> {
            &&& final(acked)@ == old(acked)@
            &&& result matches Err(AckedError::Store(told))
            &&& told@ == message@
        },
{
}

/// A whole ack of an operation, from the first one on: a cursor which was never persisted starts out
/// empty, is advanced by the operation and kept in memory, and a flush right after hands out exactly
/// what it was advanced to.
pub proof fn law_first_ack_is_kept_until_flushed<C>(
    loading: &mut Acked<C>,
    advancing: &mut Acked<C>,
    author: VerifyingKey,
    log_id: LogId,
    seq_num: SeqNum,
    ack: Ack<C>,
    empty: &Arc<C>,
    loaded: Ack<C>,
    asked: AckAction<C>,
    cursor: Cursor<C>,
    now: u64,
    step: AckStep<C>,
    flush: Option<Cursor<C>>,
)
    requires
        old(loading)@.cursor is None,
        old(loading)@.pending == 0,
        old(loading)@.since is None,
        call_ensures(Acked::<C>::ack, (old(loading), author, log_id, seq_num), ack),
        call_ensures(
            Acked::<C>::advance,
            (loading, ack, AckReply::<C>::Loaded(Ok(None)), empty),
            AckStep::Perform(loaded),
        ),
        loaded.wf(),
        call_ensures(Acked::<C>::action, (final(loading), &loaded), asked),
        *old(advancing) == *final(loading),
        call_ensures(
            Acked::<C>::advance,
            (advancing, loaded, AckReply::<C>::Advanced { cursor, now }, empty),
            step,
        ),
        call_ensures(Acked::<C>::flush, (final(advancing),), flush),
    ensures
        asked matches AckAction::Advance {
            cursor: fresh,
            author: of,
            log_id: over,
            seq_num: at,
        } && {
            &&& fresh.name@ == old(loading).name()@
            &&& fresh.state == *empty
            &&& of == author
            &&& over == log_id
            &&& at == seq_num
        },
        step matches AckStep::Finished(result) && result is Ok,
        flush == Some(cursor),
{
    law_loaded_cursor_is_advanced(loading, ack, None, empty, AckStep::Perform(loaded));
    law_ack_acts_on_its_cursor(final(loading), &loaded, asked);
}

/// A replay looks at the log heights of its topic before anything else, wherever it starts from.
pub proof fn law_replay_begins_with_heights<C, H>(
    acked: &Acked<C>,
    from: StreamFrom<C>,
    replay: Replay<C, H>,
    action: ReplayAction<C>,
)
    requires
        call_ensures(Acked::<C>::nacked_log_ranges::<H>, (acked, from), replay),
        call_ensures(Acked::<C>::replay_action::<H>, (acked, &replay), action),
    ensures
        action == (ReplayAction::<C>::Resolve { topic: acked.about() }),
{
}

/// A replay from the start resets everything, whatever is in memory: the cursor which has acked nothing
/// is written under the tracked name, and once that was successful it is the one in memory with nothing
/// pending, and the one which is compared with the log heights that were resolved.
pub proof fn law_replay_from_start_resets<C, H>(
    resolving: &mut Acked<C>,
    writing: &mut Acked<C>,
    replay: Replay<C, H>,
    authors: VecDeque<(VerifyingKey, Option<H>)>,
    heights: VecMap<VerifyingKey, H>,
    empty: &Arc<C>,
    resolved: ReplayStep<C, H>,
    write: Replay<C, H>,
    action: ReplayAction<C>,
    step: ReplayStep<C, H>,
)
    requires
        call_ensures(
            Acked::<C>::nacked_log_ranges::<H>,
            (old(resolving), StreamFrom::<C>::Start),
            replay,
        ),
        call_ensures(get_log_heights::<H>, (authors,), heights),
        call_ensures(
            Acked::<C>::replay_advance::<H>,
            (resolving, replay, ReplayReply::<C, H>::Resolved(Ok(authors)), empty),
            resolved,
        ),
        resolved matches ReplayStep::Perform(next) ==> next == write,
        call_ensures(Acked::<C>::replay_action::<H>, (final(resolving), &write), action),
        *old(writing) == *final(resolving),
        call_ensures(
            Acked::<C>::replay_advance::<H>,
            (writing, write, ReplayReply::<C, H>::Written(Ok(())), empty),
            step,
        ),
    ensures
        resolved is Perform,
        final(resolving)@ == old(resolving)@,
        final(writing).name() == old(resolving).name(),
        final(writing).about() == old(resolving).about(),
        action matches ReplayAction::Write { cursor } && {
            &&& cursor.name@ == old(resolving).name()@
            &&& cursor.state == *empty
            &&& step matches ReplayStep::Finished(Ok(comparison))
            &&& comparison.cursor == cursor
            &&& comparison.heights@ == heights@
            &&& final(writing)@.cursor == Some(cursor)
            &&& final(writing)@.pending == 0
            &&& final(writing)@.since is None
        },
{
}

/// A replay from a given cursor of the tracked name writes this cursor, and compares it with the
/// resolved log heights once it is in place. One of any other name is refused with both names before
/// anything was written.
pub proof fn law_replay_from_cursor_replaces<C, H>(
    resolving: &mut Acked<C>,
    writing: &mut Acked<C>,
    given: Cursor<C>,
    replay: Replay<C, H>,
    authors: VecDeque<(VerifyingKey, Option<H>)>,
    heights: VecMap<VerifyingKey, H>,
    empty: &Arc<C>,
    resolved: ReplayStep<C, H>,
    write: Replay<C, H>,
    action: ReplayAction<C>,
    step: ReplayStep<C, H>,
)
    requires
        call_ensures(
            Acked::<C>::nacked_log_ranges::<H>,
            (old(resolving), StreamFrom::Cursor(given)),
            replay,
        ),
        call_ensures(get_log_heights::<H>, (authors,), heights),
        call_ensures(
            Acked::<C>::replay_advance::<H>,
            (resolving, replay, ReplayReply::<C, H>::Resolved(Ok(authors)), empty),
            resolved,
        ),
        resolved matches ReplayStep::Perform(next) ==> next == write,
        call_ensures(Acked::<C>::replay_action::<H>, (final(resolving), &write), action),
        *old(writing) == *final(resolving),
        call_ensures(
            Acked::<C>::replay_advance::<H>,
            (writing, write, ReplayReply::<C, H>::Written(Ok(())), empty),
            step,
        ),
    ensures
        final(resolving)@ == old(resolving)@,
        final(resolving).name() == old(resolving).name(),
        final(resolving).about() == old(resolving).about(),
        given.name@ != old(resolving).name()@ ==> (resolved matches ReplayStep::Finished(
            Err(AckedError::InvalidName(name, expected)),
        ) && name@ == given.name@ && expected@ == old(resolving).name()@),
        given.name@ == old(resolving).name()@ ==> {
            &&& resolved is Perform
            &&& action == (ReplayAction::<C>::Write { cursor: given })
            &&& step matches ReplayStep::Finished(Ok(comparison))
            &&& comparison.cursor == given
            &&& comparison.heights@ == heights@
            &&& final(writing)@.cursor == Some(given)
            &&& final(writing)@.pending == 0
            &&& final(writing)@.since is None
        },
{
}

/// A replay from the frontier writes nothing and changes nothing: the cursor in memory is compared with
/// the resolved log heights, or where there is none the persisted one of the tracked name, or one which
/// has acked nothing.
pub proof fn law_replay_from_frontier_only_reads<C, H>(
    resolving: &mut Acked<C>,
    loading: &mut Acked<C>,
    replay: Replay<C, H>,
    authors: VecDeque<(VerifyingKey, Option<H>)>,
    heights: VecMap<VerifyingKey, H>,
    empty: &Arc<C>,
    resolved: ReplayStep<C, H>,
    load: Replay<C, H>,
    action: ReplayAction<C>,
    persisted: Option<Cursor<C>>,
    step: ReplayStep<C, H>,
)
    requires
        call_ensures(
            Acked::<C>::nacked_log_ranges::<H>,
            (old(resolving), StreamFrom::<C>::Frontier),
            replay,
        ),
        call_ensures(get_log_heights::<H>, (authors,), heights),
        call_ensures(
            Acked::<C>::replay_advance::<H>,
            (resolving, replay, ReplayReply::<C, H>::Resolved(Ok(authors)), empty),
            resolved,
        ),
        resolved matches ReplayStep::Perform(next) ==> next == load,
        call_ensures(Acked::<C>::replay_action::<H>, (final(resolving), &load), action),
        *old(loading) == *final(resolving),
        call_ensures(
            Acked::<C>::replay_advance::<H>,
            (loading, load, ReplayReply::<C, H>::Loaded(Ok(persisted)), empty),
            step,
        ),
    ensures
        final(resolving)@ == old(resolving)@,
        final(resolving).name() == old(resolving).name(),
        final(resolving).about() == old(resolving).about(),
        old(resolving)@.cursor matches Some(cursor) ==> (resolved matches ReplayStep::Finished(
            Ok(comparison),
        ) && comparison.cursor == cursor && comparison.heights@ == heights@),
        old(resolving)@.cursor is None ==> {
            &&& resolved is Perform
            &&& action matches ReplayAction::Load { name }
            &&& name@ == old(resolving).name()@
            &&& final(loading)@ == old(loading)@
            &&& step matches ReplayStep::Finished(Ok(comparison))
            &&& comparison.heights@ == heights@
            &&& persisted matches Some(cursor) ==> comparison.cursor == cursor
            &&& persisted is None ==> comparison.cursor.name@ == old(resolving).name()@
                && comparison.cursor.state == *empty
        },
{
}

/// Whatever a store fails at in a replay, the error surfaces with its own words and nothing changes in
/// memory.
pub proof fn law_failed_replay_surfaces<C, H>(
    acked: &mut Acked<C>,
    replay: Replay<C, H>,
    message: String,
    reply: ReplayReply<C, H>,
    empty: &Arc<C>,
    step: ReplayStep<C, H>,
)
    requires
        reply == (ReplayReply::<C, H>::Resolved(Err(message))) || reply == (ReplayReply::<
            C,
            H,
        >::Loaded(Err(message))) || reply == (ReplayReply::<C, H>::Written(Err(message))),
        replies_to(reply, replay@),
        call_ensures(Acked::<C>::replay_advance::<H>, (acked, replay, reply, empty), step),
    ensures
        final(acked)@ == old(acked)@,
        final(acked).name() == old(acked).name(),
        final(acked).about() == old(acked).about(),
        step matches ReplayStep::Finished(Err(AckedError::Store(told))) && told@ == message@,
{
}

/// The log heights are those of every author who has any, and of no one else. Where an author is
/// answered for more than once, the last answer with any counts.
pub proof fn law_heights_are_those_of_authors_with_logs<H>(
    replies: VecDeque<(VerifyingKey, Option<H>)>,
    heights: VecMap<VerifyingKey, H>,
)
    requires
        call_ensures(get_log_heights::<H>, (replies,), heights),
    ensures
        heights.wf(),
        forall|author: VerifyingKey| #[trigger]
            heights@.contains_key(author) <==> exists|i: int|
                0 <= i < replies@.len() && (#[trigger] replies@[i]).0 == author
                    && replies@[i].1 is Some,
        forall|i: int|
            0 <= i < replies@.len() && (#[trigger] replies@[i]).1 is Some && (forall|j: int|
                i < j < replies@.len() ==> !((#[trigger] replies@[j]).0 == replies@[i].0
                    && replies@[j].1 is Some)) ==> Some(heights@[replies@[i].0]) == replies@[i].1,
{
    lemma_heights(replies@);
}

proof fn lemma_heights<H>(replies: Seq<(VerifyingKey, Option<H>)>)
    ensures
        forall|author: VerifyingKey| #[trigger]
            heights_of(replies).contains_key(author) <==> exists|i: int|
                0 <= i < replies.len() && (#[trigger] replies[i]).0 == author
                    && replies[i].1 is Some,
        forall|i: int|
            0 <= i < replies.len() && (#[trigger] replies[i]).1 is Some && (forall|j: int|
                i < j < replies.len() ==> !((#[trigger] replies[j]).0 == replies[i].0
                    && replies[j].1 is Some)) ==> Some(
                heights_of(replies)[replies[i].0],
            ) == replies[i].1,
    decreases replies.len(),
{
    if replies.len() > 0 {
        let rest = replies.drop_last();
        let all = heights_of(replies);
        let earlier = heights_of(rest);
        let last = replies.len() - 1;
        lemma_heights(rest);
        assert forall|author: VerifyingKey| #[trigger] all.contains_key(author) <==> exists|i: int|
            0 <= i < replies.len() && (#[trigger] replies[i]).0 == author && replies[i].1 is Some by {
            if earlier.contains_key(author) {
                let i = choose|i: int|
                    0 <= i < rest.len() && (#[trigger] rest[i]).0 == author && rest[i].1 is Some;
                assert(replies[i].0 == author && replies[i].1 is Some);
            }
            if exists|i: int|
                0 <= i < replies.len() && (#[trigger] replies[i]).0 == author
                    && replies[i].1 is Some {
                let i = choose|i: int|
                    0 <= i < replies.len() && (#[trigger] replies[i]).0 == author
                        && replies[i].1 is Some;
                if i < last {
                    assert(rest[i].0 == author && rest[i].1 is Some);
                    assert(earlier.contains_key(author));
                }
            }
            if replies[last].0 == author && replies[last].1 is Some {
                assert(all.contains_key(author));
            }
        }
        assert forall|i: int|
            0 <= i < replies.len() && (#[trigger] replies[i]).1 is Some && (forall|j: int|
                i < j < replies.len() ==> !((#[trigger] replies[j]).0 == replies[i].0
                    && replies[j].1 is Some)) implies Some(all[replies[i].0]) == replies[i].1 by {
            if i < last {
                assert(rest[i] == replies[i]);
                assert forall|j: int| i < j < rest.len() implies !((#[trigger] rest[j]).0
                    == rest[i].0 && rest[j].1 is Some) by {
                    assert(replies[j] == rest[j]);
                }
                assert(Some(earlier[rest[i].0]) == rest[i].1);
                assert(!(replies[last].0 == replies[i].0 && replies[last].1 is Some));
            }
        }
    }
}

/// Two ack-states are the same exactly where their names and their topics are.
pub proof fn law_acked_is_known_by_name_and_topic<C>(
    left: &Acked<C>,
    right: &Acked<C>,
    same: bool,
    left_name: &str,
    right_name: &str,
    left_topic: Topic,
    right_topic: Topic,
)
    requires
        call_ensures(<Acked<C> as PartialEq>::eq, (left, right), same),
        call_ensures(Acked::<C>::cursor_name, (left,), left_name),
        call_ensures(Acked::<C>::cursor_name, (right,), right_name),
        call_ensures(Acked::<C>::topic, (left,), left_topic),
        call_ensures(Acked::<C>::topic, (right,), right_topic),
    ensures
        same <==> left_name@ == right_name@ && left_topic == right_topic,
{
}

/// Errors are described by their reasons.
pub proof fn law_acked_errors_are_described(error: &AckedError, topic: &str, message: String)
    requires
        call_ensures(AckedError::message, (error, topic), message),
    ensures
        *error matches AckedError::Store(reason) ==> message@
            == "an error occurred while querying the store: "@ + reason@,
        *error matches AckedError::InvalidName(name, expected) ==> message@
            == "can't use cursor with different name '"@ + name@ + "' for this stream, expected: "@
            + expected@,
        *error is InvalidTopic ==> message@
            == "can't ack operation which is part of a different topic, expected: "@ + topic@,
{
}

} // verus!
