//! Acknowledgement of processed operations.
//!
//! A cursor tracks which operations of a topic were acknowledged. How far a cursor has come is known
//! to whoever advances and compares it; here it is decided which cursor is used, when it is written
//! to the store and what happens when that fails.

use crate::collections::VecMap;
use crate::retry::{backoff_after, retries, retry_after, RETRY_ATTEMPTS};
use crate::shared::share;
use crate::types::{LogId, SeqNum, Topic, VerifyingKey};
use std::collections::VecDeque;
use std::sync::Arc;
use vstd::prelude::*;

verus! {

/// Maximum number of acked operations which are held in memory before the advanced cursor is written
/// to the store.
pub const ACK_BATCH_MAX_OPS: usize = 32;

/// Maximum time, in nanoseconds, an advanced cursor which was not persisted is allowed to sit in
/// memory before the next ack writes it.
pub const ACK_BATCH_MAX_DELAY_NANOS: u64 = 50_000_000;

/// A named cursor and how far it has come.
#[derive(Debug)]
pub struct Cursor<C> {
    pub name: String,
    pub state: Arc<C>,
}

impl<C> Cursor<C> {
    /// Returns another copy of this cursor.
    pub fn duplicate(&self) -> (copy: Self)
        ensures
            copy == *self,
    {
        Cursor { name: self.name.clone(), state: share(&self.state) }
    }
}

/// Whether a cursor, if there is one, has this name.
pub open spec fn named<C>(cursor: Option<Cursor<C>>, name: Seq<char>) -> bool {
    cursor matches Some(cursor) ==> cursor.name@ == name
}

/// The place of an operation in its author's log.
#[derive(Clone, Copy, Debug, PartialEq, Eq, Structural)]
pub struct LogPosition {
    pub author: VerifyingKey,
    pub log_id: LogId,
    pub seq_num: SeqNum,
}

/// From where to re-play a stream.
#[derive(Debug)]
pub enum StreamFrom<C> {
    /// From the last acknowledged operations on.
    Frontier,

    /// From the beginning.
    Start,

    /// From the given cursor on.
    Cursor(Cursor<C>),
}

/// Acknowledgment of event failed due to critical error.
#[derive(Debug)]
pub enum AckedError {
    /// An error occurred while querying the store.
    Store(String),

    /// Name of a cursor which can't be used, and the expected one.
    InvalidName(String, String),

    /// Operation is part of a different topic than the expected one.
    InvalidTopic(Topic),
}

impl AckedError {
    /// Describes the error to humans, `topic` being the text of an expected topic.
    pub fn message(&self, topic: &str) -> (message: String)
        ensures
            message@ == match *self {
                AckedError::Store(reason) => "an error occurred while querying the store: "@
                    + reason@,
                AckedError::InvalidName(name, expected) => "can't use cursor with different name '"@
                    + name@ + "' for this stream, expected: "@ + expected@,
                AckedError::InvalidTopic(_) =>
                    "can't ack operation which is part of a different topic, expected: "@ + topic@,
            },
    {
        match self {
            AckedError::Store(reason) => {
                "an error occurred while querying the store: ".to_owned().concat(reason.as_str())
            },
            AckedError::InvalidName(name, expected) => {
                "can't use cursor with different name '".to_owned().concat(name.as_str()).concat(
                    "' for this stream, expected: ",
                ).concat(expected.as_str())
            },
            AckedError::InvalidTopic(_) => {
                "can't ack operation which is part of a different topic, expected: ".to_owned().concat(
                    topic,
                )
            },
        }
    }
}

/// What is known in memory about a cursor.
#[verifier::ext_equal]
pub struct Batch<C> {
    /// The most recently advanced cursor, not yet necessarily persisted. `None` until it was first
    /// loaded from the store.
    pub cursor: Option<Cursor<C>>,

    /// Number of acks folded into the cursor since it was last persisted.
    pub pending: nat,

    /// When the first of these acks was made, in nanoseconds.
    pub since: Option<u64>,
}

/// Whether pending acks are backed by the cursor they were folded into.
pub open spec fn backed<C>(batch: Batch<C>) -> bool {
    batch.pending > 0 ==> batch.cursor is Some
}

/// The batch after an ack advanced the cursor.
pub open spec fn folded<C>(batch: Batch<C>, cursor: Cursor<C>, now: u64) -> Batch<C> {
    Batch {
        cursor: Some(cursor),
        pending: batch.pending + 1,
        since: Some(
            match batch.since {
                Some(since) => since,
                None => now,
            },
        ),
    }
}

/// Whether a batch has to be written to the store.
pub open spec fn due<C>(batch: Batch<C>, now: u64) -> bool {
    batch.pending >= ACK_BATCH_MAX_OPS || (batch.since matches Some(since) && now - since
        >= ACK_BATCH_MAX_DELAY_NANOS)
}

/// The batch after it was written to the store.
pub open spec fn settled<C>(batch: Batch<C>) -> Batch<C> {
    Batch { pending: 0, since: None, ..batch }
}

/// The batch after another cursor was put in place and written to the store.
pub open spec fn reset<C>(cursor: Cursor<C>) -> Batch<C> {
    Batch { cursor: Some(cursor), pending: 0, since: None }
}

/// Where an ack stands.
#[derive(Clone, Copy, Debug, PartialEq, Eq, Structural)]
pub enum AckPhase {
    /// Load the persisted cursor from the store.
    Load,

    /// Advance the cursor by the acked operation.
    Advance,

    /// Write the cursor to the store.
    Persist,
}

/// What has to be done for an ack.
#[derive(Debug)]
pub enum AckAction<C> {
    /// Load the persisted cursor of this name from the store.
    Load { name: String },

    /// Advance this cursor by the acked operation, which stands here in its author's log, and read
    /// the clock.
    Advance { cursor: Cursor<C>, author: VerifyingKey, log_id: LogId, seq_num: SeqNum },

    /// Write this cursor to the store.
    Persist { cursor: Cursor<C> },
}

/// What came of an action. Store errors are given as text.
#[derive(Debug)]
pub enum AckReply<C> {
    Loaded(Result<Option<Cursor<C>>, String>),
    Advanced { cursor: Cursor<C>, now: u64 },
    Persisted(Result<(), String>),
}

/// Whether a reply belongs to the action an ack waits for. A cursor which was loaded by its name or
/// advanced has this name.
pub open spec fn answers<C>(reply: AckReply<C>, phase: AckPhase, name: Seq<char>) -> bool {
    match phase {
        AckPhase::Load => {
            &&& reply matches AckReply::Loaded(loaded)
            &&& loaded matches Ok(persisted) ==> named(persisted, name)
        },
        AckPhase::Advance => {
            &&& reply matches AckReply::Advanced { cursor, .. }
            &&& cursor.name@ == name
        },
        AckPhase::Persist => reply is Persisted,
    }
}

/// The state of an ack.
pub struct Job<C> {
    /// Number of the current attempt, counted from one.
    pub attempt: nat,
    pub phase: AckPhase,

    /// Where the acked operation stands.
    pub position: LogPosition,

    /// The cursor to advance or to persist.
    pub cursor: Option<Cursor<C>>,
}

/// An ack which starts with the given attempt: the cursor in memory is used, if there is one.
pub open spec fn starting<C>(batch: Batch<C>, position: LogPosition, attempt: nat) -> Job<C> {
    Job {
        attempt,
        position,
        phase: if batch.cursor is Some {
            AckPhase::Advance
        } else {
            AckPhase::Load
        },
        cursor: batch.cursor,
    }
}

/// How an ack goes on.
pub enum Next<C> {
    Perform(Job<C>),

    /// With another attempt, after some milliseconds.
    Retry(Job<C>, u64),
    Done,
    Failed(Seq<char>),
}

/// How an ack goes on after a store error.
pub open spec fn failing<C>(job: Job<C>, batch: Batch<C>, message: Seq<char>) -> Next<C> {
    if retries(job.attempt, message) {
        Next::Retry(
            starting(batch, job.position, job.attempt + 1),
            backoff_after(job.attempt),
        )
    } else {
        Next::Failed(message)
    }
}

/// How an ack goes on after a reply. `fresh` is the cursor to begin with where none was persisted.
pub open spec fn next<C>(
    job: Job<C>,
    reply: AckReply<C>,
    batch: Batch<C>,
    fresh: Cursor<C>,
) -> Next<C> {
    match reply {
        AckReply::Loaded(Ok(persisted)) => Next::Perform(
            Job {
                phase: AckPhase::Advance,
                cursor: Some(
                    match persisted {
                        Some(cursor) => cursor,
                        None => fresh,
                    },
                ),
                ..job
            },
        ),
        AckReply::Loaded(Err(message)) => failing(job, batch, message@),
        AckReply::Advanced { cursor, now } => {
            if due(folded(batch, cursor, now), now) {
                Next::Perform(Job { phase: AckPhase::Persist, cursor: Some(cursor), ..job })
            } else {
                Next::Done
            }
        },
        AckReply::Persisted(Ok(())) => Next::Done,
        AckReply::Persisted(Err(message)) => failing(job, batch, message@),
    }
}

/// The batch after a reply.
pub open spec fn next_batch<C>(reply: AckReply<C>, batch: Batch<C>) -> Batch<C> {
    match reply {
        AckReply::Advanced { cursor, now } => folded(batch, cursor, now),
        AckReply::Persisted(Ok(())) => settled(batch),
        _ => batch,
    }
}

/// Tracks a named cursor for a given topic.
///
/// Cursor persistence is batched: an ack advances the in-memory cursor on every call but only writes
/// it to the store at most every `ACK_BATCH_MAX_OPS` acks or `ACK_BATCH_MAX_DELAY_NANOS`, whichever
/// comes first. The persisted cursor may therefore lag the in-memory one by at most the batch
/// window. Flush before a graceful shutdown to persist any pending batch immediately. Replacing the
/// cursor always writes immediately and resets the batch.
#[derive(Debug)]
pub struct Acked<C> {
    cursor_name: String,
    topic: Topic,
    cursor: Option<Cursor<C>>,
    pending: usize,
    pending_since: Option<u64>,
}

impl<C> PartialEq for Acked<C> {
    fn eq(&self, other: &Self) -> (same: bool) {
        self.cursor_name == other.cursor_name && self.topic == other.topic
    }
}

impl<C> vstd::std_specs::cmp::PartialEqSpecImpl for Acked<C> {
    open spec fn obeys_eq_spec() -> bool {
        true
    }

    /// Both track the same state: the name of their cursors and their topics are the same.
    open spec fn eq_spec(&self, other: &Self) -> bool {
        self.name()@ == other.name()@ && self.about() == other.about()
    }
}

impl<C> Eq for Acked<C> {

}

/// An ack on its way, see [`Acked::ack`].
#[derive(Debug)]
pub struct Ack<C> {
    attempt: usize,
    phase: AckPhase,
    position: LogPosition,
    cursor: Option<Cursor<C>>,
}

/// How an ack goes on.
#[derive(Debug)]
pub enum AckStep<C> {
    /// Perform the next action.
    Perform(Ack<C>),

    /// Wait and start over.
    Retry { ack: Ack<C>, millis: u64 },

    /// The ack is finished.
    Finished(Result<(), AckedError>),
}

/// Whether a step is what comes next.
pub open spec fn steps<C>(step: AckStep<C>, next: Next<C>) -> bool {
    match step {
        AckStep::Perform(ack) => ack.wf() && next == Next::Perform(ack@),
        AckStep::Retry { ack, millis } => ack.wf() && next == Next::Retry(ack@, millis),
        AckStep::Finished(Ok(())) => next is Done,
        AckStep::Finished(Err(error)) => {
            &&& error matches AckedError::Store(message)
            &&& next == Next::<C>::Failed(message@)
        },
    }
}

impl<C> Ack<C> {
    pub closed spec fn view(&self) -> Job<C> {
        Job {
            attempt: self.attempt as nat,
            phase: self.phase,
            position: self.position,
            cursor: self.cursor,
        }
    }

    pub closed spec fn wf(&self) -> bool {
        &&& 1 <= self.attempt <= RETRY_ATTEMPTS
        &&& self.phase != AckPhase::Load ==> self.cursor is Some
    }

    /// There are at most four attempts, and there is a cursor unless it has to be loaded.
    pub proof fn law_ack_invariant(&self)
        requires
            self.wf(),
        ensures
            1 <= self@.attempt <= RETRY_ATTEMPTS,
            !(self@.phase is Load) ==> self@.cursor is Some,
    {
    }

    /// The phase this ack is in.
    pub fn phase(&self) -> (phase: AckPhase)
        ensures
            phase == self@.phase,
    {
        self.phase
    }
}

/// What a replay waits for.
pub enum Stage<C, H> {
    /// The log heights of all authors, to re-play from here.
    Resolve(StreamFrom<C>),

    /// The persisted cursor, to compare it with these log heights.
    Load(Map<VerifyingKey, H>),

    /// Another cursor to be written, to compare it with these log heights.
    Write(Cursor<C>, Map<VerifyingKey, H>),
}

/// What has to be done for a replay.
#[derive(Debug)]
pub enum ReplayAction<C> {
    /// Get the log heights of all authors of this topic.
    Resolve { topic: Topic },

    /// Load the persisted cursor of this name from the store.
    Load { name: String },

    /// Write this cursor to the store. This changes the persisted state and can't be reversed.
    Write { cursor: Cursor<C> },
}

/// What came of a replay's action. Store errors are given as text.
#[derive(Debug)]
pub enum ReplayReply<C, H> {
    Resolved(Result<VecDeque<(VerifyingKey, Option<H>)>, String>),
    Loaded(Result<Option<Cursor<C>>, String>),
    Written(Result<(), String>),
}

/// Whether a reply belongs to the action a replay waits for.
pub open spec fn replies_to<C, H>(reply: ReplayReply<C, H>, stage: Stage<C, H>) -> bool {
    match stage {
        Stage::Resolve(_) => reply is Resolved,
        Stage::Load(_) => reply is Loaded,
        Stage::Write(..) => reply is Written,
    }
}

/// Whether a replay can be gone on with for the cursor of this name: it writes no other one.
pub open spec fn writes_only<C, H>(stage: Stage<C, H>, name: Seq<char>) -> bool {
    stage matches Stage::Write(cursor, _) ==> cursor.name@ == name
}

/// How a replay goes on.
pub enum ReplayNext<C, H> {
    Perform(Stage<C, H>),

    /// Everything the cursor has not come to yet, up to the log heights, is re-played.
    Compare(Cursor<C>, Map<VerifyingKey, H>),
    Failed(Seq<char>),

    /// The given cursor has another name than the expected one.
    Refused(Seq<char>, Seq<char>),
}

/// How a replay goes on once the log heights are known.
pub open spec fn chosen<C, H>(
    from: StreamFrom<C>,
    heights: Map<VerifyingKey, H>,
    batch: Batch<C>,
    fresh: Cursor<C>,
) -> ReplayNext<C, H> {
    match from {
        StreamFrom::Frontier => match batch.cursor {
            Some(cursor) => ReplayNext::Compare(cursor, heights),
            None => ReplayNext::Perform(Stage::Load(heights)),
        },
        StreamFrom::Start => ReplayNext::Perform(Stage::Write(fresh, heights)),
        StreamFrom::Cursor(cursor) => {
            if cursor.name@ == fresh.name@ {
                ReplayNext::Perform(Stage::Write(cursor, heights))
            } else {
                ReplayNext::Refused(cursor.name@, fresh.name@)
            }
        },
    }
}

/// How a replay goes on after a reply. `fresh` is the cursor which has acked nothing.
pub open spec fn replay_next<C, H>(
    stage: Stage<C, H>,
    reply: ReplayReply<C, H>,
    batch: Batch<C>,
    fresh: Cursor<C>,
) -> ReplayNext<C, H> {
    match (stage, reply) {
        (Stage::Resolve(from), ReplayReply::Resolved(Ok(authors))) => chosen(
            from,
            heights_of(authors@),
            batch,
            fresh,
        ),
        (Stage::Load(heights), ReplayReply::Loaded(Ok(Some(cursor)))) => ReplayNext::Compare(
            cursor,
            heights,
        ),
        (Stage::Load(heights), ReplayReply::Loaded(Ok(None))) => ReplayNext::Compare(
            fresh,
            heights,
        ),
        (Stage::Write(cursor, heights), ReplayReply::Written(Ok(()))) => ReplayNext::Compare(
            cursor,
            heights,
        ),
        (_, ReplayReply::Resolved(Err(message))) => ReplayNext::Failed(message@),
        (_, ReplayReply::Loaded(Err(message))) => ReplayNext::Failed(message@),
        (_, ReplayReply::Written(Err(message))) => ReplayNext::Failed(message@),
        _ => ReplayNext::Perform(stage),
    }
}

/// The batch after a reply to a replay.
pub open spec fn replay_batch<C, H>(
    stage: Stage<C, H>,
    reply: ReplayReply<C, H>,
    batch: Batch<C>,
) -> Batch<C> {
    match (stage, reply) {
        (Stage::Write(cursor, _), ReplayReply::Written(Ok(()))) => reset(cursor),
        _ => batch,
    }
}

#[derive(Debug)]
enum ReplayState<C, H> {
    Resolve(StreamFrom<C>),
    Load(VecMap<VerifyingKey, H>),
    Write(Cursor<C>, VecMap<VerifyingKey, H>),
}

/// A replay on its way, see [`Acked::nacked_log_ranges`].
#[derive(Debug)]
pub struct Replay<C, H> {
    state: ReplayState<C, H>,
}

impl<C, H> Replay<C, H> {
    pub closed spec fn view(&self) -> Stage<C, H> {
        match self.state {
            ReplayState::Resolve(from) => Stage::Resolve(from),
            ReplayState::Load(heights) => Stage::Load(heights@),
            ReplayState::Write(cursor, heights) => Stage::Write(cursor, heights@),
        }
    }

    pub closed spec fn wf(&self) -> bool {
        match self.state {
            ReplayState::Resolve(_) => true,
            ReplayState::Load(heights) => heights.wf(),
            ReplayState::Write(_, heights) => heights.wf(),
        }
    }
}

/// A cursor and the log heights to compare it with.
#[derive(Debug)]
pub struct Comparison<C, H> {
    pub cursor: Cursor<C>,
    pub heights: VecMap<VerifyingKey, H>,
}

/// How a replay goes on.
#[derive(Debug)]
pub enum ReplayStep<C, H> {
    /// Perform the next action.
    Perform(Replay<C, H>),

    /// The replay is finished: everything the cursor has not come to yet is re-played.
    Finished(Result<Comparison<C, H>, AckedError>),
}

/// Whether a step is what comes next in a replay.
pub open spec fn replays<C, H>(step: ReplayStep<C, H>, next: ReplayNext<C, H>) -> bool {
    match step {
        ReplayStep::Perform(replay) => replay.wf() && next == ReplayNext::Perform(replay@),
        ReplayStep::Finished(Ok(comparison)) => {
            &&& comparison.heights.wf()
            &&& next == ReplayNext::Compare(comparison.cursor, comparison.heights@)
        },
        ReplayStep::Finished(Err(AckedError::Store(message))) => next == ReplayNext::<C, H>::Failed(
            message@,
        ),
        ReplayStep::Finished(Err(AckedError::InvalidName(name, expected))) => next
            == ReplayNext::<C, H>::Refused(name@, expected@),
        ReplayStep::Finished(Err(AckedError::InvalidTopic(_))) => false,
    }
}

impl<C> Acked<C> {
    /// The name of the cursor.
    pub closed spec fn name(&self) -> String {
        self.cursor_name
    }

    /// The topic whose operations are acknowledged.
    pub closed spec fn about(&self) -> Topic {
        self.topic
    }

    /// What is known in memory about the cursor.
    pub closed spec fn view(&self) -> Batch<C> {
        Batch { cursor: self.cursor, pending: self.pending as nat, since: self.pending_since }
    }

    /// Whether pending acks are backed by a cursor, and the cursor has the expected name.
    pub open spec fn wf(&self) -> bool {
        backed(self@) && named(self@.cursor, self.name()@)
    }

    /// Tracks ack-state using the topic as a name, `text` being how the topic is written.
    pub fn new(topic: Topic, text: &str) -> (acked: Self)
        ensures
            acked.wf(),
            acked.name()@ == text@,
            acked.about() == topic,
            acked@ == (Batch::<C> { cursor: None, pending: 0, since: None }),
    {
        Self::from_name(topic, text)
    }

    /// Tracks ack-state with a custom name.
    ///
    /// This is useful if we want to have multiple instances using the same topic but tracking
    /// different states.
    pub fn from_name(topic: Topic, name: &str) -> (acked: Self)
        ensures
            acked.wf(),
            acked.name()@ == name@,
            acked.about() == topic,
            acked@ == (Batch::<C> { cursor: None, pending: 0, since: None }),
    {
        Acked {
            cursor_name: name.to_owned(),
            topic,
            cursor: None,
            pending: 0,
            pending_since: None,
        }
    }

    pub fn cursor_name(&self) -> (name: &str)
        ensures
            name@ == self.name()@,
    {
        self.cursor_name.as_str()
    }

    /// Number of acks which were not persisted yet.
    pub fn pending(&self) -> (pending: usize)
        ensures
            pending == self@.pending,
    {
        self.pending
    }

    pub fn topic(&self) -> (topic: Topic)
        ensures
            topic == self.about(),
    {
        self.topic
    }

    /// Returns the current acked cursor, `None` if it has to be loaded from the store.
    ///
    /// Prefers the in-memory cursor over the store's possibly stale persisted value.
    pub fn cursor(&self) -> (cursor: Option<Cursor<C>>)
        ensures
            cursor == self@.cursor,
    {
        match &self.cursor {
            Some(cursor) => Some(cursor.duplicate()),
            None => None,
        }
    }

    /// The cursor to begin with where none was persisted, `empty` being the state of a cursor which
    /// has acked nothing.
    pub fn fresh_cursor(&self, empty: &Arc<C>) -> (cursor: Cursor<C>)
        ensures
            cursor == (Cursor { name: self.name(), state: *empty }),
    {
        Cursor { name: self.cursor_name.clone(), state: share(empty) }
    }

    /// The cursor as it was persisted, or a fresh one.
    pub fn persisted_cursor(
        &self,
        persisted: Result<Option<Cursor<C>>, String>,
        empty: &Arc<C>,
    ) -> (result: Result<Cursor<C>, AckedError>)
        ensures
            result == match persisted {
                Ok(Some(cursor)) => Ok::<Cursor<C>, AckedError>(cursor),
                Ok(None) => Ok(Cursor { name: self.name(), state: *empty }),
                Err(message) => Err(AckedError::Store(message)),
            },
    {
        match persisted {
            Ok(Some(cursor)) => Ok(cursor),
            Ok(None) => Ok(self.fresh_cursor(empty)),
            Err(message) => Err(AckedError::Store(message)),
        }
    }

    /// Starts to find out which operations were not acked yet and might be re-played.
    ///
    /// If another cursor is given it is put in place of the current one. This changes the persisted
    /// state as well. It simplifies the API, otherwise two cursors would have to be kept, one for
    /// managing the replay and another for the stream itself.
    pub fn nacked_log_ranges<H>(&self, from: StreamFrom<C>) -> (replay: Replay<C, H>)
        ensures
            replay.wf(),
            replay@ == Stage::<C, H>::Resolve(from),
            writes_only(replay@, self.name()@),
    {
        Replay { state: ReplayState::Resolve(from) }
    }

    /// The action a replay waits for.
    pub fn replay_action<H>(&self, replay: &Replay<C, H>) -> (action: ReplayAction<C>)
        requires
            replay.wf(),
            writes_only(replay@, self.name()@),
        ensures
            action == match replay@ {
                Stage::Resolve(_) => ReplayAction::<C>::Resolve { topic: self.about() },
                Stage::Load(_) => ReplayAction::Load { name: self.name() },
                Stage::Write(cursor, _) => ReplayAction::Write { cursor },
            },
            action matches ReplayAction::Write { cursor } ==> cursor.name@ == self.name()@,
    {
        match &replay.state {
            ReplayState::Resolve(_) => ReplayAction::Resolve { topic: self.topic },
            ReplayState::Load(_) => ReplayAction::Load { name: self.cursor_name.clone() },
            ReplayState::Write(cursor, _) => ReplayAction::Write { cursor: cursor.duplicate() },
        }
    }

    /// Goes on with what came of a replay's action.
    pub fn replay_advance<H>(
        &mut self,
        replay: Replay<C, H>,
        reply: ReplayReply<C, H>,
        empty: &Arc<C>,
    ) -> (step: ReplayStep<C, H>)
        requires
            old(self).wf(),
            replay.wf(),
            writes_only(replay@, old(self).name()@),
            replies_to(reply, replay@),
        ensures
            final(self).wf(),
            final(self).name() == old(self).name(),
            final(self).about() == old(self).about(),
            final(self)@ == replay_batch(replay@, reply, old(self)@),
            replays(
                step,
                replay_next(
                    replay@,
                    reply,
                    old(self)@,
                    (Cursor { name: old(self).name(), state: *empty }),
                ),
            ),
            step matches ReplayStep::Perform(next) ==> writes_only(next@, final(self).name()@),
    {
        match (replay.state, reply) {
            (ReplayState::Resolve(from), ReplayReply::Resolved(Ok(authors))) => {
                let heights = get_log_heights(authors);
                self.choose_cursor(from, heights, empty)
            },
            (ReplayState::Load(heights), ReplayReply::Loaded(persisted)) => {
                match self.persisted_cursor(persisted, empty) {
                    Ok(cursor) => ReplayStep::Finished(Ok(Comparison { cursor, heights })),
                    Err(error) => ReplayStep::Finished(Err(error)),
                }
            },
            (ReplayState::Write(cursor, heights), ReplayReply::Written(written)) => {
                match self.replace_cursor(cursor, written) {
                    Ok(cursor) => ReplayStep::Finished(Ok(Comparison { cursor, heights })),
                    Err(error) => ReplayStep::Finished(Err(error)),
                }
            },
            (_, ReplayReply::Resolved(Err(message))) => {
                ReplayStep::Finished(Err(AckedError::Store(message)))
            },
            (state, _) => ReplayStep::Perform(Replay { state }),
        }
    }

    /// Decides which cursor is used to re-play the stream.
    ///
    /// Fails if we try to use a cursor for a different acked state. This should help developers to
    /// identify bugs.
    fn choose_cursor<H>(
        &self,
        from: StreamFrom<C>,
        heights: VecMap<VerifyingKey, H>,
        empty: &Arc<C>,
    ) -> (step: ReplayStep<C, H>)
        requires
            heights.wf(),
        ensures
            replays(
                step,
                chosen(
                    from,
                    heights@,
                    self@,
                    (Cursor { name: self.name(), state: *empty }),
                ),
            ),
    {
        match from {
            StreamFrom::Frontier => match &self.cursor {
                Some(cursor) => ReplayStep::Finished(
                    Ok(Comparison { cursor: cursor.duplicate(), heights }),
                ),
                None => ReplayStep::Perform(Replay { state: ReplayState::Load(heights) }),
            },
            StreamFrom::Start => {
                let fresh = self.fresh_cursor(empty);
                ReplayStep::Perform(Replay { state: ReplayState::Write(fresh, heights) })
            },
            StreamFrom::Cursor(cursor) => {
                if cursor.name != self.cursor_name {
                    return ReplayStep::Finished(
                        Err(AckedError::InvalidName(cursor.name, self.cursor_name.clone())),
                    );
                }
                ReplayStep::Perform(Replay { state: ReplayState::Write(cursor, heights) })
            },
        }
    }

    /// Puts a cursor in place of the current one, `written` being what came of writing it to the
    /// store.
    ///
    /// A batch from before can never clobber it, and the next ack sees this cursor.
    fn replace_cursor(&mut self, new_cursor: Cursor<C>, written: Result<(), String>) -> (result:
        Result<Cursor<C>, AckedError>)
        requires
            new_cursor.name@ == old(self).name()@,
        ensures
            final(self).name() == old(self).name(),
            final(self).about() == old(self).about(),
            match written {
                Ok(()) => {
                    &&& final(self)@ == reset(new_cursor)
                    &&& result == Ok::<Cursor<C>, AckedError>(new_cursor)
                },
                Err(message) => {
                    &&& final(self)@ == old(self)@
                    &&& result == Err::<Cursor<C>, AckedError>(AckedError::Store(message))
                },
            },
    {
        match written {
            Ok(()) => {
                self.cursor = Some(new_cursor.duplicate());
                self.pending = 0;
                self.pending_since = None;
                Ok(new_cursor)
            },
            Err(message) => Err(AckedError::Store(message)),
        }
    }

    /// Starts to advance the cursor by an acked operation, which stands at `seq_num` in this log of
    /// its author.
    ///
    /// The whole span is retried when the store reports a transient error.
    pub fn ack(&self, author: VerifyingKey, log_id: LogId, seq_num: SeqNum) -> (ack: Ack<C>)
        requires
            self.wf(),
        ensures
            ack.wf(),
            named(ack@.cursor, self.name()@),
            ack@ == starting(self@, (LogPosition { author, log_id, seq_num }), 1),
    {
        self.start_attempt(LogPosition { author, log_id, seq_num }, 1)
    }

    /// Starts a single attempt to advance the cursor by an acked operation: any store error surfaces
    /// at once.
    pub fn ack_attempt(&self, author: VerifyingKey, log_id: LogId, seq_num: SeqNum) -> (ack: Ack<C>)
        requires
            self.wf(),
        ensures
            ack.wf(),
            named(ack@.cursor, self.name()@),
            ack@ == starting(
                self@,
                (LogPosition { author, log_id, seq_num }),
                RETRY_ATTEMPTS as nat,
            ),
    {
        self.start_attempt(LogPosition { author, log_id, seq_num }, RETRY_ATTEMPTS)
    }

    /// Starts with an attempt.
    fn start_attempt(&self, position: LogPosition, attempt: usize) -> (ack: Ack<C>)
        requires
            1 <= attempt <= RETRY_ATTEMPTS,
        ensures
            ack.wf(),
            ack@ == starting(self@, position, attempt as nat),
    {
        match &self.cursor {
            Some(cursor) => Ack {
                attempt,
                phase: AckPhase::Advance,
                position,
                cursor: Some(cursor.duplicate()),
            },
            None => Ack { attempt, phase: AckPhase::Load, position, cursor: None },
        }
    }

    /// The action an ack waits for.
    pub fn action(&self, ack: &Ack<C>) -> (action: AckAction<C>)
        requires
            ack.wf(),
            named(ack@.cursor, self.name()@),
        ensures
            action == match ack@.phase {
                AckPhase::Load => AckAction::<C>::Load { name: self.name() },
                AckPhase::Advance => AckAction::Advance {
                    cursor: ack@.cursor->0,
                    author: ack@.position.author,
                    log_id: ack@.position.log_id,
                    seq_num: ack@.position.seq_num,
                },
                AckPhase::Persist => AckAction::Persist { cursor: ack@.cursor->0 },
            },
            action matches AckAction::Advance { cursor, .. } ==> cursor.name@ == self.name()@,
            action matches AckAction::Persist { cursor } ==> cursor.name@ == self.name()@,
    {
        match (&ack.cursor, ack.phase) {
            (Some(cursor), AckPhase::Advance) => AckAction::Advance {
                cursor: cursor.duplicate(),
                author: ack.position.author,
                log_id: ack.position.log_id,
                seq_num: ack.position.seq_num,
            },
            (Some(cursor), AckPhase::Persist) => AckAction::Persist { cursor: cursor.duplicate() },
            _ => AckAction::Load { name: self.cursor_name.clone() },
        }
    }

    /// Goes on with what came of an ack's action.
    pub fn advance(&mut self, ack: Ack<C>, reply: AckReply<C>, empty: &Arc<C>) -> (step: AckStep<C>)
        requires
            ack.wf(),
            named(ack@.cursor, old(self).name()@),
            answers(reply, ack@.phase, old(self).name()@),
            old(self).wf(),
            old(self)@.pending < usize::MAX,
        ensures
            final(self).wf(),
            final(self).name() == old(self).name(),
            final(self).about() == old(self).about(),
            final(self)@ == next_batch(reply, old(self)@),
            steps(
                step,
                next(
                    ack@,
                    reply,
                    old(self)@,
                    (Cursor { name: old(self).name(), state: *empty }),
                ),
            ),
            step matches AckStep::Perform(next) ==> named(next@.cursor, final(self).name()@),
            step matches AckStep::Retry { ack: next, .. } ==> named(
                next@.cursor,
                final(self).name()@,
            ),
    {
        let position = ack.position;
        match reply {
            AckReply::Loaded(Ok(persisted)) => {
                let cursor = match persisted {
                    Some(cursor) => cursor,
                    None => self.fresh_cursor(empty),
                };
                AckStep::Perform(
                    Ack {
                        attempt: ack.attempt,
                        phase: AckPhase::Advance,
                        position,
                        cursor: Some(cursor),
                    },
                )
            },
            AckReply::Loaded(Err(message)) => self.fail(ack, message),
            AckReply::Advanced { cursor, now } => {
                // The advanced cursor is saved in memory before any attempt to persist it: if that
                // fails, the next attempt must see this value and not fall back to the stale
                // persisted one.
                let to_persist = cursor.duplicate();
                self.cursor = Some(cursor);
                self.pending = self.pending + 1;
                let since: u64 = match self.pending_since {
                    Some(since) => since,
                    None => now,
                };
                self.pending_since = Some(since);
                let should_flush = self.pending >= ACK_BATCH_MAX_OPS || now.saturating_sub(since)
                    >= ACK_BATCH_MAX_DELAY_NANOS;
                if should_flush {
                    return AckStep::Perform(
                        Ack {
                            attempt: ack.attempt,
                            phase: AckPhase::Persist,
                            position,
                            cursor: Some(to_persist),
                        },
                    );
                }
                AckStep::Finished(Ok(()))
            },
            AckReply::Persisted(Ok(())) => {
                self.pending = 0;
                self.pending_since = None;
                AckStep::Finished(Ok(()))
            },
            AckReply::Persisted(Err(message)) => self.fail(ack, message),
        }
    }

    /// Goes on after a store error.
    fn fail(&self, ack: Ack<C>, message: String) -> (step: AckStep<C>)
        requires
            ack.wf(),
        ensures
            steps(step, failing(ack@, self@, message@)),
    {
        match retry_after(ack.attempt, message.as_str()) {
            Some(millis) => AckStep::Retry {
                ack: self.start_attempt(ack.position, ack.attempt + 1),
                millis,
            },
            None => AckStep::Finished(Err(AckedError::Store(message))),
        }
    }

    /// The cursor which has to be written to the store right now, `None` if nothing is pending.
    pub fn flush(&self) -> (cursor: Option<Cursor<C>>)
        requires
            self.wf(),
        ensures
            cursor is Some <==> self@.pending > 0,
            named(cursor, self.name()@),
            cursor == if self@.pending == 0 {
                None
            } else {
                self@.cursor
            },
    {
        if self.pending == 0 {
            return None;
        }
        self.cursor()
    }

    /// Takes note of what came of writing the pending cursor to the store.
    pub fn flushed(&mut self, written: Result<(), String>) -> (result: Result<(), AckedError>)
        requires
            old(self).wf(),
        ensures
            final(self).wf(),
            final(self).name() == old(self).name(),
            final(self).about() == old(self).about(),
            match written {
                Ok(()) => final(self)@ == settled(old(self)@) && result is Ok,
                Err(message) => {
                    &&& final(self)@ == old(self)@
                    &&& result == Err::<(), AckedError>(AckedError::Store(message))
                },
            },
    {
        match written {
            Ok(()) => {
                self.pending = 0;
                self.pending_since = None;
                Ok(())
            },
            Err(message) => Err(AckedError::Store(message)),
        }
    }
}

/// The log heights of all authors who have any, from what the store knows about each author in turn.
pub open spec fn heights_of<H>(replies: Seq<(VerifyingKey, Option<H>)>) -> Map<VerifyingKey, H>
    decreases replies.len(),
{
    if replies.len() == 0 {
        Map::empty()
    } else {
        let (author, heights) = replies.last();
        match heights {
            Some(heights) => heights_of(replies.drop_last()).insert(author, heights),
            None => heights_of(replies.drop_last()),
        }
    }
}

/// Collects the log heights of all authors. Authors without any logs in the store are left out.
pub fn get_log_heights<H>(replies: VecDeque<(VerifyingKey, Option<H>)>) -> (heights: VecMap<
    VerifyingKey,
    H,
>)
    ensures
        heights.wf(),
        heights@ == heights_of(replies@),
{
    let mut result: VecMap<VerifyingKey, H> = VecMap::new();
    let ghost all = replies@;
    let ghost mut done: int = 0;
    let mut replies = replies;
    assert(all.skip(0) =~= all);
    loop
        invariant
            0 <= done <= all.len(),
            replies@ == all.skip(done),
            result.wf(),
            result@ == heights_of(all.take(done)),
        ensures
            done == all.len(),
        decreases replies@.len(),
    {
        match replies.pop_front() {
            Some((author, heights)) => {
                assert(all.take(done + 1).drop_last() =~= all.take(done));
                assert(all.take(done + 1).last() == (author, heights));
                assert(replies@ =~= all.skip(done + 1));
                if let Some(heights) = heights {
                    result.insert(author, heights);
                }
                proof {
                    done = done + 1;
                }
            },
            None => {
                break;
            },
        }
    }
    assert(all.take(done) =~= all);
    result
}

/// An ack which succeeds leaves less than `ACK_BATCH_MAX_OPS` acks in memory, none of them made
/// `ACK_BATCH_MAX_DELAY_NANOS` or longer ago: the persisted cursor never lags by more than the batch
/// window.
pub proof fn law_batch_is_bounded<C>(
    job: Job<C>,
    reply: AckReply<C>,
    batch: Batch<C>,
    fresh: Cursor<C>,
)
    requires
        next(job, reply, batch, fresh) is Done,
    ensures
        next_batch(reply, batch).pending < ACK_BATCH_MAX_OPS,
        reply matches AckReply::Advanced { now, .. } ==> (next_batch(
            reply,
            batch,
        ).since matches Some(since) && now - since < ACK_BATCH_MAX_DELAY_NANOS),
{
}

/// No ack is lost when the store fails: the advanced cursor stays in memory, and a retried attempt
/// continues from it and not from the persisted one.
pub proof fn law_failed_persist_keeps_cursor<C>(
    job: Job<C>,
    cursor: Cursor<C>,
    now: u64,
    batch: Batch<C>,
    message: String,
    fresh: Cursor<C>,
)
    requires
        job.phase == AckPhase::Advance,
        due(folded(batch, cursor, now), now),
    ensures
        ({
            let advanced = next_batch(AckReply::Advanced { cursor, now }, batch);
            let failed = AckReply::<C>::Persisted(Err(message));
            &&& next_batch(failed, advanced) == advanced
            &&& advanced.cursor == Some(cursor)
            &&& next(job, AckReply::Advanced { cursor, now }, batch, fresh) matches Next::Perform(
                persist,
            )
            &&& next(persist, failed, advanced, fresh) matches Next::Retry(again, _)
                ==> again.phase == AckPhase::Advance && again.cursor == Some(cursor)
        }),
{
}

/// Acks which are pending always have a cursor: whatever is acked, re-played or flushed, there is
/// something to write as long as anything is pending.
pub proof fn law_pending_acks_have_cursor<C, H>(
    batch: Batch<C>,
    ack: AckReply<C>,
    stage: Stage<C, H>,
    replay: ReplayReply<C, H>,
)
    requires
        backed(batch),
    ensures
        backed(next_batch(ack, batch)),
        backed(replay_batch(stage, replay, batch)),
        backed(settled(batch)),
{
}

/// Only the tracked cursor is ever written by an ack: whatever the store replies, the cursor in memory
/// and the one an ack goes on with keep their name, through every retry. So it is a cursor of this
/// name which is advanced, persisted and flushed.
pub proof fn law_ack_writes_own_cursor<C>(
    job: Job<C>,
    reply: AckReply<C>,
    batch: Batch<C>,
    fresh: Cursor<C>,
)
    requires
        named(job.cursor, fresh.name@),
        named(batch.cursor, fresh.name@),
        answers(reply, job.phase, fresh.name@),
    ensures
        named(next_batch(reply, batch).cursor, fresh.name@),
        next(job, reply, batch, fresh) matches Next::Perform(later) ==> named(
            later.cursor,
            fresh.name@,
        ),
        next(job, reply, batch, fresh) matches Next::Retry(later, _) ==> named(
            later.cursor,
            fresh.name@,
        ),
{
}

/// An ack is about one operation: every attempt advances the cursor by the same position.
pub proof fn law_retry_acks_same_operation<C>(
    job: Job<C>,
    reply: AckReply<C>,
    batch: Batch<C>,
    fresh: Cursor<C>,
)
    ensures
        next(job, reply, batch, fresh) matches Next::Perform(later) ==> later.position
            == job.position,
        next(job, reply, batch, fresh) matches Next::Retry(later, _) ==> later.position
            == job.position,
{
}

/// Only the tracked cursor is ever written by a replay: a given cursor of another name is refused,
/// and nothing is written then, neither in memory nor in the store.
pub proof fn law_replay_writes_own_cursor<C, H>(
    stage: Stage<C, H>,
    reply: ReplayReply<C, H>,
    batch: Batch<C>,
    fresh: Cursor<C>,
)
    requires
        writes_only(stage, fresh.name@),
        replies_to(reply, stage),
    ensures
        replay_next(stage, reply, batch, fresh) matches ReplayNext::Perform(next) ==> writes_only(
            next,
            fresh.name@,
        ),
        (reply matches ReplayReply::Resolved(Ok(_)) && stage matches Stage::Resolve(
            StreamFrom::Cursor(cursor),
        ) && cursor.name@ != fresh.name@) ==> replay_next(stage, reply, batch, fresh) is Refused,
        replay_next(stage, reply, batch, fresh) is Refused ==> {
            &&& stage is Resolve
            &&& replay_batch(stage, reply, batch) == batch
        },
        named(batch.cursor, fresh.name@) ==> named(
            replay_batch(stage, reply, batch).cursor,
            fresh.name@,
        ),
{
}

/// A replay which fails leaves the cursor and all pending acks as they were.
pub proof fn law_failed_replay_changes_nothing<C, H>(
    stage: Stage<C, H>,
    reply: ReplayReply<C, H>,
    batch: Batch<C>,
    fresh: Cursor<C>,
)
    requires
        replies_to(reply, stage),
        replay_next(stage, reply, batch, fresh) is Failed,
    ensures
        replay_batch(stage, reply, batch) == batch,
{
}

/// What a replay from the start or from another cursor compares is what it wrote: after it succeeded
/// this cursor is the current one, nothing from before is pending, and a replay from the frontier
/// compares the same cursor again.
pub proof fn law_replay_puts_cursor_in_place<C, H>(
    cursor: Cursor<C>,
    heights: Map<VerifyingKey, H>,
    batch: Batch<C>,
    fresh: Cursor<C>,
    later: Map<VerifyingKey, H>,
)
    ensures
        ({
            let stage = Stage::Write(cursor, heights);
            let reply = ReplayReply::<C, H>::Written(Ok(()));
            let after = replay_batch(stage, reply, batch);
            &&& replay_next(stage, reply, batch, fresh) == ReplayNext::Compare(cursor, heights)
            &&& after == reset(cursor)
            &&& chosen(StreamFrom::Frontier, later, after, fresh) == ReplayNext::Compare(
                cursor,
                later,
            )
        }),
{
}

/// A reset is final: once another cursor was put in place nothing is pending, so no earlier batch
/// can be written over it, and the next ack continues from it.
pub proof fn law_reset_leaves_nothing_pending<C>(cursor: Cursor<C>, position: LogPosition)
    ensures
        reset(cursor).pending == 0,
        starting(reset(cursor), position, 1).phase == AckPhase::Advance,
        starting(reset(cursor), position, 1).cursor == Some(cursor),
{
}

} // verus!
