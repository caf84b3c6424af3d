//! Topic manager.
//!
//! The topic manager holds state for all sync sessions associated with a single topic. It decides
//! when new sync sessions are initiated, which inbound sync sessions are accepted, which sessions
//! get published data and which session is replaced by a fresh one.
//!
//! A separate topic manager exists for each topic of interest. It is driven from outside: sessions
//! are spawned, messages sent and timers started by whoever performs the effects it returns.

use crate::collections::{keys_of, NumberMap, NumberSet, VecMap, VecSet};
use crate::sync::logs::ResolvedLogs;
use crate::types::{LogId, NodeId, Topic, VerifyingKey};
use vstd::prelude::*;

verus! {

/// Milliseconds to wait before a failed session is re-initiated.
pub const RETRY_RATE_MILLIS: u64 = 5000;

/// Identifier of a sync session, unique within a topic manager.
pub type SyncSessionId = u64;

/// Identifier of the actor which runs a sync session.
pub type SessionActorId = u64;

/// Messages to the topic manager.
///
/// `T` is the published data, `C` a network connection and `R` whatever is used to tell the sender
/// that its request was handled.
#[derive(Debug)]
pub enum ToTopicManager<T, C, R> {
    /// Initiate a sync session with this peer over the given topic.
    Initiate { node_id: NodeId, topic: Topic, live_mode: bool },

    /// Accept a sync session on this connection.
    Accept { node_id: NodeId, topic: Topic, live_mode: bool, connection: C },

    /// Retry sync with this peer after a failed session.
    Retry { node_id: NodeId, live_mode: bool },

    /// Send newly published data to all sync sessions running over the given topic.
    Publish(T),

    /// Close all active sync sessions running over the given topic. This essentially shuts down the
    /// whole manager.
    CloseAll(R),

    /// Close all active sync sessions running with the given node id.
    Close { node_id: NodeId, reply: R },

    /// Explicitly resync with this peer, replacing the live sessions which don't know about all
    /// logs of the topic.
    ///
    /// A session is closed, awaited until it actually terminated, then a fresh one is initiated. If
    /// a catch-up is still in progress nothing happens. If there's no live session, this behaves
    /// exactly like `Initiate`.
    Resync { node_id: NodeId, topic: Topic, live_mode: bool },

    /// A new association was made for this topic. Triggers an immediate resync check against every
    /// currently active peer.
    AssociationChanged,
}

/// What a new session is about.
#[derive(Clone, Copy, Debug, PartialEq, Eq, Structural)]
pub struct SessionConfig {
    pub topic: Topic,
    pub remote: NodeId,
    pub live_mode: bool,
}

/// How a new session begins.
#[derive(Debug)]
pub enum SessionRole<C> {
    Initiate,
    Accept(C),
}

/// Why a message led to nothing.
#[derive(Clone, Copy, Debug, PartialEq, Eq, Structural)]
pub enum SkipReason {
    /// Other sync sessions are already running with this node.
    SessionRunning,

    /// The node is no longer in the active set.
    NodeInactive,

    /// A replacement is already in flight for this node.
    ReplacementInFlight,

    /// The initial catch-up of a session is not finished yet.
    CatchUpInProgress,

    /// No session misses any log of the topic.
    LogsUnchanged,
}

/// What has to be done after a message was handled.
#[derive(Debug)]
pub enum Effect<T, C, R> {
    /// Nothing.
    Skip(SkipReason),

    /// Spawn a session actor, register it with `TopicManager::new_session` and start it.
    StartSession { config: SessionConfig, role: SessionRole<C> },

    /// Forward data to these sessions.
    Forward { session_ids: Vec<SyncSessionId>, data: T },

    /// Ask these sessions to close, then reply.
    Close { session_ids: Vec<SyncSessionId>, reply: R },

    /// Resolve the current logs of the topic and continue with `TopicManager::replace_stale`.
    ResolveLogs { node_id: NodeId, topic: Topic, live_mode: bool },

    /// Ask these sessions to close. Their termination starts a fresh one.
    Replace { session_ids: Vec<SyncSessionId> },

    /// Send these messages to the topic manager itself.
    Post { messages: Vec<ToTopicManager<T, C, R>> },
}

/// How an actor ended.
#[derive(Clone, Copy, Debug, PartialEq, Eq, Structural)]
pub enum ActorEnd {
    Terminated,
    Failed,
}

/// What has to be done after an actor ended.
#[derive(Debug)]
pub enum AfterEnd<T, C, R> {
    /// The actor was not running a session.
    NoSession,

    /// Nothing.
    Done,

    /// Ask whether the node may still connect and continue with `TopicManager::resume`.
    Authorise { node_id: NodeId, topic: Topic, live_mode: bool },

    /// A pending replacement was given up: the node is no longer in the active set.
    ResyncDropped,

    /// Sync is not re-initiated: the node is no longer in the active set.
    RetrySkipped,

    /// Send a message to the topic manager itself after a delay.
    PostAfter { millis: u64, message: ToTopicManager<T, C, R> },
}

/// What is reported about a node which asked to connect on a topic.
#[derive(Clone, Copy, Debug, PartialEq, Eq, Structural)]
pub enum ConnectionAuthoriserEvent {
    TopicAllowed { topic: Topic, node: NodeId },
    TopicBlocked { topic: Topic, node: NodeId },
}

/// The state of a topic manager.
#[verifier::ext_equal]
pub struct Sessions {
    /// The topic all sessions are about.
    pub topic: Topic,

    /// Topic of every registered session.
    pub session_topics: Map<SyncSessionId, Topic>,

    /// Remote node of every registered session.
    pub session_nodes: Map<SyncSessionId, NodeId>,

    /// The session which an actor runs.
    pub actors: Map<SessionActorId, SyncSessionId>,

    /// Nodes we want to sync with.
    pub active: Set<NodeId>,

    /// Identifier of the next session.
    pub next_session_id: SyncSessionId,

    /// Sessions which finished their initial catch-up.
    pub caught_up: Set<SyncSessionId>,

    /// The logs a session resolved when it started.
    pub baselines: Map<SyncSessionId, Map<VerifyingKey, Seq<LogId>>>,

    /// Nodes with a replacement in flight, and whether the fresh session uses live-mode.
    pub pending: Map<NodeId, bool>,

    /// The sessions whose termination a replacement waits for.
    pub waiting: Set<SyncSessionId>,
}

/// The sessions which run with a node.
pub open spec fn sessions_with(s: Sessions, node_id: NodeId) -> Set<SyncSessionId> {
    keys_of(s.session_nodes, node_id)
}

/// Whether no session runs with a node.
pub open spec fn idle(s: Sessions, node_id: NodeId) -> bool {
    forall|id: SyncSessionId| !#[trigger] sessions_with(s, node_id).contains(id)
}

/// The sessions which run over the manager's topic.
pub open spec fn topic_sessions(s: Sessions) -> Set<SyncSessionId> {
    keys_of(s.session_topics, s.topic)
}

/// Whether some session with a node hasn't finished its initial catch-up.
pub open spec fn catching_up(s: Sessions, node_id: NodeId) -> bool {
    exists|id: SyncSessionId| #[trigger]
        sessions_with(s, node_id).contains(id) && !s.caught_up.contains(id)
}

/// The sessions with a node which resolved other logs than `fresh`.
///
/// A session which has not resolved its baseline yet is not stale.
pub open spec fn stale_sessions(
    s: Sessions,
    node_id: NodeId,
    fresh: Map<VerifyingKey, Seq<LogId>>,
) -> Set<SyncSessionId> {
    sessions_with(s, node_id).filter(
        |id: SyncSessionId| s.baselines.contains_key(id) && s.baselines[id] != fresh,
    )
}

/// Whether a replacement for the node still waits for some session.
pub open spec fn awaits(s: Sessions, node_id: NodeId) -> bool {
    exists|id: SyncSessionId| #[trigger]
        s.waiting.contains(id) && sessions_with(s, node_id).contains(id)
}

/// The invariant of a topic manager.
pub open spec fn consistent(s: Sessions) -> bool {
    // A session has a topic exactly when it has a node.
    &&& s.session_topics.dom() == s.session_nodes.dom()
    // Session ids were handed out before.
    &&& forall|id: SyncSessionId| #[trigger]
        s.session_nodes.contains_key(id) ==> id < s.next_session_id
    // Actors run registered sessions, each its own.
    &&& forall|actor: SessionActorId| #[trigger]
        s.actors.contains_key(actor) ==> s.session_nodes.contains_key(s.actors[actor])
    &&& forall|left: SessionActorId, right: SessionActorId|
        s.actors.contains_key(left) && s.actors.contains_key(right) && left != right
            ==> #[trigger] s.actors[left] != #[trigger] s.actors[right]
    // A session is only awaited on behalf of its node's replacement.
    &&& forall|id: SyncSessionId| #[trigger]
        s.waiting.contains(id) ==> s.session_nodes.contains_key(id) && s.pending.contains_key(
            s.session_nodes[id],
        )
    // A replacement in flight waits for something.
    &&& forall|node_id: NodeId| #[trigger] s.pending.contains_key(node_id) ==> awaits(s, node_id)
}

/// The state after a session was registered.
pub open spec fn registered(
    s: Sessions,
    actor_id: SessionActorId,
    node_id: NodeId,
    topic: Topic,
) -> Sessions {
    Sessions {
        session_topics: s.session_topics.insert(s.next_session_id, topic),
        session_nodes: s.session_nodes.insert(s.next_session_id, node_id),
        actors: s.actors.insert(actor_id, s.next_session_id),
        next_session_id: (s.next_session_id + 1) as u64,
        ..s
    }
}

/// The state after a node joined the active set.
pub open spec fn activated(s: Sessions, node_id: NodeId) -> Sessions {
    Sessions { active: s.active.insert(node_id), ..s }
}

/// The state after all sessions were asked to close.
pub open spec fn all_closed(s: Sessions) -> Sessions {
    Sessions { active: Set::empty(), pending: Map::empty(), waiting: Set::empty(), ..s }
}

/// The state after all sessions with a node were asked to close.
pub open spec fn node_closed(s: Sessions, node_id: NodeId) -> Sessions {
    Sessions {
        active: s.active.remove(node_id),
        pending: s.pending.remove(node_id),
        waiting: s.waiting.difference(sessions_with(s, node_id)),
        ..s
    }
}

/// The state after the stale sessions with a node were asked to close for a replacement.
pub open spec fn replacing(
    s: Sessions,
    node_id: NodeId,
    live_mode: bool,
    stale: Set<SyncSessionId>,
) -> Sessions {
    Sessions {
        pending: s.pending.insert(node_id, live_mode),
        waiting: s.waiting.difference(sessions_with(s, node_id)).union(stale),
        ..s
    }
}

/// The state after an actor and the session it was running are gone.
pub open spec fn session_dropped(s: Sessions, actor_id: SessionActorId) -> Sessions {
    let id = s.actors[actor_id];
    Sessions {
        session_topics: s.session_topics.remove(id),
        session_nodes: s.session_nodes.remove(id),
        actors: s.actors.remove(actor_id),
        caught_up: s.caught_up.remove(id),
        baselines: s.baselines.remove(id),
        waiting: s.waiting.remove(id),
        ..s
    }
}

/// Whether the replacement for `node_id` is complete now that the session of `actor_id` is gone.
pub open spec fn replacement_complete(s: Sessions, actor_id: SessionActorId) -> bool {
    let node_id = s.session_nodes[s.actors[actor_id]];
    s.pending.contains_key(node_id) && !awaits(session_dropped(s, actor_id), node_id)
}

/// The session of an actor is only awaited on behalf of its node's replacement.
proof fn lemma_awaited_for_replacement(s: Sessions, actor_id: SessionActorId)
    requires
        consistent(s),
        s.actors.contains_key(actor_id),
        !s.pending.contains_key(s.session_nodes[s.actors[actor_id]]),
    ensures
        s.waiting.remove(s.actors[actor_id]) == s.waiting,
{
    assert(!s.waiting.contains(s.actors[actor_id]));
    assert(s.waiting.remove(s.actors[actor_id]) =~= s.waiting);
}

/// The state after an actor ended.
pub open spec fn ended(s: Sessions, actor_id: SessionActorId) -> Sessions {
    if !s.actors.contains_key(actor_id) {
        s
    } else if replacement_complete(s, actor_id) {
        let node_id = s.session_nodes[s.actors[actor_id]];
        Sessions { pending: s.pending.remove(node_id), ..session_dropped(s, actor_id) }
    } else {
        session_dropped(s, actor_id)
    }
}

/// What follows the end of an actor.
pub open spec fn after_end<T, C, R>(
    s: Sessions,
    actor_id: SessionActorId,
    end: ActorEnd,
) -> AfterEnd<T, C, R> {
    let node_id = s.session_nodes[s.actors[actor_id]];
    if !s.actors.contains_key(actor_id) {
        AfterEnd::NoSession
    } else if replacement_complete(s, actor_id) {
        if s.active.contains(node_id) {
            AfterEnd::Authorise { node_id, topic: s.topic, live_mode: s.pending[node_id] }
        } else {
            AfterEnd::ResyncDropped
        }
    } else if end == ActorEnd::Terminated {
        AfterEnd::Done
    } else if s.active.contains(node_id) {
        // Live-mode is the default for retries.
        AfterEnd::PostAfter {
            millis: RETRY_RATE_MILLIS,
            message: ToTopicManager::Retry { node_id, live_mode: true },
        }
    } else {
        AfterEnd::RetrySkipped
    }
}

/// Whether `messages` ask for a resync with every active node, once each.
pub open spec fn resyncs_all<T, C, R>(
    messages: Seq<ToTopicManager<T, C, R>>,
    active: Set<NodeId>,
    topic: Topic,
) -> bool {
    &&& messages.no_duplicates()
    &&& forall|message: ToTopicManager<T, C, R>| #[trigger]
        messages.contains(message) <==> {
            &&& message matches ToTopicManager::Resync { node_id, topic: over, live_mode }
            &&& active.contains(node_id)
            &&& over == topic
            &&& live_mode
        }
}

/// Whether `ids` list a set of sessions, each of them once.
pub open spec fn lists(ids: Seq<SyncSessionId>, sessions: Set<SyncSessionId>) -> bool {
    ids.no_duplicates() && ids.to_set() == sessions
}

/// What follows a message, `s` being the state before it.
pub open spec fn handled<T, C, R>(
    s: Sessions,
    message: ToTopicManager<T, C, R>,
    after: Sessions,
    effect: Effect<T, C, R>,
) -> bool {
    match message {
        ToTopicManager::Initiate { node_id, topic, live_mode } => {
            &&& after == activated(s, node_id)
            &&& effect == if idle(s, node_id) {
                Effect::<T, C, R>::StartSession {
                    config: SessionConfig { topic, remote: node_id, live_mode },
                    role: SessionRole::Initiate,
                }
            } else {
                Effect::Skip(SkipReason::SessionRunning)
            }
        },
        ToTopicManager::Retry { node_id, live_mode } => {
            &&& after == s
            &&& effect == if !s.active.contains(node_id) {
                Effect::<T, C, R>::Skip(SkipReason::NodeInactive)
            } else if !idle(s, node_id) {
                Effect::Skip(SkipReason::SessionRunning)
            } else {
                Effect::StartSession {
                    config: SessionConfig { topic: s.topic, remote: node_id, live_mode },
                    role: SessionRole::Initiate,
                }
            }
        },
        ToTopicManager::Accept { node_id, topic, live_mode, connection } => {
            &&& after == s
            &&& effect == Effect::<T, C, R>::StartSession {
                config: SessionConfig { topic, remote: node_id, live_mode },
                role: SessionRole::Accept(connection),
            }
        },
        ToTopicManager::Publish(data) => {
            &&& after == s
            &&& effect matches Effect::Forward { session_ids, data: forwarded }
            &&& lists(session_ids@, topic_sessions(s))
            &&& forwarded == data
        },
        ToTopicManager::CloseAll(reply) => {
            &&& after == all_closed(s)
            &&& effect matches Effect::Close { session_ids, reply: answered }
            &&& lists(session_ids@, topic_sessions(s))
            &&& answered == reply
        },
        ToTopicManager::Close { node_id, reply } => {
            &&& after == node_closed(s, node_id)
            &&& effect matches Effect::Close { session_ids, reply: answered }
            &&& lists(session_ids@, topic_sessions(s).intersect(sessions_with(s, node_id)))
            &&& answered == reply
        },
        ToTopicManager::Resync { node_id, topic, live_mode } => {
            &&& after == s
            &&& if s.pending.contains_key(node_id) {
                effect == Effect::<T, C, R>::Skip(SkipReason::ReplacementInFlight)
            } else if idle(s, node_id) {
                &&& effect matches Effect::Post { messages }
                &&& messages@ == seq![ToTopicManager::<T, C, R>::Initiate {
                    node_id,
                    topic,
                    live_mode,
                }]
            } else if catching_up(s, node_id) {
                effect == Effect::<T, C, R>::Skip(SkipReason::CatchUpInProgress)
            } else {
                effect == Effect::<T, C, R>::ResolveLogs { node_id, topic, live_mode }
            }
        },
        ToTopicManager::AssociationChanged => {
            &&& after == s
            &&& effect matches Effect::Post { messages }
            &&& resyncs_all(messages@, s.active, s.topic)
        },
    }
}

/// The sessions of a topic and everything known about them.
#[derive(Debug)]
pub struct TopicManagerState {
    topic: Topic,
    session_topics: NumberMap<Topic>,
    session_nodes: NumberMap<NodeId>,
    actors: NumberMap<SyncSessionId>,
    active_sync_set: VecSet<NodeId>,
    next_session_id: SyncSessionId,

    /// Sessions whose initial catch-up has finished. Missing is the safe default: a session which
    /// wasn't seen to finish counts as still catching up.
    session_catch_up: NumberSet,

    /// Resolved-log baseline of every session which reported one.
    session_logs: NumberMap<ResolvedLogs>,

    /// Nodes whose live sessions are currently being closed for a replacement, with the live-mode
    /// of the fresh session.
    pending_resync: VecMap<NodeId, bool>,

    /// Sessions we're still waiting to see terminate. A peer can legitimately have more than one
    /// session, the replacement waits for every stale one of them.
    closing: NumberSet,
}

impl TopicManagerState {
    pub closed spec fn view(&self) -> Sessions {
        Sessions {
            topic: self.topic,
            session_topics: self.session_topics@,
            session_nodes: self.session_nodes@,
            actors: self.actors@,
            active: self.active_sync_set@,
            next_session_id: self.next_session_id,
            caught_up: self.session_catch_up@,
            baselines: self.session_logs@.map_values(|logs: ResolvedLogs| logs@),
            pending: self.pending_resync@,
            waiting: self.closing@,
        }
    }

    pub closed spec fn wf(&self) -> bool {
        &&& self.active_sync_set.wf()
        &&& forall|id: SyncSessionId| #[trigger]
            self.session_logs@.contains_key(id) ==> self.session_logs@[id].wf()
        &&& self.pending_resync.wf()
        &&& consistent(self@)
    }

    /// The state of a well-formed topic manager is consistent.
    pub proof fn law_manager_invariant(&self)
        requires
            self.wf(),
        ensures
            consistent(self@),
    {
    }

    /// Starts without any sessions.
    pub fn new(topic: Topic) -> (state: Self)
        ensures
            state.wf(),
            state@ == (Sessions {
                topic,
                session_topics: Map::empty(),
                session_nodes: Map::empty(),
                actors: Map::empty(),
                active: Set::empty(),
                next_session_id: 0,
                caught_up: Set::empty(),
                baselines: Map::empty(),
                pending: Map::empty(),
                waiting: Set::empty(),
            }),
    {
        let state = TopicManagerState {
            topic,
            session_topics: NumberMap::new(),
            session_nodes: NumberMap::new(),
            actors: NumberMap::new(),
            active_sync_set: VecSet::new(),
            next_session_id: 0,
            session_catch_up: NumberSet::new(),
            session_logs: NumberMap::new(),
            pending_resync: VecMap::new(),
            closing: NumberSet::new(),
        };
        assert(state@.baselines =~= Map::empty());
        assert(state@.session_topics.dom() =~= state@.session_nodes.dom());
        state
    }

    /// Identifier of the next session.
    pub fn next_session_id(&self) -> (id: SyncSessionId)
        ensures
            id == self@.next_session_id,
    {
        self.next_session_id
    }

    /// Takes note of an event which a session reported: whether it finished the initial catch-up,
    /// and the logs it resolved.
    pub fn record_event(
        &mut self,
        session_id: SyncSessionId,
        catch_up_finished: bool,
        resolved_logs: Option<ResolvedLogs>,
    )
        requires
            old(self).wf(),
            resolved_logs matches Some(logs) ==> logs.wf(),
        ensures
            final(self).wf(),
            final(self)@ == (Sessions {
                caught_up: if catch_up_finished {
                    old(self)@.caught_up.insert(session_id)
                } else {
                    old(self)@.caught_up
                },
                baselines: match resolved_logs {
                    Some(logs) => old(self)@.baselines.insert(session_id, logs@),
                    None => old(self)@.baselines,
                },
                ..old(self)@
            }),
    {
        if catch_up_finished {
            self.session_catch_up.insert(session_id);
        }
        if let Some(logs) = resolved_logs {
            self.session_logs.insert(session_id, logs);
            assert(self@.baselines =~= old(self)@.baselines.insert(session_id, logs@));
        }
        assert(self@.session_nodes == old(self)@.session_nodes);
        proof {
            lemma_consistent_kept(old(self)@, self@);
        }
    }

    /// Whether sessions run with a node.
    fn has_sessions(&self, node_id: NodeId) -> (running: bool)
        requires
            self.wf(),
        ensures
            running == !idle(self@, node_id),
    {
        let sessions = self.session_nodes.keys_with(&node_id);
        if sessions.len() > 0 {
            assert(sessions@.to_set().contains(sessions@[0]));
            assert(sessions_with(self@, node_id).contains(sessions@[0]));
            true
        } else {
            assert forall|id: SyncSessionId| !#[trigger] sessions_with(self@, node_id).contains(
                id,
            ) by {
                assert(!sessions@.to_set().contains(id));
            }
            false
        }
    }

    /// Whether some session with a node hasn't finished its initial catch-up.
    fn catch_up_in_progress(&self, node_id: NodeId) -> (in_progress: bool)
        requires
            self.wf(),
        ensures
            in_progress == catching_up(self@, node_id),
    {
        let sessions = self.session_nodes.keys_with(&node_id);
        let mut index: usize = 0;
        while index < sessions.len()
            invariant
                self.wf(),
                index <= sessions@.len(),
                sessions@.to_set() == sessions_with(self@, node_id),
                forall|i: int| 0 <= i < index ==> self@.caught_up.contains(#[trigger] sessions@[i]),
            decreases sessions@.len() - index,
        {
            let id: SyncSessionId = sessions[index];
            if !self.session_catch_up.contains(id) {
                assert(sessions@.to_set().contains(id));
                assert(sessions_with(self@, node_id).contains(id));
                return true;
            }
            index = index + 1;
        }
        assert forall|id: SyncSessionId| #[trigger]
            sessions_with(self@, node_id).contains(id) implies self@.caught_up.contains(id) by {
            assert(sessions@.to_set().contains(id));
            let i = choose|i: int| 0 <= i < sessions@.len() && sessions@[i] == id;
            assert(self@.caught_up.contains(sessions@[i]));
        }
        false
    }

    /// Stops waiting for the sessions with a node.
    fn stop_waiting(&mut self, node_id: NodeId)
        requires
        ensures
            final(self).closing@ == old(self).closing@.difference(
                sessions_with(old(self)@, node_id),
            ),
            *final(self) == (TopicManagerState { closing: final(self).closing, ..*old(self) }),
    {
        let sessions = self.session_nodes.keys_with(&node_id);
        let mut index: usize = 0;
        while index < sessions.len()
            invariant
                index <= sessions@.len(),
                *self == (TopicManagerState { closing: self.closing, ..*old(self) }),
                forall|id: SyncSessionId| #[trigger]
                    self.closing@.contains(id) <==> old(self).closing@.contains(id)
                        && !sessions@.take(index as int).contains(id),
            decreases sessions@.len() - index,
        {
            let ghost before = self.closing@;
            self.closing.remove(sessions[index]);
            assert forall|id: SyncSessionId| #[trigger]
                self.closing@.contains(id) <==> old(self).closing@.contains(id)
                    && !sessions@.take(index + 1).contains(id) by {
                assert(sessions@.take(index + 1) =~= sessions@.take(index as int).push(
                    sessions@[index as int],
                ));
                assert(before.contains(id) <==> old(self).closing@.contains(id)
                    && !sessions@.take(index as int).contains(id));
                lemma_push_contains(sessions@.take(index as int), sessions@[index as int], id);
            }
            index = index + 1;
        }
        assert(sessions@.take(index as int) =~= sessions@);
        assert forall|id: SyncSessionId|
            sessions@.contains(id) <==> #[trigger] sessions_with(old(self)@, node_id).contains(
                id,
            ) by {
            assert(sessions@.to_set().contains(id) <==> sessions@.contains(id));
        }
        assert(self.closing@ =~= old(self).closing@.difference(sessions_with(old(self)@, node_id)));
    }
}

proof fn lemma_push_contains<A>(s: Seq<A>, last: A, value: A)
    ensures
        s.push(last).contains(value) <==> s.contains(value) || value == last,
{
    if s.contains(value) {
        let i = choose|i: int| 0 <= i < s.len() && s[i] == value;
        assert(s.push(last)[i] == value);
    }
    if value == last {
        assert(s.push(last)[s.len() as int] == value);
    }
}

proof fn lemma_push_distinct<A>(s: Seq<A>, last: A)
    requires
        s.no_duplicates(),
        !s.contains(last),
    ensures
        s.push(last).no_duplicates(),
{
}

/// What sessions report about themselves and who is active plays no role for consistency.
proof fn lemma_consistent_kept(before: Sessions, after: Sessions)
    requires
        consistent(before),
        after == (Sessions {
            active: after.active,
            caught_up: after.caught_up,
            baselines: after.baselines,
            ..before
        }),
    ensures
        consistent(after),
{
    assert forall|node_id: NodeId| #[trigger] after.pending.contains_key(node_id) implies awaits(
        after,
        node_id,
    ) by {
        assert(awaits(before, node_id));
        let id = choose|id: SyncSessionId| #[trigger]
            before.waiting.contains(id) && sessions_with(before, node_id).contains(id);
        assert(after.waiting.contains(id) && sessions_with(after, node_id).contains(id));
    }
}

/// Decides what happens to the sync sessions of a topic.
#[derive(Clone, Copy, Debug)]
pub struct TopicManager;

impl Default for TopicManager {
    fn default() -> (manager: Self)
        ensures
            manager == TopicManager,
    {
        TopicManager
    }
}

impl TopicManager {
    /// Handles a message.
    pub fn handle<T, C, R>(
        state: &mut TopicManagerState,
        message: ToTopicManager<T, C, R>,
    ) -> (effect: Effect<T, C, R>)
        requires
            old(state).wf(),
        ensures
            final(state).wf(),
            handled(old(state)@, message, final(state)@, effect),
    {
        match message {
            ToTopicManager::Initiate { node_id, topic, live_mode } => {
                state.active_sync_set.insert(node_id);
                assert(state@ =~= activated(old(state)@, node_id));
                proof {
                    lemma_consistent_kept(old(state)@, state@);
                    assert(sessions_with(state@, node_id) == sessions_with(old(state)@, node_id));
                    assert(idle(state@, node_id) == idle(old(state)@, node_id));
                }
                // Don't start a second concurrent session for a peer which already has one: every
                // session delivers different logs, without any ordering between them.
                if state.has_sessions(node_id) {
                    return Effect::Skip(SkipReason::SessionRunning);
                }
                Effect::StartSession {
                    config: SessionConfig { topic, remote: node_id, live_mode },
                    role: SessionRole::Initiate,
                }
            },
            ToTopicManager::Retry { node_id, live_mode } => {
                // If this node was removed from the active sync set we skip retrying.
                if !state.active_sync_set.contains(&node_id) {
                    return Effect::Skip(SkipReason::NodeInactive);
                }
                // If there's another session running then we don't need to re-initiate sync.
                if state.has_sessions(node_id) {
                    return Effect::Skip(SkipReason::SessionRunning);
                }
                Effect::StartSession {
                    config: SessionConfig { topic: state.topic, remote: node_id, live_mode },
                    role: SessionRole::Initiate,
                }
            },
            ToTopicManager::Accept { node_id, topic, live_mode, connection } => {
                Effect::StartSession {
                    config: SessionConfig { topic, remote: node_id, live_mode },
                    role: SessionRole::Accept(connection),
                }
            },
            ToTopicManager::Publish(data) => {
                Effect::Forward { session_ids: state.session_topics.keys_with(&state.topic), data }
            },
            ToTopicManager::CloseAll(reply) => {
                let session_ids = state.session_topics.keys_with(&state.topic);
                state.active_sync_set.clear();
                // A pending replacement must not resurrect a session once every session is being
                // torn down.
                state.pending_resync.clear();
                state.closing.clear();
                assert(state@ =~= all_closed(old(state)@));
                Effect::Close { session_ids, reply }
            },
            ToTopicManager::Close { node_id, reply } => {
                Self::close(state, node_id, reply)
            },
            ToTopicManager::Resync { node_id, topic, live_mode } => {
                if state.pending_resync.contains_key(&node_id) {
                    return Effect::Skip(SkipReason::ReplacementInFlight);
                }
                if !state.has_sessions(node_id) {
                    let mut messages: Vec<ToTopicManager<T, C, R>> = Vec::new();
                    messages.push(ToTopicManager::Initiate { node_id, topic, live_mode });
                    return Effect::Post { messages };
                }
                if state.catch_up_in_progress(node_id) {
                    return Effect::Skip(SkipReason::CatchUpInProgress);
                }
                Effect::ResolveLogs { node_id, topic, live_mode }
            },
            ToTopicManager::AssociationChanged => {
                Effect::Post { messages: Self::resync_all(state) }
            },
        }
    }

    /// Asks for a resync with every active node.
    fn resync_all<T, C, R>(state: &TopicManagerState) -> (messages: Vec<ToTopicManager<T, C, R>>)
        requires
            state.wf(),
        ensures
            resyncs_all(messages@, state@.active, state@.topic),
    {
        let nodes = state.active_sync_set.to_vec();
        let mut messages: Vec<ToTopicManager<T, C, R>> = Vec::new();
        let mut index: usize = 0;
        while index < nodes.len()
            invariant
                index <= nodes@.len(),
                messages@.len() == index,
                forall|i: int|
                    0 <= i < index ==> #[trigger] messages@[i] == (ToTopicManager::<
                        T,
                        C,
                        R,
                    >::Resync { node_id: nodes@[i], topic: state@.topic, live_mode: true }),
            decreases nodes@.len() - index,
        {
            messages.push(
                ToTopicManager::Resync {
                    node_id: nodes[index],
                    topic: state.topic,
                    live_mode: true,
                },
            );
            index = index + 1;
        }
        assert forall|i: int, j: int| 0 <= i < messages@.len() && 0 <= j < messages@.len() && i
            != j implies messages@[i] != messages@[j] by {
            assert(nodes@[i] != nodes@[j]);
            assert(messages@[i] is Resync && messages@[i]->Resync_node_id == nodes@[i]);
            assert(messages@[j] is Resync && messages@[j]->Resync_node_id == nodes@[j]);
        }
        assert forall|message: ToTopicManager<T, C, R>| #[trigger]
            messages@.contains(message) <==> {
                &&& message matches ToTopicManager::Resync { node_id, topic: over, live_mode }
                &&& state@.active.contains(node_id)
                &&& over == state@.topic
                &&& live_mode
            } by {
            if messages@.contains(message) {
                let i = choose|i: int| 0 <= i < messages@.len() && messages@[i] == message;
                assert(nodes@.to_set().contains(nodes@[i]));
            }
            if let ToTopicManager::Resync { node_id, topic: over, live_mode } = message {
                if state@.active.contains(node_id) && over == state@.topic && live_mode {
                    assert(nodes@.to_set().contains(node_id));
                    let i = choose|i: int| 0 <= i < nodes@.len() && nodes@[i] == node_id;
                    assert(messages@[i] == message);
                }
            }
        }
        messages
    }

    /// Closes all sessions with a node.
    fn close<T, C, R>(state: &mut TopicManagerState, node_id: NodeId, reply: R) -> (effect: Effect<
        T,
        C,
        R,
    >)
        requires
            old(state).wf(),
        ensures
            final(state).wf(),
            handled(
                old(state)@,
                ToTopicManager::<T, C, R>::Close { node_id, reply },
                final(state)@,
                effect,
            ),
    {
        let ghost s = state@;
        state.active_sync_set.remove(&node_id);
        // A replacement which is pending for this node must not resurrect a session once its old
        // one actually terminates.
        state.pending_resync.remove(&node_id);
        state.stop_waiting(node_id);
        assert(state@ =~= node_closed(s, node_id));
        proof {
            lemma_node_closed_consistent(s, node_id);
        }

        let sessions = state.session_nodes.keys_with(&node_id);
        let mut session_ids: Vec<SyncSessionId> = Vec::new();
        let mut index: usize = 0;
        let ghost wanted = topic_sessions(s).intersect(sessions_with(s, node_id));
        while index < sessions.len()
            invariant
                index <= sessions@.len(),
                state.wf(),
                state@ == node_closed(s, node_id),
                sessions@.no_duplicates(),
                sessions@.to_set() == sessions_with(s, node_id),
                session_ids@.no_duplicates(),
                wanted == topic_sessions(s).intersect(sessions_with(s, node_id)),
                forall|id: SyncSessionId| #[trigger]
                    session_ids@.contains(id) <==> sessions@.take(index as int).contains(id)
                        && topic_sessions(s).contains(id),
            decreases sessions@.len() - index,
        {
            let id: SyncSessionId = sessions[index];
            let ghost taken = sessions@.take(index as int);
            let ghost before = session_ids@;
            assert(sessions@.take(index + 1) =~= taken.push(id));
            assert(!taken.contains(id)) by {
                if taken.contains(id) {
                    let i = choose|i: int| 0 <= i < taken.len() && taken[i] == id;
                    assert(sessions@[i] == sessions@[index as int]);
                }
            }
            if let Some(topic) = state.session_topics.get(id) {
                if *topic == state.topic {
                    session_ids.push(id);
                    assert(!before.contains(id));
                    proof {
                        lemma_push_distinct(before, id);
                    }
                }
            }
            assert forall|other: SyncSessionId| #[trigger]
                session_ids@.contains(other) <==> sessions@.take(index + 1).contains(other)
                    && topic_sessions(s).contains(other) by {
                lemma_push_contains(taken, id, other);
                lemma_push_contains(before, id, other);
                assert(before.contains(other) <==> taken.contains(other)
                    && topic_sessions(s).contains(other));
            }
            index = index + 1;
        }
        assert(sessions@.take(index as int) =~= sessions@);
        assert forall|id: SyncSessionId| session_ids@.to_set().contains(id) <==> wanted.contains(
            id,
        ) by {
            assert(session_ids@.to_set().contains(id) <==> session_ids@.contains(id));
            assert(sessions@.to_set().contains(id) <==> sessions@.contains(id));
        }
        assert(session_ids@.to_set() =~= wanted);
        Effect::Close { session_ids, reply }
    }

    /// Replaces the sessions with a node which don't know about all current logs of the topic,
    /// `fresh` being those logs.
    ///
    /// Continues a `Resync` which asked to resolve the logs.
    pub fn replace_stale<T, C, R>(
        state: &mut TopicManagerState,
        node_id: NodeId,
        live_mode: bool,
        fresh: &ResolvedLogs,
    ) -> (effect: Effect<T, C, R>)
        requires
            old(state).wf(),
            fresh.wf(),
        ensures
            final(state).wf(),
            ({
                let stale = stale_sessions(old(state)@, node_id, fresh@);
                if stale == Set::<SyncSessionId>::empty() {
                    &&& final(state)@ == old(state)@
                    &&& effect == Effect::<T, C, R>::Skip(SkipReason::LogsUnchanged)
                } else {
                    &&& final(state)@ == replacing(old(state)@, node_id, live_mode, stale)
                    &&& effect matches Effect::Replace { session_ids }
                    &&& lists(session_ids@, stale)
                }
            }),
    {
        let ghost s = state@;
        let ghost stale = stale_sessions(s, node_id, fresh@);
        let session_ids = Self::find_stale(state, node_id, fresh);
        if session_ids.len() == 0 {
            assert(stale =~= Set::<SyncSessionId>::empty()) by {
                assert forall|id: SyncSessionId| !stale.contains(id) by {
                    assert(!session_ids@.to_set().contains(id));
                }
            }
            return Effect::Skip(SkipReason::LogsUnchanged);
        }
        assert(session_ids@.to_set().contains(session_ids@[0]));
        state.pending_resync.insert(node_id, live_mode);
        state.stop_waiting(node_id);
        let ghost stopped = state.closing@;
        let mut index: usize = 0;
        while index < session_ids.len()
            invariant
                index <= session_ids@.len(),
                state.active_sync_set.wf(),
                forall|id: SyncSessionId| #[trigger]
                    state.session_logs@.contains_key(id) ==> state.session_logs@[id].wf(),
                state.pending_resync.wf(),
                state@ == (Sessions {
                    pending: s.pending.insert(node_id, live_mode),
                    waiting: state@.waiting,
                    ..s
                }),
                forall|id: SyncSessionId| #[trigger]
                    state.closing@.contains(id) <==> stopped.contains(id) || session_ids@.take(
                        index as int,
                    ).contains(id),
            decreases session_ids@.len() - index,
        {
            let id: SyncSessionId = session_ids[index];
            let ghost before = state.closing@;
            state.closing.insert(id);
            assert forall|other: SyncSessionId| #[trigger]
                state.closing@.contains(other) <==> stopped.contains(other) || session_ids@.take(
                    index + 1,
                ).contains(other) by {
                assert(session_ids@.take(index + 1) =~= session_ids@.take(index as int).push(id));
                lemma_push_contains(session_ids@.take(index as int), id, other);
                assert(before.contains(other) <==> stopped.contains(other) || session_ids@.take(
                    index as int,
                ).contains(other));
            }
            index = index + 1;
        }
        assert(session_ids@.take(index as int) =~= session_ids@);
        assert(state.closing@ =~= stopped.union(stale)) by {
            assert forall|id: SyncSessionId| stale.contains(id) <==> session_ids@.contains(id) by {
                assert(session_ids@.to_set().contains(id) <==> session_ids@.contains(id));
            }
        }
        assert(state@ =~= replacing(s, node_id, live_mode, stale));
        proof {
            lemma_replacing_consistent(s, node_id, live_mode, stale, session_ids@[0]);
        }
        Effect::Replace { session_ids }
    }

    /// The sessions with a node which resolved other logs than `fresh`.
    fn find_stale(state: &TopicManagerState, node_id: NodeId, fresh: &ResolvedLogs) -> (stale: Vec<
        SyncSessionId,
    >)
        requires
            state.wf(),
            fresh.wf(),
        ensures
            lists(stale@, stale_sessions(state@, node_id, fresh@)),
    {
        let sessions = state.session_nodes.keys_with(&node_id);
        let mut stale: Vec<SyncSessionId> = Vec::new();
        let mut index: usize = 0;
        let ghost wanted = stale_sessions(state@, node_id, fresh@);
        while index < sessions.len()
            invariant
                index <= sessions@.len(),
                state.wf(),
                fresh.wf(),
                sessions@.no_duplicates(),
                sessions@.to_set() == sessions_with(state@, node_id),
                stale@.no_duplicates(),
                wanted == stale_sessions(state@, node_id, fresh@),
                forall|id: SyncSessionId| #[trigger]
                    stale@.contains(id) <==> sessions@.take(index as int).contains(id)
                        && wanted.contains(id),
            decreases sessions@.len() - index,
        {
            let id: SyncSessionId = sessions[index];
            let ghost taken = sessions@.take(index as int);
            let ghost before = stale@;
            assert(sessions@.take(index + 1) =~= taken.push(id));
            assert(sessions@.to_set().contains(id));
            assert(!taken.contains(id)) by {
                if taken.contains(id) {
                    let i = choose|i: int| 0 <= i < taken.len() && taken[i] == id;
                    assert(sessions@[i] == sessions@[index as int]);
                }
            }
            if let Some(baseline) = state.session_logs.get(id) {
                assert(state@.baselines[id] == baseline@);
                if !baseline.same(fresh) {
                    stale.push(id);
                    assert(!before.contains(id));
                    proof {
                        lemma_push_distinct(before, id);
                    }
                }
            }
            assert forall|other: SyncSessionId| #[trigger]
                stale@.contains(other) <==> sessions@.take(index + 1).contains(other)
                    && wanted.contains(other) by {
                lemma_push_contains(taken, id, other);
                lemma_push_contains(before, id, other);
                assert(before.contains(other) <==> taken.contains(other) && wanted.contains(other));
            }
            index = index + 1;
        }
        assert(sessions@.take(index as int) =~= sessions@);
        assert forall|id: SyncSessionId| stale@.to_set().contains(id) <==> wanted.contains(id) by {
            assert(stale@.to_set().contains(id) <==> stale@.contains(id));
            assert(sessions@.to_set().contains(id) <==> sessions@.contains(id));
        }
        assert(stale@.to_set() =~= wanted);
        stale
    }

    /// Registers a session which `actor_id` runs with a node, and returns its identifier.
    pub fn new_session(
        state: &mut TopicManagerState,
        actor_id: SessionActorId,
        node_id: NodeId,
        topic: Topic,
    ) -> (session_id: SyncSessionId)
        requires
            old(state).wf(),
            old(state)@.next_session_id < u64::MAX,
        ensures
            final(state).wf(),
            session_id == old(state)@.next_session_id,
            final(state)@ == registered(old(state)@, actor_id, node_id, topic),
    {
        let ghost s = state@;
        let session_id: SyncSessionId = state.next_session_id;
        state.next_session_id = session_id + 1;
        state.session_topics.insert(session_id, topic);
        state.session_nodes.insert(session_id, node_id);
        state.actors.insert(actor_id, session_id);
        assert(state@ =~= registered(s, actor_id, node_id, topic));
        proof {
            lemma_registered_consistent(s, actor_id, node_id, topic);
        }
        session_id
    }

    /// Handles the end of an actor.
    pub fn handle_supervisor_evt<T, C, R>(
        state: &mut TopicManagerState,
        actor_id: SessionActorId,
        end: ActorEnd,
    ) -> (after: AfterEnd<T, C, R>)
        requires
            old(state).wf(),
        ensures
            final(state).wf(),
            final(state)@ == ended(old(state)@, actor_id),
            after == after_end::<T, C, R>(old(state)@, actor_id, end),
    {
        let ghost s = state@;
        let session_id: SyncSessionId = match state.actors.remove(actor_id) {
            Some(session_id) => session_id,
            None => {
                assert(state@ =~= s);
                return AfterEnd::NoSession;
            },
        };
        // Every registered session has a node.
        assert(s.session_nodes.contains_key(session_id));
        let node_id: NodeId = match state.session_nodes.get(session_id) {
            Some(node_id) => *node_id,
            None => {
                return AfterEnd::Done;
            },
        };
        Self::drop_session(state, session_id);
        let ghost dropped = session_dropped(s, actor_id);
        assert(Sessions { waiting: state@.waiting.remove(session_id), ..state@ } =~= dropped);
        proof {
            if !s.pending.contains_key(node_id) {
                lemma_awaited_for_replacement(s, actor_id);
            }
        }
        let resumed = Self::record_pending_resync_termination(state, node_id, session_id);
        assert(state@ == ended(s, actor_id));
        proof {
            lemma_ended_consistent(s, actor_id);
        }
        if let Some(live_mode) = resumed {
            // The old session is gone, gracefully or not, so the replacement goes ahead right away
            // and there's nothing to retry.
            return Self::resume_pending_resync(state, node_id, live_mode);
        }
        match end {
            ActorEnd::Terminated => AfterEnd::Done,
            ActorEnd::Failed => {
                // If this node was removed from the active sync set we skip retrying.
                if !state.active_sync_set.contains(&node_id) {
                    return AfterEnd::RetrySkipped;
                }
                AfterEnd::PostAfter {
                    millis: RETRY_RATE_MILLIS,
                    message: ToTopicManager::Retry { node_id, live_mode: true },
                }
            },
        }
    }

    /// Removes a session from all mappings.
    fn drop_session(state: &mut TopicManagerState, session_id: SyncSessionId)
        requires
            forall|id: SyncSessionId| #[trigger]
                old(state).session_logs@.contains_key(id) ==> old(state).session_logs@[id].wf(),
        ensures
            forall|id: SyncSessionId| #[trigger]
                final(state).session_logs@.contains_key(id) ==> final(state).session_logs@[id].wf(),
            *final(state) == (TopicManagerState {
                session_topics: final(state).session_topics,
                session_nodes: final(state).session_nodes,
                session_catch_up: final(state).session_catch_up,
                session_logs: final(state).session_logs,
                ..*old(state)
            }),
            final(state)@ == (Sessions {
                session_topics: old(state)@.session_topics.remove(session_id),
                session_nodes: old(state)@.session_nodes.remove(session_id),
                caught_up: old(state)@.caught_up.remove(session_id),
                baselines: old(state)@.baselines.remove(session_id),
                ..old(state)@
            }),
    {
        state.session_topics.remove(session_id);
        state.session_nodes.remove(session_id);
        state.session_catch_up.remove(session_id);
        state.session_logs.remove(session_id);
        assert(state@.baselines =~= old(state)@.baselines.remove(session_id));
    }

    /// Records that a session, one of possibly several closed for a node's replacement, has
    /// actually terminated.
    ///
    /// Returns the live-mode of the fresh session, and ends the pending replacement, only once
    /// every session named in that replacement has terminated. Nothing changes for a node without a
    /// replacement, and the sessions which other nodes' replacements wait for stay the same: the
    /// terminated session is no longer registered for any node.
    fn record_pending_resync_termination(
        state: &mut TopicManagerState,
        node_id: NodeId,
        session_id: SyncSessionId,
    ) -> (live_mode: Option<bool>)
        requires
            old(state).pending_resync.wf(),
            !old(state)@.session_nodes.contains_key(session_id),
        ensures
            final(state).pending_resync.wf(),
            *final(state) == (TopicManagerState {
                closing: final(state).closing,
                pending_resync: final(state).pending_resync,
                ..*old(state)
            }),
            ({
                let s = Sessions {
                    waiting: old(state)@.waiting.remove(session_id),
                    ..old(state)@
                };
                if !s.pending.contains_key(node_id) {
                    &&& live_mode is None
                    &&& final(state)@ == old(state)@
                } else if awaits(s, node_id) {
                    &&& live_mode is None
                    &&& final(state)@ == s
                } else {
                    &&& live_mode == Some(s.pending[node_id])
                    &&& final(state)@ == (Sessions { pending: s.pending.remove(node_id), ..s })
                }
            }),
    {
        if !state.pending_resync.contains_key(&node_id) {
            return None;
        }
        state.closing.remove(session_id);
        let ghost s = Sessions { waiting: old(state)@.waiting.remove(session_id), ..old(state)@ };
        assert(state@ =~= s);
        let sessions = state.session_nodes.keys_with(&node_id);
        let mut index: usize = 0;
        while index < sessions.len()
            invariant
                index <= sessions@.len(),
                state.pending_resync.wf(),
                *state == (TopicManagerState { closing: state.closing, ..*old(state) }),
                state@ == s,
                s == (Sessions { waiting: old(state)@.waiting.remove(session_id), ..old(state)@ }),
                s.pending.contains_key(node_id),
                sessions@.to_set() == sessions_with(s, node_id),
                forall|i: int| 0 <= i < index ==> !s.waiting.contains(#[trigger] sessions@[i]),
            decreases sessions@.len() - index,
        {
            if state.closing.contains(sessions[index]) {
                assert(sessions@.to_set().contains(sessions@[index as int]));
                assert(s.waiting.contains(sessions@[index as int]));
                assert(awaits(s, node_id));
                return None;
            }
            index = index + 1;
        }
        assert(!awaits(s, node_id)) by {
            if awaits(s, node_id) {
                let id = choose|id: SyncSessionId| #[trigger]
                    s.waiting.contains(id) && sessions_with(s, node_id).contains(id);
                assert(sessions@.to_set().contains(id));
                let i = choose|i: int| 0 <= i < sessions@.len() && sessions@[i] == id;
                assert(!s.waiting.contains(sessions@[i]));
            }
        }
        state.pending_resync.remove(&node_id)
    }

    /// Goes on with a replacement whose old sessions have all terminated.
    ///
    /// The node may have left the active set in the meantime, and whether it may connect has to be
    /// asked again: both can have changed since the old sessions were asked to close.
    fn resume_pending_resync<T, C, R>(
        state: &TopicManagerState,
        node_id: NodeId,
        live_mode: bool,
    ) -> (after: AfterEnd<T, C, R>)
        requires
            state.wf(),
        ensures
            after == if state@.active.contains(node_id) {
                AfterEnd::<T, C, R>::Authorise { node_id, topic: state@.topic, live_mode }
            } else {
                AfterEnd::ResyncDropped
            },
    {
        if !state.active_sync_set.contains(&node_id) {
            return AfterEnd::ResyncDropped;
        }
        AfterEnd::Authorise { node_id, topic: state.topic, live_mode }
    }

    /// Starts the fresh session of a replacement, if the node may still connect.
    ///
    /// Returns the event to report, and the message which the topic manager sends to itself.
    pub fn resume<T, C, R>(node_id: NodeId, topic: Topic, live_mode: bool, allowed: bool) -> (result: (
        ConnectionAuthoriserEvent,
        Option<ToTopicManager<T, C, R>>,
    ))
        ensures
            result == if allowed {
                (
                    ConnectionAuthoriserEvent::TopicAllowed { topic, node: node_id },
                    Some(ToTopicManager::<T, C, R>::Initiate { node_id, topic, live_mode }),
                )
            } else {
                (ConnectionAuthoriserEvent::TopicBlocked { topic, node: node_id }, None)
            },
    {
        if allowed {
            (
                ConnectionAuthoriserEvent::TopicAllowed { topic, node: node_id },
                Some(ToTopicManager::Initiate { node_id, topic, live_mode }),
            )
        } else {
            (ConnectionAuthoriserEvent::TopicBlocked { topic, node: node_id }, None)
        }
    }
}

proof fn lemma_node_closed_consistent(s: Sessions, node_id: NodeId)
    requires
        consistent(s),
    ensures
        consistent(node_closed(s, node_id)),
{
    let after = node_closed(s, node_id);
    assert forall|other: NodeId| #[trigger] after.pending.contains_key(other) implies awaits(
        after,
        other,
    ) by {
        assert(awaits(s, other));
        let id = choose|id: SyncSessionId| #[trigger]
            s.waiting.contains(id) && sessions_with(s, other).contains(id);
        assert(after.waiting.contains(id) && sessions_with(after, other).contains(id));
    }
}

proof fn lemma_replacing_consistent(
    s: Sessions,
    node_id: NodeId,
    live_mode: bool,
    stale: Set<SyncSessionId>,
    witness: SyncSessionId,
)
    requires
        consistent(s),
        stale.subset_of(sessions_with(s, node_id)),
        stale.contains(witness),
    ensures
        consistent(replacing(s, node_id, live_mode, stale)),
{
    let after = replacing(s, node_id, live_mode, stale);
    assert forall|other: NodeId| #[trigger] after.pending.contains_key(other) implies awaits(
        after,
        other,
    ) by {
        if other == node_id {
            assert(after.waiting.contains(witness));
            assert(sessions_with(after, other).contains(witness));
        } else {
            assert(s.pending.contains_key(other));
            let id = choose|id: SyncSessionId| #[trigger]
                s.waiting.contains(id) && sessions_with(s, other).contains(id);
            assert(after.waiting.contains(id) && sessions_with(after, other).contains(id));
        }
    }
}

proof fn lemma_registered_consistent(
    s: Sessions,
    actor_id: SessionActorId,
    node_id: NodeId,
    topic: Topic,
)
    requires
        consistent(s),
        s.next_session_id < u64::MAX,
    ensures
        consistent(registered(s, actor_id, node_id, topic)),
{
    let after = registered(s, actor_id, node_id, topic);
    assert(after.session_topics.dom() =~= after.session_nodes.dom());
    assert(!s.session_nodes.contains_key(s.next_session_id));
    assert forall|other: NodeId| #[trigger] after.pending.contains_key(other) implies awaits(
        after,
        other,
    ) by {
        assert(s.pending.contains_key(other));
        let id = choose|id: SyncSessionId| #[trigger]
            s.waiting.contains(id) && sessions_with(s, other).contains(id);
        assert(after.waiting.contains(id) && sessions_with(after, other).contains(id));
    }
}

proof fn lemma_ended_consistent(s: Sessions, actor_id: SessionActorId)
    requires
        consistent(s),
    ensures
        consistent(ended(s, actor_id)),
{
    if s.actors.contains_key(actor_id) {
        let after = ended(s, actor_id);
        let dropped = session_dropped(s, actor_id);
        let gone = s.actors[actor_id];
        let node_id = s.session_nodes[gone];
        assert(after.session_topics.dom() =~= after.session_nodes.dom());
        assert forall|other: NodeId| #[trigger] after.pending.contains_key(other) implies awaits(
            after,
            other,
        ) by {
            assert(s.pending.contains_key(other));
            if other == node_id {
                assert(awaits(dropped, node_id));
                let id = choose|id: SyncSessionId| #[trigger]
                    dropped.waiting.contains(id) && sessions_with(dropped, other).contains(id);
                assert(after.waiting.contains(id) && sessions_with(after, other).contains(id));
            } else {
                let id = choose|id: SyncSessionId| #[trigger]
                    s.waiting.contains(id) && sessions_with(s, other).contains(id);
                assert(after.waiting.contains(id) && sessions_with(after, other).contains(id));
            }
        }
        assert forall|id: SyncSessionId| #[trigger]
            after.waiting.contains(id) implies after.session_nodes.contains_key(id)
            && after.pending.contains_key(after.session_nodes[id]) by {
            assert(s.waiting.contains(id));
            if s.session_nodes[id] == node_id && replacement_complete(s, actor_id) {
                assert(dropped.waiting.contains(id) && sessions_with(dropped, node_id).contains(
                    id,
                ));
            }
        }
    }
}

/// At most one replacement is in flight per node: while one is pending, a further resync changes
/// nothing and closes nothing.
pub proof fn law_one_replacement_in_flight<T, C, R>(
    s: Sessions,
    node_id: NodeId,
    topic: Topic,
    live_mode: bool,
    after: Sessions,
    effect: Effect<T, C, R>,
)
    requires
        s.pending.contains_key(node_id),
        handled(s, ToTopicManager::Resync { node_id, topic, live_mode }, after, effect),
    ensures
        after == s,
        effect == Effect::<T, C, R>::Skip(SkipReason::ReplacementInFlight),
{
}

/// An initiated session is never a second one for its node, and a node whose initiation is skipped
/// has a session already: no peer is dropped.
pub proof fn law_initiate_keeps_one_session<T, C, R>(
    s: Sessions,
    node_id: NodeId,
    topic: Topic,
    live_mode: bool,
    after: Sessions,
    effect: Effect<T, C, R>,
)
    requires
        handled(s, ToTopicManager::Initiate { node_id, topic, live_mode }, after, effect),
    ensures
        effect is StartSession <==> idle(s, node_id),
        after.active.contains(node_id),
{
}

/// A node which was closed leaves the active set and loses its pending replacement at once, and
/// every other node keeps its own.
pub proof fn law_close_cancels_replacement(s: Sessions, node_id: NodeId)
    requires
        consistent(s),
    ensures
        !node_closed(s, node_id).active.contains(node_id),
        !node_closed(s, node_id).pending.contains_key(node_id),
        !awaits(node_closed(s, node_id), node_id),
        forall|other: NodeId|
            other != node_id ==> {
                &&& node_closed(s, node_id).active.contains(other) == s.active.contains(other)
                &&& #[trigger] node_closed(s, node_id).pending.contains_key(other)
                    == s.pending.contains_key(other)
                &&& awaits(node_closed(s, node_id), other) == awaits(s, other)
            },
{
    let after = node_closed(s, node_id);
    assert forall|other: NodeId| other != node_id implies awaits(after, other) == awaits(
        s,
        other,
    ) by {
        if awaits(s, other) {
            let id = choose|id: SyncSessionId| #[trigger]
                s.waiting.contains(id) && sessions_with(s, other).contains(id);
            assert(after.waiting.contains(id) && sessions_with(after, other).contains(id));
        }
        if awaits(after, other) {
            let id = choose|id: SyncSessionId| #[trigger]
                after.waiting.contains(id) && sessions_with(after, other).contains(id);
            assert(s.waiting.contains(id) && sessions_with(s, other).contains(id));
        }
    }
}

/// Whether a message asks for a session with the node on its own account.
pub open spec fn asks_for<T, C, R>(message: ToTopicManager<T, C, R>, node_id: NodeId) -> bool {
    match message {
        ToTopicManager::Initiate { node_id: remote, .. } => remote == node_id,
        ToTopicManager::Resync { node_id: remote, .. } => remote == node_id,
        _ => false,
    }
}

/// Whether an effect leads to an outbound session with the node, now or later.
pub open spec fn leads_to<T, C, R>(effect: Effect<T, C, R>, node_id: NodeId) -> bool {
    match effect {
        Effect::StartSession { config, role } => config.remote == node_id && role is Initiate,
        Effect::Post { messages } => exists|i: int|
            0 <= i < messages@.len() && asks_for(#[trigger] messages@[i], node_id),
        _ => false,
    }
}

/// A node outside of the active set stays there until somebody asks for it again, and no message
/// about anything else leads to a session with it: a closed node is not resurrected.
pub proof fn law_inactive_node_is_left_alone<T, C, R>(
    s: Sessions,
    node_id: NodeId,
    message: ToTopicManager<T, C, R>,
    after: Sessions,
    effect: Effect<T, C, R>,
)
    requires
        !s.active.contains(node_id),
        !asks_for(message, node_id),
        handled(s, message, after, effect),
    ensures
        !after.active.contains(node_id),
        !leads_to(effect, node_id),
{
    if let Effect::Post { messages } = effect {
        assert forall|i: int| 0 <= i < messages@.len() implies !asks_for(
            #[trigger] messages@[i],
            node_id,
        ) by {
            assert(messages@.contains(messages@[i]));
        }
    }
}

/// The end of a session never leads to a new one with a node outside of the active set, whether a
/// replacement was pending for it or not.
pub proof fn law_ended_session_is_not_resurrected<T, C, R>(
    s: Sessions,
    actor_id: SessionActorId,
    end: ActorEnd,
)
    requires
        consistent(s),
    ensures
        ended(s, actor_id).active == s.active,
        match after_end::<T, C, R>(s, actor_id, end) {
            AfterEnd::Authorise { node_id, .. } => s.active.contains(node_id),
            AfterEnd::PostAfter { message, .. } => {
                &&& message matches ToTopicManager::Retry { node_id, .. }
                &&& s.active.contains(node_id)
            },
            _ => true,
        },
{
}

/// A replacement is resumed by the end of the last session it waits for, gracefully or not, and
/// never before.
pub proof fn law_replacement_waits_for_all<T, C, R>(
    s: Sessions,
    actor_id: SessionActorId,
    end: ActorEnd,
)
    requires
        consistent(s),
        s.actors.contains_key(actor_id),
        s.pending.contains_key(s.session_nodes[s.actors[actor_id]]),
    ensures
        ({
            let id = s.actors[actor_id];
            let node_id = s.session_nodes[id];
            let last = forall|other: SyncSessionId| #[trigger]
                s.waiting.contains(other) && sessions_with(s, node_id).contains(other) ==> other
                    == id;
            let after = ended(s, actor_id);
            &&& last <==> !after.pending.contains_key(node_id)
            &&& last && s.active.contains(node_id) ==> after_end::<T, C, R>(s, actor_id, end) == (
            AfterEnd::<T, C, R>::Authorise {
                node_id,
                topic: s.topic,
                live_mode: s.pending[node_id],
            })
            &&& !last ==> !(after_end::<T, C, R>(s, actor_id, end) is Authorise)
        }),
{
    let id = s.actors[actor_id];
    let node_id = s.session_nodes[id];
    let dropped = session_dropped(s, actor_id);
    if awaits(dropped, node_id) {
        let other = choose|other: SyncSessionId| #[trigger]
            dropped.waiting.contains(other) && sessions_with(dropped, node_id).contains(other);
        assert(s.waiting.contains(other) && sessions_with(s, node_id).contains(other));
        assert(other != id);
    } else {
        assert forall|other: SyncSessionId| #[trigger]
            s.waiting.contains(other) && sessions_with(s, node_id).contains(other) implies other
            == id by {
            if other != id {
                assert(dropped.waiting.contains(other) && sessions_with(dropped, node_id).contains(
                    other,
                ));
            }
        }
    }
}

/// The end of one node's session leaves every other node's pending replacement as it is.
pub proof fn law_ended_session_spares_other_nodes(
    s: Sessions,
    actor_id: SessionActorId,
    other: NodeId,
)
    requires
        consistent(s),
        s.actors.contains_key(actor_id),
        s.session_nodes[s.actors[actor_id]] != other,
    ensures
        ended(s, actor_id).pending.contains_key(other) == s.pending.contains_key(other),
        s.pending.contains_key(other) ==> ended(s, actor_id).pending[other] == s.pending[other],
        sessions_with(ended(s, actor_id), other) == sessions_with(s, other),
        awaits(ended(s, actor_id), other) == awaits(s, other),
{
    let after = ended(s, actor_id);
    assert(sessions_with(after, other) =~= sessions_with(s, other));
    if awaits(s, other) {
        let id = choose|id: SyncSessionId| #[trigger]
            s.waiting.contains(id) && sessions_with(s, other).contains(id);
        assert(after.waiting.contains(id) && sessions_with(after, other).contains(id));
    }
    if awaits(after, other) {
        let id = choose|id: SyncSessionId| #[trigger]
            after.waiting.contains(id) && sessions_with(after, other).contains(id);
        assert(s.waiting.contains(id) && sessions_with(s, other).contains(id));
    }
}

/// A session which terminated gracefully is never retried.
pub proof fn law_graceful_end_is_not_retried<T, C, R>(s: Sessions, actor_id: SessionActorId)
    ensures
        !(after_end::<T, C, R>(s, actor_id, ActorEnd::Terminated) is PostAfter),
{
}

/// A new session gets an id which no registered session has.
pub proof fn law_session_id_is_fresh(s: Sessions)
    requires
        consistent(s),
    ensures
        !s.session_nodes.contains_key(s.next_session_id),
        !s.waiting.contains(s.next_session_id),
        forall|actor: SessionActorId| #[trigger]
            s.actors.contains_key(actor) ==> s.actors[actor] != s.next_session_id,
{
}

/// A session which knows all current logs, or has not resolved any yet, is never replaced.
pub proof fn law_only_drifted_sessions_are_stale(
    s: Sessions,
    node_id: NodeId,
    fresh: Map<VerifyingKey, Seq<LogId>>,
    id: SyncSessionId,
)
    requires
        !s.baselines.contains_key(id) || s.baselines[id] == fresh,
    ensures
        !stale_sessions(s, node_id, fresh).contains(id),
{
}

/// Something which happens to a topic manager.
pub enum Happening<T, C, R> {
    /// A message was handled.
    Handled { message: ToTopicManager<T, C, R>, after: Sessions, effect: Effect<T, C, R> },

    /// A session was registered.
    Registered { actor_id: SessionActorId, node_id: NodeId, topic: Topic },

    /// Stale sessions with a node were asked to close for a replacement.
    Replaced { node_id: NodeId, live_mode: bool, fresh: Map<VerifyingKey, Seq<LogId>> },

    /// A session reported something about itself.
    Recorded { caught_up: Set<SyncSessionId>, baselines: Map<SyncSessionId, Map<VerifyingKey, Seq<LogId>>> },

    /// An actor ended.
    Ended { actor_id: SessionActorId, end: ActorEnd },
}

/// Whether something can happen in a state.
pub open spec fn can_happen<T, C, R>(s: Sessions, happening: Happening<T, C, R>) -> bool {
    match happening {
        Happening::Handled { message, after, effect } => handled(s, message, after, effect),
        Happening::Registered { .. } => s.next_session_id < u64::MAX,
        Happening::Replaced { node_id, fresh, .. } => exists|id: SyncSessionId| #[trigger]
            stale_sessions(s, node_id, fresh).contains(id),
        Happening::Recorded { .. } => true,
        Happening::Ended { .. } => true,
    }
}

/// The state after something has happened.
pub open spec fn follow<T, C, R>(s: Sessions, happening: Happening<T, C, R>) -> Sessions {
    match happening {
        Happening::Handled { after, .. } => after,
        Happening::Registered { actor_id, node_id, topic } => registered(
            s,
            actor_id,
            node_id,
            topic,
        ),
        Happening::Replaced { node_id, live_mode, fresh } => replacing(
            s,
            node_id,
            live_mode,
            stale_sessions(s, node_id, fresh),
        ),
        Happening::Recorded { caught_up, baselines } => Sessions { caught_up, baselines, ..s },
        Happening::Ended { actor_id, .. } => ended(s, actor_id),
    }
}

/// The state after the first `count` things have happened.
pub open spec fn state_after<T, C, R>(
    s: Sessions,
    course: Seq<Happening<T, C, R>>,
    count: nat,
) -> Sessions
    decreases count,
{
    if count == 0 {
        s
    } else {
        let before = (count - 1) as nat;
        follow(state_after(s, course, before), course[before as int])
    }
}

/// Whether all of this can happen one after the other.
pub open spec fn possible_course<T, C, R>(s: Sessions, course: Seq<Happening<T, C, R>>) -> bool {
    forall|i: nat|
        i < course.len() ==> can_happen(#[trigger] state_after(s, course, i), course[i as int])
}

/// Whether what follows the end of an actor leads to a session with the node.
pub open spec fn revives<T, C, R>(after: AfterEnd<T, C, R>, node_id: NodeId) -> bool {
    match after {
        AfterEnd::Authorise { node_id: remote, .. } => remote == node_id,
        AfterEnd::PostAfter { message, .. } => match message {
            ToTopicManager::Retry { node_id: remote, .. } => remote == node_id,
            _ => true,
        },
        _ => false,
    }
}

/// Whatever happens to a topic manager, its state stays consistent.
pub proof fn law_every_state_is_consistent<T, C, R>(
    s: Sessions,
    course: Seq<Happening<T, C, R>>,
    count: nat,
)
    requires
        consistent(s),
        possible_course(s, course),
        count <= course.len(),
    ensures
        consistent(state_after(s, course, count)),
    decreases count,
{
    if count > 0 {
        let before = (count - 1) as nat;
        law_every_state_is_consistent(s, course, before);
        let earlier = state_after(s, course, before);
        let later = state_after(s, course, count);
        match course[before as int] {
            Happening::Handled { message, after, effect } => match message {
                ToTopicManager::Initiate { .. } => {
                    lemma_consistent_kept(earlier, later);
                },
                ToTopicManager::Close { node_id, .. } => {
                    lemma_node_closed_consistent(earlier, node_id);
                },
                _ => {},
            },
            Happening::Registered { actor_id, node_id, topic } => {
                lemma_registered_consistent(earlier, actor_id, node_id, topic);
            },
            Happening::Replaced { node_id, live_mode, fresh } => {
                let stale = stale_sessions(earlier, node_id, fresh);
                let id = choose|id: SyncSessionId| #[trigger] stale.contains(id);
                lemma_replacing_consistent(earlier, node_id, live_mode, stale, id);
            },
            Happening::Recorded { .. } => {
                lemma_consistent_kept(earlier, later);
            },
            Happening::Ended { actor_id, .. } => {
                lemma_ended_consistent(earlier, actor_id);
            },
        }
    }
}

/// A closed node stays closed: as long as nobody asks for a session with it, nothing which happens
/// ever leads to one, however many of its sessions end in the meantime and for whatever reason.
pub proof fn law_closed_node_stays_closed<T, C, R>(
    s: Sessions,
    node_id: NodeId,
    course: Seq<Happening<T, C, R>>,
    count: nat,
)
    requires
        !s.active.contains(node_id),
        possible_course(s, course),
        forall|i: int|
            0 <= i < course.len() ==> (#[trigger] course[i] matches Happening::Handled {
                message,
                ..
            } ==> !asks_for(message, node_id)),
        count < course.len(),
    ensures
        !state_after(s, course, count).active.contains(node_id),
        match course[count as int] {
            Happening::Handled { effect, .. } => !leads_to(effect, node_id),
            Happening::Ended { actor_id, end } => !revives(
                after_end::<T, C, R>(state_after(s, course, count), actor_id, end),
                node_id,
            ),
            _ => true,
        },
    decreases count,
{
    if count > 0 {
        let before = (count - 1) as nat;
        law_closed_node_stays_closed(s, node_id, course, before);
        if let Happening::Handled { message, after, effect } = course[before as int] {
            law_inactive_node_is_left_alone(
                state_after(s, course, before),
                node_id,
                message,
                after,
                effect,
            );
        }
    }
    if let Happening::Handled { message, after, effect } = course[count as int] {
        law_inactive_node_is_left_alone(
            state_after(s, course, count),
            node_id,
            message,
            after,
            effect,
        );
    }
}

/// No session id is ever handed out twice: whatever happens the counter is never turned back, and
/// every registered session moves it on.
pub proof fn law_session_ids_only_grow<T, C, R>(
    s: Sessions,
    course: Seq<Happening<T, C, R>>,
    count: nat,
)
    requires
        possible_course(s, course),
        count <= course.len(),
    ensures
        state_after(s, course, count).next_session_id >= s.next_session_id,
        count > 0 && course[count - 1] is Registered ==> state_after(
            s,
            course,
            count,
        ).next_session_id > s.next_session_id,
    decreases count,
{
    if count > 0 {
        law_session_ids_only_grow(s, course, (count - 1) as nat);
    }
}

} // verus!
