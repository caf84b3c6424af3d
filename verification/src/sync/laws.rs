//! What the synchronisation of a topic promises.
//!
//! Every law here speaks of calls: of the arguments of a function, of what it returns and of the state
//! before and after.

use crate::sync::handle::{SyncHandle, SyncHandleError, SyncSubscription, ToSyncManager};
use crate::sync::logs::ResolvedLogs;
use crate::sync::topic_manager::{
    awaits, idle, session_dropped, sessions_with, stale_sessions, ActorEnd, AfterEnd,
    ConnectionAuthoriserEvent, Effect, SessionActorId, SessionConfig, SessionRole, Sessions,
    SkipReason, SyncSessionId, ToTopicManager, TopicManager, TopicManagerState,
};
use crate::types::{LogId, NodeId, Topic, VerifyingKey};
use vstd::prelude::*;

verus! {

/// A topic manager starts without any session, any active node and any replacement, and counts its
/// sessions from zero.
pub proof fn law_manager_starts_empty(topic: Topic, state: TopicManagerState)
    requires
        call_ensures(TopicManagerState::new, (topic,), state),
    ensures
        state.wf(),
        state@.topic == topic,
        state@.next_session_id == 0,
        forall|id: SyncSessionId| !#[trigger] state@.session_topics.contains_key(id),
        forall|id: SyncSessionId| !#[trigger] state@.session_nodes.contains_key(id),
        forall|actor_id: SessionActorId| !#[trigger] state@.actors.contains_key(actor_id),
        forall|node_id: NodeId| !#[trigger] state@.active.contains(node_id),
        forall|node_id: NodeId| !#[trigger] state@.pending.contains_key(node_id),
        forall|id: SyncSessionId| !#[trigger] state@.waiting.contains(id),
        forall|id: SyncSessionId| !#[trigger] state@.caught_up.contains(id),
        forall|id: SyncSessionId| !#[trigger] state@.baselines.contains_key(id),
{
}

/// Published data reaches every session which runs over the topic, whoever started it, each of them
/// once, and no other one. Nothing else happens.
pub proof fn law_publish_reaches_every_session<T, C, R>(
    state: &mut TopicManagerState,
    data: T,
    effect: Effect<T, C, R>,
)
    requires
        call_ensures(TopicManager::handle::<T, C, R>, (state, ToTopicManager::Publish(data)), effect),
    ensures
        final(state)@ == old(state)@,
        effect matches Effect::Forward { session_ids, data: forwarded } && {
            &&& forwarded == data
            &&& session_ids@.no_duplicates()
            &&& forall|id: SyncSessionId| #[trigger]
                session_ids@.contains(id) <==> old(state)@.session_topics.contains_key(id)
                    && old(state)@.session_topics[id] == old(state)@.topic
        },
{
    if let Effect::Forward { session_ids, .. } = effect {
        assert forall|id: SyncSessionId| #[trigger] session_ids@.contains(id) <==> old(state)@.session_topics.contains_key(id) && old(state)@.session_topics[id] == old(state)@.topic by {
            assert(session_ids@.to_set().contains(id) <==> session_ids@.contains(id));
        }
    }
}

/// A session gets what is published from the moment on it was registered: an inbound session is
/// accepted whatever else runs, and data which is published after it was registered is forwarded to
/// it.
pub proof fn law_accepted_session_gets_published_data<T, C, R>(
    accepting: &mut TopicManagerState,
    registering: &mut TopicManagerState,
    publishing: &mut TopicManagerState,
    node_id: NodeId,
    live_mode: bool,
    connection: C,
    actor_id: SessionActorId,
    started: Effect<T, C, R>,
    session_id: SyncSessionId,
    data: T,
    effect: Effect<T, C, R>,
)
    requires
        call_ensures(
            TopicManager::handle::<T, C, R>,
            (
                accepting,
                ToTopicManager::Accept {
                    node_id,
                    topic: old(accepting)@.topic,
                    live_mode,
                    connection,
                },
            ),
            started,
        ),
        *old(registering) == *final(accepting),
        call_ensures(
            TopicManager::new_session,
            (registering, actor_id, node_id, old(accepting)@.topic),
            session_id,
        ),
        *old(publishing) == *final(registering),
        call_ensures(
            TopicManager::handle::<T, C, R>,
            (publishing, ToTopicManager::Publish(data)),
            effect,
        ),
    ensures
        started == (Effect::<T, C, R>::StartSession {
            config: SessionConfig { topic: old(accepting)@.topic, remote: node_id, live_mode },
            role: SessionRole::Accept(connection),
        }),
        effect matches Effect::Forward { session_ids, data: forwarded } && {
            &&& forwarded == data
            &&& session_ids@.contains(session_id)
            &&& forall|id: SyncSessionId|
                old(accepting)@.session_topics.contains_key(id) && old(accepting)@.session_topics[id] == old(accepting)@.topic && id != session_id
                    ==> #[trigger] session_ids@.contains(id)
        },
{
    law_publish_reaches_every_session(publishing, data, effect);
}

/// An inbound session is always accepted, and changes nothing before it is registered.
pub proof fn law_inbound_session_is_accepted<T, C, R>(
    state: &mut TopicManagerState,
    node_id: NodeId,
    topic: Topic,
    live_mode: bool,
    connection: C,
    effect: Effect<T, C, R>,
)
    requires
        call_ensures(
            TopicManager::handle::<T, C, R>,
            (state, ToTopicManager::Accept { node_id, topic, live_mode, connection }),
            effect,
        ),
    ensures
        final(state)@ == old(state)@,
        effect == (Effect::<T, C, R>::StartSession {
            config: SessionConfig { topic, remote: node_id, live_mode },
            role: SessionRole::Accept(connection),
        }),
{
}

/// Whoever initiates sync with a node makes it active, and starts a session exactly where none is
/// registered for the node.
pub proof fn law_initiate_starts_first_session<T, C, R>(
    state: &mut TopicManagerState,
    node_id: NodeId,
    topic: Topic,
    live_mode: bool,
    effect: Effect<T, C, R>,
)
    requires
        call_ensures(
            TopicManager::handle::<T, C, R>,
            (state, ToTopicManager::Initiate { node_id, topic, live_mode }),
            effect,
        ),
    ensures
        forall|other: NodeId| #[trigger]
            final(state)@.active.contains(other) <==> other == node_id || old(state)@.active.contains(other),
        final(state)@ == (Sessions { active: final(state)@.active, ..old(state)@ }),
        (exists|id: SyncSessionId| #[trigger]
            old(state)@.session_nodes.contains_key(id) && old(state)@.session_nodes[id] == node_id)
            ==> effect == (Effect::<T, C, R>::Skip(SkipReason::SessionRunning)),
        (forall|id: SyncSessionId| #[trigger]
            old(state)@.session_nodes.contains_key(id) ==> old(state)@.session_nodes[id] != node_id)
            ==> effect == (Effect::<T, C, R>::StartSession {
            config: SessionConfig { topic, remote: node_id, live_mode },
            role: SessionRole::Initiate,
        }),
{
    lemma_running(old(state)@, node_id);
}

/// Sync with a node is retried exactly where the node is still active and no session is registered
/// for it, over the manager's own topic.
pub proof fn law_retry_starts_missing_session<T, C, R>(
    state: &mut TopicManagerState,
    node_id: NodeId,
    live_mode: bool,
    effect: Effect<T, C, R>,
)
    requires
        call_ensures(
            TopicManager::handle::<T, C, R>,
            (state, ToTopicManager::Retry { node_id, live_mode }),
            effect,
        ),
    ensures
        final(state)@ == old(state)@,
        !old(state)@.active.contains(node_id) ==> effect == (Effect::<T, C, R>::Skip(
            SkipReason::NodeInactive,
        )),
        old(state)@.active.contains(node_id) && (exists|id: SyncSessionId| #[trigger]
            old(state)@.session_nodes.contains_key(id) && old(state)@.session_nodes[id] == node_id)
            ==> effect == (Effect::<T, C, R>::Skip(SkipReason::SessionRunning)),
        old(state)@.active.contains(node_id) && (forall|id: SyncSessionId| #[trigger]
            old(state)@.session_nodes.contains_key(id) ==> old(state)@.session_nodes[id] != node_id)
            ==> effect == (Effect::<T, C, R>::StartSession {
            config: SessionConfig { topic: old(state)@.topic, remote: node_id, live_mode },
            role: SessionRole::Initiate,
        }),
{
    lemma_running(old(state)@, node_id);
}

/// Closing the manager asks every session over the topic to close, forgets every active node and every
/// pending replacement, and tells whoever asked. Sessions stay registered until they end.
pub proof fn law_close_all_closes_every_session<T, C, R>(
    state: &mut TopicManagerState,
    reply: R,
    effect: Effect<T, C, R>,
)
    requires
        call_ensures(
            TopicManager::handle::<T, C, R>,
            (state, ToTopicManager::CloseAll(reply)),
            effect,
        ),
    ensures
        forall|node_id: NodeId| !#[trigger] final(state)@.active.contains(node_id),
        forall|node_id: NodeId| !#[trigger] final(state)@.pending.contains_key(node_id),
        forall|id: SyncSessionId| !#[trigger] final(state)@.waiting.contains(id),
        final(state)@ == (Sessions {
            active: final(state)@.active,
            pending: final(state)@.pending,
            waiting: final(state)@.waiting,
            ..old(state)@
        }),
        effect matches Effect::Close { session_ids, reply: answered } && {
            &&& answered == reply
            &&& session_ids@.no_duplicates()
            &&& forall|id: SyncSessionId| #[trigger]
                session_ids@.contains(id) <==> old(state)@.session_topics.contains_key(id)
                    && old(state)@.session_topics[id] == old(state)@.topic
        },
{
    if let Effect::Close { session_ids, .. } = effect {
        assert forall|id: SyncSessionId| #[trigger] session_ids@.contains(id) <==> old(state)@.session_topics.contains_key(id) && old(state)@.session_topics[id] == old(state)@.topic by {
            assert(session_ids@.to_set().contains(id) <==> session_ids@.contains(id));
        }
    }
}

/// Closing a node asks all of its sessions over the topic to close, makes it inactive and gives up its
/// replacement. Everything stays as it is for other nodes.
pub proof fn law_close_closes_sessions_of_node<T, C, R>(
    state: &mut TopicManagerState,
    node_id: NodeId,
    reply: R,
    effect: Effect<T, C, R>,
)
    requires
        call_ensures(
            TopicManager::handle::<T, C, R>,
            (state, ToTopicManager::Close { node_id, reply }),
            effect,
        ),
    ensures
        forall|other: NodeId| #[trigger]
            final(state)@.active.contains(other) <==> other != node_id && old(state)@.active.contains(other),
        forall|other: NodeId| #[trigger]
            final(state)@.pending.contains_key(other) <==> other != node_id && old(state)@.pending.contains_key(other),
        forall|other: NodeId| #[trigger]
            final(state)@.pending.contains_key(other) ==> final(state)@.pending[other] == old(state)@.pending[other],
        forall|id: SyncSessionId| #[trigger]
            final(state)@.waiting.contains(id) <==> old(state)@.waiting.contains(id) && !(old(state)@.session_nodes.contains_key(id) && old(state)@.session_nodes[id] == node_id),
        final(state)@ == (Sessions {
            active: final(state)@.active,
            pending: final(state)@.pending,
            waiting: final(state)@.waiting,
            ..old(state)@
        }),
        effect matches Effect::Close { session_ids, reply: answered } && {
            &&& answered == reply
            &&& session_ids@.no_duplicates()
            &&& forall|id: SyncSessionId| #[trigger]
                session_ids@.contains(id) <==> {
                    &&& old(state)@.session_topics.contains_key(id)
                    &&& old(state)@.session_topics[id] == old(state)@.topic
                    &&& old(state)@.session_nodes.contains_key(id)
                    &&& old(state)@.session_nodes[id] == node_id
                }
        },
{
    if let Effect::Close { session_ids, .. } = effect {
        assert forall|id: SyncSessionId| #[trigger] session_ids@.contains(id) <==> ({
            &&& old(state)@.session_topics.contains_key(id)
            &&& old(state)@.session_topics[id] == old(state)@.topic
            &&& old(state)@.session_nodes.contains_key(id)
            &&& old(state)@.session_nodes[id] == node_id
        }) by {
            assert(session_ids@.to_set().contains(id) <==> session_ids@.contains(id));
        }
    }
}

/// A resync changes nothing by itself. While a replacement is in flight it is skipped, without any
/// session it is an initiation, and it is skipped as long as one of the node's sessions is catching
/// up. Otherwise the current logs are looked at.
pub proof fn law_resync_is_decided_by_sessions<T, C, R>(
    state: &mut TopicManagerState,
    node_id: NodeId,
    topic: Topic,
    live_mode: bool,
    effect: Effect<T, C, R>,
)
    requires
        call_ensures(
            TopicManager::handle::<T, C, R>,
            (state, ToTopicManager::Resync { node_id, topic, live_mode }),
            effect,
        ),
    ensures
        final(state)@ == old(state)@,
        old(state)@.pending.contains_key(node_id) ==> effect == (Effect::<T, C, R>::Skip(
            SkipReason::ReplacementInFlight,
        )),
        !old(state)@.pending.contains_key(node_id) && (forall|id: SyncSessionId| #[trigger]
            old(state)@.session_nodes.contains_key(id) ==> old(state)@.session_nodes[id] != node_id)
            ==> (effect matches Effect::Post { messages } && messages@.len() == 1 && messages@[0]
            == (ToTopicManager::<T, C, R>::Initiate { node_id, topic, live_mode })),
        !old(state)@.pending.contains_key(node_id) && (exists|id: SyncSessionId| #[trigger]
            old(state)@.session_nodes.contains_key(id) && old(state)@.session_nodes[id] == node_id
                && !old(state)@.caught_up.contains(id)) ==> effect == (Effect::<T, C, R>::Skip(
            SkipReason::CatchUpInProgress,
        )),
        !old(state)@.pending.contains_key(node_id) && (exists|id: SyncSessionId| #[trigger]
            old(state)@.session_nodes.contains_key(id) && old(state)@.session_nodes[id] == node_id)
            && (forall|id: SyncSessionId| #[trigger]
            old(state)@.session_nodes.contains_key(id) && old(state)@.session_nodes[id] == node_id
                ==> old(state)@.caught_up.contains(id)) ==> effect == (Effect::<
            T,
            C,
            R,
        >::ResolveLogs { node_id, topic, live_mode }),
{
    lemma_running(old(state)@, node_id);
    let s = old(state)@;
    if exists|id: SyncSessionId| #[trigger]
        s.session_nodes.contains_key(id) && s.session_nodes[id] == node_id && !s.caught_up.contains(
            id,
        ) {
        let id = choose|id: SyncSessionId| #[trigger]
            s.session_nodes.contains_key(id) && s.session_nodes[id] == node_id
                && !s.caught_up.contains(id);
        assert(sessions_with(s, node_id).contains(id));
    }
}

/// A new association leads to one resync with every active node, over the topic and in live-mode, and
/// to nothing else.
pub proof fn law_association_resyncs_active_nodes<T, C, R>(
    state: &mut TopicManagerState,
    effect: Effect<T, C, R>,
)
    requires
        call_ensures(
            TopicManager::handle::<T, C, R>,
            (state, ToTopicManager::AssociationChanged),
            effect,
        ),
    ensures
        final(state)@ == old(state)@,
        effect matches Effect::Post { messages } && {
            &&& messages@.no_duplicates()
            &&& forall|node_id: NodeId| #[trigger]
                old(state)@.active.contains(node_id) ==> messages@.contains(
                    ToTopicManager::<T, C, R>::Resync {
                        node_id,
                        topic: old(state)@.topic,
                        live_mode: true,
                    },
                )
            &&& forall|i: int|
                0 <= i < messages@.len() ==> (#[trigger] messages@[i] matches ToTopicManager::Resync {
                    node_id,
                    topic,
                    live_mode,
                } && old(state)@.active.contains(node_id) && topic == old(state)@.topic
                    && live_mode)
        },
{
    if let Effect::Post { messages } = effect {
        assert forall|i: int| 0 <= i < messages@.len() implies (
        #[trigger] messages@[i] matches ToTopicManager::Resync { node_id, topic, live_mode } && old(state)@.active.contains(node_id) && topic == old(state)@.topic && live_mode) by {
            assert(messages@.contains(messages@[i]));
        }
    }
}

/// A session is registered under an id of its own, with its node, its topic and its actor. Every other
/// session stays as it is.
pub proof fn law_session_is_registered(
    state: &mut TopicManagerState,
    actor_id: SessionActorId,
    node_id: NodeId,
    topic: Topic,
    session_id: SyncSessionId,
)
    requires
        old(state)@.next_session_id < u64::MAX,
        call_ensures(TopicManager::new_session, (state, actor_id, node_id, topic), session_id),
    ensures
        session_id == old(state)@.next_session_id,
        final(state)@.next_session_id == old(state)@.next_session_id + 1,
        forall|id: SyncSessionId| #[trigger]
            final(state)@.session_topics.contains_key(id) <==> id == session_id || old(state)@.session_topics.contains_key(id),
        forall|id: SyncSessionId| #[trigger]
            final(state)@.session_nodes.contains_key(id) <==> id == session_id || old(state)@.session_nodes.contains_key(id),
        forall|actor: SessionActorId| #[trigger]
            final(state)@.actors.contains_key(actor) <==> actor == actor_id || old(state)@.actors.contains_key(actor),
        final(state)@.session_topics[session_id] == topic,
        final(state)@.session_nodes[session_id] == node_id,
        final(state)@.actors[actor_id] == session_id,
        forall|id: SyncSessionId|
            id != session_id ==> #[trigger] final(state)@.session_topics[id] == old(state)@.session_topics[id],
        forall|id: SyncSessionId|
            id != session_id ==> #[trigger] final(state)@.session_nodes[id] == old(state)@.session_nodes[id],
        forall|actor: SessionActorId|
            actor != actor_id ==> #[trigger] final(state)@.actors[actor] == old(state)@.actors[actor],
        final(state)@ == (Sessions {
            session_topics: final(state)@.session_topics,
            session_nodes: final(state)@.session_nodes,
            actors: final(state)@.actors,
            next_session_id: final(state)@.next_session_id,
            ..old(state)@
        }),
{
}

/// The next session's id which is told is the one the session gets.
pub proof fn law_next_session_id_is_told(
    state: &mut TopicManagerState,
    told: SyncSessionId,
    actor_id: SessionActorId,
    node_id: NodeId,
    topic: Topic,
    session_id: SyncSessionId,
)
    requires
        call_ensures(TopicManagerState::next_session_id, (old(state),), told),
        call_ensures(TopicManager::new_session, (state, actor_id, node_id, topic), session_id),
    ensures
        session_id == told,
{
}

/// What a session reports is noted for this session alone: that it finished its catch-up, and the logs
/// it resolved.
pub proof fn law_reports_are_noted(
    state: &mut TopicManagerState,
    session_id: SyncSessionId,
    catch_up_finished: bool,
    resolved_logs: Option<ResolvedLogs>,
)
    requires
        call_ensures(
            TopicManagerState::record_event,
            (state, session_id, catch_up_finished, resolved_logs),
            (),
        ),
    ensures
        forall|id: SyncSessionId| #[trigger]
            final(state)@.caught_up.contains(id) <==> old(state)@.caught_up.contains(id) || (id
                == session_id && catch_up_finished),
        forall|id: SyncSessionId| #[trigger]
            final(state)@.baselines.contains_key(id) <==> old(state)@.baselines.contains_key(id) || (
            id == session_id && resolved_logs is Some),
        resolved_logs matches Some(logs) ==> final(state)@.baselines[session_id] == logs@,
        forall|id: SyncSessionId|
            id != session_id || resolved_logs is None ==> #[trigger] final(state)@.baselines[id]
                == old(state)@.baselines[id],
        final(state)@ == (Sessions {
            caught_up: final(state)@.caught_up,
            baselines: final(state)@.baselines,
            ..old(state)@
        }),
{
}

/// Exactly those sessions with a node are replaced which resolved other logs than the current ones. The
/// replacement remembers its live-mode and waits for all of them. Nothing happens where there is none.
pub proof fn law_drifted_sessions_are_replaced<T, C, R>(
    state: &mut TopicManagerState,
    node_id: NodeId,
    live_mode: bool,
    fresh: &ResolvedLogs,
    effect: Effect<T, C, R>,
)
    requires
        call_ensures(
            TopicManager::replace_stale::<T, C, R>,
            (state, node_id, live_mode, fresh),
            effect,
        ),
    ensures
        (forall|id: SyncSessionId| #[trigger]
            old(state)@.session_nodes.contains_key(id) && old(state)@.session_nodes[id] == node_id
                && old(state)@.baselines.contains_key(id) ==> old(state)@.baselines[id] == fresh@)
            ==> {
            &&& effect == (Effect::<T, C, R>::Skip(SkipReason::LogsUnchanged))
            &&& final(state)@ == old(state)@
        },
        (exists|id: SyncSessionId| #[trigger]
            old(state)@.session_nodes.contains_key(id) && old(state)@.session_nodes[id] == node_id
                && old(state)@.baselines.contains_key(id) && old(state)@.baselines[id] != fresh@)
            ==> {
            &&& effect matches Effect::Replace { session_ids }
            &&& session_ids@.no_duplicates()
            &&& forall|id: SyncSessionId| #[trigger]
                session_ids@.contains(id) <==> {
                    &&& old(state)@.session_nodes.contains_key(id)
                    &&& old(state)@.session_nodes[id] == node_id
                    &&& old(state)@.baselines.contains_key(id)
                    &&& old(state)@.baselines[id] != fresh@
                }
            &&& final(state)@.pending.contains_key(node_id)
            &&& final(state)@.pending[node_id] == live_mode
            &&& forall|other: NodeId|
                other != node_id ==> (#[trigger] final(state)@.pending.contains_key(other) <==> old(state)@.pending.contains_key(other)) && final(state)@.pending[other] == old(state)@.pending[other]
            &&& forall|id: SyncSessionId| #[trigger]
                final(state)@.waiting.contains(id) <==> session_ids@.contains(id) || (old(state)@.waiting.contains(id) && !(old(state)@.session_nodes.contains_key(id) && old(state)@.session_nodes[id] == node_id))
            &&& final(state)@ == (Sessions {
                pending: final(state)@.pending,
                waiting: final(state)@.waiting,
                ..old(state)@
            })
        },
{
    let s = old(state)@;
    let stale = stale_sessions(s, node_id, fresh@);
    if exists|id: SyncSessionId| #[trigger]
        s.session_nodes.contains_key(id) && s.session_nodes[id] == node_id
            && s.baselines.contains_key(id) && s.baselines[id] != fresh@ {
        let id = choose|id: SyncSessionId| #[trigger]
            s.session_nodes.contains_key(id) && s.session_nodes[id] == node_id
                && s.baselines.contains_key(id) && s.baselines[id] != fresh@;
        assert(stale.contains(id));
        if let Effect::Replace { session_ids } = effect {
            assert forall|id: SyncSessionId| #[trigger]
                session_ids@.contains(id) <==> stale.contains(id) by {
                assert(session_ids@.to_set().contains(id) <==> session_ids@.contains(id));
            }
        }
    } else {
        assert(stale =~= Set::<SyncSessionId>::empty());
    }
}

/// The end of an actor which runs no session changes nothing. Any other end removes exactly the session
/// the actor was running from everything which is known.
pub proof fn law_ended_session_is_forgotten<T, C, R>(
    state: &mut TopicManagerState,
    actor_id: SessionActorId,
    end: ActorEnd,
    after: AfterEnd<T, C, R>,
)
    requires
        call_ensures(
            TopicManager::handle_supervisor_evt::<T, C, R>,
            (state, actor_id, end),
            after,
        ),
    ensures
        !old(state)@.actors.contains_key(actor_id) ==> final(state)@ == old(state)@
            && after == (AfterEnd::<T, C, R>::NoSession),
        old(state)@.actors.contains_key(actor_id) ==> {
            let id = old(state)@.actors[actor_id];
            let s = final(state)@;
            &&& !(after is NoSession)
            &&& s.topic == old(state)@.topic
            &&& s.active == old(state)@.active
            &&& s.next_session_id == old(state)@.next_session_id
            &&& !s.session_topics.contains_key(id)
            &&& !s.session_nodes.contains_key(id)
            &&& !s.actors.contains_key(actor_id)
            &&& !s.caught_up.contains(id)
            &&& !s.baselines.contains_key(id)
            &&& !s.waiting.contains(id)
            &&& forall|other: SyncSessionId| #![trigger s.session_topics.contains_key(other)]
                other != id ==> s.session_topics.contains_key(other) == old(state)@.session_topics.contains_key(other) && s.session_topics[other] == old(state)@.session_topics[other]
            &&& forall|other: SyncSessionId| #![trigger s.session_nodes.contains_key(other)]
                other != id ==> s.session_nodes.contains_key(other) == old(state)@.session_nodes.contains_key(other) && s.session_nodes[other] == old(state)@.session_nodes[other]
            &&& forall|other: SessionActorId| #![trigger s.actors.contains_key(other)]
                other != actor_id ==> s.actors.contains_key(other) == old(state)@.actors.contains_key(
                    other,
                ) && s.actors[other] == old(state)@.actors[other]
            &&& forall|other: SyncSessionId| #![trigger s.caught_up.contains(other)]
                other != id ==> s.caught_up.contains(other) == old(state)@.caught_up.contains(other)
            &&& forall|other: SyncSessionId| #![trigger s.baselines.contains_key(other)]
                other != id ==> s.baselines.contains_key(other) == old(state)@.baselines.contains_key(other) && s.baselines[other] == old(state)@.baselines[other]
            &&& forall|other: SyncSessionId| #![trigger s.waiting.contains(other)]
                other != id ==> s.waiting.contains(other) == old(state)@.waiting.contains(other)
        },
{
}

/// The end of a session resumes its node's replacement exactly where no other session is awaited for
/// it. It goes on only for an active node, with the live-mode it was asked for. Without a replacement
/// to resume, a failed session of an active node is retried after five seconds in live-mode, and
/// nothing follows a graceful end.
pub proof fn law_end_is_followed_up<T, C, R>(
    state: &mut TopicManagerState,
    actor_id: SessionActorId,
    end: ActorEnd,
    after: AfterEnd<T, C, R>,
)
    requires
        old(state)@.actors.contains_key(actor_id),
        call_ensures(
            TopicManager::handle_supervisor_evt::<T, C, R>,
            (state, actor_id, end),
            after,
        ),
    ensures
        ({
            let s = old(state)@;
            let id = s.actors[actor_id];
            let node_id = s.session_nodes[id];
            let awaited = exists|other: SyncSessionId| #[trigger]
                s.waiting.contains(other) && other != id && s.session_nodes.contains_key(other)
                    && s.session_nodes[other] == node_id;
            let resumed = s.pending.contains_key(node_id) && !awaited;
            &&& forall|other: NodeId| #[trigger]
                final(state)@.pending.contains_key(other) <==> s.pending.contains_key(other) && !(
                resumed && other == node_id)
            &&& forall|other: NodeId| #[trigger]
                final(state)@.pending.contains_key(other) ==> final(state)@.pending[other]
                    == s.pending[other]
            &&& resumed && s.active.contains(node_id) ==> after == (AfterEnd::<T, C, R>::Authorise {
                node_id,
                topic: s.topic,
                live_mode: s.pending[node_id],
            })
            &&& resumed && !s.active.contains(node_id) ==> after == (AfterEnd::<
                T,
                C,
                R,
            >::ResyncDropped)
            &&& !resumed && end is Terminated ==> after == (AfterEnd::<T, C, R>::Done)
            &&& !resumed && end is Failed && s.active.contains(node_id) ==> after == (AfterEnd::<
                T,
                C,
                R,
            >::PostAfter {
                millis: 5000,
                message: ToTopicManager::Retry { node_id, live_mode: true },
            })
            &&& !resumed && end is Failed && !s.active.contains(node_id) ==> after == (AfterEnd::<
                T,
                C,
                R,
            >::RetrySkipped)
        }),
{
    let s = old(state)@;
    let id = s.actors[actor_id];
    let node_id = s.session_nodes[id];
    let dropped = session_dropped(s, actor_id);
    if exists|other: SyncSessionId| #[trigger]
        s.waiting.contains(other) && other != id && s.session_nodes.contains_key(other)
            && s.session_nodes[other] == node_id {
        let other = choose|other: SyncSessionId| #[trigger]
            s.waiting.contains(other) && other != id && s.session_nodes.contains_key(other)
                && s.session_nodes[other] == node_id;
        assert(dropped.waiting.contains(other));
        assert(sessions_with(dropped, node_id).contains(other));
    }
    if awaits(dropped, node_id) {
        let other = choose|other: SyncSessionId| #[trigger]
            dropped.waiting.contains(other) && sessions_with(
                dropped,
                node_id,
            ).contains(other);
        assert(s.waiting.contains(other) && other != id);
    }
}

/// The fresh session of a replacement is only initiated where the node may still connect, with the
/// arguments of the replacement, and the decision is reported either way.
pub proof fn law_fresh_session_is_authorised<T, C, R>(
    node_id: NodeId,
    topic: Topic,
    live_mode: bool,
    allowed: bool,
    result: (ConnectionAuthoriserEvent, Option<ToTopicManager<T, C, R>>),
)
    requires
        call_ensures(TopicManager::resume::<T, C, R>, (node_id, topic, live_mode, allowed), result),
    ensures
        allowed ==> result.0 == (ConnectionAuthoriserEvent::TopicAllowed { topic, node: node_id }),
        allowed ==> result.1 == Some(
            ToTopicManager::<T, C, R>::Initiate { node_id, topic, live_mode },
        ),
        !allowed ==> result.0 == (ConnectionAuthoriserEvent::TopicBlocked { topic, node: node_id }),
        !allowed ==> result.1 is None,
{
}

/// A replacement is seen through: once the stale sessions of a node were asked to close, a further
/// resync is skipped, and the end of the only stale session asks to authorise a fresh one with the
/// live-mode of the replacement, however it ended.
pub proof fn law_replacement_is_seen_through<T, C, R>(
    replacing: &mut TopicManagerState,
    resyncing: &mut TopicManagerState,
    ending: &mut TopicManagerState,
    node_id: NodeId,
    live_mode: bool,
    fresh: &ResolvedLogs,
    replaced: Effect<T, C, R>,
    topic: Topic,
    other_mode: bool,
    skipped: Effect<T, C, R>,
    actor_id: SessionActorId,
    end: ActorEnd,
    after: AfterEnd<T, C, R>,
)
    requires
        call_ensures(
            TopicManager::replace_stale::<T, C, R>,
            (replacing, node_id, live_mode, fresh),
            replaced,
        ),
        replaced matches Effect::Replace { session_ids } && session_ids@.len() == 1 && old(replacing)@.actors.contains_key(actor_id) && old(replacing)@.actors[actor_id] == session_ids@[0],
        *old(resyncing) == *final(replacing),
        call_ensures(
            TopicManager::handle::<T, C, R>,
            (resyncing, ToTopicManager::Resync { node_id, topic, live_mode: other_mode }),
            skipped,
        ),
        old(ending)@ == final(resyncing)@,
        call_ensures(
            TopicManager::handle_supervisor_evt::<T, C, R>,
            (ending, actor_id, end),
            after,
        ),
    ensures
        skipped == (Effect::<T, C, R>::Skip(SkipReason::ReplacementInFlight)),
        !final(ending)@.pending.contains_key(node_id),
        old(replacing)@.active.contains(node_id) ==> after == (AfterEnd::<T, C, R>::Authorise {
            node_id,
            topic: old(replacing)@.topic,
            live_mode,
        }),
        !old(replacing)@.active.contains(node_id) ==> after == (AfterEnd::<T, C, R>::ResyncDropped),
{
    law_drifted_sessions_are_replaced(replacing, node_id, live_mode, fresh, replaced);
    law_resync_is_decided_by_sessions(resyncing, node_id, topic, other_mode, skipped);
    if let Effect::Replace { session_ids } = replaced {
        assert(session_ids@.contains(session_ids@[0]));
        law_end_is_followed_up(ending, actor_id, end, after);
        assert forall|id: SyncSessionId| #[trigger] session_ids@.contains(id) implies id
            == session_ids@[0] by {}
    }
}

/// Everything which is asked through a handle is about its own topic, and published data is handed on
/// as it is.
pub proof fn law_handle_speaks_of_its_topic<T, C, R>(
    topic: Topic,
    handle: SyncHandle,
    node_id: NodeId,
    data: T,
    told: Topic,
    message: ToTopicManager<T, C, R>,
    subscribe: ToSyncManager,
    initiate: ToSyncManager,
    resync: ToSyncManager,
    close: ToSyncManager,
)
    requires
        call_ensures(SyncHandle::new, (topic,), handle),
        call_ensures(SyncHandle::topic, (&handle,), told),
        call_ensures(SyncHandle::publish::<T, C, R>, (&handle, data), message),
        call_ensures(SyncHandle::subscribe, (&handle,), subscribe),
        call_ensures(SyncHandle::initiate_session, (&handle, node_id), initiate),
        call_ensures(SyncHandle::resync, (&handle, node_id), resync),
        call_ensures(SyncHandle::close, (&handle,), close),
    ensures
        told == topic,
        message == (ToTopicManager::<T, C, R>::Publish(data)),
        subscribe == ToSyncManager::Subscribe(topic),
        initiate == ToSyncManager::InitiateSync(topic, node_id),
        resync == ToSyncManager::Resync(topic, node_id),
        close == ToSyncManager::Close(topic),
{
}

/// A subscription is made of the stream which was found for the handle's topic, and of nothing else.
pub proof fn law_subscription_hands_out_stream<S>(
    topic: Topic,
    handle: SyncHandle,
    answer: Result<Option<S>, String>,
    result: Result<SyncSubscription<S>, SyncHandleError>,
)
    requires
        call_ensures(SyncHandle::new, (topic,), handle),
        call_ensures(SyncHandle::subscribed::<S>, (&handle, answer), result),
    ensures
        answer matches Ok(Some(stream)) ==> (result matches Ok(subscription) && (forall|told: Topic|
            call_ensures(SyncSubscription::<S>::topic, (&subscription,), told) ==> told == topic)
            && (forall|handed: S|
            call_ensures(SyncSubscription::<S>::into_stream, (subscription,), handed) ==> handed
                == stream)),
        answer matches Ok(None) ==> (result matches Err(error) && error is StreamNotFound),
        answer matches Err(reason) ==> (result matches Err(error) && error
            == SyncHandleError::ActorRpc(reason)),
{
}

/// Dropping a handle closes its topic, unless the request to close it could be sent before.
pub proof fn law_dropped_handle_closes_topic(
    topic: Topic,
    handle: SyncHandle,
    closing: &mut SyncHandle,
    sent: Result<(), String>,
    result: Result<(), SyncHandleError>,
    unused: Option<ToSyncManager>,
    used: Option<ToSyncManager>,
)
    requires
        call_ensures(SyncHandle::new, (topic,), handle),
        call_ensures(SyncHandle::dropped, (&handle,), unused),
        *old(closing) == handle,
        call_ensures(SyncHandle::close_sent, (closing, sent), result),
        call_ensures(SyncHandle::dropped, (final(closing),), used),
    ensures
        unused == Some(ToSyncManager::Close(topic)),
        sent is Ok ==> result is Ok && used is None,
        sent matches Err(reason) ==> {
            &&& result == Err::<(), SyncHandleError>(SyncHandleError::Close(reason))
            &&& used == Some(ToSyncManager::Close(topic))
        },
{
}

/// Errors of a handle are described by their reasons.
pub proof fn law_handle_errors_are_described(error: &SyncHandleError, message: String)
    requires
        call_ensures(SyncHandleError::message, (error,), message),
    ensures
        *error matches SyncHandleError::ActorRpc(reason) ==> message@ == reason@,
        *error matches SyncHandleError::Publish(reason) ==> message@ == reason@,
        *error matches SyncHandleError::Close(reason) ==> message@ == reason@,
        *error is StreamNotFound ==> message@ == "no stream exists for the given topic"@,
{
}

/// Resolved logs are the same exactly where every author has the same logs in the same order in both.
pub proof fn law_same_logs_agree_on_every_author(
    left: &ResolvedLogs,
    right: &ResolvedLogs,
    same: bool,
)
    requires
        call_ensures(ResolvedLogs::same, (left, right), same),
    ensures
        same <==> forall|author: VerifyingKey|
            (#[trigger] left@.contains_key(author) <==> right@.contains_key(author)) && (
            left@.contains_key(author) ==> left@[author] == right@[author]),
{
    if forall|author: VerifyingKey|
        (#[trigger] left@.contains_key(author) <==> right@.contains_key(author)) && (
        left@.contains_key(author) ==> left@[author] == right@[author]) {
        assert(left@ =~= right@);
    }
}

/// The logs of an author are those which were set last for it, those of others stay.
pub proof fn law_logs_are_set_by_author(
    fresh: ResolvedLogs,
    logs: &mut ResolvedLogs,
    author: VerifyingKey,
    ids: Vec<LogId>,
)
    requires
        call_ensures(ResolvedLogs::new, (), fresh),
        call_ensures(ResolvedLogs::insert, (logs, author, ids), ()),
    ensures
        forall|other: VerifyingKey| !#[trigger] fresh@.contains_key(other),
        final(logs)@.contains_key(author),
        final(logs)@[author] == ids@,
        forall|other: VerifyingKey|
            other != author ==> (#[trigger] final(logs)@.contains_key(other) <==> old(logs)@.contains_key(other)) && final(logs)@[other] == old(logs)@[other],
{
}

/// Whether a node is idle is a matter of its registered sessions.
proof fn lemma_running(s: Sessions, node_id: NodeId)
    ensures
        (exists|id: SyncSessionId| #[trigger]
            s.session_nodes.contains_key(id) && s.session_nodes[id] == node_id)
            <==> !idle(s, node_id),
{
    if exists|id: SyncSessionId| #[trigger]
        s.session_nodes.contains_key(id) && s.session_nodes[id] == node_id {
        let id = choose|id: SyncSessionId| #[trigger]
            s.session_nodes.contains_key(id) && s.session_nodes[id] == node_id;
        assert(sessions_with(s, node_id).contains(id));
    }
}

} // verus!
