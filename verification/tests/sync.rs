use p2panda::sync::handle::{SyncHandle, SyncHandleError, ToSyncManager};
use p2panda::sync::logs::ResolvedLogs;
use p2panda::sync::topic_manager::{
    ActorEnd, AfterEnd, ConnectionAuthoriserEvent, Effect, SessionRole, SkipReason, ToTopicManager,
    TopicManager, TopicManagerState,
};
use p2panda::types::{LogId, NodeId, Topic, VerifyingKey};

const TOPIC: Topic = Topic { high: 1, low: 1 };
const OTHER_TOPIC: Topic = Topic { high: 2, low: 2 };
const BOB: NodeId = VerifyingKey { high: 0, low: 1 };
const CLAIRE: NodeId = VerifyingKey { high: 0, low: 2 };

type Message = ToTopicManager<&'static str, &'static str, &'static str>;
type Effects = Effect<&'static str, &'static str, &'static str>;
type Ended = AfterEnd<&'static str, &'static str, &'static str>;

fn handle(state: &mut TopicManagerState, message: Message) -> Effects {
    TopicManager::handle(state, message)
}

fn end(state: &mut TopicManagerState, actor_id: u64, end: ActorEnd) -> Ended {
    TopicManager::handle_supervisor_evt(state, actor_id, end)
}

fn initiate(node_id: NodeId) -> Message {
    ToTopicManager::Initiate {
        node_id,
        topic: TOPIC,
        live_mode: true,
    }
}

fn resync(node_id: NodeId) -> Message {
    ToTopicManager::Resync {
        node_id,
        topic: TOPIC,
        live_mode: true,
    }
}

/// Initiates a session and registers it under the given actor.
fn start(state: &mut TopicManagerState, actor_id: u64, node_id: NodeId) -> u64 {
    match handle(state, initiate(node_id)) {
        Effect::StartSession { config, role } => {
            assert_eq!(config.remote, node_id);
            assert_eq!(config.topic, TOPIC);
            assert!(config.live_mode);
            assert!(matches!(role, SessionRole::Initiate));
            TopicManager::new_session(state, actor_id, node_id, config.topic)
        }
        other => panic!("expected a session, got {other:?}"),
    }
}

/// Accepts a session and registers it under the given actor.
fn accept(state: &mut TopicManagerState, actor_id: u64, node_id: NodeId) -> u64 {
    let message = ToTopicManager::Accept {
        node_id,
        topic: TOPIC,
        live_mode: true,
        connection: "connection",
    };
    match handle(state, message) {
        Effect::StartSession { config, role } => {
            assert!(matches!(role, SessionRole::Accept("connection")));
            TopicManager::new_session(state, actor_id, node_id, config.topic)
        }
        other => panic!("expected a session, got {other:?}"),
    }
}

fn logs(ids: &[u128]) -> ResolvedLogs {
    let mut logs = ResolvedLogs::new();
    logs.insert(
        BOB,
        ids.iter().map(|low| LogId { high: 0, low: *low }).collect(),
    );
    logs
}

fn caught_up(state: &mut TopicManagerState, session_id: u64, ids: &[u128]) {
    state.record_event(session_id, false, Some(logs(ids)));
    state.record_event(session_id, true, None);
}

fn replace(state: &mut TopicManagerState, node_id: NodeId, ids: &[u128]) -> Effects {
    match handle(state, resync(node_id)) {
        Effect::ResolveLogs {
            node_id,
            topic,
            live_mode,
        } => {
            assert_eq!(topic, TOPIC);
            TopicManager::replace_stale(state, node_id, live_mode, &logs(ids))
        }
        other => panic!("expected to resolve logs, got {other:?}"),
    }
}

fn sorted(mut ids: Vec<u64>) -> Vec<u64> {
    ids.sort();
    ids
}

#[test]
fn failed_sync_session_retry() {
    let mut state = TopicManagerState::new(TOPIC);
    assert_eq!(start(&mut state, 100, BOB), 0);

    let (delay, retry) = match end(&mut state, 100, ActorEnd::Failed) {
        AfterEnd::PostAfter { millis, message } => (millis, message),
        other => panic!("expected a retry, got {other:?}"),
    };
    assert_eq!(delay, 5000);

    // The retried session gets the next id.
    match handle(&mut state, retry) {
        Effect::StartSession { config, .. } => {
            assert_eq!(config.remote, BOB);
            assert_eq!(config.topic, TOPIC);
            assert!(config.live_mode);
            let id = TopicManager::new_session(&mut state, 101, BOB, config.topic);
            assert_eq!(id, 1);
        }
        other => panic!("expected a session, got {other:?}"),
    }
}

#[test]
fn graceful_session_end_is_not_retried_but_manual_resync_recovers() {
    let mut state = TopicManagerState::new(TOPIC);
    assert_eq!(start(&mut state, 100, BOB), 0);
    assert!(matches!(
        end(&mut state, 100, ActorEnd::Terminated),
        AfterEnd::Done
    ));
    assert_eq!(start(&mut state, 101, BOB), 1);
}

#[test]
fn resync_skips_while_catch_up_in_progress() {
    let mut state = TopicManagerState::new(TOPIC);
    start(&mut state, 100, BOB);
    for _ in 0..5 {
        assert!(matches!(
            handle(&mut state, resync(BOB)),
            Effect::Skip(SkipReason::CatchUpInProgress)
        ));
    }
}

#[test]
fn resync_with_no_live_session_creates_one() {
    let mut state = TopicManagerState::new(TOPIC);
    let mut messages = match handle(&mut state, resync(BOB)) {
        Effect::Post { messages } => messages,
        other => panic!("expected a message, got {other:?}"),
    };
    assert_eq!(messages.len(), 1);
    match handle(&mut state, messages.remove(0)) {
        Effect::StartSession { config, .. } => {
            assert_eq!(config.remote, BOB);
            let id = TopicManager::new_session(&mut state, 100, BOB, config.topic);
            assert_eq!(id, 0);
        }
        other => panic!("expected a session, got {other:?}"),
    }
}

#[test]
fn close_during_pending_resync_does_not_resurrect_session() {
    let mut state = TopicManagerState::new(TOPIC);
    let session = start(&mut state, 100, BOB);
    caught_up(&mut state, session, &[1]);
    assert!(matches!(
        replace(&mut state, BOB, &[1, 2]),
        Effect::Replace { .. }
    ));

    let closed = handle(
        &mut state,
        ToTopicManager::Close {
            node_id: BOB,
            reply: "closed",
        },
    );
    match closed {
        Effect::Close { session_ids, reply } => {
            assert_eq!(session_ids, vec![session]);
            assert_eq!(reply, "closed");
        }
        other => panic!("expected to close, got {other:?}"),
    }
    assert!(matches!(
        end(&mut state, 100, ActorEnd::Terminated),
        AfterEnd::Done
    ));
}

#[test]
fn deferred_resync_respects_authoriser() {
    let mut state = TopicManagerState::new(TOPIC);
    let session = start(&mut state, 100, BOB);
    caught_up(&mut state, session, &[1]);
    replace(&mut state, BOB, &[1, 2]);
    match end(&mut state, 100, ActorEnd::Terminated) {
        AfterEnd::Authorise {
            node_id,
            topic,
            live_mode,
        } => {
            let (event, message) = TopicManager::resume::<(), (), ()>(node_id, topic, live_mode, false);
            assert_eq!(
                event,
                ConnectionAuthoriserEvent::TopicBlocked {
                    topic: TOPIC,
                    node: BOB
                }
            );
            assert!(message.is_none());

            let (event, message) = TopicManager::resume::<(), (), ()>(node_id, topic, live_mode, true);
            assert_eq!(
                event,
                ConnectionAuthoriserEvent::TopicAllowed {
                    topic: TOPIC,
                    node: BOB
                }
            );
            assert!(matches!(
                message,
                Some(ToTopicManager::Initiate {
                    node_id: BOB,
                    topic: TOPIC,
                    live_mode: true
                })
            ));
        }
        other => panic!("expected to ask the authoriser, got {other:?}"),
    }
}

#[test]
fn association_change_replaces_only_stale_session() {
    let mut state = TopicManagerState::new(TOPIC);
    let with_bob = start(&mut state, 100, BOB);
    let with_claire = start(&mut state, 101, CLAIRE);
    caught_up(&mut state, with_bob, &[1]);
    caught_up(&mut state, with_claire, &[1, 2]);

    let messages = match handle(&mut state, ToTopicManager::AssociationChanged) {
        Effect::Post { messages } => messages,
        other => panic!("expected messages, got {other:?}"),
    };
    let mut asked: Vec<NodeId> = Vec::new();
    for message in messages {
        match message {
            ToTopicManager::Resync {
                node_id,
                topic,
                live_mode,
            } => {
                assert_eq!(topic, TOPIC);
                assert!(live_mode);
                asked.push(node_id);
            }
            other => panic!("expected a resync, got {other:?}"),
        }
    }
    assert_eq!(asked.len(), 2);
    assert!(asked.contains(&BOB) && asked.contains(&CLAIRE));

    match replace(&mut state, BOB, &[1, 2]) {
        Effect::Replace { session_ids } => assert_eq!(session_ids, vec![with_bob]),
        other => panic!("expected a replacement, got {other:?}"),
    }
    assert!(matches!(
        replace(&mut state, CLAIRE, &[1, 2]),
        Effect::Skip(SkipReason::LogsUnchanged)
    ));
}

#[test]
fn resync_timer_noop_when_unchanged() {
    let mut state = TopicManagerState::new(TOPIC);
    let session = start(&mut state, 100, BOB);
    caught_up(&mut state, session, &[1, 2]);
    for _ in 0..3 {
        assert!(matches!(
            replace(&mut state, BOB, &[1, 2]),
            Effect::Skip(SkipReason::LogsUnchanged)
        ));
    }
}

#[test]
fn session_without_baseline_is_not_stale() {
    let mut state = TopicManagerState::new(TOPIC);
    let session = start(&mut state, 100, BOB);
    state.record_event(session, true, None);
    assert!(matches!(
        replace(&mut state, BOB, &[1]),
        Effect::Skip(SkipReason::LogsUnchanged)
    ));
}

#[test]
fn second_resync_waits_for_first_replacement() {
    let mut state = TopicManagerState::new(TOPIC);
    let session = start(&mut state, 100, BOB);
    caught_up(&mut state, session, &[1]);
    replace(&mut state, BOB, &[1, 2]);
    assert!(matches!(
        handle(&mut state, resync(BOB)),
        Effect::Skip(SkipReason::ReplacementInFlight)
    ));
}

#[test]
fn replacement_waits_for_every_stale_session() {
    let mut state = TopicManagerState::new(TOPIC);
    let first = start(&mut state, 100, BOB);
    let second = accept(&mut state, 101, BOB);
    caught_up(&mut state, first, &[1]);
    caught_up(&mut state, second, &[1]);
    match replace(&mut state, BOB, &[1, 2]) {
        Effect::Replace { session_ids } => {
            assert_eq!(sorted(session_ids), vec![first, second]);
        }
        other => panic!("expected a replacement, got {other:?}"),
    }
    assert!(matches!(
        end(&mut state, 100, ActorEnd::Terminated),
        AfterEnd::Done
    ));
    // A failed session resumes the replacement just as well.
    assert!(matches!(
        end(&mut state, 101, ActorEnd::Failed),
        AfterEnd::Authorise {
            node_id: BOB,
            topic: TOPIC,
            live_mode: true
        }
    ));
    assert_eq!(start(&mut state, 102, BOB), 2);
}

#[test]
fn other_nodes_keep_their_replacement() {
    let mut state = TopicManagerState::new(TOPIC);
    let with_bob = start(&mut state, 100, BOB);
    let with_claire = start(&mut state, 101, CLAIRE);
    caught_up(&mut state, with_bob, &[1]);
    caught_up(&mut state, with_claire, &[1]);
    replace(&mut state, BOB, &[1, 2]);
    replace(&mut state, CLAIRE, &[1, 2]);

    // Closing one node and the end of its session leave the other replacement in flight.
    handle(
        &mut state,
        ToTopicManager::Close {
            node_id: BOB,
            reply: "",
        },
    );
    end(&mut state, 100, ActorEnd::Terminated);
    assert!(matches!(
        handle(&mut state, resync(CLAIRE)),
        Effect::Skip(SkipReason::ReplacementInFlight)
    ));
    assert!(matches!(
        end(&mut state, 101, ActorEnd::Terminated),
        AfterEnd::Authorise {
            node_id: CLAIRE,
            ..
        }
    ));
}

#[test]
fn initiate_is_skipped_while_a_session_runs() {
    let mut state = TopicManagerState::new(TOPIC);
    start(&mut state, 100, BOB);
    assert!(matches!(
        handle(&mut state, initiate(BOB)),
        Effect::Skip(SkipReason::SessionRunning)
    ));
    assert!(matches!(
        handle(
            &mut state,
            ToTopicManager::Retry {
                node_id: BOB,
                live_mode: true
            }
        ),
        Effect::Skip(SkipReason::SessionRunning)
    ));
    assert_eq!(start(&mut state, 101, CLAIRE), 1);
}

#[test]
fn retry_is_skipped_for_inactive_node() {
    let mut state = TopicManagerState::new(TOPIC);
    assert!(matches!(
        handle(
            &mut state,
            ToTopicManager::Retry {
                node_id: BOB,
                live_mode: true
            }
        ),
        Effect::Skip(SkipReason::NodeInactive)
    ));

    // Accepting a session does not make a node active.
    accept(&mut state, 100, BOB);
    assert!(matches!(
        end(&mut state, 100, ActorEnd::Failed),
        AfterEnd::RetrySkipped
    ));
}

#[test]
fn replacement_is_dropped_for_inactive_node() {
    let mut state = TopicManagerState::new(TOPIC);
    let session = accept(&mut state, 100, BOB);
    caught_up(&mut state, session, &[1]);
    replace(&mut state, BOB, &[2]);
    assert!(matches!(
        end(&mut state, 100, ActorEnd::Terminated),
        AfterEnd::ResyncDropped
    ));
}

#[test]
fn publish_reaches_all_sessions_of_the_topic() {
    let mut state = TopicManagerState::new(TOPIC);
    let first = start(&mut state, 100, BOB);
    let second = start(&mut state, 101, CLAIRE);
    TopicManager::new_session(&mut state, 102, BOB, OTHER_TOPIC);
    match handle(&mut state, ToTopicManager::Publish("data")) {
        Effect::Forward { session_ids, data } => {
            assert_eq!(sorted(session_ids), vec![first, second]);
            assert_eq!(data, "data");
        }
        other => panic!("expected to forward, got {other:?}"),
    }
}

#[test]
fn close_all_cancels_everything() {
    let mut state = TopicManagerState::new(TOPIC);
    let first = start(&mut state, 100, BOB);
    let second = start(&mut state, 101, CLAIRE);
    caught_up(&mut state, first, &[1]);
    replace(&mut state, BOB, &[2]);
    match handle(&mut state, ToTopicManager::CloseAll("done")) {
        Effect::Close { session_ids, reply } => {
            assert_eq!(sorted(session_ids), vec![first, second]);
            assert_eq!(reply, "done");
        }
        other => panic!("expected to close, got {other:?}"),
    }
    assert!(matches!(
        end(&mut state, 100, ActorEnd::Terminated),
        AfterEnd::Done
    ));
    assert!(matches!(
        end(&mut state, 101, ActorEnd::Failed),
        AfterEnd::RetrySkipped
    ));
    match handle(&mut state, ToTopicManager::AssociationChanged) {
        Effect::Post { messages } => assert!(messages.is_empty()),
        other => panic!("expected no messages, got {other:?}"),
    }
}

#[test]
fn close_spares_sessions_over_other_topics() {
    let mut state = TopicManagerState::new(TOPIC);
    let session = start(&mut state, 100, BOB);
    TopicManager::new_session(&mut state, 101, BOB, OTHER_TOPIC);
    match handle(
        &mut state,
        ToTopicManager::Close {
            node_id: BOB,
            reply: "",
        },
    ) {
        Effect::Close { session_ids, .. } => assert_eq!(session_ids, vec![session]),
        other => panic!("expected to close, got {other:?}"),
    }
}

#[test]
fn unknown_actor_has_no_session() {
    let mut state = TopicManagerState::new(TOPIC);
    assert!(matches!(
        end(&mut state, 100, ActorEnd::Failed),
        AfterEnd::NoSession
    ));
}

#[test]
fn resolved_logs_are_compared_by_content() {
    let mut left = logs(&[1, 2]);
    let mut right = ResolvedLogs::new();
    assert!(!left.same(&right));
    right.insert(CLAIRE, vec![]);
    right.insert(BOB, vec![LogId { high: 0, low: 1 }, LogId { high: 0, low: 2 }]);
    assert!(!left.same(&right));
    left.insert(CLAIRE, vec![]);
    assert!(left.same(&right));
    right.insert(BOB, vec![LogId { high: 0, low: 2 }, LogId { high: 0, low: 1 }]);
    assert!(!left.same(&right));
}

#[test]
fn handle_asks_for_its_topic() {
    let handle = SyncHandle::new(TOPIC);
    assert_eq!(handle.topic(), TOPIC);
    assert_eq!(handle.subscribe(), ToSyncManager::Subscribe(TOPIC));
    assert_eq!(
        handle.initiate_session(BOB),
        ToSyncManager::InitiateSync(TOPIC, BOB)
    );
    assert_eq!(handle.resync(BOB), ToSyncManager::Resync(TOPIC, BOB));
    assert!(matches!(
        handle.publish::<&str, (), ()>("data"),
        ToTopicManager::Publish("data")
    ));
}

#[test]
fn dropped_handle_closes_its_topic_once() {
    let mut handle = SyncHandle::new(TOPIC);
    assert_eq!(handle.dropped(), Some(ToSyncManager::Close(TOPIC)));
    assert_eq!(handle.close(), ToSyncManager::Close(TOPIC));

    let error = handle.close_sent(Err("gone".to_string())).unwrap_err();
    assert_eq!(error.message(), "gone");
    assert_eq!(handle.dropped(), Some(ToSyncManager::Close(TOPIC)));

    assert!(handle.close_sent(Ok(())).is_ok());
    assert_eq!(handle.dropped(), None);
}

#[test]
fn subscription_needs_a_stream() {
    let handle = SyncHandle::new(TOPIC);
    let subscription = handle.subscribed(Ok(Some("events"))).unwrap();
    assert_eq!(subscription.topic(), TOPIC);
    assert_eq!(subscription.into_stream(), "events");

    let error = handle.subscribed::<()>(Ok(None)).unwrap_err();
    assert!(matches!(error, SyncHandleError::StreamNotFound));
    assert_eq!(error.message(), "no stream exists for the given topic");

    let error = handle.subscribed::<()>(Err("no reply".to_string())).unwrap_err();
    assert!(matches!(error, SyncHandleError::ActorRpc(_)));
}
