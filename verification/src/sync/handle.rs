//! Handle onto the synchronisation of a topic.

use crate::sync::topic_manager::ToTopicManager;
use crate::types::{NodeId, Topic};
use vstd::prelude::*;

verus! {

/// Requests to whoever manages the synchronisation of all topics.
#[derive(Clone, Copy, Debug, PartialEq, Eq, Structural)]
pub enum ToSyncManager {
    /// Subscribe to the events of a topic.
    Subscribe(Topic),

    /// Initiate a session with a node over a topic.
    InitiateSync(Topic, NodeId),

    /// Resync with a node over a topic.
    Resync(Topic, NodeId),

    /// Close everything related to a topic.
    Close(Topic),
}

/// Errors of a handle.
#[derive(Debug)]
pub enum SyncHandleError {
    /// The request could not be answered.
    ActorRpc(String),

    /// Data could not be handed to the topic's sessions.
    Publish(String),

    /// No stream exists for the given topic.
    StreamNotFound,

    /// The topic could not be closed.
    Close(String),
}

impl SyncHandleError {
    /// Describes the error to humans.
    pub fn message(&self) -> (message: String)
        ensures
            message@ == match *self {
                SyncHandleError::ActorRpc(reason) => reason@,
                SyncHandleError::Publish(reason) => reason@,
                SyncHandleError::StreamNotFound => "no stream exists for the given topic"@,
                SyncHandleError::Close(reason) => reason@,
            },
    {
        match self {
            SyncHandleError::ActorRpc(reason) => reason.clone(),
            SyncHandleError::Publish(reason) => reason.clone(),
            SyncHandleError::StreamNotFound => "no stream exists for the given topic".to_owned(),
            SyncHandleError::Close(reason) => reason.clone(),
        }
    }
}

/// Handle onto a topic: publishes into it, subscribes to it and closes it.
///
/// Dropping a handle closes the topic, unless that has happened already.
#[derive(Debug)]
pub struct SyncHandle {
    topic: Topic,
    has_closed: bool,
}

impl SyncHandle {
    /// The topic of this handle.
    pub closed spec fn about(&self) -> Topic {
        self.topic
    }

    /// Whether the topic was closed through this handle.
    pub closed spec fn closed(&self) -> bool {
        self.has_closed
    }

    pub fn new(topic: Topic) -> (handle: Self)
        ensures
            handle.about() == topic,
            !handle.closed(),
    {
        SyncHandle { topic, has_closed: false }
    }

    /// Topic of this handle.
    pub fn topic(&self) -> (topic: Topic)
        ensures
            topic == self.about(),
    {
        self.topic
    }

    /// Publishes data to all sessions of the topic.
    pub fn publish<T, C, R>(&self, data: T) -> (message: ToTopicManager<T, C, R>)
        ensures
            message == ToTopicManager::<T, C, R>::Publish(data),
    {
        ToTopicManager::Publish(data)
    }

    /// Asks for the events of the topic.
    pub fn subscribe(&self) -> (request: ToSyncManager)
        ensures
            request == ToSyncManager::Subscribe(self.about()),
    {
        ToSyncManager::Subscribe(self.topic)
    }

    /// Makes a subscription from what came of asking for the events of the topic.
    pub fn subscribed<S>(&self, answer: Result<Option<S>, String>) -> (result: Result<
        SyncSubscription<S>,
        SyncHandleError,
    >)
        ensures
            match answer {
                Ok(Some(stream)) => {
                    &&& result matches Ok(subscription)
                    &&& subscription.about() == self.about()
                    &&& subscription.events() == stream
                },
                Ok(None) => result == Err::<SyncSubscription<S>, SyncHandleError>(
                    SyncHandleError::StreamNotFound,
                ),
                Err(reason) => result == Err::<SyncSubscription<S>, SyncHandleError>(
                    SyncHandleError::ActorRpc(reason),
                ),
            },
    {
        match answer {
            Ok(Some(stream)) => Ok(SyncSubscription::new(self.topic, stream)),
            Ok(None) => Err(SyncHandleError::StreamNotFound),
            Err(reason) => Err(SyncHandleError::ActorRpc(reason)),
        }
    }

    /// Asks to initiate a session with a node.
    pub fn initiate_session(&self, node_id: NodeId) -> (request: ToSyncManager)
        ensures
            request == ToSyncManager::InitiateSync(self.about(), node_id),
    {
        ToSyncManager::InitiateSync(self.topic, node_id)
    }

    /// Asks to resync with a node.
    pub fn resync(&self, node_id: NodeId) -> (request: ToSyncManager)
        ensures
            request == ToSyncManager::Resync(self.about(), node_id),
    {
        ToSyncManager::Resync(self.topic, node_id)
    }

    /// Asks to close the topic.
    pub fn close(&self) -> (request: ToSyncManager)
        ensures
            request == ToSyncManager::Close(self.about()),
    {
        ToSyncManager::Close(self.topic)
    }

    /// Takes note of whether the request to close the topic could be sent.
    pub fn close_sent(&mut self, sent: Result<(), String>) -> (result: Result<(), SyncHandleError>)
        ensures
            final(self).about() == old(self).about(),
            match sent {
                Ok(()) => final(self).closed() && result is Ok,
                Err(reason) => {
                    &&& final(self).closed() == old(self).closed()
                    &&& result == Err::<(), SyncHandleError>(SyncHandleError::Close(reason))
                },
            },
    {
        match sent {
            Ok(()) => {
                self.has_closed = true;
                Ok(())
            },
            Err(reason) => Err(SyncHandleError::Close(reason)),
        }
    }

    /// What has to be requested when the handle is dropped.
    pub fn dropped(&self) -> (request: Option<ToSyncManager>)
        ensures
            request == if self.closed() {
                None
            } else {
                Some(ToSyncManager::Close(self.about()))
            },
    {
        if self.has_closed {
            None
        } else {
            Some(ToSyncManager::Close(self.topic))
        }
    }
}

/// The events of a topic, `S` being the stream they come from.
#[derive(Debug)]
pub struct SyncSubscription<S> {
    topic: Topic,
    stream: S,
}

impl<S> SyncSubscription<S> {
    /// The topic of this subscription.
    pub closed spec fn about(&self) -> Topic {
        self.topic
    }

    /// Where the events come from.
    pub closed spec fn events(&self) -> S {
        self.stream
    }

    pub fn new(topic: Topic, stream: S) -> (subscription: Self)
        ensures
            subscription.about() == topic,
            subscription.events() == stream,
    {
        SyncSubscription { topic, stream }
    }

    /// Topic of this subscription.
    pub fn topic(&self) -> (topic: Topic)
        ensures
            topic == self.about(),
    {
        self.topic
    }

    /// Hands out where the events come from.
    pub fn into_stream(self) -> (stream: S)
        ensures
            stream == self.events(),
    {
        self.stream
    }
}

} // verus!
