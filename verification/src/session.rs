//! One subscriber session: the phase machine of its lifetime and the
//! dispatch of its ingress events into broker and room actions. The wire,
//! the tasks and the channels live outside; the library decides, the
//! process performs.

use crate::models::{ConsumedMessage, SubscribeMessage};
use vstd::prelude::*;

verus! {

/// Relies on uuid::Uuid::new_v4 and its Display impl: a fresh random
/// UUID, formatted as the 36-character hyphenated lower-case form.
#[verifier::external_body]
fn new_session_id() -> (r: String)
    ensures
        r@.len() == 36,
{
    uuid::Uuid::new_v4().to_string()
}

/// The phases of a session's lifetime. `Active` accepts ingress and
/// egress; `Draining` accepts no more ingress and lets egress drain;
/// `Closed` is terminal.
#[derive(Debug, Clone, Copy, PartialEq, Eq, Structural)]
pub enum SessionPhase {
    Connecting,
    Active,
    Draining,
    Closed,
}

/// One parsed frame read off the subscriber transport. Anything that is
/// not a recognized event is `Unknown` and is ignored.
#[derive(Debug, PartialEq, Eq)]
pub enum IngressEvent {
    Subscribe { request: SubscribeMessage },
    Consumed { receipt: ConsumedMessage },
    Unknown,
}

/// Ghost image of one session action.
#[verifier::ext_equal]
pub enum ActionV {
    Register { consumer: Seq<char>, topic: Seq<char> },
    JoinRoom { room: Seq<char> },
    LeaveAllRooms,
    SaveConsumption {
        consumer: Seq<char>,
        topic: Seq<char>,
        message_id: Seq<char>,
        message: Seq<char>,
    },
    Unregister,
}

/// What the process must do on the session's behalf: register or
/// unregister it with the broker, move it between rooms, or record a
/// consumption.
#[derive(Debug, PartialEq, Eq)]
pub enum SessionAction {
    Register { consumer: String, topic: String },
    JoinRoom { room: String },
    LeaveAllRooms,
    SaveConsumption { consumer: String, topic: String, message_id: String, message: String },
    Unregister,
}

impl View for SessionAction {
    type V = ActionV;

    open spec fn view(&self) -> ActionV {
        match self {
            SessionAction::Register { consumer, topic } => ActionV::Register {
                consumer: consumer@,
                topic: topic@,
            },
            SessionAction::JoinRoom { room } => ActionV::JoinRoom { room: room@ },
            SessionAction::LeaveAllRooms => ActionV::LeaveAllRooms,
            SessionAction::SaveConsumption { consumer, topic, message_id, message } => ActionV::SaveConsumption {
                consumer: consumer@,
                topic: topic@,
                message_id: message_id@,
                message: message@,
            },
            SessionAction::Unregister => ActionV::Unregister,
        }
    }
}

impl DeepView for SessionAction {
    type V = ActionV;

    open spec fn deep_view(&self) -> ActionV {
        self.view()
    }
}

/// The actions one subscribed topic asks for: register the subscription,
/// then either move to the wildcard room or join the topic's room.
pub open spec fn topic_actions(consumer: Seq<char>, topic: Seq<char>) -> Seq<ActionV> {
    if topic == crate::router::wildcard_topic() {
        seq![
            ActionV::Register { consumer, topic },
            ActionV::LeaveAllRooms,
            ActionV::JoinRoom { room: crate::router::wildcard_room() },
        ]
    } else {
        seq![
            ActionV::Register { consumer, topic },
            ActionV::JoinRoom { room: topic },
        ]
    }
}

/// The actions of a whole subscribe request, topic by topic in order.
pub open spec fn subscribe_actions(consumer: Seq<char>, topics: Seq<Seq<char>>) -> Seq<ActionV>
    decreases topics.len(),
{
    if topics.len() == 0 {
        Seq::empty()
    } else {
        subscribe_actions(consumer, topics.drop_last()) + topic_actions(consumer, topics.last())
    }
}

/// The actions an ingress event asks for while the session is active.
pub open spec fn dispatch(e: &IngressEvent) -> Seq<ActionV> {
    match e {
        IngressEvent::Subscribe { request } => subscribe_actions(
            request.consumer@,
            request.topics.deep_view(),
        ),
        IngressEvent::Consumed { receipt } => seq![
            ActionV::SaveConsumption {
                consumer: receipt.consumer@,
                topic: receipt.topic@,
                message_id: receipt.message_id@,
                message: receipt.message@,
            },
        ],
        IngressEvent::Unknown => Seq::empty(),
    }
}

/// One subscriber session.
#[derive(Debug, PartialEq, Eq)]
pub struct Session {
    pub sid: String,
    pub phase: SessionPhase,
}

impl Session {
    /// Accept a connection: a fresh opaque session id, not yet active.
    pub fn open() -> (s: Session)
        ensures
            s.phase == SessionPhase::Connecting,
            s.sid@.len() == 36,
    {
        Session { sid: new_session_id(), phase: SessionPhase::Connecting }
    }

    /// The session's tasks are up: it now accepts ingress and egress.
    pub fn activate(&mut self)
        requires
            old(self).phase == SessionPhase::Connecting,
        ensures
            final(self).phase == SessionPhase::Active,
            final(self).sid == old(self).sid,
    {
        self.phase = SessionPhase::Active;
    }

    /// Dispatch one ingress event: an active session turns it into
    /// actions, any other phase ignores it.
    pub fn on_ingress(&self, event: &IngressEvent) -> (actions: Vec<SessionAction>)
        ensures
            self.phase == SessionPhase::Active ==> actions.deep_view() == dispatch(event),
            self.phase != SessionPhase::Active ==> actions.deep_view() == Seq::<ActionV>::empty(),
    {
        let mut actions: Vec<SessionAction> = Vec::new();
        proof {
            assert(actions.deep_view() =~= Seq::<ActionV>::empty());
        }
        if !matches!(self.phase, SessionPhase::Active) {
            return actions;
        }
        match event {
            IngressEvent::Subscribe { request } => {
                let mut i: usize = 0;
                proof {
                    assert(request.topics.deep_view().take(0) =~= Seq::<Seq<char>>::empty());
                    assert(actions.deep_view() =~= subscribe_actions(
                        request.consumer@,
                        request.topics.deep_view().take(0),
                    ));
                }
                while i < request.topics.len()
                    invariant
                        0 <= i <= request.topics.len(),
                        actions.deep_view() == subscribe_actions(
                            request.consumer@,
                            request.topics.deep_view().take(i as int),
                        ),
                    decreases request.topics.len() - i,
                {
                    let topic = &request.topics[i];
                    let ghost d0 = actions.deep_view();
                    let ghost araw = actions@;
                    let reg = SessionAction::Register {
                        consumer: request.consumer.clone(),
                        topic: topic.clone(),
                    };
                    if crate::models::string_eq(topic, "*") {
                        actions.push(reg);
                        actions.push(SessionAction::LeaveAllRooms);
                        actions.push(
                            SessionAction::JoinRoom { room: "__all__".to_owned() },
                        );
                    } else {
                        actions.push(reg);
                        actions.push(SessionAction::JoinRoom { room: topic.clone() });
                    }
                    proof {
                        let t = request.topics.deep_view()[i as int];
                        assert forall|k: int|
                            0 <= k < actions.deep_view().len() implies actions.deep_view()[k] == (d0
                            + topic_actions(request.consumer@, t))[k] by {
                            if k < d0.len() {
                                assert(actions@[k] == araw[k]);
                            }
                        }
                        assert(actions.deep_view() =~= d0 + topic_actions(request.consumer@, t));
                        assert(request.topics.deep_view().take(i + 1).drop_last()
                            =~= request.topics.deep_view().take(i as int));
                        assert(request.topics.deep_view().take(i + 1).last() == t);
                    }
                    i += 1;
                }
                proof {
                    assert(request.topics.deep_view().take(request.topics@.len() as int)
                        =~= request.topics.deep_view());
                }
            },
            IngressEvent::Consumed { receipt } => {
                actions.push(
                    SessionAction::SaveConsumption {
                        consumer: receipt.consumer.clone(),
                        topic: receipt.topic.clone(),
                        message_id: receipt.message_id.clone(),
                        message: receipt.message.clone(),
                    },
                );
                proof {
                    assert(actions.deep_view() =~= dispatch(event));
                }
            },
            IngressEvent::Unknown => {
                proof {
                    assert(actions.deep_view() =~= dispatch(event));
                }
            },
        }
        actions
    }

    /// The read side closed or erred: stop accepting ingress and ask the
    /// process to unregister the session. Repeating a disconnect is safe
    /// and asks for nothing more.
    pub fn disconnect(&mut self) -> (actions: Vec<SessionAction>)
        ensures
            final(self).sid == old(self).sid,
            (match old(self).phase {
                SessionPhase::Connecting | SessionPhase::Active => final(self).phase
                    == SessionPhase::Draining && actions.deep_view() == seq![ActionV::Unregister],
                SessionPhase::Draining | SessionPhase::Closed => final(self).phase == old(
                    self,
                ).phase && actions.deep_view() == Seq::<ActionV>::empty(),
            }),
    {
        let mut actions: Vec<SessionAction> = Vec::new();
        proof {
            assert(actions.deep_view() =~= Seq::<ActionV>::empty());
        }
        match self.phase {
            SessionPhase::Connecting | SessionPhase::Active => {
                self.phase = SessionPhase::Draining;
                actions.push(SessionAction::Unregister);
                proof {
                    assert(actions.deep_view() =~= seq![ActionV::Unregister]);
                }
            },
            SessionPhase::Draining | SessionPhase::Closed => {},
        }
        actions
    }

    /// The egress writer has stopped: a draining session is closed for
    /// good. `Closed` stays closed.
    pub fn drain_complete(&mut self)
        ensures
            final(self).sid == old(self).sid,
            final(self).phase == (if old(self).phase == SessionPhase::Draining {
                SessionPhase::Closed
            } else {
                old(self).phase
            }),
    {
        if matches!(self.phase, SessionPhase::Draining) {
            self.phase = SessionPhase::Closed;
        }
    }
}

} // verus!
