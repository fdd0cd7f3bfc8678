use relay::batcher::Batcher;
use relay::jsontext::{decode_stored_body, json_escape};
use relay::models::{ConsumedMessage, DbCommand, SubscribeMessage};
use relay::router::Router;
use relay::session::{IngressEvent, Session, SessionAction, SessionPhase};
use relay::BATCH_CAPACITY;

#[test]
fn subscriber_on_topic_receives_only_that_topic() {
    // a session subscribed to T is a delivery target for T, not for T2
    let mut rt = Router::new();
    rt.subscribe_topic(&"s1".to_string(), &"T".to_string());
    let t = rt.deliver_list(&"T".to_string());
    assert_eq!(t, vec!["s1".to_string()]);
    let t2 = rt.deliver_list(&"T2".to_string());
    assert!(t2.is_empty());
}

#[test]
fn wildcard_subscriber_receives_every_topic_in_order() {
    // subscribe with the wildcard, publish to three topics: each delivery
    // reaches the session, through the wildcard room only
    let mut rt = Router::new();
    rt.subscribe_topic(&"s1".to_string(), &"T".to_string());
    rt.subscribe_topic(&"s1".to_string(), &"*".to_string());
    for topic in ["A", "B", "C"] {
        let targets = rt.deliver_list(&topic.to_string());
        assert_eq!(targets, vec!["s1".to_string()]);
    }
    // the earlier per-topic room no longer lists the session
    assert!(rt.deliver_list(&"T".to_string()) == vec!["s1".to_string()]);
    rt.subscribe_topic(&"s2".to_string(), &"T".to_string());
    assert_eq!(rt.deliver_list(&"T".to_string()), vec!["s2".to_string(), "s1".to_string()]);
}

#[test]
fn joining_a_room_twice_adds_one_member() {
    let mut rt = Router::new();
    rt.subscribe_topic(&"s1".to_string(), &"T".to_string());
    rt.subscribe_topic(&"s1".to_string(), &"T".to_string());
    assert_eq!(rt.deliver_list(&"T".to_string()), vec!["s1".to_string()]);
}

#[test]
fn session_opens_with_a_fresh_opaque_id() {
    let s = Session::open();
    assert_eq!(s.phase, SessionPhase::Connecting);
    assert_eq!(s.sid.len(), 36);
}

#[test]
fn active_session_dispatches_subscribe() {
    let mut s = Session::open();
    s.activate();
    let ev = IngressEvent::Subscribe {
        request: SubscribeMessage {
            consumer: "C".to_string(),
            topics: vec!["T".to_string(), "*".to_string()],
        },
    };
    let actions = s.on_ingress(&ev);
    assert_eq!(
        actions,
        vec![
            SessionAction::Register { consumer: "C".to_string(), topic: "T".to_string() },
            SessionAction::JoinRoom { room: "T".to_string() },
            SessionAction::Register { consumer: "C".to_string(), topic: "*".to_string() },
            SessionAction::LeaveAllRooms,
            SessionAction::JoinRoom { room: "__all__".to_string() },
        ]
    );
}

#[test]
fn active_session_dispatches_consumed() {
    let mut s = Session::open();
    s.activate();
    let ev = IngressEvent::Consumed {
        receipt: ConsumedMessage {
            consumer: "C".to_string(),
            topic: "T".to_string(),
            message_id: "m1".to_string(),
            message: "{\"x\":1}".to_string(),
        },
    };
    let actions = s.on_ingress(&ev);
    assert_eq!(
        actions,
        vec![SessionAction::SaveConsumption {
            consumer: "C".to_string(),
            topic: "T".to_string(),
            message_id: "m1".to_string(),
            message: "{\"x\":1}".to_string(),
        }]
    );
}

#[test]
fn unknown_frames_are_ignored() {
    let mut s = Session::open();
    s.activate();
    assert!(s.on_ingress(&IngressEvent::Unknown).is_empty());
}

#[test]
fn disconnect_is_idempotent() {
    let mut s = Session::open();
    s.activate();
    let first = s.disconnect();
    assert_eq!(first, vec![SessionAction::Unregister]);
    assert_eq!(s.phase, SessionPhase::Draining);
    // draining sessions take no more ingress
    assert!(s.on_ingress(&IngressEvent::Unknown).is_empty());
    let again = s.disconnect();
    assert!(again.is_empty());
    s.drain_complete();
    assert_eq!(s.phase, SessionPhase::Closed);
    assert!(s.disconnect().is_empty());
    s.drain_complete();
    assert_eq!(s.phase, SessionPhase::Closed);
}

#[test]
fn batcher_flushes_when_full() {
    let mut b = Batcher::new();
    for i in 0..(BATCH_CAPACITY - 1) {
        let out = b.push(DbCommand::UnregisterClient { sid: format!("s{}", i) });
        assert!(out.is_none());
    }
    let flushed = b
        .push(DbCommand::UnregisterClient { sid: "last".to_string() })
        .expect("the filling push flushes");
    assert_eq!(flushed.len(), BATCH_CAPACITY);
    assert!(matches!(&flushed[0], DbCommand::UnregisterClient { sid } if sid == "s0"));
    assert!(matches!(&flushed[BATCH_CAPACITY - 1], DbCommand::UnregisterClient { sid } if sid == "last"));
    assert_eq!(b.len(), 0);
}

#[test]
fn batcher_tick_drains_in_arrival_order() {
    let mut b = Batcher::new();
    assert!(b.tick().is_none());
    b.push(DbCommand::UnregisterClient { sid: "a".to_string() });
    b.push(DbCommand::UnregisterClient { sid: "b".to_string() });
    let out = b.tick().unwrap();
    assert_eq!(
        out,
        vec![
            DbCommand::UnregisterClient { sid: "a".to_string() },
            DbCommand::UnregisterClient { sid: "b".to_string() },
        ]
    );
    assert!(b.tick().is_none());
}

#[test]
fn escape_handles_quotes_backslashes_and_controls() {
    assert_eq!(json_escape("plain"), "plain");
    assert_eq!(json_escape("a\"b"), "a\\\"b");
    assert_eq!(json_escape("a\\b"), "a\\\\b");
    assert_eq!(json_escape("a\nb\rc\td"), "a\\nb\\rc\\td");
    assert_eq!(json_escape("\u{1}"), "\\u0001");
    assert_eq!(json_escape("\u{1f}"), "\\u001f");
    assert_eq!(json_escape(""), "");
}

#[test]
fn decode_keeps_valid_json_and_wraps_the_rest() {
    assert_eq!(decode_stored_body(&"[1,2,3]".to_string()), "[1,2,3]");
    assert_eq!(decode_stored_body(&"null".to_string()), "null");
    assert_eq!(
        decode_stored_body(&"{broken".to_string()),
        "{\"error\":\"Invalid JSON\",\"raw\":\"{broken\"}"
    );
}
