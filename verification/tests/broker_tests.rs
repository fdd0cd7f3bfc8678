use relay::broker::Broker;
use relay::cache::QueryCache;
use relay::dashboard::{health_answer, DashboardFlag};
use relay::models::{ApiError, BroadcastEvent, ClientInfo, Link, PublishRequest};

fn publish_req(topic: &str, id: &str, body: &str, producer: &str) -> PublishRequest {
    PublishRequest {
        topic: topic.to_string(),
        message_id: id.to_string(),
        message: body.to_string(),
        producer: producer.to_string(),
    }
}

#[test]
fn publish_then_listing_shows_the_message() {
    // publish, let the batcher flush, and the listing holds exactly the
    // published fields with the stamped timestamp
    let mut b = Broker::new();
    let events = b.publish(publish_req("T", "m1", "{\"x\":1}", "P"), 1000).unwrap();
    assert_eq!(events.len(), 1);
    b.tick();
    let msgs = b.get_messages();
    assert_eq!(msgs.len(), 1);
    assert_eq!(msgs[0].topic, "T");
    assert_eq!(msgs[0].message_id, "m1");
    assert_eq!(msgs[0].message, "{\"x\":1}");
    assert_eq!(msgs[0].producer, "P");
    assert_eq!(msgs[0].timestamp, 1000);
}

#[test]
fn publish_with_empty_producer_is_rejected() {
    // a bad request leaves every part of the broker untouched
    let mut b = Broker::new();
    let r = b.publish(publish_req("T", "m1", "{\"x\":1}", ""), 1000);
    assert_eq!(r, Err(ApiError::BadRequest));
    b.tick();
    assert!(b.get_messages().is_empty());
}

#[test]
fn publish_with_empty_topic_or_id_is_rejected() {
    let mut b = Broker::new();
    assert_eq!(b.publish(publish_req("", "m1", "1", "P"), 1).unwrap_err(), ApiError::BadRequest);
    assert_eq!(b.publish(publish_req("T", "", "1", "P"), 1).unwrap_err(), ApiError::BadRequest);
}

#[test]
fn publish_emits_exactly_one_message_event() {
    // one publish: one queued save and one new_message event
    let mut b = Broker::new();
    let events = b.save_message(
        "T".to_string(),
        "m1".to_string(),
        "{\"x\":1}".to_string(),
        "P".to_string(),
        77,
    );
    assert_eq!(
        events,
        vec![BroadcastEvent::NewMessage {
            topic: "T".to_string(),
            message_id: "m1".to_string(),
            message: "{\"x\":1}".to_string(),
            producer: "P".to_string(),
            timestamp: 77,
        }]
    );
    assert_eq!(b.batcher.len(), 1);
}

#[test]
fn register_subscription_updates_registry_and_emits() {
    let mut b = Broker::new();
    let events =
        b.register_subscription("s1".to_string(), "C".to_string(), "T".to_string(), 5);
    assert_eq!(
        events,
        vec![BroadcastEvent::NewClient {
            consumer: "C".to_string(),
            topic: "T".to_string(),
            connected_at: 5,
        }]
    );
    let clients = b.get_clients();
    assert_eq!(
        clients,
        vec![ClientInfo { consumer: "C".to_string(), topic: "T".to_string(), connected_at: 5 }]
    );
}

#[test]
fn register_subscription_with_empty_field_is_dropped() {
    let mut b = Broker::new();
    let events =
        b.register_subscription("s1".to_string(), "".to_string(), "T".to_string(), 5);
    assert!(events.is_empty());
    assert!(b.get_clients().is_empty());
    assert_eq!(b.batcher.len(), 0);
}

#[test]
fn double_register_keeps_one_topic_row() {
    // S: register on T, then T again; the session lists T once
    let mut b = Broker::new();
    b.register_subscription("s1".to_string(), "C".to_string(), "T".to_string(), 5);
    b.register_subscription("s1".to_string(), "C".to_string(), "T".to_string(), 6);
    let e = b.get_client_by_sid(&"s1".to_string()).unwrap();
    assert_eq!(e.topics, vec!["T".to_string()]);
    assert_eq!(b.get_clients().len(), 1);
}

#[test]
fn unregister_clears_clients_and_emits_per_topic() {
    let mut b = Broker::new();
    b.register_subscription("s1".to_string(), "C".to_string(), "T".to_string(), 5);
    b.register_subscription("s1".to_string(), "C".to_string(), "U".to_string(), 5);
    let events = b.unregister_client(&"s1".to_string());
    assert_eq!(
        events,
        vec![
            BroadcastEvent::ClientDisconnected {
                consumer: "C".to_string(),
                topic: "T".to_string(),
            },
            BroadcastEvent::ClientDisconnected {
                consumer: "C".to_string(),
                topic: "U".to_string(),
            },
        ]
    );
    assert!(b.get_clients().is_empty());
    assert!(b.get_client_by_sid(&"s1".to_string()).is_none());
    // a second disconnect is harmless and emits nothing
    assert!(b.unregister_client(&"s1".to_string()).is_empty());
}

#[test]
fn save_consumption_reaches_the_store_after_tick() {
    let mut b = Broker::new();
    let events = b.save_consumption(
        "C".to_string(),
        "T".to_string(),
        "m1".to_string(),
        "{\"x\":1}".to_string(),
        9,
    );
    assert_eq!(events.len(), 1);
    b.tick();
    let cons = b.get_consumptions();
    assert_eq!(cons.len(), 1);
    assert_eq!(cons[0].consumer, "C");
    assert_eq!(cons[0].timestamp, 9);
}

#[test]
fn graph_state_projects_distinct_nodes_and_links() {
    let mut b = Broker::new();
    b.publish(publish_req("T1", "m1", "1", "P1"), 1).unwrap();
    b.publish(publish_req("T1", "m2", "2", "P1"), 2).unwrap();
    b.publish(publish_req("T2", "m3", "3", "P2"), 3).unwrap();
    b.register_subscription("s1".to_string(), "C1".to_string(), "T1".to_string(), 4);
    b.save_consumption("C2".to_string(), "T2".to_string(), "m3".to_string(), "3".to_string(), 5);
    b.tick();
    let g = b.get_graph_state();
    assert_eq!(g.producers, vec!["P1".to_string(), "P2".to_string()]);
    assert_eq!(g.consumers, vec!["C1".to_string(), "C2".to_string()]);
    assert_eq!(g.topics, vec!["T1".to_string(), "T2".to_string()]);
    assert_eq!(
        g.links,
        vec![
            Link {
                source: "T1".to_string(),
                target: "C1".to_string(),
                link_type: "consume".to_string(),
            },
            Link {
                source: "P1".to_string(),
                target: "T1".to_string(),
                link_type: "publish".to_string(),
            },
            Link {
                source: "P2".to_string(),
                target: "T2".to_string(),
                link_type: "publish".to_string(),
            },
        ]
    );
}

#[test]
fn cached_listing_serves_fresh_hits_and_refills() {
    let mut b = Broker::new();
    b.publish(publish_req("T", "m1", "1", "P"), 1).unwrap();
    b.tick();
    let mut cache = QueryCache::new(2000);
    // miss fills the slot
    let r1 = b.cached_messages(&mut cache, 10_000, true);
    assert_eq!(r1.len(), 1);
    // a later publish is not seen while the slot is fresh
    b.publish(publish_req("T", "m2", "2", "P"), 2).unwrap();
    b.tick();
    let r2 = b.cached_messages(&mut cache, 11_000, true);
    assert_eq!(r2.len(), 1);
    // past the TTL the live listing comes back and refills
    let r3 = b.cached_messages(&mut cache, 12_000, true);
    assert_eq!(r3.len(), 2);
}

#[test]
fn disabled_dashboard_bypasses_the_cache() {
    let mut b = Broker::new();
    b.publish(publish_req("T", "m1", "1", "P"), 1).unwrap();
    b.tick();
    let mut cache = QueryCache::new(2000);
    let r1 = b.cached_messages(&mut cache, 10_000, false);
    assert_eq!(r1.len(), 1);
    b.publish(publish_req("T", "m2", "2", "P"), 2).unwrap();
    b.tick();
    // no slot was filled, so the next read sees the new row at once
    let r2 = b.cached_messages(&mut cache, 10_001, false);
    assert_eq!(r2.len(), 2);
}

#[test]
fn cached_consumptions_serve_fresh_hits() {
    let mut b = Broker::new();
    b.save_consumption("C".to_string(), "T".to_string(), "m1".to_string(), "1".to_string(), 1);
    b.tick();
    let mut cache = QueryCache::new(2000);
    let r1 = b.cached_consumptions(&mut cache, 10_000, true);
    assert_eq!(r1.len(), 1);
    b.save_consumption("C".to_string(), "T".to_string(), "m2".to_string(), "2".to_string(), 2);
    b.tick();
    // fresh hit still answers from the slot
    let r2 = b.cached_consumptions(&mut cache, 10_500, true);
    assert_eq!(r2.len(), 1);
    // stale slot falls through to the live listing
    let r3 = b.cached_consumptions(&mut cache, 12_345, true);
    assert_eq!(r3.len(), 2);
}

#[test]
fn cached_graph_state_round_trip() {
    let mut b = Broker::new();
    b.publish(publish_req("T", "m1", "1", "P"), 1).unwrap();
    b.tick();
    let mut cache = QueryCache::new(2000);
    let g1 = b.cached_graph_state(&mut cache, 5_000, true);
    let g2 = b.cached_graph_state(&mut cache, 5_500, true);
    assert_eq!(g1, g2);
    assert_eq!(g1.producers, vec!["P".to_string()]);
}

#[test]
fn health_answers_by_probe_outcome() {
    let ok = health_answer(true, 42).unwrap();
    assert_eq!(ok.status, "healthy");
    assert_eq!(ok.timestamp, 42);
    assert_eq!(health_answer(false, 42).unwrap_err(), ApiError::Unavailable);
}

#[test]
fn dashboard_flag_toggles() {
    let mut flag = DashboardFlag::new();
    assert!(!flag.status());
    assert!(flag.login());
    assert!(flag.status());
    assert!(!flag.logout());
    assert!(!flag.status());
}
