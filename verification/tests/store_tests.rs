use relay::models::{ConsumptionInfo, DbCommand, MessageInfo};
use relay::store::Store;
use relay::{MAX_AGE_MS, MAX_MESSAGES};

fn msg(topic: &str, id: &str, body: &str, producer: &str, ts: u64) -> MessageInfo {
    MessageInfo {
        topic: topic.to_string(),
        message_id: id.to_string(),
        message: body.to_string(),
        producer: producer.to_string(),
        timestamp: ts,
    }
}

#[test]
fn apply_save_message_appends() {
    let mut st = Store::new();
    st.apply_command(&DbCommand::SaveMessage {
        topic: "T".to_string(),
        message_id: "m1".to_string(),
        message: "{\"x\":1}".to_string(),
        producer: "P".to_string(),
        timestamp: 5,
    });
    assert_eq!(st.messages.len(), 1);
    assert_eq!(st.messages[0], msg("T", "m1", "{\"x\":1}", "P", 5));
}

#[test]
fn messages_are_not_deduplicated_on_id() {
    let mut st = Store::new();
    for _ in 0..2 {
        st.apply_command(&DbCommand::SaveMessage {
            topic: "T".to_string(),
            message_id: "m1".to_string(),
            message: "1".to_string(),
            producer: "P".to_string(),
            timestamp: 5,
        });
    }
    assert_eq!(st.messages.len(), 2);
}

#[test]
fn register_is_upsert_by_sid() {
    let mut st = Store::new();
    st.apply_command(&DbCommand::RegisterSubscription {
        sid: "s1".to_string(),
        consumer: "C".to_string(),
        topic: "T".to_string(),
        connected_at: 1,
    });
    st.apply_command(&DbCommand::RegisterSubscription {
        sid: "s1".to_string(),
        consumer: "C".to_string(),
        topic: "U".to_string(),
        connected_at: 2,
    });
    assert_eq!(st.subscriptions.len(), 1);
    assert_eq!(st.subscriptions[0].topic, "U");
    st.apply_command(&DbCommand::UnregisterClient { sid: "s1".to_string() });
    assert!(st.subscriptions.is_empty());
}

#[test]
fn batch_applies_in_queue_order() {
    let mut st = Store::new();
    let batch = vec![
        DbCommand::SaveMessage {
            topic: "T".to_string(),
            message_id: "m1".to_string(),
            message: "1".to_string(),
            producer: "P".to_string(),
            timestamp: 1,
        },
        DbCommand::SaveConsumption {
            consumer: "C".to_string(),
            topic: "T".to_string(),
            message_id: "m1".to_string(),
            message: "1".to_string(),
            timestamp: 2,
        },
        DbCommand::SaveMessage {
            topic: "T".to_string(),
            message_id: "m2".to_string(),
            message: "2".to_string(),
            producer: "P".to_string(),
            timestamp: 3,
        },
    ];
    st.apply_batch(&batch);
    assert_eq!(st.messages.len(), 2);
    assert_eq!(st.messages[0].message_id, "m1");
    assert_eq!(st.messages[1].message_id, "m2");
    assert_eq!(st.consumptions.len(), 1);
    assert_eq!(st.consumptions[0].consumer, "C");
}

#[test]
fn recent_messages_newest_first_capped_at_hundred() {
    let mut st = Store::new();
    for i in 0..150u64 {
        st.messages.push(msg("T", &format!("m{}", i), "1", "P", i));
    }
    let r = st.recent_messages();
    assert_eq!(r.len(), 100);
    assert_eq!(r[0].timestamp, 149);
    assert_eq!(r[99].timestamp, 50);
    for w in r.windows(2) {
        assert!(w[0].timestamp >= w[1].timestamp);
    }
}

#[test]
fn recent_messages_decodes_valid_body_unchanged() {
    let mut st = Store::new();
    st.messages.push(msg("T", "m1", "{\"x\": 1}", "P", 5));
    let r = st.recent_messages();
    assert_eq!(r.len(), 1);
    assert_eq!(r[0].message, "{\"x\": 1}");
}

#[test]
fn recent_messages_wraps_invalid_body_in_envelope() {
    // a stored body that no longer parses is kept, wrapped
    let mut st = Store::new();
    st.messages.push(msg("T", "m1", "not json", "P", 5));
    let r = st.recent_messages();
    assert_eq!(r.len(), 1);
    assert_eq!(r[0].message, "{\"error\":\"Invalid JSON\",\"raw\":\"not json\"}");
    assert_eq!(r[0].topic, "T");
    assert_eq!(r[0].message_id, "m1");
}

#[test]
fn recent_messages_envelope_escapes_raw_text() {
    let mut st = Store::new();
    st.messages.push(msg("T", "m1", "say \"hi\"\\now\n", "P", 5));
    let r = st.recent_messages();
    assert_eq!(
        r[0].message,
        "{\"error\":\"Invalid JSON\",\"raw\":\"say \\\"hi\\\"\\\\now\\n\"}"
    );
}

#[test]
fn recent_consumptions_newest_first() {
    let mut st = Store::new();
    for i in 0..3u64 {
        st.consumptions.push(ConsumptionInfo {
            consumer: "C".to_string(),
            topic: "T".to_string(),
            message_id: format!("m{}", i),
            message: "1".to_string(),
            timestamp: i,
        });
    }
    let r = st.recent_consumptions();
    assert_eq!(r.len(), 3);
    assert_eq!(r[0].message_id, "m2");
    assert_eq!(r[2].message_id, "m0");
}

#[test]
fn purge_caps_and_ages_out() {
    // seed 10,050 messages spanning two days, purge, and the survivors
    // are at most the cap and none is older than the cutoff
    let now: u64 = 200_000_000;
    let cutoff = now - MAX_AGE_MS;
    let mut st = Store::new();
    for j in 0..30u64 {
        st.messages.push(msg("T", "old", "1", "P", cutoff - 30 + j));
    }
    for i in 0..10_020u64 {
        st.messages.push(msg("T", "new", "1", "P", cutoff + 1 + i * 1000));
    }
    assert_eq!(st.messages.len(), 10_050);
    st.purge(now);
    assert_eq!(st.messages.len(), MAX_MESSAGES);
    let oldest = st.messages.iter().map(|m| m.timestamp).min().unwrap();
    assert!(oldest >= cutoff);
    assert_eq!(oldest, cutoff + 1 + 20 * 1000);
}

#[test]
fn purge_keeps_everything_young_and_small() {
    let now: u64 = 200_000_000;
    let mut st = Store::new();
    for i in 0..5u64 {
        st.messages.push(msg("T", "m", "1", "P", now - i));
    }
    st.purge(now);
    assert_eq!(st.messages.len(), 5);
}

#[test]
fn purge_sweeps_consumptions_too() {
    let now: u64 = 200_000_000;
    let cutoff = now - MAX_AGE_MS;
    let mut st = Store::new();
    st.consumptions.push(ConsumptionInfo {
        consumer: "C".to_string(),
        topic: "T".to_string(),
        message_id: "m0".to_string(),
        message: "1".to_string(),
        timestamp: cutoff - 1,
    });
    st.consumptions.push(ConsumptionInfo {
        consumer: "C".to_string(),
        topic: "T".to_string(),
        message_id: "m1".to_string(),
        message: "1".to_string(),
        timestamp: now,
    });
    st.purge(now);
    assert_eq!(st.consumptions.len(), 1);
    assert_eq!(st.consumptions[0].message_id, "m1");
}

#[test]
fn migrations_record_once_per_version() {
    let mut st = Store::new();
    assert!(st.record_migration(1, "add_message_id_and_producer".to_string(), 10));
    assert!(st.record_migration(2, "optimize_performance".to_string(), 11));
    assert!(!st.record_migration(1, "add_message_id_and_producer".to_string(), 12));
    assert_eq!(st.migrations.len(), 2);
    assert_eq!(st.migrations[0].version, 1);
    assert_eq!(st.migrations[0].applied_at, 10);
}
