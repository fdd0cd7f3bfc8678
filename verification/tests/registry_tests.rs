use relay::models::ClientInfo;
use relay::registry::Registry;

#[test]
fn empty_registry_lists_nothing() {
    let reg = Registry::new();
    assert_eq!(reg.len(), 0);
    assert!(reg.clients().is_empty());
    assert!(reg.get_by_sid(&"s1".to_string()).is_none());
}

#[test]
fn add_then_lookup() {
    let mut reg = Registry::new();
    reg.add("s1".to_string(), "C".to_string(), "T".to_string(), 7);
    let e = reg.get_by_sid(&"s1".to_string()).unwrap();
    assert_eq!(e.sid, "s1");
    assert_eq!(e.consumer, "C");
    assert_eq!(e.topics, vec!["T".to_string()]);
    assert_eq!(e.connected_at, 7);
}

#[test]
fn resubscribe_same_topic_is_idempotent() {
    // registering the same (session, topic) twice leaves one listing
    let mut reg = Registry::new();
    reg.add("s1".to_string(), "C".to_string(), "T".to_string(), 7);
    reg.add("s1".to_string(), "C".to_string(), "T".to_string(), 9);
    let e = reg.get_by_sid(&"s1".to_string()).unwrap();
    assert_eq!(e.topics, vec!["T".to_string()]);
    assert_eq!(e.connected_at, 7);
    assert_eq!(reg.len(), 1);
}

#[test]
fn second_topic_appends() {
    let mut reg = Registry::new();
    reg.add("s1".to_string(), "C".to_string(), "T".to_string(), 7);
    reg.add("s1".to_string(), "C".to_string(), "U".to_string(), 8);
    let e = reg.get_by_sid(&"s1".to_string()).unwrap();
    assert_eq!(e.topics, vec!["T".to_string(), "U".to_string()]);
}

#[test]
fn clients_flattens_one_row_per_topic() {
    let mut reg = Registry::new();
    reg.add("s1".to_string(), "C1".to_string(), "T".to_string(), 1);
    reg.add("s1".to_string(), "C1".to_string(), "U".to_string(), 2);
    reg.add("s2".to_string(), "C2".to_string(), "T".to_string(), 3);
    let rows = reg.clients();
    assert_eq!(
        rows,
        vec![
            ClientInfo { consumer: "C1".to_string(), topic: "T".to_string(), connected_at: 1 },
            ClientInfo { consumer: "C1".to_string(), topic: "U".to_string(), connected_at: 1 },
            ClientInfo { consumer: "C2".to_string(), topic: "T".to_string(), connected_at: 3 },
        ]
    );
}

#[test]
fn remove_clears_the_session() {
    // after a disconnect the registry holds nothing for the session and
    // the listing holds none of its rows
    let mut reg = Registry::new();
    reg.add("s1".to_string(), "C1".to_string(), "T".to_string(), 1);
    reg.add("s2".to_string(), "C2".to_string(), "U".to_string(), 2);
    let prior = reg.remove(&"s1".to_string()).unwrap();
    assert_eq!(prior.consumer, "C1");
    assert!(reg.get_by_sid(&"s1".to_string()).is_none());
    let rows = reg.clients();
    assert_eq!(
        rows,
        vec![ClientInfo { consumer: "C2".to_string(), topic: "U".to_string(), connected_at: 2 }]
    );
    assert!(reg.remove(&"s1".to_string()).is_none());
}
