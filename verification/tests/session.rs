use hass_bridge::connector::Connector;
use hass_bridge::session::{parse_entity_list, start_session};
use hass_bridge::snapshot::UpstreamEntity;

fn entity(id: &str, state: &str) -> UpstreamEntity {
    UpstreamEntity {
        entity_id: id.to_string(),
        state: Some(state.to_string()),
        last_changed: None,
        last_updated: None,
        attributes: None,
    }
}

#[test]
fn parse_splits_on_commas() {
    assert_eq!(parse_entity_list("light.a,switch.b"), vec!["light.a", "switch.b"]);
    assert_eq!(parse_entity_list("one"), vec!["one"]);
}

#[test]
fn parse_keeps_empty_parts() {
    assert_eq!(parse_entity_list(""), vec![""]);
    assert_eq!(parse_entity_list("a,,b"), vec!["a", "", "b"]);
    assert_eq!(parse_entity_list("a,"), vec!["a", ""]);
    assert_eq!(parse_entity_list(",a"), vec!["", "a"]);
    assert_eq!(parse_entity_list(","), vec!["", ""]);
}

#[test]
fn filtered_session_gets_one_initial_entry_and_no_foreign_events() {
    let mut conn = Connector::new();
    conn.initialize(&vec![entity("sensor.a", "on"), entity("sensor.b", "off")]);
    let (session, initial) = start_session(&mut conn, Some(vec!["sensor.a".to_string()]));

    assert_eq!(initial.len(), 1);
    assert_eq!(initial[0].0, "sensor.a");
    assert_eq!(initial[0].1.state, "on");

    conn.handle_change(&entity("sensor.b", "on"));
    assert!(session.poll(&mut conn).is_empty());

    conn.handle_change(&entity("sensor.a", "off"));
    let evs = session.poll(&mut conn);
    assert_eq!(evs.len(), 1);
    assert_eq!(evs[0].entity_id, "sensor.a");
    assert_eq!(evs[0].snapshot.state, "off");
}

#[test]
fn unfiltered_session_gets_every_event_after_subscribing() {
    let mut conn = Connector::new();
    conn.initialize(&vec![entity("sensor.a", "1")]);
    conn.handle_change(&entity("sensor.b", "2"));

    let (session, initial) = start_session(&mut conn, None);
    assert_eq!(initial.len(), 2);

    conn.handle_change(&entity("sensor.c", "3"));
    conn.handle_change(&entity("sensor.a", "4"));
    let evs = session.poll(&mut conn);
    assert_eq!(evs.len(), 2);
    assert_eq!(evs[0].entity_id, "sensor.c");
    assert_eq!(evs[1].entity_id, "sensor.a");
}

#[test]
fn initial_snapshot_reflects_cache_at_subscription_time() {
    let mut conn = Connector::new();
    conn.initialize(&vec![entity("sensor.a", "old")]);
    conn.handle_change(&entity("sensor.a", "new"));
    let (session, initial) = start_session(&mut conn, Some(vec!["sensor.a".to_string()]));
    assert_eq!(initial.len(), 1);
    assert_eq!(initial[0].1.state, "new");
    assert!(session.poll(&mut conn).is_empty());
}

#[test]
fn one_session_failing_leaves_the_other_untouched() {
    let mut conn = Connector::new();
    conn.initialize(&vec![entity("sensor.a", "0")]);

    let (failing, _) = start_session(&mut conn, None);
    let (healthy, _) = start_session(&mut conn, None);

    for i in 1..=3 {
        conn.handle_change(&entity("sensor.a", &i.to_string()));
    }
    let got = failing.poll(&mut conn);
    assert_eq!(got.len(), 3);
    // its third downstream write fails: the session ends and unsubscribes
    failing.close(&mut conn);

    for i in 4..=5 {
        conn.handle_change(&entity("sensor.a", &i.to_string()));
    }
    let evs = healthy.poll(&mut conn);
    assert_eq!(evs.len(), 5);
    for (i, ev) in evs.iter().enumerate() {
        assert_eq!(ev.snapshot.state, (i + 1).to_string());
    }
    // the connector itself went on unaffected
    assert_eq!(
        conn.cache.get(&"sensor.a".to_string()).unwrap().state,
        "5"
    );
}

#[test]
fn session_with_empty_filter_list_gets_nothing() {
    let mut conn = Connector::new();
    conn.initialize(&vec![entity("sensor.a", "on")]);
    let (session, initial) = start_session(&mut conn, Some(Vec::new()));
    assert!(initial.is_empty());
    conn.handle_change(&entity("sensor.a", "off"));
    assert!(session.poll(&mut conn).is_empty());
}
