use hass_bridge::connector::{Connector, ConnectorState};
use hass_bridge::snapshot::UpstreamEntity;

fn entity(id: &str, state: &str) -> UpstreamEntity {
    UpstreamEntity {
        entity_id: id.to_string(),
        state: Some(state.to_string()),
        last_changed: None,
        last_updated: None,
        attributes: None,
    }
}

#[test]
fn lifecycle_reaches_live_on_success() {
    let s = ConnectorState::Connecting;
    let s = s.after_connect(true);
    assert_eq!(s, ConnectorState::Authenticating);
    let s = s.after_auth(true);
    assert_eq!(s, ConnectorState::Syncing);
    let s = s.after_sync(true);
    assert_eq!(s, ConnectorState::Live);
    assert_eq!(s.after_connection_lost(), ConnectorState::Terminated);
}

#[test]
fn lifecycle_failures_are_fatal() {
    assert_eq!(
        ConnectorState::Connecting.after_connect(false),
        ConnectorState::Terminated
    );
    assert_eq!(
        ConnectorState::Authenticating.after_auth(false),
        ConnectorState::Terminated
    );
    assert_eq!(
        ConnectorState::Syncing.after_sync(false),
        ConnectorState::Terminated
    );
}

#[test]
fn handle_change_updates_cache_and_publishes_as_one_unit() {
    let mut conn = Connector::new();
    conn.initialize(&Vec::new());
    let h = conn.hub.subscribe(None);
    conn.handle_change(&entity("sensor.a", "on"));

    // the cache saw the change
    assert_eq!(conn.cache.get(&"sensor.a".to_string()).unwrap().state, "on");
    // and the same pair reached the subscription
    let evs = conn.hub.take_events(h);
    assert_eq!(evs.len(), 1);
    assert_eq!(evs[0].entity_id, "sensor.a");
    assert_eq!(evs[0].snapshot.state, "on");
    assert_eq!(evs[0].snapshot.entity_id, "sensor.a");
}

#[test]
fn initialize_feeds_the_codec_and_fills_the_cache() {
    let mut conn = Connector::new();
    conn.initialize(&vec![entity("a", "1"), entity("b", "2")]);
    assert_eq!(conn.cache.get(&"a".to_string()).unwrap().state, "1");
    assert_eq!(conn.cache.get(&"b".to_string()).unwrap().state, "2");
    assert_eq!(conn.cache.snapshot_all().len(), 2);
}

#[test]
fn resending_a_change_twice_caches_once_publishes_twice() {
    let mut conn = Connector::new();
    conn.initialize(&Vec::new());
    let h = conn.hub.subscribe(None);
    let e = entity("sensor.a", "on");
    conn.handle_change(&e);
    conn.handle_change(&e);
    assert_eq!(conn.cache.snapshot_all().len(), 1);
    assert_eq!(conn.hub.take_events(h).len(), 2);
}
