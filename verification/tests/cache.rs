use hass_bridge::cache::EntityCache;
use hass_bridge::snapshot::{encode, UpstreamEntity};

fn entity(id: &str, state: &str) -> UpstreamEntity {
    UpstreamEntity {
        entity_id: id.to_string(),
        state: Some(state.to_string()),
        last_changed: None,
        last_updated: None,
        attributes: None,
    }
}

#[test]
fn update_then_get() {
    let mut cache = EntityCache::new();
    let snap = encode(&entity("sensor.a", "1"));
    cache.update("sensor.a".to_string(), snap);
    let got = cache.get(&"sensor.a".to_string()).expect("entry must exist");
    assert_eq!(got.state, "1");
    assert!(cache.get(&"sensor.b".to_string()).is_none());
}

#[test]
fn last_write_wins_for_one_entity() {
    let mut cache = EntityCache::new();
    for state in ["1", "2", "3"] {
        cache.update("sensor.a".to_string(), encode(&entity("sensor.a", state)));
    }
    let got = cache.get(&"sensor.a".to_string()).expect("entry must exist");
    assert_eq!(got.state, "3");
    assert_eq!(cache.snapshot_all().len(), 1);
}

#[test]
fn repeated_identical_update_keeps_one_entry() {
    let mut cache = EntityCache::new();
    let e = entity("sensor.a", "on");
    cache.update("sensor.a".to_string(), encode(&e));
    cache.update("sensor.a".to_string(), encode(&e));
    let all = cache.snapshot_all();
    assert_eq!(all.len(), 1);
    assert_eq!(all[0].1.state, "on");
}

#[test]
fn initialize_replaces_content() {
    let mut cache = EntityCache::new();
    cache.update("old.entry".to_string(), encode(&entity("old.entry", "x")));
    let snaps = vec![
        encode(&entity("sensor.a", "1")),
        encode(&entity("sensor.b", "2")),
        encode(&entity("sensor.a", "9")),
    ];
    cache.initialize(&snaps);
    let all = cache.snapshot_all();
    assert_eq!(all.len(), 2);
    assert!(cache.get(&"old.entry".to_string()).is_none());
    assert_eq!(cache.get(&"sensor.a".to_string()).unwrap().state, "9");
    assert_eq!(cache.get(&"sensor.b".to_string()).unwrap().state, "2");
}

#[test]
fn snapshot_all_is_point_in_time() {
    let mut cache = EntityCache::new();
    cache.update("sensor.a".to_string(), encode(&entity("sensor.a", "1")));
    let copy = cache.snapshot_all();
    cache.update("sensor.a".to_string(), encode(&entity("sensor.a", "2")));
    assert_eq!(copy.len(), 1);
    assert_eq!(copy[0].1.state, "1");
    assert_eq!(cache.get(&"sensor.a".to_string()).unwrap().state, "2");
}
