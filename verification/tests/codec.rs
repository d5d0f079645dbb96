use hass_bridge::snapshot::{encode, Snapshot, UpstreamEntity};

fn entity(id: &str, state: &str) -> UpstreamEntity {
    UpstreamEntity {
        entity_id: id.to_string(),
        state: Some(state.to_string()),
        last_changed: Some("2024-01-01T00:00:00Z".to_string()),
        last_updated: Some("2024-01-01T00:00:01Z".to_string()),
        attributes: Some("{\"unit\":\"C\"}".to_string()),
    }
}

#[test]
fn encode_copies_every_field() {
    let s: Snapshot = encode(&entity("sensor.temp", "21.5"));
    assert_eq!(s.entity_id, "sensor.temp");
    assert_eq!(s.state, "21.5");
    assert_eq!(s.last_changed, "2024-01-01T00:00:00Z");
    assert_eq!(s.last_updated, "2024-01-01T00:00:01Z");
    assert_eq!(s.attributes, "{\"unit\":\"C\"}");
}

#[test]
fn encode_is_total_on_absent_fields() {
    let e = UpstreamEntity {
        entity_id: "light.desk".to_string(),
        state: None,
        last_changed: None,
        last_updated: None,
        attributes: None,
    };
    let s = encode(&e);
    assert_eq!(s.entity_id, "light.desk");
    assert_eq!(s.state, "");
    assert_eq!(s.last_changed, "");
    assert_eq!(s.last_updated, "");
    assert_eq!(s.attributes, "");
}

#[test]
fn duplicate_preserves_fields() {
    let s = encode(&entity("switch.fan", "on"));
    let d = s.duplicate();
    assert_eq!(d.entity_id, s.entity_id);
    assert_eq!(d.state, s.state);
    assert_eq!(d.last_changed, s.last_changed);
    assert_eq!(d.last_updated, s.last_updated);
    assert_eq!(d.attributes, s.attributes);
}
