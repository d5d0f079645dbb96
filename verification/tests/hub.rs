use hass_bridge::hub::{accepts, Hub};
use hass_bridge::snapshot::{encode, UpstreamEntity};

fn entity(id: &str, state: &str) -> UpstreamEntity {
    UpstreamEntity {
        entity_id: id.to_string(),
        state: Some(state.to_string()),
        last_changed: None,
        last_updated: None,
        attributes: None,
    }
}

fn publish(hub: &mut Hub, id: &str, state: &str) {
    let snap = encode(&entity(id, state));
    hub.publish(&id.to_string(), &snap);
}

#[test]
fn handles_are_fresh() {
    let mut hub = Hub::new();
    let a = hub.subscribe(None);
    let b = hub.subscribe(None);
    let c = hub.subscribe(Some(vec!["x".to_string()]));
    assert_ne!(a, b);
    assert_ne!(a, c);
    assert_ne!(b, c);
}

#[test]
fn filtered_subscription_never_sees_other_entities() {
    let mut hub = Hub::new();
    let filter = Some(vec!["sensor.a".to_string(), "sensor.b".to_string()]);
    let h = hub.subscribe(filter);
    publish(&mut hub, "sensor.c", "1");
    assert!(hub.take_events(h).is_empty());
    publish(&mut hub, "sensor.a", "2");
    publish(&mut hub, "sensor.c", "3");
    publish(&mut hub, "sensor.b", "4");
    let evs = hub.take_events(h);
    assert_eq!(evs.len(), 2);
    assert_eq!(evs[0].entity_id, "sensor.a");
    assert_eq!(evs[1].entity_id, "sensor.b");
}

#[test]
fn unfiltered_subscription_sees_everything_in_order() {
    let mut hub = Hub::new();
    let h = hub.subscribe(None);
    publish(&mut hub, "sensor.a", "1");
    publish(&mut hub, "sensor.b", "2");
    publish(&mut hub, "sensor.a", "3");
    let evs = hub.take_events(h);
    assert_eq!(evs.len(), 3);
    assert_eq!(evs[0].snapshot.state, "1");
    assert_eq!(evs[1].snapshot.state, "2");
    assert_eq!(evs[2].snapshot.state, "3");
}

#[test]
fn one_event_one_copy_per_matching_subscription() {
    let mut hub = Hub::new();
    let filtered = hub.subscribe(Some(vec!["sensor.a".to_string()]));
    let unfiltered = hub.subscribe(None);
    publish(&mut hub, "sensor.a", "on");
    let f = hub.take_events(filtered);
    let u = hub.take_events(unfiltered);
    assert_eq!(f.len(), 1);
    assert_eq!(u.len(), 1);
    assert_eq!(f[0].entity_id, "sensor.a");
    assert_eq!(u[0].entity_id, "sensor.a");
}

#[test]
fn take_events_drains_the_queue() {
    let mut hub = Hub::new();
    let h = hub.subscribe(None);
    publish(&mut hub, "sensor.a", "1");
    assert_eq!(hub.take_events(h).len(), 1);
    assert!(hub.take_events(h).is_empty());
}

#[test]
fn unsubscribed_handle_receives_nothing() {
    let mut hub = Hub::new();
    let h = hub.subscribe(None);
    let other = hub.subscribe(None);
    hub.unsubscribe(h);
    publish(&mut hub, "sensor.a", "1");
    assert!(hub.take_events(h).is_empty());
    assert_eq!(hub.take_events(other).len(), 1);
}

#[test]
fn duplicate_publish_is_not_deduplicated() {
    let mut hub = Hub::new();
    let h = hub.subscribe(None);
    publish(&mut hub, "sensor.a", "on");
    publish(&mut hub, "sensor.a", "on");
    let evs = hub.take_events(h);
    assert_eq!(evs.len(), 2);
    assert_eq!(evs[0].snapshot.state, "on");
    assert_eq!(evs[1].snapshot.state, "on");
}

#[test]
fn accepts_matches_membership() {
    let none: Option<Vec<String>> = None;
    assert!(accepts(&none, &"anything".to_string()));
    let some = Some(vec!["a".to_string(), "b".to_string()]);
    assert!(accepts(&some, &"a".to_string()));
    assert!(accepts(&some, &"b".to_string()));
    assert!(!accepts(&some, &"c".to_string()));
    let empty = Some(Vec::<String>::new());
    assert!(!accepts(&empty, &"a".to_string()));
}
