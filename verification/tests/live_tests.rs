use std::collections::HashMap;
use scada_core::live::{
    check_change, keeps_subscriber, Delivery, LiveCoordinator, CoordUnitWebSocketData, Readings, ValueChange,
};

type Coord = LiveCoordinator<u8, u8, u32>;

fn sub(tags: &[&str], nodes: &[i32], devices: &[i32], ch: u32) -> CoordUnitWebSocketData<u8, u8, u32> {
    CoordUnitWebSocketData::new(
        tags.iter().map(|t| t.to_string()).collect(),
        nodes.to_vec(),
        devices.to_vec(),
        ch,
    )
}

fn reading(tag: &str, v: f64) -> ValueChange {
    ValueChange { tag: tag.to_string(), value: v.to_bits() }
}

#[test]
fn check_change_records_only_new_values() {
    let mut m: HashMap<i32, u8> = HashMap::new();
    assert!(check_change(&mut m, 1, 5));
    assert!(!check_change(&mut m, 1, 5));
    assert!(check_change(&mut m, 1, 6));
    assert_eq!(m.get(&1), Some(&6));
    assert_eq!(m.len(), 1);
}

#[test]
fn subscriber_gets_only_what_it_watches() {
    let mut s = sub(&["t1"], &[1], &[10], 77);
    s.node_events(1, &3);
    s.node_events(2, &4);
    s.device_events(10, &1);
    s.device_events(11, &1);
    s.value_events(&"t1".to_string(), 1.5f64.to_bits());
    s.value_events(&"t2".to_string(), 2.5f64.to_bits());
    let c = s.take_changes().unwrap();
    assert_eq!(c.nodes.len(), 1);
    assert_eq!((c.nodes[0].id, c.nodes[0].state), (1, 3));
    assert_eq!(c.devices.len(), 1);
    assert_eq!(c.devices[0].id, 10);
    assert_eq!(c.values.len(), 1);
    assert_eq!(c.values[0].tag, "t1");
    assert_eq!(c.values[0].value, 1.5f64.to_bits());
    assert!(s.take_changes().is_none());
    assert_eq!(*s.channel(), 77);
}

#[test]
fn node_event_is_told_once_per_change() {
    let mut co: Coord = LiveCoordinator::new();
    co.push_subscriber(sub(&[], &[1], &[], 0));
    co.push_subscriber(sub(&[], &[2], &[], 1));
    assert!(co.on_node_event(1, 7));
    let out = co.take_all_changes();
    assert_eq!(out.len(), 2);
    assert_eq!(out[0].as_ref().unwrap().nodes[0].state, 7);
    assert!(out[1].is_none());
    assert!(!co.on_node_event(1, 7));
    assert!(co.take_all_changes().iter().all(|c| c.is_none()));
    assert!(co.on_node_event(1, 8));
    assert_eq!(co.take_all_changes()[0].as_ref().unwrap().nodes[0].state, 8);
}

#[test]
fn device_event_carries_changed_readings() {
    let mut co: Coord = LiveCoordinator::new();
    co.push_subscriber(sub(&["a", "b"], &[], &[5], 0));
    let m = vec![reading("a", 1.0), reading("b", 2.0), reading("a", 1.0), reading("c", 3.0)];
    assert!(co.on_device_event(5, 1, &m));
    let c = co.take_all_changes().remove(0).unwrap();
    assert_eq!(c.devices.len(), 1);
    let tags: Vec<&str> = c.values.iter().map(|v| v.tag.as_str()).collect();
    assert_eq!(tags, vec!["a", "b"]);
    // the same state and readings again change nothing
    assert!(!co.on_device_event(5, 1, &m));
    assert!(co.take_all_changes().remove(0).is_none());
    // zero and minus zero are equal; NaN never is
    co.on_device_event(5, 1, &vec![reading("a", 0.0)]);
    co.take_all_changes();
    co.on_device_event(5, 1, &vec![reading("a", -0.0), reading("b", f64::NAN)]);
    let c = co.take_all_changes().remove(0).unwrap();
    assert_eq!(c.values.len(), 1);
    assert_eq!(c.values[0].tag, "b");
    co.on_device_event(5, 1, &vec![reading("b", f64::NAN)]);
    assert_eq!(co.take_all_changes().remove(0).unwrap().values.len(), 1);
}

#[test]
fn new_subscriber_is_primed_with_current_state() {
    let mut co: Coord = LiveCoordinator::new();
    co.on_node_event(1, 1);
    co.on_node_event(2, 2);
    co.on_device_event(9, 3, &vec![reading("x", 4.0), reading("y", 5.0)]);
    let mut s = sub(&["y"], &[2, 1], &[9], 3);
    co.prime_subscriber(&mut s);
    let c = s.take_changes().unwrap();
    let ids: Vec<i32> = c.nodes.iter().map(|n| n.id).collect();
    assert_eq!(ids, vec![1, 2]);
    assert_eq!(c.devices[0].state, 3);
    assert_eq!(c.values.len(), 1);
    assert_eq!(c.values[0].value, 5.0f64.to_bits());
    co.push_subscriber(s);
    assert_eq!(co.subscriber_count(), 1);
    assert_eq!(*co.subscriber_channel(0), 3);
}

#[test]
fn dead_subscribers_are_dropped() {
    let mut co: Coord = LiveCoordinator::new();
    for ch in 0..4u32 {
        co.push_subscriber(sub(&[], &[], &[], ch));
    }
    let alive = vec![
        keeps_subscriber(Delivery::Sent),
        keeps_subscriber(Delivery::Refused),
        keeps_subscriber(Delivery::NothingToSend),
        keeps_subscriber(Delivery::NotSerialized),
    ];
    assert_eq!(alive, vec![true, false, true, true]);
    co.retain_alive(&alive);
    assert_eq!(co.subscriber_count(), 3);
    assert_eq!(*co.subscriber_channel(0), 0);
    assert_eq!(*co.subscriber_channel(1), 2);
    assert_eq!(*co.subscriber_channel(2), 3);
}

#[test]
fn readings_keep_the_last_value_of_each_tag() {
    let mut r = Readings::new();
    assert!(r.record(&"t".to_string(), 1.0f64.to_bits()));
    assert!(!r.record(&"t".to_string(), 1.0f64.to_bits()));
    assert!(r.record(&"t".to_string(), 2.0f64.to_bits()));
    assert!(r.record(&"u".to_string(), 2.0f64.to_bits()));
}

#[test]
fn node_step_hands_out_one_message_per_subscriber() {
    let mut co: Coord = LiveCoordinator::new();
    co.enroll(sub(&[], &[1], &[], 0), Delivery::NothingToSend);
    co.enroll(sub(&[], &[2], &[], 1), Delivery::Sent);
    co.enroll(sub(&[], &[1], &[], 2), Delivery::Refused);
    assert_eq!(co.subscriber_count(), 2);
    let out = co.node_step(1, 9).unwrap();
    assert_eq!(out.len(), 2);
    let c = out[0].as_ref().unwrap();
    assert_eq!((c.nodes.len(), c.nodes[0].id, c.nodes[0].state), (1, 1, 9));
    assert!(out[1].is_none());
    assert!(co.node_step(1, 9).is_none());
    co.finish_flush(&vec![Delivery::Refused, Delivery::NothingToSend]);
    assert_eq!(co.subscriber_count(), 1);
    assert_eq!(*co.subscriber_channel(0), 1);
    // the dropped subscriber hears of nothing more
    let out = co.node_step(1, 10).unwrap();
    assert_eq!(out.len(), 1);
    assert!(out[0].is_none());
}

#[test]
fn device_step_sends_changed_device_and_values() {
    let mut co: Coord = LiveCoordinator::new();
    co.enroll(sub(&["a"], &[], &[5], 0), Delivery::Sent);
    let out = co.device_step(5, 1, &vec![reading("a", 1.0), reading("b", 2.0)]);
    let c = out[0].as_ref().unwrap();
    assert_eq!(c.devices.len(), 1);
    assert_eq!(c.values.len(), 1);
    assert_eq!(c.values[0].tag, "a");
    // same state and same reading: nothing to send
    let out = co.device_step(5, 1, &vec![reading("a", 1.0)]);
    assert!(out[0].is_none());
    let out = co.device_step(5, 1, &vec![reading("a", 3.0)]);
    let c = out[0].as_ref().unwrap();
    assert_eq!((c.devices.len(), c.values.len()), (0, 1));
}

#[test]
fn welcome_tells_the_known_state() {
    let mut co: Coord = LiveCoordinator::new();
    co.node_step(1, 4);
    co.device_step(7, 2, &vec![reading("x", 0.5)]);
    let mut s = sub(&["x"], &[1], &[7], 3);
    let first = co.welcome(&mut s).unwrap();
    assert_eq!((first.nodes.len(), first.devices.len(), first.values.len()), (1, 1, 1));
    assert!(s.take_changes().is_none());
    let mut quiet = sub(&[], &[], &[], 4);
    assert!(co.welcome(&mut quiet).is_none());
}
