use scada_core::vault::{relay_decision, relay_selection, EventDataContainer, HashedValue, TagMap, ValueVault};
use serde_json::Value;

fn hv(tag: &str, ts: i64, v: Value) -> HashedValue {
    HashedValue { tag: tag.to_string(), timestamp: ts, value: v }
}

#[test]
fn last_write_of_a_tag_wins() {
    let mut vault = ValueVault::new();
    vault.update_values(vec![hv("a", 1, Value::from(1)), hv("b", 2, Value::from("x"))]);
    vault.update_values(vec![hv("a", 3, Value::from(2)), hv("a", 4, Value::from(3))]);
    let got = vault.get_many(&vec!["a".to_string(), "zz".to_string(), "b".to_string()]);
    assert_eq!(got.len(), 2);
    assert_eq!((got[0].tag.as_str(), got[0].timestamp, got[0].value.clone()), ("a", 4, Value::from(3)));
    assert_eq!((got[1].tag.as_str(), got[1].timestamp, got[1].value.clone()), ("b", 2, Value::from("x")));
    let all = vault.get_all();
    let tags: Vec<&str> = all.iter().map(|v| v.tag.as_str()).collect();
    assert_eq!(tags, vec!["a", "b"]);
}

#[test]
fn events_by_tag() {
    let mut ev = EventDataContainer::new();
    assert!(ev.get_event(&"alarm".to_string()).is_none());
    ev.update_event(vec![("alarm".to_string(), Value::Bool(true)), ("alarm".to_string(), Value::Bool(false))]);
    assert_eq!(ev.get_event(&"alarm".to_string()), Some(Value::Bool(false)));
}

#[test]
fn relay_skips_own_updates_and_unasked_tags() {
    let subscribed = vec!["a".to_string(), "c".to_string()];
    let tags = vec!["a".to_string(), "b".to_string(), "c".to_string()];
    assert_eq!(relay_selection(1, 2, &subscribed, &tags), vec![0, 2]);
    assert!(relay_selection(1, 1, &subscribed, &tags).is_empty());
    assert!(relay_selection(1, 2, &vec![], &tags).is_empty());
}

#[test]
fn tag_map_inserts_and_reads() {
    let mut m: TagMap<u8> = TagMap::new();
    m.insert("x".to_string(), 1);
    m.insert("y".to_string(), 2);
    m.insert("x".to_string(), 3);
    assert_eq!(m.len(), 2);
    assert_eq!(m.get(&"x".to_string()), Some(&3));
    assert_eq!(*m.value_at(1), 2);
    assert_eq!(m.get(&"z".to_string()), None);
}

#[test]
fn relay_decision_sends_only_what_was_asked_for() {
    let subscribed = vec!["a".to_string(), "c".to_string()];
    let tags = vec!["a".to_string(), "b".to_string(), "c".to_string()];
    assert_eq!(relay_decision(1, 2, &subscribed, &tags), Some(vec![0, 2]));
    assert_eq!(relay_decision(1, 1, &subscribed, &tags), None);
    assert_eq!(relay_decision(1, 2, &vec![], &tags), None);
    assert_eq!(relay_decision(1, 2, &subscribed, &vec!["b".to_string()]), None);
}
