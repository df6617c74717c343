use scada_core::group_view::{assemble_ui_group, placeholders, row_value, ValueWithSubgroup};
use scada_core::schemas::UserSubGroupRead;
use serde_json::Value;

fn sg(id: i32) -> UserSubGroupRead {
    UserSubGroupRead { id, group_id: 1, subgroup_name: format!("sg{}", id), description: None }
}

fn row(subgroup_id: i32, id: i32, device: i32, node: Option<i32>, name: Option<&str>) -> ValueWithSubgroup {
    ValueWithSubgroup {
        subgroup_id,
        id,
        parent_device_id: device,
        value_name: name.map(|n| n.to_string()),
        value_tag: format!("tag{}", id),
        description: None,
        decoding_type: 1,
        settings: Value::Null,
        is_logging: false,
        node_id: node,
    }
}

#[test]
fn group_without_subgroups_is_none() {
    assert!(assemble_ui_group(1, vec![], vec![row(1, 1, 1, None, None)]).is_none());
}

#[test]
fn values_go_to_their_subgroup_in_order() {
    let rows = vec![
        row(20, 1, 5, Some(2), Some("t")),
        row(10, 2, 6, Some(2), None),
        row(20, 3, 5, None, Some("p")),
        row(99, 4, 7, Some(3), None),
    ];
    let g = assemble_ui_group(1, vec![sg(10), sg(20), sg(10)], rows).unwrap();
    assert_eq!(g.id, 1);
    assert_eq!(g.sub_groups.len(), 3);
    assert_eq!(g.sub_groups[0].group_state.id, 10);
    let ids = |k: usize| g.sub_groups[k].values.iter().map(|v| v.id).collect::<Vec<i32>>();
    assert_eq!(ids(0), vec![2]);
    assert_eq!(ids(1), vec![1, 3]);
    assert_eq!(ids(2), Vec::<i32>::new());
    assert_eq!(g.sub_groups[0].values[0].value_name, "");
    assert_eq!(g.sub_groups[1].values[0].value_name, "t");
    assert_eq!(g.devices, vec![5, 6, 7]);
    assert_eq!(g.nodes, vec![2, 3]);
}

#[test]
fn row_becomes_a_value() {
    let v = row_value(row(1, 8, 4, None, None));
    assert_eq!((v.id, v.parent_device_id, v.value_name.as_str(), v.value_tag.as_str()), (8, 4, "", "tag8"));
}

#[test]
fn sql_placeholders() {
    assert_eq!(placeholders(0), "");
    assert_eq!(placeholders(1), "?");
    assert_eq!(placeholders(3), "?,?,?");
    assert_eq!(placeholders(5), std::iter::repeat("?").take(5).collect::<Vec<_>>().join(","));
}
