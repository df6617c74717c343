use scada_core::schemas::{DeviceCreate, DeviceUpdate, NodeCreate, NodeUpdate};
use scada_core::validation::{
    address_taken, check_ip_free, check_ipv4, check_update_port, check_value_tag, config_port,
    create_device_decision, create_node_decision, effective_decoding_type, is_ipv4,
    needs_address_check, resolve_create_port, second_node_notice, stored_description,
    update_device_decision, update_node_command_status, update_node_decision, update_node_request_check,
    validate_device_create, validate_device_update,
    validate_device_update_record, DeviceError, NodeError, ValueError, DEFAULT_PORT,
};

fn create(address: i32, recall: i32, retry: i32, timeout: i32, parent: i32) -> DeviceCreate {
    DeviceCreate {
        device_name: "pump".to_string(),
        address,
        parent_node_id: parent,
        time_for_recall: recall,
        timeout,
        retry_count: retry,
        is_active: true,
        read_by_group: false,
        description: None,
    }
}

fn update() -> DeviceUpdate {
    DeviceUpdate {
        id: 4,
        device_name: None,
        address: None,
        parent_node_id: None,
        time_for_recall: None,
        timeout: None,
        retry_count: None,
        is_active: None,
        read_by_group: None,
        description: None,
    }
}

#[test]
fn device_create_rules_in_order() {
    assert!(validate_device_create(&create(1, 1000, 3, 500, 2)).is_ok());
    assert!(validate_device_create(&create(0, 1, 1, 1, 1)).is_ok());
    assert!(validate_device_create(&create(255, 1, 1, 1, 1)).is_ok());
    assert_eq!(validate_device_create(&create(256, 1, 1, 1, 1)).unwrap_err(), DeviceError::BadAddress);
    assert_eq!(validate_device_create(&create(-1, 0, 0, 0, 0)).unwrap_err(), DeviceError::BadAddress);
    assert_eq!(validate_device_create(&create(1, 0, 0, 0, 0)).unwrap_err(), DeviceError::RecallNotPositive);
    assert_eq!(validate_device_create(&create(1, 1, 0, 0, 0)).unwrap_err(), DeviceError::RetryNotPositive);
    assert_eq!(validate_device_create(&create(1, 1, 1, 0, 0)).unwrap_err(), DeviceError::TimeoutNotPositive);
    assert_eq!(validate_device_create(&create(1, 1, 1, 1, 0)).unwrap_err(), DeviceError::ParentNotPositive);
    assert_eq!(DeviceError::BadAddress.message(), "Не вірна адреса пристрою");
}

#[test]
fn device_update_rules() {
    let mut u = update();
    assert!(validate_device_update(&u).is_ok());
    u.time_for_recall = Some(0);
    u.timeout = Some(0);
    u.retry_count = Some(0);
    assert!(validate_device_update(&u).is_ok());
    u.address = Some(300);
    assert_eq!(validate_device_update(&u).unwrap_err(), DeviceError::BadAddress);
    u.address = Some(3);
    u.time_for_recall = Some(-1);
    assert_eq!(validate_device_update(&u).unwrap_err(), DeviceError::RecallNegative);
    u.time_for_recall = None;
    u.timeout = Some(-5);
    assert_eq!(validate_device_update(&u).unwrap_err(), DeviceError::TimeoutNegative);
    u.timeout = None;
    u.retry_count = Some(-2);
    assert_eq!(validate_device_update(&u).unwrap_err(), DeviceError::RetryNegative);
    u.retry_count = None;
    u.parent_node_id = Some(0);
    assert!(validate_device_update(&u).is_ok());
    assert_eq!(validate_device_update_record(&u).unwrap_err(), DeviceError::ParentNotPositive);
}

#[test]
fn device_decisions_with_database_answers() {
    let d = create(1, 1, 1, 1, 2);
    assert!(create_device_decision(&d, true, None).is_ok());
    assert_eq!(create_device_decision(&d, false, None).unwrap_err(), DeviceError::NoParentNode);
    assert_eq!(create_device_decision(&d, true, Some(8)).unwrap_err(), DeviceError::AddressTaken);
    let mut u = update();
    assert!(!needs_address_check(&u));
    assert!(update_device_decision(&u, None, Some(9)).is_ok());
    u.parent_node_id = Some(3);
    assert!(needs_address_check(&u));
    assert_eq!(update_device_decision(&u, Some(false), None).unwrap_err(), DeviceError::ParentMissing);
    assert_eq!(update_device_decision(&u, Some(true), Some(9)).unwrap_err(), DeviceError::AddressTaken);
    assert!(update_device_decision(&u, Some(true), Some(4)).is_ok());
    assert!(address_taken(Some(1), None));
    assert!(!address_taken(Some(1), Some(1)));
    assert!(!address_taken(None, Some(1)));
}

#[test]
fn ipv4_texts() {
    assert!(is_ipv4("192.168.0.1"));
    assert!(is_ipv4("0.0.0.0"));
    assert!(is_ipv4("255.255.255.255"));
    assert!(!is_ipv4("256.1.1.1"));
    assert!(!is_ipv4("01.1.1.1"));
    assert!(!is_ipv4("1.1.1"));
    assert!(!is_ipv4("1.1.1.1.1"));
    assert!(!is_ipv4("1..1.1"));
    assert!(!is_ipv4(" 1.1.1.1"));
    assert!(!is_ipv4("::1"));
    assert!(!is_ipv4(""));
    assert!(is_ipv4("10.0.0.1"));
    assert!(!is_ipv4("1.2.3.256"));
    assert!(!is_ipv4("a.b.c.d"));
    assert!(!is_ipv4("1.2.3.4 "));
    assert!(!is_ipv4("+1.2.3.4"));
    assert!(!is_ipv4("1.2.3.0001"));
    assert_eq!(check_ipv4("1.2.3").unwrap_err(), NodeError::InvalidIp);
}

#[test]
fn node_ports_and_ips() {
    assert_eq!(resolve_create_port(None).unwrap(), DEFAULT_PORT);
    assert_eq!(resolve_create_port(Some(65535)).unwrap(), 65535);
    assert_eq!(resolve_create_port(Some(65536)).unwrap_err(), NodeError::InvalidPort(65536));
    assert_eq!(resolve_create_port(Some(-1)).unwrap_err(), NodeError::InvalidPort(-1));
    assert!(check_update_port(None).is_ok());
    assert_eq!(check_update_port(Some(70000)).unwrap_err(), NodeError::InvalidPort(70000));
    assert_eq!(check_ip_free(Some(3), None).unwrap_err(), NodeError::IpTaken(3));
    assert!(check_ip_free(Some(3), Some(3)).is_ok());
    assert_eq!(config_port(3306), Some(3306));
    assert_eq!(config_port(-1), None);
    assert_eq!(config_port(65536), None);
}

#[test]
fn node_decisions() {
    let n = NodeCreate { ip: "10.0.0.2".to_string(), port: None, description: None };
    assert!(create_node_decision(&n, None).is_ok());
    assert_eq!(create_node_decision(&n, Some(6)).unwrap_err(), NodeError::IpTaken(6));
    let bad = NodeCreate { ip: "10.0.0".to_string(), port: None, description: None };
    assert_eq!(create_node_decision(&bad, None).unwrap_err(), NodeError::InvalidIp);
    let u = NodeUpdate { id: 6, ip: Some("10.0.0.2".to_string()), port: None, description: None };
    assert_eq!(update_node_decision(&u, false, None).unwrap_err(), NodeError::NotFound);
    assert!(update_node_decision(&u, true, Some(6)).is_ok());
    assert_eq!(update_node_decision(&u, true, Some(7)).unwrap_err(), NodeError::IpTaken(7));
    let keep_ip = NodeUpdate { id: 6, ip: None, port: Some(1), description: None };
    assert!(update_node_decision(&keep_ip, true, Some(7)).is_ok());
}

#[test]
fn value_rules() {
    assert!(check_value_tag("tag_1").is_ok());
    assert_eq!(check_value_tag("  \t").unwrap_err(), ValueError::EmptyTag);
    assert_eq!(check_value_tag("").unwrap_err(), ValueError::EmptyTag);
    assert_eq!(effective_decoding_type(Some(4), 2), 4);
    assert_eq!(effective_decoding_type(None, 2), 2);
    assert!(second_node_notice(Some(1), 2));
    assert!(!second_node_notice(Some(2), 2));
    assert!(second_node_notice(None, 2));
    assert!(!second_node_notice(None, 0));
    assert_eq!(stored_description(&Some("x".to_string())), "x");
    assert_eq!(stored_description(&None), "");
}

#[test]
fn node_change_request_checks_in_order() {
    // a missing node is answered 404 before anything else
    assert_eq!(update_node_request_check(3, false, Some(-1), true, false, Some(9)), Err((404, NodeError::NotFound)));
    // then the port
    assert_eq!(update_node_request_check(3, true, Some(70000), true, false, None), Err((400, NodeError::InvalidPort(70000))));
    // then whether the IP is an address at all
    assert_eq!(update_node_request_check(3, true, Some(502), true, false, None), Err((500, NodeError::InvalidIp)));
    // then whether another node has it
    assert_eq!(update_node_request_check(3, true, None, true, true, Some(9)), Err((400, NodeError::IpTaken(9))));
    assert_eq!(update_node_request_check(3, true, None, true, true, Some(3)), Ok(()));
    assert_eq!(update_node_request_check(3, true, None, false, false, Some(9)), Ok(()));
}

#[test]
fn node_change_command_status() {
    assert_eq!(update_node_command_status(true), 200);
    assert_eq!(update_node_command_status(false), 500);
}
