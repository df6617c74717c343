//! The records the server reads from and writes to its database and API.
use vstd::prelude::*;

verus! {

#[verifier::external_type_specification]
#[verifier::external_body]
pub struct ExJsonValue(serde_json::Value);

/// A decoding type of register values.
#[derive(Clone, Debug)]
pub struct DecodingType {
    pub id: i64,
    pub ui_name: String,
    pub program_name: String,
}

/// The UI text that goes with a decoding type.
#[derive(Clone, Debug)]
pub struct QmlDecodingAddons {
    pub id: i64,
    pub parent_type: i32,
    pub tex_for_qml: String,
}

#[derive(Clone, Debug)]
pub struct DeviceCreate {
    pub device_name: String,
    pub address: i32,
    pub parent_node_id: i32,
    pub time_for_recall: i32,
    pub timeout: i32,
    pub retry_count: i32,
    pub is_active: bool,
    pub read_by_group: bool,
    pub description: Option<String>,
}

#[derive(Clone, Debug)]
pub struct DeviceRead {
    pub id: i32,
    pub device_name: Option<String>,
    pub address: i32,
    pub parent_node_id: i32,
    pub time_for_recall: i32,
    pub timeout: i32,
    pub retry_count: i32,
    pub is_active: bool,
    pub read_by_group: bool,
    pub description: Option<String>,
    pub deleted: Option<bool>,
    pub deleted_at: Option<i64>,
}

#[derive(Clone, Debug)]
pub struct DeviceUpdate {
    pub id: i32,
    pub device_name: Option<String>,
    pub address: Option<i32>,
    pub parent_node_id: Option<i32>,
    pub time_for_recall: Option<i32>,
    pub timeout: Option<i32>,
    pub retry_count: Option<i32>,
    pub is_active: Option<bool>,
    pub read_by_group: Option<bool>,
    pub description: Option<String>,
}

#[derive(Clone, Copy, Debug)]
pub struct DeviceDelete {
    pub id: i32,
}

#[derive(Clone, Copy, Debug)]
pub struct MeasureDelete {
    pub id: i32,
}

/// A polled node (a Modbus gateway) of the network.
#[derive(Clone, Debug)]
pub struct NodeRead {
    pub id: i32,
    pub ip: String,
    pub port: Option<i32>,
    pub description: Option<String>,
}

#[derive(Clone, Debug)]
pub struct NodeCreate {
    pub ip: String,
    pub port: Option<i32>,
    pub description: Option<String>,
}

#[derive(Clone, Debug)]
pub struct NodeUpdate {
    pub id: i32,
    pub ip: Option<String>,
    pub port: Option<i32>,
    pub description: Option<String>,
}

#[derive(Clone, Copy, Debug)]
pub struct NodeDelete {
    pub id: i32,
}

/// A stored refresh token of a user.
#[derive(Clone, Debug)]
pub struct RefreshToken {
    pub user_id: i32,
    pub user_role_id: i32,
    pub token_hash: String,
    pub created_at: i64,
    pub expires_at: i64,
}

#[derive(Clone, Debug)]
pub struct UserGroupRead {
    pub id: i32,
    pub group_name: String,
    pub description: Option<String>,
}

#[derive(Clone, Debug)]
pub struct UserGroupCreate {
    pub group_name: String,
    pub description: Option<String>,
}

#[derive(Clone, Debug)]
pub struct UserGroupUpdate {
    pub id: i32,
    pub group_name: Option<String>,
    pub description: Option<String>,
}

#[derive(Clone, Copy, Debug)]
pub struct UserGroupDelete {
    pub id: i32,
}

#[derive(Clone, Debug)]
pub struct UserSubGroupRead {
    pub id: i32,
    pub group_id: i32,
    pub subgroup_name: String,
    pub description: Option<String>,
}

#[derive(Clone, Debug)]
pub struct UserSubGroupCreate {
    pub group_id: i32,
    pub subgroup_name: String,
    pub description: Option<String>,
}

#[derive(Clone, Debug)]
pub struct UserSubGroupUpdate {
    pub id: i32,
    pub group_id: Option<i32>,
    pub subgroup_name: Option<String>,
    pub description: Option<String>,
}

#[derive(Clone, Copy, Debug)]
pub struct UserSubGroupDelete {
    pub id: i32,
}

#[derive(Clone, Debug)]
pub struct UserRead {
    pub id: i32,
    pub username: String,
    pub password_hash: String,
    pub role_id: i32,
    pub is_active: bool,
}

/// The credentials a user logs in with.
#[derive(Clone, Debug)]
pub struct LoginRequest {
    pub username: String,
    pub password_raw: String,
}

#[derive(Clone, Debug)]
pub struct UserUpdate {
    pub id: i32,
    pub username: Option<String>,
    pub password_hash: Option<String>,
    pub role_id: Option<i32>,
    pub is_active: Option<bool>,
}

#[derive(Clone, Debug)]
pub struct UserCreate {
    pub username: String,
    pub password_hash: String,
    pub role_id: i32,
}

#[derive(Clone, Copy, Debug)]
pub struct UserDelete {
    pub id: i32,
}

/// A register value of a device; `settings` is its decoder's JSON.
#[derive(Debug)]
pub struct ValueCreate {
    pub parent_device_id: i32,
    pub value_name: String,
    pub value_tag: String,
    pub description: Option<String>,
    pub decoding_type: i32,
    pub settings: serde_json::Value,
    pub is_logging: bool,
}

#[derive(Debug)]
pub struct ValueRead {
    pub id: i32,
    pub parent_device_id: i32,
    pub value_name: String,
    pub value_tag: String,
    pub description: Option<String>,
    pub decoding_type: i32,
    pub settings: serde_json::Value,
    pub is_logging: bool,
}

#[derive(Debug)]
pub struct ValueUpdate {
    pub id: i32,
    pub parent_device_id: Option<i32>,
    pub value_name: Option<String>,
    pub value_tag: Option<String>,
    pub description: Option<String>,
    pub decoding_type: Option<i32>,
    pub settings: Option<serde_json::Value>,
    pub is_logging: Option<bool>,
}

/// A sub-group with its values, as the UI shows it.
#[derive(Debug)]
pub struct UiUserSubGroupsRead {
    pub group_state: UserSubGroupRead,
    pub values: Vec<ValueRead>,
}

/// A user group as the UI shows it: its sub-groups with their values, and
/// the nodes and devices those values come from.
#[derive(Debug)]
pub struct UiUserGroupRead {
    pub id: i32,
    pub sub_groups: Vec<UiUserSubGroupsRead>,
    pub nodes: Vec<i32>,
    pub devices: Vec<i32>,
}

#[derive(Clone, Copy, Debug)]
pub struct ValueDelete {
    pub id: i32,
}

/// Connection settings of the database, kept encrypted on disk.
#[derive(Clone, Debug)]
pub struct DBConf {
    pub db_user: String,
    pub db_password: String,
    pub db_address: String,
    pub db_port: u16,
}

/// The claims of an access token.
#[derive(Clone, Copy, Debug)]
pub struct Claims {
    pub id: i32,
    pub role_id: i32,
    pub exp: i64,
    pub iat: i64,
}

/// Query of a chart: comma-separated value ids and a time window.
#[derive(Clone, Debug)]
pub struct ChartQuery {
    pub value_ids: String,
    pub start_time: i64,
    pub end_time: i64,
}

/// Query of the live socket: the access token.
#[derive(Clone, Debug)]
pub struct WsParams {
    pub token: Option<String>,
}

} // verus!
