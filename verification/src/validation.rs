//! The rules that requests to create or change nodes, devices and values
//! must meet before the database is touched.
use vstd::prelude::*;
use crate::schemas::{DeviceCreate, DeviceUpdate, NodeCreate, NodeUpdate};
use crate::text::{all_digits, chars_of, digits_value, is_blank, is_digit, split_on, trim};

verus! {

/// Why a device request is refused.
#[derive(Clone, Copy, Debug, PartialEq, Eq)]
pub enum DeviceError {
    BadAddress,
    RecallNotPositive,
    RetryNotPositive,
    TimeoutNotPositive,
    ParentNotPositive,
    RecallNegative,
    TimeoutNegative,
    RetryNegative,
    ParentMissing,
    NoParentNode,
    AddressTaken,
}

/// The text the API answers for each device error.
pub open spec fn device_error_text(e: DeviceError) -> Seq<char> {
    match e {
        DeviceError::BadAddress => "Не вірна адреса пристрою"@,
        DeviceError::RecallNotPositive => "Час опитування не може бути від'ємним або нулем"@,
        DeviceError::RetryNotPositive => "Кількість повторів не може бути від'ємною або нулем"@,
        DeviceError::TimeoutNotPositive => "Час таймауту (timeout) не може бути від'ємним або нулем"@,
        DeviceError::ParentNotPositive => "id Батьківської ноди не може бути від'ємним"@,
        DeviceError::RecallNegative => "Час опитування не може бути від'ємним"@,
        DeviceError::TimeoutNegative => "Час таймауту не може бути від'ємним"@,
        DeviceError::RetryNegative => "Кількість повторів не може бути від'ємною"@,
        DeviceError::ParentMissing => "Ноди з таким id не існує"@,
        DeviceError::NoParentNode => "Помилка створення пристрою, відсутня батьківська нода: "@,
        DeviceError::AddressTaken => "Ця нода уже має пристрій з такою адресою"@,
    }
}

impl DeviceError {
    /// The text the API answers for this error.
    pub fn message(&self) -> (r: &'static str)
        ensures
            r@ == device_error_text(*self),
    {
        match self {
            DeviceError::BadAddress => "Не вірна адреса пристрою",
            DeviceError::RecallNotPositive => "Час опитування не може бути від'ємним або нулем",
            DeviceError::RetryNotPositive => "Кількість повторів не може бути від'ємною або нулем",
            DeviceError::TimeoutNotPositive => "Час таймауту (timeout) не може бути від'ємним або нулем",
            DeviceError::ParentNotPositive => "id Батьківської ноди не може бути від'ємним",
            DeviceError::RecallNegative => "Час опитування не може бути від'ємним",
            DeviceError::TimeoutNegative => "Час таймауту не може бути від'ємним",
            DeviceError::RetryNegative => "Кількість повторів не може бути від'ємною",
            DeviceError::ParentMissing => "Ноди з таким id не існує",
            DeviceError::NoParentNode => "Помилка створення пристрою, відсутня батьківська нода: ",
            DeviceError::AddressTaken => "Ця нода уже має пристрій з такою адресою",
        }
    }
}

/// A Modbus slave address is a byte.
pub open spec fn address_ok(address: i32) -> bool {
    0 <= address <= 255
}

/// The first rule a new device breaks, in the order they are checked.
pub open spec fn device_create_error(
    address: i32,
    recall: i32,
    retry: i32,
    timeout: i32,
    parent: i32,
) -> Option<DeviceError> {
    if !address_ok(address) {
        Some(DeviceError::BadAddress)
    } else if recall <= 0 {
        Some(DeviceError::RecallNotPositive)
    } else if retry <= 0 {
        Some(DeviceError::RetryNotPositive)
    } else if timeout <= 0 {
        Some(DeviceError::TimeoutNotPositive)
    } else if parent <= 0 {
        Some(DeviceError::ParentNotPositive)
    } else {
        None
    }
}

/// The first rule a device change breaks: a given address must be a byte,
/// and given polling time, timeout and retry count must not be negative.
pub open spec fn device_update_error(
    address: Option<i32>,
    recall: Option<i32>,
    timeout: Option<i32>,
    retry: Option<i32>,
) -> Option<DeviceError> {
    if address matches Some(a) && !address_ok(a) {
        Some(DeviceError::BadAddress)
    } else if recall matches Some(r) && r < 0 {
        Some(DeviceError::RecallNegative)
    } else if timeout matches Some(t) && t < 0 {
        Some(DeviceError::TimeoutNegative)
    } else if retry matches Some(r) && r < 0 {
        Some(DeviceError::RetryNegative)
    } else {
        None
    }
}

/// Checks a new device: address a byte, polling time, retry count,
/// timeout and parent node id positive.
pub fn validate_device_create(d: &DeviceCreate) -> (r: Result<(), DeviceError>)
    ensures
        match device_create_error(d.address, d.time_for_recall, d.retry_count, d.timeout, d.parent_node_id) {
            Some(e) => r == Err::<(), DeviceError>(e),
            None => r is Ok,
        },
{
    if d.address < 0 || d.address > 255 {
        return Err(DeviceError::BadAddress);
    }
    if d.time_for_recall <= 0 {
        return Err(DeviceError::RecallNotPositive);
    }
    if d.retry_count <= 0 {
        return Err(DeviceError::RetryNotPositive);
    }
    if d.timeout <= 0 {
        return Err(DeviceError::TimeoutNotPositive);
    }
    if d.parent_node_id <= 0 {
        return Err(DeviceError::ParentNotPositive);
    }
    Ok(())
}

/// Checks a device change as the API does.
pub fn validate_device_update(d: &DeviceUpdate) -> (r: Result<(), DeviceError>)
    ensures
        match device_update_error(d.address, d.time_for_recall, d.timeout, d.retry_count) {
            Some(e) => r == Err::<(), DeviceError>(e),
            None => r is Ok,
        },
{
    if let Some(addr) = d.address {
        if addr < 0 || addr > 255 {
            return Err(DeviceError::BadAddress);
        }
    }
    if let Some(recall) = d.time_for_recall {
        if recall < 0 {
            return Err(DeviceError::RecallNegative);
        }
    }
    if let Some(timeout) = d.timeout {
        if timeout < 0 {
            return Err(DeviceError::TimeoutNegative);
        }
    }
    if let Some(retry) = d.retry_count {
        if retry < 0 {
            return Err(DeviceError::RetryNegative);
        }
    }
    Ok(())
}

/// Checks a device change as the database worker does: the API's rules,
/// then a given parent node id must be positive.
pub fn validate_device_update_record(d: &DeviceUpdate) -> (r: Result<(), DeviceError>)
    ensures
        match device_update_error(d.address, d.time_for_recall, d.timeout, d.retry_count) {
            Some(e) => r == Err::<(), DeviceError>(e),
            None => match d.parent_node_id {
                Some(p) => if p <= 0 {
                    r == Err::<(), DeviceError>(DeviceError::ParentNotPositive)
                } else {
                    r is Ok
                },
                None => r is Ok,
            },
        },
{
    validate_device_update(d)?;
    if let Some(p) = d.parent_node_id {
        if p <= 0 {
            return Err(DeviceError::ParentNotPositive);
        }
    }
    Ok(())
}

/// Whether a device found at the same address of the same node belongs
/// to another device than the one `own_id` names (`None` for a new device).
pub fn address_taken(found_id: Option<i32>, own_id: Option<i32>) -> (r: bool)
    ensures
        r == match (found_id, own_id) {
            (Some(f), Some(o)) => f != o,
            (Some(_), None) => true,
            (None, _) => false,
        },
{
    match (found_id, own_id) {
        (Some(f), Some(o)) => f != o,
        (Some(_), None) => true,
        (None, _) => false,
    }
}

/// What the database worker decides on a new device, given whether its
/// parent node exists and which device, if any, already has its address
/// on that node: the request's own rules first, then the parent, then the
/// address.
pub open spec fn create_device_outcome(d: DeviceCreate, parent_found: bool, holder: Option<i32>) -> Result<(), DeviceError> {
    match device_create_error(d.address, d.time_for_recall, d.retry_count, d.timeout, d.parent_node_id) {
        Some(e) => Err(e),
        None => if !parent_found {
            Err(DeviceError::NoParentNode)
        } else if holder is Some {
            Err(DeviceError::AddressTaken)
        } else {
            Ok(())
        },
    }
}

/// Decides on a new device as the database worker does.
pub fn create_device_decision(d: &DeviceCreate, parent_found: bool, holder: Option<i32>) -> (r: Result<(), DeviceError>)
    ensures
        r == create_device_outcome(*d, parent_found, holder),
{
    validate_device_create(d)?;
    if !parent_found {
        return Err(DeviceError::NoParentNode);
    }
    if address_taken(holder, None) {
        return Err(DeviceError::AddressTaken);
    }
    Ok(())
}

/// A device change is checked for a clash of addresses only when it moves
/// the device: a new address or a new parent node.
pub fn needs_address_check(d: &DeviceUpdate) -> (r: bool)
    ensures
        r == (d.address is Some || d.parent_node_id is Some),
{
    d.address.is_some() || d.parent_node_id.is_some()
}

/// What the database worker decides on a device change, given whether the
/// new parent node exists (`None` when no parent is given) and which device,
/// if any, has the resulting address on the resulting node.
pub open spec fn update_device_outcome(d: DeviceUpdate, parent_found: Option<bool>, holder: Option<i32>) -> Result<(), DeviceError> {
    match device_update_error(d.address, d.time_for_recall, d.timeout, d.retry_count) {
        Some(e) => Err(e),
        None => if d.parent_node_id matches Some(p) && p <= 0 {
            Err(DeviceError::ParentNotPositive)
        } else if d.parent_node_id is Some && parent_found == Some(false) {
            Err(DeviceError::ParentMissing)
        } else if (d.address is Some || d.parent_node_id is Some) && (holder matches Some(h) && h != d.id) {
            Err(DeviceError::AddressTaken)
        } else {
            Ok(())
        },
    }
}

/// Decides on a device change as the database worker does.
pub fn update_device_decision(d: &DeviceUpdate, parent_found: Option<bool>, holder: Option<i32>) -> (r: Result<(), DeviceError>)
    ensures
        r == update_device_outcome(*d, parent_found, holder),
{
    validate_device_update_record(d)?;
    if d.parent_node_id.is_some() {
        if let Some(false) = parent_found {
            return Err(DeviceError::ParentMissing);
        }
    }
    if needs_address_check(d) && address_taken(holder, Some(d.id)) {
        return Err(DeviceError::AddressTaken);
    }
    Ok(())
}

/// The description stored for a record: the given one, or empty.
pub fn stored_description(description: &Option<String>) -> (r: String)
    ensures
        r@ == match description {
            Some(s) => s@,
            None => Seq::<char>::empty(),
        },
{
    match description {
        Some(s) => s.clone(),
        None => String::new(),
    }
}

/// Why a node request is refused.
#[derive(Clone, Copy, Debug, PartialEq, Eq)]
pub enum NodeError {
    InvalidIp,
    InvalidPort(i32),
    IpTaken(i32),
    NotFound,
}

/// The Modbus/TCP port a node gets when none is given.
pub const DEFAULT_PORT: i32 = 502;

pub open spec fn port_ok(port: i32) -> bool {
    0 <= port <= 65535
}

/// An octet of a dotted-quad address: one to three digits without a
/// leading zero, at most 255.
pub open spec fn octet_ok(p: Seq<char>) -> bool {
    &&& 1 <= p.len() <= 3
    &&& all_digits(p)
    &&& (p[0] != '0' || p.len() == 1)
    &&& digits_value(p) <= 255
}

/// `text` is an IPv4 address as `Ipv4Addr`'s `FromStr` reads it: four
/// octets separated by dots.
pub open spec fn is_ipv4_text(text: Seq<char>) -> bool {
    let parts = split_on(text, '.');
    parts.len() == 4 && forall|i: int| 0 <= i < 4 ==> octet_ok(#[trigger] parts[i])
}

/// Whether `cs[a..b]` is an octet.
fn octet_range_ok(cs: &Vec<char>, a: usize, b: usize) -> (r: bool)
    requires
        a <= b <= cs@.len(),
    ensures
        r == octet_ok(cs@.subrange(a as int, b as int)),
{
    let ghost p = cs@.subrange(a as int, b as int);
    if b - a < 1 || b - a > 3 {
        return false;
    }
    let mut i: usize = a;
    let mut v: u32 = 0;
    while i < b
        invariant
            a <= i <= b <= cs@.len(),
            b - a <= 3,
            p == cs@.subrange(a as int, b as int),
            forall|k: int| a <= k < i ==> is_digit(#[trigger] cs@[k]),
            v == digits_value(cs@.subrange(a as int, i as int)),
            v <= (if i - a == 0 {
                0int
            } else if i - a == 1 {
                9int
            } else if i - a == 2 {
                99int
            } else {
                999int
            }),
        decreases b - i,
    {
        let c = cs[i];
        if !('0' <= c && c <= '9') {
            assert(p[i - a] == c);
            assert(!all_digits(p));
            return false;
        }
        proof {
            assert(cs@.subrange(a as int, i + 1) =~= cs@.subrange(a as int, i as int).push(c));
            assert(cs@.subrange(a as int, i + 1).drop_last() =~= cs@.subrange(a as int, i as int));
        }
        v = v * 10 + (c as u32 - '0' as u32);
        i = i + 1;
    }
    assert forall|k: int| 0 <= k < p.len() implies is_digit(#[trigger] p[k]) by {
        assert(p[k] == cs@[a + k]);
    }
    assert(cs@.subrange(a as int, b as int) =~= p);
    (cs[a] != '0' || b - a == 1) && v <= 255
}

/// The `k`-th piece is the slice `cs[starts[k]..ends[k]]`.
spec fn span_at(done: Seq<Seq<char>>, starts: Seq<usize>, ends: Seq<usize>, cs: Seq<char>, k: int) -> bool {
    &&& starts[k] <= ends[k]
    &&& ends[k] <= cs.len()
    &&& done[k] == cs.subrange(starts[k] as int, ends[k] as int)
}

/// `done[k]` is the slice `cs[starts[k]..ends[k]]` for every `k`.
spec fn spans_match(done: Seq<Seq<char>>, starts: Seq<usize>, ends: Seq<usize>, cs: Seq<char>) -> bool {
    &&& starts.len() == done.len()
    &&& ends.len() == done.len()
    &&& forall|k: int| 0 <= k < done.len() ==> #[trigger] span_at(done, starts, ends, cs, k)
}

proof fn lemma_spans_push(
    done: Seq<Seq<char>>,
    starts: Seq<usize>,
    ends: Seq<usize>,
    cs: Seq<char>,
    a: usize,
    b: usize,
)
    requires
        spans_match(done, starts, ends, cs),
        a <= b <= cs.len(),
    ensures
        spans_match(
            done.push(cs.subrange(a as int, b as int)),
            starts.push(a),
            ends.push(b),
            cs,
        ),
{
    let d2 = done.push(cs.subrange(a as int, b as int));
    let s2 = starts.push(a);
    let e2 = ends.push(b);
    assert forall|k: int| 0 <= k < d2.len() implies #[trigger] span_at(d2, s2, e2, cs, k) by {
        if k < done.len() {
            assert(span_at(done, starts, ends, cs, k));
            assert(d2[k] == done[k]);
            assert(s2[k] == starts[k]);
            assert(e2[k] == ends[k]);
        }
    }
}

/// Whether `text` is an IPv4 address, as `text.parse::<Ipv4Addr>()` decides.
pub fn is_ipv4(text: &str) -> (r: bool)
    ensures
        r == is_ipv4_text(text@),
{
    let cs = chars_of(text);
    let n: usize = cs.len();
    let mut starts: Vec<usize> = Vec::new();
    let mut ends: Vec<usize> = Vec::new();
    let mut piece_start: usize = 0;
    let mut i: usize = 0;
    let ghost mut done: Seq<Seq<char>> = Seq::empty();
    proof {
        assert(cs@.subrange(0, 0) =~= Seq::<char>::empty());
        assert(split_on(Seq::<char>::empty(), '.') =~= done.push(Seq::<char>::empty()));
    }
    while i < n
        invariant
            n == cs@.len(),
            piece_start <= i <= n,
            split_on(cs@.subrange(0, i as int), '.') == done.push(
                cs@.subrange(piece_start as int, i as int),
            ),
            spans_match(done, starts@, ends@, cs@),
        decreases n - i,
    {
        let ghost prefix = cs@.subrange(0, i as int);
        proof {
            assert(cs@.subrange(0, i + 1).drop_last() =~= prefix);
            assert(cs@.subrange(0, i + 1).last() == cs@[i as int]);
        }
        if cs[i] == '.' {
            proof {
                lemma_spans_push(done, starts@, ends@, cs@, piece_start, i);
                done = done.push(cs@.subrange(piece_start as int, i as int));
            }
            starts.push(piece_start);
            ends.push(i);
            piece_start = i + 1;
            proof {
                assert(cs@.subrange(piece_start as int, i + 1) =~= Seq::<char>::empty());
            }
        } else {
            proof {
                assert(cs@.subrange(piece_start as int, i + 1) =~= cs@.subrange(
                    piece_start as int,
                    i as int,
                ).push(cs@[i as int]));
                assert(done.push(cs@.subrange(piece_start as int, i as int)).update(
                    done.len() as int,
                    cs@.subrange(piece_start as int, i + 1),
                ) =~= done.push(cs@.subrange(piece_start as int, i + 1)));
            }
        }
        i = i + 1;
    }
    proof {
        lemma_spans_push(done, starts@, ends@, cs@, piece_start, n);
    }
    starts.push(piece_start);
    ends.push(n);
    let ghost parts = done.push(cs@.subrange(piece_start as int, n as int));
    proof {
        assert(cs@.subrange(0, n as int) =~= text@);
    }
    if starts.len() != 4 {
        return false;
    }
    let mut k: usize = 0;
    while k < 4
        invariant
            parts.len() == 4,
            parts == split_on(text@, '.'),
            n == cs@.len(),
            spans_match(parts, starts@, ends@, cs@),
            k <= 4,
            forall|j: int| 0 <= j < k ==> octet_ok(#[trigger] parts[j]),
        decreases 4 - k,
    {
        assert(span_at(parts, starts@, ends@, cs@, k as int));
        if !octet_range_ok(&cs, starts[k], ends[k]) {
            return false;
        }
        k = k + 1;
    }
    true
}

/// The database worker accepts only an IPv4 address.
pub fn check_ipv4(ip: &str) -> (r: Result<(), NodeError>)
    ensures
        (r is Ok <==> is_ipv4_text(ip@)),
        (r matches Err(e) ==> e == NodeError::InvalidIp),
{
    if is_ipv4(ip) {
        Ok(())
    } else {
        Err(NodeError::InvalidIp)
    }
}

/// The port a new node gets: the given one, or 502; it must be a TCP port.
pub fn resolve_create_port(port: Option<i32>) -> (r: Result<i32, NodeError>)
    ensures
        ({
            let p: i32 = match port {
                Some(p) => p,
                None => DEFAULT_PORT,
            };
            &&& port_ok(p) ==> r == Ok::<i32, NodeError>(p)
            &&& !port_ok(p) ==> r == Err::<i32, NodeError>(NodeError::InvalidPort(p))
        }),
{
    let p: i32 = match port {
        Some(p) => p,
        None => DEFAULT_PORT,
    };
    if p < 0 || p > 65535 {
        Err(NodeError::InvalidPort(p))
    } else {
        Ok(p)
    }
}

/// A port given to change a node must be a TCP port.
pub fn check_update_port(port: Option<i32>) -> (r: Result<(), NodeError>)
    ensures
        match port {
            Some(p) => if port_ok(p) {
                r is Ok
            } else {
                r == Err::<(), NodeError>(NodeError::InvalidPort(p))
            },
            None => r is Ok,
        },
{
    if let Some(p) = port {
        if !(0 <= p && p <= 65535) {
            return Err(NodeError::InvalidPort(p));
        }
    }
    Ok(())
}

/// The node found with the requested IP refuses the request when it is
/// another node than `own_id` (`None` for a new node).
pub fn check_ip_free(found_id: Option<i32>, own_id: Option<i32>) -> (r: Result<(), NodeError>)
    ensures
        match (found_id, own_id) {
            (Some(f), Some(o)) => if f != o {
                r == Err::<(), NodeError>(NodeError::IpTaken(f))
            } else {
                r is Ok
            },
            (Some(f), None) => r == Err::<(), NodeError>(NodeError::IpTaken(f)),
            (None, _) => r is Ok,
        },
{
    match found_id {
        Some(f) => {
            if let Some(o) = own_id {
                if f == o {
                    return Ok(());
                }
            }
            Err(NodeError::IpTaken(f))
        },
        None => Ok(()),
    }
}

/// A port typed in for the database configuration must be a TCP port.
pub fn config_port(port: i32) -> (r: Option<u16>)
    ensures
        port_ok(port) ==> r == Some(port as u16),
        !port_ok(port) ==> r is None,
{
    if port >= 0 && port <= 65535 {
        Some(port as u16)
    } else {
        None
    }
}

/// What the database worker decides on a new node, given which node, if
/// any, already has its IP: the IP must be IPv4 and free.
pub open spec fn create_node_outcome(ip: Seq<char>, ip_holder: Option<i32>) -> Result<(), NodeError> {
    if !is_ipv4_text(ip) {
        Err(NodeError::InvalidIp)
    } else if ip_holder is Some {
        Err(NodeError::IpTaken(ip_holder->0))
    } else {
        Ok(())
    }
}

/// Decides on a new node as the database worker does.
pub fn create_node_decision(node: &NodeCreate, ip_holder: Option<i32>) -> (r: Result<(), NodeError>)
    ensures
        r == create_node_outcome(node.ip@, ip_holder),
{
    if !is_ipv4(node.ip.as_str()) {
        return Err(NodeError::InvalidIp);
    }
    match ip_holder {
        Some(h) => Err(NodeError::IpTaken(h)),
        None => Ok(()),
    }
}

/// How a node change request is answered before it reaches the database
/// worker, given whether node `id` exists, the port asked for, whether an IP
/// is asked for and reads as an IP address (v4 or v6), and which node, if
/// any, has that IP: in this order, a missing node (404), a port that is no
/// TCP port (400), an IP that is no address (500), an IP of another node
/// (400); else it goes on to the worker.
pub open spec fn update_node_request_outcome(
    id: i32,
    exists: bool,
    port: Option<i32>,
    ip_given: bool,
    ip_is_address: bool,
    ip_holder: Option<i32>,
) -> Result<(), (u16, NodeError)> {
    if !exists {
        Err((404, NodeError::NotFound))
    } else if port matches Some(p) && !port_ok(p) {
        Err((400, NodeError::InvalidPort(port->0)))
    } else if ip_given && !ip_is_address {
        Err((500, NodeError::InvalidIp))
    } else if ip_given && (ip_holder matches Some(h) && h != id) {
        Err((400, NodeError::IpTaken(ip_holder->0)))
    } else {
        Ok(())
    }
}

/// Checks a node change request as the API does before handing it to the
/// database worker; see `update_node_request_outcome`. The IP's holder
/// matters only after the other checks pass, so a caller may first check
/// with `None` and look the holder up only then.
pub fn update_node_request_check(
    id: i32,
    exists: bool,
    port: Option<i32>,
    ip_given: bool,
    ip_is_address: bool,
    ip_holder: Option<i32>,
) -> (r: Result<(), (u16, NodeError)>)
    ensures
        r == update_node_request_outcome(id, exists, port, ip_given, ip_is_address, ip_holder),
{
    if !exists {
        return Err((404, NodeError::NotFound));
    }
    if let Err(e) = check_update_port(port) {
        return Err((400, e));
    }
    if ip_given && !ip_is_address {
        return Err((500, NodeError::InvalidIp));
    }
    if ip_given {
        if let Some(h) = ip_holder {
            if h != id {
                return Err((400, NodeError::IpTaken(h)));
            }
        }
    }
    Ok(())
}

/// The status of a node change once the worker has answered: 200 when it
/// made the change, 500 when it refused it or failed.
pub fn update_node_command_status(worker_done: bool) -> (r: u16)
    ensures
        r == (if worker_done { 200u16 } else { 500u16 }),
{
    if worker_done {
        200
    } else {
        500
    }
}

/// What the database worker decides on a node change, given whether the
/// node exists and which node, if any, has the new IP: the node must
/// exist; a new IP must be IPv4 and not another node's.
pub open spec fn update_node_outcome(node: NodeUpdate, exists: bool, ip_holder: Option<i32>) -> Result<(), NodeError> {
    if !exists {
        Err(NodeError::NotFound)
    } else {
        match node.ip {
            None => Ok(()),
            Some(ip) => if !is_ipv4_text(ip@) {
                Err(NodeError::InvalidIp)
            } else if ip_holder matches Some(h) && h != node.id {
                Err(NodeError::IpTaken(ip_holder->0))
            } else {
                Ok(())
            },
        }
    }
}

/// Decides on a node change as the database worker does.
pub fn update_node_decision(node: &NodeUpdate, exists: bool, ip_holder: Option<i32>) -> (r: Result<(), NodeError>)
    ensures
        r == update_node_outcome(*node, exists, ip_holder),
{
    if !exists {
        return Err(NodeError::NotFound);
    }
    match &node.ip {
        None => Ok(()),
        Some(ip) => {
            if !is_ipv4(ip.as_str()) {
                return Err(NodeError::InvalidIp);
            }
            match ip_holder {
                Some(h) => if h != node.id {
                    Err(NodeError::IpTaken(h))
                } else {
                    Ok(())
                },
                None => Ok(()),
            }
        },
    }
}

/// Why a value request is refused.
#[derive(Clone, Copy, Debug, PartialEq, Eq)]
pub enum ValueError {
    EmptyTag,
}

impl ValueError {
    /// The text the API answers for this error.
    pub fn message(&self) -> (r: &'static str)
        ensures
            r@ == "Тег значення (value_tag) не може бути пустим"@,
    {
        "Тег значення (value_tag) не може бути пустим"
    }
}

/// A value's tag must hold something besides white space.
pub fn check_value_tag(tag: &str) -> (r: Result<(), ValueError>)
    ensures
        (r is Ok <==> trim(tag@).len() > 0),
        (r matches Err(e) ==> e == ValueError::EmptyTag),
{
    if is_blank(tag) {
        Err(ValueError::EmptyTag)
    } else {
        Ok(())
    }
}

/// The decoding type a value's new settings are checked against: the
/// new one if given, else the stored one.
pub fn effective_decoding_type(new_type: Option<i32>, stored: i32) -> (r: i32)
    ensures
        r == match new_type {
            Some(t) => t,
            None => stored,
        },
{
    match new_type {
        Some(t) => t,
        None => stored,
    }
}

/// After a value moved, the node of its new device is told of the change
/// too, unless it is the node already told (id 0 when none was).
pub fn second_node_notice(first_node: Option<i32>, new_node: i32) -> (r: bool)
    ensures
        r == (new_node != match first_node {
            Some(n) => n,
            None => 0,
        }),
{
    let told: i32 = match first_node {
        Some(n) => n,
        None => 0,
    };
    told != new_node
}


/// A device that passes the rules for creating it also passes the rules
/// for changing a device when all its settings are sent again.
pub proof fn law_create_rules_imply_update_rules(address: i32, recall: i32, retry: i32, timeout: i32, parent: i32)
    requires
        device_create_error(address, recall, retry, timeout, parent) is None,
    ensures
        device_update_error(Some(address), Some(recall), Some(timeout), Some(retry)) is None,
{
}

/// Some row of `rows` (the devices not deleted, as (id, parent node,
/// address)) has this address on this node.
pub open spec fn address_used(rows: Seq<(i32, i32, i32)>, parent: i32, address: i32) -> bool {
    exists|i: int| 0 <= i < rows.len() && (#[trigger] rows[i]).1 == parent && rows[i].2 == address
}

/// The device that the lookup by node and address finds among `rows`.
pub open spec fn address_holder(rows: Seq<(i32, i32, i32)>, parent: i32, address: i32) -> Option<i32> {
    if address_used(rows, parent, address) {
        Some(rows[choose|i: int| 0 <= i < rows.len() && (#[trigger] rows[i]).1 == parent && rows[i].2 == address].0)
    } else {
        None
    }
}

/// No two devices of `rows` share an address on the same node.
pub open spec fn addresses_unique(rows: Seq<(i32, i32, i32)>) -> bool {
    forall|i: int, j: int|
        0 <= i < j < rows.len() ==> !((#[trigger] rows[i]).1 == (#[trigger] rows[j]).1 && rows[i].2 == rows[j].2)
}

/// The devices after a creation with outcome `outcome`: the new row, as
/// `new_id`, joins them only when the creation is accepted.
pub open spec fn rows_after_create(
    rows: Seq<(i32, i32, i32)>,
    d: DeviceCreate,
    new_id: i32,
    outcome: Result<(), DeviceError>,
) -> Seq<(i32, i32, i32)> {
    if outcome is Ok {
        rows.push((new_id, d.parent_node_id, d.address))
    } else {
        rows
    }
}

/// Law: a new device that passes its own rules, on a node that exists, is
/// refused with `AddressTaken` exactly when a device not deleted already has
/// its address on that node, and is accepted otherwise; a refused creation
/// leaves the devices as they were and an accepted one adds its row, so no
/// two devices ever share an address on a node.
pub proof fn law_device_addresses_stay_unique(rows: Seq<(i32, i32, i32)>, d: DeviceCreate, new_id: i32)
    requires
        addresses_unique(rows),
        device_create_error(d.address, d.time_for_recall, d.retry_count, d.timeout, d.parent_node_id) is None,
    ensures
        ({
            let out = create_device_outcome(d, true, address_holder(rows, d.parent_node_id, d.address));
            &&& (out == Err::<(), DeviceError>(DeviceError::AddressTaken)) <==> address_used(
                rows,
                d.parent_node_id,
                d.address,
            )
            &&& (out is Ok) <==> !address_used(rows, d.parent_node_id, d.address)
            &&& addresses_unique(rows_after_create(rows, d, new_id, out))
            &&& out is Err ==> rows_after_create(rows, d, new_id, out) == rows
        }),
{
    let out = create_device_outcome(d, true, address_holder(rows, d.parent_node_id, d.address));
    let after = rows_after_create(rows, d, new_id, out);
    if out is Ok {
        assert forall|i: int, j: int| 0 <= i < j < after.len() implies !((#[trigger] after[i]).1 == (
        #[trigger] after[j]).1 && after[i].2 == after[j].2) by {
            if j == rows.len() {
                assert(after[i] == rows[i]);
                if after[i].1 == after[j].1 && after[i].2 == after[j].2 {
                    assert(address_used(rows, d.parent_node_id, d.address));
                }
            } else {
                assert(after[i] == rows[i]);
                assert(after[j] == rows[j]);
            }
        }
    }
}

/// Law: a device change that passes its own rules, whose new parent node (if
/// any) is positive and exists, and that moves the device (a new address, a
/// new parent node, or both) is refused with `AddressTaken` exactly when
/// another device has the resulting address on the resulting node, and is
/// accepted otherwise. A change that moves nothing is never refused.
pub proof fn law_device_update_address_clash(d: DeviceUpdate, holder: Option<i32>)
    requires
        device_update_error(d.address, d.time_for_recall, d.timeout, d.retry_count) is None,
        !(d.parent_node_id matches Some(p) && p <= 0),
    ensures
        ({
            let found: Option<bool> = if d.parent_node_id is Some { Some(true) } else { None };
            let out = update_device_outcome(d, found, holder);
            let moves = d.address is Some || d.parent_node_id is Some;
            let other = holder matches Some(h) && h != d.id;
            &&& moves ==> ((out == Err::<(), DeviceError>(DeviceError::AddressTaken)) <==> other)
            &&& (out is Ok) <==> !(moves && other)
            &&& !moves ==> out is Ok
        }),
{
}

/// No two devices of `rows` have the same id.
pub open spec fn ids_unique(rows: Seq<(i32, i32, i32)>) -> bool {
    forall|i: int, j: int| 0 <= i < j < rows.len() ==> (#[trigger] rows[i]).0 != (#[trigger] rows[j]).0
}

/// Law: a device change accepted as above, with the address holder looked up
/// among the devices not deleted (`rows`, as (id, parent node, address)),
/// keeps the addresses unique: the device's row gets its resulting node and
/// address, and no two devices then share an address on a node.
pub proof fn law_device_update_keeps_addresses_unique(rows: Seq<(i32, i32, i32)>, k: int, d: DeviceUpdate)
    requires
        addresses_unique(rows),
        ids_unique(rows),
        0 <= k < rows.len(),
        rows[k].0 == d.id,
        device_update_error(d.address, d.time_for_recall, d.timeout, d.retry_count) is None,
        !(d.parent_node_id matches Some(p) && p <= 0),
    ensures
        ({
            let parent = match d.parent_node_id {
                Some(p) => p,
                None => rows[k].1,
            };
            let address = match d.address {
                Some(a) => a,
                None => rows[k].2,
            };
            let found: Option<bool> = if d.parent_node_id is Some { Some(true) } else { None };
            update_device_outcome(d, found, address_holder(rows, parent, address)) is Ok ==> addresses_unique(
                rows.update(k, (d.id, parent, address)),
            )
        }),
{
    let parent = match d.parent_node_id {
        Some(p) => p,
        None => rows[k].1,
    };
    let address = match d.address {
        Some(a) => a,
        None => rows[k].2,
    };
    let found: Option<bool> = if d.parent_node_id is Some { Some(true) } else { None };
    let holder = address_holder(rows, parent, address);
    let out = update_device_outcome(d, found, holder);
    let after = rows.update(k, (d.id, parent, address));
    if out is Ok {
        if rows[k] == (d.id, parent, address) {
            assert(after =~= rows);
        } else {
            assert(d.address is Some || d.parent_node_id is Some);
            if address_used(rows, parent, address) {
                let c = choose|i: int| 0 <= i < rows.len() && (#[trigger] rows[i]).1 == parent && rows[i].2 == address;
                assert(holder == Some(rows[c].0));
                assert(rows[c].0 == d.id);
                if c != k {
                    if c < k {
                        assert(rows[c].0 != rows[k].0);
                    } else {
                        assert(rows[k].0 != rows[c].0);
                    }
                }
                assert(false);
            }
            assert forall|i: int, j: int| 0 <= i < j < after.len() implies !((#[trigger] after[i]).1 == (
            #[trigger] after[j]).1 && after[i].2 == after[j].2) by {
                if i == k {
                    assert(after[j] == rows[j]);
                    if after[j].1 == parent && after[j].2 == address {
                        assert(address_used(rows, parent, address));
                    }
                } else if j == k {
                    assert(after[i] == rows[i]);
                    if after[i].1 == parent && after[i].2 == address {
                        assert(address_used(rows, parent, address));
                    }
                } else {
                    assert(after[i] == rows[i]);
                    assert(after[j] == rows[j]);
                }
            }
        }
    }
}

/// Law: a node change is accepted only for a node that exists and, when it
/// gives a new IP, only if that IP is IPv4 text that no other node has.
pub proof fn law_node_update_ip(node: NodeUpdate, exists: bool, ip_holder: Option<i32>)
    ensures
        update_node_outcome(node, exists, ip_holder) is Ok ==> exists,
        node.ip matches Some(ip) ==> (update_node_outcome(node, exists, ip_holder) is Ok ==> is_ipv4_text(ip@)),
        node.ip is Some && update_node_outcome(node, exists, ip_holder) is Ok ==> !(ip_holder matches Some(h)
            && h != node.id),
        node.ip matches Some(ip) ==> (exists && !is_ipv4_text(ip@) ==> update_node_outcome(node, exists, ip_holder)
            == Err::<(), NodeError>(NodeError::InvalidIp)),
        exists && node.ip is None ==> update_node_outcome(node, exists, ip_holder) is Ok,
{
}

/// A new node is refused exactly when its IP is not IPv4 or another node
/// already has it.
pub proof fn law_node_ip_is_unique(ip: Seq<char>, holder: Option<i32>)
    ensures
        (create_node_outcome(ip, holder) is Ok) <==> (is_ipv4_text(ip) && holder is None),
{
}

} // verus!
