//! Live data for web-socket subscribers: the last known state of each
//! node, device and value, the subscriptions, and the changes each
//! subscriber is still to be sent.
//!
//! The states of nodes and devices are of the caller's types `N` and `D`;
//! a value is a tag and the bits of its `f64` reading.
use std::collections::HashMap;
use std::collections::HashSet;
use std::hash::Hash;
use vstd::prelude::*;
use vstd::std_specs::cmp::PartialEqSpec;
use vstd::std_specs::hash::obeys_key_model;
use crate::float_bits::{float_eq, ieee_eq, is_nan_bits};

verus! {

/// Records `value` under `key` unless the map already holds an equal value
/// there. Returns whether the map changed.
pub fn check_change<K: Eq + Hash, V: PartialEq>(target: &mut HashMap<K, V>, key: K, value: V) -> (r: bool)
    requires
        obeys_key_model::<K>(),
        V::obeys_eq_spec(),
    ensures
        r == !(old(target)@.contains_key(key) && old(target)@[key].eq_spec(&value)),
        final(target)@ == (if r {
            old(target)@.insert(key, value)
        } else {
            old(target)@
        }),
{
    match target.entry(key) {
        std::collections::hash_map::Entry::Occupied(mut entry) => {
            if *entry.get() == value {
                false
            } else {
                entry.insert(value);
                true
            }
        },
        std::collections::hash_map::Entry::Vacant(entry) => {
            entry.insert(value);
            true
        },
    }
}


/// A node's new state, as a subscriber is sent it.
#[derive(Clone, Copy, Debug)]
pub struct NodeChange<N> {
    pub id: i32,
    pub state: N,
}

/// A device's new state, as a subscriber is sent it.
#[derive(Clone, Copy, Debug)]
pub struct DeviceChange<D> {
    pub id: i32,
    pub state: D,
}

/// A value's new reading (the bits of an `f64`), as a subscriber is sent it.
#[derive(Clone, Debug)]
pub struct ValueChange {
    pub tag: String,
    pub value: u64,
}

/// The changes a subscriber is sent at once.
#[derive(Clone, Debug)]
pub struct Changes<N, D> {
    pub nodes: Vec<NodeChange<N>>,
    pub devices: Vec<DeviceChange<D>>,
    pub values: Vec<ValueChange>,
}

/// A value change as a pair of its tag's text and its bits.
pub open spec fn value_pair(c: ValueChange) -> (Seq<char>, u64) {
    (c.tag@, c.value)
}

/// One web-socket subscriber: what it watches, the channel its messages go
/// to, and the changes it is still to be sent.
pub struct CoordUnitWebSocketData<N, D, C> {
    tags: Vec<String>,
    nodes: HashSet<i32>,
    devices: HashSet<i32>,
    channel: C,
    node_changes: Vec<NodeChange<N>>,
    device_changes: Vec<DeviceChange<D>>,
    value_changes: Vec<ValueChange>,
}

impl<N: Copy, D: Copy, C> CoordUnitWebSocketData<N, D, C> {
    /// The tags it watches, in the order they were asked for.
    pub closed spec fn watched_tags(&self) -> Seq<Seq<char>> {
        self.tags@.map_values(|t: String| t@)
    }

    pub closed spec fn watched_nodes(&self) -> Set<i32> {
        self.nodes@
    }

    pub closed spec fn watched_devices(&self) -> Set<i32> {
        self.devices@
    }

    pub closed spec fn spec_channel(&self) -> C {
        self.channel
    }

    pub closed spec fn pending_nodes(&self) -> Seq<NodeChange<N>> {
        self.node_changes@
    }

    pub closed spec fn pending_devices(&self) -> Seq<DeviceChange<D>> {
        self.device_changes@
    }

    /// The value changes to send, as (tag, bits) pairs.
    pub closed spec fn pending_values(&self) -> Seq<(Seq<char>, u64)> {
        self.value_changes@.map_values(|c: ValueChange| value_pair(c))
    }

    pub open spec fn watches_tag(&self, tag: Seq<char>) -> bool {
        self.watched_tags().contains(tag)
    }

    pub open spec fn has_pending(&self) -> bool {
        self.pending_nodes().len() > 0 || self.pending_devices().len() > 0
            || self.pending_values().len() > 0
    }

    /// Both watch the same things and send to the same channel.
    pub open spec fn same_subscription(&self, other: &Self) -> bool {
        &&& self.watched_tags() == other.watched_tags()
        &&& self.watched_nodes() == other.watched_nodes()
        &&& self.watched_devices() == other.watched_devices()
        &&& self.spec_channel() == other.spec_channel()
    }

    /// A subscriber of the given tags, nodes and devices, with nothing to send yet.
    pub fn new(values: Vec<String>, nodes: Vec<i32>, devices: Vec<i32>, channel: C) -> (r: Self)
        ensures
            r.watched_tags() == values@.map_values(|t: String| t@),
            r.watched_nodes() == nodes@.to_set(),
            r.watched_devices() == devices@.to_set(),
            r.spec_channel() == channel,
            r.pending_nodes().len() == 0,
            r.pending_devices().len() == 0,
            r.pending_values().len() == 0,
    {
        let node_set = id_set(&nodes);
        let device_set = id_set(&devices);
        CoordUnitWebSocketData {
            tags: values,
            nodes: node_set,
            devices: device_set,
            channel,
            node_changes: Vec::new(),
            device_changes: Vec::new(),
            value_changes: Vec::new(),
        }
    }

    /// The channel its messages go to.
    pub fn channel(&self) -> (r: &C)
        ensures
            *r == self.spec_channel(),
    {
        &self.channel
    }

    /// Notes a node's new state if it watches that node.
    pub fn node_events(&mut self, id: i32, state: &N)
        ensures
            final(self).same_subscription(&*old(self)),
            final(self).pending_nodes() == (if old(self).watched_nodes().contains(id) {
                old(self).pending_nodes().push(NodeChange { id, state: *state })
            } else {
                old(self).pending_nodes()
            }),
            final(self).pending_devices() == old(self).pending_devices(),
            final(self).pending_values() == old(self).pending_values(),
    {
        if self.nodes.contains(&id) {
            self.node_changes.push(NodeChange { id, state: *state });
        }
    }

    /// Notes a device's new state if it watches that device.
    pub fn device_events(&mut self, id: i32, state: &D)
        ensures
            final(self).same_subscription(&*old(self)),
            final(self).pending_devices() == (if old(self).watched_devices().contains(id) {
                old(self).pending_devices().push(DeviceChange { id, state: *state })
            } else {
                old(self).pending_devices()
            }),
            final(self).pending_nodes() == old(self).pending_nodes(),
            final(self).pending_values() == old(self).pending_values(),
    {
        if self.devices.contains(&id) {
            self.device_changes.push(DeviceChange { id, state: *state });
        }
    }

    /// Notes a value's new reading if it watches that tag.
    pub fn value_events(&mut self, tag: &String, value: u64)
        ensures
            final(self).same_subscription(&*old(self)),
            final(self).pending_values() == (if old(self).watches_tag(tag@) {
                old(self).pending_values().push((tag@, value))
            } else {
                old(self).pending_values()
            }),
            final(self).pending_nodes() == old(self).pending_nodes(),
            final(self).pending_devices() == old(self).pending_devices(),
    {
        if contains_tag(&self.tags, tag) {
            let ghost before = self.value_changes@;
            self.value_changes.push(ValueChange { tag: tag.clone(), value });
            proof {
                assert(self.value_changes@.map_values(|c: ValueChange| value_pair(c))
                    =~= before.map_values(|c: ValueChange| value_pair(c)).push((tag@, value)));
            }
        }
    }

    /// Takes the changes to send, if there are any: the subscriber is left
    /// with none.
    pub fn take_changes(&mut self) -> (r: Option<Changes<N, D>>)
        ensures
            final(self).same_subscription(&*old(self)),
            !final(self).has_pending(),
            (r is None) == !old(self).has_pending(),
            r matches Some(c) ==> {
                &&& c.nodes@ == old(self).pending_nodes()
                &&& c.devices@ == old(self).pending_devices()
                &&& c.values@.map_values(|v: ValueChange| value_pair(v)) == old(self).pending_values()
            },
    {
        if self.node_changes.len() == 0 && self.device_changes.len() == 0
            && self.value_changes.len() == 0 {
            return None;
        }
        let mut nodes: Vec<NodeChange<N>> = Vec::new();
        let mut devices: Vec<DeviceChange<D>> = Vec::new();
        let mut values: Vec<ValueChange> = Vec::new();
        std::mem::swap(&mut nodes, &mut self.node_changes);
        std::mem::swap(&mut devices, &mut self.device_changes);
        std::mem::swap(&mut values, &mut self.value_changes);
        proof {
            assert(self.value_changes@.map_values(|c: ValueChange| value_pair(c)) =~= Seq::empty());
        }
        Some(Changes { nodes, devices, values })
    }
}

/// The set of the given ids.
fn id_set(ids: &Vec<i32>) -> (r: HashSet<i32>)
    ensures
        r@ == ids@.to_set(),
{
    let mut set: HashSet<i32> = HashSet::new();
    let mut i: usize = 0;
    while i < ids.len()
        invariant
            i <= ids.len(),
            set@ == ids@.subrange(0, i as int).to_set(),
        decreases ids.len() - i,
    {
        proof {
            assert(ids@.subrange(0, i + 1) =~= ids@.subrange(0, i as int).push(ids@[i as int]));
            ids@.subrange(0, i as int).lemma_push_to_set_commute(ids@[i as int]);
        }
        set.insert(ids[i]);
        i = i + 1;
    }
    assert(ids@.subrange(0, ids@.len() as int) =~= ids@);
    set
}

/// Whether `tags` holds `tag`.
pub fn contains_tag(tags: &Vec<String>, tag: &String) -> (r: bool)
    ensures
        r == tags@.map_values(|t: String| t@).contains(tag@),
{
    let ghost views = tags@.map_values(|t: String| t@);
    let mut i: usize = 0;
    while i < tags.len()
        invariant
            i <= tags.len(),
            views == tags@.map_values(|t: String| t@),
            forall|k: int| 0 <= k < i ==> views[k] != tag@,
        decreases tags.len() - i,
    {
        if tags[i] == *tag {
            assert(views[i as int] == tag@);
            return true;
        }
        i = i + 1;
    }
    assert forall|k: int| 0 <= k < views.len() implies views[k] != tag@ by {}
    false
}


/// The last reading of each tag, in the order the tags were first seen;
/// no tag occurs twice.
pub struct Readings {
    items: Vec<ValueChange>,
}

/// The readings as (tag, bits) pairs.
pub open spec fn reading_pairs(items: Seq<ValueChange>) -> Seq<(Seq<char>, u64)> {
    items.map_values(|c: ValueChange| value_pair(c))
}

/// No tag occurs twice.
pub open spec fn distinct_tags(pairs: Seq<(Seq<char>, u64)>) -> bool {
    forall|i: int, j: int| 0 <= i < j < pairs.len() ==> #[trigger] pairs[i].0 != #[trigger] pairs[j].0
}

/// The map from tag to reading that a list of distinct pairs stands for.
pub open spec fn pairs_map(pairs: Seq<(Seq<char>, u64)>) -> Map<Seq<char>, u64>
    decreases pairs.len(),
{
    if pairs.len() == 0 {
        Map::empty()
    } else {
        pairs_map(pairs.drop_last()).insert(pairs.last().0, pairs.last().1)
    }
}

/// Whether a reading changes what is known of its tag: a tag not seen
/// before, or a reading that is not `==` (as `f64`) to the last one.
pub open spec fn is_change(known: Map<Seq<char>, u64>, tag: Seq<char>, value: u64) -> bool {
    !(known.contains_key(tag) && ieee_eq(known[tag], value))
}

/// What is known after a reading.
pub open spec fn after_reading(known: Map<Seq<char>, u64>, tag: Seq<char>, value: u64) -> Map<Seq<char>, u64> {
    if is_change(known, tag, value) {
        known.insert(tag, value)
    } else {
        known
    }
}

proof fn lemma_pairs_map_update(pairs: Seq<(Seq<char>, u64)>, k: int, value: u64)
    requires
        distinct_tags(pairs),
        0 <= k < pairs.len(),
    ensures
        distinct_tags(pairs.update(k, (pairs[k].0, value))),
        pairs_map(pairs.update(k, (pairs[k].0, value))) == pairs_map(pairs).insert(pairs[k].0, value),
    decreases pairs.len(),
{
    let p2 = pairs.update(k, (pairs[k].0, value));
    assert forall|i: int, j: int| 0 <= i < j < p2.len() implies #[trigger] p2[i].0 != #[trigger] p2[j].0 by {
        assert(p2[i].0 == pairs[i].0);
        assert(p2[j].0 == pairs[j].0);
    }
    if k == pairs.len() - 1 {
        assert(p2.drop_last() =~= pairs.drop_last());
        assert(pairs_map(p2) =~= pairs_map(pairs).insert(pairs[k].0, value));
    } else {
        let d = pairs.drop_last();
        assert(d.update(k, (d[k].0, value)) =~= p2.drop_last());
        lemma_pairs_map_update(d, k, value);
        assert(pairs.last().0 != pairs[k].0);
        assert(pairs_map(p2) =~= pairs_map(pairs).insert(pairs[k].0, value));
    }
}

proof fn lemma_pairs_map_has(pairs: Seq<(Seq<char>, u64)>, k: int)
    requires
        distinct_tags(pairs),
        0 <= k < pairs.len(),
    ensures
        pairs_map(pairs).contains_key(pairs[k].0),
        pairs_map(pairs)[pairs[k].0] == pairs[k].1,
    decreases pairs.len(),
{
    if k < pairs.len() - 1 {
        lemma_pairs_map_has(pairs.drop_last(), k);
        assert(pairs.last().0 != pairs[k].0);
    }
}

proof fn lemma_pairs_map_lacks(pairs: Seq<(Seq<char>, u64)>, tag: Seq<char>)
    requires
        forall|i: int| 0 <= i < pairs.len() ==> #[trigger] pairs[i].0 != tag,
    ensures
        !pairs_map(pairs).contains_key(tag),
    decreases pairs.len(),
{
    if pairs.len() > 0 {
        lemma_pairs_map_lacks(pairs.drop_last(), tag);
        assert(pairs.last().0 != tag);
    }
}

impl Readings {
    pub closed spec fn pairs(&self) -> Seq<(Seq<char>, u64)> {
        reading_pairs(self.items@)
    }

    pub closed spec fn wf(&self) -> bool {
        distinct_tags(self.pairs())
    }

    /// The last reading of each tag.
    pub open spec fn known(&self) -> Map<Seq<char>, u64> {
        pairs_map(self.pairs())
    }

    pub fn new() -> (r: Self)
        ensures
            r.wf(),
            r.pairs().len() == 0,
    {
        let r = Readings { items: Vec::new() };
        assert(r.pairs() =~= Seq::empty());
        r
    }

    /// Records a reading unless it is `==` (as `f64`) to the last one of its
    /// tag. Returns whether it was recorded.
    pub fn record(&mut self, tag: &String, value: u64) -> (r: bool)
        requires
            old(self).wf(),
        ensures
            final(self).wf(),
            r == is_change(old(self).known(), tag@, value),
            final(self).known() == after_reading(old(self).known(), tag@, value),
    {
        let ghost pairs = self.pairs();
        let mut i: usize = 0;
        while i < self.items.len()
            invariant
                i <= self.items.len(),
                self.items@ == old(self).items@,
                pairs == reading_pairs(self.items@),
                distinct_tags(pairs),
                forall|k: int| 0 <= k < i ==> #[trigger] pairs[k].0 != tag@,
            decreases self.items.len() - i,
        {
            if self.items[i].tag == *tag {
                proof {
                    lemma_pairs_map_has(pairs, i as int);
                }
                let known_value: u64 = self.items[i].value;
                if float_eq(known_value, value) {
                    return false;
                }
                let ghost before = self.items@;
                self.items.set(i, ValueChange { tag: tag.clone(), value });
                proof {
                    lemma_pairs_map_update(pairs, i as int, value);
                    assert(reading_pairs(self.items@) =~= pairs.update(i as int, (pairs[i as int].0, value)));
                }
                return true;
            }
            i = i + 1;
        }
        proof {
            lemma_pairs_map_lacks(pairs, tag@);
        }
        self.items.push(ValueChange { tag: tag.clone(), value });
        proof {
            let p2 = reading_pairs(self.items@);
            assert(p2 =~= pairs.push((tag@, value)));
            assert(p2.drop_last() =~= pairs);
            assert forall|a: int, b: int| 0 <= a < b < p2.len() implies #[trigger] p2[a].0 != #[trigger] p2[b].0 by {
                if b == pairs.len() {
                    assert(p2[a].0 == pairs[a].0);
                } else {
                    assert(p2[a].0 == pairs[a].0);
                    assert(p2[b].0 == pairs[b].0);
                }
            }
        }
        true
    }
}


/// What is known after a run of readings, taken in order.
pub open spec fn known_after(known: Map<Seq<char>, u64>, rs: Seq<(Seq<char>, u64)>) -> Map<Seq<char>, u64>
    decreases rs.len(),
{
    if rs.len() == 0 {
        known
    } else {
        after_reading(known_after(known, rs.drop_last()), rs.last().0, rs.last().1)
    }
}

/// The readings of a run that change what is known, in order.
pub open spec fn changed_readings(known: Map<Seq<char>, u64>, rs: Seq<(Seq<char>, u64)>) -> Seq<(Seq<char>, u64)>
    decreases rs.len(),
{
    if rs.len() == 0 {
        Seq::empty()
    } else {
        let prev = changed_readings(known, rs.drop_last());
        if is_change(known_after(known, rs.drop_last()), rs.last().0, rs.last().1) {
            prev.push(rs.last())
        } else {
            prev
        }
    }
}

/// The readings whose tag is one of `tags`, in order.
pub open spec fn watched_readings(tags: Seq<Seq<char>>, rs: Seq<(Seq<char>, u64)>) -> Seq<(Seq<char>, u64)>
    decreases rs.len(),
{
    if rs.len() == 0 {
        Seq::empty()
    } else {
        let prev = watched_readings(tags, rs.drop_last());
        if tags.contains(rs.last().0) {
            prev.push(rs.last())
        } else {
            prev
        }
    }
}

/// The node changes a subscriber watching `watched` gets for the nodes
/// `ids`, in that order, at their states.
pub open spec fn watched_nodes_of<N>(ids: Seq<i32>, states: Map<i32, N>, watched: Set<i32>) -> Seq<NodeChange<N>>
    decreases ids.len(),
{
    if ids.len() == 0 {
        Seq::empty()
    } else {
        let prev = watched_nodes_of(ids.drop_last(), states, watched);
        if watched.contains(ids.last()) {
            prev.push(NodeChange { id: ids.last(), state: states[ids.last()] })
        } else {
            prev
        }
    }
}

/// The device changes a subscriber watching `watched` gets for the devices
/// `ids`, in that order, at their states.
pub open spec fn watched_devices_of<D>(ids: Seq<i32>, states: Map<i32, D>, watched: Set<i32>) -> Seq<DeviceChange<D>>
    decreases ids.len(),
{
    if ids.len() == 0 {
        Seq::empty()
    } else {
        let prev = watched_devices_of(ids.drop_last(), states, watched);
        if watched.contains(ids.last()) {
            prev.push(DeviceChange { id: ids.last(), state: states[ids.last()] })
        } else {
            prev
        }
    }
}

/// A subscriber after being told that node `id` now has `state`.
pub open spec fn node_fed<N: Copy, D: Copy, C>(
    before: CoordUnitWebSocketData<N, D, C>,
    after: CoordUnitWebSocketData<N, D, C>,
    id: i32,
    state: N,
) -> bool {
    &&& after.same_subscription(&before)
    &&& after.pending_nodes() == (if before.watched_nodes().contains(id) {
        before.pending_nodes().push(NodeChange { id, state })
    } else {
        before.pending_nodes()
    })
    &&& after.pending_devices() == before.pending_devices()
    &&& after.pending_values() == before.pending_values()
}

/// A subscriber after being told that device `id` now has `state` (when
/// `device_changed`) and of the value changes `values`.
pub open spec fn device_fed<N: Copy, D: Copy, C>(
    before: CoordUnitWebSocketData<N, D, C>,
    after: CoordUnitWebSocketData<N, D, C>,
    id: i32,
    state: D,
    device_changed: bool,
    values: Seq<(Seq<char>, u64)>,
) -> bool {
    &&& after.same_subscription(&before)
    &&& after.pending_nodes() == before.pending_nodes()
    &&& after.pending_devices() == (if device_changed && before.watched_devices().contains(id) {
        before.pending_devices().push(DeviceChange { id, state })
    } else {
        before.pending_devices()
    })
    &&& after.pending_values() == before.pending_values() + watched_readings(before.watched_tags(), values)
}

/// Nothing about the subscriber changed.
pub open spec fn untouched<N: Copy, D: Copy, C>(before: CoordUnitWebSocketData<N, D, C>, after: CoordUnitWebSocketData<N, D, C>) -> bool {
    &&& after.same_subscription(&before)
    &&& after.pending_nodes() == before.pending_nodes()
    &&& after.pending_devices() == before.pending_devices()
    &&& after.pending_values() == before.pending_values()
}

/// The subscribers whose flag in `alive` is set, in order.
pub open spec fn kept<T>(subs: Seq<T>, alive: Seq<bool>) -> Seq<T>
    decreases subs.len(),
{
    if subs.len() == 0 || alive.len() == 0 {
        Seq::empty()
    } else {
        let prev = kept(subs.drop_last(), alive.drop_last());
        if alive.last() {
            prev.push(subs.last())
        } else {
            prev
        }
    }
}

/// The last known state of every node, device and value, and the
/// subscribers that are told of their changes.
pub struct LiveCoordinator<N, D, C> {
    nodes: HashMap<i32, N>,
    node_ids: Vec<i32>,
    devices: HashMap<i32, D>,
    device_ids: Vec<i32>,
    readings: Readings,
    subscribers: Vec<CoordUnitWebSocketData<N, D, C>>,
}

impl<N: Copy + PartialEq, D: Copy + PartialEq, C> LiveCoordinator<N, D, C> {
    pub closed spec fn wf(&self) -> bool {
        &&& self.node_ids@.no_duplicates()
        &&& self.node_ids@.to_set() == self.nodes@.dom()
        &&& self.device_ids@.no_duplicates()
        &&& self.device_ids@.to_set() == self.devices@.dom()
        &&& self.readings.wf()
    }

    /// The last state of each node.
    pub closed spec fn node_states(&self) -> Map<i32, N> {
        self.nodes@
    }

    /// The nodes known, in the order they were first seen.
    pub closed spec fn node_order(&self) -> Seq<i32> {
        self.node_ids@
    }

    pub closed spec fn device_states(&self) -> Map<i32, D> {
        self.devices@
    }

    pub closed spec fn device_order(&self) -> Seq<i32> {
        self.device_ids@
    }

    /// The last reading of each tag, in the order the tags were first seen.
    pub closed spec fn reading_order(&self) -> Seq<(Seq<char>, u64)> {
        self.readings.pairs()
    }

    pub open spec fn known_readings(&self) -> Map<Seq<char>, u64> {
        pairs_map(self.reading_order())
    }

    pub closed spec fn subscribers(&self) -> Seq<CoordUnitWebSocketData<N, D, C>> {
        self.subscribers@
    }

    /// Both know the same states and readings.
    pub open spec fn same_state(&self, other: &Self) -> bool {
        &&& self.node_states() == other.node_states()
        &&& self.node_order() == other.node_order()
        &&& self.device_states() == other.device_states()
        &&& self.device_order() == other.device_order()
        &&& self.reading_order() == other.reading_order()
    }

    /// Nothing known and nobody subscribed.
    pub fn new() -> (r: Self)
        ensures
            r.wf(),
            r.node_states() == Map::<i32, N>::empty(),
            r.device_states() == Map::<i32, D>::empty(),
            r.reading_order().len() == 0,
            r.subscribers().len() == 0,
    {
        let r = LiveCoordinator {
            nodes: HashMap::new(),
            node_ids: Vec::new(),
            devices: HashMap::new(),
            device_ids: Vec::new(),
            readings: Readings::new(),
            subscribers: Vec::new(),
        };
        proof {
            assert(r.node_ids@.to_set() =~= r.nodes@.dom());
            assert(r.device_ids@.to_set() =~= r.devices@.dom());
        }
        r
    }

    /// Node `id` reports `state`: it is recorded, and every subscriber that
    /// watches the node is told, unless the state equals the last one.
    /// Returns whether it changed.
    pub fn on_node_event(&mut self, id: i32, state: N) -> (changed: bool)
        requires
            old(self).wf(),
            N::obeys_eq_spec(),
        ensures
            final(self).wf(),
            changed == !(old(self).node_states().contains_key(id) && old(self).node_states()[id].eq_spec(&state)),
            final(self).node_states() == (if changed {
                old(self).node_states().insert(id, state)
            } else {
                old(self).node_states()
            }),
            final(self).device_states() == old(self).device_states(),
            final(self).device_order() == old(self).device_order(),
            final(self).reading_order() == old(self).reading_order(),
            final(self).subscribers().len() == old(self).subscribers().len(),
            forall|i: int| 0 <= i < old(self).subscribers().len() ==> if changed {
                node_fed(old(self).subscribers()[i], #[trigger] final(self).subscribers()[i], id, state)
            } else {
                untouched(old(self).subscribers()[i], final(self).subscribers()[i])
            },
    {
        let known = self.nodes.contains_key(&id);
        let changed = check_change(&mut self.nodes, id, state);
        if changed && !known {
            proof {
                assert(!self.node_ids@.contains(id));
                self.node_ids@.lemma_push_to_set_commute(id);
            }
            self.node_ids.push(id);
            proof {
                assert(self.node_ids@.to_set() =~= self.nodes@.dom());
            }
        }
        proof {
            if known {
                assert(self.nodes@.dom() =~= old(self).nodes@.dom());
            }
        }
        if changed {
            self.tell_node(id, &state);
        }
        changed
    }
}


impl<N: Copy + PartialEq, D: Copy + PartialEq, C> LiveCoordinator<N, D, C> {
    /// The stored states and readings are the same.
    spec fn same_store(&self, other: &Self) -> bool {
        &&& self.nodes@ == other.nodes@
        &&& self.node_ids@ == other.node_ids@
        &&& self.devices@ == other.devices@
        &&& self.device_ids@ == other.device_ids@
        &&& self.readings == other.readings
    }

    /// Tells every subscriber that node `id` now has `state`.
    fn tell_node(&mut self, id: i32, state: &N)
        ensures
            final(self).same_store(&*old(self)),
            final(self).subscribers@.len() == old(self).subscribers@.len(),
            forall|k: int| 0 <= k < old(self).subscribers@.len() ==> node_fed(old(self).subscribers@[k], #[trigger] final(self).subscribers@[k], id, *state),
    {
        let ghost before = self.subscribers@;
        let mut i: usize = 0;
        while i < self.subscribers.len()
            invariant
                self.same_store(&*old(self)),
                before == old(self).subscribers@,
                i <= self.subscribers@.len(),
                self.subscribers@.len() == before.len(),
                forall|k: int| 0 <= k < i ==> node_fed(before[k], #[trigger] self.subscribers@[k], id, *state),
                forall|k: int| i <= k < before.len() ==> #[trigger] self.subscribers@[k] == before[k],
            decreases before.len() - i,
        {
            self.subscribers[i].node_events(id, state);
            i = i + 1;
        }
    }

    /// Tells every subscriber that device `id` now has `state`.
    fn tell_device(&mut self, id: i32, state: &D)
        ensures
            final(self).same_store(&*old(self)),
            final(self).subscribers@.len() == old(self).subscribers@.len(),
            forall|k: int| 0 <= k < old(self).subscribers@.len() ==> device_fed(old(self).subscribers@[k], #[trigger] final(self).subscribers@[k], id, *state, true, Seq::empty()),
    {
        let ghost before = self.subscribers@;
        let mut i: usize = 0;
        while i < self.subscribers.len()
            invariant
                self.same_store(&*old(self)),
                before == old(self).subscribers@,
                i <= self.subscribers@.len(),
                self.subscribers@.len() == before.len(),
                forall|k: int| 0 <= k < i ==> device_fed(before[k], #[trigger] self.subscribers@[k], id, *state, true, Seq::empty()),
                forall|k: int| i <= k < before.len() ==> #[trigger] self.subscribers@[k] == before[k],
            decreases before.len() - i,
        {
            let ghost sub = self.subscribers@[i as int];
            self.subscribers[i].device_events(id, state);
            proof {
                assert(self.subscribers@[i as int].pending_values() =~= sub.pending_values() + watched_readings(sub.watched_tags(), Seq::empty()));
            }
            i = i + 1;
        }
    }

    /// Tells every subscriber that the value `tag` now reads `value`.
    fn tell_value(&mut self, tag: &String, value: u64)
        ensures
            final(self).same_store(&*old(self)),
            final(self).subscribers@.len() == old(self).subscribers@.len(),
            forall|k: int| 0 <= k < old(self).subscribers@.len() ==> {
                let b = old(self).subscribers@[k];
                let a = #[trigger] final(self).subscribers@[k];
                &&& a.same_subscription(&b)
                &&& a.pending_nodes() == b.pending_nodes()
                &&& a.pending_devices() == b.pending_devices()
                &&& a.pending_values() == (if b.watches_tag(tag@) {
                    b.pending_values().push((tag@, value))
                } else {
                    b.pending_values()
                })
            },
    {
        let ghost before = self.subscribers@;
        let mut i: usize = 0;
        while i < self.subscribers.len()
            invariant
                self.same_store(&*old(self)),
                before == old(self).subscribers@,
                i <= self.subscribers@.len(),
                self.subscribers@.len() == before.len(),
                forall|k: int| 0 <= k < i ==> {
                    let b = before[k];
                    let a = #[trigger] self.subscribers@[k];
                    &&& a.same_subscription(&b)
                    &&& a.pending_nodes() == b.pending_nodes()
                    &&& a.pending_devices() == b.pending_devices()
                    &&& a.pending_values() == (if b.watches_tag(tag@) {
                        b.pending_values().push((tag@, value))
                    } else {
                        b.pending_values()
                    })
                },
                forall|k: int| i <= k < before.len() ==> #[trigger] self.subscribers@[k] == before[k],
            decreases before.len() - i,
        {
            self.subscribers[i].value_events(tag, value);
            i = i + 1;
        }
    }

    /// Device `id` reports `state` and the readings `measures`: the state is
    /// recorded and told to the subscribers that watch the device unless it
    /// equals the last one; then each reading, in order, is recorded and
    /// told to the subscribers that watch its tag unless it is `==` (as
    /// `f64`) to the last reading of the tag. Returns whether the device's
    /// state changed.
    pub fn on_device_event(&mut self, id: i32, state: D, measures: &Vec<ValueChange>) -> (device_changed: bool)
        requires
            old(self).wf(),
            D::obeys_eq_spec(),
        ensures
            final(self).wf(),
            device_changed == !(old(self).device_states().contains_key(id) && old(self).device_states()[id].eq_spec(&state)),
            final(self).device_states() == (if device_changed {
                old(self).device_states().insert(id, state)
            } else {
                old(self).device_states()
            }),
            final(self).node_states() == old(self).node_states(),
            final(self).node_order() == old(self).node_order(),
            final(self).known_readings() == known_after(old(self).known_readings(), reading_pairs(measures@)),
            final(self).subscribers().len() == old(self).subscribers().len(),
            forall|i: int| 0 <= i < old(self).subscribers().len() ==> device_fed(
                old(self).subscribers()[i],
                #[trigger] final(self).subscribers()[i],
                id,
                state,
                device_changed,
                changed_readings(old(self).known_readings(), reading_pairs(measures@)),
            ),
    {
        let known = self.devices.contains_key(&id);
        let device_changed = check_change(&mut self.devices, id, state);
        if device_changed && !known {
            proof {
                assert(!self.device_ids@.contains(id));
                self.device_ids@.lemma_push_to_set_commute(id);
            }
            self.device_ids.push(id);
            proof {
                assert(self.device_ids@.to_set() =~= self.devices@.dom());
            }
        }
        proof {
            if known {
                assert(self.devices@.dom() =~= old(self).devices@.dom());
            }
        }
        let ghost subs0 = self.subscribers@;
        if device_changed {
            self.tell_device(id, &state);
        }
        let ghost subs1 = self.subscribers@;
        let ghost nodes = self.nodes@;
        let ghost node_ids = self.node_ids@;
        let ghost devices = self.devices@;
        let ghost device_ids = self.device_ids@;
        let ghost known0 = self.readings.known();
        let ghost pairs = reading_pairs(measures@);
        proof {
            assert forall|k: int| 0 <= k < subs0.len() implies device_fed(subs0[k], #[trigger] subs1[k], id, state, device_changed, changed_readings(known0, pairs.subrange(0, 0))) by {
                assert(watched_readings(subs0[k].watched_tags(), Seq::empty()) =~= Seq::<(Seq<char>, u64)>::empty());
                assert(subs1[k].pending_values() =~= subs0[k].pending_values() + Seq::empty());
            }
        }
        let mut j: usize = 0;
        while j < measures.len()
            invariant
                self.nodes@ == nodes,
                self.node_ids@ == node_ids,
                self.devices@ == devices,
                self.device_ids@ == device_ids,
                node_ids.no_duplicates(),
                node_ids.to_set() == nodes.dom(),
                device_ids.no_duplicates(),
                device_ids.to_set() == devices.dom(),
                self.readings.wf(),
                pairs == reading_pairs(measures@),
                j <= measures.len(),
                self.readings.known() == known_after(known0, pairs.subrange(0, j as int)),
                self.subscribers@.len() == subs0.len(),
                forall|k: int| 0 <= k < subs0.len() ==> device_fed(subs0[k], #[trigger] self.subscribers@[k], id, state, device_changed, changed_readings(known0, pairs.subrange(0, j as int))),
            decreases measures.len() - j,
        {
            let ghost pre = pairs.subrange(0, j as int);
            let ghost subs2 = self.subscribers@;
            let tag = &measures[j].tag;
            let value: u64 = measures[j].value;
            proof {
                assert(pairs.subrange(0, j + 1).drop_last() =~= pre);
                assert(pairs.subrange(0, j + 1).last() == (tag@, value));
            }
            let c = self.readings.record(tag, value);
            if c {
                self.tell_value(tag, value);
                proof {
                    let ch = changed_readings(known0, pre);
                    assert(changed_readings(known0, pairs.subrange(0, j + 1)) == ch.push((tag@, value)));
                    assert forall|k: int| 0 <= k < subs0.len() implies device_fed(subs0[k], #[trigger] self.subscribers@[k], id, state, device_changed, changed_readings(known0, pairs.subrange(0, j + 1))) by {
                        let tags = subs0[k].watched_tags();
                        assert(ch.push((tag@, value)).drop_last() =~= ch);
                        assert(subs2[k].watched_tags() == tags);
                        if tags.contains(tag@) {
                            assert(watched_readings(tags, ch.push((tag@, value))) == watched_readings(tags, ch).push((tag@, value)));
                            assert((subs0[k].pending_values() + watched_readings(tags, ch)).push((tag@, value)) =~= subs0[k].pending_values() + watched_readings(tags, ch).push((tag@, value)));
                        } else {
                            assert(watched_readings(tags, ch.push((tag@, value))) == watched_readings(tags, ch));
                        }
                    }
                }
            } else {
                proof {
                    assert(changed_readings(known0, pairs.subrange(0, j + 1)) == changed_readings(known0, pre));
                }
            }
            j = j + 1;
        }
        proof {
            assert(pairs.subrange(0, measures@.len() as int) =~= pairs);
        }
        device_changed
    }
}


/// How sending a subscriber its changes went.
#[derive(Clone, Copy, Debug, PartialEq, Eq)]
pub enum Delivery {
    /// It had nothing to be sent.
    NothingToSend,
    /// The message was queued on its channel.
    Sent,
    /// Its channel refused the message (closed or full).
    Refused,
    /// The changes could not be written as JSON.
    NotSerialized,
}

/// A subscriber stays unless its channel refused a message: a failure to
/// write the changes is no reason to drop it.
pub fn keeps_subscriber(d: Delivery) -> (r: bool)
    ensures
        r == (d != Delivery::Refused),
{
    match d {
        Delivery::Refused => false,
        _ => true,
    }
}

impl<N: Copy + PartialEq, D: Copy + PartialEq, C> LiveCoordinator<N, D, C> {
    /// Tells a new subscriber the state of every node, device and value it
    /// watches: nodes in the order they were first seen, then devices, then
    /// readings.
    pub fn prime_subscriber(&self, sub: &mut CoordUnitWebSocketData<N, D, C>)
        requires
            self.wf(),
        ensures
            final(sub).same_subscription(&*old(sub)),
            final(sub).pending_nodes() == old(sub).pending_nodes() + watched_nodes_of(
                self.node_order(),
                self.node_states(),
                old(sub).watched_nodes(),
            ),
            final(sub).pending_devices() == old(sub).pending_devices() + watched_devices_of(
                self.device_order(),
                self.device_states(),
                old(sub).watched_devices(),
            ),
            final(sub).pending_values() == old(sub).pending_values() + watched_readings(
                old(sub).watched_tags(),
                self.reading_order(),
            ),
    {
        let ghost s0 = *sub;
        let ids = &self.node_ids;
        let mut i: usize = 0;
        while i < ids.len()
            invariant
                self.wf(),
                ids == &self.node_ids,
                i <= ids.len(),
                sub.same_subscription(&s0),
                sub.pending_nodes() == s0.pending_nodes() + watched_nodes_of(ids@.subrange(0, i as int), self.nodes@, s0.watched_nodes()),
                sub.pending_devices() == s0.pending_devices(),
                sub.pending_values() == s0.pending_values(),
            decreases ids.len() - i,
        {
            let id: i32 = ids[i];
            let ghost pre = ids@.subrange(0, i as int);
            proof {
                assert(ids@.subrange(0, i + 1).drop_last() =~= pre);
                assert(ids@.to_set().contains(id));
            }
            match self.nodes.get(&id) {
                Some(state) => {
                    sub.node_events(id, state);
                    proof {
                        let w = watched_nodes_of(pre, self.nodes@, s0.watched_nodes());
                        if s0.watched_nodes().contains(id) {
                            assert((s0.pending_nodes() + w).push(NodeChange { id, state: *state }) =~= s0.pending_nodes() + w.push(NodeChange { id, state: *state }));
                        }
                    }
                },
                None => {},
            }
            i = i + 1;
        }
        proof {
            assert(ids@.subrange(0, ids@.len() as int) =~= ids@);
        }
        let ghost s1 = *sub;
        let dids = &self.device_ids;
        let mut i: usize = 0;
        while i < dids.len()
            invariant
                self.wf(),
                dids == &self.device_ids,
                i <= dids.len(),
                sub.same_subscription(&s0),
                sub.pending_nodes() == s1.pending_nodes(),
                sub.pending_devices() == s0.pending_devices() + watched_devices_of(dids@.subrange(0, i as int), self.devices@, s0.watched_devices()),
                sub.pending_values() == s0.pending_values(),
            decreases dids.len() - i,
        {
            let id: i32 = dids[i];
            let ghost pre = dids@.subrange(0, i as int);
            proof {
                assert(dids@.subrange(0, i + 1).drop_last() =~= pre);
                assert(dids@.to_set().contains(id));
            }
            match self.devices.get(&id) {
                Some(state) => {
                    sub.device_events(id, state);
                    proof {
                        let w = watched_devices_of(pre, self.devices@, s0.watched_devices());
                        if s0.watched_devices().contains(id) {
                            assert((s0.pending_devices() + w).push(DeviceChange { id, state: *state }) =~= s0.pending_devices() + w.push(DeviceChange { id, state: *state }));
                        }
                    }
                },
                None => {},
            }
            i = i + 1;
        }
        proof {
            assert(dids@.subrange(0, dids@.len() as int) =~= dids@);
        }
        let ghost s2 = *sub;
        let items = &self.readings.items;
        let ghost pairs = reading_pairs(items@);
        let mut i: usize = 0;
        while i < items.len()
            invariant
                items == &self.readings.items,
                pairs == reading_pairs(items@),
                i <= items.len(),
                sub.same_subscription(&s0),
                sub.pending_nodes() == s1.pending_nodes(),
                sub.pending_devices() == s2.pending_devices(),
                sub.pending_values() == s0.pending_values() + watched_readings(s0.watched_tags(), pairs.subrange(0, i as int)),
            decreases items.len() - i,
        {
            let ghost pre = pairs.subrange(0, i as int);
            proof {
                assert(pairs.subrange(0, i + 1).drop_last() =~= pre);
            }
            sub.value_events(&items[i].tag, items[i].value);
            proof {
                let w = watched_readings(s0.watched_tags(), pre);
                let p = (items@[i as int].tag@, items@[i as int].value);
                assert(pairs[i as int] == p);
                if s0.watched_tags().contains(p.0) {
                    assert((s0.pending_values() + w).push(p) =~= s0.pending_values() + w.push(p));
                }
            }
            i = i + 1;
        }
        proof {
            assert(pairs.subrange(0, items@.len() as int) =~= pairs);
        }
    }

    /// Adds a subscriber.
    pub fn push_subscriber(&mut self, sub: CoordUnitWebSocketData<N, D, C>)
        requires
            old(self).wf(),
        ensures
            final(self).wf(),
            final(self).same_state(&*old(self)),
            final(self).subscribers() == old(self).subscribers().push(sub),
    {
        self.subscribers.push(sub);
    }

    /// How many subscribers there are.
    pub fn subscriber_count(&self) -> (r: usize)
        ensures
            r == self.subscribers().len(),
    {
        self.subscribers.len()
    }

    /// The channel of subscriber `i`.
    pub fn subscriber_channel(&self, i: usize) -> (r: &C)
        requires
            i < self.subscribers().len(),
        ensures
            *r == self.subscribers()[i as int].spec_channel(),
    {
        self.subscribers[i].channel()
    }

    /// Takes from every subscriber the changes it is to be sent: `None`
    /// for one with nothing to send.
    pub fn take_all_changes(&mut self) -> (r: Vec<Option<Changes<N, D>>>)
        requires
            old(self).wf(),
        ensures
            final(self).wf(),
            final(self).same_state(&*old(self)),
            r@.len() == old(self).subscribers().len(),
            final(self).subscribers().len() == old(self).subscribers().len(),
            forall|i: int| 0 <= i < r@.len() ==> {
                let b = old(self).subscribers()[i];
                let a = #[trigger] final(self).subscribers()[i];
                &&& a.same_subscription(&b)
                &&& !a.has_pending()
                &&& (r@[i] is None) == !b.has_pending()
                &&& (r@[i] matches Some(c) ==> {
                    &&& c.nodes@ == b.pending_nodes()
                    &&& c.devices@ == b.pending_devices()
                    &&& c.values@.map_values(|v: ValueChange| value_pair(v)) == b.pending_values()
                })
            },
    {
        let ghost before = self.subscribers@;
        let mut out: Vec<Option<Changes<N, D>>> = Vec::new();
        let mut i: usize = 0;
        while i < self.subscribers.len()
            invariant
                self.same_store(&*old(self)),
                before == old(self).subscribers@,
                i <= self.subscribers@.len(),
                self.subscribers@.len() == before.len(),
                out@.len() == i,
                forall|k: int| 0 <= k < i ==> {
                    let b = before[k];
                    let a = #[trigger] self.subscribers@[k];
                    &&& a.same_subscription(&b)
                    &&& !a.has_pending()
                    &&& (out@[k] is None) == !b.has_pending()
                    &&& (out@[k] matches Some(c) ==> {
                        &&& c.nodes@ == b.pending_nodes()
                        &&& c.devices@ == b.pending_devices()
                        &&& c.values@.map_values(|v: ValueChange| value_pair(v)) == b.pending_values()
                    })
                },
                forall|k: int| i <= k < before.len() ==> #[trigger] self.subscribers@[k] == before[k],
            decreases before.len() - i,
        {
            let c = self.subscribers[i].take_changes();
            out.push(c);
            i = i + 1;
        }
        out
    }

    /// Drops the subscribers whose flag in `alive` is clear.
    pub fn retain_alive(&mut self, alive: &Vec<bool>)
        requires
            old(self).wf(),
            alive@.len() == old(self).subscribers().len(),
        ensures
            final(self).wf(),
            final(self).same_state(&*old(self)),
            final(self).subscribers() == kept(old(self).subscribers(), alive@),
    {
        let mut all: Vec<CoordUnitWebSocketData<N, D, C>> = Vec::new();
        std::mem::swap(&mut all, &mut self.subscribers);
        let ghost subs = all@;
        let mut keep: Vec<CoordUnitWebSocketData<N, D, C>> = Vec::new();
        let mut i: usize = 0;
        for sub in it: all
            invariant
                self.same_store(&*old(self)),
                subs == old(self).subscribers@,
                alive@.len() == subs.len(),
                it.seq() == subs,
                keep@ == kept(subs.subrange(0, it.index() as int), alive@.subrange(0, it.index() as int)),
                i == it.index(),
                i <= subs.len(),
                subs.len() == alive.len(),
        {
            proof {
                assert(subs.subrange(0, i + 1).drop_last() =~= subs.subrange(0, i as int));
                assert(alive@.subrange(0, i + 1).drop_last() =~= alive@.subrange(0, i as int));
            }
            if alive[i] {
                keep.push(sub);
            }
            i = i + 1;
        }
        proof {
            assert(subs.subrange(0, subs.len() as int) =~= subs);
            assert(alive@.subrange(0, subs.len() as int) =~= alive@);
        }
        self.subscribers = keep;
    }
}


/// What a subscriber watching the nodes `watched` is to hear of node `id`
/// having `state`.
pub open spec fn node_news<N>(watched: Set<i32>, id: i32, state: N) -> Seq<NodeChange<N>> {
    if watched.contains(id) {
        seq![NodeChange { id, state }]
    } else {
        Seq::empty()
    }
}

/// What a subscriber watching the devices `watched` is to hear of device
/// `id` having `state`: nothing unless the state changed.
pub open spec fn device_news<D>(watched: Set<i32>, id: i32, state: D, changed: bool) -> Seq<DeviceChange<D>> {
    if changed && watched.contains(id) {
        seq![DeviceChange { id, state }]
    } else {
        Seq::empty()
    }
}

/// `out` is the message a subscriber is sent with exactly these changes:
/// `None` when there are none.
pub open spec fn delivers<N, D>(
    out: Option<Changes<N, D>>,
    nodes: Seq<NodeChange<N>>,
    devices: Seq<DeviceChange<D>>,
    values: Seq<(Seq<char>, u64)>,
) -> bool {
    match out {
        None => nodes.len() == 0 && devices.len() == 0 && values.len() == 0,
        Some(c) => {
            &&& c.nodes@ == nodes
            &&& c.devices@ == devices
            &&& c.values@.map_values(|v: ValueChange| value_pair(v)) == values
            &&& (nodes.len() > 0 || devices.len() > 0 || values.len() > 0)
        },
    }
}

/// Whether each subscriber stays after a flush whose deliveries went as `ds`.
pub open spec fn stays(ds: Seq<Delivery>) -> Seq<bool> {
    ds.map_values(|d: Delivery| d != Delivery::Refused)
}

impl<N: Copy + PartialEq, D: Copy + PartialEq, C> LiveCoordinator<N, D, C> {
    /// No subscriber has changes left to be sent.
    pub open spec fn settled(&self) -> bool {
        forall|i: int| 0 <= i < self.subscribers().len() ==> !(#[trigger] self.subscribers()[i]).has_pending()
    }

    /// Node `id` reports `state`. When it equals the last state nothing
    /// happens (`None`); otherwise the state is recorded and every
    /// subscriber is handed the message it is to be sent now: its earlier
    /// changes and the new state if it watches the node. The caller sends
    /// them and ends the flush with `finish_flush`.
    pub fn node_step(&mut self, id: i32, state: N) -> (r: Option<Vec<Option<Changes<N, D>>>>)
        requires
            old(self).wf(),
            N::obeys_eq_spec(),
        ensures
            final(self).wf(),
            (r is Some) == !(old(self).node_states().contains_key(id) && old(self).node_states()[id].eq_spec(
                &state,
            )),
            final(self).node_states() == (if r is Some {
                old(self).node_states().insert(id, state)
            } else {
                old(self).node_states()
            }),
            final(self).device_states() == old(self).device_states(),
            final(self).device_order() == old(self).device_order(),
            final(self).reading_order() == old(self).reading_order(),
            final(self).subscribers().len() == old(self).subscribers().len(),
            r is None ==> forall|i: int|
                0 <= i < old(self).subscribers().len() ==> untouched(
                    old(self).subscribers()[i],
                    #[trigger] final(self).subscribers()[i],
                ),
            r matches Some(out) ==> {
                &&& out@.len() == old(self).subscribers().len()
                &&& final(self).settled()
                &&& forall|i: int| 0 <= i < out@.len() ==> {
                    let b = old(self).subscribers()[i];
                    &&& (#[trigger] final(self).subscribers()[i]).same_subscription(&b)
                    &&& delivers(
                        out@[i],
                        b.pending_nodes() + node_news(b.watched_nodes(), id, state),
                        b.pending_devices(),
                        b.pending_values(),
                    )
                }
            },
    {
        let ghost subs0 = self.subscribers@;
        let changed = self.on_node_event(id, state);
        if !changed {
            return None;
        }
        let ghost subs1 = self.subscribers@;
        let out = self.take_all_changes();
        proof {
            assert forall|i: int| 0 <= i < out@.len() implies {
                let b = subs0[i];
                &&& (#[trigger] self.subscribers@[i]).same_subscription(&b)
                &&& delivers(
                    out@[i],
                    b.pending_nodes() + node_news(b.watched_nodes(), id, state),
                    b.pending_devices(),
                    b.pending_values(),
                )
            } by {
                let b = subs0[i];
                assert(node_fed(b, subs1[i], id, state));
                assert(subs1[i].pending_nodes() =~= b.pending_nodes() + node_news(b.watched_nodes(), id, state));
            }
            assert forall|i: int| 0 <= i < self.subscribers@.len() implies !(#[trigger] self.subscribers()[i]).has_pending() by {
                assert(self.subscribers()[i] == self.subscribers@[i]);
            }
        }
        Some(out)
    }

    /// Device `id` reports `state` and the readings `measures` (see
    /// `on_device_event`); every subscriber is then handed the message it is
    /// to be sent now: its earlier changes, the new state if it changed and
    /// the subscriber watches the device, and the readings that changed of
    /// the tags it watches. The caller sends them and ends the flush with
    /// `finish_flush`.
    pub fn device_step(&mut self, id: i32, state: D, measures: &Vec<ValueChange>) -> (r: Vec<Option<Changes<N, D>>>)
        requires
            old(self).wf(),
            D::obeys_eq_spec(),
        ensures
            final(self).wf(),
            final(self).device_states() == (if !(old(self).device_states().contains_key(id)
                && old(self).device_states()[id].eq_spec(&state)) {
                old(self).device_states().insert(id, state)
            } else {
                old(self).device_states()
            }),
            final(self).node_states() == old(self).node_states(),
            final(self).node_order() == old(self).node_order(),
            final(self).known_readings() == known_after(old(self).known_readings(), reading_pairs(measures@)),
            final(self).subscribers().len() == old(self).subscribers().len(),
            final(self).settled(),
            r@.len() == old(self).subscribers().len(),
            forall|i: int| 0 <= i < r@.len() ==> {
                let b = old(self).subscribers()[i];
                let changed = !(old(self).device_states().contains_key(id) && old(self).device_states()[id].eq_spec(
                    &state,
                ));
                &&& (#[trigger] final(self).subscribers()[i]).same_subscription(&b)
                &&& delivers(
                    r@[i],
                    b.pending_nodes(),
                    b.pending_devices() + device_news(b.watched_devices(), id, state, changed),
                    b.pending_values() + watched_readings(
                        b.watched_tags(),
                        changed_readings(old(self).known_readings(), reading_pairs(measures@)),
                    ),
                )
            },
    {
        let ghost subs0 = self.subscribers@;
        let ghost known0 = self.known_readings();
        let changed = self.on_device_event(id, state, measures);
        let ghost subs1 = self.subscribers@;
        let out = self.take_all_changes();
        proof {
            let ch = changed_readings(known0, reading_pairs(measures@));
            assert forall|i: int| 0 <= i < out@.len() implies {
                let b = old(self).subscribers()[i];
                let changed = !(old(self).device_states().contains_key(id) && old(self).device_states()[id].eq_spec(
                    &state,
                ));
                &&& (#[trigger] self.subscribers()[i]).same_subscription(&b)
                &&& delivers(
                    out@[i],
                    b.pending_nodes(),
                    b.pending_devices() + device_news(b.watched_devices(), id, state, changed),
                    b.pending_values() + watched_readings(
                        b.watched_tags(),
                        changed_readings(old(self).known_readings(), reading_pairs(measures@)),
                    ),
                )
            } by {
                let b = subs0[i];
                assert(device_fed(b, subs1[i], id, state, changed, ch));
                assert(self.subscribers()[i] == self.subscribers@[i]);
                assert(subs1[i].pending_devices() =~= b.pending_devices() + device_news(b.watched_devices(), id, state, changed));
            }
            assert forall|i: int| 0 <= i < self.subscribers@.len() implies !(#[trigger] self.subscribers()[i]).has_pending() by {
                assert(self.subscribers()[i] == self.subscribers@[i]);
            }
        }
        out
    }

    /// Ends a flush: `deliveries[i]` is how sending subscriber `i` its
    /// message went. A subscriber whose channel refused the message is
    /// dropped and hears of nothing more; the others stay, in order.
    pub fn finish_flush(&mut self, deliveries: &Vec<Delivery>)
        requires
            old(self).wf(),
            deliveries@.len() == old(self).subscribers().len(),
        ensures
            final(self).wf(),
            final(self).same_state(&*old(self)),
            final(self).subscribers() == kept(old(self).subscribers(), stays(deliveries@)),
    {
        let mut alive: Vec<bool> = Vec::new();
        let mut i: usize = 0;
        while i < deliveries.len()
            invariant
                i <= deliveries@.len(),
                alive@ == stays(deliveries@.subrange(0, i as int)),
            decreases deliveries@.len() - i,
        {
            proof {
                assert(stays(deliveries@.subrange(0, i + 1)) =~= stays(deliveries@.subrange(0, i as int)).push(
                    deliveries@[i as int] != Delivery::Refused,
                ));
            }
            alive.push(keeps_subscriber(deliveries[i]));
            i = i + 1;
        }
        proof {
            assert(deliveries@.subrange(0, deliveries@.len() as int) =~= deliveries@);
        }
        self.retain_alive(&alive);
    }

    /// A new subscriber, told of everything it watches (`prime_subscriber`),
    /// with the message it is to be sent first; the subscriber is left with
    /// nothing pending.
    pub fn welcome(&self, sub: &mut CoordUnitWebSocketData<N, D, C>) -> (r: Option<Changes<N, D>>)
        requires
            self.wf(),
        ensures
            final(sub).same_subscription(&*old(sub)),
            !final(sub).has_pending(),
            delivers(
                r,
                old(sub).pending_nodes() + watched_nodes_of(self.node_order(), self.node_states(), old(sub).watched_nodes()),
                old(sub).pending_devices() + watched_devices_of(
                    self.device_order(),
                    self.device_states(),
                    old(sub).watched_devices(),
                ),
                old(sub).pending_values() + watched_readings(old(sub).watched_tags(), self.reading_order()),
            ),
    {
        self.prime_subscriber(sub);
        sub.take_changes()
    }

    /// Enrolls a welcomed subscriber if its first message was not refused:
    /// it then hears of every later change it watches; otherwise it is
    /// never told of anything.
    pub fn enroll(&mut self, sub: CoordUnitWebSocketData<N, D, C>, first: Delivery)
        requires
            old(self).wf(),
        ensures
            final(self).wf(),
            final(self).same_state(&*old(self)),
            final(self).subscribers() == (if first != Delivery::Refused {
                old(self).subscribers().push(sub)
            } else {
                old(self).subscribers()
            }),
    {
        if keeps_subscriber(first) {
            self.push_subscriber(sub);
        }
    }
}

/// A reading that is not a NaN, repeated, is no change: subscribers hear of
/// it once.
pub proof fn law_repeated_reading_is_quiet(known: Map<Seq<char>, u64>, tag: Seq<char>, value: u64)
    requires
        !is_nan_bits(value),
    ensures
        !is_change(after_reading(known, tag, value), tag, value),
        after_reading(after_reading(known, tag, value), tag, value) == after_reading(known, tag, value),
{
}

/// Law: the first reading of a tag is always a change, whatever its value,
/// and the tag becomes known with it; a later reading is a change exactly
/// when it is not `==` (as `f64`) to the last one, and then replaces it,
/// while an equal one leaves what is known as it was.
pub proof fn law_reading_changes(known: Map<Seq<char>, u64>, tag: Seq<char>, value: u64)
    ensures
        !known.contains_key(tag) ==> is_change(known, tag, value) && after_reading(known, tag, value) == known.insert(
            tag,
            value,
        ),
        known.contains_key(tag) && !ieee_eq(known[tag], value) ==> is_change(known, tag, value) && after_reading(
            known,
            tag,
            value,
        ) == known.insert(tag, value),
        known.contains_key(tag) && ieee_eq(known[tag], value) ==> !is_change(known, tag, value) && after_reading(
            known,
            tag,
            value,
        ) == known,
        after_reading(known, tag, value).contains_key(tag),
        forall|t: Seq<char>| t != tag ==> (#[trigger] after_reading(known, tag, value).contains_key(t)) == known.contains_key(t)
            && (known.contains_key(t) ==> after_reading(known, tag, value)[t] == known[t]),
{
}

/// A NaN reading is never equal to anything, so it is always a change.
pub proof fn law_nan_reading_always_changes(known: Map<Seq<char>, u64>, tag: Seq<char>, value: u64)
    requires
        is_nan_bits(value),
    ensures
        is_change(known, tag, value),
{
}

/// A subscriber is only told of readings of tags it watches, and of each
/// such reading.
pub proof fn law_only_watched_readings(tags: Seq<Seq<char>>, rs: Seq<(Seq<char>, u64)>)
    ensures
        forall|i: int| 0 <= i < watched_readings(tags, rs).len() ==> tags.contains(#[trigger] watched_readings(tags, rs)[i].0),
        watched_readings(tags, rs).len() <= rs.len(),
    decreases rs.len(),
{
    if rs.len() > 0 {
        law_only_watched_readings(tags, rs.drop_last());
        let prev = watched_readings(tags, rs.drop_last());
        assert forall|i: int| 0 <= i < watched_readings(tags, rs).len() implies tags.contains(#[trigger] watched_readings(tags, rs)[i].0) by {
            if i < prev.len() {
                assert(watched_readings(tags, rs)[i] == prev[i]);
            }
        }
    }
}

/// A subscriber is only told of nodes it watches.
pub proof fn law_only_watched_nodes<N>(ids: Seq<i32>, states: Map<i32, N>, watched: Set<i32>)
    ensures
        forall|i: int| 0 <= i < watched_nodes_of(ids, states, watched).len() ==> watched.contains(#[trigger] watched_nodes_of(ids, states, watched)[i].id),
    decreases ids.len(),
{
    if ids.len() > 0 {
        law_only_watched_nodes(ids.drop_last(), states, watched);
        let prev = watched_nodes_of(ids.drop_last(), states, watched);
        assert forall|i: int| 0 <= i < watched_nodes_of(ids, states, watched).len() implies watched.contains(#[trigger] watched_nodes_of(ids, states, watched)[i].id) by {
            if i < prev.len() {
                assert(watched_nodes_of(ids, states, watched)[i] == prev[i]);
            }
        }
    }
}

/// When every subscriber is alive, none is dropped; otherwise none is added.
pub proof fn law_kept_subscribers<T>(subs: Seq<T>, alive: Seq<bool>)
    requires
        alive.len() == subs.len(),
    ensures
        kept(subs, alive).len() <= subs.len(),
        (forall|i: int| 0 <= i < alive.len() ==> #[trigger] alive[i]) ==> kept(subs, alive) == subs,
    decreases subs.len(),
{
    if subs.len() > 0 {
        law_kept_subscribers(subs.drop_last(), alive.drop_last());
        if forall|i: int| 0 <= i < alive.len() ==> #[trigger] alive[i] {
            assert forall|i: int| 0 <= i < alive.drop_last().len() implies #[trigger] alive.drop_last()[i] by {
                assert(alive[i]);
            }
            assert(alive.last());
            assert(subs.drop_last().push(subs.last()) =~= subs);
        }
    } else {
        assert(subs =~= Seq::<T>::empty());
    }
}


/// `x` is one of `subs` whose flag in `alive` is set.
pub open spec fn came_through<T>(subs: Seq<T>, alive: Seq<bool>, x: T) -> bool {
    exists|i: int| 0 <= i < subs.len() && #[trigger] alive[i] && subs[i] == x
}

/// The position among `subs` of the `k`-th kept subscriber.
proof fn kept_origin<T>(subs: Seq<T>, alive: Seq<bool>, k: int) -> (i: int)
    requires
        alive.len() == subs.len(),
        0 <= k < kept(subs, alive).len(),
    ensures
        0 <= i < subs.len(),
        alive[i],
        subs[i] == kept(subs, alive)[k],
    decreases subs.len(),
{
    let ps = subs.drop_last();
    let pa = alive.drop_last();
    let prev = kept(ps, pa);
    if k < prev.len() {
        assert(kept(subs, alive)[k] == prev[k]);
        let i = kept_origin(ps, pa, k);
        assert(alive[i] == pa[i]);
        assert(subs[i] == ps[i]);
        i
    } else {
        assert(alive.last());
        assert(kept(subs, alive) == prev.push(subs.last()));
        subs.len() - 1
    }
}

/// Law: after a flush exactly the subscribers whose message was not
/// refused remain: each of them is still there, and each one there is one
/// of them, so a refused subscriber hears of nothing more while the others
/// keep hearing of changes.
pub proof fn law_flush_keeps_the_unrefused<T>(subs: Seq<T>, alive: Seq<bool>)
    requires
        alive.len() == subs.len(),
    ensures
        forall|i: int| 0 <= i < subs.len() && #[trigger] alive[i] ==> kept(subs, alive).contains(subs[i]),
        forall|k: int| 0 <= k < kept(subs, alive).len() ==> came_through(subs, alive, #[trigger] kept(subs, alive)[k]),
    decreases subs.len(),
{
    if subs.len() > 0 {
        let ps = subs.drop_last();
        let pa = alive.drop_last();
        law_flush_keeps_the_unrefused(ps, pa);
        let prev = kept(ps, pa);
        let n: int = subs.len() - 1;
        assert forall|i: int| 0 <= i < subs.len() && #[trigger] alive[i] implies kept(subs, alive).contains(subs[i]) by {
            if i < n {
                assert(pa[i] == alive[i]);
                assert(ps[i] == subs[i]);
                let j = choose|j: int| 0 <= j < prev.len() && prev[j] == ps[i];
                if alive.last() {
                    assert(kept(subs, alive)[j] == prev[j]);
                } else {
                    assert(kept(subs, alive)[j] == prev[j]);
                }
            } else {
                assert(kept(subs, alive) == prev.push(subs.last()));
                assert(kept(subs, alive)[prev.len() as int] == subs[i]);
            }
        }
    }
    assert forall|k: int| 0 <= k < kept(subs, alive).len() implies came_through(subs, alive, #[trigger] kept(subs, alive)[k]) by {
        let i = kept_origin(subs, alive, k);
        assert(alive[i]);
    }
}

/// Recording the same value twice changes the map once: the second call
/// finds it unchanged (for a value equal to itself).
pub proof fn law_check_change_twice<K, V: PartialEq>(m: Map<K, V>, key: K, value: V)
    requires
        value.eq_spec(&value),
    ensures
        ({
            let first = !(m.contains_key(key) && m[key].eq_spec(&value));
            let after = if first {
                m.insert(key, value)
            } else {
                m
            };
            &&& after.contains_key(key)
            &&& after[key].eq_spec(&value)
        }),
{
}

} // verus!
