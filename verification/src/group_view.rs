//! The UI view of a user group, put together from its sub-groups and the
//! values assigned to them.
use std::collections::HashSet;
use vstd::prelude::*;
use vstd::string::StringExecFns;
use crate::schemas::{UiUserGroupRead, UiUserSubGroupsRead, UserSubGroupRead, ValueRead};

verus! {

/// A value of one of the group's sub-groups, with the node of its device.
#[derive(Debug)]
pub struct ValueWithSubgroup {
    pub subgroup_id: i32,
    pub id: i32,
    pub parent_device_id: i32,
    pub value_name: Option<String>,
    pub value_tag: String,
    pub description: Option<String>,
    pub decoding_type: i32,
    pub settings: serde_json::Value,
    pub is_logging: bool,
    pub node_id: Option<i32>,
}

/// `v` is the value `row` describes; a missing name is empty.
pub open spec fn value_of_row(row: ValueWithSubgroup, v: ValueRead) -> bool {
    &&& v.id == row.id
    &&& v.parent_device_id == row.parent_device_id
    &&& v.value_name@ == match row.value_name {
        Some(n) => n@,
        None => Seq::<char>::empty(),
    }
    &&& v.value_tag == row.value_tag
    &&& v.description == row.description
    &&& v.decoding_type == row.decoding_type
    &&& v.settings == row.settings
    &&& v.is_logging == row.is_logging
}

/// The position of the first sub-group with id `id`, if any.
pub open spec fn first_with_id(ids: Seq<i32>, id: i32) -> Option<int>
    decreases ids.len(),
{
    if ids.len() == 0 {
        None
    } else {
        match first_with_id(ids.drop_last(), id) {
            Some(k) => Some(k),
            None => if ids.last() == id {
                Some(ids.len() - 1)
            } else {
                None
            },
        }
    }
}

/// The rows that go to the `k`-th sub-group, in order: those of its id,
/// unless an earlier sub-group has the same id.
pub open spec fn rows_of(rows: Seq<ValueWithSubgroup>, ids: Seq<i32>, k: int) -> Seq<ValueWithSubgroup>
    decreases rows.len(),
{
    if rows.len() == 0 {
        Seq::empty()
    } else {
        let prev = rows_of(rows.drop_last(), ids, k);
        if first_with_id(ids, rows.last().subgroup_id) == Some(k) {
            prev.push(rows.last())
        } else {
            prev
        }
    }
}

/// Each number once, in the order of first occurrence.
pub open spec fn first_occurrences(xs: Seq<i32>) -> Seq<i32>
    decreases xs.len(),
{
    if xs.len() == 0 {
        Seq::empty()
    } else {
        let prev = first_occurrences(xs.drop_last());
        if prev.contains(xs.last()) {
            prev
        } else {
            prev.push(xs.last())
        }
    }
}

/// The nodes the rows name, in order.
pub open spec fn row_nodes(rows: Seq<ValueWithSubgroup>) -> Seq<i32>
    decreases rows.len(),
{
    if rows.len() == 0 {
        Seq::empty()
    } else {
        let prev = row_nodes(rows.drop_last());
        match rows.last().node_id {
            Some(n) => prev.push(n),
            None => prev,
        }
    }
}

/// The devices the rows name, in order.
pub open spec fn row_devices(rows: Seq<ValueWithSubgroup>) -> Seq<i32> {
    rows.map_values(|r: ValueWithSubgroup| r.parent_device_id)
}

/// `values` are the values of `rows`, one for one.
pub open spec fn values_of_rows(rows: Seq<ValueWithSubgroup>, values: Seq<ValueRead>) -> bool {
    values.len() == rows.len() && forall|j: int| 0 <= j < rows.len() ==> value_of_row(rows[j], #[trigger] values[j])
}

/// The value a row describes; a missing name becomes empty.
pub fn row_value(row: ValueWithSubgroup) -> (r: ValueRead)
    ensures
        value_of_row(row, r),
{
    let name = match row.value_name {
        Some(n) => n,
        None => String::new(),
    };
    ValueRead {
        id: row.id,
        parent_device_id: row.parent_device_id,
        value_name: name,
        value_tag: row.value_tag,
        description: row.description,
        decoding_type: row.decoding_type,
        settings: row.settings,
        is_logging: row.is_logging,
    }
}

/// The position of the first sub-group with id `id`.
fn find_first(ids: &Vec<i32>, id: i32) -> (r: Option<usize>)
    ensures
        match r {
            Some(k) => k < ids@.len() && first_with_id(ids@, id) == Some(k as int),
            None => first_with_id(ids@, id) is None,
        },
{
    let mut i: usize = 0;
    while i < ids.len()
        invariant
            i <= ids.len(),
            first_with_id(ids@.subrange(0, i as int), id) is None,
        decreases ids.len() - i,
    {
        proof {
            assert(ids@.subrange(0, i + 1).drop_last() =~= ids@.subrange(0, i as int));
        }
        if ids[i] == id {
            proof {
                lemma_first_with_id_prefix(ids@, i as int + 1, id);
            }
            return Some(i);
        }
        i = i + 1;
    }
    proof {
        assert(ids@.subrange(0, ids@.len() as int) =~= ids@);
    }
    None
}

/// A first occurrence found in a prefix stays the first in the whole.
proof fn lemma_first_with_id_prefix(ids: Seq<i32>, n: int, id: i32)
    requires
        0 <= n <= ids.len(),
        first_with_id(ids.subrange(0, n), id) is Some,
    ensures
        first_with_id(ids, id) == first_with_id(ids.subrange(0, n), id),
    decreases ids.len() - n,
{
    if n < ids.len() {
        assert(ids.subrange(0, n + 1).drop_last() =~= ids.subrange(0, n));
        lemma_first_with_id_prefix(ids, n + 1, id);
    } else {
        assert(ids.subrange(0, n) =~= ids);
    }
}


/// Puts the UI view of group `id` together: `None` when it has no
/// sub-groups; else each sub-group, in order, with the values of its rows
/// (a sub-group whose id came earlier gets none), and each node and device
/// the rows name, once, in the order first named.
pub fn assemble_ui_group(id: i32, subgroups: Vec<UserSubGroupRead>, rows: Vec<ValueWithSubgroup>) -> (r: Option<UiUserGroupRead>)
    ensures
        subgroups@.len() == 0 ==> r is None,
        subgroups@.len() > 0 ==> (r matches Some(g) && {
            let ids = subgroups@.map_values(|s: UserSubGroupRead| s.id);
            &&& g.id == id
            &&& g.devices@ == first_occurrences(row_devices(rows@))
            &&& g.nodes@ == first_occurrences(row_nodes(rows@))
            &&& g.sub_groups@.len() == subgroups@.len()
            &&& forall|k: int| 0 <= k < subgroups@.len() ==> {
                &&& (#[trigger] g.sub_groups@[k]).group_state == subgroups@[k]
                &&& values_of_rows(rows_of(rows@, ids, k), g.sub_groups@[k].values@)
            }
        }),
{
    if subgroups.len() == 0 {
        return None;
    }
    let m: usize = subgroups.len();
    let ghost sgs = subgroups@;
    let ghost all_rows = rows@;
    let mut ids: Vec<i32> = Vec::new();
    let mut buckets: Vec<Vec<ValueRead>> = Vec::new();
    let mut j: usize = 0;
    while j < m
        invariant
            m == subgroups@.len(),
            j <= m,
            ids@ == subgroups@.subrange(0, j as int).map_values(|s: UserSubGroupRead| s.id),
            buckets@.len() == j,
            forall|k: int| 0 <= k < j ==> (#[trigger] buckets@[k])@.len() == 0,
        decreases m - j,
    {
        ids.push(subgroups[j].id);
        buckets.push(Vec::new());
        proof {
            assert(ids@ =~= subgroups@.subrange(0, j + 1).map_values(|s: UserSubGroupRead| s.id));
        }
        j = j + 1;
    }
    let ghost idv = ids@;
    proof {
        assert(subgroups@.subrange(0, m as int) =~= subgroups@);
        assert forall|k: int| 0 <= k < m implies values_of_rows(rows_of(all_rows.subrange(0, 0), idv, k), (#[trigger] buckets@[k])@) by {
            assert(all_rows.subrange(0, 0) =~= Seq::<ValueWithSubgroup>::empty());
        }
    }
    let mut devices: Vec<i32> = Vec::new();
    let mut device_seen: HashSet<i32> = HashSet::new();
    let mut nodes: Vec<i32> = Vec::new();
    let mut node_seen: HashSet<i32> = HashSet::new();
    proof {
        assert(all_rows.subrange(0, 0) =~= Seq::<ValueWithSubgroup>::empty());
        assert(row_devices(Seq::<ValueWithSubgroup>::empty()) =~= Seq::<i32>::empty());
        assert(devices@.to_set() =~= device_seen@);
        assert(nodes@.to_set() =~= node_seen@);
    }
    let n: usize = rows.len();
    let mut i: usize = 0;
    for row in it: rows
        invariant
            it.seq() == all_rows,
            i == it.index(),
            i <= n,
            n == all_rows.len(),
            idv == ids@,
            idv.len() == m,
            buckets@.len() == m,
            forall|k: int| 0 <= k < m ==> values_of_rows(rows_of(all_rows.subrange(0, i as int), idv, k), (#[trigger] buckets@[k])@),
            devices@ == first_occurrences(row_devices(all_rows.subrange(0, i as int))),
            device_seen@ == devices@.to_set(),
            nodes@ == first_occurrences(row_nodes(all_rows.subrange(0, i as int))),
            node_seen@ == nodes@.to_set(),
    {
        let ghost pre = all_rows.subrange(0, i as int);
        let ghost r0 = row;
        proof {
            assert(all_rows.subrange(0, i + 1).drop_last() =~= pre);
            assert(all_rows.subrange(0, i + 1).last() == r0);
            assert(row_devices(all_rows.subrange(0, i + 1)) =~= row_devices(pre).push(r0.parent_device_id));
            assert(row_devices(all_rows.subrange(0, i + 1)).drop_last() =~= row_devices(pre));
            assert(row_nodes(all_rows.subrange(0, i + 1)) == match r0.node_id {
                Some(x) => row_nodes(pre).push(x),
                None => row_nodes(pre),
            });
            if let Some(x) = r0.node_id {
                assert(row_nodes(pre).push(x).drop_last() =~= row_nodes(pre));
            }
        }
        let dev: i32 = row.parent_device_id;
        if !device_seen.contains(&dev) {
            proof {
                devices@.lemma_push_to_set_commute(dev);
            }
            device_seen.insert(dev);
            devices.push(dev);
        }
        if let Some(node) = row.node_id {
            if !node_seen.contains(&node) {
                proof {
                    nodes@.lemma_push_to_set_commute(node);
                }
                node_seen.insert(node);
                nodes.push(node);
            }
        }
        let ghost before = buckets@;
        match find_first(&ids, row.subgroup_id) {
            Some(k) => {
                let v = row_value(row);
                buckets[k].push(v);
                proof {
                    assert forall|q: int| 0 <= q < m implies values_of_rows(rows_of(all_rows.subrange(0, i + 1), idv, q), (#[trigger] buckets@[q])@) by {
                        if q == k {
                            let rs = rows_of(pre, idv, q);
                            assert(rows_of(all_rows.subrange(0, i + 1), idv, q) == rs.push(r0));
                            assert(buckets@[q]@ == before[q]@.push(v));
                        } else {
                            assert(buckets@[q] == before[q]);
                        }
                    }
                }
            },
            None => {
                proof {
                    assert forall|q: int| 0 <= q < m implies values_of_rows(rows_of(all_rows.subrange(0, i + 1), idv, q), (#[trigger] buckets@[q])@) by {
                        assert(rows_of(all_rows.subrange(0, i + 1), idv, q) == rows_of(pre, idv, q));
                    }
                }
            },
        }
        i = i + 1;
    }
    proof {
        assert(all_rows.subrange(0, n as int) =~= all_rows);
    }
    let mut sub_groups: Vec<UiUserSubGroupsRead> = Vec::new();
    let mut k: usize = 0;
    for sg in it: subgroups
        invariant
            it.seq() == sgs,
            k == it.index(),
            k <= m,
            m == sgs.len(),
            idv == sgs.map_values(|s: UserSubGroupRead| s.id),
            buckets@.len() == m,
            sub_groups@.len() == k,
            forall|q: int| k <= q < m ==> values_of_rows(rows_of(all_rows, idv, q), (#[trigger] buckets@[q])@),
            forall|q: int| 0 <= q < k ==> {
                &&& (#[trigger] sub_groups@[q]).group_state == sgs[q]
                &&& values_of_rows(rows_of(all_rows, idv, q), sub_groups@[q].values@)
            },
    {
        let mut vals: Vec<ValueRead> = Vec::new();
        std::mem::swap(&mut vals, &mut buckets[k]);
        sub_groups.push(UiUserSubGroupsRead { group_state: sg, values: vals });
        k = k + 1;
    }
    Some(UiUserGroupRead { id, sub_groups, nodes, devices })
}

/// The `?, ?, …` list of `n` SQL parameters: `n` question marks joined by commas.
pub open spec fn placeholder_text(n: nat) -> Seq<char>
    decreases n,
{
    if n == 0 {
        Seq::empty()
    } else if n == 1 {
        seq!['?']
    } else {
        placeholder_text((n - 1) as nat) + seq![',', '?']
    }
}

/// The parameter list of an SQL `IN (…)` with `n` values.
pub fn placeholders(n: usize) -> (r: String)
    requires
        n < usize::MAX / 2,
    ensures
        r@ == placeholder_text(n as nat),
{
    let mut s = String::new();
    if n == 0 {
        return s;
    }
    s.append("?");
    proof {
        reveal_strlit("?");
        assert(s@ =~= placeholder_text(1));
    }
    let mut i: usize = 1;
    while i < n
        invariant
            1 <= i <= n,
            s@ == placeholder_text(i as nat),
        decreases n - i,
    {
        s.append(",?");
        proof {
            reveal_strlit(",?");
            assert(s@ =~= placeholder_text((i + 1) as nat));
        }
        i = i + 1;
    }
    s
}


/// Law: every value of a sub-group's view carries its row's fields as the
/// row holds them: id, device, tag, description, decoding type, settings and
/// logging flag; its name is the row's name, or empty when the row has none.
pub proof fn law_values_carry_row_fields(rows: Seq<ValueWithSubgroup>, values: Seq<ValueRead>)
    requires
        values_of_rows(rows, values),
    ensures
        values.len() == rows.len(),
        forall|j: int|
            0 <= j < rows.len() ==> {
                let v = #[trigger] values[j];
                let r = rows[j];
                &&& v.id == r.id
                &&& v.parent_device_id == r.parent_device_id
                &&& v.value_tag == r.value_tag
                &&& v.description == r.description
                &&& v.decoding_type == r.decoding_type
                &&& v.settings == r.settings
                &&& v.is_logging == r.is_logging
                &&& (r.value_name matches Some(n) ==> v.value_name@ == n@)
                &&& (r.value_name is None ==> v.value_name@.len() == 0)
            },
{
    assert forall|j: int| 0 <= j < rows.len() implies {
        let v = #[trigger] values[j];
        let r = rows[j];
        &&& v.id == r.id
        &&& v.parent_device_id == r.parent_device_id
        &&& v.value_tag == r.value_tag
        &&& v.description == r.description
        &&& v.decoding_type == r.decoding_type
        &&& v.settings == r.settings
        &&& v.is_logging == r.is_logging
        &&& (r.value_name matches Some(n) ==> v.value_name@ == n@)
        &&& (r.value_name is None ==> v.value_name@.len() == 0)
    } by {
        assert(value_of_row(rows[j], values[j]));
    }
}


/// The first occurrences of a list hold each of its numbers once.
pub proof fn law_first_occurrences(xs: Seq<i32>)
    ensures
        first_occurrences(xs).no_duplicates(),
        first_occurrences(xs).to_set() == xs.to_set(),
    decreases xs.len(),
{
    if xs.len() > 0 {
        law_first_occurrences(xs.drop_last());
        let prev = first_occurrences(xs.drop_last());
        assert(xs.drop_last().push(xs.last()) =~= xs);
        xs.drop_last().lemma_push_to_set_commute(xs.last());
        if !prev.contains(xs.last()) {
            prev.lemma_push_to_set_commute(xs.last());
            assert forall|i: int, j: int| 0 <= i < j < prev.push(xs.last()).len() implies prev.push(xs.last())[i] != prev.push(xs.last())[j] by {
                if j == prev.len() {
                    assert(prev.contains(prev[i]));
                }
            }
        } else {
            assert(xs.drop_last().to_set().contains(xs.last()));
            assert(xs.drop_last().to_set().insert(xs.last()) =~= xs.drop_last().to_set());
        }
    } else {
        assert(xs.to_set() =~= Set::<i32>::empty());
        assert(first_occurrences(xs).to_set() =~= Set::<i32>::empty());
    }
}

proof fn lemma_first_with_id_is_that_id(ids: Seq<i32>, id: i32)
    ensures
        first_with_id(ids, id) matches Some(k) ==> 0 <= k < ids.len() && ids[k] == id,
    decreases ids.len(),
{
    if ids.len() > 0 {
        lemma_first_with_id_is_that_id(ids.drop_last(), id);
    }
}

/// A sub-group whose id an earlier sub-group already has gets no values:
/// each value goes to the first sub-group of its id.
pub proof fn law_repeated_subgroup_gets_nothing(rows: Seq<ValueWithSubgroup>, ids: Seq<i32>, k: int)
    requires
        0 <= k < ids.len(),
        first_with_id(ids, ids[k]) != Some(k),
    ensures
        rows_of(rows, ids, k).len() == 0,
    decreases rows.len(),
{
    if rows.len() > 0 {
        law_repeated_subgroup_gets_nothing(rows.drop_last(), ids, k);
        lemma_first_with_id_is_that_id(ids, rows.last().subgroup_id);
    }
}

/// The parameter list has one `?` per value and a comma between two.
pub proof fn law_placeholder_length(n: nat)
    ensures
        n > 0 ==> placeholder_text(n).len() == 2 * n - 1,
        n == 0 ==> placeholder_text(n).len() == 0,
    decreases n,
{
    if n > 1 {
        law_placeholder_length((n - 1) as nat);
    }
}

} // verus!
