//! Values and events that clients of the data sockets write and read, kept
//! by tag: the last write of a tag wins.
use vstd::prelude::*;

verus! {

/// A copy of a JSON value.
///
/// Calls `<serde_json::Value as Clone>::clone`, which `derive(Clone)` writes:
/// the claim is that the copy is the same value.
#[verifier::external_body]
fn json_clone(v: &serde_json::Value) -> (r: serde_json::Value)
    ensures
        r == *v,
{
    v.clone()
}

/// A pair list with each key once, read as a map.
pub open spec fn keyed_map<V>(pairs: Seq<(Seq<char>, V)>) -> Map<Seq<char>, V>
    decreases pairs.len(),
{
    if pairs.len() == 0 {
        Map::empty()
    } else {
        keyed_map(pairs.drop_last()).insert(pairs.last().0, pairs.last().1)
    }
}

/// No key occurs twice.
pub open spec fn distinct_keys<V>(pairs: Seq<(Seq<char>, V)>) -> bool {
    forall|i: int, j: int| 0 <= i < j < pairs.len() ==> #[trigger] pairs[i].0 != #[trigger] pairs[j].0
}

proof fn lemma_keyed_update<V>(pairs: Seq<(Seq<char>, V)>, k: int, value: V)
    requires
        distinct_keys(pairs),
        0 <= k < pairs.len(),
    ensures
        distinct_keys(pairs.update(k, (pairs[k].0, value))),
        keyed_map(pairs.update(k, (pairs[k].0, value))) == keyed_map(pairs).insert(pairs[k].0, value),
    decreases pairs.len(),
{
    let p2 = pairs.update(k, (pairs[k].0, value));
    assert forall|i: int, j: int| 0 <= i < j < p2.len() implies #[trigger] p2[i].0 != #[trigger] p2[j].0 by {
        assert(p2[i].0 == pairs[i].0);
        assert(p2[j].0 == pairs[j].0);
    }
    if k == pairs.len() - 1 {
        assert(p2.drop_last() =~= pairs.drop_last());
        assert(keyed_map(p2) =~= keyed_map(pairs).insert(pairs[k].0, value));
    } else {
        let d = pairs.drop_last();
        assert(d.update(k, (d[k].0, value)) =~= p2.drop_last());
        lemma_keyed_update(d, k, value);
        assert(pairs.last().0 != pairs[k].0);
        assert(keyed_map(p2) =~= keyed_map(pairs).insert(pairs[k].0, value));
    }
}

proof fn lemma_keyed_has<V>(pairs: Seq<(Seq<char>, V)>, k: int)
    requires
        distinct_keys(pairs),
        0 <= k < pairs.len(),
    ensures
        keyed_map(pairs).contains_key(pairs[k].0),
        keyed_map(pairs)[pairs[k].0] == pairs[k].1,
    decreases pairs.len(),
{
    if k < pairs.len() - 1 {
        lemma_keyed_has(pairs.drop_last(), k);
        assert(pairs.last().0 != pairs[k].0);
    }
}

proof fn lemma_keyed_lacks<V>(pairs: Seq<(Seq<char>, V)>, key: Seq<char>)
    requires
        forall|i: int| 0 <= i < pairs.len() ==> #[trigger] pairs[i].0 != key,
    ensures
        !keyed_map(pairs).contains_key(key),
    decreases pairs.len(),
{
    if pairs.len() > 0 {
        lemma_keyed_lacks(pairs.drop_last(), key);
        assert(pairs.last().0 != key);
    }
}

/// Entries by tag, in the order the tags were first written.
pub struct TagMap<V> {
    entries: Vec<(String, V)>,
}

impl<V> TagMap<V> {
    /// The entries as (tag, value) pairs.
    pub closed spec fn pairs(&self) -> Seq<(Seq<char>, V)> {
        self.entries@.map_values(|e: (String, V)| (e.0@, e.1))
    }

    pub closed spec fn wf(&self) -> bool {
        distinct_keys(self.pairs())
    }

    /// The last value written under each tag.
    pub open spec fn map(&self) -> Map<Seq<char>, V> {
        keyed_map(self.pairs())
    }

    pub fn new() -> (r: Self)
        ensures
            r.wf(),
            r.pairs().len() == 0,
    {
        let r = TagMap { entries: Vec::new() };
        assert(r.pairs() =~= Seq::empty());
        r
    }

    /// Where `tag` is, if it is there.
    fn find(&self, tag: &String) -> (r: Option<usize>)
        requires
            self.wf(),
        ensures
            match r {
                Some(i) => i < self.pairs().len() && self.pairs()[i as int].0 == tag@,
                None => forall|k: int| 0 <= k < self.pairs().len() ==> #[trigger] self.pairs()[k].0 != tag@,
            },
    {
        let mut i: usize = 0;
        while i < self.entries.len()
            invariant
                i <= self.entries.len(),
                forall|k: int| 0 <= k < i ==> #[trigger] self.pairs()[k].0 != tag@,
            decreases self.entries.len() - i,
        {
            if self.entries[i].0 == *tag {
                return Some(i);
            }
            i = i + 1;
        }
        None
    }

    /// Writes `value` under `tag`: in place if the tag is there, else at the end.
    pub fn insert(&mut self, tag: String, value: V)
        requires
            old(self).wf(),
        ensures
            final(self).wf(),
            final(self).map() == old(self).map().insert(tag@, value),
            final(self).pairs().len() == old(self).pairs().len() + (if old(self).map().contains_key(tag@) {
                0int
            } else {
                1int
            }),
            forall|k: int| 0 <= k < old(self).pairs().len() ==> #[trigger] final(self).pairs()[k] == (if old(self).pairs()[k].0 == tag@ {
                (tag@, value)
            } else {
                old(self).pairs()[k]
            }),
            !old(self).map().contains_key(tag@) ==> final(self).pairs().last() == (tag@, value),
    {
        let ghost pairs = self.pairs();
        match self.find(&tag) {
            Some(i) => {
                proof {
                    lemma_keyed_has(pairs, i as int);
                    lemma_keyed_update(pairs, i as int, value);
                }
                let ghost t = tag@;
                self.entries.set(i, (tag, value));
                proof {
                    assert(self.pairs() =~= pairs.update(i as int, (pairs[i as int].0, value)));
                }
            },
            None => {
                proof {
                    lemma_keyed_lacks(pairs, tag@);
                }
                let ghost t = tag@;
                self.entries.push((tag, value));
                proof {
                    let p2 = self.pairs();
                    assert(p2 =~= pairs.push((t, value)));
                    assert(p2.drop_last() =~= pairs);
                    assert forall|a: int, b: int| 0 <= a < b < p2.len() implies #[trigger] p2[a].0 != #[trigger] p2[b].0 by {
                        assert(p2[a].0 == pairs[a].0);
                        if b < pairs.len() {
                            assert(p2[b].0 == pairs[b].0);
                        }
                    }
                }
            },
        }
    }

    /// The value under `tag`, if any.
    pub fn get(&self, tag: &String) -> (r: Option<&V>)
        requires
            self.wf(),
        ensures
            match r {
                Some(v) => self.map().contains_key(tag@) && *v == self.map()[tag@],
                None => !self.map().contains_key(tag@),
            },
            r matches Some(v) ==> exists|k: int| 0 <= k < self.pairs().len() && #[trigger] self.pairs()[k].0 == tag@ && self.pairs()[k].1 == *v,
    {
        match self.find(tag) {
            Some(i) => {
                proof {
                    lemma_keyed_has(self.pairs(), i as int);
                }
                Some(&self.entries[i].1)
            },
            None => {
                proof {
                    lemma_keyed_lacks(self.pairs(), tag@);
                }
                None
            },
        }
    }

    pub fn len(&self) -> (r: usize)
        ensures
            r == self.pairs().len(),
    {
        self.entries.len()
    }

    /// The value of the `i`-th entry.
    pub fn value_at(&self, i: usize) -> (r: &V)
        requires
            i < self.pairs().len(),
        ensures
            *r == self.pairs()[i as int].1,
    {
        &self.entries[i].1
    }
}

/// A value a client wrote: its tag, when, and the JSON it holds.
#[derive(Debug)]
pub struct HashedValue {
    pub tag: String,
    pub timestamp: i64,
    pub value: serde_json::Value,
}

/// A copy of a value.
pub fn copy_value(v: &HashedValue) -> (r: HashedValue)
    ensures
        r.tag@ == v.tag@,
        r.timestamp == v.timestamp,
        r.value == v.value,
{
    HashedValue { tag: v.tag.clone(), timestamp: v.timestamp, value: json_clone(&v.value) }
}

/// What a value is stored as: its tag's text, time and JSON.
pub open spec fn stored(v: HashedValue) -> (Seq<char>, i64, serde_json::Value) {
    (v.tag@, v.timestamp, v.value)
}

/// The map after writing `vs` in order: a later write of a tag wins.
pub open spec fn written<V>(m: Map<Seq<char>, V>, vs: Seq<(Seq<char>, V)>) -> Map<Seq<char>, V>
    decreases vs.len(),
{
    if vs.len() == 0 {
        m
    } else {
        written(m, vs.drop_last()).insert(vs.last().0, vs.last().1)
    }
}

/// The values stored under the asked tags, in the order asked; tags with
/// nothing stored are left out.
pub open spec fn found_values(m: Map<Seq<char>, (i64, serde_json::Value)>, tags: Seq<Seq<char>>) -> Seq<(Seq<char>, i64, serde_json::Value)>
    decreases tags.len(),
{
    if tags.len() == 0 {
        Seq::empty()
    } else {
        let prev = found_values(m, tags.drop_last());
        let t = tags.last();
        if m.contains_key(t) {
            prev.push((t, m[t].0, m[t].1))
        } else {
            prev
        }
    }
}

/// The store of the values clients write, by tag.
pub struct ValueVault {
    values: TagMap<HashedValue>,
}

impl ValueVault {
    pub closed spec fn wf(&self) -> bool {
        self.values.wf() && forall|i: int| 0 <= i < self.values.pairs().len()
            ==> (#[trigger] self.values.pairs()[i]).1.tag@ == self.values.pairs()[i].0
    }

    /// What is stored under each tag: time and JSON.
    pub closed spec fn contents(&self) -> Map<Seq<char>, (i64, serde_json::Value)> {
        self.values.map().map_values(|v: HashedValue| (v.timestamp, v.value))
    }

    /// The stored values, in the order their tags were first written.
    pub closed spec fn in_order(&self) -> Seq<(Seq<char>, i64, serde_json::Value)> {
        self.values.pairs().map_values(|p: (Seq<char>, HashedValue)| stored(p.1))
    }

    pub fn new() -> (r: Self)
        ensures
            r.wf(),
            r.contents() == Map::<Seq<char>, (i64, serde_json::Value)>::empty(),
            r.in_order().len() == 0,
    {
        let r = ValueVault { values: TagMap::new() };
        assert(r.values.map() =~= Map::empty());
        assert(r.contents() =~= Map::empty());
        r
    }

    /// Stores each value under its tag, in order.
    pub fn update_values(&mut self, new_values: Vec<HashedValue>)
        requires
            old(self).wf(),
        ensures
            final(self).wf(),
            final(self).contents() == written(
                old(self).contents(),
                new_values@.map_values(|v: HashedValue| (v.tag@, (v.timestamp, v.value))),
            ),
    {
        let ghost vs = new_values@.map_values(|v: HashedValue| (v.tag@, (v.timestamp, v.value)));
        let ghost c0 = self.contents();
        let n: usize = new_values.len();
        let mut i: usize = 0;
        for v in it: new_values
            invariant
                self.wf(),
                it.seq() == new_values@,
                i == it.index(),
                i <= new_values@.len(),
                new_values@.len() == n,
                vs == new_values@.map_values(|v: HashedValue| (v.tag@, (v.timestamp, v.value))),
                self.contents() == written(c0, vs.subrange(0, i as int)),
        {
            proof {
                assert(vs.subrange(0, i + 1).drop_last() =~= vs.subrange(0, i as int));
            }
            let ghost v_seen = v;
            let ghost old_pairs = self.values.pairs();
            let tag = v.tag.clone();
            self.values.insert(tag, v);
            proof {
                assert(self.contents() =~= written(c0, vs.subrange(0, i as int)).insert(v_seen.tag@, (v_seen.timestamp, v_seen.value)));
                let p = self.values.pairs();
                assert forall|k: int| 0 <= k < p.len() implies (#[trigger] p[k]).1.tag@ == p[k].0 by {
                    if k < old_pairs.len() {
                        assert(p[k] == (if old_pairs[k].0 == v_seen.tag@ { (v_seen.tag@, v_seen) } else { old_pairs[k] }));
                    }
                }
            }
            i = i + 1;
        }
        proof {
            assert(vs.subrange(0, new_values@.len() as int) =~= vs);
        }
    }

    /// Copies of the values stored under the asked tags, in the order asked;
    /// tags with nothing stored are left out.
    pub fn get_many(&self, tags: &Vec<String>) -> (r: Vec<HashedValue>)
        requires
            self.wf(),
        ensures
            r@.map_values(|v: HashedValue| stored(v)) == found_values(
                self.contents(),
                tags@.map_values(|t: String| t@),
            ),
    {
        let ghost ts = tags@.map_values(|t: String| t@);
        let mut out: Vec<HashedValue> = Vec::new();
        let mut i: usize = 0;
        while i < tags.len()
            invariant
                self.wf(),
                i <= tags.len(),
                ts == tags@.map_values(|t: String| t@),
                out@.map_values(|v: HashedValue| stored(v)) == found_values(self.contents(), ts.subrange(0, i as int)),
            decreases tags.len() - i,
        {
            proof {
                assert(ts.subrange(0, i + 1).drop_last() =~= ts.subrange(0, i as int));
            }
            let ghost before = out@;
            match self.values.get(&tags[i]) {
                Some(v) => {
                    out.push(copy_value(v));
                    proof {
                        assert(out@.map_values(|v: HashedValue| stored(v)) =~= before.map_values(|v: HashedValue| stored(v)).push(stored(*v)));
                    }
                },
                None => {},
            }
            i = i + 1;
        }
        proof {
            assert(ts.subrange(0, tags@.len() as int) =~= ts);
        }
        out
    }

    /// Copies of all stored values, in the order their tags were first written.
    pub fn get_all(&self) -> (r: Vec<HashedValue>)
        requires
            self.wf(),
        ensures
            r@.map_values(|v: HashedValue| stored(v)) == self.in_order(),
    {
        let mut out: Vec<HashedValue> = Vec::new();
        let n: usize = self.values.len();
        let mut i: usize = 0;
        while i < n
            invariant
                n == self.values.pairs().len(),
                i <= n,
                out@.map_values(|v: HashedValue| stored(v)) == self.in_order().subrange(0, i as int),
            decreases n - i,
        {
            let ghost before = out@;
            let v = self.values.value_at(i);
            let c = copy_value(v);
            proof {
                assert(stored(c) == stored(*v));
                assert(self.in_order()[i as int] == stored(self.values.pairs()[i as int].1));
            }
            out.push(c);
            proof {
                assert(out@.map_values(|v: HashedValue| stored(v)) =~= before.map_values(|v: HashedValue| stored(v)).push(stored(c)));
                assert(out@.map_values(|v: HashedValue| stored(v)) =~= self.in_order().subrange(0, i + 1));
            }
            i = i + 1;
        }
        proof {
            assert(self.in_order().subrange(0, n as int) =~= self.in_order());
        }
        out
    }
}

/// The store of the events clients write, by tag.
pub struct EventDataContainer {
    events: TagMap<serde_json::Value>,
}

impl EventDataContainer {
    pub closed spec fn wf(&self) -> bool {
        self.events.wf()
    }

    /// The last event written under each tag.
    pub closed spec fn contents(&self) -> Map<Seq<char>, serde_json::Value> {
        self.events.map()
    }

    pub fn new() -> (r: Self)
        ensures
            r.wf(),
            r.contents() == Map::<Seq<char>, serde_json::Value>::empty(),
    {
        let r = EventDataContainer { events: TagMap::new() };
        assert(r.events.map() =~= Map::empty());
        r
    }

    /// Stores each event under its tag, in order.
    pub fn update_event(&mut self, updates: Vec<(String, serde_json::Value)>)
        requires
            old(self).wf(),
        ensures
            final(self).wf(),
            final(self).contents() == written(
                old(self).contents(),
                updates@.map_values(|u: (String, serde_json::Value)| (u.0@, u.1)),
            ),
    {
        let ghost us = updates@.map_values(|u: (String, serde_json::Value)| (u.0@, u.1));
        let ghost c0 = self.contents();
        let n: usize = updates.len();
        let mut i: usize = 0;
        for u in it: updates
            invariant
                self.wf(),
                it.seq() == updates@,
                i == it.index(),
                i <= updates@.len(),
                updates@.len() == n,
                us == updates@.map_values(|u: (String, serde_json::Value)| (u.0@, u.1)),
                self.contents() == written(c0, us.subrange(0, i as int)),
        {
            proof {
                assert(us.subrange(0, i + 1).drop_last() =~= us.subrange(0, i as int));
            }
            let (tag, value) = u;
            self.events.insert(tag, value);
            i = i + 1;
        }
        proof {
            assert(us.subrange(0, n as int) =~= us);
        }
    }

    /// A copy of the event under `tag`, if any.
    pub fn get_event(&self, tag: &String) -> (r: Option<serde_json::Value>)
        requires
            self.wf(),
        ensures
            r == (if self.contents().contains_key(tag@) {
                Some(self.contents()[tag@])
            } else {
                None::<serde_json::Value>
            }),
    {
        match self.events.get(tag) {
            Some(v) => Some(json_clone(v)),
            None => None,
        }
    }
}

/// The positions of the updates whose tag is one of `subscribed`, in order.
pub open spec fn relayed(subscribed: Seq<Seq<char>>, tags: Seq<Seq<char>>) -> Seq<int>
    decreases tags.len(),
{
    if tags.len() == 0 {
        Seq::empty()
    } else {
        let prev = relayed(subscribed, tags.drop_last());
        if subscribed.contains(tags.last()) {
            prev.push(tags.len() - 1)
        } else {
            prev
        }
    }
}

/// Which of the updates another client wrote are passed on to this one: none
/// of its own, none while it asked for nothing, else those of the tags it
/// asked for. Gives their positions, in order.
pub fn relay_selection(client_id: u64, sender_id: u64, subscribed: &Vec<String>, tags: &Vec<String>) -> (r: Vec<usize>)
    ensures
        sender_id == client_id || subscribed@.len() == 0 ==> r@.len() == 0,
        !(sender_id == client_id || subscribed@.len() == 0) ==> r@.map_values(|k: usize| k as int) == relayed(
            subscribed@.map_values(|t: String| t@),
            tags@.map_values(|t: String| t@),
        ),
{
    let mut out: Vec<usize> = Vec::new();
    if sender_id == client_id || subscribed.len() == 0 {
        return out;
    }
    let ghost subs = subscribed@.map_values(|t: String| t@);
    let ghost ts = tags@.map_values(|t: String| t@);
    let mut i: usize = 0;
    while i < tags.len()
        invariant
            i <= tags.len(),
            subs == subscribed@.map_values(|t: String| t@),
            ts == tags@.map_values(|t: String| t@),
            out@.map_values(|k: usize| k as int) == relayed(subs, ts.subrange(0, i as int)),
        decreases tags.len() - i,
    {
        proof {
            assert(ts.subrange(0, i + 1).drop_last() =~= ts.subrange(0, i as int));
        }
        let ghost before = out@;
        if crate::live::contains_tag(subscribed, &tags[i]) {
            out.push(i);
            proof {
                assert(out@.map_values(|k: usize| k as int) =~= before.map_values(|k: usize| k as int).push(i as int));
            }
        }
        i = i + 1;
    }
    proof {
        assert(ts.subrange(0, tags@.len() as int) =~= ts);
    }
    out
}


/// Whether an update another client wrote is passed on to this one, and
/// which of its entries: `None` when nothing is sent (its own update, a
/// client that asked for nothing, or no entry of a tag it asked for);
/// otherwise the positions, in order, of the entries of the tags it asked
/// for, of which there is at least one.
pub fn relay_decision(client_id: u64, sender_id: u64, subscribed: &Vec<String>, tags: &Vec<String>) -> (r: Option<
    Vec<usize>,
>)
    ensures
        (r is Some) == (sender_id != client_id && subscribed@.len() > 0 && relayed(
            subscribed@.map_values(|t: String| t@),
            tags@.map_values(|t: String| t@),
        ).len() > 0),
        r matches Some(v) ==> v@.map_values(|k: usize| k as int) == relayed(
            subscribed@.map_values(|t: String| t@),
            tags@.map_values(|t: String| t@),
        ),
{
    let picked = relay_selection(client_id, sender_id, subscribed, tags);
    if sender_id == client_id || subscribed.len() == 0 || picked.len() == 0 {
        proof {
            if !(sender_id == client_id || subscribed@.len() == 0) {
                assert(picked@.map_values(|k: usize| k as int).len() == picked@.len());
            }
        }
        None
    } else {
        proof {
            assert(picked@.map_values(|k: usize| k as int).len() == picked@.len());
        }
        Some(picked)
    }
}

/// A read of a tag gives back the last write of it; other tags keep what
/// they had.
pub proof fn law_read_after_write<V>(m: Map<Seq<char>, V>, vs: Seq<(Seq<char>, V)>, tag: Seq<char>, value: V, other: Seq<char>)
    requires
        other != tag,
    ensures
        written(m, vs.push((tag, value))).contains_key(tag),
        written(m, vs.push((tag, value)))[tag] == value,
        written(m, vs.push((tag, value))).contains_key(other) == written(m, vs).contains_key(other),
        written(m, vs.push((tag, value)))[other] == written(m, vs)[other],
{
    assert(vs.push((tag, value)).drop_last() =~= vs);
}

/// Every value a read gives back is stored under one of the asked tags.
pub proof fn law_found_values_are_stored(m: Map<Seq<char>, (i64, serde_json::Value)>, tags: Seq<Seq<char>>)
    ensures
        forall|i: int| 0 <= i < found_values(m, tags).len() ==> {
            let f = #[trigger] found_values(m, tags)[i];
            &&& tags.contains(f.0)
            &&& m.contains_key(f.0)
            &&& m[f.0] == (f.1, f.2)
        },
        found_values(m, tags).len() <= tags.len(),
    decreases tags.len(),
{
    if tags.len() > 0 {
        law_found_values_are_stored(m, tags.drop_last());
        let prev = found_values(m, tags.drop_last());
        assert forall|i: int| 0 <= i < found_values(m, tags).len() implies {
            let f = #[trigger] found_values(m, tags)[i];
            &&& tags.contains(f.0)
            &&& m.contains_key(f.0)
            &&& m[f.0] == (f.1, f.2)
        } by {
            if i < prev.len() {
                assert(found_values(m, tags)[i] == prev[i]);
                let j: int = choose|j: int| 0 <= j < tags.drop_last().len() && tags.drop_last()[j] == prev[i].0;
                assert(tags[j] == prev[i].0);
            } else {
                assert(tags[tags.len() - 1] == tags.last());
            }
        }
    }
}

/// A client is passed on only updates of tags it asked for, and never
/// its own.
pub proof fn law_relay_only_subscribed(subscribed: Seq<Seq<char>>, tags: Seq<Seq<char>>)
    ensures
        forall|i: int| 0 <= i < relayed(subscribed, tags).len() ==> {
            let k = #[trigger] relayed(subscribed, tags)[i];
            &&& 0 <= k < tags.len()
            &&& subscribed.contains(tags[k])
        },
    decreases tags.len(),
{
    if tags.len() > 0 {
        law_relay_only_subscribed(subscribed, tags.drop_last());
        let prev = relayed(subscribed, tags.drop_last());
        assert forall|i: int| 0 <= i < relayed(subscribed, tags).len() implies {
            let k = #[trigger] relayed(subscribed, tags)[i];
            &&& 0 <= k < tags.len()
            &&& subscribed.contains(tags[k])
        } by {
            if i < prev.len() {
                assert(relayed(subscribed, tags)[i] == prev[i]);
                assert(tags.drop_last()[prev[i]] == tags[prev[i]]);
            }
        }
    }
}


/// Asking for a tag right after writing it gives back exactly what was
/// written.
pub proof fn law_get_after_update(
    m: Map<Seq<char>, (i64, serde_json::Value)>,
    vs: Seq<(Seq<char>, (i64, serde_json::Value))>,
    tag: Seq<char>,
    written_value: (i64, serde_json::Value),
)
    ensures
        found_values(written(m, vs.push((tag, written_value))), seq![tag]) == seq![(tag, written_value.0, written_value.1)],
{
    let after = written(m, vs.push((tag, written_value)));
    assert(vs.push((tag, written_value)).drop_last() =~= vs);
    assert(seq![tag].drop_last() =~= Seq::<Seq<char>>::empty());
    assert(found_values(after, Seq::<Seq<char>>::empty()) =~= Seq::empty());
    assert(found_values(after, seq![tag]) =~= seq![(tag, written_value.0, written_value.1)]);
}

} // verus!
