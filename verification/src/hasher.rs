//! In-memory cache of the latest measurements of one value.
//!
//! A `ValueHasher` keeps a ring of the measurements that passed its
//! filters: a reading equal to the previous one is dropped unless
//! `STABLE_DELTA` seconds passed, and a failed reading (the failure
//! marker) is reported once it lasts `FAILURE_DELTA` seconds.
use vstd::prelude::*;
use crate::float_bits::{float_eq, ieee_eq, FAILURE_MARKER};
use vstd::pervasive::VecAdditionalExecFns;

verus! {

/// Seconds after which an unchanged value is stored again.
pub const STABLE_DELTA: u64 = 300;

/// Seconds a failure must last before it is reported.
pub const FAILURE_DELTA: u64 = 120;

/// One measurement: the value's bit pattern and its time in seconds.
#[derive(Clone, Copy, Debug)]
pub struct HashedValue {
    pub val: u64,
    pub timestamp: u64,
}

/// What `ValueHasher::add` answers: `Ok(Some(m))` a measurement to keep,
/// `Ok(None)` nothing to keep, `Err(m)` a failure to report.
pub type AddResult = Result<Option<HashedValue>, HashedValue>;

/// The abstract state of a `ValueHasher`.
pub struct HasherModel {
    pub slots: Seq<HashedValue>,
    pub size: nat,
    pub capacity: nat,
    pub current: nat,
    pub in_failure: bool,
    pub failure_reported: bool,
}

pub struct ValueHasher {
    hashed_values: Vec<HashedValue>,
    size: usize,
    capacity: usize,
    current: usize,
    stable_delta: u64,
    failure_delta: u64,
    in_failure: bool,
    failure_reported: bool,
}

/// Largest capacity a ring may have (the slots must fit in memory).
pub open spec fn max_capacity() -> nat {
    (usize::MAX / 64) as nat
}

/// Timestamp of the `i`-th slot in search order from `oldest`,
/// positions taken modulo the number of slots.
pub open spec fn ring_ts(slots: Seq<HashedValue>, oldest: int, i: int) -> u64 {
    slots[(oldest + i) % (slots.len() as int)].timestamp
}

/// Binary search for the first position in `[left, right)` whose
/// timestamp is not below `target`, in search order from `oldest`.
pub open spec fn lower_bound(
    slots: Seq<HashedValue>,
    oldest: int,
    left: int,
    right: int,
    target: u64,
) -> int
    decreases right - left,
{
    if left >= right {
        left
    } else {
        let mid: int = left + (right - left) / 2;
        if ring_ts(slots, oldest, mid) < target {
            lower_bound(slots, oldest, mid + 1, right, target)
        } else {
            lower_bound(slots, oldest, left, mid, target)
        }
    }
}

impl HasherModel {
    /// The ring is well formed.
    pub open spec fn wf(self) -> bool {
        &&& 0 < self.capacity <= max_capacity()
        &&& self.slots.len() == self.capacity + 1
        &&& self.size <= self.capacity
        &&& self.current < self.capacity
    }

    /// Slot of the oldest kept measurement.
    pub open spec fn oldest_index(self) -> int {
        if self.size < self.capacity {
            0
        } else {
            ((self.current + 1) as int) % (self.capacity as int)
        }
    }

    /// The kept measurements, oldest first.
    pub open spec fn kept_readings(self) -> Seq<HashedValue> {
        Seq::new(self.size, |k: int| self.slots[(self.oldest_index() + k) % (self.capacity as int)])
    }

    /// The newest kept measurement.
    pub open spec fn newest(self) -> HashedValue {
        self.slots[self.current as int]
    }

    /// Writes a measurement into the slot after the current one.
    pub open spec fn advance_and_write(self, m: HashedValue) -> HasherModel {
        let next: nat = if self.size == 0 {
            0
        } else {
            (((self.current + 1) as int) % (self.capacity as int)) as nat
        };
        HasherModel {
            slots: self.slots.update(next as int, m),
            current: next,
            size: if self.size < self.capacity { self.size + 1 } else { self.size },
            ..self
        }
    }

    /// Sets the timestamp of slot `i`.
    pub open spec fn touch(self, i: int, ts: u64) -> HasherModel {
        HasherModel {
            slots: self.slots.update(i, HashedValue { val: self.slots[i].val, timestamp: ts }),
            ..self
        }
    }

    /// Slot before the current one, wrapping to the last slot of the ring.
    pub open spec fn prev_index(self) -> int {
        if self.current == 0 {
            self.capacity - 1
        } else {
            self.current - 1
        }
    }

    /// `add` does no subtraction of a larger timestamp from a smaller one.
    pub open spec fn add_defined(self, val: u64, ts: u64) -> bool {
        if val == FAILURE_MARKER {
            self.in_failure && !self.failure_reported ==> self.newest().timestamp <= ts
        } else if self.failure_reported {
            true
        } else if self.in_failure {
            ieee_eq(val, self.slots[self.prev_index()].val) ==> self.slots[self.prev_index()].timestamp <= ts
        } else {
            ieee_eq(val, self.newest().val) ==> self.newest().timestamp <= ts
        }
    }

    /// The state after `add(val, ts)` and what it answers.
    pub open spec fn add(self, val: u64, ts: u64) -> (HasherModel, AddResult) {
        let m = HashedValue { val, timestamp: ts };
        if val == FAILURE_MARKER {
            if !self.in_failure {
                (HasherModel { in_failure: true, ..self.advance_and_write(m) }, Ok(None))
            } else if !self.failure_reported {
                if ts - self.newest().timestamp >= FAILURE_DELTA {
                    let s = self.touch(self.current as int, ts);
                    (HasherModel { failure_reported: true, ..s }, Err(s.newest()))
                } else {
                    (self, Ok(None))
                }
            } else {
                (self, Ok(None))
            }
        } else if self.failure_reported {
            let s = HasherModel { in_failure: false, failure_reported: false, ..self }.advance_and_write(m);
            (s, Ok(Some(s.newest())))
        } else if self.in_failure {
            let p = self.prev_index();
            let prev = self.slots[p];
            if !ieee_eq(val, prev.val) || ts - prev.timestamp >= STABLE_DELTA {
                let s = HasherModel {
                    in_failure: false,
                    slots: self.slots.update(self.current as int, m),
                    ..self
                };
                (s, Ok(Some(m)))
            } else {
                let s = HasherModel { in_failure: false, current: p as nat, ..self };
                (s.touch(p, ts), Ok(None))
            }
        } else {
            let prev = self.newest();
            if !ieee_eq(val, prev.val) || ts - prev.timestamp >= STABLE_DELTA {
                let s = self.advance_and_write(m);
                (s, Ok(Some(s.newest())))
            } else {
                (self.touch(self.current as int, ts), Ok(None))
            }
        }
    }

    /// The kept measurements with timestamps in `[from, to)`, as `get_hashed`
    /// finds them: `None` for an empty window, an empty ring, or a window
    /// that starts before the oldest kept measurement; else the run of kept
    /// readings between the positions the binary search gives for `from` and
    /// `to`, or `None` when that run is empty.
    pub open spec fn hashed_range(self, from: u64, to: u64) -> Option<Seq<HashedValue>> {
        if from >= to || self.size == 0 {
            None
        } else {
            let o = self.oldest_index();
            if self.slots[o].timestamp > from {
                None
            } else {
                let s = lower_bound(self.slots, o, 0, self.size as int, from);
                let e = lower_bound(self.slots, o, 0, self.size as int, to);
                if s == e {
                    None
                } else {
                    Some(self.kept_readings().subrange(s, e))
                }
            }
        }
    }
}

impl View for ValueHasher {
    type V = HasherModel;

    closed spec fn view(&self) -> HasherModel {
        HasherModel {
            slots: self.hashed_values@,
            size: self.size as nat,
            capacity: self.capacity as nat,
            current: self.current as nat,
            in_failure: self.in_failure,
            failure_reported: self.failure_reported,
        }
    }
}

/// The search result lies in `[left, right]`.
pub proof fn lemma_lower_bound_in_range(
    slots: Seq<HashedValue>,
    oldest: int,
    left: int,
    right: int,
    target: u64,
)
    requires
        left <= right,
    ensures
        left <= lower_bound(slots, oldest, left, right, target) <= right,
    decreases right - left,
{
    if left < right {
        let mid: int = left + (right - left) / 2;
        if ring_ts(slots, oldest, mid) < target {
            lemma_lower_bound_in_range(slots, oldest, mid + 1, right, target);
        } else {
            lemma_lower_bound_in_range(slots, oldest, left, mid, target);
        }
    }
}

/// Law: the binary search is monotone in its target, whatever the slots
/// hold; so the range `get_hashed` cuts out never has its end before its start.
pub proof fn lemma_lower_bound_monotone(
    slots: Seq<HashedValue>,
    oldest: int,
    left: int,
    right: int,
    t1: u64,
    t2: u64,
)
    requires
        left <= right,
        t1 <= t2,
    ensures
        lower_bound(slots, oldest, left, right, t1) <= lower_bound(slots, oldest, left, right, t2),
    decreases right - left,
{
    if left < right {
        let mid: int = left + (right - left) / 2;
        let ts: u64 = ring_ts(slots, oldest, mid);
        if ts < t1 {
            lemma_lower_bound_monotone(slots, oldest, mid + 1, right, t1, t2);
        } else if ts >= t2 {
            lemma_lower_bound_monotone(slots, oldest, left, mid, t1, t2);
        } else {
            lemma_lower_bound_in_range(slots, oldest, left, mid, t1);
            lemma_lower_bound_in_range(slots, oldest, mid + 1, right, t2);
        }
    }
}

/// Law: the search result is a boundary: the position before it is below
/// the target and the position at it is not.
pub proof fn lemma_lower_bound_boundary(
    slots: Seq<HashedValue>,
    oldest: int,
    left: int,
    right: int,
    target: u64,
)
    requires
        left <= right,
    ensures
        ({
            let r = lower_bound(slots, oldest, left, right, target);
            &&& r > left ==> ring_ts(slots, oldest, r - 1) < target
            &&& r < right ==> ring_ts(slots, oldest, r) >= target
        }),
    decreases right - left,
{
    if left < right {
        let mid: int = left + (right - left) / 2;
        if ring_ts(slots, oldest, mid) < target {
            lemma_lower_bound_boundary(slots, oldest, mid + 1, right, target);
            lemma_lower_bound_in_range(slots, oldest, mid + 1, right, target);
        } else {
            lemma_lower_bound_boundary(slots, oldest, left, mid, target);
            lemma_lower_bound_in_range(slots, oldest, left, mid, target);
        }
    }
}

/// Law: on slots sorted by timestamp in search order, the search finds the
/// exact lower bound: every earlier position is below the target and
/// every later one is not.
pub proof fn lemma_lower_bound_sorted(
    slots: Seq<HashedValue>,
    oldest: int,
    left: int,
    right: int,
    target: u64,
)
    requires
        left <= right,
        forall|i: int, j: int|
            left <= i <= j < right ==> ring_ts(slots, oldest, i) <= ring_ts(slots, oldest, j),
    ensures
        ({
            let r = lower_bound(slots, oldest, left, right, target);
            &&& forall|i: int| left <= i < r ==> ring_ts(slots, oldest, i) < target
            &&& forall|i: int| r <= i < right ==> ring_ts(slots, oldest, i) >= target
        }),
{
    lemma_lower_bound_in_range(slots, oldest, left, right, target);
    lemma_lower_bound_boundary(slots, oldest, left, right, target);
}

/// The answer that nothing is to be kept.
pub open spec fn nothing_kept() -> AddResult {
    Ok(None)
}

/// The answer that `m` is to be kept.
pub open spec fn kept(m: HashedValue) -> AddResult {
    Ok(Some(m))
}

/// Law: an ordinary reading equal to the newest kept one, less than
/// `STABLE_DELTA` seconds after it, is filtered out: nothing is kept and
/// only the newest slot's timestamp moves.
pub proof fn law_unchanged_value_is_filtered(m: HasherModel, val: u64, ts: u64)
    requires
        m.wf(),
        !m.in_failure,
        !m.failure_reported,
        val != FAILURE_MARKER,
        ieee_eq(val, m.newest().val),
        m.newest().timestamp <= ts,
        ts - m.newest().timestamp < STABLE_DELTA,
    ensures
        m.add_defined(val, ts),
        (m.add(val, ts).1 == nothing_kept()),
        m.add(val, ts).0 == m.touch(m.current as int, ts),
{
}

/// Law: an ordinary reading that differs from the newest kept one is kept:
/// it is answered and becomes the newest slot, and the ring grows by one
/// until it is full.
pub proof fn law_changed_value_is_kept(m: HasherModel, val: u64, ts: u64)
    requires
        m.wf(),
        !m.in_failure,
        !m.failure_reported,
        val != FAILURE_MARKER,
        !ieee_eq(val, m.newest().val),
    ensures
        m.add_defined(val, ts),
        (m.add(val, ts).1 == kept(HashedValue { val, timestamp: ts })),
        (m.add(val, ts).0.newest() == HashedValue { val, timestamp: ts }),
        m.add(val, ts).0.size == if m.size < m.capacity { m.size + 1 } else { m.size },
{
}

/// Law: an ordinary reading equal to the newest kept one but at least
/// `STABLE_DELTA` seconds after it is kept again: it is answered as it came
/// and becomes the newest slot.
pub proof fn law_stable_value_is_kept_again(m: HasherModel, val: u64, ts: u64)
    requires
        m.wf(),
        !m.in_failure,
        !m.failure_reported,
        val != FAILURE_MARKER,
        m.newest().timestamp <= ts,
        ts - m.newest().timestamp >= STABLE_DELTA,
    ensures
        m.add_defined(val, ts),
        (m.add(val, ts).1 == kept(HashedValue { val, timestamp: ts })),
        (m.add(val, ts).0.newest() == HashedValue { val, timestamp: ts }),
{
}

/// Law: during a failure not yet reported, an ordinary reading that differs
/// from the one kept before the failure, or comes at least `STABLE_DELTA`
/// seconds after it, ends the failure and is kept: it is answered as it came
/// and takes the failure's slot as the newest one. One equal to it within
/// `STABLE_DELTA` seconds rolls the failure back: nothing is kept and the
/// reading before the failure, stamped anew, is the newest again.
pub proof fn law_short_failure_ends_with_next_reading(m: HasherModel, val: u64, ts: u64)
    requires
        m.wf(),
        m.in_failure,
        !m.failure_reported,
        val != FAILURE_MARKER,
    ensures
        ({
            let before = m.slots[m.prev_index()];
            let (after, answer) = m.add(val, ts);
            &&& !ieee_eq(val, before.val) ==> {
                &&& m.add_defined(val, ts)
                &&& answer == kept(HashedValue { val, timestamp: ts })
                &&& after.newest() == HashedValue { val, timestamp: ts }
                &&& after.current == m.current
                &&& !after.in_failure
            }
            &&& before.timestamp <= ts && ts - before.timestamp >= STABLE_DELTA ==> {
                &&& m.add_defined(val, ts)
                &&& answer == kept(HashedValue { val, timestamp: ts })
                &&& after.newest() == HashedValue { val, timestamp: ts }
                &&& !after.in_failure
            }
            &&& ieee_eq(val, before.val) && before.timestamp <= ts && ts - before.timestamp < STABLE_DELTA ==> {
                &&& m.add_defined(val, ts)
                &&& answer == nothing_kept()
                &&& after.newest() == HashedValue { val: before.val, timestamp: ts }
                &&& !after.in_failure
            }
        }),
{
}

/// Law: once a failure has been reported, further failure markers change
/// nothing and are not reported again.
pub proof fn law_failure_reported_once(m: HasherModel, ts: u64)
    requires
        m.wf(),
        m.in_failure,
        m.failure_reported,
    ensures
        m.add_defined(FAILURE_MARKER, ts),
        (m.add(FAILURE_MARKER, ts) == (m, nothing_kept())),
{
}

/// The newest slot holds the failure marker during a failure.
pub open spec fn failure_consistent(m: HasherModel) -> bool {
    m.in_failure ==> m.newest().val == FAILURE_MARKER
}

/// Law: during a failure the newest slot holds the failure marker, `add`
/// keeps it so, and a reported failure is the marker stamped with the
/// time of the report.
pub proof fn law_failure_report_is_marker(m: HasherModel, val: u64, ts: u64)
    requires
        m.wf(),
        failure_consistent(m),
        m.add_defined(val, ts),
    ensures
        m.add(val, ts).0.wf(),
        failure_consistent(m.add(val, ts).0),
        (m.add(val, ts).1 matches Err(e) ==> e == HashedValue { val: FAILURE_MARKER, timestamp: ts }),
{
}

/// Law: `add` never shrinks the ring and never fills it past its capacity;
/// whatever it answers with `Ok(Some(x))` is the newest kept measurement.
pub proof fn law_add_grows_ring(m: HasherModel, val: u64, ts: u64)
    requires
        m.wf(),
        m.add_defined(val, ts),
    ensures
        m.size <= m.add(val, ts).0.size <= m.capacity,
        m.add(val, ts).0.capacity == m.capacity,
        (m.add(val, ts).1 matches Ok(Some(x)) ==> m.add(val, ts).0.newest() == x),
{
}

/// Law: while the ring has not wrapped (its oldest kept measurement is in
/// the first slot) and its kept readings are in time order, a query whose
/// window `[from, to)` starts at or after the oldest kept measurement gives
/// exactly the kept readings of the window, in order, and `None` when there
/// are none.
pub proof fn law_range_is_window(m: HasherModel, from: u64, to: u64)
    requires
        m.wf(),
        m.oldest_index() == 0,
        m.size > 0,
        forall|i: int, j: int|
            0 <= i <= j < m.size ==> m.kept_readings()[i].timestamp <= m.kept_readings()[j].timestamp,
        m.kept_readings()[0].timestamp <= from < to,
    ensures
        m.hashed_range(from, to) matches Some(r) ==> forall|k: int|
            0 <= k < r.len() ==> from <= (#[trigger] r[k]).timestamp < to,
        forall|k: int|
            0 <= k < m.size && from <= (#[trigger] m.kept_readings()[k]).timestamp < to ==> (m.hashed_range(
                from,
                to,
            ) matches Some(r) && r.contains(m.kept_readings()[k])),
        m.hashed_range(from, to) matches Some(r) ==> r == m.kept_readings().filter(in_window(from, to)),
{
    let n: int = m.slots.len() as int;
    let kr = m.kept_readings();
    assert forall|i: int| 0 <= i < m.size implies ring_ts(m.slots, 0, i) == kr[i].timestamp && kr[i] == m.slots[i] by {
        vstd::arithmetic::div_mod::lemma_small_mod(i as nat, n as nat);
        vstd::arithmetic::div_mod::lemma_small_mod(i as nat, m.capacity);
    }
    assert(kr[0] == m.slots[0]);
    assert forall|i: int, j: int| 0 <= i <= j < m.size implies ring_ts(m.slots, 0, i) <= ring_ts(m.slots, 0, j) by {
        assert(ring_ts(m.slots, 0, i) == kr[i].timestamp);
        assert(ring_ts(m.slots, 0, j) == kr[j].timestamp);
    }
    lemma_lower_bound_sorted(m.slots, 0, 0, m.size as int, from);
    lemma_lower_bound_sorted(m.slots, 0, 0, m.size as int, to);
    lemma_lower_bound_in_range(m.slots, 0, 0, m.size as int, from);
    lemma_lower_bound_in_range(m.slots, 0, 0, m.size as int, to);
    lemma_lower_bound_monotone(m.slots, 0, 0, m.size as int, from, to);
    let s = lower_bound(m.slots, 0, 0, m.size as int, from);
    let e = lower_bound(m.slots, 0, 0, m.size as int, to);
    assert forall|k: int| 0 <= k < m.size implies (from <= (#[trigger] kr[k]).timestamp < to <==> s <= k < e) by {
        assert(ring_ts(m.slots, 0, k) == kr[k].timestamp);
    }
    if s < e {
        let r = kr.subrange(s, e);
        assert(m.hashed_range(from, to) == Some(r));
        assert forall|k: int| 0 <= k < r.len() implies from <= (#[trigger] r[k]).timestamp < to by {
            assert(r[k] == kr[s + k]);
        }
        assert forall|k: int| 0 <= k < m.size && from <= (#[trigger] kr[k]).timestamp < to implies r.contains(kr[k]) by {
            assert(r[k - s] == kr[k]);
        }
        lemma_filter_of_window(kr, s, e, from, to);
    } else {
        assert forall|k: int| 0 <= k < m.size implies !(from <= (#[trigger] kr[k]).timestamp < to) by {
        }
    }
}

/// Whether a measurement lies in the window `[from, to)`.
pub open spec fn in_window(from: u64, to: u64) -> spec_fn(HashedValue) -> bool {
    |x: HashedValue| from <= x.timestamp < to
}

/// In readings whose positions `[s, e)` are exactly those in the window
/// `[from, to)`, that run is what filtering by the window keeps.
proof fn lemma_filter_of_window(kr: Seq<HashedValue>, s: int, e: int, from: u64, to: u64)
    requires
        0 <= s <= e <= kr.len(),
        forall|k: int| 0 <= k < kr.len() ==> (from <= (#[trigger] kr[k]).timestamp < to <==> s <= k < e),
    ensures
        kr.subrange(s, e) == kr.filter(in_window(from, to)),
    decreases kr.len(),
{
    let f = in_window(from, to);
    if kr.len() == 0 {
        assert(kr.filter(f) =~= Seq::<HashedValue>::empty()) by {
            reveal(Seq::filter);
        }
        assert(kr.subrange(s, e) =~= Seq::<HashedValue>::empty());
    } else {
        let pre = kr.drop_last();
        let last = kr.last();
        let n: int = kr.len() - 1;
        assert(kr[n] == last);
        assert(kr.drop_last() == pre);
        assert forall|k: int| 0 <= k < pre.len() implies (#[trigger] pre[k]) == kr[k] by {}
        if s < e && e == kr.len() {
            assert(f(last));
            lemma_filter_of_window(pre, s, n, from, to);
            assert(kr.filter(f) == pre.filter(f).push(last)) by {
                reveal(Seq::filter);
            }
            assert(kr.subrange(s, e) =~= pre.subrange(s, n).push(last));
        } else {
            assert(!f(last));
            let s2: int = if s <= n { s } else { n };
            let e2: int = if e <= n { e } else { n };
            lemma_filter_of_window(pre, s2, e2, from, to);
            assert(kr.filter(f) == pre.filter(f)) by {
                reveal(Seq::filter);
            }
            assert(kr.subrange(s, e) =~= pre.subrange(s2, e2));
        }
    }
}

/// The state of a hasher just made by `ValueHasher::new(capacity, val, ts)`.
pub open spec fn fresh_model(capacity: nat, val: u64, ts: u64) -> HasherModel {
    HasherModel {
        slots: Seq::new(capacity, |i: int| HashedValue { val: 0, timestamp: 0 }).push(
            HashedValue { val, timestamp: ts },
        ),
        size: 0,
        capacity,
        current: 0,
        in_failure: false,
        failure_reported: false,
    }
}

/// No slot holds a timestamp after `ts`.
pub open spec fn all_stamped_by(m: HasherModel, ts: u64) -> bool {
    forall|i: int| 0 <= i < m.slots.len() ==> #[trigger] m.slots[i].timestamp <= ts
}

/// The state after feeding the readings `(value, timestamp)` of `events`
/// to `add` one after another.
pub open spec fn run(m: HasherModel, events: Seq<(u64, u64)>) -> HasherModel
    decreases events.len(),
{
    if events.len() == 0 {
        m
    } else {
        run(m, events.drop_last()).add(events.last().0, events.last().1).0
    }
}

/// Every `add` of the run is defined on the state it meets.
pub open spec fn run_defined(m: HasherModel, events: Seq<(u64, u64)>) -> bool
    decreases events.len(),
{
    if events.len() == 0 {
        true
    } else {
        run_defined(m, events.drop_last()) && run(m, events.drop_last()).add_defined(
            events.last().0,
            events.last().1,
        )
    }
}

/// `add` keeps the ring well formed, and writes no timestamp after its own.
proof fn lemma_add_keeps_stamps(m: HasherModel, val: u64, ts: u64)
    requires
        m.wf(),
        all_stamped_by(m, ts),
    ensures
        m.add_defined(val, ts),
        m.add(val, ts).0.wf(),
        all_stamped_by(m.add(val, ts).0, ts),
{
    let r = m.add(val, ts).0;
    assert forall|i: int| 0 <= i < r.slots.len() implies #[trigger] r.slots[i].timestamp <= ts by {
        assert(m.slots[i].timestamp <= ts);
    }
}

/// Law: a hasher made with `ValueHasher::new(capacity, val, t0)` and then
/// fed readings whose timestamps are not before `t0` and never go back in
/// time meets, at every `add`, its precondition: no timestamp difference
/// goes below zero and every slot read lies in the ring.
pub proof fn law_ordered_readings_always_defined(
    capacity: nat,
    val: u64,
    t0: u64,
    events: Seq<(u64, u64)>,
)
    requires
        0 < capacity <= max_capacity(),
        forall|i: int| 0 <= i < events.len() ==> t0 <= #[trigger] events[i].1,
        forall|i: int, j: int| 0 <= i <= j < events.len() ==> events[i].1 <= events[j].1,
    ensures
        run_defined(fresh_model(capacity, val, t0), events),
        run(fresh_model(capacity, val, t0), events).wf(),
    decreases events.len(),
{
    lemma_run_stamped(fresh_model(capacity, val, t0), t0, events);
}

/// A run of ordered readings from a well-formed ring stamped by `t0` is
/// defined, and leaves the ring well formed and stamped by its last time.
proof fn lemma_run_stamped(m: HasherModel, t0: u64, events: Seq<(u64, u64)>)
    requires
        m.wf(),
        all_stamped_by(m, t0),
        forall|i: int| 0 <= i < events.len() ==> t0 <= #[trigger] events[i].1,
        forall|i: int, j: int| 0 <= i <= j < events.len() ==> events[i].1 <= events[j].1,
    ensures
        run_defined(m, events),
        run(m, events).wf(),
        events.len() > 0 ==> all_stamped_by(run(m, events), events.last().1),
    decreases events.len(),
{
    if events.len() > 0 {
        let prefix = events.drop_last();
        let (v, t) = events.last();
        lemma_run_stamped(m, t0, prefix);
        let s = run(m, prefix);
        assert(t0 <= events[events.len() - 1].1);
        if prefix.len() > 0 {
            assert(prefix.last().1 == events[prefix.len() - 1].1);
            assert(events[prefix.len() - 1].1 <= events[events.len() - 1].1);
            assert forall|i: int| 0 <= i < s.slots.len() implies #[trigger] s.slots[i].timestamp <= t by {
                assert(s.slots[i].timestamp <= prefix.last().1);
            }
        } else {
            assert forall|i: int| 0 <= i < s.slots.len() implies #[trigger] s.slots[i].timestamp <= t by {
                assert(s.slots[i].timestamp <= t0);
            }
        }
        lemma_add_keeps_stamps(s, v, t);
    }
}

/// The state after feeding failure markers stamped `ts` to `add` one after another.
pub open spec fn marker_run(m: HasherModel, ts: Seq<u64>) -> HasherModel
    decreases ts.len(),
{
    if ts.len() == 0 {
        m
    } else {
        marker_run(m, ts.drop_last()).add(FAILURE_MARKER, ts.last()).0
    }
}

/// The `i`-th marker of a failure that began at `t0` is the first one at
/// least `FAILURE_DELTA` seconds after `t0`.
pub open spec fn first_due(t0: u64, ts: Seq<u64>, i: int) -> bool {
    &&& ts[i] - t0 >= FAILURE_DELTA
    &&& forall|j: int| 0 <= j < i ==> #[trigger] ts[j] - t0 < FAILURE_DELTA
}

/// Some marker of `ts` comes at least `FAILURE_DELTA` seconds after `t0`.
pub open spec fn any_due(t0: u64, ts: Seq<u64>) -> bool {
    exists|j: int| 0 <= j < ts.len() && #[trigger] ts[j] - t0 >= FAILURE_DELTA
}

/// The state of a failure episode that began at `t0` after the markers `ts`.
proof fn lemma_episode_prefix(m1: HasherModel, t0: u64, ts: Seq<u64>)
    requires
        m1.wf(),
        m1.in_failure,
        !m1.failure_reported,
        m1.newest() == (HashedValue { val: FAILURE_MARKER, timestamp: t0 }),
        forall|i: int| 0 <= i < ts.len() ==> t0 <= #[trigger] ts[i],
    ensures
        ({
            let s = marker_run(m1, ts);
            &&& s.wf()
            &&& s.in_failure
            &&& (s.failure_reported <==> any_due(t0, ts))
            &&& !s.failure_reported ==> s == m1
        }),
    decreases ts.len(),
{
    if ts.len() > 0 {
        let prefix = ts.drop_last();
        lemma_episode_prefix(m1, t0, prefix);
        let t = ts.last();
        assert(t0 <= ts[ts.len() - 1]);
        if any_due(t0, prefix) {
            let j = choose|j: int| 0 <= j < prefix.len() && #[trigger] prefix[j] - t0 >= FAILURE_DELTA;
            assert(ts[j] == prefix[j]);
        } else if t - t0 >= FAILURE_DELTA {
            assert(ts[ts.len() - 1] - t0 >= FAILURE_DELTA);
        } else {
            assert forall|j: int| 0 <= j < ts.len() implies #[trigger] ts[j] - t0 < FAILURE_DELTA by {
                if j < prefix.len() {
                    assert(ts[j] == prefix[j]);
                }
            }
        }
    }
}

/// Law: a failure episode. From a state not in failure, the first failure
/// marker (at `t0`) starts the episode and keeps nothing. Of the markers
/// that follow, all stamped not before `t0`, exactly the first one at
/// least `FAILURE_DELTA` seconds after `t0` is reported, as the marker
/// stamped with its own time; every other one keeps nothing. The episode
/// is still on after them, and it has been reported exactly when some
/// marker came that late. After the report, an ordinary reading `v` at
/// `t` ends the episode and is kept as it came.
pub proof fn law_failure_episode(m: HasherModel, t0: u64, ts: Seq<u64>, v: u64, t: u64)
    requires
        m.wf(),
        !m.in_failure,
        !m.failure_reported,
        forall|i: int| 0 <= i < ts.len() ==> t0 <= #[trigger] ts[i],
        v != FAILURE_MARKER,
    ensures
        m.add_defined(FAILURE_MARKER, t0),
        m.add(FAILURE_MARKER, t0).1 == nothing_kept(),
        forall|i: int|
            0 <= i < ts.len() ==> #[trigger] marker_run(m.add(FAILURE_MARKER, t0).0, ts.take(i)).add_defined(
                FAILURE_MARKER,
                ts[i],
            ),
        forall|i: int|
            0 <= i < ts.len() ==> #[trigger] marker_run(m.add(FAILURE_MARKER, t0).0, ts.take(i)).add(
                FAILURE_MARKER,
                ts[i],
            ).1 == if first_due(t0, ts, i) {
                Err(HashedValue { val: FAILURE_MARKER, timestamp: ts[i] })
            } else {
                nothing_kept()
            },
        forall|i: int, j: int|
            0 <= i < ts.len() && 0 <= j < ts.len() && #[trigger] first_due(t0, ts, i) && #[trigger] first_due(
                t0,
                ts,
                j,
            ) ==> i == j,
        marker_run(m.add(FAILURE_MARKER, t0).0, ts).in_failure,
        marker_run(m.add(FAILURE_MARKER, t0).0, ts).failure_reported <==> any_due(t0, ts),
        any_due(t0, ts) ==> {
            let end = marker_run(m.add(FAILURE_MARKER, t0).0, ts);
            &&& end.add_defined(v, t)
            &&& end.add(v, t).1 == kept(HashedValue { val: v, timestamp: t })
            &&& !end.add(v, t).0.in_failure
            &&& !end.add(v, t).0.failure_reported
        },
{
    let m1 = m.add(FAILURE_MARKER, t0).0;
    lemma_episode_prefix(m1, t0, ts);
    assert forall|i: int|
        #![trigger marker_run(m1, ts.take(i)).add_defined(FAILURE_MARKER, ts[i])]
        #![trigger marker_run(m1, ts.take(i)).add(FAILURE_MARKER, ts[i])]
        0 <= i < ts.len() implies {
        &&& marker_run(m1, ts.take(i)).add_defined(FAILURE_MARKER, ts[i])
        &&& marker_run(m1, ts.take(i)).add(FAILURE_MARKER, ts[i]).1 == if first_due(t0, ts, i) {
            Err(HashedValue { val: FAILURE_MARKER, timestamp: ts[i] })
        } else {
            nothing_kept()
        }
    } by {
        let pre = ts.take(i);
        assert forall|k: int| 0 <= k < pre.len() implies t0 <= #[trigger] pre[k] by {
            assert(pre[k] == ts[k]);
        }
        lemma_episode_prefix(m1, t0, pre);
        assert(t0 <= ts[i]);
        if any_due(t0, pre) {
            let j = choose|j: int| 0 <= j < pre.len() && #[trigger] pre[j] - t0 >= FAILURE_DELTA;
            assert(ts[j] == pre[j]);
            assert(!first_due(t0, ts, i));
        } else {
            assert forall|j: int| 0 <= j < i implies #[trigger] ts[j] - t0 < FAILURE_DELTA by {
                assert(ts[j] == pre[j]);
            }
        }
    }
}

impl ValueHasher {
    /// The hasher is well formed: its ring is, and its filters have their fixed widths.
    pub closed spec fn wf(&self) -> bool {
        &&& self@.wf()
        &&& self.stable_delta == STABLE_DELTA
        &&& self.failure_delta == FAILURE_DELTA
    }

    /// A well-formed hasher has a well-formed ring.
    pub proof fn lemma_wf_model(&self)
        requires
            self.wf(),
        ensures
            self@.wf(),
    {
    }

    /// A ring of `capacity` slots whose extra slot holds the first measurement.
    pub fn new(capacity: usize, val: u64, timestamp: u64) -> (r: ValueHasher)
        requires
            0 < capacity <= max_capacity(),
        ensures
            r.wf(),
            r@.wf(),
            r@.capacity == capacity,
            r@.size == 0,
            r@.current == 0,
            !r@.in_failure,
            !r@.failure_reported,
            r@.slots == Seq::new(capacity as nat, |i: int| HashedValue { val: 0, timestamp: 0 }).push(
                HashedValue { val, timestamp },
            ),
            r@ == fresh_model(capacity as nat, val, timestamp),
    {
        let mut hashed_values: Vec<HashedValue> = Vec::new();
        let mut i: usize = 0;
        while i < capacity
            invariant
                i <= capacity,
                hashed_values@ == Seq::new(i as nat, |k: int| HashedValue { val: 0, timestamp: 0 }),
            decreases capacity - i,
        {
            hashed_values.push(HashedValue { val: 0, timestamp: 0 });
            i = i + 1;
        }
        hashed_values.push(HashedValue { val, timestamp });
        ValueHasher {
            hashed_values,
            size: 0,
            current: 0,
            capacity,
            stable_delta: STABLE_DELTA,
            failure_delta: FAILURE_DELTA,
            in_failure: false,
            failure_reported: false,
        }
    }

    /// Whether `add(val, timestamp)` is defined on this state.
    pub fn accepts(&self, val: u64, timestamp: u64) -> (r: bool)
        requires
            self.wf(),
        ensures
            r == self@.add_defined(val, timestamp),
    {
        if val == FAILURE_MARKER {
            !(self.in_failure && !self.failure_reported) || self.hashed_values[self.current].timestamp
                <= timestamp
        } else if self.failure_reported {
            true
        } else if self.in_failure {
            let p: usize = if self.current == 0 {
                self.capacity - 1
            } else {
                self.current - 1
            };
            !float_eq(val, self.hashed_values[p].val) || self.hashed_values[p].timestamp <= timestamp
        } else {
            !float_eq(val, self.hashed_values[self.current].val)
                || self.hashed_values[self.current].timestamp <= timestamp
        }
    }

    fn advance_and_write(&mut self, val: u64, timestamp: u64)
        requires
            old(self).wf(),
        ensures
            final(self).wf(),
            final(self)@ == old(self)@.advance_and_write(HashedValue { val, timestamp }),
    {
        let next: usize = if self.size == 0 {
            0
        } else {
            (self.current + 1) % self.capacity
        };
        self.hashed_values.set(next, HashedValue { val, timestamp });
        self.current = next;
        if self.size < self.capacity {
            self.size = self.size + 1;
        }
    }

    fn touch(&mut self, i: usize, timestamp: u64)
        requires
            old(self).wf(),
            i < old(self)@.capacity,
        ensures
            final(self).wf(),
            final(self)@ == old(self)@.touch(i as int, timestamp),
    {
        let v: u64 = self.hashed_values[i].val;
        self.hashed_values.set(i, HashedValue { val: v, timestamp });
    }

    /// Filters one reading; see `HasherModel::add` for the exact outcome.
    pub fn add(&mut self, val: u64, timestamp: u64) -> (r: AddResult)
        requires
            old(self).wf(),
            old(self)@.add_defined(val, timestamp),
        ensures
            final(self).wf(),
            (final(self)@, r) == old(self)@.add(val, timestamp),
    {
        proof {
            crate::float_bits::lemma_marker_eq(val);
        }
        if float_eq(val, FAILURE_MARKER) {
            if !self.in_failure {
                self.advance_and_write(val, timestamp);
                self.in_failure = true;
                return Ok(None);
            }
            if !self.failure_reported {
                if timestamp - self.hashed_values[self.current].timestamp >= self.failure_delta {
                    let c: usize = self.current;
                    self.touch(c, timestamp);
                    self.failure_reported = true;
                    return Err(self.hashed_values[self.current]);
                }
                return Ok(None);
            }
            return Ok(None);
        }
        if self.failure_reported {
            self.in_failure = false;
            self.failure_reported = false;
            self.advance_and_write(val, timestamp);
            return Ok(Some(self.hashed_values[self.current]));
        }
        if self.in_failure {
            self.in_failure = false;
            let prev_idx: usize = if self.current == 0 {
                self.capacity - 1
            } else {
                self.current - 1
            };
            let prev_val: u64 = self.hashed_values[prev_idx].val;
            let prev_ts: u64 = self.hashed_values[prev_idx].timestamp;
            if !float_eq(val, prev_val) || timestamp - prev_ts >= self.stable_delta {
                let c: usize = self.current;
                self.hashed_values.set(c, HashedValue { val, timestamp });
                return Ok(Some(self.hashed_values[self.current]));
            }
            self.current = prev_idx;
            self.touch(prev_idx, timestamp);
            return Ok(None);
        }
        let prev_val: u64 = self.hashed_values[self.current].val;
        let prev_ts: u64 = self.hashed_values[self.current].timestamp;
        if !float_eq(val, prev_val) || timestamp - prev_ts >= self.stable_delta {
            self.advance_and_write(val, timestamp);
            return Ok(Some(self.hashed_values[self.current]));
        }
        let c: usize = self.current;
        self.touch(c, timestamp);
        Ok(None)
    }

    /// The kept measurements with timestamps in `[from, to)`; see
    /// `HasherModel::hashed_range`.
    pub fn get_hashed(&self, from: u64, to: u64) -> (r: Option<Vec<HashedValue>>)
        requires
            self.wf(),
        ensures
            match r {
                Some(v) => self@.hashed_range(from, to) == Some(v@),
                None => self@.hashed_range(from, to) is None,
            },
    {
        if from >= to || self.size == 0 {
            return None;
        }
        let oldest_idx: usize = if self.size < self.capacity {
            0
        } else {
            (self.current + 1) % self.capacity
        };
        if self.hashed_values[oldest_idx].timestamp > from {
            return None;
        }
        let start: usize = Self::lower_bound_ring(&self.hashed_values, self.size, oldest_idx, from);
        let end: usize = Self::lower_bound_ring(&self.hashed_values, self.size, oldest_idx, to);
        if start == end {
            return None;
        }
        proof {
            lemma_lower_bound_monotone(self.hashed_values@, oldest_idx as int, 0, self.size as int, from, to);
        }
        let mut result: Vec<HashedValue> = Vec::new();
        let mut i: usize = start;
        while i < end
            invariant
                self@.wf(),
                start <= i <= end <= self.size,
                oldest_idx < self.capacity,
                self.capacity == self@.capacity,
                self.hashed_values@ == self@.slots,
                result@ == Seq::new(
                    (i - start) as nat,
                    |k: int| self@.slots[(oldest_idx + start + k) % (self.capacity as int)],
                ),
            decreases end - i,
        {
            let idx: usize = (oldest_idx + i) % self.capacity;
            result.push(self.hashed_values[idx]);
            proof {
                assert(oldest_idx + i == oldest_idx + start + (i - start));
            }
            i = i + 1;
        }
        proof {
            lemma_lower_bound_in_range(self.hashed_values@, oldest_idx as int, 0, self.size as int, to);
            assert(result@ =~= self@.kept_readings().subrange(start as int, end as int));
        }
        Some(result)
    }

    fn lower_bound_ring(arr: &Vec<HashedValue>, size: usize, oldest_idx: usize, target: u64) -> (r: usize)
        requires
            0 < arr@.len() <= max_capacity() + 1,
            size < arr@.len(),
            oldest_idx < arr@.len(),
        ensures
            r == lower_bound(arr@, oldest_idx as int, 0, size as int, target),
            r <= size,
    {
        let len: usize = arr.len();
        let mut left: usize = 0;
        let mut right: usize = size;
        proof {
            lemma_lower_bound_in_range(arr@, oldest_idx as int, 0, size as int, target);
        }
        while left < right
            invariant
                len == arr@.len(),
                0 < len <= max_capacity() + 1,
                oldest_idx < len,
                left <= right <= size < len,
                lower_bound(arr@, oldest_idx as int, left as int, right as int, target)
                    == lower_bound(arr@, oldest_idx as int, 0, size as int, target),
            decreases right - left,
        {
            let mid: usize = left + (right - left) / 2;
            let idx: usize = (oldest_idx + mid) % len;
            if arr[idx].timestamp < target {
                left = mid + 1;
            } else {
                right = mid;
            }
        }
        left
    }
}

} // verus!
