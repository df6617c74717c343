//! The measurement side of the database worker: one `ValueHasher` per
//! value id, and the buffer of measurements waiting to be archived.
use vstd::prelude::*;
use vstd::string::StringExecFns;
use std::collections::HashMap;
use crate::hasher::{HashedValue, HasherModel, ValueHasher, AddResult};

verus! {

broadcast use vstd::std_specs::hash::group_hash_axioms;

/// Slots of a fresh hasher: a week of readings every fifteen seconds.
pub const HASHER_CAPACITY: usize = 40320;

/// The model of a hasher just made from its first measurement.
pub open spec fn fresh_model(capacity: nat, val: u64, timestamp: u64) -> HasherModel {
    HasherModel {
        slots: Seq::new(capacity, |i: int| HashedValue { val: 0, timestamp: 0 }).push(
            HashedValue { val, timestamp },
        ),
        size: 0,
        capacity,
        current: 0,
        in_failure: false,
        failure_reported: false,
    }
}

/// The measurement that `add`'s answer asks to archive, if any.
pub open spec fn to_archive(r: AddResult) -> Option<HashedValue> {
    match r {
        Ok(Some(v)) => Some(v),
        Ok(None) => None,
        Err(v) => Some(v),
    }
}

/// Law: every measurement `add` hands back is archived, a kept one and a
/// reported failure alike; only "nothing kept" archives nothing.
pub proof fn law_archive_answer(m: HashedValue, r: AddResult)
    ensures
        to_archive(Ok(Some(m))) == Some(m),
        to_archive(Err(m)) == Some(m),
        to_archive(Ok(None)) is None,
        to_archive(r) is None <==> r == Ok::<Option<HashedValue>, HashedValue>(None),
{
}

/// The hashers of all values seen so far, by value id.
pub struct MeasureStore {
    hashers: HashMap<i32, ValueHasher>,
}

impl View for MeasureStore {
    type V = Map<i32, HasherModel>;

    closed spec fn view(&self) -> Map<i32, HasherModel> {
        self.hashers@.map_values(|h: ValueHasher| h@)
    }
}

impl MeasureStore {
    /// Every hasher in the store is well formed.
    pub closed spec fn wf(&self) -> bool {
        forall|k: i32| #[trigger] self.hashers@.contains_key(k) ==> self.hashers@[k].wf()
    }

    /// A store that has seen no value.
    pub fn new() -> (r: MeasureStore)
        ensures
            r.wf(),
            r@ == Map::<i32, HasherModel>::empty(),
    {
        let r = MeasureStore { hashers: HashMap::new() };
        assert(r@ =~= Map::<i32, HasherModel>::empty());
        r
    }

    /// Whether `record(id, val, timestamp)` is defined on this store.
    pub fn accepts(&self, id: i32, val: u64, timestamp: u64) -> (r: bool)
        requires
            self.wf(),
        ensures
            r == (self@.contains_key(id) ==> self@[id].add_defined(val, timestamp)),
    {
        match self.hashers.get(&id) {
            Some(h) => h.accepts(val, timestamp),
            None => true,
        }
    }

    /// The cached measurements of value `id` in `[from, to)`, or `None`
    /// when the cache cannot answer and the archive must be read.
    pub fn cached(&self, id: i32, from: u64, to: u64) -> (r: Option<Vec<HashedValue>>)
        requires
            self.wf(),
        ensures
            match r {
                Some(v) => self@.contains_key(id) && self@[id].hashed_range(from, to) == Some(v@),
                None => !self@.contains_key(id) || self@[id].hashed_range(from, to) is None,
            },
    {
        match self.hashers.get(&id) {
            Some(h) => h.get_hashed(from, to),
            None => None,
        }
    }

    /// Feeds one reading of value `id` to its hasher, making the hasher
    /// from it when the value is new, and answers the measurement to archive.
    pub fn record(&mut self, id: i32, val: u64, timestamp: u64) -> (r: Option<HashedValue>)
        requires
            old(self).wf(),
            old(self)@.contains_key(id) ==> old(self)@[id].add_defined(val, timestamp),
        ensures
            final(self).wf(),
            old(self)@.contains_key(id) ==> {
                &&& final(self)@ == old(self)@.insert(id, old(self)@[id].add(val, timestamp).0)
                &&& r == to_archive(old(self)@[id].add(val, timestamp).1)
            },
            !old(self)@.contains_key(id) ==> {
                &&& final(self)@ == old(self)@.insert(
                    id,
                    fresh_model(HASHER_CAPACITY as nat, val, timestamp),
                )
                &&& r == Some(HashedValue { val, timestamp })
            },
    {
        let ghost old_map = self.hashers@;
        match self.hashers.remove(&id) {
            Some(mut h) => {
                let res = h.add(val, timestamp);
                let ghost hm = h;
                self.hashers.insert(id, h);
                assert(self.hashers@ == old_map.insert(id, hm));
                assert(self@ =~= old(self)@.insert(id, hm@));
                match res {
                    Ok(None) => None,
                    Err(v) => Some(v),
                    Ok(Some(v)) => Some(v),
                }
            },
            None => {
                let h = ValueHasher::new(HASHER_CAPACITY, val, timestamp);
                let ghost hm = h;
                self.hashers.insert(id, h);
                assert(self.hashers@ == old_map.insert(id, hm));
                assert(self@ =~= old(self)@.insert(id, hm@));
                assert(hm@ =~= fresh_model(HASHER_CAPACITY as nat, val, timestamp));
                Some(HashedValue { val, timestamp })
            },
        }
    }
}

/// A measurement waiting to be archived, with its value id.
#[derive(Clone, Copy, Debug)]
pub struct ForFlush {
    pub id: i32,
    pub value: HashedValue,
}

/// How an archiving transaction ended.
#[derive(Clone, Copy, Debug, PartialEq, Eq)]
pub enum FlushOutcome {
    BeginFailed,
    InsertFailed,
    CommitFailed,
    Committed,
}

/// The message a reader gets while archiving is failing.
pub const ARCHIVE_ERROR: &'static str = "Проблеми з архівацією даних";

/// Number of buffered measurements above which the buffer is archived.
pub const FLUSH_THRESHOLD: usize = 20;

/// Measurements buffered for the archive, and whether archiving failed last time.
pub struct DbMeasureUnit {
    buff: Vec<ForFlush>,
    buff_errored: bool,
}

impl DbMeasureUnit {
    pub closed spec fn items(&self) -> Seq<ForFlush> {
        self.buff@
    }

    pub closed spec fn errored(&self) -> bool {
        self.buff_errored
    }

    /// An empty buffer whose archiving has not failed.
    pub fn new() -> (r: DbMeasureUnit)
        ensures
            r.items() == Seq::<ForFlush>::empty(),
            !r.errored(),
    {
        DbMeasureUnit { buff: Vec::new(), buff_errored: false }
    }

    /// Reading the archive is refused while the last archiving failed.
    pub fn check_archive(&self) -> (r: Result<(), String>)
        ensures
            (r is Ok <==> !self.errored()),
            (r matches Err(msg) ==> msg@ == ARCHIVE_ERROR@),
    {
        if self.buff_errored {
            Err(String::from_str(ARCHIVE_ERROR))
        } else {
            Ok(())
        }
    }

    /// Buffers one measurement; answers whether the buffer is now due to be archived.
    pub fn save_value(&mut self, id: i32, value: HashedValue) -> (due: bool)
        ensures
            final(self).items() == old(self).items().push(ForFlush { id, value }),
            final(self).errored() == old(self).errored(),
            due == (final(self).items().len() > FLUSH_THRESHOLD),
    {
        self.buff.push(ForFlush { id, value });
        self.buff.len() > FLUSH_THRESHOLD
    }

    /// The measurements an archiving transaction is to write, oldest first.
    pub fn pending(&self) -> (r: &Vec<ForFlush>)
        ensures
            r@ == self.items(),
    {
        &self.buff
    }

    /// Records how an archiving transaction of the buffered measurements
    /// ended: on commit the buffer empties, and the error flag tells
    /// whether it failed.
    pub fn finish_flush(&mut self, outcome: FlushOutcome) -> (r: Result<(), ()>)
        ensures
            (r is Ok <==> outcome == FlushOutcome::Committed),
            final(self).errored() == (outcome != FlushOutcome::Committed),
            outcome == FlushOutcome::Committed ==> final(self).items() == Seq::<ForFlush>::empty(),
            outcome != FlushOutcome::Committed ==> final(self).items() == old(self).items(),
    {
        match outcome {
            FlushOutcome::Committed => {
                self.buff_errored = false;
                self.buff.clear();
                Ok(())
            },
            _ => {
                self.buff_errored = true;
                Err(())
            },
        }
    }
}

} // verus!
