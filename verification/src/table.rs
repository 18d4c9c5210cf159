//! Fixed-size lookup tables indexed by small integer keys (BMS Base36 ids,
//! measure numbers).

use vstd::prelude::*;
use crate::bms::{WavId, BmpId};

verus! {

/// A key that names a slot of a `Table`.
pub trait TableKey {
    spec fn spec_index(&self) -> int;

    fn index(&self) -> (r: usize)
        ensures
            r == self.spec_index(),
    ;
}

impl TableKey for WavId {
    open spec fn spec_index(&self) -> int {
        self.0 as int
    }

    fn index(&self) -> (r: usize) {
        self.0 as usize
    }
}

impl TableKey for BmpId {
    open spec fn spec_index(&self) -> int {
        self.0 as int
    }

    fn index(&self) -> (r: usize) {
        self.0 as usize
    }
}

impl TableKey for u32 {
    open spec fn spec_index(&self) -> int {
        *self as int
    }

    fn index(&self) -> (r: usize) {
        *self as usize
    }
}

/// Number of occupied slots.
pub open spec fn count_some<V>(s: Seq<Option<V>>) -> nat
    decreases s.len(),
{
    if s.len() == 0 {
        0
    } else {
        count_some(s.drop_last()) + if s.last() is Some {
            1nat
        } else {
            0nat
        }
    }
}

/// A table with one optional value per key `0 .. capacity`.
#[derive(Debug, Clone)]
pub struct Table<V> {
    entries: Vec<Option<V>>,
    count: usize,
}

impl<V> View for Table<V> {
    type V = Seq<Option<V>>;

    closed spec fn view(&self) -> Seq<Option<V>> {
        self.entries@
    }
}

proof fn lemma_count_some_update<V>(s: Seq<Option<V>>, i: int, v: Option<V>)
    requires
        0 <= i < s.len(),
    ensures
        count_some(s.update(i, v)) == count_some(s) - (if s[i] is Some {
            1int
        } else {
            0int
        }) + (if v is Some {
            1int
        } else {
            0int
        }),
    decreases s.len(),
{
    if i == s.len() - 1 {
        assert(s.update(i, v).drop_last() =~= s.drop_last());
    } else {
        lemma_count_some_update(s.drop_last(), i, v);
        assert(s.update(i, v).drop_last() =~= s.drop_last().update(i, v));
    }
}

proof fn lemma_count_some_bound<V>(s: Seq<Option<V>>)
    ensures
        count_some(s) <= s.len(),
    decreases s.len(),
{
    if s.len() > 0 {
        lemma_count_some_bound(s.drop_last());
    }
}

impl<V> Table<V> {
    /// The count field tracks the occupied slots.
    pub closed spec fn wf(&self) -> bool {
        self.count == count_some(self.entries@)
    }

    /// An empty table with keys `0 .. capacity`.
    pub fn new(capacity: usize) -> (t: Self)
        ensures
            t.wf(),
            t@ == Seq::new(capacity as nat, |i: int| None::<V>),
    {
        let mut entries: Vec<Option<V>> = Vec::new();
        while entries.len() < capacity
            invariant
                entries@.len() <= capacity,
                forall|i: int| 0 <= i < entries@.len() ==> entries@[i] is None,
                count_some(entries@) == 0,
            decreases capacity - entries@.len(),
        {
            let ghost prev = entries@;
            entries.push(None);
            assert(entries@.drop_last() =~= prev);
        }
        assert(entries@ =~= Seq::new(capacity as nat, |i: int| None::<V>));
        Table { entries, count: 0 }
    }

    /// The value stored under `key`, if any.
    pub fn get<K: TableKey>(&self, key: &K) -> (r: Option<&V>)
        ensures
            r == (if 0 <= key.spec_index() < self@.len() {
                match self@[key.spec_index()] {
                    Some(v) => Some(&v),
                    None => None,
                }
            } else {
                None
            }),
    {
        let i = key.index();
        if i < self.entries.len() {
            match &self.entries[i] {
                Some(v) => Some(v),
                None => None,
            }
        } else {
            None
        }
    }

    /// Stores `value` under `key`, replacing any earlier value; keys past the
    /// capacity are ignored.
    pub fn insert<K: TableKey>(&mut self, key: &K, value: V)
        requires
            old(self).wf(),
        ensures
            final(self).wf(),
            final(self)@ == (if 0 <= key.spec_index() < old(self)@.len() {
                old(self)@.update(key.spec_index(), Some(value))
            } else {
                old(self)@
            }),
    {
        let i = key.index();
        if i < self.entries.len() {
            let was = self.entries[i].is_some();
            proof {
                lemma_count_some_update(self.entries@, i as int, Some(value));
                lemma_count_some_bound(self.entries@.update(i as int, Some(value)));
            }
            self.entries.set(i, Some(value));
            if !was {
                self.count = self.count + 1;
            }
        }
    }

    /// Number of keys that hold a value.
    pub fn len(&self) -> (r: usize)
        requires
            self.wf(),
        ensures
            r == count_some(self@),
    {
        self.count
    }
}

} // verus!
