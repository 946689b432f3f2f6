use std::marker::PhantomData;
use vstd::prelude::*;

verus! {

/// The id of an interned symbol. Its index is never `u32::MAX`.
#[derive(Debug)]
pub struct SymbolId<T> {
    pub(crate) index: u32,
    pub(crate) _marker: PhantomData<T>,
}

impl<T> SymbolId<T> {
    #[verifier::type_invariant]
    pub(crate) closed spec fn below_max(self) -> bool {
        self.index < u32::MAX
    }

    /// The index, as a mathematical integer.
    pub open(crate) spec fn idx(self) -> nat {
        self.index as nat
    }

    /// A symbol id with the given index, which must not be `u32::MAX`.
    pub fn new(index: u32) -> (id: SymbolId<T>)
        requires
            index < u32::MAX,
        ensures
            id.idx() == index,
    {
        SymbolId { index, _marker: PhantomData }
    }

    /// The index as a `u32`.
    pub fn raw(&self) -> (r: u32)
        ensures
            r == self.idx(),
            r < u32::MAX,
    {
        proof {
            use_type_invariant(self);
        }
        self.index
    }

    pub fn as_index(&self) -> (r: usize)
        ensures
            r == self.idx(),
            r < u32::MAX,
    {
        proof {
            use_type_invariant(self);
        }
        self.index as usize
    }
}

impl<T> Clone for SymbolId<T> {
    fn clone(&self) -> (r: Self)
        ensures
            r == *self,
    {
        *self
    }
}

impl<T> Copy for SymbolId<T> {
}

impl<T> PartialEq for SymbolId<T> {
    fn eq(&self, other: &Self) -> (r: bool) {
        self.index == other.index
    }
}

impl<T> vstd::std_specs::cmp::PartialEqSpecImpl for SymbolId<T> {
    open spec fn obeys_eq_spec() -> bool {
        true
    }

    open spec fn eq_spec(&self, other: &Self) -> bool {
        self.idx() == other.idx()
    }
}

impl<T> Eq for SymbolId<T> {
}

/// A map keyed by symbol ids, stored as one slot per index.
///
/// Symbol ids are handed out densely from zero, so entries are added in index
/// order: [`SymbolMap::push_sequential`] fills the slot at the end or replaces an
/// existing one.
#[derive(Debug)]
pub struct SymbolMap<K, V> {
    pub data: Vec<Option<V>>,
    pub(crate) _marker: PhantomData<K>,
}

impl<K, V> SymbolMap<K, V> {
    /// Keys are symbol ids, so there are at most `u32::MAX` slots.
    pub open spec fn wf(&self) -> bool {
        self.slots().len() <= u32::MAX
    }

    /// The slots, by index.
    pub open(crate) spec fn slots(&self) -> Seq<Option<V>> {
        self.data@
    }

    /// The value stored under the index `k`, if any.
    pub open spec fn lookup(slots: Seq<Option<V>>, k: nat) -> Option<V> {
        if k < slots.len() {
            slots[k as int]
        } else {
            None
        }
    }

    /// The slots after `push_sequential` of `v` at index `k`.
    pub open spec fn pushed(slots: Seq<Option<V>>, k: nat, v: V) -> Seq<Option<V>> {
        if k == slots.len() {
            slots.push(Some(v))
        } else {
            slots.update(k as int, Some(v))
        }
    }

    pub fn new() -> (m: Self)
        ensures
            m.slots().len() == 0,
            m.wf(),
    {
        SymbolMap { data: Vec::new(), _marker: PhantomData }
    }

    /// An empty map; the capacity only reserves room.
    pub fn with_capacity(capacity: usize) -> (m: Self)
        ensures
            m.slots().len() == 0,
            m.wf(),
    {
        SymbolMap { data: Vec::with_capacity(capacity), _marker: PhantomData }
    }

    pub fn get(&self, key: SymbolId<K>) -> (r: Option<&V>)
        ensures
            r matches Some(v) ==> Self::lookup(self.slots(), key.idx()) == Some(*v),
            r is None ==> Self::lookup(self.slots(), key.idx()) is None,
    {
        let i = key.as_index();
        if i < self.data.len() {
            match &self.data[i] {
                Some(v) => Some(v),
                None => None,
            }
        } else {
            None
        }
    }

    /// The value stored under `key`, to be changed in place.
    pub fn get_mut(&mut self, key: SymbolId<K>) -> (r: Option<&mut V>)
        ensures
            match r {
                Some(v) => Self::lookup(old(self).slots(), key.idx()) == Some(*v)
                    && final(self).slots() == old(self).slots().update(key.idx() as int, Some(*final(v))),
                None => Self::lookup(old(self).slots(), key.idx()) is None && final(self).slots() == old(self).slots(),
            },
    {
        let i = key.as_index();
        if i < self.data.len() {
            match &mut self.data[i] {
                Some(v) => Some(v),
                None => None,
            }
        } else {
            None
        }
    }

    /// Stores `value` under `key`, whose index is at most the number of slots: either
    /// the next index or one already present.
    pub fn push_sequential(&mut self, key: SymbolId<K>, value: V)
        requires
            old(self).wf(),
            key.idx() <= old(self).slots().len(),
        ensures
            final(self).slots() == Self::pushed(old(self).slots(), key.idx(), value),
            final(self).wf(),
    {
        let i = key.as_index();
        if i == self.data.len() {
            self.data.push(Some(value));
        } else {
            self.data.set(i, Some(value));
        }
    }

    /// The ids of the occupied slots, in increasing order.
    pub fn keys(&self) -> (r: Vec<SymbolId<K>>)
        requires
            self.wf(),
        ensures
            forall|j: int, k: int| 0 <= j < k < r@.len() ==> r@[j].idx() < r@[k].idx(),
            forall|j: int| 0 <= j < r@.len() ==> Self::lookup(self.slots(), #[trigger] r@[j].idx()) is Some,
            forall|i: nat| Self::lookup(self.slots(), i) is Some ==> exists|j: int| 0 <= j < r@.len() && #[trigger] r@[j].idx() == i,
    {
        let mut out: Vec<SymbolId<K>> = Vec::new();
        let mut i: usize = 0;
        while i < self.data.len()
            invariant
                i <= self.slots().len(),
                self.slots().len() == self.data@.len(),
                self.data@.len() <= u32::MAX,
                forall|j: int, k: int| 0 <= j < k < out@.len() ==> out@[j].idx() < out@[k].idx(),
                forall|j: int| 0 <= j < out@.len() ==> out@[j].idx() < i,
                forall|j: int| 0 <= j < out@.len() ==> Self::lookup(self.slots(), #[trigger] out@[j].idx()) is Some,
                forall|n: nat| n < i && Self::lookup(self.slots(), n) is Some ==> exists|j: int| 0 <= j < out@.len() && #[trigger] out@[j].idx() == n,
            decreases self.slots().len() - i,
        {
            if self.data[i].is_some() {
                let id = SymbolId::new(i as u32);
                let ghost before = out@;
                out.push(id);
                proof {
                    assert(out@[out@.len() - 1].idx() == i);
                    assert forall|n: nat| n < i + 1 && Self::lookup(self.slots(), n) is Some implies exists|j: int|
                        0 <= j < out@.len() && #[trigger] out@[j].idx() == n by {
                        if n < i {
                            let j = choose|j: int| 0 <= j < before.len() && #[trigger] before[j].idx() == n;
                            assert(out@[j] == before[j]);
                        }
                    }
                }
            }
            i = i + 1;
        }
        out
    }
}

/// A value stored with `push_sequential` reads back under its key, and every other key
/// reads as before.
pub proof fn lemma_lookup_after_push<K, V>(slots: Seq<Option<V>>, k: nat, v: V, j: nat)
    requires
        k <= slots.len(),
    ensures
        SymbolMap::<K, V>::lookup(SymbolMap::<K, V>::pushed(slots, k, v), j) == if j == k {
            Some(v)
        } else {
            SymbolMap::<K, V>::lookup(slots, j)
        },
{
}

} // verus!
