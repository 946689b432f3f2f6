use crate::fx::{name_table, name_table_clone, name_table_get, name_table_insert, name_table_new, NameTable};
use crate::symbols::SymbolId;
use std::marker::PhantomData;
use vstd::prelude::*;

verus! {

/// No name occurs twice.
pub open spec fn distinct(names: Seq<Seq<char>>) -> bool {
    forall|i: int, j: int| 0 <= i < names.len() && 0 <= j < names.len() && i != j ==> names[i] != names[j]
}

/// The names after interning `s`: unchanged if `s` is among them, else `s` appended.
pub open spec fn interned(names: Seq<Seq<char>>, s: Seq<char>) -> Seq<Seq<char>> {
    if names.contains(s) {
        names
    } else {
        names.push(s)
    }
}

/// The position of `s` among the names.
pub open spec fn position(names: Seq<Seq<char>>, s: Seq<char>) -> int {
    choose|i: int| 0 <= i < names.len() && names[i] == s
}

/// Maps each distinct string to a dense `SymbolId`, numbered from zero in the order
/// the strings were first interned, and resolves ids back to their strings.
pub struct Interner<'src, T> {
    pub(crate) map: NameTable,
    pub(crate) buf: Vec<&'src str>,
    pub(crate) _marker: PhantomData<T>,
}

impl<'src, T> Interner<'src, T> {
    /// The interned strings, by id.
    pub open(crate) spec fn view(&self) -> Seq<Seq<char>> {
        self.buf@.map_values(|s: &'src str| s@)
    }

    /// The table agrees with the list: each string maps to its position, and the
    /// strings are distinct. Ids stay below `u32::MAX`.
    pub open(crate) spec fn wf(&self) -> bool {
        &&& self.view().len() <= u32::MAX
        &&& distinct(self.view())
        &&& forall|i: int| 0 <= i < self.view().len() ==> name_table(self.map).contains_key(#[trigger] self.view()[i])
            && name_table(self.map)[self.view()[i]] == i
        &&& forall|s: Seq<char>| #[trigger] name_table(self.map).contains_key(s) ==> self.view().contains(s)
    }

    pub fn new() -> (r: Self)
        ensures
            r.wf(),
            r.view().len() == 0,
    {
        Self::with_capacity(0)
    }

    /// An empty interner; the capacity only reserves room.
    pub fn with_capacity(capacity: usize) -> (r: Self)
        ensures
            r.wf(),
            r.view().len() == 0,
    {
        let r = Interner { map: name_table_new(capacity), buf: Vec::with_capacity(capacity), _marker: PhantomData };
        assert(r.view() =~= Seq::<Seq<char>>::empty());
        r
    }

    /// The id of `s`, interning it first if it is new. A new string gets the next id.
    pub fn intern(&mut self, s: &'src str) -> (id: SymbolId<T>)
        requires
            old(self).wf(),
            old(self).view().contains(s@) || old(self).view().len() < u32::MAX,
        ensures
            final(self).wf(),
            final(self).view() == interned(old(self).view(), s@),
            id.idx() < final(self).view().len(),
            final(self).view()[id.idx() as int] == s@,
            !old(self).view().contains(s@) ==> id.idx() == old(self).view().len(),
    {
        if let Some(raw) = name_table_get(&self.map, s) {
            proof {
                let i = choose|i: int| 0 <= i < self.view().len() && self.view()[i] == s@;
                assert(name_table(self.map)[self.view()[i]] == i);
            }
            return SymbolId::new(raw);
        }
        let ghost old_view = self.view();
        proof {
            if old_view.contains(s@) {
                let i = choose|i: int| 0 <= i < old_view.len() && old_view[i] == s@;
                assert(name_table(self.map).contains_key(old_view[i]));
            }
        }
        let raw = self.buf.len() as u32;
        self.buf.push(s);
        name_table_insert(&mut self.map, s, raw);
        proof {
            assert(self.view() =~= old_view.push(s@));
            assert forall|i: int| 0 <= i < self.view().len() implies name_table(self.map).contains_key(#[trigger] self.view()[i])
                && name_table(self.map)[self.view()[i]] == i by {
                if i < old_view.len() {
                    assert(self.view()[i] == old_view[i]);
                    assert(old_view[i] != s@);
                }
            }
            assert forall|t: Seq<char>| #[trigger] name_table(self.map).contains_key(t) implies self.view().contains(t) by {
                if t == s@ {
                    assert(self.view()[old_view.len() as int] == t);
                } else {
                    let i = choose|i: int| 0 <= i < old_view.len() && old_view[i] == t;
                    assert(self.view()[i] == t);
                }
            }
        }
        SymbolId::new(raw)
    }

    /// The id of `s`, if it was interned.
    pub fn get(&self, s: &str) -> (r: Option<SymbolId<T>>)
        requires
            self.wf(),
        ensures
            r matches Some(id) ==> id.idx() < self.view().len() && self.view()[id.idx() as int] == s@,
            r is None ==> !self.view().contains(s@),
    {
        match name_table_get(&self.map, s) {
            Some(raw) => {
                proof {
                    let i = choose|i: int| 0 <= i < self.view().len() && self.view()[i] == s@;
                    assert(name_table(self.map)[self.view()[i]] == i);
                }
                Some(SymbolId::new(raw))
            },
            None => {
                proof {
                    if self.view().contains(s@) {
                        let i = choose|i: int| 0 <= i < self.view().len() && self.view()[i] == s@;
                        assert(name_table(self.map).contains_key(self.view()[i]));
                    }
                }
                None
            },
        }
    }

    /// The string of an id that this interner handed out.
    pub fn resolve(&self, id: SymbolId<T>) -> (r: &'src str)
        requires
            id.idx() < self.view().len(),
        ensures
            r@ == self.view()[id.idx() as int],
    {
        self.buf[id.as_index()]
    }

    /// The number of distinct strings interned.
    pub fn len(&self) -> (r: usize)
        ensures
            r == self.view().len(),
    {
        self.buf.len()
    }

    pub fn is_empty(&self) -> (r: bool)
        ensures
            r == (self.view().len() == 0),
    {
        self.buf.len() == 0
    }

    /// Every id with its string, in id order.
    pub fn iter(&self) -> (r: Vec<(SymbolId<T>, &'src str)>)
        requires
            self.wf(),
        ensures
            r@.len() == self.view().len(),
            forall|i: int| 0 <= i < r@.len() ==> (#[trigger] r@[i]).0.idx() == i && r@[i].1@ == self.view()[i],
    {
        let mut out: Vec<(SymbolId<T>, &'src str)> = Vec::new();
        let mut i: usize = 0;
        while i < self.buf.len()
            invariant
                i <= self.view().len() <= u32::MAX,
                self.view().len() == self.buf@.len(),
                out@.len() == i,
                forall|k: int| 0 <= k < i ==> (#[trigger] out@[k]).0.idx() == k && out@[k].1@ == self.view()[k],
            decreases self.view().len() - i,
        {
            out.push((SymbolId::new(i as u32), self.buf[i]));
            i = i + 1;
        }
        out
    }
}

impl<'src, T> Clone for Interner<'src, T> {
    fn clone(&self) -> (r: Self)
        ensures
            r.view() == self.view(),
            self.wf() ==> r.wf(),
    {
        let mut buf: Vec<&'src str> = Vec::new();
        let mut i: usize = 0;
        while i < self.buf.len()
            invariant
                i <= self.buf@.len(),
                buf@ == self.buf@.subrange(0, i as int),
            decreases self.buf@.len() - i,
        {
            buf.push(self.buf[i]);
            i = i + 1;
            assert(buf@ =~= self.buf@.subrange(0, i as int));
        }
        assert(buf@ =~= self.buf@);
        Interner { map: name_table_clone(&self.map), buf, _marker: PhantomData }
    }
}

/// Interning a string twice gives the same names as interning it once, so the second
/// call returns the same id and adds nothing.
pub proof fn lemma_intern_idempotent(names: Seq<Seq<char>>, s: Seq<char>)
    ensures
        interned(interned(names, s), s) == interned(names, s),
        interned(names, s).contains(s),
{
    if !names.contains(s) {
        assert(names.push(s)[names.len() as int] == s);
    }
}

/// Interning keeps the names distinct, keeps the earlier names at their ids, and
/// grows the count by one exactly when the string is new.
pub proof fn lemma_intern_extends(names: Seq<Seq<char>>, s: Seq<char>)
    requires
        distinct(names),
    ensures
        distinct(interned(names, s)),
        interned(names, s).len() == names.len() + if names.contains(s) { 0int } else { 1int },
        forall|i: int| 0 <= i < names.len() ==> #[trigger] interned(names, s)[i] == names[i],
{
}

/// In distinct names, the id of a name is the only position that holds it.
pub proof fn lemma_position_unique(names: Seq<Seq<char>>, s: Seq<char>, i: int)
    requires
        distinct(names),
        0 <= i < names.len(),
        names[i] == s,
    ensures
        position(names, s) == i,
{
}

} // verus!
