use std::marker::PhantomData;
use vstd::prelude::*;

verus! {

/// A `u32` index into an arena of `T` nodes.
#[derive(Debug)]
pub struct Id<T> {
    pub(crate) index: u32,
    pub(crate) _marker: PhantomData<T>,
}

impl<T> Id<T> {
    /// The index, as a mathematical integer.
    pub open(crate) spec fn idx(self) -> nat {
        self.index as nat
    }

    /// The id with index `i`.
    pub open(crate) spec fn of(i: nat) -> Id<T> {
        Id { index: i as u32, _marker: PhantomData }
    }

    pub fn new(index: u32) -> (id: Id<T>)
        ensures
            id.idx() == index,
            id == Id::<T>::of(index as nat),
    {
        Id { index, _marker: PhantomData }
    }

    pub fn as_index(&self) -> (r: usize)
        ensures
            r == self.idx(),
    {
        self.index as usize
    }

    pub fn raw(&self) -> (r: u32)
        ensures
            r == self.idx(),
    {
        self.index
    }
}

impl<T> Clone for Id<T> {
    fn clone(&self) -> (r: Self)
        ensures
            r == *self,
    {
        Id { index: self.index, _marker: PhantomData }
    }
}

impl<T> Copy for Id<T> {
}

impl<T> PartialEq for Id<T> {
    fn eq(&self, other: &Self) -> (r: bool) {
        self.index == other.index
    }
}

impl<T> vstd::std_specs::cmp::PartialEqSpecImpl for Id<T> {
    open spec fn obeys_eq_spec() -> bool {
        true
    }

    open spec fn eq_spec(&self, other: &Self) -> bool {
        self.idx() == other.idx()
    }
}

impl<T> Eq for Id<T> {
}

/// The ids `[start, end)` of a contiguous run of nodes.
#[derive(Debug)]
pub struct Range<T> {
    pub(crate) start: Id<T>,
    pub(crate) end: Id<T>,
}

impl<T> Range<T> {
    pub open(crate) spec fn lo(self) -> nat {
        self.start.idx()
    }

    pub open(crate) spec fn hi(self) -> nat {
        self.end.idx()
    }

    /// `start <= end`.
    pub open(crate) spec fn wf(self) -> bool {
        self.lo() <= self.hi()
    }

    /// The number of ids in the range.
    pub open(crate) spec fn count(self) -> nat {
        (self.hi() - self.lo()) as nat
    }

    pub fn new(start: Id<T>, end: Id<T>) -> (r: Range<T>)
        requires
            start.idx() <= end.idx(),
        ensures
            r.lo() == start.idx(),
            r.hi() == end.idx(),
            r.wf(),
    {
        Range { start, end }
    }

    pub fn empty(at: Id<T>) -> (r: Range<T>)
        ensures
            r.lo() == at.idx(),
            r.hi() == at.idx(),
            r.wf(),
    {
        Range { start: at, end: at }
    }

    pub fn start(&self) -> (r: Id<T>)
        ensures
            r.idx() == self.lo(),
    {
        self.start
    }

    pub fn end(&self) -> (r: Id<T>)
        ensures
            r.idx() == self.hi(),
    {
        self.end
    }

    pub fn len(&self) -> (r: usize)
        requires
            self.wf(),
        ensures
            r == self.count(),
    {
        self.end.index as usize - self.start.index as usize
    }

    pub fn is_empty(&self) -> (r: bool)
        ensures
            r == (self.lo() == self.hi()),
    {
        self.start.index == self.end.index
    }

    /// The ids of the range, in increasing order.
    pub fn iter(self) -> (r: Vec<Id<T>>)
        requires
            self.wf(),
        ensures
            r.len() == self.count(),
            forall|i: int| 0 <= i < r.len() ==> #[trigger] r[i].idx() == self.lo() + i,
    {
        let mut out: Vec<Id<T>> = Vec::new();
        let mut i = self.start.index;
        while i < self.end.index
            invariant
                self.lo() <= i <= self.hi(),
                out.len() == i - self.lo(),
                forall|k: int| 0 <= k < out.len() ==> #[trigger] out[k].idx() == self.lo() + k,
            decreases self.hi() - i,
        {
            out.push(Id::new(i));
            i = i + 1;
        }
        out
    }
}

impl<T> Clone for Range<T> {
    fn clone(&self) -> (r: Self)
        ensures
            r == *self,
    {
        Range { start: self.start, end: self.end }
    }
}

impl<T> Copy for Range<T> {
}

/// A saved position in an arena, from which a [`Range`] can later be taken.
#[derive(Debug)]
pub struct Checkpoint<T>(pub(crate) Id<T>);

impl<T> Checkpoint<T> {
    pub open(crate) spec fn at(self) -> nat {
        self.0.idx()
    }

    pub fn new(val: Id<T>) -> (c: Checkpoint<T>)
        ensures
            c.at() == val.idx(),
    {
        Checkpoint(val)
    }

    pub fn id(&self) -> (r: Id<T>)
        ensures
            r.idx() == self.at(),
    {
        self.0
    }
}

impl<T> Clone for Checkpoint<T> {
    fn clone(&self) -> (r: Self)
        ensures
            r == *self,
    {
        Checkpoint(self.0)
    }
}

impl<T> Copy for Checkpoint<T> {
}

} // verus!
