//! A singly linked list configured by an adapter.
//!
//! The list owns its values; its size is accounted for by the
//! adapter's size policy, which either keeps a running count or defers
//! to the list itself.

use vstd::prelude::*;

use crate::intrusive::adapter::Adapter;
use crate::intrusive::size::Size;

verus! {

/// The link embedded in a listed value's node.
#[derive(Clone, Copy, PartialEq, Eq, Structural, Debug)]
pub struct Link {
    /// Whether the node currently sits in a list.
    pub linked: bool,
}

impl Link {
    /// A link that sits in no list.
    pub fn unlinked() -> (r: Self)
        ensures
            !r.linked,
    {
        Link { linked: false }
    }
}

/// A singly linked list over an adapter's value type.
pub struct SinglyLinkedList<A: Adapter> {
    /// The values, back first: the last element is the front.
    pub elems: Vec<A::Value>,
    /// The running size, per the adapter's policy.
    pub size: A::Size,
}

impl<A: Adapter> SinglyLinkedList<A> {
    /// The values, front first.
    pub open spec fn view(&self) -> Seq<A::Value> {
        self.elems@.reverse()
    }

    /// The size policy's stored count agrees with the list.
    pub open spec fn wf(&self) -> bool {
        <A::Size as Size>::uses_stored() ==> self.size.stored() == self.view().len()
    }

    /// An empty list.
    pub fn new(adapter: A) -> (r: Self)
        ensures
            r.view() == Seq::<A::Value>::empty(),
            r.wf(),
    {
        let r = SinglyLinkedList { elems: Vec::new(), size: <A::Size as Size>::new() };
        proof {
            assert(r.view() =~= Seq::<A::Value>::empty());
        }
        r
    }

    /// Whether the list holds nothing.
    pub fn is_empty(&self) -> (r: bool)
        ensures
            r == (self.view().len() == 0),
    {
        self.elems.len() == 0
    }

    /// How many values the list holds.
    pub fn size(&self) -> (r: usize)
        requires
            self.wf(),
        ensures
            r == self.view().len(),
    {
        self.size.count(self.elems.len())
    }

    /// Put `value` at the front.
    pub fn push_front(&mut self, value: A::Value)
        requires
            old(self).wf(),
            old(self).view().len() + 1 <= usize::MAX,
        ensures
            final(self).wf(),
            final(self).view() == old(self).view().insert(0, value),
    {
        let ghost v0 = self.view();
        self.elems.push(value);
        self.size.inc();
        proof {
            assert(self.view() =~= v0.insert(0, value));
        }
    }

    /// Take the front value out, if there is one.
    pub fn pop_front(&mut self) -> (r: Option<A::Value>)
        requires
            old(self).wf(),
        ensures
            final(self).wf(),
            old(self).view().len() == 0 ==> r is None && final(self).view() == old(self).view(),
            old(self).view().len() > 0 ==> r == Some(old(self).view()[0]) && final(self).view()
                == old(self).view().subrange(1, old(self).view().len() as int),
    {
        let ghost v0 = self.view();
        match self.elems.pop() {
            None => {
                proof {
                    assert(self.view() =~= v0);
                }
                None
            },
            Some(value) => {
                self.size.dec();
                proof {
                    assert(value == v0[0]);
                    assert(self.view() =~= v0.subrange(1, v0.len() as int));
                }
                Some(value)
            },
        }
    }

    /// A read cursor starting at the front.
    pub fn iter(&self) -> (r: Iter<'_, A>)
        ensures
            r.list == self,
            r.pos == 0,
    {
        Iter { list: self, pos: 0 }
    }

    /// A position cursor starting at the front, for callers that hold
    /// the list mutably and step through it by index.
    pub fn iter_mut(&mut self) -> (r: IterMut)
        ensures
            r.pos == 0,
            *final(self) == *old(self),
    {
        IterMut { pos: 0 }
    }
}

/// A read cursor over a list, front to back.
pub struct Iter<'a, A: Adapter> {
    /// The list walked.
    pub list: &'a SinglyLinkedList<A>,
    /// The next position to visit, from the front.
    pub pos: usize,
}

impl<'a, A: Adapter> Iter<'a, A> {
    /// The next value, advancing the cursor.
    pub fn next(&mut self) -> (r: Option<&'a A::Value>)
        requires
            old(self).pos <= old(self).list.view().len(),
        ensures
            final(self).list == old(self).list,
            old(self).pos == old(self).list.view().len() ==> r is None && final(self).pos == old(
                self,
            ).pos,
            old(self).pos < old(self).list.view().len() ==> (match r {
                Some(v) => *v == old(self).list.view()[old(self).pos as int] && final(self).pos
                    == old(self).pos + 1,
                None => false,
            }),
    {
        let n = self.list.elems.len();
        if self.pos < n {
            let i = n - 1 - self.pos;
            let v = &self.list.elems[i];
            self.pos = self.pos + 1;
            Some(v)
        } else {
            None
        }
    }

    /// The value `n` places past the cursor, advancing past it.
    pub fn nth(&mut self, n: usize) -> (r: Option<&'a A::Value>)
        requires
            old(self).pos + n + 1 <= usize::MAX,
        ensures
            final(self).list == old(self).list,
            old(self).pos + n < old(self).list.view().len() ==> (match r {
                Some(v) => *v == old(self).list.view()[old(self).pos + n],
                None => false,
            }),
            old(self).pos + n >= old(self).list.view().len() ==> r is None,
    {
        let len = self.list.elems.len();
        if self.pos > len || n >= len - self.pos {
            return None;
        }
        let at = self.pos + n;
        let i = len - 1 - at;
        self.pos = at + 1;
        Some(&self.list.elems[i])
    }
}

/// A position cursor for mutable traversals: it yields successive
/// front-to-back positions, and the caller indexes the list itself.
pub struct IterMut {
    /// The next position to visit, from the front.
    pub pos: usize,
}

impl IterMut {
    /// The next position, advancing the cursor; `len` is the list's
    /// current length.
    pub fn next(&mut self, len: usize) -> (r: Option<usize>)
        ensures
            old(self).pos < len ==> r == Some(old(self).pos) && final(self).pos == old(self).pos
                + 1,
            old(self).pos >= len ==> r is None && final(self).pos == old(self).pos,
    {
        if self.pos < len {
            let p = self.pos;
            self.pos = p + 1;
            Some(p)
        } else {
            None
        }
    }
}

} // verus!
