//! An owning singly linked list whose nodes come from an allocator.

use vstd::prelude::*;

use crate::allocator::Allocator;

verus! {

/// One node of the list.
pub struct Inner<T> {
    /// The value the node carries.
    pub data: T,
}

/// An owning singly linked list: values enter and leave at the front.
pub struct SinglyLinkedList<T, A> {
    /// The nodes, back first: the last node is the front of the list.
    pub nodes: Vec<Box<Inner<T>>>,
    /// The allocator the nodes come from.
    pub alloc_src: A,
}

impl<T, A: Allocator<Inner<T>>> SinglyLinkedList<T, A> {
    /// The values, front first.
    pub open spec fn view(&self) -> Seq<T> {
        self.nodes@.map_values(|b: Box<Inner<T>>| b.data).reverse()
    }

    /// An empty list drawing its nodes from the given allocator.
    pub fn new(alloc_src: A) -> (r: Self)
        ensures
            r.view() == Seq::<T>::empty(),
    {
        let r = SinglyLinkedList { nodes: Vec::new(), alloc_src };
        proof {
            assert(r.view() =~= Seq::<T>::empty());
        }
        r
    }

    /// Put `value` at the front of the list.
    pub fn push_front(&mut self, value: T)
        ensures
            final(self).view() == old(self).view().insert(0, value),
    {
        let ghost v0 = self.view();
        let node = self.alloc_src.allocate(Inner { data: value });
        self.nodes.push(node);
        proof {
            assert(final(self).view() =~= v0.insert(0, value)) by {
                assert(self.nodes@.last().data == value);
                assert forall|i: int| 0 <= i < self.view().len() implies self.view()[i] == v0.insert(
                    0,
                    value,
                )[i] by {
                    let n = self.nodes@.len() as int;
                    assert(self.view()[i] == self.nodes@.map_values(
                        |b: Box<Inner<T>>| b.data,
                    )[n - 1 - i]);
                }
            }
        }
    }

    /// Take the front value out of the list, if there is one.
    pub fn pop_front(&mut self) -> (r: Option<T>)
        ensures
            old(self).view().len() == 0 ==> r is None && final(self).view() == old(self).view(),
            old(self).view().len() > 0 ==> r == Some(old(self).view()[0]) && final(self).view()
                == old(self).view().subrange(1, old(self).view().len() as int),
    {
        let ghost v0 = self.view();
        match self.nodes.pop() {
            None => {
                proof {
                    assert(self.view() =~= v0);
                }
                None
            },
            Some(node) => {
                let inner = *node;
                proof {
                    assert(inner.data == v0[0]);
                    assert(self.view() =~= v0.subrange(1, v0.len() as int));
                }
                Some(inner.data)
            },
        }
    }
}

} // verus!
