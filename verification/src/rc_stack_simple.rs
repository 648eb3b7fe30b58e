//! A persistent stack as a singly linked list of shared nodes.
//!
//! Cloning a handle is O(1): the clone shares every node with the handle it was made from.
//! Pushing on one handle never changes what another handle sees.

use crate::shared::{rc_clone, rc_new, rc_try_unwrap};
use std::rc::Rc;
use vstd::prelude::*;

verus! {

/// A handle to a persistent stack. The view lists the elements from the
/// bottom to the top, so the top of the stack is the last element.
#[derive(Debug)]
pub struct RcStack<T>(Option<Rc<(T, RcStack<T>)>>);

impl<T> View for RcStack<T> {
    type V = Seq<T>;

    closed spec fn view(&self) -> Seq<T>
        decreases self,
    {
        match self.0 {
            None => Seq::empty(),
            Some(node) => node.1.view().push(node.0),
        }
    }
}

impl<T> RcStack<T> {
    /// The empty stack.
    pub fn new() -> (s: Self)
        ensures
            s@ == Seq::<T>::empty(),
        opens_invariants none
        no_unwind
    {
        RcStack(None)
    }

    /// The top element, if there is one.
    pub fn peek(&self) -> (r: Option<&T>)
        ensures
            r == (if self@.len() > 0 {
                Some(&self@.last())
            } else {
                None
            }),
    {
        match &self.0 {
            Some(p) => {
                assert(self@ == p.1@.push(p.0));
                Some(&p.0)
            },
            None => None,
        }
    }

    /// Puts `elem` on top. Other handles that share the old stack are not
    /// affected.
    pub fn push(&mut self, elem: T)
        ensures
            final(self)@ == old(self)@.push(elem),
        opens_invariants none
        no_unwind
    {
        let mut rest = RcStack(None);
        core::mem::swap(self, &mut rest);
        self.0 = Some(rc_new((elem, rest)));
    }

    /// Whether the stack holds no element.
    pub fn is_empty(&self) -> (b: bool)
        ensures
            b == (self@.len() == 0),
    {
        assert(self.0 matches Some(p) ==> self@ == p.1@.push(p.0));
        self.0.is_none()
    }

    /// Removes the top element without producing it. Returns whether an
    /// element was removed.
    pub fn discard_top(&mut self) -> (b: bool)
        ensures
            b == (old(self)@.len() > 0),
            final(self)@ == (if b {
                old(self)@.drop_last()
            } else {
                old(self)@
            }),
    {
        let rest = match &self.0 {
            Some(p) => Some(p.1.clone()),
            None => None,
        };
        match rest {
            Some(rest) => {
                assert(rest@ =~= self@.drop_last());
                *self = rest;
                true
            },
            None => false,
        }
    }

    /// If the top node is not shared with any other handle, pops its element
    /// and returns it. Otherwise returns `None` and leaves the stack as it
    /// was. Whether the node is shared is not part of the stack's value, so
    /// the contract states what holds in either case.
    pub fn try_pop_unwrap(&mut self) -> (r: Option<T>)
        ensures
            match r {
                Some(v) => old(self)@.len() > 0 && v == old(self)@.last() && final(self)@ == old(
                    self,
                )@.drop_last(),
                None => final(self)@ == old(self)@,
            },
            old(self)@.len() == 0 ==> r is None,
        opens_invariants none
        no_unwind
    {
        let mut link = None;
        core::mem::swap(&mut self.0, &mut link);
        match link {
            None => None,
            Some(node) => {
                assert(node.1@ =~= old(self)@.drop_last());
                self.settle(rc_try_unwrap(node))
            },
        }
    }

    /// What an attempt to pop comes to, once it is known whether the top
    /// node had another owner. `unwrapped` is what became of the node that
    /// this handle, empty for the moment, pointed at: the node's element and
    /// the rest of the stack, if the node was this handle's alone, and the
    /// node itself if not. In the first case the element is handed out and
    /// the handle becomes the rest; in the second the handle takes the node
    /// back and nothing is handed out.
    fn settle(&mut self, unwrapped: Result<(T, RcStack<T>), Rc<(T, RcStack<T>)>>) -> (r: Option<T>)
        requires
            old(self)@.len() == 0,
        ensures
            match unwrapped {
                Ok((elem, rest)) => r == Some(elem) && final(self)@ == rest@,
                Err(node) => r is None && final(self)@ == node.1@.push(node.0),
            },
        opens_invariants none
        no_unwind
    {
        match unwrapped {
            Ok((elem, rest)) => {
                *self = rest;
                Some(elem)
            },
            Err(node) => {
                self.0 = Some(node);
                None
            },
        }
    }
}

impl<T: Clone> RcStack<T> {
    /// Pops the top element and returns it: the element itself where this
    /// handle was its only owner, a clone of it otherwise.
    pub fn pop_clone(&mut self) -> (r: Option<T>)
        ensures
            match r {
                Some(v) => old(self)@.len() > 0 && cloned(old(self)@.last(), v) && final(self)@
                    == old(self)@.drop_last(),
                None => old(self)@.len() == 0 && final(self)@ == old(self)@,
            },
    {
        match self.try_pop_unwrap() {
            Some(elem) => Some(elem),
            None => {
                let result = match self.peek() {
                    Some(top) => Some(top.clone()),
                    None => None,
                };
                self.discard_top();
                result
            },
        }
    }
}

impl<T> Clone for RcStack<T> {
    /// A second handle to the same stack, in O(1).
    fn clone(&self) -> (r: Self)
        ensures
            r@ == self@,
    {
        match &self.0 {
            Some(p) => RcStack(Some(rc_clone(p))),
            None => RcStack(None),
        }
    }
}

impl<T> RcStack<T> {
    /// Pops elements for as long as this handle is their only owner. What is
    /// left is the lower part of the stack, down from the first node that
    /// has another owner.
    fn release(&mut self)
        ensures
            final(self)@.len() <= old(self)@.len(),
            final(self)@ == old(self)@.take(final(self)@.len() as int),
        opens_invariants none
        no_unwind
    {
        let mut go = true;
        assert(self@ =~= old(self)@.take(self@.len() as int));
        while go
            invariant
                self@.len() <= old(self)@.len(),
                self@ == old(self)@.take(self@.len() as int),
            decreases self@.len() + (if go { 1nat } else { 0nat }),
        {
            let ghost before = self@;
            go = match self.try_pop_unwrap() {
                Some(_) => true,
                None => false,
            };
            assert(self@ =~= old(self)@.take(self@.len() as int));
        }
    }
}

impl<T> Drop for RcStack<T> {
    /// Releases the nodes one by one, so that a long chain is freed without
    /// deep recursion, and lets go of the first node that has another owner.
    /// The handle is left empty.
    fn drop(&mut self)
        ensures
            final(self)@ == Seq::<T>::empty(),
        opens_invariants none
        no_unwind
    {
        self.release();
        let mut rest = None;
        core::mem::swap(&mut self.0, &mut rest);
    }
}

} // verus!
