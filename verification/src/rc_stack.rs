//! A persistent stack stored as a chain of shared blocks.
//!
//! Each block holds a vector of elements and a handle to the rest of the
//! stack below it. A handle points at one element of one block; what lies at
//! or below that element, and then down the chain, is the stack it stands
//! for. Cloning a handle is O(1). A handle that is the only owner of its
//! block pushes and pops in place, inside the block's vector; a handle whose
//! block is shared never writes to it, and pushes by starting a new block, so
//! no handle ever sees another one's changes.

use crate::shared::{rc_clone, rc_get_mut, rc_try_unwrap};
use std::rc::Rc;
use vstd::prelude::*;

verus! {

/// A handle to a persistent stack. The view lists the elements from the
/// bottom to the top, so the top of the stack is the last element.
#[derive(Debug)]
pub struct RcStack<T>(Option<(Rc<Block<T>>, usize)>);

#[derive(Debug)]
struct Block<T> {
    items: Vec<T>,
    tail: RcStack<T>,
}

impl<T> View for RcStack<T> {
    type V = Seq<T>;

    closed spec fn view(&self) -> Seq<T>
        decreases self,
    {
        match self.0 {
            None => Seq::empty(),
            Some((block, idx)) => block.tail.view() + block.items@.take(
                if idx < block.items@.len() {
                    idx + 1
                } else {
                    block.items@.len() as int
                },
            ),
        }
    }
}

impl<T> RcStack<T> {
    /// A handle always points at an element that its block holds.
    #[verifier::type_invariant]
    spec fn inv(self) -> bool {
        match self.0 {
            None => true,
            Some((block, idx)) => idx < block.items@.len(),
        }
    }

    /// The number of elements that the block under this handle holds, the
    /// ones above the handle included; 0 for the empty stack.
    pub closed spec fn block_size(&self) -> nat {
        match self.0 {
            None => 0,
            Some((block, idx)) => block.items@.len(),
        }
    }

    /// The number of elements of the block under this handle that belong to
    /// the stack: the one that the handle points at and those below it in
    /// the block; 0 for the empty stack. It is at most `block_size`.
    pub closed spec fn top_len(&self) -> nat {
        match self.0 {
            None => 0,
            Some((block, idx)) => idx as nat + 1,
        }
    }

    /// The number of blocks from this handle down to the bottom.
    pub closed spec fn num_blocks(&self) -> nat
        decreases self,
    {
        match self.0 {
            None => 0,
            Some((block, idx)) => 1 + block.tail.num_blocks(),
        }
    }

    /// How the chain under `after` relates to the chain under `self` when
    /// `after` is `self` with its top element popped. Where the handle had
    /// elements below it in its block, it has moved down by one in that
    /// block, which is as large as before or, if the handle was its only
    /// owner, cut down to where the handle now points. Where the handle
    /// pointed at the lowest element of its block, it has moved to the block
    /// below, and the chain is one block shorter.
    pub open spec fn popped_to(&self, after: &Self) -> bool {
        if self.top_len() > 1 {
            &&& after.num_blocks() == self.num_blocks()
            &&& after.top_len() == self.top_len() - 1
            &&& (after.block_size() == self.block_size() || after.block_size() == after.top_len())
        } else {
            after.num_blocks() + 1 == self.num_blocks()
        }
    }

    /// What the view is, in terms of the block under the handle.
    proof fn lemma_view(&self)
        ensures
            self.0 is None ==> self@ == Seq::<T>::empty(),
            self.inv() ==> (self.0 matches Some((block, idx)) ==> self@ == block.tail@
                + block.items@.take(idx + 1)),
            self.inv() ==> (self.0 matches Some((block, idx)) ==> self@.len() > 0 && self@.last()
                == block.items@[idx as int]),
    {
        if self.inv() {
            if let Some((block, idx)) = self.0 {
                let live = block.items@.take(idx + 1);
                assert(live.len() == idx + 1);
                assert(live[idx as int] == block.items@[idx as int]);
                assert((block.tail@ + live).last() == live[idx as int]);
            }
        }
    }

    /// Every element of the stack is a part of the handle's value, so a
    /// recursive definition over a type that holds a stack may descend into
    /// the stack's elements.
    pub proof fn lemma_view_decreases(&self, i: int)
        requires
            0 <= i < self@.len(),
        ensures
            decreases_to!(self => self@[i]),
        decreases self,
    {
        if let Some((block, idx)) = self.0 {
            let below = block.tail@;
            let live = block.items@.take(
                if idx < block.items@.len() {
                    idx + 1
                } else {
                    block.items@.len() as int
                },
            );
            if i < below.len() {
                block.tail.lemma_view_decreases(i);
                assert(self@[i] == below[i]);
            } else {
                assert(self@[i] == live[i - below.len()]);
                assert(live[i - below.len()] == block.items@[i - below.len()]);
                assert(decreases_to!(block.items => block.items@));
                assert(decreases_to!(block.items@ => block.items@[i - below.len()]));
            }
        }
    }

    /// The empty stack.
    pub fn new() -> (s: Self)
        ensures
            s@ == Seq::<T>::empty(),
            s.num_blocks() == 0,
            s.block_size() == 0,
            s.top_len() == 0,
        opens_invariants none
        no_unwind
    {
        RcStack(None)
    }

    /// Whether the stack holds no element.
    pub fn is_empty(&self) -> (b: bool)
        ensures
            b == (self@.len() == 0),
        opens_invariants none
        no_unwind
    {
        proof {
            use_type_invariant(self);
            self.lemma_view();
        }
        match &self.0 {
            Some(_) => false,
            None => true,
        }
    }

    /// The top element, if there is one.
    pub fn peek(&self) -> (r: Option<&T>)
        ensures
            r == (if self@.len() > 0 {
                Some(&self@.last())
            } else {
                None
            }),
    {
        proof {
            use_type_invariant(self);
            self.lemma_view();
        }
        match &self.0 {
            Some((block, idx)) => Some(&block.items[*idx]),
            None => None,
        }
    }

    /// Puts `elem` on top. Where this handle is the only owner of its block,
    /// the element goes into the block's vector in place, right above the
    /// handle, and the chain stays as long as it was; otherwise a new block
    /// of one element is started on top of the old stack, which stays as it
    /// was for every other handle. Which of the two happens depends on how
    /// the block is shared; the empty stack always starts a block.
    pub fn push(&mut self, elem: T)
        ensures
            final(self)@ == old(self)@.push(elem),
            ({
                ||| old(self)@.len() > 0 && final(self).num_blocks() == old(self).num_blocks()
                    && final(self).top_len() == old(self).top_len() + 1 && final(self).block_size()
                    == old(self).top_len() + 1
                ||| final(self).num_blocks() == old(self).num_blocks() + 1 && final(self).top_len()
                    == 1 && final(self).block_size() == 1
            }),
    {
        proof {
            use_type_invariant(&*self);
            self.lemma_view();
        }
        let mut link = None;
        core::mem::swap(&mut self.0, &mut link);
        match link {
            Some((mut block, idx)) => {
                let ghost below = block.tail@;
                let ghost live = block.items@.take(idx + 1);
                let len = block.items.len();
                assert(idx < len);
                let leftover = match rc_get_mut(&mut block) {
                    Some(b) => {
                        b.items.truncate(idx + 1);
                        b.items.push(elem);
                        None
                    },
                    None => Some(elem),
                };
                match leftover {
                    None => {
                        assert(block.tail@ == below);
                        assert(block.items@.take(idx + 2) =~= live.push(elem));
                        assert(below + live.push(elem) =~= (below + live).push(elem));
                        self.0 = Some((block, idx + 1));
                    },
                    Some(elem) => {
                        let mut items = Vec::new();
                        items.push(elem);
                        let tail = RcStack(Some((block, idx)));
                        assert(tail@ == below + live);
                        assert(items@.take(1) =~= seq![elem]);
                        assert(tail@ + seq![elem] =~= tail@.push(elem));
                        self.0 = Some((Rc::new(Block { items, tail }), 0));
                    },
                }
            },
            None => {
                let mut items = Vec::new();
                items.push(elem);
                assert(items@.take(1) =~= seq![elem]);
                let tail = RcStack(None);
                assert(tail@ + seq![elem] =~= tail@.push(elem));
                self.0 = Some((Rc::new(Block { items, tail }), 0));
            },
        }
    }

    /// A handle to the stack below the top block.
    fn below(block: &Block<T>) -> (link: Option<(Rc<Block<T>>, usize)>)
        ensures
            link == block.tail.0,
        opens_invariants none
        no_unwind
    {
        match &block.tail.0 {
            Some((next, idx)) => Some((rc_clone(next), *idx)),
            None => None,
        }
    }

    /// If this handle is the only owner of the block that holds the top
    /// element, pops the element and returns it. Otherwise returns `None`
    /// and leaves the stack as it was. Whether the block is shared is not
    /// part of the stack's value, so the contract states what holds in
    /// either case.
    pub fn try_pop_unwrap(&mut self) -> (r: Option<T>)
        ensures
            match r {
                Some(v) => old(self)@.len() > 0 && v == old(self)@.last() && final(self)@ == old(
                    self,
                )@.drop_last(),
                None => final(self)@ == old(self)@,
            },
            old(self)@.len() == 0 ==> r is None,
            r is Some ==> old(self).popped_to(final(self)),
            r is None ==> final(self).num_blocks() == old(self).num_blocks(),
            r is None ==> final(self).top_len() == old(self).top_len(),
            r is None ==> final(self).block_size() == old(self).block_size(),
        opens_invariants none
        no_unwind
    {
        proof {
            use_type_invariant(&*self);
            self.lemma_view();
        }
        let mut link = None;
        core::mem::swap(&mut self.0, &mut link);
        match link {
            None => None,
            Some((mut block, idx)) => {
                let ghost below = block.tail@;
                let ghost live = block.items@.take(idx + 1);
                assert(block.items@.len() == vstd::std_specs::vec::spec_vec_len(&block.items));
                assert(live.drop_last() =~= block.items@.take(idx as int));
                assert(below + live.drop_last() =~= (below + live).drop_last());
                proof {
                    use_type_invariant(&block.tail);
                }
                let taken = Self::pop_owned(rc_get_mut(&mut block), idx, &mut self.0);
                match taken {
                    Some(top) => {
                        if idx > 0 {
                            assert(block.items@ =~= live.drop_last());
                            assert(block.items@.take(idx as int) =~= live.drop_last());
                            self.0 = Some((block, idx - 1));
                        } else {
                            assert(live.drop_last() =~= Seq::<T>::empty());
                            assert(below + Seq::<T>::empty() =~= below);
                        }
                        Some(top)
                    },
                    None => {
                        self.0 = Some((block, idx));
                        None
                    },
                }
            },
        }
    }

    /// What an attempt to pop comes to, once it is known whether the block
    /// had another owner. `owner` is the block that a handle at `idx` points
    /// at, borrowed for writing if the handle is the block's only owner, and
    /// `None` if not. In the first case nothing else can reach the block:
    /// what lies above `idx` is dead and is dropped, and the element at `idx`
    /// is moved out and handed back. If that was the block's last element,
    /// the link to the stack below moves from the block to `handle`. In the
    /// second case nothing is touched and nothing handed back.
    fn pop_owned(
        owner: Option<&mut Block<T>>,
        idx: usize,
        handle: &mut Option<(Rc<Block<T>>, usize)>,
    ) -> (r: Option<T>)
        requires
            *old(handle) is None,
            owner matches Some(b) ==> idx < b.items@.len(),
        ensures
            match owner {
                Some(b) => r == Some(b.items@[idx as int]) && final(b).items@ == b.items@.take(
                    idx as int,
                ) && (if idx == 0 {
                    *final(handle) == b.tail.0 && final(b).tail.0 is None
                } else {
                    *final(handle) is None && final(b).tail == b.tail
                }),
                None => r is None && *final(handle) is None,
            },
        opens_invariants none
        no_unwind
    {
        match owner {
            Some(b) => {
                assert(b.items@.len() == vstd::std_specs::vec::spec_vec_len(&b.items));
                vec_truncate(&mut b.items, idx + 1);
                let top = vec_pop(&mut b.items);
                if idx == 0 {
                    core::mem::swap(handle, &mut b.tail.0);
                }
                top
            },
            None => None,
        }
    }

    /// Moves the handle down by one element without touching any block.
    fn step_down(&mut self)
        requires
            old(self)@.len() > 0,
        ensures
            final(self)@ == old(self)@.drop_last(),
            old(self).popped_to(final(self)),
        opens_invariants none
        no_unwind
    {
        proof {
            use_type_invariant(&*self);
            self.lemma_view();
        }
        let mut link = None;
        core::mem::swap(&mut self.0, &mut link);
        match link {
            None => {},
            Some((block, idx)) => {
                let ghost below = block.tail@;
                let ghost live = block.items@.take(idx + 1);
                assert(live.drop_last() =~= block.items@.take(idx as int));
                assert(below + live.drop_last() =~= (below + live).drop_last());
                if idx > 0 {
                    self.0 = Some((block, idx - 1));
                } else {
                    proof {
                        use_type_invariant(&block.tail);
                    }
                    assert(live.drop_last() =~= Seq::<T>::empty());
                    assert(below + Seq::<T>::empty() =~= below);
                    self.0 = Self::below(&block);
                }
            },
        }
    }

    /// Pops the top element and hands it to one of three functions.
    ///
    /// Where this handle is the only owner of its block, the element leaves
    /// the block and goes to `unique_fn` by value. Where the block is shared,
    /// the block stays as it is: with `pop_shared` the element goes to
    /// `shared_fn` by reference and the handle moves down by one; without
    /// it the stack is left alone and `empty_fn` is called, as it is for the
    /// empty stack.
    fn pop_and_apply<UF, SF, EF, R>(
        &mut self,
        pop_shared: bool,
        unique_fn: UF,
        shared_fn: SF,
        empty_fn: EF,
    ) -> (r: R) where UF: FnOnce(T) -> R, SF: FnOnce(&T) -> R, EF: FnOnce() -> R
        requires
            forall|v: T| call_requires(unique_fn, (v,)),
            forall|v: &T| call_requires(shared_fn, (v,)),
            call_requires(empty_fn, ()),
        ensures
            old(self)@.len() == 0 ==> call_ensures(empty_fn, (), r) && final(self)@ == old(self)@,
            old(self)@.len() > 0 ==> {
                ||| call_ensures(unique_fn, (old(self)@.last(),), r) && final(self)@ == old(
                    self,
                )@.drop_last()
                ||| pop_shared && call_ensures(shared_fn, (&old(self)@.last(),), r) && final(self)@
                    == old(self)@.drop_last()
                ||| !pop_shared && call_ensures(empty_fn, (), r) && final(self)@ == old(self)@
            },
            final(self)@.len() < old(self)@.len() ==> old(self).popped_to(final(self)),
    {
        match self.try_pop_unwrap() {
            Some(top) => unique_fn(top),
            None => {
                if !pop_shared {
                    return empty_fn();
                }
                let r = match self.peek() {
                    Some(top) => shared_fn(top),
                    None => { return empty_fn(); },
                };
                self.step_down();
                r
            },
        }
    }

    /// Removes the top element without producing it. Returns whether an
    /// element was removed.
    pub fn discard_top(&mut self) -> (b: bool)
        ensures
            b == (old(self)@.len() > 0),
            final(self)@ == (if b {
                old(self)@.drop_last()
            } else {
                old(self)@
            }),
            b ==> old(self).popped_to(final(self)),
    {
        self.pop_and_apply(
            true,
            |_v: T| -> (b: bool)
                ensures
                    b
                { true },
            |_v: &T| -> (b: bool)
                ensures
                    b
                { true },
            || -> (b: bool)
                ensures
                    !b
                { false },
        )
    }
}

impl<T: Clone> RcStack<T> {
    /// Pops the top element and returns it: the element itself where this
    /// handle was the only owner of its block, a clone of it otherwise.
    pub fn pop_clone(&mut self) -> (r: Option<T>)
        ensures
            match r {
                Some(v) => old(self)@.len() > 0 && cloned(old(self)@.last(), v) && final(self)@
                    == old(self)@.drop_last(),
                None => old(self)@.len() == 0 && final(self)@ == old(self)@,
            },
            r is Some ==> old(self).popped_to(final(self)),
    {
        self.pop_and_apply(
            true,
            |v: T| -> (r: Option<T>)
                ensures
                    r == Some(v)
                { Some(v) },
            |v: &T| -> (r: Option<T>)
                ensures
                    r matches Some(c) && cloned(*v, c)
                { Some(v.clone()) },
            || -> (r: Option<T>)
                ensures
                    r is None
                { None },
        )
    }
}

impl<T> RcStack<T> {
    /// The size of the block under this handle and the number of blocks in
    /// the chain, the latter capped at `usize::MAX`. Both are 0 exactly for
    /// the empty stack, and no chain has more blocks than the stack has
    /// elements.
    pub fn check(&self) -> (r: (usize, usize))
        ensures
            r.0 == self.block_size(),
            r.1 == (if self.num_blocks() <= usize::MAX {
                self.num_blocks()
            } else {
                usize::MAX as nat
            }),
            (r.0 == 0) == (self@.len() == 0),
            (r.1 == 0) == (self@.len() == 0),
            r.1 <= self@.len(),
            self.top_len() <= r.0,
    {
        proof {
            use_type_invariant(self);
            self.lemma_view();
        }
        let block_size = match &self.0 {
            Some((block, _idx)) => block.items.len(),
            None => 0,
        };
        let mut num_blocks: usize = 0;
        let mut p = self;
        let ghost mut seen: nat = 0;
        loop
            invariant
                num_blocks as nat + p.num_blocks() == self.num_blocks() || (num_blocks
                    == usize::MAX && num_blocks as nat + p.num_blocks() <= self.num_blocks()),
                seen + p@.len() == self@.len(),
                num_blocks <= seen,
                (num_blocks == 0) == (p.num_blocks() == self.num_blocks()),
            ensures
                num_blocks as nat == self.num_blocks() || (num_blocks == usize::MAX
                    && num_blocks as nat <= self.num_blocks()),
                num_blocks <= self@.len(),
            decreases p.num_blocks(),
        {
            proof {
                use_type_invariant(p);
                p.lemma_view();
            }
            match &p.0 {
                Some((block, idx)) => {
                    if num_blocks < usize::MAX {
                        num_blocks += 1;
                    }
                    proof {
                        seen = seen + (*idx as nat) + 1;
                    }
                    p = &block.tail;
                },
                None => {
                    break ;
                },
            }
        }
        (block_size, num_blocks)
    }
}

impl<T> Clone for RcStack<T> {
    /// A second handle to the same stack, in O(1): it points at the same
    /// element of the same block.
    fn clone(&self) -> (r: Self)
        ensures
            r@ == self@,
            r.block_size() == self.block_size(),
            r.num_blocks() == self.num_blocks(),
            r.top_len() == self.top_len(),
    {
        proof {
            use_type_invariant(self);
        }
        match &self.0 {
            Some((block, idx)) => RcStack(Some((rc_clone(block), *idx))),
            None => RcStack(None),
        }
    }
}

impl<T> Default for RcStack<T> {
    fn default() -> (s: Self)
        ensures
            s@ == Seq::<T>::empty(),
    {
        RcStack(None)
    }
}

impl<T> Drop for RcStack<T> {
    /// Frees the blocks that only this handle keeps alive, one after the
    /// other and without recursion, however long the chain is. The handle
    /// is left empty, so that nothing of the chain is freed after it.
    fn drop(&mut self)
        ensures
            final(self)@ == Seq::<T>::empty(),
        opens_invariants none
        no_unwind
    {
        let mut link = None;
        core::mem::swap(&mut self.0, &mut link);
        let mut go = true;
        while go
            invariant
                self@ == Seq::<T>::empty(),
            decreases RcStack(link).num_blocks() + (if go { 1nat } else { 0nat }),
        {
            let mut cur = None;
            core::mem::swap(&mut link, &mut cur);
            go = false;
            match cur {
                Some((block, _idx)) => match rc_try_unwrap(block) {
                    Ok(mut owned) => {
                        core::mem::swap(&mut link, &mut owned.tail.0);
                        go = true;
                    },
                    Err(_) => {},
                },
                None => {},
            }
        }
    }
}

/// `Vec::pop`: removes the last element and returns it, or returns `None`
/// on an empty vector. It never unwinds, which is what a destructor needs to
/// know of what it calls.
#[verifier::external_body]
fn vec_pop<T>(v: &mut Vec<T>) -> (r: Option<T>)
    ensures
        old(v)@.len() > 0 ==> r == Some(old(v)@.last()) && final(v)@ == old(v)@.drop_last(),
        old(v)@.len() == 0 ==> r is None && final(v)@ == old(v)@,
    opens_invariants none
    no_unwind
{
    v.pop()
}

/// `Vec::truncate`: keeps the first `len` elements and drops the rest; no
/// effect when the vector is not longer than `len`. It unwinds only if the
/// destructor of an element does, and no destructor does.
#[verifier::external_body]
fn vec_truncate<T>(v: &mut Vec<T>, len: usize)
    ensures
        final(v)@ == (if len <= old(v)@.len() {
            old(v)@.take(len as int)
        } else {
            old(v)@
        }),
    opens_invariants none
    no_unwind
{
    v.truncate(len)
}

} // verus!
