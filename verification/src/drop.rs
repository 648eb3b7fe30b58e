//! Destruction without recursion.
//!
//! A term can be a million applications deep, and so can a captured
//! continuation. Left to itself, the destructor of such a value would call
//! itself once per level and run out of stack. The destructor here takes a
//! term apart level by level instead: all its pointers to subterms are moved
//! to a list of work, and the list is emptied in a loop, in which a subterm
//! is taken apart in turn once its last pointer is at hand.

use crate::model::{frames_size, SpecFrame, SpecTerm};
use crate::rc_stack_simple::RcStack;
use crate::shared::{rc_clone, rc_new, rc_try_unwrap};
use crate::small_step::{frames, lemma_frames, Cont, ContEntry};
use crate::term::Term;
use std::rc::Rc;
use vstd::prelude::*;

verus! {

/// The sizes of the terms in `work`, added up.
spec fn work_size(work: Seq<Rc<Term>>) -> nat
    decreases work.len(),
{
    if work.len() == 0 {
        0
    } else {
        work_size(work.drop_last()) + work.last()@.size()
    }
}

/// What stands in for a subterm that was moved out: nothing, or a leaf.
spec fn is_filler(filler: Option<Rc<Term>>) -> bool {
    filler matches Some(f) ==> *f == Term::K
}

/// Whether a term holds other terms: subterms, or the frames of a reified
/// continuation.
pub open spec fn term_holds_terms(t: Term) -> bool {
    t is K1 || t is S1 || t is S2 || t is Promise || t is Apply || t is ReifiedCont
}

/// Whether one of the subterms that `t` points at holds terms itself, so
/// that freeing `t` as it stands would go more than one level deep.
pub open spec fn moves_any(t: Term) -> bool {
    match t {
        Term::K1(x) => term_holds_terms(*x),
        Term::S1(x) => term_holds_terms(*x),
        Term::Promise(x) => term_holds_terms(*x),
        Term::S2(x, y) => term_holds_terms(*x) || term_holds_terms(*y),
        Term::Apply(f, x) => term_holds_terms(*f) || term_holds_terms(*x),
        _ => false,
    }
}

/// Whether `t` points at subterms.
spec fn has_children(t: Term) -> bool {
    t is K1 || t is S1 || t is S2 || t is Promise || t is Apply
}

/// The term in a frame.
spec fn entry_term(entry: ContEntry) -> Rc<Term> {
    match entry {
        ContEntry::Cont1(x) => x,
        ContEntry::Cont2(f) => f,
    }
}

/// The terms of the frames popped off `entries` until `left` frames are
/// left, in the order in which they are popped: from the top down.
spec fn popped(entries: Seq<ContEntry>, left: nat) -> Seq<Rc<Term>>
    decreases entries.len(),
{
    if entries.len() <= left {
        Seq::empty()
    } else {
        seq![entry_term(entries.last())] + popped(entries.drop_last(), left)
    }
}

/// Every term has at least one node.
proof fn lemma_size_positive(t: SpecTerm)
    ensures
        t.size() >= 1,
{
}

/// The size of a list of work that is two lists joined.
proof fn lemma_work_size_add(a: Seq<Rc<Term>>, b: Seq<Rc<Term>>)
    ensures
        work_size(a + b) == work_size(a) + work_size(b),
    decreases b.len(),
{
    if b.len() == 0 {
        assert(a + b =~= a);
    } else {
        lemma_work_size_add(a, b.drop_last());
        assert((a + b).drop_last() =~= a + b.drop_last());
        assert((a + b).last() == b.last());
    }
}

/// The terms popped off a stack of frames are no larger than the frames.
proof fn lemma_popped_size(c: Cont, left: nat)
    requires
        left <= c@.len(),
    ensures
        work_size(popped(c@, left)) <= frames_size(frames(c)),
{
    lemma_frames(c);
    lemma_popped_size_of(c@, frames(c), left);
}

/// The terms popped off `entries` are no larger than the frames that the
/// model sees for them.
proof fn lemma_popped_size_of(entries: Seq<ContEntry>, model: Seq<SpecFrame>, left: nat)
    requires
        left <= entries.len(),
        model.len() == entries.len(),
        forall|i: int| 0 <= i < entries.len() ==> #[trigger] model[i] == entries[i]@,
    ensures
        work_size(popped(entries, left)) <= frames_size(model),
    decreases entries.len(),
{
    if entries.len() > left {
        lemma_popped_size_of(entries.drop_last(), model.drop_last(), left);
        let first = seq![entry_term(entries.last())];
        lemma_work_size_add(first, popped(entries.drop_last(), left));
        assert(first.drop_last() =~= Seq::<Rc<Term>>::empty());
        assert(work_size(first.drop_last()) == 0);
        assert(first.last() == entry_term(entries.last()));
        assert(work_size(first) == entry_term(entries.last())@.size());
        assert(model.last() == entries.last()@);
        assert(model.last().size() == entry_term(entries.last())@.size());
        assert(frames_size(model) == frames_size(model.drop_last()) + model.last().size());
    } else {
        assert(work_size(popped(entries, left)) == 0);
    }
}

/// Puts `child` on the list of work.
fn defer(work: &mut RcStack<Rc<Term>>, child: Rc<Term>)
    ensures
        final(work)@ == old(work)@.push(child),
        work_size(final(work)@) == work_size(old(work)@) + child@.size(),
    opens_invariants none
    no_unwind
{
    let ghost before = work@;
    work.push(child);
    assert(work@.drop_last() =~= before);
}

/// Whether `t` holds other terms.
fn holds_terms(t: &Term) -> (b: bool)
    ensures
        b == term_holds_terms(*t),
    opens_invariants none
    no_unwind
{
    match t {
        Term::K1(_) => true,
        Term::S1(_) => true,
        Term::S2(_, _) => true,
        Term::Promise(_) => true,
        Term::Apply(_, _) => true,
        Term::ReifiedCont(_) => true,
        _ => false,
    }
}

/// Whether freeing `t` as it stands could go deep: whether a subterm of `t`
/// holds terms, or `t` is a reified continuation.
fn needs_work(t: &Term) -> (b: bool)
    ensures
        b == (moves_any(*t) || t is ReifiedCont),
    opens_invariants none
    no_unwind
{
    match t {
        Term::K1(x) => holds_terms(&**x),
        Term::S1(x) => holds_terms(&**x),
        Term::Promise(x) => holds_terms(&**x),
        Term::S2(x, y) => holds_terms(&**x) || holds_terms(&**y),
        Term::Apply(f, x) => holds_terms(&**f) || holds_terms(&**x),
        Term::ReifiedCont(_) => true,
        _ => false,
    }
}

/// Moves the pointer `child` to the list of work and leaves a pointer to a
/// leaf in its place. The leaf is made when it is first needed and shared
/// from then on. No destructor runs: the pointer changes hands, and the
/// term behind it is not looked at.
fn detach_child(
    child: &mut Rc<Term>,
    filler: &mut Option<Rc<Term>>,
    work: &mut RcStack<Rc<Term>>,
)
    requires
        is_filler(*old(filler)),
    ensures
        **final(child) == Term::K,
        final(work)@ == old(work)@.push(*old(child)),
        *final(filler) == Some(Rc::new(Term::K)),
        work_size(final(work)@) == work_size(old(work)@) + old(child)@.size(),
    opens_invariants none
    no_unwind
{
    let mut taken = match filler {
        Some(leaf) => rc_clone(leaf),
        None => rc_new(Term::K),
    };
    if let None = filler {
        *filler = Some(rc_clone(&taken));
    }
    core::mem::swap(child, &mut taken);
    defer(work, taken);
}

/// Moves what `t` holds to the list of work: every pointer to a subterm,
/// in the order of the fields and each replaced by a pointer to a leaf, and
/// the terms in the frames of a reified continuation, from the top frame
/// down, for as long as this term is the only owner of the frames. What
/// cannot be popped stays in `t`.
fn deconstruct_term(t: &mut Term, filler: &mut Option<Rc<Term>>, work: &mut RcStack<Rc<Term>>)
    requires
        is_filler(*old(filler)),
    ensures
        match *old(t) {
            Term::K1(x) => *final(t) == Term::K1(Rc::new(Term::K)) && final(work)@ == old(
                work,
            )@.push(x),
            Term::S1(x) => *final(t) == Term::S1(Rc::new(Term::K)) && final(work)@ == old(
                work,
            )@.push(x),
            Term::Promise(x) => *final(t) == Term::Promise(Rc::new(Term::K)) && final(work)@
                == old(work)@.push(x),
            Term::S2(x, y) => *final(t) == Term::S2(Rc::new(Term::K), Rc::new(Term::K))
                && final(work)@ == old(work)@.push(x).push(y),
            Term::Apply(f, x) => *final(t) == Term::Apply(Rc::new(Term::K), Rc::new(Term::K))
                && final(work)@ == old(work)@.push(f).push(x),
            Term::ReifiedCont(c) => *final(t) matches Term::ReifiedCont(rest) && rest@.len()
                <= c@.len() && rest@ == c@.take(rest@.len() as int) && final(work)@ == old(work)@
                + popped(c@, rest@.len()),
            _ => *final(t) == *old(t) && final(work)@ == old(work)@,
        },
        *final(filler) == (if has_children(*old(t)) {
            Some(Rc::new(Term::K))
        } else {
            *old(filler)
        }),
        !moves_any(*final(t)),
        work_size(final(work)@) + 1 <= work_size(old(work)@) + old(t)@.size(),
    opens_invariants none
    no_unwind
{
    match t {
        Term::K1(x) => detach_child(x, filler, work),
        Term::S1(x) => detach_child(x, filler, work),
        Term::Promise(x) => detach_child(x, filler, work),
        Term::S2(x, y) => {
            detach_child(x, filler, work);
            detach_child(y, filler, work);
        },
        Term::Apply(f, x) => {
            detach_child(f, filler, work);
            detach_child(x, filler, work);
        },
        Term::ReifiedCont(c) => {
            let ghost work0 = work@;
            let ghost entries0 = c@;
            let ghost stack0 = *c;
            let mut go = true;
            while go
                invariant
                    is_filler(*filler),
                    c@.len() <= entries0.len(),
                    c@ == entries0.take(c@.len() as int),
                    work@ == work0 + popped(entries0, c@.len()),
                decreases c@.len() + (if go { 1nat } else { 0nat }),
            {
                let ghost before = c@;
                let ghost done = popped(entries0, before.len());
                match c.try_pop_unwrap() {
                    Some(entry) => {
                        proof {
                            assert(c@ =~= entries0.take(c@.len() as int));
                            assert(entry == entries0[before.len() - 1]);
                            lemma_popped_step(entries0, c@.len());
                            assert(work0 + done.push(entry_term(entry)) =~= (work0 + done).push(
                                entry_term(entry),
                            ));
                        }
                        match entry {
                            ContEntry::Cont1(x) => defer(work, x),
                            ContEntry::Cont2(f) => defer(work, f),
                        }
                    },
                    None => {
                        go = false;
                    },
                }
            }
            proof {
                lemma_popped_size(stack0, c@.len());
                lemma_work_size_add(work0, popped(entries0, c@.len()));
            }
        },
        _ => {},
    }
}

/// One more pop adds the term of the frame that is then on top.
proof fn lemma_popped_step(entries: Seq<ContEntry>, left: nat)
    requires
        left < entries.len(),
    ensures
        popped(entries, left) == popped(entries, left + 1).push(entry_term(entries[left as int])),
    decreases entries.len(),
{
    if entries.len() == left + 1 {
        assert(popped(entries.drop_last(), left) == Seq::<Rc<Term>>::empty());
        assert(popped(entries, left + 1) == Seq::<Rc<Term>>::empty());
        assert(popped(entries, left) =~= Seq::<Rc<Term>>::empty().push(
            entry_term(entries[left as int]),
        ));
    } else {
        lemma_popped_step(entries.drop_last(), left);
        let first = seq![entry_term(entries.last())];
        assert(first + popped(entries.drop_last(), left + 1).push(
            entry_term(entries[left as int]),
        ) =~= (first + popped(entries.drop_last(), left + 1)).push(
            entry_term(entries[left as int]),
        ));
    }
}

impl Drop for Term {
    /// Frees the term and everything it alone keeps alive in a loop over a
    /// list of work, so that the depth of the term costs no host stack. What
    /// is left of the term for the language to free is one level deep: none
    /// of its subterms holds a term.
    fn drop(&mut self)
        ensures
            !moves_any(*final(self)),
        opens_invariants none
        no_unwind
    {
        if !needs_work(self) {
            return ;
        }
        let mut work: RcStack<Rc<Term>> = RcStack::new();
        let mut filler: Option<Rc<Term>> = None;
        deconstruct_term(self, &mut filler, &mut work);
        let mut go = true;
        while go
            invariant
                is_filler(filler),
                !moves_any(*self),
            decreases work_size(work@) + (if go { 1nat } else { 0nat }),
        {
            let ghost before = work@;
            match work.try_pop_unwrap() {
                Some(p) => {
                    proof {
                        lemma_size_positive(p@);
                        assert(work@ =~= before.drop_last());
                    }
                    match rc_try_unwrap(p) {
                        Ok(mut t) => deconstruct_term(&mut t, &mut filler, &mut work),
                        Err(_) => {},
                    }
                },
                None => {
                    go = false;
                },
            }
        }
    }
}

} // verus!
