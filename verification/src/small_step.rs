//! The small-step evaluator: a machine whose state is a continuation stack
//! and a focus, advanced one reduction at a time.
//!
//! The continuation is a persistent stack, so `C` captures it by cloning a
//! handle, and a captured continuation stays valid whatever the machine
//! pushes and pops afterwards.

use crate::ctx::Ctx;
use crate::model::{
    descend, frames_wf, reads_next, resume_spec, run_spec, small_step_spec, step_apply, Outcome,
    Resumed, SpecFrame, SpecTerm,
};
use crate::rc_stack::RcStack;
use crate::shared::rc_clone;
use crate::term::{outcome, EvalResult, Halt, Term};
use std::rc::Rc;
use vstd::prelude::*;

verus! {

/// One frame of the continuation.
#[derive(Debug)]
pub enum ContEntry {
    /// Evaluate this argument next; the current value is the function.
    Cont1(Rc<Term>),
    /// Apply this evaluated function to the current value.
    Cont2(Rc<Term>),
}

/// A continuation: the frames still to be run, the next one on top.
pub type Cont = RcStack<ContEntry>;

/// Either the next state of the machine, a continuation and the value handed
/// to it, or the final result.
pub type ContResult = Result<(Cont, Rc<Term>), EvalResult>;

impl View for ContEntry {
    type V = SpecFrame;

    open spec fn view(&self) -> SpecFrame
        decreases self, 0nat,
    {
        match *self {
            ContEntry::Cont1(x) => SpecFrame::Cont1((*x)@),
            ContEntry::Cont2(f) => SpecFrame::Cont2((*f)@),
        }
    }
}

impl Clone for ContEntry {
    fn clone(&self) -> (r: Self)
        ensures
            r == *self,
    {
        match self {
            ContEntry::Cont1(x) => ContEntry::Cont1(rc_clone(x)),
            ContEntry::Cont2(f) => ContEntry::Cont2(rc_clone(f)),
        }
    }
}

/// The first `n` frames of `s` as the model sees them.
pub open spec fn frames_prefix(s: Cont, n: nat) -> Seq<SpecFrame>
    decreases s, n,
{
    if n == 0 || n > s@.len() {
        Seq::empty()
    } else {
        proof {
            s.lemma_view_decreases(n - 1);
        }
        frames_prefix(s, (n - 1) as nat).push(s@[n - 1]@)
    }
}

/// The frames of `s` as the model sees them, bottom first.
pub open spec fn frames(s: Cont) -> Seq<SpecFrame>
    decreases s, s@.len() + 1,
{
    frames_prefix(s, s@.len())
}

/// How the model sees a state of the machine.
pub open spec fn resumed(r: ContResult) -> Resumed {
    match r {
        Ok((cont, value)) => Resumed::Next(frames(cont), (*value)@),
        Err(result) => Resumed::Done(outcome(result)),
    }
}

/// A state that the machine can be in: well-formed frames and a well-formed
/// value.
pub open spec fn state_wf(r: ContResult) -> bool {
    match r {
        Ok((cont, value)) => frames_wf(frames(cont)) && value@.wf() && value@.is_value(),
        Err(Ok(v)) => v@.wf() && v@.is_value(),
        Err(Err(Halt::Exit(p))) => p@.wf() && p@.is_value(),
        Err(Err(_)) => true,
    }
}

proof fn lemma_frames_prefix(s: Cont, n: nat)
    requires
        n <= s@.len(),
    ensures
        frames_prefix(s, n).len() == n,
        forall|i: int| 0 <= i < n ==> #[trigger] frames_prefix(s, n)[i] == s@[i]@,
    decreases n,
{
    if n > 0 {
        lemma_frames_prefix(s, (n - 1) as nat);
        assert(frames_prefix(s, n) == frames_prefix(s, (n - 1) as nat).push(s@[n - 1]@));
    } else {
        assert(frames_prefix(s, n) == Seq::<SpecFrame>::empty());
    }
}

/// The model's frames are the stack's elements, each seen by the model.
pub proof fn lemma_frames(s: Cont)
    ensures
        frames(s).len() == s@.len(),
        forall|i: int| 0 <= i < s@.len() ==> #[trigger] frames(s)[i] == s@[i]@,
{
    lemma_frames_prefix(s, s@.len());
}

/// Stacks with the same elements have the same frames.
pub proof fn lemma_frames_same(s1: Cont, s2: Cont)
    requires
        s1@ == s2@,
    ensures
        frames(s1) == frames(s2),
{
    lemma_frames(s1);
    lemma_frames(s2);
    assert(frames(s1) =~= frames(s2));
}

/// A push on the stack is a push on the frames.
pub proof fn lemma_frames_push(s1: Cont, s2: Cont, e: ContEntry)
    requires
        s2@ == s1@.push(e),
    ensures
        frames(s2) == frames(s1).push(e@),
{
    lemma_frames(s1);
    lemma_frames(s2);
    assert(frames(s2) =~= frames(s1).push(e@));
}

/// A pop on the stack is a pop on the frames.
pub proof fn lemma_frames_pop(s1: Cont, s2: Cont)
    requires
        s1@.len() > 0,
        s2@ == s1@.drop_last(),
    ensures
        frames(s2) == frames(s1).drop_last(),
        frames(s1).last() == s1@.last()@,
{
    lemma_frames(s1);
    lemma_frames(s2);
    assert(frames(s2) =~= frames(s1).drop_last());
}

/// Whether the next step under `cont` reads a character. A caller that
/// feeds the input as the run goes needs a character at hand, or to know
/// that the input has ended, before such a step and before no other.
pub fn wants_input(cont: &Cont) -> (b: bool)
    ensures
        b == reads_next(frames(*cont)),
{
    proof {
        lemma_frames(*cont);
    }
    match cont.peek() {
        Some(ContEntry::Cont2(f)) => match &**f {
            Term::Read => true,
            _ => false,
        },
        _ => false,
    }
}

/// One step of the machine: hands `value` to the top frame of `cont`.
pub fn resume(cont: Cont, value: Rc<Term>, ctx: &mut Ctx) -> (r: ContResult)
    requires
        frames_wf(frames(cont)),
        value@.wf(),
        value@.is_value(),
    ensures
        (resumed(r), final(ctx)@) == resume_spec(frames(cont), value@, old(ctx)@),
        state_wf(r),
{
    let mut cont = cont;
    let ghost before = cont;
    proof {
        lemma_frames(before);
    }
    let top = cont.pop_clone();
    proof {
        if before@.len() > 0 {
            lemma_frames_pop(before, cont);
        }
    }
    match top {
        None => Err(Ok(value)),
        Some(ContEntry::Cont1(x)) => {
            let ef = value;
            if let Term::D = &*ef {
                Ok((cont, Rc::new(Term::Promise(rc_clone(&x)))))
            } else {
                let ghost popped = cont;
                cont.push(ContEntry::Cont2(rc_clone(&ef)));
                proof {
                    lemma_frames_push(popped, cont, ContEntry::Cont2(ef));
                }
                eval(rc_clone(&x), cont)
            }
        },
        Some(ContEntry::Cont2(ef)) => apply(rc_clone(&ef), value, cont, ctx),
    }
}

/// Enters `term`: for as long as it is an application, puts its argument
/// aside on `cont` and goes on with its function. The loop runs once per
/// nested application and uses no host stack.
pub fn eval(term: Rc<Term>, cont: Cont) -> (r: ContResult)
    requires
        term@.wf(),
        frames_wf(frames(cont)),
    ensures
        r is Ok,
        resumed(r) == Resumed::Next(
            descend(term@, frames(cont)).0,
            descend(term@, frames(cont)).1,
        ),
        state_wf(r),
{
    let mut term = term;
    let mut cont = cont;
    let ghost term0 = term@;
    let ghost frames0 = frames(cont);
    loop
        invariant
            term@.wf(),
            frames_wf(frames(cont)),
            descend(term@, frames(cont)) == descend(term0, frames0),
        ensures
            term@.wf(),
            term@.is_value(),
            frames_wf(frames(cont)),
            (frames(cont), term@) == descend(term0, frames0),
        decreases term@,
    {
        let next = match &*term {
            Term::Apply(f, x) => {
                let ghost before = cont;
                cont.push(ContEntry::Cont1(rc_clone(x)));
                proof {
                    lemma_frames_push(before, cont, ContEntry::Cont1(*x));
                }
                Some(rc_clone(f))
            },
            _ => None,
        };
        match next {
            Some(f) => {
                term = f;
            },
            None => {
                break ;
            },
        }
    }
    Ok((cont, term))
}

/// Enters the application of `f` to `x`.
fn eval_of_apply(f: Rc<Term>, x: Rc<Term>, cont: Cont) -> (r: ContResult)
    requires
        f@.wf(),
        x@.wf(),
        frames_wf(frames(cont)),
    ensures
        r is Ok,
        resumed(r) == Resumed::Next(
            descend(f@, frames(cont).push(SpecFrame::Cont1(x@))).0,
            descend(f@, frames(cont).push(SpecFrame::Cont1(x@))).1,
        ),
        state_wf(r),
{
    let mut cont = cont;
    let ghost before = cont;
    cont.push(ContEntry::Cont1(rc_clone(&x)));
    proof {
        lemma_frames_push(before, cont, ContEntry::Cont1(x));
    }
    eval(f, cont)
}

/// Applies the operator `f` to the value `x` under the continuation `cont`.
fn apply(f: Rc<Term>, x: Rc<Term>, cont: Cont, ctx: &mut Ctx) -> (r: ContResult)
    requires
        f@.is_operator(),
        f@.wf(),
        x@.is_value(),
        x@.wf(),
        frames_wf(frames(cont)),
    ensures
        (resumed(r), final(ctx)@) == step_apply(f@, x@, frames(cont), old(ctx)@),
        state_wf(r),
{
    let result = match &*f {
        Term::K => Rc::new(Term::K1(x)),
        Term::K1(y) => rc_clone(y),
        Term::S => Rc::new(Term::S1(x)),
        Term::S1(y) => Rc::new(Term::S2(rc_clone(y), x)),
        Term::S2(y, z) => {
            let left = Rc::new(Term::Apply(rc_clone(y), rc_clone(&x)));
            let right = Rc::new(Term::Apply(rc_clone(z), rc_clone(&x)));
            assert(left@.wf() && right@.wf());
            return eval_of_apply(left, right, cont);
        },
        Term::Print(c) => {
            ctx.emit(*c);
            x
        },
        Term::I => x,
        Term::V => rc_clone(&f),
        Term::E => {
            return Err(Err(Halt::Exit(x)));
        },
        Term::Read => {
            let t = match ctx.read() {
                Some(_) => Rc::new(Term::I),
                None => Rc::new(Term::V),
            };
            assert(t@.wf());
            return eval_of_apply(x, t, cont);
        },
        Term::CompareRead(c) => {
            let t = match ctx.cur_char() {
                Some(cc) if cc == *c => Rc::new(Term::I),
                _ => Rc::new(Term::V),
            };
            assert(t@.wf());
            return eval_of_apply(x, t, cont);
        },
        Term::Reprint => {
            let t = match ctx.cur_char() {
                Some(c) => Rc::new(Term::Print(c)),
                None => Rc::new(Term::V),
            };
            assert(t@.wf());
            return eval_of_apply(x, t, cont);
        },
        Term::Promise(g) => {
            return eval_of_apply(rc_clone(g), x, cont);
        },
        Term::C => {
            let captured = cont.clone();
            proof {
                lemma_frames_same(captured, cont);
            }
            let c = Rc::new(Term::ReifiedCont(captured));
            assert(c@.wf());
            return eval_of_apply(x, c, cont);
        },
        Term::ReifiedCont(k) => {
            let target = k.clone();
            proof {
                lemma_frames_same(target, *k);
            }
            return Ok((target, x));
        },
        Term::Cont(_) => {
            return Err(Err(Halt::Unsupported));
        },
        Term::D => unreached(),
        Term::Apply(_, _) => unreached(),
    };
    Ok((cont, result))
}

/// Runs `term` on the machine for at most `fuel` steps.
pub fn full_eval(term: Rc<Term>, ctx: &mut Ctx, fuel: usize) -> (r: EvalResult)
    requires
        term@.wf(),
    ensures
        (outcome(r), final(ctx)@) == small_step_spec(term@, old(ctx)@, fuel as nat),
        r matches Ok(v) ==> v@.is_value() && v@.wf(),
        r matches Err(Halt::Exit(p)) ==> p@.is_value() && p@.wf(),
{
    let cont0: Cont = RcStack::new();
    proof {
        lemma_frames(cont0);
        assert(frames(cont0) =~= Seq::<SpecFrame>::empty());
    }
    let ghost k0 = descend(term@, Seq::empty()).0;
    let ghost v0 = descend(term@, Seq::empty()).1;
    let ghost w0 = ctx@;
    let mut state = eval(term, cont0);
    let mut left = fuel;
    loop
        invariant
            state_wf(state),
            (k0, v0) == descend(term@, Seq::empty()),
            w0 == old(ctx)@,
            run_spec(k0, v0, w0, fuel as nat) == (match resumed(state) {
                Resumed::Next(k, v) => run_spec(k, v, ctx@, left as nat),
                Resumed::Done(o) => (Resumed::Done(o), ctx@),
            }),
        decreases left + (if state is Ok { 1nat } else { 0nat }),
    {
        match state {
            Ok((cont, value)) => {
                if left == 0 {
                    return Err(Halt::OutOfFuel);
                }
                left -= 1;
                state = resume(cont, value, ctx);
            },
            Err(result) => {
                return result;
            },
        }
    }
}

} // verus!
