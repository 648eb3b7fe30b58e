//! The continuation-passing evaluator, run by a trampoline.
//!
//! Every call that would nest is put off instead: it is handed back to the
//! trampoline as a step, so the host stack stays shallow however deep the
//! program goes. A continuation is a value, which is what lets `C` capture
//! it.

use crate::ctx::Ctx;
use crate::model::{
    bounce_reads, cps_apply, cps_eval, cps_invoke, cps_run, cps_spec, cps_step, Bounce, Outcome,
    SpecKont, SpecStep, SpecTerm,
};
use crate::shared::rc_clone;
use crate::term::{outcome, EvalResult, Halt, Term};
use std::rc::Rc;
use vstd::prelude::*;

verus! {

/// A continuation: what to do with the value of the term at hand.
#[derive(Debug)]
pub enum Kont {
    /// The computation is over; the value is its result.
    Halt,
    /// The value is a function: evaluate this argument next.
    EvalArg(Rc<Term>, Rc<Kont>),
    /// The value is an argument: apply this evaluated function to it.
    ApplyTo(Rc<Term>, Rc<Kont>),
}

/// A call that was put off, to be made by the trampoline.
#[derive(Debug)]
pub enum Step {
    /// Evaluate the term under the continuation.
    Eval(Rc<Term>, Rc<Kont>),
    /// Hand the value to the continuation.
    Return(Rc<Kont>, Rc<Term>),
    /// Apply the operator to the value under the continuation.
    Apply(Rc<Term>, Rc<Term>, Rc<Kont>),
}

/// What a call hands back to the trampoline.
#[derive(Debug)]
pub enum ContResult {
    /// The call to make next.
    NextStep(Step),
    /// The result of the whole computation.
    Finished(EvalResult),
}

impl View for Kont {
    type V = SpecKont;

    open spec fn view(&self) -> SpecKont
        decreases self, 0nat,
    {
        match *self {
            Kont::Halt => SpecKont::Halt,
            Kont::EvalArg(x, next) => SpecKont::EvalArg((*x)@, Box::new((*next)@)),
            Kont::ApplyTo(f, next) => SpecKont::ApplyTo((*f)@, Box::new((*next)@)),
        }
    }
}

impl View for Step {
    type V = SpecStep;

    open spec fn view(&self) -> SpecStep {
        match *self {
            Step::Eval(t, k) => SpecStep::Eval((*t)@, (*k)@),
            Step::Return(k, v) => SpecStep::Return((*k)@, (*v)@),
            Step::Apply(f, x, k) => SpecStep::Apply((*f)@, (*x)@, (*k)@),
        }
    }
}

impl View for ContResult {
    type V = Bounce;

    open spec fn view(&self) -> Bounce {
        match *self {
            ContResult::NextStep(step) => Bounce::Next(step@),
            ContResult::Finished(result) => Bounce::Done(outcome(result)),
        }
    }
}

/// Evaluates `term` under `cont`: an application puts off the evaluation of
/// its function, a value puts off its own return.
fn eval(term: Rc<Term>, cont: Rc<Kont>) -> (r: ContResult)
    requires
        term@.wf(),
        cont@.wf(),
    ensures
        r@ == cps_eval(term@, cont@),
        r@.wf(),
{
    let parts = match &*term {
        Term::Apply(f, x) => Some((rc_clone(f), rc_clone(x))),
        _ => None,
    };
    match parts {
        Some((f, x)) => ContResult::NextStep(Step::Eval(f, Rc::new(Kont::EvalArg(x, cont)))),
        None => ContResult::NextStep(Step::Return(cont, term)),
    }
}

/// Hands `value` to the continuation `cont`.
fn invoke(cont: &Kont, value: Rc<Term>) -> (r: ContResult)
    requires
        cont@.wf(),
        value@.wf(),
        value@.is_value(),
    ensures
        r@ == cps_invoke(cont@, value@),
        r@.wf(),
{
    match cont {
        Kont::Halt => ContResult::Finished(Ok(value)),
        Kont::EvalArg(x, next) => {
            let ef = value;
            if let Term::D = &*ef {
                ContResult::NextStep(
                    Step::Return(rc_clone(next), Rc::new(Term::Promise(rc_clone(x)))),
                )
            } else {
                eval(rc_clone(x), Rc::new(Kont::ApplyTo(ef, rc_clone(next))))
            }
        },
        Kont::ApplyTo(ef, next) => ContResult::NextStep(
            Step::Apply(rc_clone(ef), value, rc_clone(next)),
        ),
    }
}

/// Applies the operator `f` to the value `x` under the continuation `cont`.
fn apply(f: Rc<Term>, x: Rc<Term>, ctx: &mut Ctx, cont: Rc<Kont>) -> (r: ContResult)
    requires
        f@.is_operator(),
        f@.wf(),
        x@.is_value(),
        x@.wf(),
        cont@.wf(),
    ensures
        (r@, final(ctx)@) == cps_apply(f@, x@, cont@, old(ctx)@),
        r@.wf(),
{
    let value = match &*f {
        Term::K => Rc::new(Term::K1(x)),
        Term::K1(y) => rc_clone(y),
        Term::S => Rc::new(Term::S1(x)),
        Term::S1(y) => Rc::new(Term::S2(rc_clone(y), x)),
        Term::S2(y, z) => {
            let left = Rc::new(Term::Apply(rc_clone(y), rc_clone(&x)));
            let right = Rc::new(Term::Apply(rc_clone(z), rc_clone(&x)));
            assert(left@.wf() && right@.wf());
            return eval(Rc::new(Term::Apply(left, right)), cont);
        },
        Term::Print(c) => {
            ctx.emit(*c);
            x
        },
        Term::I => x,
        Term::V => rc_clone(&f),
        Term::E => {
            return ContResult::Finished(Err(Halt::Exit(x)));
        },
        Term::Read => {
            let t = match ctx.read() {
                Some(_) => Rc::new(Term::I),
                None => Rc::new(Term::V),
            };
            assert(t@.wf());
            return eval(Rc::new(Term::Apply(x, t)), cont);
        },
        Term::CompareRead(c) => {
            let t = match ctx.cur_char() {
                Some(cc) if cc == *c => Rc::new(Term::I),
                _ => Rc::new(Term::V),
            };
            assert(t@.wf());
            return eval(Rc::new(Term::Apply(x, t)), cont);
        },
        Term::Reprint => {
            let t = match ctx.cur_char() {
                Some(c) => Rc::new(Term::Print(c)),
                None => Rc::new(Term::V),
            };
            assert(t@.wf());
            return eval(Rc::new(Term::Apply(x, t)), cont);
        },
        Term::Promise(g) => {
            return eval(Rc::new(Term::Apply(rc_clone(g), x)), cont);
        },
        Term::C => {
            let captured = Rc::new(Term::Cont(rc_clone(&cont)));
            assert(captured@.wf());
            return eval(Rc::new(Term::Apply(x, captured)), cont);
        },
        Term::Cont(target) => {
            return invoke(&**target, x);
        },
        Term::ReifiedCont(_) => {
            return ContResult::Finished(Err(Halt::Unsupported));
        },
        Term::D => unreached(),
        Term::Apply(_, _) => unreached(),
    };
    invoke(&*cont, value)
}

/// Whether the call that `step` stands for reads a character. A caller that
/// feeds the input as the run goes needs a character at hand, or to know
/// that the input has ended, before such a call and before no other.
pub fn wants_input(step: &Step) -> (b: bool)
    ensures
        b == bounce_reads(step@),
{
    match step {
        Step::Apply(f, _, _) => match &**f {
            Term::Read => true,
            _ => false,
        },
        _ => false,
    }
}

/// The call that starts the evaluation of `term`.
pub fn start(term: Rc<Term>) -> (r: ContResult)
    requires
        term@.wf(),
    ensures
        r@ == Bounce::Next(SpecStep::Eval(term@, SpecKont::Halt)),
        r@.wf(),
{
    ContResult::NextStep(Step::Eval(term, Rc::new(Kont::Halt)))
}

/// One bounce of the trampoline: makes the call that `step` stands for.
pub fn run(step: Step, ctx: &mut Ctx) -> (r: ContResult)
    requires
        step@.wf(),
    ensures
        (r@, final(ctx)@) == cps_step(step@, old(ctx)@),
        r@.wf(),
{
    match step {
        Step::Eval(term, cont) => eval(term, cont),
        Step::Return(cont, value) => invoke(&*cont, value),
        Step::Apply(f, x, cont) => apply(f, x, ctx, cont),
    }
}

/// Runs `term` on the trampoline for at most `fuel` bounces.
pub fn full_eval(term: Rc<Term>, ctx: &mut Ctx, fuel: usize) -> (r: EvalResult)
    requires
        term@.wf(),
    ensures
        (outcome(r), final(ctx)@) == cps_spec(term@, old(ctx)@, fuel as nat),
        r matches Ok(v) ==> v@.is_value() && v@.wf(),
        r matches Err(Halt::Exit(p)) ==> p@.is_value() && p@.wf(),
{
    let ghost start = Bounce::Next(SpecStep::Eval(term@, SpecKont::Halt));
    let mut r = self::start(term);
    let mut left = fuel;
    loop
        invariant
            r@.wf(),
            start == Bounce::Next(SpecStep::Eval(term@, SpecKont::Halt)),
            cps_run(start, old(ctx)@, fuel as nat) == cps_run(r@, ctx@, left as nat),
        decreases left + (if r is NextStep { 1nat } else { 0nat }),
    {
        match r {
            ContResult::NextStep(step) => {
                if left == 0 {
                    return Err(Halt::OutOfFuel);
                }
                left -= 1;
                r = run(step, ctx);
            },
            ContResult::Finished(result) => {
                return result;
            },
        }
    }
}

} // verus!
