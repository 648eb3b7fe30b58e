//! The recursive evaluator: the language's definition written down as two
//! functions that call each other on the host stack.
//!
//! It is the shortest of the three evaluators and the one the others are
//! checked against. It cannot capture its own continuation, so it rejects
//! `C` where the program applies it.

use crate::ctx::Ctx;
use crate::model::{apply_spec, eval_spec, Outcome, SpecTerm};
use crate::shared::rc_clone;
use crate::term::{outcome, EvalResult, Halt, Term};
use std::rc::Rc;
use vstd::prelude::*;

verus! {

/// Evaluates `term`, with at most `fuel` nested calls.
///
/// The result is never an application, so evaluating it again returns it
/// unchanged and has no effect on `ctx`.
pub fn eval(term: Rc<Term>, ctx: &mut Ctx, fuel: usize) -> (r: EvalResult)
    requires
        term@.wf(),
    ensures
        (outcome(r), final(ctx)@) == eval_spec(term@, old(ctx)@, fuel as nat),
        r matches Ok(v) ==> v@.is_value() && v@.wf(),
        r matches Err(Halt::Exit(p)) ==> p@.is_value() && p@.wf(),
    decreases fuel, 0nat,
{
    match &*term {
        Term::Apply(f, x) => {
            if fuel == 0 {
                return Err(Halt::OutOfFuel);
            }
            let ef = match eval(rc_clone(f), ctx, fuel - 1) {
                Ok(ef) => ef,
                Err(halt) => {
                    return Err(halt);
                },
            };
            if let Term::D = &*ef {
                return Ok(Rc::new(Term::Promise(rc_clone(x))));
            }
            let ex = match eval(rc_clone(x), ctx, fuel - 1) {
                Ok(ex) => ex,
                Err(halt) => {
                    return Err(halt);
                },
            };
            apply(ef, ex, ctx, fuel - 1)
        },
        _ => Ok(term),
    }
}

/// Applies the operator `f` to the value `x`.
fn apply(f: Rc<Term>, x: Rc<Term>, ctx: &mut Ctx, fuel: usize) -> (r: EvalResult)
    requires
        f@.is_operator(),
        f@.wf(),
        x@.is_value(),
        x@.wf(),
    ensures
        (outcome(r), final(ctx)@) == apply_spec(f@, x@, old(ctx)@, fuel as nat),
        r matches Ok(v) ==> v@.is_value() && v@.wf(),
        r matches Err(Halt::Exit(p)) ==> p@.is_value() && p@.wf(),
    decreases fuel, 1nat,
{
    match &*f {
        Term::K => Ok(Rc::new(Term::K1(x))),
        Term::K1(y) => Ok(rc_clone(y)),
        Term::S => Ok(Rc::new(Term::S1(x))),
        Term::S1(y) => Ok(Rc::new(Term::S2(rc_clone(y), x))),
        // y, z and x are values already, but `D` is a special form that only
        // `eval` knows: the two applications go through it again.
        Term::S2(y, z) => {
            let left = Rc::new(Term::Apply(rc_clone(y), rc_clone(&x)));
            let right = Rc::new(Term::Apply(rc_clone(z), rc_clone(&x)));
            assert(left@.wf() && right@.wf());
            eval(Rc::new(Term::Apply(left, right)), ctx, fuel)
        },
        Term::Print(c) => {
            ctx.emit(*c);
            Ok(x)
        },
        Term::I => Ok(x),
        Term::V => Ok(f),
        Term::E => Err(Halt::Exit(x)),
        Term::Read => {
            let t = match ctx.read() {
                Some(_) => Rc::new(Term::I),
                None => Rc::new(Term::V),
            };
            assert(t@.wf());
            eval(Rc::new(Term::Apply(x, t)), ctx, fuel)
        },
        Term::CompareRead(c) => {
            let t = match ctx.cur_char() {
                Some(cc) if cc == *c => Rc::new(Term::I),
                _ => Rc::new(Term::V),
            };
            assert(t@.wf());
            eval(Rc::new(Term::Apply(x, t)), ctx, fuel)
        },
        Term::Reprint => {
            let t = match ctx.cur_char() {
                Some(c) => Rc::new(Term::Print(c)),
                None => Rc::new(Term::V),
            };
            assert(t@.wf());
            eval(Rc::new(Term::Apply(x, t)), ctx, fuel)
        },
        Term::Promise(g) => eval(Rc::new(Term::Apply(rc_clone(g), x)), ctx, fuel),
        Term::C => Err(Halt::Unsupported),
        Term::Cont(_) => Err(Halt::Unsupported),
        Term::ReifiedCont(_) => Err(Halt::Unsupported),
        Term::D => unreached(),
        Term::Apply(_, _) => unreached(),
    }
}

/// The nodes still to be visited.
spec fn pending_size(q: Seq<&Term>) -> nat
    decreases q.len(),
{
    if q.len() == 0 {
        0
    } else {
        pending_size(q.drop_last()) + q.last()@.spine_size()
    }
}

/// Whether `C` occurs in one of the terms still to be visited.
spec fn pending_mentions_c(q: Seq<&Term>) -> bool {
    exists|i: int| 0 <= i < q.len() && (#[trigger] q[i])@.mentions_c()
}

/// Whether the program `t` uses `C`. The scan keeps its own list of terms to
/// visit and so needs no host stack, however deep the program is.
pub fn contains_c(t: &Term) -> (found: bool)
    ensures
        found == t@.mentions_c(),
{
    let mut q: Vec<&Term> = Vec::new();
    q.push(t);
    assert(q@[0]@.mentions_c() == t@.mentions_c());
    loop
        invariant
            pending_mentions_c(q@) == t@.mentions_c(),
        decreases pending_size(q@),
    {
        let ghost before = q@;
        match q.pop() {
            None => {
                return false;
            },
            Some(cur) => {
                assert(q@ =~= before.drop_last());
                assert(cur == before[before.len() - 1]);
                match cur {
                    Term::C => {
                        return true;
                    },
                    Term::Apply(f, x) => {
                        let ghost rest = q@;
                        q.push(&**f);
                        let ghost mid = q@;
                        q.push(&**x);
                        proof {
                            assert(mid.drop_last() =~= rest);
                            assert(q@.drop_last() =~= mid);
                            assert(mid.last()@ == f@);
                            assert(q@.last()@ == x@);
                            assert(pending_size(mid) == pending_size(rest) + f@.spine_size());
                            assert(pending_size(q@) == pending_size(mid) + x@.spine_size());
                            assert(pending_size(before) == pending_size(rest)
                                + cur@.spine_size());
                            if pending_mentions_c(before) {
                                let i = choose|i: int|
                                    0 <= i < before.len() && (#[trigger] before[i])@.mentions_c();
                                if i < rest.len() {
                                    assert(q@[i] == before[i]);
                                } else if f@.mentions_c() {
                                    assert(q@[rest.len() as int]@.mentions_c());
                                } else {
                                    assert(q@[rest.len() as int + 1]@.mentions_c());
                                }
                            }
                            if pending_mentions_c(q@) {
                                let i = choose|i: int|
                                    0 <= i < q@.len() && (#[trigger] q@[i])@.mentions_c();
                                if i < rest.len() {
                                    assert(before[i] == q@[i]);
                                } else {
                                    assert(before[before.len() - 1]@.mentions_c());
                                }
                            }
                        }
                    },
                    _ => {
                        proof {
                            if pending_mentions_c(before) {
                                let i = choose|i: int|
                                    0 <= i < before.len() && (#[trigger] before[i])@.mentions_c();
                                assert(q@[i] == before[i]);
                            }
                            if pending_mentions_c(q@) {
                                let i = choose|i: int|
                                    0 <= i < q@.len() && (#[trigger] q@[i])@.mentions_c();
                                assert(before[i] == q@[i]);
                            }
                        }
                    },
                }
            },
        }
    }
}

} // verus!
