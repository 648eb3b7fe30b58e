//! What holds of the three evaluators, proved of their models.
//!
//! Each evaluator is verified to compute its model exactly, so what is
//! proved here of `eval_spec`, `small_step_spec` and `cps_spec` holds of
//! `metacircular::eval`, `small_step::full_eval` and `cps::full_eval`.

use crate::model::{
    apply_rule, apply_spec, bounce_reads, cps_apply, cps_eval, cps_invoke, cps_run, cps_spec,
    cps_step, descend, eval_spec, reads_next, resume_spec, run_spec, small_step_spec, step_apply,
    Applied, Bounce, Outcome, Resumed, SpecFrame, SpecKont, SpecStep, SpecTerm, World,
};
use crate::parser::{
    lemma_parsed_is_program, parse_spec, parse_term, primitive, trailing, ParseError,
};
use vstd::prelude::*;

verus! {

/// An evaluation has finished when it has a value or was ended by `E`,
/// rather than given up.
pub open spec fn finished(o: Outcome) -> bool {
    o is Value || o is Exit
}

/// The small-step machine run on from a state that may be final.
pub open spec fn run_more(state: (Resumed, World), n: nat) -> (Resumed, World) {
    match state.0 {
        Resumed::Next(k, v) => run_spec(k, v, state.1, n),
        Resumed::Done(o) => state,
    }
}

/// Running `a` steps and then `b` more is running `a + b` steps.
pub proof fn lemma_run_add(k: Seq<SpecFrame>, v: SpecTerm, w: World, a: nat, b: nat)
    ensures
        run_more(run_spec(k, v, w, a), b) == run_spec(k, v, w, a + b),
    decreases a,
{
    if a > 0 {
        match resume_spec(k, v, w) {
            (Resumed::Next(k2, v2), w2) => {
                lemma_run_add(k2, v2, w2, (a - 1) as nat, b);
            },
            (Resumed::Done(o), w2) => {},
        }
    }
}

/// Running one step is making one step.
pub proof fn lemma_run_one(k: Seq<SpecFrame>, v: SpecTerm, w: World)
    ensures
        run_spec(k, v, w, 1) == resume_spec(k, v, w),
{
    match resume_spec(k, v, w) {
        (Resumed::Next(k2, v2), w2) => {
            assert(run_spec(k2, v2, w2, 0) == (Resumed::Next(k2, v2), w2));
        },
        (Resumed::Done(o), w2) => {},
    }
}

/// A machine that has stopped stays stopped: more steps change nothing.
pub proof fn lemma_run_stable(k: Seq<SpecFrame>, v: SpecTerm, w: World, a: nat, b: nat)
    requires
        run_spec(k, v, w, a).0 is Done,
        a <= b,
    ensures
        run_spec(k, v, w, b) == run_spec(k, v, w, a),
{
    lemma_run_add(k, v, w, a, (b - a) as nat);
}

/// What the small-step machine has reached when it has done, under the
/// continuation `k`, what the recursive evaluator did to get `result`.
pub open spec fn reached(state: (Resumed, World), result: (Outcome, World), k: Seq<SpecFrame>)
    -> bool {
    match result.0 {
        Outcome::Value(v) => state == (Resumed::Next(k, v), result.1),
        Outcome::Exit(p) => state == (Resumed::Done(Outcome::Exit(p)), result.1),
        _ => true,
    }
}

/// The small-step machine follows the recursive evaluator. Where the
/// recursive evaluation of `t` finishes, the machine that enters `t` under
/// any continuation `k` gets, in the number of steps returned, to the point
/// where the value is handed to `k`, or to the same exit, and to the same
/// world.
pub proof fn lemma_small_step_follows_eval(
    t: SpecTerm,
    w: World,
    fuel: nat,
    k: Seq<SpecFrame>,
) -> (n: nat)
    requires
        finished(eval_spec(t, w, fuel).0),
    ensures
        reached(
            run_spec(descend(t, k).0, descend(t, k).1, w, n),
            eval_spec(t, w, fuel),
            k,
        ),
    decreases fuel, 0nat,
{
    match t {
        SpecTerm::Apply(f, x) => {
            let (rf, w1) = eval_spec(*f, w, (fuel - 1) as nat);
            let k1 = k.push(SpecFrame::Cont1(*x));
            let (s0, t0) = descend(t, k);
            assert((s0, t0) == descend(*f, k1));
            let n1 = lemma_small_step_follows_eval(*f, w, (fuel - 1) as nat, k1);
            match rf {
                Outcome::Value(ef) => {
                    assert(k1.drop_last() =~= k);
                    assert(k1.last() == SpecFrame::Cont1(*x));
                    assert(run_spec(s0, t0, w, n1) == (Resumed::Next(k1, ef), w1));
                    lemma_run_add(s0, t0, w, n1, 1);
                    lemma_run_one(k1, ef, w1);
                    if ef is D {
                        n1 + 1
                    } else {
                        let (rx, w2) = eval_spec(*x, w1, (fuel - 1) as nat);
                        let k2 = k.push(SpecFrame::Cont2(ef));
                        let (s2, t2) = descend(*x, k2);
                        assert(run_spec(s0, t0, w, n1 + 1) == (Resumed::Next(s2, t2), w1));
                        let n2 = lemma_small_step_follows_eval(*x, w1, (fuel - 1) as nat, k2);
                        lemma_run_add(s0, t0, w, n1 + 1, n2);
                        match rx {
                            Outcome::Value(ex) => {
                                assert(k2.drop_last() =~= k);
                                assert(k2.last() == SpecFrame::Cont2(ef));
                                assert(run_spec(s0, t0, w, n1 + 1 + n2) == (
                                    Resumed::Next(k2, ex),
                                    w2,
                                ));
                                let n3 = lemma_small_step_follows_apply(
                                    ef,
                                    ex,
                                    w2,
                                    (fuel - 1) as nat,
                                    k,
                                );
                                lemma_run_add(s0, t0, w, n1 + 1 + n2, 1);
                                lemma_run_one(k2, ex, w2);
                                assert(run_spec(s0, t0, w, n1 + 1 + n2 + 1) == step_apply(
                                    ef,
                                    ex,
                                    k,
                                    w2,
                                ));
                                lemma_run_add(s0, t0, w, n1 + 1 + n2 + 1, n3);
                                n1 + 1 + n2 + 1 + n3
                            },
                            _ => n1 + 1 + n2,
                        }
                    }
                },
                _ => n1,
            }
        },
        _ => 0,
    }
}

/// The small-step machine follows the recursive evaluator through an
/// application: after the step that applies `f` to `x` under `k`, the number
/// of steps returned gets it to where `apply_spec` gets.
pub proof fn lemma_small_step_follows_apply(
    f: SpecTerm,
    x: SpecTerm,
    w: World,
    fuel: nat,
    k: Seq<SpecFrame>,
) -> (n: nat)
    requires
        finished(apply_spec(f, x, w, fuel).0),
    ensures
        reached(run_more(step_apply(f, x, k, w), n), apply_spec(f, x, w, fuel), k),
    decreases fuel, 1nat,
{
    match apply_rule(f, x, w) {
        (Applied::Redex(g, y), w1) => {
            let t = SpecTerm::Apply(Box::new(g), Box::new(y));
            assert(descend(t, k) == descend(g, k.push(SpecFrame::Cont1(y))));
            lemma_small_step_follows_eval(t, w1, fuel, k)
        },
        _ => 0,
    }
}

/// The trampoline run on from a state and at most `a` bounces, then at most
/// `b` more, is the trampoline run for at most `a + b` bounces.
pub proof fn lemma_cps_run_add(b0: Bounce, w: World, a: nat, b: nat)
    ensures
        cps_run(cps_run(b0, w, a).0, cps_run(b0, w, a).1, b) == cps_run(b0, w, a + b),
    decreases a,
{
    match b0 {
        Bounce::Done(_) => {},
        Bounce::Next(step) => {
            if a > 0 {
                let (b2, w2) = cps_step(step, w);
                lemma_cps_run_add(b2, w2, (a - 1) as nat, b);
            }
        },
    }
}

/// One bounce makes the call that was put off.
pub proof fn lemma_cps_run_one(step: SpecStep, w: World)
    ensures
        cps_run(Bounce::Next(step), w, 1) == cps_step(step, w),
{
    let (b2, w2) = cps_step(step, w);
    assert(cps_run(b2, w2, 0) == (b2, w2));
}

/// A trampoline that has stopped stays stopped.
pub proof fn lemma_cps_run_stable(b0: Bounce, w: World, a: nat, b: nat)
    requires
        cps_run(b0, w, a).0 is Done,
        a <= b,
    ensures
        cps_run(b0, w, b) == cps_run(b0, w, a),
{
    lemma_cps_run_add(b0, w, a, (b - a) as nat);
}

/// What the trampoline has reached when it has done, under the continuation
/// `k`, what the recursive evaluator did to get `result`.
pub open spec fn cps_reached(state: (Bounce, World), result: (Outcome, World), k: SpecKont)
    -> bool {
    match result.0 {
        Outcome::Value(v) => state == (cps_invoke(k, v), result.1),
        Outcome::Exit(p) => state == (Bounce::Done(Outcome::Exit(p)), result.1),
        _ => true,
    }
}

/// The trampoline follows the recursive evaluator. Where the recursive
/// evaluation of `t` finishes, the trampoline that evaluates `t` under any
/// continuation `k` gets, in exactly the number of bounces returned, to the
/// point where the value is handed to `k`, or to the same exit, and to the
/// same world.
pub proof fn lemma_cps_follows_eval(t: SpecTerm, w: World, fuel: nat, k: SpecKont) -> (n: nat)
    requires
        finished(eval_spec(t, w, fuel).0),
    ensures
        cps_reached(cps_run(cps_eval(t, k), w, n), eval_spec(t, w, fuel), k),
    decreases fuel, 0nat,
{
    let start = cps_eval(t, k);
    match t {
        SpecTerm::Apply(f, x) => {
            let (rf, w1) = eval_spec(*f, w, (fuel - 1) as nat);
            let k1 = SpecKont::EvalArg(*x, Box::new(k));
            let n1 = lemma_cps_follows_eval(*f, w, (fuel - 1) as nat, k1);
            // one bounce gets from `start` to the evaluation of `f`
            lemma_cps_run_one(SpecStep::Eval(*f, k1), w);
            assert(cps_run(start, w, 1) == (cps_eval(*f, k1), w));
            lemma_cps_run_add(start, w, 1, n1);
            match rf {
                Outcome::Value(ef) => {
                    assert(cps_run(start, w, 1 + n1) == (cps_invoke(k1, ef), w1));
                    if ef is D {
                        let promise = SpecTerm::Promise(Box::new(*x));
                        lemma_cps_run_one(SpecStep::Return(k, promise), w1);
                        lemma_cps_run_add(start, w, 1 + n1, 1);
                        1 + n1 + 1
                    } else {
                        let (rx, w2) = eval_spec(*x, w1, (fuel - 1) as nat);
                        let k2 = SpecKont::ApplyTo(ef, Box::new(k));
                        assert(cps_invoke(k1, ef) == cps_eval(*x, k2));
                        let n2 = lemma_cps_follows_eval(*x, w1, (fuel - 1) as nat, k2);
                        lemma_cps_run_add(start, w, 1 + n1, n2);
                        match rx {
                            Outcome::Value(ex) => {
                                assert(cps_run(start, w, 1 + n1 + n2) == (
                                    cps_invoke(k2, ex),
                                    w2,
                                ));
                                let n3 = lemma_cps_follows_apply(
                                    ef,
                                    ex,
                                    w2,
                                    (fuel - 1) as nat,
                                    k,
                                );
                                lemma_cps_run_one(SpecStep::Apply(ef, ex, k), w2);
                                lemma_cps_run_add(start, w, 1 + n1 + n2, 1);
                                assert(cps_run(start, w, 1 + n1 + n2 + 1) == cps_apply(
                                    ef,
                                    ex,
                                    k,
                                    w2,
                                ));
                                lemma_cps_run_add(start, w, 1 + n1 + n2 + 1, n3);
                                1 + n1 + n2 + 1 + n3
                            },
                            _ => 1 + n1 + n2,
                        }
                    }
                },
                _ => 1 + n1,
            }
        },
        _ => {
            lemma_cps_run_one(SpecStep::Return(k, t), w);
            assert(cps_run(start, w, 1) == (cps_invoke(k, t), w));
            1
        },
    }
}

/// The trampoline follows the recursive evaluator through an application.
pub proof fn lemma_cps_follows_apply(
    f: SpecTerm,
    x: SpecTerm,
    w: World,
    fuel: nat,
    k: SpecKont,
) -> (n: nat)
    requires
        finished(apply_spec(f, x, w, fuel).0),
    ensures
        cps_reached(
            cps_run(cps_apply(f, x, k, w).0, cps_apply(f, x, k, w).1, n),
            apply_spec(f, x, w, fuel),
            k,
        ),
    decreases fuel, 1nat,
{
    match apply_rule(f, x, w) {
        (Applied::Redex(g, y), w1) => {
            let t = SpecTerm::Apply(Box::new(g), Box::new(y));
            lemma_cps_follows_eval(t, w1, fuel, k)
        },
        _ => 0,
    }
}

/// Evaluation idempotence: a value evaluates to itself, at once and with no
/// effect on the world, on each of the three evaluators. The recursive
/// evaluator needs no fuel for it; the machine needs one step to stop and
/// the trampoline two bounces.
pub proof fn law_values_evaluate_to_themselves(v: SpecTerm, w: World, fuel: nat)
    requires
        v.is_value(),
    ensures
        eval_spec(v, w, fuel) == (Outcome::Value(v), w),
        fuel >= 1 ==> small_step_spec(v, w, fuel) == (Outcome::Value(v), w),
        fuel >= 2 ==> cps_spec(v, w, fuel) == (Outcome::Value(v), w),
{
    let empty = Seq::<SpecFrame>::empty();
    if fuel >= 1 {
        lemma_run_one(empty, v, w);
        lemma_run_stable(empty, v, w, 1, fuel);
    }
    if fuel >= 2 {
        let start = Bounce::Next(SpecStep::Eval(v, SpecKont::Halt));
        lemma_cps_run_one(SpecStep::Eval(v, SpecKont::Halt), w);
        lemma_cps_run_one(SpecStep::Return(SpecKont::Halt, v), w);
        lemma_cps_run_add(start, w, 1, 1);
        lemma_cps_run_stable(start, w, 2, fuel);
    }
}

/// What an evaluator returns is a value: no evaluation ends with an
/// application still to be evaluated, given a well-formed term to start
/// from. So the result of one evaluation is left alone by the next.
pub proof fn law_results_are_values(t: SpecTerm, w: World, fuel: nat)
    requires
        t.wf(),
    ensures
        eval_spec(t, w, fuel).0 matches Outcome::Value(v) ==> v.is_value() && v.wf() && eval_spec(
            v,
            eval_spec(t, w, fuel).1,
            fuel,
        ) == eval_spec(t, w, fuel),
        eval_spec(t, w, fuel).0 matches Outcome::Exit(p) ==> p.is_value() && p.wf(),
    decreases fuel, 0nat,
{
    match t {
        SpecTerm::Apply(f, x) => {
            if fuel > 0 {
                law_results_are_values(*f, w, (fuel - 1) as nat);
                let (rf, w1) = eval_spec(*f, w, (fuel - 1) as nat);
                if let Outcome::Value(ef) = rf {
                    if !(ef is D) {
                        law_results_are_values(*x, w1, (fuel - 1) as nat);
                        let (rx, w2) = eval_spec(*x, w1, (fuel - 1) as nat);
                        if let Outcome::Value(ex) = rx {
                            lemma_apply_results_are_values(ef, ex, w2, (fuel - 1) as nat);
                        }
                    }
                }
            }
        },
        _ => {},
    }
}

/// What an application returns is a value.
proof fn lemma_apply_results_are_values(f: SpecTerm, x: SpecTerm, w: World, fuel: nat)
    requires
        f.is_operator(),
        f.wf(),
        x.is_value(),
        x.wf(),
    ensures
        apply_spec(f, x, w, fuel).0 matches Outcome::Value(v) ==> v.is_value() && v.wf(),
        apply_spec(f, x, w, fuel).0 matches Outcome::Exit(p) ==> p.is_value() && p.wf(),
    decreases fuel, 1nat,
{
    match apply_rule(f, x, w) {
        (Applied::Redex(g, y), w1) => {
            let t = SpecTerm::Apply(Box::new(g), Box::new(y));
            assert(g.wf() && y.wf());
            law_results_are_values(t, w1, fuel);
        },
        _ => {},
    }
}

/// `V` absorbs: where `t` has a value, the application of `V` to `t` has the
/// value `V`, and the world is left as the evaluation of `t` leaves it. One
/// more level of depth pays for the application.
pub proof fn law_v_absorbs(t: SpecTerm, w: World, fuel: nat)
    requires
        eval_spec(t, w, fuel).0 is Value,
    ensures
        eval_spec(SpecTerm::Apply(Box::new(SpecTerm::V), Box::new(t)), w, fuel + 1) == (
            Outcome::Value(SpecTerm::V),
            eval_spec(t, w, fuel).1,
        ),
{
    let (rx, w2) = eval_spec(t, w, fuel);
    assert((fuel + 1 - 1) as nat == fuel);
    assert(eval_spec(SpecTerm::V, w, fuel) == (Outcome::Value(SpecTerm::V), w));
    assert(apply_spec(SpecTerm::V, rx->Value_0, w2, fuel) == (Outcome::Value(SpecTerm::V), w2));
}

/// `I` is the identity: the application of `I` to `t` ends as the evaluation
/// of `t` ends, with the same value or the same exit or out of fuel alike,
/// and in the same world. One more level of depth pays for the application.
pub proof fn law_i_is_identity(t: SpecTerm, w: World, fuel: nat)
    ensures
        eval_spec(SpecTerm::Apply(Box::new(SpecTerm::I), Box::new(t)), w, fuel + 1) == eval_spec(
            t,
            w,
            fuel,
        ),
{
    let (rx, w2) = eval_spec(t, w, fuel);
    assert((fuel + 1 - 1) as nat == fuel);
    assert(eval_spec(SpecTerm::I, w, fuel) == (Outcome::Value(SpecTerm::I), w));
    if let Outcome::Value(ex) = rx {
        assert(apply_spec(SpecTerm::I, ex, w2, fuel) == (Outcome::Value(ex), w2));
    }
}

/// `V` absorbs and `I` is the identity on the small-step machine and on the
/// trampoline too: where `t` has a value by the recursive evaluator, both
/// give `V` for the application of `V` to `t` and the value of `t` for the
/// application of `I` to `t`, in the world that the evaluation of `t` leaves,
/// once their budget is at least the one returned.
pub proof fn law_v_and_i_on_the_machines(t: SpecTerm, w: World, fuel: nat, budget: nat) -> (enough:
    nat)
    requires
        eval_spec(t, w, fuel).0 is Value,
    ensures
        budget >= enough ==> {
            let v_t = SpecTerm::Apply(Box::new(SpecTerm::V), Box::new(t));
            let i_t = SpecTerm::Apply(Box::new(SpecTerm::I), Box::new(t));
            let w1 = eval_spec(t, w, fuel).1;
            &&& small_step_spec(v_t, w, budget) == (Outcome::Value(SpecTerm::V), w1)
            &&& cps_spec(v_t, w, budget) == (Outcome::Value(SpecTerm::V), w1)
            &&& small_step_spec(i_t, w, budget) == eval_spec(t, w, fuel)
            &&& cps_spec(i_t, w, budget) == eval_spec(t, w, fuel)
        },
{
    let v_t = SpecTerm::Apply(Box::new(SpecTerm::V), Box::new(t));
    let i_t = SpecTerm::Apply(Box::new(SpecTerm::I), Box::new(t));
    law_v_absorbs(t, w, fuel);
    law_i_is_identity(t, w, fuel);
    let for_v = law_evaluators_agree(v_t, w, fuel + 1, budget, budget);
    let for_i = law_evaluators_agree(i_t, w, fuel + 1, budget, budget);
    for_v.0 + for_v.1 + for_i.0 + for_i.1
}

/// Three-way equivalence. Where the recursive evaluator finishes on `t`,
/// with a value or by `E`, the small-step machine and the trampoline end in
/// the same way, with the same term and in the same world, unless their
/// own budget runs out first; and there is a budget for each that does not
/// run out.
pub proof fn law_evaluators_agree(t: SpecTerm, w: World, depth: nat, steps: nat, bounces: nat)
    -> (enough: (nat, nat))
    requires
        finished(eval_spec(t, w, depth).0),
    ensures
        small_step_spec(t, w, steps).0 is OutOfFuel || small_step_spec(t, w, steps) == eval_spec(
            t,
            w,
            depth,
        ),
        cps_spec(t, w, bounces).0 is OutOfFuel || cps_spec(t, w, bounces) == eval_spec(
            t,
            w,
            depth,
        ),
        steps >= enough.0 ==> small_step_spec(t, w, steps) == eval_spec(t, w, depth),
        bounces >= enough.1 ==> cps_spec(t, w, bounces) == eval_spec(t, w, depth),
{
    let empty = Seq::<SpecFrame>::empty();
    let (k0, v0) = descend(t, empty);
    let n = lemma_small_step_follows_eval(t, w, depth, empty);
    let result = eval_spec(t, w, depth);
    if let Outcome::Value(v) = result.0 {
        lemma_run_add(k0, v0, w, n, 1);
        lemma_run_one(empty, v, result.1);
    } else {
        lemma_run_add(k0, v0, w, n, 1);
    }
    assert(run_spec(k0, v0, w, n + 1) == (Resumed::Done(result.0), result.1));
    if steps >= n + 1 {
        lemma_run_stable(k0, v0, w, n + 1, steps);
    } else if run_spec(k0, v0, w, steps).0 is Done {
        lemma_run_stable(k0, v0, w, steps, n + 1);
    }
    let start = Bounce::Next(SpecStep::Eval(t, SpecKont::Halt));
    let m = lemma_cps_follows_eval(t, w, depth, SpecKont::Halt);
    lemma_cps_run_one(SpecStep::Eval(t, SpecKont::Halt), w);
    lemma_cps_run_add(start, w, 1, m);
    assert(cps_run(start, w, 1 + m) == (Bounce::Done(result.0), result.1));
    if bounces >= 1 + m {
        lemma_cps_run_stable(start, w, 1 + m, bounces);
    } else if cps_run(start, w, bounces).0 is Done {
        lemma_cps_run_stable(start, w, bounces, 1 + m);
    }
    (n + 1, 1 + m)
}

/// More fuel does not change a recursive evaluation that has finished.
pub proof fn lemma_eval_monotone(t: SpecTerm, w: World, fuel: nat, more: nat)
    requires
        finished(eval_spec(t, w, fuel).0),
        fuel <= more,
    ensures
        eval_spec(t, w, more) == eval_spec(t, w, fuel),
    decreases fuel, 0nat,
{
    match t {
        SpecTerm::Apply(f, x) => {
            let (rf, w1) = eval_spec(*f, w, (fuel - 1) as nat);
            lemma_eval_monotone(*f, w, (fuel - 1) as nat, (more - 1) as nat);
            if let Outcome::Value(ef) = rf {
                if !(ef is D) {
                    let (rx, w2) = eval_spec(*x, w1, (fuel - 1) as nat);
                    lemma_eval_monotone(*x, w1, (fuel - 1) as nat, (more - 1) as nat);
                    if let Outcome::Value(ex) = rx {
                        lemma_apply_monotone(ef, ex, w2, (fuel - 1) as nat, (more - 1) as nat);
                    }
                }
            }
        },
        _ => {},
    }
}

/// More fuel does not change an application that has finished.
proof fn lemma_apply_monotone(f: SpecTerm, x: SpecTerm, w: World, fuel: nat, more: nat)
    requires
        finished(apply_spec(f, x, w, fuel).0),
        fuel <= more,
    ensures
        apply_spec(f, x, w, more) == apply_spec(f, x, w, fuel),
    decreases fuel, 1nat,
{
    match apply_rule(f, x, w) {
        (Applied::Redex(g, y), w1) => {
            lemma_eval_monotone(SpecTerm::Apply(Box::new(g), Box::new(y)), w1, fuel, more);
        },
        _ => {},
    }
}

/// The larger of two numbers.
pub open spec fn larger(a: nat, b: nat) -> nat {
    if a >= b {
        a
    } else {
        b
    }
}

/// The recursive evaluator follows the small-step machine. Where the machine
/// that enters a term free of `C` and of continuations stops within `n`
/// steps, under whatever continuation, the recursive evaluation of the term
/// finishes at the depth returned.
pub proof fn lemma_eval_follows_small_step(t: SpecTerm, w: World, k: Seq<SpecFrame>, n: nat) -> (depth:
    nat)
    requires
        t.callcc_free(),
        run_spec(descend(t, k).0, descend(t, k).1, w, n).0 is Done,
    ensures
        finished(eval_spec(t, w, depth).0),
    decreases n, t,
{
    match t {
        SpecTerm::Apply(f, x) => {
            let k1 = k.push(SpecFrame::Cont1(*x));
            let (s0, t0) = descend(t, k);
            assert((s0, t0) == descend(*f, k1));
            let df = lemma_eval_follows_small_step(*f, w, k1, n);
            let (rf, w1) = eval_spec(*f, w, df);
            let n1 = lemma_small_step_follows_eval(*f, w, df, k1);
            law_eval_supports_callcc_free(*f, w, df);
            match rf {
                Outcome::Value(ef) => {
                    if n1 >= n {
                        lemma_run_stable(s0, t0, w, n, n1);
                    }
                    assert(n1 < n);
                    assert(k1.drop_last() =~= k);
                    assert(k1.last() == SpecFrame::Cont1(*x));
                    lemma_run_add(s0, t0, w, n1, 1);
                    lemma_run_one(k1, ef, w1);
                    if ef is D {
                        assert((df + 1 - 1) as nat == df);
                        assert(finished(eval_spec(t, w, df + 1).0));
                        df + 1
                    } else {
                        let k2 = k.push(SpecFrame::Cont2(ef));
                        let (s2, t2) = descend(*x, k2);
                        let left1 = (n - n1 - 1) as nat;
                        lemma_run_add(s0, t0, w, n1 + 1, left1);
                        assert(run_spec(s2, t2, w1, left1).0 is Done);
                        let dx = lemma_eval_follows_small_step(*x, w1, k2, left1);
                        let (rx, w2) = eval_spec(*x, w1, dx);
                        let n2 = lemma_small_step_follows_eval(*x, w1, dx, k2);
                        law_eval_supports_callcc_free(*x, w1, dx);
                        let d1 = larger(df, dx);
                        lemma_eval_monotone(*f, w, df, d1);
                        lemma_eval_monotone(*x, w1, dx, d1);
                        match rx {
                            Outcome::Value(ex) => {
                                if n2 >= left1 {
                                    lemma_run_stable(s2, t2, w1, left1, n2);
                                }
                                assert(n2 < left1);
                                assert(k2.drop_last() =~= k);
                                assert(k2.last() == SpecFrame::Cont2(ef));
                                lemma_run_add(s2, t2, w1, n2, 1);
                                lemma_run_one(k2, ex, w2);
                                let left2 = (left1 - n2 - 1) as nat;
                                lemma_run_add(s2, t2, w1, n2 + 1, left2);
                                match apply_rule(ef, ex, w2) {
                                    (Applied::Redex(g, y), w3) => {
                                        let r = SpecTerm::Apply(Box::new(g), Box::new(y));
                                        assert(descend(r, k) == descend(
                                            g,
                                            k.push(SpecFrame::Cont1(y)),
                                        ));
                                        assert(g.callcc_free() && y.callcc_free());
                                        let dr = lemma_eval_follows_small_step(r, w3, k, left2);
                                        let d2 = larger(d1, dr);
                                        lemma_eval_monotone(*f, w, d1, d2);
                                        lemma_eval_monotone(*x, w1, d1, d2);
                                        lemma_eval_monotone(r, w3, dr, d2);
                                        assert(apply_spec(ef, ex, w2, d2) == eval_spec(r, w3, d2));
                                        assert((d2 + 1 - 1) as nat == d2);
                                        assert(eval_spec(*f, w, d2) == (Outcome::Value(ef), w1));
                                        assert(eval_spec(*x, w1, d2) == (Outcome::Value(ex), w2));
                                        assert(eval_spec(t, w, d2 + 1) == eval_spec(r, w3, d2));
                                        d2 + 1
                                    },
                                    _ => {
                                        assert((d1 + 1 - 1) as nat == d1);
                                        assert(ef.callcc_free() && ex.callcc_free());
                                        assert(finished(apply_spec(ef, ex, w2, d1).0));
                                        assert(eval_spec(t, w, d1 + 1) == apply_spec(ef, ex, w2, d1));
                                        d1 + 1
                                    },
                                }
                            },
                            _ => {
                                assert((d1 + 1 - 1) as nat == d1);
                                assert(eval_spec(t, w, d1 + 1) == (rx, w2));
                                d1 + 1
                            },
                        }
                    }
                },
                _ => {
                    assert((df + 1 - 1) as nat == df);
                    assert(eval_spec(t, w, df + 1) == (rf, w1));
                    df + 1
                },
            }
        },
        _ => 0,
    }
}

/// The recursive evaluator follows the trampoline. Where the trampoline that
/// evaluates a term free of `C` and of continuations stops within `n`
/// bounces, under whatever continuation, the recursive evaluation of the
/// term finishes at the depth returned.
pub proof fn lemma_eval_follows_cps(t: SpecTerm, w: World, k: SpecKont, n: nat) -> (depth: nat)
    requires
        t.callcc_free(),
        cps_run(cps_eval(t, k), w, n).0 is Done,
    ensures
        finished(eval_spec(t, w, depth).0),
    decreases n, t,
{
    let start = cps_eval(t, k);
    match t {
        SpecTerm::Apply(f, x) => {
            let k1 = SpecKont::EvalArg(*x, Box::new(k));
            lemma_cps_run_one(SpecStep::Eval(*f, k1), w);
            assert(n >= 1);
            let left0 = (n - 1) as nat;
            lemma_cps_run_add(start, w, 1, left0);
            let df = lemma_eval_follows_cps(*f, w, k1, left0);
            let (rf, w1) = eval_spec(*f, w, df);
            let n1 = lemma_cps_follows_eval(*f, w, df, k1);
            law_eval_supports_callcc_free(*f, w, df);
            let sf = cps_eval(*f, k1);
            match rf {
                Outcome::Value(ef) => {
                    if n1 >= left0 {
                        lemma_cps_run_stable(sf, w, left0, n1);
                    }
                    assert(n1 < left0);
                    let left1 = (left0 - n1) as nat;
                    lemma_cps_run_add(sf, w, n1, left1);
                    if ef is D {
                        assert((df + 1 - 1) as nat == df);
                        df + 1
                    } else {
                        let k2 = SpecKont::ApplyTo(ef, Box::new(k));
                        let sx = cps_eval(*x, k2);
                        assert(cps_invoke(k1, ef) == sx);
                        let dx = lemma_eval_follows_cps(*x, w1, k2, left1);
                        let (rx, w2) = eval_spec(*x, w1, dx);
                        let n2 = lemma_cps_follows_eval(*x, w1, dx, k2);
                        law_eval_supports_callcc_free(*x, w1, dx);
                        let d1 = larger(df, dx);
                        lemma_eval_monotone(*f, w, df, d1);
                        lemma_eval_monotone(*x, w1, dx, d1);
                        match rx {
                            Outcome::Value(ex) => {
                                if n2 >= left1 {
                                    lemma_cps_run_stable(sx, w1, left1, n2);
                                }
                                assert(n2 < left1);
                                let left2 = (left1 - n2) as nat;
                                lemma_cps_run_add(sx, w1, n2, left2);
                                lemma_cps_run_one(SpecStep::Apply(ef, ex, k), w2);
                                let left3 = (left2 - 1) as nat;
                                lemma_cps_run_add(
                                    Bounce::Next(SpecStep::Apply(ef, ex, k)),
                                    w2,
                                    1,
                                    left3,
                                );
                                match apply_rule(ef, ex, w2) {
                                    (Applied::Redex(g, y), w3) => {
                                        let r = SpecTerm::Apply(Box::new(g), Box::new(y));
                                        assert(g.callcc_free() && y.callcc_free());
                                        let dr = lemma_eval_follows_cps(r, w3, k, left3);
                                        let d2 = larger(d1, dr);
                                        lemma_eval_monotone(*f, w, d1, d2);
                                        lemma_eval_monotone(*x, w1, d1, d2);
                                        lemma_eval_monotone(r, w3, dr, d2);
                                        assert(apply_spec(ef, ex, w2, d2) == eval_spec(r, w3, d2));
                                        assert((d2 + 1 - 1) as nat == d2);
                                        assert(eval_spec(*f, w, d2) == (Outcome::Value(ef), w1));
                                        assert(eval_spec(*x, w1, d2) == (Outcome::Value(ex), w2));
                                        assert(eval_spec(t, w, d2 + 1) == eval_spec(r, w3, d2));
                                        d2 + 1
                                    },
                                    _ => {
                                        assert((d1 + 1 - 1) as nat == d1);
                                        assert(ef.callcc_free() && ex.callcc_free());
                                        assert(finished(apply_spec(ef, ex, w2, d1).0));
                                        assert(eval_spec(t, w, d1 + 1) == apply_spec(ef, ex, w2, d1));
                                        d1 + 1
                                    },
                                }
                            },
                            _ => {
                                assert((d1 + 1 - 1) as nat == d1);
                                assert(eval_spec(t, w, d1 + 1) == (rx, w2));
                                d1 + 1
                            },
                        }
                    }
                },
                _ => {
                    assert((df + 1 - 1) as nat == df);
                    assert(eval_spec(t, w, df + 1) == (rf, w1));
                    df + 1
                },
            }
        },
        _ => 0,
    }
}

/// Three-way equivalence, whichever evaluator finishes. On a term that is
/// free of `C` and of continuations, and so on every program in which `C`
/// does not occur, any two of the three evaluators that do not run out of
/// their budget end in the same way, with the same term and in the same
/// world; and none of them ends at an unsupported primitive.
pub proof fn law_three_way_equivalence(
    t: SpecTerm,
    w: World,
    depth: nat,
    steps: nat,
    bounces: nat,
)
    requires
        t.callcc_free(),
    ensures
        ({
            let a = eval_spec(t, w, depth);
            let b = small_step_spec(t, w, steps);
            let c = cps_spec(t, w, bounces);
            &&& a.0 is OutOfFuel || b.0 is OutOfFuel || a == b
            &&& a.0 is OutOfFuel || c.0 is OutOfFuel || a == c
            &&& b.0 is OutOfFuel || c.0 is OutOfFuel || b == c
            &&& a.0 is OutOfFuel || finished(a.0)
            &&& b.0 is OutOfFuel || finished(b.0)
            &&& c.0 is OutOfFuel || finished(c.0)
        }),
{
    let a = eval_spec(t, w, depth);
    let b = small_step_spec(t, w, steps);
    let c = cps_spec(t, w, bounces);
    let empty = Seq::<SpecFrame>::empty();
    let (k0, v0) = descend(t, empty);
    let start = Bounce::Next(SpecStep::Eval(t, SpecKont::Halt));
    law_eval_supports_callcc_free(t, w, depth);
    if finished(a.0) {
        law_evaluators_agree(t, w, depth, steps, bounces);
    }
    if !(b.0 is OutOfFuel) {
        assert(run_spec(k0, v0, w, steps).0 is Done);
        let d = lemma_eval_follows_small_step(t, w, empty, steps);
        law_evaluators_agree(t, w, d, steps, bounces);
        if finished(a.0) {
            lemma_eval_monotone(t, w, d, larger(d, depth));
            lemma_eval_monotone(t, w, depth, larger(d, depth));
        }
    }
    if !(c.0 is OutOfFuel) {
        assert(cps_run(start, w, bounces).0 is Done);
        assert(bounces >= 1);
        lemma_cps_run_one(SpecStep::Eval(t, SpecKont::Halt), w);
        lemma_cps_run_add(start, w, 1, (bounces - 1) as nat);
        let d = lemma_eval_follows_cps(t, w, SpecKont::Halt, (bounces - 1) as nat);
        law_evaluators_agree(t, w, d, steps, bounces);
        if finished(a.0) {
            lemma_eval_monotone(t, w, d, larger(d, depth));
            lemma_eval_monotone(t, w, depth, larger(d, depth));
        }
    }
}

/// A program in which `C` does not occur holds neither `C` nor a
/// continuation anywhere.
pub proof fn lemma_program_without_c(t: SpecTerm)
    requires
        t.is_program(),
        !t.mentions_c(),
    ensures
        t.callcc_free(),
    decreases t,
{
    match t {
        SpecTerm::Apply(f, x) => {
            lemma_program_without_c(*f);
            lemma_program_without_c(*x);
        },
        _ => {},
    }
}

/// The recursive evaluator supports every term that is free of `C` and of
/// continuations: it finishes or runs out of fuel, and what it returns is
/// free of them too.
pub proof fn law_eval_supports_callcc_free(t: SpecTerm, w: World, fuel: nat)
    requires
        t.callcc_free(),
    ensures
        !(eval_spec(t, w, fuel).0 is Unsupported),
        eval_spec(t, w, fuel).0 matches Outcome::Value(v) ==> v.callcc_free(),
        eval_spec(t, w, fuel).0 matches Outcome::Exit(p) ==> p.callcc_free(),
    decreases fuel, 0nat,
{
    match t {
        SpecTerm::Apply(f, x) => {
            if fuel > 0 {
                law_eval_supports_callcc_free(*f, w, (fuel - 1) as nat);
                let (rf, w1) = eval_spec(*f, w, (fuel - 1) as nat);
                if let Outcome::Value(ef) = rf {
                    if !(ef is D) {
                        law_eval_supports_callcc_free(*x, w1, (fuel - 1) as nat);
                        let (rx, w2) = eval_spec(*x, w1, (fuel - 1) as nat);
                        if let Outcome::Value(ex) = rx {
                            lemma_apply_supports_callcc_free(ef, ex, w2, (fuel - 1) as nat);
                        }
                    }
                }
            }
        },
        _ => {},
    }
}

/// The recursive evaluator supports the application of terms that are free
/// of `C` and of continuations.
proof fn lemma_apply_supports_callcc_free(f: SpecTerm, x: SpecTerm, w: World, fuel: nat)
    requires
        f.callcc_free(),
        x.callcc_free(),
    ensures
        !(apply_spec(f, x, w, fuel).0 is Unsupported),
        apply_spec(f, x, w, fuel).0 matches Outcome::Value(v) ==> v.callcc_free(),
        apply_spec(f, x, w, fuel).0 matches Outcome::Exit(p) ==> p.callcc_free(),
    decreases fuel, 1nat,
{
    match apply_rule(f, x, w) {
        (Applied::Redex(g, y), w1) => {
            let t = SpecTerm::Apply(Box::new(g), Box::new(y));
            assert(g.callcc_free() && y.callcc_free());
            law_eval_supports_callcc_free(t, w1, fuel);
        },
        _ => {},
    }
}

/// A program written out parses back to itself, wherever its text stands:
/// between any `before` and any `after`, the parser reads exactly the
/// program's text and builds the program.
pub proof fn lemma_text_parses(t: SpecTerm, before: Seq<char>, after: Seq<char>)
    requires
        t.is_program(),
    ensures
        parse_term(before + t.text() + after, before.len()) == Ok::<(SpecTerm, nat), ParseError>(
            (t, t.text().len()),
        ),
    decreases t,
{
    reveal_strlit("k");
    reveal_strlit("s");
    reveal_strlit("i");
    reveal_strlit("v");
    reveal_strlit("d");
    reveal_strlit("e");
    reveal_strlit("c");
    reveal_strlit("r");
    reveal_strlit("@");
    reveal_strlit("|");
    reveal_strlit(".");
    reveal_strlit("?");
    reveal_strlit("`");
    let s = before + t.text() + after;
    let pos = before.len();
    assert(t.text().len() > 0 ==> s[pos as int] == t.text()[0]);
    match t {
        SpecTerm::Apply(f, x) => {
            let tick = "`"@;
            let before_f = before + tick;
            let after_f = x.text() + after;
            assert(s =~= before_f + f.text() + after_f);
            lemma_text_parses(*f, before_f, after_f);
            let before_x = before + tick + f.text();
            assert(s =~= before_x + x.text() + after);
            lemma_text_parses(*x, before_x, after);
            assert(s[pos as int] == '`');
            assert(t.text().len() == 1 + f.text().len() + x.text().len());
        },
        SpecTerm::Print(c) => {
            if c != '\n' {
                assert(s[pos as int] == '.');
                assert(s[pos as int + 1] == t.text()[1]);
            }
        },
        SpecTerm::CompareRead(c) => {
            assert(s[pos as int] == '?');
            assert(s[pos as int + 1] == t.text()[1]);
        },
        _ => {},
    }
}

/// Parse, print, parse: the text of a parsed program parses to the same
/// program.
pub proof fn law_print_parse_round_trip(s: Seq<char>)
    requires
        parse_spec(s) is Ok,
    ensures
        parse_spec(parse_spec(s)->Ok_0.text()) == parse_spec(s),
{
    let t = parse_spec(s)->Ok_0;
    lemma_parsed_is_program(s);
    let empty = Seq::<char>::empty();
    lemma_text_parses(t, empty, empty);
    assert(empty + t.text() + empty =~= t.text());
}

/// Only a step that reads looks at the input. A step of the small-step
/// machine or a bounce of the trampoline that does not read leaves the input
/// and the current character alone, and does the same whatever the input
/// holds; so a caller may feed the input as late as right before a step
/// that reads.
pub proof fn law_only_a_reading_step_reads(
    k: Seq<SpecFrame>,
    v: SpecTerm,
    step: SpecStep,
    w: World,
    later: Seq<char>,
)
    ensures
        !reads_next(k) ==> {
            let fed = World { input: w.input + later, ..w };
            &&& resume_spec(k, v, w).1.input == w.input
            &&& resume_spec(k, v, w).1.cur_char == w.cur_char
            &&& resume_spec(k, v, fed).0 == resume_spec(k, v, w).0
            &&& resume_spec(k, v, fed).1 == (World { input: w.input + later, ..resume_spec(k, v, w).1 })
        },
        !bounce_reads(step) ==> {
            let fed = World { input: w.input + later, ..w };
            &&& cps_step(step, w).1.input == w.input
            &&& cps_step(step, w).1.cur_char == w.cur_char
            &&& cps_step(step, fed).0 == cps_step(step, w).0
            &&& cps_step(step, fed).1 == (World { input: w.input + later, ..cps_step(step, w).1 })
        },
{
}

} // verus!
