//! The mathematical model of the language: terms as plain trees, the state
//! of the outside world, and what it means to apply one value to another.
//!
//! Everything here is specification. The three evaluators are verified
//! against these definitions.

use vstd::prelude::*;

verus! {

/// A term as a mathematical tree. A reified continuation is the sequence of
/// its frames, bottom first, whatever the layout of the stack that holds
/// them at run time.
pub enum SpecTerm {
    K,
    K1(Box<SpecTerm>),
    S,
    S1(Box<SpecTerm>),
    S2(Box<SpecTerm>, Box<SpecTerm>),
    I,
    V,
    D,
    Promise(Box<SpecTerm>),
    Print(char),
    Read,
    CompareRead(char),
    Reprint,
    E,
    C,
    Apply(Box<SpecTerm>, Box<SpecTerm>),
    Cont(Box<SpecKont>),
    ReifiedCont(Seq<SpecFrame>),
}

/// One frame of the small-step machine's continuation.
pub enum SpecFrame {
    /// Evaluate this argument next; the current value is the function.
    Cont1(SpecTerm),
    /// Apply this evaluated function to the current value.
    Cont2(SpecTerm),
}

/// A continuation of the trampolined evaluator.
pub enum SpecKont {
    /// The computation is over; the current value is its result.
    Halt,
    /// Evaluate this argument next; the current value is the function.
    EvalArg(SpecTerm, Box<SpecKont>),
    /// Apply this evaluated function to the current value.
    ApplyTo(SpecTerm, Box<SpecKont>),
}

/// What a program can observe and change outside itself.
pub struct World {
    /// The characters written so far.
    pub output: Seq<char>,
    /// The characters not yet read.
    pub input: Seq<char>,
    /// The character read last, if any was.
    pub cur_char: Option<char>,
}

/// How an evaluation ends.
pub enum Outcome {
    /// With a value.
    Value(SpecTerm),
    /// By the `E` primitive, with the value it was applied to.
    Exit(SpecTerm),
    /// At a primitive that the evaluator at hand does not offer.
    Unsupported,
    /// Not within the given budget.
    OutOfFuel,
}

/// What one application yields before any further evaluation.
pub enum Applied {
    /// A value.
    Value(SpecTerm),
    /// The application of the first term to the second, still to be
    /// evaluated.
    Redex(SpecTerm, SpecTerm),
    /// Abortive termination with this payload.
    Exit(SpecTerm),
    /// The operator is `C`: its operand is to be applied to the current
    /// continuation.
    CallCc(SpecTerm),
    /// The operator is a continuation, to be resumed with the operand.
    Throw(SpecTerm, SpecTerm),
}

impl SpecTerm {
    /// A value is anything but an application that still waits to be
    /// evaluated.
    pub open spec fn is_value(self) -> bool {
        !(self is Apply)
    }

    /// An operator is a value that `apply` accepts in function position:
    /// `D` is a special form and never gets there.
    pub open spec fn is_operator(self) -> bool {
        self.is_value() && !(self is D)
    }

    /// The arguments that partial applications have captured, the functions
    /// that continuations hold, are values.
    pub open spec fn wf(self) -> bool
        decreases self,
    {
        match self {
            SpecTerm::K1(x) => x.is_value() && x.wf(),
            SpecTerm::S1(x) => x.is_value() && x.wf(),
            SpecTerm::S2(x, y) => x.is_value() && x.wf() && y.is_value() && y.wf(),
            SpecTerm::Promise(x) => x.wf(),
            SpecTerm::Apply(f, x) => f.wf() && x.wf(),
            SpecTerm::Cont(k) => k.wf(),
            SpecTerm::ReifiedCont(frames) => forall|i: int|
                0 <= i < frames.len() ==> (#[trigger] frames[i]).wf(),
            _ => true,
        }
    }

    /// The term written out. A program comes out as its source text; the
    /// other terms in a notation of their own, continuations as `<cont>`.
    pub open spec fn text(self) -> Seq<char>
        decreases self,
    {
        match self {
            SpecTerm::K => "k"@,
            SpecTerm::K1(t) => "k1("@ + t.text() + ")"@,
            SpecTerm::S => "s"@,
            SpecTerm::S1(t) => "s1("@ + t.text() + ")"@,
            SpecTerm::S2(x, y) => "s1("@ + x.text() + ", "@ + y.text() + ")"@,
            SpecTerm::I => "i"@,
            SpecTerm::V => "v"@,
            SpecTerm::D => "d"@,
            SpecTerm::Promise(t) => "promise("@ + t.text() + ")"@,
            SpecTerm::Print(c) => if c == '\n' {
                "r"@
            } else {
                "."@.push(c)
            },
            SpecTerm::Read => "@"@,
            SpecTerm::CompareRead(c) => "?"@.push(c),
            SpecTerm::Reprint => "|"@,
            SpecTerm::E => "e"@,
            SpecTerm::C => "c"@,
            SpecTerm::Cont(_) => "<cont>"@,
            SpecTerm::ReifiedCont(_) => "<cont>"@,
            SpecTerm::Apply(f, x) => "`"@ + f.text() + x.text(),
        }
    }

    /// Whether `C` occurs in the term as a program sees it: at the top or
    /// below applications. What partial applications and promises hold is
    /// not looked at.
    pub open spec fn mentions_c(self) -> bool
        decreases self,
    {
        match self {
            SpecTerm::C => true,
            SpecTerm::Apply(f, x) => f.mentions_c() || x.mentions_c(),
            _ => false,
        }
    }

    /// The number of nodes of the term that are applications or their
    /// leaves.
    pub open spec fn spine_size(self) -> nat
        decreases self,
    {
        match self {
            SpecTerm::Apply(f, x) => 1 + f.spine_size() + x.spine_size(),
            _ => 1,
        }
    }

    /// The number of nodes that a destructor may have to visit: the term's
    /// own nodes and those of the terms in the frames of its reified
    /// continuations. A continuation of the trampolined evaluator counts as
    /// one node.
    pub open spec fn size(self) -> nat
        decreases self,
    {
        match self {
            SpecTerm::K1(x) => 1 + x.size(),
            SpecTerm::S1(x) => 1 + x.size(),
            SpecTerm::S2(x, y) => 1 + x.size() + y.size(),
            SpecTerm::Promise(x) => 1 + x.size(),
            SpecTerm::Apply(f, x) => 1 + f.size() + x.size(),
            SpecTerm::ReifiedCont(frames) => 1 + frames_size(frames),
            _ => 1,
        }
    }

    /// Neither `C` nor a continuation occurs anywhere in the term.
    pub open spec fn callcc_free(self) -> bool
        decreases self,
    {
        match self {
            SpecTerm::C | SpecTerm::Cont(_) | SpecTerm::ReifiedCont(_) => false,
            SpecTerm::K1(x) | SpecTerm::S1(x) | SpecTerm::Promise(x) => x.callcc_free(),
            SpecTerm::S2(x, y) | SpecTerm::Apply(x, y) => x.callcc_free() && y.callcc_free(),
            _ => true,
        }
    }

    /// What the parser produces: applications of primitives.
    pub open spec fn is_program(self) -> bool
        decreases self,
    {
        match self {
            SpecTerm::Apply(f, x) => f.is_program() && x.is_program(),
            SpecTerm::K1(_) | SpecTerm::S1(_) | SpecTerm::S2(_, _) | SpecTerm::Promise(_)
            | SpecTerm::Cont(_) | SpecTerm::ReifiedCont(_) => false,
            _ => true,
        }
    }
}

/// The sizes of the terms in `frames`, added up.
pub open spec fn frames_size(frames: Seq<SpecFrame>) -> nat
    decreases frames,
{
    if frames.len() == 0 {
        0
    } else {
        frames_size(frames.drop_last()) + frames.last().size()
    }
}

impl SpecFrame {
    /// The size of the term in the frame.
    pub open spec fn size(self) -> nat
        decreases self,
    {
        match self {
            SpecFrame::Cont1(x) => x.size(),
            SpecFrame::Cont2(f) => f.size(),
        }
    }

    pub open spec fn wf(self) -> bool
        decreases self,
    {
        match self {
            SpecFrame::Cont1(x) => x.wf(),
            SpecFrame::Cont2(f) => f.is_operator() && f.wf(),
        }
    }
}

impl SpecKont {
    pub open spec fn wf(self) -> bool
        decreases self,
    {
        match self {
            SpecKont::Halt => true,
            SpecKont::EvalArg(x, next) => x.wf() && next.wf(),
            SpecKont::ApplyTo(f, next) => f.is_operator() && f.wf() && next.wf(),
        }
    }
}

impl World {
    /// The world after `c` was written.
    pub open spec fn emit(self, c: char) -> World {
        World { output: self.output.push(c), ..self }
    }

    /// The world after one attempt to read: the next character, if there is
    /// one, is consumed and becomes the current character; at the end of the
    /// input the current character is cleared.
    pub open spec fn read(self) -> World {
        if self.input.len() > 0 {
            World { input: self.input.drop_first(), cur_char: Some(self.input[0]), ..self }
        } else {
            World { cur_char: None, ..self }
        }
    }
}

/// The chosen argument for a conditional primitive: `I` for yes, `V` for no.
pub open spec fn truth(b: bool) -> SpecTerm {
    if b {
        SpecTerm::I
    } else {
        SpecTerm::V
    }
}

/// The application of the operator `f` to the value `x` in the world `w`:
/// what it yields, and the world afterwards.
///
/// `f` is meant to be an operator and `x` a value. The evaluators ask for
/// that, so the last case, for `D` and `Apply` as `f`, never comes up in a
/// run; it keeps the function total.
pub open spec fn apply_rule(f: SpecTerm, x: SpecTerm, w: World) -> (Applied, World) {
    match f {
        SpecTerm::K => (Applied::Value(SpecTerm::K1(Box::new(x))), w),
        SpecTerm::K1(y) => (Applied::Value(*y), w),
        SpecTerm::S => (Applied::Value(SpecTerm::S1(Box::new(x))), w),
        SpecTerm::S1(y) => (Applied::Value(SpecTerm::S2(y, Box::new(x))), w),
        SpecTerm::S2(y, z) => (
            Applied::Redex(
                SpecTerm::Apply(y, Box::new(x)),
                SpecTerm::Apply(z, Box::new(x)),
            ),
            w,
        ),
        SpecTerm::Print(c) => (Applied::Value(x), w.emit(c)),
        SpecTerm::I => (Applied::Value(x), w),
        SpecTerm::V => (Applied::Value(SpecTerm::V), w),
        SpecTerm::E => (Applied::Exit(x), w),
        SpecTerm::Read => (Applied::Redex(x, truth(w.input.len() > 0)), w.read()),
        SpecTerm::CompareRead(c) => (Applied::Redex(x, truth(w.cur_char == Some(c))), w),
        SpecTerm::Reprint => (
            Applied::Redex(
                x,
                match w.cur_char {
                    Some(c) => SpecTerm::Print(c),
                    None => SpecTerm::V,
                },
            ),
            w,
        ),
        SpecTerm::Promise(g) => (Applied::Redex(*g, x), w),
        SpecTerm::C => (Applied::CallCc(x), w),
        SpecTerm::Cont(_) | SpecTerm::ReifiedCont(_) => (Applied::Throw(f, x), w),
        SpecTerm::D | SpecTerm::Apply(_, _) => (Applied::Value(f), w),
    }
}

/// The result of evaluating `t` in the world `w` by direct recursion of
/// depth at most `fuel`, and the world afterwards.
///
/// An application evaluates its function first. If that yields `D`, the
/// argument is not evaluated and the result is a promise. Otherwise the
/// argument is evaluated and the function applied to it. Any other term is a
/// value and evaluates to itself.
pub open spec fn eval_spec(t: SpecTerm, w: World, fuel: nat) -> (Outcome, World)
    decreases fuel, 0nat,
{
    match t {
        SpecTerm::Apply(f, x) => {
            if fuel == 0 {
                (Outcome::OutOfFuel, w)
            } else {
                let (rf, w1) = eval_spec(*f, w, (fuel - 1) as nat);
                match rf {
                    Outcome::Value(ef) => {
                        if ef is D {
                            (Outcome::Value(SpecTerm::Promise(x)), w1)
                        } else {
                            let (rx, w2) = eval_spec(*x, w1, (fuel - 1) as nat);
                            match rx {
                                Outcome::Value(ex) => apply_spec(ef, ex, w2, (fuel - 1) as nat),
                                _ => (rx, w2),
                            }
                        }
                    },
                    _ => (rf, w1),
                }
            }
        },
        _ => (Outcome::Value(t), w),
    }
}

/// The result of applying the operator `f` to the value `x` by direct
/// recursion. This evaluator has no access to its own continuation, so `C`
/// and continuations as operators are not supported.
pub open spec fn apply_spec(f: SpecTerm, x: SpecTerm, w: World, fuel: nat) -> (Outcome, World)
    decreases fuel, 1nat,
{
    match apply_rule(f, x, w) {
        (Applied::Value(v), w1) => (Outcome::Value(v), w1),
        (Applied::Redex(g, y), w1) => eval_spec(
            SpecTerm::Apply(Box::new(g), Box::new(y)),
            w1,
            fuel,
        ),
        (Applied::Exit(p), w1) => (Outcome::Exit(p), w1),
        (Applied::CallCc(_), w1) => (Outcome::Unsupported, w1),
        (Applied::Throw(_, _), w1) => (Outcome::Unsupported, w1),
    }
}

/// Every frame is well formed.
pub open spec fn frames_wf(k: Seq<SpecFrame>) -> bool {
    forall|i: int| 0 <= i < k.len() ==> (#[trigger] k[i]).wf()
}

/// Entering a term: as long as the focus is an application, its argument is
/// put aside on the stack and its function becomes the focus.
pub open spec fn descend(t: SpecTerm, k: Seq<SpecFrame>) -> (Seq<SpecFrame>, SpecTerm)
    decreases t,
{
    match t {
        SpecTerm::Apply(f, x) => descend(*f, k.push(SpecFrame::Cont1(*x))),
        _ => (k, t),
    }
}

/// Whether the next step of the small-step machine under the continuation
/// `k` reads a character: whether the frame on top applies `Read`.
pub open spec fn reads_next(k: Seq<SpecFrame>) -> bool {
    k.len() > 0 && k.last() == SpecFrame::Cont2(SpecTerm::Read)
}

/// Whether the bounce that makes the call `step` reads a character: whether
/// the call applies `Read`.
pub open spec fn bounce_reads(step: SpecStep) -> bool {
    step matches SpecStep::Apply(f, _, _) && f is Read
}

/// A state of the small-step machine between two steps.
pub enum Resumed {
    /// The machine goes on: this value is handed to this continuation.
    Next(Seq<SpecFrame>, SpecTerm),
    /// The machine has stopped.
    Done(Outcome),
}

/// One step of the small-step machine: the value `v` is handed to the top
/// frame of `k`.
pub open spec fn resume_spec(k: Seq<SpecFrame>, v: SpecTerm, w: World) -> (Resumed, World) {
    if k.len() == 0 {
        (Resumed::Done(Outcome::Value(v)), w)
    } else {
        let rest = k.drop_last();
        match k.last() {
            SpecFrame::Cont1(x) => {
                if v is D {
                    (Resumed::Next(rest, SpecTerm::Promise(Box::new(x))), w)
                } else {
                    let (k2, t2) = descend(x, rest.push(SpecFrame::Cont2(v)));
                    (Resumed::Next(k2, t2), w)
                }
            },
            SpecFrame::Cont2(f) => step_apply(f, v, rest, w),
        }
    }
}

/// The application of the operator `f` to the value `x` under the
/// continuation `k`, as one step of the small-step machine.
pub open spec fn step_apply(f: SpecTerm, x: SpecTerm, k: Seq<SpecFrame>, w: World) -> (
    Resumed,
    World,
) {
    match apply_rule(f, x, w) {
        (Applied::Value(v), w1) => (Resumed::Next(k, v), w1),
        (Applied::Redex(g, y), w1) => {
            let (k2, t2) = descend(g, k.push(SpecFrame::Cont1(y)));
            (Resumed::Next(k2, t2), w1)
        },
        (Applied::Exit(p), w1) => (Resumed::Done(Outcome::Exit(p)), w1),
        (Applied::CallCc(g), w1) => {
            let (k2, t2) = descend(g, k.push(SpecFrame::Cont1(SpecTerm::ReifiedCont(k))));
            (Resumed::Next(k2, t2), w1)
        },
        (Applied::Throw(c, v), w1) => match c {
            SpecTerm::ReifiedCont(k2) => (Resumed::Next(k2, v), w1),
            _ => (Resumed::Done(Outcome::Unsupported), w1),
        },
    }
}

/// The small-step machine after at most `n` steps from the given state.
pub open spec fn run_spec(k: Seq<SpecFrame>, v: SpecTerm, w: World, n: nat) -> (Resumed, World)
    decreases n,
{
    if n == 0 {
        (Resumed::Next(k, v), w)
    } else {
        match resume_spec(k, v, w) {
            (Resumed::Next(k2, v2), w2) => run_spec(k2, v2, w2, (n - 1) as nat),
            (Resumed::Done(o), w2) => (Resumed::Done(o), w2),
        }
    }
}

/// The result of running `t` on the small-step machine for at most `fuel`
/// steps, and the world afterwards.
pub open spec fn small_step_spec(t: SpecTerm, w: World, fuel: nat) -> (Outcome, World) {
    let (k0, v0) = descend(t, Seq::empty());
    match run_spec(k0, v0, w, fuel) {
        (Resumed::Done(o), w1) => (o, w1),
        (Resumed::Next(_, _), w1) => (Outcome::OutOfFuel, w1),
    }
}

/// A call that the trampolined evaluator has put off, to be made by the
/// trampoline.
pub enum SpecStep {
    /// Evaluate the term under the continuation.
    Eval(SpecTerm, SpecKont),
    /// Hand the value to the continuation.
    Return(SpecKont, SpecTerm),
    /// Apply the operator to the value under the continuation.
    Apply(SpecTerm, SpecTerm, SpecKont),
}

/// What a call of the trampolined evaluator hands back to the trampoline.
pub enum Bounce {
    /// The call to make next.
    Next(SpecStep),
    /// The result of the whole computation.
    Done(Outcome),
}

impl SpecStep {
    pub open spec fn wf(self) -> bool {
        match self {
            SpecStep::Eval(t, k) => t.wf() && k.wf(),
            SpecStep::Return(k, v) => k.wf() && v.wf() && v.is_value(),
            SpecStep::Apply(f, x, k) => f.is_operator() && f.wf() && x.is_value() && x.wf()
                && k.wf(),
        }
    }
}

impl Bounce {
    pub open spec fn wf(self) -> bool {
        match self {
            Bounce::Next(step) => step.wf(),
            Bounce::Done(Outcome::Value(v)) => v.wf() && v.is_value(),
            Bounce::Done(Outcome::Exit(p)) => p.wf() && p.is_value(),
            Bounce::Done(_) => true,
        }
    }
}

/// Evaluation in continuation-passing style: an application puts off the
/// evaluation of its function, a value puts off its own return.
pub open spec fn cps_eval(t: SpecTerm, k: SpecKont) -> Bounce {
    match t {
        SpecTerm::Apply(f, x) => Bounce::Next(
            SpecStep::Eval(*f, SpecKont::EvalArg(*x, Box::new(k))),
        ),
        _ => Bounce::Next(SpecStep::Return(k, t)),
    }
}

/// The value `v` is handed to the continuation `k`.
pub open spec fn cps_invoke(k: SpecKont, v: SpecTerm) -> Bounce {
    match k {
        SpecKont::Halt => Bounce::Done(Outcome::Value(v)),
        SpecKont::EvalArg(x, next) => {
            if v is D {
                Bounce::Next(SpecStep::Return(*next, SpecTerm::Promise(Box::new(x))))
            } else {
                cps_eval(x, SpecKont::ApplyTo(v, next))
            }
        },
        SpecKont::ApplyTo(f, next) => Bounce::Next(SpecStep::Apply(f, v, *next)),
    }
}

/// The application of the operator `f` to the value `x` under the
/// continuation `k`.
pub open spec fn cps_apply(f: SpecTerm, x: SpecTerm, k: SpecKont, w: World) -> (Bounce, World) {
    match apply_rule(f, x, w) {
        (Applied::Value(v), w1) => (cps_invoke(k, v), w1),
        (Applied::Redex(g, y), w1) => (
            cps_eval(SpecTerm::Apply(Box::new(g), Box::new(y)), k),
            w1,
        ),
        (Applied::Exit(p), w1) => (Bounce::Done(Outcome::Exit(p)), w1),
        (Applied::CallCc(g), w1) => (
            cps_eval(
                SpecTerm::Apply(Box::new(g), Box::new(SpecTerm::Cont(Box::new(k)))),
                k,
            ),
            w1,
        ),
        (Applied::Throw(c, v), w1) => match c {
            SpecTerm::Cont(k2) => (cps_invoke(*k2, v), w1),
            _ => (Bounce::Done(Outcome::Unsupported), w1),
        },
    }
}

/// One bounce of the trampoline: the call that was put off is made.
pub open spec fn cps_step(step: SpecStep, w: World) -> (Bounce, World) {
    match step {
        SpecStep::Eval(t, k) => (cps_eval(t, k), w),
        SpecStep::Return(k, v) => (cps_invoke(k, v), w),
        SpecStep::Apply(f, x, k) => cps_apply(f, x, k, w),
    }
}

/// The trampoline after at most `n` bounces.
pub open spec fn cps_run(b: Bounce, w: World, n: nat) -> (Bounce, World)
    decreases n,
{
    match b {
        Bounce::Done(_) => (b, w),
        Bounce::Next(step) => {
            if n == 0 {
                (b, w)
            } else {
                let (b2, w2) = cps_step(step, w);
                cps_run(b2, w2, (n - 1) as nat)
            }
        },
    }
}

/// The result of running `t` on the trampoline for at most `fuel` bounces,
/// and the world afterwards.
pub open spec fn cps_spec(t: SpecTerm, w: World, fuel: nat) -> (Outcome, World) {
    match cps_run(Bounce::Next(SpecStep::Eval(t, SpecKont::Halt)), w, fuel) {
        (Bounce::Done(o), w1) => (o, w1),
        (Bounce::Next(_), w1) => (Outcome::OutOfFuel, w1),
    }
}

} // verus!
