//! Terms: the values and expressions that the evaluators exchange.

use crate::cps::Kont;
use crate::model::{Outcome, SpecTerm};
use crate::small_step::{frames, Cont};
use crate::text::string_push;
use std::rc::Rc;
use vstd::prelude::*;
use vstd::string::StringExecFns;

verus! {

/// A term of the language. Subterms are shared, never cyclic.
#[derive(Debug)]
pub enum Term {
    K,
    K1(Rc<Term>),
    S,
    S1(Rc<Term>),
    S2(Rc<Term>, Rc<Term>),
    I,
    V,
    D,
    Promise(Rc<Term>),
    Print(char),
    Read,
    CompareRead(char),
    Reprint,
    E,
    C,
    Apply(Rc<Term>, Rc<Term>),
    /// A continuation of the trampolined evaluator.
    Cont(Rc<Kont>),
    /// A continuation of the small-step evaluator.
    ReifiedCont(Cont),
}

/// Why an evaluation ended without a value.
#[derive(Debug)]
pub enum Halt {
    /// The program applied `E`; the payload is what it was applied to.
    Exit(Rc<Term>),
    /// The program used a primitive that the evaluator does not offer.
    Unsupported,
    /// The evaluation did not finish within the budget it was given.
    OutOfFuel,
}

/// The value of a program, or the reason why there is none.
pub type EvalResult = Result<Rc<Term>, Halt>;

impl View for Term {
    type V = SpecTerm;

    open spec fn view(&self) -> SpecTerm
        decreases self, 0nat,
    {
        match *self {
            Term::K => SpecTerm::K,
            Term::K1(x) => SpecTerm::K1(Box::new((*x)@)),
            Term::S => SpecTerm::S,
            Term::S1(x) => SpecTerm::S1(Box::new((*x)@)),
            Term::S2(x, y) => SpecTerm::S2(Box::new((*x)@), Box::new((*y)@)),
            Term::I => SpecTerm::I,
            Term::V => SpecTerm::V,
            Term::D => SpecTerm::D,
            Term::Promise(x) => SpecTerm::Promise(Box::new((*x)@)),
            Term::Print(c) => SpecTerm::Print(c),
            Term::Read => SpecTerm::Read,
            Term::CompareRead(c) => SpecTerm::CompareRead(c),
            Term::Reprint => SpecTerm::Reprint,
            Term::E => SpecTerm::E,
            Term::C => SpecTerm::C,
            Term::Apply(f, x) => SpecTerm::Apply(Box::new((*f)@), Box::new((*x)@)),
            Term::Cont(k) => SpecTerm::Cont(Box::new((*k)@)),
            Term::ReifiedCont(s) => SpecTerm::ReifiedCont(frames(s)),
        }
    }
}

impl Term {
    /// The term written out: a program as its source text, the other terms
    /// in a notation of their own.
    pub fn to_string(&self) -> (s: String)
        ensures
            s@ == self@.text(),
    {
        let mut out = String::new();
        self.write_to(&mut out);
        assert(Seq::<char>::empty() + self@.text() =~= self@.text());
        out
    }

    /// Appends the term to `out`.
    fn write_to(&self, out: &mut String)
        ensures
            final(out)@ == old(out)@ + self@.text(),
        decreases self,
    {
        let ghost before = out@;
        match self {
            Term::K => out.append("k"),
            Term::K1(t) => {
                out.append("k1(");
                t.write_to(out);
                out.append(")");
                assert(out@ =~= before + ("k1("@ + t@.text() + ")"@));
            },
            Term::S => out.append("s"),
            Term::S1(t) => {
                out.append("s1(");
                t.write_to(out);
                out.append(")");
                assert(out@ =~= before + ("s1("@ + t@.text() + ")"@));
            },
            Term::S2(x, y) => {
                out.append("s1(");
                x.write_to(out);
                out.append(", ");
                y.write_to(out);
                out.append(")");
                assert(out@ =~= before + ("s1("@ + x@.text() + ", "@ + y@.text() + ")"@));
            },
            Term::I => out.append("i"),
            Term::V => out.append("v"),
            Term::D => out.append("d"),
            Term::Promise(t) => {
                out.append("promise(");
                t.write_to(out);
                out.append(")");
                assert(out@ =~= before + ("promise("@ + t@.text() + ")"@));
            },
            Term::Print(c) => {
                if *c == '\n' {
                    out.append("r");
                } else {
                    out.append(".");
                    string_push(out, *c);
                    assert(out@ =~= before + "."@.push(*c));
                }
            },
            Term::Read => out.append("@"),
            Term::CompareRead(c) => {
                out.append("?");
                string_push(out, *c);
                assert(out@ =~= before + "?"@.push(*c));
            },
            Term::Reprint => out.append("|"),
            Term::E => out.append("e"),
            Term::C => out.append("c"),
            Term::Cont(_) => out.append("<cont>"),
            Term::ReifiedCont(_) => out.append("<cont>"),
            Term::Apply(f, x) => {
                out.append("`");
                f.write_to(out);
                x.write_to(out);
                assert(out@ =~= before + ("`"@ + f@.text() + x@.text()));
            },
        }
    }
}

/// How the model sees a result.
pub open spec fn outcome(r: EvalResult) -> Outcome {
    match r {
        Ok(v) => Outcome::Value((*v)@),
        Err(Halt::Exit(p)) => Outcome::Exit((*p)@),
        Err(Halt::Unsupported) => Outcome::Unsupported,
        Err(Halt::OutOfFuel) => Outcome::OutOfFuel,
    }
}

} // verus!
