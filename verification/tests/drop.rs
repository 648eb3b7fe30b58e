use std::rc::Rc;
use unlambda::small_step::{Cont, ContEntry};
use unlambda::Term;

#[test]
fn deep_term() {
    let mut t = Rc::new(Term::K);
    for _ in 0..1_000_000 {
        t = Rc::new(Term::Apply(Rc::clone(&t), t));
    }
}

#[test]
fn deep_reified_cont() {
    let mut c = Cont::new();
    for _ in 0..1_000_000 {
        let t = Rc::new(Term::ReifiedCont(c));
        c = Cont::new();
        c.push(ContEntry::Cont1(t));
    }
}

#[test]
fn deep_unshared_spine() {
    let mut t = Rc::new(Term::K);
    for _ in 0..1_000_000 {
        t = Rc::new(Term::Apply(t, Rc::new(Term::I)));
    }
    let mut p = Rc::new(Term::V);
    for _ in 0..1_000_000 {
        p = Rc::new(Term::Promise(Rc::new(Term::S2(Rc::new(Term::K), p))));
    }
}

#[test]
fn deep_continuation_in_one_block() {
    let mut c = Cont::new();
    for _ in 0..1_000_000 {
        c.push(ContEntry::Cont2(Rc::new(Term::K1(Rc::new(Term::I)))));
    }
    let t = Rc::new(Term::ReifiedCont(c));
    let shared = Rc::clone(&t);
    drop(t);
    assert_eq!(shared.to_string(), "<cont>");
}

#[test]
fn shared_subterm_survives_the_drop_of_one_owner() {
    let inner = Rc::new(Term::Apply(Rc::new(Term::K), Rc::new(Term::Print('x'))));
    let outer = Rc::new(Term::Apply(Rc::clone(&inner), Rc::clone(&inner)));
    drop(outer);
    assert_eq!(inner.to_string(), "`k.x");
}

#[test]
fn wide_and_deep_terms_are_freed() {
    // a comb: every application has a leaf on one side
    let mut t = Rc::new(Term::I);
    for i in 0..300_000 {
        t = if i % 2 == 0 {
            Rc::new(Term::Apply(Rc::new(Term::K), t))
        } else {
            Rc::new(Term::S2(t, Rc::new(Term::Print('x'))))
        };
    }
    let kept = Rc::clone(&t);
    drop(t);
    drop(kept);
}
