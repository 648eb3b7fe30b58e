use std::rc::Rc;
use unlambda::parser::parse_str;
use unlambda::cps::ContResult;
use unlambda::small_step::Cont;
use unlambda::{cps, metacircular, small_step};
use unlambda::{Ctx, EvalResult, Halt, Term};

type Eval = fn(Rc<Term>, &mut Ctx, usize) -> EvalResult;

const EVALS: [Eval; 3] = [metacircular::eval, cps::full_eval, small_step::full_eval];

fn encoding(result: EvalResult) -> String {
    match result {
        Ok(t) => t.to_string(),
        Err(Halt::Exit(t)) => t.to_string(),
        Err(halt) => panic!("no result: {:?}", halt),
    }
}

fn run_and_expect(eval: Eval, program: &str, result: Option<&str>, output: Option<&str>) {
    run_with_input_and_expect(eval, program, "", result, output, None);
}

fn run_with_input_and_expect(
    eval: Eval,
    program: &str,
    input: &str,
    result: Option<&str>,
    output: Option<&str>,
    remaining_input: Option<&str>,
) {
    let mut ctx = Ctx::new(input.chars().collect());
    let actual_result = encoding(eval(parse_str(program).unwrap(), &mut ctx, usize::MAX));
    if let Some(result) = result {
        assert_eq!(&actual_result, result);
    }
    if let Some(output) = output {
        assert_eq!(ctx.output(), output);
    }
    if let Some(remaining_input) = remaining_input {
        let actual_remaining_input: String = ctx.remaining_input().into_iter().collect();
        assert_eq!(actual_remaining_input, remaining_input);
    }
}

#[test]
fn test_eval() {
    for eval in EVALS {
        run_and_expect(eval, "s", Some("s"), None);
        run_and_expect(eval, "s", Some("s"), None);

        run_and_expect(eval, "`.a``ks.b", Some("s"), Some("a"));

        run_and_expect(eval, "``ksv", Some("s"), None);
        run_and_expect(eval, "```skss", Some("s"), None);

        run_and_expect(eval, "`ir", Some("r"), Some(""));
        run_and_expect(eval, "`ri", Some("i"), Some("\n"));

        run_and_expect(eval, "`vs", Some("v"), None);

        run_and_expect(
            eval,
            "``````````````.H.e.l.l.o.,. .w.o.r.l.d.!rv",
            None,
            Some("Hello, world!\n"),
        );

        // From the documentation on d
        run_and_expect(eval, "`d`ri", None, Some(""));
        run_and_expect(eval, "``d`rii", None, Some("\n"));
        run_and_expect(eval, "``dd`ri", None, Some("\n"));
        run_and_expect(eval, "``id`ri", None, Some(""));
        run_and_expect(eval, "```s`kdri", None, Some(""));

        run_and_expect(eval, "``ii`.av", Some("v"), Some("a"));
        run_and_expect(eval, "``ei`.av", Some("i"), Some(""));
    }
}

#[test]
fn test_input() {
    for eval in EVALS {
        run_with_input_and_expect(eval, "@", "zzz", None, None, Some("zzz"));

        run_with_input_and_expect(eval, "`@i", "", Some("v"), None, Some(""));
        run_with_input_and_expect(eval, "`@i", "a", Some("i"), None, Some(""));
        run_with_input_and_expect(eval, "``@i`?ai", "a", Some("i"), None, Some(""));
        run_with_input_and_expect(eval, "``@i`?bi", "a", Some("v"), None, Some(""));
        run_with_input_and_expect(eval, "`?ai", "a", Some("v"), None, Some("a"));

        run_with_input_and_expect(eval, "```@i`|ik", "ab", Some("k"), Some("a"), Some("b"));
    }
}

#[test]
fn call_cc() {
    let evals: [Eval; 2] = [cps::full_eval, small_step::full_eval];
    for eval in evals {
        // from http://www.madore.org/~david/programs/unlambda/#callcc
        run_and_expect(eval, "``cir", Some("r"), Some("\n"));
        run_and_expect(eval, "`c``s`kr``si`ki", Some("i"), Some(""));
    }
}

#[test]
fn ramanujan() {
    for eval in EVALS {
        // http://www.madore.org/~david/programs/unlambda/#howto_num
        let mut expected = "*".repeat(1729);
        expected.push('\n');
        run_and_expect(
            eval,
            "
            ```s`kr``s``si`k.*`ki
                ```s``s`k``si`k`s``s`ksk``s``s`ksk``s``s`kski
                ``s`k``s``s`ksk``s``s`kski`s``s`ksk
                ```s``s`kski``s``s`ksk``s``s`kski
            ",
            None,
            Some(&expected),
        );
    }
}

#[test]
fn recursive_evaluator_rejects_call_cc() {
    let program = parse_str("``cir").unwrap();
    assert!(metacircular::contains_c(&program));
    let mut ctx = Ctx::new(Vec::new());
    assert!(matches!(metacircular::eval(program, &mut ctx, usize::MAX), Err(Halt::Unsupported)));
    assert!(!metacircular::contains_c(&parse_str("``ksv").unwrap()));
    assert!(metacircular::contains_c(&Term::C));
    assert!(!metacircular::contains_c(&Term::K1(Rc::new(Term::C))));
}

#[test]
fn evaluating_a_value_again_changes_nothing() {
    for eval in EVALS {
        let mut ctx = Ctx::new("xy".chars().collect());
        let value = eval(parse_str("``s.ak").unwrap(), &mut ctx, usize::MAX).unwrap();
        assert_eq!(value.to_string(), "s1(.a, k)");
        let again = eval(Rc::clone(&value), &mut ctx, usize::MAX).unwrap();
        assert_eq!(again.to_string(), "s1(.a, k)");
        assert_eq!(ctx.output(), "");
        assert_eq!(ctx.remaining_input(), vec!['x', 'y']);
        assert_eq!(ctx.cur_char(), None);
    }
}

#[test]
fn v_absorbs_and_i_is_the_identity() {
    for eval in EVALS {
        for (t, value, output) in [("k", "k", ""), ("`.as", "s", "a"), ("``s.bk", "s1(.b, k)", "")] {
            let mut ctx = Ctx::new(Vec::new());
            let program = parse_str(&format!("`v{}", t)).unwrap();
            assert_eq!(encoding(eval(program, &mut ctx, usize::MAX)), "v");
            assert_eq!(ctx.output(), output);

            let mut ctx = Ctx::new(Vec::new());
            let program = parse_str(&format!("`i{}", t)).unwrap();
            assert_eq!(encoding(eval(program, &mut ctx, usize::MAX)), value);
            assert_eq!(ctx.output(), output);
        }
    }
}

#[test]
fn fuel_bounds_the_evaluation() {
    // ```sii``sii runs forever
    let omega = "```sii``sii";
    for eval in EVALS {
        let mut ctx = Ctx::new(Vec::new());
        assert!(matches!(
            eval(parse_str(omega).unwrap(), &mut ctx, 1000),
            Err(Halt::OutOfFuel)
        ));
        let mut ctx = Ctx::new(Vec::new());
        assert!(matches!(eval(parse_str("`ik").unwrap(), &mut ctx, 0), Err(Halt::OutOfFuel)));
    }
    // one level of nesting needs one unit of depth
    let mut ctx = Ctx::new(Vec::new());
    assert_eq!(encoding(metacircular::eval(parse_str("`ik").unwrap(), &mut ctx, 1)), "k");
    // the machine takes three steps for it: one per frame and one to stop
    let mut ctx = Ctx::new(Vec::new());
    assert!(matches!(
        small_step::full_eval(parse_str("`ik").unwrap(), &mut ctx, 2),
        Err(Halt::OutOfFuel)
    ));
    let mut ctx = Ctx::new(Vec::new());
    assert_eq!(encoding(small_step::full_eval(parse_str("`ik").unwrap(), &mut ctx, 3)), "k");
    // the trampoline takes five bounces for it
    let mut ctx = Ctx::new(Vec::new());
    assert!(matches!(
        cps::full_eval(parse_str("`ik").unwrap(), &mut ctx, 4),
        Err(Halt::OutOfFuel)
    ));
    let mut ctx = Ctx::new(Vec::new());
    assert_eq!(encoding(cps::full_eval(parse_str("`ik").unwrap(), &mut ctx, 5)), "k");
}

#[test]
fn exit_carries_its_operand() {
    for eval in EVALS {
        let mut ctx = Ctx::new(Vec::new());
        let result = eval(parse_str("`.a`e`.bk").unwrap(), &mut ctx, usize::MAX);
        match result {
            Err(Halt::Exit(t)) => assert_eq!(t.to_string(), "k"),
            other => panic!("{:?}", other),
        }
        assert_eq!(ctx.output(), "b");
    }
}

#[test]
fn term_encodings() {
    for eval in EVALS {
        let run = |program: &str| {
            let mut ctx = Ctx::new("q".chars().collect());
            encoding(eval(parse_str(program).unwrap(), &mut ctx, usize::MAX))
        };
        assert_eq!(run("`kd"), "k1(d)");
        assert_eq!(run("`s@"), "s1(@)");
        assert_eq!(run("``s?x|"), "s1(?x, |)");
        assert_eq!(run("`d`ie"), "promise(`ie)");
        assert_eq!(run("c"), "c");
        assert_eq!(run("``@|i"), "i");
    }
    let mut ctx = Ctx::new(Vec::new());
    assert_eq!(encoding(cps::full_eval(parse_str("`ci").unwrap(), &mut ctx, 100)), "<cont>");
    let mut ctx = Ctx::new(Vec::new());
    assert_eq!(
        encoding(small_step::full_eval(parse_str("`ci").unwrap(), &mut ctx, 100)),
        "<cont>"
    );
}

#[test]
fn a_continuation_can_be_entered_twice() {
    // `ci is the continuation "apply the hole to `.ai"; applied to the value
    // of `.ai it runs that application once more
    let evals: [Eval; 2] = [cps::full_eval, small_step::full_eval];
    for eval in evals {
        let mut ctx = Ctx::new(Vec::new());
        let result = eval(parse_str("``ci`.ai").unwrap(), &mut ctx, 100_000);
        assert_eq!(encoding(result), "i");
        assert_eq!(ctx.output(), "aa");
    }
}

#[test]
fn continuations_of_the_other_machine_are_rejected() {
    let k = small_step::full_eval(parse_str("`ci").unwrap(), &mut Ctx::new(Vec::new()), 100)
        .unwrap();
    let program = Rc::new(Term::Apply(k, Rc::new(Term::I)));
    assert!(matches!(
        cps::full_eval(program, &mut Ctx::new(Vec::new()), 100),
        Err(Halt::Unsupported)
    ));
    let k = cps::full_eval(parse_str("`ci").unwrap(), &mut Ctx::new(Vec::new()), 100).unwrap();
    let program = Rc::new(Term::Apply(k, Rc::new(Term::I)));
    assert!(matches!(
        small_step::full_eval(program, &mut Ctx::new(Vec::new()), 100),
        Err(Halt::Unsupported)
    ));
}

/// Runs the small-step machine step by step, feeding a character only when
/// a step asks for one. Returns the result, what was written, and how many
/// characters were fed.
fn stream_small_step(program: &str, input: &str) -> (String, String, usize) {
    let mut pending = input.chars();
    let mut fed = 0;
    let mut written = String::new();
    let mut ctx = Ctx::new(Vec::new());
    let mut state = small_step::eval(parse_str(program).unwrap(), Cont::new());
    loop {
        match state {
            Ok((cont, value)) => {
                if small_step::wants_input(&cont) && !ctx.has_input() {
                    if let Some(c) = pending.next() {
                        ctx.feed(c);
                        fed += 1;
                    }
                }
                state = small_step::resume(cont, value, &mut ctx);
                written.push_str(&ctx.take_output());
                assert_eq!(ctx.output(), "");
            }
            Err(result) => return (encoding(result), written, fed),
        }
    }
}

/// The same on the trampoline.
fn stream_cps(program: &str, input: &str) -> (String, String, usize) {
    let mut pending = input.chars();
    let mut fed = 0;
    let mut written = String::new();
    let mut ctx = Ctx::new(Vec::new());
    let mut bounce = cps::start(parse_str(program).unwrap());
    loop {
        match bounce {
            ContResult::NextStep(step) => {
                if cps::wants_input(&step) && !ctx.has_input() {
                    if let Some(c) = pending.next() {
                        ctx.feed(c);
                        fed += 1;
                    }
                }
                bounce = cps::run(step, &mut ctx);
                written.push_str(&ctx.take_output());
            }
            ContResult::Finished(result) => return (encoding(result), written, fed),
        }
    }
}

#[test]
fn input_can_be_fed_as_the_run_goes() {
    assert_eq!(
        stream_small_step("```@i`|ik", "ab"),
        (String::from("k"), String::from("a"), 1)
    );
    assert_eq!(stream_cps("```@i`|ik", "ab"), (String::from("k"), String::from("a"), 1));
    let cases = [
        ("`.a``ks.b", "zzz", 0),
        ("`@i", "", 0),
        ("`@i", "ab", 1),
        ("``@i``@i`|i", "xy", 2),
        ("``@i``@i``@i`|i", "xy", 2),
        ("`r``@i`?ai", "a", 1),
        ("`d`@i", "a", 0),
    ];
    for (program, input, fed) in cases {
        let mut ctx = Ctx::new(input.chars().collect());
        let result =
            encoding(small_step::full_eval(parse_str(program).unwrap(), &mut ctx, usize::MAX));
        let output = String::from(ctx.output());
        let unread: String = ctx.remaining_input().into_iter().collect();
        assert_eq!(unread.len(), input.len() - fed);
        assert_eq!(stream_small_step(program, input), (result.clone(), output.clone(), fed));
        assert_eq!(stream_cps(program, input), (result, output, fed));
    }
}

#[test]
fn the_context_is_fed_and_drained() {
    let mut ctx = Ctx::new(vec!['a']);
    assert!(ctx.has_input());
    ctx.feed('b');
    assert_eq!(ctx.remaining_input(), vec!['a', 'b']);
    assert_eq!(ctx.read(), Some('a'));
    assert_eq!(ctx.read(), Some('b'));
    assert!(!ctx.has_input());
    assert_eq!(ctx.read(), None);
    assert_eq!(ctx.cur_char(), None);
    ctx.feed('c');
    assert!(ctx.has_input());
    assert_eq!(ctx.read(), Some('c'));
    assert_eq!(ctx.cur_char(), Some('c'));
    ctx.emit('x');
    ctx.emit('y');
    assert_eq!(ctx.take_output(), "xy");
    assert_eq!(ctx.output(), "");
    ctx.emit('z');
    assert_eq!(ctx.output(), "z");
}
