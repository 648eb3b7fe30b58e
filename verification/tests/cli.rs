use unlambda::cli::{Interpreter, Opts};

fn args(list: &[&str]) -> pico_args::Arguments {
    pico_args::Arguments::from_vec(list.iter().map(|arg| arg.into()).collect())
}

#[test]
fn interpreter_names_ignore_case() {
    assert_eq!(Interpreter::from_name("metacircular"), Ok(Interpreter::MetaCircular));
    assert_eq!(Interpreter::from_name("MetaCircular"), Ok(Interpreter::MetaCircular));
    assert_eq!(Interpreter::from_name("CPS"), Ok(Interpreter::Cps));
    assert_eq!(Interpreter::from_name("cPs"), Ok(Interpreter::Cps));
    assert_eq!(Interpreter::from_name("SMALLSTEP"), Ok(Interpreter::SmallStep));
    assert_eq!(Interpreter::from_name("SmallStep"), Ok(Interpreter::SmallStep));
    assert_eq!(Interpreter::from_name("small-step"), Err("unrecognized interpreter"));
    assert_eq!(Interpreter::from_name(""), Err("unrecognized interpreter"));
    assert_eq!(Interpreter::from_name("cps "), Err("unrecognized interpreter"));
}

#[test]
fn the_small_step_evaluator_is_the_default() {
    let opts = Opts::assemble(None, false, String::from("a.unl"));
    assert_eq!(opts.interpreter, Interpreter::SmallStep);
    assert_eq!(opts.file_name, "a.unl");
    assert!(!opts.time);
    let opts = Opts::assemble(Some(Interpreter::Cps), true, String::from("b.unl"));
    assert_eq!(opts.interpreter, Interpreter::Cps);
    assert!(opts.time);
}

#[test]
fn options_are_read_off_the_command_line() {
    let (opts, rest) = Opts::parse(args(&["prog.unl"])).unwrap();
    assert_eq!(opts.file_name, "prog.unl");
    assert_eq!(opts.interpreter, Interpreter::SmallStep);
    assert!(!opts.time);
    assert!(rest.is_empty());

    let (opts, rest) = Opts::parse(args(&["--time", "--interpreter=CPS", "prog.unl"])).unwrap();
    assert_eq!(opts.file_name, "prog.unl");
    assert_eq!(opts.interpreter, Interpreter::Cps);
    assert!(opts.time);
    assert!(rest.is_empty());

    let (opts, rest) =
        Opts::parse(args(&["--interpreter", "metacircular", "prog.unl", "more", "--x"])).unwrap();
    assert_eq!(opts.interpreter, Interpreter::MetaCircular);
    assert_eq!(rest, vec![String::from("more"), String::from("--x")]);
    assert!(!opts.time);
}

#[test]
fn unusable_command_lines_are_errors() {
    let e = Opts::parse(args(&[])).unwrap_err();
    assert_eq!(e.message, "free-standing argument is missing");
    let e = Opts::parse(args(&["--interpreter=fast", "prog.unl"])).unwrap_err();
    assert_eq!(e.message, "failed to parse 'fast': unrecognized interpreter");
    let e = Opts::parse(args(&["prog.unl", "--interpreter"])).unwrap_err();
    assert_eq!(e.message, "the '--interpreter' option doesn't have an associated value");
}

#[test]
fn only_the_first_time_flag_is_taken() {
    let (opts, rest) = Opts::parse(args(&["a", "--time", "--time", "b"])).unwrap();
    assert!(opts.time);
    assert_eq!(opts.file_name, "a");
    assert_eq!(rest, vec![String::from("--time"), String::from("b")]);

    let (opts, rest) = Opts::parse(args(&["--time", "--time", "b"])).unwrap();
    assert!(opts.time);
    assert_eq!(opts.file_name, "--time");
    assert_eq!(rest, vec![String::from("b")]);
}

#[test]
fn the_option_takes_its_value_attached_or_apart() {
    let (opts, rest) = Opts::parse(args(&["--interpreter=CPS", "f"])).unwrap();
    assert_eq!(opts.interpreter, Interpreter::Cps);
    assert_eq!(opts.file_name, "f");
    assert!(rest.is_empty());

    let (opts, _) = Opts::parse(args(&["f", "--interpreter=\"metacircular\""])).unwrap();
    assert_eq!(opts.interpreter, Interpreter::MetaCircular);
    let (opts, _) = Opts::parse(args(&["f", "--interpreter='SmallStep'"])).unwrap();
    assert_eq!(opts.interpreter, Interpreter::SmallStep);

    // the option by itself is looked for first, wherever it stands
    let (opts, rest) =
        Opts::parse(args(&["--interpreter=cps", "--interpreter", "metacircular", "f"])).unwrap();
    assert_eq!(opts.interpreter, Interpreter::MetaCircular);
    assert_eq!(opts.file_name, "--interpreter=cps");
    assert_eq!(rest, vec![String::from("f")]);

    // of two with the value attached, the first is read
    let (opts, rest) =
        Opts::parse(args(&["f", "--interpreter=cps", "--interpreter=smallstep"])).unwrap();
    assert_eq!(opts.interpreter, Interpreter::Cps);
    assert_eq!(rest, vec![String::from("--interpreter=smallstep")]);

    // an argument that only starts like the option is none
    let (opts, rest) = Opts::parse(args(&["--interpreters=cps", "f"])).unwrap();
    assert_eq!(opts.interpreter, Interpreter::SmallStep);
    assert_eq!(opts.file_name, "--interpreters=cps");
    assert_eq!(rest, vec![String::from("f")]);
}

#[test]
fn a_value_that_cannot_be_read_is_an_error() {
    for bad in [
        "--interpreter=",
        "--interpreter=\"",
        "--interpreter=\"\"",
        "--interpreter=''",
        "--interpreter=\"cps",
        "--interpreter=\"cps'",
        "--interpreter=cps\"",
        "--interpreter=\"cps\" ",
        "--interpreter=fast",
    ] {
        assert!(Opts::parse(args(&[bad, "f"])).is_err(), "{}", bad);
    }
    assert!(Opts::parse(args(&["f", "--interpreter"])).is_err());
    assert!(Opts::parse(args(&["--interpreter", "fast", "f"])).is_err());
    // the value of the option by itself is taken as it stands, quotes and all
    assert!(Opts::parse(args(&["--interpreter", "\"cps\"", "f"])).is_err());
}
