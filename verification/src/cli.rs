//! The command line: which evaluator to run, on which file, and whether to
//! time it.
//!
//! The arguments themselves are taken apart by `pico_args`; what they mean
//! is decided here.

use vstd::prelude::*;
use vstd::string::{StringExecFns, StringSliceAdditionalSpecFns};

verus! {

/// One of the three evaluators.
#[derive(Clone, Copy, PartialEq, Eq, Structural, Debug)]
pub enum Interpreter {
    MetaCircular,
    Cps,
    SmallStep,
}

/// What the command line asks for.
#[derive(Debug)]
pub struct Opts {
    /// The file that holds the program.
    pub file_name: String,
    /// The evaluator to run it on.
    pub interpreter: Interpreter,
    /// Whether to report the time that the run took.
    pub time: bool,
}

/// A command line that cannot be used, with the reason in words.
#[derive(Debug)]
pub struct UsageError {
    pub message: String,
}

/// `c` in lower case if it is an upper-case ASCII letter, `c` itself
/// otherwise.
pub open spec fn ascii_lower(c: char) -> char {
    if 'A' <= c && c <= 'Z' {
        ((c as u32) + 32) as char
    } else {
        c
    }
}

/// The evaluator that goes by the name `name`, whatever the case of its
/// letters.
pub open spec fn interpreter_named(name: Seq<char>) -> Option<Interpreter> {
    let lower = name.map_values(|c: char| ascii_lower(c));
    if lower == "metacircular"@ {
        Some(Interpreter::MetaCircular)
    } else if lower == "cps"@ {
        Some(Interpreter::Cps)
    } else if lower == "smallstep"@ {
        Some(Interpreter::SmallStep)
    } else {
        None
    }
}

/// `str::to_ascii_lowercase`: a copy of `s` in which each upper-case ASCII
/// letter is replaced by its lower-case form and every other character is
/// kept.
#[verifier::external_body]
fn lowercase(s: &str) -> (r: String)
    ensures
        r@ == s@.map_values(|c: char| ascii_lower(c)),
{
    s.to_ascii_lowercase()
}

/// The arguments of the command line that are still to be looked at.
#[verifier::external_type_specification]
#[verifier::external_body]
pub struct ExArguments(pico_args::Arguments);

/// What `pico_args` found wrong with the command line.
#[verifier::external_type_specification]
#[verifier::external_body]
pub struct ExError(pico_args::Error);

/// The arguments that `a` still holds, in their order, each as the bytes it
/// is made of.
pub uninterp spec fn pending(a: pico_args::Arguments) -> Seq<Seq<u8>>;

/// The argument `arg` as text, as `OsStr::to_str` gives it: `None` where the
/// bytes are no valid text.
pub uninterp spec fn argument_text(arg: Seq<u8>) -> Option<Seq<char>>;

/// The argument `arg` as text, as `OsStr::to_string_lossy` gives it: what is
/// no valid text is replaced.
pub uninterp spec fn lossy_text(arg: Seq<u8>) -> Seq<char>;

/// The flag that asks for the time.
pub open spec fn time_key() -> Seq<u8> {
    "--time".spec_bytes()
}

/// Where `key` stands first among `args`, if it stands there at all.
pub open spec fn position(args: Seq<Seq<u8>>, key: Seq<u8>) -> Option<int>
    decreases args.len(),
{
    if args.len() == 0 {
        None
    } else if args[0] == key {
        Some(0)
    } else {
        match position(args.drop_first(), key) {
            Some(i) => Some(i + 1),
            None => None,
        }
    }
}

/// The option that names the evaluator.
pub open spec fn interpreter_key() -> Seq<char> {
    "--interpreter"@
}

/// Whether the argument `arg` is the option that names the evaluator with
/// its value attached: text that starts with the option and an equals sign.
pub open spec fn has_attached_value(arg: Seq<u8>) -> bool {
    argument_text(arg) matches Some(text) && text.len() > interpreter_key().len() && text.take(
        interpreter_key().len() as int,
    ) == interpreter_key() && text[interpreter_key().len() as int] == '='
}

/// Where an argument with an attached value stands first among `args`, if
/// one stands there at all.
pub open spec fn position_attached(args: Seq<Seq<u8>>) -> Option<int>
    decreases args.len(),
{
    if args.len() == 0 {
        None
    } else if has_attached_value(args[0]) {
        Some(0)
    } else {
        match position_attached(args.drop_first()) {
            Some(i) => Some(i + 1),
            None => None,
        }
    }
}

/// The value that is attached to the option in the text `text`: what
/// follows the equals sign, without the quotes if it stands in single or in
/// double quotes. `None` where nothing follows, where nothing stands in the
/// quotes, or where a quote is opened and not closed.
pub open spec fn attached_value(text: Seq<char>) -> Option<Seq<char>> {
    let value = text.skip(interpreter_key().len() as int + 1);
    if value.len() > 0 && (value[0] == '"' || value[0] == '\'') {
        let inner = value.skip(1);
        if inner.len() > 1 && inner.last() == value[0] {
            Some(inner.drop_last())
        } else {
            None
        }
    } else if value.len() > 0 {
        Some(value)
    } else {
        None
    }
}

/// What the option comes to once its value `value` is at hand: the
/// evaluator of that name and the arguments `taken`, without the option;
/// or an error and the arguments `args` as they were.
pub open spec fn read_interpreter(value: Seq<char>, args: Seq<Seq<u8>>, taken: Seq<Seq<u8>>) -> (
    Option<Option<Interpreter>>,
    Seq<Seq<u8>>,
) {
    match interpreter_named(value) {
        Some(interpreter) => (Some(Some(interpreter)), taken),
        None => (None, args),
    }
}

/// What `Arguments::opt_value_from_fn` makes of the arguments `args` for the
/// option `--interpreter`, with `Interpreter::from_name` to read the value:
/// the evaluator that the option names, `Some(None)` if the option is not
/// there, or `None` for an error; and the arguments that it leaves.
///
/// The option is looked for by itself first, with the argument after it as
/// its value, and only then with the value attached. An error leaves the
/// arguments as they were.
pub open spec fn interpreter_option(args: Seq<Seq<u8>>) -> (
    Option<Option<Interpreter>>,
    Seq<Seq<u8>>,
) {
    match position(args, "--interpreter".spec_bytes()) {
        Some(i) => {
            if i + 1 < args.len() {
                match argument_text(args[i + 1]) {
                    Some(value) => read_interpreter(value, args, args.remove(i).remove(i)),
                    None => (None, args),
                }
            } else {
                (None, args)
            }
        },
        None => match position_attached(args) {
            Some(i) => match attached_value(argument_text(args[i])->0) {
                Some(value) => read_interpreter(value, args, args.remove(i)),
                None => (None, args),
            },
            None => (Some(None), args),
        },
    }
}

/// What the command line `args` asks for: the evaluator, whether to time
/// the run, the file name, and the arguments that are left over. The option
/// `--interpreter` is taken out first, then the first `--time`, then the
/// first argument left, which is the file name and has to be text. `None`
/// where the option is in error or no file name is there.
pub open spec fn parsed(args: Seq<Seq<u8>>) -> Option<(Interpreter, bool, Seq<char>, Seq<Seq<u8>>)> {
    let (found, args1) = interpreter_option(args);
    let at = position(args1, time_key());
    let args2 = match at {
        Some(i) => args1.remove(i),
        None => args1,
    };
    if found is Some && args2.len() > 0 && argument_text(args2[0]) is Some {
        Some(
            (
                match found->0 {
                    Some(chosen) => chosen,
                    None => Interpreter::SmallStep,
                },
                at is Some,
                argument_text(args2[0])->0,
                args2.drop_first(),
            ),
        )
    } else {
        None
    }
}

/// `Arguments::opt_value_from_fn` for the option `--interpreter`: looks for
/// the option, hands its value to `Interpreter::from_name` and, if that
/// knows the name, takes the option and its value out of the arguments.
#[verifier::external_body]
fn take_interpreter(pargs: &mut pico_args::Arguments) -> (r: Result<
    Option<Interpreter>,
    pico_args::Error,
>)
    ensures
        (
            match r {
                Ok(found) => Some(found),
                Err(_) => None,
            },
            pending(*final(pargs)),
        ) == interpreter_option(pending(*old(pargs))),
{
    pargs.opt_value_from_fn("--interpreter", Interpreter::from_name)
}

/// `Arguments::contains` for the flag `--time`: whether one of the arguments
/// is the flag. The first one that is, is taken out.
#[verifier::external_body]
fn take_time(pargs: &mut pico_args::Arguments) -> (r: bool)
    ensures
        r == (position(pending(*old(pargs)), time_key()) is Some),
        pending(*final(pargs)) == (match position(pending(*old(pargs)), time_key()) {
            Some(i) => pending(*old(pargs)).remove(i),
            None => pending(*old(pargs)),
        }),
{
    pargs.contains("--time")
}

/// `Arguments::free_from_str` for a `String`: takes the first argument out
/// and returns it as text. It fails where no argument is left, and where
/// the first one is no text, which is taken out all the same.
#[verifier::external_body]
fn take_file_name(pargs: &mut pico_args::Arguments) -> (r: Result<String, pico_args::Error>)
    ensures
        pending(*old(pargs)).len() == 0 ==> r is Err && pending(*final(pargs)) == pending(
            *old(pargs),
        ),
        pending(*old(pargs)).len() > 0 ==> pending(*final(pargs)) == pending(
            *old(pargs),
        ).drop_first() && (match argument_text(pending(*old(pargs))[0]) {
            Some(text) => r matches Ok(name) && name@ == text,
            None => r is Err,
        }),
{
    pargs.free_from_str()
}

/// `Arguments::finish`: the arguments that nothing has taken, each made
/// text, with what is no text replaced.
#[verifier::external_body]
fn finish(pargs: pico_args::Arguments) -> (r: Vec<String>)
    ensures
        r@.len() == pending(pargs).len(),
        forall|i: int| 0 <= i < r@.len() ==> (#[trigger] r@[i])@ == lossy_text(pending(pargs)[i]),
{
    pargs.finish().into_iter().map(|arg| arg.to_string_lossy().into_owned()).collect()
}

/// The `Display` form of an error of `pico_args`.
#[verifier::external_body]
fn describe(e: &pico_args::Error) -> (r: String) {
    format!("{}", e)
}

impl Interpreter {
    /// The evaluator that goes by the name `name`, whatever the case of its
    /// letters.
    pub fn from_name(name: &str) -> (r: Result<Interpreter, &'static str>)
        ensures
            match r {
                Ok(interpreter) => interpreter_named(name@) == Some(interpreter),
                Err(msg) => interpreter_named(name@) is None && msg@ == "unrecognized interpreter"@,
            },
    {
        let lower = lowercase(name);
        if lower == String::from_str("metacircular") {
            Ok(Interpreter::MetaCircular)
        } else if lower == String::from_str("cps") {
            Ok(Interpreter::Cps)
        } else if lower == String::from_str("smallstep") {
            Ok(Interpreter::SmallStep)
        } else {
            Err("unrecognized interpreter")
        }
    }
}

impl Opts {
    /// The options, given what was found on the command line: the evaluator
    /// is the small-step one unless another was asked for.
    pub fn assemble(interpreter: Option<Interpreter>, time: bool, file_name: String) -> (opts:
        Opts)
        ensures
            opts.file_name == file_name,
            opts.time == time,
            opts.interpreter == (match interpreter {
                Some(chosen) => chosen,
                None => Interpreter::SmallStep,
            }),
    {
        let interpreter = match interpreter {
            Some(chosen) => chosen,
            None => Interpreter::SmallStep,
        };
        Opts { file_name, interpreter, time }
    }

    /// Reads the options off the command line, in this order: the option
    /// `--interpreter`, the flag `--time`, the file name. Returns the options
    /// together with the arguments that were left over, as text; or an error
    /// with the words of `pico_args`, where the option is in error or no
    /// file name is there.
    pub fn parse(pargs: pico_args::Arguments) -> (r: Result<(Opts, Vec<String>), UsageError>)
        ensures
            match r {
                Ok((opts, rest)) => parsed(pending(pargs)) matches Some(asked) && opts.interpreter
                    == asked.0 && opts.time == asked.1 && opts.file_name@ == asked.2 && rest@.len()
                    == asked.3.len() && (forall|i: int|
                    0 <= i < rest@.len() ==> (#[trigger] rest@[i])@ == lossy_text(asked.3[i])),
                Err(_) => parsed(pending(pargs)) is None,
            },
    {
        let mut pargs = pargs;
        let interpreter = match take_interpreter(&mut pargs) {
            Ok(interpreter) => interpreter,
            Err(e) => {
                return Err(UsageError { message: describe(&e) });
            },
        };
        let time = take_time(&mut pargs);
        let file_name = match take_file_name(&mut pargs) {
            Ok(file_name) => file_name,
            Err(e) => {
                return Err(UsageError { message: describe(&e) });
            },
        };
        let remaining = finish(pargs);
        Ok((Opts::assemble(interpreter, time, file_name), remaining))
    }
}

} // verus!
