//! The parser: from source text to a tree of applications.
//!
//! A program is one term. A term is a backtick followed by two terms, or one
//! of the primitives; `.` and `?` take the character that follows them,
//! whatever it is. White space between terms is skipped, and so is a comment,
//! which runs from `#` to the end of the line.

use crate::model::SpecTerm;
use crate::term::Term;
use crate::text::{chars_of, is_white_space, is_whitespace};
use std::rc::Rc;
use vstd::prelude::*;
use vstd::string::StringExecFns;

verus! {

/// Why a text is not a program.
#[derive(Clone, Copy, PartialEq, Eq, Structural, Debug)]
pub enum ParseError {
    /// The text ended where a term was due.
    UnexpectedEof,
    /// The text ended after this character, which takes an operand.
    UnexpectedEofAfter(char),
    /// This character starts no term.
    Unrecognized(char),
    /// This character follows the end of the program.
    Unexpected(char),
}

/// `c` in quotes, as `format!("{:?}", c)` writes it: the character itself
/// where it is printable and neither a quote nor a backslash, an escape
/// sequence otherwise.
pub uninterp spec fn char_debug(c: char) -> Seq<char>;

/// Whether `c` is a printable ASCII character that `Debug` writes as it is:
/// any from the space to the tilde but the single quote and the backslash.
pub open spec fn is_plain(c: char) -> bool {
    0x20 <= c as u32 <= 0x7e && c != '\'' && c != '\\'
}

/// The `Debug` form of a character, by `format!`. A plain character comes
/// out as it is, between single quotes.
#[verifier::external_body]
fn debug_char(c: char) -> (s: String)
    ensures
        s@ == char_debug(c),
        is_plain(c) ==> s@ == seq!['\'', c, '\''],
{
    format!("{:?}", c)
}

impl ParseError {
    /// The error in words. The two characters after which a text can end
    /// too early have their message spelt out.
    pub open spec fn text(self) -> Seq<char> {
        match self {
            ParseError::UnexpectedEof => "unexpected EOF"@,
            ParseError::UnexpectedEofAfter(c) => if c == '.' {
                "unexpected EOF after '.'"@
            } else if c == '?' {
                "unexpected EOF after '?'"@
            } else {
                "unexpected EOF after "@ + char_debug(c)
            },
            ParseError::Unrecognized(c) => "unrecognized "@ + char_debug(c),
            ParseError::Unexpected(c) => "unexpected "@ + char_debug(c),
        }
    }

    /// The error in words, spelt out, wherever the character that the error
    /// names is a plain one.
    pub open spec fn plain_text(self) -> Option<Seq<char>> {
        match self {
            ParseError::UnexpectedEof => Some(self.text()),
            ParseError::UnexpectedEofAfter(c) => if c == '.' || c == '?' {
                Some(self.text())
            } else if is_plain(c) {
                Some("unexpected EOF after "@ + seq!['\'', c, '\''])
            } else {
                None
            },
            ParseError::Unrecognized(c) => if is_plain(c) {
                Some("unrecognized "@ + seq!['\'', c, '\''])
            } else {
                None
            },
            ParseError::Unexpected(c) => if is_plain(c) {
                Some("unexpected "@ + seq!['\'', c, '\''])
            } else {
                None
            },
        }
    }

    /// The error in words.
    pub fn message(&self) -> (s: String)
        ensures
            s@ == self.text(),
            self.plain_text() matches Some(words) ==> s@ == words,
    {
        match self {
            ParseError::UnexpectedEof => String::from_str("unexpected EOF"),
            ParseError::UnexpectedEofAfter(c) => {
                if *c == '.' {
                    String::from_str("unexpected EOF after '.'")
                } else if *c == '?' {
                    String::from_str("unexpected EOF after '?'")
                } else {
                    String::from_str("unexpected EOF after ").concat(debug_char(*c).as_str())
                }
            },
            ParseError::Unrecognized(c) => String::from_str("unrecognized ").concat(
                debug_char(*c).as_str(),
            ),
            ParseError::Unexpected(c) => String::from_str("unexpected ").concat(
                debug_char(*c).as_str(),
            ),
        }
    }
}

/// The primitive that the single character `c` stands for.
pub open spec fn primitive(c: char) -> Option<SpecTerm> {
    if c == 'k' {
        Some(SpecTerm::K)
    } else if c == 's' {
        Some(SpecTerm::S)
    } else if c == 'i' {
        Some(SpecTerm::I)
    } else if c == 'v' {
        Some(SpecTerm::V)
    } else if c == 'd' {
        Some(SpecTerm::D)
    } else if c == 'e' {
        Some(SpecTerm::E)
    } else if c == 'c' {
        Some(SpecTerm::C)
    } else if c == 'r' {
        Some(SpecTerm::Print('\n'))
    } else if c == '@' {
        Some(SpecTerm::Read)
    } else if c == '|' {
        Some(SpecTerm::Reprint)
    } else {
        None
    }
}

/// The number of characters from `pos` to the end of the text.
pub open spec fn chars_left(s: Seq<char>, pos: nat) -> nat {
    if pos < s.len() {
        (s.len() - pos) as nat
    } else {
        0
    }
}

/// The length of the rest of a comment from `pos` on: up to the end of the
/// line, the newline included, or up to the end of the text.
pub open spec fn comment_len(s: Seq<char>, pos: nat) -> nat
    decreases s.len() - pos,
{
    if pos >= s.len() {
        0
    } else if s[pos as int] == '\n' {
        1
    } else {
        1 + comment_len(s, pos + 1)
    }
}

/// The term that starts at `pos`, after any white space and comments, and
/// the number of characters from `pos` to its end; or the first error met on
/// the way.
pub open spec fn parse_term(s: Seq<char>, pos: nat) -> Result<(SpecTerm, nat), ParseError>
    decreases chars_left(s, pos),
{
    if pos >= s.len() {
        Err(ParseError::UnexpectedEof)
    } else {
        let c = s[pos as int];
        if c == '`' {
            match parse_term(s, pos + 1) {
                Err(e) => Err(e),
                Ok((f, nf)) => match parse_term(s, pos + 1 + nf) {
                    Err(e) => Err(e),
                    Ok((x, nx)) => Ok((SpecTerm::Apply(Box::new(f), Box::new(x)), 1 + nf + nx)),
                },
            }
        } else if primitive(c) is Some {
            Ok((primitive(c)->0, 1))
        } else if c == '.' || c == '?' {
            if pos + 1 >= s.len() {
                Err(ParseError::UnexpectedEofAfter(c))
            } else if c == '.' {
                Ok((SpecTerm::Print(s[(pos + 1) as int]), 2))
            } else {
                Ok((SpecTerm::CompareRead(s[(pos + 1) as int]), 2))
            }
        } else if c == '#' {
            let n = comment_len(s, pos + 1);
            match parse_term(s, pos + 1 + n) {
                Err(e) => Err(e),
                Ok((t, m)) => Ok((t, 1 + n + m)),
            }
        } else if is_white_space(c) {
            match parse_term(s, pos + 1) {
                Err(e) => Err(e),
                Ok((t, m)) => Ok((t, 1 + m)),
            }
        } else {
            Err(ParseError::Unrecognized(c))
        }
    }
}

/// The first character from `pos` on that is neither white space nor part
/// of a comment, if there is one.
pub open spec fn trailing(s: Seq<char>, pos: nat) -> Option<char>
    decreases chars_left(s, pos),
{
    if pos >= s.len() {
        None
    } else if s[pos as int] == '#' {
        trailing(s, pos + 1 + comment_len(s, pos + 1))
    } else if is_white_space(s[pos as int]) {
        trailing(s, pos + 1)
    } else {
        Some(s[pos as int])
    }
}

/// The program that the text `s` holds: one term, with nothing but white
/// space and comments after it.
pub open spec fn parse_spec(s: Seq<char>) -> Result<SpecTerm, ParseError> {
    match parse_term(s, 0) {
        Err(e) => Err(e),
        Ok((t, n)) => match trailing(s, n) {
            None => Ok(t),
            Some(c) => Err(ParseError::Unexpected(c)),
        },
    }
}

/// The term that starts at `pos` and the position of its end.
spec fn parse_at(s: Seq<char>, pos: nat) -> Result<(SpecTerm, nat), ParseError> {
    match parse_term(s, pos) {
        Err(e) => Err(e),
        Ok((t, n)) => Ok((t, pos + n)),
    }
}

/// The applications that are open while the parser reads on, outermost
/// first: `None` for one whose function is being read, `Some(f)` for one
/// whose function `f` is complete and whose argument is being read.
type Path = Seq<Option<SpecTerm>>;

/// The outermost term and its end, given that the term `t` was just read up
/// to `end` inside the open applications `path`.
spec fn finish(path: Path, t: SpecTerm, s: Seq<char>, end: nat) -> Result<
    (SpecTerm, nat),
    ParseError,
>
    decreases path.len(),
{
    if path.len() == 0 {
        Ok((t, end))
    } else {
        match path.last() {
            Some(f) => finish(path.drop_last(), SpecTerm::Apply(Box::new(f), Box::new(t)), s, end),
            None => match parse_at(s, end) {
                Err(e) => Err(e),
                Ok((x, end2)) => finish(
                    path.drop_last(),
                    SpecTerm::Apply(Box::new(t), Box::new(x)),
                    s,
                    end2,
                ),
            },
        }
    }
}

/// The outermost term and its end, given that a term is due at `pos` inside
/// the open applications `path`.
spec fn whole(path: Path, s: Seq<char>, pos: nat) -> Result<(SpecTerm, nat), ParseError> {
    match parse_at(s, pos) {
        Err(e) => Err(e),
        Ok((t, end)) => finish(path, t, s, end),
    }
}

/// How the model sees the parser's stack.
spec fn path_view(path: Seq<Option<Rc<Term>>>) -> Path {
    path.map_values(
        |entry: Option<Rc<Term>>|
            match entry {
                Some(t) => Some((*t)@),
                None => None,
            },
    )
}

/// Once the function of an open application is complete, its argument is
/// due.
proof fn lemma_finish_function(path: Path, t: SpecTerm, s: Seq<char>, end: nat)
    requires
        path.len() > 0,
        path.last() is None,
    ensures
        finish(path, t, s, end) == whole(path.drop_last().push(Some(t)), s, end),
{
    let pending = path.drop_last().push(Some(t));
    assert(pending.drop_last() =~= path.drop_last());
    match parse_at(s, end) {
        Err(e) => {},
        Ok((x, end2)) => {
            assert(finish(pending, x, s, end2) == finish(
                pending.drop_last(),
                SpecTerm::Apply(Box::new(t), Box::new(x)),
                s,
                end2,
            ));
        },
    }
}

/// A backtick opens an application.
proof fn lemma_open(path: Path, s: Seq<char>, pos: nat)
    requires
        pos < s.len(),
        s[pos as int] == '`',
    ensures
        whole(path, s, pos) == whole(path.push(None), s, pos + 1),
{
    let opened = path.push(None);
    assert(opened.drop_last() =~= path);
    match parse_at(s, pos + 1) {
        Err(e) => {},
        Ok((f, end1)) => {
            assert(finish(opened, f, s, end1) == match parse_at(s, end1) {
                Err(e) => Err(e),
                Ok((x, end2)) => finish(path, SpecTerm::Apply(Box::new(f), Box::new(x)), s, end2),
            });
        },
    }
}

/// A term never ends before it starts, and never beyond the text.
proof fn lemma_parse_bounds(s: Seq<char>, pos: nat)
    ensures
        parse_term(s, pos) matches Ok((t, n)) ==> n > 0 && pos + n <= s.len() && t.is_program(),
    decreases s.len() - pos,
{
    if pos < s.len() {
        let c = s[pos as int];
        if c == '`' {
            lemma_parse_bounds(s, pos + 1);
            if let Ok((f, nf)) = parse_term(s, pos + 1) {
                lemma_parse_bounds(s, pos + 1 + nf);
            }
        } else if primitive(c) is Some {
        } else if c == '.' || c == '?' {
        } else if c == '#' {
            lemma_comment_bounds(s, pos + 1);
            lemma_parse_bounds(s, pos + 1 + comment_len(s, pos + 1));
        } else if is_white_space(c) {
            lemma_parse_bounds(s, pos + 1);
        }
    }
}

/// A comment ends within the text.
proof fn lemma_comment_bounds(s: Seq<char>, pos: nat)
    ensures
        pos <= s.len() ==> pos + comment_len(s, pos) <= s.len(),
    decreases s.len() - pos,
{
    if pos < s.len() && s[pos as int] != '\n' {
        lemma_comment_bounds(s, pos + 1);
    }
}

/// What the parser produces is a program, and a program is well formed.
pub proof fn lemma_parsed_is_program(s: Seq<char>)
    ensures
        parse_spec(s) matches Ok(t) ==> t.is_program() && t.wf(),
{
    lemma_parse_bounds(s, 0);
    if let Ok(t) = parse_spec(s) {
        lemma_program_wf(t);
    }
}

/// A program is well formed: it holds no partial application at all.
pub proof fn lemma_program_wf(t: SpecTerm)
    requires
        t.is_program(),
    ensures
        t.wf(),
    decreases t,
{
    match t {
        SpecTerm::Apply(f, x) => {
            lemma_program_wf(*f);
            lemma_program_wf(*x);
        },
        _ => {},
    }
}

/// Skips the rest of a comment.
fn skip_comment(s: &Vec<char>, pos: usize) -> (end: usize)
    requires
        pos <= s@.len(),
    ensures
        end == pos + comment_len(s@, pos as nat),
        end <= s@.len(),
{
    let mut i = pos;
    while i < s.len()
        invariant
            pos <= i <= s@.len(),
            i + comment_len(s@, i as nat) == pos + comment_len(s@, pos as nat),
        decreases s@.len() - i,
    {
        let c = s[i];
        i += 1;
        if c == '\n' {
            return i;
        }
    }
    i
}

/// Closes the applications that the term `subtree` completes. Returns the
/// outermost term when no application is left open, and otherwise leaves
/// `subtree`, grown by the applications it completed, as the function of
/// the innermost open one.
fn attach(path: &mut Vec<Option<Rc<Term>>>, term: Rc<Term>, Ghost(s): Ghost<Seq<char>>, Ghost(
    end,
): Ghost<nat>) -> (done: Option<Rc<Term>>)
    ensures
        match done {
            Some(t) => finish(path_view(old(path)@), term@, s, end) == Ok::<
                (SpecTerm, nat),
                ParseError,
            >((t@, end)),
            None => finish(path_view(old(path)@), term@, s, end) == whole(
                path_view(final(path)@),
                s,
                end,
            ),
        },
{
    let ghost first = term@;
    let mut subtree = term;
    loop
        invariant
            first == term@,
            finish(path_view(path@), subtree@, s, end) == finish(
                path_view(old(path)@),
                first,
                s,
                end,
            ),
        decreases path@.len(),
    {
        let ghost before = path@;
        let ghost inner = subtree@;
        match path.pop() {
            None => {
                assert(path_view(before).len() == 0);
                return Some(subtree);
            },
            Some(None) => {
                let ghost rest = path@;
                path.push(Some(subtree));
                proof {
                    assert(path_view(before).len() == before.len());
                    assert(path_view(before).last() == None::<SpecTerm>);
                    assert(path_view(before).drop_last() =~= path_view(rest));
                    assert(path_view(path@) =~= path_view(rest).push(Some(inner)));
                    lemma_finish_function(path_view(before), inner, s, end);
                }
                return None;
            },
            Some(Some(left)) => {
                proof {
                    assert(path_view(before).len() == before.len());
                    assert(path_view(before).last() == Some(left@));
                    assert(path_view(before).drop_last() =~= path_view(path@));
                }
                subtree = Rc::new(Term::Apply(left, subtree));
            },
        }
    }
}

/// The program that `s` holds.
pub fn parse(s: &Vec<char>) -> (r: Result<Rc<Term>, ParseError>)
    ensures
        match r {
            Ok(t) => parse_spec(s@) == Ok::<SpecTerm, ParseError>(t@) && t@.is_program()
                && t@.wf(),
            Err(e) => parse_spec(s@) == Err::<SpecTerm, ParseError>(e),
        },
{
    let mut path: Vec<Option<Rc<Term>>> = Vec::new();
    let mut pos: usize = 0;
    proof {
        lemma_parsed_is_program(s@);
        assert(path_view(path@) =~= Seq::<Option<SpecTerm>>::empty());
        lemma_parse_bounds(s@, 0);
    }
    loop
        invariant
            pos <= s@.len(),
            whole(path_view(path@), s@, pos as nat) == parse_at(s@, 0),
            parse_spec(s@) matches Ok(t) ==> t.is_program() && t.wf(),
        decreases s@.len() - pos,
    {
        if pos >= s.len() {
            return Err(ParseError::UnexpectedEof);
        }
        let c = s[pos];
        let ghost start = pos as nat;
        pos += 1;
        let leaf = if c == '`' {
            proof {
                lemma_open(path_view(path@), s@, start);
                assert(path_view(path@.push(None)) =~= path_view(path@).push(None));
            }
            path.push(None);
            continue ;
        } else if c == 'k' {
            Term::K
        } else if c == 's' {
            Term::S
        } else if c == 'i' {
            Term::I
        } else if c == 'v' {
            Term::V
        } else if c == 'd' {
            Term::D
        } else if c == 'e' {
            Term::E
        } else if c == 'c' {
            Term::C
        } else if c == 'r' {
            Term::Print('\n')
        } else if c == '@' {
            Term::Read
        } else if c == '|' {
            Term::Reprint
        } else if c == '.' || c == '?' {
            if pos >= s.len() {
                return Err(ParseError::UnexpectedEofAfter(c));
            }
            let operand = s[pos];
            pos += 1;
            if c == '.' {
                Term::Print(operand)
            } else {
                Term::CompareRead(operand)
            }
        } else if c == '#' {
            pos = skip_comment(s, pos);
            continue ;
        } else if is_whitespace(c) {
            continue ;
        } else {
            return Err(ParseError::Unrecognized(c));
        };
        let subtree = Rc::new(leaf);
        assert(parse_at(s@, start) == Ok::<(SpecTerm, nat), ParseError>((subtree@, pos as nat)));
        match attach(&mut path, subtree, Ghost(s@), Ghost(pos as nat)) {
            Some(program) => {
                return match check_trailing(s, pos) {
                    None => Ok(program),
                    Some(c) => Err(ParseError::Unexpected(c)),
                };
            },
            None => {},
        }
    }
}

/// Looks for anything but white space and comments from `pos` on.
fn check_trailing(s: &Vec<char>, pos: usize) -> (found: Option<char>)
    requires
        pos <= s@.len(),
    ensures
        found == trailing(s@, pos as nat),
{
    let mut i = pos;
    while i < s.len()
        invariant
            pos <= i <= s@.len(),
            trailing(s@, i as nat) == trailing(s@, pos as nat),
        decreases s@.len() - i,
    {
        let c = s[i];
        i += 1;
        if c == '#' {
            i = skip_comment(s, i);
        } else if !is_whitespace(c) {
            return Some(c);
        }
    }
    None
}

/// The program that the text `s` holds, or what is wrong with the text, in
/// words.
pub fn parse_str(s: &str) -> (r: Result<Rc<Term>, String>)
    ensures
        match r {
            Ok(t) => parse_spec(s@) == Ok::<SpecTerm, ParseError>(t@) && t@.is_program()
                && t@.wf(),
            Err(msg) => parse_spec(s@) matches Err(e) && msg@ == e.text() && (
            e.plain_text() matches Some(words) ==> msg@ == words),
        },
{
    let chars = chars_of(s);
    match parse(&chars) {
        Ok(t) => Ok(t),
        Err(e) => Err(e.message()),
    }
}

} // verus!
