//! The evaluation context: what a running program reads and writes.

use crate::model::World;
use crate::text::string_push;
use vstd::prelude::*;

verus! {

/// The input of a program, the output it has produced so far, and the
/// character it has read last.
pub struct Ctx {
    output: String,
    input: Vec<char>,
    pos: usize,
    cur_char: Option<char>,
}

impl View for Ctx {
    type V = World;

    closed spec fn view(&self) -> World {
        World {
            output: self.output@,
            input: if self.pos <= self.input@.len() {
                self.input@.skip(self.pos as int)
            } else {
                Seq::empty()
            },
            cur_char: self.cur_char,
        }
    }
}

impl Ctx {
    /// A context that has `input` to read and has written nothing yet.
    pub fn new(input: Vec<char>) -> (ctx: Ctx)
        ensures
            ctx@ == (World { output: Seq::empty(), input: input@, cur_char: None }),
    {
        let ctx = Ctx { output: String::new(), input, pos: 0, cur_char: None };
        assert(ctx.input@.skip(0) =~= ctx.input@);
        ctx
    }

    /// What the program has written so far.
    pub fn output(&self) -> (s: &str)
        ensures
            s@ == self@.output,
    {
        self.output.as_str()
    }

    /// The character read last, if any.
    pub fn cur_char(&self) -> (c: Option<char>)
        ensures
            c == self@.cur_char,
    {
        self.cur_char
    }

    /// The input that the program has not read.
    pub fn remaining_input(&self) -> (rest: Vec<char>)
        ensures
            rest@ == self@.input,
    {
        let mut rest: Vec<char> = Vec::new();
        let mut i: usize = self.pos;
        if i > self.input.len() {
            return rest;
        }
        while i < self.input.len()
            invariant
                self.pos <= i <= self.input@.len(),
                rest@ == self.input@.subrange(self.pos as int, i as int),
            decreases self.input@.len() - i,
        {
            rest.push(self.input[i]);
            proof {
                assert(self.input@.subrange(self.pos as int, i + 1) =~= self.input@.subrange(
                    self.pos as int,
                    i as int,
                ).push(self.input@[i as int]));
            }
            i += 1;
        }
        assert(self.input@.subrange(self.pos as int, i as int) =~= self.input@.skip(
            self.pos as int,
        ));
        rest
    }

    /// Whether there is input that the program has not read.
    pub fn has_input(&self) -> (b: bool)
        ensures
            b == (self@.input.len() > 0),
    {
        self.pos < self.input.len()
    }

    /// Adds one character at the end of the input, for the program to read
    /// once it has read what is there.
    pub fn feed(&mut self, c: char)
        ensures
            final(self)@ == (World { input: old(self)@.input.push(c), ..old(self)@ }),
    {
        if self.pos > self.input.len() {
            self.pos = self.input.len();
        }
        assert(self@.input =~= old(self)@.input);
        let ghost unread = self@.input;
        self.input.push(c);
        assert(self@.input =~= unread.push(c));
    }

    /// Hands out what the program has written since the output was last
    /// taken, and starts the output afresh.
    pub fn take_output(&mut self) -> (s: String)
        ensures
            s@ == old(self)@.output,
            final(self)@ == (World { output: Seq::empty(), ..old(self)@ }),
    {
        let mut s = String::new();
        core::mem::swap(&mut self.output, &mut s);
        s
    }

    /// Writes one character.
    pub fn emit(&mut self, c: char)
        ensures
            final(self)@ == old(self)@.emit(c),
    {
        string_push(&mut self.output, c);
    }

    /// Reads one character: returns it and makes it the current character,
    /// or returns `None` and clears the current character when the input is
    /// used up.
    pub fn read(&mut self) -> (c: Option<char>)
        ensures
            final(self)@ == old(self)@.read(),
            c == final(self)@.cur_char,
            c is Some == (old(self)@.input.len() > 0),
    {
        if self.pos < self.input.len() {
            let c = self.input[self.pos];
            assert(self.input@.skip(self.pos + 1) =~= self.input@.skip(
                self.pos as int,
            ).drop_first());
            self.pos += 1;
            self.cur_char = Some(c);
            Some(c)
        } else {
            self.cur_char = None;
            None
        }
    }
}

} // verus!
