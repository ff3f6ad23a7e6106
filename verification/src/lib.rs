//! A small tokenizer for command-line arguments: flags with optional values,
//! and the positional arguments left over.
//!
//! The types at the root read strictly: they know the inline form
//! `-name=value` and reject malformed tokens. The module `flags` holds the
//! plain reading, which rejects nothing.

use vstd::prelude::*;
use vstd::hash_map::StringHashMap;
use vstd::string::StringExecFns;
use crate::store::{contains, drain, has_value, take, take_flag, take_strays};
use crate::tokenizer::{after_skip, flag_texts, opt_text, parse, texts, tokenize};

pub mod flags;
pub mod roles;
pub mod store;
pub mod token;
pub mod tokenizer;

verus! {

/// How a flag stands among the stored flags.
pub enum Status {
    /// The flag is not stored.
    NotPresent,
    /// The flag is stored without a value.
    PresentButNone,
    /// The flag is stored with a value.
    Present,
}

/// The status of `name` among `flags`.
pub open spec fn status_of(flags: Map<Seq<char>, Option<Seq<char>>>, name: Seq<char>) -> Status {
    if !flags.contains_key(name) {
        Status::NotPresent
    } else if flags[name] is Some {
        Status::Present
    } else {
        Status::PresentButNone
    }
}

/// A token that the strict reading rejects.
#[derive(Debug, Clone)]
pub struct ParseError(String);

impl View for ParseError {
    type V = Seq<char>;

    /// The rejected token.
    closed spec fn view(&self) -> Seq<char> {
        self.0@
    }
}

impl ParseError {
    /// The rejected token.
    pub fn token(&self) -> (r: &str)
        ensures
            r@ == self@,
    {
        self.0.as_str()
    }

    /// The error in words: a fixed sentence, then the rejected token.
    pub fn message(&self) -> (r: String)
        ensures
            r@ == "Could not parse arg "@ + self@,
    {
        String::from_str("Could not parse arg ").concat(self.0.as_str())
    }
}

/// The flags and strays of an argument list, read strictly.
pub struct ArgParse {
    /// Each flag's name with its value, if it has one.
    pub map: StringHashMap<Option<String>>,
    /// The tokens that are neither a flag nor a flag's value.
    pub stray: Vec<String>,
}

/// What a strict reading of `tokens` owes: the classification where no token
/// is malformed, the leftmost malformed token else.
pub open spec fn reads_as(r: Result<ArgParse, ParseError>, tokens: Seq<Seq<char>>) -> bool {
    match parse(true, tokens) {
        Ok(c) => r is Ok && r->Ok_0.flags() == c.flags && r->Ok_0.strays() == c.strays,
        Err(t) => r is Err && r->Err_0@ == t,
    }
}

impl ArgParse {
    /// The flags that are still stored, each with its value.
    pub open spec fn flags(&self) -> Map<Seq<char>, Option<Seq<char>>> {
        flag_texts(self.map@)
    }

    /// The strays that are still stored, in the order of the input.
    pub open spec fn strays(&self) -> Seq<Seq<char>> {
        texts(self.stray@)
    }

    /// Reads `args` without its first `skips` tokens.
    fn read(args: Vec<String>, flags: usize, strays: usize, skips: usize) -> (r: Result<
        Self,
        ParseError,
    >)
        ensures
            reads_as(r, after_skip(texts(args@), skips as nat)),
    {
        match tokenize(&args, skips, true, flags, strays) {
            Ok((map, stray)) => Ok(ArgParse { map, stray }),
            Err(token) => Err(ParseError(token)),
        }
    }

    /// Reads `args` without its first token, which by convention is the
    /// program's own path.
    pub fn new(args: Vec<String>) -> (r: Result<Self, ParseError>)
        ensures
            reads_as(r, after_skip(texts(args@), 1)),
    {
        Self::read(args, 0, 0, 1)
    }

    /// Reads all of `args`, the first token too.
    pub fn new_raw(args: Vec<String>) -> (r: Result<Self, ParseError>)
        ensures
            reads_as(r, texts(args@)),
    {
        assert(after_skip(texts(args@), 0) =~= texts(args@));
        Self::read(args, 0, 0, 0)
    }

    /// Reads `args` without its first `skips` tokens. `flags` and `strays`
    /// say how many of each to make room for, and change nothing in the
    /// result.
    pub fn new_customized(args: Vec<String>, flags: usize, strays: usize, skips: usize) -> (r:
        Result<Self, ParseError>)
        ensures
            reads_as(r, after_skip(texts(args@), skips as nat)),
    {
        Self::read(args, flags, strays, skips)
    }

    /// Whether `flag` is stored, with or without a value.
    pub fn is_present(&self, flag: &str) -> (r: bool)
        ensures
            r == self.flags().contains_key(flag@),
    {
        contains(&self.map, flag)
    }

    /// Takes `flag` out and hands its value over. `None` where the flag is
    /// absent, and where it was stored without a value; either way it is
    /// absent afterwards.
    pub fn get_flag_item(&mut self, flag: &str) -> (r: Option<String>)
        ensures
            (opt_text(r), final(self).flags()) == take_flag(old(self).flags(), flag@),
            final(self).strays() == old(self).strays(),
    {
        take(&mut self.map, flag)
    }

    /// How `flag` stands: absent, stored without a value, or stored with one.
    pub fn get_status(&self, flag: &str) -> (r: Status)
        ensures
            r == status_of(self.flags(), flag@),
    {
        match has_value(&self.map, flag) {
            None => Status::NotPresent,
            Some(true) => Status::Present,
            Some(false) => Status::PresentButNone,
        }
    }

    /// Hands all strays over, in the order of the input, and leaves none
    /// behind.
    pub fn get_strays(&mut self) -> (r: Vec<String>)
        ensures
            (texts(r@), final(self).strays()) == take_strays(old(self).strays()),
            final(self).flags() == old(self).flags(),
    {
        drain(&mut self.stray)
    }
}

} // verus!
