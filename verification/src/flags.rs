//! The plain reading: every token is taken as it stands, and nothing is
//! rejected. A flag's value is always the token that follows it.

use vstd::prelude::*;
use vstd::hash_map::StringHashMap;
use vstd::pervasive::unreached;
use crate::store::{contains, drain, take, take_flag, take_strays};
use crate::tokenizer::{after_skip, classify, flag_texts, opt_text, texts, tokenize};

verus! {

/// The flags and strays of an argument list, read plainly.
pub struct ArgParse {
    map: StringHashMap<Option<String>>,
    stray: Vec<String>,
}

impl ArgParse {
    /// The flags that are still stored, each with its value.
    pub closed spec fn flags(&self) -> Map<Seq<char>, Option<Seq<char>>> {
        flag_texts(self.map@)
    }

    /// The strays that are still stored, in the order of the input.
    pub closed spec fn strays(&self) -> Seq<Seq<char>> {
        texts(self.stray@)
    }

    /// Reads `args` without its first `skips` tokens.
    fn read(args: Vec<String>, flags: usize, strays: usize, skips: usize) -> (r: Self)
        ensures
            r.flags() == classify(false, after_skip(texts(args@), skips as nat)).flags,
            r.strays() == classify(false, after_skip(texts(args@), skips as nat)).strays,
    {
        match tokenize(&args, skips, false, flags, strays) {
            Ok((map, stray)) => ArgParse { map, stray },
            // the plain reading rejects nothing
            Err(_) => unreached(),
        }
    }

    /// Reads `args` without its first token, which by convention is the
    /// program's own path.
    pub fn new(args: Vec<String>) -> (r: Self)
        ensures
            r.flags() == classify(false, after_skip(texts(args@), 1)).flags,
            r.strays() == classify(false, after_skip(texts(args@), 1)).strays,
    {
        Self::read(args, 0, 0, 1)
    }

    /// Reads all of `args`, the first token too.
    pub fn new_raw(args: Vec<String>) -> (r: Self)
        ensures
            r.flags() == classify(false, texts(args@)).flags,
            r.strays() == classify(false, texts(args@)).strays,
    {
        assert(after_skip(texts(args@), 0) =~= texts(args@));
        Self::read(args, 0, 0, 0)
    }

    /// Reads `args` without its first `skips` tokens. `flags` and `strays`
    /// say how many of each to make room for, and change nothing in the
    /// result.
    pub fn new_customized(args: Vec<String>, flags: usize, strays: usize, skips: usize) -> (r: Self)
        ensures
            r.flags() == classify(false, after_skip(texts(args@), skips as nat)).flags,
            r.strays() == classify(false, after_skip(texts(args@), skips as nat)).strays,
    {
        Self::read(args, flags, strays, skips)
    }

    /// Whether `flag` is stored, with or without a value.
    pub fn is_present(&self, flag: &str) -> (r: bool)
        ensures
            r == self.flags().contains_key(flag@),
    {
        contains(&self.map, flag)
    }

    /// Takes `flag` out and hands its value over. `None` where the flag is
    /// absent, and where it was stored without a value; either way it is
    /// absent afterwards.
    pub fn get_flag_item(&mut self, flag: &str) -> (r: Option<String>)
        ensures
            (opt_text(r), final(self).flags()) == take_flag(old(self).flags(), flag@),
            final(self).strays() == old(self).strays(),
    {
        take(&mut self.map, flag)
    }

    /// Hands all strays over, in the order of the input, and leaves none
    /// behind.
    pub fn get_strays(&mut self) -> (r: Vec<String>)
        ensures
            (texts(r@), final(self).strays()) == take_strays(old(self).strays()),
            final(self).flags() == old(self).flags(),
    {
        drain(&mut self.stray)
    }
}

} // verus!
