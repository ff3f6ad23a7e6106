//! The single pass that sorts arguments into flags and strays.
//!
//! The pass keeps one register: the name of a flag that still waits for its
//! value. `scan` is the pass as a fold over the tokens, `classify` is what
//! it leaves behind, and `tokenize` is the pass itself.

use vstd::prelude::*;
use vstd::hash_map::StringHashMap;
use vstd::string::StrSliceExecFns;
use crate::token::{
    find_separator, inline_name, inline_value, is_flag, is_inline, is_malformed,
    lemma_first_separator_unique, slice_owned, starts_with_marker, strip_marker, MARKER,
    SEPARATOR,
};

verus! {

/// The state of the pass between two tokens.
pub struct Scan {
    /// The flags committed so far.
    pub flags: Map<Seq<char>, Option<Seq<char>>>,
    /// The strays met so far, in the order of the input.
    pub strays: Seq<Seq<char>>,
    /// The flag that waits for a value, if any.
    pub pending: Option<Seq<char>>,
}

/// What a finished pass hands over.
pub struct Classification {
    /// Each flag's name with its value, if it has one.
    pub flags: Map<Seq<char>, Option<Seq<char>>>,
    /// The tokens that are neither a flag nor a flag's value.
    pub strays: Seq<Seq<char>>,
}

/// The state before the first token.
pub open spec fn initial() -> Scan {
    Scan { flags: Map::empty(), strays: Seq::empty(), pending: None }
}

/// The flags once a waiting name is entered without a value.
pub open spec fn settle(
    flags: Map<Seq<char>, Option<Seq<char>>>,
    pending: Option<Seq<char>>,
) -> Map<Seq<char>, Option<Seq<char>>> {
    match pending {
        Some(name) => flags.insert(name, None),
        None => flags,
    }
}

/// One token's effect on the state.
///
/// A flag token first settles the waiting name. In the strict reading a flag
/// token with a separator is entered at once with its inline value; any other
/// flag token becomes the waiting name. A token that is no flag is the value of
/// the waiting name, or a stray where no name waits.
pub open spec fn step(strict: bool, s: Scan, t: Seq<char>) -> Scan {
    if is_flag(t) {
        let flags = settle(s.flags, s.pending);
        if is_inline(strict, t) {
            Scan {
                flags: flags.insert(inline_name(t), Some(inline_value(t))),
                strays: s.strays,
                pending: None,
            }
        } else {
            Scan { flags, strays: s.strays, pending: Some(strip_marker(t)) }
        }
    } else {
        match s.pending {
            Some(name) => Scan {
                flags: s.flags.insert(name, Some(t)),
                strays: s.strays,
                pending: None,
            },
            None => Scan { flags: s.flags, strays: s.strays.push(t), pending: None },
        }
    }
}

/// The state after all of `tokens`, taken from left to right.
pub open spec fn scan(strict: bool, tokens: Seq<Seq<char>>) -> Scan
    decreases tokens.len(),
{
    if tokens.len() == 0 {
        initial()
    } else {
        step(strict, scan(strict, tokens.drop_last()), tokens.last())
    }
}

/// The flags and strays of `tokens`: the state after the last token, with a
/// name that still waits entered without a value.
pub open spec fn classify(strict: bool, tokens: Seq<Seq<char>>) -> Classification {
    let s = scan(strict, tokens);
    Classification { flags: settle(s.flags, s.pending), strays: s.strays }
}

/// `i` is the position of the leftmost malformed token.
pub open spec fn is_first_malformed(tokens: Seq<Seq<char>>, i: int) -> bool {
    &&& 0 <= i < tokens.len()
    &&& is_malformed(tokens[i])
    &&& forall|j: int| 0 <= j < i ==> !is_malformed(#[trigger] tokens[j])
}

/// The token on which the strict reading fails: the leftmost malformed one.
/// `None` where every token is well formed.
pub open spec fn rejected(tokens: Seq<Seq<char>>) -> Option<Seq<char>> {
    if exists|i: int| is_first_malformed(tokens, i) {
        Some(tokens[choose|i: int| is_first_malformed(tokens, i)])
    } else {
        None
    }
}

/// The outcome of a reading: the classification, or in the strict reading the
/// token that it fails on. The plain reading never fails.
pub open spec fn parse(strict: bool, tokens: Seq<Seq<char>>) -> Result<Classification, Seq<char>> {
    if strict && rejected(tokens) is Some {
        Err(rejected(tokens)->Some_0)
    } else {
        Ok(classify(strict, tokens))
    }
}

/// What is left of `tokens` once the first `count` are dropped; nothing where
/// there are no more than `count`.
pub open spec fn after_skip(tokens: Seq<Seq<char>>, count: nat) -> Seq<Seq<char>> {
    if count >= tokens.len() {
        Seq::empty()
    } else {
        tokens.subrange(count as int, tokens.len() as int)
    }
}

/// The arguments as sequences of characters.
pub open spec fn texts(args: Seq<String>) -> Seq<Seq<char>> {
    Seq::new(args.len(), |i: int| args[i]@)
}

/// An optional string as an optional sequence of characters.
pub open spec fn opt_text(v: Option<String>) -> Option<Seq<char>> {
    match v {
        Some(s) => Some(s@),
        None => None,
    }
}

/// The stored flags with each value as a sequence of characters.
pub open spec fn flag_texts(m: Map<Seq<char>, Option<String>>) -> Map<Seq<char>, Option<Seq<char>>> {
    m.map_values(|v: Option<String>| opt_text(v))
}

/// The leftmost malformed token is the one that is rejected.
pub proof fn lemma_rejected_at(tokens: Seq<Seq<char>>, i: int)
    requires
        is_first_malformed(tokens, i),
    ensures
        rejected(tokens) == Some(tokens[i]),
{
    let c = choose|c: int| is_first_malformed(tokens, c);
    if c < i {
        assert(!is_malformed(tokens[c]));
    } else if i < c {
        assert(!is_malformed(tokens[i]));
    }
}

/// Where no token is malformed, none is rejected.
pub proof fn lemma_none_rejected(tokens: Seq<Seq<char>>)
    requires
        forall|j: int| 0 <= j < tokens.len() ==> !is_malformed(#[trigger] tokens[j]),
    ensures
        rejected(tokens) is None,
{
}

/// The state after one more token is one step from the state before it.
pub proof fn lemma_scan_next(strict: bool, tokens: Seq<Seq<char>>, i: int)
    requires
        0 <= i < tokens.len(),
    ensures
        scan(strict, tokens.take(i + 1)) == step(strict, scan(strict, tokens.take(i)), tokens[i]),
{
    assert(tokens.take(i + 1).drop_last() =~= tokens.take(i));
}

/// Entering a flag in the store enters it in its text form.
pub proof fn lemma_flag_texts_insert(m: Map<Seq<char>, Option<String>>, k: Seq<char>, v: Option<String>)
    ensures
        flag_texts(m.insert(k, v)) == flag_texts(m).insert(k, opt_text(v)),
{
    assert(flag_texts(m.insert(k, v)) =~= flag_texts(m).insert(k, opt_text(v)));
}

/// Whether the strict reading rejects `s`.
pub fn check_malformed(s: &str) -> (r: bool)
    ensures
        r == is_malformed(s@),
{
    let n: usize = s.unicode_len();
    if n == 0 || s.get_char(0) != MARKER {
        return false;
    }
    if n == 1 {
        return true;
    }
    if s.get_char(n - 1) != SEPARATOR {
        return false;
    }
    true
}

/// Reads the arguments behind the first `skips` of `args` and sorts them into
/// flags and strays. `flags` and `strays` say how much room to set aside for
/// each; they change nothing in the result, and room for more than the
/// tokens that are read is never set aside.
///
/// The strict reading fails on the leftmost malformed token and hands that
/// token back; the plain reading takes every input.
pub fn tokenize(args: &Vec<String>, skips: usize, strict: bool, flags: usize, strays: usize) -> (r:
    Result<(StringHashMap<Option<String>>, Vec<String>), String>)
    ensures
        match parse(strict, after_skip(texts(args@), skips as nat)) {
            Ok(c) => r is Ok && flag_texts(r->Ok_0.0@) == c.flags && texts(r->Ok_0.1@) == c.strays,
            Err(t) => r is Err && r->Err_0@ == t,
        },
{
    let n: usize = args.len();
    let start: usize = if skips < n { skips } else { n };
    let span: usize = n - start;
    let mut map: StringHashMap<Option<String>> = StringHashMap::with_capacity(
        if flags < span { flags } else { span },
    );
    let mut stray: Vec<String> = Vec::with_capacity(if strays < span { strays } else { span });
    let mut control: Option<String> = None;
    let ghost tokens = after_skip(texts(args@), skips as nat);
    assert(tokens.len() == n - start);
    assert(flag_texts(map@) =~= Map::<Seq<char>, Option<Seq<char>>>::empty());
    assert(texts(stray@) =~= Seq::<Seq<char>>::empty());
    let mut k: usize = start;
    while k < n
        invariant
            n == args@.len(),
            start <= k <= n,
            tokens == after_skip(texts(args@), skips as nat),
            tokens.len() == n - start,
            forall|j: int| 0 <= j < tokens.len() ==> tokens[j] == (#[trigger] args@[start + j])@,
            strict ==> forall|j: int| 0 <= j < k - start ==> !is_malformed(#[trigger] tokens[j]),
            flag_texts(map@) == scan(strict, tokens.take(k - start)).flags,
            texts(stray@) == scan(strict, tokens.take(k - start)).strays,
            opt_text(control) == scan(strict, tokens.take(k - start)).pending,
        decreases n - k,
    {
        let item: &String = &args[k];
        let ghost i = k - start;
        proof {
            assert(tokens[i] == item@);
            lemma_scan_next(strict, tokens, i);
        }
        if strict && check_malformed(item.as_str()) {
            proof {
                lemma_rejected_at(tokens, i);
            }
            return Err(item.clone());
        }
        if starts_with_marker(item.as_str()) {
            if let Some(name) = control {
                proof {
                    lemma_flag_texts_insert(map@, name@, None);
                }
                map.insert(name, None);
            }
            control = None;
            let sep: Option<usize> = if strict { find_separator(item.as_str()) } else { None };
            match sep {
                Some(at) => {
                    proof {
                        lemma_first_separator_unique(item@, at as int);
                    }
                    let len: usize = item.as_str().unicode_len();
                    let name: String = slice_owned(item.as_str(), 1, at);
                    let value: String = slice_owned(item.as_str(), at + 1, len);
                    proof {
                        lemma_flag_texts_insert(map@, name@, Some(value));
                    }
                    map.insert(name, Some(value));
                },
                None => {
                    let len: usize = item.as_str().unicode_len();
                    control = Some(slice_owned(item.as_str(), 1, len));
                },
            }
        } else {
            match control {
                Some(name) => {
                    let value: String = item.clone();
                    proof {
                        lemma_flag_texts_insert(map@, name@, Some(value));
                    }
                    map.insert(name, Some(value));
                    control = None;
                },
                None => {
                    let ghost old_stray = stray@;
                    stray.push(item.clone());
                    assert(texts(stray@) =~= texts(old_stray).push(item@));
                    control = None;
                },
            }
        }
        k += 1;
    }
    if let Some(name) = control {
        proof {
            lemma_flag_texts_insert(map@, name@, None);
        }
        map.insert(name, None);
    }
    proof {
        assert(tokens.take(n - start) =~= tokens);
        if strict {
            lemma_none_rejected(tokens);
        }
    }
    Ok((map, stray))
}

} // verus!
