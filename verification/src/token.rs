//! The shape of a single argument: what makes it a flag, where an inline
//! value starts, and when the strict reading rejects it.

use vstd::prelude::*;
use vstd::string::*;

verus! {

/// The character that introduces a flag.
pub const MARKER: char = '-';

/// The character that separates a flag's name from an inline value.
pub const SEPARATOR: char = '=';

/// A token introduces a flag when its first character is the marker.
pub open spec fn is_flag(t: Seq<char>) -> bool {
    t.len() > 0 && t[0] == MARKER
}

/// The token that is the marker and nothing else.
pub open spec fn is_bare_marker(t: Seq<char>) -> bool {
    t.len() == 1 && t[0] == MARKER
}

/// The token holds the separator somewhere.
pub open spec fn has_separator(t: Seq<char>) -> bool {
    exists|i: int| 0 <= i < t.len() && t[i] == SEPARATOR
}

/// `i` is the position of the leftmost separator of `t`.
pub open spec fn is_first_separator(t: Seq<char>, i: int) -> bool {
    &&& 0 <= i < t.len()
    &&& t[i] == SEPARATOR
    &&& forall|j: int| 0 <= j < i ==> t[j] != SEPARATOR
}

/// The position of the leftmost separator of a token that has one.
pub open spec fn separator_index(t: Seq<char>) -> int {
    choose|i: int| is_first_separator(t, i)
}

/// A flag token without its marker: the flag's name in the plain form.
pub open spec fn strip_marker(t: Seq<char>) -> Seq<char> {
    t.subrange(1, t.len() as int)
}

/// The name in `-name=value`: what stands between the marker and the
/// leftmost separator.
pub open spec fn inline_name(t: Seq<char>) -> Seq<char> {
    t.subrange(1, separator_index(t))
}

/// The value in `-name=value`: everything behind the leftmost separator.
pub open spec fn inline_value(t: Seq<char>) -> Seq<char> {
    t.subrange(separator_index(t) + 1, t.len() as int)
}

/// A flag token that carries its value inline. Only the strict reading
/// knows this form.
pub open spec fn is_inline(strict: bool, t: Seq<char>) -> bool {
    strict && is_flag(t) && has_separator(t)
}

/// The name under which a flag token is entered.
pub open spec fn flag_name(strict: bool, t: Seq<char>) -> Seq<char> {
    if is_inline(strict, t) {
        inline_name(t)
    } else {
        strip_marker(t)
    }
}

/// What the strict reading rejects: the bare marker, and a flag token whose
/// last character is the separator.
pub open spec fn is_malformed(t: Seq<char>) -> bool {
    is_bare_marker(t) || (is_flag(t) && has_separator(t) && t.last() == SEPARATOR)
}

/// The leftmost separator of a token is unique.
pub proof fn lemma_first_separator_unique(t: Seq<char>, i: int)
    requires
        is_first_separator(t, i),
    ensures
        has_separator(t),
        separator_index(t) == i,
{
    let c = separator_index(t);
    assert(is_first_separator(t, c));
    if c < i {
        assert(t[c] != SEPARATOR);
    } else if i < c {
        assert(t[i] != SEPARATOR);
    }
}

/// Whether `s` starts with the marker.
pub fn starts_with_marker(s: &str) -> (r: bool)
    ensures
        r == is_flag(s@),
{
    s.unicode_len() > 0 && s.get_char(0) == MARKER
}

/// The position of the leftmost separator in `s`, if it has one.
pub fn find_separator(s: &str) -> (r: Option<usize>)
    ensures
        match r {
            Some(i) => is_first_separator(s@, i as int),
            None => !has_separator(s@),
        },
{
    let n: usize = s.unicode_len();
    let mut i: usize = 0;
    while i < n
        invariant
            n == s@.len(),
            i <= n,
            forall|j: int| 0 <= j < i ==> s@[j] != SEPARATOR,
        decreases n - i,
    {
        if s.get_char(i) == SEPARATOR {
            return Some(i);
        }
        i += 1;
    }
    None
}

/// The characters of `s` from position `from` up to `to`, as a new string.
pub fn slice_owned(s: &str, from: usize, to: usize) -> (r: String)
    requires
        from <= to <= s@.len(),
    ensures
        r@ == s@.subrange(from as int, to as int),
{
    s.substring_char(from, to).to_owned()
}

} // verus!
