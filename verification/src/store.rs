//! Queries on the classified arguments: looking a flag up, taking its value
//! out, and handing over the strays.

use vstd::prelude::*;
use vstd::hash_map::StringHashMap;
use crate::tokenizer::{flag_texts, opt_text, texts};

verus! {

/// The value stored for `name`; `None` where the flag is absent or has no
/// value.
pub open spec fn lookup(flags: Map<Seq<char>, Option<Seq<char>>>, name: Seq<char>) -> Option<
    Seq<char>,
> {
    if flags.contains_key(name) {
        flags[name]
    } else {
        None
    }
}

/// Taking a flag out: the value that is handed over, and the flags that stay.
pub open spec fn take_flag(flags: Map<Seq<char>, Option<Seq<char>>>, name: Seq<char>) -> (
    Option<Seq<char>>,
    Map<Seq<char>, Option<Seq<char>>>,
) {
    (lookup(flags, name), flags.remove(name))
}

/// Draining the strays: the strays that are handed over, and the empty
/// sequence that stays.
pub open spec fn take_strays(strays: Seq<Seq<char>>) -> (Seq<Seq<char>>, Seq<Seq<char>>) {
    (strays, Seq::empty())
}

/// A flag that was taken out is absent afterwards: taking it once more hands
/// nothing over and leaves the flags as they are.
pub proof fn taken_flag_is_gone(flags: Map<Seq<char>, Option<Seq<char>>>, name: Seq<char>)
    ensures
        !take_flag(flags, name).1.contains_key(name),
        take_flag(take_flag(flags, name).1, name) == (
            None::<Seq<char>>,
            take_flag(flags, name).1,
        ),
{
    let rest = take_flag(flags, name).1;
    assert(rest.remove(name) =~= rest);
}

/// Taking one flag out leaves every other flag as it was: whether a flag is
/// present changes only when that flag itself is taken.
pub proof fn other_flags_stay(
    flags: Map<Seq<char>, Option<Seq<char>>>,
    taken: Seq<char>,
    name: Seq<char>,
)
    requires
        taken != name,
    ensures
        take_flag(flags, taken).1.contains_key(name) == flags.contains_key(name),
        lookup(take_flag(flags, taken).1, name) == lookup(flags, name),
{
}

/// Strays that were handed over are gone: draining once more hands over
/// the empty sequence.
pub proof fn drained_strays_are_gone(strays: Seq<Seq<char>>)
    ensures
        take_strays(take_strays(strays).1) == (Seq::<Seq<char>>::empty(), Seq::<Seq<char>>::empty()),
{
}

/// Whether `flag` is among the stored flags.
pub fn contains(map: &StringHashMap<Option<String>>, flag: &str) -> (r: bool)
    ensures
        r == flag_texts(map@).contains_key(flag@),
{
    map.contains_key(flag)
}

/// Whether `flag` is stored with a value; `None` where it is not stored.
pub fn has_value(map: &StringHashMap<Option<String>>, flag: &str) -> (r: Option<bool>)
    ensures
        r is Some <==> flag_texts(map@).contains_key(flag@),
        r is Some ==> r->Some_0 == (flag_texts(map@)[flag@] is Some),
{
    match map.get(flag) {
        None => None,
        Some(v) => Some(v.is_some()),
    }
}

/// Removes `flag` from the stored flags and hands its value over.
pub fn take(map: &mut StringHashMap<Option<String>>, flag: &str) -> (r: Option<String>)
    ensures
        (opt_text(r), flag_texts(final(map)@)) == take_flag(flag_texts(old(map)@), flag@),
{
    let found: Option<String> = match map.get(flag) {
        None => {
            assert(flag_texts(map@).remove(flag@) =~= flag_texts(map@));
            return None;
        },
        Some(v) => match v {
            Some(s) => Some(s.clone()),
            None => None,
        },
    };
    map.remove(flag);
    assert(flag_texts(map@) =~= flag_texts(old(map)@).remove(flag@));
    found
}

/// Hands the strays over and leaves none behind.
pub fn drain(stray: &mut Vec<String>) -> (r: Vec<String>)
    ensures
        (texts(r@), texts(final(stray)@)) == take_strays(texts(old(stray)@)),
{
    let mut out: Vec<String> = Vec::new();
    std::mem::swap(&mut out, stray);
    assert(texts(stray@) =~= Seq::<Seq<char>>::empty());
    out
}

} // verus!
