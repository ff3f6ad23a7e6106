//! The part that each token plays, told from its position alone, and the
//! proof that the pass sorts the tokens by these parts: every token is a
//! flag's name, a flag's value or a stray, and the result holds each of them
//! where its part says.

use vstd::prelude::*;
use crate::token::{flag_name, inline_value, is_flag, is_inline, strip_marker};
use crate::tokenizer::{classify, lemma_scan_next, scan, step};

verus! {

/// Token `i` names a flag.
pub open spec fn is_name(tokens: Seq<Seq<char>>, i: int) -> bool {
    0 <= i < tokens.len() && is_flag(tokens[i])
}

/// The flag named by token `i` takes the next token as its value: it does
/// not carry one inline.
pub open spec fn awaits_value(strict: bool, tokens: Seq<Seq<char>>, i: int) -> bool {
    is_name(tokens, i) && !is_inline(strict, tokens[i])
}

/// Token `i` is the value of the flag named just before it.
pub open spec fn is_value(strict: bool, tokens: Seq<Seq<char>>, i: int) -> bool {
    0 < i < tokens.len() && !is_flag(tokens[i]) && awaits_value(strict, tokens, i - 1)
}

/// Token `i` is a stray: no flag, and no flag's value.
pub open spec fn is_stray(strict: bool, tokens: Seq<Seq<char>>, i: int) -> bool {
    0 <= i < tokens.len() && !is_flag(tokens[i]) && !awaits_value(strict, tokens, i - 1)
}

/// The value that the flag named by token `i` is given there: its inline
/// value, or the token behind it where that is a value, or none.
pub open spec fn bound_value(strict: bool, tokens: Seq<Seq<char>>, i: int) -> Option<Seq<char>> {
    if is_inline(strict, tokens[i]) {
        Some(inline_value(tokens[i]))
    } else if is_value(strict, tokens, i + 1) {
        Some(tokens[i + 1])
    } else {
        None
    }
}

/// The positions of the strays among the first `n` tokens, in rising order.
pub open spec fn stray_positions(strict: bool, tokens: Seq<Seq<char>>, n: int) -> Seq<int>
    decreases n,
{
    if n <= 0 {
        Seq::empty()
    } else if is_stray(strict, tokens, n - 1) {
        stray_positions(strict, tokens, n - 1).push(n - 1)
    } else {
        stray_positions(strict, tokens, n - 1)
    }
}

/// The last position among the first `n` tokens that names the flag `name`;
/// -1 where none does.
pub open spec fn last_naming(strict: bool, tokens: Seq<Seq<char>>, name: Seq<char>, n: int) -> int
    decreases n,
{
    if n <= 0 {
        -1
    } else if is_flag(tokens[n - 1]) && flag_name(strict, tokens[n - 1]) == name {
        n - 1
    } else {
        last_naming(strict, tokens, name, n - 1)
    }
}

/// What a set of flags holds for `name`: nothing, or an entry with its
/// optional value.
pub open spec fn entry(flags: Map<Seq<char>, Option<Seq<char>>>, name: Seq<char>) -> Option<
    Option<Seq<char>>,
> {
    if flags.contains_key(name) {
        Some(flags[name])
    } else {
        None
    }
}

/// What the first `n` tokens give the flag `name`: the value bound at the
/// last position that names it.
pub open spec fn entry_by_position(
    strict: bool,
    tokens: Seq<Seq<char>>,
    name: Seq<char>,
    n: int,
) -> Option<Option<Seq<char>>> {
    let at = last_naming(strict, tokens, name, n);
    if at >= 0 {
        Some(bound_value(strict, tokens, at))
    } else {
        None
    }
}

/// The name that waits for a value after the first `n` tokens.
spec fn waiting(strict: bool, tokens: Seq<Seq<char>>, n: int) -> Option<Seq<char>> {
    if awaits_value(strict, tokens, n - 1) {
        Some(strip_marker(tokens[n - 1]))
    } else {
        None
    }
}

/// How many of the first `n` tokens are settled: all but a name that waits.
spec fn settled(strict: bool, tokens: Seq<Seq<char>>, n: int) -> int {
    if awaits_value(strict, tokens, n - 1) {
        n - 1
    } else {
        n
    }
}

/// The strays among the first `n` tokens, in the order of the input.
spec fn strays_before(strict: bool, tokens: Seq<Seq<char>>, n: int) -> Seq<Seq<char>> {
    stray_positions(strict, tokens, n).map_values(|p: int| tokens[p])
}

/// The state of the pass after `n` tokens, told from the positions.
proof fn lemma_scan_by_position(strict: bool, tokens: Seq<Seq<char>>, name: Seq<char>, n: int)
    requires
        0 <= n <= tokens.len(),
    ensures
        scan(strict, tokens.take(n)).pending == waiting(strict, tokens, n),
        scan(strict, tokens.take(n)).strays == strays_before(strict, tokens, n),
        entry(scan(strict, tokens.take(n)).flags, name) == entry_by_position(
            strict,
            tokens,
            name,
            settled(strict, tokens, n),
        ),
    decreases n,
{
    if n == 0 {
        assert(tokens.take(0) =~= Seq::<Seq<char>>::empty());
        assert(strays_before(strict, tokens, 0) =~= Seq::<Seq<char>>::empty());
    } else {
        lemma_scan_by_position(strict, tokens, name, n - 1);
        lemma_scan_next(strict, tokens, n - 1);
        let before = scan(strict, tokens.take(n - 1));
        let after = scan(strict, tokens.take(n));
        let t = tokens[n - 1];
        assert(after == step(strict, before, t));
        if is_stray(strict, tokens, n - 1) {
            assert(strays_before(strict, tokens, n) =~= strays_before(strict, tokens, n - 1).push(
                t,
            ));
        }
        // the entry for `name` may rest on either of the last two tokens
        reveal_with_fuel(last_naming, 2);
    }
}

/// Each token plays exactly one part: it names a flag, or is a flag's value,
/// or is a stray.
pub proof fn every_token_has_one_part(strict: bool, tokens: Seq<Seq<char>>, i: int)
    requires
        0 <= i < tokens.len(),
    ensures
        is_name(tokens, i) || is_value(strict, tokens, i) || is_stray(strict, tokens, i),
        !(is_name(tokens, i) && is_value(strict, tokens, i)),
        !(is_name(tokens, i) && is_stray(strict, tokens, i)),
        !(is_value(strict, tokens, i) && is_stray(strict, tokens, i)),
{
}

/// The stray positions rise, each of them is a stray's, and no stray's
/// position is missing.
pub proof fn stray_positions_are_exact(strict: bool, tokens: Seq<Seq<char>>, n: int)
    requires
        0 <= n <= tokens.len(),
    ensures
        forall|k: int|
            0 <= k < stray_positions(strict, tokens, n).len() ==> {
                &&& 0 <= (#[trigger] stray_positions(strict, tokens, n)[k]) < n
                &&& is_stray(strict, tokens, stray_positions(strict, tokens, n)[k])
            },
        forall|k: int, l: int|
            0 <= k < l < stray_positions(strict, tokens, n).len() ==> (#[trigger] stray_positions(
                strict,
                tokens,
                n,
            )[k]) < (#[trigger] stray_positions(strict, tokens, n)[l]),
        forall|i: int|
            0 <= i < n && #[trigger] is_stray(strict, tokens, i) ==> stray_positions(
                strict,
                tokens,
                n,
            ).contains(i),
    decreases n,
{
    if n > 0 {
        stray_positions_are_exact(strict, tokens, n - 1);
        let prev = stray_positions(strict, tokens, n - 1);
        let pos = stray_positions(strict, tokens, n);
        assert forall|i: int| 0 <= i < n && #[trigger] is_stray(strict, tokens, i) implies pos.contains(
            i,
        ) by {
            if i < n - 1 {
                let k = prev.index_of(i);
                assert(prev.contains(i));
                assert(pos[k] == i);
            } else {
                assert(pos[prev.len() as int] == i);
            }
        }
    }
}

/// The strays of the result are the tokens at the stray positions, one for
/// each position and in the order of the input.
pub proof fn strays_are_the_stray_tokens_in_order(strict: bool, tokens: Seq<Seq<char>>)
    ensures
        classify(strict, tokens).strays.len() == stray_positions(
            strict,
            tokens,
            tokens.len() as int,
        ).len(),
        forall|k: int|
            0 <= k < classify(strict, tokens).strays.len() ==> (#[trigger] classify(
                strict,
                tokens,
            ).strays[k]) == tokens[stray_positions(strict, tokens, tokens.len() as int)[k]],
{
    lemma_scan_by_position(strict, tokens, Seq::empty(), tokens.len() as int);
    assert(tokens.take(tokens.len() as int) =~= tokens);
}

/// The last naming of a flag is a position that names it, and no later
/// position does.
pub proof fn last_naming_is_last(strict: bool, tokens: Seq<Seq<char>>, name: Seq<char>, n: int)
    requires
        0 <= n <= tokens.len(),
    ensures
        -1 <= last_naming(strict, tokens, name, n) < n,
        last_naming(strict, tokens, name, n) >= 0 ==> is_name(
            tokens,
            last_naming(strict, tokens, name, n),
        ) && flag_name(strict, tokens[last_naming(strict, tokens, name, n)]) == name,
        forall|j: int|
            last_naming(strict, tokens, name, n) < j < n && is_flag(#[trigger] tokens[j])
                ==> flag_name(strict, tokens[j]) != name,
    decreases n,
{
    if n > 0 {
        last_naming_is_last(strict, tokens, name, n - 1);
    }
}

/// The result holds for every name what the last token that names it binds:
/// an entry where some token names the flag, and none where no token does.
pub proof fn flag_is_bound_at_its_last_naming(strict: bool, tokens: Seq<Seq<char>>, name: Seq<char>)
    ensures
        entry(classify(strict, tokens).flags, name) == entry_by_position(
            strict,
            tokens,
            name,
            tokens.len() as int,
        ),
{
    let n = tokens.len() as int;
    lemma_scan_by_position(strict, tokens, name, n);
    assert(tokens.take(n) =~= tokens);
}

/// The keys of the result are the names of the flag tokens.
pub proof fn flag_names_are_the_keys(strict: bool, tokens: Seq<Seq<char>>, name: Seq<char>)
    ensures
        classify(strict, tokens).flags.contains_key(name) <==> exists|i: int|
            is_name(tokens, i) && flag_name(strict, #[trigger] tokens[i]) == name,
{
    let n = tokens.len() as int;
    flag_is_bound_at_its_last_naming(strict, tokens, name);
    last_naming_is_last(strict, tokens, name, n);
    let at = last_naming(strict, tokens, name, n);
    if at >= 0 {
        assert(is_name(tokens, at) && flag_name(strict, tokens[at]) == name);
    }
}

/// Where several tokens name one flag, the last of them decides: a flag
/// token that no later token overrides gives the flag its value.
pub proof fn last_naming_decides(strict: bool, tokens: Seq<Seq<char>>, i: int)
    requires
        is_name(tokens, i),
        forall|j: int|
            i < j < tokens.len() && is_flag(#[trigger] tokens[j]) ==> flag_name(strict, tokens[j])
                != flag_name(strict, tokens[i]),
    ensures
        classify(strict, tokens).flags.contains_key(flag_name(strict, tokens[i])),
        classify(strict, tokens).flags[flag_name(strict, tokens[i])] == bound_value(
            strict,
            tokens,
            i,
        ),
{
    let n = tokens.len() as int;
    let name = flag_name(strict, tokens[i]);
    flag_is_bound_at_its_last_naming(strict, tokens, name);
    last_naming_is_last(strict, tokens, name, n);
    let at = last_naming(strict, tokens, name, n);
    if at < i {
        assert(is_flag(tokens[i]));
    } else if at > i {
        assert(is_flag(tokens[at]));
    }
}

} // verus!
