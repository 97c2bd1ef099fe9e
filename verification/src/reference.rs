//! References in a text: `[[NAME]]` is one, `[[[NAME]]]` is the escaped literal
//! `[[NAME]]`.
use vstd::prelude::*;

use crate::number::decimal;
use crate::string_map::StringMap;
use crate::text::{cut, find, pieces, split, split_once, starts_with, views};
use crate::token::TOKEN_PREFIX;

verus! {

/// What opens a reference.
pub open spec fn opener() -> Seq<char> {
    seq!['[', '[']
}

/// What closes a reference.
pub open spec fn closer() -> Seq<char> {
    seq![']', ']']
}

/// What closes an escaped literal.
pub open spec fn escape_closer() -> Seq<char> {
    seq![']', ']', ']']
}

/// What follows each opener, up to the next one.
pub open spec fn segments(input: Seq<char>) -> Seq<Seq<char>> {
    split(input, opener()).drop_first()
}

/// What stands before the first opener.
pub open spec fn lead(input: Seq<char>) -> Seq<char> {
    split(input, opener())[0]
}

/// Whether the opener before `segment` is the one of an escaped literal.
pub open spec fn is_escaped(segment: Seq<char>) -> bool {
    segment.len() > 0 && segment[0] == '['
}

/// The name that `segment` refers to, if it is a closed reference.
pub open spec fn live_name(segment: Seq<char>) -> Option<Seq<char>> {
    if is_escaped(segment) {
        None
    } else {
        match split_once(segment, closer()) {
            Some((name, _)) => Some(name),
            None => None,
        }
    }
}

/// Whether `segment` refers to a provider secret that `secrets` does not hold.
pub open spec fn is_unresolved(
    segment: Seq<char>,
    secrets: Map<Seq<char>, Seq<char>>,
) -> bool {
    live_name(segment) matches Some(name) && TOKEN_PREFIX@.is_prefix_of(name)
        && !secrets.contains_key(name)
}

/// The name in the first of `segments` that refers to a provider secret which
/// `secrets` does not hold.
pub open spec fn first_unresolved(
    segments: Seq<Seq<char>>,
    secrets: Map<Seq<char>, Seq<char>>,
) -> Option<Seq<char>>
    decreases segments.len(),
{
    if segments.len() == 0 {
        None
    } else if is_unresolved(segments[0], secrets) {
        live_name(segments[0])
    } else {
        first_unresolved(segments.drop_first(), secrets)
    }
}

/// The first live provider reference in `input` that `secrets` does not hold.
pub open spec fn unresolved(
    input: Seq<char>,
    secrets: Map<Seq<char>, Seq<char>>,
) -> Option<Seq<char>> {
    first_unresolved(segments(input), secrets)
}

/// Whether interpolation accepts `segment`: it begins with an ASCII character,
/// and where it is not escaped, it is closed.
pub open spec fn is_admissible(segment: Seq<char>) -> bool {
    &&& segment.len() > 0
    &&& segment[0] < '\u{80}'
    &&& is_escaped(segment) || find(segment, closer()) is Some
}

/// Whether interpolation accepts every segment of `input`.
pub open spec fn admissible(input: Seq<char>) -> bool {
    forall|i: int| 0 <= i < segments(input).len() ==> is_admissible(#[trigger] segments(input)[i])
}

/// What interpolation says of the first of `segments` that it does not accept,
/// where they stand behind `index` others.
pub open spec fn first_refusal(segments: Seq<Seq<char>>, index: nat) -> Option<Seq<char>>
    decreases segments.len(),
{
    if segments.len() == 0 {
        None
    } else if segments[0].len() == 0 || segments[0][0] >= '\u{80}' {
        Some("found double opener '[[[[', formatting will fail"@)
    } else if !is_escaped(segments[0]) && find(segments[0], closer()) is None {
        Some("no closing tags for variable at index "@ + decimal(index))
    } else {
        first_refusal(segments.drop_first(), index + 1)
    }
}

/// Why interpolation does not accept `input`, if it does not.
pub open spec fn refusal(input: Seq<char>) -> Option<Seq<char>> {
    first_refusal(segments(input), 0)
}

/// What a reference to `name` is replaced by: its value, or the reference
/// itself where it has none.
pub open spec fn substituted(name: Seq<char>, values: Map<Seq<char>, Seq<char>>) -> Seq<char> {
    if values.contains_key(name) {
        values[name]
    } else {
        opener() + name + closer()
    }
}

/// What interpolation makes of one opener and the segment after it. In an
/// escaped segment the first closer of the escape loses a bracket, and any
/// further one is dropped.
pub open spec fn rendered_segment(
    segment: Seq<char>,
    values: Map<Seq<char>, Seq<char>>,
) -> Seq<char> {
    if is_escaped(segment) {
        match split_once(segment, escape_closer()) {
            Some((inner, after)) => seq!['['] + inner + closer() + split(
                after,
                escape_closer(),
            ).flatten(),
            None => seq!['['] + segment,
        }
    } else {
        match split_once(segment, closer()) {
            Some((name, after)) => substituted(name, values) + after,
            None => opener() + segment,
        }
    }
}

/// What interpolation makes of a run of openers and segments.
pub open spec fn rendered_segments(
    segments: Seq<Seq<char>>,
    values: Map<Seq<char>, Seq<char>>,
) -> Seq<char>
    decreases segments.len(),
{
    if segments.len() == 0 {
        Seq::empty()
    } else {
        rendered_segment(segments[0], values) + rendered_segments(segments.drop_first(), values)
    }
}

/// What interpolation makes of `input`.
pub open spec fn rendered(input: Seq<char>, values: Map<Seq<char>, Seq<char>>) -> Seq<char> {
    lead(input) + rendered_segments(segments(input), values)
}

/// Whether some live reference of `input` is to `name`.
pub open spec fn refers_to(input: Seq<char>, name: Seq<char>) -> bool {
    exists|i: int|
        0 <= i < segments(input).len() && live_name(#[trigger] segments(input)[i]) == Some(name)
}

/// The values that interpolation puts into `input`, each with its name.
pub open spec fn replacements(
    input: Seq<char>,
    values: Map<Seq<char>, Seq<char>>,
) -> Set<(Seq<char>, Seq<char>)> {
    Set::new(
        |pair: (Seq<char>, Seq<char>)|
            refers_to(input, pair.1) && values.contains_key(pair.1) && values[pair.1] == pair.0,
    )
}

/// Finds a live Infisical reference that the secrets map cannot resolve.
///
/// Scans the *input* to the secret-interpolation pass rather than its output,
/// because the output is ambiguous: an escaped literal (`[[[infisical://x]]]`)
/// and an unresolved reference (`[[infisical://x]]`) both come out as
/// `[[infisical://x]]`. Only the input distinguishes them.
pub fn unresolved_provider_token(input: &str, secrets: &StringMap) -> (r: Option<String>)
    ensures
        match r {
            Some(name) => unresolved(input@, secrets@) == Some(name@),
            None => unresolved(input@, secrets@) is None,
        },
{
    proof {
        reveal_strlit("[[");
        reveal_strlit("]]");
        reveal_strlit("[");
        assert("[["@ =~= opener());
        assert("]]"@ =~= closer());
    }
    let all = pieces(input, "[[");
    let ghost rest = segments(input@);
    let mut i: usize = 1;
    assert(rest.skip(0) =~= rest);
    while i < all.len()
        invariant
            1 <= i <= all@.len(),
            views(all@) == split(input@, opener()),
            rest == segments(input@),
            "[["@ == opener(),
            "]]"@ == closer(),
            "["@ == seq!['['],
            unresolved(input@, secrets@) == first_unresolved(rest.skip(i - 1), secrets@),
        decreases all.len() - i,
    {
        let ghost now = rest.skip(i - 1);
        let segment = all[i].as_str();
        assert(now[0] == segment@) by {
            assert(views(all@)[i as int] == all@[i as int]@);
        }
        assert(now.drop_first() =~= rest.skip(i as int));
        let escaped = starts_with(segment, "[");
        assert(escaped == is_escaped(segment@)) by {
            if segment@.len() > 0 {
                assert(segment@.subrange(0, 1) =~= seq![segment@[0]]);
                assert(seq!['['][0] == '[');
            }
        }
        if !escaped {
            if let Some((name, _)) = cut(segment, "]]") {
                if starts_with(name.as_str(), TOKEN_PREFIX) && !secrets.contains_key(
                    name.as_str(),
                ) {
                    return Some(name);
                }
            }
        }
        i += 1;
    }
    assert(rest.skip(i - 1).len() == 0);
    None
}

} // verus!
