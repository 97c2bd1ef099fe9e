//! What holds of references and of what interpolation makes of them.
use vstd::prelude::*;

use crate::reference::{
    admissible, closer, escape_closer, first_refusal, first_unresolved, is_admissible, is_escaped,
    is_unresolved, lead, live_name, opener, refers_to, refusal, rendered, rendered_segment,
    rendered_segments, replacements, segments, substituted, unresolved,
};
use crate::text::{
    find, is_free_of, lemma_find_after, lemma_find_at, lemma_find_bounds, lemma_split_at_front,
    split, split_once,
};
use crate::token::TOKEN_PREFIX;

verus! {

/// The guard passes exactly the inputs in which every live provider reference
/// is one that the secrets map holds.
pub proof fn guard_passes_only_resolvable_references(
    input: Seq<char>,
    secrets: Map<Seq<char>, Seq<char>>,
)
    ensures
        unresolved(input, secrets) is None <==> forall|name: Seq<char>|
            #[trigger] refers_to(input, name) && TOKEN_PREFIX@.is_prefix_of(name)
                ==> secrets.contains_key(name),
{
    let all = segments(input);
    lemma_first_unresolved(all, secrets);
    if unresolved(input, secrets) is None {
        assert forall|name: Seq<char>| #[trigger]
            refers_to(input, name) && TOKEN_PREFIX@.is_prefix_of(
                name,
            ) implies secrets.contains_key(name) by {
            let i = choose|i: int| 0 <= i < all.len() && live_name(#[trigger] all[i]) == Some(name);
            assert(!is_unresolved(all[i], secrets));
        }
    } else {
        let i = choose|i: int| 0 <= i < all.len() && is_unresolved(#[trigger] all[i], secrets);
        assert(refers_to(input, live_name(all[i])->0));
    }
}

proof fn lemma_first_unresolved(all: Seq<Seq<char>>, secrets: Map<Seq<char>, Seq<char>>)
    ensures
        first_unresolved(all, secrets) is None <==> forall|i: int|
            0 <= i < all.len() ==> !is_unresolved(#[trigger] all[i], secrets),
    decreases all.len(),
{
    if all.len() > 0 {
        let rest = all.drop_first();
        lemma_first_unresolved(rest, secrets);
        if !is_unresolved(all[0], secrets) {
            assert forall|i: int|
                0 <= i < all.len() && is_unresolved(
                    #[trigger] all[i],
                    secrets,
                ) implies first_unresolved(rest, secrets) is Some by {
                assert(rest[i - 1] == all[i]);
            }
            if first_unresolved(rest, secrets) is Some {
                let j = choose|j: int| 0 <= j < rest.len() && is_unresolved(#[trigger] rest[j], secrets);
                assert(all[j + 1] == rest[j]);
            }
        }
    }
}

/// What the guard reports is a live reference to a provider secret that the
/// secrets map does not hold.
pub proof fn guard_reports_a_live_reference(input: Seq<char>, secrets: Map<Seq<char>, Seq<char>>)
    ensures
        unresolved(input, secrets) matches Some(name) ==> refers_to(input, name)
            && TOKEN_PREFIX@.is_prefix_of(name) && !secrets.contains_key(name),
{
    if unresolved(input, secrets) is Some {
        lemma_first_unresolved_is_live(segments(input), secrets);
    }
}

proof fn lemma_first_unresolved_is_live(all: Seq<Seq<char>>, secrets: Map<Seq<char>, Seq<char>>)
    requires
        first_unresolved(all, secrets) is Some,
    ensures
        exists|i: int|
            0 <= i < all.len() && is_unresolved(#[trigger] all[i], secrets) && live_name(all[i])
                == first_unresolved(all, secrets),
    decreases all.len(),
{
    if is_unresolved(all[0], secrets) {
        assert(live_name(all[0]) == first_unresolved(all, secrets));
    } else {
        let rest = all.drop_first();
        lemma_first_unresolved_is_live(rest, secrets);
        let i = choose|i: int|
            0 <= i < rest.len() && is_unresolved(#[trigger] rest[i], secrets) && live_name(rest[i])
                == first_unresolved(rest, secrets);
        assert(all[i + 1] == rest[i]);
    }
}

/// Interpolation refuses a text exactly if it does not accept every segment.
pub proof fn refused_unless_admissible(input: Seq<char>)
    ensures
        refusal(input) is None <==> admissible(input),
{
    lemma_first_refusal(segments(input), 0);
}

proof fn lemma_first_refusal(all: Seq<Seq<char>>, index: nat)
    ensures
        first_refusal(all, index) is None <==> forall|i: int|
            0 <= i < all.len() ==> is_admissible(#[trigger] all[i]),
    decreases all.len(),
{
    if all.len() > 0 {
        let rest = all.drop_first();
        lemma_first_refusal(rest, index + 1);
        if is_admissible(all[0]) {
            assert forall|i: int|
                0 <= i < all.len() && !is_admissible(#[trigger] all[i]) implies first_refusal(
                rest,
                index + 1,
            ) is Some by {
                assert(rest[i - 1] == all[i]);
            }
            if first_refusal(rest, index + 1) is Some {
                let j = choose|j: int| 0 <= j < rest.len() && !is_admissible(#[trigger] rest[j]);
                assert(all[j + 1] == rest[j]);
            }
        }
    }
}

/// Whether no two opening brackets stand next to each other.
pub(crate) open spec fn has_no_opener(s: Seq<char>) -> bool {
    forall|i: int, j: int|
        0 <= i && j == i + 1 && j < s.len() ==> !(#[trigger] s[i] == '[' && #[trigger] s[j] == '[')
}

/// Whether what follows `s` cannot form an opener with its end.
pub(crate) open spec fn ends_clear(s: Seq<char>) -> bool {
    s.len() == 0 || s.last() != '['
}

pub(crate) proof fn lemma_opener_in_front(s: Seq<char>)
    ensures
        opener().is_prefix_of(s) <==> s.len() >= 2 && s[0] == '[' && s[1] == '[',
{
    if s.len() >= 2 {
        assert(s.subrange(0, 2)[0] == s[0] && s.subrange(0, 2)[1] == s[1]);
        if s[0] == '[' && s[1] == '[' {
            assert(s.subrange(0, 2) =~= opener());
        }
    }
}

pub(crate) proof fn lemma_opener_is_found(s: Seq<char>)
    ensures
        find(s, opener()) is None <==> has_no_opener(s),
        find(s, opener()) matches Some(at) ==> has_no_opener(s.take(at)) && ends_clear(s.take(at)),
    decreases s.len(),
{
    lemma_opener_in_front(s);
    lemma_find_bounds(s, opener());
    if !opener().is_prefix_of(s) && s.len() > 0 {
        let rest = s.drop_first();
        lemma_opener_is_found(rest);
        lemma_find_bounds(rest, opener());
        match find(rest, opener()) {
            None => {
                assert forall|i: int, j: int| 0 <= i && j == i + 1 && j < s.len() implies !(
                #[trigger] s[i] == '[' && #[trigger] s[j] == '[') by {
                    if i > 0 {
                        assert(rest[i - 1] == s[i] && rest[j - 1] == s[j]);
                    }
                }
            },
            Some(at) => {
                let front = s.take(at + 1);
                assert(front =~= seq![s[0]] + rest.take(at));
                assert(rest[at] == '[' && rest[at + 1] == '[') by {
                    assert(rest.subrange(at, at + 2)[0] == opener()[0]);
                    assert(rest.subrange(at, at + 2)[1] == opener()[1]);
                }
                assert(s[at + 1] == '[' && s[at + 2] == '[');
                assert forall|i: int, j: int| 0 <= i && j == i + 1 && j < front.len() implies !(
                #[trigger] front[i] == '[' && #[trigger] front[j] == '[') by {
                    if i > 0 {
                        assert(rest.take(at)[i - 1] == front[i] && rest.take(at)[j - 1]
                            == front[j]);
                    }
                }
                if at > 0 {
                    assert(front.last() == rest.take(at).last());
                }
            },
        }
    } else if opener().is_prefix_of(s) {
        assert(s[0] == '[' && s[1] == '[');
    }
}

/// A part without an opener, which forms none with what follows, joins the first
/// piece.
pub(crate) proof fn lemma_join(a: Seq<char>, b: Seq<char>)
    requires
        has_no_opener(a),
        ends_clear(a),
    ensures
        split(b, opener()).len() > 0,
        find(a + b, opener()) == (match find(b, opener()) {
            Some(i) => Some(a.len() + i),
            None => None::<int>,
        }),
        split(a + b, opener()) == seq![a + split(b, opener())[0]] + split(
            b,
            opener(),
        ).drop_first(),
    decreases a.len(),
{
    let whole = a + b;
    lemma_find_bounds(b, opener());
    if a.len() == 0 {
        assert(whole =~= b);
        assert(a + split(b, opener())[0] =~= split(b, opener())[0]);
        assert(split(b, opener()) =~= seq![split(b, opener())[0]] + split(
            b,
            opener(),
        ).drop_first());
    } else {
        let rest = a.drop_first();
        assert(has_no_opener(rest)) by {
            assert forall|i: int, j: int| 0 <= i && j == i + 1 && j < rest.len() implies !(
            #[trigger] rest[i] == '[' && #[trigger] rest[j] == '[') by {
                assert(a[i + 1] == rest[i] && a[j + 1] == rest[j]);
            }
        }
        assert(ends_clear(rest)) by {
            if rest.len() > 0 {
                assert(rest.last() == a.last());
            }
        }
        lemma_join(rest, b);
        lemma_opener_in_front(whole);
        assert(!opener().is_prefix_of(whole)) by {
            assert(whole[0] == a[0]);
            if a.len() == 1 {
                assert(a.last() == a[0]);
            } else {
                assert(whole[1] == a[1]);
            }
        }
        assert(whole.drop_first() =~= rest + b);
        match find(b, opener()) {
            None => {
                assert(split(whole, opener()) =~= seq![a + split(b, opener())[0]] + split(
                    b,
                    opener(),
                ).drop_first());
            },
            Some(i) => {
                let at = a.len() + i;
                assert(whole.take(at) =~= a + b.take(i));
                assert(whole.skip(at + 2) =~= b.skip(i + 2));
                assert(split(b, opener()).drop_first() =~= split(b.skip(i + 2), opener()));
                assert(split(whole, opener()) =~= seq![a + split(b, opener())[0]] + split(
                    b,
                    opener(),
                ).drop_first());
            },
        }
    }
}

/// No piece between openers holds one, and only the last can form one with what
/// follows.
pub(crate) proof fn lemma_pieces_hold_no_opener(s: Seq<char>)
    ensures
        split(s, opener()).len() > 0,
        forall|i: int|
            0 <= i < split(s, opener()).len() ==> has_no_opener(#[trigger] split(s, opener())[i]),
        forall|i: int|
            0 <= i < split(s, opener()).len() - 1 ==> ends_clear(#[trigger] split(s, opener())[i]),
    decreases s.len(),
{
    lemma_opener_is_found(s);
    lemma_find_bounds(s, opener());
    if let Some(at) = find(s, opener()) {
        let rest = s.skip(at + 2);
        lemma_pieces_hold_no_opener(rest);
        let all = split(s, opener());
        assert(all =~= seq![s.take(at)] + split(rest, opener()));
        assert forall|i: int| 0 <= i < all.len() implies has_no_opener(#[trigger] all[i]) by {
            if i > 0 {
                assert(all[i] == split(rest, opener())[i - 1]);
            }
        }
        assert forall|i: int| 0 <= i < all.len() - 1 implies ends_clear(#[trigger] all[i]) by {
            if i > 0 {
                assert(all[i] == split(rest, opener())[i - 1]);
            }
        }
    }
}

/// What is found in a text is found at the same place when more follows.
pub(crate) proof fn lemma_find_before(s: Seq<char>, more: Seq<char>, pattern: Seq<char>)
    requires
        find(s, pattern) is Some,
    ensures
        find(s + more, pattern) == find(s, pattern),
    decreases s.len(),
{
    lemma_find_bounds(s, pattern);
    let whole = s + more;
    if pattern.is_prefix_of(s) {
        assert(whole.subrange(0, pattern.len() as int) =~= pattern);
    } else {
        lemma_find_bounds(s.drop_first(), pattern);
        lemma_find_before(s.drop_first(), more, pattern);
        assert(whole.drop_first() =~= s.drop_first() + more);
        assert(!pattern.is_prefix_of(whole)) by {
            if pattern.is_prefix_of(whole) {
                assert(s.subrange(0, pattern.len() as int) =~= whole.subrange(
                    0,
                    pattern.len() as int,
                ));
            }
        }
    }
}

/// A text without brackets is a name and a literal as it is, and may stand before
/// an opener.
pub proof fn text_without_brackets_is_plain(s: Seq<char>)
    requires
        is_free_of(s, '['),
        is_free_of(s, ']'),
    ensures
        stands_before_an_opener(s),
        is_plain_name(s),
        is_plain_literal(s),
{
    let nothing = Seq::<char>::empty();
    lemma_find_after(s, nothing, opener());
    assert(s + nothing =~= s);
    lemma_find_after(s, closer().drop_last(), closer());
    assert(find(closer().drop_last(), closer()) is None) by {
        reveal_with_fuel(find, 3);
    }
    lemma_find_after(s, escape_closer().drop_last(), escape_closer());
    assert(find(escape_closer().drop_last(), escape_closer()) is None) by {
        reveal_with_fuel(find, 4);
    }
}

/// A text without an opener has no reference: interpolation accepts it and
/// leaves it as it is.
pub proof fn text_without_opener_is_unchanged(
    input: Seq<char>,
    values: Map<Seq<char>, Seq<char>>,
)
    requires
        find(input, opener()) is None,
    ensures
        refusal(input) is None,
        rendered(input, values) == input,
        replacements(input, values) == Set::<(Seq<char>, Seq<char>)>::empty(),
        unresolved(input, values) is None,
{
    assert(segments(input).len() == 0);
    assert(rendered(input, values) =~= input);
    assert(replacements(input, values) =~= Set::<(Seq<char>, Seq<char>)>::empty());
}

/// Whether an opener right behind `s` is the first one: `s` holds none, and forms
/// none with it.
pub open spec fn stands_before_an_opener(s: Seq<char>) -> bool {
    find(s, opener()) is None && (s.len() == 0 || s.last() != '[')
}

/// Whether `name` between an opener and a closer is what the reference names: it
/// holds no opener, does not make the opener an escape, and neither holds a closer
/// nor forms one with that behind it.
pub open spec fn is_plain_name(name: Seq<char>) -> bool {
    &&& find(name, opener()) is None
    &&& !is_escaped(name)
    &&& find(name + closer().drop_last(), closer()) is None
}

/// Whether `inner` between the brackets of an escape is what the literal holds.
pub open spec fn is_plain_literal(inner: Seq<char>) -> bool {
    &&& find(inner, opener()) is None
    &&& !is_escaped(inner)
    &&& find(inner + escape_closer().drop_last(), escape_closer()) is None
}

/// The segments of a text whose first opener stands right after `before`.
proof fn lemma_first_segment(before: Seq<char>, inner: Seq<char>, after: Seq<char>)
    requires
        stands_before_an_opener(before),
        has_no_opener(inner),
        ends_clear(inner),
    ensures
        lead(before + opener() + inner + after) == before,
        segments(before + opener() + inner + after) == seq![inner + lead(after)] + segments(after),
{
    let rest = inner + after;
    lemma_join(inner, after);
    lemma_split_at_front(rest, opener());
    lemma_opener_is_found(before);
    lemma_join(before, opener() + rest);
    assert(before + opener() + inner + after =~= before + (opener() + rest));
    assert(before + Seq::<char>::empty() =~= before);
    assert(split(opener() + rest, opener()).drop_first() =~= split(rest, opener()));
    assert(segments(before + opener() + inner + after) =~= seq![inner + lead(after)] + segments(
        after,
    ));
}

/// A text behind which a closing bracket stands holds no more openers than
/// before, and forms none with what follows.
proof fn lemma_closed_text(s: Seq<char>, end: Seq<char>)
    requires
        has_no_opener(s),
        end.len() > 0,
        is_free_of(end, '['),
    ensures
        has_no_opener(s + end),
        ends_clear(s + end),
{
    let whole = s + end;
    assert forall|i: int, j: int| 0 <= i && j == i + 1 && j < whole.len() implies !(
    #[trigger] whole[i] == '[' && #[trigger] whole[j] == '[') by {
        if j < s.len() {
            assert(whole[i] == s[i] && whole[j] == s[j]);
        } else {
            assert(whole[j] == end[j - s.len()]);
        }
    }
    assert(whole.last() == end[end.len() - 1]);
}

/// A reference is replaced by its value wherever it stands, and one without a
/// value stays as it is; the rest of the text is interpolated on its own.
pub proof fn reference_is_substituted(
    before: Seq<char>,
    name: Seq<char>,
    after: Seq<char>,
    values: Map<Seq<char>, Seq<char>>,
)
    requires
        stands_before_an_opener(before),
        is_plain_name(name),
    ensures
        rendered(before + opener() + name + closer() + after, values) == before + substituted(
            name,
            values,
        ) + rendered(after, values),
        name.len() == 0 || name[0] < '\u{80}' ==> admissible(
            before + opener() + name + closer() + after,
        ) == admissible(after),
        replacements(before + opener() + name + closer() + after, values) == (
        if values.contains_key(name) {
            replacements(after, values).insert((values[name], name))
        } else {
            replacements(after, values)
        }),
{
    let inner = name + closer();
    let input = before + opener() + name + closer() + after;
    assert(input =~= before + opener() + inner + after);
    lemma_opener_is_found(name);
    lemma_closed_text(name, closer());
    lemma_first_segment(before, inner, after);
    let segment = inner + lead(after);
    lemma_reference_segment(name, lead(after));
    assert(segment =~= name + closer() + lead(after));
    assert(segments(input).drop_first() =~= segments(after));
    assert(segments(input)[0] == segment);
    assert forall|i: int| 0 <= i < segments(after).len() implies #[trigger] segments(after)[i]
        == segments(input)[i + 1] by {}
    assert(segment[0] == if name.len() == 0 {
        ']'
    } else {
        name[0]
    });
    assert(forall|i: int|
        1 <= i < segments(input).len() ==> #[trigger] segments(input)[i] == segments(after)[i - 1]);
    assert forall|other: Seq<char>| #[trigger] refers_to(input, other) <==> (other == name
        || refers_to(after, other)) by {
        if refers_to(after, other) {
            let i = choose|i: int|
                0 <= i < segments(after).len() && live_name(#[trigger] segments(after)[i]) == Some(
                    other,
                );
            assert(live_name(segments(input)[i + 1]) == Some(other));
        }
        if refers_to(input, other) && other != name {
            let i = choose|i: int|
                0 <= i < segments(input).len() && live_name(#[trigger] segments(input)[i]) == Some(
                    other,
                );
            assert(live_name(segments(after)[i - 1]) == Some(other));
        }
        assert(live_name(segments(input)[0]) == Some(name));
    }
    assert(replacements(input, values) =~= if values.contains_key(name) {
        replacements(after, values).insert((values[name], name))
    } else {
        replacements(after, values)
    });
    assert(rendered(input, values) =~= before + substituted(name, values) + rendered(
        after,
        values,
    ));
}

proof fn lemma_reference_segment(name: Seq<char>, after: Seq<char>)
    requires
        is_plain_name(name),
    ensures
        !is_escaped(name + closer() + after),
        split_once(name + closer() + after, closer()) == Some((name, after)),
{
    let segment = name + closer() + after;
    lemma_find_at(name, closer(), after);
    assert(segment.take(name.len() as int) =~= name);
    assert(segment.skip(name.len() as int + 2) =~= after);
    if name.len() == 0 {
        assert(segment[0] == ']');
    } else {
        assert(segment[0] == name[0]);
    }
}

/// A single provider reference that the secrets map does not hold stops the
/// whole text, whatever else stands in it; one that it holds leaves the
/// decision to the rest of the text.
pub proof fn one_missing_reference_stops_the_text(
    before: Seq<char>,
    name: Seq<char>,
    after: Seq<char>,
    secrets: Map<Seq<char>, Seq<char>>,
)
    requires
        stands_before_an_opener(before),
        is_plain_name(name),
    ensures
        unresolved(before + opener() + name + closer() + after, secrets) == (
        if TOKEN_PREFIX@.is_prefix_of(name) && !secrets.contains_key(name) {
            Some(name)
        } else {
            unresolved(after, secrets)
        }),
{
    let inner = name + closer();
    let input = before + opener() + name + closer() + after;
    assert(input =~= before + opener() + inner + after);
    lemma_opener_is_found(name);
    lemma_closed_text(name, closer());
    lemma_first_segment(before, inner, after);
    lemma_reference_segment(name, lead(after));
    assert(inner + lead(after) =~= name + closer() + lead(after));
    assert(segments(input).drop_first() =~= segments(after));
}

/// An escaped literal comes out with one bracket less on each side, whatever
/// the values are, and the guard does not look at it. Up to the next opener no
/// further closer of an escape may follow: it would be dropped.
pub proof fn escaped_literal_is_not_a_reference(
    before: Seq<char>,
    inner: Seq<char>,
    after: Seq<char>,
    values: Map<Seq<char>, Seq<char>>,
)
    requires
        stands_before_an_opener(before),
        is_plain_literal(inner),
        find(lead(after), escape_closer()) is None,
    ensures
        rendered(before + opener() + seq!['['] + inner + escape_closer() + after, values) == before
            + opener() + inner + closer() + rendered(after, values),
        unresolved(before + opener() + seq!['['] + inner + escape_closer() + after, values)
            == unresolved(after, values),
        admissible(before + opener() + seq!['['] + inner + escape_closer() + after) == admissible(
            after,
        ),
{
    let input = before + opener() + seq!['['] + inner + escape_closer() + after;
    lemma_escaped_segment(before, inner, after);
    let segment = seq!['['] + inner + escape_closer() + lead(after);
    let all = segments(input);
    let rest = segments(after);
    assert(all.drop_first() =~= rest);
    assert(all[0] == segment);
    assert(is_admissible(segment));
    assert(admissible(input) == admissible(after)) by {
        assert forall|i: int| 0 <= i < rest.len() implies #[trigger] rest[i] == all[i + 1] by {}
        assert forall|i: int| 1 <= i < all.len() implies #[trigger] all[i] == rest[i - 1] by {}
    }
    let shown = rendered_segment(segment, values);
    assert(shown == seq!['['] + (seq!['['] + inner) + closer() + lead(after)) by {
        seq![lead(after)].lemma_flatten_one_element();
    }
    assert(shown =~= opener() + inner + closer() + lead(after));
    let later = rendered_segments(rest, values);
    assert(rendered_segments(all, values) == shown + later);
    assert(before + (opener() + inner + closer() + lead(after) + later) =~= before + opener()
        + inner + closer() + (lead(after) + later));
}

proof fn lemma_escaped_segment(before: Seq<char>, inner: Seq<char>, after: Seq<char>)
    requires
        stands_before_an_opener(before),
        is_plain_literal(inner),
    ensures
        ({
            let input = before + opener() + seq!['['] + inner + escape_closer() + after;
            let segment = seq!['['] + inner + escape_closer() + lead(after);
            &&& lead(input) == before
            &&& segments(input) == seq![segment] + segments(after)
            &&& is_escaped(segment)
            &&& split_once(segment, escape_closer()) == Some((seq!['['] + inner, lead(after)))
        }),
{
    let bracketed = seq!['['] + inner;
    lemma_opener_is_found(inner);
    assert(has_no_opener(bracketed)) by {
        assert forall|i: int, j: int| 0 <= i && j == i + 1 && j < bracketed.len() implies !(
        #[trigger] bracketed[i] == '[' && #[trigger] bracketed[j] == '[') by {
            assert(bracketed[j] == inner[j - 1]);
            if i > 0 {
                assert(bracketed[i] == inner[i - 1]);
            }
        }
    }
    let tail = bracketed + escape_closer();
    lemma_closed_text(bracketed, escape_closer());
    lemma_first_segment(before, tail, after);
    let input = before + opener() + seq!['['] + inner + escape_closer() + after;
    let segment = seq!['['] + inner + escape_closer() + lead(after);
    assert(input =~= before + opener() + tail + after);
    assert(segment =~= tail + lead(after));
    assert(segment[0] == '[');
    let shorter = escape_closer().drop_last();
    assert(find(bracketed + shorter, escape_closer()) is None) by {
        let whole = bracketed + shorter;
        assert(whole.drop_first() =~= inner + shorter);
        assert(!escape_closer().is_prefix_of(whole)) by {
            if escape_closer().is_prefix_of(whole) {
                assert(whole.subrange(0, 3)[0] == whole[0]);
            }
        }
    }
    lemma_find_at(bracketed, escape_closer(), lead(after));
    assert(segment =~= bracketed + escape_closer() + lead(after));
    assert(segment.take(1 + inner.len() as int) =~= bracketed);
    assert(segment.skip(1 + inner.len() as int + 3) =~= lead(after));
}

/// The literal that an escape yields is a live reference to a further pass: a
/// text that went through two passes does not keep its escapes.
pub proof fn escape_does_not_survive_a_pass(
    before: Seq<char>,
    name: Seq<char>,
    after: Seq<char>,
    values: Map<Seq<char>, Seq<char>>,
    secrets: Map<Seq<char>, Seq<char>>,
)
    requires
        stands_before_an_opener(before),
        is_plain_name(name),
        is_plain_literal(name),
        find(lead(after), escape_closer()) is None,
        TOKEN_PREFIX@.is_prefix_of(name),
        !secrets.contains_key(name),
    ensures
        unresolved(
            rendered(before + opener() + seq!['['] + name + escape_closer() + after, values),
            secrets,
        ) == Some(name),
{
    escaped_literal_is_not_a_reference(before, name, after, values);
    one_missing_reference_stops_the_text(before, name, rendered(after, values), secrets);
}

/// A reference is to its name, wherever it stands, and to nothing else; what an
/// escaped literal holds is no reference.
pub proof fn reference_is_to_its_name(
    before: Seq<char>,
    name: Seq<char>,
    after: Seq<char>,
    other: Seq<char>,
)
    requires
        stands_before_an_opener(before),
    ensures
        is_plain_name(name) ==> (refers_to(before + opener() + name + closer() + after, other)
            <==> other == name || refers_to(after, other)),
        is_plain_literal(name) ==> (refers_to(
            before + opener() + seq!['['] + name + escape_closer() + after,
            other,
        ) <==> refers_to(after, other)),
{
    let rest = segments(after);
    if is_plain_name(name) {
        let input = before + opener() + name + closer() + after;
        let inner = name + closer();
        assert(input =~= before + opener() + inner + after);
        lemma_opener_is_found(name);
        lemma_closed_text(name, closer());
        lemma_first_segment(before, inner, after);
        lemma_reference_segment(name, lead(after));
        assert(inner + lead(after) =~= name + closer() + lead(after));
        lemma_one_more_segment(input, inner + lead(after), rest, after, other);
    }
    if is_plain_literal(name) {
        let input = before + opener() + seq!['['] + name + escape_closer() + after;
        lemma_escaped_segment(before, name, after);
        lemma_one_more_segment(
            input,
            seq!['['] + name + escape_closer() + lead(after),
            rest,
            after,
            other,
        );
    }
}

proof fn lemma_one_more_segment(
    input: Seq<char>,
    segment: Seq<char>,
    rest: Seq<Seq<char>>,
    after: Seq<char>,
    other: Seq<char>,
)
    requires
        segments(input) == seq![segment] + rest,
        rest == segments(after),
    ensures
        refers_to(input, other) <==> live_name(segment) == Some(other) || refers_to(after, other),
{
    let all = segments(input);
    assert(all[0] == segment);
    if refers_to(after, other) {
        let i = choose|i: int| 0 <= i < rest.len() && live_name(#[trigger] rest[i]) == Some(other);
        assert(live_name(all[i + 1]) == Some(other));
    }
    if refers_to(input, other) && live_name(segment) != Some(other) {
        let i = choose|i: int| 0 <= i < all.len() && live_name(#[trigger] all[i]) == Some(other);
        assert(live_name(rest[i - 1]) == Some(other));
    }
}

} // verus!
