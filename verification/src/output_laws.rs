//! What interpolation leaves in its output.
use vstd::prelude::*;

use crate::interpolate::{interpolated, InterpolatorView};
use crate::interpolate_laws::{secrets_input, success_leaves_no_provider_reference_unresolved};
use crate::reference::{
    closer, is_admissible, is_escaped, lead, live_name, opener, refers_to, refusal, rendered,
    rendered_segment, rendered_segments, segments,
};
use crate::reference_laws::{
    ends_clear, has_no_opener, lemma_find_before, lemma_join, lemma_opener_is_found,
    lemma_pieces_hold_no_opener, refused_unless_admissible, text_without_opener_is_unchanged,
};
use crate::text::{find, is_free_of, lemma_find_bounds, lemma_split_at_front, split};
use crate::token::TOKEN_PREFIX;

verus! {

/// Whether no value holds an opening bracket.
pub open spec fn values_hold_no_bracket(values: Map<Seq<char>, Seq<char>>) -> bool {
    forall|name: Seq<char>| #[trigger]
        values.contains_key(name) ==> is_free_of(values[name], '[')
}

/// Whether nothing in a text is escaped.
pub open spec fn nothing_is_escaped(text: Seq<char>) -> bool {
    forall|i: int| 0 <= i < segments(text).len() ==> !is_escaped(#[trigger] segments(text)[i])
}

/// Whether `all` may stand behind the openers of a text in which nothing is
/// escaped.
spec fn are_references(all: Seq<Seq<char>>) -> bool {
    &&& forall|i: int|
        0 <= i < all.len() ==> is_admissible(#[trigger] all[i]) && !is_escaped(all[i])
            && has_no_opener(all[i])
    &&& forall|i: int| 0 <= i < all.len() - 1 ==> ends_clear(#[trigger] all[i])
}

/// Whether every reference among the pieces of `s` behind its openers is one of
/// those in `all` that has no value.
spec fn only_valueless_are_left(
    s: Seq<char>,
    all: Seq<Seq<char>>,
    values: Map<Seq<char>, Seq<char>>,
) -> bool {
    forall|j: int|
        1 <= j < split(s, opener()).len() && live_name(#[trigger] split(s, opener())[j]) is Some
            ==> is_valueless(live_name(split(s, opener())[j])->0, all, values)
}

/// Whether `name` is referred to in `all` and has no value.
spec fn is_valueless(
    name: Seq<char>,
    all: Seq<Seq<char>>,
    values: Map<Seq<char>, Seq<char>>,
) -> bool {
    &&& !values.contains_key(name)
    &&& exists|i: int| 0 <= i < all.len() && live_name(#[trigger] all[i]) == Some(name)
}

proof fn lemma_valueless_in_more(
    name: Seq<char>,
    all: Seq<Seq<char>>,
    values: Map<Seq<char>, Seq<char>>,
)
    requires
        all.len() > 0,
        is_valueless(name, all.drop_first(), values),
    ensures
        is_valueless(name, all, values),
{
    let rest = all.drop_first();
    let i = choose|i: int| 0 <= i < rest.len() && live_name(#[trigger] rest[i]) == Some(name);
    assert(all[i + 1] == rest[i]);
}

proof fn lemma_rendered_references(all: Seq<Seq<char>>, values: Map<Seq<char>, Seq<char>>)
    requires
        are_references(all),
        values_hold_no_bracket(values),
    ensures
        only_valueless_are_left(rendered_segments(all, values), all, values),
    decreases all.len(),
{
    let out = rendered_segments(all, values);
    if all.len() == 0 {
        assert(find(out, opener()) is None);
    } else {
        let segment = all[0];
        let rest = all.drop_first();
        assert(are_references(rest)) by {
            assert forall|i: int| 0 <= i < rest.len() implies is_admissible(#[trigger] rest[i])
                && !is_escaped(rest[i]) && has_no_opener(rest[i]) by {
                assert(rest[i] == all[i + 1]);
            }
            assert forall|i: int| 0 <= i < rest.len() - 1 implies ends_clear(
                #[trigger] rest[i],
            ) by {
                assert(rest[i] == all[i + 1]);
            }
        }
        lemma_rendered_references(rest, values);
        let later = rendered_segments(rest, values);
        lemma_find_bounds(segment, closer());
        let at = find(segment, closer())->0;
        let name = segment.take(at);
        let after = segment.skip(at + 2);
        assert(live_name(segment) == Some(name));
        let front = rendered_segment(segment, values);
        assert(out =~= front + later);
        if values.contains_key(name) {
            lemma_value_in_place(segment, at, values[name]);
            assert(front =~= values[name] + after);
            if rest.len() == 0 {
                assert(later =~= Seq::empty());
                assert(out =~= front);
                lemma_opener_is_found(out);
                assert(split(out, opener()).len() == 1);
            } else {
                lemma_join(front, later);
            }
            lemma_opener_is_found(front);
            assert forall|j: int|
                1 <= j < split(out, opener()).len() && live_name(
                    #[trigger] split(out, opener())[j],
                ) is Some implies is_valueless(
                live_name(split(out, opener())[j])->0,
                all,
                values,
            ) by {
                assert(split(out, opener())[j] == split(later, opener())[j]);
                lemma_valueless_in_more(live_name(split(later, opener())[j])->0, all, values);
            }
        } else {
            assert(segment =~= name + closer() + after) by {
                assert(segment.subrange(at, at + 2) == closer());
                assert(segment =~= segment.take(at) + segment.subrange(at, at + 2) + segment.skip(
                    at + 2,
                ));
            }
            assert(out =~= opener() + (segment + later));
            lemma_split_at_front(segment + later, opener());
            lemma_pieces_hold_no_opener(later);
            let head = segment + split(later, opener())[0];
            if rest.len() == 0 {
                assert(later =~= Seq::empty());
                assert(find(later, opener()) is None);
                lemma_opener_is_found(segment);
                assert(segment + later =~= segment);
                assert(head =~= segment);
                assert(split(segment + later, opener()) =~= seq![head]);
            } else {
                lemma_join(segment, later);
            }
            lemma_find_before(segment, split(later, opener())[0], closer());
            assert(head[0] == segment[0]);
            assert(head.take(at) =~= name);
            assert(live_name(head) == Some(name));
            assert(is_valueless(name, all, values));
            assert forall|j: int|
                1 <= j < split(out, opener()).len() && live_name(
                    #[trigger] split(out, opener())[j],
                ) is Some implies is_valueless(
                live_name(split(out, opener())[j])->0,
                all,
                values,
            ) by {
                if j == 1 {
                    assert(split(out, opener())[1] == head);
                } else {
                    assert(split(out, opener())[j] == split(later, opener())[j - 1]);
                    lemma_valueless_in_more(
                        live_name(split(later, opener())[j - 1])->0,
                        all,
                        values,
                    );
                }
            }
        }
    }
}

/// A value in place of a reference forms no opener with what stands behind it.
proof fn lemma_value_in_place(segment: Seq<char>, at: int, value: Seq<char>)
    requires
        has_no_opener(segment),
        0 <= at,
        at + 2 <= segment.len(),
        is_free_of(value, '['),
    ensures
        has_no_opener(value + segment.skip(at + 2)),
        ends_clear(segment) ==> ends_clear(value + segment.skip(at + 2)),
{
    let after = segment.skip(at + 2);
    let front = value + after;
    assert forall|i: int, j: int| 0 <= i && j == i + 1 && j < front.len() implies !(
    #[trigger] front[i] == '[' && #[trigger] front[j] == '[') by {
        if i < value.len() {
            assert(front[i] == value[i]);
        } else {
            assert(front[i] == segment[i - value.len() + at + 2]);
            assert(front[j] == segment[j - value.len() + at + 2]);
        }
    }
    if after.len() > 0 {
        assert(front.last() == segment.last());
    } else if value.len() > 0 {
        assert(front.last() == value[value.len() - 1]);
    }
}

/// A text that interpolation accepts, in which nothing is escaped, comes out with
/// no other references than those that have no value, if no value holds a bracket.
pub proof fn only_references_without_value_are_left(
    text: Seq<char>,
    values: Map<Seq<char>, Seq<char>>,
    name: Seq<char>,
)
    requires
        refusal(text) is None,
        nothing_is_escaped(text),
        values_hold_no_bracket(values),
        refers_to(rendered(text, values), name),
    ensures
        refers_to(text, name),
        !values.contains_key(name),
{
    let all = segments(text);
    refused_unless_admissible(text);
    lemma_pieces_hold_no_opener(text);
    assert forall|i: int| 0 <= i < all.len() implies is_admissible(#[trigger] all[i])
        && !is_escaped(all[i]) && has_no_opener(all[i]) by {
        assert(all[i] == split(text, opener())[i + 1]);
    }
    assert forall|i: int| 0 <= i < all.len() - 1 implies ends_clear(#[trigger] all[i]) by {
        assert(all[i] == split(text, opener())[i + 1]);
    }
    lemma_rendered_references(all, values);
    let later = rendered_segments(all, values);
    let out = rendered(text, values);
    if all.len() == 0 {
        assert(later =~= Seq::empty());
        assert(out =~= lead(text));
        lemma_opener_is_found(out);
        assert(segments(out).len() == 0);
    } else {
        lemma_join(lead(text), later);
    }
    let k = choose|k: int|
        0 <= k < segments(out).len() && live_name(#[trigger] segments(out)[k]) == Some(name);
    assert(segments(out)[k] == split(out, opener())[k + 1]);
    assert(split(out, opener())[k + 1] == split(later, opener())[k + 1]);
    assert(is_valueless(name, all, values));
}

/// No provider reference is left in a text that was interpolated with success,
/// if nothing was escaped in what the secrets pass read and no secret holds a
/// bracket: the literal of a reference never stands in for a secret.
pub proof fn no_provider_reference_is_left(
    state: InterpolatorView,
    target: Seq<char>,
    name: Seq<char>,
)
    requires
        interpolated(state, target).failure is None,
        nothing_is_escaped(secrets_input(state, target)),
        values_hold_no_bracket(state.secrets),
        refers_to(interpolated(state, target).target, name),
    ensures
        !TOKEN_PREFIX@.is_prefix_of(name),
{
    let text = secrets_input(state, target);
    success_leaves_no_provider_reference_unresolved(state, target);
    if target.len() == 0 {
        assert(find(target, opener()) is None);
        if let Some(variables) = state.variables {
            text_without_opener_is_unchanged(target, variables);
        }
        text_without_opener_is_unchanged(target, state.secrets);
    }
    only_references_without_value_are_left(text, state.secrets, name);
}

} // verus!
