//! What holds of every interpolation.
use vstd::prelude::*;

use crate::interpolate::{
    interpolated, lemma_steps_append, logs_of, names_of, step, steps, FailureView, InterpolatorView, Outcome, Part,
    Progress,
};
use crate::reference::{
    closer, escape_closer, lead, opener, refers_to, refusal, rendered, replacements, substituted,
    unresolved,
};
use crate::reference_laws::{
    escape_does_not_survive_a_pass, escaped_literal_is_not_a_reference,
    guard_passes_only_resolvable_references, guard_reports_a_live_reference, is_plain_literal,
    is_plain_name, one_missing_reference_stops_the_text, reference_is_substituted,
    refused_unless_admissible, stands_before_an_opener, text_without_opener_is_unchanged,
};
use crate::text::find;
use crate::token::TOKEN_PREFIX;

verus! {

/// The text that the secrets pass over `target` reads: what the variables pass
/// made of it, or `target` itself where there are no variables.
pub open spec fn secrets_input(state: InterpolatorView, target: Seq<char>) -> Seq<char> {
    match state.variables {
        Some(variables) => rendered(target, variables),
        None => target,
    }
}

/// An interpolation that fails leaves the text and the recorded secrets as they
/// were.
pub proof fn failed_interpolation_changes_no_text(state: InterpolatorView, target: Seq<char>)
    requires
        interpolated(state, target).failure is Some,
    ensures
        interpolated(state, target).target == target,
        interpolated(state, target).state.secret_replacers == state.secret_replacers,
{
}

/// No interpolation changes the variables or the secrets, or forgets what was
/// put in before.
pub proof fn interpolation_only_records(state: InterpolatorView, target: Seq<char>)
    ensures
        interpolated(state, target).state.variables == state.variables,
        interpolated(state, target).state.secrets == state.secrets,
        state.variable_replacers.subset_of(interpolated(state, target).state.variable_replacers),
        state.secret_replacers.subset_of(interpolated(state, target).state.secret_replacers),
{
}

/// Interpolation succeeds only if every live provider reference that the
/// secrets pass reads has a secret, and then each reference that has one is
/// replaced by it.
pub proof fn success_leaves_no_provider_reference_unresolved(
    state: InterpolatorView,
    target: Seq<char>,
)
    requires
        interpolated(state, target).failure is None,
    ensures
        forall|name: Seq<char>| #[trigger]
            refers_to(secrets_input(state, target), name) && TOKEN_PREFIX@.is_prefix_of(name)
                ==> state.secrets.contains_key(name),
        interpolated(state, target).target == rendered(
            secrets_input(state, target),
            state.secrets,
        ),
{
    let text = secrets_input(state, target);
    if target.len() == 0 {
        assert(find(target, opener()) is None);
        if let Some(variables) = state.variables {
            text_without_opener_is_unchanged(target, variables);
        }
        text_without_opener_is_unchanged(target, state.secrets);
    }
    guard_passes_only_resolvable_references(text, state.secrets);
}

/// A text is refused for an unresolved reference only if it holds that
/// reference, live, and the secrets do not: a text without one is not affected
/// by a provider that supplies nothing.
pub proof fn only_a_text_with_a_live_reference_is_refused_for_it(
    state: InterpolatorView,
    target: Seq<char>,
    token: Seq<char>,
)
    requires
        interpolated(state, target).failure == Some(FailureView::Unresolved { token }),
    ensures
        refers_to(secrets_input(state, target), token),
        TOKEN_PREFIX@.is_prefix_of(token),
        !state.secrets.contains_key(token),
{
    guard_reports_a_live_reference(secrets_input(state, target), state.secrets);
}

/// A text without an opener is not changed and nothing is recorded.
pub proof fn plain_text_is_unchanged(state: InterpolatorView, target: Seq<char>)
    requires
        find(target, opener()) is None,
    ensures
        interpolated(state, target) == (Outcome { state, target, failure: None }),
{
    if let Some(variables) = state.variables {
        text_without_opener_is_unchanged(target, variables);
    }
    text_without_opener_is_unchanged(target, state.secrets);
    assert(state.variable_replacers.union(Set::empty()) =~= state.variable_replacers);
    assert(state.secret_replacers.union(Set::empty()) =~= state.secret_replacers);
}

/// Without variables, a reference to a secret is replaced by its value, and an
/// ordinary reference without a value stays as it is. The rest of the text
/// decides whether the whole succeeds.
pub proof fn reference_is_replaced(
    state: InterpolatorView,
    before: Seq<char>,
    name: Seq<char>,
    after: Seq<char>,
)
    requires
        state.variables is None,
        stands_before_an_opener(before),
        is_plain_name(name),
        name.len() == 0 || name[0] < '\u{80}',
        TOKEN_PREFIX@.is_prefix_of(name) ==> state.secrets.contains_key(name),
    ensures
        ({
            let whole = interpolated(state, before + opener() + name + closer() + after);
            let rest = interpolated(state, after);
            &&& whole.failure is None <==> rest.failure is None
            &&& whole.failure is None ==> whole.target == before + substituted(name, state.secrets)
                + rest.target
        }),
{
    let target = before + opener() + name + closer() + after;
    reference_is_substituted(before, name, after, state.secrets);
    one_missing_reference_stops_the_text(before, name, after, state.secrets);
    refused_unless_admissible(target);
    refused_unless_admissible(after);
    if after.len() == 0 {
        assert(find(after, opener()) is None);
        text_without_opener_is_unchanged(after, state.secrets);
    }
}

/// Without variables, a provider reference that has no secret stops the text,
/// and the failure names it.
pub proof fn missing_reference_stops_the_text(
    state: InterpolatorView,
    before: Seq<char>,
    name: Seq<char>,
    after: Seq<char>,
)
    requires
        state.variables is None,
        stands_before_an_opener(before),
        is_plain_name(name),
        TOKEN_PREFIX@.is_prefix_of(name),
        !state.secrets.contains_key(name),
    ensures
        interpolated(state, before + opener() + name + closer() + after).failure == Some(
            FailureView::Unresolved { token: name },
        ),
{
    one_missing_reference_stops_the_text(before, name, after, state.secrets);
}

/// Without variables, an escaped literal comes out with one bracket less on
/// each side, and is no reference, whatever it names. The rest of the text
/// decides whether the whole succeeds.
pub proof fn escaped_literal_comes_out(
    state: InterpolatorView,
    before: Seq<char>,
    inner: Seq<char>,
    after: Seq<char>,
)
    requires
        state.variables is None,
        stands_before_an_opener(before),
        is_plain_literal(inner),
        find(lead(after), escape_closer()) is None,
    ensures
        ({
            let whole = interpolated(
                state,
                before + opener() + seq!['['] + inner + escape_closer() + after,
            );
            let rest = interpolated(state, after);
            &&& whole.failure is None <==> rest.failure is None
            &&& whole.failure is None ==> whole.target == before + opener() + inner + closer()
                + rest.target
        }),
{
    escaped_literal_is_not_a_reference(before, inner, after, state.secrets);
    refused_unless_admissible(before + opener() + seq!['['] + inner + escape_closer() + after);
    refused_unless_admissible(after);
    if after.len() == 0 {
        assert(find(after, opener()) is None);
        text_without_opener_is_unchanged(after, state.secrets);
    }
}

/// With variables, the first pass turns an escaped literal into a live
/// reference, and one that names a missing secret stops the text.
pub proof fn escape_does_not_survive_the_variables_pass(
    state: InterpolatorView,
    before: Seq<char>,
    name: Seq<char>,
    after: Seq<char>,
)
    requires
        state.variables is Some,
        stands_before_an_opener(before),
        is_plain_name(name),
        is_plain_literal(name),
        refusal(after) is None,
        find(lead(after), escape_closer()) is None,
        TOKEN_PREFIX@.is_prefix_of(name),
        !state.secrets.contains_key(name),
    ensures
        interpolated(
            state,
            before + opener() + seq!['['] + name + escape_closer() + after,
        ).failure == Some(FailureView::Unresolved { token: name }),
{
    escape_does_not_survive_a_pass(before, name, after, state.variables->0, state.secrets);
    escaped_literal_is_not_a_reference(before, name, after, state.secrets);
    refused_unless_admissible(before + opener() + seq!['['] + name + escape_closer() + after);
    refused_unless_admissible(after);
}

/// Every secret that an interpolation put in is recorded with its name, so that
/// it can be replaced wherever the text is shown.
pub proof fn every_secret_put_in_is_recorded(
    state: InterpolatorView,
    target: Seq<char>,
    name: Seq<char>,
)
    requires
        interpolated(state, target).failure is None,
        refers_to(secrets_input(state, target), name),
        state.secrets.contains_key(name),
    ensures
        interpolated(state, target).state.secret_replacers.contains((state.secrets[name], name)),
{
    if target.len() == 0 {
        assert(find(target, opener()) is None);
        if let Some(variables) = state.variables {
            text_without_opener_is_unchanged(target, variables);
        }
        text_without_opener_is_unchanged(target, state.secrets);
        assert(replacements(target, state.secrets).contains((state.secrets[name], name)));
    }
}

/// What decides over a text: whether each pass accepts what it reads, and whether
/// every live provider reference that the secrets pass reads has a secret. A
/// reference of any other kind never stops a text, with or without variables.
pub proof fn only_refusals_and_missing_secrets_stop_a_text(
    state: InterpolatorView,
    target: Seq<char>,
)
    ensures
        ({
            let outcome = interpolated(state, target);
            let text = secrets_input(state, target);
            let refused = state.variables is Some && refusal(target) is Some;
            let held = forall|name: Seq<char>| #[trigger]
                refers_to(text, name) && "infisical://"@.is_prefix_of(name)
                    ==> state.secrets.contains_key(name);
            &&& outcome.failure is None <==> !refused && held && refusal(text) is None
            &&& outcome.failure is None ==> outcome.target == rendered(text, state.secrets)
            &&& outcome.failure is Some ==> outcome.target == target
            &&& refused ==> outcome.failure == Some(
                FailureView::Variables { target, cause: refusal(target)->0 },
            )
            &&& !refused && !held ==> outcome.failure == Some(
                FailureView::Unresolved { token: unresolved(text, state.secrets)->0 },
            )
            &&& !refused && held && refusal(text) is Some ==> outcome.failure == Some(
                FailureView::Secrets { target, cause: refusal(text)->0 },
            )
        }),
{
    let text = secrets_input(state, target);
    if target.len() == 0 {
        assert(find(target, opener()) is None);
        if let Some(variables) = state.variables {
            text_without_opener_is_unchanged(target, variables);
        }
        text_without_opener_is_unchanged(target, state.secrets);
    }
    guard_passes_only_resolvable_references(text, state.secrets);
}

/// Variables come first: with them, a text that their pass accepts fares as the text
/// that the pass makes of it does without them.
pub proof fn variables_come_before_secrets(
    state: InterpolatorView,
    variables: Map<Seq<char>, Seq<char>>,
    target: Seq<char>,
)
    requires
        state.variables == Some(variables),
        refusal(target) is None,
    ensures
        ({
            let without = InterpolatorView { variables: None, ..state };
            let whole = interpolated(state, target);
            let second = interpolated(without, rendered(target, variables));
            &&& whole.failure is None <==> second.failure is None
            &&& whole.failure is None ==> whole.target == second.target
                && whole.state.secret_replacers == second.state.secret_replacers
            &&& second.failure is Some && second.failure->0 is Unresolved ==> whole.failure
                == second.failure
        }),
{
    let without = InterpolatorView { variables: None, ..state };
    let text = rendered(target, variables);
    only_refusals_and_missing_secrets_stop_a_text(state, target);
    only_refusals_and_missing_secrets_stop_a_text(without, text);
    assert forall|pair: (Seq<char>, Seq<char>)| interpolated(state, target).failure is None implies
        interpolated(state, target).state.secret_replacers.contains(pair) == #[trigger]
        interpolated(without, text).state.secret_replacers.contains(pair) by {
        exactly_what_was_put_in_is_recorded(state, target, pair.0, pair.1);
        exactly_what_was_put_in_is_recorded(without, text, pair.0, pair.1);
    }
    if interpolated(state, target).failure is None {
        assert(interpolated(state, target).state.secret_replacers =~= interpolated(
            without,
            text,
        ).state.secret_replacers);
    }
}

/// What is recorded of an interpolation: the variables that a pass put in, also if
/// the text is stopped after it, and the secrets that were put in, only if it is
/// not. Nothing else is.
pub proof fn exactly_what_was_put_in_is_recorded(
    state: InterpolatorView,
    target: Seq<char>,
    value: Seq<char>,
    name: Seq<char>,
)
    ensures
        ({
            let outcome = interpolated(state, target);
            let text = secrets_input(state, target);
            &&& outcome.state.variable_replacers.contains((value, name)) <==> {
                ||| state.variable_replacers.contains((value, name))
                ||| state.variables is Some && refusal(target) is None && refers_to(target, name)
                    && state.variables->0.contains_key(name) && state.variables->0[name] == value
            }
            &&& outcome.state.secret_replacers.contains((value, name)) <==> {
                ||| state.secret_replacers.contains((value, name))
                ||| outcome.failure is None && refers_to(text, name) && state.secrets.contains_key(
                    name,
                ) && state.secrets[name] == value
            }
            &&& outcome.state.variables == state.variables
            &&& outcome.state.secrets == state.secrets
        }),
{
    if target.len() == 0 {
        assert(find(target, opener()) is None);
        assert(!replacements(target, state.secrets).contains((value, name))) by {
            text_without_opener_is_unchanged(target, state.secrets);
        }
        if let Some(variables) = state.variables {
            text_without_opener_is_unchanged(target, variables);
            assert(!replacements(target, variables).contains((value, name)));
        }
    }
}

/// A run of texts stops at the first that fails: those before it come out as they
/// do on their own, that one and all behind it are left as they were, and the
/// error is that of the text, with its place.
pub proof fn run_stops_at_the_first_failure(state: InterpolatorView, parts: Seq<Part>, k: int)
    requires
        0 <= k < parts.len(),
        interpolated(state, parts[k].1).failure is Some,
        forall|i: int|
            0 <= i < k ==> interpolated(state, (#[trigger] parts[i]).1).failure is None,
    ensures
        ({
            let (end, out) = steps(Progress { state, error: None }, parts);
            &&& out.len() == parts.len()
            &&& end.error == Some((parts[k].0, interpolated(state, parts[k].1).failure->0))
            &&& forall|i: int|
                0 <= i < k ==> #[trigger] out[i] == (
                    parts[i].0,
                    interpolated(state, parts[i].1).target,
                )
            &&& forall|i: int| k <= i < parts.len() ==> #[trigger] out[i] == parts[i]
        }),
{
    let start = Progress { state, error: None };
    let front = parts.take(k);
    let rest = parts.skip(k);
    assert(parts =~= front + rest);
    lemma_steps_append(start, front, rest);
    assert forall|i: int| 0 <= i < front.len() implies interpolated(
        state,
        (#[trigger] front[i]).1,
    ).failure is None by {
        assert(front[i] == parts[i]);
    }
    run_succeeds_exactly_if_every_text_does(state, front);
    let (middle, done) = steps(start, front);
    lemma_run_keeps_the_values(start, front);
    lemma_outcome_depends_on_the_values(state, middle.state, parts[k].1);
    assert(rest[0] == parts[k]);
    let (stopped, part) = step(middle, rest[0]);
    only_refusals_and_missing_secrets_stop_a_text(middle.state, parts[k].1);
    nothing_after_an_error_is_touched(stopped, rest.drop_first());
    assert(seq![part] + rest.drop_first() =~= rest);
    assert(steps(start, parts).1 =~= done + rest);
    assert forall|i: int| 0 <= i < k implies #[trigger] (done + rest)[i] == (
        parts[i].0,
        interpolated(state, parts[i].1).target,
    ) by {
        assert(front[i] == parts[i]);
        assert(done[i] == (front[i].0, interpolated(state, front[i].1).target));
    }
}

proof fn lemma_run_keeps_the_values(progress: Progress, parts: Seq<Part>)
    ensures
        steps(progress, parts).0.state.variables == progress.state.variables,
        steps(progress, parts).0.state.secrets == progress.state.secrets,
    decreases parts.len(),
{
    if parts.len() > 0 {
        lemma_run_keeps_the_values(step(progress, parts[0]).0, parts.drop_first());
    }
}

/// After an error in a run of texts nothing more is touched.
pub proof fn nothing_after_an_error_is_touched(progress: Progress, parts: Seq<Part>)
    requires
        progress.error is Some,
    ensures
        steps(progress, parts) == (progress, parts),
    decreases parts.len(),
{
    if parts.len() > 0 {
        nothing_after_an_error_is_touched(progress, parts.drop_first());
        assert(seq![parts[0]] + parts.drop_first() =~= parts);
    }
}

proof fn lemma_outcome_depends_on_the_values(
    one: InterpolatorView,
    other: InterpolatorView,
    target: Seq<char>,
)
    requires
        one.variables == other.variables,
        one.secrets == other.secrets,
    ensures
        interpolated(one, target).target == interpolated(other, target).target,
        interpolated(one, target).failure == interpolated(other, target).failure,
{
}

/// A run of texts succeeds exactly if each of them does on its own, and then
/// each comes out as it does on its own.
pub proof fn run_succeeds_exactly_if_every_text_does(state: InterpolatorView, parts: Seq<Part>)
    ensures
        ({
            let (end, out) = steps(Progress { state, error: None }, parts);
            &&& out.len() == parts.len()
            &&& end.error is None <==> forall|i: int|
                0 <= i < parts.len() ==> interpolated(state, (#[trigger] parts[i]).1).failure is None
            &&& end.error is None ==> forall|i: int|
                0 <= i < parts.len() ==> #[trigger] out[i] == (
                    parts[i].0,
                    interpolated(state, parts[i].1).target,
                )
        }),
    decreases parts.len(),
{
    if parts.len() > 0 {
        let start = Progress { state, error: None };
        let (first, part) = step(start, parts[0]);
        let rest = parts.drop_first();
        if first.error is None {
            run_succeeds_exactly_if_every_text_does(first.state, rest);
            interpolation_only_records(state, parts[0].1);
            assert forall|i: int| 1 <= i < parts.len() implies interpolated(
                state,
                (#[trigger] parts[i]).1,
            ).target == interpolated(first.state, rest[i - 1].1).target && interpolated(
                state,
                parts[i].1,
            ).failure == interpolated(first.state, rest[i - 1].1).failure by {
                lemma_outcome_depends_on_the_values(state, first.state, parts[i].1);
            }
            let out = steps(start, parts).1;
            let end = steps(start, parts).0;
            assert forall|i: int| 0 <= i < rest.len() implies #[trigger] rest[i] == parts[i + 1] by {}
            if end.error is None {
                assert forall|i: int| 0 <= i < parts.len() implies interpolated(
                    state,
                    (#[trigger] parts[i]).1,
                ).failure is None by {
                    if i > 0 {
                        assert(interpolated(first.state, rest[i - 1].1).failure is None);
                    }
                }
                assert forall|i: int| 0 <= i < parts.len() implies #[trigger] out[i] == (
                    parts[i].0,
                    interpolated(state, parts[i].1).target,
                ) by {
                    if i > 0 {
                        assert(out[i] == steps(first, rest).1[i - 1]);
                        assert(rest[i - 1] == parts[i]);
                    }
                }
            } else {
                let j = choose|j: int|
                    0 <= j < rest.len() && interpolated(
                        first.state,
                        (#[trigger] rest[j]).1,
                    ).failure is Some;
                assert(interpolated(state, parts[j + 1].1).failure is Some);
            }
        } else {
            nothing_after_an_error_is_touched(first, rest);
            assert(interpolated(state, parts[0].1).failure is Some);
        }
    }
}

/// The logs hold only the names of secrets: two sets of replacements that agree
/// in their names give the same logs, whatever the secrets are.
pub proof fn secrets_stay_out_of_the_logs(
    variables: Seq<(Seq<char>, Seq<char>)>,
    one: Seq<(Seq<char>, Seq<char>)>,
    other: Seq<(Seq<char>, Seq<char>)>,
)
    requires
        names_of(one) == names_of(other),
    ensures
        logs_of(variables, one) == logs_of(variables, other),
{
    assert(names_of(one).len() == one.len());
    assert(names_of(other).len() == other.len());
}

} // verus!
