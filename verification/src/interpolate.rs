//! Interpolation of variables and secrets into the texts of a resource.
use vstd::prelude::*;

use crate::interpolate_laws::run_succeeds_exactly_if_every_text_does;
use crate::reference::{unresolved, unresolved_provider_token};
use crate::replacers::Replacers;
use crate::resource::{EnvironmentVar, Log};
use crate::resource_laws::{all_become, becomes};
use crate::string_map::StringMap;
use crate::substitution::{interpolate_variables, pass_over, PassView};
use crate::text::{pair_views, views};

verus! {

/// Why a text could not be interpolated.
#[derive(Debug)]
pub enum Failure {
    /// The variables pass failed.
    Variables { target: String, cause: String },
    /// A provider reference has no value.
    Unresolved { token: String },
    /// The secrets pass failed.
    Secrets { target: String, cause: String },
}

/// The view of a [`Failure`].
pub enum FailureView {
    Variables { target: Seq<char>, cause: Seq<char> },
    Unresolved { token: Seq<char> },
    Secrets { target: Seq<char>, cause: Seq<char> },
}

impl View for Failure {
    type V = FailureView;

    open spec fn view(&self) -> FailureView {
        match self {
            Failure::Variables { target, cause } => FailureView::Variables {
                target: target@,
                cause: cause@,
            },
            Failure::Unresolved { token } => FailureView::Unresolved { token: token@ },
            Failure::Secrets { target, cause } => FailureView::Secrets {
                target: target@,
                cause: cause@,
            },
        }
    }
}

/// Where the text stood that could not be interpolated.
#[derive(Debug, Clone, Copy, PartialEq, Eq, Structural)]
pub enum Place {
    /// A text of its own.
    Target,
    /// An extra argument.
    ExtraArg,
    /// The value of an environment variable.
    VariableValue,
}

/// A failed interpolation.
#[derive(Debug)]
pub struct InterpolateError {
    pub place: Place,
    pub failure: Failure,
}

impl View for InterpolateError {
    type V = (Place, FailureView);

    open spec fn view(&self) -> (Place, FailureView) {
        (self.place, self.failure@)
    }
}

/// The words of a failure.
pub open spec fn failure_text(failure: FailureView) -> Seq<char> {
    match failure {
        FailureView::Variables { target, cause } => {
            "failed to interpolate variables into target '"@ + target + "': "@ + cause
        },
        FailureView::Unresolved { token } => {
            "unresolved secret reference '"@ + token
                + "'. The Infisical secret provider did not supply this key, so it would have been left uninterpolated. Refusing to deploy a literal token in place of a secret value. Check that the provider is enabled and healthy, and that the project alias, environment and key in the reference all exist."@
        },
        FailureView::Secrets { target, cause } => {
            "failed to interpolate secrets into target '"@ + target + "': "@ + cause
        },
    }
}

/// The words of a failed interpolation: where it failed, then why.
pub open spec fn error_text(error: (Place, FailureView)) -> Seq<char> {
    match error.0 {
        Place::Target => failure_text(error.1),
        Place::ExtraArg => "failed interpolation into extra arg: "@ + failure_text(error.1),
        Place::VariableValue => "failed interpolation into variable value: "@ + failure_text(
            error.1,
        ),
    }
}

impl Failure {
    /// Says in words why the text could not be interpolated.
    pub fn message(&self) -> (r: String)
        ensures
            r@ == failure_text(self@),
    {
        match self {
            Failure::Variables { target, cause } => {
                let mut r = "failed to interpolate variables into target '".to_owned();
                r.append(target.as_str());
                r.append("': ");
                r.append(cause.as_str());
                r
            },
            Failure::Unresolved { token } => {
                let mut r = "unresolved secret reference '".to_owned();
                r.append(token.as_str());
                r.append(
                    "'. The Infisical secret provider did not supply this key, so it would have been left uninterpolated. Refusing to deploy a literal token in place of a secret value. Check that the provider is enabled and healthy, and that the project alias, environment and key in the reference all exist.",
                );
                r
            },
            Failure::Secrets { target, cause } => {
                let mut r = "failed to interpolate secrets into target '".to_owned();
                r.append(target.as_str());
                r.append("': ");
                r.append(cause.as_str());
                r
            },
        }
    }
}

impl InterpolateError {
    /// Says in words where and why the interpolation failed.
    pub fn message(&self) -> (r: String)
        ensures
            r@ == error_text(self@),
    {
        let failure = self.failure.message();
        match self.place {
            Place::Target => failure,
            Place::ExtraArg => {
                let mut r = "failed interpolation into extra arg: ".to_owned();
                r.append(failure.as_str());
                r
            },
            Place::VariableValue => {
                let mut r = "failed interpolation into variable value: ".to_owned();
                r.append(failure.as_str());
                r
            },
        }
    }
}

/// Fails closed on an unresolvable external-provider reference.
///
/// A reference without a value is left in the output *verbatim*. For an
/// ordinary variable that is a deliberate, harmless passthrough. For a
/// secret-manager reference it is dangerous: a failed lookup would deploy the
/// literal string `[[infisical://apps/prod/DB_PASSWORD]]` as the password, and
/// the deployment would report success.
pub fn ensure_provider_tokens_resolvable(input: &str, secrets: &StringMap) -> (r: Result<
    (),
    Failure,
>)
    ensures
        match r {
            Ok(_) => unresolved(input@, secrets@) is None,
            Err(failure) => unresolved(input@, secrets@) matches Some(token) && failure@
                == (FailureView::Unresolved { token }),
        },
{
    match unresolved_provider_token(input, secrets) {
        None => Ok(()),
        Some(token) => Err(Failure::Unresolved { token }),
    }
}

/// Interpolates variables and secrets, and remembers what it put in.
pub struct Interpolator<'a> {
    pub variables: Option<&'a StringMap>,
    pub secrets: &'a StringMap,
    pub variable_replacers: Replacers,
    pub secret_replacers: Replacers,
}

/// The view of an [`Interpolator`].
pub struct InterpolatorView {
    pub variables: Option<Map<Seq<char>, Seq<char>>>,
    pub secrets: Map<Seq<char>, Seq<char>>,
    pub variable_replacers: Set<(Seq<char>, Seq<char>)>,
    pub secret_replacers: Set<(Seq<char>, Seq<char>)>,
}

impl<'a> View for Interpolator<'a> {
    type V = InterpolatorView;

    open spec fn view(&self) -> InterpolatorView {
        InterpolatorView {
            variables: match self.variables {
                Some(variables) => Some(variables@),
                None => None,
            },
            secrets: self.secrets@,
            variable_replacers: self.variable_replacers@,
            secret_replacers: self.secret_replacers@,
        }
    }
}

impl<'a> Interpolator<'a> {
    /// The replaced variables in the order in which they were first put in.
    pub open spec fn variables_in_order(&self) -> Seq<(Seq<char>, Seq<char>)> {
        self.variable_replacers.in_order()
    }

    /// The replaced secrets in the order in which they were first put in.
    pub open spec fn secrets_in_order(&self) -> Seq<(Seq<char>, Seq<char>)> {
        self.secret_replacers.in_order()
    }
}

/// What an interpolation leaves behind.
pub struct Outcome {
    pub state: InterpolatorView,
    pub target: Seq<char>,
    pub failure: Option<FailureView>,
}

/// What follows the variables pass over `target`: the input of the secrets
/// pass, with the variables that were put in recorded; or the failure of the
/// pass or of the guard.
pub open spec fn after_variables(
    state: InterpolatorView,
    target: Seq<char>,
    pass: PassView,
) -> (InterpolatorView, Result<Seq<char>, FailureView>) {
    match pass {
        Err(cause) => (state, Err(FailureView::Variables { target, cause })),
        Ok((text, pairs)) => {
            let recorded = InterpolatorView {
                variable_replacers: state.variable_replacers.union(pairs),
                ..state
            };
            match unresolved(text, state.secrets) {
                Some(token) => (recorded, Err(FailureView::Unresolved { token })),
                None => (recorded, Ok(text)),
            }
        },
    }
}

/// What follows the secrets pass: the target is set and the secrets that were
/// put in are recorded, or nothing changes but for the failure.
pub open spec fn after_secrets(state: InterpolatorView, target: Seq<char>, pass: PassView) -> Outcome {
    match pass {
        Err(cause) => Outcome {
            state,
            target,
            failure: Some(FailureView::Secrets { target, cause }),
        },
        Ok((text, pairs)) => Outcome {
            state: InterpolatorView {
                secret_replacers: state.secret_replacers.union(pairs),
                ..state
            },
            target: text,
            failure: None,
        },
    }
}

/// The variables pass over `target`, which changes nothing without variables.
pub open spec fn variables_pass(state: InterpolatorView, target: Seq<char>) -> PassView {
    match state.variables {
        Some(variables) => pass_over(target, variables),
        None => Ok((target, Set::empty())),
    }
}

/// What interpolation of one text leaves behind.
pub open spec fn interpolated(state: InterpolatorView, target: Seq<char>) -> Outcome {
    if target.len() == 0 {
        Outcome { state, target, failure: None }
    } else {
        match after_variables(state, target, variables_pass(state, target)) {
            (recorded, Err(failure)) => Outcome { state: recorded, target, failure: Some(failure) },
            (recorded, Ok(text)) => after_secrets(
                recorded,
                target,
                pass_over(text, recorded.secrets),
            ),
        }
    }
}

/// How far the interpolation of a run of texts has come.
pub struct Progress {
    pub state: InterpolatorView,
    pub error: Option<(Place, FailureView)>,
}

/// A text with its place.
pub type Part = (Place, Seq<char>);

/// Interpolation of one text of a run. After an error nothing more is touched.
pub open spec fn step(progress: Progress, part: Part) -> (Progress, Part) {
    if progress.error is Some {
        (progress, part)
    } else {
        let outcome = interpolated(progress.state, part.1);
        let error = match outcome.failure {
            Some(failure) => Some((part.0, failure)),
            None => None,
        };
        (Progress { state: outcome.state, error }, (part.0, outcome.target))
    }
}

/// Interpolation of a run of texts, one after the other.
pub open spec fn steps(progress: Progress, parts: Seq<Part>) -> (Progress, Seq<Part>)
    decreases parts.len(),
{
    if parts.len() == 0 {
        (progress, parts)
    } else {
        let (first, part) = step(progress, parts[0]);
        let (last, rest) = steps(first, parts.drop_first());
        (last, seq![part] + rest)
    }
}

/// Interpolation of all texts of a resource.
pub open spec fn interpolated_parts(state: InterpolatorView, parts: Seq<Part>) -> (
    Progress,
    Seq<Part>,
) {
    steps(Progress { state, error: None }, parts)
}

/// Texts that all have one place.
pub open spec fn placed(place: Place, texts: Seq<Seq<char>>) -> Seq<Part> {
    texts.map_values(|text: Seq<char>| (place, text))
}

/// The values of environment variables.
pub open spec fn values_of(env_vars: Seq<EnvironmentVar>) -> Seq<Seq<char>> {
    env_vars.map_values(|var: EnvironmentVar| var.value@)
}

/// The names of environment variables.
pub open spec fn variables_of(env_vars: Seq<EnvironmentVar>) -> Seq<Seq<char>> {
    env_vars.map_values(|var: EnvironmentVar| var.variable@)
}

/// The line of the variables log for a value that was put in for a name.
pub open spec fn variable_line(pair: (Seq<char>, Seq<char>)) -> Seq<char> {
    "<span class=\"text-muted-foreground\">"@ + pair.1 + " =></span> "@ + pair.0
}

/// The line of the secrets log for a name.
pub open spec fn secret_line(name: Seq<char>) -> Seq<char> {
    "<span class=\"text-muted-foreground\">replaced:</span> "@ + name
}

/// The names in a sequence of replacements.
pub open spec fn names_of(pairs: Seq<(Seq<char>, Seq<char>)>) -> Seq<Seq<char>> {
    pairs.map_values(|pair: (Seq<char>, Seq<char>)| pair.1)
}

/// The lines of a log, one below the other.
pub open spec fn joined(lines: Seq<Seq<char>>) -> Seq<char>
    decreases lines.len(),
{
    if lines.len() == 0 {
        Seq::empty()
    } else if lines.len() == 1 {
        lines[0]
    } else {
        joined(lines.drop_last()) + "\n"@ + lines.last()
    }
}

/// The logs, each with its stage, of the variables and the secrets that were
/// put in: of a variable its name and value, of a secret only its name.
pub open spec fn logs_of(
    variables: Seq<(Seq<char>, Seq<char>)>,
    secrets: Seq<(Seq<char>, Seq<char>)>,
) -> Seq<(Seq<char>, Seq<char>)> {
    let of_variables = if variables.len() == 0 {
        seq![]
    } else {
        seq![
            (
                "Interpolate Variables"@,
                joined(variables.map_values(|pair: (Seq<char>, Seq<char>)| variable_line(pair))),
            ),
        ]
    };
    let of_secrets = if secrets.len() == 0 {
        seq![]
    } else {
        seq![
            (
                "Interpolate Secrets"@,
                joined(names_of(secrets).map_values(|name: Seq<char>| secret_line(name))),
            ),
        ]
    };
    of_variables + of_secrets
}

/// The views of logs.
pub open spec fn log_views(logs: Seq<Log>) -> Seq<(Seq<char>, Seq<char>)> {
    logs.map_values(|log: Log| (log.stage@, log.stdout@))
}

/// Joins lines, one below the other.
fn join_lines(lines: &Vec<String>) -> (r: String)
    ensures
        r@ == joined(views(lines@)),
{
    let ghost all = views(lines@);
    let mut r = String::new();
    let mut i: usize = 0;
    while i < lines.len()
        invariant
            i <= lines@.len(),
            all == views(lines@),
            r@ == joined(all.take(i as int)),
        decreases lines.len() - i,
    {
        let ghost before = all.take(i as int);
        if i > 0 {
            r.append("\n");
        }
        r.append(lines[i].as_str());
        proof {
            let longer = all.take(i + 1);
            assert(longer.drop_last() =~= before);
            assert(longer.last() == lines@[i as int]@);
            assert(r@ =~= joined(longer));
        }
        i += 1;
    }
    assert(all.take(i as int) =~= all);
    r
}

/// The error of a result, if it is one.
pub open spec fn error_of(r: Result<(), InterpolateError>) -> Option<(Place, FailureView)> {
    match r {
        Ok(_) => None,
        Err(error) => Some(error@),
    }
}

pub(crate) proof fn lemma_steps_append(progress: Progress, front: Seq<Part>, back: Seq<Part>)
    ensures
        steps(progress, front + back) == ({
            let (middle, done) = steps(progress, front);
            let (last, rest) = steps(middle, back);
            (last, done + rest)
        }),
    decreases front.len(),
{
    if front.len() == 0 {
        assert(front + back =~= back);
        assert(front + steps(progress, back).1 =~= steps(progress, back).1);
    } else {
        let (first, part) = step(progress, front[0]);
        lemma_steps_append(first, front.drop_first(), back);
        assert((front + back).drop_first() =~= front.drop_first() + back);
        let (middle, done) = steps(first, front.drop_first());
        let rest = steps(middle, back).1;
        assert(seq![part] + (done + rest) =~= (seq![part] + done) + rest);
    }
}

pub(crate) proof fn lemma_steps_push(progress: Progress, front: Seq<Part>, part: Part)
    ensures
        steps(progress, front.push(part)) == ({
            let (middle, done) = steps(progress, front);
            let (last, new) = step(middle, part);
            (last, done.push(new))
        }),
{
    lemma_steps_append(progress, front, seq![part]);
    assert(front + seq![part] =~= front.push(part));
    let (middle, done) = steps(progress, front);
    let (last, new) = step(middle, part);
    reveal_with_fuel(steps, 2);
    assert(steps(middle, seq![part]).1 =~= seq![new]);
    assert(done + seq![new] =~= done.push(new));
}

impl<'a> Interpolator<'a> {
    /// An interpolator that has not put in anything yet.
    pub fn new(variables: Option<&'a StringMap>, secrets: &'a StringMap) -> (r: Interpolator<'a>)
        ensures
            r@ == (InterpolatorView {
                variables: match variables {
                    Some(map) => Some(map@),
                    None => None,
                },
                secrets: secrets@,
                variable_replacers: Set::empty(),
                secret_replacers: Set::empty(),
            }),
    {
        Interpolator {
            variables,
            secrets,
            variable_replacers: Replacers::new(),
            secret_replacers: Replacers::new(),
        }
    }

    fn interpolate_text(&mut self, target: &mut String) -> (r: Result<(), Failure>)
        ensures
            final(self)@ == interpolated(old(self)@, old(target)@).state,
            final(target)@ == interpolated(old(self)@, old(target)@).target,
            match r {
                Ok(_) => interpolated(old(self)@, old(target)@).failure is None,
                Err(failure) => interpolated(old(self)@, old(target)@).failure == Some(failure@),
            },
    {
        if target.as_str().is_empty() {
            return Ok(());
        }
        // first pass - variables
        let text = match self.variables {
            Some(variables) => match interpolate_variables(target.as_str(), variables) {
                Ok((text, more_replacers)) => {
                    self.variable_replacers.extend(more_replacers);
                    text
                },
                Err(cause) => {
                    return Err(Failure::Variables { target: target.clone(), cause });
                },
            },
            None => target.clone(),
        };
        assert(old(self)@.variable_replacers.union(Set::empty()) =~= old(self)@.variable_replacers);

        // Refuse to proceed if a provider reference cannot be resolved, rather
        // than letting the raw token pass through into a deployment.
        match ensure_provider_tokens_resolvable(text.as_str(), self.secrets) {
            Ok(_) => {},
            Err(failure) => {
                return Err(failure);
            },
        }

        // second pass - secrets
        match interpolate_variables(text.as_str(), self.secrets) {
            Ok((text, more_replacers)) => {
                self.secret_replacers.extend(more_replacers);
                *target = text;
                Ok(())
            },
            Err(cause) => Err(Failure::Secrets { target: target.clone(), cause }),
        }
    }

    /// Interpolates one text of a run, unless an earlier one failed.
    pub(crate) fn advance(
        &mut self,
        so_far: Result<(), InterpolateError>,
        place: Place,
        target: &mut String,
    ) -> (r: Result<(), InterpolateError>)
        ensures
            (
                Progress { state: final(self)@, error: error_of(r) },
                (place, final(target)@),
            ) == step(
                Progress { state: old(self)@, error: error_of(so_far) },
                (place, old(target)@),
            ),
    {
        match so_far {
            Err(error) => Err(error),
            Ok(_) => match self.interpolate_text(target) {
                Ok(_) => Ok(()),
                Err(failure) => Err(InterpolateError { place, failure }),
            },
        }
    }

    /// Interpolates a list of texts of a run, unless an earlier one failed.
    pub(crate) fn advance_all(
        &mut self,
        so_far: Result<(), InterpolateError>,
        place: Place,
        targets: &mut Vec<String>,
    ) -> (r: Result<(), InterpolateError>)
        ensures
            (
                Progress { state: final(self)@, error: error_of(r) },
                placed(place, views(final(targets)@)),
            ) == steps(
                Progress { state: old(self)@, error: error_of(so_far) },
                placed(place, views(old(targets)@)),
            ),
            final(targets)@.len() == old(targets)@.len(),
    {
        let ghost start = Progress { state: self@, error: error_of(so_far) };
        let ghost parts = placed(place, views(targets@));
        let mut done = so_far;
        let mut i: usize = 0;
        assert(parts.take(0) =~= Seq::empty());
        while i < targets.len()
            invariant
                i <= targets@.len() == parts.len(),
                steps(start, parts.take(i as int)).0 == (Progress {
                    state: self@,
                    error: error_of(done),
                }),
                placed(place, views(targets@)) == steps(start, parts.take(i as int)).1 + parts.skip(
                    i as int,
                ),
                steps(start, parts.take(i as int)).1.len() == i,
            decreases targets.len() - i,
        {
            let ghost before = placed(place, views(targets@));
            let ghost front = parts.take(i as int);
            assert(before[i as int] == (place, targets@[i as int]@));
            assert(before[i as int] == parts[i as int]);
            done = self.advance(done, place, &mut targets[i]);
            proof {
                lemma_steps_push(start, front, parts[i as int]);
                assert(parts.take(i + 1) =~= front.push(parts[i as int]));
                let after = placed(place, views(targets@));
                assert(after =~= before.update(i as int, (place, targets@[i as int]@)));
                assert(after =~= steps(start, parts.take(i + 1)).1 + parts.skip(i + 1));
            }
            i += 1;
        }
        assert(parts.take(i as int) =~= parts);
        assert(placed(place, views(targets@)) =~= steps(start, parts).1);
        done
    }

    /// Interpolates the variables and the secrets into `target`.
    pub fn interpolate_string(&mut self, target: &mut String) -> (r: Result<
        &mut Self,
        InterpolateError,
    >)
        ensures
            ({
                let outcome = interpolated(old(self)@, old(target)@);
                &&& final(target)@ == outcome.target
                &&& match r {
                    Ok(me) => outcome.failure is None && (*me)@ == outcome.state && *final(self)
                        == *final(me),
                    Err(error) => outcome.failure is Some && error@ == (
                        Place::Target,
                        outcome.failure->0,
                    ) && final(self)@ == outcome.state,
                }
            }),
    {
        match self.interpolate_text(target) {
            Ok(_) => Ok(self),
            Err(failure) => Err(InterpolateError { place: Place::Target, failure }),
        }
    }

    /// Interpolates every extra argument.
    pub fn interpolate_extra_args(&mut self, extra_args: &mut Vec<String>) -> (r: Result<
        &mut Self,
        InterpolateError,
    >)
        ensures
            ({
                let (end, parts) = interpolated_parts(
                    old(self)@,
                    placed(Place::ExtraArg, views(old(extra_args)@)),
                );
                &&& placed(Place::ExtraArg, views(final(extra_args)@)) == parts
                &&& match r {
                    Ok(me) => end.error is None && (*me)@ == end.state && *final(self)
                        == *final(me),
                    Err(error) => end.error == Some(error@) && final(self)@ == end.state,
                }
            }),
            final(extra_args)@.len() == old(extra_args)@.len(),
            r is Ok ==> all_become(old(self)@, old(extra_args)@, final(extra_args)@),
    {
        let done = self.advance_all(Ok(()), Place::ExtraArg, extra_args);
        proof {
            let before = placed(Place::ExtraArg, views(old(extra_args)@));
            let after = placed(Place::ExtraArg, views(extra_args@));
            run_succeeds_exactly_if_every_text_does(old(self)@, before);
            assert forall|i: int|
                0 <= i < old(extra_args)@.len() && done is Ok implies #[trigger] becomes(
                old(self)@,
                old(extra_args)@[i]@,
                extra_args@[i]@,
            ) by {
                assert(before[i] == (Place::ExtraArg, old(extra_args)@[i]@));
                assert(after[i] == (Place::ExtraArg, extra_args@[i]@));
            }
        }
        match done {
            Ok(_) => Ok(self),
            Err(error) => Err(error),
        }
    }

    /// Interpolates the value of every variable.
    pub fn interpolate_env_vars(&mut self, env_vars: &mut Vec<EnvironmentVar>) -> (r: Result<
        &mut Self,
        InterpolateError,
    >)
        ensures
            ({
                let (end, parts) = interpolated_parts(
                    old(self)@,
                    placed(Place::VariableValue, values_of(old(env_vars)@)),
                );
                &&& placed(Place::VariableValue, values_of(final(env_vars)@)) == parts
                &&& match r {
                    Ok(me) => end.error is None && (*me)@ == end.state && *final(self)
                        == *final(me),
                    Err(error) => end.error == Some(error@) && final(self)@ == end.state,
                }
            }),
            variables_of(final(env_vars)@) == variables_of(old(env_vars)@),
            final(env_vars)@.len() == old(env_vars)@.len(),
            forall|i: int|
                0 <= i < old(env_vars)@.len() ==> (#[trigger] final(env_vars)@[i]).variable@ == old(
                    env_vars,
                )@[i].variable@ && (r is Ok ==> becomes(
                    old(self)@,
                    old(env_vars)@[i].value@,
                    final(env_vars)@[i].value@,
                )),
    {
        let ghost start = Progress { state: self@, error: None };
        let ghost parts = placed(Place::VariableValue, values_of(env_vars@));
        let ghost names = variables_of(env_vars@);
        let mut done: Result<(), InterpolateError> = Ok(());
        let mut i: usize = 0;
        assert(parts.take(0) =~= Seq::empty());
        while i < env_vars.len()
            invariant
                i <= env_vars@.len() == parts.len(),
                steps(start, parts.take(i as int)).0 == (Progress {
                    state: self@,
                    error: error_of(done),
                }),
                placed(Place::VariableValue, values_of(env_vars@)) == steps(
                    start,
                    parts.take(i as int),
                ).1 + parts.skip(i as int),
                steps(start, parts.take(i as int)).1.len() == i,
                variables_of(env_vars@) == names,
            decreases env_vars.len() - i,
        {
            let ghost before = placed(Place::VariableValue, values_of(env_vars@));
            let ghost front = parts.take(i as int);
            assert(before[i as int] == (Place::VariableValue, env_vars@[i as int].value@));
            assert(before[i as int] == parts[i as int]);
            assert(names[i as int] == env_vars@[i as int].variable@);
            done = self.advance(done, Place::VariableValue, &mut env_vars[i].value);
            proof {
                lemma_steps_push(start, front, parts[i as int]);
                assert(parts.take(i + 1) =~= front.push(parts[i as int]));
                let after = placed(Place::VariableValue, values_of(env_vars@));
                assert(after =~= before.update(
                    i as int,
                    (Place::VariableValue, env_vars@[i as int].value@),
                ));
                assert(after =~= steps(start, parts.take(i + 1)).1 + parts.skip(i + 1));
                assert(variables_of(env_vars@) =~= names);
            }
            i += 1;
        }
        assert(parts.take(i as int) =~= parts);
        assert(placed(Place::VariableValue, values_of(env_vars@)) =~= steps(start, parts).1);
        proof {
            let after = placed(Place::VariableValue, values_of(env_vars@));
            run_succeeds_exactly_if_every_text_does(old(self)@, parts);
            assert(variables_of(env_vars@).len() == env_vars@.len());
            assert forall|i: int| 0 <= i < old(env_vars)@.len() implies (
            #[trigger] env_vars@[i]).variable@ == old(env_vars)@[i].variable@ && (done is Ok
                ==> becomes(old(self)@, old(env_vars)@[i].value@, env_vars@[i].value@)) by {
                assert(variables_of(env_vars@)[i] == env_vars@[i].variable@);
                assert(names[i] == old(env_vars)@[i].variable@);
                assert(parts[i] == (Place::VariableValue, old(env_vars)@[i].value@));
                assert(after[i] == (Place::VariableValue, env_vars@[i].value@));
            }
        }
        match done {
            Ok(_) => Ok(self),
            Err(error) => Err(error),
        }
    }

    /// Logs what was put in: variables with their values, secrets by their
    /// names only.
    pub fn push_logs(&self, logs: &mut Vec<Log>)
        ensures
            log_views(final(logs)@) == log_views(old(logs)@) + logs_of(
                self.variables_in_order(),
                self.secrets_in_order(),
            ),
            self.variables_in_order().to_set() == self@.variable_replacers,
            self.variables_in_order().no_duplicates(),
            self.secrets_in_order().to_set() == self@.secret_replacers,
            self.secrets_in_order().no_duplicates(),
    {
        let ghost start = log_views(logs@);
        // Show which variables / values were interpolated
        let variables = self.variable_replacers.pairs();
        if variables.len() > 0 {
            let mut lines: Vec<String> = Vec::new();
            let mut i: usize = 0;
            while i < variables.len()
                invariant
                    i <= variables@.len(),
                    pair_views(variables@) == self.variables_in_order(),
                    views(lines@) == self.variables_in_order().take(i as int).map_values(
                        |pair: (Seq<char>, Seq<char>)| variable_line(pair),
                    ),
                decreases variables.len() - i,
            {
                assert(self.variables_in_order()[i as int] == (
                    variables@[i as int].0@,
                    variables@[i as int].1@,
                ));
                let ghost before = views(lines@);
                let mut line = "<span class=\"text-muted-foreground\">".to_owned();
                line.append(variables[i].1.as_str());
                line.append(" =></span> ");
                line.append(variables[i].0.as_str());
                lines.push(line);
                assert(views(lines@) =~= before.push(line@));
                assert(views(lines@) =~= self.variables_in_order().take(i + 1).map_values(
                    |pair: (Seq<char>, Seq<char>)| variable_line(pair),
                ));
                i += 1;
            }
            assert(self.variables_in_order().take(i as int) =~= self.variables_in_order());
            logs.push(Log::simple("Interpolate Variables", join_lines(&lines)));
        }
        let ghost middle = log_views(logs@);
        assert(middle =~= start + logs_of(self.variables_in_order(), Seq::empty()));

        // Only show names of interpolated secrets
        let secrets = self.secret_replacers.pairs();
        if secrets.len() > 0 {
            let mut lines: Vec<String> = Vec::new();
            let mut i: usize = 0;
            while i < secrets.len()
                invariant
                    i <= secrets@.len(),
                    pair_views(secrets@) == self.secrets_in_order(),
                    views(lines@) == names_of(self.secrets_in_order()).take(i as int).map_values(
                        |name: Seq<char>| secret_line(name),
                    ),
                decreases secrets.len() - i,
            {
                assert(names_of(self.secrets_in_order())[i as int] == secrets@[i as int].1@);
                let ghost before = views(lines@);
                let mut line =
                    "<span class=\"text-muted-foreground\">replaced:</span> ".to_owned();
                line.append(secrets[i].1.as_str());
                lines.push(line);
                assert(views(lines@) =~= before.push(line@));
                assert(views(lines@) =~= names_of(self.secrets_in_order()).take(
                    i + 1,
                ).map_values(|name: Seq<char>| secret_line(name)));
                i += 1;
            }
            assert(names_of(self.secrets_in_order()).take(i as int) =~= names_of(
                self.secrets_in_order(),
            ));
            logs.push(Log::simple("Interpolate Secrets", join_lines(&lines)));
        }
        assert(log_views(logs@) =~= start + logs_of(
            self.variables_in_order(),
            self.secrets_in_order(),
        ));
    }
}

} // verus!
