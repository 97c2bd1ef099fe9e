//! What holds of every configuration that is accepted.
use vstd::prelude::*;

use crate::config::{
    configured, declared_environments, declared_projects, environments_in, filled_or, first_fault,
    has_alias, optional, project_of, projects_in, required, scopes_of, scopes_of_project,
    segment_fault, Environment, ScopeView, DEFAULT_ENVIRONMENTS, ENV_PROJECTS,
};
use crate::text::{split, trimmed};
use crate::token::{is_key, is_secret_ref, is_segment, token, token_is_a_secret_ref};

verus! {

/// What holds of the projects of a configuration: every alias is valid, no two
/// are the same, and every project has an id.
pub open spec fn are_projects(projects: Seq<(Seq<char>, Seq<char>)>) -> bool {
    &&& forall|i: int|
        0 <= i < projects.len() ==> is_segment((#[trigger] projects[i]).0) && projects[i].1.len()
            > 0
    &&& forall|i: int, j: int|
        0 <= i < j < projects.len() ==> (#[trigger] projects[i]).0 != (#[trigger] projects[j]).0
}

/// What holds of the environments of a configuration: every one is valid, and no
/// two are the same.
pub open spec fn are_environments(environments: Seq<Seq<char>>) -> bool {
    &&& forall|i: int| 0 <= i < environments.len() ==> is_segment(#[trigger] environments[i])
    &&& environments.no_duplicates()
}

proof fn lemma_projects_in(entries: Seq<Seq<char>>, before: Seq<(Seq<char>, Seq<char>)>)
    requires
        are_projects(before),
    ensures
        projects_in(entries, before) matches Ok(projects) ==> are_projects(projects)
            && projects.len() > 0,
    decreases entries.len(),
{
    if entries.len() > 0 {
        let rest = entries.drop_first();
        if trimmed(entries[0]).len() == 0 {
            lemma_projects_in(rest, before);
        } else if let Ok(project) = project_of(trimmed(entries[0])) {
            if !has_alias(before, project.0) {
                lemma_projects_in(rest, before.push(project));
            }
        }
    }
}

/// A list of projects is accepted only if it names at least one, every alias is
/// valid and its own, and every project has an id.
pub proof fn declared_projects_are_valid(raw: Seq<char>)
    ensures
        declared_projects(raw) matches Ok(projects) ==> are_projects(projects) && projects.len() > 0,
{
    lemma_projects_in(split(raw, ","@), Seq::empty());
}

proof fn lemma_environments_in(entries: Seq<Seq<char>>, before: Seq<Seq<char>>)
    requires
        are_environments(before),
    ensures
        environments_in(entries, before) matches Ok(environments) ==> are_environments(
            environments,
        ) && environments.len() > 0,
    decreases entries.len(),
{
    if entries.len() > 0 {
        let rest = entries.drop_first();
        let entry = trimmed(entries[0]);
        if entry.len() == 0 || before.contains(entry) {
            lemma_environments_in(rest, before);
        } else if segment_fault("environment"@, entry) is None {
            lemma_environments_in(rest, before.push(entry));
        }
    }
}

/// A list of environments is accepted only if it names at least one and every
/// one is valid, and none is taken twice.
pub proof fn declared_environments_are_valid(raw: Seq<char>)
    ensures
        declared_environments(raw) matches Ok(environments) ==> are_environments(environments)
            && environments.len() > 0,
{
    lemma_environments_in(split(raw, ","@), Seq::empty());
}

/// Whether every scope has a valid alias and environment, and no two scopes have
/// both in common.
pub open spec fn are_scopes(scopes: Seq<ScopeView>) -> bool {
    &&& forall|i: int|
        0 <= i < scopes.len() ==> is_segment((#[trigger] scopes[i]).alias) && is_segment(
            scopes[i].environment,
        )
    &&& forall|i: int, j: int|
        0 <= i < j < scopes.len() ==> (#[trigger] scopes[i]).alias != (#[trigger] scopes[j]).alias
            || scopes[i].environment != scopes[j].environment
}

/// Each project is combined with each environment exactly once.
pub proof fn scopes_are_all_pairs(
    projects: Seq<(Seq<char>, Seq<char>)>,
    environments: Seq<Seq<char>>,
)
    requires
        are_projects(projects),
        are_environments(environments),
    ensures
        are_scopes(scopes_of(projects, environments)),
        forall|scope: ScopeView| #[trigger]
            scopes_of(projects, environments).contains(scope) <==> projects.contains(
                (scope.alias, scope.project_id),
            ) && environments.contains(scope.environment),
        scopes_of(projects, environments).len() == projects.len() * environments.len(),
    decreases projects.len(),
{
    if projects.len() == 0 {
        assert(projects.len() * environments.len() == 0) by (nonlinear_arith)
            requires
                projects.len() == 0,
        ;
    } else {
        let front = projects.drop_last();
        let last = projects.last();
        scopes_are_all_pairs(front, environments);
        let earlier = scopes_of(front, environments);
        let new = scopes_of_project(last, environments);
        let all = scopes_of(projects, environments);
        assert forall|scope: ScopeView| #[trigger] all.contains(scope) <==> projects.contains(
            (scope.alias, scope.project_id),
        ) && environments.contains(scope.environment) by {
            let pair = (scope.alias, scope.project_id);
            if all.contains(scope) {
                let i = choose|i: int| 0 <= i < all.len() && all[i] == scope;
                if i < earlier.len() {
                    assert(earlier[i] == scope);
                    assert(earlier.contains(scope));
                    let k = choose|k: int| 0 <= k < front.len() && front[k] == pair;
                    assert(projects[k] == pair);
                } else {
                    assert(new[i - earlier.len()] == scope);
                    assert(environments[i - earlier.len()] == scope.environment);
                    assert(projects[projects.len() - 1] == pair);
                }
            }
            if projects.contains(pair) && environments.contains(scope.environment) {
                let k = choose|k: int| 0 <= k < projects.len() && projects[k] == pair;
                if k < front.len() {
                    assert(front[k] == pair);
                    assert(earlier.contains(scope));
                    let i = choose|i: int| 0 <= i < earlier.len() && earlier[i] == scope;
                    assert(all[i] == scope);
                } else {
                    let i = choose|i: int|
                        0 <= i < environments.len() && environments[i] == scope.environment;
                    assert(new[i] == scope);
                    assert(all[earlier.len() + i] == scope);
                }
            }
        }
        assert forall|i: int, j: int| 0 <= i < j < all.len() implies (#[trigger] all[i]).alias != (
        #[trigger] all[j]).alias || all[i].environment != all[j].environment by {
            if j < earlier.len() {
                assert(earlier[i] == all[i] && earlier[j] == all[j]);
            } else if i >= earlier.len() {
                assert(new[i - earlier.len()] == all[i] && new[j - earlier.len()] == all[j]);
                assert(environments[i - earlier.len()] != environments[j - earlier.len()]);
            } else {
                assert(earlier.contains(all[i])) by {
                    assert(earlier[i] == all[i]);
                }
                assert(all[j] == new[j - earlier.len()]);
                let k = choose|k: int|
                    0 <= k < front.len() && front[k] == (all[i].alias, all[i].project_id);
                assert(projects[k].0 != projects[projects.len() - 1].0);
            }
        }
        assert forall|i: int| 0 <= i < all.len() implies is_segment((#[trigger] all[i]).alias)
            && is_segment(all[i].environment) by {
            if i < earlier.len() {
                assert(earlier[i] == all[i]);
            } else {
                assert(new[i - earlier.len()] == all[i]);
                assert(is_segment(environments[i - earlier.len()]));
                assert(is_segment(projects[projects.len() - 1].0));
            }
        }
        assert(projects.len() * environments.len() == front.len() * environments.len()
            + environments.len()) by (nonlinear_arith)
            requires
                projects.len() == front.len() + 1,
        ;
    }
}

/// A configuration that is accepted has at least one scope, valid scopes that
/// differ from one another, and a limit on old secrets, if any, that is not
/// below the time for which they are fresh.
pub proof fn accepted_configuration_is_valid(environment: Environment)
    requires
        first_fault(environment) is None,
    ensures
        are_scopes(configured(environment).scopes),
        configured(environment).scopes.len() > 0,
        configured(environment).stale_max matches Some(max) ==> max >= configured(
            environment,
        ).cache_ttl,
{
    let projects = declared_projects(required(ENV_PROJECTS@, environment.projects@)->Ok_0)->Ok_0;
    let environments = declared_environments(
        filled_or(optional(environment.environments), DEFAULT_ENVIRONMENTS@),
    )->Ok_0;
    declared_projects_are_valid(required(ENV_PROJECTS@, environment.projects@)->Ok_0);
    declared_environments_are_valid(
        filled_or(optional(environment.environments), DEFAULT_ENVIRONMENTS@),
    );
    scopes_are_all_pairs(projects, environments);
    assert(projects.len() * environments.len() > 0) by (nonlinear_arith)
        requires
            projects.len() > 0,
            environments.len() > 0,
    ;
}

/// Every token of a configured scope has the declared form of a secret
/// reference, for every key of that form.
pub proof fn tokens_of_a_configured_scope_are_secret_refs(
    environment: Environment,
    i: int,
    key: Seq<char>,
)
    requires
        first_fault(environment) is None,
        0 <= i < configured(environment).scopes.len(),
        is_key(key),
    ensures
        is_secret_ref(
            token(
                configured(environment).scopes[i].alias,
                configured(environment).scopes[i].environment,
                key,
            ),
        ),
{
    accepted_configuration_is_valid(environment);
    let scope = configured(environment).scopes[i];
    token_is_a_secret_ref(scope.alias, scope.environment, key);
}

} // verus!
