//! What holds of everything that the provider serves.
use vstd::prelude::*;

use crate::client::{
    entry_token, gathered_secrets_are_readable, is_readable, readable_secrets, ClientErrorView,
    RawSecret,
};
use crate::clock::age;
use crate::config::ScopeView;
use crate::config_laws::are_scopes;
use crate::interpolate::{interpolated, InterpolatorView};
use crate::interpolate_laws::reference_is_replaced;
use crate::persist::{loaded, LoadErrorView, StoredFile, StoredSnapshotView};
use crate::provider::{
    is_fresh, merged, refreshed, reports, seeded, served_after, stale_secrets, stored_in,
    wants_seed, ProviderErrorView, ProviderView, SeedReport, Severity, SnapshotView,
};
use crate::reference::{closer, opener};
use crate::reference_laws::{stands_before_an_opener, text_without_brackets_is_plain};
use crate::text::{is_free_of, views};
use crate::token::{
    is_key, is_segment, token, token_has_the_prefix, tokens_do_not_collide, TOKEN_PREFIX,
};

verus! {

/// Fresh secrets are served as they are, whatever Infisical or the disk would
/// have to say.
pub proof fn fresh_secrets_are_served_without_asking(
    state: ProviderView,
    outcome: Result<Seq<Map<Seq<char>, Seq<char>>>, ClientErrorView>,
    stored: Result<Option<StoredSnapshotView>, LoadErrorView>,
    now: u64,
)
    requires
        is_fresh(state, now),
    ensures
        served_after(state, outcome, stored, now) == (
            state,
            Ok::<Map<Seq<char>, Seq<char>>, ProviderErrorView>(state.cache->0.secrets),
        ),
{
}

/// What a refresh brought is served until its time is over, without another
/// refresh.
pub proof fn refreshed_secrets_are_served_for_their_time(
    state: ProviderView,
    maps: Seq<Map<Seq<char>, Seq<char>>>,
    stored: Result<Option<StoredSnapshotView>, LoadErrorView>,
    now: u64,
    later_outcome: Result<Seq<Map<Seq<char>, Seq<char>>>, ClientErrorView>,
    later_stored: Result<Option<StoredSnapshotView>, LoadErrorView>,
    later: u64,
)
    requires
        !is_fresh(state, now),
        age(later, now) < state.config.cache_ttl,
    ensures
        ({
            let (after, served) = served_after(
                state,
                Ok::<Seq<Map<Seq<char>, Seq<char>>>, ClientErrorView>(maps),
                stored,
                now,
            );
            &&& served == Ok::<Map<Seq<char>, Seq<char>>, ProviderErrorView>(merged(maps))
            &&& served_after(after, later_outcome, later_stored, later) == (after, served)
        }),
{
}

/// A refresh that fails changes nothing that is in the cache.
pub proof fn failed_refresh_keeps_the_cache(
    state: ProviderView,
    error: ClientErrorView,
    stored: Result<Option<StoredSnapshotView>, LoadErrorView>,
    now: u64,
)
    requires
        state.cache is Some,
    ensures
        served_after(
            state,
            Err::<Seq<Map<Seq<char>, Seq<char>>>, ClientErrorView>(error),
            stored,
            now,
        ).0 == state,
{
}

/// Without a limit on their age, an outage never stops the secrets in the cache
/// from being served.
pub proof fn outage_costs_no_availability(
    state: ProviderView,
    error: ClientErrorView,
    stored: Result<Option<StoredSnapshotView>, LoadErrorView>,
    now: u64,
)
    requires
        state.cache is Some,
        state.config.stale_max is None,
    ensures
        served_after(
            state,
            Err::<Seq<Map<Seq<char>, Seq<char>>>, ClientErrorView>(error),
            stored,
            now,
        ) == (state, Ok::<Map<Seq<char>, Seq<char>>, ProviderErrorView>(state.cache->0.secrets)),
{
}

/// A provider that starts with nothing in its cache while Infisical cannot be
/// reached serves the whole stored snapshot, and goes on to serve it for as long
/// as the outage lasts.
pub proof fn cold_start_serves_the_stored_snapshot(
    state: ProviderView,
    error: ClientErrorView,
    stored: StoredSnapshotView,
    now: u64,
    later_error: ClientErrorView,
    later_stored: Result<Option<StoredSnapshotView>, LoadErrorView>,
    later: u64,
)
    requires
        state.cache is None,
        state.config.cache_file is Some,
        state.config.stale_max is None,
    ensures
        ({
            let (after, served) = served_after(
                state,
                Err::<Seq<Map<Seq<char>, Seq<char>>>, ClientErrorView>(error),
                Ok::<Option<StoredSnapshotView>, LoadErrorView>(Some(stored)),
                now,
            );
            &&& served == Ok::<Map<Seq<char>, Seq<char>>, ProviderErrorView>(stored.secrets)
            &&& served_after(
                after,
                Err::<Seq<Map<Seq<char>, Seq<char>>>, ClientErrorView>(later_error),
                later_stored,
                later,
            ) == (after, served)
        }),
{
}

/// With a limit on their age, which a valid configuration does not set below the
/// time for which secrets are fresh, no older secrets are ever served.
pub proof fn secrets_beyond_the_limit_are_not_served(
    state: ProviderView,
    outcome: Result<Seq<Map<Seq<char>, Seq<char>>>, ClientErrorView>,
    stored: Result<Option<StoredSnapshotView>, LoadErrorView>,
    now: u64,
    limit: u64,
)
    requires
        state.config.stale_max == Some(limit),
        limit >= state.config.cache_ttl,
    ensures
        ({
            let (after, served) = served_after(state, outcome, stored, now);
            served is Ok ==> after.cache is Some && age(now, after.cache->0.fetched_at_unix)
                <= limit && served->Ok_0 == after.cache->0.secrets
        }),
{
}

/// Nothing is served that was not in the cache, in the refresh or in the stored
/// snapshot.
pub proof fn served_secrets_have_a_source(
    state: ProviderView,
    outcome: Result<Seq<Map<Seq<char>, Seq<char>>>, ClientErrorView>,
    stored: Result<Option<StoredSnapshotView>, LoadErrorView>,
    now: u64,
)
    ensures
        served_after(state, outcome, stored, now).1 matches Ok(secrets) ==> {
            ||| state.cache is Some && secrets == state.cache->0.secrets
            ||| outcome is Ok && secrets == merged(outcome->Ok_0)
            ||| stored is Ok && stored->Ok_0 is Some && secrets == stored->Ok_0->0.secrets
        },
        served_after(state, outcome, stored, now).1 is Err ==> outcome is Err,
{
}

proof fn lemma_merged_keeps(maps: Seq<Map<Seq<char>, Seq<char>>>, i: int, name: Seq<char>)
    requires
        0 <= i < maps.len(),
        maps[i].contains_key(name),
        forall|j: int| i < j < maps.len() ==> !(#[trigger] maps[j]).contains_key(name),
    ensures
        merged(maps).contains_key(name),
        merged(maps)[name] == maps[i][name],
    decreases maps.len(),
{
    if i < maps.len() - 1 {
        let front = maps.drop_last();
        assert forall|j: int| i < j < front.len() implies !(#[trigger] front[j]).contains_key(
            name,
        ) by {
            assert(front[j] == maps[j]);
        }
        lemma_merged_keeps(front, i, name);
        assert(!maps[maps.len() - 1].contains_key(name));
    }
}

/// The maps that are gathered from the answers for `scopes`.
pub open spec fn gathered(scopes: Seq<ScopeView>, answers: Seq<Seq<RawSecret>>) -> Seq<
    Map<Seq<char>, Seq<char>>,
> {
    Seq::new(scopes.len(), |i: int| readable_secrets(scopes[i], answers[i]))
}

/// No scope overwrites the secrets of another: a refresh serves every readable
/// secret of every scope with the value that its scope has for it.
pub proof fn scopes_do_not_overwrite_each_other(
    scopes: Seq<ScopeView>,
    answers: Seq<Seq<RawSecret>>,
    i: int,
    name: Seq<char>,
)
    requires
        are_scopes(scopes),
        scopes.len() == answers.len(),
        0 <= i < scopes.len(),
        readable_secrets(scopes[i], answers[i]).contains_key(name),
    ensures
        merged(gathered(scopes, answers)).contains_key(name),
        merged(gathered(scopes, answers))[name] == readable_secrets(scopes[i], answers[i])[name],
{
    let maps = gathered(scopes, answers);
    assert forall|j: int| i < j < maps.len() implies !(#[trigger] maps[j]).contains_key(name) by {
        if maps[j].contains_key(name) {
            gathered_secrets_are_readable(scopes[i], answers[i], name);
            gathered_secrets_are_readable(scopes[j], answers[j], name);
            let a = choose|a: int|
                0 <= a < answers[i].len() && is_readable(#[trigger] answers[i][a]) && entry_token(
                    scopes[i],
                    answers[i][a],
                ) == name && answers[i][a].secret_value->0@ == readable_secrets(
                    scopes[i],
                    answers[i],
                )[name];
            let b = choose|b: int|
                0 <= b < answers[j].len() && is_readable(#[trigger] answers[j][b]) && entry_token(
                    scopes[j],
                    answers[j][b],
                ) == name && answers[j][b].secret_value->0@ == readable_secrets(
                    scopes[j],
                    answers[j],
                )[name];
            tokens_do_not_collide(
                scopes[i].alias,
                scopes[i].environment,
                answers[i][a].secret_key@,
                scopes[j].alias,
                scopes[j].environment,
                answers[j][b].secret_key@,
            );
        }
    }
    lemma_merged_keeps(maps, i, name);
}

proof fn lemma_merged_from(maps: Seq<Map<Seq<char>, Seq<char>>>, name: Seq<char>)
    requires
        merged(maps).contains_key(name),
    ensures
        exists|i: int| 0 <= i < maps.len() && (#[trigger] maps[i]).contains_key(name),
    decreases maps.len(),
{
    if maps.last().contains_key(name) {
        assert(maps[maps.len() - 1].contains_key(name));
    } else {
        let front = maps.drop_last();
        lemma_merged_from(front, name);
        let i = choose|i: int| 0 <= i < front.len() && (#[trigger] front[i]).contains_key(name);
        assert(maps[i].contains_key(name));
    }
}

/// Every name that a refresh serves is the token of a readable secret of one of
/// the scopes, and so begins with the prefix of the provider.
pub proof fn refreshed_names_are_tokens(
    scopes: Seq<ScopeView>,
    answers: Seq<Seq<RawSecret>>,
    name: Seq<char>,
)
    requires
        scopes.len() == answers.len(),
        merged(gathered(scopes, answers)).contains_key(name),
    ensures
        TOKEN_PREFIX@.is_prefix_of(name),
        exists|i: int, a: int|
            0 <= i < scopes.len() && 0 <= a < answers[i].len() && is_readable(
                #[trigger] answers[i][a],
            ) && entry_token(scopes[i], answers[i][a]) == name,
{
    let maps = gathered(scopes, answers);
    lemma_merged_from(maps, name);
    let i = choose|i: int| 0 <= i < maps.len() && (#[trigger] maps[i]).contains_key(name);
    gathered_secrets_are_readable(scopes[i], answers[i], name);
    let a = choose|a: int|
        0 <= a < answers[i].len() && is_readable(#[trigger] answers[i][a]) && entry_token(
            scopes[i],
            answers[i][a],
        ) == name && answers[i][a].secret_value->0@ == readable_secrets(scopes[i], answers[i])[name];
    token_has_the_prefix(scopes[i].alias, scopes[i].environment, answers[i][a].secret_key@);
}

proof fn lemma_token_is_plain(alias: Seq<char>, environment: Seq<char>, key: Seq<char>)
    requires
        is_segment(alias),
        is_segment(environment),
        is_key(key),
    ensures
        is_free_of(token(alias, environment, key), '['),
        is_free_of(token(alias, environment, key), ']'),
        token(alias, environment, key)[0] < '\u{80}',
{
    reveal_strlit("infisical://");
    reveal_strlit("/");
    let t = token(alias, environment, key);
    let start = TOKEN_PREFIX@.len() as int;
    let first = start + alias.len();
    let second = first + 1 + environment.len();
    assert forall|i: int| 0 <= i < t.len() implies #[trigger] t[i] != '[' && t[i] != ']' by {
        if i < start {
            assert(t[i] == "infisical://"@[i]);
        } else if i < first {
            assert(t[i] == alias[i - start]);
        } else if i == first {
            assert(t[i] == "/"@[0]);
        } else if i < second {
            assert(t[i] == environment[i - first - 1]);
        } else if i == second {
            assert(t[i] == "/"@[0]);
        } else {
            assert(t[i] == key[i - second - 1]);
        }
    }
    assert(t[0] == "infisical://"@[0]);
}

/// What the provider serves is what a reference to it is replaced by, unless an
/// operator has shadowed it.
pub proof fn served_secret_replaces_its_reference(
    state: InterpolatorView,
    shadows: Map<Seq<char>, Seq<char>>,
    served: Map<Seq<char>, Seq<char>>,
    before: Seq<char>,
    alias: Seq<char>,
    environment: Seq<char>,
    key: Seq<char>,
)
    requires
        state.variables is None,
        state.secrets == served.union_prefer_right(shadows),
        stands_before_an_opener(before),
        is_segment(alias),
        is_segment(environment),
        is_key(key),
        served.contains_key(token(alias, environment, key)),
    ensures
        ({
            let name = token(alias, environment, key);
            let outcome = interpolated(state, before + opener() + name + closer());
            &&& outcome.failure is None
            &&& outcome.target == before + if shadows.contains_key(name) {
                shadows[name]
            } else {
                served[name]
            }
        }),
{
    let name = token(alias, environment, key);
    let nothing = Seq::<char>::empty();
    lemma_token_is_plain(alias, environment, key);
    text_without_brackets_is_plain(name);
    reference_is_replaced(state, before, name, nothing);
    assert(before + opener() + name + closer() + nothing =~= before + opener() + name + closer());
    assert(before + state.secrets[name] + nothing =~= before + state.secrets[name]);
}

/// The age of a time is how long ago it was, and zero if it is still to come.
pub proof fn age_is_the_time_since(now: u64, fetched_at_unix: u64)
    ensures
        now >= fetched_at_unix ==> age(now, fetched_at_unix) == now - fetched_at_unix,
        now < fetched_at_unix ==> age(now, fetched_at_unix) == 0,
{
}

/// Cached secrets are fresh before their time to live is over, and not from then
/// on; whether there is a limit on old secrets does not matter.
pub proof fn secrets_are_fresh_for_their_time_to_live(state: ProviderView, now: u64)
    ensures
        state.cache is None ==> !is_fresh(state, now),
        state.cache matches Some(snapshot) ==> (is_fresh(state, now) <==> state.config.cache_ttl > 0
            && now < snapshot.fetched_at_unix + state.config.cache_ttl),
{
}

/// Secrets in the cache are served without a refresh before their time to live is
/// over.
pub proof fn cache_is_served_before_its_time_is_over(
    state: ProviderView,
    snapshot: SnapshotView,
    outcome: Result<Seq<Map<Seq<char>, Seq<char>>>, ClientErrorView>,
    stored: Result<Option<StoredSnapshotView>, LoadErrorView>,
    now: u64,
)
    requires
        state.cache == Some(snapshot),
        state.config.cache_ttl > 0,
        now < snapshot.fetched_at_unix + state.config.cache_ttl,
    ensures
        served_after(state, outcome, stored, now) == (
            state,
            Ok::<Map<Seq<char>, Seq<char>>, ProviderErrorView>(snapshot.secrets),
        ),
{
}

/// Once the time to live of the cache is over, or where there is none, a refresh
/// that succeeds is what is served, and it takes the place of the cache with the
/// time at which it was made.
pub proof fn refresh_takes_the_place_of_an_expired_cache(
    state: ProviderView,
    maps: Seq<Map<Seq<char>, Seq<char>>>,
    stored: Result<Option<StoredSnapshotView>, LoadErrorView>,
    now: u64,
)
    requires
        state.cache matches Some(snapshot) ==> state.config.cache_ttl == 0 || now
            >= snapshot.fetched_at_unix + state.config.cache_ttl,
    ensures
        served_after(
            state,
            Ok::<Seq<Map<Seq<char>, Seq<char>>>, ClientErrorView>(maps),
            stored,
            now,
        ) == (
            ProviderView {
                config: state.config,
                cache: Some(SnapshotView { secrets: merged(maps), fetched_at_unix: now }),
            },
            Ok::<Map<Seq<char>, Seq<char>>, ProviderErrorView>(merged(maps)),
        ),
{
}

/// A refresh keeps the configuration and either puts its secrets, with their time,
/// in the cache or leaves all as it was.
pub proof fn refresh_replaces_the_cache_or_nothing(
    state: ProviderView,
    maps: Seq<Map<Seq<char>, Seq<char>>>,
    error: ClientErrorView,
    now: u64,
)
    ensures
        refreshed(state, Ok::<Seq<Map<Seq<char>, Seq<char>>>, ClientErrorView>(maps), now) == (
        ProviderView {
            config: state.config,
            cache: Some(SnapshotView { secrets: merged(maps), fetched_at_unix: now }),
        }),
        refreshed(state, Err::<Seq<Map<Seq<char>, Seq<char>>>, ClientErrorView>(error), now)
            == state,
{
}

/// Where a refresh fails, what is in the cache and no longer fresh is served if it
/// is not older than the limit, if there is one, and otherwise the error tells its
/// age and the limit.
pub proof fn old_secrets_are_served_up_to_the_limit(
    state: ProviderView,
    snapshot: SnapshotView,
    error: ClientErrorView,
    stored: Result<Option<StoredSnapshotView>, LoadErrorView>,
    now: u64,
)
    requires
        state.cache == Some(snapshot),
        state.config.cache_ttl == 0 || now >= snapshot.fetched_at_unix + state.config.cache_ttl,
    ensures
        ({
            let (after, served) = served_after(
                state,
                Err::<Seq<Map<Seq<char>, Seq<char>>>, ClientErrorView>(error),
                stored,
                now,
            );
            &&& after == state
            &&& state.config.stale_max is None ==> served == Ok::<
                Map<Seq<char>, Seq<char>>,
                ProviderErrorView,
            >(snapshot.secrets)
            &&& state.config.stale_max matches Some(limit) ==> {
                &&& now <= snapshot.fetched_at_unix + limit ==> served == Ok::<
                    Map<Seq<char>, Seq<char>>,
                    ProviderErrorView,
                >(snapshot.secrets)
                &&& now > snapshot.fetched_at_unix + limit ==> served == Err::<
                    Map<Seq<char>, Seq<char>>,
                    ProviderErrorView,
                >(
                    ProviderErrorView::TooOld {
                        age: (now - snapshot.fetched_at_unix) as u64,
                        limit,
                        error,
                    },
                )
            }
        }),
{
}

/// Where a refresh fails and nothing is in the cache, a stored snapshot is restored
/// if there is a place for one, with its own time, and served up to the limit;
/// without one there is nothing to serve.
pub proof fn stored_snapshot_is_restored_up_to_the_limit(
    state: ProviderView,
    error: ClientErrorView,
    stored: Result<Option<StoredSnapshotView>, LoadErrorView>,
    now: u64,
)
    requires
        state.cache is None,
    ensures
        ({
            let (after, served) = served_after(
                state,
                Err::<Seq<Map<Seq<char>, Seq<char>>>, ClientErrorView>(error),
                stored,
                now,
            );
            let found = state.config.cache_file is Some && stored is Ok && stored->Ok_0 is Some;
            let snapshot = stored->Ok_0->0;
            let in_time = state.config.stale_max is None || now <= snapshot.fetched_at_unix
                + state.config.stale_max->0;
            &&& !found ==> after == state && served == Err::<
                Map<Seq<char>, Seq<char>>,
                ProviderErrorView,
            >(ProviderErrorView::NothingToServe { error })
            &&& found ==> after == (ProviderView {
                config: state.config,
                cache: Some(
                    SnapshotView {
                        secrets: snapshot.secrets,
                        fetched_at_unix: snapshot.fetched_at_unix,
                    },
                ),
            })
            &&& found && in_time ==> served == Ok::<Map<Seq<char>, Seq<char>>, ProviderErrorView>(
                snapshot.secrets,
            )
            &&& found && !in_time ==> served == Err::<
                Map<Seq<char>, Seq<char>>,
                ProviderErrorView,
            >(
                ProviderErrorView::TooOld {
                    age: (now - snapshot.fetched_at_unix) as u64,
                    limit: state.config.stale_max->0,
                    error,
                },
            )
        }),
{
}

/// A stored snapshot is looked for exactly if nothing is in the cache and there is
/// a place for one, and takes its place in the cache only then.
pub proof fn only_an_empty_cache_is_seeded(
    state: ProviderView,
    stored: Result<Option<StoredSnapshotView>, LoadErrorView>,
)
    ensures
        wants_seed(state) <==> state.cache is None && state.config.cache_file is Some,
        state.cache is Some || state.config.cache_file is None ==> seeded(state, stored) == state,
        !(stored is Ok && stored->Ok_0 is Some) ==> seeded(state, stored) == state,
        state.cache is None && state.config.cache_file is Some && stored is Ok && stored->Ok_0
            is Some ==> seeded(state, stored) == (ProviderView {
            config: state.config,
            cache: Some(
                SnapshotView {
                    secrets: stored->Ok_0->0.secrets,
                    fetched_at_unix: stored->Ok_0->0.fetched_at_unix,
                },
            ),
        }),
{
}

/// The report on a stored snapshot tells whether it was looked for, whether there
/// was one, how many secrets it holds, how old it is, and what it covers.
pub proof fn report_tells_what_was_restored(
    report: SeedReport,
    state: ProviderView,
    stored: Result<Option<StoredSnapshotView>, LoadErrorView>,
    now: u64,
)
    requires
        reports(report, state, stored, now),
    ensures
        report is NotWanted <==> state.cache is Some || state.config.cache_file is None,
        report is NothingStored ==> stored == Ok::<Option<StoredSnapshotView>, LoadErrorView>(None),
        report matches SeedReport::Unusable { error } ==> stored == Err::<
            Option<StoredSnapshotView>,
            LoadErrorView,
        >(error@),
        report matches SeedReport::Restored { count, age: told, scopes } ==> {
            &&& stored is Ok && stored->Ok_0 is Some
            &&& count == stored->Ok_0->0.secrets.dom().len()
            &&& scopes@.len() == stored->Ok_0->0.scopes.len()
            &&& forall|i: int|
                0 <= i < scopes@.len() ==> (#[trigger] scopes@[i])@ == stored->Ok_0->0.scopes[i]
            &&& now >= stored->Ok_0->0.fetched_at_unix ==> told == now
                - stored->Ok_0->0.fetched_at_unix
            &&& now < stored->Ok_0->0.fetched_at_unix ==> told == 0
        },
{
    if let SeedReport::Restored { count, age: told, scopes } = report {
        assert(views(scopes@).len() == scopes@.len());
        assert forall|i: int| 0 <= i < scopes@.len() implies (#[trigger] scopes@[i])@
            == stored->Ok_0->0.scopes[i] by {
            assert(views(scopes@)[i] == scopes@[i]@);
        }
    }
}

/// The place of the stored snapshot decides what is looked at: without one, no file
/// counts.
pub proof fn file_counts_only_at_its_place(state: ProviderView, file: StoredFile)
    ensures
        state.config.cache_file is None ==> stored_in(state, file) == Ok::<
            Option<StoredSnapshotView>,
            LoadErrorView,
        >(None),
        state.config.cache_file matches Some(path) ==> stored_in(state, file) == loaded(path, file),
{
}

/// What is told of old secrets that are served: their age, and that it is serious
/// from the age on at which a warning is due.
pub proof fn severity_rises_with_age(
    state: ProviderView,
    snapshot: SnapshotView,
    error: ClientErrorView,
    now: u64,
)
    requires
        state.cache == Some(snapshot),
        now >= snapshot.fetched_at_unix,
    ensures
        ({
            let told = stale_secrets(state, error, now);
            let old = now - snapshot.fetched_at_unix;
            &&& told is Ok <==> state.config.stale_max is None || old <= state.config.stale_max->0
            &&& told is Ok ==> told->Ok_0.0 == snapshot.secrets && told->Ok_0.1 == old
            &&& told is Ok ==> told->Ok_0.2 == if old >= state.config.stale_warn {
                Severity::Error
            } else {
                Severity::Warning
            }
        }),
{
}

/// Secrets whose time is still to come, because the clock was set back, count as
/// new.
pub proof fn secrets_from_the_future_count_as_new(
    state: ProviderView,
    snapshot: SnapshotView,
    error: ClientErrorView,
    now: u64,
)
    requires
        state.cache == Some(snapshot),
        now < snapshot.fetched_at_unix,
    ensures
        stale_secrets(state, error, now) == Ok::<
            (Map<Seq<char>, Seq<char>>, u64, Severity),
            ProviderErrorView,
        >(
            (
                snapshot.secrets,
                0u64,
                if state.config.stale_warn == 0 {
                    Severity::Error
                } else {
                    Severity::Warning
                },
            ),
        ),
{
}

/// A name is served by a refresh exactly if one of the scopes has it, with the
/// value of the last scope that does.
pub proof fn merged_secrets_are_those_of_the_scopes(
    maps: Seq<Map<Seq<char>, Seq<char>>>,
    name: Seq<char>,
)
    ensures
        merged(maps).contains_key(name) <==> exists|i: int|
            0 <= i < maps.len() && (#[trigger] maps[i]).contains_key(name),
        forall|i: int|
            0 <= i < maps.len() && (#[trigger] maps[i]).contains_key(name) && (forall|j: int|
                i < j < maps.len() ==> !(#[trigger] maps[j]).contains_key(name))
                ==> merged(maps)[name] == maps[i][name],
    decreases maps.len(),
{
    if merged(maps).contains_key(name) {
        lemma_merged_from(maps, name);
    }
    assert forall|i: int|
        0 <= i < maps.len() && (#[trigger] maps[i]).contains_key(name) && (forall|j: int|
            i < j < maps.len() ==> !(#[trigger] maps[j]).contains_key(
                name,
            )) implies merged(maps)[name] == maps[i][name] by {
        lemma_merged_keeps(maps, i, name);
    }
    if exists|i: int| 0 <= i < maps.len() && (#[trigger] maps[i]).contains_key(name) {
        let i = choose|i: int| 0 <= i < maps.len() && (#[trigger] maps[i]).contains_key(name);
        if maps.last().contains_key(name) {
            assert(merged(maps).contains_key(name));
        } else {
            let front = maps.drop_last();
            assert(front[i] == maps[i]);
            merged_secrets_are_those_of_the_scopes(front, name);
        }
    }
}

} // verus!
