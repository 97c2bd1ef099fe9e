//! The secret provider: what it has in its cache, when it asks Infisical again,
//! and what it serves when Infisical cannot be reached.
use std::sync::Arc;

use vstd::prelude::*;

use crate::client::{error_text as client_error_text, ClientError, ClientErrorView};
use crate::clock::{age, age_at};
use crate::config::{scope_name, ConfigView, InfisicalConfig, ScopeView};
use crate::number::{decimal, decimal_text};
use crate::persist::{load, loaded, LoadError, LoadErrorView, StoredFile, StoredSnapshotView};
use crate::string_map::StringMap;
use crate::text::views;

verus! {

/// The secrets of one refresh.
#[derive(Debug)]
pub struct Snapshot {
    pub secrets: Arc<StringMap>,
    /// Wall-clock, not a monotonic instant, because a snapshot restored from
    /// disk has to carry an age across a process restart.
    pub fetched_at_unix: u64,
}

/// The view of a [`Snapshot`].
pub struct SnapshotView {
    pub secrets: Map<Seq<char>, Seq<char>>,
    pub fetched_at_unix: u64,
}

impl View for Snapshot {
    type V = SnapshotView;

    open spec fn view(&self) -> SnapshotView {
        SnapshotView { secrets: self.secrets@, fetched_at_unix: self.fetched_at_unix }
    }
}

/// The configuration of the provider and what it has in its cache.
#[derive(Debug)]
pub struct ProviderState {
    config: InfisicalConfig,
    cache: Option<Snapshot>,
}

/// The view of a [`ProviderState`].
pub struct ProviderView {
    pub config: ConfigView,
    pub cache: Option<SnapshotView>,
}

impl View for ProviderState {
    type V = ProviderView;

    closed spec fn view(&self) -> ProviderView {
        ProviderView {
            config: self.config@,
            cache: match self.cache {
                Some(snapshot) => Some(snapshot@),
                None => None,
            },
        }
    }
}

/// Why the provider has no secrets to serve. Either way a refresh has failed.
#[derive(Debug)]
pub enum ProviderError {
    /// There is nothing to fall back on.
    NothingToServe { error: ClientError },
    /// What there is to fall back on is too old.
    TooOld { age: u64, limit: u64, error: ClientError },
}

/// The view of a [`ProviderError`].
pub enum ProviderErrorView {
    NothingToServe { error: ClientErrorView },
    TooOld { age: u64, limit: u64, error: ClientErrorView },
}

impl View for ProviderError {
    type V = ProviderErrorView;

    open spec fn view(&self) -> ProviderErrorView {
        match self {
            ProviderError::NothingToServe { error } => ProviderErrorView::NothingToServe {
                error: error@,
            },
            ProviderError::TooOld { age, limit, error } => ProviderErrorView::TooOld {
                age: *age,
                limit: *limit,
                error: error@,
            },
        }
    }
}

/// The words of an error.
pub open spec fn error_text(error: ProviderErrorView) -> Seq<char> {
    match error {
        ProviderErrorView::NothingToServe { error } => {
            "no cached or persisted Infisical secrets are available to fall back on: "@
                + client_error_text(error)
        },
        ProviderErrorView::TooOld { age, limit, error } => "the last known Infisical secrets are "@
            + decimal(age as nat) + "s old, beyond the configured limit of "@ + decimal(
            limit as nat,
        ) + "s: "@ + client_error_text(error),
    }
}

impl ProviderError {
    /// Says in words what went wrong.
    pub fn message(&self) -> (r: String)
        ensures
            r@ == error_text(self@),
    {
        match self {
            ProviderError::NothingToServe { error } => {
                let mut r =
                    "no cached or persisted Infisical secrets are available to fall back on: ".to_owned();
                r.append(error.message().as_str());
                r
            },
            ProviderError::TooOld { age, limit, error } => {
                let mut r = "the last known Infisical secrets are ".to_owned();
                r.append(decimal_text(*age).as_str());
                r.append("s old, beyond the configured limit of ");
                r.append(decimal_text(*limit).as_str());
                r.append("s: ");
                r.append(error.message().as_str());
                r
            },
        }
    }
}

/// The views of maps.
pub open spec fn map_views(maps: Seq<StringMap>) -> Seq<Map<Seq<char>, Seq<char>>> {
    maps.map_values(|map: StringMap| map@)
}

/// The secrets of several scopes in one map.
pub open spec fn merged(maps: Seq<Map<Seq<char>, Seq<char>>>) -> Map<Seq<char>, Seq<char>>
    decreases maps.len(),
{
    if maps.len() == 0 {
        Map::empty()
    } else {
        merged(maps.drop_last()).union_prefer_right(maps.last())
    }
}

/// Puts the secrets of several scopes into one map.
pub fn merge_scopes(maps: &Vec<StringMap>) -> (r: StringMap)
    ensures
        r@ == merged(map_views(maps@)),
{
    let ghost all = map_views(maps@);
    let mut r = StringMap::new();
    let mut i: usize = 0;
    while i < maps.len()
        invariant
            i <= maps@.len(),
            all == map_views(maps@),
            r@ == merged(all.take(i as int)),
        decreases maps.len() - i,
    {
        r.extend(&maps[i]);
        assert(all.take(i + 1).drop_last() =~= all.take(i as int));
        assert(all.take(i + 1).last() == maps@[i as int]@);
        i += 1;
    }
    assert(all.take(i as int) =~= all);
    r
}

/// Whether a snapshot may be used without asking Infisical.
pub open spec fn is_fresh(state: ProviderView, now: u64) -> bool {
    state.cache matches Some(snapshot) && age(now, snapshot.fetched_at_unix)
        < state.config.cache_ttl
}

/// Whether a stored snapshot is to be looked for when a refresh has failed.
pub open spec fn wants_seed(state: ProviderView) -> bool {
    state.config.cache_file is Some && state.cache is None
}

/// The provider after a stored snapshot was looked for.
pub open spec fn seeded(
    state: ProviderView,
    stored: Result<Option<StoredSnapshotView>, LoadErrorView>,
) -> ProviderView {
    if wants_seed(state) && stored is Ok && stored->Ok_0 is Some {
        let snapshot = stored->Ok_0->0;
        ProviderView {
            cache: Some(
                SnapshotView {
                    secrets: snapshot.secrets,
                    fetched_at_unix: snapshot.fetched_at_unix,
                },
            ),
            ..state
        }
    } else {
        state
    }
}

/// What looking for a stored snapshot came to.
#[derive(Debug)]
pub enum SeedReport {
    /// It was not looked for.
    NotWanted,
    /// There is none.
    NothingStored,
    /// It was restored.
    Restored { count: usize, age: u64, scopes: Vec<String> },
    /// It could not be used.
    Unusable { error: LoadError },
}

/// What the file at the configured place gives.
pub open spec fn stored_in(state: ProviderView, file: StoredFile) -> Result<
    Option<StoredSnapshotView>,
    LoadErrorView,
> {
    match state.config.cache_file {
        Some(path) => loaded(path, file),
        None => Ok(None),
    }
}

/// Whether `report` says what looking for a stored snapshot came to.
pub open spec fn reports(
    report: SeedReport,
    state: ProviderView,
    stored: Result<Option<StoredSnapshotView>, LoadErrorView>,
    now: u64,
) -> bool {
    if !wants_seed(state) {
        report is NotWanted
    } else {
        match stored {
            Ok(None) => report is NothingStored,
            Ok(Some(snapshot)) => report matches SeedReport::Restored { count, age: reported, scopes }
                && count == snapshot.secrets.dom().len() && reported == age(
                now,
                snapshot.fetched_at_unix,
            ) && views(scopes@) == snapshot.scopes,
            Err(failure) => report matches SeedReport::Unusable { error } && error@ == failure,
        }
    }
}

/// How serious it is that old secrets are served.
#[derive(Debug, Clone, Copy, PartialEq, Eq, Structural)]
pub enum Severity {
    /// A brief outage.
    Warning,
    /// Deploys have been running for long on values that nobody has revalidated.
    Error,
}

/// Old secrets that are served because a refresh has failed.
#[derive(Debug)]
pub struct Stale {
    pub secrets: Arc<StringMap>,
    pub age: u64,
    pub severity: Severity,
    pub error: ClientError,
}

/// What is served of a cache after a refresh has failed: its secrets, with their
/// age and how serious that is; or an error.
pub open spec fn stale_secrets(state: ProviderView, error: ClientErrorView, now: u64) -> Result<
    (Map<Seq<char>, Seq<char>>, u64, Severity),
    ProviderErrorView,
> {
    match state.cache {
        None => Err(ProviderErrorView::NothingToServe { error }),
        Some(snapshot) => {
            let age = age(now, snapshot.fetched_at_unix);
            if state.config.stale_max is Some && age > state.config.stale_max->0 {
                Err(ProviderErrorView::TooOld { age, limit: state.config.stale_max->0, error })
            } else {
                Ok(
                    (
                        snapshot.secrets,
                        age,
                        if age >= state.config.stale_warn {
                            Severity::Error
                        } else {
                            Severity::Warning
                        },
                    ),
                )
            }
        },
    }
}

/// The provider after a refresh: with the new secrets, or unchanged.
pub open spec fn refreshed(
    state: ProviderView,
    outcome: Result<Seq<Map<Seq<char>, Seq<char>>>, ClientErrorView>,
    now: u64,
) -> ProviderView {
    match outcome {
        Ok(maps) => ProviderView {
            cache: Some(SnapshotView { secrets: merged(maps), fetched_at_unix: now }),
            ..state
        },
        Err(_) => state,
    }
}

/// The view of the secrets of all scopes, or of the error of the first that
/// failed.
pub open spec fn outcome_view(outcome: Result<Vec<StringMap>, ClientError>) -> Result<
    Seq<Map<Seq<char>, Seq<char>>>,
    ClientErrorView,
> {
    match outcome {
        Ok(maps) => Ok(map_views(maps@)),
        Err(error) => Err(error@),
    }
}

/// Where the secrets that are served come from.
#[derive(Debug)]
pub enum Source {
    /// The cache, which is fresh.
    Cache,
    /// A refresh.
    Refresh,
    /// The cache, although it is no longer fresh, because a refresh has failed.
    Fallback { age: u64, severity: Severity, error: ClientError },
}

/// The secrets that are served.
#[derive(Debug)]
pub struct Served {
    pub secrets: Arc<StringMap>,
    pub source: Source,
}

/// What the provider serves, and the provider after it, given what a refresh and
/// what looking for a stored snapshot would come to.
pub open spec fn served_after(
    state: ProviderView,
    outcome: Result<Seq<Map<Seq<char>, Seq<char>>>, ClientErrorView>,
    stored: Result<Option<StoredSnapshotView>, LoadErrorView>,
    now: u64,
) -> (ProviderView, Result<Map<Seq<char>, Seq<char>>, ProviderErrorView>) {
    if is_fresh(state, now) {
        (state, Ok(state.cache->0.secrets))
    } else {
        match outcome {
            Ok(maps) => (refreshed(state, outcome, now), Ok(merged(maps))),
            Err(error) => {
                let after = seeded(state, stored);
                match stale_secrets(after, error, now) {
                    Ok((secrets, _, _)) => (after, Ok(secrets)),
                    Err(failure) => (after, Err(failure)),
                }
            },
        }
    }
}

/// Merges Infisical secrets into the map that texts are interpolated from.
///
/// `provided` is what the provider serves, if it is switched on, configured and
/// has anything to serve. A name that already has a value keeps it, so that an
/// operator can shadow a secret. This never fails: an outage must not fail every
/// caller.
pub fn extend_secrets(secrets: &mut StringMap, provided: Option<&StringMap>)
    ensures
        final(secrets)@ == (match provided {
            Some(loaded) => loaded@.union_prefer_right(old(secrets)@),
            None => old(secrets)@,
        }),
{
    if let Some(loaded) = provided {
        secrets.extend_missing(loaded);
    }
}

/// What the provider serves only fills gaps: no secret that is already there is
/// changed or removed, and every other one that is served is added.
pub proof fn merging_changes_no_existing_secret(
    secrets: Map<Seq<char>, Seq<char>>,
    loaded: Map<Seq<char>, Seq<char>>,
    name: Seq<char>,
)
    ensures
        secrets.contains_key(name) ==> loaded.union_prefer_right(secrets).contains_key(name)
            && loaded.union_prefer_right(secrets)[name] == secrets[name],
        loaded.contains_key(name) && !secrets.contains_key(name) ==> loaded.union_prefer_right(
            secrets,
        ).contains_key(name) && loaded.union_prefer_right(secrets)[name] == loaded[name],
        !loaded.contains_key(name) && !secrets.contains_key(name) ==> !loaded.union_prefer_right(
            secrets,
        ).contains_key(name),
{
}

impl ProviderState {
    /// A provider with nothing in its cache.
    pub fn new(config: InfisicalConfig) -> (state: ProviderState)
        ensures
            state@ == (ProviderView { config: config@, cache: None }),
    {
        ProviderState { config, cache: None }
    }

    /// The configuration of the provider.
    pub fn config(&self) -> (config: &InfisicalConfig)
        ensures
            config@ == self@.config,
    {
        &self.config
    }

    /// The names of the scopes that the provider covers.
    pub fn scope_names(&self) -> (names: Vec<String>)
        ensures
            views(names@) == self@.config.scopes.map_values(|scope: ScopeView| scope_name(scope)),
    {
        let ghost all = self@.config.scopes.map_values(|scope: ScopeView| scope_name(scope));
        let mut names: Vec<String> = Vec::new();
        let mut i: usize = 0;
        while i < self.config.scopes.len()
            invariant
                i <= self.config.scopes@.len(),
                all == self@.config.scopes.map_values(|scope: ScopeView| scope_name(scope)),
                views(names@) == all.take(i as int),
            decreases self.config.scopes.len() - i,
        {
            let ghost before = views(names@);
            let name = self.config.scopes[i].name();
            let ghost text = name@;
            names.push(name);
            assert(self@.config.scopes[i as int] == self.config.scopes@[i as int]@);
            assert(views(names@) =~= before.push(text));
            assert(all.take(i + 1) =~= before.push(text));
            i += 1;
        }
        assert(all.take(i as int) =~= all);
        names
    }

    /// The secrets in the cache, if they are fresh.
    pub fn fresh_snapshot(&self, now: u64) -> (r: Option<Arc<StringMap>>)
        ensures
            r is Some <==> is_fresh(self@, now),
            r matches Some(secrets) ==> secrets@ == self@.cache->0.secrets,
    {
        match &self.cache {
            Some(snapshot) => if age_at(now, snapshot.fetched_at_unix) < self.config.cache_ttl {
                Some(snapshot.secrets.clone())
            } else {
                None
            },
            None => None,
        }
    }

    /// Takes the secrets of all scopes, in their order, or the error of the first
    /// that failed.
    pub fn refresh(&mut self, outcome: Result<Vec<StringMap>, ClientError>, now: u64) -> (r: Result<
        Arc<StringMap>,
        ClientError,
    >)
        ensures
            final(self)@ == refreshed(old(self)@, outcome_view(outcome), now),
            match outcome {
                Ok(maps) => r is Ok && r->Ok_0@ == merged(map_views(maps@)),
                Err(error) => r is Err && r->Err_0@ == error@,
            },
    {
        match outcome {
            Err(error) => Err(error),
            Ok(maps) => {
                let secrets = Arc::new(merge_scopes(&maps));
                self.cache = Some(Snapshot { secrets: secrets.clone(), fetched_at_unix: now });
                Ok(secrets)
            },
        }
    }

    /// Whether a stored snapshot is to be looked for when a refresh has failed:
    /// there is a place for it, and nothing is cached yet.
    pub fn needs_seed(&self) -> (yes: bool)
        ensures
            yes == wants_seed(self@),
    {
        self.config.cache_file.is_some() && self.cache.is_none()
    }

    /// Restores the last-known-good snapshot when nothing is cached in memory yet.
    /// `file` is what was found at the configured place.
    pub fn seed_from_disk(&mut self, file: StoredFile, now: u64) -> (report: SeedReport)
        ensures
            final(self)@ == seeded(old(self)@, stored_in(old(self)@, file)),
            reports(report, old(self)@, stored_in(old(self)@, file), now),
    {
        if self.cache.is_some() {
            return SeedReport::NotWanted;
        }
        let loaded = match &self.config.cache_file {
            None => {
                return SeedReport::NotWanted;
            },
            Some(path) => load(path.as_str(), file),
        };
        match loaded {
            Ok(None) => SeedReport::NothingStored,
            Err(error) => SeedReport::Unusable { error },
            Ok(Some(stored)) => {
                let count: usize = stored.secrets.len();
                let age: u64 = age_at(now, stored.fetched_at_unix);
                self.cache = Some(
                    Snapshot {
                        secrets: Arc::new(stored.secrets),
                        fetched_at_unix: stored.fetched_at_unix,
                    },
                );
                SeedReport::Restored { count, age, scopes: stored.scopes }
            },
        }
    }

    /// Decides what to serve when a refresh has failed.
    pub fn serve_stale(&self, error: ClientError, now: u64) -> (r: Result<Stale, ProviderError>)
        ensures
            match r {
                Ok(stale) => stale_secrets(self@, error@, now) == Ok::<
                    (Map<Seq<char>, Seq<char>>, u64, Severity),
                    ProviderErrorView,
                >((stale.secrets@, stale.age, stale.severity)) && stale.error@ == error@,
                Err(failure) => stale_secrets(self@, error@, now) == Err::<
                    (Map<Seq<char>, Seq<char>>, u64, Severity),
                    ProviderErrorView,
                >(failure@),
            },
    {
        match &self.cache {
            None => Err(ProviderError::NothingToServe { error }),
            Some(snapshot) => {
                let age: u64 = age_at(now, snapshot.fetched_at_unix);
                if let Some(limit) = self.config.stale_max {
                    if age > limit {
                        return Err(ProviderError::TooOld { age, limit, error });
                    }
                }
                // Escalate with age. A brief outage is a warning; a long one means
                // deploys have been running on values nobody has revalidated.
                let severity = if age >= self.config.stale_warn {
                    Severity::Error
                } else {
                    Severity::Warning
                };
                Ok(Stale { secrets: snapshot.secrets.clone(), age, severity, error })
            },
        }
    }

    /// Returns the current secrets: those in the cache if they are fresh, else those
    /// of a refresh. `outcome` is what the refresh came to and `file` what was found
    /// at the configured place; each is only looked at where it is needed.
    ///
    /// Falls back to the last known good values -- in memory, or restored from disk
    /// after a restart -- rather than failing, so an Infisical outage does not stop
    /// deploys. See [`InfisicalConfig::stale_max`].
    pub fn snapshot(
        &mut self,
        outcome: Result<Vec<StringMap>, ClientError>,
        file: StoredFile,
        now: u64,
    ) -> (r: (SeedReport, Result<Served, ProviderError>))
        ensures
            ({
                let (after, served) = served_after(
                    old(self)@,
                    outcome_view(outcome),
                    stored_in(old(self)@, file),
                    now,
                );
                &&& final(self)@ == after
                &&& match r.1 {
                    Ok(answer) => served == Ok::<Map<Seq<char>, Seq<char>>, ProviderErrorView>(
                        answer.secrets@,
                    ),
                    Err(error) => served == Err::<Map<Seq<char>, Seq<char>>, ProviderErrorView>(
                        error@,
                    ),
                }
            }),
            r.1 matches Ok(answer) ==> (match answer.source {
                Source::Cache => is_fresh(old(self)@, now),
                Source::Refresh => !is_fresh(old(self)@, now) && outcome is Ok,
                Source::Fallback { age: told, severity, error } => {
                    &&& !is_fresh(old(self)@, now)
                    &&& outcome is Err
                    &&& error@ == outcome->Err_0@
                    &&& stale_secrets(final(self)@, error@, now) == Ok::<
                        (Map<Seq<char>, Seq<char>>, u64, Severity),
                        ProviderErrorView,
                    >((answer.secrets@, told, severity))
                },
            }),
            if is_fresh(old(self)@, now) || outcome is Ok {
                r.0 is NotWanted
            } else {
                reports(r.0, old(self)@, stored_in(old(self)@, file), now)
            },
    {
        if let Some(secrets) = self.fresh_snapshot(now) {
            return (SeedReport::NotWanted, Ok(Served { secrets, source: Source::Cache }));
        }
        match self.refresh(outcome, now) {
            Ok(secrets) => (
                SeedReport::NotWanted,
                Ok(Served { secrets, source: Source::Refresh }),
            ),
            Err(error) => {
                let report = self.seed_from_disk(file, now);
                match self.serve_stale(error, now) {
                    Ok(stale) => (
                        report,
                        Ok(
                            Served {
                                secrets: stale.secrets,
                                source: Source::Fallback {
                                    age: stale.age,
                                    severity: stale.severity,
                                    error: stale.error,
                                },
                            },
                        ),
                    ),
                    Err(failure) => (report, Err(failure)),
                }
            },
        }
    }

    /// Whether the secrets with which the provider starts are older than they are
    /// fresh, and how old they then are: a cold start during an outage must not look
    /// like a normal healthy boot.
    pub fn started_stale(&self, now: u64) -> (r: Option<u64>)
        ensures
            r == (match self@.cache {
                Some(snapshot) => if age(now, snapshot.fetched_at_unix) > self@.config.cache_ttl {
                    Some(age(now, snapshot.fetched_at_unix))
                } else {
                    None
                },
                None => None,
            }),
    {
        match &self.cache {
            Some(snapshot) => {
                let age: u64 = age_at(now, snapshot.fetched_at_unix);
                if age > self.config.cache_ttl {
                    Some(age)
                } else {
                    None
                }
            },
            None => None,
        }
    }
}

} // verus!
