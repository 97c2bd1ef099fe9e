//! The provider, its cache and its stored snapshot.

use std::collections::HashMap;

use infisical::client::{collect_secrets, ClientError, RawSecret, RawSecretsResponse};
use infisical::clock::{age_at, age_seconds, now_unix, unix_seconds};
use infisical::config::{InfisicalConfig, Scope};
use infisical::extend_secrets;
use infisical::interpolate::Interpolator;
use infisical::persist::{
    begin_save, continue_save, load, snapshot_at, snapshot_from, temporary_path, LoadError, SaveStep,
    StoredFile, StoredSnapshot, DIRECTORY_MODE, FILE_MODE, FORMAT_VERSION,
};
use infisical::provider::{merge_scopes, ProviderState, SeedReport, Severity, Source};
use infisical::string_map::StringMap;

fn map(entries: &[(&str, &str)]) -> StringMap {
    let mut map = StringMap::new();
    for (key, value) in entries {
        map.insert(key.to_string(), value.to_string());
    }
    map
}

fn scope(alias: &str) -> Scope {
    Scope {
        alias: alias.to_string(),
        project_id: "id".to_string(),
        environment: "prod".to_string(),
    }
}

fn config() -> InfisicalConfig {
    InfisicalConfig {
        url: "http://127.0.0.1:1".to_string(),
        client_id: "unused".to_string(),
        client_secret: "unused".to_string(),
        scopes: vec![scope("apps"), scope("cicd")],
        secret_path: "/".to_string(),
        cache_ttl: 300,
        stale_max: None,
        stale_warn: 3600,
        timeout: 2,
        cache_file: Some("/var/lib/cache.json".to_string()),
    }
}

fn outage() -> ClientError {
    ClientError::LoginUnreachable { cause: "down".to_string() }
}

fn stored() -> StoredFile {
    StoredFile::Parsed {
        snapshot: StoredSnapshot {
            version: 1,
            fetched_at_unix: 1,
            scopes: vec!["apps/prod".to_string()],
            secrets: map(&[
                ("infisical://apps/prod/DB_PASSWORD", "last-known-good"),
                ("infisical://apps/prod/API_TOKEN", "also-known-good"),
            ]),
        },
    }
}

#[test]
fn cold_starts_from_disk_when_infisical_is_unreachable() {
    let mut state = ProviderState::new(config());
    assert!(state.needs_seed());
    let now = now_unix();
    let (report, answer) = state.snapshot(Err(outage()), stored(), now);
    match report {
        SeedReport::Restored { count, age, scopes } => {
            assert_eq!(count, 2);
            assert_eq!(age, now - 1);
            assert_eq!(scopes, vec!["apps/prod".to_string()]);
        }
        _ => panic!("the stored snapshot must be restored"),
    }
    let answer = answer.expect("a cold start must still resolve secrets");
    let mut secrets = StringMap::new();
    extend_secrets(&mut secrets, Some(&answer.secrets));
    assert_eq!(
        secrets.get("infisical://apps/prod/DB_PASSWORD").map(String::as_str),
        Some("last-known-good")
    );
    assert_eq!(secrets.len(), 2, "the whole snapshot should be restored");

    // And repeated calls keep working rather than degrading.
    assert!(!state.needs_seed());
    let (report, answer) = state.snapshot(Err(outage()), StoredFile::Missing, now + 10);
    assert!(matches!(report, SeedReport::NotWanted));
    let mut again = StringMap::new();
    extend_secrets(&mut again, Some(&answer.expect("served").secrets));
    assert_eq!(again.len(), 2);
    assert_eq!(state.started_stale(now), Some(now - 1));
}

#[test]
fn refreshed_secrets_come_from_the_cache() {
    let mut state = ProviderState::new(config());
    let fetched = vec![map(&[("infisical://apps/prod/A", "one")]), map(&[])];
    let (_, first) = state.snapshot(Ok(fetched), StoredFile::Missing, 1000);
    let first = first.expect("refreshed");
    assert!(matches!(first.source, Source::Refresh));
    let (report, second) = state.snapshot(Err(outage()), stored(), 1299);
    assert!(matches!(report, SeedReport::NotWanted));
    let second = second.expect("cached");
    assert!(matches!(second.source, Source::Cache));
    assert_eq!(first.secrets.len(), second.secrets.len());
    assert_eq!(second.secrets.get("infisical://apps/prod/A").map(String::as_str), Some("one"));
    assert!(state.fresh_snapshot(1299).is_some());
    assert!(state.fresh_snapshot(1300).is_none());
    assert_eq!(state.started_stale(1300), None);
    assert_eq!(state.started_stale(1301), Some(301));
}

#[test]
fn outage_is_answered_from_the_cache() {
    let mut state = ProviderState::new(config());
    let fetched = vec![map(&[("infisical://apps/prod/A", "one")])];
    state.refresh(Ok(fetched), 1000).expect("refreshed");
    let (_, answer) = state.snapshot(Err(outage()), StoredFile::Missing, 1300);
    match answer.expect("served").source {
        Source::Fallback { age, severity, error } => {
            assert_eq!(age, 300);
            assert_eq!(severity, Severity::Warning);
            assert_eq!(
                error.message(),
                "failed to reach Infisical universal-auth login: down"
            );
        }
        _ => panic!("the cache is no longer fresh"),
    }
    let stale = state.serve_stale(outage(), 4600).expect("served");
    assert_eq!(stale.age, 3600);
    assert_eq!(stale.severity, Severity::Error);
    assert_eq!(stale.secrets.len(), 1);
}

#[test]
fn limit_on_old_secrets_is_kept() {
    let mut config = config();
    config.stale_max = Some(600);
    let mut state = ProviderState::new(config);
    state.refresh(Ok(vec![map(&[("A", "1")])]), 1000).expect("refreshed");
    assert!(state.serve_stale(outage(), 1600).is_ok());
    let error = state.serve_stale(outage(), 1601).unwrap_err();
    assert_eq!(
        error.message(),
        "the last known Infisical secrets are 601s old, beyond the configured limit of 600s: \
         failed to reach Infisical universal-auth login: down"
    );
    // A new snapshot makes up for it.
    state.refresh(Ok(vec![map(&[("A", "2")])]), 1602).expect("refreshed");
    assert_eq!(
        state.fresh_snapshot(1602).expect("fresh").get("A").map(String::as_str),
        Some("2")
    );
}

#[test]
fn nothing_to_fall_back_on_is_an_error() {
    let mut state = ProviderState::new(config());
    let (report, answer) = state.snapshot(Err(outage()), StoredFile::Missing, 1000);
    assert!(matches!(report, SeedReport::NothingStored));
    assert_eq!(
        answer.unwrap_err().message(),
        "no cached or persisted Infisical secrets are available to fall back on: failed to reach \
         Infisical universal-auth login: down"
    );
}

#[test]
fn snapshot_is_not_restored_without_a_place_for_it() {
    let mut config = config();
    config.cache_file = None;
    let mut state = ProviderState::new(config);
    assert!(!state.needs_seed());
    assert!(matches!(state.seed_from_disk(stored(), 10), SeedReport::NotWanted));
    assert!(state.serve_stale(outage(), 10).is_err());
}

#[test]
fn unusable_snapshot_is_reported() {
    let mut state = ProviderState::new(config());
    let file = StoredFile::Unparsable { cause: "eof".to_string() };
    match state.seed_from_disk(file, 10) {
        SeedReport::Unusable { error } => {
            assert_eq!(error.message(), "failed to parse /var/lib/cache.json: eof");
        }
        _ => panic!("must be reported"),
    }
}

#[test]
fn failed_refresh_keeps_what_there_is() {
    let mut state = ProviderState::new(config());
    state.refresh(Ok(vec![map(&[("A", "1")])]), 1000).expect("refreshed");
    assert!(state.refresh(Err(outage()), 2000).is_err());
    assert_eq!(state.serve_stale(outage(), 2000).expect("served").age, 1000);
}

#[test]
fn scopes_are_merged_in_order() {
    let merged = merge_scopes(&vec![map(&[("A", "1"), ("B", "1")]), map(&[("B", "2")])]);
    assert_eq!(merged.len(), 2);
    assert_eq!(merged.get("A").map(String::as_str), Some("1"));
    assert_eq!(merged.get("B").map(String::as_str), Some("2"));
    assert!(merge_scopes(&vec![]).is_empty());
}

#[test]
fn served_secrets_of_all_scopes_replace_their_references() {
    let entry = |value: &str| RawSecretsResponse {
        secrets: vec![RawSecret {
            secret_key: "KEY".to_string(),
            secret_value: Some(value.to_string()),
            secret_value_hidden: false,
        }],
        imports: vec![],
    };
    let apps = collect_secrets(&scope("apps"), &entry("one"));
    let cicd = collect_secrets(&scope("cicd"), &entry("two"));
    let mut state = ProviderState::new(config());
    let served = state.refresh(Ok(vec![apps.secrets, cicd.secrets]), 1000).expect("refreshed");
    let mut secrets = StringMap::new();
    extend_secrets(&mut secrets, Some(&served));
    let mut target = "[[infisical://apps/prod/KEY]] [[infisical://cicd/prod/KEY]]".to_string();
    assert!(Interpolator::new(None, &secrets).interpolate_string(&mut target).is_ok());
    assert_eq!(target, "one two");
    // Without the provider the same text is refused.
    let nothing = StringMap::new();
    let mut target = "[[infisical://apps/prod/KEY]]".to_string();
    assert!(Interpolator::new(None, &nothing).interpolate_string(&mut target).is_err());
}

#[test]
fn scope_names_join_alias_and_environment() {
    let state = ProviderState::new(config());
    assert_eq!(state.scope_names(), vec!["apps/prod".to_string(), "cicd/prod".to_string()]);
    assert_eq!(state.config().cache_ttl, 300);
}

#[test]
fn operator_can_shadow_a_secret() {
    let mut secrets = map(&[("infisical://apps/prod/A", "override"), ("CORE", "kept")]);
    let served = map(&[("infisical://apps/prod/A", "served"), ("infisical://apps/prod/B", "new")]);
    extend_secrets(&mut secrets, Some(&served));
    assert_eq!(secrets.len(), 3);
    assert_eq!(secrets.get("infisical://apps/prod/A").map(String::as_str), Some("override"));
    assert_eq!(secrets.get("infisical://apps/prod/B").map(String::as_str), Some("new"));
    assert_eq!(secrets.get("CORE").map(String::as_str), Some("kept"));
    extend_secrets(&mut secrets, None);
    assert_eq!(secrets.len(), 3);
}

#[test]
fn saved_snapshot_is_loaded_as_it_was() {
    let secrets = map(&[("infisical://apps/prod/A", "one")]);
    let snapshot = snapshot_from(&secrets, vec!["apps/prod".to_string()]);
    let file = StoredFile::Parsed { snapshot };
    let loaded = load("snapshot.json", file).expect("load").expect("present");
    assert_eq!(loaded.secrets.len(), 1);
    assert_eq!(
        loaded.secrets.get("infisical://apps/prod/A").map(String::as_str),
        Some("one")
    );
    assert_eq!(loaded.scopes, vec!["apps/prod".to_string()]);
    assert_eq!(loaded.version, FORMAT_VERSION);
}

#[test]
fn missing_file_is_not_an_error() {
    assert!(load("snapshot.json", StoredFile::Missing).expect("load").is_none());
}

#[test]
fn corrupt_file_is_reported_not_swallowed() {
    let file = StoredFile::Unparsable { cause: "key must be a string".to_string() };
    let error = load("snapshot.json", file).unwrap_err();
    assert!(matches!(error, LoadError::Parse { .. }));
    assert_eq!(error.message(), "failed to parse snapshot.json: key must be a string");
    let file = StoredFile::Unreadable { cause: "denied".to_string() };
    let error = load("snapshot.json", file).unwrap_err();
    assert_eq!(error.message(), "failed to read snapshot.json: denied");
    let file = StoredFile::Unopened { cause: "rotated".to_string() };
    let error = load("snapshot.json", file).unwrap_err();
    assert_eq!(error.message(), "failed to open snapshot.json: rotated");
}

#[test]
fn wrong_version_is_rejected() {
    let file = StoredFile::Parsed {
        snapshot: StoredSnapshot {
            version: 999,
            fetched_at_unix: 0,
            scopes: vec![],
            secrets: StringMap::new(),
        },
    };
    let error = load("snapshot.json", file).unwrap_err();
    assert!(matches!(error, LoadError::Version { version: 999, .. }));
    assert_eq!(error.message(), "snapshot.json has format version 999, expected 1");
}

#[test]
fn snapshot_carries_the_time_of_its_refresh() {
    let snapshot = snapshot_at(&StringMap::new(), vec![], 42);
    assert_eq!(snapshot.fetched_at_unix, 42);
    assert_eq!(snapshot.version, 1);
    let before = now_unix();
    let snapshot = snapshot_from(&StringMap::new(), vec![]);
    assert!(before <= snapshot.fetched_at_unix && snapshot.fetched_at_unix <= now_unix());
}

#[test]
fn age_never_goes_below_zero() {
    assert_eq!(age_at(10, 3), 7);
    assert_eq!(age_at(3, 10), 0);
    assert_eq!(age_seconds(u64::MAX), 0);
    assert!(age_seconds(1) > 1_600_000_000);
    assert_eq!(unix_seconds(Some(5)), 5);
    assert_eq!(unix_seconds(None), 0);
}

#[test]
fn secrets_are_written_to_a_restricted_file_only() {
    assert_eq!(FILE_MODE, 0o600, "snapshot must not be group/world readable");
    assert_eq!(DIRECTORY_MODE, 0o700);
    let mut step = begin_save(true);
    let mut steps = vec![step];
    while step != SaveStep::Finished {
        step = continue_save(step, Ok(())).expect("next");
        steps.push(step);
    }
    assert_eq!(
        steps,
        vec![
            SaveStep::CreateDirectory,
            SaveStep::RestrictDirectory,
            SaveStep::Encode,
            SaveStep::CreateTemporary,
            SaveStep::RestrictTemporary,
            SaveStep::Write,
            SaveStep::Flush,
            SaveStep::MoveIntoPlace,
            SaveStep::RestrictFile,
            SaveStep::Finished,
        ]
    );
    assert_eq!(begin_save(false), SaveStep::Encode);
}

#[test]
fn temporary_file_is_never_the_file() {
    assert_eq!(temporary_path("/d/s.json"), "/d/s.json.tmp");
    for path in ["", "s", "s.json", "s.tmp", "/d/s.tmp", ".tmp", "/d.tmp/s", "s.tmp.tmp"] {
        assert_ne!(temporary_path(path), path);
    }
}

/// Writes `new` to `path` among `files`, up to the step `last`, which is carried
/// out only in part.
fn write_until(files: &mut HashMap<String, String>, path: &str, new: &str, last: SaveStep) {
    let temporary = temporary_path(path);
    let mut step = begin_save(false);
    while step != last {
        match step {
            SaveStep::CreateTemporary => {
                files.insert(temporary.clone(), String::new());
            }
            SaveStep::Write => {
                files.insert(temporary.clone(), new.to_string());
            }
            SaveStep::MoveIntoPlace => {
                let written = files.remove(&temporary).expect("temporary file");
                files.insert(path.to_string(), written);
            }
            _ => {}
        }
        step = continue_save(step, Ok(())).expect("next");
    }
    if last == SaveStep::Write {
        files.insert(temporary, new[..new.len() / 2].to_string());
    }
}

#[test]
fn interrupted_writing_leaves_the_old_file_or_the_new_one() {
    for path in ["/d/s.json", "/d/s.tmp"] {
        for (last, expected) in [
            (SaveStep::Encode, "old"),
            (SaveStep::CreateTemporary, "old"),
            (SaveStep::RestrictTemporary, "old"),
            (SaveStep::Write, "old"),
            (SaveStep::Flush, "old"),
            (SaveStep::MoveIntoPlace, "old"),
            (SaveStep::RestrictFile, "new contents"),
            (SaveStep::Finished, "new contents"),
        ] {
            let mut files = HashMap::from([(path.to_string(), "old".to_string())]);
            write_until(&mut files, path, "new contents", last);
            assert_eq!(files[path], expected, "{path} at {last:?}");
        }
    }
}

#[test]
fn failed_step_ends_the_writing() {
    let failed = |step: SaveStep| match continue_save(step, Err("no".to_string())) {
        Ok(_) => panic!("must end"),
        Err(error) => error.message("/d", &temporary_path("/d/s.json"), "/d/s.json"),
    };
    assert_eq!(failed(SaveStep::CreateDirectory), "failed to create /d: no");
    assert_eq!(failed(SaveStep::Encode), "failed to encode the Infisical snapshot: no");
    assert_eq!(failed(SaveStep::CreateTemporary), "failed to create /d/s.json.tmp: no");
    assert_eq!(failed(SaveStep::RestrictTemporary), "failed to set mode 600 on /d/s.json.tmp: no");
    assert_eq!(failed(SaveStep::Write), "failed to write /d/s.json.tmp: no");
    assert_eq!(failed(SaveStep::Flush), "failed to flush /d/s.json.tmp: no");
    assert_eq!(
        failed(SaveStep::MoveIntoPlace),
        "failed to move /d/s.json.tmp into place at /d/s.json: no"
    );
    assert_eq!(failed(SaveStep::RestrictFile), "failed to set mode 600 on /d/s.json: no");
    // A directory that cannot be restricted is no reason not to write.
    assert!(matches!(
        continue_save(SaveStep::RestrictDirectory, Err("no".to_string())),
        Ok(SaveStep::Encode)
    ));
}
