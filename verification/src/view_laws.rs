//! What the views of the library's values show.
use vstd::prelude::*;

use crate::client::{ClientError, ClientErrorView};
use crate::config::{
    optional, scope_name, scope_views, InfisicalConfig, Scope, ScopeView, Setting,
};
use crate::crypto::{
    CIPHER_NAME, ENVELOPE_VERSION, HKDF_INFO, KDF_NAME, KEY_LEN, MAX_PLAINTEXT_LEN, NONCE_LEN,
    SALT_LEN, TAG_LEN,
};
use crate::interpolate::{
    error_of, log_views, names_of, placed, values_of, variables_of, InterpolateError,
    Interpolator, Place,
};
use crate::persist::{StoredSnapshot, DIRECTORY_MODE, FILE_MODE, FORMAT_VERSION};
use crate::provider::{map_views, outcome_view, Snapshot};
use crate::resource::{EnvironmentVar, Log};
use crate::string_map::{distinct_keys, entries_map, lemma_entry, StringMap};
use crate::substitution::{pass_view, Pass};
use crate::text::{pair_views, views};

verus! {

/// A list of texts shows each text at its place.
pub proof fn lists_of_texts_show_each_text(
    texts: Seq<String>,
    pairs: Seq<(String, String)>,
    text: Option<String>,
)
    ensures
        views(texts).len() == texts.len(),
        forall|i: int| 0 <= i < texts.len() ==> #[trigger] views(texts)[i] == texts[i]@,
        pair_views(pairs).len() == pairs.len(),
        forall|i: int|
            0 <= i < pairs.len() ==> #[trigger] pair_views(pairs)[i] == (pairs[i].0@, pairs[i].1@),
        text is Some ==> optional(text) == Some(text->0@),
        text is None ==> optional(text) is None,
{
}

/// A run of texts shows each text with its place.
pub proof fn runs_show_each_text(
    place: Place,
    texts: Seq<Seq<char>>,
    env_vars: Seq<EnvironmentVar>,
    pairs: Seq<(Seq<char>, Seq<char>)>,
    logs: Seq<Log>,
)
    ensures
        placed(place, texts).len() == texts.len(),
        forall|i: int| 0 <= i < texts.len() ==> #[trigger] placed(place, texts)[i] == (
            place,
            texts[i],
        ),
        values_of(env_vars).len() == env_vars.len(),
        forall|i: int|
            0 <= i < env_vars.len() ==> #[trigger] values_of(env_vars)[i] == env_vars[i].value@,
        variables_of(env_vars).len() == env_vars.len(),
        forall|i: int|
            0 <= i < env_vars.len() ==> #[trigger] variables_of(env_vars)[i]
                == env_vars[i].variable@,
        names_of(pairs).len() == pairs.len(),
        forall|i: int| 0 <= i < pairs.len() ==> #[trigger] names_of(pairs)[i] == pairs[i].1,
        log_views(logs).len() == logs.len(),
        forall|i: int|
            0 <= i < logs.len() ==> #[trigger] log_views(logs)[i] == (
                logs[i].stage@,
                logs[i].stdout@,
            ),
{
}

/// What a refresh came to shows the secrets of every scope, or the error.
pub proof fn outcomes_show_every_scope(maps: Vec<StringMap>, error: ClientError)
    ensures
        map_views(maps@).len() == maps@.len(),
        forall|i: int| 0 <= i < maps@.len() ==> #[trigger] map_views(maps@)[i] == maps@[i]@,
        outcome_view(Ok(maps)) == Ok::<Seq<Map<Seq<char>, Seq<char>>>, ClientErrorView>(
            map_views(maps@),
        ),
        outcome_view(Err(error)) == Err::<Seq<Map<Seq<char>, Seq<char>>>, ClientErrorView>(error@),
{
}

/// What came of an interpolation shows the error, if there is one, with its place.
pub proof fn results_show_their_error(error: InterpolateError)
    ensures
        error_of(Ok(())) is None,
        error_of(Err(error)) == Some((error.place, error.failure@)),
{
}

/// A pass shows its text and every pair that it reports, or its cause.
pub proof fn passes_show_what_they_report(
    text: String,
    pairs: Vec<(String, String)>,
    cause: String,
)
    ensures
        pass_view(Pass::Err(cause)) is Err,
        pass_view(Pass::Err(cause))->Err_0 == cause@,
        pass_view(Pass::Ok((text, pairs))) is Ok,
        pass_view(Pass::Ok((text, pairs)))->Ok_0.0 == text@,
        forall|value: Seq<char>, name: Seq<char>| #[trigger]
            pass_view(Pass::Ok((text, pairs)))->Ok_0.1.contains((value, name)) <==> exists|i: int|
                0 <= i < pairs@.len() && (#[trigger] pairs@[i]).0@ == value && pairs@[i].1@ == name,
{
    let all = pair_views(pairs@);
    assert forall|value: Seq<char>, name: Seq<char>| #[trigger]
        pass_view(Pass::Ok((text, pairs)))->Ok_0.1.contains((value, name)) <==> exists|i: int|
            0 <= i < pairs@.len() && (#[trigger] pairs@[i]).0@ == value && pairs@[i].1@ == name by {
        if all.contains((value, name)) {
            let i = choose|i: int| 0 <= i < all.len() && all[i] == (value, name);
            assert(pairs@[i].0@ == value && pairs@[i].1@ == name);
        }
        if exists|i: int|
            0 <= i < pairs@.len() && (#[trigger] pairs@[i]).0@ == value && pairs@[i].1@ == name {
            let i = choose|i: int|
                0 <= i < pairs@.len() && (#[trigger] pairs@[i]).0@ == value && pairs@[i].1@ == name;
            assert(all[i] == (value, name));
        }
    }
}

/// A configuration shows every setting as it is.
pub proof fn configuration_shows_every_setting(
    config: InfisicalConfig,
    scopes: Seq<Scope>,
    scope: Scope,
    setting: Setting,
)
    ensures
        config@.url == config.url@,
        config@.client_id == config.client_id@,
        config@.client_secret == config.client_secret@,
        config@.scopes == scope_views(config.scopes@),
        config@.secret_path == config.secret_path@,
        config@.cache_ttl == config.cache_ttl,
        config@.stale_max == config.stale_max,
        config@.stale_warn == config.stale_warn,
        config@.timeout == config.timeout,
        config@.cache_file == optional(config.cache_file),
        scope_views(scopes).len() == scopes.len(),
        forall|i: int|
            0 <= i < scopes.len() ==> #[trigger] scope_views(scopes)[i] == (ScopeView {
                alias: scopes[i].alias@,
                project_id: scopes[i].project_id@,
                environment: scopes[i].environment@,
            }),
        scope_name(scope@) == scope.alias@ + "/"@ + scope.environment@,
        setting@.value == optional(setting.value),
        setting@.file == optional(setting.file),
        setting.contents matches Ok(text) ==> setting@.contents == Ok::<Seq<char>, Seq<char>>(
            text@,
        ),
        setting.contents matches Err(cause) ==> setting@.contents == Err::<Seq<char>, Seq<char>>(
            cause@,
        ),
{
}

/// An interpolator and a snapshot show what they hold.
pub proof fn holders_show_what_they_hold(
    interpolator: Interpolator,
    snapshot: Snapshot,
    stored: StoredSnapshot,
)
    ensures
        interpolator.variables is None ==> interpolator@.variables is None,
        interpolator.variables matches Some(variables) ==> interpolator@.variables == Some(
            variables@,
        ),
        interpolator@.secrets == interpolator.secrets@,
        interpolator@.variable_replacers == interpolator.variable_replacers.in_order().to_set(),
        interpolator@.secret_replacers == interpolator.secret_replacers.in_order().to_set(),
        snapshot@.secrets == snapshot.secrets@,
        snapshot@.fetched_at_unix == snapshot.fetched_at_unix,
        stored@.version == stored.version,
        stored@.fetched_at_unix == stored.fetched_at_unix,
        stored@.scopes == views(stored.scopes@),
        stored@.secrets == stored.secrets@,
{
}

/// Entries with distinct keys stand for the map that has exactly these keys, each
/// with its value.
pub proof fn entries_show_every_key(entries: Seq<(String, String)>, key: Seq<char>)
    requires
        distinct_keys(entries),
    ensures
        entries_map(entries).contains_key(key) <==> exists|i: int|
            0 <= i < entries.len() && (#[trigger] entries[i]).0@ == key,
        forall|i: int|
            0 <= i < entries.len() && (#[trigger] entries[i]).0@ == key
                ==> entries_map(entries)[key] == entries[i].1@,
{
    assert forall|i: int| 0 <= i < entries.len() && (#[trigger] entries[i]).0@ == key implies {
        &&& entries_map(entries).contains_key(key)
        &&& entries_map(entries)[key] == entries[i].1@
    } by {
        lemma_entry(entries, i);
    }
}

/// The sizes, names, versions and modes that stored files rest on.
pub proof fn stored_files_rest_on_these_constants()
    ensures
        SALT_LEN == 32,
        KEY_LEN == 32,
        NONCE_LEN == 12,
        TAG_LEN == 16,
        MAX_PLAINTEXT_LEN == 0xF_FFFF_FFE0,
        ENVELOPE_VERSION == 1,
        KDF_NAME@ == "hkdf-sha256"@,
        CIPHER_NAME@ == "aes-256-gcm"@,
        HKDF_INFO@ == "komodo-infisical-snapshot-v1"@,
        FORMAT_VERSION == 1,
        DIRECTORY_MODE == 0o700,
        FILE_MODE == 0o600,
{
}

} // verus!
