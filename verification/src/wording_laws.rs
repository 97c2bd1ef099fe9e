//! What is said of an interpolation and of everything that can go wrong.
use vstd::prelude::*;

use crate::client::{error_text as client_error_text, ClientErrorView};
use crate::config::{
    error_text as config_error_text, number_fault, span_text, ConfigErrorView,
};
use crate::crypto::{error_text as crypto_error_text, CryptoErrorView};
use crate::interpolate::{
    error_text as interpolate_error_text, failure_text, joined, logs_of, names_of, secret_line,
    variable_line, FailureView, Place,
};
use crate::number::{all_digits, decimal, digits_of, digits_value, exceeds_64_bits};
use crate::persist::{load_error_text, save_error_text, LoadErrorView, SaveStep};
use crate::provider::{error_text as provider_error_text, ProviderErrorView};

verus! {

/// The log of the variables comes first and that of the secrets second, each only
/// if something was put in.
pub proof fn only_what_was_put_in_is_logged(
    variables: Seq<(Seq<char>, Seq<char>)>,
    secrets: Seq<(Seq<char>, Seq<char>)>,
)
    ensures
        ({
            let logs = logs_of(variables, secrets);
            &&& variables.len() == 0 && secrets.len() == 0 ==> logs.len() == 0
            &&& variables.len() > 0 && secrets.len() == 0 ==> logs.len() == 1 && logs[0].0
                == "Interpolate Variables"@
            &&& variables.len() == 0 && secrets.len() > 0 ==> logs.len() == 1 && logs[0].0
                == "Interpolate Secrets"@
            &&& variables.len() > 0 && secrets.len() > 0 ==> logs.len() == 2 && logs[0].0
                == "Interpolate Variables"@ && logs[1].0 == "Interpolate Secrets"@
        }),
{
}

/// The log of the variables has one line for each that was put in, with its name
/// and its value, and one more variable adds one more line.
pub proof fn every_variable_has_its_line(
    variables: Seq<(Seq<char>, Seq<char>)>,
    secrets: Seq<(Seq<char>, Seq<char>)>,
    value: Seq<char>,
    name: Seq<char>,
)
    ensures
        ({
            let line = "<span class=\"text-muted-foreground\">"@ + name + " =></span> "@ + value;
            let log = logs_of(variables.push((value, name)), secrets)[0].1;
            &&& variables.len() == 0 ==> log == line
            &&& variables.len() > 0 ==> log == logs_of(variables, secrets)[0].1 + "\n"@ + line
        }),
{
    let to_line = |pair: (Seq<char>, Seq<char>)| variable_line(pair);
    let longer = variables.push((value, name)).map_values(to_line);
    let shorter = variables.map_values(to_line);
    assert(longer.drop_last() =~= shorter);
    assert(longer.last() == variable_line((value, name)));
    assert(joined(longer) == if variables.len() == 0 {
        longer[0]
    } else {
        joined(shorter) + "\n"@ + longer.last()
    });
}

/// The log of the secrets has one line for each that was put in, with its name and
/// without its value, and one more secret adds one more line.
pub proof fn every_secret_has_its_line(
    variables: Seq<(Seq<char>, Seq<char>)>,
    secrets: Seq<(Seq<char>, Seq<char>)>,
    value: Seq<char>,
    name: Seq<char>,
)
    ensures
        ({
            let line = "<span class=\"text-muted-foreground\">replaced:</span> "@ + name;
            let log = logs_of(variables, secrets.push((value, name))).last().1;
            &&& secrets.len() == 0 ==> log == line
            &&& secrets.len() > 0 ==> log == logs_of(variables, secrets).last().1 + "\n"@ + line
        }),
{
    let to_line = |name: Seq<char>| secret_line(name);
    let longer = names_of(secrets.push((value, name))).map_values(to_line);
    let shorter = names_of(secrets).map_values(to_line);
    assert(longer.drop_last() =~= shorter);
    assert(longer.last() == secret_line(name));
    assert(joined(longer) == if secrets.len() == 0 {
        longer[0]
    } else {
        joined(shorter) + "\n"@ + longer.last()
    });
}

/// What is said of a text that could not be interpolated: where it stood, what
/// failed, and in full which text or reference it was.
pub proof fn failed_interpolation_is_told_in_full(
    target: Seq<char>,
    cause: Seq<char>,
    token: Seq<char>,
    failure: FailureView,
)
    ensures
        failure_text(FailureView::Variables { target, cause })
            == "failed to interpolate variables into target '"@ + target + "': "@ + cause,
        failure_text(FailureView::Secrets { target, cause })
            == "failed to interpolate secrets into target '"@ + target + "': "@ + cause,
        failure_text(FailureView::Unresolved { token }) == "unresolved secret reference '"@ + token
            + "'. The Infisical secret provider did not supply this key, so it would have been left uninterpolated. Refusing to deploy a literal token in place of a secret value. Check that the provider is enabled and healthy, and that the project alias, environment and key in the reference all exist."@,
        interpolate_error_text((Place::Target, failure)) == failure_text(failure),
        interpolate_error_text((Place::ExtraArg, failure))
            == "failed interpolation into extra arg: "@ + failure_text(failure),
        interpolate_error_text((Place::VariableValue, failure))
            == "failed interpolation into variable value: "@ + failure_text(failure),
{
}

/// What is said of a scope that could not be fetched.
pub proof fn failed_fetch_is_told_in_full(scope: Seq<char>, status: Seq<char>, cause: Seq<char>)
    ensures
        client_error_text(ClientErrorView::LoginUnreachable { cause })
            == "failed to reach Infisical universal-auth login: "@ + cause,
        client_error_text(ClientErrorView::LoginRefused { status })
            == "Infisical universal-auth login failed with status "@ + status,
        client_error_text(ClientErrorView::LoginUnparsable { cause })
            == "failed to parse Infisical universal-auth login response: "@ + cause,
        client_error_text(ClientErrorView::ScopeUnreachable { scope, cause })
            == "failed to reach Infisical for scope "@ + scope + ": "@ + cause,
        client_error_text(ClientErrorView::ScopeRefused { scope, status })
            == "Infisical returned status "@ + status + " for scope "@ + scope,
        client_error_text(ClientErrorView::ScopeUnparsable { scope, cause })
            == "failed to parse Infisical response for scope "@ + scope + ": "@ + cause,
{
}

/// What is said where there are no secrets to serve: why, and how the refresh
/// failed.
pub proof fn failed_refresh_is_told_in_full(error: ClientErrorView, age: u64, limit: u64)
    ensures
        provider_error_text(ProviderErrorView::NothingToServe { error })
            == "no cached or persisted Infisical secrets are available to fall back on: "@
            + client_error_text(error),
        provider_error_text(ProviderErrorView::TooOld { age, limit, error })
            == "the last known Infisical secrets are "@ + decimal(age as nat)
            + "s old, beyond the configured limit of "@ + decimal(limit as nat) + "s: "@
            + client_error_text(error),
{
}

/// What is said of a setting that is wrong: its name, and what was found.
pub proof fn wrong_setting_is_told_in_full(
    name: Seq<char>,
    path: Seq<char>,
    cause: Seq<char>,
    kind: Seq<char>,
    value: Seq<char>,
)
    ensures
        config_error_text(ConfigErrorView::Missing { name }) == name + " (or "@ + name
            + "_FILE) must be set when "@ + "KOMODO_INFISICAL_ENABLED"@ + " is true"@,
        config_error_text(ConfigErrorView::UnreadableFile { name, path, cause }) == name
            + "_FILE points at '"@ + path + "', which could not be read: "@ + cause,
        config_error_text(ConfigErrorView::EmptyFile { name, path }) == name + "_FILE points at '"@
            + path + "', which is empty"@,
        config_error_text(ConfigErrorView::NotSeconds { name, raw: value }) == name
            + " must be a whole number of seconds, got '"@ + value + "': "@ + number_fault(value),
        config_error_text(ConfigErrorView::EmptySegment { kind }) == kind + " must not be empty"@,
        config_error_text(ConfigErrorView::BadSegment { kind, value }) == kind + " '"@ + value
            + "' must match [a-z0-9-]+ to satisfy the estate secret_ref convention"@,
{
}

/// What is said of the lists of projects and environments, and of a limit on old
/// secrets that is too low.
pub proof fn wrong_list_is_told_in_full(
    entry: Seq<char>,
    alias: Seq<char>,
    stale_max: u64,
    cache_ttl: u64,
)
    ensures
        config_error_text(ConfigErrorView::NotAPair { entry }) == "KOMODO_INFISICAL_PROJECTS"@
            + " entry '"@ + entry + "' must be in the form <alias>=<projectId>"@,
        config_error_text(ConfigErrorView::EmptyProjectId { entry }) == "KOMODO_INFISICAL_PROJECTS"@
            + " entry '"@ + entry + "' has an empty projectId"@,
        config_error_text(ConfigErrorView::RepeatedAlias { alias }) == "KOMODO_INFISICAL_PROJECTS"@
            + " declares alias '"@ + alias + "' more than once"@,
        config_error_text(ConfigErrorView::NoProject) == "KOMODO_INFISICAL_PROJECTS"@
            + " must declare at least one <alias>=<projectId> pair"@,
        config_error_text(ConfigErrorView::NoEnvironment) == "KOMODO_INFISICAL_ENVIRONMENTS"@
            + " must declare at least one environment slug"@,
        config_error_text(ConfigErrorView::StaleBelowTtl { stale_max, cache_ttl })
            == "KOMODO_INFISICAL_STALE_MAX_SECONDS"@ + " ("@ + span_text(stale_max)
            + ") must be >= "@ + "KOMODO_INFISICAL_CACHE_TTL_SECONDS"@ + " ("@ + span_text(cache_ttl)
            + ")"@,
        span_text(0) == "0ns"@,
        stale_max > 0 ==> span_text(stale_max) == decimal(stale_max as nat) + "s"@,
{
}

/// What is said of a text that is no number: that it is empty, that its leading
/// digits alone are too large, or that something in it is no digit.
pub proof fn fault_of_a_number_is_told(raw: Seq<char>, n: int)
    requires
        0 <= n <= digits_of(raw).len(),
    ensures
        raw.len() == 0 ==> number_fault(raw) == "cannot parse integer from empty string"@,
        raw.len() > 0 && all_digits(digits_of(raw).take(n)) && digits_value(digits_of(raw).take(n))
            > u64::MAX ==> number_fault(raw) == "number too large to fit in target type"@,
        raw.len() > 0 && n < digits_of(raw).len() && !('0' <= digits_of(raw)[n] <= '9') && (forall|
            k: int,
        |
            0 <= k <= n && all_digits(#[trigger] digits_of(raw).take(k)) ==> digits_value(
                digits_of(raw).take(k),
            ) <= u64::MAX) ==> number_fault(raw) == "invalid digit found in string"@,
{
    if n < digits_of(raw).len() && !('0' <= digits_of(raw)[n] <= '9') && exceeds_64_bits(raw) {
        let k = choose|k: int|
            0 <= k <= digits_of(raw).len() && all_digits(#[trigger] digits_of(raw).take(k))
                && digits_value(digits_of(raw).take(k)) > u64::MAX;
        if k > n {
            assert(digits_of(raw).take(k)[n] == digits_of(raw)[n]);
        }
    }
}

/// What is said of a stored snapshot that cannot be used: which file, and why.
pub proof fn unusable_snapshot_is_told_in_full(path: Seq<char>, cause: Seq<char>, version: u32)
    ensures
        load_error_text(LoadErrorView::Read { path, cause }) == "failed to read "@ + path + ": "@
            + cause,
        load_error_text(LoadErrorView::Open { path, cause }) == "failed to open "@ + path + ": "@
            + cause,
        load_error_text(LoadErrorView::Parse { path, cause }) == "failed to parse "@ + path + ": "@
            + cause,
        load_error_text(LoadErrorView::Version { path, version }) == path + " has format version "@
            + decimal(version as nat) + ", expected "@ + decimal(1),
{
}

/// What is said of a step of writing a snapshot that failed: what it was to do, to
/// which file, and why it failed.
pub proof fn failed_step_is_told_in_full(
    cause: Seq<char>,
    directory: Seq<char>,
    temporary: Seq<char>,
    path: Seq<char>,
)
    ensures
        save_error_text(SaveStep::CreateDirectory, cause, directory, temporary, path)
            == "failed to create "@ + directory + ": "@ + cause,
        save_error_text(SaveStep::RestrictDirectory, cause, directory, temporary, path)
            == "failed to set mode 700 on "@ + directory + ": "@ + cause,
        save_error_text(SaveStep::Encode, cause, directory, temporary, path)
            == "failed to encode the Infisical snapshot"@ + ": "@ + cause,
        save_error_text(SaveStep::CreateTemporary, cause, directory, temporary, path)
            == "failed to create "@ + temporary + ": "@ + cause,
        save_error_text(SaveStep::RestrictTemporary, cause, directory, temporary, path)
            == "failed to set mode 600 on "@ + temporary + ": "@ + cause,
        save_error_text(SaveStep::Write, cause, directory, temporary, path) == "failed to write "@
            + temporary + ": "@ + cause,
        save_error_text(SaveStep::Flush, cause, directory, temporary, path) == "failed to flush "@
            + temporary + ": "@ + cause,
        save_error_text(SaveStep::MoveIntoPlace, cause, directory, temporary, path)
            == "failed to move "@ + temporary + " into place at "@ + path + ": "@ + cause,
        save_error_text(SaveStep::RestrictFile, cause, directory, temporary, path)
            == "failed to set mode 600 on "@ + path + ": "@ + cause,
{
}

/// What is said of an envelope that could not be read: the field, and why.
pub proof fn unreadable_envelope_is_told_in_full(
    version: u32,
    kdf: Seq<char>,
    cipher: Seq<char>,
    cause: Seq<char>,
)
    ensures
        crypto_error_text(CryptoErrorView::Version { version }) == "snapshot envelope version "@
            + decimal(version as nat) + " is not supported (expected "@ + decimal(1) + ")"@,
        crypto_error_text(CryptoErrorView::Algorithms { kdf, cipher })
            == "snapshot uses unsupported algorithms ("@ + kdf + " / "@ + cipher + ")"@,
        crypto_error_text(CryptoErrorView::SaltEncoding { cause })
            == "snapshot salt is not valid base64: "@ + cause,
        crypto_error_text(CryptoErrorView::NonceEncoding { cause })
            == "snapshot nonce is not valid base64: "@ + cause,
        crypto_error_text(CryptoErrorView::CiphertextEncoding { cause })
            == "snapshot ciphertext is not valid base64: "@ + cause,
{
}

} // verus!
