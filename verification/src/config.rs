//! Configuration for the Infisical secret provider.
//!
//! The settings come from the process environment, one variable each. Every
//! required one may instead be given as the path of a file that holds it, in
//! the variable with `_FILE` behind its name.
use vstd::prelude::*;

use crate::number::{
    decimal, decimal_text, exceeds_64_bits, is_too_large, parse_whole_number, whole_number,
};
use crate::text::{
    chars_of, cut, equal_but_for_case, pair_views, pieces, same_but_for_case, split, split_once,
    strip_trailing, trim, trimmed, views, without_trailing,
};
use crate::token::{is_segment, is_segment_char};

verus! {

pub const ENV_ENABLED: &'static str = "KOMODO_INFISICAL_ENABLED";

pub const ENV_URL: &'static str = "KOMODO_INFISICAL_URL";

pub const ENV_CLIENT_ID: &'static str = "KOMODO_INFISICAL_CLIENT_ID";

pub const ENV_CLIENT_SECRET: &'static str = "KOMODO_INFISICAL_CLIENT_SECRET";

pub const ENV_PROJECTS: &'static str = "KOMODO_INFISICAL_PROJECTS";

pub const ENV_ENVIRONMENTS: &'static str = "KOMODO_INFISICAL_ENVIRONMENTS";

pub const ENV_SECRET_PATH: &'static str = "KOMODO_INFISICAL_SECRET_PATH";

pub const ENV_CACHE_TTL: &'static str = "KOMODO_INFISICAL_CACHE_TTL_SECONDS";

pub const ENV_STALE_MAX: &'static str = "KOMODO_INFISICAL_STALE_MAX_SECONDS";

pub const ENV_STALE_WARN: &'static str = "KOMODO_INFISICAL_STALE_WARN_SECONDS";

pub const ENV_TIMEOUT: &'static str = "KOMODO_INFISICAL_TIMEOUT_SECONDS";

pub const ENV_CACHE_FILE: &'static str = "KOMODO_INFISICAL_CACHE_FILE";

pub const DEFAULT_ENVIRONMENTS: &'static str = "prod";

pub const DEFAULT_SECRET_PATH: &'static str = "/";

pub const DEFAULT_CACHE_TTL_SECONDS: u64 = 300;

pub const DEFAULT_STALE_WARN_SECONDS: u64 = 3600;

pub const DEFAULT_TIMEOUT_SECONDS: u64 = 15;

/// One Infisical project/environment pair to load secrets from.
///
/// `alias` is the short, stable name used in interpolation tokens
/// (`[[infisical://<alias>/<environment>/<KEY>]]`). It is intentionally
/// decoupled from the Infisical project *slug*, which carries a random
/// suffix and would change if the project were recreated.
#[derive(Debug)]
pub struct Scope {
    pub alias: String,
    pub project_id: String,
    pub environment: String,
}

/// The view of a [`Scope`].
pub struct ScopeView {
    pub alias: Seq<char>,
    pub project_id: Seq<char>,
    pub environment: Seq<char>,
}

impl View for Scope {
    type V = ScopeView;

    open spec fn view(&self) -> ScopeView {
        ScopeView {
            alias: self.alias@,
            project_id: self.project_id@,
            environment: self.environment@,
        }
    }
}

impl Clone for Scope {
    fn clone(&self) -> (r: Scope)
        ensures
            r@ == self@,
    {
        Scope {
            alias: self.alias.clone(),
            project_id: self.project_id.clone(),
            environment: self.environment.clone(),
        }
    }
}

/// The name of a scope.
pub open spec fn scope_name(scope: ScopeView) -> Seq<char> {
    scope.alias + "/"@ + scope.environment
}

impl Scope {
    /// The name of the scope: its alias and its environment.
    pub fn name(&self) -> (r: String)
        ensures
            r@ == scope_name(self@),
    {
        let mut r = self.alias.clone();
        r.append("/");
        r.append(self.environment.as_str());
        r
    }
}

/// The views of scopes.
pub open spec fn scope_views(scopes: Seq<Scope>) -> Seq<ScopeView> {
    scopes.map_values(|scope: Scope| scope@)
}

/// The configuration of the provider. All spans of time are in seconds.
#[derive(Debug)]
pub struct InfisicalConfig {
    pub url: String,
    pub client_id: String,
    pub client_secret: String,
    pub scopes: Vec<Scope>,
    pub secret_path: String,
    /// How long fetched secrets are used without asking again.
    pub cache_ttl: u64,
    /// How old secrets may be that are served while Infisical cannot be
    /// reached. Without a limit an outage costs freshness, not availability.
    pub stale_max: Option<u64>,
    /// The age at which serving old secrets is reported as an error.
    pub stale_warn: u64,
    pub timeout: u64,
    /// Where the last known good secrets are kept across a restart.
    pub cache_file: Option<String>,
}

/// The view of an [`InfisicalConfig`].
pub struct ConfigView {
    pub url: Seq<char>,
    pub client_id: Seq<char>,
    pub client_secret: Seq<char>,
    pub scopes: Seq<ScopeView>,
    pub secret_path: Seq<char>,
    pub cache_ttl: u64,
    pub stale_max: Option<u64>,
    pub stale_warn: u64,
    pub timeout: u64,
    pub cache_file: Option<Seq<char>>,
}

/// The view of a text that may be absent.
pub open spec fn optional(text: Option<String>) -> Option<Seq<char>> {
    match text {
        Some(text) => Some(text@),
        None => None,
    }
}

impl View for InfisicalConfig {
    type V = ConfigView;

    open spec fn view(&self) -> ConfigView {
        ConfigView {
            url: self.url@,
            client_id: self.client_id@,
            client_secret: self.client_secret@,
            scopes: scope_views(self.scopes@),
            secret_path: self.secret_path@,
            cache_ttl: self.cache_ttl,
            stale_max: self.stale_max,
            stale_warn: self.stale_warn,
            timeout: self.timeout,
            cache_file: optional(self.cache_file),
        }
    }
}

impl Clone for InfisicalConfig {
    fn clone(&self) -> (r: InfisicalConfig)
        ensures
            r@ == self@,
    {
        let ghost all = scope_views(self.scopes@);
        let mut scopes: Vec<Scope> = Vec::new();
        let mut i: usize = 0;
        while i < self.scopes.len()
            invariant
                i <= self.scopes@.len(),
                all == scope_views(self.scopes@),
                scope_views(scopes@) == all.take(i as int),
            decreases self.scopes.len() - i,
        {
            let ghost before = scope_views(scopes@);
            let scope = self.scopes[i].clone();
            let ghost shown = scope@;
            scopes.push(scope);
            assert(shown == all[i as int]);
            assert(scope_views(scopes@) =~= before.push(shown));
            assert(all.take(i + 1) =~= before.push(shown));
            i += 1;
        }
        assert(all.take(i as int) =~= all);
        InfisicalConfig {
            url: self.url.clone(),
            client_id: self.client_id.clone(),
            client_secret: self.client_secret.clone(),
            scopes,
            secret_path: self.secret_path.clone(),
            cache_ttl: self.cache_ttl,
            stale_max: self.stale_max,
            stale_warn: self.stale_warn,
            timeout: self.timeout,
            cache_file: self.cache_file.clone(),
        }
    }
}

/// What is wrong with the configuration.
#[derive(Debug)]
pub enum ConfigError {
    /// A required setting is neither given nor in a file.
    Missing { name: String },
    /// The file of a setting could not be read.
    UnreadableFile { name: String, path: String, cause: String },
    /// The file of a setting is empty.
    EmptyFile { name: String, path: String },
    /// A span of time is not a whole number of seconds.
    NotSeconds { name: String, raw: String },
    /// A part of a token is empty.
    EmptySegment { kind: String },
    /// A part of a token holds a character that does not belong there.
    BadSegment { kind: String, value: String },
    /// A project is not given as a pair.
    NotAPair { entry: String },
    /// A project has no id.
    EmptyProjectId { entry: String },
    /// An alias stands for two projects.
    RepeatedAlias { alias: String },
    /// There is no project.
    NoProject,
    /// There is no environment.
    NoEnvironment,
    /// The limit on old secrets is below the time for which they are fresh.
    StaleBelowTtl { stale_max: u64, cache_ttl: u64 },
}

/// The view of a [`ConfigError`].
pub enum ConfigErrorView {
    Missing { name: Seq<char> },
    UnreadableFile { name: Seq<char>, path: Seq<char>, cause: Seq<char> },
    EmptyFile { name: Seq<char>, path: Seq<char> },
    NotSeconds { name: Seq<char>, raw: Seq<char> },
    EmptySegment { kind: Seq<char> },
    BadSegment { kind: Seq<char>, value: Seq<char> },
    NotAPair { entry: Seq<char> },
    EmptyProjectId { entry: Seq<char> },
    RepeatedAlias { alias: Seq<char> },
    NoProject,
    NoEnvironment,
    StaleBelowTtl { stale_max: u64, cache_ttl: u64 },
}

impl View for ConfigError {
    type V = ConfigErrorView;

    open spec fn view(&self) -> ConfigErrorView {
        match self {
            ConfigError::Missing { name } => ConfigErrorView::Missing { name: name@ },
            ConfigError::UnreadableFile { name, path, cause } => ConfigErrorView::UnreadableFile {
                name: name@,
                path: path@,
                cause: cause@,
            },
            ConfigError::EmptyFile { name, path } => ConfigErrorView::EmptyFile {
                name: name@,
                path: path@,
            },
            ConfigError::NotSeconds { name, raw } => ConfigErrorView::NotSeconds {
                name: name@,
                raw: raw@,
            },
            ConfigError::EmptySegment { kind } => ConfigErrorView::EmptySegment { kind: kind@ },
            ConfigError::BadSegment { kind, value } => ConfigErrorView::BadSegment {
                kind: kind@,
                value: value@,
            },
            ConfigError::NotAPair { entry } => ConfigErrorView::NotAPair { entry: entry@ },
            ConfigError::EmptyProjectId { entry } => ConfigErrorView::EmptyProjectId {
                entry: entry@,
            },
            ConfigError::RepeatedAlias { alias } => ConfigErrorView::RepeatedAlias { alias: alias@ },
            ConfigError::NoProject => ConfigErrorView::NoProject,
            ConfigError::NoEnvironment => ConfigErrorView::NoEnvironment,
            ConfigError::StaleBelowTtl { stale_max, cache_ttl } => ConfigErrorView::StaleBelowTtl {
                stale_max: *stale_max,
                cache_ttl: *cache_ttl,
            },
        }
    }
}

/// Why a text is no whole number that fits in 64 bits.
pub open spec fn number_fault(raw: Seq<char>) -> Seq<char> {
    if raw.len() == 0 {
        "cannot parse integer from empty string"@
    } else if exceeds_64_bits(raw) {
        "number too large to fit in target type"@
    } else {
        "invalid digit found in string"@
    }
}

/// A span of whole seconds in words.
pub open spec fn span_text(seconds: u64) -> Seq<char> {
    if seconds == 0 {
        "0ns"@
    } else {
        decimal(seconds as nat) + "s"@
    }
}

fn number_fault_text(raw: &str) -> (r: &'static str)
    ensures
        r@ == number_fault(raw@),
{
    if raw.is_empty() {
        "cannot parse integer from empty string"
    } else if is_too_large(raw) {
        "number too large to fit in target type"
    } else {
        "invalid digit found in string"
    }
}

fn span_in_words(seconds: u64) -> (r: String)
    ensures
        r@ == span_text(seconds),
{
    if seconds == 0 {
        "0ns".to_owned()
    } else {
        decimal_text(seconds).concat("s")
    }
}

/// The words of an error.
pub open spec fn error_text(error: ConfigErrorView) -> Seq<char> {
    match error {
        ConfigErrorView::Missing { name } => name + " (or "@ + name + "_FILE) must be set when "@
            + ENV_ENABLED@ + " is true"@,
        ConfigErrorView::UnreadableFile { name, path, cause } => name + "_FILE points at '"@ + path
            + "', which could not be read: "@ + cause,
        ConfigErrorView::EmptyFile { name, path } => name + "_FILE points at '"@ + path
            + "', which is empty"@,
        ConfigErrorView::NotSeconds { name, raw } => name
            + " must be a whole number of seconds, got '"@ + raw + "': "@ + number_fault(raw),
        ConfigErrorView::EmptySegment { kind } => kind + " must not be empty"@,
        ConfigErrorView::BadSegment { kind, value } => kind + " '"@ + value
            + "' must match [a-z0-9-]+ to satisfy the estate secret_ref convention"@,
        ConfigErrorView::NotAPair { entry } => ENV_PROJECTS@ + " entry '"@ + entry
            + "' must be in the form <alias>=<projectId>"@,
        ConfigErrorView::EmptyProjectId { entry } => ENV_PROJECTS@ + " entry '"@ + entry
            + "' has an empty projectId"@,
        ConfigErrorView::RepeatedAlias { alias } => ENV_PROJECTS@ + " declares alias '"@ + alias
            + "' more than once"@,
        ConfigErrorView::NoProject => ENV_PROJECTS@
            + " must declare at least one <alias>=<projectId> pair"@,
        ConfigErrorView::NoEnvironment => ENV_ENVIRONMENTS@
            + " must declare at least one environment slug"@,
        ConfigErrorView::StaleBelowTtl { stale_max, cache_ttl } => ENV_STALE_MAX@ + " ("@
            + span_text(stale_max) + ") must be >= "@ + ENV_CACHE_TTL@ + " ("@ + span_text(cache_ttl)
            + ")"@,
    }
}

impl ConfigError {
    /// Says in words what is wrong.
    pub fn message(&self) -> (r: String)
        ensures
            r@ == error_text(self@),
    {
        match self {
            ConfigError::Missing { name } => {
                let mut r = name.clone();
                r.append(" (or ");
                r.append(name.as_str());
                r.append("_FILE) must be set when ");
                r.append(ENV_ENABLED);
                r.append(" is true");
                r
            },
            ConfigError::UnreadableFile { name, path, cause } => {
                let mut r = name.clone();
                r.append("_FILE points at '");
                r.append(path.as_str());
                r.append("', which could not be read: ");
                r.append(cause.as_str());
                r
            },
            ConfigError::EmptyFile { name, path } => {
                let mut r = name.clone();
                r.append("_FILE points at '");
                r.append(path.as_str());
                r.append("', which is empty");
                r
            },
            ConfigError::NotSeconds { name, raw } => {
                let mut r = name.clone();
                r.append(" must be a whole number of seconds, got '");
                r.append(raw.as_str());
                r.append("': ");
                r.append(number_fault_text(raw.as_str()));
                r
            },
            ConfigError::EmptySegment { kind } => {
                let mut r = kind.clone();
                r.append(" must not be empty");
                r
            },
            ConfigError::BadSegment { kind, value } => {
                let mut r = kind.clone();
                r.append(" '");
                r.append(value.as_str());
                r.append("' must match [a-z0-9-]+ to satisfy the estate secret_ref convention");
                r
            },
            ConfigError::NotAPair { entry } => {
                let mut r = ENV_PROJECTS.to_owned();
                r.append(" entry '");
                r.append(entry.as_str());
                r.append("' must be in the form <alias>=<projectId>");
                r
            },
            ConfigError::EmptyProjectId { entry } => {
                let mut r = ENV_PROJECTS.to_owned();
                r.append(" entry '");
                r.append(entry.as_str());
                r.append("' has an empty projectId");
                r
            },
            ConfigError::RepeatedAlias { alias } => {
                let mut r = ENV_PROJECTS.to_owned();
                r.append(" declares alias '");
                r.append(alias.as_str());
                r.append("' more than once");
                r
            },
            ConfigError::NoProject => {
                let mut r = ENV_PROJECTS.to_owned();
                r.append(" must declare at least one <alias>=<projectId> pair");
                r
            },
            ConfigError::NoEnvironment => {
                let mut r = ENV_ENVIRONMENTS.to_owned();
                r.append(" must declare at least one environment slug");
                r
            },
            ConfigError::StaleBelowTtl { stale_max, cache_ttl } => {
                let mut r = ENV_STALE_MAX.to_owned();
                r.append(" (");
                r.append(span_in_words(*stale_max).as_str());
                r.append(") must be >= ");
                r.append(ENV_CACHE_TTL);
                r.append(" (");
                r.append(span_in_words(*cache_ttl).as_str());
                r.append(")");
                r
            },
        }
    }
}

/// Whether the provider is switched on by the value of [`ENV_ENABLED`].
pub open spec fn is_on(value: Seq<char>) -> bool {
    let word = trimmed(value);
    ||| equal_but_for_case(word, "1"@)
    ||| equal_but_for_case(word, "true"@)
    ||| equal_but_for_case(word, "yes"@)
    ||| equal_but_for_case(word, "on"@)
}

/// Whether the provider is switched on, by the value of [`ENV_ENABLED`]. Absent
/// or unrecognised means off, so an unmodified environment behaves as if there
/// were no provider.
pub fn enabled(value: Option<&str>) -> (on: bool)
    ensures
        on == (value matches Some(text) && is_on(text@)),
{
    match value {
        None => false,
        Some(text) => {
            let word = trim(text);
            same_but_for_case(word.as_str(), "1") || same_but_for_case(word.as_str(), "true")
                || same_but_for_case(word.as_str(), "yes") || same_but_for_case(
                word.as_str(),
                "on",
            )
        },
    }
}

/// What the environment says of one setting that may stand in a file.
#[derive(Debug)]
pub struct Setting {
    /// The value of the variable itself.
    pub value: Option<String>,
    /// The value of the variable with `_FILE` behind its name.
    pub file: Option<String>,
    /// What the file holds, or why it could not be read. Only looked at where
    /// [`file_to_read`] asks for it.
    pub contents: Result<String, String>,
}

/// The view of a [`Setting`].
pub struct SettingView {
    pub value: Option<Seq<char>>,
    pub file: Option<Seq<char>>,
    pub contents: Result<Seq<char>, Seq<char>>,
}

impl View for Setting {
    type V = SettingView;

    open spec fn view(&self) -> SettingView {
        SettingView {
            value: optional(self.value),
            file: optional(self.file),
            contents: match self.contents {
                Ok(text) => Ok(text@),
                Err(cause) => Err(cause@),
            },
        }
    }
}

/// A text without the white space around it, if it is there and holds anything
/// else.
pub open spec fn stated(text: Option<Seq<char>>) -> Option<Seq<char>> {
    match text {
        Some(text) => if trimmed(text).len() > 0 {
            Some(trimmed(text))
        } else {
            None
        },
        None => None,
    }
}

fn stated_text(text: &Option<String>) -> (r: Option<String>)
    ensures
        optional(r) == stated(optional(*text)),
{
    match text {
        None => None,
        Some(text) => {
            let text = trim(text.as_str());
            if text.as_str().is_empty() {
                None
            } else {
                Some(text)
            }
        },
    }
}

/// The file that has to be read for a setting with these values of its two
/// variables, if there is one.
pub fn file_to_read(value: &Option<String>, file: &Option<String>) -> (r: Option<String>)
    ensures
        optional(r) == (if stated(optional(*value)) is Some {
            None
        } else {
            stated(optional(*file))
        }),
{
    match stated_text(value) {
        Some(_) => None,
        None => stated_text(file),
    }
}

/// The value of a setting, if it is given: the variable itself comes first, then
/// the file.
pub open spec fn setting_value(name: Seq<char>, setting: SettingView) -> Result<
    Option<Seq<char>>,
    ConfigErrorView,
> {
    match (stated(setting.value), stated(setting.file)) {
        (Some(value), _) => Ok(Some(value)),
        (None, None) => Ok(None),
        (None, Some(path)) => match setting.contents {
            Err(cause) => Err(ConfigErrorView::UnreadableFile { name, path, cause }),
            Ok(text) => if trimmed(text).len() > 0 {
                Ok(Some(trimmed(text)))
            } else {
                Err(ConfigErrorView::EmptyFile { name, path })
            },
        },
    }
}

/// Reads a value from `NAME`, falling back to the contents of the file at
/// `NAME_FILE`. The file form is preferred in deployment so the credential
/// arrives as a mounted file rather than an environment variable visible to
/// anything that can read the container's environment.
pub fn env_or_file(name: &str, setting: &Setting) -> (r: Result<Option<String>, ConfigError>)
    ensures
        match r {
            Ok(value) => setting_value(name@, setting@) == Ok::<
                Option<Seq<char>>,
                ConfigErrorView,
            >(optional(value)),
            Err(error) => setting_value(name@, setting@) == Err::<
                Option<Seq<char>>,
                ConfigErrorView,
            >(error@),
        },
{
    match stated_text(&setting.value) {
        Some(value) => Ok(Some(value)),
        None => match stated_text(&setting.file) {
            None => Ok(None),
            Some(path) => match &setting.contents {
                Err(cause) => Err(
                    ConfigError::UnreadableFile {
                        name: name.to_owned(),
                        path,
                        cause: cause.clone(),
                    },
                ),
                Ok(text) => {
                    let text = trim(text.as_str());
                    if text.as_str().is_empty() {
                        Err(ConfigError::EmptyFile { name: name.to_owned(), path })
                    } else {
                        Ok(Some(text))
                    }
                },
            },
        },
    }
}

/// The value of a setting that has to be given.
pub open spec fn required(name: Seq<char>, setting: SettingView) -> Result<
    Seq<char>,
    ConfigErrorView,
> {
    match setting_value(name, setting) {
        Err(error) => Err(error),
        Ok(None) => Err(ConfigErrorView::Missing { name }),
        Ok(Some(value)) => Ok(value),
    }
}

/// Reads a value that has to be given.
pub fn require(name: &str, setting: &Setting) -> (r: Result<String, ConfigError>)
    ensures
        match r {
            Ok(value) => required(name@, setting@) == Ok::<Seq<char>, ConfigErrorView>(value@),
            Err(error) => required(name@, setting@) == Err::<Seq<char>, ConfigErrorView>(error@),
        },
{
    match env_or_file(name, setting) {
        Err(error) => Err(error),
        Ok(None) => Err(ConfigError::Missing { name: name.to_owned() }),
        Ok(Some(value)) => Ok(value),
    }
}

/// A number of seconds, if one is given.
pub open spec fn seconds(name: Seq<char>, raw: Option<Seq<char>>) -> Result<
    Option<u64>,
    ConfigErrorView,
> {
    match stated(raw) {
        None => Ok(None),
        Some(raw) => match whole_number(raw) {
            Some(seconds) => Ok(Some(seconds)),
            None => Err(ConfigErrorView::NotSeconds { name, raw }),
        },
    }
}

/// Reads a number of seconds, which may be left out.
pub fn optional_duration(name: &str, raw: &Option<String>) -> (r: Result<Option<u64>, ConfigError>)
    ensures
        match r {
            Ok(value) => seconds(name@, optional(*raw)) == Ok::<Option<u64>, ConfigErrorView>(value),
            Err(error) => seconds(name@, optional(*raw)) == Err::<Option<u64>, ConfigErrorView>(
                error@,
            ),
        },
{
    match stated_text(raw) {
        None => Ok(None),
        Some(raw) => match parse_whole_number(raw.as_str()) {
            Some(seconds) => Ok(Some(seconds)),
            None => Err(ConfigError::NotSeconds { name: name.to_owned(), raw }),
        },
    }
}

/// A number of seconds, or its default.
pub open spec fn seconds_or(name: Seq<char>, raw: Option<Seq<char>>, default_seconds: u64) -> Result<
    u64,
    ConfigErrorView,
> {
    match seconds(name, raw) {
        Err(error) => Err(error),
        Ok(Some(seconds)) => Ok(seconds),
        Ok(None) => Ok(default_seconds),
    }
}

/// Reads a number of seconds, which has a default.
pub fn duration_from_env(name: &str, raw: &Option<String>, default_seconds: u64) -> (r: Result<
    u64,
    ConfigError,
>)
    ensures
        match r {
            Ok(value) => seconds_or(name@, optional(*raw), default_seconds) == Ok::<
                u64,
                ConfigErrorView,
            >(value),
            Err(error) => seconds_or(name@, optional(*raw), default_seconds) == Err::<
                u64,
                ConfigErrorView,
            >(error@),
        },
{
    match optional_duration(name, raw) {
        Err(error) => Err(error),
        Ok(Some(seconds)) => Ok(seconds),
        Ok(None) => Ok(default_seconds),
    }
}

/// What is wrong with a project alias or an environment, if anything.
pub open spec fn segment_fault(kind: Seq<char>, value: Seq<char>) -> Option<ConfigErrorView> {
    if value.len() == 0 {
        Some(ConfigErrorView::EmptySegment { kind })
    } else if !is_segment(value) {
        Some(ConfigErrorView::BadSegment { kind, value })
    } else {
        None
    }
}

/// Aliases and environment names appear inside interpolation tokens and are
/// matched against the declared `secret_ref` convention
/// (`^(infisical|woodpecker)://[a-z0-9-]+/[a-z0-9-]+/[A-Za-z0-9_]+$`).
/// Enforcing the charset here keeps every token valid against that convention.
pub fn validate_ref_segment(kind: &str, value: &str) -> (r: Result<(), ConfigError>)
    ensures
        match r {
            Ok(_) => segment_fault(kind@, value@) is None,
            Err(error) => segment_fault(kind@, value@) == Some(error@),
        },
{
    if value.is_empty() {
        return Err(ConfigError::EmptySegment { kind: kind.to_owned() });
    }
    let chars = chars_of(value);
    let mut i: usize = 0;
    while i < chars.len()
        invariant
            chars@ == value@,
            value@.len() > 0,
            i <= chars@.len(),
            forall|j: int| 0 <= j < i ==> is_segment_char(#[trigger] value@[j]),
        decreases chars.len() - i,
    {
        let c = chars[i];
        let fits = ('a' <= c && c <= 'z') || ('0' <= c && c <= '9') || c == '-';
        if !fits {
            assert(!is_segment_char(value@[i as int]));
            return Err(ConfigError::BadSegment { kind: kind.to_owned(), value: value.to_owned() });
        }
        i += 1;
    }
    Ok(())
}

/// The alias and the project id of an entry without white space around it.
pub open spec fn project_of(entry: Seq<char>) -> Result<(Seq<char>, Seq<char>), ConfigErrorView> {
    match split_once(entry, "="@) {
        None => Err(ConfigErrorView::NotAPair { entry }),
        Some((alias, project_id)) => match segment_fault("project alias"@, trimmed(alias)) {
            Some(error) => Err(error),
            None => if trimmed(project_id).len() == 0 {
                Err(ConfigErrorView::EmptyProjectId { entry })
            } else {
                Ok((trimmed(alias), trimmed(project_id)))
            },
        },
    }
}

/// Whether one of `projects` has the alias.
pub open spec fn has_alias(projects: Seq<(Seq<char>, Seq<char>)>, alias: Seq<char>) -> bool {
    exists|i: int| 0 <= i < projects.len() && (#[trigger] projects[i]).0 == alias
}

/// The projects in `entries`, behind those that were found before them.
pub open spec fn projects_in(
    entries: Seq<Seq<char>>,
    before: Seq<(Seq<char>, Seq<char>)>,
) -> Result<Seq<(Seq<char>, Seq<char>)>, ConfigErrorView>
    decreases entries.len(),
{
    if entries.len() == 0 {
        if before.len() == 0 {
            Err(ConfigErrorView::NoProject)
        } else {
            Ok(before)
        }
    } else if trimmed(entries[0]).len() == 0 {
        projects_in(entries.drop_first(), before)
    } else {
        match project_of(trimmed(entries[0])) {
            Err(error) => Err(error),
            Ok(project) => if has_alias(before, project.0) {
                Err(ConfigErrorView::RepeatedAlias { alias: project.0 })
            } else {
                projects_in(entries.drop_first(), before.push(project))
            },
        }
    }
}

/// The projects that a comma separated list of `<alias>=<projectId>` declares.
pub open spec fn declared_projects(raw: Seq<char>) -> Result<
    Seq<(Seq<char>, Seq<char>)>,
    ConfigErrorView,
> {
    projects_in(split(raw, ","@), Seq::empty())
}

fn parse_project(entry: &str) -> (r: Result<(String, String), ConfigError>)
    ensures
        match r {
            Ok(project) => project_of(entry@) == Ok::<(Seq<char>, Seq<char>), ConfigErrorView>(
                (project.0@, project.1@),
            ),
            Err(error) => project_of(entry@) == Err::<(Seq<char>, Seq<char>), ConfigErrorView>(
                error@,
            ),
        },
{
    proof {
        reveal_strlit("=");
    }
    match cut(entry, "=") {
        None => Err(ConfigError::NotAPair { entry: entry.to_owned() }),
        Some((alias, project_id)) => {
            let alias = trim(alias.as_str());
            let project_id = trim(project_id.as_str());
            match validate_ref_segment("project alias", alias.as_str()) {
                Err(error) => Err(error),
                Ok(_) => if project_id.as_str().is_empty() {
                    Err(ConfigError::EmptyProjectId { entry: entry.to_owned() })
                } else {
                    Ok((alias, project_id))
                },
            }
        },
    }
}

fn knows_alias(projects: &Vec<(String, String)>, alias: &String) -> (yes: bool)
    ensures
        yes == has_alias(pair_views(projects@), alias@),
{
    let ghost known = pair_views(projects@);
    let mut i: usize = 0;
    while i < projects.len()
        invariant
            i <= projects@.len(),
            known == pair_views(projects@),
            forall|j: int| 0 <= j < i ==> (#[trigger] known[j]).0 != alias@,
        decreases projects.len() - i,
    {
        assert(known[i as int].0 == projects@[i as int].0@);
        if projects[i].0 == *alias {
            return true;
        }
        i += 1;
    }
    false
}

/// Reads a comma separated list of `<alias>=<projectId>`.
pub fn parse_projects(raw: &str) -> (r: Result<Vec<(String, String)>, ConfigError>)
    ensures
        match r {
            Ok(projects) => declared_projects(raw@) == Ok::<
                Seq<(Seq<char>, Seq<char>)>,
                ConfigErrorView,
            >(pair_views(projects@)),
            Err(error) => declared_projects(raw@) == Err::<
                Seq<(Seq<char>, Seq<char>)>,
                ConfigErrorView,
            >(error@),
        },
{
    proof {
        reveal_strlit(",");
    }
    let entries = pieces(raw, ",");
    let ghost all = views(entries@);
    let mut projects: Vec<(String, String)> = Vec::new();
    let mut i: usize = 0;
    assert(all.skip(0) =~= all);
    assert(pair_views(projects@) =~= Seq::empty());
    while i < entries.len()
        invariant
            i <= entries@.len(),
            all == views(entries@),
            declared_projects(raw@) == projects_in(all.skip(i as int), pair_views(projects@)),
        decreases entries.len() - i,
    {
        let ghost rest = all.skip(i as int);
        assert(rest[0] == entries@[i as int]@);
        assert(rest.drop_first() =~= all.skip(i + 1));
        let entry = trim(entries[i].as_str());
        if !entry.as_str().is_empty() {
            match parse_project(entry.as_str()) {
                Err(error) => {
                    return Err(error);
                },
                Ok((alias, project_id)) => {
                    if knows_alias(&projects, &alias) {
                        return Err(ConfigError::RepeatedAlias { alias });
                    }
                    let ghost before = pair_views(projects@);
                    let ghost project = (alias@, project_id@);
                    projects.push((alias, project_id));
                    assert(pair_views(projects@) =~= before.push(project));
                },
            }
        }
        i += 1;
    }
    assert(all.skip(i as int).len() == 0);
    if projects.len() == 0 {
        return Err(ConfigError::NoProject);
    }
    Ok(projects)
}

/// The environments in `entries`, behind those that were found before them.
pub open spec fn environments_in(entries: Seq<Seq<char>>, before: Seq<Seq<char>>) -> Result<
    Seq<Seq<char>>,
    ConfigErrorView,
>
    decreases entries.len(),
{
    if entries.len() == 0 {
        if before.len() == 0 {
            Err(ConfigErrorView::NoEnvironment)
        } else {
            Ok(before)
        }
    } else {
        let entry = trimmed(entries[0]);
        if entry.len() == 0 {
            environments_in(entries.drop_first(), before)
        } else {
            match segment_fault("environment"@, entry) {
                Some(error) => Err(error),
                None => if before.contains(entry) {
                    environments_in(entries.drop_first(), before)
                } else {
                    environments_in(entries.drop_first(), before.push(entry))
                },
            }
        }
    }
}

/// The environments that a comma separated list declares, each once.
pub open spec fn declared_environments(raw: Seq<char>) -> Result<Seq<Seq<char>>, ConfigErrorView> {
    environments_in(split(raw, ","@), Seq::empty())
}

fn is_listed(texts: &Vec<String>, text: &String) -> (yes: bool)
    ensures
        yes == views(texts@).contains(text@),
{
    let ghost all = views(texts@);
    let mut i: usize = 0;
    while i < texts.len()
        invariant
            i <= texts@.len(),
            all == views(texts@),
            forall|j: int| 0 <= j < i ==> #[trigger] all[j] != text@,
        decreases texts.len() - i,
    {
        assert(all[i as int] == texts@[i as int]@);
        if texts[i] == *text {
            return true;
        }
        i += 1;
    }
    false
}

/// Reads a comma separated list of environments. One that is named again is not
/// taken again.
pub fn parse_environments(raw: &str) -> (r: Result<Vec<String>, ConfigError>)
    ensures
        match r {
            Ok(environments) => declared_environments(raw@) == Ok::<
                Seq<Seq<char>>,
                ConfigErrorView,
            >(views(environments@)),
            Err(error) => declared_environments(raw@) == Err::<Seq<Seq<char>>, ConfigErrorView>(
                error@,
            ),
        },
{
    proof {
        reveal_strlit(",");
    }
    let entries = pieces(raw, ",");
    let ghost all = views(entries@);
    let mut environments: Vec<String> = Vec::new();
    let mut i: usize = 0;
    assert(all.skip(0) =~= all);
    assert(views(environments@) =~= Seq::empty());
    while i < entries.len()
        invariant
            i <= entries@.len(),
            all == views(entries@),
            declared_environments(raw@) == environments_in(
                all.skip(i as int),
                views(environments@),
            ),
        decreases entries.len() - i,
    {
        let ghost rest = all.skip(i as int);
        assert(rest[0] == entries@[i as int]@);
        assert(rest.drop_first() =~= all.skip(i + 1));
        let entry = trim(entries[i].as_str());
        if !entry.as_str().is_empty() {
            match validate_ref_segment("environment", entry.as_str()) {
                Err(error) => {
                    return Err(error);
                },
                Ok(_) => {},
            }
            if !is_listed(&environments, &entry) {
                let ghost before = views(environments@);
                let ghost text = entry@;
                environments.push(entry);
                assert(views(environments@) =~= before.push(text));
            }
        }
        i += 1;
    }
    assert(all.skip(i as int).len() == 0);
    if environments.len() == 0 {
        return Err(ConfigError::NoEnvironment);
    }
    Ok(environments)
}

/// The scopes of one project, one for each environment.
pub open spec fn scopes_of_project(
    project: (Seq<char>, Seq<char>),
    environments: Seq<Seq<char>>,
) -> Seq<ScopeView> {
    environments.map_values(
        |environment: Seq<char>|
            ScopeView { alias: project.0, project_id: project.1, environment },
    )
}

/// The scopes of all projects, one for each project and environment.
pub open spec fn scopes_of(
    projects: Seq<(Seq<char>, Seq<char>)>,
    environments: Seq<Seq<char>>,
) -> Seq<ScopeView>
    decreases projects.len(),
{
    if projects.len() == 0 {
        Seq::empty()
    } else {
        scopes_of(projects.drop_last(), environments) + scopes_of_project(
            projects.last(),
            environments,
        )
    }
}

fn combine(projects: &Vec<(String, String)>, environments: &Vec<String>) -> (scopes: Vec<Scope>)
    ensures
        scope_views(scopes@) == scopes_of(pair_views(projects@), views(environments@)),
{
    let ghost pairs = pair_views(projects@);
    let ghost names = views(environments@);
    let mut scopes: Vec<Scope> = Vec::new();
    let mut i: usize = 0;
    assert(scope_views(scopes@) =~= Seq::empty());
    while i < projects.len()
        invariant
            i <= projects@.len(),
            pairs == pair_views(projects@),
            names == views(environments@),
            scope_views(scopes@) == scopes_of(pairs.take(i as int), names),
        decreases projects.len() - i,
    {
        let ghost before = scope_views(scopes@);
        let mut j: usize = 0;
        assert(before + scopes_of_project(pairs[i as int], names).take(0) =~= before);
        while j < environments.len()
            invariant
                i < projects@.len(),
                j <= environments@.len(),
                pairs == pair_views(projects@),
                names == views(environments@),
                scope_views(scopes@) == before + scopes_of_project(pairs[i as int], names).take(
                    j as int,
                ),
            decreases environments.len() - j,
        {
            let ghost middle = scope_views(scopes@);
            let ghost of_project = scopes_of_project(pairs[i as int], names);
            let scope = Scope {
                alias: projects[i].0.clone(),
                project_id: projects[i].1.clone(),
                environment: environments[j].clone(),
            };
            let ghost shown = scope@;
            scopes.push(scope);
            assert(shown == of_project[j as int]);
            assert(scope_views(scopes@) =~= middle.push(shown));
            assert(before + of_project.take(j + 1) =~= middle.push(shown));
            j += 1;
        }
        proof {
            let of_project = scopes_of_project(pairs[i as int], names);
            assert(of_project.take(j as int) =~= of_project);
            assert(pairs.take(i + 1).drop_last() =~= pairs.take(i as int));
        }
        i += 1;
    }
    assert(pairs.take(i as int) =~= pairs);
    scopes
}

/// What the process environment says of the provider.
#[derive(Debug)]
pub struct Environment {
    pub url: Setting,
    pub client_id: Setting,
    pub client_secret: Setting,
    pub projects: Setting,
    pub environments: Option<String>,
    pub secret_path: Option<String>,
    pub cache_ttl: Option<String>,
    pub stale_max: Option<String>,
    pub stale_warn: Option<String>,
    pub timeout: Option<String>,
    pub cache_file: Option<String>,
}

/// A text as it is, if it is there and holds more than white space.
pub open spec fn filled(text: Option<Seq<char>>) -> Option<Seq<char>> {
    match text {
        Some(text) => if trimmed(text).len() > 0 {
            Some(text)
        } else {
            None
        },
        None => None,
    }
}

/// A text as it is, or its default.
pub open spec fn filled_or(text: Option<Seq<char>>, default_text: Seq<char>) -> Seq<char> {
    match filled(text) {
        Some(text) => text,
        None => default_text,
    }
}

fn filled_text(text: &Option<String>) -> (r: Option<String>)
    ensures
        optional(r) == filled(optional(*text)),
{
    match text {
        None => None,
        Some(text) => if trim(text.as_str()).as_str().is_empty() {
            None
        } else {
            Some(text.clone())
        },
    }
}

fn filled_text_or(text: &Option<String>, default_text: &str) -> (r: String)
    ensures
        r@ == filled_or(optional(*text), default_text@),
{
    match filled_text(text) {
        Some(text) => text,
        None => default_text.to_owned(),
    }
}

/// The first error among the settings, in the order in which they are read.
pub open spec fn first_fault(environment: Environment) -> Option<ConfigErrorView> {
    match required(ENV_URL@, environment.url@) {
        Err(error) => Some(error),
        Ok(_) => match required(ENV_CLIENT_ID@, environment.client_id@) {
            Err(error) => Some(error),
            Ok(_) => match required(ENV_CLIENT_SECRET@, environment.client_secret@) {
                Err(error) => Some(error),
                Ok(_) => match required(ENV_PROJECTS@, environment.projects@) {
                    Err(error) => Some(error),
                    Ok(projects) => match declared_projects(projects) {
                        Err(error) => Some(error),
                        Ok(_) => fault_in_options(environment),
                    },
                },
            },
        },
    }
}

/// The first error among the settings that may be left out, in the order in
/// which they are read.
pub open spec fn fault_in_options(environment: Environment) -> Option<ConfigErrorView> {
    let cache_ttl = seconds_or(
        ENV_CACHE_TTL@,
        optional(environment.cache_ttl),
        DEFAULT_CACHE_TTL_SECONDS,
    );
    let stale_max = seconds(ENV_STALE_MAX@, optional(environment.stale_max));
    let stale_warn = seconds_or(
        ENV_STALE_WARN@,
        optional(environment.stale_warn),
        DEFAULT_STALE_WARN_SECONDS,
    );
    let timeout = seconds_or(
        ENV_TIMEOUT@,
        optional(environment.timeout),
        DEFAULT_TIMEOUT_SECONDS,
    );
    match declared_environments(
        filled_or(optional(environment.environments), DEFAULT_ENVIRONMENTS@),
    ) {
        Err(error) => Some(error),
        Ok(_) => if cache_ttl is Err {
            Some(cache_ttl->Err_0)
        } else if stale_max is Err {
            Some(stale_max->Err_0)
        } else if stale_warn is Err {
            Some(stale_warn->Err_0)
        } else if timeout is Err {
            Some(timeout->Err_0)
        } else {
            match stale_max->Ok_0 {
                Some(max) => if max < cache_ttl->Ok_0 {
                    Some(
                        ConfigErrorView::StaleBelowTtl {
                            stale_max: max,
                            cache_ttl: cache_ttl->Ok_0,
                        },
                    )
                } else {
                    None
                },
                None => None,
            }
        },
    }
}

/// The configuration that faultless settings give.
pub open spec fn configured(environment: Environment) -> ConfigView {
    ConfigView {
        url: without_trailing(required(ENV_URL@, environment.url@)->Ok_0, '/'),
        client_id: required(ENV_CLIENT_ID@, environment.client_id@)->Ok_0,
        client_secret: required(ENV_CLIENT_SECRET@, environment.client_secret@)->Ok_0,
        scopes: scopes_of(
            declared_projects(required(ENV_PROJECTS@, environment.projects@)->Ok_0)->Ok_0,
            declared_environments(
                filled_or(optional(environment.environments), DEFAULT_ENVIRONMENTS@),
            )->Ok_0,
        ),
        secret_path: filled_or(optional(environment.secret_path), DEFAULT_SECRET_PATH@),
        cache_ttl: seconds_or(
            ENV_CACHE_TTL@,
            optional(environment.cache_ttl),
            DEFAULT_CACHE_TTL_SECONDS,
        )->Ok_0,
        stale_max: seconds(ENV_STALE_MAX@, optional(environment.stale_max))->Ok_0,
        stale_warn: seconds_or(
            ENV_STALE_WARN@,
            optional(environment.stale_warn),
            DEFAULT_STALE_WARN_SECONDS,
        )->Ok_0,
        timeout: seconds_or(
            ENV_TIMEOUT@,
            optional(environment.timeout),
            DEFAULT_TIMEOUT_SECONDS,
        )->Ok_0,
        cache_file: filled(optional(environment.cache_file)),
    }
}

impl InfisicalConfig {
    /// Reads the configuration from the process environment. What is wrong first
    /// is reported.
    pub fn from_env(environment: &Environment) -> (r: Result<InfisicalConfig, ConfigError>)
        ensures
            match r {
                Ok(config) => first_fault(*environment) is None && config@ == configured(
                    *environment,
                ),
                Err(error) => first_fault(*environment) == Some(error@),
            },
    {
        let url = match require(ENV_URL, &environment.url) {
            Ok(url) => strip_trailing(url.as_str(), '/'),
            Err(error) => {
                return Err(error);
            },
        };
        let client_id = match require(ENV_CLIENT_ID, &environment.client_id) {
            Ok(client_id) => client_id,
            Err(error) => {
                return Err(error);
            },
        };
        let client_secret = match require(ENV_CLIENT_SECRET, &environment.client_secret) {
            Ok(client_secret) => client_secret,
            Err(error) => {
                return Err(error);
            },
        };
        let projects = match require(ENV_PROJECTS, &environment.projects) {
            Ok(raw) => match parse_projects(raw.as_str()) {
                Ok(projects) => projects,
                Err(error) => {
                    return Err(error);
                },
            },
            Err(error) => {
                return Err(error);
            },
        };
        let environments_raw = filled_text_or(&environment.environments, DEFAULT_ENVIRONMENTS);
        let environments = match parse_environments(environments_raw.as_str()) {
            Ok(environments) => environments,
            Err(error) => {
                return Err(error);
            },
        };
        let cache_ttl: u64 = match duration_from_env(
            ENV_CACHE_TTL,
            &environment.cache_ttl,
            DEFAULT_CACHE_TTL_SECONDS,
        ) {
            Ok(cache_ttl) => cache_ttl,
            Err(error) => {
                return Err(error);
            },
        };
        let stale_max: Option<u64> = match optional_duration(
            ENV_STALE_MAX,
            &environment.stale_max,
        ) {
            Ok(stale_max) => stale_max,
            Err(error) => {
                return Err(error);
            },
        };
        let stale_warn: u64 = match duration_from_env(
            ENV_STALE_WARN,
            &environment.stale_warn,
            DEFAULT_STALE_WARN_SECONDS,
        ) {
            Ok(stale_warn) => stale_warn,
            Err(error) => {
                return Err(error);
            },
        };
        let timeout: u64 = match duration_from_env(
            ENV_TIMEOUT,
            &environment.timeout,
            DEFAULT_TIMEOUT_SECONDS,
        ) {
            Ok(timeout) => timeout,
            Err(error) => {
                return Err(error);
            },
        };
        if let Some(max) = stale_max {
            if max < cache_ttl {
                return Err(ConfigError::StaleBelowTtl { stale_max: max, cache_ttl });
            }
        }
        Ok(
            InfisicalConfig {
                url,
                client_id,
                client_secret,
                scopes: combine(&projects, &environments),
                secret_path: filled_text_or(&environment.secret_path, DEFAULT_SECRET_PATH),
                cache_ttl,
                stale_max,
                stale_warn,
                timeout,
                cache_file: filled_text(&environment.cache_file),
            },
        )
    }
}

} // verus!
