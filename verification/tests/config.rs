//! The configuration of the provider.

use infisical::config::{
    env_or_file, file_to_read, parse_environments, parse_projects, require, ConfigError,
    Environment, InfisicalConfig, Setting,
};
use infisical::{enabled, token_for, TOKEN_PREFIX};

#[test]
fn token_matches_cadastre_secret_ref_convention() {
    // ^(infisical|woodpecker)://[a-z0-9-]+/[a-z0-9-]+/[A-Za-z0-9_]+$
    assert_eq!(
        token_for("apps", "prod", "HOMELAB_KOMODO_API_KEY"),
        "infisical://apps/prod/HOMELAB_KOMODO_API_KEY"
    );
}

#[test]
fn disabled_provider_is_a_no_op() {
    // With KOMODO_INFISICAL_ENABLED unset, nothing may change.
    assert!(!enabled(None));
}

#[test]
fn tokens_begin_with_the_prefix() {
    assert_eq!(TOKEN_PREFIX, "infisical://");
    assert!(token_for("a", "b", "C").starts_with(TOKEN_PREFIX));
}

#[test]
fn tokens_of_different_secrets_differ() {
    let token = token_for("a", "b", "C");
    assert_ne!(token, token_for("a-b", "b", "C"));
    assert_ne!(token, token_for("a", "b-c", "C"));
    assert_ne!(token, token_for("a", "b", "C_"));
}

#[test]
fn only_four_words_switch_the_provider_on() {
    for word in ["1", "true", "TRUE", " Yes\n", "on", "oN"] {
        assert!(enabled(Some(word)), "{word}");
    }
    for word in ["", "0", "false", "off", "no", "enabled", "11", "truee"] {
        assert!(!enabled(Some(word)), "{word}");
    }
}

fn given(value: &str) -> Setting {
    Setting { value: Some(value.to_string()), file: None, contents: Ok(String::new()) }
}

fn absent() -> Setting {
    Setting { value: None, file: None, contents: Ok(String::new()) }
}

fn in_file(path: &str, contents: Result<&str, &str>) -> Setting {
    Setting {
        value: Some(" ".to_string()),
        file: Some(path.to_string()),
        contents: match contents {
            Ok(text) => Ok(text.to_string()),
            Err(cause) => Err(cause.to_string()),
        },
    }
}

fn environment() -> Environment {
    Environment {
        url: given(" http://infisical:8080// "),
        client_id: given("id"),
        client_secret: in_file(" /run/secret ", Ok(" st.abc \n")),
        projects: given("apps=p1, cicd = p2 ,"),
        environments: None,
        secret_path: None,
        cache_ttl: None,
        stale_max: None,
        stale_warn: None,
        timeout: None,
        cache_file: None,
    }
}

fn fault(environment: &Environment) -> String {
    match InfisicalConfig::from_env(environment) {
        Ok(_) => panic!("must be refused"),
        Err(error) => error.message(),
    }
}

#[test]
fn defaults_fill_what_is_left_out() {
    let config = InfisicalConfig::from_env(&environment()).expect("config");
    assert_eq!(config.url, "http://infisical:8080");
    assert_eq!(config.client_id, "id");
    assert_eq!(config.client_secret, "st.abc");
    assert_eq!(config.scopes.len(), 2);
    assert_eq!(config.scopes[0].alias, "apps");
    assert_eq!(config.scopes[0].project_id, "p1");
    assert_eq!(config.scopes[0].environment, "prod");
    assert_eq!(config.scopes[1].alias, "cicd");
    assert_eq!(config.scopes[1].project_id, "p2");
    assert_eq!(config.secret_path, "/");
    assert_eq!(config.cache_ttl, 300);
    assert_eq!(config.stale_max, None);
    assert_eq!(config.stale_warn, 3600);
    assert_eq!(config.timeout, 15);
    assert_eq!(config.cache_file, None);
}

#[test]
fn given_settings_are_taken() {
    let mut environment = environment();
    environment.environments = Some("prod, dev,prod".to_string());
    environment.secret_path = Some("/app dir".to_string());
    environment.cache_ttl = Some(" 10 ".to_string());
    environment.stale_max = Some("+10".to_string());
    environment.stale_warn = Some("5".to_string());
    environment.timeout = Some("2".to_string());
    environment.cache_file = Some("/var/lib/cache.json".to_string());
    let config = InfisicalConfig::from_env(&environment).expect("config");
    let scopes: Vec<String> = config.scopes.iter().map(|scope| scope.name()).collect();
    assert_eq!(scopes, vec!["apps/prod", "apps/dev", "cicd/prod", "cicd/dev"]);
    assert_eq!(config.secret_path, "/app dir");
    assert_eq!(config.cache_ttl, 10);
    assert_eq!(config.stale_max, Some(10));
    assert_eq!(config.stale_warn, 5);
    assert_eq!(config.timeout, 2);
    assert_eq!(config.cache_file, Some("/var/lib/cache.json".to_string()));
}

#[test]
fn blank_settings_count_as_left_out() {
    let mut environment = environment();
    environment.environments = Some(" ".to_string());
    environment.secret_path = Some("\t".to_string());
    environment.cache_ttl = Some("".to_string());
    environment.stale_max = Some(" ".to_string());
    environment.cache_file = Some(" ".to_string());
    let config = InfisicalConfig::from_env(&environment).expect("config");
    assert_eq!(config.scopes[0].environment, "prod");
    assert_eq!(config.secret_path, "/");
    assert_eq!(config.cache_ttl, 300);
    assert_eq!(config.stale_max, None);
    assert_eq!(config.cache_file, None);
}

#[test]
fn missing_setting_is_named() {
    let mut environment = environment();
    environment.url = absent();
    environment.client_id = absent();
    assert_eq!(
        fault(&environment),
        "KOMODO_INFISICAL_URL (or KOMODO_INFISICAL_URL_FILE) must be set when \
         KOMODO_INFISICAL_ENABLED is true"
    );
}

#[test]
fn file_of_a_setting_is_read_only_if_needed() {
    let none: Option<String> = None;
    let blank = Some(" ".to_string());
    let path = Some(" /run/x ".to_string());
    let value = Some("v".to_string());
    assert_eq!(file_to_read(&none, &none), None);
    assert_eq!(file_to_read(&blank, &path), Some("/run/x".to_string()));
    assert_eq!(file_to_read(&value, &path), None);
    assert_eq!(file_to_read(&none, &blank), None);
}

#[test]
fn value_comes_before_file() {
    let setting = Setting {
        value: Some(" v ".to_string()),
        file: Some("/run/x".to_string()),
        contents: Err("not looked at".to_string()),
    };
    assert_eq!(env_or_file("NAME", &setting).expect("value"), Some("v".to_string()));
    assert_eq!(env_or_file("NAME", &absent()).expect("value"), None);
}

#[test]
fn unusable_file_is_an_error() {
    let error = require("NAME", &in_file("/run/x", Err("gone"))).unwrap_err();
    assert!(matches!(error, ConfigError::UnreadableFile { .. }));
    assert_eq!(error.message(), "NAME_FILE points at '/run/x', which could not be read: gone");
    let error = require("NAME", &in_file("/run/x", Ok(" \n"))).unwrap_err();
    assert!(matches!(error, ConfigError::EmptyFile { .. }));
    assert_eq!(error.message(), "NAME_FILE points at '/run/x', which is empty");
}

#[test]
fn spans_of_time_are_whole_seconds() {
    let mut environment = environment();
    environment.timeout = Some("1.5".to_string());
    assert_eq!(
        fault(&environment),
        "KOMODO_INFISICAL_TIMEOUT_SECONDS must be a whole number of seconds, got '1.5': \
         invalid digit found in string"
    );
    environment.stale_max = Some("18446744073709551616".to_string());
    assert_eq!(
        fault(&environment),
        "KOMODO_INFISICAL_STALE_MAX_SECONDS must be a whole number of seconds, got \
         '18446744073709551616': number too large to fit in target type"
    );
    environment.cache_ttl = Some("-1".to_string());
    assert_eq!(
        fault(&environment),
        "KOMODO_INFISICAL_CACHE_TTL_SECONDS must be a whole number of seconds, got '-1': \
         invalid digit found in string"
    );
}

#[test]
fn fault_of_a_span_is_that_of_its_number() {
    for raw in [
        "+",
        "-",
        "1x",
        "+-1",
        "0x10",
        "18446744073709551616",
        "+18446744073709551616",
        "00018446744073709551616",
        "99999999999999999999999",
        "99999999999999999999999x",
        "1844674407370955161x",
        "18446744073709551615x",
        "18446744073709551616x",
        "x99999999999999999999999",
        "\u{661}",
    ] {
        let mut environment = environment();
        environment.timeout = Some(raw.to_string());
        let cause = raw.parse::<u64>().unwrap_err().to_string();
        assert_eq!(
            fault(&environment),
            format!(
                "KOMODO_INFISICAL_TIMEOUT_SECONDS must be a whole number of seconds, got \
                 '{raw}': {cause}"
            )
        );
    }
    let empty = ConfigError::NotSeconds { name: "NAME".to_string(), raw: String::new() };
    assert_eq!(
        empty.message(),
        format!(
            "NAME must be a whole number of seconds, got '': {}",
            "".parse::<u64>().unwrap_err()
        )
    );
}

#[test]
fn limit_below_the_ttl_is_refused() {
    let mut environment = environment();
    environment.stale_max = Some("299".to_string());
    assert_eq!(
        fault(&environment),
        "KOMODO_INFISICAL_STALE_MAX_SECONDS (299s) must be >= KOMODO_INFISICAL_CACHE_TTL_SECONDS \
         (300s)"
    );
    environment.stale_max = Some("0".to_string());
    assert_eq!(
        fault(&environment),
        "KOMODO_INFISICAL_STALE_MAX_SECONDS (0ns) must be >= KOMODO_INFISICAL_CACHE_TTL_SECONDS \
         (300s)"
    );
    environment.stale_max = Some("300".to_string());
    assert!(InfisicalConfig::from_env(&environment).is_ok());
}

#[test]
fn projects_are_pairs_with_their_own_alias() {
    let projects = parse_projects("a=1,,b-2 = x=y").expect("projects");
    assert_eq!(
        projects,
        vec![
            ("a".to_string(), "1".to_string()),
            ("b-2".to_string(), "x=y".to_string()),
        ]
    );
    let words = |raw: &str| parse_projects(raw).unwrap_err().message();
    assert_eq!(
        words("a"),
        "KOMODO_INFISICAL_PROJECTS entry 'a' must be in the form <alias>=<projectId>"
    );
    assert_eq!(words("=1"), "project alias must not be empty");
    assert_eq!(
        words("Apps=1"),
        "project alias 'Apps' must match [a-z0-9-]+ to satisfy the estate secret_ref convention"
    );
    assert_eq!(words("a= "), "KOMODO_INFISICAL_PROJECTS entry 'a=' has an empty projectId");
    assert_eq!(words("a=1,a=2"), "KOMODO_INFISICAL_PROJECTS declares alias 'a' more than once");
    assert_eq!(
        words(" , "),
        "KOMODO_INFISICAL_PROJECTS must declare at least one <alias>=<projectId> pair"
    );
}

#[test]
fn environments_are_taken_once() {
    assert_eq!(
        parse_environments("prod, dev ,prod").expect("environments"),
        vec!["prod".to_string(), "dev".to_string()]
    );
    let words = |raw: &str| parse_environments(raw).unwrap_err().message();
    assert_eq!(
        words("prod,de_v"),
        "environment 'de_v' must match [a-z0-9-]+ to satisfy the estate secret_ref convention"
    );
    assert_eq!(
        words(","),
        "KOMODO_INFISICAL_ENVIRONMENTS must declare at least one environment slug"
    );
}

#[test]
fn configuration_can_be_cloned() {
    let config = InfisicalConfig::from_env(&environment()).expect("config");
    let copy = config.clone();
    assert_eq!(copy.url, config.url);
    assert_eq!(copy.scopes.len(), config.scopes.len());
    assert_eq!(copy.scopes[1].name(), "cicd/prod");
}
