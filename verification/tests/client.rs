//! The API client.

use infisical::client::{
    body_read, collect_secrets, is_success, token_lifetime, ClientError, GetReply, InfisicalClient,
    LoginReply, LoginResponse, Pending, RawImport, RawSecret, RawSecretsResponse,
};
use infisical::config::{InfisicalConfig, Scope};

fn config() -> InfisicalConfig {
    InfisicalConfig {
        url: "http://host".to_string(),
        client_id: "id".to_string(),
        client_secret: "secret".to_string(),
        scopes: vec![scope()],
        secret_path: "/a b".to_string(),
        cache_ttl: 300,
        stale_max: None,
        stale_warn: 3600,
        timeout: 15,
        cache_file: None,
    }
}

fn scope() -> Scope {
    Scope {
        alias: "apps".to_string(),
        project_id: "p/1&x=\u{e9}".to_string(),
        environment: "prod".to_string(),
    }
}

fn granted(token: &str, expires_in: u64) -> LoginReply {
    LoginReply::Answered {
        status: 200,
        status_text: "200 OK".to_string(),
        body: Ok(LoginResponse { access_token: token.to_string(), expires_in }),
    }
}

fn answered(status: u16, text: &str) -> GetReply {
    GetReply::Answered { status, status_text: text.to_string() }
}

#[test]
fn urls_are_encoded() {
    let client = InfisicalClient::new(config());
    assert_eq!(client.login_url(), "http://host/api/v1/auth/universal-auth/login");
    assert_eq!(
        client.scope_url(&scope()),
        "http://host/api/v3/secrets/raw?workspaceId=p%2F1%26x%3D%C3%A9&environment=prod\
         &secretPath=%2Fa%20b&include_imports=true&expandSecretReferences=true"
    );
    assert_eq!(client.config().url, "http://host");
}

#[test]
fn addresses_of_other_scopes_differ() {
    let client = InfisicalClient::new(config());
    let mut other = scope();
    other.project_id = "p%2F1%26x%3D%C3%A9".to_string();
    assert_ne!(client.scope_url(&scope()), client.scope_url(&other));
}

#[test]
fn margin_is_taken_off_the_lifetime() {
    assert_eq!(token_lifetime(2592000), 2591940);
    assert_eq!(token_lifetime(60), 0);
    assert_eq!(token_lifetime(59), 59);
    assert_eq!(token_lifetime(0), 0);
}

#[test]
fn success_is_a_status_in_the_two_hundreds() {
    assert!(is_success(200) && is_success(299));
    assert!(!is_success(199) && !is_success(300) && !is_success(401));
}

#[test]
fn fetching_begins_with_a_login() {
    let mut client = InfisicalClient::new(config());
    assert!(matches!(client.fetch_scope(0), Pending::Login { again: false }));
    let pending = client.login_answered(false, granted("t1", 100), 5).expect("pending");
    assert!(matches!(pending, Pending::Get { again: false, .. }));
    // 5 ns and 40 s later the token is over.
    assert_eq!(client.cached_token(40_000_000_004), Some("t1".to_string()));
    assert_eq!(client.cached_token(40_000_000_005), None);
    match client.fetch_scope(7) {
        Pending::Get { token, again } => {
            assert_eq!(token, "t1");
            assert!(!again);
        }
        _ => panic!("the token is still good"),
    }
}

#[test]
fn rejected_token_leads_to_one_more_login() {
    let mut client = InfisicalClient::new(config());
    client.login_answered(false, granted("t1", 1000), 0).expect("pending");
    let pending = client
        .secrets_answered(&scope(), false, answered(401, "401 Unauthorized"))
        .expect("pending");
    assert!(matches!(pending, Pending::Login { again: true }));
    assert_eq!(client.cached_token(1), None);
    let pending = client.login_answered(true, granted("t2", 1000), 1).expect("pending");
    match pending {
        Pending::Get { token, again } => {
            assert_eq!(token, "t2");
            assert!(again);
        }
        _ => panic!("the new token is to be used"),
    }
    let error = client
        .secrets_answered(&scope(), true, answered(401, "401 Unauthorized"))
        .unwrap_err();
    assert_eq!(
        error.message(),
        "Infisical returned status 401 Unauthorized for scope apps/prod"
    );
    assert_eq!(client.cached_token(2), Some("t2".to_string()));
}

#[test]
fn accepted_request_leads_to_its_body() {
    let mut client = InfisicalClient::new(config());
    let pending = client.secrets_answered(&scope(), false, answered(200, "200 OK"));
    assert!(matches!(pending, Ok(Pending::ReadBody)));
}

#[test]
fn every_failure_has_its_words() {
    let mut client = InfisicalClient::new(config());
    let error = client
        .login_answered(false, LoginReply::Unreachable { cause: "down".to_string() }, 0)
        .unwrap_err();
    assert!(matches!(error, ClientError::LoginUnreachable { .. }));
    assert_eq!(error.message(), "failed to reach Infisical universal-auth login: down");

    let refused = LoginReply::Answered {
        status: 403,
        status_text: "403 Forbidden".to_string(),
        body: Err("echo of the credentials".to_string()),
    };
    let error = client.login_answered(false, refused, 0).unwrap_err();
    assert_eq!(
        error.message(),
        "Infisical universal-auth login failed with status 403 Forbidden"
    );

    let garbled = LoginReply::Answered {
        status: 200,
        status_text: "200 OK".to_string(),
        body: Err("eof".to_string()),
    };
    let error = client.login_answered(false, garbled, 0).unwrap_err();
    assert_eq!(
        error.message(),
        "failed to parse Infisical universal-auth login response: eof"
    );
    assert_eq!(client.cached_token(0), None);

    let error = client
        .secrets_answered(&scope(), false, GetReply::Unreachable { cause: "down".to_string() })
        .unwrap_err();
    assert_eq!(error.message(), "failed to reach Infisical for scope apps/prod: down");

    let error = client
        .secrets_answered(&scope(), false, answered(500, "500 Internal Server Error"))
        .unwrap_err();
    assert_eq!(
        error.message(),
        "Infisical returned status 500 Internal Server Error for scope apps/prod"
    );

    let error = body_read(&scope(), Err("eof".to_string())).unwrap_err();
    assert_eq!(error.message(), "failed to parse Infisical response for scope apps/prod: eof");
}

fn secret(key: &str, value: Option<&str>, hidden: bool) -> RawSecret {
    RawSecret {
        secret_key: key.to_string(),
        secret_value: value.map(|value| value.to_string()),
        secret_value_hidden: hidden,
    }
}

#[test]
fn readable_secrets_are_gathered_under_their_tokens() {
    let body = RawSecretsResponse {
        secrets: vec![
            secret("A", Some("one"), false),
            secret("EMPTY", Some(""), false),
            secret("HIDDEN", Some("<hidden>"), true),
            secret("NONE", None, false),
            secret("B", Some("own"), false),
        ],
        imports: vec![
            RawImport { secrets: vec![secret("C", Some("three"), false)] },
            RawImport { secrets: vec![secret("B", Some("imported"), false), secret("H2", None, true)] },
        ],
    };
    let fetched = collect_secrets(&scope(), &body);
    assert_eq!(fetched.secrets.len(), 4);
    let value = |name: &str| fetched.secrets.get(name).map(|value| value.as_str());
    assert_eq!(value("infisical://apps/prod/A"), Some("one"));
    assert_eq!(value("infisical://apps/prod/EMPTY"), Some(""));
    assert_eq!(value("infisical://apps/prod/B"), Some("imported"));
    assert_eq!(value("infisical://apps/prod/C"), Some("three"));
    assert_eq!(value("infisical://apps/prod/HIDDEN"), None);
    assert_eq!(fetched.hidden, vec!["HIDDEN".to_string(), "H2".to_string()]);
    let read = body_read(&scope(), Ok(body)).expect("fetched");
    assert_eq!(read.secrets.len(), 4);
}
