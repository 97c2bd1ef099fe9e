//! Minimal Infisical API client: universal-auth login plus raw secret reads.
//!
//! The client decides which request is due and what its answer means; whoever
//! runs it sends the request and hands the answer back.
use vstd::prelude::*;

use crate::config::{optional, scope_name, ConfigView, InfisicalConfig, Scope, ScopeView};
use crate::string_map::StringMap;
use crate::text::{lemma_equal_up_to, views};
use crate::token::{scope_prefix, token, token_for};
use crate::url::{encode, encoded_text_stays_in_its_parameter, encoding_loses_nothing, url_encoded};

verus! {

/// Refresh the access token this many seconds before it actually expires, so a
/// token that is valid at the moment of the check is not rejected mid-request.
pub const TOKEN_REFRESH_MARGIN: u64 = 60;

/// What a successful login answers.
#[derive(Debug)]
pub struct LoginResponse {
    pub access_token: String,
    /// Seconds for which the token is valid.
    pub expires_in: u64,
}

/// One secret of a scope as the API lists it.
#[derive(Debug)]
pub struct RawSecret {
    pub secret_key: String,
    pub secret_value: Option<String>,
    /// Set when the caller's identity may list the secret but not read its
    /// value. Such entries must be skipped, never surfaced as an empty string.
    pub secret_value_hidden: bool,
}

/// The secrets that a scope imports from another.
#[derive(Debug)]
pub struct RawImport {
    pub secrets: Vec<RawSecret>,
}

/// What the API answers for a scope.
#[derive(Debug)]
pub struct RawSecretsResponse {
    pub secrets: Vec<RawSecret>,
    pub imports: Vec<RawImport>,
}

/// An access token with the time, in nanoseconds of a monotonic clock, from
/// which it is no longer used.
#[derive(Debug)]
pub struct CachedToken {
    pub token: String,
    pub expires_at: u128,
}

/// The view of a [`CachedToken`].
pub struct CachedTokenView {
    pub token: Seq<char>,
    pub expires_at: u128,
}

/// The seconds for which a token that expires in `expires_in` seconds is used.
pub open spec fn lifetime(expires_in: u64) -> u64 {
    if expires_in >= TOKEN_REFRESH_MARGIN {
        (expires_in - TOKEN_REFRESH_MARGIN) as u64
    } else {
        expires_in
    }
}

/// The seconds for which a token is used: up to the margin before it expires, or
/// all of its time if that is shorter than the margin.
pub fn token_lifetime(expires_in: u64) -> (seconds: u64)
    ensures
        seconds == lifetime(expires_in),
{
    if expires_in >= TOKEN_REFRESH_MARGIN {
        expires_in - TOKEN_REFRESH_MARGIN
    } else {
        expires_in
    }
}

/// Whether a status says that a request succeeded.
pub open spec fn succeeded(status: u16) -> bool {
    200 <= status < 300
}

/// Whether a status says that a request succeeded.
pub fn is_success(status: u16) -> (yes: bool)
    ensures
        yes == succeeded(status),
{
    200 <= status && status < 300
}

/// Why a scope could not be fetched.
#[derive(Debug)]
pub enum ClientError {
    LoginUnreachable { cause: String },
    LoginRefused { status: String },
    LoginUnparsable { cause: String },
    ScopeUnreachable { scope: String, cause: String },
    ScopeRefused { scope: String, status: String },
    ScopeUnparsable { scope: String, cause: String },
}

/// The view of a [`ClientError`].
pub enum ClientErrorView {
    LoginUnreachable { cause: Seq<char> },
    LoginRefused { status: Seq<char> },
    LoginUnparsable { cause: Seq<char> },
    ScopeUnreachable { scope: Seq<char>, cause: Seq<char> },
    ScopeRefused { scope: Seq<char>, status: Seq<char> },
    ScopeUnparsable { scope: Seq<char>, cause: Seq<char> },
}

impl View for ClientError {
    type V = ClientErrorView;

    open spec fn view(&self) -> ClientErrorView {
        match self {
            ClientError::LoginUnreachable { cause } => ClientErrorView::LoginUnreachable {
                cause: cause@,
            },
            ClientError::LoginRefused { status } => ClientErrorView::LoginRefused {
                status: status@,
            },
            ClientError::LoginUnparsable { cause } => ClientErrorView::LoginUnparsable {
                cause: cause@,
            },
            ClientError::ScopeUnreachable { scope, cause } => ClientErrorView::ScopeUnreachable {
                scope: scope@,
                cause: cause@,
            },
            ClientError::ScopeRefused { scope, status } => ClientErrorView::ScopeRefused {
                scope: scope@,
                status: status@,
            },
            ClientError::ScopeUnparsable { scope, cause } => ClientErrorView::ScopeUnparsable {
                scope: scope@,
                cause: cause@,
            },
        }
    }
}

/// The words of an error.
pub open spec fn error_text(error: ClientErrorView) -> Seq<char> {
    match error {
        ClientErrorView::LoginUnreachable { cause } => {
            "failed to reach Infisical universal-auth login: "@ + cause
        },
        ClientErrorView::LoginRefused { status } => {
            "Infisical universal-auth login failed with status "@ + status
        },
        ClientErrorView::LoginUnparsable { cause } => {
            "failed to parse Infisical universal-auth login response: "@ + cause
        },
        ClientErrorView::ScopeUnreachable { scope, cause } => {
            "failed to reach Infisical for scope "@ + scope + ": "@ + cause
        },
        ClientErrorView::ScopeRefused { scope, status } => {
            "Infisical returned status "@ + status + " for scope "@ + scope
        },
        ClientErrorView::ScopeUnparsable { scope, cause } => {
            "failed to parse Infisical response for scope "@ + scope + ": "@ + cause
        },
    }
}

impl ClientError {
    /// Says in words what went wrong.
    pub fn message(&self) -> (r: String)
        ensures
            r@ == error_text(self@),
    {
        match self {
            ClientError::LoginUnreachable { cause } => {
                "failed to reach Infisical universal-auth login: ".to_owned().concat(cause.as_str())
            },
            ClientError::LoginRefused { status } => {
                "Infisical universal-auth login failed with status ".to_owned().concat(
                    status.as_str(),
                )
            },
            ClientError::LoginUnparsable { cause } => {
                "failed to parse Infisical universal-auth login response: ".to_owned().concat(
                    cause.as_str(),
                )
            },
            ClientError::ScopeUnreachable { scope, cause } => {
                "failed to reach Infisical for scope ".to_owned().concat(scope.as_str()).concat(
                    ": ",
                ).concat(cause.as_str())
            },
            ClientError::ScopeRefused { scope, status } => {
                "Infisical returned status ".to_owned().concat(status.as_str()).concat(
                    " for scope ",
                ).concat(scope.as_str())
            },
            ClientError::ScopeUnparsable { scope, cause } => {
                "failed to parse Infisical response for scope ".to_owned().concat(
                    scope.as_str(),
                ).concat(": ").concat(cause.as_str())
            },
        }
    }
}

/// The request that is due while a scope is fetched.
#[derive(Debug)]
pub enum Pending {
    /// Log in. `again` if a token has been rejected.
    Login { again: bool },
    /// Ask for the secrets with a token. `again` if one has been rejected.
    Get { token: String, again: bool },
    /// Read the body of the answer.
    ReadBody,
}

/// The view of a [`Pending`].
pub enum PendingView {
    Login { again: bool },
    Get { token: Seq<char>, again: bool },
    ReadBody,
}

impl View for Pending {
    type V = PendingView;

    open spec fn view(&self) -> PendingView {
        match self {
            Pending::Login { again } => PendingView::Login { again: *again },
            Pending::Get { token, again } => PendingView::Get { token: token@, again: *again },
            Pending::ReadBody => PendingView::ReadBody,
        }
    }
}

/// How many requests may follow a pending one, itself included.
pub open spec fn requests_left(pending: PendingView) -> nat {
    match pending {
        PendingView::Login { again: false } => 5,
        PendingView::Get { again: false, .. } => 4,
        PendingView::Login { again: true } => 3,
        PendingView::Get { again: true, .. } => 2,
        PendingView::ReadBody => 1,
    }
}

/// The answer to a login.
#[derive(Debug)]
pub enum LoginReply {
    /// There was no answer.
    Unreachable { cause: String },
    /// There was one. Its body is only looked at if the status says that the
    /// login succeeded: that of a failed one can echo request details, and no
    /// credential material may reach an error.
    Answered { status: u16, status_text: String, body: Result<LoginResponse, String> },
}

/// The answer to a request for secrets, without its body.
#[derive(Debug)]
pub enum GetReply {
    /// There was no answer.
    Unreachable { cause: String },
    /// There was one.
    Answered { status: u16, status_text: String },
}

/// An API client with the access token that it has, if any.
#[derive(Debug)]
pub struct InfisicalClient {
    config: InfisicalConfig,
    token: Option<CachedToken>,
}

/// The view of an [`InfisicalClient`].
pub struct ClientView {
    pub config: ConfigView,
    pub token: Option<CachedTokenView>,
}

impl View for InfisicalClient {
    type V = ClientView;

    closed spec fn view(&self) -> ClientView {
        ClientView {
            config: self.config@,
            token: match self.token {
                Some(cached) => Some(
                    CachedTokenView { token: cached.token@, expires_at: cached.expires_at },
                ),
                None => None,
            },
        }
    }
}

/// The token that may still be used at a time.
pub open spec fn usable_token(client: ClientView, now: u64) -> Option<Seq<char>> {
    match client.token {
        Some(cached) => if cached.expires_at > now {
            Some(cached.token)
        } else {
            None
        },
        None => None,
    }
}

/// The URL of the login.
pub open spec fn login_address(url: Seq<char>) -> Seq<char> {
    url + "/api/v1/auth/universal-auth/login"@
}

/// The URL of the secrets of a scope.
pub open spec fn scope_address(
    url: Seq<char>,
    project_id: Seq<char>,
    environment: Seq<char>,
    secret_path: Seq<char>,
) -> Seq<char> {
    url + "/api/v3/secrets/raw?workspaceId="@ + url_encoded(project_id) + "&environment="@
        + url_encoded(environment) + "&secretPath="@ + url_encoded(secret_path)
        + "&include_imports=true&expandSecretReferences=true"@
}

/// What a login answer leads to: the client after it, and the next request or
/// the error.
pub open spec fn after_login(
    client: ClientView,
    again: bool,
    reply: LoginReply,
    now: u64,
) -> (ClientView, Result<PendingView, ClientErrorView>) {
    match reply {
        LoginReply::Unreachable { cause } => (
            client,
            Err(ClientErrorView::LoginUnreachable { cause: cause@ }),
        ),
        LoginReply::Answered { status, status_text, body } => if !succeeded(status) {
            (client, Err(ClientErrorView::LoginRefused { status: status_text@ }))
        } else {
            match body {
                Err(cause) => (client, Err(ClientErrorView::LoginUnparsable { cause: cause@ })),
                Ok(login) => (
                    ClientView {
                        token: Some(
                            CachedTokenView {
                                token: login.access_token@,
                                expires_at: (now + lifetime(login.expires_in) * 1_000_000_000)
                                    as u128,
                            },
                        ),
                        ..client
                    },
                    Ok(PendingView::Get { token: login.access_token@, again }),
                ),
            }
        },
    }
}

/// What an answer to a request for secrets leads to: the client after it, and the
/// next request or the error.
pub open spec fn after_get(
    client: ClientView,
    scope: ScopeView,
    again: bool,
    reply: GetReply,
) -> (ClientView, Result<PendingView, ClientErrorView>) {
    match reply {
        GetReply::Unreachable { cause } => (
            client,
            Err(ClientErrorView::ScopeUnreachable { scope: scope_name(scope), cause: cause@ }),
        ),
        GetReply::Answered { status, status_text } => if status == 401 && !again {
            (ClientView { token: None, ..client }, Ok(PendingView::Login { again: true }))
        } else if !succeeded(status) {
            (
                client,
                Err(
                    ClientErrorView::ScopeRefused {
                        scope: scope_name(scope),
                        status: status_text@,
                    },
                ),
            )
        } else {
            (client, Ok(PendingView::ReadBody))
        },
    }
}

impl InfisicalClient {
    /// A client without a token.
    pub fn new(config: InfisicalConfig) -> (client: InfisicalClient)
        ensures
            client@ == (ClientView { config: config@, token: None }),
    {
        InfisicalClient { config, token: None }
    }

    /// The configuration of the client.
    pub fn config(&self) -> (config: &InfisicalConfig)
        ensures
            config@ == self@.config,
    {
        &self.config
    }

    /// The token that may still be used at `now`.
    pub fn cached_token(&self, now: u64) -> (r: Option<String>)
        ensures
            optional(r) == usable_token(self@, now),
    {
        match &self.token {
            Some(cached) => if cached.expires_at > now as u128 {
                Some(cached.token.clone())
            } else {
                None
            },
            None => None,
        }
    }

    /// Where to log in.
    pub fn login_url(&self) -> (r: String)
        ensures
            r@ == login_address(self@.config.url),
    {
        let mut r = self.config.url.clone();
        r.append("/api/v1/auth/universal-auth/login");
        r
    }

    /// Where to ask for the secrets of a scope.
    pub fn scope_url(&self, scope: &Scope) -> (r: String)
        ensures
            r@ == scope_address(
                self@.config.url,
                scope@.project_id,
                scope@.environment,
                self@.config.secret_path,
            ),
    {
        let mut r = self.config.url.clone();
        r.append("/api/v3/secrets/raw?workspaceId=");
        r.append(encode(scope.project_id.as_str()).as_str());
        r.append("&environment=");
        r.append(encode(scope.environment.as_str()).as_str());
        r.append("&secretPath=");
        r.append(encode(self.config.secret_path.as_str()).as_str());
        r.append("&include_imports=true&expandSecretReferences=true");
        r
    }

    /// Begins to fetch a scope: with the token that there is, or with a login.
    pub fn fetch_scope(&self, now: u64) -> (pending: Pending)
        ensures
            pending@ == (match usable_token(self@, now) {
                Some(token) => PendingView::Get { token, again: false },
                None => PendingView::Login { again: false },
            }),
    {
        match self.cached_token(now) {
            Some(token) => Pending::Get { token, again: false },
            None => Pending::Login { again: false },
        }
    }

    /// Takes the answer to a login, at the time `now`.
    pub fn login_answered(&mut self, again: bool, reply: LoginReply, now: u64) -> (r: Result<
        Pending,
        ClientError,
    >)
        ensures
            final(self)@ == after_login(old(self)@, again, reply, now).0,
            match r {
                Ok(pending) => after_login(old(self)@, again, reply, now).1 == Ok::<
                    PendingView,
                    ClientErrorView,
                >(pending@),
                Err(error) => after_login(old(self)@, again, reply, now).1 == Err::<
                    PendingView,
                    ClientErrorView,
                >(error@),
            },
    {
        match reply {
            LoginReply::Unreachable { cause } => Err(ClientError::LoginUnreachable { cause }),
            LoginReply::Answered { status, status_text, body } => {
                if !is_success(status) {
                    return Err(ClientError::LoginRefused { status: status_text });
                }
                match body {
                    Err(cause) => Err(ClientError::LoginUnparsable { cause }),
                    Ok(login) => {
                        let seconds: u64 = token_lifetime(login.expires_in);
                        let expires_at: u128 = now as u128 + seconds as u128 * 1_000_000_000;
                        self.token = Some(
                            CachedToken { token: login.access_token.clone(), expires_at },
                        );
                        Ok(Pending::Get { token: login.access_token, again })
                    },
                }
            },
        }
    }

    /// Takes the answer to a request for the secrets of a scope.
    ///
    /// A cached token can be revoked server-side before its stated expiry. The
    /// first 401 therefore leads to a new login rather than to an error.
    pub fn secrets_answered(&mut self, scope: &Scope, again: bool, reply: GetReply) -> (r: Result<
        Pending,
        ClientError,
    >)
        ensures
            final(self)@ == after_get(old(self)@, scope@, again, reply).0,
            match r {
                Ok(pending) => after_get(old(self)@, scope@, again, reply).1 == Ok::<
                    PendingView,
                    ClientErrorView,
                >(pending@),
                Err(error) => after_get(old(self)@, scope@, again, reply).1 == Err::<
                    PendingView,
                    ClientErrorView,
                >(error@),
            },
    {
        match reply {
            GetReply::Unreachable { cause } => Err(
                ClientError::ScopeUnreachable { scope: scope.name(), cause },
            ),
            GetReply::Answered { status, status_text } => {
                if status == 401 && !again {
                    self.token = None;
                    return Ok(Pending::Login { again: true });
                }
                if !is_success(status) {
                    return Err(
                        ClientError::ScopeRefused { scope: scope.name(), status: status_text },
                    );
                }
                Ok(Pending::ReadBody)
            },
        }
    }
}

/// Fetching a scope ends: every answer leaves fewer requests to be made, so that
/// a token is rejected at most once before that is an error.
pub proof fn fetching_a_scope_ends(
    client: ClientView,
    scope: ScopeView,
    token: Seq<char>,
    again: bool,
    login: LoginReply,
    get: GetReply,
    now: u64,
)
    ensures
        after_login(client, again, login, now).1 matches Ok(pending) ==> requests_left(pending)
            < requests_left(PendingView::Login { again }),
        after_get(client, scope, again, get).1 matches Ok(pending) ==> requests_left(pending)
            < requests_left(PendingView::Get { token, again }),
{
}

/// A token is forgotten exactly when it is rejected for the first time, and one is
/// kept only from a login that succeeded.
pub proof fn rejected_token_is_forgotten(
    client: ClientView,
    scope: ScopeView,
    again: bool,
    login: LoginReply,
    get: GetReply,
    now: u64,
)
    ensures
        after_get(client, scope, again, get).1 matches Ok(PendingView::Login { .. })
            ==> after_get(client, scope, again, get).0.token is None,
        !(after_get(client, scope, again, get).1 matches Ok(PendingView::Login { .. }))
            ==> after_get(client, scope, again, get).0 == client,
        after_login(client, again, login, now).1 is Err ==> after_login(
            client,
            again,
            login,
            now,
        ).0 == client,
{
}

/// A token from a login is used from the login on until its margin, and no
/// longer.
pub proof fn token_is_used_up_to_its_margin(
    client: ClientView,
    again: bool,
    login: LoginResponse,
    status_text: String,
    now: u64,
    later: u64,
)
    requires
        now <= later,
    ensures
        ({
            let reply = LoginReply::Answered { status: 200, status_text, body: Ok(login) };
            let after = after_login(client, again, reply, now).0;
            let end = now + lifetime(login.expires_in) * 1_000_000_000;
            &&& later < end ==> usable_token(after, later) == Some(login.access_token@)
            &&& later >= end ==> usable_token(after, later) is None
            &&& login.expires_in >= TOKEN_REFRESH_MARGIN ==> end + TOKEN_REFRESH_MARGIN
                * 1_000_000_000 == now + login.expires_in * 1_000_000_000
        }),
{
}

/// Two scopes have the same address only if they are the same project and
/// environment.
pub proof fn addresses_of_scopes_differ(
    url: Seq<char>,
    secret_path: Seq<char>,
    project_id: Seq<char>,
    environment: Seq<char>,
    other_project_id: Seq<char>,
    other_environment: Seq<char>,
)
    requires
        scope_address(url, project_id, environment, secret_path) == scope_address(
            url,
            other_project_id,
            other_environment,
            secret_path,
        ),
    ensures
        project_id == other_project_id,
        environment == other_environment,
{
    reveal_strlit("&environment=");
    reveal_strlit("&secretPath=");
    let front = url + "/api/v3/secrets/raw?workspaceId="@;
    let tail = url_encoded(secret_path) + "&include_imports=true&expandSecretReferences=true"@;
    let a = url_encoded(project_id);
    let b = url_encoded(other_project_id);
    let c = url_encoded(environment);
    let d = url_encoded(other_environment);
    let one = scope_address(url, project_id, environment, secret_path);
    let other = scope_address(url, other_project_id, other_environment, secret_path);
    let e = "&environment="@;
    let p = "&secretPath="@;
    assert(one =~= front + (a + e + (c + p + tail)));
    assert(other =~= front + (b + e + (d + p + tail)));
    assert(a + e + (c + p + tail) =~= one.skip(front.len() as int));
    assert(b + e + (d + p + tail) =~= other.skip(front.len() as int));
    encoded_text_stays_in_its_parameter(project_id, '&');
    encoded_text_stays_in_its_parameter(other_project_id, '&');
    encoded_text_stays_in_its_parameter(environment, '&');
    encoded_text_stays_in_its_parameter(other_environment, '&');
    lemma_equal_up_to(e, a, c + p + tail, b, d + p + tail);
    lemma_equal_up_to(p, c, tail, d, tail);
    encoding_loses_nothing(project_id, other_project_id);
    encoding_loses_nothing(environment, other_environment);
}

/// The secrets of imports, one import after the other.
pub open spec fn imported(imports: Seq<RawImport>) -> Seq<RawSecret>
    decreases imports.len(),
{
    if imports.len() == 0 {
        Seq::empty()
    } else {
        imported(imports.drop_last()) + imports.last().secrets@
    }
}

/// All secrets of an answer: those of the scope itself, then the imported ones.
pub open spec fn all_entries(body: RawSecretsResponse) -> Seq<RawSecret> {
    body.secrets@ + imported(body.imports@)
}

/// Whether the value of a secret is there to be used.
pub open spec fn is_readable(entry: RawSecret) -> bool {
    !entry.secret_value_hidden && entry.secret_value is Some
}

/// The token of a secret in a scope.
pub open spec fn entry_token(scope: ScopeView, entry: RawSecret) -> Seq<char> {
    token(scope.alias, scope.environment, entry.secret_key@)
}

/// The readable secrets among `entries` under their tokens. Of two with the same
/// token the later one is taken.
pub open spec fn readable_secrets(scope: ScopeView, entries: Seq<RawSecret>) -> Map<
    Seq<char>,
    Seq<char>,
>
    decreases entries.len(),
{
    if entries.len() == 0 {
        Map::empty()
    } else {
        let before = readable_secrets(scope, entries.drop_last());
        let entry = entries.last();
        if is_readable(entry) {
            before.insert(entry_token(scope, entry), entry.secret_value->0@)
        } else {
            before
        }
    }
}

/// The keys of the secrets among `entries` that may not be read.
pub open spec fn hidden_keys(entries: Seq<RawSecret>) -> Seq<Seq<char>>
    decreases entries.len(),
{
    if entries.len() == 0 {
        Seq::empty()
    } else if entries.last().secret_value_hidden {
        hidden_keys(entries.drop_last()).push(entries.last().secret_key@)
    } else {
        hidden_keys(entries.drop_last())
    }
}

/// What an answer for a scope holds.
#[derive(Debug)]
pub struct Fetched {
    /// The readable secrets, keyed by their interpolation tokens.
    pub secrets: StringMap,
    /// The keys of the secrets whose values are hidden from this identity.
    pub hidden: Vec<String>,
}

impl Fetched {
    fn new() -> (r: Fetched)
        ensures
            r.secrets@ == Map::<Seq<char>, Seq<char>>::empty(),
            views(r.hidden@) == Seq::<Seq<char>>::empty(),
    {
        let r = Fetched { secrets: StringMap::new(), hidden: Vec::new() };
        assert(views(r.hidden@) =~= Seq::<Seq<char>>::empty());
        r
    }

    /// Takes one list of entries, behind those that were taken before.
    fn take_entries(&mut self, scope: &Scope, entries: &Vec<RawSecret>, before: Ghost<
        Seq<RawSecret>,
    >)
        requires
            old(self).secrets@ == readable_secrets(scope@, before@),
            views(old(self).hidden@) == hidden_keys(before@),
        ensures
            final(self).secrets@ == readable_secrets(scope@, before@ + entries@),
            views(final(self).hidden@) == hidden_keys(before@ + entries@),
    {
        let mut i: usize = 0;
        assert(before@ + entries@.take(0) =~= before@);
        while i < entries.len()
            invariant
                i <= entries@.len(),
                self.secrets@ == readable_secrets(scope@, before@ + entries@.take(i as int)),
                views(self.hidden@) == hidden_keys(before@ + entries@.take(i as int)),
            decreases entries.len() - i,
        {
            let entry = &entries[i];
            proof {
                let longer = before@ + entries@.take(i + 1);
                assert(longer.drop_last() =~= before@ + entries@.take(i as int));
                assert(longer.last() == *entry);
            }
            if entry.secret_value_hidden {
                // Listable but not readable by this identity. Skipping leaves the
                // token unresolved, which the interpolation guard turns into a loud
                // failure, far better than substituting an empty value.
                let ghost hidden = views(self.hidden@);
                self.hidden.push(entry.secret_key.clone());
                assert(views(self.hidden@) =~= hidden.push(entry.secret_key@));
            } else if let Some(value) = &entry.secret_value {
                self.secrets.insert(
                    token_for(
                        scope.alias.as_str(),
                        scope.environment.as_str(),
                        entry.secret_key.as_str(),
                    ),
                    value.clone(),
                );
            }
            i += 1;
        }
        assert(entries@.take(i as int) =~= entries@);
    }
}

/// Gathers every readable secret of an answer, keyed by its interpolation token
/// (`infisical://<alias>/<environment>/<KEY>`).
pub fn collect_secrets(scope: &Scope, body: &RawSecretsResponse) -> (r: Fetched)
    ensures
        r.secrets@ == readable_secrets(scope@, all_entries(*body)),
        views(r.hidden@) == hidden_keys(all_entries(*body)),
{
    let mut r = Fetched::new();
    let nothing: Ghost<Seq<RawSecret>> = Ghost(Seq::empty());
    r.take_entries(scope, &body.secrets, nothing);
    assert(Seq::<RawSecret>::empty() + body.secrets@ =~= body.secrets@);
    let mut i: usize = 0;
    assert(body.secrets@ + imported(body.imports@.take(0)) =~= body.secrets@);
    while i < body.imports.len()
        invariant
            i <= body.imports@.len(),
            r.secrets@ == readable_secrets(
                scope@,
                body.secrets@ + imported(body.imports@.take(i as int)),
            ),
            views(r.hidden@) == hidden_keys(
                body.secrets@ + imported(body.imports@.take(i as int)),
            ),
        decreases body.imports.len() - i,
    {
        let before: Ghost<Seq<RawSecret>> = Ghost(
            body.secrets@ + imported(body.imports@.take(i as int)),
        );
        r.take_entries(scope, &body.imports[i].secrets, before);
        proof {
            let front = body.imports@.take(i as int);
            let longer = body.imports@.take(i + 1);
            assert(longer.drop_last() =~= front);
            assert(longer.last() == body.imports@[i as int]);
            assert(before@ + longer.last().secrets@ =~= body.secrets@ + imported(longer));
        }
        i += 1;
    }
    assert(body.imports@.take(i as int) =~= body.imports@);
    r
}

/// Takes the body of an answer for a scope, or the reason why it could not be
/// parsed.
pub fn body_read(scope: &Scope, body: Result<RawSecretsResponse, String>) -> (r: Result<
    Fetched,
    ClientError,
>)
    ensures
        match body {
            Ok(parsed) => {
                &&& r is Ok
                &&& r->Ok_0.secrets@ == readable_secrets(scope@, all_entries(parsed))
                &&& views(r->Ok_0.hidden@) == hidden_keys(all_entries(parsed))
            },
            Err(cause) => r is Err && r->Err_0@ == (ClientErrorView::ScopeUnparsable {
                scope: scope_name(scope@),
                cause: cause@,
            }),
        },
{
    match body {
        Ok(parsed) => Ok(collect_secrets(scope, &parsed)),
        Err(cause) => Err(ClientError::ScopeUnparsable { scope: scope.name(), cause }),
    }
}

/// Every secret that is gathered comes from a readable entry: a hidden or missing
/// value is never surfaced, not even as an empty text.
pub proof fn gathered_secrets_are_readable(
    scope: ScopeView,
    entries: Seq<RawSecret>,
    name: Seq<char>,
)
    requires
        readable_secrets(scope, entries).contains_key(name),
    ensures
        exists|i: int|
            0 <= i < entries.len() && is_readable(#[trigger] entries[i]) && entry_token(
                scope,
                entries[i],
            ) == name && entries[i].secret_value->0@ == readable_secrets(scope, entries)[name],
    decreases entries.len(),
{
    let entry = entries.last();
    if is_readable(entry) && entry_token(scope, entry) == name {
        assert(entries[entries.len() - 1] == entry);
    } else {
        let front = entries.drop_last();
        gathered_secrets_are_readable(scope, front, name);
        let i = choose|i: int|
            0 <= i < front.len() && is_readable(#[trigger] front[i]) && entry_token(scope, front[i])
                == name && front[i].secret_value->0@ == readable_secrets(scope, front)[name];
        assert(entries[i] == front[i]);
    }
}

/// Every readable entry is gathered under its token, and the last one with a
/// token gives the value.
pub proof fn readable_secrets_are_gathered(scope: ScopeView, entries: Seq<RawSecret>, i: int)
    requires
        0 <= i < entries.len(),
        is_readable(entries[i]),
    ensures
        readable_secrets(scope, entries).contains_key(entry_token(scope, entries[i])),
        (forall|j: int|
            i < j < entries.len() ==> !(is_readable(#[trigger] entries[j]) && entry_token(
                scope,
                entries[j],
            ) == entry_token(scope, entries[i]))) ==> readable_secrets(scope, entries)[entry_token(
            scope,
            entries[i],
        )] == entries[i].secret_value->0@,
    decreases entries.len(),
{
    if i < entries.len() - 1 {
        let front = entries.drop_last();
        readable_secrets_are_gathered(scope, front, i);
        assert(front[i] == entries[i]);
        if forall|j: int|
            i < j < entries.len() ==> !(is_readable(#[trigger] entries[j]) && entry_token(
                scope,
                entries[j],
            ) == entry_token(scope, entries[i])) {
            assert forall|j: int| i < j < front.len() implies !(is_readable(#[trigger] front[j])
                && entry_token(scope, front[j]) == entry_token(scope, front[i])) by {
                assert(front[j] == entries[j]);
            }
            let last = entries[entries.len() - 1];
            assert(!(is_readable(last) && entry_token(scope, last) == entry_token(
                scope,
                entries[i],
            )));
        }
    }
}

/// Every secret that is gathered has a name that begins with the name of its
/// scope.
pub proof fn gathered_names_are_tokens_of_the_scope(
    scope: ScopeView,
    entries: Seq<RawSecret>,
    name: Seq<char>,
)
    requires
        readable_secrets(scope, entries).contains_key(name),
    ensures
        scope_prefix(scope.alias, scope.environment).is_prefix_of(name),
{
    gathered_secrets_are_readable(scope, entries, name);
    let i = choose|i: int|
        0 <= i < entries.len() && is_readable(#[trigger] entries[i]) && entry_token(
            scope,
            entries[i],
        ) == name && entries[i].secret_value->0@ == readable_secrets(scope, entries)[name];
    let prefix = scope_prefix(scope.alias, scope.environment);
    assert(prefix =~= entry_token(scope, entries[i]).take(prefix.len() as int));
}

} // verus!
