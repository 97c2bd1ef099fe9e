//! What holds of fetching a scope and of what is gathered from an answer.
use vstd::prelude::*;

use crate::client::{
    after_get, after_login, all_entries, entry_token, gathered_secrets_are_readable, hidden_keys,
    imported, is_readable, login_address, readable_secrets, readable_secrets_are_gathered,
    scope_address, usable_token, ClientErrorView, ClientView, GetReply,
    LoginReply, LoginResponse, PendingView, RawImport, RawSecret, RawSecretsResponse,
};
use crate::config::ScopeView;
use crate::url::url_encoded;

verus! {

/// Whether an entry has a value for a key that may be read.
pub open spec fn gives(entry: RawSecret, key: Seq<char>) -> bool {
    entry.secret_key@ == key && !entry.secret_value_hidden && entry.secret_value is Some
}

/// Whether one of `entries` from `from` on has a value for a key that may be read.
pub open spec fn is_given_from(entries: Seq<RawSecret>, from: int, key: Seq<char>) -> bool {
    exists|i: int| from <= i < entries.len() && gives(#[trigger] entries[i], key)
}

/// Whether one of `imports` from `from` on has a value for a key that may be read.
pub open spec fn is_imported_from(imports: Seq<RawImport>, from: int, key: Seq<char>) -> bool {
    exists|i: int|
        from <= i < imports.len() && is_given_from((#[trigger] imports[i]).secrets@, 0, key)
}

/// The name under which the value for a key in a scope is looked up.
pub open spec fn name_of(scope: ScopeView, key: Seq<char>) -> Seq<char> {
    "infisical://"@ + scope.alias + "/"@ + scope.environment + "/"@ + key
}

proof fn lemma_name(scope: ScopeView, entry: RawSecret)
    ensures
        entry_token(scope, entry) == name_of(scope, entry.secret_key@),
{
}

proof fn lemma_names_differ(scope: ScopeView, a: Seq<char>, b: Seq<char>)
    requires
        name_of(scope, a) == name_of(scope, b),
    ensures
        a == b,
{
    let n = (name_of(scope, a).len() - a.len()) as int;
    assert(name_of(scope, a).skip(n) =~= a);
    assert(name_of(scope, b).skip(n) =~= b);
}

/// The value of the last entry that gives a key is gathered, whatever the key is.
proof fn lemma_gathered(scope: ScopeView, entries: Seq<RawSecret>, i: int)
    requires
        0 <= i < entries.len(),
        gives(entries[i], entries[i].secret_key@),
    ensures
        ({
            let name = name_of(scope, entries[i].secret_key@);
            &&& readable_secrets(scope, entries).contains_key(name)
            &&& !is_given_from(entries, i + 1, entries[i].secret_key@) ==> readable_secrets(
                scope,
                entries,
            )[name] == entries[i].secret_value->0@
        }),
{
    let key = entries[i].secret_key@;
    assert(is_readable(entries[i]));
    readable_secrets_are_gathered(scope, entries, i);
    lemma_name(scope, entries[i]);
    if !is_given_from(entries, i + 1, key) {
        assert forall|j: int| i < j < entries.len() implies !(is_readable(#[trigger] entries[j])
            && entry_token(scope, entries[j]) == entry_token(scope, entries[i])) by {
            lemma_name(scope, entries[j]);
            if is_readable(entries[j]) && entry_token(scope, entries[j]) == entry_token(
                scope,
                entries[i],
            ) {
                lemma_names_differ(scope, entries[j].secret_key@, key);
                assert(gives(entries[j], key));
            }
        }
    }
}

proof fn lemma_imported_at(imports: Seq<RawImport>, k: int) -> (at: int)
    requires
        0 <= k < imports.len(),
    ensures
        0 <= at,
        at + imports[k].secrets@.len() <= imported(imports).len(),
        at == imported(imports.take(k)).len(),
        forall|j: int|
            0 <= j < imports[k].secrets@.len() ==> imported(imports)[at + j]
                == #[trigger] imports[k].secrets@[j],
        imported(imports).skip(at + imports[k].secrets@.len()) == imported(imports.skip(k + 1)),
    decreases imports.len(),
{
    let front = imports.drop_last();
    if k == imports.len() - 1 {
        assert(imports.take(k) =~= front);
        assert(imports.skip(k + 1) =~= Seq::empty());
        let at = imported(front).len() as int;
        assert(imported(imports).skip(at + imports[k].secrets@.len()) =~= imported(
            imports.skip(k + 1),
        ));
        at
    } else {
        let at = lemma_imported_at(front, k);
        assert(front.take(k) =~= imports.take(k));
        assert(front[k] == imports[k]);
        let end = at + imports[k].secrets@.len();
        let rest = imports.skip(k + 1);
        assert(rest.drop_last() =~= front.skip(k + 1));
        assert(rest.last() == imports.last());
        assert(imported(imports).skip(end) =~= imported(front).skip(end) + imports.last().secrets@);
        assert forall|j: int| 0 <= j < imports[k].secrets@.len() implies imported(imports)[at + j]
            == #[trigger] imports[k].secrets@[j] by {
            assert(imported(front)[at + j] == front[k].secrets@[j]);
        }
        at
    }
}

/// Whichever entry of imports gives a key is in one of them.
proof fn lemma_imported_from(imports: Seq<RawImport>, i: int) -> (found: (int, int))
    requires
        0 <= i < imported(imports).len(),
    ensures
        0 <= found.0 < imports.len(),
        0 <= found.1 < imports[found.0].secrets@.len(),
        imported(imports)[i] == imports[found.0].secrets@[found.1],
    decreases imports.len(),
{
    let front = imports.drop_last();
    let n = imported(front).len();
    if i < n {
        let found = lemma_imported_from(front, i);
        assert(front[found.0] == imports[found.0]);
        found
    } else {
        assert(imported(imports)[i] == imports.last().secrets@[i - n]);
        (imports.len() - 1, i - n)
    }
}

/// Every secret of the scope itself that may be read is gathered under its token,
/// whatever its key is. It gives the value unless an entry behind it, or an import,
/// gives another for the same key.
pub proof fn own_secret_is_gathered(scope: ScopeView, body: RawSecretsResponse, i: int)
    requires
        0 <= i < body.secrets@.len(),
        !body.secrets@[i].secret_value_hidden,
        body.secrets@[i].secret_value is Some,
    ensures
        ({
            let entry = body.secrets@[i];
            let key = entry.secret_key@;
            let name = "infisical://"@ + scope.alias + "/"@ + scope.environment + "/"@ + key;
            let secrets = readable_secrets(scope, all_entries(body));
            &&& secrets.contains_key(name)
            &&& !is_given_from(body.secrets@, i + 1, key) && !is_imported_from(body.imports@, 0, key)
                ==> secrets[name] == entry.secret_value->0@
        }),
{
    let all = all_entries(body);
    let key = body.secrets@[i].secret_key@;
    assert(all[i] == body.secrets@[i]);
    lemma_gathered(scope, all, i);
    if is_given_from(all, i + 1, key) && !is_given_from(body.secrets@, i + 1, key) {
        let j = choose|j: int| i + 1 <= j < all.len() && gives(#[trigger] all[j], key);
        if j < body.secrets@.len() {
            assert(gives(body.secrets@[j], key));
        } else {
            let found = lemma_imported_from(body.imports@, j - body.secrets@.len());
            assert(gives(body.imports@[found.0].secrets@[found.1], key));
            assert(is_given_from(body.imports@[found.0].secrets@, 0, key));
            assert(is_imported_from(body.imports@, 0, key));
        }
    }
}

/// Every imported secret that may be read is gathered under its token in the scope,
/// whatever its key is. It gives the value unless an entry behind it, or a later
/// import, gives another for the same key.
pub proof fn imported_secret_is_gathered(
    scope: ScopeView,
    body: RawSecretsResponse,
    k: int,
    j: int,
)
    requires
        0 <= k < body.imports@.len(),
        0 <= j < body.imports@[k].secrets@.len(),
        !body.imports@[k].secrets@[j].secret_value_hidden,
        body.imports@[k].secrets@[j].secret_value is Some,
    ensures
        ({
            let entry = body.imports@[k].secrets@[j];
            let key = entry.secret_key@;
            let name = "infisical://"@ + scope.alias + "/"@ + scope.environment + "/"@ + key;
            let secrets = readable_secrets(scope, all_entries(body));
            &&& secrets.contains_key(name)
            &&& !is_given_from(body.imports@[k].secrets@, j + 1, key) && !is_imported_from(
                body.imports@,
                k + 1,
                key,
            ) ==> secrets[name] == entry.secret_value->0@
        }),
{
    let all = all_entries(body);
    let imports = body.imports@;
    let own = body.secrets@.len();
    let at = lemma_imported_at(imports, k);
    let i = own + at + j;
    let key = imports[k].secrets@[j].secret_key@;
    assert(imported(imports)[at + j] == imports[k].secrets@[j]);
    assert(all[i] == imports[k].secrets@[j]);
    lemma_gathered(scope, all, i);
    if is_given_from(all, i + 1, key) && !is_given_from(imports[k].secrets@, j + 1, key) {
        let m = choose|m: int| i + 1 <= m < all.len() && gives(#[trigger] all[m], key);
        let end = at + imports[k].secrets@.len();
        let n = m - own;
        assert(all[m] == imported(imports)[n]);
        if n < end {
            assert(imported(imports)[at + (n - at)] == imports[k].secrets@[n - at]);
            assert(gives(imports[k].secrets@[n - at], key));
        } else {
            let rest = imports.skip(k + 1);
            assert(imported(imports).skip(end)[n - end] == imported(imports)[n]);
            let found = lemma_imported_from(rest, n - end);
            let later = found.0 + k + 1;
            assert(rest[found.0] == imports[later]);
            assert(gives(imports[later].secrets@[found.1], key));
            assert(is_given_from(imports[later].secrets@, 0, key));
            assert(is_imported_from(imports, k + 1, key));
        }
    }
}

/// Nothing else is gathered: every name is the token of a key for which the scope
/// itself or an import gives the value.
pub proof fn only_given_secrets_are_gathered(
    scope: ScopeView,
    body: RawSecretsResponse,
    name: Seq<char>,
)
    requires
        readable_secrets(scope, all_entries(body)).contains_key(name),
    ensures
        exists|entry: RawSecret|
            {
                &&& #[trigger] gives(entry, entry.secret_key@)
                &&& name == "infisical://"@ + scope.alias + "/"@ + scope.environment + "/"@
                    + entry.secret_key@
                &&& readable_secrets(scope, all_entries(body))[name] == entry.secret_value->0@
                &&& body.secrets@.contains(entry) || exists|k: int|
                    0 <= k < body.imports@.len() && (#[trigger] body.imports@[k]).secrets@.contains(
                        entry,
                    )
            },
{
    let all = all_entries(body);
    gathered_secrets_are_readable(scope, all, name);
    let i = choose|i: int|
        0 <= i < all.len() && is_readable(#[trigger] all[i]) && entry_token(scope, all[i]) == name
            && all[i].secret_value->0@ == readable_secrets(scope, all)[name];
    let entry = all[i];
    lemma_name(scope, entry);
    assert(gives(entry, entry.secret_key@));
    if i < body.secrets@.len() {
        assert(body.secrets@[i] == entry);
    } else {
        let found = lemma_imported_from(body.imports@, i - body.secrets@.len());
        assert(body.imports@[found.0].secrets@[found.1] == entry);
        assert(body.imports@[found.0].secrets@.contains(entry));
    }
}

/// The keys that are reported as hidden are those of the entries that are marked
/// so, in their order, the scope's own before those of its imports.
pub proof fn hidden_entries_are_reported(
    body: RawSecretsResponse,
    imports: Seq<RawImport>,
    last: RawImport,
    front: Seq<RawSecret>,
    back: Seq<RawSecret>,
    entry: RawSecret,
)
    ensures
        hidden_keys(all_entries(body)) == hidden_keys(body.secrets@) + hidden_keys(
            imported(body.imports@),
        ),
        imported(Seq::empty()) == Seq::<RawSecret>::empty(),
        imported(imports.push(last)) == imported(imports) + last.secrets@,
        hidden_keys(Seq::empty()) == Seq::<Seq<char>>::empty(),
        hidden_keys(seq![entry]) == (if entry.secret_value_hidden {
            seq![entry.secret_key@]
        } else {
            Seq::empty()
        }),
        hidden_keys(front + back) == hidden_keys(front) + hidden_keys(back),
{
    lemma_hidden_keys(body.secrets@, imported(body.imports@));
    lemma_hidden_keys(front, back);
    assert(imports.push(last).drop_last() =~= imports);
    reveal_with_fuel(hidden_keys, 2);
    assert(seq![entry].drop_last() =~= Seq::empty());
    assert(hidden_keys(seq![entry]) =~= if entry.secret_value_hidden {
        seq![entry.secret_key@]
    } else {
        Seq::empty()
    });
}

proof fn lemma_hidden_keys(front: Seq<RawSecret>, back: Seq<RawSecret>)
    ensures
        hidden_keys(front + back) == hidden_keys(front) + hidden_keys(back),
    decreases back.len(),
{
    if back.len() == 0 {
        assert(front + back =~= front);
        assert(hidden_keys(front) + hidden_keys(back) =~= hidden_keys(front));
    } else {
        lemma_hidden_keys(front, back.drop_last());
        assert((front + back).drop_last() =~= front + back.drop_last());
        assert((front + back).last() == back.last());
        assert(hidden_keys(front + back) =~= hidden_keys(front) + hidden_keys(back));
    }
}

/// A login with a status from 200 to 299 and a body gives its token, which is used
/// until one minute before it expires, or until it expires where that is sooner
/// than a minute. The request for secrets follows, with that token.
pub proof fn granted_login_gives_its_token(
    client: ClientView,
    again: bool,
    status: u16,
    status_text: String,
    login: LoginResponse,
    now: u64,
    later: u64,
)
    requires
        200 <= status <= 299,
    ensures
        ({
            let reply = LoginReply::Answered { status, status_text, body: Ok(login) };
            let (after, next) = after_login(client, again, reply, now);
            let seconds = if login.expires_in >= 60 {
                login.expires_in - 60
            } else {
                login.expires_in as int
            };
            &&& next == Ok::<PendingView, ClientErrorView>(
                PendingView::Get { token: login.access_token@, again },
            )
            &&& after.config == client.config
            &&& usable_token(after, later) == if later < now + seconds * 1_000_000_000 {
                Some(login.access_token@)
            } else {
                None
            }
        }),
{
}

/// A login that is not answered, is refused or gives no body that can be read is an
/// error, and the client stays as it was. Whatever the body of a refused login
/// holds does not matter.
pub proof fn failed_login_is_an_error(
    client: ClientView,
    again: bool,
    cause: String,
    status: u16,
    status_text: String,
    body: Result<LoginResponse, String>,
    now: u64,
)
    ensures
        after_login(client, again, LoginReply::Unreachable { cause }, now) == (
            client,
            Err::<PendingView, ClientErrorView>(
                ClientErrorView::LoginUnreachable { cause: cause@ },
            ),
        ),
        status < 200 || status > 299 ==> after_login(
            client,
            again,
            LoginReply::Answered { status, status_text, body },
            now,
        ) == (
            client,
            Err::<PendingView, ClientErrorView>(
                ClientErrorView::LoginRefused { status: status_text@ },
            ),
        ),
        200 <= status <= 299 ==> after_login(
            client,
            again,
            LoginReply::Answered { status, status_text, body: Err(cause) },
            now,
        ) == (
            client,
            Err::<PendingView, ClientErrorView>(
                ClientErrorView::LoginUnparsable { cause: cause@ },
            ),
        ),
{
}

/// What the answer to a request for secrets leads to: to its body if the status is
/// from 200 to 299, to one more login if it is the first 401, and to an error that
/// names the scope otherwise. Only the rejected token is given up.
pub proof fn status_decides_what_follows_a_request(
    client: ClientView,
    scope: ScopeView,
    again: bool,
    cause: String,
    status: u16,
    status_text: String,
)
    ensures
        ({
            let named = scope.alias + "/"@ + scope.environment;
            let answered = after_get(
                client,
                scope,
                again,
                GetReply::Answered { status, status_text },
            );
            &&& after_get(client, scope, again, GetReply::Unreachable { cause }) == (
                client,
                Err::<PendingView, ClientErrorView>(
                    ClientErrorView::ScopeUnreachable { scope: named, cause: cause@ },
                ),
            )
            &&& 200 <= status <= 299 ==> answered == (
                client,
                Ok::<PendingView, ClientErrorView>(PendingView::ReadBody),
            )
            &&& status == 401 && !again ==> answered == (
                ClientView { config: client.config, token: None },
                Ok::<PendingView, ClientErrorView>(PendingView::Login { again: true }),
            )
            &&& (status < 200 || status > 299) && (status != 401 || again) ==> answered == (
                client,
                Err::<PendingView, ClientErrorView>(
                    ClientErrorView::ScopeRefused { scope: named, status: status_text@ },
                ),
            )
        }),
{
}

/// A token is used before the time at which it ends, and not from then on.
pub proof fn token_is_used_before_its_end(client: ClientView, now: u64)
    ensures
        client.token is None ==> usable_token(client, now) is None,
        client.token matches Some(cached) ==> {
            &&& now < cached.expires_at ==> usable_token(client, now) == Some(cached.token)
            &&& now >= cached.expires_at ==> usable_token(client, now) is None
        },
{
}

/// The addresses of the API: every parameter stands behind its name, encoded, and
/// nothing else is added to the address of the server.
pub proof fn addresses_name_every_parameter(
    url: Seq<char>,
    project_id: Seq<char>,
    environment: Seq<char>,
    secret_path: Seq<char>,
)
    ensures
        login_address(url) == url + "/api/v1/auth/universal-auth/login"@,
        scope_address(url, project_id, environment, secret_path) == url
            + "/api/v3/secrets/raw?workspaceId="@ + url_encoded(project_id) + "&environment="@
            + url_encoded(environment) + "&secretPath="@ + url_encoded(secret_path)
            + "&include_imports=true&expandSecretReferences=true"@,
{
}

} // verus!
