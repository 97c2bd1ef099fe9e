//! Interpolation tokens: the names under which provider secrets are looked up.
use vstd::prelude::*;

verus! {

/// Prefix identifying an Infisical interpolation token.
pub const TOKEN_PREFIX: &'static str = "infisical://";

/// The token of the secret `key` in the project `alias` and `environment`.
pub open spec fn token(alias: Seq<char>, environment: Seq<char>, key: Seq<char>) -> Seq<char> {
    scope_prefix(alias, environment) + key
}

/// What the tokens of all secrets of one project and environment begin with.
pub open spec fn scope_prefix(alias: Seq<char>, environment: Seq<char>) -> Seq<char> {
    TOKEN_PREFIX@ + alias + "/"@ + environment + "/"@
}

/// Whether `c` may stand in a project alias or an environment: `[a-z0-9-]`.
pub open spec fn is_segment_char(c: char) -> bool {
    'a' <= c <= 'z' || '0' <= c <= '9' || c == '-'
}

/// A project alias or an environment: `[a-z0-9-]+`.
pub open spec fn is_segment(s: Seq<char>) -> bool {
    &&& s.len() > 0
    &&& forall|i: int| 0 <= i < s.len() ==> is_segment_char(#[trigger] s[i])
}

/// Whether `c` may stand in the key of a secret reference: `[A-Za-z0-9_]`.
pub open spec fn is_key_char(c: char) -> bool {
    'A' <= c <= 'Z' || 'a' <= c <= 'z' || '0' <= c <= '9' || c == '_'
}

/// The key of a secret reference: `[A-Za-z0-9_]+`.
pub open spec fn is_key(s: Seq<char>) -> bool {
    &&& s.len() > 0
    &&& forall|i: int| 0 <= i < s.len() ==> is_key_char(#[trigger] s[i])
}

/// The declared form of a reference to an Infisical secret:
/// `^infisical://[a-z0-9-]+/[a-z0-9-]+/[A-Za-z0-9_]+$`.
pub open spec fn is_secret_ref(t: Seq<char>) -> bool {
    exists|first: int, second: int|
        {
            let start = "infisical://"@.len() as int;
            &&& "infisical://"@.is_prefix_of(t)
            &&& start < first < second < t.len()
            &&& #[trigger] t[first] == '/'
            &&& #[trigger] t[second] == '/'
            &&& is_segment(t.subrange(start, first))
            &&& is_segment(t.subrange(first + 1, second))
            &&& is_key(t.skip(second + 1))
        }
}

/// Builds the interpolation token for a secret.
pub fn token_for(alias: &str, environment: &str, key: &str) -> (r: String)
    ensures
        r@ == token(alias@, environment@, key@),
{
    let mut r = TOKEN_PREFIX.to_owned();
    r.append(alias);
    r.append("/");
    r.append(environment);
    r.append("/");
    r.append(key);
    r
}

/// Every token of a valid alias, environment and key has the declared form of
/// a secret reference.
pub proof fn token_is_a_secret_ref(alias: Seq<char>, environment: Seq<char>, key: Seq<char>)
    requires
        is_segment(alias),
        is_segment(environment),
        is_key(key),
    ensures
        is_secret_ref(token(alias, environment, key)),
{
    reveal_strlit("infisical://");
    reveal_strlit("/");
    let t = token(alias, environment, key);
    let start = "infisical://"@.len() as int;
    let first = start + alias.len();
    let second = first + 1 + environment.len();
    assert("infisical://"@ =~= t.take(start));
    assert(t[first] == '/');
    assert(t[second] == '/');
    assert(t.subrange(start, first) =~= alias);
    assert(t.subrange(first + 1, second) =~= environment);
    assert(t.skip(second + 1) =~= key);
}

/// Every token begins with the prefix that marks it as the provider's.
pub proof fn token_has_the_prefix(alias: Seq<char>, environment: Seq<char>, key: Seq<char>)
    ensures
        TOKEN_PREFIX@.is_prefix_of(token(alias, environment, key)),
{
    let t = token(alias, environment, key);
    assert(t.subrange(0, TOKEN_PREFIX@.len() as int) =~= TOKEN_PREFIX@);
}

/// Two secrets have the same token only if project alias, environment and key
/// are the same.
pub proof fn tokens_do_not_collide(
    alias: Seq<char>,
    environment: Seq<char>,
    key: Seq<char>,
    other_alias: Seq<char>,
    other_environment: Seq<char>,
    other_key: Seq<char>,
)
    requires
        is_segment(alias),
        is_segment(environment),
        is_segment(other_alias),
        is_segment(other_environment),
        token(alias, environment, key) == token(other_alias, other_environment, other_key),
    ensures
        alias == other_alias,
        environment == other_environment,
        key == other_key,
{
    reveal_strlit("/");
    let start = TOKEN_PREFIX@.len() as int;
    let t = token(alias, environment, key);
    let first = start + alias.len();
    let other_first = start + other_alias.len();
    assert(t[first] == '/');
    assert(t[other_first] == '/');
    if first < other_first {
        assert(t[first] == other_alias[first - start]);
    }
    if other_first < first {
        assert(t[other_first] == alias[other_first - start]);
    }
    assert(alias =~= t.subrange(start, first));
    assert(other_alias =~= t.subrange(start, first));
    let second = first + 1 + environment.len();
    let other_second = first + 1 + other_environment.len();
    assert(t[second] == '/');
    assert(t[other_second] == '/');
    if second < other_second {
        assert(t[second] == other_environment[second - first - 1]);
    }
    if other_second < second {
        assert(t[other_second] == environment[other_second - first - 1]);
    }
    assert(environment =~= t.subrange(first + 1, second));
    assert(other_environment =~= t.subrange(first + 1, second));
    assert(key =~= t.skip(second + 1));
    assert(other_key =~= t.skip(second + 1));
}

} // verus!
