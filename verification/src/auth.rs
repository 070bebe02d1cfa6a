//! Default-deny access control: authenticate the `X-API-Key`, then permit the
//! request only if one of that key's rules matches its method and path.
use vstd::prelude::*;

use crate::config::Config;
use crate::text::str_eq;

verus! {

/// The request header that carries the caller's secret.
pub const API_KEY_HEADER: &'static str = "x-api-key";

/// The health-check path, reachable without a key.
pub const HEALTH_PATH: &'static str = "/healthz";

/// Why a request is turned away.
#[derive(Clone, Copy, Debug, PartialEq, Eq, Structural)]
pub enum Denial {
    /// The request carries no readable `X-API-Key` header.
    MissingKey,
    /// No configured key has the secret the request carries.
    InvalidKey,
    /// The key is known but none of its rules matches the method and path.
    NotPermitted,
}

/// What the access control makes of a request.
#[derive(Clone, Copy, Debug, PartialEq, Eq, Structural)]
pub enum Verdict {
    /// The health check, which needs no key.
    Exempt,
    /// Permitted, on the key at this position of the configuration.
    Granted(usize),
    /// Turned away.
    Denied(Denial),
}

impl Denial {
    /// The HTTP status code of the refusal.
    pub open spec fn status_code(self) -> u16 {
        match self {
            Denial::MissingKey => 401,
            Denial::InvalidKey => 401,
            Denial::NotPermitted => 403,
        }
    }

    /// The HTTP status code of the refusal: `401` for a missing or unknown
    /// key, `403` for a known key that no rule permits.
    pub fn status(&self) -> (code: u16)
        ensures
            code == self.status_code(),
    {
        match self {
            Denial::MissingKey => 401,
            Denial::InvalidKey => 401,
            Denial::NotPermitted => 403,
        }
    }

    /// The text sent back to the caller with the refusal.
    pub fn message(&self) -> (msg: &'static str)
        ensures
            msg@ == (match *self {
                Denial::MissingKey => "missing X-API-Key header"@,
                Denial::InvalidKey => "invalid API key"@,
                Denial::NotPermitted => "not permitted: no allow rule matches this method and path"@,
            }),
    {
        match self {
            Denial::MissingKey => "missing X-API-Key header",
            Denial::InvalidKey => "invalid API key",
            Denial::NotPermitted => "not permitted: no allow rule matches this method and path",
        }
    }
}

/// The verdict on a request with method `method`, path `path` and, if the
/// request carries one, the secret `api_key`: the health check passes;
/// otherwise the first key with that secret decides, and it permits the
/// request only if one of its rules matches both the method and the path.
pub open spec fn verdict(
    config: &Config,
    method: Seq<char>,
    path: Seq<char>,
    api_key: Option<Seq<char>>,
) -> Verdict {
    if path == HEALTH_PATH@ {
        Verdict::Exempt
    } else {
        match api_key {
            None => Verdict::Denied(Denial::MissingKey),
            Some(secret) => match config.key_position(secret) {
                None => Verdict::Denied(Denial::InvalidKey),
                Some(i) => if config.api_keys@[i].grants(method, path) {
                    Verdict::Granted(i as usize)
                } else {
                    Verdict::Denied(Denial::NotPermitted)
                },
            },
        }
    }
}

/// The views of an optional string.
pub open spec fn opt_view(s: Option<&str>) -> Option<Seq<char>> {
    match s {
        Some(s) => Some(s@),
        None => None,
    }
}

/// Default-deny access control: decides a request from its method, its path
/// and the value of its `X-API-Key` header, if it has a readable one.
pub fn authorize(config: &Config, method: &str, path: &str, api_key: Option<&str>) -> (v: Verdict)
    ensures
        v == verdict(config, method@, path@, opt_view(api_key)),
{
    if str_eq(path, HEALTH_PATH) {
        return Verdict::Exempt;
    }
    match api_key {
        None => Verdict::Denied(Denial::MissingKey),
        Some(secret) => {
            proof {
                config.lemma_key_position(secret@);
            }
            match config.find_key_index(secret) {
                None => Verdict::Denied(Denial::InvalidKey),
                Some(i) => {
                    if config.api_keys[i].permits(method, path) {
                        Verdict::Granted(i)
                    } else {
                        Verdict::Denied(Denial::NotPermitted)
                    }
                },
            }
        },
    }
}

/// Only the health check passes without a key.
pub proof fn law_only_health_check_is_exempt(
    config: &Config,
    method: Seq<char>,
    path: Seq<char>,
    api_key: Option<Seq<char>>,
)
    ensures
        (verdict(config, method, path, api_key) == Verdict::Exempt) == (path == HEALTH_PATH@),
{
}

/// Default-deny: a request is granted only on a key whose secret it
/// carries, that is the first key with that secret, and one of whose rules
/// matches both its method and its path.
pub proof fn law_granted_only_by_a_rule(
    config: &Config,
    method: Seq<char>,
    path: Seq<char>,
    api_key: Option<Seq<char>>,
    i: usize,
)
    requires
        verdict(config, method, path, api_key) == Verdict::Granted(i),
    ensures
        api_key matches Some(secret) && config.is_first_key(secret, i as int),
        config.api_keys@[i as int].grants(method, path),
{
    if let Some(secret) = api_key {
        config.lemma_key_position(secret);
        if let Some(j) = config.key_position(secret) {
            assert(config.api_keys@.len() == config.api_keys.len());
            assert(j == i as int);
        }
    }
}

/// A request to any other path than the health check is answered `401` when
/// it carries no key, or one that no key has, and `403` when its key is
/// known but none of that key's rules matches.
pub proof fn law_refusals(config: &Config, method: Seq<char>, path: Seq<char>, api_key: Option<
    Seq<char>,
>)
    requires
        path != HEALTH_PATH@,
    ensures
        api_key is None ==> verdict(config, method, path, api_key) == Verdict::Denied(
            Denial::MissingKey,
        ),
        api_key is Some && !config.has_key(api_key->0) ==> verdict(config, method, path, api_key)
            == Verdict::Denied(Denial::InvalidKey),
        api_key is Some && config.has_key(api_key->0) ==> (verdict(config, method, path, api_key)
            == Verdict::Denied(Denial::NotPermitted) <==> !config.api_keys@[config.key_position(
            api_key->0,
        )->0].grants(method, path)),
{
    if let Some(secret) = api_key {
        config.lemma_key_position(secret);
    }
}

/// A request to any other path than the health check, carrying a secret
/// whose first key is at position `i` and one of whose rules covers both the
/// method and the path, is granted on that key, whatever the method.
pub proof fn law_permitted_is_granted(
    config: &Config,
    method: Seq<char>,
    path: Seq<char>,
    secret: Seq<char>,
    i: usize,
    r: int,
)
    requires
        path != HEALTH_PATH@,
        config.is_first_key(secret, i as int),
        0 <= r < config.api_keys@[i as int].rules@.len(),
        config.api_keys@[i as int].rules@[r].grants_method(method),
        config.api_keys@[i as int].rules@[r].grants_path(path),
    ensures
        verdict(config, method, path, Some(secret)) == Verdict::Granted(i),
{
    config.lemma_key_position(secret);
    assert(config.api_keys@[i as int].rules@[r].grants(method, path));
}

/// Missing and unknown keys are answered `401 Unauthorized`; a known key
/// that no rule permits is answered `403 Forbidden`.
pub proof fn law_status_codes(d: Denial)
    ensures
        d == Denial::MissingKey ==> d.status_code() == 401,
        d == Denial::InvalidKey ==> d.status_code() == 401,
        d == Denial::NotPermitted ==> d.status_code() == 403,
{
}

} // verus!
