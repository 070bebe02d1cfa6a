//! The gateway's configuration and its default-deny allow rules.
use vstd::prelude::*;

use crate::glob::{glob_matches, match_segments, split_segments};
use crate::text::{eq_ignore_ascii_case, str_eq, str_eq_ignore_ascii_case};

verus! {

/// The gateway's configuration.
pub struct Config {
    /// Address the gateway listens on.
    pub listen: String,
    /// Seconds to wait when opening a connection to Frigate before giving up.
    /// Bounds connection setup only, so it never truncates streamed responses.
    pub connect_timeout: u64,
    /// The upstream Frigate instance.
    pub frigate: Frigate,
    /// The callers that may reach Frigate, one entry per key.
    pub api_keys: Vec<ApiKey>,
}

/// Where the upstream Frigate instance lives.
pub struct Frigate {
    /// Base URL of the Frigate instance.
    pub url: String,
}

/// One caller: its secret, a name for the logs, and its allow rules.
pub struct ApiKey {
    /// The secret the caller sends in the `X-API-Key` header.
    pub key: String,
    /// A name for the caller, used in the logs.
    pub name: String,
    /// Allow rules for this key. Default-deny: a request is permitted only if
    /// at least one rule matches both its method and its path.
    pub rules: Vec<Rule>,
}

/// An allow rule binding a set of HTTP methods to a set of path patterns.
pub struct Rule {
    /// HTTP methods this rule grants (case-insensitive). `"*"` matches any.
    pub methods: Vec<String>,
    /// Path glob patterns this rule grants. `*` matches within a single
    /// segment, `**` matches any number of segments.
    pub paths: Vec<String>,
}

/// The address listened on when the configuration names none.
pub fn default_listen() -> (listen: String)
    ensures
        listen@ == "0.0.0.0:8080"@,
{
    String::from_str("0.0.0.0:8080")
}

/// The connect timeout, in seconds, when the configuration names none.
pub fn default_connect_timeout() -> (secs: u64)
    ensures
        secs == 10,
{
    10
}

/// A granted method entry `granted` covers the request method `method`:
/// it is `*`, or the same verb up to ASCII case.
pub open spec fn method_granted(granted: Seq<char>, method: Seq<char>) -> bool {
    granted == seq!['*'] || eq_ignore_ascii_case(granted, method)
}

impl Rule {
    /// Some method entry of the rule covers `method`.
    pub open spec fn grants_method(&self, method: Seq<char>) -> bool {
        exists|i: int| 0 <= i < self.methods@.len() && method_granted(#[trigger] self.methods@[i]@, method)
    }

    /// Some path pattern of the rule matches `path`.
    pub open spec fn grants_path(&self, path: Seq<char>) -> bool {
        exists|i: int| 0 <= i < self.paths@.len() && glob_matches(#[trigger] self.paths@[i]@, path)
    }

    /// The rule grants the request: it covers both its method and its path.
    pub open spec fn grants(&self, method: Seq<char>, path: Seq<char>) -> bool {
        self.grants_method(method) && self.grants_path(path)
    }

    /// True if this rule covers both `method` and `path`.
    fn permits(&self, method: &str, path: &str) -> (allowed: bool)
        ensures
            allowed == self.grants(method@, path@),
    {
        self.allows_method(method) && self.allows_path(path)
    }

    /// True if some method entry is `*` or names `method` up to ASCII case.
    fn allows_method(&self, method: &str) -> (allowed: bool)
        ensures
            allowed == self.grants_method(method@),
    {
        let n = self.methods.len();
        let mut i: usize = 0;
        while i < n
            invariant
                n == self.methods@.len(),
                i <= n,
                forall|k: int| 0 <= k < i ==> !method_granted(#[trigger] self.methods@[k]@, method@),
            decreases n - i,
        {
            let m = self.methods[i].as_str();
            if str_eq(m, "*") || str_eq_ignore_ascii_case(m, method) {
                proof {
                    reveal_strlit("*");
                    assert("*"@ =~= seq!['*']);
                    assert(method_granted(self.methods@[i as int]@, method@));
                }
                return true;
            }
            proof {
                reveal_strlit("*");
                assert("*"@ =~= seq!['*']);
            }
            i = i + 1;
        }
        false
    }

    /// True if some path pattern of the rule matches `path`.
    fn allows_path(&self, path: &str) -> (allowed: bool)
        ensures
            allowed == self.grants_path(path@),
    {
        let n = self.paths.len();
        let mut i: usize = 0;
        while i < n
            invariant
                n == self.paths@.len(),
                i <= n,
                forall|k: int| 0 <= k < i ==> !glob_matches(#[trigger] self.paths@[k]@, path@),
            decreases n - i,
        {
            if glob_match(self.paths[i].as_str(), path) {
                return true;
            }
            i = i + 1;
        }
        false
    }
}

impl ApiKey {
    /// Some rule of the key grants the request.
    pub open spec fn grants(&self, method: Seq<char>, path: Seq<char>) -> bool {
        exists|r: int| 0 <= r < self.rules@.len() && #[trigger] self.rules@[r].grants(method, path)
    }

    /// True if any rule permits this method + path. Default-deny otherwise.
    pub fn permits(&self, method: &str, path: &str) -> (allowed: bool)
        ensures
            allowed == self.grants(method@, path@),
    {
        let n = self.rules.len();
        let mut i: usize = 0;
        while i < n
            invariant
                n == self.rules@.len(),
                i <= n,
                forall|k: int| 0 <= k < i ==> !#[trigger] self.rules@[k].grants(method@, path@),
            decreases n - i,
        {
            if self.rules[i].permits(method, path) {
                return true;
            }
            i = i + 1;
        }
        false
    }
}

impl Config {
    /// Some key of the configuration has the secret `secret`.
    pub open spec fn has_key(&self, secret: Seq<char>) -> bool {
        exists|i: int| 0 <= i < self.api_keys@.len() && #[trigger] self.api_keys@[i].key@ == secret
    }

    /// `i` is the position of the first key whose secret is `secret`.
    pub open spec fn is_first_key(&self, secret: Seq<char>, i: int) -> bool {
        &&& 0 <= i < self.api_keys@.len()
        &&& self.api_keys@[i].key@ == secret
        &&& forall|j: int| 0 <= j < i ==> #[trigger] self.api_keys@[j].key@ != secret
    }

    /// The position of the first key whose secret is `secret`, if any.
    pub open spec fn key_position(&self, secret: Seq<char>) -> Option<int> {
        if self.has_key(secret) {
            Some(choose|i: int| self.is_first_key(secret, i))
        } else {
            None
        }
    }

    /// A secret that some key has has a first position, and only one.
    pub proof fn lemma_key_position(&self, secret: Seq<char>)
        ensures
            self.key_position(secret) matches Some(i) ==> self.is_first_key(secret, i),
            forall|i: int| #[trigger]
                self.is_first_key(secret, i) ==> self.key_position(secret) == Some(i),
    {
        if self.has_key(secret) {
            let w = choose|i: int| 0 <= i < self.api_keys@.len() && #[trigger] self.api_keys@[i].key@ == secret;
            let f = self.first_at_or_before(secret, w);
            assert(self.is_first_key(secret, f));
        }
        assert forall|i: int| #[trigger] self.is_first_key(secret, i) implies self.key_position(secret)
            == Some(i) by {
            let c = choose|c: int| self.is_first_key(secret, c);
            assert(self.is_first_key(secret, c));
            if c < i {
                assert(self.api_keys@[c].key@ != secret);
            }
            if i < c {
                assert(self.api_keys@[i].key@ != secret);
            }
        }
    }

    /// A key with the secret at `w` means a first one at or before `w`.
    proof fn first_at_or_before(&self, secret: Seq<char>, w: int) -> (f: int)
        requires
            0 <= w < self.api_keys@.len(),
            self.api_keys@[w].key@ == secret,
        ensures
            f <= w,
            self.is_first_key(secret, f),
        decreases w,
    {
        if exists|j: int| 0 <= j < w && #[trigger] self.api_keys@[j].key@ == secret {
            let j = choose|j: int| 0 <= j < w && #[trigger] self.api_keys@[j].key@ == secret;
            self.first_at_or_before(secret, j)
        } else {
            w
        }
    }

    /// The position of the first key whose secret is `secret`.
    pub fn find_key_index(&self, secret: &str) -> (found: Option<usize>)
        ensures
            found matches Some(i) ==> self.key_position(secret@) == Some(i as int),
            found is None ==> self.key_position(secret@) is None,
    {
        let n = self.api_keys.len();
        let mut i: usize = 0;
        while i < n
            invariant
                n == self.api_keys@.len(),
                i <= n,
                forall|j: int| 0 <= j < i ==> #[trigger] self.api_keys@[j].key@ != secret@,
            decreases n - i,
        {
            if str_eq(self.api_keys[i].key.as_str(), secret) {
                proof {
                    self.lemma_key_position(secret@);
                    assert(self.is_first_key(secret@, i as int));
                }
                return Some(i);
            }
            i = i + 1;
        }
        None
    }

    /// The first key whose secret is `secret`, if any.
    pub fn find_key(&self, secret: &str) -> (key: Option<&ApiKey>)
        ensures
            key == (match self.key_position(secret@) {
                Some(i) => Some(&self.api_keys@[i]),
                None => None,
            }),
    {
        proof {
            self.lemma_key_position(secret@);
        }
        match self.find_key_index(secret) {
            Some(i) => Some(&self.api_keys[i]),
            None => None,
        }
    }
}

/// Segment-based glob matcher. A `**` segment matches any number of path
/// segments; otherwise each pattern segment is matched against one path segment
/// with `*` acting as a wildcard for any run of characters within that segment
/// (e.g. `*` matches a whole segment, `latest.*` matches `latest.jpg`).
pub fn glob_match(pattern: &str, path: &str) -> (matched: bool)
    ensures
        matched == glob_matches(pattern@, path@),
{
    let pat = split_segments(pattern);
    let target = split_segments(path);
    let matched = match_segments(&pat, &target, 0, 0);
    proof {
        assert(crate::glob::views(pat@).skip(0) =~= crate::glob::views(pat@));
        assert(crate::glob::views(target@).skip(0) =~= crate::glob::views(target@));
    }
    matched
}

/// Default-deny: a key without rules is granted nothing.
pub proof fn law_no_rules_no_access(key: &ApiKey, method: Seq<char>, path: Seq<char>)
    requires
        key.rules@.len() == 0,
    ensures
        !key.grants(method, path),
{
}

/// The rules of a key are unioned: a key whose rules are those of `a`
/// followed by those of `b` grants exactly what `a` or `b` grants.
pub proof fn law_rules_are_unioned(
    a: &ApiKey,
    b: &ApiKey,
    joined: &ApiKey,
    method: Seq<char>,
    path: Seq<char>,
)
    requires
        joined.rules@ == a.rules@ + b.rules@,
    ensures
        joined.grants(method, path) == (a.grants(method, path) || b.grants(method, path)),
{
    let n = a.rules@.len();
    if joined.grants(method, path) {
        let r = choose|r: int|
            0 <= r < joined.rules@.len() && #[trigger] joined.rules@[r].grants(method, path);
        if r < n {
            assert(a.rules@[r] == joined.rules@[r]);
        } else {
            assert(b.rules@[r - n] == joined.rules@[r]);
        }
    }
    if a.grants(method, path) {
        let r = choose|r: int| 0 <= r < a.rules@.len() && #[trigger] a.rules@[r].grants(method, path);
        assert(joined.rules@[r] == a.rules@[r]);
    }
    if b.grants(method, path) {
        let r = choose|r: int| 0 <= r < b.rules@.len() && #[trigger] b.rules@[r].grants(method, path);
        assert(joined.rules@[r + n] == b.rules@[r]);
    }
}

/// A `*` method entry covers every method.
pub proof fn law_method_wildcard(rule: &Rule, i: int, method: Seq<char>)
    requires
        0 <= i < rule.methods@.len(),
        rule.methods@[i]@ == seq!['*'],
    ensures
        rule.grants_method(method),
{
    assert(method_granted(rule.methods@[i]@, method));
}

/// Methods are matched up to ASCII case: two spellings of one verb that
/// differ only in case are covered alike.
pub proof fn law_method_case_insensitive(rule: &Rule, m1: Seq<char>, m2: Seq<char>)
    requires
        eq_ignore_ascii_case(m1, m2),
    ensures
        rule.grants_method(m1) == rule.grants_method(m2),
{
    assert forall|g: Seq<char>| method_granted(g, m1) <==> method_granted(g, m2) by {
        if eq_ignore_ascii_case(g, m1) {
            assert forall|i: int| 0 <= i < g.len() implies crate::text::ascii_lower(#[trigger] g[i])
                == crate::text::ascii_lower(m2[i]) by {
                assert(crate::text::ascii_lower(m1[i]) == crate::text::ascii_lower(m2[i]));
            }
        }
        if eq_ignore_ascii_case(g, m2) {
            assert forall|i: int| 0 <= i < g.len() implies crate::text::ascii_lower(#[trigger] g[i])
                == crate::text::ascii_lower(m1[i]) by {
                assert(crate::text::ascii_lower(m1[i]) == crate::text::ascii_lower(m2[i]));
            }
        }
    }
    if rule.grants_method(m1) {
        let i = choose|i: int|
            0 <= i < rule.methods@.len() && method_granted(#[trigger] rule.methods@[i]@, m1);
        assert(method_granted(rule.methods@[i]@, m2));
    }
    if rule.grants_method(m2) {
        let i = choose|i: int|
            0 <= i < rule.methods@.len() && method_granted(#[trigger] rule.methods@[i]@, m2);
        assert(method_granted(rule.methods@[i]@, m1));
    }
}

/// A rule grants a request exactly when one of its method entries is `*`
/// or names the method up to ASCII case, and one of its path patterns
/// matches the path.
pub proof fn law_rule_needs_method_and_path(rule: &Rule, method: Seq<char>, path: Seq<char>)
    ensures
        rule.grants(method, path) == ((exists|i: int|
            0 <= i < rule.methods@.len() && (#[trigger] rule.methods@[i]@ == seq!['*']
                || eq_ignore_ascii_case(rule.methods@[i]@, method))) && (exists|j: int|
            0 <= j < rule.paths@.len() && glob_matches(#[trigger] rule.paths@[j]@, path))),
{
    if rule.grants_method(method) {
        let i = choose|i: int|
            0 <= i < rule.methods@.len() && method_granted(#[trigger] rule.methods@[i]@, method);
        assert(rule.methods@[i]@ == seq!['*'] || eq_ignore_ascii_case(rule.methods@[i]@, method));
    }
    if exists|i: int|
        0 <= i < rule.methods@.len() && (#[trigger] rule.methods@[i]@ == seq!['*']
            || eq_ignore_ascii_case(rule.methods@[i]@, method)) {
        let i = choose|i: int|
            0 <= i < rule.methods@.len() && (#[trigger] rule.methods@[i]@ == seq!['*']
                || eq_ignore_ascii_case(rule.methods@[i]@, method));
        assert(method_granted(rule.methods@[i]@, method));
    }
}

/// A rule without methods, or without path patterns, grants nothing.
pub proof fn law_empty_rule_grants_nothing(rule: &Rule, method: Seq<char>, path: Seq<char>)
    requires
        rule.methods@.len() == 0 || rule.paths@.len() == 0,
    ensures
        !rule.grants(method, path),
        rule.methods@.len() == 0 ==> !rule.grants_method(method),
        rule.paths@.len() == 0 ==> !rule.grants_path(path),
{
}

/// Method and path must match within one rule: a key grants a request only
/// through a rule that covers both; a method from one rule and a path from
/// another do not add up.
pub proof fn law_one_rule_for_both(key: &ApiKey, method: Seq<char>, path: Seq<char>)
    ensures
        key.grants(method, path) == exists|r: int|
            0 <= r < key.rules@.len() && #[trigger] key.rules@[r].grants_method(method)
                && key.rules@[r].grants_path(path),
{
    if key.grants(method, path) {
        let r = choose|r: int| 0 <= r < key.rules@.len() && #[trigger] key.rules@[r].grants(method, path);
        assert(key.rules@[r].grants_method(method));
    }
    if exists|r: int|
        0 <= r < key.rules@.len() && #[trigger] key.rules@[r].grants_method(method)
            && key.rules@[r].grants_path(path) {
        let r = choose|r: int|
            0 <= r < key.rules@.len() && #[trigger] key.rules@[r].grants_method(method)
                && key.rules@[r].grants_path(path);
        assert(key.rules@[r].grants(method, path));
    }
}

/// A method written in upper case is covered exactly when it is written
/// as given: `head` entries cover `HEAD`, `patch` entries cover `PATCH`.
pub proof fn law_method_any_case(rule: &Rule, method: Seq<char>)
    ensures
        rule.grants_method(method) == rule.grants_method(crate::text::ascii_uppercase(method)),
        rule.grants_method(crate::text::ascii_uppercase(method)) ==> rule.grants_method(method),
{
    crate::text::law_eq_ignore_case_uppercase(method);
    law_method_case_insensitive(rule, method, crate::text::ascii_uppercase(method));
}

/// A method entry covers every method written with the same letters in
/// any ASCII case, and the method itself.
pub proof fn law_entry_covers_its_method(granted: Seq<char>)
    ensures
        method_granted(granted, granted),
        method_granted(granted, crate::text::ascii_uppercase(granted)),
        method_granted(crate::text::ascii_uppercase(granted), granted),
{
    crate::text::law_eq_ignore_case_uppercase(granted);
}

/// `s` with its ASCII letters lower-cased.
pub open spec fn ascii_lowercase(s: Seq<char>) -> Seq<char> {
    s.map_values(|c: char| crate::text::ascii_lower(c))
}

/// A method entry covers a method exactly when the entry is `*`, or the two
/// read the same once their ASCII letters are lower-cased.
pub proof fn law_method_entry(granted: Seq<char>, method: Seq<char>)
    ensures
        method_granted(granted, method) <==> (granted == seq!['*'] || ascii_lowercase(granted)
            == ascii_lowercase(method)),
{
    let lg = ascii_lowercase(granted);
    let lm = ascii_lowercase(method);
    if eq_ignore_ascii_case(granted, method) {
        assert(lg =~= lm);
    }
    if lg == lm {
        assert(lg.len() == granted.len() && lm.len() == method.len());
        assert(granted.len() == method.len());
        assert forall|i: int| 0 <= i < granted.len() implies crate::text::ascii_lower(
            #[trigger] granted[i],
        ) == crate::text::ascii_lower(method[i]) by {
            assert(lg[i] == lm[i]);
        }
    }
}

} // verus!
