use bosun::config::{default_connect_timeout, default_listen, glob_match, ApiKey, Config, Frigate, Rule};

fn key_with(methods: &[&str], paths: &[&str]) -> ApiKey {
    ApiKey {
        key: "secret".into(),
        name: "test".into(),
        rules: vec![Rule {
            methods: methods.iter().map(|s| s.to_string()).collect(),
            paths: paths.iter().map(|s| s.to_string()).collect(),
        }],
    }
}

fn strings(v: &serde_json::Value) -> Vec<String> {
    v.as_array()
        .map(|a| a.iter().map(|s| s.as_str().unwrap().to_string()).collect())
        .unwrap_or_default()
}

/// Builds a configuration from its JSON text by hand, with the defaults of
/// the library for the fields the text leaves out. The server reads its file
/// with serde in `app/`; that parsing is not exercised here, only the
/// defaults, `find_key` and `permits` on the configuration built.
fn config_from_json(text: &str) -> Config {
    let v: serde_json::Value = serde_json::from_str(text).unwrap();
    let api_keys = v["api_keys"]
        .as_array()
        .map(|keys| {
            keys.iter()
                .map(|k| ApiKey {
                    key: k["key"].as_str().unwrap().to_string(),
                    name: k["name"].as_str().unwrap_or("").to_string(),
                    rules: k["rules"]
                        .as_array()
                        .map(|rules| {
                            rules
                                .iter()
                                .map(|r| Rule { methods: strings(&r["methods"]), paths: strings(&r["paths"]) })
                                .collect()
                        })
                        .unwrap_or_default(),
                })
                .collect()
        })
        .unwrap_or_default();
    Config {
        listen: v["listen"].as_str().map(|s| s.to_string()).unwrap_or_else(default_listen),
        connect_timeout: v["connect_timeout"].as_u64().unwrap_or_else(default_connect_timeout),
        frigate: Frigate { url: v["frigate"]["url"].as_str().unwrap().to_string() },
        api_keys,
    }
}

#[test]
fn default_deny_without_rules() {
    let key = ApiKey {
        key: "s".into(),
        name: "n".into(),
        rules: vec![],
    };
    assert!(!key.permits("GET", "/api/events"));
}

#[test]
fn allows_matching_verb_and_path() {
    let key = key_with(&["GET", "HEAD"], &["/api/events", "/api/*/latest.jpg"]);
    assert!(key.permits("GET", "/api/events"));
    assert!(key.permits("get", "/api/events")); // case-insensitive
    assert!(key.permits("HEAD", "/api/front_door/latest.jpg"));
}

#[test]
fn denies_wrong_verb() {
    let key = key_with(&["GET"], &["/api/events"]);
    assert!(!key.permits("POST", "/api/events"));
    assert!(!key.permits("DELETE", "/api/events"));
}

#[test]
fn denies_unlisted_path() {
    let key = key_with(&["GET"], &["/api/events"]);
    assert!(!key.permits("GET", "/api/config"));
    assert!(!key.permits("GET", "/api/events/17/thumbnail.jpg"));
}

#[test]
fn method_wildcard() {
    let key = key_with(&["*"], &["/api/config"]);
    assert!(key.permits("GET", "/api/config"));
    assert!(key.permits("POST", "/api/config"));
}

#[test]
fn multiple_rules_are_unioned() {
    let key = ApiKey {
        key: "s".into(),
        name: "n".into(),
        rules: vec![
            Rule {
                methods: vec!["GET".into()],
                paths: vec!["/api/events".into()],
            },
            Rule {
                methods: vec!["POST".into()],
                paths: vec!["/api/events/*/retain".into()],
            },
        ],
    };
    assert!(key.permits("GET", "/api/events"));
    assert!(key.permits("POST", "/api/events/17/retain"));
    assert!(!key.permits("POST", "/api/events")); // POST only on the retain path
    assert!(!key.permits("GET", "/api/events/17/retain")); // GET only on /api/events
}

#[test]
fn glob_within_segment() {
    assert!(glob_match("/api/*/latest.*", "/api/front_door/latest.jpg"));
    assert!(!glob_match("/api/*/latest.*", "/api/front_door/recordings"));
    assert!(glob_match("/api/**", "/api/events/1/thumbnail.jpg"));
    assert!(!glob_match("/api/*/latest.jpg", "/api/a/b/latest.jpg"));
}

#[test]
fn parses_config_and_resolves_rules() {
    let cfg = config_from_json(
        r#"{
            "listen": "0.0.0.0:9000",
            "frigate": { "url": "http://frigate:5000" },
            "api_keys": [
                { "name": "viewer", "key": "abc",
                  "rules": [ { "methods": ["GET"], "paths": ["/api/events"] } ] }
            ]
        }"#,
    );

    assert_eq!(cfg.listen, "0.0.0.0:9000");
    assert_eq!(cfg.frigate.url, "http://frigate:5000");

    let key = cfg.find_key("abc").expect("key resolves");
    assert_eq!(key.name, "viewer");
    assert!(key.permits("GET", "/api/events"));
    assert!(!key.permits("POST", "/api/events"));
    assert!(cfg.find_key("wrong-secret").is_none());
}

#[test]
fn listen_defaults_and_keys_optional() {
    let cfg = config_from_json(r#"{ "frigate": { "url": "http://x:5000" } }"#);
    assert_eq!(cfg.listen, "0.0.0.0:8080");
    assert_eq!(cfg.connect_timeout, 10);
    assert!(cfg.api_keys.is_empty());
}

#[test]
fn defaults_are_exact() {
    assert_eq!(default_listen(), "0.0.0.0:8080");
    assert_eq!(default_connect_timeout(), 10);
}

#[test]
fn find_key_takes_the_first_of_equal_secrets() {
    let mut first = key_with(&["GET"], &["/a"]);
    first.name = "first".into();
    let mut second = key_with(&["GET"], &["/b"]);
    second.name = "second".into();
    let cfg = Config {
        listen: default_listen(),
        connect_timeout: 10,
        frigate: Frigate { url: "http://x".into() },
        api_keys: vec![key_with(&["GET"], &["/c"]), first, second],
    };
    assert_eq!(cfg.find_key("secret").unwrap().name, "test");
    assert_eq!(cfg.find_key_index("secret"), Some(0));
    assert_eq!(cfg.find_key_index("secre"), None);
    assert_eq!(cfg.find_key_index("secret2"), None);
    assert!(cfg.find_key("").is_none());
}

#[test]
fn find_key_index_skips_other_secrets() {
    let mut a = key_with(&["GET"], &["/a"]);
    a.key = "alpha".into();
    let mut b = key_with(&["GET"], &["/b"]);
    b.key = "beta".into();
    let cfg = Config {
        listen: default_listen(),
        connect_timeout: 10,
        frigate: Frigate { url: "http://x".into() },
        api_keys: vec![a, b],
    };
    assert_eq!(cfg.find_key_index("beta"), Some(1));
    assert_eq!(cfg.find_key("beta").unwrap().key, "beta");
    assert_eq!(cfg.find_key_index("Beta"), None); // secrets are case-sensitive
}

#[test]
fn method_match_is_ascii_case_only() {
    let key = key_with(&["GeT"], &["/x"]);
    assert!(key.permits("gEt", "/x"));
    assert!(!key.permits("GETS", "/x"));
    assert!(!key.permits("GE", "/x"));
    let key = key_with(&["ÄB"], &["/x"]);
    assert!(key.permits("Äb", "/x"));
    assert!(!key.permits("äb", "/x")); // only ASCII letters fold
}

#[test]
fn rule_needs_both_method_and_path() {
    let key = key_with(&["GET"], &[]);
    assert!(!key.permits("GET", "/anything"));
    let key = key_with(&[], &["/**"]);
    assert!(!key.permits("GET", "/anything"));
    let key = key_with(&["*"], &["/**"]);
    assert!(key.permits("PATCH", "/anything/at/all"));
    assert!(key.permits("", "/"));
}

#[test]
fn star_is_literal_in_a_longer_method_entry() {
    let key = key_with(&["G*"], &["/x"]);
    assert!(!key.permits("GET", "/x"));
    assert!(key.permits("g*", "/x"));
}

#[test]
fn method_and_path_must_share_a_rule() {
    let key = ApiKey {
        key: "s".into(),
        name: "n".into(),
        rules: vec![
            Rule { methods: vec!["GET".into()], paths: vec!["/a".into()] },
            Rule { methods: vec!["POST".into()], paths: vec!["/b".into()] },
        ],
    };
    assert!(!key.permits("GET", "/b"));
    assert!(!key.permits("POST", "/a"));
    assert!(key.permits("POST", "/b"));
}
