use bosun::auth::{authorize, Denial, Verdict, API_KEY_HEADER, HEALTH_PATH};
use bosun::config::{default_connect_timeout, default_listen, ApiKey, Config, Frigate, Rule};

fn rule(methods: &[&str], paths: &[&str]) -> Rule {
    Rule {
        methods: methods.iter().map(|s| s.to_string()).collect(),
        paths: paths.iter().map(|s| s.to_string()).collect(),
    }
}

/// A "viewer" with GET/HEAD on events and snapshots, and a "poster" that may
/// only POST to one path.
fn gateway_config() -> Config {
    Config {
        listen: "127.0.0.1:0".into(),
        connect_timeout: default_connect_timeout(),
        frigate: Frigate { url: "http://127.0.0.1:5000".into() },
        api_keys: vec![
            ApiKey {
                key: "viewer-key".into(),
                name: "viewer".into(),
                rules: vec![rule(&["GET", "HEAD"], &["/api/events", "/api/*/latest.*"])],
            },
            ApiKey {
                key: "poster-key".into(),
                name: "poster".into(),
                rules: vec![rule(&["POST"], &["/api/reviews/viewed"])],
            },
        ],
    }
}

#[test]
fn header_and_health_names() {
    assert_eq!(API_KEY_HEADER, "x-api-key");
    assert_eq!(HEALTH_PATH, "/healthz");
}

#[test]
fn verdict_missing_key() {
    let cfg = gateway_config();
    let v = authorize(&cfg, "GET", "/api/events", None);
    assert_eq!(v, Verdict::Denied(Denial::MissingKey));
    assert_eq!(Denial::MissingKey.status(), 401);
    assert_eq!(Denial::MissingKey.message(), "missing X-API-Key header");
}

#[test]
fn verdict_unknown_key() {
    let cfg = gateway_config();
    let v = authorize(&cfg, "GET", "/api/events", Some("nope"));
    assert_eq!(v, Verdict::Denied(Denial::InvalidKey));
    assert_eq!(Denial::InvalidKey.status(), 401);
    assert_eq!(Denial::InvalidKey.message(), "invalid API key");
}

#[test]
fn verdict_allowed_requests() {
    let cfg = gateway_config();
    assert_eq!(authorize(&cfg, "GET", "/api/events", Some("viewer-key")), Verdict::Granted(0));
    assert_eq!(
        authorize(&cfg, "GET", "/api/front_door/latest.jpg", Some("viewer-key")),
        Verdict::Granted(0)
    );
    assert_eq!(authorize(&cfg, "HEAD", "/api/events", Some("viewer-key")), Verdict::Granted(0));
}

#[test]
fn verdict_forbidden_requests() {
    let cfg = gateway_config();
    assert_eq!(
        authorize(&cfg, "POST", "/api/events", Some("viewer-key")),
        Verdict::Denied(Denial::NotPermitted)
    );
    assert_eq!(
        authorize(&cfg, "GET", "/api/config", Some("viewer-key")),
        Verdict::Denied(Denial::NotPermitted)
    );
    assert_eq!(Denial::NotPermitted.status(), 403);
    assert_eq!(
        Denial::NotPermitted.message(),
        "not permitted: no allow rule matches this method and path"
    );
}

#[test]
fn verdict_rules_are_scoped_per_key() {
    let cfg = gateway_config();
    assert_eq!(
        authorize(&cfg, "POST", "/api/reviews/viewed", Some("poster-key")),
        Verdict::Granted(1)
    );
    assert_eq!(
        authorize(&cfg, "GET", "/api/reviews/viewed", Some("poster-key")),
        Verdict::Denied(Denial::NotPermitted)
    );
    assert_eq!(
        authorize(&cfg, "GET", "/api/events", Some("poster-key")),
        Verdict::Denied(Denial::NotPermitted)
    );
}

#[test]
fn verdict_health_check_needs_no_key() {
    let cfg = gateway_config();
    assert_eq!(authorize(&cfg, "GET", "/healthz", None), Verdict::Exempt);
    assert_eq!(authorize(&cfg, "POST", "/healthz", Some("nope")), Verdict::Exempt);
    // Only the exact path is exempt.
    assert_eq!(
        authorize(&cfg, "GET", "/healthz/", None),
        Verdict::Denied(Denial::MissingKey)
    );
}

#[test]
fn verdict_without_keys_denies_everyone() {
    let cfg = Config {
        listen: default_listen(),
        connect_timeout: 10,
        frigate: Frigate { url: "http://x".into() },
        api_keys: vec![],
    };
    assert_eq!(authorize(&cfg, "GET", "/", Some("")), Verdict::Denied(Denial::InvalidKey));
}
