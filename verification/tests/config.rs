use example_monitoring_web::config::{join_path, Config};

#[test]
fn defaults_apply_when_values_are_missing() {
    let c = Config::from_values("/srv/app".to_string(), None, None, None, None, None, None);
    assert_eq!(c.database_path, "/srv/app/data/monitoring.db");
    assert_eq!(c.secret_key, b"dev-secret-change-me".to_vec());
    assert_eq!(c.host, "0.0.0.0");
    assert_eq!(c.port, 8000);
    assert!(!c.cookie_secure);
    assert_eq!(c.cors_allow_origin, None);
    assert_eq!(c.queries_dir(), "/srv/app/db/queries");
    assert_eq!(c.templates_dir(), "/srv/app/templates");
}

#[test]
fn given_values_are_used() {
    let c = Config::from_values(
        "..".to_string(),
        Some("/tmp/x.db".to_string()),
        Some("k".to_string()),
        Some("127.0.0.1".to_string()),
        Some("8080".to_string()),
        Some("1".to_string()),
        Some("https://a.example".to_string()),
    );
    assert_eq!(c.database_path, "/tmp/x.db");
    assert_eq!(c.secret_key, b"k".to_vec());
    assert_eq!(c.host, "127.0.0.1");
    assert_eq!(c.port, 8080);
    assert!(c.cookie_secure);
    assert_eq!(c.cors_allow_origin.as_deref(), Some("https://a.example"));
    assert_eq!(c.templates_dir(), "../templates");
}

#[test]
fn bad_port_and_flags_fall_back() {
    let c = Config::from_values(
        "r/".to_string(),
        None,
        None,
        None,
        Some("70000".to_string()),
        Some("true".to_string()),
        None,
    );
    assert_eq!(c.port, 8000);
    assert!(!c.cookie_secure);
    assert_eq!(c.database_path, "r/data/monitoring.db");
}

#[test]
fn join_path_separators() {
    assert_eq!(join_path("", "templates"), "templates");
    assert_eq!(join_path("/", "templates"), "/templates");
    assert_eq!(join_path("a", "b/c"), "a/b/c");
}
