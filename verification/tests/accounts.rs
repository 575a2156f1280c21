use example_monitoring_web::accounts::settings_decision;
use example_monitoring_web::accounts::{
    check_registration, has_prefix, login_user_id, registration_outcome, settings_form_values,
    settings_update,
    FieldValue, User,
};
use example_monitoring_web::http::parse_query;

fn user(hash: &str, id: i64) -> User {
    User::from_map(vec![
        ("id".to_string(), FieldValue::Integer(id)),
        ("org_id".to_string(), FieldValue::Real(Some(4))),
        ("username".to_string(), FieldValue::Text("alice".to_string())),
        ("password_hash".to_string(), FieldValue::Text(hash.to_string())),
        ("webhook_url".to_string(), FieldValue::Null),
        ("notification_provider".to_string(), FieldValue::Text("slack".to_string())),
    ])
}

const ONE_ROUND: &str =
    "pbkdf2_sha256$1$73616c74$120fb6cffcf8b32c43e7225256c4f837a86548c92ccc35480805987cb70be17b";

#[test]
fn user_columns() {
    let u = user("h", 3);
    assert_eq!(u.get_i64("id"), Some(3));
    assert_eq!(u.get_i64("org_id"), Some(4));
    assert_eq!(u.get_i64("username"), None);
    assert_eq!(u.get_str("username"), Some("alice"));
    assert_eq!(u.get_str("id"), None);
    assert_eq!(u.get_str("missing"), None);
    assert_eq!(u.template_map().len(), 6);
    let later = User::from_map(vec![
        ("id".to_string(), FieldValue::Integer(1)),
        ("id".to_string(), FieldValue::Integer(2)),
    ]);
    assert_eq!(later.get_i64("id"), Some(2));
}

#[test]
fn login_needs_matching_password() {
    let u = user(ONE_ROUND, 11);
    assert_eq!(login_user_id(Some(&u), "password"), Some(11));
    assert_eq!(login_user_id(Some(&u), "nope"), None);
    assert_eq!(login_user_id(None, "password"), None);
    let no_hash = User::from_map(vec![("id".to_string(), FieldValue::Integer(1))]);
    assert_eq!(login_user_id(Some(&no_hash), "password"), None);
}

#[test]
fn registration_messages() {
    assert_eq!(check_registration(" ", "bob", "password1", "password1"), Err("All fields are required.".to_string()));
    assert_eq!(check_registration("Org", "  ", "password1", "password1"), Err("All fields are required.".to_string()));
    assert_eq!(check_registration("Org", "bob", "", ""), Err("All fields are required.".to_string()));
    assert_eq!(
        check_registration("Org", " bo ", "password1", "password1"),
        Err("Username must be at least 3 characters.".to_string())
    );
    assert_eq!(check_registration("Org", "bé", "password1", "password1"), Ok(("Org".to_string(), "bé".to_string())));
    assert_eq!(
        check_registration("Org", "bob", "short", "short"),
        Err("Password must be at least 8 characters.".to_string())
    );
    assert_eq!(
        check_registration("Org", "bob", "password1", "password2"),
        Err("Passwords do not match.".to_string())
    );
    assert_eq!(
        check_registration(" Org ", " bob ", "password1", "password1"),
        Ok(("Org".to_string(), "bob".to_string()))
    );
}

#[test]
fn settings_decisions() {
    let ok = settings_update(" Slack ", " https://hooks.example/x ");
    assert_eq!(ok.error, "");
    assert_eq!(ok.provider.as_deref(), Some("slack"));
    assert_eq!(ok.webhook_url.as_deref(), Some("https://hooks.example/x"));
    let none = settings_update("", "https://ignored");
    assert_eq!(none.error, "");
    assert_eq!(none.provider, None);
    assert_eq!(none.webhook_url, None);
    let bad = settings_update("teams", "https://x");
    assert_eq!(bad.error, "Choose Slack or Discord.");
    assert_eq!(bad.provider.as_deref(), Some("teams"));
    let http = settings_update("DISCORD", "http://x");
    assert_eq!(http.error, "Webhook URL must use HTTPS.");
    assert_eq!(http.provider.as_deref(), Some("discord"));
}

#[test]
fn settings_page_values() {
    let u = user("h", 1);
    let (p, w, saved) = settings_form_values(&u, &parse_query("saved=1"));
    assert_eq!(p, "slack");
    assert_eq!(w, "");
    assert!(saved);
    let (_, _, not_saved) = settings_form_values(&u, &parse_query("saved=yes"));
    assert!(!not_saved);
    assert!(has_prefix("https://x", "https://"));
    assert!(!has_prefix("http", "https://"));
}

#[test]
fn settings_decision_on_lowercased_provider() {
    let d = settings_decision("discord".to_string(), "  https://d.example/hook ");
    assert_eq!(d.error, "");
    assert_eq!(d.webhook_url.as_deref(), Some("https://d.example/hook"));
    let upper = settings_decision("Slack".to_string(), "https://x");
    assert_eq!(upper.error, "Choose Slack or Discord.");
    let empty = settings_decision(String::new(), "http://x");
    assert_eq!(empty.error, "");
    assert_eq!(empty.webhook_url, None);
}

#[test]
fn template_map_keeps_each_column() {
    let u = User::from_map(vec![
        ("id".to_string(), FieldValue::Integer(7)),
        ("score".to_string(), FieldValue::Real(None)),
        ("ratio".to_string(), FieldValue::Real(Some(2))),
        ("name".to_string(), FieldValue::Text("bob".to_string())),
        ("note".to_string(), FieldValue::Null),
    ]);
    let cols = u.template_map();
    assert_eq!(cols.len(), 5);
    assert_eq!(cols[0].0, "id");
    assert!(matches!(cols[0].1, FieldValue::Integer(7)));
    assert_eq!(cols[1].0, "score");
    assert!(matches!(cols[1].1, FieldValue::Real(None)));
    assert_eq!(cols[2].0, "ratio");
    assert!(matches!(cols[2].1, FieldValue::Real(Some(2))));
    assert_eq!(cols[3].0, "name");
    assert!(matches!(&cols[3].1, FieldValue::Text(s) if s == "bob"));
    assert_eq!(cols[4].0, "note");
    assert!(matches!(cols[4].1, FieldValue::Null));
}

#[test]
fn login_refusal_same_for_unknown_user_and_wrong_password() {
    let u = user(ONE_ROUND, 11);
    let unknown = login_user_id(None, "nope");
    let wrong = login_user_id(Some(&u), "nope");
    assert_eq!(unknown, None);
    assert_eq!(unknown, wrong);
}

#[test]
fn registration_outcomes() {
    assert_eq!(registration_outcome(true, None), Err("Username is already taken.".to_string()));
    assert_eq!(registration_outcome(true, Some(3)), Err("Username is already taken.".to_string()));
    assert_eq!(registration_outcome(false, None), Err("Could not create account.".to_string()));
    assert_eq!(registration_outcome(false, Some(3)), Ok(3));
}
