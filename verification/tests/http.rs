use example_monitoring_web::http::map_of_pairs;
use example_monitoring_web::http::{
    parse_cookies, parse_form, parse_query, validate_csrf, FormData, RequestContext,
};
use example_monitoring_web::kv::StrMap;
use example_monitoring_web::session::encode_session_at;

#[test]
fn cookies_are_split_and_trimmed() {
    let c = parse_cookies(Some(" em_csrf = tok ; em_session=a=b;flag; x=1; x=2"));
    assert_eq!(c.get("em_csrf").map(String::as_str), Some("tok"));
    assert_eq!(c.get("em_session").map(String::as_str), Some("a=b"));
    assert_eq!(c.get("flag"), None);
    assert_eq!(c.get("x").map(String::as_str), Some("2"));
    assert!(parse_cookies(None).is_empty());
    assert!(parse_cookies(Some("")).is_empty());
}

#[test]
fn form_fields_are_decoded() {
    let f = parse_form("username=al+ice&password=p%26w%3D&_csrf=t&username=bob");
    assert_eq!(f.get("username"), "bob");
    assert_eq!(f.get("password"), "p&w=");
    assert_eq!(f.get("missing"), "");
    let q = parse_query("saved=1");
    assert_eq!(q.get("saved").map(String::as_str), Some("1"));
}

fn ctx_with_token(token: &str) -> RequestContext {
    let cookie = format!("em_csrf={}", token);
    RequestContext::from_parts_at(Some(&cookie), None, b"k", 0, String::from("fresh"))
}

#[test]
fn csrf_check_needs_matching_nonempty_token() {
    let ctx = ctx_with_token("abc");
    assert!(validate_csrf(&ctx, &parse_form("_csrf=abc")));
    assert!(!validate_csrf(&ctx, &parse_form("_csrf=abd")));
    assert!(!validate_csrf(&ctx, &parse_form("other=abc")));
    let empty = RequestContext::from_parts_at(Some("em_csrf="), None, b"k", 0, String::new());
    assert!(!validate_csrf(&empty, &parse_form("_csrf=")));
    let mut values = StrMap::new();
    values.insert("_csrf".to_string(), "abc".to_string());
    assert!(validate_csrf(&ctx, &FormData { values }));
}

#[test]
fn context_reads_session_token_and_origin() {
    let mut session = example_monitoring_web::kv::SessionData::new();
    session.insert("user_id".to_string(), Some(9));
    let raw = encode_session_at(&session, b"k", 1000);
    let header = format!("em_session={}; em_csrf=tok", raw);
    let ctx = RequestContext::from_parts_at(Some(&header), Some("https://a.example"), b"k", 1000, String::from("fresh"));
    assert_eq!(ctx.user_id(), Some(9));
    assert_eq!(ctx.csrf_token, "tok");
    assert_eq!(ctx.origin.as_deref(), Some("https://a.example"));
    let fresh = RequestContext::from_parts_at(None, None, b"k", 0, String::from("fresh"));
    assert_eq!(fresh.csrf_token, "fresh");
    assert_eq!(fresh.user_id(), None);
}

#[test]
fn from_headers_makes_a_token_when_missing() {
    let ctx = RequestContext::from_headers(None, None, b"k");
    assert_eq!(ctx.csrf_token.len(), 43);
    let kept = RequestContext::from_headers(Some("em_csrf=mine"), None, b"k");
    assert_eq!(kept.csrf_token, "mine");
}

#[test]
fn later_pairs_replace_earlier_ones() {
    let m = map_of_pairs(vec![
        ("a".to_string(), "1".to_string()),
        ("b".to_string(), "2".to_string()),
        ("a".to_string(), "3".to_string()),
    ]);
    assert_eq!(m.get("a").map(String::as_str), Some("3"));
    assert_eq!(m.get("b").map(String::as_str), Some("2"));
    assert_eq!(m.get("c"), None);
}
