use example_monitoring_web::config::Config;
use example_monitoring_web::http::RequestContext;
use example_monitoring_web::response::{delete_cookie, security_headers, set_cookie, AppResponse};

fn config(cors: Option<&str>, secure: bool) -> Config {
    Config::from_values(
        "/app".to_string(),
        None,
        Some("s3cret".to_string()),
        None,
        None,
        Some(if secure { "1" } else { "0" }.to_string()),
        cors.map(str::to_string),
    )
}

fn values<'a>(r: &'a AppResponse, name: &str) -> Vec<&'a str> {
    r.headers().iter().filter(|(n, _)| n == name).map(|(_, v)| v.as_str()).collect()
}

fn ctx(origin: Option<&str>) -> RequestContext {
    RequestContext::from_parts_at(Some("em_csrf=tok"), origin, b"s3cret", 0, String::new())
}

#[test]
fn security_header_values() {
    let h = security_headers();
    assert_eq!(h.len(), 5);
    assert_eq!(h[0], ("x-content-type-options".to_string(), "nosniff".to_string()));
    assert_eq!(h[1], ("x-frame-options".to_string(), "DENY".to_string()));
    assert_eq!(h[4].1, "camera=(), microphone=(), geolocation=()");
}

#[test]
fn set_cookie_text() {
    assert_eq!(
        set_cookie("em_csrf", "tok", 1209600, false),
        "em_csrf=tok; Path=/; HttpOnly; SameSite=Lax; Max-Age=1209600"
    );
    assert_eq!(
        set_cookie("a", "b", 5, true),
        "a=b; Path=/; HttpOnly; SameSite=Lax; Max-Age=5; Secure"
    );
    assert_eq!(set_cookie("a", "bad\nvalue", 5, true), "");
    assert_eq!(delete_cookie("em_session", false), "em_session=; Path=/; HttpOnly; SameSite=Lax; Max-Age=0");
}

#[test]
fn html_page_headers() {
    let r = AppResponse::html(&config(None, false), &ctx(None), "<p>hi</p>".to_string(), true);
    assert_eq!(r.status(), 200);
    assert_eq!(r.body(), "<p>hi</p>");
    assert_eq!(values(&r, "content-type"), vec!["text/html; charset=utf-8"]);
    assert_eq!(
        values(&r, "set-cookie"),
        vec!["em_csrf=tok; Path=/; HttpOnly; SameSite=Lax; Max-Age=1209600"]
    );
    assert_eq!(values(&r, "x-frame-options"), vec!["DENY"]);
    assert!(values(&r, "access-control-allow-origin").is_empty());
    let no_cookie = AppResponse::html(&config(None, false), &ctx(None), String::new(), false);
    assert!(values(&no_cookie, "set-cookie").is_empty());
}

#[test]
fn cors_only_for_configured_origin() {
    let cfg = config(Some("https://ok.example"), false);
    let r = AppResponse::text(&cfg, &ctx(Some("https://ok.example")), 200, "ok");
    assert_eq!(values(&r, "access-control-allow-origin"), vec!["https://ok.example"]);
    assert_eq!(values(&r, "access-control-allow-credentials"), vec!["true"]);
    assert_eq!(values(&r, "vary"), vec!["Origin"]);
    let other = AppResponse::text(&cfg, &ctx(Some("https://evil.example")), 200, "ok");
    assert!(values(&other, "access-control-allow-origin").is_empty());
    assert!(values(&other, "vary").is_empty());
}

#[test]
fn text_forbidden_and_not_found() {
    let cfg = config(None, false);
    let f = AppResponse::forbidden(&cfg, &ctx(None), "Invalid CSRF token");
    assert_eq!(f.status(), 403);
    assert_eq!(f.body(), "Invalid CSRF token");
    assert_eq!(values(&f, "content-type"), vec!["text/plain; charset=utf-8"]);
    let n = AppResponse::not_found(&cfg, &ctx(None));
    assert_eq!(n.status(), 404);
    assert_eq!(n.body(), "Not Found");
    assert_eq!(values(&n, "x-content-type-options"), vec!["nosniff"]);
}

#[test]
fn redirects() {
    let cfg = config(None, true);
    let r = AppResponse::redirect(&cfg, &ctx(None), "/sites");
    assert_eq!(r.status(), 302);
    assert_eq!(values(&r, "location"), vec!["/sites"]);
    assert_eq!(r.body(), "");
    let bad = AppResponse::redirect(&cfg, &ctx(None), "/x\ny");
    assert_eq!(values(&bad, "location"), vec!["/"]);
    let out = AppResponse::clear_session_redirect(&cfg, &ctx(None), "/");
    assert_eq!(
        values(&out, "set-cookie"),
        vec!["em_session=; Path=/; HttpOnly; SameSite=Lax; Max-Age=0; Secure"]
    );
}

#[test]
fn sign_in_redirect_sets_a_session_for_the_user() {
    let cfg = config(None, false);
    let r = AppResponse::redirect_with_session_at(&cfg, &ctx(None), "/sites", 17, 5000);
    let cookies = values(&r, "set-cookie");
    assert_eq!(cookies.len(), 1);
    let value = cookies[0].strip_prefix("em_session=").unwrap();
    let value = value.split(';').next().unwrap();
    assert!(cookies[0].ends_with("; Max-Age=1209600"));
    let back = RequestContext::from_parts_at(
        Some(&format!("em_session={}", value)),
        None,
        b"s3cret",
        5000,
        String::new(),
    );
    assert_eq!(back.user_id(), Some(17));
    let now = AppResponse::redirect_with_session(&cfg, &ctx(None), "/sites", 17);
    assert_eq!(values(&now, "location"), vec!["/sites"]);
}
