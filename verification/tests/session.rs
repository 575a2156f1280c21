use example_monitoring_web::session::unix_time_from;
use example_monitoring_web::session::session_from_doc;
use example_monitoring_web::json::Json;
use example_monitoring_web::kv::SessionData;
use example_monitoring_web::session::{
    decode_session, decode_session_at, encode_session, encode_session_at, new_csrf_token,
    sign_payload, verify_payload, SESSION_TTL_SECONDS,
};

#[test]
fn sign_payload_known_hmac() {
    let signed = sign_payload("The quick brown fox jumps over the lazy dog", b"key");
    assert_eq!(
        signed,
        "The quick brown fox jumps over the lazy dog.f7bc83f430538424b13298e6aa6fb143ef4d59a14946175997479dbc2d1a3cd8"
    );
}

#[test]
fn verify_payload_round_trip_and_tamper() {
    let signed = sign_payload("a.b.c", b"secret");
    assert_eq!(verify_payload(&signed, b"secret").as_deref(), Some("a.b.c"));
    assert_eq!(verify_payload(&signed, b"other"), None);
    let tampered = signed.replacen("a.b", "a.x", 1);
    assert_eq!(verify_payload(&tampered, b"secret"), None);
    assert_eq!(verify_payload("no-dot-here", b"secret"), None);
    assert_eq!(verify_payload("payload.nothex", b"secret"), None);
    let upper = {
        let (p, d) = signed.rsplit_once('.').unwrap();
        format!("{}.{}", p, d.to_uppercase())
    };
    assert_eq!(verify_payload(&upper, b"secret").as_deref(), Some("a.b.c"));
}

fn user_session(id: i64) -> SessionData {
    let mut s = SessionData::new();
    s.insert("user_id".to_string(), Some(id));
    s
}

#[test]
fn session_round_trip_until_expiry() {
    let now = 1_700_000_000;
    let raw = encode_session_at(&user_session(42), b"k", now);
    let back = decode_session_at(Some(&raw), b"k", now + SESSION_TTL_SECONDS);
    assert_eq!(back.get("user_id"), Some(Some(42)));
    let expired = decode_session_at(Some(&raw), b"k", now + SESSION_TTL_SECONDS + 1);
    assert_eq!(expired.get("user_id"), None);
    let wrong_key = decode_session_at(Some(&raw), b"other", now);
    assert_eq!(wrong_key.get("user_id"), None);
}

#[test]
fn session_payload_is_json() {
    let raw = encode_session_at(&user_session(7), b"k", 100);
    let (payload, _) = raw.rsplit_once('.').unwrap();
    assert_eq!(payload, "{\"data\":{\"user_id\":7},\"exp\":1209700}");
}

#[test]
fn decode_session_without_cookie_is_empty() {
    assert_eq!(decode_session(None, b"k").get("user_id"), None);
    assert_eq!(decode_session(Some("garbage"), b"k").get("user_id"), None);
}

#[test]
fn decode_session_reads_non_integer_members_as_none() {
    let payload = "{\"data\":{\"user_id\":\"5\",\"n\":3},\"exp\":500}";
    let raw = sign_payload(payload, b"k");
    let s = decode_session_at(Some(&raw), b"k", 10);
    assert_eq!(s.get("user_id"), Some(None));
    assert_eq!(s.get("n"), Some(Some(3)));
    let no_exp = sign_payload("{\"data\":{\"user_id\":1}}", b"k");
    assert_eq!(decode_session_at(Some(&no_exp), b"k", 0).get("user_id"), None);
}

#[test]
fn encode_then_decode_now() {
    let raw = encode_session(&user_session(3), b"k");
    assert_eq!(decode_session(Some(&raw), b"k").get("user_id"), Some(Some(3)));
}

#[test]
fn csrf_token_shape() {
    let t = new_csrf_token();
    assert_eq!(t.len(), 43);
    assert!(t.chars().all(|c| c.is_ascii_alphanumeric() || c == '-' || c == '_'));
    assert_ne!(t, new_csrf_token());
}

fn doc(exp: Option<i64>, data: Option<Json>) -> Json {
    let mut members = Vec::new();
    if let Some(d) = data {
        members.push(("data".to_string(), d));
    }
    if let Some(e) = exp {
        members.push(("exp".to_string(), Json::Number(Some(e))));
    }
    Json::Object(members)
}

fn user_data() -> Json {
    Json::Object(vec![
        ("user_id".to_string(), Json::Number(Some(5))),
        ("user_id".to_string(), Json::Number(Some(6))),
        ("name".to_string(), Json::Str("x".to_string())),
        ("ratio".to_string(), Json::Number(None)),
    ])
}

#[test]
fn session_from_parsed_document() {
    let s = session_from_doc(Some(doc(Some(100), Some(user_data()))), 100);
    assert_eq!(s.get("user_id"), Some(Some(6)));
    assert_eq!(s.get("name"), Some(None));
    assert_eq!(s.get("ratio"), Some(None));
    assert_eq!(s.get("other"), None);
    assert_eq!(session_from_doc(Some(doc(Some(99), Some(user_data()))), 100).get("user_id"), None);
    assert_eq!(session_from_doc(Some(doc(None, Some(user_data()))), 0).get("user_id"), None);
    assert_eq!(session_from_doc(Some(doc(Some(1), None)), 0).get("user_id"), None);
    assert_eq!(
        session_from_doc(Some(doc(Some(1), Some(Json::Array(vec![Json::Null])))), 0).get("user_id"),
        None
    );
    let text_exp = Json::Object(vec![
        ("data".to_string(), user_data()),
        ("exp".to_string(), Json::Str("100".to_string())),
    ]);
    assert_eq!(session_from_doc(Some(text_exp), 0).get("user_id"), None);
    assert_eq!(session_from_doc(Some(Json::Null), 0).get("user_id"), None);
    assert_eq!(session_from_doc(None, 0).get("user_id"), None);
}

#[test]
fn session_payload_with_null_and_nested_members() {
    let mut data = SessionData::new();
    data.insert("user_id".to_string(), Some(-4));
    data.insert("flash".to_string(), None);
    let raw = encode_session_at(&data, b"k", 0);
    let (payload, _) = raw.rsplit_once('.').unwrap();
    assert_eq!(payload, "{\"data\":{\"flash\":null,\"user_id\":-4},\"exp\":1209600}");
    let back = decode_session_at(Some(&raw), b"k", 5);
    assert_eq!(back.get("user_id"), Some(Some(-4)));
    assert_eq!(back.get("flash"), Some(None));
    let nested = sign_payload("{\"data\":{\"a\":[1],\"b\":{\"c\":2},\"d\":2.5},\"exp\":9}", b"k");
    let s = decode_session_at(Some(&nested), b"k", 9);
    assert_eq!(s.get("a"), Some(None));
    assert_eq!(s.get("b"), Some(None));
    assert_eq!(s.get("d"), Some(None));
}

#[test]
fn unix_time_from_clock_readings() {
    assert_eq!(unix_time_from(Some(1_700_000_000)), 1_700_000_000);
    assert_eq!(unix_time_from(None), 0);
    assert_eq!(unix_time_from(Some(u64::MAX)), -1);
    assert!(example_monitoring_web::session::unix_now() > 1_600_000_000);
}

#[test]
fn signed_payload_has_a_64_digit_tag() {
    let signed = sign_payload("abc", b"a key of any length at all, longer than one block of sha256 input");
    assert_eq!(signed.len(), 3 + 65);
    let tag = signed.rsplit('.').next().unwrap();
    assert_eq!(tag.len(), 64);
    assert!(tag.chars().all(|c| c.is_ascii_digit() || ('a'..='f').contains(&c)));
}
