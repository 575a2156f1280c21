use example_monitoring_web::encoding::base64_url_encode;
use example_monitoring_web::session::{sign_payload, verify_payload};
use example_monitoring_web::text::{parse_i32, parse_i64, parse_u32, push_int, trimmed};

#[test]
fn parse_i64_accepts_signs_and_digits() {
    assert_eq!(parse_i64("60"), Some(60));
    assert_eq!(parse_i64("+30"), Some(30));
    assert_eq!(parse_i64("-7"), Some(-7));
    assert_eq!(parse_i64("9223372036854775807"), Some(i64::MAX));
    assert_eq!(parse_i64("-9223372036854775808"), Some(i64::MIN));
}

#[test]
fn parse_i64_refuses_other_text() {
    assert_eq!(parse_i64(""), None);
    assert_eq!(parse_i64("+"), None);
    assert_eq!(parse_i64("-"), None);
    assert_eq!(parse_i64(" 60"), None);
    assert_eq!(parse_i64("6o"), None);
    assert_eq!(parse_i64("9223372036854775808"), None);
    assert_eq!(parse_i64("-9223372036854775809"), None);
}

#[test]
fn parse_u32_refuses_minus_and_overflow() {
    assert_eq!(parse_u32("600000"), Some(600000));
    assert_eq!(parse_u32("+1"), Some(1));
    assert_eq!(parse_u32("4294967295"), Some(u32::MAX));
    assert_eq!(parse_u32("4294967296"), None);
    assert_eq!(parse_u32("-0"), None);
}

#[test]
fn parse_i32_range() {
    assert_eq!(parse_i32("200"), Some(200));
    assert_eq!(parse_i32("2147483648"), None);
    assert_eq!(parse_i32("-2147483648"), Some(i32::MIN));
}

#[test]
fn trimmed_removes_unicode_whitespace() {
    assert_eq!(trimmed("  a b \t\n"), "a b");
    assert_eq!(trimmed("\u{3000}x\u{a0}"), "x");
    assert_eq!(trimmed("   "), "");
}

#[test]
fn push_int_writes_decimal() {
    let mut s = String::from("Max-Age=");
    push_int(&mut s, 1209600);
    assert_eq!(s, "Max-Age=1209600");
    let mut t = String::new();
    push_int(&mut t, i64::MIN);
    assert_eq!(t, "-9223372036854775808");
    let mut z = String::new();
    push_int(&mut z, 0);
    assert_eq!(z, "0");
}

#[test]
fn signature_digest_is_lowercase_hex() {
    let signed = sign_payload("x", b"k");
    let digest = signed.rsplit_once('.').unwrap().1;
    assert_eq!(digest.len(), 64);
    assert!(digest.chars().all(|c| c.is_ascii_digit() || ('a'..='f').contains(&c)));
}

#[test]
fn signature_digest_decodes_in_either_case_only_when_even_and_hex() {
    let signed = sign_payload("x", b"k");
    let (p, d) = signed.rsplit_once('.').unwrap();
    assert!(verify_payload(&format!("{}.{}", p, d.to_uppercase()), b"k").is_some());
    assert!(verify_payload(&format!("{}.{}", p, &d[1..]), b"k").is_none());
    assert!(verify_payload(&format!("{}.{}zz", p, &d[2..]), b"k").is_none());
}

#[test]
fn base64_url_without_padding() {
    assert_eq!(base64_url_encode(b""), "");
    assert_eq!(base64_url_encode(b"f"), "Zg");
    assert_eq!(base64_url_encode(b"fo"), "Zm8");
    assert_eq!(base64_url_encode(b"foo"), "Zm9v");
    assert_eq!(base64_url_encode(b"foobar"), "Zm9vYmFy");
    assert_eq!(base64_url_encode(&[0xfb, 0xff, 0xbf]), "-_-_");
    assert_eq!(base64_url_encode(&[0u8; 32]).len(), 43);
}

#[test]
fn written_numbers_read_back() {
    for n in [0i64, 7, -7, 600000, 1209600, i64::MAX, i64::MIN] {
        let mut s = String::new();
        push_int(&mut s, n);
        assert_eq!(parse_i64(&s), Some(n));
    }
}
