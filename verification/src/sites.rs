//! The monitored-site form: the status-code list, the checks of each field
//! with their messages, and the values of a new site.
use vstd::prelude::*;

use crate::kv::StrMap;
use crate::text::{
    all_digits, chars_of, dec_value, int_string, is_digit, is_ws, joined, owned, parse_i32, parse_i32_spec, parse_i64,
    parse_i64_spec, push_char, push_chars, split, trim,
};

verus! {

// ---------------------------------------------------------------------------
// Outside parsers
// ---------------------------------------------------------------------------
/// What `Regex::new(pattern)` and `is_match(text)` give: `None` when the
/// pattern does not compile, else whether the text matches.
pub uninterp spec fn regex_match(pattern: Seq<char>, text: Seq<char>) -> Option<bool>;

/// `Regex::new(pattern).ok().map(|re| re.is_match(text))`.
///
/// Of the two patterns this library uses, the contract also claims what
/// the regex crate's documented syntax gives: both compile; the status-code
/// pattern matches every text whose `,`-separated parts are each three
/// ASCII digits, and only texts whose parts are each three characters, none
/// of them an ASCII character other than a digit (`\d` is Unicode `Nd`,
/// whose only ASCII members are the ASCII digits); the HTTPS pattern
/// matches every text of `https_url_shape` (`\s` is Unicode `White_Space`,
/// `.` any character but a line feed, `$` the end of the text).
#[verifier::external_body]
fn regex_is_match(pattern: &str, text: &str) -> (r: Option<bool>)
    ensures
        r == regex_match(pattern@, text@),
        pattern@ == "^\\d{3}(,\\d{3})*$"@ ==> (r is Some && (three_digit_parts(text@) ==> r
            == Some(true)) && (r == Some(true) ==> digit_like_parts(text@))),
        pattern@ == "(?i)^https://[^\\s/$.?#].[^\\s]*$"@ ==> (r is Some && (https_url_shape(
            text@,
        ) ==> r == Some(true))),
{
    regex::Regex::new(pattern).ok().map(|re| re.is_match(text))
}

/// What `Url::parse(raw)` gives: `None` when it fails, else the URL's
/// scheme and whether it has a host.
pub uninterp spec fn url_parts(raw: Seq<char>) -> Option<(Seq<char>, bool)>;

/// `Url::parse(raw).ok()`, read as its `scheme()` and whether
/// `host_str()` is present.
#[verifier::external_body]
fn parse_url_parts(raw: &str) -> (r: Option<(String, bool)>)
    ensures
        match r {
            Some((scheme, has_host)) => url_parts(raw@) == Some((scheme@, has_host)),
            None => url_parts(raw@) is None,
        },
{
    url::Url::parse(raw).ok().map(|u| (u.scheme().to_string(), u.host_str().is_some()))
}

/// Every `,`-separated part of `s` is three ASCII digits.
pub open spec fn three_digit_parts(s: Seq<char>) -> bool {
    forall|i: int|
        0 <= i < split(s, ',').len() ==> (#[trigger] split(s, ',')[i]).len() == 3 && all_digits(
            split(s, ',')[i],
        )
}

/// Every `,`-separated part of `s` is three characters, none of them an
/// ASCII character other than a digit.
pub open spec fn digit_like_parts(s: Seq<char>) -> bool {
    forall|i: int|
        0 <= i < split(s, ',').len() ==> (#[trigger] split(s, ',')[i]).len() == 3 && forall|j: int|
            0 <= j < 3 ==> ((split(s, ',')[i][j] as int) < 128 ==> is_digit(split(s, ',')[i][j]))
}

/// A text that the HTTPS pattern matches: `https://`, a character that is
/// neither whitespace nor one of `/ $ . ? #`, a character that is not a
/// line feed, then any run of characters that are not whitespace.
pub open spec fn https_url_shape(t: Seq<char>) -> bool {
    &&& t.len() >= 10
    &&& t.subrange(0, 8) == "https://"@
    &&& !is_ws(t[8])
    &&& t[8] != '/' && t[8] != '$' && t[8] != '.' && t[8] != '?' && t[8] != '#'
    &&& t[9] != '\n'
    &&& forall|i: int| 10 <= i < t.len() ==> !is_ws(#[trigger] t[i])
}

/// The pattern a status-code list must match.
pub open spec fn status_codes_pattern() -> Seq<char> {
    r"^\d{3}(,\d{3})*$"@
}

/// The pattern an HTTPS URL must match.
pub open spec fn https_url_pattern() -> Seq<char> {
    r"(?i)^https://[^\s/$.?#].[^\s]*$"@
}

// ---------------------------------------------------------------------------
// Status codes
// ---------------------------------------------------------------------------
/// The trimmed, nonempty parts joined with `,`.
pub open spec fn joined_codes(parts: Seq<Seq<char>>) -> Seq<char>
    decreases parts.len(),
{
    if parts.len() == 0 {
        Seq::empty()
    } else {
        let prev = joined_codes(parts.drop_last());
        let t = trim(parts.last());
        if t.len() == 0 {
            prev
        } else if prev.len() == 0 {
            t
        } else {
            prev + seq![','] + t
        }
    }
}

/// The code list with each code trimmed and empty entries left out.
pub open spec fn cleaned_codes(raw: Seq<char>) -> Seq<char> {
    joined_codes(split(raw, ','))
}

/// Whether a code reads as an `i32` from 100 to 599.
pub open spec fn code_ok(code: Seq<char>) -> bool {
    match parse_i32_spec(code) {
        Some(v) => 100 <= v < 600,
        None => false,
    }
}

/// What is left of a cleaned code list once the pattern has been tried:
/// the list itself when it is not empty, it matched, and every code is
/// from 100 to 599.
pub open spec fn codes_result(cleaned: Seq<char>, matched: Option<bool>) -> Option<Seq<char>> {
    match matched {
        None => None,
        Some(m) => if cleaned.len() == 0 || !m {
            None
        } else if forall|i: int| 0 <= i < split(cleaned, ',').len() ==> code_ok(#[trigger] split(cleaned, ',')[i]) {
            Some(cleaned)
        } else {
            None
        },
    }
}

/// The accepted status-code list for the raw form value.
pub open spec fn status_codes(raw: Seq<char>) -> Option<Seq<char>> {
    codes_result(cleaned_codes(raw), regex_match(status_codes_pattern(), cleaned_codes(raw)))
}

/// The code list with each code trimmed and empty entries left out.
pub fn clean_codes(raw: &str) -> (out: String)
    ensures
        out@ == cleaned_codes(raw@),
{
    let cs = chars_of(raw);
    let parts = crate::text::split_chars(cs.as_slice(), ',');
    let ghost sp = split(raw@, ',');
    let mut out = String::new();
    let mut i: usize = 0;
    while i < parts.len()
        invariant
            i <= parts@.len(),
            parts@.len() == sp.len(),
            forall|j: int| 0 <= j < parts@.len() ==> #[trigger] parts@[j]@ == sp[j],
            out@ == joined_codes(sp.take(i as int)),
        decreases parts@.len() - i,
    {
        assert(sp.take(i + 1).drop_last() =~= sp.take(i as int));
        assert(sp.take(i + 1).last() == sp[i as int]);
        let t = crate::text::trimmed(parts[i].as_str());
        let tc = chars_of(t.as_str());
        if tc.len() > 0 {
            let empty_before = out.as_str().is_empty();
            if !empty_before {
                push_char(&mut out, ',');
            }
            push_chars(&mut out, tc.as_slice());
        }
        i = i + 1;
    }
    assert(sp.take(sp.len() as int) =~= sp);
    out
}

/// The status-code list, once the pattern has been tried on the cleaned
/// list.
pub fn codes_from_cleaned(cleaned: &str, matched: Option<bool>) -> (r: Option<String>)
    ensures
        match r {
            Some(c) => codes_result(cleaned@, matched) == Some(c@),
            None => codes_result(cleaned@, matched) is None,
        },
{
    let m = match matched {
        Some(m) => m,
        None => return None,
    };
    if cleaned.is_empty() || !m {
        return None;
    }
    let cs = chars_of(cleaned);
    let parts = crate::text::split_chars(cs.as_slice(), ',');
    let ghost sp = split(cleaned@, ',');
    let mut i: usize = 0;
    while i < parts.len()
        invariant
            i <= parts@.len(),
            parts@.len() == sp.len(),
            forall|j: int| 0 <= j < parts@.len() ==> #[trigger] parts@[j]@ == sp[j],
            forall|j: int| 0 <= j < i ==> code_ok(#[trigger] sp[j]),
            matched == Some(true),
            cleaned@.len() > 0,
            sp == split(cleaned@, ','),
        decreases parts@.len() - i,
    {
        match parse_i32(parts[i].as_str()) {
            Some(v) => {
                if !(100 <= v && v < 600) {
                    assert(!code_ok(sp[i as int]));
                    return None;
                }
            },
            None => {
                assert(!code_ok(sp[i as int]));
                return None;
            },
        }
        i = i + 1;
    }
    Some(owned(cleaned))
}

/// Whether a raw status-code list is acceptable: with each code trimmed
/// and empty entries left out it is not empty, and each of its codes is
/// three ASCII digits from 100 to 599.
pub open spec fn codes_acceptable(raw: Seq<char>) -> bool {
    let c = cleaned_codes(raw);
    &&& c.len() > 0
    &&& forall|i: int|
        0 <= i < split(c, ',').len() ==> {
            let p = #[trigger] split(c, ',')[i];
            &&& p.len() == 3
            &&& all_digits(p)
            &&& 100 <= dec_value(p) <= 599
        }
}

/// A code of three characters, none an ASCII character other than a
/// digit, reads as a code from 100 to 599 exactly when it is three ASCII
/// digits from 100 to 599.
proof fn lemma_three_char_code(p: Seq<char>)
    requires
        p.len() == 3,
        forall|j: int| 0 <= j < 3 ==> ((p[j] as int) < 128 ==> is_digit(p[j])),
    ensures
        code_ok(p) <==> (all_digits(p) && 100 <= dec_value(p) <= 599),
{
    assert((p[0] as int) < 128 ==> is_digit(p[0]));
    assert(p[0] != '+' && p[0] != '-');
}

/// The accepted status-code list: the trimmed nonempty codes joined with
/// `,`, when they match `^\d{3}(,\d{3})*$` and each is from 100 to 599.
/// A list is accepted exactly when it is acceptable, however many codes it
/// holds.
pub fn parse_status_codes(raw: &str) -> (r: Option<String>)
    ensures
        match r {
            Some(c) => status_codes(raw@) == Some(c@),
            None => status_codes(raw@) is None,
        },
        r matches Some(c) ==> c@.len() > 0 && forall|i: int|
            0 <= i < split(c@, ',').len() ==> code_ok(#[trigger] split(c@, ',')[i]),
        r is Some <==> codes_acceptable(raw@),
        r matches Some(c) ==> c@ == cleaned_codes(raw@),
{
    let cleaned = clean_codes(raw);
    let matched = regex_is_match(r"^\d{3}(,\d{3})*$", cleaned.as_str());
    let r = codes_from_cleaned(cleaned.as_str(), matched);
    proof {
        let c = cleaned@;
        let sp = split(c, ',');
        if codes_acceptable(raw@) {
            assert(three_digit_parts(c)) by {
                assert forall|i: int| 0 <= i < sp.len() implies (#[trigger] sp[i]).len() == 3
                    && all_digits(sp[i]) by {
                    let p = sp[i];
                    assert(p.len() == 3 && all_digits(p));
                }
            }
            assert(matched == Some(true));
            assert forall|i: int| 0 <= i < sp.len() implies code_ok(#[trigger] sp[i]) by {
                let p = sp[i];
                assert(p.len() == 3 && all_digits(p) && 100 <= dec_value(p) <= 599);
                assert forall|j: int| 0 <= j < 3 && (p[j] as int) < 128 implies is_digit(p[j]) by {
                    assert(is_digit(p[j]));
                }
                lemma_three_char_code(p);
            }
        }
        if r is Some {
            assert(matched == Some(true));
            assert(digit_like_parts(c));
            assert forall|i: int| 0 <= i < sp.len() implies {
                let p = #[trigger] sp[i];
                &&& p.len() == 3
                &&& all_digits(p)
                &&& 100 <= dec_value(p) <= 599
            } by {
                let p = sp[i];
                assert(code_ok(p));
                assert(p.len() == 3);
                assert forall|j: int| 0 <= j < 3 && (p[j] as int) < 128 implies is_digit(p[j]) by {
                    assert(digit_like_parts(c));
                }
                lemma_three_char_code(p);
            }
        }
    }
    r
}

/// A code that reads as a number is not blank and has no whitespace at
/// either end.
proof fn lemma_code_trimmed(code: Seq<char>)
    requires
        code_ok(code),
    ensures
        code.len() > 0,
        trim(code) == code,
{
    let d = if code.len() > 0 && (code[0] == '+' || code[0] == '-') {
        code.drop_first()
    } else {
        code
    };
    assert(d.len() > 0 && all_digits(d));
    assert(is_digit(d[d.len() - 1]));
    assert(d[d.len() - 1] == code.last());
    if d == code {
        assert(is_digit(d[0]));
    }
    crate::text::lemma_trim_unchanged(code);
}

/// Where every part is nonblank and already trimmed, the cleaned join is
/// the plain join with `,`.
proof fn lemma_joined_codes_plain(parts: Seq<Seq<char>>)
    requires
        forall|i: int| 0 <= i < parts.len() ==> (#[trigger] parts[i]).len() > 0 && trim(parts[i])
            == parts[i],
    ensures
        joined_codes(parts) == joined(parts, ','),
    decreases parts.len(),
{
    if parts.len() > 0 {
        let prev = parts.drop_last();
        assert forall|i: int| 0 <= i < prev.len() implies (#[trigger] prev[i]).len() > 0 && trim(
            prev[i],
        ) == prev[i] by {
            assert(prev[i] == parts[i]);
        }
        lemma_joined_codes_plain(prev);
        assert(trim(parts.last()) == parts.last());
        if parts.len() == 1 {
            assert(parts.last() == parts[0]);
        } else if prev.len() == 1 {
            assert(prev[0] == parts[0]);
            assert(joined(prev, ',').len() > 0);
        } else {
            assert(joined(prev, ',').len() > 0);
        }
    }
}

/// An accepted status-code list is accepted again as it stands: parsing it
/// gives it back unchanged.
pub proof fn lemma_status_codes_fixed(raw: Seq<char>, c: Seq<char>)
    requires
        status_codes(raw) == Some(c),
    ensures
        status_codes(c) == Some(c),
{
    let sp = split(c, ',');
    assert(c == cleaned_codes(raw));
    assert forall|i: int| 0 <= i < sp.len() implies (#[trigger] sp[i]).len() > 0 && trim(sp[i])
        == sp[i] by {
        lemma_code_trimmed(sp[i]);
    }
    lemma_joined_codes_plain(sp);
    crate::text::lemma_joined_split(c, ',');
    assert(cleaned_codes(c) == c);
}

// ---------------------------------------------------------------------------
// The site form
// ---------------------------------------------------------------------------
/// The message about the URL, given what the URL parser gave for the
/// trimmed URL and whether the HTTPS pattern matched it: the URL must have
/// the `https` scheme and a host, and then match the pattern.
pub open spec fn url_message(parts: Option<(Seq<char>, bool)>, matched: Option<bool>) -> Option<Seq<char>> {
    match parts {
        Some((scheme, has_host)) => if scheme == "https"@ && has_host {
            if matched == Some(true) {
                None
            } else {
                Some("Enter a valid HTTPS URL."@)
            }
        } else {
            Some("URL must use HTTPS."@)
        },
        None => Some("URL must use HTTPS."@),
    }
}

/// The message about the URL, if any.
pub open spec fn url_error(url_raw: Seq<char>) -> Option<Seq<char>> {
    let t = trim(url_raw);
    url_message(url_parts(t), regex_match(https_url_pattern(), t))
}

/// The message about the poll interval, if any.
pub open spec fn interval_error(interval: Seq<char>) -> Option<Seq<char>> {
    match parse_i64_spec(interval) {
        Some(s) => if s >= 30 {
            None
        } else {
            Some("Minimum interval is 30 seconds."@)
        },
        None => Some("Interval must be a number."@),
    }
}

/// The message about the retry count, if any.
pub open spec fn retries_error(retries: Seq<char>) -> Option<Seq<char>> {
    match parse_i64_spec(retries) {
        Some(v) => if v >= 1 {
            None
        } else {
            Some("At least one attempt is required."@)
        },
        None => Some("Retries must be a number."@),
    }
}

pub open spec fn with_error(m: Map<Seq<char>, Seq<char>>, field: Seq<char>, e: Option<Seq<char>>) -> Map<Seq<char>, Seq<char>> {
    match e {
        Some(msg) => m.insert(field, msg),
        None => m,
    }
}

/// The message of each failing field, given the URL's message and whether
/// the status codes are accepted.
pub open spec fn site_errors_with(
    name: Seq<char>,
    interval: Seq<char>,
    retries: Seq<char>,
    url_msg: Option<Seq<char>>,
    codes_ok: bool,
) -> Map<Seq<char>, Seq<char>> {
    let m = Map::<Seq<char>, Seq<char>>::empty();
    let m = with_error(
        m,
        "name"@,
        if trim(name).len() == 0 {
            Some("Name is required."@)
        } else {
            None
        },
    );
    let m = with_error(m, "url"@, url_msg);
    let m = with_error(m, "poll_interval_seconds"@, interval_error(interval));
    let m = with_error(
        m,
        "ok_status_codes"@,
        if codes_ok {
            None
        } else {
            Some("Use comma-separated HTTP status codes (e.g. 200,204)."@)
        },
    );
    with_error(m, "max_retries"@, retries_error(retries))
}

/// The message of each field that fails its check.
pub open spec fn site_errors(
    name: Seq<char>,
    url_raw: Seq<char>,
    interval: Seq<char>,
    codes: Seq<char>,
    retries: Seq<char>,
) -> Map<Seq<char>, Seq<char>> {
    site_errors_with(name, interval, retries, url_error(url_raw), status_codes(codes) is Some)
}

/// The submitted values of the site form, by field.
pub open spec fn site_values(
    name: Seq<char>,
    url_raw: Seq<char>,
    interval: Seq<char>,
    codes: Seq<char>,
    retries: Seq<char>,
) -> Map<Seq<char>, Seq<char>> {
    Map::<Seq<char>, Seq<char>>::empty().insert("name"@, name).insert("url"@, url_raw).insert(
        "poll_interval_seconds"@,
        interval,
    ).insert("ok_status_codes"@, codes).insert("max_retries"@, retries)
}

/// The message about the URL, given what the URL parser gave for the
/// trimmed URL and whether the HTTPS pattern matched it.
pub fn url_message_from(parts: Option<(String, bool)>, matched: Option<bool>) -> (r: Option<String>)
    ensures
        opt_str_view(r) == url_message(parts_view(parts), matched),
{
    match parts {
        Some((scheme, has_host)) => {
            if crate::text::str_eq(scheme.as_str(), "https") && has_host {
                match matched {
                    Some(true) => None,
                    _ => Some(owned("Enter a valid HTTPS URL.")),
                }
            } else {
                Some(owned("URL must use HTTPS."))
            }
        },
        None => Some(owned("URL must use HTTPS.")),
    }
}

pub open spec fn parts_view(p: Option<(String, bool)>) -> Option<(Seq<char>, bool)> {
    match p {
        Some((s, h)) => Some((s@, h)),
        None => None,
    }
}

pub open spec fn opt_str_view(o: Option<String>) -> Option<Seq<char>> {
    match o {
        Some(s) => Some(s@),
        None => None,
    }
}

fn url_check(url_raw: &str) -> (r: Option<String>)
    ensures
        opt_str_view(r) == url_error(url_raw@),
        url_parts(trim(url_raw@)) == Some(("https"@, true)) ==> (r is None <==> regex_match(
            "(?i)^https://[^\\s/$.?#].[^\\s]*$"@,
            trim(url_raw@),
        ) == Some(true)),
        url_parts(trim(url_raw@)) == Some(("https"@, true)) && https_url_shape(trim(url_raw@))
            ==> r is None,
{
    let t = crate::text::trimmed(url_raw);
    let parts = parse_url_parts(t.as_str());
    let ghost pv = parts_view(parts);
    let needs_match = match &parts {
        Some((scheme, has_host)) => crate::text::str_eq(scheme.as_str(), "https") && *has_host,
        None => false,
    };
    let matched = if needs_match {
        regex_is_match(r"(?i)^https://[^\s/$.?#].[^\s]*$", t.as_str())
    } else {
        None
    };
    assert(url_message(pv, matched) == url_message(pv, regex_match(https_url_pattern(), t@)));
    url_message_from(parts, matched)
}

fn add_error(errors: &mut StrMap, field: &str, e: Option<String>)
    ensures
        final(errors)@ == with_error(old(errors)@, field@, opt_str_view(e)),
{
    match e {
        Some(m) => errors.insert(owned(field), m),
        None => {},
    }
}

/// The message of each failing field of the site form, given the URL's
/// message and whether the status codes are accepted.
pub fn site_errors_from(name: &str, interval: &str, retries: &str, url_msg: Option<String>, codes_ok: bool) -> (out: StrMap)
    ensures
        out@ == site_errors_with(name@, interval@, retries@, opt_str_view(url_msg), codes_ok),
{
    let mut errors = StrMap::new();
    let name_t = crate::text::trimmed(name);
    let name_e = if name_t.as_str().is_empty() {
        Some(owned("Name is required."))
    } else {
        None
    };
    add_error(&mut errors, "name", name_e);
    add_error(&mut errors, "url", url_msg);
    let interval_e = match parse_i64(interval) {
        Some(s) => if s >= 30 {
            None
        } else {
            Some(owned("Minimum interval is 30 seconds."))
        },
        None => Some(owned("Interval must be a number.")),
    };
    add_error(&mut errors, "poll_interval_seconds", interval_e);
    let codes_e = if codes_ok {
        None
    } else {
        Some(owned("Use comma-separated HTTP status codes (e.g. 200,204)."))
    };
    add_error(&mut errors, "ok_status_codes", codes_e);
    let retries_e = match parse_i64(retries) {
        Some(v) => if v >= 1 {
            None
        } else {
            Some(owned("At least one attempt is required."))
        },
        None => Some(owned("Retries must be a number.")),
    };
    add_error(&mut errors, "max_retries", retries_e);
    errors
}

/// The message of each failing field of the site form.
pub fn site_form_errors(name: &str, url_raw: &str, interval: &str, codes: &str, retries: &str) -> (out:
    StrMap)
    ensures
        out@ == site_errors(name@, url_raw@, interval@, codes@, retries@),
        url_parts(trim(url_raw@)) == Some(("https"@, true)) ==> (url_error(url_raw@) is None
            <==> regex_match("(?i)^https://[^\\s/$.?#].[^\\s]*$"@, trim(url_raw@)) == Some(true)),
        url_parts(trim(url_raw@)) == Some(("https"@, true)) && https_url_shape(trim(url_raw@))
            ==> url_error(url_raw@) is None,
        status_codes(codes@) is Some <==> codes_acceptable(codes@),
{
    let url_msg = url_check(url_raw);
    let codes_ok = parse_status_codes(codes).is_some();
    site_errors_from(name, interval, retries, url_msg, codes_ok)
}

/// The checks of the site form: a message (one of the messages of the
/// failing fields, or empty when every field passes) and the submitted
/// values by field.
pub fn validate_site_form(name: &str, url_raw: &str, interval: &str, codes: &str, retries: &str) -> (r:
    (String, StrMap))
    ensures
        ({
            let errors = site_errors(name@, url_raw@, interval@, codes@, retries@);
            &&& errors.dom() =~= Set::<Seq<char>>::empty() ==> r.0@ == Seq::<char>::empty()
            &&& !(errors.dom() =~= Set::<Seq<char>>::empty()) ==> exists|k: Seq<char>|
                #[trigger] errors.contains_key(k) && errors[k] == r.0@
        }),
        r.1@ == site_values(name@, url_raw@, interval@, codes@, retries@),
        url_parts(trim(url_raw@)) == Some(("https"@, true)) ==> (url_error(url_raw@) is None
            <==> regex_match("(?i)^https://[^\\s/$.?#].[^\\s]*$"@, trim(url_raw@)) == Some(true)),
        url_parts(trim(url_raw@)) == Some(("https"@, true)) && https_url_shape(trim(url_raw@))
            ==> url_error(url_raw@) is None,
        status_codes(codes@) is Some <==> codes_acceptable(codes@),
{
    let errors = site_form_errors(name, url_raw, interval, codes, retries);
    let message = match errors.any_value() {
        Some(m) => m.clone(),
        None => String::new(),
    };
    let mut values = StrMap::new();
    values.insert(owned("name"), owned(name));
    values.insert(owned("url"), owned(url_raw));
    values.insert(owned("poll_interval_seconds"), owned(interval));
    values.insert(owned("ok_status_codes"), owned(codes));
    values.insert(owned("max_retries"), owned(retries));
    (message, values)
}

/// Where a site is shown once it has been inserted: `/sites/` and its id;
/// none when the insert gave back no row.
pub fn created_site_location(inserted_id: Option<i64>) -> (r: Option<String>)
    ensures
        match r {
            Some(p) => inserted_id matches Some(id) && p@ == "/sites/"@ + int_string(id as int),
            None => inserted_id is None,
        },
{
    match inserted_id {
        Some(id) => {
            let mut out = owned("/sites/");
            crate::text::push_int(&mut out, id);
            Some(out)
        },
        None => None,
    }
}

/// The values of a new monitored site.
pub struct NewSite {
    pub name: String,
    pub url: String,
    pub poll_interval_seconds: i64,
    pub ok_status_codes: String,
    pub max_retries: i64,
}

/// Whether every field of the site form passes its check.
pub open spec fn site_form_ok(
    name: Seq<char>,
    url_raw: Seq<char>,
    interval: Seq<char>,
    codes: Seq<char>,
    retries: Seq<char>,
) -> bool {
    site_errors(name, url_raw, interval, codes, retries).dom() =~= Set::<Seq<char>>::empty()
}

/// A site form passes its checks exactly when the name is not blank, the
/// trimmed URL parses with the `https` scheme and a host and matches the
/// HTTPS pattern, the interval is a number of at least 30 seconds, the
/// status codes are accepted, and the retry count is at least 1.
pub proof fn lemma_site_form_ok(
    name: Seq<char>,
    url_raw: Seq<char>,
    interval: Seq<char>,
    codes: Seq<char>,
    retries: Seq<char>,
)
    ensures
        site_form_ok(name, url_raw, interval, codes, retries) <==> {
            &&& trim(name).len() > 0
            &&& url_parts(trim(url_raw)) == Some(("https"@, true))
            &&& regex_match(https_url_pattern(), trim(url_raw)) == Some(true)
            &&& parse_i64_spec(interval) matches Some(s) && s >= 30
            &&& status_codes(codes) is Some
            &&& parse_i64_spec(retries) matches Some(v) && v >= 1
        },
{
    let m = site_errors(name, url_raw, interval, codes, retries);
    if trim(name).len() == 0 {
        assert(m.dom().contains("name"@));
    }
    if url_error(url_raw) is Some {
        assert(m.dom().contains("url"@));
    }
    if interval_error(interval) is Some {
        assert(m.dom().contains("poll_interval_seconds"@));
    }
    if status_codes(codes) is None {
        assert(m.dom().contains("ok_status_codes"@));
    }
    if retries_error(retries) is Some {
        assert(m.dom().contains("max_retries"@));
    }
}

/// The values of a new site from the site form, or, when a field fails
/// its check, the form's message and submitted values.
pub fn prepare_site(name: &str, url_raw: &str, interval: &str, codes: &str, retries: &str) -> (r:
    Result<NewSite, (String, StrMap)>)
    ensures
        r is Ok <==> site_form_ok(name@, url_raw@, interval@, codes@, retries@),
        url_parts(trim(url_raw@)) == Some(("https"@, true)) ==> (url_error(url_raw@) is None
            <==> regex_match("(?i)^https://[^\\s/$.?#].[^\\s]*$"@, trim(url_raw@)) == Some(true)),
        url_parts(trim(url_raw@)) == Some(("https"@, true)) && https_url_shape(trim(url_raw@))
            ==> url_error(url_raw@) is None,
        status_codes(codes@) is Some <==> codes_acceptable(codes@),
        match r {
            Ok(site) => {
                &&& site.name@ == trim(name@)
                &&& site.url@ == trim(url_raw@)
                &&& parse_i64_spec(interval@) == Some(site.poll_interval_seconds)
                &&& status_codes(codes@) == Some(site.ok_status_codes@)
                &&& parse_i64_spec(retries@) == Some(site.max_retries)
            },
            Err((message, values)) => {
                let errors = site_errors(name@, url_raw@, interval@, codes@, retries@);
                &&& exists|k: Seq<char>| #[trigger] errors.contains_key(k) && errors[k] == message@
                &&& values@ == site_values(name@, url_raw@, interval@, codes@, retries@)
            },
        },
{
    let errors = site_form_errors(name, url_raw, interval, codes, retries);
    if !errors.is_empty() {
        return Err(validate_site_form(name, url_raw, interval, codes, retries));
    }
    proof {
        lemma_site_form_ok(name@, url_raw@, interval@, codes@, retries@);
    }
    let poll_interval_seconds = match parse_i64(interval) {
        Some(v) => v,
        None => {
            assert(false);
            0
        },
    };
    let ok_status_codes = match parse_status_codes(codes) {
        Some(c) => c,
        None => {
            assert(false);
            String::new()
        },
    };
    let max_retries = match parse_i64(retries) {
        Some(v) => v,
        None => {
            assert(false);
            0
        },
    };
    Ok(
        NewSite {
            name: crate::text::trimmed(name),
            url: crate::text::trimmed(url_raw),
            poll_interval_seconds,
            ok_status_codes,
            max_retries,
        },
    )
}

} // verus!
