//! Reading a request: cookies, form and query fields, the request context
//! (session, CSRF token, origin) and the CSRF check.
use vstd::prelude::*;

use crate::kv::{pairs_map, str_entries, SessionData, StrMap};
use crate::text::{chars_of, first_index, split, string_of_range, trim};

verus! {

/// The name of the session cookie.
pub open spec fn session_cookie_name() -> Seq<char> {
    "em_session"@
}

/// The name of the CSRF cookie.
pub open spec fn csrf_cookie_name() -> Seq<char> {
    "em_csrf"@
}

// ---------------------------------------------------------------------------
// Cookies
// ---------------------------------------------------------------------------
/// The entry of one `;`-separated part of a `Cookie` header: the part is
/// trimmed and cut at its first `=`, and both sides are trimmed. A part
/// without `=` gives no entry.
pub open spec fn cookie_entry(part: Seq<char>) -> Option<(Seq<char>, Seq<char>)> {
    let t = trim(part);
    match first_index(t, '=') {
        None => None,
        Some(i) => Some((trim(t.subrange(0, i)), trim(t.subrange(i + 1, t.len() as int)))),
    }
}

/// The entries of the given parts, in order.
pub open spec fn cookie_entries(parts: Seq<Seq<char>>) -> Seq<(Seq<char>, Seq<char>)>
    decreases parts.len(),
{
    if parts.len() == 0 {
        Seq::empty()
    } else {
        let prev = cookie_entries(parts.drop_last());
        match cookie_entry(parts.last()) {
            None => prev,
            Some(e) => prev.push(e),
        }
    }
}

/// The cookies of a `Cookie` header value; a later cookie of the same
/// name replaces an earlier one.
pub open spec fn cookies_of(raw: Option<Seq<char>>) -> Map<Seq<char>, Seq<char>> {
    match raw {
        None => Map::empty(),
        Some(r) => pairs_map(cookie_entries(split(r, ';'))),
    }
}

#[verifier::rlimit(50)]
fn cookie_part(part: &str) -> (r: Option<(String, String)>)
    ensures
        match r {
            Some((k, v)) => cookie_entry(part@) == Some((k@, v@)),
            None => cookie_entry(part@) is None,
        },
{
    let pc = chars_of(part);
    let (a, b) = crate::text::trim_bounds(pc.as_slice(), 0, pc.len());
    assert(pc@.subrange(0, pc@.len() as int) =~= pc@);
    let ghost t = pc@.subrange(a as int, b as int);
    assert(t == trim(part@));
    match crate::text::find_first(pc.as_slice(), a, b, '=') {
        Some(eq) => {
            assert(first_index(t, '=') == Some(eq - a));
            let (ka, kb) = crate::text::trim_bounds(pc.as_slice(), a, eq);
            let (va, vb) = crate::text::trim_bounds(pc.as_slice(), eq + 1, b);
            let key = string_of_range(pc.as_slice(), ka, kb);
            let value = string_of_range(pc.as_slice(), va, vb);
            assert(t.subrange(0, eq - a) =~= pc@.subrange(a as int, eq as int));
            assert(t.subrange(eq - a + 1, t.len() as int) =~= pc@.subrange(eq + 1, b as int));
            assert(key@ == trim(t.subrange(0, eq - a)));
            assert(value@ == trim(t.subrange(eq - a + 1, t.len() as int)));
            Some((key, value))
        },
        None => {
            assert(first_index(t, '=') is None);
            None
        },
    }
}

/// The cookies of the `Cookie` header value `raw`, when the request has
/// one that is valid text.
pub fn parse_cookies(raw: Option<&str>) -> (out: StrMap)
    ensures
        out@ == cookies_of(crate::session::opt_view(raw)),
{
    let mut out = StrMap::new();
    let raw = match raw {
        Some(r) => r,
        None => return out,
    };
    let cs = chars_of(raw);
    let parts = crate::text::split_chars(cs.as_slice(), ';');
    let ghost sp = split(raw@, ';');
    let mut i: usize = 0;
    while i < parts.len()
        invariant
            i <= parts@.len(),
            parts@.len() == sp.len(),
            forall|j: int| 0 <= j < parts@.len() ==> #[trigger] parts@[j]@ == sp[j],
            out@ == pairs_map(cookie_entries(sp.take(i as int))),
        decreases parts@.len() - i,
    {
        let ghost before = out@;
        assert(sp.take(i + 1).drop_last() =~= sp.take(i as int));
        assert(sp.take(i + 1).last() == sp[i as int]);
        let ghost prev = cookie_entries(sp.take(i as int));
        assert(cookie_entries(sp.take(i + 1)) == match cookie_entry(sp[i as int]) {
            None => prev,
            Some(e) => prev.push(e),
        });
        match cookie_part(parts[i].as_str()) {
            Some((key, value)) => {
                out.insert(key, value);
                assert(cookie_entries(sp.take(i + 1)) == prev.push((key@, value@)));
                assert(prev.push((key@, value@)).drop_last() =~= prev);
            },
            None => {},
        }
        i = i + 1;
    }
    assert(sp.take(sp.len() as int) =~= sp);
    out
}

// ---------------------------------------------------------------------------
// Forms and query strings
// ---------------------------------------------------------------------------
/// The name/value pairs that `url::form_urlencoded::parse` yields for the
/// given bytes, in order.
pub uninterp spec fn form_urlencoded_pairs(input: Seq<u8>) -> Seq<(Seq<char>, Seq<char>)>;

/// `url::form_urlencoded::parse(input)`, each pair made owned.
#[verifier::external_body]
fn form_pairs(input: &[u8]) -> (out: Vec<(String, String)>)
    ensures
        str_entries(out@) == form_urlencoded_pairs(input@),
{
    url::form_urlencoded::parse(input).map(|(k, v)| (k.into_owned(), v.into_owned())).collect()
}

/// The fields of a URL-encoded text; a later field of the same name
/// replaces an earlier one.
pub open spec fn urlencoded_fields(text: Seq<char>) -> Map<Seq<char>, Seq<char>> {
    pairs_map(form_urlencoded_pairs(vstd::utf8::encode_utf8(text)))
}

/// The map of name/value pairs; a later pair for a name replaces an
/// earlier one.
pub fn map_of_pairs(pairs: Vec<(String, String)>) -> (out: StrMap)
    ensures
        out@ == pairs_map(str_entries(pairs@)),
{
    let mut out = StrMap::new();
    let ghost s = str_entries(pairs@);
    let mut i: usize = 0;
    while i < pairs.len()
        invariant
            i <= pairs@.len(),
            s == str_entries(pairs@),
            out@ == pairs_map(s.take(i as int)),
        decreases pairs@.len() - i,
    {
        assert(s.take(i + 1).drop_last() =~= s.take(i as int));
        assert(s.take(i + 1).last() == s[i as int]);
        let k = pairs[i].0.clone();
        let v = pairs[i].1.clone();
        out.insert(k, v);
        i = i + 1;
    }
    assert(s.take(s.len() as int) =~= s);
    out
}

/// The fields of a submitted form.
pub struct FormData {
    pub values: StrMap,
}

impl FormData {
    /// The value of field `key`, or the empty text when the form lacks it.
    pub fn get(&self, key: &str) -> (out: String)
        ensures
            out@ == field_or_empty(self.values@, key@),
    {
        match self.values.get(key) {
            Some(v) => v.clone(),
            None => String::new(),
        }
    }
}

/// The value of `key` in `m`, or the empty text.
pub open spec fn field_or_empty(m: Map<Seq<char>, Seq<char>>, key: Seq<char>) -> Seq<char> {
    if m.contains_key(key) {
        m[key]
    } else {
        Seq::empty()
    }
}

/// The fields of a URL-encoded request body.
pub fn parse_form(body: &str) -> (out: FormData)
    ensures
        out.values@ == urlencoded_fields(body@),
{
    FormData { values: map_of_pairs(form_pairs(body.as_bytes())) }
}

/// The fields of a URL query string.
pub fn parse_query(query: &str) -> (out: StrMap)
    ensures
        out@ == urlencoded_fields(query@),
{
    map_of_pairs(form_pairs(query.as_bytes()))
}

// ---------------------------------------------------------------------------
// Request context
// ---------------------------------------------------------------------------
/// What a handler knows of the request: its session, its CSRF token, its
/// cookies and its `Origin` header.
pub struct RequestContext {
    pub session: SessionData,
    pub csrf_token: String,
    pub cookies: StrMap,
    pub origin: Option<String>,
}

pub open spec fn opt_string_view(o: Option<String>) -> Option<Seq<char>> {
    match o {
        None => None,
        Some(s) => Some(s@),
    }
}

/// The session cookie's value among `cookies`, if there is one.
pub open spec fn session_cookie_of(cookies: Map<Seq<char>, Seq<char>>) -> Option<Seq<char>> {
    if cookies.contains_key(session_cookie_name()) {
        Some(cookies[session_cookie_name()])
    } else {
        None
    }
}

impl RequestContext {
    /// The context of a request with the given `Cookie` and `Origin`
    /// header values, at time `now`, with `fresh_token` as the CSRF token
    /// when the request carries none.
    pub fn from_parts_at(
        cookie_header: Option<&str>,
        origin: Option<&str>,
        secret_key: &[u8],
        now: i64,
        fresh_token: String,
    ) -> (ctx: RequestContext)
        ensures
            ctx.cookies@ == cookies_of(crate::session::opt_view(cookie_header)),
            ctx.session@ == crate::session::session_at(session_cookie_of(ctx.cookies@), secret_key@, now),
            ctx.csrf_token@ == if ctx.cookies@.contains_key(csrf_cookie_name()) {
                ctx.cookies@[csrf_cookie_name()]
            } else {
                fresh_token@
            },
            opt_string_view(ctx.origin) == crate::session::opt_view(origin),
    {
        let cookies = parse_cookies(cookie_header);
        let session = match cookies.get("em_session") {
            Some(raw) => crate::session::decode_session_at(Some(raw.as_str()), secret_key, now),
            None => crate::session::decode_session_at(None, secret_key, now),
        };
        let csrf_token = match cookies.get("em_csrf") {
            Some(t) => t.clone(),
            None => fresh_token,
        };
        let origin = match origin {
            Some(o) => Some(crate::text::owned(o)),
            None => None,
        };
        RequestContext { session, csrf_token, cookies, origin }
    }

    /// The context of a request with the given `Cookie` and `Origin`
    /// header values, at the current time; a request without a CSRF cookie
    /// gets a fresh random token.
    pub fn from_headers(cookie_header: Option<&str>, origin: Option<&str>, secret_key: &[u8]) -> (ctx:
        RequestContext)
        ensures
            ctx.cookies@ == cookies_of(crate::session::opt_view(cookie_header)),
            exists|now: i64|
                ctx.session@ == #[trigger] crate::session::session_at(session_cookie_of(ctx.cookies@), secret_key@, now),
            ctx.cookies@.contains_key(csrf_cookie_name()) ==> ctx.csrf_token@ == ctx.cookies@[csrf_cookie_name()],
            !ctx.cookies@.contains_key(csrf_cookie_name()) ==> ctx.csrf_token@.len() == 43 && exists|b: Seq<u8>|
                b.len() == crate::session::CSRF_TOKEN_BYTES && ctx.csrf_token@ == #[trigger] crate::encoding::base64_url(b),
            opt_string_view(ctx.origin) == crate::session::opt_view(origin),
    {
        let cookies = parse_cookies(cookie_header);
        let now = crate::session::unix_now();
        let has_token = cookies.get("em_csrf").is_some();
        let fresh = if has_token {
            String::new()
        } else {
            crate::session::new_csrf_token()
        };
        Self::from_parts_at(cookie_header, origin, secret_key, now, fresh)
    }

    /// The user id that the session holds, when it holds an integer one.
    pub fn user_id(&self) -> (r: Option<i64>)
        ensures
            r == session_user_id(self.session@),
    {
        match self.session.get("user_id") {
            Some(v) => v,
            None => None,
        }
    }
}

/// The integer `user_id` of a session, if it has one.
pub open spec fn session_user_id(session: Map<Seq<char>, Option<i64>>) -> Option<i64> {
    if session.contains_key("user_id"@) {
        session["user_id"@]
    } else {
        None
    }
}

/// Whether a form passes the CSRF check: its `_csrf` field is present,
/// not empty, and equal to the request's CSRF token.
pub open spec fn csrf_valid(token: Seq<char>, form: Map<Seq<char>, Seq<char>>) -> bool {
    let submitted = field_or_empty(form, "_csrf"@);
    submitted.len() > 0 && submitted == token
}

/// The CSRF check of a submitted form.
pub fn validate_csrf(ctx: &RequestContext, form: &FormData) -> (r: bool)
    ensures
        r == csrf_valid(ctx.csrf_token@, form.values@),
{
    let submitted = form.get("_csrf");
    !submitted.as_str().is_empty() && crate::text::str_eq(submitted.as_str(), ctx.csrf_token.as_str())
}

/// A form passes the CSRF check only when it submits, as `_csrf`, the
/// request's own token, and that token is not empty.
pub proof fn lemma_csrf_accepts_only_the_token(token: Seq<char>, form: Map<Seq<char>, Seq<char>>)
    ensures
        csrf_valid(token, form) <==> form.contains_key("_csrf"@) && form["_csrf"@] == token
            && token.len() > 0,
{
}

} // verus!
