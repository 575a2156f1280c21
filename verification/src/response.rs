//! Building responses: status, headers (security headers on every
//! response, CORS headers for the configured origin, cookies) and body.
use vstd::prelude::*;

use crate::config::Config;
use crate::http::RequestContext;
use crate::text::{owned, push_str};

verus! {

pub type HeaderList = Seq<(Seq<char>, Seq<char>)>;

pub open spec fn header_view(hs: Seq<(String, String)>) -> HeaderList {
    hs.map_values(|h: (String, String)| (h.0@, h.1@))
}

/// The headers other than `name`, in order.
pub open spec fn without_name(hs: HeaderList, name: Seq<char>) -> HeaderList
    decreases hs.len(),
{
    if hs.len() == 0 {
        hs
    } else {
        let p = without_name(hs.drop_last(), name);
        if hs.last().0 == name {
            p
        } else {
            p.push(hs.last())
        }
    }
}

/// `HeaderMap::insert`: every value of `name` is replaced by `value`.
pub open spec fn header_insert(hs: HeaderList, name: Seq<char>, value: Seq<char>) -> HeaderList {
    without_name(hs, name).push((name, value))
}

/// `HeaderMap::append`: `value` is added to the values of `name`.
pub open spec fn header_append(hs: HeaderList, name: Seq<char>, value: Seq<char>) -> HeaderList {
    hs.push((name, value))
}

/// The values of `name`, in order.
pub open spec fn header_values(hs: HeaderList, name: Seq<char>) -> Seq<Seq<char>>
    decreases hs.len(),
{
    if hs.len() == 0 {
        Seq::empty()
    } else {
        let p = header_values(hs.drop_last(), name);
        if hs.last().0 == name {
            p.push(hs.last().1)
        } else {
            p
        }
    }
}

proof fn lemma_without_name_values(hs: HeaderList, n: Seq<char>, name: Seq<char>)
    ensures
        header_values(without_name(hs, n), name) == if n == name {
            Seq::<Seq<char>>::empty()
        } else {
            header_values(hs, name)
        },
    decreases hs.len(),
{
    if hs.len() > 0 {
        lemma_without_name_values(hs.drop_last(), n, name);
        let p = without_name(hs.drop_last(), n);
        if hs.last().0 != n {
            assert(p.push(hs.last()).drop_last() =~= p);
        }
    }
}

/// After `header_insert`, the inserted name has exactly the inserted
/// value, and every other name keeps its values.
pub proof fn lemma_header_insert(hs: HeaderList, n: Seq<char>, v: Seq<char>, name: Seq<char>)
    ensures
        header_values(header_insert(hs, n, v), name) == if n == name {
            seq![v]
        } else {
            header_values(hs, name)
        },
{
    let w = without_name(hs, n);
    lemma_without_name_values(hs, n, name);
    assert(w.push((n, v)).drop_last() =~= w);
    if n == name {
        assert(Seq::<Seq<char>>::empty().push(v) =~= seq![v]);
    }
}

/// After `header_append`, the appended name has one more value, and every
/// other name keeps its values.
pub proof fn lemma_header_append(hs: HeaderList, n: Seq<char>, v: Seq<char>, name: Seq<char>)
    ensures
        header_values(header_append(hs, n, v), name) == if n == name {
            header_values(hs, name).push(v)
        } else {
            header_values(hs, name)
        },
{
    assert(hs.push((n, v)).drop_last() =~= hs);
}

/// The headers that every response carries, by lowercase name.
pub open spec fn security_header_list() -> HeaderList {
    seq![
        ("x-content-type-options"@, "nosniff"@),
        ("x-frame-options"@, "DENY"@),
        ("referrer-policy"@, "strict-origin-when-cross-origin"@),
        ("content-security-policy"@, "default-src 'self'; script-src 'self' https://unpkg.com https://cdn.tailwindcss.com 'unsafe-inline'; style-src 'self' https://cdn.tailwindcss.com 'unsafe-inline'; connect-src 'self'; img-src 'self' data:; base-uri 'self'; form-action 'self'; frame-ancestors 'none'"@),
        ("permissions-policy"@, "camera=(), microphone=(), geolocation=()"@),
    ]
}

/// The security headers.
pub fn security_headers() -> (out: Vec<(String, String)>)
    ensures
        header_view(out@) == security_header_list(),
{
    let mut out: Vec<(String, String)> = Vec::new();
    out.push((owned("x-content-type-options"), owned("nosniff")));
    out.push((owned("x-frame-options"), owned("DENY")));
    out.push((owned("referrer-policy"), owned("strict-origin-when-cross-origin")));
    out.push(
        (
            owned("content-security-policy"),
            owned(
                "default-src 'self'; script-src 'self' https://unpkg.com https://cdn.tailwindcss.com 'unsafe-inline'; style-src 'self' https://cdn.tailwindcss.com 'unsafe-inline'; connect-src 'self'; img-src 'self' data:; base-uri 'self'; form-action 'self'; frame-ancestors 'none'",
            ),
        ),
    );
    out.push((owned("permissions-policy"), owned("camera=(), microphone=(), geolocation=()")));
    assert(header_view(out@) =~= security_header_list());
    out
}

/// Whether `c` may stand in a header value: a tab, or any character from
/// space on except DEL (the rule of `HeaderValue::from_str` on the UTF-8
/// bytes, since every byte of a non-ASCII character is at least 128).
pub open spec fn header_char_ok(c: char) -> bool {
    c == '\t' || (' ' <= c && c != '\u{7f}')
}

pub open spec fn header_text_ok(s: Seq<char>) -> bool {
    forall|i: int| 0 <= i < s.len() ==> header_char_ok(#[trigger] s[i])
}

/// The characters a header value takes: a tab, every character from space
/// to `~`, and every character beyond ASCII; control characters other than
/// the tab, and DEL, are refused. So a redirect to a location made of taken
/// characters (an ordinary path with a query string among them) goes there
/// unchanged, and one holding a refused character goes to the root.
pub proof fn lemma_header_text_rule(s: Seq<char>)
    ensures
        (forall|i: int|
            0 <= i < s.len() ==> (#[trigger] s[i] == '\t' || (' ' <= s[i] && s[i] <= '~') || (
            s[i] as int) >= 128)) ==> header_text_ok(s) && redirect_target(s) == s,
        (exists|i: int|
            0 <= i < s.len() && (((#[trigger] s[i] as int) < 32 && s[i] != '\t') || s[i]
                == '\u{7f}')) ==> !header_text_ok(s) && redirect_target(s) == "/"@,
{
    if exists|i: int|
        0 <= i < s.len() && (((#[trigger] s[i] as int) < 32 && s[i] != '\t') || s[i] == '\u{7f}') {
        let i = choose|i: int|
            0 <= i < s.len() && (((#[trigger] s[i] as int) < 32 && s[i] != '\t') || s[i]
                == '\u{7f}');
        assert(!header_char_ok(s[i]));
    }
}

/// Whether `s` is a valid header value.
pub fn header_value_ok(s: &str) -> (r: bool)
    ensures
        r == header_text_ok(s@),
{
    let cs = crate::text::chars_of(s);
    let mut i: usize = 0;
    while i < cs.len()
        invariant
            cs@ == s@,
            i <= cs@.len(),
            forall|j: int| 0 <= j < i ==> header_char_ok(#[trigger] cs@[j]),
        decreases cs@.len() - i,
    {
        let c = cs[i];
        if !(c == '\t' || (' ' <= c && c != '\u{7f}')) {
            return false;
        }
        i = i + 1;
    }
    true
}

/// The text of a `Set-Cookie` header.
pub open spec fn cookie_text(name: Seq<char>, value: Seq<char>, max_age: i64, secure: bool) -> Seq<char> {
    name + "="@ + value + "; Path=/; HttpOnly; SameSite=Lax; Max-Age="@ + crate::text::int_string(
        max_age as int,
    ) + if secure {
        "; Secure"@
    } else {
        Seq::<char>::empty()
    }
}

/// The `Set-Cookie` value: the cookie text, or the empty value when the
/// text cannot be a header value.
pub open spec fn set_cookie_value(name: Seq<char>, value: Seq<char>, max_age: i64, secure: bool) -> Seq<char> {
    if header_text_ok(cookie_text(name, value, max_age, secure)) {
        cookie_text(name, value, max_age, secure)
    } else {
        Seq::empty()
    }
}

/// A `Set-Cookie` value for cookie `name`, valid for `max_age` seconds,
/// HTTP-only and same-site lax, and marked secure when `secure` is set.
pub fn set_cookie(name: &str, value: &str, max_age: i64, secure: bool) -> (out: String)
    ensures
        out@ == set_cookie_value(name@, value@, max_age, secure),
{
    let mut text = owned(name);
    push_str(&mut text, "=");
    push_str(&mut text, value);
    push_str(&mut text, "; Path=/; HttpOnly; SameSite=Lax; Max-Age=");
    crate::text::push_int(&mut text, max_age);
    if secure {
        push_str(&mut text, "; Secure");
    }
    assert(text@ =~= cookie_text(name@, value@, max_age, secure));
    if header_value_ok(text.as_str()) {
        text
    } else {
        String::new()
    }
}

/// A `Set-Cookie` value that removes cookie `name`.
pub fn delete_cookie(name: &str, secure: bool) -> (out: String)
    ensures
        out@ == set_cookie_value(name@, Seq::empty(), 0, secure),
{
    proof {
        reveal_strlit("");
    }
    set_cookie(name, "", 0, secure)
}

/// The headers after the security headers and, when the request comes
/// from the configured origin, the CORS headers.
pub open spec fn with_security_and_cors(hs: HeaderList, cors: Option<Seq<char>>, origin: Option<Seq<char>>) -> HeaderList {
    let s = security_header_list();
    let h = header_insert(
        header_insert(
            header_insert(header_insert(header_insert(hs, s[0].0, s[0].1), s[1].0, s[1].1), s[2].0, s[2].1),
            s[3].0,
            s[3].1,
        ),
        s[4].0,
        s[4].1,
    );
    match cors {
        Some(allowed) => if origin == Some(allowed) {
            header_insert(
                header_insert(header_insert(h, "access-control-allow-origin"@, allowed), "access-control-allow-credentials"@, "true"@),
                "vary"@,
                "Origin"@,
            )
        } else {
            h
        },
        None => h,
    }
}

/// A response: status code, headers by lowercase name, and body.
pub struct AppResponse {
    status: u16,
    headers: Vec<(String, String)>,
    body: String,
}

impl AppResponse {
    pub closed spec fn status_spec(&self) -> u16 {
        self.status
    }

    pub closed spec fn header_spec(&self) -> HeaderList {
        header_view(self.headers@)
    }

    pub closed spec fn body_spec(&self) -> Seq<char> {
        self.body@
    }

    pub fn status(&self) -> (r: u16)
        ensures
            r == self.status_spec(),
    {
        self.status
    }

    /// The headers, as `(lowercase name, value)` pairs in order.
    pub fn headers(&self) -> (r: &Vec<(String, String)>)
        ensures
            header_view(r@) == self.header_spec(),
    {
        &self.headers
    }

    pub fn body(&self) -> (r: &String)
        ensures
            r@ == self.body_spec(),
    {
        &self.body
    }

    fn insert_header(&mut self, name: String, value: String)
        ensures
            final(self).header_spec() == header_insert(old(self).header_spec(), name@, value@),
            final(self).status_spec() == old(self).status_spec(),
            final(self).body_spec() == old(self).body_spec(),
    {
        let ghost hs = header_view(self.headers@);
        let mut kept: Vec<(String, String)> = Vec::new();
        let mut i: usize = 0;
        while i < self.headers.len()
            invariant
                i <= self.headers@.len(),
                hs == header_view(self.headers@),
                header_view(kept@) == without_name(hs.take(i as int), name@),
            decreases self.headers@.len() - i,
        {
            assert(hs.take(i + 1).drop_last() =~= hs.take(i as int));
            assert(hs.take(i + 1).last() == hs[i as int]);
            assert(hs[i as int] == (self.headers@[i as int].0@, self.headers@[i as int].1@));
            let same = crate::text::str_eq(self.headers[i].0.as_str(), name.as_str());
            if !same {
                let entry = (self.headers[i].0.clone(), self.headers[i].1.clone());
                let ghost before = header_view(kept@);
                kept.push(entry);
                assert(header_view(kept@) =~= before.push(hs[i as int]));
            }
            i = i + 1;
        }
        assert(hs.take(hs.len() as int) =~= hs);
        kept.push((name, value));
        assert(header_view(kept@) =~= header_insert(hs, name@, value@));
        self.headers = kept;
    }

    fn append_header(&mut self, name: String, value: String)
        ensures
            final(self).header_spec() == header_append(old(self).header_spec(), name@, value@),
            final(self).status_spec() == old(self).status_spec(),
            final(self).body_spec() == old(self).body_spec(),
    {
        self.headers.push((name, value));
        assert(header_view(self.headers@) =~= header_append(header_view(old(self).headers@), name@, value@));
    }

    /// Adds the security headers, and the CORS headers when the request
    /// comes from the configured origin.
    fn apply_security_and_cors(&mut self, config: &Config, ctx: &RequestContext)
        ensures
            final(self).header_spec() == with_security_and_cors(
                old(self).header_spec(),
                crate::config::opt_view(config.cors_allow_origin),
                crate::http::opt_string_view(ctx.origin),
            ),
            final(self).status_spec() == old(self).status_spec(),
            final(self).body_spec() == old(self).body_spec(),
    {
        let sec = security_headers();
        let mut i: usize = 0;
        let ghost start = self.header_spec();
        let ghost s = security_header_list();
        while i < sec.len()
            invariant
                header_view(sec@) == s,
                i <= sec@.len(),
                self.status_spec() == old(self).status_spec(),
                self.body_spec() == old(self).body_spec(),
                start == old(self).header_spec(),
                i == 0 ==> self.header_spec() == start,
                i == 1 ==> self.header_spec() == header_insert(start, s[0].0, s[0].1),
                i == 2 ==> self.header_spec() == header_insert(header_insert(start, s[0].0, s[0].1), s[1].0, s[1].1),
                i == 3 ==> self.header_spec() == header_insert(header_insert(header_insert(start, s[0].0, s[0].1), s[1].0, s[1].1), s[2].0, s[2].1),
                i == 4 ==> self.header_spec() == header_insert(header_insert(header_insert(header_insert(start, s[0].0, s[0].1), s[1].0, s[1].1), s[2].0, s[2].1), s[3].0, s[3].1),
                i == 5 ==> self.header_spec() == header_insert(header_insert(header_insert(header_insert(header_insert(start, s[0].0, s[0].1), s[1].0, s[1].1), s[2].0, s[2].1), s[3].0, s[3].1), s[4].0, s[4].1),
            decreases sec@.len() - i,
        {
            let name = sec[i].0.clone();
            let value = sec[i].1.clone();
            assert(name@ == s[i as int].0 && value@ == s[i as int].1);
            self.insert_header(name, value);
            i = i + 1;
        }
        assert(header_view(sec@).len() == sec@.len());
        assert(i == 5);
        match &config.cors_allow_origin {
            Some(allowed) => {
                let same = match &ctx.origin {
                    Some(o) => crate::text::str_eq(o.as_str(), allowed.as_str()),
                    None => false,
                };
                if same {
                    self.insert_header(owned("access-control-allow-origin"), allowed.clone());
                    self.insert_header(owned("access-control-allow-credentials"), owned("true"));
                    self.insert_header(owned("vary"), owned("Origin"));
                }
            },
            None => {},
        }
    }
}

/// The headers of a page: its content type, then the CSRF cookie when
/// asked for, then the security and CORS headers.
pub open spec fn page_headers(
    content_type: Seq<char>,
    csrf_cookie: Option<Seq<char>>,
    cors: Option<Seq<char>>,
    origin: Option<Seq<char>>,
) -> HeaderList {
    let h = header_insert(Seq::empty(), "content-type"@, content_type);
    let h = match csrf_cookie {
        Some(c) => header_append(h, "set-cookie"@, c),
        None => h,
    };
    with_security_and_cors(h, cors, origin)
}

/// Where a redirect goes: `location` when it can be a header value, else
/// the root.
pub open spec fn redirect_target(location: Seq<char>) -> Seq<char> {
    if header_text_ok(location) {
        location
    } else {
        "/"@
    }
}

/// The headers of a redirect, before any cookie.
pub open spec fn redirect_headers(location: Seq<char>, cors: Option<Seq<char>>, origin: Option<Seq<char>>) -> HeaderList {
    with_security_and_cors(
        header_insert(Seq::empty(), "location"@, redirect_target(location)),
        cors,
        origin,
    )
}

/// The session of a signed-in user: `user_id` and nothing else.
pub open spec fn user_session_entries(user_id: i64) -> Seq<(Seq<char>, Option<i64>)> {
    seq![("user_id"@, Some(user_id))]
}

impl AppResponse {
    fn new(status: u16, body: String) -> (r: AppResponse)
        ensures
            r.status_spec() == status,
            r.body_spec() == body@,
            r.header_spec() == Seq::<(Seq<char>, Seq<char>)>::empty(),
    {
        let r = AppResponse { status, headers: Vec::new(), body };
        assert(header_view(r.headers@) =~= Seq::<(Seq<char>, Seq<char>)>::empty());
        r
    }

    /// Adds the CSRF cookie of the request.
    fn push_csrf_cookie(&mut self, ctx: &RequestContext, config: &Config)
        ensures
            final(self).header_spec() == header_append(
                old(self).header_spec(),
                "set-cookie"@,
                set_cookie_value(
                    crate::http::csrf_cookie_name(),
                    ctx.csrf_token@,
                    crate::session::SESSION_TTL_SECONDS,
                    config.cookie_secure,
                ),
            ),
            final(self).status_spec() == old(self).status_spec(),
            final(self).body_spec() == old(self).body_spec(),
    {
        let cookie = set_cookie(
            "em_csrf",
            ctx.csrf_token.as_str(),
            crate::session::SESSION_TTL_SECONDS,
            config.cookie_secure,
        );
        self.append_header(owned("set-cookie"), cookie);
    }

    /// A rendered HTML page (status 200), with the CSRF cookie when
    /// `attach_csrf` is set.
    pub fn html(config: &Config, ctx: &RequestContext, rendered: String, attach_csrf: bool) -> (r:
        AppResponse)
        ensures
            r.status_spec() == 200,
            r.body_spec() == rendered@,
            r.header_spec() == page_headers(
                "text/html; charset=utf-8"@,
                if attach_csrf {
                    Some(
                        set_cookie_value(
                            crate::http::csrf_cookie_name(),
                            ctx.csrf_token@,
                            crate::session::SESSION_TTL_SECONDS,
                            config.cookie_secure,
                        ),
                    )
                } else {
                    None
                },
                crate::config::opt_view(config.cors_allow_origin),
                crate::http::opt_string_view(ctx.origin),
            ),
    {
        let mut r = AppResponse::new(200, rendered);
        r.insert_header(owned("content-type"), owned("text/html; charset=utf-8"));
        if attach_csrf {
            r.push_csrf_cookie(ctx, config);
        }
        r.apply_security_and_cors(config, ctx);
        r
    }

    /// A redirect (status 302) to `location`, or to the root when
    /// `location` cannot be a header value.
    pub fn redirect(config: &Config, ctx: &RequestContext, location: &str) -> (r: AppResponse)
        ensures
            r.status_spec() == 302,
            r.body_spec() == Seq::<char>::empty(),
            r.header_spec() == redirect_headers(
                location@,
                crate::config::opt_view(config.cors_allow_origin),
                crate::http::opt_string_view(ctx.origin),
            ),
    {
        let mut r = AppResponse::new(302, String::new());
        let target = if header_value_ok(location) {
            owned(location)
        } else {
            owned("/")
        };
        r.insert_header(owned("location"), target);
        r.apply_security_and_cors(config, ctx);
        r
    }

    /// A redirect to `location` that signs the user in at time `now`: it
    /// sets the session cookie, whose value reads back, at any time up to
    /// its expiry, as a session holding `user_id`.
    pub fn redirect_with_session_at(
        config: &Config,
        ctx: &RequestContext,
        location: &str,
        user_id: i64,
        now: i64,
    ) -> (r: AppResponse)
        ensures
            r.status_spec() == 302,
            r.body_spec() == Seq::<char>::empty(),
            r.header_spec() == header_append(
                redirect_headers(
                    location@,
                    crate::config::opt_view(config.cors_allow_origin),
                    crate::http::opt_string_view(ctx.origin),
                ),
                "set-cookie"@,
                set_cookie_value(
                    crate::http::session_cookie_name(),
                    crate::session::session_cookie(
                        user_session_entries(user_id),
                        config.secret_key@,
                        crate::session::expiry_from(now),
                    ),
                    crate::session::SESSION_TTL_SECONDS,
                    config.cookie_secure,
                ),
            ),
            forall|later: i64|
                later <= crate::session::expiry_from(now) ==> crate::http::session_user_id(
                    #[trigger] crate::session::session_at(
                        Some(
                            crate::session::session_cookie(
                                user_session_entries(user_id),
                                config.secret_key@,
                                crate::session::expiry_from(now),
                            ),
                        ),
                        config.secret_key@,
                        later,
                    ),
                ) == Some(user_id),
    {
        let mut session = crate::kv::SessionData::new();
        session.insert(owned("user_id"), Some(user_id));
        assert(session.entry_seq() =~= user_session_entries(user_id));
        let value = crate::session::encode_session_at(&session, config.secret_key.as_slice(), now);
        let mut r = AppResponse::redirect(config, ctx, location);
        let cookie = set_cookie(
            "em_session",
            value.as_str(),
            crate::session::SESSION_TTL_SECONDS,
            config.cookie_secure,
        );
        r.append_header(owned("set-cookie"), cookie);
        proof {
            assert(session@.contains_key("user_id"@));
        }
        r
    }

    /// A redirect to `location` that signs the user in, the session
    /// expiring `SESSION_TTL_SECONDS` from the current time.
    pub fn redirect_with_session(config: &Config, ctx: &RequestContext, location: &str, user_id: i64) -> (r:
        AppResponse)
        ensures
            r.status_spec() == 302,
            r.body_spec() == Seq::<char>::empty(),
            exists|now: i64|
                r.header_spec() == header_append(
                    redirect_headers(
                        location@,
                        crate::config::opt_view(config.cors_allow_origin),
                        crate::http::opt_string_view(ctx.origin),
                    ),
                    "set-cookie"@,
                    set_cookie_value(
                        crate::http::session_cookie_name(),
                        #[trigger] crate::session::session_cookie(
                            user_session_entries(user_id),
                            config.secret_key@,
                            crate::session::expiry_from(now),
                        ),
                        crate::session::SESSION_TTL_SECONDS,
                        config.cookie_secure,
                    ),
                ),
    {
        let now = crate::session::unix_now();
        AppResponse::redirect_with_session_at(config, ctx, location, user_id, now)
    }

    /// A redirect to `location` that signs the user out: it clears the
    /// session cookie.
    pub fn clear_session_redirect(config: &Config, ctx: &RequestContext, location: &str) -> (r:
        AppResponse)
        ensures
            r.status_spec() == 302,
            r.body_spec() == Seq::<char>::empty(),
            r.header_spec() == header_append(
                redirect_headers(
                    location@,
                    crate::config::opt_view(config.cors_allow_origin),
                    crate::http::opt_string_view(ctx.origin),
                ),
                "set-cookie"@,
                set_cookie_value(
                    crate::http::session_cookie_name(),
                    Seq::empty(),
                    0,
                    config.cookie_secure,
                ),
            ),
    {
        let mut r = AppResponse::redirect(config, ctx, location);
        let cookie = delete_cookie("em_session", config.cookie_secure);
        r.append_header(owned("set-cookie"), cookie);
        r
    }

    /// A plain-text response with the given status.
    pub fn text(config: &Config, ctx: &RequestContext, status: u16, body: &str) -> (r: AppResponse)
        ensures
            r.status_spec() == status,
            r.body_spec() == body@,
            r.header_spec() == page_headers(
                "text/plain; charset=utf-8"@,
                None,
                crate::config::opt_view(config.cors_allow_origin),
                crate::http::opt_string_view(ctx.origin),
            ),
    {
        let mut r = AppResponse::new(status, owned(body));
        r.insert_header(owned("content-type"), owned("text/plain; charset=utf-8"));
        r.apply_security_and_cors(config, ctx);
        r
    }

    /// A plain-text refusal (status 403).
    pub fn forbidden(config: &Config, ctx: &RequestContext, body: &str) -> (r: AppResponse)
        ensures
            r.status_spec() == 403,
            r.body_spec() == body@,
            r.header_spec() == page_headers(
                "text/plain; charset=utf-8"@,
                None,
                crate::config::opt_view(config.cors_allow_origin),
                crate::http::opt_string_view(ctx.origin),
            ),
    {
        AppResponse::text(config, ctx, 403, body)
    }

    /// A plain-text `Not Found` (status 404).
    pub fn not_found(config: &Config, ctx: &RequestContext) -> (r: AppResponse)
        ensures
            r.status_spec() == 404,
            r.body_spec() == "Not Found"@,
            r.header_spec() == page_headers(
                "text/plain; charset=utf-8"@,
                None,
                crate::config::opt_view(config.cors_allow_origin),
                crate::http::opt_string_view(ctx.origin),
            ),
    {
        AppResponse::text(config, ctx, 404, "Not Found")
    }
}

/// The header names that responses set: the security headers first, then
/// the CORS headers, then the content type, cookies and location.
pub open spec fn header_names() -> Seq<Seq<char>> {
    let s = security_header_list();
    seq![
        s[0].0,
        s[1].0,
        s[2].0,
        s[3].0,
        s[4].0,
        "access-control-allow-origin"@,
        "access-control-allow-credentials"@,
        "vary"@,
        "content-type"@,
        "set-cookie"@,
        "location"@,
    ]
}

proof fn lemma_header_names_distinct()
    ensures
        forall|i: int, j: int|
            0 <= i < j < header_names().len() ==> #[trigger] header_names()[i] != #[trigger] header_names()[j],
{
    reveal_strlit("x-content-type-options");
    reveal_strlit("x-frame-options");
    reveal_strlit("referrer-policy");
    reveal_strlit("content-security-policy");
    reveal_strlit("permissions-policy");
    reveal_strlit("access-control-allow-origin");
    reveal_strlit("access-control-allow-credentials");
    reveal_strlit("vary");
    reveal_strlit("content-type");
    reveal_strlit("set-cookie");
    reveal_strlit("location");
    let names = header_names();
    assert forall|i: int, j: int| 0 <= i < j < names.len() implies names[i] != names[j] by {
        if names[i] == names[j] {
            assert(names[i].len() == names[j].len());
            assert(names[i][0] == names[j][0]);
            assert(names[i][names[i].len() - 1] == names[j][names[j].len() - 1]);
            assert(names[i][1] == names[j][1]);
            assert(names[i][2] == names[j][2]);
        }
    }
}

proof fn lemma_names_differ(i: int, j: int)
    requires
        0 <= i < header_names().len(),
        0 <= j < header_names().len(),
        i != j,
    ensures
        header_names()[i] != header_names()[j],
{
    lemma_header_names_distinct();
    if i < j {
        assert(header_names()[i] != header_names()[j]);
    } else {
        assert(header_names()[j] != header_names()[i]);
    }
}

/// The values of name number `k` of `header_names` after a run of
/// inserts of other names, each of which is one of `header_names`.
proof fn lemma_insert_others(hs: HeaderList, k: int, ins: Seq<(int, Seq<char>)>)
    requires
        0 <= k < header_names().len(),
        forall|j: int| 0 <= j < ins.len() ==> 0 <= #[trigger] ins[j].0 < header_names().len() && ins[j].0 != k,
    ensures
        header_values(insert_all(hs, ins), header_names()[k]) == header_values(hs, header_names()[k]),
    decreases ins.len(),
{
    if ins.len() > 0 {
        let last = ins.last();
        lemma_insert_others(hs, k, ins.drop_last());
        lemma_names_differ(last.0, k);
        lemma_header_insert(insert_all(hs, ins.drop_last()), header_names()[last.0], last.1, header_names()[k]);
    }
}

/// The headers after inserting, in order, each named header of `ins`
/// (by its number in `header_names`).
pub open spec fn insert_all(hs: HeaderList, ins: Seq<(int, Seq<char>)>) -> HeaderList
    decreases ins.len(),
{
    if ins.len() == 0 {
        hs
    } else {
        header_insert(insert_all(hs, ins.drop_last()), header_names()[ins.last().0], ins.last().1)
    }
}

/// Every response carries each security header exactly once, with its
/// value; the CORS headers are set, to the configured origin, exactly when
/// the request comes from that origin, and otherwise left as they were.
pub proof fn lemma_security_and_cors(hs: HeaderList, cors: Option<Seq<char>>, origin: Option<Seq<char>>)
    ensures
        forall|i: int|
            0 <= i < 5 ==> header_values(with_security_and_cors(hs, cors, origin), #[trigger] security_header_list()[i].0)
                == seq![security_header_list()[i].1],
        header_values(with_security_and_cors(hs, cors, origin), "access-control-allow-origin"@)
            == match cors {
            Some(a) => if origin == Some(a) {
                seq![a]
            } else {
                header_values(hs, "access-control-allow-origin"@)
            },
            None => header_values(hs, "access-control-allow-origin"@),
        },
{
    let s = security_header_list();
    let sec = seq![(0int, s[0].1), (1int, s[1].1), (2int, s[2].1), (3int, s[3].1), (4int, s[4].1)];
    let h5 = insert_all(hs, sec);
    assert(sec.drop_last().drop_last().drop_last().drop_last().drop_last() =~= Seq::<(int, Seq<char>)>::empty());
    assert(h5 == header_insert(header_insert(header_insert(header_insert(header_insert(hs, s[0].0, s[0].1), s[1].0, s[1].1), s[2].0, s[2].1), s[3].0, s[3].1), s[4].0, s[4].1)) by {
        reveal_with_fuel(insert_all, 6);
        assert(sec.drop_last() =~= seq![(0int, s[0].1), (1int, s[1].1), (2int, s[2].1), (3int, s[3].1)]);
        assert(sec.drop_last().drop_last() =~= seq![(0int, s[0].1), (1int, s[1].1), (2int, s[2].1)]);
        assert(sec.drop_last().drop_last().drop_last() =~= seq![(0int, s[0].1), (1int, s[1].1)]);
        assert(sec.drop_last().drop_last().drop_last().drop_last() =~= seq![(0int, s[0].1)]);
    }
    assert forall|i: int| 0 <= i < 5 implies header_values(h5, #[trigger] s[i].0) == seq![s[i].1] by {
        let before = sec.subrange(0, i);
        let after = sec.subrange(i + 1, 5);
        lemma_insert_split(hs, sec, i);
        lemma_insert_others(insert_all(hs, sec.subrange(0, i + 1)), i, after);
        lemma_header_insert(insert_all(hs, before), s[i].0, s[i].1, s[i].0);
        assert(header_names()[i] == s[i].0);
    }
    lemma_insert_others(hs, 5, sec);
    assert(header_names()[5] == "access-control-allow-origin"@);
    match cors {
        Some(a) => {
            if origin == Some(a) {
                let c1 = header_insert(h5, "access-control-allow-origin"@, a);
                let c2 = header_insert(c1, "access-control-allow-credentials"@, "true"@);
                let c3 = header_insert(c2, "vary"@, "Origin"@);
                let tail = seq![(5int, a), (6int, "true"@), (7int, "Origin"@)];
                assert(header_names()[6] == "access-control-allow-credentials"@);
                assert(header_names()[7] == "vary"@);
                assert forall|i: int| 0 <= i < 5 implies header_values(c3, #[trigger] s[i].0) == seq![s[i].1] by {
                    assert(header_names()[i] == s[i].0);
                    lemma_insert_others(h5, i, tail);
                    assert(tail.drop_last().drop_last().drop_last() =~= Seq::<(int, Seq<char>)>::empty());
                    assert(tail.drop_last().drop_last() =~= seq![(5int, a)]);
                    assert(tail.drop_last() =~= seq![(5int, a), (6int, "true"@)]);
                    assert(insert_all(h5, tail) == c3) by {
                        reveal_with_fuel(insert_all, 4);
                    }
                }
                lemma_header_insert(h5, "access-control-allow-origin"@, a, "access-control-allow-origin"@);
                lemma_names_differ(5, 6);
                lemma_names_differ(5, 7);
                lemma_header_insert(c1, "access-control-allow-credentials"@, "true"@, "access-control-allow-origin"@);
                lemma_header_insert(c2, "vary"@, "Origin"@, "access-control-allow-origin"@);
            }
        },
        None => {},
    }
}

/// Inserting a run of headers is inserting its first part, then entry
/// `i`, then the rest.
proof fn lemma_insert_split(hs: HeaderList, ins: Seq<(int, Seq<char>)>, i: int)
    requires
        0 <= i < ins.len(),
    ensures
        insert_all(hs, ins.subrange(0, i + 1)) == header_insert(insert_all(hs, ins.subrange(0, i)), header_names()[ins[i].0], ins[i].1),
        insert_all(hs, ins) == insert_all(insert_all(hs, ins.subrange(0, i + 1)), ins.subrange(i + 1, ins.len() as int)),
{
    assert(ins.subrange(0, i + 1).drop_last() =~= ins.subrange(0, i));
    lemma_insert_concat(hs, ins.subrange(0, i + 1), ins.subrange(i + 1, ins.len() as int));
    assert(ins.subrange(0, i + 1) + ins.subrange(i + 1, ins.len() as int) =~= ins);
}

proof fn lemma_insert_concat(hs: HeaderList, a: Seq<(int, Seq<char>)>, b: Seq<(int, Seq<char>)>)
    ensures
        insert_all(hs, a + b) == insert_all(insert_all(hs, a), b),
    decreases b.len(),
{
    if b.len() > 0 {
        lemma_insert_concat(hs, a, b.drop_last());
        assert((a + b).drop_last() =~= a + b.drop_last());
    } else {
        assert(a + b =~= a);
    }
}

/// A page, a plain-text response or a redirect carries the security
/// headers, and carries `Access-Control-Allow-Origin` only when the
/// request comes from the configured origin, set to that origin.
pub proof fn lemma_response_headers(
    content_type: Seq<char>,
    csrf_cookie: Option<Seq<char>>,
    location: Seq<char>,
    cors: Option<Seq<char>>,
    origin: Option<Seq<char>>,
)
    ensures
        forall|i: int|
            0 <= i < 5 ==> header_values(page_headers(content_type, csrf_cookie, cors, origin), #[trigger] security_header_list()[i].0)
                == seq![security_header_list()[i].1] && header_values(redirect_headers(location, cors, origin), security_header_list()[i].0)
                == seq![security_header_list()[i].1],
        header_values(page_headers(content_type, csrf_cookie, cors, origin), "access-control-allow-origin"@)
            == cors_value(cors, origin),
        header_values(redirect_headers(location, cors, origin), "access-control-allow-origin"@)
            == cors_value(cors, origin),
{
    lemma_names_differ(8, 5);
    lemma_names_differ(9, 5);
    lemma_names_differ(10, 5);
    let acao = "access-control-allow-origin"@;
    let e = Seq::<(Seq<char>, Seq<char>)>::empty();
    let h = header_insert(e, "content-type"@, content_type);
    lemma_header_insert(e, "content-type"@, content_type, acao);
    let h2 = match csrf_cookie {
        Some(c) => header_append(h, "set-cookie"@, c),
        None => h,
    };
    match csrf_cookie {
        Some(c) => {
            lemma_header_append(h, "set-cookie"@, c, acao);
        },
        None => {},
    }
    lemma_security_and_cors(h2, cors, origin);
    let r = header_insert(e, "location"@, redirect_target(location));
    lemma_header_insert(e, "location"@, redirect_target(location), acao);
    lemma_security_and_cors(r, cors, origin);
}

/// The `Access-Control-Allow-Origin` values of a response: the configured
/// origin when the request comes from it, else none.
pub open spec fn cors_value(cors: Option<Seq<char>>, origin: Option<Seq<char>>) -> Seq<Seq<char>> {
    match cors {
        Some(a) => if origin == Some(a) {
            seq![a]
        } else {
            Seq::empty()
        },
        None => Seq::empty(),
    }
}

} // verus!
