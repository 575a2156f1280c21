//! Service settings, with the defaults that apply where the environment
//! leaves a setting out.
use vstd::prelude::*;

use crate::text::{owned, push_char, push_str};

verus! {

/// The service's settings. Paths are kept as text.
pub struct Config {
    pub app_root: String,
    pub database_path: String,
    pub secret_key: Vec<u8>,
    pub host: String,
    pub port: u16,
    pub cookie_secure: bool,
    pub cors_allow_origin: Option<String>,
}

/// `base` joined with the relative path `rel`, as `Path::join` does on
/// Unix: a `/` goes between them unless `base` is empty or already ends
/// with one.
pub open spec fn path_join(base: Seq<char>, rel: Seq<char>) -> Seq<char> {
    if base.len() == 0 || base.last() == '/' {
        base + rel
    } else {
        base + seq!['/'] + rel
    }
}

/// `base` joined with the relative path `rel`.
pub fn join_path(base: &str, rel: &str) -> (out: String)
    ensures
        out@ == path_join(base@, rel@),
{
    let cs = crate::text::chars_of(base);
    let mut out = owned(base);
    if cs.len() > 0 && cs[cs.len() - 1] != '/' {
        push_char(&mut out, '/');
    }
    push_str(&mut out, rel);
    out
}

pub open spec fn or_default(v: Option<String>, d: Seq<char>) -> Seq<char> {
    match v {
        Some(s) => s@,
        None => d,
    }
}

/// `s.parse::<u16>().ok()`.
pub open spec fn parse_u16_spec(s: Seq<char>) -> Option<u16> {
    match crate::text::unsigned_text_value(s) {
        Some(v) => if v <= u16::MAX {
            Some(v as u16)
        } else {
            None
        },
        None => None,
    }
}

impl Config {
    /// The settings from the given environment values (`APP_ROOT` already
    /// resolved to `app_root`): the database defaults to
    /// `data/monitoring.db` under the root, the secret key to
    /// `dev-secret-change-me`, the host to `0.0.0.0`, the port to 8000 (also
    /// when the value is no `u16`), and cookies are secure exactly when
    /// `COOKIE_SECURE` is `1`.
    pub fn from_values(
        app_root: String,
        database_path: Option<String>,
        secret_key: Option<String>,
        host: Option<String>,
        port: Option<String>,
        cookie_secure: Option<String>,
        cors_allow_origin: Option<String>,
    ) -> (c: Config)
        ensures
            c.app_root@ == app_root@,
            c.database_path@ == match database_path {
                Some(p) => p@,
                None => path_join(app_root@, "data/monitoring.db"@),
            },
            c.secret_key@ == vstd::utf8::encode_utf8(or_default(secret_key, "dev-secret-change-me"@)),
            c.host@ == or_default(host, "0.0.0.0"@),
            c.port == match port {
                Some(p) => match parse_u16_spec(p@) {
                    Some(n) => n,
                    None => 8000u16,
                },
                None => 8000u16,
            },
            c.cookie_secure == (or_default(cookie_secure, "0"@) == "1"@),
            opt_view(c.cors_allow_origin) == opt_view(cors_allow_origin),
    {
        let database_path = match database_path {
            Some(p) => p,
            None => join_path(app_root.as_str(), "data/monitoring.db"),
        };
        let secret = match secret_key {
            Some(s) => s,
            None => owned("dev-secret-change-me"),
        };
        let secret_key = vstd::slice::slice_to_vec(secret.as_str().as_bytes());
        let host = match host {
            Some(h) => h,
            None => owned("0.0.0.0"),
        };
        let port = match port {
            Some(p) => match crate::text::parse_u32(p.as_str()) {
                Some(n) => if n <= 0xffff {
                    n as u16
                } else {
                    8000
                },
                None => 8000,
            },
            None => 8000,
        };
        let cookie_secure = match cookie_secure {
            Some(v) => crate::text::str_eq(v.as_str(), "1"),
            None => crate::text::str_eq("0", "1"),
        };
        Config { app_root, database_path, secret_key, host, port, cookie_secure, cors_allow_origin }
    }

    /// Where the SQL query files are: `db/queries` under the root.
    pub fn queries_dir(&self) -> (out: String)
        ensures
            out@ == path_join(self.app_root@, "db/queries"@),
    {
        join_path(self.app_root.as_str(), "db/queries")
    }

    /// Where the templates are: `templates` under the root.
    pub fn templates_dir(&self) -> (out: String)
        ensures
            out@ == path_join(self.app_root@, "templates"@),
    {
        join_path(self.app_root.as_str(), "templates")
    }
}

pub open spec fn opt_view(o: Option<String>) -> Option<Seq<char>> {
    match o {
        None => None,
        Some(s) => Some(s@),
    }
}

} // verus!
