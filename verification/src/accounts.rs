//! Accounts: the signed-in user's record, registration and sign-in
//! decisions, and the organisation's notification settings.
use vstd::prelude::*;

use crate::kv::{pairs_map, StrMap};
use crate::text::{owned, trim};

verus! {

// ---------------------------------------------------------------------------
// User records
// ---------------------------------------------------------------------------
/// A column value of a database row.
#[derive(Debug)]
pub enum FieldValue {
    Null,
    Integer(i64),
    /// A floating-point value, held as its integer reading when it is a
    /// whole number that fits an `i64`.
    Real(Option<i64>),
    Text(String),
}

/// The integer reading of a value (`Value::as_i64`).
pub open spec fn field_int(v: FieldValue) -> Option<i64> {
    match v {
        FieldValue::Integer(n) => Some(n),
        FieldValue::Real(w) => w,
        _ => None,
    }
}

/// The text reading of a value (`Value::as_str`).
pub open spec fn field_text(v: FieldValue) -> Option<Seq<char>> {
    match v {
        FieldValue::Text(s) => Some(s@),
        _ => None,
    }
}

pub open spec fn user_entries(s: Seq<(String, FieldValue)>) -> Seq<(Seq<char>, (Option<i64>, Option<Seq<char>>))> {
    s.map_values(|e: (String, FieldValue)| (e.0@, (field_int(e.1), field_text(e.1))))
}

/// A user row: column values by column name.
pub struct User {
    fields: Vec<(String, FieldValue)>,
}

fn copy_value(v: &FieldValue) -> (r: FieldValue)
    ensures
        r == *v,
{
    match v {
        FieldValue::Null => FieldValue::Null,
        FieldValue::Integer(n) => FieldValue::Integer(*n),
        FieldValue::Real(w) => FieldValue::Real(*w),
        FieldValue::Text(s) => FieldValue::Text(s.clone()),
    }
}

impl View for User {
    type V = Map<Seq<char>, (Option<i64>, Option<Seq<char>>)>;

    closed spec fn view(&self) -> Map<Seq<char>, (Option<i64>, Option<Seq<char>>)> {
        pairs_map(user_entries(self.fields@))
    }
}

/// The integer reading of column `key`.
pub open spec fn user_int(u: Map<Seq<char>, (Option<i64>, Option<Seq<char>>)>, key: Seq<char>) -> Option<i64> {
    if u.contains_key(key) {
        u[key].0
    } else {
        None
    }
}

/// The text reading of column `key`.
pub open spec fn user_text(u: Map<Seq<char>, (Option<i64>, Option<Seq<char>>)>, key: Seq<char>) -> Option<Seq<char>> {
    if u.contains_key(key) {
        u[key].1
    } else {
        None
    }
}

impl User {
    /// The row's columns, in order, as they were given.
    pub closed spec fn columns(&self) -> Seq<(String, FieldValue)> {
        self.fields@
    }

    /// The user of a row's columns; a later column of the same name
    /// replaces an earlier one.
    pub fn from_map(fields: Vec<(String, FieldValue)>) -> (u: User)
        ensures
            u.columns() == fields@,
            u@ == pairs_map(user_entries(fields@)),
    {
        User { fields }
    }

    fn lookup(&self, key: &str) -> (r: Option<usize>)
        ensures
            match r {
                Some(i) => i < self.fields@.len() && self@.contains_key(key@) && self@[key@] == (
                    field_int(self.fields@[i as int].1),
                    field_text(self.fields@[i as int].1),
                ),
                None => !self@.contains_key(key@),
            },
    {
        let ghost s = user_entries(self.fields@);
        let mut i: usize = self.fields.len();
        while i > 0
            invariant
                i <= self.fields@.len(),
                s == user_entries(self.fields@),
                forall|j: int| i <= j < s.len() ==> #[trigger] s[j].0 != key@,
            decreases i,
        {
            let same = crate::text::str_eq(self.fields[i - 1].0.as_str(), key);
            if same {
                proof {
                    crate::kv::lemma_pairs_map_last(s, key@, i - 1);
                }
                return Some(i - 1);
            }
            i = i - 1;
        }
        proof {
            crate::kv::lemma_pairs_map_absent(s, key@);
        }
        None
    }

    /// The integer reading of column `key`.
    pub fn get_i64(&self, key: &str) -> (r: Option<i64>)
        ensures
            r == user_int(self@, key@),
    {
        match self.lookup(key) {
            Some(i) => match &self.fields[i].1 {
                FieldValue::Integer(n) => Some(*n),
                FieldValue::Real(w) => *w,
                _ => None,
            },
            None => None,
        }
    }

    /// The text of column `key`, when it holds text.
    pub fn get_str(&self, key: &str) -> (r: Option<&str>)
        ensures
            match r {
                Some(s) => user_text(self@, key@) == Some(s@),
                None => user_text(self@, key@) is None,
            },
    {
        match self.lookup(key) {
            Some(i) => match &self.fields[i].1 {
                FieldValue::Text(s) => Some(s.as_str()),
                _ => None,
            },
            None => None,
        }
    }

    /// The columns, for rendering: each column's name and value, in order.
    pub fn template_map(&self) -> (out: Vec<(String, FieldValue)>)
        ensures
            out@ == self.columns(),
            pairs_map(user_entries(out@)) == self@,
    {
        let mut out: Vec<(String, FieldValue)> = Vec::new();
        let mut i: usize = 0;
        while i < self.fields.len()
            invariant
                i <= self.fields@.len(),
                out@ == self.fields@.take(i as int),
            decreases self.fields@.len() - i,
        {
            let k = self.fields[i].0.clone();
            let v = copy_value(&self.fields[i].1);
            out.push((k, v));
            assert(out@ =~= self.fields@.take(i + 1));
            i = i + 1;
        }
        assert(self.fields@.take(self.fields@.len() as int) =~= self.fields@);
        out
    }
}

// ---------------------------------------------------------------------------
// Sign-in
// ---------------------------------------------------------------------------
/// The stored hash of a user row: its `password_hash` text, or empty.
pub open spec fn stored_hash_of(u: Map<Seq<char>, (Option<i64>, Option<Seq<char>>)>) -> Seq<char> {
    match user_text(u, "password_hash"@) {
        Some(h) => h,
        None => Seq::empty(),
    }
}

/// The id of a user row: its `id` integer, or 0.
pub open spec fn id_of(u: Map<Seq<char>, (Option<i64>, Option<Seq<char>>)>) -> i64 {
    match user_int(u, "id"@) {
        Some(n) => n,
        None => 0,
    }
}

/// The user to sign in, given the row found for the username (if any) and
/// the submitted password: none without a row or when the password does
/// not match the row's hash, else the row's id.
pub open spec fn login_result(
    row: Option<Map<Seq<char>, (Option<i64>, Option<Seq<char>>)>>,
    password: Seq<char>,
) -> Option<i64> {
    match row {
        None => None,
        Some(u) => if crate::password::password_matches(password, stored_hash_of(u)) {
            Some(id_of(u))
        } else {
            None
        },
    }
}

/// The columns of the row found, if any.
pub open spec fn row_view(row: Option<&User>) -> Option<Map<Seq<char>, (Option<i64>, Option<Seq<char>>)>> {
    match row {
        Some(u) => Some(u@),
        None => None,
    }
}

/// A refused sign-in does not tell an unknown username from a wrong
/// password: with no row for the username, and with a row whose hash the
/// password does not match, the answer is the same, no user.
pub proof fn lemma_login_refusal_same(u: Map<Seq<char>, (Option<i64>, Option<Seq<char>>)>, password: Seq<char>)
    requires
        !crate::password::password_matches(password, stored_hash_of(u)),
    ensures
        login_result(Some(u), password) == login_result(None, password),
        login_result(None, password) is None,
{
}

/// The user to sign in for a username's row and the submitted password:
/// none without a row or when the password does not match the row's hash.
pub fn login_user_id(row: Option<&User>, password: &str) -> (r: Option<i64>)
    requires
        row matches Some(u) ==> stored_hash_of(u@).len() <= 2 * crate::password::PBKDF2_MAX_OUTPUT,
    ensures
        r == login_result(row_view(row), password@),
{
    let u = match row {
        Some(u) => u,
        None => return None,
    };
    let hash = match u.get_str("password_hash") {
        Some(h) => h,
        None => {
            proof {
                reveal_strlit("");
            }
            ""
        },
    };
    let id = match u.get_i64("id") {
        Some(n) => n,
        None => 0,
    };
    if crate::password::verify_password(password, hash) {
        Some(id)
    } else {
        None
    }
}

// ---------------------------------------------------------------------------
// Registration
// ---------------------------------------------------------------------------
/// The message that refuses a registration before the username is looked
/// up, if any: every field must be filled in (organisation and username
/// after trimming), the username must have at least 3 bytes, the password
/// at least 8, and the confirmation must equal the password.
pub open spec fn registration_error(org: Seq<char>, username: Seq<char>, password: Seq<char>, confirm: Seq<char>) -> Option<Seq<char>> {
    let o = trim(org);
    let u = trim(username);
    if o.len() == 0 || u.len() == 0 || password.len() == 0 {
        Some("All fields are required."@)
    } else if vstd::utf8::encode_utf8(u).len() < 3 {
        Some("Username must be at least 3 characters."@)
    } else if vstd::utf8::encode_utf8(password).len() < 8 {
        Some("Password must be at least 8 characters."@)
    } else if password != confirm {
        Some("Passwords do not match."@)
    } else {
        None
    }
}

/// The checks of a registration form before the username is looked up:
/// the trimmed organisation name and username, or the refusal message.
pub fn check_registration(org_name: &str, username: &str, password: &str, confirm: &str) -> (r:
    Result<(String, String), String>)
    ensures
        match r {
            Ok((o, u)) => registration_error(org_name@, username@, password@, confirm@) is None
                && o@ == trim(org_name@) && u@ == trim(username@),
            Err(m) => registration_error(org_name@, username@, password@, confirm@) == Some(m@),
        },
{
    let org = crate::text::trimmed(org_name);
    let user = crate::text::trimmed(username);
    if org.as_str().is_empty() || user.as_str().is_empty() || password.is_empty() {
        return Err(owned("All fields are required."));
    }
    if user.as_str().as_bytes().len() < 3 {
        return Err(owned("Username must be at least 3 characters."));
    }
    if password.as_bytes().len() < 8 {
        return Err(owned("Password must be at least 8 characters."));
    }
    if !crate::text::str_eq(password, confirm) {
        return Err(owned("Passwords do not match."));
    }
    Ok((org, user))
}

/// What a registration that passed the form's checks comes to, once the
/// username has been looked up and, when it was free, the organisation and
/// user were created (`created`, the new user's id, is none when that
/// failed): the user to sign in, or the message of the form shown again.
pub fn registration_outcome(username_taken: bool, created: Option<i64>) -> (r: Result<i64, String>)
    ensures
        match r {
            Ok(id) => !username_taken && created == Some(id),
            Err(m) => if username_taken {
                m@ == "Username is already taken."@
            } else {
                created is None && m@ == "Could not create account."@
            },
        },
{
    if username_taken {
        return Err(owned("Username is already taken."));
    }
    match created {
        Some(id) => Ok(id),
        None => Err(owned("Could not create account.")),
    }
}

// ---------------------------------------------------------------------------
// Notification settings
// ---------------------------------------------------------------------------
/// `str::to_lowercase` of `s`.
pub uninterp spec fn lowercase(s: Seq<char>) -> Seq<char>;

/// `str::to_lowercase`, a function of its argument.
#[verifier::external_body]
fn to_lowercase(s: &str) -> (out: String)
    ensures
        out@ == lowercase(s@),
{
    s.to_lowercase()
}

/// Whether `s` starts with `prefix`.
pub open spec fn starts_with(s: Seq<char>, prefix: Seq<char>) -> bool {
    prefix.len() <= s.len() && s.subrange(0, prefix.len() as int) == prefix
}

/// What a settings form asks for: the provider (lowercased and trimmed)
/// and the trimmed webhook URL, both left out when the provider is empty;
/// and the refusal message, empty when the form is accepted.
pub struct SettingsUpdate {
    pub error: String,
    pub provider: Option<String>,
    pub webhook_url: Option<String>,
}

/// The provider of a settings form.
pub open spec fn chosen_provider(provider_raw: Seq<char>) -> Seq<char> {
    lowercase(trim(provider_raw))
}

/// The refusal message for a provider (already lowercased and trimmed)
/// and the raw webhook URL: the provider must be empty, `slack` or
/// `discord`, and a webhook for a provider must use HTTPS.
pub open spec fn provider_error(p: Seq<char>, webhook_raw: Seq<char>) -> Seq<char> {
    let w = trim(webhook_raw);
    if !(p == Seq::<char>::empty() || p == "slack"@ || p == "discord"@) {
        "Choose Slack or Discord."@
    } else if p.len() > 0 && !starts_with(w, "https://"@) {
        "Webhook URL must use HTTPS."@
    } else {
        Seq::empty()
    }
}

/// The refusal message of a settings form.
pub open spec fn settings_error(provider_raw: Seq<char>, webhook_raw: Seq<char>) -> Seq<char> {
    provider_error(chosen_provider(provider_raw), webhook_raw)
}

/// The decision on a settings form whose provider has been lowercased
/// and trimmed.
pub fn settings_decision(provider: String, webhook_raw: &str) -> (r: SettingsUpdate)
    ensures
        r.error@ == provider_error(provider@, webhook_raw@),
        provider@.len() == 0 ==> r.provider is None && r.webhook_url is None,
        provider@.len() > 0 ==> (r.provider matches Some(p) && p@ == provider@) && (
        r.webhook_url matches Some(w) && w@ == trim(webhook_raw@)),
{
    let webhook = crate::text::trimmed(webhook_raw);
    let valid = provider.as_str().is_empty() || crate::text::str_eq(provider.as_str(), "slack")
        || crate::text::str_eq(provider.as_str(), "discord");
    proof {
        if provider@.len() == 0 {
            assert(provider@ =~= Seq::<char>::empty());
        }
    }
    let error = if !valid {
        owned("Choose Slack or Discord.")
    } else if !provider.as_str().is_empty() && !has_prefix(webhook.as_str(), "https://") {
        owned("Webhook URL must use HTTPS.")
    } else {
        String::new()
    };
    if provider.as_str().is_empty() {
        SettingsUpdate { error, provider: None, webhook_url: None }
    } else {
        SettingsUpdate { error, provider: Some(provider), webhook_url: Some(webhook) }
    }
}

/// The decision on a submitted settings form.
pub fn settings_update(provider_raw: &str, webhook_raw: &str) -> (r: SettingsUpdate)
    ensures
        r.error@ == settings_error(provider_raw@, webhook_raw@),
        chosen_provider(provider_raw@).len() == 0 ==> r.provider is None && r.webhook_url is None,
        chosen_provider(provider_raw@).len() > 0 ==> (r.provider matches Some(p) && p@
            == chosen_provider(provider_raw@)) && (r.webhook_url matches Some(w) && w@ == trim(
            webhook_raw@,
        )),
{
    let trimmed_provider = crate::text::trimmed(provider_raw);
    let provider = to_lowercase(trimmed_provider.as_str());
    settings_decision(provider, webhook_raw)
}

/// Whether `s` starts with `prefix`.
pub fn has_prefix(s: &str, prefix: &str) -> (r: bool)
    ensures
        r == starts_with(s@, prefix@),
{
    let a = crate::text::chars_of(s);
    let b = crate::text::chars_of(prefix);
    if b.len() > a.len() {
        return false;
    }
    let mut i: usize = 0;
    while i < b.len()
        invariant
            a@ == s@,
            b@ == prefix@,
            b@.len() <= a@.len(),
            i <= b@.len(),
            forall|j: int| 0 <= j < i ==> a@[j] == b@[j],
        decreases b@.len() - i,
    {
        if a[i] != b[i] {
            assert(s@.subrange(0, prefix@.len() as int)[i as int] != prefix@[i as int]);
            return false;
        }
        i = i + 1;
    }
    assert(s@.subrange(0, prefix@.len() as int) =~= prefix@);
    true
}

/// What the settings page shows: the stored provider and webhook (empty
/// when missing) and whether the query reports a save (`saved=1`).
pub fn settings_form_values(user: &User, query: &StrMap) -> (r: (String, String, bool))
    ensures
        r.0@ == match user_text(user@, "notification_provider"@) {
            Some(p) => p,
            None => Seq::empty(),
        },
        r.1@ == match user_text(user@, "webhook_url"@) {
            Some(w) => w,
            None => Seq::empty(),
        },
        r.2 == (query@.contains_key("saved"@) && query@["saved"@] == "1"@),
{
    let provider = match user.get_str("notification_provider") {
        Some(p) => owned(p),
        None => String::new(),
    };
    let webhook = match user.get_str("webhook_url") {
        Some(w) => owned(w),
        None => String::new(),
    };
    let saved = match query.get("saved") {
        Some(v) => crate::text::str_eq(v.as_str(), "1"),
        None => false,
    };
    (provider, webhook, saved)
}

/// A settings form is accepted exactly when its provider is empty,
/// `slack` or `discord`, and, when a provider is chosen, the webhook URL
/// starts with `https://`.
pub proof fn lemma_settings_accepted(provider_raw: Seq<char>, webhook_raw: Seq<char>)
    ensures
        settings_error(provider_raw, webhook_raw).len() == 0 <==> {
            let p = chosen_provider(provider_raw);
            &&& (p.len() == 0 || p == "slack"@ || p == "discord"@)
            &&& p.len() > 0 ==> starts_with(trim(webhook_raw), "https://"@)
        },
{
    reveal_strlit("Choose Slack or Discord.");
    reveal_strlit("Webhook URL must use HTTPS.");
    let p = chosen_provider(provider_raw);
    if p.len() == 0 {
        assert(p =~= Seq::<char>::empty());
    }
}

/// A registration passes the checks before the username lookup exactly
/// when the trimmed organisation name and username and the password are
/// filled in, the trimmed username has at least 3 bytes, the password at
/// least 8, and the confirmation equals the password.
pub proof fn lemma_registration_accepted(org: Seq<char>, username: Seq<char>, password: Seq<char>, confirm: Seq<char>)
    ensures
        registration_error(org, username, password, confirm) is None <==> {
            &&& trim(org).len() > 0
            &&& trim(username).len() > 0
            &&& password.len() > 0
            &&& vstd::utf8::encode_utf8(trim(username)).len() >= 3
            &&& vstd::utf8::encode_utf8(password).len() >= 8
            &&& password == confirm
        },
{
}

} // verus!
