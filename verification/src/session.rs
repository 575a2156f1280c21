//! Signed session cookies: a JSON payload with an expiry, followed by `.`
//! and the hexadecimal HMAC-SHA256 of the payload under the secret key;
//! and the random CSRF token.
use vstd::prelude::*;

use crate::encoding::{base64_url, hex_decode, hex_decoded, hex_encode, hex_string};
use crate::json::{
    json_depth_limit, json_member, json_int, json_text, json_text_of, json_tree, json_value,
    json_writable, member_trees, members_tree, parse_json, tree_int, tree_member, Json, JsonTree,
};
use crate::kv::{pairs_map, session_entries, SessionData};
use crate::text::{chars_of, last_index, push_char, push_str, string_of_range};
use vstd::utf8::encode_utf8;

verus! {

/// How long a session stays valid, in seconds (fourteen days).
pub const SESSION_TTL_SECONDS: i64 = 1_209_600;

/// The number of random bytes in a CSRF token.
pub const CSRF_TOKEN_BYTES: usize = 32;

// ---------------------------------------------------------------------------
// HMAC signatures
// ---------------------------------------------------------------------------
/// HMAC-SHA256 of `msg` under `key`.
pub uninterp spec fn hmac_sha256(key: Seq<u8>, msg: Seq<u8>) -> Seq<u8>;

/// `Hmac::<Sha256>::new_from_slice(key)`, `update(msg)`, `finalize()`: the
/// tag of `msg`, a function of its arguments, of 32 bytes (SHA-256's
/// output size). HMAC accepts keys of any length, so the key is never
/// refused.
#[verifier::external_body]
fn hmac_sha256_tag(key: &[u8], msg: &[u8]) -> (tag: Vec<u8>)
    ensures
        tag@ == hmac_sha256(key@, msg@),
        tag@.len() == 32,
{
    let mut mac = <hmac::Hmac<sha2::Sha256> as hmac::Mac>::new_from_slice(key).expect(
        "HMAC accepts keys of any length",
    );
    hmac::Mac::update(&mut mac, msg);
    hmac::Mac::finalize(mac).into_bytes().to_vec()
}

/// `Hmac::<Sha256>::new_from_slice(key)`, `update(msg)`,
/// `verify_slice(tag)`: true exactly when `tag` is the tag of `msg`.
#[verifier::external_body]
fn hmac_sha256_check(key: &[u8], msg: &[u8], tag: &[u8]) -> (ok: bool)
    ensures
        ok == (tag@ == hmac_sha256(key@, msg@)),
{
    match <hmac::Hmac<sha2::Sha256> as hmac::Mac>::new_from_slice(key) {
        Ok(mut mac) => {
            hmac::Mac::update(&mut mac, msg);
            hmac::Mac::verify_slice(mac, tag).is_ok()
        },
        Err(_) => false,
    }
}

/// `payload.<hex tag>`, the signed form of `payload`.
pub open spec fn signed_text(payload: Seq<char>, key: Seq<u8>) -> Seq<char> {
    payload + seq!['.'] + hex_string(hmac_sha256(key, encode_utf8(payload)))
}

/// The payload of a signed text whose tag checks out: the text is cut at
/// its last `.`, the part after it must be hexadecimal, and its bytes must
/// be the tag of the part before it.
pub open spec fn verified_payload(signed: Seq<char>, key: Seq<u8>) -> Option<Seq<char>> {
    match last_index(signed, '.') {
        None => None,
        Some(i) => {
            let payload = signed.subrange(0, i);
            let digest = signed.subrange(i + 1, signed.len() as int);
            match hex_decoded(encode_utf8(digest)) {
                None => None,
                Some(tag) => if tag == hmac_sha256(key, encode_utf8(payload)) {
                    Some(payload)
                } else {
                    None
                },
            }
        },
    }
}

/// The signed form of `payload`: the payload, `.`, and the 64 lowercase
/// hexadecimal digits of its 32-byte tag.
pub fn sign_payload(payload: &str, secret_key: &[u8]) -> (out: String)
    ensures
        out@ == signed_text(payload@, secret_key@),
        hmac_sha256(secret_key@, encode_utf8(payload@)).len() == 32,
        out@.len() == payload@.len() + 65,
        verified_payload(out@, secret_key@) == Some(payload@),
{
    let tag = hmac_sha256_tag(secret_key, payload.as_bytes());
    let digest = hex_encode(tag.as_slice());
    let mut out = String::new();
    push_str(&mut out, payload);
    push_char(&mut out, '.');
    push_str(&mut out, digest.as_str());
    assert(out@ =~= signed_text(payload@, secret_key@));
    proof {
        lemma_sign_then_verify(payload@, secret_key@);
        crate::encoding::lemma_hex_string(tag@);
    }
    out
}

/// The payload of `signed`, when its tag checks out under `secret_key`.
pub fn verify_payload(signed: &str, secret_key: &[u8]) -> (r: Option<String>)
    ensures
        match r {
            Some(p) => verified_payload(signed@, secret_key@) == Some(p@),
            None => verified_payload(signed@, secret_key@) is None,
        },
{
    let cs = chars_of(signed);
    let dot = match crate::text::find_last(cs.as_slice(), '.') {
        Some(i) => i,
        None => return None,
    };
    assert(last_index(signed@, '.') == Some(dot as int));
    let n = cs.len();
    assert(dot < n);
    let payload = string_of_range(cs.as_slice(), 0, dot);
    let digest = string_of_range(cs.as_slice(), dot + 1, n);
    assert(payload@ == signed@.subrange(0, dot as int));
    assert(digest@ == signed@.subrange(dot + 1, signed@.len() as int));
    let tag = match hex_decode(digest.as_str().as_bytes()) {
        Ok(t) => t,
        Err(_) => return None,
    };
    if hmac_sha256_check(secret_key, payload.as_str().as_bytes(), tag.as_slice()) {
        Some(payload)
    } else {
        None
    }
}

/// A signed payload verifies under the key that signed it, and gives back
/// the payload.
pub proof fn lemma_sign_then_verify(payload: Seq<char>, key: Seq<u8>)
    ensures
        verified_payload(signed_text(payload, key), key) == Some(payload),
{
    let tag = hmac_sha256(key, encode_utf8(payload));
    let hd = hex_string(tag);
    let s = signed_text(payload, key);
    crate::encoding::lemma_hex_string(tag);
    crate::encoding::lemma_hex_roundtrip(tag);
    let i = payload.len() as int;
    assert(s[i] == '.');
    assert forall|j: int| i < j < s.len() implies s[j] != '.' by {
        assert(s[j] == hd[j - i - 1]);
        assert(crate::encoding::is_hex_lower(hd[j - i - 1]));
    }
    crate::text::lemma_last_index_at(s, '.', i);
    assert(s.subrange(0, i) =~= payload);
    assert(s.subrange(i + 1, s.len() as int) =~= hd);
}

// ---------------------------------------------------------------------------
// Time
// ---------------------------------------------------------------------------
/// `SystemTime::now().duration_since(UNIX_EPOCH)` in whole seconds; `None`
/// when the clock is before the epoch. Nothing is stated of the value.
#[verifier::external_body]
fn seconds_since_epoch() -> (r: Option<u64>) {
    match std::time::SystemTime::now().duration_since(std::time::UNIX_EPOCH) {
        Ok(d) => Some(d.as_secs()),
        Err(_) => None,
    }
}

/// The Unix time that a reading of the clock gives: the whole seconds since
/// the epoch cast to `i64` (wrapping, as `as` does), or 0 when the clock is
/// before the epoch.
pub open spec fn unix_time_of(since_epoch: Option<u64>) -> i64 {
    match since_epoch {
        Some(s) => s as i64,
        None => 0,
    }
}

/// The Unix time of a reading of the clock.
pub fn unix_time_from(since_epoch: Option<u64>) -> (t: i64)
    ensures
        t == unix_time_of(since_epoch),
{
    match since_epoch {
        Some(s) => {
            #[verifier::truncate]
            (s as i64)
        },
        None => 0,
    }
}

/// The current Unix time in seconds; 0 when the clock is before the epoch.
/// The clock's reading is not stated, so neither is the result.
pub fn unix_now() -> (t: i64) {
    unix_time_from(seconds_since_epoch())
}

// ---------------------------------------------------------------------------
// Session payloads
// ---------------------------------------------------------------------------
/// The expiry of a session document: the `i64` reading of its `exp`
/// member.
pub open spec fn doc_exp(doc: JsonTree) -> Option<i64> {
    match tree_member(doc, "exp"@) {
        Some(e) => tree_int(e),
        None => None,
    }
}

/// The data of a session document: its `data` member when that is an
/// object, each member by its `i64` reading.
pub open spec fn doc_data(doc: JsonTree) -> Option<Map<Seq<char>, Option<i64>>> {
    match tree_member(doc, "data"@) {
        Some(JsonTree::Object(m)) => Some(m.map_values(|v: JsonTree| tree_int(v))),
        _ => None,
    }
}

/// The session that a verified payload's JSON document gives at time
/// `now`: empty unless the document has an expiry that is not before `now`
/// and a data object.
pub open spec fn doc_session(doc: Option<JsonTree>, now: i64) -> Map<Seq<char>, Option<i64>> {
    match doc {
        None => Map::empty(),
        Some(d) => match doc_exp(d) {
            None => Map::empty(),
            Some(e) => if e < now {
                Map::empty()
            } else {
                match doc_data(d) {
                    None => Map::empty(),
                    Some(m) => m,
                }
            },
        },
    }
}

/// A session value as JSON: an integer, or `null` for a value without one.
pub open spec fn value_tree(v: Option<i64>) -> JsonTree {
    match v {
        Some(n) => JsonTree::Number(Some(n)),
        None => JsonTree::Null,
    }
}

/// The session document `{"data": {...}, "exp": exp}` for the given
/// entries (a later entry for a key replacing an earlier one).
pub open spec fn session_doc(entries: Seq<(Seq<char>, Option<i64>)>, exp: i64) -> JsonTree {
    JsonTree::Object(
        Map::<Seq<char>, JsonTree>::empty().insert(
            "data"@,
            JsonTree::Object(pairs_map(entries).map_values(|v: Option<i64>| value_tree(v))),
        ).insert("exp"@, JsonTree::Number(Some(exp))),
    )
}

/// The payload text of a session: serde_json's text of its document.
pub open spec fn session_json(entries: Seq<(Seq<char>, Option<i64>)>, exp: i64) -> Seq<char> {
    json_text_of(session_doc(entries, exp))
}

pub open spec fn opt_json_tree(doc: Option<Json>) -> Option<JsonTree> {
    match doc {
        Some(d) => Some(d@),
        None => None,
    }
}

/// The session that a cookie value gives at time `now`: empty unless the
/// signature checks out, the payload is JSON with an integer `exp` that is
/// not before `now`, and its `data` is an object.
pub open spec fn session_at(raw: Option<Seq<char>>, key: Seq<u8>, now: i64) -> Map<Seq<char>, Option<i64>> {
    match raw {
        None => Map::empty(),
        Some(r) => match verified_payload(r, key) {
            None => Map::empty(),
            Some(p) => doc_session(json_value(p), now),
        },
    }
}

pub open spec fn opt_view(raw: Option<&str>) -> Option<Seq<char>> {
    match raw {
        None => None,
        Some(s) => Some(s@),
    }
}

/// The cookie value of a session that expires at `exp`.
pub open spec fn session_cookie(entries: Seq<(Seq<char>, Option<i64>)>, key: Seq<u8>, exp: i64) -> Seq<char> {
    signed_text(session_json(entries, exp), key)
}

/// The expiry of a session made at `now`.
pub open spec fn expiry_from(now: i64) -> i64 {
    if now <= i64::MAX - SESSION_TTL_SECONDS {
        (now + SESSION_TTL_SECONDS) as i64
    } else {
        i64::MAX
    }
}

/// The session of an object's members, each by its `i64` reading.
fn data_session(members: &Vec<(String, Json)>) -> (out: SessionData)
    ensures
        out@ == members_tree(members@).map_values(|v: JsonTree| tree_int(v)),
{
    let mut entries: Vec<(String, Option<i64>)> = Vec::new();
    let mut i: usize = 0;
    while i < members.len()
        invariant
            i <= members@.len(),
            entries@.len() == i,
            forall|j: int|
                0 <= j < i ==> #[trigger] session_entries(entries@)[j] == (
                    members@[j].0@,
                    tree_int(json_tree(members@[j].1)),
                ),
        decreases members@.len() - i,
    {
        let k = members[i].0.clone();
        let v = json_int(&members[i].1);
        let ghost before = entries@;
        entries.push((k, v));
        assert forall|j: int| 0 <= j < i + 1 implies #[trigger] session_entries(entries@)[j] == (
            members@[j].0@,
            tree_int(json_tree(members@[j].1)),
        ) by {
            if j < i {
                assert(entries@[j] == before[j]);
                assert(session_entries(before)[j] == (before[j].0@, before[j].1));
            } else {
                assert(entries@[j] == (k, v));
            }
        }
        i = i + 1;
    }
    let ghost f = |v: JsonTree| tree_int(v);
    proof {
        crate::json::lemma_members_tree(members@);
        crate::kv::lemma_pairs_map_values(member_trees(members@), f);
        assert(session_entries(entries@) =~= member_trees(members@).map_values(
            |e: (Seq<char>, JsonTree)| (e.0, f(e.1)),
        ));
    }
    SessionData::from_entries(entries)
}

/// The session that a verified payload's JSON document gives at time
/// `now`: empty unless the document has an integer `exp` that is not
/// before `now` and an object `data`, whose members, by their `i64`
/// readings, make the session.
pub fn session_from_doc(doc: Option<Json>, now: i64) -> (out: SessionData)
    ensures
        out@ == doc_session(opt_json_tree(doc), now),
{
    let d = match doc {
        Some(d) => d,
        None => return SessionData::new(),
    };
    let exp = match json_member(&d, "exp") {
        Some(e) => json_int(e),
        None => None,
    };
    proof {
        reveal_strlit("exp");
        reveal_strlit("data");
    }
    let exp = match exp {
        Some(e) => e,
        None => return SessionData::new(),
    };
    if exp < now {
        return SessionData::new();
    }
    match json_member(&d, "data") {
        Some(Json::Object(members)) => data_session(members),
        _ => SessionData::new(),
    }
}

/// The session document of the entries, expiring at `exp`.
fn session_document(entries: &Vec<(String, Option<i64>)>, exp: i64) -> (doc: Json)
    ensures
        doc@ == session_doc(session_entries(entries@), exp),
{
    let mut members: Vec<(String, Json)> = Vec::new();
    let mut i: usize = 0;
    while i < entries.len()
        invariant
            i <= entries@.len(),
            members@.len() == i,
            forall|j: int|
                0 <= j < i ==> #[trigger] member_trees(members@)[j] == (
                    entries@[j].0@,
                    value_tree(entries@[j].1),
                ),
        decreases entries@.len() - i,
    {
        let k = entries[i].0.clone();
        let v = match entries[i].1 {
            Some(n) => Json::Number(Some(n)),
            None => Json::Null,
        };
        let ghost before = members@;
        members.push((k, v));
        assert forall|j: int| 0 <= j < i + 1 implies #[trigger] member_trees(members@)[j] == (
            entries@[j].0@,
            value_tree(entries@[j].1),
        ) by {
            if j < i {
                assert(members@[j] == before[j]);
                assert(member_trees(before)[j] == (before[j].0@, json_tree(before[j].1)));
            } else {
                assert(members@[j] == (k, v));
            }
        }
        i = i + 1;
    }
    let ghost f = |v: Option<i64>| value_tree(v);
    proof {
        crate::json::lemma_members_tree(members@);
        crate::kv::lemma_pairs_map_values(session_entries(entries@), f);
        assert(member_trees(members@) =~= session_entries(entries@).map_values(
            |e: (Seq<char>, Option<i64>)| (e.0, f(e.1)),
        ));
    }
    let ghost mv = members@;
    let mut top: Vec<(String, Json)> = Vec::new();
    top.push((crate::text::owned("data"), Json::Object(members)));
    top.push((crate::text::owned("exp"), Json::Number(Some(exp))));
    proof {
        reveal_strlit("data");
        reveal_strlit("exp");
        let first = top@.subrange(0, 1);
        assert(first.subrange(0, 0) =~= Seq::<(String, Json)>::empty());
        assert(members_tree(first.subrange(0, 0)) == Map::<Seq<char>, JsonTree>::empty());
        assert(json_tree(first[0].1) == JsonTree::Object(members_tree(mv)));
        assert(members_tree(first) == Map::<Seq<char>, JsonTree>::empty().insert(
            "data"@,
            JsonTree::Object(members_tree(mv)),
        ));
        assert(top@.len() == 2);
        assert(top@.subrange(0, top@.len() - 1) =~= first);
        assert(top@[1].0@ == "exp"@);
        assert(json_tree(top@[1].1) == JsonTree::Number(Some(exp)));
        assert(members_tree(top@) == members_tree(first).insert(
            "exp"@,
            JsonTree::Number(Some(exp)),
        ));
        assert(members_tree(top@) =~= Map::<Seq<char>, JsonTree>::empty().insert(
            "data"@,
            JsonTree::Object(pairs_map(session_entries(entries@)).map_values(f)),
        ).insert("exp"@, JsonTree::Number(Some(exp))));
    }
    Json::Object(top)
}

/// A session document reads back, as JSON text, with its expiry and its
/// entries.
proof fn lemma_session_doc_reads_back(entries: Seq<(Seq<char>, Option<i64>)>, exp: i64)
    ensures
        json_writable(session_doc(entries, exp), json_depth_limit()),
        doc_exp(session_doc(entries, exp)) == Some(exp),
        doc_data(session_doc(entries, exp)) == Some(pairs_map(entries)),
{
    let m = pairs_map(entries);
    let inner = m.map_values(|v: Option<i64>| value_tree(v));
    let doc = session_doc(entries, exp);
    reveal_strlit("data");
    reveal_strlit("exp");
    assert("data"@ != "exp"@) by {
        assert("data"@.len() != "exp"@.len());
    }
    assert(json_writable(JsonTree::Object(inner), (json_depth_limit() - 1) as nat)) by {
        assert forall|k: Seq<char>| #[trigger] inner.contains_key(k) implies json_writable(
            inner[k],
            (json_depth_limit() - 2) as nat,
        ) by {
            assert(inner[k] == value_tree(m[k]));
        }
    }
    let outer = Map::<Seq<char>, JsonTree>::empty().insert("data"@, JsonTree::Object(inner)).insert(
        "exp"@,
        JsonTree::Number(Some(exp)),
    );
    assert(doc == JsonTree::Object(outer));
    assert forall|k: Seq<char>| #[trigger] outer.contains_key(k) implies json_writable(
        outer[k],
        (json_depth_limit() - 1) as nat,
    ) by {
        if k == "data"@ {
            assert(outer[k] == JsonTree::Object(inner));
        } else {
            assert(k == "exp"@);
        }
    }
    assert(json_writable(doc, json_depth_limit()));
    assert(inner.map_values(|v: JsonTree| tree_int(v)) =~= m);
}

/// The cookie value of `data` made at time `now`; read back at any time up
/// to its expiry, it gives `data` again.
pub fn encode_session_at(data: &SessionData, secret_key: &[u8], now: i64) -> (out: String)
    ensures
        out@ == session_cookie(data.entry_seq(), secret_key@, expiry_from(now)),
        out@.len() == session_json(data.entry_seq(), expiry_from(now)).len() + 65,
        forall|later: i64|
            later <= expiry_from(now) ==> #[trigger] session_at(Some(out@), secret_key@, later)
                == data@,
{
    let exp = if now <= i64::MAX - SESSION_TTL_SECONDS {
        now + SESSION_TTL_SECONDS
    } else {
        i64::MAX
    };
    let entries = data.entries();
    let doc = session_document(entries, exp);
    let payload = json_text(&doc);
    let out = sign_payload(payload.as_str(), secret_key);
    proof {
        data.lemma_view();
        lemma_session_doc_reads_back(data.entry_seq(), exp);
    }
    out
}

/// The cookie value of `data`, expiring `SESSION_TTL_SECONDS` after the
/// current time.
pub fn encode_session(data: &SessionData, secret_key: &[u8]) -> (out: String)
    ensures
        exists|now: i64| out@ == session_cookie(data.entry_seq(), secret_key@, expiry_from(now)),
{
    let now = unix_now();
    encode_session_at(data, secret_key, now)
}

/// The session that the cookie value `raw` gives at time `now`.
pub fn decode_session_at(raw: Option<&str>, secret_key: &[u8], now: i64) -> (out: SessionData)
    ensures
        out@ == session_at(opt_view(raw), secret_key@, now),
{
    let raw = match raw {
        Some(r) => r,
        None => return SessionData::new(),
    };
    let payload = match verify_payload(raw, secret_key) {
        Some(p) => p,
        None => return SessionData::new(),
    };
    session_from_doc(parse_json(payload.as_str()), now)
}

/// The session that the cookie value `raw` gives at the current time.
pub fn decode_session(raw: Option<&str>, secret_key: &[u8]) -> (out: SessionData)
    ensures
        exists|now: i64| out@ == session_at(opt_view(raw), secret_key@, now),
{
    let now = unix_now();
    decode_session_at(raw, secret_key, now)
}

// ---------------------------------------------------------------------------
// CSRF tokens
// ---------------------------------------------------------------------------
/// A fresh CSRF token: 32 random bytes in unpadded URL-safe base64, so 43
/// characters from that alphabet.
pub fn new_csrf_token() -> (out: String)
    ensures
        exists|b: Seq<u8>| b.len() == CSRF_TOKEN_BYTES && out@ == base64_url(b),
        out@.len() == 43,
        forall|i: int| 0 <= i < out@.len() ==> crate::encoding::is_b64_url_char(#[trigger] out@[i]),
{
    let bytes = crate::password::random_bytes(CSRF_TOKEN_BYTES);
    let out = crate::encoding::base64_url_encode(bytes.as_slice());
    proof {
        crate::encoding::lemma_base64_url_shape(bytes@);
    }
    out
}

/// A cookie value whose signature does not check out under the key, or
/// whose expiry has passed, gives the empty session.
pub proof fn lemma_rejected_sessions_are_empty(raw: Seq<char>, key: Seq<u8>, now: i64)
    ensures
        verified_payload(raw, key) is None ==> session_at(Some(raw), key, now) =~= Map::<
            Seq<char>,
            Option<i64>,
        >::empty(),
        (verified_payload(raw, key) matches Some(p) && json_value(p) matches Some(doc) && doc_exp(
            doc,
        ) matches Some(e) && e < now) ==> session_at(Some(raw), key, now) =~= Map::<Seq<char>, Option<i64>>::empty(),
{
}

} // verus!
