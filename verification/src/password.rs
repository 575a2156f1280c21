//! Password storage: PBKDF2-HMAC-SHA256 with a random 16-byte salt, kept
//! as `pbkdf2_sha256$<iterations>$<hex salt>$<hex digest>`.
use vstd::prelude::*;

use crate::encoding::{hex_decode, hex_decoded, hex_encode, hex_string, lemma_hex_roundtrip};
use crate::text::{chars_of, dec_string, parse_u32, parse_u32_spec, push_char, push_str, split};
use vstd::utf8::encode_utf8;

verus! {

/// The iteration count that new hashes use.
pub const PBKDF2_ITERATIONS: u32 = 600_000;

/// The number of salt bytes that new hashes use.
pub const SALT_LEN: usize = 16;

/// The number of digest bytes that new hashes use.
pub const DIGEST_LEN: usize = 32;

/// The largest output that PBKDF2-HMAC-SHA256 is asked for: its block
/// counter is a `u32`, so at most `u32::MAX` blocks of 32 bytes.
pub const PBKDF2_MAX_OUTPUT: u64 = 0x1f_ffff_ffe0;

/// PBKDF2 with HMAC-SHA256: `len` bytes derived from `password` and `salt`
/// with `rounds` iterations.
pub uninterp spec fn pbkdf2_sha256(password: Seq<u8>, salt: Seq<u8>, rounds: u32, len: nat) -> Seq<u8>;

/// `pbkdf2::pbkdf2_hmac::<Sha256>` into a fresh buffer of `out_len` bytes.
/// It returns a function of its arguments, with the requested length. It
/// is asked for at most `PBKDF2_MAX_OUTPUT` bytes: past that, the crate's
/// `u32` block counter overflows.
#[verifier::external_body]
fn pbkdf2_sha256_derive(password: &[u8], salt: &[u8], rounds: u32, out_len: usize) -> (out: Vec<
    u8,
>)
    requires
        out_len <= PBKDF2_MAX_OUTPUT,
    ensures
        out@ == pbkdf2_sha256(password@, salt@, rounds, out_len as nat),
        out@.len() == out_len,
{
    let mut out = vec![0u8; out_len];
    pbkdf2::pbkdf2_hmac::<sha2::Sha256>(password, salt, rounds, &mut out);
    out
}

/// `rand::thread_rng().fill_bytes`: `n` bytes from the thread's random
/// generator. Nothing is stated of their values.
#[verifier::external_body]
pub(crate) fn random_bytes(n: usize) -> (out: Vec<u8>)
    ensures
        out@.len() == n,
{
    let mut out = vec![0u8; n];
    rand::RngCore::fill_bytes(&mut rand::thread_rng(), &mut out);
    out
}

/// `subtle::ConstantTimeEq::ct_eq` on byte slices: true exactly when the
/// slices have the same length and the same bytes.
#[verifier::external_body]
fn ct_eq_bytes(a: &[u8], b: &[u8]) -> (r: bool)
    ensures
        r == (a@ == b@),
{
    subtle::ConstantTimeEq::ct_eq(a, b).into()
}

/// The tag that opens a stored hash.
pub open spec fn scheme_tag() -> Seq<char> {
    seq!['p', 'b', 'k', 'd', 'f', '2', '_', 's', 'h', 'a', '2', '5', '6']
}

/// The stored form of a hash: `pbkdf2_sha256$<iterations>$<hex salt>$<hex digest>`.
pub open spec fn stored_hash_text(iterations: u32, salt: Seq<u8>, digest: Seq<u8>) -> Seq<char> {
    scheme_tag() + seq!['$'] + dec_string(iterations as nat) + seq!['$'] + hex_string(salt) + seq![
        '$',
    ] + hex_string(digest)
}

/// What `hash_password` stores for `password` with the given salt.
pub open spec fn hash_with_salt(password: Seq<char>, salt: Seq<u8>) -> Seq<char> {
    stored_hash_text(
        PBKDF2_ITERATIONS,
        salt,
        pbkdf2_sha256(encode_utf8(password), salt, PBKDF2_ITERATIONS, DIGEST_LEN as nat),
    )
}

/// Whether `password` matches the stored hash: the stored text has exactly
/// four `$`-separated fields, the first is the scheme tag, the second a
/// `u32` iteration count, the last two hexadecimal salt and digest, and
/// PBKDF2 of the password with that salt and count, as long as the digest,
/// equals the digest.
pub open spec fn password_matches(password: Seq<char>, stored: Seq<char>) -> bool {
    let parts = split(stored, '$');
    &&& parts.len() == 4
    &&& parts[0] == scheme_tag()
    &&& parse_u32_spec(parts[1]) is Some
    &&& hex_decoded(encode_utf8(parts[2])) is Some
    &&& hex_decoded(encode_utf8(parts[3])) is Some
    &&& pbkdf2_sha256(
        encode_utf8(password),
        hex_decoded(encode_utf8(parts[2]))->0,
        parse_u32_spec(parts[1])->0,
        hex_decoded(encode_utf8(parts[3]))->0.len(),
    ) == hex_decoded(encode_utf8(parts[3]))->0
}

/// The stored form of `password` with the given salt. The password
/// verifies against it.
pub fn hash_password_with_salt(password: &str, salt: &[u8]) -> (out: String)
    ensures
        out@ == hash_with_salt(password@, salt@),
        pbkdf2_sha256(encode_utf8(password@), salt@, PBKDF2_ITERATIONS, DIGEST_LEN as nat).len()
            == DIGEST_LEN,
        out@.len() == 86 + 2 * salt@.len(),
        password_matches(password@, out@),
{
    let digest = pbkdf2_sha256_derive(
        password.as_bytes(),
        salt,
        PBKDF2_ITERATIONS,
        DIGEST_LEN,
    );
    let mut out = String::new();
    push_str(&mut out, "pbkdf2_sha256");
    proof {
        reveal_strlit("pbkdf2_sha256");
    }
    push_char(&mut out, '$');
    crate::text::push_int(&mut out, PBKDF2_ITERATIONS as i64);
    push_char(&mut out, '$');
    let salt_hex = hex_encode(salt);
    push_str(&mut out, salt_hex.as_str());
    push_char(&mut out, '$');
    let digest_hex = hex_encode(digest.as_slice());
    push_str(&mut out, digest_hex.as_str());
    assert(out@ =~= hash_with_salt(password@, salt@));
    proof {
        lemma_hash_then_verify(password@, salt@);
        crate::encoding::lemma_hex_string(salt@);
        crate::encoding::lemma_hex_string(digest@);
        reveal_with_fuel(dec_string, 7);
        assert(dec_string(PBKDF2_ITERATIONS as nat).len() == 6);
    }
    out
}

/// A new stored hash of `password`, with a fresh random salt: 118
/// characters (32 hexadecimal digits of salt, 64 of digest). The password
/// verifies against it.
pub fn hash_password(password: &str) -> (out: String)
    ensures
        password_matches(password@, out@),
        out@.len() == 118,
        exists|salt: Seq<u8>| salt.len() == SALT_LEN && out@ == hash_with_salt(password@, salt),
{
    let salt = random_bytes(SALT_LEN);
    hash_password_with_salt(password, salt.as_slice())
}

/// Whether `password` matches the stored hash `stored`. The stored text
/// is at most twice `PBKDF2_MAX_OUTPUT` characters long, so that its digest
/// is within what PBKDF2 can derive.
pub fn verify_password(password: &str, stored: &str) -> (r: bool)
    requires
        stored@.len() <= 2 * PBKDF2_MAX_OUTPUT,
    ensures
        r == password_matches(password@, stored@),
{
    let cs = chars_of(stored);
    let parts = crate::text::split_chars(cs.as_slice(), '$');
    if parts.len() != 4 {
        return false;
    }
    let ghost sp = split(stored@, '$');
    assert(parts@[0]@ == sp[0] && parts@[1]@ == sp[1] && parts@[2]@ == sp[2] && parts@[3]@ == sp[3]);
    let is_tag = crate::text::str_eq(parts[0].as_str(), "pbkdf2_sha256");
    proof {
        reveal_strlit("pbkdf2_sha256");
        assert("pbkdf2_sha256"@ =~= scheme_tag());
    }
    if !is_tag {
        return false;
    }
    let iterations = match parse_u32(parts[1].as_str()) {
        Some(n) => n,
        None => return false,
    };
    let salt = match hex_decode(parts[2].as_str().as_bytes()) {
        Ok(v) => v,
        Err(_) => return false,
    };
    let expected = match hex_decode(parts[3].as_str().as_bytes()) {
        Ok(v) => v,
        Err(_) => return false,
    };
    proof {
        let p3 = split(stored@, '$')[3];
        lemma_hex_text_len(p3);
        crate::text::lemma_split_piece_len(stored@, '$', 3);
    }
    let actual = pbkdf2_sha256_derive(password.as_bytes(), salt.as_slice(), iterations, expected.len());
    ct_eq_bytes(actual.as_slice(), expected.as_slice())
}

/// Whether every byte is a hexadecimal digit.
pub open spec fn all_hex(bytes: Seq<u8>) -> bool {
    forall|i: int| 0 <= i < bytes.len() ==> (#[trigger] crate::encoding::hex_value(bytes[i])) is Some
}

proof fn lemma_all_hex_ascii(s: Seq<char>)
    requires
        all_hex(encode_utf8(s)),
    ensures
        encode_utf8(s).len() == s.len(),
    decreases s.len(),
{
    if s.len() > 0 {
        let e = encode_utf8(s);
        let head = vstd::utf8::encode_scalar(s[0] as u32);
        let rest = encode_utf8(s.drop_first());
        assert(e == head + rest);
        let v = s[0] as u32;
        vstd::utf8::char_is_scalar(s[0]);
        if !vstd::utf8::has_width_1_encoding(v) {
            let b = head[0];
            assert(e[0] == b);
            if vstd::utf8::has_width_2_encoding(v) {
                let x = ((v >> 6) & 0x1F) as u8;
                assert((0xC0u8 | x) >= 0xC0) by (bit_vector);
            } else if vstd::utf8::has_width_3_encoding(v) {
                let x = ((v >> 12) & 0x0F) as u8;
                assert((0xE0u8 | x) >= 0xE0) by (bit_vector);
            } else {
                let x = ((v >> 18) & 0x7) as u8;
                assert((0xF0u8 | x) >= 0xF0) by (bit_vector);
            }
            assert(crate::encoding::hex_value(e[0]) is Some);
            assert(false);
        }
        assert(head.len() == 1);
        assert forall|i: int| 0 <= i < rest.len() implies (#[trigger] crate::encoding::hex_value(
            rest[i],
        )) is Some by {
            assert(rest[i] == e[i + 1]);
        }
        lemma_all_hex_ascii(s.drop_first());
    }
}

/// Decoded hexadecimal text has half as many bytes as the text has
/// characters.
proof fn lemma_hex_text_len(s: Seq<char>)
    ensures
        hex_decoded(encode_utf8(s)) matches Some(v) ==> 2 * v.len() == s.len(),
{
    if hex_decoded(encode_utf8(s)) is Some {
        lemma_all_hex_ascii(s);
    }
}

/// A password verifies against every hash made from it: the stored text
/// splits back into its four fields, the iteration count reads back, the
/// salt and digest decode back, and the same PBKDF2 computation is redone.
proof fn lemma_hash_then_verify(password: Seq<char>, salt: Seq<u8>)
    requires
        pbkdf2_sha256(encode_utf8(password), salt, PBKDF2_ITERATIONS, DIGEST_LEN as nat).len()
            == DIGEST_LEN,
    ensures
        password_matches(password, hash_with_salt(password, salt)),
{
    let digest = pbkdf2_sha256(encode_utf8(password), salt, PBKDF2_ITERATIONS, DIGEST_LEN as nat);
    let tag = scheme_tag();
    let it = dec_string(PBKDF2_ITERATIONS as nat);
    let hs = hex_string(salt);
    let hd = hex_string(digest);
    crate::text::lemma_u32_string(PBKDF2_ITERATIONS);
    crate::encoding::lemma_hex_string(salt);
    crate::encoding::lemma_hex_string(digest);
    assert(!crate::text::has_char(tag, '$'));
    assert(!crate::text::has_char(it, '$')) by {
        if crate::text::has_char(it, '$') {
            let i = choose|i: int| 0 <= i < it.len() && it[i] == '$';
            assert(crate::text::is_digit(it[i]));
        }
    }
    assert(!crate::text::has_char(hs, '$')) by {
        if crate::text::has_char(hs, '$') {
            let i = choose|i: int| 0 <= i < hs.len() && hs[i] == '$';
            assert(crate::encoding::is_hex_lower(hs[i]));
        }
    }
    assert(!crate::text::has_char(hd, '$')) by {
        if crate::text::has_char(hd, '$') {
            let i = choose|i: int| 0 <= i < hd.len() && hd[i] == '$';
            assert(crate::encoding::is_hex_lower(hd[i]));
        }
    }
    let s = hash_with_salt(password, salt);
    let r3 = hd;
    let r2 = hs + seq!['$'] + hd;
    let r1 = it + seq!['$'] + r2;
    assert(s =~= tag + seq!['$'] + r1);
    crate::text::lemma_split_no_sep(hd, '$');
    crate::text::lemma_split_concat(hs, '$', hd);
    crate::text::lemma_split_concat(it, '$', r2);
    crate::text::lemma_split_concat(tag, '$', r1);
    let parts = split(s, '$');
    assert(parts =~= seq![tag, it, hs, hd]);
    lemma_hex_roundtrip(salt);
    lemma_hex_roundtrip(digest);
    assert(parts[3] == hd);
    assert(hex_decoded(encode_utf8(parts[3]))->0 == digest);
}

} // verus!
