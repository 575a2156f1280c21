//! Byte encodings: lowercase hexadecimal (through the `hex` crate) and
//! unpadded URL-safe base64.
use vstd::prelude::*;

verus! {

// ---------------------------------------------------------------------------
// Hexadecimal
// ---------------------------------------------------------------------------
#[verifier::external_type_specification]
#[verifier::external_body]
pub struct ExFromHexError(hex::FromHexError);

/// The lowercase hexadecimal digit for `v < 16`.
pub open spec fn hex_digit(v: nat) -> char {
    if v < 10 {
        crate::text::digit_char(v)
    } else if v == 10 {
        'a'
    } else if v == 11 {
        'b'
    } else if v == 12 {
        'c'
    } else if v == 13 {
        'd'
    } else if v == 14 {
        'e'
    } else {
        'f'
    }
}

/// `bytes` written as two lowercase hexadecimal digits per byte, high
/// half first.
pub open spec fn hex_string(bytes: Seq<u8>) -> Seq<char>
    decreases bytes.len(),
{
    if bytes.len() == 0 {
        Seq::<char>::empty()
    } else {
        hex_string(bytes.drop_last()) + seq![
            hex_digit((bytes.last() / 16) as nat),
            hex_digit((bytes.last() % 16) as nat),
        ]
    }
}

/// The value of one hexadecimal digit byte, in either case.
pub open spec fn hex_value(b: u8) -> Option<nat> {
    if 48 <= b <= 57 {
        Some((b - 48) as nat)
    } else if 97 <= b <= 102 {
        Some((b - 87) as nat)
    } else if 65 <= b <= 70 {
        Some((b - 55) as nat)
    } else {
        None
    }
}

/// What `hex::decode` gives for `bytes`: `None` for an odd length or a
/// byte that is no hexadecimal digit, else one byte per pair of digits.
pub open spec fn hex_decoded(bytes: Seq<u8>) -> Option<Seq<u8>> {
    if bytes.len() % 2 == 0 && forall|i: int| 0 <= i < bytes.len() ==> (#[trigger] hex_value(bytes[i])) is Some {
        Some(
            Seq::new(
                bytes.len() / 2,
                |i: int| (hex_value(bytes[2 * i])->0 * 16 + hex_value(bytes[2 * i + 1])->0) as u8,
            ),
        )
    } else {
        None
    }
}

/// `hex::encode`: the bytes as lowercase hexadecimal text.
#[verifier::external_body]
pub(crate) fn hex_encode(data: &[u8]) -> (s: String)
    ensures
        s@ == hex_string(data@),
{
    hex::encode(data)
}

/// `hex::decode`: `Ok` with the decoded bytes exactly when the input has an
/// even length and holds only hexadecimal digits of either case.
#[verifier::external_body]
pub(crate) fn hex_decode(data: &[u8]) -> (r: Result<Vec<u8>, hex::FromHexError>)
    ensures
        match r {
            Ok(v) => hex_decoded(data@) == Some(v@),
            Err(_) => hex_decoded(data@) is None,
        },
{
    hex::decode(data)
}

pub open spec fn is_hex_lower(c: char) -> bool {
    ('0' <= c && c <= '9') || ('a' <= c && c <= 'f')
}

proof fn lemma_hex_digit(v: nat)
    requires
        v < 16,
    ensures
        is_hex_lower(hex_digit(v)),
        hex_value(hex_digit(v) as u8) == Some(v),
{
}

/// The shape of `hex_string`: two lowercase digits per byte.
pub proof fn lemma_hex_string(bytes: Seq<u8>)
    ensures
        hex_string(bytes).len() == 2 * bytes.len(),
        forall|i: int|
            0 <= i < bytes.len() ==> hex_string(bytes)[2 * i] == hex_digit((bytes[i] / 16) as nat)
                && hex_string(bytes)[2 * i + 1] == hex_digit((bytes[i] % 16) as nat),
        forall|i: int| 0 <= i < hex_string(bytes).len() ==> is_hex_lower(#[trigger] hex_string(bytes)[i]),
    decreases bytes.len(),
{
    if bytes.len() > 0 {
        let p = bytes.drop_last();
        lemma_hex_string(p);
        let s = hex_string(bytes);
        let n = bytes.len() - 1;
        lemma_hex_digit((bytes.last() / 16) as nat);
        lemma_hex_digit((bytes.last() % 16) as nat);
        assert forall|i: int| 0 <= i < bytes.len() implies s[2 * i] == hex_digit(
            (bytes[i] / 16) as nat,
        ) && s[2 * i + 1] == hex_digit((bytes[i] % 16) as nat) by {
            if i < n {
                assert(p[i] == bytes[i]);
            }
        }
        assert forall|i: int| 0 <= i < s.len() implies is_hex_lower(#[trigger] s[i]) by {
            if i < 2 * n {
                assert(s[i] == hex_string(p)[i]);
            }
        }
    }
}

/// The UTF-8 bytes of lowercase hexadecimal text decode back to the bytes it
/// was written from.
pub proof fn lemma_hex_roundtrip(bytes: Seq<u8>)
    ensures
        vstd::utf8::is_ascii_chars(hex_string(bytes)),
        hex_decoded(vstd::utf8::encode_utf8(hex_string(bytes))) == Some(bytes),
{
    lemma_hex_string(bytes);
    let s = hex_string(bytes);
    assert(vstd::utf8::is_ascii_chars(s)) by {
        assert forall|i: int| 0 <= i < s.len() implies '\0' <= #[trigger] s[i] <= '\u{7f}' by {
            assert(is_hex_lower(s[i]));
        }
    }
    vstd::utf8::is_ascii_chars_encode_utf8(s);
    let e = vstd::utf8::encode_utf8(s);
    assert forall|i: int| 0 <= i < e.len() implies (#[trigger] hex_value(e[i])) is Some by {
        assert(e[i] == s[i] as u8);
        assert(is_hex_lower(s[i]));
    }
    let d = hex_decoded(e)->0;
    assert forall|i: int| 0 <= i < bytes.len() implies d[i] == bytes[i] by {
        let hi = (bytes[i] / 16) as nat;
        let lo = (bytes[i] % 16) as nat;
        lemma_hex_digit(hi);
        lemma_hex_digit(lo);
        assert(e[2 * i] == s[2 * i] as u8);
        assert(e[2 * i + 1] == s[2 * i + 1] as u8);
    }
    assert(d =~= bytes);
}

// ---------------------------------------------------------------------------
// URL-safe base64 without padding
// ---------------------------------------------------------------------------
/// The URL-safe base64 alphabet.
pub open spec fn b64_alphabet() -> Seq<char> {
    seq![
        'A', 'B', 'C', 'D', 'E', 'F', 'G', 'H', 'I', 'J', 'K', 'L', 'M', 'N', 'O', 'P',
        'Q', 'R', 'S', 'T', 'U', 'V', 'W', 'X', 'Y', 'Z', 'a', 'b', 'c', 'd', 'e', 'f',
        'g', 'h', 'i', 'j', 'k', 'l', 'm', 'n', 'o', 'p', 'q', 'r', 's', 't', 'u', 'v',
        'w', 'x', 'y', 'z', '0', '1', '2', '3', '4', '5', '6', '7', '8', '9', '-', '_',
    ]
}

/// The characters for one group of at most three bytes: the group is read
/// as a 24-bit number (missing bytes as zero), cut into 6-bit digits from
/// the top, and the first `len + 1` digits are written.
pub open spec fn b64_group(b0: u8, b1: u8, b2: u8, len: nat) -> Seq<char> {
    let n = b0 * 65536 + b1 * 256 + b2;
    let c0 = b64_alphabet()[(n / 262144) % 64];
    let c1 = b64_alphabet()[(n / 4096) % 64];
    let c2 = b64_alphabet()[(n / 64) % 64];
    let c3 = b64_alphabet()[n % 64];
    if len == 1 {
        seq![c0, c1]
    } else if len == 2 {
        seq![c0, c1, c2]
    } else {
        seq![c0, c1, c2, c3]
    }
}

/// Unpadded URL-safe base64 of `bytes`, three bytes at a time.
pub open spec fn base64_url(bytes: Seq<u8>) -> Seq<char>
    decreases bytes.len(),
{
    if bytes.len() == 0 {
        Seq::<char>::empty()
    } else if bytes.len() == 1 {
        b64_group(bytes[0], 0, 0, 1)
    } else if bytes.len() == 2 {
        b64_group(bytes[0], bytes[1], 0, 2)
    } else {
        b64_group(bytes[0], bytes[1], bytes[2], 3) + base64_url(bytes.skip(3))
    }
}

/// The length of the unpadded encoding of `n` bytes: four characters per
/// full group, and one more than the number of bytes in a last short group.
pub open spec fn base64_url_len(n: nat) -> nat {
    (n / 3) * 4 + if n % 3 == 0 {
        0nat
    } else {
        n % 3 + 1
    }
}

pub open spec fn is_b64_url_char(c: char) -> bool {
    b64_alphabet().contains(c)
}

/// Every character of the encoding is from the URL-safe alphabet, and the
/// encoding has `base64_url_len` characters.
pub proof fn lemma_base64_url_shape(bytes: Seq<u8>)
    ensures
        base64_url(bytes).len() == base64_url_len(bytes.len()),
        forall|i: int|
            0 <= i < base64_url(bytes).len() ==> is_b64_url_char(#[trigger] base64_url(bytes)[i]),
    decreases bytes.len(),
{
    let s = base64_url(bytes);
    if bytes.len() >= 3 {
        lemma_base64_url_shape(bytes.skip(3));
        let g = b64_group(bytes[0], bytes[1], bytes[2], 3);
        assert forall|i: int| 0 <= i < s.len() implies is_b64_url_char(#[trigger] s[i]) by {
            if i < 4 {
                let n = bytes[0] * 65536 + bytes[1] * 256 + bytes[2];
                assert(b64_alphabet().contains(b64_alphabet()[(n / 262144) % 64]));
                assert(b64_alphabet().contains(b64_alphabet()[(n / 4096) % 64]));
                assert(b64_alphabet().contains(b64_alphabet()[(n / 64) % 64]));
                assert(b64_alphabet().contains(b64_alphabet()[n % 64]));
            } else {
                assert(s[i] == base64_url(bytes.skip(3))[i - 4]);
            }
        }
    } else if bytes.len() > 0 {
        let b1: u8 = if bytes.len() > 1 { bytes[1] } else { 0 };
        let n = bytes[0] * 65536 + b1 * 256;
        assert(b64_alphabet().contains(b64_alphabet()[(n / 262144) % 64]));
        assert(b64_alphabet().contains(b64_alphabet()[(n / 4096) % 64]));
        assert(b64_alphabet().contains(b64_alphabet()[(n / 64) % 64]));
    }
}

fn b64_char(v: u32) -> (c: char)
    requires
        v < 64,
    ensures
        c == b64_alphabet()[v as int],
{
    let table: [char; 64] = [
        'A', 'B', 'C', 'D', 'E', 'F', 'G', 'H', 'I', 'J', 'K', 'L', 'M', 'N', 'O', 'P',
        'Q', 'R', 'S', 'T', 'U', 'V', 'W', 'X', 'Y', 'Z', 'a', 'b', 'c', 'd', 'e', 'f',
        'g', 'h', 'i', 'j', 'k', 'l', 'm', 'n', 'o', 'p', 'q', 'r', 's', 't', 'u', 'v',
        'w', 'x', 'y', 'z', '0', '1', '2', '3', '4', '5', '6', '7', '8', '9', '-', '_',
    ];
    assert(table@ =~= b64_alphabet());
    table[v as usize]
}

proof fn lemma_base64_url_skip(bytes: Seq<u8>, i: int)
    requires
        0 <= i,
        i + 3 <= bytes.len(),
    ensures
        base64_url(bytes.skip(i)) == b64_group(bytes[i], bytes[i + 1], bytes[i + 2], 3)
            + base64_url(bytes.skip(i + 3)),
{
    let t = bytes.skip(i);
    assert(t.skip(3) =~= bytes.skip(i + 3));
    assert(t[0] == bytes[i] && t[1] == bytes[i + 1] && t[2] == bytes[i + 2]);
}

fn push_group(out: &mut String, b0: u8, b1: u8, b2: u8, len: usize)
    requires
        1 <= len <= 3,
    ensures
        final(out)@ == old(out)@ + b64_group(b0, b1, b2, len as nat),
{
    let n: u32 = (b0 as u32) * 65536 + (b1 as u32) * 256 + (b2 as u32);
    crate::text::push_char(out, b64_char((n / 262144) % 64));
    crate::text::push_char(out, b64_char((n / 4096) % 64));
    if len > 1 {
        crate::text::push_char(out, b64_char((n / 64) % 64));
    }
    if len > 2 {
        crate::text::push_char(out, b64_char(n % 64));
    }
    assert(final(out)@ =~= old(out)@ + b64_group(b0, b1, b2, len as nat));
}

/// Unpadded URL-safe base64 of `bytes`.
pub fn base64_url_encode(bytes: &[u8]) -> (out: String)
    ensures
        out@ == base64_url(bytes@),
{
    let mut out = String::new();
    let mut i: usize = 0;
    assert(bytes@.skip(0) =~= bytes@);
    while bytes.len() - i >= 3
        invariant
            i <= bytes@.len(),
            out@ + base64_url(bytes@.skip(i as int)) == base64_url(bytes@),
        decreases bytes@.len() - i,
    {
        proof {
            lemma_base64_url_skip(bytes@, i as int);
        }
        let ghost before = out@;
        push_group(&mut out, bytes[i], bytes[i + 1], bytes[i + 2], 3);
        assert(out@ + base64_url(bytes@.skip(i + 3)) =~= before + base64_url(bytes@.skip(i as int)));
        i = i + 3;
    }
    let rest = bytes.len() - i;
    let ghost tail = bytes@.skip(i as int);
    if rest == 1 {
        assert(tail[0] == bytes@[i as int]);
        push_group(&mut out, bytes[i], 0, 0, 1);
    } else if rest == 2 {
        assert(tail[0] == bytes@[i as int] && tail[1] == bytes@[i + 1]);
        push_group(&mut out, bytes[i], bytes[i + 1], 0, 2);
    } else {
        assert(tail.len() == 0);
        assert(out@ =~= out@ + base64_url(tail));
    }
    out
}

} // verus!
