//! Decoding of embedded payloads for the inspector's explicit decode action:
//! base64 in the standard and URL alphabets, hex, JWT payloads and binary
//! property lists, and the bounded preview of long values.

use vstd::prelude::*;
use vstd::string::*;
use vstd::utf8::*;

use crate::completion::{count_char, first_index_of};
use crate::text::{
    chars_of, chars_within, decimal, prefix_within, push_char, push_decimal, push_str,
    str_eq, string_of, trim, trimmed_chars,
};

verus! {

/// The value of a base64 digit, in the URL alphabet when `url` holds.
pub open spec fn base64_value(byte: u8, url: bool) -> Option<u8> {
    if 65 <= byte <= 90 {
        Some((byte - 65) as u8)
    } else if 97 <= byte <= 122 {
        Some((byte - 97 + 26) as u8)
    } else if 48 <= byte <= 57 {
        Some((byte - 48 + 52) as u8)
    } else if byte == 43 && !url {
        Some(62u8)
    } else if byte == 47 && !url {
        Some(63u8)
    } else if byte == 45 && url {
        Some(62u8)
    } else if byte == 95 && url {
        Some(63u8)
    } else {
        None
    }
}

/// The base64 alphabet as bytes, digit by digit: the upper-case letters
/// `A`–`Z`, the lower-case letters `a`–`z`, the digits `0`–`9`, then `+`
/// and `/`, or `-` and `_` in the URL alphabet.
pub open spec fn base64_alphabet(url: bool) -> Seq<u8> {
    Seq::new(26, |i: int| (65 + i) as u8) + Seq::new(26, |i: int| (97 + i) as u8) + Seq::new(10, |i: int| (48 + i) as u8)
        + if url {
        seq![45u8, 95u8]
    } else {
        seq![43u8, 47u8]
    }
}

/// Law: every digit of the alphabet decodes to its position in it, and a
/// byte that decodes at all is the alphabet's digit at the position it
/// decodes to.
pub proof fn law_base64_digits_are_the_alphabet(url: bool)
    ensures
        base64_alphabet(url).len() == 64,
        forall|i: int| 0 <= i < 64 ==> base64_value(#[trigger] base64_alphabet(url)[i], url) == Some(i as u8),
        forall|b: u8| #[trigger] base64_value(b, url) matches Some(v) ==> v < 64 && base64_alphabet(url)[v as int] == b,
{
    let upper = Seq::new(26, |i: int| (65 + i) as u8);
    let lower = Seq::new(26, |i: int| (97 + i) as u8);
    let digits = Seq::new(10, |i: int| (48 + i) as u8);
    let tail = if url { seq![45u8, 95u8] } else { seq![43u8, 47u8] };
    let alpha = base64_alphabet(url);
    assert(alpha == upper + lower + digits + tail);
    assert forall|i: int| 0 <= i < 64 implies base64_value(#[trigger] alpha[i], url) == Some(i as u8) by {
        if i < 26 {
            assert(alpha[i] == upper[i]);
        } else if i < 52 {
            assert(alpha[i] == lower[i - 26]);
        } else if i < 62 {
            assert(alpha[i] == digits[i - 52]);
        } else {
            assert(alpha[i] == tail[i - 62]);
        }
    }
    assert forall|b: u8| #[trigger] base64_value(b, url) is Some implies base64_value(b, url)->0 < 64
        && alpha[base64_value(b, url)->0 as int] == b by {
        let v = base64_value(b, url)->0;
        if 65 <= b <= 90 {
            assert(alpha[v as int] == upper[v as int]);
        } else if 97 <= b <= 122 {
            assert(alpha[v as int] == lower[v - 26]);
        } else if 48 <= b <= 57 {
            assert(alpha[v as int] == digits[v - 52]);
        } else {
            assert(alpha[v as int] == tail[v - 62]);
        }
    }
}

/// The six-bit values of `bytes`, padding (`=`) skipped; `None` when some
/// other byte is not a base64 digit.
pub open spec fn base64_sextets(bytes: Seq<u8>, url: bool) -> Option<Seq<u8>>
    decreases bytes.len(),
{
    if bytes.len() == 0 {
        Some(Seq::empty())
    } else {
        match base64_sextets(bytes.drop_last(), url) {
            None => None,
            Some(earlier) => if bytes.last() == 61 {
                Some(earlier)
            } else {
                match base64_value(bytes.last(), url) {
                    Some(v) => Some(earlier.push(v)),
                    None => None,
                }
            },
        }
    }
}

/// The bytes that up to four sextets carry: four give three bytes, three
/// give two, two give one; bits that do not fill a byte are dropped.
pub open spec fn sextet_group_bytes(g: Seq<u8>) -> Seq<u8> {
    let b0 = (g[0] * 4 + g[1] / 16) as u8;
    let b1 = ((g[1] % 16) * 16 + g[2] / 4) as u8;
    let b2 = ((g[2] % 4) * 64 + g[3]) as u8;
    if g.len() >= 4 {
        seq![b0, b1, b2]
    } else if g.len() == 3 {
        seq![b0, b1]
    } else if g.len() == 2 {
        seq![b0]
    } else {
        Seq::empty()
    }
}

/// The bytes that a sequence of sextets carries, four sextets at a time.
pub open spec fn sextet_bytes(s: Seq<u8>) -> Seq<u8>
    decreases s.len(),
{
    if s.len() <= 4 {
        sextet_group_bytes(s)
    } else {
        sextet_group_bytes(s.take(4)) + sextet_bytes(s.skip(4))
    }
}

/// The sextets of the standard base64 encoding of `bytes`: each three
/// bytes, most significant bit first, cut into four six-bit groups; a
/// final one or two bytes give two or three groups, zero-filled.
pub open spec fn encode_sextets(bytes: Seq<u8>) -> Seq<u8>
    decreases bytes.len(),
{
    if bytes.len() == 0 {
        seq![]
    } else if bytes.len() == 1 {
        seq![bytes[0] / 4, ((bytes[0] % 4) * 16) as u8]
    } else if bytes.len() == 2 {
        seq![bytes[0] / 4, ((bytes[0] % 4) * 16 + bytes[1] / 16) as u8, ((bytes[1] % 16) * 4) as u8]
    } else {
        seq![
            bytes[0] / 4,
            ((bytes[0] % 4) * 16 + bytes[1] / 16) as u8,
            ((bytes[1] % 16) * 4 + bytes[2] / 64) as u8,
            bytes[2] % 64,
        ] + encode_sextets(bytes.skip(3))
    }
}

/// The standard base64 text of `bytes`: each sextet as its alphabet digit,
/// then `=` up to a multiple of four digits.
pub open spec fn encode_text(bytes: Seq<u8>, url: bool) -> Seq<u8> {
    let digits = encode_sextets(bytes).map_values(|v: u8| base64_alphabet(url)[v as int]);
    digits + if bytes.len() % 3 == 1 {
        seq![61u8, 61u8]
    } else if bytes.len() % 3 == 2 {
        seq![61u8]
    } else {
        seq![]
    }
}

proof fn lemma_encode_sextets_small(bytes: Seq<u8>)
    ensures
        forall|k: int| 0 <= k < encode_sextets(bytes).len() ==> #[trigger] encode_sextets(bytes)[k] < 64,
        encode_sextets(bytes).len() % 4 == 0 || bytes.len() % 3 != 0,
    decreases bytes.len(),
{
    if bytes.len() >= 3 {
        lemma_encode_sextets_small(bytes.skip(3));
        let b0 = bytes[0];
        let b1 = bytes[1];
        let b2 = bytes[2];
        assert(b0 / 4 < 64 && (b0 % 4) * 16 + b1 / 16 < 64 && (b1 % 16) * 4 + b2 / 64 < 64 && b2 % 64 < 64);
        let head = seq![
            b0 / 4,
            ((b0 % 4) * 16 + b1 / 16) as u8,
            ((b1 % 16) * 4 + b2 / 64) as u8,
            b2 % 64,
        ];
        let rest = encode_sextets(bytes.skip(3));
        assert forall|k: int| 0 <= k < encode_sextets(bytes).len() implies #[trigger] encode_sextets(bytes)[k] < 64 by {
            if k >= 4 {
                assert(encode_sextets(bytes)[k] == rest[k - 4]);
            }
        }
    } else if bytes.len() == 2 {
        assert((bytes[0] % 4) * 16 + bytes[1] / 16 < 64 && (bytes[1] % 16) * 4 < 64);
    }
}

/// The sextets of three bytes give them back.
proof fn lemma_group_round_trip(x: u8, y: u8, z: u8)
    ensures
        sextet_group_bytes(seq![x / 4, ((x % 4) * 16 + y / 16) as u8, ((y % 16) * 4 + z / 64) as u8, z % 64])
            == seq![x, y, z],
        sextet_group_bytes(seq![x / 4, ((x % 4) * 16 + y / 16) as u8, ((y % 16) * 4) as u8]) == seq![x, y],
        sextet_group_bytes(seq![x / 4, ((x % 4) * 16) as u8]) == seq![x],
{
    assert((x / 4) * 4 + ((x % 4) * 16 + y / 16) / 16 == x) by (nonlinear_arith)
        requires
            x < 256,
            y < 256,
    {
        assert(y / 16 < 16);
    }
    assert((((x % 4) * 16 + y / 16) % 16) * 16 + ((y % 16) * 4 + z / 64) / 4 == y) by (nonlinear_arith)
        requires
            x < 256,
            y < 256,
            z < 256,
    {
        assert(y / 16 < 16);
        assert(z / 64 < 4);
    }
    assert((((y % 16) * 4 + z / 64) % 4) * 64 + z % 64 == z) by (nonlinear_arith)
        requires
            y < 256,
            z < 256,
    {
        assert(z / 64 < 4);
    }
    assert((((x % 4) * 16 + y / 16) % 16) * 16 + ((y % 16) * 4) / 4 == y) by (nonlinear_arith)
        requires
            x < 256,
            y < 256,
    {
        assert(y / 16 < 16);
    }
    assert((x / 4) * 4 + ((x % 4) * 16) / 16 == x) by (nonlinear_arith)
        requires
            x < 256,
    ;
    assert((x / 4) * 4 + ((x % 4) * 16 + y / 16) / 16 < 256);
}

/// Law: sextets decode back to the bytes they encode.
pub proof fn law_sextets_round_trip(bytes: Seq<u8>)
    ensures
        sextet_bytes(encode_sextets(bytes)) == bytes,
    decreases bytes.len(),
{
    if bytes.len() == 1 {
        lemma_group_round_trip(bytes[0], 0, 0);
        assert(bytes =~= seq![bytes[0]]);
    } else if bytes.len() == 2 {
        lemma_group_round_trip(bytes[0], bytes[1], 0);
        assert(bytes =~= seq![bytes[0], bytes[1]]);
    } else if bytes.len() >= 3 {
        let rest = bytes.skip(3);
        law_sextets_round_trip(rest);
        lemma_group_round_trip(bytes[0], bytes[1], bytes[2]);
        let head = seq![
            bytes[0] / 4,
            ((bytes[0] % 4) * 16 + bytes[1] / 16) as u8,
            ((bytes[1] % 16) * 4 + bytes[2] / 64) as u8,
            bytes[2] % 64,
        ];
        let e = encode_sextets(bytes);
        assert(e == head + encode_sextets(rest));
        if rest.len() == 0 {
            assert(e =~= head);
            assert(bytes =~= seq![bytes[0], bytes[1], bytes[2]]);
        } else {
            assert(encode_sextets(rest).len() > 0);
            assert(e.take(4) =~= head);
            assert(e.skip(4) =~= encode_sextets(rest));
            assert(bytes =~= seq![bytes[0], bytes[1], bytes[2]] + rest);
        }
    } else {
        assert(sextet_bytes(Seq::<u8>::empty()) =~= Seq::<u8>::empty());
    }
}

/// Digits of the alphabet decode to their sextets, and padding after them
/// is skipped.
proof fn lemma_digits_decode(t: Seq<u8>, pad: nat, url: bool)
    requires
        forall|k: int| 0 <= k < t.len() ==> #[trigger] t[k] < 64,
    ensures
        base64_sextets(t.map_values(|v: u8| base64_alphabet(url)[v as int]) + Seq::new(pad, |i: int| 61u8), url)
            == Some(t),
    decreases t.len() + pad,
{
    let text = t.map_values(|v: u8| base64_alphabet(url)[v as int]) + Seq::new(pad, |i: int| 61u8);
    law_base64_digits_are_the_alphabet(url);
    if pad > 0 {
        lemma_digits_decode(t, (pad - 1) as nat, url);
        assert(text.drop_last() =~= t.map_values(|v: u8| base64_alphabet(url)[v as int]) + Seq::new(
            (pad - 1) as nat,
            |i: int| 61u8,
        ));
    } else if t.len() > 0 {
        lemma_digits_decode(t.drop_last(), 0, url);
        assert(text.drop_last() =~= t.drop_last().map_values(|v: u8| base64_alphabet(url)[v as int]) + Seq::new(
            0,
            |i: int| 61u8,
        ));
        let v = t.last();
        assert(text.last() == base64_alphabet(url)[v as int]);
        assert(base64_value(base64_alphabet(url)[v as int], url) == Some(v as u8));
        assert(base64_alphabet(url)[v as int] != 61) by {
            if base64_alphabet(url)[v as int] == 61 {
                assert(base64_value(61u8, url) is None);
            }
        }
        assert(t.drop_last().push(v) =~= t);
    } else {
        assert(text =~= Seq::<u8>::empty());
    }
}

/// Law: decoding the standard base64 text of any bytes gives back those
/// bytes (what `decode_base64_bytes` returns for it).
pub proof fn law_base64_round_trip(bytes: Seq<u8>, url: bool)
    ensures
        base64_sextets(encode_text(bytes, url), url) == Some(encode_sextets(bytes)),
        sextet_bytes(encode_sextets(bytes)) == bytes,
{
    lemma_encode_sextets_small(bytes);
    let pad: nat = if bytes.len() % 3 == 1 { 2 } else if bytes.len() % 3 == 2 { 1 } else { 0 };
    lemma_digits_decode(encode_sextets(bytes), pad, url);
    assert(encode_text(bytes, url) =~= encode_sextets(bytes).map_values(|v: u8| base64_alphabet(url)[v as int])
        + Seq::new(pad, |i: int| 61u8));
    law_sextets_round_trip(bytes);
}

fn base64_digit(byte: u8, url: bool) -> (r: Option<u8>)
    ensures
        r == base64_value(byte, url),
        r matches Some(v) ==> v < 64,
{
    if 65 <= byte && byte <= 90 {
        Some(byte - 65)
    } else if 97 <= byte && byte <= 122 {
        Some(byte - 97 + 26)
    } else if 48 <= byte && byte <= 57 {
        Some(byte - 48 + 52)
    } else if byte == 43 && !url {
        Some(62)
    } else if byte == 47 && !url {
        Some(63)
    } else if byte == 45 && url {
        Some(62)
    } else if byte == 95 && url {
        Some(63)
    } else {
        None
    }
}

fn sextets_of(bytes: &[u8], url: bool) -> (r: Option<Vec<u8>>)
    ensures
        match base64_sextets(bytes@, url) {
            None => r is None,
            Some(s) => r matches Some(v) && v@ == s && forall|k: int| 0 <= k < v@.len() ==> #[trigger] v@[k] < 64,
        },
{
    let mut out: Vec<u8> = Vec::new();
    let mut k: usize = 0;
    while k < bytes.len()
        invariant
            k <= bytes@.len(),
            base64_sextets(bytes@.subrange(0, k as int), url) == Some(out@),
            forall|j: int| 0 <= j < out@.len() ==> #[trigger] out@[j] < 64,
        decreases bytes@.len() - k,
    {
        proof {
            assert(bytes@.subrange(0, k + 1).drop_last() =~= bytes@.subrange(0, k as int));
        }
        let byte = bytes[k];
        if byte != 61 {
            match base64_digit(byte, url) {
                Some(v) => {
                    out.push(v);
                },
                None => {
                    proof {
                        lemma_sextets_fail(bytes@, url, k as int + 1);
                    }
                    return None;
                },
            }
        }
        k += 1;
    }
    proof {
        assert(bytes@.subrange(0, k as int) =~= bytes@);
    }
    Some(out)
}

proof fn lemma_sextets_fail(bytes: Seq<u8>, url: bool, n: int)
    requires
        0 <= n <= bytes.len(),
        base64_sextets(bytes.subrange(0, n), url) is None,
    ensures
        base64_sextets(bytes, url) is None,
    decreases bytes.len() - n,
{
    if n < bytes.len() {
        assert(bytes.subrange(0, n + 1).drop_last() =~= bytes.subrange(0, n));
        lemma_sextets_fail(bytes, url, n + 1);
    } else {
        assert(bytes.subrange(0, n) =~= bytes);
    }
}

fn push_group(out: &mut Vec<u8>, s: &Vec<u8>, start: usize, len: usize)
    requires
        start + len <= s.len(),
        len <= 4,
        forall|k: int| 0 <= k < s@.len() ==> #[trigger] s@[k] < 64,
    ensures
        final(out)@ == old(out)@ + sextet_group_bytes(s@.subrange(start as int, start + len)),
{
    let ghost g = s@.subrange(start as int, start + len);
    if len >= 2 {
        let b0 = s[start] * 4 + s[start + 1] / 16;
        out.push(b0);
    }
    if len >= 3 {
        let b1 = (s[start + 1] % 16) * 16 + s[start + 2] / 4;
        out.push(b1);
    }
    if len >= 4 {
        let b2 = (s[start + 2] % 4) * 64 + s[start + 3];
        out.push(b2);
    }
    proof {
        assert(out@ =~= old(out)@ + sextet_group_bytes(g));
    }
}

fn bytes_of_sextets(s: &Vec<u8>) -> (out: Vec<u8>)
    requires
        forall|k: int| 0 <= k < s@.len() ==> #[trigger] s@[k] < 64,
    ensures
        out@ == sextet_bytes(s@),
{
    let mut out: Vec<u8> = Vec::new();
    let mut i: usize = 0;
    assert(s@.skip(0) =~= s@);
    assert(out@ + sextet_bytes(s@) =~= sextet_bytes(s@));
    while s.len() - i > 4
        invariant
            i <= s@.len(),
            forall|k: int| 0 <= k < s@.len() ==> #[trigger] s@[k] < 64,
            sextet_bytes(s@) == out@ + sextet_bytes(s@.skip(i as int)),
        decreases s@.len() - i,
    {
        proof {
            assert(s@.skip(i as int).take(4) =~= s@.subrange(i as int, i + 4));
            assert(s@.skip(i as int).skip(4) =~= s@.skip(i + 4));
        }
        push_group(&mut out, s, i, 4);
        i += 4;
    }
    push_group(&mut out, s, i, s.len() - i);
    proof {
        assert(s@.skip(i as int) =~= s@.subrange(i as int, s@.len() as int));
    }
    out
}

/// Decodes base64 text (padding ignored) to bytes.
pub fn decode_base64_bytes(value: &str, url: bool) -> (r: Result<Vec<u8>, &'static str>)
    ensures
        match base64_sextets(value.spec_bytes(), url) {
            Some(s) => r matches Ok(bytes) && bytes@ == sextet_bytes(s),
            None => r matches Err(message) && message@ == "invalid base64"@,
        },
{
    match sextets_of(value.as_bytes(), url) {
        Some(s) => Ok(bytes_of_sextets(&s)),
        None => Err("invalid base64"),
    }
}

/// Calls `String::from_utf8`, documented to succeed exactly when the bytes
/// are valid UTF-8, with the text they encode.
#[verifier::external_body]
fn utf8_string(bytes: Vec<u8>) -> (r: Option<String>)
    ensures
        match r {
            Some(s) => valid_utf8(bytes@) && s@ == decode_utf8(bytes@),
            None => !valid_utf8(bytes@),
        },
{
    String::from_utf8(bytes).ok()
}

/// The text that `String::from_utf8_lossy` makes of `bytes`.
pub uninterp spec fn lossy_text(bytes: Seq<u8>) -> Seq<char>;

/// Calls `String::from_utf8_lossy`, documented to decode the bytes and put
/// U+FFFD in place of each invalid sequence; valid UTF-8 thus comes back as
/// the text it encodes.
#[verifier::external_body]
fn lossy_string(bytes: &[u8]) -> (s: String)
    ensures
        s@ == lossy_text(bytes@),
        valid_utf8(bytes@) ==> s@ == decode_utf8(bytes@),
{
    String::from_utf8_lossy(bytes).into_owned()
}

/// What decoding `bytes` as base64 text gives: the decoded text, or the
/// message of the error.
pub open spec fn base64_text(bytes: Seq<u8>, url: bool) -> Result<Seq<char>, Seq<char>> {
    match base64_sextets(bytes, url) {
        None => Err("invalid base64"@),
        Some(s) => if valid_utf8(sextet_bytes(s)) {
            Ok(decode_utf8(sextet_bytes(s)))
        } else {
            Err("decoded data is binary"@)
        },
    }
}

/// A text result as characters.
pub open spec fn text_outcome(r: Result<String, &'static str>) -> Result<Seq<char>, Seq<char>> {
    match r {
        Ok(text) => Ok(text@),
        Err(message) => Err(message@),
    }
}

/// Decodes base64 text that must decode to UTF-8 text.
pub fn decode_base64(value: &str, url: bool) -> (r: Result<String, &'static str>)
    ensures
        text_outcome(r) == base64_text(value.spec_bytes(), url),
{
    match decode_base64_bytes(value, url) {
        Err(message) => Err(message),
        Ok(bytes) => match utf8_string(bytes) {
            Some(text) => Ok(text),
            None => Err("decoded data is binary"),
        },
    }
}

/// `c` is an ASCII hex digit.
pub open spec fn is_hex_digit(c: char) -> bool {
    ('0' <= c <= '9') || ('a' <= c <= 'f') || ('A' <= c <= 'F')
}

/// The value of a hex digit.
pub open spec fn hex_value(c: char) -> int {
    if '0' <= c <= '9' {
        c as int - 48
    } else if 'a' <= c <= 'f' {
        c as int - 87
    } else {
        c as int - 55
    }
}

/// Every character is a hex digit.
pub open spec fn all_hex(s: Seq<char>) -> bool {
    forall|k: int| 0 <= k < s.len() ==> is_hex_digit(#[trigger] s[k])
}

/// The bytes that pairs of hex digits spell.
pub open spec fn hex_bytes(digits: Seq<char>) -> Seq<u8> {
    Seq::new((digits.len() / 2) as nat, |k: int| (hex_value(digits[2 * k]) * 16 + hex_value(digits[2 * k + 1])) as u8)
}

fn hex_digit_value(c: char) -> (v: u8)
    requires
        is_hex_digit(c),
    ensures
        v as int == hex_value(c),
        v < 16,
{
    if '0' <= c && c <= '9' {
        (c as u8) - 48
    } else if 'a' <= c && c <= 'f' {
        (c as u8) - 87
    } else {
        (c as u8) - 55
    }
}

fn hex_digit_test(c: char) -> (r: bool)
    ensures
        r == is_hex_digit(c),
{
    ('0' <= c && c <= '9') || ('a' <= c && c <= 'f') || ('A' <= c && c <= 'F')
}

/// The byte a pair of characters spells as a hex number: two hex digits,
/// or a `+` sign and one digit; `None` when it is not such a number.
pub open spec fn pair_value(a: char, b: char) -> Option<u8> {
    if a == '+' && is_hex_digit(b) {
        Some(hex_value(b) as u8)
    } else if is_hex_digit(a) && is_hex_digit(b) {
        Some((hex_value(a) * 16 + hex_value(b)) as u8)
    } else {
        None
    }
}

/// `r` with `prefix` in front of the bytes it decoded.
pub open spec fn after_pairs(prefix: Seq<u8>, r: Option<Option<Seq<u8>>>) -> Option<Option<Seq<u8>>> {
    match r {
        Some(Some(rest)) => Some(Some(prefix + rest)),
        other => other,
    }
}

/// Reading a string two bytes at a time as hex numbers, up to the first
/// pair that is not one: `Some(Some(bytes))` when every pair is a number,
/// `Some(None)` when a pair is not, and `None` when, before that, a pair of
/// bytes does not fall on character boundaries (an odd byte length
/// included), which cannot be read at all. A two-byte character is a pair
/// of its own and never a number.
pub open spec fn hex_pairs(s: Seq<char>) -> Option<Option<Seq<u8>>>
    decreases s.len(),
{
    if s.len() == 0 {
        Some(Some(seq![]))
    } else if (s[0] as u32) < 128 {
        if s.len() < 2 || (s[1] as u32) >= 128 {
            None
        } else {
            match pair_value(s[0], s[1]) {
                None => Some(None),
                Some(byte) => after_pairs(seq![byte], hex_pairs(s.skip(2))),
            }
        }
    } else if (s[0] as u32) < 0x800 {
        Some(None)
    } else {
        None
    }
}

/// Hex digits in pairs read as `hex_bytes` says.
pub proof fn lemma_hex_digits_pair_up(s: Seq<char>)
    requires
        all_hex(s),
        s.len() % 2 == 0,
    ensures
        hex_pairs(s) == Some(Some(hex_bytes(s))),
    decreases s.len(),
{
    if s.len() > 0 {
        let rest = s.skip(2);
        assert(is_hex_digit(s[0]) && is_hex_digit(s[1]));
        assert(all_hex(rest)) by {
            assert forall|k: int| 0 <= k < rest.len() implies is_hex_digit(#[trigger] rest[k]) by {
                assert(rest[k] == s[k + 2]);
            }
        }
        lemma_hex_digits_pair_up(rest);
        assert(hex_bytes(s) =~= seq![(hex_value(s[0]) * 16 + hex_value(s[1])) as u8] + hex_bytes(rest)) by {
            assert forall|k: int| 0 <= k < hex_bytes(rest).len() implies #[trigger] hex_bytes(rest)[k] == hex_bytes(s)[k + 1] by {
                assert(rest[2 * k] == s[2 * (k + 1)]);
                assert(rest[2 * k + 1] == s[2 * (k + 1) + 1]);
            }
        }
    }
}

fn hex_pair_value(a: char, b: char) -> (r: Option<u8>)
    ensures
        r == pair_value(a, b),
{
    if a == '+' && hex_digit_test(b) {
        Some(hex_digit_value(b))
    } else if hex_digit_test(a) && hex_digit_test(b) {
        Some(hex_digit_value(a) * 16 + hex_digit_value(b))
    } else {
        None
    }
}

/// Reads `value` two bytes at a time as hex numbers (see `hex_pairs`),
/// stopping at the first pair that is not one.
pub fn decode_hex(value: &str) -> (r: Result<Vec<u8>, &'static str>)
    requires
        hex_pairs(value@) is Some,
    ensures
        match hex_pairs(value@) {
            Some(Some(bytes)) => r matches Ok(decoded) && decoded@ == bytes,
            _ => r matches Err(message) && message@ == "invalid hex"@,
        },
{
    let cs = chars_of(value);
    let mut out: Vec<u8> = Vec::new();
    let mut k: usize = 0;
    proof {
        assert(cs@.skip(0) =~= cs@);
        assert(after_pairs(out@, hex_pairs(cs@)) == hex_pairs(cs@)) by {
            if let Some(Some(rest)) = hex_pairs(cs@) {
                assert(out@ + rest =~= rest);
            }
        }
    }
    while k < cs.len()
        invariant
            cs@ == value@,
            k <= cs@.len(),
            hex_pairs(value@) is Some,
            after_pairs(out@, hex_pairs(cs@.skip(k as int))) == hex_pairs(value@),
        decreases cs@.len() - k,
    {
        let ghost rest = cs@.skip(k as int);
        assert(rest[0] == cs@[k as int]);
        let c = cs[k];
        if (c as u32) < 128 {
            assert(rest.len() >= 2 && rest[1] == cs@[k + 1]);
            let d = cs[k + 1];
            match hex_pair_value(c, d) {
                None => {
                    return Err("invalid hex");
                },
                Some(byte) => {
                    let ghost before = out@;
                    out.push(byte);
                    proof {
                        assert(rest.skip(2) =~= cs@.skip(k + 2));
                        let tail = hex_pairs(cs@.skip(k + 2));
                        if let Some(Some(t)) = tail {
                            assert(before + (seq![byte] + t) =~= out@ + t);
                        }
                    }
                    k += 2;
                },
            }
        } else {
            return Err("invalid hex");
        }
    }
    proof {
        assert(cs@.skip(k as int) =~= Seq::<char>::empty());
        assert(out@ + Seq::<u8>::empty() =~= out@);
    }
    Ok(out)
}

/// `bytes` begin with the binary property list magic `bplist00`.
pub open spec fn has_plist_magic(bytes: Seq<u8>) -> bool {
    &&& bytes.len() >= 8
    &&& bytes[0] == 98 && bytes[1] == 112 && bytes[2] == 108 && bytes[3] == 105
    &&& bytes[4] == 115 && bytes[5] == 116 && bytes[6] == 48 && bytes[7] == 48
}

fn plist_magic_test(bytes: &[u8]) -> (r: bool)
    ensures
        r == has_plist_magic(bytes@),
{
    bytes.len() >= 8 && bytes[0] == 98 && bytes[1] == 112 && bytes[2] == 108 && bytes[3] == 105
        && bytes[4] == 115 && bytes[5] == 116 && bytes[6] == 48 && bytes[7] == 48
}

/// The hex digits that a token spells, `0x` stripped: at least sixteen of
/// them and an even number; `None` when the token is not such a run.
pub open spec fn hex_candidate(token: Seq<char>) -> Option<Seq<char>> {
    let value = if token.len() >= 2 && token[0] == '0' && token[1] == 'x' {
        token.skip(2)
    } else {
        token
    };
    if value.len() >= 16 && value.len() % 2 == 0 && all_hex(value) {
        Some(value)
    } else {
        None
    }
}

fn hex_candidate_of(token: &Vec<char>) -> (r: Option<Vec<char>>)
    ensures
        match hex_candidate(token@) {
            Some(digits) => r matches Some(v) && v@ == digits,
            None => r is None,
        },
{
    let start: usize = if token.len() >= 2 && token[0] == '0' && token[1] == 'x' {
        2
    } else {
        0
    };
    let mut value: Vec<char> = Vec::new();
    let mut k: usize = start;
    while k < token.len()
        invariant
            start <= k <= token@.len(),
            value@ == token@.subrange(start as int, k as int),
        decreases token@.len() - k,
    {
        value.push(token[k]);
        proof {
            assert(token@.subrange(start as int, k + 1) =~= token@.subrange(start as int, k as int).push(token@[k as int]));
        }
        k += 1;
    }
    proof {
        assert(value@ =~= token@.skip(start as int));
        if start == 0 {
            assert(token@.skip(0) =~= token@);
        }
    }
    if value.len() < 16 || value.len() % 2 != 0 {
        return None;
    }
    let mut j: usize = 0;
    while j < value.len()
        invariant
            value@ == (if token@.len() >= 2 && token@[0] == '0' && token@[1] == 'x' {
                token@.skip(2)
            } else {
                token@
            }),
            value@.len() >= 16,
            value@.len() % 2 == 0,
            j <= value@.len(),
            forall|m: int| 0 <= m < j ==> is_hex_digit(#[trigger] value@[m]),
        decreases value@.len() - j,
    {
        if !hex_digit_test(value[j]) {
            proof {
                assert(!is_hex_digit(value@[j as int]));
            }
            return None;
        }
        j += 1;
    }
    Some(value)
}

/// How a binary property list token is carried (as literal text, as hex
/// digits or as base64) and the bytes it stands for; the error message
/// when it is neither of the first two and not valid base64.
pub open spec fn plist_payload(token: Seq<char>) -> Result<(Seq<char>, Seq<u8>), Seq<char>> {
    let bytes = encode_utf8(token);
    if has_plist_magic(bytes) {
        Ok(("literal"@, bytes))
    } else {
        match hex_candidate(token) {
            Some(digits) => Ok(("hex"@, hex_bytes(digits))),
            None => match base64_sextets(bytes, false) {
                Some(s) => Ok(("base64"@, sextet_bytes(s))),
                None => Err("invalid base64"@),
            },
        }
    }
}

/// The summary shown for a binary property list.
pub open spec fn plist_summary(transport: Seq<char>, count: nat) -> Seq<char> {
    "Binary property list\nMagic: bplist00\nVersion: 00\nTransport: "@ + transport
        + "\nDecoded bytes: "@ + decimal(count)
        + "\n\nTransport decoded safely. Binary object-table parsing is intentionally not automatic."@
}

/// What the binary property list preview shows for `token`.
pub open spec fn plist_preview(token: Seq<char>) -> Result<Seq<char>, Seq<char>> {
    match plist_payload(token) {
        Err(message) => Err(message),
        Ok((transport, bytes)) => if has_plist_magic(bytes) {
            Ok(plist_summary(transport, bytes.len()))
        } else {
            Err("binary plist magic is missing"@)
        },
    }
}

/// Decodes the transport of a binary property list (literal, hex or
/// base64), checks its magic and summarises it; the object table itself is
/// not parsed.
pub fn decode_binary_plist_preview(token: &str) -> (r: Result<String, &'static str>)
    ensures
        text_outcome(r) == plist_preview(token@),
{
    let raw = token.as_bytes();
    let transport: &'static str;
    let bytes: Vec<u8>;
    if plist_magic_test(raw) {
        transport = "literal";
        bytes = vstd::slice::slice_to_vec(raw);
    } else {
        let cs = chars_of(token);
        match hex_candidate_of(&cs) {
            Some(digits) => {
                let text = string_of(digits.as_slice());
                proof {
                    lemma_hex_digits_pair_up(text@);
                }
                match decode_hex(text.as_str()) {
                    Ok(decoded) => {
                        transport = "hex";
                        bytes = decoded;
                    },
                    Err(message) => {
                        return Err(message);
                    },
                }
            },
            None => match decode_base64_bytes(token, false) {
                Ok(decoded) => {
                    transport = "base64";
                    bytes = decoded;
                },
                Err(message) => {
                    return Err(message);
                },
            },
        }
    }
    if !plist_magic_test(bytes.as_slice()) {
        return Err("binary plist magic is missing");
    }
    let mut out = String::new();
    push_str(&mut out, "Binary property list\nMagic: bplist00\nVersion: 00\nTransport: ");
    push_str(&mut out, transport);
    push_str(&mut out, "\nDecoded bytes: ");
    push_decimal(&mut out, bytes.len() as u64);
    push_str(
        &mut out,
        "\n\nTransport decoded safely. Binary object-table parsing is intentionally not automatic.",
    );
    proof {
        assert(out@ =~= plist_summary(transport@, bytes@.len()));
    }
    Ok(out)
}

/// The bytes of `-----BEGIN `.
pub open spec fn pem_opening() -> Seq<u8> {
    seq![45u8, 45, 45, 45, 45, 66, 69, 71, 73, 78, 32]
}

fn pem_opening_test(bytes: &[u8]) -> (r: bool)
    ensures
        r == (bytes@.len() >= 11 && bytes@.take(11) == pem_opening()),
{
    let r = bytes.len() >= 11 && bytes[0] == 45 && bytes[1] == 45 && bytes[2] == 45 && bytes[3] == 45
        && bytes[4] == 45 && bytes[5] == 66 && bytes[6] == 69 && bytes[7] == 71 && bytes[8] == 73
        && bytes[9] == 78 && bytes[10] == 32;
    proof {
        if bytes@.len() >= 11 {
            if r {
                assert(bytes@.take(11) =~= pem_opening());
            } else {
                assert(bytes@.take(11) != pem_opening()) by {
                    let t = bytes@.take(11);
                    let p = pem_opening();
                    assert(t[0] != p[0] || t[1] != p[1] || t[2] != p[2] || t[3] != p[3] || t[4] != p[4]
                        || t[5] != p[5] || t[6] != p[6] || t[7] != p[7] || t[8] != p[8] || t[9] != p[9]
                        || t[10] != p[10]);
                }
            }
        }
    }
    r
}

/// The middle part of a token made of exactly three dot-separated parts
/// (a JWT's payload).
pub open spec fn jwt_payload(token: Seq<char>) -> Option<Seq<char>> {
    if count_char(token, 0, token.len() as int, '.') == 2 {
        let first = first_index_of(token, 0, token.len() as int, '.');
        let second = first_index_of(token, first + 1, token.len() as int, '.');
        Some(token.subrange(first + 1, second))
    } else {
        None
    }
}

proof fn lemma_first_index_bounds(s: Seq<char>, a: int, b: int, ch: char)
    requires
        0 <= a <= b <= s.len(),
    ensures
        a <= first_index_of(s, a, b, ch) <= b,
        forall|k: int| a <= k < first_index_of(s, a, b, ch) ==> s[k] != ch,
        first_index_of(s, a, b, ch) < b ==> s[first_index_of(s, a, b, ch)] == ch,
    decreases b - a,
{
    if a < b && s[a] != ch {
        lemma_first_index_bounds(s, a + 1, b, ch);
    }
}

fn jwt_payload_of(token: &Vec<char>) -> (r: Option<Vec<char>>)
    ensures
        match jwt_payload(token@) {
            Some(p) => r matches Some(v) && v@ == p,
            None => r is None,
        },
{
    let n = token.len();
    let mut dots: usize = 0;
    let mut first: usize = n;
    let mut second: usize = n;
    let mut k: usize = 0;
    while k < n
        invariant
            n == token@.len(),
            k <= n,
            dots as int == count_char(token@, 0, k as int, '.'),
            dots <= k,
            dots == 0 ==> first == n,
            dots >= 1 ==> first == first_index_of(token@, 0, n as int, '.'),
            dots <= 1 ==> second == n,
            dots >= 2 ==> second == first_index_of(token@, first + 1, n as int, '.'),
            forall|m: int| 0 <= m < k && token@[m] == '.' ==> first <= m,
            dots >= 1 ==> first < k && token@[first as int] == '.',
            forall|m: int| first < m < k && token@[m] == '.' ==> second <= m,
            dots >= 2 ==> first < second < k && token@[second as int] == '.',
        decreases n - k,
    {
        if token[k] == '.' {
            if dots == 0 {
                first = k;
                proof {
                    lemma_first_index_prefix(token@, 0, k as int, n as int, '.');
                }
            } else if dots == 1 {
                second = k;
                proof {
                    lemma_first_index_prefix(token@, first + 1, k as int, n as int, '.');
                }
            }
            if dots < n {
                dots = dots + 1;
            }
        }
        k += 1;
    }
    if dots != 2 {
        return None;
    }
    let mut payload: Vec<char> = Vec::new();
    let mut j: usize = first + 1;
    while j < second
        invariant
            first < second <= n,
            n == token@.len(),
            first + 1 <= j <= second,
            payload@ == token@.subrange(first + 1, j as int),
        decreases second - j,
    {
        payload.push(token[j]);
        proof {
            assert(token@.subrange(first + 1, j + 1) =~= token@.subrange(first + 1, j as int).push(token@[j as int]));
        }
        j += 1;
    }
    Some(payload)
}

proof fn lemma_first_index_prefix(s: Seq<char>, a: int, k: int, b: int, ch: char)
    requires
        0 <= a <= k < b <= s.len(),
        s[k] == ch,
        forall|m: int| a <= m < k ==> s[m] != ch,
    ensures
        first_index_of(s, a, b, ch) == k,
    decreases k - a,
{
    if a < k {
        lemma_first_index_prefix(s, a + 1, k, b, ch);
    }
}

/// What the inspector's decode action shows for a payload: for a binary
/// property list its summary; for a PEM envelope a fixed note; for a
/// three-part JWT its decoded payload; for a run of hex digits the bytes
/// read as text; otherwise the payload decoded as base64 text.
pub open spec fn embedded_preview(detector_id: Seq<char>, raw: Seq<char>) -> Result<Seq<char>, Seq<char>> {
    let token = trim(raw);
    if detector_id == "binary-plist"@ {
        plist_preview(token)
    } else if encode_utf8(token).len() >= 11 && encode_utf8(token).take(11) == pem_opening() {
        Ok("PEM envelope detected. Certificate decoding is intentionally metadata-only in this build."@)
    } else {
        match jwt_payload(token) {
            Some(payload) => base64_text(encode_utf8(payload), true),
            None => match hex_candidate(token) {
                Some(digits) => Ok(lossy_text(hex_bytes(digits))),
                None => base64_text(encode_utf8(token), false),
            },
        }
    }
}

/// Decodes an embedded payload for the inspector (see `embedded_preview`).
pub fn decode_embedded_preview(detector_id: &str, raw: &str) -> (r: Result<String, &'static str>)
    ensures
        text_outcome(r) == embedded_preview(detector_id@, raw@),
{
    let trimmed = trimmed_chars(raw);
    let token = string_of(trimmed.as_slice());
    if str_eq(detector_id, "binary-plist") {
        return decode_binary_plist_preview(token.as_str());
    }
    if pem_opening_test(token.as_str().as_bytes()) {
        return Ok(
            "PEM envelope detected. Certificate decoding is intentionally metadata-only in this build.".to_owned(),
        );
    }
    match jwt_payload_of(&trimmed) {
        Some(payload) => {
            let text = string_of(payload.as_slice());
            return decode_base64(text.as_str(), true);
        },
        None => {},
    }
    match hex_candidate_of(&trimmed) {
        Some(digits) => {
            let text = string_of(digits.as_slice());
            proof {
                lemma_hex_digits_pair_up(text@);
            }
            match decode_hex(text.as_str()) {
                Ok(bytes) => Ok(lossy_string(bytes.as_slice())),
                Err(message) => Err(message),
            }
        },
        None => decode_base64(token.as_str(), false),
    }
}

/// A value cut to its first 240 bytes (at a character boundary) with an
/// ellipsis, or the whole value when it is no longer.
pub open spec fn preview_text(value: Seq<char>) -> Seq<char> {
    if encode_utf8(value).len() <= 240 {
        value
    } else {
        value.take(chars_within(value, 240)) + seq!['…']
    }
}

/// The bounded preview of a value shown in the inspector's tree.
pub fn preview(value: &str) -> (shown: String)
    ensures
        shown@ == preview_text(value@),
{
    if value.as_bytes().len() <= 240 {
        return value.to_owned();
    }
    let (prefix, _) = prefix_within(value, 240);
    let mut out = string_of(prefix.as_slice());
    push_char(&mut out, '…');
    out
}


/// Law: base64 decoding yields six bits per digit, whole bytes only: `n`
/// digits give `6n / 8` bytes.
pub proof fn law_sextet_byte_count(s: Seq<u8>)
    ensures
        sextet_bytes(s).len() == s.len() * 6 / 8,
    decreases s.len(),
{
    if s.len() > 4 {
        law_sextet_byte_count(s.skip(4));
    }
}

} // verus!
