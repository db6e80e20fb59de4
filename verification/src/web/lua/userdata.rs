//! What the script-facing helpers compute: escaping URI components,
//! decoding argument strings, base64, checksums and digests.

use vstd::prelude::*;
use vstd::utf8::encode_utf8;
use vstd::string::StringSliceAdditionalSpecFns;
use crate::text::{
    chars_of, string_from_chars, split_spec, deep_chars, spec_find, split_chars, find_chars,
    chars_slice, chars_equal,
};
use crate::unicode::{
    utf8_lossy, decode_utf8_lossy, str_from_utf8, all_ascii_bytes, ascii_chars,
    lemma_ascii_bytes_decode,
};
use vstd::utf8::{valid_utf8, decode_utf8};
use crate::web::lua::utils::{is_unreserved, spec_days_to_ymd, days_to_ymd};
use crate::logging::{padded, month_abbrev, clock_text, four_digit_year_time, system_clock};
use crate::text::{decimal, u64_to_decimal, append_str};
use crate::unicode::opt_view;

verus! {

broadcast use vstd::string::group_string_axioms;

// ---------------------------------------------------------------------------
// Escaping URI components.

pub open spec fn byte_unreserved(b: u8) -> bool {
    is_unreserved((b as u32) as char)
}

/// The ASCII number of an uppercase hexadecimal digit.
pub open spec fn hex_upper_byte(d: nat) -> u8 {
    if d < 10 {
        (48 + d) as u8
    } else {
        (55 + d) as u8
    }
}

/// How one byte of the UTF-8 form is written: unreserved ASCII as itself,
/// anything else as `%XX`.
pub open spec fn escape_byte(b: u8) -> Seq<u8> {
    if byte_unreserved(b) {
        seq![b]
    } else {
        seq![37u8, hex_upper_byte((b / 16) as nat), hex_upper_byte((b % 16) as nat)]
    }
}

pub open spec fn escape_bytes(bs: Seq<u8>) -> Seq<u8>
    decreases bs.len(),
{
    if bs.len() == 0 {
        Seq::empty()
    } else {
        escape_byte(bs[0]) + escape_bytes(bs.drop_first())
    }
}

/// A URI component escaped: every byte of its UTF-8 form but the
/// unreserved ASCII characters becomes `%XX`.
pub open spec fn spec_escape_component(s: Seq<char>) -> Seq<char> {
    ascii_chars(escape_bytes(encode_utf8(s)))
}

fn hex_upper_of(d: u8) -> (c: u8)
    requires
        d < 16,
    ensures
        c == hex_upper_byte(d as nat),
{
    if d < 10 {
        48 + d
    } else {
        55 + d
    }
}

proof fn lemma_escape_ascii(bs: Seq<u8>)
    ensures
        all_ascii_bytes(escape_bytes(bs)),
    decreases bs.len(),
{
    if bs.len() > 0 {
        lemma_escape_ascii(bs.drop_first());
        let a = escape_byte(bs[0]);
        let b = escape_bytes(bs.drop_first());
        assert(all_ascii_bytes(a));
        assert forall|i: int| 0 <= i < (a + b).len() implies #[trigger] (a + b)[i] < 128 by {
            if i < a.len() {
                assert((a + b)[i] == a[i]);
            } else {
                assert((a + b)[i] == b[i - a.len()]);
            }
        }
    }
}

/// Escapes a URI component.
pub fn url_escape_component(input: &str) -> (r: String)
    ensures
        r@ == spec_escape_component(input@),
{
    let bytes = input.as_bytes();
    assert(bytes@ == encode_utf8(input@));
    let mut out: Vec<u8> = Vec::new();
    let mut i: usize = 0;
    assert(bytes@.subrange(0, bytes@.len() as int) == bytes@);
    while i < bytes.len()
        invariant
            i <= bytes.len(),
            out@ + escape_bytes(bytes@.subrange(i as int, bytes@.len() as int)) == escape_bytes(
                bytes@,
            ),
        decreases bytes.len() - i,
    {
        let ghost t = bytes@.subrange(i as int, bytes@.len() as int);
        let ghost before = out@;
        let b = bytes[i];
        assert(t[0] == b);
        assert(t.drop_first() == bytes@.subrange(i + 1, bytes@.len() as int));
        let n = b as u32;
        if (65 <= n && n <= 90) || (97 <= n && n <= 122) || (48 <= n && n <= 57) || n == 45 || n
            == 95 || n == 46 || n == 126 {
            out.push(b);
        } else {
            out.push(37);
            out.push(hex_upper_of(b / 16));
            out.push(hex_upper_of(b % 16));
        }
        assert(out@ + escape_bytes(t.drop_first()) =~= before + escape_bytes(t));
        i = i + 1;
    }
    assert(bytes@.subrange(i as int, bytes@.len() as int) =~= Seq::<u8>::empty());
    assert(out@ + Seq::<u8>::empty() == out@);
    proof {
        lemma_escape_ascii(bytes@);
        lemma_ascii_bytes_decode(out@);
    }
    match str_from_utf8(&out) {
        Some(s) => s,
        None => String::new(),
    }
}

/// The value of an ASCII hexadecimal digit.
pub open spec fn spec_hex_digit_value(c: u8) -> Option<u8> {
    if 48 <= c <= 57 {
        Some((c - 48) as u8)
    } else if 65 <= c <= 70 {
        Some((c - 55) as u8)
    } else if 97 <= c <= 102 {
        Some((c - 87) as u8)
    } else {
        None
    }
}

pub fn hex_digit_value(c: u8) -> (r: Option<u8>)
    ensures
        r == spec_hex_digit_value(c),
{
    if 48 <= c && c <= 57 {
        Some(c - 48)
    } else if 65 <= c && c <= 70 {
        Some(c - 55)
    } else if 97 <= c && c <= 102 {
        Some(c - 87)
    } else {
        None
    }
}

/// Unescaping bytes: `%` with two hexadecimal digits after it is that
/// byte, `+` is a space, anything else stays.
pub open spec fn unescape_bytes(bs: Seq<u8>) -> Seq<u8>
    decreases bs.len(),
{
    if bs.len() == 0 {
        Seq::empty()
    } else if bs[0] == 37 && bs.len() > 2 && spec_hex_digit_value(bs[1]) is Some
        && spec_hex_digit_value(bs[2]) is Some {
        seq![
            (spec_hex_digit_value(bs[1])->0 * 16 + spec_hex_digit_value(bs[2])->0) as u8,
        ] + unescape_bytes(bs.subrange(3, bs.len() as int))
    } else if bs[0] == 43 {
        seq![32u8] + unescape_bytes(bs.drop_first())
    } else {
        seq![bs[0]] + unescape_bytes(bs.drop_first())
    }
}

/// The bytes a URI component unescapes to.
pub open spec fn spec_unescape_component(s: Seq<char>) -> Seq<u8> {
    unescape_bytes(encode_utf8(s))
}

/// Unescapes a URI component; the bytes are read as UTF-8, invalid
/// sequences replaced.
pub fn url_unescape_component(input: &str) -> (r: String)
    ensures
        r@ == utf8_lossy(spec_unescape_component(input@)),
        valid_utf8(spec_unescape_component(input@)) ==> r@ == decode_utf8(
            spec_unescape_component(input@),
        ),
{
    let bytes = input.as_bytes();
    assert(bytes@ == encode_utf8(input@));
    let mut out: Vec<u8> = Vec::new();
    let mut i: usize = 0;
    assert(bytes@.subrange(0, bytes@.len() as int) == bytes@);
    while i < bytes.len()
        invariant
            i <= bytes.len(),
            out@ + unescape_bytes(bytes@.subrange(i as int, bytes@.len() as int)) == unescape_bytes(
                bytes@,
            ),
        decreases bytes.len() - i,
    {
        let ghost t = bytes@.subrange(i as int, bytes@.len() as int);
        let ghost before = out@;
        assert(t[0] == bytes@[i as int]);
        if bytes[i] == 37 && bytes.len() - i > 2 {
            assert(t[1] == bytes@[i + 1]);
            assert(t[2] == bytes@[i + 2]);
            match (hex_digit_value(bytes[i + 1]), hex_digit_value(bytes[i + 2])) {
                (Some(d1), Some(d2)) => {
                    out.push(d1 * 16 + d2);
                    assert(t.subrange(3, t.len() as int) == bytes@.subrange(i + 3, bytes@.len() as int));
                    assert(out@ + unescape_bytes(t.subrange(3, t.len() as int)) =~= before
                        + unescape_bytes(t));
                    i = i + 3;
                },
                _ => {
                    out.push(bytes[i]);
                    assert(t.drop_first() == bytes@.subrange(i + 1, bytes@.len() as int));
                    assert(out@ + unescape_bytes(t.drop_first()) =~= before + unescape_bytes(t));
                    i = i + 1;
                },
            }
        } else {
            if bytes[i] == 43 {
                out.push(32);
            } else {
                out.push(bytes[i]);
            }
            assert(t.drop_first() == bytes@.subrange(i + 1, bytes@.len() as int));
            assert(out@ + unescape_bytes(t.drop_first()) =~= before + unescape_bytes(t));
            i = i + 1;
        }
    }
    assert(bytes@.subrange(i as int, bytes@.len() as int) =~= Seq::<u8>::empty());
    assert(out@ + Seq::<u8>::empty() == out@);
    decode_utf8_lossy(&out)
}

proof fn lemma_unescape_escape_bytes(bs: Seq<u8>)
    ensures
        unescape_bytes(escape_bytes(bs)) == bs,
    decreases bs.len(),
{
    if bs.len() == 0 {
        assert(bs =~= Seq::<u8>::empty());
    } else {
        let b = bs[0];
        let rest = escape_bytes(bs.drop_first());
        let x = escape_byte(b) + rest;
        lemma_unescape_escape_bytes(bs.drop_first());
        if byte_unreserved(b) {
            assert(x[0] == b);
            assert(x.drop_first() =~= rest);
        } else {
            assert(x[0] == 37);
            assert(x[1] == hex_upper_byte((b / 16) as nat));
            assert(x[2] == hex_upper_byte((b % 16) as nat));
            assert(x.subrange(3, x.len() as int) =~= rest);
        }
        assert(seq![b] + bs.drop_first() =~= bs);
    }
}

/// Unescaping an escaped component gives its bytes back, which are valid
/// UTF-8 and read as the component.
pub proof fn lemma_unescape_escape(s: Seq<char>)
    ensures
        spec_unescape_component(spec_escape_component(s)) == encode_utf8(s),
        valid_utf8(spec_unescape_component(spec_escape_component(s))),
        decode_utf8(spec_unescape_component(spec_escape_component(s))) == s,
{
    let e = escape_bytes(encode_utf8(s));
    lemma_escape_ascii(encode_utf8(s));
    lemma_ascii_chars_encode(e);
    lemma_unescape_escape_bytes(encode_utf8(s));
    vstd::utf8::encode_utf8_valid_utf8(s);
    vstd::utf8::encode_utf8_decode_utf8(s);
}

/// ASCII bytes read as characters encode back to themselves.
proof fn lemma_ascii_chars_encode(b: Seq<u8>)
    requires
        all_ascii_bytes(b),
    ensures
        encode_utf8(ascii_chars(b)) == b,
{
    let c = ascii_chars(b);
    assert(vstd::utf8::is_ascii_chars(c));
    vstd::utf8::is_ascii_chars_encode_utf8(c);
    assert forall|i: int| 0 <= i < b.len() implies encode_utf8(c)[i] == b[i] by {
        assert((c[i] as u8) == b[i]);
    }
    assert(encode_utf8(c) =~= b);
}

// ---------------------------------------------------------------------------
// Base64.

/// The standard base64 alphabet.
pub open spec fn b64_symbol(v: nat) -> u8 {
    if v < 26 {
        (65 + v) as u8
    } else if v < 52 {
        (71 + v) as u8
    } else if v < 62 {
        (v - 4) as u8
    } else if v == 62 {
        43u8
    } else {
        47u8
    }
}

/// Standard base64 of `b`: every three bytes become four symbols; a last
/// one or two bytes become two or three symbols, followed by `=` to a
/// multiple of four when `pad`.
pub open spec fn spec_base64(b: Seq<u8>, pad: bool) -> Seq<u8>
    decreases b.len(),
{
    if b.len() == 0 {
        Seq::empty()
    } else if b.len() == 1 {
        seq![b64_symbol((b[0] / 4) as nat), b64_symbol(((b[0] % 4) * 16) as nat)] + if pad {
            seq![61u8, 61u8]
        } else {
            Seq::empty()
        }
    } else if b.len() == 2 {
        seq![
            b64_symbol((b[0] / 4) as nat),
            b64_symbol(((b[0] % 4) * 16 + b[1] / 16) as nat),
            b64_symbol(((b[1] % 16) * 4) as nat),
        ] + if pad {
            seq![61u8]
        } else {
            Seq::empty()
        }
    } else {
        seq![
            b64_symbol((b[0] / 4) as nat),
            b64_symbol(((b[0] % 4) * 16 + b[1] / 16) as nat),
            b64_symbol(((b[1] % 16) * 4 + b[2] / 64) as nat),
            b64_symbol((b[2] % 64) as nat),
        ] + spec_base64(b.subrange(3, b.len() as int), pad)
    }
}

/// Encodes with base64's `STANDARD` engine. Trusted: the text is the
/// padded standard base64 of `data`.
#[verifier::external_body]
fn base64_standard_encode(data: &[u8]) -> (r: String)
    ensures
        r@ == ascii_chars(spec_base64(data@, true)),
{
    base64::Engine::encode(&base64::engine::general_purpose::STANDARD, data)
}

/// Encodes with base64's `STANDARD_NO_PAD` engine. Trusted: the text is
/// the unpadded standard base64 of `data`.
#[verifier::external_body]
fn base64_standard_no_pad_encode(data: &[u8]) -> (r: String)
    ensures
        r@ == ascii_chars(spec_base64(data@, false)),
{
    base64::Engine::encode(&base64::engine::general_purpose::STANDARD_NO_PAD, data)
}

/// Decodes with base64's `STANDARD` engine, which requires canonical
/// padding and no trailing bits. Trusted: it succeeds exactly on the padded
/// standard base64 of some bytes, and gives those bytes.
#[verifier::external_body]
fn base64_standard_decode(text: &[u8]) -> (r: Option<Vec<u8>>)
    ensures
        match r {
            Some(v) => spec_base64(v@, true) == text@,
            None => forall|v: Seq<u8>| spec_base64(v, true) != text@,
        },
{
    match base64::Engine::decode(&base64::engine::general_purpose::STANDARD, text) {
        Ok(v) => Some(v),
        Err(_) => None,
    }
}

/// `encode_base64`: standard base64, padded unless `no_padding`.
pub fn encode_base64(data: &[u8], no_padding: bool) -> (r: String)
    ensures
        r@ == ascii_chars(spec_base64(data@, !no_padding)),
{
    if no_padding {
        base64_standard_no_pad_encode(data)
    } else {
        base64_standard_encode(data)
    }
}

/// `decode_base64`: the bytes whose padded standard base64 `text` is, or
/// `None` when it is no such encoding.
pub fn decode_base64(text: &[u8]) -> (r: Option<Vec<u8>>)
    ensures
        match r {
            Some(v) => spec_base64(v@, true) == text@,
            None => forall|v: Seq<u8>| spec_base64(v, true) != text@,
        },
{
    base64_standard_decode(text)
}

// ---------------------------------------------------------------------------
// CRC-32.

/// One bit of the reflected CRC-32 polynomial division.
pub open spec fn crc_bit(c: u32) -> u32 {
    if c & 1 == 1 {
        (c >> 1) ^ 0xEDB8_8320
    } else {
        c >> 1
    }
}

pub open spec fn crc_byte(c: u32, b: u8) -> u32 {
    let x = c ^ (b as u32);
    crc_bit(crc_bit(crc_bit(crc_bit(crc_bit(crc_bit(crc_bit(crc_bit(x))))))))
}

pub open spec fn crc_fold(c: u32, bytes: Seq<u8>) -> u32
    decreases bytes.len(),
{
    if bytes.len() == 0 {
        c
    } else {
        crc_fold(crc_byte(c, bytes[0]), bytes.drop_first())
    }
}

/// CRC-32 (IEEE 802.3, reflected, initial and final value all ones).
pub open spec fn spec_crc32(bytes: Seq<u8>) -> u32 {
    crc_fold(0xFFFF_FFFF, bytes) ^ 0xFFFF_FFFF
}

/// Calls `crc32fast::hash`. Trusted: the result is the CRC-32 of `data`.
#[verifier::external_body]
fn crc32_hash(data: &[u8]) -> (r: u32)
    ensures
        r == spec_crc32(data@),
{
    crc32fast::hash(data)
}

/// `crc32_short`: the CRC-32 checksum.
pub fn crc32_short(data: &[u8]) -> (r: u32)
    ensures
        r == spec_crc32(data@),
{
    crc32_hash(data)
}

/// `crc32_long`: the same checksum as `crc32_short`.
pub fn crc32_long(data: &[u8]) -> (r: u32)
    ensures
        r == spec_crc32(data@),
{
    crc32_hash(data)
}

// ---------------------------------------------------------------------------
// Digests.

/// The MD5 digest of `data`, as the md5 crate computes it.
pub uninterp spec fn md5_digest(data: Seq<u8>) -> Seq<u8>;

/// The SHA-1 digest of `data`, as the sha1 crate computes it.
pub uninterp spec fn sha1_digest(data: Seq<u8>) -> Seq<u8>;

/// HMAC-SHA1 of `data` under `key`, as the hmac crate computes it.
pub uninterp spec fn hmac_sha1_digest(key: Seq<u8>, data: Seq<u8>) -> Seq<u8>;

/// Calls `md5::compute`. Trusted: the sixteen bytes of the digest of
/// `data`.
#[verifier::external_body]
fn md5_compute(data: &[u8]) -> (r: Vec<u8>)
    ensures
        r@ == md5_digest(data@),
        r@.len() == 16,
{
    md5::compute(data).0.to_vec()
}

/// Calls `sha1::Sha1` (`new`, `update`, `finalize`). Trusted: the twenty
/// bytes of the digest of `data`.
#[verifier::external_body]
fn sha1_compute(data: &[u8]) -> (r: Vec<u8>)
    ensures
        r@ == sha1_digest(data@),
        r@.len() == 20,
{
    let mut hasher = <sha1::Sha1 as sha1::Digest>::new();
    sha1::Digest::update(&mut hasher, data);
    sha1::Digest::finalize(hasher).to_vec()
}

/// Calls `Hmac::<Sha1>::new_from_slice`, `update` and `finalize`.
/// Trusted: the twenty bytes of the MAC of `data` under `key`; HMAC takes a
/// key of any length, so the constructor always succeeds.
#[verifier::external_body]
fn hmac_sha1_compute(key: &[u8], data: &[u8]) -> (r: Vec<u8>)
    ensures
        r@ == hmac_sha1_digest(key@, data@),
        r@.len() == 20,
{
    match <hmac::Hmac<sha1::Sha1> as hmac::Mac>::new_from_slice(key) {
        Ok(mut mac) => {
            hmac::Mac::update(&mut mac, data);
            hmac::Mac::finalize(mac).into_bytes().to_vec()
        },
        Err(_) => Vec::new(),
    }
}

/// Lowercase hexadecimal digits.
pub open spec fn hex_lower(d: nat) -> char {
    if d < 10 {
        ((48 + d) as u32) as char
    } else {
        ((87 + d) as u32) as char
    }
}

/// Each byte as two lowercase hexadecimal digits.
pub open spec fn spec_hex(bytes: Seq<u8>) -> Seq<char>
    decreases bytes.len(),
{
    if bytes.len() == 0 {
        Seq::empty()
    } else {
        spec_hex(bytes.drop_last()) + seq![
            hex_lower((bytes.last() / 16) as nat),
            hex_lower((bytes.last() % 16) as nat),
        ]
    }
}

fn hex_lower_of(d: u8) -> (c: char)
    requires
        d < 16,
    ensures
        c == hex_lower(d as nat),
{
    if d < 10 {
        (48 + d) as char
    } else {
        (87 + d) as char
    }
}

/// `md5`: the digest in lowercase hexadecimal.
pub fn md5_hex(data: &[u8]) -> (r: String)
    ensures
        r@ == spec_hex(md5_digest(data@)),
        r@.len() == 32,
{
    let d = md5_compute(data);
    let mut out: Vec<char> = Vec::new();
    let mut i: usize = 0;
    while i < d.len()
        invariant
            i <= d.len(),
            out@ == spec_hex(d@.take(i as int)),
            out@.len() == 2 * i,
        decreases d.len() - i,
    {
        out.push(hex_lower_of(d[i] / 16));
        out.push(hex_lower_of(d[i] % 16));
        assert(d@.take(i + 1).drop_last() == d@.take(i as int));
        assert(d@.take(i + 1).last() == d@[i as int]);
        i = i + 1;
        assert(out@ =~= spec_hex(d@.take(i as int)));
    }
    assert(d@.take(d@.len() as int) == d@);
    string_from_chars(&out)
}

/// `md5_bin`: the sixteen bytes of the digest.
pub fn md5_bin(data: &[u8]) -> (r: Vec<u8>)
    ensures
        r@ == md5_digest(data@),
        r@.len() == 16,
{
    md5_compute(data)
}

/// `sha1_bin`: the twenty bytes of the digest.
pub fn sha1_bin(data: &[u8]) -> (r: Vec<u8>)
    ensures
        r@ == sha1_digest(data@),
        r@.len() == 20,
{
    sha1_compute(data)
}

/// `hmac_sha1`: the twenty bytes of the MAC of `data` under `key`.
pub fn hmac_sha1(key: &[u8], data: &[u8]) -> (r: Vec<u8>)
    ensures
        r@ == hmac_sha1_digest(key@, data@),
        r@.len() == 20,
{
    hmac_sha1_compute(key, data)
}

// ---------------------------------------------------------------------------
// Dates and times.

/// Ten to the power `w`.
pub open spec fn pow10(w: nat) -> nat
    decreases w,
{
    if w == 0 {
        1
    } else {
        10 * pow10((w - 1) as nat)
    }
}

/// `v` with at least `w` digits, zeros in front, as `{:0w}` writes it.
pub open spec fn zero_padded(v: nat, w: nat) -> Seq<char> {
    if v < pow10(w) {
        padded(v, w)
    } else {
        decimal(v)
    }
}

/// The date `yyyy-mm-dd` of the day `secs / 86400` counted as an `i32`
/// (as the day count is cast) from 1970-01-01.
pub open spec fn spec_date_text(secs: u64) -> Seq<char> {
    let (y, m, d) = spec_days_to_ymd(((secs / 86400) as i32) as int);
    zero_padded(y as nat, 4) + seq!['-'] + zero_padded(m as nat, 2) + seq!['-'] + zero_padded(
        d as nat,
        2,
    )
}

proof fn lemma_year_of_at_least(rem: int, year: int)
    ensures
        crate::web::lua::utils::year_of(rem, year).0 >= year,
    decreases rem,
{
    if rem >= crate::web::lua::utils::days_in_year(year) {
        lemma_year_of_at_least(rem - crate::web::lua::utils::days_in_year(year), year + 1);
    }
}

fn digit_of(d: u64) -> (c: char)
    requires
        d < 10,
    ensures
        c == crate::logging::digit_char(d as nat),
{
    match d {
        0 => '0',
        1 => '1',
        2 => '2',
        3 => '3',
        4 => '4',
        5 => '5',
        6 => '6',
        7 => '7',
        8 => '8',
        _ => '9',
    }
}

fn padded_chars(v: u64, w: usize) -> (r: Vec<char>)
    ensures
        r@ == padded(v as nat, w as nat),
    decreases w,
{
    if w == 0 {
        Vec::new()
    } else {
        let mut r = padded_chars(v / 10, w - 1);
        r.push(digit_of(v % 10));
        r
    }
}

fn push_zero_padded(out: &mut Vec<char>, v: u64, w: usize, limit: u64)
    requires
        limit == pow10(w as nat),
    ensures
        final(out)@ == old(out)@ + zero_padded(v as nat, w as nat),
{
    if v < limit {
        let p = padded_chars(v, w);
        let ghost start = out@;
        let mut i: usize = 0;
        while i < p.len()
            invariant
                i <= p.len(),
                out@ == start + p@.take(i as int),
            decreases p.len() - i,
        {
            out.push(p[i]);
            i = i + 1;
            assert(out@ =~= start + p@.take(i as int));
        }
        assert(p@.take(p@.len() as int) == p@);
    } else {
        let d = u64_to_decimal(v);
        append_str(out, d.as_str());
    }
}

/// The date of the day `secs` falls in, `yyyy-mm-dd`, counted from
/// 1970-01-01 with the day count cast to `i32`. The count that wraps to
/// `-1` is left out: there the day arithmetic overflows.
pub fn date_text(secs: u64) -> (r: String)
    requires
        ((secs / 86400) as i32) != -1,
    ensures
        r@ == spec_date_text(secs),
{
    #[verifier::truncate]
    let days: i32 = (secs / 86400) as i32;
    let (y, m, d) = days_to_ymd(days);
    proof {
        lemma_year_of_at_least(days as int, 1970);
    }
    let mut out: Vec<char> = Vec::new();
    assert(pow10(4) == 10000 && pow10(2) == 100) by {
        reveal_with_fuel(pow10, 5);
    }
    push_zero_padded(&mut out, y as u64, 4, 10000);
    out.push('-');
    push_zero_padded(&mut out, m as u64, 2, 100);
    out.push('-');
    push_zero_padded(&mut out, d as u64, 2, 100);
    string_from_chars(&out)
}

/// Today's date in UTC, `yyyy-mm-dd`, from the system clock; none when the
/// clock reads before 1970 (an error in scripts) or so far ahead that the
/// day count cast to `i32` is `-1`.
pub fn today() -> (r: Option<String>)
    ensures
        r matches Some(t) ==> exists|s: u64| ((s / 86400) as i32) != -1 && t@ == spec_date_text(s),
{
    match system_clock() {
        Some((s, _)) => {
            #[verifier::truncate]
            let days: i32 = (s / 86400) as i32;
            if days == -1 {
                None
            } else {
                Some(date_text(s))
            }
        },
        None => None,
    }
}

/// The English abbreviation of the weekday of the day `days` after
/// 1970-01-01, a Thursday.
pub open spec fn weekday_abbrev(days: int) -> Seq<char> {
    let w = (days + 4) % 7;
    if w == 0 {
        seq!['S', 'u', 'n']
    } else if w == 1 {
        seq!['M', 'o', 'n']
    } else if w == 2 {
        seq!['T', 'u', 'e']
    } else if w == 3 {
        seq!['W', 'e', 'd']
    } else if w == 4 {
        seq!['T', 'h', 'u']
    } else if w == 5 {
        seq!['F', 'r', 'i']
    } else {
        seq!['S', 'a', 't']
    }
}

/// `%a, %d %b %Y %H:%M:%S GMT` for the time `secs` in UTC.
pub open spec fn spec_http_time_text(secs: int) -> Seq<char> {
    let (y, m, d) = spec_days_to_ymd(secs / 86400);
    weekday_abbrev(secs / 86400) + seq![',', ' '] + padded(d as nat, 2) + seq![' '] + month_abbrev(m)
        + seq![' '] + padded(y as nat, 4) + seq![' '] + clock_text(secs) + seq![' ', 'G', 'M', 'T']
}

/// `%a, %d-%b-%y %H:%M:%S GMT` for the time `secs` in UTC.
pub open spec fn spec_cookie_time_text(secs: int) -> Seq<char> {
    let (y, m, d) = spec_days_to_ymd(secs / 86400);
    weekday_abbrev(secs / 86400) + seq![',', ' '] + padded(d as nat, 2) + seq!['-'] + month_abbrev(m)
        + seq!['-'] + padded((y % 100) as nat, 2) + seq![' '] + clock_text(secs) + seq![
        ' ',
        'G',
        'M',
        'T',
    ]
}

/// How chrono writes the second `secs` with `%a, %d %b %Y %H:%M:%S GMT`;
/// none where it has no date for it.
pub uninterp spec fn chrono_http_time(secs: i64) -> Option<Seq<char>>;

/// How chrono writes the second `secs` with `%a, %d-%b-%y %H:%M:%S GMT`;
/// none where it has no date for it.
pub uninterp spec fn chrono_cookie_time(secs: i64) -> Option<Seq<char>>;

/// The timestamp chrono's `DateTime::parse_from_rfc2822` reads from a
/// text; none where it fails.
pub uninterp spec fn chrono_rfc2822(text: Seq<char>) -> Option<i64>;

/// The timestamp chrono's `DateTime::parse_from_str` reads from a text with
/// a pattern; none where it fails.
pub uninterp spec fn chrono_parse_from_str(text: Seq<char>, pattern: Seq<char>) -> Option<i64>;

/// chrono's `Utc.timestamp_opt(secs, 0)` formatted with `%a, %d %b %Y
/// %H:%M:%S GMT`. Trusted: the result is that text, none where chrono has
/// no date (far outside the years 1970 to 9999); for those years it is
/// `spec_http_time_text`: weekday, day, month, four-digit year and time of
/// day of the proleptic Gregorian calendar.
#[verifier::external_body]
fn format_http_time(secs: i64) -> (r: Option<String>)
    ensures
        opt_view(r) == chrono_http_time(secs),
        four_digit_year_time(secs, 0) ==> opt_view(r) == Some(spec_http_time_text(secs as int)),
{
    match chrono::TimeZone::timestamp_opt(&chrono::Utc, secs, 0) {
        chrono::LocalResult::Single(dt) => Some(dt.format("%a, %d %b %Y %H:%M:%S GMT").to_string()),
        _ => None,
    }
}

/// chrono's `Utc.timestamp_opt(secs, 0)` formatted with `%a, %d-%b-%y
/// %H:%M:%S GMT`. Trusted: the result is that text, none where chrono has
/// no date; for the years 1970 to 9999 it is `spec_cookie_time_text`, the
/// year in its last two digits.
#[verifier::external_body]
fn format_cookie_time(secs: i64) -> (r: Option<String>)
    ensures
        opt_view(r) == chrono_cookie_time(secs),
        four_digit_year_time(secs, 0) ==> opt_view(r) == Some(spec_cookie_time_text(secs as int)),
{
    match chrono::TimeZone::timestamp_opt(&chrono::Utc, secs, 0) {
        chrono::LocalResult::Single(dt) => Some(dt.format("%a, %d-%b-%y %H:%M:%S GMT").to_string()),
        _ => None,
    }
}

/// chrono's `DateTime::parse_from_rfc2822` and the timestamp of what it
/// reads. Trusted: the result is named `chrono_rfc2822`, nothing more.
#[verifier::external_body]
fn parse_rfc2822(text: &str) -> (r: Option<i64>)
    ensures
        r == chrono_rfc2822(text@),
{
    match chrono::DateTime::parse_from_rfc2822(text) {
        Ok(dt) => Some(dt.timestamp()),
        Err(_) => None,
    }
}

/// chrono's `DateTime::parse_from_str` with `pattern` and the timestamp of
/// what it reads. Trusted: the result is named `chrono_parse_from_str`,
/// nothing more.
#[verifier::external_body]
fn parse_with_pattern(text: &str, pattern: &str) -> (r: Option<i64>)
    ensures
        r == chrono_parse_from_str(text@, pattern@),
{
    match chrono::DateTime::parse_from_str(text, pattern) {
        Ok(dt) => Some(dt.timestamp()),
        Err(_) => None,
    }
}

/// The first of the three HTTP date forms that reads: RFC 2822 (RFC 1123
/// dates), then RFC 850, then asctime.
pub open spec fn spec_parse_http_time(text: Seq<char>) -> Option<i64> {
    match chrono_rfc2822(text) {
        Some(t) => Some(t),
        None => match chrono_parse_from_str(text, rfc850_pattern()) {
            Some(t) => Some(t),
            None => chrono_parse_from_str(text, asctime_pattern()),
        },
    }
}

pub open spec fn rfc850_pattern() -> Seq<char> {
    "%A, %d-%b-%y %H:%M:%S GMT"@
}

pub open spec fn asctime_pattern() -> Seq<char> {
    "%a %b %d %H:%M:%S %Y"@
}

/// The time `secs` as HTTP headers write it (`Thu, 18 Nov 2010 11:27:35
/// GMT`); none where no date can be had for it.
pub fn http_time(secs: i64) -> (r: Option<String>)
    ensures
        opt_view(r) == chrono_http_time(secs),
        four_digit_year_time(secs, 0) ==> opt_view(r) == Some(spec_http_time_text(secs as int)),
{
    format_http_time(secs)
}

/// The time `secs` as cookie expiry dates write it (`Thu, 18-Nov-10
/// 11:27:35 GMT`); none where no date can be had for it.
pub fn cookie_time(secs: i64) -> (r: Option<String>)
    ensures
        opt_view(r) == chrono_cookie_time(secs),
        four_digit_year_time(secs, 0) ==> opt_view(r) == Some(spec_cookie_time_text(secs as int)),
{
    format_cookie_time(secs)
}

/// Reads an HTTP date in any of its three forms as seconds since the epoch.
pub fn parse_http_time(text: &str) -> (r: Option<i64>)
    ensures
        r == spec_parse_http_time(text@),
{
    if let Some(t) = parse_rfc2822(text) {
        return Some(t);
    }
    if let Some(t) = parse_with_pattern(text, "%A, %d-%b-%y %H:%M:%S GMT") {
        return Some(t);
    }
    parse_with_pattern(text, "%a %b %d %H:%M:%S %Y")
}

} // verus!
