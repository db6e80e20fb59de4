//! Choosing a content coding from `Accept-Encoding`, deciding which media
//! types are worth compressing, and the compressors themselves.

use std::io::Write;
use vstd::prelude::*;
use crate::text::{
    split_spec, trim_spec, has_prefix, contains_seq, deep_chars, spec_digit_run, split_chars,
    trim_chars, chars_equal, chars_start_with, chars_contain, chars_slice, chars_of,
    is_digit_char, all_digit_chars, digit_chars_value,
};
use crate::unicode::{utf8_lossy, lowercase, decode_utf8_lossy, to_lowercase};

verus! {

/// The content codings the server produces.
#[derive(Debug, Clone, Copy, PartialEq, Eq, Structural)]
pub enum CompressionType {
    Gzip,
    Deflate,
    Identity,
}

pub open spec fn gzip_name() -> Seq<char> {
    seq!['g', 'z', 'i', 'p']
}

pub open spec fn x_gzip_name() -> Seq<char> {
    seq!['x', '-', 'g', 'z', 'i', 'p']
}

pub open spec fn deflate_name() -> Seq<char> {
    seq!['d', 'e', 'f', 'l', 'a', 't', 'e']
}

pub open spec fn wildcard_name() -> Seq<char> {
    seq!['*']
}

pub open spec fn q_prefix() -> Seq<char> {
    seq!['q', '=']
}

/// A q-value as far as choosing a coding goes. Only values above zero can
/// make a coding acceptable, so zero, negative values, negative infinity
/// and NaN all count as `NotPositive`. A positive finite value is
/// `0.d1d2...dn * 10^exp` with `d1` and `dn` not zero (no leading or
/// trailing zeros); `Infinite` is positive infinity.
pub enum QVal {
    NotPositive,
    Positive(Seq<char>, int),
    Infinite,
}

/// A q-value as it is kept while choosing a coding (see `QVal`).
#[derive(Debug, Clone, PartialEq, Eq)]
pub enum QValue {
    NotPositive,
    Positive(Vec<char>, i64),
    Infinite,
}

impl View for QValue {
    type V = QVal;

    open spec fn view(&self) -> QVal {
        match self {
            QValue::NotPositive => QVal::NotPositive,
            QValue::Positive(d, e) => QVal::Positive(d@, *e as int),
            QValue::Infinite => QVal::Infinite,
        }
    }
}

/// The q-value 1, what a coding without a `q` parameter gets.
pub open spec fn q_one() -> QVal {
    QVal::Positive(seq!['1'], 1)
}

/// Decimal exponents beyond this bound, either way, are outside what a
/// 32-bit float holds by far: above it the value is infinite, below it zero,
/// as `f32` parsing gives.
pub const QEXP_LIMIT: i64 = 1000;

/// Decimal exponents are read up to this size; a larger one is as good as
/// infinite, since no run of digits can bring it back within `QEXP_LIMIT`.
pub const QEXP_SAT: i128 = 1_000_000_000_000_000_000_000;

pub open spec fn leading_zeros(s: Seq<char>) -> nat
    decreases s.len(),
{
    if s.len() == 0 {
        0
    } else if s[0] == '0' {
        1 + leading_zeros(s.drop_first())
    } else {
        0
    }
}

pub open spec fn trailing_zeros(s: Seq<char>) -> nat
    decreases s.len(),
{
    if s.len() == 0 {
        0
    } else if s.last() == '0' {
        1 + trailing_zeros(s.drop_last())
    } else {
        0
    }
}

/// The mantissa `ip.fp` (digits) times `10^e`, for a sign.
pub open spec fn decimal_q(negative: bool, ip: Seq<char>, fp: Seq<char>, e: int) -> QVal {
    let all = ip + fp;
    let lz = leading_zeros(all);
    if negative || lz == all.len() {
        QVal::NotPositive
    } else {
        let ex = ip.len() - lz + e;
        if ex > QEXP_LIMIT {
            QVal::Infinite
        } else if ex < -QEXP_LIMIT {
            QVal::NotPositive
        } else {
            QVal::Positive(all.subrange(lz as int, all.len() - trailing_zeros(all)), ex)
        }
    }
}

/// An exponent: an optional sign and at least one digit.
pub open spec fn spec_exponent(t: Seq<char>) -> Option<int> {
    let neg = t.len() > 0 && t[0] == '-';
    let ds = if t.len() > 0 && (t[0] == '-' || t[0] == '+') {
        t.drop_first()
    } else {
        t
    };
    if ds.len() == 0 || !all_digit_chars(ds) {
        None
    } else if neg {
        Some(-(digit_chars_value(ds) as int))
    } else {
        Some(digit_chars_value(ds) as int)
    }
}

/// A q-value as `str::parse::<f32>` reads one (in lowercase text): an
/// optional sign, then `inf`, `infinity`, `nan`, or digits with at most one
/// decimal point (at least one digit) and an optional exponent `e` with an
/// optional sign and at least one digit. Anything else does not read.
/// Values are compared exactly; this differs from `f32` only where rounding
/// to 24 bits would make two different values equal, or for values between
/// the float's range and `10^QEXP_LIMIT` (or its inverse).
pub open spec fn spec_qvalue(s: Seq<char>) -> Option<QVal> {
    let negative = s.len() > 0 && s[0] == '-';
    let body = if s.len() > 0 && (s[0] == '-' || s[0] == '+') {
        s.drop_first()
    } else {
        s
    };
    if body == seq!['i', 'n', 'f'] || body == seq!['i', 'n', 'f', 'i', 'n', 'i', 't', 'y'] {
        Some(
            if negative {
                QVal::NotPositive
            } else {
                QVal::Infinite
            },
        )
    } else if body == seq!['n', 'a', 'n'] {
        Some(QVal::NotPositive)
    } else {
        let ep = split_spec(body, 'e');
        let mp = split_spec(ep[0], '.');
        let ip = mp[0];
        let fp = if mp.len() == 2 {
            mp[1]
        } else {
            Seq::<char>::empty()
        };
        if ep.len() > 2 || mp.len() > 2 || !all_digit_chars(ip) || !all_digit_chars(fp) || ip.len()
            + fp.len() == 0 {
            None
        } else if ep.len() == 1 {
            Some(decimal_q(negative, ip, fp, 0))
        } else {
            match spec_exponent(ep[1]) {
                Some(e) => Some(decimal_q(negative, ip, fp, e)),
                None => None,
            }
        }
    }
}

/// `a` is larger than `b`, digit strings of the same exponent read as
/// fractions `0.a` and `0.b`.
pub open spec fn digits_gt(a: Seq<char>, b: Seq<char>) -> bool
    decreases a.len(),
{
    if a.len() == 0 {
        false
    } else if b.len() == 0 {
        true
    } else if a[0] != b[0] {
        (a[0] as u32) > (b[0] as u32)
    } else {
        digits_gt(a.drop_first(), b.drop_first())
    }
}

/// No digit string is larger than itself.
pub proof fn lemma_digits_gt_irreflexive(a: Seq<char>)
    ensures
        !digits_gt(a, a),
    decreases a.len(),
{
    if a.len() > 0 {
        lemma_digits_gt_irreflexive(a.drop_first());
    }
}

/// `a` is a larger q-value than `b`.
pub open spec fn q_gt(a: QVal, b: QVal) -> bool {
    match a {
        QVal::NotPositive => false,
        QVal::Infinite => !(b is Infinite),
        QVal::Positive(da, ea) => match b {
            QVal::NotPositive => true,
            QVal::Infinite => false,
            QVal::Positive(db, eb) => ea > eb || (ea == eb && digits_gt(da, db)),
        },
    }
}

/// Whether a q-value makes a coding acceptable.
pub open spec fn q_positive(a: QVal) -> bool {
    !(a is NotPositive)
}

/// Whether `a` is a larger q-value than `b`.
pub fn qvalue_gt(a: &QValue, b: &QValue) -> (r: bool)
    ensures
        r == q_gt(a@, b@),
{
    match a {
        QValue::NotPositive => false,
        QValue::Infinite => match b {
            QValue::Infinite => false,
            _ => true,
        },
        QValue::Positive(da, ea) => match b {
            QValue::NotPositive => true,
            QValue::Infinite => false,
            QValue::Positive(db, eb) => {
                if *ea != *eb {
                    *ea > *eb
                } else {
                    digits_greater(da, db)
                }
            },
        },
    }
}

fn digits_greater(a: &[char], b: &[char]) -> (r: bool)
    ensures
        r == digits_gt(a@, b@),
{
    let mut i: usize = 0;
    assert(a@.subrange(0, a@.len() as int) =~= a@);
    assert(b@.subrange(0, b@.len() as int) =~= b@);
    while i < a.len() && i < b.len()
        invariant
            i <= a.len(),
            i <= b.len(),
            digits_gt(a@, b@) == digits_gt(a@.subrange(i as int, a@.len() as int), b@.subrange(i as int, b@.len() as int)),
        decreases a.len() - i,
    {
        let ghost sa = a@.subrange(i as int, a@.len() as int);
        let ghost sb = b@.subrange(i as int, b@.len() as int);
        assert(sa[0] == a@[i as int] && sb[0] == b@[i as int]);
        if a[i] != b[i] {
            return (a[i] as u32) > (b[i] as u32);
        }
        assert(sa.drop_first() =~= a@.subrange(i + 1, a@.len() as int));
        assert(sb.drop_first() =~= b@.subrange(i + 1, b@.len() as int));
        i = i + 1;
    }
    a.len() > b.len()
}

fn all_digits(s: &[char]) -> (r: bool)
    ensures
        r == all_digit_chars(s@),
{
    let mut i: usize = 0;
    while i < s.len()
        invariant
            i <= s.len(),
            forall|k: int| 0 <= k < i ==> is_digit_char(#[trigger] s@[k]),
        decreases s.len() - i,
    {
        let n = s[i] as u32;
        if !(48 <= n && n <= 57) {
            return false;
        }
        i = i + 1;
    }
    true
}

proof fn lemma_digit_value_step(s: Seq<char>, i: int)
    requires
        0 <= i < s.len(),
        all_digit_chars(s),
    ensures
        digit_chars_value(s.take(i + 1)) == digit_chars_value(s.take(i)) * 10 + ((s[i] as u32) - 48),
{
    assert(s.take(i + 1).drop_last() =~= s.take(i));
    assert(s.take(i + 1).last() == s[i]);
}

/// The value of a run of digits, or `QEXP_SAT` when it is at least that.
fn saturating_digits(s: &[char]) -> (r: i128)
    requires
        all_digit_chars(s@),
    ensures
        r == if digit_chars_value(s@) < QEXP_SAT {
            digit_chars_value(s@) as int
        } else {
            QEXP_SAT as int
        },
{
    let mut acc: i128 = 0;
    let mut i: usize = 0;
    assert(s@.take(0) =~= Seq::<char>::empty());
    while i < s.len()
        invariant
            i <= s.len(),
            all_digit_chars(s@),
            acc == if digit_chars_value(s@.take(i as int)) < QEXP_SAT {
                digit_chars_value(s@.take(i as int)) as int
            } else {
                QEXP_SAT as int
            },
        decreases s.len() - i,
    {
        proof {
            lemma_digit_value_step(s@, i as int);
            assert(is_digit_char(s@[i as int]));
        }
        let d = (s[i] as u32 - 48) as i128;
        if acc < QEXP_SAT {
            let next = acc * 10 + d;
            acc = if next < QEXP_SAT {
                next
            } else {
                QEXP_SAT
            };
        }
        i = i + 1;
    }
    assert(s@.take(s@.len() as int) =~= s@);
    acc
}

/// Counts the zeros at the start of `s`.
fn count_leading_zeros(s: &[char]) -> (r: usize)
    ensures
        r == leading_zeros(s@),
        r <= s.len(),
{
    let mut i: usize = 0;
    assert(s@.subrange(0, s@.len() as int) =~= s@);
    while i < s.len() && s[i] == '0'
        invariant
            i <= s.len(),
            leading_zeros(s@) == i + leading_zeros(s@.subrange(i as int, s@.len() as int)),
        decreases s.len() - i,
    {
        let ghost t = s@.subrange(i as int, s@.len() as int);
        assert(t[0] == s@[i as int]);
        assert(t.drop_first() =~= s@.subrange(i + 1, s@.len() as int));
        i = i + 1;
    }
    proof {
        let t = s@.subrange(i as int, s@.len() as int);
        if i < s.len() {
            assert(t[0] == s@[i as int]);
        }
    }
    i
}

/// Counts the zeros at the end of `s`.
fn count_trailing_zeros(s: &[char]) -> (r: usize)
    ensures
        r == trailing_zeros(s@),
        r <= s.len(),
{
    let mut i: usize = 0;
    assert(s@.subrange(0, s@.len() as int) =~= s@);
    while i < s.len() && s[s.len() - 1 - i] == '0'
        invariant
            i <= s.len(),
            trailing_zeros(s@) == i + trailing_zeros(s@.subrange(0, s@.len() - i)),
        decreases s.len() - i,
    {
        let ghost t = s@.subrange(0, s@.len() - i);
        assert(t.last() == s@[s.len() - 1 - i]);
        assert(t.drop_last() =~= s@.subrange(0, s@.len() - (i + 1)));
        i = i + 1;
    }
    proof {
        let t = s@.subrange(0, s@.len() - i);
        if i < s.len() {
            assert(t.last() == s@[s.len() - 1 - i]);
        }
    }
    i
}

/// Reads an exponent, its size capped at `QEXP_SAT`.
fn parse_exponent(t: &[char]) -> (r: Option<i128>)
    ensures
        match r {
            None => spec_exponent(t@) is None,
            Some(e) => spec_exponent(t@) matches Some(x) && (if -QEXP_SAT < x < QEXP_SAT {
                e == x
            } else if x >= QEXP_SAT {
                e == QEXP_SAT
            } else {
                e == -QEXP_SAT
            }),
        },
{
    let signed = t.len() > 0 && (t[0] == '-' || t[0] == '+');
    let neg = t.len() > 0 && t[0] == '-';
    let ds = if signed {
        chars_slice(t, 1, t.len())
    } else {
        chars_slice(t, 0, t.len())
    };
    proof {
        if signed {
            assert(ds@ =~= t@.drop_first());
        } else {
            assert(ds@ =~= t@);
        }
    }
    if ds.len() == 0 || !all_digits(&ds) {
        return None;
    }
    let v = saturating_digits(&ds);
    if neg {
        Some(-v)
    } else {
        Some(v)
    }
}

/// Reads a q-value as `str::parse::<f32>` would (see `spec_qvalue`).
pub fn parse_qvalue(s: &[char]) -> (r: Option<QValue>)
    ensures
        match r {
            Some(q) => spec_qvalue(s@) == Some(q@),
            None => spec_qvalue(s@) is None,
        },
{
    let signed = s.len() > 0 && (s[0] == '-' || s[0] == '+');
    let negative = s.len() > 0 && s[0] == '-';
    let body = if signed {
        chars_slice(s, 1, s.len())
    } else {
        chars_slice(s, 0, s.len())
    };
    proof {
        if signed {
            assert(body@ =~= s@.drop_first());
        } else {
            assert(body@ =~= s@);
        }
    }
    let inf: [char; 3] = ['i', 'n', 'f'];
    let infinity: [char; 8] = ['i', 'n', 'f', 'i', 'n', 'i', 't', 'y'];
    let nan: [char; 3] = ['n', 'a', 'n'];
    assert(inf@ == seq!['i', 'n', 'f']);
    assert(infinity@ == seq!['i', 'n', 'f', 'i', 'n', 'i', 't', 'y']);
    assert(nan@ == seq!['n', 'a', 'n']);
    if chars_equal(&body, inf.as_slice()) || chars_equal(&body, infinity.as_slice()) {
        return Some(
            if negative {
                QValue::NotPositive
            } else {
                QValue::Infinite
            },
        );
    }
    if chars_equal(&body, nan.as_slice()) {
        return Some(QValue::NotPositive);
    }
    let ep = split_chars(&body, 'e');
    proof {
        crate::text::lemma_split_nonempty(body@, 'e');
    }
    if ep.len() > 2 {
        return None;
    }
    assert(ep@[0]@ == split_spec(body@, 'e')[0]);
    let mp = split_chars(&ep[0], '.');
    proof {
        crate::text::lemma_split_nonempty(ep@[0]@, '.');
    }
    if mp.len() > 2 {
        return None;
    }
    assert(mp@[0]@ == split_spec(ep@[0]@, '.')[0]);
    let ip = &mp[0];
    let empty: Vec<char> = Vec::new();
    let fp = if mp.len() == 2 {
        assert(mp@[1]@ == split_spec(ep@[0]@, '.')[1]);
        &mp[1]
    } else {
        &empty
    };
    if !all_digits(ip) || !all_digits(fp) || ip.len() == 0 && fp.len() == 0 {
        return None;
    }
    let e: i128 = if ep.len() == 2 {
        assert(ep@[1]@ == split_spec(body@, 'e')[1]);
        match parse_exponent(&ep[1]) {
            Some(e) => e,
            None => {
                return None;
            },
        }
    } else {
        0
    };
    if negative {
        return Some(QValue::NotPositive);
    }
    let mut all: Vec<char> = Vec::new();
    let mut k: usize = 0;
    while k < ip.len()
        invariant
            k <= ip.len(),
            all@ == ip@.take(k as int),
        decreases ip.len() - k,
    {
        all.push(ip[k]);
        k = k + 1;
        assert(all@ =~= ip@.take(k as int));
    }
    assert(ip@.take(ip@.len() as int) =~= ip@);
    let mut k: usize = 0;
    while k < fp.len()
        invariant
            k <= fp.len(),
            all@ == ip@ + fp@.take(k as int),
        decreases fp.len() - k,
    {
        all.push(fp[k]);
        k = k + 1;
        assert(all@ =~= ip@ + fp@.take(k as int));
    }
    assert(fp@.take(fp@.len() as int) =~= fp@);
    assert(all@ == ip@ + fp@);
    let lz = count_leading_zeros(&all);
    if lz == all.len() {
        return Some(QValue::NotPositive);
    }
    let ex: i128 = ip.len() as i128 - lz as i128 + e;
    if ex > QEXP_LIMIT as i128 {
        return Some(QValue::Infinite);
    }
    if ex < -(QEXP_LIMIT as i128) {
        return Some(QValue::NotPositive);
    }
    let tz = count_trailing_zeros(&all);
    proof {
        lemma_zeros_apart(all@);
    }
    let d = chars_slice(&all, lz, all.len() - tz);
    Some(QValue::Positive(d, ex as i64))
}

/// The first digit after the leading zeros is not a zero.
proof fn lemma_leading_zeros_stop(s: Seq<char>)
    requires
        leading_zeros(s) < s.len(),
    ensures
        s[leading_zeros(s) as int] != '0',
    decreases s.len(),
{
    if s[0] == '0' {
        assert(s.drop_first()[leading_zeros(s.drop_first()) as int] == s[leading_zeros(s) as int]);
        lemma_leading_zeros_stop(s.drop_first());
    }
}

proof fn lemma_leading_zeros_drop_last(s: Seq<char>)
    requires
        leading_zeros(s) + 1 < s.len(),
    ensures
        leading_zeros(s.drop_last()) == leading_zeros(s),
    decreases s.len(),
{
    assert(s.drop_last()[0] == s[0]);
    if s[0] == '0' {
        assert(s.drop_first().drop_last() =~= s.drop_last().drop_first());
        lemma_leading_zeros_drop_last(s.drop_first());
    }
}

/// Where some digit is not zero, the leading and trailing zeros do not
/// overlap.
proof fn lemma_zeros_apart(s: Seq<char>)
    requires
        leading_zeros(s) < s.len(),
    ensures
        leading_zeros(s) + trailing_zeros(s) < s.len(),
    decreases s.len(),
{
    if s.last() == '0' {
        lemma_leading_zeros_stop(s);
        assert(leading_zeros(s) + 1 < s.len());
        lemma_leading_zeros_drop_last(s);
        lemma_zeros_apart(s.drop_last());
    }
}

/// The q-value that the parameters of one coding set: the last `q=` whose
/// value reads, else one.
pub open spec fn params_q(params: Seq<Seq<char>>) -> QVal
    decreases params.len(),
{
    if params.len() == 0 {
        q_one()
    } else {
        let p = trim_spec(params.last());
        let v = spec_qvalue(p.subrange(2, p.len() as int));
        if has_prefix(p, q_prefix()) && v is Some {
            v->0
        } else {
            params_q(params.drop_last())
        }
    }
}

/// One element of the list: its coding name and its q-value.
pub open spec fn spec_encoding_part(part: Seq<char>) -> (Seq<char>, QVal) {
    let parts = split_spec(part, ';');
    (trim_spec(parts[0]), params_q(parts.drop_first()))
}

/// The best q-values seen for gzip, deflate and `*`, each starting at zero
/// and raised by any element that names it with a higher value.
pub open spec fn encoding_qs(parts: Seq<Seq<char>>) -> (QVal, QVal, QVal)
    decreases parts.len(),
{
    if parts.len() == 0 {
        (QVal::NotPositive, QVal::NotPositive, QVal::NotPositive)
    } else {
        let (g, d, w) = encoding_qs(parts.drop_last());
        let (enc, q) = spec_encoding_part(trim_spec(parts.last()));
        if enc == gzip_name() || enc == x_gzip_name() {
            if q_gt(q, g) {
                (q, d, w)
            } else {
                (g, d, w)
            }
        } else if enc == deflate_name() {
            if q_gt(q, d) {
                (g, q, w)
            } else {
                (g, d, w)
            }
        } else if enc == wildcard_name() {
            if q_gt(q, w) {
                (g, d, q)
            } else {
                (g, d, w)
            }
        } else {
            (g, d, w)
        }
    }
}

/// The coding chosen for an already lowercased header: gzip when acceptable
/// and at least as wanted as deflate, then deflate, then gzip for `*`.
pub open spec fn spec_select_encoding(lower: Seq<char>) -> CompressionType {
    let (g, d, w) = encoding_qs(split_spec(lower, ','));
    if q_positive(g) && !q_gt(d, g) {
        CompressionType::Gzip
    } else if q_positive(d) {
        CompressionType::Deflate
    } else if q_positive(w) {
        CompressionType::Gzip
    } else {
        CompressionType::Identity
    }
}

/// Splits one element of the list into its coding name and q-value.
pub fn parse_encoding_part(part: &[char]) -> (r: (Vec<char>, QValue))
    ensures
        (r.0@, r.1@) == spec_encoding_part(part@),
{
    let parts = split_chars(part, ';');
    proof {
        crate::text::lemma_split_nonempty(part@, ';');
    }
    let ghost ps = deep_chars(parts@);
    assert(parts@[0]@ == ps[0]);
    let encoding = trim_chars(&parts[0]);
    let qp: [char; 2] = ['q', '='];
    assert(qp@ == q_prefix());
    let one: Vec<char> = vec!['1'];
    assert(one@ =~= seq!['1']);
    let mut q = QValue::Positive(one, 1);
    assert(q@ == q_one());
    let mut i: usize = 1;
    assert(ps.subrange(1, 1) =~= Seq::<Seq<char>>::empty());
    while i < parts.len()
        invariant
            1 <= i <= parts.len(),
            ps == deep_chars(parts@),
            ps == split_spec(part@, ';'),
            qp@ == q_prefix(),
            q@ == params_q(ps.subrange(1, i as int)),
        decreases parts.len() - i,
    {
        let p = trim_chars(&parts[i]);
        assert(parts@[i as int]@ == ps[i as int]);
        assert(ps.subrange(1, i + 1).drop_last() == ps.subrange(1, i as int));
        assert(ps.subrange(1, i + 1).last() == ps[i as int]);
        if chars_start_with(&p, qp.as_slice()) {
            let rest = chars_slice(&p, 2, p.len());
            match parse_qvalue(&rest) {
                Some(v) => {
                    q = v;
                },
                None => {},
            }
        }
        i = i + 1;
    }
    assert(ps.subrange(1, ps.len() as int) == ps.drop_first());
    (encoding, q)
}

/// Chooses the coding for an `Accept-Encoding` value that is already
/// lowercased.
pub fn select_encoding(lower: &[char]) -> (r: CompressionType)
    ensures
        r == spec_select_encoding(lower@),
{
    let parts = split_chars(lower, ',');
    let ghost ps = deep_chars(parts@);
    let gz: [char; 4] = ['g', 'z', 'i', 'p'];
    let xgz: [char; 6] = ['x', '-', 'g', 'z', 'i', 'p'];
    let df: [char; 7] = ['d', 'e', 'f', 'l', 'a', 't', 'e'];
    let star: [char; 1] = ['*'];
    assert(gz@ == gzip_name());
    assert(xgz@ == x_gzip_name());
    assert(df@ == deflate_name());
    assert(star@ == wildcard_name());
    let mut g = QValue::NotPositive;
    let mut d = QValue::NotPositive;
    let mut w = QValue::NotPositive;
    let mut i: usize = 0;
    assert(ps.take(0) =~= Seq::<Seq<char>>::empty());
    while i < parts.len()
        invariant
            i <= parts.len(),
            ps == deep_chars(parts@),
            ps == split_spec(lower@, ','),
            gz@ == gzip_name(),
            xgz@ == x_gzip_name(),
            df@ == deflate_name(),
            star@ == wildcard_name(),
            (g@, d@, w@) == encoding_qs(ps.take(i as int)),
        decreases parts.len() - i,
    {
        assert(parts@[i as int]@ == ps[i as int]);
        assert(ps.take(i + 1).drop_last() == ps.take(i as int));
        assert(ps.take(i + 1).last() == ps[i as int]);
        let part = trim_chars(&parts[i]);
        let (enc, q) = parse_encoding_part(&part);
        if chars_equal(&enc, gz.as_slice()) || chars_equal(&enc, xgz.as_slice()) {
            if qvalue_gt(&q, &g) {
                g = q;
            }
        } else if chars_equal(&enc, df.as_slice()) {
            if qvalue_gt(&q, &d) {
                d = q;
            }
        } else if chars_equal(&enc, star.as_slice()) {
            if qvalue_gt(&q, &w) {
                w = q;
            }
        }
        i = i + 1;
    }
    assert(ps.take(ps.len() as int) == ps);
    let g_pos = match g {
        QValue::NotPositive => false,
        _ => true,
    };
    let d_pos = match d {
        QValue::NotPositive => false,
        _ => true,
    };
    let w_pos = match w {
        QValue::NotPositive => false,
        _ => true,
    };
    if g_pos && !qvalue_gt(&d, &g) {
        CompressionType::Gzip
    } else if d_pos {
        CompressionType::Deflate
    } else if w_pos {
        CompressionType::Gzip
    } else {
        CompressionType::Identity
    }
}

/// The coding to answer an `Accept-Encoding` header with. The header is read
/// as UTF-8 (invalid sequences replaced) and lowercased first.
pub fn parse_accept_encoding(header: &[u8]) -> (r: CompressionType)
    ensures
        r == spec_select_encoding(lowercase(utf8_lossy(header@))),
{
    let text = decode_utf8_lossy(header);
    let lower = to_lowercase(text.as_str());
    let cs = chars_of(lower.as_str());
    select_encoding(&cs)
}

/// Whether a lowercased media type is text-like: `text/*`, anything naming
/// JSON, XML or JavaScript, and `application/wasm`. Everything else, already
/// compressed images, audio, video and archives among it, is not.
pub open spec fn spec_should_compress(lower: Seq<char>) -> bool {
    ||| has_prefix(lower, seq!['t', 'e', 'x', 't', '/'])
    ||| contains_seq(lower, seq!['j', 's', 'o', 'n'])
    ||| contains_seq(lower, seq!['x', 'm', 'l'])
    ||| contains_seq(lower, seq!['j', 'a', 'v', 'a', 's', 'c', 'r', 'i', 'p', 't'])
    ||| lower == seq!['a', 'p', 'p', 'l', 'i', 'c', 'a', 't', 'i', 'o', 'n', '/', 'w', 'a', 's', 'm']
}

/// Whether a lowercased media type is worth compressing.
pub fn should_compress_lowercase(lower: &[char]) -> (r: bool)
    ensures
        r == spec_should_compress(lower@),
{
    let text: [char; 5] = ['t', 'e', 'x', 't', '/'];
    let json: [char; 4] = ['j', 's', 'o', 'n'];
    let xml: [char; 3] = ['x', 'm', 'l'];
    let js: [char; 10] = ['j', 'a', 'v', 'a', 's', 'c', 'r', 'i', 'p', 't'];
    let wasm: [char; 16] = ['a', 'p', 'p', 'l', 'i', 'c', 'a', 't', 'i', 'o', 'n', '/', 'w', 'a', 's', 'm'];
    assert(text@ == seq!['t', 'e', 'x', 't', '/']);
    assert(json@ == seq!['j', 's', 'o', 'n']);
    assert(xml@ == seq!['x', 'm', 'l']);
    assert(js@ == seq!['j', 'a', 'v', 'a', 's', 'c', 'r', 'i', 'p', 't']);
    assert(wasm@ == seq!['a', 'p', 'p', 'l', 'i', 'c', 'a', 't', 'i', 'o', 'n', '/', 'w', 'a', 's', 'm']);
    chars_start_with(lower, text.as_slice()) || chars_contain(lower, json.as_slice())
        || chars_contain(lower, xml.as_slice()) || chars_contain(lower, js.as_slice())
        || chars_equal(lower, wasm.as_slice())
}

/// Whether a response of the given media type is worth compressing; the type
/// is lowercased first.
pub fn should_compress(mime_type: &str) -> (r: bool)
    ensures
        r == spec_should_compress(lowercase(mime_type@)),
{
    let lower = to_lowercase(mime_type);
    let cs = chars_of(lower.as_str());
    should_compress_lowercase(&cs)
}

#[verifier::external_type_specification]
#[verifier::external_body]
pub struct ExIoError(std::io::Error);

/// What flate2's gzip encoder at `Compression::fast()` writes for `data`.
pub uninterp spec fn gzip_fast(data: Seq<u8>) -> Seq<u8>;

/// What flate2's raw deflate encoder at `Compression::fast()` writes for `data`.
pub uninterp spec fn deflate_fast(data: Seq<u8>) -> Seq<u8>;

/// The ten-byte gzip member header flate2 writes with default builder
/// settings at the fastest level: magic `1f 8b`, method 8 (deflate), no
/// flags, zero modification time, extra flag 4 (fastest), OS 255.
pub open spec fn gzip_fast_header() -> Seq<u8> {
    seq![0x1fu8, 0x8bu8, 8u8, 0u8, 0u8, 0u8, 0u8, 0u8, 4u8, 255u8]
}

/// Compresses `data` into a gzip stream with flate2's `GzEncoder` at
/// `Compression::fast()`, writing into a `Vec`. Trusted: it succeeds (a
/// `Vec` takes every write, and the rust backend reports a compression
/// error only for a stream driven on after an error or finished twice,
/// which the encoder does not do), and the stream is flate2's output for
/// `data`; it opens with the ten header bytes flate2 writes for these
/// settings and ends with the eight-byte CRC and length trailer.
#[verifier::external_body]
pub fn gzip_compress(data: &[u8]) -> (r: Result<Vec<u8>, std::io::Error>)
    ensures
        r is Ok,
        r matches Ok(v) ==> v@ == gzip_fast(data@) && v@.len() >= 18 && v@.subrange(0, 10)
            == gzip_fast_header(),
{
    let mut encoder = flate2::write::GzEncoder::new(Vec::new(), flate2::Compression::fast());
    encoder.write_all(data)?;
    encoder.finish()
}

/// Compresses `data` into a raw deflate stream with flate2's
/// `DeflateEncoder` at `Compression::fast()`, writing into a `Vec`.
/// Trusted: it succeeds (for the reasons given for `gzip_compress`), and
/// the stream is flate2's output for `data`.
#[verifier::external_body]
pub fn deflate_compress(data: &[u8]) -> (r: Result<Vec<u8>, std::io::Error>)
    ensures
        r is Ok,
        r matches Ok(v) ==> v@ == deflate_fast(data@),
{
    let mut encoder = flate2::write::DeflateEncoder::new(Vec::new(), flate2::Compression::fast());
    encoder.write_all(data)?;
    encoder.finish()
}

/// Gzip preference on a tie: when gzip and deflate are equally wanted, and
/// wanted at all, gzip is chosen.
pub proof fn lemma_gzip_wins_tie(lower: Seq<char>)
    requires
        q_positive(encoding_qs(split_spec(lower, ',')).0),
        encoding_qs(split_spec(lower, ',')).0 == encoding_qs(split_spec(lower, ',')).1,
    ensures
        spec_select_encoding(lower) == CompressionType::Gzip,
{
    let g = encoding_qs(split_spec(lower, ',')).0;
    if let QVal::Positive(dg, eg) = g {
        lemma_digits_gt_irreflexive(dg);
    }
}

/// Nothing is chosen unless gzip, deflate or `*` has a positive q-value.
pub proof fn lemma_none_without_acceptable_coding(lower: Seq<char>)
    ensures
        spec_select_encoding(lower) == CompressionType::Identity <==> ({
            let (g, d, w) = encoding_qs(split_spec(lower, ','));
            !q_positive(g) && !q_positive(d) && !q_positive(w)
        }),
{
}

} // verus!
