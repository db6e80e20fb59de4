//! Query strings as scripts see them: percent-encoding with `+` for space,
//! parsing into ordered pairs and writing them back; and calendar dates.

use vstd::prelude::*;
use vstd::utf8::encode_utf8;
use vstd::string::StringSliceAdditionalSpecFns;
use crate::text::{
    split_spec, deep_chars, spec_find, contains_seq, occurs_at, first_occurrence, chars_of,
    string_from_chars, chars_slice, split_chars, find_chars, chars_contain, lemma_split_no_sep,
    lemma_find_is_first,
};
use crate::router::{spec_hex_byte, hex_byte};

verus! {

broadcast use vstd::string::group_string_axioms;

// ---------------------------------------------------------------------------
// Encoding.

/// Characters left as they are: letters, digits, `-`, `_`, `.`, `~`.
pub open spec fn is_unreserved(c: char) -> bool {
    let n = c as u32;
    ||| 65 <= n <= 90
    ||| 97 <= n <= 122
    ||| 48 <= n <= 57
    ||| n == 45
    ||| n == 95
    ||| n == 46
    ||| n == 126
}

/// An uppercase hexadecimal digit.
pub open spec fn hex_upper(d: nat) -> char {
    if d < 10 {
        ((48 + d) as u32) as char
    } else {
        ((55 + d) as u32) as char
    }
}

/// How one character is written: itself, `+` for a space, else `%XX` of
/// the low byte of its number.
pub open spec fn encode_char(c: char) -> Seq<char> {
    if is_unreserved(c) {
        seq![c]
    } else if c == ' ' {
        seq!['+']
    } else {
        let b = ((c as u32) % 256) as nat;
        seq!['%', hex_upper(b / 16), hex_upper(b % 16)]
    }
}

pub open spec fn spec_url_encode(s: Seq<char>) -> Seq<char>
    decreases s.len(),
{
    if s.len() == 0 {
        Seq::empty()
    } else {
        encode_char(s[0]) + spec_url_encode(s.drop_first())
    }
}

fn hex_upper_char(d: u8) -> (c: char)
    requires
        d < 16,
    ensures
        c == hex_upper(d as nat),
{
    if d < 10 {
        (48 + d) as char
    } else {
        (55 + d) as char
    }
}

fn is_unreserved_char(c: char) -> (r: bool)
    ensures
        r == is_unreserved(c),
{
    let n = c as u32;
    (65 <= n && n <= 90) || (97 <= n && n <= 122) || (48 <= n && n <= 57) || n == 45 || n == 95
        || n == 46 || n == 126
}

/// Percent-encodes a query component: unreserved characters stay, a space
/// becomes `+`, anything else becomes `%XX` of its low byte.
pub fn url_encode(s: &str) -> (r: String)
    ensures
        r@ == spec_url_encode(s@),
{
    let cs = chars_of(s);
    let mut out: Vec<char> = Vec::new();
    let mut i: usize = 0;
    assert(cs@.subrange(0, cs@.len() as int) == cs@);
    while i < cs.len()
        invariant
            i <= cs.len(),
            cs@ == s@,
            out@ + spec_url_encode(cs@.subrange(i as int, cs@.len() as int)) == spec_url_encode(s@),
        decreases cs.len() - i,
    {
        let ghost t = cs@.subrange(i as int, cs@.len() as int);
        let ghost before = out@;
        let c = cs[i];
        assert(t[0] == c);
        assert(t.drop_first() == cs@.subrange(i + 1, cs@.len() as int));
        if is_unreserved_char(c) {
            out.push(c);
        } else if c == ' ' {
            out.push('+');
        } else {
            let b: u8 = ((c as u32) % 256) as u8;
            out.push('%');
            out.push(hex_upper_char(b / 16));
            out.push(hex_upper_char(b % 16));
        }
        assert(out@ =~= before + encode_char(c));
        assert(out@ + spec_url_encode(t.drop_first()) =~= before + spec_url_encode(t));
        i = i + 1;
    }
    assert(cs@.subrange(i as int, cs@.len() as int) =~= Seq::<char>::empty());
    assert(out@ + Seq::<char>::empty() == out@);
    string_from_chars(&out)
}

// ---------------------------------------------------------------------------
// Decoding.

/// Why a query component does not decode.
#[derive(Debug, Clone, Copy, PartialEq, Eq, Structural)]
pub enum UrlDecodeError {
    /// `%` not followed by two bytes.
    InvalidPercentEncoding,
    /// `%` followed by two bytes that are not a hexadecimal number.
    InvalidHex,
}

impl UrlDecodeError {
    /// The message of the error.
    pub fn message(&self) -> (r: &'static str)
        ensures
            r@ == match self {
                UrlDecodeError::InvalidPercentEncoding => "Invalid percent encoding"@,
                UrlDecodeError::InvalidHex => "Invalid hex"@,
            },
    {
        match self {
            UrlDecodeError::InvalidPercentEncoding => "Invalid percent encoding",
            UrlDecodeError::InvalidHex => "Invalid hex",
        }
    }
}

/// Decoding a query component: `+` is a space; `%` takes the next two
/// characters, which must be two bytes of UTF-8 and read as a hexadecimal
/// byte, which stands as the character of that number.
pub open spec fn spec_lua_url_decode(s: Seq<char>) -> Result<Seq<char>, UrlDecodeError>
    decreases s.len(),
{
    if s.len() == 0 {
        Ok(Seq::empty())
    } else if s[0] == '%' {
        let e = if s.len() >= 3 {
            3
        } else {
            s.len() as int
        };
        let hex = s.subrange(1, e);
        if encode_utf8(hex).len() != 2 {
            Err(UrlDecodeError::InvalidPercentEncoding)
        } else {
            match spec_hex_byte(hex) {
                None => Err(UrlDecodeError::InvalidHex),
                Some(b) => match spec_lua_url_decode(s.subrange(e, s.len() as int)) {
                    Ok(rest) => Ok(seq![b as char] + rest),
                    Err(x) => Err(x),
                },
            }
        }
    } else {
        let c = if s[0] == '+' {
            ' '
        } else {
            s[0]
        };
        match spec_lua_url_decode(s.drop_first()) {
            Ok(rest) => Ok(seq![c] + rest),
            Err(x) => Err(x),
        }
    }
}

proof fn lemma_short_utf8_len(s: Seq<char>)
    requires
        s.len() <= 2,
    ensures
        encode_utf8(s).len() <= 8,
{
    reveal_with_fuel(encode_utf8, 3);
    if s.len() > 0 {
        assert(s.drop_first().len() <= 1);
        if s.len() > 1 {
            assert(s.drop_first().drop_first().len() == 0);
        }
    }
}

pub open spec fn decoded_view(r: Result<String, UrlDecodeError>) -> Result<Seq<char>, UrlDecodeError> {
    match r {
        Ok(s) => Ok(s@),
        Err(e) => Err(e),
    }
}

/// Decodes a query component.
pub fn url_decode(s: &str) -> (r: Result<String, UrlDecodeError>)
    ensures
        decoded_view(r) == spec_lua_url_decode(s@),
{
    let cs = chars_of(s);
    let mut out: Vec<char> = Vec::new();
    let mut i: usize = 0;
    assert(cs@.subrange(0, cs@.len() as int) == cs@);
    while i < cs.len()
        invariant
            i <= cs.len(),
            cs@ == s@,
            spec_lua_url_decode(s@) == match spec_lua_url_decode(
                cs@.subrange(i as int, cs@.len() as int),
            ) {
                Ok(rest) => Ok(out@ + rest),
                Err(x) => Err(x),
            },
        decreases cs.len() - i,
    {
        let ghost t = cs@.subrange(i as int, cs@.len() as int);
        let ghost before = out@;
        assert(t[0] == cs@[i as int]);
        if cs[i] == '%' {
            let e: usize = if cs.len() - i >= 3 { i + 3 } else { cs.len() };
            let hex = chars_slice(&cs, i + 1, e);
            assert(hex@ == t.subrange(1, e - i));
            assert(cs@.subrange(e as int, cs@.len() as int) == t.subrange(e - i, t.len() as int));
            let hs = string_from_chars(&hex);
            let hstr = hs.as_str();
            assert(hstr@ == hex@);
            proof {
                lemma_short_utf8_len(hex@);
            }
            let blen = hstr.len();
            assert(hstr.spec_bytes() == encode_utf8(hstr@));
            assert(blen == encode_utf8(hex@).len());
            if blen != 2 {
                assert(spec_lua_url_decode(t) == Err::<Seq<char>, UrlDecodeError>(
                    UrlDecodeError::InvalidPercentEncoding,
                ));
                return Err(UrlDecodeError::InvalidPercentEncoding);
            }
            match hex_byte(&hex) {
                None => {
                    assert(spec_lua_url_decode(t) == Err::<Seq<char>, UrlDecodeError>(
                        UrlDecodeError::InvalidHex,
                    ));
                    return Err(UrlDecodeError::InvalidHex);
                },
                Some(b) => {
                    out.push(b as char);
                    assert forall|rest: Seq<char>| #![auto] before + (seq![b as char] + rest) == out@
                        + rest by {
                        assert(before + (seq![b as char] + rest) =~= out@ + rest);
                    }
                },
            }
            i = e;
        } else {
            let c = if cs[i] == '+' { ' ' } else { cs[i] };
            out.push(c);
            assert(t.drop_first() == cs@.subrange(i + 1, cs@.len() as int));
            assert forall|rest: Seq<char>| #![auto] before + (seq![c] + rest) == out@ + rest by {
                assert(before + (seq![c] + rest) =~= out@ + rest);
            }
            i = i + 1;
        }
    }
    assert(cs@.subrange(i as int, cs@.len() as int) =~= Seq::<char>::empty());
    assert(out@ + Seq::<char>::empty() == out@);
    Ok(string_from_chars(&out))
}

// ---------------------------------------------------------------------------
// Query strings.

/// A pair split at its first `=`; without one, the whole pair and nothing.
pub open spec fn split_pair(pair: Seq<char>) -> (Seq<char>, Seq<char>) {
    match spec_find(pair, seq!['=']) {
        Some(i) => (pair.take(i), pair.subrange(i + 1, pair.len() as int)),
        None => (pair, Seq::empty()),
    }
}

/// One `&`-separated element of a query: dropped when empty, when its key
/// does not decode or decodes to nothing, or when its value does not
/// decode; a key without `=` has the empty value.
pub open spec fn spec_query_pair(pair: Seq<char>) -> Option<(Seq<char>, Seq<char>)> {
    if pair.len() == 0 {
        None
    } else {
        let (k, v) = split_pair(pair);
        match spec_lua_url_decode(k) {
            Err(_) => None,
            Ok(key) => if key.len() == 0 {
                None
            } else {
                let value = if v.len() == 0 && !contains_seq(pair, seq!['=']) {
                    Ok(Seq::<char>::empty())
                } else {
                    spec_lua_url_decode(v)
                };
                match value {
                    Ok(val) => Some((key, val)),
                    Err(_) => None,
                }
            },
        }
    }
}

/// The pairs of the elements that give one, in order.
pub open spec fn query_pairs(parts: Seq<Seq<char>>) -> Seq<(Seq<char>, Seq<char>)>
    decreases parts.len(),
{
    if parts.len() == 0 {
        Seq::empty()
    } else {
        query_pairs(parts.drop_last()) + match spec_query_pair(parts.last()) {
            Some(p) => seq![p],
            None => Seq::empty(),
        }
    }
}

/// The key/value pairs of a query string, in order, duplicates kept.
pub open spec fn spec_parse_query(q: Seq<char>) -> Seq<(Seq<char>, Seq<char>)> {
    if q.len() == 0 {
        Seq::empty()
    } else {
        query_pairs(split_spec(q, '&'))
    }
}

pub open spec fn pairs_view(v: Seq<(String, String)>) -> Seq<(Seq<char>, Seq<char>)> {
    v.map_values(|p: (String, String)| (p.0@, p.1@))
}

fn parse_query_pair(pair: &[char]) -> (r: Option<(String, String)>)
    ensures
        match r {
            Some(p) => spec_query_pair(pair@) == Some((p.0@, p.1@)),
            None => spec_query_pair(pair@) is None,
        },
{
    if pair.len() == 0 {
        return None;
    }
    let eq: [char; 1] = ['='];
    assert(eq@ == seq!['=']);
    let (k, v) = match find_chars(pair, eq.as_slice()) {
        Some(i) => (chars_slice(pair, 0, i), chars_slice(pair, i + 1, pair.len())),
        None => (chars_slice(pair, 0, pair.len()), Vec::new()),
    };
    assert((k@, v@) == split_pair(pair@));
    let ks = string_from_chars(&k);
    let key = match url_decode(ks.as_str()) {
        Ok(key) => key,
        Err(_) => {
            return None;
        },
    };
    if key.as_str().is_empty() {
        return None;
    }
    if v.len() == 0 && !chars_contain(pair, eq.as_slice()) {
        return Some((key, String::new()));
    }
    let vs = string_from_chars(&v);
    match url_decode(vs.as_str()) {
        Ok(value) => Some((key, value)),
        Err(_) => None,
    }
}

/// Parses a query string into its key/value pairs, in order.
pub fn parse_query(query: &str) -> (r: Vec<(String, String)>)
    ensures
        pairs_view(r@) == spec_parse_query(query@),
{
    let cs = chars_of(query);
    let mut out: Vec<(String, String)> = Vec::new();
    if cs.len() == 0 {
        assert(pairs_view(out@) =~= Seq::<(Seq<char>, Seq<char>)>::empty());
        return out;
    }
    let parts = split_chars(&cs, '&');
    let ghost ps = deep_chars(parts@);
    let mut i: usize = 0;
    assert(ps.take(0) =~= Seq::<Seq<char>>::empty());
    assert(pairs_view(out@) =~= Seq::<(Seq<char>, Seq<char>)>::empty());
    while i < parts.len()
        invariant
            i <= parts.len(),
            ps == deep_chars(parts@),
            ps == split_spec(query@, '&'),
            pairs_view(out@) == query_pairs(ps.take(i as int)),
        decreases parts.len() - i,
    {
        assert(parts@[i as int]@ == ps[i as int]);
        assert(ps.take(i + 1).drop_last() == ps.take(i as int));
        assert(ps.take(i + 1).last() == ps[i as int]);
        let ghost before = pairs_view(out@);
        match parse_query_pair(&parts[i]) {
            Some(p) => {
                out.push(p);
                assert(pairs_view(out@) =~= before + seq![(out@.last().0@, out@.last().1@)]);
            },
            None => {
                assert(before + Seq::<(Seq<char>, Seq<char>)>::empty() == before);
            },
        }
        i = i + 1;
    }
    assert(ps.take(ps.len() as int) == ps);
    out
}

/// How one pair is written: the encoded key, then `=` and the encoded value
/// unless the value is empty.
pub open spec fn arg_text(k: Seq<char>, v: Seq<char>) -> Seq<char> {
    if v.len() == 0 {
        spec_url_encode(k)
    } else {
        spec_url_encode(k) + seq!['='] + spec_url_encode(v)
    }
}

/// The pairs written out and joined with `&`.
pub open spec fn spec_to_query(args: Seq<(Seq<char>, Seq<char>)>) -> Seq<char>
    decreases args.len(),
{
    if args.len() == 0 {
        Seq::empty()
    } else if args.len() == 1 {
        arg_text(args[0].0, args[0].1)
    } else {
        spec_to_query(args.drop_last()) + seq!['&'] + arg_text(args.last().0, args.last().1)
    }
}

/// Query arguments: ordered pairs, duplicate keys kept.
#[derive(Debug, Clone)]
pub struct UriArgs(pub Vec<(String, String)>);

impl View for UriArgs {
    type V = Seq<(Seq<char>, Seq<char>)>;

    open spec fn view(&self) -> Seq<(Seq<char>, Seq<char>)> {
        pairs_view(self.0@)
    }
}

impl UriArgs {
    /// No arguments.
    pub fn new() -> (r: Self)
        ensures
            r@ == Seq::<(Seq<char>, Seq<char>)>::empty(),
    {
        let r = UriArgs(Vec::new());
        assert(r@ =~= Seq::<(Seq<char>, Seq<char>)>::empty());
        r
    }

    /// The arguments of a query string.
    pub fn from_query(query: &str) -> (r: Self)
        ensures
            r@ == spec_parse_query(query@),
    {
        UriArgs(parse_query(query))
    }

    /// The arguments written as a query string.
    pub fn to_query(&self) -> (r: String)
        ensures
            r@ == spec_to_query(self@),
    {
        let ghost args = self@;
        let mut out: Vec<char> = Vec::new();
        let mut i: usize = 0;
        assert(args.take(0) =~= Seq::<(Seq<char>, Seq<char>)>::empty());
        while i < self.0.len()
            invariant
                i <= self.0.len(),
                args == self@,
                out@ == spec_to_query(args.take(i as int)),
            decreases self.0.len() - i,
        {
            let ghost before = out@;
            assert(args.take(i + 1).drop_last() == args.take(i as int));
            assert(args.take(i + 1).last() == args[i as int]);
            assert(args[i as int] == (self.0@[i as int].0@, self.0@[i as int].1@));
            if i > 0 {
                out.push('&');
            }
            let k = url_encode(self.0[i].0.as_str());
            let kc = chars_of(k.as_str());
            append_chars(&mut out, &kc);
            let vchars = chars_of(self.0[i].1.as_str());
            if vchars.len() > 0 {
                out.push('=');
                let v = url_encode(self.0[i].1.as_str());
                let vc = chars_of(v.as_str());
                append_chars(&mut out, &vc);
            }
            if i == 0 {
                assert(args.take(1) =~= seq![args[0]]);
            }
            assert(out@ =~= spec_to_query(args.take(i + 1)));
            i = i + 1;
        }
        assert(args.take(args.len() as int) == args);
        string_from_chars(&out)
    }
}

fn append_chars(out: &mut Vec<char>, s: &[char])
    ensures
        final(out)@ == old(out)@ + s@,
{
    let ghost start = out@;
    let mut i: usize = 0;
    while i < s.len()
        invariant
            i <= s.len(),
            out@ == start + s@.take(i as int),
        decreases s.len() - i,
    {
        out.push(s[i]);
        i = i + 1;
        assert(out@ =~= start + s@.take(i as int));
    }
    assert(s@.take(s.len() as int) == s@);
}

// ---------------------------------------------------------------------------
// What decoding gives back of encoding.

/// Every character is below 256, so that its low byte is the character.
pub open spec fn latin1(s: Seq<char>) -> bool {
    forall|i: int| 0 <= i < s.len() ==> (#[trigger] s[i] as u32) < 256
}

/// No `&` and no `=`.
pub open spec fn no_separators(s: Seq<char>) -> bool {
    forall|i: int| 0 <= i < s.len() ==> #[trigger] s[i] != '&' && s[i] != '='
}

proof fn lemma_hex_upper_digit(d: nat)
    requires
        d < 16,
    ensures
        hex_digit_of_spec(hex_upper(d)) == Some(d),
        hex_upper(d) != '+',
        hex_upper(d) != '&',
        hex_upper(d) != '=',
        (hex_upper(d) as u32) < 128,
{
}

pub open spec fn hex_digit_of_spec(c: char) -> Option<nat> {
    crate::router::hex_digit(c)
}

proof fn lemma_encode_char_safe(c: char)
    ensures
        no_separators(encode_char(c)),
        encode_char(c).len() > 0,
{
    if !is_unreserved(c) && c != ' ' {
        let b = ((c as u32) % 256) as nat;
        lemma_hex_upper_digit(b / 16);
        lemma_hex_upper_digit(b % 16);
    }
}

/// Encoded text has no `&` or `=`, and is empty only for empty text.
pub proof fn lemma_encode_safe(s: Seq<char>)
    ensures
        no_separators(spec_url_encode(s)),
        spec_url_encode(s).len() == 0 <==> s.len() == 0,
    decreases s.len(),
{
    if s.len() > 0 {
        lemma_encode_char_safe(s[0]);
        lemma_encode_safe(s.drop_first());
        let a = encode_char(s[0]);
        let b = spec_url_encode(s.drop_first());
        assert forall|i: int| 0 <= i < (a + b).len() implies #[trigger] (a + b)[i] != '&' && (a
            + b)[i] != '=' by {
            if i < a.len() {
                assert((a + b)[i] == a[i]);
            } else {
                assert((a + b)[i] == b[i - a.len()]);
            }
        }
    }
}

proof fn lemma_decode_encode_char(c: char, t: Seq<char>)
    requires
        (c as u32) < 256,
    ensures
        spec_lua_url_decode(encode_char(c) + t) == match spec_lua_url_decode(t) {
            Ok(r) => Ok(seq![c] + r),
            Err(x) => Err(x),
        },
{
    let x = encode_char(c) + t;
    if is_unreserved(c) {
        assert(x[0] == c);
        assert(x.drop_first() =~= t);
    } else if c == ' ' {
        assert(x[0] == '+');
        assert(x.drop_first() =~= t);
    } else {
        let b = ((c as u32) % 256) as nat;
        let h1 = hex_upper(b / 16);
        let h2 = hex_upper(b % 16);
        lemma_hex_upper_digit(b / 16);
        lemma_hex_upper_digit(b % 16);
        assert(x[0] == '%');
        let hex = x.subrange(1, 3);
        assert(hex =~= seq![h1, h2]);
        assert(vstd::utf8::is_ascii_chars(hex));
        vstd::utf8::is_ascii_chars_encode_utf8(hex);
        assert(spec_hex_byte(hex) == Some(b as u8));
        assert(((b as u8) as char) == c) by {
            assert(b == c as u32);
        }
        assert(x.subrange(3, x.len() as int) =~= t);
    }
}

/// Decoding gives back what encoding was given, for text whose characters
/// are all below 256.
pub proof fn lemma_decode_encode(s: Seq<char>)
    requires
        latin1(s),
    ensures
        spec_lua_url_decode(spec_url_encode(s)) == Ok::<Seq<char>, UrlDecodeError>(s),
    decreases s.len(),
{
    if s.len() == 0 {
        assert(s =~= Seq::<char>::empty());
    } else {
        let rest = s.drop_first();
        assert(latin1(rest)) by {
            assert forall|i: int| 0 <= i < rest.len() implies (#[trigger] rest[i] as u32) < 256 by {
                assert(rest[i] == s[i + 1]);
            }
        }
        lemma_decode_encode(rest);
        assert((s[0] as u32) < 256);
        lemma_decode_encode_char(s[0], spec_url_encode(rest));
        assert(spec_url_encode(s) == encode_char(s[0]) + spec_url_encode(rest));
        assert(seq![s[0]] + rest =~= s);
    }
}

/// Appending a separator and text without one adds that text as a part.
pub proof fn lemma_split_append<T>(x: Seq<T>, sep: T, y: Seq<T>)
    requires
        forall|i: int| 0 <= i < y.len() ==> #[trigger] y[i] != sep,
    ensures
        split_spec(x + seq![sep] + y, sep) == split_spec(x, sep).push(y),
    decreases y.len(),
{
    let z = x + seq![sep] + y;
    if y.len() == 0 {
        assert(z.drop_last() =~= x);
        assert(z.last() == sep);
        assert(y =~= Seq::<T>::empty());
    } else {
        let y0 = y.drop_last();
        assert forall|i: int| 0 <= i < y0.len() implies #[trigger] y0[i] != sep by {
            assert(y0[i] == y[i]);
        }
        lemma_split_append(x, sep, y0);
        assert(z.drop_last() =~= x + seq![sep] + y0);
        assert(z.last() == y.last());
        assert(y.last() == y[y.len() - 1]);
        assert(y0.push(y.last()) =~= y);
        crate::text::lemma_split_nonempty(z.drop_last(), sep);
        assert(split_spec(z, sep) =~= split_spec(x, sep).push(y));
    }
}

pub open spec fn arg_texts(args: Seq<(Seq<char>, Seq<char>)>) -> Seq<Seq<char>> {
    args.map_values(|a: (Seq<char>, Seq<char>)| arg_text(a.0, a.1))
}

proof fn lemma_arg_text_safe(k: Seq<char>, v: Seq<char>)
    ensures
        forall|i: int| 0 <= i < arg_text(k, v).len() ==> #[trigger] arg_text(k, v)[i] != '&',
{
    lemma_encode_safe(k);
    lemma_encode_safe(v);
    let ek = spec_url_encode(k);
    let ev = spec_url_encode(v);
    if v.len() > 0 {
        let t = ek + seq!['='] + ev;
        assert forall|i: int| 0 <= i < t.len() implies #[trigger] t[i] != '&' by {
            if i < ek.len() {
                assert(t[i] == ek[i]);
            } else if i == ek.len() {
                assert(t[i] == '=');
            } else {
                assert(t[i] == ev[i - ek.len() - 1]);
            }
        }
    }
}

proof fn lemma_split_to_query(args: Seq<(Seq<char>, Seq<char>)>)
    requires
        args.len() >= 1,
    ensures
        split_spec(spec_to_query(args), '&') == arg_texts(args),
    decreases args.len(),
{
    let last = args.last();
    lemma_arg_text_safe(last.0, last.1);
    if args.len() == 1 {
        let t = arg_text(args[0].0, args[0].1);
        assert(!t.contains('&')) by {
            if t.contains('&') {
                let i = choose|i: int| 0 <= i < t.len() && t[i] == '&';
                assert(t[i] != '&');
            }
        }
        lemma_split_no_sep(t, '&');
        assert(arg_texts(args) =~= seq![t]);
    } else {
        lemma_split_to_query(args.drop_last());
        lemma_split_append(spec_to_query(args.drop_last()), '&', arg_text(last.0, last.1));
        assert(arg_texts(args) =~= arg_texts(args.drop_last()).push(arg_text(last.0, last.1)));
    }
}

/// Arguments that a query string can carry back unchanged: every key is
/// non-empty, and keys and values hold characters below 256 only.
pub open spec fn round_trippable(args: Seq<(Seq<char>, Seq<char>)>) -> bool {
    forall|i: int|
        0 <= i < args.len() ==> (#[trigger] args[i]).0.len() > 0 && latin1(args[i].0) && latin1(
            args[i].1,
        )
}

proof fn lemma_pair_of_arg_text(k: Seq<char>, v: Seq<char>)
    requires
        k.len() > 0,
        latin1(k),
        latin1(v),
    ensures
        spec_query_pair(arg_text(k, v)) == Some((k, v)),
{
    lemma_encode_safe(k);
    lemma_encode_safe(v);
    lemma_decode_encode(k);
    lemma_decode_encode(v);
    let ek = spec_url_encode(k);
    let ev = spec_url_encode(v);
    let eq = seq!['='];
    if v.len() == 0 {
        assert(!contains_seq(ek, eq)) by {
            if contains_seq(ek, eq) {
                let i = choose|i: int| occurs_at(ek, eq, i);
                assert(ek.subrange(i, i + 1)[0] == ek[i]);
            }
        }
        assert(split_pair(ek) == (ek, Seq::<char>::empty()));
    } else {
        let p = ek + eq + ev;
        let i = ek.len() as int;
        assert(occurs_at(p, eq, i)) by {
            assert(p.subrange(i, i + 1) =~= eq);
        }
        assert forall|j: int| 0 <= j < i implies !occurs_at(p, eq, j) by {
            if occurs_at(p, eq, j) {
                assert(p.subrange(j, j + 1)[0] == p[j]);
                assert(p[j] == ek[j]);
            }
        }
        assert(first_occurrence(p, eq, i));
        lemma_find_is_first(p, eq, i);
        assert(p.take(i) =~= ek);
        assert(p.subrange(i + 1, p.len() as int) =~= ev);
    }
}

proof fn lemma_pairs_of_texts(args: Seq<(Seq<char>, Seq<char>)>)
    requires
        round_trippable(args),
    ensures
        query_pairs(arg_texts(args)) == args,
    decreases args.len(),
{
    if args.len() > 0 {
        let init = args.drop_last();
        assert(round_trippable(init)) by {
            assert forall|i: int| 0 <= i < init.len() implies (#[trigger] init[i]).0.len() > 0
                && latin1(init[i].0) && latin1(init[i].1) by {
                assert(init[i] == args[i]);
            }
        }
        lemma_pairs_of_texts(init);
        let last = args.last();
        assert(args[args.len() - 1] == last);
        lemma_pair_of_arg_text(last.0, last.1);
        assert(arg_texts(args).drop_last() =~= arg_texts(init));
        assert(arg_texts(args).last() == arg_text(last.0, last.1));
        assert(init.push(last) =~= args);
    }
}

/// Reading back a written query string gives the same arguments, in the
/// same order, for arguments with non-empty keys and characters below 256.
pub proof fn lemma_query_round_trip(args: Seq<(Seq<char>, Seq<char>)>)
    requires
        round_trippable(args),
    ensures
        spec_parse_query(spec_to_query(args)) == args,
{
    if args.len() > 0 {
        lemma_split_to_query(args);
        lemma_pairs_of_texts(args);
        assert(spec_to_query(args).len() > 0) by {
            crate::text::lemma_split_nonempty(spec_to_query(args), '&');
            if spec_to_query(args).len() == 0 {
                assert(split_spec(spec_to_query(args), '&') =~= seq![Seq::<char>::empty()]);
                assert(args[0].0.len() > 0);
                lemma_encode_safe(args[0].0);
                assert(arg_texts(args)[0] == arg_text(args[0].0, args[0].1));
                if args[0].1.len() > 0 {
                    assert(arg_text(args[0].0, args[0].1).len() > 0);
                }
            }
        }
    } else {
        assert(spec_to_query(args) == Seq::<char>::empty());
    }
}

// ---------------------------------------------------------------------------
// Dates.

/// Gregorian leap years.
pub open spec fn spec_is_leap(y: int) -> bool {
    (y % 4 == 0 && y % 100 != 0) || y % 400 == 0
}

proof fn lemma_divides_negation(y: int, d: int)
    requires
        d > 0,
    ensures
        (y % d == 0) == ((-y) % d == 0),
{
    vstd::arithmetic::div_mod::lemma_fundamental_div_mod(y, d);
    vstd::arithmetic::div_mod::lemma_fundamental_div_mod(-y, d);
    if y % d == 0 {
        let q = y / d;
        assert(-y == (-q) * d) by (nonlinear_arith)
            requires
                y == d * q,
        ;
        vstd::arithmetic::div_mod::lemma_mod_multiples_basic(-q, d);
    }
    if (-y) % d == 0 {
        let q = (-y) / d;
        assert(y == (-q) * d) by (nonlinear_arith)
            requires
                -y == d * q,
        ;
        vstd::arithmetic::div_mod::lemma_mod_multiples_basic(-q, d);
    }
}

/// Whether a year is a leap year.
pub fn is_leap_year(year: i32) -> (r: bool)
    ensures
        r == spec_is_leap(year as int),
{
    let a: u64 = if year < 0 {
        (0i64 - year as i64) as u64
    } else {
        year as u64
    };
    proof {
        if year < 0 {
            lemma_divides_negation(year as int, 4);
            lemma_divides_negation(year as int, 100);
            lemma_divides_negation(year as int, 400);
        }
    }
    (a % 4 == 0 && a % 100 != 0) || (a % 400 == 0)
}

pub open spec fn days_in_year(y: int) -> int {
    if spec_is_leap(y) {
        366
    } else {
        365
    }
}

/// Whole years counted off from `year`: the year reached and the days left
/// in it.
pub open spec fn year_of(rem: int, year: int) -> (int, int)
    decreases rem,
{
    if rem < days_in_year(year) {
        (year, rem)
    } else {
        year_of(rem - days_in_year(year), year + 1)
    }
}

pub open spec fn month_len(m: int, leap: bool) -> int {
    if m == 2 {
        if leap {
            29
        } else {
            28
        }
    } else if m == 4 || m == 6 || m == 9 || m == 11 {
        30
    } else {
        31
    }
}

/// Whole months counted off from month `m`: the month reached and the day
/// in it, the days left read as `u32` plus one; past December, month 13
/// day 1.
pub open spec fn month_of(rem: int, leap: bool, m: int) -> (int, int)
    decreases 13 - m,
{
    if m > 12 {
        (13, 1)
    } else if rem < month_len(m, leap) {
        (m, ((rem as u32) as int) + 1)
    } else {
        month_of(rem - month_len(m, leap), leap, m + 1)
    }
}

/// The date `days` days after 1970-01-01. Before that date the count is
/// not carried back: the year stays 1970 and the day is the negative count
/// read as `u32`, plus one.
pub open spec fn spec_days_to_ymd(days: int) -> (int, int, int) {
    let (y, rem) = year_of(days, 1970);
    let (m, d) = month_of(rem, spec_is_leap(y), 1);
    (y, m, d)
}

proof fn lemma_year_of_small(rem: int, year: int)
    ensures
        year_of(rem, year).1 < days_in_year(year_of(rem, year).0),
        rem < 0 ==> year_of(rem, year) == (year, rem),
        rem >= 0 ==> year_of(rem, year).1 >= 0,
    decreases rem,
{
    if rem >= days_in_year(year) {
        lemma_year_of_small(rem - days_in_year(year), year + 1);
    }
}

/// Converts a count of days since 1970-01-01 to year, month and day.
pub fn days_to_ymd(days: i32) -> (r: (i32, u32, u32))
    requires
        days != -1,
    ensures
        (r.0 as int, r.1 as int, r.2 as int) == spec_days_to_ymd(days as int),
{
    let mut year: i32 = 1970;
    let mut remaining: i32 = days;
    loop
        invariant
            1970 <= year,
            remaining <= days,
            (year - 1970) * 365 <= days - remaining,
            year_of(days as int, 1970) == year_of(remaining as int, year as int),
            remaining < 0 ==> remaining == days && year == 1970,
        ensures
            year_of(days as int, 1970) == (year as int, remaining as int),
        decreases remaining,
    {
        let diy: i32 = if is_leap_year(year) { 366 } else { 365 };
        if remaining < diy {
            break;
        }
        remaining = remaining - diy;
        year = year + 1;
    }
    let leap = is_leap_year(year);
    let month_days: [i32; 12] = if leap {
        [31, 29, 31, 30, 31, 30, 31, 31, 30, 31, 30, 31]
    } else {
        [31, 28, 31, 30, 31, 30, 31, 31, 30, 31, 30, 31]
    };
    assert forall|j: int| 0 <= j < 12 implies month_days@[j] == month_len(j + 1, leap) by {
        if leap {
            assert(month_days@ == seq![31i32, 29, 31, 30, 31, 30, 31, 31, 30, 31, 30, 31]);
        } else {
            assert(month_days@ == seq![31i32, 28, 31, 30, 31, 30, 31, 31, 30, 31, 30, 31]);
        }
    }
    let ghost rem_y = remaining as int;
    let mut month: u32 = 1;
    let mut day: u32 = 1;
    let mut k: usize = 0;
    let mut found = false;
    while k < 12 && !found
        invariant
            k <= 12,
            month == k + 1,
            forall|j: int| 0 <= j < 12 ==> month_days@[j] == month_len(j + 1, leap),
            remaining <= rem_y,
            days != -1,
            rem_y >= 0 ==> remaining >= 0,
            !found ==> day == 1,
            rem_y < 0 ==> (remaining == rem_y && rem_y == days && (k == 0 || found)),
            !found ==> month_of(rem_y, leap, 1) == month_of(remaining as int, leap, k + 1),
            found ==> month_of(rem_y, leap, 1) == (month as int, day as int),
        decreases 12 - k + (if found {
            0int
        } else {
            1int
        }),
    {
        let md = month_days[k];
        if remaining < md {
            if remaining < 0 {
                assert(remaining < -1);
                assert(remaining < -1 ==> (remaining as u32) < 0xffff_ffffu32) by (bit_vector);
            }
            day = (remaining as u32) + 1;
            found = true;
        } else {
            remaining = remaining - md;
            month = month + 1;
            k = k + 1;
        }
    }
    proof {
        lemma_year_of_small(days as int, 1970);
        if !found {
            assert(k == 12);
            assert(month_of(remaining as int, leap, 13) == (13int, 1int));
        }
        assert(year_of(days as int, 1970) == (year as int, rem_y));
        assert(leap == spec_is_leap(year as int));
        assert(month_of(rem_y, leap, 1) == (month as int, day as int));
    }
    (year, month, day)
}

/// A count of days from 1970-01-01 on gives a real date: a month of the
/// year and a day within that month.
pub proof fn lemma_days_to_ymd_valid(days: int)
    requires
        days >= 0,
    ensures
        1 <= spec_days_to_ymd(days).1 <= 12,
        1 <= spec_days_to_ymd(days).2 <= month_len(
            spec_days_to_ymd(days).1,
            spec_is_leap(spec_days_to_ymd(days).0),
        ),
{
    lemma_year_of_small(days, 1970);
    let (y, rem) = year_of(days, 1970);
    assert(days_left_from(1, spec_is_leap(y)) == days_in_year(y)) by {
        reveal_with_fuel(days_left_from, 13);
    }
    lemma_month_of_valid(rem, spec_is_leap(y), 1);
}

proof fn lemma_month_of_valid(rem: int, leap: bool, m: int)
    requires
        1 <= m <= 12,
        0 <= rem,
        rem < days_left_from(m, leap),
    ensures
        m <= month_of(rem, leap, m).0 <= 12,
        1 <= month_of(rem, leap, m).1 <= month_len(month_of(rem, leap, m).0, leap),
    decreases 13 - m,
{
    if rem >= month_len(m, leap) {
        assert(days_left_from(m, leap) == month_len(m, leap) + days_left_from(m + 1, leap));
        if m == 12 {
            assert(days_left_from(13, leap) == 0);
        }
        lemma_month_of_valid(rem - month_len(m, leap), leap, m + 1);
    }
}

/// The days of the year from the start of month `m` on.
pub open spec fn days_left_from(m: int, leap: bool) -> int
    decreases 13 - m,
{
    if m > 12 {
        0
    } else {
        month_len(m, leap) + days_left_from(m + 1, leap)
    }
}

} // verus!
