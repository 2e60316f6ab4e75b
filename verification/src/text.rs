//! Character-level text handling shared by the configuration, authentication
//! and storage code: Unicode whitespace trimming, decimal parsing, ASCII
//! case-insensitive keyword matching and ASCII byte strings.
use vstd::prelude::*;

verus! {

/// The characters for which `char::is_whitespace` holds (Unicode `White_Space`).
pub open spec fn is_ws(c: char) -> bool {
    let u = c as u32;
    ||| 9 <= u <= 13
    ||| u == 32
    ||| u == 0x85
    ||| u == 0xa0
    ||| u == 0x1680
    ||| 0x2000 <= u <= 0x200a
    ||| u == 0x2028
    ||| u == 0x2029
    ||| u == 0x202f
    ||| u == 0x205f
    ||| u == 0x3000
}

/// `s` with its leading whitespace removed.
pub open spec fn trim_start(s: Seq<char>) -> Seq<char>
    decreases s.len(),
{
    if s.len() > 0 && is_ws(s[0]) {
        trim_start(s.drop_first())
    } else {
        s
    }
}

/// `s` with its trailing whitespace removed.
pub open spec fn trim_end(s: Seq<char>) -> Seq<char>
    decreases s.len(),
{
    if s.len() > 0 && is_ws(s.last()) {
        trim_end(s.drop_last())
    } else {
        s
    }
}

/// `s` with leading and trailing whitespace removed, as `str::trim` does.
pub open spec fn trim_ws(s: Seq<char>) -> Seq<char> {
    trim_end(trim_start(s))
}

pub fn is_whitespace(c: char) -> (r: bool)
    ensures
        r == is_ws(c),
{
    let u = c as u32;
    (9 <= u && u <= 13) || u == 32 || u == 0x85 || u == 0xa0 || u == 0x1680 || (0x2000 <= u && u
        <= 0x200a) || u == 0x2028 || u == 0x2029 || u == 0x202f || u == 0x205f || u == 0x3000
}

proof fn lemma_trim_start_at(s: Seq<char>, a: int)
    requires
        0 <= a <= s.len(),
        forall|i: int| 0 <= i < a ==> is_ws(#[trigger] s[i]),
        a == s.len() || !is_ws(s[a]),
    ensures
        trim_start(s) == s.subrange(a, s.len() as int),
    decreases a,
{
    if a == 0 {
        assert(s.subrange(0, s.len() as int) =~= s);
    } else {
        let t = s.drop_first();
        assert forall|i: int| 0 <= i < a - 1 implies is_ws(#[trigger] t[i]) by {
            assert(t[i] == s[i + 1]);
        }
        lemma_trim_start_at(t, a - 1);
        assert(t.subrange(a - 1, t.len() as int) =~= s.subrange(a, s.len() as int));
    }
}

proof fn lemma_trim_end_at(t: Seq<char>, c: int)
    requires
        0 <= c <= t.len(),
        forall|i: int| c <= i < t.len() ==> is_ws(#[trigger] t[i]),
        c == 0 || !is_ws(t[c - 1]),
    ensures
        trim_end(t) == t.subrange(0, c),
    decreases t.len() - c,
{
    if c == t.len() {
        assert(t.subrange(0, c) =~= t);
    } else {
        let u = t.drop_last();
        assert forall|i: int| c <= i < u.len() implies is_ws(#[trigger] u[i]) by {
            assert(u[i] == t[i]);
        }
        lemma_trim_end_at(u, c);
        assert(u.subrange(0, c) =~= t.subrange(0, c));
    }
}

/// Whether every character of `s` is whitespace.
pub open spec fn all_ws(s: Seq<char>) -> bool {
    forall|i: int| 0 <= i < s.len() ==> is_ws(#[trigger] s[i])
}

proof fn lemma_trim_all_ws(s: Seq<char>)
    requires
        all_ws(s),
    ensures
        trim_ws(s) == Seq::<char>::empty(),
{
    lemma_trim_start_at(s, s.len() as int);
    assert(s.subrange(s.len() as int, s.len() as int) =~= Seq::<char>::empty());
}

/// Indices `(a, b)` such that `trim_ws(s) == s[a..b]`.
fn trim_bounds(s: &str) -> (r: (usize, usize))
    ensures
        r.0 <= r.1 <= s@.len(),
        trim_ws(s@) == s@.subrange(r.0 as int, r.1 as int),
{
    let n = s.unicode_len();
    let mut i: usize = 0;
    let mut first: Option<usize> = None;
    let mut last_end: usize = 0;
    for c in it: s.chars()
        invariant
            n == s@.len(),
            i == it.index(),
            it.seq() == s@,
            i <= n,
            first is None ==> last_end == 0 && forall|j: int| 0 <= j < i ==> is_ws(#[trigger] s@[j]),
            first matches Some(a) ==> {
                &&& a < last_end <= i
                &&& forall|j: int| 0 <= j < a ==> is_ws(#[trigger] s@[j])
                &&& !is_ws(s@[a as int])
                &&& !is_ws(s@[last_end - 1])
                &&& forall|j: int| last_end <= j < i ==> is_ws(#[trigger] s@[j])
            },
    {
        assert(c == s@[i as int]);
        if !is_whitespace(c) {
            if first.is_none() {
                first = Some(i);
            }
            last_end = i + 1;
        }
        i = i + 1;
    }
    match first {
        None => {
            proof {
                lemma_trim_all_ws(s@);
                assert(s@.subrange(0, 0) =~= Seq::<char>::empty());
            }
            (0, 0)
        },
        Some(a) => {
            proof {
                lemma_trim_start_at(s@, a as int);
                let t = s@.subrange(a as int, s@.len() as int);
                assert forall|j: int| last_end - a <= j < t.len() implies is_ws(#[trigger] t[j]) by {
                    assert(t[j] == s@[a + j]);
                }
                assert(t[last_end - a - 1] == s@[last_end - 1]);
                lemma_trim_end_at(t, last_end - a);
                assert(t.subrange(0, last_end - a) =~= s@.subrange(a as int, last_end as int));
            }
            (a, last_end)
        },
    }
}

/// `s` without leading and trailing whitespace (`str::trim`).
pub fn trim(s: &str) -> (r: String)
    ensures
        r@ == trim_ws(s@),
{
    let (a, b) = trim_bounds(s);
    s.substring_char(a, b).to_string()
}

// ---------------------------------------------------------------------------
// Decimal numbers, as `str::parse::<u64>` / `str::parse::<usize>` read them.
pub open spec fn is_digit(c: char) -> bool {
    48 <= (c as u32) <= 57
}

pub open spec fn all_digits(s: Seq<char>) -> bool {
    forall|i: int| 0 <= i < s.len() ==> is_digit(#[trigger] s[i])
}

/// The value of a string of decimal digits.
pub open spec fn digits_value(s: Seq<char>) -> nat
    decreases s.len(),
{
    if s.len() == 0 {
        0
    } else {
        digits_value(s.drop_last()) * 10 + ((s.last() as u32) - 48) as nat
    }
}

/// The digits of a decimal number: a single leading `+` is dropped.
pub open spec fn decimal_digits(s: Seq<char>) -> Seq<char> {
    if s.len() > 0 && s[0] == '+' {
        s.drop_first()
    } else {
        s
    }
}

/// The value that `s` denotes as an unsigned decimal number, if it is one:
/// an optional `+` followed by one or more ASCII digits, nothing else.
pub open spec fn decimal_value(s: Seq<char>) -> Option<nat> {
    let d = decimal_digits(s);
    if d.len() > 0 && all_digits(d) {
        Some(digits_value(d))
    } else {
        None
    }
}

/// What `parse` gives for an unsigned integer type whose largest value is `max`.
pub open spec fn parse_unsigned(s: Seq<char>, max: nat) -> Option<nat> {
    match decimal_value(s) {
        Some(v) => if v <= max {
            Some(v)
        } else {
            None
        },
        None => None,
    }
}

proof fn lemma_digits_value_grows(p: Seq<char>, r: Seq<char>)
    requires
        all_digits(r),
    ensures
        digits_value(p + r) >= digits_value(p),
        r.len() > 0 ==> digits_value(p + r) >= digits_value(p) * 10 + ((r[0] as u32) - 48) as nat,
    decreases r.len(),
{
    if r.len() == 0 {
        assert(p + r =~= p);
    } else {
        let q = r.drop_last();
        assert(all_digits(q)) by {
            assert forall|i: int| 0 <= i < q.len() implies is_digit(#[trigger] q[i]) by {
                assert(q[i] == r[i]);
            }
        }
        lemma_digits_value_grows(p, q);
        assert((p + r).drop_last() =~= p + q);
        assert((p + r).last() == r.last());
        assert(is_digit(r.last()));
        if q.len() == 0 {
            assert(p + q =~= p);
            assert(r[0] == r.last());
        } else {
            assert(q[0] == r[0]);
            let x = digits_value(p + q);
            let y = digits_value(p);
            assert(x * 10 >= x) by (nonlinear_arith)
                requires
                    x >= 0,
            ;
        }
    }
}

/// Parses `s` as an unsigned decimal number no larger than `max`.
pub fn parse_decimal(s: &str, max: u64) -> (r: Option<u64>)
    ensures
        match parse_unsigned(s@, max as nat) {
            Some(v) => r == Some(v as u64),
            None => r is None,
        },
{
    let n = s.unicode_len();
    if n == 0 {
        return None;
    }
    let first = s.get_char(0);
    let start: usize = if first == '+' {
        1
    } else {
        0
    };
    if start == n {
        return None;
    }
    let ghost d = decimal_digits(s@);
    assert(d =~= s@.subrange(start as int, n as int));
    let mut acc: u64 = 0;
    let mut i: usize = start;
    while i < n
        invariant
            n == s@.len(),
            start <= i <= n,
            start < n,
            d == s@.subrange(start as int, n as int),
            d == decimal_digits(s@),
            all_digits(s@.subrange(start as int, i as int)),
            acc as nat == digits_value(s@.subrange(start as int, i as int)),
            acc <= max,
        decreases n - i,
    {
        let c = s.get_char(i);
        let u = c as u32;
        if u < 48 || u > 57 {
            assert(d[i - start] == c);
            assert(!all_digits(d));
            return None;
        }
        let digit = (u - 48) as u64;
        let ghost p = s@.subrange(start as int, i as int);
        let ghost p2 = s@.subrange(start as int, i + 1);
        assert(p2.drop_last() =~= p);
        assert(p2.last() == c);
        assert(all_digits(p2)) by {
            assert forall|j: int| 0 <= j < p2.len() implies is_digit(#[trigger] p2[j]) by {
                if j < p.len() {
                    assert(p2[j] == p[j]);
                }
            }
        }
        let next = match acc.checked_mul(10) {
            Some(m) => m.checked_add(digit),
            None => None,
        };
        match next {
            Some(v) if v <= max => {
                acc = v;
            },
            _ => {
                proof {
                    // Either a later character is not a digit, or the value only grows.
                    if all_digits(d) {
                        let r = s@.subrange(i as int, n as int);
                        assert(d =~= p + r);
                        assert(all_digits(r)) by {
                            assert forall|j: int| 0 <= j < r.len() implies is_digit(
                                #[trigger] r[j],
                            ) by {
                                assert(r[j] == d[i - start + j]);
                            }
                        }
                        assert(r[0] == c);
                        lemma_digits_value_grows(p, r);
                    }
                }
                return None;
            },
        }
        i = i + 1;
    }
    assert(s@.subrange(start as int, n as int) == d);
    Some(acc)
}

/// `str::parse::<u64>`.
pub fn parse_u64(s: &str) -> (r: Option<u64>)
    ensures
        match parse_unsigned(s@, u64::MAX as nat) {
            Some(v) => r == Some(v as u64),
            None => r is None,
        },
{
    parse_decimal(s, u64::MAX)
}

/// `str::parse::<usize>`.
pub fn parse_usize(s: &str) -> (r: Option<usize>)
    ensures
        match parse_unsigned(s@, usize::MAX as nat) {
            Some(v) => r == Some(v as usize),
            None => r is None,
        },
{
    match parse_decimal(s, usize::MAX as u64) {
        Some(v) => Some(v as usize),
        None => None,
    }
}

// ---------------------------------------------------------------------------
// Keywords, matched the way `s.to_lowercase() == keyword` matches them.
pub open spec fn ascii_lower(c: char) -> char {
    if 65 <= (c as u32) <= 90 {
        ((c as u32) + 32) as char
    } else {
        c
    }
}

/// Whether `s`, lowercased, equals `keyword`.
///
/// `keyword` is lowercase ASCII without the letter `k`. For such a keyword,
/// comparing `s.to_lowercase()` with it is comparing `s` character by character
/// after ASCII lowercasing: apart from `K` (KELVIN SIGN, which lowercases to
/// `k`) and `İ` (whose lowercase form starts with `i` but holds a combining
/// dot), no non-ASCII character lowercases to an ASCII character.
pub open spec fn lower_eq(s: Seq<char>, keyword: Seq<char>) -> bool {
    &&& s.len() == keyword.len()
    &&& forall|i: int| 0 <= i < s.len() ==> ascii_lower(#[trigger] s[i]) == keyword[i]
}

pub fn lowercase_equals(s: &str, keyword: &str) -> (r: bool)
    ensures
        r == lower_eq(s@, keyword@),
{
    let n = s.unicode_len();
    let k = keyword.unicode_len();
    if n != k {
        return false;
    }
    let mut i: usize = 0;
    while i < n
        invariant
            n == s@.len(),
            k == keyword@.len(),
            n == k,
            i <= n,
            forall|j: int| 0 <= j < i ==> ascii_lower(#[trigger] s@[j]) == keyword@[j],
        decreases n - i,
    {
        let c = s.get_char(i);
        let u = c as u32;
        let lower: u32 = if 65 <= u && u <= 90 {
            u + 32
        } else {
            u
        };
        let kc = keyword.get_char(i);
        if lower != kc as u32 {
            assert(ascii_lower(s@[i as int]) != keyword@[i as int]);
            return false;
        }
        assert(ascii_lower(s@[i as int]) == keyword@[i as int]);
        i = i + 1;
    }
    true
}

// ---------------------------------------------------------------------------
// ASCII bytes.
/// The characters that a string of ASCII bytes denotes.
pub open spec fn ascii_chars(b: Seq<u8>) -> Seq<char> {
    Seq::new(b.len(), |i: int| b[i] as char)
}

pub open spec fn is_ascii_bytes(b: Seq<u8>) -> bool {
    forall|i: int| 0 <= i < b.len() ==> #[trigger] b[i] < 128
}

/// The UTF-8 decoding of ASCII bytes is those bytes read as characters.
pub proof fn lemma_ascii_decode(b: Seq<u8>)
    requires
        is_ascii_bytes(b),
    ensures
        vstd::utf8::valid_utf8(b),
        vstd::utf8::decode_utf8(b) == ascii_chars(b),
{
    let cs = ascii_chars(b);
    assert(vstd::utf8::is_ascii_chars(cs)) by {
        assert forall|i: int| 0 <= i < cs.len() implies '\0' <= #[trigger] cs[i] <= '\u{7f}' by {
            assert(b[i] < 128);
        }
    }
    vstd::utf8::is_ascii_chars_encode_utf8(cs);
    let e = vstd::utf8::encode_utf8(cs);
    assert forall|i: int| 0 <= i < b.len() implies e[i] == b[i] by {
        assert(cs[i] as u8 == e[i]);
        assert(b[i] < 128);
    }
    assert(e =~= b);
    vstd::utf8::encode_utf8_valid_utf8(cs);
    vstd::utf8::encode_utf8_decode_utf8(cs);
}

/// The characters that `String::from_utf8_lossy` makes of bytes that are not
/// valid UTF-8 (each invalid sequence replaced by U+FFFD).
pub uninterp spec fn invalid_utf8_replaced(bytes: Seq<u8>) -> Seq<char>;

/// The characters that `String::from_utf8_lossy` makes of `bytes`: valid
/// UTF-8 decoded as it is.
pub open spec fn utf8_lossy_chars(bytes: Seq<u8>) -> Seq<char> {
    if vstd::utf8::valid_utf8(bytes) {
        vstd::utf8::decode_utf8(bytes)
    } else {
        invalid_utf8_replaced(bytes)
    }
}

/// Calls `String::from_utf8_lossy`: valid UTF-8 is decoded as it is (the
/// function then borrows its input unchanged); other input gets U+FFFD in
/// place of each invalid sequence, which this contract only names.
#[verifier::external_body]
pub(crate) fn utf8_lossy(bytes: &[u8]) -> (s: String)
    ensures
        vstd::utf8::valid_utf8(bytes@) ==> s@ == vstd::utf8::decode_utf8(bytes@),
        !vstd::utf8::valid_utf8(bytes@) ==> s@ == invalid_utf8_replaced(bytes@),
{
    String::from_utf8_lossy(bytes).into_owned()
}

/// The string of ASCII `bytes`.
pub fn ascii_string(bytes: &[u8]) -> (s: String)
    requires
        is_ascii_bytes(bytes@),
    ensures
        s@ == ascii_chars(bytes@),
{
    proof {
        lemma_ascii_decode(bytes@);
    }
    utf8_lossy(bytes)
}

} // verus!
