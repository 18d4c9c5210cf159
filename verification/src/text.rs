//! Character-level text handling: whitespace trimming, splitting, ASCII
//! case folding, number parsing and UTF-8 encoding, all specified over
//! `Seq<char>`.

use vstd::prelude::*;
use vstd::utf8::*;

verus! {

/// `char::is_whitespace`: the Unicode `White_Space` property.
pub open spec fn is_ws(c: char) -> bool {
    let v = c as u32;
    ||| 0x09 <= v <= 0x0d
    ||| v == 0x20
    ||| v == 0x85
    ||| v == 0xa0
    ||| v == 0x1680
    ||| 0x2000 <= v <= 0x200a
    ||| v == 0x2028
    ||| v == 0x2029
    ||| v == 0x202f
    ||| v == 0x205f
    ||| v == 0x3000
}

pub fn is_whitespace(c: char) -> (r: bool)
    ensures
        r == is_ws(c),
{
    let v = c as u32;
    (0x09 <= v && v <= 0x0d) || v == 0x20 || v == 0x85 || v == 0xa0 || v == 0x1680 || (0x2000
        <= v && v <= 0x200a) || v == 0x2028 || v == 0x2029 || v == 0x202f || v == 0x205f || v
        == 0x3000
}

/// `str::trim_start`.
pub open spec fn trim_start_chars(s: Seq<char>) -> Seq<char>
    decreases s.len(),
{
    if s.len() > 0 && is_ws(s[0]) {
        trim_start_chars(s.drop_first())
    } else {
        s
    }
}

/// `str::trim_end`.
pub open spec fn trim_end_chars(s: Seq<char>) -> Seq<char>
    decreases s.len(),
{
    if s.len() > 0 && is_ws(s.last()) {
        trim_end_chars(s.drop_last())
    } else {
        s
    }
}

/// `str::trim`.
pub open spec fn trim_chars(s: Seq<char>) -> Seq<char> {
    trim_end_chars(trim_start_chars(s))
}

/// Number of bytes in the UTF-8 encoding of `c`.
pub open spec fn utf8_len(c: char) -> int {
    let v = c as u32;
    if v < 0x80 {
        1
    } else if v < 0x800 {
        2
    } else if v < 0x10000 {
        3
    } else {
        4
    }
}

/// Number of bytes in the UTF-8 encoding of `s` (`str::len`).
pub open spec fn byte_len(s: Seq<char>) -> int
    decreases s.len(),
{
    if s.len() == 0 {
        0
    } else {
        byte_len(s.drop_last()) + utf8_len(s.last())
    }
}

pub open spec fn is_ascii_digit(c: char) -> bool {
    '0' <= c <= '9'
}

pub open spec fn all_digits(s: Seq<char>) -> bool {
    forall|i: int| 0 <= i < s.len() ==> is_ascii_digit(#[trigger] s[i])
}

/// Decimal value of a string of ASCII digits.
pub open spec fn digits_value(s: Seq<char>) -> int
    decreases s.len(),
{
    if s.len() == 0 {
        0
    } else {
        digits_value(s.drop_last()) * 10 + (s.last() as int - 48)
    }
}

/// Unsigned integer parsing as `str::parse` does it for an unsigned type
/// whose largest value is `max`: an optional `+`, then one or more ASCII
/// digits whose value is at most `max`.
pub open spec fn spec_parse_uint(s: Seq<char>, max: int) -> Option<int> {
    let d = if s.len() > 0 && s[0] == '+' {
        s.drop_first()
    } else {
        s
    };
    if d.len() > 0 && all_digits(d) && digits_value(d) <= max {
        Some(digits_value(d))
    } else {
        None
    }
}

/// Signed integer parsing as `str::parse::<i32>` does it: an optional `+` or
/// `-`, then one or more ASCII digits, the value within the `i32` range.
pub open spec fn spec_parse_i32(s: Seq<char>) -> Option<int> {
    let neg = s.len() > 0 && s[0] == '-';
    let d = if s.len() > 0 && (s[0] == '+' || s[0] == '-') {
        s.drop_first()
    } else {
        s
    };
    if d.len() > 0 && all_digits(d) {
        let v = if neg {
            -digits_value(d)
        } else {
            digits_value(d)
        };
        if i32::MIN <= v <= i32::MAX {
            Some(v)
        } else {
            None
        }
    } else {
        None
    }
}

/// ASCII lower-casing of one character.
pub open spec fn ascii_lower(c: char) -> char {
    if 'A' <= c <= 'Z' {
        ((c as u32) + 32) as char
    } else {
        c
    }
}

/// `str::eq_ignore_ascii_case`.
pub open spec fn eq_ci(a: Seq<char>, b: Seq<char>) -> bool {
    a.len() == b.len() && forall|i: int| 0 <= i < a.len() ==> ascii_lower(#[trigger] a[i]) == ascii_lower(b[i])
}

/// An exact decimal number `num / den` (`den > 0` for parsed values).
#[derive(Debug, Clone, Copy, PartialEq, Eq, Structural)]
pub struct Ratio {
    pub num: i64,
    pub den: u64,
}

pub open spec fn pow10(n: nat) -> int
    decreases n,
{
    if n == 0 {
        1
    } else {
        10 * pow10((n - 1) as nat)
    }
}

/// Index of the first `c` in `s`, or `s.len()`.
pub open spec fn find_char(s: Seq<char>, c: char) -> int
    decreases s.len(),
{
    if s.len() == 0 {
        0
    } else if s[0] == c {
        0
    } else {
        1 + find_char(s.drop_first(), c)
    }
}

/// The denominator of a parsed decimal: a power of ten up to `10^16`.
pub open spec fn decimal_den_ok(r: Ratio) -> bool {
    1 <= r.den <= 10000000000000000
}

/// The first position of an exponent mark (`e` or `E`) in `s`, or its length.
pub open spec fn exp_mark(s: Seq<char>) -> int {
    let lo = find_char(s, 'e');
    let up = find_char(s, 'E');
    if lo <= up {
        lo
    } else {
        up
    }
}

/// The decimal integer `digits` times `10^shift`, rounded to the nearest
/// integer (halves rounded up).
pub open spec fn rounded_scaled(digits: Seq<char>, shift: int) -> int {
    if shift >= 0 {
        digits_value(digits) * pow10(shift as nat)
    } else {
        let n = digits.len() + shift;
        if n < 0 {
            0
        } else {
            digits_value(digits.take(n)) + (if digits[n] >= '5' { 1int } else { 0int })
        }
    }
}

/// Decimal-number parsing used in place of `str::parse::<f64>`, with the
/// same syntax for finite numbers: an optional `+` or `-`, ASCII digits with
/// at most one `.` and at least one digit, and an optional exponent (`e` or
/// `E`, an optional sign, at least one digit). The value is kept as an exact
/// decimal `num / 10^k`: `k` is the number of digits after the point less the
/// exponent, between 0 and 16, and `num` is the value times `10^k` rounded to
/// the nearest integer (halves up). Text whose rounded `num` does not fit
/// `i64`, and the words `inf`, `infinity` and `nan`, give `None`.
pub open spec fn spec_parse_decimal(s: Seq<char>) -> Option<Ratio> {
    let neg = s.len() > 0 && s[0] == '-';
    let d = if s.len() > 0 && (s[0] == '+' || s[0] == '-') {
        s.drop_first()
    } else {
        s
    };
    unsigned_decimal(d, neg)
}

/// `spec_parse_decimal` of unsigned text `d`, negated when `neg`.
pub open spec fn unsigned_decimal(d: Seq<char>, neg: bool) -> Option<Ratio> {
    let q = exp_mark(d);
    let ex = if q < d.len() {
        d.skip(q + 1)
    } else {
        Seq::<char>::empty()
    };
    match exponent_of(q < d.len(), ex) {
        Some(e) => mantissa_decimal(d.take(q), e, neg),
        None => None,
    }
}

/// The digits of an exponent's text `ex` (after its sign, if any).
pub open spec fn exp_digits(ex: Seq<char>) -> Seq<char> {
    if ex.len() > 0 && (ex[0] == '+' || ex[0] == '-') {
        ex.drop_first()
    } else {
        ex
    }
}

/// The exponent: 0 without one; with one, its value when it is an optional
/// sign and at least one digit.
pub open spec fn exponent_of(has_exp: bool, ex: Seq<char>) -> Option<int> {
    if !has_exp {
        Some(0)
    } else if exp_digits(ex).len() > 0 && all_digits(exp_digits(ex)) {
        Some(
            if ex.len() > 0 && ex[0] == '-' {
                -digits_value(exp_digits(ex))
            } else {
                digits_value(exp_digits(ex))
            },
        )
    } else {
        None
    }
}

/// The decimal of the mantissa text `mant` (digits with at most one `.`,
/// at least one digit) with exponent `e`.
pub open spec fn mantissa_decimal(mant: Seq<char>, e: int, neg: bool) -> Option<Ratio> {
    let p = find_char(mant, '.');
    let ip = mant.take(p);
    let fp = if p < mant.len() {
        mant.skip(p + 1)
    } else {
        Seq::<char>::empty()
    };
    if all_digits(ip) && all_digits(fp) && ip.len() + fp.len() > 0 {
        decimal_of(ip + fp, fp.len() as int, e, neg)
    } else {
        None
    }
}

/// The exact decimal kept for the digits `digits` of which the last `f` come
/// after the point, with exponent `e` and sign `neg` (see `spec_parse_decimal`).
pub open spec fn decimal_of(digits: Seq<char>, f: int, e: int, neg: bool) -> Option<Ratio> {
    let t = f - e;
    let dd: int = if t <= 0 {
        0
    } else if t <= 16 {
        t
    } else {
        16
    };
    let mag = rounded_scaled(digits, dd - t);
    if mag <= i64::MAX {
        Some(
            Ratio {
                num: (if neg {
                    -mag
                } else {
                    mag
                }) as i64,
                den: pow10(dd as nat) as u64,
            },
        )
    } else {
        None
    }
}

/// Appends a character to a string (`String::push`).
#[verifier::external_body]
pub(crate) fn push_char(s: &mut String, c: char)
    ensures
        final(s)@ == old(s)@.push(c),
{
    s.push(c);
}

/// The characters of `s`.
pub fn chars_of(s: &str) -> (v: Vec<char>)
    ensures
        v@ == s@,
{
    let mut v: Vec<char> = Vec::new();
    for c in it: s.chars()
        invariant
            v@ == it.seq().take(it.index() as int),
    {
        v.push(c);
    }
    v
}

/// The string made of `cs[a..b]`.
pub fn string_of(cs: &Vec<char>, a: usize, b: usize) -> (s: String)
    requires
        a <= b <= cs@.len(),
    ensures
        s@ == cs@.subrange(a as int, b as int),
{
    let mut s = String::new();
    let mut i = a;
    while i < b
        invariant
            a <= i <= b,
            b <= cs@.len(),
            s@ == cs@.subrange(a as int, i as int),
        decreases b - i,
    {
        push_char(&mut s, cs[i]);
        assert(s@ =~= cs@.subrange(a as int, i + 1));
        i = i + 1;
    }
    s
}

/// Start of `trim_start` of `cs[a..b]`.
pub fn trim_start_range(cs: &Vec<char>, a: usize, b: usize) -> (r: usize)
    requires
        a <= b <= cs@.len(),
    ensures
        a <= r <= b,
        cs@.subrange(r as int, b as int) == trim_start_chars(cs@.subrange(a as int, b as int)),
{
    let mut i = a;
    while i < b && is_whitespace(cs[i])
        invariant
            a <= i <= b,
            b <= cs@.len(),
            trim_start_chars(cs@.subrange(a as int, b as int)) == trim_start_chars(
                cs@.subrange(i as int, b as int),
            ),
        decreases b - i,
    {
        assert(cs@.subrange(i as int, b as int).drop_first() =~= cs@.subrange(i + 1, b as int));
        i = i + 1;
    }
    i
}

/// End of `trim_end` of `cs[a..b]`.
pub fn trim_end_range(cs: &Vec<char>, a: usize, b: usize) -> (r: usize)
    requires
        a <= b <= cs@.len(),
    ensures
        a <= r <= b,
        cs@.subrange(a as int, r as int) == trim_end_chars(cs@.subrange(a as int, b as int)),
{
    let mut j = b;
    while j > a && is_whitespace(cs[j - 1])
        invariant
            a <= j <= b,
            b <= cs@.len(),
            trim_end_chars(cs@.subrange(a as int, b as int)) == trim_end_chars(
                cs@.subrange(a as int, j as int),
            ),
        decreases j - a,
    {
        assert(cs@.subrange(a as int, j as int).drop_last() =~= cs@.subrange(a as int, j - 1));
        j = j - 1;
    }
    j
}

/// Bounds of `trim` of `cs[a..b]`.
pub fn trim_range(cs: &Vec<char>, a: usize, b: usize) -> (r: (usize, usize))
    requires
        a <= b <= cs@.len(),
    ensures
        a <= r.0 <= r.1 <= b,
        cs@.subrange(r.0 as int, r.1 as int) == trim_chars(cs@.subrange(a as int, b as int)),
{
    let s = trim_start_range(cs, a, b);
    let e = trim_end_range(cs, s, b);
    (s, e)
}

/// Position of the first `c` in `cs[a..b]` (as an index into `cs`), or `b`.
pub fn find_char_range(cs: &Vec<char>, a: usize, b: usize, c: char) -> (r: usize)
    requires
        a <= b <= cs@.len(),
    ensures
        a <= r <= b,
        r - a == find_char(cs@.subrange(a as int, b as int), c),
{
    let mut i = a;
    while i < b && cs[i] != c
        invariant
            a <= i <= b,
            b <= cs@.len(),
            find_char(cs@.subrange(a as int, b as int), c) == (i - a) + find_char(
                cs@.subrange(i as int, b as int),
                c,
            ),
        decreases b - i,
    {
        assert(cs@.subrange(i as int, b as int).drop_first() =~= cs@.subrange(i + 1, b as int));
        i = i + 1;
    }
    i
}

pub fn is_digit(c: char) -> (r: bool)
    ensures
        r == is_ascii_digit(c),
{
    '0' <= c && c <= '9'
}

pub fn lower_ascii(c: char) -> (r: char)
    ensures
        r == ascii_lower(c),
{
    if 'A' <= c && c <= 'Z' {
        ((c as u32) + 32) as u8 as char
    } else {
        c
    }
}

proof fn lemma_digits_value_push(s: Seq<char>, c: char)
    ensures
        digits_value(s.push(c)) == digits_value(s) * 10 + (c as int - 48),
{
    assert(s.push(c).drop_last() =~= s);
}

proof fn lemma_digits_value_nonneg(s: Seq<char>)
    requires
        all_digits(s),
    ensures
        digits_value(s) >= 0,
    decreases s.len(),
{
    if s.len() > 0 {
        assert(all_digits(s.drop_last()));
        lemma_digits_value_nonneg(s.drop_last());
    }
}

/// Value of the ASCII digits `cs[a..b]`, or `cap + 1` once it exceeds `cap`.
fn digits_value_capped(cs: &Vec<char>, a: usize, b: usize, cap: u128) -> (r: u128)
    requires
        a <= b <= cs@.len(),
        all_digits(cs@.subrange(a as int, b as int)),
        cap < u128::MAX / 16,
    ensures
        digits_value(cs@.subrange(a as int, b as int)) <= cap ==> r == digits_value(
            cs@.subrange(a as int, b as int),
        ),
        digits_value(cs@.subrange(a as int, b as int)) > cap ==> r == cap + 1,
{
    let mut v: u128 = 0;
    let mut i = a;
    while i < b
        invariant
            a <= i <= b,
            b <= cs@.len(),
            all_digits(cs@.subrange(a as int, b as int)),
            cap < u128::MAX / 16,
            digits_value(cs@.subrange(a as int, i as int)) <= cap ==> v == digits_value(
                cs@.subrange(a as int, i as int),
            ),
            digits_value(cs@.subrange(a as int, i as int)) > cap ==> v == cap + 1,
        decreases b - i,
    {
        let ghost prev = cs@.subrange(a as int, i as int);
        let c = cs[i];
        assert(cs@.subrange(a as int, b as int)[i - a] == c);
        assert(is_ascii_digit(c));
        let d = (c as u32 - 48) as u128;
        proof {
            assert(cs@.subrange(a as int, i + 1) =~= prev.push(c));
            lemma_digits_value_push(prev, c);
            assert(all_digits(prev));
            lemma_digits_value_nonneg(prev);
        }
        if v > cap {
            v = cap + 1;
        } else {
            let nv = v * 10 + d;
            if nv > cap {
                v = cap + 1;
            } else {
                v = nv;
            }
        }
        i = i + 1;
    }
    v
}

/// `str::parse` of `cs[a..b]` for an unsigned type whose largest value is `max`.
pub fn parse_uint_range(cs: &Vec<char>, a: usize, b: usize, max: u64) -> (r: Option<u64>)
    requires
        a <= b <= cs@.len(),
    ensures
        r matches Some(v) ==> spec_parse_uint(cs@.subrange(a as int, b as int), max as int) == Some(v as int),
        r is None ==> spec_parse_uint(cs@.subrange(a as int, b as int), max as int) is None,
{
    let ghost s = cs@.subrange(a as int, b as int);
    let start = if a < b && cs[a] == '+' {
        a + 1
    } else {
        a
    };
    assert(cs@.subrange(start as int, b as int) =~= (if s.len() > 0 && s[0] == '+' {
        s.drop_first()
    } else {
        s
    }));
    if start >= b {
        return None;
    }
    let mut i = start;
    while i < b
        invariant
            start <= i <= b,
            b <= cs@.len(),
            s == cs@.subrange(a as int, b as int),
            cs@.subrange(start as int, b as int) == (if s.len() > 0 && s[0] == '+' {
                s.drop_first()
            } else {
                s
            }),
            all_digits(cs@.subrange(start as int, i as int)),
        decreases b - i,
    {
        if !is_digit(cs[i]) {
            assert(cs@.subrange(start as int, b as int)[i - start] == cs@[i as int]);
            assert(!all_digits(cs@.subrange(start as int, b as int)));
            return None;
        }
        assert(cs@.subrange(start as int, i + 1) =~= cs@.subrange(start as int, i as int).push(cs@[i as int]));
        i = i + 1;
    }
    let v = digits_value_capped(cs, start, b, max as u128);
    if v > max as u128 {
        None
    } else {
        Some(v as u64)
    }
}

/// `str::parse::<i32>` of `cs[a..b]`.
pub fn parse_i32_range(cs: &Vec<char>, a: usize, b: usize) -> (r: Option<i32>)
    requires
        a <= b <= cs@.len(),
    ensures
        r matches Some(v) ==> spec_parse_i32(cs@.subrange(a as int, b as int)) == Some(v as int),
        r is None ==> spec_parse_i32(cs@.subrange(a as int, b as int)) is None,
{
    let ghost s = cs@.subrange(a as int, b as int);
    let neg = a < b && cs[a] == '-';
    let start = if a < b && (cs[a] == '+' || cs[a] == '-') {
        a + 1
    } else {
        a
    };
    assert(cs@.subrange(start as int, b as int) =~= (if s.len() > 0 && (s[0] == '+' || s[0] == '-') {
        s.drop_first()
    } else {
        s
    }));
    if start >= b {
        return None;
    }
    let mut i = start;
    while i < b
        invariant
            start <= i <= b,
            b <= cs@.len(),
            s == cs@.subrange(a as int, b as int),
            cs@.subrange(start as int, b as int) == (if s.len() > 0 && (s[0] == '+' || s[0] == '-') {
                s.drop_first()
            } else {
                s
            }),
            all_digits(cs@.subrange(start as int, i as int)),
        decreases b - i,
    {
        if !is_digit(cs[i]) {
            assert(cs@.subrange(start as int, b as int)[i - start] == cs@[i as int]);
            assert(!all_digits(cs@.subrange(start as int, b as int)));
            return None;
        }
        assert(cs@.subrange(start as int, i + 1) =~= cs@.subrange(start as int, i as int).push(cs@[i as int]));
        i = i + 1;
    }
    let v = digits_value_capped(cs, start, b, 0x8000_0000);
    if neg {
        if v > 0x8000_0000 {
            None
        } else {
            Some((0i64 - v as i64) as i32)
        }
    } else {
        if v > 0x7fff_ffff {
            None
        } else {
            Some(v as i32)
        }
    }
}

proof fn lemma_pow10_pos(n: nat)
    ensures
        pow10(n) >= 1,
    decreases n,
{
    if n > 0 {
        lemma_pow10_pos((n - 1) as nat);
    }
}

proof fn lemma_digits_value_concat(s: Seq<char>, t: Seq<char>)
    ensures
        digits_value(s + t) == digits_value(s) * pow10(t.len()) + digits_value(t),
    decreases t.len(),
{
    if t.len() == 0 {
        assert(s + t =~= s);
    } else {
        lemma_digits_value_concat(s, t.drop_last());
        assert((s + t).drop_last() =~= s + t.drop_last());
        assert((s + t).last() == t.last());
        assert(digits_value(s) * pow10(t.len()) == digits_value(s) * pow10(
            (t.len() - 1) as nat,
        ) * 10) by (nonlinear_arith)
            requires pow10(t.len()) == 10 * pow10((t.len() - 1) as nat);
    }
}

/// Whether `cs[a..b]` is all ASCII digits.
fn check_digits(cs: &Vec<char>, a: usize, b: usize) -> (r: bool)
    requires
        a <= b <= cs@.len(),
    ensures
        r == all_digits(cs@.subrange(a as int, b as int)),
{
    let mut i = a;
    while i < b
        invariant
            a <= i <= b <= cs@.len(),
            all_digits(cs@.subrange(a as int, i as int)),
        decreases b - i,
    {
        if !is_digit(cs[i]) {
            assert(cs@.subrange(a as int, b as int)[i - a] == cs@[i as int]);
            return false;
        }
        assert(cs@.subrange(a as int, i + 1) =~= cs@.subrange(a as int, i as int).push(cs@[i as int]));
        i = i + 1;
    }
    true
}

proof fn lemma_pow10_18()
    ensures
        pow10(16) == 10000000000000000,
        pow10(18) == 1000000000000000000,
        pow10(19) == 10000000000000000000,
{
    reveal_with_fuel(pow10, 20);
}

/// `10^k`.
fn pow10_u64(k: usize) -> (r: u64)
    requires
        k <= 18,
    ensures
        r == pow10(k as nat),
{
    let mut v: u64 = 1;
    let mut i: usize = 0;
    while i < k
        invariant
            i <= k <= 18,
            v == pow10(i as nat),
        decreases k - i,
    {
        proof {
            lemma_pow10_18();
            lemma_pow10_mono((i + 1) as nat, 18);
            assert(pow10((i + 1) as nat) == 10 * pow10(i as nat));
        }
        v = v * 10;
        i = i + 1;
    }
    v
}

/// `rounded_scaled(digits, shift)` when it fits `i64`.
fn rounded_scaled_exec(digits: &Vec<char>, shift: i128) -> (r: Option<u64>)
    requires
        all_digits(digits@),
        -0x4000_0000_0000_0000_0000_0000_0000 < shift < 0x4000_0000_0000_0000_0000_0000_0000,
    ensures
        rounded_scaled(digits@, shift as int) >= 0,
        r == (if rounded_scaled(digits@, shift as int) <= i64::MAX {
            Some(rounded_scaled(digits@, shift as int) as u64)
        } else {
            None
        }),
{
    let cap: u128 = 0x7fff_ffff_ffff_ffff;
    let len = digits.len();
    assert(digits@.subrange(0, len as int) =~= digits@);
    proof {
        lemma_digits_value_nonneg(digits@);
    }
    if shift >= 0 {
        let m = digits_value_capped(digits, 0, len, cap);
        proof {
            lemma_pow10_pos(shift as nat);
            assert(digits_value(digits@) * pow10(shift as nat) >= digits_value(digits@)) by (nonlinear_arith)
                requires digits_value(digits@) >= 0, pow10(shift as nat) >= 1;
        }
        if m > cap {
            return None;
        }
        if m == 0 {
            assert(digits_value(digits@) * pow10(shift as nat) == 0) by (nonlinear_arith)
                requires digits_value(digits@) == 0;
            return Some(0);
        }
        if shift > 18 {
            proof {
                lemma_pow10_18();
                lemma_pow10_mono(19, shift as nat);
                assert(digits_value(digits@) * pow10(shift as nat) >= pow10(shift as nat)) by (nonlinear_arith)
                    requires digits_value(digits@) >= 1, pow10(shift as nat) >= 1;
            }
            return None;
        }
        let pw = pow10_u64(shift as usize);
        proof {
            lemma_pow10_18();
            lemma_pow10_mono(shift as nat, 18);
        }
        assert(m * pw as u128 <= 0x7fff_ffff_ffff_ffff * 1000000000000000000) by (nonlinear_arith)
            requires m <= 0x7fff_ffff_ffff_ffff, pw <= 1000000000000000000;
        let prod = m * pw as u128;
        if prod > cap {
            return None;
        }
        return Some(prod as u64);
    }
    let n = len as i128 + shift;
    if n < 0 {
        return Some(0);
    }
    let nu = n as usize;
    assert(digits@.subrange(0, nu as int) =~= digits@.take(nu as int));
    assert(all_digits(digits@.subrange(0, nu as int)));
    let dv = digits_value_capped(digits, 0, nu, cap);
    proof {
        lemma_digits_value_nonneg(digits@.take(nu as int));
    }
    if dv > cap {
        return None;
    }
    let bit: u128 = if digits[nu] >= '5' {
        1
    } else {
        0
    };
    let mag = dv + bit;
    if mag > cap {
        return None;
    }
    Some(mag as u64)
}

/// Decimal-number parsing of `cs[a..b]` (see `spec_parse_decimal`).
pub fn parse_decimal_range(cs: &Vec<char>, a: usize, b: usize) -> (r: Option<Ratio>)
    requires
        a <= b <= cs@.len(),
    ensures
        r == spec_parse_decimal(cs@.subrange(a as int, b as int)),
        r matches Some(v) ==> decimal_den_ok(v),
{
    let ghost s = cs@.subrange(a as int, b as int);
    let neg = a < b && cs[a] == '-';
    let start = if a < b && (cs[a] == '+' || cs[a] == '-') {
        a + 1
    } else {
        a
    };
    assert(cs@.subrange(start as int, b as int) =~= (if s.len() > 0 && (s[0] == '+' || s[0] == '-') {
        s.drop_first()
    } else {
        s
    }));
    unsigned_range(cs, start, b, neg)
}

/// `unsigned_decimal` of `cs[a..b]`.
fn unsigned_range(cs: &Vec<char>, a: usize, b: usize, neg: bool) -> (r: Option<Ratio>)
    requires
        a <= b <= cs@.len(),
    ensures
        r == unsigned_decimal(cs@.subrange(a as int, b as int), neg),
        r matches Some(v) ==> decimal_den_ok(v),
{
    let ghost d = cs@.subrange(a as int, b as int);
    let qe = find_char_range(cs, a, b, 'e');
    let qu = find_char_range(cs, a, b, 'E');
    let q = if qe <= qu {
        qe
    } else {
        qu
    };
    assert(q - a == exp_mark(d));
    assert(d.take(q - a) =~= cs@.subrange(a as int, q as int));
    let has_exp = q < b;
    let es = if has_exp {
        q + 1
    } else {
        b
    };
    let ghost ex = if q - a < d.len() {
        d.skip(q - a + 1)
    } else {
        Seq::<char>::empty()
    };
    assert(ex =~= cs@.subrange(es as int, b as int));
    let eneg = es < b && cs[es] == '-';
    let edstart = if es < b && (cs[es] == '+' || cs[es] == '-') {
        es + 1
    } else {
        es
    };
    assert(exp_digits(ex) =~= cs@.subrange(edstart as int, b as int));
    if has_exp && (edstart == b || !check_digits(cs, edstart, b)) {
        return None;
    }
    let ecap: u128 = 0x100_0000_0000_0000_0000_0000_0000;
    let ev = digits_value_capped(cs, edstart, b, ecap);
    proof {
        lemma_digits_value_nonneg(exp_digits(ex));
    }
    mantissa_range(cs, a, q, ev, Ghost(digits_value(exp_digits(ex))), eneg, neg)
}

/// `mantissa_decimal` of `cs[a..q]` with an exponent of magnitude `e_abs`
/// (read as `ev`, capped above `2^100`), negative when `eneg`.
fn mantissa_range(cs: &Vec<char>, a: usize, q: usize, ev: u128, Ghost(e_abs): Ghost<int>, eneg: bool, neg: bool) -> (r: Option<Ratio>)
    requires
        a <= q <= cs@.len(),
        e_abs >= 0,
        e_abs <= 0x100_0000_0000_0000_0000_0000_0000 ==> ev == e_abs,
        e_abs > 0x100_0000_0000_0000_0000_0000_0000 ==> ev == 0x100_0000_0000_0000_0000_0000_0001,
    ensures
        r == mantissa_decimal(cs@.subrange(a as int, q as int), if eneg { -e_abs } else { e_abs }, neg),
        r matches Some(v) ==> decimal_den_ok(v),
{
    let ghost mant = cs@.subrange(a as int, q as int);
    let p = find_char_range(cs, a, q, '.');
    let fstart = if p < q {
        p + 1
    } else {
        q
    };
    let ghost ip = mant.take(p - a);
    let ghost fp = if p < q {
        mant.skip(p - a + 1)
    } else {
        Seq::<char>::empty()
    };
    assert(ip =~= cs@.subrange(a as int, p as int));
    assert(fp =~= cs@.subrange(fstart as int, q as int));
    if (p - a) + (q - fstart) == 0 {
        return None;
    }
    if !check_digits(cs, a, p) || !check_digits(cs, fstart, q) {
        return None;
    }
    let mut digs: Vec<char> = Vec::new();
    let mut i = a;
    while i < p
        invariant
            a <= i <= p <= q <= cs@.len(),
            digs@ == cs@.subrange(a as int, i as int),
        decreases p - i,
    {
        digs.push(cs[i]);
        assert(digs@ =~= cs@.subrange(a as int, i + 1));
        i = i + 1;
    }
    let mut j = fstart;
    while j < q
        invariant
            fstart <= j <= q <= cs@.len(),
            digs@ == ip + cs@.subrange(fstart as int, j as int),
        decreases q - j,
    {
        digs.push(cs[j]);
        assert(digs@ =~= ip + cs@.subrange(fstart as int, j + 1));
        j = j + 1;
    }
    assert(digs@ =~= ip + fp);
    assert(all_digits(digs@));
    decimal_value(&digs, q - fstart, ev, Ghost(e_abs), eneg, neg)
}

/// `decimal_of` for the digits `digs`, `nf` of them after the point, and an
/// exponent of magnitude `e_abs` read as `ev` (capped above `2^100`).
#[verifier::rlimit(40)]
fn decimal_value(digs: &Vec<char>, nf: usize, ev: u128, Ghost(e_abs): Ghost<int>, eneg: bool, neg: bool) -> (r: Option<Ratio>)
    requires
        all_digits(digs@),
        nf <= digs@.len(),
        e_abs >= 0,
        e_abs <= 0x100_0000_0000_0000_0000_0000_0000 ==> ev == e_abs,
        e_abs > 0x100_0000_0000_0000_0000_0000_0000 ==> ev == 0x100_0000_0000_0000_0000_0000_0001,
    ensures
        r == decimal_of(digs@, nf as int, if eneg { -e_abs } else { e_abs }, neg),
        r matches Some(v) ==> decimal_den_ok(v),
{
    let ecap: u128 = 0x100_0000_0000_0000_0000_0000_0000;
    let ghost e = if eneg { -e_abs } else { e_abs };
    let ghost t = nf - e;
    let ghost dd: int = if t <= 0 { 0 } else if t <= 16 { t } else { 16 };
    proof {
        lemma_digits_value_nonneg(digs@);
        lemma_pow10_18();
    }
    if ev > ecap {
        if !eneg {
            assert(dd == 0);
            let cap: u128 = 0x7fff_ffff_ffff_ffff;
            let m = digits_value_capped(digs, 0, digs.len(), cap);
            assert(digs@.subrange(0, digs@.len() as int) =~= digs@);
            let ghost sh = (dd - t) as nat;
            if m == 0 {
                assert(digits_value(digs@) * pow10(sh) == 0) by (nonlinear_arith)
                    requires digits_value(digs@) == 0;
                return Some(Ratio { num: 0, den: 1 });
            }
            proof {
                lemma_pow10_mono(19, sh);
                lemma_pow10_pos(sh);
                assert(digits_value(digs@) * pow10(sh) >= pow10(sh)) by (nonlinear_arith)
                    requires digits_value(digs@) >= 1, pow10(sh) >= 1;
            }
            return None;
        } else {
            assert(dd == 16);
            assert(digs@.len() == digs.len());
            assert(digs@.len() + (dd - t) < 0);
            assert(rounded_scaled(digs@, dd - t) == 0);
            return Some(Ratio { num: 0, den: 10000000000000000 });
        }
    }
    let ei: i128 = if eneg {
        -(ev as i128)
    } else {
        ev as i128
    };
    let ti: i128 = nf as i128 - ei;
    let di: i128 = if ti <= 0 {
        0
    } else if ti <= 16 {
        ti
    } else {
        16
    };
    assert(di == dd);
    assert(nf == nf as int && nf <= usize::MAX);
    let mag = match rounded_scaled_exec(digs, di - ti) {
        Some(m) => m,
        None => return None,
    };
    let den = pow10_u64(di as usize);
    proof {
        lemma_pow10_16(di as nat);
        lemma_pow10_pos(di as nat);
    }
    let num: i64 = if neg {
        -(mag as i64)
    } else {
        mag as i64
    };
    Some(Ratio { num, den })
}

proof fn lemma_pow10_mono(k1: nat, k2: nat)
    requires
        k1 <= k2,
    ensures
        pow10(k1) <= pow10(k2),
    decreases k2,
{
    if k1 < k2 {
        lemma_pow10_mono(k1, (k2 - 1) as nat);
        lemma_pow10_pos((k2 - 1) as nat);
    }
}

proof fn lemma_pow10_16(k: nat)
    requires
        k <= 16,
    ensures
        pow10(k) <= 10000000000000000,
{
    reveal_with_fuel(pow10, 17);
    assert(pow10(16) == 10000000000000000);
    lemma_pow10_mono(k, 16);
}

/// `cs[a..b]` equals `lit` ignoring ASCII case (`str::eq_ignore_ascii_case`).
pub fn eq_ci_range(cs: &Vec<char>, a: usize, b: usize, lit: &[char]) -> (r: bool)
    requires
        a <= b <= cs@.len(),
    ensures
        r == eq_ci(cs@.subrange(a as int, b as int), lit@),
{
    if b - a != lit.len() {
        return false;
    }
    let mut i: usize = 0;
    while i < lit.len()
        invariant
            i <= lit@.len(),
            b - a == lit@.len(),
            b <= cs@.len(),
            forall|k: int| 0 <= k < i ==> ascii_lower(#[trigger] cs@.subrange(a as int, b as int)[k]) == ascii_lower(lit@[k]),
        decreases lit@.len() - i,
    {
        if lower_ascii(cs[a + i]) != lower_ascii(lit[i]) {
            assert(cs@.subrange(a as int, b as int)[i as int] == cs@[a + i]);
            return false;
        }
        i = i + 1;
    }
    true
}

/// UTF-8 encoding of one character.
pub fn encode_char(c: char) -> (r: Vec<u8>)
    ensures
        r@ == encode_scalar(c as u32),
        r@.len() == utf8_len(c),
{
    let v = c as u32;
    let mut r: Vec<u8> = Vec::new();
    proof {
        char_is_scalar(c);
    }
    if v <= 0x7f {
        r.push((v & 0x7f) as u8);
    } else if v <= 0x7ff {
        r.push(0xc0u8 | ((v >> 6u32) & 0x1f) as u8);
        r.push(0x80u8 | (v & 0x3f) as u8);
    } else if v <= 0xffff {
        r.push(0xe0u8 | ((v >> 12u32) & 0x0f) as u8);
        r.push(0x80u8 | ((v >> 6u32) & 0x3f) as u8);
        r.push(0x80u8 | (v & 0x3f) as u8);
    } else {
        r.push(0xf0u8 | ((v >> 18u32) & 0x7) as u8);
        r.push(0x80u8 | ((v >> 12u32) & 0x3f) as u8);
        r.push(0x80u8 | ((v >> 6u32) & 0x3f) as u8);
        r.push(0x80u8 | (v & 0x3f) as u8);
    }
    assert(r@ =~= encode_scalar(c as u32));
    r
}

proof fn lemma_encode_utf8_push(s: Seq<char>, c: char)
    ensures
        encode_utf8(s.push(c)) == encode_utf8(s) + encode_scalar(c as u32),
    decreases s.len(),
{
    if s.len() == 0 {
        assert(s.push(c).drop_first() =~= Seq::<char>::empty());
        assert(encode_utf8(Seq::<char>::empty()) =~= Seq::<u8>::empty());
        assert(encode_utf8(s.push(c)) =~= encode_scalar(c as u32));
        assert(encode_utf8(s) =~= Seq::<u8>::empty());
    } else {
        lemma_encode_utf8_push(s.drop_first(), c);
        assert(s.push(c).drop_first() =~= s.drop_first().push(c));
        assert(encode_utf8(s.push(c)) =~= encode_scalar(s[0] as u32) + encode_utf8(s.drop_first().push(c)));
    }
}

/// UTF-8 bytes of `cs[a..b]`.
pub fn encode_range(cs: &Vec<char>, a: usize, b: usize) -> (r: Vec<u8>)
    requires
        a <= b <= cs@.len(),
    ensures
        r@ == encode_utf8(cs@.subrange(a as int, b as int)),
{
    let mut out: Vec<u8> = Vec::new();
    let mut i = a;
    assert(encode_utf8(cs@.subrange(a as int, a as int)) =~= Seq::<u8>::empty()) by {
        assert(cs@.subrange(a as int, a as int).len() == 0);
    }
    while i < b
        invariant
            a <= i <= b,
            b <= cs@.len(),
            out@ == encode_utf8(cs@.subrange(a as int, i as int)),
        decreases b - i,
    {
        let e = encode_char(cs[i]);
        proof {
            assert(cs@.subrange(a as int, i + 1) =~= cs@.subrange(a as int, i as int).push(cs@[i as int]));
            lemma_encode_utf8_push(cs@.subrange(a as int, i as int), cs@[i as int]);
        }
        let mut k: usize = 0;
        let ghost base = out@;
        while k < e.len()
            invariant
                k <= e@.len(),
                out@ == base + e@.take(k as int),
            decreases e@.len() - k,
        {
            out.push(e[k]);
            assert(out@ =~= base + e@.take(k + 1));
            k = k + 1;
        }
        assert(e@.take(e@.len() as int) =~= e@);
        i = i + 1;
    }
    out
}

} // verus!
