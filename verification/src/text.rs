//! Character and string helpers shared by the parsers and exporters.
use vstd::prelude::*;

verus! {

pub assume_specification[ String::push ](string: &mut String, ch: char)
    ensures
        final(string)@ == old(string)@.push(ch),
;

pub assume_specification[ <str as PartialEq>::eq ](s: &str, other: &str) -> (res: bool)
    ensures
        res == (s@ == other@),
;

/// `a` and `b` hold the same characters.
pub fn str_eq(a: &str, b: &str) -> (r: bool)
    ensures
        r == (a@ == b@),
{
    *a == *b
}

/// The ASCII digit for a value below ten.
pub open spec fn digit_char(d: nat) -> char {
    if d == 0 { '0' } else if d == 1 { '1' } else if d == 2 { '2' } else if d == 3 { '3' }
    else if d == 4 { '4' } else if d == 5 { '5' } else if d == 6 { '6' } else if d == 7 { '7' }
    else if d == 8 { '8' } else { '9' }
}

/// Decimal rendering of a natural number, most significant digit first,
/// without leading zeros ("0" for zero).
pub open spec fn decimal(n: nat) -> Seq<char>
    decreases n,
{
    if n < 10 {
        seq![digit_char(n)]
    } else {
        decimal(n / 10).push(digit_char(n % 10))
    }
}

fn digit_to_char(d: u64) -> (c: char)
    requires
        d < 10,
    ensures
        c == digit_char(d as nat),
{
    if d == 0 { '0' } else if d == 1 { '1' } else if d == 2 { '2' } else if d == 3 { '3' }
    else if d == 4 { '4' } else if d == 5 { '5' } else if d == 6 { '6' } else if d == 7 { '7' }
    else if d == 8 { '8' } else { '9' }
}

/// Appends the decimal rendering of `n` to `out`.
pub fn push_decimal(out: &mut String, n: u64)
    ensures
        final(out)@ == old(out)@ + decimal(n as nat),
    decreases n,
{
    if n < 10 {
        out.push(digit_to_char(n));
    } else {
        push_decimal(out, n / 10);
        out.push(digit_to_char(n % 10));
    }
}

/// `n` copies of `c`.
pub open spec fn repeat_char(c: char, n: nat) -> Seq<char>
    decreases n,
{
    if n == 0 { Seq::empty() } else { repeat_char(c, (n - 1) as nat).push(c) }
}

/// Appends `n` copies of `c` to `out`.
pub fn push_repeat(out: &mut String, c: char, n: usize)
    ensures
        final(out)@ == old(out)@ + repeat_char(c, n as nat),
{
    let mut i: usize = 0;
    while i < n
        invariant
            i <= n,
            out@ == old(out)@ + repeat_char(c, i as nat),
        decreases n - i,
    {
        out.push(c);
        i = i + 1;
        assert(repeat_char(c, i as nat) == repeat_char(c, (i - 1) as nat).push(c));
    }
}

/// The parts joined with `sep` between consecutive parts.
pub open spec fn join(parts: Seq<Seq<char>>, sep: Seq<char>) -> Seq<char>
    decreases parts.len(),
{
    if parts.len() == 0 {
        Seq::empty()
    } else if parts.len() == 1 {
        parts[0]
    } else {
        join(parts.drop_last(), sep) + sep + parts.last()
    }
}

/// The strings of `v` as character sequences.
pub open spec fn string_views(v: Seq<String>) -> Seq<Seq<char>> {
    Seq::new(v.len(), |i: int| v[i]@)
}

/// `parts` joined with `sep`, as `slice::join` does.
pub fn join_strings(parts: &Vec<String>, sep: &str) -> (r: String)
    ensures
        r@ == join(string_views(parts@), sep@),
{
    let mut out = String::new();
    let mut i: usize = 0;
    while i < parts.len()
        invariant
            i <= parts@.len(),
            out@ == join(string_views(parts@).take(i as int), sep@),
        decreases parts.len() - i,
    {
        let ghost before = string_views(parts@).take(i as int);
        let ghost after = string_views(parts@).take(i + 1 as int);
        assert(after.drop_last() == before);
        if i > 0 {
            out.append(sep);
        }
        out.append(parts[i].as_str());
        i = i + 1;
    }
    assert(string_views(parts@).take(parts.len() as int) == string_views(parts@));
    out
}

/// Unicode `White_Space` characters, the set `char::is_whitespace` tests.
pub open spec fn is_space(c: char) -> bool {
    ||| ('\u{9}' <= c && c <= '\u{d}')
    ||| c == ' '
    ||| c == '\u{85}'
    ||| c == '\u{a0}'
    ||| c == '\u{1680}'
    ||| ('\u{2000}' <= c && c <= '\u{200a}')
    ||| c == '\u{2028}'
    ||| c == '\u{2029}'
    ||| c == '\u{202f}'
    ||| c == '\u{205f}'
    ||| c == '\u{3000}'
}

pub fn char_is_space(c: char) -> (b: bool)
    ensures
        b == is_space(c),
{
    ('\u{9}' <= c && c <= '\u{d}') || c == ' ' || c == '\u{85}' || c == '\u{a0}' || c == '\u{1680}'
        || ('\u{2000}' <= c && c <= '\u{200a}') || c == '\u{2028}' || c == '\u{2029}'
        || c == '\u{202f}' || c == '\u{205f}' || c == '\u{3000}'
}

/// The characters of `s`, in order.
pub fn chars_of(s: &str) -> (v: Vec<char>)
    ensures
        v@ == s@,
{
    let mut v: Vec<char> = Vec::new();
    for c in it: s.chars()
        invariant
            v@ == it.seq().take(it.index() as int),
            it.seq() == s@,
    {
        v.push(c);
    }
    v
}

/// A new string holding exactly the characters of `v`.
pub fn string_from_chars(v: &[char]) -> (s: String)
    ensures
        s@ == v@,
{
    let mut s = String::new();
    let mut i: usize = 0;
    while i < v.len()
        invariant
            i <= v.len(),
            s@ == v@.take(i as int),
        decreases v.len() - i,
    {
        s.push(v[i]);
        i = i + 1;
        assert(v@.take(i as int) == v@.take(i - 1 as int).push(v@[i - 1]));
    }
    assert(v@.take(v.len() as int) == v@);
    s
}


/// The value of the ASCII digit `c`.
pub open spec fn digit_value(c: char) -> int {
    c as int - '0' as int
}

pub open spec fn is_digit(c: char) -> bool {
    '0' <= c && c <= '9'
}

/// The number a string of decimal digits denotes.
pub open spec fn digits_value(s: Seq<char>) -> int
    decreases s.len(),
{
    if s.len() == 0 { 0 } else { digits_value(s.drop_last()) * 10 + digit_value(s.last()) }
}

pub open spec fn all_digits(s: Seq<char>) -> bool {
    forall|i: int| 0 <= i < s.len() ==> is_digit(#[trigger] s[i])
}

/// `s` read as an unsigned decimal number (an optional `+`, then at least
/// one digit and nothing else) no larger than `max`, as the standard
/// library's integer `from_str` reads it.
pub open spec fn parse_unsigned(s: Seq<char>, max: int) -> Option<int> {
    let d = if s.len() > 0 && s[0] == '+' { s.drop_first() } else { s };
    if d.len() > 0 && all_digits(d) && digits_value(d) <= max { Some(digits_value(d)) } else { None }
}

/// `s` read as a signed decimal number (an optional `+` or `-`, then at
/// least one digit) within `[min, max]`.
pub open spec fn parse_signed(s: Seq<char>, min: int, max: int) -> Option<int> {
    if s.len() > 0 && s[0] == '-' {
        let d = s.drop_first();
        if d.len() > 0 && all_digits(d) && -digits_value(d) >= min { Some(-digits_value(d)) } else { None }
    } else {
        parse_unsigned(s, max)
    }
}

proof fn lemma_digits_value_nonneg(s: Seq<char>)
    requires
        all_digits(s),
    ensures
        digits_value(s) >= 0,
    decreases s.len(),
{
    if s.len() > 0 {
        assert(all_digits(s.drop_last())) by {
            assert forall|i: int| 0 <= i < s.drop_last().len() implies is_digit(#[trigger] s.drop_last()[i]) by {
                assert(s.drop_last()[i] == s[i]);
            }
        }
        lemma_digits_value_nonneg(s.drop_last());
        assert(is_digit(s[s.len() - 1]));
    }
}

proof fn lemma_digits_value_mono(s: Seq<char>, k: int)
    requires
        all_digits(s),
        0 <= k <= s.len(),
    ensures
        digits_value(s.take(k)) <= digits_value(s),
    decreases s.len() - k,
{
    if k < s.len() {
        lemma_digits_value_mono(s, k + 1);
        assert(s.take(k + 1).drop_last() =~= s.take(k));
        assert(is_digit(s.take(k + 1).last()));
        assert(all_digits(s.take(k))) by {
            assert forall|i: int| 0 <= i < s.take(k).len() implies is_digit(#[trigger] s.take(k)[i]) by {
                assert(s.take(k)[i] == s[i]);
            }
        }
        lemma_digits_value_nonneg(s.take(k));
        assert(digits_value(s.take(k)) <= digits_value(s.take(k)) * 10) by (nonlinear_arith)
            requires digits_value(s.take(k)) >= 0;
    } else {
        assert(s.take(k) =~= s);
    }
}

/// The digits of `c` read as a number no larger than `max`, or none when
/// they are empty, hold another character or exceed `max`.
fn digits_at_most(c: &Vec<char>, start: usize, max: u64) -> (r: Option<u64>)
    requires
        start <= c@.len(),
    ensures
        match r {
            Some(v) => c@.len() > start && all_digits(c@.skip(start as int)) && digits_value(c@.skip(start as int)) <= max
                && v == digits_value(c@.skip(start as int)),
            None => !(c@.len() > start && all_digits(c@.skip(start as int)) && digits_value(c@.skip(start as int)) <= max),
        },
{
    let ghost d = c@.skip(start as int);
    if start == c.len() {
        return None;
    }
    let mut v: u64 = 0;
    let mut i: usize = start;
    while i < c.len()
        invariant
            start <= i <= c@.len(),
            d == c@.skip(start as int),
            all_digits(d.take(i - start)),
            v == digits_value(d.take(i - start)),
            v <= max,
        decreases c.len() - i,
    {
        let ch = c[i];
        assert(d[i - start] == ch);
        if ch < '0' || ch > '9' {
            assert(!all_digits(d));
            return None;
        }
        let dv: u64 = (ch as u32 - '0' as u32) as u64;
        assert(d.take(i - start + 1).drop_last() =~= d.take(i - start));
        assert(d.take(i - start + 1).last() == ch);
        if dv > max || v > (max - dv) / 10 {
            proof {
                assert(v * 10 + dv > max) by (nonlinear_arith)
                    requires dv > max || v > (max - dv) / 10, v >= 0, dv >= 0;
                assert(digits_value(d.take(i - start + 1)) > max);
                if all_digits(d) {
                    lemma_digits_value_mono(d, i - start + 1);
                }
            }
            return None;
        }
        proof {
            assert(v * 10 + dv <= max) by (nonlinear_arith)
                requires v <= (max - dv) / 10, dv <= 9, v >= 0;
        }
        v = v * 10 + dv;
        i = i + 1;
        assert(all_digits(d.take(i - start))) by {
            assert forall|k: int| 0 <= k < d.take(i - start).len() implies is_digit(#[trigger] d.take(i - start)[k]) by {
                if k < i - start - 1 {
                    assert(d.take(i - start)[k] == d.take(i - start - 1)[k]);
                }
            }
        }
    }
    assert(d.take(i - start) =~= d);
    Some(v)
}

/// The standard library's unsigned `from_str` bounded by `max`.
pub fn parse_unsigned_max(s: &str, max: u64) -> (r: Option<u64>)
    ensures
        match r {
            Some(v) => parse_unsigned(s@, max as int) == Some(v as int),
            None => parse_unsigned(s@, max as int) is None,
        },
{
    let c = chars_of(s);
    let start: usize = if c.len() > 0 && c[0] == '+' { 1 } else { 0 };
    assert(c@.skip(start as int) =~= (if s@.len() > 0 && s@[0] == '+' { s@.drop_first() } else { s@ }));
    digits_at_most(&c, start, max)
}

pub fn parse_u8(s: &str) -> (r: Option<u8>)
    ensures
        match r {
            Some(v) => parse_unsigned(s@, u8::MAX as int) == Some(v as int),
            None => parse_unsigned(s@, u8::MAX as int) is None,
        },
{
    match parse_unsigned_max(s, u8::MAX as u64) {
        Some(v) => Some(v as u8),
        None => None,
    }
}

pub fn parse_u16(s: &str) -> (r: Option<u16>)
    ensures
        match r {
            Some(v) => parse_unsigned(s@, u16::MAX as int) == Some(v as int),
            None => parse_unsigned(s@, u16::MAX as int) is None,
        },
{
    match parse_unsigned_max(s, u16::MAX as u64) {
        Some(v) => Some(v as u16),
        None => None,
    }
}

pub fn parse_u32(s: &str) -> (r: Option<u32>)
    ensures
        match r {
            Some(v) => parse_unsigned(s@, u32::MAX as int) == Some(v as int),
            None => parse_unsigned(s@, u32::MAX as int) is None,
        },
{
    match parse_unsigned_max(s, u32::MAX as u64) {
        Some(v) => Some(v as u32),
        None => None,
    }
}

/// An `i64` read by `from_str`, kept when it fits a `u32`.
pub open spec fn parse_i64_as_u32(s: Seq<char>) -> Option<u32> {
    match parse_signed(s, i64::MIN as int, i64::MAX as int) {
        Some(v) => if 0 <= v <= u32::MAX { Some(v as u32) } else { None },
        None => None,
    }
}

pub fn parse_i64_u32(s: &str) -> (r: Option<u32>)
    ensures
        r == parse_i64_as_u32(s@),
{
    let c = chars_of(s);
    if c.len() > 0 && c[0] == '-' {
        assert(c@.skip(1) =~= s@.drop_first());
        match digits_at_most(&c, 1, 0x8000_0000_0000_0000u64) {
            Some(m) => if m == 0 { Some(0) } else { None },
            None => None,
        }
    } else {
        let start: usize = if c.len() > 0 && c[0] == '+' { 1 } else { 0 };
        assert(c@.skip(start as int) =~= (if s@.len() > 0 && s@[0] == '+' { s@.drop_first() } else { s@ }));
        match digits_at_most(&c, start, i64::MAX as u64) {
            Some(v) => if v <= u32::MAX as u64 { Some(v as u32) } else { None },
            None => None,
        }
    }
}
/// Whether `p` occurs in `c` at position `at`.
pub fn starts_with_at(c: &Vec<char>, at: usize, p: &Vec<char>) -> (b: bool)
    requires
        at <= c@.len(),
    ensures
        b == (at + p@.len() <= c@.len() && c@.subrange(at as int, at + p@.len()) == p@),
{
    let cl = c.len();
    if p.len() > cl - at {
        return false;
    }
    let mut k: usize = 0;
    while k < p.len()
        invariant
            cl == c@.len(),
            at + p@.len() <= c@.len(),
            k <= p@.len(),
            forall|j: int| 0 <= j < k ==> c@[at + j] == p@[j],
        decreases p.len() - k,
    {
        if c[at + k] != p[k] {
            assert(c@.subrange(at as int, at + p@.len())[k as int] != p@[k as int]);
            return false;
        }
        k = k + 1;
    }
    assert(c@.subrange(at as int, at + p@.len()) =~= p@);
    true
}

} // verus!
