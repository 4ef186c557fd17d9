//! Decimal numerals: the text of a number, zero padding, and parsing.
//!
//! `dec` is the shortest decimal numeral of a natural number (what `{}`
//! prints), `zero_pad` is what a `{:0N}` width does to it, and `parse_u32`
//! follows `u32::from_str`: an optional `+`, then one or more ASCII digits,
//! and a value that fits in the type.
use vstd::prelude::*;
use crate::text::is_ascii_digit;

verus! {

/// The ASCII digit for a value below ten.
pub open spec fn digit_char(d: nat) -> char
    recommends
        d < 10,
{
    (('0' as nat) + d) as char
}

/// The decimal numeral of `n`, without leading zeros (`0` for zero).
pub open spec fn dec(n: nat) -> Seq<char>
    decreases n,
{
    if n < 10 {
        seq![digit_char(n)]
    } else {
        dec(n / 10).push(digit_char(n % 10))
    }
}

/// `d` padded on the left with `0` up to `width` characters.
pub open spec fn zero_pad(d: Seq<char>, width: nat) -> Seq<char> {
    if d.len() >= width {
        d
    } else {
        Seq::new((width - d.len()) as nat, |i: int| '0') + d
    }
}

/// The value of a sequence of ASCII digits.
pub open spec fn digits_value(s: Seq<char>) -> nat
    decreases s.len(),
{
    if s.len() == 0 {
        0
    } else {
        digits_value(s.drop_last()) * 10 + ((s.last() as nat) - ('0' as nat)) as nat
    }
}

/// Every character is an ASCII digit.
pub open spec fn all_ascii_digits(s: Seq<char>) -> bool {
    forall|i: int| 0 <= i < s.len() ==> is_ascii_digit(#[trigger] s[i])
}

/// The digits that `from_str` reads for an unsigned type: `s` without one
/// leading `+`.
pub open spec fn unsigned_body(s: Seq<char>) -> Seq<char> {
    if s.len() > 0 && s[0] == '+' {
        s.drop_first()
    } else {
        s
    }
}

/// `s` parses as an unsigned number whose value is at most `max`.
pub open spec fn parses_within(s: Seq<char>, max: nat) -> bool {
    let b = unsigned_body(s);
    b.len() > 0 && all_ascii_digits(b) && digits_value(b) <= max
}

/// `s.parse::<u64>()`.
pub open spec fn parse_u64_spec(s: Seq<char>) -> Option<u64> {
    if parses_within(s, u64::MAX as nat) {
        Some(digits_value(unsigned_body(s)) as u64)
    } else {
        None
    }
}

/// `s.parse::<u32>()`.
pub open spec fn parse_u32_spec(s: Seq<char>) -> Option<u32> {
    if parses_within(s, u32::MAX as nat) {
        Some(digits_value(unsigned_body(s)) as u32)
    } else {
        None
    }
}

proof fn lemma_digit_char(d: nat)
    requires
        d < 10,
    ensures
        is_ascii_digit(digit_char(d)),
        (digit_char(d) as nat) - ('0' as nat) == d,
{
}

/// Ten to the power `n`.
pub open spec fn pow10(n: nat) -> nat
    decreases n,
{
    if n == 0 {
        1
    } else {
        10 * pow10((n - 1) as nat)
    }
}

/// A numeral of `k` digits is below `10^k`.
pub proof fn lemma_digits_value_bound(s: Seq<char>)
    requires
        all_ascii_digits(s),
    ensures
        digits_value(s) < pow10(s.len()),
    decreases s.len(),
{
    if s.len() > 0 {
        lemma_digits_value_bound(s.drop_last());
        assert(is_ascii_digit(s[s.len() - 1]));
    }
}

/// A digit appended to a numeral at most grows its value.
pub proof fn lemma_digits_value_prefix(s: Seq<char>, i: int)
    requires
        0 <= i <= s.len(),
        all_ascii_digits(s),
    ensures
        digits_value(s.take(i)) <= digits_value(s),
    decreases s.len() - i,
{
    if i < s.len() {
        lemma_digits_value_prefix(s, i + 1);
        assert(s.take(i + 1).drop_last() =~= s.take(i));
        assert(is_ascii_digit(s[i]));
    }
    assert(s.take(s.len() as int) =~= s);
}

/// The numeral of `n` reads back as `n`, is made of digits, and does not
/// start with a zero unless it is `0`.
pub proof fn lemma_dec_props(n: nat)
    ensures
        dec(n).len() >= 1,
        all_ascii_digits(dec(n)),
        digits_value(dec(n)) == n,
    decreases n,
{
    if n < 10 {
        lemma_digit_char(n);
        assert(dec(n).drop_last() =~= Seq::<char>::empty());
        assert(dec(n).last() == digit_char(n));
        assert(digits_value(Seq::<char>::empty()) == 0);
        assert(digits_value(dec(n)) == digits_value(dec(n).drop_last()) * 10 + ((dec(n).last() as nat) - ('0' as nat)) as nat);
    } else {
        lemma_dec_props(n / 10);
        lemma_digit_char(n % 10);
        assert(dec(n).drop_last() =~= dec(n / 10));
        assert(dec(n).last() == digit_char(n % 10));
        assert(digits_value(dec(n)) == digits_value(dec(n / 10)) * 10 + n % 10);
        assert((n / 10) * 10 + n % 10 == n) by (nonlinear_arith);
    }
}

/// The decimal text of a `u64` (`to_string`).
pub fn u64_to_chars(n: u64) -> (out: Vec<char>)
    ensures
        out@ == dec(n as nat),
    decreases n,
{
    if n < 10 {
        let c = char_of_digit(n);
        let mut v: Vec<char> = Vec::new();
        v.push(c);
        v
    } else {
        let mut v = u64_to_chars(n / 10);
        let c = char_of_digit(n % 10);
        v.push(c);
        v
    }
}

fn char_of_digit(d: u64) -> (c: char)
    requires
        d < 10,
    ensures
        c == digit_char(d as nat),
{
    if d == 0 { '0' }
    else if d == 1 { '1' }
    else if d == 2 { '2' }
    else if d == 3 { '3' }
    else if d == 4 { '4' }
    else if d == 5 { '5' }
    else if d == 6 { '6' }
    else if d == 7 { '7' }
    else if d == 8 { '8' }
    else { '9' }
}

/// `{:0width$}` of a `u64`.
pub fn u64_padded(n: u64, width: usize) -> (out: Vec<char>)
    ensures
        out@ == zero_pad(dec(n as nat), width as nat),
{
    let d = u64_to_chars(n);
    if d.len() >= width {
        return d;
    }
    let mut out: Vec<char> = Vec::new();
    let k = width - d.len();
    let mut i: usize = 0;
    while i < k
        invariant
            i <= k,
            out@ == Seq::new(i as nat, |j: int| '0'),
        decreases k - i,
    {
        out.push('0');
        i = i + 1;
        assert(out@ =~= Seq::new(i as nat, |j: int| '0'));
    }
    let mut j: usize = 0;
    while j < d.len()
        invariant
            j <= d.len(),
            out@ == Seq::new(k as nat, |x: int| '0') + d@.take(j as int),
        decreases d.len() - j,
    {
        out.push(d[j]);
        assert(d@.take(j + 1) =~= d@.take(j as int).push(d@[j as int]));
        j = j + 1;
    }
    assert(d@.take(d.len() as int) =~= d@);
    out
}

/// `s.parse::<u32>().ok()`.
pub fn parse_u32(s: &[char]) -> (r: Option<u32>)
    ensures
        r == parse_u32_spec(s@),
{
    let start: usize = if s.len() > 0 && s[0] == '+' { 1 } else { 0 };
    let ghost b = unsigned_body(s@);
    assert(b =~= s@.skip(start as int));
    if start >= s.len() {
        return None;
    }
    let mut acc: u64 = 0;
    let mut i: usize = start;
    while i < s.len()
        invariant
            start <= i <= s.len(),
            b == s@.skip(start as int),
            b == unsigned_body(s@),
            all_ascii_digits(b.take(i - start)),
            acc == digits_value(b.take(i - start)),
            acc <= u32::MAX,
        decreases s.len() - i,
    {
        let c = s[i];
        if !('0' <= c && c <= '9') {
            assert(b[i - start] == c);
            return None;
        }
        let d: u64 = (c as u64) - ('0' as u64);
        assert(b.take(i + 1 - start).drop_last() =~= b.take(i - start));
        assert(b.take(i + 1 - start).last() == c);
        let next = acc * 10 + d;
        if next > 4294967295 {
            proof {
                assert(all_ascii_digits(b.take(i + 1 - start)));
                if all_ascii_digits(b) {
                    lemma_digits_value_prefix(b, i + 1 - start);
                }
            }
            return None;
        }
        acc = next;
        i = i + 1;
    }
    assert(b.take(i - start) =~= b);
    Some(acc as u32)
}

/// `s.parse::<i32>()`: an optional sign, then one or more ASCII digits,
/// the value in the range of `i32`.
pub open spec fn parse_i32_spec(s: Seq<char>) -> Option<i32> {
    if s.len() > 0 && s[0] == '-' {
        let b = s.drop_first();
        if b.len() > 0 && all_ascii_digits(b) && digits_value(b) <= 0x8000_0000 {
            Some((0 - digits_value(b)) as i32)
        } else {
            None
        }
    } else if parses_within(s, i32::MAX as nat) {
        Some(digits_value(unsigned_body(s)) as i32)
    } else {
        None
    }
}

/// The value of the ASCII digits `s`, if it is at most `max`.
fn digits_within(s: &[char], start: usize, max: u64) -> (r: Option<u64>)
    requires
        start <= s.len(),
        max <= u32::MAX,
    ensures
        match r {
            Some(v) => {
                let b = s@.skip(start as int);
                b.len() > 0 && all_ascii_digits(b) && digits_value(b) <= max && v == digits_value(b)
            },
            None => {
                let b = s@.skip(start as int);
                !(b.len() > 0 && all_ascii_digits(b) && digits_value(b) <= max)
            },
        },
{
    let ghost b = s@.skip(start as int);
    if start >= s.len() {
        return None;
    }
    let mut acc: u64 = 0;
    let mut i: usize = start;
    while i < s.len()
        invariant
            start <= i <= s.len(),
            b == s@.skip(start as int),
            max <= u32::MAX,
            all_ascii_digits(b.take(i - start)),
            acc == digits_value(b.take(i - start)),
            acc <= max,
        decreases s.len() - i,
    {
        let c = s[i];
        if !('0' <= c && c <= '9') {
            assert(b[i - start] == c);
            return None;
        }
        let d: u64 = (c as u64) - ('0' as u64);
        assert(b.take(i + 1 - start).drop_last() =~= b.take(i - start));
        assert(b.take(i + 1 - start).last() == c);
        let next = acc * 10 + d;
        if next > max {
            proof {
                assert(all_ascii_digits(b.take(i + 1 - start)));
                if all_ascii_digits(b) {
                    lemma_digits_value_prefix(b, i + 1 - start);
                }
            }
            return None;
        }
        acc = next;
        i = i + 1;
    }
    assert(b.take(i - start) =~= b);
    Some(acc)
}

/// `s.parse::<i32>().ok()`.
pub fn parse_i32(s: &[char]) -> (r: Option<i32>)
    ensures
        r == parse_i32_spec(s@),
{
    if s.len() > 0 && s[0] == '-' {
        assert(s@.drop_first() =~= s@.skip(1));
        match digits_within(s, 1, 0x8000_0000) {
            Some(v) => Some((0 - (v as i64)) as i32),
            None => None,
        }
    } else {
        match parse_u32(s) {
            Some(v) => {
                if v <= 0x7fff_ffff {
                    Some(v as i32)
                } else {
                    None
                }
            },
            None => {
                proof {
                    if parses_within(s@, i32::MAX as nat) {
                        assert(parses_within(s@, u32::MAX as nat));
                    }
                }
                None
            },
        }
    }
}

/// The value of the ASCII digits `s[start..]`, if there is at least one,
/// all are digits, and the value is at most `max`.
pub fn digits_up_to(s: &[char], start: usize, max: u128) -> (r: Option<u128>)
    requires
        start <= s.len(),
        max <= 0xffff_ffff_ffff_ffff,
    ensures
        match r {
            Some(v) => {
                let b = s@.skip(start as int);
                b.len() > 0 && all_ascii_digits(b) && digits_value(b) <= max && v == digits_value(b)
            },
            None => {
                let b = s@.skip(start as int);
                !(b.len() > 0 && all_ascii_digits(b) && digits_value(b) <= max)
            },
        },
{
    let ghost b = s@.skip(start as int);
    if start >= s.len() {
        return None;
    }
    let mut acc: u128 = 0;
    let mut i: usize = start;
    while i < s.len()
        invariant
            start <= i <= s.len(),
            b == s@.skip(start as int),
            max <= 0xffff_ffff_ffff_ffff,
            all_ascii_digits(b.take(i - start)),
            acc == digits_value(b.take(i - start)),
            acc <= max,
        decreases s.len() - i,
    {
        let c = s[i];
        if !('0' <= c && c <= '9') {
            assert(b[i - start] == c);
            return None;
        }
        let d: u128 = (c as u128) - ('0' as u128);
        assert(b.take(i + 1 - start).drop_last() =~= b.take(i - start));
        assert(b.take(i + 1 - start).last() == c);
        let next = acc * 10 + d;
        if next > max {
            proof {
                assert(all_ascii_digits(b.take(i + 1 - start)));
                if all_ascii_digits(b) {
                    lemma_digits_value_prefix(b, i + 1 - start);
                }
            }
            return None;
        }
        acc = next;
        i = i + 1;
    }
    assert(b.take(i - start) =~= b);
    Some(acc)
}

/// `s.parse::<i64>()`: an optional sign, then one or more ASCII digits,
/// the value in the range of `i64`.
pub open spec fn parse_i64_spec(s: Seq<char>) -> Option<i64> {
    if s.len() > 0 && s[0] == '-' {
        let b = s.drop_first();
        if b.len() > 0 && all_ascii_digits(b) && digits_value(b) <= 0x8000_0000_0000_0000 {
            Some((0 - digits_value(b)) as i64)
        } else {
            None
        }
    } else if parses_within(s, i64::MAX as nat) {
        Some(digits_value(unsigned_body(s)) as i64)
    } else {
        None
    }
}

/// `s.parse::<i64>().ok()`.
pub fn parse_i64(s: &[char]) -> (r: Option<i64>)
    ensures
        r == parse_i64_spec(s@),
{
    if s.len() > 0 && s[0] == '-' {
        assert(s@.drop_first() =~= s@.skip(1));
        match digits_up_to(s, 1, 0x8000_0000_0000_0000) {
            Some(v) => Some((0 - (v as i128)) as i64),
            None => None,
        }
    } else {
        let start: usize = if s.len() > 0 && s[0] == '+' { 1 } else { 0 };
        assert(unsigned_body(s@) =~= s@.skip(start as int));
        match digits_up_to(s, start, 0x7fff_ffff_ffff_ffff) {
            Some(v) => Some(v as i64),
            None => None,
        }
    }
}

/// `s.parse::<u64>()` on characters.
pub fn parse_u64(s: &[char]) -> (r: Option<u64>)
    ensures
        r == parse_u64_spec(s@),
{
    let start: usize = if s.len() > 0 && s[0] == '+' {
        1
    } else {
        0
    };
    assert(unsigned_body(s@) =~= s@.skip(start as int));
    if start > s.len() {
        return None;
    }
    match digits_up_to(s, start, 0xffff_ffff_ffff_ffff) {
        Some(v) => Some(v as u64),
        None => None,
    }
}

} // verus!
