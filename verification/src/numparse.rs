//! Decimal integer parsing with the rules of `str::parse` for the integer
//! types: an optional sign (`-` only for signed targets), then one or more
//! ASCII digits, nothing else, and a value in the target's range.
use vstd::prelude::*;

use crate::text::{chars_of, is_ascii_digit};

verus! {

/// Whether every character is an ASCII digit.
pub open spec fn all_digits(s: Seq<char>) -> bool {
    forall|i: int| 0 <= i < s.len() ==> is_ascii_digit(#[trigger] s[i])
}

/// The value of a string of decimal digits.
pub open spec fn digits_value(s: Seq<char>) -> nat
    decreases s.len(),
{
    if s.len() == 0 {
        0
    } else {
        digits_value(s.drop_last()) * 10 + ((s.last() as int) - ('0' as int)) as nat
    }
}

/// The value `str::parse` gives for an integer type whose range is `lo..=hi`.
pub open spec fn parse_int(s: Seq<char>, lo: int, hi: int) -> Option<int> {
    let (neg, digits) = if s.len() > 0 && s[0] == '+' {
        (false, s.drop_first())
    } else if s.len() > 0 && s[0] == '-' && lo < 0 {
        (true, s.drop_first())
    } else {
        (false, s)
    };
    if digits.len() == 0 || !all_digits(digits) {
        None
    } else {
        let v: int = if neg {
            -(digits_value(digits) as int)
        } else {
            digits_value(digits) as int
        };
        if lo <= v && v <= hi {
            Some(v)
        } else {
            None
        }
    }
}

proof fn lemma_digits_value_prefix(s: Seq<char>, i: int)
    requires
        0 <= i < s.len(),
        is_ascii_digit(s[i]),
    ensures
        digits_value(s.take(i + 1)) == digits_value(s.take(i)) * 10 + ((s[i] as int) - ('0' as int)),
{
    assert(s.take(i + 1).drop_last() == s.take(i));
    assert(s.take(i + 1).last() == s[i]);
}

proof fn lemma_digits_value_grows(s: Seq<char>, i: int)
    requires
        0 <= i <= s.len(),
        all_digits(s),
    ensures
        digits_value(s.take(i)) <= digits_value(s),
    decreases s.len() - i,
{
    if i < s.len() {
        lemma_digits_value_grows(s, i + 1);
        lemma_digits_value_prefix(s, i);
    } else {
        assert(s.take(i) == s);
    }
}

/// The decimal text of a number is made of digits whose value is the number.
proof fn lemma_decimal_digits(n: nat)
    ensures
        crate::text::decimal(n).len() > 0,
        all_digits(crate::text::decimal(n)),
        digits_value(crate::text::decimal(n)) == n,
    decreases n,
{
    let d = crate::text::decimal(n);
    let m: nat = n % 10;
    assert((crate::text::digit_char(m) as int) - ('0' as int) == m);
    if n < 10 {
        assert(m == n);
        assert(d.last() == crate::text::digit_char(m));
        assert(d.drop_last() =~= Seq::<char>::empty());
        assert(digits_value(d.drop_last()) == 0);
        assert(digits_value(d) == digits_value(d.drop_last()) * 10 + ((d.last() as int) - ('0' as int)) as nat);
    } else {
        lemma_decimal_digits(n / 10);
        let p = crate::text::decimal(n / 10);
        assert(d.drop_last() =~= p);
        assert(d.last() == crate::text::digit_char(m));
        assert(n == (n / 10) * 10 + m);
        assert(digits_value(d) == digits_value(d.drop_last()) * 10 + ((d.last() as int) - ('0' as int)) as nat);
        assert(digits_value(p) * 10 == (n / 10) * 10);
        assert forall|i: int| 0 <= i < d.len() implies is_ascii_digit(#[trigger] d[i]) by {
            if i < p.len() {
                assert(d[i] == p[i]);
            }
        }
    }
}

/// Parsing the decimal text of a value in range gives the value back, with
/// or without a leading `+`, and a leading `-` gives its negation when the
/// range is signed and holds it.
pub proof fn law_parse_decimal_text(n: nat, lo: int, hi: int)
    ensures
        lo <= n <= hi ==> parse_int(crate::text::decimal(n), lo, hi) == Some(n as int),
        lo <= n <= hi ==> parse_int(seq!['+'] + crate::text::decimal(n), lo, hi) == Some(
            n as int,
        ),
        lo < 0 && lo <= -n <= hi ==> parse_int(seq!['-'] + crate::text::decimal(n), lo, hi)
            == Some(-n),
        n > hi ==> parse_int(crate::text::decimal(n), lo, hi) is None,
{
    lemma_decimal_digits(n);
    let d = crate::text::decimal(n);
    assert(is_ascii_digit(d[0]));
    assert((seq!['+'] + d).drop_first() =~= d);
    assert((seq!['-'] + d).drop_first() =~= d);
}

/// The magnitude written by `v`, when it is one or more digits and fits in
/// 65 bits; `None` when a non-digit occurs or `v` is empty; `Some(None)`
/// never. Values beyond `2^64` are reported as `Err(())`.
fn digits_magnitude(v: &[char]) -> (r: Result<Option<u128>, ()>)
    ensures
        match r {
            Ok(Some(m)) => v@.len() > 0 && all_digits(v@) && m == digits_value(v@) && m <= 0x1_0000_0000_0000_0000,
            Ok(None) => v@.len() == 0 || !all_digits(v@),
            Err(_) => v@.len() > 0 && all_digits(v@) && digits_value(v@) > 0x1_0000_0000_0000_0000,
        },
{
    if v.len() == 0 {
        return Ok(None);
    }
    let mut i: usize = 0;
    while i < v.len()
        invariant
            0 <= i <= v.len(),
            forall|j: int| 0 <= j < i ==> is_ascii_digit(#[trigger] v@[j]),
        decreases v.len() - i,
    {
        if !('0' <= v[i] && v[i] <= '9') {
            return Ok(None);
        }
        i = i + 1;
    }
    let mut m: u128 = 0;
    let mut k: usize = 0;
    assert(v@.take(0) == Seq::<char>::empty());
    while k < v.len()
        invariant
            0 <= k <= v.len(),
            all_digits(v@),
            m == digits_value(v@.take(k as int)),
            m <= 0x1_0000_0000_0000_0000,
        decreases v.len() - k,
    {
        proof {
            lemma_digits_value_prefix(v@, k as int);
        }
        let d = (v[k] as u32 - '0' as u32) as u128;
        let next = m * 10 + d;
        if next > 0x1_0000_0000_0000_0000 {
            proof {
                lemma_digits_value_grows(v@, k + 1);
            }
            return Err(());
        }
        m = next;
        k = k + 1;
    }
    assert(v@.take(v.len() as int) == v@);
    Ok(Some(m))
}

/// `str::parse` for an integer type whose range is `lo..=hi`, given as a
/// 128-bit value.
pub fn parse_integer(s: &str, lo: i128, hi: i128) -> (r: Option<i128>)
    requires
        -0x8000_0000_0000_0000 <= lo <= 0,
        0 <= hi <= 0xffff_ffff_ffff_ffff,
    ensures
        match r {
            Some(x) => parse_int(s@, lo as int, hi as int) == Some(x as int),
            None => parse_int(s@, lo as int, hi as int) == None::<int>,
        },
{
    let v = chars_of(s);
    let (neg, start) = if v.len() > 0 && v[0] == '+' {
        (false, 1usize)
    } else if v.len() > 0 && v[0] == '-' && lo < 0 {
        (true, 1usize)
    } else {
        (false, 0usize)
    };
    let digits = crate::text::sub_chars(&v, start, v.len());
    assert(start == 1 ==> digits@ == v@.drop_first());
    assert(start == 0 ==> digits@ == v@);
    match digits_magnitude(&digits) {
        Ok(None) => None,
        Err(_) => None,
        Ok(Some(m)) => {
            let value: i128 = if neg {
                -(m as i128)
            } else {
                m as i128
            };
            if lo <= value && value <= hi {
                Some(value)
            } else {
                None
            }
        },
    }
}

/// `str::parse::<u16>`.
pub fn parse_u16(s: &str) -> (r: Option<u16>)
    ensures
        match r {
            Some(x) => parse_int(s@, 0, u16::MAX as int) == Some(x as int),
            None => parse_int(s@, 0, u16::MAX as int) == None::<int>,
        },
{
    match parse_integer(s, 0, u16::MAX as i128) {
        Some(x) => Some(x as u16),
        None => None,
    }
}

/// `str::parse::<u32>`.
pub fn parse_u32(s: &str) -> (r: Option<u32>)
    ensures
        match r {
            Some(x) => parse_int(s@, 0, u32::MAX as int) == Some(x as int),
            None => parse_int(s@, 0, u32::MAX as int) == None::<int>,
        },
{
    match parse_integer(s, 0, u32::MAX as i128) {
        Some(x) => Some(x as u32),
        None => None,
    }
}

/// `str::parse::<u64>`.
pub fn parse_u64(s: &str) -> (r: Option<u64>)
    ensures
        match r {
            Some(x) => parse_int(s@, 0, u64::MAX as int) == Some(x as int),
            None => parse_int(s@, 0, u64::MAX as int) == None::<int>,
        },
{
    match parse_integer(s, 0, u64::MAX as i128) {
        Some(x) => Some(x as u64),
        None => None,
    }
}

/// `str::parse::<usize>`.
pub fn parse_usize(s: &str) -> (r: Option<usize>)
    ensures
        match r {
            Some(x) => parse_int(s@, 0, usize::MAX as int) == Some(x as int),
            None => parse_int(s@, 0, usize::MAX as int) == None::<int>,
        },
{
    match parse_integer(s, 0, usize::MAX as i128) {
        Some(x) => Some(x as usize),
        None => None,
    }
}

/// `str::parse::<i64>`.
pub fn parse_i64(s: &str) -> (r: Option<i64>)
    ensures
        match r {
            Some(x) => parse_int(s@, i64::MIN as int, i64::MAX as int) == Some(x as int),
            None => parse_int(s@, i64::MIN as int, i64::MAX as int) == None::<int>,
        },
{
    match parse_integer(s, i64::MIN as i128, i64::MAX as i128) {
        Some(x) => Some(x as i64),
        None => None,
    }
}

/// `str::parse::<i16>`.
pub fn parse_i16(s: &str) -> (r: Option<i16>)
    ensures
        match r {
            Some(x) => parse_int(s@, i16::MIN as int, i16::MAX as int) == Some(x as int),
            None => parse_int(s@, i16::MIN as int, i16::MAX as int) == None::<int>,
        },
{
    match parse_integer(s, i16::MIN as i128, i16::MAX as i128) {
        Some(x) => Some(x as i16),
        None => None,
    }
}

} // verus!
