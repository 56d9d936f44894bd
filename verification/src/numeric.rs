//! Decimal numbers in text: what `str::parse` for `u32` and `i32` accepts, and
//! the decimal form that `format!("{}", n)` writes for a `u32`.
use crate::text::is_digit;
use vstd::prelude::*;

verus! {

/// The digit character for `d < 10`.
pub open spec fn digit_char(d: nat) -> char {
    (48 + d) as char
}

/// The value of a string of decimal digits.
pub open spec fn digits_value(s: Seq<char>) -> nat
    decreases s.len(),
{
    if s.len() == 0 {
        0
    } else {
        digits_value(s.drop_last()) * 10 + ((s.last() as u32) - 48) as nat
    }
}

/// Every character of `s` is an ASCII digit.
pub open spec fn all_digits(s: Seq<char>) -> bool {
    forall|i: int| 0 <= i < s.len() ==> is_digit(#[trigger] s[i])
}

/// `<u32 as FromStr>::from_str`: an optional `+`, then one or more ASCII
/// digits whose value fits in a `u32`.
pub open spec fn parse_u32_spec(s: Seq<char>) -> Option<u32> {
    let d = if s.len() > 0 && s[0] == '+' {
        s.drop_first()
    } else {
        s
    };
    if d.len() > 0 && all_digits(d) && digits_value(d) <= u32::MAX {
        Some(digits_value(d) as u32)
    } else {
        None
    }
}

/// `<i32 as FromStr>::from_str`: an optional `+` or `-`, then one or more
/// ASCII digits whose signed value fits in an `i32`.
pub open spec fn parse_i32_spec(s: Seq<char>) -> Option<i32> {
    let neg = s.len() > 0 && s[0] == '-';
    let d = if s.len() > 0 && (s[0] == '+' || s[0] == '-') {
        s.drop_first()
    } else {
        s
    };
    if d.len() > 0 && all_digits(d) {
        if neg && digits_value(d) <= 0x8000_0000 {
            Some((0 - digits_value(d)) as i32)
        } else if !neg && digits_value(d) <= 0x7fff_ffff {
            Some(digits_value(d) as i32)
        } else {
            None
        }
    } else {
        None
    }
}

/// The decimal form of `n`, without leading zeros.
pub open spec fn decimal(n: nat) -> Seq<char>
    decreases n,
{
    if n < 10 {
        seq![digit_char(n)]
    } else {
        decimal(n / 10) + seq![digit_char(n % 10)]
    }
}

proof fn lemma_digits_value_step(s: Seq<char>, k: int)
    requires
        0 <= k < s.len(),
    ensures
        digits_value(s.take(k + 1)) == digits_value(s.take(k)) * 10 + ((s[k] as u32) - 48) as nat,
{
    assert(s.take(k + 1).drop_last() =~= s.take(k));
}

proof fn lemma_digits_value_mono(s: Seq<char>, j: int, k: int)
    requires
        0 <= j <= k <= s.len(),
        all_digits(s),
    ensures
        digits_value(s.take(j)) <= digits_value(s.take(k)),
    decreases k - j,
{
    if j < k {
        lemma_digits_value_mono(s, j, k - 1);
        lemma_digits_value_step(s, k - 1);
        assert(is_digit(s[k - 1]));
    }
}

/// The value of the digit string `d`, if it is made of digits only and its
/// value is at most `limit`.
fn digits_up_to(d: &[char], limit: u64) -> (r: Option<u64>)
    requires
        limit >= 9,
    ensures
        r matches Some(v) ==> d@.len() > 0 && all_digits(d@) && v == digits_value(d@) && v
            <= limit,
        r is None ==> !(d@.len() > 0 && all_digits(d@) && digits_value(d@) <= limit),
{
    if d.len() == 0 {
        return None;
    }
    let mut v: u64 = 0;
    let mut i: usize = 0;
    while i < d.len()
        invariant
            0 <= i <= d@.len(),
            forall|j: int| 0 <= j < i ==> is_digit(#[trigger] d@[j]),
            v == digits_value(d@.take(i as int)),
            v <= limit,
            limit >= 9,
        decreases d@.len() - i,
    {
        let c = d[i];
        if !('0' <= c && c <= '9') {
            assert(!is_digit(d@[i as int]));
            return None;
        }
        proof {
            lemma_digits_value_step(d@, i as int);
        }
        let dv: u64 = (c as u32 - 48) as u64;
        if v > (limit - dv) / 10 {
            proof {
                assert(v * 10 + dv > limit) by (nonlinear_arith)
                    requires
                        v > (limit - dv) / 10,
                        dv <= limit,
                ;
                if all_digits(d@) {
                    lemma_digits_value_mono(d@, i + 1, d@.len() as int);
                    assert(d@.take(d@.len() as int) =~= d@);
                }
            }
            return None;
        }
        proof {
            assert(v * 10 + dv <= limit) by (nonlinear_arith)
                requires
                    v <= (limit - dv) / 10,
                    dv <= limit,
            ;
        }
        v = v * 10 + dv;
        i = i + 1;
    }
    assert(d@.take(d@.len() as int) =~= d@);
    Some(v)
}

/// `str::parse::<u32>`.
pub fn parse_u32(s: &[char]) -> (r: Option<u32>)
    ensures
        r == parse_u32_spec(s@),
{
    let start: usize = if s.len() > 0 && s[0] == '+' {
        1
    } else {
        0
    };
    let d = &s[start..s.len()];
    assert(d@ == (if s@.len() > 0 && s@[0] == '+' {
        s@.drop_first()
    } else {
        s@
    }));
    match digits_up_to(d, 0xffff_ffff) {
        Some(v) => Some(v as u32),
        None => None,
    }
}

/// `str::parse::<i32>`.
pub fn parse_i32(s: &[char]) -> (r: Option<i32>)
    ensures
        r == parse_i32_spec(s@),
{
    let neg: bool = s.len() > 0 && s[0] == '-';
    let start: usize = if s.len() > 0 && (s[0] == '+' || s[0] == '-') {
        1
    } else {
        0
    };
    let d = &s[start..s.len()];
    assert(d@ == (if s@.len() > 0 && (s@[0] == '+' || s@[0] == '-') {
        s@.drop_first()
    } else {
        s@
    }));
    if neg {
        match digits_up_to(d, 0x8000_0000) {
            Some(v) => {
                if v == 0x8000_0000 {
                    Some(-2147483648i32)
                } else {
                    let x: i32 = v as i32;
                    Some(-x)
                }
            },
            None => None,
        }
    } else {
        match digits_up_to(d, 0x7fff_ffff) {
            Some(v) => Some(v as i32),
            None => None,
        }
    }
}

/// The digit character for `d < 10`.
fn digit(d: u32) -> (c: char)
    requires
        d < 10,
    ensures
        c == digit_char(d as nat),
{
    let b: u8 = d as u8 + 48;
    b as char
}

/// Appends the decimal form of `n` to `out` (what `format!("{}", n)` writes).
pub fn push_decimal(out: &mut Vec<char>, n: u32)
    ensures
        final(out)@ == old(out)@ + decimal(n as nat),
    decreases n,
{
    if n < 10 {
        out.push(digit(n));
    } else {
        push_decimal(out, n / 10);
        out.push(digit(n % 10));
    }
}


proof fn lemma_decimal_digits(n: nat)
    ensures
        decimal(n).len() > 0,
        all_digits(decimal(n)),
        digits_value(decimal(n)) == n,
        decimal(n)[0] != '+' && decimal(n)[0] != '-',
    decreases n,
{
    if n < 10 {
        assert((digit_char(n) as u32) == 48 + n);
        assert(seq![digit_char(n)].drop_last() =~= Seq::<char>::empty());
        assert(decimal(n).last() == digit_char(n));
        assert(digits_value(decimal(n)) == digits_value(decimal(n).drop_last()) * 10 + ((decimal(n).last() as u32) - 48) as nat);
        assert(digits_value(decimal(n)) == n);
    } else {
        lemma_decimal_digits(n / 10);
        let s = decimal(n);
        assert(s.drop_last() =~= decimal(n / 10));
        assert((digit_char(n % 10) as u32) == 48 + n % 10);
        assert(s.last() == digit_char(n % 10));
        vstd::arithmetic::div_mod::lemma_fundamental_div_mod(n as int, 10);
        assert(digits_value(s) == digits_value(s.drop_last()) * 10 + ((s.last() as u32) - 48) as nat);
        assert(digits_value(s.drop_last()) == n / 10);
        assert(((s.last() as u32) - 48) as nat == n % 10);
        assert(digits_value(s) == n);
        assert(s[0] == decimal(n / 10)[0]);
        assert forall|i: int| 0 <= i < s.len() implies is_digit(#[trigger] s[i]) by {
            if i < s.len() - 1 {
                assert(s[i] == decimal(n / 10)[i]);
            }
        }
    }
}

/// Reading back the decimal form of a `u32` gives the number: what
/// `push_decimal` writes, `parse_u32` reads.
pub proof fn law_u32_round_trip(n: u32)
    ensures
        parse_u32_spec(decimal(n as nat)) == Some(n),
{
    lemma_decimal_digits(n as nat);
}

/// Reading back the decimal form of a number below `2^31`, with or without
/// a `-` before it, gives the number or its negation.
pub proof fn law_i32_round_trip(n: nat)
    requires
        n <= 0x7fff_ffff,
    ensures
        parse_i32_spec(decimal(n)) == Some(n as i32),
        parse_i32_spec(seq!['-'] + decimal(n)) == Some((0 - n) as i32),
{
    lemma_decimal_digits(n);
    assert((seq!['-'] + decimal(n)).drop_first() =~= decimal(n));
}

} // verus!
