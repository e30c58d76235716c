//! Numbers written in decimal.

use vstd::prelude::*;
use vstd::string::*;

verus! {

/// Whether `c` is one of the digits `0` to `9`.
pub open spec fn is_digit(c: char) -> bool {
    '0' <= c <= '9'
}

/// The number that the digit `c` stands for.
pub open spec fn digit_value(c: char) -> nat
    recommends
        is_digit(c),
{
    (c as u32 - 48) as nat
}

/// Whether `text` holds digits only.
pub open spec fn all_digits(text: Seq<char>) -> bool {
    forall|i: int| 0 <= i < text.len() ==> is_digit(#[trigger] text[i])
}

/// The number that the digits `text` write in decimal.
pub open spec fn decimal(text: Seq<char>) -> nat
    decreases text.len(),
{
    if text.len() == 0 {
        0
    } else {
        decimal(text.drop_last()) * 10 + digit_value(text.last())
    }
}

/// `text` without a plus sign in front.
pub open spec fn unsigned_part(text: Seq<char>) -> Seq<char> {
    if text.len() > 0 && text[0] == '+' {
        text.skip(1)
    } else {
        text
    }
}

/// The number below 2^64 that `text` writes: an optional `+` and then one
/// digit or more, and nothing else. `None` for any other text.
pub open spec fn parsed_u64(text: Seq<char>) -> Option<u64> {
    let digits = unsigned_part(text);
    if digits.len() > 0 && all_digits(digits) && decimal(digits) <= u64::MAX {
        Some(decimal(digits) as u64)
    } else {
        None
    }
}

/// A longer run of digits writes no smaller a number.
pub proof fn lemma_decimal_grows(text: Seq<char>, n: int)
    requires
        0 <= n <= text.len(),
    ensures
        decimal(text.take(n)) <= decimal(text),
    decreases text.len() - n,
{
    if n < text.len() {
        assert(text.drop_last().take(n) =~= text.take(n));
        lemma_decimal_grows(text.drop_last(), n);
    } else {
        assert(text.take(n) =~= text);
    }
}

/// Reads the characters of `text` from `from` up to `to` as a number below
/// 2^64.
pub fn parse_u64(text: &str, from: usize, to: usize) -> (r: Option<u64>)
    requires
        from <= to <= text@.len(),
    ensures
        r == parsed_u64(text@.subrange(from as int, to as int)),
{
    let ghost whole = text@.subrange(from as int, to as int);
    let mut i: usize = from;
    if i < to && text.get_char(i) == '+' {
        i += 1;
    }
    let first: usize = i;
    let ghost digits = unsigned_part(whole);
    assert(digits =~= text@.subrange(first as int, to as int));
    if first == to {
        return None;
    }
    let mut value: u64 = 0;
    assert(digits.take(0) =~= Seq::<char>::empty());
    while i < to
        invariant
            first <= i <= to <= text@.len(),
            first < to,
            whole == text@.subrange(from as int, to as int),
            digits == unsigned_part(whole),
            digits == text@.subrange(first as int, to as int),
            all_digits(digits.take(i - first)),
            decimal(digits.take(i - first)) == value,
        decreases to - i,
    {
        let c = text.get_char(i);
        let ghost upto = digits.take(i - first + 1);
        proof {
            assert(upto.drop_last() =~= digits.take(i - first));
            assert(upto.last() == c);
        }
        if !('0' <= c && c <= '9') {
            assert(!is_digit(digits[i - first]));
            return None;
        }
        let d: u64 = (c as u32 - 48) as u64;
        if value > (u64::MAX - d) / 10 {
            proof {
                assert(decimal(upto) > u64::MAX);
                lemma_decimal_grows(digits, i - first + 1);
            }
            return None;
        }
        value = value * 10 + d;
        proof {
            assert forall|j: int| 0 <= j < upto.len() implies is_digit(#[trigger] upto[j]) by {
                if j < upto.len() - 1 {
                    assert(upto[j] == digits.take(i - first)[j]);
                }
            }
        }
        i += 1;
    }
    assert(digits.take(to - first) =~= digits);
    Some(value)
}

/// The digits that write `n` in decimal, without leading zeros.
pub open spec fn decimal_digits(n: nat) -> Seq<char>
    decreases n,
{
    if n < 10 {
        seq![digit_char(n)]
    } else {
        decimal_digits(n / 10).push(digit_char(n % 10))
    }
}

/// The digit that stands for `d`.
pub open spec fn digit_char(d: nat) -> char
    recommends
        d < 10,
{
    ((d + 48) as u8) as char
}

/// The digit that stands for `d`, as text.
fn digit_text(d: u8) -> (r: &'static str)
    requires
        d < 10,
    ensures
        r@ == seq![digit_char(d as nat)],
{
    proof {
        reveal_strlit("0");
        reveal_strlit("1");
        reveal_strlit("2");
        reveal_strlit("3");
        reveal_strlit("4");
        reveal_strlit("5");
        reveal_strlit("6");
        reveal_strlit("7");
        reveal_strlit("8");
        reveal_strlit("9");
    }
    let r = if d == 0 {
        "0"
    } else if d == 1 {
        "1"
    } else if d == 2 {
        "2"
    } else if d == 3 {
        "3"
    } else if d == 4 {
        "4"
    } else if d == 5 {
        "5"
    } else if d == 6 {
        "6"
    } else if d == 7 {
        "7"
    } else if d == 8 {
        "8"
    } else {
        "9"
    };
    assert(r@ =~= seq![digit_char(d as nat)]);
    r
}

/// Writes `n` in decimal.
pub fn decimal_text(n: u128) -> (r: String)
    ensures
        r@ == decimal_digits(n as nat),
{
    let mut rest: u128 = n;
    let mut text = String::from_str(digit_text((rest % 10) as u8));
    rest = rest / 10;
    assert(n < 10 ==> text@ =~= decimal_digits(n as nat));
    while rest > 0
        invariant
            decimal_digits(n as nat) == if rest > 0 {
                decimal_digits(rest as nat) + text@
            } else {
                text@
            },
        decreases rest,
    {
        let digit = String::from_str(digit_text((rest % 10) as u8));
        let ghost before = text@;
        text = digit.concat(text.as_str());
        proof {
            let r = rest as nat;
            if r >= 10 {
                assert(decimal_digits(r) + before =~= decimal_digits(r / 10) + text@);
            } else {
                assert(decimal_digits(r) + before =~= text@);
            }
        }
        rest = rest / 10;
    }
    text
}

} // verus!
