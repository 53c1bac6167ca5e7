//! Decimal rendering of numbers for human-readable messages.

use vstd::prelude::*;
use vstd::string::StringExecFns;

verus! {

/// The character that stands for a single decimal digit.
pub open spec fn digit_char(d: nat) -> char {
    if d == 0 {
        '0'
    } else if d == 1 {
        '1'
    } else if d == 2 {
        '2'
    } else if d == 3 {
        '3'
    } else if d == 4 {
        '4'
    } else if d == 5 {
        '5'
    } else if d == 6 {
        '6'
    } else if d == 7 {
        '7'
    } else if d == 8 {
        '8'
    } else {
        '9'
    }
}

/// The decimal numeral of `n`, without leading zeros.
pub open spec fn decimal(n: nat) -> Seq<char>
    decreases n,
{
    if n < 10 {
        seq![digit_char(n)]
    } else {
        decimal(n / 10).push(digit_char(n % 10))
    }
}

fn digit_str(d: u8) -> (s: &'static str)
    requires
        d < 10,
    ensures
        s@ == seq![digit_char(d as nat)],
{
    proof {
        reveal_strlit("0");
        reveal_strlit("1");
        reveal_strlit("2");
        reveal_strlit("3");
        reveal_strlit("4");
        reveal_strlit("5");
        reveal_strlit("6");
        reveal_strlit("7");
        reveal_strlit("8");
        reveal_strlit("9");
    }
    let s = match d {
        0 => "0",
        1 => "1",
        2 => "2",
        3 => "3",
        4 => "4",
        5 => "5",
        6 => "6",
        7 => "7",
        8 => "8",
        _ => "9",
    };
    assert(s@ =~= seq![digit_char(d as nat)]);
    s
}

/// Renders `n` in decimal.
pub fn decimal_string(n: usize) -> (out: String)
    ensures
        out@ == decimal(n as nat),
{
    decimal_string_u64(n as u64)
}

/// Renders `n` in decimal.
pub fn decimal_string_u64(n: u64) -> (out: String)
    ensures
        out@ == decimal(n as nat),
{
    let mut out: String = String::from_str(digit_str((n % 10) as u8));
    let mut rest: u64 = n / 10;
    while rest > 0
        invariant
            decimal(n as nat) == if rest == 0 {
                out@
            } else {
                decimal(rest as nat) + out@
            },
        decreases rest,
    {
        let digit = digit_str((rest % 10) as u8);
        let ghost tail = out@;
        out = String::from_str(digit).concat(out.as_str());
        proof {
            if rest >= 10 {
                assert(decimal((rest / 10) as nat).push(digit_char((rest % 10) as nat)) + tail
                    =~= decimal((rest / 10) as nat) + out@);
            } else {
                assert(decimal(rest as nat) + tail =~= out@);
            }
        }
        rest = rest / 10;
    }
    out
}


/// The character that stands for a single hexadecimal digit, in upper case.
pub open spec fn hex_char(d: nat) -> char {
    if d < 10 {
        digit_char(d)
    } else if d == 10 {
        'A'
    } else if d == 11 {
        'B'
    } else if d == 12 {
        'C'
    } else if d == 13 {
        'D'
    } else if d == 14 {
        'E'
    } else {
        'F'
    }
}

/// The hexadecimal numeral of `n` in upper case, without leading zeros.
pub open spec fn hex(n: nat) -> Seq<char>
    decreases n,
{
    if n < 16 {
        seq![hex_char(n)]
    } else {
        hex(n / 16).push(hex_char(n % 16))
    }
}

/// The hexadecimal numeral of `n` in upper case, with a leading zero where
/// it would otherwise be a single digit.
pub open spec fn hex_byte(n: nat) -> Seq<char> {
    if n < 16 {
        seq!['0', hex_char(n)]
    } else {
        hex(n)
    }
}

fn hex_str(d: u8) -> (s: &'static str)
    requires
        d < 16,
    ensures
        s@ == seq![hex_char(d as nat)],
{
    if d < 10 {
        digit_str(d)
    } else {
        proof {
            reveal_strlit("A");
            reveal_strlit("B");
            reveal_strlit("C");
            reveal_strlit("D");
            reveal_strlit("E");
            reveal_strlit("F");
        }
        let s = match d {
            10 => "A",
            11 => "B",
            12 => "C",
            13 => "D",
            14 => "E",
            _ => "F",
        };
        assert(s@ =~= seq![hex_char(d as nat)]);
        s
    }
}

/// Renders `n` in upper-case hexadecimal, at least two digits wide.
pub fn hex_byte_string(n: u64) -> (out: String)
    ensures
        out@ == hex_byte(n as nat),
{
    let mut out: String = String::from_str(hex_str((n % 16) as u8));
    let mut rest: u64 = n / 16;
    while rest > 0
        invariant
            hex(n as nat) == if rest == 0 {
                out@
            } else {
                hex(rest as nat) + out@
            },
        decreases rest,
    {
        let digit = hex_str((rest % 16) as u8);
        let ghost tail = out@;
        out = String::from_str(digit).concat(out.as_str());
        proof {
            if rest >= 16 {
                assert(hex((rest / 16) as nat).push(hex_char((rest % 16) as nat)) + tail =~= hex(
                    (rest / 16) as nat,
                ) + out@);
            } else {
                assert(hex(rest as nat) + tail =~= out@);
            }
        }
        rest = rest / 16;
    }
    if n < 16 {
        proof {
            reveal_strlit("0");
        }
        out = String::from_str("0").concat(out.as_str());
        assert(out@ =~= seq!['0', hex_char(n as nat)]);
    }
    out
}

/// The decimal numeral of an integer: a minus sign before the numeral of
/// the magnitude where the integer is negative.
pub open spec fn signed_decimal(n: int) -> Seq<char> {
    if n < 0 {
        seq!['-'] + decimal((-n) as nat)
    } else {
        decimal(n as nat)
    }
}

/// Renders `n` in decimal.
pub fn signed_decimal_string(n: i64) -> (out: String)
    ensures
        out@ == signed_decimal(n as int),
{
    if n < 0 {
        proof {
            reveal_strlit("-");
        }
        let magnitude: u64 = if n == i64::MIN {
            0x8000_0000_0000_0000
        } else {
            (-n) as u64
        };
        let digits = decimal_string_u64(magnitude);
        let out = String::from_str("-").concat(digits.as_str());
        assert("-"@ =~= seq!['-']);
        out
    } else {
        decimal_string_u64(n as u64)
    }
}

/// Whether `a` and `b` hold the same text.
pub fn str_is(a: &str, b: &str) -> (r: bool)
    ensures
        r == (a@ == b@),
{
    let x = String::from_str(a);
    let y = String::from_str(b);
    x == y
}

} // verus!
