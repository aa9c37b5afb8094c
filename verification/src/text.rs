//! Numbers as text: decimal, and hexadecimal as addresses are written.

use vstd::prelude::*;
use vstd::string::*;
use crate::address::{address_of, all_hex, digits_of, has_hex_prefix, hex_digit, hex_value};

verus! {

/// The character for one digit below sixteen, letters in lower case.
pub open spec fn digit_char(d: nat) -> char {
    if d == 0 {
        '0'
    } else if d == 1 {
        '1'
    } else if d == 2 {
        '2'
    } else if d == 3 {
        '3'
    } else if d == 4 {
        '4'
    } else if d == 5 {
        '5'
    } else if d == 6 {
        '6'
    } else if d == 7 {
        '7'
    } else if d == 8 {
        '8'
    } else if d == 9 {
        '9'
    } else if d == 10 {
        'a'
    } else if d == 11 {
        'b'
    } else if d == 12 {
        'c'
    } else if d == 13 {
        'd'
    } else if d == 14 {
        'e'
    } else {
        'f'
    }
}

/// `n` without its lowest digit, in base sixteen or ten.
pub open spec fn shorter(n: nat, hex: bool) -> nat {
    if hex {
        n / 16
    } else {
        n / 10
    }
}

/// The lowest digit of `n`, in base sixteen or ten.
pub open spec fn lowest(n: nat, hex: bool) -> nat {
    if hex {
        n % 16
    } else {
        n % 10
    }
}

/// The digits of `n` in base sixteen or ten, most significant first, with
/// no leading zero but for zero itself.
pub open spec fn digits(n: nat, hex: bool) -> Seq<char>
    decreases n,
{
    if shorter(n, hex) == 0 {
        seq![digit_char(lowest(n, hex))]
    } else {
        digits(shorter(n, hex), hex).push(digit_char(lowest(n, hex)))
    }
}

/// An integer in decimal, with a minus sign where it is negative.
pub open spec fn decimal(n: int) -> Seq<char> {
    if n < 0 {
        seq!['-'] + digits((-n) as nat, false)
    } else {
        digits(n as nat, false)
    }
}

/// An address as it is written: `0x` and its hexadecimal digits.
pub open spec fn hexadecimal(n: nat) -> Seq<char> {
    seq!['0', 'x'] + digits(n, true)
}

/// The text of one digit.
pub fn digit_text(d: u8) -> (text: &'static str)
    requires
        d < 16,
    ensures
        text@ == seq![digit_char(d as nat)],
{
    proof {
        reveal_strlit("0");
        reveal_strlit("1");
        reveal_strlit("2");
        reveal_strlit("3");
        reveal_strlit("4");
        reveal_strlit("5");
        reveal_strlit("6");
        reveal_strlit("7");
        reveal_strlit("8");
        reveal_strlit("9");
        reveal_strlit("a");
        reveal_strlit("b");
        reveal_strlit("c");
        reveal_strlit("d");
        reveal_strlit("e");
        reveal_strlit("f");
    }
    let text = if d == 0 {
        "0"
    } else if d == 1 {
        "1"
    } else if d == 2 {
        "2"
    } else if d == 3 {
        "3"
    } else if d == 4 {
        "4"
    } else if d == 5 {
        "5"
    } else if d == 6 {
        "6"
    } else if d == 7 {
        "7"
    } else if d == 8 {
        "8"
    } else if d == 9 {
        "9"
    } else if d == 10 {
        "a"
    } else if d == 11 {
        "b"
    } else if d == 12 {
        "c"
    } else if d == 13 {
        "d"
    } else if d == 14 {
        "e"
    } else {
        "f"
    };
    assert(text@ =~= seq![digit_char(d as nat)]);
    text
}

/// Splits off the lowest digit of `n`.
pub fn split_digit(n: u64, hex: bool) -> (parts: (u64, u8))
    ensures
        parts.0 == shorter(n as nat, hex),
        parts.1 == lowest(n as nat, hex),
        parts.1 < 16,
{
    if hex {
        (n / 16, (n % 16) as u8)
    } else {
        (n / 10, (n % 10) as u8)
    }
}

/// Writes `n` in base sixteen or ten.
pub fn digits_text(n: u64, hex: bool) -> (text: String)
    ensures
        text@ == digits(n as nat, hex),
{
    let (first_rest, first_digit) = split_digit(n, hex);
    let mut text = String::from_str(digit_text(first_digit));
    let mut rest: u64 = first_rest;
    while rest > 0
        invariant
            digits(n as nat, hex) == if rest > 0 {
                digits(rest as nat, hex) + text@
            } else {
                text@
            },
        decreases rest,
    {
        let (next_rest, next_digit) = split_digit(rest, hex);
        let digit = String::from_str(digit_text(next_digit));
        let ghost longer = seq![digit_char(next_digit as nat)] + text@;
        assert(digits(rest as nat, hex) + text@ =~= if next_rest > 0 {
            digits(next_rest as nat, hex) + longer
        } else {
            longer
        });
        text = digit.concat(text.as_str());
        rest = next_rest;
    }
    text
}

/// Writes an integer in decimal.
pub fn decimal_text(n: i64) -> (text: String)
    ensures
        text@ == decimal(n as int),
{
    if n < 0 {
        let magnitude: u64 = if n == i64::MIN {
            0x8000_0000_0000_0000
        } else {
            (-n) as u64
        };
        proof {
            reveal_strlit("-");
        }
        let text = String::from_str("-").concat(digits_text(magnitude, false).as_str());
        assert(text@ =~= decimal(n as int));
        text
    } else {
        digits_text(n as u64, false)
    }
}

/// Writes a count in decimal.
pub fn count_text(n: usize) -> (text: String)
    ensures
        text@ == decimal(n as int),
{
    digits_text(n as u64, false)
}

/// Writes an address.
pub fn hexadecimal_text(n: usize) -> (text: String)
    ensures
        text@ == hexadecimal(n as nat),
{
    proof {
        reveal_strlit("0x");
    }
    let text = String::from_str("0x").concat(digits_text(n as u64, true).as_str());
    assert(text@ =~= hexadecimal(n as nat));
    text
}

/// The hexadecimal digits of a number are digits, and denote it.
pub proof fn lemma_hex_digits(n: nat)
    ensures
        digits(n, true).len() > 0,
        all_hex(digits(n, true)),
        hex_value(digits(n, true)) == n,
    decreases n,
{
    let s = digits(n, true);
    if n < 16 {
        assert(s.drop_last() =~= Seq::<char>::empty());
        assert(hex_value(s.drop_last()) == 0);
        assert(hex_digit(digit_char(n)) == Some(n));
        assert(s.last() == digit_char(n));
        assert(hex_value(s) == 16 * hex_value(s.drop_last()) + n);
    } else {
        lemma_hex_digits(n / 16);
        let shorter = digits(n / 16, true);
        assert(s.drop_last() =~= shorter);
        assert(hex_digit(digit_char(n % 16)) == Some(n % 16));
        assert(s.last() == digit_char(n % 16));
        assert(hex_value(s) == 16 * hex_value(s.drop_last()) + n % 16);
        assert forall|i: int| 0 <= i < s.len() implies (#[trigger] hex_digit(s[i])) is Some by {
            if i < shorter.len() {
                assert(s[i] == shorter[i]);
            }
        }
    }
}

/// An address written out reads back as itself.
pub proof fn law_address_reads_back(n: usize)
    ensures
        address_of(hexadecimal(n as nat)) == Some(n),
{
    lemma_hex_digits(n as nat);
    let text = hexadecimal(n as nat);
    assert(has_hex_prefix(text));
    assert(digits_of(text) =~= digits(n as nat, true));
}

} // verus!
