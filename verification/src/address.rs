//! Textual addresses: hexadecimal digits with an optional `0x` / `0X` prefix.

use vstd::prelude::*;
use vstd::string::*;

verus! {

/// The value of one hexadecimal digit, in either letter case.
pub open spec fn hex_digit(c: char) -> Option<nat> {
    let u = c as u32;
    if 48 <= u <= 57 {
        Some((u - 48) as nat)
    } else if 97 <= u <= 102 {
        Some((u - 87) as nat)
    } else if 65 <= u <= 70 {
        Some((u - 55) as nat)
    } else {
        None
    }
}

/// Every character of `s` is a hexadecimal digit.
pub open spec fn all_hex(s: Seq<char>) -> bool {
    forall|i: int| 0 <= i < s.len() ==> (#[trigger] hex_digit(s[i])) is Some
}

/// The number that the digits of `s` denote in base sixteen, most significant
/// digit first. A character that is no digit counts as zero.
pub open spec fn hex_value(s: Seq<char>) -> nat
    decreases s.len(),
{
    if s.len() == 0 {
        0
    } else {
        16 * hex_value(s.drop_last()) + match hex_digit(s.last()) {
            Some(d) => d,
            None => 0,
        }
    }
}

/// `s` begins with `0x` or `0X`.
pub open spec fn has_hex_prefix(s: Seq<char>) -> bool {
    s.len() >= 2 && s[0] == '0' && (s[1] == 'x' || s[1] == 'X')
}

/// The digits of an address text: what follows the prefix, or all of it.
pub open spec fn digits_of(s: Seq<char>) -> Seq<char> {
    if has_hex_prefix(s) {
        s.subrange(2, s.len() as int)
    } else {
        s
    }
}

/// The address that a text denotes: its digits must be at least one, all
/// hexadecimal, and their value must fit a machine word.
pub open spec fn address_of(s: Seq<char>) -> Option<usize> {
    let d = digits_of(s);
    if d.len() > 0 && all_hex(d) && hex_value(d) <= usize::MAX {
        Some(hex_value(d) as usize)
    } else {
        None
    }
}

/// A longer digit string never denotes less than one of its prefixes.
pub proof fn lemma_hex_value_prefix(s: Seq<char>, k: int)
    requires
        0 <= k <= s.len(),
    ensures
        hex_value(s.subrange(0, k)) <= hex_value(s),
    decreases s.len(),
{
    if k == s.len() {
        assert(s.subrange(0, k) =~= s);
    } else {
        lemma_hex_value_prefix(s.drop_last(), k);
        assert(s.drop_last().subrange(0, k) =~= s.subrange(0, k));
    }
}

/// `c` is a letter of the ASCII alphabet.
pub open spec fn is_letter(c: char) -> bool {
    65 <= c as u32 <= 90 || 97 <= c as u32 <= 122
}

/// `a` and `b` are the same character, or the same letter in two cases.
pub open spec fn same_letter(a: char, b: char) -> bool {
    a == b || (is_letter(a) && is_letter(b) && (a as u32 + 32 == b as u32 || b as u32 + 32
        == a as u32))
}

/// `s` and `t` are the same text but for the case of their letters.
pub open spec fn same_but_for_case(s: Seq<char>, t: Seq<char>) -> bool {
    s.len() == t.len() && forall|i: int| 0 <= i < s.len() ==> same_letter(#[trigger] s[i], t[i])
}

/// Two characters of one code are one character.
pub proof fn lemma_char_by_code(c: char, d: char)
    ensures
        c as u32 == d as u32 ==> c == d,
{
    vstd::utf8::char_u32_cast(c, c as u32);
    vstd::utf8::char_u32_cast(d, d as u32);
}

/// Digit strings that differ in case only denote the same number, and are
/// digit strings together.
pub proof fn lemma_hex_ignores_case(s: Seq<char>, t: Seq<char>)
    requires
        same_but_for_case(s, t),
    ensures
        all_hex(s) == all_hex(t),
        hex_value(s) == hex_value(t),
    decreases s.len(),
{
    if s.len() > 0 {
        assert(same_letter(s[s.len() - 1], t[t.len() - 1]));
        assert forall|i: int| 0 <= i < s.drop_last().len() implies same_letter(
            #[trigger] s.drop_last()[i],
            t.drop_last()[i],
        ) by {
            assert(same_letter(s[i], t[i]));
        }
        lemma_hex_ignores_case(s.drop_last(), t.drop_last());
    }
    if all_hex(s) {
        assert forall|i: int| 0 <= i < t.len() implies (#[trigger] hex_digit(t[i])) is Some by {
            assert(same_letter(s[i], t[i]));
            assert(hex_digit(s[i]) is Some);
        }
    }
    if all_hex(t) {
        assert forall|i: int| 0 <= i < s.len() implies (#[trigger] hex_digit(s[i])) is Some by {
            assert(same_letter(s[i], t[i]));
            assert(hex_digit(t[i]) is Some);
        }
    }
}

/// The case of letters makes no difference to an address text, in the
/// prefix or in the digits.
pub proof fn law_address_ignores_case(s: Seq<char>, t: Seq<char>)
    requires
        same_but_for_case(s, t),
    ensures
        address_of(s) == address_of(t),
{
    if s.len() >= 2 {
        assert(same_letter(s[0], t[0]));
        assert(same_letter(s[1], t[1]));
        lemma_char_by_code(s[0], '0');
        lemma_char_by_code(t[0], '0');
        lemma_char_by_code(s[1], 'x');
        lemma_char_by_code(t[1], 'x');
        lemma_char_by_code(s[1], 'X');
        lemma_char_by_code(t[1], 'X');
    }
    assert(has_hex_prefix(s) == has_hex_prefix(t));
    let d = digits_of(s);
    let e = digits_of(t);
    assert(d.len() == e.len());
    assert forall|i: int| 0 <= i < d.len() implies same_letter(#[trigger] d[i], e[i]) by {
        if has_hex_prefix(s) {
            assert(same_letter(s[i + 2], t[i + 2]));
        } else {
            assert(same_letter(s[i], t[i]));
        }
    }
    lemma_hex_ignores_case(d, e);
}

/// A text with a prefix denotes what its digits denote alone, unless the
/// digits themselves begin like a prefix.
pub proof fn law_prefix_is_optional(digits: Seq<char>)
    requires
        !has_hex_prefix(digits),
    ensures
        address_of(seq!['0', 'x'] + digits) == address_of(digits),
        address_of(seq!['0', 'X'] + digits) == address_of(digits),
{
    assert(digits_of(seq!['0', 'x'] + digits) =~= digits);
    assert(digits_of(seq!['0', 'X'] + digits) =~= digits);
}

/// Reads one hexadecimal digit.
pub fn digit_of_char(c: char) -> (r: Option<u8>)
    ensures
        match r {
            Some(d) => hex_digit(c) == Some(d as nat) && d < 16,
            None => hex_digit(c) is None,
        },
{
    let u: u32 = c as u32;
    if 48 <= u && u <= 57 {
        Some((u - 48) as u8)
    } else if 97 <= u && u <= 102 {
        Some((u - 87) as u8)
    } else if 65 <= u && u <= 70 {
        Some((u - 55) as u8)
    } else {
        None
    }
}

/// Parses an address text. Anything but hexadecimal digits behind an
/// optional prefix is refused, and so is a value too large for a word.
pub fn parse_address(text: &str) -> (r: Option<usize>)
    ensures
        r == address_of(text@),
{
    let n: usize = text.unicode_len();
    let mut start: usize = 0;
    if n >= 2 {
        let c0 = text.get_char(0);
        let c1 = text.get_char(1);
        if c0 == '0' && (c1 == 'x' || c1 == 'X') {
            start = 2;
        }
    }
    let ghost d = digits_of(text@);
    assert(d =~= text@.subrange(start as int, n as int));
    if start == n {
        return None;
    }
    let mut acc: usize = 0;
    let mut i: usize = start;
    assert(d.subrange(0, 0) =~= Seq::<char>::empty());
    while i < n
        invariant
            start <= i <= n,
            n == text@.len(),
            d == digits_of(text@),
            d == text@.subrange(start as int, n as int),
            all_hex(d.subrange(0, i - start)),
            acc == hex_value(d.subrange(0, i - start)),
        decreases n - i,
    {
        let c = text.get_char(i);
        let ghost k = i - start;
        assert(d[k] == c);
        assert(d.subrange(0, k + 1).drop_last() =~= d.subrange(0, k));
        assert(d.subrange(0, k + 1).last() == c);
        match digit_of_char(c) {
            None => {
                assert(hex_digit(d[k]) is None);
                return None;
            },
            Some(v) => {
                if acc > (usize::MAX - v as usize) / 16 {
                    proof {
                        lemma_hex_value_prefix(d, k + 1);
                        assert(hex_value(d.subrange(0, k + 1)) == 16 * acc + v);
                        assert(16 * acc + v > usize::MAX);
                    }
                    return None;
                }
                acc = acc * 16 + v as usize;
                assert forall|j: int| 0 <= j < k + 1 implies (#[trigger] hex_digit(
                    d.subrange(0, k + 1)[j],
                )) is Some by {
                    if j < k {
                        assert(d.subrange(0, k + 1)[j] == d.subrange(0, k)[j]);
                    }
                }
            },
        }
        i += 1;
    }
    assert(d.subrange(0, n - start) =~= d);
    Some(acc)
}

} // verus!
