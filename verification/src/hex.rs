//! Hexadecimal digits and fixed-width hexadecimal numbers.

use crate::bits::extract;
use vstd::arithmetic::div_mod::lemma_div_denominator;
use vstd::arithmetic::power2::{lemma2_to64, lemma_pow2_adds, pow2};
use vstd::prelude::*;

verus! {

/// Whether `c` is one of `0`-`9`, `a`-`f` or `A`-`F`.
pub open spec fn is_hex_digit(c: char) -> bool {
    ||| '0' <= c <= '9'
    ||| 'a' <= c <= 'f'
    ||| 'A' <= c <= 'F'
}

/// The number that a hexadecimal digit stands for; a letter counts the same
/// in either case.
pub open spec fn hex_digit_value(c: char) -> nat {
    if '0' <= c <= '9' {
        (c as nat - '0' as nat) as nat
    } else if 'a' <= c <= 'f' {
        (c as nat - 'a' as nat + 10) as nat
    } else if 'A' <= c <= 'F' {
        (c as nat - 'A' as nat + 10) as nat
    } else {
        0
    }
}

/// Whether every character of `s` is a hexadecimal digit.
pub open spec fn is_hex_text(s: Seq<char>) -> bool {
    forall|i: int| 0 <= i < s.len() ==> is_hex_digit(#[trigger] s[i])
}

/// The number that the digits of `s` write in base sixteen, the most
/// significant digit first.
pub open spec fn hex_value(s: Seq<char>) -> nat
    decreases s.len(),
{
    if s.len() == 0 {
        0
    } else {
        16 * hex_value(s.drop_last()) + hex_digit_value(s.last())
    }
}

/// The index of the first character of `s` that is no hexadecimal digit, or
/// the length of `s` where all are.
pub open spec fn hex_prefix_len(s: Seq<char>) -> nat
    decreases s.len(),
{
    if s.len() == 0 || !is_hex_digit(s[0]) {
        0
    } else {
        1 + hex_prefix_len(s.drop_first())
    }
}

/// The characters of `s` before index `at` are hexadecimal digits and the
/// one at `at`, if there is one, is not: then `at` is the length of the
/// hexadecimal prefix of `s`.
pub proof fn lemma_hex_prefix_len(s: Seq<char>, at: int)
    requires
        0 <= at <= s.len(),
        is_hex_text(s.take(at)),
        at < s.len() ==> !is_hex_digit(s[at]),
    ensures
        hex_prefix_len(s) == at,
    decreases at,
{
    if at > 0 {
        assert(s.take(at)[0] == s[0]);
        let rest = s.drop_first();
        assert forall|i: int| 0 <= i < rest.take(at - 1).len() implies is_hex_digit(
            #[trigger] rest.take(at - 1)[i],
        ) by {
            assert(rest.take(at - 1)[i] == s.take(at)[i + 1]);
        }
        lemma_hex_prefix_len(rest, at - 1);
    }
}

/// Two stretches of hexadecimal digits that follow one another in `s` make
/// one stretch of hexadecimal digits.
pub proof fn lemma_hex_text_join(s: Seq<char>, from: int, mid: int, to: int)
    requires
        0 <= from <= mid <= to <= s.len(),
        is_hex_text(s.subrange(from, mid)),
        is_hex_text(s.subrange(mid, to)),
    ensures
        is_hex_text(s.subrange(from, to)),
{
    let left = s.subrange(from, mid);
    let right = s.subrange(mid, to);
    let both = s.subrange(from, to);
    assert forall|i: int| 0 <= i < both.len() implies is_hex_digit(#[trigger] both[i]) by {
        if i < left.len() {
        } else {
            assert(both[i] == right[i - left.len()]);
        }
    }
}

/// A number of `n` hexadecimal digits takes at most `4 * n` bits.
pub proof fn lemma_hex_value_bound(s: Seq<char>)
    ensures
        hex_value(s) < pow2(4 * s.len()),
    decreases s.len(),
{
    lemma2_to64();
    if s.len() > 0 {
        lemma_hex_value_bound(s.drop_last());
        lemma_pow2_adds(4 * s.drop_last().len(), 4);
    }
}

/// The lower-case hexadecimal digit that stands for `value`, a number below
/// sixteen.
pub open spec fn hex_digit_char(value: nat) -> char {
    if value < 10 {
        ('0' as nat + value) as char
    } else {
        ('a' as nat + value - 10) as char
    }
}

/// The `width` lower-case hexadecimal digits that write `value`, the most
/// significant digit first. Of a number that takes more digits, these are
/// the last `width`.
pub open spec fn hex_text(value: nat, width: nat) -> Seq<char>
    decreases width,
{
    if width == 0 {
        Seq::empty()
    } else {
        hex_text(value / 16, (width - 1) as nat).push(hex_digit_char(value % 16))
    }
}

/// The lower-case form of a hexadecimal digit; any other character is left
/// as it is.
pub open spec fn lower_hex_digit(c: char) -> char {
    if 'A' <= c <= 'F' {
        (c as nat - 'A' as nat + 'a' as nat) as char
    } else {
        c
    }
}

/// `s` with its hexadecimal digits in lower case.
pub open spec fn lower_hex(s: Seq<char>) -> Seq<char> {
    Seq::new(s.len(), |i: int| lower_hex_digit(s[i]))
}

/// The bytes that `s` writes, two hexadecimal digits to a byte, the upper
/// half of each byte first. A last digit without a partner is left out.
pub open spec fn hex_bytes(s: Seq<char>) -> Seq<nat> {
    Seq::new(s.len() / 2, |i: int| 16 * hex_digit_value(s[2 * i]) + hex_digit_value(s[2 * i + 1]))
}

/// The case of its letters does not change the bytes that a text writes.
pub proof fn lemma_hex_bytes_ignore_case(s: Seq<char>)
    ensures
        hex_bytes(lower_hex(s)) == hex_bytes(s),
{
}

/// A number written in `width` digits takes `width` characters.
pub proof fn lemma_hex_text_len(value: nat, width: nat)
    ensures
        hex_text(value, width).len() == width,
    decreases width,
{
    if width > 0 {
        lemma_hex_text_len(value / 16, (width - 1) as nat);
    }
}

/// Writing a number in `width` digits gives `width` hexadecimal digits, and
/// reading them gives the number back, if it fits in `width` digits.
pub proof fn lemma_hex_value_of_text(value: nat, width: nat)
    requires
        value < pow2(4 * width),
    ensures
        hex_text(value, width).len() == width,
        is_hex_text(hex_text(value, width)),
        lower_hex(hex_text(value, width)) == hex_text(value, width),
        hex_value(hex_text(value, width)) == value,
    decreases width,
{
    lemma2_to64();
    if width > 0 {
        let shorter = (width - 1) as nat;
        lemma_pow2_adds(4 * shorter, 4);
        lemma_hex_value_of_text(value / 16, shorter);
        let text = hex_text(value, width);
        assert(text.drop_last() == hex_text(value / 16, shorter));
    } else {
    }
}

/// Reading hexadecimal digits and writing the number in as many digits gives
/// the same digits, in lower case.
pub proof fn lemma_hex_text_of_value(s: Seq<char>)
    requires
        is_hex_text(s),
    ensures
        hex_text(hex_value(s), s.len()) == lower_hex(s),
    decreases s.len(),
{
    if s.len() > 0 {
        let front = s.drop_last();
        lemma_hex_text_of_value(front);
    } else {
    }
}

/// Reads one hexadecimal digit.
pub fn hex_digit(c: char) -> (r: Option<u8>)
    ensures
        r is Some <==> is_hex_digit(c),
        r matches Some(v) ==> v == hex_digit_value(c) && v < 16,
{
    if '0' <= c && c <= '9' {
        Some((c as u32 - '0' as u32) as u8)
    } else if 'a' <= c && c <= 'f' {
        Some((c as u32 - 'a' as u32 + 10) as u8)
    } else if 'A' <= c && c <= 'F' {
        Some((c as u32 - 'A' as u32 + 10) as u8)
    } else {
        None
    }
}

/// Reads the eight hexadecimal digits of `text` that begin at `start` as one
/// 32-bit word, or finds the first character among them that is no digit.
pub(crate) fn parse_word(text: &str, start: usize) -> (r: Result<u32, usize>)
    requires
        start + 8 <= text@.len(),
        start + 8 <= usize::MAX,
    ensures
        match r {
            Ok(word) => {
                &&& is_hex_text(text@.subrange(start as int, start + 8))
                &&& word == hex_value(text@.subrange(start as int, start + 8))
            },
            Err(at) => {
                &&& start <= at < start + 8
                &&& !is_hex_digit(text@[at as int])
                &&& is_hex_text(text@.subrange(start as int, at as int))
            },
        },
{
    let mut word: u32 = 0;
    let mut read: usize = 0;
    while read < 8
        invariant
            read <= 8,
            start + 8 <= text@.len(),
            start + 8 <= usize::MAX,
            is_hex_text(text@.subrange(start as int, start + read)),
            word == hex_value(text@.subrange(start as int, start + read)),
        decreases 8 - read,
    {
        let at: usize = start + read;
        match hex_digit(text.get_char(at)) {
            None => {
                return Err(at);
            },
            Some(digit) => {
                proof {
                    let before = text@.subrange(start as int, start + read);
                    let after = text@.subrange(start as int, start + read + 1);
                    assert(after.drop_last() == before);
                    lemma_hex_value_bound(before);
                    lemma2_to64();
                    if read < 7 {
                    }
                }
                word = word * 16 + digit as u32;
                read = read + 1;
            },
        }
    }
    Ok(word)
}

/// The lower-case hexadecimal digit for `value`, as a text of one character.
pub(crate) fn digit_text(value: u8) -> (r: &'static str)
    requires
        value < 16,
    ensures
        r@ == seq![hex_digit_char(value as nat)],
{
    proof {
        reveal_strlit("0");
        reveal_strlit("1");
        reveal_strlit("2");
        reveal_strlit("3");
        reveal_strlit("4");
        reveal_strlit("5");
        reveal_strlit("6");
        reveal_strlit("7");
        reveal_strlit("8");
        reveal_strlit("9");
        reveal_strlit("a");
        reveal_strlit("b");
        reveal_strlit("c");
        reveal_strlit("d");
        reveal_strlit("e");
        reveal_strlit("f");
    }
    let r = match value {
        0 => "0",
        1 => "1",
        2 => "2",
        3 => "3",
        4 => "4",
        5 => "5",
        6 => "6",
        7 => "7",
        8 => "8",
        9 => "9",
        10 => "a",
        11 => "b",
        12 => "c",
        13 => "d",
        14 => "e",
        _ => "f",
    };
    r
}

/// Appends to `out` the eight lower-case hexadecimal digits of `word`.
pub fn push_word(out: &mut String, word: u32)
    ensures
        final(out)@ == old(out)@ + hex_text(word as nat, 8),
{
    let ghost before = out@;
    let mut written: u32 = 0;
    proof {
        lemma2_to64();
    }
    while written < 8
        invariant
            written <= 8,
            out@ == before + hex_text(
                word as nat / pow2((32 - 4 * written) as nat),
                written as nat,
            ),
        decreases 8 - written,
    {
        let low: u32 = 28 - 4 * written;
        let digit: u32 = extract(word, low, 4);
        proof {
            lemma2_to64();
            lemma_div_denominator(word as int, pow2(low as nat) as int, 16);
        }
        out.append(digit_text(digit as u8));
        written = written + 1;
    }
    proof {
        assert(word as nat / pow2(0) == word as nat);
    }
}

} // verus!
