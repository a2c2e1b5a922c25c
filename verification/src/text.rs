//! Text: decimal numbers as digits and back, and strings built one
//! character at a time.

use vstd::prelude::*;
use vstd::string::StrSliceExecFns;

verus! {

/// `String::push` of the standard library: puts `c` at the end of `s`.
#[verifier::external_body]
pub(crate) fn string_push(s: &mut String, c: char)
    ensures
        final(s)@ == old(s)@.push(c),
{
    s.push(c)
}

/// The number that a decimal digit stands for.
pub open spec fn digit_value(c: char) -> Option<int> {
    match c {
        '0' => Some(0),
        '1' => Some(1),
        '2' => Some(2),
        '3' => Some(3),
        '4' => Some(4),
        '5' => Some(5),
        '6' => Some(6),
        '7' => Some(7),
        '8' => Some(8),
        '9' => Some(9),
        _ => None,
    }
}

/// Whether every character of `s` is a decimal digit.
pub open spec fn all_digits(s: Seq<char>) -> bool {
    forall|i: int| 0 <= i < s.len() ==> digit_value(#[trigger] s[i]) is Some
}

/// The number that a string of decimal digits stands for.
pub open spec fn decimal_value(s: Seq<char>) -> int
    decreases s.len(),
{
    if s.len() == 0 {
        0
    } else {
        decimal_value(s.drop_last()) * 10 + match digit_value(s.last()) {
            Some(d) => d,
            None => 0,
        }
    }
}

/// The 16-bit number that `s` stands for: `s` must hold one decimal digit or
/// more and nothing else, and the number must not exceed 32767.
pub open spec fn decimal_i16(s: Seq<char>) -> Option<int> {
    if s.len() > 0 && all_digits(s) && decimal_value(s) <= i16::MAX {
        Some(decimal_value(s))
    } else {
        None
    }
}

/// `s` without its first and its last character; nothing if `s` holds fewer
/// than two characters.
pub open spec fn between_ends(s: Seq<char>) -> Seq<char> {
    if s.len() >= 2 {
        s.subrange(1, s.len() - 1)
    } else {
        Seq::empty()
    }
}

/// A digit string never stands for less than one of its prefixes does.
pub proof fn lemma_decimal_value_grows(s: Seq<char>, n: int)
    requires
        0 <= n <= s.len(),
    ensures
        0 <= decimal_value(s.take(n)) <= decimal_value(s),
    decreases s.len() - n,
{
    lemma_decimal_value_nonnegative(s.take(n));
    if n < s.len() {
        lemma_decimal_value_grows(s, n + 1);
        assert(s.take(n + 1).drop_last() =~= s.take(n));
        lemma_decimal_value_nonnegative(s.take(n));
    } else {
        assert(s.take(n) =~= s);
    }
}

/// A digit string stands for no negative number.
proof fn lemma_decimal_value_nonnegative(s: Seq<char>)
    ensures
        0 <= decimal_value(s),
    decreases s.len(),
{
    if s.len() > 0 {
        lemma_decimal_value_nonnegative(s.drop_last());
    }
}

/// The number that the digit `c` stands for.
pub fn digit_of(c: char) -> (r: Option<i16>)
    ensures
        match r {
            Some(d) => digit_value(c) == Some(d as int),
            None => digit_value(c) is None,
        },
{
    match c {
        '0' => Some(0),
        '1' => Some(1),
        '2' => Some(2),
        '3' => Some(3),
        '4' => Some(4),
        '5' => Some(5),
        '6' => Some(6),
        '7' => Some(7),
        '8' => Some(8),
        '9' => Some(9),
        _ => None,
    }
}

/// Reads `data` as a decimal number of 16 bits.
pub fn parse_decimal(data: &str) -> (r: Option<i16>)
    ensures
        match r {
            Some(v) => decimal_i16(data@) == Some(v as int),
            None => decimal_i16(data@) is None,
        },
{
    let mut value: i16 = 0;
    let mut any = false;
    for c in it: data.chars()
        invariant
            it.seq() == data@,
            any == (it.index() > 0),
            all_digits(data@.take(it.index() as int)),
            0 <= value,
            value == decimal_value(data@.take(it.index() as int)),
    {
        let ghost n = it.index() as int;
        proof {
            assert(data@.take(n + 1).drop_last() =~= data@.take(n));
            assert(data@.take(n + 1).last() == c);
        }
        match digit_of(c) {
            None => {
                assert(digit_value(data@[n]) is None);
                return None;
            },
            Some(d) => {
                if value > (i16::MAX - d) / 10 {
                    proof {
                        lemma_decimal_value_grows(data@, n + 1);
                    }
                    return None;
                }
                value = value * 10 + d;
                any = true;
                assert(all_digits(data@.take(n + 1))) by {
                    assert forall|i: int| 0 <= i < n + 1 implies digit_value(
                        #[trigger] data@.take(n + 1)[i],
                    ) is Some by {
                        if i < n {
                            assert(data@.take(n)[i] == data@.take(n + 1)[i]);
                        }
                    }
                }
            },
        }
    }
    assert(data@.take(data@.len() as int) =~= data@);
    if any {
        Some(value)
    } else {
        None
    }
}

/// A copy of `data` without its first and its last character.
pub fn strip_ends(data: &str) -> (r: String)
    ensures
        r@ == between_ends(data@),
{
    let len: usize = data.unicode_len();
    let mut out = String::new();
    let mut i: usize = 0;
    for d in it: data.chars()
        invariant
            it.seq() == data@,
            len == data@.len(),
            i == it.index(),
            out@ == (if i >= 1 && len >= 2 {
                data@.subrange(1, if i < len - 1 {
                    i as int
                } else {
                    len - 1
                })
            } else {
                Seq::<char>::empty()
            }),
    {
        let ghost before = out@;
        if 0 < i && i + 1 < len {
            string_push(&mut out, d);
            assert(out@ =~= data@.subrange(1, i + 1));
        } else if i == 0 && len >= 2 {
            assert(out@ =~= data@.subrange(1, 1));
        }
        i += 1;
    }
    out
}

/// The character that writes the digit `d`.
pub open spec fn digit_char(d: int) -> char {
    if d == 0 {
        '0'
    } else if d == 1 {
        '1'
    } else if d == 2 {
        '2'
    } else if d == 3 {
        '3'
    } else if d == 4 {
        '4'
    } else if d == 5 {
        '5'
    } else if d == 6 {
        '6'
    } else if d == 7 {
        '7'
    } else if d == 8 {
        '8'
    } else {
        '9'
    }
}

/// The decimal digits of `n`, without leading zeros.
pub open spec fn digits_text(n: nat) -> Seq<char>
    decreases n,
{
    if n < 10 {
        seq![digit_char(n as int)]
    } else {
        digits_text(n / 10).push(digit_char((n % 10) as int))
    }
}

/// The number `n` in decimal, with a minus sign in front if it is negative.
pub open spec fn int_text(n: int) -> Seq<char> {
    if n < 0 {
        seq!['-'] + digits_text((-n) as nat)
    } else {
        digits_text(n as nat)
    }
}

/// The character that writes the digit `d`.
fn digit_to_char(d: u32) -> (c: char)
    requires
        d < 10,
    ensures
        c == digit_char(d as int),
{
    match d {
        0 => '0',
        1 => '1',
        2 => '2',
        3 => '3',
        4 => '4',
        5 => '5',
        6 => '6',
        7 => '7',
        8 => '8',
        _ => '9',
    }
}

/// Puts the decimal digits of `n` at the end of `out`.
fn push_digits(out: &mut String, n: u32)
    ensures
        final(out)@ == old(out)@ + digits_text(n as nat),
    decreases n,
{
    if n >= 10 {
        push_digits(out, n / 10);
    }
    string_push(out, digit_to_char(n % 10));
    assert(out@ =~= old(out)@ + digits_text(n as nat));
}

/// Writes `n` in decimal.
pub fn int_to_string(n: i16) -> (r: String)
    ensures
        r@ == int_text(n as int),
{
    let mut out = String::new();
    if n < 0 {
        string_push(&mut out, '-');
        let magnitude: u32 = (-(n as i32)) as u32;
        push_digits(&mut out, magnitude);
    } else {
        push_digits(&mut out, n as u32);
    }
    assert(out@ =~= int_text(n as int));
    out
}

} // verus!
