//! Numbers as text: printing and reading them.

use vstd::prelude::*;
use vstd::string::{StrSliceExecFns, StringExecFns};

verus! {

/// The character for a digit.
pub open spec fn digit_char(d: int) -> char {
    if d == 0 {
        '0'
    } else if d == 1 {
        '1'
    } else if d == 2 {
        '2'
    } else if d == 3 {
        '3'
    } else if d == 4 {
        '4'
    } else if d == 5 {
        '5'
    } else if d == 6 {
        '6'
    } else if d == 7 {
        '7'
    } else if d == 8 {
        '8'
    } else if d == 9 {
        '9'
    } else if d == 10 {
        'a'
    } else if d == 11 {
        'b'
    } else if d == 12 {
        'c'
    } else if d == 13 {
        'd'
    } else if d == 14 {
        'e'
    } else {
        'f'
    }
}

/// A number in decimal, without leading zeros.
pub open spec fn decimal_text(n: nat) -> Seq<char>
    decreases n,
{
    if n < 10 {
        seq![digit_char(n as int)]
    } else {
        decimal_text(n / 10).push(digit_char((n % 10) as int))
    }
}

/// An integer in decimal, with a minus sign where it is negative.
pub open spec fn signed_text(v: int) -> Seq<char> {
    if v < 0 {
        "-"@ + decimal_text((-v) as nat)
    } else {
        decimal_text(v as nat)
    }
}

/// The last `width` hexadecimal digits of a number.
pub open spec fn hex_text(n: nat, width: nat) -> Seq<char>
    decreases width,
{
    if width == 0 {
        Seq::empty()
    } else {
        hex_text(n / 16, (width - 1) as nat).push(digit_char((n % 16) as int))
    }
}

/// A number in hexadecimal, without leading zeros.
pub open spec fn short_hex_text(n: nat) -> Seq<char>
    decreases n,
{
    if n < 16 {
        seq![digit_char(n as int)]
    } else {
        short_hex_text(n / 16).push(digit_char((n % 16) as int))
    }
}

fn digit(d: u64) -> (r: char)
    requires
        d < 16,
    ensures
        r == digit_char(d as int),
{
    match d {
        0 => '0',
        1 => '1',
        2 => '2',
        3 => '3',
        4 => '4',
        5 => '5',
        6 => '6',
        7 => '7',
        8 => '8',
        9 => '9',
        10 => 'a',
        11 => 'b',
        12 => 'c',
        13 => 'd',
        14 => 'e',
        _ => 'f',
    }
}

/// A number in decimal.
pub fn decimal(n: u64) -> (r: String)
    ensures
        r@ == decimal_text(n as nat),
    decreases n,
{
    let mut out = if n < 10 {
        String::new()
    } else {
        decimal(n / 10)
    };
    out.push(digit(n % 10));
    assert(n < 10 ==> out@ == seq![digit_char(n as int)]);
    out
}

/// A number in decimal, with zeros in front up to a width.
pub open spec fn zero_padded(n: nat, width: nat) -> Seq<char> {
    let t = decimal_text(n);
    if t.len() >= width {
        t
    } else {
        Seq::new((width - t.len()) as nat, |i: int| '0') + t
    }
}

/// Writes a number in decimal, with zeros in front up to a width.
pub fn padded_decimal(n: u64, width: usize) -> (r: String)
    ensures
        r@ == zero_padded(n as nat, width as nat),
{
    let digits = decimal(n);
    let len: usize = digits.as_str().unicode_len();
    if len >= width {
        return digits;
    }
    let zeros: usize = width - len;
    let mut out = String::new();
    let mut i: usize = 0;
    while i < zeros
        invariant
            i <= zeros,
            out@ == Seq::new(i as nat, |j: int| '0'),
        decreases zeros - i,
    {
        out.push('0');
        assert(out@ == Seq::new((i + 1) as nat, |j: int| '0'));
        i += 1;
    }
    out.append(digits.as_str());
    out
}

/// An integer in decimal.
pub fn signed_decimal(v: i32) -> (r: String)
    ensures
        r@ == signed_text(v as int),
{
    if v < 0 {
        let mut out = String::new();
        out.append("-");
        let n: u64 = (-(v as i64)) as u64;
        out.append(decimal(n).as_str());
        assert(out@ == signed_text(v as int));
        out
    } else {
        decimal(v as u64)
    }
}

/// A number in hexadecimal, with leading zeros up to `width` digits.
pub fn hex(n: u64, width: u8) -> (r: String)
    ensures
        r@ == hex_text(n as nat, width as nat),
    decreases width,
{
    if width == 0 {
        return String::new();
    }
    let mut out = hex(n / 16, width - 1);
    out.push(digit(n % 16));
    out
}

/// A number in hexadecimal, without leading zeros.
pub fn short_hex(n: u64) -> (r: String)
    ensures
        r@ == short_hex_text(n as nat),
    decreases n,
{
    let mut out = if n < 16 {
        String::new()
    } else {
        short_hex(n / 16)
    };
    out.push(digit(n % 16));
    assert(n < 16 ==> out@ == seq![digit_char(n as int)]);
    out
}

/// The value of a decimal digit.
pub open spec fn digit_value(c: char) -> Option<int> {
    if '0' <= c && c <= '9' {
        Some(c as int - '0' as int)
    } else {
        None
    }
}

/// The number that decimal digits stand for, if there is nothing else among them.
pub open spec fn digits_value(s: Seq<char>) -> Option<nat>
    decreases s.len(),
{
    if s.len() == 0 {
        Some(0)
    } else {
        match (digits_value(s.drop_last()), digit_value(s.last())) {
            (Some(v), Some(d)) => Some((v * 10 + d) as nat),
            _ => None,
        }
    }
}

/// The number that a text stands for, as an unsigned integer of at most `max`: one
/// or more decimal digits, after a plus sign or none.
pub open spec fn parsed_number(s: Seq<char>, max: nat) -> Option<nat> {
    let digits = if s.len() > 0 && s[0] == '+' {
        s.skip(1)
    } else {
        s
    };
    if digits.len() == 0 {
        None
    } else {
        match digits_value(digits) {
            Some(v) => if v <= max {
                Some(v)
            } else {
                None
            },
            None => None,
        }
    }
}

/// More digits stand for no smaller number.
proof fn lemma_digits_grow(s: Seq<char>, k: nat)
    requires
        k <= s.len(),
        digits_value(s) is Some,
    ensures
        digits_value(s.take(k as int)) is Some,
        digits_value(s.take(k as int))->0 <= digits_value(s)->0,
    decreases s.len() - k,
{
    if k == s.len() {
        assert(s.take(k as int) == s);
    } else {
        lemma_digits_grow(s, k + 1);
        assert(s.take((k + 1) as int).drop_last() == s.take(k as int));
    }
}

/// Reads an unsigned integer of at most `max`.
pub fn parse_number(s: &str, max: u64) -> (r: Option<u64>)
    ensures
        match r {
            Some(v) => parsed_number(s@, max as nat) == Some(v as nat),
            None => parsed_number(s@, max as nat) is None,
        },
{
    let chars = crate::text::chars_of(s);
    let start: usize = if chars.len() > 0 && chars[0] == '+' {
        1
    } else {
        0
    };
    let ghost digits = s@.skip(start as int);
    assert(start == 0 ==> digits == s@);
    if start == chars.len() {
        return None;
    }
    let mut value: u64 = 0;
    let mut i: usize = start;
    assert(digits.take(0) == Seq::<char>::empty());
    while i < chars.len()
        invariant
            start <= i <= chars@.len(),
            start <= 1,
            chars@ == s@,
            digits == s@.skip(start as int),
            digits.len() > 0,
            parsed_number(s@, max as nat) == (match digits_value(digits) {
                Some(v) => if v <= max {
                    Some(v)
                } else {
                    None
                },
                None => None,
            }),
            value <= max,
            digits_value(digits.take(i - start)) == Some(value as nat),
        decreases chars@.len() - i,
    {
        let c: char = chars[i];
        let ghost k = i - start;
        assert(digits[k] == c);
        assert(digits.take(k + 1).drop_last() == digits.take(k));
        assert(digits.take(k + 1).last() == c);
        if !('0' <= c && c <= '9') {
            proof {
                if digits_value(digits) is Some {
                    lemma_digits_grow(digits, (k + 1) as nat);
                }
            }
            return None;
        }
        let d: u64 = (c as u32 - '0' as u32) as u64;
        let next: u128 = value as u128 * 10 + d as u128;
        if next > max as u128 {
            proof {
                if digits_value(digits) is Some {
                    lemma_digits_grow(digits, (k + 1) as nat);
                }
            }
            return None;
        }
        value = next as u64;
        i += 1;
    }
    assert(digits.take(digits.len() as int) == digits);
    Some(value)
}

proof fn lemma_digit_roundtrip(d: int)
    requires
        0 <= d < 10,
    ensures
        digit_value(digit_char(d)) == Some(d),
{
}

/// A number that was printed in decimal reads back as it was.
pub proof fn law_decimal_reads_back(n: nat, max: nat)
    requires
        n <= max,
    ensures
        parsed_number(decimal_text(n), max) == Some(n),
{
    lemma_decimal_value(n);
    let s = decimal_text(n);
    assert(s[0] != '+') by {
        lemma_decimal_first(n);
    }
}

pub proof fn lemma_decimal_first(n: nat)
    ensures
        decimal_text(n).len() > 0,
        decimal_text(n)[0] != '+',
    decreases n,
{
    if n >= 10 {
        lemma_decimal_first(n / 10);
    }
}

proof fn lemma_decimal_value(n: nat)
    ensures
        digits_value(decimal_text(n)) == Some(n),
    decreases n,
{
    let s = decimal_text(n);
    lemma_digit_roundtrip((n % 10) as int);
    if n >= 10 {
        lemma_decimal_value(n / 10);
        assert(s.drop_last() == decimal_text(n / 10));
    } else {
        assert(s.drop_last() == Seq::<char>::empty());
        assert(digits_value(Seq::<char>::empty()) == Some(0nat));
    }
}

/// A number in decimal consists of digits.
pub proof fn law_decimal_has_digits_alone(n: nat)
    ensures
        decimal_text(n).len() > 0,
        forall|i: int|
            0 <= i < decimal_text(n).len() ==> '0' <= #[trigger] decimal_text(n)[i]
                && decimal_text(n)[i] <= '9',
        n >= 10 ==> decimal_text(n).len() == decimal_text(n / 10).len() + 1,
        n < 10 ==> decimal_text(n).len() == 1,
    decreases n,
{
    if n >= 10 {
        law_decimal_has_digits_alone(n / 10);
    }
}

/// The value of a hexadecimal digit.
pub open spec fn hex_value(c: char) -> int {
    if '0' <= c && c <= '9' {
        c as int - '0' as int
    } else {
        c as int - 'a' as int + 10
    }
}

/// The number that hexadecimal digits stand for.
pub open spec fn hex_number(s: Seq<char>) -> int
    decreases s.len(),
{
    if s.len() == 0 {
        0
    } else {
        hex_number(s.drop_last()) * 16 + hex_value(s.last())
    }
}

/// A number in hexadecimal stands for itself and has no leading zero; with a width it
/// has that many digits, which stand for it as far as they reach.
pub proof fn law_hexadecimal_reads_back(n: nat, width: nat)
    ensures
        hex_number(short_hex_text(n)) == n,
        n >= 16 ==> short_hex_text(n).len() == short_hex_text(n / 16).len() + 1,
        n < 16 ==> short_hex_text(n).len() == 1,
        hex_text(n, width).len() == width,
        width > 0 ==> hex_text(n, width).drop_last() == hex_text(n / 16, (width - 1) as nat)
            && hex_value(hex_text(n, width).last()) == n % 16,
    decreases n,
{
    let s = short_hex_text(n);
    lemma_hex_len(n, width);
    if n >= 16 {
        law_hexadecimal_reads_back(n / 16, 0);
        assert(s.drop_last() == short_hex_text(n / 16));
    } else {
        assert(s.drop_last() == Seq::<char>::empty());
        assert(hex_number(Seq::<char>::empty()) == 0);
    }
    if width > 0 {
        assert(hex_text(n, width).drop_last() == hex_text(n / 16, (width - 1) as nat));
    }
}

proof fn lemma_hex_len(n: nat, width: nat)
    ensures
        hex_text(n, width).len() == width,
    decreases width,
{
    if width > 0 {
        lemma_hex_len(n / 16, (width - 1) as nat);
    }
}

/// A number with zeros in front has as many characters as the width asks, or as its
/// digits where those are more, and is read as the number.
pub proof fn law_padded_number_reads_back(n: nat, width: nat, max: nat)
    requires
        n <= max,
    ensures
        zero_padded(n, width).len() == (if decimal_text(n).len() < width {
            width
        } else {
            decimal_text(n).len()
        }),
        parsed_number(zero_padded(n, width), max) == Some(n),
{
    let t = decimal_text(n);
    law_decimal_reads_back(n, max);
    lemma_decimal_value(n);
    if t.len() < width {
        lemma_zeros_in_front((width - t.len()) as nat, t);
        assert(zero_padded(n, width)[0] == '0');
    }
}

proof fn lemma_zeros_in_front(k: nat, t: Seq<char>)
    ensures
        digits_value(Seq::new(k, |i: int| '0') + t) == digits_value(t),
    decreases t.len(), k,
{
    let zeros = Seq::new(k, |i: int| '0');
    let s = zeros + t;
    if t.len() > 0 {
        lemma_zeros_in_front(k, t.drop_last());
        assert(s.drop_last() == zeros + t.drop_last());
        assert(s.last() == t.last());
    } else if k > 0 {
        lemma_zeros_in_front((k - 1) as nat, t);
        assert(s.drop_last() == Seq::new((k - 1) as nat, |i: int| '0') + t);
        assert(s.last() == '0');
    } else {
        assert(s == t);
    }
}

/// A negative number is written as its opposite behind a minus sign.
pub proof fn law_sign_tells_negative_numbers(v: int)
    ensures
        v < 0 ==> signed_text(v)[0] == '-' && signed_text(v).skip(1) == decimal_text((-v) as nat),
        v >= 0 ==> signed_text(v) == decimal_text(v as nat) && signed_text(v)[0] != '-',
{
    reveal_strlit("-");
    if v < 0 {
        assert(signed_text(v).skip(1) == decimal_text((-v) as nat));
    } else {
        law_decimal_has_digits_alone(v as nat);
        assert('0' <= decimal_text(v as nat)[0]);
    }
}

/// Digits are read from the left, each ten times less than the one before it. A plus
/// sign in front changes nothing. Any other character, or none, makes no number, and
/// neither does one that is too large.
pub proof fn law_digits_are_read_from_the_left(s: Seq<char>, c: char, v: nat, max: nat)
    ensures
        '0' <= c <= '9' && c as int - 48 <= max ==> parsed_number(seq![c], max) == Some(
            (c as int - 48) as nat,
        ),
        '0' <= c <= '9' && parsed_number(s, v) == Some(v) ==> parsed_number(s.push(c), max) == (
        if v * 10 + (c as int - 48) <= max {
            Some((v * 10 + (c as int - 48)) as nat)
        } else {
            None
        }),
        !('0' <= c <= '9') && s.len() > 0 ==> parsed_number(s.push(c), max) is None,
        !('0' <= c <= '9') ==> parsed_number(seq![c], max) is None,
        parsed_number(Seq::empty(), max) is None,
        s.len() > 0 && s[0] != '+' ==> parsed_number(seq!['+'] + s, max) == parsed_number(s, max),
{
    let one = seq![c];
    assert(one.drop_last() == Seq::<char>::empty());
    assert(one.skip(1) == Seq::<char>::empty());
    assert(s.push(c).drop_last() == s);
    if s.len() > 0 {
        assert(s.push(c).skip(1) == s.skip(1).push(c));
        assert(s.skip(1).push(c).drop_last() == s.skip(1));
        assert(s.push(c)[0] == s[0]);
    }
    assert((seq!['+'] + s).skip(1) == s);
}

} // verus!
