//! Character-level helpers shared by the assembler and the disassembler.

use vstd::prelude::*;
use vstd::string::{StrSliceExecFns, StringExecFns};

verus! {

/// Relies on `String::push`, documented to append the given `char` to the
/// end of the string.
pub assume_specification[ String::push ](s: &mut String, ch: char)
    ensures
        final(s)@ == old(s)@.push(ch),
;

/// The characters of `s`, in order.
pub fn chars_of(s: &str) -> (r: Vec<char>)
    ensures
        r@ == s@,
{
    let mut r: Vec<char> = Vec::new();
    for c in it: s.chars()
        invariant
            r@ == it.seq().take(it.index() as int),
    {
        r.push(c);
    }
    r
}

/// A string holding the characters `t[start..end]`.
pub fn string_of(t: &Vec<char>, start: usize, end: usize) -> (r: String)
    requires
        start <= end <= t.len(),
    ensures
        r@ == t@.subrange(start as int, end as int),
{
    let mut r = String::new();
    let mut i: usize = start;
    while i < end
        invariant
            start <= i <= end <= t.len(),
            r@ == t@.subrange(start as int, i as int),
        decreases end - i,
    {
        r.push(t[i]);
        i = i + 1;
        assert(r@ =~= t@.subrange(start as int, i as int));
    }
    r
}

/// An ASCII decimal digit.
pub open spec fn is_digit(c: char) -> bool {
    '0' <= c && c <= '9'
}

/// Only decimal digits.
pub open spec fn all_digits(d: Seq<char>) -> bool {
    forall|i: int| 0 <= i < d.len() ==> is_digit(#[trigger] d[i])
}

/// The value of a string of decimal digits.
pub open spec fn digits_value(d: Seq<char>) -> nat
    decreases d.len(),
{
    if d.len() == 0 {
        0
    } else {
        digits_value(d.drop_last()) * 10 + (d.last() as u32 - '0' as u32) as nat
    }
}

/// The digits of an unsigned decimal literal: an optional `+`, then one or
/// more digits.
pub open spec fn unsigned_digits(t: Seq<char>) -> Option<Seq<char>> {
    let d = if t.len() > 0 && t[0] == '+' {
        t.drop_first()
    } else {
        t
    };
    if d.len() > 0 && all_digits(d) {
        Some(d)
    } else {
        None
    }
}

/// `t` read as an unsigned 8-bit decimal literal.
pub open spec fn parse_u8_spec(t: Seq<char>) -> Option<u8> {
    match unsigned_digits(t) {
        Some(d) => if digits_value(d) <= 255 {
            Some(digits_value(d) as u8)
        } else {
            None
        },
        None => None,
    }
}

/// `t` read as a signed 32-bit decimal literal: an optional sign, then one
/// or more digits, the value in range.
pub open spec fn parse_i32_spec(t: Seq<char>) -> Option<i32> {
    if t.len() > 0 && t[0] == '-' {
        let d = t.drop_first();
        if d.len() > 0 && all_digits(d) && digits_value(d) <= 0x8000_0000 {
            Some((-digits_value(d)) as i32)
        } else {
            None
        }
    } else {
        match unsigned_digits(t) {
            Some(d) => if digits_value(d) <= 0x7fff_ffff {
                Some(digits_value(d) as i32)
            } else {
                None
            },
            None => None,
        }
    }
}

/// Beyond this, a literal is too large for any operand.
pub const DIGITS_CAP: u64 = 0x1_0000_0000;

/// `v`, but at most `DIGITS_CAP`.
pub open spec fn capped(v: nat) -> nat {
    if v < DIGITS_CAP {
        v
    } else {
        DIGITS_CAP as nat
    }
}

/// The value of the digits `t[start..]`, capped at `DIGITS_CAP`, or `None`
/// unless they are one or more digits.
fn digits_from(t: &Vec<char>, start: usize) -> (r: Option<u64>)
    requires
        start <= t.len(),
    ensures
        ({
            let d = t@.subrange(start as int, t.len() as int);
            match r {
                Some(v) => d.len() > 0 && all_digits(d) && v == capped(digits_value(d)),
                None => !(d.len() > 0 && all_digits(d)),
            }
        }),
{
    if start == t.len() {
        return None;
    }
    let mut acc: u64 = 0;
    let mut i: usize = start;
    while i < t.len()
        invariant
            start <= i <= t.len(),
            all_digits(t@.subrange(start as int, i as int)),
            acc == capped(digits_value(t@.subrange(start as int, i as int))),
        decreases t.len() - i,
    {
        let c = t[i];
        if !('0' <= c && c <= '9') {
            assert(!is_digit(t@.subrange(start as int, t.len() as int)[i - start]));
            return None;
        }
        let ghost prev = t@.subrange(start as int, i as int);
        assert(t@.subrange(start as int, i + 1).drop_last() =~= prev);
        let d = (c as u32 - '0' as u32) as u64;
        let next = acc * 10 + d;
        acc = if next < DIGITS_CAP {
            next
        } else {
            DIGITS_CAP
        };
        i = i + 1;
        assert(all_digits(t@.subrange(start as int, i as int))) by {
            assert forall|j: int| 0 <= j < i - start implies is_digit(
                #[trigger] t@.subrange(start as int, i as int)[j],
            ) by {
                if j < i - 1 - start {
                    assert(t@.subrange(start as int, i as int)[j] == prev[j]);
                }
            }
        }
    }
    Some(acc)
}

/// Reads an unsigned 8-bit decimal literal.
pub fn parse_u8(t: &Vec<char>) -> (r: Option<u8>)
    ensures
        r == parse_u8_spec(t@),
{
    let start: usize = if t.len() > 0 && t[0] == '+' {
        1
    } else {
        0
    };
    let ghost d = if t@.len() > 0 && t@[0] == '+' {
        t@.drop_first()
    } else {
        t@
    };
    assert(t@.subrange(start as int, t.len() as int) =~= d);
    match digits_from(t, start) {
        Some(v) => if v <= 255 {
            Some(v as u8)
        } else {
            None
        },
        None => None,
    }
}

/// Reads a signed 32-bit decimal literal.
pub fn parse_i32(t: &Vec<char>) -> (r: Option<i32>)
    ensures
        r == parse_i32_spec(t@),
{
    if t.len() > 0 && t[0] == '-' {
        assert(t@.subrange(1, t.len() as int) =~= t@.drop_first());
        match digits_from(t, 1) {
            Some(v) => if v <= 0x8000_0000 {
                Some((-(v as i64)) as i32)
            } else {
                None
            },
            None => None,
        }
    } else {
        let start: usize = if t.len() > 0 && t[0] == '+' {
            1
        } else {
            0
        };
        let ghost d = if t@.len() > 0 && t@[0] == '+' {
            t@.drop_first()
        } else {
            t@
        };
        assert(t@.subrange(start as int, t.len() as int) =~= d);
        match digits_from(t, start) {
            Some(v) => if v <= 0x7fff_ffff {
                Some(v as i32)
            } else {
                None
            },
            None => None,
        }
    }
}

/// The digits used in decimal and hexadecimal numerals.
pub open spec fn digit_chars() -> Seq<char> {
    seq!['0', '1', '2', '3', '4', '5', '6', '7', '8', '9', 'A', 'B', 'C', 'D', 'E', 'F']
}

/// The numeral of `v` in base `base` (10 or 16), upper-case, without
/// leading zeros.
pub open spec fn digits(v: nat, base: nat) -> Seq<char>
    recommends
        base == 10 || base == 16,
    decreases v via digits_decreases
{
    if base < 2 || v < base {
        seq![digit_chars()[v as int]]
    } else {
        digits(v / base, base).push(digit_chars()[(v % base) as int])
    }
}

#[via_fn]
proof fn digits_decreases(v: nat, base: nat) {
    if !(base < 2 || v < base) {
        assert(v / base < v) by (nonlinear_arith)
            requires
                base >= 2,
                v >= base,
        ;
    }
}

/// `s` with zeros in front up to width `w`.
pub open spec fn zero_pad(s: Seq<char>, w: nat) -> Seq<char> {
    if s.len() < w {
        Seq::new((w - s.len()) as nat, |i: int| '0') + s
    } else {
        s
    }
}

/// `s` with spaces after it up to width `w`.
pub open spec fn space_pad(s: Seq<char>, w: nat) -> Seq<char> {
    if s.len() < w {
        s + Seq::new((w - s.len()) as nat, |i: int| ' ')
    } else {
        s
    }
}

/// Upper-case hexadecimal of `v`, zero-padded to at least `w` digits.
pub open spec fn hex_text(v: nat, w: nat) -> Seq<char> {
    zero_pad(digits(v, 16), w)
}

/// The decimal numeral of `i`, with a `-` when negative.
pub open spec fn decimal_text(i: int) -> Seq<char> {
    if i < 0 {
        seq!['-'] + digits((-i) as nat, 10)
    } else {
        digits(i as nat, 10)
    }
}

fn digit_char(d: u64) -> (r: char)
    requires
        d < 16,
    ensures
        r == digit_chars()[d as int],
{
    match d {
        0 => '0',
        1 => '1',
        2 => '2',
        3 => '3',
        4 => '4',
        5 => '5',
        6 => '6',
        7 => '7',
        8 => '8',
        9 => '9',
        10 => 'A',
        11 => 'B',
        12 => 'C',
        13 => 'D',
        14 => 'E',
        _ => 'F',
    }
}

/// Appends the numeral of `v` in base `base`.
pub fn push_digits(out: &mut String, v: u64, base: u64)
    requires
        base == 10 || base == 16,
    ensures
        final(out)@ == old(out)@ + digits(v as nat, base as nat),
    decreases v,
{
    if v >= base {
        push_digits(out, v / base, base);
        out.push(digit_char(v % base));
        assert(final(out)@ =~= old(out)@ + digits(v as nat, base as nat));
    } else {
        out.push(digit_char(v));
        assert(final(out)@ =~= old(out)@ + digits(v as nat, base as nat));
    }
}

/// Appends `c` `n` times.
pub fn push_repeat(out: &mut String, c: char, n: usize)
    ensures
        final(out)@ == old(out)@ + Seq::new(n as nat, |i: int| c),
{
    let mut k: usize = 0;
    while k < n
        invariant
            k <= n,
            out@ == old(out)@ + Seq::new(k as nat, |i: int| c),
        decreases n - k,
    {
        out.push(c);
        k = k + 1;
        assert(out@ =~= old(out)@ + Seq::new(k as nat, |i: int| c));
    }
}

/// Appends the hexadecimal of `v`, zero-padded to `w` digits.
pub fn push_hex(out: &mut String, v: u64, w: usize)
    ensures
        final(out)@ == old(out)@ + hex_text(v as nat, w as nat),
{
    let mut d = String::new();
    push_digits(&mut d, v, 16);
    assert(d@ =~= digits(v as nat, 16));
    let n = d.as_str().unicode_len();
    if n < w {
        push_repeat(out, '0', w - n);
    }
    out.append(d.as_str());
    assert(final(out)@ =~= old(out)@ + hex_text(v as nat, w as nat));
}

/// Appends the decimal numeral of `i`.
pub fn push_decimal(out: &mut String, i: i64)
    ensures
        final(out)@ == old(out)@ + decimal_text(i as int),
{
    if i < 0 {
        out.push('-');
        let m: u64 = if i == i64::MIN {
            0x8000_0000_0000_0000
        } else {
            (-i) as u64
        };
        push_digits(out, m, 10);
        assert(final(out)@ =~= old(out)@ + decimal_text(i as int));
    } else {
        push_digits(out, i as u64, 10);
    }
}

/// Appends the decimal numeral of `v`, space-padded to `w` characters.
pub fn push_decimal_padded(out: &mut String, v: u64, w: usize)
    ensures
        final(out)@ == old(out)@ + space_pad(digits(v as nat, 10), w as nat),
{
    let mut d = String::new();
    push_digits(&mut d, v, 10);
    assert(d@ =~= digits(v as nat, 10));
    let n = d.as_str().unicode_len();
    out.append(d.as_str());
    if n < w {
        push_repeat(out, ' ', w - n);
    }
    assert(final(out)@ =~= old(out)@ + space_pad(digits(v as nat, 10), w as nat));
}

/// Appends `s`, space-padded to `w` characters.
pub fn push_padded(out: &mut String, s: &str, w: usize)
    ensures
        final(out)@ == old(out)@ + space_pad(s@, w as nat),
{
    let n = s.unicode_len();
    out.append(s);
    if n < w {
        push_repeat(out, ' ', w - n);
    }
    assert(final(out)@ =~= old(out)@ + space_pad(s@, w as nat));
}

} // verus!
