//! Text: decimal and hexadecimal numerals, padding, and the pieces every
//! printed line is put together from.

use vstd::prelude::*;
use vstd::string::*;

verus! {

/// `String::push` appends one character to the end of the string.
pub assume_specification[ String::push ](s: &mut String, c: char)
    ensures
        final(s)@ == old(s)@.push(c),
;

/// The decimal numeral of `n`, without leading zeros.
pub open spec fn dec(n: nat) -> Seq<char>
    decreases n,
{
    if n < 10 {
        seq![digit_char(n)]
    } else {
        dec(n / 10).push(digit_char(n % 10))
    }
}

/// The character of one hexadecimal digit.
pub open spec fn digit_char(d: nat) -> char {
    if d < 10 {
        (48 + d) as char
    } else {
        (87 + d) as char
    }
}

/// `n` in exactly `w` lower-case hexadecimal digits, the most significant
/// ones dropped if it does not fit.
pub open spec fn hex(n: nat, w: nat) -> Seq<char>
    decreases w,
{
    if w == 0 {
        Seq::empty()
    } else {
        hex(n / 16, (w - 1) as nat).push(digit_char(n % 16))
    }
}

/// A signed number, with a minus sign where it is negative.
pub open spec fn signed_dec(n: i16) -> Seq<char> {
    if n < 0 {
        "-"@ + dec((-n) as nat)
    } else {
        dec(n as nat)
    }
}

/// A byte in two upper-case hexadecimal digits.
pub open spec fn hex_upper(b: u8) -> Seq<char> {
    seq![upper_digit((b / 16) as nat), upper_digit((b % 16) as nat)]
}

pub open spec fn upper_digit(d: nat) -> char {
    if d < 10 {
        (48 + d) as char
    } else {
        (55 + d) as char
    }
}

/// One digit as a character.
pub fn digit(d: u8) -> (c: char)
    requires
        d < 16,
    ensures
        c == digit_char(d as nat),
{
    if d < 10 {
        (48 + d) as char
    } else {
        (87 + d) as char
    }
}

/// Appends the decimal numeral of `n`.
pub fn push_dec(out: &mut String, n: u64)
    ensures
        final(out)@ == old(out)@ + dec(n as nat),
    decreases n,
{
    if n >= 10 {
        push_dec(out, n / 10);
        out.push(digit((n % 10) as u8));
    } else {
        out.push(digit(n as u8));
    }
}

/// Appends `n` in exactly `w` hexadecimal digits.
pub fn push_hex(out: &mut String, n: u64, w: u8)
    ensures
        final(out)@ == old(out)@ + hex(n as nat, w as nat),
    decreases w,
{
    if w > 0 {
        push_hex(out, n / 16, w - 1);
        out.push(digit((n % 16) as u8));
    }
}

/// The decimal numeral of `n`, one digit longer than that of `n / 10`.
proof fn lemma_dec_step(n: nat)
    requires
        n >= 10,
    ensures
        dec(n) == dec(n / 10).push(digit_char(n % 10)),
{
}

/// Appends the decimal numeral of `a + n`, whatever its size.
pub fn push_sum(out: &mut String, a: u8, n: usize)
    ensures
        final(out)@ == old(out)@ + dec((a + n) as nat),
{
    let low: usize = n % 10 + a as usize;
    if n <= usize::MAX - a as usize {
        push_dec(out, (n + a as usize) as u64);
    } else {
        let t: u64 = (n / 10) as u64 + (low / 10) as u64;
        push_dec(out, t);
        out.push(digit((low % 10) as u8));
        proof {
            let m = (a + n) as nat;
            assert(m / 10 == t && m % 10 == low % 10);
            lemma_dec_step(m);
        }
    }
}

/// Appends a signed decimal numeral.
pub fn push_signed(out: &mut String, n: i16)
    ensures
        final(out)@ == old(out)@ + signed_dec(n),
{
    if n < 0 {
        push_text(out, "-");
        push_dec(out, (0 - n as i32) as u64);
        assert(out@ =~= old(out)@ + signed_dec(n));
    } else {
        push_dec(out, n as u64);
    }
}

/// Appends a byte in two upper-case hexadecimal digits.
pub fn push_hex_upper(out: &mut String, b: u8)
    ensures
        final(out)@ == old(out)@ + hex_upper(b),
{
    let (h, l): (u8, u8) = (b / 16, b % 16);
    out.push(
        if h < 10 {
            (48 + h) as char
        } else {
            (55 + h) as char
        },
    );
    out.push(
        if l < 10 {
            (48 + l) as char
        } else {
            (55 + l) as char
        },
    );
}

/// Appends a piece of fixed text.
pub fn push_text(out: &mut String, s: &str)
    ensures
        final(out)@ == old(out)@ + s@,
{
    out.append(s);
}

/// `n` spaces.
pub open spec fn spaces(n: nat) -> Seq<char> {
    Seq::new(n, |i: int| ' ')
}

/// Filled up with spaces on the right to `w` characters.
pub open spec fn pad_right(s: Seq<char>, w: nat) -> Seq<char> {
    if s.len() < w {
        s + spaces((w - s.len()) as nat)
    } else {
        s
    }
}

/// Filled up with spaces on the left to `w` characters.
pub open spec fn pad_left(s: Seq<char>, w: nat) -> Seq<char> {
    if s.len() < w {
        spaces((w - s.len()) as nat) + s
    } else {
        s
    }
}

/// Appends `n` spaces.
pub fn push_spaces(out: &mut String, n: usize)
    ensures
        final(out)@ == old(out)@ + spaces(n as nat),
{
    let mut i: usize = 0;
    assert(out@ =~= old(out)@ + spaces(0));
    while i < n
        invariant
            i <= n,
            out@ == old(out)@ + spaces(i as nat),
        decreases n - i,
    {
        out.push(' ');
        i = i + 1;
        assert(out@ =~= old(out)@ + spaces(i as nat));
    }
}

/// Appends `s` filled up on the right to `w` characters.
pub fn push_padded(out: &mut String, s: &str, w: usize)
    ensures
        final(out)@ == old(out)@ + pad_right(s@, w as nat),
{
    push_text(out, s);
    let n: usize = s.unicode_len();
    if n < w {
        push_spaces(out, w - n);
    }
    assert(out@ =~= old(out)@ + pad_right(s@, w as nat));
}

/// Appends `s` filled up on the left to `w` characters.
pub fn push_right(out: &mut String, s: &str, w: usize)
    ensures
        final(out)@ == old(out)@ + pad_left(s@, w as nat),
{
    let n: usize = s.unicode_len();
    if n < w {
        push_spaces(out, w - n);
    }
    push_text(out, s);
    assert(out@ =~= old(out)@ + pad_left(s@, w as nat));
}

/// The decimal numeral of `n` as a string.
pub fn number(n: u64) -> (r: String)
    ensures
        r@ == dec(n as nat),
{
    let mut s = String::new();
    push_dec(&mut s, n);
    assert(s@ =~= dec(n as nat));
    s
}

/// A string holding `s`.
pub fn text(s: &str) -> (r: String)
    ensures
        r@ == s@,
{
    s.to_owned()
}

} // verus!
