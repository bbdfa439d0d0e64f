//! Colours as text.
use vstd::prelude::*;

verus! {

/// The hexadecimal digit that stands for `d`, for `d` below sixteen; letters in upper case.
pub open spec fn hex_digit(d: nat) -> char {
    if d == 0 {
        '0'
    } else if d == 1 {
        '1'
    } else if d == 2 {
        '2'
    } else if d == 3 {
        '3'
    } else if d == 4 {
        '4'
    } else if d == 5 {
        '5'
    } else if d == 6 {
        '6'
    } else if d == 7 {
        '7'
    } else if d == 8 {
        '8'
    } else if d == 9 {
        '9'
    } else if d == 10 {
        'A'
    } else if d == 11 {
        'B'
    } else if d == 12 {
        'C'
    } else if d == 13 {
        'D'
    } else if d == 14 {
        'E'
    } else {
        'F'
    }
}

/// The hexadecimal numeral of `n`, without leading zeros.
pub open spec fn hex(n: nat) -> Seq<char>
    decreases n,
{
    if n < 16 {
        seq![hex_digit(n)]
    } else {
        hex(n / 16).push(hex_digit(n % 16))
    }
}

/// A colour as text: `#`, then the hexadecimal numerals of its red, green and blue
/// parts, each as short as it can be.
pub open spec fn hex_color(red: u8, green: u8, blue: u8) -> Seq<char> {
    seq!['#'] + hex(red as nat) + hex(green as nat) + hex(blue as nat)
}

/// The hexadecimal digit that stands for `d`, as a text.
fn hex_digit_text(d: u8) -> (r: &'static str)
    requires
        d < 16,
    ensures
        r@ == seq![hex_digit(d as nat)],
{
    proof {
        reveal_strlit("0");
        reveal_strlit("1");
        reveal_strlit("2");
        reveal_strlit("3");
        reveal_strlit("4");
        reveal_strlit("5");
        reveal_strlit("6");
        reveal_strlit("7");
        reveal_strlit("8");
        reveal_strlit("9");
        reveal_strlit("A");
        reveal_strlit("B");
        reveal_strlit("C");
        reveal_strlit("D");
        reveal_strlit("E");
        reveal_strlit("F");
    }
    let r = if d == 0 {
        "0"
    } else if d == 1 {
        "1"
    } else if d == 2 {
        "2"
    } else if d == 3 {
        "3"
    } else if d == 4 {
        "4"
    } else if d == 5 {
        "5"
    } else if d == 6 {
        "6"
    } else if d == 7 {
        "7"
    } else if d == 8 {
        "8"
    } else if d == 9 {
        "9"
    } else if d == 10 {
        "A"
    } else if d == 11 {
        "B"
    } else if d == 12 {
        "C"
    } else if d == 13 {
        "D"
    } else if d == 14 {
        "E"
    } else {
        "F"
    };
    assert(r@ =~= seq![hex_digit(d as nat)]);
    r
}

/// Appends the hexadecimal numeral of `n` to `out`.
fn push_hex(out: &mut String, n: u8)
    ensures
        final(out)@ == old(out)@ + hex(n as nat),
{
    if n >= 16 {
        out.append(hex_digit_text(n / 16));
    }
    out.append(hex_digit_text(n % 16));
    proof {
        reveal_with_fuel(hex, 2);
    }
    assert(out@ =~= old(out)@ + hex(n as nat));
}

/// Writes a colour as text.
pub fn as_hex(red: u8, green: u8, blue: u8) -> (r: String)
    ensures
        r@ == hex_color(red, green, blue),
{
    let mut out = String::from_str("#");
    proof {
        reveal_strlit("#");
        assert("#"@ =~= seq!['#']);
    }
    push_hex(&mut out, red);
    push_hex(&mut out, green);
    push_hex(&mut out, blue);
    out
}

} // verus!
