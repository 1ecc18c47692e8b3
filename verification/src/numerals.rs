//! Decimal and hexadecimal rendering of the small numbers that appear in
//! room-state labels and tileset directory names.

use vstd::prelude::*;
use vstd::string::StringExecFns;

verus! {

/// The decimal digit character for `d`, which must be below 10.
pub open spec fn spec_digit_char(d: nat) -> char {
    if d == 0 {
        '0'
    } else if d == 1 {
        '1'
    } else if d == 2 {
        '2'
    } else if d == 3 {
        '3'
    } else if d == 4 {
        '4'
    } else if d == 5 {
        '5'
    } else if d == 6 {
        '6'
    } else if d == 7 {
        '7'
    } else if d == 8 {
        '8'
    } else {
        '9'
    }
}

/// `n` written in decimal, most significant digit first, with no sign and no
/// leading zeros (a single `0` for zero).
pub open spec fn spec_decimal(n: nat) -> Seq<char>
    decreases n,
{
    if n < 10 {
        seq![spec_digit_char(n)]
    } else {
        spec_decimal(n / 10).push(spec_digit_char(n % 10))
    }
}

/// The byte of the uppercase hexadecimal digit for `d`, which must be below
/// 16: `0`-`9` then `A`-`F`.
pub open spec fn spec_hex_digit_byte(d: nat) -> u8 {
    if d < 10 {
        (48 + d) as u8
    } else {
        (55 + d) as u8
    }
}

/// `n` written in uppercase hexadecimal bytes, most significant digit first,
/// with no leading zeros (a single `0` for zero).
pub open spec fn spec_hex_upper(n: nat) -> Seq<u8>
    decreases n,
{
    if n < 16 {
        seq![spec_hex_digit_byte(n)]
    } else {
        spec_hex_upper(n / 16).push(spec_hex_digit_byte(n % 16))
    }
}

/// `n` written in uppercase hexadecimal bytes, zero-padded to width 2.
pub open spec fn spec_hex2(n: nat) -> Seq<u8> {
    if n < 16 {
        seq![48u8, spec_hex_digit_byte(n)]
    } else {
        spec_hex_upper(n)
    }
}

/// The one-character string of the decimal digit `d`.
fn digit_str(d: u8) -> (r: &'static str)
    requires
        d < 10,
    ensures
        r@ == seq![spec_digit_char(d as nat)],
{
    proof {
        reveal_strlit("0");
        reveal_strlit("1");
        reveal_strlit("2");
        reveal_strlit("3");
        reveal_strlit("4");
        reveal_strlit("5");
        reveal_strlit("6");
        reveal_strlit("7");
        reveal_strlit("8");
        reveal_strlit("9");
    }
    let r = match d {
        0 => "0",
        1 => "1",
        2 => "2",
        3 => "3",
        4 => "4",
        5 => "5",
        6 => "6",
        7 => "7",
        8 => "8",
        _ => "9",
    };
    proof {
        assert(r@ =~= seq![spec_digit_char(d as nat)]);
    }
    r
}

/// Render `n` in decimal.
pub fn format_decimal(n: usize) -> (r: String)
    ensures
        r@ == spec_decimal(n as nat),
    decreases n,
{
    if n < 10 {
        String::from_str(digit_str(n as u8))
    } else {
        let mut s = format_decimal(n / 10);
        s.append(digit_str((n % 10) as u8));
        s
    }
}

/// The byte of the uppercase hexadecimal digit `d`.
fn hex_digit_byte(d: u8) -> (b: u8)
    requires
        d < 16,
    ensures
        b == spec_hex_digit_byte(d as nat),
{
    if d < 10 {
        48 + d
    } else {
        55 + d
    }
}

/// Render `n` in uppercase hexadecimal.
fn format_hex_upper(n: usize) -> (r: Vec<u8>)
    ensures
        r@ == spec_hex_upper(n as nat),
    decreases n,
{
    if n < 16 {
        let mut r: Vec<u8> = Vec::new();
        r.push(hex_digit_byte(n as u8));
        proof {
            assert(r@ =~= spec_hex_upper(n as nat));
        }
        r
    } else {
        let mut r = format_hex_upper(n / 16);
        r.push(hex_digit_byte((n % 16) as u8));
        r
    }
}

/// Render `n` in uppercase hexadecimal, zero-padded to width 2: the form a
/// graphics-set id takes in a tileset directory name.
pub fn format_hex2(n: usize) -> (r: Vec<u8>)
    ensures
        r@ == spec_hex2(n as nat),
{
    if n < 16 {
        let mut r: Vec<u8> = Vec::new();
        r.push(48);
        r.push(hex_digit_byte(n as u8));
        proof {
            assert(r@ =~= spec_hex2(n as nat));
        }
        r
    } else {
        format_hex_upper(n)
    }
}

} // verus!
