//! Textual rendering of log sequence numbers.
//!
//! A log sequence number is a 64-bit position in the upstream change log,
//! rendered as `HIGH/LOW`: the upper and lower 32-bit halves in uppercase
//! hexadecimal without leading zeros.

use vstd::prelude::*;

use crate::util::push_char;

verus! {

/// The uppercase hexadecimal digit for a value below 16.
pub open spec fn hex_digit(d: nat) -> char {
    if d == 0 {
        '0'
    } else if d == 1 {
        '1'
    } else if d == 2 {
        '2'
    } else if d == 3 {
        '3'
    } else if d == 4 {
        '4'
    } else if d == 5 {
        '5'
    } else if d == 6 {
        '6'
    } else if d == 7 {
        '7'
    } else if d == 8 {
        '8'
    } else if d == 9 {
        '9'
    } else if d == 10 {
        'A'
    } else if d == 11 {
        'B'
    } else if d == 12 {
        'C'
    } else if d == 13 {
        'D'
    } else if d == 14 {
        'E'
    } else {
        'F'
    }
}

/// Uppercase hexadecimal digits of `n`, most significant first, no leading
/// zeros (a single `0` for zero itself).
pub open spec fn hex_seq(n: nat) -> Seq<char>
    decreases n,
{
    if n < 16 {
        seq![hex_digit(n)]
    } else {
        hex_seq(n / 16) + seq![hex_digit(n % 16)]
    }
}

/// The textual form of a log sequence number: the upper 32 bits, a slash,
/// then the lower 32 bits, each in uppercase hexadecimal.
pub open spec fn lsn_text(lsn: u64) -> Seq<char> {
    hex_seq((lsn >> 32) as nat) + seq!['/'] + hex_seq((lsn & 0xFFFF_FFFF) as nat)
}

pub(crate) fn hex_digit_char(d: u32) -> (c: char)
    requires
        d < 16,
    ensures
        c == hex_digit(d as nat),
{
    match d {
        0 => '0',
        1 => '1',
        2 => '2',
        3 => '3',
        4 => '4',
        5 => '5',
        6 => '6',
        7 => '7',
        8 => '8',
        9 => '9',
        10 => 'A',
        11 => 'B',
        12 => 'C',
        13 => 'D',
        14 => 'E',
        _ => 'F',
    }
}

fn push_hex(n: u32, out: &mut String)
    ensures
        final(out)@ == old(out)@ + hex_seq(n as nat),
    decreases n,
{
    if n >= 16 {
        push_hex(n / 16, out);
    }
    let c = hex_digit_char(n % 16);
    push_char(out, c);
    proof {
        if n < 16 {
            assert(n % 16 == n) by (nonlinear_arith)
                requires
                    n < 16,
            ;
        }
    }
}

/// Render a 64-bit log sequence number as `HIGH/LOW` in uppercase hex.
pub fn format_lsn(lsn: u64) -> (s: String)
    ensures
        s@ == lsn_text(lsn),
{
    proof {
        assert((lsn >> 32) <= 0xFFFF_FFFFu64) by (bit_vector);
        assert((lsn & 0xFFFF_FFFF) <= 0xFFFF_FFFFu64) by (bit_vector);
    }
    let hi = (lsn >> 32) as u32;
    let lo = (lsn & 0xFFFF_FFFF) as u32;
    let mut s = String::new();
    push_hex(hi, &mut s);
    push_char(&mut s, '/');
    push_hex(lo, &mut s);
    s
}

} // verus!
