//! Decimal rendering of the integers that appear in rendered output.

use vstd::prelude::*;

use crate::lsn::{hex_digit, hex_digit_char};
use crate::util::push_char;

verus! {

/// Decimal digits of `n`, most significant first, no leading zeros
/// (a single `0` for zero itself).
pub open spec fn dec_seq(n: nat) -> Seq<char>
    decreases n,
{
    if n < 10 {
        seq![hex_digit(n)]
    } else {
        dec_seq(n / 10) + seq![hex_digit(n % 10)]
    }
}

/// Decimal rendering of a signed value: a minus sign before the digits of
/// the magnitude when negative.
pub open spec fn dec_i64(t: i64) -> Seq<char> {
    if t >= 0 {
        dec_seq(t as nat)
    } else {
        seq!['-'] + dec_seq((-(t as int)) as nat)
    }
}

/// Append the decimal digits of `n`.
pub(crate) fn push_dec_u64(n: u64, out: &mut String)
    ensures
        final(out)@ == old(out)@ + dec_seq(n as nat),
    decreases n,
{
    if n >= 10 {
        push_dec_u64(n / 10, out);
    }
    let d = (n % 10) as u32;
    let c = hex_digit_char(d);
    push_char(out, c);
    proof {
        if n < 10 {
            assert(n % 10 == n) by (nonlinear_arith)
                requires
                    n < 10,
            ;
        }
    }
}

/// Append the decimal rendering of a signed value.
pub(crate) fn push_dec_i64(t: i64, out: &mut String)
    ensures
        final(out)@ == old(out)@ + dec_i64(t),
{
    if t >= 0 {
        push_dec_u64(t as u64, out);
    } else {
        push_char(out, '-');
        let mag: u64 = ((-(t + 1)) as u64) + 1;
        proof {
            assert(mag as nat == (-(t as int)) as nat);
        }
        push_dec_u64(mag, out);
        proof {
            assert(old(out)@ + seq!['-'] + dec_seq(mag as nat) =~= old(out)@ + dec_i64(t));
        }
    }
}

} // verus!
