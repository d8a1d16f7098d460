//! SizeFormatter: a byte count becomes a human-readable unit string.
//!
//! Units ascend B, KB, MB, GB, TB by factors of 1024; the chosen unit is the
//! largest one keeping the scaled value below 1024 (or TB). Bytes are printed
//! as a bare integer; every scaled value is printed with exactly two decimal
//! places, rounded half-up on the hundredths.

use crate::text::push_char;
use vstd::prelude::*;

verus! {

pub const KIB: u64 = 1024;
pub const MIB: u64 = 1048576;
pub const GIB: u64 = 1073741824;
pub const TIB: u64 = 1099511627776;

/// The decimal digit character for `d` (0 maps to '0', 9 to '9').
pub open spec fn digit_char(d: nat) -> char
    recommends
        d < 10,
{
    ((48 + d) as u8) as char
}

/// The usual decimal rendering of `n`: no sign, no leading zeros except for
/// `0` itself.
pub open spec fn dec_str(n: nat) -> Seq<char>
    decreases n,
{
    if n < 10 {
        seq![digit_char(n)]
    } else {
        dec_str(n / 10).push(digit_char(n % 10))
    }
}

/// `n / p` rendered with exactly two decimal places, the hundredths rounded
/// half-up: the integer part, a dot, then two digits.
pub open spec fn scaled_str(n: nat, p: nat) -> Seq<char>
    recommends
        p >= 2,
{
    let h = (100 * n + p / 2) / p;
    dec_str(h / 100) + seq!['.', digit_char((h / 10) % 10), digit_char(h % 10)]
}

/// The full human-readable form of a byte count.
pub open spec fn size_str(n: nat) -> Seq<char> {
    if n < KIB {
        dec_str(n) + seq![' ', 'B']
    } else if n < MIB {
        scaled_str(n, KIB as nat) + seq![' ', 'K', 'B']
    } else if n < GIB {
        scaled_str(n, MIB as nat) + seq![' ', 'M', 'B']
    } else if n < TIB {
        scaled_str(n, GIB as nat) + seq![' ', 'G', 'B']
    } else {
        scaled_str(n, TIB as nat) + seq![' ', 'T', 'B']
    }
}

/// The digit character for a small machine integer.
fn digit(d: u64) -> (c: char)
    requires
        d < 10,
    ensures
        c == digit_char(d as nat),
{
    (48 + d as u8) as char
}

/// Appends the decimal rendering of `n` to `s`.
fn push_decimal(s: &mut String, n: u64)
    ensures
        final(s)@ == old(s)@ + dec_str(n as nat),
    decreases n,
{
    if n >= 10 {
        push_decimal(s, n / 10);
    }
    let c = digit(n % 10);
    push_char(s, c);
    proof {
        if n < 10 {
            assert(final(s)@ =~= old(s)@ + dec_str(n as nat));
        } else {
            assert(dec_str(n as nat) == dec_str(n as nat / 10).push(digit_char(n as nat % 10)));
            assert(final(s)@ =~= old(s)@ + dec_str(n as nat));
        }
    }
}

/// Appends the two-decimal rendering of `n / p` to `s`.
fn push_scaled(s: &mut String, n: u64, p: u64)
    requires
        1024 <= p,
    ensures
        final(s)@ == old(s)@ + scaled_str(n as nat, p as nat),
{
    let wide: u128 = (100u128 * (n as u128) + (p as u128) / 2) / (p as u128);
    proof {
        assert(100 * (n as nat) + (p as nat) / 2 < (p as nat) * 0x10000000000000000) by (nonlinear_arith)
            requires
                n <= 0xffffffffffffffffu64,
                1024 <= p,
        ;
        assert((100 * (n as nat) + (p as nat) / 2) / (p as nat) < 0x10000000000000000) by (nonlinear_arith)
            requires
                100 * (n as nat) + (p as nat) / 2 < (p as nat) * 0x10000000000000000,
                1024 <= p,
        ;
    }
    let h: u64 = wide as u64;
    assert(h as nat == (100 * (n as nat) + (p as nat) / 2) / (p as nat));
    push_decimal(s, h / 100);
    push_char(s, '.');
    let d1 = digit((h / 10) % 10);
    push_char(s, d1);
    let d0 = digit(h % 10);
    push_char(s, d0);
    proof {
        assert(final(s)@ =~= old(s)@ + scaled_str(n as nat, p as nat));
    }
}

/// Formats a byte count for display in a listing: `0` gives `0 B`, `1536`
/// gives `1.50 KB`, and so on up to TB.
pub fn format_size(size: u64) -> (r: String)
    ensures
        r@ == size_str(size as nat),
{
    let mut s = String::new();
    if size < KIB {
        push_decimal(&mut s, size);
        push_char(&mut s, ' ');
        push_char(&mut s, 'B');
    } else {
        if size < MIB {
            push_scaled(&mut s, size, KIB);
            push_char(&mut s, ' ');
            push_char(&mut s, 'K');
        } else if size < GIB {
            push_scaled(&mut s, size, MIB);
            push_char(&mut s, ' ');
            push_char(&mut s, 'M');
        } else if size < TIB {
            push_scaled(&mut s, size, GIB);
            push_char(&mut s, ' ');
            push_char(&mut s, 'G');
        } else {
            push_scaled(&mut s, size, TIB);
            push_char(&mut s, ' ');
            push_char(&mut s, 'T');
        }
        push_char(&mut s, 'B');
    }
    proof {
        assert(s@ =~= size_str(size as nat));
    }
    s
}

} // verus!
