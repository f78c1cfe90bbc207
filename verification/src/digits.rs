//! Rendering of unsigned values as decimal and lower-case hexadecimal
//! digit strings, shared by the syntax-tree text forms and the report
//! renderer.

use vstd::prelude::*;

verus! {

/// The byte of the decimal digit `d` (for `d < 10`).
pub open spec fn dec_digit_byte(d: nat) -> u8 {
    (48 + (d % 10)) as u8
}

/// The decimal digit string of `n`, most significant digit first, with no
/// leading zeros (a single `0` for zero).
pub open spec fn dec_digits(n: nat) -> Seq<u8>
    decreases n,
{
    if n < 10 {
        seq![dec_digit_byte(n)]
    } else {
        dec_digits(n / 10).push(dec_digit_byte(n % 10))
    }
}

/// The byte of the hexadecimal digit `d` (for `d < 16`), lower case.
pub open spec fn hex_digit_byte(d: nat) -> u8 {
    if d % 16 < 10 {
        (48 + (d % 16)) as u8
    } else {
        (87 + (d % 16)) as u8
    }
}

/// The lower-case hexadecimal digit string of `n`, most significant digit
/// first, with no leading zeros (a single `0` for zero).
pub open spec fn hex_digits(n: nat) -> Seq<u8>
    decreases n,
{
    if n < 16 {
        seq![hex_digit_byte(n)]
    } else {
        hex_digits(n / 16).push(hex_digit_byte(n % 16))
    }
}

/// Appends the decimal digit string of `n` to `out`.
pub fn push_dec(out: &mut Vec<u8>, n: usize)
    ensures
        final(out)@ == old(out)@ + dec_digits(n as nat),
    decreases n,
{
    if n < 10 {
        out.push(48 + (n as u8));
        assert(out@ =~= old(out)@ + dec_digits(n as nat));
    } else {
        push_dec(out, n / 10);
        out.push(48 + ((n % 10) as u8));
        assert(out@ =~= old(out)@ + dec_digits(n as nat));
    }
}

/// Appends the lower-case hexadecimal digit string of `n` to `out`.
pub fn push_hex(out: &mut Vec<u8>, n: usize)
    ensures
        final(out)@ == old(out)@ + hex_digits(n as nat),
    decreases n,
{
    let d: u8 = (n % 16) as u8;
    let b: u8 = if d < 10 {
        48 + d
    } else {
        87 + d
    };
    if n < 16 {
        out.push(b);
        assert(out@ =~= old(out)@ + hex_digits(n as nat));
    } else {
        push_hex(out, n / 16);
        out.push(b);
        assert(out@ =~= old(out)@ + hex_digits(n as nat));
    }
}

} // verus!
