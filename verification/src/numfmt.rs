use vstd::prelude::*;
use crate::emit::B_MINUS;

verus! {

/// The decimal digits of `n`, most significant first.
pub open spec fn dec_nat(n: nat) -> Seq<u8>
    decreases n,
{
    if n < 10 {
        seq![(0x30 + n) as u8]
    } else {
        dec_nat(n / 10).push((0x30 + n % 10) as u8)
    }
}

/// The decimal rendering of an unsigned 64-bit integer.
pub open spec fn dec_u64(n: u64) -> Seq<u8> {
    dec_nat(n as nat)
}

/// The decimal rendering of a signed 64-bit integer: a minus sign for
/// negative values, then the digits of the magnitude.
pub open spec fn dec_i64(i: i64) -> Seq<u8> {
    if i < 0 {
        seq![B_MINUS] + dec_nat((-(i as int)) as nat)
    } else {
        dec_nat(i as nat)
    }
}

/// Relies on itoa::Buffer::format: it renders an unsigned integer as its
/// decimal digits, most significant first.
#[verifier::external_body]
pub(crate) fn write_u64_text(out: &mut Vec<u8>, n: u64)
    ensures
        final(out)@ == old(out)@ + dec_u64(n),
{
    let mut buf = itoa::Buffer::new();
    let s = buf.format(n);
    out.extend_from_slice(s.as_bytes());
}

/// Relies on itoa::Buffer::format: it renders a signed integer as its
/// decimal digits, preceded by a minus sign when the value is negative.
#[verifier::external_body]
pub(crate) fn write_i64_text(out: &mut Vec<u8>, i: i64)
    ensures
        final(out)@ == old(out)@ + dec_i64(i),
{
    let mut buf = itoa::Buffer::new();
    let s = buf.format(i);
    out.extend_from_slice(s.as_bytes());
}

} // verus!
