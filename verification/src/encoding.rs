//! Hexadecimal encoding of a finished frame, as the structured debug
//! output wants it: two lowercase digits per byte.

use vstd::prelude::*;

verus! {

/// The ASCII code of the lowercase hexadecimal digit for `x`
/// (meaningful for 0 <= x < 16).
pub open spec fn spec_hex_digit(x: int) -> u8 {
    if x < 10 {
        (48 + x) as u8
    } else {
        (87 + x) as u8
    }
}

/// The lowercase hexadecimal image of `data`: two ASCII digits per byte,
/// high nibble first.
pub open spec fn spec_hex_of(data: Seq<u8>) -> Seq<u8> {
    Seq::new(
        2 * data.len(),
        |i: int|
            if i % 2 == 0 {
                spec_hex_digit(data[i / 2] as int / 16)
            } else {
                spec_hex_digit(data[i / 2] as int % 16)
            },
    )
}

/// The ASCII code of the lowercase hexadecimal digit for `x`.
fn hex_digit(x: u8) -> (r: u8)
    requires
        x < 16,
    ensures
        r == spec_hex_digit(x as int),
{
    if x < 10 {
        48 + x
    } else {
        87 + x
    }
}

/// Encodes `data` as lowercase hexadecimal, two ASCII digit bytes per
/// input byte, high nibble first.
pub fn hex_encode(data: &[u8]) -> (r: Vec<u8>)
    ensures
        r@ == spec_hex_of(data@),
{
    let n = data.len();
    let mut out: Vec<u8> = Vec::new();
    let mut i: usize = 0;
    while i < n
        invariant
            n == data@.len(),
            i <= n,
            out@ == spec_hex_of(data@).take(2 * i),
        decreases n - i,
    {
        out.push(hex_digit(data[i] / 16));
        out.push(hex_digit(data[i] % 16));
        proof {
            assert(out@ =~= spec_hex_of(data@).take(2 * (i + 1)));
        }
        i = i + 1;
    }
    proof {
        assert(spec_hex_of(data@).take(2 * n) =~= spec_hex_of(data@));
    }
    out
}

} // verus!
