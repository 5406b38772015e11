use vstd::prelude::*;
use vstd::arithmetic::div_mod::{lemma_div_denominator, lemma_fundamental_div_mod, lemma_small_mod};

verus! {

/// The unsigned value of four little-endian bytes.
pub open spec fn le_int(s: Seq<u8>) -> int
    recommends
        s.len() == 4,
{
    s[0] + 0x100 * s[1] + 0x10000 * s[2] + 0x1000000 * s[3]
}

/// The four little-endian bytes of a 32-bit value.
pub open spec fn spec_u32_le(x: u32) -> Seq<u8> {
    seq![
        (x % 0x100) as u8,
        ((x / 0x100) % 0x100) as u8,
        ((x / 0x10000) % 0x100) as u8,
        ((x / 0x1000000) % 0x100) as u8,
    ]
}

pub proof fn lemma_le_int_bounds(s: Seq<u8>)
    requires
        s.len() == 4,
    ensures
        0 <= le_int(s) <= 0xffffffff,
{
}

/// Encoding a 32-bit value and reading the bytes back gives the value.
pub proof fn lemma_u32_le_roundtrip(x: u32)
    ensures
        spec_u32_le(x).len() == 4,
        le_int(spec_u32_le(x)) == x,
{
    let xi = x as int;
    lemma_fundamental_div_mod(xi, 0x100);
    lemma_fundamental_div_mod(xi / 0x100, 0x100);
    lemma_div_denominator(xi, 0x100, 0x100);
    lemma_fundamental_div_mod(xi / 0x10000, 0x100);
    lemma_div_denominator(xi, 0x10000, 0x100);
    lemma_fundamental_div_mod(xi, 0x1000000);
    lemma_small_mod((xi / 0x1000000) as nat, 0x100);
}

/// Reads a 32-bit value from four little-endian bytes, as the device
/// records store sequence numbers and checksums.
pub fn u32_from_le(b: &[u8]) -> (r: u32)
    requires
        b@.len() == 4,
    ensures
        r as int == le_int(b@),
{
    proof {
        lemma_le_int_bounds(b@);
    }
    (b[0] as u32) + 0x100 * (b[1] as u32) + 0x10000 * (b[2] as u32) + 0x1000000 * (b[3] as u32)
}

/// Writes a 32-bit value as four little-endian bytes.
pub fn u32_to_le(x: u32) -> (r: Vec<u8>)
    ensures
        r@ == spec_u32_le(x),
        r@.len() == 4,
        le_int(r@) == x,
{
    proof {
        lemma_u32_le_roundtrip(x);
    }
    let mut v: Vec<u8> = Vec::new();
    v.push((x % 0x100) as u8);
    v.push(((x / 0x100) % 0x100) as u8);
    v.push(((x / 0x10000) % 0x100) as u8);
    v.push(((x / 0x1000000) % 0x100) as u8);
    proof {
        assert(v@ =~= spec_u32_le(x));
    }
    v
}

} // verus!
