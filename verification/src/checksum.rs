use vstd::prelude::*;

verus! {

/// The checksum that guards a slot record: a 32-bit cyclic-redundancy
/// value (polynomial 0x04C11DB7, input and output reflected, initial
/// value 0, final XOR 0xFFFFFFFF) over the given bytes.  The value is a
/// function of the bytes alone; it is left unspecified here and is
/// computed by the `crc` crate.
pub uninterp spec fn crc32_of(data: Seq<u8>) -> u32;

/// Relies on crc::Crc::<u32>::checksum with the algorithm above
/// (width 32, poly 0x04C11DB7, refin, refout, init 0, xorout
/// 0xFFFFFFFF): the result depends on the input bytes alone.
#[verifier::external_body]
fn crc32_checksum(data: &[u8]) -> (r: u32)
    ensures
        r == crc32_of(data@),
{
    let algo = crc::Crc::<u32>::new(&crc::Algorithm {
        width: 32,
        poly: 0x04c11db7,
        init: 0,
        refin: true,
        refout: true,
        xorout: 0xffffffff,
        check: 0,
        residue: 0,
    });
    algo.checksum(data)
}

/// The checksum stored beside a slot record's sequence number: the
/// cyclic-redundancy value over the sequence in little-endian order.
pub open spec fn spec_record_checksum(seq: u32) -> u32 {
    crc32_of(crate::le_bytes::spec_u32_le(seq))
}

/// Computes the checksum that guards a record holding sequence `seq`.
pub fn record_checksum(seq: u32) -> (r: u32)
    ensures
        r == spec_record_checksum(seq),
{
    let bytes = crate::le_bytes::u32_to_le(seq);
    crc32_checksum(bytes.as_slice())
}

} // verus!
