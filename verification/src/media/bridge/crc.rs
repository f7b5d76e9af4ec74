//! The NUT container's packet CRC: the IEEE CRC-32 polynomial `0x04C11DB7`
//! in most-significant-bit-first order with initial value 0 and no final
//! xor. The stored value is the CRC of the packet body written big-endian.
//!
//! A plain bitwise CRC, deliberately not table-driven: only packet headers
//! (a few hundred bytes each) are checked, never frame payloads.

use vstd::prelude::*;

verus! {

/// The CRC-32 generator polynomial (MSB-first form).
pub const CRC_POLY: u32 = 0x04C1_1DB7;

/// One bit step of the MSB-first shift register.
pub open spec fn crc_bit(c: u32) -> u32 {
    if c & 0x8000_0000 != 0 {
        ((c << 1u32) ^ CRC_POLY) as u32
    } else {
        (c << 1u32) as u32
    }
}

/// `n` bit steps.
pub open spec fn crc_bits(c: u32, n: nat) -> u32
    decreases n,
{
    if n == 0 {
        c
    } else {
        crc_bit(crc_bits(c, (n - 1) as nat))
    }
}

/// The register after feeding one byte.
pub open spec fn crc_byte(c: u32, b: u8) -> u32 {
    crc_bits(c ^ ((b as u32) << 24u32), 8)
}

/// The MSB-first CRC-32 (init 0, no final xor) of `bytes`.
pub open spec fn crc32_spec(bytes: Seq<u8>) -> u32
    decreases bytes.len(),
{
    if bytes.len() == 0 {
        0
    } else {
        crc_byte(crc32_spec(bytes.drop_last()), bytes.last())
    }
}

/// Big-endian bytes of a `u32`.
pub open spec fn be_bytes(v: u32) -> Seq<u8> {
    seq![(v >> 24u32) as u8, ((v >> 16u32) & 0xff) as u8, ((v >> 8u32) & 0xff) as u8, (v & 0xff) as u8]
}

/// Update an MSB-first CRC-32 (poly `0x04C11DB7`, init 0) over `bytes`.
pub fn crc32_msb(bytes: &[u8]) -> (r: u32)
    ensures
        r == crc32_spec(bytes@),
{
    let mut crc: u32 = 0;
    let n = bytes.len();
    let mut i = 0usize;
    while i < n
        invariant
            i <= n,
            n == bytes@.len(),
            crc == crc32_spec(bytes@.subrange(0, i as int)),
        decreases n - i,
    {
        let byte = bytes[i];
        let ghost start = crc ^ ((byte as u32) << 24u32);
        crc = crc ^ ((byte as u32) << 24u32);
        let mut k = 0u32;
        while k < 8
            invariant
                k <= 8,
                crc == crc_bits(start, k as nat),
            decreases 8 - k,
        {
            crc = if crc & 0x8000_0000 != 0 {
                (crc << 1u32) ^ CRC_POLY
            } else {
                crc << 1u32
            };
            k = k + 1;
        }
        proof {
            assert(bytes@.subrange(0, i + 1).drop_last() =~= bytes@.subrange(0, i as int));
        }
        i = i + 1;
    }
    proof {
        assert(bytes@.subrange(0, n as int) =~= bytes@);
    }
    crc
}

/// The 4 stored bytes of the NUT packet CRC over `body` (big-endian).
pub fn packet_crc_bytes(body: &[u8]) -> (r: [u8; 4])
    ensures
        r@ == be_bytes(crc32_spec(body@)),
{
    let c = crc32_msb(body);
    let out = [(c >> 24u32) as u8, ((c >> 16u32) & 0xff) as u8, ((c >> 8u32) & 0xff) as u8, (c & 0xff) as u8];
    proof {
        assert(out@ =~= be_bytes(c));
    }
    out
}

/// Verify `stored` (the 4 bytes read after a packet body) against `body`.
pub fn verify_packet_crc(body: &[u8], stored: &[u8]) -> (r: bool)
    ensures
        r == (stored@ == be_bytes(crc32_spec(body@))),
{
    if stored.len() != 4 {
        return false;
    }
    let want = packet_crc_bytes(body);
    let ok = stored[0] == want[0] && stored[1] == want[1] && stored[2] == want[2] && stored[3]
        == want[3];
    proof {
        if ok {
            assert(stored@ =~= want@);
        } else {
            assert(stored@ != want@) by {
                if stored@ == want@ {
                    assert(stored@[0] == want@[0] && stored@[1] == want@[1] && stored@[2] == want@[2]
                        && stored@[3] == want@[3]);
                }
            }
        }
    }
    ok
}

} // verus!
