//! Frame trailers: CRC-16 and the eight-bit checksum.

use vstd::prelude::*;

verus! {

/// Value that the CRC register starts from.
pub const CRC_INIT: u16 = 0x1d0f;

/// Generator polynomial of the CRC.
pub const CRC_POLY: u16 = 0x1021;

/// One shift of the CRC register.
pub open spec fn crc_shift(crc: u16) -> u16 {
    if crc & 0x8000 != 0 {
        (crc << 1) ^ CRC_POLY
    } else {
        crc << 1
    }
}

/// `n` shifts of the CRC register.
pub open spec fn crc_shifts(crc: u16, n: nat) -> u16
    decreases n,
{
    if n == 0 {
        crc
    } else {
        crc_shift(crc_shifts(crc, (n - 1) as nat))
    }
}

/// CRC register after one more byte.
pub open spec fn crc_step(crc: u16, b: u8) -> u16 {
    crc_shifts(crc ^ ((b as u16) << 8), 8)
}

/// CRC-16 of a byte string: polynomial `0x1021`, register preset to `0x1d0f`, most
/// significant bit first, no final inversion.
pub open spec fn crc16(s: Seq<u8>) -> u16
    decreases s.len(),
{
    if s.len() == 0 {
        CRC_INIT
    } else {
        crc_step(crc16(s.drop_last()), s.last())
    }
}

/// Sum of the bytes of `s`.
pub open spec fn byte_sum(s: Seq<u8>) -> nat
    decreases s.len(),
{
    if s.len() == 0 {
        0
    } else {
        byte_sum(s.drop_last()) + s.last() as nat
    }
}

/// Eight-bit checksum: the byte that brings the sum of all bytes to a multiple of 256.
pub open spec fn checksum(s: Seq<u8>) -> u8 {
    ((256 - byte_sum(s) % 256) % 256) as u8
}

/// CRC-16 of `s`.
pub fn crc16_of(s: &[u8]) -> (crc: u16)
    ensures
        crc == crc16(s@),
{
    let mut crc: u16 = CRC_INIT;
    let mut i: usize = 0;
    assert(s@.take(0) =~= Seq::<u8>::empty());
    while i < s.len()
        invariant
            i <= s@.len(),
            crc == crc16(s@.take(i as int)),
        decreases s@.len() - i,
    {
        let mut reg: u16 = crc ^ ((s[i] as u16) << 8);
        let ghost start = reg;
        let mut k: u8 = 0;
        while k < 8
            invariant
                k <= 8,
                reg == crc_shifts(start, k as nat),
            decreases 8 - k,
        {
            reg = if reg & 0x8000 != 0 {
                (reg << 1) ^ CRC_POLY
            } else {
                reg << 1
            };
            k = k + 1;
        }
        assert(s@.take(i as int + 1).drop_last() =~= s@.take(i as int));
        crc = reg;
        i = i + 1;
    }
    assert(s@.take(i as int) =~= s@);
    crc
}

/// Eight-bit checksum of `s`.
pub fn checksum_of(s: &[u8]) -> (sum: u8)
    ensures
        sum == checksum(s@),
{
    let mut acc: u8 = 0;
    let mut i: usize = 0;
    while i < s.len()
        invariant
            i <= s@.len(),
            acc == byte_sum(s@.take(i as int)) % 256,
        decreases s@.len() - i,
    {
        assert(s@.take(i as int + 1).drop_last() =~= s@.take(i as int));
        acc = acc.wrapping_add(s[i]);
        i = i + 1;
    }
    assert(s@.take(i as int) =~= s@);
    if acc == 0 {
        0
    } else {
        (256u16 - acc as u16) as u8
    }
}

/// The checksum completes the sum of all bytes to a multiple of 256.
pub proof fn law_checksum_completes_sum(s: Seq<u8>)
    ensures
        byte_sum(s.push(checksum(s))) % 256 == 0,
{
    assert(s.push(checksum(s)).drop_last() =~= s);
}

/// The checksum is the one byte that completes the sum, and the sum takes in every byte.
pub proof fn law_checksum_is_the_only_one(s: Seq<u8>, b: u8)
    ensures
        byte_sum(Seq::empty()) == 0,
        byte_sum(s.push(b)) == byte_sum(s) + b,
        byte_sum(s.push(b)) % 256 == 0 <==> b == checksum(s),
{
    assert(s.push(b).drop_last() =~= s);
}

/// The CRC takes in every byte, in order: it starts from `0x1d0f`, and each byte is added
/// to the upper half of the register, which then is shifted eight times. A shift doubles a
/// register whose highest bit is clear, makes `0x1021` of the highest bit alone, and is
/// linear.
pub proof fn law_crc_goes_byte_by_byte(s: Seq<u8>, b: u8, crc: u16, other: u16)
    ensures
        crc16(Seq::empty()) == 0x1d0f,
        crc16(s.push(b)) == crc_step(crc16(s), b),
        crc_step(crc, b) == crc_shift(
            crc_shift(
                crc_shift(
                    crc_shift(
                        crc_shift(crc_shift(crc_shift(crc_shift(crc ^ ((b as u16) << 8))))),
                    ),
                ),
            ),
        ),
        crc < 0x8000 ==> crc_shift(crc) == 2 * crc,
        crc_shift(0x8000) == 0x1021,
        crc_shift(crc ^ other) == crc_shift(crc) ^ crc_shift(other),
{
    assert(s.push(b).drop_last() =~= s);
    reveal_with_fuel(crc_shifts, 9);
    assert(crc < 0x8000 ==> crc & 0x8000 == 0 && crc << 1 == 2 * crc) by (bit_vector);
    assert(0x8000u16 & 0x8000 != 0 && (0x8000u16 << 1) ^ 0x1021 == 0x1021) by (bit_vector);
    assert(((if (crc ^ other) & 0x8000 != 0 {
        ((crc ^ other) << 1) ^ 0x1021
    } else {
        (crc ^ other) << 1
    })) == (if crc & 0x8000 != 0 {
        (crc << 1) ^ 0x1021
    } else {
        crc << 1
    }) ^ (if other & 0x8000 != 0 {
        (other << 1) ^ 0x1021
    } else {
        other << 1
    })) by (bit_vector);
}

} // verus!
