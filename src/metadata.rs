//! The metadata block: its CRC-64 checksum, its encoding, and the length of the region
//! that holds it.
use vstd::arithmetic::div_mod::{lemma_add_mod_noop, lemma_mod_multiples_basic};
use vstd::arithmetic::power2::is_pow2;
use vstd::bytes::{
    lemma_auto_spec_u64_to_from_le_bytes, spec_u64_from_le_bytes, spec_u64_to_le_bytes,
    spec_u64_to_le_bytes_to_open, u64_from_le_bytes,
};
use vstd::prelude::*;

verus! {

/// The length of the metadata block, in bytes.
pub const META_LEN: usize = 16;

/// The length of the slot that holds the true length, in bytes. The checksum fills the
/// rest of the block.
pub const LEN_SLOT: usize = 8;

/// The CRC-64/XZ polynomial, in reflected form.
pub const CRC64_POLY: u64 = 0xC96C5795D7870F42;

/// The value the CRC-64 register starts with.
pub const CRC64_INIT: u64 = 0xFFFF_FFFF_FFFF_FFFF;

/// One bit step of the reflected CRC-64: shift right, and fold in the polynomial when the
/// bit shifted out was set.
pub open spec fn crc64_bit(crc: u64) -> u64 {
    if crc & 1 == 1 {
        (crc >> 1) ^ CRC64_POLY
    } else {
        crc >> 1
    }
}

/// `n` bit steps of the CRC-64 register.
pub open spec fn crc64_bits(crc: u64, n: nat) -> u64
    decreases n,
{
    if n == 0 {
        crc
    } else {
        crc64_bits(crc64_bit(crc), (n - 1) as nat)
    }
}

/// The register after feeding one byte: the byte is xored into the low bits, then eight
/// bit steps follow.
pub open spec fn crc64_byte(crc: u64, b: u8) -> u64 {
    crc64_bits(crc ^ (b as u64), 8)
}

/// The register after feeding all of `data`, starting from all ones.
pub open spec fn crc64_register(data: Seq<u8>) -> u64
    decreases data.len(),
{
    if data.len() == 0 {
        CRC64_INIT
    } else {
        crc64_byte(crc64_register(data.drop_last()), data.last())
    }
}

/// The CRC-64/XZ checksum of `data`: the final register, complemented.
pub open spec fn crc64_of(data: Seq<u8>) -> u64 {
    !crc64_register(data)
}

/// The bytes of the length slot: `len` as eight little-endian bytes.
pub open spec fn length_bytes(len: usize) -> Seq<u8> {
    spec_u64_to_le_bytes(len as u64)
}

/// The metadata block for an allocation of `len` bytes in all: the length slot, then the
/// CRC-64 of the length slot as eight little-endian bytes.
pub open spec fn encode_meta(len: usize) -> Seq<u8> {
    length_bytes(len) + spec_u64_to_le_bytes(crc64_of(length_bytes(len)))
}

/// What a metadata block read from the first sixteen bytes of `b` says: the length it holds
/// when the stored checksum matches the length slot and the length fits in a `usize`, and
/// `None` otherwise.
pub open spec fn decode_meta(b: Seq<u8>) -> Option<usize>
    recommends
        b.len() >= META_LEN,
{
    let slot = b.subrange(0, LEN_SLOT as int);
    let value = spec_u64_from_le_bytes(slot);
    if b.subrange(LEN_SLOT as int, META_LEN as int) == spec_u64_to_le_bytes(crc64_of(slot))
        && value <= usize::MAX {
        Some(value as usize)
    } else {
        None
    }
}

/// The length of the region that holds the metadata in front of a payload aligned to
/// `align`: the larger of the block length and `align`.
pub open spec fn region_length(align: usize) -> usize {
    if align < META_LEN {
        META_LEN
    } else {
        align
    }
}

/// Tells whether `n` is a power of two.
pub fn is_power_of_two(n: usize) -> (r: bool)
    ensures
        r == is_pow2(n as int),
{
    reveal(is_pow2);
    if n == 0 {
        return false;
    }
    let mut m: usize = n;
    while m % 2 == 0
        invariant
            m > 0,
            is_pow2(n as int) == is_pow2(m as int),
        decreases m,
    {
        proof {
            reveal(is_pow2);
        }
        m = m / 2;
    }
    m == 1
}

/// Writes `v` as eight little-endian bytes at `at`, leaving the other bytes of `buf` as
/// they were.
fn put_u64_le(buf: &mut [u8], at: usize, v: u64)
    requires
        at + 8 <= old(buf)@.len(),
    ensures
        final(buf)@.len() == old(buf)@.len(),
        final(buf)@ == old(buf)@.subrange(0, at as int) + spec_u64_to_le_bytes(v)
            + old(buf)@.subrange(at + 8, old(buf)@.len() as int),
{
    buf[at] = (v & 0xff) as u8;
    buf[at + 1] = ((v >> 8) & 0xff) as u8;
    buf[at + 2] = ((v >> 16) & 0xff) as u8;
    buf[at + 3] = ((v >> 24) & 0xff) as u8;
    buf[at + 4] = ((v >> 32) & 0xff) as u8;
    buf[at + 5] = ((v >> 40) & 0xff) as u8;
    buf[at + 6] = ((v >> 48) & 0xff) as u8;
    buf[at + 7] = ((v >> 56) & 0xff) as u8;
    proof {
        spec_u64_to_le_bytes_to_open(v);
        assert(final(buf)@ =~= old(buf)@.subrange(0, at as int) + spec_u64_to_le_bytes(v)
            + old(buf)@.subrange(at + 8, old(buf)@.len() as int));
    }
}

/// Operations on the metadata block that precedes every allocation.
pub struct Metadata;

impl Metadata {
    /// Computes the CRC-64/XZ checksum of `data`.
    pub fn crc64(data: &[u8]) -> (r: u64)
        ensures
            r == crc64_of(data@),
    {
        let mut crc: u64 = CRC64_INIT;
        let mut i: usize = 0;
        while i < data.len()
            invariant
                i <= data@.len(),
                crc == crc64_register(data@.subrange(0, i as int)),
            decreases data@.len() - i,
        {
            let b = data[i];
            crc = crc ^ (b as u64);
            let mut k: usize = 0;
            while k < 8
                invariant
                    k <= 8,
                    crc64_bits(crc, (8 - k) as nat) == crc64_byte(
                        crc64_register(data@.subrange(0, i as int)),
                        b,
                    ),
                decreases 8 - k,
            {
                if crc & 1 == 1 {
                    crc = (crc >> 1) ^ CRC64_POLY;
                } else {
                    crc = crc >> 1;
                }
                k = k + 1;
            }
            assert(data@.subrange(0, i + 1).drop_last() =~= data@.subrange(0, i as int));
            i = i + 1;
        }
        assert(data@.subrange(0, data@.len() as int) =~= data@);
        !crc
    }

    /// The length of the metadata region in front of a payload aligned to `align`, or `None`
    /// when `align` is not a power of two.
    pub fn aligned_len(align: usize) -> (r: Option<usize>)
        ensures
            r == (if is_pow2(align as int) {
                Some(region_length(align))
            } else {
                None
            }),
    {
        if !is_power_of_two(align) {
            return None;
        }
        if align < META_LEN {
            Some(META_LEN)
        } else {
            Some(align)
        }
    }

    /// Encodes the metadata block for an allocation of `allocated` bytes in all into the first
    /// sixteen bytes of `buf`.
    pub fn write(buf: &mut [u8], allocated: usize)
        requires
            old(buf)@.len() >= META_LEN,
        ensures
            final(buf)@ == encode_meta(allocated) + old(buf)@.subrange(
                META_LEN as int,
                old(buf)@.len() as int,
            ),
    {
        put_u64_le(buf, 0, allocated as u64);
        proof {
            spec_u64_to_le_bytes_to_open(allocated as u64);
            assert(buf@.subrange(0, LEN_SLOT as int) =~= length_bytes(allocated));
        }
        let crc = Self::crc64(&buf[0..LEN_SLOT]);
        put_u64_le(buf, LEN_SLOT, crc);
        proof {
            spec_u64_to_le_bytes_to_open(crc);
        }
        assert(buf@ =~= encode_meta(allocated) + old(buf)@.subrange(
            META_LEN as int,
            old(buf)@.len() as int,
        ));
    }

    /// Decodes the metadata block held by the first sixteen bytes of `buf`: the true length
    /// when its checksum matches, `None` otherwise.
    pub fn read(buf: &[u8]) -> (r: Option<usize>)
        requires
            buf@.len() >= META_LEN,
        ensures
            r == decode_meta(buf@),
    {
        let slot = &buf[0..LEN_SLOT];
        let stored = u64_from_le_bytes(&buf[LEN_SLOT..META_LEN]);
        let crc = Self::crc64(slot);
        proof {
            lemma_auto_spec_u64_to_from_le_bytes();
        }
        if crc != stored {
            return None;
        }
        let value = u64_from_le_bytes(slot);
        if value > usize::MAX as u64 {
            None
        } else {
            Some(value as usize)
        }
    }
}

/// Decoding an encoded block gives back the length that was encoded.
pub proof fn lemma_codec_round_trip(len: usize)
    ensures
        encode_meta(len).len() == META_LEN,
        decode_meta(encode_meta(len)) == Some(len),
{
    lemma_auto_spec_u64_to_from_le_bytes();
    let b = encode_meta(len);
    assert(b.subrange(0, LEN_SLOT as int) =~= length_bytes(len));
    assert(b.subrange(LEN_SLOT as int, META_LEN as int) =~= spec_u64_to_le_bytes(
        crc64_of(length_bytes(len)),
    ));
}

/// The checksum is a function of the bytes alone: equal inputs give equal checksums, however
/// often it is computed.
pub proof fn lemma_crc64_deterministic(a: Seq<u8>, b: Seq<u8>)
    requires
        a == b,
    ensures
        crc64_of(a) == crc64_of(b),
{
}

/// Flipping any single bit of the stored checksum, with the length slot left as it is, makes
/// the block fail to decode.
pub proof fn lemma_checksum_bit_flip_detected(len: usize, i: int, k: u8)
    requires
        LEN_SLOT <= i < META_LEN,
        k < 8,
    ensures
        decode_meta(encode_meta(len).update(i, encode_meta(len)[i] ^ (1u8 << k))) is None,
{
    lemma_codec_round_trip(len);
    lemma_auto_spec_u64_to_from_le_bytes();
    let b = encode_meta(len);
    let x = b[i];
    let flipped = b.update(i, x ^ (1u8 << k));
    assert(x ^ (1u8 << k) != x) by (bit_vector)
        requires
            k < 8,
    ;
    assert(flipped.subrange(0, LEN_SLOT as int) =~= b.subrange(0, LEN_SLOT as int));
    assert(b.subrange(LEN_SLOT as int, META_LEN as int) =~= spec_u64_to_le_bytes(
        crc64_of(length_bytes(len)),
    ));
    assert(b.subrange(0, LEN_SLOT as int) =~= length_bytes(len));
    assert(flipped.subrange(LEN_SLOT as int, META_LEN as int)[i - LEN_SLOT] != b.subrange(
        LEN_SLOT as int,
        META_LEN as int,
    )[i - LEN_SLOT]);
}

/// The metadata region is a whole number of alignment units: a payload placed right after it
/// keeps the alignment of the region's start.
pub proof fn lemma_payload_alignment(base: int, align: usize)
    requires
        is_pow2(align as int),
        base % (align as int) == 0,
    ensures
        (base + region_length(align)) % (align as int) == 0,
{
    reveal_with_fuel(is_pow2, 5);
    let r = region_length(align) as int;
    if align < META_LEN {
        assert(align == 1 || align == 2 || align == 4 || align == 8);
        if align == 1 {
            assert(16int % 1 == 0);
        } else if align == 2 {
            assert(16int % 2 == 0);
        } else if align == 4 {
            assert(16int % 4 == 0);
        } else {
            assert(16int % 8 == 0);
        }
    } else {
        lemma_mod_multiples_basic(1, align as int);
        assert(r % (align as int) == 0);
    }
    lemma_add_mod_noop(base, r, align as int);
    lemma_mod_multiples_basic(0, align as int);
}

} // verus!
