//! Signed integer linear PCM of 8, 16, 24 or 32 bits brought to 16 bits.

use vstd::prelude::*;
use vstd::arithmetic::power2::{pow2, lemma2_to64};
use vstd::arithmetic::div_mod::lemma_fundamental_div_mod_converse;
use crate::pcm::{i16_of, pcm16_le, push_sample, lemma_pcm16_le_append};

verus! {

/// The unsigned value of bytes read most significant first.
pub open spec fn unsigned_be(bytes: Seq<u8>) -> int
    decreases bytes.len(),
{
    if bytes.len() == 0 {
        0
    } else {
        unsigned_be(bytes.drop_last()) * 256 + bytes.last()
    }
}

/// The two's-complement value of bytes read most significant first.
pub open spec fn signed_be(bytes: Seq<u8>) -> int {
    if bytes.len() > 0 && bytes[0] >= 128 {
        unsigned_be(bytes) - pow2(8 * bytes.len())
    } else {
        unsigned_be(bytes)
    }
}

/// A sample's bytes, most significant first.
pub open spec fn msb_first(sample: Seq<u8>, little_endian: bool) -> Seq<u8> {
    if little_endian {
        sample.reverse()
    } else {
        sample
    }
}

/// Whether `bits` is a sample width that the decoder accepts.
pub open spec fn lpcm_bits_supported(bits: u32) -> bool {
    bits == 8 || bits == 16 || bits == 24 || bits == 32
}

/// The 16-bit value of one signed linear PCM sample: an 8-bit sample is
/// scaled up by 2^8; a wider one keeps its 16 most significant bits, that is
/// its value divided by 2^(bits - 16), rounded down.
pub open spec fn lpcm_sample_value(sample: Seq<u8>, little_endian: bool) -> int {
    let v = signed_be(msb_first(sample, little_endian));
    if sample.len() == 1 {
        v * 256
    } else {
        v / (pow2((8 * sample.len() - 16) as nat) as int)
    }
}

/// The samples of one packet: the packet cut into whole samples of `width`
/// bytes; bytes after the last whole sample are ignored.
pub open spec fn lpcm_packet_samples(packet: Seq<u8>, width: nat, little_endian: bool) -> Seq<i16> {
    Seq::new(
        packet.len() / width,
        |k: int|
            lpcm_sample_value(packet.subrange(k * width, k * width + width), little_endian) as i16,
    )
}

/// The samples of a run of packets, packet after packet.
pub open spec fn lpcm_samples(packets: Seq<Seq<u8>>, width: nat, little_endian: bool) -> Seq<i16>
    decreases packets.len(),
{
    if packets.len() == 0 {
        Seq::empty()
    } else {
        lpcm_samples(packets.drop_last(), width, little_endian) + lpcm_packet_samples(
            packets.last(),
            width,
            little_endian,
        )
    }
}

/// The value of a sample is that of its two most significant bytes (the
/// only one, shifted up, for 8-bit samples).
pub proof fn lemma_lpcm_sample_top_bytes(sample: Seq<u8>, little_endian: bool)
    requires
        1 <= sample.len() <= 4,
    ensures
        ({
            let m = msb_first(sample, little_endian);
            lpcm_sample_value(sample, little_endian) == if sample.len() == 1 {
                i16_of(m[0], 0)
            } else {
                i16_of(m[0], m[1])
            }
        }),
        -32768 <= lpcm_sample_value(sample, little_endian) <= 32767,
{
    lemma2_to64();
    reveal_with_fuel(unsigned_be, 5);
    let m = msb_first(sample, little_endian);
    let n = sample.len();
    assert(m.len() == n);
    if n == 1 {
        assert(m =~= seq![m[0]]);
        assert(m.drop_last() =~= Seq::<u8>::empty());
    } else if n == 2 {
        assert(m.drop_last() =~= seq![m[0]]);
        assert(m.drop_last().drop_last() =~= Seq::<u8>::empty());
        assert(lpcm_sample_value(sample, little_endian) == signed_be(m) / 1);
    } else if n == 3 {
        assert(m.drop_last() =~= seq![m[0], m[1]]);
        assert(m.drop_last().drop_last() =~= seq![m[0]]);
        assert(m.drop_last().drop_last().drop_last() =~= Seq::<u8>::empty());
        assert(signed_be(m) == i16_of(m[0], m[1]) * 256 + m[2]);
        lemma_fundamental_div_mod_converse(signed_be(m), 256, i16_of(m[0], m[1]), m[2] as int);
    } else {
        assert(m.drop_last() =~= seq![m[0], m[1], m[2]]);
        assert(m.drop_last().drop_last() =~= seq![m[0], m[1]]);
        assert(m.drop_last().drop_last().drop_last() =~= seq![m[0]]);
        assert(m.drop_last().drop_last().drop_last().drop_last() =~= Seq::<u8>::empty());
        assert(signed_be(m) == i16_of(m[0], m[1]) * 65536 + (m[2] * 256 + m[3]));
        lemma_fundamental_div_mod_converse(
            signed_be(m),
            65536,
            i16_of(m[0], m[1]),
            m[2] * 256 + m[3],
        );
    }
}

/// The 16-bit two's-complement number made of a high and a low byte.
pub fn i16_pair(hi: u8, lo: u8) -> (r: i16)
    ensures
        r == i16_of(hi, lo),
{
    let u: u16 = ((hi as u16) << 8u16) | (lo as u16);
    let r: i16 = #[verifier::truncate] (u as i16);
    assert(r as int == i16_of(hi, lo)) by (bit_vector)
        requires
            u == ((hi as u16) << 8u16) | (lo as u16),
            r == #[verifier::truncate] (u as i16),
    ;
    r
}

/// Converts the signed linear PCM sample of `bits` bits that starts at
/// `start` in `data`, stored in the given byte order, to 16 bits.
pub fn lpcm_sample_to_i16(data: &[u8], start: usize, bits: u32, is_little_endian: bool) -> (s16: i16)
    requires
        lpcm_bits_supported(bits),
        start + bits / 8 <= data@.len(),
    ensures
        s16 == lpcm_sample_value(data@.subrange(start as int, start + bits / 8), is_little_endian),
{
    let ghost sample = data@.subrange(start as int, start + bits / 8);
    proof {
        lemma_lpcm_sample_top_bytes(sample, is_little_endian);
    }
    let ghost m = msb_first(sample, is_little_endian);
    let n = (bits / 8) as usize;
    let len = data.len();
    assert(n as int == bits / 8);
    if bits == 8 {
        // CAF 8-bit LPCM is signed: sign-extend and shift into the high byte.
        i16_pair(data[start], 0)
    } else if is_little_endian {
        assert(m[0] == sample[n - 1] && m[1] == sample[n - 2]);
        i16_pair(data[start + n - 1], data[start + n - 2])
    } else {
        i16_pair(data[start], data[start + 1])
    }
}

/// Appends the 16-bit little-endian samples of one linear PCM packet to
/// `out`; a trailing partial sample is skipped.
pub fn decode_lpcm_packet(packet: &[u8], bits: u32, is_little_endian: bool, out: &mut Vec<u8>)
    requires
        lpcm_bits_supported(bits),
    ensures
        final(out)@ == old(out)@ + pcm16_le(
            lpcm_packet_samples(packet@, (bits / 8) as nat, is_little_endian),
        ),
{
    let width = (bits / 8) as usize;
    let count = packet.len() / width;
    let ghost samples = lpcm_packet_samples(packet@, width as nat, is_little_endian);
    let mut k: usize = 0;
    while k < count
        invariant
            lpcm_bits_supported(bits),
            width == bits / 8,
            count == packet@.len() / (width as nat),
            packet@.len() <= usize::MAX,
            samples == lpcm_packet_samples(packet@, width as nat, is_little_endian),
            0 <= k <= count,
            out@ == old(out)@ + pcm16_le(samples.take(k as int)),
        decreases count - k,
    {
        assert(k * width + width <= count * width) by (nonlinear_arith)
            requires
                k < count,
                width > 0,
        {}
        assert(count * width <= packet@.len()) by (nonlinear_arith)
            requires
                count == packet@.len() / (width as nat),
                width > 0,
        {}
        assert(k * width + width <= packet@.len());
        let s = lpcm_sample_to_i16(packet, k * width, bits, is_little_endian);
        proof {
            lemma_lpcm_sample_top_bytes(
                packet@.subrange(k * width, k * width + width),
                is_little_endian,
            );
            assert(samples[k as int] == s);
            assert(samples.take(k + 1) =~= samples.take(k as int) + seq![s]);
            lemma_pcm16_le_append(samples.take(k as int), seq![s]);
        }
        push_sample(out, s);
        k = k + 1;
    }
    assert(samples.take(count as int) =~= samples);
}

} // verus!
