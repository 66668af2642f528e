//! 16-bit signed PCM samples and their little-endian byte layout.

use vstd::prelude::*;

verus! {

/// The 16-bit two's-complement value whose high byte is `hi` and low byte `lo`.
pub open spec fn i16_of(hi: u8, lo: u8) -> int {
    if hi >= 128 {
        hi * 256 + lo - 65536
    } else {
        hi * 256 + lo
    }
}

/// Byte `which` (0: low, 1: high) of a sample in two's complement.
pub open spec fn sample_byte(s: i16, which: int) -> u8 {
    let u: int = if s < 0 { s + 65536 } else { s as int };
    if which == 0 {
        (u % 256) as u8
    } else {
        (u / 256) as u8
    }
}

/// The samples laid out as 16-bit little-endian PCM: two bytes per sample,
/// low byte first, in sample order.
pub open spec fn pcm16_le(samples: Seq<i16>) -> Seq<u8> {
    Seq::new(2 * samples.len(), |j: int| sample_byte(samples[j / 2], j % 2))
}

/// Appending samples appends their bytes.
pub proof fn lemma_pcm16_le_append(a: Seq<i16>, b: Seq<i16>)
    ensures
        pcm16_le(a + b) == pcm16_le(a) + pcm16_le(b),
{
    let l = pcm16_le(a + b);
    let r = pcm16_le(a) + pcm16_le(b);
    assert forall|j: int| 0 <= j < l.len() implies l[j] == r[j] by {
        if j < 2 * a.len() {
            assert((a + b)[j / 2] == a[j / 2]);
        } else {
            assert((j - 2 * a.len()) / 2 == j / 2 - a.len());
            assert((j - 2 * a.len()) % 2 == j % 2);
            assert((a + b)[j / 2] == b[j / 2 - a.len()]);
        }
    }
    assert(l =~= r);
}

/// Reading the two bytes of a sample back gives the sample.
pub proof fn lemma_sample_bytes_roundtrip(s: i16)
    ensures
        i16_of(sample_byte(s, 1), sample_byte(s, 0)) == s,
{
}

/// The layout holds two bytes per sample, and byte pair `i` (low byte
/// first) reads back as sample `i`.
pub proof fn lemma_pcm16_le_reads_back(samples: Seq<i16>, i: int)
    requires
        0 <= i < samples.len(),
    ensures
        pcm16_le(samples).len() == 2 * samples.len(),
        i16_of(pcm16_le(samples)[2 * i + 1], pcm16_le(samples)[2 * i]) == samples[i],
{
    let b = pcm16_le(samples);
    assert((2 * i + 1) / 2 == i && (2 * i + 1) % 2 == 1);
    assert((2 * i) / 2 == i && (2 * i) % 2 == 0);
    assert(b[2 * i + 1] == sample_byte(samples[i], 1));
    assert(b[2 * i] == sample_byte(samples[i], 0));
    lemma_sample_bytes_roundtrip(samples[i]);
}

/// Appends the two little-endian bytes of `s` to `out`.
pub fn push_sample(out: &mut Vec<u8>, s: i16)
    ensures
        final(out)@ == old(out)@ + pcm16_le(seq![s]),
{
    let u: u16 = #[verifier::truncate] (s as u16);
    assert(u as int == if s < 0 { s + 65536 } else { s as int }) by (bit_vector)
        requires
            u == #[verifier::truncate] (s as u16),
    ;
    out.push((u % 256) as u8);
    out.push((u / 256) as u8);
    assert(final(out)@ =~= old(out)@ + pcm16_le(seq![s]));
}

} // verus!
