//! Decoding the audio packets of a CAF (Apple Core Audio Format) file into
//! 16-bit little-endian interleaved PCM.
//!
//! Supported payloads: `lpcm` (signed integer linear PCM of 8, 16, 24 or 32
//! bits, either byte order; float PCM is refused), `ima4` (Apple IMA 4:1
//! ADPCM, mono or stereo), `ulaw` and `alaw` (G.711). Anything else is
//! refused so that another decoder can take the file.

use vstd::prelude::*;
use crate::g711::{ulaw_value, alaw_value, ulaw_to_linear, alaw_to_linear, lemma_ulaw_range, lemma_alaw_range};
use crate::ima4::{ima4_samples, decode_ima4};
use crate::lpcm::{
    lpcm_bits_supported, lpcm_samples, lpcm_packet_samples, decode_lpcm_packet,
    lemma_lpcm_sample_top_bytes,
};
use crate::pcm::{i16_of, pcm16_le, push_sample, lemma_pcm16_le_append, lemma_pcm16_le_reads_back};

verus! {

/// The payload format named by a CAF audio description (`mFormatID`).
#[derive(Clone, Copy, Debug, PartialEq, Eq)]
pub enum CafFormatId {
    LinearPcm,
    AppleIma4,
    Mpeg4Aac,
    Mace3,
    Mace6,
    Ulaw,
    Alaw,
    MpegLayer1,
    MpegLayer2,
    MpegLayer3,
    AppleLossless,
    Other(u32),
}

/// The fields of a CAF audio description that decoding reads. The sample
/// rate is kept as the file stores it: the bit pattern of an IEEE-754 double.
#[derive(Clone, Copy, Debug)]
pub struct CafAudioFormat {
    pub format_id: CafFormatId,
    pub sample_rate_bits: u64,
    pub format_flags: u32,
    pub bytes_per_packet: u32,
    pub frames_per_packet: u32,
    pub channels_per_frame: u32,
    pub bits_per_channel: u32,
}

/// Why a CAF file was refused.
#[derive(Clone, Copy, Debug, PartialEq, Eq)]
pub enum CafDecodeError {
    /// The container could not be opened (not a CAF file, or malformed).
    ReaderFailed,
    /// The description declares no channel.
    NoChannels,
    /// IMA4 packets are not 34 bytes per channel.
    Ima4PacketSize,
    /// The IMA4 data holds no complete 34-byte packet.
    Ima4NoData,
    /// IMA4 with more than two channels.
    Ima4TooManyChannels,
    /// Floating-point linear PCM.
    LpcmFloat,
    /// Linear PCM whose sample width is not 8, 16, 24 or 32 bits.
    LpcmBitDepth,
    /// A payload format other than LPCM, IMA4, µ-law or A-law.
    UnsupportedFormat,
    /// Decoding produced no sample.
    EmptyOutput,
}

/// The `k`-th 34-byte IMA4 packet of one channel in `bytes`.
pub open spec fn ima4_sub_packet(bytes: Seq<u8>, k: int) -> Seq<u8> {
    bytes.subrange(34 * k, 34 * k + 34)
}

/// The bytes of the packets, one after the other.
pub open spec fn packet_bytes(packets: Seq<Seq<u8>>) -> Seq<u8>
    decreases packets.len(),
{
    if packets.len() == 0 {
        Seq::empty()
    } else {
        packet_bytes(packets.drop_last()) + packets.last()
    }
}

/// The views of a list of packets.
pub open spec fn packets_view(packets: Seq<Vec<u8>>) -> Seq<Seq<u8>> {
    packets.map_values(|p: Vec<u8>| p@)
}

/// The samples of the first `count` mono IMA4 packets of `bytes`.
pub open spec fn ima4_mono_samples(bytes: Seq<u8>, count: nat) -> Seq<i16>
    decreases count,
{
    if count == 0 {
        Seq::empty()
    } else {
        ima4_mono_samples(bytes, (count - 1) as nat) + ima4_samples(
            ima4_sub_packet(bytes, count - 1),
        )
    }
}

/// Two channels' samples interleaved, left first.
pub open spec fn interleave(left: Seq<i16>, right: Seq<i16>) -> Seq<i16> {
    Seq::new(2 * left.len(), |j: int| if j % 2 == 0 { left[j / 2] } else { right[j / 2] })
}

/// The samples of the first `pairs` stereo packet pairs of `bytes`: each
/// pair is a left-channel packet followed by a right-channel packet, and
/// their samples come out interleaved.
pub open spec fn ima4_stereo_samples(bytes: Seq<u8>, pairs: nat) -> Seq<i16>
    decreases pairs,
{
    if pairs == 0 {
        Seq::empty()
    } else {
        ima4_stereo_samples(bytes, (pairs - 1) as nat) + interleave(
            ima4_samples(ima4_sub_packet(bytes, 2 * pairs - 2)),
            ima4_samples(ima4_sub_packet(bytes, 2 * pairs - 1)),
        )
    }
}

/// G.711 samples of a run of bytes.
pub open spec fn ulaw_samples(bytes: Seq<u8>) -> Seq<i16> {
    bytes.map_values(|b: u8| ulaw_value(b) as i16)
}

/// G.711 samples of a run of bytes.
pub open spec fn alaw_samples(bytes: Seq<u8>) -> Seq<i16> {
    bytes.map_values(|b: u8| alaw_value(b) as i16)
}

/// Whether linear PCM is flagged as floating point (format flag bit 0).
pub open spec fn lpcm_is_float(flags: u32) -> bool {
    flags % 2 == 1
}

/// Whether linear PCM is flagged little-endian (format flag bit 1).
pub open spec fn lpcm_is_little_endian(flags: u32) -> bool {
    (flags / 2) % 2 == 1
}

/// The checks on the audio description that come before any packet is read.
pub open spec fn format_check(fmt: CafAudioFormat) -> Result<(), CafDecodeError> {
    if fmt.channels_per_frame == 0 {
        Err(CafDecodeError::NoChannels)
    } else {
        match fmt.format_id {
            CafFormatId::AppleIma4 => {
                if fmt.bytes_per_packet != 34 * fmt.channels_per_frame && fmt.bytes_per_packet
                    != 0 {
                    Err(CafDecodeError::Ima4PacketSize)
                } else {
                    Ok(())
                }
            },
            CafFormatId::LinearPcm => {
                if lpcm_is_float(fmt.format_flags) {
                    Err(CafDecodeError::LpcmFloat)
                } else if !lpcm_bits_supported(fmt.bits_per_channel) {
                    Err(CafDecodeError::LpcmBitDepth)
                } else {
                    Ok(())
                }
            },
            CafFormatId::Ulaw => Ok(()),
            CafFormatId::Alaw => Ok(()),
            _ => Err(CafDecodeError::UnsupportedFormat),
        }
    }
}

/// The samples that the packets decode to under a description that passed
/// `format_check`.
pub open spec fn decoded_samples(fmt: CafAudioFormat, packets: Seq<Seq<u8>>) -> Result<
    Seq<i16>,
    CafDecodeError,
> {
    match fmt.format_id {
        CafFormatId::AppleIma4 => {
            let bytes = packet_bytes(packets);
            let count = bytes.len() / 34;
            if count == 0 {
                Err(CafDecodeError::Ima4NoData)
            } else if fmt.channels_per_frame == 1 {
                Ok(ima4_mono_samples(bytes, count))
            } else if fmt.channels_per_frame == 2 {
                Ok(ima4_stereo_samples(bytes, count / 2))
            } else {
                Err(CafDecodeError::Ima4TooManyChannels)
            }
        },
        CafFormatId::LinearPcm => Ok(
            lpcm_samples(
                packets,
                (fmt.bits_per_channel / 8) as nat,
                lpcm_is_little_endian(fmt.format_flags),
            ),
        ),
        CafFormatId::Ulaw => Ok(ulaw_samples(packet_bytes(packets))),
        CafFormatId::Alaw => Ok(alaw_samples(packet_bytes(packets))),
        _ => Err(CafDecodeError::UnsupportedFormat),
    }
}

/// What a CAF file with audio description `fmt` and audio packets `packets`
/// decodes to: the 16-bit little-endian PCM bytes, or the reason for refusal.
pub open spec fn decode_result(fmt: CafAudioFormat, packets: Seq<Seq<u8>>) -> Result<
    Seq<u8>,
    CafDecodeError,
> {
    match format_check(fmt) {
        Err(e) => Err(e),
        Ok(_) => match decoded_samples(fmt, packets) {
            Err(e) => Err(e),
            Ok(samples) => if samples.len() == 0 {
                Err(CafDecodeError::EmptyOutput)
            } else {
                Ok(pcm16_le(samples))
            },
        },
    }
}

/// Each mono IMA4 packet gives 64 samples.
pub proof fn lemma_ima4_mono_length(bytes: Seq<u8>, count: nat)
    ensures
        ima4_mono_samples(bytes, count).len() == 64 * count,
    decreases count,
{
    if count > 0 {
        lemma_ima4_mono_length(bytes, (count - 1) as nat);
    }
}

/// Each stereo IMA4 packet pair gives 128 interleaved samples.
pub proof fn lemma_ima4_stereo_length(bytes: Seq<u8>, pairs: nat)
    ensures
        ima4_stereo_samples(bytes, pairs).len() == 128 * pairs,
    decreases pairs,
{
    if pairs > 0 {
        lemma_ima4_stereo_length(bytes, (pairs - 1) as nat);
    }
}

/// The amount of PCM a successful decode yields: two bytes per G.711 byte;
/// 128 bytes per whole mono IMA4 packet; 256 bytes per whole pair of stereo
/// IMA4 packets (a partial packet, or an odd last stereo packet, yields
/// nothing).
pub proof fn lemma_decoded_length(fmt: CafAudioFormat, packets: Seq<Seq<u8>>)
    ensures
        decode_result(fmt, packets) matches Ok(pcm) ==> {
            let n = packet_bytes(packets).len();
            &&& (fmt.format_id is Ulaw || fmt.format_id is Alaw) ==> pcm.len() == 2 * n
            &&& (fmt.format_id is AppleIma4 && fmt.channels_per_frame == 1) ==> pcm.len() == 128 * (n / 34)
            &&& (fmt.format_id is AppleIma4 && fmt.channels_per_frame == 2) ==> pcm.len() == 256 * (n / 34 / 2)
        },
{
    let bytes = packet_bytes(packets);
    lemma_ima4_mono_length(bytes, bytes.len() / 34);
    lemma_ima4_stereo_length(bytes, bytes.len() / 34 / 2);
}

/// Linear PCM descriptions: floating-point samples (format flag bit 0) are
/// refused as such; signed integer samples, with at least one channel, are
/// accepted exactly when they are 8, 16, 24 or 32 bits wide, and refused
/// for their width otherwise.
pub proof fn lemma_lpcm_accepted_widths(fmt: CafAudioFormat)
    requires
        fmt.format_id is LinearPcm,
        fmt.channels_per_frame > 0,
    ensures
        fmt.format_flags % 2 == 1 ==> format_check(fmt) == Err::<(), CafDecodeError>(
            CafDecodeError::LpcmFloat,
        ),
        fmt.format_flags % 2 == 0 ==> (format_check(fmt) is Ok <==> (fmt.bits_per_channel == 8
            || fmt.bits_per_channel == 16 || fmt.bits_per_channel == 24 || fmt.bits_per_channel
            == 32)),
        fmt.format_flags % 2 == 0 && !(fmt.bits_per_channel == 8 || fmt.bits_per_channel == 16
            || fmt.bits_per_channel == 24 || fmt.bits_per_channel == 32) ==> format_check(fmt)
            == Err::<(), CafDecodeError>(CafDecodeError::LpcmBitDepth),
{
}

/// Linear PCM decoding of a packet of signed integer samples of 8, 16, 24
/// or 32 bits: the packet is accepted, gives one 16-bit sample per whole
/// sample in it, and sample `k` (read back from its two output bytes, low
/// byte first) is the two's-complement number made of the sample's two most
/// significant bytes (for 8-bit samples, its only byte as the high byte).
/// The sample's bytes run most significant first when format flag bit 1
/// (value 2) is clear, and least significant first when it is set.
pub proof fn lemma_lpcm_decodes_samples(fmt: CafAudioFormat, packet: Seq<u8>, k: int)
    requires
        fmt.format_id is LinearPcm,
        fmt.channels_per_frame > 0,
        fmt.format_flags % 2 == 0,
        fmt.bits_per_channel == 8 || fmt.bits_per_channel == 16 || fmt.bits_per_channel == 24
            || fmt.bits_per_channel == 32,
        0 <= k,
        (k + 1) * (fmt.bits_per_channel / 8) <= packet.len(),
    ensures
        ({
            let w = (fmt.bits_per_channel / 8) as int;
            let at = k * w;
            let expected = if w == 1 {
                i16_of(packet[at], 0)
            } else if (fmt.format_flags / 2) % 2 == 0 {
                i16_of(packet[at], packet[at + 1])
            } else {
                i16_of(packet[at + w - 1], packet[at + w - 2])
            };
            &&& decode_result(fmt, seq![packet]) is Ok
            &&& decode_result(fmt, seq![packet])->Ok_0.len() == 2 * (packet.len() as int / w)
            &&& i16_of(
                decode_result(fmt, seq![packet])->Ok_0[2 * k + 1],
                decode_result(fmt, seq![packet])->Ok_0[2 * k],
            ) == expected
        }),
{
    let w = (fmt.bits_per_channel / 8) as nat;
    let le = lpcm_is_little_endian(fmt.format_flags);
    let packets = seq![packet];
    assert(packets.drop_last() =~= Seq::<Seq<u8>>::empty());
    assert(packets.last() == packet);
    assert(lpcm_samples(Seq::<Seq<u8>>::empty(), w, le) == Seq::<i16>::empty());
    let samples = lpcm_packet_samples(packet, w, le);
    assert(lpcm_samples(packets, w, le) =~= samples);
    lemma_lpcm_packet_sample(packet, w, le, k);
    lemma_pcm16_le_reads_back(samples, k);
}

/// Sample `k` of a packet of `w`-byte samples is the two's-complement number
/// made of its two most significant bytes.
proof fn lemma_lpcm_packet_sample(packet: Seq<u8>, w: nat, le: bool, k: int)
    requires
        1 <= w <= 4,
        0 <= k,
        (k + 1) * w <= packet.len(),
    ensures
        k < packet.len() as int / (w as int),
        lpcm_packet_samples(packet, w, le).len() == packet.len() as int / (w as int),
        lpcm_packet_samples(packet, w, le)[k] == (if w == 1 {
            i16_of(packet[k * w], 0)
        } else if !le {
            i16_of(packet[k * w], packet[k * w + 1])
        } else {
            i16_of(packet[k * w + w - 1], packet[k * w + w - 2])
        }),
{
    assert(k < packet.len() as int / (w as int)) by (nonlinear_arith)
        requires
            (k + 1) * w <= packet.len(),
            w > 0,
            k >= 0,
    {
        vstd::arithmetic::div_mod::lemma_fundamental_div_mod(packet.len() as int, w as int);
    }
    assert(k * w + w <= packet.len()) by (nonlinear_arith)
        requires
            (k + 1) * w <= packet.len(),
    {}
    assert(0 <= k * w) by (nonlinear_arith)
        requires
            k >= 0,
    {}
    let sample = packet.subrange(k * w, k * w + w);
    lemma_lpcm_sample_top_bytes(sample, le);
    assert(sample.len() == w);
    if le && w >= 2 {
        assert(sample.reverse()[0] == sample[w - 1]);
        assert(sample.reverse()[1] == sample[w - 2]);
    }
}

/// Which descriptions pass the checks made before any packet is read: none
/// without a channel; IMA4 exactly when its packets are 34 bytes per channel
/// or of unspecified size (0); µ-law and A-law always; every format other
/// than these and linear PCM is refused as unsupported.
pub proof fn lemma_format_acceptance(fmt: CafAudioFormat)
    ensures
        fmt.channels_per_frame == 0 ==> format_check(fmt) == Err::<(), CafDecodeError>(
            CafDecodeError::NoChannels,
        ),
        fmt.channels_per_frame > 0 && fmt.format_id is AppleIma4 ==> format_check(fmt) == if fmt.bytes_per_packet
            == 34 * fmt.channels_per_frame || fmt.bytes_per_packet == 0 {
            Ok::<(), CafDecodeError>(())
        } else {
            Err::<(), CafDecodeError>(CafDecodeError::Ima4PacketSize)
        },
        fmt.channels_per_frame > 0 && (fmt.format_id is Ulaw || fmt.format_id is Alaw)
            ==> format_check(fmt) == Ok::<(), CafDecodeError>(()),
        fmt.channels_per_frame > 0 && !(fmt.format_id is LinearPcm || fmt.format_id is AppleIma4
            || fmt.format_id is Ulaw || fmt.format_id is Alaw) ==> format_check(fmt) == Err::<
            (),
            CafDecodeError,
        >(CafDecodeError::UnsupportedFormat),
{
}

proof fn lemma_packet_bytes_single(packet: Seq<u8>)
    ensures
        packet_bytes(seq![packet]) == packet,
{
    let packets = seq![packet];
    assert(packets.drop_last() =~= Seq::<Seq<u8>>::empty());
    assert(packet_bytes(Seq::<Seq<u8>>::empty()) == Seq::<u8>::empty());
    assert(packet_bytes(packets) =~= packet);
}

/// µ-law and A-law files decode byte by byte: byte `i` of the packets, taken
/// one after the other, becomes sample `i`, the G.711 value of that byte (read
/// back from its two output bytes, low byte first); a file without any byte is
/// refused as giving no output.
pub proof fn lemma_g711_decodes_each_byte(fmt: CafAudioFormat, packets: Seq<Seq<u8>>, i: int)
    requires
        fmt.channels_per_frame > 0,
        fmt.format_id is Ulaw || fmt.format_id is Alaw,
    ensures
        packet_bytes(packets).len() == 0 ==> decode_result(fmt, packets) == Err::<
            Seq<u8>,
            CafDecodeError,
        >(CafDecodeError::EmptyOutput),
        0 <= i < packet_bytes(packets).len() ==> {
            let pcm = decode_result(fmt, packets)->Ok_0;
            let b = packet_bytes(packets)[i];
            &&& decode_result(fmt, packets) is Ok
            &&& pcm.len() == 2 * packet_bytes(packets).len()
            &&& i16_of(pcm[2 * i + 1], pcm[2 * i]) == if fmt.format_id is Ulaw {
                ulaw_value(b)
            } else {
                alaw_value(b)
            }
        },
{
    let bytes = packet_bytes(packets);
    if 0 <= i < bytes.len() {
        let samples = if fmt.format_id is Ulaw {
            ulaw_samples(bytes)
        } else {
            alaw_samples(bytes)
        };
        lemma_ulaw_range(bytes[i]);
        lemma_alaw_range(bytes[i]);
        assert(samples[i] as int == if fmt.format_id is Ulaw {
            ulaw_value(bytes[i])
        } else {
            alaw_value(bytes[i])
        });
        lemma_pcm16_le_reads_back(samples, i);
    }
}

/// Linear PCM packets decode one after the other: the samples of a run of
/// packets followed by one more are those of the run followed by those of
/// the last packet alone, so no sample spans two packets.
pub proof fn lemma_lpcm_packets_concatenate(fmt: CafAudioFormat, packets: Seq<Seq<u8>>, packet: Seq<u8>)
    requires
        fmt.format_id is LinearPcm,
    ensures
        decoded_samples(fmt, packets.push(packet)) is Ok,
        decoded_samples(fmt, packets.push(packet))->Ok_0 == decoded_samples(fmt, packets)->Ok_0
            + decoded_samples(fmt, seq![packet])->Ok_0,
{
    let w = (fmt.bits_per_channel / 8) as nat;
    let le = lpcm_is_little_endian(fmt.format_flags);
    assert(packets.push(packet).drop_last() =~= packets);
    assert(seq![packet].drop_last() =~= Seq::<Seq<u8>>::empty());
    assert(lpcm_samples(Seq::<Seq<u8>>::empty(), w, le) == Seq::<i16>::empty());
    assert(lpcm_samples(seq![packet], w, le) =~= lpcm_packet_samples(packet, w, le));
}

proof fn lemma_ima4_mono_position(bytes: Seq<u8>, count: nat, p: int, i: int)
    requires
        0 <= p < count,
        0 <= i < 64,
    ensures
        ima4_mono_samples(bytes, count).len() == 64 * count,
        ima4_mono_samples(bytes, count)[64 * p + i] == ima4_samples(ima4_sub_packet(bytes, p))[i],
    decreases count,
{
    lemma_ima4_mono_length(bytes, count);
    lemma_ima4_mono_length(bytes, (count - 1) as nat);
    if p < count - 1 {
        lemma_ima4_mono_position(bytes, (count - 1) as nat, p, i);
    }
}

proof fn lemma_ima4_stereo_position(bytes: Seq<u8>, pairs: nat, p: int, i: int)
    requires
        0 <= p < pairs,
        0 <= i < 64,
    ensures
        ima4_stereo_samples(bytes, pairs).len() == 128 * pairs,
        ima4_stereo_samples(bytes, pairs)[128 * p + 2 * i] == ima4_samples(
            ima4_sub_packet(bytes, 2 * p),
        )[i],
        ima4_stereo_samples(bytes, pairs)[128 * p + 2 * i + 1] == ima4_samples(
            ima4_sub_packet(bytes, 2 * p + 1),
        )[i],
    decreases pairs,
{
    lemma_ima4_stereo_length(bytes, pairs);
    lemma_ima4_stereo_length(bytes, (pairs - 1) as nat);
    if p < pairs - 1 {
        lemma_ima4_stereo_position(bytes, (pairs - 1) as nat, p, i);
    } else {
        let l = ima4_samples(ima4_sub_packet(bytes, 2 * p));
        let r = ima4_samples(ima4_sub_packet(bytes, 2 * p + 1));
        let both = interleave(l, r);
        assert(both[2 * i] == l[i]);
        assert((2 * i + 1) / 2 == i);
        assert(both[2 * i + 1] == r[i]);
    }
}

/// IMA4 files decode packet by packet: with the bytes of the packets taken
/// one after the other and cut into 34-byte packets, a mono file's sample
/// `64 p + i` is sample `i` of packet `p`; a stereo file's packets pair up,
/// left channel first, and its samples `128 p + 2 i` and `128 p + 2 i + 1` are
/// sample `i` of packets `2 p` and `2 p + 1`. A tail shorter than a packet, or
/// a stereo file's unpaired last packet, gives nothing.
pub proof fn lemma_ima4_sample_positions(fmt: CafAudioFormat, packets: Seq<Seq<u8>>, p: int, i: int)
    requires
        fmt.format_id is AppleIma4,
        fmt.channels_per_frame == 1 || fmt.channels_per_frame == 2,
        0 <= p,
        0 <= i < 64,
        fmt.channels_per_frame * 34 * (p + 1) <= packet_bytes(packets).len(),
    ensures
        ({
            let bytes = packet_bytes(packets);
            let samples = decoded_samples(fmt, packets)->Ok_0;
            &&& decoded_samples(fmt, packets) is Ok
            &&& fmt.channels_per_frame == 1 ==> samples.len() == 64 * (bytes.len() / 34)
                && samples[64 * p + i] == ima4_samples(bytes.subrange(34 * p, 34 * p + 34))[i]
            &&& fmt.channels_per_frame == 2 ==> samples.len() == 128 * (bytes.len() / 68)
                && samples[128 * p + 2 * i] == ima4_samples(
                bytes.subrange(68 * p, 68 * p + 34),
            )[i] && samples[128 * p + 2 * i + 1] == ima4_samples(
                bytes.subrange(68 * p + 34, 68 * p + 68),
            )[i]
        }),
{
    let bytes = packet_bytes(packets);
    let count = bytes.len() / 34;
    let n = bytes.len() as int;
    if fmt.channels_per_frame == 1 {
        assert(p < n / 34) by (nonlinear_arith)
            requires
                34 * (p + 1) <= n,
                p >= 0,
        {
            vstd::arithmetic::div_mod::lemma_fundamental_div_mod(n, 34);
        }
        lemma_ima4_mono_position(bytes, count, p, i);
    } else {
        assert(p < n / 68) by (nonlinear_arith)
            requires
                68 * (p + 1) <= n,
                p >= 0,
        {
            vstd::arithmetic::div_mod::lemma_fundamental_div_mod(n, 68);
        }
        vstd::arithmetic::div_mod::lemma_div_denominator(n, 34, 2);
        assert(count / 2 == n / 68);
        lemma_ima4_stereo_position(bytes, count / 2, p, i);
        assert(34 * (2 * p) == 68 * p);
    }
}

/// Checks the audio description before any packet is read.
pub fn check_format(fmt: &CafAudioFormat) -> (r: Result<(), CafDecodeError>)
    ensures
        r == format_check(*fmt),
{
    let channels = fmt.channels_per_frame;
    if channels == 0 {
        return Err(CafDecodeError::NoChannels);
    }
    match fmt.format_id {
        CafFormatId::AppleIma4 => {
            // One packet holds a 34-byte sub-packet per channel.
            let expected_packet_bytes: u64 = 34 * channels as u64;
            if fmt.bytes_per_packet as u64 != expected_packet_bytes && fmt.bytes_per_packet != 0 {
                Err(CafDecodeError::Ima4PacketSize)
            } else {
                Ok(())
            }
        },
        CafFormatId::LinearPcm => {
            let flags = fmt.format_flags;
            assert(((flags & 0b01) != 0) == (flags % 2 == 1)) by (bit_vector);
            if (flags & 0b01) != 0 {
                return Err(CafDecodeError::LpcmFloat);
            }
            let bits = fmt.bits_per_channel;
            if !(bits == 8 || bits == 16 || bits == 24 || bits == 32) {
                return Err(CafDecodeError::LpcmBitDepth);
            }
            Ok(())
        },
        CafFormatId::Ulaw => Ok(()),
        CafFormatId::Alaw => Ok(()),
        _ => Err(CafDecodeError::UnsupportedFormat),
    }
}

/// The bytes of all packets, one after the other.
fn concat_packets(packets: &Vec<Vec<u8>>) -> (all: Vec<u8>)
    ensures
        all@ == packet_bytes(packets_view(packets@)),
{
    let mut all: Vec<u8> = Vec::new();
    let mut i: usize = 0;
    while i < packets.len()
        invariant
            0 <= i <= packets@.len(),
            all@ == packet_bytes(packets_view(packets@).take(i as int)),
        decreases packets@.len() - i,
    {
        let packet = &packets[i];
        let ghost before = all@;
        let mut j: usize = 0;
        while j < packet.len()
            invariant
                0 <= j <= packet@.len(),
                *packet == packets@[i as int],
                all@ == before + packet@.take(j as int),
            decreases packet@.len() - j,
        {
            all.push(packet[j]);
            assert(packet@.take(j + 1) =~= packet@.take(j as int).push(packet@[j as int]));
            j = j + 1;
        }
        assert(packet@.take(j as int) =~= packet@);
        assert(packets_view(packets@).take(i + 1).drop_last() =~= packets_view(packets@).take(
            i as int,
        ));
        i = i + 1;
    }
    assert(packets_view(packets@).take(i as int) =~= packets_view(packets@));
    all
}

/// Appends the samples of consecutive mono IMA4 packets.
fn decode_ima4_mono(all: &Vec<u8>, count: usize, out: &mut Vec<u8>)
    requires
        34 * count <= all@.len(),
    ensures
        final(out)@ == old(out)@ + pcm16_le(ima4_mono_samples(all@, count as nat)),
{
    let _len = all.len();
    let mut k: usize = 0;
    while k < count
        invariant
            34 * count <= all@.len(),
            all@.len() <= usize::MAX,
            0 <= k <= count,
            out@ == old(out)@ + pcm16_le(ima4_mono_samples(all@, k as nat)),
        decreases count - k,
    {
        let pcm = decode_ima4(all.as_slice(), 34 * k);
        let ghost before = out@;
        let mut i: usize = 0;
        while i < 64
            invariant
                pcm@.len() == 64,
                0 <= i <= 64,
                out@ == before + pcm16_le(pcm@.take(i as int)),
            decreases 64 - i,
        {
            proof {
                assert(pcm@.take(i + 1) =~= pcm@.take(i as int) + seq![pcm@[i as int]]);
                lemma_pcm16_le_append(pcm@.take(i as int), seq![pcm@[i as int]]);
            }
            push_sample(out, pcm[i]);
            i = i + 1;
        }
        proof {
            assert(pcm@.take(64) =~= pcm@);
            lemma_pcm16_le_append(ima4_mono_samples(all@, k as nat), pcm@);
            assert(ima4_sub_packet(all@, k as int) == all@.subrange(34 * k, 34 * k + 34));
        }
        k = k + 1;
    }
}

/// Appends the interleaved samples of consecutive (left, right) IMA4
/// packet pairs.
fn decode_ima4_stereo(all: &Vec<u8>, pairs: usize, out: &mut Vec<u8>)
    requires
        68 * pairs <= all@.len(),
    ensures
        final(out)@ == old(out)@ + pcm16_le(ima4_stereo_samples(all@, pairs as nat)),
{
    let _len = all.len();
    let mut p: usize = 0;
    while p < pairs
        invariant
            68 * pairs <= all@.len(),
            all@.len() <= usize::MAX,
            0 <= p <= pairs,
            out@ == old(out)@ + pcm16_le(ima4_stereo_samples(all@, p as nat)),
        decreases pairs - p,
    {
        let l_pcm = decode_ima4(all.as_slice(), 68 * p);
        let r_pcm = decode_ima4(all.as_slice(), 68 * p + 34);
        let ghost both = interleave(l_pcm@, r_pcm@);
        let ghost before = out@;
        let mut i: usize = 0;
        while i < 64
            invariant
                l_pcm@.len() == 64,
                r_pcm@.len() == 64,
                both == interleave(l_pcm@, r_pcm@),
                0 <= i <= 64,
                out@ == before + pcm16_le(both.take(2 * i)),
            decreases 64 - i,
        {
            proof {
                assert(both.take(2 * i + 2) =~= both.take(2 * i) + seq![l_pcm@[i as int], r_pcm@[i as int]]);
                lemma_pcm16_le_append(both.take(2 * i), seq![l_pcm@[i as int]]);
                lemma_pcm16_le_append(both.take(2 * i) + seq![l_pcm@[i as int]], seq![r_pcm@[i as int]]);
                assert(seq![l_pcm@[i as int], r_pcm@[i as int]] =~= seq![l_pcm@[i as int]] + seq![r_pcm@[i as int]]);
            }
            push_sample(out, l_pcm[i]);
            push_sample(out, r_pcm[i]);
            i = i + 1;
        }
        proof {
            assert(both.take(128) =~= both);
            lemma_pcm16_le_append(ima4_stereo_samples(all@, p as nat), both);
            assert(ima4_sub_packet(all@, 2 * (p + 1) - 2) == all@.subrange(68 * p, 68 * p + 34));
            assert(ima4_sub_packet(all@, 2 * (p + 1) - 1) == all@.subrange(68 * p + 34, 68 * p + 68));
        }
        p = p + 1;
    }
}

/// Appends the G.711 samples of `bytes`, µ-law or A-law.
fn decode_g711(bytes: &Vec<u8>, is_ulaw: bool, out: &mut Vec<u8>)
    ensures
        final(out)@ == old(out)@ + pcm16_le(
            if is_ulaw {
                ulaw_samples(bytes@)
            } else {
                alaw_samples(bytes@)
            },
        ),
{
    let ghost samples = if is_ulaw {
        ulaw_samples(bytes@)
    } else {
        alaw_samples(bytes@)
    };
    let mut i: usize = 0;
    while i < bytes.len()
        invariant
            0 <= i <= bytes@.len(),
            samples == if is_ulaw {
                ulaw_samples(bytes@)
            } else {
                alaw_samples(bytes@)
            },
            out@ == old(out)@ + pcm16_le(samples.take(i as int)),
        decreases bytes@.len() - i,
    {
        let s16 = if is_ulaw {
            ulaw_to_linear(bytes[i])
        } else {
            alaw_to_linear(bytes[i])
        };
        proof {
            lemma_ulaw_range(bytes@[i as int]);
            lemma_alaw_range(bytes@[i as int]);
            assert(samples[i as int] == s16);
            assert(samples.take(i + 1) =~= samples.take(i as int) + seq![s16]);
            lemma_pcm16_le_append(samples.take(i as int), seq![s16]);
        }
        push_sample(out, s16);
        i = i + 1;
    }
    assert(samples.take(i as int) =~= samples);
}

/// Decodes the audio packets of a CAF file whose audio description is
/// `fmt` into 16-bit little-endian interleaved PCM.
pub fn decode_packets(fmt: &CafAudioFormat, packets: &Vec<Vec<u8>>) -> (r: Result<
    Vec<u8>,
    CafDecodeError,
>)
    ensures
        match r {
            Ok(bytes) => decode_result(*fmt, packets_view(packets@)) == Ok::<
                Seq<u8>,
                CafDecodeError,
            >(bytes@),
            Err(e) => decode_result(*fmt, packets_view(packets@)) == Err::<Seq<u8>, _>(e),
        },
{
    match check_format(fmt) {
        Err(e) => return Err(e),
        Ok(()) => {},
    }
    let ghost view = packets_view(packets@);
    let mut out_pcm: Vec<u8> = Vec::new();
    match fmt.format_id {
        CafFormatId::AppleIma4 => {
            let all_bytes = concat_packets(packets);
            // A tail that does not form a whole 34-byte packet is ignored.
            let count = all_bytes.len() / 34;
            if count == 0 {
                return Err(CafDecodeError::Ima4NoData);
            }
            if fmt.channels_per_frame == 1 {
                decode_ima4_mono(&all_bytes, count, &mut out_pcm);
            } else if fmt.channels_per_frame == 2 {
                // An odd last packet has no right-channel partner and is dropped.
                decode_ima4_stereo(&all_bytes, count / 2, &mut out_pcm);
            } else {
                return Err(CafDecodeError::Ima4TooManyChannels);
            }
        },
        CafFormatId::LinearPcm => {
            let bits = fmt.bits_per_channel;
            let flags = fmt.format_flags;
            assert(((flags & 0b10) != 0) == ((flags / 2) % 2 == 1)) by (bit_vector);
            let is_little_endian = (flags & 0b10) != 0;
            let mut i: usize = 0;
            while i < packets.len()
                invariant
                    lpcm_bits_supported(bits),
                    bits == fmt.bits_per_channel,
                    is_little_endian == lpcm_is_little_endian(fmt.format_flags),
                    view == packets_view(packets@),
                    0 <= i <= packets@.len(),
                    out_pcm@ == pcm16_le(
                        lpcm_samples(view.take(i as int), (bits / 8) as nat, is_little_endian),
                    ),
                decreases packets@.len() - i,
            {
                decode_lpcm_packet(packets[i].as_slice(), bits, is_little_endian, &mut out_pcm);
                proof {
                    assert(view.take(i + 1).drop_last() =~= view.take(i as int));
                    lemma_pcm16_le_append(
                        lpcm_samples(view.take(i as int), (bits / 8) as nat, is_little_endian),
                        lpcm_packet_samples(view[i as int], (bits / 8) as nat, is_little_endian),
                    );
                }
                i = i + 1;
            }
            assert(view.take(i as int) =~= view);
        },
        CafFormatId::Ulaw => {
            let all_bytes = concat_packets(packets);
            decode_g711(&all_bytes, true, &mut out_pcm);
            assert(out_pcm@ =~= pcm16_le(ulaw_samples(all_bytes@)));
        },
        CafFormatId::Alaw => {
            let all_bytes = concat_packets(packets);
            decode_g711(&all_bytes, false, &mut out_pcm);
            assert(out_pcm@ =~= pcm16_le(alaw_samples(all_bytes@)));
        },
        _ => {
            return Err(CafDecodeError::UnsupportedFormat);
        },
    }
    if out_pcm.len() == 0 {
        return Err(CafDecodeError::EmptyOutput);
    }
    Ok(out_pcm)
}

} // verus!
