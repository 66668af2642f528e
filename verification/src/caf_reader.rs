//! Reading a CAF file with the `caf` crate and decoding its audio.

use vstd::prelude::*;
use std::io::Cursor;
use caf::{CafError, CafPacketReader, FormatType};
use crate::caf_layout::{
    CafWalkEnd, caf_file_readable, caf_packets_addressable, has_caf_header, walk_caf_chunks,
};
use crate::caf_decoder::{
    CafAudioFormat, CafDecodeError, CafFormatId, check_format, decode_packets, decode_result,
    format_check, packets_view,
};

verus! {

/// `caf::CafError`, the error the reader reports; opaque here, only told
/// apart from success.
#[verifier::external_type_specification]
#[verifier::external_body]
pub struct ExCafError(CafError);

/// A `caf::CafPacketReader` over an in-memory CAF file. Verus sees nothing
/// inside it: every use goes through the trusted functions below, which
/// speak of it through `reader_file`, `reader_format` and `reader_packets`.
#[verifier::external_body]
pub struct CafFileReader {
    reader: CafPacketReader<Cursor<Vec<u8>>>,
}

/// The audio description that `caf::CafPacketReader::new` finds in a file,
/// or `None` where it refuses the file.
pub uninterp spec fn caf_file_format(file: Seq<u8>) -> Option<CafAudioFormat>;

/// The packets that successive `caf::CafPacketReader::next_packet` calls on
/// a freshly opened reader over the file return, up to the first call that
/// returns `Ok(None)` or an error.
pub uninterp spec fn caf_file_packets(file: Seq<u8>) -> Seq<Seq<u8>>;

/// The bytes of the file a reader was opened over.
pub uninterp spec fn reader_file(reader: CafFileReader) -> Seq<u8>;

/// The audio description a reader holds.
pub uninterp spec fn reader_format(reader: CafFileReader) -> CafAudioFormat;

/// The packets that successive `next_packet` calls on the reader return
/// from now on, up to the first call that returns `Ok(None)` or an error.
pub uninterp spec fn reader_packets(reader: CafFileReader) -> Seq<Seq<u8>>;

/// `caf::CafPacketReader::new` over the file's bytes, with no extra chunk
/// types requested. It refuses a file that does not start with the CAF
/// header; otherwise it reads the chunks up to the audio data, and it
/// succeeds exactly when it finds a description, which the reader then
/// holds; the reader then yields the file's packets, and remembers the file.
/// Reading a cursor over bytes in memory depends on those bytes alone, which
/// is what naming the outcome after the file claims.
///
/// The crate panics, or loops, on some chunk layouts; `caf_file_readable`
/// leaves those files out.
#[verifier::external_body]
fn caf_open(file: Vec<u8>) -> (r: Result<CafFileReader, CafError>)
    requires
        caf_file_readable(file@),
    ensures
        !has_caf_header(file@) ==> r is Err,
        r is Ok <==> caf_file_format(file@) is Some,
        r matches Ok(reader) ==> Some(reader_format(reader)) == caf_file_format(file@)
            && reader_packets(reader) == caf_file_packets(file@) && reader_file(reader) == file@,
{
    match CafPacketReader::new(Cursor::new(file), Vec::new()) {
        Ok(reader) => Ok(CafFileReader { reader }),
        Err(e) => Err(e),
    }
}

/// The `format_id` field of the reader's `audio_desc`, variant for variant:
/// the format of the reader's description.
#[verifier::external_body]
fn caf_format_id(reader: &CafFileReader) -> (id: CafFormatId)
    ensures
        id == reader_format(*reader).format_id,
{
    match &reader.reader.audio_desc.format_id {
        FormatType::LinearPcm => CafFormatId::LinearPcm,
        FormatType::AppleIma4 => CafFormatId::AppleIma4,
        FormatType::Mpeg4Aac => CafFormatId::Mpeg4Aac,
        FormatType::Mace3 => CafFormatId::Mace3,
        FormatType::Mace6 => CafFormatId::Mace6,
        FormatType::Ulaw => CafFormatId::Ulaw,
        FormatType::Alaw => CafFormatId::Alaw,
        FormatType::MpegLayer1 => CafFormatId::MpegLayer1,
        FormatType::MpegLayer2 => CafFormatId::MpegLayer2,
        FormatType::MpegLayer3 => CafFormatId::MpegLayer3,
        FormatType::AppleLossless => CafFormatId::AppleLossless,
        FormatType::Other(code) => CafFormatId::Other(*code),
    }
}

/// The numeric fields of the reader's `audio_desc`: the sample rate's bit
/// pattern, the format flags, bytes per packet, frames per packet, channels
/// per frame and bits per channel, those of the reader's description.
#[verifier::external_body]
fn caf_format_fields(reader: &CafFileReader) -> (fields: (u64, u32, u32, u32, u32, u32))
    ensures
        fields == (
            reader_format(*reader).sample_rate_bits,
            reader_format(*reader).format_flags,
            reader_format(*reader).bytes_per_packet,
            reader_format(*reader).frames_per_packet,
            reader_format(*reader).channels_per_frame,
            reader_format(*reader).bits_per_channel,
        ),
{
    let d = &reader.reader.audio_desc;
    (
        d.sample_rate.to_bits(),
        d.format_flags,
        d.bytes_per_packet,
        d.frames_per_packet,
        d.channels_per_frame,
        d.bits_per_channel,
    )
}

/// `caf::CafPacketReader::next_packet`: the next packet of the audio data
/// chunk, which it hands out and drops from what the reader yields;
/// `Ok(None)` or an error once there is none. The description and the file
/// are untouched.
///
/// It panics where a packet length taken from the packet table is 2^63 or
/// more, or overflows the reader's offset into the audio data;
/// `caf_packets_addressable` leaves those files out. Nothing here speaks of
/// the allocation of a packet's buffer failing for want of memory, which
/// aborts the process.
#[verifier::external_body]
fn caf_next_packet(reader: &mut CafFileReader) -> (r: Result<Option<Vec<u8>>, CafError>)
    requires
        caf_packets_addressable(reader_file(*old(reader))),
    ensures
        reader_format(*final(reader)) == reader_format(*old(reader)),
        reader_file(*final(reader)) == reader_file(*old(reader)),
        r matches Ok(Some(packet)) ==> {
            &&& reader_packets(*old(reader)).len() > 0
            &&& packet@ == reader_packets(*old(reader))[0]
            &&& reader_packets(*final(reader)) == reader_packets(*old(reader)).drop_first()
        },
        !(r matches Ok(Some(_))) ==> reader_packets(*old(reader)).len() == 0,
{
    reader.reader.next_packet()
}

/// Reads packets until the reader reports the end or an error: all that the
/// reader yields.
fn read_packets(reader: &mut CafFileReader) -> (packets: Vec<Vec<u8>>)
    requires
        caf_packets_addressable(reader_file(*old(reader))),
    ensures
        packets_view(packets@) == reader_packets(*old(reader)),
{
    let ghost start = reader_packets(*reader);
    let mut packets: Vec<Vec<u8>> = Vec::new();
    loop
        invariant
            start == reader_packets(*old(reader)),
            reader_file(*reader) == reader_file(*old(reader)),
            caf_packets_addressable(reader_file(*old(reader))),
            packets_view(packets@) + reader_packets(*reader) == start,
        decreases reader_packets(*reader).len(),
    {
        let ghost before = reader_packets(*reader);
        match caf_next_packet(reader) {
            Ok(Some(packet)) => {
                let ghost p = packet@;
                packets.push(packet);
                proof {
                    assert(packets_view(packets@) =~= packets_view(packets@.drop_last()).push(p));
                    assert(before =~= seq![p] + before.drop_first());
                    assert(packets_view(packets@) + reader_packets(*reader) =~= start);
                }
            },
            _ => {
                assert(packets_view(packets@) =~= start);
                return packets;
            },
        }
    }
}

/// 16-bit little-endian interleaved PCM decoded from a CAF file, with the
/// file's sample rate (as its IEEE-754 bit pattern) and channel count.
pub struct DecodedCaf {
    pub bytes: Vec<u8>,
    pub sample_rate_bits: u64,
    pub channels: u32,
}

/// Decodes a CAF file into 16-bit little-endian interleaved PCM.
///
/// A file that does not start with the CAF header, whose chunk layout the
/// `caf` crate cannot walk safely, or that the crate refuses, gives
/// `ReaderFailed`. Otherwise the outcome is what
/// `decode_result` gives for the file's own audio description and packets:
/// the PCM, with that description's sample rate and channel count, or the
/// reason for refusal; a supported description whose packet table holds a
/// length the crate cannot read gives `ReaderFailed`.
pub fn decode_caf_to_pcm_inner(file: Vec<u8>) -> (r: Result<DecodedCaf, CafDecodeError>)
    ensures
        !has_caf_header(file@) ==> r == Err::<DecodedCaf, CafDecodeError>(
            CafDecodeError::ReaderFailed,
        ),
        !caf_file_readable(file@) ==> r == Err::<DecodedCaf, CafDecodeError>(
            CafDecodeError::ReaderFailed,
        ),
        caf_file_readable(file@) && caf_file_format(file@) is None ==> r == Err::<
            DecodedCaf,
            CafDecodeError,
        >(CafDecodeError::ReaderFailed),
        caf_file_readable(file@) ==> (caf_file_format(file@) matches Some(fmt) ==> ((format_check(
            fmt,
        ) is Err || caf_packets_addressable(file@)) ==> match r {
            Ok(pcm) => {
                &&& decode_result(fmt, caf_file_packets(file@)) == Ok::<Seq<u8>, CafDecodeError>(
                    pcm.bytes@,
                )
                &&& pcm.sample_rate_bits == fmt.sample_rate_bits
                &&& pcm.channels == fmt.channels_per_frame
            },
            Err(e) => decode_result(fmt, caf_file_packets(file@)) == Err::<Seq<u8>, CafDecodeError>(
                e,
            ),
        })),
        caf_file_readable(file@) ==> (caf_file_format(file@) matches Some(fmt) ==> (format_check(
            fmt,
        ) is Ok && !caf_packets_addressable(file@) ==> r == Err::<DecodedCaf, CafDecodeError>(
            CafDecodeError::ReaderFailed,
        ))),
{
    let walk = walk_caf_chunks(&file);
    if let CafWalkEnd::Refused = walk {
        return Err(CafDecodeError::ReaderFailed);
    }
    let ghost bytes = file@;
    let mut reader = match caf_open(file) {
        Ok(reader) => reader,
        Err(_) => return Err(CafDecodeError::ReaderFailed),
    };
    let format_id = caf_format_id(&reader);
    let (sample_rate_bits, format_flags, bytes_per_packet, frames_per_packet, channels, bits) =
        caf_format_fields(&reader);
    let fmt = CafAudioFormat {
        format_id,
        sample_rate_bits,
        format_flags,
        bytes_per_packet,
        frames_per_packet,
        channels_per_frame: channels,
        bits_per_channel: bits,
    };
    assert(Some(fmt) == caf_file_format(bytes));
    match check_format(&fmt) {
        Err(e) => {
            return Err(e);
        },
        Ok(()) => {},
    }
    match walk {
        CafWalkEnd::Ends { packets_addressable: true } => {},
        _ => {
            return Err(CafDecodeError::ReaderFailed);
        },
    }
    let packets = read_packets(&mut reader);
    match decode_packets(&fmt, &packets) {
        Ok(bytes) => Ok(DecodedCaf { bytes, sample_rate_bits, channels }),
        Err(e) => Err(e),
    }
}

} // verus!
