use touchhle::caf_decoder::{
    check_format, decode_packets, CafAudioFormat, CafDecodeError, CafFormatId,
};
use touchhle::caf_layout::{check_caf_layout, walk_caf_chunks, CafWalkEnd};
use touchhle::caf_reader::decode_caf_to_pcm_inner;
use touchhle::g711::{alaw_to_linear, ulaw_to_linear};
use touchhle::ima4::decode_ima4;
use touchhle::lpcm::{decode_lpcm_packet, i16_pair, lpcm_sample_to_i16};
use touchhle::pcm::push_sample;

fn pcm(samples: &[i16]) -> Vec<u8> {
    let mut out = Vec::new();
    for s in samples {
        out.extend_from_slice(&s.to_le_bytes());
    }
    out
}

fn format(format_id: CafFormatId, channels: u32, bits: u32, flags: u32, bpp: u32) -> CafAudioFormat {
    CafAudioFormat {
        format_id,
        sample_rate_bits: 44100f64.to_bits(),
        format_flags: flags,
        bytes_per_packet: bpp,
        frames_per_packet: 1,
        channels_per_frame: channels,
        bits_per_channel: bits,
    }
}

/// A CAF file with one `desc` chunk and one `data` chunk.
fn caf_file(
    format_id: &[u8; 4],
    sample_rate: f64,
    flags: u32,
    bytes_per_packet: u32,
    frames_per_packet: u32,
    channels: u32,
    bits: u32,
    payload: &[u8],
    unspecified_data_size: bool,
) -> Vec<u8> {
    let mut f = Vec::new();
    f.extend_from_slice(b"caff");
    f.extend_from_slice(&1u16.to_be_bytes());
    f.extend_from_slice(&0u16.to_be_bytes());
    f.extend_from_slice(b"desc");
    f.extend_from_slice(&32i64.to_be_bytes());
    f.extend_from_slice(&sample_rate.to_be_bytes());
    f.extend_from_slice(format_id);
    f.extend_from_slice(&flags.to_be_bytes());
    f.extend_from_slice(&bytes_per_packet.to_be_bytes());
    f.extend_from_slice(&frames_per_packet.to_be_bytes());
    f.extend_from_slice(&channels.to_be_bytes());
    f.extend_from_slice(&bits.to_be_bytes());
    f.extend_from_slice(b"data");
    let size: i64 = if unspecified_data_size { -1 } else { 4 + payload.len() as i64 };
    f.extend_from_slice(&size.to_be_bytes());
    f.extend_from_slice(&0u32.to_be_bytes());
    f.extend_from_slice(payload);
    f
}

fn ima4_test_packet() -> Vec<u8> {
    let mut p = vec![0x12, 0x05];
    for _ in 0..4 {
        p.extend_from_slice(&[0x71, 0x8f, 0x33, 0x44, 0x07, 0x70, 0xf9, 0x12]);
    }
    p
}

const IMA4_TEST_SAMPLES: [i16; 64] = [
    4612, 4631, 4590, 4584, 4622, 4657, 4698, 4748, 4849, 4863, 4876, 5057, 4979, 4624, 4879,
    5017, 5143, 5717, 4484, 4308, 5429, 6448, 7640, 9082, 11992, 12407, 12785, 17938, 15729, 5684,
    12862, 16777, 20336, 32767, -1920, -6015, 20054, 32767, 32767, 32767, 32767, 32767, 32767,
    32767, 20481, -32768, -12290, -1118, 9038, 32767, -28669, -32764, -6695, 17004, 32767, 32767,
    32767, 32767, 32767, 32767, 20481, -32768, -12290, -1118,
];

#[test]
fn ulaw_known_values() {
    assert_eq!(ulaw_to_linear(0x00), -32124);
    assert_eq!(ulaw_to_linear(0x80), 32124);
    assert_eq!(ulaw_to_linear(0xFF), 0);
    assert_eq!(ulaw_to_linear(0x7F), 0);
    assert_eq!(ulaw_to_linear(0x10), -15996);
    assert_eq!(ulaw_to_linear(0xA3), 7164);
    assert_eq!(ulaw_to_linear(0x55), -716);
}

#[test]
fn alaw_known_values() {
    assert_eq!(alaw_to_linear(0x00), -5504);
    assert_eq!(alaw_to_linear(0x80), 5504);
    assert_eq!(alaw_to_linear(0x55), -8);
    assert_eq!(alaw_to_linear(0xD5), 8);
    assert_eq!(alaw_to_linear(0xA3), 23040);
    assert_eq!(alaw_to_linear(0xAA), 32256);
    assert_eq!(alaw_to_linear(0x2A), -32256);
}

#[test]
fn g711_sign_symmetry_and_range() {
    for b in 0..=255u8 {
        assert_eq!(ulaw_to_linear(b ^ 0x80), -ulaw_to_linear(b));
        assert_eq!(alaw_to_linear(b ^ 0x80), -alaw_to_linear(b));
        assert!(ulaw_to_linear(b).abs() <= 32124);
        assert!(alaw_to_linear(b).abs() <= 32256);
    }
}

#[test]
fn i16_pair_reads_twos_complement() {
    assert_eq!(i16_pair(0x7f, 0xff), 32767);
    assert_eq!(i16_pair(0x80, 0x00), -32768);
    assert_eq!(i16_pair(0xff, 0xfe), -2);
    assert_eq!(i16_pair(0x01, 0x02), 0x0102);
}

#[test]
fn push_sample_is_little_endian() {
    let mut out = vec![9u8];
    push_sample(&mut out, -2);
    push_sample(&mut out, 0x1234);
    assert_eq!(out, vec![9, 0xfe, 0xff, 0x34, 0x12]);
}

#[test]
fn lpcm_samples_of_each_width() {
    // 8-bit samples are signed and move into the high byte.
    assert_eq!(lpcm_sample_to_i16(&[0x80], 0, 8, false), -32768);
    assert_eq!(lpcm_sample_to_i16(&[0x7f], 0, 8, true), 0x7f00);
    assert_eq!(lpcm_sample_to_i16(&[0x01], 0, 8, false), 256);
    // 16-bit.
    assert_eq!(lpcm_sample_to_i16(&[0x34, 0x12], 0, 16, true), 0x1234);
    assert_eq!(lpcm_sample_to_i16(&[0x12, 0x34], 0, 16, false), 0x1234);
    // 24-bit keeps the top 16 bits, rounding down.
    assert_eq!(lpcm_sample_to_i16(&[0xff, 0x34, 0x12], 0, 24, true), 0x1234);
    assert_eq!(lpcm_sample_to_i16(&[0x12, 0x34, 0xff], 0, 24, false), 0x1234);
    assert_eq!(lpcm_sample_to_i16(&[0x01, 0x00, 0x80], 0, 24, true), -32768);
    assert_eq!(lpcm_sample_to_i16(&[0xff, 0xff, 0xff], 0, 24, false), -1);
    // 32-bit.
    assert_eq!(lpcm_sample_to_i16(&[0x78, 0x56, 0x34, 0x12], 0, 32, true), 0x1234);
    assert_eq!(lpcm_sample_to_i16(&[0x12, 0x34, 0x56, 0x78], 0, 32, false), 0x1234);
    assert_eq!(lpcm_sample_to_i16(&[0xfe, 0xff, 0xff, 0xff], 0, 32, false), -257);
    assert_eq!(lpcm_sample_to_i16(&[0xff, 0xff, 0xff, 0xff], 0, 32, true), -1);
    // At an offset.
    assert_eq!(lpcm_sample_to_i16(&[0, 0, 0x34, 0x12], 2, 16, true), 0x1234);
}

#[test]
fn lpcm_packet_skips_partial_sample() {
    let mut out = Vec::new();
    decode_lpcm_packet(&[0x00, 0x01, 0xff, 0xff, 0x7f], 16, false, &mut out);
    assert_eq!(out, pcm(&[1, -1]));
}

#[test]
fn ima4_zero_packet_is_silence() {
    let packet = vec![0u8; 34];
    assert_eq!(decode_ima4(&packet, 0), vec![0i16; 64]);
}

#[test]
fn ima4_known_packet() {
    let mut data = vec![0xAA];
    data.extend_from_slice(&ima4_test_packet());
    assert_eq!(decode_ima4(&data, 1), IMA4_TEST_SAMPLES.to_vec());
}

#[test]
fn ima4_clamps_at_sample_range() {
    let mut packet = vec![0x80, 0x58];
    packet.extend_from_slice(&[0x88; 32]);
    assert_eq!(decode_ima4(&packet, 0)[..8], [-32768i16; 8]);
}

#[test]
fn format_checks() {
    assert_eq!(check_format(&format(CafFormatId::Ulaw, 0, 8, 0, 1)), Err(CafDecodeError::NoChannels));
    assert_eq!(check_format(&format(CafFormatId::Ulaw, 1, 8, 0, 1)), Ok(()));
    assert_eq!(check_format(&format(CafFormatId::Alaw, 2, 8, 0, 2)), Ok(()));
    assert_eq!(
        check_format(&format(CafFormatId::AppleIma4, 2, 0, 0, 34)),
        Err(CafDecodeError::Ima4PacketSize)
    );
    assert_eq!(check_format(&format(CafFormatId::AppleIma4, 2, 0, 0, 68)), Ok(()));
    assert_eq!(check_format(&format(CafFormatId::AppleIma4, 2, 0, 0, 0)), Ok(()));
    assert_eq!(
        check_format(&format(CafFormatId::LinearPcm, 1, 32, 1, 4)),
        Err(CafDecodeError::LpcmFloat)
    );
    assert_eq!(
        check_format(&format(CafFormatId::LinearPcm, 1, 12, 0, 2)),
        Err(CafDecodeError::LpcmBitDepth)
    );
    assert_eq!(check_format(&format(CafFormatId::LinearPcm, 1, 24, 2, 3)), Ok(()));
    assert_eq!(
        check_format(&format(CafFormatId::Mpeg4Aac, 2, 0, 0, 0)),
        Err(CafDecodeError::UnsupportedFormat)
    );
    assert_eq!(
        check_format(&format(CafFormatId::Other(0x1234), 2, 0, 0, 0)),
        Err(CafDecodeError::UnsupportedFormat)
    );
}

#[test]
fn decode_packets_ulaw_and_alaw() {
    let packets = vec![vec![0x00, 0x80], vec![], vec![0xff]];
    assert_eq!(
        decode_packets(&format(CafFormatId::Ulaw, 1, 8, 0, 1), &packets),
        Ok(pcm(&[-32124, 32124, 0]))
    );
    assert_eq!(
        decode_packets(&format(CafFormatId::Alaw, 1, 8, 0, 1), &packets),
        Ok(pcm(&[-5504, 5504, 848]))
    );
}

#[test]
fn decode_packets_lpcm() {
    // 24-bit little-endian (flag bit 1), partial samples dropped per packet.
    let packets = vec![vec![0xff, 0x34, 0x12, 0x00], vec![0x00, 0x00, 0x80]];
    assert_eq!(
        decode_packets(&format(CafFormatId::LinearPcm, 1, 24, 2, 3), &packets),
        Ok(pcm(&[0x1234, -32768]))
    );
    // 8-bit.
    assert_eq!(
        decode_packets(&format(CafFormatId::LinearPcm, 1, 8, 0, 1), &vec![vec![0x01, 0xff]]),
        Ok(pcm(&[256, -256]))
    );
}

#[test]
fn decode_packets_ima4_mono_and_stereo() {
    let p = ima4_test_packet();
    let z = vec![0u8; 34];
    // Mono: packets may be split arbitrarily; a partial tail is dropped.
    let mut joined = p.clone();
    joined.extend_from_slice(&z);
    joined.extend_from_slice(&[1, 2, 3]);
    let packets = vec![joined[..10].to_vec(), joined[10..].to_vec()];
    let mut expected: Vec<i16> = IMA4_TEST_SAMPLES.to_vec();
    expected.extend_from_slice(&[0; 64]);
    assert_eq!(
        decode_packets(&format(CafFormatId::AppleIma4, 1, 0, 0, 34), &packets),
        Ok(pcm(&expected))
    );
    // Stereo: left then right, interleaved; an odd last packet is dropped.
    let mut stereo = p.clone();
    stereo.extend_from_slice(&z);
    stereo.extend_from_slice(&p);
    let mut expected = Vec::new();
    for s in IMA4_TEST_SAMPLES.iter() {
        expected.push(*s);
        expected.push(0);
    }
    assert_eq!(
        decode_packets(&format(CafFormatId::AppleIma4, 2, 0, 0, 68), &vec![stereo]),
        Ok(pcm(&expected))
    );
}

#[test]
fn decode_packets_errors() {
    assert_eq!(
        decode_packets(&format(CafFormatId::AppleIma4, 1, 0, 0, 34), &vec![vec![0; 33]]),
        Err(CafDecodeError::Ima4NoData)
    );
    assert_eq!(
        decode_packets(&format(CafFormatId::AppleIma4, 3, 0, 0, 0), &vec![vec![0; 34]]),
        Err(CafDecodeError::Ima4TooManyChannels)
    );
    assert_eq!(
        decode_packets(&format(CafFormatId::Ulaw, 1, 8, 0, 1), &vec![]),
        Err(CafDecodeError::EmptyOutput)
    );
    assert_eq!(
        decode_packets(&format(CafFormatId::LinearPcm, 1, 16, 0, 2), &vec![vec![1]]),
        Err(CafDecodeError::EmptyOutput)
    );
    assert_eq!(
        decode_packets(&format(CafFormatId::AppleLossless, 1, 16, 0, 0), &vec![vec![1, 2]]),
        Err(CafDecodeError::UnsupportedFormat)
    );
    assert_eq!(
        decode_packets(&format(CafFormatId::LinearPcm, 1, 32, 3, 4), &vec![vec![1, 2, 3, 4]]),
        Err(CafDecodeError::LpcmFloat)
    );
}

#[test]
fn caf_file_ulaw() {
    let file = caf_file(b"ulaw", 8000.0, 0, 1, 1, 1, 8, &[0x00, 0x80, 0xff], false);
    let pcm_out = decode_caf_to_pcm_inner(file).unwrap();
    assert_eq!(pcm_out.bytes, pcm(&[-32124, 32124, 0]));
    assert_eq!(pcm_out.channels, 1);
    assert_eq!(f64::from_bits(pcm_out.sample_rate_bits), 8000.0);
}

#[test]
fn caf_file_with_unspecified_data_size() {
    let file = caf_file(b"alaw", 22050.0, 0, 1, 1, 1, 8, &[0x55, 0xd5], true);
    let pcm_out = decode_caf_to_pcm_inner(file).unwrap();
    assert_eq!(pcm_out.bytes, pcm(&[-8, 8]));
    assert_eq!(f64::from_bits(pcm_out.sample_rate_bits), 22050.0);
}

#[test]
fn caf_file_lpcm_stereo() {
    let file = caf_file(b"lpcm", 44100.0, 2, 4, 1, 2, 16, &[0x34, 0x12, 0xfe, 0xff], false);
    let pcm_out = decode_caf_to_pcm_inner(file).unwrap();
    assert_eq!(pcm_out.bytes, pcm(&[0x1234, -2]));
    assert_eq!(pcm_out.channels, 2);
}

#[test]
fn caf_file_ima4() {
    let file = caf_file(b"ima4", 44100.0, 0, 34, 64, 1, 0, &ima4_test_packet(), false);
    let pcm_out = decode_caf_to_pcm_inner(file).unwrap();
    assert_eq!(pcm_out.bytes, pcm(&IMA4_TEST_SAMPLES));
}

#[test]
fn caf_file_refusals() {
    assert_eq!(
        decode_caf_to_pcm_inner(b"RIFF\0\0\0\0WAVE".to_vec()).err(),
        Some(CafDecodeError::ReaderFailed)
    );
    let float = caf_file(b"lpcm", 44100.0, 1, 4, 1, 1, 32, &[0, 0, 0, 0], false);
    assert_eq!(decode_caf_to_pcm_inner(float).err(), Some(CafDecodeError::LpcmFloat));
    let aac = caf_file(b"aac ", 44100.0, 0, 4, 1, 1, 0, &[0, 0, 0, 0], false);
    assert_eq!(decode_caf_to_pcm_inner(aac).err(), Some(CafDecodeError::UnsupportedFormat));
    let silent = caf_file(b"ulaw", 8000.0, 0, 1, 1, 0, 8, &[1], false);
    assert_eq!(decode_caf_to_pcm_inner(silent).err(), Some(CafDecodeError::NoChannels));
    let empty = caf_file(b"ulaw", 8000.0, 0, 1, 1, 1, 8, &[], false);
    assert_eq!(decode_caf_to_pcm_inner(empty).err(), Some(CafDecodeError::EmptyOutput));
}

fn chunk(kind: &[u8; 4], size: i64, body: &[u8]) -> Vec<u8> {
    let mut c = kind.to_vec();
    c.extend_from_slice(&size.to_be_bytes());
    c.extend_from_slice(body);
    c
}

fn desc_body(format_id: &[u8; 4], bytes_per_packet: u32, frames_per_packet: u32) -> Vec<u8> {
    let mut d = 8000f64.to_be_bytes().to_vec();
    d.extend_from_slice(format_id);
    d.extend_from_slice(&0u32.to_be_bytes());
    d.extend_from_slice(&bytes_per_packet.to_be_bytes());
    d.extend_from_slice(&frames_per_packet.to_be_bytes());
    d.extend_from_slice(&1u32.to_be_bytes());
    d.extend_from_slice(&8u32.to_be_bytes());
    d
}

fn caf_header() -> Vec<u8> {
    vec![0x63, 0x61, 0x66, 0x66, 0, 1, 0, 0]
}

#[test]
fn layout_refuses_unspecified_size_before_description() {
    let mut f = caf_header();
    f.extend(chunk(b"free", -1, &[0; 4]));
    f.extend(chunk(b"desc", 32, &desc_body(b"ulaw", 1, 1)));
    assert!(!check_caf_layout(&f));
    assert_eq!(decode_caf_to_pcm_inner(f).err(), Some(CafDecodeError::ReaderFailed));
}

#[test]
fn layout_refuses_backward_chunk_size() {
    let mut f = caf_header();
    f.extend(chunk(b"free", -12, &[]));
    f.extend(chunk(b"desc", 32, &desc_body(b"ulaw", 1, 1)));
    assert!(!check_caf_layout(&f));
    assert_eq!(decode_caf_to_pcm_inner(f).err(), Some(CafDecodeError::ReaderFailed));
}

#[test]
fn layout_refuses_short_description() {
    let mut f = caf_header();
    f.extend(chunk(b"desc", 8, &[0; 8]));
    assert!(!check_caf_layout(&f));
    assert_eq!(decode_caf_to_pcm_inner(f).err(), Some(CafDecodeError::ReaderFailed));
}

#[test]
fn layout_refuses_unspecified_data_before_needed_packet_table() {
    // The description leaves the packet size open, so a packet table must be
    // found; the reader would have to skip a data chunk of unspecified size.
    let mut f = caf_header();
    f.extend(chunk(b"desc", 32, &desc_body(b"ulaw", 0, 1)));
    f.extend(chunk(b"data", -1, &[0, 0, 0, 0, 1, 2]));
    assert!(!check_caf_layout(&f));
    assert_eq!(decode_caf_to_pcm_inner(f).err(), Some(CafDecodeError::ReaderFailed));
}

#[test]
fn layout_accepts_ordinary_files() {
    assert!(check_caf_layout(&caf_file(b"ulaw", 8000.0, 0, 1, 1, 1, 8, &[1, 2], false)));
    assert!(check_caf_layout(&caf_file(b"ulaw", 8000.0, 0, 1, 1, 1, 8, &[1, 2], true)));
    assert!(check_caf_layout(&b"not a caf file".to_vec()));
    // A data chunk before the description is skipped and found again.
    let mut f = caf_header();
    f.extend(chunk(b"data", 6, &[0, 0, 0, 0, 0x00, 0x80]));
    f.extend(chunk(b"desc", 32, &desc_body(b"ulaw", 1, 1)));
    assert!(check_caf_layout(&f));
    assert_eq!(decode_caf_to_pcm_inner(f).unwrap().bytes, pcm(&[-32124, 32124]));
}

#[test]
fn g711_order_and_injectivity() {
    for a in 0..=255u8 {
        for b in 0..=255u8 {
            if a < b && a >= 0x80 {
                assert!(ulaw_to_linear(a) > ulaw_to_linear(b));
            }
            if a < b && b <= 0x7f {
                assert!(ulaw_to_linear(a) < ulaw_to_linear(b));
            }
            if a != b {
                let zero_pair = (a == 0x7f && b == 0xff) || (a == 0xff && b == 0x7f);
                assert_eq!(ulaw_to_linear(a) == ulaw_to_linear(b), zero_pair);
                assert_ne!(alaw_to_linear(a), alaw_to_linear(b));
            }
        }
        assert_eq!(alaw_to_linear(a) > 0, (a ^ 0x55) & 0x80 != 0);
    }
}

#[test]
fn layout_follows_backward_seek_onto_data_header() {
    // A `free` chunk whose body holds an audio data header, the description,
    // then a `free` chunk whose negative size seeks back onto that header.
    let mut f = caf_header();
    f.extend(chunk(b"free", 12, &chunk(b"data", 12, &[])));
    f.extend(chunk(b"desc", 32, &desc_body(b"ulaw", 1, 1)));
    f.extend(chunk(b"free", -68, &[]));
    assert!(check_caf_layout(&f));
    assert_eq!(walk_caf_chunks(&f), CafWalkEnd::Ends { packets_addressable: true });
    // The edit count is read from the description's header; the packets are
    // the eight bytes of its size.
    let out = decode_caf_to_pcm_inner(f).unwrap();
    assert_eq!(out.bytes, pcm(&[-32124, -32124, -32124, -32124, -32124, -32124, -32124, -7932]));
    assert_eq!(out.channels, 1);
}

fn packet_table(count: i64, entries: &[u8]) -> Vec<u8> {
    let mut t = count.to_be_bytes().to_vec();
    t.extend_from_slice(&count.to_be_bytes());
    t.extend_from_slice(&0i32.to_be_bytes());
    t.extend_from_slice(&0i32.to_be_bytes());
    t.extend_from_slice(entries);
    t
}

fn file_with_packet_table(format_id: &[u8; 4], count: i64, entries: &[u8], payload: &[u8]) -> Vec<u8> {
    let mut f = caf_header();
    f.extend(chunk(b"desc", 32, &desc_body(format_id, 0, 1)));
    let table = packet_table(count, entries);
    f.extend(chunk(b"pakt", table.len() as i64, &table));
    let mut data = 0u32.to_be_bytes().to_vec();
    data.extend_from_slice(payload);
    f.extend(chunk(b"data", data.len() as i64, &data));
    f
}

#[test]
fn packet_table_gives_packet_sizes() {
    let f = file_with_packet_table(b"ulaw", 2, &[1, 1], &[0x00, 0x80]);
    assert_eq!(walk_caf_chunks(&f), CafWalkEnd::Ends { packets_addressable: true });
    assert_eq!(decode_caf_to_pcm_inner(f).unwrap().bytes, pcm(&[-32124, 32124]));
    // Lengths of several bytes: 0x81 0x00 is 128.
    let payload = [0x80u8; 128];
    let f = file_with_packet_table(b"ulaw", 1, &[0x81, 0x00], &payload);
    assert_eq!(decode_caf_to_pcm_inner(f).unwrap().bytes, pcm(&[32124; 128]));
    // A length of 2^63 - 10 that would run past the data chunk ends the
    // packets without harm.
    let entries = [1, 0xff, 0xff, 0xff, 0xff, 0xff, 0xff, 0xff, 0xff, 0x76];
    let f = file_with_packet_table(b"ulaw", 2, &entries, &[0x00]);
    assert_eq!(walk_caf_chunks(&f), CafWalkEnd::Ends { packets_addressable: true });
    assert_eq!(decode_caf_to_pcm_inner(f).unwrap().bytes, pcm(&[-32124]));
}

#[test]
fn packet_table_length_out_of_reach() {
    // One packet of length 2^63: 0x81, eight times 0x80, then 0x00.
    let entries = [0x81, 0x80, 0x80, 0x80, 0x80, 0x80, 0x80, 0x80, 0x80, 0x00];
    let f = file_with_packet_table(b"ulaw", 1, &entries, &[0x00]);
    assert!(check_caf_layout(&f));
    assert_eq!(walk_caf_chunks(&f), CafWalkEnd::Ends { packets_addressable: false });
    assert_eq!(decode_caf_to_pcm_inner(f).err(), Some(CafDecodeError::ReaderFailed));
    // A format the decoder refuses is reported before any packet is read.
    let f = file_with_packet_table(b"aac ", 1, &entries, &[0x00]);
    assert_eq!(decode_caf_to_pcm_inner(f).err(), Some(CafDecodeError::UnsupportedFormat));
}

#[test]
fn packet_table_with_negative_count_is_refused() {
    let f = file_with_packet_table(b"ulaw", -1, &[1], &[0x00]);
    assert!(!check_caf_layout(&f));
    assert_eq!(walk_caf_chunks(&f), CafWalkEnd::Refused);
    assert_eq!(decode_caf_to_pcm_inner(f).err(), Some(CafDecodeError::ReaderFailed));
}

#[test]
fn short_packet_table_is_an_error() {
    let mut f = caf_header();
    f.extend(chunk(b"desc", 32, &desc_body(b"ulaw", 0, 1)));
    f.extend(chunk(b"pakt", 8, &1i64.to_be_bytes()));
    f.extend(chunk(b"data", 5, &[0, 0, 0, 0, 0]));
    assert_eq!(walk_caf_chunks(&f), CafWalkEnd::Ends { packets_addressable: true });
    assert_eq!(decode_caf_to_pcm_inner(f).err(), Some(CafDecodeError::ReaderFailed));
}

#[test]
fn layout_refuses_endless_search_for_data() {
    // After the description the reader looks ahead for the audio data chunk;
    // a size of -12 brings it back to the same header for ever.
    let mut f = caf_header();
    f.extend(chunk(b"desc", 32, &desc_body(b"ulaw", 1, 1)));
    f.extend(chunk(b"free", -12, &[]));
    assert_eq!(walk_caf_chunks(&f), CafWalkEnd::Refused);
    assert_eq!(decode_caf_to_pcm_inner(f).err(), Some(CafDecodeError::ReaderFailed));
    // An empty file is no CAF file.
    assert_eq!(decode_caf_to_pcm_inner(Vec::new()).err(), Some(CafDecodeError::ReaderFailed));
}
