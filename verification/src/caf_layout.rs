//! The chunk layout of a CAF file that the `caf` crate can open, and read
//! packets from, without panicking or looping.
//!
//! `caf::CafPacketReader::new` walks the chunk headers that follow the file
//! header in three phases. First it reads every `desc` and `pakt` chunk into
//! memory, skipping the others by seeking over their size (backwards for a
//! negative size), until the first audio description. Where that
//! description leaves the packet size or the frames per packet open and no
//! packet table has been read, it goes on, the same way, to the first packet
//! table. Then it adds up the sizes of the headers it has met from the first
//! audio data chunk on; if that sum is not 0 it seeks back by it, less one
//! header, else it seeks forward, chunk by chunk, to the next audio data
//! chunk.
//!
//! On the way it panics on a size of −1 for a chunk it skips or reads, on a
//! negative size for a chunk it reads, on a `desc` chunk shorter than 16
//! bytes, on a packet table announcing a negative number of packets, and on
//! an overflow of that sum; a walk that comes back to a header it has
//! already met in the same phase never ends. Where the description gives 0
//! bytes per packet, reading packets later takes each size from the packet
//! table, and panics where it goes on to read a length of 2^63 or more, or
//! where a length's addition to the reader's offset overflows. The walk below follows the headers the
//! same way, then the reader's packet reads through the packet table, and
//! tells those cases apart. Beyond them it refuses files that the crate would
//! refuse anyway, where the crate could first try to allocate more memory
//! than the file holds: a chunk read into memory that runs past the end of
//! the file, a packet table announcing more packets than it has bytes.

use vstd::prelude::*;

verus! {

/// The chunk type `desc` (audio description).
pub const CHUNK_DESC: u32 = 0x6465_7363;

/// The chunk type `data` (audio data).
pub const CHUNK_DATA: u32 = 0x6461_7461;

/// The chunk type `pakt` (packet table).
pub const CHUNK_PAKT: u32 = 0x7061_6b74;

/// The big-endian unsigned 32-bit number at `pos`.
pub open spec fn be_u32_at(file: Seq<u8>, pos: int) -> int {
    file[pos] * 0x100_0000 + file[pos + 1] * 0x1_0000 + file[pos + 2] * 0x100 + file[pos + 3]
}

/// The big-endian unsigned 64-bit number at `pos`.
pub open spec fn be_u64_at(file: Seq<u8>, pos: int) -> int {
    be_u32_at(file, pos) * 0x1_0000_0000 + be_u32_at(file, pos + 4)
}

/// The big-endian signed 64-bit number at `pos`.
pub open spec fn be_i64_at(file: Seq<u8>, pos: int) -> int {
    let u = be_u64_at(file, pos);
    if u >= 0x8000_0000_0000_0000 {
        u - 0x1_0000_0000_0000_0000
    } else {
        u
    }
}

/// Where the reader is in its walk over the chunk headers.
#[derive(Clone, Copy, Debug, PartialEq, Eq)]
pub enum WalkPhase {
    /// Reading packet tables and looking for the audio description.
    Description,
    /// Looking for the packet table that the description asks for.
    Table,
    /// Looking ahead for the audio data chunk.
    Data,
}

/// The phases in the order the walk goes through them, counting down.
pub open spec fn phase_rank(phase: WalkPhase) -> int {
    match phase {
        WalkPhase::Description => 2,
        WalkPhase::Table => 1,
        WalkPhase::Data => 0,
    }
}

/// What the walk carries from header to header.
#[derive(Clone, Copy, Debug, PartialEq, Eq)]
pub struct WalkState {
    pub phase: WalkPhase,
    /// The audio description gives 0 bytes per packet: packet sizes come from
    /// the packet table.
    pub zero_bpp: bool,
    /// A packet table has been read.
    pub pakt_seen: bool,
    /// Where the lengths of the last packet table read start and end, and
    /// how many it announces.
    pub table_at: usize,
    pub table_end: usize,
    pub table_count: usize,
    /// The size of the last audio data chunk met while reading into memory.
    pub data_len: i64,
    /// The reader's running sum of header and chunk sizes from the first
    /// audio data chunk on.
    pub seek_back: i64,
    /// That sum has overflowed.
    pub seek_back_overflow: bool,
}

/// How the reader's walk ends.
#[derive(Clone, Copy, Debug, PartialEq, Eq, Structural)]
pub enum CafWalkEnd {
    /// The reader panics or never returns.
    Refused,
    /// The reader returns, a reader or an error; where it returns a reader,
    /// reading its packets never panics exactly when `packets_addressable`
    /// holds.
    Ends { packets_addressable: bool },
}

/// How reading a packet table into memory ends.
#[derive(Clone, Copy, Debug, PartialEq, Eq)]
pub enum TableRead {
    /// The reader panics or may run out of memory.
    Refused,
    /// The reader reports an error.
    Fails,
    /// The table is read.
    Read,
}

/// The variable-length number at `pos`, before `end`, continuing the value
/// `acc`: each byte shifts the value (kept to 64 bits) left by seven bits and
/// adds its own low seven bits, and a byte below 0x80 ends the number. The
/// number's value and the position after it, or `None` where it runs into
/// `end`.
pub open spec fn vlq_from(file: Seq<u8>, pos: int, end: int, acc: int) -> Option<(int, int)>
    decreases end - pos,
{
    if pos < 0 || pos >= end {
        None
    } else {
        let v = (acc % 0x200_0000_0000_0000) * 128 + file[pos] % 128;
        if file[pos] < 128 {
            Some((v, pos + 1))
        } else {
            vlq_from(file, pos + 1, end, v)
        }
    }
}

/// Whether `count` variable-length numbers can be read from `pos` on before
/// `end`.
pub open spec fn lengths_parse(file: Seq<u8>, pos: int, end: int, count: nat) -> bool
    decreases count,
{
    count == 0 || match vlq_from(file, pos, end, 0) {
        None => false,
        Some((_, next)) => lengths_parse(file, next, end, (count - 1) as nat),
    }
}

/// Reading the `s` bytes at `body` as a packet table: its packet count, two
/// frame counts and the lengths, one variable-length number per packet.
pub open spec fn packet_table_read(file: Seq<u8>, body: int, s: int) -> TableRead {
    if s < 24 {
        TableRead::Fails
    } else {
        let count = be_i64_at(file, body);
        if count < 0 || count > s {
            TableRead::Refused
        } else if lengths_parse(file, body + 24, body + s, count as nat) {
            TableRead::Read
        } else {
            TableRead::Fails
        }
    }
}

/// Whether `next_packet` calls that take their sizes from the `count`
/// lengths at `pos` never panic. `read` bytes have been read already, `avail`
/// bytes of the file follow the data chunk's edit count, and `chunk` is the
/// data chunk's size. For each length in turn the reader adds it, as a signed
/// 64-bit number, to its offset `4 + read` and stops where that passes
/// `chunk` (unless `chunk` is −1, unspecified); the addition panics on
/// overflow, and a length of 2^63 or more makes the allocation panic. A read
/// running past the file's end stops it too.
pub open spec fn packets_safe(
    file: Seq<u8>,
    pos: int,
    end: int,
    count: nat,
    read: int,
    chunk: int,
    avail: int,
) -> bool
    decreases count,
{
    if count == 0 {
        true
    } else {
        match vlq_from(file, pos, end, 0) {
            None => true,
            Some((l, next)) => {
                let signed = if l < 0x8000_0000_0000_0000 {
                    l
                } else {
                    l - 0x1_0000_0000_0000_0000
                };
                let offs = 4 + read;
                if chunk != -1 && offs + signed > i64::MAX {
                    false
                } else if chunk != -1 && offs + signed > chunk {
                    true
                } else if l >= 0x8000_0000_0000_0000 {
                    false
                } else if read + l > avail {
                    true
                } else {
                    packets_safe(file, next, end, (count - 1) as nat, read + l, chunk, avail)
                }
            },
        }
    }
}

/// The reader notes the header of type `t` and chunk size `s`: the size of
/// an audio data chunk, and, from the first audio data chunk on and while the
/// running sum is positive, the header's length and the size added to it.
pub open spec fn count_header(st: WalkState, t: int, s: int) -> WalkState {
    let st0 = if t == CHUNK_DATA {
        WalkState { data_len: s as i64, ..st }
    } else {
        st
    };
    if st.seek_back_overflow || !(st.seek_back > 0 || t == CHUNK_DATA) {
        st0
    } else if st.seek_back + 12 > i64::MAX || st.seek_back + 12 + s < i64::MIN || st.seek_back
        + 12 + s > i64::MAX {
        WalkState { seek_back_overflow: true, ..st0 }
    } else {
        WalkState { seek_back: (st.seek_back + 12 + s) as i64, ..st0 }
    }
}

/// The walk ends with a reader whose audio data chunk has size `chunk`,
/// followed by `avail` bytes of the file.
pub open spec fn walk_ends(file: Seq<u8>, st: WalkState, chunk: int, avail: int) -> CafWalkEnd {
    CafWalkEnd::Ends {
        packets_addressable: !st.zero_bpp || packets_safe(
            file,
            st.table_at as int,
            st.table_end as int,
            st.table_count as nat,
            0,
            chunk,
            avail,
        ),
    }
}

/// The walk ends with an error.
pub open spec fn walk_fails() -> CafWalkEnd {
    CafWalkEnd::Ends { packets_addressable: true }
}

/// Once all it reads into memory is read, with the next header at `next`: a
/// running sum other than 0 is taken back by one header's length and sought
/// back over to the audio data (the end of the walk); a sum of 0 leaves the
/// search for the audio data chunk, `None`.
pub open spec fn end_of_reading(file: Seq<u8>, st: WalkState, next: int) -> Option<CafWalkEnd> {
    if st.seek_back_overflow {
        Some(CafWalkEnd::Refused)
    } else if st.seek_back != 0 {
        if st.seek_back - 12 <= i64::MIN {
            Some(CafWalkEnd::Refused)
        } else {
            let landing = next - (st.seek_back - 12);
            if landing < 0 || landing + 4 > file.len() {
                Some(walk_fails())
            } else {
                Some(walk_ends(file, st, st.data_len as int, file.len() - (landing + 4)))
            }
        }
    } else {
        None
    }
}

/// One step of the walk.
pub enum WalkNext {
    /// The walk ends here.
    Stop(CafWalkEnd),
    /// The walk goes on at the header at `pos`, in the state `st`; `fresh`
    /// where it has entered a later phase.
    Next { pos: int, st: WalkState, fresh: bool },
}

/// What the reader does with the chunk header at `pos`, which it can read,
/// in the state `st`.
pub open spec fn walk_next(file: Seq<u8>, pos: int, st: WalkState) -> WalkNext {
    let len = file.len() as int;
    let t = be_u32_at(file, pos);
    let s = be_i64_at(file, pos + 4);
    let body = pos + 12;
    let next = body + s;
    if st.phase is Data {
        if t == CHUNK_DATA {
            if body + 4 > len {
                WalkNext::Stop(walk_fails())
            } else {
                WalkNext::Stop(walk_ends(file, st, s, len - (body + 4)))
            }
        } else if s == -1 {
            WalkNext::Stop(CafWalkEnd::Refused)
        } else {
            WalkNext::Next { pos: next, st, fresh: false }
        }
    } else {
        let st1 = count_header(st, t, s);
        if t == CHUNK_DESC || t == CHUNK_PAKT {
            if s < 0 || s > len - body {
                WalkNext::Stop(CafWalkEnd::Refused)
            } else if t == CHUNK_DESC {
                if s < 16 {
                    WalkNext::Stop(CafWalkEnd::Refused)
                } else if s < 32 {
                    WalkNext::Stop(walk_fails())
                } else if st.phase is Description {
                    let bpp = be_u32_at(file, body + 16);
                    let fpp = be_u32_at(file, body + 20);
                    let st2 = WalkState { zero_bpp: bpp == 0, ..st1 };
                    if (bpp == 0 || fpp == 0) && !st2.pakt_seen {
                        WalkNext::Next {
                            pos: next,
                            st: WalkState { phase: WalkPhase::Table, ..st2 },
                            fresh: true,
                        }
                    } else {
                        match end_of_reading(file, st2, next) {
                            Some(r) => WalkNext::Stop(r),
                            None => WalkNext::Next {
                                pos: next,
                                st: WalkState { phase: WalkPhase::Data, ..st2 },
                                fresh: true,
                            },
                        }
                    }
                } else {
                    WalkNext::Next { pos: next, st: st1, fresh: false }
                }
            } else {
                match packet_table_read(file, body, s) {
                    TableRead::Refused => WalkNext::Stop(CafWalkEnd::Refused),
                    TableRead::Fails => WalkNext::Stop(walk_fails()),
                    TableRead::Read => {
                        let st2 = WalkState {
                            pakt_seen: true,
                            table_at: (body + 24) as usize,
                            table_end: next as usize,
                            table_count: be_i64_at(file, body) as usize,
                            ..st1
                        };
                        if st.phase is Table {
                            match end_of_reading(file, st2, next) {
                                Some(r) => WalkNext::Stop(r),
                                None => WalkNext::Next {
                                    pos: next,
                                    st: WalkState { phase: WalkPhase::Data, ..st2 },
                                    fresh: true,
                                },
                            }
                        } else {
                            WalkNext::Next { pos: next, st: st2, fresh: false }
                        }
                    },
                }
            }
        } else if s == -1 {
            WalkNext::Stop(CafWalkEnd::Refused)
        } else {
            WalkNext::Next { pos: next, st: st1, fresh: false }
        }
    }
}

/// The reader's walk from the chunk header at `pos`, in the state `st`.
/// `fuel` counts the headers left before the walk has met more headers in
/// this phase than the file has positions, and so has come back to one of
/// them: from there it goes round for ever. Each phase starts with a fuel of
/// one more than the file's length.
pub open spec fn walk_from(file: Seq<u8>, pos: int, st: WalkState, fuel: nat) -> CafWalkEnd
    decreases phase_rank(st.phase), fuel,
{
    if pos < 0 || pos + 12 > file.len() {
        // The header cannot be read: the reader reports an error.
        walk_fails()
    } else if fuel == 0 {
        CafWalkEnd::Refused
    } else {
        match walk_next(file, pos, st) {
            WalkNext::Stop(r) => r,
            WalkNext::Next { pos: next, st: st2, fresh } => if fresh {
                walk_from(file, next, st2, (file.len() + 1) as nat)
            } else {
                walk_from(file, next, st2, (fuel - 1) as nat)
            },
        }
    }
}

/// Whether the file starts with the CAF file header.
pub open spec fn has_caf_header(file: Seq<u8>) -> bool {
    file.len() >= 8 && file.subrange(0, 8) =~= seq![0x63u8, 0x61, 0x66, 0x66, 0x00, 0x01, 0x00, 0x00]
}

/// The state in which the reader meets the first chunk header.
pub open spec fn walk_start() -> WalkState {
    WalkState {
        phase: WalkPhase::Description,
        zero_bpp: false,
        pakt_seen: false,
        table_at: 0,
        table_end: 0,
        table_count: 0,
        data_len: 0,
        seek_back: 0,
        seek_back_overflow: false,
    }
}

/// How `caf::CafPacketReader::new` over the file ends: a file without the
/// CAF header is refused at once; otherwise the chunk walk decides.
pub open spec fn caf_walk(file: Seq<u8>) -> CafWalkEnd {
    if !has_caf_header(file) {
        walk_fails()
    } else {
        walk_from(file, 8, walk_start(), (file.len() + 1) as nat)
    }
}

/// Whether `caf::CafPacketReader::new` can open the file without panicking
/// or looping.
pub open spec fn caf_file_readable(file: Seq<u8>) -> bool {
    !(caf_walk(file) is Refused)
}

/// Whether, besides, every `next_packet` call on a reader opened over the
/// file returns without panicking.
pub open spec fn caf_packets_addressable(file: Seq<u8>) -> bool {
    caf_walk(file) == CafWalkEnd::Ends { packets_addressable: true }
}

/// The big-endian unsigned 32-bit number at `pos`.
fn read_be_u32(file: &Vec<u8>, pos: usize) -> (v: u32)
    requires
        pos + 4 <= file@.len(),
    ensures
        v == be_u32_at(file@, pos as int),
{
    let _len = file.len();
    (file[pos] as u32) * 0x100_0000 + (file[pos + 1] as u32) * 0x1_0000 + (file[pos + 2] as u32)
        * 0x100 + (file[pos + 3] as u32)
}

/// The big-endian unsigned 64-bit number at `pos`.
fn read_be_u64(file: &Vec<u8>, pos: usize) -> (v: u64)
    requires
        pos + 8 <= file@.len(),
    ensures
        v == be_u64_at(file@, pos as int),
{
    let _len = file.len();
    let hi = read_be_u32(file, pos) as u64;
    let lo = read_be_u32(file, pos + 4) as u64;
    hi * 0x1_0000_0000 + lo
}

/// The big-endian signed 64-bit number at `pos`.
fn read_be_i64(file: &Vec<u8>, pos: usize) -> (v: i128)
    requires
        pos + 8 <= file@.len(),
    ensures
        v == be_i64_at(file@, pos as int),
        i64::MIN <= v <= i64::MAX,
{
    let u = read_be_u64(file, pos);
    if u >= 0x8000_0000_0000_0000 {
        u as i128 - 0x1_0000_0000_0000_0000
    } else {
        u as i128
    }
}

/// Reads the variable-length number at `pos`, before `end`.
fn read_vlq(file: &Vec<u8>, pos: usize, end: usize) -> (r: Option<(u64, usize)>)
    requires
        end <= file@.len(),
    ensures
        r is None <==> vlq_from(file@, pos as int, end as int, 0) is None,
        r matches Some((v, next)) ==> vlq_from(file@, pos as int, end as int, 0) == Some(
            (v as int, next as int),
        ),
{
    let mut p = pos;
    let mut acc: u64 = 0;
    while p < end
        invariant
            end <= file@.len(),
            vlq_from(file@, pos as int, end as int, 0) == vlq_from(
                file@,
                p as int,
                end as int,
                acc as int,
            ),
        decreases end - p,
    {
        let b = file[p];
        let v = (acc % 0x200_0000_0000_0000) * 128 + (b % 128) as u64;
        if b < 128 {
            return Some((v, p + 1));
        }
        acc = v;
        p = p + 1;
    }
    None
}

/// Reads the `s` bytes at `body` as a packet table, as the reader does.
fn read_packet_table(file: &Vec<u8>, body: usize, s: usize) -> (r: TableRead)
    requires
        body + s <= file@.len(),
    ensures
        r == packet_table_read(file@, body as int, s as int),
{
    if s < 24 {
        return TableRead::Fails;
    }
    let count = read_be_i64(file, body);
    if count < 0 || count > s as i128 {
        return TableRead::Refused;
    }
    let _len = file.len();
    let end = body + s;
    let ghost whole = lengths_parse(file@, body + 24, end as int, count as nat);
    assert(packet_table_read(file@, body as int, s as int) == if whole {
        TableRead::Read
    } else {
        TableRead::Fails
    });
    let mut pos = body + 24;
    let mut left = count as usize;
    while left > 0
        invariant
            end <= file@.len(),
            packet_table_read(file@, body as int, s as int) == if whole {
                TableRead::Read
            } else {
                TableRead::Fails
            },
            whole == lengths_parse(file@, pos as int, end as int, left as nat),
        decreases left,
    {
        match read_vlq(file, pos, end) {
            None => {
                return TableRead::Fails;
            },
            Some((_, next)) => {
                pos = next;
                left = left - 1;
            },
        }
    }
    TableRead::Read
}

/// Whether the reader's `next_packet` calls never panic, as `packets_safe`
/// from nothing read.
fn check_packets_safe(file: &Vec<u8>, st: WalkState, chunk: i64, avail: usize) -> (ok: bool)
    requires
        st.table_end <= file@.len(),
    ensures
        ok == packets_safe(
            file@,
            st.table_at as int,
            st.table_end as int,
            st.table_count as nat,
            0,
            chunk as int,
            avail as int,
        ),
{
    let end = st.table_end;
    let mut pos = st.table_at;
    let mut left = st.table_count;
    let mut read: u128 = 0;
    while left > 0
        invariant
            end == st.table_end,
            end <= file@.len(),
            read <= avail,
            packets_safe(
                file@,
                st.table_at as int,
                end as int,
                st.table_count as nat,
                0,
                chunk as int,
                avail as int,
            ) == packets_safe(
                file@,
                pos as int,
                end as int,
                left as nat,
                read as int,
                chunk as int,
                avail as int,
            ),
        decreases left,
    {
        match read_vlq(file, pos, end) {
            None => {
                return true;
            },
            Some((l, next)) => {
                let signed: i128 = if l < 0x8000_0000_0000_0000 {
                    l as i128
                } else {
                    l as i128 - 0x1_0000_0000_0000_0000
                };
                let offs: i128 = 4 + read as i128;
                if chunk != -1 && offs + signed > i64::MAX as i128 {
                    return false;
                }
                if chunk != -1 && offs + signed > chunk as i128 {
                    return true;
                }
                if l >= 0x8000_0000_0000_0000 {
                    return false;
                }
                if read + l as u128 > avail as u128 {
                    return true;
                }
                read = read + l as u128;
                pos = next;
                left = left - 1;
            },
        }
    }
    true
}

/// The reader's note of a header, as `count_header`.
fn count_header_exec(st: WalkState, t: u32, s: i128) -> (r: WalkState)
    requires
        i64::MIN <= s <= i64::MAX,
    ensures
        r == count_header(st, t as int, s as int),
{
    let st0 = if t == CHUNK_DATA {
        WalkState { data_len: s as i64, ..st }
    } else {
        st
    };
    if st.seek_back_overflow || !(st.seek_back > 0 || t == CHUNK_DATA) {
        return st0;
    }
    let sum: i128 = st.seek_back as i128 + 12 + s;
    if st.seek_back as i128 + 12 > i64::MAX as i128 || sum < i64::MIN as i128 || sum
        > i64::MAX as i128 {
        WalkState { seek_back_overflow: true, ..st0 }
    } else {
        WalkState { seek_back: sum as i64, ..st0 }
    }
}

/// The end of reading into memory, as `end_of_reading`.
fn end_of_reading_exec(file: &Vec<u8>, st: WalkState, next: i128) -> (r: Option<CafWalkEnd>)
    requires
        st.table_end <= file@.len(),
        -0x4_0000_0000_0000_0000 <= next <= 0x4_0000_0000_0000_0000,
    ensures
        r == end_of_reading(file@, st, next as int),
{
    if st.seek_back_overflow {
        Some(CafWalkEnd::Refused)
    } else if st.seek_back != 0 {
        if st.seek_back as i128 - 12 <= i64::MIN as i128 {
            Some(CafWalkEnd::Refused)
        } else {
            let landing: i128 = next - (st.seek_back as i128 - 12);
            let len = file.len();
            if landing < 0 || landing + 4 > len as i128 {
                Some(CafWalkEnd::Ends { packets_addressable: true })
            } else {
                let avail = len - (landing as usize + 4);
                let safe = check_packets_safe(file, st, st.data_len, avail);
                Some(CafWalkEnd::Ends { packets_addressable: !st.zero_bpp || safe })
            }
        }
    } else {
        None
    }
}

/// Whether the file starts with the CAF file header.
fn starts_with_caf_header(file: &Vec<u8>) -> (b: bool)
    ensures
        b == has_caf_header(file@),
{
    let len = file.len();
    if len < 8 {
        return false;
    }
    if !(file[0] == 0x63 && file[1] == 0x61 && file[2] == 0x66 && file[3] == 0x66 && file[4] == 0x00
        && file[5] == 0x01 && file[6] == 0x00 && file[7] == 0x00) {
        proof {
            if has_caf_header(file@) {
                assert(file@.subrange(0, 8)[0] == file@[0]);
                assert(file@.subrange(0, 8)[1] == file@[1]);
                assert(file@.subrange(0, 8)[2] == file@[2]);
                assert(file@.subrange(0, 8)[3] == file@[3]);
                assert(file@.subrange(0, 8)[4] == file@[4]);
                assert(file@.subrange(0, 8)[5] == file@[5]);
                assert(file@.subrange(0, 8)[6] == file@[6]);
                assert(file@.subrange(0, 8)[7] == file@[7]);
            }
        }
        return false;
    }
    assert(file@.subrange(0, 8) =~= seq![0x63u8, 0x61, 0x66, 0x66, 0x00, 0x01, 0x00, 0x00]);
    true
}

/// One step of the walk, as the reader takes it.
enum Step {
    Stop(CafWalkEnd),
    Next(i128, WalkState, bool),
}

/// What the reader does with the chunk header at `pos`, as `walk_next`.
fn walk_step(file: &Vec<u8>, pos: i128, st: WalkState) -> (r: Step)
    requires
        0 <= pos,
        pos + 12 <= file@.len(),
        st.table_end <= file@.len(),
    ensures
        match r {
            Step::Stop(e) => walk_next(file@, pos as int, st) == WalkNext::Stop(e),
            Step::Next(next, st2, fresh) => {
                &&& walk_next(file@, pos as int, st) == (WalkNext::Next {
                    pos: next as int,
                    st: st2,
                    fresh,
                })
                &&& -0x4_0000_0000_0000_0000 <= next <= 0x4_0000_0000_0000_0000
                &&& st2.table_end <= file@.len()
                &&& fresh ==> phase_rank(st2.phase) < phase_rank(st.phase)
                &&& !fresh ==> st2.phase == st.phase
            },
        },
{
    let len = file.len();
    let at = pos as usize;
    let t = read_be_u32(file, at);
    let s = read_be_i64(file, at + 4);
    let body = at + 12;
    let next: i128 = body as i128 + s;
    if let WalkPhase::Data = st.phase {
        if t == CHUNK_DATA {
            if len - body < 4 {
                return Step::Stop(CafWalkEnd::Ends { packets_addressable: true });
            }
            let safe = check_packets_safe(file, st, s as i64, len - (body + 4));
            return Step::Stop(CafWalkEnd::Ends { packets_addressable: !st.zero_bpp || safe });
        }
        if s == -1 {
            return Step::Stop(CafWalkEnd::Refused);
        }
        return Step::Next(next, st, false);
    }
    let st1 = count_header_exec(st, t, s);
    if t == CHUNK_DESC || t == CHUNK_PAKT {
        if s < 0 || s > (len - body) as i128 {
            return Step::Stop(CafWalkEnd::Refused);
        }
        let size = s as usize;
        if t == CHUNK_DESC {
            if size < 16 {
                return Step::Stop(CafWalkEnd::Refused);
            }
            if size < 32 {
                return Step::Stop(CafWalkEnd::Ends { packets_addressable: true });
            }
            if let WalkPhase::Description = st.phase {
                let bpp = read_be_u32(file, body + 16);
                let fpp = read_be_u32(file, body + 20);
                let st2 = WalkState { zero_bpp: bpp == 0, ..st1 };
                if (bpp == 0 || fpp == 0) && !st2.pakt_seen {
                    return Step::Next(next, WalkState { phase: WalkPhase::Table, ..st2 }, true);
                }
                match end_of_reading_exec(file, st2, next) {
                    Some(r) => Step::Stop(r),
                    None => Step::Next(next, WalkState { phase: WalkPhase::Data, ..st2 }, true),
                }
            } else {
                Step::Next(next, st1, false)
            }
        } else {
            match read_packet_table(file, body, size) {
                TableRead::Refused => Step::Stop(CafWalkEnd::Refused),
                TableRead::Fails => Step::Stop(CafWalkEnd::Ends { packets_addressable: true }),
                TableRead::Read => {
                    let count = read_be_i64(file, body);
                    let st2 = WalkState {
                        pakt_seen: true,
                        table_at: body + 24,
                        table_end: body + size,
                        table_count: count as usize,
                        ..st1
                    };
                    if let WalkPhase::Table = st.phase {
                        match end_of_reading_exec(file, st2, next) {
                            Some(r) => Step::Stop(r),
                            None => Step::Next(
                                next,
                                WalkState { phase: WalkPhase::Data, ..st2 },
                                true,
                            ),
                        }
                    } else {
                        Step::Next(next, st2, false)
                    }
                },
            }
        }
    } else {
        if s == -1 {
            return Step::Stop(CafWalkEnd::Refused);
        }
        Step::Next(next, st1, false)
    }
}

/// Walks the chunk headers as `caf::CafPacketReader::new` does, and tells
/// how that ends.
pub fn walk_caf_chunks(file: &Vec<u8>) -> (r: CafWalkEnd)
    ensures
        r == caf_walk(file@),
{
    if !starts_with_caf_header(file) {
        return CafWalkEnd::Ends { packets_addressable: true };
    }
    let len = file.len();
    let fresh: u128 = len as u128 + 1;
    let mut pos: i128 = 8;
    let mut st = WalkState {
        phase: WalkPhase::Description,
        zero_bpp: false,
        pakt_seen: false,
        table_at: 0,
        table_end: 0,
        table_count: 0,
        data_len: 0,
        seek_back: 0,
        seek_back_overflow: false,
    };
    let mut fuel: u128 = fresh;
    loop
        invariant
            len == file@.len(),
            fresh == len + 1,
            -0x4_0000_0000_0000_0000 <= pos <= 0x4_0000_0000_0000_0000,
            st.table_end <= len,
            caf_walk(file@) == walk_from(file@, pos as int, st, fuel as nat),
        decreases phase_rank(st.phase), fuel,
    {
        if pos < 0 || pos + 12 > len as i128 {
            return CafWalkEnd::Ends { packets_addressable: true };
        }
        if fuel == 0 {
            return CafWalkEnd::Refused;
        }
        match walk_step(file, pos, st) {
            Step::Stop(e) => {
                return e;
            },
            Step::Next(next, st2, is_fresh) => {
                pos = next;
                st = st2;
                fuel = if is_fresh {
                    fresh
                } else {
                    fuel - 1
                };
            },
        }
    }
}

/// Whether `caf::CafPacketReader::new` can open the file without panicking
/// or looping.
pub fn check_caf_layout(file: &Vec<u8>) -> (ok: bool)
    ensures
        ok == caf_file_readable(file@),
{
    match walk_caf_chunks(file) {
        CafWalkEnd::Refused => false,
        CafWalkEnd::Ends { .. } => true,
    }
}

} // verus!
