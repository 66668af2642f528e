//! Apple IMA 4:1 ADPCM: one 34-byte packet of one channel decodes to 64
//! 16-bit samples.
//!
//! A packet starts with a big-endian 16-bit preamble whose upper 9 bits are
//! the initial predictor and whose lower 7 bits are the initial step index;
//! the 32 bytes that follow hold 64 4-bit codes, low nibble first.

use vstd::prelude::*;
use crate::pcm::i16_of;

verus! {

/// The IMA ADPCM step sizes, indexed by the step index.
pub open spec fn ima_step_table() -> Seq<int> {
    seq![
        7, 8, 9, 10, 11, 12, 13, 14, 16, 17, 19, 21, 23, 25, 28, 31, 34, 37, 41, 45,
        50, 55, 60, 66, 73, 80, 88, 97, 107, 118, 130, 143, 157, 173, 190, 209, 230, 253, 279, 307,
        337, 371, 408, 449, 494, 544, 598, 658, 724, 796, 876, 963, 1060, 1166, 1282, 1411, 1552,
        1707, 1878, 2066, 2272, 2499, 2749, 3024, 3327, 3660, 4026, 4428, 4871, 5358, 5894, 6484,
        7132, 7845, 8630, 9493, 10442, 11487, 12635, 13899, 15289, 16818, 18500, 20350, 22385,
        24623, 27086, 29794, 32767,
    ]
}

/// The step-index adjustment for each 4-bit code.
pub open spec fn ima_index_table() -> Seq<int> {
    seq![-1, -1, -1, -1, 2, 4, 6, 8, -1, -1, -1, -1, 2, 4, 6, 8]
}

/// `x` limited to `[lo, hi]`.
pub open spec fn clamp(x: int, lo: int, hi: int) -> int {
    if x < lo {
        lo
    } else if x > hi {
        hi
    } else {
        x
    }
}

/// The decoder's state: the predicted sample and the step index.
pub struct ImaState {
    pub predictor: int,
    pub step_index: int,
}

/// The state given by a packet's preamble: the predictor is the preamble
/// with its 7 low bits cleared, read as a signed 16-bit number; the step
/// index is those 7 bits, limited to the table.
pub open spec fn ima4_initial_state(packet: Seq<u8>) -> ImaState {
    ImaState {
        predictor: i16_of(packet[0], (packet[1] - packet[1] % 128) as u8),
        step_index: clamp((packet[1] % 128) as int, 0, 88),
    }
}

/// The `i`-th 4-bit code of a packet (low nibble of each byte first).
pub open spec fn ima4_code(packet: Seq<u8>, i: int) -> int {
    let b = packet[2 + i / 2];
    if i % 2 == 0 {
        (b % 16) as int
    } else {
        (b / 16) as int
    }
}

/// The difference that a code adds to (code < 8) or takes from (code >= 8)
/// the predictor: `step/8 + step·b2 + step/2·b1 + step/4·b0` over the code's
/// three low bits.
pub open spec fn ima_difference(step: int, code: int) -> int {
    step / 8 + (if (code / 4) % 2 == 1 {
        step
    } else {
        0
    }) + (if (code / 2) % 2 == 1 {
        step / 2
    } else {
        0
    }) + (if code % 2 == 1 {
        step / 4
    } else {
        0
    })
}

/// One decoding step.
pub open spec fn ima_next(s: ImaState, code: int) -> ImaState {
    let step = ima_step_table()[s.step_index];
    let diff = ima_difference(step, code);
    let predicted = if code >= 8 {
        s.predictor - diff
    } else {
        s.predictor + diff
    };
    ImaState {
        predictor: clamp(predicted, -32768, 32767),
        step_index: clamp(s.step_index + ima_index_table()[code], 0, 88),
    }
}

/// The state after the first `n` codes of a packet.
pub open spec fn ima4_state(packet: Seq<u8>, n: nat) -> ImaState
    decreases n,
{
    if n == 0 {
        ima4_initial_state(packet)
    } else {
        ima_next(ima4_state(packet, (n - 1) as nat), ima4_code(packet, n - 1))
    }
}

/// The 64 samples of a packet: the predictor after each code.
pub open spec fn ima4_samples(packet: Seq<u8>) -> Seq<i16> {
    Seq::new(64, |i: int| ima4_state(packet, (i + 1) as nat).predictor as i16)
}

/// Every step keeps the predictor within the 16-bit sample range and the
/// step index within the step table.
pub proof fn lemma_state_bounds(packet: Seq<u8>, n: nat)
    requires
        packet.len() == 34,
    ensures
        -32768 <= ima4_state(packet, n).predictor <= 32767,
        0 <= ima4_state(packet, n).step_index <= 88,
    decreases n,
{
    if n > 0 {
        lemma_state_bounds(packet, (n - 1) as nat);
    }
}

/// How each code moves the decoder: with the step size at the current step
/// index, the predictor moves by `step/8`, plus `step` for code bit 2, `step/2`
/// for bit 1 and `step/4` for bit 0, upward for codes below 8 and downward
/// otherwise, kept within 16 bits; the step index moves by the standard IMA
/// amount, kept within the step table: down by 1 where the code's low three
/// bits are 0 to 3, up by 2, 4, 6 or 8 where they are 4, 5, 6 or 7. Sample
/// `i` is the predictor after code `i`.
pub proof fn lemma_ima_code_moves_state(packet: Seq<u8>, i: nat)
    requires
        packet.len() == 34,
        i < 64,
    ensures
        ({
            let c = ima4_code(packet, i as int);
            let before = ima4_state(packet, i);
            let after = ima4_state(packet, i + 1);
            let step = ima_step_table()[before.step_index];
            let low = c % 8;
            let diff = step / 8 + (if low >= 4 {
                step
            } else {
                0
            }) + (if low % 4 >= 2 {
                step / 2
            } else {
                0
            }) + (if low % 2 == 1 {
                step / 4
            } else {
                0
            });
            let moved = if c < 8 {
                before.predictor + diff
            } else {
                before.predictor - diff
            };
            let index = before.step_index + (if low < 4 {
                -1
            } else {
                2 * low - 6
            });
            &&& 0 <= c < 16
            &&& after.predictor == (if moved < -32768 {
                -32768
            } else if moved > 32767 {
                32767
            } else {
                moved
            })
            &&& after.step_index == (if index < 0 {
                0
            } else if index > 88 {
                88
            } else {
                index
            })
            &&& ima4_samples(packet)[i as int] == after.predictor
        }),
{
    lemma_state_bounds(packet, i);
    lemma_state_bounds(packet, i + 1);
    let c = ima4_code(packet, i as int);
    assert(0 <= c < 16);
    assert(ima4_state(packet, i + 1) == ima_next(ima4_state(packet, i), c));
}

/// A packet's preamble and codes: before the first code the predictor is the
/// big-endian 16-bit preamble with its 7 low bits cleared, read as a signed
/// number, and the step index is those 7 bits, at most 88; code `2 k` is the
/// low nibble of byte `2 + k` and code `2 k + 1` its high nibble.
pub proof fn lemma_ima4_preamble_and_codes(packet: Seq<u8>, k: int)
    requires
        packet.len() == 34,
        0 <= k < 32,
    ensures
        ima4_state(packet, 0).predictor == i16_of(packet[0], packet[1]) - packet[1] % 128,
        ima4_state(packet, 0).step_index == if packet[1] % 128 > 88 {
            88
        } else {
            packet[1] % 128
        },
        ima4_code(packet, 2 * k) == packet[2 + k] % 16,
        ima4_code(packet, 2 * k + 1) == packet[2 + k] / 16,
{
    assert((2 * k) / 2 == k && (2 * k) % 2 == 0);
    assert((2 * k + 1) / 2 == k && (2 * k + 1) % 2 == 1);
}

fn ima_step(index: usize) -> (s: i32)
    requires
        index <= 88,
    ensures
        s == ima_step_table()[index as int],
        7 <= s <= 32767,
{
    let table: [i32; 89] = [
        7, 8, 9, 10, 11, 12, 13, 14, 16, 17, 19, 21, 23, 25, 28, 31, 34, 37, 41, 45,
        50, 55, 60, 66, 73, 80, 88, 97, 107, 118, 130, 143, 157, 173, 190, 209, 230, 253, 279, 307,
        337, 371, 408, 449, 494, 544, 598, 658, 724, 796, 876, 963, 1060, 1166, 1282, 1411, 1552,
        1707, 1878, 2066, 2272, 2499, 2749, 3024, 3327, 3660, 4026, 4428, 4871, 5358, 5894, 6484,
        7132, 7845, 8630, 9493, 10442, 11487, 12635, 13899, 15289, 16818, 18500, 20350, 22385,
        24623, 27086, 29794, 32767,
    ];
    assert(table@.map_values(|v: i32| v as int) =~= ima_step_table());
    assert(table@.map_values(|v: i32| v as int)[index as int] == table@[index as int] as int);
    table[index]
}

fn ima_index_adjust(code: u8) -> (d: i32)
    requires
        code < 16,
    ensures
        d == ima_index_table()[code as int],
{
    if code % 8 < 4 {
        -1
    } else {
        ((code % 8) as i32 - 3) * 2
    }
}

/// One decoding step on machine integers.
fn ima_advance(predictor: i32, step_index: i32, code: u8) -> (next: (i32, i32))
    requires
        -32768 <= predictor <= 32767,
        0 <= step_index <= 88,
        code < 16,
    ensures
        next.0 == ima_next(ImaState { predictor: predictor as int, step_index: step_index as int }, code as int).predictor,
        next.1 == ima_next(ImaState { predictor: predictor as int, step_index: step_index as int }, code as int).step_index,
{
    let step = ima_step(step_index as usize);
    let mut diff = step / 8;
    if (code / 4) % 2 == 1 {
        diff = diff + step;
    }
    if (code / 2) % 2 == 1 {
        diff = diff + step / 2;
    }
    if code % 2 == 1 {
        diff = diff + step / 4;
    }
    let predicted = if code >= 8 {
        predictor - diff
    } else {
        predictor + diff
    };
    let new_predictor = if predicted < -32768 {
        -32768
    } else if predicted > 32767 {
        32767
    } else {
        predicted
    };
    let adjusted = step_index + ima_index_adjust(code);
    let new_index = if adjusted < 0 {
        0
    } else if adjusted > 88 {
        88
    } else {
        adjusted
    };
    (new_predictor, new_index)
}

/// Decodes the 34-byte IMA4 packet of one channel that starts at `start`
/// in `data` into its 64 samples.
pub fn decode_ima4(data: &[u8], start: usize) -> (samples: Vec<i16>)
    requires
        start + 34 <= data@.len(),
    ensures
        samples@ == ima4_samples(data@.subrange(start as int, start + 34)),
{
    let ghost packet = data@.subrange(start as int, start + 34);
    let _len = data.len();
    let hi = data[start];
    let lo = data[start + 1];
    let mut predictor: i32 = crate::lpcm::i16_pair(hi, lo - lo % 128) as i32;
    let mut step_index: i32 = (lo % 128) as i32;
    if step_index > 88 {
        step_index = 88;
    }
    let mut samples: Vec<i16> = Vec::new();
    let mut i: usize = 0;
    while i < 64
        invariant
            packet == data@.subrange(start as int, start + 34),
            start + 34 <= data@.len(),
            data@.len() <= usize::MAX,
            0 <= i <= 64,
            predictor == ima4_state(packet, i as nat).predictor,
            step_index == ima4_state(packet, i as nat).step_index,
            samples@ =~= ima4_samples(packet).take(i as int),
        decreases 64 - i,
    {
        proof {
            lemma_state_bounds(packet, i as nat);
        }
        let byte = data[start + 2 + i / 2];
        let code: u8 = if i % 2 == 0 {
            byte % 16
        } else {
            byte / 16
        };
        assert(packet[2 + i / 2] == data@[start + 2 + i / 2]);
        let next = ima_advance(predictor, step_index, code);
        predictor = next.0;
        step_index = next.1;
        samples.push(predictor as i16);
        i = i + 1;
    }
    assert(ima4_samples(packet).take(64) =~= ima4_samples(packet));
    samples
}

} // verus!
