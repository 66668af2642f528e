//! ITU-T G.711 µ-law and A-law expansion to 16-bit signed linear PCM.

use vstd::prelude::*;
use vstd::arithmetic::power2::{pow2, lemma2_to64, lemma_pow2_unfold, lemma_pow2_strictly_increases, lemma_pow2_pos};

verus! {

/// The bias that µ-law encoding adds before quantisation (0x84).
pub const ULAW_BIAS: i32 = 132;

/// The linear value of one µ-law byte.
///
/// The byte is stored complemented; after complementing it reads
/// `S EEE QQQQ`. The magnitude is `((QQQQ << 3) + 0x84) << EEE`, from which the
/// bias is taken away again; `S` set means negative.
pub open spec fn ulaw_value(byte: u8) -> int {
    let u = 255 - byte;
    let segment = (u / 16) % 8;
    let quantization = u % 16;
    let magnitude = (quantization * 8 + 132) * pow2(segment as nat);
    if u >= 128 {
        132 - magnitude
    } else {
        magnitude - 132
    }
}

/// The linear value of one A-law byte.
///
/// The even bits are stored inverted (XOR 0x55); after restoring, the byte
/// reads `S EEE QQQQ`. Segment 0 gives `(QQQQ << 4) + 8`, segment `e > 0` gives
/// `((QQQQ << 4) + 0x108) << (e - 1)`; `S` clear means negative.
pub open spec fn alaw_value(byte: u8) -> int {
    let a = byte ^ 0x55u8;
    let segment = (a / 16) % 8;
    let quantization = a % 16;
    let magnitude = if segment == 0 {
        quantization * 16 + 8
    } else {
        (quantization * 16 + 0x108) * pow2((segment - 1) as nat)
    };
    if a >= 128 {
        magnitude
    } else {
        -magnitude
    }
}

/// `t << s` is `t * 2^s` for the small magnitudes and segments G.711 uses.
proof fn lemma_shl_small(t: i32, s: u32)
    requires
        0 <= t <= 1024,
        0 <= s <= 7,
    ensures
        t << s == t * pow2(s as nat),
{
    lemma2_to64();
    if s == 0 {
        assert(t << s == t) by (bit_vector) requires s == 0u32;
    } else if s == 1 {
        assert(t << s == t * 2) by (bit_vector) requires s == 1u32, 0 <= t <= 1024;
    } else if s == 2 {
        assert(t << s == t * 4) by (bit_vector) requires s == 2u32, 0 <= t <= 1024;
    } else if s == 3 {
        assert(t << s == t * 8) by (bit_vector) requires s == 3u32, 0 <= t <= 1024;
    } else if s == 4 {
        assert(t << s == t * 16) by (bit_vector) requires s == 4u32, 0 <= t <= 1024;
    } else if s == 5 {
        assert(t << s == t * 32) by (bit_vector) requires s == 5u32, 0 <= t <= 1024;
    } else if s == 6 {
        assert(t << s == t * 64) by (bit_vector) requires s == 6u32, 0 <= t <= 1024;
    } else {
        assert(t << s == t * 128) by (bit_vector) requires s == 7u32, 0 <= t <= 1024;
    }
}

/// Splits a byte into its sign bit, 3-bit segment and 4-bit quantisation.
proof fn lemma_byte_fields(b: u8)
    ensures
        (b & 0x70) >> 4 == (b / 16) % 8,
        b & 0x0F == b % 16,
        ((b & 0x80) != 0) == (b >= 128),
        !b == 255 - b,
{
    assert((b & 0x70) >> 4 == (b / 16) % 8) by (bit_vector);
    assert(b & 0x0F == b % 16) by (bit_vector);
    assert(((b & 0x80) != 0) == (b >= 128)) by (bit_vector);
    assert(!b == 255 - b) by (bit_vector);
}

/// Decodes a single 8-bit µ-law (G.711) sample to 16-bit signed linear PCM.
///
/// The output lies within ±32124.
pub fn ulaw_to_linear(u_val: u8) -> (r: i16)
    ensures
        r == ulaw_value(u_val),
{
    proof {
        lemma_byte_fields(u_val);
        lemma_byte_fields(!u_val);
        lemma2_to64();
    }
    let u_val = !u_val;
    let segment = ((u_val & 0x70) >> 4) as u32;
    let quantization = (u_val & 0x0F) as i32;
    let mut t = quantization * 8 + ULAW_BIAS;
    proof {
        lemma_shl_small(t, segment);
    }
    t = t << segment;
    assert(t <= 252 * 128) by (nonlinear_arith)
        requires
            t == (quantization * 8 + 132) * pow2(segment as nat),
            0 <= quantization <= 15,
            pow2(segment as nat) <= 128,
    {}
    if (u_val & 0x80) != 0 {
        (ULAW_BIAS - t) as i16
    } else {
        (t - ULAW_BIAS) as i16
    }
}

/// Decodes a single 8-bit A-law (G.711) sample to 16-bit signed linear PCM.
///
/// The output lies within ±32256.
pub fn alaw_to_linear(a_val: u8) -> (r: i16)
    ensures
        r == alaw_value(a_val),
{
    let a_val = a_val ^ 0x55;
    proof {
        lemma_byte_fields(a_val);
        lemma2_to64();
    }
    let segment = ((a_val & 0x70) >> 4) as u32;
    let quantization = (a_val & 0x0F) as i32;
    let t = if segment == 0 {
        quantization * 16 + 8
    } else {
        let base = quantization * 16 + 0x108;
        proof {
            lemma_shl_small(base, (segment - 1) as u32);
        }
        base << (segment - 1)
    };
    assert(0 <= t <= 504 * 64) by (nonlinear_arith)
        requires
            segment == 0 ==> t == quantization * 16 + 8,
            segment != 0 ==> t == (quantization * 16 + 0x108) * pow2((segment - 1) as nat),
            0 <= quantization <= 15,
            segment != 0 ==> 1 <= pow2((segment - 1) as nat) <= 64,
    {}
    if (a_val & 0x80) != 0 {
        t as i16
    } else {
        -(t as i16)
    }
}

/// The powers of two that segments 0 to 7 scale by.
proof fn lemma_segment_scale(segment: int)
    requires
        0 <= segment < 8,
    ensures
        1 <= pow2(segment as nat) <= 128,
        segment >= 1 ==> 1 <= pow2((segment - 1) as nat) <= 64,
{
    lemma2_to64();
    if segment >= 1 {
        assert(pow2((segment - 1) as nat) <= 64);
    }
}

/// µ-law is sign-symmetric: flipping the sign bit negates the decoded value.
pub proof fn lemma_ulaw_sign_symmetric(byte: u8)
    ensures
        ulaw_value(byte ^ 0x80u8) == -ulaw_value(byte),
{
    assert((255 - (byte ^ 0x80u8)) == ((255 - byte) as u8 ^ 0x80u8)) by (bit_vector);
    let u = (255 - byte) as u8;
    assert((u ^ 0x80u8) / 16 % 8 == u / 16 % 8) by (bit_vector);
    assert((u ^ 0x80u8) % 16 == u % 16) by (bit_vector);
    assert(((u ^ 0x80u8) >= 128) == !(u >= 128)) by (bit_vector);
}

/// A-law is sign-symmetric: flipping the sign bit negates the decoded value.
pub proof fn lemma_alaw_sign_symmetric(byte: u8)
    ensures
        alaw_value(byte ^ 0x80u8) == -alaw_value(byte),
{
    let a = byte ^ 0x55u8;
    assert((byte ^ 0x80u8) ^ 0x55u8 == (byte ^ 0x55u8) ^ 0x80u8) by (bit_vector);
    assert((a ^ 0x80u8) / 16 % 8 == a / 16 % 8) by (bit_vector);
    assert((a ^ 0x80u8) % 16 == a % 16) by (bit_vector);
    assert(((a ^ 0x80u8) >= 128) == !(a >= 128)) by (bit_vector);
}

/// Every µ-law byte decodes into ±32124, and both ends are reached.
pub proof fn lemma_ulaw_range(byte: u8)
    ensures
        -32124 <= ulaw_value(byte) <= 32124,
        ulaw_value(0x80) == 32124,
        ulaw_value(0x00) == -32124,
{
    let u = 255 - byte;
    let segment = (u / 16) % 8;
    let q = u % 16;
    lemma_segment_scale(segment as int);
    assert(132 <= (q * 8 + 132) * pow2(segment as nat) <= 252 * 128) by (nonlinear_arith)
        requires
            0 <= q <= 15,
            1 <= pow2(segment as nat) <= 128,
    {}
    lemma2_to64();
}

/// Every A-law byte decodes into ±32256, and both ends are reached.
pub proof fn lemma_alaw_range(byte: u8)
    ensures
        -32256 <= alaw_value(byte) <= 32256,
        alaw_value(0xAA) == 32256,
        alaw_value(0x2A) == -32256,
{
    let a = byte ^ 0x55u8;
    let segment = (a / 16) % 8;
    let q = a % 16;
    lemma_segment_scale(segment as int);
    if segment >= 1 {
        assert(0 <= (q * 16 + 0x108) * pow2((segment - 1) as nat) <= 504 * 64) by (nonlinear_arith)
            requires
                0 <= q <= 15,
                1 <= pow2((segment - 1) as nat) <= 64,
        {}
    }
    assert(0xAAu8 ^ 0x55u8 == 0xFFu8) by (bit_vector);
    assert(0x2Au8 ^ 0x55u8 == 0x7Fu8) by (bit_vector);
    lemma2_to64();
}

/// Silence: the µ-law bytes 0xFF and 0x7F both decode to 0.
pub proof fn lemma_ulaw_zero()
    ensures
        ulaw_value(0xFF) == 0,
        ulaw_value(0x7F) == 0,
{
    lemma2_to64();
    let m: int = (0int * 8 + 132) * pow2(0nat);
    assert(m == 132);
    assert(ulaw_value(0xFF) == m - 132);
    assert(ulaw_value(0x7F) == 132 - m);
}

/// Twice a smaller power of two is at most a larger one.
proof fn lemma_pow2_double_le(a: nat, b: nat)
    requires
        a < b,
    ensures
        2 * pow2(a) <= pow2(b),
{
    lemma_pow2_unfold(b);
    if a < b - 1 {
        lemma_pow2_strictly_increases(a, (b - 1) as nat);
    }
}

/// The µ-law magnitude of the 7 bits `EEE QQQQ` read as a number `x`
/// (before the bias is taken away).
#[verifier::opaque]
pub open spec fn ulaw_magnitude(x: int) -> int {
    ((x % 16) * 8 + 132) * pow2((x / 16) as nat)
}

/// The A-law magnitude of the 7 bits `EEE QQQQ` read as a number `x`.
#[verifier::opaque]
pub open spec fn alaw_magnitude(x: int) -> int {
    if x / 16 == 0 {
        (x % 16) * 16 + 8
    } else {
        ((x % 16) * 16 + 0x108) * pow2((x / 16 - 1) as nat)
    }
}

/// The µ-law magnitude grows strictly with the 7 bits.
proof fn lemma_ulaw_magnitude_increasing(x: int, y: int)
    requires
        0 <= x < y < 128,
    ensures
        132 <= ulaw_magnitude(x) < ulaw_magnitude(y),
{
    reveal(ulaw_magnitude);
    let (sx, sy) = ((x / 16) as nat, (y / 16) as nat);
    let (qx, qy) = (x % 16, y % 16);
    let (px, py) = (pow2(sx), pow2(sy));
    lemma_pow2_pos(sx);
    lemma_pow2_pos(sy);
    assert(132 <= (qx * 8 + 132) * px) by (nonlinear_arith)
        requires
            0 <= qx,
            px >= 1,
    {}
    if sx == sy {
        assert((qx * 8 + 132) * px < (qy * 8 + 132) * py) by (nonlinear_arith)
            requires
                0 <= qx < qy,
                px == py,
                px >= 1,
        {}
    } else {
        lemma_pow2_double_le(sx, sy);
        assert((qx * 8 + 132) * px < (qy * 8 + 132) * py) by (nonlinear_arith)
            requires
                0 <= qx <= 15,
                0 <= qy,
                2 * px <= py,
                px >= 1,
        {}
    }
}

/// The A-law magnitude grows strictly with the 7 bits.
proof fn lemma_alaw_magnitude_increasing(x: int, y: int)
    requires
        0 <= x < y < 128,
    ensures
        8 <= alaw_magnitude(x) < alaw_magnitude(y),
{
    reveal(alaw_magnitude);
    let (sx, sy) = (x / 16, y / 16);
    let (qx, qy) = (x % 16, y % 16);
    if sx >= 1 {
        lemma_pow2_pos((sx - 1) as nat);
        assert(8 <= (qx * 16 + 0x108) * pow2((sx - 1) as nat)) by (nonlinear_arith)
            requires
                0 <= qx,
                pow2((sx - 1) as nat) >= 1,
        {}
    }
    if sy >= 1 {
        lemma_pow2_pos((sy - 1) as nat);
    }
    if sx == sy {
        if sx >= 1 {
            let p = pow2((sx - 1) as nat);
            assert((qx * 16 + 0x108) * p < (qy * 16 + 0x108) * p) by (nonlinear_arith)
                requires
                    0 <= qx < qy,
                    p >= 1,
            {}
        }
    } else if sx == 0 {
        let p = pow2((sy - 1) as nat);
        assert(qx * 16 + 8 < (qy * 16 + 0x108) * p) by (nonlinear_arith)
            requires
                0 <= qx <= 15,
                0 <= qy,
                p >= 1,
        {}
    } else {
        let px = pow2((sx - 1) as nat);
        let py = pow2((sy - 1) as nat);
        lemma_pow2_double_le((sx - 1) as nat, (sy - 1) as nat);
        assert((qx * 16 + 0x108) * px < (qy * 16 + 0x108) * py) by (nonlinear_arith)
            requires
                0 <= qx <= 15,
                0 <= qy,
                2 * px <= py,
                px >= 1,
        {}
    }
}

/// µ-law in terms of its magnitude: the complemented byte's sign bit picks
/// the sign.
#[verifier::rlimit(40)]
proof fn lemma_ulaw_split(b: u8)
    ensures
        ({
            let u = 255 - b;
            ulaw_value(b) == if u >= 128 {
                132 - ulaw_magnitude(u % 128)
            } else {
                ulaw_magnitude(u % 128) - 132
            }
        }),
{
    reveal(ulaw_magnitude);
    let u = 255 - b;
    let uu = (255 - b) as u8;
    assert((uu / 16) % 8 == (uu % 128) / 16 && uu % 16 == (uu % 128) % 16) by (bit_vector);
    assert(u == uu);
    let x: int = u % 128;
    assert(x / 16 == (u / 16) % 8 && x % 16 == u % 16);
}

/// A-law in terms of its magnitude: the restored byte's sign bit set means
/// positive.
#[verifier::rlimit(40)]
proof fn lemma_alaw_split(b: u8)
    ensures
        ({
            let a = b ^ 0x55u8;
            alaw_value(b) == if a >= 128 {
                alaw_magnitude((a % 128) as int)
            } else {
                -alaw_magnitude((a % 128) as int)
            }
        }),
{
    reveal(alaw_magnitude);
    let a = b ^ 0x55u8;
    assert((a / 16) % 8 == (a % 128) / 16 && a % 16 == (a % 128) % 16) by (bit_vector);
    let x: int = (a % 128) as int;
    let seg: int = ((a / 16) % 8) as int;
    let q: int = (a % 16) as int;
    assert(x / 16 == seg && x % 16 == q);
}

/// µ-law bytes from 0x80 up decode to values ≥ 0 that fall as the byte
/// grows; bytes up to 0x7F decode to values ≤ 0 that rise as the byte grows.
#[verifier::spinoff_prover]
#[verifier::rlimit(40)]
pub proof fn lemma_ulaw_monotonic(a: u8, b: u8)
    ensures
        a >= 0x80 ==> ulaw_value(a) >= 0,
        a < 0x80 ==> ulaw_value(a) <= 0,
        0x80 <= a < b ==> ulaw_value(a) > ulaw_value(b),
        a < b <= 0x7F ==> ulaw_value(a) < ulaw_value(b),
{
    lemma_ulaw_split(a);
    lemma_ulaw_split(b);
    let ua: int = (255 - a) % 128;
    let ub: int = (255 - b) % 128;
    let ma = ulaw_magnitude(ua);
    let mb = ulaw_magnitude(ub);
    if ua < ub {
        lemma_ulaw_magnitude_increasing(ua, ub);
    } else if ub < ua {
        lemma_ulaw_magnitude_increasing(ub, ua);
    }
    if ua < 127 {
        lemma_ulaw_magnitude_increasing(ua, 127);
    } else {
        lemma_ulaw_magnitude_increasing(0, 127);
    }
    assert(ma >= 132);
    assert(a >= 0x80 ==> ulaw_value(a) == ma - 132);
    assert(a < 0x80 ==> ulaw_value(a) == 132 - ma);
    assert(b >= 0x80 ==> ulaw_value(b) == mb - 132);
    assert(b < 0x80 ==> ulaw_value(b) == 132 - mb);
    assert(0x80 <= a < b ==> ua > ub);
    assert(a < b <= 0x7F ==> ua > ub);
}

/// The smallest µ-law magnitude.
proof fn lemma_ulaw_magnitude_zero()
    ensures
        ulaw_magnitude(0) == 132,
{
    reveal(ulaw_magnitude);
    lemma2_to64();
}

/// Two different µ-law bytes decode to the same value only when they are
/// the two codes of zero, 0x7F and 0xFF.
#[verifier::rlimit(40)]
pub proof fn lemma_ulaw_injective_but_zero(a: u8, b: u8)
    requires
        a != b,
    ensures
        ulaw_value(a) == ulaw_value(b) <==> (a == 0x7F && b == 0xFF) || (a == 0xFF && b == 0x7F),
{
    lemma_ulaw_split(a);
    lemma_ulaw_split(b);
    lemma_ulaw_magnitude_zero();
    let ua: int = (255 - a) % 128;
    let ub: int = (255 - b) % 128;
    let ma = ulaw_magnitude(ua);
    let mb = ulaw_magnitude(ub);
    if ua < ub {
        lemma_ulaw_magnitude_increasing(ua, ub);
    } else if ub < ua {
        lemma_ulaw_magnitude_increasing(ub, ua);
    }
    if 0 < ua {
        lemma_ulaw_magnitude_increasing(0, ua);
    }
    if 0 < ub {
        lemma_ulaw_magnitude_increasing(0, ub);
    }
    assert(ua == 0 ==> ma == 132);
    assert(ub == 0 ==> mb == 132);
    assert(ua > 0 ==> ma > 132);
    assert(ub > 0 ==> mb > 132);
}

/// An A-law byte decodes to a positive value exactly when its restored
/// sign bit is set; among bytes of one sign, the magnitude grows strictly
/// with the restored 7 low bits.
#[verifier::rlimit(40)]
pub proof fn lemma_alaw_monotonic(a: u8, b: u8)
    ensures
        alaw_value(a) > 0 <==> (a ^ 0x55u8) >= 128,
        alaw_value(a) != 0,
        ((a ^ 0x55u8) >= 128) == ((b ^ 0x55u8) >= 128) && (a ^ 0x55u8) % 128 < (b ^ 0x55u8) % 128
            ==> (if alaw_value(a) >= 0 { alaw_value(a) } else { -alaw_value(a) }) < (if alaw_value(b)
            >= 0 {
            alaw_value(b)
        } else {
            -alaw_value(b)
        }),
{
    lemma_alaw_split(a);
    lemma_alaw_split(b);
    let (xa, xb) = ((a ^ 0x55u8) % 128, (b ^ 0x55u8) % 128);
    if xa < xb {
        lemma_alaw_magnitude_increasing(xa as int, xb as int);
    } else if xb < xa {
        lemma_alaw_magnitude_increasing(xb as int, xa as int);
    }
    if xa < 127 {
        lemma_alaw_magnitude_increasing(xa as int, 127);
    } else {
        lemma_alaw_magnitude_increasing(0, 127);
    }
}

/// A-law decoding is injective: different bytes decode to different values.
#[verifier::spinoff_prover]
#[verifier::rlimit(40)]
pub proof fn lemma_alaw_injective(a: u8, b: u8)
    requires
        a != b,
    ensures
        alaw_value(a) != alaw_value(b),
{
    lemma_alaw_split(a);
    lemma_alaw_split(b);
    let ra = a ^ 0x55u8;
    let rb = b ^ 0x55u8;
    assert(ra != rb) by (bit_vector)
        requires
            a != b,
            ra == a ^ 0x55u8,
            rb == b ^ 0x55u8,
    ;
    let xa: int = (ra % 128) as int;
    let xb: int = (rb % 128) as int;
    let ma = alaw_magnitude(xa);
    let mb = alaw_magnitude(xb);
    if xa < xb {
        lemma_alaw_magnitude_increasing(xa, xb);
    } else if xb < xa {
        lemma_alaw_magnitude_increasing(xb, xa);
    }
    if xa < 127 {
        lemma_alaw_magnitude_increasing(xa, 127);
    } else {
        lemma_alaw_magnitude_increasing(0, 127);
    }
    if xb < 127 {
        lemma_alaw_magnitude_increasing(xb, 127);
    } else {
        lemma_alaw_magnitude_increasing(0, 127);
    }
    assert(ma >= 8 && mb >= 8);
    assert(alaw_value(a) == if ra >= 128 { ma } else { -ma });
    assert(alaw_value(b) == if rb >= 128 { mb } else { -mb });
    assert((ra >= 128) == (rb >= 128) ==> xa != xb);
}

} // verus!
