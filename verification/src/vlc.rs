//! Exp-Golomb code words: unsigned, signed, mapped (coded block pattern)
//! and truncated.
use vstd::prelude::*;
use vstd::arithmetic::logarithm::{lemma_log0, lemma_log_s, log};
use vstd::arithmetic::power2::*;
use crate::defs::{END_OF_STREAM, HANTRO_NOK, HANTRO_OK};
use crate::stream::{
    h264bsdFlushBits, h264bsdGetBits, h264bsdShowBits32, lemma_leading_zeros_stream,
    lemma_pow2_strictly_increases_le, lemma_stream_bits_bound, stream_bit, stream_bits, stream_zeros,
    strmData_t,
};
use crate::util::h264bsdCountLeadingZeros;

verus! {

/// Code number 2^32 - 1 (and the marker of the out-of-range code 2^32).
pub const BIG_CODE_NUM: u32 = 0xFFFF_FFFF;

/// Leading zero bits of the Exp-Golomb code word at bit `p` of the stream
/// made of the first `size` bytes of `d` (at most 32 looked at).
pub closed spec fn ue_zeros_at(d: Seq<u8>, size: nat, p: int) -> nat {
    stream_zeros(d, size, p, 32)
}

/// Is the 33rd bit of the code word at `p` a one bit inside the stream
/// (looked at when the first 32 bits are zero)?
pub closed spec fn ue_long_marker_at(d: Seq<u8>, size: nat, p: int) -> bool {
    p + 33 <= 8 * size && stream_bits(d, size, p + 32, 1) == 1
}

/// Is the unsigned Exp-Golomb code word at bit `p` complete and in range?
pub closed spec fn ue_ok_at(d: Seq<u8>, size: nat, p: int) -> bool {
    let z = ue_zeros_at(d, size, p);
    if z < 32 {
        p + 2 * z + 1 <= 8 * size
    } else {
        ue_long_marker_at(d, size, p) && p + 65 <= 8 * size && stream_bits(d, size, p + 33, 32) == 0
    }
}

/// The code number decoded at `p`: 2^z - 1 plus the z bits after the
/// z leading zeros and the one bit (meaningful when `ue_writes_at` holds).
pub closed spec fn ue_value_at(d: Seq<u8>, size: nat, p: int) -> u32 {
    let z = ue_zeros_at(d, size, p);
    if z < 32 {
        (pow2(z) - 1 + stream_bits(d, size, p + z + 1, z)) as u32
    } else if ue_long_marker_at(d, size, p) && p + 65 <= 8 * size && (stream_bits(d, size, p + 33, 32)
        == 0 || stream_bits(d, size, p + 33, 32) == 1) {
        BIG_CODE_NUM
    } else {
        0
    }
}

/// Is the code number output written by the decode at `p`?
pub closed spec fn ue_writes_at(d: Seq<u8>, size: nat, p: int) -> bool {
    ue_zeros_at(d, size, p) < 32 ==> ue_ok_at(d, size, p)
}

/// Read position after the decode at `p`.
pub closed spec fn ue_next_at(d: Seq<u8>, size: nat, p: int) -> int {
    let z = ue_zeros_at(d, size, p);
    if z < 32 {
        p + 2 * z + 1
    } else if ue_long_marker_at(d, size, p) {
        p + 65
    } else {
        p + 33
    }
}

pub open spec fn ue_zeros(s: &strmData_t, p: int) -> nat {
    ue_zeros_at(s.strmBuff@, s.strmBuffSize as nat, p)
}

pub open spec fn ue_ok(s: &strmData_t, p: int) -> bool {
    ue_ok_at(s.strmBuff@, s.strmBuffSize as nat, p)
}

pub open spec fn ue_value(s: &strmData_t, p: int) -> u32 {
    ue_value_at(s.strmBuff@, s.strmBuffSize as nat, p)
}

pub open spec fn ue_writes(s: &strmData_t, p: int) -> bool {
    ue_writes_at(s.strmBuff@, s.strmBuffSize as nat, p)
}

pub open spec fn ue_next(s: &strmData_t, p: int) -> int {
    ue_next_at(s.strmBuff@, s.strmBuffSize as nat, p)
}

/// A stream on which an Exp-Golomb code word can be read without the bit
/// counter overflowing.
pub open spec fn can_read_vlc(s: &strmData_t) -> bool {
    s.wf() && s.strmBuffReadBits + 65 <= u32::MAX
}

proof fn lemma_one_bit_in_stream(s: &strmData_t, p: int)
    requires
        stream_bit(s.data(), s.size(), p) == 1,
    ensures
        p < s.len_bits(),
{
}

/// The zero run ends on a one bit inside the stream.
proof fn lemma_zero_run_ends(s: &strmData_t, p: int, max: nat)
    requires
        stream_zeros(s.data(), s.size(), p, max) < max,
    ensures
        stream_bit(s.data(), s.size(), p + stream_zeros(s.data(), s.size(), p, max)) == 1,
        p + stream_zeros(s.data(), s.size(), p, max) < s.len_bits(),
    decreases max,
{
    if stream_bit(s.data(), s.size(), p) == 1 {
    } else {
        lemma_zero_run_ends(s, p + 1, (max - 1) as nat);
        assert(p + 1 + stream_zeros(s.data(), s.size(), p + 1, (max - 1) as nat) == p
            + stream_zeros(s.data(), s.size(), p, max));
    }
}

/// The read position advances by at most 65 bits, and stays inside the
/// stream when the code word decoded.
pub proof fn lemma_ue_next(s: &strmData_t, p: int)
    ensures
        p < ue_next(s, p) <= p + 65,
        ue_ok(s, p) ==> ue_next(s, p) <= s.len_bits(),
        se_ok(s, p) ==> ue_next(s, p) <= s.len_bits(),
        ue_zeros(s, p) <= 32,
        ue_ok(s, p) ==> ue_writes(s, p),
{
    lemma_stream_zeros_le(s, p, 32);
    let z = ue_zeros(s, p);
    if z < 32 {
        lemma_pow2_strictly_increases_le(z, 31);
        lemma_stream_bits_bound(s.data(), s.size(), p + z + 1, z);
        lemma2_to64();
    }
}

proof fn lemma_stream_zeros_le(s: &strmData_t, p: int, max: nat)
    ensures
        stream_zeros(s.data(), s.size(), p, max) <= max,
    decreases max,
{
    if max > 0 {
        lemma_stream_zeros_le(s, p + 1, (max - 1) as nat);
    }
}

/// Decode an unsigned Exp-Golomb code word into `codeNum`.
pub fn h264bsdDecodeExpGolombUnsigned(pStrmData: &mut strmData_t, codeNum: &mut u32) -> (r: u32)
    requires
        can_read_vlc(old(pStrmData)),
    ensures
        final(pStrmData).wf(),
        final(pStrmData).same_stream(old(pStrmData)),
        final(pStrmData).pos() == ue_next(old(pStrmData), old(pStrmData).pos()),
        r == (if ue_ok(old(pStrmData), old(pStrmData).pos()) { HANTRO_OK } else { HANTRO_NOK }),
        *final(codeNum) == (if ue_writes(old(pStrmData), old(pStrmData).pos()) {
            ue_value(old(pStrmData), old(pStrmData).pos())
        } else {
            *old(codeNum)
        }),
{
    let ghost s0 = *old(pStrmData);
    let ghost p = s0.pos();
    let mut bits = h264bsdShowBits32(pStrmData);
    let numZeros = h264bsdCountLeadingZeros(bits, 32);
    proof {
        lemma_leading_zeros_stream(s0.data(), s0.size(), p, 32);
        lemma_stream_bits_bound(s0.data(), s0.size(), p, 32);
        lemma2_to64();
        assert(numZeros as nat == ue_zeros(&s0, p));
    }
    if numZeros < 32 {
        proof {
            lemma_zero_run_ends(&s0, p, 32);
        }
        h264bsdFlushBits(pStrmData, numZeros + 1);
        let info = h264bsdGetBits(pStrmData, numZeros);
        proof {
            lemma_pow2_strictly_increases_le(numZeros as nat, 31);
            lemma_stream_bits_bound(s0.data(), s0.size(), p + numZeros + 1, numZeros as nat);
        }
        if info == END_OF_STREAM {
            return HANTRO_NOK;
        }
        proof {
            vstd::bits::lemma_u32_shl_is_mul(1u32, numZeros);
            lemma_pow2_pos(numZeros as nat);
        }
        *codeNum = (1u32 << numZeros) - 1 + info;
        HANTRO_OK
    } else {
        /* all 32 bits are zero */
        *codeNum = 0;
        h264bsdFlushBits(pStrmData, 32);
        bits = h264bsdGetBits(pStrmData, 1);
        /* check 33rd bit, must be 1 */
        if bits == 1 {
            proof {
                lemma_stream_bits_bound(s0.data(), s0.size(), p + 32, 1);
                lemma2_to64();
            }
            /* cannot use h264bsdGetBits, limited to 31 bits */
            bits = h264bsdShowBits32(pStrmData);
            if h264bsdFlushBits(pStrmData, 32) == END_OF_STREAM {
                return HANTRO_NOK;
            }
            /* code num 2^32 - 1, needed for unsigned mapping */
            if bits == 0 {
                *codeNum = BIG_CODE_NUM;
                return HANTRO_OK;
            }
            /* code num 2^32, needed for unsigned mapping (results in -2^31) */
             else if bits == 1 {
                *codeNum = BIG_CODE_NUM;
                return HANTRO_NOK;
            }
        }
        /* if more zeros than 32, it is an error */
        HANTRO_NOK
    }
}

/// The unsigned Exp-Golomb code word at bit `p`: z leading zeros (at most
/// 32 looked at), a one bit, and z more bits; the code number is
/// 2^z - 1 plus those bits and the read position moves past 2z + 1 bits.
/// A code of 32 leading zeros decodes as 2^32 - 1 when the 33rd bit is
/// one and the next 32 bits are 0 or 1.
pub proof fn lemma_ue_code_at(d: Seq<u8>, size: nat, p: int)
    ensures
        ue_zeros_at(d, size, p) == stream_zeros(d, size, p, 32),
        ue_long_marker_at(d, size, p) == (p + 33 <= 8 * size && stream_bits(d, size, p + 32, 1) == 1),
        ue_ok_at(d, size, p) == if ue_zeros_at(d, size, p) < 32 {
            p + 2 * ue_zeros_at(d, size, p) + 1 <= 8 * size
        } else {
            ue_long_marker_at(d, size, p) && p + 65 <= 8 * size && stream_bits(d, size, p + 33, 32) == 0
        },
        ue_value_at(d, size, p) == if ue_zeros_at(d, size, p) < 32 {
            (pow2(ue_zeros_at(d, size, p)) - 1 + stream_bits(d, size, p + ue_zeros_at(d, size, p) + 1, ue_zeros_at(d, size, p))) as u32
        } else if ue_long_marker_at(d, size, p) && p + 65 <= 8 * size && (stream_bits(d, size, p + 33, 32) == 0
            || stream_bits(d, size, p + 33, 32) == 1) {
            BIG_CODE_NUM
        } else {
            0
        },
        ue_writes_at(d, size, p) == (ue_zeros_at(d, size, p) < 32 ==> ue_ok_at(d, size, p)),
        ue_next_at(d, size, p) == if ue_zeros_at(d, size, p) < 32 {
            p + 2 * ue_zeros_at(d, size, p) + 1
        } else if ue_long_marker_at(d, size, p) {
            p + 65
        } else {
            p + 33
        },
{
}

/// Exp-Golomb round trip: where the stream at `p` holds the code of `k`
/// (z = floor(log2(k + 1)) zero bits, a one bit, then k + 1 - 2^z in z
/// bits, all inside the stream), the code word decodes to `k` and ends
/// 2z + 1 bits on.
pub proof fn lemma_ue_round_trip(d: Seq<u8>, size: nat, p: int, k: u32, z: nat)
    requires
        k <= 0xFFFF_FFFE,
        pow2(z) <= k + 1 < pow2(z + 1),
        stream_zeros(d, size, p, 32) == z,
        stream_bits(d, size, p + z + 1, z) == k + 1 - pow2(z),
        p + 2 * z + 1 <= 8 * size,
    ensures
        ue_ok_at(d, size, p),
        ue_writes_at(d, size, p),
        ue_value_at(d, size, p) == k,
        ue_next_at(d, size, p) == p + 2 * z + 1,
{
    lemma2_to64();
    if z >= 32 {
        lemma_pow2_strictly_increases_le(32, z);
        assert(false);
    }
    lemma_ue_code_at(d, size, p);
}

/// The integer base-2 logarithm of `n >= 1` is the `z` with
/// 2^z <= n < 2^(z+1).
pub proof fn lemma_log2_bounds(n: int)
    requires
        n >= 1,
    ensures
        log(2, n) >= 0,
        pow2(log(2, n) as nat) <= n < pow2((log(2, n) + 1) as nat),
    decreases n,
{
    if n < 2 {
        lemma_log0(2, n);
        lemma2_to64();
    } else {
        lemma_log_s(2, n);
        lemma_log2_bounds(n / 2);
        let l = log(2, n / 2);
        lemma_pow2_unfold((l + 1) as nat);
        lemma_pow2_unfold((l + 2) as nat);
        assert(2 * (n / 2) <= n <= 2 * (n / 2) + 1);
    }
}

/// The code word of `k` with `z = floor(log2(k + 1))`: `z` zero bits, a
/// one bit and the `z` low bits of `k + 1`, decodes to `k` and ends
/// `2z + 1` bits on.
pub proof fn lemma_ue_round_trip_log(d: Seq<u8>, size: nat, p: int, k: u32)
    requires
        k <= 0xFFFF_FFFE,
        stream_zeros(d, size, p, 32) == log(2, k + 1),
        stream_bits(d, size, p + log(2, k + 1) + 1, log(2, k + 1) as nat) == k + 1 - pow2(log(2, k + 1) as nat),
        p + 2 * log(2, k + 1) + 1 <= 8 * size,
    ensures
        ue_ok_at(d, size, p),
        ue_writes_at(d, size, p),
        ue_value_at(d, size, p) == k,
        ue_next_at(d, size, p) == p + 2 * log(2, k + 1) + 1,
{
    lemma_log2_bounds(k + 1);
    lemma_ue_round_trip(d, size, p, k, log(2, k + 1) as nat);
}

/// The signed Exp-Golomb code word at `p` is the unsigned one mapped to
/// 0, 1, -1, 2, -2, ...; the code number 2^32 gives -2^31.
pub proof fn lemma_se_code_at(d: Seq<u8>, size: nat, p: int)
    ensures
        se_code_at(d, size, p) == if ue_writes_at(d, size, p) { ue_value_at(d, size, p) } else { 0 },
        se_ok_at(d, size, p) == if se_code_at(d, size, p) == BIG_CODE_NUM {
            !ue_ok_at(d, size, p)
        } else {
            ue_ok_at(d, size, p)
        },
        se_value_at(d, size, p) == if se_code_at(d, size, p) == BIG_CODE_NUM {
            i32::MIN
        } else {
            se_map(se_code_at(d, size, p)) as i32
        },
{
}

/// Code number seen by the signed decode at `p` (0 when the unsigned decode
/// left it untouched).
pub closed spec fn se_code_at(d: Seq<u8>, size: nat, p: int) -> u32 {
    if ue_writes_at(d, size, p) {
        ue_value_at(d, size, p)
    } else {
        0
    }
}

/// Is the signed Exp-Golomb code word at `p` valid?
pub closed spec fn se_ok_at(d: Seq<u8>, size: nat, p: int) -> bool {
    if se_code_at(d, size, p) == BIG_CODE_NUM {
        !ue_ok_at(d, size, p)
    } else {
        ue_ok_at(d, size, p)
    }
}

/// Signed value of code number `k`: 0, 1, -1, 2, -2, ... for k = 0, 1, 2, 3, 4, ...
pub open spec fn se_map(k: u32) -> int {
    if k % 2 == 1 {
        (k as int + 1) / 2
    } else {
        -((k as int + 1) / 2)
    }
}

/// The signed value decoded at `p` (written only when `se_ok_at` holds);
/// the code number 2^32 gives -2^31.
pub closed spec fn se_value_at(d: Seq<u8>, size: nat, p: int) -> i32 {
    if se_code_at(d, size, p) == BIG_CODE_NUM {
        i32::MIN
    } else {
        se_map(se_code_at(d, size, p)) as i32
    }
}

pub open spec fn se_ok(s: &strmData_t, p: int) -> bool {
    se_ok_at(s.strmBuff@, s.strmBuffSize as nat, p)
}

pub open spec fn se_value(s: &strmData_t, p: int) -> i32 {
    se_value_at(s.strmBuff@, s.strmBuffSize as nat, p)
}

/// Decode a signed Exp-Golomb code word into `value`.
pub fn h264bsdDecodeExpGolombSigned(pStrmData: &mut strmData_t, value: &mut i32) -> (r: u32)
    requires
        can_read_vlc(old(pStrmData)),
    ensures
        final(pStrmData).wf(),
        final(pStrmData).same_stream(old(pStrmData)),
        final(pStrmData).pos() == ue_next(old(pStrmData), old(pStrmData).pos()),
        r == (if se_ok(old(pStrmData), old(pStrmData).pos()) { HANTRO_OK } else { HANTRO_NOK }),
        *final(value) == (if se_ok(old(pStrmData), old(pStrmData).pos()) {
            se_value(old(pStrmData), old(pStrmData).pos())
        } else {
            *old(value)
        }),
{
    let mut codeNum: u32 = 0;
    let status = h264bsdDecodeExpGolombUnsigned(pStrmData, &mut codeNum);
    if codeNum == BIG_CODE_NUM {
        /* BIG_CODE_NUM with OK status would be 2^31, out of i32 range */
        if status == HANTRO_OK {
            return HANTRO_NOK;
        } else {
            /* codeNum 2^32 results in -2^31 */
            *value = i32::MIN;
            return HANTRO_OK;
        }
    } else if status == HANTRO_OK {
        let half = (codeNum + 1) / 2;
        *value = if codeNum % 2 != 0 {
            half as i32
        } else {
            -(half as i32)
        };
        return HANTRO_OK;
    }
    HANTRO_NOK
}

/// Coded block pattern of an intra macroblock for each code number.
pub const codedBlockPatternIntra4x4: [u8; 48] = [
    47, 31, 15, 0, 23, 27, 29, 30, 7, 11, 13, 14, 39, 43, 45, 46, 16, 3, 5, 10, 12, 19, 21, 26, 28,
    35, 37, 42, 44, 1, 2, 4, 8, 17, 18, 20, 24, 6, 9, 22, 25, 32, 33, 34, 36, 40, 38, 41,
];

/// Coded block pattern of an inter macroblock for each code number.
pub const codedBlockPatternInter: [u8; 48] = [
    0, 16, 1, 2, 4, 8, 32, 3, 5, 10, 12, 15, 47, 7, 11, 13, 14, 6, 9, 31, 35, 37, 42, 44, 33, 34,
    36, 40, 39, 43, 45, 46, 17, 18, 20, 24, 19, 21, 26, 28, 23, 27, 29, 30, 22, 25, 38, 41,
];

/// Coded block pattern of code number `k` (below 48).
pub open spec fn cbp_of(k: u32, isIntra: u32) -> u32 {
    if isIntra != 0 {
        codedBlockPatternIntra4x4@[k as int] as u32
    } else {
        codedBlockPatternInter@[k as int] as u32
    }
}

/// Decode a mapped Exp-Golomb code word (the coded block pattern).
pub fn h264bsdDecodeExpGolombMapped(pStrmData: &mut strmData_t, value: &mut u32, isIntra: u32) -> (r: u32)
    requires
        can_read_vlc(old(pStrmData)),
    ensures
        final(pStrmData).wf(),
        final(pStrmData).same_stream(old(pStrmData)),
        final(pStrmData).pos() == ue_next(old(pStrmData), old(pStrmData).pos()),
        ({
            let s = old(pStrmData);
            let p = s.pos();
            let ok = ue_ok(s, p) && ue_value(s, p) <= 47;
            &&& r == (if ok { HANTRO_OK } else { HANTRO_NOK })
            &&& *final(value) == (if ok { cbp_of(ue_value(s, p), isIntra) } else { *old(value) })
        }),
{
    let mut codeNum: u32 = 0;
    let status = h264bsdDecodeExpGolombUnsigned(pStrmData, &mut codeNum);
    if status != HANTRO_OK {
        HANTRO_NOK
    } else {
        /* range of valid codeNums [0,47] */
        if codeNum > 47 {
            return HANTRO_NOK;
        }
        if isIntra != 0 {
            *value = codedBlockPatternIntra4x4[codeNum as usize] as u32;
        } else {
            *value = codedBlockPatternInter[codeNum as usize] as u32;
        }
        HANTRO_OK
    }
}

/// Decode a truncated Exp-Golomb code word: an unsigned code word when the
/// range is greater than one, else a single inverted bit.
pub fn h264bsdDecodeExpGolombTruncated(
    pStrmData: &mut strmData_t,
    value: &mut u32,
    greaterThanOne: u32,
) -> (r: u32)
    requires
        can_read_vlc(old(pStrmData)),
    ensures
        final(pStrmData).wf(),
        final(pStrmData).same_stream(old(pStrmData)),
        ({
            let s = old(pStrmData);
            let p = s.pos();
            if greaterThanOne != 0 {
                &&& final(pStrmData).pos() == ue_next(s, p)
                &&& r == (if ue_ok(s, p) { HANTRO_OK } else { HANTRO_NOK })
                &&& *final(value) == (if ue_writes(s, p) { ue_value(s, p) } else { *old(value) })
            } else {
                &&& final(pStrmData).pos() == p + 1
                &&& r == (if p + 1 <= s.len_bits() { HANTRO_OK } else { HANTRO_NOK })
                &&& *final(value) == (if p + 1 <= s.len_bits() {
                    1 - s.bits_at(p, 1)
                } else {
                    END_OF_STREAM as int
                })
            }
        }),
{
    if greaterThanOne != 0 {
        h264bsdDecodeExpGolombUnsigned(pStrmData, value)
    } else {
        let ghost s0 = *old(pStrmData);
        proof {
            lemma_stream_bits_bound(s0.data(), s0.size(), s0.pos(), 1);
            lemma2_to64();
        }
        *value = h264bsdGetBits(pStrmData, 1);
        if *value == END_OF_STREAM {
            return HANTRO_NOK;
        }
        let v = *value;
        assert(v <= 1 ==> v ^ 1u32 == 1 - v) by (bit_vector);
        *value = v ^ 0x1;
        HANTRO_OK
    }
}

} // verus!
