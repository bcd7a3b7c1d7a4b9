//! Small helpers: guarded division, leading zeros, RBSP trailing bits,
//! macroblock address iteration and residual markers.
use vstd::prelude::*;
use vstd::arithmetic::power2::*;
use crate::defs::{EMPTY_RESIDUAL_INDICATOR, HANTRO_FALSE, HANTRO_NOK, HANTRO_OK, HANTRO_TRUE, END_OF_STREAM};
use crate::stream::{
    get_bits_value, h264bsdGetBits, lemma_pow2_strictly_increases_le, h264bsdShowBits32, leading_zeros, lemma_stream_bits_bound,
    lemma_stream_bits_split, strmData_t,
};

verus! {

/// Division with a zero-divisor guard: a divisor of zero yields zero.
pub fn udiv(a: u32, b: u32) -> (r: u32)
    ensures
        r == (if b == 0 { 0 } else { a / b }),
{
    if b == 0 {
        0
    } else {
        a / b
    }
}

/// Remainder with a zero-divisor guard: a divisor of zero yields zero.
pub fn urem(a: u32, b: u32) -> (r: u32)
    ensures
        r == (if b == 0 { 0 } else { a % b }),
{
    if b == 0 {
        0
    } else {
        a % b
    }
}

/// Bit `k` of `v`, as a shift and a mask, is the `k`-th binary digit.
pub proof fn lemma_bit_of(v: u32, k: u32)
    requires
        k < 32,
    ensures
        ((v >> k) & 1u32) as nat == (v as nat / pow2(k as nat)) % 2,
{
    vstd::bits::lemma_u32_shr_is_div(v, k);
    let w = v >> k;
    assert(w & 1u32 == w % 2) by (bit_vector);
}

/// Count leading zeros in the right-aligned code word `value` of `length`
/// bits.
pub fn h264bsdCountLeadingZeros(value: u32, length: u32) -> (zeros: u32)
    requires
        1 <= length <= 32,
    ensures
        zeros as nat == leading_zeros(value, length as nat),
        zeros <= length,
{
    let mut zeros: u32 = 0;
    while zeros < length && ((value >> (length - 1 - zeros)) & 1) == 0
        invariant
            1 <= length <= 32,
            zeros <= length,
            leading_zeros(value, length as nat) == zeros + leading_zeros(
                value,
                (length - zeros) as nat,
            ),
        decreases length - zeros,
    {
        proof {
            let k = (length - 1 - zeros) as u32;
            lemma_bit_of(value, k);
            assert(((length - zeros) - 1) as nat == k as nat);
        }
        zeros = zeros + 1;
    }
    proof {
        if zeros < length {
            let k = (length - 1 - zeros) as u32;
            lemma_bit_of(value, k);
            let p = pow2(k as nat);
            assert(((value as nat / p) % 2) < 2);
            assert(((length - zeros) - 1) as nat == k as nat);
        }
    }
    zeros
}

/// Trailing bits of an RBSP are well formed at `pos`: a one bit followed
/// by zero bits up to the byte boundary, all inside the stream.
pub open spec fn trailing_bits_ok(s: &strmData_t) -> bool {
    let len = (8 - s.bitPosInWord) as nat;
    &&& s.pos() + len <= s.len_bits()
    &&& s.bits_at(s.pos(), len) == pow2((len - 1) as nat)
}

/// Check the RBSP trailing bits (a '1' bit and then '0' bits up to the
/// byte boundary) and consume them.
pub fn h264bsdRbspTrailingBits(pStrmData: &mut strmData_t) -> (r: u32)
    requires
        old(pStrmData).wf(),
        old(pStrmData).strmBuffReadBits + 8 <= u32::MAX,
    ensures
        final(pStrmData).wf(),
        final(pStrmData).same_stream(old(pStrmData)),
        final(pStrmData).strmBuffReadBits == old(pStrmData).strmBuffReadBits + 8 - old(
            pStrmData,
        ).bitPosInWord,
        r == (if trailing_bits_ok(old(pStrmData)) { HANTRO_OK } else { HANTRO_NOK }),
{
    let ghost s0 = *old(pStrmData);
    let stuffingLength = 8 - pStrmData.bitPosInWord;
    proof {
        lemma2_to64();
        lemma_pow2_strictly_increases_le(stuffingLength as nat, 8);
    }
    let stuffing = h264bsdGetBits(pStrmData, stuffingLength);
    if stuffing == END_OF_STREAM {
        return HANTRO_NOK;
    }
    proof {
        vstd::bits::lemma_u32_shl_is_mul(1u32, (stuffingLength - 1) as u32);
        assert(s0.pos() + stuffingLength <= s0.len_bits());
        assert(stuffing as nat == s0.bits_at(s0.pos(), stuffingLength as nat));
    }
    if stuffing != (1u32 << (stuffingLength - 1)) {
        HANTRO_NOK
    } else {
        HANTRO_OK
    }
}

/// Bits left between the read position and the end of the stream.
pub open spec fn bits_left(s: &strmData_t) -> int {
    s.len_bits() - s.pos()
}

/// Is there more data in the current RBSP, i.e. anything besides the
/// trailing bits?
pub fn h264bsdMoreRbspData(pStrmData: &strmData_t) -> (r: u32)
    requires
        pStrmData.wf(),
        pStrmData.pos() <= pStrmData.len_bits(),
    ensures
        r == (if bits_left(pStrmData) == 0 {
            HANTRO_FALSE
        } else if bits_left(pStrmData) > 8 {
            HANTRO_TRUE
        } else if pStrmData.bits_at(pStrmData.pos(), bits_left(pStrmData) as nat) != pow2(
            (bits_left(pStrmData) - 1) as nat,
        ) {
            HANTRO_TRUE
        } else {
            HANTRO_FALSE
        }),
{
    let bits = pStrmData.strmBuffSize * 8 - pStrmData.strmBuffReadBits;
    if bits == 0 {
        return HANTRO_FALSE;
    }
    if bits > 8 {
        return HANTRO_TRUE;
    }
    let w = h264bsdShowBits32(pStrmData);
    proof {
        let p = pStrmData.pos();
        let d = pStrmData.data();
        let sz = pStrmData.size();
        lemma_stream_bits_split(d, sz, p, bits as nat, (32 - bits) as nat);
        assert(bits as nat + (32 - bits) as nat == 32);
        lemma_stream_bits_bound(d, sz, p + bits, (32 - bits) as nat);
        vstd::bits::lemma_u32_shr_is_div(w, (32 - bits) as u32);
        lemma_pow2_pos((32 - bits) as nat);
        vstd::arithmetic::div_mod::lemma_fundamental_div_mod_converse(
            w as int,
            pow2((32 - bits) as nat) as int,
            pStrmData.bits_at(p, bits as nat) as int,
            pStrmData.bits_at(p + bits, (32 - bits) as nat) as int,
        );
        lemma2_to64();
        vstd::bits::lemma_u32_shl_is_mul(1u32, (bits - 1) as u32);
    }
    if (w >> (32 - bits)) != (1u32 << (bits - 1)) {
        HANTRO_TRUE
    } else {
        HANTRO_FALSE
    }
}

/// Address of the next macroblock after `currMbAddr` in the same slice
/// group (as given by the slice group map); 0 if none of the following
/// macroblocks of the picture belongs to that group.
pub fn h264bsdNextMbAddress(pSliceGroupMap: &[u32], picSizeInMbs: u32, currMbAddr: u32) -> (r: u32)
    requires
        currMbAddr < picSizeInMbs,
        picSizeInMbs as int <= pSliceGroupMap@.len(),
    ensures
        r == 0 ==> forall|i: int|
            currMbAddr < i < picSizeInMbs ==> pSliceGroupMap@[i] != pSliceGroupMap@[currMbAddr as int],
        r != 0 ==> {
            &&& currMbAddr < r < picSizeInMbs
            &&& pSliceGroupMap@[r as int] == pSliceGroupMap@[currMbAddr as int]
            &&& forall|i: int|
                currMbAddr < i < r ==> pSliceGroupMap@[i] != pSliceGroupMap@[currMbAddr as int]
        },
{
    let sliceGroup = pSliceGroupMap[currMbAddr as usize];
    let mut i = currMbAddr + 1;
    while i < picSizeInMbs && pSliceGroupMap[i as usize] != sliceGroup
        invariant
            currMbAddr < i <= picSizeInMbs,
            picSizeInMbs as int <= pSliceGroupMap@.len(),
            sliceGroup == pSliceGroupMap@[currMbAddr as int],
            forall|k: int| currMbAddr < k < i ==> pSliceGroupMap@[k] != sliceGroup,
        decreases picSizeInMbs - i,
    {
        i += 1;
    }
    if i == picSizeInMbs {
        i = 0;
    }
    i
}

/// Mark a 4x4 residual block as empty.
pub fn MARK_RESIDUAL_EMPTY(residual: &mut [i32])
    requires
        old(residual)@.len() >= 1,
    ensures
        final(residual)@ == old(residual)@.update(0, EMPTY_RESIDUAL_INDICATOR as i32),
{
    residual[0] = EMPTY_RESIDUAL_INDICATOR as i32;
}

/// Is the 4x4 residual block marked empty?
pub fn IS_RESIDUAL_EMPTY(residual: &[i32]) -> (r: bool)
    requires
        residual@.len() >= 1,
    ensures
        r == (residual@[0] == EMPTY_RESIDUAL_INDICATOR as i32),
{
    residual[0] == EMPTY_RESIDUAL_INDICATOR as i32
}

/// An arithmetic right shift of a signed value is the division by the
/// power of two rounded down.
pub proof fn lemma_shr_i32(x: i32, k: u32)
    requires
        k < 31,
    ensures
        (x >> k) as int == x as int / vstd::arithmetic::power2::pow2(k as nat) as int,
    decreases k,
{
    vstd::arithmetic::power2::lemma2_to64();
    if k == 0 {
        assert(x >> 0u32 == x) by (bit_vector);
    } else {
        let k1 = (k - 1) as u32;
        lemma_shr_i32(x, k1);
        let y = x >> k1;
        assert(x >> k == y >> 1u32 && y >> 1u32 == y / 2) by (bit_vector)
            requires
                y == x >> k1,
                k1 + 1 == k,
                k < 31,
        ;
        let p = vstd::arithmetic::power2::pow2(k1 as nat) as int;
        vstd::arithmetic::power2::lemma_pow2_unfold(k as nat);
        vstd::arithmetic::power2::lemma_pow2_pos(k1 as nat);
        let q1 = x as int / p;
        let r1 = x as int % p;
        vstd::arithmetic::div_mod::lemma_fundamental_div_mod(x as int, p);
        let q = q1 / 2;
        let r2 = q1 % 2;
        vstd::arithmetic::div_mod::lemma_fundamental_div_mod(q1, 2);
        assert(x as int == (2 * p) * q + (p * r2 + r1)) by (nonlinear_arith)
            requires
                x as int == p * q1 + r1,
                q1 == 2 * q + r2,
        ;
        assert(0 <= p * r2 + r1 < 2 * p) by (nonlinear_arith)
            requires
                0 <= r2 < 2,
                0 <= r1 < p,
                0 < p,
        ;
        vstd::arithmetic::div_mod::lemma_fundamental_div_mod_converse(x as int, 2 * p, q, p * r2 + r1);
    }
}

} // verus!
