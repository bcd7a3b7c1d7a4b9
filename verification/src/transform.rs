//! Inverse zig-zag scan, inverse scaling and inverse transforms of
//! residual blocks: 4x4 blocks, the 4x4 luma DC block of an intra 16x16
//! macroblock and the two 2x2 chroma DC blocks.
use vstd::prelude::*;
use vstd::arithmetic::power2::*;
use crate::defs::{HANTRO_NOK, HANTRO_OK};
use crate::stream::lemma_pow2_strictly_increases_le;

verus! {

/// LevelScale(m, class) of the standard for qp % 6 == m: class 0 for
/// positions with both coordinates even, 2 for both odd, 1 otherwise.
pub const levelScale: [[i32; 3]; 6] = [
    [10, 13, 16],
    [11, 14, 18],
    [13, 16, 20],
    [14, 18, 23],
    [16, 20, 25],
    [18, 23, 29],
];

/// Zig-zag index of the coefficient at each raster position of a 4x4
/// block.
pub const zigzagIndex: [u32; 16] = [0, 1, 5, 6, 2, 4, 7, 12, 3, 8, 11, 13, 9, 10, 14, 15];

/// An integer that fits in 32 signed bits.
pub open spec fn fits(x: int) -> bool {
    i32::MIN <= x <= i32::MAX
}

/// Scaling class of raster position `r`.
pub open spec fn scale_class(r: int) -> int {
    let row = r / 4;
    let col = r % 4;
    if row % 2 == 0 && col % 2 == 0 {
        0
    } else if row % 2 == 1 && col % 2 == 1 {
        2
    } else {
        1
    }
}

/// LevelScale(qp % 6, class) * 2^(qp / 6).
pub open spec fn level_scale(qp: u32, class: int) -> int {
    levelScale@[(qp % 6) as int]@[class] * pow2((qp / 6) as nat)
}

/// The 4x4 block in raster order after the inverse zig-zag scan and the
/// inverse scaling of the coefficients `d` (in zig-zag order); with
/// `skip` the DC coefficient is taken as it is.
pub open spec fn dequant(d: Seq<i32>, qp: u32, skip: bool) -> Seq<int> {
    Seq::new(
        16,
        |r: int|
            if r == 0 && skip {
                d[0] as int
            } else {
                d[zigzagIndex@[r] as int] * level_scale(qp, scale_class(r))
            },
    )
}

/// One-dimensional inverse transform of (a, b, c, d) (8.5.12.2 of the
/// standard; x / 2 rounds down as the arithmetic shift does).
pub open spec fn idct4(a: int, b: int, c: int, d: int) -> Seq<int> {
    seq![(a + c) + (b + d / 2), (a - c) + (b / 2 - d), (a - c) - (b / 2 - d), (a + c) - (b + d / 2)]
}

/// The intermediate values of `idct4` fit in 32 bits.
pub open spec fn idct4_fits(a: int, b: int, c: int, d: int) -> bool {
    &&& fits(a + c)
    &&& fits(a - c)
    &&& fits(b / 2 - d)
    &&& fits(b + d / 2)
    &&& forall|i: int| 0 <= i < 4 ==> fits(#[trigger] idct4(a, b, c, d)[i])
}

/// Rows of `x` transformed.
pub open spec fn rows(x: Seq<int>) -> Seq<int> {
    Seq::new(16, |r: int| idct4(x[r / 4 * 4], x[r / 4 * 4 + 1], x[r / 4 * 4 + 2], x[r / 4 * 4 + 3])[r % 4])
}

/// Columns of `x` transformed, before rounding.
pub open spec fn cols(x: Seq<int>) -> Seq<int> {
    Seq::new(16, |r: int| idct4(x[r % 4], x[4 + r % 4], x[8 + r % 4], x[12 + r % 4])[r / 4])
}

/// The residual of a 4x4 block from its scaled coefficients `x`: rows,
/// then columns, then (v + 32) >> 6.
pub open spec fn inverse_transform(x: Seq<int>) -> Seq<int> {
    Seq::new(16, |r: int| (cols(rows(x))[r] + 32) / 64)
}

/// All residual values lie in [-512, 511].
pub open spec fn residual_in_range(v: Seq<int>) -> bool {
    forall|r: int| 0 <= r < v.len() ==> -512 <= #[trigger] v[r] <= 511
}

/// Coefficients 2, 3, 4 and 7..15 (in zig-zag order; those outside the
/// first row) are all absent in `coeffMap`.
pub open spec fn only_first_row(coeffMap: u32) -> bool {
    coeffMap & 0xFF9C == 0
}

/// Coefficients 1, 5 and 6 (the rest of the first row) are absent too.
pub open spec fn only_dc(coeffMap: u32) -> bool {
    coeffMap & 0x62 == 0
}

/// The residual that block processing computes from the coefficients `d`,
/// taking only the coefficients that `coeffMap` says may be non-zero into
/// account: all of them, only the first row, or only the DC coefficient.
pub open spec fn block_residual(d: Seq<i32>, qp: u32, skip: bool, coeffMap: u32) -> Seq<int> {
    let x = dequant(d, qp, skip);
    if !only_first_row(coeffMap) {
        inverse_transform(x)
    } else if only_dc(coeffMap) {
        Seq::new(16, |r: int| (x[0] + 32) / 64)
    } else {
        let row = idct4(x[0], x[1], x[2], x[3]);
        Seq::new(16, |r: int| (row[r % 4] + 32) / 64)
    }
}

/// Every value that block processing computes along the way fits in 32
/// bits.
pub open spec fn block_fits(d: Seq<i32>, qp: u32, skip: bool, coeffMap: u32) -> bool {
    let x = dequant(d, qp, skip);
    &&& fits(x[0])
    &&& !only_first_row(coeffMap) ==> {
        &&& forall|r: int| 0 <= r < 16 ==> fits(#[trigger] x[r])
        &&& forall|k: int|
            0 <= k < 4 ==> #[trigger] idct4_fits(x[4 * k], x[4 * k + 1], x[4 * k + 2], x[4 * k + 3])
        &&& forall|k: int|
            0 <= k < 4 ==> #[trigger] idct4_fits(rows(x)[k], rows(x)[4 + k], rows(x)[8 + k], rows(x)[12 + k])
        &&& forall|r: int| 0 <= r < 16 ==> fits(#[trigger] cols(rows(x))[r] + 32)
    }
    &&& only_first_row(coeffMap) && only_dc(coeffMap) ==> fits(x[0] + 32)
    &&& only_first_row(coeffMap) && !only_dc(coeffMap) ==> {
        &&& fits(x[1]) && fits(x[2]) && fits(x[3])
        &&& idct4_fits(x[0], x[1], x[2], x[3])
        &&& forall|i: int| 0 <= i < 4 ==> fits(#[trigger] idct4(x[0], x[1], x[2], x[3])[i] + 32)
    }
}

/// An arithmetic shift right by one halves, rounding down.
proof fn lemma_shr1(x: i32)
    ensures
        (x >> 1u32) as int == x as int / 2,
{
    assert((x >> 1u32) == x / 2) by (bit_vector);
}

/// An arithmetic shift right by six divides by 64, rounding down.
proof fn lemma_shr6(x: i32)
    ensures
        (x >> 6u32) as int == x as int / 64,
{
    assert((x >> 6u32) == x / 64) by (bit_vector);
}

/// The one-dimensional inverse transform.
fn idct4_exec(a: i32, b: i32, c: i32, d: i32) -> (r: [i32; 4])
    requires
        idct4_fits(a as int, b as int, c as int, d as int),
    ensures
        forall|i: int| 0 <= i < 4 ==> r@[i] as int == #[trigger] idct4(a as int, b as int, c as int, d as int)[i],
{
    proof {
        lemma_shr1(b);
        lemma_shr1(d);
        let v = idct4(a as int, b as int, c as int, d as int);
        assert(fits(v[0]) && fits(v[1]) && fits(v[2]) && fits(v[3]));
    }
    let tmp0 = a + c;
    let tmp1 = a - c;
    let tmp2 = (b >> 1) - d;
    let tmp3 = b + (d >> 1);
    [tmp0 + tmp3, tmp1 + tmp2, tmp1 - tmp2, tmp0 - tmp3]
}

/// (v + 32) >> 6, the rounding of a transformed value.
fn round6(v: i32) -> (r: i32)
    requires
        fits(v + 32),
    ensures
        r as int == (v + 32) / 64,
{
    proof {
        lemma_shr6((v + 32) as i32);
    }
    (v + 32) >> 6
}

/// In range [-512, 511]?
fn in_range(v: i32) -> (r: bool)
    ensures
        r == (-512 <= v <= 511),
{
    let r = (v.wrapping_add(512) as u32) <= 1023;
    assert(r == (-512 <= v <= 511)) by (bit_vector)
        requires
            r == ((v.wrapping_add(512) as u32) <= 1023),
    ;
    r
}

/// LevelScale(qp % 6, class) << qp / 6.
fn scale_exec(qp: u32, class: usize) -> (r: i32)
    requires
        qp <= 51,
        class < 3,
    ensures
        r as int == level_scale(qp, class as int),
        0 <= r <= 29 * 256,
{
    let m = (qp % 6) as usize;
    let s = levelScale[m][class];
    let sh = qp / 6;
    proof {
        assert(10 <= levelScale@[m as int]@[class as int] <= 29) by {
            assert(m == 0 || m == 1 || m == 2 || m == 3 || m == 4 || m == 5);
        }
        lemma_pow2_strictly_increases_le(sh as nat, 8);
        lemma2_to64();
        vstd::bits::lemma_u32_pow2_no_overflow(sh as nat);
        vstd::bits::lemma_u32_shl_is_mul(1u32, sh);
        assert(s * pow2(sh as nat) <= 29 * 256) by (nonlinear_arith)
            requires
                s <= 29,
                pow2(sh as nat) <= 256,
                s >= 0,
        ;
    }
    s * ((1u32 << sh) as i32)
}

/// The `k`-th of four values.
spec fn pick4(v0: int, v1: int, v2: int, v3: int, k: int) -> int {
    if k == 0 {
        v0
    } else if k == 1 {
        v1
    } else if k == 2 {
        v2
    } else {
        v3
    }
}

/// Scaling class of each raster position.
pub const scaleClass: [usize; 16] = [0, 1, 0, 1, 1, 2, 1, 2, 0, 1, 0, 1, 1, 2, 1, 2];

proof fn lemma_tables()
    ensures
        forall|r: int| 0 <= r < 16 ==> scaleClass@[r] as int == #[trigger] scale_class(r),
        forall|r: int| 0 <= r < 16 ==> #[trigger] zigzagIndex@[r] < 16,
{
    assert forall|r: int| 0 <= r < 16 implies scaleClass@[r] as int == #[trigger] scale_class(r) by {
        assert(r == 0 || r == 1 || r == 2 || r == 3 || r == 4 || r == 5 || r == 6 || r == 7 || r == 8 || r == 9
            || r == 10 || r == 11 || r == 12 || r == 13 || r == 14 || r == 15);
    }
    assert forall|r: int| 0 <= r < 16 implies #[trigger] zigzagIndex@[r] < 16 by {
        assert(r == 0 || r == 1 || r == 2 || r == 3 || r == 4 || r == 5 || r == 6 || r == 7 || r == 8 || r == 9
            || r == 10 || r == 11 || r == 12 || r == 13 || r == 14 || r == 15);
    }
}

/// The full inverse transform of the scaled block `xs` into `data`;
/// false (with `data` partly written) when a value falls outside
/// [-512, 511].
fn full_transform(data: &mut [i32; 16], xs: &[i32; 16]) -> (ok: bool)
    requires
        forall|k: int|
            0 <= k < 4 ==> #[trigger] idct4_fits(
                xs@[4 * k] as int,
                xs@[4 * k + 1] as int,
                xs@[4 * k + 2] as int,
                xs@[4 * k + 3] as int,
            ),
        ({
            let x = Seq::new(16, |r: int| xs@[r] as int);
            &&& forall|k: int|
                0 <= k < 4 ==> #[trigger] idct4_fits(rows(x)[k], rows(x)[4 + k], rows(x)[8 + k], rows(x)[12 + k])
            &&& forall|r: int| 0 <= r < 16 ==> fits(#[trigger] cols(rows(x))[r] + 32)
        }),
    ensures
        ({
            let v = inverse_transform(Seq::new(16, |r: int| xs@[r] as int));
            &&& ok == residual_in_range(v)
            &&& ok ==> forall|i: int| 0 <= i < 16 ==> final(data)@[i] as int == v[i]
        }),
{
    let ghost x = Seq::new(16, |r: int| xs@[r] as int);
    /* horizontal transform */
    let mut h: [i32; 16] = [0; 16];
    let mut k: usize = 0;
    while k < 4
        invariant
            k <= 4,
            x == Seq::new(16, |r: int| xs@[r] as int),
            forall|j: int|
                0 <= j < 4 ==> #[trigger] idct4_fits(
                    xs@[4 * j] as int,
                    xs@[4 * j + 1] as int,
                    xs@[4 * j + 2] as int,
                    xs@[4 * j + 3] as int,
                ),
            forall|r: int| 0 <= r < 4 * k ==> h@[r] as int == #[trigger] rows(x)[r],
        decreases 4 - k,
    {
        assert(idct4_fits(xs@[4 * k as int] as int, xs@[4 * k + 1] as int, xs@[4 * k + 2] as int, xs@[4 * k + 3] as int));
        let o = idct4_exec(xs[4 * k], xs[4 * k + 1], xs[4 * k + 2], xs[4 * k + 3]);
        h[4 * k] = o[0];
        h[4 * k + 1] = o[1];
        h[4 * k + 2] = o[2];
        h[4 * k + 3] = o[3];
        proof {
            assert forall|r: int| 0 <= r < 4 * (k + 1) implies h@[r] as int == #[trigger] rows(x)[r] by {
                if r >= 4 * k {
                    assert(r / 4 == k as int);
                    assert(r / 4 * 4 == 4 * k);
                }
            }
        }
        k += 1;
    }
    let ghost hv = rows(x);
    assert(Seq::new(16, |r: int| h@[r] as int) =~= hv);
    /* then vertical transform */
    let mut c: usize = 0;
    while c < 4
        invariant
            c <= 4,
            x == Seq::new(16, |r: int| xs@[r] as int),
            hv == rows(x),
            forall|r: int| 0 <= r < 16 ==> h@[r] as int == #[trigger] hv[r],
            forall|j: int|
                0 <= j < 4 ==> #[trigger] idct4_fits(hv[j], hv[4 + j], hv[8 + j], hv[12 + j]),
            forall|r: int| 0 <= r < 16 ==> fits(#[trigger] cols(hv)[r] + 32),
            forall|r: int| 0 <= r < 16 && r % 4 < c ==> data@[r] as int == #[trigger] inverse_transform(x)[r],
            forall|r: int| 0 <= r < 16 && r % 4 < c ==> -512 <= #[trigger] inverse_transform(x)[r] <= 511,
        decreases 4 - c,
    {
        assert(idct4_fits(hv[c as int], hv[4 + c], hv[8 + c], hv[12 + c]));
        let o = idct4_exec(h[c], h[4 + c], h[8 + c], h[12 + c]);
        let mut j: usize = 0;
        while j < 4
            invariant
                c < 4,
                j <= 4,
                x == Seq::new(16, |r: int| xs@[r] as int),
                hv == rows(x),
                forall|i: int| 0 <= i < 4 ==> o@[i] as int == #[trigger] idct4(hv[c as int], hv[4 + c], hv[8 + c], hv[12 + c])[i],
                forall|r: int| 0 <= r < 16 ==> fits(#[trigger] cols(hv)[r] + 32),
                forall|r: int| 0 <= r < 16 && r % 4 < c ==> data@[r] as int == #[trigger] inverse_transform(x)[r],
                forall|r: int| 0 <= r < 16 && r % 4 < c ==> -512 <= #[trigger] inverse_transform(x)[r] <= 511,
                forall|i: int| 0 <= i < j ==> data@[4 * i + c] as int == #[trigger] inverse_transform(x)[4 * i + c],
                forall|i: int| 0 <= i < j ==> -512 <= #[trigger] inverse_transform(x)[4 * i + c] <= 511,
            decreases 4 - j,
        {
            let ghost r = 4 * j + c;
            assert(r % 4 == c as int && r / 4 == j as int);
            assert(cols(hv)[r as int] == idct4(hv[c as int], hv[4 + c], hv[8 + c], hv[12 + c])[j as int]);
            assert(fits(cols(hv)[r as int] + 32));
            let v = round6(o[j]);
            assert(v as int == inverse_transform(x)[r as int]);
            if !in_range(v) {
                assert(!residual_in_range(inverse_transform(x)));
                return false;
            }
            data[4 * j + c] = v;
            j += 1;
        }
        proof {
            assert forall|r: int| 0 <= r < 16 && r % 4 < c + 1 implies data@[r] as int == #[trigger] inverse_transform(x)[r]
                && -512 <= inverse_transform(x)[r] <= 511 by {
                if r % 4 == c as int {
                    let i = r / 4;
                    assert(r == 4 * i + c);
                }
            }
        }
        c += 1;
    }
    true
}

/// Inverse zig-zag scan, inverse scaling and inverse transform of a 4x4
/// luma or chroma residual block `data` with quantization parameter `qp`;
/// with `skip` the DC coefficient has been scaled already. `coeffMap`
/// marks (bit k for coefficient k in zig-zag order) the coefficients that
/// may be non-zero. HANTRO_NOK when a residual value falls outside
/// [-512, 511].
pub fn h264bsdProcessBlock(data: &mut [i32; 16], qp: u32, skip: u32, coeffMap: u32) -> (r: u32)
    requires
        qp <= 51,
        block_fits(old(data)@, qp, skip != 0, coeffMap),
    ensures
        ({
            let v = block_residual(old(data)@, qp, skip != 0, coeffMap);
            &&& r == (if residual_in_range(v) { HANTRO_OK } else { HANTRO_NOK })
            &&& r == HANTRO_OK ==> forall|i: int|
                0 <= i < 16 ==> #[trigger] final(data)@[i] as int == block_residual(old(data)@, qp, skip != 0, coeffMap)[i]
        }),
{
    let ghost d = data@;
    let ghost x = dequant(d, qp, skip != 0);
    proof {
        lemma_tables();
    }
    let tmp1 = scale_exec(qp, 0);
    let tmp2 = scale_exec(qp, 1);
    let tmp3 = scale_exec(qp, 2);
    let dc: i32 = if skip == 0 {
        data[0] * tmp1
    } else {
        data[0]
    };
    assert(dc as int == x[0]);
    if coeffMap & 0xFF9C != 0 {
        /* do the zig-zag scan and inverse quantization */
        let mut xs: [i32; 16] = [0; 16];
        xs[0] = dc;
        let mut r: usize = 1;
        while r < 16
            invariant
                1 <= r <= 16,
                qp <= 51,
                d == old(data)@,
                d == data@,
                x == dequant(d, qp, skip != 0),
                forall|i: int| 0 <= i < 16 ==> fits(#[trigger] x[i]),
                forall|i: int| 0 <= i < 16 ==> scaleClass@[i] as int == #[trigger] scale_class(i),
                forall|i: int| 0 <= i < 16 ==> #[trigger] zigzagIndex@[i] < 16,
                tmp1 as int == level_scale(qp, 0),
                tmp2 as int == level_scale(qp, 1),
                tmp3 as int == level_scale(qp, 2),
                forall|i: int| 0 <= i < r ==> xs@[i] as int == #[trigger] x[i],
            decreases 16 - r,
        {
            let cls = scaleClass[r];
            let t = if cls == 0 {
                tmp1
            } else if cls == 1 {
                tmp2
            } else {
                tmp3
            };
            assert(fits(x[r as int]));
            xs[r] = data[zigzagIndex[r] as usize] * t;
            r += 1;
        }
        assert(Seq::new(16, |i: int| xs@[i] as int) =~= x);
        assert forall|k: int| 0 <= k < 4 implies #[trigger] idct4_fits(
            xs@[4 * k] as int,
            xs@[4 * k + 1] as int,
            xs@[4 * k + 2] as int,
            xs@[4 * k + 3] as int,
        ) by {
            assert(idct4_fits(x[4 * k], x[4 * k + 1], x[4 * k + 2], x[4 * k + 3]));
        }
        if full_transform(data, &xs) {
            HANTRO_OK
        } else {
            HANTRO_NOK
        }
    } else if coeffMap & 0x62 == 0 {
        /* only dc-coeff is non-zero, i.e. coeffs at original positions
         * 1, 5 and 6 are zero */
        let v = round6(dc);
        if !in_range(v) {
            assert(!residual_in_range(block_residual(d, qp, skip != 0, coeffMap))) by {
                assert(block_residual(d, qp, skip != 0, coeffMap)[0] == v);
            }
            return HANTRO_NOK;
        }
        let mut i: usize = 0;
        while i < 16
            invariant
                i <= 16,
                forall|k: int| 0 <= k < i ==> data@[k] == v,
            decreases 16 - i,
        {
            data[i] = v;
            i += 1;
        }
        HANTRO_OK
    } else {
        /* at least one of the coeffs 1, 5 or 6 is non-zero */
        assert(fits(x[1]) && fits(x[2]) && fits(x[3]));
        let x1 = data[1] * tmp2;
        let x2 = data[5] * tmp1;
        let x3 = data[6] * tmp2;
        let o = idct4_exec(dc, x1, x2, x3);
        let ghost row = idct4(x[0], x[1], x[2], x[3]);
        let v0 = round6(o[0]);
        let v1 = round6(o[1]);
        let v2 = round6(o[2]);
        let v3 = round6(o[3]);
        let ghost br = block_residual(d, qp, skip != 0, coeffMap);
        assert(br[0] == v0 && br[1] == v1 && br[2] == v2 && br[3] == v3);
        if !in_range(v0) || !in_range(v1) || !in_range(v2) || !in_range(v3) {
            return HANTRO_NOK;
        }
        let mut i: usize = 0;
        while i < 16
            invariant
                i <= 16,
                br == block_residual(d, qp, skip != 0, coeffMap),
                forall|k: int| 0 <= k < 16 ==> #[trigger] br[k] == pick4(v0 as int, v1 as int, v2 as int, v3 as int, k % 4),
                forall|k: int| 0 <= k < i ==> data@[k] as int == #[trigger] br[k],
            decreases 16 - i,
        {
            let v = if i % 4 == 0 {
                v0
            } else if i % 4 == 1 {
                v1
            } else if i % 4 == 2 {
                v2
            } else {
                v3
            };
            data[i] = v;
            i += 1;
        }
        proof {
            assert forall|k: int| 0 <= k < 16 implies -512 <= #[trigger] br[k] <= 511 by {}
        }
        HANTRO_OK
    }
}

/// The four-point Hadamard transform of (a, b, c, d) used for DC blocks.
pub open spec fn hadamard4(a: int, b: int, c: int, d: int) -> Seq<int> {
    seq![(a + c) + (b + d), (a - c) + (b - d), (a - c) - (b - d), (a + c) - (b + d)]
}

/// The intermediate values of `hadamard4` fit in 32 bits.
pub open spec fn hadamard4_fits(a: int, b: int, c: int, d: int) -> bool {
    &&& fits(a + c)
    &&& fits(a - c)
    &&& fits(b - d)
    &&& fits(b + d)
    &&& forall|i: int| 0 <= i < 4 ==> fits(#[trigger] hadamard4(a, b, c, d)[i])
}

/// The luma DC coefficients `d` (in zig-zag order) in raster order.
pub open spec fn luma_dc_scan(d: Seq<i32>) -> Seq<int> {
    Seq::new(16, |r: int| d[zigzagIndex@[r] as int] as int)
}

/// Rows of `x` through `hadamard4`.
pub open spec fn hadamard_rows(x: Seq<int>) -> Seq<int> {
    Seq::new(16, |r: int| hadamard4(x[r / 4 * 4], x[r / 4 * 4 + 1], x[r / 4 * 4 + 2], x[r / 4 * 4 + 3])[r % 4])
}

/// Columns of `x` through `hadamard4`.
pub open spec fn hadamard_cols(x: Seq<int>) -> Seq<int> {
    Seq::new(16, |r: int| hadamard4(x[r % 4], x[4 + r % 4], x[8 + r % 4], x[12 + r % 4])[r / 4])
}

/// LevelScale(qp % 6, 0).
pub open spec fn dc_level(qp: u32) -> int {
    levelScale@[(qp % 6) as int]@[0] as int
}

/// Scaling of a transformed luma DC value: v * LevelScale * 2^(qp/6) / 4,
/// rounded to nearest (halves up) where qp / 6 < 2.
pub open spec fn luma_dc_scale(v: int, qp: u32) -> int {
    if qp >= 12 {
        v * (dc_level(qp) * pow2((qp / 6 - 2) as nat))
    } else {
        (v * dc_level(qp) + pow2((1 - qp / 6) as nat)) / (pow2((2 - qp / 6) as nat) as int)
    }
}

/// The scaling of `v` stays within 32 bits.
pub open spec fn luma_dc_scale_fits(v: int, qp: u32) -> bool {
    if qp >= 12 {
        fits(v * (dc_level(qp) * pow2((qp / 6 - 2) as nat)))
    } else {
        fits(v * dc_level(qp)) && fits(v * dc_level(qp) + pow2((1 - qp / 6) as nat))
    }
}

/// The luma DC values that the inverse scan, transform and scaling give
/// from the coefficients `d`.
pub open spec fn luma_dc(d: Seq<i32>, qp: u32) -> Seq<int> {
    Seq::new(16, |r: int| luma_dc_scale(hadamard_cols(hadamard_rows(luma_dc_scan(d)))[r], qp))
}

/// Every value computed along the way fits in 32 bits.
pub open spec fn luma_dc_fits(d: Seq<i32>, qp: u32) -> bool {
    let x = luma_dc_scan(d);
    let h = hadamard_rows(x);
    &&& forall|k: int| 0 <= k < 4 ==> #[trigger] hadamard4_fits(x[4 * k], x[4 * k + 1], x[4 * k + 2], x[4 * k + 3])
    &&& forall|k: int| 0 <= k < 4 ==> #[trigger] hadamard4_fits(h[k], h[4 + k], h[8 + k], h[12 + k])
    &&& forall|r: int| 0 <= r < 16 ==> #[trigger] luma_dc_scale_fits(hadamard_cols(h)[r], qp)
}

/// An arithmetic shift right by two divides by four, rounding down.
proof fn lemma_shr2(x: i32)
    ensures
        (x >> 2u32) as int == x as int / 4,
{
    assert((x >> 2u32) == x / 4) by (bit_vector);
}

/// `hadamard4` computed.
fn hadamard4_exec(a: i32, b: i32, c: i32, d: i32) -> (r: [i32; 4])
    requires
        hadamard4_fits(a as int, b as int, c as int, d as int),
    ensures
        forall|i: int| 0 <= i < 4 ==> r@[i] as int == #[trigger] hadamard4(a as int, b as int, c as int, d as int)[i],
{
    proof {
        let v = hadamard4(a as int, b as int, c as int, d as int);
        assert(fits(v[0]) && fits(v[1]) && fits(v[2]) && fits(v[3]));
    }
    let tmp0 = a + c;
    let tmp1 = a - c;
    let tmp2 = b - d;
    let tmp3 = b + d;
    [tmp0 + tmp3, tmp1 + tmp2, tmp1 - tmp2, tmp0 - tmp3]
}

/// LevelScale(qp % 6, 0) << sh.
fn dc_level_shifted(qp: u32, sh: u32) -> (r: i32)
    requires
        sh <= 8,
    ensures
        r as int == dc_level(qp) * pow2(sh as nat),
        0 < r <= 18 * 256,
{
    let s = levelScale[(qp % 6) as usize][0];
    proof {
        let m = qp % 6;
        assert(10 <= s <= 18) by {
            assert(m == 0 || m == 1 || m == 2 || m == 3 || m == 4 || m == 5);
        }
        lemma_pow2_strictly_increases_le(sh as nat, 8);
        lemma2_to64();
        vstd::bits::lemma_u32_pow2_no_overflow(sh as nat);
        vstd::bits::lemma_u32_shl_is_mul(1u32, sh);
        assert(0 < s * pow2(sh as nat) <= 18 * 256) by (nonlinear_arith)
            requires
                10 <= s <= 18,
                1 <= pow2(sh as nat) <= 256,
        ;
    }
    s * ((1u32 << sh) as i32)
}

/// Scaling of one transformed luma DC value.
fn luma_dc_scale_exec(v: i32, qp: u32) -> (r: i32)
    requires
        qp <= 51,
        luma_dc_scale_fits(v as int, qp),
    ensures
        r as int == luma_dc_scale(v as int, qp),
{
    let qpDiv = qp / 6;
    if qp >= 12 {
        let levScale = dc_level_shifted(qp, qpDiv - 2);
        v * levScale
    } else {
        let levScale = dc_level_shifted(qp, 0);
        proof {
            lemma2_to64();
        }
        if qpDiv == 1 {
            let t = v * levScale + 1;
            proof {
                lemma_shr1(t);
            }
            t >> 1
        } else {
            let t = v * levScale + 2;
            proof {
                lemma_shr2(t);
            }
            t >> 2
        }
    }
}

/// Inverse zig-zag scan, inverse transform and inverse scaling of the 16
/// luma DC coefficients of an intra 16x16 macroblock, with quantization
/// parameter `qp`.
pub fn h264bsdProcessLumaDc(data: &mut [i32; 16], qp: u32)
    requires
        qp <= 51,
        luma_dc_fits(old(data)@, qp),
    ensures
        forall|i: int| 0 <= i < 16 ==> final(data)@[i] as int == #[trigger] luma_dc(old(data)@, qp)[i],
{
    let ghost d = data@;
    let ghost x = luma_dc_scan(d);
    let ghost h = hadamard_rows(x);
    proof {
        lemma_tables();
    }
    /* zig-zag scan */
    let mut xs: [i32; 16] = [0; 16];
    let mut r: usize = 0;
    while r < 16
        invariant
            r <= 16,
            d == data@,
            x == luma_dc_scan(d),
            forall|i: int| 0 <= i < 16 ==> #[trigger] zigzagIndex@[i] < 16,
            forall|i: int| 0 <= i < r ==> xs@[i] as int == #[trigger] x[i],
        decreases 16 - r,
    {
        xs[r] = data[zigzagIndex[r] as usize];
        r += 1;
    }
    /* horizontal transform */
    let mut hs: [i32; 16] = [0; 16];
    let mut k: usize = 0;
    while k < 4
        invariant
            k <= 4,
            h == hadamard_rows(x),
            forall|i: int| 0 <= i < 16 ==> xs@[i] as int == #[trigger] x[i],
            forall|j: int|
                0 <= j < 4 ==> #[trigger] hadamard4_fits(x[4 * j], x[4 * j + 1], x[4 * j + 2], x[4 * j + 3]),
            forall|i: int| 0 <= i < 4 * k ==> hs@[i] as int == #[trigger] h[i],
        decreases 4 - k,
    {
        assert(hadamard4_fits(x[4 * k as int], x[4 * k + 1], x[4 * k + 2], x[4 * k + 3]));
        assert(xs@[4 * k as int] as int == x[4 * k as int] && xs@[4 * k + 1] as int == x[4 * k + 1]
            && xs@[4 * k + 2] as int == x[4 * k + 2] && xs@[4 * k + 3] as int == x[4 * k + 3]);
        let o = hadamard4_exec(xs[4 * k], xs[4 * k + 1], xs[4 * k + 2], xs[4 * k + 3]);
        hs[4 * k] = o[0];
        hs[4 * k + 1] = o[1];
        hs[4 * k + 2] = o[2];
        hs[4 * k + 3] = o[3];
        proof {
            assert forall|i: int| 0 <= i < 4 * (k + 1) implies hs@[i] as int == #[trigger] h[i] by {
                if i >= 4 * k {
                    assert(i / 4 == k as int);
                    assert(i / 4 * 4 == 4 * k);
                }
            }
        }
        k += 1;
    }
    /* then vertical transform and inverse scaling */
    let mut c: usize = 0;
    while c < 4
        invariant
            c <= 4,
            qp <= 51,
            d == old(data)@,
            h == hadamard_rows(luma_dc_scan(d)),
            forall|i: int| 0 <= i < 16 ==> hs@[i] as int == #[trigger] h[i],
            forall|j: int| 0 <= j < 4 ==> #[trigger] hadamard4_fits(h[j], h[4 + j], h[8 + j], h[12 + j]),
            forall|i: int| 0 <= i < 16 ==> #[trigger] luma_dc_scale_fits(hadamard_cols(h)[i], qp),
            forall|i: int| 0 <= i < 16 && i % 4 < c ==> data@[i] as int == #[trigger] luma_dc(d, qp)[i],
        decreases 4 - c,
    {
        assert(hadamard4_fits(h[c as int], h[4 + c], h[8 + c], h[12 + c]));
        let o = hadamard4_exec(hs[c], hs[4 + c], hs[8 + c], hs[12 + c]);
        let mut j: usize = 0;
        while j < 4
            invariant
                c < 4,
                j <= 4,
                qp <= 51,
                d == old(data)@,
                h == hadamard_rows(luma_dc_scan(d)),
                forall|i: int| 0 <= i < 4 ==> o@[i] as int == #[trigger] hadamard4(h[c as int], h[4 + c], h[8 + c], h[12 + c])[i],
                forall|i: int| 0 <= i < 16 ==> #[trigger] luma_dc_scale_fits(hadamard_cols(h)[i], qp),
                forall|i: int| 0 <= i < 16 && i % 4 < c ==> data@[i] as int == #[trigger] luma_dc(d, qp)[i],
                forall|i: int| 0 <= i < j ==> data@[4 * i + c] as int == #[trigger] luma_dc(d, qp)[4 * i + c],
            decreases 4 - j,
        {
            let ghost i = 4 * j + c;
            assert(i % 4 == c as int && i / 4 == j as int);
            assert(hadamard_cols(h)[i as int] == hadamard4(h[c as int], h[4 + c], h[8 + c], h[12 + c])[j as int]);
            assert(luma_dc_scale_fits(hadamard_cols(h)[i as int], qp));
            let v = luma_dc_scale_exec(o[j], qp);
            data[4 * j + c] = v;
            j += 1;
        }
        proof {
            assert forall|i: int| 0 <= i < 16 && i % 4 < c + 1 implies data@[i] as int == #[trigger] luma_dc(d, qp)[i] by {
                if i % 4 == c as int {
                    let q = i / 4;
                    assert(i == 4 * q + c);
                }
            }
        }
        c += 1;
    }
}

/// Transform of one 2x2 chroma DC block (c0, c1, c2, c3), in raster order.
pub open spec fn chroma_dc_block(a: int, b: int, c: int, d: int) -> Seq<int> {
    seq![(a + c) + (b + d), (a + c) - (b + d), (a - c) + (b - d), (a - c) - (b - d)]
}

/// Scaling of a transformed chroma DC value: v * LevelScale * 2^(qp/6) / 2,
/// rounded down where qp < 6.
pub open spec fn chroma_dc_scale(v: int, qp: u32) -> int {
    if qp >= 6 {
        v * (dc_level(qp) * pow2((qp / 6 - 1) as nat))
    } else {
        (v * dc_level(qp)) / 2
    }
}

/// The chroma DC values that the inverse transform and scaling give from
/// the two 2x2 blocks of coefficients `d` (Cb, then Cr).
pub open spec fn chroma_dc(d: Seq<i32>, qp: u32) -> Seq<int> {
    Seq::new(
        8,
        |i: int|
            chroma_dc_scale(
                chroma_dc_block(d[i / 4 * 4] as int, d[i / 4 * 4 + 1] as int, d[i / 4 * 4 + 2] as int, d[i / 4 * 4 + 3] as int)[i % 4],
                qp,
            ),
    )
}

/// Every value that the transform of one 2x2 block computes fits in 32
/// bits.
pub open spec fn chroma_block_fits(a: int, b: int, c: int, d: int, qp: u32) -> bool {
    &&& fits(a + c)
    &&& fits(a - c)
    &&& fits(b - d)
    &&& fits(b + d)
    &&& forall|i: int|
        0 <= i < 4 ==> {
            let v = #[trigger] chroma_dc_block(a, b, c, d)[i];
            &&& fits(v)
            &&& if qp >= 6 {
                fits(v * (dc_level(qp) * pow2((qp / 6 - 1) as nat)))
            } else {
                fits(v * dc_level(qp))
            }
        }
}

/// Both chroma DC blocks of `d` stay within 32 bits.
pub open spec fn chroma_dc_fits(d: Seq<i32>, qp: u32) -> bool {
    &&& chroma_block_fits(d[0] as int, d[1] as int, d[2] as int, d[3] as int, qp)
    &&& chroma_block_fits(d[4] as int, d[5] as int, d[6] as int, d[7] as int, qp)
}

/// Transform and scaling of one 2x2 chroma DC block.
fn chroma_block_exec(a: i32, b: i32, c: i32, d: i32, qp: u32) -> (r: [i32; 4])
    requires
        qp <= 51,
        chroma_block_fits(a as int, b as int, c as int, d as int, qp),
    ensures
        forall|i: int|
            0 <= i < 4 ==> r@[i] as int == chroma_dc_scale(
                #[trigger] chroma_dc_block(a as int, b as int, c as int, d as int)[i],
                qp,
            ),
{
    let ghost v = chroma_dc_block(a as int, b as int, c as int, d as int);
    proof {
        assert(fits(v[0]) && fits(v[1]) && fits(v[2]) && fits(v[3]));
    }
    let tmp0 = a + c;
    let tmp1 = a - c;
    let tmp2 = b - d;
    let tmp3 = b + d;
    let w = [tmp0 + tmp3, tmp0 - tmp3, tmp1 + tmp2, tmp1 - tmp2];
    let mut out: [i32; 4] = [0; 4];
    let mut i: usize = 0;
    while i < 4
        invariant
            i <= 4,
            qp <= 51,
            v == chroma_dc_block(a as int, b as int, c as int, d as int),
            forall|k: int| 0 <= k < 4 ==> w@[k] as int == #[trigger] v[k],
            chroma_block_fits(a as int, b as int, c as int, d as int, qp),
            forall|k: int| 0 <= k < i ==> out@[k] as int == chroma_dc_scale(#[trigger] v[k], qp),
        decreases 4 - i,
    {
        assert(chroma_block_fits(a as int, b as int, c as int, d as int, qp));
        assert(w@[i as int] as int == v[i as int]);
        if qp >= 6 {
            let levScale = dc_level_shifted(qp, qp / 6 - 1);
            out[i] = w[i] * levScale;
        } else {
            let levScale = dc_level_shifted(qp, 0);
            proof {
                lemma2_to64();
            }
            let t = w[i] * levScale;
            proof {
                lemma_shr1(t);
            }
            out[i] = t >> 1;
        }
        i += 1;
    }
    out
}

/// Inverse transform and inverse scaling of the chroma DC coefficients,
/// the 2x2 block of Cb in `data[0..4]` and that of Cr in `data[4..8]`,
/// with quantization parameter `qp`.
pub fn h264bsdProcessChromaDc(data: &mut [i32; 8], qp: u32)
    requires
        qp <= 51,
        chroma_dc_fits(old(data)@, qp),
    ensures
        forall|i: int| 0 <= i < 8 ==> final(data)@[i] as int == #[trigger] chroma_dc(old(data)@, qp)[i],
{
    let ghost d = data@;
    let o0 = chroma_block_exec(data[0], data[1], data[2], data[3], qp);
    let o1 = chroma_block_exec(data[4], data[5], data[6], data[7], qp);
    data[0] = o0[0];
    data[1] = o0[1];
    data[2] = o0[2];
    data[3] = o0[3];
    data[4] = o1[0];
    data[5] = o1[1];
    data[6] = o1[2];
    data[7] = o1[3];
    proof {
        assert forall|i: int| 0 <= i < 8 implies final(data)@[i] as int == #[trigger] chroma_dc(d, qp)[i] by {
            assert(i / 4 * 4 == 0 || i / 4 * 4 == 4);
        }
    }
}

/// Every coefficient of `d` whose bit in `coeffMap` is clear is zero.
pub open spec fn absent_are_zero(d: Seq<i32>, coeffMap: u32) -> bool {
    forall|k: int| 0 <= k < 16 && (coeffMap >> (k as u32)) & 1 == 0 ==> #[trigger] d[k] == 0
}

/// `idct4` of a lone DC value spreads it unchanged.
proof fn lemma_idct4_dc(a: int)
    ensures
        idct4(a, 0, 0, 0) =~= seq![a, a, a, a],
{
}

/// Block processing with the shortcuts that `coeffMap` allows gives the
/// full inverse transform of the scaled coefficients whenever every
/// coefficient whose bit in `coeffMap` is clear is zero.
pub proof fn lemma_block_residual_is_full_transform(d: Seq<i32>, qp: u32, skip: bool, coeffMap: u32)
    requires
        d.len() == 16,
        absent_are_zero(d, coeffMap),
    ensures
        block_residual(d, qp, skip, coeffMap) == inverse_transform(dequant(d, qp, skip)),
{
    let x = dequant(d, qp, skip);
    if only_first_row(coeffMap) {
        assert(coeffMap & 0xFF9C == 0 ==> {
            &&& (coeffMap >> 2u32) & 1 == 0
            &&& (coeffMap >> 3u32) & 1 == 0
            &&& (coeffMap >> 4u32) & 1 == 0
            &&& (coeffMap >> 7u32) & 1 == 0
            &&& (coeffMap >> 8u32) & 1 == 0
            &&& (coeffMap >> 9u32) & 1 == 0
            &&& (coeffMap >> 10u32) & 1 == 0
            &&& (coeffMap >> 11u32) & 1 == 0
            &&& (coeffMap >> 12u32) & 1 == 0
            &&& (coeffMap >> 13u32) & 1 == 0
            &&& (coeffMap >> 14u32) & 1 == 0
            &&& (coeffMap >> 15u32) & 1 == 0
        }) by (bit_vector);
        assert(d[2] == 0 && d[3] == 0 && d[4] == 0 && d[7] == 0 && d[8] == 0 && d[9] == 0);
        assert(d[10] == 0 && d[11] == 0 && d[12] == 0 && d[13] == 0 && d[14] == 0 && d[15] == 0);
        assert forall|r: int| 4 <= r < 16 implies #[trigger] x[r] == 0 by {
            assert(r == 4 || r == 5 || r == 6 || r == 7 || r == 8 || r == 9 || r == 10 || r == 11 || r == 12
                || r == 13 || r == 14 || r == 15);
        }
        let row = idct4(x[0], x[1], x[2], x[3]);
        let h = rows(x);
        assert forall|r: int| 0 <= r < 16 implies #[trigger] h[r] == (if r < 4 { row[r] } else { 0 }) by {
            if r >= 4 {
                let b = r / 4 * 4;
                assert(4 <= b && b + 3 < 16);
                assert(x[b] == 0 && x[b + 1] == 0 && x[b + 2] == 0 && x[b + 3] == 0);
            }
        }
        assert forall|r: int| 0 <= r < 16 implies #[trigger] cols(h)[r] == row[r % 4] by {
            let c = r % 4;
            assert(h[c] == row[c] && h[4 + c] == 0 && h[8 + c] == 0 && h[12 + c] == 0);
            lemma_idct4_dc(row[c]);
        }
        if only_dc(coeffMap) {
            assert(coeffMap & 0x62 == 0 ==> {
                &&& (coeffMap >> 1u32) & 1 == 0
                &&& (coeffMap >> 5u32) & 1 == 0
                &&& (coeffMap >> 6u32) & 1 == 0
            }) by (bit_vector);
            assert(d[1] == 0 && d[5] == 0 && d[6] == 0);
            assert(x[1] == 0 && x[2] == 0 && x[3] == 0);
            lemma_idct4_dc(x[0]);
        }
        assert(block_residual(d, qp, skip, coeffMap) =~= inverse_transform(x));
    }
}

/// Does `v` fit in 32 bits?
fn fits64(v: i64) -> (b: bool)
    ensures
        b == fits(v as int),
{
    -2147483648i64 <= v && v <= 2147483647i64
}

/// An arithmetic shift right by one halves, rounding down.
proof fn lemma_shr1_64(x: i64)
    ensures
        (x >> 1u32) as int == x as int / 2,
{
    assert((x >> 1u32) == x / 2) by (bit_vector);
}

/// The one-dimensional inverse transform in 64 bits.
fn idct4_64(a: i64, b: i64, c: i64, d: i64) -> (r: [i64; 4])
    requires
        -0x10_0000_0000_0000 <= a <= 0x10_0000_0000_0000,
        -0x10_0000_0000_0000 <= b <= 0x10_0000_0000_0000,
        -0x10_0000_0000_0000 <= c <= 0x10_0000_0000_0000,
        -0x10_0000_0000_0000 <= d <= 0x10_0000_0000_0000,
    ensures
        forall|i: int| 0 <= i < 4 ==> r@[i] as int == #[trigger] idct4(a as int, b as int, c as int, d as int)[i],
        forall|i: int| 0 <= i < 4 ==> -0x40_0000_0000_0000 <= #[trigger] r@[i] <= 0x40_0000_0000_0000,
{
    proof {
        lemma_shr1_64(b);
        lemma_shr1_64(d);
    }
    let t0 = a + c;
    let t1 = a - c;
    let t2 = (b >> 1) - d;
    let t3 = b + (d >> 1);
    [t0 + t3, t1 + t2, t1 - t2, t0 - t3]
}

/// Do the intermediate values of `idct4` fit in 32 bits?
fn idct4_fits64(a: i64, b: i64, c: i64, d: i64) -> (r: bool)
    requires
        -0x10_0000_0000_0000 <= a <= 0x10_0000_0000_0000,
        -0x10_0000_0000_0000 <= b <= 0x10_0000_0000_0000,
        -0x10_0000_0000_0000 <= c <= 0x10_0000_0000_0000,
        -0x10_0000_0000_0000 <= d <= 0x10_0000_0000_0000,
    ensures
        r == idct4_fits(a as int, b as int, c as int, d as int),
{
    proof {
        lemma_shr1_64(b);
        lemma_shr1_64(d);
    }
    let v = idct4_64(a, b, c, d);
    let r = fits64(a + c) && fits64(a - c) && fits64((b >> 1) - d) && fits64(b + (d >> 1)) && fits64(v[0]) && fits64(
        v[1],
    ) && fits64(v[2]) && fits64(v[3]);
    proof {
        let w = idct4(a as int, b as int, c as int, d as int);
        assert(v@[0] == w[0] && v@[1] == w[1] && v@[2] == w[2] && v@[3] == w[3]);
        if r {
            assert forall|i: int| 0 <= i < 4 implies fits(#[trigger] w[i]) by {
                assert(i == 0 || i == 1 || i == 2 || i == 3);
            }
        }
    }
    r
}

/// Scaling class of raster position `r`.
fn scale_class_exec(r: usize) -> (c: usize)
    requires
        r < 16,
    ensures
        c as int == scale_class(r as int),
        c < 3,
{
    let row = r / 4;
    let col = r % 4;
    if row % 2 == 0 && col % 2 == 0 {
        0
    } else if row % 2 == 1 && col % 2 == 1 {
        2
    } else {
        1
    }
}

/// Does the processing of block `d` stay within 32 bits
/// (`block_fits`)?
pub fn block_fits_check(d: &[i32; 16], qp: u32, skip: bool, coeffMap: u32) -> (r: bool)
    requires
        qp <= 51,
    ensures
        r == block_fits(d@, qp, skip, coeffMap),
{
    let ghost x = dequant(d@, qp, skip);
    let mut xs = [0i64; 16];
    let mut i: usize = 0;
    while i < 16
        invariant
            i <= 16,
            qp <= 51,
            x == dequant(d@, qp, skip),
            forall|k: int| 0 <= k < i ==> #[trigger] xs@[k] as int == x[k],
            forall|k: int| 0 <= k < i ==> -0x1000_0000_0000 <= #[trigger] xs@[k] <= 0x1000_0000_0000,
        decreases 16 - i,
    {
        if i == 0 && skip {
            xs[0] = d[0] as i64;
        } else {
            let sc = scale_exec(qp, scale_class_exec(i));
            let v = d[zigzagIndex[i] as usize] as i64;
            assert(-0x1000_0000_0000 <= v * sc <= 0x1000_0000_0000) by (nonlinear_arith)
                requires -0x8000_0000 <= v <= 0x8000_0000, 0 <= sc <= 29 * 256;
            xs[i] = v * sc as i64;
        }
        i += 1;
    }
    let mut ok = fits64(xs[0]);
    if coeffMap & 0xFF9C != 0 {
        let mut all = true;
        let mut k: usize = 0;
        while k < 16
            invariant
                k <= 16,
                forall|j: int| 0 <= j < 16 ==> #[trigger] xs@[j] as int == x[j],
                all == forall|j: int| 0 <= j < k ==> fits(#[trigger] x[j]),
            decreases 16 - k,
        {
            all = all && fits64(xs[k]);
            k += 1;
        }
        let ghost rx = rows(x);
        let mut rw = [0i64; 16];
        let mut rok = true;
        let mut k: usize = 0;
        while k < 4
            invariant
                k <= 4,
                rx == rows(x),
                forall|j: int| 0 <= j < 16 ==> #[trigger] xs@[j] as int == x[j],
                forall|j: int| 0 <= j < 16 ==> -0x1000_0000_0000 <= #[trigger] xs@[j] <= 0x1000_0000_0000,
                forall|j: int| 0 <= j < 4 * k ==> #[trigger] rw@[j] as int == rx[j],
                forall|j: int| 0 <= j < 4 * k ==> -0x4000_0000_0000 <= #[trigger] rw@[j] <= 0x4000_0000_0000,
                rok == forall|j: int|
                    0 <= j < k ==> #[trigger] idct4_fits(x[4 * j], x[4 * j + 1], x[4 * j + 2], x[4 * j + 3]),
            decreases 4 - k,
        {
            let b = 4 * k;
            rok = rok && idct4_fits64(xs[b], xs[b + 1], xs[b + 2], xs[b + 3]);
            let v = idct4_64(xs[b], xs[b + 1], xs[b + 2], xs[b + 3]);
            rw[b] = v[0];
            rw[b + 1] = v[1];
            rw[b + 2] = v[2];
            rw[b + 3] = v[3];
            proof {
                assert forall|j: int| b <= j < b + 4 implies #[trigger] rw@[j] as int == rx[j] by {
                    assert(j / 4 * 4 == b);
                }
                assert forall|j: int| b <= j < b + 4 implies -0x4000_0000_0000 <= #[trigger] rw@[j] <= 0x4000_0000_0000 by {
                    assert(j / 4 * 4 == b);
                    assert(rx[j] == idct4(x[b as int], x[b + 1], x[b + 2], x[b + 3])[j % 4]);
                }
            }
            k += 1;
        }
        let ghost cx = cols(rx);
        let mut cok = true;
        let mut rnd = true;
        let mut k: usize = 0;
        while k < 4
            invariant
                k <= 4,
                rx == rows(x),
                cx == cols(rx),
                forall|j: int| 0 <= j < 16 ==> #[trigger] rw@[j] as int == rx[j],
                forall|j: int| 0 <= j < 16 ==> -0x4000_0000_0000 <= #[trigger] rw@[j] <= 0x4000_0000_0000,
                cok == forall|j: int| 0 <= j < k ==> #[trigger] idct4_fits(rx[j], rx[4 + j], rx[8 + j], rx[12 + j]),
                rnd == forall|j: int| 0 <= j < 16 && j % 4 < k ==> fits(#[trigger] cx[j] + 32),
            decreases 4 - k,
        {
            let c = idct4_fits64(rw[k], rw[4 + k], rw[8 + k], rw[12 + k]);
            cok = cok && c;
            let v = idct4_64(rw[k], rw[4 + k], rw[8 + k], rw[12 + k]);
            let g = fits64(v[0] + 32) && fits64(v[1] + 32) && fits64(v[2] + 32) && fits64(v[3] + 32);
            proof {
                assert forall|j: int| 0 <= j < 16 && j % 4 == k implies #[trigger] cx[j] == v@[j / 4] as int by {
                    assert(j == k + 4 * (j / 4));
                }
                assert(g == forall|j: int| 0 <= j < 16 && j % 4 == k ==> fits(#[trigger] cx[j] + 32)) by {
                    if g {
                        assert forall|j: int| 0 <= j < 16 && j % 4 == k implies fits(#[trigger] cx[j] + 32) by {
                            assert(j / 4 == 0 || j / 4 == 1 || j / 4 == 2 || j / 4 == 3);
                        }
                    } else {
                        if forall|j: int| 0 <= j < 16 && j % 4 == k ==> fits(#[trigger] cx[j] + 32) {
                            assert(fits(cx[k as int] + 32));
                            assert(fits(cx[k + 4] + 32));
                            assert(fits(cx[k + 8] + 32));
                            assert(fits(cx[k + 12] + 32));
                        }
                    }
                }
            }
            rnd = rnd && g;
            k += 1;
        }
        ok = ok && all && rok && cok && rnd;
    } else if coeffMap & 0x62 == 0 {
        ok = ok && fits64(xs[0] + 32);
    } else {
        let f = fits64(xs[1]) && fits64(xs[2]) && fits64(xs[3]) && idct4_fits64(xs[0], xs[1], xs[2], xs[3]);
        let v = idct4_64(xs[0], xs[1], xs[2], xs[3]);
        let g = fits64(v[0] + 32) && fits64(v[1] + 32) && fits64(v[2] + 32) && fits64(v[3] + 32);
        ok = ok && f && g;
    }
    ok
}

/// The four-point Hadamard transform in 64 bits.
fn hadamard4_64(a: i64, b: i64, c: i64, d: i64) -> (r: [i64; 4])
    requires
        -0x10_0000_0000_0000 <= a <= 0x10_0000_0000_0000,
        -0x10_0000_0000_0000 <= b <= 0x10_0000_0000_0000,
        -0x10_0000_0000_0000 <= c <= 0x10_0000_0000_0000,
        -0x10_0000_0000_0000 <= d <= 0x10_0000_0000_0000,
    ensures
        forall|i: int| 0 <= i < 4 ==> r@[i] as int == #[trigger] hadamard4(a as int, b as int, c as int, d as int)[i],
{
    [(a + c) + (b + d), (a - c) + (b - d), (a - c) - (b - d), (a + c) - (b + d)]
}

/// Do the intermediate values of `hadamard4` fit in 32 bits?
fn hadamard4_fits64(a: i64, b: i64, c: i64, d: i64) -> (r: bool)
    requires
        -0x10_0000_0000_0000 <= a <= 0x10_0000_0000_0000,
        -0x10_0000_0000_0000 <= b <= 0x10_0000_0000_0000,
        -0x10_0000_0000_0000 <= c <= 0x10_0000_0000_0000,
        -0x10_0000_0000_0000 <= d <= 0x10_0000_0000_0000,
    ensures
        r == hadamard4_fits(a as int, b as int, c as int, d as int),
{
    let v = hadamard4_64(a, b, c, d);
    let r = fits64(a + c) && fits64(a - c) && fits64(b - d) && fits64(b + d) && fits64(v[0]) && fits64(v[1])
        && fits64(v[2]) && fits64(v[3]);
    proof {
        let w = hadamard4(a as int, b as int, c as int, d as int);
        assert(v@[0] == w[0] && v@[1] == w[1] && v@[2] == w[2] && v@[3] == w[3]);
        if r {
            assert forall|i: int| 0 <= i < 4 implies fits(#[trigger] w[i]) by {
                assert(i == 0 || i == 1 || i == 2 || i == 3);
            }
        }
    }
    r
}

/// Does the scaling of luma DC value `v` stay within 32 bits
/// (`luma_dc_scale_fits`)?
fn luma_scale_fits64(v: i64, qp: u32) -> (r: bool)
    requires
        qp <= 51,
        -0x100_0000_0000 <= v <= 0x100_0000_0000,
    ensures
        r == luma_dc_scale_fits(v as int, qp),
{
    proof {
        lemma2_to64();
    }
    if qp >= 12 {
        let f = dc_level_shifted(qp, qp / 6 - 2) as i64;
        assert(-0x100_0000_0000_0000 <= v * f <= 0x100_0000_0000_0000) by (nonlinear_arith)
            requires -0x100_0000_0000 <= v <= 0x100_0000_0000, 0 < f <= 18 * 256;
        fits64(v * f)
    } else {
        let f = dc_level_shifted(qp, 0) as i64;
        assert(-0x100_0000_0000_0000 <= v * f <= 0x100_0000_0000_0000) by (nonlinear_arith)
            requires -0x100_0000_0000 <= v <= 0x100_0000_0000, 0 < f <= 18 * 256;
        let add: i64 = if qp < 6 { 2 } else { 1 };
        assert(add == pow2((1 - qp / 6) as nat));
        fits64(v * f) && fits64(v * f + add)
    }
}

/// Does the processing of the luma DC coefficients `d` stay within 32
/// bits (`luma_dc_fits`)?
pub fn luma_dc_fits_check(d: &[i32; 16], qp: u32) -> (r: bool)
    requires
        qp <= 51,
    ensures
        r == luma_dc_fits(d@, qp),
{
    let ghost x = luma_dc_scan(d@);
    let ghost h = hadamard_rows(x);
    let ghost c = hadamard_cols(h);
    let mut xs = [0i64; 16];
    let mut i: usize = 0;
    while i < 16
        invariant
            i <= 16,
            x == luma_dc_scan(d@),
            forall|k: int| 0 <= k < i ==> #[trigger] xs@[k] as int == x[k],
        decreases 16 - i,
    {
        xs[i] = d[zigzagIndex[i] as usize] as i64;
        i += 1;
    }
    let mut hs = [0i64; 16];
    let mut rok = true;
    let mut k: usize = 0;
    while k < 4
        invariant
            k <= 4,
            h == hadamard_rows(x),
            forall|j: int| 0 <= j < 16 ==> #[trigger] xs@[j] as int == x[j],
            forall|j: int| 0 <= j < 16 ==> -0x8000_0000 <= #[trigger] x[j] <= 0x8000_0000,
            forall|j: int| 0 <= j < 4 * k ==> #[trigger] hs@[j] as int == h[j],
            forall|j: int| 0 <= j < 4 * k ==> -0x4_0000_0000 <= #[trigger] hs@[j] <= 0x4_0000_0000,
            rok == forall|j: int|
                0 <= j < k ==> #[trigger] hadamard4_fits(x[4 * j], x[4 * j + 1], x[4 * j + 2], x[4 * j + 3]),
        decreases 4 - k,
    {
        let b = 4 * k;
        proof {
            assert(-0x8000_0000 <= x[b as int] <= 0x8000_0000);
            assert(-0x8000_0000 <= x[b + 1] <= 0x8000_0000);
            assert(-0x8000_0000 <= x[b + 2] <= 0x8000_0000);
            assert(-0x8000_0000 <= x[b + 3] <= 0x8000_0000);
        }
        rok = rok && hadamard4_fits64(xs[b], xs[b + 1], xs[b + 2], xs[b + 3]);
        let v = hadamard4_64(xs[b], xs[b + 1], xs[b + 2], xs[b + 3]);
        hs[b] = v[0];
        hs[b + 1] = v[1];
        hs[b + 2] = v[2];
        hs[b + 3] = v[3];
        proof {
            assert forall|j: int| b <= j < b + 4 implies #[trigger] hs@[j] as int == h[j] by {
                assert(j / 4 * 4 == b);
            }
            assert forall|j: int| b <= j < b + 4 implies -0x4_0000_0000 <= #[trigger] hs@[j] <= 0x4_0000_0000 by {
                assert(j / 4 * 4 == b);
            }
        }
        k += 1;
    }
    let mut cok = true;
    let mut sok = true;
    let mut k: usize = 0;
    while k < 4
        invariant
            k <= 4,
            qp <= 51,
            h == hadamard_rows(x),
            c == hadamard_cols(h),
            forall|j: int| 0 <= j < 16 ==> #[trigger] hs@[j] as int == h[j],
            forall|j: int| 0 <= j < 16 ==> -0x4_0000_0000 <= #[trigger] hs@[j] <= 0x4_0000_0000,
            cok == forall|j: int| 0 <= j < k ==> #[trigger] hadamard4_fits(h[j], h[4 + j], h[8 + j], h[12 + j]),
            sok == forall|j: int| 0 <= j < 16 && j % 4 < k ==> luma_dc_scale_fits(#[trigger] c[j], qp),
        decreases 4 - k,
    {
        let f = hadamard4_fits64(hs[k], hs[4 + k], hs[8 + k], hs[12 + k]);
        cok = cok && f;
        let v = hadamard4_64(hs[k], hs[4 + k], hs[8 + k], hs[12 + k]);
        proof {
            let a0 = hs@[k as int] as int;
            let a1 = hs@[4 + k] as int;
            let a2 = hs@[8 + k] as int;
            let a3 = hs@[12 + k] as int;
            let w = hadamard4(a0, a1, a2, a3);
            assert(v@[0] == w[0] && v@[1] == w[1] && v@[2] == w[2] && v@[3] == w[3]);
        }
        let g = luma_scale_fits64(v[0], qp) && luma_scale_fits64(v[1], qp) && luma_scale_fits64(v[2], qp)
            && luma_scale_fits64(v[3], qp);
        proof {
            assert forall|j: int| 0 <= j < 16 && j % 4 == k implies #[trigger] c[j] == v@[j / 4] as int by {
                assert(j == k + 4 * (j / 4));
            }
            assert(g == forall|j: int| 0 <= j < 16 && j % 4 == k ==> luma_dc_scale_fits(#[trigger] c[j], qp)) by {
                if g {
                    assert forall|j: int| 0 <= j < 16 && j % 4 == k implies luma_dc_scale_fits(#[trigger] c[j], qp) by {
                        assert(j / 4 == 0 || j / 4 == 1 || j / 4 == 2 || j / 4 == 3);
                    }
                } else {
                    if forall|j: int| 0 <= j < 16 && j % 4 == k ==> luma_dc_scale_fits(#[trigger] c[j], qp) {
                        assert(luma_dc_scale_fits(c[k as int], qp));
                        assert(luma_dc_scale_fits(c[k + 4], qp));
                        assert(luma_dc_scale_fits(c[k + 8], qp));
                        assert(luma_dc_scale_fits(c[k + 12], qp));
                    }
                }
            }
        }
        sok = sok && g;
        k += 1;
    }
    rok && cok && sok
}

/// Does the processing of one 2x2 chroma DC block stay within 32 bits
/// (`chroma_block_fits`)?
fn chroma_block_fits64(a: i64, b: i64, c: i64, d: i64, qp: u32) -> (r: bool)
    requires
        qp <= 51,
        -0x8000_0000 <= a <= 0x8000_0000,
        -0x8000_0000 <= b <= 0x8000_0000,
        -0x8000_0000 <= c <= 0x8000_0000,
        -0x8000_0000 <= d <= 0x8000_0000,
    ensures
        r == chroma_block_fits(a as int, b as int, c as int, d as int, qp),
{
    let v = [(a + c) + (b + d), (a + c) - (b + d), (a - c) + (b - d), (a - c) - (b - d)];
    let f: i64 = if qp >= 6 { dc_level_shifted(qp, qp / 6 - 1) as i64 } else { dc_level_shifted(qp, 0) as i64 };
    proof {
        lemma2_to64();
    }
    let mut ok = fits64(a + c) && fits64(a - c) && fits64(b - d) && fits64(b + d);
    let mut i: usize = 0;
    let ghost w = chroma_dc_block(a as int, b as int, c as int, d as int);
    while i < 4
        invariant
            i <= 4,
            qp <= 51,
            w == chroma_dc_block(a as int, b as int, c as int, d as int),
            forall|j: int| 0 <= j < 4 ==> #[trigger] v@[j] as int == w[j],
            forall|j: int| 0 <= j < 4 ==> -0x4_0000_0000 <= #[trigger] v@[j] <= 0x4_0000_0000,
            f as int == if qp >= 6 { dc_level(qp) * pow2((qp / 6 - 1) as nat) } else { dc_level(qp) * pow2(0) },
            0 < f <= 18 * 256,
            ok == ((fits(a + c) && fits(a - c) && fits(b - d) && fits(b + d)) && forall|j: int|
                0 <= j < i ==> {
                    let u = #[trigger] w[j];
                    &&& fits(u)
                    &&& if qp >= 6 {
                        fits(u * (dc_level(qp) * pow2((qp / 6 - 1) as nat)))
                    } else {
                        fits(u * dc_level(qp))
                    }
                }),
        decreases 4 - i,
    {
        let u = v[i];
        assert(-0x100_0000_0000_0000 <= u * f <= 0x100_0000_0000_0000) by (nonlinear_arith)
            requires -0x4_0000_0000 <= u <= 0x4_0000_0000, 0 < f <= 18 * 256;
        proof {
            lemma2_to64();
        }
        ok = ok && fits64(u) && fits64(u * f);
        i += 1;
    }
    ok
}

/// Does the processing of the two chroma DC blocks `d` stay within 32
/// bits (`chroma_dc_fits`)?
pub fn chroma_dc_fits_check(d: &[i32; 8], qp: u32) -> (r: bool)
    requires
        qp <= 51,
    ensures
        r == chroma_dc_fits(d@, qp),
{
    chroma_block_fits64(d[0] as i64, d[1] as i64, d[2] as i64, d[3] as i64, qp) && chroma_block_fits64(
        d[4] as i64,
        d[5] as i64,
        d[6] as i64,
        d[7] as i64,
        qp,
    )
}

} // verus!
