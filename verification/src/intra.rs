//! Intra prediction: the 4x4 and 16x16 luma and the chroma prediction
//! modes, computed from the samples above and left of the block, and the
//! addition of the residual.
use vstd::prelude::*;
use crate::defs::{EMPTY_RESIDUAL_INDICATOR, HANTRO_NOK, HANTRO_OK};
use crate::macroblock::{
    h264bsdMbPartPredMode, h264bsdPredModeIntra16x16, macroblockLayer_t, mbStorage_t, I_16x16_0_0_0, I_4x4,
    PRED_MODE_INTER, PRED_MODE_INTRA4x4, P_8x8ref0,
};
use crate::neighbour::{
    above_left_of, above_of, above_right_of, blk_at, blk_x, blk_y, h264bsdGetNeighbourMb, h264bsdIsNeighbourAvailable,
    h264bsdNeighbour4x4BlockA, h264bsdNeighbour4x4BlockB, h264bsdNeighbour4x4BlockC, h264bsdNeighbour4x4BlockD, left_of,
    neighbour_mb, neighbour_t,
};
use crate::image::{h264bsdWriteMacroblock, image_t};
use crate::reconstruct::{clip1, in_block};
use crate::util::{lemma_shr_i32, udiv, IS_RESIDUAL_EMPTY};

verus! {

/// (u + 2v + w + 2) / 4, the three-tap filter of the prediction modes.
pub open spec fn f3(u: int, v: int, w: int) -> int {
    (u + 2 * v + w + 2) / 4
}

/// (u + v + 1) / 2, the two-tap filter.
pub open spec fn f2(u: int, v: int) -> int {
    (u + v + 1) / 2
}

/// Neighbouring sample p[x, y] of a 4x4 block: the row above
/// (y == -1, x = -1..7) from `a`, the column left (x == -1, y = 0..3)
/// from `l`.
pub open spec fn p(a: Seq<u8>, l: Seq<u8>, x: int, y: int) -> int {
    if y < 0 {
        a[x + 1] as int
    } else {
        l[y + 1] as int
    }
}

/// Sample (x, y) of the 4x4 prediction of mode `mode` (0 vertical,
/// 1 horizontal, 3 diagonal down left, 4 diagonal down right, 5 vertical
/// right, 6 horizontal down, 7 vertical left, 8 horizontal up).
pub open spec fn intra4x4_sample(mode: int, a: Seq<u8>, l: Seq<u8>, x: int, y: int) -> int {
    if mode == 0 {
        p(a, l, x, -1)
    } else if mode == 1 {
        p(a, l, -1, y)
    } else if mode == 3 {
        if x == 3 && y == 3 {
            (p(a, l, 6, -1) + 3 * p(a, l, 7, -1) + 2) / 4
        } else {
            f3(p(a, l, x + y, -1), p(a, l, x + y + 1, -1), p(a, l, x + y + 2, -1))
        }
    } else if mode == 4 {
        if x > y {
            f3(p(a, l, x - y - 2, -1), p(a, l, x - y - 1, -1), p(a, l, x - y, -1))
        } else if x < y {
            f3(p(a, l, -1, y - x - 2), p(a, l, -1, y - x - 1), p(a, l, -1, y - x))
        } else {
            f3(p(a, l, 0, -1), p(a, l, -1, -1), p(a, l, -1, 0))
        }
    } else if mode == 5 {
        let z = 2 * x - y;
        let h = y / 2;
        if z >= 0 && z % 2 == 0 {
            f2(p(a, l, x - h - 1, -1), p(a, l, x - h, -1))
        } else if z > 0 {
            f3(p(a, l, x - h - 2, -1), p(a, l, x - h - 1, -1), p(a, l, x - h, -1))
        } else if z == -1 {
            f3(p(a, l, -1, 0), p(a, l, -1, -1), p(a, l, 0, -1))
        } else {
            f3(p(a, l, -1, y - 1), p(a, l, -1, y - 2), p(a, l, -1, y - 3))
        }
    } else if mode == 6 {
        let z = 2 * y - x;
        let h = x / 2;
        if z >= 0 && z % 2 == 0 {
            f2(p(a, l, -1, y - h - 1), p(a, l, -1, y - h))
        } else if z > 0 {
            f3(p(a, l, -1, y - h - 2), p(a, l, -1, y - h - 1), p(a, l, -1, y - h))
        } else if z == -1 {
            f3(p(a, l, -1, 0), p(a, l, -1, -1), p(a, l, 0, -1))
        } else {
            f3(p(a, l, x - 1, -1), p(a, l, x - 2, -1), p(a, l, x - 3, -1))
        }
    } else if mode == 7 {
        let h = y / 2;
        if y % 2 == 0 {
            f2(p(a, l, x + h, -1), p(a, l, x + h + 1, -1))
        } else {
            f3(p(a, l, x + h, -1), p(a, l, x + h + 1, -1), p(a, l, x + h + 2, -1))
        }
    } else {
        let z = x + 2 * y;
        let h = x / 2;
        if z < 5 && z % 2 == 0 {
            f2(p(a, l, -1, y + h), p(a, l, -1, y + h + 1))
        } else if z < 5 {
            f3(p(a, l, -1, y + h), p(a, l, -1, y + h + 1), p(a, l, -1, y + h + 2))
        } else if z == 5 {
            (p(a, l, -1, 2) + 3 * p(a, l, -1, 3) + 2) / 4
        } else {
            p(a, l, -1, 3)
        }
    }
}

/// The 4x4 block of mode `mode` holds the prediction, row by row.
pub open spec fn is_pred4x4(d: Seq<u8>, mode: int, a: Seq<u8>, l: Seq<u8>) -> bool {
    &&& d.len() == 16
    &&& forall|i: int| 0 <= i < 16 ==> #[trigger] d[i] as int == intra4x4_sample(mode, a, l, i % 4, i / 4)
}

/// `i` is one of 0..16.
proof fn lemma_cases16(i: int)
    requires
        0 <= i < 16,
    ensures
        i == 0 || i == 1 || i == 2 || i == 3 || i == 4 || i == 5 || i == 6 || i == 7 || i == 8 || i == 9 || i == 10 || i == 11
            || i == 12 || i == 13 || i == 14 || i == 15,
{
}

/// The three-tap filter.
fn tap3(u: u8, v: u8, w: u8) -> (r: u8)
    ensures
        r as int == f3(u as int, v as int, w as int),
{
    ((u as u32 + 2 * v as u32 + w as u32 + 2) / 4) as u8
}

/// The two-tap filter.
fn tap2(u: u8, v: u8) -> (r: u8)
    ensures
        r as int == f2(u as int, v as int),
{
    ((u as u32 + v as u32 + 1) / 2) as u8
}

/// Intra 4x4 vertical prediction from the samples above, `a`
/// (p[-1,-1], p[0,-1], ..., p[7,-1]).
fn Intra4x4VerticalPrediction(a: &[u8; 9]) -> (data: [u8; 16])
    ensures
        forall|l: Seq<u8>| #[trigger] is_pred4x4(data@, 0, a@, l),
{
    let d = [a[1], a[2], a[3], a[4], a[1], a[2], a[3], a[4], a[1], a[2], a[3], a[4], a[1], a[2], a[3], a[4]];
    proof {
        assert forall|l: Seq<u8>| #[trigger] is_pred4x4(d@, 0, a@, l) by {
            assert forall|i: int| 0 <= i < 16 implies #[trigger] d@[i] as int == intra4x4_sample(0, a@, l, i % 4, i / 4) by {
                lemma_cases16(i);
            }
        }
    }
    d
}

/// Intra 4x4 horizontal prediction from the samples left, `l`
/// (p[-1,-1], p[-1,0], ..., p[-1,3]).
fn Intra4x4HorizontalPrediction(l: &[u8; 5]) -> (data: [u8; 16])
    ensures
        forall|a: Seq<u8>| #[trigger] is_pred4x4(data@, 1, a, l@),
{
    let d = [l[1], l[1], l[1], l[1], l[2], l[2], l[2], l[2], l[3], l[3], l[3], l[3], l[4], l[4], l[4], l[4]];
    proof {
        assert forall|a: Seq<u8>| #[trigger] is_pred4x4(d@, 1, a, l@) by {
            assert forall|i: int| 0 <= i < 16 implies #[trigger] d@[i] as int == intra4x4_sample(1, a, l@, i % 4, i / 4) by {
                lemma_cases16(i);
            }
        }
    }
    d
}

/// The DC value of a 4x4 block: the rounded mean of the available
/// neighbours above (`availableB`) and left (`availableA`), else 128.
pub open spec fn dc4x4(a: Seq<u8>, l: Seq<u8>, availableA: bool, availableB: bool) -> int {
    let sa = a[1] + a[2] + a[3] + a[4];
    let sl = l[1] + l[2] + l[3] + l[4];
    if availableA && availableB {
        (sa + sl + 4) / 8
    } else if availableA {
        (sl + 2) / 4
    } else if availableB {
        (sa + 2) / 4
    } else {
        128
    }
}

/// Intra 4x4 DC prediction.
fn Intra4x4DcPrediction(a: &[u8; 9], l: &[u8; 5], availableA: bool, availableB: bool) -> (data: [u8; 16])
    ensures
        forall|i: int| 0 <= i < 16 ==> #[trigger] data@[i] as int == dc4x4(a@, l@, availableA, availableB),
{
    let sa = a[1] as u32 + a[2] as u32 + a[3] as u32 + a[4] as u32;
    let sl = l[1] as u32 + l[2] as u32 + l[3] as u32 + l[4] as u32;
    let tmp: u32 = if availableA && availableB {
        (sa + sl + 4) / 8
    } else if availableA {
        (sl + 2) / 4
    } else if availableB {
        (sa + 2) / 4
    } else {
        128
    };
    let v = tmp as u8;
    [v; 16]
}

/// Intra 4x4 diagonal down left prediction.
fn Intra4x4DiagonalDownLeftPrediction(a: &[u8; 9]) -> (data: [u8; 16])
    ensures
        forall|l: Seq<u8>| #[trigger] is_pred4x4(data@, 3, a@, l),
{
    let v0 = tap3(a[1], a[2], a[3]);
    let v1 = tap3(a[2], a[3], a[4]);
    let v2 = tap3(a[3], a[4], a[5]);
    let v3 = tap3(a[4], a[5], a[6]);
    let v4 = tap3(a[5], a[6], a[7]);
    let v5 = tap3(a[6], a[7], a[8]);
    let v6 = ((a[7] as u32 + 3 * a[8] as u32 + 2) / 4) as u8;
    let d = [v0, v1, v2, v3, v1, v2, v3, v4, v2, v3, v4, v5, v3, v4, v5, v6];
    proof {
        assert forall|l: Seq<u8>| #[trigger] is_pred4x4(d@, 3, a@, l) by {
            assert forall|i: int| 0 <= i < 16 implies #[trigger] d@[i] as int == intra4x4_sample(3, a@, l, i % 4, i / 4) by {
                lemma_cases16(i);
            }
        }
    }
    d
}

/// Intra 4x4 diagonal down right prediction; `a[0]` and `l[0]` are both
/// the sample above left.
fn Intra4x4DiagonalDownRightPrediction(a: &[u8; 9], l: &[u8; 5]) -> (data: [u8; 16])
    requires
        a[0] == l[0],
    ensures
        is_pred4x4(data@, 4, a@, l@),
{
    let c = tap3(a[1], a[0], l[1]);
    let r1 = tap3(a[0], a[1], a[2]);
    let r2 = tap3(a[1], a[2], a[3]);
    let r3 = tap3(a[2], a[3], a[4]);
    let d1 = tap3(l[0], l[1], l[2]);
    let d2 = tap3(l[1], l[2], l[3]);
    let d3 = tap3(l[2], l[3], l[4]);
    let d = [c, r1, r2, r3, d1, c, r1, r2, d2, d1, c, r1, d3, d2, d1, c];
    proof {
        assert forall|i: int| 0 <= i < 16 implies #[trigger] d@[i] as int == intra4x4_sample(4, a@, l@, i % 4, i / 4) by {
            lemma_cases16(i);
        }
    }
    d
}

/// Intra 4x4 vertical right prediction.
#[verifier::rlimit(80)]
fn Intra4x4VerticalRightPrediction(a: &[u8; 9], l: &[u8; 5]) -> (data: [u8; 16])
    requires
        a[0] == l[0],
    ensures
        is_pred4x4(data@, 5, a@, l@),
{
    let e0 = tap2(a[0], a[1]);
    let e1 = tap2(a[1], a[2]);
    let e2 = tap2(a[2], a[3]);
    let e3 = tap2(a[3], a[4]);
    let o0 = tap3(a[0], a[1], a[2]);
    let o1 = tap3(a[1], a[2], a[3]);
    let o2 = tap3(a[2], a[3], a[4]);
    let m = tap3(a[1], a[0], l[1]);
    let q8 = tap3(l[2], l[1], l[0]);
    let q12 = tap3(l[3], l[2], l[1]);
    let d = [e0, e1, e2, e3, m, o0, o1, o2, q8, e0, e1, e2, q12, m, o0, o1];
    proof {
        assert forall|i: int| 0 <= i < 16 implies #[trigger] d@[i] as int == intra4x4_sample(5, a@, l@, i % 4, i / 4) by {
            lemma_cases16(i);
        }
    }
    d
}

/// Intra 4x4 horizontal down prediction.
#[verifier::spinoff_prover]
#[verifier::rlimit(50)]
fn Intra4x4HorizontalDownPrediction(a: &[u8; 9], l: &[u8; 5]) -> (data: [u8; 16])
    requires
        a[0] == l[0],
    ensures
        is_pred4x4(data@, 6, a@, l@),
{
    let e0 = tap2(l[0], l[1]);
    let e1 = tap2(l[1], l[2]);
    let e2 = tap2(l[2], l[3]);
    let e3 = tap2(l[3], l[4]);
    let o0 = tap3(l[0], l[1], l[2]);
    let o1 = tap3(l[1], l[2], l[3]);
    let o2 = tap3(l[2], l[3], l[4]);
    let m = tap3(a[1], a[0], l[1]);
    let t2 = tap3(a[2], a[1], a[0]);
    let t3 = tap3(a[3], a[2], a[1]);
    let d = [e0, m, t2, t3, e1, o0, e0, m, e2, o1, e1, o0, e3, o2, e2, o1];
    proof {
        assert forall|i: int| 0 <= i < 16 implies #[trigger] d@[i] as int == intra4x4_sample(6, a@, l@, i % 4, i / 4) by {
            lemma_cases16(i);
        }
    }
    d
}

/// Intra 4x4 vertical left prediction.
#[verifier::spinoff_prover]
#[verifier::rlimit(50)]
fn Intra4x4VerticalLeftPrediction(a: &[u8; 9]) -> (data: [u8; 16])
    ensures
        forall|l: Seq<u8>| #[trigger] is_pred4x4(data@, 7, a@, l),
{
    let e0 = tap2(a[1], a[2]);
    let e1 = tap2(a[2], a[3]);
    let e2 = tap2(a[3], a[4]);
    let e3 = tap2(a[4], a[5]);
    let o0 = tap3(a[1], a[2], a[3]);
    let o1 = tap3(a[2], a[3], a[4]);
    let o2 = tap3(a[3], a[4], a[5]);
    let o3 = tap3(a[4], a[5], a[6]);
    let d8 = tap2(a[5], a[6]);
    let d12 = tap3(a[5], a[6], a[7]);
    let d = [e0, e1, e2, e3, o0, o1, o2, o3, e1, e2, e3, d8, o1, o2, o3, d12];
    proof {
        assert forall|l: Seq<u8>| #[trigger] is_pred4x4(d@, 7, a@, l) by {
            assert forall|i: int| 0 <= i < 16 implies #[trigger] d@[i] as int == intra4x4_sample(7, a@, l, i % 4, i / 4) by {
                lemma_cases16(i);
            }
        }
    }
    d
}

/// Intra 4x4 horizontal up prediction.
#[verifier::spinoff_prover]
#[verifier::rlimit(50)]
fn Intra4x4HorizontalUpPrediction(l: &[u8; 5]) -> (data: [u8; 16])
    ensures
        forall|a: Seq<u8>| #[trigger] is_pred4x4(data@, 8, a, l@),
{
    let e0 = tap2(l[1], l[2]);
    let e1 = tap2(l[2], l[3]);
    let e2 = tap2(l[3], l[4]);
    let o0 = tap3(l[1], l[2], l[3]);
    let o1 = tap3(l[2], l[3], l[4]);
    let z5 = ((l[3] as u32 + 3 * l[4] as u32 + 2) / 4) as u8;
    let v = l[4];
    let d = [e0, o0, e1, o1, e1, o1, e2, z5, e2, z5, v, v, v, v, v, v];
    proof {
        assert forall|a: Seq<u8>| #[trigger] is_pred4x4(d@, 8, a, l@) by {
            assert forall|i: int| 0 <= i < 16 implies #[trigger] d@[i] as int == intra4x4_sample(8, a, l@, i % 4, i / 4) by {
                lemma_cases16(i);
            }
        }
    }
    d
}


/// Column of the top-left sample of each 4x4 luma block.
pub const h264bsdBlockX: [u32; 16] = [0, 4, 0, 4, 8, 12, 8, 12, 0, 4, 0, 4, 8, 12, 8, 12];

/// Row of the top-left sample of each 4x4 luma block.
pub const h264bsdBlockY: [u32; 16] = [0, 0, 4, 4, 0, 0, 4, 4, 8, 8, 12, 12, 8, 8, 12, 12];

/// The tables give the block positions.
pub(crate) fn block_xy(b: u32) -> (r: (usize, usize))
    requires
        b < 16,
    ensures
        r.0 == 4 * blk_x(b as int),
        r.1 == 4 * blk_y(b as int),
{
    proof {
        lemma_cases16(b as int);
    }
    (h264bsdBlockX[b as usize] as usize, h264bsdBlockY[b as usize] as usize)
}

/// Sample `k` of the 4x4 prediction block written into a macroblock
/// array at (x, y).
pub open spec fn in_4x4(k: int, x: int, y: int, stride: int, base: int) -> bool {
    &&& base + y * stride + x <= k
    &&& (k - base - y * stride - x) % stride < 4
    &&& (k - base - y * stride - x) / stride < 4
}

/// Get the neighbouring samples of 4x4 luma block `blockNum` of the
/// macroblock in `data`: `a` gets the sample above left and the eight
/// above (the last four above right), `l` the sample above left and the
/// four left. Inside the macroblock they come from `data`, on its edges
/// from `above` (the row above the macroblock, from the sample above left
/// on) and `left` (the column left of it).
fn Get4x4NeighbourPels(data: &[u8; 384], above: &[u8; 39], left: &[u8; 32], blockNum: u32) -> (r: ([u8; 9], [u8; 5]))
    requires
        blockNum < 16,
    ensures
        forall|k: int| 0 <= k < 9 ==> #[trigger] r.0@[k] == pels_a(data@, above@, left@, blockNum as int, k),
        forall|k: int| 0 <= k < 5 ==> #[trigger] r.1@[k] == pels_l(data@, above@, left@, blockNum as int, k),
{
    let (x, y) = block_xy(blockNum);
    let mut a: [u8; 9] = [0; 9];
    let mut l: [u8; 5] = [0; 5];
    /* A and D */
    if x == 0 {
        l[1] = left[y];
        l[2] = left[y + 1];
        l[3] = left[y + 2];
        l[4] = left[y + 3];
    } else {
        l[1] = data[y * 16 + x - 1];
        l[2] = data[y * 16 + x - 1 + 16];
        l[3] = data[y * 16 + x - 1 + 32];
        l[4] = data[y * 16 + x - 1 + 48];
    }
    /* B, C and D */
    if y == 0 {
        l[0] = above[x];
        a[0] = above[x];
        let mut k: usize = 1;
        while k < 9
            invariant
                1 <= k <= 9,
                x <= 12,
                a@[0] == above@[x as int],
                forall|j: int| 1 <= j < k ==> #[trigger] a@[j] == above@[x + j],
            decreases 9 - k,
        {
            a[k] = above[x + k];
            k += 1;
        }
    } else {
        let mut k: usize = 1;
        while k < 9
            invariant
                1 <= k <= 9,
                x <= 12,
                4 <= y <= 12,
                forall|j: int| 1 <= j < k ==> #[trigger] a@[j] == data@[(y - 1) * 16 + x + j - 1],
            decreases 9 - k,
        {
            a[k] = data[(y - 1) * 16 + x + k - 1];
            k += 1;
        }
        let t = if x == 0 {
            left[y - 1]
        } else {
            data[(y - 1) * 16 + x - 1]
        };
        l[0] = t;
        a[0] = t;
    }
    (a, l)
}

/// Write a 4x4 block into the luma of the macroblock array at the
/// position of block `blockNum`.
fn Write4x4To16x16(data: &mut [u8; 384], data4x4: &[u8; 16], blockNum: u32)
    requires
        blockNum < 16,
    ensures
        ({
            let x = 4 * blk_x(blockNum as int);
            let y = 4 * blk_y(blockNum as int);
            &&& forall|r: int, c: int|
                0 <= r < 4 && 0 <= c < 4 ==> #[trigger] final(data)@[(y + r) * 16 + x + c] == data4x4@[4 * r + c]
            &&& forall|k: int| 0 <= k < 384 && !in_4x4(k, x, y, 16, 0) ==> final(data)@[k] == old(data)@[k]
        }),
{
    let (x, y) = block_xy(blockNum);
    let ghost d0 = data@;
    let mut r: usize = 0;
    while r < 4
        invariant
            r <= 4,
            x <= 12,
            y <= 12,
            forall|rr: int, c: int| 0 <= rr < r && 0 <= c < 4 ==> #[trigger] data@[(y + rr) * 16 + x + c] == data4x4@[4 * rr + c],
            forall|k: int| 0 <= k < 384 && !(in_4x4(k, x as int, y as int, 16, 0) && (k - y * 16 - x) / 16 < r) ==> data@[k] == d0[k],
        decreases 4 - r,
    {
        let mut c: usize = 0;
        while c < 4
            invariant
                r < 4,
                c <= 4,
                x <= 12,
                y <= 12,
                forall|rr: int, cc: int|
                    0 <= rr < r && 0 <= cc < 4 ==> #[trigger] data@[(y + rr) * 16 + x + cc] == data4x4@[4 * rr + cc],
                forall|cc: int| 0 <= cc < c ==> #[trigger] data@[(y + r) * 16 + x + cc] == data4x4@[4 * r + cc],
                forall|k: int|
                    0 <= k < 384 && !(in_4x4(k, x as int, y as int, 16, 0) && ((k - y * 16 - x) / 16 < r || (k - y * 16 - x)
                        / 16 == r && (k - y * 16 - x) % 16 < c)) ==> data@[k] == d0[k],
            decreases 4 - c,
        {
            data[(y + r) * 16 + x + c] = data4x4[4 * r + c];
            c += 1;
        }
        r += 1;
    }
}

/// Position in the macroblock array of the top-left sample of block
/// `b`: luma blocks 0..16, Cb blocks 16..20, Cr blocks 20..24.
pub open spec fn block_pos(b: int) -> int {
    if b < 16 {
        64 * blk_y(b) + 4 * blk_x(b)
    } else if b < 20 {
        256 + 32 * ((b - 16) / 2) + 4 * ((b - 16) % 2)
    } else {
        320 + 32 * ((b - 20) / 2) + 4 * ((b - 20) % 2)
    }
}

/// Row length of the component of block `b`.
pub open spec fn block_stride(b: int) -> int {
    if b < 16 {
        16
    } else {
        8
    }
}

/// Sample `k` of the macroblock array lies in block `b`.
pub open spec fn in_block4(k: int, b: int) -> bool {
    let s = block_stride(b);
    let o = block_pos(b);
    &&& o <= k
    &&& (k - o) % s < 4
    &&& (k - o) / s < 4
}

/// The residual levels fit the clipping of the sum.
pub open spec fn residual_ok(residual: Seq<i32>) -> bool {
    residual[0] != EMPTY_RESIDUAL_INDICATOR as i32 ==> forall|k: int| 0 <= k < 16 ==> -512 <= #[trigger] residual[k] <= 512
}

/// Clip to 0..255.
fn clip_u8(v: i32) -> (r: u8)
    ensures
        r as int == clip1(v as int),
{
    if v < 0 {
        0
    } else if v > 255 {
        255
    } else {
        v as u8
    }
}

/// Add the residual of block `blockNum` to the prediction in the
/// macroblock array, clipping each sum to 0..255; an empty residual
/// leaves the prediction.
pub fn h264bsdAddResidual(data: &mut [u8; 384], residual: &[i32; 16], blockNum: u32)
    requires
        blockNum < 24,
        residual_ok(residual@),
    ensures
        residual@[0] == EMPTY_RESIDUAL_INDICATOR as i32 ==> final(data)@ == old(data)@,
        residual@[0] != EMPTY_RESIDUAL_INDICATOR as i32 ==> forall|r: int, c: int|
            0 <= r < 4 && 0 <= c < 4 ==> #[trigger] final(data)@[block_pos(blockNum as int) + r * block_stride(blockNum as int) + c]
                as int == clip1(
                old(data)@[block_pos(blockNum as int) + r * block_stride(blockNum as int) + c] + residual@[4 * r + c],
            ),
        forall|k: int| 0 <= k < 384 && !in_block4(k, blockNum as int) ==> final(data)@[k] == old(data)@[k],
{
    if IS_RESIDUAL_EMPTY(residual) {
        return;
    }
    let width: usize;
    let pos: usize;
    if blockNum < 16 {
        width = 16;
        let (x, y) = block_xy(blockNum);
        pos = y * 16 + x;
    } else {
        width = 8;
        let c = blockNum - 16;
        let base: usize = if c < 4 {
            256
        } else {
            320
        };
        let (x, y) = block_xy(c % 4);
        proof {
            lemma_cases16((c % 4) as int);
        }
        pos = base + y * 8 + x;
    }
    let ghost d0 = data@;
    let ghost b = blockNum as int;
    assert(pos == block_pos(b) && width == block_stride(b));
    let mut r: usize = 0;
    while r < 4
        invariant
            r <= 4,
            pos == block_pos(b),
            width == block_stride(b),
            0 <= b < 24,
            pos + 3 * width + 4 <= 384,
            residual@[0] != EMPTY_RESIDUAL_INDICATOR as i32,
            residual_ok(residual@),
            forall|rr: int, c: int|
                0 <= rr < r && 0 <= c < 4 ==> #[trigger] data@[pos + rr * width + c] as int == clip1(
                    d0[pos + rr * width + c] + residual@[4 * rr + c],
                ),
            forall|k: int| 0 <= k < 384 && !(in_block4(k, b) && (k - pos) / (width as int) < r) ==> data@[k] == d0[k],
        decreases 4 - r,
    {
        let mut c: usize = 0;
        while c < 4
            invariant
                r < 4,
                c <= 4,
                pos == block_pos(b),
                width == block_stride(b),
                0 <= b < 24,
                pos + 3 * width + 4 <= 384,
                residual@[0] != EMPTY_RESIDUAL_INDICATOR as i32,
                residual_ok(residual@),
                forall|rr: int, cc: int|
                    0 <= rr < r && 0 <= cc < 4 ==> #[trigger] data@[pos + rr * width + cc] as int == clip1(
                        d0[pos + rr * width + cc] + residual@[4 * rr + cc],
                    ),
                forall|cc: int| 0 <= cc < c ==> #[trigger] data@[pos + r * width + cc] as int == clip1(
                    d0[pos + r * width + cc] + residual@[4 * r + cc],
                ),
                forall|k: int|
                    0 <= k < 384 && !(in_block4(k, b) && ((k - pos) / (width as int) < r || (k - pos) / (width as int) == r && (k
                        - pos) % (width as int) < c)) ==> data@[k] == d0[k],
            decreases 4 - c,
        {
            let i = pos + r * width + c;
            let v = residual[4 * r + c] + data[i] as i32;
            data[i] = clip_u8(v);
            c += 1;
        }
        r += 1;
    }
}


/// Sum of `above[o + 1 + i]` for i in 0..n.
pub open spec fn sum_row(s: Seq<u8>, o: int, n: nat) -> int
    decreases n,
{
    if n == 0 {
        0
    } else {
        sum_row(s, o, (n - 1) as nat) + s[o + n - 1] as int
    }
}

/// The 16x16 DC value: the rounded mean of the 16 samples above
/// (`above[1..17]`) and / or the 16 left (`left[0..16]`) that are
/// available, else 128.
pub open spec fn dc16x16(above: Seq<u8>, left: Seq<u8>, availableA: bool, availableB: bool) -> int {
    if availableA && availableB {
        (sum_row(above, 1, 16) + sum_row(left, 0, 16) + 16) / 32
    } else if availableA {
        (sum_row(left, 0, 16) + 8) / 16
    } else if availableB {
        (sum_row(above, 1, 16) + 8) / 16
    } else {
        128
    }
}

/// Horizontal gradient sum of the 16x16 plane mode: sum over i < n of
/// (i + 1) * (p[8 + i, -1] - p[6 - i, -1]).
pub open spec fn plane_h16(above: Seq<u8>, n: nat) -> int
    decreases n,
{
    if n == 0 {
        0
    } else {
        plane_h16(above, (n - 1) as nat) + n * (above[8 + n as int] - above[8 - n as int])
    }
}

/// Vertical gradient sum of the 16x16 plane mode: sum over i < n of
/// (i + 1) * (p[-1, 8 + i] - p[-1, 6 - i]), p[-1, -1] being `above[0]`.
pub open spec fn plane_v16(above: Seq<u8>, left: Seq<u8>, n: nat) -> int
    decreases n,
{
    if n == 0 {
        0
    } else {
        plane_v16(above, left, (n - 1) as nat) + n * (left[7 + n as int] - (if n == 8 {
            above[0] as int
        } else {
            left[7 - n as int] as int
        }))
    }
}

/// Sample (x, y) of the 16x16 plane prediction.
pub open spec fn plane16_sample(above: Seq<u8>, left: Seq<u8>, x: int, y: int) -> int {
    let a = 16 * (above[16] + left[15]);
    let b = (5 * plane_h16(above, 8) + 32) / 64;
    let c = (5 * plane_v16(above, left, 8) + 32) / 64;
    clip1((a + b * (x - 7) + c * (y - 7) + 16) / 32)
}

/// Sample (x, y) of the 16x16 luma prediction of mode `mode`
/// (0 vertical, 1 horizontal, 2 DC, 3 plane).
pub open spec fn intra16x16_sample(
    mode: int,
    above: Seq<u8>,
    left: Seq<u8>,
    availableA: bool,
    availableB: bool,
    x: int,
    y: int,
) -> int {
    if mode == 0 {
        above[x + 1] as int
    } else if mode == 1 {
        left[y] as int
    } else if mode == 2 {
        dc16x16(above, left, availableA, availableB)
    } else {
        plane16_sample(above, left, x, y)
    }
}

/// Fill the luma of the macroblock array with the 16x16 prediction of
/// `mode` from the row above (`above[0]` above left, `above[1..17]`) and
/// the column left (`left[0..16]`).
fn intra16x16_fill(data: &mut [u8; 384], above: &[u8; 39], left: &[u8; 32], mode: u32, availableA: bool, availableB: bool)
    requires
        mode < 4,
    ensures
        forall|i: int|
            0 <= i < 256 ==> #[trigger] final(data)@[i] as int == intra16x16_sample(
                mode as int,
                above@,
                left@,
                availableA,
                availableB,
                i % 16,
                i / 16,
            ),
        forall|k: int| 256 <= k < 384 ==> final(data)@[k] == old(data)@[k],
{
    let ghost d0 = data@;
    let mut dc: u8 = 0;
    let mut a: i32 = 0;
    let mut b: i32 = 0;
    let mut c: i32 = 0;
    if mode == 2 {
        dc = Intra16x16DcValue(above, left, availableA, availableB);
    } else if mode == 3 {
        let (pa, pb, pc) = Intra16x16PlaneParams(above, left);
        a = pa;
        b = pb;
        c = pc;
    }
    let mut i: usize = 0;
    while i < 256
        invariant
            i <= 256,
            mode < 4,
            mode == 2 ==> dc as int == dc16x16(above@, left@, availableA, availableB),
            mode == 3 ==> a == 16 * (above@[16] + left@[15]) && b == (5 * plane_h16(above@, 8) + 32) / 64 && c == (5
                * plane_v16(above@, left@, 8) + 32) / 64 && -1300 <= b <= 1300 && -1300 <= c <= 1300 && 0 <= a <= 8160,
            forall|k: int|
                0 <= k < i ==> #[trigger] data@[k] as int == intra16x16_sample(
                    mode as int,
                    above@,
                    left@,
                    availableA,
                    availableB,
                    k % 16,
                    k / 16,
                ),
            forall|k: int| 256 <= k < 384 ==> data@[k] == d0[k],
        decreases 256 - i,
    {
        let x = (i % 16) as i32;
        let y = (i / 16) as i32;
        let v = if mode == 0 {
            above[i % 16 + 1]
        } else if mode == 1 {
            left[i / 16]
        } else if mode == 2 {
            dc
        } else {
            proof {
                assert(-10400 <= b * (x - 7) <= 10400 && -10400 <= c * (y - 7) <= 10400) by (nonlinear_arith)
                    requires
                        -1300 <= b <= 1300,
                        -1300 <= c <= 1300,
                        0 <= x < 16,
                        0 <= y < 16,
                ;
            }
            let t = a + b * (x - 7) + c * (y - 7) + 16;
            proof {
                lemma_shr_i32(t, 5);
                vstd::arithmetic::power2::lemma2_to64();
            }
            clip_u8(t >> 5)
        };
        data[i] = v;
        i += 1;
    }
}

/// The 16x16 DC value.
fn Intra16x16DcValue(above: &[u8; 39], left: &[u8; 32], availableA: bool, availableB: bool) -> (r: u8)
    ensures
        r as int == dc16x16(above@, left@, availableA, availableB),
{
    let mut sa: u32 = 0;
    let mut sl: u32 = 0;
    let mut i: usize = 0;
    while i < 16
        invariant
            i <= 16,
            sa == sum_row(above@, 1, i as nat),
            sl == sum_row(left@, 0, i as nat),
            sa <= 255 * i && sl <= 255 * i,
        decreases 16 - i,
    {
        sa += above[i + 1] as u32;
        sl += left[i] as u32;
        i += 1;
    }
    let tmp = if availableA && availableB {
        (sa + sl + 16) / 32
    } else if availableA {
        (sl + 8) / 16
    } else if availableB {
        (sa + 8) / 16
    } else {
        128
    };
    tmp as u8
}

/// The plane parameters a, b and c of the 16x16 plane mode.
fn Intra16x16PlaneParams(above: &[u8; 39], left: &[u8; 32]) -> (r: (i32, i32, i32))
    ensures
        r.0 == 16 * (above@[16] + left@[15]),
        r.1 == (5 * plane_h16(above@, 8) + 32) / 64,
        r.2 == (5 * plane_v16(above@, left@, 8) + 32) / 64,
        -1300 <= r.1 <= 1300,
        -1300 <= r.2 <= 1300,
        0 <= r.0 <= 8160,
{
    let a: i32 = 16 * (above[16] as i32 + left[15] as i32);
    let mut h: i32 = 0;
    let mut v: i32 = 0;
    let mut i: usize = 0;
    while i < 8
        invariant
            i <= 8,
            h == plane_h16(above@, i as nat),
            v == plane_v16(above@, left@, i as nat),
            -2040 * i <= h <= 2040 * i,
            -2040 * i <= v <= 2040 * i,
        decreases 8 - i,
    {
        let k = (i + 1) as i32;
        let dh = above[9 + i] as i32 - above[7 - i] as i32;
        let q = if i == 7 {
            above[0]
        } else {
            left[6 - i]
        };
        let dv = left[8 + i] as i32 - q as i32;
        proof {
            assert(-255 * k <= k * dh <= 255 * k && -255 * k <= k * dv <= 255 * k) by (nonlinear_arith)
                requires
                    1 <= k <= 8,
                    -255 <= dh <= 255,
                    -255 <= dv <= 255,
            ;
        }
        h = h + k * dh;
        v = v + k * dv;
        i += 1;
    }
    let hb = 5 * h + 32;
    let vb = 5 * v + 32;
    proof {
        lemma_shr_i32(hb, 6);
        lemma_shr_i32(vb, 6);
        vstd::arithmetic::power2::lemma2_to64();
    }
    (a, hb >> 6, vb >> 6)
}


/// Chroma sample k (-1..8) of the row above component `comp` (0 Cb, 1 Cr)
/// in the neighbour array `above`: -1 is the sample above left.
pub open spec fn cab(above: Seq<u8>, comp: int, k: int) -> int {
    above[22 + 9 * comp + k] as int
}

/// Chroma sample k (0..8) of the column left of component `comp`.
pub open spec fn clf(left: Seq<u8>, comp: int, k: int) -> int {
    left[16 + 8 * comp + k] as int
}

/// The chroma DC value of the 4x4 quadrant of (x, y).
pub open spec fn chroma_dc(above: Seq<u8>, left: Seq<u8>, comp: int, availableA: bool, availableB: bool, x: int, y: int) -> int {
    let sa0 = cab(above, comp, 0) + cab(above, comp, 1) + cab(above, comp, 2) + cab(above, comp, 3);
    let sa1 = cab(above, comp, 4) + cab(above, comp, 5) + cab(above, comp, 6) + cab(above, comp, 7);
    let sl0 = clf(left, comp, 0) + clf(left, comp, 1) + clf(left, comp, 2) + clf(left, comp, 3);
    let sl1 = clf(left, comp, 4) + clf(left, comp, 5) + clf(left, comp, 6) + clf(left, comp, 7);
    if y < 4 && x < 4 {
        if availableA && availableB {
            (sa0 + sl0 + 4) / 8
        } else if availableB {
            (sa0 + 2) / 4
        } else if availableA {
            (sl0 + 2) / 4
        } else {
            128
        }
    } else if y < 4 {
        if availableB {
            (sa1 + 2) / 4
        } else if availableA {
            (sl0 + 2) / 4
        } else {
            128
        }
    } else if x < 4 {
        if availableA {
            (sl1 + 2) / 4
        } else if availableB {
            (sa0 + 2) / 4
        } else {
            128
        }
    } else {
        if availableA && availableB {
            (sa1 + sl1 + 4) / 8
        } else if availableA {
            (sl1 + 2) / 4
        } else if availableB {
            (sa1 + 2) / 4
        } else {
            128
        }
    }
}

/// Horizontal gradient of the chroma plane mode.
pub open spec fn plane_hc(above: Seq<u8>, comp: int) -> int {
    (cab(above, comp, 4) - cab(above, comp, 2)) + 2 * (cab(above, comp, 5) - cab(above, comp, 1)) + 3 * (cab(above, comp, 6)
        - cab(above, comp, 0)) + 4 * (cab(above, comp, 7) - cab(above, comp, -1))
}

/// Vertical gradient of the chroma plane mode.
pub open spec fn plane_vc(above: Seq<u8>, left: Seq<u8>, comp: int) -> int {
    (clf(left, comp, 4) - clf(left, comp, 2)) + 2 * (clf(left, comp, 5) - clf(left, comp, 1)) + 3 * (clf(left, comp, 6)
        - clf(left, comp, 0)) + 4 * (clf(left, comp, 7) - cab(above, comp, -1))
}

/// Sample (x, y) of the chroma plane prediction.
pub open spec fn plane_c_sample(above: Seq<u8>, left: Seq<u8>, comp: int, x: int, y: int) -> int {
    let a = 16 * (cab(above, comp, 7) + clf(left, comp, 7));
    let b = (17 * plane_hc(above, comp) + 16) / 32;
    let c = (17 * plane_vc(above, left, comp) + 16) / 32;
    clip1((a + b * (x - 3) + c * (y - 3) + 16) / 32)
}

/// Sample (x, y) of the chroma prediction of mode `mode` (0 DC,
/// 1 horizontal, 2 vertical, 3 plane) of component `comp`.
pub open spec fn chroma_sample(
    mode: int,
    above: Seq<u8>,
    left: Seq<u8>,
    comp: int,
    availableA: bool,
    availableB: bool,
    x: int,
    y: int,
) -> int {
    if mode == 0 {
        chroma_dc(above, left, comp, availableA, availableB, x, y)
    } else if mode == 1 {
        clf(left, comp, y)
    } else if mode == 2 {
        cab(above, comp, x)
    } else {
        plane_c_sample(above, left, comp, x, y)
    }
}

/// The four DC values of a chroma component, quadrant by quadrant.
fn IntraChromaDcValues(above: &[u8; 39], left: &[u8; 32], comp: usize, availableA: bool, availableB: bool) -> (r: [u8; 4])
    requires
        comp < 2,
    ensures
        forall|q: int|
            0 <= q < 4 ==> #[trigger] r@[q] as int == chroma_dc(
                above@,
                left@,
                comp as int,
                availableA,
                availableB,
                4 * (q % 2),
                4 * (q / 2),
            ),
{
    let ao = 22 + 9 * comp;
    let lo = 16 + 8 * comp;
    let sa0 = above[ao] as u32 + above[ao + 1] as u32 + above[ao + 2] as u32 + above[ao + 3] as u32;
    let sa1 = above[ao + 4] as u32 + above[ao + 5] as u32 + above[ao + 6] as u32 + above[ao + 7] as u32;
    let sl0 = left[lo] as u32 + left[lo + 1] as u32 + left[lo + 2] as u32 + left[lo + 3] as u32;
    let sl1 = left[lo + 4] as u32 + left[lo + 5] as u32 + left[lo + 6] as u32 + left[lo + 7] as u32;
    /* y = 0..3 */
    let (t1, t2): (u32, u32) = if availableA && availableB {
        ((sa0 + sl0 + 4) / 8, (sa1 + 2) / 4)
    } else if availableB {
        ((sa0 + 2) / 4, (sa1 + 2) / 4)
    } else if availableA {
        ((sl0 + 2) / 4, (sl0 + 2) / 4)
    } else {
        (128, 128)
    };
    /* y = 4..7 */
    let (t3, t4): (u32, u32) = if availableA {
        let v = (sl1 + 2) / 4;
        if availableB {
            (v, (sa1 + sl1 + 4) / 8)
        } else {
            (v, v)
        }
    } else if availableB {
        ((sa0 + 2) / 4, (sa1 + 2) / 4)
    } else {
        (128, 128)
    };
    let r = [t1 as u8, t2 as u8, t3 as u8, t4 as u8];
    proof {
        assert forall|q: int| 0 <= q < 4 implies #[trigger] r@[q] as int == chroma_dc(
            above@,
            left@,
            comp as int,
            availableA,
            availableB,
            4 * (q % 2),
            4 * (q / 2),
        ) by {
            assert(q == 0 || q == 1 || q == 2 || q == 3);
        }
    }
    r
}

/// The plane parameters of a chroma component.
fn IntraChromaPlaneParams(above: &[u8; 39], left: &[u8; 32], comp: usize) -> (r: (i32, i32, i32))
    requires
        comp < 2,
    ensures
        r.0 == 16 * (cab(above@, comp as int, 7) + clf(left@, comp as int, 7)),
        r.1 == (17 * plane_hc(above@, comp as int) + 16) / 32,
        r.2 == (17 * plane_vc(above@, left@, comp as int) + 16) / 32,
        -1400 <= r.1 <= 1400,
        -1400 <= r.2 <= 1400,
        0 <= r.0 <= 8160,
{
    let ao = 22 + 9 * comp;
    let lo = 16 + 8 * comp;
    let a = 16 * (above[ao + 7] as i32 + left[lo + 7] as i32);
    let h = (above[ao + 4] as i32 - above[ao + 2] as i32) + 2 * (above[ao + 5] as i32 - above[ao + 1] as i32) + 3 * (
    above[ao + 6] as i32 - above[ao] as i32) + 4 * (above[ao + 7] as i32 - above[ao - 1] as i32);
    let v = (left[lo + 4] as i32 - left[lo + 2] as i32) + 2 * (left[lo + 5] as i32 - left[lo + 1] as i32) + 3 * (left[lo
        + 6] as i32 - left[lo] as i32) + 4 * (left[lo + 7] as i32 - above[ao - 1] as i32);
    let hb = 17 * h + 16;
    let vb = 17 * v + 16;
    proof {
        lemma_shr_i32(hb, 5);
        lemma_shr_i32(vb, 5);
        vstd::arithmetic::power2::lemma2_to64();
    }
    (a, hb >> 5, vb >> 5)
}

/// Fill component `comp` (0 Cb, 1 Cr) of the macroblock array with the
/// chroma prediction of `mode` from the samples above and left of it in
/// the neighbour arrays.
fn chroma_fill(
    data: &mut [u8; 384],
    comp: usize,
    above: &[u8; 39],
    left: &[u8; 32],
    mode: u32,
    availableA: bool,
    availableB: bool,
)
    requires
        comp < 2,
        mode < 4,
    ensures
        forall|i: int|
            0 <= i < 64 ==> #[trigger] final(data)@[256 + 64 * comp + i] as int == chroma_sample(
                mode as int,
                above@,
                left@,
                comp as int,
                availableA,
                availableB,
                i % 8,
                i / 8,
            ),
        forall|k: int| 0 <= k < 384 && !(256 + 64 * comp <= k < 320 + 64 * comp) ==> final(data)@[k] == old(data)@[k],
{
    let ghost d0 = data@;
    let base = 256 + 64 * comp;
    let mut dc: [u8; 4] = [0; 4];
    let mut a: i32 = 0;
    let mut b: i32 = 0;
    let mut c: i32 = 0;
    if mode == 0 {
        dc = IntraChromaDcValues(above, left, comp, availableA, availableB);
    } else if mode == 3 {
        let (pa, pb, pc) = IntraChromaPlaneParams(above, left, comp);
        a = pa;
        b = pb;
        c = pc;
    }
    let mut i: usize = 0;
    while i < 64
        invariant
            i <= 64,
            comp < 2,
            mode < 4,
            base == 256 + 64 * comp,
            mode == 0 ==> forall|q: int|
                0 <= q < 4 ==> #[trigger] dc@[q] as int == chroma_dc(
                    above@,
                    left@,
                    comp as int,
                    availableA,
                    availableB,
                    4 * (q % 2),
                    4 * (q / 2),
                ),
            mode == 3 ==> a == 16 * (cab(above@, comp as int, 7) + clf(left@, comp as int, 7)) && b == (17 * plane_hc(
                above@,
                comp as int,
            ) + 16) / 32 && c == (17 * plane_vc(above@, left@, comp as int) + 16) / 32 && -1400 <= b <= 1400 && -1400 <= c
                <= 1400 && 0 <= a <= 8160,
            forall|k: int|
                0 <= k < i ==> #[trigger] data@[base + k] as int == chroma_sample(
                    mode as int,
                    above@,
                    left@,
                    comp as int,
                    availableA,
                    availableB,
                    k % 8,
                    k / 8,
                ),
            forall|k: int| 0 <= k < 384 && !(base <= k < base + i) ==> data@[k] == d0[k],
        decreases 64 - i,
    {
        let x = (i % 8) as i32;
        let y = (i / 8) as i32;
        let v = if mode == 0 {
            let q = (if i % 8 < 4 {
                0usize
            } else {
                1usize
            }) + (if i / 8 < 4 {
                0usize
            } else {
                2usize
            });
            proof {
                let ii = i as int;
                assert(chroma_dc(above@, left@, comp as int, availableA, availableB, ii % 8, ii / 8) == chroma_dc(
                    above@,
                    left@,
                    comp as int,
                    availableA,
                    availableB,
                    4 * (q as int % 2),
                    4 * (q as int / 2),
                ));
            }
            dc[q]
        } else if mode == 1 {
            left[16 + 8 * comp + i / 8]
        } else if mode == 2 {
            above[22 + 9 * comp + i % 8]
        } else {
            proof {
                assert(-5600 <= b * (x - 3) <= 5600 && -5600 <= c * (y - 3) <= 5600) by (nonlinear_arith)
                    requires
                        -1400 <= b <= 1400,
                        -1400 <= c <= 1400,
                        0 <= x < 8,
                        0 <= y < 8,
                ;
            }
            let t = a + b * (x - 3) + c * (y - 3) + 16;
            proof {
                lemma_shr_i32(t, 5);
                vstd::arithmetic::power2::lemma2_to64();
            }
            clip_u8(t >> 5)
        };
        data[base + i] = v;
        i += 1;
    }
}


/// Prediction sample `pred` with sample `k` of residual block `res`
/// added and clipped; an empty residual leaves the prediction.
pub open spec fn add_res(pred: int, res: Seq<i32>, k: int) -> int {
    if res[0] == EMPTY_RESIDUAL_INDICATOR as i32 {
        pred
    } else {
        clip1(pred + res[k])
    }
}

/// Each luma block is at its own grid position.
pub(crate) proof fn lemma_blk_grid(b: int)
    requires
        0 <= b < 16,
    ensures
        blk_at(blk_x(b), blk_y(b)) == b,
        0 <= blk_x(b) < 4,
        0 <= blk_y(b) < 4,
        block_pos(b) == 64 * blk_y(b) + 4 * blk_x(b),
{
    lemma_cases16(b);
}

/// Two different 4x4 blocks of a grid of rows of `s` samples (s = 16 for
/// luma, 8 for chroma) do not overlap: a sample of block (bx, by) is not
/// in block (jx, jy).
proof fn lemma_grid(bx: int, by: int, jx: int, jy: int, r: int, c: int, s: int)
    requires
        0 <= bx < 4,
        0 <= by < 4,
        0 <= jx < 4,
        0 <= jy < 4,
        bx != jx || by != jy,
        0 <= r < 4,
        0 <= c < 4,
        s == 8 || s == 16,
        s == 8 ==> bx < 2 && jx < 2,
    ensures
        ({
            let d = s * (4 * (by - jy) + r) + 4 * (bx - jx) + c;
            !(0 <= d && d % s < 4 && d / s < 4)
        }),
{
    let q = 4 * (by - jy) + r;
    let e = 4 * (bx - jx) + c;
    let d = s * q + e;
    if bx > jx {
        vstd::arithmetic::div_mod::lemma_fundamental_div_mod_converse(d, s, q, e);
    } else if bx < jx {
        assert(d == s * (q - 1) + (e + s)) by (nonlinear_arith)
            requires
                d == s * q + e,
        ;
        vstd::arithmetic::div_mod::lemma_fundamental_div_mod_converse(d, s, q - 1, e + s);
    } else {
        vstd::arithmetic::div_mod::lemma_fundamental_div_mod_converse(d, s, q, e);
        if by < jy {
            assert(d < 0) by (nonlinear_arith)
                requires
                    d == s * q + e,
                    q <= -1,
                    e < 4,
                    s >= 8,
            ;
        }
    }
}

/// A sample of luma block `b` is in no other luma block.
pub(crate) proof fn lemma_luma_blocks_apart(b: int, j: int, r: int, c: int)
    requires
        0 <= b < 16,
        0 <= j < 16,
        b != j,
        0 <= r < 4,
        0 <= c < 4,
    ensures
        !in_block4(block_pos(b) + r * 16 + c, j),
{
    lemma_blk_grid(b);
    lemma_blk_grid(j);
    lemma_grid(blk_x(b), blk_y(b), blk_x(j), blk_y(j), r, c, 16);
    let d = 16 * (4 * (blk_y(b) - blk_y(j)) + r) + 4 * (blk_x(b) - blk_x(j)) + c;
    assert(block_pos(b) + r * 16 + c - block_pos(j) == d);
}

/// A sample of chroma block `b` is in no other chroma block.
pub(crate) proof fn lemma_chroma_blocks_apart(b: int, j: int, r: int, c: int)
    requires
        16 <= b < 24,
        16 <= j < 24,
        b != j,
        0 <= r < 4,
        0 <= c < 4,
    ensures
        !in_block4(block_pos(b) + r * 8 + c, j),
{
    let bx = (b - 16) % 2;
    let by = (b - 16) / 2;
    let jx = (j - 16) % 2;
    let jy = (j - 16) / 2;
    assert(block_pos(b) == 256 + 32 * by + 4 * bx && block_pos(j) == 256 + 32 * jy + 4 * jx);
    lemma_grid(bx, by, jx, jy, r, c, 8);
}

/// The neighbour addresses of macroblock `cur` point into `mbs`.
pub open spec fn mb_nbrs_in(mbs: Seq<mbStorage_t>, cur: int) -> bool {
    &&& 0 <= cur < mbs.len()
    &&& mbs[cur].mbA matches Some(j) ==> j < mbs.len()
    &&& mbs[cur].mbB matches Some(j) ==> j < mbs.len()
    &&& mbs[cur].mbC matches Some(j) ==> j < mbs.len()
    &&& mbs[cur].mbD matches Some(j) ==> j < mbs.len()
}

/// A neighbouring macroblock `n` of macroblock `cur` can be used for intra
/// prediction: it exists, lies in the same slice, and is not inter coded
/// when constrained intra prediction is on.
pub open spec fn usable(mbs: Seq<mbStorage_t>, cur: int, n: Option<usize>, cip: bool) -> bool {
    match n {
        Some(j) => mbs[j as int].sliceId == mbs[cur].sliceId && !(cip && mbs[j as int].mbType <= P_8x8ref0),
        None => false,
    }
}

/// Intra availability of neighbour `n` of macroblock `cur`.
fn intra_available(mbs: &[mbStorage_t], cur: usize, n: Option<usize>, constrainedIntraPred: u32) -> (r: bool)
    requires
        cur < mbs.len(),
        n matches Some(j) ==> j < mbs.len(),
    ensures
        r == usable(mbs@, cur as int, n, constrainedIntraPred != 0),
{
    let m = match n {
        Some(j) => Some(&mbs[j]),
        None => None,
    };
    let mut available = h264bsdIsNeighbourAvailable(&mbs[cur], m) != 0;
    if available && constrainedIntraPred != 0 {
        let j = n.unwrap();
        if h264bsdMbPartPredMode(mbs[j].mbType) == PRED_MODE_INTER {
            available = false;
        }
    }
    available
}

/// The 16x16 luma prediction of macroblock `cur` is possible: the
/// neighbours its mode reads are usable.
pub open spec fn intra16x16_ok(mode: int, A: bool, B: bool, D: bool) -> bool {
    if mode == 0 {
        B
    } else if mode == 1 {
        A
    } else if mode == 3 {
        A && B && D
    } else {
        true
    }
}

/// Intra 16x16 luma prediction of macroblock `cur` (an intra 16x16 type)
/// with the residual blocks `residual[0..16]` added, into the luma of
/// `data`, from the neighbouring samples `above` and `left`. HANTRO_NOK,
/// with `data` unchanged, when the mode needs a neighbour that cannot be
/// used.
#[verifier::rlimit(30)]
pub fn h264bsdIntra16x16Prediction(
    mbs: &[mbStorage_t],
    cur: usize,
    data: &mut [u8; 384],
    residual: &[[i32; 16]; 26],
    above: &[u8; 39],
    left: &[u8; 32],
    constrainedIntraPred: u32,
) -> (r: u32)
    requires
        mb_nbrs_in(mbs@, cur as int),
        mbs@[cur as int].mbType >= I_16x16_0_0_0,
        forall|b: int| 0 <= b < 16 ==> residual_ok(#[trigger] residual@[b]@),
    ensures
        ({
            let m = mbs@[cur as int];
            let cip = constrainedIntraPred != 0;
            let A = usable(mbs@, cur as int, m.mbA, cip);
            let B = usable(mbs@, cur as int, m.mbB, cip);
            let D = usable(mbs@, cur as int, m.mbD, cip);
            let mode = (m.mbType - I_16x16_0_0_0) % 4;
            &&& r == if intra16x16_ok(mode, A, B, D) { HANTRO_OK } else { HANTRO_NOK }
            &&& !intra16x16_ok(mode, A, B, D) ==> final(data)@ == old(data)@
            &&& intra16x16_ok(mode, A, B, D) ==> forall|b: int, y: int, x: int|
                0 <= b < 16 && 0 <= y < 4 && 0 <= x < 4 ==> #[trigger] final(data)@[block_pos(b) + 16 * y + x] as int
                    == add_res(
                    intra16x16_sample(mode, above@, left@, A, B, 4 * blk_x(b) + x, 4 * blk_y(b) + y),
                    residual@[b]@,
                    4 * y + x,
                )
            &&& forall|k: int| 256 <= k < 384 ==> final(data)@[k] == old(data)@[k]
        }),
{
    let availableA = intra_available(mbs, cur, mbs[cur].mbA, constrainedIntraPred);
    let availableB = intra_available(mbs, cur, mbs[cur].mbB, constrainedIntraPred);
    let availableD = intra_available(mbs, cur, mbs[cur].mbD, constrainedIntraPred);
    let mode = h264bsdPredModeIntra16x16(mbs[cur].mbType);
    if mode == 0 && !availableB || mode == 1 && !availableA || mode == 3 && !(availableA && availableB && availableD) {
        return HANTRO_NOK;
    }
    let ghost d0 = data@;
    intra16x16_fill(data, above, left, mode, availableA, availableB);
    let ghost d1 = data@;
    let mut i: u32 = 0;
    while i < 16
        invariant
            i <= 16,
            mode < 4,
            forall|b: int| 0 <= b < 16 ==> residual_ok(#[trigger] residual@[b]@),
            forall|b: int, y: int, x: int|
                0 <= b < 16 && 0 <= y < 4 && 0 <= x < 4 ==> #[trigger] data@[block_pos(b) + 16 * y + x] as int == if b < i {
                    add_res(d1[block_pos(b) + 16 * y + x] as int, residual@[b]@, 4 * y + x)
                } else {
                    d1[block_pos(b) + 16 * y + x] as int
                },
            forall|k: int| 256 <= k < 384 ==> data@[k] == d0[k],
        decreases 16 - i,
    {
        let ghost dd = data@;
        h264bsdAddResidual(data, &residual[i as usize], i);
        proof {
            assert forall|b: int, y: int, x: int|
                0 <= b < 16 && 0 <= y < 4 && 0 <= x < 4 implies #[trigger] data@[block_pos(b) + 16 * y + x] as int == if b < i + 1 {
                add_res(d1[block_pos(b) + 16 * y + x] as int, residual@[b]@, 4 * y + x)
            } else {
                d1[block_pos(b) + 16 * y + x] as int
            } by {
                lemma_blk_grid(b);
                if b != i {
                    lemma_luma_blocks_apart(b, i as int, y, x);
                    assert(dd[block_pos(b) + 16 * y + x] == data@[block_pos(b) + 16 * y + x]);
                } else {
                    assert(block_stride(b) == 16);
                    assert(dd[block_pos(b) + 16 * y + x] == d1[block_pos(b) + 16 * y + x]);
                    assert(block_pos(b) + y * block_stride(b) + x == block_pos(b) + 16 * y + x);
                }
            }
            assert forall|k: int| 256 <= k < 384 implies data@[k] == d0[k] by {
                lemma_blk_grid(i as int);
                assert(!in_block4(k, i as int));
            }
        }
        i += 1;
    }
    proof {
        assert forall|b: int, y: int, x: int|
            0 <= b < 16 && 0 <= y < 4 && 0 <= x < 4 implies #[trigger] d1[block_pos(b) + 16 * y + x] as int == intra16x16_sample(
            mode as int,
            above@,
            left@,
            availableA,
            availableB,
            4 * blk_x(b) + x,
            4 * blk_y(b) + y,
        ) by {
            lemma_blk_grid(b);
            let k = block_pos(b) + 16 * y + x;
            assert(k % 16 == 4 * blk_x(b) + x && k / 16 == 4 * blk_y(b) + y) by {
                vstd::arithmetic::div_mod::lemma_fundamental_div_mod_converse(k, 16, 4 * blk_y(b) + y, 4 * blk_x(b) + x);
            }
        }
    }
    HANTRO_OK
}


/// The chroma prediction of mode `mode` is possible: the neighbours it
/// reads are usable.
pub open spec fn chroma_ok(mode: int, A: bool, B: bool, D: bool) -> bool {
    if mode == 1 {
        A
    } else if mode == 2 {
        B
    } else if mode >= 3 {
        A && B && D
    } else {
        true
    }
}

/// Intra chroma prediction of macroblock `cur` with mode `predMode` (0 DC,
/// 1 horizontal, 2 vertical, 3 and above plane) and the residual blocks
/// `residual[16..24]` added, into the Cb and Cr of `data`. HANTRO_NOK,
/// with `data` unchanged, when the mode needs a neighbour that cannot be
/// used.
#[verifier::rlimit(30)]
pub fn h264bsdIntraChromaPrediction(
    mbs: &[mbStorage_t],
    cur: usize,
    data: &mut [u8; 384],
    residual: &[[i32; 16]; 26],
    above: &[u8; 39],
    left: &[u8; 32],
    predMode: u32,
    constrainedIntraPred: u32,
) -> (r: u32)
    requires
        mb_nbrs_in(mbs@, cur as int),
        forall|b: int| 16 <= b < 24 ==> residual_ok(#[trigger] residual@[b]@),
    ensures
        ({
            let m = mbs@[cur as int];
            let cip = constrainedIntraPred != 0;
            let A = usable(mbs@, cur as int, m.mbA, cip);
            let B = usable(mbs@, cur as int, m.mbB, cip);
            let D = usable(mbs@, cur as int, m.mbD, cip);
            let mode = if predMode > 3 { 3int } else { predMode as int };
            &&& r == if chroma_ok(mode, A, B, D) { HANTRO_OK } else { HANTRO_NOK }
            &&& !chroma_ok(mode, A, B, D) ==> final(data)@ == old(data)@
            &&& chroma_ok(mode, A, B, D) ==> forall|b: int, y: int, x: int|
                16 <= b < 24 && 0 <= y < 4 && 0 <= x < 4 ==> #[trigger] final(data)@[block_pos(b) + 8 * y + x] as int
                    == add_res(
                    chroma_sample(mode, above@, left@, (b - 16) / 4, A, B, 4 * ((b - 16) % 2) + x, 4 * (((b - 16) % 4) / 2) + y),
                    residual@[b]@,
                    4 * y + x,
                )
            &&& forall|k: int| 0 <= k < 256 ==> final(data)@[k] == old(data)@[k]
        }),
{
    let availableA = intra_available(mbs, cur, mbs[cur].mbA, constrainedIntraPred);
    let availableB = intra_available(mbs, cur, mbs[cur].mbB, constrainedIntraPred);
    let availableD = intra_available(mbs, cur, mbs[cur].mbD, constrainedIntraPred);
    let mode = if predMode > 3 {
        3
    } else {
        predMode
    };
    if mode == 1 && !availableA || mode == 2 && !availableB || mode == 3 && !(availableA && availableB && availableD) {
        return HANTRO_NOK;
    }
    let ghost d0 = data@;
    chroma_fill(data, 0, above, left, mode, availableA, availableB);
    chroma_fill(data, 1, above, left, mode, availableA, availableB);
    let ghost d1 = data@;
    let mut block: u32 = 16;
    while block < 24
        invariant
            16 <= block <= 24,
            forall|b: int| 16 <= b < 24 ==> residual_ok(#[trigger] residual@[b]@),
            forall|b: int, y: int, x: int|
                16 <= b < 24 && 0 <= y < 4 && 0 <= x < 4 ==> #[trigger] data@[block_pos(b) + 8 * y + x] as int == if b
                    < block {
                    add_res(d1[block_pos(b) + 8 * y + x] as int, residual@[b]@, 4 * y + x)
                } else {
                    d1[block_pos(b) + 8 * y + x] as int
                },
            forall|k: int| 0 <= k < 256 ==> data@[k] == d0[k],
        decreases 24 - block,
    {
        let ghost dd = data@;
        h264bsdAddResidual(data, &residual[block as usize], block);
        proof {
            assert forall|b: int, y: int, x: int|
                16 <= b < 24 && 0 <= y < 4 && 0 <= x < 4 implies #[trigger] data@[block_pos(b) + 8 * y + x] as int == if b
                < block + 1 {
                add_res(d1[block_pos(b) + 8 * y + x] as int, residual@[b]@, 4 * y + x)
            } else {
                d1[block_pos(b) + 8 * y + x] as int
            } by {
                if b != block {
                    lemma_chroma_blocks_apart(b, block as int, y, x);
                    assert(dd[block_pos(b) + 8 * y + x] == data@[block_pos(b) + 8 * y + x]);
                } else {
                    assert(dd[block_pos(b) + 8 * y + x] == d1[block_pos(b) + 8 * y + x]);
                    assert(block_pos(b) + y * block_stride(b) + x == block_pos(b) + 8 * y + x);
                }
            }
            assert forall|k: int| 0 <= k < 256 implies data@[k] == d0[k] by {
                assert(!in_block4(k, block as int));
            }
        }
        block += 1;
    }
    proof {
        assert forall|b: int, y: int, x: int|
            16 <= b < 24 && 0 <= y < 4 && 0 <= x < 4 implies #[trigger] d1[block_pos(b) + 8 * y + x] as int == chroma_sample(
            mode as int,
            above@,
            left@,
            (b - 16) / 4,
            availableA,
            availableB,
            4 * ((b - 16) % 2) + x,
            4 * (((b - 16) % 4) / 2) + y,
        ) by {
            let comp = (b - 16) / 4;
            let c = (b - 16) % 4;
            let i = 32 * (c / 2) + 4 * (c % 2) + 8 * y + x;
            assert(block_pos(b) + 8 * y + x == 256 + 64 * comp + i);
            assert(i % 8 == 4 * ((b - 16) % 2) + x && i / 8 == 4 * (c / 2) + y) by {
                vstd::arithmetic::div_mod::lemma_fundamental_div_mod_converse(i, 8, 4 * (c / 2) + y, 4 * (c % 2) + x);
            }
        }
    }
    HANTRO_OK
}


/// Get the samples around macroblock `mbNum` of `image`: into `above` the
/// luma row above it from the sample above left to four samples above
/// right (21), then the Cb and the Cr row above from the sample above
/// left (9 each); into `left` the luma column left of it (16), then the
/// Cb and the Cr column (8 each). A row or column outside the picture is
/// not read, and macroblock 0 reads nothing.
pub fn h264bsdGetNeighbourPels(image: &image_t, above: &mut [u8; 39], left: &mut [u8; 32], mbNum: u32)
    requires
        image.wf(),
        mbNum < image.width * image.height,
    ensures
        ({
            let w = image.width as int;
            let row = mbNum as int / w;
            let col = mbNum as int % w;
            let luma = image.mb_luma(mbNum as int);
            let cb = image.mb_cb(mbNum as int);
            let cr = image.mb_cr(mbNum as int);
            let d = image.data@;
            &&& (mbNum == 0 || row == 0) ==> final(above)@ == old(above)@
            &&& (mbNum == 0 || col == 0) ==> final(left)@ == old(left)@
            &&& mbNum != 0 && row != 0 ==> {
                &&& forall|k: int| 0 <= k < 21 ==> #[trigger] final(above)@[k] == d[luma - 16 * w - 1 + k]
                &&& forall|k: int| 0 <= k < 9 ==> #[trigger] final(above)@[21 + k] == d[cb - 8 * w - 1 + k]
                &&& forall|k: int| 0 <= k < 9 ==> #[trigger] final(above)@[30 + k] == d[cr - 8 * w - 1 + k]
            }
            &&& mbNum != 0 && col != 0 ==> {
                &&& forall|k: int| 0 <= k < 16 ==> #[trigger] final(left)@[k] == d[luma - 1 + k * (16 * w)]
                &&& forall|k: int| 0 <= k < 8 ==> #[trigger] final(left)@[16 + k] == d[cb - 1 + k * (8 * w)]
                &&& forall|k: int| 0 <= k < 8 ==> #[trigger] final(left)@[24 + k] == d[cr - 1 + k * (8 * w)]
            }
        }),
{
    if mbNum == 0 {
        return;
    }
    let ghost w = image.width as int;
    let ghost h = image.height as int;
    let ghost L = image.data.len() as int;
    proof {
        assert(w * h <= 4096 * 4096) by (nonlinear_arith)
            requires
                1 <= w <= 4096,
                1 <= h <= 4096,
        ;
    }
    let width = image.width;
    let picSize = width * image.height;
    let row = udiv(mbNum, width);
    proof {
        vstd::arithmetic::div_mod::lemma_fundamental_div_mod(mbNum as int, w);
        assert(row * w <= mbNum) by (nonlinear_arith)
            requires
                mbNum == w * row + mbNum as int % w,
                0 <= mbNum as int % w,
        ;
    }
    let col = mbNum - row * width;
    proof {
        assert(w * row == row * w) by (nonlinear_arith);
        assert(col == mbNum as int % w && row == mbNum as int / w);
        assert(0 <= row < h) by (nonlinear_arith)
            requires
                row * w + col == mbNum,
                0 <= col,
                mbNum < w * h,
                w >= 1,
        ;
        assert(row * (256 * w) + col * 16 + 15 * (16 * w) + 16 <= 256 * w * h) by (nonlinear_arith)
            requires
                0 <= row < h,
                0 <= col < w,
        ;
        assert(row * (64 * w) + col * 8 + 7 * (8 * w) + 8 <= 64 * w * h) by (nonlinear_arith)
            requires
                0 <= row < h,
                0 <= col < w,
        ;
        assert(row >= 1 ==> row * (256 * w) >= 16 * w + 1 && row * (64 * w) >= 8 * w + 1) by (nonlinear_arith)
            requires
                w >= 1,
        ;
        assert(L == 256 * w * h + 64 * w * h + 64 * w * h) by (nonlinear_arith)
            requires
                L == 384 * w * h,
        ;
        assert(256 * w * h >= 1) by (nonlinear_arith)
            requires
                w >= 1,
                h >= 1,
        ;
        assert(row * 16 * (16 * w) + col * 16 + 15 * (16 * w) + 16 <= L) by (nonlinear_arith)
            requires
                0 <= row < h,
                0 <= col < w,
                L == 384 * w * h,
        ;
        assert(row >= 1 ==> row * 16 * (16 * w) + col * 16 >= 16 * w + 1) by (nonlinear_arith)
            requires
                w >= 1,
                col >= 0,
        ;
        assert(w * h * 256 + row * 8 * (8 * w) + col * 8 + w * h * 64 + 7 * (8 * w) + 8 <= L) by (nonlinear_arith)
            requires
                0 <= row < h,
                0 <= col < w,
                L == 384 * w * h,
        ;
        assert(w * h * 256 >= 8 * w + 1 && w * h * 64 >= 0) by (nonlinear_arith)
            requires
                w >= 1,
                h >= 1,
        ;
    }
    let W = (width * 16) as usize;
    let luma = row as usize * 16 * W + col as usize * 16;
    let W2 = (width * 8) as usize;
    let cb = picSize as usize * 256 + row as usize * 8 * W2 + col as usize * 8;
    let cr = cb + picSize as usize * 64;
    proof {
        assert(luma == image.mb_luma(mbNum as int)) by (nonlinear_arith)
            requires
                luma == row * 16 * (16 * w) + col * 16,
                image.mb_luma(mbNum as int) == (mbNum as int / w) * (256 * w) + (mbNum as int % w) * 16,
                mbNum as int / w == row,
                mbNum as int % w == col,
        ;
        assert(cb == image.mb_cb(mbNum as int)) by (nonlinear_arith)
            requires
                cb == w * h * 256 + row * 8 * (8 * w) + col * 8,
                image.mb_cb(mbNum as int) == 256 * w * h + (mbNum as int / w) * (64 * w) + (mbNum as int % w) * 8,
                mbNum as int / w == row,
                mbNum as int % w == col,
        ;
        assert(w * h * 64 == 64 * w * h) by (nonlinear_arith);
        assert(cr == image.mb_cr(mbNum as int));
    }
    if row != 0 {
        let mut k: usize = 0;
        while k < 21
            invariant
                k <= 21,
                luma >= W + 1,
                luma + 15 * W + 16 <= L,
                L == image.data.len(),
                W == 16 * w,
                1 <= w,
                forall|j: int| 0 <= j < k ==> #[trigger] above@[j] == image.data@[luma - W - 1 + j],
            decreases 21 - k,
        {
            above[k] = image.data[luma - W - 1 + k];
            k += 1;
        }
        let mut k: usize = 0;
        while k < 9
            invariant
                k <= 9,
                cb >= W2 + 1,
                cr == cb + w * h * 64,
                w * h * 64 >= 0,
                cb + 7 * W2 + 8 <= L,
                1 <= w,
                cr + 7 * W2 + 8 <= L,
                L == image.data.len(),
                W2 == 8 * w,
                luma >= W + 1,
                W == 16 * w,
                forall|j: int| 0 <= j < 21 ==> #[trigger] above@[j] == image.data@[luma - W - 1 + j],
                forall|j: int| 0 <= j < k ==> #[trigger] above@[21 + j] == image.data@[cb - W2 - 1 + j],
                forall|j: int| 0 <= j < k ==> #[trigger] above@[30 + j] == image.data@[cr - W2 - 1 + j],
            decreases 9 - k,
        {
            above[21 + k] = image.data[cb - W2 - 1 + k];
            above[30 + k] = image.data[cr - W2 - 1 + k];
            k += 1;
        }
    }
    if col != 0 {
        let mut k: usize = 0;
        while k < 16
            invariant
                k <= 16,
                luma >= 1,
                luma + 15 * W + 16 <= L,
                L == image.data.len(),
                W == 16 * w,
                forall|j: int| 0 <= j < k ==> #[trigger] left@[j] == image.data@[luma - 1 + j * W],
            decreases 16 - k,
        {
            proof {
                assert(k * W <= 15 * W) by (nonlinear_arith)
                    requires
                        k < 16,
                        W >= 0,
                ;
            }
            left[k] = image.data[luma - 1 + k * W];
            k += 1;
        }
        let mut k: usize = 0;
        while k < 8
            invariant
                k <= 8,
                cb >= 1,
                cr == cb + w * h * 64,
                w * h * 64 >= 0,
                cb + 7 * W2 + 8 <= L,
                1 <= w,
                cr + 7 * W2 + 8 <= L,
                L == image.data.len(),
                W2 == 8 * w,
                luma >= 1,
                W == 16 * w,
                forall|j: int| 0 <= j < 16 ==> #[trigger] left@[j] == image.data@[luma - 1 + j * W],
                forall|j: int| 0 <= j < k ==> #[trigger] left@[16 + j] == image.data@[cb - 1 + j * W2],
                forall|j: int| 0 <= j < k ==> #[trigger] left@[24 + j] == image.data@[cr - 1 + j * W2],
            decreases 8 - k,
        {
            proof {
                assert(k * W2 <= 7 * W2) by (nonlinear_arith)
                    requires
                        k < 8,
                        W2 >= 0,
                ;
            }
            left[16 + k] = image.data[cb - 1 + k * W2];
            left[24 + k] = image.data[cr - 1 + k * W2];
            k += 1;
        }
    }
}


/// The intra 4x4 mode of block `idx` of macroblock `j`, the current
/// macroblock `cur` having the modes `modes`; DC (2) when macroblock `j`
/// is not intra 4x4.
pub open spec fn stored_mode(mbs: Seq<mbStorage_t>, cur: int, modes: Seq<u8>, j: int, idx: int) -> int {
    if mbs[j].mbType != I_4x4 {
        2
    } else if j == cur {
        modes[idx] as int
    } else {
        mbs[j].intra4x4PredMode@[idx] as int
    }
}

/// The mode of a block from the predicted mode `m1` and the coded
/// prev_intra4x4_pred_mode_flag and rem_intra4x4_pred_mode.
pub open spec fn coded_mode(prevFlag: u32, rem: u32, m1: int) -> int {
    if prevFlag == 0 {
        if rem < m1 {
            rem as int
        } else {
            rem + 1
        }
    } else {
        m1
    }
}

/// The intra 4x4 mode of block `index`: the smaller of the modes of the
/// blocks left (`mA`, block `iA`) and above (`mB`, block `iB`), DC when a
/// neighbour is not available or not intra 4x4, replaced by the coded
/// mode when the prediction flag is 0.
fn DetermineIntra4x4PredMode(
    pMbLayer: &macroblockLayer_t,
    available: bool,
    nA: &neighbour_t,
    nB: &neighbour_t,
    index: u32,
    nMbA: &mbStorage_t,
    nMbB: &mbStorage_t,
) -> (r: u32)
    requires
        index < 16,
        nA.index < 16,
        nB.index < 16,
        pMbLayer.mbPred.remIntra4x4PredMode@[index as int] < u32::MAX,
    ensures
        r == coded_mode(
            pMbLayer.mbPred.prevIntra4x4PredModeFlag@[index as int],
            pMbLayer.mbPred.remIntra4x4PredMode@[index as int],
            if !available {
                2
            } else {
                let a = if nMbA.mbType == I_4x4 { nMbA.intra4x4PredMode@[nA.index as int] as int } else { 2 };
                let b = if nMbB.mbType == I_4x4 { nMbB.intra4x4PredMode@[nB.index as int] as int } else { 2 };
                if a < b { a } else { b }
            },
        ),
{
    let mut mode1: u32;
    if !available {
        mode1 = 2;
    } else {
        mode1 = if h264bsdMbPartPredMode(nMbA.mbType) == PRED_MODE_INTRA4x4 {
            nMbA.intra4x4PredMode[nA.index as usize] as u32
        } else {
            2
        };
        let mode2: u32 = if h264bsdMbPartPredMode(nMbB.mbType) == PRED_MODE_INTRA4x4 {
            nMbB.intra4x4PredMode[nB.index as usize] as u32
        } else {
            2
        };
        if mode2 < mode1 {
            mode1 = mode2;
        }
    }
    if pMbLayer.mbPred.prevIntra4x4PredModeFlag[index as usize] == 0 {
        if pMbLayer.mbPred.remIntra4x4PredMode[index as usize] < mode1 {
            mode1 = pMbLayer.mbPred.remIntra4x4PredMode[index as usize];
        } else {
            mode1 = pMbLayer.mbPred.remIntra4x4PredMode[index as usize] + 1;
        }
    }
    mode1
}

/// Sample `k` (0..9) of the row above 4x4 block `b`, from the sample above
/// left on, as Get4x4NeighbourPels takes it.
pub open spec fn pels_a(data: Seq<u8>, above: Seq<u8>, left: Seq<u8>, b: int, k: int) -> u8 {
    let x = 4 * blk_x(b);
    let y = 4 * blk_y(b);
    if k == 0 {
        if y == 0 {
            above[x]
        } else if x == 0 {
            left[y - 1]
        } else {
            data[(y - 1) * 16 + x - 1]
        }
    } else if y == 0 {
        above[x + k]
    } else {
        data[(y - 1) * 16 + x + k - 1]
    }
}

/// Sample `k` (0..5) of the column left of 4x4 block `b`, from the sample
/// above left on.
pub open spec fn pels_l(data: Seq<u8>, above: Seq<u8>, left: Seq<u8>, b: int, k: int) -> u8 {
    let x = 4 * blk_x(b);
    let y = 4 * blk_y(b);
    if k == 0 {
        pels_a(data, above, left, b, 0)
    } else if x == 0 {
        left[y + k - 1]
    } else {
        data[(y + k - 1) * 16 + x - 1]
    }
}

/// Sample (x, y) of the 4x4 prediction of mode `mode` (modes above 8 act
/// as 8).
pub open spec fn pred4(mode: int, a: Seq<u8>, l: Seq<u8>, A: bool, B: bool, x: int, y: int) -> int {
    if mode == 2 {
        dc4x4(a, l, A, B)
    } else {
        intra4x4_sample(if mode > 8 { 8 } else { mode }, a, l, x, y)
    }
}

/// The neighbours that the 4x4 mode `mode` reads are usable.
pub open spec fn mode4_ok(mode: int, A: bool, B: bool, D: bool) -> bool {
    if mode == 0 || mode == 3 || mode == 7 {
        B
    } else if mode == 1 || mode >= 8 {
        A
    } else if mode == 2 {
        true
    } else {
        A && B && D
    }
}

/// Usability of the neighbours A, B, C and D of 4x4 block `b` of
/// macroblock `cur`.
pub open spec fn i4_avail(mbs: Seq<mbStorage_t>, cur: int, cip: bool, b: int) -> (bool, bool, bool, bool) {
    let m = mbs[cur];
    (
        usable(mbs, cur, neighbour_mb(m, cur as usize, left_of(b).0), cip),
        usable(mbs, cur, neighbour_mb(m, cur as usize, above_of(b).0), cip),
        usable(mbs, cur, neighbour_mb(m, cur as usize, above_right_of(b).0), cip),
        usable(mbs, cur, neighbour_mb(m, cur as usize, above_left_of(b).0), cip),
    )
}

/// The intra 4x4 mode of block `b` of macroblock `cur`, its modes so far
/// being `modes`.
pub open spec fn i4_mode(mbs: Seq<mbStorage_t>, cur: int, layer: macroblockLayer_t, cip: bool, modes: Seq<u8>, b: int) -> int {
    let m = mbs[cur];
    let na = left_of(b);
    let nb = above_of(b);
    let av = i4_avail(mbs, cur, cip, b);
    let m1 = if av.0 && av.1 {
        let sa = stored_mode(mbs, cur, modes, neighbour_mb(m, cur as usize, na.0).unwrap() as int, na.1);
        let sb = stored_mode(mbs, cur, modes, neighbour_mb(m, cur as usize, nb.0).unwrap() as int, nb.1);
        if sa < sb {
            sa
        } else {
            sb
        }
    } else {
        2
    };
    coded_mode(layer.mbPred.prevIntra4x4PredModeFlag@[b], layer.mbPred.remIntra4x4PredMode@[b], m1)
}

/// The macroblock array with 4x4 block `b` predicted in mode `mode` from
/// its neighbouring samples (the samples above right replaced by the last
/// one above for the modes that read them when C is not usable) and the
/// residual `res` added.
pub open spec fn i4_data(
    data: Seq<u8>,
    above: Seq<u8>,
    left: Seq<u8>,
    mode: int,
    A: bool,
    B: bool,
    C: bool,
    res: Seq<i32>,
    b: int,
) -> Seq<u8> {
    let a = Seq::new(9, |k: int| pels_a(data, above, left, b, k));
    let l = Seq::new(5, |k: int| pels_l(data, above, left, b, k));
    let a2 = if (mode == 3 || mode == 7) && !C {
        Seq::new(9, |k: int| if k >= 5 { a[4] } else { a[k] })
    } else {
        a
    };
    let o = block_pos(b);
    Seq::new(
        384,
        |k: int|
            if in_block4(k, b) {
                add_res(pred4(mode, a2, l, A, B, (k - o) % 16, (k - o) / 16), res, 4 * ((k - o) / 16) + (k - o) % 16) as u8
            } else {
                data[k]
            },
    )
}

/// One block of the intra 4x4 prediction of macroblock `cur`: from the
/// macroblock array `data` and the current modes `modes`, whether the
/// prediction of block `b` is possible, the array with block `b`
/// predicted and its residual added, and the modes with that of block `b`.
pub open spec fn i4_block(
    mbs: Seq<mbStorage_t>,
    cur: int,
    layer: macroblockLayer_t,
    above: Seq<u8>,
    left: Seq<u8>,
    cip: bool,
    data: Seq<u8>,
    modes: Seq<u8>,
    b: int,
) -> (bool, Seq<u8>, Seq<u8>) {
    let av = i4_avail(mbs, cur, cip, b);
    let mode = i4_mode(mbs, cur, layer, cip, modes, b);
    let modes1 = modes.update(b, mode as u8);
    if !mode4_ok(mode, av.0, av.1, av.3) {
        (false, data, modes1)
    } else {
        (true, i4_data(data, above, left, mode, av.0, av.1, av.2, layer.residual.level@[b]@, b), modes1)
    }
}

/// The intra 4x4 prediction of the first `n` blocks: whether all were
/// possible, the macroblock array and the modes after them (or after the
/// block found impossible).
pub open spec fn i4_run(
    mbs: Seq<mbStorage_t>,
    cur: int,
    layer: macroblockLayer_t,
    above: Seq<u8>,
    left: Seq<u8>,
    cip: bool,
    data: Seq<u8>,
    modes: Seq<u8>,
    n: nat,
) -> (bool, Seq<u8>, Seq<u8>)
    decreases n,
{
    if n == 0 {
        (true, data, modes)
    } else {
        let prev = i4_run(mbs, cur, layer, above, left, cip, data, modes, (n - 1) as nat);
        if !prev.0 {
            prev
        } else {
            i4_block(mbs, cur, layer, above, left, cip, prev.1, prev.2, n - 1)
        }
    }
}

/// All fields of the two macroblock states but the intra 4x4 modes agree.
pub open spec fn same_but_modes(x: mbStorage_t, y: mbStorage_t) -> bool {
    &&& x.mbType == y.mbType
    &&& x.sliceId == y.sliceId
    &&& x.disableDeblockingFilterIdc == y.disableDeblockingFilterIdc
    &&& x.filterOffsetA == y.filterOffsetA
    &&& x.filterOffsetB == y.filterOffsetB
    &&& x.qpY == y.qpY
    &&& x.chromaQpIndexOffset == y.chromaQpIndexOffset
    &&& x.totalCoeff == y.totalCoeff
    &&& x.refPic == y.refPic
    &&& x.refAddr == y.refAddr
    &&& x.mv == y.mv
    &&& x.decoded == y.decoded
    &&& x.mbA == y.mbA
    &&& x.mbB == y.mbB
    &&& x.mbC == y.mbC
    &&& x.mbD == y.mbD
}


/// Usability of a neighbour does not depend on the intra 4x4 modes.
proof fn lemma_usable_modes(mbs: Seq<mbStorage_t>, mbs0: Seq<mbStorage_t>, cur: int, n: Option<usize>, cip: bool)
    requires
        mbs.len() == mbs0.len(),
        0 <= cur < mbs.len(),
        n matches Some(j) ==> j < mbs.len(),
        forall|j: int| 0 <= j < mbs.len() && j != cur ==> mbs[j] == mbs0[j],
        same_but_modes(mbs[cur], mbs0[cur]),
    ensures
        usable(mbs, cur, n, cip) == usable(mbs0, cur, n, cip),
{
    if let Some(j) = n {
        if j as int != cur {
            assert(mbs[j as int] == mbs0[j as int]);
        }
    }
}

/// The mode of 4x4 block `block` of macroblock `cur`, whose state differs
/// from `mbs0` at most in its intra 4x4 modes, and the usability of the
/// block's neighbours A, B, C, D; the mode is stored.
#[verifier::rlimit(40)]
fn intra4x4_mode(
    mbs: &mut Vec<mbStorage_t>,
    cur: usize,
    mbLayer: &macroblockLayer_t,
    constrainedIntraPred: u32,
    block: u32,
    Ghost(mbs0): Ghost<Seq<mbStorage_t>>,
) -> (r: (u32, bool, bool, bool, bool))
    requires
        mb_nbrs_in(mbs0, cur as int),
        block < 16,
        old(mbs)@.len() == mbs0.len(),
        forall|j: int| 0 <= j < mbs0.len() && j != cur ==> old(mbs)@[j] == mbs0[j],
        same_but_modes(old(mbs)@[cur as int], mbs0[cur as int]),
        mbLayer.mbPred.remIntra4x4PredMode@[block as int] < u32::MAX,
    ensures
        ({
            let cip = constrainedIntraPred != 0;
            let av = i4_avail(mbs0, cur as int, cip, block as int);
            let mode = i4_mode(mbs0, cur as int, *mbLayer, cip, old(mbs)@[cur as int].intra4x4PredMode@, block as int);
            &&& r.0 == mode
            &&& (r.1, r.2, r.3, r.4) == av
            &&& final(mbs)@[cur as int].intra4x4PredMode@ == old(mbs)@[cur as int].intra4x4PredMode@.update(
                block as int,
                mode as u8,
            )
        }),
        final(mbs)@.len() == mbs0.len(),
        forall|j: int| 0 <= j < mbs0.len() && j != cur ==> final(mbs)@[j] == mbs0[j],
        same_but_modes(final(mbs)@[cur as int], mbs0[cur as int]),
{
    let ghost cip = constrainedIntraPred != 0;
    let ghost modes = mbs@[cur as int].intra4x4PredMode@;
    let nA = h264bsdNeighbour4x4BlockA(block);
    let nMbA = h264bsdGetNeighbourMb(mbs.as_slice(), cur, nA.mb);
    let availableA = intra_available(mbs.as_slice(), cur, nMbA, constrainedIntraPred);
    let nB = h264bsdNeighbour4x4BlockB(block);
    let nMbB = h264bsdGetNeighbourMb(mbs.as_slice(), cur, nB.mb);
    let availableB = intra_available(mbs.as_slice(), cur, nMbB, constrainedIntraPred);
    let nC = h264bsdNeighbour4x4BlockC(block);
    let nMbC = h264bsdGetNeighbourMb(mbs.as_slice(), cur, nC.mb);
    let availableC = intra_available(mbs.as_slice(), cur, nMbC, constrainedIntraPred);
    let nD = h264bsdNeighbour4x4BlockD(block);
    let nMbD = h264bsdGetNeighbourMb(mbs.as_slice(), cur, nD.mb);
    let availableD = intra_available(mbs.as_slice(), cur, nMbD, constrainedIntraPred);
    proof {
        lemma_usable_modes(mbs@, mbs0, cur as int, nMbA, cip);
        lemma_usable_modes(mbs@, mbs0, cur as int, nMbB, cip);
        lemma_usable_modes(mbs@, mbs0, cur as int, nMbC, cip);
        lemma_usable_modes(mbs@, mbs0, cur as int, nMbD, cip);
    }
    let mA = match nMbA {
        Some(j) => mbs[j],
        None => mbs[cur],
    };
    let mB = match nMbB {
        Some(j) => mbs[j],
        None => mbs[cur],
    };
    let mode = DetermineIntra4x4PredMode(mbLayer, availableA && availableB, &nA, &nB, block, &mA, &mB);
    proof {
        if availableA && availableB {
            let ja = nMbA.unwrap() as int;
            let jb = nMbB.unwrap() as int;
            assert(stored_mode(mbs0, cur as int, modes, ja, nA.index as int) == (if mA.mbType == I_4x4 {
                mA.intra4x4PredMode@[nA.index as int] as int
            } else {
                2
            }));
            assert(stored_mode(mbs0, cur as int, modes, jb, nB.index as int) == (if mB.mbType == I_4x4 {
                mB.intra4x4PredMode@[nB.index as int] as int
            } else {
                2
            }));
        }
    }
    let mut m = mbs[cur];
    m.intra4x4PredMode[block as usize] = mode as u8;
    mbs.set(cur, m);
    proof {
        assert(mbs@[cur as int].intra4x4PredMode@ =~= modes.update(block as int, mode as u8));
    }
    (mode, availableA, availableB, availableC, availableD)
}

/// Predict 4x4 block `block` in mode `mode` into the macroblock array and
/// add its residual.
#[verifier::rlimit(40)]
fn intra4x4_predict(
    data: &mut [u8; 384],
    above: &[u8; 39],
    left: &[u8; 32],
    mode: u32,
    availableA: bool,
    availableB: bool,
    availableC: bool,
    residual: &[i32; 16],
    block: u32,
)
    requires
        block < 16,
        residual_ok(residual@),
    ensures
        final(data)@ == i4_data(
            old(data)@,
            above@,
            left@,
            mode as int,
            availableA,
            availableB,
            availableC,
            residual@,
            block as int,
        ),
{
    let ghost d0 = data@;
    let ghost b = block as int;
    let (mut a, l) = Get4x4NeighbourPels(data, above, left, block);
    let ghost ga = a@;
    if (mode == 3 || mode == 7) && !availableC {
        let t = a[4];
        a[5] = t;
        a[6] = t;
        a[7] = t;
        a[8] = t;
    }
    proof {
        assert(ga =~= Seq::new(9, |k: int| pels_a(d0, above@, left@, b, k)));
        assert(l@ =~= Seq::new(5, |k: int| pels_l(d0, above@, left@, b, k)));
        if (mode == 3 || mode == 7) && !availableC {
            assert(a@ =~= Seq::new(
                9,
                |k: int| if k >= 5 { pels_a(d0, above@, left@, b, 4) } else { pels_a(d0, above@, left@, b, k) },
            ));
        } else {
            assert(a@ =~= Seq::new(9, |k: int| pels_a(d0, above@, left@, b, k)));
        }
        assert(a[0] == l[0]);
    }
    let d4 = if mode == 0 {
        Intra4x4VerticalPrediction(&a)
    } else if mode == 1 {
        Intra4x4HorizontalPrediction(&l)
    } else if mode == 2 {
        Intra4x4DcPrediction(&a, &l, availableA, availableB)
    } else if mode == 3 {
        Intra4x4DiagonalDownLeftPrediction(&a)
    } else if mode == 4 {
        Intra4x4DiagonalDownRightPrediction(&a, &l)
    } else if mode == 5 {
        Intra4x4VerticalRightPrediction(&a, &l)
    } else if mode == 6 {
        Intra4x4HorizontalDownPrediction(&a, &l)
    } else if mode == 7 {
        Intra4x4VerticalLeftPrediction(&a)
    } else {
        Intra4x4HorizontalUpPrediction(&l)
    };
    proof {
        assert forall|i: int| 0 <= i < 16 implies #[trigger] d4@[i] as int == pred4(
            mode as int,
            a@,
            l@,
            availableA,
            availableB,
            i % 4,
            i / 4,
        ) by {
            if mode == 0 {
                assert(is_pred4x4(d4@, 0, a@, l@));
            } else if mode == 1 {
                assert(is_pred4x4(d4@, 1, a@, l@));
            } else if mode == 3 {
                assert(is_pred4x4(d4@, 3, a@, l@));
            } else if mode == 7 {
                assert(is_pred4x4(d4@, 7, a@, l@));
            } else if mode >= 8 {
                assert(is_pred4x4(d4@, 8, a@, l@));
            }
        }
    }
    Write4x4To16x16(data, &d4, block);
    let ghost d1 = data@;
    h264bsdAddResidual(data, residual, block);
    proof {
        lemma_i4_block_written(d0, d1, data@, d4@, above@, left@, mode as int, availableA, availableB, availableC, residual@, b, a@, l@);
    }
}

/// The macroblock array after the 4x4 prediction `d4` of block `b` is
/// written and the residual added is the one of i4_data.
#[verifier::spinoff_prover]
#[verifier::rlimit(40)]
proof fn lemma_i4_block_written(
    d0: Seq<u8>,
    d1: Seq<u8>,
    d2: Seq<u8>,
    d4: Seq<u8>,
    above: Seq<u8>,
    left: Seq<u8>,
    mode: int,
    A: bool,
    B: bool,
    C: bool,
    res: Seq<i32>,
    b: int,
    a: Seq<u8>,
    l: Seq<u8>,
)
    requires
        0 <= b < 16,
        d0.len() == 384,
        d1.len() == 384,
        d2.len() == 384,
        a == (if (mode == 3 || mode == 7) && !C {
            Seq::new(9, |k: int| if k >= 5 { pels_a(d0, above, left, b, 4) } else { pels_a(d0, above, left, b, k) })
        } else {
            Seq::new(9, |k: int| pels_a(d0, above, left, b, k))
        }),
        l == Seq::new(5, |k: int| pels_l(d0, above, left, b, k)),
        forall|i: int| 0 <= i < 16 ==> #[trigger] d4[i] as int == pred4(mode, a, l, A, B, i % 4, i / 4),
        forall|r: int, c: int|
            0 <= r < 4 && 0 <= c < 4 ==> #[trigger] d1[(4 * blk_y(b) + r) * 16 + 4 * blk_x(b) + c] == d4[4 * r + c],
        forall|k: int| 0 <= k < 384 && !in_4x4(k, 4 * blk_x(b), 4 * blk_y(b), 16, 0) ==> d1[k] == d0[k],
        forall|r: int, c: int|
            0 <= r < 4 && 0 <= c < 4 ==> #[trigger] d2[block_pos(b) + r * block_stride(b) + c] as int == add_res(
                d1[block_pos(b) + r * block_stride(b) + c] as int,
                res,
                4 * r + c,
            ),
        forall|k: int| 0 <= k < 384 && !in_block4(k, b) ==> d2[k] == d1[k],
    ensures
        d2 == i4_data(d0, above, left, mode, A, B, C, res, b),
{
    lemma_blk_grid(b);
    let o = block_pos(b);
    let st = i4_data(d0, above, left, mode, A, B, C, res, b);
    let ga = Seq::new(9, |k: int| pels_a(d0, above, left, b, k));
    if (mode == 3 || mode == 7) && !C {
        assert(a =~= Seq::new(9, |k: int| if k >= 5 { ga[4] } else { ga[k] }));
    }
    assert forall|k: int| 0 <= k < 384 implies #[trigger] d2[k] == st[k] by {
        if in_block4(k, b) {
            let t = k - o;
            let r = t / 16;
            let c = t % 16;
            assert(k == o + r * 16 + c);
            assert(d1[(4 * blk_y(b) + r) * 16 + 4 * blk_x(b) + c] == d4[4 * r + c]);
            assert((4 * r + c) % 4 == c && (4 * r + c) / 4 == r);
            assert(d4[4 * r + c] as int == pred4(mode, a, l, A, B, c, r));
            assert(d2[o + r * block_stride(b) + c] as int == add_res(d1[o + r * block_stride(b) + c] as int, res, 4 * r + c));
        } else {
            assert(!in_4x4(k, 4 * blk_x(b), 4 * blk_y(b), 16, 0));
        }
    }
    assert(d2 =~= st);
}

/// Intra 4x4 prediction of block `block` of macroblock `cur`, whose state
/// differs from `mbs0` at most in its intra 4x4 modes: the mode is stored,
/// and the block predicted with its residual added when its neighbours
/// allow.
fn intra4x4_block(
    mbs: &mut Vec<mbStorage_t>,
    cur: usize,
    data: &mut [u8; 384],
    mbLayer: &macroblockLayer_t,
    above: &[u8; 39],
    left: &[u8; 32],
    constrainedIntraPred: u32,
    block: u32,
    Ghost(mbs0): Ghost<Seq<mbStorage_t>>,
) -> (ok: bool)
    requires
        mb_nbrs_in(mbs0, cur as int),
        block < 16,
        old(mbs)@.len() == mbs0.len(),
        forall|j: int| 0 <= j < mbs0.len() && j != cur ==> old(mbs)@[j] == mbs0[j],
        same_but_modes(old(mbs)@[cur as int], mbs0[cur as int]),
        mbLayer.mbPred.remIntra4x4PredMode@[block as int] < u32::MAX,
        residual_ok(mbLayer.residual.level@[block as int]@),
    ensures
        ({
            let st = i4_block(
                mbs0,
                cur as int,
                *mbLayer,
                above@,
                left@,
                constrainedIntraPred != 0,
                old(data)@,
                old(mbs)@[cur as int].intra4x4PredMode@,
                block as int,
            );
            &&& ok == st.0
            &&& final(data)@ == st.1
            &&& final(mbs)@[cur as int].intra4x4PredMode@ == st.2
        }),
        final(mbs)@.len() == mbs0.len(),
        forall|j: int| 0 <= j < mbs0.len() && j != cur ==> final(mbs)@[j] == mbs0[j],
        same_but_modes(final(mbs)@[cur as int], mbs0[cur as int]),
{
    let (mode, availableA, availableB, availableC, availableD) = intra4x4_mode(
        mbs,
        cur,
        mbLayer,
        constrainedIntraPred,
        block,
        Ghost(mbs0),
    );
    let ok = if mode == 0 || mode == 3 || mode == 7 {
        availableB
    } else if mode == 1 || mode >= 8 {
        availableA
    } else if mode == 2 {
        true
    } else {
        availableA && availableB && availableD
    };
    if !ok {
        return false;
    }
    intra4x4_predict(
        data,
        above,
        left,
        mode,
        availableA,
        availableB,
        availableC,
        &mbLayer.residual.level[block as usize],
        block,
    );
    true
}

/// Intra 4x4 luma prediction of macroblock `cur` into the luma of `data`,
/// block by block in decoding order: the mode of each block is derived
/// from its neighbours' and the coded one and stored in the macroblock's
/// modes, and the block is predicted from the samples of the blocks
/// before it, `above` and `left`, with its residual added. HANTRO_NOK when
/// the mode of a block needs a neighbour that cannot be used; the blocks
/// and modes after it are then left.
pub fn h264bsdIntra4x4Prediction(
    mbs: &mut Vec<mbStorage_t>,
    cur: usize,
    data: &mut [u8; 384],
    mbLayer: &macroblockLayer_t,
    above: &[u8; 39],
    left: &[u8; 32],
    constrainedIntraPred: u32,
) -> (r: u32)
    requires
        mb_nbrs_in(old(mbs)@, cur as int),
        forall|b: int| 0 <= b < 16 ==> #[trigger] mbLayer.mbPred.remIntra4x4PredMode@[b] < u32::MAX,
        forall|b: int| 0 <= b < 16 ==> residual_ok(#[trigger] mbLayer.residual.level@[b]@),
    ensures
        ({
            let st = i4_run(
                old(mbs)@,
                cur as int,
                *mbLayer,
                above@,
                left@,
                constrainedIntraPred != 0,
                old(data)@,
                old(mbs)@[cur as int].intra4x4PredMode@,
                16,
            );
            &&& r == if st.0 { HANTRO_OK } else { HANTRO_NOK }
            &&& final(data)@ == st.1
            &&& final(mbs)@[cur as int].intra4x4PredMode@ == st.2
        }),
        final(mbs)@.len() == old(mbs)@.len(),
        forall|j: int| 0 <= j < old(mbs)@.len() && j != cur ==> final(mbs)@[j] == old(mbs)@[j],
        same_but_modes(final(mbs)@[cur as int], old(mbs)@[cur as int]),
{
    let ghost mbs0 = mbs@;
    let ghost d0 = data@;
    let ghost m0 = mbs@[cur as int].intra4x4PredMode@;
    let mut block: u32 = 0;
    while block < 16
        invariant
            block <= 16,
            mbs0 == old(mbs)@,
            d0 == old(data)@,
            m0 == old(mbs)@[cur as int].intra4x4PredMode@,
            mb_nbrs_in(mbs0, cur as int),
            forall|b: int| 0 <= b < 16 ==> #[trigger] mbLayer.mbPred.remIntra4x4PredMode@[b] < u32::MAX,
            forall|b: int| 0 <= b < 16 ==> residual_ok(#[trigger] mbLayer.residual.level@[b]@),
            mbs@.len() == mbs0.len(),
            forall|j: int| 0 <= j < mbs0.len() && j != cur ==> mbs@[j] == mbs0[j],
            same_but_modes(mbs@[cur as int], mbs0[cur as int]),
            ({
                let st = i4_run(mbs0, cur as int, *mbLayer, above@, left@, constrainedIntraPred != 0, d0, m0, block as nat);
                &&& st.0
                &&& data@ == st.1
                &&& mbs@[cur as int].intra4x4PredMode@ == st.2
            }),
        decreases 16 - block,
    {
        let ok = intra4x4_block(mbs, cur, data, mbLayer, above, left, constrainedIntraPred, block, Ghost(mbs0));
        if !ok {
            proof {
                let n = (block + 1) as nat;
                lemma_i4_run_stops(mbs0, cur as int, *mbLayer, above@, left@, constrainedIntraPred != 0, d0, m0, n, 16);
            }
            return HANTRO_NOK;
        }
        block += 1;
    }
    HANTRO_OK
}

/// Once a block is found impossible, the run stays as it is.
proof fn lemma_i4_run_stops(
    mbs: Seq<mbStorage_t>,
    cur: int,
    layer: macroblockLayer_t,
    above: Seq<u8>,
    left: Seq<u8>,
    cip: bool,
    data: Seq<u8>,
    modes: Seq<u8>,
    n: nat,
    q: nat,
)
    requires
        n <= q,
        !i4_run(mbs, cur, layer, above, left, cip, data, modes, n).0,
    ensures
        i4_run(mbs, cur, layer, above, left, cip, data, modes, q) == i4_run(mbs, cur, layer, above, left, cip, data, modes, n),
    decreases q - n,
{
    if n < q {
        lemma_i4_run_stops(mbs, cur, layer, above, left, cip, data, modes, n, (q - 1) as nat);
    }
}


/// The intra 4x4 prediction leaves the chroma of the macroblock array.
proof fn lemma_i4_run_chroma(
    mbs: Seq<mbStorage_t>,
    cur: int,
    layer: macroblockLayer_t,
    above: Seq<u8>,
    left: Seq<u8>,
    cip: bool,
    data: Seq<u8>,
    modes: Seq<u8>,
    n: nat,
)
    requires
        n <= 16,
        data.len() == 384,
    ensures
        i4_run(mbs, cur, layer, above, left, cip, data, modes, n).1.len() == 384,
        forall|k: int|
            256 <= k < 384 ==> #[trigger] i4_run(mbs, cur, layer, above, left, cip, data, modes, n).1[k] == data[k],
    decreases n,
{
    if n > 0 {
        lemma_i4_run_chroma(mbs, cur, layer, above, left, cip, data, modes, (n - 1) as nat);
        let b = n - 1;
        lemma_blk_grid(b);
        assert forall|k: int| 256 <= k < 384 implies !in_block4(k, b) by {}
    }
}

/// The samples around macroblock `mbNum` that h264bsdGetNeighbourPels
/// puts into zeroed arrays: the row above (luma, Cb, Cr), zero where not
/// read.
pub open spec fn pel_above(image: image_t, mbNum: int) -> Seq<u8> {
    let w = image.width as int;
    let d = image.data@;
    Seq::new(
        39,
        |k: int|
            if mbNum == 0 || mbNum / w == 0 {
                0u8
            } else if k < 21 {
                d[image.mb_luma(mbNum) - 16 * w - 1 + k]
            } else if k < 30 {
                d[image.mb_cb(mbNum) - 8 * w - 1 + (k - 21)]
            } else {
                d[image.mb_cr(mbNum) - 8 * w - 1 + (k - 30)]
            },
    )
}

/// The column left of macroblock `mbNum` (luma, Cb, Cr), zero where not
/// read.
pub open spec fn pel_left(image: image_t, mbNum: int) -> Seq<u8> {
    let w = image.width as int;
    let d = image.data@;
    Seq::new(
        32,
        |k: int|
            if mbNum == 0 || mbNum % w == 0 {
                0u8
            } else if k < 16 {
                d[image.mb_luma(mbNum) - 1 + k * (16 * w)]
            } else if k < 24 {
                d[image.mb_cb(mbNum) - 1 + (k - 16) * (8 * w)]
            } else {
                d[image.mb_cr(mbNum) - 1 + (k - 24) * (8 * w)]
            },
    )
}

/// Intra prediction of macroblock `cur` (number `mbNum` in `image`, whose
/// current macroblock it is) from the samples around it in `image`: the
/// luma by its 16x16 or 4x4 prediction and the chroma by its chroma mode,
/// with the residual of `mbLayer` added, into `data`; unless the
/// macroblock was already decoded (its decoded count above 1) the result
/// is written into `image`. HANTRO_NOK when a prediction needs a
/// neighbour that cannot be used.
#[verifier::rlimit(40)]
pub fn h264bsdIntraPrediction(
    mbs: &mut Vec<mbStorage_t>,
    cur: usize,
    mbLayer: &macroblockLayer_t,
    image: &mut image_t,
    mbNum: u32,
    constrainedIntraPred: u32,
    data: &mut [u8; 384],
) -> (r: u32)
    requires
        mb_nbrs_in(old(mbs)@, cur as int),
        old(image).wf(),
        old(image).current_ok(),
        mbNum < old(image).width * old(image).height,
        forall|b: int| 0 <= b < 16 ==> #[trigger] mbLayer.mbPred.remIntra4x4PredMode@[b] < u32::MAX,
        forall|b: int| 0 <= b < 24 ==> residual_ok(#[trigger] mbLayer.residual.level@[b]@),
    ensures
        ({
            let m = old(mbs)@[cur as int];
            let cip = constrainedIntraPred != 0;
            let ab = pel_above(*old(image), mbNum as int);
            let lf = pel_left(*old(image), mbNum as int);
            let A = usable(old(mbs)@, cur as int, m.mbA, cip);
            let B = usable(old(mbs)@, cur as int, m.mbB, cip);
            let D = usable(old(mbs)@, cur as int, m.mbD, cip);
            let is16 = m.mbType > I_4x4;
            let mode16 = (m.mbType - I_16x16_0_0_0) % 4;
            let run = i4_run(old(mbs)@, cur as int, *mbLayer, ab, lf, cip, old(data)@, m.intra4x4PredMode@, 16);
            let luma_ok = if is16 { intra16x16_ok(mode16, A, B, D) } else { run.0 };
            let pm = mbLayer.mbPred.intraChromaPredMode;
            let cmode = if pm > 3 { 3int } else { pm as int };
            let ok = luma_ok && chroma_ok(cmode, A, B, D);
            &&& r == if ok { HANTRO_OK } else { HANTRO_NOK }
            &&& is16 && luma_ok ==> forall|b: int, y: int, x: int|
                0 <= b < 16 && 0 <= y < 4 && 0 <= x < 4 ==> #[trigger] final(data)@[block_pos(b) + 16 * y + x] as int
                    == add_res(
                    intra16x16_sample(mode16, ab, lf, A, B, 4 * blk_x(b) + x, 4 * blk_y(b) + y),
                    mbLayer.residual.level@[b]@,
                    4 * y + x,
                )
            &&& is16 && !luma_ok ==> final(data)@ == old(data)@
            &&& !is16 ==> forall|k: int| 0 <= k < 256 ==> #[trigger] final(data)@[k] == run.1[k]
            &&& !is16 ==> final(mbs)@[cur as int].intra4x4PredMode@ == run.2
            &&& is16 ==> final(mbs)@ == old(mbs)@
            &&& final(mbs)@.len() == old(mbs)@.len()
            &&& forall|j: int| 0 <= j < old(mbs)@.len() && j != cur ==> final(mbs)@[j] == old(mbs)@[j]
            &&& same_but_modes(final(mbs)@[cur as int], old(mbs)@[cur as int])
            &&& ok ==> forall|b: int, y: int, x: int|
                16 <= b < 24 && 0 <= y < 4 && 0 <= x < 4 ==> #[trigger] final(data)@[block_pos(b) + 8 * y + x] as int
                    == add_res(
                    chroma_sample(cmode, ab, lf, (b - 16) / 4, A, B, 4 * ((b - 16) % 2) + x, 4 * (((b - 16) % 4) / 2) + y),
                    mbLayer.residual.level@[b]@,
                    4 * y + x,
                )
            &&& !ok ==> forall|k: int| 256 <= k < 384 ==> #[trigger] final(data)@[k] == old(data)@[k]
            &&& ok && m.decoded <= 1 ==> {
                &&& final(image).width == old(image).width
                &&& final(image).height == old(image).height
                &&& final(image).luma == old(image).luma
                &&& final(image).cb == old(image).cb
                &&& final(image).cr == old(image).cr
                &&& final(image).data.len() == old(image).data.len()
                &&& forall|x: int, y: int|
                    0 <= x < 16 && 0 <= y < 16 ==> #[trigger] final(image).data@[old(image).luma + y * (16 * old(
                        image,
                    ).width) + x] == final(data)@[16 * y + x]
                &&& forall|x: int, y: int|
                    0 <= x < 8 && 0 <= y < 8 ==> #[trigger] final(image).data@[old(image).cb + y * (8 * old(image).width)
                        + x] == final(data)@[256 + 8 * y + x]
                &&& forall|x: int, y: int|
                    0 <= x < 8 && 0 <= y < 8 ==> #[trigger] final(image).data@[old(image).cr + y * (8 * old(image).width)
                        + x] == final(data)@[320 + 8 * y + x]
                &&& forall|k: int|
                    0 <= k < old(image).data.len() && !in_block(k, 16 * old(image).width, old(image).luma as int, 16, 16)
                        && !in_block(k, 8 * old(image).width, old(image).cb as int, 8, 8) && !in_block(
                        k,
                        8 * old(image).width,
                        old(image).cr as int,
                        8,
                        8,
                    ) ==> final(image).data@[k] == old(image).data@[k]
            }
            &&& !(ok && m.decoded <= 1) ==> *final(image) == *old(image)
        }),
{
    let mut pelAbove: [u8; 39] = [0; 39];
    let mut pelLeft: [u8; 32] = [0; 32];
    let ghost z39 = pelAbove@;
    let ghost z32 = pelLeft@;
    h264bsdGetNeighbourPels(image, &mut pelAbove, &mut pelLeft, mbNum);
    proof {
        let w = image.width as int;
        assert forall|k: int| 0 <= k < 39 implies #[trigger] pelAbove@[k] == pel_above(*image, mbNum as int)[k] by {
            if mbNum == 0 || mbNum as int / w == 0 {
                assert(z39[k] == 0);
            } else if 21 <= k < 30 {
                assert(pelAbove@[21 + (k - 21)] == image.data@[image.mb_cb(mbNum as int) - 8 * w - 1 + (k - 21)]);
            } else if 30 <= k {
                assert(pelAbove@[30 + (k - 30)] == image.data@[image.mb_cr(mbNum as int) - 8 * w - 1 + (k - 30)]);
            }
        }
        assert forall|k: int| 0 <= k < 32 implies #[trigger] pelLeft@[k] == pel_left(*image, mbNum as int)[k] by {
            if mbNum == 0 || mbNum as int % w == 0 {
                assert(z32[k] == 0);
            } else if 16 <= k < 24 {
                assert(pelLeft@[16 + (k - 16)] == image.data@[image.mb_cb(mbNum as int) - 1 + (k - 16) * (8 * w)]);
            } else if 24 <= k {
                assert(pelLeft@[24 + (k - 24)] == image.data@[image.mb_cr(mbNum as int) - 1 + (k - 24) * (8 * w)]);
            }
        }
        assert(pelAbove@ =~= pel_above(*image, mbNum as int));
        assert(pelLeft@ =~= pel_left(*image, mbNum as int));
    }
    let ghost d0 = data@;
    let ghost mbs0 = mbs@;
    if h264bsdMbPartPredMode(mbs[cur].mbType) == crate::macroblock::PRED_MODE_INTRA16x16 {
        let tmp = h264bsdIntra16x16Prediction(
            mbs.as_slice(),
            cur,
            data,
            &mbLayer.residual.level,
            &pelAbove,
            &pelLeft,
            constrainedIntraPred,
        );
        if tmp != HANTRO_OK {
            return tmp;
        }
    } else {
        let tmp = h264bsdIntra4x4Prediction(mbs, cur, data, mbLayer, &pelAbove, &pelLeft, constrainedIntraPred);
        proof {
            lemma_i4_run_chroma(
                mbs0,
                cur as int,
                *mbLayer,
                pelAbove@,
                pelLeft@,
                constrainedIntraPred != 0,
                d0,
                mbs0[cur as int].intra4x4PredMode@,
                16,
            );
        }
        if tmp != HANTRO_OK {
            return tmp;
        }
    }
    proof {
        lemma_usable_modes(mbs@, mbs0, cur as int, mbs0[cur as int].mbA, constrainedIntraPred != 0);
        lemma_usable_modes(mbs@, mbs0, cur as int, mbs0[cur as int].mbB, constrainedIntraPred != 0);
        lemma_usable_modes(mbs@, mbs0, cur as int, mbs0[cur as int].mbD, constrainedIntraPred != 0);
    }
    let ghost d1 = data@;
    let tmp = h264bsdIntraChromaPrediction(
        mbs.as_slice(),
        cur,
        data,
        &mbLayer.residual.level,
        &pelAbove,
        &pelLeft,
        mbLayer.mbPred.intraChromaPredMode,
        constrainedIntraPred,
    );
    if tmp != HANTRO_OK {
        return tmp;
    }
    if mbs[cur].decoded > 1 {
        return HANTRO_OK;
    }
    h264bsdWriteMacroblock(image, data);
    HANTRO_OK
}


/// The DC prediction of a 16x16 luma block (H.264 8.3.3.3) is the mean of
/// the samples of the available neighbours, rounded to the nearest integer
/// with halves rounded up: of the 16 samples above and the 16 on the left
/// when both are available, of the 16 of the one that is, and 128 when
/// neither is.
pub proof fn lemma_dc16x16_mean(above: Seq<u8>, left: Seq<u8>, availableA: bool, availableB: bool)
    ensures
        ({
            let dc = dc16x16(above, left, availableA, availableB);
            let sa = sum_row(above, 1, 16);
            let sl = sum_row(left, 0, 16);
            &&& availableA && availableB ==> 32 * dc <= sa + sl + 16 < 32 * dc + 32
            &&& availableA && !availableB ==> 16 * dc <= sl + 8 < 16 * dc + 16
            &&& !availableA && availableB ==> 16 * dc <= sa + 8 < 16 * dc + 16
            &&& !availableA && !availableB ==> dc == 128
        }),
{
    let sa = sum_row(above, 1, 16);
    let sl = sum_row(left, 0, 16);
    vstd::arithmetic::div_mod::lemma_fundamental_div_mod(sa + sl + 16, 32);
    vstd::arithmetic::div_mod::lemma_fundamental_div_mod(sl + 8, 16);
    vstd::arithmetic::div_mod::lemma_fundamental_div_mod(sa + 8, 16);
}

} // verus!
