//! Deblocking filter: which edges of a macroblock are filtered and the
//! boundary strength of each 4x4 block edge.
use vstd::prelude::*;
use crate::defs::{HANTRO_FALSE, HANTRO_TRUE};
use crate::macroblock::{mbStorage_t, mv_t, IS_INTRA_MB, P_L0_16x16, P_L0_L0_16x8, P_L0_L0_8x16, P_Skip};

verus! {

/// Raster index (row-major 4x4 grid) to 4x4 block index.
pub const mb4x4Index: [u32; 16] = [0, 1, 4, 5, 2, 3, 6, 7, 8, 9, 12, 13, 10, 11, 14, 15];

/// Boundary strengths of the top and the left edge of one 4x4 block.
#[derive(Clone, Copy)]
pub struct bS_t {
    pub top: u32,
    pub left: u32,
}

pub const TOP: u32 = 0;
pub const LEFT: u32 = 1;
pub const INNER: u32 = 2;

pub const FILTER_LEFT_EDGE: u32 = 0x04;
pub const FILTER_TOP_EDGE: u32 = 0x02;
pub const FILTER_INNER_EDGE: u32 = 0x01;

/// 4x4 block index of raster position `r`.
pub open spec fn blk(r: int) -> int {
    mb4x4Index@[r] as int
}

/// Is the macroblock intra coded?
pub open spec fn is_intra(mb: mbStorage_t) -> bool {
    mb.mbType > 5
}

/// |x|
pub open spec fn abs_int(x: int) -> int {
    if x < 0 {
        -x
    } else {
        x
    }
}

/// The two motion vectors differ by four quarter samples or more in either
/// component.
pub open spec fn mv_far(a: mv_t, b: mv_t) -> bool {
    abs_int(a.hor - b.hor) >= 4 || abs_int(a.ver - b.ver) >= 4
}

/// 2 when block `i1` or block `i2` of `mb` has coefficients, 0 otherwise.
pub open spec fn coeff_bs(mb: mbStorage_t, i1: int, i2: int) -> u32 {
    if mb.totalCoeff@[i1] != 0 || mb.totalCoeff@[i2] != 0 {
        2
    } else {
        0
    }
}

/// Boundary strength between blocks `i1` and `i2` of one inter macroblock.
pub open spec fn inner_bs(mb: mbStorage_t, i1: int, i2: int) -> u32 {
    if mb.totalCoeff@[i1] != 0 || mb.totalCoeff@[i2] != 0 {
        2
    } else if mv_far(mb.mv@[i1], mb.mv@[i2]) || mb.refAddr@[i1 / 4] != mb.refAddr@[i2 / 4] {
        1
    } else {
        0
    }
}

/// Boundary strength between block `i1` of `mb1` and block `i2` of the
/// neighbouring inter macroblock `mb2`.
pub open spec fn edge_bs(mb1: mbStorage_t, mb2: mbStorage_t, i1: int, i2: int) -> u32 {
    if mb1.totalCoeff@[i1] != 0 || mb2.totalCoeff@[i2] != 0 {
        2
    } else if mb1.refAddr@[i1 / 4] != mb2.refAddr@[i2 / 4] || mv_far(mb1.mv@[i1], mb2.mv@[i2]) {
        1
    } else {
        0
    }
}

/// Strength of the top edge of the block at raster position `r` (4..15)
/// inside the inter macroblock `mb`. Where one partition covers both
/// blocks only the coefficients count.
pub open spec fn inner_top_bs(mb: mbStorage_t, r: int) -> u32 {
    if mb.mbType == P_L0_16x16 || mb.mbType == P_Skip || mb.mbType == P_L0_L0_8x16 || (mb.mbType
        == P_L0_L0_16x8 && !(8 <= r < 12)) {
        coeff_bs(mb, blk(r), blk(r - 4))
    } else {
        inner_bs(mb, blk(r), blk(r - 4))
    }
}

/// Strength of the left edge of the block at raster position `r`
/// (r % 4 != 0) inside the inter macroblock `mb`.
pub open spec fn inner_left_bs(mb: mbStorage_t, r: int) -> u32 {
    if mb.mbType == P_L0_16x16 || mb.mbType == P_Skip || mb.mbType == P_L0_L0_16x8 || (mb.mbType
        == P_L0_L0_8x16 && r % 4 != 2) {
        coeff_bs(mb, blk(r), blk(r - 1))
    } else {
        inner_bs(mb, blk(r), blk(r - 1))
    }
}

/// The top-edge strength of raster block `r` of macroblock `cur`, as the
/// filter flags `flags` select the edges.
pub open spec fn top_bs(mbs: Seq<mbStorage_t>, cur: int, flags: u32, r: int) -> u32 {
    let mb = mbs[cur];
    if r < 4 {
        if flags & FILTER_TOP_EDGE == 0 {
            0
        } else {
            let nb = mbs[mb.mbB.unwrap() as int];
            if is_intra(mb) || is_intra(nb) {
                4
            } else {
                edge_bs(mb, nb, blk(r), blk(r + 12))
            }
        }
    } else if is_intra(mb) {
        3
    } else {
        inner_top_bs(mb, r)
    }
}

/// The left-edge strength of raster block `r` of macroblock `cur`.
pub open spec fn left_bs(mbs: Seq<mbStorage_t>, cur: int, flags: u32, r: int) -> u32 {
    let mb = mbs[cur];
    if r % 4 == 0 {
        if flags & FILTER_LEFT_EDGE == 0 {
            0
        } else {
            let nb = mbs[mb.mbA.unwrap() as int];
            if is_intra(mb) || is_intra(nb) {
                4
            } else {
                edge_bs(mb, nb, blk(r), blk(r + 3))
            }
        }
    } else if is_intra(mb) {
        3
    } else {
        inner_left_bs(mb, r)
    }
}

/// One of the two strengths of raster block `r` is non-zero.
pub open spec fn block_bs_nonzero(mbs: Seq<mbStorage_t>, cur: int, flags: u32, r: int) -> bool {
    top_bs(mbs, cur, flags, r) != 0 || left_bs(mbs, cur, flags, r) != 0
}

/// Some boundary strength of the macroblock is non-zero.
pub open spec fn any_nonzero_bs(mbs: Seq<mbStorage_t>, cur: int, flags: u32) -> bool {
    exists|r: int| 0 <= r < 16 && #[trigger] block_bs_nonzero(mbs, cur, flags, r)
}

/// The neighbours that the flags `flags` ask to filter against exist in
/// `mbs`.
pub open spec fn edge_neighbours_present(mbs: Seq<mbStorage_t>, cur: int, flags: u32) -> bool {
    &&& 0 <= cur < mbs.len()
    &&& flags & FILTER_TOP_EDGE != 0 ==> (mbs[cur].mbB matches Some(b) && b < mbs.len())
    &&& flags & FILTER_LEFT_EDGE != 0 ==> (mbs[cur].mbA matches Some(a) && a < mbs.len())
}

/// The edges of macroblock `cur` that the deblocking filter filters: none
/// when it is disabled; the inner edges otherwise, and the left (top) edge
/// when the left (upper) neighbour exists and, with disableDeblockingFilterIdc
/// equal to 2, lies in the same slice.
pub open spec fn filtering_flags(mbs: Seq<mbStorage_t>, cur: int) -> u32 {
    let mb = mbs[cur];
    if mb.disableDeblockingFilterIdc == 1 {
        0
    } else {
        let left = mb.mbA matches Some(a) && (mb.disableDeblockingFilterIdc != 2 || mbs[a as int].sliceId
            == mb.sliceId);
        let top = mb.mbB matches Some(b) && (mb.disableDeblockingFilterIdc != 2 || mbs[b as int].sliceId
            == mb.sliceId);
        (FILTER_INNER_EDGE + (if left { FILTER_LEFT_EDGE } else { 0 }) + (if top {
            FILTER_TOP_EDGE
        } else {
            0
        })) as u32
    }
}

/// The neighbour addresses of macroblock `cur` point into `mbs`.
pub open spec fn neighbours_in(mbs: Seq<mbStorage_t>, cur: int) -> bool {
    &&& 0 <= cur < mbs.len()
    &&& mbs[cur].mbA matches Some(a) ==> a < mbs.len()
    &&& mbs[cur].mbB matches Some(b) ==> b < mbs.len()
}

/// Is there a slice boundary between macroblock `cur` and its left
/// neighbour?
pub fn IsSliceBoundaryOnLeft(mbs: &[mbStorage_t], cur: usize) -> (r: u32)
    requires
        cur < mbs.len(),
        mbs@[cur as int].mbA matches Some(a) && a < mbs.len(),
    ensures
        r == (if mbs@[cur as int].sliceId != mbs@[mbs@[cur as int].mbA.unwrap() as int].sliceId {
            HANTRO_TRUE
        } else {
            HANTRO_FALSE
        }),
{
    let mb = &mbs[cur];
    let a = mb.mbA.unwrap();
    if mb.sliceId != mbs[a].sliceId {
        HANTRO_TRUE
    } else {
        HANTRO_FALSE
    }
}

/// Is there a slice boundary between macroblock `cur` and the macroblock
/// above it?
pub fn IsSliceBoundaryOnTop(mbs: &[mbStorage_t], cur: usize) -> (r: u32)
    requires
        cur < mbs.len(),
        mbs@[cur as int].mbB matches Some(b) && b < mbs.len(),
    ensures
        r == (if mbs@[cur as int].sliceId != mbs@[mbs@[cur as int].mbB.unwrap() as int].sliceId {
            HANTRO_TRUE
        } else {
            HANTRO_FALSE
        }),
{
    let mb = &mbs[cur];
    let b = mb.mbB.unwrap();
    if mb.sliceId != mbs[b].sliceId {
        HANTRO_TRUE
    } else {
        HANTRO_FALSE
    }
}

/// Which edges of macroblock `cur` are filtered: FILTER_LEFT_EDGE,
/// FILTER_TOP_EDGE and FILTER_INNER_EDGE or-ed together.
pub fn GetMbFilteringFlags(mbs: &[mbStorage_t], cur: usize) -> (flags: u32)
    requires
        neighbours_in(mbs@, cur as int),
    ensures
        flags == filtering_flags(mbs@, cur as int),
        edge_neighbours_present(mbs@, cur as int, flags),
{
    let mut flags: u32 = 0;
    let mb = &mbs[cur];
    /* nothing will be filtered if disableDeblockingFilterIdc == 1 */
    if mb.disableDeblockingFilterIdc != 1 {
        flags = FILTER_INNER_EDGE;
        /* filterLeftMbEdgeFlag, left mb is MB_A */
        if mb.mbA.is_some() && (mb.disableDeblockingFilterIdc != 2 || IsSliceBoundaryOnLeft(mbs, cur) == 0) {
            flags = flags + FILTER_LEFT_EDGE;
        }
        /* filterTopMbEdgeFlag */
        if mb.mbB.is_some() && (mb.disableDeblockingFilterIdc != 2 || IsSliceBoundaryOnTop(mbs, cur) == 0) {
            flags = flags + FILTER_TOP_EDGE;
        }
    }
    proof {
        assert(flags == 0 || flags == 1 || flags == 3 || flags == 5 || flags == 7);
        assert(flags == 0 || flags == 1 || flags == 3 || flags == 5 || flags == 7 ==> {
            &&& (flags & FILTER_TOP_EDGE != 0) == (flags == 3 || flags == 7)
            &&& (flags & FILTER_LEFT_EDGE != 0) == (flags == 5 || flags == 7)
        }) by (bit_vector);
    }
    flags
}

/// |a - b| >= 4 for two motion vector components.
fn far_apart(a: i16, b: i16) -> (r: bool)
    ensures
        r == (abs_int(a - b) >= 4),
{
    let d = a as i32 - b as i32;
    d >= 4 || d <= -4
}

/// Boundary strength for an inner edge between blocks `ind1` and `ind2`
/// of an inter macroblock (the caller has ruled out intra macroblocks).
pub fn InnerBoundaryStrength(mb1: &mbStorage_t, ind1: u32, ind2: u32) -> (r: u32)
    requires
        ind1 < 16,
        ind2 < 16,
    ensures
        r == inner_bs(*mb1, ind1 as int, ind2 as int),
{
    let i1 = ind1 as usize;
    let i2 = ind2 as usize;
    if mb1.totalCoeff[i1] != 0 || mb1.totalCoeff[i2] != 0 {
        2
    } else if far_apart(mb1.mv[i1].hor, mb1.mv[i2].hor) || far_apart(mb1.mv[i1].ver, mb1.mv[i2].ver)
        || mb1.refAddr[i1 / 4] != mb1.refAddr[i2 / 4] {
        1
    } else {
        0
    }
}

/// Boundary strength for the left- or top-most edge between block `ind1`
/// of `mb1` and block `ind2` of its neighbour `mb2` (neither intra).
pub fn EdgeBoundaryStrength(mb1: &mbStorage_t, mb2: &mbStorage_t, ind1: u32, ind2: u32) -> (r: u32)
    requires
        ind1 < 16,
        ind2 < 16,
    ensures
        r == edge_bs(*mb1, *mb2, ind1 as int, ind2 as int),
{
    let i1 = ind1 as usize;
    let i2 = ind2 as usize;
    if mb1.totalCoeff[i1] != 0 || mb2.totalCoeff[i2] != 0 {
        2
    } else if mb1.refAddr[i1 / 4] != mb2.refAddr[i2 / 4] || far_apart(mb1.mv[i1].hor, mb2.mv[i2].hor)
        || far_apart(mb1.mv[i1].ver, mb2.mv[i2].ver) {
        1
    } else {
        0
    }
}

/// 2 when block `i1` or `i2` has coefficients, 0 otherwise.
fn coeff_strength(mb: &mbStorage_t, i1: u32, i2: u32) -> (r: u32)
    requires
        i1 < 16,
        i2 < 16,
    ensures
        r == coeff_bs(*mb, i1 as int, i2 as int),
{
    if mb.totalCoeff[i1 as usize] != 0 || mb.totalCoeff[i2 as usize] != 0 {
        2
    } else {
        0
    }
}

pub(crate) proof fn lemma_blk_range()
    ensures
        forall|r: int| 0 <= r < 16 ==> 0 <= #[trigger] blk(r) < 16,
{
    assert forall|r: int| 0 <= r < 16 implies 0 <= #[trigger] blk(r) < 16 by {
        assert(r == 0 || r == 1 || r == 2 || r == 3 || r == 4 || r == 5 || r == 6 || r == 7 || r == 8 || r == 9
            || r == 10 || r == 11 || r == 12 || r == 13 || r == 14 || r == 15);
    }
}

/// Inner edge strengths of a 16x16 inter macroblock: one motion vector and
/// one reference for the whole macroblock, so only the coefficients count.
/// The strengths of the macroblock's own left and top edges are kept.
pub fn GetBoundaryStrengthsA(mb: &mbStorage_t, bS: &mut [bS_t; 16])
    ensures
        forall|r: int| 4 <= r < 16 ==> (#[trigger] final(bS)@[r]).top == coeff_bs(*mb, blk(r), blk(r - 4)),
        forall|r: int| 0 <= r < 16 && r % 4 != 0 ==> (#[trigger] final(bS)@[r]).left == coeff_bs(*mb, blk(r), blk(r - 1)),
        forall|r: int| 0 <= r < 4 ==> (#[trigger] final(bS)@[r]).top == old(bS)@[r].top,
        forall|r: int| 0 <= r < 16 && r % 4 == 0 ==> (#[trigger] final(bS)@[r]).left == old(bS)@[r].left,
{
    proof {
        lemma_blk_range();
    }
    let ghost b0 = bS@;
    let mut r: usize = 0;
    while r < 16
        invariant
            r <= 16,
            forall|i: int| 0 <= i < 16 ==> 0 <= #[trigger] blk(i) < 16,
            forall|i: int| 4 <= i < r ==> (#[trigger] bS@[i]).top == coeff_bs(*mb, blk(i), blk(i - 4)),
            forall|i: int| 0 <= i < r && i % 4 != 0 ==> (#[trigger] bS@[i]).left == coeff_bs(*mb, blk(i), blk(i - 1)),
            forall|i: int| r <= i < 16 || 0 <= i < 4 ==> (#[trigger] bS@[i]).top == b0[i].top,
            forall|i: int| r <= i < 16 || (0 <= i < 16 && i % 4 == 0) ==> (#[trigger] bS@[i]).left == b0[i].left,
        decreases 16 - r,
    {
        let mut e = bS[r];
        if r >= 4 {
            e.top = coeff_strength(mb, mb4x4Index[r], mb4x4Index[r - 4]);
        }
        if r % 4 != 0 {
            e.left = coeff_strength(mb, mb4x4Index[r], mb4x4Index[r - 1]);
        }
        bS[r] = e;
        r += 1;
    }
}

/// Strength of the top edge of inner raster block `r` of an inter
/// macroblock.
fn inner_top_strength(mb: &mbStorage_t, r: usize) -> (s: u32)
    requires
        4 <= r < 16,
    ensures
        s == inner_top_bs(*mb, r as int),
{
    proof {
        lemma_blk_range();
    }
    let t = mb.mbType;
    if t == P_L0_16x16 || t == P_Skip || t == P_L0_L0_8x16 || (t == P_L0_L0_16x8 && !(8 <= r && r < 12)) {
        coeff_strength(mb, mb4x4Index[r], mb4x4Index[r - 4])
    } else {
        InnerBoundaryStrength(mb, mb4x4Index[r], mb4x4Index[r - 4])
    }
}

/// Strength of the left edge of inner raster block `r` of an inter
/// macroblock.
fn inner_left_strength(mb: &mbStorage_t, r: usize) -> (s: u32)
    requires
        r < 16,
        r % 4 != 0,
    ensures
        s == inner_left_bs(*mb, r as int),
{
    proof {
        lemma_blk_range();
    }
    let t = mb.mbType;
    if t == P_L0_16x16 || t == P_Skip || t == P_L0_L0_16x8 || (t == P_L0_L0_8x16 && r % 4 != 2) {
        coeff_strength(mb, mb4x4Index[r], mb4x4Index[r - 1])
    } else {
        InnerBoundaryStrength(mb, mb4x4Index[r], mb4x4Index[r - 1])
    }
}

/// Boundary strengths of all the edges of macroblock `cur` into `bS`
/// (entry r for the top and the left edge of raster block r); the edges
/// that `flags` leaves out get 0. HANTRO_TRUE when any of them is
/// non-zero, HANTRO_FALSE otherwise.
pub fn GetBoundaryStrengths(mbs: &[mbStorage_t], cur: usize, bS: &mut [bS_t; 16], flags: u32) -> (r: u32)
    requires
        edge_neighbours_present(mbs@, cur as int, flags),
    ensures
        forall|i: int| 0 <= i < 16 ==> (#[trigger] final(bS)@[i]).top == top_bs(mbs@, cur as int, flags, i),
        forall|i: int| 0 <= i < 16 ==> (#[trigger] final(bS)@[i]).left == left_bs(mbs@, cur as int, flags, i),
        r == (if any_nonzero_bs(mbs@, cur as int, flags) { HANTRO_TRUE } else { HANTRO_FALSE }),
{
    proof {
        lemma_blk_range();
    }
    let ghost m = mbs@;
    let ghost c = cur as int;
    let mb = &mbs[cur];
    let intra = IS_INTRA_MB(mb);
    /* top edges */
    if flags & FILTER_TOP_EDGE != 0 {
        let nb = &mbs[mb.mbB.unwrap()];
        let nb_intra = IS_INTRA_MB(nb);
        let mut i: usize = 0;
        while i < 4
            invariant
                i <= 4,
                m == mbs@,
                c == cur,
                edge_neighbours_present(m, c, flags),
                flags & FILTER_TOP_EDGE != 0,
                *mb == m[c],
                *nb == m[m[c].mbB.unwrap() as int],
                intra == is_intra(*mb),
                nb_intra == is_intra(*nb),
                forall|r: int| 0 <= r < 16 ==> 0 <= #[trigger] blk(r) < 16,
                forall|r: int| 0 <= r < i ==> (#[trigger] bS@[r]).top == top_bs(m, c, flags, r),
            decreases 4 - i,
        {
            let mut e = bS[i];
            e.top = if intra || nb_intra {
                4
            } else {
                EdgeBoundaryStrength(mb, nb, mb4x4Index[i], mb4x4Index[i + 12])
            };
            bS[i] = e;
            i += 1;
        }
    } else {
        let mut i: usize = 0;
        while i < 4
            invariant
                i <= 4,
                flags & FILTER_TOP_EDGE == 0,
                forall|r: int| 0 <= r < i ==> (#[trigger] bS@[r]).top == top_bs(m, c, flags, r),
            decreases 4 - i,
        {
            let mut e = bS[i];
            e.top = 0;
            bS[i] = e;
            i += 1;
        }
    }
    /* left edges */
    if flags & FILTER_LEFT_EDGE != 0 {
        let nb = &mbs[mb.mbA.unwrap()];
        let nb_intra = IS_INTRA_MB(nb);
        let mut k: usize = 0;
        while k < 4
            invariant
                k <= 4,
                m == mbs@,
                c == cur,
                edge_neighbours_present(m, c, flags),
                flags & FILTER_LEFT_EDGE != 0,
                *mb == m[c],
                *nb == m[m[c].mbA.unwrap() as int],
                intra == is_intra(*mb),
                nb_intra == is_intra(*nb),
                forall|r: int| 0 <= r < 16 ==> 0 <= #[trigger] blk(r) < 16,
                forall|r: int| 0 <= r < 4 ==> (#[trigger] bS@[r]).top == top_bs(m, c, flags, r),
                forall|j: int| 0 <= j < k ==> (#[trigger] bS@[4 * j]).left == left_bs(m, c, flags, 4 * j),
            decreases 4 - k,
        {
            let i = 4 * k;
            let mut e = bS[i];
            e.left = if intra || nb_intra {
                4
            } else {
                EdgeBoundaryStrength(mb, nb, mb4x4Index[i], mb4x4Index[i + 3])
            };
            bS[i] = e;
            k += 1;
        }
    } else {
        let mut k: usize = 0;
        while k < 4
            invariant
                k <= 4,
                flags & FILTER_LEFT_EDGE == 0,
                forall|r: int| 0 <= r < 4 ==> (#[trigger] bS@[r]).top == top_bs(m, c, flags, r),
                forall|j: int| 0 <= j < k ==> (#[trigger] bS@[4 * j]).left == left_bs(m, c, flags, 4 * j),
            decreases 4 - k,
        {
            let i = 4 * k;
            let mut e = bS[i];
            e.left = 0;
            bS[i] = e;
            k += 1;
        }
    }
    assert forall|r: int| 0 <= r < 16 && r % 4 == 0 implies (#[trigger] bS@[r]).left == left_bs(m, c, flags, r) by {
        assert(bS@[4 * (r / 4)].left == left_bs(m, c, flags, 4 * (r / 4)));
    }
    /* inner edges */
    if intra {
        let mut r: usize = 0;
        while r < 16
            invariant
                r <= 16,
                intra == is_intra(m[c]),
                intra,
                forall|i: int| 0 <= i < 4 ==> (#[trigger] bS@[i]).top == top_bs(m, c, flags, i),
                forall|i: int| 0 <= i < 16 && i % 4 == 0 ==> (#[trigger] bS@[i]).left == left_bs(m, c, flags, i),
                forall|i: int| 4 <= i < r ==> (#[trigger] bS@[i]).top == top_bs(m, c, flags, i),
                forall|i: int| 0 <= i < r && i % 4 != 0 ==> (#[trigger] bS@[i]).left == left_bs(m, c, flags, i),
            decreases 16 - r,
        {
            let mut e = bS[r];
            if r >= 4 {
                e.top = 3;
            }
            if r % 4 != 0 {
                e.left = 3;
            }
            bS[r] = e;
            r += 1;
        }
    } else if mb.mbType == P_L0_16x16 || mb.mbType == P_Skip {
        /* 16x16 inter mb -> ref addresses or motion vectors cannot differ,
         * only check if either of the blocks contain coefficients */
        GetBoundaryStrengthsA(mb, bS);
    } else {
        let mut r: usize = 0;
        while r < 16
            invariant
                r <= 16,
                *mb == m[c],
                intra == is_intra(m[c]),
                !intra,
                forall|i: int| 0 <= i < 4 ==> (#[trigger] bS@[i]).top == top_bs(m, c, flags, i),
                forall|i: int| 0 <= i < 16 && i % 4 == 0 ==> (#[trigger] bS@[i]).left == left_bs(m, c, flags, i),
                forall|i: int| 4 <= i < r ==> (#[trigger] bS@[i]).top == top_bs(m, c, flags, i),
                forall|i: int| 0 <= i < r && i % 4 != 0 ==> (#[trigger] bS@[i]).left == left_bs(m, c, flags, i),
            decreases 16 - r,
        {
            let mut e = bS[r];
            if r >= 4 {
                e.top = inner_top_strength(mb, r);
            }
            if r % 4 != 0 {
                e.left = inner_left_strength(mb, r);
            }
            bS[r] = e;
            r += 1;
        }
    }
    assert forall|i: int| 0 <= i < 16 implies (#[trigger] bS@[i]).top == top_bs(m, c, flags, i)
        && bS@[i].left == left_bs(m, c, flags, i) by {}
    /* is any of the strengths non-zero? */
    let mut nonZeroBs: u32 = HANTRO_FALSE;
    let mut r: usize = 0;
    while r < 16
        invariant
            r <= 16,
            forall|i: int| 0 <= i < 16 ==> (#[trigger] bS@[i]).top == top_bs(m, c, flags, i),
            forall|i: int| 0 <= i < 16 ==> (#[trigger] bS@[i]).left == left_bs(m, c, flags, i),
            nonZeroBs == HANTRO_TRUE || nonZeroBs == HANTRO_FALSE,
            (nonZeroBs == HANTRO_TRUE) == exists|i: int| 0 <= i < r && #[trigger] block_bs_nonzero(m, c, flags, i),
        decreases 16 - r,
    {
        assert(bS@[r as int].top == top_bs(m, c, flags, r as int) && bS@[r as int].left == left_bs(m, c, flags, r as int));
        if bS[r].top != 0 || bS[r].left != 0 {
            assert(block_bs_nonzero(m, c, flags, r as int));
            nonZeroBs = HANTRO_TRUE;
        } else {
            assert(!block_bs_nonzero(m, c, flags, r as int));
        }
        r += 1;
    }
    assert(m == mbs@ && c == cur);
    nonZeroBs
}


/// Boundary strength of the top edge of raster block `r` (H.264 8.7.2.1):
/// 0 for an unfiltered macroblock edge; 4 for a filtered macroblock edge
/// with an intra macroblock on either side; 3 for an inner edge of an
/// intra macroblock; otherwise 2 when either block has coefficients; and
/// on a macroblock edge without coefficients 1 exactly when the blocks use
/// different reference pictures or their vectors differ by 4 or more
/// quarter samples in a component, else 0. The left edge likewise.
pub proof fn lemma_bs_rules(mbs: Seq<mbStorage_t>, cur: int, flags: u32, r: int)
    requires
        0 <= r < 16,
    ensures
        ({
            let mb = mbs[cur];
            let nt = mbs[mb.mbB.unwrap() as int];
            let nl = mbs[mb.mbA.unwrap() as int];
            let bt = top_bs(mbs, cur, flags, r);
            let bl = left_bs(mbs, cur, flags, r);
            let i = blk(r);
            let it = blk(r + 12);
            let il = blk(r + 3);
            &&& r < 4 && flags & FILTER_TOP_EDGE == 0 ==> bt == 0
            &&& r < 4 && flags & FILTER_TOP_EDGE != 0 && (mb.mbType > 5 || nt.mbType > 5) ==> bt == 4
            &&& r >= 4 && mb.mbType > 5 ==> bt == 3
            &&& mb.mbType <= 5 && (r >= 4 || (flags & FILTER_TOP_EDGE != 0 && nt.mbType <= 5)) ==> (bt == 2
                <==> mb.totalCoeff@[i] != 0 || (if r < 4 { nt.totalCoeff@[it] } else { mb.totalCoeff@[blk(r - 4)] })
                != 0)
            &&& r < 4 && flags & FILTER_TOP_EDGE != 0 && mb.mbType <= 5 && nt.mbType <= 5 && mb.totalCoeff@[i] == 0
                && nt.totalCoeff@[it] == 0 ==> bt == if mb.refAddr@[i / 4] != nt.refAddr@[it / 4] || abs_int(
                mb.mv@[i].hor - nt.mv@[it].hor,
            ) >= 4 || abs_int(mb.mv@[i].ver - nt.mv@[it].ver) >= 4 {
                1u32
            } else {
                0u32
            }
            &&& r % 4 == 0 && flags & FILTER_LEFT_EDGE == 0 ==> bl == 0
            &&& r % 4 == 0 && flags & FILTER_LEFT_EDGE != 0 && (mb.mbType > 5 || nl.mbType > 5) ==> bl == 4
            &&& r % 4 != 0 && mb.mbType > 5 ==> bl == 3
            &&& mb.mbType <= 5 && (r % 4 != 0 || (flags & FILTER_LEFT_EDGE != 0 && nl.mbType <= 5)) ==> (bl == 2
                <==> mb.totalCoeff@[i] != 0 || (if r % 4 == 0 { nl.totalCoeff@[il] } else { mb.totalCoeff@[blk(r - 1)] })
                != 0)
            &&& r % 4 == 0 && flags & FILTER_LEFT_EDGE != 0 && mb.mbType <= 5 && nl.mbType <= 5 && mb.totalCoeff@[i] == 0
                && nl.totalCoeff@[il] == 0 ==> bl == if mb.refAddr@[i / 4] != nl.refAddr@[il / 4] || abs_int(
                mb.mv@[i].hor - nl.mv@[il].hor,
            ) >= 4 || abs_int(mb.mv@[i].ver - nl.mv@[il].ver) >= 4 {
                1u32
            } else {
                0u32
            }
        }),
{
}

} // verus!
