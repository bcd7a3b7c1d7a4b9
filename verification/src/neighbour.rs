//! Neighbouring 4x4 blocks and macroblocks.
use vstd::prelude::*;
use crate::defs::{HANTRO_FALSE, HANTRO_TRUE};
use crate::macroblock::mbStorage_t;

verus! {

pub type neighbourMb_e = u32;

pub const MB_A: u32 = 0;
pub const MB_B: u32 = 1;
pub const MB_C: u32 = 2;
pub const MB_D: u32 = 3;
pub const MB_CURR: u32 = 4;
pub const MB_NA: u32 = 0xFF;

/// A neighbouring block: the macroblock it lies in (one of MB_A, MB_B,
/// MB_C, MB_D, MB_CURR, or MB_NA when not available) and its block index
/// there.
#[derive(Clone, Copy)]
pub struct neighbour_t {
    pub mb: neighbourMb_e,
    pub index: u8,
}

/// Neighbouring macroblock of each 4x4 block, direction A.
pub const N_A_4x4B_MB: [u32; 24] = [0, 4, 0, 4, 4, 4, 4, 4, 0, 4, 0, 4, 4, 4, 4, 4, 0, 4, 0, 4, 0, 4, 0, 4];

/// Block index within that macroblock, direction A.
pub const N_A_4x4B_INDEX: [u8; 24] = [5, 0, 7, 2, 1, 4, 3, 6, 13, 8, 15, 10, 9, 12, 11, 14, 17, 16, 19, 18, 21, 20, 23, 22];

/// Neighbouring macroblock of each 4x4 block, direction B.
pub const N_B_4x4B_MB: [u32; 24] = [1, 1, 4, 4, 1, 1, 4, 4, 4, 4, 4, 4, 4, 4, 4, 4, 1, 1, 4, 4, 1, 1, 4, 4];

/// Block index within that macroblock, direction B.
pub const N_B_4x4B_INDEX: [u8; 24] = [10, 11, 0, 1, 14, 15, 4, 5, 2, 3, 8, 9, 6, 7, 12, 13, 18, 19, 16, 17, 22, 23, 20, 21];

/// Neighbouring macroblock of each 4x4 block, direction C.
pub const N_C_4x4B_MB: [u32; 24] = [1, 1, 4, 0xFF, 1, 2, 4, 0xFF, 4, 4, 4, 0xFF, 4, 0xFF, 4, 0xFF, 1, 2, 4, 0xFF, 1, 2, 4, 0xFF];

/// Block index within that macroblock, direction C.
pub const N_C_4x4B_INDEX: [u8; 24] = [11, 14, 1, 4, 15, 10, 5, 0, 3, 6, 9, 12, 7, 2, 13, 8, 19, 18, 17, 16, 23, 22, 21, 20];

/// Neighbouring macroblock of each 4x4 block, direction D.
pub const N_D_4x4B_MB: [u32; 24] = [3, 1, 0, 4, 1, 1, 4, 4, 0, 4, 0, 4, 4, 4, 4, 4, 3, 1, 0, 4, 3, 1, 0, 4];

/// Block index within that macroblock, direction D.
pub const N_D_4x4B_INDEX: [u8; 24] = [15, 10, 5, 0, 11, 14, 1, 4, 7, 2, 13, 8, 3, 6, 9, 12, 19, 18, 17, 16, 23, 22, 21, 20];

/// Column (in 4x4 blocks) of luma block `b` of a macroblock (blocks are
/// numbered in 8x8-then-4x4 zig-zag order).
pub open spec fn blk_x(b: int) -> int {
    b % 2 + 2 * ((b / 4) % 2)
}

/// Row (in 4x4 blocks) of luma block `b`.
pub open spec fn blk_y(b: int) -> int {
    (b / 2) % 2 + 2 * ((b / 8) % 2)
}

/// Luma block at column `x`, row `y`.
pub open spec fn blk_at(x: int, y: int) -> int {
    x % 2 + 2 * (y % 2) + 4 * (x / 2) + 8 * (y / 2)
}

/// Position of chroma block `b` (16..24) inside its 2x2 group.
pub open spec fn chroma_pos(b: int) -> int {
    (b - 16) % 4
}

/// The block left of block `b`.
pub open spec fn left_of(b: int) -> (u32, int) {
    if b < 16 {
        if blk_x(b) > 0 {
            (MB_CURR, blk_at(blk_x(b) - 1, blk_y(b)))
        } else {
            (MB_A, blk_at(3, blk_y(b)))
        }
    } else if chroma_pos(b) % 2 == 1 {
        (MB_CURR, b - 1)
    } else {
        (MB_A, b + 1)
    }
}

/// The block above block `b`.
pub open spec fn above_of(b: int) -> (u32, int) {
    if b < 16 {
        if blk_y(b) > 0 {
            (MB_CURR, blk_at(blk_x(b), blk_y(b) - 1))
        } else {
            (MB_B, blk_at(blk_x(b), 3))
        }
    } else if chroma_pos(b) / 2 == 1 {
        (MB_CURR, b - 2)
    } else {
        (MB_B, b + 2)
    }
}

/// The block above and right of block `b`; not available when it lies in
/// the current macroblock but is decoded after `b`, or right of the
/// macroblock below its top row.
pub open spec fn above_right_of(b: int) -> (u32, int) {
    if b < 16 {
        let x = blk_x(b);
        let y = blk_y(b);
        if y == 0 {
            if x < 3 {
                (MB_B, blk_at(x + 1, 3))
            } else {
                (MB_C, blk_at(0, 3))
            }
        } else if x < 3 && blk_at(x + 1, y - 1) < b {
            (MB_CURR, blk_at(x + 1, y - 1))
        } else {
            (MB_NA, 0)
        }
    } else if chroma_pos(b) == 0 {
        (MB_B, b + 3)
    } else if chroma_pos(b) == 1 {
        (MB_C, b + 1)
    } else if chroma_pos(b) == 2 {
        (MB_CURR, b - 1)
    } else {
        (MB_NA, 0)
    }
}

/// The block above and left of block `b`.
pub open spec fn above_left_of(b: int) -> (u32, int) {
    if b < 16 {
        let x = blk_x(b);
        let y = blk_y(b);
        if x > 0 && y > 0 {
            (MB_CURR, blk_at(x - 1, y - 1))
        } else if y > 0 {
            (MB_A, blk_at(3, y - 1))
        } else if x > 0 {
            (MB_B, blk_at(x - 1, 3))
        } else {
            (MB_D, 15)
        }
    } else if chroma_pos(b) == 0 {
        (MB_D, b + 3)
    } else if chroma_pos(b) == 1 {
        (MB_B, b + 1)
    } else if chroma_pos(b) == 2 {
        (MB_A, b - 1)
    } else {
        (MB_CURR, b - 3)
    }
}

/// Left neighbour (A) of 4x4 block `blockIndex` (luma 0..16, chroma 16..24).
pub fn h264bsdNeighbour4x4BlockA(blockIndex: u32) -> (r: neighbour_t)
    requires
        blockIndex < 24,
    ensures
        r.mb == N_A_4x4B_MB@[blockIndex as int],
        r.index == N_A_4x4B_INDEX@[blockIndex as int],
        r.mb == left_of(blockIndex as int).0,
        r.mb != MB_NA ==> r.index == left_of(blockIndex as int).1,
{
    proof {
        let b = blockIndex as int;
        assert(b == 0 || b == 1 || b == 2 || b == 3 || b == 4 || b == 5 || b == 6 || b == 7 || b == 8 || b == 9 || b == 10 || b == 11 || b == 12 || b == 13 || b == 14 || b == 15 || b == 16 || b == 17 || b == 18 || b == 19 || b == 20 || b == 21 || b == 22 || b == 23);
    }
    neighbour_t { mb: N_A_4x4B_MB[blockIndex as usize], index: N_A_4x4B_INDEX[blockIndex as usize] }
}


/// Above neighbour (B) of 4x4 block `blockIndex`.
pub fn h264bsdNeighbour4x4BlockB(blockIndex: u32) -> (r: neighbour_t)
    requires
        blockIndex < 24,
    ensures
        r.mb == N_B_4x4B_MB@[blockIndex as int],
        r.index == N_B_4x4B_INDEX@[blockIndex as int],
        r.mb == above_of(blockIndex as int).0,
        r.mb != MB_NA ==> r.index == above_of(blockIndex as int).1,
{
    proof {
        let b = blockIndex as int;
        assert(b == 0 || b == 1 || b == 2 || b == 3 || b == 4 || b == 5 || b == 6 || b == 7 || b == 8 || b == 9 || b == 10 || b == 11 || b == 12 || b == 13 || b == 14 || b == 15 || b == 16 || b == 17 || b == 18 || b == 19 || b == 20 || b == 21 || b == 22 || b == 23);
    }
    neighbour_t { mb: N_B_4x4B_MB[blockIndex as usize], index: N_B_4x4B_INDEX[blockIndex as usize] }
}


/// Above-right neighbour (C) of 4x4 block `blockIndex`.
pub fn h264bsdNeighbour4x4BlockC(blockIndex: u32) -> (r: neighbour_t)
    requires
        blockIndex < 24,
    ensures
        r.mb == N_C_4x4B_MB@[blockIndex as int],
        r.index == N_C_4x4B_INDEX@[blockIndex as int],
        r.mb == above_right_of(blockIndex as int).0,
        r.mb != MB_NA ==> r.index == above_right_of(blockIndex as int).1,
{
    proof {
        let b = blockIndex as int;
        assert(b == 0 || b == 1 || b == 2 || b == 3 || b == 4 || b == 5 || b == 6 || b == 7 || b == 8 || b == 9 || b == 10 || b == 11 || b == 12 || b == 13 || b == 14 || b == 15 || b == 16 || b == 17 || b == 18 || b == 19 || b == 20 || b == 21 || b == 22 || b == 23);
    }
    neighbour_t { mb: N_C_4x4B_MB[blockIndex as usize], index: N_C_4x4B_INDEX[blockIndex as usize] }
}


/// Above-left neighbour (D) of 4x4 block `blockIndex`.
pub fn h264bsdNeighbour4x4BlockD(blockIndex: u32) -> (r: neighbour_t)
    requires
        blockIndex < 24,
    ensures
        r.mb == N_D_4x4B_MB@[blockIndex as int],
        r.index == N_D_4x4B_INDEX@[blockIndex as int],
        r.mb == above_left_of(blockIndex as int).0,
        r.mb != MB_NA ==> r.index == above_left_of(blockIndex as int).1,
{
    proof {
        let b = blockIndex as int;
        assert(b == 0 || b == 1 || b == 2 || b == 3 || b == 4 || b == 5 || b == 6 || b == 7 || b == 8 || b == 9 || b == 10 || b == 11 || b == 12 || b == 13 || b == 14 || b == 15 || b == 16 || b == 17 || b == 18 || b == 19 || b == 20 || b == 21 || b == 22 || b == 23);
    }
    neighbour_t { mb: N_D_4x4B_MB[blockIndex as usize], index: N_D_4x4B_INDEX[blockIndex as usize] }
}


/// Is the neighbouring macroblock available: inside the picture and in
/// the same slice as the current macroblock?
pub fn h264bsdIsNeighbourAvailable(pMb: &mbStorage_t, pNeighbour: Option<&mbStorage_t>) -> (r: u32)
    ensures
        r == (match pNeighbour {
            Some(n) => if n.sliceId == pMb.sliceId { HANTRO_TRUE } else { HANTRO_FALSE },
            None => HANTRO_FALSE,
        }),
{
    match pNeighbour {
        Some(n) => if pMb.sliceId != n.sliceId {
            HANTRO_FALSE
        } else {
            HANTRO_TRUE
        },
        None => HANTRO_FALSE,
    }
}


/// The neighbours of macroblock `i` of a picture `w` macroblocks wide, as
/// set by h264bsdInitMbNeighbours: left, above, above right, above left,
/// when inside the picture.
pub open spec fn mb_neighbours(i: int, w: int) -> (Option<usize>, Option<usize>, Option<usize>, Option<usize>) {
    let row = i / w;
    let col = i % w;
    (
        if col != 0 { Some((i - 1) as usize) } else { None },
        if row != 0 { Some((i - w) as usize) } else { None },
        if row != 0 && col < w - 1 { Some((i - (w - 1)) as usize) } else { None },
        if row != 0 && col != 0 { Some((i - (w + 1)) as usize) } else { None },
    )
}

/// Set the neighbour addresses (A left, B above, C above right, D above
/// left) of the first `picSizeInMbs` macroblocks of a picture `picWidth`
/// macroblocks wide; a neighbour outside the picture is None.
pub fn h264bsdInitMbNeighbours(pMbStorage: &mut Vec<mbStorage_t>, picWidth: u32, picSizeInMbs: u32)
    requires
        old(pMbStorage).len() >= picSizeInMbs,
        1 <= picWidth,
    ensures
        final(pMbStorage).len() == old(pMbStorage).len(),
        forall|i: int|
            0 <= i < picSizeInMbs ==> {
                let n = mb_neighbours(i, picWidth as int);
                &&& (#[trigger] final(pMbStorage)@[i]).mbA == n.0
                &&& final(pMbStorage)@[i].mbB == n.1
                &&& final(pMbStorage)@[i].mbC == n.2
                &&& final(pMbStorage)@[i].mbD == n.3
                &&& final(pMbStorage)@[i] == mbStorage_t {
                    mbA: n.0,
                    mbB: n.1,
                    mbC: n.2,
                    mbD: n.3,
                    ..old(pMbStorage)@[i]
                }
            },
        forall|i: int| picSizeInMbs <= i < old(pMbStorage).len() ==> #[trigger] final(pMbStorage)@[i] == old(pMbStorage)@[i],
{
    let ghost m0 = pMbStorage@;
    let ghost w = picWidth as int;
    let mut row: u32 = 0;
    let mut col: u32 = 0;
    let mut i: u32 = 0;
    while i < picSizeInMbs
        invariant
            i <= picSizeInMbs,
            w == picWidth,
            1 <= w,
            col < w,
            i == row * w + col,
            pMbStorage.len() == m0.len(),
            m0.len() >= picSizeInMbs,
            forall|k: int|
                0 <= k < i ==> {
                    let n = mb_neighbours(k, w);
                    &&& (#[trigger] pMbStorage@[k]).mbA == n.0
                    &&& pMbStorage@[k].mbB == n.1
                    &&& pMbStorage@[k].mbC == n.2
                    &&& pMbStorage@[k].mbD == n.3
                    &&& pMbStorage@[k] == mbStorage_t { mbA: n.0, mbB: n.1, mbC: n.2, mbD: n.3, ..m0[k] }
                },
            forall|k: int| i <= k < m0.len() ==> #[trigger] pMbStorage@[k] == m0[k],
        decreases picSizeInMbs - i,
    {
        proof {
            assert((i as int) / w == row && (i as int) % w == col) by {
                vstd::arithmetic::div_mod::lemma_fundamental_div_mod_converse(i as int, w, row as int, col as int);
            }
            assert(row != 0 ==> i >= w + col) by (nonlinear_arith)
                requires
                    i == row * w + col,
                    row >= 0,
                    w >= 1,
            ;
        }
        let mut m = pMbStorage[i as usize];
        m.mbA = if col != 0 {
            Some((i - 1) as usize)
        } else {
            None
        };
        m.mbB = if row != 0 {
            Some((i - picWidth) as usize)
        } else {
            None
        };
        m.mbC = if row != 0 && col < picWidth - 1 {
            Some((i - (picWidth - 1)) as usize)
        } else {
            None
        };
        m.mbD = if row != 0 && col != 0 {
            Some((i - (picWidth + 1)) as usize)
        } else {
            None
        };
        pMbStorage.set(i as usize, m);
        col += 1;
        if col == picWidth {
            col = 0;
            row += 1;
            proof {
                assert(i + 1 == row * w) by (nonlinear_arith)
                    requires
                        i + 1 == (row - 1) * w + w,
                ;
            }
        }
        i += 1;
    }
}

/// The macroblock that neighbour `neighbour` (MB_A, MB_B, MB_C, MB_D or
/// MB_CURR) of macroblock `m` at address `cur` designates.
pub open spec fn neighbour_mb(m: mbStorage_t, cur: usize, neighbour: u32) -> Option<usize> {
    if neighbour == MB_A {
        m.mbA
    } else if neighbour == MB_B {
        m.mbB
    } else if neighbour == MB_C {
        m.mbC
    } else if neighbour == MB_D {
        m.mbD
    } else if neighbour == MB_CURR {
        Some(cur)
    } else {
        None
    }
}

/// Address of a neighbouring macroblock of macroblock `cur`, None if not
/// available.
pub fn h264bsdGetNeighbourMb(mbs: &[mbStorage_t], cur: usize, neighbour: neighbourMb_e) -> (r: Option<usize>)
    requires
        cur < mbs.len(),
    ensures
        r == neighbour_mb(mbs@[cur as int], cur, neighbour),
{
    let m = &mbs[cur];
    if neighbour == MB_A {
        m.mbA
    } else if neighbour == MB_B {
        m.mbB
    } else if neighbour == MB_C {
        m.mbC
    } else if neighbour == MB_D {
        m.mbD
    } else if neighbour == MB_CURR {
        Some(cur)
    } else {
        None
    }
}

} // verus!
