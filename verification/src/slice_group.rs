//! Macroblock to slice group maps: which slice group each macroblock of a
//! picture of `picWidth` x `picHeight` macroblocks belongs to, for the
//! slice group map types of the picture parameter set.
use vstd::prelude::*;
use crate::defs::{HANTRO_NOK, HANTRO_OK};
use crate::param_sets::{picParamSet_t, seqParamSet_t};
use crate::pps::PpsModel;
use crate::util::{udiv, urem};

verus! {

/// Map type 4: the first `size` macroblocks in raster scan order are in
/// group `flag`, the others in group `1 - flag`.
pub open spec fn raster_scan_group(flag: u32, size: u32, i: int) -> int {
    if i < size {
        flag as int
    } else {
        1 - flag
    }
}

/// Raster scan slice group map (type 4).
fn DecodeRasterScanMap(map: &mut Vec<u32>, sliceGroupChangeDirectionFlag: u32, sizeOfUpperLeftGroup: u32, picSize: u32)
    requires
        old(map).len() == picSize,
        sliceGroupChangeDirectionFlag <= 1,
    ensures
        final(map).len() == picSize,
        forall|i: int|
            0 <= i < picSize ==> #[trigger] final(map)@[i] as int == raster_scan_group(
                sliceGroupChangeDirectionFlag,
                sizeOfUpperLeftGroup,
                i,
            ),
{
    let mut i: u32 = 0;
    while i < picSize
        invariant
            i <= picSize,
            map.len() == picSize,
            sliceGroupChangeDirectionFlag <= 1,
            forall|k: int|
                0 <= k < i ==> #[trigger] map@[k] as int == raster_scan_group(sliceGroupChangeDirectionFlag, sizeOfUpperLeftGroup, k),
        decreases picSize - i,
    {
        if i < sizeOfUpperLeftGroup {
            map.set(i as usize, sliceGroupChangeDirectionFlag);
        } else {
            map.set(i as usize, 1 - sliceGroupChangeDirectionFlag);
        }
        i += 1;
    }
}

/// Map type 5: the first `size` macroblocks in column-major order (down
/// each column, columns left to right) are in group `flag`, the others in
/// group `1 - flag`.
pub open spec fn wipe_group(flag: u32, size: u32, picWidth: u32, picHeight: u32, i: int) -> int {
    raster_scan_group(flag, size, (i % picWidth as int) * picHeight + i / picWidth as int)
}

/// Wipe slice group map (type 5).
fn DecodeWipeMap(map: &mut Vec<u32>, sliceGroupChangeDirectionFlag: u32, sizeOfUpperLeftGroup: u32, picWidth: u32, picHeight: u32)
    requires
        old(map).len() == picWidth * picHeight,
        1 <= picWidth,
        picWidth * picHeight <= u32::MAX,
        sliceGroupChangeDirectionFlag <= 1,
    ensures
        final(map).len() == picWidth * picHeight,
        forall|i: int|
            0 <= i < picWidth * picHeight ==> #[trigger] final(map)@[i] as int == wipe_group(
                sliceGroupChangeDirectionFlag,
                sizeOfUpperLeftGroup,
                picWidth,
                picHeight,
                i,
            ),
{
    let ghost w = picWidth as int;
    let ghost h = picHeight as int;
    let mut k: u32 = 0;
    let mut j: u32 = 0;
    while j < picWidth
        invariant
            j <= picWidth,
            w == picWidth,
            h == picHeight,
            k == j * h,
            map.len() == w * h,
            1 <= w,
            w * h <= u32::MAX,
            sliceGroupChangeDirectionFlag <= 1,
            forall|p: int|
                0 <= p < w * h && p % w < j ==> #[trigger] map@[p] as int == wipe_group(
                    sliceGroupChangeDirectionFlag,
                    sizeOfUpperLeftGroup,
                    picWidth,
                    picHeight,
                    p,
                ),
        decreases picWidth - j,
    {
        let mut i: u32 = 0;
        while i < picHeight
            invariant
                j < picWidth,
                w == picWidth,
                h == picHeight,
                i <= picHeight,
                k == j * h + i,
                map.len() == w * h,
                1 <= w,
                w * h <= u32::MAX,
                sliceGroupChangeDirectionFlag <= 1,
                forall|p: int|
                    0 <= p < w * h && (p % w < j || p % w == j && p / w < i) ==> #[trigger] map@[p] as int == wipe_group(
                        sliceGroupChangeDirectionFlag,
                        sizeOfUpperLeftGroup,
                        picWidth,
                        picHeight,
                        p,
                    ),
            decreases picHeight - i,
        {
            proof {
                assert(i * w + j < w * h && k < w * h) by (nonlinear_arith)
                    requires
                        i < h,
                        j < w,
                        k == j * h + i,
                ;
            }
            let pos = i * picWidth + j;
            let ghost idx = pos as int;
            proof {
                assert(idx / w == i && idx % w == j) by {
                    vstd::arithmetic::div_mod::lemma_fundamental_div_mod_converse(idx, w, i as int, j as int);
                }
            }
            let kCur = k;
            k += 1;
            let v = if kCur < sizeOfUpperLeftGroup {
                sliceGroupChangeDirectionFlag
            } else {
                1 - sliceGroupChangeDirectionFlag
            };
            map.set(pos as usize, v);
            proof {
                assert forall|p: int|
                    0 <= p < w * h && (p % w < j || p % w == j && p / w < i + 1) implies #[trigger] map@[p] as int == wipe_group(
                    sliceGroupChangeDirectionFlag,
                    sizeOfUpperLeftGroup,
                    picWidth,
                    picHeight,
                    p,
                ) by {
                    if p % w == j && p / w == i {
                        vstd::arithmetic::div_mod::lemma_fundamental_div_mod(p, w);
                        assert(p == idx) by (nonlinear_arith)
                            requires
                                p == w * (p / w) + p % w,
                                p / w == i,
                                p % w == j,
                                idx == i * w + j,
                        ;
                    }
                }
            }
            i += 1;
        }
        proof {
            assert(k == (j + 1) * h) by (nonlinear_arith)
                requires
                    k == j * h + h,
            ;
            assert forall|p: int| 0 <= p < w * h && p % w < j + 1 implies #[trigger] map@[p] as int == wipe_group(
                sliceGroupChangeDirectionFlag,
                sizeOfUpperLeftGroup,
                picWidth,
                picHeight,
                p,
            ) by {
                vstd::arithmetic::div_mod::lemma_fundamental_div_mod(p, w);
                assert(p / w < h) by (nonlinear_arith)
                    requires
                        p == w * (p / w) + p % w,
                        0 <= p % w,
                        p < w * h,
                        1 <= w,
                ;
            }
        }
        j += 1;
    }
}

/// Map type 1: macroblock `i` is in group
/// ((i mod w) + ((i div w) * n) / 2) mod n.
pub open spec fn dispersed_group(numSliceGroups: u32, picWidth: u32, i: int) -> int {
    (i % picWidth as int + ((i / picWidth as int) * numSliceGroups) / 2) % numSliceGroups as int
}

/// Dispersed slice group map (type 1).
fn DecodeDispersedMap(map: &mut Vec<u32>, numSliceGroups: u32, picWidth: u32, picHeight: u32)
    requires
        old(map).len() == picWidth * picHeight,
        1 <= numSliceGroups <= 8,
        1 <= picWidth,
        picWidth * picHeight <= 0x1000_0000,
    ensures
        final(map).len() == picWidth * picHeight,
        forall|i: int|
            0 <= i < picWidth * picHeight ==> #[trigger] final(map)@[i] as int == dispersed_group(numSliceGroups, picWidth, i),
{
    let picSize: u32 = picWidth * picHeight;
    let mut i: u32 = 0;
    while i < picSize
        invariant
            i <= picSize,
            picSize == picWidth * picHeight,
            map.len() == picSize,
            1 <= numSliceGroups <= 8,
            1 <= picWidth,
            picSize <= 0x1000_0000,
            forall|k: int| 0 <= k < i ==> #[trigger] map@[k] as int == dispersed_group(numSliceGroups, picWidth, k),
        decreases picSize - i,
    {
        let q = udiv(i, picWidth);
        proof {
            assert(q <= i) by {
                vstd::arithmetic::div_mod::lemma_div_is_ordered_by_denominator(i as int, 1, picWidth as int);
            }
            assert(q * numSliceGroups <= 8 * 0x1000_0000) by (nonlinear_arith)
                requires
                    q <= 0x1000_0000,
                    numSliceGroups <= 8,
            ;
        }
        let t = q * numSliceGroups;
        proof {
            vstd::bits::lemma_u32_shr_is_div(t, 1);
            vstd::arithmetic::power2::lemma2_to64();
        }
        let x = urem(i, picWidth);
        proof {
            assert(x <= i) by {
                vstd::arithmetic::div_mod::lemma_mod_decreases(i as nat, picWidth as nat);
            }
        }
        let v = urem(x + (t >> 1), numSliceGroups);
        map.set(i as usize, v);
        i += 1;
    }
}


/// Macroblock `i` lies in the rectangle whose top-left and bottom-right
/// macroblocks are `topLeft` and `bottomRight` in a picture `w` wide.
pub open spec fn in_rect(topLeft: u32, bottomRight: u32, w: int, i: int) -> bool {
    &&& topLeft as int / w <= i / w <= bottomRight as int / w
    &&& topLeft as int % w <= i % w <= bottomRight as int % w
}

/// Map type 2: the first of the rectangles `g`, `g + 1`, ..., `n - 2`
/// that holds macroblock `i`, else the left-over group `n - 1`.
pub open spec fn foreground_group(tl: Seq<u32>, br: Seq<u32>, w: int, n: int, g: int, i: int) -> int
    decreases n - g,
{
    if g >= n - 1 {
        n - 1
    } else if in_rect(tl[g], br[g], w, i) {
        g
    } else {
        foreground_group(tl, br, w, n, g + 1, i)
    }
}

/// Set the macroblocks of the rectangle from `topLeft` to `bottomRight`
/// to `group`.
fn fill_rect(map: &mut Vec<u32>, topLeft: u32, bottomRight: u32, picWidth: u32, picHeight: u32, group: u32)
    requires
        old(map).len() == picWidth * picHeight,
        1 <= picWidth,
        picWidth * picHeight <= u32::MAX,
        bottomRight < picWidth * picHeight,
    ensures
        final(map).len() == old(map).len(),
        forall|p: int|
            0 <= p < picWidth * picHeight ==> #[trigger] final(map)@[p] == if in_rect(topLeft, bottomRight, picWidth as int, p) {
                group
            } else {
                old(map)@[p]
            },
{
    let ghost w = picWidth as int;
    let ghost h = picHeight as int;
    let ghost m0 = map@;
    let yTopLeft = udiv(topLeft, picWidth);
    let xTopLeft = urem(topLeft, picWidth);
    let yBottomRight = udiv(bottomRight, picWidth);
    let xBottomRight = urem(bottomRight, picWidth);
    proof {
        vstd::arithmetic::div_mod::lemma_fundamental_div_mod(bottomRight as int, w);
        assert(yBottomRight < h) by (nonlinear_arith)
            requires
                bottomRight == w * yBottomRight + xBottomRight,
                0 <= xBottomRight,
                bottomRight < w * h,
                1 <= w,
        ;
    }
    let mut y = yTopLeft;
    while y <= yBottomRight
        invariant
            w == picWidth,
            h == picHeight,
            1 <= w,
            w * h <= u32::MAX,
            yBottomRight < h,
            xBottomRight < w,
            yTopLeft == topLeft as int / w,
            xTopLeft == topLeft as int % w,
            yBottomRight == bottomRight as int / w,
            xBottomRight == bottomRight as int % w,
            yTopLeft <= y,
            y <= yBottomRight + 1 || y == yTopLeft,
            map.len() == w * h,
            forall|p: int|
                0 <= p < w * h ==> #[trigger] map@[p] == if in_rect(topLeft, bottomRight, w, p) && p / w < y {
                    group
                } else {
                    m0[p]
                },
        decreases yBottomRight + 1 - y,
    {
        let mut x = xTopLeft;
        while x <= xBottomRight
            invariant
                w == picWidth,
                h == picHeight,
                1 <= w,
                w * h <= u32::MAX,
                yBottomRight < h,
                xBottomRight < w,
                yTopLeft == topLeft as int / w,
                xTopLeft == topLeft as int % w,
                yBottomRight == bottomRight as int / w,
                xBottomRight == bottomRight as int % w,
                yTopLeft <= y <= yBottomRight,
                xTopLeft <= x,
                x <= xBottomRight + 1 || x == xTopLeft,
                map.len() == w * h,
                forall|p: int|
                    0 <= p < w * h ==> #[trigger] map@[p] == if in_rect(topLeft, bottomRight, w, p) && (p / w < y || p / w == y
                        && p % w < x) {
                        group
                    } else {
                        m0[p]
                    },
            decreases xBottomRight + 1 - x,
        {
            proof {
                assert(y * w + x < w * h) by (nonlinear_arith)
                    requires
                        y < h,
                        x < w,
                ;
            }
            let pos = y * picWidth + x;
            let ghost idx = pos as int;
            proof {
                assert(idx / w == y && idx % w == x) by {
                    vstd::arithmetic::div_mod::lemma_fundamental_div_mod_converse(idx, w, y as int, x as int);
                }
            }
            map.set(pos as usize, group);
            proof {
                assert forall|p: int| 0 <= p < w * h implies #[trigger] map@[p] == if in_rect(topLeft, bottomRight, w, p) && (p / w < y
                    || p / w == y && p % w < x + 1) {
                    group
                } else {
                    m0[p]
                } by {
                    if p / w == y && p % w == x {
                        vstd::arithmetic::div_mod::lemma_fundamental_div_mod(p, w);
                        assert(p == idx) by (nonlinear_arith)
                            requires
                                p == w * (p / w) + p % w,
                                p / w == y,
                                p % w == x,
                                idx == y * w + x,
                        ;
                    }
                }
            }
            x += 1;
        }
        y += 1;
    }
}

/// Foreground with left-over slice group map (type 2).
fn DecodeForegroundLeftOverMap(
    map: &mut Vec<u32>,
    numSliceGroups: u32,
    topLeft: &Vec<u32>,
    bottomRight: &Vec<u32>,
    picWidth: u32,
    picHeight: u32,
)
    requires
        old(map).len() == picWidth * picHeight,
        1 <= picWidth,
        picWidth * picHeight <= u32::MAX,
        1 <= numSliceGroups <= 8,
        topLeft.len() >= numSliceGroups - 1,
        bottomRight.len() >= numSliceGroups - 1,
        forall|g: int| 0 <= g < numSliceGroups - 1 ==> #[trigger] bottomRight@[g] < picWidth * picHeight,
    ensures
        final(map).len() == picWidth * picHeight,
        forall|i: int|
            0 <= i < picWidth * picHeight ==> #[trigger] final(map)@[i] as int == foreground_group(
                topLeft@,
                bottomRight@,
                picWidth as int,
                numSliceGroups as int,
                0,
                i,
            ),
{
    let picSize: u32 = picWidth * picHeight;
    let mut i: u32 = 0;
    while i < picSize
        invariant
            i <= picSize,
            picSize == picWidth * picHeight,
            1 <= numSliceGroups,
            map.len() == picSize,
            forall|k: int| 0 <= k < i ==> #[trigger] map@[k] == numSliceGroups - 1,
        decreases picSize - i,
    {
        map.set(i as usize, numSliceGroups - 1);
        i += 1;
    }
    let mut group = numSliceGroups - 1;
    while group > 0
        invariant
            group <= numSliceGroups - 1,
            picSize == picWidth * picHeight,
            1 <= picWidth,
            picWidth * picHeight <= u32::MAX,
            1 <= numSliceGroups <= 8,
            topLeft.len() >= numSliceGroups - 1,
            bottomRight.len() >= numSliceGroups - 1,
            forall|g: int| 0 <= g < numSliceGroups - 1 ==> #[trigger] bottomRight@[g] < picWidth * picHeight,
            map.len() == picSize,
            forall|k: int|
                0 <= k < picSize ==> #[trigger] map@[k] as int == foreground_group(
                    topLeft@,
                    bottomRight@,
                    picWidth as int,
                    numSliceGroups as int,
                    group as int,
                    k,
                ),
        decreases group,
    {
        group -= 1;
        fill_rect(map, topLeft[group as usize], bottomRight[group as usize], picWidth, picHeight, group);
    }
}

/// Sum of the first `n` run lengths.
pub open spec fn run_prefix(rl: Seq<u32>, n: int) -> int
    decreases n,
{
    if n <= 0 {
        0
    } else {
        run_prefix(rl, n - 1) + rl[n - 1]
    }
}

/// The group, from `g` on, whose run holds position `p` of one period of
/// the interleaved map.
pub open spec fn run_group(rl: Seq<u32>, g: int, p: int) -> int
    decreases rl.len() - g,
{
    if g >= rl.len() {
        rl.len() as int
    } else if p < rl[g] {
        g
    } else {
        run_group(rl, g + 1, p - rl[g])
    }
}

/// Map type 0: runs of `rl[0]` macroblocks of group 0, `rl[1]` of group 1,
/// and so on, repeated over the picture.
pub open spec fn interleaved_group(rl: Seq<u32>, i: int) -> int {
    run_group(rl, 0, i % run_prefix(rl, rl.len() as int))
}

/// Run prefixes grow.
proof fn lemma_run_prefix_mono(rl: Seq<u32>, a: int, b: int)
    requires
        0 <= a <= b <= rl.len(),
    ensures
        run_prefix(rl, a) <= run_prefix(rl, b),
    decreases b - a,
{
    if a < b {
        lemma_run_prefix_mono(rl, a, b - 1);
    }
}

/// A position inside the run of group `g` belongs to group `g`.
proof fn lemma_run_group(rl: Seq<u32>, s: int, g: int, p: int)
    requires
        0 <= s <= g < rl.len(),
        run_prefix(rl, g) <= p < run_prefix(rl, g) + rl[g],
    ensures
        run_group(rl, s, p - run_prefix(rl, s)) == g,
    decreases g - s,
{
    if s < g {
        lemma_run_prefix_mono(rl, s + 1, g);
        lemma_run_group(rl, s + 1, g, p);
    }
}

/// Macroblock `c * T + run_prefix(g) + t` of the interleaved map, `T`
/// being the period, is in group `g`.
proof fn lemma_interleaved(rl: Seq<u32>, c: int, g: int, t: int)
    requires
        0 <= g < rl.len(),
        0 <= t < rl[g],
        0 <= c,
    ensures
        interleaved_group(rl, c * run_prefix(rl, rl.len() as int) + run_prefix(rl, g) + t) == g,
{
    let T = run_prefix(rl, rl.len() as int);
    let p = run_prefix(rl, g) + t;
    lemma_run_prefix_mono(rl, 0, g);
    lemma_run_prefix_mono(rl, g + 1, rl.len() as int);
    vstd::arithmetic::div_mod::lemma_fundamental_div_mod_converse(c * T + p, T, c, p);
    lemma_run_group(rl, 0, g, p);
}

/// Interleaved slice group map (type 0).
fn DecodeInterleavedMap(map: &mut Vec<u32>, numSliceGroups: u32, runLength: &Vec<u32>, picSize: u32)
    requires
        old(map).len() == picSize,
        picSize < 0x8000_0000,
        runLength.len() == numSliceGroups,
        forall|g: int| 0 <= g < numSliceGroups ==> #[trigger] runLength@[g] <= picSize,
        run_prefix(runLength@, numSliceGroups as int) > 0,
    ensures
        final(map).len() == picSize,
        forall|i: int| 0 <= i < picSize ==> #[trigger] final(map)@[i] as int == interleaved_group(runLength@, i),
{
    let ghost rl = runLength@;
    let ghost n = numSliceGroups as int;
    let ghost T = run_prefix(rl, n);
    let ghost mut c: int = 0;
    let mut i: u32 = 0;
    while i < picSize
        invariant
            map.len() == picSize,
            picSize < 0x8000_0000,
            rl == runLength@,
            n == numSliceGroups,
            rl.len() == n,
            T == run_prefix(rl, n),
            T > 0,
            forall|g: int| 0 <= g < n ==> #[trigger] rl[g] <= picSize,
            0 <= c,
            i >= picSize || i == c * T,
            i < 2 * picSize + 1,
            forall|k: int| 0 <= k < i && k < picSize ==> #[trigger] map@[k] as int == interleaved_group(rl, k),
        decreases 2 * picSize + 1 - i,
    {
        let ghost i0 = i;
        let mut group: u32 = 0;
        while group < numSliceGroups && i < picSize
            invariant
                map.len() == picSize,
                picSize < 0x8000_0000,
                rl == runLength@,
                n == numSliceGroups,
                rl.len() == n,
                T == run_prefix(rl, n),
                T > 0,
                forall|g: int| 0 <= g < n ==> #[trigger] rl[g] <= picSize,
                0 <= c,
                i0 < picSize,
                i0 == c * T,
                group <= n,
                i >= picSize || i == c * T + run_prefix(rl, group as int),
                i >= i0,
                i < 2 * picSize + 1,
                forall|k: int| 0 <= k < i && k < picSize ==> #[trigger] map@[k] as int == interleaved_group(rl, k),
            decreases n - group,
        {
            let run = runLength[group as usize];
            let mut j: u32 = 0;
            while j < run && i + j < picSize
                invariant
                    map.len() == picSize,
                    picSize < 0x8000_0000,
                    rl == runLength@,
                    rl.len() == n,
                    T == run_prefix(rl, n),
                    0 <= c,
                    group < n,
                    run == rl[group as int],
                    run <= picSize,
                    i < picSize,
                    i == c * T + run_prefix(rl, group as int),
                    j <= run,
                    forall|k: int| 0 <= k < i + j && k < picSize ==> #[trigger] map@[k] as int == interleaved_group(rl, k),
                decreases run - j,
            {
                proof {
                    lemma_interleaved(rl, c, group as int, j as int);
                }
                map.set((i + j) as usize, group);
                j += 1;
            }
            i = i + run;
            group += 1;
        }
        proof {
            if i < picSize {
                assert(group == n);
                assert(i == (c + 1) * T) by (nonlinear_arith)
                    requires
                        i == c * T + T,
                ;
                c = c + 1;
            }
            assert(i > i0) by {
                if i < picSize {
                    assert(c * T > (c - 1) * T) by (nonlinear_arith)
                        requires
                            T > 0,
                    ;
                }
            }
        }
    }
}


/// `a mod b`, and 0 for `b == 0`.
pub open spec fn mod_or_zero(a: u32, b: u32) -> int {
    if b == 0 {
        0
    } else {
        a as int % b as int
    }
}

/// The slice group vectors of `pps` have the entries its map type reads:
/// a run length per group (type 0), a rectangle per group but the last
/// (type 2), an id per map unit (type 6).
pub open spec fn groups_wf(pps: PpsModel) -> bool {
    pps.numSliceGroups > 1 ==> {
        &&& pps.sliceGroupMapType == 0 ==> pps.runLength.len() == pps.numSliceGroups
        &&& pps.sliceGroupMapType == 2 ==> pps.topLeft.len() >= pps.numSliceGroups - 1 && pps.bottomRight.len()
            >= pps.numSliceGroups - 1
        &&& pps.sliceGroupMapType == 6 ==> pps.sliceGroupId.len() == pps.picSizeInMapUnits
    }
}

/// The slice group parameters of `pps` fit a picture of `picWidth` x
/// `picHeight` macroblocks: run lengths at most the picture size,
/// rectangles inside the picture with their corners in order, a change
/// rate at most the picture size, an explicit map covering the picture.
pub open spec fn pps_fits(pps: PpsModel, picWidth: u32, picHeight: u32) -> bool {
    let picSize = picWidth * picHeight;
    pps.numSliceGroups > 1 ==> if pps.sliceGroupMapType == 0 {
        forall|i: int| 0 <= i < pps.numSliceGroups ==> #[trigger] pps.runLength[i] <= picSize
    } else if pps.sliceGroupMapType == 2 {
        forall|i: int|
            0 <= i < pps.numSliceGroups - 1 ==> {
                &&& #[trigger] pps.topLeft[i] <= pps.bottomRight[i]
                &&& pps.bottomRight[i] < picSize
                &&& mod_or_zero(pps.topLeft[i], picWidth) <= mod_or_zero(pps.bottomRight[i], picWidth)
            }
    } else if 2 < pps.sliceGroupMapType < 6 {
        pps.sliceGroupChangeRate <= picSize
    } else if pps.sliceGroupMapType == 6 {
        pps.picSizeInMapUnits >= picSize
    } else {
        true
    }
}

/// Check the picture parameter set against the picture size of the
/// sequence parameter set: HANTRO_OK exactly when its slice group
/// parameters fit the picture.
pub fn CheckPps(pps: &picParamSet_t, sps: &seqParamSet_t) -> (r: u32)
    requires
        groups_wf(pps.model()),
        sps.picWidthInMbs * sps.picHeightInMbs <= u32::MAX,
    ensures
        r == if pps_fits(pps.model(), sps.picWidthInMbs, sps.picHeightInMbs) {
            HANTRO_OK
        } else {
            HANTRO_NOK
        },
{
    let picSize = sps.picWidthInMbs * sps.picHeightInMbs;
    if pps.numSliceGroups > 1 {
        if pps.sliceGroupMapType == 0 {
            let mut i: u32 = 0;
            while i < pps.numSliceGroups
                invariant
                    i <= pps.numSliceGroups,
                    pps.numSliceGroups > 1,
                    pps.sliceGroupMapType == 0,
                    picSize == sps.picWidthInMbs * sps.picHeightInMbs,
                    pps.runLength.len() == pps.numSliceGroups,
                    forall|k: int| 0 <= k < i ==> #[trigger] pps.runLength@[k] <= picSize,
                decreases pps.numSliceGroups - i,
            {
                if pps.runLength[i as usize] > picSize {
                    assert(pps.model().runLength[i as int] > picSize);
                    return HANTRO_NOK;
                }
                i += 1;
            }
        } else if pps.sliceGroupMapType == 2 {
            let mut i: u32 = 0;
            while i < pps.numSliceGroups - 1
                invariant
                    i <= pps.numSliceGroups - 1,
                    pps.numSliceGroups > 1,
                    pps.sliceGroupMapType == 2,
                    pps.topLeft.len() >= pps.numSliceGroups - 1,
                    pps.bottomRight.len() >= pps.numSliceGroups - 1,
                    picSize == sps.picWidthInMbs * sps.picHeightInMbs,
                    forall|k: int|
                        0 <= k < i ==> {
                            &&& #[trigger] pps.topLeft@[k] <= pps.bottomRight@[k]
                            &&& pps.bottomRight@[k] < picSize
                            &&& mod_or_zero(pps.topLeft@[k], sps.picWidthInMbs) <= mod_or_zero(
                                pps.bottomRight@[k],
                                sps.picWidthInMbs,
                            )
                        },
                decreases pps.numSliceGroups - 1 - i,
            {
                let tl = pps.topLeft[i as usize];
                let br = pps.bottomRight[i as usize];
                if tl > br || br >= picSize {
                    assert(pps.model().topLeft[i as int] == tl);
                    return HANTRO_NOK;
                }
                if urem(tl, sps.picWidthInMbs) > urem(br, sps.picWidthInMbs) {
                    assert(pps.model().topLeft[i as int] == tl);
                    return HANTRO_NOK;
                }
                i += 1;
            }
        } else if pps.sliceGroupMapType > 2 && pps.sliceGroupMapType < 6 {
            if pps.sliceGroupChangeRate > picSize {
                return HANTRO_NOK;
            }
        } else if pps.sliceGroupMapType == 6 && pps.picSizeInMapUnits < picSize {
            return HANTRO_NOK;
        }
    }
    assert(pps_fits(pps.model(), sps.picWidthInMbs, sps.picHeightInMbs));
    HANTRO_OK
}

/// Where the box-out walk of map type 3 stands: the current map unit
/// (`x`, `y`), the direction of travel, the box walked so far, the number
/// of units put in slice group 0 and the map.
#[verifier::ext_equal]
pub struct BoxOutState {
    pub x: int,
    pub y: int,
    pub xDir: int,
    pub yDir: int,
    pub left: int,
    pub top: int,
    pub right: int,
    pub bottom: int,
    pub k: int,
    pub map: Seq<u32>,
}

/// The walk starts at the centre of the picture with every unit in group 1,
/// heading left (`flag` 0) or down (`flag` 1).
pub open spec fn box_out_start(flag: u32, w: u32, h: u32) -> BoxOutState {
    let x = (w - flag) / 2;
    let y = (h - flag) / 2;
    BoxOutState {
        x,
        y,
        xDir: flag - 1,
        yDir: flag as int,
        left: x,
        top: y,
        right: x,
        bottom: y,
        k: 0,
        map: Seq::new((w * h) as nat, |i: int| 1u32),
    }
}

/// One step of the walk: a vacant unit is put in group 0, then the walk
/// turns and widens the box (up to the picture's edges) where it meets the
/// box's edge, and otherwise moves one unit on.
pub open spec fn box_out_step(s: BoxOutState, flag: u32, w: u32, h: u32) -> BoxOutState {
    let f = flag as int;
    let idx = s.y * w + s.x;
    let vacant = s.map[idx] == 1;
    let map = if vacant { s.map.update(idx, 0u32) } else { s.map };
    let k = if vacant { s.k + 1 } else { s.k };
    if s.xDir == -1 && s.x == s.left {
        let l = if s.left - 1 > 0 { s.left - 1 } else { 0 };
        BoxOutState { x: l, y: s.y, xDir: 0, yDir: 2 * f - 1, left: l, top: s.top, right: s.right, bottom: s.bottom, k, map }
    } else if s.xDir == 1 && s.x == s.right {
        let r = if s.right + 1 < w - 1 { s.right + 1 } else { w - 1 };
        BoxOutState { x: r, y: s.y, xDir: 0, yDir: 1 - 2 * f, left: s.left, top: s.top, right: r, bottom: s.bottom, k, map }
    } else if s.yDir == -1 && s.y == s.top {
        let t = if s.top - 1 > 0 { s.top - 1 } else { 0 };
        BoxOutState { x: s.x, y: t, xDir: 1 - 2 * f, yDir: 0, left: s.left, top: t, right: s.right, bottom: s.bottom, k, map }
    } else if s.yDir == 1 && s.y == s.bottom {
        let b = if s.bottom + 1 < h - 1 { s.bottom + 1 } else { h - 1 };
        BoxOutState { x: s.x, y: b, xDir: 2 * f - 1, yDir: 0, left: s.left, top: s.top, right: s.right, bottom: b, k, map }
    } else {
        BoxOutState {
            x: s.x + s.xDir,
            y: s.y + s.yDir,
            xDir: s.xDir,
            yDir: s.yDir,
            left: s.left,
            top: s.top,
            right: s.right,
            bottom: s.bottom,
            k,
            map,
        }
    }
}

/// The walk from `s` until `units` units are in group 0, for at most
/// `fuel` steps.
pub open spec fn box_out_run(s: BoxOutState, flag: u32, units: u32, w: u32, h: u32, fuel: nat) -> BoxOutState
    decreases fuel,
{
    if fuel == 0 || s.k >= units {
        s
    } else {
        box_out_run(box_out_step(s, flag, w, h), flag, units, w, h, (fuel - 1) as nat)
    }
}

/// The number of steps after which the walk stops in any case. A lap
/// round the box takes at most 2 * (w + h) + 4 steps and widens the box
/// until it covers the picture, so the walk puts its units in group 0 well
/// within this bound.
pub open spec fn box_out_steps(w: u32, h: u32) -> nat {
    (4 * (w + h + 2) * (w + h + 2)) as nat
}

/// Map type 3 (box-out): the slice group of unit `i` after the walk that
/// puts `units` units, spiralling out from the centre, in group 0.
pub open spec fn box_out_group(flag: u32, units: u32, w: u32, h: u32, i: int) -> int {
    box_out_run(box_out_start(flag, w, h), flag, units, w, h, box_out_steps(w, h)).map[i] as int
}

/// Box-out slice group map (type 3).
fn DecodeBoxOutMap(map: &mut Vec<u32>, sliceGroupChangeDirectionFlag: u32, unitsInSliceGroup0: u32, picWidth: u32, picHeight: u32)
    requires
        old(map).len() == picWidth * picHeight,
        1 <= picWidth,
        sliceGroupChangeDirectionFlag <= picHeight,
        picWidth * picHeight <= 0x1000_0000,
        sliceGroupChangeDirectionFlag <= 1,
        unitsInSliceGroup0 <= picWidth * picHeight,
    ensures
        final(map).len() == picWidth * picHeight,
        forall|i: int|
            0 <= i < picWidth * picHeight ==> #[trigger] final(map)@[i] as int == box_out_group(
                sliceGroupChangeDirectionFlag,
                unitsInSliceGroup0,
                picWidth,
                picHeight,
                i,
            ),
{
    let flag = sliceGroupChangeDirectionFlag;
    let units = unitsInSliceGroup0;
    let ghost w = picWidth as int;
    let ghost h = picHeight as int;
    proof {
        if picHeight > 0 {
            assert(picWidth <= picWidth * picHeight) by (nonlinear_arith)
                requires 1 <= picHeight;
            assert(picHeight <= picWidth * picHeight) by (nonlinear_arith)
                requires 1 <= picWidth;
        }
    }
    let picSize = picWidth * picHeight;
    let mut i: u32 = 0;
    while i < picSize
        invariant
            i <= picSize,
            picSize == picWidth * picHeight,
            map.len() == picSize,
            forall|p: int| 0 <= p < i ==> #[trigger] map@[p] == 1u32,
        decreases picSize - i,
    {
        map.set(i as usize, 1);
        i += 1;
    }
    let ghost start = box_out_start(flag, picWidth, picHeight);
    assert(map@ =~= start.map);
    let mut x: i64 = ((picWidth - flag) / 2) as i64;
    let mut y: i64 = ((picHeight - flag) / 2) as i64;
    let mut left: i64 = x;
    let mut top: i64 = y;
    let mut right: i64 = x;
    let mut bottom: i64 = y;
    let mut xDir: i64 = flag as i64 - 1;
    let mut yDir: i64 = flag as i64;
    if units == 0 {
        assert(box_out_run(start, flag, units, picWidth, picHeight, box_out_steps(picWidth, picHeight)) == start);
        return;
    }
    assert(picWidth <= 0x1000_0000 && picHeight <= 0x1000_0000);
    let s: u64 = picWidth as u64 + picHeight as u64 + 2;
    assert(s * s <= 0x0800_0000_0000_0000) by (nonlinear_arith)
        requires s <= 0x2000_0002;
    let cap: u64 = 4 * (s * s);
    assert(cap == box_out_steps(picWidth, picHeight)) by (nonlinear_arith)
        requires s == picWidth + picHeight + 2, cap == 4 * (s * s);
    let mut steps: u64 = 0;
    let mut k: u32 = 0;
    while k < units && steps < cap
        invariant
            picSize == picWidth * picHeight,
            w == picWidth,
            h == picHeight,
            picSize <= 0x1000_0000,
            1 <= picWidth,
            flag <= 1,
            units <= picSize,
            map.len() == picSize,
            steps <= cap,
            cap == box_out_steps(picWidth, picHeight),
            k <= units,
            -1 <= xDir <= 1,
            -1 <= yDir <= 1,
            picSize > 0 ==> 0 <= left <= x <= right < w && 0 <= top <= y <= bottom < h,
            box_out_run(
                (BoxOutState { x: x as int, y: y as int, xDir: xDir as int, yDir: yDir as int, left: left as int,
                    top: top as int, right: right as int, bottom: bottom as int, k: k as int, map: map@ }),
                flag,
                units,
                picWidth,
                picHeight,
                (cap - steps) as nat,
            ) == box_out_run(start, flag, units, picWidth, picHeight, box_out_steps(picWidth, picHeight)),
        decreases cap - steps,
    {
        let ghost cur = BoxOutState {
            x: x as int,
            y: y as int,
            xDir: xDir as int,
            yDir: yDir as int,
            left: left as int,
            top: top as int,
            right: right as int,
            bottom: bottom as int,
            k: k as int,
            map: map@,
        };
        assert(y * w + x < w * h) by (nonlinear_arith)
            requires 0 <= y < h, 0 <= x < w;
        assert(y * w <= y * w + x);
        let idx: u32 = (y as u32) * picWidth + (x as u32);
        let vacant = map[idx as usize] == 1;
        if vacant {
            map.set(idx as usize, 0);
        }
        if xDir == -1 && x == left {
            left = if left - 1 > 0 { left - 1 } else { 0 };
            x = left;
            xDir = 0;
            yDir = 2 * flag as i64 - 1;
        } else if xDir == 1 && x == right {
            right = if right + 1 < picWidth as i64 - 1 { right + 1 } else { picWidth as i64 - 1 };
            x = right;
            xDir = 0;
            yDir = 1 - 2 * flag as i64;
        } else if yDir == -1 && y == top {
            top = if top - 1 > 0 { top - 1 } else { 0 };
            y = top;
            xDir = 1 - 2 * flag as i64;
            yDir = 0;
        } else if yDir == 1 && y == bottom {
            bottom = if bottom + 1 < picHeight as i64 - 1 { bottom + 1 } else { picHeight as i64 - 1 };
            y = bottom;
            xDir = 2 * flag as i64 - 1;
            yDir = 0;
        } else {
            x = x + xDir;
            y = y + yDir;
        }
        if vacant {
            k += 1;
        }
        proof {
            let next = BoxOutState {
                x: x as int,
                y: y as int,
                xDir: xDir as int,
                yDir: yDir as int,
                left: left as int,
                top: top as int,
                right: right as int,
                bottom: bottom as int,
                k: k as int,
                map: map@,
            };
            assert(next =~= box_out_step(cur, flag, picWidth, picHeight));
        }
        steps += 1;
    }
    proof {
        let fin = BoxOutState {
            x: x as int,
            y: y as int,
            xDir: xDir as int,
            yDir: yDir as int,
            left: left as int,
            top: top as int,
            right: right as int,
            bottom: bottom as int,
            k: k as int,
            map: map@,
        };
        assert(box_out_run(fin, flag, units, picWidth, picHeight, (cap - steps) as nat) == fin);
    }
}

/// The slice group of macroblock `i` for the map of `pps` in a picture of
/// `picWidth` x `picHeight` macroblocks, with slice_group_change_cycle
/// `cycle` (map types 3 to 5 put the first min(cycle * rate, picture size)
/// map units in slice group 0).
pub open spec fn slice_group_of(pps: PpsModel, cycle: u32, picWidth: u32, picHeight: u32, i: int) -> int {
    let picSize = picWidth * picHeight;
    let n = pps.numSliceGroups;
    let flag = pps.sliceGroupChangeDirectionFlag;
    let units = if cycle * pps.sliceGroupChangeRate < picSize {
        cycle * pps.sliceGroupChangeRate
    } else {
        picSize
    };
    let upper = (if flag != 0 { picSize - units } else { units }) as u32;
    if n == 1 {
        0
    } else if pps.sliceGroupMapType == 0 {
        interleaved_group(pps.runLength, i)
    } else if pps.sliceGroupMapType == 1 {
        dispersed_group(n, picWidth, i)
    } else if pps.sliceGroupMapType == 2 {
        foreground_group(pps.topLeft, pps.bottomRight, picWidth as int, n as int, 0, i)
    } else if pps.sliceGroupMapType == 3 {
        box_out_group(flag, units as u32, picWidth, picHeight, i)
  } else if pps.sliceGroupMapType == 4 {
        raster_scan_group(flag, upper, i)
    } else if pps.sliceGroupMapType == 5 {
        wipe_group(flag, upper, picWidth, picHeight, i)
    } else {
        pps.sliceGroupId[i] as int
    }
}

/// Decode the macroblock to slice group map of `pps` for a picture of
/// `picWidth` x `picHeight` macroblocks into `map`.
pub fn h264bsdDecodeSliceGroupMap(map: &mut Vec<u32>, pps: &picParamSet_t, sliceGroupChangeCycle: u32, picWidth: u32, picHeight: u32)
    requires
        old(map).len() == picWidth * picHeight,
        1 <= picWidth,
        picWidth * picHeight <= 0x1000_0000,
        1 <= pps.numSliceGroups <= 8,
        pps.sliceGroupMapType <= 6,
        pps.sliceGroupMapType == 3 ==> pps.sliceGroupChangeDirectionFlag <= picHeight,
        pps.sliceGroupChangeDirectionFlag <= 1,
        groups_wf(pps.model()),
        pps_fits(pps.model(), picWidth, picHeight),
        pps.numSliceGroups > 1 && 2 < pps.sliceGroupMapType < 6 ==> sliceGroupChangeCycle * pps.sliceGroupChangeRate
            <= u32::MAX,
        pps.numSliceGroups > 1 && pps.sliceGroupMapType == 0 ==> run_prefix(pps.runLength@, pps.numSliceGroups as int) > 0,
    ensures
        final(map).len() == picWidth * picHeight,
        forall|i: int|
            0 <= i < picWidth * picHeight ==> #[trigger] final(map)@[i] as int == slice_group_of(
                pps.model(),
                sliceGroupChangeCycle,
                picWidth,
                picHeight,
                i,
            ),
{
    let picSize = picWidth * picHeight;
    if pps.numSliceGroups == 1 {
        let mut i: u32 = 0;
        while i < picSize
            invariant
                i <= picSize,
                map.len() == picSize,
                forall|k: int| 0 <= k < i ==> #[trigger] map@[k] == 0,
            decreases picSize - i,
        {
            map.set(i as usize, 0);
            i += 1;
        }
        return;
    }
    let mut unitsInSliceGroup0: u32 = 0;
    let mut sizeOfUpperLeftGroup: u32 = 0;
    if pps.sliceGroupMapType > 2 && pps.sliceGroupMapType < 6 {
        let c = sliceGroupChangeCycle * pps.sliceGroupChangeRate;
        unitsInSliceGroup0 = if c < picSize {
            c
        } else {
            picSize
        };
        if pps.sliceGroupMapType == 4 || pps.sliceGroupMapType == 5 {
            sizeOfUpperLeftGroup = if pps.sliceGroupChangeDirectionFlag != 0 {
                picSize - unitsInSliceGroup0
            } else {
                unitsInSliceGroup0
            };
        }
    }
    if pps.sliceGroupMapType == 0 {
        DecodeInterleavedMap(map, pps.numSliceGroups, &pps.runLength, picSize);
    } else if pps.sliceGroupMapType == 1 {
        DecodeDispersedMap(map, pps.numSliceGroups, picWidth, picHeight);
    } else if pps.sliceGroupMapType == 2 {
        proof {
            assert forall|g: int| 0 <= g < pps.numSliceGroups - 1 implies #[trigger] pps.bottomRight@[g] < picWidth * picHeight by {
                assert(pps.model().topLeft[g] <= pps.model().bottomRight[g]);
            }
        }
        DecodeForegroundLeftOverMap(map, pps.numSliceGroups, &pps.topLeft, &pps.bottomRight, picWidth, picHeight);
    } else if pps.sliceGroupMapType == 3 {
        DecodeBoxOutMap(map, pps.sliceGroupChangeDirectionFlag, unitsInSliceGroup0, picWidth, picHeight);
  } else if pps.sliceGroupMapType == 4 {
        DecodeRasterScanMap(map, pps.sliceGroupChangeDirectionFlag, sizeOfUpperLeftGroup, picSize);
    } else if pps.sliceGroupMapType == 5 {
        DecodeWipeMap(map, pps.sliceGroupChangeDirectionFlag, sizeOfUpperLeftGroup, picWidth, picHeight);
    } else {
        let mut i: u32 = 0;
        while i < picSize
            invariant
                i <= picSize,
                map.len() == picSize,
                pps.sliceGroupId.len() >= picSize,
                forall|k: int| 0 <= k < i ==> #[trigger] map@[k] == pps.sliceGroupId@[k],
            decreases picSize - i,
        {
            map.set(i as usize, pps.sliceGroupId[i as usize]);
            i += 1;
        }
    }
}

} // verus!
