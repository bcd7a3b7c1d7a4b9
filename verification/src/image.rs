//! Decoded pictures: a luma plane of 16 x 16 samples per macroblock
//! followed by the Cb and the Cr plane of 8 x 8 samples per macroblock.
use vstd::prelude::*;
use crate::reconstruct::{block_fits, in_block, lemma_block_index, lemma_in_block};
use crate::util::{udiv, urem};

verus! {

/// A picture of `width` x `height` macroblocks; `luma`, `cb` and `cr` are
/// the positions in `data` of the current macroblock's three components.
pub struct image_t {
    pub data: Vec<u8>,
    pub width: u32,
    pub height: u32,
    pub luma: usize,
    pub cb: usize,
    pub cr: usize,
}

impl image_t {
    /// The sample planes fill `data` exactly and the picture is at most
    /// 4096 macroblocks wide and high.
    pub open spec fn wf(&self) -> bool {
        &&& 1 <= self.width <= 4096
        &&& 1 <= self.height <= 4096
        &&& self.data.len() == 384 * self.width * self.height
    }

    /// Samples in a luma row.
    pub open spec fn luma_width(&self) -> int {
        16 * self.width
    }

    /// Luma rows.
    pub open spec fn luma_height(&self) -> int {
        16 * self.height
    }

    /// Position of the Cb plane in `data` (the Cr plane follows it).
    pub open spec fn chroma_base(&self) -> int {
        256 * self.width * self.height
    }
}

impl image_t {
    /// Position in `data` of the luma samples of macroblock `mbNum`.
    pub open spec fn mb_luma(&self, mbNum: int) -> int {
        (mbNum / self.width as int) * (256 * self.width) + (mbNum % self.width as int) * 16
    }

    /// Position in `data` of the Cb samples of macroblock `mbNum`.
    pub open spec fn mb_cb(&self, mbNum: int) -> int {
        self.chroma_base() + (mbNum / self.width as int) * (64 * self.width) + (mbNum % self.width as int) * 8
    }

    /// Position in `data` of the Cr samples of macroblock `mbNum`.
    pub open spec fn mb_cr(&self, mbNum: int) -> int {
        self.mb_cb(mbNum) + 64 * self.width * self.height
    }

    /// `luma`, `cb` and `cr` point at macroblock `mbNum`.
    pub open spec fn points_at(&self, mbNum: int) -> bool {
        &&& self.luma == self.mb_luma(mbNum)
        &&& self.cb == self.mb_cb(mbNum)
        &&& self.cr == self.mb_cr(mbNum)
    }

    /// The current macroblock's three blocks lie inside their planes.
    pub open spec fn current_ok(&self) -> bool {
        &&& block_fits(self.chroma_base(), 16 * self.width, self.luma as int, 16, 16)
        &&& self.chroma_base() <= self.cb
        &&& block_fits(self.chroma_base() + 64 * self.width * self.height, 8 * self.width, self.cb as int, 8, 8)
        &&& self.chroma_base() + 64 * self.width * self.height <= self.cr
        &&& block_fits(self.data.len() as int, 8 * self.width, self.cr as int, 8, 8)
    }
}

/// The blocks of macroblock `mbNum` lie inside their planes.
pub proof fn lemma_mb_blocks(image: &image_t, mbNum: int)
    requires
        image.wf(),
        0 <= mbNum < image.width * image.height,
    ensures
        ({
            let w = image.width as int;
            let h = image.height as int;
            &&& block_fits(256 * w * h, 16 * w, image.mb_luma(mbNum), 16, 16)
            &&& 256 * w * h <= image.mb_cb(mbNum)
            &&& block_fits(256 * w * h + 64 * w * h, 8 * w, image.mb_cb(mbNum), 8, 8)
            &&& block_fits(384 * w * h, 8 * w, image.mb_cr(mbNum), 8, 8)
        }),
{
    let w = image.width as int;
    let h = image.height as int;
    let row = mbNum / w;
    let col = mbNum % w;
    assert(mbNum == row * w + col && 0 <= col < w) by {
        vstd::arithmetic::div_mod::lemma_fundamental_div_mod(mbNum, w);
        assert(w * row == row * w) by (nonlinear_arith);
    }
    assert(0 <= row < h) by (nonlinear_arith)
        requires
            mbNum == row * w + col,
            0 <= col < w,
            0 <= mbNum < w * h,
            1 <= w,
    ;
    assert(row * (256 * w) + col * 16 + 15 * (16 * w) + 16 <= 256 * w * h) by (nonlinear_arith)
        requires
            0 <= row < h,
            0 <= col < w,
    ;
    assert(0 <= row * (256 * w) + col * 16) by (nonlinear_arith)
        requires
            0 <= row,
            0 <= col,
            1 <= w,
    ;
    assert(row * (64 * w) + col * 8 + 7 * (8 * w) + 8 <= 64 * w * h) by (nonlinear_arith)
        requires
            0 <= row < h,
            0 <= col < w,
    ;
    assert(0 <= row * (64 * w) + col * 8) by (nonlinear_arith)
        requires
            0 <= row,
            0 <= col,
            1 <= w,
    ;
    assert(384 * w * h == 256 * w * h + 64 * w * h + 64 * w * h) by (nonlinear_arith);
}

/// Row and column of macroblock `mbNum` in a picture `w` macroblocks wide.
proof fn lemma_row_col(mbNum: int, w: int, h: int)
    requires
        1 <= w,
        0 <= mbNum < w * h,
    ensures
        0 <= mbNum / w < h,
        0 <= mbNum % w < w,
{
    vstd::arithmetic::div_mod::lemma_fundamental_div_mod(mbNum, w);
    let row = mbNum / w;
    let col = mbNum % w;
    assert(0 <= row < h) by (nonlinear_arith)
        requires
            mbNum == w * row + col,
            0 <= col < w,
            0 <= mbNum < w * h,
            1 <= w,
    ;
}

/// Offsets of the luma, Cb and Cr samples of macroblock (row, col) in a
/// picture of `wu` x `hu` macroblocks.
fn mb_offsets(wu: usize, hu: usize, ru: usize, cu: usize, dlen: usize) -> (r: (usize, usize, usize))
    requires
        ru < hu,
        cu < wu,
        dlen == 384 * wu * hu,
    ensures
        r.0 == ru * (256 * wu) + cu * 16,
        r.1 == 256 * wu * hu + ru * (64 * wu) + cu * 8,
        r.2 == r.1 + 64 * wu * hu,
{
    proof {
        assert(wu * hu <= dlen && 256 * wu <= dlen && 64 * wu <= dlen) by (nonlinear_arith)
            requires
                dlen == 384 * wu * hu,
                1 <= hu,
        ;
        assert(256 * (wu * hu) == 256 * wu * hu && 64 * (wu * hu) == 64 * wu * hu) by (nonlinear_arith);
        assert(ru * (256 * wu) + cu * 16 <= 256 * wu * hu) by (nonlinear_arith)
            requires
                ru + 1 <= hu,
                cu < wu,
        ;
        assert(ru * (64 * wu) + cu * 8 <= 64 * wu * hu) by (nonlinear_arith)
            requires
                ru + 1 <= hu,
                cu < wu,
        ;
        assert(256 * wu * hu + 64 * wu * hu + 64 * wu * hu == dlen) by (nonlinear_arith)
            requires
                dlen == 384 * wu * hu,
        ;
    }
    let picSize = wu * hu;
    let luma = cu * 16 + ru * (256 * wu);
    let cb = picSize * 256 + ru * (64 * wu) + cu * 8;
    (luma, cb, cb + picSize * 64)
}

/// Point `luma`, `cb` and `cr` of `image` at macroblock `mbNum`.
pub fn h264bsdSetCurrImageMbPointers(image: &mut image_t, mbNum: u32)
    requires
        old(image).wf(),
        mbNum < old(image).width * old(image).height,
    ensures
        final(image).data == old(image).data,
        final(image).width == old(image).width,
        final(image).height == old(image).height,
        final(image).points_at(mbNum as int),
        final(image).current_ok(),
{
    let width = image.width;
    let row = udiv(mbNum, width);
    let col = urem(mbNum, width);
    proof {
        lemma_row_col(mbNum as int, width as int, image.height as int);
    }
    let dlen = image.data.len();
    let (luma, cb, cr) = mb_offsets(width as usize, image.height as usize, row as usize, col as usize, dlen);
    image.luma = luma;
    image.cb = cb;
    image.cr = cr;
    proof {
        lemma_mb_blocks(image, mbNum as int);
    }
}

/// Copy a `bw` x `bh` block of `src` (rows of `srcStride` from `srcOff`)
/// into `dst` (rows of `stride` from `pos`).
fn copy_block(dst: &mut Vec<u8>, pos: usize, stride: usize, src: &[u8; 384], srcOff: usize, srcStride: usize, bw: usize, bh: usize)
    requires
        block_fits(old(dst).len() as int, stride as int, pos as int, bw as int, bh as int),
        block_fits(384, srcStride as int, srcOff as int, bw as int, bh as int),
    ensures
        final(dst).len() == old(dst).len(),
        forall|i: int, j: int|
            0 <= i < bw && 0 <= j < bh ==> #[trigger] final(dst)@[pos + j * stride + i] == src@[srcOff + j * srcStride + i],
        forall|k: int| 0 <= k < old(dst).len() && !in_block(k, stride as int, pos as int, bw as int, bh as int) ==> final(dst)@[k] == old(dst)@[k],
{
    let ghost d0 = dst@;
    let mut j: usize = 0;
    while j < bh
        invariant
            j <= bh,
            block_fits(d0.len() as int, stride as int, pos as int, bw as int, bh as int),
            block_fits(384, srcStride as int, srcOff as int, bw as int, bh as int),
            dst.len() == d0.len(),
            forall|i: int, jj: int|
                0 <= i < bw && 0 <= jj < j ==> #[trigger] dst@[pos + jj * stride + i] == src@[srcOff + jj * srcStride + i],
            forall|k: int| 0 <= k < d0.len() && !in_block(k, stride as int, pos as int, bw as int, bh as int) ==> dst@[k] == d0[k],
        decreases bh - j,
    {
        proof {
            lemma_block_index(stride as int, pos as int, bw as int, bh as int, 0, j as int);
            lemma_block_index(srcStride as int, srcOff as int, bw as int, bh as int, 0, j as int);
        }
        let rowDst = pos + j * stride;
        let rowSrc = srcOff + j * srcStride;
        let mut i: usize = 0;
        while i < bw
            invariant
                j < bh,
                i <= bw,
                rowDst == pos + j * stride,
                rowSrc == srcOff + j * srcStride,
                block_fits(d0.len() as int, stride as int, pos as int, bw as int, bh as int),
                block_fits(384, srcStride as int, srcOff as int, bw as int, bh as int),
                dst.len() == d0.len(),
                forall|ii: int, jj: int|
                    0 <= ii < bw && 0 <= jj < j ==> #[trigger] dst@[pos + jj * stride + ii] == src@[srcOff + jj * srcStride + ii],
                forall|ii: int| 0 <= ii < i ==> #[trigger] dst@[rowDst + ii] == src@[rowSrc + ii],
                forall|k: int| 0 <= k < d0.len() && !in_block(k, stride as int, pos as int, bw as int, bh as int) ==> dst@[k] == d0[k],
            decreases bw - i,
        {
            proof {
                lemma_block_index(stride as int, pos as int, bw as int, bh as int, i as int, j as int);
                lemma_block_index(srcStride as int, srcOff as int, bw as int, bh as int, i as int, j as int);
                lemma_in_block(stride as int, pos as int, bw as int, bh as int, i as int, j as int);
            }
            let ghost dd = dst@;
            dst.set(rowDst + i, src[rowSrc + i]);
            proof {
                assert forall|ii: int, jj: int|
                    0 <= ii < bw && 0 <= jj < j implies #[trigger] dst@[pos + jj * stride + ii] == src@[srcOff + jj * srcStride + ii] by {
                    assert(dd[pos + jj * stride + ii] == src@[srcOff + jj * srcStride + ii]);
                    assert(pos + jj * stride + ii < rowDst) by (nonlinear_arith)
                        requires
                            rowDst == pos + j * stride,
                            jj < j,
                            ii < bw,
                            bw <= stride,
                    ;
                }
            }
            i += 1;
        }
        proof {
            assert forall|ii: int, jj: int|
                0 <= ii < bw && 0 <= jj < j + 1 implies #[trigger] dst@[pos + jj * stride + ii] == src@[srcOff + jj * srcStride + ii] by {
                if jj == j {
                    assert(dst@[rowDst + ii] == src@[rowSrc + ii]);
                }
            }
        }
        j += 1;
    }
}

/// Write the macroblock `data` (16 x 16 luma, then 8 x 8 Cb and 8 x 8 Cr)
/// into the image at its current macroblock.
pub fn h264bsdWriteMacroblock(image: &mut image_t, data: &[u8; 384])
    requires
        old(image).wf(),
        old(image).current_ok(),
    ensures
        final(image).width == old(image).width,
        final(image).height == old(image).height,
        final(image).luma == old(image).luma,
        final(image).cb == old(image).cb,
        final(image).cr == old(image).cr,
        final(image).data.len() == old(image).data.len(),
        forall|x: int, y: int|
            0 <= x < 16 && 0 <= y < 16 ==> #[trigger] final(image).data@[old(image).luma + y * (16 * old(image).width) + x]
                == data@[16 * y + x],
        forall|x: int, y: int|
            0 <= x < 8 && 0 <= y < 8 ==> #[trigger] final(image).data@[old(image).cb + y * (8 * old(image).width) + x]
                == data@[256 + 8 * y + x],
        forall|x: int, y: int|
            0 <= x < 8 && 0 <= y < 8 ==> #[trigger] final(image).data@[old(image).cr + y * (8 * old(image).width) + x]
                == data@[320 + 8 * y + x],
        forall|k: int|
            0 <= k < old(image).data.len() && !in_block(k, 16 * old(image).width, old(image).luma as int, 16, 16) && !in_block(
                k,
                8 * old(image).width,
                old(image).cb as int,
                8,
                8,
            ) && !in_block(k, 8 * old(image).width, old(image).cr as int, 8, 8) ==> final(image).data@[k] == old(image).data@[k],
{
    let ghost w = image.width as int;
    let ghost h = image.height as int;
    let ghost d0 = image.data@;
    let width = image.width as usize;
    let luma = image.luma;
    let cb = image.cb;
    let cr = image.cr;
    proof {
        assert(16 * w <= 16 * 4096);
    }
    copy_block(&mut image.data, luma, 16 * width, data, 0, 16, 16, 16);
    let ghost d1 = image.data@;
    copy_block(&mut image.data, cb, 8 * width, data, 256, 8, 8, 8);
    let ghost d2 = image.data@;
    copy_block(&mut image.data, cr, 8 * width, data, 320, 8, 8, 8);
    proof {
        assert forall|x: int, y: int| 0 <= x < 16 && 0 <= y < 16 implies #[trigger] image.data@[luma + y * (16 * w) + x] == data@[16 * y + x] by {
            lemma_block_index(16 * w, luma as int, 16, 16, x, y);
            assert(d1[luma + y * (16 * w) + x] == data@[0 + y * 16 + x]);
            assert(luma + y * (16 * w) + x < 256 * w * h);
        }
        assert forall|x: int, y: int| 0 <= x < 8 && 0 <= y < 8 implies #[trigger] image.data@[cb + y * (8 * w) + x] == data@[256 + 8 * y + x] by {
            lemma_block_index(8 * w, cb as int, 8, 8, x, y);
            assert(d2[cb + y * (8 * w) + x] == data@[256 + y * 8 + x]);
        }
        assert forall|x: int, y: int| 0 <= x < 8 && 0 <= y < 8 implies #[trigger] image.data@[cr + y * (8 * w) + x] == data@[320 + 8 * y + x] by {
            assert(image.data@[cr + y * (8 * w) + x] == data@[320 + y * 8 + x]);
        }
    }
}

} // verus!
