use h264bsd::defs::{HANTRO_FALSE, HANTRO_NOK, HANTRO_OK, HANTRO_TRUE};
use h264bsd::macroblock::{mbPred_t, mv_t, subMbPred_t, DecodeMbPred, DecodeSubMbPred, I_16x16_0_0_0, I_4x4, P_8x8, P_8x8ref0, P_L0_16x16, P_L0_L0_16x8};
use h264bsd::stream::strmData_t;

struct Bits {
    bytes: Vec<u8>,
    n: usize,
}

impl Bits {
    fn new() -> Self {
        Bits { bytes: Vec::new(), n: 0 }
    }

    fn put(&mut self, v: u64, len: usize) -> &mut Self {
        for i in (0..len).rev() {
            if self.n % 8 == 0 {
                self.bytes.push(0);
            }
            if (v >> i) & 1 == 1 {
                let last = self.bytes.len() - 1;
                self.bytes[last] |= 0x80 >> (self.n % 8);
            }
            self.n += 1;
        }
        self
    }

    fn ue(&mut self, v: u32) -> &mut Self {
        let x = v as u64 + 1;
        let len = 64 - x.leading_zeros() as usize;
        self.put(0, len - 1);
        self.put(x, len)
    }

    fn se(&mut self, v: i32) -> &mut Self {
        let k = if v > 0 { 2 * v as i64 - 1 } else { -2 * v as i64 };
        self.ue(k as u32)
    }

    fn stream(&self) -> strmData_t {
        strmData_t::new(self.bytes.clone(), self.bytes.len() as u32)
    }
}

fn mb_pred() -> mbPred_t {
    mbPred_t {
        prevIntra4x4PredModeFlag: [9; 16],
        remIntra4x4PredMode: [9; 16],
        intraChromaPredMode: 9,
        refIdxL0: [9; 4],
        mvdL0: [mv_t { hor: 9, ver: 9 }; 4],
    }
}

fn sub_mb_pred() -> subMbPred_t {
    subMbPred_t { subMbType: [9; 4], refIdxL0: [9; 4], mvdL0: [[mv_t { hor: 9, ver: 9 }; 4]; 4] }
}

#[test]
fn inter_16x8_with_references() {
    let mut b = Bits::new();
    /* numRefIdxActive 3: ue coded references */
    b.ue(2).ue(1).se(-3).se(4).se(0).se(-1).put(1, 1);
    let mut s = b.stream();
    let mut p = mb_pred();
    assert_eq!(DecodeMbPred(&mut s, &mut p, P_L0_L0_16x8, 3), HANTRO_OK);
    assert_eq!(&p.refIdxL0[..2], &[2, 1]);
    assert_eq!((p.mvdL0[0].hor, p.mvdL0[0].ver), (-3, 4));
    assert_eq!((p.mvdL0[1].hor, p.mvdL0[1].ver), (0, -1));
    assert_eq!(p.refIdxL0[2], 9);
}

#[test]
fn inter_references_two_pictures_and_range() {
    let mut b = Bits::new();
    /* numRefIdxActive 2: one inverted bit: 0 -> index 1 */
    b.put(0, 1).se(5).se(-7);
    let mut s = b.stream();
    let mut p = mb_pred();
    assert_eq!(DecodeMbPred(&mut s, &mut p, P_L0_16x16, 2), HANTRO_OK);
    assert_eq!(p.refIdxL0[0], 1);
    assert_eq!((p.mvdL0[0].hor, p.mvdL0[0].ver), (5, -7));
    /* index 3 with only 3 active references */
    let mut b2 = Bits::new();
    b2.ue(3).se(0).se(0);
    let mut s2 = b2.stream();
    assert_eq!(DecodeMbPred(&mut s2, &mut mb_pred(), P_L0_16x16, 3), HANTRO_NOK);
}

#[test]
fn intra_4x4_modes_and_chroma() {
    let mut b = Bits::new();
    for k in 0..16 {
        if k % 3 == 0 {
            b.put(1, 1);
        } else {
            b.put(0, 1).put((k % 8) as u64, 3);
        }
    }
    b.ue(2).put(1, 1);
    let mut s = b.stream();
    let mut p = mb_pred();
    assert_eq!(DecodeMbPred(&mut s, &mut p, I_4x4, 1), HANTRO_OK);
    for k in 0..16 {
        if k % 3 == 0 {
            assert_eq!(p.prevIntra4x4PredModeFlag[k], HANTRO_TRUE);
            assert_eq!(p.remIntra4x4PredMode[k], 9);
        } else {
            assert_eq!(p.prevIntra4x4PredModeFlag[k], HANTRO_FALSE);
            assert_eq!(p.remIntra4x4PredMode[k], (k % 8) as u32);
        }
    }
    assert_eq!(p.intraChromaPredMode, 2);
}

#[test]
fn intra_modes_past_the_end_and_bad_chroma() {
    let mut b = Bits::new();
    b.put(0, 8);
    let mut s = b.stream();
    assert_eq!(DecodeMbPred(&mut s, &mut mb_pred(), I_4x4, 1), HANTRO_NOK);
    let mut b2 = Bits::new();
    b2.ue(4);
    let mut s2 = b2.stream();
    assert_eq!(DecodeMbPred(&mut s2, &mut mb_pred(), I_16x16_0_0_0, 1), HANTRO_NOK);
    let mut b3 = Bits::new();
    b3.ue(3);
    let mut s3 = b3.stream();
    let mut p = mb_pred();
    assert_eq!(DecodeMbPred(&mut s3, &mut p, I_16x16_0_0_0, 1), HANTRO_OK);
    assert_eq!(p.intraChromaPredMode, 3);
}

#[test]
fn sub_macroblock_prediction() {
    let mut b = Bits::new();
    /* types 0 (8x8), 1 (8x4), 2 (4x8), 3 (4x4) */
    b.ue(0).ue(1).ue(2).ue(3);
    /* references with 2 active pictures: inverted bits */
    b.put(1, 1).put(0, 1).put(1, 1).put(1, 1);
    for i in 0..(1 + 2 + 2 + 4) {
        b.se(i).se(-i);
    }
    let mut s = b.stream();
    let mut p = sub_mb_pred();
    assert_eq!(DecodeSubMbPred(&mut s, &mut p, P_8x8, 2), HANTRO_OK);
    assert_eq!(p.subMbType, [0, 1, 2, 3]);
    assert_eq!(p.refIdxL0, [0, 1, 0, 0]);
    assert_eq!((p.mvdL0[0][0].hor, p.mvdL0[0][0].ver), (0, 0));
    assert_eq!((p.mvdL0[0][1].hor, p.mvdL0[0][1].ver), (9, 9));
    assert_eq!((p.mvdL0[1][1].hor, p.mvdL0[1][1].ver), (2, -2));
    assert_eq!((p.mvdL0[3][3].hor, p.mvdL0[3][3].ver), (8, -8));
}

#[test]
fn sub_macroblock_ref0_and_bad_type() {
    let mut b = Bits::new();
    b.ue(0).ue(0).ue(0).ue(0);
    b.se(1).se(1).se(2).se(2).se(3).se(3).se(4).se(4);
    let mut s = b.stream();
    let mut p = sub_mb_pred();
    assert_eq!(DecodeSubMbPred(&mut s, &mut p, P_8x8ref0, 2), HANTRO_OK);
    assert_eq!(p.refIdxL0, [9; 4]);
    assert_eq!((p.mvdL0[3][0].hor, p.mvdL0[3][0].ver), (4, 4));
    let mut b2 = Bits::new();
    b2.ue(4);
    let mut s2 = b2.stream();
    assert_eq!(DecodeSubMbPred(&mut s2, &mut sub_mb_pred(), P_8x8, 1), HANTRO_NOK);
}
