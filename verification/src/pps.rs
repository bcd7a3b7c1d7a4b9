//! Picture parameter set decoding.
use vstd::prelude::*;
use vstd::arithmetic::power2::*;
use crate::defs::{
    END_OF_STREAM, HANTRO_FALSE, HANTRO_NOK, HANTRO_OK, HANTRO_TRUE, MAX_NUM_PIC_PARAM_SETS, MAX_NUM_SEQ_PARAM_SETS,
    MAX_NUM_SLICE_GROUPS,
};
use crate::param_sets::picParamSet_t;
use crate::stream::{can_parse, h264bsdGetBits, strmData_t};
use crate::syntax::{in_stream, lemma_get_bits, step_done, u_ok, u_ok_at, u_val, u_val_at};
use crate::util::h264bsdRbspTrailingBits;
use crate::vlc::{
    h264bsdDecodeExpGolombSigned, h264bsdDecodeExpGolombUnsigned, lemma_ue_next, se_ok, se_ok_at, se_value,
    se_value_at, ue_next, ue_next_at, ue_ok, ue_ok_at, ue_value, ue_value_at,
};

verus! {

/// Bits of a slice group id for 1..8 slice groups: ceil(log2(n)), at
/// least 1.
pub const CeilLog2NumSliceGroups: [u32; 8] = [1, 1, 2, 2, 3, 3, 3, 3];

/// A picture parameter set as values.
#[verifier::ext_equal]
pub struct PpsModel {
    pub picParameterSetId: u32,
    pub seqParameterSetId: u32,
    pub picOrderPresentFlag: u32,
    pub numSliceGroups: u32,
    pub sliceGroupMapType: u32,
    pub runLength: Seq<u32>,
    pub topLeft: Seq<u32>,
    pub bottomRight: Seq<u32>,
    pub sliceGroupChangeDirectionFlag: u32,
    pub sliceGroupChangeRate: u32,
    pub picSizeInMapUnits: u32,
    pub sliceGroupId: Seq<u32>,
    pub numRefIdxL0Active: u32,
    pub picInitQp: u32,
    pub chromaQpIndexOffset: i32,
    pub deblockingFilterControlPresentFlag: u32,
    pub constrainedIntraPredFlag: u32,
    pub redundantPicCntPresentFlag: u32,
}

impl picParamSet_t {
    pub open spec fn model(&self) -> PpsModel {
        PpsModel {
            picParameterSetId: self.picParameterSetId,
            seqParameterSetId: self.seqParameterSetId,
            picOrderPresentFlag: self.picOrderPresentFlag,
            numSliceGroups: self.numSliceGroups,
            sliceGroupMapType: self.sliceGroupMapType,
            runLength: self.runLength@,
            topLeft: self.topLeft@,
            bottomRight: self.bottomRight@,
            sliceGroupChangeDirectionFlag: self.sliceGroupChangeDirectionFlag,
            sliceGroupChangeRate: self.sliceGroupChangeRate,
            picSizeInMapUnits: self.picSizeInMapUnits,
            sliceGroupId: self.sliceGroupId@,
            numRefIdxL0Active: self.numRefIdxL0Active,
            picInitQp: self.picInitQp,
            chromaQpIndexOffset: self.chromaQpIndexOffset,
            deblockingFilterControlPresentFlag: self.deblockingFilterControlPresentFlag,
            constrainedIntraPredFlag: self.constrainedIntraPredFlag,
            redundantPicCntPresentFlag: self.redundantPicCntPresentFlag,
        }
    }

    /// All parameters zero, no slice group data.
    pub fn zeroed() -> (r: Self)
        ensures
            r.model() == pps_zero(),
    {
        let r = picParamSet_t {
            picParameterSetId: 0,
            seqParameterSetId: 0,
            picOrderPresentFlag: 0,
            numSliceGroups: 0,
            sliceGroupMapType: 0,
            runLength: Vec::new(),
            topLeft: Vec::new(),
            bottomRight: Vec::new(),
            sliceGroupChangeDirectionFlag: 0,
            sliceGroupChangeRate: 0,
            picSizeInMapUnits: 0,
            sliceGroupId: Vec::new(),
            numRefIdxL0Active: 0,
            picInitQp: 0,
            chromaQpIndexOffset: 0,
            deblockingFilterControlPresentFlag: 0,
            constrainedIntraPredFlag: 0,
            redundantPicCntPresentFlag: 0,
        };
        assert(r.model() =~= pps_zero());
        r
    }
}

/// A picture parameter set that is all zero.
pub open spec fn pps_zero() -> PpsModel {
    PpsModel {
        picParameterSetId: 0,
        seqParameterSetId: 0,
        picOrderPresentFlag: 0,
        numSliceGroups: 0,
        sliceGroupMapType: 0,
        runLength: Seq::empty(),
        topLeft: Seq::empty(),
        bottomRight: Seq::empty(),
        sliceGroupChangeDirectionFlag: 0,
        sliceGroupChangeRate: 0,
        picSizeInMapUnits: 0,
        sliceGroupId: Seq::empty(),
        numRefIdxL0Active: 0,
        picInitQp: 0,
        chromaQpIndexOffset: 0,
        deblockingFilterControlPresentFlag: 0,
        constrainedIntraPredFlag: 0,
        redundantPicCntPresentFlag: 0,
    }
}

// ---------------------------------------------------------------------------
// The pic_parameter_set_rbsp() syntax, in parts
// ---------------------------------------------------------------------------

/// pic_parameter_set_id, seq_parameter_set_id, entropy_coding_mode_flag
/// (which must be 0), pic_order_present_flag and num_slice_groups_minus1
/// at `p`.
#[verifier::opaque]
pub open spec fn pps_head(d: Seq<u8>, sz: nat, p: int, m: PpsModel) -> (bool, PpsModel, int) {
    let q1 = ue_next_at(d, sz, p);
    let q2 = ue_next_at(d, sz, q1);
    let q3 = q2 + 2;
    let n = ue_value_at(d, sz, q3).wrapping_add(1);
    if !ue_ok_at(d, sz, p) || ue_value_at(d, sz, p) >= MAX_NUM_PIC_PARAM_SETS || !ue_ok_at(d, sz, q1)
        || ue_value_at(d, sz, q1) >= MAX_NUM_SEQ_PARAM_SETS || !u_ok_at(sz, q2, 2) || u_val_at(d, sz, q2, 1) != 0
        || !ue_ok_at(d, sz, q3) || n > MAX_NUM_SLICE_GROUPS {
        (false, m, ue_next_at(d, sz, q3))
    } else {
        (
            true,
            PpsModel {
                picParameterSetId: ue_value_at(d, sz, p),
                seqParameterSetId: ue_value_at(d, sz, q1),
                picOrderPresentFlag: u_val_at(d, sz, q2 + 1, 1),
                numSliceGroups: n,
                ..m
            },
            ue_next_at(d, sz, q3),
        )
    }
}

/// `n` unsigned Exp-Golomb values at `p`, each plus one (modulo 2^32):
/// (decoded, values, end).
pub open spec fn ue_plus1_list(d: Seq<u8>, sz: nat, p: int, n: nat) -> (bool, Seq<u32>, int)
    decreases n,
{
    if n == 0 {
        (true, Seq::empty(), p)
    } else if !ue_ok_at(d, sz, p) {
        (false, Seq::empty(), ue_next_at(d, sz, p))
    } else {
        let rest = ue_plus1_list(d, sz, ue_next_at(d, sz, p), (n - 1) as nat);
        (rest.0, seq![ue_value_at(d, sz, p).wrapping_add(1)] + rest.1, rest.2)
    }
}

/// `n` pairs of unsigned Exp-Golomb values at `p`: (decoded, first ones,
/// second ones, end).
pub open spec fn ue_pair_list(d: Seq<u8>, sz: nat, p: int, n: nat) -> (bool, Seq<u32>, Seq<u32>, int)
    decreases n,
{
    let p2 = ue_next_at(d, sz, p);
    if n == 0 {
        (true, Seq::empty(), Seq::empty(), p)
    } else if !ue_ok_at(d, sz, p) || !ue_ok_at(d, sz, p2) {
        (false, Seq::empty(), Seq::empty(), ue_next_at(d, sz, p2))
    } else {
        let rest = ue_pair_list(d, sz, ue_next_at(d, sz, p2), (n - 1) as nat);
        (
            rest.0,
            seq![ue_value_at(d, sz, p)] + rest.1,
            seq![ue_value_at(d, sz, p2)] + rest.2,
            rest.3,
        )
    }
}

/// `n` slice group ids of `bits` bits at `p`, each below `groups`:
/// (decoded, ids, end).
pub open spec fn group_id_list(d: Seq<u8>, sz: nat, p: int, n: nat, bits: nat, groups: u32) -> (bool, Seq<u32>, int)
    decreases n,
{
    if n == 0 {
        (true, Seq::empty(), p)
    } else if !u_ok_at(sz, p, bits) || u_val_at(d, sz, p, bits) >= groups {
        (false, Seq::empty(), p + bits)
    } else {
        let rest = group_id_list(d, sz, p + bits, (n - 1) as nat, bits, groups);
        (rest.0, seq![u_val_at(d, sz, p, bits)] + rest.1, rest.2)
    }
}

/// The slice group map description at `p` (present with more than one
/// slice group).
#[verifier::opaque]
pub open spec fn pps_groups(d: Seq<u8>, sz: nat, p: int, m: PpsModel) -> (bool, PpsModel, int) {
    let t = ue_value_at(d, sz, p);
    let q = ue_next_at(d, sz, p);
    let n = m.numSliceGroups;
    if n <= 1 {
        (true, m, p)
    } else if !ue_ok_at(d, sz, p) || t > 6 {
        (false, m, q)
    } else {
        let m1 = PpsModel { sliceGroupMapType: t, ..m };
        if t == 0 {
            let l = ue_plus1_list(d, sz, q, n as nat);
            (l.0, PpsModel { runLength: l.1, ..m1 }, l.2)
        } else if t == 2 {
            let l = ue_pair_list(d, sz, q, (n - 1) as nat);
            (l.0, PpsModel { topLeft: l.1, bottomRight: l.2, ..m1 }, l.3)
        } else if t == 3 || t == 4 || t == 5 {
            if !u_ok_at(sz, q, 1) || !ue_ok_at(d, sz, q + 1) {
                (false, m1, ue_next_at(d, sz, q + 1))
            } else {
                (
                    true,
                    PpsModel {
                        sliceGroupChangeDirectionFlag: u_val_at(d, sz, q, 1),
                        sliceGroupChangeRate: ue_value_at(d, sz, q + 1).wrapping_add(1),
                        ..m1
                    },
                    ue_next_at(d, sz, q + 1),
                )
            }
        } else if t == 6 {
            let units = ue_value_at(d, sz, q).wrapping_add(1);
            let bits = CeilLog2NumSliceGroups@[n - 1] as nat;
            let l = group_id_list(d, sz, ue_next_at(d, sz, q), units as nat, bits, n);
            if !ue_ok_at(d, sz, q) {
                (false, m1, ue_next_at(d, sz, q))
            } else {
                (l.0, PpsModel { picSizeInMapUnits: units, sliceGroupId: l.1, ..m1 }, l.2)
            }
        } else {
            (true, m1, q)
        }
    }
}

/// num_ref_idx_l0/l1_active_minus1, weighted_pred_flag (must be 0),
/// weighted_bipred_idc (at most 2), the QP fields and the three flags at
/// `p`.
#[verifier::opaque]
pub open spec fn pps_tail(d: Seq<u8>, sz: nat, p: int, m: PpsModel) -> (bool, PpsModel, int) {
    let q1 = ue_next_at(d, sz, p);
    let q2 = ue_next_at(d, sz, q1);
    let q3 = q2 + 3;
    let q4 = ue_next_at(d, sz, q3);
    let q5 = ue_next_at(d, sz, q4);
    let q6 = ue_next_at(d, sz, q5);
    if !ue_ok_at(d, sz, p) || ue_value_at(d, sz, p) > 31 || !ue_ok_at(d, sz, q1) || ue_value_at(d, sz, q1) > 31
        || !u_ok_at(sz, q2, 3) || u_val_at(d, sz, q2, 1) != 0 || u_val_at(d, sz, q2 + 1, 2) > 2 || !se_ok_at(
        d,
        sz,
        q3,
    ) || se_value_at(d, sz, q3) < -26 || se_value_at(d, sz, q3) > 25 || !se_ok_at(d, sz, q4) || se_value_at(
        d,
        sz,
        q4,
    ) < -26 || se_value_at(d, sz, q4) > 25 || !se_ok_at(d, sz, q5) || se_value_at(d, sz, q5) < -12 || se_value_at(
        d,
        sz,
        q5,
    ) > 12 || !u_ok_at(sz, q6, 3) {
        (false, m, q6 + 3)
    } else {
        (
            true,
            PpsModel {
                numRefIdxL0Active: (ue_value_at(d, sz, p) + 1) as u32,
                picInitQp: (se_value_at(d, sz, q3) + 26) as u32,
                chromaQpIndexOffset: se_value_at(d, sz, q5),
                deblockingFilterControlPresentFlag: u_val_at(d, sz, q6, 1),
                constrainedIntraPredFlag: u_val_at(d, sz, q6 + 1, 1),
                redundantPicCntPresentFlag: u_val_at(d, sz, q6 + 2, 1),
                ..m
            },
            q6 + 3,
        )
    }
}

/// The pic_parameter_set_rbsp() syntax at `p`, up to the trailing bits:
/// (decoded, parameter set, end).
pub open spec fn pps_syntax(d: Seq<u8>, sz: nat, p: int) -> (bool, PpsModel, int) {
    let a = pps_head(d, sz, p, pps_zero());
    let b = pps_groups(d, sz, a.2, a.1);
    let c = pps_tail(d, sz, b.2, b.1);
    if !a.0 {
        a
    } else if !b.0 {
        b
    } else {
        c
    }
}

// ---------------------------------------------------------------------------
// Decoding
// ---------------------------------------------------------------------------

fn read_head(pStrmData: &mut strmData_t, pps: &mut picParamSet_t) -> (r: u32)
    requires
        can_parse(old(pStrmData)),
    ensures
        final(pStrmData).wf(),
        final(pStrmData).same_stream(old(pStrmData)),
        r == HANTRO_OK ==> final(pps).numSliceGroups <= MAX_NUM_SLICE_GROUPS,
        step_done(
            r,
            pps_head(old(pStrmData).data(), old(pStrmData).size(), old(pStrmData).pos(), old(pps).model()),
            final(pps).model(),
            final(pStrmData),
        ),
{
    reveal(pps_head);
    let ghost s0 = *pStrmData;
    let ghost p = s0.pos();
    let ghost q2 = ue_next(&s0, ue_next(&s0, p));
    proof {
        lemma_ue_next(&s0, p);
        lemma_ue_next(&s0, ue_next(&s0, p));
        lemma_get_bits(&s0, q2, 1);
        lemma_get_bits(&s0, q2 + 1, 1);
        lemma_ue_next(&s0, q2 + 2);
    }
    let tmp = h264bsdDecodeExpGolombUnsigned(pStrmData, &mut pps.picParameterSetId);
    if tmp != HANTRO_OK {
        return tmp;
    }
    if pps.picParameterSetId >= MAX_NUM_PIC_PARAM_SETS as u32 {
        return HANTRO_NOK;
    }
    let tmp = h264bsdDecodeExpGolombUnsigned(pStrmData, &mut pps.seqParameterSetId);
    if tmp != HANTRO_OK {
        return tmp;
    }
    if pps.seqParameterSetId >= MAX_NUM_SEQ_PARAM_SETS as u32 {
        return HANTRO_NOK;
    }
    /* entropy_coding_mode_flag, shall be 0 for baseline profile */
    let tmp = h264bsdGetBits(pStrmData, 1);
    if tmp != 0 {
        return HANTRO_NOK;
    }
    let tmp = h264bsdGetBits(pStrmData, 1);
    if tmp == END_OF_STREAM {
        return HANTRO_NOK;
    }
    pps.picOrderPresentFlag = if tmp == 1 {
        HANTRO_TRUE
    } else {
        HANTRO_FALSE
    };
    /* num_slice_groups_minus1 */
    let mut value: u32 = 0;
    let tmp = h264bsdDecodeExpGolombUnsigned(pStrmData, &mut value);
    if tmp != HANTRO_OK {
        return tmp;
    }
    pps.numSliceGroups = value.wrapping_add(1);
    if pps.numSliceGroups > MAX_NUM_SLICE_GROUPS as u32 {
        return HANTRO_NOK;
    }
    HANTRO_OK
}

/// Read `n` unsigned Exp-Golomb values, each plus one, into a new vector.
fn read_ue_plus1_list(pStrmData: &mut strmData_t, n: u32) -> (r: (u32, Vec<u32>))
    requires
        in_stream(old(pStrmData)),
    ensures
        final(pStrmData).wf(),
        final(pStrmData).same_stream(old(pStrmData)),
        ({
            let l = ue_plus1_list(old(pStrmData).data(), old(pStrmData).size(), old(pStrmData).pos(), n as nat);
            &&& r.0 == (if l.0 { HANTRO_OK } else { HANTRO_NOK })
            &&& l.0 ==> {
                &&& r.1@ == l.1
                &&& final(pStrmData).pos() == l.2
                &&& in_stream(final(pStrmData))
            }
        }),
{
    let ghost s0 = *pStrmData;
    let ghost d = s0.data();
    let ghost sz = s0.size();
    let ghost l0 = ue_plus1_list(d, sz, s0.pos(), n as nat);
    let mut v: Vec<u32> = Vec::new();
    let mut i: u32 = 0;
    assert(l0.1 =~= v@ + l0.1);
    while i < n
        invariant
            in_stream(pStrmData),
            pStrmData.same_stream(&s0),
            s0 == *old(pStrmData),
            d == s0.data(),
            sz == s0.size(),
            i <= n,
            l0 == ue_plus1_list(d, sz, s0.pos(), n as nat),
            ({
                let l = ue_plus1_list(d, sz, pStrmData.pos(), (n - i) as nat);
                &&& l0.0 == l.0
                &&& l0.2 == l.2
                &&& l.0 ==> l0.1 == v@ + l.1
            }),
        decreases n - i,
    {
        let ghost q = pStrmData.pos();
        proof {
            lemma_ue_next(pStrmData, q);
        }
        let mut value: u32 = 0;
        let tmp = h264bsdDecodeExpGolombUnsigned(pStrmData, &mut value);
        if tmp != HANTRO_OK {
            return (tmp, v);
        }
        v.push(value.wrapping_add(1));
        proof {
            let rest = ue_plus1_list(d, sz, ue_next_at(d, sz, q), (n - i - 1) as nat);
            assert((n - i) as nat - 1 == (n - i - 1) as nat);
            if rest.0 {
                assert(l0.1 =~= v@ + rest.1);
            }
        }
        i = i + 1;
    }
    proof {
        assert(l0.1 =~= v@);
    }
    (HANTRO_OK, v)
}

/// Read `n` pairs of unsigned Exp-Golomb values into two new vectors.
fn read_ue_pair_list(pStrmData: &mut strmData_t, n: u32) -> (r: (u32, Vec<u32>, Vec<u32>))
    requires
        in_stream(old(pStrmData)),
    ensures
        final(pStrmData).wf(),
        final(pStrmData).same_stream(old(pStrmData)),
        ({
            let l = ue_pair_list(old(pStrmData).data(), old(pStrmData).size(), old(pStrmData).pos(), n as nat);
            &&& r.0 == (if l.0 { HANTRO_OK } else { HANTRO_NOK })
            &&& l.0 ==> {
                &&& r.1@ == l.1
                &&& r.2@ == l.2
                &&& final(pStrmData).pos() == l.3
                &&& in_stream(final(pStrmData))
            }
        }),
{
    let ghost s0 = *pStrmData;
    let ghost d = s0.data();
    let ghost sz = s0.size();
    let ghost l0 = ue_pair_list(d, sz, s0.pos(), n as nat);
    let mut a: Vec<u32> = Vec::new();
    let mut b: Vec<u32> = Vec::new();
    let mut i: u32 = 0;
    assert(l0.1 =~= a@ + l0.1);
    assert(l0.2 =~= b@ + l0.2);
    while i < n
        invariant
            in_stream(pStrmData),
            pStrmData.same_stream(&s0),
            s0 == *old(pStrmData),
            d == s0.data(),
            sz == s0.size(),
            i <= n,
            l0 == ue_pair_list(d, sz, s0.pos(), n as nat),
            ({
                let l = ue_pair_list(d, sz, pStrmData.pos(), (n - i) as nat);
                &&& l0.0 == l.0
                &&& l0.3 == l.3
                &&& l.0 ==> l0.1 == a@ + l.1 && l0.2 == b@ + l.2
            }),
        decreases n - i,
    {
        let ghost q = pStrmData.pos();
        proof {
            lemma_ue_next(pStrmData, q);
            lemma_ue_next(pStrmData, ue_next(pStrmData, q));
        }
        let mut value: u32 = 0;
        let tmp = h264bsdDecodeExpGolombUnsigned(pStrmData, &mut value);
        if tmp != HANTRO_OK {
            return (tmp, a, b);
        }
        a.push(value);
        let tmp = h264bsdDecodeExpGolombUnsigned(pStrmData, &mut value);
        if tmp != HANTRO_OK {
            return (tmp, a, b);
        }
        b.push(value);
        proof {
            let q2 = ue_next_at(d, sz, q);
            let rest = ue_pair_list(d, sz, ue_next_at(d, sz, q2), (n - i - 1) as nat);
            assert((n - i) as nat - 1 == (n - i - 1) as nat);
            if rest.0 {
                assert(l0.1 =~= a@ + rest.1);
                assert(l0.2 =~= b@ + rest.2);
            }
        }
        i = i + 1;
    }
    proof {
        assert(l0.1 =~= a@);
        assert(l0.2 =~= b@);
    }
    (HANTRO_OK, a, b)
}

/// Read `n` slice group ids of `bits` bits, each below `groups`, into a
/// new vector.
fn read_group_ids(pStrmData: &mut strmData_t, n: u32, bits: u32, groups: u32) -> (r: (u32, Vec<u32>))
    requires
        in_stream(old(pStrmData)),
        1 <= bits <= 3,
        groups <= 8,
    ensures
        final(pStrmData).wf(),
        final(pStrmData).same_stream(old(pStrmData)),
        ({
            let l = group_id_list(
                old(pStrmData).data(),
                old(pStrmData).size(),
                old(pStrmData).pos(),
                n as nat,
                bits as nat,
                groups,
            );
            &&& r.0 == (if l.0 { HANTRO_OK } else { HANTRO_NOK })
            &&& l.0 ==> {
                &&& r.1@ == l.1
                &&& final(pStrmData).pos() == l.2
                &&& in_stream(final(pStrmData))
            }
        }),
{
    let ghost s0 = *pStrmData;
    let ghost d = s0.data();
    let ghost sz = s0.size();
    let ghost l0 = group_id_list(d, sz, s0.pos(), n as nat, bits as nat, groups);
    let mut v: Vec<u32> = Vec::new();
    let mut i: u32 = 0;
    assert(l0.1 =~= v@ + l0.1);
    while i < n
        invariant
            in_stream(pStrmData),
            pStrmData.same_stream(&s0),
            s0 == *old(pStrmData),
            d == s0.data(),
            sz == s0.size(),
            i <= n,
            1 <= bits <= 3,
            groups <= 8,
            l0 == group_id_list(d, sz, s0.pos(), n as nat, bits as nat, groups),
            ({
                let l = group_id_list(d, sz, pStrmData.pos(), (n - i) as nat, bits as nat, groups);
                &&& l0.0 == l.0
                &&& l0.2 == l.2
                &&& l.0 ==> l0.1 == v@ + l.1
            }),
        decreases n - i,
    {
        let ghost q = pStrmData.pos();
        proof {
            lemma_get_bits(pStrmData, q, bits as nat);
            lemma2_to64();
        }
        let id = h264bsdGetBits(pStrmData, bits);
        if id >= groups {
            return (HANTRO_NOK, v);
        }
        v.push(id);
        proof {
            let rest = group_id_list(d, sz, q + bits, (n - i - 1) as nat, bits as nat, groups);
            assert((n - i) as nat - 1 == (n - i - 1) as nat);
            if rest.0 {
                assert(l0.1 =~= v@ + rest.1);
            }
        }
        i = i + 1;
    }
    proof {
        assert(l0.1 =~= v@);
    }
    (HANTRO_OK, v)
}

fn read_groups(pStrmData: &mut strmData_t, pps: &mut picParamSet_t) -> (r: u32)
    requires
        in_stream(old(pStrmData)),
        old(pps).numSliceGroups <= MAX_NUM_SLICE_GROUPS,
    ensures
        final(pStrmData).wf(),
        final(pStrmData).same_stream(old(pStrmData)),
        step_done(
            r,
            pps_groups(old(pStrmData).data(), old(pStrmData).size(), old(pStrmData).pos(), old(pps).model()),
            final(pps).model(),
            final(pStrmData),
        ),
{
    reveal(pps_groups);
    let ghost s0 = *pStrmData;
    let ghost p = s0.pos();
    if pps.numSliceGroups > 1 {
        proof {
            lemma_ue_next(&s0, p);
            lemma_ue_next(&s0, ue_next(&s0, p));
            lemma_ue_next(&s0, ue_next(&s0, p) + 1);
            lemma_get_bits(&s0, ue_next(&s0, p), 1);
        }
        let tmp = h264bsdDecodeExpGolombUnsigned(pStrmData, &mut pps.sliceGroupMapType);
        if tmp != HANTRO_OK {
            return tmp;
        }
        if pps.sliceGroupMapType > 6 {
            return HANTRO_NOK;
        }
        if pps.sliceGroupMapType == 0 {
            let (tmp, runs) = read_ue_plus1_list(pStrmData, pps.numSliceGroups);
            if tmp != HANTRO_OK {
                return tmp;
            }
            pps.runLength = runs;
        } else if pps.sliceGroupMapType == 2 {
            let (tmp, tl, br) = read_ue_pair_list(pStrmData, pps.numSliceGroups - 1);
            if tmp != HANTRO_OK {
                return tmp;
            }
            pps.topLeft = tl;
            pps.bottomRight = br;
        } else if pps.sliceGroupMapType == 3 || pps.sliceGroupMapType == 4 || pps.sliceGroupMapType == 5 {
            let tmp = h264bsdGetBits(pStrmData, 1);
            if tmp == END_OF_STREAM {
                return HANTRO_NOK;
            }
            pps.sliceGroupChangeDirectionFlag = if tmp == 1 {
                HANTRO_TRUE
            } else {
                HANTRO_FALSE
            };
            let mut value: u32 = 0;
            let tmp = h264bsdDecodeExpGolombUnsigned(pStrmData, &mut value);
            if tmp != HANTRO_OK {
                return tmp;
            }
            pps.sliceGroupChangeRate = value.wrapping_add(1);
        } else if pps.sliceGroupMapType == 6 {
            let mut value: u32 = 0;
            let tmp = h264bsdDecodeExpGolombUnsigned(pStrmData, &mut value);
            if tmp != HANTRO_OK {
                return tmp;
            }
            pps.picSizeInMapUnits = value.wrapping_add(1);
            /* determine number of bits needed to represent range
             * [0, numSliceGroups) */
            let bits = CeilLog2NumSliceGroups[(pps.numSliceGroups - 1) as usize];
            proof {
                assert(1 <= bits <= 3) by {
                    let k = (pps.numSliceGroups - 1) as int;
                    assert(k == 0 || k == 1 || k == 2 || k == 3 || k == 4 || k == 5 || k == 6 || k == 7);
                }
            }
            let (tmp, ids) = read_group_ids(pStrmData, pps.picSizeInMapUnits, bits, pps.numSliceGroups);
            if tmp != HANTRO_OK {
                return tmp;
            }
            pps.sliceGroupId = ids;
        }
    }
    HANTRO_OK
}

fn read_tail(pStrmData: &mut strmData_t, pps: &mut picParamSet_t) -> (r: u32)
    requires
        in_stream(old(pStrmData)),
    ensures
        final(pStrmData).wf(),
        final(pStrmData).same_stream(old(pStrmData)),
        step_done(
            r,
            pps_tail(old(pStrmData).data(), old(pStrmData).size(), old(pStrmData).pos(), old(pps).model()),
            final(pps).model(),
            final(pStrmData),
        ),
{
    reveal(pps_tail);
    let ghost s0 = *pStrmData;
    let ghost p = s0.pos();
    let ghost q2 = ue_next(&s0, ue_next(&s0, p));
    let ghost q4 = ue_next(&s0, q2 + 3);
    let ghost q6 = ue_next(&s0, ue_next(&s0, q4));
    proof {
        lemma_ue_next(&s0, p);
        lemma_ue_next(&s0, ue_next(&s0, p));
        lemma_get_bits(&s0, q2, 1);
        lemma_get_bits(&s0, q2 + 1, 2);
        lemma_ue_next(&s0, q2 + 3);
        lemma_ue_next(&s0, q4);
        lemma_ue_next(&s0, ue_next(&s0, q4));
        lemma_get_bits(&s0, q6, 1);
        lemma_get_bits(&s0, q6 + 1, 1);
        lemma_get_bits(&s0, q6 + 2, 1);
        lemma2_to64();
    }
    let mut value: u32 = 0;
    let tmp = h264bsdDecodeExpGolombUnsigned(pStrmData, &mut value);
    if tmp != HANTRO_OK {
        return tmp;
    }
    if value > 31 {
        return HANTRO_NOK;
    }
    pps.numRefIdxL0Active = value + 1;
    let tmp = h264bsdDecodeExpGolombUnsigned(pStrmData, &mut value);
    if tmp != HANTRO_OK {
        return tmp;
    }
    if value > 31 {
        return HANTRO_NOK;
    }
    /* weighted_pred_flag, shall be 0 for baseline profile */
    let tmp = h264bsdGetBits(pStrmData, 1);
    if tmp != 0 {
        return HANTRO_NOK;
    }
    /* weighted_bipred_idc */
    let tmp = h264bsdGetBits(pStrmData, 2);
    if tmp > 2 {
        return HANTRO_NOK;
    }
    /* pic_init_qp_minus26 */
    let mut itmp: i32 = 0;
    let tmp = h264bsdDecodeExpGolombSigned(pStrmData, &mut itmp);
    if tmp != HANTRO_OK {
        return tmp;
    }
    if itmp < -26 || itmp > 25 {
        return HANTRO_NOK;
    }
    pps.picInitQp = (itmp + 26) as u32;
    /* pic_init_qs_minus26 */
    let tmp = h264bsdDecodeExpGolombSigned(pStrmData, &mut itmp);
    if tmp != HANTRO_OK {
        return tmp;
    }
    if itmp < -26 || itmp > 25 {
        return HANTRO_NOK;
    }
    let tmp = h264bsdDecodeExpGolombSigned(pStrmData, &mut itmp);
    if tmp != HANTRO_OK {
        return tmp;
    }
    if itmp < -12 || itmp > 12 {
        return HANTRO_NOK;
    }
    pps.chromaQpIndexOffset = itmp;
    let tmp = h264bsdGetBits(pStrmData, 1);
    if tmp == END_OF_STREAM {
        return HANTRO_NOK;
    }
    pps.deblockingFilterControlPresentFlag = if tmp == 1 {
        HANTRO_TRUE
    } else {
        HANTRO_FALSE
    };
    let tmp = h264bsdGetBits(pStrmData, 1);
    if tmp == END_OF_STREAM {
        return HANTRO_NOK;
    }
    pps.constrainedIntraPredFlag = if tmp == 1 {
        HANTRO_TRUE
    } else {
        HANTRO_FALSE
    };
    let tmp = h264bsdGetBits(pStrmData, 1);
    if tmp == END_OF_STREAM {
        return HANTRO_NOK;
    }
    pps.redundantPicCntPresentFlag = if tmp == 1 {
        HANTRO_TRUE
    } else {
        HANTRO_FALSE
    };
    HANTRO_OK
}

/// Decode a pic_parameter_set_rbsp() into `pPicParamSet` (cleared first)
/// and consume its trailing bits, whose errors are ignored. The slice
/// group data is checked against the picture size only when the set is
/// activated.
pub fn h264bsdDecodePicParamSet(pStrmData: &mut strmData_t, pPicParamSet: &mut picParamSet_t) -> (r: u32)
    requires
        can_parse(old(pStrmData)),
    ensures
        final(pStrmData).wf(),
        final(pStrmData).same_stream(old(pStrmData)),
        ({
            let st = pps_syntax(old(pStrmData).data(), old(pStrmData).size(), old(pStrmData).pos());
            &&& r == (if st.0 { HANTRO_OK } else { HANTRO_NOK })
            &&& st.0 ==> {
                &&& final(pPicParamSet).model() == st.1
                &&& final(pStrmData).pos() == st.2 + 8 - st.2 % 8
            }
        }),
{
    *pPicParamSet = picParamSet_t::zeroed();
    let tmp = read_head(pStrmData, pPicParamSet);
    if tmp != HANTRO_OK {
        return tmp;
    }
    let tmp = read_groups(pStrmData, pPicParamSet);
    if tmp != HANTRO_OK {
        return tmp;
    }
    let tmp = read_tail(pStrmData, pPicParamSet);
    if tmp != HANTRO_OK {
        return tmp;
    }
    let _ = h264bsdRbspTrailingBits(pStrmData);
    /* ignore possible errors in trailing bits of parameters sets */
    HANTRO_OK
}

} // verus!
