//! CAVLC residual block decoding: coeff_token, level, total_zeros and
//! run_before code words, and the placement of the decoded coefficients.
use vstd::prelude::*;
use vstd::arithmetic::power2::*;
use crate::defs::{HANTRO_NOK, HANTRO_OK, END_OF_STREAM};
use crate::util::lemma_bit_of;
use crate::stream::{
    can_parse, h264bsdFlushBits, leading_zeros, lemma_pow2_strictly_increases_le, lemma_stream_bits_bound,
    show_bits_at, strmData_t, stream_bits, stream_bit, stream_zeros, lemma_stream_bits_first, lemma_leading_zeros_stream,
};

verus! {

/// Code word not found in a table.
pub const VLC_NOT_FOUND: u32 = 0xFFFF_FFFE;

// ---------------------------------------------------------------------------
// Information fields
// ---------------------------------------------------------------------------

/// Length of a coeff_token code word (bits 0-4 of its information field).
pub open spec fn tc_length(v: nat) -> nat {
    v % 32
}

/// Trailing ones of a coeff_token (bits 5-10).
pub open spec fn tc_trailing_ones(v: nat) -> nat {
    (v / 32) % 64
}

/// Total coefficients of a coeff_token (bits 11-15).
pub open spec fn tc_total_coeff(v: nat) -> nat {
    (v / 2048) % 32
}

/// Length of a total_zeros or run_before code word (bits 0-3).
pub open spec fn vlc_length(v: nat) -> nat {
    v % 16
}

/// Value of a total_zeros or run_before code word (bits 4-7).
pub open spec fn vlc_info(v: nat) -> nat {
    (v / 16) % 16
}

/// A coeff_token information field describes a code word of 1 to 16 bits
/// with at most 16 coefficients of which at most 3 are trailing ones.
pub open spec fn valid_coeff_token(v: nat) -> bool {
    &&& 1 <= tc_length(v) <= 16
    &&& tc_total_coeff(v) <= 16
    &&& tc_trailing_ones(v) <= 3
    &&& tc_trailing_ones(v) <= tc_total_coeff(v)
}

/// Table entry: zero (no code word) or a valid coeff_token field.
pub open spec fn coeff_token_entry(v: nat) -> bool {
    v == 0 || valid_coeff_token(v)
}

fn LENGTH_TC(vlc: u32) -> (r: u32)
    ensures
        r as nat == tc_length(vlc as nat),
{
    assert(vlc & 0x1Fu32 == vlc % 32) by (bit_vector);
    vlc & 0x1F
}

fn LENGTH(vlc: u32) -> (r: u32)
    ensures
        r as nat == vlc_length(vlc as nat),
{
    assert(vlc & 0xFu32 == vlc % 16) by (bit_vector);
    vlc & 0xF
}

fn INFO(vlc: u32) -> (r: u32)
    ensures
        r as nat == vlc_info(vlc as nat),
{
    assert((vlc >> 4u32) & 0xFu32 == (vlc / 16) % 16) by (bit_vector);
    (vlc >> 4) & 0xF
}

fn TRAILING_ONES(coeffToken: u32) -> (r: u32)
    ensures
        r as nat == tc_trailing_ones(coeffToken as nat),
{
    assert((coeffToken >> 5u32) & 0x3Fu32 == (coeffToken / 32) % 64) by (bit_vector);
    (coeffToken >> 5) & 0x3F
}

fn TOTAL_COEFF(coeffToken: u32) -> (r: u32)
    ensures
        r as nat == tc_total_coeff(coeffToken as nat),
{
    assert((coeffToken >> 11u32) & 0x1Fu32 == (coeffToken / 2048) % 32) by (bit_vector);
    (coeffToken >> 11) & 0x1F
}

// ---------------------------------------------------------------------------
// Code word tables of the standard. coeff_token entries:
// [5 bits total coeff][6 bits trailing ones][5 bits length];
// total_zeros and run_before entries: [4 bits value][4 bits length].
// ---------------------------------------------------------------------------

pub const coeffToken0_0: [u16; 32] = [
    0x0000, 0x0000, 0x0000, 0x2066, 0x1026, 0x0806, 0x1865, 0x1865, 0x1043, 0x1043, 0x1043, 0x1043,
    0x1043, 0x1043, 0x1043, 0x1043, 0x0822, 0x0822, 0x0822, 0x0822, 0x0822, 0x0822, 0x0822, 0x0822,
    0x0822, 0x0822, 0x0822, 0x0822, 0x0822, 0x0822, 0x0822, 0x0822,
];
pub const coeffToken0_1: [u16; 48] = [
    0x0000, 0x0000, 0x0000, 0x0000, 0x406a, 0x304a, 0x282a, 0x200a, 0x3869, 0x3869, 0x2849, 0x2849,
    0x2029, 0x2029, 0x1809, 0x1809, 0x3068, 0x3068, 0x3068, 0x3068, 0x2048, 0x2048, 0x2048, 0x2048,
    0x1828, 0x1828, 0x1828, 0x1828, 0x1008, 0x1008, 0x1008, 0x1008, 0x2867, 0x2867, 0x2867, 0x2867,
    0x2867, 0x2867, 0x2867, 0x2867, 0x1847, 0x1847, 0x1847, 0x1847, 0x1847, 0x1847, 0x1847, 0x1847,
];
pub const coeffToken0_2: [u16; 56] = [
    0x606e, 0x584e, 0x502e, 0x500e, 0x586e, 0x504e, 0x482e, 0x480e, 0x400d, 0x400d, 0x484d, 0x484d,
    0x402d, 0x402d, 0x380d, 0x380d, 0x506d, 0x506d, 0x404d, 0x404d, 0x382d, 0x382d, 0x300d, 0x300d,
    0x486b, 0x486b, 0x486b, 0x486b, 0x486b, 0x486b, 0x486b, 0x486b, 0x384b, 0x384b, 0x384b, 0x384b,
    0x384b, 0x384b, 0x384b, 0x384b, 0x302b, 0x302b, 0x302b, 0x302b, 0x302b, 0x302b, 0x302b, 0x302b,
    0x280b, 0x280b, 0x280b, 0x280b, 0x280b, 0x280b, 0x280b, 0x280b,
];
pub const coeffToken0_3: [u16; 32] = [
    0x0000, 0x0000, 0x682f, 0x682f, 0x8010, 0x8050, 0x8030, 0x7810, 0x8070, 0x7850, 0x7830, 0x7010,
    0x7870, 0x7050, 0x7030, 0x6810, 0x706f, 0x706f, 0x684f, 0x684f, 0x602f, 0x602f, 0x600f, 0x600f,
    0x686f, 0x686f, 0x604f, 0x604f, 0x582f, 0x582f, 0x580f, 0x580f,
];
pub const coeffToken2_0: [u16; 32] = [
    0x0000, 0x0000, 0x0000, 0x0000, 0x3866, 0x2046, 0x2026, 0x1006, 0x3066, 0x1846, 0x1826, 0x0806,
    0x2865, 0x2865, 0x1025, 0x1025, 0x2064, 0x2064, 0x2064, 0x2064, 0x1864, 0x1864, 0x1864, 0x1864,
    0x1043, 0x1043, 0x1043, 0x1043, 0x1043, 0x1043, 0x1043, 0x1043,
];
pub const coeffToken2_1: [u16; 32] = [
    0x0000, 0x0000, 0x0000, 0x0000, 0x4869, 0x3849, 0x3829, 0x3009, 0x2808, 0x2808, 0x3048, 0x3048,
    0x3028, 0x3028, 0x2008, 0x2008, 0x4067, 0x4067, 0x4067, 0x4067, 0x2847, 0x2847, 0x2847, 0x2847,
    0x2827, 0x2827, 0x2827, 0x2827, 0x1807, 0x1807, 0x1807, 0x1807,
];
pub const coeffToken2_2: [u16; 128] = [
    0x0000, 0x0000, 0x786d, 0x786d, 0x806e, 0x804e, 0x802e, 0x800e, 0x782e, 0x780e, 0x784e, 0x702e,
    0x704d, 0x704d, 0x700d, 0x700d, 0x706d, 0x706d, 0x684d, 0x684d, 0x682d, 0x682d, 0x680d, 0x680d,
    0x686d, 0x686d, 0x604d, 0x604d, 0x602d, 0x602d, 0x600d, 0x600d, 0x580c, 0x580c, 0x580c, 0x580c,
    0x584c, 0x584c, 0x584c, 0x584c, 0x582c, 0x582c, 0x582c, 0x582c, 0x500c, 0x500c, 0x500c, 0x500c,
    0x606c, 0x606c, 0x606c, 0x606c, 0x504c, 0x504c, 0x504c, 0x504c, 0x502c, 0x502c, 0x502c, 0x502c,
    0x480c, 0x480c, 0x480c, 0x480c, 0x586b, 0x586b, 0x586b, 0x586b, 0x586b, 0x586b, 0x586b, 0x586b,
    0x484b, 0x484b, 0x484b, 0x484b, 0x484b, 0x484b, 0x484b, 0x484b, 0x482b, 0x482b, 0x482b, 0x482b,
    0x482b, 0x482b, 0x482b, 0x482b, 0x400b, 0x400b, 0x400b, 0x400b, 0x400b, 0x400b, 0x400b, 0x400b,
    0x506b, 0x506b, 0x506b, 0x506b, 0x506b, 0x506b, 0x506b, 0x506b, 0x404b, 0x404b, 0x404b, 0x404b,
    0x404b, 0x404b, 0x404b, 0x404b, 0x402b, 0x402b, 0x402b, 0x402b, 0x402b, 0x402b, 0x402b, 0x402b,
    0x380b, 0x380b, 0x380b, 0x380b, 0x380b, 0x380b, 0x380b, 0x380b,
];
pub const coeffToken4_0: [u16; 64] = [
    0x0000, 0x0000, 0x0000, 0x0000, 0x0000, 0x0000, 0x0000, 0x0000, 0x1806, 0x3846, 0x3826, 0x1006,
    0x4866, 0x3046, 0x3026, 0x0806, 0x2825, 0x2825, 0x2845, 0x2845, 0x2025, 0x2025, 0x2045, 0x2045,
    0x1825, 0x1825, 0x4065, 0x4065, 0x1845, 0x1845, 0x1025, 0x1025, 0x3864, 0x3864, 0x3864, 0x3864,
    0x3064, 0x3064, 0x3064, 0x3064, 0x2864, 0x2864, 0x2864, 0x2864, 0x2064, 0x2064, 0x2064, 0x2064,
    0x1864, 0x1864, 0x1864, 0x1864, 0x1044, 0x1044, 0x1044, 0x1044, 0x0824, 0x0824, 0x0824, 0x0824,
    0x0004, 0x0004, 0x0004, 0x0004,
];
pub const coeffToken4_1: [u16; 128] = [
    0x0000, 0x800a, 0x806a, 0x804a, 0x802a, 0x780a, 0x786a, 0x784a, 0x782a, 0x700a, 0x706a, 0x704a,
    0x702a, 0x680a, 0x6829, 0x6829, 0x6009, 0x6009, 0x6849, 0x6849, 0x6029, 0x6029, 0x5809, 0x5809,
    0x6869, 0x6869, 0x6049, 0x6049, 0x5829, 0x5829, 0x5009, 0x5009, 0x6068, 0x6068, 0x6068, 0x6068,
    0x5848, 0x5848, 0x5848, 0x5848, 0x5028, 0x5028, 0x5028, 0x5028, 0x4808, 0x4808, 0x4808, 0x4808,
    0x5868, 0x5868, 0x5868, 0x5868, 0x5048, 0x5048, 0x5048, 0x5048, 0x4828, 0x4828, 0x4828, 0x4828,
    0x4008, 0x4008, 0x4008, 0x4008, 0x3807, 0x3807, 0x3807, 0x3807, 0x3807, 0x3807, 0x3807, 0x3807,
    0x3007, 0x3007, 0x3007, 0x3007, 0x3007, 0x3007, 0x3007, 0x3007, 0x4847, 0x4847, 0x4847, 0x4847,
    0x4847, 0x4847, 0x4847, 0x4847, 0x2807, 0x2807, 0x2807, 0x2807, 0x2807, 0x2807, 0x2807, 0x2807,
    0x5067, 0x5067, 0x5067, 0x5067, 0x5067, 0x5067, 0x5067, 0x5067, 0x4047, 0x4047, 0x4047, 0x4047,
    0x4047, 0x4047, 0x4047, 0x4047, 0x4027, 0x4027, 0x4027, 0x4027, 0x4027, 0x4027, 0x4027, 0x4027,
    0x2007, 0x2007, 0x2007, 0x2007, 0x2007, 0x2007, 0x2007, 0x2007,
];
pub const coeffToken8: [u16; 64] = [
    0x0806, 0x0826, 0x0000, 0x0006, 0x1006, 0x1026, 0x1046, 0x0000, 0x1806, 0x1826, 0x1846, 0x1866,
    0x2006, 0x2026, 0x2046, 0x2066, 0x2806, 0x2826, 0x2846, 0x2866, 0x3006, 0x3026, 0x3046, 0x3066,
    0x3806, 0x3826, 0x3846, 0x3866, 0x4006, 0x4026, 0x4046, 0x4066, 0x4806, 0x4826, 0x4846, 0x4866,
    0x5006, 0x5026, 0x5046, 0x5066, 0x5806, 0x5826, 0x5846, 0x5866, 0x6006, 0x6026, 0x6046, 0x6066,
    0x6806, 0x6826, 0x6846, 0x6866, 0x7006, 0x7026, 0x7046, 0x7066, 0x7806, 0x7826, 0x7846, 0x7866,
    0x8006, 0x8026, 0x8046, 0x8066,
];
pub const coeffTokenMinus1_0: [u16; 8] = [
    0x0000, 0x1043, 0x0002, 0x0002, 0x0821, 0x0821, 0x0821, 0x0821,
];
pub const coeffTokenMinus1_1: [u16; 32] = [
    0x2067, 0x2067, 0x2048, 0x2028, 0x1847, 0x1847, 0x1827, 0x1827, 0x2006, 0x2006, 0x2006, 0x2006,
    0x1806, 0x1806, 0x1806, 0x1806, 0x1006, 0x1006, 0x1006, 0x1006, 0x1866, 0x1866, 0x1866, 0x1866,
    0x1026, 0x1026, 0x1026, 0x1026, 0x0806, 0x0806, 0x0806, 0x0806,
];
pub const totalZeros_1_0: [u8; 32] = [
    0x00, 0x00, 0x65, 0x55, 0x44, 0x44, 0x34, 0x34, 0x23, 0x23, 0x23, 0x23,
    0x13, 0x13, 0x13, 0x13, 0x01, 0x01, 0x01, 0x01, 0x01, 0x01, 0x01, 0x01,
    0x01, 0x01, 0x01, 0x01, 0x01, 0x01, 0x01, 0x01,
];
pub const totalZeros_1_1: [u8; 32] = [
    0x00, 0xf9, 0xe9, 0xd9, 0xc8, 0xc8, 0xb8, 0xb8, 0xa7, 0xa7, 0xa7, 0xa7,
    0x97, 0x97, 0x97, 0x97, 0x86, 0x86, 0x86, 0x86, 0x86, 0x86, 0x86, 0x86,
    0x76, 0x76, 0x76, 0x76, 0x76, 0x76, 0x76, 0x76,
];
pub const totalZeros_2: [u8; 64] = [
    0xe6, 0xd6, 0xc6, 0xb6, 0xa5, 0xa5, 0x95, 0x95, 0x84, 0x84, 0x84, 0x84,
    0x74, 0x74, 0x74, 0x74, 0x64, 0x64, 0x64, 0x64, 0x54, 0x54, 0x54, 0x54,
    0x43, 0x43, 0x43, 0x43, 0x43, 0x43, 0x43, 0x43, 0x33, 0x33, 0x33, 0x33,
    0x33, 0x33, 0x33, 0x33, 0x23, 0x23, 0x23, 0x23, 0x23, 0x23, 0x23, 0x23,
    0x13, 0x13, 0x13, 0x13, 0x13, 0x13, 0x13, 0x13, 0x03, 0x03, 0x03, 0x03,
    0x03, 0x03, 0x03, 0x03,
];
pub const totalZeros_3: [u8; 64] = [
    0xd6, 0xb6, 0xc5, 0xc5, 0xa5, 0xa5, 0x95, 0x95, 0x84, 0x84, 0x84, 0x84,
    0x54, 0x54, 0x54, 0x54, 0x44, 0x44, 0x44, 0x44, 0x04, 0x04, 0x04, 0x04,
    0x73, 0x73, 0x73, 0x73, 0x73, 0x73, 0x73, 0x73, 0x63, 0x63, 0x63, 0x63,
    0x63, 0x63, 0x63, 0x63, 0x33, 0x33, 0x33, 0x33, 0x33, 0x33, 0x33, 0x33,
    0x23, 0x23, 0x23, 0x23, 0x23, 0x23, 0x23, 0x23, 0x13, 0x13, 0x13, 0x13,
    0x13, 0x13, 0x13, 0x13,
];
pub const totalZeros_4: [u8; 32] = [
    0xc5, 0xb5, 0xa5, 0x05, 0x94, 0x94, 0x74, 0x74, 0x34, 0x34, 0x24, 0x24,
    0x83, 0x83, 0x83, 0x83, 0x63, 0x63, 0x63, 0x63, 0x53, 0x53, 0x53, 0x53,
    0x43, 0x43, 0x43, 0x43, 0x13, 0x13, 0x13, 0x13,
];
pub const totalZeros_5: [u8; 32] = [
    0xb5, 0x95, 0xa4, 0xa4, 0x84, 0x84, 0x24, 0x24, 0x14, 0x14, 0x04, 0x04,
    0x73, 0x73, 0x73, 0x73, 0x63, 0x63, 0x63, 0x63, 0x53, 0x53, 0x53, 0x53,
    0x43, 0x43, 0x43, 0x43, 0x33, 0x33, 0x33, 0x33,
];
pub const totalZeros_6: [u8; 64] = [
    0xa6, 0x06, 0x15, 0x15, 0x84, 0x84, 0x84, 0x84, 0x93, 0x93, 0x93, 0x93,
    0x93, 0x93, 0x93, 0x93, 0x73, 0x73, 0x73, 0x73, 0x73, 0x73, 0x73, 0x73,
    0x63, 0x63, 0x63, 0x63, 0x63, 0x63, 0x63, 0x63, 0x53, 0x53, 0x53, 0x53,
    0x53, 0x53, 0x53, 0x53, 0x43, 0x43, 0x43, 0x43, 0x43, 0x43, 0x43, 0x43,
    0x33, 0x33, 0x33, 0x33, 0x33, 0x33, 0x33, 0x33, 0x23, 0x23, 0x23, 0x23,
    0x23, 0x23, 0x23, 0x23,
];
pub const totalZeros_7: [u8; 64] = [
    0x96, 0x06, 0x15, 0x15, 0x74, 0x74, 0x74, 0x74, 0x83, 0x83, 0x83, 0x83,
    0x83, 0x83, 0x83, 0x83, 0x63, 0x63, 0x63, 0x63, 0x63, 0x63, 0x63, 0x63,
    0x43, 0x43, 0x43, 0x43, 0x43, 0x43, 0x43, 0x43, 0x33, 0x33, 0x33, 0x33,
    0x33, 0x33, 0x33, 0x33, 0x23, 0x23, 0x23, 0x23, 0x23, 0x23, 0x23, 0x23,
    0x52, 0x52, 0x52, 0x52, 0x52, 0x52, 0x52, 0x52, 0x52, 0x52, 0x52, 0x52,
    0x52, 0x52, 0x52, 0x52,
];
pub const totalZeros_8: [u8; 64] = [
    0x86, 0x06, 0x25, 0x25, 0x14, 0x14, 0x14, 0x14, 0x73, 0x73, 0x73, 0x73,
    0x73, 0x73, 0x73, 0x73, 0x63, 0x63, 0x63, 0x63, 0x63, 0x63, 0x63, 0x63,
    0x33, 0x33, 0x33, 0x33, 0x33, 0x33, 0x33, 0x33, 0x52, 0x52, 0x52, 0x52,
    0x52, 0x52, 0x52, 0x52, 0x52, 0x52, 0x52, 0x52, 0x52, 0x52, 0x52, 0x52,
    0x42, 0x42, 0x42, 0x42, 0x42, 0x42, 0x42, 0x42, 0x42, 0x42, 0x42, 0x42,
    0x42, 0x42, 0x42, 0x42,
];
pub const totalZeros_9: [u8; 64] = [
    0x16, 0x06, 0x75, 0x75, 0x24, 0x24, 0x24, 0x24, 0x53, 0x53, 0x53, 0x53,
    0x53, 0x53, 0x53, 0x53, 0x62, 0x62, 0x62, 0x62, 0x62, 0x62, 0x62, 0x62,
    0x62, 0x62, 0x62, 0x62, 0x62, 0x62, 0x62, 0x62, 0x42, 0x42, 0x42, 0x42,
    0x42, 0x42, 0x42, 0x42, 0x42, 0x42, 0x42, 0x42, 0x42, 0x42, 0x42, 0x42,
    0x32, 0x32, 0x32, 0x32, 0x32, 0x32, 0x32, 0x32, 0x32, 0x32, 0x32, 0x32,
    0x32, 0x32, 0x32, 0x32,
];
pub const totalZeros_10: [u8; 32] = [
    0x15, 0x05, 0x64, 0x64, 0x23, 0x23, 0x23, 0x23, 0x52, 0x52, 0x52, 0x52,
    0x52, 0x52, 0x52, 0x52, 0x42, 0x42, 0x42, 0x42, 0x42, 0x42, 0x42, 0x42,
    0x32, 0x32, 0x32, 0x32, 0x32, 0x32, 0x32, 0x32,
];
pub const totalZeros_11: [u8; 16] = [
    0x04, 0x14, 0x23, 0x23, 0x33, 0x33, 0x53, 0x53, 0x41, 0x41, 0x41, 0x41,
    0x41, 0x41, 0x41, 0x41,
];
pub const totalZeros_12: [u8; 16] = [
    0x04, 0x14, 0x43, 0x43, 0x22, 0x22, 0x22, 0x22, 0x31, 0x31, 0x31, 0x31,
    0x31, 0x31, 0x31, 0x31,
];
pub const totalZeros_13: [u8; 8] = [
    0x03, 0x13, 0x32, 0x32, 0x21, 0x21, 0x21, 0x21,
];
pub const totalZeros_14: [u8; 4] = [
    0x02, 0x12, 0x21, 0x21,
];
pub const runBefore_6: [u8; 8] = [
    0x13, 0x23, 0x43, 0x33, 0x63, 0x53, 0x02, 0x02,
];
pub const runBefore_5: [u8; 8] = [
    0x53, 0x43, 0x33, 0x23, 0x12, 0x12, 0x02, 0x02,
];
pub const runBefore_4: [u8; 8] = [
    0x43, 0x33, 0x22, 0x22, 0x12, 0x12, 0x02, 0x02,
];
pub const runBefore_3: [u8; 4] = [
    0x32, 0x22, 0x12, 0x02,
];
pub const runBefore_2: [u8; 4] = [
    0x22, 0x12, 0x01, 0x01,
];
pub const runBefore_1: [u8; 2] = [
    0x11, 0x01,
];

/// A total_zeros table entry for `tc` coefficients out of at most 16: a
/// code word of 1 to 9 bits for at most `16 - tc` zeros.
pub open spec fn total_zeros_entry(v: nat, max_zeros: nat) -> bool {
    v == 0 || (1 <= vlc_length(v) <= 9 && vlc_info(v) <= max_zeros)
}

/// A run_before table entry for `zl` zeros left: a code word of 1 to 11
/// bits for a run of at most `zl` zeros.
pub open spec fn run_before_entry(v: nat, zl: nat) -> bool {
    v != 0 && 1 <= vlc_length(v) <= 11 && vlc_info(v) <= zl
}

/// A right shift of an unsigned value divides by the power of two.
proof fn lemma_shr_u32(x: u32, k: u32)
    requires
        k < 32,
    ensures
        x >> k == x as nat / pow2(k as nat),
        k == 2 ==> x >> k == x / 4,
        k == 3 ==> x >> k == x / 8,
        k == 4 ==> x >> k == x / 16,
        k == 5 ==> x >> k == x / 32,
        k == 6 ==> x >> k == x / 64,
        k == 7 ==> x >> k == x / 128,
        k == 8 ==> x >> k == x / 256,
        k == 9 ==> x >> k == x / 512,
        k == 10 ==> x >> k == x / 1024,
        k == 13 ==> x >> k == x / 8192,
{
    vstd::bits::lemma_u32_shr_is_div(x, k);
    lemma2_to64();
}

#[verifier::spinoff_prover]
#[verifier::rlimit(40)]
proof fn lemma_coeffToken0_0()
    ensures
        forall|i: int| 0 <= i < 32 ==> coeff_token_entry(coeffToken0_0@[i] as nat),
{
    assert forall|i: int| 0 <= i < 32 implies coeff_token_entry(coeffToken0_0@[i] as nat) by {
        assert(i == 0 || i == 1 || i == 2 || i == 3 || i == 4 || i == 5 || i == 6 || i == 7 || i == 8 || i == 9 || i == 10 || i == 11 || i == 12 || i == 13 || i == 14 || i == 15 || i == 16 || i == 17 || i == 18 || i == 19 || i == 20 || i == 21 || i == 22 || i == 23 || i == 24 || i == 25 || i == 26 || i == 27 || i == 28 || i == 29 || i == 30 || i == 31);
    }
}

#[verifier::spinoff_prover]
#[verifier::rlimit(40)]
proof fn lemma_coeffToken0_1()
    ensures
        forall|i: int| 0 <= i < 48 ==> coeff_token_entry(coeffToken0_1@[i] as nat),
{
    assert forall|i: int| 0 <= i < 48 implies coeff_token_entry(coeffToken0_1@[i] as nat) by {
        assert(i == 0 || i == 1 || i == 2 || i == 3 || i == 4 || i == 5 || i == 6 || i == 7 || i == 8 || i == 9 || i == 10 || i == 11 || i == 12 || i == 13 || i == 14 || i == 15 || i == 16 || i == 17 || i == 18 || i == 19 || i == 20 || i == 21 || i == 22 || i == 23 || i == 24 || i == 25 || i == 26 || i == 27 || i == 28 || i == 29 || i == 30 || i == 31 || i == 32 || i == 33 || i == 34 || i == 35 || i == 36 || i == 37 || i == 38 || i == 39 || i == 40 || i == 41 || i == 42 || i == 43 || i == 44 || i == 45 || i == 46 || i == 47);
    }
}

#[verifier::spinoff_prover]
#[verifier::rlimit(40)]
proof fn lemma_coeffToken0_2()
    ensures
        forall|i: int| 0 <= i < 56 ==> coeff_token_entry(coeffToken0_2@[i] as nat),
{
    assert forall|i: int| 0 <= i < 56 implies coeff_token_entry(coeffToken0_2@[i] as nat) by {
        assert(i == 0 || i == 1 || i == 2 || i == 3 || i == 4 || i == 5 || i == 6 || i == 7 || i == 8 || i == 9 || i == 10 || i == 11 || i == 12 || i == 13 || i == 14 || i == 15 || i == 16 || i == 17 || i == 18 || i == 19 || i == 20 || i == 21 || i == 22 || i == 23 || i == 24 || i == 25 || i == 26 || i == 27 || i == 28 || i == 29 || i == 30 || i == 31 || i == 32 || i == 33 || i == 34 || i == 35 || i == 36 || i == 37 || i == 38 || i == 39 || i == 40 || i == 41 || i == 42 || i == 43 || i == 44 || i == 45 || i == 46 || i == 47 || i == 48 || i == 49 || i == 50 || i == 51 || i == 52 || i == 53 || i == 54 || i == 55);
    }
}

#[verifier::spinoff_prover]
#[verifier::rlimit(40)]
proof fn lemma_coeffToken0_3()
    ensures
        forall|i: int| 0 <= i < 32 ==> coeff_token_entry(coeffToken0_3@[i] as nat),
{
    assert forall|i: int| 0 <= i < 32 implies coeff_token_entry(coeffToken0_3@[i] as nat) by {
        assert(i == 0 || i == 1 || i == 2 || i == 3 || i == 4 || i == 5 || i == 6 || i == 7 || i == 8 || i == 9 || i == 10 || i == 11 || i == 12 || i == 13 || i == 14 || i == 15 || i == 16 || i == 17 || i == 18 || i == 19 || i == 20 || i == 21 || i == 22 || i == 23 || i == 24 || i == 25 || i == 26 || i == 27 || i == 28 || i == 29 || i == 30 || i == 31);
    }
}

#[verifier::spinoff_prover]
#[verifier::rlimit(40)]
proof fn lemma_coeffToken2_0()
    ensures
        forall|i: int| 0 <= i < 32 ==> coeff_token_entry(coeffToken2_0@[i] as nat),
{
    assert forall|i: int| 0 <= i < 32 implies coeff_token_entry(coeffToken2_0@[i] as nat) by {
        assert(i == 0 || i == 1 || i == 2 || i == 3 || i == 4 || i == 5 || i == 6 || i == 7 || i == 8 || i == 9 || i == 10 || i == 11 || i == 12 || i == 13 || i == 14 || i == 15 || i == 16 || i == 17 || i == 18 || i == 19 || i == 20 || i == 21 || i == 22 || i == 23 || i == 24 || i == 25 || i == 26 || i == 27 || i == 28 || i == 29 || i == 30 || i == 31);
    }
}

#[verifier::spinoff_prover]
#[verifier::rlimit(40)]
proof fn lemma_coeffToken2_1()
    ensures
        forall|i: int| 0 <= i < 32 ==> coeff_token_entry(coeffToken2_1@[i] as nat),
{
    assert forall|i: int| 0 <= i < 32 implies coeff_token_entry(coeffToken2_1@[i] as nat) by {
        assert(i == 0 || i == 1 || i == 2 || i == 3 || i == 4 || i == 5 || i == 6 || i == 7 || i == 8 || i == 9 || i == 10 || i == 11 || i == 12 || i == 13 || i == 14 || i == 15 || i == 16 || i == 17 || i == 18 || i == 19 || i == 20 || i == 21 || i == 22 || i == 23 || i == 24 || i == 25 || i == 26 || i == 27 || i == 28 || i == 29 || i == 30 || i == 31);
    }
}

#[verifier::spinoff_prover]
#[verifier::rlimit(40)]
proof fn lemma_coeffToken2_2()
    ensures
        forall|i: int| 0 <= i < 128 ==> coeff_token_entry(coeffToken2_2@[i] as nat),
{
    assert forall|i: int| 0 <= i < 128 implies coeff_token_entry(coeffToken2_2@[i] as nat) by {
        assert(i == 0 || i == 1 || i == 2 || i == 3 || i == 4 || i == 5 || i == 6 || i == 7 || i == 8 || i == 9 || i == 10 || i == 11 || i == 12 || i == 13 || i == 14 || i == 15 || i == 16 || i == 17 || i == 18 || i == 19 || i == 20 || i == 21 || i == 22 || i == 23 || i == 24 || i == 25 || i == 26 || i == 27 || i == 28 || i == 29 || i == 30 || i == 31 || i == 32 || i == 33 || i == 34 || i == 35 || i == 36 || i == 37 || i == 38 || i == 39 || i == 40 || i == 41 || i == 42 || i == 43 || i == 44 || i == 45 || i == 46 || i == 47 || i == 48 || i == 49 || i == 50 || i == 51 || i == 52 || i == 53 || i == 54 || i == 55 || i == 56 || i == 57 || i == 58 || i == 59 || i == 60 || i == 61 || i == 62 || i == 63 || i == 64 || i == 65 || i == 66 || i == 67 || i == 68 || i == 69 || i == 70 || i == 71 || i == 72 || i == 73 || i == 74 || i == 75 || i == 76 || i == 77 || i == 78 || i == 79 || i == 80 || i == 81 || i == 82 || i == 83 || i == 84 || i == 85 || i == 86 || i == 87 || i == 88 || i == 89 || i == 90 || i == 91 || i == 92 || i == 93 || i == 94 || i == 95 || i == 96 || i == 97 || i == 98 || i == 99 || i == 100 || i == 101 || i == 102 || i == 103 || i == 104 || i == 105 || i == 106 || i == 107 || i == 108 || i == 109 || i == 110 || i == 111 || i == 112 || i == 113 || i == 114 || i == 115 || i == 116 || i == 117 || i == 118 || i == 119 || i == 120 || i == 121 || i == 122 || i == 123 || i == 124 || i == 125 || i == 126 || i == 127);
    }
}

#[verifier::spinoff_prover]
#[verifier::rlimit(40)]
proof fn lemma_coeffToken4_0()
    ensures
        forall|i: int| 0 <= i < 64 ==> coeff_token_entry(coeffToken4_0@[i] as nat),
{
    assert forall|i: int| 0 <= i < 64 implies coeff_token_entry(coeffToken4_0@[i] as nat) by {
        assert(i == 0 || i == 1 || i == 2 || i == 3 || i == 4 || i == 5 || i == 6 || i == 7 || i == 8 || i == 9 || i == 10 || i == 11 || i == 12 || i == 13 || i == 14 || i == 15 || i == 16 || i == 17 || i == 18 || i == 19 || i == 20 || i == 21 || i == 22 || i == 23 || i == 24 || i == 25 || i == 26 || i == 27 || i == 28 || i == 29 || i == 30 || i == 31 || i == 32 || i == 33 || i == 34 || i == 35 || i == 36 || i == 37 || i == 38 || i == 39 || i == 40 || i == 41 || i == 42 || i == 43 || i == 44 || i == 45 || i == 46 || i == 47 || i == 48 || i == 49 || i == 50 || i == 51 || i == 52 || i == 53 || i == 54 || i == 55 || i == 56 || i == 57 || i == 58 || i == 59 || i == 60 || i == 61 || i == 62 || i == 63);
    }
}

#[verifier::spinoff_prover]
#[verifier::rlimit(40)]
proof fn lemma_coeffToken4_1()
    ensures
        forall|i: int| 0 <= i < 128 ==> coeff_token_entry(coeffToken4_1@[i] as nat),
{
    assert forall|i: int| 0 <= i < 128 implies coeff_token_entry(coeffToken4_1@[i] as nat) by {
        assert(i == 0 || i == 1 || i == 2 || i == 3 || i == 4 || i == 5 || i == 6 || i == 7 || i == 8 || i == 9 || i == 10 || i == 11 || i == 12 || i == 13 || i == 14 || i == 15 || i == 16 || i == 17 || i == 18 || i == 19 || i == 20 || i == 21 || i == 22 || i == 23 || i == 24 || i == 25 || i == 26 || i == 27 || i == 28 || i == 29 || i == 30 || i == 31 || i == 32 || i == 33 || i == 34 || i == 35 || i == 36 || i == 37 || i == 38 || i == 39 || i == 40 || i == 41 || i == 42 || i == 43 || i == 44 || i == 45 || i == 46 || i == 47 || i == 48 || i == 49 || i == 50 || i == 51 || i == 52 || i == 53 || i == 54 || i == 55 || i == 56 || i == 57 || i == 58 || i == 59 || i == 60 || i == 61 || i == 62 || i == 63 || i == 64 || i == 65 || i == 66 || i == 67 || i == 68 || i == 69 || i == 70 || i == 71 || i == 72 || i == 73 || i == 74 || i == 75 || i == 76 || i == 77 || i == 78 || i == 79 || i == 80 || i == 81 || i == 82 || i == 83 || i == 84 || i == 85 || i == 86 || i == 87 || i == 88 || i == 89 || i == 90 || i == 91 || i == 92 || i == 93 || i == 94 || i == 95 || i == 96 || i == 97 || i == 98 || i == 99 || i == 100 || i == 101 || i == 102 || i == 103 || i == 104 || i == 105 || i == 106 || i == 107 || i == 108 || i == 109 || i == 110 || i == 111 || i == 112 || i == 113 || i == 114 || i == 115 || i == 116 || i == 117 || i == 118 || i == 119 || i == 120 || i == 121 || i == 122 || i == 123 || i == 124 || i == 125 || i == 126 || i == 127);
    }
}

#[verifier::spinoff_prover]
#[verifier::rlimit(40)]
proof fn lemma_coeffToken8()
    ensures
        forall|i: int| 0 <= i < 64 ==> coeff_token_entry(coeffToken8@[i] as nat),
{
    assert forall|i: int| 0 <= i < 64 implies coeff_token_entry(coeffToken8@[i] as nat) by {
        assert(i == 0 || i == 1 || i == 2 || i == 3 || i == 4 || i == 5 || i == 6 || i == 7 || i == 8 || i == 9 || i == 10 || i == 11 || i == 12 || i == 13 || i == 14 || i == 15 || i == 16 || i == 17 || i == 18 || i == 19 || i == 20 || i == 21 || i == 22 || i == 23 || i == 24 || i == 25 || i == 26 || i == 27 || i == 28 || i == 29 || i == 30 || i == 31 || i == 32 || i == 33 || i == 34 || i == 35 || i == 36 || i == 37 || i == 38 || i == 39 || i == 40 || i == 41 || i == 42 || i == 43 || i == 44 || i == 45 || i == 46 || i == 47 || i == 48 || i == 49 || i == 50 || i == 51 || i == 52 || i == 53 || i == 54 || i == 55 || i == 56 || i == 57 || i == 58 || i == 59 || i == 60 || i == 61 || i == 62 || i == 63);
    }
}

#[verifier::spinoff_prover]
#[verifier::rlimit(40)]
proof fn lemma_coeffTokenMinus1_0()
    ensures
        forall|i: int| 0 <= i < 8 ==> coeff_token_entry(coeffTokenMinus1_0@[i] as nat),
{
    assert forall|i: int| 0 <= i < 8 implies coeff_token_entry(coeffTokenMinus1_0@[i] as nat) by {
        assert(i == 0 || i == 1 || i == 2 || i == 3 || i == 4 || i == 5 || i == 6 || i == 7);
    }
}

#[verifier::spinoff_prover]
#[verifier::rlimit(40)]
proof fn lemma_coeffTokenMinus1_1()
    ensures
        forall|i: int| 0 <= i < 32 ==> coeff_token_entry(coeffTokenMinus1_1@[i] as nat),
{
    assert forall|i: int| 0 <= i < 32 implies coeff_token_entry(coeffTokenMinus1_1@[i] as nat) by {
        assert(i == 0 || i == 1 || i == 2 || i == 3 || i == 4 || i == 5 || i == 6 || i == 7 || i == 8 || i == 9 || i == 10 || i == 11 || i == 12 || i == 13 || i == 14 || i == 15 || i == 16 || i == 17 || i == 18 || i == 19 || i == 20 || i == 21 || i == 22 || i == 23 || i == 24 || i == 25 || i == 26 || i == 27 || i == 28 || i == 29 || i == 30 || i == 31);
    }
}

proof fn lemma_totalZeros_1_0()
    ensures
        forall|i: int| 0 <= i < 32 ==> total_zeros_entry(totalZeros_1_0@[i] as nat, 15),
{
    assert forall|i: int| 0 <= i < 32 implies total_zeros_entry(totalZeros_1_0@[i] as nat, 15) by {
        assert(i == 0 || i == 1 || i == 2 || i == 3 || i == 4 || i == 5 || i == 6 || i == 7 || i == 8 || i == 9 || i == 10 || i == 11 || i == 12 || i == 13 || i == 14 || i == 15 || i == 16 || i == 17 || i == 18 || i == 19 || i == 20 || i == 21 || i == 22 || i == 23 || i == 24 || i == 25 || i == 26 || i == 27 || i == 28 || i == 29 || i == 30 || i == 31);
    }
}

proof fn lemma_totalZeros_1_1()
    ensures
        forall|i: int| 0 <= i < 32 ==> total_zeros_entry(totalZeros_1_1@[i] as nat, 15),
{
    assert forall|i: int| 0 <= i < 32 implies total_zeros_entry(totalZeros_1_1@[i] as nat, 15) by {
        assert(i == 0 || i == 1 || i == 2 || i == 3 || i == 4 || i == 5 || i == 6 || i == 7 || i == 8 || i == 9 || i == 10 || i == 11 || i == 12 || i == 13 || i == 14 || i == 15 || i == 16 || i == 17 || i == 18 || i == 19 || i == 20 || i == 21 || i == 22 || i == 23 || i == 24 || i == 25 || i == 26 || i == 27 || i == 28 || i == 29 || i == 30 || i == 31);
    }
}

proof fn lemma_totalZeros_2()
    ensures
        forall|i: int| 0 <= i < 64 ==> total_zeros_entry(totalZeros_2@[i] as nat, 14),
{
    assert forall|i: int| 0 <= i < 64 implies total_zeros_entry(totalZeros_2@[i] as nat, 14) by {
        assert(i == 0 || i == 1 || i == 2 || i == 3 || i == 4 || i == 5 || i == 6 || i == 7 || i == 8 || i == 9 || i == 10 || i == 11 || i == 12 || i == 13 || i == 14 || i == 15 || i == 16 || i == 17 || i == 18 || i == 19 || i == 20 || i == 21 || i == 22 || i == 23 || i == 24 || i == 25 || i == 26 || i == 27 || i == 28 || i == 29 || i == 30 || i == 31 || i == 32 || i == 33 || i == 34 || i == 35 || i == 36 || i == 37 || i == 38 || i == 39 || i == 40 || i == 41 || i == 42 || i == 43 || i == 44 || i == 45 || i == 46 || i == 47 || i == 48 || i == 49 || i == 50 || i == 51 || i == 52 || i == 53 || i == 54 || i == 55 || i == 56 || i == 57 || i == 58 || i == 59 || i == 60 || i == 61 || i == 62 || i == 63);
    }
}

proof fn lemma_totalZeros_3()
    ensures
        forall|i: int| 0 <= i < 64 ==> total_zeros_entry(totalZeros_3@[i] as nat, 13),
{
    assert forall|i: int| 0 <= i < 64 implies total_zeros_entry(totalZeros_3@[i] as nat, 13) by {
        assert(i == 0 || i == 1 || i == 2 || i == 3 || i == 4 || i == 5 || i == 6 || i == 7 || i == 8 || i == 9 || i == 10 || i == 11 || i == 12 || i == 13 || i == 14 || i == 15 || i == 16 || i == 17 || i == 18 || i == 19 || i == 20 || i == 21 || i == 22 || i == 23 || i == 24 || i == 25 || i == 26 || i == 27 || i == 28 || i == 29 || i == 30 || i == 31 || i == 32 || i == 33 || i == 34 || i == 35 || i == 36 || i == 37 || i == 38 || i == 39 || i == 40 || i == 41 || i == 42 || i == 43 || i == 44 || i == 45 || i == 46 || i == 47 || i == 48 || i == 49 || i == 50 || i == 51 || i == 52 || i == 53 || i == 54 || i == 55 || i == 56 || i == 57 || i == 58 || i == 59 || i == 60 || i == 61 || i == 62 || i == 63);
    }
}

proof fn lemma_totalZeros_4()
    ensures
        forall|i: int| 0 <= i < 32 ==> total_zeros_entry(totalZeros_4@[i] as nat, 12),
{
    assert forall|i: int| 0 <= i < 32 implies total_zeros_entry(totalZeros_4@[i] as nat, 12) by {
        assert(i == 0 || i == 1 || i == 2 || i == 3 || i == 4 || i == 5 || i == 6 || i == 7 || i == 8 || i == 9 || i == 10 || i == 11 || i == 12 || i == 13 || i == 14 || i == 15 || i == 16 || i == 17 || i == 18 || i == 19 || i == 20 || i == 21 || i == 22 || i == 23 || i == 24 || i == 25 || i == 26 || i == 27 || i == 28 || i == 29 || i == 30 || i == 31);
    }
}

proof fn lemma_totalZeros_5()
    ensures
        forall|i: int| 0 <= i < 32 ==> total_zeros_entry(totalZeros_5@[i] as nat, 11),
{
    assert forall|i: int| 0 <= i < 32 implies total_zeros_entry(totalZeros_5@[i] as nat, 11) by {
        assert(i == 0 || i == 1 || i == 2 || i == 3 || i == 4 || i == 5 || i == 6 || i == 7 || i == 8 || i == 9 || i == 10 || i == 11 || i == 12 || i == 13 || i == 14 || i == 15 || i == 16 || i == 17 || i == 18 || i == 19 || i == 20 || i == 21 || i == 22 || i == 23 || i == 24 || i == 25 || i == 26 || i == 27 || i == 28 || i == 29 || i == 30 || i == 31);
    }
}

proof fn lemma_totalZeros_6()
    ensures
        forall|i: int| 0 <= i < 64 ==> total_zeros_entry(totalZeros_6@[i] as nat, 10),
{
    assert forall|i: int| 0 <= i < 64 implies total_zeros_entry(totalZeros_6@[i] as nat, 10) by {
        assert(i == 0 || i == 1 || i == 2 || i == 3 || i == 4 || i == 5 || i == 6 || i == 7 || i == 8 || i == 9 || i == 10 || i == 11 || i == 12 || i == 13 || i == 14 || i == 15 || i == 16 || i == 17 || i == 18 || i == 19 || i == 20 || i == 21 || i == 22 || i == 23 || i == 24 || i == 25 || i == 26 || i == 27 || i == 28 || i == 29 || i == 30 || i == 31 || i == 32 || i == 33 || i == 34 || i == 35 || i == 36 || i == 37 || i == 38 || i == 39 || i == 40 || i == 41 || i == 42 || i == 43 || i == 44 || i == 45 || i == 46 || i == 47 || i == 48 || i == 49 || i == 50 || i == 51 || i == 52 || i == 53 || i == 54 || i == 55 || i == 56 || i == 57 || i == 58 || i == 59 || i == 60 || i == 61 || i == 62 || i == 63);
    }
}

proof fn lemma_totalZeros_7()
    ensures
        forall|i: int| 0 <= i < 64 ==> total_zeros_entry(totalZeros_7@[i] as nat, 9),
{
    assert forall|i: int| 0 <= i < 64 implies total_zeros_entry(totalZeros_7@[i] as nat, 9) by {
        assert(i == 0 || i == 1 || i == 2 || i == 3 || i == 4 || i == 5 || i == 6 || i == 7 || i == 8 || i == 9 || i == 10 || i == 11 || i == 12 || i == 13 || i == 14 || i == 15 || i == 16 || i == 17 || i == 18 || i == 19 || i == 20 || i == 21 || i == 22 || i == 23 || i == 24 || i == 25 || i == 26 || i == 27 || i == 28 || i == 29 || i == 30 || i == 31 || i == 32 || i == 33 || i == 34 || i == 35 || i == 36 || i == 37 || i == 38 || i == 39 || i == 40 || i == 41 || i == 42 || i == 43 || i == 44 || i == 45 || i == 46 || i == 47 || i == 48 || i == 49 || i == 50 || i == 51 || i == 52 || i == 53 || i == 54 || i == 55 || i == 56 || i == 57 || i == 58 || i == 59 || i == 60 || i == 61 || i == 62 || i == 63);
    }
}

proof fn lemma_totalZeros_8()
    ensures
        forall|i: int| 0 <= i < 64 ==> total_zeros_entry(totalZeros_8@[i] as nat, 8),
{
    assert forall|i: int| 0 <= i < 64 implies total_zeros_entry(totalZeros_8@[i] as nat, 8) by {
        assert(i == 0 || i == 1 || i == 2 || i == 3 || i == 4 || i == 5 || i == 6 || i == 7 || i == 8 || i == 9 || i == 10 || i == 11 || i == 12 || i == 13 || i == 14 || i == 15 || i == 16 || i == 17 || i == 18 || i == 19 || i == 20 || i == 21 || i == 22 || i == 23 || i == 24 || i == 25 || i == 26 || i == 27 || i == 28 || i == 29 || i == 30 || i == 31 || i == 32 || i == 33 || i == 34 || i == 35 || i == 36 || i == 37 || i == 38 || i == 39 || i == 40 || i == 41 || i == 42 || i == 43 || i == 44 || i == 45 || i == 46 || i == 47 || i == 48 || i == 49 || i == 50 || i == 51 || i == 52 || i == 53 || i == 54 || i == 55 || i == 56 || i == 57 || i == 58 || i == 59 || i == 60 || i == 61 || i == 62 || i == 63);
    }
}

proof fn lemma_totalZeros_9()
    ensures
        forall|i: int| 0 <= i < 64 ==> total_zeros_entry(totalZeros_9@[i] as nat, 7),
{
    assert forall|i: int| 0 <= i < 64 implies total_zeros_entry(totalZeros_9@[i] as nat, 7) by {
        assert(i == 0 || i == 1 || i == 2 || i == 3 || i == 4 || i == 5 || i == 6 || i == 7 || i == 8 || i == 9 || i == 10 || i == 11 || i == 12 || i == 13 || i == 14 || i == 15 || i == 16 || i == 17 || i == 18 || i == 19 || i == 20 || i == 21 || i == 22 || i == 23 || i == 24 || i == 25 || i == 26 || i == 27 || i == 28 || i == 29 || i == 30 || i == 31 || i == 32 || i == 33 || i == 34 || i == 35 || i == 36 || i == 37 || i == 38 || i == 39 || i == 40 || i == 41 || i == 42 || i == 43 || i == 44 || i == 45 || i == 46 || i == 47 || i == 48 || i == 49 || i == 50 || i == 51 || i == 52 || i == 53 || i == 54 || i == 55 || i == 56 || i == 57 || i == 58 || i == 59 || i == 60 || i == 61 || i == 62 || i == 63);
    }
}

proof fn lemma_totalZeros_10()
    ensures
        forall|i: int| 0 <= i < 32 ==> total_zeros_entry(totalZeros_10@[i] as nat, 6),
{
    assert forall|i: int| 0 <= i < 32 implies total_zeros_entry(totalZeros_10@[i] as nat, 6) by {
        assert(i == 0 || i == 1 || i == 2 || i == 3 || i == 4 || i == 5 || i == 6 || i == 7 || i == 8 || i == 9 || i == 10 || i == 11 || i == 12 || i == 13 || i == 14 || i == 15 || i == 16 || i == 17 || i == 18 || i == 19 || i == 20 || i == 21 || i == 22 || i == 23 || i == 24 || i == 25 || i == 26 || i == 27 || i == 28 || i == 29 || i == 30 || i == 31);
    }
}

proof fn lemma_totalZeros_11()
    ensures
        forall|i: int| 0 <= i < 16 ==> total_zeros_entry(totalZeros_11@[i] as nat, 5),
{
    assert forall|i: int| 0 <= i < 16 implies total_zeros_entry(totalZeros_11@[i] as nat, 5) by {
        assert(i == 0 || i == 1 || i == 2 || i == 3 || i == 4 || i == 5 || i == 6 || i == 7 || i == 8 || i == 9 || i == 10 || i == 11 || i == 12 || i == 13 || i == 14 || i == 15);
    }
}

proof fn lemma_totalZeros_12()
    ensures
        forall|i: int| 0 <= i < 16 ==> total_zeros_entry(totalZeros_12@[i] as nat, 4),
{
    assert forall|i: int| 0 <= i < 16 implies total_zeros_entry(totalZeros_12@[i] as nat, 4) by {
        assert(i == 0 || i == 1 || i == 2 || i == 3 || i == 4 || i == 5 || i == 6 || i == 7 || i == 8 || i == 9 || i == 10 || i == 11 || i == 12 || i == 13 || i == 14 || i == 15);
    }
}

proof fn lemma_totalZeros_13()
    ensures
        forall|i: int| 0 <= i < 8 ==> total_zeros_entry(totalZeros_13@[i] as nat, 3),
{
    assert forall|i: int| 0 <= i < 8 implies total_zeros_entry(totalZeros_13@[i] as nat, 3) by {
        assert(i == 0 || i == 1 || i == 2 || i == 3 || i == 4 || i == 5 || i == 6 || i == 7);
    }
}

proof fn lemma_totalZeros_14()
    ensures
        forall|i: int| 0 <= i < 4 ==> total_zeros_entry(totalZeros_14@[i] as nat, 2),
{
    assert forall|i: int| 0 <= i < 4 implies total_zeros_entry(totalZeros_14@[i] as nat, 2) by {
        assert(i == 0 || i == 1 || i == 2 || i == 3);
    }
}

proof fn lemma_runBefore_6()
    ensures
        forall|i: int| 0 <= i < 8 ==> run_before_entry(runBefore_6@[i] as nat, 6),
{
    assert forall|i: int| 0 <= i < 8 implies run_before_entry(runBefore_6@[i] as nat, 6) by {
        assert(i == 0 || i == 1 || i == 2 || i == 3 || i == 4 || i == 5 || i == 6 || i == 7);
    }
}

proof fn lemma_runBefore_5()
    ensures
        forall|i: int| 0 <= i < 8 ==> run_before_entry(runBefore_5@[i] as nat, 5),
{
    assert forall|i: int| 0 <= i < 8 implies run_before_entry(runBefore_5@[i] as nat, 5) by {
        assert(i == 0 || i == 1 || i == 2 || i == 3 || i == 4 || i == 5 || i == 6 || i == 7);
    }
}

proof fn lemma_runBefore_4()
    ensures
        forall|i: int| 0 <= i < 8 ==> run_before_entry(runBefore_4@[i] as nat, 4),
{
    assert forall|i: int| 0 <= i < 8 implies run_before_entry(runBefore_4@[i] as nat, 4) by {
        assert(i == 0 || i == 1 || i == 2 || i == 3 || i == 4 || i == 5 || i == 6 || i == 7);
    }
}

proof fn lemma_runBefore_3()
    ensures
        forall|i: int| 0 <= i < 4 ==> run_before_entry(runBefore_3@[i] as nat, 3),
{
    assert forall|i: int| 0 <= i < 4 implies run_before_entry(runBefore_3@[i] as nat, 3) by {
        assert(i == 0 || i == 1 || i == 2 || i == 3);
    }
}

proof fn lemma_runBefore_2()
    ensures
        forall|i: int| 0 <= i < 4 ==> run_before_entry(runBefore_2@[i] as nat, 2),
{
    assert forall|i: int| 0 <= i < 4 implies run_before_entry(runBefore_2@[i] as nat, 2) by {
        assert(i == 0 || i == 1 || i == 2 || i == 3);
    }
}

proof fn lemma_runBefore_1()
    ensures
        forall|i: int| 0 <= i < 2 ==> run_before_entry(runBefore_1@[i] as nat, 1),
{
    assert forall|i: int| 0 <= i < 2 implies run_before_entry(runBefore_1@[i] as nat, 1) by {
        assert(i == 0 || i == 1);
    }
}

proof fn lemma_token_zero_positions()
    ensures
        forall|i: int| 0 <= i < 64 && coeffToken4_0@[i] == 0 ==> i < 8,
        forall|i: int| 0 <= i < 8 && coeffTokenMinus1_0@[i] == 0 ==> i == 0,
        forall|i: int| 0 <= i < 32 && totalZeros_1_0@[i] == 0 ==> i < 2,
{
    assert forall|i: int| 0 <= i < 64 && coeffToken4_0@[i] == 0 implies i < 8 by {
        assert(i == 0 || i == 1 || i == 2 || i == 3 || i == 4 || i == 5 || i == 6 || i == 7 || i == 8 || i == 9 || i == 10 || i == 11 || i == 12 || i == 13 || i == 14 || i == 15 || i == 16 || i == 17 || i == 18 || i == 19 || i == 20 || i == 21 || i == 22 || i == 23 || i == 24 || i == 25 || i == 26 || i == 27 || i == 28 || i == 29 || i == 30 || i == 31 || i == 32 || i == 33 || i == 34 || i == 35 || i == 36 || i == 37 || i == 38 || i == 39 || i == 40 || i == 41 || i == 42 || i == 43 || i == 44 || i == 45 || i == 46 || i == 47 || i == 48 || i == 49 || i == 50 || i == 51 || i == 52 || i == 53 || i == 54 || i == 55 || i == 56 || i == 57 || i == 58 || i == 59 || i == 60 || i == 61 || i == 62 || i == 63);
    }
    assert forall|i: int| 0 <= i < 8 && coeffTokenMinus1_0@[i] == 0 implies i == 0 by {
        assert(i == 0 || i == 1 || i == 2 || i == 3 || i == 4 || i == 5 || i == 6 || i == 7);
    }
    assert forall|i: int| 0 <= i < 32 && totalZeros_1_0@[i] == 0 implies i < 2 by {
        assert(i == 0 || i == 1 || i == 2 || i == 3 || i == 4 || i == 5 || i == 6 || i == 7 || i == 8 || i == 9 || i == 10 || i == 11 || i == 12 || i == 13 || i == 14 || i == 15 || i == 16 || i == 17 || i == 18 || i == 19 || i == 20 || i == 21 || i == 22 || i == 23 || i == 24 || i == 25 || i == 26 || i == 27 || i == 28 || i == 29 || i == 30 || i == 31);
    }
}

// ---------------------------------------------------------------------------
// Code word lookups
// ---------------------------------------------------------------------------

/// The coeff_token information field for the next 16 stream bits `bits`
/// and the predicted number of non-zero coefficients `nc` (-1 for chroma
/// DC, i.e. 2^32 - 1); 0 when no code word matches.
pub open spec fn coeff_token_vlc(bits: nat, nc: u32) -> nat {
    if nc < 2 {
        if bits >= 0x8000 {
            1
        } else if bits >= 0x0C00 {
            coeffToken0_0@[(bits / 1024) as int] as nat
        } else if bits >= 0x0100 {
            coeffToken0_1@[(bits / 64) as int] as nat
        } else if bits >= 0x0020 {
            coeffToken0_2@[(bits / 4 - 8) as int] as nat
        } else {
            coeffToken0_3@[bits as int] as nat
        }
    } else if nc < 4 {
        if bits >= 0x8000 {
            if (bits / 0x4000) % 2 == 1 {
                2
            } else {
                0x0822
            }
        } else if bits >= 0x1000 {
            coeffToken2_0@[(bits / 1024) as int] as nat
        } else if bits >= 0x0200 {
            coeffToken2_1@[(bits / 128) as int] as nat
        } else {
            coeffToken2_2@[(bits / 4) as int] as nat
        }
    } else if nc < 8 {
        if coeffToken4_0@[(bits / 1024) as int] == 0 {
            coeffToken4_1@[(bits / 64) as int] as nat
        } else {
            coeffToken4_0@[(bits / 1024) as int] as nat
        }
    } else if nc <= 16 {
        coeffToken8@[(bits / 1024) as int] as nat
    } else if coeffTokenMinus1_0@[(bits / 8192) as int] == 0 {
        coeffTokenMinus1_1@[(bits / 256) as int] as nat
    } else {
        coeffTokenMinus1_0@[(bits / 8192) as int] as nat
    }
}

/// Decode the coeff_token information field from the next 16 stream bits.
fn DecodeCoeffToken(bits: u32, nc: u32) -> (value: u32)
    requires
        bits < 0x10000,
    ensures
        value as nat == coeff_token_vlc(bits as nat, nc),
        coeff_token_entry(value as nat),
{
    proof {
        lemma_coeffToken0_0();
        lemma_coeffToken0_1();
        lemma_coeffToken0_2();
        lemma_coeffToken0_3();
        lemma_coeffToken2_0();
        lemma_coeffToken2_1();
        lemma_coeffToken2_2();
        lemma_coeffToken4_0();
        lemma_coeffToken4_1();
        lemma_coeffToken8();
        lemma_coeffTokenMinus1_0();
        lemma_coeffTokenMinus1_1();
        lemma_token_zero_positions();
    }
    proof {
        lemma_shr_u32(bits, 10u32);
        lemma_shr_u32(bits, 6u32);
        lemma_shr_u32(bits, 2u32);
        lemma_shr_u32(bits, 7u32);
        lemma_shr_u32(bits, 13u32);
        lemma_shr_u32(bits, 8u32);
    }
    assert((bits & 0x4000u32 != 0) == ((bits / 0x4000) % 2 == 1)) by (bit_vector);
    let value: u32;
    /* standard defines that nc for decoding of chroma dc coefficients is -1,
     * represented by u32 here -> -1 maps to 2^32 - 1 */
    if nc < 2 {
        if bits >= 0x8000 {
            value = 0x0001;
        } else if bits >= 0x0C00 {
            value = coeffToken0_0[(bits >> 10) as usize] as u32;
        } else if bits >= 0x0100 {
            value = coeffToken0_1[(bits >> 6) as usize] as u32;
        } else if bits >= 0x0020 {
            value = coeffToken0_2[((bits >> 2) - 8) as usize] as u32;
        } else {
            value = coeffToken0_3[bits as usize] as u32;
        }
    } else if nc < 4 {
        if bits >= 0x8000 {
            value = if bits & 0x4000 != 0 {
                0x0002
            } else {
                0x0822
            };
        } else if bits >= 0x1000 {
            value = coeffToken2_0[(bits >> 10) as usize] as u32;
        } else if bits >= 0x0200 {
            value = coeffToken2_1[(bits >> 7) as usize] as u32;
        } else {
            value = coeffToken2_2[(bits >> 2) as usize] as u32;
        }
    } else if nc < 8 {
        let mut v = coeffToken4_0[(bits >> 10) as usize] as u32;
        if v == 0 {
            v = coeffToken4_1[(bits >> 6) as usize] as u32;
        }
        value = v;
    } else if nc <= 16 {
        value = coeffToken8[(bits >> 10) as usize] as u32;
    } else {
        let mut v = coeffTokenMinus1_0[(bits >> 13) as usize] as u32;
        if v == 0 {
            v = coeffTokenMinus1_1[(bits >> 8) as usize] as u32;
        }
        value = v;
    }
    value
}

/// Leading zeros of `v` in `len` bits when `2^(len-1-k) <= v < 2^(len-k)`.
proof fn lemma_leading_zeros_range(v: u32, len: nat, k: nat)
    requires
        k < len <= 32,
        pow2((len - 1 - k) as nat) <= v,
        (v as nat) < pow2((len - k) as nat),
    ensures
        leading_zeros(v, len) == k,
    decreases k,
{
    let p = pow2((len - 1) as nat);
    lemma_pow2_pos((len - 1) as nat);
    if k == 0 {
        assert((len - 0) as nat == len);
        lemma_pow2_unfold(len);
        assert(v as nat / p == 1) by {
            vstd::arithmetic::div_mod::lemma_fundamental_div_mod_converse(v as int, p as int, 1, v - p);
        }
    } else {
        lemma_pow2_strictly_increases_le((len - k) as nat, (len - 1) as nat);
        assert(v as nat / p == 0) by {
            vstd::arithmetic::div_mod::lemma_basic_div(v as int, p as int);
        }
        assert(((len - 1) - 1 - (k - 1)) as nat == (len - 1 - k) as nat);
        assert(((len - 1) - (k - 1)) as nat == (len - k) as nat);
        lemma_leading_zeros_range(v, (len - 1) as nat, (k - 1) as nat);
    }
}

/// Decode level_prefix (the number of leading zeros) from the next 16
/// stream bits; VLC_NOT_FOUND when all 16 are zero.
fn DecodeLevelPrefix(bits: u32) -> (numZeros: u32)
    requires
        bits < 0x10000,
    ensures
        bits == 0 ==> numZeros == VLC_NOT_FOUND,
        bits != 0 ==> numZeros as nat == leading_zeros(bits, 16) && numZeros <= 15,
{
    proof {
        lemma2_to64();
    }
    let numZeros: u32;
    if bits >= 0x8000 {
        numZeros = 0;
    } else if bits >= 0x4000 {
        numZeros = 1;
    } else if bits >= 0x2000 {
        numZeros = 2;
    } else if bits >= 0x1000 {
        numZeros = 3;
    } else if bits >= 0x0800 {
        numZeros = 4;
    } else if bits >= 0x0400 {
        numZeros = 5;
    } else if bits >= 0x0200 {
        numZeros = 6;
    } else if bits >= 0x0100 {
        numZeros = 7;
    } else if bits >= 0x0080 {
        numZeros = 8;
    } else if bits >= 0x0040 {
        numZeros = 9;
    } else if bits >= 0x0020 {
        numZeros = 10;
    } else if bits >= 0x0010 {
        numZeros = 11;
    } else if bits >= 0x0008 {
        numZeros = 12;
    } else if bits >= 0x0004 {
        numZeros = 13;
    } else if bits >= 0x0002 {
        numZeros = 14;
    } else if bits >= 0x0001 {
        numZeros = 15;
    } else {
        /* more than 15 zeros encountered which is an error */
        return VLC_NOT_FOUND;
    }
    proof {
        lemma_leading_zeros_range(bits, 16, numZeros as nat);
    }
    numZeros
}

/// The total_zeros information field for the next 9 stream bits, `tc`
/// coefficients, in a 4x4 block or (when `chroma`) a chroma DC block.
pub open spec fn total_zeros_vlc(bits: nat, tc: nat, chroma: bool) -> nat {
    if !chroma {
        if tc == 1 {
            if totalZeros_1_0@[(bits / 16) as int] == 0 {
                totalZeros_1_1@[bits as int] as nat
            } else {
                totalZeros_1_0@[(bits / 16) as int] as nat
            }
        } else if tc == 2 {
            totalZeros_2@[(bits / 8) as int] as nat
        } else if tc == 3 {
            totalZeros_3@[(bits / 8) as int] as nat
        } else if tc == 4 {
            totalZeros_4@[(bits / 16) as int] as nat
        } else if tc == 5 {
            totalZeros_5@[(bits / 16) as int] as nat
        } else if tc == 6 {
            totalZeros_6@[(bits / 8) as int] as nat
        } else if tc == 7 {
            totalZeros_7@[(bits / 8) as int] as nat
        } else if tc == 8 {
            totalZeros_8@[(bits / 8) as int] as nat
        } else if tc == 9 {
            totalZeros_9@[(bits / 8) as int] as nat
        } else if tc == 10 {
            totalZeros_10@[(bits / 16) as int] as nat
        } else if tc == 11 {
            totalZeros_11@[(bits / 32) as int] as nat
        } else if tc == 12 {
            totalZeros_12@[(bits / 32) as int] as nat
        } else if tc == 13 {
            totalZeros_13@[(bits / 64) as int] as nat
        } else if tc == 14 {
            totalZeros_14@[(bits / 128) as int] as nat
        } else if bits / 256 != 0 {
            0x11
        } else {
            0x01
        }
    } else {
        let b = bits / 64;
        if b > 3 {
            0x01
        } else if tc == 3 {
            0x11
        } else if b > 1 {
            0x12
        } else if tc == 2 {
            0x22
        } else if b != 0 {
            0x23
        } else {
            0x33
        }
    }
}

/// Decode the total_zeros information field from the next 9 stream bits.
fn DecodeTotalZeros(bits: u32, totalCoeff: u32, isChromaDC: u32) -> (value: u32)
    requires
        bits < 512,
        isChromaDC == 0 ==> 1 <= totalCoeff <= 15,
        isChromaDC != 0 ==> 1 <= totalCoeff <= 3,
    ensures
        value as nat == total_zeros_vlc(bits as nat, totalCoeff as nat, isChromaDC != 0),
        total_zeros_entry(value as nat, ((if isChromaDC != 0 { 4int } else { 16int }) - totalCoeff) as nat),
{
    proof {
        lemma_totalZeros_1_0();
        lemma_totalZeros_1_1();
        lemma_totalZeros_2();
        lemma_totalZeros_3();
        lemma_totalZeros_4();
        lemma_totalZeros_5();
        lemma_totalZeros_6();
        lemma_totalZeros_7();
        lemma_totalZeros_8();
        lemma_totalZeros_9();
        lemma_totalZeros_10();
        lemma_totalZeros_11();
        lemma_totalZeros_12();
        lemma_totalZeros_13();
        lemma_totalZeros_14();
        lemma_token_zero_positions();
    }
    proof {
        lemma_shr_u32(bits, 3u32);
        lemma_shr_u32(bits, 4u32);
        lemma_shr_u32(bits, 5u32);
        lemma_shr_u32(bits, 6u32);
        lemma_shr_u32(bits, 7u32);
        lemma_shr_u32(bits, 8u32);
    }
    let value: u32;
    if isChromaDC == 0 {
        match totalCoeff {
            1 => {
                let mut v = totalZeros_1_0[(bits >> 4) as usize] as u32;
                if v == 0 {
                    v = totalZeros_1_1[bits as usize] as u32;
                }
                value = v;
            },
            2 => {
                value = totalZeros_2[(bits >> 3) as usize] as u32;
            },
            3 => {
                value = totalZeros_3[(bits >> 3) as usize] as u32;
            },
            4 => {
                value = totalZeros_4[(bits >> 4) as usize] as u32;
            },
            5 => {
                value = totalZeros_5[(bits >> 4) as usize] as u32;
            },
            6 => {
                value = totalZeros_6[(bits >> 3) as usize] as u32;
            },
            7 => {
                value = totalZeros_7[(bits >> 3) as usize] as u32;
            },
            8 => {
                value = totalZeros_8[(bits >> 3) as usize] as u32;
            },
            9 => {
                value = totalZeros_9[(bits >> 3) as usize] as u32;
            },
            10 => {
                value = totalZeros_10[(bits >> 4) as usize] as u32;
            },
            11 => {
                value = totalZeros_11[(bits >> 5) as usize] as u32;
            },
            12 => {
                value = totalZeros_12[(bits >> 5) as usize] as u32;
            },
            13 => {
                value = totalZeros_13[(bits >> 6) as usize] as u32;
            },
            14 => {
                value = totalZeros_14[(bits >> 7) as usize] as u32;
            },
            _ => {
                /* case 15 */
                value = if (bits >> 8) != 0 {
                    0x11
                } else {
                    0x01
                };
            },
        }
    } else {
        let b = bits >> 6;
        if b > 3 {
            value = 0x01;
        } else {
            if totalCoeff == 3 {
                value = 0x11;
            } else if b > 1 {
                value = 0x12;
            } else if totalCoeff == 2 {
                value = 0x22;
            } else if b != 0 {
                value = 0x23;
            } else {
                value = 0x33;
            }
        }
    }
    value
}

/// The run_before information field for the next 11 stream bits and `zl`
/// zeros left; 0 when no code word matches or the run exceeds `zl`.
pub open spec fn run_before_vlc(bits: nat, zl: nat) -> nat {
    if zl == 1 {
        runBefore_1@[(bits / 1024) as int] as nat
    } else if zl == 2 {
        runBefore_2@[(bits / 512) as int] as nat
    } else if zl == 3 {
        runBefore_3@[(bits / 512) as int] as nat
    } else if zl == 4 {
        runBefore_4@[(bits / 256) as int] as nat
    } else if zl == 5 {
        runBefore_5@[(bits / 256) as int] as nat
    } else if zl == 6 {
        runBefore_6@[(bits / 256) as int] as nat
    } else {
        let v: nat = if bits >= 0x100 {
            ((7 - bits / 256) * 16 + 3) as nat
        } else if bits >= 0x80 {
            0x74
        } else if bits >= 0x40 {
            0x85
        } else if bits >= 0x20 {
            0x96
        } else if bits >= 0x10 {
            0xa7
        } else if bits >= 0x8 {
            0xb8
        } else if bits >= 0x4 {
            0xc9
        } else if bits >= 0x2 {
            0xda
        } else if bits != 0 {
            0xeb
        } else {
            0
        };
        if vlc_info(v) > zl {
            0
        } else {
            v
        }
    }
}

/// Decode the run_before information field from the next 11 stream bits.
fn DecodeRunBefore(bits: u32, zerosLeft: u32) -> (value: u32)
    requires
        bits < 2048,
        zerosLeft >= 1,
    ensures
        value as nat == run_before_vlc(bits as nat, zerosLeft as nat),
        value == 0 || run_before_entry(value as nat, zerosLeft as nat),
{
    proof {
        lemma_runBefore_1();
        lemma_runBefore_2();
        lemma_runBefore_3();
        lemma_runBefore_4();
        lemma_runBefore_5();
        lemma_runBefore_6();
    }
    proof {
        lemma_shr_u32(bits, 10u32);
        lemma_shr_u32(bits, 9u32);
        lemma_shr_u32(bits, 8u32);
    }
    let mut value: u32 = 0x0;
    match zerosLeft {
        1 => {
            value = runBefore_1[(bits >> 10) as usize] as u32;
        },
        2 => {
            value = runBefore_2[(bits >> 9) as usize] as u32;
        },
        3 => {
            value = runBefore_3[(bits >> 9) as usize] as u32;
        },
        4 => {
            value = runBefore_4[(bits >> 8) as usize] as u32;
        },
        5 => {
            value = runBefore_5[(bits >> 8) as usize] as u32;
        },
        6 => {
            value = runBefore_6[(bits >> 8) as usize] as u32;
        },
        _ => {
            if bits >= 0x100 {
                assert(bits < 2048 ==> ((7 - (bits >> 8u32)) as u32) << 4u32 == (7 - bits / 256) * 16
                    && (bits >> 8u32) <= 7) by (bit_vector);
                value = ((7 - (bits >> 8)) << 4) + 0x3;
            } else if bits >= 0x80 {
                value = 0x74;
            } else if bits >= 0x40 {
                value = 0x85;
            } else if bits >= 0x20 {
                value = 0x96;
            } else if bits >= 0x10 {
                value = 0xa7;
            } else if bits >= 0x8 {
                value = 0xb8;
            } else if bits >= 0x4 {
                value = 0xc9;
            } else if bits >= 0x2 {
                value = 0xdA;
            } else if bits != 0 {
                value = 0xeB;
            }
            if INFO(value) > zerosLeft {
                value = 0;
            }
        },
    }
    value
}


// ---------------------------------------------------------------------------
// Residual block syntax, as read from the bit stream
// ---------------------------------------------------------------------------

/// Level of the `i`-th trailing one: -1 when its sign bit (the `i`-th of the
/// `t1` bits `s1`, most significant first) is set, else 1.
pub open spec fn t1_level(s1: nat, t1: nat, i: nat) -> i32 {
    if (s1 / pow2((t1 - 1 - i) as nat)) % 2 == 1 {
        -1i32
    } else {
        1i32
    }
}

/// Decode one coefficient level (level_prefix, level_suffix) at `pos` with
/// suffix length `sl`, for coefficient `i` of a block with `t1` trailing
/// ones: (decoded, level, next position, next suffix length).
pub open spec fn level_step(d: Seq<u8>, size: nat, pos: int, sl: nat, i: nat, t1: nat) -> (bool, i32, int, nat) {
    let w = stream_bits(d, size, pos, 16);
    if w == 0 {
        (false, 0, pos, sl)
    } else {
        let prefix = leading_zeros(w as u32, 16);
        let pos1 = pos + prefix + 1;
        let sl1: nat = if prefix == 15 && sl == 0 { 1 } else { sl };
        let n: nat = if prefix < 14 {
            sl
        } else if prefix == 14 {
            if sl != 0 { sl } else { 4 }
        } else {
            12
        };
        let code = prefix * pow2(sl1) + stream_bits(d, size, pos1, n);
        let tmp = if i == t1 && t1 < 3 { code + 2 } else { code };
        let mag = (tmp + 2) / 2;
        let sl2: nat = if sl1 == 0 { 1 } else { sl1 };
        let sl3: nat = if mag > 3 * pow2((sl2 - 1) as nat) && sl2 < 6 { sl2 + 1 } else { sl2 };
        let level: int = if tmp % 2 == 1 { -mag } else { mag as int };
        (true, level as i32, pos1 + n, sl3)
    }
}

/// Decode the levels of coefficients `i..tc`: (all decoded, levels, end).
pub open spec fn levels_from(d: Seq<u8>, size: nat, pos: int, sl: nat, i: nat, tc: nat, t1: nat) -> (bool, Seq<i32>, int)
    decreases tc - i,
{
    if i >= tc {
        (true, Seq::empty(), pos)
    } else {
        let st = level_step(d, size, pos, sl, i, t1);
        if !st.0 {
            (false, Seq::empty(), st.2)
        } else {
            let rest = levels_from(d, size, st.2, st.3, i + 1, tc, t1);
            (rest.0, seq![st.1] + rest.1, rest.2)
        }
    }
}

/// Decode one run_before at `pos` with `zl` zeros left: (decoded, run + 1,
/// next position, zeros left afterwards). Without zeros left the run is
/// empty and nothing is read.
pub open spec fn run_step(d: Seq<u8>, size: nat, pos: int, zl: nat) -> (bool, nat, int, nat) {
    if zl > 0 {
        let v = run_before_vlc(stream_bits(d, size, pos, 11), zl);
        if v == 0 {
            (false, 0, pos, zl)
        } else {
            (true, vlc_info(v) + 1, pos + vlc_length(v), (zl - vlc_info(v)) as nat)
        }
    } else {
        (true, 1, pos, 0)
    }
}

/// Decode the runs of coefficients `i..n`: (all decoded, runs (each one
/// more than the number of zeros), end, zeros left).
pub open spec fn runs_from(d: Seq<u8>, size: nat, pos: int, zl: nat, i: nat, n: nat) -> (bool, Seq<nat>, int, nat)
    decreases n - i,
{
    if i >= n {
        (true, Seq::empty(), pos, zl)
    } else {
        let st = run_step(d, size, pos, zl);
        if !st.0 {
            (false, Seq::empty(), st.2, st.3)
        } else {
            let rest = runs_from(d, size, st.2, st.3, i + 1, n);
            (rest.0, seq![st.1] + rest.1, rest.2, rest.3)
        }
    }
}

/// A decoded residual block: the coefficient levels (in decoding order,
/// highest frequency first), the runs between them, the zeros before the
/// last one and the end position of the block in the stream.
pub struct CavlcBlock {
    pub ok: bool,
    pub totalCoeff: nat,
    pub levels: Seq<i32>,
    pub zerosLeft: nat,
    pub runs: Seq<nat>,
    pub end: int,
}

/// Suffix length the level decoding starts with.
pub open spec fn initial_suffix_length(tc: nat, t1: nat) -> nat {
    if tc > 10 && t1 < 3 { 1 } else { 0 }
}

/// The levels of a block of `tc` coefficients with `t1` trailing ones
/// whose sign bits start at `p1`: (decoded, levels in decoding order, end).
pub open spec fn block_levels(d: Seq<u8>, size: nat, p1: int, tc: nat, t1: nat) -> (bool, Seq<i32>, int) {
    let s1 = stream_bits(d, size, p1, t1);
    let lv = levels_from(d, size, p1 + t1, initial_suffix_length(tc, t1), t1, tc, t1);
    (lv.0, Seq::new(t1, |i: int| t1_level(s1, t1, i as nat)) + lv.1, lv.2)
}

/// The total_zeros of a block of `tc` coefficients out of at most `max`
/// at `p3` (absent when the block is full): (decoded, zeros, end).
pub open spec fn block_total_zeros(d: Seq<u8>, size: nat, p3: int, tc: nat, max: nat) -> (bool, nat, int) {
    if tc < max {
        let v = total_zeros_vlc(stream_bits(d, size, p3, 9), tc, max == 4);
        (v != 0, vlc_info(v), p3 + vlc_length(v))
    } else {
        (true, 0, p3)
    }
}

/// The residual_block_cavlc() syntax of a block of at most `max`
/// coefficients at bit `p0`, for nC = `nc`.
pub open spec fn cavlc_block(d: Seq<u8>, size: nat, p0: int, nc: u32, max: nat) -> CavlcBlock {
    let tok = coeff_token_vlc(stream_bits(d, size, p0, 16), nc);
    let tc = tc_total_coeff(tok);
    let t1 = tc_trailing_ones(tok);
    let p1 = p0 + tc_length(tok);
    if tok == 0 || tc > max {
        CavlcBlock { ok: false, totalCoeff: tc, levels: Seq::empty(), zerosLeft: 0, runs: Seq::empty(), end: p1 }
    } else if tc == 0 {
        CavlcBlock { ok: true, totalCoeff: 0, levels: Seq::empty(), zerosLeft: 0, runs: Seq::empty(), end: p1 }
    } else {
        let lv = block_levels(d, size, p1, tc, t1);
        let tz = block_total_zeros(d, size, lv.2, tc, max);
        let rs = runs_from(d, size, tz.2, tz.1, 0, (tc - 1) as nat);
        CavlcBlock {
            ok: lv.0 && tz.0 && tz.1 + tc <= max && rs.0,
            totalCoeff: tc,
            levels: lv.1,
            zerosLeft: rs.3,
            runs: rs.1,
            end: rs.2,
        }
    }
}

/// Sum of `runs[k..]`.
pub open spec fn sum_from(runs: Seq<nat>, k: int) -> nat
    decreases runs.len() - k,
{
    if k >= runs.len() || k < 0 {
        0
    } else {
        runs[k] + sum_from(runs, k + 1)
    }
}

/// Coefficient position of the `k`-th decoded level: the zeros left at the
/// end plus the runs of the levels decoded after it.
pub open spec fn place_pos(zl: nat, runs: Seq<nat>, k: int) -> nat {
    zl + sum_from(runs, k)
}

/// Coefficients after writing the levels `k..tc` of the block to their
/// positions.
pub open spec fn placed(coeff: Seq<i32>, b: CavlcBlock, k: int) -> Seq<i32>
    decreases b.totalCoeff - k,
{
    if k >= b.totalCoeff || k < 0 {
        coeff
    } else {
        placed(coeff, b, k + 1).update(place_pos(b.zerosLeft, b.runs, k) as int, b.levels[k])
    }
}

/// Bit map of the positions of the levels `k..tc`.
pub open spec fn coeff_map(b: CavlcBlock, k: int) -> nat
    decreases b.totalCoeff - k,
{
    if k >= b.totalCoeff || k < 0 {
        0
    } else {
        coeff_map(b, k + 1) + pow2(place_pos(b.zerosLeft, b.runs, k))
    }
}

// ---------------------------------------------------------------------------
// Lemmas on the block syntax
// ---------------------------------------------------------------------------

proof fn lemma_level_step(d: Seq<u8>, size: nat, pos: int, sl: nat, i: nat, t1: nat)
    requires
        sl <= 6,
    ensures
        ({
            let st = level_step(d, size, pos, sl, i, t1);
            &&& pos <= st.2 <= pos + 29
            &&& st.3 <= 6
        }),
{
    let w = stream_bits(d, size, pos, 16);
    if w != 0 {
        lemma_stream_bits_bound(d, size, pos, 16);
        lemma2_to64();
        crate::stream::lemma_leading_zeros_le(w as u32, 16);
    }
}

proof fn lemma_levels_from(d: Seq<u8>, size: nat, pos: int, sl: nat, i: nat, tc: nat, t1: nat)
    requires
        sl <= 6,
        i <= tc,
    ensures
        pos <= levels_from(d, size, pos, sl, i, tc, t1).2 <= pos + 29 * (tc - i),
        levels_from(d, size, pos, sl, i, tc, t1).0 && i <= tc ==> levels_from(d, size, pos, sl, i, tc, t1).1.len() == tc - i,
    decreases tc - i,
{
    if i < tc {
        lemma_level_step(d, size, pos, sl, i, t1);
        let st = level_step(d, size, pos, sl, i, t1);
        if st.0 {
            lemma_levels_from(d, size, st.2, st.3, i + 1, tc, t1);
        }
    }
}

proof fn lemma_runs_from(d: Seq<u8>, size: nat, pos: int, zl: nat, i: nat, n: nat)
    requires
        i <= n,
    ensures
        ({
            let rs = runs_from(d, size, pos, zl, i, n);
            &&& pos <= rs.2 <= pos + 11 * (n - i)
            &&& rs.0 && i <= n ==> {
                &&& rs.1.len() == n - i
                &&& rs.3 <= zl
                &&& sum_from(rs.1, 0) + rs.3 == zl + (n - i)
                &&& forall|j: int| 0 <= j < rs.1.len() ==> rs.1[j] >= 1
            }
        }),
    decreases n - i,
{
    let rs = runs_from(d, size, pos, zl, i, n);
    if i < n {
        let st = run_step(d, size, pos, zl);
        if zl > 0 {
            let w = stream_bits(d, size, pos, 11);
            lemma_stream_bits_bound(d, size, pos, 11);
            lemma2_to64();
            lemma_run_before_vlc(w, zl);
            let v = run_before_vlc(w, zl);
            assert(st.0 ==> v != 0 && st.1 == vlc_info(v) + 1 && st.2 == pos + vlc_length(v) && st.3 == zl - vlc_info(v));
            assert(st.0 ==> pos <= st.2 <= pos + 11 && st.3 <= zl && st.1 + st.3 == zl + 1);
        } else {
            assert(st.0 && st.2 == pos && st.1 == 1 && st.3 == 0);
        }
        if st.0 {
            lemma_runs_from(d, size, st.2, st.3, i + 1, n);
            let rest = runs_from(d, size, st.2, st.3, i + 1, n);
            let all = seq![st.1] + rest.1;
            assert(rs.0 == rest.0 && rs.1 == all && rs.2 == rest.2 && rs.3 == rest.3);
            assert(rest.2 <= st.2 + 11 * (n - (i + 1)));
            if rest.0 {
                lemma_sum_from_cons(st.1, rest.1);
                assert forall|j: int| 0 <= j < all.len() implies all[j] >= 1 by {
                    if j > 0 {
                        assert(all[j] == rest.1[j - 1]);
                    }
                }
            }
        } else {
            assert(rs.2 == st.2);
        }
    }
}

proof fn lemma_run_before_vlc(bits: nat, zl: nat)
    requires
        bits < 2048,
        zl >= 1,
    ensures
        run_before_vlc(bits, zl) == 0 || run_before_entry(run_before_vlc(bits, zl), zl),
{
    lemma_runBefore_1();
    lemma_runBefore_2();
    lemma_runBefore_3();
    lemma_runBefore_4();
    lemma_runBefore_5();
    lemma_runBefore_6();
}

proof fn lemma_sum_from_cons(x: nat, rest: Seq<nat>)
    ensures
        sum_from(seq![x] + rest, 0) == x + sum_from(rest, 0),
{
    lemma_sum_from_shift(x, rest, 0);
}

proof fn lemma_sum_from_shift(x: nat, rest: Seq<nat>, k: int)
    requires
        0 <= k <= rest.len(),
    ensures
        sum_from(seq![x] + rest, k + 1) == sum_from(rest, k),
        sum_from(seq![x] + rest, 0) == x + sum_from(seq![x] + rest, 1),
    decreases rest.len() - k,
{
    let all = seq![x] + rest;
    if k < rest.len() {
        lemma_sum_from_shift(x, rest, k + 1);
        assert(all[k + 1] == rest[k]);
    }
}

/// Positions of later-decoded levels are lower; all lie below
/// `zl + sum of all runs + 1`.
proof fn lemma_place_pos(zl: nat, runs: Seq<nat>, k: int)
    requires
        0 <= k <= runs.len(),
        forall|j: int| 0 <= j < runs.len() ==> runs[j] >= 1,
    ensures
        place_pos(zl, runs, k) <= place_pos(zl, runs, 0),
        k < runs.len() ==> place_pos(zl, runs, k) == place_pos(zl, runs, k + 1) + runs[k],
        k < runs.len() ==> place_pos(zl, runs, k) > place_pos(zl, runs, k + 1),
    decreases k,
{
    if k > 0 {
        lemma_place_pos(zl, runs, k - 1);
    }
}


// ---------------------------------------------------------------------------
// Decoding
// ---------------------------------------------------------------------------
//
// The decoder reads through a 32-bit look-ahead: `cacheBits` bits of the
// look-ahead are left, so the bits already decoded end at
// `cur == strmBuffReadBits + 32 - cacheBits`. When fewer bits are left than
// a code word may need, the consumed bits are flushed from the stream
// (which fails once the stream has been overrun) and the look-ahead is
// full again.

/// Make at least `n` bits available in the look-ahead.
fn cache_refill(s: &mut strmData_t, cacheBits: &mut u32, cur: u32, n: u32) -> (r: u32)
    requires
        old(s).wf(),
        *old(cacheBits) <= 32,
        cur == old(s).strmBuffReadBits + 32 - *old(cacheBits),
        cur <= 0x9000_0000,
        n <= 32,
    ensures
        final(s).wf(),
        final(s).same_stream(old(s)),
        r == HANTRO_OK ==> {
            &&& *final(cacheBits) >= n
            &&& *final(cacheBits) <= 32
            &&& cur == final(s).strmBuffReadBits + 32 - *final(cacheBits)
        },
        r != HANTRO_OK ==> cur > old(s).len_bits(),
{
    if *cacheBits < n {
        if h264bsdFlushBits(s, 32 - *cacheBits) == END_OF_STREAM {
            return HANTRO_NOK;
        }
        *cacheBits = 32;
    }
    HANTRO_OK
}

/// Decode the level of coefficient `i` (level_prefix and level_suffix),
/// updating the suffix length `sl`.
fn decode_level(
    s: &mut strmData_t,
    cacheBits: &mut u32,
    cur: &mut u32,
    sl: &mut u32,
    i: u32,
    trailingOnes: u32,
) -> (r: (u32, i32))
    requires
        old(s).wf(),
        *old(cacheBits) <= 32,
        *old(cur) == old(s).strmBuffReadBits + 32 - *old(cacheBits),
        *old(cur) <= 0x8000_0300,
        trailingOnes <= i < 16,
        *old(sl) <= 6,
    ensures
        final(s).wf(),
        final(s).same_stream(old(s)),
        ({
            let st = level_step(old(s).data(), old(s).size(), *old(cur) as int, *old(sl) as nat,
                i as nat, trailingOnes as nat);
            &&& r.0 == HANTRO_OK ==> {
                &&& st.0
                &&& r.1 == st.1
                &&& *final(cur) == st.2
                &&& *final(sl) == st.3
                &&& *final(cacheBits) <= 32
                &&& *final(cur) == final(s).strmBuffReadBits + 32 - *final(cacheBits)
            }
            &&& r.0 != HANTRO_OK ==> (!st.0 || st.2 > old(s).len_bits())
        }),
{
    let ghost d = old(s).data();
    let ghost size = old(s).size();
    let ghost cur0 = *cur as int;
    let ghost sl0 = *sl as nat;
    let ghost st = level_step(d, size, cur0, sl0, i as nat, trailingOnes as nat);
    proof {
        lemma_level_step(d, size, *cur as int, *sl as nat, i as nat, trailingOnes as nat);
    }
    /* level_prefix */
    if cache_refill(s, cacheBits, *cur, 16) != HANTRO_OK {
        return (HANTRO_NOK, 0);
    }
    let bit = show_bits_at(s, *cur, 16);
    proof {
        lemma2_to64();
    }
    let mut levelPrefix = DecodeLevelPrefix(bit);
    if levelPrefix == VLC_NOT_FOUND {
        return (HANTRO_NOK, 0);
    }
    let ghost prefix = levelPrefix as nat;
    assert(bit as nat == stream_bits(d, size, cur0, 16));
    assert(prefix == leading_zeros(stream_bits(d, size, cur0, 16) as u32, 16));
    *cacheBits = *cacheBits - (levelPrefix + 1);
    *cur = *cur + levelPrefix + 1;
    let tmp: u32;
    if levelPrefix < 14 {
        tmp = *sl;
    } else if levelPrefix == 14 {
        tmp = if *sl != 0 {
            *sl
        } else {
            4
        };
    } else {
        /* setting suffixLength to 1 here corresponds to adding 15 to
         * levelCode value if levelPrefix == 15 and suffixLength == 0 */
        if *sl == 0 {
            *sl = 1;
        }
        tmp = 12;
    }
    let ghost pos1 = cur0 + prefix + 1;
    let ghost sl1 = *sl as nat;
    assert(*cur as int == pos1);
    assert(sl1 == (if prefix == 15 && sl0 == 0 { 1nat } else { sl0 }));
    assert(tmp as nat == (if prefix < 14 { sl0 } else if prefix == 14 { if sl0 != 0 { sl0 } else { 4nat } } else { 12nat }));
    if *sl != 0 {
        proof {
            lemma_pow2_strictly_increases_le(*sl as nat, 6);
            lemma2_to64();
            assert(levelPrefix * pow2(*sl as nat) <= 15 * 64) by (nonlinear_arith)
                requires
                    levelPrefix <= 15,
                    pow2(*sl as nat) <= 64,
            ;
            vstd::bits::lemma_u32_shl_is_mul(levelPrefix, *sl);
        }
        levelPrefix = levelPrefix << *sl;
        assert(levelPrefix as nat == prefix * pow2(sl1));
    } else {
        proof {
            lemma2_to64();
            assert(sl1 == 0);
            assert(prefix * pow2(sl1) == prefix * 1);
        }
    }
    assert(levelPrefix as nat == prefix * pow2(sl1));
    if tmp != 0 {
        if cache_refill(s, cacheBits, *cur, tmp) != HANTRO_OK {
            return (HANTRO_NOK, 0);
        }
        let levelSuffix = show_bits_at(s, *cur, tmp);
        *cacheBits = *cacheBits - tmp;
        *cur = *cur + tmp;
        proof {
            lemma_pow2_strictly_increases_le(tmp as nat, 12);
            lemma2_to64();
        }
        assert(levelSuffix as nat == stream_bits(d, size, pos1, tmp as nat));
        levelPrefix = levelPrefix + levelSuffix;
    } else {
        proof {
            assert(stream_bits(d, size, (*cur) as int, 0) == 0);
        }
    }
    assert(levelPrefix as nat == prefix * pow2(sl1) + stream_bits(d, size, pos1, tmp as nat));
    assert(*cur as int == pos1 + tmp);
    let mut code = levelPrefix;
    if i == trailingOnes && trailingOnes < 3 {
        code = code + 2;
    }
    let mag = (code + 2) >> 1;
    assert((code + 2) as u32 >> 1u32 == (code + 2) as u32 / 2) by (bit_vector);
    if *sl == 0 {
        *sl = 1;
    }
    proof {
        lemma_pow2_strictly_increases_le((*sl - 1) as nat, 5);
        lemma2_to64();
        vstd::bits::lemma_u32_shl_is_mul(3u32, (*sl - 1) as u32);
    }
    if (mag > (3u32 << (*sl - 1))) && *sl < 6 {
        *sl = *sl + 1;
    }
    let lv: i32 = if code & 1 != 0 {
        -(mag as i32)
    } else {
        mag as i32
    };
    assert(code & 1u32 == code % 2) by (bit_vector);
    (HANTRO_OK, lv)
}

/// Decode the levels of coefficients `t1..tc` (after the trailing ones)
/// into `level`.
#[verifier::rlimit(40)]
fn decode_levels(
    s: &mut strmData_t,
    cacheBits: &mut u32,
    cur: &mut u32,
    level: &mut [i32; 16],
    suffixLength: u32,
    trailingOnes: u32,
    totalCoeff: u32,
) -> (r: u32)
    requires
        old(s).wf(),
        *old(cacheBits) <= 32,
        *old(cur) == old(s).strmBuffReadBits + 32 - *old(cacheBits),
        *old(cur) <= 0x8000_0100,
        trailingOnes <= totalCoeff <= 16,
        suffixLength <= 6,
    ensures
        final(s).wf(),
        final(s).same_stream(old(s)),
        ({
            let lf = levels_from(old(s).data(), old(s).size(), *old(cur) as int, suffixLength as nat,
                trailingOnes as nat, totalCoeff as nat, trailingOnes as nat);
            &&& r == HANTRO_OK ==> {
                &&& lf.0
                &&& *final(cur) == lf.2
                &&& *final(cacheBits) <= 32
                &&& *final(cur) == final(s).strmBuffReadBits + 32 - *final(cacheBits)
                &&& final(level)@.subrange(trailingOnes as int, totalCoeff as int) == lf.1
                &&& final(level)@.subrange(0, trailingOnes as int) == old(level)@.subrange(0, trailingOnes as int)
            }
            &&& r != HANTRO_OK ==> (!lf.0 || lf.2 > old(s).len_bits())
        }),
{
    let ghost s0 = *old(s);
    let ghost d = s0.data();
    let ghost size = s0.size();
    let ghost cur0 = *old(cur) as int;
    let ghost lf0 = levels_from(d, size, cur0, suffixLength as nat, trailingOnes as nat, totalCoeff as nat, trailingOnes as nat);
    let ghost level0 = level@;
    assert(level0.len() == 16);
    let mut sl = suffixLength;
    let mut i = trailingOnes;
    proof {
        lemma_levels_from(d, size, cur0, suffixLength as nat, trailingOnes as nat, totalCoeff as nat, trailingOnes as nat);
        assert(level@.subrange(trailingOnes as int, i as int) =~= Seq::<i32>::empty());
        assert(lf0.1 =~= level@.subrange(trailingOnes as int, i as int) + lf0.1);
    }
    while i < totalCoeff
        invariant
            s.wf(),
            s.same_stream(&s0),
            s0 == *old(s),
            cur0 == *old(cur),
            level0 == old(level)@,
            lf0 == levels_from(d, size, cur0, suffixLength as nat, trailingOnes as nat, totalCoeff as nat, trailingOnes as nat),
            d == s0.data(),
            size == s0.size(),
            *cacheBits <= 32,
            *cur == s.strmBuffReadBits + 32 - *cacheBits,
            trailingOnes <= i <= totalCoeff <= 16,
            sl <= 6,
            cur0 <= *cur <= cur0 + 29 * (i - trailingOnes),
            cur0 <= 0x8000_0100,
            ({
                let lfc = levels_from(d, size, *cur as int, sl as nat, i as nat, totalCoeff as nat, trailingOnes as nat);
                &&& lf0.0 == lfc.0
                &&& lf0.2 == lfc.2
                &&& lfc.0 ==> lf0.1 == level@.subrange(trailingOnes as int, i as int) + lfc.1
            }),
            level0.len() == 16,
            level@.subrange(0, trailingOnes as int) == level0.subrange(0, trailingOnes as int),
        decreases totalCoeff - i,
    {
        let ghost lfc = levels_from(d, size, *cur as int, sl as nat, i as nat, totalCoeff as nat, trailingOnes as nat);
        let ghost st = level_step(d, size, *cur as int, sl as nat, i as nat, trailingOnes as nat);
        proof {
            lemma_levels_from(d, size, *cur as int, sl as nat, i as nat, totalCoeff as nat, trailingOnes as nat);
            lemma_level_step(d, size, *cur as int, sl as nat, i as nat, trailingOnes as nat);
            if st.0 {
                lemma_levels_from(d, size, st.2, st.3, (i + 1) as nat, totalCoeff as nat, trailingOnes as nat);
            }
        }
        let (r, lv) = decode_level(s, cacheBits, cur, &mut sl, i, trailingOnes);
        if r != HANTRO_OK {
            return HANTRO_NOK;
        }
        level[i as usize] = lv;
        proof {
            let lfn = levels_from(d, size, *cur as int, sl as nat, (i + 1) as nat, totalCoeff as nat, trailingOnes as nat);
            assert(lfc.1 == seq![lv] + lfn.1);
            assert(level@.subrange(trailingOnes as int, (i + 1) as int) =~= level@.subrange(
                trailingOnes as int,
                i as int,
            ).push(lv));
            assert(level@.subrange(0, trailingOnes as int) =~= level0.subrange(0, trailingOnes as int));
        }
        i = i + 1;
        proof {
            let lfn = levels_from(d, size, *cur as int, sl as nat, i as nat, totalCoeff as nat, trailingOnes as nat);
            if lfn.0 {
                assert(lf0.1 =~= level@.subrange(trailingOnes as int, i as int) + lfn.1);
            }
        }
    }
    proof {
        assert(lf0.1 =~= level@.subrange(trailingOnes as int, totalCoeff as int));
    }
    HANTRO_OK
}

/// The first `n` runs of `run`, as numbers.
pub open spec fn run_seq(run: Seq<u32>, n: int) -> Seq<nat> {
    Seq::new(n as nat, |j: int| run[j] as nat)
}

/// Decode the runs before the first `n` levels (in decoding order) into
/// `run`, each one more than its run_before, and count down `zerosLeft`.
fn decode_runs(
    s: &mut strmData_t,
    cacheBits: &mut u32,
    cur: &mut u32,
    run: &mut [u32; 16],
    zerosLeft: &mut u32,
    n: u32,
) -> (r: u32)
    requires
        old(s).wf(),
        *old(cacheBits) <= 32,
        *old(cur) == old(s).strmBuffReadBits + 32 - *old(cacheBits),
        *old(cur) <= 0x8000_0400,
        n <= 15,
        *old(zerosLeft) <= 16,
    ensures
        final(s).wf(),
        final(s).same_stream(old(s)),
        ({
            let rs = runs_from(old(s).data(), old(s).size(), *old(cur) as int, *old(zerosLeft) as nat, 0, n as nat);
            &&& r == HANTRO_OK ==> {
                &&& rs.0
                &&& *final(cur) == rs.2
                &&& *final(zerosLeft) == rs.3
                &&& *final(cacheBits) <= 32
                &&& *final(cur) == final(s).strmBuffReadBits + 32 - *final(cacheBits)
                &&& run_seq(final(run)@, n as int) == rs.1
            }
            &&& r != HANTRO_OK ==> (!rs.0 || rs.2 > old(s).len_bits())
        }),
{
    let ghost s0 = *old(s);
    let ghost d = s0.data();
    let ghost size = s0.size();
    let ghost cur0 = *old(cur) as int;
    let ghost zl0 = *old(zerosLeft) as nat;
    let ghost rs0 = runs_from(d, size, cur0, zl0, 0, n as nat);
    let mut i: u32 = 0;
    proof {
        lemma_runs_from(d, size, cur0, zl0, 0, n as nat);
        assert(run_seq(run@, 0) =~= Seq::<nat>::empty());
        assert(rs0.1 =~= run_seq(run@, 0) + rs0.1);
    }
    while i < n
        invariant
            s.wf(),
            s.same_stream(&s0),
            s0 == *old(s),
            cur0 == *old(cur),
            zl0 == *old(zerosLeft),
            rs0 == runs_from(d, size, cur0, zl0, 0, n as nat),
            d == s0.data(),
            size == s0.size(),
            *cacheBits <= 32,
            *cur == s.strmBuffReadBits + 32 - *cacheBits,
            i <= n <= 15,
            *zerosLeft <= 16,
            cur0 <= *cur <= cur0 + 11 * i,
            cur0 <= 0x8000_0400,
            ({
                let rsc = runs_from(d, size, *cur as int, *zerosLeft as nat, i as nat, n as nat);
                &&& rs0.0 == rsc.0
                &&& rs0.2 == rsc.2
                &&& rs0.3 == rsc.3
                &&& rsc.0 ==> rs0.1 == run_seq(run@, i as int) + rsc.1
            }),
        decreases n - i,
    {
        let ghost rsc = runs_from(d, size, *cur as int, *zerosLeft as nat, i as nat, n as nat);
        let ghost st = run_step(d, size, *cur as int, *zerosLeft as nat);
        let ghost run_old = run@;
        proof {
            lemma_runs_from(d, size, *cur as int, *zerosLeft as nat, i as nat, n as nat);
        }
        if *zerosLeft > 0 {
            if cache_refill(s, cacheBits, *cur, 11) != HANTRO_OK {
                return HANTRO_NOK;
            }
            let bit = show_bits_at(s, *cur, 11);
            proof {
                lemma2_to64();
            }
            let tmp = DecodeRunBefore(bit, *zerosLeft);
            if tmp == 0 {
                return HANTRO_NOK;
            }
            let len = LENGTH(tmp);
            *cacheBits = *cacheBits - len;
            *cur = *cur + len;
            let info = INFO(tmp);
            *zerosLeft = *zerosLeft - info;
            run[i as usize] = info + 1;
        } else {
            run[i as usize] = 1;
        }
        proof {
            assert(st.0);
            assert(run@[i as int] as nat == st.1);
            assert(*cur as int == st.2);
            assert(*zerosLeft as nat == st.3);
            assert(run_seq(run@, (i + 1) as int) =~= run_seq(run_old, i as int).push(st.1));
            let rsn = runs_from(d, size, *cur as int, *zerosLeft as nat, (i + 1) as nat, n as nat);
            assert(rsc.1 == seq![st.1] + rsn.1);
            if rsn.0 {
                assert(rs0.1 =~= run_seq(run@, (i + 1) as int) + rsn.1);
            }
        }
        i = i + 1;
    }
    proof {
        assert(rs0.1 =~= run_seq(run@, n as int));
    }
    HANTRO_OK
}

/// Write the levels of the `t1` trailing ones, whose sign bits are `signs`.
fn trailing_one_levels(level: &mut [i32; 16], signs: u32, t1: u32)
    requires
        1 <= t1 <= 3,
    ensures
        final(level)@.subrange(0, t1 as int) == Seq::new(t1 as nat, |i: int| t1_level(signs as nat, t1 as nat, i as nat)),
{
    let mut i: u32 = 0;
    while i < t1
        invariant
            1 <= t1 <= 3,
            i <= t1,
            forall|j: int| 0 <= j < i ==> level@[j] == t1_level(signs as nat, t1 as nat, j as nat),
        decreases t1 - i,
    {
        let k: u32 = t1 - 1 - i;
        proof {
            lemma_bit_of(signs, k);
            assert(((signs & (1u32 << k)) != 0u32) == (((signs >> k) & 1u32) == 1u32)) by (bit_vector)
                requires
                    k < 32,
            ;
            assert((t1 - 1 - i) as nat == k as nat);
        }
        level[i as usize] = if signs & (1u32 << k) != 0 {
            -1
        } else {
            1
        };
        i = i + 1;
    }
    assert(level@.subrange(0, t1 as int) =~= Seq::new(t1 as nat, |i: int| t1_level(signs as nat, t1 as nat, i as nat)));
}

/// A bit above all set bits of `x` is added by an or.
proof fn lemma_or_high_bit(x: u32, t: u32)
    requires
        t < 32,
        (x as nat) < pow2(t as nat),
    ensures
        x | (1u32 << t) == x + pow2(t as nat),
        (1u32 << t) == pow2(t as nat),
{
    vstd::bits::lemma_u32_pow2_no_overflow(t as nat);
    vstd::bits::lemma_u32_shl_is_mul(1u32, t);
    assert(x < (1u32 << t) ==> x | (1u32 << t) == x + (1u32 << t)) by (bit_vector)
        requires
            t < 32,
    ;
}

/// Write the decoded levels of `b` to their positions in `coeffLevel`,
/// returning the bit map of those positions.
fn place_coeffs(
    coeffLevel: &mut [i32],
    level: &[i32; 16],
    run: &[u32; 16],
    zerosLeft: u32,
    totalCoeff: u32,
    Ghost(b): Ghost<CavlcBlock>,
) -> (map: u32)
    requires
        1 <= totalCoeff <= 16,
        b.totalCoeff == totalCoeff,
        b.levels == level@.subrange(0, totalCoeff as int),
        b.runs == run_seq(run@, totalCoeff - 1),
        b.zerosLeft == zerosLeft,
        forall|j: int| 0 <= j < b.runs.len() ==> b.runs[j] >= 1,
        place_pos(zerosLeft as nat, b.runs, 0) < old(coeffLevel)@.len(),
        place_pos(zerosLeft as nat, b.runs, 0) <= 15,
    ensures
        final(coeffLevel)@ == placed(old(coeffLevel)@, b, 0),
        final(coeffLevel)@.len() == old(coeffLevel)@.len(),
        map as nat == coeff_map(b, 0),
        map < 0x10000,
{
    let ghost c0 = coeffLevel@;
    let ghost runs = b.runs;
    let ghost zl = zerosLeft as nat;
    let mut i: u32 = totalCoeff - 1;
    let mut tmp: u32 = zerosLeft;
    proof {
        lemma_place_pos(zl, runs, i as int);
        lemma_place_pos(zl, runs, 0);
        assert(sum_from(runs, i as int) == 0);
        lemma_pow2_pos(tmp as nat);
        lemma_or_high_bit(0u32, tmp);
        lemma2_to64();
        assert(placed(c0, b, totalCoeff as int) == c0);
        assert(coeff_map(b, totalCoeff as int) == 0);
    }
    coeffLevel[tmp as usize] = level[(totalCoeff - 1) as usize];
    let mut map: u32 = 1u32 << tmp;
    while i != 0
        invariant
            1 <= totalCoeff <= 16,
            i < totalCoeff,
            b.totalCoeff == totalCoeff,
            b.levels == level@.subrange(0, totalCoeff as int),
            runs == b.runs,
            runs == run_seq(run@, totalCoeff - 1),
            zl == b.zerosLeft,
            forall|j: int| 0 <= j < runs.len() ==> runs[j] >= 1,
            place_pos(zl, runs, 0) < c0.len(),
            place_pos(zl, runs, 0) <= 15,
            coeffLevel@.len() == c0.len(),
            tmp as nat == place_pos(zl, runs, i as int),
            coeffLevel@ == placed(c0, b, i as int),
            map as nat == coeff_map(b, i as int),
            (map as nat) < pow2((tmp + 1) as nat),
        decreases i,
    {
        i = i - 1;
        proof {
            lemma_place_pos(zl, runs, i as int);
            lemma_place_pos(zl, runs, (i + 1) as int);
        }
        tmp = tmp + run[i as usize];
        proof {
            lemma_pow2_strictly_increases_le((tmp - run[i as int] + 1) as nat, tmp as nat);
            lemma_or_high_bit(map, tmp);
            vstd::arithmetic::power2::lemma_pow2_adds(tmp as nat, 1);
            lemma2_to64();
        }
        map = map | (1u32 << tmp);
        coeffLevel[tmp as usize] = level[i as usize];
    }
    proof {
        lemma_pow2_strictly_increases_le((tmp + 1) as nat, 16);
        lemma2_to64();
    }
    map
}

/// Read the sign bits of the trailing ones and the other levels of a block
/// of `totalCoeff` coefficients into `level`.
fn decode_block_levels(
    s: &mut strmData_t,
    cacheBits: &mut u32,
    cur: &mut u32,
    level: &mut [i32; 16],
    trailingOnes: u32,
    totalCoeff: u32,
) -> (r: u32)
    requires
        old(s).wf(),
        *old(cacheBits) <= 32,
        *old(cur) == old(s).strmBuffReadBits + 32 - *old(cacheBits),
        *old(cur) <= 0x8000_0010,
        trailingOnes <= 3,
        trailingOnes <= totalCoeff <= 16,
    ensures
        final(s).wf(),
        final(s).same_stream(old(s)),
        ({
            let lv = block_levels(old(s).data(), old(s).size(), *old(cur) as int, totalCoeff as nat, trailingOnes as nat);
            &&& *old(cur) <= lv.2 <= *old(cur) + 3 + 29 * 16
            &&& r == HANTRO_OK ==> {
                &&& lv.0
                &&& *final(cur) == lv.2
                &&& *final(cacheBits) <= 32
                &&& *final(cur) == final(s).strmBuffReadBits + 32 - *final(cacheBits)
                &&& final(level)@.subrange(0, totalCoeff as int) == lv.1
            }
            &&& r != HANTRO_OK ==> (!lv.0 || lv.2 > old(s).len_bits())
        }),
{
    let ghost d = old(s).data();
    let ghost size = old(s).size();
    let ghost p1 = *cur as int;
    let ghost s1 = stream_bits(d, size, p1, trailingOnes as nat);
    let ghost t1s = Seq::new(trailingOnes as nat, |i: int| t1_level(s1, trailingOnes as nat, i as nat));
    let suffixLength: u32 = if totalCoeff > 10 && trailingOnes < 3 {
        1
    } else {
        0
    };
    let ghost lv = levels_from(d, size, p1 + trailingOnes, suffixLength as nat, trailingOnes as nat,
        totalCoeff as nat, trailingOnes as nat);
    proof {
        lemma_levels_from(d, size, p1 + trailingOnes, suffixLength as nat, trailingOnes as nat, totalCoeff as nat,
            trailingOnes as nat);
    }
    /* nonzero coefficients: +/- 1 */
    if trailingOnes != 0 {
        if cache_refill(s, cacheBits, *cur, trailingOnes) != HANTRO_OK {
            return HANTRO_NOK;
        }
        let signs = show_bits_at(s, *cur, trailingOnes);
        *cacheBits = *cacheBits - trailingOnes;
        *cur = *cur + trailingOnes;
        trailing_one_levels(level, signs, trailingOnes);
    }
    assert(level@.subrange(0, trailingOnes as int) =~= t1s);
    /* other levels */
    if decode_levels(s, cacheBits, cur, level, suffixLength, trailingOnes, totalCoeff) != HANTRO_OK {
        return HANTRO_NOK;
    }
    assert(level@.subrange(0, totalCoeff as int) =~= t1s + lv.1);
    HANTRO_OK
}

/// Read total_zeros of a block of `totalCoeff` coefficients out of at most
/// `maxNumCoeff`; 0 without reading when the block is full.
fn decode_total_zeros(
    s: &mut strmData_t,
    cacheBits: &mut u32,
    cur: &mut u32,
    totalCoeff: u32,
    maxNumCoeff: u32,
) -> (r: (u32, u32))
    requires
        old(s).wf(),
        *old(cacheBits) <= 32,
        *old(cur) == old(s).strmBuffReadBits + 32 - *old(cacheBits),
        *old(cur) <= 0x8000_0300,
        maxNumCoeff == 4 || maxNumCoeff == 15 || maxNumCoeff == 16,
        1 <= totalCoeff <= maxNumCoeff,
    ensures
        final(s).wf(),
        final(s).same_stream(old(s)),
        ({
            let tz = block_total_zeros(old(s).data(), old(s).size(), *old(cur) as int, totalCoeff as nat,
                maxNumCoeff as nat);
            &&& *old(cur) <= tz.2 <= *old(cur) + 15
            &&& r.0 == HANTRO_OK ==> {
                &&& tz.0
                &&& r.1 == tz.1
                &&& r.1 + totalCoeff <= 16
                &&& *final(cur) == tz.2
                &&& *final(cacheBits) <= 32
                &&& *final(cur) == final(s).strmBuffReadBits + 32 - *final(cacheBits)
            }
            &&& r.0 != HANTRO_OK ==> (!tz.0 || tz.2 > old(s).len_bits())
        }),
{
    if totalCoeff < maxNumCoeff {
        if cache_refill(s, cacheBits, *cur, 9) != HANTRO_OK {
            return (HANTRO_NOK, 0);
        }
        let bits = show_bits_at(s, *cur, 9);
        proof {
            lemma2_to64();
        }
        let chroma: u32 = if maxNumCoeff == 4 {
            1
        } else {
            0
        };
        let tz = DecodeTotalZeros(bits, totalCoeff, chroma);
        if tz == 0 {
            return (HANTRO_NOK, 0);
        }
        let l = LENGTH(tz);
        *cacheBits = *cacheBits - l;
        *cur = *cur + l;
        (HANTRO_OK, INFO(tz))
    } else {
        (HANTRO_OK, 0)
    }
}

/// Decode one residual_block_cavlc() syntax structure of at most
/// `maxNumCoeff` coefficients (4 for chroma DC, 15 for AC blocks, 16
/// otherwise) with the predicted number of coefficients `nc` (-1 for chroma
/// DC), writing each coefficient level to its position in `coeffLevel`.
///
/// Returns the number of non-zero coefficients in bits 4-8 and the bit map
/// of their positions in bits 16-31; HANTRO_NOK when the block cannot be
/// decoded or runs past the end of the stream.
#[verifier::rlimit(40)]
pub fn h264bsdDecodeResidualBlockCavlc(
    pStrmData: &mut strmData_t,
    coeffLevel: &mut [i32],
    nc: i32,
    maxNumCoeff: u32,
) -> (r: u32)
    requires
        can_parse(old(pStrmData)),
        maxNumCoeff == 4 || maxNumCoeff == 15 || maxNumCoeff == 16,
        old(coeffLevel)@.len() >= maxNumCoeff,
    ensures
        final(pStrmData).wf(),
        final(pStrmData).same_stream(old(pStrmData)),
        final(coeffLevel)@.len() == old(coeffLevel)@.len(),
        ({
            let b = cavlc_block(old(pStrmData).data(), old(pStrmData).size(), old(pStrmData).pos(), nc as u32,
                maxNumCoeff as nat);
            if b.ok && b.end <= old(pStrmData).len_bits() {
                &&& r as int == 16 * b.totalCoeff + 65536 * coeff_map(b, 0)
                &&& final(pStrmData).pos() == b.end
                &&& final(coeffLevel)@ == placed(old(coeffLevel)@, b, 0)
            } else {
                r == HANTRO_NOK
            }
        }),
{
    let ghost s0 = *old(pStrmData);
    let ghost d = s0.data();
    let ghost size = s0.size();
    let ghost p0 = s0.pos();
    let ghost b = cavlc_block(d, size, p0, nc as u32, maxNumCoeff as nat);
    let ghost c0 = coeffLevel@;
    let mut cacheBits: u32 = 32;
    let mut cur: u32 = pStrmData.strmBuffReadBits;
    let mut level: [i32; 16] = [0; 16];
    let mut run: [u32; 16] = [0; 16];

    let bit = show_bits_at(pStrmData, cur, 16);
    proof {
        lemma2_to64();
    }
    let tok = DecodeCoeffToken(bit, nc as u32);
    if tok == 0 {
        return HANTRO_NOK;
    }
    let len = LENGTH_TC(tok);
    cacheBits = cacheBits - len;
    cur = cur + len;
    let totalCoeff = TOTAL_COEFF(tok);
    if totalCoeff > maxNumCoeff {
        return HANTRO_NOK;
    }
    let trailingOnes = TRAILING_ONES(tok);
    let ghost p1 = cur as int;
    let mut coeffMap: u32 = 0;
    if totalCoeff != 0 {
        let ghost lv = block_levels(d, size, p1, totalCoeff as nat, trailingOnes as nat);
        let ghost tz = block_total_zeros(d, size, lv.2, totalCoeff as nat, maxNumCoeff as nat);
        let ghost rs = runs_from(d, size, tz.2, tz.1, 0, (totalCoeff - 1) as nat);
        proof {
            lemma_runs_from(d, size, tz.2, tz.1, 0, (totalCoeff - 1) as nat);
            assert(tz.2 >= lv.2);
            assert(b.end == rs.2);
            assert(b.ok == (lv.0 && tz.0 && tz.1 + totalCoeff <= maxNumCoeff && rs.0));
        }
        if decode_block_levels(pStrmData, &mut cacheBits, &mut cur, &mut level, trailingOnes, totalCoeff)
            != HANTRO_OK {
            return HANTRO_NOK;
        }
        let (rz, zl) = decode_total_zeros(pStrmData, &mut cacheBits, &mut cur, totalCoeff, maxNumCoeff);
        if rz != HANTRO_OK {
            return HANTRO_NOK;
        }
        let mut zerosLeft = zl;
        /* total_zeros never exceeds the coefficients that the block lacks */
        if zerosLeft + totalCoeff > maxNumCoeff {
            return HANTRO_NOK;
        }
        if decode_runs(pStrmData, &mut cacheBits, &mut cur, &mut run, &mut zerosLeft, totalCoeff - 1)
            != HANTRO_OK {
            return HANTRO_NOK;
        }
        proof {
            assert(b.ok);
            lemma_place_pos(zerosLeft as nat, b.runs, 0);
        }
        coeffMap = place_coeffs(coeffLevel, &level, &run, zerosLeft, totalCoeff, Ghost(b));
    }
    if h264bsdFlushBits(pStrmData, 32 - cacheBits) != HANTRO_OK {
        return HANTRO_NOK;
    }
    assert((totalCoeff << 4u32) | (coeffMap << 16u32) == totalCoeff * 16 + coeffMap * 65536) by (bit_vector)
        requires
            totalCoeff <= 16,
            coeffMap < 0x10000,
    ;
    (totalCoeff << 4) | (coeffMap << 16)
}


/// The level after the trailing ones (coefficient `t1` of a block of `tc`
/// coefficients) when the stream there holds the bits 1, 1: level_prefix
/// is 0 and the level decoding starts with suffix length 1 exactly when
/// the block has more than ten coefficients and fewer than three trailing
/// ones (H.264 9.2.2.1). With suffix length 0 no suffix is read and the
/// level is +1, or +2 when fewer than three trailing ones raise it; with
/// suffix length 1 the suffix bit 1 makes it -2.
pub proof fn lemma_first_level_suffix_length(d: Seq<u8>, size: nat, p1: int, tc: nat, t1: nat)
    requires
        t1 <= 3,
        t1 < tc <= 16,
        stream_bit(d, size, p1 + t1) == 1,
        stream_bit(d, size, p1 + t1 + 1) == 1,
        block_levels(d, size, p1, tc, t1).0,
    ensures
        block_levels(d, size, p1, tc, t1).1[t1 as int] == if tc > 10 && t1 < 3 {
            -2i32
        } else if t1 < 3 {
            2i32
        } else {
            1i32
        },
{
    let pos = p1 + t1;
    let sl = initial_suffix_length(tc, t1);
    let lv = levels_from(d, size, pos, sl, t1, tc, t1);
    let st = level_step(d, size, pos, sl, t1, t1);
    let w = stream_bits(d, size, pos, 16);
    lemma_stream_bits_first(d, size, pos, 16);
    lemma_stream_bits_bound(d, size, pos + 1, 15);
    lemma_pow2_pos(15);
    lemma_leading_zeros_stream(d, size, pos, 16);
    assert(stream_zeros(d, size, pos, 16) == 0);
    assert(w != 0);
    assert(stream_bits(d, size, pos + 1, 1) == 1) by {
        assert(stream_bits(d, size, pos + 1, 0) == 0);
    }
    assert(stream_bits(d, size, pos + 1, 0) == 0);
    lemma2_to64();
    assert(st.0);
    assert(lv.1[0] == st.1);
    assert(block_levels(d, size, p1, tc, t1).1[t1 as int] == lv.1[0]);
}


/// Is coeff_token `v` the code word of TotalCoeff 0 (and no trailing
/// ones) of length `len`?
pub open spec fn no_coeff_token(v: nat, len: nat) -> bool {
    tc_total_coeff(v) == 0 && tc_trailing_ones(v) == 0 && tc_length(v) == len
}

/// coeff_token table selection (H.264 9.2.1): the table follows the range
/// of nC, 0 <= nC < 2, 2 <= nC < 4, 4 <= nC < 8, 8 <= nC, and -1 for chroma
/// DC (held as 2^32 - 1), every nC of a range decoding alike; each table
/// codes TotalCoeff 0 with its own shortest word: 1 (nC < 2), 11
/// (2 <= nC < 4), 1111 (4 <= nC < 8), 000011 (nC >= 8), 01 (nC = -1).
pub proof fn lemma_coeff_token_tables(bits: nat, nc: u32)
    requires
        bits < 0x10000,
    ensures
        nc < 2 ==> coeff_token_vlc(bits, nc) == coeff_token_vlc(bits, 0),
        2 <= nc < 4 ==> coeff_token_vlc(bits, nc) == coeff_token_vlc(bits, 2),
        4 <= nc < 8 ==> coeff_token_vlc(bits, nc) == coeff_token_vlc(bits, 4),
        8 <= nc <= 16 ==> coeff_token_vlc(bits, nc) == coeff_token_vlc(bits, 8),
        bits >= 0x8000 ==> no_coeff_token(coeff_token_vlc(bits, 0), 1),
        bits >= 0xC000 ==> no_coeff_token(coeff_token_vlc(bits, 2), 2),
        bits >= 0xF000 ==> no_coeff_token(coeff_token_vlc(bits, 4), 4),
        0x0C00 <= bits < 0x1000 ==> no_coeff_token(coeff_token_vlc(bits, 8), 6),
        0x4000 <= bits < 0x8000 ==> no_coeff_token(coeff_token_vlc(bits, u32::MAX), 2),
{
    if bits >= 0xC000 {
        assert((bits / 0x4000) % 2 == 1);
    }
    if bits >= 0xF000 {
        assert(60 <= bits / 1024 < 64);
        assert(coeffToken4_0@[(bits / 1024) as int] == 4);
    }
    if 0x0C00 <= bits < 0x1000 {
        assert(bits / 1024 == 3);
    }
    if 0x4000 <= bits < 0x8000 {
        assert(2 <= bits / 8192 < 4);
        assert(coeffTokenMinus1_0@[(bits / 8192) as int] == 2);
    }
}

} // verus!
