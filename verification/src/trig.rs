//! Angles, and the sine table both targets share.
//!
//! An angle is a `u16` covering one full turn, so it wraps for free on
//! overflow and there is never a range reduction to get wrong.  The table
//! has 1024 entries: entry `i` is `sin(i * 2 pi / 1024)` in Q16.16, rounded
//! to the nearest unit.
use vstd::prelude::*;
use crate::fixed::Fx;

verus! {

/// One full turn.  `Ang` is deliberately `u16`: it wraps.
pub type Ang = u16;

/// Quarter turn.
pub const QUARTER: Ang = 0x4000;
/// Half turn.
pub const HALF: Ang = 0x8000;

/// Entries in the host sine table.
pub const TRIG_LEN: usize = 1024;

/// The shared sine table.
pub const SIN_TABLE: [Fx; 1024] = [
    0, 402, 804, 1206, 1608, 2010, 2412, 2814, 3216, 3617, 4019, 4420, 4821, 5222, 5623, 6023,
    6424, 6824, 7224, 7623, 8022, 8421, 8820, 9218, 9616, 10014, 10411, 10808, 11204, 11600, 11996, 12391,
    12785, 13180, 13573, 13966, 14359, 14751, 15143, 15534, 15924, 16314, 16703, 17091, 17479, 17867, 18253, 18639,
    19024, 19409, 19792, 20175, 20557, 20939, 21320, 21699, 22078, 22457, 22834, 23210, 23586, 23961, 24335, 24708,
    25080, 25451, 25821, 26190, 26558, 26925, 27291, 27656, 28020, 28383, 28745, 29106, 29466, 29824, 30182, 30538,
    30893, 31248, 31600, 31952, 32303, 32652, 33000, 33347, 33692, 34037, 34380, 34721, 35062, 35401, 35738, 36075,
    36410, 36744, 37076, 37407, 37736, 38064, 38391, 38716, 39040, 39362, 39683, 40002, 40320, 40636, 40951, 41264,
    41576, 41886, 42194, 42501, 42806, 43110, 43412, 43713, 44011, 44308, 44604, 44898, 45190, 45480, 45769, 46056,
    46341, 46624, 46906, 47186, 47464, 47741, 48015, 48288, 48559, 48828, 49095, 49361, 49624, 49886, 50146, 50404,
    50660, 50914, 51166, 51417, 51665, 51911, 52156, 52398, 52639, 52878, 53114, 53349, 53581, 53812, 54040, 54267,
    54491, 54714, 54934, 55152, 55368, 55582, 55794, 56004, 56212, 56418, 56621, 56823, 57022, 57219, 57414, 57607,
    57798, 57986, 58172, 58356, 58538, 58718, 58896, 59071, 59244, 59415, 59583, 59750, 59914, 60075, 60235, 60392,
    60547, 60700, 60851, 60999, 61145, 61288, 61429, 61568, 61705, 61839, 61971, 62101, 62228, 62353, 62476, 62596,
    62714, 62830, 62943, 63054, 63162, 63268, 63372, 63473, 63572, 63668, 63763, 63854, 63944, 64031, 64115, 64197,
    64277, 64354, 64429, 64501, 64571, 64639, 64704, 64766, 64827, 64884, 64940, 64993, 65043, 65091, 65137, 65180,
    65220, 65259, 65294, 65328, 65358, 65387, 65413, 65436, 65457, 65476, 65492, 65505, 65516, 65525, 65531, 65535,
    65536, 65535, 65531, 65525, 65516, 65505, 65492, 65476, 65457, 65436, 65413, 65387, 65358, 65328, 65294, 65259,
    65220, 65180, 65137, 65091, 65043, 64993, 64940, 64884, 64827, 64766, 64704, 64639, 64571, 64501, 64429, 64354,
    64277, 64197, 64115, 64031, 63944, 63854, 63763, 63668, 63572, 63473, 63372, 63268, 63162, 63054, 62943, 62830,
    62714, 62596, 62476, 62353, 62228, 62101, 61971, 61839, 61705, 61568, 61429, 61288, 61145, 60999, 60851, 60700,
    60547, 60392, 60235, 60075, 59914, 59750, 59583, 59415, 59244, 59071, 58896, 58718, 58538, 58356, 58172, 57986,
    57798, 57607, 57414, 57219, 57022, 56823, 56621, 56418, 56212, 56004, 55794, 55582, 55368, 55152, 54934, 54714,
    54491, 54267, 54040, 53812, 53581, 53349, 53114, 52878, 52639, 52398, 52156, 51911, 51665, 51417, 51166, 50914,
    50660, 50404, 50146, 49886, 49624, 49361, 49095, 48828, 48559, 48288, 48015, 47741, 47464, 47186, 46906, 46624,
    46341, 46056, 45769, 45480, 45190, 44898, 44604, 44308, 44011, 43713, 43412, 43110, 42806, 42501, 42194, 41886,
    41576, 41264, 40951, 40636, 40320, 40002, 39683, 39362, 39040, 38716, 38391, 38064, 37736, 37407, 37076, 36744,
    36410, 36075, 35738, 35401, 35062, 34721, 34380, 34037, 33692, 33347, 33000, 32652, 32303, 31952, 31600, 31248,
    30893, 30538, 30182, 29824, 29466, 29106, 28745, 28383, 28020, 27656, 27291, 26925, 26558, 26190, 25821, 25451,
    25080, 24708, 24335, 23961, 23586, 23210, 22834, 22457, 22078, 21699, 21320, 20939, 20557, 20175, 19792, 19409,
    19024, 18639, 18253, 17867, 17479, 17091, 16703, 16314, 15924, 15534, 15143, 14751, 14359, 13966, 13573, 13180,
    12785, 12391, 11996, 11600, 11204, 10808, 10411, 10014, 9616, 9218, 8820, 8421, 8022, 7623, 7224, 6824,
    6424, 6023, 5623, 5222, 4821, 4420, 4019, 3617, 3216, 2814, 2412, 2010, 1608, 1206, 804, 402,
    0, -402, -804, -1206, -1608, -2010, -2412, -2814, -3216, -3617, -4019, -4420, -4821, -5222, -5623, -6023,
    -6424, -6824, -7224, -7623, -8022, -8421, -8820, -9218, -9616, -10014, -10411, -10808, -11204, -11600, -11996, -12391,
    -12785, -13180, -13573, -13966, -14359, -14751, -15143, -15534, -15924, -16314, -16703, -17091, -17479, -17867, -18253, -18639,
    -19024, -19409, -19792, -20175, -20557, -20939, -21320, -21699, -22078, -22457, -22834, -23210, -23586, -23961, -24335, -24708,
    -25080, -25451, -25821, -26190, -26558, -26925, -27291, -27656, -28020, -28383, -28745, -29106, -29466, -29824, -30182, -30538,
    -30893, -31248, -31600, -31952, -32303, -32652, -33000, -33347, -33692, -34037, -34380, -34721, -35062, -35401, -35738, -36075,
    -36410, -36744, -37076, -37407, -37736, -38064, -38391, -38716, -39040, -39362, -39683, -40002, -40320, -40636, -40951, -41264,
    -41576, -41886, -42194, -42501, -42806, -43110, -43412, -43713, -44011, -44308, -44604, -44898, -45190, -45480, -45769, -46056,
    -46341, -46624, -46906, -47186, -47464, -47741, -48015, -48288, -48559, -48828, -49095, -49361, -49624, -49886, -50146, -50404,
    -50660, -50914, -51166, -51417, -51665, -51911, -52156, -52398, -52639, -52878, -53114, -53349, -53581, -53812, -54040, -54267,
    -54491, -54714, -54934, -55152, -55368, -55582, -55794, -56004, -56212, -56418, -56621, -56823, -57022, -57219, -57414, -57607,
    -57798, -57986, -58172, -58356, -58538, -58718, -58896, -59071, -59244, -59415, -59583, -59750, -59914, -60075, -60235, -60392,
    -60547, -60700, -60851, -60999, -61145, -61288, -61429, -61568, -61705, -61839, -61971, -62101, -62228, -62353, -62476, -62596,
    -62714, -62830, -62943, -63054, -63162, -63268, -63372, -63473, -63572, -63668, -63763, -63854, -63944, -64031, -64115, -64197,
    -64277, -64354, -64429, -64501, -64571, -64639, -64704, -64766, -64827, -64884, -64940, -64993, -65043, -65091, -65137, -65180,
    -65220, -65259, -65294, -65328, -65358, -65387, -65413, -65436, -65457, -65476, -65492, -65505, -65516, -65525, -65531, -65535,
    -65536, -65535, -65531, -65525, -65516, -65505, -65492, -65476, -65457, -65436, -65413, -65387, -65358, -65328, -65294, -65259,
    -65220, -65180, -65137, -65091, -65043, -64993, -64940, -64884, -64827, -64766, -64704, -64639, -64571, -64501, -64429, -64354,
    -64277, -64197, -64115, -64031, -63944, -63854, -63763, -63668, -63572, -63473, -63372, -63268, -63162, -63054, -62943, -62830,
    -62714, -62596, -62476, -62353, -62228, -62101, -61971, -61839, -61705, -61568, -61429, -61288, -61145, -60999, -60851, -60700,
    -60547, -60392, -60235, -60075, -59914, -59750, -59583, -59415, -59244, -59071, -58896, -58718, -58538, -58356, -58172, -57986,
    -57798, -57607, -57414, -57219, -57022, -56823, -56621, -56418, -56212, -56004, -55794, -55582, -55368, -55152, -54934, -54714,
    -54491, -54267, -54040, -53812, -53581, -53349, -53114, -52878, -52639, -52398, -52156, -51911, -51665, -51417, -51166, -50914,
    -50660, -50404, -50146, -49886, -49624, -49361, -49095, -48828, -48559, -48288, -48015, -47741, -47464, -47186, -46906, -46624,
    -46341, -46056, -45769, -45480, -45190, -44898, -44604, -44308, -44011, -43713, -43412, -43110, -42806, -42501, -42194, -41886,
    -41576, -41264, -40951, -40636, -40320, -40002, -39683, -39362, -39040, -38716, -38391, -38064, -37736, -37407, -37076, -36744,
    -36410, -36075, -35738, -35401, -35062, -34721, -34380, -34037, -33692, -33347, -33000, -32652, -32303, -31952, -31600, -31248,
    -30893, -30538, -30182, -29824, -29466, -29106, -28745, -28383, -28020, -27656, -27291, -26925, -26558, -26190, -25821, -25451,
    -25080, -24708, -24335, -23961, -23586, -23210, -22834, -22457, -22078, -21699, -21320, -20939, -20557, -20175, -19792, -19409,
    -19024, -18639, -18253, -17867, -17479, -17091, -16703, -16314, -15924, -15534, -15143, -14751, -14359, -13966, -13573, -13180,
    -12785, -12391, -11996, -11600, -11204, -10808, -10411, -10014, -9616, -9218, -8820, -8421, -8022, -7623, -7224, -6824,
    -6424, -6023, -5623, -5222, -4821, -4420, -4019, -3617, -3216, -2814, -2412, -2010, -1608, -1206, -804, -402,
];

/// The table entry an angle reads: the top ten bits of it.
pub closed spec fn sin_of(a: Ang) -> Fx {
    SIN_TABLE[(a >> 6u16) as int]
}

/// The sine of an angle is the table entry its top ten bits select.
pub proof fn lemma_sin_entry(a: Ang)
    ensures
        sin_of(a) == SIN_TABLE[(a >> 6u16) as int],
{
}

/// The shared sine table.
pub fn sin_table() -> (t: &'static [Fx; 1024])
    ensures
        t@ == SIN_TABLE@,
{
    &SIN_TABLE
}

/// Sine of an angle.
pub fn sin(a: Ang) -> (r: Fx)
    ensures
        r == sin_of(a),
{
    let i: u16 = a >> 6u16;
    assert(i < 1024) by (bit_vector)
        requires
            i == a >> 6u16,
    ;
    SIN_TABLE[i as usize]
}

/// The value of [`cos`]: the sine a quarter turn on.
pub open spec fn cos_of(a: Ang) -> Fx {
    sin_of(((a + QUARTER) % 65536) as Ang)
}

/// Cosine of an angle.
pub fn cos(a: Ang) -> (r: Fx)
    ensures
        r == cos_of(a),
{
    sin(a.wrapping_add(QUARTER))
}

/// Every angle has a sine or a cosine of at least `46341 / 65536`, just
/// over `sqrt(1/2)`: the table entries between an eighth and three eighths
/// of a turn, and between five and seven eighths, are all at least that
/// far from zero.
pub proof fn lemma_major_component(a: Ang)
    ensures
        sin_of(a) >= 46341 || sin_of(a) <= -46341 || cos_of(a) >= 46341 || cos_of(a) <= -46341,
{
    assert(forall|i: int| 128 <= i <= 384 ==> #[trigger] SIN_TABLE[i] >= 46341);
    assert(forall|i: int| 640 <= i <= 896 ==> #[trigger] SIN_TABLE[i] <= -46341);
    let iu: u16 = a >> 6u16;
    let b = ((a + QUARTER) % 65536) as Ang;
    let ju: u16 = b >> 6u16;
    assert(iu == a / 64) by (bit_vector)
        requires
            iu == a >> 6u16,
    ;
    assert(ju == b / 64) by (bit_vector)
        requires
            ju == b >> 6u16,
    ;
    let i = iu as int;
    let j = ju as int;
    assert(0 <= i < 1024);
    if 128 <= i <= 384 {
        assert(SIN_TABLE[i] >= 46341);
    } else if 640 <= i <= 896 {
        assert(SIN_TABLE[i] <= -46341);
    } else if i < 128 {
        assert(256 <= j < 384);
        assert(SIN_TABLE[j] >= 46341);
    } else if 384 < i < 640 {
        assert(640 <= j < 896);
        assert(SIN_TABLE[j] <= -46341);
    } else {
        assert(128 <= j < 256);
        assert(SIN_TABLE[j] >= 46341);
    }
}

/// Every table entry is within one unit of the circle's radius.
pub proof fn lemma_table_bounds(a: Ang)
    ensures
        -65536 <= sin_of(a) <= 65536,
        -65536 <= cos_of(a) <= 65536,
{
    assert(forall|i: int| 0 <= i < 1024 ==> -65536 <= #[trigger] SIN_TABLE[i] <= 65536);
    let iu: u16 = a >> 6u16;
    let b = ((a + QUARTER) % 65536) as Ang;
    let ju: u16 = b >> 6u16;
    assert(iu < 1024) by (bit_vector)
        requires
            iu == a >> 6u16,
    ;
    assert(ju < 1024) by (bit_vector)
        requires
            ju == b >> 6u16,
    ;
}

/// The sine reads only the top ten bits of an angle, and the cosine is the
/// sine a quarter turn on; the cardinal points are exact to a unit.
pub proof fn lemma_sine_table_shape(a: Ang)
    ensures
        sin_of(a) == sin_of(a & 0xffc0u16),
        cos_of(a) == sin_of(a.wrapping_add(QUARTER)),
        sin_of(0) == 0,
        65535 <= sin_of(QUARTER) <= 65537,
        -64 <= sin_of(HALF) <= 64,
        -65537 <= sin_of((HALF + QUARTER) as Ang) <= -65535,
{
    assert((a & 0xffc0u16) >> 6u16 == a >> 6u16 && (0u16 >> 6u16) == 0 && (0x4000u16 >> 6u16) == 256
        && (0x8000u16 >> 6u16) == 512 && (0xc000u16 >> 6u16) == 768) by (bit_vector);
}

/// An angle difference read as signed: the shorter way round, negative
/// anticlockwise.
pub open spec fn signed_of(d: Ang) -> int {
    if d >= 32768 { d - 65536 } else { d as int }
}

/// Reinterpreting an angle as a signed 16-bit number reads it the shorter
/// way round.
pub proof fn lemma_signed(d: Ang)
    ensures
        (d as i16) as int == signed_of(d),
{
    assert((d as i16) as int == signed_of(d)) by (bit_vector);
}

/// Turning an angle by a signed amount wraps round the circle.
pub proof fn lemma_turn(a: Ang, q: i32)
    ensures
        a.wrapping_add(q as Ang) as int == (a as int + q as int) % 65536,
{
    let r = a.wrapping_add(q as Ang);
    assert(r as int == (a as int + q as int) % 65536) by (bit_vector)
        requires r == a.wrapping_add(q as Ang);
}

} // verus!
