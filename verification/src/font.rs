//! The procedural block font.
//!
//! A glyph is an 8x8 bitmap produced by a function - a dither level, a
//! quadrant mask, a half-plane, a window bay - and the catalogue is that
//! function evaluated over its parameters.  A bitmap is `[u8; 8]`, one byte
//! per row, bit 7 leftmost, which is the order the TED reads a character
//! definition.
use vstd::prelude::*;

verus! {

/// An 8x8 glyph bitmap, one byte per row, MSB leftmost.
pub type Bitmap = [u8; 8];

/// An empty cell.
pub const BLANK: Bitmap = [0, 0, 0, 0, 0, 0, 0, 0];
/// A full cell.
pub const SOLID: Bitmap = [0xff, 0xff, 0xff, 0xff, 0xff, 0xff, 0xff, 0xff];

/// Whether bit `x` (counting from the left) of a row is set.
pub open spec fn bit(row: u8, x: int) -> bool {
    0 <= x < 8 && (row & (0x80u8 >> (x as u8))) != 0
}

/// Whether pixel `(x, y)` of a bitmap is set.  Nothing outside the cell is.
pub open spec fn px(bm: Bitmap, x: int, y: int) -> bool {
    0 <= y < 8 && bit(bm[y], x)
}

/// Setting one bit of a row sets that bit and leaves the other seven.
proof fn lemma_bit_or(row: u8, x: u8)
    requires
        x < 8,
    ensures
        forall|i: int| 0 <= i < 8 ==> #[trigger] bit(row | (0x80u8 >> x), i) == (bit(row, i) || i == x),
{
    assert forall|i: int| 0 <= i < 8 implies #[trigger] bit(row | (0x80u8 >> x), i) == (bit(row, i) || i == x) by {
        let iu = i as u8;
        assert(((row | (0x80u8 >> x)) & (0x80u8 >> iu)) != 0 <==> ((row & (0x80u8 >> iu)) != 0 || iu == x))
            by (bit_vector)
            requires
                x < 8,
                iu < 8,
        ;
    }
}

/// Two rows with the same eight bits are the same row.
pub proof fn lemma_row_ext(a: u8, b: u8)
    requires
        forall|i: int| 0 <= i < 8 ==> bit(a, i) == bit(b, i),
    ensures
        a == b,
{
    assert(bit(a, 0) == bit(b, 0));
    assert(bit(a, 1) == bit(b, 1));
    assert(bit(a, 2) == bit(b, 2));
    assert(bit(a, 3) == bit(b, 3));
    assert(bit(a, 4) == bit(b, 4));
    assert(bit(a, 5) == bit(b, 5));
    assert(bit(a, 6) == bit(b, 6));
    assert(bit(a, 7) == bit(b, 7));
    assert(
        ((a & (0x80u8 >> 0u8)) != 0) == ((b & (0x80u8 >> 0u8)) != 0)
        && ((a & (0x80u8 >> 1u8)) != 0) == ((b & (0x80u8 >> 1u8)) != 0)
        && ((a & (0x80u8 >> 2u8)) != 0) == ((b & (0x80u8 >> 2u8)) != 0)
        && ((a & (0x80u8 >> 3u8)) != 0) == ((b & (0x80u8 >> 3u8)) != 0)
        && ((a & (0x80u8 >> 4u8)) != 0) == ((b & (0x80u8 >> 4u8)) != 0)
        && ((a & (0x80u8 >> 5u8)) != 0) == ((b & (0x80u8 >> 5u8)) != 0)
        && ((a & (0x80u8 >> 6u8)) != 0) == ((b & (0x80u8 >> 6u8)) != 0)
        && ((a & (0x80u8 >> 7u8)) != 0) == ((b & (0x80u8 >> 7u8)) != 0) ==> a == b
    ) by (bit_vector);
}

/// Two bitmaps with the same pixels are the same bitmap.
pub proof fn lemma_bitmap_ext(a: Bitmap, b: Bitmap)
    requires
        forall|x: int, y: int| 0 <= x < 8 && 0 <= y < 8 ==> px(a, x, y) == px(b, x, y),
    ensures
        a == b,
{
    assert forall|y: int| 0 <= y < 8 implies a[y] == b[y] by {
        assert forall|i: int| 0 <= i < 8 implies bit(a[y], i) == bit(b[y], i) by {
            assert(px(a, i, y) == px(b, i, y));
        }
        lemma_row_ext(a[y], b[y]);
    }
    assert(a@ =~= b@);
}

/// Set one pixel of a bitmap.  Anything off the cell is ignored.
pub fn set_px(bm: &mut Bitmap, x: u32, y: u32)
    ensures
        forall|i: int, j: int| #[trigger] px(*final(bm), i, j) == (px(*old(bm), i, j) || (x < 8 && y < 8 && i == x && j == y)),
{
    if x < 8 && y < 8 {
        let xb = x as u8;
        let row = bm[y as usize];
        proof {
            lemma_bit_or(row, xb);
        }
        bm[y as usize] = row | (0x80u8 >> xb);
        proof {
            assert forall|i: int, j: int| #[trigger] px(*bm, i, j) == (px(*old(bm), i, j) || (x < 8 && y < 8 && i == x && j == y)) by {
                if 0 <= j < 8 && j != y {
                    assert(bm[j] == old(bm)[j]);
                }
            }
        }
    }
}

/// Read one pixel of a bitmap.
pub fn get_px(bm: &Bitmap, x: u32, y: u32) -> (r: bool)
    ensures
        r == px(*bm, x as int, y as int),
{
    x < 8 && y < 8 && bm[y as usize] & (0x80u8 >> (x as u8)) != 0
}

/// The blank bitmap has no pixel set.
pub proof fn lemma_blank()
    ensures
        forall|i: int, j: int| !#[trigger] px(BLANK, i, j),
{
    assert forall|i: int, j: int| !#[trigger] px(BLANK, i, j) by {
        if 0 <= i < 8 && 0 <= j < 8 {
            let iu = i as u8;
            assert((0u8 & (0x80u8 >> iu)) == 0) by (bit_vector);
        }
    }
}

/// The solid bitmap has every pixel of the cell set.
pub proof fn lemma_solid()
    ensures
        forall|i: int, j: int| #[trigger] px(SOLID, i, j) == in_cell(i, j),
{
    assert forall|i: int, j: int| #[trigger] px(SOLID, i, j) == in_cell(i, j) by {
        if 0 <= i < 8 && 0 <= j < 8 {
            let iu = i as u8;
            assert(iu < 8 ==> (0xffu8 & (0x80u8 >> iu)) != 0) by (bit_vector);
        }
    }
}

/// The classic 8x8 ordered-dither threshold matrix.
pub const BAYER8: [[u8; 8]; 8] = [
    [0, 32, 8, 40, 2, 34, 10, 42],
    [48, 16, 56, 24, 50, 18, 58, 26],
    [12, 44, 4, 36, 14, 46, 6, 38],
    [60, 28, 52, 20, 62, 30, 54, 22],
    [3, 35, 11, 43, 1, 33, 9, 41],
    [51, 19, 59, 27, 49, 17, 57, 25],
    [15, 47, 7, 39, 13, 45, 5, 37],
    [63, 31, 55, 23, 61, 29, 53, 21],
];

/// Whether `(i, j)` is a pixel of the cell.
pub open spec fn in_cell(i: int, j: int) -> bool {
    0 <= i < 8 && 0 <= j < 8
}

/// The pixels of [`dither`]: those whose threshold is below the level.
pub open spec fn dither_px(level: u32, i: int, j: int) -> bool {
    in_cell(i, j) && (BAYER8[j][i] as u32) < level
}

/// A flat dither at `level` out of 64.  Level 0 is blank, 64 is solid.
pub fn dither(level: u32) -> (bm: Bitmap)
    ensures
        forall|i: int, j: int| #[trigger] px(bm, i, j) == dither_px(level, i, j),
{
    let mut bm = BLANK;
    proof {
        lemma_blank();
    }
    let mut y: u32 = 0;
    while y < 8
        invariant
            y <= 8,
            forall|i: int, j: int| #[trigger] px(bm, i, j) == (j < y && dither_px(level, i, j)),
        decreases 8 - y,
    {
        let mut x: u32 = 0;
        while x < 8
            invariant
                x <= 8,
                y < 8,
                forall|i: int, j: int| #[trigger] px(bm, i, j) == ((j < y || (j == y && i < x)) && dither_px(level, i, j)),
            decreases 8 - x,
        {
            if (BAYER8[y as usize][x as usize] as u32) < level {
                set_px(&mut bm, x, y);
            }
            x = x + 1;
        }
        y = y + 1;
    }
    bm
}

/// How many of the first `p` pixels, in reading order, are set.
pub open spec fn count_px(bm: Bitmap, p: int) -> int
    decreases p,
{
    if p <= 0 {
        0
    } else {
        count_px(bm, p - 1) + if px(bm, (p - 1) % 8, (p - 1) / 8) { 1int } else { 0int }
    }
}

/// The sum of the columns of the set pixels among the first `p`.
pub open spec fn sum_x(bm: Bitmap, p: int) -> int
    decreases p,
{
    if p <= 0 {
        0
    } else {
        sum_x(bm, p - 1) + if px(bm, (p - 1) % 8, (p - 1) / 8) { (p - 1) % 8 } else { 0int }
    }
}

/// The sum of the rows of the set pixels among the first `p`.
pub open spec fn sum_y(bm: Bitmap, p: int) -> int
    decreases p,
{
    if p <= 0 {
        0
    } else {
        sum_y(bm, p - 1) + if px(bm, (p - 1) % 8, (p - 1) / 8) { (p - 1) / 8 } else { 0int }
    }
}

/// How many of the 64 pixels are set.
pub open spec fn coverage_of(bm: Bitmap) -> int {
    count_px(bm, 64)
}

proof fn lemma_sums_bounded(bm: Bitmap, p: int)
    requires
        0 <= p <= 64,
    ensures
        0 <= count_px(bm, p) <= p,
        0 <= sum_x(bm, p) <= 7 * p,
        0 <= sum_y(bm, p) <= 7 * p,
    decreases p,
{
    if p > 0 {
        lemma_sums_bounded(bm, p - 1);
    }
}

/// How many of the 64 pixels are set.
pub fn coverage(bm: &Bitmap) -> (n: u32)
    ensures
        n == coverage_of(*bm),
        n <= 64,
{
    let (n, _, _) = pixel_sums(bm);
    n
}

/// The count of the set pixels and the sums of their columns and rows.
fn pixel_sums(bm: &Bitmap) -> (r: (u32, u32, u32))
    ensures
        r.0 == count_px(*bm, 64),
        r.1 == sum_x(*bm, 64),
        r.2 == sum_y(*bm, 64),
        r.0 <= 64,
{
    let (mut sx, mut sy, mut n) = (0u32, 0u32, 0u32);
    let mut y: u32 = 0;
    while y < 8
        invariant
            y <= 8,
            n == count_px(*bm, (y * 8) as int),
            sx == sum_x(*bm, (y * 8) as int),
            sy == sum_y(*bm, (y * 8) as int),
        decreases 8 - y,
    {
        let mut x: u32 = 0;
        while x < 8
            invariant
                x <= 8,
                y < 8,
                n == count_px(*bm, (y * 8 + x) as int),
                sx == sum_x(*bm, (y * 8 + x) as int),
                sy == sum_y(*bm, (y * 8 + x) as int),
            decreases 8 - x,
        {
            proof {
                lemma_sums_bounded(*bm, (y * 8 + x) as int);
                assert(((y * 8 + x + 1) - 1) % 8 == x as int);
                assert(((y * 8 + x + 1) - 1) / 8 == y as int);
            }
            if get_px(bm, x, y) {
                sx = sx + x;
                sy = sy + y;
                n = n + 1;
            }
            x = x + 1;
        }
        y = y + 1;
    }
    proof {
        lemma_sums_bounded(*bm, 64);
    }
    (n, sx, sy)
}

/// The threshold of the pixel at position `q` of the cell, row by row.
pub open spec fn threshold_at(q: int) -> int {
    BAYER8[q / 8][q % 8] as int
}

/// Where in the cell, row by row, the threshold `t` sits.
spec fn place_of(t: int) -> int {
    seq![0, 36, 4, 32, 18, 54, 22, 50, 2, 38, 6, 34, 16, 52, 20, 48, 9, 45, 13, 41, 27, 63, 31, 59, 11, 47, 15, 43, 25, 61, 29, 57, 1, 37, 5, 33, 19, 55, 23, 51, 3, 39, 7, 35, 17, 53, 21, 49, 8, 44, 12, 40, 26, 62, 30, 58, 10, 46, 14, 42, 24, 60, 28, 56][t]
}

/// How many of the first `p` pixels, row by row, have a threshold below
/// `level`.
spec fn below(level: int, p: int) -> int
    decreases p,
{
    if p <= 0 {
        0
    } else {
        below(level, p - 1) + if threshold_at(p - 1) < level { 1int } else { 0int }
    }
}

/// The threshold matrix holds each of nought to sixty-three exactly once:
/// the threshold at a place and the place of a threshold undo each other.
proof fn lemma_thresholds_are_a_permutation()
    ensures
        forall|q: int| 0 <= q < 64 ==> 0 <= #[trigger] threshold_at(q) < 64 && place_of(threshold_at(q)) == q,
        forall|t: int| 0 <= t < 64 ==> 0 <= #[trigger] place_of(t) < 64 && threshold_at(place_of(t)) == t,
{
    assert(threshold_at(0) == 0 && place_of(0) == 0);
    assert(threshold_at(1) == 32 && place_of(32) == 1);
    assert(threshold_at(2) == 8 && place_of(8) == 2);
    assert(threshold_at(3) == 40 && place_of(40) == 3);
    assert(threshold_at(4) == 2 && place_of(2) == 4);
    assert(threshold_at(5) == 34 && place_of(34) == 5);
    assert(threshold_at(6) == 10 && place_of(10) == 6);
    assert(threshold_at(7) == 42 && place_of(42) == 7);
    assert(threshold_at(8) == 48 && place_of(48) == 8);
    assert(threshold_at(9) == 16 && place_of(16) == 9);
    assert(threshold_at(10) == 56 && place_of(56) == 10);
    assert(threshold_at(11) == 24 && place_of(24) == 11);
    assert(threshold_at(12) == 50 && place_of(50) == 12);
    assert(threshold_at(13) == 18 && place_of(18) == 13);
    assert(threshold_at(14) == 58 && place_of(58) == 14);
    assert(threshold_at(15) == 26 && place_of(26) == 15);
    assert(threshold_at(16) == 12 && place_of(12) == 16);
    assert(threshold_at(17) == 44 && place_of(44) == 17);
    assert(threshold_at(18) == 4 && place_of(4) == 18);
    assert(threshold_at(19) == 36 && place_of(36) == 19);
    assert(threshold_at(20) == 14 && place_of(14) == 20);
    assert(threshold_at(21) == 46 && place_of(46) == 21);
    assert(threshold_at(22) == 6 && place_of(6) == 22);
    assert(threshold_at(23) == 38 && place_of(38) == 23);
    assert(threshold_at(24) == 60 && place_of(60) == 24);
    assert(threshold_at(25) == 28 && place_of(28) == 25);
    assert(threshold_at(26) == 52 && place_of(52) == 26);
    assert(threshold_at(27) == 20 && place_of(20) == 27);
    assert(threshold_at(28) == 62 && place_of(62) == 28);
    assert(threshold_at(29) == 30 && place_of(30) == 29);
    assert(threshold_at(30) == 54 && place_of(54) == 30);
    assert(threshold_at(31) == 22 && place_of(22) == 31);
    assert(threshold_at(32) == 3 && place_of(3) == 32);
    assert(threshold_at(33) == 35 && place_of(35) == 33);
    assert(threshold_at(34) == 11 && place_of(11) == 34);
    assert(threshold_at(35) == 43 && place_of(43) == 35);
    assert(threshold_at(36) == 1 && place_of(1) == 36);
    assert(threshold_at(37) == 33 && place_of(33) == 37);
    assert(threshold_at(38) == 9 && place_of(9) == 38);
    assert(threshold_at(39) == 41 && place_of(41) == 39);
    assert(threshold_at(40) == 51 && place_of(51) == 40);
    assert(threshold_at(41) == 19 && place_of(19) == 41);
    assert(threshold_at(42) == 59 && place_of(59) == 42);
    assert(threshold_at(43) == 27 && place_of(27) == 43);
    assert(threshold_at(44) == 49 && place_of(49) == 44);
    assert(threshold_at(45) == 17 && place_of(17) == 45);
    assert(threshold_at(46) == 57 && place_of(57) == 46);
    assert(threshold_at(47) == 25 && place_of(25) == 47);
    assert(threshold_at(48) == 15 && place_of(15) == 48);
    assert(threshold_at(49) == 47 && place_of(47) == 49);
    assert(threshold_at(50) == 7 && place_of(7) == 50);
    assert(threshold_at(51) == 39 && place_of(39) == 51);
    assert(threshold_at(52) == 13 && place_of(13) == 52);
    assert(threshold_at(53) == 45 && place_of(45) == 53);
    assert(threshold_at(54) == 5 && place_of(5) == 54);
    assert(threshold_at(55) == 37 && place_of(37) == 55);
    assert(threshold_at(56) == 63 && place_of(63) == 56);
    assert(threshold_at(57) == 31 && place_of(31) == 57);
    assert(threshold_at(58) == 55 && place_of(55) == 58);
    assert(threshold_at(59) == 23 && place_of(23) == 59);
    assert(threshold_at(60) == 61 && place_of(61) == 60);
    assert(threshold_at(61) == 29 && place_of(29) == 61);
    assert(threshold_at(62) == 53 && place_of(53) == 62);
    assert(threshold_at(63) == 21 && place_of(21) == 63);
    assert forall|q: int| 0 <= q < 64 implies 0 <= #[trigger] threshold_at(q) < 64 && place_of(threshold_at(q)) == q by {
        if q == 0 {} else if q == 1 {} else if q == 2 {} else if q == 3 {} else if q == 4 {} else if q == 5 {} else if q == 6 {} else if q == 7 {} else if q == 8 {} else if q == 9 {} else if q == 10 {} else if q == 11 {} else if q == 12 {} else if q == 13 {} else if q == 14 {} else if q == 15 {} else if q == 16 {} else if q == 17 {} else if q == 18 {} else if q == 19 {} else if q == 20 {} else if q == 21 {} else if q == 22 {} else if q == 23 {} else if q == 24 {} else if q == 25 {} else if q == 26 {} else if q == 27 {} else if q == 28 {} else if q == 29 {} else if q == 30 {} else if q == 31 {} else if q == 32 {} else if q == 33 {} else if q == 34 {} else if q == 35 {} else if q == 36 {} else if q == 37 {} else if q == 38 {} else if q == 39 {} else if q == 40 {} else if q == 41 {} else if q == 42 {} else if q == 43 {} else if q == 44 {} else if q == 45 {} else if q == 46 {} else if q == 47 {} else if q == 48 {} else if q == 49 {} else if q == 50 {} else if q == 51 {} else if q == 52 {} else if q == 53 {} else if q == 54 {} else if q == 55 {} else if q == 56 {} else if q == 57 {} else if q == 58 {} else if q == 59 {} else if q == 60 {} else if q == 61 {} else if q == 62 {} else if q == 63 {}
    }
    assert forall|t: int| 0 <= t < 64 implies 0 <= #[trigger] place_of(t) < 64 && threshold_at(place_of(t)) == t by {
        if t == 0 {} else if t == 1 {} else if t == 2 {} else if t == 3 {} else if t == 4 {} else if t == 5 {} else if t == 6 {} else if t == 7 {} else if t == 8 {} else if t == 9 {} else if t == 10 {} else if t == 11 {} else if t == 12 {} else if t == 13 {} else if t == 14 {} else if t == 15 {} else if t == 16 {} else if t == 17 {} else if t == 18 {} else if t == 19 {} else if t == 20 {} else if t == 21 {} else if t == 22 {} else if t == 23 {} else if t == 24 {} else if t == 25 {} else if t == 26 {} else if t == 27 {} else if t == 28 {} else if t == 29 {} else if t == 30 {} else if t == 31 {} else if t == 32 {} else if t == 33 {} else if t == 34 {} else if t == 35 {} else if t == 36 {} else if t == 37 {} else if t == 38 {} else if t == 39 {} else if t == 40 {} else if t == 41 {} else if t == 42 {} else if t == 43 {} else if t == 44 {} else if t == 45 {} else if t == 46 {} else if t == 47 {} else if t == 48 {} else if t == 49 {} else if t == 50 {} else if t == 51 {} else if t == 52 {} else if t == 53 {} else if t == 54 {} else if t == 55 {} else if t == 56 {} else if t == 57 {} else if t == 58 {} else if t == 59 {} else if t == 60 {} else if t == 61 {} else if t == 62 {} else if t == 63 {}
    }
}

/// Raising the level by one adds exactly the pixel whose threshold is the
/// old level, among the first `p`.
proof fn lemma_below_step(level: int, p: int)
    requires
        0 <= level < 64,
        0 <= p <= 64,
    ensures
        below(level + 1, p) == below(level, p) + if place_of(level) < p { 1int } else { 0int },
    decreases p,
{
    lemma_thresholds_are_a_permutation();
    if p > 0 {
        lemma_below_step(level, p - 1);
        assert(threshold_at(p - 1) == level <==> place_of(level) == p - 1);
    }
}

/// Of the 64 thresholds, `level` are below `level`, for every level up to
/// sixty-four.
proof fn lemma_below_all(level: int)
    requires
        0 <= level <= 64,
    ensures
        below(level, 64) == level,
    decreases level,
{
    if level == 0 {
        lemma_below_none(64);
    } else {
        lemma_thresholds_are_a_permutation();
        lemma_below_all(level - 1);
        lemma_below_step(level - 1, 64);
    }
}

/// No threshold is below nought.
proof fn lemma_below_none(p: int)
    requires
        0 <= p <= 64,
    ensures
        below(0, p) == 0,
    decreases p,
{
    lemma_thresholds_are_a_permutation();
    if p > 0 {
        lemma_below_none(p - 1);
    }
}

/// A level of sixty-four or more has every threshold below it.
proof fn lemma_below_full(level: int, p: int)
    requires
        64 <= level,
        0 <= p <= 64,
    ensures
        below(level, p) == p,
    decreases p,
{
    lemma_thresholds_are_a_permutation();
    if p > 0 {
        lemma_below_full(level, p - 1);
    }
}

/// The pixels of a dither counted row by row are its thresholds below the
/// level.
proof fn lemma_dither_counts(level: u32, bm: Bitmap, p: int)
    requires
        forall|i: int, j: int| #[trigger] px(bm, i, j) == dither_px(level, i, j),
        0 <= p <= 64,
    ensures
        count_px(bm, p) == below(level as int, p),
    decreases p,
{
    if p > 0 {
        lemma_dither_counts(level, bm, p - 1);
        assert(px(bm, (p - 1) % 8, (p - 1) / 8) == dither_px(level, (p - 1) % 8, (p - 1) / 8));
    }
}

/// A flat dither at `level` out of 64 sets exactly `level` of the 64
/// pixels, and all of them from 64 up: level 0 is blank, 64 is solid, and
/// each level in between has one pixel more than the one before.
pub proof fn lemma_dither_coverage(level: u32, bm: Bitmap)
    requires
        forall|i: int, j: int| #[trigger] px(bm, i, j) == dither_px(level, i, j),
    ensures
        coverage_of(bm) == if level < 64 { level as int } else { 64 },
{
    lemma_dither_counts(level, bm, 64);
    if level < 64 {
        lemma_below_all(level as int);
    } else {
        lemma_below_full(level as int, 64);
    }
}

/// A higher dither level sets every pixel a lower one does.
pub proof fn lemma_dither_ramp(lo: u32, hi: u32, i: int, j: int)
    requires
        lo <= hi,
    ensures
        dither_px(lo, i, j) ==> dither_px(hi, i, j),
{
}

/// The value of [`moments`]: the coverage and the centre of mass of the set
/// pixels in whole pixels, or the middle of the cell for a blank one.
pub open spec fn moments_of(bm: Bitmap) -> (u32, u32, u32) {
    let n = count_px(bm, 64);
    if n == 0 {
        (0, 4, 4)
    } else {
        (n as u32, (sum_x(bm, 64) / n) as u32, (sum_y(bm, 64) / n) as u32)
    }
}

/// The centre of mass of the set pixels, plus the coverage.
pub fn moments(bm: &Bitmap) -> (r: (u32, u32, u32))
    ensures
        r == moments_of(*bm),
{
    let (n, sx, sy) = pixel_sums(bm);
    if n == 0 {
        (n, 4, 4)
    } else {
        (n, sx / n, sy / n)
    }
}

/// The pixels of [`quadrant`]: those in a quadrant whose mask bit is set.
pub open spec fn quadrant_px(mask: u8, i: int, j: int) -> bool {
    in_cell(i, j) && (mask & (1u8 << ((j / 4) * 2 + i / 4) as u8)) != 0
}

/// A 2x2 quadrant block from a 4-bit mask.
///
/// Bit 0 is the top-left quadrant, bit 1 top-right, bit 2 bottom-left,
/// bit 3 bottom-right - the same order Unicode's block-element range uses.
pub fn quadrant(mask: u8) -> (bm: Bitmap)
    ensures
        forall|i: int, j: int| #[trigger] px(bm, i, j) == quadrant_px(mask, i, j),
{
    let mut bm = BLANK;
    proof {
        lemma_blank();
    }
    let mut y: u32 = 0;
    while y < 8
        invariant
            y <= 8,
            forall|i: int, j: int| #[trigger] px(bm, i, j) == (j < y && quadrant_px(mask, i, j)),
        decreases 8 - y,
    {
        let mut x: u32 = 0;
        while x < 8
            invariant
                x <= 8,
                y < 8,
                forall|i: int, j: int| #[trigger] px(bm, i, j) == ((j < y || (j == y && i < x)) && quadrant_px(mask, i, j)),
            decreases 8 - x,
        {
            let q: u32 = (y / 4) * 2 + (x / 4);
            if mask & (1u8 << (q as u8)) != 0 {
                set_px(&mut bm, x, y);
            }
            x = x + 1;
        }
        y = y + 1;
    }
    bm
}

/// Whether a half-plane's arithmetic fits in 32 bits at every pixel centre.
pub open spec fn half_plane_fits(a: i32, b: i32, c: i32) -> bool {
    &&& i32::MIN <= c * 2 <= i32::MAX
    &&& forall|x: int, y: int|
        in_cell(x, y) ==> {
            &&& i32::MIN <= a * (2 * x + 1) <= i32::MAX
            &&& i32::MIN <= b * (2 * y + 1) <= i32::MAX
            &&& i32::MIN <= a * (2 * x + 1) + b * (2 * y + 1) <= i32::MAX
        }
}

/// The pixels of [`half_plane`]: centres where `a*x + b*y < c`.
pub open spec fn half_plane_px(a: i32, b: i32, c: i32, i: int, j: int) -> bool {
    in_cell(i, j) && a * (2 * i + 1) + b * (2 * j + 1) < c * 2
}

/// A half-plane: pixels where `a*x + b*y < c`, evaluated at cell centres.
pub fn half_plane(a: i32, b: i32, c: i32) -> (bm: Bitmap)
    requires
        half_plane_fits(a, b, c),
    ensures
        forall|i: int, j: int| #[trigger] px(bm, i, j) == half_plane_px(a, b, c, i, j),
{
    let mut bm = BLANK;
    proof {
        lemma_blank();
    }
    let mut y: u32 = 0;
    while y < 8
        invariant
            y <= 8,
            half_plane_fits(a, b, c),
            forall|i: int, j: int| #[trigger] px(bm, i, j) == (j < y && half_plane_px(a, b, c, i, j)),
        decreases 8 - y,
    {
        let mut x: u32 = 0;
        while x < 8
            invariant
                x <= 8,
                y < 8,
                half_plane_fits(a, b, c),
                forall|i: int, j: int| #[trigger] px(bm, i, j) == ((j < y || (j == y && i < x)) && half_plane_px(a, b, c, i, j)),
            decreases 8 - x,
        {
            assert(in_cell(x as int, y as int));
            if a * (2 * (x as i32) + 1) + b * (2 * (y as i32) + 1) < c * 2 {
                set_px(&mut bm, x, y);
            }
            x = x + 1;
        }
        y = y + 1;
    }
    bm
}

/// The pixels of [`vrule`]: the columns from `x` for `thick`.
pub open spec fn vrule_px(x0: u32, thick: u32, i: int, j: int) -> bool {
    in_cell(i, j) && x0 <= i < x0 + thick
}

/// A vertical rule `thick` pixels wide with its left edge at column `x0`.
pub fn vrule(x0: u32, thick: u32) -> (bm: Bitmap)
    requires
        x0 + thick <= u32::MAX,
    ensures
        forall|i: int, j: int| #[trigger] px(bm, i, j) == vrule_px(x0, thick, i, j),
{
    let mut bm = BLANK;
    proof {
        lemma_blank();
    }
    let mut y: u32 = 0;
    while y < 8
        invariant
            y <= 8,
            x0 + thick <= u32::MAX,
            forall|i: int, j: int| #[trigger] px(bm, i, j) == (j < y && vrule_px(x0, thick, i, j)),
        decreases 8 - y,
    {
        let mut x: u32 = 0;
        while x < 8
            invariant
                x <= 8,
                y < 8,
                x0 + thick <= u32::MAX,
                forall|i: int, j: int| #[trigger] px(bm, i, j) == ((j < y || (j == y && i < x)) && vrule_px(x0, thick, i, j)),
            decreases 8 - x,
        {
            if x0 <= x && x < x0 + thick {
                set_px(&mut bm, x, y);
            }
            x = x + 1;
        }
        y = y + 1;
    }
    bm
}

/// The pixels of [`hrule`]: the rows from `y` for `thick`.
pub open spec fn hrule_px(y0: u32, thick: u32, i: int, j: int) -> bool {
    in_cell(i, j) && y0 <= j < y0 + thick
}

/// A horizontal rule `thick` pixels tall with its top at row `y0`.
pub fn hrule(y0: u32, thick: u32) -> (bm: Bitmap)
    requires
        y0 + thick <= u32::MAX,
    ensures
        forall|i: int, j: int| #[trigger] px(bm, i, j) == hrule_px(y0, thick, i, j),
{
    let mut bm = BLANK;
    proof {
        lemma_blank();
    }
    let mut y: u32 = 0;
    while y < 8
        invariant
            y <= 8,
            y0 + thick <= u32::MAX,
            forall|i: int, j: int| #[trigger] px(bm, i, j) == (j < y && hrule_px(y0, thick, i, j)),
        decreases 8 - y,
    {
        let mut x: u32 = 0;
        while x < 8
            invariant
                x <= 8,
                y < 8,
                y0 + thick <= u32::MAX,
                forall|i: int, j: int| #[trigger] px(bm, i, j) == ((j < y || (j == y && i < x)) && hrule_px(y0, thick, i, j)),
            decreases 8 - x,
        {
            if y0 <= y && y < y0 + thick {
                set_px(&mut bm, x, y);
            }
            x = x + 1;
        }
        y = y + 1;
    }
    bm
}

/// The corner a disc quadrant is centred on, doubled: 16 or 0.
pub open spec fn disc_centre2(q: u32) -> int {
    if q == 0 { 16 } else { 0 }
}

/// The pixels of [`disc_quadrant`]: centres within `r` of the corner.
pub open spec fn disc_px(r: i32, qx: u32, qy: u32, i: int, j: int) -> bool {
    let dx = 2 * i + 1 - disc_centre2(qx);
    let dy = 2 * j + 1 - disc_centre2(qy);
    in_cell(i, j) && dx * dx + dy * dy <= 4 * r * r
}

/// One quadrant of a disc of radius `r` centred on the corner named by
/// `(qx, qy)` - the four of them tile into a moon two cells across.
pub fn disc_quadrant(r: i32, qx: u32, qy: u32) -> (bm: Bitmap)
    requires
        4 * r * r <= i32::MAX,
    ensures
        forall|i: int, j: int| #[trigger] px(bm, i, j) == disc_px(r, qx, qy, i, j),
{
    let mut bm = BLANK;
    proof {
        lemma_blank();
    }
    let mut y: u32 = 0;
    while y < 8
        invariant
            y <= 8,
            4 * r * r <= i32::MAX,
            forall|i: int, j: int| #[trigger] px(bm, i, j) == (j < y && disc_px(r, qx, qy, i, j)),
        decreases 8 - y,
    {
        let mut x: u32 = 0;
        while x < 8
            invariant
                x <= 8,
                y < 8,
                4 * r * r <= i32::MAX,
                forall|i: int, j: int| #[trigger] px(bm, i, j) == ((j < y || (j == y && i < x)) && disc_px(r, qx, qy, i, j)),
            decreases 8 - x,
        {
            let cx: i32 = if qx == 0 { 8 } else { 0 };
            let cy: i32 = if qy == 0 { 8 } else { 0 };
            let dx: i32 = 2 * (x as i32) + 1 - 2 * cx;
            let dy: i32 = 2 * (y as i32) + 1 - 2 * cy;
            proof {
                assert(4 * r * r >= 0) by (nonlinear_arith);
                assert(dx * dx <= 289 && dy * dy <= 289) by (nonlinear_arith)
                    requires
                        -17 <= dx <= 17,
                        -17 <= dy <= 17,
                ;
                assert(dx * dx >= 0 && dy * dy >= 0) by (nonlinear_arith);
                assert(4 * r >= -2147483648 && 4 * r <= 2147483647) by (nonlinear_arith)
                    requires
                        4 * r * r <= 2147483647,
                ;
            }
            if dx * dx + dy * dy <= 4 * r * r {
                set_px(&mut bm, x, y);
            }
            x = x + 1;
        }
        y = y + 1;
    }
    bm
}

/// The one pixel of [`speck`].
pub open spec fn speck_px(n: u32, i: int, j: int) -> bool {
    i == (n % 4) * 2 + 1 && j == ((n / 4) % 4) * 2 + 1
}

/// A speck at sub-cell position `n` of 16, for stars and distant lights.
pub fn speck(n: u32) -> (bm: Bitmap)
    ensures
        forall|i: int, j: int| #[trigger] px(bm, i, j) == speck_px(n, i, j),
{
    let mut bm = BLANK;
    proof {
        lemma_blank();
        assert((n & 3u32) == n % 4) by (bit_vector);
        assert(((n >> 2u32) & 3u32) == (n / 4) % 4) by (bit_vector);
    }
    let (x, y) = ((n & 3) * 2 + 1, ((n >> 2) & 3) * 2 + 1);
    set_px(&mut bm, x, y);
    bm
}

/// Which of the eight 4x2 sub-cells pixel `(i, j)` lies in.
pub open spec fn subcell_of(i: int, j: int) -> int {
    (j / 2) * 2 + i / 4
}

/// The pixels of [`subcell24`]: those in a sub-cell whose mask bit is set.
pub open spec fn subcell_px(mask: u8, i: int, j: int) -> bool {
    in_cell(i, j) && (mask & (1u8 << subcell_of(i, j) as u8)) != 0
}

/// A 2x4 sub-cell block from an 8-bit mask - the braille-shaped grid.
///
/// Bit `n` is column `n & 1`, row `n >> 1`, counting down.
pub fn subcell24(mask: u8) -> (bm: Bitmap)
    ensures
        forall|i: int, j: int| #[trigger] px(bm, i, j) == subcell_px(mask, i, j),
{
    let mut bm = BLANK;
    proof {
        lemma_blank();
    }
    let mut n: u32 = 0;
    while n < 8
        invariant
            n <= 8,
            forall|i: int, j: int| #[trigger] px(bm, i, j) == (subcell_of(i, j) < n && subcell_px(mask, i, j)),
        decreases 8 - n,
    {
        if mask & (1u8 << (n as u8)) == 0 {
            n = n + 1;
            continue;
        }
        let (cx, cy) = (n & 1, n >> 1);
        proof {
            assert((n & 1u32) == n % 2) by (bit_vector);
            assert((n >> 1u32) == n / 2) by (bit_vector);
        }
        let mut y: u32 = 0;
        while y < 2
            invariant
                y <= 2,
                n < 8,
                cx == n % 2,
                cy == n / 2,
                (mask & (1u8 << (n as u8))) != 0,
                forall|i: int, j: int| #[trigger] px(bm, i, j) == ((subcell_of(i, j) < n || (subcell_of(i, j) == n && j - cy * 2 < y)) && subcell_px(mask, i, j)),
            decreases 2 - y,
        {
            let mut x: u32 = 0;
            while x < 4
                invariant
                    x <= 4,
                    y < 2,
                    n < 8,
                    cx == n % 2,
                    cy == n / 2,
                    (mask & (1u8 << (n as u8))) != 0,
                    forall|i: int, j: int| #[trigger] px(bm, i, j) == ((subcell_of(i, j) < n || (subcell_of(i, j) == n && (j - cy * 2 < y || (j - cy * 2 == y && i - cx * 4 < x)))) && subcell_px(mask, i, j)),
                decreases 4 - x,
            {
                set_px(&mut bm, cx * 4 + x, cy * 2 + y);
                x = x + 1;
            }
            y = y + 1;
        }
        n = n + 1;
    }
    bm
}

/// Whether the streak arithmetic fits in 32 bits on every row.
pub open spec fn rain_fits(dx: i32, phase: u32) -> bool {
    &&& (phase as i32) <= i32::MAX - 7
    &&& i32::MIN <= dx * 7 <= i32::MAX
}

/// The pixels of [`rain_streak`]: one per row, leaning `dx` over the cell,
/// with three rows of every eight left as gaps.
pub open spec fn rain_px(dx: i32, phase: u32, i: int, j: int) -> bool {
    &&& in_cell(i, j)
    &&& ((j + phase as i32) as i32 & 7i32) < 5
    &&& i == 4 + crate::fixed::trunc_div(dx * j, 8)
}

/// A rain streak leaning `dx` pixels over the cell, at sub-cell `phase`.
/// A rising phase moves the pattern up the cell.
pub fn rain_streak(dx: i32, phase: u32) -> (bm: Bitmap)
    requires
        rain_fits(dx, phase),
    ensures
        forall|i: int, j: int| #[trigger] px(bm, i, j) == rain_px(dx, phase, i, j),
{
    let mut bm = BLANK;
    proof {
        lemma_blank();
    }
    let mut y: i32 = 0;
    while y < 8
        invariant
            0 <= y <= 8,
            rain_fits(dx, phase),
            forall|i: int, j: int| #[trigger] px(bm, i, j) == (j < y && rain_px(dx, phase, i, j)),
        decreases 8 - y,
    {
        let t = (y + phase as i32) & 7;
        if t >= 5 {
            y = y + 1;
            continue;
        }
        proof {
            assert(i32::MIN <= dx * y <= i32::MAX) by (nonlinear_arith)
                requires
                    i32::MIN <= dx * 7 <= i32::MAX,
                    0 <= y < 8,
            ;
        }
        let q = (dx * y) / 8;
        assert(q == crate::fixed::trunc_div(dx * y, 8));
        let x = 4 + q;
        if 0 <= x && x < 8 {
            set_px(&mut bm, x as u32, y as u32);
        }
        y = y + 1;
    }
    bm
}

/// A transformation applied to a bitmap.
///
/// The catalogue stores one shape per family and derives the rest, which
/// is why there are eight slope directions and only one slope generator.
#[derive(Clone, Copy, Debug, PartialEq, Eq, Structural)]
pub enum Xform {
    /// Unchanged.
    Identity,
    /// Mirror left to right.
    FlipH,
    /// Mirror top to bottom.
    FlipV,
    /// Both, which is a 180 degree rotation.
    Rot180,
    /// Reflect in the leading diagonal.
    Transpose,
    /// Quarter turn clockwise.
    Rot90,
    /// Quarter turn anticlockwise.
    Rot270,
    /// Swap set and clear pixels.
    Invert,
}

/// Where a moving transformation sends pixel `(x, y)`.
pub open spec fn xform_dest(t: Xform, x: int, y: int) -> (int, int) {
    match t {
        Xform::FlipH => (7 - x, y),
        Xform::FlipV => (x, 7 - y),
        Xform::Rot180 => (7 - x, 7 - y),
        Xform::Transpose => (y, x),
        Xform::Rot90 => (7 - y, x),
        Xform::Rot270 => (y, 7 - x),
        _ => (x, y),
    }
}

/// Which pixel a moving transformation brings to `(i, j)`.
pub open spec fn xform_src(t: Xform, i: int, j: int) -> (int, int) {
    match t {
        Xform::FlipH => (7 - i, j),
        Xform::FlipV => (i, 7 - j),
        Xform::Rot180 => (7 - i, 7 - j),
        Xform::Transpose => (j, i),
        Xform::Rot90 => (j, 7 - i),
        Xform::Rot270 => (7 - j, i),
        _ => (i, j),
    }
}

/// The pixels of [`xform`].
pub open spec fn xform_px(bm: Bitmap, t: Xform, i: int, j: int) -> bool {
    match t {
        Xform::Identity => px(bm, i, j),
        Xform::Invert => in_cell(i, j) && !px(bm, i, j),
        _ => in_cell(i, j) && px(bm, xform_src(t, i, j).0, xform_src(t, i, j).1),
    }
}

/// Where [`xform`] moves one pixel.
fn dest(t: Xform, x: u32, y: u32) -> (r: (u32, u32))
    requires
        x < 8,
        y < 8,
    ensures
        r.0 == xform_dest(t, x as int, y as int).0,
        r.1 == xform_dest(t, x as int, y as int).1,
        r.0 < 8,
        r.1 < 8,
{
    match t {
        Xform::FlipH => (7 - x, y),
        Xform::FlipV => (x, 7 - y),
        Xform::Rot180 => (7 - x, 7 - y),
        Xform::Transpose => (y, x),
        Xform::Rot90 => (7 - y, x),
        Xform::Rot270 => (y, 7 - x),
        Xform::Identity | Xform::Invert => (x, y),
    }
}

/// Apply a transformation.
pub fn xform(bm: &Bitmap, t: Xform) -> (out: Bitmap)
    ensures
        forall|i: int, j: int| #[trigger] px(out, i, j) == xform_px(*bm, t, i, j),
{
    let mut out = BLANK;
    proof {
        lemma_blank();
    }
    match t {
        Xform::Identity => {
            return *bm;
        },
        Xform::Invert => {
            let mut k: usize = 0;
            while k < 8
                invariant
                    k <= 8,
                    forall|m: int| 0 <= m < k ==> out[m] == !bm[m],
                decreases 8 - k,
            {
                out[k] = !bm[k];
                k = k + 1;
            }
            proof {
                assert forall|i: int, j: int| #[trigger] px(out, i, j) == xform_px(*bm, t, i, j) by {
                    if in_cell(i, j) {
                        let r = bm[j];
                        let iu = i as u8;
                        assert(((!r) & (0x80u8 >> iu)) != 0 <==> (r & (0x80u8 >> iu)) == 0)
                            by (bit_vector)
                            requires
                                iu < 8,
                        ;
                    }
                }
            }
            return out;
        },
        _ => {},
    }
    let mut y: u32 = 0;
    while y < 8
        invariant
            y <= 8,
            t != Xform::Identity && t != Xform::Invert,
            forall|i: int, j: int| #[trigger] px(out, i, j) == (in_cell(i, j) && xform_src(t, i, j).1 < y && xform_px(*bm, t, i, j)),
        decreases 8 - y,
    {
        let mut x: u32 = 0;
        while x < 8
            invariant
                x <= 8,
                y < 8,
                t != Xform::Identity && t != Xform::Invert,
                forall|i: int, j: int| #[trigger] px(out, i, j) == (in_cell(i, j) && (xform_src(t, i, j).1 < y || (xform_src(t, i, j).1 == y && xform_src(t, i, j).0 < x)) && xform_px(*bm, t, i, j)),
            decreases 8 - x,
        {
            if get_px(bm, x, y) {
                let (nx, ny) = dest(t, x, y);
                set_px(&mut out, nx, ny);
            }
            x = x + 1;
        }
        y = y + 1;
    }
    out
}

/// The pixels of the union of two bitmaps.
pub proof fn lemma_over_px(a: Bitmap, b: Bitmap, out: Bitmap)
    requires
        forall|k: int| 0 <= k < 8 ==> out[k] == a[k] | b[k],
    ensures
        forall|i: int, j: int| #[trigger] px(out, i, j) == (px(a, i, j) || px(b, i, j)),
{
    assert forall|i: int, j: int| #[trigger] px(out, i, j) == (px(a, i, j) || px(b, i, j)) by {
        if in_cell(i, j) {
            let (ra, rb) = (a[j], b[j]);
            let iu = i as u8;
            assert(((ra | rb) & (0x80u8 >> iu)) != 0 <==> ((ra & (0x80u8 >> iu)) != 0 || (rb & (0x80u8 >> iu)) != 0))
                by (bit_vector);
        }
    }
}

/// Bitwise union of two glyphs - a lamp head over a post, a window band
/// over a facade.
pub fn over(a: &Bitmap, b: &Bitmap) -> (out: Bitmap)
    ensures
        forall|k: int| 0 <= k < 8 ==> out[k] == a[k] | b[k],
        forall|i: int, j: int| #[trigger] px(out, i, j) == (px(*a, i, j) || px(*b, i, j)),
{
    let mut out = BLANK;
    let mut k: usize = 0;
    while k < 8
        invariant
            k <= 8,
            forall|m: int| 0 <= m < k ==> out[m] == a[m] | b[m],
        decreases 8 - k,
    {
        out[k] = a[k] | b[k];
        k = k + 1;
    }
    proof {
        lemma_over_px(*a, *b, out);
    }
    out
}

/// `a` with `b` knocked out of it.
pub fn less(a: &Bitmap, b: &Bitmap) -> (out: Bitmap)
    ensures
        forall|k: int| 0 <= k < 8 ==> out[k] == a[k] & !b[k],
        forall|i: int, j: int| #[trigger] px(out, i, j) == (px(*a, i, j) && !px(*b, i, j)),
{
    let mut out = BLANK;
    let mut k: usize = 0;
    while k < 8
        invariant
            k <= 8,
            forall|m: int| 0 <= m < k ==> out[m] == a[m] & !b[m],
        decreases 8 - k,
    {
        out[k] = a[k] & !b[k];
        k = k + 1;
    }
    proof {
        assert forall|i: int, j: int| #[trigger] px(out, i, j) == (px(*a, i, j) && !px(*b, i, j)) by {
            if in_cell(i, j) {
                let (ra, rb) = (a[j], b[j]);
                let iu = i as u8;
                assert(((ra & !rb) & (0x80u8 >> iu)) != 0 <==> ((ra & (0x80u8 >> iu)) != 0 && (rb & (0x80u8 >> iu)) == 0))
                    by (bit_vector);
            }
        }
    }
    out
}

/// Whether [`shift`] shifts no row by a whole byte, which a `u8` shift
/// cannot do: a row moves only if it lands inside the cell.
pub open spec fn shift_fits(dx: i32, dy: i32) -> bool {
    &&& dy >= 7 - i32::MAX
    &&& -8 < dy < 8 ==> -8 < dx < 8
}

/// Row `y` of [`shift`].
pub open spec fn shift_row(bm: Bitmap, dx: i32, dy: i32, y: int) -> u8 {
    let sy = y - dy;
    if 0 <= sy < 8 {
        if dx >= 0 {
            bm[sy] >> (dx as u8)
        } else {
            bm[sy] << ((-dx) as u8)
        }
    } else {
        0
    }
}

/// Shift a glyph by whole pixels, discarding what falls off the edge.
pub fn shift(bm: &Bitmap, dx: i32, dy: i32) -> (out: Bitmap)
    requires
        shift_fits(dx, dy),
    ensures
        forall|k: int| 0 <= k < 8 ==> out[k] == shift_row(*bm, dx, dy, k),
{
    let mut out = BLANK;
    let mut y: i32 = 0;
    while y < 8
        invariant
            0 <= y <= 8,
            shift_fits(dx, dy),
            forall|m: int| 0 <= m < y ==> out[m] == shift_row(*bm, dx, dy, m),
            forall|m: int| y <= m < 8 ==> out[m] == 0,
        decreases 8 - y,
    {
        let sy = y - dy;
        if !(0 <= sy && sy < 8) {
            y = y + 1;
            continue;
        }
        let row = bm[sy as usize];
        out[y as usize] = if dx >= 0 {
            row >> (if dx < 8 { dx } else { 8 }) as u8
        } else {
            row << (if -dx < 8 { -dx } else { 8 }) as u8
        };
        y = y + 1;
    }
    out
}

/// Whether window `n` of a facade tile is lit: the first eight follow the
/// bits of `lit`, any further ones always are.
pub open spec fn window_lit(lit: u8, n: int) -> bool {
    n >= 8 || (lit & (1u8 << n as u8)) != 0
}

/// Pixel `(i, j)` is pixel `(xx, yy)` of window `(f, b)` of a facade tile
/// with `bays` across and `floors` down, and that window is lit.  A window
/// is `8 / bays` by `8 / floors` with its last column and row left dark.
pub open spec fn in_window(
    bays: u32,
    floors: u32,
    lit: u8,
    f: int,
    b: int,
    yy: int,
    xx: int,
    i: int,
    j: int,
) -> bool {
    let bw = 8int / bays as int;
    let fh = 8int / floors as int;
    &&& 0 <= f < floors
    &&& 0 <= b < bays
    &&& window_lit(lit, f * bays + b)
    &&& 0 <= yy < fh - 1
    &&& 0 <= xx < bw - 1
    &&& i == b * bw + xx
    &&& j == f * fh + yy
}

/// The pixels of [`facade`].
pub open spec fn facade_px(bays: u32, floors: u32, lit: u8, i: int, j: int) -> bool {
    &&& bays > 0
    &&& floors > 0
    &&& in_cell(i, j)
    &&& exists|f: int, b: int, yy: int, xx: int| in_window(bays, floors, lit, f, b, yy, xx, i, j)
}

/// Window `(f, b)` comes before window `(f0, b0)` in reading order.
pub open spec fn window_before(f: int, b: int, f0: int, b0: int) -> bool {
    f < f0 || (f == f0 && b < b0)
}

/// A facade tile: `bays` windows across, `floors` down, `lit` selecting
/// which are illuminated.
pub fn facade(bays: u32, floors: u32, lit: u8) -> (bm: Bitmap)
    requires
        bays * floors <= u32::MAX + 1,
    ensures
        forall|i: int, j: int| #[trigger] px(bm, i, j) == facade_px(bays, floors, lit, i, j),
{
    let mut bm = BLANK;
    proof {
        lemma_blank();
    }
    if bays == 0 || floors == 0 {
        return bm;
    }
    let bw = 8 / bays;
    let fh = 8 / floors;
    let mut f: u32 = 0;
    while f < floors
        invariant
            bays > 0,
            floors > 0,
            bays * floors <= u32::MAX + 1,
            bw == 8u32 / bays,
            fh == 8u32 / floors,
            f <= floors,
            forall|i: int, j: int| #[trigger] px(bm, i, j) == (in_cell(i, j) && exists|ff: int, b: int, yy: int, xx: int| ff < f && #[trigger] in_window(bays, floors, lit, ff, b, yy, xx, i, j)),
        decreases floors - f,
    {
        let mut b: u32 = 0;
        while b < bays
            invariant
                bays > 0,
                floors > 0,
                bays * floors <= u32::MAX + 1,
                bw == 8u32 / bays,
                fh == 8u32 / floors,
                f < floors,
                b <= bays,
                forall|i: int, j: int| #[trigger] px(bm, i, j) == (in_cell(i, j) && exists|ff: int, bb: int, yy: int, xx: int| window_before(ff, bb, f as int, b as int) && #[trigger] in_window(bays, floors, lit, ff, bb, yy, xx, i, j)),
            decreases bays - b,
        {
            proof {
                assert(f * bays + b < bays * floors) by (nonlinear_arith)
                    requires
                        f < floors,
                        b < bays,
                ;
            }
            let n = f * bays + b;
            if n < 8 && lit & (1u8 << (n as u8)) == 0 {
                proof {
                    assert forall|i: int, j: int| #[trigger] px(bm, i, j) == (in_cell(i, j) && exists|ff: int, bb: int, yy: int, xx: int| window_before(ff, bb, f as int, (b + 1) as int) && #[trigger] in_window(bays, floors, lit, ff, bb, yy, xx, i, j)) by {
                        if exists|ff: int, bb: int, yy: int, xx: int| window_before(ff, bb, f as int, (b + 1) as int) && #[trigger] in_window(bays, floors, lit, ff, bb, yy, xx, i, j) {
                            let (ff, bb, yy, xx) = choose|ff: int, bb: int, yy: int, xx: int| window_before(ff, bb, f as int, (b + 1) as int) && #[trigger] in_window(bays, floors, lit, ff, bb, yy, xx, i, j);
                            if ff == f && bb == b {
                                assert(!window_lit(lit, ff * bays + bb));
                            }
                            assert(window_before(ff, bb, f as int, b as int));
                        }
                    }
                }
                b = b + 1;
                continue;
            }
            assert(window_lit(lit, f * bays + b));
            let ylim = if fh > 0 { fh - 1 } else { 0 };
            let xlim = if bw > 0 { bw - 1 } else { 0 };
            let mut y: u32 = 0;
            while y < ylim
                invariant
                    bays > 0,
                    floors > 0,
                    bw == 8u32 / bays,
                    fh == 8u32 / floors,
                    f < floors,
                    b < bays,
                    window_lit(lit, f * bays + b),
                    ylim == if fh > 0 { fh - 1 } else { 0 },
                    xlim == if bw > 0 { bw - 1 } else { 0 },
                    y <= ylim,
                    forall|i: int, j: int| #[trigger] px(bm, i, j) == (in_cell(i, j) && exists|ff: int, bb: int, yy: int, xx: int| (window_before(ff, bb, f as int, b as int) || (ff == f && bb == b && yy < y)) && #[trigger] in_window(bays, floors, lit, ff, bb, yy, xx, i, j)),
                decreases ylim - y,
            {
                let mut x: u32 = 0;
                while x < xlim
                    invariant
                        bays > 0,
                        floors > 0,
                        bw == 8u32 / bays,
                        fh == 8u32 / floors,
                        f < floors,
                        b < bays,
                        window_lit(lit, f * bays + b),
                        ylim == if fh > 0 { fh - 1 } else { 0 },
                        xlim == if bw > 0 { bw - 1 } else { 0 },
                        y < ylim,
                        x <= xlim,
                        forall|i: int, j: int| #[trigger] px(bm, i, j) == (in_cell(i, j) && exists|ff: int, bb: int, yy: int, xx: int| (window_before(ff, bb, f as int, b as int) || (ff == f && bb == b && (yy < y || (yy == y && xx < x)))) && #[trigger] in_window(bays, floors, lit, ff, bb, yy, xx, i, j)),
                    decreases xlim - x,
                {
                    proof {
                        assert(b * bw + x < 8 && f * fh + y < 8) by (nonlinear_arith)
                            requires
                                bw == 8u32 / bays,
                                fh == 8u32 / floors,
                                b < bays,
                                f < floors,
                                x < bw - 1,
                                y < fh - 1,
                        ;
                    }
                    let px_x = b * bw + x;
                    let px_y = f * fh + y;
                    let ghost old_bm = bm;
                    set_px(&mut bm, px_x, px_y);
                    proof {
                        assert forall|i: int, j: int| #[trigger] px(bm, i, j) == (in_cell(i, j) && exists|ff: int, bb: int, yy: int, xx: int| (window_before(ff, bb, f as int, b as int) || (ff == f && bb == b && (yy < y || (yy == y && xx < x + 1)))) && #[trigger] in_window(bays, floors, lit, ff, bb, yy, xx, i, j)) by {
                            if i == px_x && j == px_y {
                                assert(in_window(bays, floors, lit, f as int, b as int, y as int, x as int, i, j));
                            }
                            if in_cell(i, j) && exists|ff: int, bb: int, yy: int, xx: int| (window_before(ff, bb, f as int, b as int) || (ff == f && bb == b && (yy < y || (yy == y && xx < x + 1)))) && #[trigger] in_window(bays, floors, lit, ff, bb, yy, xx, i, j) {
                                let (ff, bb, yy, xx) = choose|ff: int, bb: int, yy: int, xx: int| (window_before(ff, bb, f as int, b as int) || (ff == f && bb == b && (yy < y || (yy == y && xx < x + 1)))) && #[trigger] in_window(bays, floors, lit, ff, bb, yy, xx, i, j);
                                if !(ff == f && bb == b && yy == y && xx == x) {
                                    assert(px(old_bm, i, j));
                                }
                            }
                        }
                    }
                    x = x + 1;
                }
                y = y + 1;
            }
            proof {
                assert forall|i: int, j: int| #[trigger] px(bm, i, j) == (in_cell(i, j) && exists|ff: int, bb: int, yy: int, xx: int| window_before(ff, bb, f as int, (b + 1) as int) && #[trigger] in_window(bays, floors, lit, ff, bb, yy, xx, i, j)) by {
                    if exists|ff: int, bb: int, yy: int, xx: int| window_before(ff, bb, f as int, (b + 1) as int) && #[trigger] in_window(bays, floors, lit, ff, bb, yy, xx, i, j) {
                        let (ff, bb, yy, xx) = choose|ff: int, bb: int, yy: int, xx: int| window_before(ff, bb, f as int, (b + 1) as int) && #[trigger] in_window(bays, floors, lit, ff, bb, yy, xx, i, j);
                        if ff == f && bb == b {
                            assert(yy < ylim);
                        }
                    }
                }
            }
            b = b + 1;
        }
        proof {
            assert forall|i: int, j: int| #[trigger] px(bm, i, j) == (in_cell(i, j) && exists|ff: int, bb: int, yy: int, xx: int| ff < f + 1 && #[trigger] in_window(bays, floors, lit, ff, bb, yy, xx, i, j)) by {
                if exists|ff: int, bb: int, yy: int, xx: int| ff < f + 1 && #[trigger] in_window(bays, floors, lit, ff, bb, yy, xx, i, j) {
                    let (ff, bb, yy, xx) = choose|ff: int, bb: int, yy: int, xx: int| ff < f + 1 && #[trigger] in_window(bays, floors, lit, ff, bb, yy, xx, i, j);
                    assert(window_before(ff, bb, f as int, bays as int));
                }
                if exists|ff: int, bb: int, yy: int, xx: int| window_before(ff, bb, f as int, bays as int) && #[trigger] in_window(bays, floors, lit, ff, bb, yy, xx, i, j) {
                    let (ff, bb, yy, xx) = choose|ff: int, bb: int, yy: int, xx: int| window_before(ff, bb, f as int, bays as int) && #[trigger] in_window(bays, floors, lit, ff, bb, yy, xx, i, j);
                    assert(ff < f + 1);
                }
            }
        }
        f = f + 1;
    }
    proof {
        assert forall|i: int, j: int| #[trigger] px(bm, i, j) == facade_px(bays, floors, lit, i, j) by {
            if exists|ff: int, bb: int, yy: int, xx: int| in_window(bays, floors, lit, ff, bb, yy, xx, i, j) {
                let (ff, bb, yy, xx) = choose|ff: int, bb: int, yy: int, xx: int| in_window(bays, floors, lit, ff, bb, yy, xx, i, j);
                assert(ff < f && in_window(bays, floors, lit, ff, bb, yy, xx, i, j));
            }
        }
    }
    bm
}

/// The flips, the half turn, the transpose and the inversion each undo
/// themselves: transforming a bitmap twice by one of them gives it back.
pub proof fn lemma_xform_involution(bm: Bitmap, t: Xform, once: Bitmap, twice: Bitmap)
    requires
        t == Xform::FlipH || t == Xform::FlipV || t == Xform::Rot180 || t == Xform::Transpose
            || t == Xform::Invert,
        forall|i: int, j: int| #[trigger] px(once, i, j) == xform_px(bm, t, i, j),
        forall|i: int, j: int| #[trigger] px(twice, i, j) == xform_px(once, t, i, j),
    ensures
        twice == bm,
{
    assert forall|x: int, y: int| 0 <= x < 8 && 0 <= y < 8 implies px(twice, x, y) == px(bm, x, y) by {
        let (sx, sy) = xform_src(t, x, y);
        assert(px(once, sx, sy) == xform_px(bm, t, sx, sy));
    }
    lemma_bitmap_ext(twice, bm);
}

/// One pixel, counted: one if it is set, none if not.
pub open spec fn px_count(bm: Bitmap, x: int, y: int) -> int {
    if px(bm, x, y) { 1 } else { 0 }
}

/// How many pixels of row `y` are set.
#[verifier::opaque]
pub open spec fn row_count(bm: Bitmap, y: int) -> int {
    px_count(bm, 0, y) + px_count(bm, 1, y) + px_count(bm, 2, y) + px_count(bm, 3, y)
        + px_count(bm, 4, y) + px_count(bm, 5, y) + px_count(bm, 6, y) + px_count(bm, 7, y)
}

/// How many pixels are set, counted row by row.
pub open spec fn rows_count(bm: Bitmap) -> int {
    row_count(bm, 0) + row_count(bm, 1) + row_count(bm, 2) + row_count(bm, 3)
        + row_count(bm, 4) + row_count(bm, 5) + row_count(bm, 6) + row_count(bm, 7)
}

/// How many pixels of column `x` are set.
#[verifier::opaque]
pub open spec fn col_count(bm: Bitmap, x: int) -> int {
    px_count(bm, x, 0) + px_count(bm, x, 1) + px_count(bm, x, 2) + px_count(bm, x, 3)
        + px_count(bm, x, 4) + px_count(bm, x, 5) + px_count(bm, x, 6) + px_count(bm, x, 7)
}

/// Counting in reading order, one more row adds that row's count.
proof fn lemma_count_one_row(bm: Bitmap, j: int)
    requires
        0 <= j < 8,
    ensures
        count_px(bm, 8 * j + 8) == count_px(bm, 8 * j) + row_count(bm, j),
{
    reveal(row_count);
    let b = 8 * j;
    assert((b + 0) % 8 == 0 && (b + 0) / 8 == j);
    assert((b + 1) % 8 == 1 && (b + 1) / 8 == j);
    assert((b + 2) % 8 == 2 && (b + 2) / 8 == j);
    assert((b + 3) % 8 == 3 && (b + 3) / 8 == j);
    assert((b + 4) % 8 == 4 && (b + 4) / 8 == j);
    assert((b + 5) % 8 == 5 && (b + 5) / 8 == j);
    assert((b + 6) % 8 == 6 && (b + 6) / 8 == j);
    assert((b + 7) % 8 == 7 && (b + 7) / 8 == j);
    assert(count_px(bm, b + 1) == count_px(bm, b) + px_count(bm, 0, j));
    assert(count_px(bm, b + 2) == count_px(bm, b + 1) + px_count(bm, 1, j));
    assert(count_px(bm, b + 3) == count_px(bm, b + 2) + px_count(bm, 2, j));
    assert(count_px(bm, b + 4) == count_px(bm, b + 3) + px_count(bm, 3, j));
    assert(count_px(bm, b + 5) == count_px(bm, b + 4) + px_count(bm, 4, j));
    assert(count_px(bm, b + 6) == count_px(bm, b + 5) + px_count(bm, 5, j));
    assert(count_px(bm, b + 7) == count_px(bm, b + 6) + px_count(bm, 6, j));
    assert(count_px(bm, b + 8) == count_px(bm, b + 7) + px_count(bm, 7, j));
}

/// Counting in reading order and counting row by row agree.
proof fn lemma_coverage_by_rows(bm: Bitmap)
    ensures
        coverage_of(bm) == rows_count(bm),
{
    assert(count_px(bm, 0) == 0);
    lemma_count_one_row(bm, 0);
    lemma_count_one_row(bm, 1);
    lemma_count_one_row(bm, 2);
    lemma_count_one_row(bm, 3);
    lemma_count_one_row(bm, 4);
    lemma_count_one_row(bm, 5);
    lemma_count_one_row(bm, 6);
    lemma_count_one_row(bm, 7);
}

/// Counting row by row and column by column agree.
proof fn lemma_rows_are_cols(bm: Bitmap)
    ensures
        rows_count(bm) == col_count(bm, 0) + col_count(bm, 1) + col_count(bm, 2) + col_count(bm, 3)
            + col_count(bm, 4) + col_count(bm, 5) + col_count(bm, 6) + col_count(bm, 7),
{
    reveal(row_count);
    reveal(col_count);
}

/// A row of a transformed bitmap, counted, against the row or column of the
/// original that it came from.
proof fn lemma_xform_row(bm: Bitmap, t: Xform, out: Bitmap, j: int)
    requires
        0 <= j < 8,
        forall|i: int, j: int| #[trigger] px(out, i, j) == xform_px(bm, t, i, j),
    ensures
        row_count(out, j) == match t {
            Xform::Identity => row_count(bm, j),
            Xform::FlipH => row_count(bm, j),
            Xform::FlipV => row_count(bm, 7 - j),
            Xform::Rot180 => row_count(bm, 7 - j),
            Xform::Transpose => col_count(bm, j),
            Xform::Rot90 => col_count(bm, j),
            Xform::Rot270 => col_count(bm, 7 - j),
            Xform::Invert => 8 - row_count(bm, j),
        },
{
    reveal(row_count);
    reveal(col_count);
    assert(px(out, 0, j) == xform_px(bm, t, 0, j));
    assert(px(out, 1, j) == xform_px(bm, t, 1, j));
    assert(px(out, 2, j) == xform_px(bm, t, 2, j));
    assert(px(out, 3, j) == xform_px(bm, t, 3, j));
    assert(px(out, 4, j) == xform_px(bm, t, 4, j));
    assert(px(out, 5, j) == xform_px(bm, t, 5, j));
    assert(px(out, 6, j) == xform_px(bm, t, 6, j));
    assert(px(out, 7, j) == xform_px(bm, t, 7, j));
}

/// Every transformation but the inversion only moves pixels about, so it
/// keeps the coverage; the inversion leaves set exactly the pixels that
/// were clear, so its coverage is 64 less the original's.
pub proof fn lemma_xform_coverage(bm: Bitmap, t: Xform, out: Bitmap)
    requires
        forall|i: int, j: int| #[trigger] px(out, i, j) == xform_px(bm, t, i, j),
    ensures
        t != Xform::Invert ==> coverage_of(out) == coverage_of(bm),
        t == Xform::Invert ==> coverage_of(out) == 64 - coverage_of(bm),
{
    lemma_coverage_by_rows(bm);
    lemma_coverage_by_rows(out);
    lemma_rows_are_cols(bm);
    lemma_xform_row(bm, t, out, 0);
    lemma_xform_row(bm, t, out, 1);
    lemma_xform_row(bm, t, out, 2);
    lemma_xform_row(bm, t, out, 3);
    lemma_xform_row(bm, t, out, 4);
    lemma_xform_row(bm, t, out, 5);
    lemma_xform_row(bm, t, out, 6);
    lemma_xform_row(bm, t, out, 7);
}

/// A quarter turn one way undoes a quarter turn the other way.
pub proof fn lemma_rot90_rot270(bm: Bitmap, once: Bitmap, twice: Bitmap)
    requires
        forall|i: int, j: int| #[trigger] px(once, i, j) == xform_px(bm, Xform::Rot90, i, j),
        forall|i: int, j: int| #[trigger] px(twice, i, j) == xform_px(once, Xform::Rot270, i, j),
    ensures
        twice == bm,
{
    assert forall|x: int, y: int| 0 <= x < 8 && 0 <= y < 8 implies px(twice, x, y) == px(bm, x, y) by {
        let (sx, sy) = xform_src(Xform::Rot270, x, y);
        assert(px(once, sx, sy) == xform_px(bm, Xform::Rot90, sx, sy));
    }
    lemma_bitmap_ext(twice, bm);
}

/// Knocking `b` out of `a` and laying `b` back over it is laying `b` over
/// `a`: [`over`] and [`less`] are complementary.
pub proof fn lemma_over_less(a: Bitmap, b: Bitmap, cut: Bitmap, back: Bitmap, both: Bitmap)
    requires
        forall|i: int, j: int| #[trigger] px(cut, i, j) == (px(a, i, j) && !px(b, i, j)),
        forall|i: int, j: int| #[trigger] px(back, i, j) == (px(cut, i, j) || px(b, i, j)),
        forall|i: int, j: int| #[trigger] px(both, i, j) == (px(a, i, j) || px(b, i, j)),
    ensures
        back == both,
{
    assert forall|x: int, y: int| 0 <= x < 8 && 0 <= y < 8 implies px(back, x, y) == px(both, x, y) by {
        assert(px(cut, x, y) == (px(a, x, y) && !px(b, x, y)));
    }
    lemma_bitmap_ext(back, both);
}

} // verus!
