//! The frame buffer: one glyph and one colour per character cell.
//!
//! Two bytes a cell, which is exactly what the Plus/4 has - a screen byte
//! and a colour byte - laid out row-major the way the TED reads them.
use vstd::prelude::*;
use crate::catalog::{GlyphId, G_BLANK};
use crate::palette::{Color, BLACK};

verus! {

/// One character cell.
#[derive(Clone, Copy, Debug, PartialEq, Eq, Structural)]
pub struct Cel {
    /// Catalogue index.
    pub glyph: GlyphId,
    /// Packed `hue << 3 | luminance`.
    pub color: Color,
}

/// An empty cell: the blank glyph in black.
pub open spec fn empty_cel() -> Cel {
    Cel { glyph: G_BLANK, color: BLACK }
}

impl Cel {
    /// An empty cell.
    pub fn empty() -> (c: Cel)
        ensures
            c == empty_cel(),
    {
        Cel { glyph: G_BLANK, color: BLACK }
    }
}

impl Default for Cel {
    fn default() -> (c: Cel)
        ensures
            c == empty_cel(),
    {
        Cel { glyph: G_BLANK, color: BLACK }
    }
}

/// What [`Frame::text`] may leave in a cell of its run: the glyph the map
/// gave for the character in the run's colour, or the cell as it was
/// where the map gave none.
pub open spec fn text_cel(map: impl Fn(char) -> Option<GlyphId>, ch: char, color: Color, before: Cel, after: Cel) -> bool {
    ||| exists|g: GlyphId| #[trigger] call_ensures(map, (ch,), Some(g)) && after == (Cel { glyph: g, color })
    ||| call_ensures(map, (ch,), None) && after == before
}

/// A screenful.
#[derive(Clone)]
pub struct Frame {
    /// Columns.
    pub w: usize,
    /// Rows.
    pub h: usize,
    /// Cells, row-major.
    pub cels: Vec<Cel>,
}

/// Whether `(x, y)` is a cell of a `w` by `h` frame.
pub open spec fn on_screen(w: int, h: int, x: int, y: int) -> bool {
    0 <= x < w && 0 <= y < h
}

impl Frame {
    /// The buffer holds exactly one cell per column and row.
    pub open spec fn wf(&self) -> bool {
        self.cels@.len() == self.w * self.h
    }

    /// The cell at a position, or an empty cel off-screen.
    pub open spec fn cell(&self, x: int, y: int) -> Cel {
        if on_screen(self.w as int, self.h as int, x, y) {
            self.cels@[y * self.w + x]
        } else {
            empty_cel()
        }
    }

    /// A cleared frame.
    pub fn new(w: usize, h: usize) -> (f: Frame)
        requires
            w * h <= usize::MAX,
        ensures
            f.wf(),
            f.w == w,
            f.h == h,
            forall|i: int| 0 <= i < w * h ==> f.cels@[i] == empty_cel(),
    {
        Frame { w, h, cels: vec![Cel::empty(); w * h] }
    }

    /// Resize, discarding contents; a resize to the same size keeps them.
    pub fn resize(&mut self, w: usize, h: usize)
        requires
            w * h <= usize::MAX,
        ensures
            w == old(self).w && h == old(self).h ==> *final(self) == *old(self),
            !(w == old(self).w && h == old(self).h) ==> final(self).w == w && final(self).h == h
                && final(self).wf() && forall|i: int|
                0 <= i < w * h ==> final(self).cels@[i] == empty_cel(),
    {
        if w != self.w || h != self.h {
            self.w = w;
            self.h = h;
            self.cels = vec![Cel::empty(); w * h];
        }
    }

    /// Clear to black.
    pub fn clear(&mut self)
        ensures
            final(self).w == old(self).w,
            final(self).h == old(self).h,
            final(self).cels@.len() == old(self).cels@.len(),
            forall|i: int| 0 <= i < final(self).cels@.len() ==> final(self).cels@[i] == empty_cel(),
    {
        let n = self.cels.len();
        let mut i: usize = 0;
        while i < n
            invariant
                self.w == old(self).w,
                self.h == old(self).h,
                n == self.cels@.len(),
                n == old(self).cels@.len(),
                i <= n,
                forall|j: int| 0 <= j < i ==> self.cels@[j] == empty_cel(),
            decreases n - i,
        {
            self.cels.set(i, Cel::empty());
            i = i + 1;
        }
    }

    /// Write a cell, ignoring anything off-screen.
    pub fn put(&mut self, x: i32, y: i32, c: Cel)
        requires
            old(self).wf(),
        ensures
            final(self).wf(),
            final(self).w == old(self).w,
            final(self).h == old(self).h,
            on_screen(old(self).w as int, old(self).h as int, x as int, y as int)
                ==> final(self).cels@ == old(self).cels@.update(y * old(self).w + x, c),
            !on_screen(old(self).w as int, old(self).h as int, x as int, y as int)
                ==> final(self).cels@ == old(self).cels@,
            forall|i: int, j: int| #[trigger] final(self).cell(i, j) == if i == x && j == y && on_screen(old(self).w as int, old(self).h as int, i, j) {
                c
            } else {
                old(self).cell(i, j)
            },
    {
        proof {
            if on_screen(self.w as int, self.h as int, x as int, y as int) {
                assert forall|i: int, j: int| on_screen(self.w as int, self.h as int, i, j) && !(i == x && j == y) implies
                    #[trigger] (j * self.w + i) != y * self.w + x && 0 <= j * self.w + i < self.w * self.h by {
                    assert(0 <= j * self.w + i < self.w * self.h) by (nonlinear_arith)
                        requires
                            0 <= i < self.w,
                            0 <= j < self.h,
                    ;
                    if j < y {
                        assert(j * self.w + i < y * self.w + x) by (nonlinear_arith)
                            requires
                                j < y,
                                0 <= i < self.w,
                                0 <= x,
                        ;
                    } else if j > y {
                        assert(y * self.w + x < j * self.w + i) by (nonlinear_arith)
                            requires
                                y < j,
                                0 <= x < self.w,
                                0 <= i,
                        ;
                    }
                }
            }
        }
        if x >= 0 && y >= 0 && (x as usize) < self.w && (y as usize) < self.h {
            let i = index_of(x as usize, y as usize, self.w, self.h, self.cels.len());
            self.cels.set(i, c);
        }
    }

    /// Read a cell, or an empty cel off-screen.
    pub fn get(&self, x: i32, y: i32) -> (c: Cel)
        requires
            self.wf(),
        ensures
            c == self.cell(x as int, y as int),
    {
        if x >= 0 && y >= 0 && (x as usize) < self.w && (y as usize) < self.h {
            let i = index_of(x as usize, y as usize, self.w, self.h, self.cels.len());
            self.cels[i]
        } else {
            Cel::empty()
        }
    }

    /// Write a run of ASCII text, for the status line.  Characters the map
    /// has no glyph for are dropped rather than approximated.
    pub fn text(&mut self, x: i32, y: i32, s: &str, color: Color, map: impl Fn(char) -> Option<GlyphId>)
        requires
            old(self).wf(),
            forall|ch: char| #[trigger] map.requires((ch,)),
            s@.len() <= i32::MAX,
            x + s@.len() <= i32::MAX + 1,
        ensures
            final(self).wf(),
            final(self).w == old(self).w,
            final(self).h == old(self).h,
            forall|i: int, j: int|
                !(j == y && x <= i < x + s@.len()) ==> #[trigger] final(self).cell(i, j) == old(self).cell(i, j),
            forall|k: int|
                0 <= k < s@.len() && on_screen(old(self).w as int, old(self).h as int, x + k, y as int) ==> text_cel(
                    map,
                    s@[k],
                    color,
                    old(self).cell(x + k, y as int),
                    #[trigger] final(self).cell(x + k, y as int),
                ),
    {
        let mut i: usize = 0;
        for ch in it: s.chars()
            invariant
                self.wf(),
                self.w == old(self).w,
                self.h == old(self).h,
                i == it.index(),
                it.seq() == s@,
                s@.len() <= i32::MAX,
                x + s@.len() <= i32::MAX + 1,
                forall|ch: char| #[trigger] map.requires((ch,)),
                forall|a: int, b: int|
                    !(b == y && x <= a < x + i) ==> #[trigger] self.cell(a, b) == old(self).cell(a, b),
                forall|k: int|
                    0 <= k < i && on_screen(old(self).w as int, old(self).h as int, x + k, y as int) ==> text_cel(
                        map,
                        s@[k],
                        color,
                        old(self).cell(x + k, y as int),
                        #[trigger] self.cell(x + k, y as int),
                    ),
        {
            let pos = x + i as i32;
            if let Some(g) = map(ch) {
                self.put(pos, y, Cel { glyph: g, color });
            }
            i = i + 1;
        }
    }
}

/// The row-major index of an on-screen cell.
fn index_of(x: usize, y: usize, w: usize, h: usize, n: usize) -> (i: usize)
    requires
        x < w,
        y < h,
        w * h == n,
    ensures
        i == y * w + x,
        i < w * h,
{
    proof {
        assert(y * w + x < w * h) by (nonlinear_arith)
            requires
                x < w,
                y < h,
        ;
    }
    y * w + x
}

} // verus!
