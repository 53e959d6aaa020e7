use lib::frame::{Cel, Frame};

#[test]
fn out_of_bounds_writes_are_dropped_not_wrapped() {
    let mut f = Frame::new(4, 3);
    let c = Cel { glyph: 9, color: 40 };
    f.put(-1, 0, c);
    f.put(4, 0, c);
    f.put(0, 3, c);
    assert!(f.cels.iter().all(|&x| x == Cel::empty()), "a write escaped the frame");
}

#[test]
fn writes_land_where_they_are_put() {
    let mut f = Frame::new(4, 3);
    let c = Cel { glyph: 9, color: 40 };
    f.put(2, 1, c);
    assert_eq!(f.get(2, 1), c);
    assert_eq!(f.cels[4 + 2], c);
}

#[test]
fn resize_only_reallocates_on_a_real_change() {
    let mut f = Frame::new(80, 24);
    f.put(0, 0, Cel { glyph: 5, color: 3 });
    f.resize(80, 24);
    assert_eq!(f.get(0, 0).glyph, 5, "a no-op resize threw the frame away");
    f.resize(40, 25);
    assert_eq!(f.cels.len(), 1000);
    assert_eq!(f.get(0, 0), Cel::empty());
}

/// Text lands left to right from its start, in its colour; characters
/// the map has no glyph for leave the cell alone, and the run is clipped
/// at the edge of the frame.
#[test]
fn text_runs_left_to_right_and_skips_what_it_cannot_draw() {
    let mut f = Frame::new(6, 2);
    f.put(2, 1, Cel { glyph: 77, color: 1 });
    let map = |ch: char| if ch == ' ' { None } else { Some(ch as u8 - b'a' + 1) };
    f.text(1, 1, "ab cdef", 42, map);
    assert_eq!(f.get(0, 1), Cel::empty());
    assert_eq!(f.get(1, 1), Cel { glyph: 1, color: 42 });
    assert_eq!(f.get(2, 1), Cel { glyph: 2, color: 42 });
    assert_eq!(f.get(3, 1), Cel::empty());
    assert_eq!(f.get(4, 1), Cel { glyph: 3, color: 42 });
    assert_eq!(f.get(5, 1), Cel { glyph: 4, color: 42 });
    assert!((0..6).all(|x| f.get(x, 0) == Cel::empty()), "the text leaked onto another row");
    assert_eq!(f.cels.len(), 12);
}
