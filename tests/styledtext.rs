use std::fmt::Debug;
use std::ops::{Bound, RangeBounds};
use termrect::styledtext::{cell_range_of, StyledText};
use termrect::Style;

#[test]
fn empty_styledtext() {
    StyledText::new(Style::default(), "".to_string());
}

fn bounds<R: RangeBounds<usize>>(r: &R, width: usize) -> (usize, usize) {
    let a = match r.start_bound() {
        Bound::Included(i) => *i,
        Bound::Excluded(i) => i + 1,
        Bound::Unbounded => 0,
    };
    let b = match r.end_bound() {
        Bound::Included(i) => *i + 1,
        Bound::Excluded(i) => *i,
        Bound::Unbounded => width,
    };
    (a, b)
}

fn slice_test<R: RangeBounds<usize> + Clone + Debug>(s: &str, r: R, sl: &str, w: u32) {
    let text = StyledText::new(Style::default(), s.to_string());
    let (a, b) = bounds(&r, text.width() as usize);
    let slice = text.slice(a, b);
    assert_eq!(
        slice.text(),
        sl,
        "Slice str is incorrect: want: {:?}, got {:?}",
        sl,
        slice.text()
    );
    assert_eq!(
        slice.width(),
        w,
        "Slice width is incorrect: {:?}.slice({:?}) width is {}, wanted {}",
        s,
        r,
        slice.width(),
        w
    );
}

#[test]
fn slicing() {
    slice_test("asdf", .., "asdf", 4);
    slice_test("asdf", 0..4, "asdf", 4);
    slice_test("asdf", 1..3, "sd", 2);
    slice_test("台北1234", .., "台北1234", 8); // 2 double-width chars
    slice_test("台北1234", 0..2, "台", 2); // 2 double-width chars

    // A wide character that the end of the range falls inside is kept.
    slice_test("台北1234", 0..1, "台", 1);

    // A wide character that the start of the range falls inside is left out.
    slice_test("台北1234", 1..2, "", 1);

    slice_test("台北1234", 2..4, "北", 2);
    slice_test("ＱＲＳ12", .., "ＱＲＳ12", 8);
    slice_test("ｱｲｳ1234", .., "ｱｲｳ1234", 7); // 3 single-width chars
}

#[test]
fn empty_text_has_no_width() {
    let t = StyledText::new(Style::default(), String::new());
    assert_eq!(t.width(), 0);
    assert_eq!(t.text(), "");
}

#[test]
fn wide_text_is_measured_in_cells() {
    let t = StyledText::new(Style::default(), "台北".to_string());
    assert_eq!(t.width(), 4);
    assert_eq!(t.text(), "台北");
}

#[test]
fn ascii_slice_of_full_width_round_trips() {
    for s in ["a", "hello world", "x y ~!", "0123456789"] {
        let t = StyledText::new(Style::default(), s.to_string());
        assert_eq!(t.width() as usize, s.len());
        let back = t.slice(0, t.width() as usize);
        assert_eq!(back.text(), s);
        assert_eq!(back.width(), t.width());
    }
}

#[test]
fn slice_past_end_is_clipped() {
    let t = StyledText::new(Style::default(), "abc".to_string());
    let s = t.slice(1, 10);
    assert_eq!(s.text(), "bc");
    assert_eq!(s.width(), 2);
    let s = t.slice(5, 7);
    assert_eq!(s.text(), "");
    assert_eq!(s.width(), 0);
}

#[test]
fn wide_slice_skips_a_bisected_start() {
    // cells 3..6 of "台北1234": cell 3 is inside 北, so the slice starts at "1"
    let t = StyledText::new(Style::default(), "台北1234".to_string());
    let s = t.slice(3, 6);
    assert_eq!(s.text(), "12");
    assert_eq!(s.width(), 3);
}

#[test]
fn clone_keeps_text_and_style() {
    let style = Style::default().set_fg(termrect::Color::Indexed(3));
    let t = StyledText::new(style, "abc".to_string());
    let c = t.clone();
    assert_eq!(c.text(), "abc");
    assert_eq!(c.width(), 3);
    assert_eq!(c.style(), style);
    assert_eq!(t.slice(0, 2).style(), style);
}

#[test]
fn control_characters_take_no_cells_when_slicing() {
    // the tab takes no cell: it starts at cell 1 together with "b"
    let t = StyledText::new(Style::default(), "a\tbc".to_string());
    let s = t.slice(1, 3);
    assert_eq!(s.text(), "\tbc");
    assert_eq!(s.width(), 2);
}

#[test]
fn cell_range_of_given_widths() {
    // widths of "台北1234"
    let w = vec![2usize, 2, 1, 1, 1, 1];
    assert_eq!(cell_range_of(&w, 0, 8), (0, 6));
    assert_eq!(cell_range_of(&w, 0, 1), (0, 1));
    assert_eq!(cell_range_of(&w, 1, 2), (1, 1));
    assert_eq!(cell_range_of(&w, 2, 4), (1, 2));
    assert_eq!(cell_range_of(&w, 3, 6), (2, 4));
    assert_eq!(cell_range_of(&w, 8, 9), (6, 6));
    // a zero-width character goes with the cell it stands before
    let z = vec![1usize, 0, 1];
    assert_eq!(cell_range_of(&z, 1, 2), (1, 3));
    assert_eq!(cell_range_of(&vec![], 0, 3), (0, 0));
}
