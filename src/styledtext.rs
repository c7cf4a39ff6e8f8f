use vstd::prelude::*;
use std::rc::Rc;
use crate::style::Style;
use crate::termrect::{HasSize, PaintableWidget, RawPaintable};

verus! {

/// The cells that a character takes on a terminal; `None` for a control
/// character.
pub uninterp spec fn char_width(c: char) -> Option<usize>;

/// The cells that a string takes on a terminal.
pub uninterp spec fn str_width(s: Seq<char>) -> usize;

pub open spec fn printable_ascii(c: char) -> bool {
    0x20 <= (c as int) < 0x7f
}

pub open spec fn all_printable_ascii(s: Seq<char>) -> bool {
    forall|i: int| 0 <= i < s.len() ==> #[trigger] printable_ascii(s[i])
}

/// Relies on unicode_width's `UnicodeWidthChar::width`: the width of one
/// character, `Some(1)` for each printable ASCII character.
#[verifier::external_body]
fn char_width_of(c: char) -> (r: Option<usize>)
    ensures
        r == char_width(c),
        printable_ascii(c) ==> r == Some(1usize),
{
    unicode_width::UnicodeWidthChar::width(c)
}

/// Relies on unicode_width's `UnicodeWidthStr::width`: the width of a string,
/// one cell per character for a string of printable ASCII.
#[verifier::external_body]
fn str_width_of(s: &str) -> (r: usize)
    ensures
        r == str_width(s@),
        all_printable_ascii(s@) ==> r == s@.len(),
{
    unicode_width::UnicodeWidthStr::width(s)
}

/// Relies on `Rc::clone`: the new handle shares the same string.
#[verifier::external_body]
fn share(t: &Rc<String>) -> (r: Rc<String>)
    ensures
        r == *t,
{
    Rc::clone(t)
}

/// Relies on `str::repeat`: `n` copies of a one-space string.
#[verifier::external_body]
pub(crate) fn blank(n: usize) -> (r: String)
    ensures
        r@ == Seq::new(n as nat, |i: int| ' '),
{
    " ".repeat(n)
}

/// The cells a character takes while slicing: a control character takes none.
pub open spec fn cells(c: char) -> usize {
    match char_width(c) {
        Some(w) => w,
        None => 0,
    }
}

/// The cells of each character of `s`.
pub open spec fn char_cells(s: Seq<char>) -> Seq<usize> {
    s.map_values(|c: char| cells(c))
}

/// The cells taken by the first `k` of the characters whose widths are `ws`.
pub open spec fn cells_before(ws: Seq<usize>, k: int) -> int
    decreases k,
{
    if k <= 0 {
        0
    } else {
        cells_before(ws, k - 1) + ws[k - 1]
    }
}

/// The first character position at or after `from` where the characters
/// before it take at least `w` cells; `ws.len()` where there is none.
pub open spec fn first_reaching(ws: Seq<usize>, from: int, w: int) -> int
    decreases ws.len() - from,
{
    if from >= ws.len() {
        ws.len() as int
    } else if cells_before(ws, from) >= w {
        from
    } else {
        first_reaching(ws, from + 1, w)
    }
}

/// The positions `[start, end)` of the characters, of widths `ws`, that stand
/// in cells `[a, b)`: from the first character that starts at cell `a` or
/// later, up to the first one that starts at cell `b` or later. A wide
/// character that cell `a` falls inside is left out; one that cell `b` falls
/// inside is kept.
pub open spec fn cell_range(ws: Seq<usize>, a: int, b: int) -> (int, int) {
    let start = first_reaching(ws, 0, a);
    (start, first_reaching(ws, start, b))
}

/// The characters of `s` that stand in cells `[a, b)`.
pub open spec fn width_slice_spec(s: Seq<char>, a: int, b: int) -> Seq<char> {
    let r = cell_range(char_cells(s), a, b);
    s.subrange(r.0, r.1)
}

pub open spec fn min_nat(a: int, b: int) -> int {
    if a <= b {
        a
    } else {
        b
    }
}

proof fn lemma_first_reaching_bounds(ws: Seq<usize>, from: int, w: int)
    requires
        0 <= from <= ws.len(),
    ensures
        from <= first_reaching(ws, from, w) <= ws.len(),
    decreases ws.len() - from,
{
    if from < ws.len() && cells_before(ws, from) < w {
        lemma_first_reaching_bounds(ws, from + 1, w);
    }
}

proof fn lemma_cells_before_ones(ws: Seq<usize>, k: int)
    requires
        0 <= k <= ws.len(),
        forall|j: int| 0 <= j < ws.len() ==> #[trigger] ws[j] == 1,
    ensures
        cells_before(ws, k) == k,
    decreases k,
{
    if k > 0 {
        lemma_cells_before_ones(ws, k - 1);
    }
}

proof fn lemma_first_reaching_ones(ws: Seq<usize>, from: int, w: int)
    requires
        0 <= from <= ws.len(),
        forall|k: int| 0 <= k <= ws.len() ==> #[trigger] cells_before(ws, k) == k,
    ensures
        first_reaching(ws, from, w) == if from >= w {
            from
        } else {
            min_nat(w, ws.len() as int)
        },
    decreases ws.len() - from,
{
    if from < ws.len() {
        assert(cells_before(ws, from) == from);
        if from < w {
            lemma_first_reaching_ones(ws, from + 1, w);
        }
    }
}

/// Given the widths of the characters of a text, the positions `[start, end)`
/// of the characters that stand in cells `[a, b)`. Where every character
/// takes one cell, these are the cells themselves, cut to the text.
pub fn cell_range_of(widths: &Vec<usize>, a: usize, b: usize) -> (r: (usize, usize))
    ensures
        r.0 == cell_range(widths@, a as int, b as int).0,
        r.1 == cell_range(widths@, a as int, b as int).1,
        r.0 <= r.1 <= widths.len(),
        (forall|j: int| 0 <= j < widths.len() ==> #[trigger] widths@[j] == 1) && a <= b ==> r == (
            min_nat(a as int, widths.len() as int) as usize,
            min_nat(b as int, widths.len() as int) as usize,
        ),
{
    let ghost ws = widths@;
    let n = widths.len();
    let mut width_so_far: usize = 0;
    let mut found_start = false;
    let mut found_end = false;
    let mut start_index: usize = n;
    let mut end_index: usize = n;
    let mut i: usize = 0;
    while i < n
        invariant
            n == ws.len(),
            ws == widths@,
            i <= n,
            width_so_far == min_nat(cells_before(ws, i as int), usize::MAX as int),
            !found_start ==> first_reaching(ws, 0, a as int) == first_reaching(ws, i as int, a as int),
            !found_start ==> !found_end && start_index == n && end_index == n,
            found_start ==> start_index == first_reaching(ws, 0, a as int) && start_index <= i,
            found_start && !found_end ==> first_reaching(ws, start_index as int, b as int)
                == first_reaching(ws, i as int, b as int) && end_index == n,
            found_end ==> end_index == first_reaching(ws, start_index as int, b as int),
        decreases n - i,
    {
        if !found_start && width_so_far >= a {
            start_index = i;
            found_start = true;
        }
        if found_start && !found_end && width_so_far >= b {
            end_index = i;
            found_end = true;
        }
        assert(found_start && !found_end ==> first_reaching(ws, i as int, b as int)
            == first_reaching(ws, i + 1, b as int));
        width_so_far = width_so_far.saturating_add(widths[i]);
        i = i + 1;
    }
    proof {
        lemma_first_reaching_bounds(ws, 0, a as int);
        lemma_first_reaching_bounds(ws, start_index as int, b as int);
        if forall|j: int| 0 <= j < ws.len() ==> #[trigger] ws[j] == 1 {
            assert forall|k: int| 0 <= k <= ws.len() implies #[trigger] cells_before(ws, k) == k by {
                lemma_cells_before_ones(ws, k);
            }
            lemma_first_reaching_ones(ws, 0, a as int);
            lemma_first_reaching_ones(ws, start_index as int, b as int);
        }
    }
    (start_index, end_index)
}

/// The cells of each character of `s`.
fn char_cells_of(s: &str) -> (r: Vec<usize>)
    ensures
        r@ == char_cells(s@),
        all_printable_ascii(s@) ==> forall|j: int| 0 <= j < r.len() ==> #[trigger] r@[j] == 1,
{
    let mut out: Vec<usize> = Vec::new();
    for c in it: s.chars()
        invariant
            it.seq() == s@,
            out@ == char_cells(s@).take(it.index()),
            all_printable_ascii(s@) ==> forall|j: int| 0 <= j < out.len() ==> #[trigger] out@[j] == 1,
    {
        let w = match char_width_of(c) {
            Some(w) => w,
            None => 0,
        };
        out.push(w);
        proof {
            assert(out@ =~= char_cells(s@).take(it.index() + 1));
        }
    }
    proof {
        assert(out@ =~= char_cells(s@));
    }
    out
}

/// The characters of `txt` that stand in cells `[a, b)`.
fn width_slice(txt: &str, a: usize, b: usize) -> (r: String)
    ensures
        r@ == width_slice_spec(txt@, a as int, b as int),
        all_printable_ascii(txt@) && a <= b ==> r@ == txt@.subrange(
            min_nat(a as int, txt@.len() as int),
            min_nat(b as int, txt@.len() as int),
        ),
{
    let widths = char_cells_of(txt);
    let (start, end) = cell_range_of(&widths, a, b);
    txt.substring_char(start, end).to_string()
}

/// What a run holds: its style, its characters and the cells it takes.
pub struct RunView {
    pub style: Style,
    pub text: Seq<char>,
    pub width: nat,
}

/// A span of text that all has one style, with the number of cells it takes.
/// The text is shared between clones.
#[derive(Debug)]
pub struct StyledText {
    style: Style,
    text: Rc<String>,
    width: u32,
}

impl View for StyledText {
    type V = RunView;

    closed spec fn view(&self) -> RunView {
        RunView { style: self.style, text: self.text@, width: self.width as nat }
    }
}

impl Clone for StyledText {
    fn clone(&self) -> (r: StyledText)
        ensures
            r@ == self@,
    {
        StyledText { style: self.style, text: share(&self.text), width: self.width }
    }
}

impl StyledText {
    /// A run of `text` in `style`, as wide as the text is on a terminal.
    pub fn new(style: Style, text: String) -> (r: StyledText)
        ensures
            r@.style == style,
            r@.text == text@,
            r@.width == (str_width(text@) as u32) as nat,
            all_printable_ascii(text@) && text@.len() <= u32::MAX ==> r@.width == text@.len(),
    {
        let width = str_width_of(text.as_str());
        StyledText { style, text: Rc::new(text), width: width as u32 }
    }

    /// The run of the same style that stands in cells `[a, b)` of this one.
    /// Cells past the end of the run are cut off: the slice is as wide as the
    /// part of `[a, b)` that lies within the run.
    pub fn slice(&self, a: usize, b: usize) -> (r: StyledText)
        requires
            a <= b,
        ensures
            r@.style == self@.style,
            r@.text == width_slice_spec(self@.text, a as int, b as int),
            r@.width == min_nat(b as int, self@.width as int) - min_nat(a as int, self@.width as int),
            all_printable_ascii(self@.text) ==> r@.text == self@.text.subrange(
                min_nat(a as int, self@.text.len() as int),
                min_nat(b as int, self@.text.len() as int),
            ),
    {
        let w = self.width as usize;
        let a_in = if a <= w {
            a
        } else {
            w
        };
        let b_in = if b <= w {
            b
        } else {
            w
        };
        let sliced = width_slice(self.text.as_str(), a, b);
        StyledText { style: self.style, text: Rc::new(sliced), width: (b_in - a_in) as u32 }
    }

    pub fn style(&self) -> (r: Style)
        ensures
            r == self@.style,
    {
        self.style
    }

    pub fn text(&self) -> (r: &str)
        ensures
            r@ == self@.text,
    {
        self.text.as_str()
    }

    pub fn width(&self) -> (r: u32)
        ensures
            r == self@.width,
    {
        self.width
    }
}

impl HasSize for StyledText {
    fn size(&self) -> (r: (u32, u32))
        ensures
            r == (self@.width as u32, 1u32),
    {
        (self.width, 1)
    }
}

impl PaintableWidget for StyledText {
    fn draw_into<R: RawPaintable>(&self, target: &mut R, pos: (u32, u32)) {
        target.draw_text_at(pos, self);
    }
}

} // verus!
