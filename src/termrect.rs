use vstd::prelude::*;
use crate::delta::Delta;
use crate::line::{blank_line_view, line_overwritten, Line, LineView};
use crate::style::Style;
use crate::styledtext::{blank, RunView, StyledText};

verus! {

/// `base + by`, where it is a `u32`.
pub fn shifted(base: u32, by: usize) -> (r: Option<u32>)
    ensures
        r == if base + by <= u32::MAX {
            Some((base + by) as u32)
        } else {
            None::<u32>
        },
{
    if by <= (u32::MAX - base) as usize {
        Some(base + by as u32)
    } else {
        None
    }
}

pub trait HasSize {
    /// The width, height of the widget.
    fn size(&self) -> (u32, u32);
}

/// Something that text can be drawn into: a terminal, or a buffer of one.
pub trait RawPaintable: HasSize {
    /// Draw the text at the position. Return true if something changed.
    fn draw_text_at(&mut self, pos: (u32, u32), text: &StyledText) -> bool;

    /// Draw the string at the position. Return true if something changed.
    fn draw_str_at(&mut self, pos: (u32, u32), style: Style, text: String) -> bool {
        self.draw_text_at(pos, &StyledText::new(style, text))
    }

    /// Clear the whole line after pos. Return true if something changed.
    fn clear_line(&mut self, pos: (u32, u32), style: Style) -> bool {
        let spaces = blank(self.size().0 as usize);
        self.draw_str_at(pos, style, spaces)
    }
}

/// A widget that can draw itself, in full or only what changed since it was
/// last drawn.
pub trait PaintableWidget: HasSize {
    /// Draw this widget into the target. Same as mark_all_changed followed by
    /// draw_delta_into.
    fn draw_into<R: RawPaintable>(&self, target: &mut R, pos: (u32, u32));

    /// Draw only what has changed since last time into the target. This clears
    /// the delta info for next time.
    fn draw_delta_into<R: RawPaintable>(&mut self, target: &mut R, pos: (u32, u32)) {
        self.draw_into(target, pos)
    }

    /// Mark everything changed. Next draw_delta_into will redraw everything.
    fn mark_all_changed(&mut self) {
    }

    /// Mark nothing changed. Next draw_delta_into will do nothing.
    fn mark_none_changed(&mut self) {
    }
}

pub struct TermRectView {
    pub width: nat,
    pub height: nat,
    pub lines: Seq<LineView>,
    pub delta: Delta,
}

/// TermRect is a representation of a rectangle of characters in a terminal
/// grid. It keeps track of changes between calls to draw_delta_into, to always
/// do only minimal updates.
#[derive(Debug)]
pub struct TermRect {
    size: (u32, u32),
    lines: Vec<Line>,
    delta: Delta,
}

impl View for TermRect {
    type V = TermRectView;

    closed spec fn view(&self) -> TermRectView {
        TermRectView {
            width: self.size.0 as nat,
            height: self.size.1 as nat,
            lines: line_views(self.lines@),
            delta: self.delta,
        }
    }
}

/// What each line of `s` holds.
pub open spec fn line_views(s: Seq<Line>) -> Seq<LineView> {
    s.map_values(|l: Line| l@)
}

proof fn lemma_replace_keeps_wf(v: TermRectView, lines: Seq<Line>, i: int, line: Line)
    requires
        v.lines == line_views(lines),
        termrect_wf(v),
        0 <= i < lines.len(),
        line@.width == v.width,
    ensures
        termrect_wf(TermRectView { lines: line_views(lines.update(i, line)), ..v }),
        line_views(lines.update(i, line)) =~= v.lines.update(i, line@),
{
}

/// Exchanges `lines[i]` and `line`.
fn swap_line(lines: &mut Vec<Line>, i: usize, line: &mut Line)
    requires
        i < old(lines).len(),
    ensures
        final(lines)@ == old(lines)@.update(i as int, *old(line)),
        *final(line) == old(lines)@[i as int],
    no_unwind
{
    std::mem::swap(&mut lines[i], line);
}

/// One line per row, each as wide as the rectangle.
pub open spec fn termrect_wf(v: TermRectView) -> bool {
    &&& v.lines.len() == v.height
    &&& forall|i: int| 0 <= i < v.lines.len() ==> (#[trigger] v.lines[i]).width == v.width
}

/// The rectangle after `text` is written at `pos`, on a row of it: the row
/// is overwritten and marked changed.
pub open spec fn termrect_written(v: TermRectView, pos: (u32, u32), text: RunView) -> TermRectView {
    let y = pos.1 as int;
    TermRectView {
        lines: v.lines.update(y, line_overwritten(v.lines[y], pos.0 as int, text)),
        delta: v.delta.with_range(pos.1 as usize, (pos.1 + 1) as usize),
        ..v
    }
}

impl TermRect {
    #[verifier::type_invariant]
    spec fn inv(self) -> bool {
        termrect_wf(self@)
    }

    pub open spec fn wf(&self) -> bool {
        termrect_wf(self@)
    }

    /// Create a new TermRect filled with blank lines. Starts out with an empty
    /// delta, so the first draw_delta_into will do nothing.
    pub fn new(size: (u32, u32)) -> (r: TermRect)
        ensures
            r.wf(),
            r@.width == size.0,
            r@.height == size.1,
            r@.delta == Delta::Unchanged,
            forall|i: int| 0 <= i < size.1 ==> #[trigger] r@.lines[i] == blank_line_view(size.0),
    {
        let blank_line = Line::new(size.0);
        let mut lines: Vec<Line> = Vec::new();
        let mut i: u32 = 0;
        while i < size.1
            invariant
                i <= size.1,
                lines.len() == i,
                blank_line@ == blank_line_view(size.0),
                blank_line@.width == size.0,
                forall|j: int| 0 <= j < i ==> #[trigger] lines[j]@ == blank_line@,
            decreases size.1 - i,
        {
            lines.push(blank_line.clone());
            i = i + 1;
        }
        TermRect { size, lines, delta: Delta::Unchanged }
    }

    /// The lines, top to bottom; every rectangle is well formed.
    pub fn lines(&self) -> (r: &Vec<Line>)
        ensures
            line_views(r@) == self@.lines,
            self.wf(),
    {
        proof {
            use_type_invariant(self);
        }
        &self.lines
    }

    pub fn delta(&self) -> (r: Delta)
        ensures
            r == self@.delta,
            self.wf(),
    {
        proof {
            use_type_invariant(self);
        }
        self.delta
    }
}

impl RawPaintable for TermRect {
    /// Writes `text` into the row `pos.1` at column `pos.0`, and marks the
    /// row changed when it changed. A run of width zero is refused.
    fn draw_text_at(&mut self, pos: (u32, u32), text: &StyledText) -> (changed: bool)
        ensures
            changed == (pos.1 < old(self)@.height && pos.1 < old(self)@.lines.len() && text@.width
                > 0 && pos.0 < old(self)@.lines[pos.1 as int].width),
            changed ==> final(self)@ == termrect_written(old(self)@, pos, text@),
            !changed ==> final(self)@ == old(self)@,
    {
        proof {
            use_type_invariant(&*self);
        }
        let y = pos.1 as usize;
        if pos.1 < self.size.1 && y < self.lines.len() && text.width() > 0 {
            let ghost before = self@;
            // A blank line of the same width holds the row while it is written.
            let mut line = Line::new(self.size.0);
            proof {
                lemma_replace_keeps_wf(self@, self.lines@, y as int, line);
            }
            swap_line(&mut self.lines, y, &mut line);
            let changed = line.draw_text_at(pos.0, text);
            proof {
                lemma_replace_keeps_wf(self@, self.lines@, y as int, line);
            }
            swap_line(&mut self.lines, y, &mut line);
            if changed {
                let mut delta = self.delta;
                delta.add(y);
                self.delta = delta;
                proof {
                    assert(self@.lines =~= before.lines.update(
                        y as int,
                        line_overwritten(before.lines[y as int], pos.0 as int, text@),
                    ));
                }
                true
            } else {
                proof {
                    assert(self@.lines =~= before.lines);
                }
                false
            }
        } else {
            false
        }
    }
}

impl HasSize for TermRect {
    fn size(&self) -> (r: (u32, u32))
        ensures
            r == (self@.width as u32, self@.height as u32),
    {
        self.size
    }
}

impl PaintableWidget for TermRect {
    /// Draws every row `i` at `(pos.0, pos.1 + i)`, top to bottom; a row
    /// whose line lies past the last `u32` line is not drawn.
    fn draw_into<R: RawPaintable>(&self, target: &mut R, pos: (u32, u32)) {
        let mut i: usize = 0;
        while i < self.lines.len()
            decreases self.lines.len() - i,
        {
            match shifted(pos.1, i) {
                Some(py) => self.lines[i].draw_into(target, (pos.0, py)),
                None => {},
            }
            i = i + 1;
        }
    }

    /// Draws the changed rows, each only where it changed, and then marks
    /// nothing changed, in the rectangle and in those rows.
    fn draw_delta_into<R: RawPaintable>(&mut self, target: &mut R, pos: (u32, u32))
        ensures
            final(self)@.width == old(self)@.width,
            final(self)@.height == old(self)@.height,
            final(self)@.delta == Delta::Unchanged,
            final(self)@.lines.len() == old(self)@.lines.len(),
            forall|i: int|
                0 <= i < old(self)@.lines.len() ==> (#[trigger] final(self)@.lines[i]).runs
                    == old(self)@.lines[i].runs && final(self)@.lines[i].width
                    == old(self)@.lines[i].width && final(self)@.lines[i].delta == if old(
                    self,
                )@.delta.has(i) {
                    Delta::Unchanged
                } else {
                    old(self)@.lines[i].delta
                },
    {
        proof {
            use_type_invariant(&*self);
        }
        let ghost before = self@;
        let mut i: usize = 0;
        while i < self.lines.len()
            invariant
                i <= self.lines.len(),
                self.wf(),
                self@.width == before.width,
                self@.height == before.height,
                self@.delta == before.delta,
                self@.lines.len() == before.lines.len(),
                forall|k: int|
                    0 <= k < before.lines.len() ==> (#[trigger] self@.lines[k]).runs
                        == before.lines[k].runs && self@.lines[k].width == before.lines[k].width
                        && self@.lines[k].delta == if k < i && before.delta.has(k) {
                        Delta::Unchanged
                    } else {
                        before.lines[k].delta
                    },
            decreases self.lines.len() - i,
        {
            if self.delta.contains(i) {
                let ghost mid = self@;
                let mut line = Line::new(self.size.0);
                proof {
                    lemma_replace_keeps_wf(self@, self.lines@, i as int, line);
                }
                swap_line(&mut self.lines, i, &mut line);
                assert(line@ == mid.lines[i as int]);
                match shifted(pos.1, i) {
                    Some(py) => line.draw_delta_into(target, (pos.0, py)),
                    None => line.mark_none_changed(),
                }
                proof {
                    lemma_replace_keeps_wf(self@, self.lines@, i as int, line);
                }
                swap_line(&mut self.lines, i, &mut line);
                proof {
                    assert forall|k: int|
                        0 <= k < before.lines.len() && k != i implies #[trigger] self@.lines[k]
                        == mid.lines[k] by {}
                }
            }
            i = i + 1;
        }
        self.mark_none_changed();
    }

    /// Marks every row changed, and in every row every column, so that the
    /// next draw_delta_into draws everything.
    fn mark_all_changed(&mut self)
        ensures
            final(self)@.width == old(self)@.width,
            final(self)@.height == old(self)@.height,
            final(self)@.delta == Delta::Range(0, old(self)@.height as usize),
            final(self)@.lines.len() == old(self)@.lines.len(),
            forall|i: int|
                0 <= i < old(self)@.lines.len() ==> (#[trigger] final(self)@.lines[i]) == (LineView {
                    delta: Delta::Range(0, old(self)@.lines[i].width as usize),
                    ..old(self)@.lines[i]
                }),
    {
        proof {
            use_type_invariant(&*self);
        }
        let ghost before = self@;
        let mut i: usize = 0;
        while i < self.lines.len()
            invariant
                i <= self.lines.len(),
                self.wf(),
                self@.width == before.width,
                self@.height == before.height,
                self@.delta == before.delta,
                self@.lines.len() == before.lines.len(),
                forall|k: int|
                    0 <= k < before.lines.len() ==> (#[trigger] self@.lines[k]) == if k < i {
                        LineView {
                            delta: Delta::Range(0, before.lines[k].width as usize),
                            ..before.lines[k]
                        }
                    } else {
                        before.lines[k]
                    },
            decreases self.lines.len() - i,
        {
            let ghost mid = self@;
            let mut line = Line::new(self.size.0);
            proof {
                lemma_replace_keeps_wf(self@, self.lines@, i as int, line);
            }
            swap_line(&mut self.lines, i, &mut line);
            assert(line@ == mid.lines[i as int]);
            line.mark_all_changed();
            proof {
                lemma_replace_keeps_wf(self@, self.lines@, i as int, line);
            }
            swap_line(&mut self.lines, i, &mut line);
            proof {
                assert forall|k: int|
                    0 <= k < before.lines.len() && k != i implies #[trigger] self@.lines[k]
                    == mid.lines[k] by {}
            }
            i = i + 1;
        }
        self.delta = Delta::Range(0, self.size.1 as usize);
    }

    fn mark_none_changed(&mut self)
        ensures
            final(self)@ == (TermRectView { delta: Delta::Unchanged, ..old(self)@ }),
    {
        proof {
            use_type_invariant(&*self);
        }
        self.delta = Delta::Unchanged;
    }
}

/// HasTermRect is intended for widgets that render themselves to an embedded
/// TermRect. Wrapping such a widget in `Embedded` gives it `HasSize` and
/// `PaintableWidget`, forwarded to its TermRect.
pub trait HasTermRect {
    fn termrect(&self) -> &TermRect;
    fn termrect_mut(&mut self) -> &mut TermRect;
}

/// A widget that draws through its embedded TermRect.
pub struct Embedded<T: HasTermRect>(pub T);

impl<T: HasTermRect> HasSize for Embedded<T> {
    fn size(&self) -> (u32, u32) {
        self.0.termrect().size()
    }
}

impl<T: HasTermRect> PaintableWidget for Embedded<T> {
    fn draw_into<R: RawPaintable>(&self, target: &mut R, pos: (u32, u32)) {
        self.0.termrect().draw_into(target, pos)
    }

    fn draw_delta_into<R: RawPaintable>(&mut self, target: &mut R, pos: (u32, u32)) {
        self.0.termrect_mut().draw_delta_into(target, pos)
    }

    fn mark_all_changed(&mut self) {
        self.0.termrect_mut().mark_all_changed()
    }

    fn mark_none_changed(&mut self) {
        self.0.termrect_mut().mark_none_changed()
    }
}

} // verus!
