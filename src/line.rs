use vstd::prelude::*;
use crate::delta::Delta;
use crate::style::Style;
use crate::styledtext::{blank, all_printable_ascii, min_nat, width_slice_spec, RunView, StyledText};
use crate::termrect::{shifted, HasSize, PaintableWidget, RawPaintable};

verus! {

/// The cells taken by all the runs.
pub open spec fn sum_widths(runs: Seq<RunView>) -> nat
    decreases runs.len(),
{
    if runs.len() == 0 {
        0
    } else {
        sum_widths(runs.drop_last()) + runs.last().width
    }
}

/// The column where run `i` starts.
pub open spec fn run_start(runs: Seq<RunView>, i: int) -> nat {
    sum_widths(runs.take(i))
}

/// The first run from `k` on that ends after column `col`; `runs.len()` if
/// there is none.
pub open spec fn first_ending_after(runs: Seq<RunView>, k: int, col: int) -> int
    decreases runs.len() - k,
{
    if k >= runs.len() {
        runs.len() as int
    } else if run_start(runs, k + 1) > col {
        k
    } else {
        first_ending_after(runs, k + 1, col)
    }
}

/// What `StyledText::slice(a, b)` makes of a run.
pub open spec fn slice_view(r: RunView, a: int, b: int) -> RunView {
    RunView {
        style: r.style,
        text: width_slice_spec(r.text, a, b),
        width: (min_nat(b, r.width as int) - min_nat(a, r.width as int)) as nat,
    }
}

/// The cells of `t` that fit in a row of width `w` from column `x` on.
pub open spec fn fitted_width(w: int, x: int, t: RunView) -> int {
    if t.width <= w - x {
        t.width as int
    } else {
        w - x
    }
}

/// The runs after `t` is written at column `x`, with `x` inside the row: the
/// runs that `t` covers are replaced by what is left of the first of them
/// before `x`, `t` cut to the row's width, and what is left of the last of
/// them after `t`.
pub open spec fn overwritten(runs: Seq<RunView>, x: int, t: RunView) -> Seq<RunView> {
    let m = fitted_width(sum_widths(runs) as int, x, t);
    let e = x + m;
    let si = first_ending_after(runs, 0, x);
    let ei = first_ending_after(runs, si, e - 1);
    let left = if run_start(runs, si) < x {
        seq![slice_view(runs[si], 0, x - run_start(runs, si))]
    } else {
        Seq::empty()
    };
    let mid = if m < t.width {
        slice_view(t, 0, m)
    } else {
        t
    };
    let right = if e < run_start(runs, ei + 1) {
        seq![slice_view(runs[ei], e - run_start(runs, ei), runs[ei].width as int)]
    } else {
        Seq::empty()
    };
    runs.take(si) + left + seq![mid] + right + runs.skip(ei + 1)
}

/// The line after `t` is written at column `x`, inside the line: the runs
/// are spliced, and the written columns join the changed ones.
pub open spec fn line_overwritten(l: LineView, x: int, t: RunView) -> LineView {
    let m = fitted_width(l.width as int, x, t);
    LineView {
        runs: overwritten(l.runs, x, t),
        width: l.width,
        delta: l.delta.with_splice(x, x + m, m),
    }
}

/// A line of `width` spaces in the default style, with nothing changed.
pub open spec fn blank_line_view(width: u32) -> LineView {
    LineView {
        runs: if width > 0 {
            seq![RunView { style: Style::plain(), text: Seq::new(width as nat, |i: int| ' '), width: width as nat }]
        } else {
            Seq::empty()
        },
        width: width as nat,
        delta: Delta::Unchanged,
    }
}

/// Whether the columns `[start, end)` hold a changed column of `d`.
pub open spec fn touches(d: Delta, start: int, end: int) -> bool {
    match d {
        Delta::Unchanged => false,
        Delta::Range(a, b) => a < b && start < b && a < end,
    }
}

/// What each run of `s` holds.
pub open spec fn views(s: Seq<StyledText>) -> Seq<RunView> {
    s.map_values(|t: StyledText| t@)
}

proof fn lemma_views_concat(a: Seq<StyledText>, b: Seq<StyledText>)
    ensures
        views(a + b) =~= views(a) + views(b),
{
}

proof fn lemma_overwritten_wf(runs: Seq<RunView>, x: int, t: RunView)
    requires
        0 <= x < sum_widths(runs),
        t.width > 0,
        forall|i: int| 0 <= i < runs.len() ==> #[trigger] runs[i].width > 0,
    ensures
        sum_widths(overwritten(runs, x, t)) == sum_widths(runs),
        forall|i: int|
            0 <= i < overwritten(runs, x, t).len() ==> #[trigger] overwritten(runs, x, t)[i].width
                > 0,
{
    let w = sum_widths(runs) as int;
    let m = fitted_width(w, x, t);
    let e = x + m;
    let si = first_ending_after(runs, 0, x);
    assert(runs.take(0) =~= Seq::<RunView>::empty());
    lemma_first_ending_after(runs, 0, x);
    lemma_run_start_step(runs, si);
    let ei = first_ending_after(runs, si, e - 1);
    lemma_first_ending_after(runs, si, e - 1);
    lemma_run_start_step(runs, ei);
    let left = if run_start(runs, si) < x {
        seq![slice_view(runs[si], 0, x - run_start(runs, si))]
    } else {
        Seq::empty()
    };
    let mid = if m < t.width {
        slice_view(t, 0, m)
    } else {
        t
    };
    let right = if e < run_start(runs, ei + 1) {
        seq![slice_view(runs[ei], e - run_start(runs, ei), runs[ei].width as int)]
    } else {
        Seq::empty()
    };
    let r = overwritten(runs, x, t);
    assert(r == runs.take(si) + left + seq![mid] + right + runs.skip(ei + 1));
    lemma_one_width(mid);
    if left.len() > 0 {
        lemma_one_width(left[0]);
        assert(left =~= seq![left[0]]);
    }
    if right.len() > 0 {
        lemma_one_width(right[0]);
        assert(right =~= seq![right[0]]);
    }
    lemma_sum_widths_concat(runs.take(si), left);
    lemma_sum_widths_concat(runs.take(si) + left, seq![mid]);
    lemma_sum_widths_concat(runs.take(si) + left + seq![mid], right);
    lemma_sum_widths_concat(runs.take(si) + left + seq![mid] + right, runs.skip(ei + 1));
    assert(runs =~= runs.take(ei + 1) + runs.skip(ei + 1));
    lemma_sum_widths_concat(runs.take(ei + 1), runs.skip(ei + 1));
    assert forall|i: int| 0 <= i < r.len() implies #[trigger] r[i].width > 0 by {
        if i >= si + left.len() + 1 + right.len() {
            assert(r[i] == runs[i - (si + left.len() + 1 + right.len()) + ei + 1]);
        }
    }
}

proof fn lemma_one_width(r: RunView)
    ensures
        sum_widths(seq![r]) == r.width,
{
    assert(seq![r].drop_last() =~= Seq::<RunView>::empty());
    assert(sum_widths(seq![r].drop_last()) == 0);
    assert(seq![r].last() == r);
}

/// Whether run `i` of the line holds a changed column.
pub open spec fn run_touched(v: LineView, i: int) -> bool {
    touches(v.delta, run_start(v.runs, i) as int, run_start(v.runs, i + 1) as int)
}

pub struct LineView {
    pub runs: Seq<RunView>,
    pub width: nat,
    pub delta: Delta,
}

/// The runs cover the row without gaps, and none of them is empty.
pub open spec fn line_wf(v: LineView) -> bool {
    &&& v.width <= u32::MAX
    &&& sum_widths(v.runs) == v.width
    &&& forall|i: int| 0 <= i < v.runs.len() ==> #[trigger] v.runs[i].width > 0
}

proof fn lemma_sum_widths_concat(a: Seq<RunView>, b: Seq<RunView>)
    ensures
        sum_widths(a + b) == sum_widths(a) + sum_widths(b),
    decreases b.len(),
{
    if b.len() > 0 {
        assert((a + b).drop_last() =~= a + b.drop_last());
        lemma_sum_widths_concat(a, b.drop_last());
    } else {
        assert(a + b =~= a);
    }
}

proof fn lemma_run_start_step(runs: Seq<RunView>, i: int)
    requires
        0 <= i < runs.len(),
    ensures
        run_start(runs, i + 1) == run_start(runs, i) + runs[i].width,
{
    assert(runs.take(i + 1).drop_last() =~= runs.take(i));
}

proof fn lemma_run_start_mono(runs: Seq<RunView>, i: int, j: int)
    requires
        0 <= i <= j <= runs.len(),
    ensures
        run_start(runs, i) <= run_start(runs, j) <= sum_widths(runs),
    decreases j - i,
{
    if i < j {
        lemma_run_start_step(runs, j - 1);
        lemma_run_start_mono(runs, i, j - 1);
    }
    assert(runs.take(runs.len() as int) =~= runs);
    lemma_sum_widths_concat(runs.take(j), runs.skip(j));
    assert(runs.take(j) + runs.skip(j) =~= runs);
}

proof fn lemma_first_ending_after(runs: Seq<RunView>, k: int, col: int)
    requires
        0 <= k <= runs.len(),
        run_start(runs, k) <= col < sum_widths(runs),
    ensures
        k <= first_ending_after(runs, k, col) < runs.len(),
        run_start(runs, first_ending_after(runs, k, col)) <= col,
        col < run_start(runs, first_ending_after(runs, k, col) + 1),
    decreases runs.len() - k,
{
    if k == runs.len() {
        assert(runs.take(k) =~= runs);
    } else {
        lemma_run_start_step(runs, k);
        if run_start(runs, k + 1) <= col {
            lemma_first_ending_after(runs, k + 1, col);
        }
    }
}

/// Appends clones of `src[from..to]` to `out`.
fn push_clones(out: &mut Vec<StyledText>, src: &Vec<StyledText>, from: usize, to: usize)
    requires
        from <= to <= src.len(),
    ensures
        views(final(out)@) =~= views(old(out)@) + views(src@.subrange(from as int, to as int)),
{
    let ghost start = out@;
    let mut k = from;
    while k < to
        invariant
            from <= k <= to <= src.len(),
            views(out@) =~= views(start) + views(src@.subrange(from as int, k as int)),
        decreases to - k,
    {
        let t = src[k].clone();
        let ghost before = out@;
        out.push(t);
        proof {
            assert(out@ =~= before + seq![t]);
            lemma_views_concat(before, seq![t]);
            assert(src@.subrange(from as int, k + 1) =~= src@.subrange(from as int, k as int) + seq![
                src@[k as int],
            ]);
            lemma_views_concat(src@.subrange(from as int, k as int), seq![src@[k as int]]);
        }
        k = k + 1;
    }
}

/// The line after each of `writes` in turn, a write being a column and a
/// run; one that starts past the end of the line does nothing.
pub open spec fn after_writes(l: LineView, writes: Seq<(int, RunView)>) -> LineView
    decreases writes.len(),
{
    if writes.len() == 0 {
        l
    } else {
        let x = writes[0].0;
        let next = if 0 <= x < l.width {
            line_overwritten(l, x, writes[0].1)
        } else {
            l
        };
        after_writes(next, writes.drop_first())
    }
}

/// However many runs are written into a line, its runs still cover exactly
/// its width, and none of them is empty.
pub proof fn lemma_writes_keep_line_whole(l: LineView, writes: Seq<(int, RunView)>)
    requires
        line_wf(l),
        forall|k: int| 0 <= k < writes.len() ==> (#[trigger] writes[k]).1.width > 0,
    ensures
        line_wf(after_writes(l, writes)),
        after_writes(l, writes).width == l.width,
    decreases writes.len(),
{
    if writes.len() > 0 {
        let x = writes[0].0;
        assert(writes[0].1.width > 0);
        if 0 <= x < l.width {
            lemma_overwritten_wf(l.runs, x, writes[0].1);
        }
        let next = if 0 <= x < l.width {
            line_overwritten(l, x, writes[0].1)
        } else {
            l
        };
        assert forall|k: int| 0 <= k < writes.drop_first().len() implies (
        #[trigger] writes.drop_first()[k]).1.width > 0 by {
            assert(writes.drop_first()[k] == writes[k + 1]);
        }
        lemma_writes_keep_line_whole(next, writes.drop_first());
    }
}

/// A run wider than one cell that is written on the last column of a line is
/// cut to its first cell, which becomes the last run; the line keeps its
/// width.
pub proof fn lemma_clip_on_overflow(l: LineView, t: RunView)
    requires
        line_wf(l),
        l.width >= 1,
        t.width > 1,
    ensures
        sum_widths(overwritten(l.runs, l.width - 1, t)) == l.width,
        overwritten(l.runs, l.width - 1, t).last() == slice_view(t, 0, 1),
{
    let runs = l.runs;
    let w = l.width as int;
    let x = w - 1;
    lemma_overwritten_wf(runs, x, t);
    assert(runs.take(0) =~= Seq::<RunView>::empty());
    let si = first_ending_after(runs, 0, x);
    lemma_first_ending_after(runs, 0, x);
    let ei = first_ending_after(runs, si, x);
    lemma_first_ending_after(runs, si, x);
    lemma_run_start_mono(runs, ei + 1, runs.len() as int);
    if ei + 1 < runs.len() {
        lemma_run_start_step(runs, ei + 1);
        lemma_run_start_mono(runs, ei + 2, runs.len() as int);
    }
    assert(runs.skip(ei + 1) =~= Seq::<RunView>::empty());
}

/// One row of a terminal: runs of styled text that cover its width.
#[derive(Debug)]
pub struct Line {
    // There are no gaps between these.
    texts: Vec<StyledText>,
    width: u32,
    delta: Delta,
}

impl View for Line {
    type V = LineView;

    closed spec fn view(&self) -> LineView {
        LineView {
            runs: views(self.texts@),
            width: self.width as nat,
            delta: self.delta,
        }
    }
}

impl Clone for Line {
    fn clone(&self) -> (r: Line)
        ensures
            r@ == self@,
    {
        proof {
            use_type_invariant(self);
        }
        let mut texts: Vec<StyledText> = Vec::new();
        push_clones(&mut texts, &self.texts, 0, self.texts.len());
        assert(self.texts@.subrange(0, self.texts.len() as int) =~= self.texts@);
        Line { texts, width: self.width, delta: self.delta }
    }
}

impl Line {
    #[verifier::type_invariant]
    spec fn inv(self) -> bool {
        line_wf(self@)
    }

    pub open spec fn wf(&self) -> bool {
        line_wf(self@)
    }

    /// The width of the line; every line is well formed.
    pub fn width(&self) -> (r: u32)
        ensures
            r == self@.width,
            self.wf(),
    {
        proof {
            use_type_invariant(self);
        }
        self.width
    }

    /// The runs of the line, left to right.
    pub fn runs(&self) -> (r: &Vec<StyledText>)
        ensures
            views(r@) == self@.runs,
    {
        &self.texts
    }

    pub fn delta(&self) -> (r: Delta)
        ensures
            r == self@.delta,
    {
        self.delta
    }

    /// A blank line: spaces in the default style, nothing changed.
    pub fn new(width: u32) -> (r: Line)
        ensures
            r.wf(),
            r@ == blank_line_view(width),
    {
        let mut texts: Vec<StyledText> = Vec::new();
        if width > 0 {
            let spaces = blank(width as usize);
            assert(all_printable_ascii(spaces@));
            texts.push(StyledText::new(Style::default(), spaces));
        }
        proof {
            let v = views(texts@);
            if width > 0 {
                assert(v.drop_last() =~= Seq::<RunView>::empty());
                assert(sum_widths(v.drop_last()) == 0);
                assert(v[0].width == width);
            }
            assert(v =~= blank_line_view(width).runs);
            assert(line_wf(LineView { runs: v, width: width as nat, delta: Delta::Unchanged }));
        }
        Line { texts, width, delta: Delta::Unchanged }
    }

    /// The first run from `from` on that ends after column `col`, and the
    /// column where it starts.
    fn find_run(&self, from: usize, from_col: u32, col: u32) -> (r: (usize, u32))
        requires
            self.wf(),
            from <= self@.runs.len(),
            from_col == run_start(self@.runs, from as int),
            from_col <= col < self@.width,
        ensures
            r.0 == first_ending_after(self@.runs, from as int, col as int),
            r.0 < self@.runs.len(),
            r.1 == run_start(self@.runs, r.0 as int),
    {
        let ghost runs = self@.runs;
        proof {
            lemma_first_ending_after(runs, from as int, col as int);
        }
        let mut k = from;
        let mut c = from_col;
        while k < self.texts.len()
            invariant
                self.wf(),
                runs == self@.runs,
                from <= k <= runs.len(),
                c == run_start(runs, k as int),
                c <= col,
                first_ending_after(runs, from as int, col as int) == first_ending_after(
                    runs,
                    k as int,
                    col as int,
                ),
            decreases runs.len() - k,
        {
            proof {
                lemma_run_start_step(runs, k as int);
                lemma_run_start_mono(runs, k as int + 1, runs.len() as int);
            }
            let end = c + self.texts[k].width();
            if end > col {
                return (k, c);
            }
            c = end;
            k = k + 1;
        }
        proof {
            lemma_run_start_mono(runs, k as int, runs.len() as int);
        }
        (k, c)
    }
}

impl Line {
    /// Write `txt` at column `x`. Whatever stands in the cells it covers is
    /// replaced; the runs it cuts keep their parts outside it. Text past the
    /// end of the line is cut off; a write that starts past the end does
    /// nothing. Returns whether the line changed. The changed columns are
    /// recorded in the delta.
    pub fn draw_text_at(&mut self, x: u32, txt: &StyledText) -> (changed: bool)
        requires
            txt@.width > 0,
        ensures
            final(self).wf(),
            changed == (x < old(self)@.width),
            !changed ==> final(self)@ == old(self)@,
            changed ==> final(self)@ == line_overwritten(old(self)@, x as int, txt@),
    {
        proof {
            use_type_invariant(&*self);
        }
        if x >= self.width {
            return false;
        }
        let ghost runs = self@.runs;
        let ghost old_texts = self.texts@;
        let room = self.width - x;
        let m = if txt.width() <= room {
            txt.width()
        } else {
            room
        };
        let e = x + m;
        let (si, s_col) = self.find_run(0, 0, x);
        proof {
            lemma_first_ending_after(runs, 0, x as int);
            lemma_run_start_step(runs, si as int);
        }
        let (ei, e_col) = self.find_run(si, s_col, e - 1);
        proof {
            lemma_first_ending_after(runs, si as int, (e - 1) as int);
            lemma_run_start_step(runs, ei as int);
            lemma_run_start_mono(runs, ei as int + 1, runs.len() as int);
            assert(runs.len() == self.texts.len());
        }
        let e_end = e_col + self.texts[ei].width();
        let left = if s_col < x {
            Some(self.texts[si].slice(0, (x - s_col) as usize))
        } else {
            None
        };
        let right = if e < e_end {
            Some(self.texts[ei].slice((e - e_col) as usize, self.texts[ei].width() as usize))
        } else {
            None
        };
        let mid = if m < txt.width() {
            txt.slice(0, m as usize)
        } else {
            txt.clone()
        };
        let mut texts: Vec<StyledText> = Vec::new();
        push_clones(&mut texts, &self.texts, 0, si);
        let ghost kept = texts@;
        match left {
            Some(l) => texts.push(l),
            None => {},
        }
        texts.push(mid);
        match right {
            Some(r) => texts.push(r),
            None => {},
        }
        let ghost placed = texts@;
        push_clones(&mut texts, &self.texts, ei + 1, self.texts.len());
        proof {
            let pieces = placed.skip(si as int);
            assert(placed =~= kept + pieces);
            lemma_views_concat(kept, pieces);
            lemma_views_concat(kept + pieces, old_texts.skip(ei + 1));
            assert(views(kept) =~= runs.take(si as int));
            assert(views(old_texts.subrange(ei + 1, old_texts.len() as int)) =~= runs.skip(ei + 1));
            assert(views(texts@) =~= overwritten(runs, x as int, txt@));
            lemma_overwritten_wf(runs, x as int, txt@);
        }
        self.texts = texts;
        let mut delta = self.delta;
        delta.add_splice_range(x as usize..e as usize, m as usize);
        self.delta = delta;
        true
    }
}

impl Line {
    /// The runs that hold a changed column, in order, each with the column
    /// where it starts.
    pub fn changed_runs(&self) -> (r: Vec<(usize, u32)>)
        ensures
            forall|j: int|
                0 <= j < r.len() ==> {
                    &&& (#[trigger] r[j]).0 < self@.runs.len()
                    &&& r[j].1 == run_start(self@.runs, r[j].0 as int)
                    &&& run_touched(self@, r[j].0 as int)
                },
            forall|j: int, k: int| 0 <= j < k < r.len() ==> (#[trigger] r[j]).0 < (#[trigger] r[k]).0,
            forall|i: int|
                0 <= i < self@.runs.len() && #[trigger] run_touched(self@, i) ==> exists|j: int|
                    0 <= j < r.len() && (#[trigger] r[j]).0 == i,
    {
        proof {
            use_type_invariant(self);
        }
        let ghost runs = self@.runs;
        let mut out: Vec<(usize, u32)> = Vec::new();
        let mut column: u32 = 0;
        let mut i: usize = 0;
        assert(runs.take(0) =~= Seq::<RunView>::empty());
        while i < self.texts.len()
            invariant
                self.wf(),
                runs == self@.runs,
                i <= runs.len(),
                column == run_start(runs, i as int),
                forall|j: int|
                    0 <= j < out.len() ==> {
                        &&& (#[trigger] out[j]).0 < i
                        &&& out[j].1 == run_start(runs, out[j].0 as int)
                        &&& run_touched(self@, out[j].0 as int)
                    },
                forall|j: int, k: int|
                    0 <= j < k < out.len() ==> (#[trigger] out[j]).0 < (#[trigger] out[k]).0,
                forall|q: int|
                    0 <= q < i && #[trigger] run_touched(self@, q) ==> exists|j: int|
                        0 <= j < out.len() && (#[trigger] out[j]).0 == q,
            decreases runs.len() - i,
        {
            proof {
                lemma_run_start_step(runs, i as int);
                lemma_run_start_mono(runs, i as int + 1, runs.len() as int);
            }
            let end = column + self.texts[i].width();
            let hit = match self.delta {
                Delta::Unchanged => false,
                Delta::Range(a, b) => a < b && (column as usize) < b && a < (end as usize),
            };
            if hit {
                let ghost before = out@;
                out.push((i, column));
                proof {
                    assert forall|q: int|
                        0 <= q < i + 1 && #[trigger] run_touched(self@, q) implies exists|j: int|
                            0 <= j < out.len() && (#[trigger] out[j]).0 == q by {
                        if q < i {
                            let j = choose|j: int| 0 <= j < before.len() && (#[trigger] before[j]).0 == q;
                            assert(out[j] == before[j]);
                        } else {
                            assert(out[out.len() - 1].0 == q);
                        }
                    }
                }
            }
            column = end;
            i = i + 1;
        }
        out
    }
}

impl Line {
    /// The column where each run starts.
    pub fn run_columns(&self) -> (r: Vec<u32>)
        ensures
            r.len() == self@.runs.len(),
            forall|j: int| 0 <= j < r.len() ==> #[trigger] r[j] == run_start(self@.runs, j),
    {
        proof {
            use_type_invariant(self);
        }
        let ghost runs = self@.runs;
        let mut out: Vec<u32> = Vec::new();
        let mut column: u32 = 0;
        let mut i: usize = 0;
        assert(runs.take(0) =~= Seq::<RunView>::empty());
        while i < self.texts.len()
            invariant
                self.wf(),
                runs == self@.runs,
                i <= runs.len(),
                out.len() == i,
                column == run_start(runs, i as int),
                forall|j: int| 0 <= j < out.len() ==> #[trigger] out[j] == run_start(runs, j),
            decreases runs.len() - i,
        {
            proof {
                lemma_run_start_step(runs, i as int);
                lemma_run_start_mono(runs, i as int + 1, runs.len() as int);
            }
            out.push(column);
            column = column + self.texts[i].width();
            i = i + 1;
        }
        out
    }
}

impl HasSize for Line {
    fn size(&self) -> (r: (u32, u32))
        ensures
            r.0 == self@.width,
            r.1 == 1,
    {
        (self.width, 1)
    }
}

impl PaintableWidget for Line {
    /// Draws every run, left to right, each at its own column from `pos`. A
    /// run whose column lies past the last `u32` column is not drawn.
    fn draw_into<R: RawPaintable>(&self, target: &mut R, pos: (u32, u32)) {
        let columns = self.run_columns();
        let mut i: usize = 0;
        while i < self.texts.len()
            invariant
                columns.len() == self.texts.len(),
            decreases self.texts.len() - i,
        {
            match shifted(pos.0, columns[i] as usize) {
                Some(px) => {
                    target.draw_text_at((px, pos.1), &self.texts[i]);
                },
                None => {},
            }
            i = i + 1;
        }
    }

    fn draw_delta_into<R: RawPaintable>(&mut self, target: &mut R, pos: (u32, u32))
        ensures
            final(self)@.runs == old(self)@.runs,
            final(self)@.width == old(self)@.width,
            final(self)@.delta == Delta::Unchanged,
    {
        {
            let changed = self.changed_runs();
            let mut j: usize = 0;
            while j < changed.len()
                decreases changed.len() - j,
            {
                let (i, column) = changed[j];
                if i < self.texts.len() {
                    match shifted(pos.0, column as usize) {
                        Some(px) => {
                            target.draw_text_at((px, pos.1), &self.texts[i]);
                        },
                        None => {},
                    }
                }
                j = j + 1;
            }
        }
        self.mark_none_changed();
    }

    fn mark_all_changed(&mut self)
        ensures
            final(self)@.runs == old(self)@.runs,
            final(self)@.width == old(self)@.width,
            final(self)@.delta == Delta::Range(0, old(self)@.width as usize),
    {
        proof {
            use_type_invariant(&*self);
        }
        self.delta = Delta::Range(0, self.width as usize);
    }

    fn mark_none_changed(&mut self)
        ensures
            final(self)@.runs == old(self)@.runs,
            final(self)@.width == old(self)@.width,
            final(self)@.delta == Delta::Unchanged,
    {
        proof {
            use_type_invariant(&*self);
        }
        self.delta = Delta::Unchanged;
    }
}

} // verus!
