use vstd::prelude::*;

verus! {

/// Delta tracks the smallest interval of indices of a list that changed since
/// the last redraw.
#[derive(Copy, Clone, PartialEq, Eq, Debug, Structural)]
pub enum Delta {
    Unchanged,
    Range(usize, usize),
}

/// Where a bound `p` of a changed interval lands after the list had `[s, e)`
/// replaced by `len` items. A bound inside the replaced window moves to the
/// near edge of the new window: `s` for a start bound, `s + len` for an end.
pub open spec fn spliced_bound(p: int, s: int, e: int, len: int, is_end: bool) -> int {
    if p <= s {
        p
    } else if p < e {
        if is_end {
            s + len
        } else {
            s
        }
    } else {
        p + len - (e - s)
    }
}

pub open spec fn min_int(a: int, b: int) -> int {
    if a <= b {
        a
    } else {
        b
    }
}

pub open spec fn max_int(a: int, b: int) -> int {
    if a >= b {
        a
    } else {
        b
    }
}

impl Delta {
    /// Whether index `i` is marked changed.
    pub open spec fn has(self, i: int) -> bool {
        match self {
            Delta::Unchanged => false,
            Delta::Range(a, b) => a <= i < b,
        }
    }

    /// The delta after the indices `[s, e)` are marked changed.
    pub open spec fn with_range(self, s: usize, e: usize) -> Delta {
        match self {
            Delta::Unchanged => Delta::Range(s, e),
            Delta::Range(a, b) => Delta::Range(
                if a <= s {
                    a
                } else {
                    s
                },
                if b >= e {
                    b
                } else {
                    e
                },
            ),
        }
    }

    /// The delta after marking each of the intervals `rs`, in order.
    pub open spec fn with_ranges(self, rs: Seq<(usize, usize)>) -> Delta
        decreases rs.len(),
    {
        if rs.len() == 0 {
            self
        } else {
            self.with_range(rs[0].0, rs[0].1).with_ranges(rs.drop_first())
        }
    }

    /// Whether the splice of `[s, e)` by `len` items keeps every bound in `usize`.
    pub open spec fn splice_fits(self, s: int, e: int, len: int) -> bool {
        &&& s + len <= usize::MAX
        &&& match self {
            Delta::Unchanged => true,
            Delta::Range(a, b) => {
                &&& spliced_bound(a as int, s, e, len, false) <= usize::MAX
                &&& spliced_bound(b as int, s, e, len, true) <= usize::MAX
            },
        }
    }

    /// The delta that follows the same changes after `[s, e)` of the list was
    /// replaced by `len` items, joined with the new window `[s, s + len)`.
    pub open spec fn with_splice(self, s: int, e: int, len: int) -> Delta {
        match self {
            Delta::Unchanged => Delta::Range(s as usize, (s + len) as usize),
            Delta::Range(a, b) => Delta::Range(
                min_int(spliced_bound(a as int, s, e, len, false), s) as usize,
                max_int(spliced_bound(b as int, s, e, len, true), s + len) as usize,
            ),
        }
    }

    /// Marks index `i` changed.
    pub fn add(&mut self, i: usize)
        requires
            i < usize::MAX,
        ensures
            *final(self) == old(self).with_range(i, (i + 1) as usize),
    {
        *self = match *self {
            Delta::Unchanged => Delta::Range(i, i + 1),
            Delta::Range(a, b) => Delta::Range(
                if a <= i {
                    a
                } else {
                    i
                },
                if b >= i + 1 {
                    b
                } else {
                    i + 1
                },
            ),
        };
    }

    /// Marks the indices of `r` changed.
    pub fn add_range(&mut self, r: std::ops::Range<usize>)
        ensures
            *final(self) == old(self).with_range(r.start, r.end),
    {
        *self = match *self {
            Delta::Unchanged => Delta::Range(r.start, r.end),
            Delta::Range(a, b) => Delta::Range(
                if a <= r.start {
                    a
                } else {
                    r.start
                },
                if b >= r.end {
                    b
                } else {
                    r.end
                },
            ),
        };
    }

    /// To be used together with a splice of the tracked list: pass the range
    /// that was replaced and the number of items that replaced it.
    pub fn add_splice_range(&mut self, r: std::ops::Range<usize>, len: usize)
        requires
            r.start <= r.end,
            old(self).splice_fits(r.start as int, r.end as int, len as int),
        ensures
            *final(self) == old(self).with_splice(r.start as int, r.end as int, len as int),
    {
        let s = r.start;
        let e = r.end;
        *self = match *self {
            Delta::Unchanged => Delta::Range(s, s + len),
            Delta::Range(a, b) => {
                let a2 = if a <= s {
                    a
                } else if a < e {
                    s
                } else {
                    a - (e - s) + len
                };
                let b2 = if b <= s {
                    b
                } else if b < e {
                    s + len
                } else {
                    b - (e - s) + len
                };
                Delta::Range(
                    if a2 <= s {
                        a2
                    } else {
                        s
                    },
                    if b2 >= s + len {
                        b2
                    } else {
                        s + len
                    },
                )
            },
        };
    }

    pub fn contains(&self, i: usize) -> (r: bool)
        ensures
            r == self.has(i as int),
    {
        match *self {
            Delta::Unchanged => false,
            Delta::Range(a, b) => a <= i && i < b,
        }
    }

    /// The changed interval; empty when nothing changed.
    pub fn to_range(&self) -> (r: std::ops::Range<usize>)
        ensures
            self is Unchanged ==> r.start == 0 && r.end == 0,
            self matches Delta::Range(a, b) ==> r.start == a && r.end == b,
    {
        match *self {
            Delta::Unchanged => 0..0,
            Delta::Range(a, b) => a..b,
        }
    }
}

/// Marking an interval marks each index in it, and never unmarks an index.
pub proof fn lemma_with_range_grows(d: Delta, s: usize, e: usize, i: int)
    ensures
        s <= i < e ==> d.with_range(s, e).has(i),
        d.has(i) ==> d.with_range(s, e).has(i),
{
}

/// Once an index is marked, it stays marked whatever intervals are marked
/// after it; and each index of each marked interval ends up marked.
pub proof fn lemma_marks_persist(d: Delta, rs: Seq<(usize, usize)>, i: int)
    requires
        d.has(i) || exists|k: int| 0 <= k < rs.len() && #[trigger] rs[k].0 <= i < rs[k].1,
    ensures
        d.with_ranges(rs).has(i),
    decreases rs.len(),
{
    if rs.len() > 0 {
        let d1 = d.with_range(rs[0].0, rs[0].1);
        lemma_with_range_grows(d, rs[0].0, rs[0].1, i);
        if !d1.has(i) {
            let k = choose|k: int| 0 <= k < rs.len() && #[trigger] rs[k].0 <= i < rs[k].1;
            assert(k != 0);
            assert(rs.drop_first()[k - 1] == rs[k]);
        }
        lemma_marks_persist(d1, rs.drop_first(), i);
    }
}

/// After a splice the delta covers the whole new window `[s, s + len)`, and
/// every index that was marked before and lies outside the replaced window is
/// still marked, at its shifted place.
pub proof fn lemma_splice_covers(d: Delta, s: int, e: int, len: int, i: int)
    requires
        0 <= s <= e,
        0 <= len,
        d.splice_fits(s, e, len),
    ensures
        s <= i < s + len ==> d.with_splice(s, e, len).has(i),
        d.has(i) && i < s ==> d.with_splice(s, e, len).has(i),
        d.has(i) && i >= e ==> d.with_splice(s, e, len).has(i + len - (e - s)),
{
}

} // verus!
