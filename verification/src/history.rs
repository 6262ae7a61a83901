//! The history of a position: the counts of the games of each month, built
//! from running totals month by month.
use vstd::prelude::*;

use crate::date::{Month, MAX_YEAR};
use crate::stats::{spec_empty_stats, spec_le, spec_minus, Stats};

verus! {

/// The counts of one month.
#[derive(Debug, Clone, Copy, PartialEq, Eq, Structural)]
pub struct HistorySegment {
    pub month: Month,
    pub stats: Stats,
}

/// A history: one segment per month, in order.
pub type History = Vec<HistorySegment>;

/// The months from `from` up to but not including `to`, without games.
pub open spec fn spec_gap(from: u16, to: u16) -> Seq<HistorySegment> {
    if from < to {
        Seq::new(
            (to - from) as nat,
            |k: int| HistorySegment { month: Month::spec_from((from + k) as u16), stats: spec_empty_stats() },
        )
    } else {
        Seq::empty()
    }
}

/// The month after `m`, but at most December 3000.
pub open spec fn spec_next_month(m: u16) -> u16 {
    if m + 1 > MAX_YEAR * 12 + 11 {
        (MAX_YEAR * 12 + 11) as u16
    } else {
        (m + 1) as u16
    }
}

/// Builds a history from running totals given month by month.
pub struct HistoryBuilder {
    segments: Vec<HistorySegment>,
    last_total: Stats,
    last_month: Option<Month>,
    until_is_none: bool,
    in_order: Ghost<bool>,
}

impl HistoryBuilder {
    /// The segments add up to the running total; none was recorded before
    /// a month is known to fill from; and while the months came in order,
    /// the segments run on month after month up to the month before the
    /// next to fill.
    #[verifier::type_invariant]
    spec fn builder_inv(self) -> bool {
        &&& spec_history_counts(self.segments@) == spec_counts(self.last_total)
        &&& self.last_month is None ==> self.segments@.len() == 0
        &&& self.in_order@ ==> spec_consecutive(self.segments@)
        &&& self.in_order@ && self.segments@.len() > 0 ==> (self.last_month matches Some(l)
            && l.value() == spec_next_month(self.segments@.last().month.value()))
    }

    /// Whether every month recorded so far came after the months recorded
    /// before it and not before the first month to fill.
    pub closed spec fn spec_in_order(&self) -> bool {
        self.in_order@
    }

    /// The segments of every builder add up to its running total, and run
    /// on month after month while the months were recorded in order.
    pub fn check_history(&self)
        ensures
            spec_history_counts(self.spec_segments()) == spec_counts(self.spec_last_total()),
            self.spec_in_order() ==> spec_consecutive(self.spec_segments()),
    {
        proof {
            use_type_invariant(self);
        }
    }
    /// The segments so far.
    pub closed spec fn spec_segments(&self) -> Seq<HistorySegment> {
        self.segments@
    }

    /// The running total last given.
    pub closed spec fn spec_last_total(&self) -> Stats {
        self.last_total
    }

    /// The month from which the next gap is filled.
    pub closed spec fn spec_last_month(&self) -> Option<Month> {
        self.last_month
    }

    /// Whether the history is open-ended, so that its last month, which may
    /// be incomplete, is left out.
    pub closed spec fn spec_until_is_none(&self) -> bool {
        self.until_is_none
    }

    /// A history that starts at `month`, if given, or at the first month
    /// given.
    pub fn new_starting_at(month: Option<Month>) -> (h: HistoryBuilder)
        ensures
            h.spec_segments().len() == 0,
            h.spec_last_total() == spec_empty_stats(),
            h.spec_last_month() == month,
            !h.spec_until_is_none(),
            h.spec_in_order(),
    {
        HistoryBuilder {
            segments: Vec::new(),
            last_total: Stats::from_counts(0, 0, 0, 0),
            last_month: month,
            until_is_none: false,
            in_order: Ghost(true),
        }
    }

    /// A history from `since`, if given, up to `until`; without `until`, its
    /// last month is left out.
    pub fn new_between(since: Option<Month>, until: Option<Month>) -> (h: HistoryBuilder)
        ensures
            h.spec_segments().len() == 0,
            h.spec_last_total() == spec_empty_stats(),
            h.spec_last_month() == since,
            h.spec_until_is_none() == until.is_none(),
            h.spec_in_order(),
    {
        HistoryBuilder {
            segments: Vec::new(),
            last_total: Stats::from_counts(0, 0, 0, 0),
            last_month: since,
            until_is_none: until.is_none(),
            in_order: Ghost(true),
        }
    }

    /// Whether `record_difference` can take `month` and `total`: the month
    /// is in range and no count is below the running total.
    pub fn can_record(&self, month: Month, total: &Stats) -> (b: bool)
        ensures
            b == (month.wf() && spec_le(self.spec_last_total(), *total)),
    {
        let m = month.to_u16();
        m >= crate::date::MIN_YEAR * 12 && m <= crate::date::MAX_YEAR * 12 + 11
            && self.last_total.rating_sum <= total.rating_sum && self.last_total.white <= total.white
            && self.last_total.draws <= total.draws && self.last_total.black <= total.black
    }

    /// Records the running total `total` up to and including `month`: the
    /// months since the last one given come without games, and `month` gets
    /// the games added since the last total.
    pub fn record_difference(&mut self, month: Month, total: Stats)
        requires
            month.wf(),
            spec_le(old(self).spec_last_total(), total),
        ensures
            final(self).spec_segments() == old(self).spec_segments() + match old(
                self,
            ).spec_last_month() {
                Some(l) => spec_gap(l.value(), month.value()),
                None => Seq::empty(),
            } + seq![
                HistorySegment {
                    month,
                    stats: spec_minus(total, old(self).spec_last_total()),
                },
            ],
            final(self).spec_last_month() == Some(Month::spec_from(spec_next_month(month.value()))),
            final(self).spec_last_total() == total,
            final(self).spec_until_is_none() == old(self).spec_until_is_none(),
            final(self).spec_in_order() == (old(self).spec_in_order() && (old(self).spec_last_month() matches Some(l)
                ==> l.value() <= month.value()) && (old(self).spec_segments().len() > 0
                ==> old(self).spec_segments().last().month.value() < month.value())),
            spec_history_counts(final(self).spec_segments()) == spec_counts(total),
            final(self).spec_in_order() ==> spec_consecutive(final(self).spec_segments()),
    {
        proof {
            use_type_invariant(&*self);
        }
        let mut me = HistoryBuilder::new_starting_at(None);
        std::mem::swap(&mut me, self);
        proof {
            use_type_invariant(&me);
        }
        let HistoryBuilder { segments, last_total, last_month, until_is_none, in_order } = me;
        let mut segments = segments;
        let ghost start = segments@;
        if let Some(first) = last_month {
            let mut cur = first;
            while cur.to_u16() < month.to_u16()
                invariant
                    first.value() <= cur.value(),
                    month.wf(),
                    cur.value() <= month.value() || cur.value() == first.value(),
                    segments@ == start + spec_gap(first.value(), cur.value()),
                decreases month.value() - cur.value(),
            {
                let ghost lm = cur.value();
                proof {
                    Month::lemma_from(lm);
                    Month::lemma_eq(cur, Month::spec_from(lm));
                }
                segments.push(HistorySegment { month: cur, stats: Stats::from_counts(0, 0, 0, 0) });
                cur = cur.add_months_saturating(1);
                proof {
                    assert(cur.value() == lm + 1);
                    let g0 = spec_gap(first.value(), lm);
                    let g1 = spec_gap(first.value(), cur.value());
                    assert(g1 =~= g0.push(HistorySegment { month: Month::spec_from(lm), stats: spec_empty_stats() }));
                    assert(segments@ =~= start + g1);
                }
            }
            proof {
                if first.value() >= month.value() {
                    assert(spec_gap(first.value(), cur.value()) =~= spec_gap(first.value(), month.value()));
                }
            }
        }
        let next = month.add_months_saturating(1);
        let diff = total.minus(&last_total);
        segments.push(HistorySegment { month, stats: diff });
        let ghost ordered = in_order@ && (last_month matches Some(l) ==> l.value() <= month.value())
            && (start.len() > 0 ==> start.last().month.value() < month.value());
        proof {
            Month::lemma_from(spec_next_month(month.value()));
            Month::lemma_eq(next, Month::spec_from(spec_next_month(month.value())));
            let gap = match last_month {
                Some(l) => spec_gap(l.value(), month.value()),
                None => Seq::<HistorySegment>::empty(),
            };
            assert(segments@ =~= start + gap + seq![HistorySegment { month, stats: spec_minus(total, last_total) }]);
            lemma_record_counts(start, last_total, last_month, month, total);
            assert(spec_history_counts(segments@) == spec_counts(total));
            if ordered {
                lemma_record_keeps_history(start, last_total, last_month, month, total);
                assert(spec_consecutive(segments@));
                assert(segments@.last().month == month);
            }
        }
        *self = HistoryBuilder {
            segments,
            last_total: total,
            last_month: Some(next),
            until_is_none,
            in_order: Ghost(ordered),
        };
    }

    /// The history: without its last month when it is open-ended.
    pub fn build(self) -> (h: History)
        ensures
            h@ == if self.spec_until_is_none() && self.spec_segments().len() > 0 {
                self.spec_segments().drop_last()
            } else {
                self.spec_segments()
            },
    {
        let mut segments = self.segments;
        if self.until_is_none {
            segments.pop();
        }
        segments
    }
}

/// The counts of a month as numbers: the rating sum, the white wins, the
/// draws and the black wins.
pub open spec fn spec_counts(s: Stats) -> (int, int, int, int) {
    (s.rating_sum as int, s.white as int, s.draws as int, s.black as int)
}

/// The counts of all segments together.
pub open spec fn spec_history_counts(segs: Seq<HistorySegment>) -> (int, int, int, int)
    decreases segs.len(),
{
    if segs.len() == 0 {
        (0, 0, 0, 0)
    } else {
        let r = spec_history_counts(segs.drop_last());
        let c = spec_counts(segs.last().stats);
        (r.0 + c.0, r.1 + c.1, r.2 + c.2, r.3 + c.3)
    }
}

/// Each segment's month is the month after that of the segment before.
pub open spec fn spec_consecutive(segs: Seq<HistorySegment>) -> bool {
    forall|i: int, j: int|
        0 <= i && j == i + 1 && j < segs.len() ==> #[trigger] segs[j].month.value() == #[trigger] segs[i].month.value() + 1
}

proof fn lemma_counts_concat(a: Seq<HistorySegment>, b: Seq<HistorySegment>)
    ensures
        ({
            let (x, y, z) = (spec_history_counts(a + b), spec_history_counts(a), spec_history_counts(b));
            x == (y.0 + z.0, y.1 + z.1, y.2 + z.2, y.3 + z.3)
        }),
    decreases b.len(),
{
    if b.len() == 0 {
        assert(a + b =~= a);
    } else {
        lemma_counts_concat(a, b.drop_last());
        assert((a + b).drop_last() =~= a + b.drop_last());
        assert((a + b).last() == b.last());
    }
}

proof fn lemma_gap_counts(from: u16, to: u16)
    ensures
        spec_history_counts(spec_gap(from, to)) == (0int, 0int, 0int, 0int),
        forall|k: int| 0 <= k < spec_gap(from, to).len() ==> (#[trigger] spec_gap(from, to)[k]).month.value() == from + k,
        spec_gap(from, to).len() == if from < to { (to - from) as nat } else { 0 },
    decreases to - from,
{
    let g = spec_gap(from, to);
    if from < to {
        lemma_gap_counts(from, (to - 1) as u16);
        assert(g.drop_last() =~= spec_gap(from, (to - 1) as u16));
        assert forall|k: int| 0 <= k < g.len() implies (#[trigger] g[k]).month.value() == from + k by {
            Month::lemma_from((from + k) as u16);
        }
    }
}

proof fn lemma_record_counts(
    segs: Seq<HistorySegment>,
    last_total: Stats,
    last_month: Option<Month>,
    month: Month,
    total: Stats,
)
    requires
        spec_history_counts(segs) == spec_counts(last_total),
        spec_le(last_total, total),
    ensures
        spec_history_counts(segs + match last_month {
            Some(l) => spec_gap(l.value(), month.value()),
            None => Seq::empty(),
        } + seq![HistorySegment { month, stats: spec_minus(total, last_total) }]) == spec_counts(total),
{
    let gap = match last_month {
        Some(l) => spec_gap(l.value(), month.value()),
        None => Seq::<HistorySegment>::empty(),
    };
    let mid = segs + gap;
    let after = mid + seq![HistorySegment { month, stats: spec_minus(total, last_total) }];
    match last_month {
        Some(l) => {
            lemma_gap_counts(l.value(), month.value());
        },
        None => {},
    }
    assert(spec_history_counts(gap) == (0int, 0int, 0int, 0int));
    lemma_counts_concat(segs, gap);
    assert(after.drop_last() =~= mid);
}

/// Recording running totals month by month keeps a history whole: when the
/// segments so far add up to the running total, run on month after month,
/// and the next month to fill follows the last of them, then recording a
/// total no smaller, at a month not before the next to fill, gives
/// segments that add up to the new total and still run on month after
/// month, the last of them the month recorded.
pub proof fn lemma_record_keeps_history(
    segs: Seq<HistorySegment>,
    last_total: Stats,
    last_month: Option<Month>,
    month: Month,
    total: Stats,
)
    requires
        spec_history_counts(segs) == spec_counts(last_total),
        spec_consecutive(segs),
        last_month is None ==> segs.len() == 0,
        last_month matches Some(l) ==> l.value() <= month.value() && (segs.len() > 0
            ==> segs.last().month.value() + 1 == l.value()),
        month.wf(),
        spec_le(last_total, total),
    ensures
        ({
            let after = segs + match last_month {
                Some(l) => spec_gap(l.value(), month.value()),
                None => Seq::empty(),
            } + seq![HistorySegment { month, stats: spec_minus(total, last_total) }];
            &&& spec_history_counts(after) == spec_counts(total)
            &&& spec_consecutive(after)
            &&& after.last().month == month
        }),
{
    let gap = match last_month {
        Some(l) => spec_gap(l.value(), month.value()),
        None => Seq::<HistorySegment>::empty(),
    };
    let seg = HistorySegment { month, stats: spec_minus(total, last_total) };
    let mid = segs + gap;
    let after = mid + seq![seg];
    match last_month {
        Some(l) => {
            lemma_gap_counts(l.value(), month.value());
        },
        None => {},
    }
    assert(spec_history_counts(gap) == (0int, 0int, 0int, 0int));
    lemma_counts_concat(segs, gap);
    assert(after.drop_last() =~= mid);
    assert(spec_history_counts(after) == spec_counts(total));
    assert forall|i: int, j: int|
        0 <= i && j == i + 1 && j < after.len() implies #[trigger] after[j].month.value()
            == #[trigger] after[i].month.value() + 1 by {
        if j < segs.len() {
            assert(after[i] == segs[i] && after[j] == segs[j]);
            assert(segs[j].month.value() == segs[i].month.value() + 1);
        } else if let Some(l) = last_month {
            let g = spec_gap(l.value(), month.value());
            assert(gap == g);
            if j < mid.len() {
                assert(after[j] == g[j - segs.len()]);
                assert(g[j - segs.len()].month.value() == l.value() + j - segs.len());
                if i >= segs.len() {
                    assert(after[i] == g[i - segs.len()]);
                    assert(g[i - segs.len()].month.value() == l.value() + i - segs.len());
                } else {
                    assert(after[i] == segs.last());
                }
            } else {
                assert(after[j] == seg);
                if i >= segs.len() {
                    assert(after[i] == g[i - segs.len()]);
                    assert(g[i - segs.len()].month.value() == l.value() + i - segs.len());
                } else {
                    assert(g.len() == 0);
                    assert(after[i] == segs.last());
                    assert(l.value() == month.value());
                }
            }
        } else {
            assert(gap.len() == 0);
            assert(segs.len() == 0);
        }
    }
}

} // verus!
