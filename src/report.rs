use crate::cli::SortBy;
use crate::global::GlobalStats;
use crate::stats::{bid_rate_of, FormatStats};
use vstd::prelude::*;

verus! {

/// One row of the format report: a canonical size and its counters.
#[derive(Clone, Copy, Debug, PartialEq, Eq)]
pub struct FormatRow {
    pub w: u32,
    pub h: u32,
    pub stats: FormatStats,
}

/// Whether the bid rate of `a` is below that of `b` (compared exactly, as
/// fractions).
pub open spec fn rate_below(a: FormatStats, b: FormatStats) -> bool {
    let ra = bid_rate_of(a);
    let rb = bid_rate_of(b);
    ra.numerator * rb.denominator < rb.numerator * ra.denominator
}

/// Whether row `e` ranks strictly below row `x` in the order `by`.
pub open spec fn ranks_below(e: FormatRow, x: FormatRow, by: SortBy) -> bool {
    match by {
        SortBy::Format => false,
        SortBy::RequestsDesc => e.stats.requests < x.stats.requests,
        SortBy::BidRateDesc => rate_below(e.stats, x.stats),
    }
}

/// Places `x` into `s` after every row that does not rank below it.
pub open spec fn insert_row(s: Seq<FormatRow>, x: FormatRow, by: SortBy) -> Seq<FormatRow>
    decreases s.len(),
{
    if s.len() == 0 || !ranks_below(s.last(), x, by) {
        s.push(x)
    } else {
        insert_row(s.drop_last(), x, by).push(s.last())
    }
}

/// Stable sort of the rows in the order `by`: rows that tie keep their
/// order.
pub open spec fn sort_rows(s: Seq<FormatRow>, by: SortBy) -> Seq<FormatRow>
    decreases s.len(),
{
    if s.len() == 0 {
        s
    } else {
        insert_row(sort_rows(s.drop_last(), by), s.last(), by)
    }
}

/// The rows of the entries with at least `min_requests` requests, in order.
pub open spec fn kept_rows(entries: Seq<((u32, u32), FormatStats)>, min_requests: u64) -> Seq<
    FormatRow,
>
    decreases entries.len(),
{
    if entries.len() == 0 {
        Seq::empty()
    } else {
        let prev = kept_rows(entries.drop_last(), min_requests);
        let (k, s) = entries.last();
        if s.requests >= min_requests {
            prev.push(FormatRow { w: k.0, h: k.1, stats: s })
        } else {
            prev
        }
    }
}

proof fn lemma_insert_row_at(s: Seq<FormatRow>, x: FormatRow, by: SortBy, p: int)
    requires
        0 <= p <= s.len(),
        forall|j: int| p <= j < s.len() ==> ranks_below(#[trigger] s[j], x, by),
        p == 0 || !ranks_below(s[p - 1], x, by),
    ensures
        insert_row(s, x, by) == s.insert(p, x),
    decreases s.len(),
{
    if p == s.len() {
        assert(s.insert(p, x) =~= s.push(x));
    } else {
        let init = s.drop_last();
        lemma_insert_row_at(init, x, by, p);
        assert(s.insert(p, x) =~= init.insert(p, x).push(s.last()));
    }
}

/// Whether row `e` ranks strictly below row `x` in the order `by`.
fn row_ranks_below(e: &FormatRow, x: &FormatRow, by: SortBy) -> (r: bool)
    ensures
        r == ranks_below(*e, *x, by),
{
    match by {
        SortBy::Format => false,
        SortBy::RequestsDesc => e.stats.requests < x.stats.requests,
        SortBy::BidRateDesc => {
            let (en, ed): (u128, u128) = if e.stats.requests == 0 {
                (0, 1)
            } else {
                (e.stats.bids as u128, e.stats.requests as u128)
            };
            let (xn, xd): (u128, u128) = if x.stats.requests == 0 {
                (0, 1)
            } else {
                (x.stats.bids as u128, x.stats.requests as u128)
            };
            proof {
                assert(en * xd <= u64::MAX as u128 * u64::MAX as u128) by (nonlinear_arith)
                    requires
                        en <= u64::MAX,
                        xd <= u64::MAX,
                ;
                assert(xn * ed <= u64::MAX as u128 * u64::MAX as u128) by (nonlinear_arith)
                    requires
                        xn <= u64::MAX,
                        ed <= u64::MAX,
                ;
            }
            en * xd < xn * ed
        },
    }
}

/// Selects the rows of the canonical-size view with at least `min_requests`
/// requests and orders them by `sort_by`; rows that tie stay in size order.
pub fn format_rows(global: &GlobalStats, min_requests: u64, sort_by: SortBy) -> (r: Vec<FormatRow>)
    requires
        global.wf(),
    ensures
        r@ == sort_rows(kept_rows(global.canonical_table().entries(), min_requests), sort_by),
{
    let table = global.by_canonical_format();
    let n = table.len();
    let ghost entries = table.entries();
    let mut out: Vec<FormatRow> = Vec::new();
    let mut i: usize = 0;
    while i < n
        invariant
            table.wf(),
            n == table.size(),
            entries == table.entries(),
            *table == global.canonical_table(),
            i <= n,
            out@ == sort_rows(kept_rows(entries.subrange(0, i as int), min_requests), sort_by),
        decreases n - i,
    {
        let (k, s) = table.entry(i);
        proof {
            assert(entries.subrange(0, i + 1).drop_last() =~= entries.subrange(0, i as int));
            assert(entries.subrange(0, i + 1).last() == (*k, *s));
        }
        if s.requests >= min_requests {
            let row = FormatRow { w: k.0, h: k.1, stats: *s };
            proof {
                let kept = kept_rows(entries.subrange(0, i as int), min_requests);
                assert(kept.push(row).drop_last() =~= kept);
            }
            let mut p: usize = out.len();
            while p > 0 && row_ranks_below(&out[p - 1], &row, sort_by)
                invariant
                    p <= out@.len(),
                    forall|j: int| p <= j < out@.len() ==> ranks_below(#[trigger] out@[j], row, sort_by),
                decreases p,
            {
                p = p - 1;
            }
            proof {
                lemma_insert_row_at(out@, row, sort_by, p as int);
            }
            out.insert(p, row);
        }
        i = i + 1;
    }
    proof {
        assert(entries.subrange(0, n as int) =~= entries);
    }
    out
}

} // verus!
