use crate::canonical::{is_standard, is_standard_size};
use crate::global::GlobalStats;
use crate::stats::{bid_rate, bid_rate_of, FormatStats, Ratio};
use vstd::prelude::*;

verus! {

/// Why a raw size was flagged.
#[derive(Clone, Copy, Debug, PartialEq, Eq)]
pub enum ProblemType {
    /// Enough volume and not one bid.
    ZeroBids,
    /// Enough volume at a size that is not standard.
    NonStandard,
    /// Enough volume, some bids, but fewer than one in a hundred requests.
    LowBidRate,
}

impl ProblemType {
    /// The tag of the problem as it appears in reports.
    pub fn as_str(&self) -> (s: &'static str)
        ensures
            *self == ProblemType::ZeroBids ==> s@ == "zero_bids"@,
            *self == ProblemType::NonStandard ==> s@ == "non_standard"@,
            *self == ProblemType::LowBidRate ==> s@ == "low_bid_rate"@,
    {
        match self {
            ProblemType::ZeroBids => "zero_bids",
            ProblemType::NonStandard => "non_standard",
            ProblemType::LowBidRate => "low_bid_rate",
        }
    }
}

/// A raw size flagged by the classifier, with its counters.
#[derive(Clone, Copy, Debug, PartialEq, Eq)]
pub struct ProblemFormat {
    pub w: u32,
    pub h: u32,
    pub requests: u64,
    pub bids: u64,
    pub bid_rate: Ratio,
    pub problem_type: ProblemType,
}

/// Whether the bid rate is under one percent: `bids / requests < 0.01`,
/// where a rate with no requests is zero.
pub open spec fn rate_below_one_percent(s: FormatStats) -> bool {
    s.requests == 0 || 100 * s.bids < s.requests
}

/// The rules, in priority order; the first that holds names the problem.
pub open spec fn classify(key: (u32, u32), s: FormatStats, min_volume: u64) -> Option<ProblemType> {
    if s.bids == 0 && s.requests >= min_volume {
        Some(ProblemType::ZeroBids)
    } else if !is_standard(key.0, key.1) && s.requests >= min_volume {
        Some(ProblemType::NonStandard)
    } else if rate_below_one_percent(s) && s.requests >= min_volume && s.bids > 0 {
        Some(ProblemType::LowBidRate)
    } else {
        None
    }
}

pub open spec fn problem_of(key: (u32, u32), s: FormatStats, t: ProblemType) -> ProblemFormat {
    ProblemFormat {
        w: key.0,
        h: key.1,
        requests: s.requests,
        bids: s.bids,
        bid_rate: bid_rate_of(s),
        problem_type: t,
    }
}

/// The flagged entries, in the order of `entries`.
pub open spec fn flagged(entries: Seq<((u32, u32), FormatStats)>, min_volume: u64) -> Seq<
    ProblemFormat,
>
    decreases entries.len(),
{
    if entries.len() == 0 {
        Seq::empty()
    } else {
        let prev = flagged(entries.drop_last(), min_volume);
        let (k, s) = entries.last();
        match classify(k, s, min_volume) {
            Some(t) => prev.push(problem_of(k, s, t)),
            None => prev,
        }
    }
}

/// Places `x` into `s` (sorted by requests, descending) after every item
/// with at least as many requests.
pub open spec fn insert_by_requests(s: Seq<ProblemFormat>, x: ProblemFormat) -> Seq<ProblemFormat>
    decreases s.len(),
{
    if s.len() == 0 || s.last().requests >= x.requests {
        s.push(x)
    } else {
        insert_by_requests(s.drop_last(), x).push(s.last())
    }
}

/// Stable sort by requests, descending: items with equal requests keep
/// their order.
pub open spec fn sort_by_requests(s: Seq<ProblemFormat>) -> Seq<ProblemFormat>
    decreases s.len(),
{
    if s.len() == 0 {
        s
    } else {
        insert_by_requests(sort_by_requests(s.drop_last()), s.last())
    }
}

/// Whether the items are in descending order of requests.
pub open spec fn sorted_by_requests(s: Seq<ProblemFormat>) -> bool {
    forall|i: int, j: int| 0 <= i < j < s.len() ==> #[trigger] s[i].requests >= #[trigger] s[j].requests
}

proof fn lemma_insert_by_requests(s: Seq<ProblemFormat>, x: ProblemFormat)
    requires
        sorted_by_requests(s),
    ensures
        sorted_by_requests(insert_by_requests(s, x)),
        insert_by_requests(s, x).to_multiset() == s.to_multiset().insert(x),
    decreases s.len(),
{
    broadcast use vstd::seq_lib::group_to_multiset_ensures;

    if s.len() == 0 || s.last().requests >= x.requests {
        assert(s.push(x)[s.len() as int] == x);
        assert forall|i: int| 0 <= i < s.len() implies #[trigger] s.push(x)[i] == s[i] by {}
    } else {
        let init = s.drop_last();
        let last = s.last();
        lemma_insert_by_requests(init, x);
        let mid = insert_by_requests(init, x);
        assert forall|k: int| 0 <= k < mid.len() implies #[trigger] mid[k].requests >= last.requests by {
            assert(mid.to_multiset().count(mid[k]) > 0);
            if mid[k] != x {
                assert(init.to_multiset().count(mid[k]) > 0);
                let m = choose|m: int| 0 <= m < init.len() && init[m] == mid[k];
                assert(s[m] == init[m]);
            }
        }
        assert forall|i: int| 0 <= i < mid.len() implies #[trigger] mid.push(last)[i] == mid[i] by {}
        assert(s =~= init.push(last));
    }
}

/// The stable sort yields the same items, in descending order of requests.
pub proof fn lemma_sort_by_requests(s: Seq<ProblemFormat>)
    ensures
        sorted_by_requests(sort_by_requests(s)),
        sort_by_requests(s).to_multiset() == s.to_multiset(),
    decreases s.len(),
{
    broadcast use vstd::seq_lib::group_to_multiset_ensures;

    if s.len() > 0 {
        lemma_sort_by_requests(s.drop_last());
        lemma_insert_by_requests(sort_by_requests(s.drop_last()), s.last());
        assert(s =~= s.drop_last().push(s.last()));
    }
}

/// Inserting at position `p`, where everything from `p` on has fewer
/// requests than `x` and the item before `p` has at least as many, is what
/// `insert_by_requests` does.
proof fn lemma_insert_at(s: Seq<ProblemFormat>, x: ProblemFormat, p: int)
    requires
        0 <= p <= s.len(),
        forall|j: int| p <= j < s.len() ==> #[trigger] s[j].requests < x.requests,
        p == 0 || s[p - 1].requests >= x.requests,
    ensures
        insert_by_requests(s, x) == s.insert(p, x),
    decreases s.len(),
{
    if p == s.len() {
        assert(s.insert(p, x) =~= s.push(x));
    } else {
        let init = s.drop_last();
        lemma_insert_at(init, x, p);
        assert(s.insert(p, x) =~= init.insert(p, x).push(s.last()));
    }
}

/// Inserts `x` into `out` (sorted by requests, descending) after every item
/// with at least as many requests.
fn insert_sorted(out: &mut Vec<ProblemFormat>, x: ProblemFormat)
    ensures
        final(out)@ == insert_by_requests(old(out)@, x),
{
    let mut p: usize = out.len();
    while p > 0 && out[p - 1].requests < x.requests
        invariant
            p <= out@.len(),
            forall|j: int| p <= j < out@.len() ==> #[trigger] out@[j].requests < x.requests,
        decreases p,
    {
        p = p - 1;
    }
    proof {
        lemma_insert_at(out@, x, p as int);
    }
    out.insert(p, x);
}

/// Classifies one raw size by the rules, in priority order.
pub fn classify_format(key: (u32, u32), s: &FormatStats, min_volume_threshold: u64) -> (r: Option<
    ProblemType,
>)
    ensures
        r == classify(key, *s, min_volume_threshold),
{
    if s.bids == 0 && s.requests >= min_volume_threshold {
        return Some(ProblemType::ZeroBids);
    }
    if !is_standard_size(key.0, key.1) && s.requests >= min_volume_threshold {
        return Some(ProblemType::NonStandard);
    }
    let below = s.requests == 0 || (s.bids as u128) * 100 < s.requests as u128;
    if below && s.requests >= min_volume_threshold && s.bids > 0 {
        return Some(ProblemType::LowBidRate);
    }
    None
}

/// Flags the raw sizes that break a rule, scanning the raw-size view in key
/// order, and lists them by requests, descending (ties keep the key order).
pub fn find_problem_formats(global: &GlobalStats, min_volume_threshold: u64) -> (r: Vec<
    ProblemFormat,
>)
    requires
        global.wf(),
    ensures
        r@ == sort_by_requests(flagged(global.raw_table().entries(), min_volume_threshold)),
        sorted_by_requests(r@),
        r@.to_multiset() == flagged(global.raw_table().entries(), min_volume_threshold).to_multiset(),
{
    let table = global.by_raw_format();
    let n = table.len();
    let ghost entries = table.entries();
    let mut out: Vec<ProblemFormat> = Vec::new();
    let mut i: usize = 0;
    while i < n
        invariant
            table.wf(),
            n == table.size(),
            entries == table.entries(),
            *table == global.raw_table(),
            i <= n,
            out@ == sort_by_requests(flagged(entries.subrange(0, i as int), min_volume_threshold)),
        decreases n - i,
    {
        let (k, s) = table.entry(i);
        let key: (u32, u32) = *k;
        proof {
            assert(entries.subrange(0, i + 1).drop_last() =~= entries.subrange(0, i as int));
            assert(entries.subrange(0, i + 1).last() == (key, *s));
        }
        match classify_format(key, s, min_volume_threshold) {
            Some(t) => {
                let p = ProblemFormat {
                    w: key.0,
                    h: key.1,
                    requests: s.requests,
                    bids: s.bids,
                    bid_rate: bid_rate(s),
                    problem_type: t,
                };
                proof {
                    let f = flagged(entries.subrange(0, i as int), min_volume_threshold);
                    assert(f.push(p).drop_last() =~= f);
                }
                insert_sorted(&mut out, p);
            },
            None => {},
        }
        i = i + 1;
    }
    proof {
        assert(entries.subrange(0, n as int) =~= entries);
        lemma_sort_by_requests(flagged(entries, min_volume_threshold));
    }
    out
}

} // verus!
