use vstd::prelude::*;

verus! {

/// The counters of one key of a view, as mathematical values.
pub struct Counters {
    pub requests: nat,
    pub bids: nat,
    pub price_sum: nat,
}

impl Counters {
    pub open spec fn zero() -> Counters {
        Counters { requests: 0, bids: 0, price_sum: 0 }
    }

    /// One more request; when it had a bid, one more bid and its price.
    pub open spec fn bump(self, has_bid: bool, price: nat) -> Counters {
        Counters {
            requests: self.requests + 1,
            bids: if has_bid {
                self.bids + 1
            } else {
                self.bids
            },
            price_sum: if has_bid {
                self.price_sum + price
            } else {
                self.price_sum
            },
        }
    }

    /// Point-wise sum of two sets of counters.
    pub open spec fn add(self, o: Counters) -> Counters {
        Counters {
            requests: self.requests + o.requests,
            bids: self.bids + o.bids,
            price_sum: self.price_sum + o.price_sum,
        }
    }
}

/// The counters of one time bucket, with the earliest and latest timestamp
/// seen in it.
pub struct BucketCounters {
    pub counters: Counters,
    pub min_ts: nat,
    pub max_ts: nat,
}

impl BucketCounters {
    /// A bucket after its first record.
    pub open spec fn first(ts: nat, has_bid: bool, price: nat) -> BucketCounters {
        BucketCounters { counters: Counters::zero().bump(has_bid, price), min_ts: ts, max_ts: ts }
    }

    pub open spec fn bump(self, ts: nat, has_bid: bool, price: nat) -> BucketCounters {
        BucketCounters {
            counters: self.counters.bump(has_bid, price),
            min_ts: if ts < self.min_ts {
                ts
            } else {
                self.min_ts
            },
            max_ts: if ts > self.max_ts {
                ts
            } else {
                self.max_ts
            },
        }
    }

    pub open spec fn add(self, o: BucketCounters) -> BucketCounters {
        BucketCounters {
            counters: self.counters.add(o.counters),
            min_ts: if o.min_ts < self.min_ts {
                o.min_ts
            } else {
                self.min_ts
            },
            max_ts: if o.max_ts > self.max_ts {
                o.max_ts
            } else {
                self.max_ts
            },
        }
    }
}

/// Request, bid and price counters of one key of a view. Prices are in
/// micro-units (millionths of the currency unit).
#[derive(Clone, Copy, Debug, PartialEq, Eq)]
pub struct FormatStats {
    pub requests: u64,
    pub bids: u64,
    pub sum_bid_price_micros: u128,
}

impl View for FormatStats {
    type V = Counters;

    open spec fn view(&self) -> Counters {
        Counters {
            requests: self.requests as nat,
            bids: self.bids as nat,
            price_sum: self.sum_bid_price_micros as nat,
        }
    }
}

/// Counters of one time bucket (one minute of timestamps).
#[derive(Clone, Copy, Debug, PartialEq, Eq)]
pub struct TimeStats {
    pub stats: FormatStats,
    pub min_ts: u64,
    pub max_ts: u64,
}

impl View for TimeStats {
    type V = BucketCounters;

    open spec fn view(&self) -> BucketCounters {
        BucketCounters { counters: self.stats@, min_ts: self.min_ts as nat, max_ts: self.max_ts as nat }
    }
}

/// The bound on the counters that keeps every update in range: bids never
/// exceed requests, requests never exceed `limit`, and each bid added at
/// most `u64::MAX` micro-units.
pub open spec fn counters_within(c: Counters, limit: nat) -> bool {
    &&& c.bids <= c.requests
    &&& c.requests <= limit
    &&& c.price_sum <= c.bids * (u64::MAX as nat)
}

impl FormatStats {
    /// All counters at zero.
    pub fn new() -> (s: FormatStats)
        ensures
            s@ == Counters::zero(),
    {
        FormatStats { requests: 0, bids: 0, sum_bid_price_micros: 0 }
    }

    /// Counts one request, and its bid when it had one.
    pub fn record(&mut self, has_bid: bool, price_micros: u64)
        requires
            counters_within(old(self)@, (u64::MAX - 1) as nat),
        ensures
            final(self)@ == old(self)@.bump(has_bid, price_micros as nat),
            counters_within(final(self)@, old(self)@.requests + 1),
    {
        self.requests = self.requests + 1;
        if has_bid {
            proof {
                lemma_price_room(self.bids as nat, self.sum_bid_price_micros as nat, price_micros as nat);
            }
            self.bids = self.bids + 1;
            self.sum_bid_price_micros = self.sum_bid_price_micros + price_micros as u128;
        }
    }

    /// Point-wise sum of two sets of counters.
    pub fn merged(&self, other: &FormatStats) -> (s: FormatStats)
        requires
            counters_within(self@, u64::MAX as nat),
            counters_within(other@, u64::MAX as nat),
            self.requests + other.requests <= u64::MAX,
        ensures
            s@ == self@.add(other@),
            counters_within(s@, (self.requests + other.requests) as nat),
    {
        proof {
            lemma_sum_room(
                self.bids as nat,
                other.bids as nat,
                self.sum_bid_price_micros as nat,
                other.sum_bid_price_micros as nat,
            );
        }
        FormatStats {
            requests: self.requests + other.requests,
            bids: self.bids + other.bids,
            sum_bid_price_micros: self.sum_bid_price_micros + other.sum_bid_price_micros,
        }
    }
}

proof fn lemma_price_room(bids: nat, sum: nat, price: nat)
    requires
        bids < u64::MAX,
        sum <= bids * (u64::MAX as nat),
        price <= u64::MAX,
    ensures
        sum + price <= (bids + 1) * (u64::MAX as nat),
        sum + price <= u128::MAX,
{
    assert((bids + 1) * (u64::MAX as nat) == bids * (u64::MAX as nat) + u64::MAX) by (nonlinear_arith);
    assert((bids + 1) * (u64::MAX as nat) <= (u64::MAX as nat) * (u64::MAX as nat)) by (nonlinear_arith)
        requires
            bids < u64::MAX,
    ;
    assert((u64::MAX as nat) * (u64::MAX as nat) <= u128::MAX) by (nonlinear_arith);
}

proof fn lemma_sum_room(b1: nat, b2: nat, s1: nat, s2: nat)
    requires
        b1 + b2 <= u64::MAX,
        s1 <= b1 * (u64::MAX as nat),
        s2 <= b2 * (u64::MAX as nat),
    ensures
        s1 + s2 <= (b1 + b2) * (u64::MAX as nat),
        s1 + s2 <= u128::MAX,
{
    assert((b1 + b2) * (u64::MAX as nat) == b1 * (u64::MAX as nat) + b2 * (u64::MAX as nat))
        by (nonlinear_arith);
    assert((b1 + b2) * (u64::MAX as nat) <= (u64::MAX as nat) * (u64::MAX as nat)) by (nonlinear_arith)
        requires
            b1 + b2 <= u64::MAX,
    ;
    assert((u64::MAX as nat) * (u64::MAX as nat) <= u128::MAX) by (nonlinear_arith);
}

impl TimeStats {
    /// A bucket holding one record with timestamp `ts`.
    pub fn first(ts: u64, has_bid: bool, price_micros: u64) -> (t: TimeStats)
        ensures
            t@ == BucketCounters::first(ts as nat, has_bid, price_micros as nat),
            counters_within(t@.counters, 1),
    {
        let mut stats = FormatStats::new();
        stats.record(has_bid, price_micros);
        TimeStats { stats, min_ts: ts, max_ts: ts }
    }

    /// Counts one more record with timestamp `ts`.
    pub fn record(&mut self, ts: u64, has_bid: bool, price_micros: u64)
        requires
            counters_within(old(self)@.counters, (u64::MAX - 1) as nat),
        ensures
            final(self)@ == old(self)@.bump(ts as nat, has_bid, price_micros as nat),
            counters_within(final(self)@.counters, old(self)@.counters.requests + 1),
    {
        self.stats.record(has_bid, price_micros);
        if ts < self.min_ts {
            self.min_ts = ts;
        }
        if ts > self.max_ts {
            self.max_ts = ts;
        }
    }

    /// Point-wise sum of two buckets: counters add, the time range widens.
    pub fn merged(&self, other: &TimeStats) -> (t: TimeStats)
        requires
            counters_within(self@.counters, u64::MAX as nat),
            counters_within(other@.counters, u64::MAX as nat),
            self.stats.requests + other.stats.requests <= u64::MAX,
        ensures
            t@ == self@.add(other@),
            counters_within(t@.counters, (self.stats.requests + other.stats.requests) as nat),
    {
        TimeStats {
            stats: self.stats.merged(&other.stats),
            min_ts: if other.min_ts < self.min_ts {
                other.min_ts
            } else {
                self.min_ts
            },
            max_ts: if other.max_ts > self.max_ts {
                other.max_ts
            } else {
                self.max_ts
            },
        }
    }
}

/// An exact fraction `numerator / denominator`, with a positive denominator.
#[derive(Clone, Copy, Debug, PartialEq, Eq)]
pub struct Ratio {
    pub numerator: u128,
    pub denominator: u64,
}

/// The share of requests that received a bid: `bids / requests`, or `0 / 1`
/// when there were no requests.
pub open spec fn bid_rate_of(stat: FormatStats) -> Ratio {
    if stat.requests == 0 {
        Ratio { numerator: 0, denominator: 1 }
    } else {
        Ratio { numerator: stat.bids as u128, denominator: stat.requests }
    }
}

/// The share of requests that received a bid: `bids / requests`, or `0 / 1`
/// when there were no requests.
pub fn bid_rate(stat: &FormatStats) -> (r: Ratio)
    ensures
        r == bid_rate_of(*stat),
        r.denominator > 0,
        stat.requests == 0 ==> r.numerator == 0 && r.denominator == 1,
        stat.requests > 0 ==> r.numerator == stat.bids && r.denominator == stat.requests,
        stat.bids <= stat.requests ==> r.numerator <= r.denominator,
{
    if stat.requests == 0 {
        Ratio { numerator: 0, denominator: 1 }
    } else {
        Ratio { numerator: stat.bids as u128, denominator: stat.requests }
    }
}

/// The mean price of the bids, in micro-units: `sum / bids`, or `0 / 1` when
/// there were no bids.
pub fn avg_bid_price(stat: &FormatStats) -> (r: Ratio)
    ensures
        r.denominator > 0,
        stat.bids == 0 ==> r.numerator == 0 && r.denominator == 1,
        stat.bids > 0 ==> r.numerator == stat.sum_bid_price_micros && r.denominator == stat.bids,
{
    if stat.bids == 0 {
        Ratio { numerator: 0, denominator: 1 }
    } else {
        Ratio { numerator: stat.sum_bid_price_micros, denominator: stat.bids }
    }
}

} // verus!
