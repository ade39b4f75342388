use crate::canonical::{canonical_of, canonical_size};
use crate::keys::{
    compare_text_pair, lemma_text_pair_irreflexive, lemma_text_pair_total,
    lemma_text_pair_transitive, text_pair_precedes, OrderedKey,
};
use crate::record::{
    extract, record_has_bid, record_height, record_is_sized, record_price, record_source,
    record_width, LogRecord,
};
use crate::stats::{counters_within, BucketCounters, Counters, FormatStats, TimeStats};
use crate::table::SortedTable;
use std::cmp::Ordering;
use vstd::prelude::*;

verus! {

/// Milliseconds in one time bucket.
pub const BUCKET_MS: u64 = 60000;

/// Key of the by-publisher view: source id and publisher id.
pub struct PublisherKey {
    pub ssp: String,
    pub publisher_id: String,
}

/// Key of the by-segment view: source id and audience segment id.
pub struct SegmentKey {
    pub ssp: String,
    pub segment: String,
}

impl View for PublisherKey {
    type V = (Seq<char>, Seq<char>);

    open spec fn view(&self) -> (Seq<char>, Seq<char>) {
        (self.ssp@, self.publisher_id@)
    }
}

impl View for SegmentKey {
    type V = (Seq<char>, Seq<char>);

    open spec fn view(&self) -> (Seq<char>, Seq<char>) {
        (self.ssp@, self.segment@)
    }
}

impl OrderedKey for PublisherKey {
    open spec fn precedes(a: (Seq<char>, Seq<char>), b: (Seq<char>, Seq<char>)) -> bool {
        text_pair_precedes(a, b)
    }

    proof fn lemma_irreflexive(a: (Seq<char>, Seq<char>)) {
        lemma_text_pair_irreflexive(a);
    }

    proof fn lemma_transitive(
        a: (Seq<char>, Seq<char>),
        b: (Seq<char>, Seq<char>),
        c: (Seq<char>, Seq<char>),
    ) {
        lemma_text_pair_transitive(a, b, c);
    }

    proof fn lemma_total(a: (Seq<char>, Seq<char>), b: (Seq<char>, Seq<char>)) {
        lemma_text_pair_total(a, b);
    }

    fn compare(&self, other: &PublisherKey) -> (c: Ordering) {
        compare_text_pair(&self.ssp, &self.publisher_id, &other.ssp, &other.publisher_id)
    }

    fn duplicate(&self) -> (r: PublisherKey) {
        PublisherKey { ssp: self.ssp.clone(), publisher_id: self.publisher_id.clone() }
    }
}

impl OrderedKey for SegmentKey {
    open spec fn precedes(a: (Seq<char>, Seq<char>), b: (Seq<char>, Seq<char>)) -> bool {
        text_pair_precedes(a, b)
    }

    proof fn lemma_irreflexive(a: (Seq<char>, Seq<char>)) {
        lemma_text_pair_irreflexive(a);
    }

    proof fn lemma_transitive(
        a: (Seq<char>, Seq<char>),
        b: (Seq<char>, Seq<char>),
        c: (Seq<char>, Seq<char>),
    ) {
        lemma_text_pair_transitive(a, b, c);
    }

    proof fn lemma_total(a: (Seq<char>, Seq<char>), b: (Seq<char>, Seq<char>)) {
        lemma_text_pair_total(a, b);
    }

    fn compare(&self, other: &SegmentKey) -> (c: Ordering) {
        compare_text_pair(&self.ssp, &self.segment, &other.ssp, &other.segment)
    }

    fn duplicate(&self) -> (r: SegmentKey) {
        SegmentKey { ssp: self.ssp.clone(), segment: self.segment.clone() }
    }
}

/// The six grouped views as mathematical maps, and the number of records
/// that were counted.
pub struct StatsModel {
    pub records: nat,
    pub raw: Map<(u32, u32), Counters>,
    pub canonical: Map<(u32, u32), Counters>,
    pub sources: Map<Seq<char>, Counters>,
    pub publishers: Map<(Seq<char>, Seq<char>), Counters>,
    pub segments: Map<(Seq<char>, Seq<char>), Counters>,
    pub minutes: Map<u64, BucketCounters>,
}

impl StatsModel {
    pub open spec fn empty() -> StatsModel {
        StatsModel {
            records: 0,
            raw: Map::empty(),
            canonical: Map::empty(),
            sources: Map::empty(),
            publishers: Map::empty(),
            segments: Map::empty(),
            minutes: Map::empty(),
        }
    }
}

/// The counters of a view, read as mathematical values.
pub open spec fn counts<K>(m: Map<K, FormatStats>) -> Map<K, Counters> {
    m.map_values(|s: FormatStats| s@)
}

/// The buckets of the time view, read as mathematical values.
pub open spec fn buckets(m: Map<u64, TimeStats>) -> Map<u64, BucketCounters> {
    m.map_values(|t: TimeStats| t@)
}

/// Counts one request (and its bid) under key `k`, creating the entry.
pub open spec fn bump_key<K>(m: Map<K, Counters>, k: K, has_bid: bool, price: nat) -> Map<
    K,
    Counters,
> {
    m.insert(
        k,
        (if m.contains_key(k) {
            m[k]
        } else {
            Counters::zero()
        }).bump(has_bid, price),
    )
}

/// Counts one record with timestamp `ts` in its one-minute bucket.
pub open spec fn bump_minute(
    m: Map<u64, BucketCounters>,
    ts: u64,
    has_bid: bool,
    price: nat,
) -> Map<u64, BucketCounters> {
    let b = ts / BUCKET_MS;
    m.insert(
        b,
        if m.contains_key(b) {
            m[b].bump(ts as nat, has_bid, price)
        } else {
            BucketCounters::first(ts as nat, has_bid, price)
        },
    )
}

/// The views after one more record: a record without both dimensions
/// changes nothing; otherwise every view that the record has a key for
/// counts it once, with the same bid and price.
pub open spec fn ingest_spec(m: StatsModel, r: LogRecord) -> StatsModel {
    if !record_is_sized(&r) {
        m
    } else {
        let size = (record_width(&r), record_height(&r));
        let has_bid = record_has_bid(&r);
        let price = record_price(&r);
        let src = record_source(&r);
        StatsModel {
            records: m.records + 1,
            raw: bump_key(m.raw, size, has_bid, price),
            canonical: bump_key(m.canonical, canonical_of(size.0, size.1), has_bid, price),
            sources: if src.len() > 0 {
                bump_key(m.sources, src, has_bid, price)
            } else {
                m.sources
            },
            publishers: match r.publisher_id {
                Some(id) => bump_key(m.publishers, (src, id@), has_bid, price),
                None => m.publishers,
            },
            segments: match r.segment_id {
                Some(id) => bump_key(m.segments, (src, id@), has_bid, price),
                None => m.segments,
            },
            minutes: match r.ts_ms {
                Some(ts) => bump_minute(m.minutes, ts, has_bid, price),
                None => m.minutes,
            },
        }
    }
}

/// The views after the records `rs`, in order, starting from `m`.
pub open spec fn ingest_all(m: StatsModel, rs: Seq<LogRecord>) -> StatsModel
    decreases rs.len(),
{
    if rs.len() == 0 {
        m
    } else {
        ingest_spec(ingest_all(m, rs.drop_last()), rs.last())
    }
}

/// Point-wise sum of two views: a key of either one, with the counters of
/// both added.
pub open spec fn merge_counts<K>(a: Map<K, Counters>, b: Map<K, Counters>) -> Map<K, Counters> {
    Map::new(
        |k: K| a.contains_key(k) || b.contains_key(k),
        |k: K|
            if a.contains_key(k) && b.contains_key(k) {
                a[k].add(b[k])
            } else if a.contains_key(k) {
                a[k]
            } else {
                b[k]
            },
    )
}

/// Point-wise sum of two time views.
pub open spec fn merge_buckets(a: Map<u64, BucketCounters>, b: Map<u64, BucketCounters>) -> Map<
    u64,
    BucketCounters,
> {
    Map::new(
        |k: u64| a.contains_key(k) || b.contains_key(k),
        |k: u64|
            if a.contains_key(k) && b.contains_key(k) {
                a[k].add(b[k])
            } else if a.contains_key(k) {
                a[k]
            } else {
                b[k]
            },
    )
}

/// Point-wise sum of two aggregates, view by view and key by key.
pub open spec fn merge_spec(a: StatsModel, b: StatsModel) -> StatsModel {
    StatsModel {
        records: a.records + b.records,
        raw: merge_counts(a.raw, b.raw),
        canonical: merge_counts(a.canonical, b.canonical),
        sources: merge_counts(a.sources, b.sources),
        publishers: merge_counts(a.publishers, b.publishers),
        segments: merge_counts(a.segments, b.segments),
        minutes: merge_buckets(a.minutes, b.minutes),
    }
}

/// Every entry of a view stays within the bound of `limit` records.
pub open spec fn all_within<K>(m: Map<K, FormatStats>, limit: nat) -> bool {
    forall|k: K| #[trigger] m.contains_key(k) ==> counters_within(m[k]@, limit)
}

pub open spec fn buckets_within(m: Map<u64, TimeStats>, limit: nat) -> bool {
    forall|k: u64| #[trigger] m.contains_key(k) ==> counters_within(m[k]@.counters, limit)
}

/// Counts one request under `k` in a table of counters.
fn bump_table<K: OrderedKey>(
    t: &mut SortedTable<K, FormatStats>,
    k: K,
    has_bid: bool,
    price_micros: u64,
    Ghost(limit): Ghost<nat>,
)
    requires
        old(t).wf(),
        all_within(old(t)@, limit),
        limit < u64::MAX,
    ensures
        final(t).wf(),
        counts(final(t)@) == bump_key(counts(old(t)@), k@, has_bid, price_micros as nat),
        all_within(final(t)@, limit + 1),
{
    let ghost kv = k@;
    let mut s = match t.get(&k) {
        Some(v) => *v,
        None => FormatStats::new(),
    };
    s.record(has_bid, price_micros);
    t.put(k, s);
    proof {
        assert(counts(t@) =~= bump_key(counts(old(t)@), kv, has_bid, price_micros as nat));
    }
}

/// Counts one record with timestamp `ts` in the time table.
fn bump_time_table(
    t: &mut SortedTable<u64, TimeStats>,
    ts: u64,
    has_bid: bool,
    price_micros: u64,
    Ghost(limit): Ghost<nat>,
)
    requires
        old(t).wf(),
        buckets_within(old(t)@, limit),
        limit < u64::MAX,
    ensures
        final(t).wf(),
        buckets(final(t)@) == bump_minute(buckets(old(t)@), ts, has_bid, price_micros as nat),
        buckets_within(final(t)@, limit + 1),
{
    let bucket = ts / BUCKET_MS;
    let entry = match t.get(&bucket) {
        Some(v) => {
            let mut e = *v;
            e.record(ts, has_bid, price_micros);
            e
        },
        None => TimeStats::first(ts, has_bid, price_micros),
    };
    t.put(bucket, entry);
    proof {
        assert(buckets(t@) =~= bump_minute(buckets(old(t)@), ts, has_bid, price_micros as nat));
    }
}

/// Adds the counters of `b` into the table `t`, key by key.
fn merge_table<K: OrderedKey>(
    t: &mut SortedTable<K, FormatStats>,
    b: &SortedTable<K, FormatStats>,
    Ghost(la): Ghost<nat>,
    Ghost(lb): Ghost<nat>,
)
    requires
        old(t).wf(),
        b.wf(),
        all_within(old(t)@, la),
        all_within(b@, lb),
        la + lb <= u64::MAX,
    ensures
        final(t).wf(),
        counts(final(t)@) == merge_counts(counts(old(t)@), counts(b@)),
        all_within(final(t)@, la + lb),
{
    let ghost a = counts(old(t)@);
    let ghost mut seen: Map<K::V, Counters> = Map::empty();
    proof {
        b.lemma_entries();
        assert(merge_counts(a, seen) =~= a);
    }
    let n = b.len();
    let mut i: usize = 0;
    while i < n
        invariant
            t.wf(),
            b.wf(),
            n == b.size(),
            i <= n,
            all_within(t@, la + lb),
            all_within(b@, lb),
            la + lb <= u64::MAX,
            counts(t@) == merge_counts(a, seen),
            forall|k: K::V| #[trigger]
                seen.contains_key(k) ==> exists|j: int| 0 <= j < i && b.key_at(j) == k,
            forall|j: int| 0 <= j < i ==> seen.contains_key(#[trigger] b.key_at(j)),
            forall|k: K::V| #[trigger] seen.contains_key(k) ==> b@.contains_key(k) && seen[k] == b@[k]@,
            forall|k: K::V| #[trigger] a.contains_key(k) ==> counters_within(a[k], la),
        decreases n - i,
    {
        let (k, v) = b.entry(i);
        let ghost kv = k@;
        proof {
            b.lemma_entries();
            if seen.contains_key(kv) {
                let j = choose|j: int| 0 <= j < i && b.key_at(j) == kv;
                assert(K::precedes(b.key_at(j), b.key_at(i as int)));
                K::lemma_irreflexive(kv);
            }
        }
        proof {
            assert(!seen.contains_key(kv));
            assert(b@.contains_key(kv) && b@[kv] == *v);
            if t@.contains_key(kv) {
                assert(counts(t@).contains_key(kv));
                assert(merge_counts(a, seen)[kv] == a[kv]);
            }
        }
        let ghost before = counts(t@);
        let merged = match t.get(k) {
            Some(cur) => cur.merged(v),
            None => *v,
        };
        let key = k.duplicate();
        t.put(key, merged);
        proof {
            let new_seen = seen.insert(kv, v@);
            if a.contains_key(kv) {
                assert(before.contains_key(kv) && before[kv] == a[kv]);
                assert(merged@ == a[kv].add(v@));
            } else {
                assert(!before.contains_key(kv));
                assert(merged@ == v@);
            }
            assert(counts(t@) =~= before.insert(kv, merged@));
            assert(merge_counts(a, new_seen) =~= merge_counts(a, seen).insert(kv, merged@));
            seen = new_seen;
        }
        i = i + 1;
    }
    proof {
        b.lemma_entries();
        assert(seen =~= counts(b@));
    }
}

/// Adds the buckets of `b` into the time table `t`, key by key.
fn merge_time_table(
    t: &mut SortedTable<u64, TimeStats>,
    b: &SortedTable<u64, TimeStats>,
    Ghost(la): Ghost<nat>,
    Ghost(lb): Ghost<nat>,
)
    requires
        old(t).wf(),
        b.wf(),
        buckets_within(old(t)@, la),
        buckets_within(b@, lb),
        la + lb <= u64::MAX,
    ensures
        final(t).wf(),
        buckets(final(t)@) == merge_buckets(buckets(old(t)@), buckets(b@)),
        buckets_within(final(t)@, la + lb),
{
    let ghost a = buckets(old(t)@);
    let ghost mut seen: Map<u64, BucketCounters> = Map::empty();
    proof {
        b.lemma_entries();
        assert(merge_buckets(a, seen) =~= a);
    }
    let n = b.len();
    let mut i: usize = 0;
    while i < n
        invariant
            t.wf(),
            b.wf(),
            n == b.size(),
            i <= n,
            buckets_within(t@, la + lb),
            buckets_within(b@, lb),
            la + lb <= u64::MAX,
            buckets(t@) == merge_buckets(a, seen),
            forall|k: u64| #[trigger]
                seen.contains_key(k) ==> exists|j: int| 0 <= j < i && b.key_at(j) == k,
            forall|j: int| 0 <= j < i ==> seen.contains_key(#[trigger] b.key_at(j)),
            forall|k: u64| #[trigger] seen.contains_key(k) ==> b@.contains_key(k) && seen[k] == b@[k]@,
            forall|k: u64| #[trigger] a.contains_key(k) ==> counters_within(a[k].counters, la),
        decreases n - i,
    {
        let (k, v) = b.entry(i);
        let ghost kv = k@;
        proof {
            b.lemma_entries();
            if seen.contains_key(kv) {
                let j = choose|j: int| 0 <= j < i && b.key_at(j) == kv;
                assert(b.key_at(j) < b.key_at(i as int));
            }
        }
        proof {
            assert(!seen.contains_key(kv));
            assert(b@.contains_key(kv) && b@[kv] == *v);
            if t@.contains_key(kv) {
                assert(buckets(t@).contains_key(kv));
                assert(merge_buckets(a, seen)[kv] == a[kv]);
            }
        }
        let ghost before = buckets(t@);
        let merged = match t.get(k) {
            Some(cur) => cur.merged(v),
            None => *v,
        };
        t.put(*k, merged);
        proof {
            let new_seen = seen.insert(kv, v@);
            if a.contains_key(kv) {
                assert(before.contains_key(kv) && before[kv] == a[kv]);
                assert(merged@ == a[kv].add(v@));
            } else {
                assert(!before.contains_key(kv));
                assert(merged@ == v@);
            }
            assert(buckets(t@) =~= before.insert(kv, merged@));
            assert(merge_buckets(a, new_seen) =~= merge_buckets(a, seen).insert(kv, merged@));
            seen = new_seen;
        }
        i = i + 1;
    }
    proof {
        b.lemma_entries();
        assert(seen =~= buckets(b@));
    }
}

/// The aggregate of one run: six grouped views, each from its key to the
/// counters of the records that had that key.
pub struct GlobalStats {
    by_raw_format: SortedTable<(u32, u32), FormatStats>,
    by_canonical_format: SortedTable<(u32, u32), FormatStats>,
    by_publisher: SortedTable<PublisherKey, FormatStats>,
    by_segment: SortedTable<SegmentKey, FormatStats>,
    by_ssp: SortedTable<String, FormatStats>,
    time_stats: SortedTable<u64, TimeStats>,
    records: u64,
}

impl View for GlobalStats {
    type V = StatsModel;

    closed spec fn view(&self) -> StatsModel {
        StatsModel {
            records: self.records as nat,
            raw: counts(self.by_raw_format@),
            canonical: counts(self.by_canonical_format@),
            sources: counts(self.by_ssp@),
            publishers: counts(self.by_publisher@),
            segments: counts(self.by_segment@),
            minutes: buckets(self.time_stats@),
        }
    }
}

impl GlobalStats {
    pub closed spec fn wf(self) -> bool {
        &&& self.by_raw_format.wf()
        &&& self.by_canonical_format.wf()
        &&& self.by_publisher.wf()
        &&& self.by_segment.wf()
        &&& self.by_ssp.wf()
        &&& self.time_stats.wf()
        &&& all_within(self.by_raw_format@, self.records as nat)
        &&& all_within(self.by_canonical_format@, self.records as nat)
        &&& all_within(self.by_publisher@, self.records as nat)
        &&& all_within(self.by_segment@, self.records as nat)
        &&& all_within(self.by_ssp@, self.records as nat)
        &&& buckets_within(self.time_stats@, self.records as nat)
    }

    /// An aggregate with no records and empty views.
    pub fn new() -> (g: GlobalStats)
        ensures
            g.wf(),
            g@ == StatsModel::empty(),
    {
        let g = GlobalStats {
            by_raw_format: SortedTable::new(),
            by_canonical_format: SortedTable::new(),
            by_publisher: SortedTable::new(),
            by_segment: SortedTable::new(),
            by_ssp: SortedTable::new(),
            time_stats: SortedTable::new(),
            records: 0,
        };
        proof {
            assert(counts(g.by_raw_format@) =~= Map::empty());
            assert(counts(g.by_canonical_format@) =~= Map::empty());
            assert(counts(g.by_ssp@) =~= Map::empty());
            assert(counts(g.by_publisher@) =~= Map::empty());
            assert(counts(g.by_segment@) =~= Map::empty());
            assert(buckets(g.time_stats@) =~= Map::empty());
        }
        g
    }

    /// Number of records that were counted (those with both dimensions).
    pub fn records(&self) -> (n: u64)
        ensures
            n == self@.records,
    {
        self.records
    }

    /// The table behind the view by raw size.
    pub closed spec fn raw_table(self) -> SortedTable<(u32, u32), FormatStats> {
        self.by_raw_format
    }

    /// The view by raw size `(w, h)`.
    pub fn by_raw_format(&self) -> (t: &SortedTable<(u32, u32), FormatStats>)
        requires
            self.wf(),
        ensures
            t.wf(),
            counts(t@) == self@.raw,
            *t == self.raw_table(),
    {
        &self.by_raw_format
    }

    /// The table behind the view by canonical size.
    pub closed spec fn canonical_table(self) -> SortedTable<(u32, u32), FormatStats> {
        self.by_canonical_format
    }

    /// The view by canonical size.
    pub fn by_canonical_format(&self) -> (t: &SortedTable<(u32, u32), FormatStats>)
        requires
            self.wf(),
        ensures
            t.wf(),
            counts(t@) == self@.canonical,
            *t == self.canonical_table(),
    {
        &self.by_canonical_format
    }

    /// The view by (source, publisher).
    pub fn by_publisher(&self) -> (t: &SortedTable<PublisherKey, FormatStats>)
        requires
            self.wf(),
        ensures
            t.wf(),
            counts(t@) == self@.publishers,
    {
        &self.by_publisher
    }

    /// The view by (source, segment).
    pub fn by_segment(&self) -> (t: &SortedTable<SegmentKey, FormatStats>)
        requires
            self.wf(),
        ensures
            t.wf(),
            counts(t@) == self@.segments,
    {
        &self.by_segment
    }

    /// The view by source.
    pub fn by_ssp(&self) -> (t: &SortedTable<String, FormatStats>)
        requires
            self.wf(),
        ensures
            t.wf(),
            counts(t@) == self@.sources,
    {
        &self.by_ssp
    }

    /// The view by one-minute time bucket.
    pub fn time_stats(&self) -> (t: &SortedTable<u64, TimeStats>)
        requires
            self.wf(),
        ensures
            t.wf(),
            buckets(t@) == self@.minutes,
    {
        &self.time_stats
    }

    /// Adds the counters of another aggregate (from a disjoint part of the
    /// stream) into this one, view by view and key by key.
    pub fn merge(&mut self, other: &GlobalStats)
        requires
            old(self).wf(),
            other.wf(),
            old(self)@.records + other@.records <= u64::MAX,
        ensures
            final(self).wf(),
            final(self)@ == merge_spec(old(self)@, other@),
    {
        let ghost la = self.records as nat;
        let ghost lb = other.records as nat;
        merge_table(&mut self.by_raw_format, &other.by_raw_format, Ghost(la), Ghost(lb));
        merge_table(
            &mut self.by_canonical_format,
            &other.by_canonical_format,
            Ghost(la),
            Ghost(lb),
        );
        merge_table(&mut self.by_publisher, &other.by_publisher, Ghost(la), Ghost(lb));
        merge_table(&mut self.by_segment, &other.by_segment, Ghost(la), Ghost(lb));
        merge_table(&mut self.by_ssp, &other.by_ssp, Ghost(la), Ghost(lb));
        merge_time_table(&mut self.time_stats, &other.time_stats, Ghost(la), Ghost(lb));
        self.records = self.records + other.records;
    }
}

/// Folds one record into every view that it has a key for.
pub fn process_record_global(record: &LogRecord, global: &mut GlobalStats)
    requires
        old(global).wf(),
        old(global)@.records < u64::MAX,
    ensures
        final(global).wf(),
        final(global)@ == ingest_spec(old(global)@, *record),
{
    let fields = match extract(record) {
        Some(f) => f,
        None => {
            return;
        },
    };
    let ghost limit = global.records as nat;
    let has_bid = fields.has_bid;
    let price = fields.price_micros;
    let size = (fields.width, fields.height);
    bump_table(&mut global.by_raw_format, size, has_bid, price, Ghost(limit));
    let canonical = canonical_size(fields.width, fields.height);
    bump_table(&mut global.by_canonical_format, canonical, has_bid, price, Ghost(limit));
    if !fields.source.as_str().is_empty() {
        bump_table(&mut global.by_ssp, fields.source.clone(), has_bid, price, Ghost(limit));
    }
    match fields.publisher_id {
        Some(id) => {
            let key = PublisherKey { ssp: fields.source.clone(), publisher_id: id };
            bump_table(&mut global.by_publisher, key, has_bid, price, Ghost(limit));
        },
        None => {},
    }
    match fields.segment_id {
        Some(id) => {
            let key = SegmentKey { ssp: fields.source.clone(), segment: id };
            bump_table(&mut global.by_segment, key, has_bid, price, Ghost(limit));
        },
        None => {},
    }
    match fields.ts_ms {
        Some(ts) => {
            bump_time_table(&mut global.time_stats, ts, has_bid, price, Ghost(limit));
        },
        None => {},
    }
    global.records = global.records + 1;
}

} // verus!
