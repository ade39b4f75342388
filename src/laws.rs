use crate::canonical::canonical_of;
use crate::global::{
    bump_key, bump_minute, ingest_all, ingest_spec, merge_buckets, merge_counts, merge_spec,
    StatsModel,
};
use crate::record::{
    record_has_bid, record_height, record_is_sized, record_price, record_source, record_width,
    LogRecord,
};
use crate::stats::{BucketCounters, Counters};
use vstd::prelude::*;

verus! {

/// A record whose width or height is zero (or missing) leaves every view,
/// and the record count, as they were.
pub proof fn lemma_unsized_record_changes_nothing(m: StatsModel, r: LogRecord)
    requires
        record_width(&r) == 0 || record_height(&r) == 0,
    ensures
        ingest_spec(m, r) == m,
{
}

/// Records whose raw sizes all fall to the same canonical size `c` give the
/// canonical view exactly one entry, `c`, counting every one of them.
pub proof fn lemma_one_canonical_entry(rs: Seq<LogRecord>, c: (u32, u32))
    requires
        rs.len() > 0,
        forall|i: int|
            0 <= i < rs.len() ==> record_is_sized(&#[trigger] rs[i]) && canonical_of(
                record_width(&rs[i]),
                record_height(&rs[i]),
            ) == c,
    ensures
        ingest_all(StatsModel::empty(), rs).canonical.dom() == set![c],
        ingest_all(StatsModel::empty(), rs).canonical[c].requests == rs.len(),
    decreases rs.len(),
{
    let prefix = rs.drop_last();
    let r = rs.last();
    assert(record_is_sized(&rs[rs.len() - 1]));
    if prefix.len() == 0 {
        assert(ingest_all(StatsModel::empty(), prefix) == StatsModel::empty());
        assert(ingest_all(StatsModel::empty(), rs).canonical =~= map![c => Counters::zero().bump(
            record_has_bid(&r),
            record_price(&r),
        )]);
        assert(ingest_all(StatsModel::empty(), rs).canonical.dom() =~= set![c]);
    } else {
        assert forall|i: int| 0 <= i < prefix.len() implies record_is_sized(&#[trigger] prefix[i])
            && canonical_of(record_width(&prefix[i]), record_height(&prefix[i])) == c by {
            assert(prefix[i] == rs[i]);
        }
        lemma_one_canonical_entry(prefix, c);
        assert(ingest_all(StatsModel::empty(), rs).canonical.dom() =~= set![c]);
    }
}

proof fn lemma_bump_merge<K>(a: Map<K, Counters>, b: Map<K, Counters>, k: K, has_bid: bool, price: nat)
    ensures
        bump_key(merge_counts(a, b), k, has_bid, price) == merge_counts(a, bump_key(b, k, has_bid, price)),
{
    assert(bump_key(merge_counts(a, b), k, has_bid, price) =~= merge_counts(
        a,
        bump_key(b, k, has_bid, price),
    ));
}

proof fn lemma_minute_merge(
    a: Map<u64, BucketCounters>,
    b: Map<u64, BucketCounters>,
    ts: u64,
    has_bid: bool,
    price: nat,
)
    ensures
        bump_minute(merge_buckets(a, b), ts, has_bid, price) == merge_buckets(
            a,
            bump_minute(b, ts, has_bid, price),
        ),
{
    assert(bump_minute(merge_buckets(a, b), ts, has_bid, price) =~= merge_buckets(
        a,
        bump_minute(b, ts, has_bid, price),
    ));
}

/// Counting a record after merging equals merging after counting it in the
/// second part.
proof fn lemma_ingest_after_merge(a: StatsModel, b: StatsModel, r: LogRecord)
    ensures
        ingest_spec(merge_spec(a, b), r) == merge_spec(a, ingest_spec(b, r)),
{
    if record_is_sized(&r) {
        let size = (record_width(&r), record_height(&r));
        let has_bid = record_has_bid(&r);
        let price = record_price(&r);
        let src = record_source(&r);
        lemma_bump_merge(a.raw, b.raw, size, has_bid, price);
        lemma_bump_merge(a.canonical, b.canonical, canonical_of(size.0, size.1), has_bid, price);
        lemma_bump_merge(a.sources, b.sources, src, has_bid, price);
        if let Some(id) = r.publisher_id {
            lemma_bump_merge(a.publishers, b.publishers, (src, id@), has_bid, price);
        }
        if let Some(id) = r.segment_id {
            lemma_bump_merge(a.segments, b.segments, (src, id@), has_bid, price);
        }
        if let Some(ts) = r.ts_ms {
            lemma_minute_merge(a.minutes, b.minutes, ts, has_bid, price);
        }
    }
}

/// Merging with an aggregate of no records changes nothing.
proof fn lemma_merge_empty(a: StatsModel)
    ensures
        merge_spec(a, StatsModel::empty()) == a,
{
    assert(merge_counts(a.raw, Map::empty()) =~= a.raw);
    assert(merge_counts(a.canonical, Map::empty()) =~= a.canonical);
    assert(merge_counts(a.sources, Map::empty()) =~= a.sources);
    assert(merge_counts(a.publishers, Map::empty()) =~= a.publishers);
    assert(merge_counts(a.segments, Map::empty()) =~= a.segments);
    assert(merge_buckets(a.minutes, Map::empty()) =~= a.minutes);
}

/// Sharded ingestion: aggregating two disjoint parts of a stream separately
/// and merging the results gives the same counters, in every view and under
/// every key, as aggregating the whole stream in one sequential pass.
pub proof fn lemma_sharded_merge(s1: Seq<LogRecord>, s2: Seq<LogRecord>)
    ensures
        ingest_all(StatsModel::empty(), s1 + s2) == merge_spec(
            ingest_all(StatsModel::empty(), s1),
            ingest_all(StatsModel::empty(), s2),
        ),
    decreases s2.len(),
{
    let e = StatsModel::empty();
    if s2.len() == 0 {
        assert(s1 + s2 =~= s1);
        lemma_merge_empty(ingest_all(e, s1));
    } else {
        let init = s2.drop_last();
        assert((s1 + s2).drop_last() =~= s1 + init);
        assert((s1 + s2).last() == s2.last());
        lemma_sharded_merge(s1, init);
        lemma_ingest_after_merge(ingest_all(e, s1), ingest_all(e, init), s2.last());
    }
}

} // verus!
