use cat_scan::global::{process_record_global, GlobalStats};
use cat_scan::record::{extract, LogRecord};
use cat_scan::stats::{avg_bid_price, bid_rate, FormatStats, Ratio};

fn micros(price: f64) -> u64 {
    (price * 1_000_000.0).round() as u64
}

fn ratio_value(r: Ratio) -> f64 {
    r.numerator as f64 / r.denominator as f64
}

fn make_record(w: u32, h: u32, with_bid: bool, price: f64) -> LogRecord {
    LogRecord {
        banner_w: Some(w as u64),
        banner_h: Some(h as u64),
        seatbid_len: Some(if with_bid { 1 } else { 0 }),
        first_bid_price_micros: if with_bid { Some(micros(price)) } else { None },
        source: None,
        publisher_id: None,
        segment_id: None,
        ts_ms: None,
    }
}

fn full_record(
    w: u32,
    h: u32,
    with_bid: bool,
    price: f64,
    source: Option<&str>,
    publisher: Option<&str>,
    segment: Option<&str>,
    ts_ms: Option<u64>,
) -> LogRecord {
    let mut r = make_record(w, h, with_bid, price);
    r.source = source.map(|s| s.to_string());
    r.publisher_id = publisher.map(|s| s.to_string());
    r.segment_id = segment.map(|s| s.to_string());
    r.ts_ms = ts_ms;
    r
}

#[test]
fn test_single_bid() {
    let mut global = GlobalStats::new();
    let record = make_record(300, 250, true, 0.5);

    process_record_global(&record, &mut global);

    let stats = global.by_raw_format();
    assert_eq!(stats.len(), 1);
    let s = stats.get(&(300, 250)).unwrap();
    assert_eq!(
        *s,
        FormatStats {
            requests: 1,
            bids: 1,
            sum_bid_price_micros: 500_000
        }
    );
    assert!((ratio_value(bid_rate(s)) - 1.0).abs() < 1e-9);
    assert!((ratio_value(avg_bid_price(s)) / 1_000_000.0 - 0.5).abs() < 1e-9);
}

#[test]
fn test_single_no_bid() {
    let mut global = GlobalStats::new();
    let record = make_record(320, 50, false, 0.0);

    process_record_global(&record, &mut global);

    let stats = global.by_raw_format();
    assert_eq!(stats.len(), 1);
    let s = stats.get(&(320, 50)).unwrap();
    assert_eq!(
        *s,
        FormatStats {
            requests: 1,
            bids: 0,
            sum_bid_price_micros: 0
        }
    );
    assert!((ratio_value(bid_rate(s)) - 0.0).abs() < 1e-9);
    assert!((ratio_value(avg_bid_price(s)) - 0.0).abs() < 1e-9);
}

#[test]
fn test_multiple_formats() {
    let mut global = GlobalStats::new();

    // 3 requests for 300x250, 2 bids with prices 0.5 and 1.0
    process_record_global(&make_record(300, 250, true, 0.5), &mut global);
    process_record_global(&make_record(300, 250, true, 1.0), &mut global);
    process_record_global(&make_record(300, 250, false, 0.0), &mut global);

    // 1 request for 160x600, no bid
    process_record_global(&make_record(160, 600, false, 0.0), &mut global);

    let stats = global.by_raw_format();
    let s_300 = stats.get(&(300, 250)).unwrap();
    assert_eq!(
        *s_300,
        FormatStats {
            requests: 3,
            bids: 2,
            sum_bid_price_micros: 1_500_000
        }
    );
    assert!((ratio_value(bid_rate(s_300)) - (2.0 / 3.0)).abs() < 1e-9);
    assert!((ratio_value(avg_bid_price(s_300)) / 1_000_000.0 - 0.75).abs() < 1e-9);

    let s_160 = stats.get(&(160, 600)).unwrap();
    assert_eq!(
        *s_160,
        FormatStats {
            requests: 1,
            bids: 0,
            sum_bid_price_micros: 0
        }
    );
}

#[test]
fn test_malformed_record_skipped() {
    let mut global = GlobalStats::new();

    // Record with w=0 should be skipped entirely
    let bad_record = LogRecord {
        banner_w: Some(0),
        banner_h: Some(250),
        seatbid_len: None,
        first_bid_price_micros: None,
        source: None,
        publisher_id: None,
        segment_id: None,
        ts_ms: None,
    };

    process_record_global(&bad_record, &mut global);

    assert_eq!(global.by_raw_format().len(), 0);
}

#[test]
fn test_global_stats_canonical_aggregation() {
    let mut global = GlobalStats::new();

    // Create records with slightly different sizes that should bucket together
    let record1 = make_record(298, 250, true, 0.5); // Should map to 300x250
    let record2 = make_record(301, 246, true, 1.0); // Should map to 300x250
    let record3 = make_record(300, 250, false, 0.0); // Exact 300x250

    process_record_global(&record1, &mut global);
    process_record_global(&record2, &mut global);
    process_record_global(&record3, &mut global);

    // Raw format stats should have 3 different sizes
    assert_eq!(global.by_raw_format().len(), 3);

    // Canonical format stats should have 1 bucket
    assert_eq!(global.by_canonical_format().len(), 1);

    let canonical_stats = global.by_canonical_format().get(&(300, 250)).unwrap();
    assert_eq!(canonical_stats.requests, 3);
    assert_eq!(canonical_stats.bids, 2);
}

#[test]
fn unsized_records_touch_no_view() {
    let mut global = GlobalStats::new();
    let mut zero_height = full_record(300, 0, true, 1.0, Some("ssp"), Some("p"), Some("s"), Some(5));
    process_record_global(&zero_height, &mut global);
    zero_height.banner_h = None;
    process_record_global(&zero_height, &mut global);
    let mut huge = full_record(300, 250, true, 1.0, Some("ssp"), Some("p"), Some("s"), Some(5));
    huge.banner_w = Some(1u64 << 32);
    process_record_global(&huge, &mut global);

    assert_eq!(global.records(), 0);
    assert_eq!(global.by_raw_format().len(), 0);
    assert_eq!(global.by_canonical_format().len(), 0);
    assert_eq!(global.by_ssp().len(), 0);
    assert_eq!(global.by_publisher().len(), 0);
    assert_eq!(global.by_segment().len(), 0);
    assert_eq!(global.time_stats().len(), 0);
}

#[test]
fn wide_dimension_is_cut_to_32_bits() {
    let mut global = GlobalStats::new();
    let mut r = make_record(300, 250, false, 0.0);
    r.banner_w = Some((1u64 << 32) + 300);
    process_record_global(&r, &mut global);
    assert!(global.by_raw_format().get(&(300, 250)).is_some());
}

#[test]
fn rates_are_zero_without_requests_or_bids() {
    let empty = FormatStats::new();
    assert_eq!(bid_rate(&empty), Ratio { numerator: 0, denominator: 1 });
    assert_eq!(avg_bid_price(&empty), Ratio { numerator: 0, denominator: 1 });

    let no_bids = FormatStats {
        requests: 4,
        bids: 0,
        sum_bid_price_micros: 0,
    };
    assert_eq!(bid_rate(&no_bids), Ratio { numerator: 0, denominator: 4 });
    assert_eq!(avg_bid_price(&no_bids), Ratio { numerator: 0, denominator: 1 });
}

#[test]
fn average_price_is_sum_over_bids() {
    let s = FormatStats {
        requests: 10,
        bids: 4,
        sum_bid_price_micros: 3_000_000,
    };
    assert_eq!(bid_rate(&s), Ratio { numerator: 4, denominator: 10 });
    assert_eq!(
        avg_bid_price(&s),
        Ratio {
            numerator: 3_000_000,
            denominator: 4
        }
    );
    let r = bid_rate(&s);
    assert!(r.numerator <= r.denominator as u128);
}

#[test]
fn bid_without_price_counts_as_zero_price() {
    let mut global = GlobalStats::new();
    let mut r = make_record(728, 90, true, 0.0);
    r.first_bid_price_micros = None;
    process_record_global(&r, &mut global);
    let s = global.by_raw_format().get(&(728, 90)).unwrap();
    assert_eq!(s.bids, 1);
    assert_eq!(s.sum_bid_price_micros, 0);
}

#[test]
fn missing_seatbid_is_no_bid() {
    let mut global = GlobalStats::new();
    let mut r = make_record(728, 90, true, 2.0);
    r.seatbid_len = None;
    process_record_global(&r, &mut global);
    let s = global.by_raw_format().get(&(728, 90)).unwrap();
    assert_eq!(s.bids, 0);
    assert_eq!(s.sum_bid_price_micros, 0);
}

#[test]
fn grouping_views_follow_their_keys() {
    let mut global = GlobalStats::new();
    process_record_global(&full_record(300, 250, true, 1.0, Some("ssp-a"), Some("pub-1"), Some("auto"), Some(120_000)), &mut global);
    process_record_global(&full_record(300, 250, false, 0.0, None, Some("pub-1"), None, None), &mut global);
    process_record_global(&full_record(320, 50, true, 2.0, Some("ssp-a"), None, Some("auto"), Some(150_500)), &mut global);

    assert_eq!(global.records(), 3);

    // The empty source id is not recorded in the by-source view.
    let ssp = global.by_ssp();
    assert_eq!(ssp.len(), 1);
    let a = ssp.get(&"ssp-a".to_string()).unwrap();
    assert_eq!(a.requests, 2);
    assert_eq!(a.bids, 2);
    assert_eq!(a.sum_bid_price_micros, 3_000_000);

    // But it is part of the publisher key.
    let pubs = global.by_publisher();
    assert_eq!(pubs.len(), 2);
    let (k0, v0) = pubs.entry(0);
    assert_eq!(k0.ssp, "");
    assert_eq!(k0.publisher_id, "pub-1");
    assert_eq!(v0.requests, 1);
    let (k1, v1) = pubs.entry(1);
    assert_eq!(k1.ssp, "ssp-a");
    assert_eq!(v1.requests, 1);

    let segs = global.by_segment();
    assert_eq!(segs.len(), 1);
    let (sk, sv) = segs.entry(0);
    assert_eq!(sk.segment, "auto");
    assert_eq!(sv.requests, 2);

    // Timestamps 120000 and 150500 fall in minute 2.
    let times = global.time_stats();
    assert_eq!(times.len(), 1);
    let t = times.get(&2).unwrap();
    assert_eq!(t.stats.requests, 2);
    assert_eq!(t.min_ts, 120_000);
    assert_eq!(t.max_ts, 150_500);
}

#[test]
fn time_bucket_floor_is_first_timestamp() {
    let mut global = GlobalStats::new();
    process_record_global(&full_record(300, 250, false, 0.0, None, None, None, Some(7)), &mut global);
    process_record_global(&full_record(300, 250, false, 0.0, None, None, None, Some(3)), &mut global);
    process_record_global(&full_record(300, 250, false, 0.0, None, None, None, Some(59_999)), &mut global);
    process_record_global(&full_record(300, 250, false, 0.0, None, None, None, Some(60_000)), &mut global);
    let times = global.time_stats();
    assert_eq!(times.len(), 2);
    let first = times.get(&0).unwrap();
    assert_eq!(first.stats.requests, 3);
    assert_eq!(first.min_ts, 3);
    assert_eq!(first.max_ts, 59_999);
    let second = times.get(&1).unwrap();
    assert_eq!(second.min_ts, 60_000);
    assert_eq!(second.max_ts, 60_000);

    let mut zero = GlobalStats::new();
    process_record_global(&full_record(300, 250, false, 0.0, None, None, None, Some(0)), &mut zero);
    process_record_global(&full_record(300, 250, false, 0.0, None, None, None, Some(10)), &mut zero);
    let b = zero.time_stats().get(&0).unwrap();
    assert_eq!(b.min_ts, 0);
    assert_eq!(b.max_ts, 10);
}

#[test]
fn raw_view_walks_sizes_in_order() {
    let mut global = GlobalStats::new();
    for (w, h) in [(728u32, 90u32), (160, 600), (300, 250), (160, 50)] {
        process_record_global(&make_record(w, h, false, 0.0), &mut global);
    }
    let raw = global.by_raw_format();
    let keys: Vec<(u32, u32)> = (0..raw.len()).map(|i| *raw.entry(i).0).collect();
    assert_eq!(keys, vec![(160, 50), (160, 600), (300, 250), (728, 90)]);
}

fn same<K, V: PartialEq + std::fmt::Debug>(
    a: &cat_scan::table::SortedTable<K, V>,
    b: &cat_scan::table::SortedTable<K, V>,
    key_eq: impl Fn(&K, &K) -> bool,
) where
    K: cat_scan::keys::OrderedKey,
{
    assert_eq!(a.len(), b.len());
    for i in 0..a.len() {
        let (ka, va) = a.entry(i);
        let (kb, vb) = b.entry(i);
        assert!(key_eq(ka, kb));
        assert_eq!(va, vb);
    }
}

#[test]
fn sharded_merge_matches_sequential() {
    let records = vec![
        full_record(298, 250, true, 0.5, Some("x"), Some("p1"), Some("s1"), Some(1_000)),
        full_record(300, 250, false, 0.0, Some("y"), Some("p2"), None, Some(61_000)),
        full_record(123, 456, true, 1.25, Some("x"), Some("p1"), Some("s2"), Some(2_000)),
        full_record(320, 50, true, 0.75, None, None, Some("s1"), None),
        full_record(300, 251, false, 0.0, Some("x"), None, None, Some(500)),
    ];
    let mut whole = GlobalStats::new();
    for r in &records {
        process_record_global(r, &mut whole);
    }
    let mut first = GlobalStats::new();
    let mut second = GlobalStats::new();
    for r in &records[..2] {
        process_record_global(r, &mut first);
    }
    for r in &records[2..] {
        process_record_global(r, &mut second);
    }
    first.merge(&second);

    assert_eq!(first.records(), whole.records());
    same(first.by_raw_format(), whole.by_raw_format(), |a, b| a == b);
    same(first.by_canonical_format(), whole.by_canonical_format(), |a, b| a == b);
    same(first.by_ssp(), whole.by_ssp(), |a, b| a == b);
    same(first.by_publisher(), whole.by_publisher(), |a, b| {
        a.ssp == b.ssp && a.publisher_id == b.publisher_id
    });
    same(first.by_segment(), whole.by_segment(), |a, b| a.ssp == b.ssp && a.segment == b.segment);
    same(first.time_stats(), whole.time_stats(), |a, b| a == b);

    let t0 = first.time_stats().get(&0).unwrap();
    assert_eq!(t0.min_ts, 500);
    assert_eq!(t0.max_ts, 2_000);
}

#[test]
fn extract_applies_the_field_policies() {
    let mut r = full_record(300, 250, true, 1.5, None, Some("p"), None, Some(9));
    let f = extract(&r).unwrap();
    assert_eq!((f.width, f.height), (300, 250));
    assert!(f.has_bid);
    assert_eq!(f.price_micros, 1_500_000);
    assert_eq!(f.source, "");
    assert_eq!(f.publisher_id, Some("p".to_string()));
    assert_eq!(f.segment_id, None);
    assert_eq!(f.ts_ms, Some(9));

    // A price with no bid is not counted.
    r.seatbid_len = Some(0);
    let g = extract(&r).unwrap();
    assert!(!g.has_bid);
    assert_eq!(g.price_micros, 0);

    r.banner_w = None;
    assert!(extract(&r).is_none());
}
