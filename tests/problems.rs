use cat_scan::global::{process_record_global, GlobalStats};
use cat_scan::problems::{classify_format, find_problem_formats, ProblemType};
use cat_scan::record::LogRecord;
use cat_scan::stats::{FormatStats, Ratio};

fn make_record(w: u32, h: u32, with_bid: bool, price: f64) -> LogRecord {
    LogRecord {
        banner_w: Some(w as u64),
        banner_h: Some(h as u64),
        seatbid_len: Some(if with_bid { 1 } else { 0 }),
        first_bid_price_micros: if with_bid {
            Some((price * 1_000_000.0).round() as u64)
        } else {
            None
        },
        source: None,
        publisher_id: None,
        segment_id: None,
        ts_ms: None,
    }
}

#[test]
fn test_problem_format_detection() {
    let mut global = GlobalStats::new();

    // Add a non-standard size with volume
    for _ in 0..20 {
        let record = make_record(123, 456, true, 0.5);
        process_record_global(&record, &mut global);
    }

    // Add a zero-bid format with volume
    for _ in 0..15 {
        let record = make_record(300, 250, false, 0.0);
        process_record_global(&record, &mut global);
    }

    let problems = find_problem_formats(&global, 10);

    // Should find both problems
    assert_eq!(problems.len(), 2);

    // Check non-standard problem
    let non_std = problems.iter().find(|p| p.w == 123).unwrap();
    assert_eq!(non_std.problem_type.as_str(), "non_standard");
    assert_eq!(non_std.requests, 20);

    // Check zero-bid problem
    let zero_bid = problems.iter().find(|p| p.w == 300).unwrap();
    assert_eq!(zero_bid.problem_type.as_str(), "zero_bids");
    assert_eq!(zero_bid.requests, 15);

    // Sorted by requests, descending.
    assert_eq!(problems[0].w, 123);
    assert_eq!(problems[1].w, 300);
}

#[test]
fn low_bid_rate_is_flagged_below_one_percent() {
    let mut global = GlobalStats::new();
    // 1 bid in 150 requests at a standard size: rate under 1%.
    process_record_global(&make_record(728, 90, true, 1.0), &mut global);
    for _ in 0..149 {
        process_record_global(&make_record(728, 90, false, 0.0), &mut global);
    }
    // 1 bid in 100 requests: exactly 1%, not flagged.
    process_record_global(&make_record(320, 50, true, 1.0), &mut global);
    for _ in 0..99 {
        process_record_global(&make_record(320, 50, false, 0.0), &mut global);
    }
    let problems = find_problem_formats(&global, 10);
    assert_eq!(problems.len(), 1);
    assert_eq!(problems[0].w, 728);
    assert_eq!(problems[0].problem_type, ProblemType::LowBidRate);
    assert_eq!(problems[0].problem_type.as_str(), "low_bid_rate");
    assert_eq!(problems[0].bids, 1);
    assert_eq!(problems[0].bid_rate, Ratio { numerator: 1, denominator: 150 });
}

#[test]
fn below_threshold_is_not_flagged() {
    let mut global = GlobalStats::new();
    for _ in 0..9 {
        process_record_global(&make_record(123, 456, false, 0.0), &mut global);
    }
    assert!(find_problem_formats(&global, 10).is_empty());
    // With threshold 0 every non-standard or zero-bid size is flagged.
    let problems = find_problem_formats(&global, 0);
    assert_eq!(problems.len(), 1);
    assert_eq!(problems[0].problem_type, ProblemType::ZeroBids);
}

#[test]
fn zero_bids_wins_over_non_standard() {
    let s = FormatStats {
        requests: 12,
        bids: 0,
        sum_bid_price_micros: 0,
    };
    assert_eq!(classify_format((123, 456), &s, 10), Some(ProblemType::ZeroBids));
    let t = FormatStats {
        requests: 12,
        bids: 12,
        sum_bid_price_micros: 0,
    };
    assert_eq!(classify_format((123, 456), &t, 10), Some(ProblemType::NonStandard));
    assert_eq!(classify_format((300, 250), &t, 10), None);
    assert_eq!(classify_format((123, 456), &t, 13), None);
}

#[test]
fn equal_requests_keep_size_order() {
    let mut global = GlobalStats::new();
    for &(w, h) in &[(999u32, 888u32), (123, 456), (500, 500)] {
        for _ in 0..10 {
            process_record_global(&make_record(w, h, true, 0.1), &mut global);
        }
    }
    for _ in 0..11 {
        process_record_global(&make_record(700, 700, true, 0.1), &mut global);
    }
    let problems = find_problem_formats(&global, 10);
    let order: Vec<u32> = problems.iter().map(|p| p.w).collect();
    assert_eq!(order, vec![700, 123, 500, 999]);
}
