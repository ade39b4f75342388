use cat_scan::cli::{parse_args, parse_s3_uri, text_is, ArgError, OptionName, SortBy};
use cat_scan::global::{process_record_global, GlobalStats};
use cat_scan::record::LogRecord;
use cat_scan::report::format_rows;

fn args(list: &[&str]) -> Vec<String> {
    list.iter().map(|s| s.to_string()).collect()
}

fn sized(w: u32, h: u32, with_bid: bool) -> LogRecord {
    LogRecord {
        banner_w: Some(w as u64),
        banner_h: Some(h as u64),
        seatbid_len: Some(if with_bid { 1 } else { 0 }),
        first_bid_price_micros: None,
        source: None,
        publisher_id: None,
        segment_id: None,
        ts_ms: None,
    }
}

#[test]
fn s3_uri_splits_at_first_slash() {
    assert_eq!(
        parse_s3_uri("s3://bucket/logs/day1.jsonl"),
        Some(("bucket".to_string(), "logs/day1.jsonl".to_string()))
    );
    assert_eq!(parse_s3_uri("s3://b/"), Some(("b".to_string(), "".to_string())));
    assert_eq!(parse_s3_uri("s3:///k"), Some(("".to_string(), "k".to_string())));
    assert_eq!(parse_s3_uri("s3://bucket"), None);
    assert_eq!(parse_s3_uri("logs.jsonl"), None);
    assert_eq!(parse_s3_uri("S3://bucket/key"), None);
    assert_eq!(parse_s3_uri("s3:/"), None);
    assert_eq!(parse_s3_uri("s3://bücket/kéy"), Some(("bücket".to_string(), "kéy".to_string())));
}

#[test]
fn text_is_compares_characters() {
    assert!(text_is("--out", "--out"));
    assert!(!text_is("--out", "--outs"));
    assert!(!text_is("", "x"));
    assert!(text_is("", ""));
}

#[test]
fn parse_args_reads_every_option() {
    let cfg = match parse_args(&args(&[
        "logs.jsonl",
        "--min-requests",
        "42",
        "--sort-by",
        "bid_rate",
        "--out",
        "reports",
        "--html-out",
        "r.html",
        "--time-analysis",
        "--segment-stats",
    ])) {
        Ok(c) => c,
        Err(_) => panic!("arguments refused"),
    };
    assert_eq!(cfg.input_path, "logs.jsonl");
    assert_eq!(cfg.min_requests, 42);
    assert_eq!(cfg.sort_by, SortBy::BidRateDesc);
    assert_eq!(cfg.out_dir, Some("reports".to_string()));
    assert_eq!(cfg.html_out, Some("r.html".to_string()));
    assert!(cfg.time_analysis);
    assert!(cfg.segment_stats);
}

#[test]
fn parse_args_defaults() {
    let cfg = match parse_args(&args(&["s3://b/k"])) {
        Ok(c) => c,
        Err(_) => panic!("arguments refused"),
    };
    assert_eq!(cfg.input_path, "s3://b/k");
    assert_eq!(cfg.min_requests, 0);
    assert_eq!(cfg.sort_by, SortBy::Format);
    assert_eq!(cfg.out_dir, None);
    assert_eq!(cfg.html_out, None);
    assert!(!cfg.time_analysis);
    assert!(!cfg.segment_stats);
}

#[test]
fn parse_args_errors() {
    assert!(matches!(parse_args(&args(&[])), Err(ArgError::MissingInput)));
    assert!(matches!(
        parse_args(&args(&["f", "--min-requests"])),
        Err(ArgError::MissingValue(OptionName::MinRequests))
    ));
    assert!(matches!(
        parse_args(&args(&["f", "--sort-by"])),
        Err(ArgError::MissingValue(OptionName::SortBy))
    ));
    assert!(matches!(
        parse_args(&args(&["f", "--out"])),
        Err(ArgError::MissingValue(OptionName::Out))
    ));
    assert!(matches!(
        parse_args(&args(&["f", "--html-out"])),
        Err(ArgError::MissingValue(OptionName::HtmlOut))
    ));
    match parse_args(&args(&["f", "--min-requests", "-3"])) {
        Err(ArgError::InvalidMinRequests(v)) => assert_eq!(v, "-3"),
        _ => panic!("expected an invalid number"),
    }
    match parse_args(&args(&["f", "--min-requests", "18446744073709551616"])) {
        Err(ArgError::InvalidMinRequests(v)) => assert_eq!(v, "18446744073709551616"),
        _ => panic!("expected an invalid number"),
    }
    match parse_args(&args(&["f", "--sort-by", "size"])) {
        Err(ArgError::UnknownSortKey(v)) => assert_eq!(v, "size"),
        _ => panic!("expected an unknown sort key"),
    }
    match parse_args(&args(&["f", "--verbose"])) {
        Err(ArgError::UnknownArgument(v)) => assert_eq!(v, "--verbose"),
        _ => panic!("expected an unknown argument"),
    }
}

#[test]
fn min_requests_accepts_plus_sign() {
    match parse_args(&args(&["f", "--min-requests", "+7"])) {
        Ok(c) => assert_eq!(c.min_requests, 7),
        Err(_) => panic!("arguments refused"),
    }
    match parse_args(&args(&["f", "--min-requests", "18446744073709551615"])) {
        Ok(c) => assert_eq!(c.min_requests, u64::MAX),
        Err(_) => panic!("arguments refused"),
    }
}

#[test]
fn format_rows_filter_and_sort() {
    let mut global = GlobalStats::new();
    // 300x250: 4 requests, 1 bid; 320x50: 2 requests, 2 bids; 728x90: 4 requests, 0 bids;
    // 160x600: 1 request.
    for i in 0..4 {
        process_record_global(&sized(300, 250, i == 0), &mut global);
    }
    for _ in 0..2 {
        process_record_global(&sized(320, 50, true), &mut global);
    }
    for _ in 0..4 {
        process_record_global(&sized(728, 90, false), &mut global);
    }
    process_record_global(&sized(160, 600, true), &mut global);

    let by_size: Vec<(u32, u32)> = format_rows(&global, 0, SortBy::Format)
        .iter()
        .map(|r| (r.w, r.h))
        .collect();
    assert_eq!(by_size, vec![(160, 600), (300, 250), (320, 50), (728, 90)]);

    let filtered: Vec<(u32, u32)> = format_rows(&global, 2, SortBy::Format)
        .iter()
        .map(|r| (r.w, r.h))
        .collect();
    assert_eq!(filtered, vec![(300, 250), (320, 50), (728, 90)]);

    let by_requests: Vec<(u32, u32)> = format_rows(&global, 0, SortBy::RequestsDesc)
        .iter()
        .map(|r| (r.w, r.h))
        .collect();
    assert_eq!(by_requests, vec![(300, 250), (728, 90), (320, 50), (160, 600)]);

    let by_rate: Vec<(u32, u32)> = format_rows(&global, 0, SortBy::BidRateDesc)
        .iter()
        .map(|r| (r.w, r.h))
        .collect();
    assert_eq!(by_rate, vec![(160, 600), (320, 50), (300, 250), (728, 90)]);
}
