use vstd::prelude::*;

verus! {

/// One log record, holding as plain values the parts of the request and
/// response that the aggregation reads. A field is `None` where the record
/// lacks the path or holds a value of another kind there.
pub struct LogRecord {
    /// `request.imp[0].banner.w`, when it is an unsigned integer.
    pub banner_w: Option<u64>,
    /// `request.imp[0].banner.h`, when it is an unsigned integer.
    pub banner_h: Option<u64>,
    /// Number of entries of `response.seatbid`, when it is an array.
    pub seatbid_len: Option<usize>,
    /// `response.seatbid[0].bid[0].price` in micro-units, when it is a number.
    pub first_bid_price_micros: Option<u64>,
    /// `request.source.ssp`, when it is a string.
    pub source: Option<String>,
    /// `request.site.publisher.id`, when it is a string.
    pub publisher_id: Option<String>,
    /// `request.user.data[0].segment[0].id`, when it is a string.
    pub segment_id: Option<String>,
    /// The record's timestamp in milliseconds since the epoch.
    pub ts_ms: Option<u64>,
}

/// What the aggregation takes from one record.
pub struct RecordFields {
    pub width: u32,
    pub height: u32,
    pub has_bid: bool,
    pub price_micros: u64,
    pub source: String,
    pub publisher_id: Option<String>,
    pub segment_id: Option<String>,
    pub ts_ms: Option<u64>,
}

/// A missing dimension reads as zero; a present one is cut to 32 bits.
pub open spec fn dimension(d: Option<u64>) -> u32 {
    match d {
        Some(v) => v as u32,
        None => 0,
    }
}

pub open spec fn record_width(r: &LogRecord) -> u32 {
    dimension(r.banner_w)
}

pub open spec fn record_height(r: &LogRecord) -> u32 {
    dimension(r.banner_h)
}

/// A record counts only when both dimensions are non-zero.
pub open spec fn record_is_sized(r: &LogRecord) -> bool {
    record_width(r) != 0 && record_height(r) != 0
}

/// A bid was made when the seat-bid list is present and not empty.
pub open spec fn record_has_bid(r: &LogRecord) -> bool {
    match r.seatbid_len {
        Some(n) => n > 0,
        None => false,
    }
}

/// The price counted for the record: the first bid's price when there is a
/// bid (zero when that price is missing), else zero.
pub open spec fn record_price(r: &LogRecord) -> nat {
    if record_has_bid(r) {
        match r.first_bid_price_micros {
            Some(p) => p as nat,
            None => 0,
        }
    } else {
        0
    }
}

/// The source id, empty when absent.
pub open spec fn record_source(r: &LogRecord) -> Seq<char> {
    match r.source {
        Some(s) => s@,
        None => Seq::empty(),
    }
}

pub open spec fn opt_text(o: Option<String>) -> Option<Seq<char>> {
    match o {
        Some(s) => Some(s@),
        None => None,
    }
}

fn clone_opt(o: &Option<String>) -> (r: Option<String>)
    ensures
        opt_text(r) == opt_text(*o),
{
    match o {
        Some(s) => Some(s.clone()),
        None => None,
    }
}

/// Pulls out of a record the fields that the aggregation needs, or `None`
/// when a dimension is missing or zero and the record is to be skipped.
pub fn extract(r: &LogRecord) -> (f: Option<RecordFields>)
    ensures
        f.is_none() <==> !record_is_sized(r),
        f matches Some(fl) ==> {
            &&& fl.width == record_width(r)
            &&& fl.height == record_height(r)
            &&& fl.has_bid == record_has_bid(r)
            &&& fl.price_micros == record_price(r)
            &&& fl.source@ == record_source(r)
            &&& opt_text(fl.publisher_id) == opt_text(r.publisher_id)
            &&& opt_text(fl.segment_id) == opt_text(r.segment_id)
            &&& fl.ts_ms == r.ts_ms
        },
{
    let width: u32 = match r.banner_w {
        Some(v) => v as u32,
        None => 0,
    };
    let height: u32 = match r.banner_h {
        Some(v) => v as u32,
        None => 0,
    };
    if width == 0 || height == 0 {
        return None;
    }
    let has_bid = match r.seatbid_len {
        Some(n) => n > 0,
        None => false,
    };
    let price_micros: u64 = if has_bid {
        match r.first_bid_price_micros {
            Some(p) => p,
            None => 0,
        }
    } else {
        0
    };
    let source = match &r.source {
        Some(s) => s.clone(),
        None => String::new(),
    };
    Some(
        RecordFields {
            width,
            height,
            has_bid,
            price_micros,
            source,
            publisher_id: clone_opt(&r.publisher_id),
            segment_id: clone_opt(&r.segment_id),
            ts_ms: r.ts_ms,
        },
    )
}

} // verus!
