use crate::keys::compare_bytes;
use std::cmp::Ordering;
use vstd::prelude::*;
use vstd::string::StrSliceExecFns;
use vstd::utf8::encode_utf8_decode_utf8;

verus! {

/// Whether `s` and `t` hold the same characters.
pub fn text_is(s: &str, t: &str) -> (r: bool)
    ensures
        r == (s@ == t@),
{
    let c = compare_bytes(s.as_bytes(), t.as_bytes());
    proof {
        encode_utf8_decode_utf8(s@);
        encode_utf8_decode_utf8(t@);
    }
    match c {
        Ordering::Equal => true,
        _ => false,
    }
}

/// Whether `u` has the form `s3://<bucket>/<key>`.
pub open spec fn is_s3_uri(u: Seq<char>) -> bool {
    u.len() >= 5 && u.take(5) == "s3://"@ && u.skip(5).contains('/')
}

/// Splits `s3://bucket/key` into the bucket and the key: the bucket runs up
/// to the first `/` after the scheme, the key is everything after it.
pub fn parse_s3_uri(uri: &str) -> (r: Option<(String, String)>)
    ensures
        r is Some <==> is_s3_uri(uri@),
        r matches Some((bucket, key)) ==> uri@ == "s3://"@ + bucket@ + seq!['/'] + key@
            && !bucket@.contains('/'),
{
    proof {
        reveal_strlit("s3://");
    }
    let n = uri.unicode_len();
    if n < 5 {
        return None;
    }
    if !text_is(uri.substring_char(0, 5), "s3://") {
        return None;
    }
    let mut i: usize = 5;
    while i < n && uri.get_char(i) != '/'
        invariant
            5 <= i <= n,
            n == uri@.len(),
            forall|j: int| 5 <= j < i ==> uri@[j] != '/',
        decreases n - i,
    {
        i = i + 1;
    }
    if i == n {
        proof {
            if uri@.skip(5).contains('/') {
                let j = choose|j: int| 0 <= j < uri@.skip(5).len() && uri@.skip(5)[j] == '/';
                assert(uri@[j + 5] == '/');
            }
        }
        return None;
    }
    let bucket = uri.substring_char(5, i).to_owned();
    let key = uri.substring_char(i + 1, n).to_owned();
    proof {
        assert(uri@.skip(5)[i - 5] == '/');
        assert(uri@ =~= "s3://"@ + bucket@ + seq!['/'] + key@);
        if bucket@.contains('/') {
            let j = choose|j: int| 0 <= j < bucket@.len() && bucket@[j] == '/';
            assert(uri@[j + 5] == '/');
        }
    }
    Some((bucket, key))
}

/// Whether `c` is an ASCII decimal digit.
pub open spec fn is_digit(c: char) -> bool {
    '0' <= c <= '9'
}

/// The value of a string of decimal digits.
pub open spec fn digits_value(d: Seq<char>) -> nat
    decreases d.len(),
{
    if d.len() == 0 {
        0
    } else {
        digits_value(d.drop_last()) * 10 + ((d.last() as u32) - ('0' as u32)) as nat
    }
}

/// The `u64` that `s` writes in decimal: an optional `+` and then one or
/// more ASCII digits whose value fits in 64 bits.
pub open spec fn decimal_u64(s: Seq<char>) -> Option<u64> {
    let d = if s.len() > 0 && s[0] == '+' {
        s.drop_first()
    } else {
        s
    };
    if d.len() > 0 && (forall|i: int| 0 <= i < d.len() ==> is_digit(#[trigger] d[i]))
        && digits_value(d) <= u64::MAX {
        Some(digits_value(d) as u64)
    } else {
        None
    }
}

/// Relies on `u64`'s `FromStr` (`str::parse::<u64>`): it accepts an optional
/// `+` followed by one or more ASCII decimal digits whose value fits in a
/// `u64`, and fails on anything else.
#[verifier::external_body]
fn parse_decimal_u64(s: &str) -> (r: Option<u64>)
    ensures
        r == decimal_u64(s@),
{
    s.parse::<u64>().ok()
}

/// Order of the rows of the format report.
#[derive(Clone, Copy, Debug, PartialEq, Eq)]
pub enum SortBy {
    /// By canonical size, ascending.
    Format,
    /// By requests, descending.
    RequestsDesc,
    /// By bid rate, descending.
    BidRateDesc,
}

/// The options of one run.
pub struct Config {
    pub input_path: String,
    pub min_requests: u64,
    pub sort_by: SortBy,
    pub html_out: Option<String>,
    pub out_dir: Option<String>,
    pub time_analysis: bool,
    pub segment_stats: bool,
}

/// An option that takes a value.
#[derive(Clone, Copy, Debug, PartialEq, Eq)]
pub enum OptionName {
    MinRequests,
    SortBy,
    HtmlOut,
    Out,
}

/// Why the arguments were refused.
pub enum ArgError {
    /// No input path was given.
    MissingInput,
    /// The option was the last argument, with no value after it.
    MissingValue(OptionName),
    /// The value of `--min-requests` is not a decimal `u64`.
    InvalidMinRequests(String),
    /// The value of `--sort-by` is none of `format`, `requests`, `bid_rate`.
    UnknownSortKey(String),
    /// An argument that is no known option.
    UnknownArgument(String),
}

/// The options before any flag is read.
pub open spec fn default_config(input_path: String) -> Config {
    Config {
        input_path,
        min_requests: 0,
        sort_by: SortBy::Format,
        html_out: None,
        out_dir: None,
        time_analysis: false,
        segment_stats: false,
    }
}

/// The sort order that `key` names.
pub open spec fn sort_key(key: Seq<char>) -> Option<SortBy> {
    if key == "format"@ {
        Some(SortBy::Format)
    } else if key == "requests"@ {
        Some(SortBy::RequestsDesc)
    } else if key == "bid_rate"@ {
        Some(SortBy::BidRateDesc)
    } else {
        None
    }
}

/// Reads the options from `args[i]` on into `c`, left to right; the first
/// argument that is wrong ends the reading with its error.
pub open spec fn apply_options(args: Seq<String>, i: int, c: Config) -> Result<Config, ArgError>
    decreases args.len() - i,
{
    if i < 0 || i >= args.len() {
        Ok(c)
    } else {
        let a = args[i]@;
        let has_value = i + 1 < args.len();
        if a == "--min-requests"@ {
            if !has_value {
                Err(ArgError::MissingValue(OptionName::MinRequests))
            } else {
                match decimal_u64(args[i + 1]@) {
                    Some(n) => apply_options(args, i + 2, Config { min_requests: n, ..c }),
                    None => Err(ArgError::InvalidMinRequests(args[i + 1])),
                }
            }
        } else if a == "--sort-by"@ {
            if !has_value {
                Err(ArgError::MissingValue(OptionName::SortBy))
            } else {
                match sort_key(args[i + 1]@) {
                    Some(s) => apply_options(args, i + 2, Config { sort_by: s, ..c }),
                    None => Err(ArgError::UnknownSortKey(args[i + 1])),
                }
            }
        } else if a == "--html-out"@ {
            if !has_value {
                Err(ArgError::MissingValue(OptionName::HtmlOut))
            } else {
                apply_options(args, i + 2, Config { html_out: Some(args[i + 1]), ..c })
            }
        } else if a == "--out"@ {
            if !has_value {
                Err(ArgError::MissingValue(OptionName::Out))
            } else {
                apply_options(args, i + 2, Config { out_dir: Some(args[i + 1]), ..c })
            }
        } else if a == "--time-analysis"@ {
            apply_options(args, i + 1, Config { time_analysis: true, ..c })
        } else if a == "--segment-stats"@ {
            apply_options(args, i + 1, Config { segment_stats: true, ..c })
        } else {
            Err(ArgError::UnknownArgument(args[i]))
        }
    }
}

/// The options that the arguments (program name left out) give: the first
/// is the input path, the rest are flags.
pub open spec fn parse_args_spec(args: Seq<String>) -> Result<Config, ArgError> {
    if args.len() == 0 {
        Err(ArgError::MissingInput)
    } else {
        apply_options(args, 1, default_config(args[0]))
    }
}

/// Reads the command line (without the program name) into a `Config`.
pub fn parse_args(args: &Vec<String>) -> (r: Result<Config, ArgError>)
    ensures
        r == parse_args_spec(args@),
{
    if args.len() == 0 {
        return Err(ArgError::MissingInput);
    }
    let mut cfg = Config {
        input_path: args[0].clone(),
        min_requests: 0,
        sort_by: SortBy::Format,
        html_out: None,
        out_dir: None,
        time_analysis: false,
        segment_stats: false,
    };
    let n = args.len();
    let mut i: usize = 1;
    while i < n
        invariant
            1 <= i <= n,
            n == args@.len(),
            parse_args_spec(args@) == apply_options(args@, i as int, cfg),
        decreases n - i,
    {
        let a = args[i].as_str();
        let has_value = i + 1 < n;
        if text_is(a, "--min-requests") {
            if !has_value {
                return Err(ArgError::MissingValue(OptionName::MinRequests));
            }
            match parse_decimal_u64(args[i + 1].as_str()) {
                Some(v) => {
                    cfg.min_requests = v;
                },
                None => {
                    return Err(ArgError::InvalidMinRequests(args[i + 1].clone()));
                },
            }
            i = i + 2;
        } else if text_is(a, "--sort-by") {
            if !has_value {
                return Err(ArgError::MissingValue(OptionName::SortBy));
            }
            let key = args[i + 1].as_str();
            if text_is(key, "format") {
                cfg.sort_by = SortBy::Format;
            } else if text_is(key, "requests") {
                cfg.sort_by = SortBy::RequestsDesc;
            } else if text_is(key, "bid_rate") {
                cfg.sort_by = SortBy::BidRateDesc;
            } else {
                return Err(ArgError::UnknownSortKey(args[i + 1].clone()));
            }
            i = i + 2;
        } else if text_is(a, "--html-out") {
            if !has_value {
                return Err(ArgError::MissingValue(OptionName::HtmlOut));
            }
            cfg.html_out = Some(args[i + 1].clone());
            i = i + 2;
        } else if text_is(a, "--out") {
            if !has_value {
                return Err(ArgError::MissingValue(OptionName::Out));
            }
            cfg.out_dir = Some(args[i + 1].clone());
            i = i + 2;
        } else if text_is(a, "--time-analysis") {
            cfg.time_analysis = true;
            i = i + 1;
        } else if text_is(a, "--segment-stats") {
            cfg.segment_stats = true;
            i = i + 1;
        } else {
            return Err(ArgError::UnknownArgument(args[i].clone()));
        }
    }
    Ok(cfg)
}

} // verus!
