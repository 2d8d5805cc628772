//! The name of the file a summary is written to:
//! `<yyyymmdd>_<video id>_<unix seconds>.md`, with `unknown` where the URL
//! holds no video id.
use std::fmt::Write;
use vstd::prelude::*;
use crate::text::{push_char, push_str};

verus! {

/// Finds a video id: eleven word characters or dashes after a `/`, `|` or `=`.
pub const VIDEO_ID_PATTERN: &'static str = "(?i)[/|=]([\\w-]{11})";

/// The UTC calendar date as year, month and day digits.
pub const DATE_FORMAT: &'static str = "%Y%m%d";

/// Stands where the URL holds no video id.
pub const UNKNOWN_ID: &'static str = "unknown";

/// The first capture group of the leftmost match of `pattern` in `text`;
/// `None` when there is no match or `pattern` is not a valid expression.
pub uninterp spec fn first_capture_of(pattern: Seq<char>, text: Seq<char>) -> Option<Seq<char>>;

/// Relies on `regex::Regex::new` and `Regex::captures`: the result depends on
/// the pattern and the text alone.
#[verifier::external_body]
fn first_capture(pattern: &str, text: &str) -> (r: Option<String>)
    ensures
        r is Some <==> first_capture_of(pattern@, text@) is Some,
        r matches Some(c) ==> c@ == first_capture_of(pattern@, text@)->0,
{
    let re = match regex::Regex::new(pattern) {
        Ok(re) => re,
        Err(_) => return None,
    };
    match re.captures(text) {
        Some(caps) => match caps.get(1) {
            Some(m) => Some(m.as_str().to_string()),
            None => None,
        },
        None => None,
    }
}

/// The instant `unix_seconds` seconds after the epoch, formatted in UTC with
/// the strftime-style `format`; `None` when the instant is out of range or
/// the format cannot be rendered.
pub uninterp spec fn utc_formatted(unix_seconds: int, format: Seq<char>) -> Option<Seq<char>>;

/// Relies on chrono's `DateTime::from_timestamp` and `DateTime::format`: the
/// text depends on the instant and the format alone (UTC, no local zone).
#[verifier::external_body]
fn utc_format(unix_seconds: i64, format: &str) -> (r: Option<String>)
    ensures
        r is Some <==> utc_formatted(unix_seconds as int, format@) is Some,
        r matches Some(t) ==> t@ == utc_formatted(unix_seconds as int, format@)->0,
{
    let dt = match chrono::DateTime::from_timestamp(unix_seconds, 0) {
        Some(dt) => dt,
        None => return None,
    };
    let mut out = String::new();
    match write!(out, "{}", dt.format(format)) {
        Ok(()) => Some(out),
        Err(_) => None,
    }
}

pub open spec fn digit_char(d: nat) -> char {
    if d == 0 {
        '0'
    } else if d == 1 {
        '1'
    } else if d == 2 {
        '2'
    } else if d == 3 {
        '3'
    } else if d == 4 {
        '4'
    } else if d == 5 {
        '5'
    } else if d == 6 {
        '6'
    } else if d == 7 {
        '7'
    } else if d == 8 {
        '8'
    } else {
        '9'
    }
}

/// The decimal digits of `n`, without leading zeros.
pub open spec fn decimal(n: nat) -> Seq<char>
    decreases n,
{
    if n < 10 {
        seq![digit_char(n)]
    } else {
        decimal(n / 10).push(digit_char(n % 10))
    }
}

/// The decimal form of `v`, with a leading `-` when it is negative.
pub open spec fn signed_decimal(v: int) -> Seq<char> {
    if v < 0 {
        seq!['-'] + decimal((-v) as nat)
    } else {
        decimal(v as nat)
    }
}

/// `<date>_<id>_<seconds>.md`.
pub open spec fn file_name_of(date_stamp: Seq<char>, video_id: Seq<char>, unix_seconds: int) -> Seq<
    char,
> {
    date_stamp + seq!['_'] + video_id + seq!['_'] + signed_decimal(unix_seconds) + seq![
        '.',
        'm',
        'd',
    ]
}

fn digit(d: u64) -> (c: char)
    requires
        d < 10,
    ensures
        c == digit_char(d as nat),
{
    if d == 0 {
        '0'
    } else if d == 1 {
        '1'
    } else if d == 2 {
        '2'
    } else if d == 3 {
        '3'
    } else if d == 4 {
        '4'
    } else if d == 5 {
        '5'
    } else if d == 6 {
        '6'
    } else if d == 7 {
        '7'
    } else if d == 8 {
        '8'
    } else {
        '9'
    }
}

fn push_decimal(s: &mut String, n: u64)
    ensures
        final(s)@ == old(s)@ + decimal(n as nat),
    decreases n,
{
    if n < 10 {
        push_char(s, digit(n));
    } else {
        push_decimal(s, n / 10);
        push_char(s, digit(n % 10));
        assert(final(s)@ =~= old(s)@ + decimal(n as nat));
    }
}

/// The file name for a date stamp, a video id and the seconds since the epoch.
pub fn file_name(date_stamp: &str, video_id: &str, unix_seconds: i64) -> (r: String)
    ensures
        r@ == file_name_of(date_stamp@, video_id@, unix_seconds as int),
{
    let mut r = String::new();
    push_str(&mut r, date_stamp);
    push_char(&mut r, '_');
    push_str(&mut r, video_id);
    push_char(&mut r, '_');
    let ghost before = r@;
    if unix_seconds < 0 {
        push_char(&mut r, '-');
        let magnitude = (0i128 - unix_seconds as i128) as u64;
        push_decimal(&mut r, magnitude);
    } else {
        push_decimal(&mut r, unix_seconds as u64);
    }
    assert(r@ =~= before + signed_decimal(unix_seconds as int));
    push_char(&mut r, '.');
    push_char(&mut r, 'm');
    push_char(&mut r, 'd');
    assert(r@ =~= file_name_of(date_stamp@, video_id@, unix_seconds as int));
    r
}

/// The id a URL names, or `unknown`.
pub open spec fn video_id_or_unknown(url: Seq<char>) -> Seq<char> {
    match first_capture_of(VIDEO_ID_PATTERN@, url) {
        Some(id) => id,
        None => UNKNOWN_ID@,
    }
}

/// The file name for the video at `url`, summarized at `unix_seconds` after
/// the epoch; `None` when that instant has no UTC date.
pub fn output_file_name(url: &str, unix_seconds: i64) -> (r: Option<String>)
    ensures
        r is Some <==> utc_formatted(unix_seconds as int, DATE_FORMAT@) is Some,
        r matches Some(f) ==> f@ == file_name_of(
            utc_formatted(unix_seconds as int, DATE_FORMAT@)->0,
            video_id_or_unknown(url@),
            unix_seconds as int,
        ),
{
    let stamp = match utc_format(unix_seconds, DATE_FORMAT) {
        Some(s) => s,
        None => {
            return None;
        },
    };
    let id = match first_capture(VIDEO_ID_PATTERN, url) {
        Some(id) => id,
        None => UNKNOWN_ID.to_owned(),
    };
    Some(file_name(stamp.as_str(), id.as_str(), unix_seconds))
}

} // verus!
