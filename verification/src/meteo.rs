//! Meteo-France radar timestamps and the decisions of the polling loop.
use vstd::prelude::*;
use crate::config::MAILLE;
use crate::error::AppError;
use crate::text::{decimal, push_decimal};

verus! {

/// A link of the Meteo-France observation listing.
#[derive(Debug, PartialEq, Eq)]
pub struct RadarLink {
    pub href: String,
    pub validity_time: Option<String>,
}

/// `p` occurs in `s` as a contiguous run of characters.
pub open spec fn has_substring(s: Seq<char>, p: Seq<char>) -> bool {
    exists|i: int| 0 <= i && i + p.len() <= s.len() && #[trigger] s.subrange(i, i + p.len()) == p
}

/// The query parameter selecting our grid resolution: `maille=500`.
pub open spec fn maille_pattern() -> Seq<char> {
    "maille="@ + decimal(MAILLE as nat)
}

/// The validity time of the first link for our grid resolution that has one.
pub open spec fn latest_validity(links: Seq<RadarLink>) -> Option<Seq<char>>
    decreases links.len(),
{
    if links.len() == 0 {
        None
    } else if has_substring(links[0].href@, maille_pattern()) && links[0].validity_time is Some {
        Some(links[0].validity_time->0@)
    } else {
        latest_validity(links.drop_first())
    }
}

/// The characters of `s`.
fn chars_of(s: &str) -> (v: Vec<char>)
    ensures
        v@ == s@,
{
    let n = s.unicode_len();
    let mut v: Vec<char> = Vec::new();
    let mut i: usize = 0;
    while i < n
        invariant
            n == s@.len(),
            i <= n,
            v@ == s@.subrange(0, i as int),
        decreases n - i,
    {
        v.push(s.get_char(i));
        assert(v@ =~= s@.subrange(0, i + 1));
        i = i + 1;
    }
    assert(v@ =~= s@);
    v
}

/// Whether `p` occurs in `s`.
fn contains_chars(s: &Vec<char>, p: &Vec<char>) -> (b: bool)
    ensures
        b == has_substring(s@, p@),
{
    let n = s.len();
    let m = p.len();
    if m > n {
        return false;
    }
    let mut i: usize = 0;
    while i <= n - m
        invariant
            n == s@.len(),
            m == p@.len(),
            m <= n,
            i <= n - m + 1,
            forall|k: int| 0 <= k < i ==> #[trigger] s@.subrange(k, k + m) != p@,
        decreases n - m + 1 - i,
    {
        let mut j: usize = 0;
        while j < m && s[i + j] == p[j]
            invariant
                n == s@.len(),
                m == p@.len(),
                i + m <= n,
                j <= m,
                forall|l: int| 0 <= l < j ==> s@[i + l] == p@[l],
            decreases m - j,
        {
            j = j + 1;
        }
        if j == m {
            assert(s@.subrange(i as int, i + m) =~= p@);
            return true;
        }
        assert(s@.subrange(i as int, i + m)[j as int] != p@[j as int]);
        i = i + 1;
    }
    assert forall|k: int| 0 <= k && k + p@.len() <= s@.len() implies #[trigger] s@.subrange(
        k,
        k + p@.len(),
    ) != p@ by {}
    false
}

/// The characters of `maille=500`.
fn maille_query() -> (v: Vec<char>)
    ensures
        v@ == maille_pattern(),
{
    let mut s = String::from_str("maille=");
    push_decimal(&mut s, MAILLE);
    chars_of(s.as_str())
}

/// The validity time of the first listed link for our grid resolution (its `href`
/// contains `maille=500`) that carries one.
pub fn latest_validity_time(links: &Vec<RadarLink>) -> (v: Option<String>)
    ensures
        match latest_validity(links@) {
            Some(t) => v matches Some(s) && s@ == t,
            None => v is None,
        },
{
    let pattern = maille_query();
    let mut k: usize = 0;
    assert(links@.skip(0) =~= links@);
    while k < links.len()
        invariant
            pattern@ == maille_pattern(),
            k <= links@.len(),
            latest_validity(links@) == latest_validity(links@.skip(k as int)),
        decreases links@.len() - k,
    {
        proof {
            let rest = links@.skip(k as int);
            assert(rest[0] == links@[k as int]);
            assert(rest.drop_first() =~= links@.skip(k + 1));
        }
        let href = chars_of(links[k].href.as_str());
        if contains_chars(&href, &pattern) {
            match &links[k].validity_time {
                Some(t) => {
                    return Some(t.clone());
                },
                None => {},
            }
        }
        k = k + 1;
    }
    None
}

/// The radar timestamp `YYYYMMDDTHHMMSSZ` (UTC) that chrono formats for an RFC 3339
/// date-time `s`, or the text of chrono's parse error.
pub uninterp spec fn rfc3339_compact_utc(s: Seq<char>) -> Result<Seq<char>, Seq<char>>;

/// Calls `chrono::DateTime::parse_from_rfc3339`, converts the date-time to UTC and
/// formats it as `%Y%m%dT%H%M%SZ`; a parse error is returned as its text. Trusted: the
/// result is chrono's for this input (it depends on the input alone: no clock, locale
/// or time zone of the machine is involved).
#[verifier::external_body]
fn rfc3339_to_compact_utc(s: &str) -> (r: Result<String, String>)
    ensures
        match (r, rfc3339_compact_utc(s@)) {
            (Ok(a), Ok(b)) => a@ == b,
            (Err(a), Err(b)) => a@ == b,
            _ => false,
        },
{
    match chrono::DateTime::parse_from_rfc3339(s) {
        Ok(dt) => Ok(dt.with_timezone(&chrono::Utc).format("%Y%m%dT%H%M%SZ").to_string()),
        Err(e) => Err(e.to_string()),
    }
}

/// The message when no link for our resolution carries a validity time.
pub open spec fn no_data_message() -> Seq<char> {
    "No radar data available for maille "@ + decimal(MAILLE as nat)
}

/// The answer for a converted validity time: the timestamp, or a Meteo-France API
/// error `Invalid timestamp: <reason>`.
pub fn timestamp_from_conversion(conv: Result<String, String>) -> (r: Result<String, AppError>)
    ensures
        match conv {
            Ok(c) => r matches Ok(s) && s@ == c@,
            Err(e) => r matches Err(AppError::MeteoApi(m)) && m@ == "Invalid timestamp: "@ + e@,
        },
{
    match conv {
        Ok(c) => Ok(c),
        Err(e) => {
            let mut m = String::from_str("Invalid timestamp: ");
            m.append(e.as_str());
            Err(AppError::MeteoApi(m))
        },
    }
}

/// The latest radar timestamp announced by the observation listing: the validity time
/// of the first link for our resolution, as `YYYYMMDDTHHMMSSZ` in UTC.
pub fn latest_radar_timestamp(links: &Vec<RadarLink>) -> (r: Result<String, AppError>)
    ensures
        match latest_validity(links@) {
            None => r matches Err(AppError::MeteoApi(m)) && m@ == no_data_message(),
            Some(t) => match rfc3339_compact_utc(t) {
                Ok(c) => r matches Ok(s) && s@ == c,
                Err(e) => r matches Err(AppError::MeteoApi(m)) && m@ == "Invalid timestamp: "@ + e,
            },
        },
{
    match latest_validity_time(links) {
        Some(t) => timestamp_from_conversion(rfc3339_to_compact_utc(t.as_str())),
        None => {
            let mut m = String::from_str("No radar data available for maille ");
            push_decimal(&mut m, MAILLE);
            Err(AppError::MeteoApi(m))
        },
    }
}

/// The radar timestamp of an HDF5 file from its `date` and `time` attributes:
/// `<date>T<time>Z`.
pub fn radar_date_string(date: &str, time: &str) -> (s: String)
    ensures
        s@ == date@ + "T"@ + time@ + "Z"@,
{
    let mut s = String::from_str(date);
    s.append("T");
    s.append(time);
    s.append("Z");
    s
}

/// Seconds since the Unix epoch of a radar timestamp `YYYYMMDDTHHMMSSZ` (UTC), as
/// chrono's `NaiveDateTime::parse_from_str` reads it; `None` when it does not parse.
pub uninterp spec fn compact_utc_seconds(s: Seq<char>) -> Option<i64>;

/// Calls `chrono::NaiveDateTime::parse_from_str` with the format `%Y%m%dT%H%M%SZ` and
/// takes the parsed date-time as UTC seconds since the epoch. Trusted: the result is
/// chrono's for this input (it depends on the input alone).
#[verifier::external_body]
fn parse_radar_timestamp(date_str: &str) -> (t: Option<i64>)
    ensures
        t == compact_utc_seconds(date_str@),
{
    match chrono::NaiveDateTime::parse_from_str(date_str, "%Y%m%dT%H%M%SZ") {
        Ok(dt) => Some(dt.and_utc().timestamp()),
        Err(_) => None,
    }
}

/// Delay after a radar timestamp before new data is expected, in seconds (7 minutes).
pub const NEW_DATA_DELAY_SECONDS: i64 = 420;

/// When to poll again after data stamped with the parsed time `t`: 7 minutes later, or
/// at once (time 0) when the timestamp did not parse.
pub open spec fn next_poll_after(t: Option<i64>) -> int {
    match t {
        Some(s) => s + 420,
        None => 0,
    }
}

/// The poll time for a parsed radar timestamp.
pub fn next_poll_from_parsed(t: Option<i64>) -> (p: i128)
    ensures
        p == next_poll_after(t),
{
    match t {
        Some(s) => s as i128 + NEW_DATA_DELAY_SECONDS as i128,
        None => 0,
    }
}

/// Seconds since the epoch at which new data is expected after the radar timestamp
/// `date_str`: 7 minutes after it, or 0 when it does not parse.
pub fn calculate_next_poll_time(date_str: &str) -> (p: i128)
    ensures
        p == next_poll_after(compact_utc_seconds(date_str@)),
{
    next_poll_from_parsed(parse_radar_timestamp(date_str))
}

/// Whether the polling loop asks for new data at time `now` (whole seconds since the
/// epoch): always without cached data, otherwise once the expected time of the next
/// data has come.
pub fn should_poll(now: i64, cached_date: Option<&str>) -> (b: bool)
    ensures
        b == match cached_date {
            None => true,
            Some(d) => now >= next_poll_after(compact_utc_seconds(d@)),
        },
{
    match cached_date {
        None => true,
        Some(d) => now as i128 >= calculate_next_poll_time(d),
    }
}

/// Whether the latest announced timestamp differs from the cached one, so that the
/// radar file must be downloaded.
pub fn needs_download(current: Option<&String>, latest: &String) -> (b: bool)
    ensures
        b == match current {
            None => true,
            Some(c) => c@ != latest@,
        },
{
    match current {
        None => true,
        Some(c) => !(*c == *latest),
    }
}

} // verus!
