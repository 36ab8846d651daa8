use vstd::prelude::*;
use std::fmt::Write;

verus! {

/// An instant in UTC: seconds since the Unix epoch and the nanoseconds within
/// that second (what `chrono::DateTime<Utc>` holds).
#[derive(Clone, Copy, Debug, PartialEq, Eq)]
pub struct Timestamp {
    pub secs: i64,
    pub nanos: u32,
}

/// What chrono's `DateTime::<Utc>::format(fmt)` writes for the instant
/// `secs`/`nanos`; `None` when the instant is out of chrono's range or the
/// format string holds an item chrono cannot write.
pub uninterp spec fn chrono_format(secs: i64, nanos: u32, fmt: Seq<char>) -> Option<Seq<char>>;

/// Calls `chrono::DateTime::from_timestamp` and writes `format(fmt)` of it.
#[verifier::external_body]
pub(crate) fn format_utc(secs: i64, nanos: u32, fmt: &str) -> (r: Option<String>)
    ensures
        match r {
            Some(s) => chrono_format(secs, nanos, fmt@) == Some(s@),
            None => chrono_format(secs, nanos, fmt@) is None,
        },
{
    let dt = chrono::DateTime::from_timestamp(secs, nanos)?;
    let mut out = String::new();
    match write!(out, "{}", dt.format(fmt)) {
        Ok(()) => Some(out),
        Err(_) => None,
    }
}

/// Calls `chrono::Utc::now()` and gives the instant as seconds and
/// nanoseconds. The instant depends on the clock, so nothing is stated of it.
#[verifier::external_body]
pub(crate) fn now_utc() -> (r: Timestamp) {
    let now = chrono::Utc::now();
    Timestamp { secs: now.timestamp(), nanos: now.timestamp_subsec_nanos() }
}

} // verus!
