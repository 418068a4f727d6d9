//! Points in time and how they are written down.

use vstd::prelude::*;

verus! {

/// A point in time: whole seconds since 1970-01-01T00:00:00Z, and nanoseconds.
#[derive(Debug, Clone, Copy, PartialEq, Eq, Structural)]
pub struct Timestamp {
    pub secs: i64,
    pub nanos: u32,
}

/// The last second of the years that `chrono` can represent.
pub const LAST_SECOND: i64 = 8_210_266_876_799;

impl Timestamp {
    /// A time from 1970 on that has a calendar date.
    pub open spec fn dated(self) -> bool {
        0 <= self.secs <= LAST_SECOND && self.nanos < 1_000_000_000
    }

    /// `self` is not later than `other`.
    pub open spec fn not_after(self, other: Timestamp) -> bool {
        self.secs < other.secs || (self.secs == other.secs && self.nanos <= other.nanos)
    }
}

/// `true` for the three patterns in which dates are written here.
pub open spec fn known_pattern(p: Seq<char>) -> bool {
    p == "%Y-%m-%d"@ || p == "%Y%m%d"@ || p == "%Y%m%dT%H%M%SZ"@
}

/// The UTC time written out by `chrono` after a `strftime` pattern.
pub uninterp spec fn utc_text(secs: i64, nanos: u32, pattern: Seq<char>) -> Seq<char>;

/// The UTC time written out by `chrono` after RFC 3339.
pub uninterp spec fn rfc3339_text(secs: i64, nanos: u32) -> Seq<char>;

/// `chrono::Utc::now` reads the system clock. The time it returns is never before
/// 1970 and has a calendar date; nothing else is known of it. It gives no time, and
/// panics, on a machine whose clock stands before 1970 or past the last date.
#[verifier::external_body]
pub(crate) fn utc_now() -> (r: Timestamp)
    ensures
        r.dated(),
{
    let now = chrono::Utc::now();
    Timestamp { secs: now.timestamp(), nanos: now.timestamp_subsec_nanos() }
}

/// The characters of which a written date is made, besides dashes.
pub open spec fn date_char(c: char) -> bool {
    ('0' <= c && c <= '9') || c == '+' || c == 'T' || c == 'Z'
}

/// `chrono::DateTime::format` of a representable UTC time: a text that depends on
/// the time and the pattern alone. After the patterns used here it is made of digits,
/// a plus sign before years of more than four digits, and what else stands in the
/// pattern: years from 1970 on bring no minus sign, so only the pattern with dashes
/// gives dashes.
#[verifier::external_body]
fn format_utc(secs: i64, nanos: u32, pattern: &str) -> (r: String)
    requires
        (Timestamp { secs, nanos }).dated(),
        known_pattern(pattern@),
    ensures
        r@ == utc_text(secs, nanos, pattern@),
        forall|i: int|
            0 <= i < r@.len() ==> date_char(#[trigger] r@[i]) || (r@[i] == '-' && pattern@
                == "%Y-%m-%d"@),
{
    chrono::DateTime::from_timestamp(secs, nanos).unwrap().format(pattern).to_string()
}

/// `chrono::DateTime::to_rfc3339` of a representable UTC time: a text that depends
/// on the time alone.
#[verifier::external_body]
fn format_rfc3339(secs: i64, nanos: u32) -> (r: String)
    requires
        (Timestamp { secs, nanos }).dated(),
    ensures
        r@ == rfc3339_text(secs, nanos),
{
    chrono::DateTime::from_timestamp(secs, nanos).unwrap().to_rfc3339()
}

impl Timestamp {
    /// Year, month and day with dashes between them.
    pub fn date(&self) -> (r: String)
        requires
            self.dated(),
        ensures
            r@ == self.date_text(),
    {
        format_utc(self.secs, self.nanos, "%Y-%m-%d")
    }

    /// Year, month and day, as in file names of notes.
    pub fn compact_date(&self) -> (r: String)
        requires
            self.dated(),
        ensures
            r@ == self.compact_date_text(),
            forall|i: int| 0 <= i < r@.len() ==> date_char(#[trigger] r@[i]),
    {
        proof {
            reveal_strlit("%Y-%m-%d");
            reveal_strlit("%Y%m%d");
            assert("%Y%m%d"@[2] != "%Y-%m-%d"@[2]);
        }
        format_utc(self.secs, self.nanos, "%Y%m%d")
    }

    /// Date and time, as in names of dropped files.
    pub fn compact(&self) -> (r: String)
        requires
            self.dated(),
        ensures
            r@ == self.compact_text(),
            forall|i: int| 0 <= i < r@.len() ==> date_char(#[trigger] r@[i]),
    {
        proof {
            reveal_strlit("%Y-%m-%d");
            reveal_strlit("%Y%m%dT%H%M%SZ");
            assert("%Y%m%dT%H%M%SZ"@[2] != "%Y-%m-%d"@[2]);
        }
        format_utc(self.secs, self.nanos, "%Y%m%dT%H%M%SZ")
    }

    /// Date and time after RFC 3339.
    pub fn rfc3339(&self) -> (r: String)
        requires
            self.dated(),
        ensures
            r@ == self.rfc3339_text(),
    {
        format_rfc3339(self.secs, self.nanos)
    }

    /// What [`Timestamp::date`] writes.
    pub open spec fn date_text(self) -> Seq<char> {
        utc_text(self.secs, self.nanos, "%Y-%m-%d"@)
    }

    /// What [`Timestamp::compact_date`] writes.
    pub open spec fn compact_date_text(self) -> Seq<char> {
        utc_text(self.secs, self.nanos, "%Y%m%d"@)
    }

    /// What [`Timestamp::compact`] writes.
    pub open spec fn compact_text(self) -> Seq<char> {
        utc_text(self.secs, self.nanos, "%Y%m%dT%H%M%SZ"@)
    }

    /// What [`Timestamp::rfc3339`] writes.
    pub open spec fn rfc3339_text(self) -> Seq<char> {
        rfc3339_text(self.secs, self.nanos)
    }
}

/// Times are ordered: of two times one is not after the other, both only where they are the
/// same, and what is not after a time is not after a later one.
pub proof fn times_are_ordered(a: Timestamp, b: Timestamp, c: Timestamp)
    ensures
        a.not_after(b) || b.not_after(a),
        a.not_after(b) && b.not_after(a) ==> a == b,
        a.not_after(b) && b.not_after(c) ==> a.not_after(c),
        a.secs < b.secs ==> a.not_after(b) && !b.not_after(a),
{
}

} // verus!
