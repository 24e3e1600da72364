//! Calendar timestamps with one-second precision, the time model that
//! backup identifiers carry: a valid proleptic Gregorian date plus a time
//! of day, always read as UTC.

use vstd::prelude::*;

use crate::text::{
    is_digit, lemma_pad2_roundtrip, lemma_pad4_roundtrip, push_pad2, push_pad4, spec_num2,
    spec_num4, spec_pad2, spec_pad4,
};

verus! {

/// A UTC timestamp with one-second precision.
#[derive(Clone, Copy, Debug, PartialEq, Eq, Structural)]
pub struct Timestamp {
    pub year: u16,
    pub month: u8,
    pub day: u8,
    pub hour: u8,
    pub minute: u8,
    pub second: u8,
}

/// Gregorian leap-year rule.
pub open spec fn spec_is_leap_year(y: int) -> bool {
    y % 4 == 0 && (y % 100 != 0 || y % 400 == 0)
}

/// Number of days of month `m` in year `y`.
pub open spec fn spec_days_in_month(y: int, m: int) -> int {
    if m == 2 {
        if spec_is_leap_year(y) {
            29
        } else {
            28
        }
    } else if m == 4 || m == 6 || m == 9 || m == 11 {
        30
    } else {
        31
    }
}

pub fn is_leap_year(year: u16) -> (r: bool)
    ensures
        r == spec_is_leap_year(year as int),
{
    year % 4 == 0 && (year % 100 != 0 || year % 400 == 0)
}

pub fn days_in_month(year: u16, month: u8) -> (d: u8)
    ensures
        d as int == spec_days_in_month(year as int, month as int),
{
    if month == 2 {
        if is_leap_year(year) {
            29
        } else {
            28
        }
    } else if month == 4 || month == 6 || month == 9 || month == 11 {
        30
    } else {
        31
    }
}

impl Timestamp {
    /// A well-formed timestamp: a real calendar date with a four-digit
    /// year and a valid time of day.
    pub open spec fn wf(self) -> bool {
        &&& self.year <= 9999
        &&& 1 <= self.month <= 12
        &&& 1 <= self.day
        &&& self.day as int <= spec_days_in_month(self.year as int, self.month as int)
        &&& self.hour <= 23
        &&& self.minute <= 59
        &&& self.second <= 59
    }

    /// Builds the timestamp exactly when the fields form a real calendar
    /// date and time of day.
    pub fn new(year: u16, month: u8, day: u8, hour: u8, minute: u8, second: u8) -> (r: Option<
        Timestamp,
    >)
        ensures
            ({
                let t = Timestamp { year, month, day, hour, minute, second };
                match r {
                    Some(v) => v == t && t.wf(),
                    None => !t.wf(),
                }
            }),
    {
        if year <= 9999 && 1 <= month && month <= 12 && 1 <= day && day <= days_in_month(
            year,
            month,
        ) && hour <= 23 && minute <= 59 && second <= 59 {
            Some(Timestamp { year, month, day, hour, minute, second })
        } else {
            None
        }
    }

    /// The current moment, truncated to whole seconds. A year outside
    /// the four-digit range the identifier grammar carries is clamped to
    /// its nearest bound, the day along with it.
    pub fn now() -> (t: Timestamp)
        ensures
            t.wf(),
    {
        let (y, mo, d, h, mi, s) = utc_now_fields();
        let year: u16 = if y < 0 {
            0
        } else if y > 9999 {
            9999
        } else {
            y as u16
        };
        let dim = days_in_month(year, mo);
        let day: u8 = if d > dim {
            dim
        } else {
            d
        };
        Timestamp { year, month: mo, day, hour: h, minute: mi, second: s }
    }

    /// The `YYYY-MM-DD` rendering of the date part.
    pub open spec fn spec_date_chars(self) -> Seq<char> {
        spec_pad4(self.year as int) + seq!['-'] + spec_pad2(self.month as int) + seq!['-']
            + spec_pad2(self.day as int)
    }

    /// The `HHMMSS` rendering of the time part.
    pub open spec fn spec_time_chars(self) -> Seq<char> {
        spec_pad2(self.hour as int) + spec_pad2(self.minute as int) + spec_pad2(self.second as int)
    }

    /// Appends the `YYYY-MM-DD` date rendering to `out`.
    pub fn push_date_chars(self, out: &mut Vec<char>)
        requires
            self.wf(),
        ensures
            final(out)@ == old(out)@ + self.spec_date_chars(),
    {
        push_pad4(out, self.year);
        out.push('-');
        push_pad2(out, self.month);
        out.push('-');
        push_pad2(out, self.day);
        proof {
            assert(out@ =~= old(out)@ + self.spec_date_chars());
        }
    }

    /// Appends the `HHMMSS` time rendering to `out`.
    pub fn push_time_chars(self, out: &mut Vec<char>)
        requires
            self.wf(),
        ensures
            final(out)@ == old(out)@ + self.spec_time_chars(),
    {
        push_pad2(out, self.hour);
        push_pad2(out, self.minute);
        push_pad2(out, self.second);
        proof {
            assert(out@ =~= old(out)@ + self.spec_time_chars());
        }
    }
}

/// Strictly earlier in time: the fields compare in calendar order.
pub open spec fn spec_chrono_lt(a: Timestamp, b: Timestamp) -> bool {
    if a.year != b.year {
        a.year < b.year
    } else if a.month != b.month {
        a.month < b.month
    } else if a.day != b.day {
        a.day < b.day
    } else if a.hour != b.hour {
        a.hour < b.hour
    } else if a.minute != b.minute {
        a.minute < b.minute
    } else {
        a.second < b.second
    }
}

/// The `{date}_{time}` rendering of a timestamp, as it opens a backup
/// identifier after the literal first segment.
pub open spec fn spec_stamp_chars(t: Timestamp) -> Seq<char> {
    t.spec_date_chars() + seq!['_'] + t.spec_time_chars()
}

/// Rendered timestamps order lexicographically as the moments they name
/// order in time: an earlier moment renders strictly lexicographically
/// earlier. This is what makes backup identifiers sort chronologically.
#[verifier::rlimit(60)]
pub proof fn lemma_stamp_order(a: Timestamp, b: Timestamp)
    requires
        a.wf(),
        b.wf(),
        spec_chrono_lt(a, b),
    ensures
        crate::text::lex_leq(spec_stamp_chars(a), spec_stamp_chars(b)),
        spec_stamp_chars(a) != spec_stamp_chars(b),
        spec_stamp_chars(a).len() == spec_stamp_chars(b).len(),
{
    let ca = spec_stamp_chars(a);
    let cb = spec_stamp_chars(b);
    // the rendering, re-grouped so that each field heads its own tail
    let ta = crate::text::spec_pad2(a.hour as int) + (crate::text::spec_pad2(a.minute as int)
        + crate::text::spec_pad2(a.second as int));
    let tb = crate::text::spec_pad2(b.hour as int) + (crate::text::spec_pad2(b.minute as int)
        + crate::text::spec_pad2(b.second as int));
    let da = crate::text::spec_pad2(a.day as int) + (seq!['_'] + ta);
    let db = crate::text::spec_pad2(b.day as int) + (seq!['_'] + tb);
    let ma = crate::text::spec_pad2(a.month as int) + (seq!['-'] + da);
    let mb = crate::text::spec_pad2(b.month as int) + (seq!['-'] + db);
    let ya = crate::text::spec_pad4(a.year as int) + (seq!['-'] + ma);
    let yb = crate::text::spec_pad4(b.year as int) + (seq!['-'] + mb);
    assert(ca =~= ya);
    assert(cb =~= yb);
    assert(ca.len() == cb.len());
    if a.year != b.year {
        crate::text::lemma_pad4_lt(a.year as int, b.year as int);
        crate::text::lemma_lex_strict_extends(
            crate::text::spec_pad4(a.year as int),
            crate::text::spec_pad4(b.year as int),
            seq!['-'] + ma,
            seq!['-'] + mb,
        );
    } else {
        crate::text::lemma_lex_common_prefix(
            crate::text::spec_pad4(a.year as int) + seq!['-'],
            ma,
            mb,
        );
        assert(ya =~= (crate::text::spec_pad4(a.year as int) + seq!['-']) + ma);
        assert(yb =~= (crate::text::spec_pad4(a.year as int) + seq!['-']) + mb);
        if a.month != b.month {
            crate::text::lemma_pad2_lt(a.month as int, b.month as int);
            crate::text::lemma_lex_strict_extends(
                crate::text::spec_pad2(a.month as int),
                crate::text::spec_pad2(b.month as int),
                seq!['-'] + da,
                seq!['-'] + db,
            );
        } else {
            crate::text::lemma_lex_common_prefix(
                crate::text::spec_pad2(a.month as int) + seq!['-'],
                da,
                db,
            );
            assert(ma =~= (crate::text::spec_pad2(a.month as int) + seq!['-']) + da);
            assert(mb =~= (crate::text::spec_pad2(a.month as int) + seq!['-']) + db);
            if a.day != b.day {
                crate::text::lemma_pad2_lt(a.day as int, b.day as int);
                crate::text::lemma_lex_strict_extends(
                    crate::text::spec_pad2(a.day as int),
                    crate::text::spec_pad2(b.day as int),
                    seq!['_'] + ta,
                    seq!['_'] + tb,
                );
            } else {
                crate::text::lemma_lex_common_prefix(
                    crate::text::spec_pad2(a.day as int) + seq!['_'],
                    ta,
                    tb,
                );
                assert(da =~= (crate::text::spec_pad2(a.day as int) + seq!['_']) + ta);
                assert(db =~= (crate::text::spec_pad2(a.day as int) + seq!['_']) + tb);
                if a.hour != b.hour {
                    crate::text::lemma_pad2_lt(a.hour as int, b.hour as int);
                    crate::text::lemma_lex_strict_extends(
                        crate::text::spec_pad2(a.hour as int),
                        crate::text::spec_pad2(b.hour as int),
                        crate::text::spec_pad2(a.minute as int) + crate::text::spec_pad2(
                            a.second as int,
                        ),
                        crate::text::spec_pad2(b.minute as int) + crate::text::spec_pad2(
                            b.second as int,
                        ),
                    );
                } else {
                    crate::text::lemma_lex_common_prefix(
                        crate::text::spec_pad2(a.hour as int),
                        crate::text::spec_pad2(a.minute as int) + crate::text::spec_pad2(
                            a.second as int,
                        ),
                        crate::text::spec_pad2(b.minute as int) + crate::text::spec_pad2(
                            b.second as int,
                        ),
                    );
                    assert(ta =~= crate::text::spec_pad2(a.hour as int) + (
                    crate::text::spec_pad2(a.minute as int) + crate::text::spec_pad2(
                        a.second as int,
                    )));
                    assert(tb =~= crate::text::spec_pad2(a.hour as int) + (
                    crate::text::spec_pad2(b.minute as int) + crate::text::spec_pad2(
                        b.second as int,
                    )));
                    if a.minute != b.minute {
                        crate::text::lemma_pad2_lt(a.minute as int, b.minute as int);
                        crate::text::lemma_lex_strict_extends(
                            crate::text::spec_pad2(a.minute as int),
                            crate::text::spec_pad2(b.minute as int),
                            crate::text::spec_pad2(a.second as int),
                            crate::text::spec_pad2(b.second as int),
                        );
                    } else {
                        crate::text::lemma_lex_common_prefix(
                            crate::text::spec_pad2(a.minute as int),
                            crate::text::spec_pad2(a.second as int),
                            crate::text::spec_pad2(b.second as int),
                        );
                        crate::text::lemma_pad2_lt(a.second as int, b.second as int);
                    }
                }
            }
        }
    }
}

/// Relies on `SystemTime::now`/`duration_since(UNIX_EPOCH)` to read the
/// clock and on chrono's `DateTime::from_timestamp` and calendar field
/// accessors (`year`, `month`, `day`, `hour`, `minute`, `second`) to
/// break it into fields: the returned moment's fields always name a real
/// calendar date — month between 1 and 12, day between 1 and the month's
/// length — and a time of day with hour below 24 and minute and second
/// below 60. Nothing is promised of the year: it is whatever the clock
/// reads. A clock before the epoch or beyond chrono's range falls back
/// to the epoch rather than panicking.
#[verifier::external_body]
fn utc_now_fields() -> (r: (i32, u8, u8, u8, u8, u8))
    ensures
        1 <= r.1 <= 12,
        1 <= r.2,
        r.2 as int <= spec_days_in_month(r.0 as int, r.1 as int),
        r.3 <= 23,
        r.4 <= 59,
        r.5 <= 59,
{
    let seconds = std::time::SystemTime::now()
        .duration_since(std::time::UNIX_EPOCH)
        .map(|d| d.as_secs() as i64)
        .unwrap_or(0);
    let now = chrono::DateTime::from_timestamp(seconds, 0).unwrap_or_default();
    (
        chrono::Datelike::year(&now),
        chrono::Datelike::month(&now) as u8,
        chrono::Datelike::day(&now) as u8,
        chrono::Timelike::hour(&now) as u8,
        chrono::Timelike::minute(&now) as u8,
        chrono::Timelike::second(&now) as u8,
    )
}

/// The timestamp encoded by a `YYYY-MM-DD` date segment and a `HHMMSS`
/// time segment, or `None` when either segment is malformed or does not
/// name a real calendar date or time of day.
pub open spec fn spec_timestamp_of(date: Seq<char>, time: Seq<char>) -> Option<Timestamp> {
    if date.len() == 10 && time.len() == 6 && is_digit(date[0]) && is_digit(date[1]) && is_digit(
        date[2],
    ) && is_digit(date[3]) && date[4] == '-' && is_digit(date[5]) && is_digit(date[6]) && date[7]
        == '-' && is_digit(date[8]) && is_digit(date[9]) && is_digit(time[0]) && is_digit(time[1])
        && is_digit(time[2]) && is_digit(time[3]) && is_digit(time[4]) && is_digit(time[5]) {
        let y = spec_num4(date);
        let mo = spec_num2(date.subrange(5, 7));
        let d = spec_num2(date.subrange(8, 10));
        let h = spec_num2(time);
        let mi = spec_num2(time.subrange(2, 4));
        let s = spec_num2(time.subrange(4, 6));
        if 1 <= mo <= 12 && 1 <= d && d <= spec_days_in_month(y, mo) && h <= 23 && mi <= 59 && s
            <= 59 {
            Some(
                Timestamp {
                    year: y as u16,
                    month: mo as u8,
                    day: d as u8,
                    hour: h as u8,
                    minute: mi as u8,
                    second: s as u8,
                },
            )
        } else {
            None
        }
    } else {
        None
    }
}

/// Decoding the rendered date and time segments of a well-formed
/// timestamp gives that timestamp back.
pub proof fn lemma_timestamp_render_roundtrip(t: Timestamp)
    requires
        t.wf(),
    ensures
        spec_timestamp_of(t.spec_date_chars(), t.spec_time_chars()) == Some(t),
        t.spec_date_chars().len() == 10,
        t.spec_time_chars().len() == 6,
        forall|i: int|
            0 <= i < 10 ==> #[trigger] t.spec_date_chars()[i] != '_',
        forall|i: int| 0 <= i < 6 ==> #[trigger] t.spec_time_chars()[i] != '_',
{
    let date = t.spec_date_chars();
    let time = t.spec_time_chars();
    lemma_pad4_roundtrip(t.year as int);
    lemma_pad2_roundtrip(t.month as int);
    lemma_pad2_roundtrip(t.day as int);
    lemma_pad2_roundtrip(t.hour as int);
    lemma_pad2_roundtrip(t.minute as int);
    lemma_pad2_roundtrip(t.second as int);
    assert(date.subrange(0, 4) =~= spec_pad4(t.year as int));
    assert(date.subrange(5, 7) =~= spec_pad2(t.month as int));
    assert(date.subrange(8, 10) =~= spec_pad2(t.day as int));
    assert(time.subrange(0, 2) =~= spec_pad2(t.hour as int));
    assert(time.subrange(2, 4) =~= spec_pad2(t.minute as int));
    assert(time.subrange(4, 6) =~= spec_pad2(t.second as int));
    assert(spec_num4(date) == spec_num4(spec_pad4(t.year as int)));
    assert(spec_num2(time) == spec_num2(spec_pad2(t.hour as int)));
    assert(spec_timestamp_of(date, time) == Some(t));
}

} // verus!
