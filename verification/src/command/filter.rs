use crate::text::str_eq;
use crate::work_item::clock::get_current_timestamp;
use vstd::prelude::*;

verus! {

/// Length of a day in milliseconds.
pub const MILLIS_PER_DAY: i64 = 86_400_000;

/// Start of the day, in milliseconds since the epoch and at UTC, that the
/// text names in the form `YYYY-MM-DD`, as `chrono` reads it; `None` where
/// `chrono` reads no date from the text.
pub uninterp spec fn utc_midnight_of_date(text: Seq<char>) -> Option<i64>;

/// Reads a date with `chrono::NaiveDate::parse_from_str` under the format
/// `%Y-%m-%d` and hands back the midnight that begins it, taken as UTC, in
/// milliseconds since the epoch. What comes back is a function of the text
/// alone; which texts are dates is left to `chrono`.
#[verifier::external_body]
fn read_date(text: &str) -> (midnight: Option<i64>)
    ensures
        midnight == utc_midnight_of_date(text@),
{
    match chrono::NaiveDate::parse_from_str(text, "%Y-%m-%d") {
        Ok(date) => Some(date.and_time(chrono::NaiveTime::MIN).and_utc().timestamp_millis()),
        Err(_) => None,
    }
}

/// Start of the day (at UTC) in which the instant lies.
pub open spec fn day_start(timestamp: int) -> int {
    timestamp - timestamp % (MILLIS_PER_DAY as int)
}

/// The day that begins at the given instant, as the instant and the start of
/// the next day; `None` where the next day begins beyond the range of timestamps.
pub open spec fn day_from(start: int) -> Option<(i64, i64)> {
    if i64::MIN <= start && start + MILLIS_PER_DAY <= i64::MAX {
        Some((start as i64, (start + MILLIS_PER_DAY) as i64))
    } else {
        None
    }
}

/// The time range that a filter keyword stands for at the instant `now`:
/// `today` is the day in which `now` lies, `yesterday` the day before it, and
/// any other keyword is read as a date and stands for that day.
pub open spec fn keyword_range(keyword: Seq<char>, now: i64) -> Option<(i64, i64)> {
    if keyword == "today"@ {
        day_from(day_start(now as int))
    } else if keyword == "yesterday"@ {
        day_from(day_start(now as int) - MILLIS_PER_DAY)
    } else {
        match utc_midnight_of_date(keyword) {
            Some(midnight) => day_from(midnight as int),
            None => None,
        }
    }
}

/// The day that begins at the given instant: the instant and the start of the
/// next day, or `None` where the next day begins beyond the range of timestamps.
pub fn day_beginning(start: i64) -> (range: Option<(i64, i64)>)
    ensures
        range == day_from(start as int),
{
    if start <= i64::MAX - MILLIS_PER_DAY {
        Some((start, start + MILLIS_PER_DAY))
    } else {
        None
    }
}

/// Start of the day (at UTC) in which the instant lies; `None` where it lies
/// before the range of timestamps.
pub fn start_of_day(timestamp: i64) -> (start: Option<i64>)
    ensures
        match start {
            Some(start) => start == day_start(timestamp as int),
            None => day_start(timestamp as int) < i64::MIN,
        },
{
    if timestamp >= 0 {
        Some(timestamp - timestamp % MILLIS_PER_DAY)
    } else {
        // Whole days are counted back from the epoch
        let back: i64 = -(timestamp + 1);
        let into_day: i64 = MILLIS_PER_DAY - 1 - back % MILLIS_PER_DAY;
        assert(into_day == (timestamp as int) % (MILLIS_PER_DAY as int)) by {
            lemma_mod_of_negative(timestamp as int, MILLIS_PER_DAY as int);
        }
        if timestamp >= i64::MIN + into_day {
            Some(timestamp - into_day)
        } else {
            None
        }
    }
}

/// The remainder of a negative number, counted from the multiple below it.
proof fn lemma_mod_of_negative(t: int, d: int)
    requires
        t < 0,
        d > 0,
    ensures
        t % d == d - 1 - (-(t + 1)) % d,
{
    let back = -(t + 1);
    let q = back / d;
    let r = back % d;
    vstd::arithmetic::div_mod::lemma_fundamental_div_mod(back, d);
    assert(t == d * (-q - 1) + (d - 1 - r)) by (nonlinear_arith)
        requires
            back == d * q + r,
            back == -(t + 1),
    ;
    vstd::arithmetic::div_mod::lemma_fundamental_div_mod_converse(t, d, -q - 1, d - 1 - r);
}

/// Convert the passed filter keyword ("today", "yesterday", "2020-02-02")
/// to a time range of timestamps, as seen at the instant `now`.
pub fn filter_keyword_to_time_range_at(keyword: &str, now: i64) -> (range: Option<(i64, i64)>)
    ensures
        range == keyword_range(keyword@, now),
{
    if str_eq(keyword, "today") {
        match start_of_day(now) {
            Some(start) => day_beginning(start),
            None => None,
        }
    } else if str_eq(keyword, "yesterday") {
        match start_of_day(now) {
            Some(start) => {
                if start >= i64::MIN + MILLIS_PER_DAY {
                    day_beginning(start - MILLIS_PER_DAY)
                } else {
                    None
                }
            },
            None => None,
        }
    } else {
        match read_date(keyword) {
            Some(midnight) => day_beginning(midnight),
            None => None,
        }
    }
}

/// Convert the passed filter keyword ("today", "yesterday", "2020-02-02")
/// to a time range of timestamps, as seen now.
pub fn filter_keyword_to_time_range(keyword: &str) -> (range: Option<(i64, i64)>)
    ensures
        exists|now: i64| now >= 0 && range == #[trigger] keyword_range(keyword@, now),
{
    filter_keyword_to_time_range_at(keyword, get_current_timestamp())
}

} // verus!
