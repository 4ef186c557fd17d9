//! Days of the calendar: which update dates a run fetches, and whether a
//! council meeting lies ahead.

use vstd::prelude::*;
use crate::cli::state::LatestState;
use crate::text::strings_of;

verus! {

/// The day number (days since 0001-01-01, that day being 1) of the date
/// that `chrono` reads from `s` as `%Y-%m-%d`, or `None`.
pub uninterp spec fn ymd_day_number(s: Seq<char>) -> Option<i32>;

/// The forms of the date with day number `n`: its `%Y-%m-%d` text and the
/// `%a, %d %b %Y %H:%M:%S +0000` text of its midnight; `None` for a number
/// outside `chrono`'s range.
pub uninterp spec fn day_forms(n: i32) -> Option<(Seq<char>, Seq<char>)>;

/// The `%Y-%m-%d` text of the date with day number `n`.
pub open spec fn day_text(n: i32) -> Option<Seq<char>> {
    match day_forms(n) {
        Some(f) => Some(f.0),
        None => None,
    }
}

/// `chrono::NaiveDate::parse_from_str(s, "%Y-%m-%d")` and
/// `num_days_from_ce`: the day number of the date `s` names.
#[verifier::external_body]
pub(crate) fn day_number_of(s: &str) -> (r: Option<i32>)
    ensures
        r == ymd_day_number(s@),
{
    match chrono::NaiveDate::parse_from_str(s, "%Y-%m-%d") {
        Ok(d) => Some(chrono::Datelike::num_days_from_ce(&d)),
        Err(_) => None,
    }
}

/// `chrono::NaiveDate::from_num_days_from_ce_opt(n)`, formatted as
/// `%Y-%m-%d`, and its midnight (`and_hms_opt(0, 0, 0)`) formatted as
/// `%a, %d %b %Y %H:%M:%S +0000`.
#[verifier::external_body]
fn forms_of_day(n: i32) -> (r: Option<(String, String)>)
    ensures
        match r {
            Some((t, m)) => day_forms(n) == Some((t@, m@)),
            None => day_forms(n) is None,
        },
{
    match chrono::NaiveDate::from_num_days_from_ce_opt(n) {
        Some(d) => match d.and_hms_opt(0, 0, 0) {
            Some(t) => Some((d.format("%Y-%m-%d").to_string(), t.format("%a, %d %b %Y %H:%M:%S +0000").to_string())),
            None => None,
        },
        None => None,
    }
}

/// The `%Y-%m-%d` text of the date with day number `n`.
pub(crate) fn text_of_day(n: i32) -> (r: Option<String>)
    ensures
        match r {
            Some(t) => day_text(n) == Some(t@),
            None => day_text(n) is None,
        },
{
    match forms_of_day(n) {
        Some((t, _)) => Some(t),
        None => None,
    }
}

/// The RFC 822 text of the midnight of the date with day number `n`.
pub(crate) fn midnight_rfc822(n: i32) -> (r: Option<String>)
    ensures
        match r {
            Some(t) => (day_forms(n) matches Some(f) && f.1 == t@),
            None => day_forms(n) is None,
        },
{
    match forms_of_day(n) {
        Some((_, m)) => Some(m),
        None => None,
    }
}

/// The day number of today's date in UTC (`chrono::Utc::now()`); nothing
/// is promised of it, as it depends on the clock.
#[verifier::external_body]
fn today_day_number() -> i32 {
    chrono::Datelike::num_days_from_ce(&chrono::Utc::now().date_naive())
}

/// The first day a run fetches: three days before the last successful
/// update where that reads as a date, else today.
pub open spec fn first_pick(state: LatestState, today: i32) -> int {
    match state.latest_successful_update_date {
        Some(s) => match ymd_day_number(s@) {
            Some(d) => d - 3,
            None => today as int,
        },
        None => today as int,
    }
}

/// The text of day `n`, as a sequence of zero or one texts.
pub open spec fn day_entry(n: int) -> Seq<Seq<char>> {
    if i32::MIN <= n <= i32::MAX {
        match day_text(n as i32) {
            Some(t) => seq![t],
            None => Seq::empty(),
        }
    } else {
        Seq::empty()
    }
}

/// The texts of the days `from ..= to`, in order.
pub open spec fn day_texts(from: int, to: int) -> Seq<Seq<char>>
    decreases to - from + 1,
{
    if to < from {
        Seq::empty()
    } else {
        day_texts(from, to - 1) + day_entry(to)
    }
}

/// The update dates a run fetches (`YYYY-MM-DD`): from three days before
/// the last successful update to `today` (a day number), or `today` alone
/// where no update succeeded yet.
pub fn pick_dates(state: &LatestState, today: i32) -> (out: Vec<String>)
    ensures
        strings_of(out@) == day_texts(first_pick(*state, today), today as int),
{
    let from: i64 = match &state.latest_successful_update_date {
        Some(s) => match day_number_of(s.as_str()) {
            Some(d) => d as i64 - 3,
            None => today as i64,
        },
        None => today as i64,
    };
    let mut out: Vec<String> = Vec::new();
    let mut cur: i64 = from;
    if cur > today as i64 {
        return out;
    }
    while cur <= today as i64
        invariant
            from <= cur <= today as i64 + 1,
            from == first_pick(*state, today),
            strings_of(out@) == day_texts(from as int, cur - 1),
        decreases today as i64 + 1 - cur,
    {
        if cur >= i32::MIN as i64 {
            match text_of_day(cur as i32) {
                Some(t) => {
                    out.push(t);
                },
                None => {},
            }
        }
        proof {
            assert(day_texts(from as int, cur as int) == day_texts(from as int, cur - 1) + day_entry(cur as int));
        }
        assert(strings_of(out@) =~= day_texts(from as int, cur as int));
        cur = cur + 1;
    }
    out
}

/// `scheduled` for a meeting on a date after `today` (a day number),
/// else `held` (also where the date is missing or unreadable).
pub fn meeting_status_on(date: Option<&str>, today: i32) -> (r: &'static str)
    ensures
        r@ == (if (date matches Some(d) && (ymd_day_number(d@) matches Some(n) && n > today)) {
            "scheduled"@
        } else {
            "held"@
        }),
{
    let future = match date {
        Some(d) => match day_number_of(d) {
            Some(n) => n > today,
            None => false,
        },
        None => false,
    };
    if future {
        "scheduled"
    } else {
        "held"
    }
}

/// The status a council meeting shows when the site is built: `scheduled`
/// for a date after today, else `held`.
pub fn effective_meeting_status(date: Option<&str>) -> (r: &'static str)
    ensures
        r@ == "scheduled"@ || r@ == "held"@,
        !(date matches Some(d) && ymd_day_number(d@) is Some) ==> r@ == "held"@,
{
    meeting_status_on(date, today_day_number())
}

} // verus!
