use vstd::prelude::*;

use chrono::{Datelike, Offset, TimeZone};

use crate::text::push_str;

verus! {

/// The hour (local time) at which the weekly raid notes are posted.
pub const POST_HOUR: u32 = 9;

/// The day of the week of a day counted in the proleptic Gregorian calendar
/// with January 1 of year 1 (a Monday) as day 1: 0 for Monday up to 6 for Sunday.
pub open spec fn weekday(day: int) -> int {
    (day + 6) % 7
}

/// The number (counted from January 1 of year 1 as day 1) of chrono's first
/// date, `NaiveDate::MIN` (January 1, 262144 BCE).
pub open spec fn first_day() -> int {
    -95746129
}

/// The number of chrono's last date, `NaiveDate::MAX` (December 31, 262142).
pub open spec fn last_day() -> int {
    95745399
}

/// What `NaiveDate::succ_opt` gives for the date numbered `day`: the number
/// of the next date, or `None` when `day` is not a date that chrono
/// represents or is its last one.
pub open spec fn day_after(day: int) -> Option<int> {
    if first_day() <= day < last_day() {
        Some(day + 1)
    } else {
        None
    }
}

/// The local date (numbered as above), in the IANA time zone named `tz`, of
/// the instant `ms` milliseconds after the Unix epoch; `None` when `tz` names
/// no zone that chrono-tz knows or chrono cannot represent that date.
pub uninterp spec fn local_day(tz: Seq<char>, ms: int) -> Option<int>;

/// The instant (milliseconds after the Unix epoch) at which it is `hour`:00:00
/// in the IANA time zone named `tz` on the date numbered `day`; `None` when
/// that local time does not exist or is ambiguous (daylight saving changes),
/// or the date or the zone is invalid.
pub uninterp spec fn local_time(tz: Seq<char>, day: int, hour: int) -> Option<int>;

/// chrono's `"%b %-d"` rendering (e.g. "Jan 5") of the date numbered `day`,
/// or `None` when that is not a representable date.
pub uninterp spec fn short_date(day: int) -> Option<Seq<char>>;

/// The number of the date after `day`, by `NaiveDate::from_num_days_from_ce_opt`
/// and `NaiveDate::succ_opt`. Trusted: the result is `day_after(day)`
/// (chrono numbers its dates consecutively from `first_day` to `last_day`).
#[verifier::external_body]
fn next_day(day: i32) -> (res: Option<i32>)
    ensures
        match res {
            Some(n) => day_after(day as int) == Some(n as int),
            None => day_after(day as int) is None,
        },
{
    match chrono::NaiveDate::from_num_days_from_ce_opt(day) {
        Some(d) => match d.succ_opt() {
            Some(n) => Some(n.num_days_from_ce()),
            None => None,
        },
        None => None,
    }
}

/// The local date of an instant in a named time zone, by chrono and
/// chrono-tz (`str::parse::<Tz>`, `Utc.timestamp_millis_opt`, the zone's
/// offset at that instant, `NaiveDateTime::checked_add_offset`).
/// Trusted: the result is `local_day(tz, ms)`.
#[verifier::external_body]
fn local_date_of(tz: &str, ms: i64) -> (res: Option<i32>)
    ensures
        match (res, local_day(tz@, ms as int)) {
            (Some(d), Some(e)) => d as int == e,
            (None, None) => true,
            _ => false,
        },
{
    let zone: chrono_tz::Tz = match tz.parse() {
        Ok(z) => z,
        Err(_) => return None,
    };
    let t = match chrono::Utc.timestamp_millis_opt(ms).single() {
        Some(t) => t,
        None => return None,
    };
    let offset = t.with_timezone(&zone).offset().fix();
    match t.naive_utc().checked_add_offset(offset) {
        Some(local) => Some(local.date().num_days_from_ce()),
        None => None,
    }
}

/// The instant of a local time in a named time zone, by chrono and chrono-tz
/// (`str::parse::<Tz>`, `and_hms_opt`, `from_local_datetime(..).single()`).
/// Trusted: the result is `local_time(tz, day, hour)`.
#[verifier::external_body]
fn local_instant(tz: &str, day: i32, hour: u32) -> (res: Option<i64>)
    ensures
        match (res, local_time(tz@, day as int, hour as int)) {
            (Some(t), Some(u)) => t as int == u,
            (None, None) => true,
            _ => false,
        },
{
    let zone: chrono_tz::Tz = match tz.parse() {
        Ok(z) => z,
        Err(_) => return None,
    };
    let local = match chrono::NaiveDate::from_num_days_from_ce_opt(day) {
        Some(d) => match d.and_hms_opt(hour, 0, 0) {
            Some(l) => l,
            None => return None,
        },
        None => return None,
    };
    match zone.from_local_datetime(&local).single() {
        Some(t) => Some(t.timestamp_millis()),
        None => None,
    }
}

/// chrono's `"%b %-d"` rendering of a date. Trusted: the result is `short_date(day)`.
#[verifier::external_body]
fn short_date_of(day: i32) -> (res: Option<String>)
    ensures
        match (res, short_date(day as int)) {
            (Some(s), Some(t)) => s@ == t,
            (None, None) => true,
            _ => false,
        },
{
    match chrono::NaiveDate::from_num_days_from_ce_opt(day) {
        Some(d) => Some(d.format("%b %-d").to_string()),
        None => None,
    }
}

/// The day of the week of the date numbered `day`: 0 for Monday up to 6 for Sunday.
pub fn weekday_of(day: i32) -> (w: i32)
    ensures
        w == weekday(day as int),
        0 <= w < 7,
{
    // Shift by a multiple of 7 large enough to make every `i32` non-negative.
    let x: u64 = ((day as i64) + 2_800_000_006) as u64;
    let w = (x % 7) as i32;
    proof {
        vstd::arithmetic::div_mod::lemma_mod_multiples_vanish(400_000_000, day + 6, 7);
        assert(7 * 400_000_000 + (day + 6) == x);
    }
    w
}

/// A post may happen on the date numbered `day` in the zone `tz`: it is a
/// Tuesday, 9:00 exists unambiguously in that zone that day, and that instant
/// is after `now`.
pub open spec fn is_post_day(tz: Seq<char>, day: int, now: int) -> bool {
    &&& weekday(day) == 1
    &&& local_time(tz, day, POST_HOUR as int) matches Some(t)
    &&& t > now
}

/// Every date from `from` up to `to` has a next date, numbered one more.
pub open spec fn dates_continue(from: int, to: int) -> bool {
    forall|k: int| from <= k < to ==> #[trigger] day_after(k) == Some(k + 1)
}

/// `t` is the first post instant from `now` on: 9:00 on the first post day
/// (see `is_post_day`) counted from the local date of `now`.
pub open spec fn is_next_post(tz: Seq<char>, now: int, t: int) -> bool {
    local_day(tz, now) matches Some(today) && exists|d: int|
        {
            &&& today <= d
            &&& dates_continue(today, d)
            &&& is_post_day(tz, d, now)
            &&& local_time(tz, d, POST_HOUR as int) == Some(t)
            &&& forall|k: int| today <= k < d ==> !#[trigger] is_post_day(tz, k, now)
        }
}

/// The next Tuesday 9:00 AM strictly after the instant `now_ms` (milliseconds
/// since the Unix epoch), in the time zone of `now`, named `tz` (such as
/// "America/New_York"), as an instant.
///
/// The search starts on the local date of `now_ms` and goes day by day; a
/// Tuesday on which 9:00 does not exist once (a daylight saving change) is
/// skipped. `None` when `tz` is no known zone or the date of `now_ms` cannot
/// be represented, or when the last representable date is reached first.
pub fn next_tuesday_9am(now_ms: i64, tz: &str) -> (res: Option<i64>)
    ensures
        match res {
            Some(t) => is_next_post(tz@, now_ms as int, t as int),
            None => local_day(tz@, now_ms as int) is None || (local_day(tz@, now_ms as int) matches Some(today)
                && exists|end: int|
                {
                    &&& today <= end
                    &&& dates_continue(today, end)
                    &&& day_after(end) is None
                    &&& forall|k: int| today <= k <= end ==> !#[trigger] is_post_day(tz@, k, now_ms as int)
                }),
        },
{
    let today = match local_date_of(tz, now_ms) {
        Some(d) => d,
        None => return None,
    };
    let ghost today_i = today as int;
    let mut date = today;
    loop
        invariant
            local_day(tz@, now_ms as int) == Some(today_i),
            today_i <= date,
            dates_continue(today_i, date as int),
            forall|k: int| today_i <= k < date ==> !#[trigger] is_post_day(tz@, k, now_ms as int),
        decreases i32::MAX - date,
    {
        if weekday_of(date) == 1 {
            if let Some(candidate) = local_instant(tz, date, POST_HOUR) {
                if candidate > now_ms {
                    assert(is_post_day(tz@, date as int, now_ms as int));
                    assert(local_day(tz@, now_ms as int) matches Some(today) && today == today_i);
                    assert(exists|d: int|
                        {
                            &&& today_i <= d
                            &&& dates_continue(today_i, d)
                            &&& is_post_day(tz@, d, now_ms as int)
                            &&& local_time(tz@, d, POST_HOUR as int) == Some(candidate as int)
                            &&& forall|k: int| today_i <= k < d ==> !#[trigger] is_post_day(tz@, k, now_ms as int)
                        }) by {
                        assert(today_i <= date);
                    }
                    assert(is_next_post(tz@, now_ms as int, candidate as int));
                    return Some(candidate);
                }
            }
        }
        assert(!is_post_day(tz@, date as int, now_ms as int));
        match next_day(date) {
            Some(n) => {
                assert(dates_continue(today_i, n as int)) by {
                    assert forall|k: int| today_i <= k < n implies #[trigger] day_after(k) == Some(k + 1) by {}
                }
                date = n;
            },
            None => {
                assert(exists|end: int|
                    {
                        &&& today_i <= end
                        &&& dates_continue(today_i, end)
                        &&& day_after(end) is None
                        &&& forall|k: int| today_i <= k <= end ==> !#[trigger] is_post_day(tz@, k, now_ms as int)
                    }) by {
                    assert(day_after(date as int) is None);
                }
                assert(local_day(tz@, now_ms as int) matches Some(today) && today == today_i);
                assert(local_day(tz@, now_ms as int) matches Some(today) && exists|end: int|
                    {
                        &&& today <= end
                        &&& dates_continue(today, end)
                        &&& day_after(end) is None
                        &&& forall|k: int| today <= k <= end ==> !#[trigger] is_post_day(tz@, k, now_ms as int)
                    });
                return None;
            },
        }
    }
}

/// Law: posts come on consecutive Tuesdays. After the post at 9:00 on the
/// Tuesday numbered `tuesday` (the instant `posted`), from any instant `now`
/// at or after it whose local date `today` is at most a week later and which
/// is before 9:00 of the next Tuesday, the next post day is exactly the
/// Tuesday a week later: it is a post day, and no date from `today` before it is.
pub proof fn law_next_post_is_a_week_later(tz: Seq<char>, tuesday: int, posted: int, now: int, today: int)
    requires
        weekday(tuesday) == 1,
        local_time(tz, tuesday, POST_HOUR as int) == Some(posted),
        posted <= now,
        local_day(tz, now) == Some(today),
        tuesday <= today <= tuesday + 7,
        local_time(tz, tuesday + 7, POST_HOUR as int) matches Some(next) && now < next,
    ensures
        is_post_day(tz, tuesday + 7, now),
        forall|k: int| today <= k < tuesday + 7 ==> !#[trigger] is_post_day(tz, k, now),
{
    vstd::arithmetic::div_mod::lemma_mod_multiples_vanish(1, tuesday + 6, 7);
    assert forall|k: int| today <= k < tuesday + 7 implies !#[trigger] is_post_day(tz, k, now) by {
        if weekday(k) == 1 && k != tuesday {
            let j = k - tuesday;
            assert(0 < j < 7);
            assert((k + 6) % 7 == (tuesday + 6) % 7);
            vstd::arithmetic::div_mod::lemma_fundamental_div_mod(k + 6, 7);
            vstd::arithmetic::div_mod::lemma_fundamental_div_mod(tuesday + 6, 7);
            assert(7 * ((k + 6) / 7) - 7 * ((tuesday + 6) / 7) == j);
            assert(7 * ((k + 6) / 7 - (tuesday + 6) / 7) == j) by (nonlinear_arith)
                requires
                    7 * ((k + 6) / 7) - 7 * ((tuesday + 6) / 7) == j,
            ;
            assert(false) by (nonlinear_arith)
                requires
                    7 * ((k + 6) / 7 - (tuesday + 6) / 7) == j,
                    0 < j < 7,
            ;
        }
    }
}

/// Law: the next post after a weekly post is the one a week later. Under the
/// conditions of `law_next_post_is_a_week_later`, the first post instant from
/// `now` on (what `next_tuesday_9am` returns when it returns one) is 9:00 on
/// the Tuesday a week after `tuesday`.
pub proof fn law_next_post_instant(tz: Seq<char>, tuesday: int, posted: int, now: int, today: int, t: int)
    requires
        weekday(tuesday) == 1,
        local_time(tz, tuesday, POST_HOUR as int) == Some(posted),
        posted <= now,
        local_day(tz, now) == Some(today),
        tuesday <= today <= tuesday + 7,
        local_time(tz, tuesday + 7, POST_HOUR as int) matches Some(next) && now < next,
        is_next_post(tz, now, t),
    ensures
        local_time(tz, tuesday + 7, POST_HOUR as int) == Some(t),
{
    law_next_post_is_a_week_later(tz, tuesday, posted, now, today);
    let d = choose|d: int|
        {
            &&& today <= d
            &&& dates_continue(today, d)
            &&& is_post_day(tz, d, now)
            &&& local_time(tz, d, POST_HOUR as int) == Some(t)
            &&& forall|k: int| today <= k < d ==> !#[trigger] is_post_day(tz, k, now)
        };
    if d < tuesday + 7 {
        assert(!is_post_day(tz, d, now));
    } else if d > tuesday + 7 {
        assert(!is_post_day(tz, tuesday + 7, now));
    }
}

/// One round of the weekly schedule: from the post at `post` (9:00 on the
/// Tuesday numbered `tuesday`), the next search starts at an instant `now` at
/// or after it, on a local date within the week, before 9:00 of the Tuesday a
/// week later (that is, the post attempt took less than a week), and finds
/// `next`.
pub open spec fn schedule_round(tz: Seq<char>, tuesday: int, post: int, now: int, next: int) -> bool {
    &&& post <= now
    &&& local_day(tz, now) matches Some(today) && tuesday <= today <= tuesday + 7
    &&& local_time(tz, tuesday + 7, POST_HOUR as int) matches Some(t) && now < t
    &&& is_next_post(tz, now, next)
}

/// Law: the weekly posts land on consecutive Tuesdays at 9:00 local time, none
/// skipped or repeated. Starting from the post at 9:00 on the Tuesday numbered
/// `first`, if every round of the schedule (see `schedule_round`) searches
/// from its instant in `nows`, the `k`-th post is 9:00 on the Tuesday `k`
/// weeks after `first`.
pub proof fn law_weekly_posts(tz: Seq<char>, first: int, posts: Seq<int>, nows: Seq<int>)
    requires
        weekday(first) == 1,
        posts.len() == nows.len() + 1,
        local_time(tz, first, POST_HOUR as int) == Some(posts[0]),
        forall|k: int|
            0 <= k < nows.len() ==> schedule_round(tz, first + 7 * k, posts[k], #[trigger] nows[k], posts[k + 1]),
    ensures
        forall|k: int| 0 <= k < posts.len() ==> local_time(tz, first + 7 * k, POST_HOUR as int) == Some(#[trigger] posts[k]),
{
    assert forall|k: int| 0 <= k < posts.len() implies local_time(tz, first + 7 * k, POST_HOUR as int) == Some(
        #[trigger] posts[k],
    ) by {
        lemma_weekly_posts_upto(tz, first, posts, nows, k);
    }
}

proof fn lemma_weekly_posts_upto(tz: Seq<char>, first: int, posts: Seq<int>, nows: Seq<int>, k: int)
    requires
        0 <= k < posts.len(),
        weekday(first) == 1,
        posts.len() == nows.len() + 1,
        local_time(tz, first, POST_HOUR as int) == Some(posts[0]),
        forall|m: int|
            0 <= m < nows.len() ==> schedule_round(tz, first + 7 * m, posts[m], #[trigger] nows[m], posts[m + 1]),
    ensures
        local_time(tz, first + 7 * k, POST_HOUR as int) == Some(posts[k]),
    decreases k,
{
    if k > 0 {
        let m = k - 1;
        lemma_weekly_posts_upto(tz, first, posts, nows, m);
        let tuesday = first + 7 * m;
        assert(schedule_round(tz, tuesday, posts[m], nows[m], posts[m + 1]));
        vstd::arithmetic::div_mod::lemma_mod_multiples_vanish(m, first + 6, 7);
        assert(7 * m + (first + 6) == tuesday + 6);
        assert(weekday(tuesday) == 1);
        let today = local_day(tz, nows[m]).unwrap();
        law_next_post_instant(tz, tuesday, posts[m], nows[m], today, posts[m + 1]);
        assert(tuesday + 7 == first + 7 * k);
    }
}

/// The title of the weekly raid notes post made at the instant `post_ms`:
/// "Week of {Monday} - {Sunday}" for the week (Monday to Sunday), in the zone
/// named `tz`,
/// holding that instant, the dates rendered like "Jan 5". `None` when chrono
/// cannot represent those dates (or their numbers leave `i32`).
pub fn weekly_title(post_ms: i64, tz: &str) -> (res: Option<String>)
    ensures
        match local_day(tz@, post_ms as int) {
            Some(day) => {
                let monday = day - weekday(day);
                match (short_date(monday), short_date(monday + 6)) {
                    (Some(a), Some(b)) => if i32::MIN <= monday && monday + 6 <= i32::MAX {
                        res matches Some(s) && s@ == "Week of "@ + a + " - "@ + b
                    } else {
                        res is None
                    },
                    _ => res is None,
                }
            },
            None => res is None,
        },
{
    let day = match local_date_of(tz, post_ms) {
        Some(d) => d,
        None => return None,
    };
    let monday_wide: i64 = day as i64 - weekday_of(day) as i64;
    if monday_wide < i32::MIN as i64 || monday_wide > (i32::MAX - 6) as i64 {
        return None;
    }
    let monday = monday_wide as i32;
    let first = short_date_of(monday);
    let last = short_date_of(monday + 6);
    match (first, last) {
        (Some(a), Some(b)) => {
            let mut s = String::new();
            push_str(&mut s, "Week of ");
            push_str(&mut s, a.as_str());
            push_str(&mut s, " - ");
            push_str(&mut s, b.as_str());
            Some(s)
        },
        _ => None,
    }
}

/// The content of the weekly raid notes post: "Raid notes for this week go here.".
pub fn raid_notes_message() -> (s: String)
    ensures
        s@ == "Raid notes for this week go here."@,
{
    let mut s = String::new();
    push_str(&mut s, "Raid notes for this week go here.");
    s
}

/// How long to wait, in milliseconds, from `now_ms` until `target_ms`; zero
/// when the target is not in the future.
pub fn wait_millis(now_ms: i64, target_ms: i64) -> (w: u64)
    ensures
        w == if target_ms > now_ms { (target_ms - now_ms) as u64 } else { 0u64 },
{
    if target_ms > now_ms {
        (target_ms as i128 - now_ms as i128) as u64
    } else {
        0
    }
}

} // verus!
