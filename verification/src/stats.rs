//! Stateless helpers for the lifetime Insights view: word counts and the
//! current consecutive-day dictation streak. Insights are aggregates only,
//! counts and dates, never transcripts or audio.
use vstd::prelude::*;
use crate::strs::{split_whitespace, to_chars, words};

verus! {

/// The read-only lifetime snapshot for the UI.
#[derive(Debug, Clone, Copy, PartialEq, Eq)]
pub struct Insights {
    pub words: u64,
    pub dictations: u64,
    /// Lifetime speaking pace (words per minute spoken); 0 with no duration.
    pub words_per_minute: u32,
    /// Current consecutive-day dictation streak, in days.
    pub streak: u32,
}

/// Counts whitespace-separated words. Good enough for a usage tally.
pub fn word_count(text: &str) -> (r: u64)
    ensures
        r == words(text@).len(),
{
    let v = to_chars(text);
    let w = split_whitespace(v.as_slice());
    proof {
        assert(w@.map_values(|x: Vec<char>| x@).len() == w@.len());
    }
    w.len() as u64
}

/// Words per minute over `record_ms` milliseconds of speech, rounded to the
/// nearest whole number (halves up); 0 with no duration.
pub open spec fn pace_spec(words: u64, record_ms: u64) -> int {
    if record_ms == 0 {
        0
    } else {
        (words * 120_000 + record_ms) / (2 * record_ms as int)
    }
}

/// Lifetime speaking pace (words per minute spoken), held at `u32::MAX`;
/// 0 with no recorded duration.
pub fn pace_wpm(words: u64, record_ms: u64) -> (r: u32)
    ensures
        r == (if pace_spec(words, record_ms) > u32::MAX {
            u32::MAX as int
        } else {
            pace_spec(words, record_ms)
        }),
{
    if record_ms == 0 {
        return 0;
    }
    let num: u128 = (words as u128) * 120_000 + (record_ms as u128);
    let den: u128 = 2 * (record_ms as u128);
    let q: u128 = num / den;
    if q > u32::MAX as u128 {
        u32::MAX
    } else {
        q as u32
    }
}

/// The day number (days from the common era, as `Datelike::num_days_from_ce`
/// counts them) of a `YYYY-MM-DD` string as `NaiveDate::parse_from_str`
/// reads it with the format `%Y-%m-%d`, or `None` where it does not parse.
pub uninterp spec fn day_number(s: Seq<char>) -> Option<i32>;

/// A leap year of the proleptic Gregorian calendar.
pub open spec fn is_leap_year(y: int) -> bool {
    (y % 4 == 0 && y % 100 != 0) || y % 400 == 0
}

/// The number of days of month `m` (1 to 12) of year `y`.
pub open spec fn days_in_month(y: int, m: int) -> int {
    if m == 2 {
        if is_leap_year(y) {
            29
        } else {
            28
        }
    } else if m == 4 || m == 6 || m == 9 || m == 11 {
        30
    } else {
        31
    }
}

/// The days of year `y` before month `m` (1 to 12) begins.
pub open spec fn days_before_month(y: int, m: int) -> int {
    let common: int = if m == 1 {
        0
    } else if m == 2 {
        31
    } else if m == 3 {
        59
    } else if m == 4 {
        90
    } else if m == 5 {
        120
    } else if m == 6 {
        151
    } else if m == 7 {
        181
    } else if m == 8 {
        212
    } else if m == 9 {
        243
    } else if m == 10 {
        273
    } else if m == 11 {
        304
    } else {
        334
    };
    common + if m > 2 && is_leap_year(y) {
        1int
    } else {
        0int
    }
}

/// The day of the proleptic Gregorian calendar counted with January 1 of
/// year 1 as day 1, as `Datelike::num_days_from_ce` is documented to count.
pub open spec fn days_from_ce(y: int, m: int, d: int) -> int {
    let p = y - 1;
    365 * p + p / 4 - p / 100 + p / 400 + days_before_month(y, m) + d
}

pub open spec fn digit_at(s: Seq<char>, i: int) -> bool {
    '0' <= s[i] && s[i] <= '9'
}

pub open spec fn digit_value(c: char) -> int {
    c as int - '0' as int
}

/// The date a string names in the form `YYYY-MM-DD` exactly (four, two and
/// two ASCII digits), where that date exists: `(year, month, day)`.
pub open spec fn calendar_date(s: Seq<char>) -> Option<(int, int, int)> {
    if s.len() == 10 && s[4] == '-' && s[7] == '-' && digit_at(s, 0) && digit_at(s, 1) && digit_at(
        s,
        2,
    ) && digit_at(s, 3) && digit_at(s, 5) && digit_at(s, 6) && digit_at(s, 8) && digit_at(s, 9) {
        let y = 1000 * digit_value(s[0]) + 100 * digit_value(s[1]) + 10 * digit_value(s[2])
            + digit_value(s[3]);
        let m = 10 * digit_value(s[5]) + digit_value(s[6]);
        let d = 10 * digit_value(s[8]) + digit_value(s[9]);
        if 1 <= m <= 12 && 1 <= d <= days_in_month(y, m) {
            Some((y, m, d))
        } else {
            None
        }
    } else {
        None
    }
}

/// The day number of the date a `YYYY-MM-DD` string names, where it names
/// one.
pub open spec fn date_number(s: Seq<char>) -> Option<int> {
    match calendar_date(s) {
        Some((y, m, d)) => Some(days_from_ce(y, m, d)),
        None => None,
    }
}

/// The calendar day after `(y, m, d)`.
pub open spec fn next_day(y: int, m: int, d: int) -> (int, int, int) {
    if d < days_in_month(y, m) {
        (y, m, d + 1)
    } else if m < 12 {
        (y, m + 1, 1)
    } else {
        (y + 1, 1, 1)
    }
}

proof fn lemma_year_step(y: int)
    ensures
        (y / 4 - (y - 1) / 4) - (y / 100 - (y - 1) / 100) + (y / 400 - (y - 1) / 400) == (if is_leap_year(
            y,
        ) {
            1int
        } else {
            0int
        }),
{
    assert(y / 4 - (y - 1) / 4 == (if y % 4 == 0 {
        1int
    } else {
        0int
    })) by (nonlinear_arith);
    assert(y / 100 - (y - 1) / 100 == (if y % 100 == 0 {
        1int
    } else {
        0int
    })) by (nonlinear_arith);
    assert(y / 400 - (y - 1) / 400 == (if y % 400 == 0 {
        1int
    } else {
        0int
    })) by (nonlinear_arith);
    assert(y % 400 == 0 ==> y % 100 == 0 && y % 4 == 0) by (nonlinear_arith);
    assert(y % 100 == 0 ==> y % 4 == 0) by (nonlinear_arith);
}

/// Consecutive calendar days have consecutive day numbers: the day after a
/// date is numbered one more, across month and year ends and February 29.
pub proof fn law_next_calendar_day_is_next_number(y: int, m: int, d: int)
    requires
        1 <= m <= 12,
        1 <= d <= days_in_month(y, m),
    ensures
        ({
            let (y2, m2, d2) = next_day(y, m, d);
            &&& 1 <= m2 <= 12
            &&& 1 <= d2 <= days_in_month(y2, m2)
            &&& days_from_ce(y2, m2, d2) == days_from_ce(y, m, d) + 1
        }),
{
    if d >= days_in_month(y, m) && m == 12 {
        lemma_year_step(y);
        assert(365 * y == 365 * (y - 1) + 365);
    }
}

/// The days before year `y` begins, counted from year 1.
pub open spec fn days_before_year(y: int) -> int {
    let p = y - 1;
    365 * p + p / 4 - p / 100 + p / 400
}

/// The length of year `y` in days.
pub open spec fn year_len(y: int) -> int {
    if is_leap_year(y) {
        366
    } else {
        365
    }
}

proof fn lemma_months_fit(y: int, m1: int, m2: int)
    requires
        1 <= m1 < m2 <= 12,
    ensures
        days_before_month(y, m1) + days_in_month(y, m1) <= days_before_month(y, m2),
{
}

proof fn lemma_month_in_year(y: int, m: int)
    requires
        1 <= m <= 12,
    ensures
        0 <= days_before_month(y, m),
        days_before_month(y, m) + days_in_month(y, m) <= year_len(y),
{
}

proof fn lemma_years_fit(y1: int, y2: int)
    requires
        y1 < y2,
    ensures
        days_before_year(y1) + year_len(y1) <= days_before_year(y2),
{
    lemma_year_step(y1);
    assert(days_before_year(y1 + 1) == days_before_year(y1) + year_len(y1)) by {
        assert(365 * y1 == 365 * (y1 - 1) + 365);
    }
    let a = y1;
    let b = y2 - 1;
    assert(a / 4 <= b / 4) by (nonlinear_arith)
        requires
            a <= b,
    ;
    assert(a / 400 <= b / 400) by (nonlinear_arith)
        requires
            a <= b,
    ;
    assert(b / 100 - a / 100 <= b - a) by (nonlinear_arith)
        requires
            a <= b,
    ;
    assert(365 * b - 365 * a == 365 * (b - a)) by (nonlinear_arith);
}

/// Day numbers follow the calendar: of two dates, the later one has the
/// larger number, so distinct dates have distinct numbers.
pub proof fn law_day_numbers_follow_dates(y1: int, m1: int, d1: int, y2: int, m2: int, d2: int)
    requires
        1 <= m1 <= 12,
        1 <= d1 <= days_in_month(y1, m1),
        1 <= m2 <= 12,
        1 <= d2 <= days_in_month(y2, m2),
        y1 < y2 || (y1 == y2 && m1 < m2) || (y1 == y2 && m1 == m2 && d1 < d2),
    ensures
        days_from_ce(y1, m1, d1) < days_from_ce(y2, m2, d2),
{
    assert(days_from_ce(y1, m1, d1) == days_before_year(y1) + days_before_month(y1, m1) + d1);
    assert(days_from_ce(y2, m2, d2) == days_before_year(y2) + days_before_month(y2, m2) + d2);
    lemma_month_in_year(y1, m1);
    lemma_month_in_year(y2, m2);
    if y1 < y2 {
        lemma_years_fit(y1, y2);
    } else if m1 < m2 {
        lemma_months_fit(y1, m1, m2);
    }
}

/// Parses a day with chrono (`NaiveDate::parse_from_str` with the format
/// `%Y-%m-%d`) and numbers it by `Datelike::num_days_from_ce`. The contract
/// names the result, and claims one thing more: a string that is exactly
/// `YYYY-MM-DD` naming a date that exists parses to that date, numbered as
/// chrono documents `num_days_from_ce` (days of the proleptic Gregorian
/// calendar, January 1 of year 1 being day 1). What chrono makes of other
/// strings is left to the name.
#[verifier::external_body]
fn parse_day(s: &str) -> (r: Option<i32>)
    ensures
        r == day_number(s@),
        date_number(s@) is Some ==> r is Some && r->0 == date_number(s@)->0,
{
    match chrono::NaiveDate::parse_from_str(s, "%Y-%m-%d") {
        Ok(d) => Some(chrono::Datelike::num_days_from_ce(&d)),
        Err(_) => None,
    }
}

/// `x` is one of the days.
pub open spec fn day_present(ds: Seq<i32>, x: int) -> bool {
    exists|i: int| 0 <= i < ds.len() && ds[i] == x
}

/// `x` is the most recent of the days.
pub open spec fn is_latest(ds: Seq<i32>, x: int) -> bool {
    day_present(ds, x) && forall|i: int| 0 <= i < ds.len() ==> ds[i] <= x
}

/// The number of consecutive days ending at `x` that are all present (at
/// most `fuel`; a run of distinct days is never longer than the list).
pub open spec fn run_len(ds: Seq<i32>, x: int, fuel: nat) -> nat
    decreases fuel,
{
    if fuel == 0 || !day_present(ds, x) {
        0
    } else {
        1 + run_len(ds, x - 1, (fuel - 1) as nat)
    }
}

/// The current streak: the run of consecutive days ending at the most recent
/// day, counted only where that day is today or yesterday (a grace day, so
/// the streak does not read as broken before the first dictation of the
/// day). No such run, no days, or no valid today: 0.
pub open spec fn streak_spec(ds: Seq<i32>, today: Option<i32>) -> nat {
    match today {
        None => 0,
        Some(t) => if is_latest(ds, t as int) {
            run_len(ds, t as int, ds.len())
        } else if is_latest(ds, t - 1) {
            run_len(ds, t - 1, ds.len())
        } else {
            0
        },
    }
}

/// The streak as a `u32`, saturating.
pub open spec fn capped(n: nat) -> u32 {
    if n > u32::MAX {
        u32::MAX
    } else {
        n as u32
    }
}

fn contains_day(ds: &[i32], x: i64) -> (r: bool)
    ensures
        r == day_present(ds@, x as int),
{
    let mut i: usize = 0;
    while i < ds.len()
        invariant
            i <= ds@.len(),
            forall|j: int| 0 <= j < i ==> ds@[j] != x,
        decreases ds@.len() - i,
    {
        if ds[i] as i64 == x {
            return true;
        }
        i = i + 1;
    }
    false
}

/// The current streak from day numbers (duplicates allowed, any order) and
/// today's day number.
pub fn streak_from_days(ds: &[i32], today: Option<i32>) -> (r: u32)
    ensures
        r == capped(streak_spec(ds@, today)),
{
    let t = match today {
        Some(t) => t,
        None => {
            return 0;
        },
    };
    if ds.len() == 0 {
        return 0;
    }
    let mut last: i32 = ds[0];
    let mut i: usize = 1;
    while i < ds.len()
        invariant
            1 <= i <= ds@.len(),
            day_present(ds@, last as int),
            forall|j: int| 0 <= j < i ==> ds@[j] <= last,
        decreases ds@.len() - i,
    {
        if ds[i] > last {
            last = ds[i];
        }
        i = i + 1;
    }
    assert(is_latest(ds@, last as int));
    let start: i64 = if last as i64 == t as i64 {
        t as i64
    } else if last as i64 == t as i64 - 1 {
        t as i64 - 1
    } else {
        proof {
            if is_latest(ds@, t as int) || is_latest(ds@, t - 1) {
                let k = choose|k: int| 0 <= k < ds@.len() && ds@[k] == last;
                assert(ds@[k] <= t || ds@[k] <= t - 1);
            }
        }
        return 0;
    };
    proof {
        if start == t - 1 {
            assert(!is_latest(ds@, t as int));
        }
    }
    let mut x: i64 = start;
    let mut fuel: usize = ds.len();
    let mut count: u64 = 0;
    while fuel > 0 && contains_day(ds, x)
        invariant
            fuel <= ds@.len(),
            count + fuel == ds@.len(),
            x == start - count,
            i32::MIN - 1 <= x <= i32::MAX,
            start <= i32::MAX,
            run_len(ds@, start as int, ds@.len() as nat) == count + run_len(ds@, x as int, fuel as nat),
        decreases fuel,
    {
        proof {
            let k = choose|k: int| 0 <= k < ds@.len() && ds@[k] == x;
            assert(ds@[k] >= i32::MIN);
        }
        count = count + 1;
        x = x - 1;
        fuel = fuel - 1;
    }
    if count > u32::MAX as u64 {
        u32::MAX
    } else {
        count as u32
    }
}

/// The distinct days of a list, as integers.
pub open spec fn day_set(ds: Seq<i32>) -> Set<int> {
    ds.map_values(|d: i32| d as int).to_set()
}

proof fn lemma_run_len_mono(ds: Seq<i32>, x: int, f: nat)
    ensures
        run_len(ds, x, f) <= run_len(ds, x, f + 1),
        run_len(ds, x, f) <= f,
    decreases f,
{
    if f > 0 && day_present(ds, x) {
        lemma_run_len_mono(ds, x - 1, (f - 1) as nat);
    }
}

proof fn lemma_run_len_saturates(ds: Seq<i32>, x: int, f: nat, g: nat)
    requires
        run_len(ds, x, f) < f,
        f <= g,
    ensures
        run_len(ds, x, g) == run_len(ds, x, f),
    decreases f,
{
    if day_present(ds, x) {
        lemma_run_len_saturates(ds, x - 1, (f - 1) as nat, (g - 1) as nat);
    }
}

proof fn lemma_run_present(ds: Seq<i32>, x: int, f: nat, i: int)
    requires
        0 <= i < run_len(ds, x, f),
    ensures
        day_present(ds, x - i),
    decreases f,
{
    if i > 0 {
        lemma_run_present(ds, x - 1, (f - 1) as nat, i - 1);
    }
}

/// A run of consecutive days is never longer than the number of distinct
/// days, which is never more than the length of the list.
proof fn lemma_run_len_bounded(ds: Seq<i32>, x: int, f: nat)
    ensures
        run_len(ds, x, f) <= day_set(ds).len(),
        day_set(ds).len() <= ds.len(),
        day_set(ds).finite(),
{
    let r = run_len(ds, x, f);
    let s = ds.map_values(|d: i32| d as int);
    s.lemma_cardinality_of_set();
    vstd::seq_lib::seq_to_set_is_finite(s);
    lemma_run_len_mono(ds, x, f);
    vstd::set_lib::lemma_int_range(x - r + 1, x + 1);
    assert(vstd::set_lib::set_int_range(x - r + 1, x + 1).subset_of(s.to_set())) by {
        assert forall|v: int| vstd::set_lib::set_int_range(x - r + 1, x + 1).contains(v) implies s.to_set().contains(v) by {
            lemma_run_present(ds, x, f, x - v);
            let k = choose|k: int| 0 <= k < ds.len() && ds[k] == x - (x - v);
            assert(s[k] == v);
            assert(s.contains(v));
        }
    }
    vstd::set_lib::lemma_len_subset(vstd::set_lib::set_int_range(x - r + 1, x + 1), s.to_set());
}

proof fn lemma_run_len_at_set_size(ds: Seq<i32>, x: int, g: nat)
    requires
        g >= day_set(ds).len(),
    ensures
        run_len(ds, x, g) == run_len(ds, x, day_set(ds).len()),
{
    let c = day_set(ds).len();
    lemma_run_len_bounded(ds, x, c + 1);
    if g >= c + 1 {
        lemma_run_len_saturates(ds, x, c + 1, g);
    }
    lemma_run_len_mono(ds, x, c);
    if run_len(ds, x, c) < c {
        lemma_run_len_saturates(ds, x, c, c + 1);
    }
}

proof fn lemma_run_len_same_days(a: Seq<i32>, b: Seq<i32>, x: int, f: nat)
    requires
        forall|v: int| day_present(a, v) <==> day_present(b, v),
    ensures
        run_len(a, x, f) == run_len(b, x, f),
    decreases f,
{
    if f > 0 && day_present(a, x) {
        lemma_run_len_same_days(a, b, x - 1, (f - 1) as nat);
    }
}

/// The streak depends only on which days occur: neither the order of the
/// list nor repeated days change it.
pub proof fn law_streak_depends_only_on_the_days(a: Seq<i32>, b: Seq<i32>, today: Option<i32>)
    requires
        forall|x: int| day_present(a, x) <==> day_present(b, x),
    ensures
        streak_spec(a, today) == streak_spec(b, today),
{
    assert forall|x: int| is_latest(a, x) <==> is_latest(b, x) by {
        if is_latest(a, x) {
            assert forall|i: int| 0 <= i < b.len() implies b[i] <= x by {
                assert(day_present(b, b[i] as int));
                let k = choose|k: int| 0 <= k < a.len() && a[k] == b[i];
            }
        }
        if is_latest(b, x) {
            assert forall|i: int| 0 <= i < a.len() implies a[i] <= x by {
                assert(day_present(a, a[i] as int));
                let k = choose|k: int| 0 <= k < b.len() && b[k] == a[i];
            }
        }
    }
    assert(day_set(a) =~= day_set(b)) by {
        let sa = a.map_values(|d: i32| d as int);
        let sb = b.map_values(|d: i32| d as int);
        assert forall|v: int| sa.to_set().contains(v) <==> sb.to_set().contains(v) by {
            if sa.contains(v) {
                let k = choose|k: int| 0 <= k < sa.len() && sa[k] == v;
                assert(day_present(a, v));
                let m = choose|m: int| 0 <= m < b.len() && b[m] == v;
                assert(sb[m] == v);
            }
            if sb.contains(v) {
                let k = choose|k: int| 0 <= k < sb.len() && sb[k] == v;
                assert(day_present(b, v));
                let m = choose|m: int| 0 <= m < a.len() && a[m] == v;
                assert(sa[m] == v);
            }
        }
    }
    if let Some(t) = today {
        let c = day_set(a).len();
        lemma_run_len_bounded(a, t as int, 0);
        lemma_run_len_bounded(b, t as int, 0);
        lemma_run_len_at_set_size(a, t as int, a.len());
        lemma_run_len_at_set_size(b, t as int, b.len());
        lemma_run_len_same_days(a, b, t as int, c);
        lemma_run_len_at_set_size(a, t - 1, a.len());
        lemma_run_len_at_set_size(b, t - 1, b.len());
        lemma_run_len_same_days(a, b, t - 1, c);
    }
}

/// The day numbers of the strings that parse, in order.
pub open spec fn parsed_days(days: Seq<String>) -> Seq<i32>
    decreases days.len(),
{
    if days.len() == 0 {
        Seq::empty()
    } else {
        match day_number(days.last()@) {
            Some(d) => parsed_days(days.drop_last()).push(d),
            None => parsed_days(days.drop_last()),
        }
    }
}

/// A calendar date `(year, month, day)` that exists.
pub open spec fn valid_date(a: (int, int, int)) -> bool {
    1 <= a.1 <= 12 && 1 <= a.2 <= days_in_month(a.0, a.1)
}

pub open spec fn day_of(a: (int, int, int)) -> int {
    days_from_ce(a.0, a.1, a.2)
}

/// `a` comes before `b` in the calendar.
pub open spec fn date_before(a: (int, int, int), b: (int, int, int)) -> bool {
    a.0 < b.0 || (a.0 == b.0 && a.1 < b.1) || (a.0 == b.0 && a.1 == b.1 && a.2 < b.2)
}

/// The calendar day before `a`.
pub open spec fn prev_day(a: (int, int, int)) -> (int, int, int) {
    if a.2 > 1 {
        (a.0, a.1, a.2 - 1)
    } else if a.1 > 1 {
        (a.0, a.1 - 1, days_in_month(a.0, a.1 - 1))
    } else {
        (a.0 - 1, 12, 31)
    }
}

/// `a` is one of the dates.
pub open spec fn date_listed(dates: Seq<(int, int, int)>, a: (int, int, int)) -> bool {
    exists|i: int| 0 <= i < dates.len() && dates[i] == a
}

/// `a` is the latest of the dates.
pub open spec fn is_latest_date(dates: Seq<(int, int, int)>, a: (int, int, int)) -> bool {
    date_listed(dates, a) && forall|i: int| 0 <= i < dates.len() ==> !date_before(a, #[trigger] dates[i])
}

/// The run of consecutive calendar days, all listed, that ends at `a` (at
/// most `fuel` of them).
pub open spec fn calendar_run(dates: Seq<(int, int, int)>, a: (int, int, int), fuel: nat) -> nat
    decreases fuel,
{
    if fuel == 0 || !date_listed(dates, a) {
        0
    } else {
        1 + calendar_run(dates, prev_day(a), (fuel - 1) as nat)
    }
}

/// The streak told in calendar days: the run of consecutive listed days
/// ending at the latest listed day, where that day is today or yesterday;
/// otherwise 0.
pub open spec fn calendar_streak(dates: Seq<(int, int, int)>, today: (int, int, int)) -> nat {
    if is_latest_date(dates, today) {
        calendar_run(dates, today, dates.len())
    } else if is_latest_date(dates, prev_day(today)) {
        calendar_run(dates, prev_day(today), dates.len())
    } else {
        0
    }
}

proof fn lemma_prev_day(a: (int, int, int))
    requires
        valid_date(a),
    ensures
        valid_date(prev_day(a)),
        day_of(prev_day(a)) + 1 == day_of(a),
{
    let p = prev_day(a);
    law_next_calendar_day_is_next_number(p.0, p.1, p.2);
    assert(next_day(p.0, p.1, p.2) == a);
}

proof fn lemma_day_order(a: (int, int, int), b: (int, int, int))
    requires
        valid_date(a),
        valid_date(b),
    ensures
        day_of(a) <= day_of(b) <==> !date_before(b, a),
        day_of(a) == day_of(b) <==> a == b,
{
    if date_before(b, a) {
        law_day_numbers_follow_dates(b.0, b.1, b.2, a.0, a.1, a.2);
    } else if date_before(a, b) {
        law_day_numbers_follow_dates(a.0, a.1, a.2, b.0, b.1, b.2);
    }
}

proof fn lemma_run_by_dates(ds: Seq<i32>, dates: Seq<(int, int, int)>, a: (int, int, int), f: nat)
    requires
        ds.len() == dates.len(),
        forall|i: int| 0 <= i < dates.len() ==> valid_date(#[trigger] dates[i]) && ds[i] == day_of(
            dates[i],
        ),
        valid_date(a),
    ensures
        run_len(ds, day_of(a), f) == calendar_run(dates, a, f),
        day_present(ds, day_of(a)) <==> date_listed(dates, a),
    decreases f,
{
    if day_present(ds, day_of(a)) {
        let i = choose|i: int| 0 <= i < ds.len() && ds[i] == day_of(a);
        assert(valid_date(dates[i]));
        lemma_day_order(dates[i], a);
    }
    if date_listed(dates, a) {
        let i = choose|i: int| 0 <= i < dates.len() && dates[i] == a;
        assert(valid_date(dates[i]));
    }
    if f > 0 && date_listed(dates, a) {
        lemma_prev_day(a);
        lemma_run_by_dates(ds, dates, prev_day(a), (f - 1) as nat);
    }
}

proof fn lemma_latest_by_dates(ds: Seq<i32>, dates: Seq<(int, int, int)>, a: (int, int, int))
    requires
        ds.len() == dates.len(),
        forall|i: int| 0 <= i < dates.len() ==> valid_date(#[trigger] dates[i]) && ds[i] == day_of(
            dates[i],
        ),
        valid_date(a),
    ensures
        is_latest(ds, day_of(a)) <==> is_latest_date(dates, a),
{
    lemma_run_by_dates(ds, dates, a, 0);
    if is_latest(ds, day_of(a)) {
        assert forall|i: int| 0 <= i < dates.len() implies !date_before(a, #[trigger] dates[i]) by {
            assert(valid_date(dates[i]));
            lemma_day_order(dates[i], a);
            assert(ds[i] <= day_of(a));
        }
    }
    if is_latest_date(dates, a) {
        assert forall|i: int| 0 <= i < ds.len() implies #[trigger] ds[i] <= day_of(a) by {
            assert(valid_date(dates[i]));
            lemma_day_order(dates[i], a);
            assert(!date_before(a, dates[i]));
        }
    }
}

/// Read in calendar days, the streak over day numbers is the run of
/// consecutive listed days ending at the latest listed day, where that day
/// is today or yesterday: for dates given with their day numbers, the two
/// agree.
pub proof fn law_streak_counts_calendar_days(ds: Seq<i32>, dates: Seq<(int, int, int)>, today: (
    int,
    int,
    int,
), t: i32)
    requires
        ds.len() == dates.len(),
        forall|i: int| 0 <= i < dates.len() ==> valid_date(#[trigger] dates[i]) && ds[i] == day_of(
            dates[i],
        ),
        valid_date(today),
        t == day_of(today),
    ensures
        streak_spec(ds, Some(t)) == calendar_streak(dates, today),
{
    lemma_prev_day(today);
    let y = prev_day(today);
    lemma_latest_by_dates(ds, dates, today);
    lemma_latest_by_dates(ds, dates, y);
    lemma_run_by_dates(ds, dates, today, ds.len() as nat);
    lemma_run_by_dates(ds, dates, y, ds.len() as nat);
    assert(t - 1 == day_of(y));
}

proof fn lemma_calendar_date_valid(s: Seq<char>)
    ensures
        calendar_date(s) is Some ==> valid_date(calendar_date(s)->0) && date_number(s) is Some
            && date_number(s)->0 == day_of(calendar_date(s)->0),
        date_number(s) is Some ==> calendar_date(s) is Some,
{
}

proof fn lemma_parsed_calendar_days(days: Seq<String>)
    requires
        forall|i: int|
            0 <= i < days.len() ==> (#[trigger] date_number(days[i]@)) is Some && day_number(
                days[i]@,
            ) is Some && day_number(days[i]@)->0 == date_number(days[i]@)->0,
    ensures
        parsed_days(days).len() == days.len(),
        forall|i: int|
            #![trigger days[i]]
            0 <= i < days.len() ==> valid_date(calendar_date(days[i]@)->0) && parsed_days(days)[i]
                == day_of(calendar_date(days[i]@)->0),
    decreases days.len(),
{
    if days.len() > 0 {
        let f = days.drop_last();
        assert forall|i: int| 0 <= i < f.len() implies (#[trigger] date_number(f[i]@)) is Some
            && day_number(f[i]@) is Some && day_number(f[i]@)->0 == date_number(f[i]@)->0 by {
            assert(f[i] == days[i]);
            assert(date_number(days[i]@) is Some);
        }
        lemma_parsed_calendar_days(f);
        let n = days.len() - 1;
        assert(date_number(days[n]@) is Some);
        assert(days.last() == days[n]);
        assert(parsed_days(days) == parsed_days(f).push(day_number(days[n]@)->0));
        assert forall|i: int|
            #![trigger days[i]]
            0 <= i < days.len() implies valid_date(calendar_date(days[i]@)->0) && parsed_days(days)[i]
                == day_of(calendar_date(days[i]@)->0) by {
            assert(date_number(days[i]@) is Some);
            lemma_calendar_date_valid(days[i]@);
            if i < n {
                assert(f[i] == days[i]);
                assert(valid_date(calendar_date(f[i]@)->0));
                assert(parsed_days(days)[i] == parsed_days(f)[i]);
            }
        }
    }
}

/// What `streaks` returns for well-formed `YYYY-MM-DD` strings (whose day
/// numbers `streaks` ensures are the calendar's): the run of consecutive
/// calendar days among them ending at the latest, counted where that day is
/// today or yesterday, and otherwise 0.
pub proof fn law_streaks_count_calendar_days(days: Seq<String>, today: Seq<char>)
    requires
        forall|i: int|
            0 <= i < days.len() ==> (#[trigger] date_number(days[i]@)) is Some && day_number(
                days[i]@,
            ) is Some && day_number(days[i]@)->0 == date_number(days[i]@)->0,
        date_number(today) is Some,
        day_number(today) is Some && day_number(today)->0 == date_number(today)->0,
    ensures
        streak_spec(parsed_days(days), day_number(today)) == calendar_streak(
            days.map_values(|s: String| calendar_date(s@)->0),
            calendar_date(today)->0,
        ),
{
    lemma_parsed_calendar_days(days);
    let dates = days.map_values(|s: String| calendar_date(s@)->0);
    let ds = parsed_days(days);
    assert forall|i: int| 0 <= i < dates.len() implies valid_date(#[trigger] dates[i]) && ds[i]
        == day_of(dates[i]) by {
        assert(dates[i] == calendar_date(days[i]@)->0);
        assert(date_number(days[i]@) is Some);
        lemma_calendar_date_valid(days[i]@);
    }
    law_streak_counts_calendar_days(ds, dates, calendar_date(today)->0, day_number(today)->0);
}

/// The current consecutive-day dictation streak, in days, from `YYYY-MM-DD`
/// day strings and today's local day string. Strings that do not parse are
/// skipped; the input need be neither sorted nor free of duplicates.
pub fn streaks(days: &[String], today: &str) -> (r: u32)
    ensures
        r == capped(streak_spec(parsed_days(days@), day_number(today@))),
        forall|i: int|
            0 <= i < days@.len() && (#[trigger] date_number(days@[i]@)) is Some ==> day_number(
                days@[i]@,
            ) is Some && day_number(days@[i]@)->0 == date_number(days@[i]@)->0,
        date_number(today@) is Some ==> day_number(today@) is Some && day_number(today@)->0
            == date_number(today@)->0,
{
    let mut parsed: Vec<i32> = Vec::new();
    let mut i: usize = 0;
    while i < days.len()
        invariant
            i <= days@.len(),
            parsed@ == parsed_days(days@.take(i as int)),
            forall|j: int|
                0 <= j < i && (#[trigger] date_number(days@[j]@)) is Some ==> day_number(days@[j]@)
                    is Some && day_number(days@[j]@)->0 == date_number(days@[j]@)->0,
        decreases days@.len() - i,
    {
        proof {
            assert(days@.take(i + 1).drop_last() =~= days@.take(i as int));
        }
        match parse_day(days[i].as_str()) {
            Some(d) => parsed.push(d),
            None => {},
        }
        i = i + 1;
    }
    assert(days@.take(i as int) =~= days@);
    let t = parse_day(today);
    streak_from_days(parsed.as_slice(), t)
}

} // verus!
