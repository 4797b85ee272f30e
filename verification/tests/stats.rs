use openflow::stats::{pace_wpm, streak_from_days, streaks, word_count, Insights};

#[test]
fn counts_words_by_whitespace() {
    assert_eq!(word_count("  hello   world \n again "), 3);
    assert_eq!(word_count(""), 0);
}

fn days(list: &[&str]) -> Vec<String> {
    list.iter().map(|s| s.to_string()).collect()
}

#[test]
fn streaks_empty_is_zero() {
    assert_eq!(streaks(&[], "2026-06-13"), 0);
}

#[test]
fn streaks_single_today() {
    assert_eq!(streaks(&days(&["2026-06-13"]), "2026-06-13"), 1);
}

#[test]
fn streaks_cross_month_boundary() {
    assert_eq!(
        streaks(&days(&["2026-01-31", "2026-02-01"]), "2026-02-01"),
        2
    );
}

#[test]
fn streaks_run_ending_today() {
    assert_eq!(
        streaks(
            &days(&["2026-06-11", "2026-06-12", "2026-06-13"]),
            "2026-06-13"
        ),
        3
    );
}

#[test]
fn streaks_grace_when_today_missing_but_yesterday_present() {
    assert_eq!(
        streaks(&days(&["2026-06-11", "2026-06-12"]), "2026-06-13"),
        2
    );
}

#[test]
fn streaks_gap_resets_current() {
    assert_eq!(
        streaks(
            &days(&["2026-06-09", "2026-06-10", "2026-06-11"]),
            "2026-06-13"
        ),
        0
    );
}

#[test]
fn streaks_counts_only_the_run_reaching_today() {
    assert_eq!(
        streaks(
            &days(&[
                "2026-06-01",
                "2026-06-02",
                "2026-06-03",
                "2026-06-04",
                "2026-06-12",
                "2026-06-13",
            ]),
            "2026-06-13",
        ),
        2
    );
}

#[test]
fn streak_input_may_repeat_and_hold_garbage() {
    assert_eq!(
        streaks(
            &days(&["2026-06-13", "not a day", "2026-06-12", "2026-06-13"]),
            "2026-06-13"
        ),
        2
    );
    assert_eq!(streaks(&days(&["2026-06-13"]), "garbage"), 0);
    // A day after today means no current streak.
    assert_eq!(streaks(&days(&["2026-06-13", "2026-06-14"]), "2026-06-13"), 0);
}

#[test]
fn streak_from_day_numbers() {
    assert_eq!(streak_from_days(&[5, 3, 4, 4], Some(5)), 3);
    assert_eq!(streak_from_days(&[5, 3, 4], Some(6)), 3);
    assert_eq!(streak_from_days(&[5, 3, 4], Some(7)), 0);
    assert_eq!(streak_from_days(&[5], None), 0);
    assert_eq!(streak_from_days(&[i32::MIN], Some(i32::MIN)), 1);
}

#[test]
fn insights_is_a_plain_snapshot() {
    let i = Insights {
        words: 1200,
        dictations: 30,
        words_per_minute: 140,
        streak: 4,
    };
    assert_eq!(i, Insights { ..i });
}

#[test]
fn pace_guards_zero_duration() {
    assert_eq!(pace_wpm(100, 0), 0);
    assert_eq!(pace_wpm(120, 60_000), 120);
}

#[test]
fn pace_rounds_to_the_nearest_word() {
    assert_eq!(pace_wpm(100, 40_000), 150);
    assert_eq!(pace_wpm(1, 120_000), 1);
    assert_eq!(pace_wpm(1, 130_000), 0);
    assert_eq!(pace_wpm(u64::MAX, 1), u32::MAX);
}

#[test]
fn streak_ignores_order_and_repeated_days() {
    let shuffled: Vec<String> = ["2026-06-13", "2026-06-11", "2026-06-12", "2026-06-13", "2026-06-12"]
        .iter()
        .map(|s| s.to_string())
        .collect();
    let sorted: Vec<String> = ["2026-06-11", "2026-06-12", "2026-06-13"]
        .iter()
        .map(|s| s.to_string())
        .collect();
    assert_eq!(streaks(&shuffled, "2026-06-13"), 3);
    assert_eq!(streaks(&sorted, "2026-06-13"), 3);
    assert_eq!(streak_from_days(&[5, 3, 4, 5, 4], Some(5)), streak_from_days(&[3, 4, 5], Some(5)));
}

#[test]
fn streaks_follow_the_calendar_across_leap_days_and_years() {
    let leap: Vec<String> = ["2024-02-28", "2024-02-29", "2024-03-01"].iter().map(|s| s.to_string()).collect();
    assert_eq!(streaks(&leap, "2024-03-01"), 3);
    let common: Vec<String> = ["2023-02-28", "2023-03-01"].iter().map(|s| s.to_string()).collect();
    assert_eq!(streaks(&common, "2023-03-01"), 2);
    let new_year: Vec<String> = ["2025-12-31", "2026-01-01"].iter().map(|s| s.to_string()).collect();
    assert_eq!(streaks(&new_year, "2026-01-02"), 2);
    let gap: Vec<String> = ["2023-02-27", "2023-03-01"].iter().map(|s| s.to_string()).collect();
    assert_eq!(streaks(&gap, "2023-03-01"), 1);
}
