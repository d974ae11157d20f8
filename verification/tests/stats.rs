use dual_nback::game::{LevelChange, ModalityScore, Outcome, SessionResult};
use dual_nback::stats::{SECONDS_PER_DAY, chart_level_top, chart_start, History, SessionRecord, CHART_SESSIONS};

fn rec(n: usize, outcome: Outcome) -> SessionRecord {
    SessionRecord {
        ts_secs: 1_700_000_000,
        ts_subsec_nanos: 0,
        day: 738_000,
        n,
        position_pct: 50,
        audio_pct: 50,
        score: 50,
        trials: 24,
        outcome,
        manual: false,
    }
}

#[test]
fn best_level_counts_advances() {
    let history = History {
        records: vec![rec(2, Outcome::Stay), rec(3, Outcome::Advance), rec(3, Outcome::Stay)],
    };
    assert_eq!(history.best_level(), Some(4));
    assert_eq!(History::default().best_level(), None);
}

#[test]
fn sessions_are_counted_per_day() {
    let mut h = History::default();
    h.push(SessionRecord { day: 10, ..rec(2, Outcome::Stay) });
    h.push(SessionRecord { day: 11, ..rec(2, Outcome::Stay) });
    h.push(SessionRecord { day: 11, ..rec(2, Outcome::Stay) });
    assert_eq!(h.sessions_on(11), 2);
    assert_eq!(h.sessions_on(10), 1);
    assert_eq!(h.sessions_on(12), 0);
    // Records from long ago do not count as today.
    assert_eq!(h.sessions_today(), 0);
    h.clear();
    assert!(h.records.is_empty());
}

#[test]
fn average_covers_only_recent_sessions() {
    let mut h = History::default();
    h.push(SessionRecord { ts_secs: 1_000, score: 90, ..rec(2, Outcome::Stay) });
    h.push(SessionRecord { ts_secs: 2_000, score: 70, ..rec(2, Outcome::Stay) });
    h.push(SessionRecord { ts_secs: 3_000, score: 81, ..rec(2, Outcome::Stay) });
    assert_eq!(h.avg_score_after(1_000, 0), Some(75));
    assert_eq!(h.avg_score_after(0, 0), Some(80));
    assert_eq!(h.avg_score_after(3_000, 0), None);
    // The same window through the moment it ends at: 2 days before day 3.
    assert_eq!(h.avg_score_at(1_000 + 2 * 86_400, 0, 2), Some(75));
    // Sessions of 1970 are not within the past week.
    assert_eq!(h.avg_score_recent(7), None);
    let mut now = History::default();
    now.push(SessionRecord { ts_secs: i64::MAX, score: 64, ..rec(2, Outcome::Stay) });
    assert_eq!(now.avg_score_recent(7), Some(64));
}

#[test]
fn record_takes_percentages_from_the_result() {
    let result = SessionResult {
        n: 3,
        trials: 29,
        position: ModalityScore { hits: 3, misses: 1, false_alarms: 0, matches: 4 },
        audio: ModalityScore { hits: 1, misses: 1, false_alarms: 1, matches: 2 },
        score: 57,
    };
    let change = LevelChange { outcome: Outcome::Stay, n: 3, streak: 0 };
    let r = SessionRecord::from_result(&result, &change, true, 42, 9, 7);
    assert_eq!(r, SessionRecord {
        ts_secs: 42,
        ts_subsec_nanos: 9,
        day: 7,
        n: 3,
        position_pct: 75,
        audio_pct: 33,
        score: 57,
        trials: 29,
        outcome: Outcome::Stay,
        manual: true,
    });
}

#[test]
fn chart_shows_the_latest_forty_and_scales_levels() {
    assert_eq!(CHART_SESSIONS, 40);
    assert_eq!(chart_start(10), 0);
    assert_eq!(chart_start(40), 0);
    assert_eq!(chart_start(55), 15);
    assert_eq!(chart_level_top(&[]), 4);
    assert_eq!(chart_level_top(&[rec(1, Outcome::Stay), rec(2, Outcome::Stay)]), 4);
    assert_eq!(chart_level_top(&[rec(6, Outcome::Stay), rec(2, Outcome::Advance)]), 7);
}

#[test]
fn recent_average_uses_a_window_of_days_before_now() {
    let now = std::time::SystemTime::now()
        .duration_since(std::time::UNIX_EPOCH)
        .unwrap();
    let day = SECONDS_PER_DAY as i64;
    let secs = now.as_secs() as i64;
    let mut h = History::default();
    h.push(SessionRecord { ts_secs: secs - 6 * day, score: 60, ..rec(2, Outcome::Stay) });
    h.push(SessionRecord { ts_secs: secs - 8 * day, score: 10, ..rec(2, Outcome::Stay) });
    h.push(SessionRecord { ts_secs: secs - day / 2, score: 81, ..rec(2, Outcome::Stay) });
    assert_eq!(h.avg_score_recent(7), Some(70));
    assert_eq!(h.avg_score_recent(10), Some(50));
    assert_eq!(h.avg_score_recent(1), Some(81));
    // A negative window looks into the future.
    assert_eq!(h.avg_score_recent(-1), None);
    // The same windows at a fixed moment.
    assert_eq!(h.avg_score_at(secs, 0, 7), Some(70));
    assert_eq!(h.avg_score_at(secs, 0, 10), Some(50));
    assert_eq!(h.avg_score_at(secs + 2 * day, 0, 7), Some(81));
    assert_eq!(h.avg_score_at(secs, 0, 0), None);
}

#[test]
fn moments_compare_by_second_then_nanoseconds() {
    let mut h = History::default();
    h.push(SessionRecord { ts_secs: 10, ts_subsec_nanos: 1, score: 40, ..rec(2, Outcome::Stay) });
    // One nanosecond after the cutoff still counts.
    assert_eq!(h.avg_score_after(10, 0), Some(40));
    assert_eq!(h.avg_score_after(10, 1), None);
    // Within a leap second the nanoseconds pass 10^9 and stay in that second.
    let mut leap = History::default();
    leap.push(SessionRecord { ts_secs: 10, ts_subsec_nanos: 1_500_000_000, score: 30, ..rec(2, Outcome::Stay) });
    assert_eq!(leap.avg_score_after(11, 0), None);
    assert_eq!(leap.avg_score_after(10, 999_999_999), Some(30));
}
