use dual_nback::game::{
    decide_level, position_cell, score_band, ScoreBand, LevelChange, ModalityScore, Outcome, Press, SessionConfig,
    TickEvent, Trial, STIM_VALUES,
};
use dual_nback::session::Session;
use dual_nback::stimuli::{generate_stream, generate_trials, lure_candidates, pick_stim};
use rand::rngs::StdRng;
use rand::SeedableRng;

fn test_cfg(n: usize, total: usize) -> SessionConfig {
    SessionConfig { n, total_trials: total, trial_ms: 100, stim_ms: 50 }
}

fn trial(position: u8, letter: u8) -> Trial {
    Trial { position, letter }
}

#[test]
fn position_cell_skips_center() {
    let cells: Vec<usize> = (0..STIM_VALUES).map(position_cell).collect();
    assert_eq!(cells, vec![0, 1, 2, 3, 5, 6, 7, 8]);
}

#[test]
fn generates_requested_trials_in_range() {
    let mut rng = StdRng::seed_from_u64(7);
    let trials = generate_trials(2, 24, &mut rng);
    assert_eq!(trials.len(), 24);
    assert!(trials.iter().all(|t| t.position < STIM_VALUES && t.letter < STIM_VALUES));
}

#[test]
fn match_rate_is_near_brain_workshop_expectation() {
    // Forced matches (12.5%) plus accidental ones (~7/8 · 7/8 · 1/8)
    // should put the long-run match rate near 22%.
    let mut rng = StdRng::seed_from_u64(42);
    let n = 2;
    let seq = generate_stream(n, 20_000, &mut rng);
    let matches = (n..seq.len()).filter(|&i| seq[i] == seq[i - n]).count();
    let rate = matches as f64 / (seq.len() - n) as f64;
    assert!((0.18..0.27).contains(&rate), "match rate {rate} out of range");
}

#[test]
fn scores_a_scripted_session() {
    let cfg = test_cfg(2, 5);
    let trials = vec![trial(0, 5), trial(1, 5), trial(0, 5), trial(2, 6), trial(2, 7)];
    let mut s = Session::with_trials(cfg, trials);
    let mut events = Vec::new();

    assert_eq!(s.start(), TickEvent::TrialStarted(0));
    // Warm-up press: locked in but never scored.
    assert_eq!(s.press_position(), Some(Press::Unscored));
    assert_eq!(s.press_position(), None);

    s.tick(100, &mut events);
    assert_eq!(events, vec![TickEvent::TrialStarted(1)]);
    events.clear();

    s.tick(100, &mut events);
    assert_eq!(events, vec![TickEvent::TrialStarted(2)]);
    events.clear();
    // Trial 2: both modalities match. Catch position, ignore audio.
    assert_eq!(s.press_position(), Some(Press::Correct));

    s.tick(100, &mut events);
    assert_eq!(events, vec![TickEvent::MissedAudio, TickEvent::TrialStarted(3)]);
    events.clear();
    // Trial 3: no match anywhere; this press is a false alarm.
    assert_eq!(s.press_audio(), Some(Press::Wrong));

    s.tick(100, &mut events);
    assert_eq!(events, vec![TickEvent::TrialStarted(4)]);
    events.clear();

    s.tick(100, &mut events);
    assert_eq!(events, vec![TickEvent::SessionEnded]);
    assert!(s.finished());

    assert_eq!(s.position, ModalityScore { hits: 1, misses: 0, false_alarms: 0, matches: 1 });
    assert_eq!(s.audio, ModalityScore { hits: 0, misses: 1, false_alarms: 1, matches: 1 });

    let result = s.result();
    assert_eq!(s.position.percent(), 100);
    assert_eq!(s.audio.percent(), 0);
    // Combined: 1 right, 2 wrong → floor(100/3).
    assert_eq!(result.score, 33);
}

#[test]
fn percent_floors_and_handles_empty() {
    let empty = ModalityScore::default();
    assert_eq!(empty.percent(), 0);
    let one_of_three = ModalityScore { hits: 1, misses: 1, false_alarms: 1, matches: 2 };
    assert_eq!(one_of_three.percent(), 33);
}

#[test]
fn several_trials_can_elapse_in_one_tick() {
    let cfg = test_cfg(1, 3);
    let trials = vec![trial(0, 0), trial(1, 1), trial(2, 2)];
    let mut s = Session::with_trials(cfg, trials);
    let mut events = Vec::new();
    s.start();
    s.tick(350, &mut events);
    assert!(s.finished());
    assert_eq!(
        events,
        vec![TickEvent::TrialStarted(1), TickEvent::TrialStarted(2), TickEvent::SessionEnded]
    );
}

#[test]
fn leveling_follows_brain_workshop_rules() {
    // Advance resets the strike counter.
    let up = decide_level(2, 85, 80, 50, 3, 2);
    assert_eq!(up, LevelChange { outcome: Outcome::Advance, n: 3, streak: 0 });

    // Mid-range scores keep the counter as-is (no reset).
    let mid = decide_level(2, 60, 80, 50, 3, 2);
    assert_eq!(mid, LevelChange { outcome: Outcome::Stay, n: 2, streak: 2 });

    // Below-fallback scores accumulate strikes…
    let strike1 = decide_level(2, 40, 80, 50, 3, 0);
    assert_eq!(strike1, LevelChange { outcome: Outcome::Stay, n: 2, streak: 1 });

    // …and the third strike drops the level.
    let drop = decide_level(2, 40, 80, 50, 3, 2);
    assert_eq!(drop, LevelChange { outcome: Outcome::Fallback, n: 1, streak: 0 });

    // n = 1 never falls further and accrues no strikes.
    let floor = decide_level(1, 10, 80, 50, 3, 1);
    assert_eq!(floor, LevelChange { outcome: Outcome::Stay, n: 1, streak: 1 });

    // fallback_sessions = 1 drops immediately.
    let instant = decide_level(3, 20, 80, 50, 1, 0);
    assert_eq!(instant, LevelChange { outcome: Outcome::Fallback, n: 2, streak: 0 });
}

#[test]
fn three_low_sessions_in_a_row_drop_one_level() {
    let mut n = 4;
    let mut streak = 0;
    let mut outcomes = Vec::new();
    for _ in 0..3 {
        let c = decide_level(n, 30, 80, 50, 3, streak);
        n = c.n;
        streak = c.streak;
        outcomes.push(c.outcome);
    }
    assert_eq!(outcomes, vec![Outcome::Stay, Outcome::Stay, Outcome::Fallback]);
    assert_eq!((n, streak), (3, 0));
}

#[test]
fn split_ticks_match_one_tick() {
    let trials = vec![trial(0, 0), trial(1, 0), trial(0, 1), trial(3, 1), trial(3, 2)];
    let mut a = Session::with_trials(test_cfg(2, 5), trials.clone());
    let mut b = Session::with_trials(test_cfg(2, 5), trials);
    a.start();
    b.start();
    let mut ea = Vec::new();
    let mut eb = Vec::new();
    a.tick(130, &mut ea);
    a.tick(170, &mut ea);
    b.tick(300, &mut eb);
    assert_eq!(ea, eb);
    assert_eq!(a.index(), b.index());
    assert_eq!(a.index(), 3);
    assert_eq!(a.elapsed_in_trial(), 0);
    // Trials 0 and 1 are warm-up; trial 2 repeats trial 0's position.
    assert_eq!(ea, vec![
        TickEvent::TrialStarted(1),
        TickEvent::TrialStarted(2),
        TickEvent::MissedPosition,
        TickEvent::TrialStarted(3),
    ]);
    assert_eq!(a.position, b.position);
    assert_eq!(a.audio, b.audio);
}

#[test]
fn presses_are_ignored_before_start_and_after_end() {
    let mut s = Session::with_trials(test_cfg(1, 2), vec![trial(0, 0), trial(0, 0)]);
    assert_eq!(s.press_position(), None);
    assert_eq!(s.press_audio(), None);
    s.start();
    let mut ev = Vec::new();
    s.tick(100, &mut ev);
    assert_eq!(s.press_audio(), Some(Press::Correct));
    assert_eq!(s.press_audio(), None);
    s.tick(100, &mut ev);
    assert!(s.finished());
    assert_eq!(s.press_position(), None);
    // The unanswered position match of the last trial was a miss.
    assert_eq!(ev, vec![TickEvent::TrialStarted(1), TickEvent::MissedPosition, TickEvent::SessionEnded]);
    assert_eq!(s.position, ModalityScore { hits: 0, misses: 1, false_alarms: 0, matches: 1 });
    assert_eq!(s.audio, ModalityScore { hits: 1, misses: 0, false_alarms: 0, matches: 1 });
    // Further time changes nothing after the end.
    let mut more = Vec::new();
    s.tick(1000, &mut more);
    assert!(more.is_empty());
    let r = s.result();
    assert_eq!((r.n, r.trials, r.score), (1, 2, 50));
}

#[test]
fn time_left_in_trial_carries_over() {
    let mut s = Session::with_trials(test_cfg(1, 4), vec![trial(0, 0); 4]);
    s.start();
    let mut ev = Vec::new();
    s.tick(40, &mut ev);
    assert!(ev.is_empty());
    assert_eq!(s.elapsed_in_trial(), 40);
    s.tick(70, &mut ev);
    assert_eq!(s.elapsed_in_trial(), 10);
    assert_eq!(s.index(), 1);
    assert_eq!(s.current_trial(), trial(0, 0));
    assert!(s.is_position_match(1));
    assert!(!s.is_audio_match(0));
}

#[test]
fn lures_differ_from_the_target_and_come_in_order() {
    // seq: ... 2n-back = 4, (n+1)-back = 5, n-back (target) = 6, (n-1)-back = 7 (n = 3)
    let seq = [4, 9, 5, 6, 7, 1];
    // i = 6, target = seq[3] = 6; n-1 = 2 -> seq[4] = 7; n+1 = 4 -> seq[2] = 5; 2n = 6 -> seq[0] = 4
    assert_eq!(lure_candidates(&seq, 3), vec![7, 5, 4]);
    // A lure equal to the target is dropped; a lure further back than the stream is skipped.
    assert_eq!(lure_candidates(&[3, 3, 1], 2), vec![]);
    assert_eq!(lure_candidates(&[2, 3, 1], 2), vec![2]);
    assert_eq!(lure_candidates(&[3, 1], 2), vec![]);
    assert_eq!(lure_candidates(&[5, 2, 3, 1], 2), vec![2, 5]);
}

#[test]
fn stimulus_choice_follows_the_draws() {
    let seq = [1, 2, 3];
    // Warm-up: always the random value.
    assert_eq!(pick_stim(&seq, 4, 6, true, true, Some(7)), 6);
    // Forced match wins.
    assert_eq!(pick_stim(&seq, 2, 6, true, true, Some(7)), 2);
    // A lure when one was rolled and picked.
    assert_eq!(pick_stim(&seq, 2, 6, false, true, Some(7)), 7);
    // No lure at n = 1, or without a candidate.
    assert_eq!(pick_stim(&seq, 1, 6, false, true, Some(7)), 6);
    assert_eq!(pick_stim(&seq, 2, 6, false, true, None), 6);
    assert_eq!(pick_stim(&seq, 2, 6, false, false, Some(7)), 6);
}

#[test]
fn score_colors_follow_the_thresholds() {
    assert_eq!(score_band(80, 80, 50), ScoreBand::Advancing);
    assert_eq!(score_band(79, 80, 50), ScoreBand::Holding);
    assert_eq!(score_band(50, 80, 50), ScoreBand::Holding);
    assert_eq!(score_band(49, 80, 50), ScoreBand::Failing);
    // The advance threshold is checked first.
    assert_eq!(score_band(60, 60, 70), ScoreBand::Advancing);
}

#[test]
fn new_sessions_have_the_requested_length() {
    let mut rng = StdRng::seed_from_u64(3);
    let s = Session::new(test_cfg(3, 29), &mut rng);
    assert_eq!(s.total(), 29);
    assert!(!s.started());
    assert_eq!(s.index(), 0);
    assert!(!s.pos_pressed() && !s.aud_pressed());
    assert!(s.trials.iter().all(|t| t.position < STIM_VALUES && t.letter < STIM_VALUES));
    assert_eq!(generate_stream(2, 0, &mut rng), Vec::<u8>::new());
}
