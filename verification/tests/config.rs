use dual_nback::config::{AudioSet, Config, DEFAULT_VOLUME_BITS};
use dual_nback::game::{ModalityScore, Outcome, SessionResult};

#[test]
fn total_trials_follows_brainworkshop_formula() {
    let mut cfg = Config { n: 2, ..Config::default() };
    assert_eq!(cfg.total_trials(), 24);
    cfg.n = 3;
    assert_eq!(cfg.total_trials(), 29);
}

#[test]
fn defaults_mirror_brain_workshop() {
    let c = Config::default();
    assert_eq!((c.n, c.trial_ms, c.stim_ms, c.base_trials), (2, 3000, 500, 20));
    assert_eq!((c.threshold_advance, c.threshold_fallback, c.fallback_sessions), (80, 50, 3));
    assert!(c.adaptive && c.feedback);
    assert_eq!(c.audio_set, AudioSet::Letters);
    assert_eq!(AudioSet::default(), AudioSet::Letters);
    assert_eq!(f32::from_bits(c.volume_bits), 0.8);
    assert_eq!(c.volume_bits, DEFAULT_VOLUME_BITS);
    assert_eq!(c.fallback_streak, 0);
}

#[test]
fn set_level_clamps_and_resets_strikes() {
    let mut c = Config { n: 3, fallback_streak: 2, ..Config::default() };
    assert!(!c.set_level(3));
    assert_eq!(c.fallback_streak, 2);
    assert!(c.set_level(0));
    assert_eq!((c.n, c.fallback_streak), (1, 0));
    c.fallback_streak = 1;
    assert!(c.set_level(40));
    assert_eq!((c.n, c.fallback_streak), (15, 0));
}

#[test]
fn session_score_moves_the_level_only_when_adaptive() {
    let mut c = Config { n: 2, fallback_streak: 1, ..Config::default() };
    let (change, manual) = c.apply_session_score(85);
    assert!(!manual);
    assert_eq!((change.outcome, change.n, change.streak), (Outcome::Advance, 3, 0));
    assert_eq!((c.n, c.fallback_streak), (3, 0));

    let mut m = Config { n: 2, fallback_streak: 1, adaptive: false, ..Config::default() };
    let (change, manual) = m.apply_session_score(10);
    assert!(manual);
    assert_eq!((change.outcome, change.n, change.streak), (Outcome::Stay, 2, 1));
    assert_eq!(m, Config { n: 2, fallback_streak: 1, adaptive: false, ..Config::default() });
    let _ = SessionResult {
        n: 2,
        trials: 24,
        position: ModalityScore::default(),
        audio: ModalityScore::default(),
        score: 0,
    };
}

#[test]
fn thresholds_stay_coherent() {
    let mut c = Config { threshold_advance: 60, threshold_fallback: 70, ..Config::default() };
    c.keep_thresholds_coherent();
    assert_eq!(c.threshold_fallback, 60);
    let mut d = Config::default();
    d.keep_thresholds_coherent();
    assert_eq!(d, Config::default());
}

#[test]
fn reset_goes_back_to_dual_two_back() {
    let mut c = Config { n: 7, fallback_streak: 2, trial_ms: 2500, ..Config::default() };
    c.reset_progress();
    assert_eq!((c.n, c.fallback_streak, c.trial_ms), (2, 0, 2500));
}

#[test]
fn session_config_follows_the_settings() {
    let c = Config { n: 3, stim_ms: 4000, trial_ms: 2500, ..Config::default() };
    let s = c.session_config();
    assert_eq!((s.n, s.total_trials, s.trial_ms, s.stim_ms), (3, 29, 2500, 2500));
    let d = Config::default().session_config();
    assert_eq!((d.n, d.total_trials, d.trial_ms, d.stim_ms), (2, 24, 3000, 500));
}
