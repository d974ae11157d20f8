use dual_nback::game::{Press, SessionConfig, TickEvent, Trial};
use dual_nback::play::{
    decay, press_feedback, Flash, FrameInput, FrameOutcome, Play, COUNTDOWN_MS, FLASH_MS,
};
use dual_nback::session::Session;

fn keys() -> FrameInput {
    FrameInput { position: false, audio: false, space: false, escape: false, focused: true }
}

fn play() -> Play {
    let cfg = SessionConfig { n: 1, total_trials: 3, trial_ms: 100, stim_ms: 50 };
    let trials = vec![
        Trial { position: 0, letter: 0 },
        Trial { position: 0, letter: 1 },
        Trial { position: 2, letter: 1 },
    ];
    Play::start(Session::with_trials(cfg, trials))
}

#[test]
fn feedback_follows_the_press() {
    assert_eq!(press_feedback(Some(Press::Correct)), Some(true));
    assert_eq!(press_feedback(Some(Press::Wrong)), Some(false));
    assert_eq!(press_feedback(Some(Press::Unscored)), None);
    assert_eq!(press_feedback(None), None);
}

#[test]
fn pulses_fade() {
    let mut f = Some(Flash { good: true, remaining_ms: 100 });
    decay(&mut f, 30);
    assert_eq!(f, Some(Flash { good: true, remaining_ms: 70 }));
    decay(&mut f, 70);
    assert_eq!(f, None);
    decay(&mut f, 5);
    assert_eq!(f, None);
}

#[test]
fn countdown_then_trials_then_end() {
    let mut p = play();
    assert_eq!(p.countdown_ms, COUNTDOWN_MS);
    let mut ev = Vec::new();
    // Keys are ignored during the countdown.
    let out = p.frame(FrameInput { position: true, ..keys() }, 1000, true, &mut ev);
    assert_eq!(out, FrameOutcome::Continued);
    assert!(ev.is_empty());
    assert_eq!(p.countdown_ms, 800);
    assert_eq!(p.pos_flash, None);
    p.frame(keys(), 900, true, &mut ev);
    assert_eq!(p.countdown_ms, 0);
    assert_eq!(ev, vec![TickEvent::TrialStarted(0)]);
    ev.clear();
    // Trial 0 is warm-up; move to trial 1, where both channels...
    p.frame(keys(), 100, true, &mut ev);
    assert_eq!(ev, vec![TickEvent::TrialStarted(1)]);
    ev.clear();
    // ...the position matches: a correct press pulses green.
    p.frame(FrameInput { position: true, ..keys() }, 10, true, &mut ev);
    assert_eq!(p.pos_flash, Some(Flash { good: true, remaining_ms: FLASH_MS - 10 }));
    // The audio did not match trial 0's letter; nothing else happened.
    assert!(ev.is_empty());
    p.frame(keys(), 90, true, &mut ev);
    assert_eq!(ev, vec![TickEvent::TrialStarted(2)]);
    ev.clear();
    // Trial 2: the letter matches; leaving it unanswered pulses red.
    p.frame(keys(), 100, true, &mut ev);
    assert_eq!(ev, vec![TickEvent::MissedAudio, TickEvent::SessionEnded]);
    assert_eq!(p.aud_flash, Some(Flash { good: false, remaining_ms: FLASH_MS - 100 }));
    let s = p.session.as_ref().unwrap();
    assert!(s.finished());
    assert_eq!(s.result().score, 50);
}

#[test]
fn pause_and_escape() {
    let mut p = play();
    let mut ev = Vec::new();
    p.frame(keys(), COUNTDOWN_MS, true, &mut ev);
    ev.clear();
    // Losing focus pauses; time does not pass while paused.
    p.frame(FrameInput { focused: false, ..keys() }, 500, true, &mut ev);
    assert!(p.paused);
    p.frame(keys(), 500, true, &mut ev);
    assert!(ev.is_empty());
    assert_eq!(p.session.as_ref().unwrap().index(), 0);
    // Space resumes.
    p.frame(FrameInput { space: true, ..keys() }, 100, true, &mut ev);
    assert!(!p.paused);
    assert_eq!(ev, vec![TickEvent::TrialStarted(1)]);
    // Escape abandons the session.
    let out = p.frame(FrameInput { escape: true, ..keys() }, 100, true, &mut ev);
    assert_eq!(out, FrameOutcome::Aborted);
    assert!(p.session.is_none());
    assert!(!p.paused);
}

#[test]
fn presses_outside_frames_follow_the_same_rules() {
    let mut p = play();
    p.press_position(true);
    assert_eq!(p.pos_flash, None);
    let mut ev = Vec::new();
    // The countdown's last frame only starts the first trial.
    p.frame(keys(), COUNTDOWN_MS + 100, true, &mut ev);
    assert_eq!(ev, vec![TickEvent::TrialStarted(0)]);
    // Warm-up presses earn no pulse.
    p.press_audio(true);
    assert_eq!(p.aud_flash, None);
    p.frame(keys(), 100, true, &mut ev);
    p.press_audio(true);
    assert_eq!(p.aud_flash, Some(Flash { good: false, remaining_ms: FLASH_MS }));
    // Without feedback no pulse appears.
    p.press_position(false);
    assert_eq!(p.pos_flash, None);
}
