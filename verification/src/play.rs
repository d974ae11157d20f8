//! The per-frame controller of a session on screen: the countdown lead-in,
//! pausing, key presses with their right/wrong feedback, and the time that
//! drives the session.

use vstd::prelude::*;
use crate::game::{Press, TickEvent};
use crate::session::{
    press_audio_model, press_position_model, runnable, tick_model, Session, SessionView,
};

verus! {

/// The lead-in before the first trial, in milliseconds.
pub const COUNTDOWN_MS: u32 = 1800;

/// How long a feedback pulse lasts, in milliseconds.
pub const FLASH_MS: u32 = 650;

/// A transient green/red pulse on an input chip.
#[derive(Clone, Copy, Debug, PartialEq, Eq, Structural)]
pub struct Flash {
    pub good: bool,
    pub remaining_ms: u32,
}

/// A pulse after `dt` more milliseconds: it fades out once its time is up.
pub open spec fn decayed(flash: Option<Flash>, dt: nat) -> Option<Flash> {
    match flash {
        None => None,
        Some(f) => if f.remaining_ms <= dt {
            None
        } else {
            Some(Flash { remaining_ms: (f.remaining_ms - dt) as u32, ..f })
        },
    }
}

/// Let `dt_ms` milliseconds pass for a feedback pulse.
pub fn decay(flash: &mut Option<Flash>, dt_ms: u32)
    ensures
        *final(flash) == decayed(*old(flash), dt_ms as nat),
{
    match *flash {
        None => {},
        Some(f) => {
            if f.remaining_ms <= dt_ms {
                *flash = None;
            } else {
                *flash = Some(Flash { remaining_ms: f.remaining_ms - dt_ms, ..f });
            }
        },
    }
}

/// The feedback a press earns: green for a correct press, red for a wrong
/// one, none when the press was unscored or ignored.
pub open spec fn feedback_of(press: Option<Press>) -> Option<bool> {
    match press {
        Some(Press::Correct) => Some(true),
        Some(Press::Wrong) => Some(false),
        _ => None,
    }
}

/// The feedback a press earns.
pub fn press_feedback(press: Option<Press>) -> (good: Option<bool>)
    ensures
        good == feedback_of(press),
{
    match press {
        Some(Press::Correct) => Some(true),
        Some(Press::Wrong) => Some(false),
        Some(Press::Unscored) | None => None,
    }
}

/// Keys pressed this frame (auto-repeat filtered out) and window focus.
#[derive(Clone, Copy, Debug, PartialEq, Eq, Structural)]
pub struct FrameInput {
    pub position: bool,
    pub audio: bool,
    pub space: bool,
    pub escape: bool,
    pub focused: bool,
}

/// Whether the player left the session this frame.
#[derive(Clone, Copy, Debug, PartialEq, Eq, Structural)]
pub enum FrameOutcome {
    Aborted,
    Continued,
}

/// A session on screen.
pub struct Play {
    pub session: Option<Session>,
    pub countdown_ms: u32,
    pub paused: bool,
    pub pos_flash: Option<Flash>,
    pub aud_flash: Option<Flash>,
}

/// The state of a `Play` as mathematical values.
pub struct PlayView {
    pub session: Option<SessionView>,
    pub countdown_ms: nat,
    pub paused: bool,
    pub pos_flash: Option<Flash>,
    pub aud_flash: Option<Flash>,
}

impl View for Play {
    type V = PlayView;

    open spec fn view(&self) -> PlayView {
        PlayView {
            session: match self.session {
                Some(s) => Some(s@),
                None => None,
            },
            countdown_ms: self.countdown_ms as nat,
            paused: self.paused,
            pos_flash: self.pos_flash,
            aud_flash: self.aud_flash,
        }
    }
}

/// A new pulse for a press when feedback is on and the press earned one.
pub open spec fn pulse(feedback: bool, press: Option<Press>, old: Option<Flash>) -> Option<Flash> {
    if feedback && feedback_of(press) is Some {
        Some(Flash { good: feedback_of(press)->0, remaining_ms: FLASH_MS })
    } else {
        old
    }
}

/// A red pulse when feedback is on and the events report a missed match.
pub open spec fn miss_pulse(feedback: bool, events: Seq<TickEvent>, e: TickEvent, old: Option<Flash>) -> Option<Flash> {
    if feedback && events.contains(e) {
        Some(Flash { good: false, remaining_ms: FLASH_MS })
    } else {
        old
    }
}

/// Pressing the position key: ignored while paused or counting down.
pub open spec fn press_position_step(v: PlayView, feedback: bool) -> PlayView {
    if v.paused || v.countdown_ms > 0 {
        v
    } else {
        match v.session {
            None => v,
            Some(s) => {
                let (s2, r) = press_position_model(s);
                PlayView { session: Some(s2), pos_flash: pulse(feedback, r, v.pos_flash), ..v }
            },
        }
    }
}

/// Pressing the audio key: ignored while paused or counting down.
pub open spec fn press_audio_step(v: PlayView, feedback: bool) -> PlayView {
    if v.paused || v.countdown_ms > 0 {
        v
    } else {
        match v.session {
            None => v,
            Some(s) => {
                let (s2, r) = press_audio_model(s);
                PlayView { session: Some(s2), aud_flash: pulse(feedback, r, v.aud_flash), ..v }
            },
        }
    }
}

/// Both pulses after `dt` milliseconds.
pub open spec fn fade(v: PlayView, dt: nat) -> PlayView {
    PlayView { pos_flash: decayed(v.pos_flash, dt), aud_flash: decayed(v.aud_flash, dt), ..v }
}

/// Time passing in a running (unpaused) frame: first the countdown runs out,
/// starting the first trial when it reaches zero; after it, the keys are
/// judged, the session advances, missed matches pulse red; then the pulses
/// fade.
pub open spec fn run_step(v: PlayView, input: FrameInput, dt: nat, feedback: bool) -> (PlayView, Seq<TickEvent>) {
    if v.countdown_ms > 0 {
        let (w, ev) = if v.countdown_ms <= dt {
            match v.session {
                Some(s) => (
                    PlayView {
                        countdown_ms: 0,
                        session: Some(SessionView { started: true, ..s }),
                        ..v
                    },
                    seq![TickEvent::TrialStarted(0)],
                ),
                None => (PlayView { countdown_ms: 0, ..v }, seq![]),
            }
        } else {
            (PlayView { countdown_ms: (v.countdown_ms - dt) as nat, ..v }, seq![])
        };
        (fade(w, dt), ev)
    } else {
        let a = if input.position { press_position_step(v, feedback) } else { v };
        let b = if input.audio { press_audio_step(a, feedback) } else { a };
        let (c, ev) = match b.session {
            Some(s) => {
                let (s2, ev) = tick_model(s, dt);
                (PlayView { session: Some(s2), ..b }, ev)
            },
            None => (b, seq![]),
        };
        let d = PlayView {
            pos_flash: miss_pulse(feedback, ev, TickEvent::MissedPosition, c.pos_flash),
            aud_flash: miss_pulse(feedback, ev, TickEvent::MissedAudio, c.aud_flash),
            ..c
        };
        (fade(d, dt), ev)
    }
}

/// One frame: Escape abandons the session; Space toggles the pause of a
/// running session and losing focus pauses it; unless paused, time passes
/// as `run_step` says.
pub open spec fn frame_model(v: PlayView, input: FrameInput, dt: nat, feedback: bool) -> (PlayView, Seq<TickEvent>, FrameOutcome) {
    if input.escape {
        (PlayView { session: None, paused: false, ..v }, seq![], FrameOutcome::Aborted)
    } else {
        let running = v.session matches Some(s) && !s.finished;
        let p1 = if input.space && running { !v.paused } else { v.paused };
        let paused = if running && !input.focused { true } else { p1 };
        let w = PlayView { paused, ..v };
        if paused {
            (w, seq![], FrameOutcome::Continued)
        } else {
            let (u, ev) = run_step(w, input, dt, feedback);
            (u, ev, FrameOutcome::Continued)
        }
    }
}

impl Play {
    /// The invariant: the session, if any, is well formed and can look up
    /// its stimuli.
    pub open spec fn wf(&self) -> bool {
        self.session matches Some(s) ==> s.wf() && runnable(s@)
    }

    /// Put a new session on screen, behind the countdown.
    pub fn start(session: Session) -> (p: Self)
        requires
            session.wf(),
            runnable(session@),
        ensures
            p.wf(),
            p@ == (PlayView {
                session: Some(session@),
                countdown_ms: COUNTDOWN_MS as nat,
                paused: false,
                pos_flash: None,
                aud_flash: None,
            }),
    {
        Play {
            session: Some(session),
            countdown_ms: COUNTDOWN_MS,
            paused: false,
            pos_flash: None,
            aud_flash: None,
        }
    }
}

/// Whether `events` holds `e` at or after position `from`.
fn has_event(events: &Vec<TickEvent>, from: usize, e: TickEvent) -> (found: bool)
    requires
        from <= events@.len(),
    ensures
        found == events@.subrange(from as int, events@.len() as int).contains(e),
{
    let mut k = from;
    while k < events.len()
        invariant
            from <= k <= events@.len(),
            !events@.subrange(from as int, k as int).contains(e),
        decreases events@.len() - k,
    {
        if events[k] == e {
            assert(events@.subrange(from as int, events@.len() as int)[k - from] == e);
            return true;
        }
        proof {
            let before = events@.subrange(from as int, k as int);
            let after = events@.subrange(from as int, k + 1);
            assert(after =~= before.push(events@[k as int]));
            if after.contains(e) {
                let i = choose|i: int| 0 <= i < after.len() && after[i] == e;
                if i < before.len() {
                    assert(before[i] == e);
                }
            }
        }
        k = k + 1;
    }
    false
}

impl Play {
    /// Press the position key: ignored while paused or counting down; a
    /// scored press pulses green or red when feedback is on.
    pub fn press_position(&mut self, feedback: bool)
        requires
            old(self).wf(),
        ensures
            final(self).wf(),
            final(self)@ == press_position_step(old(self)@, feedback),
    {
        if self.paused || self.countdown_ms > 0 {
            return;
        }
        match self.session.take() {
            None => {},
            Some(mut s) => {
                let press = s.press_position();
                self.session = Some(s);
                if feedback {
                    if let Some(good) = press_feedback(press) {
                        self.pos_flash = Some(Flash { good, remaining_ms: FLASH_MS });
                    }
                }
            },
        }
    }

    /// Press the audio key: ignored while paused or counting down; a scored
    /// press pulses green or red when feedback is on.
    pub fn press_audio(&mut self, feedback: bool)
        requires
            old(self).wf(),
        ensures
            final(self).wf(),
            final(self)@ == press_audio_step(old(self)@, feedback),
    {
        if self.paused || self.countdown_ms > 0 {
            return;
        }
        match self.session.take() {
            None => {},
            Some(mut s) => {
                let press = s.press_audio();
                self.session = Some(s);
                if feedback {
                    if let Some(good) = press_feedback(press) {
                        self.aud_flash = Some(Flash { good, remaining_ms: FLASH_MS });
                    }
                }
            },
        }
    }

    /// One frame of `dt_ms` milliseconds with the given keys; the session's
    /// events (trial starts, misses, the end) are appended to `events` for
    /// the caller to play sounds and close the session.
    pub fn frame(
        &mut self,
        input: FrameInput,
        dt_ms: u32,
        feedback: bool,
        events: &mut Vec<TickEvent>,
    ) -> (outcome: FrameOutcome)
        requires
            old(self).wf(),
        ensures
            final(self).wf(),
            final(self)@ == frame_model(old(self)@, input, dt_ms as nat, feedback).0,
            final(events)@ == old(events)@ + frame_model(old(self)@, input, dt_ms as nat, feedback).1,
            outcome == frame_model(old(self)@, input, dt_ms as nat, feedback).2,
    {
        if input.escape {
            self.session = None;
            self.paused = false;
            assert(events@ =~= old(events)@ + seq![]);
            return FrameOutcome::Aborted;
        }
        let running = match &self.session {
            Some(s) => !s.finished(),
            None => false,
        };
        if input.space && running {
            self.paused = !self.paused;
        }
        if running && !input.focused {
            self.paused = true;
        }
        if self.paused {
            assert(events@ =~= old(events)@ + seq![]);
            return FrameOutcome::Continued;
        }
        let ghost w = self@;
        assert(self.wf());
        if self.countdown_ms > 0 {
            if self.countdown_ms <= dt_ms {
                self.countdown_ms = 0;
                match self.session.take() {
                    Some(mut s) => {
                        let e = s.start();
                        events.push(e);
                        self.session = Some(s);
                        assert(events@ =~= old(events)@ + seq![TickEvent::TrialStarted(0)]);
                    },
                    None => {
                        assert(events@ =~= old(events)@ + seq![]);
                    },
                }
            } else {
                self.countdown_ms = self.countdown_ms - dt_ms;
                assert(events@ =~= old(events)@ + seq![]);
            }
        } else {
            if input.position {
                self.press_position(feedback);
            }
            if input.audio {
                self.press_audio(feedback);
            }
            let from = events.len();
            match self.session.take() {
                Some(mut s) => {
                    let ghost sv = s@;
                    let ghost ev0 = events@;
                    s.tick(dt_ms, events);
                    self.session = Some(s);
                    assert(events@.subrange(from as int, events@.len() as int) =~= tick_model(
                        sv,
                        dt_ms as nat,
                    ).1);
                },
                None => {
                    assert(events@.subrange(from as int, events@.len() as int) =~= Seq::<
                        TickEvent,
                    >::empty());
                },
            }
            let ghost ev = events@.subrange(from as int, events@.len() as int);
            assert(events@ =~= old(events)@ + ev);
            if feedback && has_event(events, from, TickEvent::MissedPosition) {
                self.pos_flash = Some(Flash { good: false, remaining_ms: FLASH_MS });
            }
            if feedback && has_event(events, from, TickEvent::MissedAudio) {
                self.aud_flash = Some(Flash { good: false, remaining_ms: FLASH_MS });
            }
        }
        decay(&mut self.pos_flash, dt_ms);
        decay(&mut self.aud_flash, dt_ms);
        FrameOutcome::Continued
    }
}

/// Escape always abandons the session, whatever else happens.
pub proof fn lemma_escape_aborts(v: PlayView, input: FrameInput, dt: nat, feedback: bool)
    requires
        input.escape,
    ensures
        frame_model(v, input, dt, feedback).0.session is None,
        frame_model(v, input, dt, feedback).1.len() == 0,
        frame_model(v, input, dt, feedback).2 == FrameOutcome::Aborted,
{
}

/// A running session in an unfocused window pauses, and a paused frame
/// freezes everything: no time passes, no key counts, nothing fades.
pub proof fn lemma_pause_freezes(v: PlayView, input: FrameInput, dt: nat, feedback: bool)
    requires
        !input.escape,
        (v.session matches Some(s) && !s.finished && !input.focused) || (v.paused && !input.space),
    ensures
        frame_model(v, input, dt, feedback).0 == (PlayView { paused: true, ..v }),
        frame_model(v, input, dt, feedback).1.len() == 0,
{
}

/// Space toggles the pause of a running session in a focused window: a
/// running frame pauses, and then no time passes and nothing happens; a
/// paused one resumes.
pub proof fn lemma_space_toggles_pause(v: PlayView, input: FrameInput, dt: nat, feedback: bool)
    requires
        !input.escape,
        input.space,
        input.focused,
        v.session matches Some(s) && !s.finished,
    ensures
        frame_model(v, input, dt, feedback).0.paused == !v.paused,
        !v.paused ==> frame_model(v, input, dt, feedback).0 == (PlayView { paused: true, ..v }),
        !v.paused ==> frame_model(v, input, dt, feedback).1.len() == 0,
{
}

/// Keys count only after the countdown and outside a pause.
pub proof fn lemma_keys_wait_for_countdown(v: PlayView, feedback: bool)
    requires
        v.paused || v.countdown_ms > 0,
    ensures
        press_position_step(v, feedback) == v,
        press_audio_step(v, feedback) == v,
{
}

/// A pulse only fades: its time left shrinks by the time that passed, and
/// it is gone once that reaches its time left.
pub proof fn lemma_pulse_fades(f: Flash, dt: nat)
    ensures
        dt >= f.remaining_ms ==> decayed(Some(f), dt) is None,
        dt < f.remaining_ms ==> decayed(Some(f), dt) == Some(
            Flash { remaining_ms: (f.remaining_ms - dt) as u32, ..f },
        ),
        decayed(None, dt) is None,
{
}

} // verus!
