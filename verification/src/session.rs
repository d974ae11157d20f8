//! The trial-by-trial session state machine: time advances in whole
//! milliseconds, trials start and end, presses are judged immediately and
//! unanswered matches are counted as misses when their trial ends.

use vstd::prelude::*;
use vstd::arithmetic::div_mod::{lemma_div_is_ordered, lemma_hoist_over_denominator};
use rand::rngs::StdRng;
use crate::stimuli::generate_trials;
use crate::game::{
    combined_score, empty_tally, wrong_of, ModalityScore, Press, SessionConfig, SessionResult, Tally,
    TickEvent, Trial, STIM_VALUES,
};

verus! {

/// The state of a session as mathematical values.
pub struct SessionView {
    pub cfg: SessionConfig,
    pub trials: Seq<Trial>,
    pub index: nat,
    pub elapsed_ms: nat,
    pub started: bool,
    pub finished: bool,
    pub pos_pressed: bool,
    pub aud_pressed: bool,
    pub position: Tally,
    pub audio: Tally,
}

/// Trial `i` repeats the position shown `n` trials earlier.
pub open spec fn position_match(trials: Seq<Trial>, n: nat, i: nat) -> bool {
    i >= n && trials[i as int].position == trials[i - n].position
}

/// Trial `i` repeats the letter played `n` trials earlier.
pub open spec fn audio_match(trials: Seq<Trial>, n: nat, i: nat) -> bool {
    i >= n && trials[i as int].letter == trials[i - n].letter
}

/// A tally after its scored trial ends: a match is counted, and a match
/// nobody pressed for is a miss.
pub open spec fn close_tally(t: Tally, is_match: bool, pressed: bool) -> Tally {
    if is_match {
        Tally {
            matches: t.matches + 1,
            misses: if pressed { t.misses } else { t.misses + 1 },
            ..t
        }
    } else {
        t
    }
}

/// The events for one channel of an ending trial.
pub open spec fn miss_events(is_match: bool, pressed: bool, e: TickEvent) -> Seq<TickEvent> {
    if is_match && !pressed {
        seq![e]
    } else {
        seq![]
    }
}

/// The end of the current trial: warm-up trials are never scored; otherwise
/// each channel's match is counted and an unanswered one is a miss.
pub open spec fn finalize(v: SessionView) -> (SessionView, Seq<TickEvent>) {
    if v.index < v.cfg.n {
        (v, seq![])
    } else {
        let pm = position_match(v.trials, v.cfg.n as nat, v.index);
        let am = audio_match(v.trials, v.cfg.n as nat, v.index);
        (
            SessionView {
                position: close_tally(v.position, pm, v.pos_pressed),
                audio: close_tally(v.audio, am, v.aud_pressed),
                ..v
            },
            miss_events(pm, v.pos_pressed, TickEvent::MissedPosition) + miss_events(
                am,
                v.aud_pressed,
                TickEvent::MissedAudio,
            ),
        )
    }
}

/// One trial boundary: the current trial ends, then either the next trial
/// starts with fresh presses or, after the last one, the session ends.
pub open spec fn boundary(v: SessionView) -> (SessionView, Seq<TickEvent>) {
    let (f, ev) = finalize(v);
    if v.index + 1 >= v.trials.len() {
        (SessionView { finished: true, ..f }, ev.push(TickEvent::SessionEnded))
    } else {
        (
            SessionView { index: v.index + 1, pos_pressed: false, aud_pressed: false, ..f },
            ev.push(TickEvent::TrialStarted((v.index + 1) as usize)),
        )
    }
}

/// `k` trial boundaries in a row, with all their events in order.
pub open spec fn boundaries(v: SessionView, k: nat) -> (SessionView, Seq<TickEvent>)
    decreases k,
{
    if k == 0 {
        (v, seq![])
    } else {
        let (w, ev) = boundaries(v, (k - 1) as nat);
        let (u, ev2) = boundary(w);
        (u, ev + ev2)
    }
}

/// How many boundaries are left before the session ends.
pub open spec fn remaining(v: SessionView) -> nat {
    if v.trials.len() == 0 {
        1
    } else {
        (v.trials.len() - v.index) as nat
    }
}

/// How many trial boundaries `dt` more milliseconds cross: one per full
/// trial length in the time accumulated so far, but never past the end.
pub open spec fn crossings(v: SessionView, dt: nat) -> nat {
    let total = v.elapsed_ms + dt;
    if v.cfg.trial_ms == 0 {
        remaining(v)
    } else if total / (v.cfg.trial_ms as nat) < remaining(v) {
        total / (v.cfg.trial_ms as nat)
    } else {
        remaining(v)
    }
}

/// Advancing time by `dt` milliseconds: nothing happens before the start or
/// after the end; otherwise every full trial length that has accumulated
/// ends a trial, and what is left over is the time spent in the current one.
pub open spec fn tick_model(v: SessionView, dt: nat) -> (SessionView, Seq<TickEvent>) {
    if !v.started || v.finished {
        (v, seq![])
    } else {
        let k = crossings(v, dt);
        let (w, ev) = boundaries(v, k);
        (SessionView { elapsed_ms: (v.elapsed_ms + dt - k * v.cfg.trial_ms) as nat, ..w }, ev)
    }
}

/// Judging the first press on one channel in a trial of a running session:
/// unscored in warm-up, a hit on a match and a false alarm otherwise.
pub open spec fn judge(t: Tally, scored: bool, is_match: bool) -> (Tally, Press) {
    if !scored {
        (t, Press::Unscored)
    } else if is_match {
        (Tally { hits: t.hits + 1, ..t }, Press::Correct)
    } else {
        (Tally { false_alarms: t.false_alarms + 1, ..t }, Press::Wrong)
    }
}

/// Pressing the position key: ignored before the start, after the end and
/// after a first press in the same trial; judged otherwise.
pub open spec fn press_position_model(v: SessionView) -> (SessionView, Option<Press>) {
    if !v.started || v.finished || v.pos_pressed {
        (v, None)
    } else {
        let (t, p) = judge(
            v.position,
            v.index >= v.cfg.n,
            position_match(v.trials, v.cfg.n as nat, v.index),
        );
        (SessionView { pos_pressed: true, position: t, ..v }, Some(p))
    }
}

/// Pressing the audio key: ignored before the start, after the end and
/// after a first press in the same trial; judged otherwise.
pub open spec fn press_audio_model(v: SessionView) -> (SessionView, Option<Press>) {
    if !v.started || v.finished || v.aud_pressed {
        (v, None)
    } else {
        let (t, p) = judge(v.audio, v.index >= v.cfg.n, audio_match(v.trials, v.cfg.n as nat, v.index));
        (SessionView { aud_pressed: true, audio: t, ..v }, Some(p))
    }
}

/// Every count of a tally, summed.
pub open spec fn tally_sum(t: Tally) -> nat {
    t.hits + t.misses + t.false_alarms
}

/// How many of the first `upto` trials repeat the position `n` back.
pub open spec fn position_matches_before(trials: Seq<Trial>, n: nat, upto: nat) -> nat
    decreases upto,
{
    if upto == 0 {
        0
    } else {
        position_matches_before(trials, n, (upto - 1) as nat) + if position_match(
            trials,
            n,
            (upto - 1) as nat,
        ) {
            1nat
        } else {
            0nat
        }
    }
}

/// How many of the first `upto` trials repeat the letter `n` back.
pub open spec fn audio_matches_before(trials: Seq<Trial>, n: nat, upto: nat) -> nat
    decreases upto,
{
    if upto == 0 {
        0
    } else {
        audio_matches_before(trials, n, (upto - 1) as nat) + if audio_match(
            trials,
            n,
            (upto - 1) as nat,
        ) {
            1nat
        } else {
            0nat
        }
    }
}

/// The trials that have ended: all before the current one, and the current
/// one too once the session is over.
pub open spec fn ended(v: SessionView) -> nat {
    v.index + if v.finished {
        1nat
    } else {
        0nat
    }
}

/// Every match of an ended trial was either caught (a hit) or missed, and
/// the current trial's match adds a hit as soon as it is caught.
pub open spec fn matches_accounted(v: SessionView) -> bool {
    &&& v.position.matches == position_matches_before(v.trials, v.cfg.n as nat, ended(v))
    &&& v.audio.matches == audio_matches_before(v.trials, v.cfg.n as nat, ended(v))
    &&& v.position.hits + v.position.misses == v.position.matches + if v.pos_pressed
        && !v.finished && position_match(v.trials, v.cfg.n as nat, v.index) {
        1nat
    } else {
        0nat
    }
    &&& v.audio.hits + v.audio.misses == v.audio.matches + if v.aud_pressed && !v.finished
        && audio_match(v.trials, v.cfg.n as nat, v.index) {
        1nat
    } else {
        0nat
    }
}

/// The invariant of a session: the index stays on a trial (the last one
/// once the session is over), presses happen only in a running session,
/// each scored trial adds at most one to a channel's counts (a press, or a
/// miss when there was none), and every match is accounted for.
pub open spec fn consistent(v: SessionView) -> bool {
    &&& (v.trials.len() == 0 ==> v.index == 0)
    &&& (v.trials.len() > 0 ==> v.index < v.trials.len())
    &&& (v.finished ==> v.started)
    &&& (!v.started ==> v.index == 0 && !v.pos_pressed && !v.aud_pressed)
    &&& tally_sum(v.position) <= v.index + (if v.pos_pressed || v.finished { 1nat } else { 0 })
    &&& tally_sum(v.audio) <= v.index + (if v.aud_pressed || v.finished { 1nat } else { 0 })
    &&& v.position.matches <= v.index + (if v.finished { 1nat } else { 0 })
    &&& v.audio.matches <= v.index + (if v.finished { 1nat } else { 0 })
    &&& (v.finished && v.trials.len() > 0 ==> v.index + 1 == v.trials.len())
    &&& matches_accounted(v)
}

/// A session over `trials` that has not started.
pub open spec fn fresh(cfg: SessionConfig, trials: Seq<Trial>) -> SessionView {
    SessionView {
        cfg,
        trials,
        index: 0,
        elapsed_ms: 0,
        started: false,
        finished: false,
        pos_pressed: false,
        aud_pressed: false,
        position: empty_tally(),
        audio: empty_tally(),
    }
}

/// Stimuli can be looked up for the current trial: either there are trials
/// or the (empty) session never leaves warm-up.
pub open spec fn runnable(v: SessionView) -> bool {
    v.trials.len() > 0 || v.cfg.n > 0
}

/// One running session. Its fields are kept by its methods, which hold the
/// invariant `wf`; read them through the getters or the view.
pub struct Session {
    pub cfg: SessionConfig,
    pub trials: Vec<Trial>,
    /// The current trial.
    pub index: usize,
    /// Milliseconds spent in the current trial.
    pub elapsed_ms: u64,
    pub started: bool,
    pub finished: bool,
    pub pos_pressed: bool,
    pub aud_pressed: bool,
    pub position: ModalityScore,
    pub audio: ModalityScore,
}

impl View for Session {
    type V = SessionView;

    open spec fn view(&self) -> SessionView {
        SessionView {
            cfg: self.cfg,
            trials: self.trials@,
            index: self.index as nat,
            elapsed_ms: self.elapsed_ms as nat,
            started: self.started,
            finished: self.finished,
            pos_pressed: self.pos_pressed,
            aud_pressed: self.aud_pressed,
            position: self.position@,
            audio: self.audio@,
        }
    }
}

/// A well-formed session satisfies the session invariant, so the laws
/// stated over `consistent` views apply to it.
pub proof fn lemma_wf_consistent(s: &Session)
    requires
        s.wf(),
    ensures
        consistent(s@),
{
}

impl Session {
    /// The session invariant, plus the bounds that keep its counters in
    /// their machine types: time left in the current trial is below one
    /// trial length while the session runs.
    pub closed spec fn wf(&self) -> bool {
        &&& consistent(self@)
        &&& self.trials.len() <= u32::MAX
        &&& self.elapsed_ms <= 2 * (u32::MAX as u64)
        &&& (!self.finished ==> self.elapsed_ms == 0 || self.elapsed_ms < self.cfg.trial_ms)
    }

    /// A session of `cfg.total_trials` freshly generated trials, not yet
    /// started.
    pub fn new(cfg: SessionConfig, rng: &mut StdRng) -> (s: Self)
        requires
            cfg.total_trials <= u32::MAX,
            cfg.total_trials > 0 ==> cfg.n >= 1,
        ensures
            s.wf(),
            s@ == fresh(cfg, s@.trials),
            s@.trials.len() == cfg.total_trials,
            forall|k: int|
                0 <= k < s@.trials.len() ==> #[trigger] s@.trials[k].position < STIM_VALUES
                    && s@.trials[k].letter < STIM_VALUES,
    {
        let trials = generate_trials(cfg.n, cfg.total_trials, rng);
        Self::with_trials(cfg, trials)
    }

    /// A session over the given trials, not yet started.
    pub fn with_trials(cfg: SessionConfig, trials: Vec<Trial>) -> (s: Self)
        requires
            trials.len() <= u32::MAX,
        ensures
            s.wf(),
            s@ == fresh(cfg, trials@),
    {
        Session {
            cfg,
            trials,
            index: 0,
            elapsed_ms: 0,
            started: false,
            finished: false,
            pos_pressed: false,
            aud_pressed: false,
            position: ModalityScore::default(),
            audio: ModalityScore::default(),
        }
    }

    /// Begin the first trial.
    pub fn start(&mut self) -> (e: TickEvent)
        requires
            old(self).wf(),
        ensures
            final(self).wf(),
            final(self)@ == (SessionView { started: true, ..old(self)@ }),
            e == TickEvent::TrialStarted(0),
    {
        self.started = true;
        TickEvent::TrialStarted(0)
    }

    pub fn started(&self) -> (b: bool)
        ensures
            b == self@.started,
    {
        self.started
    }

    pub fn finished(&self) -> (b: bool)
        ensures
            b == self@.finished,
    {
        self.finished
    }

    pub fn index(&self) -> (i: usize)
        ensures
            i == self@.index,
    {
        self.index
    }

    pub fn total(&self) -> (t: usize)
        ensures
            t == self@.trials.len(),
    {
        self.trials.len()
    }

    pub fn current_trial(&self) -> (t: Trial)
        requires
            self@.index < self@.trials.len(),
        ensures
            t == self@.trials[self@.index as int],
    {
        self.trials[self.index]
    }

    /// Milliseconds spent in the current trial.
    pub fn elapsed_in_trial(&self) -> (ms: u64)
        ensures
            ms == self@.elapsed_ms,
    {
        self.elapsed_ms
    }

    pub fn pos_pressed(&self) -> (b: bool)
        ensures
            b == self@.pos_pressed,
    {
        self.pos_pressed
    }

    pub fn aud_pressed(&self) -> (b: bool)
        ensures
            b == self@.aud_pressed,
    {
        self.aud_pressed
    }

    pub fn is_position_match(&self, i: usize) -> (b: bool)
        requires
            i >= self@.cfg.n ==> i < self@.trials.len(),
        ensures
            b == position_match(self@.trials, self@.cfg.n as nat, i as nat),
    {
        i >= self.cfg.n && self.trials[i].position == self.trials[i - self.cfg.n].position
    }

    pub fn is_audio_match(&self, i: usize) -> (b: bool)
        requires
            i >= self@.cfg.n ==> i < self@.trials.len(),
        ensures
            b == audio_match(self@.trials, self@.cfg.n as nat, i as nat),
    {
        i >= self.cfg.n && self.trials[i].letter == self.trials[i - self.cfg.n].letter
    }
}

/// One boundary keeps the invariant, the configuration, the trials and the
/// time; it finishes the session exactly at the last trial and otherwise
/// moves to the next one.
pub proof fn lemma_boundary(v: SessionView)
    requires
        consistent(v),
        v.started,
        !v.finished,
    ensures
        ({
            let w = boundary(v).0;
            &&& consistent(w)
            &&& w.started
            &&& w.cfg == v.cfg
            &&& w.trials == v.trials
            &&& w.elapsed_ms == v.elapsed_ms
            &&& w.finished == (v.index + 1 >= v.trials.len())
            &&& (!w.finished ==> w.index == v.index + 1)
        }),
{
}

/// `j` boundaries from a running session: the session ends exactly after
/// `remaining(v)` of them, and before that each one moves to the next trial.
pub proof fn lemma_boundaries(v: SessionView, j: nat)
    requires
        consistent(v),
        v.started,
        !v.finished,
        j <= remaining(v),
    ensures
        ({
            let w = boundaries(v, j).0;
            &&& consistent(w)
            &&& w.started
            &&& w.cfg == v.cfg
            &&& w.trials == v.trials
            &&& w.elapsed_ms == v.elapsed_ms
            &&& w.finished == (j == remaining(v))
            &&& (j < remaining(v) ==> w.index == v.index + j)
        }),
    decreases j,
{
    if j > 0 {
        lemma_boundaries(v, (j - 1) as nat);
        lemma_boundary(boundaries(v, (j - 1) as nat).0);
    }
}

impl Session {
    /// End the current trial: count matches and misses of a scored trial.
    fn finalize_current(&mut self, events: &mut Vec<TickEvent>)
        requires
            consistent(old(self)@),
            old(self)@.started,
            !old(self)@.finished,
            runnable(old(self)@),
            old(self).trials.len() <= u32::MAX,
        ensures
            final(self)@ == finalize(old(self)@).0,
            final(events)@ == old(events)@ + finalize(old(self)@).1,
            final(self).elapsed_ms == old(self).elapsed_ms,
            final(self).trials.len() == old(self).trials.len(),
    {
        let i = self.index;
        if i < self.cfg.n {
            assert(events@ =~= old(events)@ + seq![]);
            return;
        }
        let ghost ev0 = events@;
        let pm = self.is_position_match(i);
        if pm {
            self.position.matches = self.position.matches + 1;
            if !self.pos_pressed {
                self.position.misses = self.position.misses + 1;
                events.push(TickEvent::MissedPosition);
            }
        }
        let ghost ev1 = events@;
        let am = self.is_audio_match(i);
        if am {
            self.audio.matches = self.audio.matches + 1;
            if !self.aud_pressed {
                self.audio.misses = self.audio.misses + 1;
                events.push(TickEvent::MissedAudio);
            }
        }
        assert(ev1 =~= ev0 + miss_events(pm, old(self).pos_pressed, TickEvent::MissedPosition));
        assert(events@ =~= ev1 + miss_events(am, old(self).aud_pressed, TickEvent::MissedAudio));
        assert(events@ =~= old(events)@ + finalize(old(self)@).1);
    }

    /// Advance time by `dt_ms` milliseconds; trial transitions and the
    /// session end land in `events`.
    pub fn tick(&mut self, dt_ms: u32, events: &mut Vec<TickEvent>)
        requires
            old(self).wf(),
            old(self)@.started && !old(self)@.finished ==> runnable(old(self)@),
        ensures
            final(self).wf(),
            final(self)@ == tick_model(old(self)@, dt_ms as nat).0,
            final(events)@ == old(events)@ + tick_model(old(self)@, dt_ms as nat).1,
            final(self)@.cfg == old(self)@.cfg,
            final(self)@.trials == old(self)@.trials,
    {
        if !self.started || self.finished {
            assert(events@ =~= old(events)@ + seq![]);
            return;
        }
        let ghost v0 = self@;
        let ghost total: nat = v0.elapsed_ms + dt_ms as nat;
        let ghost t: nat = v0.cfg.trial_ms as nat;
        let ghost k = crossings(v0, dt_ms as nat);
        self.elapsed_ms = self.elapsed_ms + dt_ms as u64;
        let ghost mut j: nat = 0;
        proof {
            lemma_boundaries(v0, 0);
            assert(events@ =~= old(events)@ + boundaries(v0, 0).1);
        }
        while self.elapsed_ms >= self.cfg.trial_ms as u64 && !self.finished
            invariant
                j <= remaining(v0),
                consistent(v0),
                v0.started,
                !v0.finished,
                runnable(v0),
                v0.trials.len() <= u32::MAX,
                t == v0.cfg.trial_ms,
                total == v0.elapsed_ms + dt_ms,
                total <= 2 * (u32::MAX as nat),
                j * t <= total,
                self@ == (SessionView { elapsed_ms: (total - j * t) as nat, ..boundaries(v0, j).0 }),
                events@ == old(events)@ + boundaries(v0, j).1,
                self.trials.len() == v0.trials.len(),
            decreases remaining(v0) - j,
        {
            proof {
                lemma_boundaries(v0, j);
            }
            let ghost w = boundaries(v0, j).0;
            let ghost evj = events@;
            self.elapsed_ms = self.elapsed_ms - self.cfg.trial_ms as u64;
            self.finalize_current(events);
            if self.index + 1 >= self.trials.len() {
                self.finished = true;
                events.push(TickEvent::SessionEnded);
            } else {
                self.index = self.index + 1;
                self.pos_pressed = false;
                self.aud_pressed = false;
                events.push(TickEvent::TrialStarted(self.index));
            }
            proof {
                assert((j + 1) * t == j * t + t) by (nonlinear_arith);
                j = j + 1;
                assert(events@ =~= old(events)@ + boundaries(v0, j).1);
            }
        }
        proof {
            lemma_boundaries(v0, j);
            if t == 0 {
                assert(j == k);
            } else if self.finished {
                assert(j <= total / t) by (nonlinear_arith)
                    requires j * t <= total, t > 0;
                assert(j == k);
            } else {
                assert(total < (j + 1) * t) by (nonlinear_arith)
                    requires total - j * t < t, t > 0;
                assert(j >= total / t) by (nonlinear_arith)
                    requires total < (j + 1) * t, t > 0;
                assert(j <= total / t) by (nonlinear_arith)
                    requires j * t <= total, t > 0;
                assert(j == k);
            }
        }
    }
}

impl Session {
    /// Press the position key for the current trial.
    pub fn press_position(&mut self) -> (r: Option<Press>)
        requires
            old(self).wf(),
            old(self)@.started && !old(self)@.finished ==> runnable(old(self)@),
        ensures
            final(self).wf(),
            (final(self)@, r) == press_position_model(old(self)@),
            r == Some(Press::Correct) <==> old(self).started && !old(self).finished
                && !old(self).pos_pressed && old(self).index >= old(self).cfg.n && position_match(
                old(self).trials@,
                old(self).cfg.n as nat,
                old(self).index as nat,
            ),
            r == Some(Press::Wrong) <==> old(self).started && !old(self).finished
                && !old(self).pos_pressed && old(self).index >= old(self).cfg.n && !position_match(
                old(self).trials@,
                old(self).cfg.n as nat,
                old(self).index as nat,
            ),
            r == Some(Press::Correct) ==> final(self).position.hits == old(self).position.hits + 1
                && final(self).position.false_alarms == old(self).position.false_alarms,
            r == Some(Press::Wrong) ==> final(self).position.false_alarms
                == old(self).position.false_alarms + 1 && final(self).position.hits == old(
                self,
            ).position.hits,
    {
        if !self.started || self.finished || self.pos_pressed {
            return None;
        }
        self.pos_pressed = true;
        if self.index < self.cfg.n {
            return Some(Press::Unscored);
        }
        if self.is_position_match(self.index) {
            self.position.hits = self.position.hits + 1;
            Some(Press::Correct)
        } else {
            self.position.false_alarms = self.position.false_alarms + 1;
            Some(Press::Wrong)
        }
    }

    /// Press the audio key for the current trial.
    pub fn press_audio(&mut self) -> (r: Option<Press>)
        requires
            old(self).wf(),
            old(self)@.started && !old(self)@.finished ==> runnable(old(self)@),
        ensures
            final(self).wf(),
            (final(self)@, r) == press_audio_model(old(self)@),
            r == Some(Press::Correct) <==> old(self).started && !old(self).finished
                && !old(self).aud_pressed && old(self).index >= old(self).cfg.n && audio_match(
                old(self).trials@,
                old(self).cfg.n as nat,
                old(self).index as nat,
            ),
            r == Some(Press::Wrong) <==> old(self).started && !old(self).finished
                && !old(self).aud_pressed && old(self).index >= old(self).cfg.n && !audio_match(
                old(self).trials@,
                old(self).cfg.n as nat,
                old(self).index as nat,
            ),
            r == Some(Press::Correct) ==> final(self).audio.hits == old(self).audio.hits + 1
                && final(self).audio.false_alarms == old(self).audio.false_alarms,
            r == Some(Press::Wrong) ==> final(self).audio.false_alarms == old(self).audio.false_alarms
                + 1 && final(self).audio.hits == old(self).audio.hits,
    {
        if !self.started || self.finished || self.aud_pressed {
            return None;
        }
        self.aud_pressed = true;
        if self.index < self.cfg.n {
            return Some(Press::Unscored);
        }
        if self.is_audio_match(self.index) {
            self.audio.hits = self.audio.hits + 1;
            Some(Press::Correct)
        } else {
            self.audio.false_alarms = self.audio.false_alarms + 1;
            Some(Press::Wrong)
        }
    }

    /// The session's summary: its level, length, both tallies and the
    /// combined score `floor(right * 100 / (right + wrong))` (0 when empty).
    pub fn result(&self) -> (r: SessionResult)
        requires
            (self@.position.hits + self@.audio.hits) * 100 <= u32::MAX,
            self@.position.hits + self@.audio.hits + wrong_of(self@.position) + wrong_of(
                self@.audio,
            ) <= u32::MAX,
        ensures
            r.n == self@.cfg.n,
            r.trials == self@.trials.len(),
            r.position@ == self@.position,
            r.audio@ == self@.audio,
            r.score == combined_score(self@.position, self@.audio),
            ({
                let right = self.position.hits + self.audio.hits;
                let all = right + self.position.misses + self.position.false_alarms
                    + self.audio.misses + self.audio.false_alarms;
                &&& all == 0 ==> r.score == 0
                &&& all > 0 ==> r.score == right * 100 / all
            }),
    {
        let right = self.position.hits + self.audio.hits;
        let wrong = self.position.wrong() + self.audio.wrong();
        let score = if right + wrong == 0 {
            0
        } else {
            (right * 100) / (right + wrong)
        };
        SessionResult {
            n: self.cfg.n,
            trials: self.trials.len(),
            position: self.position,
            audio: self.audio,
            score,
        }
    }
}

/// Boundaries compose: `j` boundaries followed by `k` more are `j + k`
/// boundaries, with the events in order.
pub proof fn lemma_boundaries_compose(v: SessionView, j: nat, k: nat)
    ensures
        boundaries(boundaries(v, j).0, k).0 == boundaries(v, j + k).0,
        boundaries(v, j).1 + boundaries(boundaries(v, j).0, k).1 == boundaries(v, j + k).1,
    decreases k,
{
    let w = boundaries(v, j).0;
    if k == 0 {
        assert(boundaries(v, j).1 + boundaries(w, 0).1 =~= boundaries(v, j).1);
    } else {
        lemma_boundaries_compose(v, j, (k - 1) as nat);
        let a = boundaries(v, j).1;
        let b = boundaries(w, (k - 1) as nat).1;
        let c = boundary(boundaries(w, (k - 1) as nat).0).1;
        assert(a + (b + c) =~= (a + b) + c);
        assert((j + k - 1) as nat == j + (k - 1) as nat);
    }
}

/// Boundaries neither read nor change the time spent in the current trial.
pub proof fn lemma_boundaries_ignore_time(v: SessionView, t: nat, k: nat)
    ensures
        boundaries(SessionView { elapsed_ms: t, ..v }, k).0 == (SessionView {
            elapsed_ms: t,
            ..boundaries(v, k).0
        }),
        boundaries(SessionView { elapsed_ms: t, ..v }, k).1 == boundaries(v, k).1,
    decreases k,
{
    if k > 0 {
        lemma_boundaries_ignore_time(v, t, (k - 1) as nat);
        lemma_boundaries_keep_time(v, (k - 1) as nat);
    }
}

/// Boundaries keep the time spent in the current trial.
pub proof fn lemma_boundaries_keep_time(v: SessionView, k: nat)
    ensures
        boundaries(v, k).0.elapsed_ms == v.elapsed_ms,
    decreases k,
{
    if k > 0 {
        lemma_boundaries_keep_time(v, (k - 1) as nat);
    }
}

/// Time may be delivered in any slices: advancing by `a` and then by `b`
/// gives the same trials, scores and events, in the same order, as
/// advancing by `a + b` at once. Only the time left over can differ, and
/// only when the first slice already ended the session (an ended session
/// ignores further time).
pub proof fn lemma_tick_split(v: SessionView, a: nat, b: nat)
    requires
        consistent(v),
    ensures
        ({
            let (v1, e1) = tick_model(v, a);
            let (v2, e2) = tick_model(v1, b);
            let (w, e) = tick_model(v, a + b);
            &&& e1 + e2 == e
            &&& v2 == SessionView { elapsed_ms: v2.elapsed_ms, ..w }
            &&& (!v1.finished ==> v2 == w)
        }),
{
    let (v1, e1) = tick_model(v, a);
    let (v2, e2) = tick_model(v1, b);
    let (w, e) = tick_model(v, a + b);
    if !v.started || v.finished {
        assert(e1 + e2 =~= e);
        return;
    }
    let t = v.cfg.trial_ms as nat;
    let rem = remaining(v);
    let k1 = crossings(v, a);
    let k = crossings(v, a + b);
    lemma_boundaries(v, k1);
    if k1 == rem {
        if t > 0 {
            lemma_div_is_ordered((v.elapsed_ms + a) as int, (v.elapsed_ms + a + b) as int, t as int);
        }
        assert(k == rem);
        assert(e1 + e2 =~= e);
    } else {
        assert(t > 0);
        let ea = v.elapsed_ms + a;
        assert(k1 == ea / t);
        assert(k1 * t <= ea) by (nonlinear_arith)
            requires
                k1 == ea / t,
                t > 0,
        ;
        let r1 = (v.elapsed_ms + a - k1 * t) as nat;
        assert(v1 == SessionView { elapsed_ms: r1, ..boundaries(v, k1).0 });
        assert(remaining(v1) == rem - k1);
        let k2 = crossings(v1, b);
        lemma_hoist_over_denominator((r1 + b) as int, k1 as int, t);
        assert(r1 + b + k1 * t == v.elapsed_ms + a + b);
        assert(k == k1 + k2);
        lemma_boundaries_ignore_time(boundaries(v, k1).0, r1, k2);
        lemma_boundaries_compose(v, k1, k2);
        lemma_boundaries_keep_time(v, k);
        assert(k * t == k1 * t + k2 * t) by (nonlinear_arith)
            requires
                k == k1 + k2,
        ;
        assert(v2 == w);
        assert(e1 + e2 == e);
    }
}

/// Presses lock in: a second press on the same channel in the same trial is
/// ignored and changes nothing.
pub proof fn lemma_press_locks(v: SessionView)
    ensures
        press_position_model(press_position_model(v).0) == (press_position_model(v).0, None::<Press>),
        press_audio_model(press_audio_model(v).0) == (press_audio_model(v).0, None::<Press>),
{
}

/// The first `n` trials are warm-up and never scored: a press there is
/// `Unscored` and ending such a trial counts nothing and reports no miss.
pub proof fn lemma_warmup_unscored(v: SessionView)
    requires
        v.index < v.cfg.n,
    ensures
        press_position_model(v).0.position == v.position,
        press_position_model(v).1 is Some ==> press_position_model(v).1 == Some(Press::Unscored),
        press_audio_model(v).0.audio == v.audio,
        press_audio_model(v).1 is Some ==> press_audio_model(v).1 == Some(Press::Unscored),
        finalize(v) == (v, Seq::<TickEvent>::empty()),
{
}

/// A judged press reports what it tallied. In a running session, the first
/// press on a channel in a scored trial is `Correct` exactly when the trial
/// repeats that channel's stimulus from `n` trials back, and then counts a
/// hit; otherwise it is `Wrong` and counts a false alarm. In warm-up it is
/// `Unscored` and counts nothing; before the start, after the end or after
/// a first press it is ignored.
pub proof fn lemma_press_judgement(v: SessionView)
    ensures
        ({
            let (w, r) = press_position_model(v);
            let live = v.started && !v.finished && !v.pos_pressed;
            let is_match = position_match(v.trials, v.cfg.n as nat, v.index);
            &&& r is None <==> !live
            &&& r == Some(Press::Unscored) <==> live && v.index < v.cfg.n
            &&& r == Some(Press::Correct) <==> live && v.index >= v.cfg.n && is_match
            &&& r == Some(Press::Wrong) <==> live && v.index >= v.cfg.n && !is_match
            &&& r == Some(Press::Correct) ==> w.position == (Tally {
                hits: v.position.hits + 1,
                ..v.position
            })
            &&& r == Some(Press::Wrong) ==> w.position == (Tally {
                false_alarms: v.position.false_alarms + 1,
                ..v.position
            })
            &&& r != Some(Press::Correct) && r != Some(Press::Wrong) ==> w.position == v.position
            &&& w.audio == v.audio
        }),
        ({
            let (w, r) = press_audio_model(v);
            let live = v.started && !v.finished && !v.aud_pressed;
            let is_match = audio_match(v.trials, v.cfg.n as nat, v.index);
            &&& r is None <==> !live
            &&& r == Some(Press::Unscored) <==> live && v.index < v.cfg.n
            &&& r == Some(Press::Correct) <==> live && v.index >= v.cfg.n && is_match
            &&& r == Some(Press::Wrong) <==> live && v.index >= v.cfg.n && !is_match
            &&& r == Some(Press::Correct) ==> w.audio == (Tally { hits: v.audio.hits + 1, ..v.audio })
            &&& r == Some(Press::Wrong) ==> w.audio == (Tally {
                false_alarms: v.audio.false_alarms + 1,
                ..v.audio
            })
            &&& r != Some(Press::Correct) && r != Some(Press::Wrong) ==> w.audio == v.audio
            &&& w.position == v.position
        }),
{
}

/// Correct rejections are not counted: ending a scored trial with neither a
/// match nor a press on a channel leaves that channel's tally unchanged.
pub proof fn lemma_correct_rejections_uncounted(v: SessionView)
    requires
        !position_match(v.trials, v.cfg.n as nat, v.index),
        !audio_match(v.trials, v.cfg.n as nat, v.index),
    ensures
        finalize(v).0.position == v.position,
        finalize(v).0.audio == v.audio,
        finalize(v).1 == Seq::<TickEvent>::empty(),
{
    assert(Seq::<TickEvent>::empty() + Seq::<TickEvent>::empty() =~= Seq::<TickEvent>::empty());
}

/// Once a session is over, every match in it was counted, and each was
/// either caught (a hit) or missed: per channel, hits plus misses equal the
/// matches, which equal the number of trials that repeat their stimulus
/// from `n` back.
pub proof fn lemma_ended_session_accounts_every_match(v: SessionView)
    requires
        consistent(v),
        v.finished,
        v.trials.len() > 0,
    ensures
        v.position.matches == position_matches_before(v.trials, v.cfg.n as nat, v.trials.len()),
        v.audio.matches == audio_matches_before(v.trials, v.cfg.n as nat, v.trials.len()),
        v.position.hits + v.position.misses == v.position.matches,
        v.audio.hits + v.audio.misses == v.audio.matches,
{
}

/// One call on a session, as the model sees it.
pub enum SessionStep {
    Start,
    PressPosition,
    PressAudio,
    Tick(nat),
}

/// One call and its answer (`None` for calls that give no press result).
pub open spec fn apply_step(v: SessionView, step: SessionStep) -> (SessionView, Option<Press>) {
    match step {
        SessionStep::Start => (SessionView { started: true, ..v }, None),
        SessionStep::PressPosition => press_position_model(v),
        SessionStep::PressAudio => press_audio_model(v),
        SessionStep::Tick(dt) => (tick_model(v, dt).0, None),
    }
}

/// The session after a run of calls.
pub open spec fn run_steps(v: SessionView, steps: Seq<SessionStep>) -> SessionView
    decreases steps.len(),
{
    if steps.len() == 0 {
        v
    } else {
        apply_step(run_steps(v, steps.drop_last()), steps.last()).0
    }
}

/// A press that was judged: correct or wrong.
pub open spec fn is_judged(p: Option<Press>) -> bool {
    p == Some(Press::Correct) || p == Some(Press::Wrong)
}

/// How many presses on one channel (`audio` picks it) in a run of calls
/// were judged.
pub open spec fn judged_presses(v: SessionView, steps: Seq<SessionStep>, audio: bool) -> nat
    decreases steps.len(),
{
    if steps.len() == 0 {
        0
    } else {
        let pre = steps.drop_last();
        let r = apply_step(run_steps(v, pre), steps.last()).1;
        let on_channel = if audio {
            steps.last() is PressAudio
        } else {
            steps.last() is PressPosition
        };
        judged_presses(v, pre, audio) + if on_channel && is_judged(r) {
            1nat
        } else {
            0nat
        }
    }
}

/// Boundaries never change hits or false alarms.
pub proof fn lemma_boundaries_keep_presses(v: SessionView, k: nat)
    ensures
        boundaries(v, k).0.position.hits == v.position.hits,
        boundaries(v, k).0.position.false_alarms == v.position.false_alarms,
        boundaries(v, k).0.audio.hits == v.audio.hits,
        boundaries(v, k).0.audio.false_alarms == v.audio.false_alarms,
    decreases k,
{
    if k > 0 {
        lemma_boundaries_keep_presses(v, (k - 1) as nat);
    }
}

/// Every call keeps the session invariant; only a judged press changes a
/// channel's hits plus false alarms, and by exactly one.
pub proof fn lemma_step(v: SessionView, step: SessionStep)
    requires
        consistent(v),
    ensures
        ({
            let (w, r) = apply_step(v, step);
            &&& consistent(w)
            &&& w.position.hits + w.position.false_alarms == v.position.hits
                + v.position.false_alarms + if step is PressPosition && is_judged(r) {
                1nat
            } else {
                0nat
            }
            &&& w.audio.hits + w.audio.false_alarms == v.audio.hits + v.audio.false_alarms
                + if step is PressAudio && is_judged(r) {
                1nat
            } else {
                0nat
            }
        }),
{
    match step {
        SessionStep::Tick(dt) => {
            if v.started && !v.finished {
                let k = crossings(v, dt);
                lemma_boundaries(v, k);
                lemma_boundaries_keep_presses(v, k);
            }
        },
        _ => {},
    }
}

/// Over any run of calls, the invariant holds and each channel's hits plus
/// false alarms grow by exactly the presses on it that were judged.
pub proof fn lemma_run_steps(v: SessionView, steps: Seq<SessionStep>)
    requires
        consistent(v),
    ensures
        consistent(run_steps(v, steps)),
        run_steps(v, steps).position.hits + run_steps(v, steps).position.false_alarms
            == v.position.hits + v.position.false_alarms + judged_presses(v, steps, false),
        run_steps(v, steps).audio.hits + run_steps(v, steps).audio.false_alarms == v.audio.hits
            + v.audio.false_alarms + judged_presses(v, steps, true),
    decreases steps.len(),
{
    if steps.len() > 0 {
        lemma_run_steps(v, steps.drop_last());
        lemma_step(run_steps(v, steps.drop_last()), steps.last());
    }
}

/// The scoring of a whole session: after any run of calls on a fresh
/// session that ends it, each channel counted every trial that repeats its
/// stimulus from `n` back as a match, each match was either a hit or a
/// miss, and hits plus false alarms are exactly the presses that were
/// judged.
pub proof fn lemma_session_scoring(cfg: SessionConfig, trials: Seq<Trial>, steps: Seq<SessionStep>)
    requires
        trials.len() > 0,
        run_steps(fresh(cfg, trials), steps).finished,
    ensures
        ({
            let v = run_steps(fresh(cfg, trials), steps);
            &&& v.position.matches == position_matches_before(trials, cfg.n as nat, trials.len())
            &&& v.audio.matches == audio_matches_before(trials, cfg.n as nat, trials.len())
            &&& v.position.hits + v.position.misses == v.position.matches
            &&& v.audio.hits + v.audio.misses == v.audio.matches
            &&& v.position.hits + v.position.false_alarms == judged_presses(
                fresh(cfg, trials),
                steps,
                false,
            )
            &&& v.audio.hits + v.audio.false_alarms == judged_presses(fresh(cfg, trials), steps, true)
        }),
{
    let v0 = fresh(cfg, trials);
    lemma_run_steps(v0, steps);
    lemma_run_keeps_trials(v0, steps);
    lemma_ended_session_accounts_every_match(run_steps(v0, steps));
}

/// Calls never change the configuration or the trials.
pub proof fn lemma_run_keeps_trials(v: SessionView, steps: Seq<SessionStep>)
    requires
        consistent(v),
    ensures
        run_steps(v, steps).cfg == v.cfg,
        run_steps(v, steps).trials == v.trials,
    decreases steps.len(),
{
    if steps.len() > 0 {
        lemma_run_keeps_trials(v, steps.drop_last());
        lemma_run_steps(v, steps.drop_last());
        let w = run_steps(v, steps.drop_last());
        match steps.last() {
            SessionStep::Tick(dt) => {
                if w.started && !w.finished {
                    lemma_boundaries(w, crossings(w, dt));
                }
            },
            _ => {},
        }
    }
}

} // verus!
