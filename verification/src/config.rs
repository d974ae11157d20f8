//! User settings plus the small bit of adaptive state (current level,
//! fallback streak) that has to survive restarts.

use vstd::prelude::*;
use crate::game::{change_parts, decide_level, level_rule, LevelChange, Outcome, SessionConfig};

verus! {

/// The lowest level the settings offer.
pub const MIN_LEVEL: usize = 1;

/// The highest level the settings offer.
pub const MAX_LEVEL: usize = 15;

/// What the audio channel plays for each stimulus.
#[derive(Clone, Copy, Debug, PartialEq, Eq, Structural)]
pub enum AudioSet {
    /// Spoken letters (c, h, k, l, q, r, s, t) — the classic dual n-back.
    Letters,
    /// Synthesized piano-like tones.
    Tones,
}

impl Default for AudioSet {
    fn default() -> (a: Self)
        ensures
            a == AudioSet::Letters,
    {
        AudioSet::Letters
    }
}

/// User settings plus the adaptive state that has to survive restarts.
/// Defaults mirror Brain Workshop's standard mode.
#[derive(Clone, Copy, Debug, PartialEq, Eq, Structural)]
pub struct Config {
    /// Current n-back level.
    pub n: usize,
    /// Automatically raise/lower n based on session scores.
    pub adaptive: bool,
    /// Length of one trial in milliseconds.
    pub trial_ms: u32,
    /// How long the square stays visible within a trial, in milliseconds.
    pub stim_ms: u32,
    /// Base trial count; the session total is `base_trials + n²`.
    pub base_trials: usize,
    /// Level up when the session score reaches this percentage.
    pub threshold_advance: u32,
    /// Level down after `fallback_sessions` consecutive sessions below this percentage.
    pub threshold_fallback: u32,
    /// How many consecutive below-fallback sessions trigger a level down.
    pub fallback_sessions: u32,
    /// Show green/red feedback as soon as a match key is pressed.
    pub feedback: bool,
    /// The IEEE-754 single-precision bit pattern of the master volume
    /// (0.0–1.0); the library stores it and never interprets it.
    pub volume_bits: u32,
    pub audio_set: AudioSet,
    /// Consecutive sessions below the fallback threshold at the current level.
    pub fallback_streak: u32,
}

/// The bit pattern of a volume of 0.8.
pub const DEFAULT_VOLUME_BITS: u32 = 0x3F4C_CCCD;

/// Total trials for a session: the base count plus n².
pub open spec fn trials_for(base: nat, n: nat) -> nat {
    base + n * n
}

/// `n` clamped to the levels the settings offer.
pub open spec fn clamp_level(n: nat) -> nat {
    if n < MIN_LEVEL {
        MIN_LEVEL as nat
    } else if n > MAX_LEVEL {
        MAX_LEVEL as nat
    } else {
        n
    }
}

impl Default for Config {
    fn default() -> (c: Self)
        ensures
            c == (Config {
                n: 2,
                adaptive: true,
                trial_ms: 3000,
                stim_ms: 500,
                base_trials: 20,
                threshold_advance: 80,
                threshold_fallback: 50,
                fallback_sessions: 3,
                feedback: true,
                volume_bits: DEFAULT_VOLUME_BITS,
                audio_set: AudioSet::Letters,
                fallback_streak: 0,
            }),
    {
        Config {
            n: 2,
            adaptive: true,
            trial_ms: 3000,
            stim_ms: 500,
            base_trials: 20,
            threshold_advance: 80,
            threshold_fallback: 50,
            fallback_sessions: 3,
            feedback: true,
            volume_bits: DEFAULT_VOLUME_BITS,
            audio_set: AudioSet::Letters,
            fallback_streak: 0,
        }
    }
}

impl Config {
    /// Total trials for a session at level `n` (Brain Workshop: 20 + n²).
    pub fn total_trials(&self) -> (t: usize)
        requires
            trials_for(self.base_trials as nat, self.n as nat) <= usize::MAX,
        ensures
            t == trials_for(self.base_trials as nat, self.n as nat),
    {
        assert(self.n * self.n <= usize::MAX) by (nonlinear_arith)
            requires
                self.base_trials + self.n * self.n <= usize::MAX,
        ;
        self.base_trials + self.n * self.n
    }

    /// The session these settings ask for: the current level, `base + n²`
    /// trials, and the square shown for at most one trial.
    pub fn session_config(&self) -> (c: SessionConfig)
        requires
            trials_for(self.base_trials as nat, self.n as nat) <= usize::MAX,
        ensures
            c == (SessionConfig {
                n: self.n,
                total_trials: trials_for(self.base_trials as nat, self.n as nat) as usize,
                trial_ms: self.trial_ms,
                stim_ms: if self.stim_ms < self.trial_ms {
                    self.stim_ms
                } else {
                    self.trial_ms
                },
            }),
    {
        let stim_ms = if self.stim_ms < self.trial_ms {
            self.stim_ms
        } else {
            self.trial_ms
        };
        SessionConfig {
            n: self.n,
            total_trials: self.total_trials(),
            trial_ms: self.trial_ms,
            stim_ms,
        }
    }

    /// Move to level `n`, clamped to `MIN_LEVEL..=MAX_LEVEL`; a level change
    /// resets the fallback streak. Returns whether the level changed.
    pub fn set_level(&mut self, n: usize) -> (changed: bool)
        ensures
            changed == (clamp_level(n as nat) != old(self).n),
            changed ==> *final(self) == (Config {
                n: clamp_level(n as nat) as usize,
                fallback_streak: 0,
                ..*old(self)
            }),
            !changed ==> *final(self) == *old(self),
    {
        let n = if n < MIN_LEVEL {
            MIN_LEVEL
        } else if n > MAX_LEVEL {
            MAX_LEVEL
        } else {
            n
        };
        if n != self.n {
            self.n = n;
            self.fallback_streak = 0;
            true
        } else {
            false
        }
    }

    /// After a session: in manual mode the level and streak stay; in adaptive
    /// mode the leveling rule moves them. Returns the change and whether the
    /// session was played in manual mode.
    pub fn apply_session_score(&mut self, score: u32) -> (r: (LevelChange, bool))
        requires
            old(self).adaptive && score >= old(self).threshold_advance ==> old(self).n
                < usize::MAX,
            old(self).adaptive && score < old(self).threshold_advance && old(self).n > 1 && score
                < old(self).threshold_fallback ==> old(self).fallback_streak < u32::MAX,
        ensures
            r.1 == !old(self).adaptive,
            r.1 ==> r.0 == (LevelChange {
                outcome: Outcome::Stay,
                n: old(self).n,
                streak: old(self).fallback_streak,
            }) && *final(self) == *old(self),
            !r.1 ==> change_parts(r.0) == level_rule(
                old(self).n as nat,
                score as nat,
                old(self).threshold_advance as nat,
                old(self).threshold_fallback as nat,
                old(self).fallback_sessions as nat,
                old(self).fallback_streak as nat,
            ) && *final(self) == (Config {
                n: r.0.n,
                fallback_streak: r.0.streak,
                ..*old(self)
            }),
    {
        let manual = !self.adaptive;
        if manual {
            let change = LevelChange {
                outcome: Outcome::Stay,
                n: self.n,
                streak: self.fallback_streak,
            };
            (change, manual)
        } else {
            let change = decide_level(
                self.n,
                score,
                self.threshold_advance,
                self.threshold_fallback,
                self.fallback_sessions,
                self.fallback_streak,
            );
            self.n = change.n;
            self.fallback_streak = change.streak;
            (change, manual)
        }
    }

    /// Keep the thresholds coherent: the fallback threshold never exceeds
    /// the advance threshold.
    pub fn keep_thresholds_coherent(&mut self)
        ensures
            *final(self) == (Config {
                threshold_fallback: if old(self).threshold_fallback > old(
                    self,
                ).threshold_advance {
                    old(self).threshold_advance
                } else {
                    old(self).threshold_fallback
                },
                ..*old(self)
            }),
    {
        if self.threshold_fallback > self.threshold_advance {
            self.threshold_fallback = self.threshold_advance;
        }
    }

    /// Erase progress: back to Dual 2-Back with no strikes.
    pub fn reset_progress(&mut self)
        ensures
            *final(self) == (Config { n: 2, fallback_streak: 0, ..*old(self) }),
    {
        self.n = 2;
        self.fallback_streak = 0;
    }
}

/// Whatever level is asked for, the level set lies in `MIN_LEVEL..=MAX_LEVEL`,
/// and a level already in that range is taken as it is.
pub proof fn lemma_levels_stay_in_range(n: nat)
    ensures
        MIN_LEVEL <= clamp_level(n) <= MAX_LEVEL,
        MIN_LEVEL <= n <= MAX_LEVEL ==> clamp_level(n) == n,
{
}

} // verus!
