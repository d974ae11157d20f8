//! Stimulus values, per-modality tallies, session results and the adaptive
//! leveling rule.

use vstd::prelude::*;

verus! {

/// Distinct values per modality: 8 grid cells and 8 letters.
pub const STIM_VALUES: u8 = 8;

/// The grid cell (row-major 3×3) that shows position stimulus `p`: the
/// center cell 4 is reserved for the fixation cross.
pub open spec fn cell_of(p: nat) -> nat {
    if p < 4 { p } else { p + 1 }
}

/// Map a position stimulus (0..8) to its cell in the 3×3 grid; the center
/// cell (4) is reserved for the fixation cross.
pub fn position_cell(position: u8) -> (cell: usize)
    ensures
        cell == cell_of(position as nat),
{
    let p = position as usize;
    if p < 4 {
        p
    } else {
        p + 1
    }
}

/// One trial: a grid position and a letter, each in `0..STIM_VALUES`.
#[derive(Clone, Copy, Debug, PartialEq, Eq, Structural)]
pub struct Trial {
    pub position: u8,
    pub letter: u8,
}

/// Timing and length of one session. Times are whole milliseconds.
#[derive(Clone, Copy, Debug, PartialEq, Eq, Structural)]
pub struct SessionConfig {
    pub n: usize,
    pub total_trials: usize,
    pub trial_ms: u32,
    pub stim_ms: u32,
}

/// The counts of a `ModalityScore` as mathematical integers.
pub struct Tally {
    pub hits: nat,
    pub misses: nat,
    pub false_alarms: nat,
    pub matches: nat,
}

/// Tallies for one modality. "Wrong" combines misses and false alarms, and
/// correct rejections are not counted.
#[derive(Clone, Copy, Debug, PartialEq, Eq, Structural)]
pub struct ModalityScore {
    pub hits: u32,
    pub misses: u32,
    pub false_alarms: u32,
    /// How many scored trials actually contained a match.
    pub matches: u32,
}

impl View for ModalityScore {
    type V = Tally;

    open spec fn view(&self) -> Tally {
        Tally {
            hits: self.hits as nat,
            misses: self.misses as nat,
            false_alarms: self.false_alarms as nat,
            matches: self.matches as nat,
        }
    }
}

/// The empty tally.
pub open spec fn empty_tally() -> Tally {
    Tally { hits: 0, misses: 0, false_alarms: 0, matches: 0 }
}

/// Misses plus false alarms.
pub open spec fn wrong_of(t: Tally) -> nat {
    t.misses + t.false_alarms
}

/// `floor(right * 100 / (right + wrong))`, and 0 when nothing was counted.
pub open spec fn score_of(right: nat, wrong: nat) -> nat {
    if right + wrong == 0 {
        0
    } else {
        (right * 100) / (right + wrong)
    }
}

/// The percentage of one modality: hits against hits plus wrong answers.
pub open spec fn percent_of(t: Tally) -> nat {
    score_of(t.hits, wrong_of(t))
}

/// The combined score of both modalities, the value that leveling uses.
pub open spec fn combined_score(p: Tally, a: Tally) -> nat {
    score_of(p.hits + a.hits, wrong_of(p) + wrong_of(a))
}

impl Default for ModalityScore {
    fn default() -> (s: Self)
        ensures
            s@ == empty_tally(),
    {
        ModalityScore { hits: 0, misses: 0, false_alarms: 0, matches: 0 }
    }
}

impl ModalityScore {
    /// Misses plus false alarms.
    pub fn wrong(&self) -> (w: u32)
        requires
            self.misses + self.false_alarms <= u32::MAX,
        ensures
            w == wrong_of(self@),
    {
        self.misses + self.false_alarms
    }

    /// `floor(hits * 100 / (hits + wrong))`, 0 when empty.
    pub fn percent(&self) -> (p: u32)
        requires
            self.hits * 100 <= u32::MAX,
            self.hits + self.misses + self.false_alarms <= u32::MAX,
        ensures
            p == percent_of(self@),
    {
        let total = self.hits + self.wrong();
        if total == 0 {
            0
        } else {
            (self.hits * 100) / total
        }
    }
}

/// Summary of a finished session.
#[derive(Clone, Copy, Debug, PartialEq, Eq, Structural)]
pub struct SessionResult {
    pub n: usize,
    pub trials: usize,
    pub position: ModalityScore,
    pub audio: ModalityScore,
    /// Combined score across both modalities (the value leveling uses).
    pub score: u32,
}

/// What a key press meant, for immediate feedback.
#[derive(Clone, Copy, Debug, PartialEq, Eq, Structural)]
pub enum Press {
    Correct,
    Wrong,
    /// Pressed during the first n trials, which are never scored.
    Unscored,
}

/// What happened while time advanced.
#[derive(Clone, Copy, Debug, PartialEq, Eq, Structural)]
pub enum TickEvent {
    /// A new trial began: show its square and play its sound.
    TrialStarted(usize),
    /// The trial that just ended had an unanswered position match.
    MissedPosition,
    /// The trial that just ended had an unanswered audio match.
    MissedAudio,
    SessionEnded,
}

/// Where a score stands against the leveling thresholds.
#[derive(Clone, Copy, Debug, PartialEq, Eq, Structural)]
pub enum ScoreBand {
    /// At or above the advance threshold.
    Advancing,
    /// Below the fallback threshold.
    Failing,
    /// In between.
    Holding,
}

/// Where `score` stands against the advance and fallback thresholds; the
/// advance threshold is checked first.
pub open spec fn band_of(score: nat, advance: nat, fallback: nat) -> ScoreBand {
    if score >= advance {
        ScoreBand::Advancing
    } else if score < fallback {
        ScoreBand::Failing
    } else {
        ScoreBand::Holding
    }
}

/// Where a score stands against the thresholds, which picks its color.
pub fn score_band(score: u32, advance: u32, fallback: u32) -> (band: ScoreBand)
    ensures
        band == band_of(score as nat, advance as nat, fallback as nat),
{
    if score >= advance {
        ScoreBand::Advancing
    } else if score < fallback {
        ScoreBand::Failing
    } else {
        ScoreBand::Holding
    }
}

/// How the level moved after a session.
#[derive(Clone, Copy, Debug, PartialEq, Eq, Structural)]
pub enum Outcome {
    Advance,
    Fallback,
    Stay,
}

/// The level and strike counter to use for the next session.
#[derive(Clone, Copy, Debug, PartialEq, Eq, Structural)]
pub struct LevelChange {
    pub outcome: Outcome,
    pub n: usize,
    pub streak: u32,
}

/// The leveling rule: advance at `advance` or better; below `fallback` a
/// strike is added (mid-range scores keep the counter as it is), and the
/// level drops (never below 1) once `sessions` strikes accumulate. Level
/// changes reset the counter.
pub open spec fn level_rule(
    n: nat,
    score: nat,
    advance: nat,
    fallback: nat,
    sessions: nat,
    streak: nat,
) -> (Outcome, nat, nat) {
    if score >= advance {
        (Outcome::Advance, n + 1, 0)
    } else if n > 1 && score < fallback {
        if streak + 1 >= sessions {
            (Outcome::Fallback, (n - 1) as nat, 0)
        } else {
            (Outcome::Stay, n, streak + 1)
        }
    } else {
        (Outcome::Stay, n, streak)
    }
}

/// The fields of a `LevelChange` as a triple of integers.
pub open spec fn change_parts(c: LevelChange) -> (Outcome, nat, nat) {
    (c.outcome, c.n as nat, c.streak as nat)
}

/// Brain Workshop leveling. Advance at `threshold_advance` or better. A score
/// below `threshold_fallback` increments a strike counter — which mid-range
/// scores do NOT reset — and the level drops (never below 1) once
/// `fallback_sessions` strikes accumulate. Level changes reset the counter.
pub fn decide_level(
    n: usize,
    score: u32,
    threshold_advance: u32,
    threshold_fallback: u32,
    fallback_sessions: u32,
    streak: u32,
) -> (change: LevelChange)
    requires
        score >= threshold_advance ==> n < usize::MAX,
        score < threshold_advance && n > 1 && score < threshold_fallback ==> streak < u32::MAX,
    ensures
        change_parts(change) == level_rule(
            n as nat,
            score as nat,
            threshold_advance as nat,
            threshold_fallback as nat,
            fallback_sessions as nat,
            streak as nat,
        ),
{
    if score >= threshold_advance {
        LevelChange { outcome: Outcome::Advance, n: n + 1, streak: 0 }
    } else if n > 1 && score < threshold_fallback {
        if streak + 1 >= fallback_sessions {
            LevelChange { outcome: Outcome::Fallback, n: n - 1, streak: 0 }
        } else {
            LevelChange { outcome: Outcome::Stay, n, streak: streak + 1 }
        }
    } else {
        LevelChange { outcome: Outcome::Stay, n, streak }
    }
}

/// The eight position stimuli land on eight different cells of the 3×3
/// grid, none of them the reserved center.
pub proof fn lemma_cells_skip_center(p: nat, q: nat)
    requires
        p < STIM_VALUES,
        q < STIM_VALUES,
    ensures
        cell_of(p) < 9,
        cell_of(p) != 4,
        p != q ==> cell_of(p) != cell_of(q),
{
}

/// A score is a percentage: never above 100.
pub proof fn lemma_score_at_most_100(right: nat, wrong: nat)
    ensures
        score_of(right, wrong) <= 100,
{
    if right + wrong > 0 {
        assert((right * 100) / (right + wrong) <= 100) by (nonlinear_arith)
            requires
                right + wrong > 0,
        ;
    }
}

/// Both modality percentages and the combined score are at most 100.
pub proof fn lemma_percentages_bounded(p: Tally, a: Tally)
    ensures
        percent_of(p) <= 100,
        percent_of(a) <= 100,
        combined_score(p, a) <= 100,
{
    lemma_score_at_most_100(p.hits, wrong_of(p));
    lemma_score_at_most_100(a.hits, wrong_of(a));
    lemma_score_at_most_100(p.hits + a.hits, wrong_of(p) + wrong_of(a));
}

/// The combined score from the tally fields: the hits of both channels
/// against every hit, miss and false alarm of either channel, as a
/// percentage rounded down, and 0 when nothing was counted.
pub proof fn lemma_combined_score_formula(p: Tally, a: Tally)
    ensures
        ({
            let right = p.hits + a.hits;
            let all = right + p.misses + p.false_alarms + a.misses + a.false_alarms;
            &&& all == 0 ==> combined_score(p, a) == 0
            &&& all > 0 ==> combined_score(p, a) == right * 100 / all
        }),
{
}

/// One more wrong answer never raises a score, and it always brings a
/// perfect score below 100.
proof fn lemma_one_more_wrong(right: nat, wrong: nat)
    ensures
        score_of(right, wrong + 1) <= score_of(right, wrong),
        score_of(right, wrong) == 100 ==> score_of(right, wrong + 1) < 100,
{
    if right + wrong > 0 {
        let x = right * 100;
        let d = right + wrong;
        vstd::arithmetic::div_mod::lemma_div_is_ordered_by_denominator(x as int, d as int, (d + 1) as int);
        if x / d == 100 {
            assert(wrong == 0) by (nonlinear_arith)
                requires
                    x == right * 100,
                    d == right + wrong,
                    d > 0,
                    x / d == 100,
            ;
            assert(x / (d + 1) < 100) by (nonlinear_arith)
                requires
                    x == right * 100,
                    d == right,
                    d > 0,
            ;
        }
    }
}

/// A false alarm never helps: one more on either channel, all else equal,
/// never raises the combined score, and it always brings a score of 100
/// below 100. The same holds of one more miss.
pub proof fn lemma_false_alarm_never_helps(p: Tally, a: Tally)
    ensures
        combined_score(Tally { false_alarms: p.false_alarms + 1, ..p }, a) <= combined_score(p, a),
        combined_score(p, Tally { false_alarms: a.false_alarms + 1, ..a }) <= combined_score(p, a),
        combined_score(Tally { misses: p.misses + 1, ..p }, a) <= combined_score(p, a),
        combined_score(p, Tally { misses: a.misses + 1, ..a }) <= combined_score(p, a),
        combined_score(p, a) == 100 ==> combined_score(
            Tally { false_alarms: p.false_alarms + 1, ..p },
            a,
        ) < 100,
        combined_score(p, a) == 100 ==> combined_score(
            p,
            Tally { false_alarms: a.false_alarms + 1, ..a },
        ) < 100,
{
    lemma_one_more_wrong(p.hits + a.hits, wrong_of(p) + wrong_of(a));
}

/// The level moves by at most one, never below 1, and every level change
/// resets the strike counter: Advance is n + 1, Fallback is n − 1, Stay
/// keeps n.
pub proof fn lemma_level_steps(
    n: nat,
    score: nat,
    advance: nat,
    fallback: nat,
    sessions: nat,
    streak: nat,
)
    requires
        n >= 1,
    ensures
        ({
            let (o, m, s) = level_rule(n, score, advance, fallback, sessions, streak);
            &&& m >= 1
            &&& (o == Outcome::Advance <==> m == n + 1)
            &&& (o == Outcome::Fallback <==> m + 1 == n)
            &&& (o == Outcome::Stay <==> m == n)
            &&& (o != Outcome::Stay ==> s == 0)
        }),
{
}

/// Mid-range scores (at or above the fallback threshold, below the advance
/// threshold) neither move the level nor clear the strikes; at level 1 a
/// low score adds no strike either.
pub proof fn lemma_level_holds(
    n: nat,
    score: nat,
    advance: nat,
    fallback: nat,
    sessions: nat,
    streak: nat,
)
    requires
        score < advance,
        fallback <= score || n <= 1,
    ensures
        level_rule(n, score, advance, fallback, sessions, streak) == (Outcome::Stay, n, streak),
{
}

/// The level and strike counter after a run of sessions with the given
/// scores.
pub open spec fn after_run(
    n: nat,
    streak: nat,
    scores: Seq<nat>,
    advance: nat,
    fallback: nat,
    sessions: nat,
) -> (nat, nat)
    decreases scores.len(),
{
    if scores.len() == 0 {
        (n, streak)
    } else {
        let (m, s) = after_run(n, streak, scores.drop_last(), advance, fallback, sessions);
        let (_, m2, s2) = level_rule(m, scores.last(), advance, fallback, sessions, s);
        (m2, s2)
    }
}

/// Strikes accumulate: from a clear counter above level 1, a run of
/// `sessions` low scores drops the level by exactly one (with the counter
/// cleared) on the last of them, and any shorter run leaves the level with
/// one strike per session.
pub proof fn lemma_strikes_drop_level(
    n: nat,
    scores: Seq<nat>,
    advance: nat,
    fallback: nat,
    sessions: nat,
)
    requires
        n > 1,
        sessions >= 1,
        scores.len() <= sessions,
        forall|i: int| 0 <= i < scores.len() ==> #[trigger] scores[i] < fallback && scores[i] < advance,
    ensures
        after_run(n, 0, scores, advance, fallback, sessions) == if scores.len() == sessions {
            ((n - 1) as nat, 0nat)
        } else {
            (n, scores.len())
        },
    decreases scores.len(),
{
    if scores.len() > 0 {
        let pre = scores.drop_last();
        assert forall|i: int| 0 <= i < pre.len() implies #[trigger] pre[i] < fallback && pre[i]
            < advance by {
            assert(pre[i] == scores[i]);
        }
        lemma_strikes_drop_level(n, pre, advance, fallback, sessions);
        assert(scores.last() == scores[scores.len() - 1]);
    }
}

} // verus!
