//! Session history and the aggregates shown on the stats screen.

use vstd::prelude::*;
use chrono::Datelike;
use crate::game::{percent_of, LevelChange, Outcome, SessionResult};

verus! {

/// One finished session. `ts_secs` and `ts_subsec_nanos` are when it
/// ended: whole seconds since the Unix epoch and the nanoseconds past that
/// second (1_000_000_000 or more within a leap second) and `day` is that moment's local calendar date, counted
/// in days from 0001-01-01 (day 1).
#[derive(Clone, Copy, Debug, PartialEq, Eq, Structural)]
pub struct SessionRecord {
    pub ts_secs: i64,
    pub ts_subsec_nanos: u32,
    pub day: i32,
    pub n: usize,
    pub position_pct: u32,
    pub audio_pct: u32,
    pub score: u32,
    pub trials: usize,
    pub outcome: Outcome,
    pub manual: bool,
}

impl SessionRecord {
    /// The record of a finished session: its level, both percentages, the
    /// combined score, its length and the leveling outcome.
    pub fn from_result(
        result: &SessionResult,
        change: &LevelChange,
        manual: bool,
        ts_secs: i64,
        ts_subsec_nanos: u32,
        day: i32,
    ) -> (r: Self)
        requires
            result.position.hits * 100 <= u32::MAX,
            result.position.hits + result.position.misses + result.position.false_alarms
                <= u32::MAX,
            result.audio.hits * 100 <= u32::MAX,
            result.audio.hits + result.audio.misses + result.audio.false_alarms <= u32::MAX,
        ensures
            r == (SessionRecord {
                ts_secs,
                ts_subsec_nanos,
                day,
                n: result.n,
                position_pct: percent_of(result.position@) as u32,
                audio_pct: percent_of(result.audio@) as u32,
                score: result.score,
                trials: result.trials,
                outcome: change.outcome,
                manual,
            }),
    {
        SessionRecord {
            ts_secs,
            ts_subsec_nanos,
            day,
            n: result.n,
            position_pct: result.position.percent(),
            audio_pct: result.audio.percent(),
            score: result.score,
            trials: result.trials,
            outcome: change.outcome,
            manual,
        }
    }
}

/// The level a session reached: its n, plus one if it advanced.
pub open spec fn level_reached(r: SessionRecord) -> nat {
    (r.n as nat) + if r.outcome == Outcome::Advance {
        1nat
    } else {
        0nat
    }
}

/// `m` is the highest level any of the records reached.
pub open spec fn is_best(s: Seq<SessionRecord>, m: nat) -> bool {
    &&& exists|i: int| 0 <= i < s.len() && m == level_reached(#[trigger] s[i])
    &&& forall|i: int| 0 <= i < s.len() ==> level_reached(#[trigger] s[i]) <= m
}

/// There is only one best level, and a new session raises it to its own
/// level when that is higher and leaves it otherwise.
pub proof fn lemma_best_level_push(s: Seq<SessionRecord>, r: SessionRecord, m: nat, m2: nat)
    ensures
        is_best(s, m) && is_best(s, m2) ==> m == m2,
        is_best(s, m) ==> is_best(
            s.push(r),
            if level_reached(r) > m {
                level_reached(r)
            } else {
                m
            },
        ),
        s.len() == 0 ==> is_best(s.push(r), level_reached(r)),
{
    let t = s.push(r);
    assert(t[s.len() as int] == r);
    if is_best(s, m) && is_best(s, m2) {
        let i = choose|i: int| 0 <= i < s.len() && m == level_reached(#[trigger] s[i]);
        let j = choose|j: int| 0 <= j < s.len() && m2 == level_reached(#[trigger] s[j]);
        assert(level_reached(s[i]) <= m2);
        assert(level_reached(s[j]) <= m);
    }
    if is_best(s, m) {
        let i = choose|i: int| 0 <= i < s.len() && m == level_reached(#[trigger] s[i]);
        assert(t[i] == s[i]);
        assert forall|k: int| 0 <= k < t.len() implies level_reached(#[trigger] t[k]) <= (
        if level_reached(r) > m {
            level_reached(r)
        } else {
            m
        }) by {
            if k < s.len() {
                assert(t[k] == s[k]);
            }
        }
    }
}

/// How many of the records fall on local day `day`.
pub open spec fn count_on(s: Seq<SessionRecord>, day: i32) -> nat
    decreases s.len(),
{
    if s.len() == 0 {
        0
    } else {
        count_on(s.drop_last(), day) + if s.last().day == day {
            1nat
        } else {
            0nat
        }
    }
}

/// Adding a session counts it on its own day and nowhere else.
pub proof fn lemma_count_on_push(s: Seq<SessionRecord>, r: SessionRecord, day: i32)
    ensures
        count_on(s.push(r), day) == count_on(s, day) + if r.day == day {
            1nat
        } else {
            0nat
        },
{
    assert(s.push(r).drop_last() =~= s);
}

/// The record ended strictly after the moment `secs` seconds since the
/// epoch plus `subsec` nanoseconds: moments are ordered by their second,
/// then by the nanoseconds past it.
pub open spec fn ended_after(r: SessionRecord, secs: int, subsec: int) -> bool {
    r.ts_secs > secs || (r.ts_secs == secs && r.ts_subsec_nanos > subsec)
}

/// The scores of the records that ended strictly after the given moment,
/// in order.
pub open spec fn scores_after(s: Seq<SessionRecord>, secs: int, subsec: int) -> Seq<u32>
    decreases s.len(),
{
    if s.len() == 0 {
        seq![]
    } else if ended_after(s.last(), secs, subsec) {
        scores_after(s.drop_last(), secs, subsec).push(s.last().score)
    } else {
        scores_after(s.drop_last(), secs, subsec)
    }
}

/// The sum of a sequence of scores.
pub open spec fn sum_of(s: Seq<u32>) -> nat
    decreases s.len(),
{
    if s.len() == 0 {
        0
    } else {
        sum_of(s.drop_last()) + (s.last() as nat)
    }
}

/// The mean score (rounded down) of the sessions that ended after the given
/// moment, if any.
pub open spec fn mean_after(s: Seq<SessionRecord>, secs: int, subsec: int) -> Option<u32> {
    let recent = scores_after(s, secs, subsec);
    if recent.len() == 0 {
        None
    } else {
        Some((sum_of(recent) / recent.len()) as u32)
    }
}

/// Seconds in a day.
pub const SECONDS_PER_DAY: i128 = 86_400;

/// The mean score (rounded down) of the sessions that ended in the `days`
/// days before the moment `now_secs` seconds plus `now_subsec` nanoseconds
/// since the epoch, if any.
pub open spec fn mean_over_days(
    s: Seq<SessionRecord>,
    now_secs: int,
    now_subsec: int,
    days: int,
) -> Option<u32> {
    mean_after(s, now_secs - days * SECONDS_PER_DAY, now_subsec)
}

/// `chrono::Local::now()`, converted to plain values: the moment as whole
/// seconds since the Unix epoch (`DateTime::timestamp`) and the nanoseconds
/// past that second (`DateTime::timestamp_subsec_nanos`), and its local date
/// as `Datelike::num_days_from_ce`. It reads the clock and the time zone, so
/// nothing is claimed of the result.
#[verifier::external_body]
fn local_now() -> (now: (i64, u32, i32)) {
    let now = chrono::Local::now();
    (now.timestamp(), now.timestamp_subsec_nanos(), now.date_naive().num_days_from_ce())
}

/// The persisted history of finished sessions.
pub struct History {
    pub records: Vec<SessionRecord>,
}

impl Default for History {
    fn default() -> (h: Self)
        ensures
            h.records@.len() == 0,
    {
        History { records: Vec::new() }
    }
}

impl History {
    /// Append a finished session.
    pub fn push(&mut self, record: SessionRecord)
        ensures
            final(self).records@ == old(self).records@.push(record),
    {
        self.records.push(record);
    }

    /// Forget every session.
    pub fn clear(&mut self)
        ensures
            final(self).records@.len() == 0,
    {
        self.records.clear();
    }

    /// Highest level reached: the n of each session, plus one if it
    /// advanced; `None` without sessions.
    pub fn best_level(&self) -> (best: Option<usize>)
        requires
            forall|i: int|
                0 <= i < self.records@.len() ==> level_reached(#[trigger] self.records@[i])
                    <= usize::MAX,
        ensures
            best is None <==> self.records@.len() == 0,
            best matches Some(m) ==> is_best(self.records@, m as nat),
    {
        let mut best: Option<usize> = None;
        let mut k: usize = 0;
        while k < self.records.len()
            invariant
                k <= self.records@.len(),
                forall|i: int|
                    0 <= i < self.records@.len() ==> level_reached(#[trigger] self.records@[i])
                        <= usize::MAX,
                best is None <==> k == 0,
                best matches Some(m) ==> is_best(self.records@.take(k as int), m as nat),
            decreases self.records@.len() - k,
        {
            let r = self.records[k];
            assert(level_reached(self.records@[k as int]) <= usize::MAX);
            let level = if r.outcome == Outcome::Advance {
                r.n + 1
            } else {
                r.n
            };
            let ghost prev = best;
            match best {
                None => {
                    best = Some(level);
                },
                Some(m) => {
                    if level > m {
                        best = Some(level);
                    }
                },
            }
            proof {
                let pre = self.records@.take(k as int);
                assert(self.records@.take(k + 1) =~= pre.push(r));
                match prev {
                    Some(pm) => {
                        lemma_best_level_push(pre, r, pm as nat, 0);
                    },
                    None => {
                        lemma_best_level_push(pre, r, 0, 0);
                    },
                }
            }
            k = k + 1;
        }
        assert(self.records@.take(k as int) =~= self.records@);
        best
    }

    /// How many sessions ended on local day `day`.
    pub fn sessions_on(&self, day: i32) -> (count: usize)
        ensures
            count == count_on(self.records@, day),
    {
        let mut count: usize = 0;
        let mut k: usize = 0;
        while k < self.records.len()
            invariant
                k <= self.records@.len(),
                count <= k,
                count == count_on(self.records@.take(k as int), day),
            decreases self.records@.len() - k,
        {
            assert(self.records@.take(k + 1).drop_last() =~= self.records@.take(k as int));
            if self.records[k].day == day {
                count = count + 1;
            }
            k = k + 1;
        }
        assert(self.records@.take(k as int) =~= self.records@);
        count
    }

    /// How many sessions ended today (local time).
    pub fn sessions_today(&self) -> (count: usize)
        ensures
            exists|day: i32| count == count_on(self.records@, day),
    {
        let (_, _, day) = local_now();
        self.sessions_on(day)
    }

    /// Mean score (rounded down) of the sessions that ended strictly after
    /// the moment `cutoff_secs` seconds plus `cutoff_subsec_nanos`
    /// nanoseconds since the epoch, if any did.
    pub fn avg_score_after(&self, cutoff_secs: i128, cutoff_subsec_nanos: u32) -> (avg: Option<u32>)
        ensures
            avg == mean_after(self.records@, cutoff_secs as int, cutoff_subsec_nanos as int),
    {
        let mut sum: u128 = 0;
        let mut count: usize = 0;
        let mut k: usize = 0;
        let ghost cs = cutoff_secs as int;
        let ghost cn = cutoff_subsec_nanos as int;
        while k < self.records.len()
            invariant
                k <= self.records@.len(),
                count <= k,
                count == scores_after(self.records@.take(k as int), cs, cn).len(),
                sum == sum_of(scores_after(self.records@.take(k as int), cs, cn)),
                sum <= count * (u32::MAX as int),
                cs == cutoff_secs,
                cn == cutoff_subsec_nanos,
            decreases self.records@.len() - k,
        {
            assert(self.records@.take(k + 1).drop_last() =~= self.records@.take(k as int));
            let r = self.records[k];
            assert(self.records@.take(k + 1).last() == self.records@[k as int]);
            let later = r.ts_secs as i128 > cutoff_secs || (r.ts_secs as i128 == cutoff_secs
                && r.ts_subsec_nanos > cutoff_subsec_nanos);
            if later {
                proof {
                    let prev = scores_after(self.records@.take(k as int), cs, cn);
                    assert(scores_after(self.records@.take(k + 1), cs, cn) == prev.push(r.score));
                    assert(prev.push(r.score).drop_last() =~= prev);
                    assert(count < usize::MAX);
                    assert((count + 1) * (u32::MAX as int) == count * (u32::MAX as int) + u32::MAX)
                        by (nonlinear_arith);
                    assert(count * (u32::MAX as int) <= usize::MAX * (u32::MAX as int))
                        by (nonlinear_arith)
                        requires
                            count <= usize::MAX,
                    ;
                }
                sum = sum + r.score as u128;
                count = count + 1;
            }
            k = k + 1;
        }
        assert(self.records@.take(k as int) =~= self.records@);
        if count == 0 {
            None
        } else {
            assert((sum as int) / (count as int) <= u32::MAX) by (nonlinear_arith)
                requires
                    sum <= count * (u32::MAX as int),
                    count > 0,
            ;
            Some((sum / count as u128) as u32)
        }
    }

    /// Mean session score (rounded down) over the `days` days before the
    /// moment `secs` seconds plus `subsec_nanos` nanoseconds since the epoch,
    /// if any sessions ended in that window.
    pub fn avg_score_at(&self, secs: i64, subsec_nanos: u32, days: i64) -> (avg: Option<u32>)
        ensures
            avg == mean_over_days(self.records@, secs as int, subsec_nanos as int, days as int),
    {
        let cutoff_secs = secs as i128 - days as i128 * SECONDS_PER_DAY;
        self.avg_score_after(cutoff_secs, subsec_nanos)
    }

    /// Mean session score over the past `days` days, if any sessions exist:
    /// `avg_score_at` the current moment.
    pub fn avg_score_recent(&self, days: i64) -> (avg: Option<u32>)
        ensures
            exists|now_secs: int, now_subsec: int|
                avg == #[trigger] mean_over_days(self.records@, now_secs, now_subsec, days as int),
    {
        let (secs, subsec_nanos, _) = local_now();
        self.avg_score_at(secs, subsec_nanos, days)
    }
}

/// How many of the latest sessions the progress chart shows.
pub const CHART_SESSIONS: usize = 40;

/// The highest n among the records, or `default` when there are none.
pub open spec fn max_n_or(s: Seq<SessionRecord>, default: nat) -> nat
    decreases s.len(),
{
    if s.len() == 0 {
        default
    } else {
        let rest = max_n_or(s.drop_last(), default);
        if s.len() == 1 || s.last().n > rest {
            s.last().n as nat
        } else {
            rest
        }
    }
}

/// Where the chart's window of the latest sessions begins.
pub fn chart_start(len: usize) -> (start: usize)
    ensures
        start == if len > CHART_SESSIONS { len - CHART_SESSIONS } else { 0 },
{
    if len > CHART_SESSIONS {
        len - CHART_SESSIONS
    } else {
        0
    }
}

/// The top of the chart's level axis: one above the highest level shown,
/// and at least 4 (3 when no session is shown counts as level 2).
pub fn chart_level_top(records: &[SessionRecord]) -> (top: usize)
    requires
        max_n_or(records@, 2) < usize::MAX,
    ensures
        top == (if max_n_or(records@, 2) > 3 { max_n_or(records@, 2) } else { 3 }) + 1,
{
    let mut best: usize = 2;
    let mut k: usize = 0;
    while k < records.len()
        invariant
            k <= records@.len(),
            best == max_n_or(records@.take(k as int), 2),
        decreases records@.len() - k,
    {
        assert(records@.take(k + 1).drop_last() =~= records@.take(k as int));
        assert(records@.take(k + 1).last() == records@[k as int]);
        let n = records[k].n;
        if k == 0 || n > best {
            best = n;
        }
        k = k + 1;
    }
    assert(records@.take(k as int) =~= records@);
    let floor = if best > 3 {
        best
    } else {
        3
    };
    floor + 1
}

} // verus!
