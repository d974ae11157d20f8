//! Stimulus generation: a uniformly random value per trial, except a
//! one-in-eight chance of forcing the n-back match and a one-in-eight chance
//! of forcing an interference lure.

use vstd::prelude::*;
use rand::rngs::StdRng;
use rand::seq::IndexedRandom;
use rand::RngExt;
use crate::game::{Trial, STIM_VALUES};

verus! {

/// A trial is forced to match its n-back stimulus with a chance of one in
/// this many.
pub const CHANCE_GUARANTEED_MATCH_ONE_IN: u32 = 8;

/// A trial is forced to be an interference lure with a chance of one in this
/// many.
pub const CHANCE_INTERFERENCE_ONE_IN: u32 = 8;

/// The random generator that drives stimulus generation.
#[verifier::external_type_specification]
#[verifier::external_body]
pub struct ExStdRng(StdRng);

/// `RngExt::random_range(0..STIM_VALUES)`: a uniformly drawn stimulus value.
/// Claimed: the value lies in `0..STIM_VALUES` (the range is not empty, so
/// the call does not panic). Which value comes is left open.
#[verifier::external_body]
fn random_stim(rng: &mut StdRng) -> (v: u8)
    ensures
        v < STIM_VALUES,
{
    rng.random_range(0..STIM_VALUES)
}

/// `RngExt::random_ratio(1, denominator)`: true with a chance of one in
/// `denominator`. It panics when `denominator` is 0, which `requires` rules
/// out; nothing is claimed of the outcome.
#[verifier::external_body]
fn one_in(rng: &mut StdRng, denominator: u32) -> (b: bool)
    requires
        denominator > 0,
{
    rng.random_ratio(1, denominator)
}

/// `IndexedRandom::choose` on a slice of stimulus values, copied out.
/// Claimed: `None` exactly when the slice is empty, otherwise one of its
/// elements. Which element is left open.
#[verifier::external_body]
fn choose_lure(lures: &[u8], rng: &mut StdRng) -> (r: Option<u8>)
    ensures
        r is None <==> lures@.len() == 0,
        r matches Some(v) ==> lures@.contains(v),
{
    lures.choose(rng).copied()
}

/// How far back an interference lure may look: n−1, n+1 or 2n trials (the
/// n−1 lure is skipped below n = 3).
pub open spec fn lure_backs(n: nat) -> Seq<nat> {
    if n < 3 {
        seq![n + 1, 2 * n]
    } else {
        seq![(n - 1) as nat, n + 1, 2 * n]
    }
}

/// The stimuli `backs` trials ago, in the order of `backs`, that exist and
/// differ from `target`.
pub open spec fn lures_of(s: Seq<u8>, target: u8, backs: Seq<nat>) -> Seq<u8>
    decreases backs.len(),
{
    if backs.len() == 0 {
        seq![]
    } else {
        let b = backs[0];
        let rest = lures_of(s, target, backs.drop_first());
        if 0 < b <= s.len() && s[s.len() - b] != target {
            seq![s[s.len() - b]] + rest
        } else {
            rest
        }
    }
}

/// The interference lures for the next stimulus after `s` at level `n`:
/// earlier stimuli at the lure distances that differ from the real n-back
/// value.
pub open spec fn lure_values(s: Seq<u8>, n: nat) -> Seq<u8> {
    lures_of(s, s[s.len() - n], lure_backs(n))
}

/// The next stimulus, given what the random draws returned: during the first
/// `n` trials the random value; then the n-back value when a match is
/// forced; else a picked lure when a lure was rolled (n > 1) and one exists;
/// else the random value.
pub open spec fn stim_choice(
    s: Seq<u8>,
    n: nat,
    random_value: u8,
    forced_match: bool,
    lure_roll: bool,
    pick: Option<u8>,
) -> u8 {
    if s.len() < n {
        random_value
    } else if forced_match {
        s[s.len() - n]
    } else if lure_roll && n > 1 && pick is Some {
        pick->0
    } else {
        random_value
    }
}

/// The interference lure candidates for the stimulus that follows `seq`.
pub fn lure_candidates(seq: &[u8], n: usize) -> (lures: Vec<u8>)
    requires
        1 <= n <= seq@.len(),
    ensures
        lures@ == lure_values(seq@, n as nat),
{
    let i = seq.len();
    let target = seq[i - n];
    let mut lures: Vec<u8> = Vec::new();
    if n >= 3 && seq[i - (n - 1)] != target {
        lures.push(seq[i - (n - 1)]);
    }
    if n < i && seq[i - (n + 1)] != target {
        lures.push(seq[i - (n + 1)]);
    }
    if n <= i - n && seq[i - n - n] != target {
        lures.push(seq[i - n - n]);
    }
    proof {
        let s = seq@;
        let backs = lure_backs(n as nat);
        reveal_with_fuel(lures_of, 4);
        if n < 3 {
            assert(backs.drop_first() =~= seq![(2 * n) as nat]);
            assert(backs.drop_first().drop_first() =~= Seq::<nat>::empty());
        } else {
            assert(backs.drop_first() =~= seq![(n + 1) as nat, (2 * n) as nat]);
            assert(backs.drop_first().drop_first() =~= seq![(2 * n) as nat]);
            assert(backs.drop_first().drop_first().drop_first() =~= Seq::<nat>::empty());
        }
        assert(lures@ =~= lure_values(s, n as nat));
    }
    lures
}

/// The decision of `next_stim` once the random draws are in; see
/// `stim_choice`.
pub fn pick_stim(
    seq: &[u8],
    n: usize,
    random_value: u8,
    forced_match: bool,
    lure_roll: bool,
    pick: Option<u8>,
) -> (v: u8)
    requires
        n >= 1,
    ensures
        v == stim_choice(seq@, n as nat, random_value, forced_match, lure_roll, pick),
{
    let i = seq.len();
    if i < n {
        return random_value;
    }
    if forced_match {
        return seq[i - n];
    }
    if lure_roll && n > 1 {
        if let Some(lure) = pick {
            return lure;
        }
    }
    random_value
}

/// Every stimulus is a value in `0..STIM_VALUES`.
pub open spec fn all_stims(s: Seq<u8>) -> bool {
    forall|k: int| 0 <= k < s.len() ==> #[trigger] s[k] < STIM_VALUES
}

/// Brain Workshop's stimulus choice: a uniformly random value, except a
/// one-in-eight chance of forcing the n-back match and a one-in-eight chance
/// of forcing an interference lure — a repeat of the (n−1)-, (n+1)- or
/// 2n-back stimulus (the (n−1) lure is skipped for n = 2). Lures must differ
/// from the real n-back value; if no candidate qualifies, the random value
/// stands.
pub fn next_stim(seq: &[u8], n: usize, rng: &mut StdRng) -> (v: u8)
    requires
        n >= 1,
    ensures
        v < STIM_VALUES || (seq@.len() >= n && (v == seq@[seq@.len() - n] || lure_values(
            seq@,
            n as nat,
        ).contains(v))),
        all_stims(seq@) ==> v < STIM_VALUES,
{
    let i = seq.len();
    let random_value = random_stim(rng);
    if i < n {
        return random_value;
    }
    let forced_match = one_in(rng, CHANCE_GUARANTEED_MATCH_ONE_IN);
    let lure_roll = one_in(rng, CHANCE_INTERFERENCE_ONE_IN);
    let mut pick: Option<u8> = None;
    if !forced_match && lure_roll && n > 1 {
        let lures = lure_candidates(seq, n);
        pick = choose_lure(lures.as_slice(), rng);
        proof {
            if pick is Some && all_stims(seq@) {
                let w = pick->0;
                lemma_lures_in_range(seq@, seq@[seq@.len() - n as int], lure_backs(n as nat));
                let k = choose|k: int| 0 <= k < lures@.len() && lures@[k] == w;
                assert(lures@[k] < STIM_VALUES);
            }
        }
    }
    pick_stim(seq, n, random_value, forced_match, lure_roll, pick)
}

/// Lures are taken from the stimuli themselves.
proof fn lemma_lures_in_range(s: Seq<u8>, target: u8, backs: Seq<nat>)
    requires
        all_stims(s),
    ensures
        all_stims(lures_of(s, target, backs)),
    decreases backs.len(),
{
    if backs.len() > 0 {
        lemma_lures_in_range(s, target, backs.drop_first());
        let b = backs[0];
        if 0 < b <= s.len() && s[s.len() - b] != target {
            assert(s[s.len() - b] < STIM_VALUES);
            assert(lures_of(s, target, backs) =~= seq![s[s.len() - b]] + lures_of(
                s,
                target,
                backs.drop_first(),
            ));
        }
    }
}

/// A stream of `total` stimuli for one modality.
pub fn generate_stream(n: usize, total: usize, rng: &mut StdRng) -> (seq: Vec<u8>)
    requires
        total > 0 ==> n >= 1,
    ensures
        seq@.len() == total,
        all_stims(seq@),
{
    let mut seq: Vec<u8> = Vec::with_capacity(total);
    let mut k: usize = 0;
    while k < total
        invariant
            k <= total,
            total > 0 ==> n >= 1,
            seq@.len() == k,
            all_stims(seq@),
        decreases total - k,
    {
        let v = next_stim(seq.as_slice(), n, rng);
        seq.push(v);
        k = k + 1;
    }
    seq
}

/// The trials built from a position stream and a letter stream: trial `k`
/// shows the `k`-th position and plays the `k`-th letter.
pub open spec fn paired(positions: Seq<u8>, letters: Seq<u8>) -> Seq<Trial> {
    Seq::new(positions.len(), |k: int| Trial { position: positions[k], letter: letters[k] })
}

/// Pair a position stream with a letter stream of the same length, trial by
/// trial.
pub fn pair_streams(positions: &Vec<u8>, letters: &Vec<u8>) -> (trials: Vec<Trial>)
    requires
        positions@.len() == letters@.len(),
    ensures
        trials@ == paired(positions@, letters@),
{
    let total = positions.len();
    let mut trials: Vec<Trial> = Vec::with_capacity(total);
    let mut k: usize = 0;
    while k < total
        invariant
            k <= total,
            total == positions@.len(),
            positions@.len() == letters@.len(),
            trials@ == paired(positions@, letters@).take(k as int),
        decreases total - k,
    {
        trials.push(Trial { position: positions[k], letter: letters[k] });
        k = k + 1;
        assert(trials@ =~= paired(positions@, letters@).take(k as int));
    }
    assert(trials@ =~= paired(positions@, letters@));
    trials
}

/// The trials of one session: a position stream is drawn first, then an
/// independent letter stream, and the two are paired trial by trial.
pub fn generate_trials(n: usize, total: usize, rng: &mut StdRng) -> (trials: Vec<Trial>)
    requires
        total > 0 ==> n >= 1,
    ensures
        trials@.len() == total,
        forall|k: int|
            0 <= k < total ==> #[trigger] trials@[k].position < STIM_VALUES
                && trials@[k].letter < STIM_VALUES,
        exists|positions: Seq<u8>, letters: Seq<u8>|
            positions.len() == total && letters.len() == total && all_stims(positions)
                && all_stims(letters) && trials@ == paired(positions, letters),
{
    let positions = generate_stream(n, total, rng);
    let letters = generate_stream(n, total, rng);
    let trials = pair_streams(&positions, &letters);
    proof {
        assert forall|j: int| 0 <= j < total implies #[trigger] trials@[j].position < STIM_VALUES
            && trials@[j].letter < STIM_VALUES by {
            assert(trials@[j] == paired(positions@, letters@)[j]);
            assert(positions@[j] < STIM_VALUES);
            assert(letters@[j] < STIM_VALUES);
        }
    }
    trials
}

} // verus!
