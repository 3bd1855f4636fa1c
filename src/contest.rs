//! The contest engine: repeated trials between two dice, tallied into a
//! result with a single overall outcome.

use crate::config::ContestSpec;
use crate::dice::Dice;
use crate::text::{append_padded, decimal, decimal_string, pad_left};
use vstd::arithmetic::div_mod::{lemma_fundamental_div_mod, lemma_mod_bound};
use vstd::prelude::*;

verus! {

/// Which side a contest, or a single trial, went to.
#[derive(Clone, Copy, PartialEq, Eq, Debug, Structural)]
pub enum Outcome {
    AWins,
    BWins,
    Tie,
}

/// The overall outcome for the given win counts: the strictly larger side,
/// or a tie when they are equal.
pub open spec fn outcome_of(a_wins: int, b_wins: int) -> Outcome {
    if a_wins > b_wins {
        Outcome::AWins
    } else if a_wins == b_wins {
        Outcome::Tie
    } else {
        Outcome::BWins
    }
}

/// How one trial with the given totals is classified.
pub open spec fn trial_outcome(trial: (int, int)) -> Outcome {
    outcome_of(trial.0, trial.1)
}

/// The label that names who won a contest.
pub open spec fn winner_label(a: Dice, b: Dice, outcome: Outcome) -> Seq<char> {
    match outcome {
        Outcome::AWins => a.label(),
        Outcome::BWins => b.label(),
        Outcome::Tie => "tie"@,
    }
}

/// Number of trials that were classified as `o`.
pub open spec fn count_outcome(trials: Seq<(int, int)>, o: Outcome) -> nat
    decreases trials.len(),
{
    if trials.len() == 0 {
        0
    } else {
        count_outcome(trials.drop_last(), o) + if trial_outcome(trials.last()) == o {
            1nat
        } else {
            0nat
        }
    }
}

/// Sum of a sequence of drawn faces.
pub open spec fn sum_of(draws: Seq<u8>) -> int
    decreases draws.len(),
{
    if draws.len() == 0 {
        0
    } else {
        sum_of(draws.drop_last()) + draws.last()
    }
}

/// `total` is the sum of `rolls` faces of `d`.
pub open spec fn is_roll_total(d: Dice, rolls: nat, total: int) -> bool {
    exists|draws: Seq<u8>|
        draws.len() == rolls && (forall|j: int| 0 <= j < draws.len() ==> d.face_values().contains(
            #[trigger] draws[j],
        )) && sum_of(draws) == total
}

/// `100 * count / samples`, truncated toward zero.
pub open spec fn percent_of(count: int, samples: int) -> int {
    100 * count / samples
}

/// Aggregate counts of a contest, and who won it.
#[derive(Debug)]
pub struct ContestResults {
    pub a: Dice,
    pub b: Dice,
    pub samples: u32,
    pub a_rolls: usize,
    pub b_rolls: usize,
    pub a_wins: u32,
    pub b_wins: u32,
    pub ties: u32,
    pub outcome: Outcome,
    pub winner: String,
}

impl ContestResults {
    /// The counts add up to the sample count, and the outcome and the
    /// winner's label follow from the counts.
    pub open spec fn wf(&self) -> bool {
        &&& self.a_wins + self.b_wins + self.ties == self.samples
        &&& self.outcome == outcome_of(self.a_wins as int, self.b_wins as int)
        &&& self.winner@ == winner_label(self.a, self.b, self.outcome)
    }
}

/// The sentence that reports a contest won by one side.
pub open spec fn win_line(
    winner: Seq<char>,
    winner_rolls: nat,
    win_pct: nat,
    tie_pct: nat,
    loss_pct: nat,
    loser: Seq<char>,
    loser_rolls: nat,
) -> Seq<char> {
    pad_left(winner, 7) + " "@ + pad_left(decimal(winner_rolls), 2) + " won with "@ + pad_left(
        decimal(win_pct),
        2,
    ) + "% wins and "@ + pad_left(decimal(tie_pct), 2) + "% ties, losing "@ + pad_left(
        decimal(loss_pct),
        2,
    ) + "% of the time to "@ + pad_left(loser, 7) + " "@ + pad_left(decimal(loser_rolls), 2)
}

/// The sentence that reports a tied contest.
pub open spec fn tie_line(a: Seq<char>, b: Seq<char>) -> Seq<char> {
    "Both "@ + pad_left(a, 7) + " and "@ + pad_left(b, 7) + " tied"@
}

impl ContestResults {
    /// The report line of this result, with truncated percentages.
    pub open spec fn report_line(&self) -> Seq<char> {
        let n = self.samples as int;
        let pa = percent_of(self.a_wins as int, n) as nat;
        let pb = percent_of(self.b_wins as int, n) as nat;
        let pt = percent_of(self.ties as int, n) as nat;
        match self.outcome {
            Outcome::AWins => win_line(self.a.label(), self.a_rolls as nat, pa, pt, pb, self.b.label(), self.b_rolls as nat),
            Outcome::BWins => win_line(self.b.label(), self.b_rolls as nat, pb, pt, pa, self.a.label(), self.a_rolls as nat),
            Outcome::Tie => tie_line(self.a.label(), self.b.label()),
        }
    }

    /// Renders the report line.
    pub fn to_str(&self) -> (r: String)
        requires
            self.wf(),
            self.samples > 0,
        ensures
            r@ == self.report_line(),
    {
        let pa = percent(self.a_wins, self.samples);
        let pb = percent(self.b_wins, self.samples);
        let pt = percent(self.ties, self.samples);
        match self.outcome {
            Outcome::AWins => {
                win_line_string(self.a.name(), self.a_rolls, pa, pt, pb, self.b.name(), self.b_rolls)
            },
            Outcome::BWins => {
                win_line_string(self.b.name(), self.b_rolls, pb, pt, pa, self.a.name(), self.a_rolls)
            },
            Outcome::Tie => {
                let mut out = String::new();
                out.append("Both ");
                append_padded(&mut out, self.a.name(), 7);
                out.append(" and ");
                append_padded(&mut out, self.b.name(), 7);
                out.append(" tied");
                assert(out@ =~= self.report_line());
                out
            },
        }
    }
}

fn win_line_string(
    winner: &str,
    winner_rolls: usize,
    win_pct: u32,
    tie_pct: u32,
    loss_pct: u32,
    loser: &str,
    loser_rolls: usize,
) -> (r: String)
    ensures
        r@ == win_line(
            winner@,
            winner_rolls as nat,
            win_pct as nat,
            tie_pct as nat,
            loss_pct as nat,
            loser@,
            loser_rolls as nat,
        ),
{
    let mut out = String::new();
    append_padded(&mut out, winner, 7);
    assert(out@ =~= pad_left(winner@, 7));
    out.append(" ");
    append_padded(&mut out, decimal_string(winner_rolls as u128).as_str(), 2);
    out.append(" won with ");
    append_padded(&mut out, decimal_string(win_pct as u128).as_str(), 2);
    out.append("% wins and ");
    append_padded(&mut out, decimal_string(tie_pct as u128).as_str(), 2);
    out.append("% ties, losing ");
    append_padded(&mut out, decimal_string(loss_pct as u128).as_str(), 2);
    out.append("% of the time to ");
    append_padded(&mut out, loser, 7);
    out.append(" ");
    append_padded(&mut out, decimal_string(loser_rolls as u128).as_str(), 2);
    out
}

/// The share of `count` in `samples`, in whole percent truncated toward zero.
pub fn percent(count: u32, samples: u32) -> (r: u32)
    requires
        samples > 0,
        count <= samples,
    ensures
        r == percent_of(count as int, samples as int),
        r <= 100,
{
    let scaled: u64 = 100 * (count as u64);
    let p = scaled / (samples as u64);
    assert(p <= 100) by (nonlinear_arith)
        requires
            p == scaled / (samples as u64),
            scaled == 100 * count,
            count <= samples,
            samples > 0,
    ;
    p as u32
}

/// Three truncated percentages of counts that make up the whole sum to 98,
/// 99 or 100.
pub proof fn lemma_percentages_near_hundred(a: nat, b: nat, t: nat, n: nat)
    requires
        n > 0,
        a + b + t == n,
    ensures
        98 <= percent_of(a as int, n as int) + percent_of(b as int, n as int) + percent_of(
            t as int,
            n as int,
        ) <= 100,
{
    let ni = n as int;
    let (xa, xb, xt) = (100 * a as int, 100 * b as int, 100 * t as int);
    lemma_fundamental_div_mod(xa, ni);
    lemma_fundamental_div_mod(xb, ni);
    lemma_fundamental_div_mod(xt, ni);
    lemma_mod_bound(xa, ni);
    lemma_mod_bound(xb, ni);
    lemma_mod_bound(xt, ni);
    let q = xa / ni + xb / ni + xt / ni;
    let rem = xa % ni + xb % ni + xt % ni;
    assert(ni * (100 - q) == rem) by (nonlinear_arith)
        requires
            xa == ni * (xa / ni) + xa % ni,
            xb == ni * (xb / ni) + xb % ni,
            xt == ni * (xt / ni) + xt % ni,
            xa + xb + xt == 100 * ni,
            q == xa / ni + xb / ni + xt / ni,
            rem == xa % ni + xb % ni + xt % ni,
    ;
    assert(0 <= 100 - q < 3) by (nonlinear_arith)
        requires
            ni * (100 - q) == rem,
            0 <= rem < 3 * ni,
            ni > 0,
    ;
}

/// The report percentages of a well-formed result sum to 98, 99 or 100.
pub proof fn lemma_result_percentages(r: &ContestResults)
    requires
        r.wf(),
        r.samples > 0,
    ensures
        98 <= percent_of(r.a_wins as int, r.samples as int) + percent_of(r.b_wins as int, r.samples as int)
            + percent_of(r.ties as int, r.samples as int) <= 100,
{
    lemma_percentages_near_hundred(r.a_wins as nat, r.b_wins as nat, r.ties as nat, r.samples as nat);
}

/// Every trial of `trials` has totals that the two sides can roll.
pub open spec fn trials_possible(a: Dice, b: Dice, a_rolls: nat, b_rolls: nat, trials: Seq<(int, int)>) -> bool {
    forall|k: int|
        0 <= k < trials.len() ==> is_roll_total(a, a_rolls, #[trigger] trials[k].0) && is_roll_total(
            b,
            b_rolls,
            trials[k].1,
        )
}

proof fn lemma_count_push(trials: Seq<(int, int)>, t: (int, int), o: Outcome)
    ensures
        count_outcome(trials.push(t), o) == count_outcome(trials, o) + if trial_outcome(t) == o {
            1nat
        } else {
            0nat
        },
{
    assert(trials.push(t).drop_last() =~= trials);
}

/// The overall outcome of a contest with these win counts.
pub fn decide(a_wins: u32, b_wins: u32) -> (r: Outcome)
    ensures
        r == outcome_of(a_wins as int, b_wins as int),
{
    if a_wins > b_wins {
        Outcome::AWins
    } else if a_wins == b_wins {
        Outcome::Tie
    } else {
        Outcome::BWins
    }
}

/// Builds the result of a contest from its tallied A-wins and ties; the
/// B-wins are the remaining trials.
pub fn summarize(a: &Dice, b: &Dice, a_rolls: usize, b_rolls: usize, samples: u32, a_wins: u32, ties: u32) -> (r: ContestResults)
    requires
        a_wins + ties <= samples,
    ensures
        r.wf(),
        r.a == *a,
        r.b == *b,
        r.a_rolls == a_rolls,
        r.b_rolls == b_rolls,
        r.samples == samples,
        r.a_wins == a_wins,
        r.ties == ties,
        r.b_wins == samples - a_wins - ties,
{
    let b_wins = samples - a_wins - ties;
    let outcome = decide(a_wins, b_wins);
    let winner = match outcome {
        Outcome::AWins => String::from_str(a.name()),
        Outcome::BWins => String::from_str(b.name()),
        Outcome::Tie => String::from_str("tie"),
    };
    ContestResults {
        a: *a,
        b: *b,
        samples,
        a_rolls,
        b_rolls,
        a_wins,
        b_wins,
        ties,
        outcome,
        winner,
    }
}

/// The total of `rolls` independent draws of `d`.
pub fn roll_total(d: &Dice, rolls: usize) -> (r: u128)
    ensures
        is_roll_total(*d, rolls as nat, r as int),
        r <= 9 * rolls,
{
    let mut total: u128 = 0;
    let mut i: usize = 0;
    let ghost mut draws: Seq<u8> = Seq::empty();
    while i < rolls
        invariant
            i <= rolls,
            draws.len() == i,
            forall|j: int| 0 <= j < draws.len() ==> d.face_values().contains(#[trigger] draws[j]),
            sum_of(draws) == total,
            total <= 9 * i,
        decreases rolls - i,
    {
        let face = d.roll();
        assert(face <= 9) by {
            let k = choose|k: int| 0 <= k < 6 && d.face_values()[k] == face;
        }
        proof {
            let old_draws = draws;
            draws = draws.push(face);
            assert(draws.drop_last() =~= old_draws);
        }
        total = total + face as u128;
        i = i + 1;
    }
    total
}

/// Runs `samples` trials of `a_rolls` draws of `a` against `b_rolls` draws of
/// `b`. Whatever the draws, the counts are those of some sequence of possible
/// trials, and they add up to the sample count.
pub fn contest(a: &Dice, b: &Dice, a_rolls: usize, b_rolls: usize, samples: u32) -> (r: ContestResults)
    requires
        a_rolls >= 1,
        b_rolls >= 1,
        samples >= 1,
    ensures
        r.wf(),
        r.a == *a,
        r.b == *b,
        r.a_rolls == a_rolls,
        r.b_rolls == b_rolls,
        r.samples == samples,
        r.a_wins + r.b_wins + r.ties == samples,
        r.outcome == outcome_of(r.a_wins as int, r.b_wins as int),
        exists|trials: Seq<(int, int)>|
            {
                &&& trials.len() == samples
                &&& trials_possible(*a, *b, a_rolls as nat, b_rolls as nat, trials)
                &&& r.a_wins == count_outcome(trials, Outcome::AWins)
                &&& r.b_wins == count_outcome(trials, Outcome::BWins)
                &&& r.ties == count_outcome(trials, Outcome::Tie)
            },
{
    let mut a_wins: u32 = 0;
    let mut ties: u32 = 0;
    let mut i: u32 = 0;
    let ghost mut trials: Seq<(int, int)> = Seq::empty();
    while i < samples
        invariant
            i <= samples,
            trials.len() == i,
            trials_possible(*a, *b, a_rolls as nat, b_rolls as nat, trials),
            a_wins == count_outcome(trials, Outcome::AWins),
            ties == count_outcome(trials, Outcome::Tie),
            count_outcome(trials, Outcome::AWins) + count_outcome(trials, Outcome::BWins)
                + count_outcome(trials, Outcome::Tie) == i,
        decreases samples - i,
    {
        let a_res = roll_total(a, a_rolls);
        let b_res = roll_total(b, b_rolls);
        proof {
            let t = (a_res as int, b_res as int);
            lemma_count_push(trials, t, Outcome::AWins);
            lemma_count_push(trials, t, Outcome::BWins);
            lemma_count_push(trials, t, Outcome::Tie);
            let old_trials = trials;
            trials = trials.push(t);
            assert forall|k: int| 0 <= k < trials.len() implies is_roll_total(
                *a,
                a_rolls as nat,
                #[trigger] trials[k].0,
            ) && is_roll_total(*b, b_rolls as nat, trials[k].1) by {
                if k < old_trials.len() {
                    assert(trials[k] == old_trials[k]);
                }
            }
        }
        if a_res > b_res {
            a_wins = a_wins + 1;
        } else if a_res == b_res {
            ties = ties + 1;
        }
        i = i + 1;
    }
    summarize(a, b, a_rolls, b_rolls, samples, a_wins, ties)
}

/// Runs the contest that a validated specification describes.
pub fn run_contest(spec: &ContestSpec) -> (r: ContestResults)
    requires
        spec.valid(),
    ensures
        r.wf(),
        r.a == spec.a,
        r.b == spec.b,
        r.a_rolls == spec.a_rolls,
        r.b_rolls == spec.b_rolls,
        r.samples == spec.samples,
        exists|trials: Seq<(int, int)>|
            {
                &&& trials.len() == spec.samples
                &&& trials_possible(spec.a, spec.b, spec.a_rolls as nat, spec.b_rolls as nat, trials)
                &&& r.a_wins == count_outcome(trials, Outcome::AWins)
                &&& r.b_wins == count_outcome(trials, Outcome::BWins)
                &&& r.ties == count_outcome(trials, Outcome::Tie)
            },
{
    contest(&spec.a, &spec.b, spec.a_rolls, spec.b_rolls, spec.samples)
}

} // verus!
