//! The tournament: every unordered pair of dice, at every roll count of a range.

use crate::config::{ConfigError, ContestSpec};
use crate::contest::{run_contest, ContestResults};
use crate::dice::Dice;
use itertools::Itertools;
use vstd::arithmetic::div_mod::lemma_fundamental_div_mod_converse;
use vstd::prelude::*;

verus! {

/// The pairs `(i, j)` with `i < j < n` whose first position is `i`, in
/// increasing `j`.
pub open spec fn pair_row(i: nat, n: nat) -> Seq<(usize, usize)> {
    if i + 1 >= n {
        Seq::empty()
    } else {
        Seq::new((n - i - 1) as nat, |k: int| (i as usize, (i + 1 + k) as usize))
    }
}

/// The pairs `(i, j)` with `start <= i < j < n`, in lexicographic order.
pub open spec fn pairs_from(start: nat, n: nat) -> Seq<(usize, usize)>
    decreases n - start,
{
    if start >= n {
        Seq::empty()
    } else {
        pair_row(start, n) + pairs_from(start + 1, n)
    }
}

/// All position pairs `(i, j)` with `i < j < n`, in lexicographic order.
pub open spec fn pair_seq(n: nat) -> Seq<(usize, usize)> {
    pairs_from(0, n)
}

proof fn lemma_pairs_from_bounds(start: nat, n: nat)
    requires
        n <= usize::MAX,
    ensures
        forall|k: int|
            0 <= k < pairs_from(start, n).len() ==> start <= (#[trigger] pairs_from(start, n)[k]).0
                < pairs_from(start, n)[k].1 < n,
    decreases n - start,
{
    if start < n {
        lemma_pairs_from_bounds(start + 1, n);
        let row = pair_row(start, n);
        let rest = pairs_from(start + 1, n);
        assert forall|k: int| 0 <= k < pairs_from(start, n).len() implies start <= (
        #[trigger] pairs_from(start, n)[k]).0 < pairs_from(start, n)[k].1 < n by {
            if k < row.len() {
                assert(pairs_from(start, n)[k] == row[k]);
            } else {
                assert(pairs_from(start, n)[k] == rest[k - row.len()]);
            }
        }
    }
}

/// Relies on itertools' `combinations(2)` over `0..n`: every 2-combination of
/// the positions, each in increasing order, listed lexicographically.
#[verifier::external_body]
fn index_pairs(n: usize) -> (r: Vec<(usize, usize)>)
    ensures
        r@ == pair_seq(n as nat),
{
    (0..n).combinations(2).map(|v| (v[0], v[1])).collect()
}

/// Number of roll counts in `first..=last`.
pub open spec fn range_width(first: nat, last: nat) -> nat {
    if first <= last {
        (last - first + 1) as nat
    } else {
        0
    }
}

/// Every contest of the tournament, pairs in catalog order, then roll counts
/// ascending; both sides roll the same number of dice.
pub open spec fn plan_seq(dice: Seq<Dice>, first: nat, last: nat, samples: u32) -> Seq<ContestSpec> {
    let pairs = pair_seq(dice.len());
    let w = range_width(first, last);
    Seq::new(
        pairs.len() * w,
        |k: int|
            ContestSpec {
                a: dice[pairs[k / w as int].0 as int],
                b: dice[pairs[k / w as int].1 as int],
                a_rolls: (first + k % w as int) as usize,
                b_rolls: (first + k % w as int) as usize,
                samples,
            },
    )
}

/// The tournament's contests, or the configuration error that prevents it.
pub fn plan(dice: &Vec<Dice>, first_rolls: usize, last_rolls: usize, samples: u32) -> (r: Result<
    Vec<ContestSpec>,
    ConfigError,
>)
    ensures
        samples == 0 ==> r == Err::<Vec<ContestSpec>, ConfigError>(ConfigError::NonPositiveSamples),
        samples > 0 && first_rolls == 0 ==> r == Err::<Vec<ContestSpec>, ConfigError>(
            ConfigError::NonPositiveRolls,
        ),
        samples > 0 && first_rolls > 0 ==> (r matches Ok(v) && v@ == plan_seq(
            dice@,
            first_rolls as nat,
            last_rolls as nat,
            samples,
        )),
        r matches Ok(v) ==> forall|k: int| 0 <= k < v.len() ==> (#[trigger] v[k]).valid(),
{
    if samples == 0 {
        return Err(ConfigError::NonPositiveSamples);
    }
    if first_rolls == 0 {
        return Err(ConfigError::NonPositiveRolls);
    }
    let pairs = index_pairs(dice.len());
    proof {
        lemma_pairs_from_bounds(0, dice.len() as nat);
    }
    let width: usize = if first_rolls <= last_rolls {
        last_rolls - first_rolls + 1
    } else {
        0
    };
    let ghost target = plan_seq(dice@, first_rolls as nat, last_rolls as nat, samples);
    let mut out: Vec<ContestSpec> = Vec::new();
    let mut p: usize = 0;
    while p < pairs.len()
        invariant
            pairs@ == pair_seq(dice.len() as nat),
            forall|k: int|
                0 <= k < pairs.len() ==> (#[trigger] pairs[k]).0 < pairs[k].1 < dice.len(),
            width == range_width(first_rolls as nat, last_rolls as nat),
            first_rolls >= 1,
            samples >= 1,
            target == plan_seq(dice@, first_rolls as nat, last_rolls as nat, samples),
            p <= pairs.len(),
            out.len() == p * width,
            forall|k: int| 0 <= k < out.len() ==> (#[trigger] out[k]) == target[k],
        decreases pairs.len() - p,
    {
        let (i, j) = pairs[p];
        let mut step: usize = 0;
        while step < width
            invariant
                pairs@ == pair_seq(dice.len() as nat),
                width == range_width(first_rolls as nat, last_rolls as nat),
                first_rolls >= 1,
                samples >= 1,
                target == plan_seq(dice@, first_rolls as nat, last_rolls as nat, samples),
                p < pairs.len(),
                (i, j) == pairs[p as int],
                i < j < dice.len(),
                step <= width,
                out.len() == p * width + step,
                forall|k: int| 0 <= k < out.len() ==> (#[trigger] out[k]) == target[k],
            decreases width - step,
        {
            let rolls = first_rolls + step;
            let spec = ContestSpec { a: dice[i], b: dice[j], a_rolls: rolls, b_rolls: rolls, samples };
            proof {
                let k = p * width + step;
                lemma_fundamental_div_mod_converse(k, width as int, p as int, step as int);
                assert(k < pairs.len() * width) by (nonlinear_arith)
                    requires
                        k == p * width + step,
                        step < width,
                        p < pairs.len(),
                ;
                assert(spec == target[k]);
            }
            out.push(spec);
            step = step + 1;
        }
        p = p + 1;
        assert(out.len() == p * width) by (nonlinear_arith)
            requires
                out.len() == (p - 1) * width + width,
        ;
    }
    proof {
        assert(out.len() == target.len());
        assert(out@ =~= target);
        assert forall|k: int| 0 <= k < out.len() implies (#[trigger] out[k]).valid() by {
            assert(out[k] == target[k]);
        }
    }
    Ok(out)
}

/// `r` is a well-formed result of the contest that `s` describes.
pub open spec fn conforms(r: ContestResults, s: ContestSpec) -> bool {
    &&& r.wf()
    &&& r.a == s.a
    &&& r.b == s.b
    &&& r.a_rolls == s.a_rolls
    &&& r.b_rolls == s.b_rolls
    &&& r.samples == s.samples
}

/// `results` holds one conforming result per contest of `specs`, in order.
pub open spec fn follows_plan(results: Seq<ContestResults>, specs: Seq<ContestSpec>) -> bool {
    &&& results.len() == specs.len()
    &&& forall|k: int| 0 <= k < results.len() ==> conforms(#[trigger] results[k], specs[k])
}

/// Runs every contest of the tournament, one after another, and reports them
/// in enumeration order.
pub fn schedule_all(dice: &Vec<Dice>, first_rolls: usize, last_rolls: usize, samples: u32) -> (r:
    Result<Vec<ContestResults>, ConfigError>)
    ensures
        samples == 0 ==> r matches Err(ConfigError::NonPositiveSamples),
        samples > 0 && first_rolls == 0 ==> r matches Err(ConfigError::NonPositiveRolls),
        samples > 0 && first_rolls > 0 ==> (r matches Ok(v) && follows_plan(
            v@,
            plan_seq(dice@, first_rolls as nat, last_rolls as nat, samples),
        )),
{
    let specs = match plan(dice, first_rolls, last_rolls, samples) {
        Ok(specs) => specs,
        Err(e) => return Err(e),
    };
    let mut out: Vec<ContestResults> = Vec::new();
    let mut k: usize = 0;
    while k < specs.len()
        invariant
            forall|i: int| 0 <= i < specs.len() ==> (#[trigger] specs[i]).valid(),
            k <= specs.len(),
            out.len() == k,
            forall|i: int| 0 <= i < k ==> conforms(#[trigger] out[i], specs[i]),
        decreases specs.len() - k,
    {
        let res = run_contest(&specs[k]);
        out.push(res);
        k = k + 1;
    }
    Ok(out)
}

/// Running the tournament twice on the same inputs yields the same number of
/// results, in the same order, each for the same pair of dice and roll counts.
pub proof fn lemma_schedule_structure(
    dice: Seq<Dice>,
    first_rolls: nat,
    last_rolls: nat,
    samples: u32,
    run1: Seq<ContestResults>,
    run2: Seq<ContestResults>,
)
    requires
        follows_plan(run1, plan_seq(dice, first_rolls, last_rolls, samples)),
        follows_plan(run2, plan_seq(dice, first_rolls, last_rolls, samples)),
    ensures
        run1.len() == run2.len(),
        forall|k: int|
            0 <= k < run1.len() ==> {
                &&& (#[trigger] run1[k]).a == run2[k].a
                &&& run1[k].b == run2[k].b
                &&& run1[k].a_rolls == run2[k].a_rolls
                &&& run1[k].b_rolls == run2[k].b_rolls
                &&& run1[k].samples == run2[k].samples
            },
{
    let specs = plan_seq(dice, first_rolls, last_rolls, samples);
    assert forall|k: int| 0 <= k < run1.len() implies {
        &&& (#[trigger] run1[k]).a == run2[k].a
        &&& run1[k].b == run2[k].b
        &&& run1[k].a_rolls == run2[k].a_rolls
        &&& run1[k].b_rolls == run2[k].b_rolls
        &&& run1[k].samples == run2[k].samples
    } by {
        assert(conforms(run1[k], specs[k]));
        assert(conforms(run2[k], specs[k]));
    }
}

} // verus!
