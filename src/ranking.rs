//! Ranking of the winners of a set of contests by how many contests each won.

use crate::contest::{ContestResults, Outcome};
use crate::dice::catalog_seq;
use itertools::Itertools;
use vstd::prelude::*;
use vstd::seq_lib::group_to_multiset_ensures;

verus! {

/// One line of the ranking: a winner's label and how many contests it won.
#[derive(Debug)]
pub struct RankEntry {
    pub label: String,
    pub wins: usize,
}

/// Number of distinct winner labels: the five dice, then "tie".
pub const KEY_COUNT: usize = 6;

/// Who won a contest: the catalog position of the winning die, or the last
/// key for a tie.
pub open spec fn winner_key(r: ContestResults) -> nat {
    match r.outcome {
        Outcome::AWins => r.a.index(),
        Outcome::BWins => r.b.index(),
        Outcome::Tie => 5,
    }
}

/// The winner label that a key stands for.
pub open spec fn key_label(k: nat) -> Seq<char> {
    if k < 5 {
        catalog_seq()[k as int].label()
    } else {
        "tie"@
    }
}

/// A well-formed result's winner label is the label of its key, so counting
/// keys counts labels.
pub proof fn lemma_winner_label_key(r: ContestResults)
    requires
        r.wf(),
    ensures
        r.winner@ == key_label(winner_key(r)),
        winner_key(r) < KEY_COUNT,
{
}

/// Number of results of `rs` won by key `k`.
pub open spec fn count_key(rs: Seq<ContestResults>, k: nat) -> nat
    decreases rs.len(),
{
    if rs.len() == 0 {
        0
    } else {
        count_key(rs.drop_last(), k) + if winner_key(rs.last()) == k {
            1nat
        } else {
            0nat
        }
    }
}

/// Number of keys below `m` that won at least one result of `rs`.
pub open spec fn num_positive(rs: Seq<ContestResults>, m: nat) -> nat
    decreases m,
{
    if m == 0 {
        0
    } else {
        num_positive(rs, (m - 1) as nat) + if count_key(rs, (m - 1) as nat) > 0 {
            1nat
        } else {
            0nat
        }
    }
}

/// `entries` ranks the winners of `rs`, `keys[i]` being the key of entry `i`:
/// one entry per key that won anything, with its label and count, by count
/// descending and, among equal counts, in catalog order with "tie" last.
pub open spec fn ranked_by(rs: Seq<ContestResults>, entries: Seq<RankEntry>, keys: Seq<nat>) -> bool {
    &&& keys.len() == entries.len()
    &&& entries.len() == num_positive(rs, KEY_COUNT as nat)
    &&& forall|i: int|
        0 <= i < entries.len() ==> {
            &&& #[trigger] keys[i] < KEY_COUNT
            &&& count_key(rs, keys[i]) > 0
            &&& entries[i].label@ == key_label(keys[i])
            &&& entries[i].wins == count_key(rs, keys[i])
        }
    &&& forall|i: int, j: int|
        0 <= i < j < entries.len() ==> (#[trigger] entries[i]).wins > (#[trigger] entries[j]).wins
            || (entries[i].wins == entries[j].wins && keys[i] <= keys[j])
    &&& forall|k: nat| k < KEY_COUNT && count_key(rs, k) > 0 ==> #[trigger] keys.contains(k)
}

/// `x` comes no later than `y` in lexicographic order.
pub open spec fn pair_le(x: (usize, usize), y: (usize, usize)) -> bool {
    x.0 < y.0 || (x.0 == y.0 && x.1 <= y.1)
}

/// Relies on itertools' `sorted`: the same items in ascending order, tuples
/// comparing lexicographically.
#[verifier::external_body]
fn sorted_pairs(v: Vec<(usize, usize)>) -> (r: Vec<(usize, usize)>)
    ensures
        r@.to_multiset() == v@.to_multiset(),
        forall|i: int, j: int| 0 <= i < j < r.len() ==> pair_le(#[trigger] r[i], #[trigger] r[j]),
{
    v.into_iter().sorted().collect()
}

fn key_name(k: usize) -> (r: &'static str)
    requires
        k < KEY_COUNT,
    ensures
        r@ == key_label(k as nat),
{
    if k == 0 {
        "Red"
    } else if k == 1 {
        "Blue"
    } else if k == 2 {
        "Olive"
    } else if k == 3 {
        "Yellow"
    } else if k == 4 {
        "Magenta"
    } else {
        "tie"
    }
}

fn key_of(r: &ContestResults) -> (k: usize)
    ensures
        k == winner_key(*r),
        k < KEY_COUNT,
{
    match r.outcome {
        Outcome::AWins => r.a.position(),
        Outcome::BWins => r.b.position(),
        Outcome::Tie => 5,
    }
}

/// How many results each key won, indexed by key.
fn tally(results: &Vec<ContestResults>) -> (counts: Vec<usize>)
    ensures
        counts.len() == KEY_COUNT,
        forall|k: int| 0 <= k < KEY_COUNT ==> #[trigger] counts[k] == count_key(results@, k as nat),
{
    let mut counts: Vec<usize> = vec![0, 0, 0, 0, 0, 0];
    let mut i: usize = 0;
    while i < results.len()
        invariant
            i <= results.len(),
            counts.len() == KEY_COUNT,
            forall|k: int|
                0 <= k < KEY_COUNT ==> #[trigger] counts[k] == count_key(results@.take(i as int), k as nat)
                    && counts[k] <= i,
        decreases results.len() - i,
    {
        let k = key_of(&results[i]);
        proof {
            assert(results@.take(i + 1).drop_last() =~= results@.take(i as int));
        }
        counts.set(k, counts[k] + 1);
        i = i + 1;
    }
    assert(results@.take(i as int) =~= results@);
    counts
}

/// The winners of `results`, counted and ranked by count descending; equal
/// counts keep catalog order, with "tie" last.
pub fn rank(results: &Vec<ContestResults>) -> (r: Vec<RankEntry>)
    ensures
        exists|keys: Seq<nat>| ranked_by(results@, r@, keys),
{
    broadcast use group_to_multiset_ensures;

    let counts = tally(results);
    let ghost rs = results@;
    let mut items: Vec<(usize, usize)> = Vec::new();
    let mut k: usize = 0;
    while k < KEY_COUNT
        invariant
            k <= KEY_COUNT,
            counts.len() == KEY_COUNT,
            forall|q: int| 0 <= q < KEY_COUNT ==> #[trigger] counts[q] == count_key(rs, q as nat),
            items.len() == num_positive(rs, k as nat),
            forall|i: int|
                0 <= i < items.len() ==> {
                    &&& (#[trigger] items[i]).1 < k
                    &&& count_key(rs, items[i].1 as nat) > 0
                    &&& items[i].0 == usize::MAX - count_key(rs, items[i].1 as nat)
                },
            forall|q: usize|
                q < k && count_key(rs, q as nat) > 0 ==> #[trigger] items@.contains(
                    ((usize::MAX - count_key(rs, q as nat)) as usize, q),
                ),
        decreases KEY_COUNT - k,
    {
        let c = counts[k];
        if c > 0 {
            let ghost before = items@;
            items.push((usize::MAX - c, k));
            proof {
                assert forall|q: usize|
                    q < k + 1 && count_key(rs, q as nat) > 0 implies #[trigger] items@.contains(
                    ((usize::MAX - count_key(rs, q as nat)) as usize, q),
                ) by {
                    let e = ((usize::MAX - count_key(rs, q as nat)) as usize, q);
                    if q < k {
                        assert(before.contains(e));
                        let j = choose|j: int| 0 <= j < before.len() && before[j] == e;
                        assert(items@ == before.push(((usize::MAX - c) as usize, k)));
                        assert(items@[j] == before[j]);
                    } else {
                        assert(items@[items.len() - 1] == ((usize::MAX - c) as usize, k));
                    }
                }
            }
        }
        k = k + 1;
    }
    let sorted = sorted_pairs(items);
    let ghost keys: Seq<nat> = sorted@.map_values(|e: (usize, usize)| e.1 as nat);
    proof {
        assert forall|i: int| 0 <= i < sorted.len() implies {
            &&& (#[trigger] sorted[i]).1 < KEY_COUNT
            &&& count_key(rs, sorted[i].1 as nat) > 0
            &&& sorted[i].0 == usize::MAX - count_key(rs, sorted[i].1 as nat)
        } by {
            assert(sorted@.contains(sorted[i]));
            assert(sorted@.to_multiset().count(sorted[i]) > 0);
            assert(items@.to_multiset().count(sorted[i]) > 0);
            assert(items@.contains(sorted[i]));
        }
    }
    let mut out: Vec<RankEntry> = Vec::new();
    let mut i: usize = 0;
    while i < sorted.len()
        invariant
            i <= sorted.len(),
            keys == sorted@.map_values(|e: (usize, usize)| e.1 as nat),
            forall|j: int|
                0 <= j < sorted.len() ==> {
                    &&& (#[trigger] sorted[j]).1 < KEY_COUNT
                    &&& count_key(rs, sorted[j].1 as nat) > 0
                    &&& sorted[j].0 == usize::MAX - count_key(rs, sorted[j].1 as nat)
                },
            out.len() == i,
            forall|j: int|
                0 <= j < i ==> {
                    &&& (#[trigger] out[j]).label@ == key_label(keys[j])
                    &&& out[j].wins == count_key(rs, keys[j])
                },
        decreases sorted.len() - i,
    {
        let (neg, key) = sorted[i];
        let entry = RankEntry { label: String::from_str(key_name(key)), wins: usize::MAX - neg };
        out.push(entry);
        i = i + 1;
    }
    proof {
        assert(sorted@.len() == items@.len()) by {
            assert(sorted@.to_multiset().len() == items@.to_multiset().len());
        }
        assert forall|a: int, b: int| 0 <= a < b < out.len() implies (#[trigger] out[a]).wins > (
        #[trigger] out[b]).wins || (out[a].wins == out[b].wins && keys[a] <= keys[b]) by {
            assert(pair_le(sorted[a], sorted[b]));
        }
        assert forall|q: nat| q < KEY_COUNT && count_key(rs, q) > 0 implies #[trigger] keys.contains(q) by {
            let e = ((usize::MAX - count_key(rs, q)) as usize, q as usize);
            assert(items@.contains(e));
            assert(items@.to_multiset().count(e) > 0);
            assert(sorted@.to_multiset().count(e) > 0);
            assert(sorted@.contains(e));
            let j = choose|j: int| 0 <= j < sorted.len() && sorted[j] == e;
            assert(keys[j] == q);
        }
        assert(ranked_by(rs, out@, keys));
    }
    out
}

} // verus!
