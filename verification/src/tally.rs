//! Aggregated outcome counts for batches of simulated games.

use crate::board::Token;
use vstd::prelude::*;

verus! {

/// How many games of a batch each player won, and how many were drawn.
#[derive(Clone, Copy, PartialEq, Eq, Structural, Debug)]
pub struct Tally {
    pub red_wins: u64,
    pub yellow_wins: u64,
    pub draws: u64,
}

/// The red-win counts of the first `i` tallies, summed.
pub open spec fn sum_red_upto(s: Seq<Tally>, i: int) -> int
    decreases i,
{
    if i <= 0 {
        0
    } else {
        sum_red_upto(s, i - 1) + s[i - 1].red_wins
    }
}

/// The yellow-win counts of the first `i` tallies, summed.
pub open spec fn sum_yellow_upto(s: Seq<Tally>, i: int) -> int
    decreases i,
{
    if i <= 0 {
        0
    } else {
        sum_yellow_upto(s, i - 1) + s[i - 1].yellow_wins
    }
}

/// The draw counts of the first `i` tallies, summed.
pub open spec fn sum_draws_upto(s: Seq<Tally>, i: int) -> int
    decreases i,
{
    if i <= 0 {
        0
    } else {
        sum_draws_upto(s, i - 1) + s[i - 1].draws
    }
}

/// The summed red-win count of a batch of tallies.
pub open spec fn sum_red(s: Seq<Tally>) -> int {
    sum_red_upto(s, s.len() as int)
}

/// The summed yellow-win count of a batch of tallies.
pub open spec fn sum_yellow(s: Seq<Tally>) -> int {
    sum_yellow_upto(s, s.len() as int)
}

/// The summed draw count of a batch of tallies.
pub open spec fn sum_draws(s: Seq<Tally>) -> int {
    sum_draws_upto(s, s.len() as int)
}

impl Tally {
    /// The number of games the tally accounts for.
    pub open spec fn total(&self) -> int {
        self.red_wins + self.yellow_wins + self.draws
    }

    /// A tally of no games at all.
    pub fn new() -> (t: Tally)
        ensures
            t == (Tally { red_wins: 0, yellow_wins: 0, draws: 0 }),
    {
        Tally { red_wins: 0, yellow_wins: 0, draws: 0 }
    }

    /// Counts one more game: a red or yellow win for those tokens, a draw
    /// for `Empty`. Exactly one count grows, by exactly one.
    pub fn record(&mut self, outcome: Token)
        requires
            old(self).total() < u64::MAX,
        ensures
            final(self).total() == old(self).total() + 1,
            outcome == Token::Red ==> final(self).red_wins == old(self).red_wins + 1,
            outcome != Token::Red ==> final(self).red_wins == old(self).red_wins,
            outcome == Token::Yellow ==> final(self).yellow_wins == old(self).yellow_wins + 1,
            outcome != Token::Yellow ==> final(self).yellow_wins == old(self).yellow_wins,
            outcome == Token::Empty ==> final(self).draws == old(self).draws + 1,
            outcome != Token::Empty ==> final(self).draws == old(self).draws,
    {
        match outcome {
            Token::Red => {
                self.red_wins = self.red_wins + 1;
            },
            Token::Yellow => {
                self.yellow_wins = self.yellow_wins + 1;
            },
            Token::Empty => {
                self.draws = self.draws + 1;
            },
        }
    }

    /// The componentwise sum of two tallies, or `None` when some component
    /// would not fit in a `u64`.
    pub fn add(&self, other: &Tally) -> (r: Option<Tally>)
        ensures
            match r {
                Some(t) => {
                    &&& t.red_wins == self.red_wins + other.red_wins
                    &&& t.yellow_wins == self.yellow_wins + other.yellow_wins
                    &&& t.draws == self.draws + other.draws
                },
                None => self.red_wins + other.red_wins > u64::MAX || self.yellow_wins
                    + other.yellow_wins > u64::MAX || self.draws + other.draws > u64::MAX,
            },
    {
        if self.red_wins <= u64::MAX - other.red_wins && self.yellow_wins <= u64::MAX
            - other.yellow_wins && self.draws <= u64::MAX - other.draws {
            Some(
                Tally {
                    red_wins: self.red_wins + other.red_wins,
                    yellow_wins: self.yellow_wins + other.yellow_wins,
                    draws: self.draws + other.draws,
                },
            )
        } else {
            None
        }
    }
}

/// Sums a batch of per-worker tallies into one, as the collector of a
/// simulation run does. Returns `None` exactly when some component's grand
/// sum would not fit in a `u64`.
pub fn merge_all(parts: &Vec<Tally>) -> (r: Option<Tally>)
    ensures
        match r {
            Some(t) => {
                &&& t.red_wins == sum_red(parts@)
                &&& t.yellow_wins == sum_yellow(parts@)
                &&& t.draws == sum_draws(parts@)
            },
            None => sum_red(parts@) > u64::MAX || sum_yellow(parts@) > u64::MAX || sum_draws(
                parts@,
            ) > u64::MAX,
        },
{
    let mut acc = Tally::new();
    for i in 0..parts.len()
        invariant
            acc.red_wins == sum_red_upto(parts@, i as int),
            acc.yellow_wins == sum_yellow_upto(parts@, i as int),
            acc.draws == sum_draws_upto(parts@, i as int),
    {
        match acc.add(&parts[i]) {
            Some(t) => {
                acc = t;
            },
            None => {
                proof {
                    lemma_sums_monotonic(parts@, i + 1, parts@.len() as int);
                }
                return None;
            },
        }
    }
    Some(acc)
}

/// Partial sums only grow as more tallies are taken in.
proof fn lemma_sums_monotonic(s: Seq<Tally>, i: int, j: int)
    requires
        0 <= i <= j,
    ensures
        sum_red_upto(s, i) <= sum_red_upto(s, j),
        sum_yellow_upto(s, i) <= sum_yellow_upto(s, j),
        sum_draws_upto(s, i) <= sum_draws_upto(s, j),
    decreases j - i,
{
    if i < j {
        lemma_sums_monotonic(s, i, j - 1);
    }
}

/// The collector's count of games is exact: when every one of the `parts`
/// accounts for `n` games, their aggregate accounts for `parts.len() * n`
/// games — the per-worker batches add up to the whole run, in any order of
/// arrival, and never to more.
pub proof fn lemma_uniform_totals(parts: Seq<Tally>, n: int)
    requires
        forall|i: int| 0 <= i < parts.len() ==> (#[trigger] parts[i]).total() == n,
    ensures
        sum_red(parts) + sum_yellow(parts) + sum_draws(parts) == parts.len() * n,
{
    lemma_uniform_totals_upto(parts, n, parts.len() as int);
}

/// Induction step for [`lemma_uniform_totals`], over a prefix of the batch.
proof fn lemma_uniform_totals_upto(parts: Seq<Tally>, n: int, i: int)
    requires
        forall|k: int| 0 <= k < parts.len() ==> (#[trigger] parts[k]).total() == n,
        0 <= i <= parts.len(),
    ensures
        sum_red_upto(parts, i) + sum_yellow_upto(parts, i) + sum_draws_upto(parts, i) == i * n,
    decreases i,
{
    if i > 0 {
        lemma_uniform_totals_upto(parts, n, i - 1);
        assert(parts[i - 1].total() == n);
        assert(sum_red_upto(parts, i) == sum_red_upto(parts, i - 1) + parts[i - 1].red_wins);
        assert(sum_yellow_upto(parts, i) == sum_yellow_upto(parts, i - 1) + parts[i
            - 1].yellow_wins);
        assert(sum_draws_upto(parts, i) == sum_draws_upto(parts, i - 1) + parts[i - 1].draws);
        assert(i * n == (i - 1) * n + n) by (nonlinear_arith);
    } else {
        assert(i * n == 0) by (nonlinear_arith)
            requires
                i == 0,
        ;
    }
}


/// Partial sums look only at the elements they cover.
proof fn lemma_sum_upto_agree(s1: Seq<Tally>, s2: Seq<Tally>, i: int)
    requires
        forall|k: int| 0 <= k < i ==> s1[k] == s2[k],
    ensures
        sum_red_upto(s1, i) == sum_red_upto(s2, i),
        sum_yellow_upto(s1, i) == sum_yellow_upto(s2, i),
        sum_draws_upto(s1, i) == sum_draws_upto(s2, i),
    decreases i,
{
    if i > 0 {
        lemma_sum_upto_agree(s1, s2, i - 1);
    }
}

/// Taking one tally out of a batch takes exactly its counts out of the
/// partial sums that covered it.
proof fn lemma_sum_remove_upto(s: Seq<Tally>, j: int, i: int)
    requires
        0 <= j < s.len(),
        j <= i <= s.len() - 1,
    ensures
        sum_red_upto(s.remove(j), i) + s[j].red_wins == sum_red_upto(s, i + 1),
        sum_yellow_upto(s.remove(j), i) + s[j].yellow_wins == sum_yellow_upto(s, i + 1),
        sum_draws_upto(s.remove(j), i) + s[j].draws == sum_draws_upto(s, i + 1),
    decreases i,
{
    let q = s.remove(j);
    s.remove_ensures(j);
    if i == j {
        lemma_sum_upto_agree(q, s, j);
    } else {
        lemma_sum_remove_upto(s, j, i - 1);
        assert(q[i - 1] == s[i]);
    }
}

/// The collector may take the workers' batches in any order: two batches
/// holding the same tallies, however arranged, aggregate to the same sums.
pub proof fn lemma_merge_order_independent(left: Seq<Tally>, right: Seq<Tally>)
    requires
        left.to_multiset() == right.to_multiset(),
    ensures
        sum_red(left) == sum_red(right),
        sum_yellow(left) == sum_yellow(right),
        sum_draws(left) == sum_draws(right),
    decreases left.len(),
{
    broadcast use vstd::seq_lib::group_to_multiset_ensures;

    if left.len() == 0 {
        assert(right.len() == right.to_multiset().len());
    } else {
        let n = left.len() - 1;
        let x = left[n];
        assert(left.contains(x));
        assert(right.to_multiset().count(x) > 0);
        assert(right.contains(x));
        let j = choose|j: int| 0 <= j < right.len() && right[j] == x;
        let q1 = left.drop_last();
        let q2 = right.remove(j);
        assert(left =~= q1.push(x));
        assert(left.to_multiset() =~= q1.to_multiset().insert(x));
        assert(q2.to_multiset() =~= right.to_multiset().remove(x));
        assert(q1.to_multiset() =~= right.to_multiset().remove(x)) by {
            assert forall|y: Tally|
                q1.to_multiset().count(y) == right.to_multiset().remove(x).count(
                    y,
                ) by {
                if y == x {
                    assert(q1.to_multiset().insert(x).count(x) == q1.to_multiset().count(x) + 1);
                } else {
                    assert(q1.to_multiset().insert(x).count(y) == q1.to_multiset().count(y));
                }
            }
        }
        lemma_merge_order_independent(q1, q2);
        lemma_sum_remove_upto(right, j, right.len() - 1);
        lemma_sum_upto_agree(left, q1, n);
    }
}

} // verus!
