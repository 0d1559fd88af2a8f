//! The seeded train/test split of a dataset.
//!
//! Rows are visited once, in order, and each takes one boolean draw from a
//! generator seeded with the run's seed: a row goes to the test set when its
//! draw is true and the test quota is not yet used up, else to the training
//! set. The split is thus a function of the rows, the seed and the ratio.
use vstd::prelude::*;
use rand::Rng;
use rand::SeedableRng;

use crate::error::TrainError;
use crate::ratio::Ratio;

verus! {

broadcast use vstd::seq_lib::group_to_multiset_ensures;

/// The `k`-th boolean (counted from zero) that `StdRng` seeded with `seed`
/// yields under the `Standard` distribution.
pub uninterp spec fn seeded_coin(seed: u64, k: nat) -> bool;

/// Relies on `rand::random::<u64>`, which draws a value from the
/// thread-local generator; nothing is known of the value.
#[verifier::external_body]
fn fresh_seed() -> u64 {
    rand::random::<u64>()
}

/// Relies on `rand::rngs::StdRng::seed_from_u64` and on sampling `bool` from
/// it: a generator seeded alike yields the same stream, draw after draw.
#[verifier::external_body]
fn seeded_draws(seed: u64, n: usize) -> (draws: Vec<bool>)
    ensures
        draws@.len() == n,
        forall|k: int| 0 <= k < n ==> draws@[k] == seeded_coin(seed, k as nat),
{
    let mut rng = rand::rngs::StdRng::seed_from_u64(seed);
    let mut draws = Vec::with_capacity(n);
    for _ in 0..n {
        draws.push(rng.gen::<bool>());
    }
    draws
}

/// The first `n` draws of the generator seeded with `seed`.
pub open spec fn coins(seed: u64, n: nat) -> Seq<bool> {
    Seq::new(n, |k: int| seeded_coin(seed, k as nat))
}

/// `floor(n * (1 - num / den))`: the most rows that may go to the test set.
pub open spec fn test_quota_spec(n: nat, ratio: Ratio) -> nat {
    (n * ((ratio.den - ratio.num) as nat) / (ratio.den as nat)) as nat
}

/// How many of the first `i` rows went to the test set.
pub open spec fn tests_before(draws: Seq<bool>, quota: nat, i: nat) -> nat
    decreases i,
{
    if i == 0 {
        0
    } else {
        let t = tests_before(draws, quota, (i - 1) as nat);
        if draws[i - 1] && t < quota {
            t + 1
        } else {
            t
        }
    }
}

/// Whether row `i` goes to the test set.
pub open spec fn to_test(draws: Seq<bool>, quota: nat, i: nat) -> bool {
    draws[i as int] && tests_before(draws, quota, i) < quota
}

/// The rows among the first `i` whose side is `test` (the test set when it
/// is true, the training set when it is false), in the order of the rows.
pub open spec fn side<T>(rows: Seq<T>, draws: Seq<bool>, quota: nat, test: bool, i: nat) -> Seq<T>
    decreases i,
{
    if i == 0 {
        Seq::empty()
    } else {
        let prev = side(rows, draws, quota, test, (i - 1) as nat);
        if to_test(draws, quota, (i - 1) as nat) == test {
            prev.push(rows[i - 1])
        } else {
            prev
        }
    }
}

/// A training set and a test set.
pub struct Split<T> {
    pub train: Vec<T>,
    pub test: Vec<T>,
}

/// The split of `rows` that the draws give under the quota.
pub open spec fn split_by<T>(rows: Seq<T>, draws: Seq<bool>, quota: nat) -> (Seq<T>, Seq<T>) {
    (
        side(rows, draws, quota, false, rows.len()),
        side(rows, draws, quota, true, rows.len()),
    )
}

/// The split of `rows` that a run with this seed and ratio makes.
pub open spec fn split_spec<T>(rows: Seq<T>, seed: u64, ratio: Ratio) -> (Seq<T>, Seq<T>) {
    split_by(rows, coins(seed, rows.len()), test_quota_spec(rows.len(), ratio))
}

/// The test quota of `n` rows under `ratio`.
pub fn test_quota(n: usize, ratio: Ratio) -> (q: usize)
    requires
        ratio.wf(),
    ensures
        q == test_quota_spec(n as nat, ratio),
{
    let held: u128 = (ratio.den - ratio.num) as u128;
    proof {
        let a = n as nat;
        let b = held as nat;
        assert(a * b <= 0xffff_ffff_ffff_ffffu64 as nat * 0xffff_ffff_ffff_ffffu64 as nat)
            by (nonlinear_arith)
            requires
                a <= 0xffff_ffff_ffff_ffffu64,
                b <= 0xffff_ffff_ffff_ffffu64,
        ;
    }
    let total: u128 = n as u128 * held;
    proof {
        assert(total <= n as nat * ratio.den as nat) by (nonlinear_arith)
            requires
                total == n as nat * held,
                held <= ratio.den,
        ;
        lemma_div_le(n as nat, ratio.den as nat, total as nat);
    }
    (total / ratio.den as u128) as usize
}

proof fn lemma_div_le(n: nat, d: nat, t: nat)
    requires
        0 < d,
        t <= n * d,
    ensures
        t / d <= n,
{
    assert(t / d <= (n * d) / d) by (nonlinear_arith)
        requires
            0 < d,
            t <= n * d,
    ;
    assert((n * d) / d == n) by (nonlinear_arith)
        requires
            0 < d,
    ;
}

/// Sends each row to the training or the test set by its draw and the quota.
pub fn split_rows<T: Copy>(rows: &Vec<T>, draws: &Vec<bool>, quota: usize) -> (s: Split<T>)
    requires
        draws@.len() == rows@.len(),
    ensures
        (s.train@, s.test@) == split_by(rows@, draws@, quota as nat),
{
    let mut train: Vec<T> = Vec::new();
    let mut test: Vec<T> = Vec::new();
    let mut i: usize = 0;
    while i < rows.len()
        invariant
            i <= rows@.len(),
            draws@.len() == rows@.len(),
            train@ == side(rows@, draws@, quota as nat, false, i as nat),
            test@ == side(rows@, draws@, quota as nat, true, i as nat),
            test@.len() == tests_before(draws@, quota as nat, i as nat),
            tests_before(draws@, quota as nat, i as nat) <= quota,
        decreases rows@.len() - i,
    {
        let row = rows[i];
        if draws[i] && test.len() < quota {
            test.push(row);
        } else {
            train.push(row);
        }
        i = i + 1;
    }
    Split { train, test }
}

/// Splits `rows` with the generator seeded by `seed`: the result depends on
/// the rows, the seed and the ratio alone. Fails when the ratio is not in
/// `(0, 1]`, and when no row is left for training, which under a valid ratio
/// happens exactly when there are no rows.
pub fn split_dataset<T: Copy>(rows: &Vec<T>, seed: u64, ratio: Ratio) -> (r: Result<
    Split<T>,
    TrainError,
>)
    ensures
        r is Err <==> rows@.len() == 0 || !ratio.wf(),
        !ratio.wf() ==> r is Err && r->Err_0 is BadRatio,
        ratio.wf() && rows@.len() == 0 ==> r is Err && r->Err_0 is EmptyTrainSet,
        r is Ok ==> (r->Ok_0.train@, r->Ok_0.test@) == split_spec(rows@, seed, ratio),
{
    if ratio.num == 0 || ratio.num > ratio.den {
        return Err(TrainError::BadRatio);
    }
    let quota = test_quota(rows.len(), ratio);
    let draws = seeded_draws(seed, rows.len());
    proof {
        assert(draws@ =~= coins(seed, rows@.len()));
    }
    let s = split_rows(rows, &draws, quota);
    if s.train.len() == 0 {
        proof {
            if rows@.len() > 0 {
                lemma_split_partition(rows@, draws@, quota as nat);
                lemma_quota_below(rows@.len(), ratio);
            }
        }
        Err(TrainError::EmptyTrainSet)
    } else {
        Ok(s)
    }
}

/// The training ratio of a run and its seed, once one is chosen.
#[derive(Clone, Copy, Debug, PartialEq, Eq)]
pub struct DatasetSplitter {
    pub ratio: Ratio,
    /// The seed of the split; when absent, one is drawn at the first use and
    /// kept, so that the run can be repeated.
    pub rng_seed: Option<u64>,
}

impl DatasetSplitter {
    /// The training ratio `4/5`, and no seed yet.
    pub fn new() -> (d: DatasetSplitter)
        ensures
            d.ratio == (Ratio { num: 4, den: 5 }),
            d.rng_seed is None,
            d.wf(),
    {
        DatasetSplitter { ratio: Ratio { num: 4, den: 5 }, rng_seed: None }
    }

    pub open spec fn wf(&self) -> bool {
        self.ratio.wf()
    }

    pub fn set_seed(&mut self, seed: u64)
        ensures
            final(self).ratio == old(self).ratio,
            final(self).rng_seed == Some(seed),
    {
        self.rng_seed = Some(seed);
    }

    /// The seed of the run: the one set before, or else a fresh random one,
    /// which is kept for every later call.
    pub fn get_seed(&mut self) -> (seed: u64)
        ensures
            final(self).ratio == old(self).ratio,
            final(self).rng_seed == Some(seed),
            old(self).rng_seed is Some ==> seed == old(self).rng_seed->Some_0,
    {
        match self.rng_seed {
            Some(seed) => seed,
            None => {
                let seed = fresh_seed();
                self.rng_seed = Some(seed);
                seed
            },
        }
    }

    /// Splits `rows` by the run's ratio and seed, choosing the seed first
    /// where none is set.
    pub fn split<T: Copy>(&mut self, rows: &Vec<T>) -> (r: Result<Split<T>, TrainError>)
        ensures
            final(self).ratio == old(self).ratio,
            final(self).rng_seed is Some,
            old(self).rng_seed is Some ==> final(self).rng_seed == old(self).rng_seed,
            r is Err <==> rows@.len() == 0 || !old(self).wf(),
            !old(self).wf() ==> r is Err && r->Err_0 is BadRatio,
            old(self).wf() && rows@.len() == 0 ==> r is Err && r->Err_0 is EmptyTrainSet,
            r is Ok ==> (r->Ok_0.train@, r->Ok_0.test@) == split_spec(
                rows@,
                final(self).rng_seed->Some_0,
                final(self).ratio,
            ),
    {
        let seed = self.get_seed();
        split_dataset(rows, seed, self.ratio)
    }
}

proof fn lemma_tests_before_bound(draws: Seq<bool>, quota: nat, i: nat)
    ensures
        tests_before(draws, quota, i) <= quota,
        tests_before(draws, quota, i) <= i,
    decreases i,
{
    if i > 0 {
        lemma_tests_before_bound(draws, quota, (i - 1) as nat);
    }
}

proof fn lemma_sides<T>(rows: Seq<T>, draws: Seq<bool>, quota: nat, i: nat)
    requires
        i <= rows.len(),
    ensures
        side(rows, draws, quota, true, i).len() == tests_before(draws, quota, i),
        side(rows, draws, quota, false, i).len() + side(rows, draws, quota, true, i).len() == i,
        side(rows, draws, quota, false, i).to_multiset().add(
            side(rows, draws, quota, true, i).to_multiset(),
        ) =~= rows.take(i as int).to_multiset(),
    decreases i,
{
    if i > 0 {
        let j = (i - 1) as nat;
        lemma_sides(rows, draws, quota, j);
        assert(rows.take(i as int) =~= rows.take(j as int).push(rows[j as int]));
    }
}

proof fn lemma_quota_below(n: nat, ratio: Ratio)
    requires
        ratio.wf(),
        n > 0,
    ensures
        test_quota_spec(n, ratio) < n,
{
    let held = (ratio.den - ratio.num) as nat;
    let d = ratio.den as nat;
    assert(n * held / d < n) by (nonlinear_arith)
        requires
            held < d,
            n > 0,
    ;
}

/// Every row goes to exactly one of the two sets: their sizes add up to the
/// number of rows, together they hold the rows (as a multiset, so also with
/// repeated rows), and the test set takes at most the quota.
pub proof fn lemma_split_partition<T>(rows: Seq<T>, draws: Seq<bool>, quota: nat)
    requires
        draws.len() == rows.len(),
    ensures
        split_by(rows, draws, quota).0.len() + split_by(rows, draws, quota).1.len() == rows.len(),
        split_by(rows, draws, quota).0.to_multiset().add(split_by(rows, draws, quota).1.to_multiset())
            =~= rows.to_multiset(),
        split_by(rows, draws, quota).1.len() <= quota,
{
    lemma_sides(rows, draws, quota, rows.len());
    lemma_tests_before_bound(draws, quota, rows.len());
    assert(rows.take(rows.len() as int) =~= rows);
}

/// The split of a non-empty dataset leaves at least one row for training
/// under any valid ratio, and the two sets partition the rows.
pub proof fn lemma_split_dataset_partition<T>(rows: Seq<T>, seed: u64, ratio: Ratio)
    requires
        ratio.wf(),
        rows.len() > 0,
    ensures
        split_spec(rows, seed, ratio).0.len() + split_spec(rows, seed, ratio).1.len()
            == rows.len(),
        split_spec(rows, seed, ratio).0.to_multiset().add(
            split_spec(rows, seed, ratio).1.to_multiset(),
        ) =~= rows.to_multiset(),
        split_spec(rows, seed, ratio).1.len() <= test_quota_spec(rows.len(), ratio),
        split_spec(rows, seed, ratio).0.len() > 0,
{
    lemma_split_partition(rows, coins(seed, rows.len()), test_quota_spec(rows.len(), ratio));
    lemma_quota_below(rows.len(), ratio);
}

/// Splitting the same rows twice, with the same seed and the same ratio,
/// gives the same training set and the same test set: the split that
/// `split_dataset` and `DatasetSplitter::split` return is this function of
/// their inputs.
pub proof fn lemma_split_deterministic<T>(
    rows1: Seq<T>,
    rows2: Seq<T>,
    seed1: u64,
    seed2: u64,
    ratio1: Ratio,
    ratio2: Ratio,
)
    requires
        rows1 == rows2,
        seed1 == seed2,
        ratio1 == ratio2,
    ensures
        split_spec(rows1, seed1, ratio1).0 == split_spec(rows2, seed2, ratio2).0,
        split_spec(rows1, seed1, ratio1).1 == split_spec(rows2, seed2, ratio2).1,
{
}

} // verus!
