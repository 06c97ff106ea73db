//! The mathematical model of the sequence: which run comes at each step.
use vstd::prelude::*;
use crate::seq::Run;

verus! {

/// The run produced at step `step`, given the symbols `history` emitted by the
/// steps before it. Steps 0 and 1 are fixed; every later step reads the symbol
/// at position `step` of the history: 1 gives a run of length one, 2 a run of
/// length two, and the parity of the step picks the symbol (odd: 2, even: 1).
pub open spec fn run_at(step: nat, history: Seq<u8>) -> Run {
    if step == 0 {
        Run::Single(1)
    } else if step == 1 {
        Run::Double(2, 2)
    } else {
        let v: u8 = if step % 2 == 1 { 2 } else { 1 };
        if history[step as int] == 1 {
            Run::Single(v)
        } else {
            Run::Double(v, v)
        }
    }
}

/// All symbols of `runs`, in order.
pub open spec fn flatten(runs: Seq<Run>) -> Seq<u8>
    decreases runs.len(),
{
    if runs.len() == 0 {
        Seq::empty()
    } else {
        flatten(runs.drop_last()) + runs.last().symbols()
    }
}

/// The first `n` runs of the sequence.
pub open spec fn kol_runs(n: nat) -> Seq<Run>
    decreases n,
{
    if n == 0 {
        Seq::empty()
    } else {
        let before = kol_runs((n - 1) as nat);
        before.push(run_at((n - 1) as nat, flatten(before)))
    }
}

/// The symbols emitted by the first `n` runs.
pub open spec fn kol_history(n: nat) -> Seq<u8> {
    flatten(kol_runs(n))
}

/// `kol_runs(n)` holds `n` runs.
pub proof fn lemma_kol_runs_len(n: nat)
    ensures
        kol_runs(n).len() == n,
    decreases n,
{
    if n > 0 {
        lemma_kol_runs_len((n - 1) as nat);
    }
}

/// One more step appends the run that `run_at` gives, and its symbols.
pub proof fn lemma_kol_step(n: nat)
    ensures
        kol_runs(n + 1) == kol_runs(n).push(run_at(n, kol_history(n))),
        kol_history(n + 1) == kol_history(n) + run_at(n, kol_history(n)).symbols(),
{
    assert(kol_runs(n + 1).drop_last() =~= kol_runs(n));
}

/// The first `k` runs do not depend on how many are produced after them.
pub proof fn lemma_kol_runs_prefix(k: nat, m: nat)
    requires
        k <= m,
    ensures
        kol_runs(m).subrange(0, k as int) == kol_runs(k),
    decreases m,
{
    lemma_kol_runs_len(m);
    if k == m {
        assert(kol_runs(m).subrange(0, k as int) =~= kol_runs(k));
    } else {
        lemma_kol_runs_prefix(k, (m - 1) as nat);
        lemma_kol_step((m - 1) as nat);
        lemma_kol_runs_len((m - 1) as nat);
        assert(kol_runs(m).subrange(0, k as int) =~= kol_runs((m - 1) as nat).subrange(0, k as int));
    }
}

/// From step 2 on, the history already reaches past the current step, so the
/// position that the step reads exists.
pub proof fn lemma_history_reaches(n: nat)
    requires
        n >= 2,
    ensures
        kol_history(n).len() > n,
    decreases n,
{
    lemma_kol_runs_len(n);
    if n == 2 {
        reveal_with_fuel(kol_runs, 3);
        reveal_with_fuel(flatten, 3);
        assert(kol_runs(1) =~= seq![Run::Single(1)]);
        assert(kol_runs(2).drop_last() =~= kol_runs(1));
        assert(kol_runs(1).drop_last() =~= Seq::<Run>::empty());
    } else {
        lemma_history_reaches((n - 1) as nat);
        lemma_kol_runs_len((n - 1) as nat);
        assert(kol_runs(n).drop_last() =~= kol_runs((n - 1) as nat));
    }
}

} // verus!
