//! Properties of the sequence that hold for every number of steps.
use vstd::prelude::*;
use crate::model::{kol_history, kol_runs, lemma_kol_runs_prefix, lemma_kol_step, run_at};
use crate::seq::{KolSeq, Run};

verus! {

/// The first ten runs of the sequence.
pub open spec fn first_ten_runs() -> Seq<Run> {
    seq![
        Run::Single(1),
        Run::Double(2, 2),
        Run::Double(1, 1),
        Run::Single(2),
        Run::Single(1),
        Run::Double(2, 2),
        Run::Single(1),
        Run::Double(2, 2),
        Run::Double(1, 1),
        Run::Single(2),
    ]
}

/// Every run, whatever it reads, is made of the symbols 1 and 2 only, and a
/// run of two repeats one symbol.
pub proof fn lemma_run_at_shape(step: nat, history: Seq<u8>)
    ensures
        forall|i: int|
            0 <= i < run_at(step, history).symbols().len() ==> (run_at(step, history).symbols()[i] == 1
                || run_at(step, history).symbols()[i] == 2),
        run_at(step, history) matches Run::Double(a, b) ==> a == b,
{
}

/// After any number of steps, every symbol emitted is 1 or 2.
pub proof fn lemma_symbols_one_or_two(n: nat)
    ensures
        forall|i: int| 0 <= i < kol_history(n).len() ==> (kol_history(n)[i] == 1 || kol_history(n)[i] == 2),
    decreases n,
{
    if n > 0 {
        let p = (n - 1) as nat;
        lemma_symbols_one_or_two(p);
        lemma_kol_step(p);
        lemma_run_at_shape(p, kol_history(p));
        assert forall|i: int| 0 <= i < kol_history(n).len() implies (kol_history(n)[i] == 1
            || kol_history(n)[i] == 2) by {
            if i >= kol_history(p).len() {
                assert(kol_history(n)[i] == run_at(p, kol_history(p)).symbols()[i - kol_history(p).len()]);
            }
        }
    }
}

/// After any number of steps, every run of two symbols produced repeats one
/// symbol.
pub proof fn lemma_doubles_repeat(n: nat)
    ensures
        forall|i: int| 0 <= i < kol_runs(n).len() ==> (#[trigger] kol_runs(n)[i] matches Run::Double(a, b) ==> a == b),
    decreases n,
{
    if n > 0 {
        let p = (n - 1) as nat;
        lemma_doubles_repeat(p);
        lemma_kol_step(p);
        lemma_run_at_shape(p, kol_history(p));
    }
}

/// Two well-formed generators that have produced the same number of runs have
/// produced the same runs, emitted the same symbols and hold the same last run.
pub proof fn lemma_deterministic(a: &KolSeq, b: &KolSeq)
    requires
        a.wf(),
        b.wf(),
        a.step_count() == b.step_count(),
    ensures
        a@ == b@,
        a.history() == b.history(),
        a.last_run() == b.last_run(),
{
    a.lemma_wf();
    b.lemma_wf();
}

/// The first ten runs are those of `first_ten_runs`.
pub proof fn lemma_first_ten()
    ensures
        kol_runs(10) == first_ten_runs(),
{
    lemma_kol_step(0);
    assert(kol_history(1) =~= seq![1u8]);
    lemma_kol_step(1);
    assert(kol_history(2) =~= seq![1u8, 2, 2]);
    lemma_kol_step(2);
    assert(kol_history(3) =~= seq![1u8, 2, 2, 1, 1]);
    lemma_kol_step(3);
    assert(kol_history(4) =~= seq![1u8, 2, 2, 1, 1, 2]);
    lemma_kol_step(4);
    assert(kol_history(5) =~= seq![1u8, 2, 2, 1, 1, 2, 1]);
    lemma_kol_step(5);
    assert(kol_history(6) =~= seq![1u8, 2, 2, 1, 1, 2, 1, 2, 2]);
    lemma_kol_step(6);
    assert(kol_history(7) =~= seq![1u8, 2, 2, 1, 1, 2, 1, 2, 2, 1]);
    lemma_kol_step(7);
    assert(kol_history(8) =~= seq![1u8, 2, 2, 1, 1, 2, 1, 2, 2, 1, 2, 2]);
    lemma_kol_step(8);
    assert(kol_history(9) =~= seq![1u8, 2, 2, 1, 1, 2, 1, 2, 2, 1, 2, 2, 1, 1]);
    lemma_kol_step(9);
    assert(kol_runs(10) =~= first_ten_runs());
}

/// For any `k` up to ten, the first `k` runs are a prefix of the first ten.
pub proof fn lemma_prefix_of_first_ten(k: nat)
    requires
        k <= 10,
    ensures
        kol_runs(k) == first_ten_runs().subrange(0, k as int),
{
    lemma_first_ten();
    lemma_kol_runs_prefix(k, 10);
}

} // verus!
