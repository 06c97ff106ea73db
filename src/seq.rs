use vstd::prelude::*;
use crate::model::{kol_history, kol_runs, lemma_history_reaches, lemma_kol_runs_len, run_at};

verus! {

/// One step of output: a run of one symbol, or of two.
#[derive(Debug, Clone, Copy, PartialEq, Eq, Structural)]
pub enum Run {
    Single(u8),
    Double(u8, u8),
}

impl Run {
    /// The symbols of the run, in order.
    pub open spec fn symbols(self) -> Seq<u8> {
        match self {
            Run::Single(a) => seq![a],
            Run::Double(a, b) => seq![a, b],
        }
    }

    /// The run's first symbol.
    pub fn first(&self) -> (r: u8)
        ensures
            r == self.symbols()[0],
    {
        match self {
            Run::Single(first) => *first,
            Run::Double(first, _) => *first,
        }
    }

    /// Appends the run's symbols, in order, to `vec`.
    pub fn append_to(&self, vec: &mut Vec<u8>)
        ensures
            final(vec)@ == old(vec)@ + self.symbols(),
    {
        match self {
            Run::Single(first) => vec.push(*first),
            Run::Double(first, second) => {
                vec.push(*first);
                vec.push(*second);
            },
        };
        assert(vec@ =~= old(vec)@ + self.symbols());
    }
}

/// Generator of the Kolakoski sequence: each call of `next` produces the
/// following run, read off the symbols emitted so far.
pub struct KolSeq {
    prev_run: Run,
    seq: Vec<u8>,
    step: usize,
}

impl View for KolSeq {
    type V = Seq<Run>;

    /// The runs produced so far, in order.
    closed spec fn view(&self) -> Seq<Run> {
        kol_runs(self.step as nat)
    }
}

impl KolSeq {
    /// How many runs have been produced.
    pub closed spec fn step_count(&self) -> nat {
        self.step as nat
    }

    /// Every symbol emitted so far, in order.
    pub closed spec fn history(&self) -> Seq<u8> {
        self.seq@
    }

    /// The run produced last; `Single(0)` before the first.
    pub closed spec fn last_run(&self) -> Run {
        self.prev_run
    }

    /// The state is the one reached from a fresh generator by `step` calls.
    pub closed spec fn wf(&self) -> bool {
        &&& self.seq@ == kol_history(self.step as nat)
        &&& self.prev_run == if self.step == 0 {
            Run::Single(0)
        } else {
            kol_runs(self.step as nat).last()
        }
    }

    /// What a well-formed state holds, stated over its public views.
    pub proof fn lemma_wf(&self)
        requires
            self.wf(),
        ensures
            self@ == kol_runs(self.step_count()),
            self@.len() == self.step_count(),
            self.history() == kol_history(self.step_count()),
            self.last_run() == if self.step_count() == 0 {
                Run::Single(0)
            } else {
                self@.last()
            },
    {
        lemma_kol_runs_len(self.step_count());
    }

    /// A fresh generator: nothing produced yet.
    pub fn new() -> (r: KolSeq)
        ensures
            r.wf(),
            r.step_count() == 0,
            r@ == Seq::<Run>::empty(),
            r.history() == Seq::<u8>::empty(),
            r.last_run() == Run::Single(0),
    {
        let r = KolSeq { prev_run: Run::Single(0), step: 0, seq: Vec::new() };
        assert(r.seq@ =~= kol_history(0));
        r
    }

    /// Whether the number of runs produced so far is even.
    pub fn is_step_even(&self) -> (r: bool)
        ensures
            r == (self.step_count() % 2 == 0),
    {
        self.step % 2 == 0
    }

    /// Produces the next run: it is appended to the history, becomes the last
    /// run, and the step count goes up by one. The result is always `Some`.
    pub fn next(&mut self) -> (r: Option<Run>)
        requires
            old(self).wf(),
            old(self).step_count() < usize::MAX,
        ensures
            final(self).wf(),
            r == Some(run_at(old(self).step_count(), old(self).history())),
            final(self).step_count() == old(self).step_count() + 1,
            final(self)@ == old(self)@.push(r->0),
            final(self).history() == old(self).history() + r->0.symbols(),
            final(self).last_run() == r->0,
    {
        proof {
            if self.step >= 2 {
                lemma_history_reaches(self.step as nat);
            }
        }
        let next_step = match self.step {
            0 => Run::Single(1),
            1 => Run::Double(2, 2),
            _ => {
                let prev_val = self.seq[self.step];
                if !self.is_step_even() {
                    if prev_val == 1 {
                        Run::Single(2)
                    } else {
                        Run::Double(2, 2)
                    }
                } else {
                    if prev_val == 1 {
                        Run::Single(1)
                    } else {
                        Run::Double(1, 1)
                    }
                }
            },
        };
        next_step.append_to(&mut self.seq);
        self.prev_run = next_step;
        self.step += 1;
        proof {
            let n = self.step as nat;
            lemma_kol_runs_len((n - 1) as nat);
            assert(kol_runs(n).drop_last() =~= kol_runs((n - 1) as nat));
        }
        Some(next_step.clone())
    }

    /// Consumes the generator and returns the next `n` runs, in order.
    pub fn take(self, n: usize) -> (r: Vec<Run>)
        requires
            self.wf(),
            self.step_count() + n <= usize::MAX,
        ensures
            r@ == kol_runs((self.step_count() + n) as nat).subrange(
                self.step_count() as int,
                self.step_count() + n,
            ),
    {
        let ghost start = self.step_count();
        let mut s = self;
        let mut out: Vec<Run> = Vec::new();
        let mut i: usize = 0;
        proof {
            lemma_kol_runs_len(start);
            assert(out@ =~= kol_runs(start).subrange(start as int, start as int));
        }
        while i < n
            invariant
                i <= n,
                start + n <= usize::MAX,
                s.wf(),
                s.step_count() == start + i,
                out@ == kol_runs((start + i) as nat).subrange(start as int, start + i),
            decreases n - i,
        {
            proof {
                s.lemma_wf();
            }
            let run = s.next();
            proof {
                s.lemma_wf();
                lemma_kol_runs_len((start + i) as nat);
            }
            match run {
                Some(x) => out.push(x),
                None => {},
            }
            i += 1;
            assert(out@ =~= kol_runs((start + i) as nat).subrange(start as int, start + i));
        }
        out
    }
}

} // verus!
