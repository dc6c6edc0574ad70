//! The order of the runs of a measurement, and what they add up to.

use crate::bench::baseline;
use crate::bench::baseline::{median, ManualBaselineEntry};
use crate::bench::fixtures;
use crate::bench::fixtures::{bench_cells, is_intermediate, repeat_count};
use crate::bench::report::BenchRow;
use crate::util::text::copy_str;
use vstd::prelude::*;

verus! {

// ---------------------------------------------------------------------------------------------
// Steps
// ---------------------------------------------------------------------------------------------
/// One step of a measurement.
#[derive(Debug, Clone, Copy, PartialEq, Eq, Structural)]
pub enum BenchStep {
    /// A run that is not counted.
    Warmup { nested: usize, threads: u32, number: u32 },
    /// A run that is timed, and whether its output is kept.
    Timed { nested: usize, threads: u32, number: u32, keep: bool },
    /// The runs of this cell are over.
    Report { nested: usize, threads: u32 },
}

/// How often a cell is timed.
pub open spec fn times_of(repeats: u32) -> nat {
    if repeats == 0 {
        1
    } else {
        repeats as nat
    }
}

/// Step `k` of a cell.
pub open spec fn step_at(cell: (usize, u32), warmup: u32, repeats: u32, k: int) -> BenchStep {
    if k < warmup {
        BenchStep::Warmup { nested: cell.0, threads: cell.1, number: k as u32 }
    } else if k < warmup + times_of(repeats) {
        BenchStep::Timed {
            nested: cell.0,
            threads: cell.1,
            number: (k - warmup) as u32,
            keep: !(k - warmup + 1 < repeats),
        }
    } else {
        BenchStep::Report { nested: cell.0, threads: cell.1 }
    }
}

/// The steps of a cell: runs that are not counted, runs that are timed, and the report.
pub open spec fn cell_steps(cell: (usize, u32), warmup: u32, repeats: u32) -> Seq<BenchStep> {
    Seq::new(warmup as nat + times_of(repeats) + 1, |k: int| step_at(cell, warmup, repeats, k))
}

/// The steps of several cells, one cell after the other.
pub open spec fn steps_of(cells: Seq<(usize, u32)>, warmup: u32, repeats: u32) -> Seq<BenchStep>
    decreases cells.len(),
{
    if cells.len() == 0 {
        Seq::empty()
    } else {
        cell_steps(cells[0], warmup, repeats) + steps_of(cells.skip(1), warmup, repeats)
    }
}

/// The steps of a measurement that are still to be done.
#[derive(Debug)]
pub struct BenchSchedule {
    cells: Vec<(usize, u32)>,
    warmup: u32,
    repeats: u32,
    cell: usize,
    step: u64,
}

impl View for BenchSchedule {
    type V = Seq<BenchStep>;

    closed spec fn view(&self) -> Seq<BenchStep> {
        if self.cell < self.cells.len() {
            cell_steps(self.cells@[self.cell as int], self.warmup, self.repeats).skip(
                self.step as int,
            ) + steps_of(self.cells@.skip(self.cell + 1), self.warmup, self.repeats)
        } else {
            Seq::empty()
        }
    }
}

impl BenchSchedule {
    /// The next step lies within its cell.
    pub closed spec fn valid(self) -> bool {
        &&& self.cell <= self.cells.len()
        &&& self.step <= self.warmup + times_of(self.repeats)
        &&& self.cell == self.cells.len() ==> self.step == 0
    }

    /// All steps for these numbers of nested archives and of threads.
    pub fn new(counts: &[usize], threads: &[u32], warmup: u32, repeats: u32) -> (r: Self)
        ensures
            r.valid(),
            r@ == steps_of(fixtures::cells(counts@, threads@), warmup, repeats),
    {
        let cells = bench_cells(counts, threads);
        let r = BenchSchedule { cells, warmup, repeats, cell: 0, step: 0 };
        proof {
            if cells.len() > 0 {
                let first = cell_steps(cells@[0], warmup, repeats);
                assert(first.skip(0) =~= first);
            }
        }
        r
    }

    /// The next step.
    pub fn next(&mut self) -> (r: Option<BenchStep>)
        requires
            old(self).valid(),
        ensures
            final(self).valid(),
            match r {
                Some(s) => old(self)@.len() > 0 && s == old(self)@[0] && final(self)@ == old(
                    self,
                )@.skip(1),
                None => old(self)@.len() == 0 && final(self)@ == old(self)@,
            },
    {
        if self.cell == self.cells.len() {
            return None;
        }
        let (nested, threads) = self.cells[self.cell];
        let warmup: u64 = self.warmup as u64;
        let timed: u64 = repeat_count(self.repeats) as u64;
        let k: u64 = self.step;
        let ghost all = cell_steps(self.cells@[self.cell as int], self.warmup, self.repeats);
        let ghost rest = steps_of(self.cells@.skip(self.cell + 1), self.warmup, self.repeats);
        let ghost before = self@;
        assert(before == all.skip(k as int) + rest);
        assert(before[0] == all[k as int]);
        if k < warmup {
            self.step = k + 1;
            assert(self@ =~= before.skip(1));
            Some(BenchStep::Warmup { nested, threads, number: k as u32 })
        } else if k < warmup + timed {
            let number: u32 = (k - warmup) as u32;
            let keep = !is_intermediate(number, self.repeats);
            self.step = k + 1;
            assert(self@ =~= before.skip(1));
            Some(BenchStep::Timed { nested, threads, number, keep })
        } else {
            let ghost left = self.cells@.skip(self.cell + 1);
            self.cell = self.cell + 1;
            self.step = 0;
            proof {
                assert(before.skip(1) =~= rest);
                if self.cell < self.cells.len() {
                    assert(left[0] == self.cells@[self.cell as int]);
                    assert(left.skip(1) =~= self.cells@.skip(self.cell + 1));
                    let first = cell_steps(left[0], self.warmup, self.repeats);
                    assert(first.skip(0) =~= first);
                }
                assert(self@ =~= rest);
            }
            Some(BenchStep::Report { nested, threads })
        }
    }
}

/// Law: a cell is timed as often as it should be before it is reported, and of the outputs only
/// that of its last run is kept.
pub proof fn law_last_output_is_kept(cell: (usize, u32), warmup: u32, repeats: u32, k: int)
    requires
        0 <= k < cell_steps(cell, warmup, repeats).len(),
    ensures
        ({
            let steps = cell_steps(cell, warmup, repeats);
            let last = warmup + times_of(repeats);
            &&& steps.len() == last + 1
            &&& (steps[k] is Timed <==> warmup <= k < last)
            &&& (steps[k] is Report <==> k == last)
            &&& (steps[k] is Timed ==> (steps[k]->keep <==> k == last - 1))
        }),
{
}

/// Law: the steps of a measurement are those of its cells, and there are as many reports as
/// cells.
pub proof fn law_every_cell_is_reported(cells: Seq<(usize, u32)>, warmup: u32, repeats: u32)
    ensures
        steps_of(cells, warmup, repeats).len() == cells.len() * (warmup + times_of(repeats) + 1),
        steps_of(cells, warmup, repeats).filter(|s: BenchStep| s is Report).len() == cells.len(),
    decreases cells.len(),
{
    let is_report = |s: BenchStep| s is Report;
    let n = warmup + times_of(repeats) + 1;
    if cells.len() == 0 {
        assert(0 * n == 0) by (nonlinear_arith);
        assert(steps_of(cells, warmup, repeats).filter(is_report).len() == 0) by {
            reveal(Seq::filter);
        }
    } else {
        let first = cell_steps(cells[0], warmup, repeats);
        let rest = steps_of(cells.skip(1), warmup, repeats);
        law_every_cell_is_reported(cells.skip(1), warmup, repeats);
        assert(cells.len() * n == n + cells.skip(1).len() * n) by (nonlinear_arith)
            requires
                cells.skip(1).len() == cells.len() - 1,
        ;
        Seq::filter_distributes_over_add(first, rest, is_report);
        lemma_one_report(first, cells[0], warmup, repeats);
    }
}

proof fn lemma_one_report(s: Seq<BenchStep>, cell: (usize, u32), warmup: u32, repeats: u32)
    requires
        s == cell_steps(cell, warmup, repeats),
    ensures
        s.filter(|s: BenchStep| s is Report).len() == 1,
{
    let is_report = |s: BenchStep| s is Report;
    let runs = s.drop_last();
    assert forall|i: int| 0 <= i < runs.len() implies !is_report(#[trigger] runs[i]) by {
        assert(runs[i] == s[i]);
    }
    lemma_none_left(runs, is_report);
    assert(s == runs.push(s.last()));
    reveal(Seq::filter);
    assert(s.drop_last() == runs);
    assert(is_report(s.last()));
}

proof fn lemma_none_left(s: Seq<BenchStep>, f: spec_fn(BenchStep) -> bool)
    requires
        forall|i: int| 0 <= i < s.len() ==> !f(#[trigger] s[i]),
    ensures
        s.filter(f).len() == 0,
    decreases s.len(),
{
    reveal(Seq::filter);
    if s.len() > 0 {
        lemma_none_left(s.drop_last(), f);
    }
}

// ---------------------------------------------------------------------------------------------
// Tally
// ---------------------------------------------------------------------------------------------
/// What was measured of one cell so far.
#[derive(Debug)]
pub struct BenchTally {
    /// The times, as the bits of numbers of seconds.
    pub times: Vec<u64>,
    /// The size of the last output.
    pub output_bytes: u64,
}

impl BenchTally {
    /// Nothing was measured.
    pub fn new() -> (r: Self)
        ensures
            r.times@ == Seq::<u64>::empty(),
            r.output_bytes == 0,
    {
        BenchTally { times: Vec::new(), output_bytes: 0 }
    }

    /// Takes in a run.
    pub fn timed(&mut self, seconds_bits: u64, output_bytes: u64)
        ensures
            final(self).times@ == old(self).times@.push(seconds_bits),
            final(self).output_bytes == output_bytes,
    {
        self.times.push(seconds_bits);
        self.output_bytes = output_bytes;
    }

    /// The row of the cell: the middle time and the last size; none if nothing was timed.
    pub fn row(&self, scale: &str, nested: usize, threads: u32, input_bytes: u64) -> (r: Option<
        BenchRow,
    >)
        ensures
            match r {
                Some(row) => {
                    &&& self.times@.len() > 0
                    &&& row.scale@ == scale@
                    &&& row.nested == nested
                    &&& row.threads == threads
                    &&& baseline::is_middle(self.times@, row.seconds_bits)
                    &&& row.input_bytes == input_bytes
                    &&& row.output_bytes == self.output_bytes
                },
                None => self.times@.len() == 0,
            },
    {
        if self.times.len() == 0 {
            return None;
        }
        Some(
            BenchRow {
                scale: copy_str(scale),
                nested,
                threads,
                seconds_bits: median(self.times.as_slice()),
                input_bytes,
                output_bytes: self.output_bytes,
            },
        )
    }

    /// The baseline of the cell; none if nothing was timed.
    pub fn entry(&self, nested: usize, threads: u32, level: u32, repeats: u32) -> (r: Option<
        ManualBaselineEntry,
    >)
        ensures
            match r {
                Some(e) => {
                    &&& self.times@.len() > 0
                    &&& baseline::is_middle(self.times@, e.seconds_bits)
                    &&& e == (ManualBaselineEntry {
                        nested,
                        threads,
                        level,
                        seconds_bits: e.seconds_bits,
                        output_bytes: self.output_bytes,
                        repeats: times_of(repeats) as u32,
                    })
                },
                None => self.times@.len() == 0,
            },
    {
        if self.times.len() == 0 {
            return None;
        }
        Some(
            ManualBaselineEntry {
                nested,
                threads,
                level,
                seconds_bits: median(self.times.as_slice()),
                output_bytes: self.output_bytes,
                repeats: repeat_count(repeats),
            },
        )
    }
}

} // verus!
