//! Which nested archive is converted next: the smallest first, as many at a time as the workers
//! and the size budget allow.

use crate::error::{other, ErrorView, Result};
use crate::util::order;
use crate::util::size_parse;
use crate::util::size_parse::can_admit_nested;
use vstd::prelude::*;

verus! {

// ---------------------------------------------------------------------------------------------
// The order of the archives
// ---------------------------------------------------------------------------------------------
/// Archive `a` is started before archive `b`: it is smaller, or as large and listed earlier.
pub open spec fn starts_before(sizes: Seq<u64>, a: usize, b: usize) -> bool {
    sizes[a as int] < sizes[b as int] || (sizes[a as int] == sizes[b as int] && a < b)
}

/// `order` goes from the archive that is started first to the one that is started last.
pub open spec fn in_order(sizes: Seq<u64>, order: Seq<usize>) -> bool {
    forall|i: int, j: int| 0 <= i < j < order.len() ==> starts_before(sizes, order[i], order[j])
}

/// Where archive `k` goes among the earlier ones.
fn place_for(sizes: &[u64], order: &[usize], k: usize) -> (p: usize)
    requires
        k < sizes.len(),
        order.len() == k,
        forall|i: int| 0 <= i < order.len() ==> #[trigger] order[i] < k,
        in_order(sizes@, order@),
    ensures
        p <= order.len(),
        forall|i: int| 0 <= i < p ==> starts_before(sizes@, #[trigger] order[i], k),
        forall|i: int| p <= i < order.len() ==> starts_before(sizes@, k, #[trigger] order[i]),
{
    let mut low: usize = 0;
    let mut high: usize = order.len();
    while low < high
        invariant
            low <= high <= order.len(),
            k < sizes.len(),
            order.len() == k,
            forall|i: int| 0 <= i < order.len() ==> #[trigger] order[i] < k,
            in_order(sizes@, order@),
            forall|i: int| 0 <= i < low ==> starts_before(sizes@, #[trigger] order[i], k),
            forall|i: int|
                high <= i < order.len() ==> starts_before(sizes@, k, #[trigger] order[i]),
        decreases high - low,
    {
        let mid: usize = low + (high - low) / 2;
        if sizes[order[mid]] <= sizes[k] {
            assert forall|i: int| 0 <= i < mid + 1 implies starts_before(
                sizes@,
                #[trigger] order[i],
                k,
            ) by {
                if i < mid {
                    assert(starts_before(sizes@, order[i], order[mid as int]));
                }
            }
            low = mid + 1;
        } else {
            assert forall|i: int| mid <= i < order.len() implies starts_before(
                sizes@,
                k,
                #[trigger] order[i],
            ) by {
                if mid < i {
                    assert(starts_before(sizes@, order[mid as int], order[i]));
                }
            }
            high = mid;
        }
    }
    low
}

/// The numbers of the archives in the order in which they are started: the smallest first, and
/// of two that are as large the one that is listed earlier.
pub fn schedule_order(sizes: &[u64]) -> (order: Vec<usize>)
    ensures
        order::arrangement(order@, sizes.len() as int),
        in_order(sizes@, order@),
{
    let mut order: Vec<usize> = Vec::new();
    let mut k: usize = 0;
    while k < sizes.len()
        invariant
            k <= sizes.len(),
            order::arrangement(order@, k as int),
            in_order(sizes@, order@),
        decreases sizes.len() - k,
    {
        let p = place_for(sizes, order.as_slice(), k);
        let ghost before = order@;
        order.insert(p, k);
        assert(order@ =~= before.insert(p as int, k));
        assert forall|i: int, j: int| 0 <= i < j < order@.len() implies starts_before(
            sizes@,
            order@[i],
            order@[j],
        ) by {
            let a = if i < p {
                i
            } else {
                i - 1
            };
            let b = if j < p {
                j
            } else {
                j - 1
            };
            if i != p && j != p {
                assert(order@[i] == before[a] && order@[j] == before[b]);
                assert(a < b);
            }
        }
        proof {
            order::lemma_arrangement_insert(before, p as int, k);
        }
        k += 1;
    }
    order
}

// ---------------------------------------------------------------------------------------------
// Starting and finishing
// ---------------------------------------------------------------------------------------------
/// How many archives were converted and how many left out.
#[derive(Debug, Clone, Copy, PartialEq, Eq, Structural)]
pub struct NestedRunStats {
    pub converted: usize,
    pub skipped: usize,
}

/// How many flags are set.
pub open spec fn set_count(flags: Seq<bool>) -> nat
    decreases flags.len(),
{
    if flags.len() == 0 {
        0
    } else {
        set_count(flags.drop_last()) + (if flags.last() {
            1nat
        } else {
            0
        })
    }
}

/// The sizes whose flag is set, together.
pub open spec fn set_sum(sizes: Seq<u64>, flags: Seq<bool>) -> nat
    decreases flags.len(),
{
    if flags.len() == 0 {
        0
    } else {
        set_sum(sizes, flags.drop_last()) + (if flags.last() {
            sizes[flags.len() - 1] as nat
        } else {
            0
        })
    }
}

/// All sizes together.
pub open spec fn size_sum(sizes: Seq<u64>) -> nat
    decreases sizes.len(),
{
    if sizes.len() == 0 {
        0
    } else {
        size_sum(sizes.drop_last()) + sizes.last() as nat
    }
}

/// Setting or clearing one flag changes the count and the sum by what it stands for.
proof fn lemma_flag(sizes: Seq<u64>, flags: Seq<bool>, i: int, value: bool)
    requires
        0 <= i < flags.len() <= sizes.len(),
        flags[i] != value,
    ensures
        value ==> set_count(flags.update(i, value)) == set_count(flags) + 1 && set_sum(
            sizes,
            flags.update(i, value),
        ) == set_sum(sizes, flags) + sizes[i],
        !value ==> set_count(flags.update(i, value)) + 1 == set_count(flags) && set_sum(
            sizes,
            flags.update(i, value),
        ) + sizes[i] == set_sum(sizes, flags),
    decreases flags.len(),
{
    let changed = flags.update(i, value);
    if i == flags.len() - 1 {
        assert(changed.drop_last() =~= flags.drop_last());
    } else {
        assert(changed.drop_last() =~= flags.drop_last().update(i, value));
        lemma_flag(sizes, flags.drop_last(), i, value);
    }
}

/// What is set weighs no more than everything.
proof fn lemma_set_sum_bound(sizes: Seq<u64>, flags: Seq<bool>)
    requires
        flags.len() <= sizes.len(),
    ensures
        set_sum(sizes, flags) <= size_sum(sizes.take(flags.len() as int)),
    decreases flags.len(),
{
    if flags.len() > 0 {
        let n = flags.len() as int;
        assert(sizes.take(n).drop_last() =~= sizes.take(n - 1));
        lemma_set_sum_bound(sizes, flags.drop_last());
    }
}

/// Where some flag is set, the count says so.
proof fn lemma_set_count(flags: Seq<bool>, i: int)
    requires
        0 <= i < flags.len(),
        flags[i],
    ensures
        set_count(flags) >= 1,
    decreases flags.len(),
{
    if i < flags.len() - 1 {
        lemma_set_count(flags.drop_last(), i);
    }
}

/// Where the count is zero, nothing weighs anything.
proof fn lemma_none_set(sizes: Seq<u64>, flags: Seq<bool>)
    requires
        set_count(flags) == 0,
    ensures
        set_sum(sizes, flags) == 0,
    decreases flags.len(),
{
    if flags.len() > 0 {
        lemma_none_set(sizes, flags.drop_last());
    }
}

/// Where no flag is set, the count is zero.
proof fn lemma_clear(flags: Seq<bool>)
    requires
        forall|i: int| 0 <= i < flags.len() ==> !#[trigger] flags[i],
    ensures
        set_count(flags) == 0,
    decreases flags.len(),
{
    if flags.len() > 0 {
        assert forall|i: int| 0 <= i < flags.len() - 1 implies !#[trigger] flags.drop_last()[i] by {
            assert(flags[i] == flags.drop_last()[i]);
        }
        lemma_clear(flags.drop_last());
    }
}

/// All sizes together, where that fits a `u64`.
pub fn total_size(sizes: &[u64]) -> (r: Option<u64>)
    ensures
        match r {
            Some(n) => n == size_sum(sizes@),
            None => size_sum(sizes@) > u64::MAX,
        },
{
    let mut total: u64 = 0;
    let mut i: usize = 0;
    assert(sizes@.take(0) =~= Seq::<u64>::empty());
    while i < sizes.len()
        invariant
            i <= sizes.len(),
            total == size_sum(sizes@.take(i as int)),
        decreases sizes.len() - i,
    {
        assert(sizes@.take(i + 1).drop_last() =~= sizes@.take(i as int));
        match total.checked_add(sizes[i]) {
            Some(n) => {
                total = n;
            },
            None => {
                proof {
                    lemma_part_sum(sizes@, i + 1);
                }
                return None;
            },
        }
        i += 1;
    }
    assert(sizes@.take(i as int) =~= sizes@);
    Some(total)
}

/// The first sizes weigh no more than all of them.
proof fn lemma_part_sum(sizes: Seq<u64>, n: int)
    requires
        0 <= n <= sizes.len(),
    ensures
        size_sum(sizes.take(n)) <= size_sum(sizes),
    decreases sizes.len(),
{
    if n == sizes.len() {
        assert(sizes.take(n) =~= sizes);
    } else {
        assert(sizes.drop_last().take(n) =~= sizes.take(n));
        lemma_part_sum(sizes.drop_last(), n);
    }
}

/// How many workers there are for a number of jobs: no more than jobs, and at least one.
pub fn job_workers(max_workers: usize, jobs: usize) -> (r: usize)
    requires
        jobs >= 1,
    ensures
        r == (if max_workers == 0 {
            1
        } else if max_workers > jobs {
            jobs
        } else {
            max_workers
        }),
        r >= 1,
{
    if max_workers == 0 {
        1
    } else if max_workers > jobs {
        jobs
    } else {
        max_workers
    }
}

/// What the scheduler asks for.
#[derive(Debug, Clone, Copy, PartialEq, Eq, Structural)]
pub enum SchedulerStep {
    /// Start the job with this number.
    Start(usize),
    /// Wait until a running job ends.
    Wait,
    /// All jobs have ended.
    Finished,
}

/// The state of a run over several nested archives. Jobs are numbered in the order in which they
/// are started.
#[derive(Debug)]
pub struct NestedScheduler {
    /// The size of each job.
    pub sizes: Vec<u64>,
    /// How many jobs may run at a time.
    pub max_workers: usize,
    /// How much the running jobs may weigh together; zero means no limit.
    pub size_budget: u64,
    /// How many jobs have been started.
    pub started: usize,
    /// Which jobs are running.
    pub running: Vec<bool>,
    pub running_count: usize,
    pub running_sum: u64,
    pub converted: usize,
    pub skipped: usize,
}

impl NestedScheduler {
    /// The counters agree with the flags, and the running jobs keep to the limits: no more of
    /// them than workers, and within the budget unless one runs alone.
    pub open spec fn valid(self) -> bool {
        &&& self.max_workers >= 1
        &&& self.running.len() == self.sizes.len()
        &&& self.started <= self.sizes.len()
        &&& forall|i: int|
            0 <= i < self.running.len() && #[trigger] self.running[i] ==> i < self.started
        &&& self.running_count == set_count(self.running@)
        &&& self.running_sum == set_sum(self.sizes@, self.running@)
        &&& self.running_count + self.converted + self.skipped == self.started
        &&& self.running_count <= self.max_workers
        &&& self.size_budget == 0 || self.running_sum <= self.size_budget || self.running_count
            <= 1
        &&& self.unlimited() ==> size_sum(self.sizes@) <= u64::MAX
    }

    /// Neither the workers nor the budget keep the sum of the running sizes within a `u64`.
    pub open spec fn unlimited(self) -> bool {
        self.max_workers > 1 && (self.size_budget == 0 || self.size_budget == u64::MAX)
    }

    /// Job `job` has been started and has not ended.
    pub open spec fn runs(self, job: usize) -> bool {
        job < self.running.len() && self.running[job as int]
    }

    /// All jobs have ended.
    pub open spec fn complete(self) -> bool {
        self.converted + self.skipped == self.sizes.len()
    }

    /// The next job may be started now.
    pub open spec fn may_start(self) -> bool {
        self.started < self.sizes.len() && size_parse::admits(
            self.running_sum,
            self.running_count,
            self.sizes[self.started as int],
            self.size_budget,
            self.max_workers,
        )
    }

    /// A run over jobs of the given sizes, none of which has been started.
    pub fn new(sizes: Vec<u64>, max_workers: usize, size_budget: u64) -> (r: Self)
        requires
            max_workers >= 1,
            max_workers > 1 && (size_budget == 0 || size_budget == u64::MAX) ==> size_sum(sizes@)
                <= u64::MAX,
        ensures
            r.valid(),
            r.sizes@ == sizes@,
            r.max_workers == max_workers,
            r.size_budget == size_budget,
            r.started == 0,
            r.running_count == 0,
            r.converted == 0,
            r.skipped == 0,
    {
        let mut running: Vec<bool> = Vec::new();
        let mut i: usize = 0;
        while i < sizes.len()
            invariant
                i <= sizes.len(),
                running.len() == i,
                forall|k: int| 0 <= k < i ==> !#[trigger] running[k],
            decreases sizes.len() - i,
        {
            running.push(false);
            i += 1;
        }
        proof {
            lemma_clear(running@);
            lemma_none_set(sizes@, running@);
        }
        NestedScheduler {
            sizes,
            max_workers,
            size_budget,
            started: 0,
            running,
            running_count: 0,
            running_sum: 0,
            converted: 0,
            skipped: 0,
        }
    }

    /// What to do now. A job that is to be started counts as running from here on.
    pub fn next(&mut self) -> (r: SchedulerStep)
        requires
            old(self).valid(),
        ensures
            final(self).valid(),
            final(self).sizes@ == old(self).sizes@,
            final(self).max_workers == old(self).max_workers,
            final(self).size_budget == old(self).size_budget,
            final(self).converted == old(self).converted,
            final(self).skipped == old(self).skipped,
            r is Start <==> old(self).may_start(),
            r is Start ==> {
                &&& r->Start_0 == old(self).started
                &&& final(self).started == old(self).started + 1
                &&& final(self).running@ == old(self).running@.update(r->Start_0 as int, true)
                &&& final(self).running_count == old(self).running_count + 1
                &&& final(self).running_sum == old(self).running_sum + old(
                    self,
                ).sizes[r->Start_0 as int]
            },
            r !is Start ==> *final(self) == *old(self),
            r is Finished <==> old(self).complete(),
            r is Wait <==> !old(self).may_start() && !old(self).complete(),
            r is Wait ==> old(self).running_count > 0,
    {
        if self.started < self.sizes.len() {
            let job: usize = self.started;
            let size: u64 = self.sizes[job];
            if can_admit_nested(
                self.running_sum,
                self.running_count,
                size,
                self.size_budget,
                self.max_workers,
            ) {
                proof {
                    lemma_flag(self.sizes@, self.running@, job as int, true);
                    lemma_set_sum_bound(self.sizes@, self.running@.update(job as int, true));
                    assert(self.sizes@.take(self.sizes@.len() as int) =~= self.sizes@);
                    if self.running_count == 0 {
                        lemma_none_set(self.sizes@, self.running@);
                    }
                    assert(self.running_sum + size <= u64::MAX);
                }
                self.running.set(job, true);
                self.started = self.started + 1;
                self.running_count = self.running_count + 1;
                self.running_sum = self.running_sum + size;
                return SchedulerStep::Start(job);
            }
            return SchedulerStep::Wait;
        }
        if self.running_count > 0 {
            SchedulerStep::Wait
        } else {
            SchedulerStep::Finished
        }
    }

    /// Whether a job is running.
    pub fn is_running(&self, job: usize) -> (r: bool)
        ensures
            r == self.runs(job),
    {
        job < self.running.len() && self.running[job]
    }

    /// Takes note that a running job has ended, and whether its archive was converted.
    pub fn ended(&mut self, job: usize, converted: bool)
        requires
            old(self).valid(),
            old(self).runs(job),
        ensures
            final(self).valid(),
            final(self).sizes@ == old(self).sizes@,
            final(self).max_workers == old(self).max_workers,
            final(self).size_budget == old(self).size_budget,
            final(self).started == old(self).started,
            final(self).running@ == old(self).running@.update(job as int, false),
            final(self).running_count == old(self).running_count - 1,
            final(self).running_sum == old(self).running_sum - old(self).sizes[job as int],
            final(self).converted == old(self).converted + (if converted {
                1int
            } else {
                0
            }),
            final(self).skipped == old(self).skipped + (if converted {
                0int
            } else {
                1
            }),
    {
        proof {
            lemma_set_count(self.running@, job as int);
            lemma_flag(self.sizes@, self.running@, job as int, false);
            if self.running_count == 1 {
                lemma_none_set(self.sizes@, self.running@.update(job as int, false));
            }
        }
        let size: u64 = self.sizes[job];
        self.running.set(job, false);
        self.running_count = self.running_count - 1;
        self.running_sum = self.running_sum - size;
        if converted {
            self.converted = self.converted + 1;
        } else {
            self.skipped = self.skipped + 1;
        }
    }

    /// How the run came out, with the archives that could not even be staged. Where the workers
    /// went away before all jobs had ended, it failed.
    pub fn result(&self, stage_skipped: usize) -> (r: Result<NestedRunStats>)
        requires
            self.valid(),
            self.sizes.len() + stage_skipped <= usize::MAX,
        ensures
            match r {
                Ok(s) => self.complete() && s.converted == self.converted && s.skipped
                    == self.skipped + stage_skipped,
                Err(e) => !self.complete() && e@ == ErrorView::Other(
                    "size-aware nested convert failed: nested worker channel closed early"@,
                ),
            },
    {
        if self.started < self.sizes.len() || self.running_count > 0 {
            return Err(
                other("size-aware nested convert failed: nested worker channel closed early"),
            );
        }
        Ok(NestedRunStats { converted: self.converted, skipped: self.skipped + stage_skipped })
    }
}

// ---------------------------------------------------------------------------------------------
// Laws
// ---------------------------------------------------------------------------------------------
/// Law: the scheduler never stalls. As long as not every job has ended, either the next job may
/// be started or one is running.
pub proof fn law_never_stalls(s: NestedScheduler)
    requires
        s.valid(),
        !s.complete(),
    ensures
        s.may_start() || s.running_count > 0,
{
}

/// Law: at no time do more jobs run than there are workers, and they keep to the budget unless
/// there is none or one job runs alone.
pub proof fn law_limits_are_kept(s: NestedScheduler)
    requires
        s.valid(),
    ensures
        set_count(s.running@) <= s.max_workers,
        s.size_budget > 0 && set_count(s.running@) > 1 ==> set_sum(s.sizes@, s.running@)
            <= s.size_budget,
{
}

/// Law: when the run is complete, every job has been started and has ended as converted or as
/// left out, and none is running.
pub proof fn law_complete_means_all_ended(s: NestedScheduler)
    requires
        s.valid(),
        s.complete(),
    ensures
        s.started == s.sizes.len(),
        forall|job: usize| !s.runs(job),
        s.converted + s.skipped == s.sizes.len(),
{
    assert forall|job: usize| !s.runs(job) by {
        if s.runs(job) {
            lemma_set_count(s.running@, job as int);
        }
    }
}

/// Law: the smallest archives are started first. In the order that [`schedule_order`] gives, no
/// archive comes before a smaller one.
pub proof fn law_smallest_first(sizes: Seq<u64>, order: Seq<usize>, i: int, j: int)
    requires
        order::arrangement(order, sizes.len() as int),
        in_order(sizes, order),
        0 <= i < j < order.len(),
    ensures
        sizes[order[i] as int] <= sizes[order[j] as int],
{
    assert(starts_before(sizes, order[i], order[j]));
}

/// Law: of archives of the same size the one that is listed earlier is started first.
pub proof fn law_earlier_first_among_equals(sizes: Seq<u64>, order: Seq<usize>, i: int, j: int)
    requires
        order::arrangement(order, sizes.len() as int),
        in_order(sizes, order),
        0 <= i < order.len(),
        0 <= j < order.len(),
        sizes[order[i] as int] == sizes[order[j] as int],
        order[i] < order[j],
    ensures
        i < j,
{
    if j < i {
        assert(starts_before(sizes, order[j], order[i]));
    }
}

} // verus!
