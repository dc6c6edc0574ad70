//! How a plan is carried out: which step comes next, given how the last one came out.

use crate::codec::outer::OuterFormat;
use crate::error::{Error, ErrorView};
use crate::pipeline::plan;
use crate::pipeline::plan::{ActionKind, ConversionPlan, PlannedView, RuntimeStats};
use crate::pipeline::scheduler::NestedRunStats;
use crate::util::size_parse;
use crate::util::size_parse::resolve_nested_workers;
use crate::util::text;
use crate::util::text::{concat2, concat3, copy_str, show_usize};
use vstd::prelude::*;

verus! {

// ---------------------------------------------------------------------------------------------
// What is fixed before the run
// ---------------------------------------------------------------------------------------------
/// The actions of a plan.
pub open spec fn actions_of(entries: Seq<PlannedView>) -> Seq<ActionKind> {
    entries.map_values(|e: PlannedView| e.action)
}

/// How many of the members an action is planned for.
pub open spec fn count(actions: Seq<ActionKind>, action: ActionKind) -> nat
    decreases actions.len(),
{
    if actions.len() == 0 {
        0
    } else {
        count(actions.drop_last(), action) + (if actions.last() == action {
            1nat
        } else {
            0
        })
    }
}

/// How many nested archives are converted at a time: one where there is only one.
pub open spec fn run_workers(
    nested: nat,
    nested_concurrency: usize,
    threads: Option<u32>,
    cpus: Option<usize>,
) -> int {
    if nested <= 1 {
        1
    } else {
        size_parse::nested_workers(nested_concurrency, threads, cpus)
    }
}

/// Whether all needed members are to be extracted at once: where that was asked for and there is
/// more than one, or where several archives are converted at a time.
pub open spec fn wants_bulk(
    solid_single_pass: bool,
    needed: nat,
    workers: int,
    nested: nat,
) -> bool {
    (solid_single_pass && needed > 1) || (workers > 1 && nested > 1)
}

/// How many threads compress a nested archive: one where there is only one archive.
pub fn nested_threads(nested: usize, threads: Option<u32>) -> (r: Option<u32>)
    ensures
        r == (if nested <= 1 {
            Some(1u32)
        } else {
            threads
        }),
{
    if nested <= 1 {
        Some(1)
    } else {
        threads
    }
}

/// The name under which the output is built before it is moved to its place.
pub fn building_name(format: OuterFormat) -> (r: String)
    ensures
        r@ == (if format is Dir {
            "final-out-dir"@
        } else {
            "final-out."@ + format.name()
        }),
{
    if format.is_directory() {
        copy_str("final-out-dir")
    } else {
        concat2("final-out.", format.extension())
    }
}

// ---------------------------------------------------------------------------------------------
// Steps
// ---------------------------------------------------------------------------------------------
/// Which step is being carried out.
#[derive(Debug, Clone, Copy, PartialEq, Eq, Structural)]
pub enum RunPhase {
    /// Nothing has been done yet.
    Ready,
    Solidity,
    BulkExtract,
    CreateOuter,
    /// The member with this number is copied.
    Passthrough(usize),
    Nested,
    Members,
    FinishOuter,
    Files,
    Persist,
    /// The run is over.
    Ended,
}

/// How a step came out.
#[derive(Debug)]
pub enum RunEvent {
    /// The run begins.
    Begin,
    /// Whether the input is solid, where that could be found out.
    Solid(Option<bool>),
    /// The step was carried out.
    Done,
    /// The step failed.
    Failed(Error),
    /// The nested archives have been worked on.
    Nested(NestedRunStats),
    /// So many members are in the output.
    Members(usize),
    /// So many files were found in the finished output.
    Files(usize),
}

/// What is to be done.
#[derive(Debug)]
pub enum RunAction {
    /// Find out whether the input is solid.
    AskSolid,
    /// Extract all needed members at once.
    BulkExtract,
    /// Create the output.
    CreateOuter,
    /// Copy the member with this number.
    Passthrough(usize),
    /// Convert the nested archives.
    ConvertNested,
    /// Count the members of the output.
    CountMembers,
    /// Complete the output.
    FinishOuter,
    /// Count the files in the finished output.
    CountFiles,
    /// Move the output to its place.
    Persist,
    /// The run is over and succeeded.
    Succeed(RuntimeStats),
    /// The run is over and failed.
    Fail(Error),
}

/// The contents of a [`RunAction`].
#[verifier::ext_equal]
pub enum RunActionView {
    AskSolid,
    BulkExtract,
    CreateOuter,
    Passthrough(usize),
    ConvertNested,
    CountMembers,
    FinishOuter,
    CountFiles,
    Persist,
    Succeed(RuntimeStats),
    Fail(ErrorView),
}

impl View for RunAction {
    type V = RunActionView;

    open spec fn view(&self) -> RunActionView {
        match *self {
            RunAction::AskSolid => RunActionView::AskSolid,
            RunAction::BulkExtract => RunActionView::BulkExtract,
            RunAction::CreateOuter => RunActionView::CreateOuter,
            RunAction::Passthrough(i) => RunActionView::Passthrough(i),
            RunAction::ConvertNested => RunActionView::ConvertNested,
            RunAction::CountMembers => RunActionView::CountMembers,
            RunAction::FinishOuter => RunActionView::FinishOuter,
            RunAction::CountFiles => RunActionView::CountFiles,
            RunAction::Persist => RunActionView::Persist,
            RunAction::Succeed(s) => RunActionView::Succeed(s),
            RunAction::Fail(e) => RunActionView::Fail(e@),
        }
    }
}

/// The state of a run.
#[derive(Debug)]
pub struct Execution {
    pub actions: Vec<ActionKind>,
    /// How many nested archives are converted at a time.
    pub workers: usize,
    /// Whether all needed members are to be extracted at once, if that pays off.
    pub want_bulk: bool,
    /// Whether the finished output is checked.
    pub verify: bool,
    pub phase: RunPhase,
    /// Whether the needed members have been extracted at once.
    pub bulk: bool,
    pub stats: RuntimeStats,
}

/// The contents of an [`Execution`].
#[verifier::ext_equal]
pub struct RunView {
    pub actions: Seq<ActionKind>,
    pub workers: usize,
    pub want_bulk: bool,
    pub verify: bool,
    pub phase: RunPhase,
    pub bulk: bool,
    pub stats: RuntimeStats,
}

impl View for Execution {
    type V = RunView;

    open spec fn view(&self) -> RunView {
        RunView {
            actions: self.actions@,
            workers: self.workers,
            want_bulk: self.want_bulk,
            verify: self.verify,
            phase: self.phase,
            bulk: self.bulk,
            stats: self.stats,
        }
    }
}

/// The number of the first member from `from` on that is copied.
pub open spec fn next_passthrough(actions: Seq<ActionKind>, from: int) -> Option<int>
    decreases actions.len() - from,
{
    if from < 0 || from >= actions.len() {
        None
    } else if actions[from] is Passthrough {
        Some(from)
    } else {
        next_passthrough(actions, from + 1)
    }
}

impl RunView {
    /// How many nested archives there are.
    pub open spec fn nested(self) -> nat {
        count(self.actions, ActionKind::ConvertNested)
    }

    /// How many files the output must hold.
    pub open spec fn expected(self) -> int {
        self.stats.passthrough_written + self.stats.nested_converted
    }

    /// This run in another phase.
    pub open spec fn at(self, phase: RunPhase) -> RunView {
        RunView { phase, ..self }
    }

    /// The run goes on with the first member from `from` on that is copied, then with the nested
    /// archives, then with the count of what was written.
    pub open spec fn copying(self, from: int) -> (RunView, RunActionView) {
        match next_passthrough(self.actions, from) {
            Some(i) => (
                self.at(RunPhase::Passthrough(i as usize)),
                RunActionView::Passthrough(i as usize),
            ),
            None => if self.nested() > 0 {
                (self.at(RunPhase::Nested), RunActionView::ConvertNested)
            } else {
                (self.at(RunPhase::Members), RunActionView::CountMembers)
            },
        }
    }

    /// The run has failed.
    pub open spec fn failing(self, e: ErrorView) -> (RunView, RunActionView) {
        (self.at(RunPhase::Ended), RunActionView::Fail(e))
    }

    /// The outcome is one that the current step can have.
    pub open spec fn accepts(self, event: RunEvent) -> bool {
        match self.phase {
            RunPhase::Ready => event is Begin,
            RunPhase::Solidity => event is Solid,
            RunPhase::Nested => event is Failed || (event is Nested && event->Nested_0.converted
                + event->Nested_0.skipped == self.nested()),
            RunPhase::Members => event is Failed || event is Members,
            RunPhase::Files => event is Failed || event is Files,
            RunPhase::Ended => false,
            _ => event is Failed || event is Done,
        }
    }

    /// The run after the current step came out as `event`, and what is to be done then.
    pub open spec fn after(self, event: RunEvent) -> (RunView, RunActionView) {
        let written = RuntimeStats {
            passthrough_written: (self.stats.passthrough_written + 1) as usize,
            ..self.stats
        };
        let left_out = RuntimeStats {
            passthrough_skipped: (self.stats.passthrough_skipped + 1) as usize,
            ..self.stats
        };
        match (self.phase, event) {
            (RunPhase::Ready, _) => (self.at(RunPhase::Solidity), RunActionView::AskSolid),
            (RunPhase::Solidity, RunEvent::Solid(solid)) => if self.want_bulk && (solid == Some(
                true,
            ) || self.workers > 1) {
                (
                    RunView { bulk: true, phase: RunPhase::BulkExtract, ..self },
                    RunActionView::BulkExtract,
                )
            } else {
                (self.at(RunPhase::CreateOuter), RunActionView::CreateOuter)
            },
            (RunPhase::BulkExtract, RunEvent::Done) => (
                self.at(RunPhase::CreateOuter),
                RunActionView::CreateOuter,
            ),
            (RunPhase::BulkExtract, _) => (
                RunView { bulk: false, phase: RunPhase::CreateOuter, ..self },
                RunActionView::CreateOuter,
            ),
            (RunPhase::CreateOuter, RunEvent::Done) => self.copying(0),
            (RunPhase::Passthrough(i), RunEvent::Done) => (RunView {
                stats: written,
                ..self
            }).copying(i + 1),
            (RunPhase::Passthrough(i), _) => (RunView { stats: left_out, ..self }).copying(i + 1),
            (RunPhase::Nested, RunEvent::Nested(n)) => (
                RunView {
                    stats: RuntimeStats {
                        nested_converted: n.converted,
                        nested_skipped: n.skipped,
                        ..self.stats
                    },
                    phase: RunPhase::Members,
                    ..self
                },
                RunActionView::CountMembers,
            ),
            (RunPhase::Members, RunEvent::Members(n)) => if n == 0 {
                self.failing(
                    ErrorView::Other(
                        "nothing to write: all "@ + text::number_text(self.nested())
                            + " nested archive(s) failed and there are no usable passthrough members"@,
                    ),
                )
            } else {
                (self.at(RunPhase::FinishOuter), RunActionView::FinishOuter)
            },
            (RunPhase::FinishOuter, RunEvent::Done) => if self.verify {
                (self.at(RunPhase::Files), RunActionView::CountFiles)
            } else {
                (self.at(RunPhase::Persist), RunActionView::Persist)
            },
            (RunPhase::Files, RunEvent::Files(n)) => if n != self.expected() {
                self.failing(
                    ErrorView::Other(
                        "verify failed: expected "@ + text::number_text(self.expected() as nat)
                            + " files in output (passthrough + converted nested; "@
                            + text::number_text(self.stats.nested_skipped as nat)
                            + " skipped), found "@ + text::number_text(n as nat),
                    ),
                )
            } else {
                (self.at(RunPhase::Persist), RunActionView::Persist)
            },
            (RunPhase::Persist, RunEvent::Done) => (
                self.at(RunPhase::Ended),
                RunActionView::Succeed(self.stats),
            ),
            (_, RunEvent::Failed(e)) => self.failing(e@),
            _ => (self, RunActionView::AskSolid),
        }
    }

    /// How many members have been copied or given up.
    pub open spec fn copied(self) -> int {
        self.stats.passthrough_written + self.stats.passthrough_skipped
    }

    /// The counters account for every member that has been worked on.
    pub open spec fn valid(self) -> bool {
        let all = count(self.actions, ActionKind::Passthrough);
        let no_nested = self.stats.nested_converted == 0 && self.stats.nested_skipped == 0;
        &&& self.actions.len() <= usize::MAX
        &&& match self.phase {
            RunPhase::Ready | RunPhase::Solidity | RunPhase::BulkExtract | RunPhase::CreateOuter =>
            self.copied() == 0 && no_nested,
            RunPhase::Passthrough(i) => {
                &&& i < self.actions.len()
                &&& self.actions[i as int] is Passthrough
                &&& self.copied() == count(self.actions.take(i as int), ActionKind::Passthrough)
                &&& no_nested
            },
            RunPhase::Nested => self.copied() == all && no_nested,
            RunPhase::Ended => true,
            _ => self.copied() == all && self.stats.nested_converted + self.stats.nested_skipped
                == self.nested(),
        }
    }

    /// How far the run is from its end.
    pub open spec fn remaining(self) -> nat {
        let n = self.actions.len();
        match self.phase {
            RunPhase::Ready => n + 10,
            RunPhase::Solidity => n + 9,
            RunPhase::BulkExtract => n + 8,
            RunPhase::CreateOuter => n + 7,
            RunPhase::Passthrough(i) => (n - i + 6) as nat,
            RunPhase::Nested => 6,
            RunPhase::Members => 5,
            RunPhase::FinishOuter => 4,
            RunPhase::Files => 3,
            RunPhase::Persist => 2,
            RunPhase::Ended => 1,
        }
    }
}

/// The next member that is copied is at or behind `from`; none between them is copied.
proof fn lemma_next_passthrough(actions: Seq<ActionKind>, from: int)
    requires
        0 <= from <= actions.len(),
    ensures
        match next_passthrough(actions, from) {
            Some(i) => from <= i < actions.len() && actions[i] is Passthrough && count(
                actions.take(i),
                ActionKind::Passthrough,
            ) == count(actions.take(from), ActionKind::Passthrough),
            None => count(actions, ActionKind::Passthrough) == count(
                actions.take(from),
                ActionKind::Passthrough,
            ),
        },
    decreases actions.len() - from,
{
    if from == actions.len() {
        assert(actions.take(from) =~= actions);
    } else if !(actions[from] is Passthrough) {
        assert(actions.take(from + 1).drop_last() =~= actions.take(from));
        lemma_next_passthrough(actions, from + 1);
    }
}

/// No more members have an action than there are members, and together they are no more either.
proof fn lemma_count_bound(actions: Seq<ActionKind>)
    ensures
        count(actions, ActionKind::Passthrough) + count(actions, ActionKind::ConvertNested)
            <= actions.len(),
    decreases actions.len(),
{
    if actions.len() > 0 {
        lemma_count_bound(actions.drop_last());
    }
}

/// The actions of a plan are counted as the plan counts its entries.
proof fn lemma_count(entries: Seq<PlannedView>, action: ActionKind)
    ensures
        count(actions_of(entries), action) == plan::count_action(entries, action),
    decreases entries.len(),
{
    if entries.len() > 0 {
        assert(actions_of(entries).drop_last() =~= actions_of(entries.drop_last()));
        lemma_count(entries.drop_last(), action);
    }
}

/// What is copied next, and what the counters say then.
proof fn lemma_copying(s: RunView, from: int)
    requires
        0 <= from <= s.actions.len() <= usize::MAX,
        s.copied() == count(s.actions.take(from), ActionKind::Passthrough),
        s.stats.nested_converted == 0,
        s.stats.nested_skipped == 0,
    ensures
        s.copying(from).0.valid(),
        s.copying(from).0.actions == s.actions,
        s.copying(from).0.remaining() <= s.actions.len() - from + 6,
{
    lemma_next_passthrough(s.actions, from);
}

impl Execution {
    /// The run for a plan.
    pub fn new(
        plan: &ConversionPlan,
        nested_concurrency: usize,
        threads: Option<u32>,
        cpus: Option<usize>,
        solid_single_pass: bool,
        verify: bool,
    ) -> (r: Self)
        ensures
            r@.valid(),
            r@.actions == actions_of(plan::plan_views(plan.entries@)),
            r@.workers == run_workers(r@.nested(), nested_concurrency, threads, cpus),
            r@.want_bulk == wants_bulk(
                solid_single_pass,
                plan::kept_sources(plan::plan_views(plan.entries@)).len(),
                r@.workers as int,
                r@.nested(),
            ),
            r@.verify == verify,
            r@.phase is Ready,
            !r@.bulk,
    {
        let ghost views = plan::plan_views(plan.entries@);
        let mut actions: Vec<ActionKind> = Vec::new();
        let mut i: usize = 0;
        assert(actions@ =~= actions_of(views).take(0));
        while i < plan.entries.len()
            invariant
                i <= plan.entries.len(),
                views == plan::plan_views(plan.entries@),
                actions@ == actions_of(views).take(i as int),
            decreases plan.entries.len() - i,
        {
            actions.push(plan.entries[i].action);
            i += 1;
            assert(actions@ =~= actions_of(views).take(i as int));
        }
        assert(actions@ =~= actions_of(views));
        proof {
            lemma_count(views, ActionKind::ConvertNested);
        }
        let nested: usize = plan.nested_count();
        let needed: usize = plan.needed_members().len();
        let workers: usize = if nested <= 1 {
            1
        } else {
            resolve_nested_workers(nested_concurrency, threads, cpus)
        };
        Execution {
            actions,
            workers,
            want_bulk: (solid_single_pass && needed > 1) || (workers > 1 && nested > 1),
            verify,
            phase: RunPhase::Ready,
            bulk: false,
            stats: RuntimeStats::default(),
        }
    }

    /// Whether the outcome is one that the current step can have.
    pub fn accepts(&self, event: &RunEvent) -> (r: bool)
        ensures
            r == self@.accepts(*event),
    {
        match self.phase {
            RunPhase::Ready => matches!(event, RunEvent::Begin),
            RunPhase::Solidity => matches!(event, RunEvent::Solid(_)),
            RunPhase::Nested => match event {
                RunEvent::Failed(_) => true,
                RunEvent::Nested(n) => match n.converted.checked_add(n.skipped) {
                    Some(all) => all == self.nested_count(),
                    None => {
                        let ghost members: nat = self.actions.len() as nat;
                        proof {
                            lemma_count_bound(self.actions@);
                            assert(self@.nested() <= members <= usize::MAX);
                        }
                        false
                    },
                },
                _ => false,
            },
            RunPhase::Members => matches!(event, RunEvent::Failed(_) | RunEvent::Members(_)),
            RunPhase::Files => matches!(event, RunEvent::Failed(_) | RunEvent::Files(_)),
            RunPhase::Ended => false,
            _ => matches!(event, RunEvent::Failed(_) | RunEvent::Done),
        }
    }

    /// How many nested archives there are.
    pub fn nested_count(&self) -> (r: usize)
        ensures
            r == self@.nested(),
    {
        let mut n: usize = 0;
        let mut i: usize = 0;
        assert(self.actions@.take(0) =~= Seq::<ActionKind>::empty());
        while i < self.actions.len()
            invariant
                n <= i <= self.actions.len(),
                n == count(self.actions@.take(i as int), ActionKind::ConvertNested),
            decreases self.actions.len() - i,
        {
            assert(self.actions@.take(i + 1).drop_last() =~= self.actions@.take(i as int));
            if self.actions[i] == ActionKind::ConvertNested {
                n += 1;
            }
            i += 1;
        }
        assert(self.actions@.take(i as int) =~= self.actions@);
        n
    }

    /// Goes on with the first member from `from` on that is copied.
    fn copy_from(&mut self, from: usize) -> (r: RunAction)
        requires
            from <= old(self).actions.len(),
        ensures
            (final(self)@, r@) == old(self)@.copying(from as int),
    {
        let mut i: usize = from;
        while i < self.actions.len()
            invariant
                *self == *old(self),
                from <= i <= self.actions.len(),
                next_passthrough(self.actions@, from as int) == next_passthrough(
                    self.actions@,
                    i as int,
                ),
            decreases self.actions.len() - i,
        {
            if self.actions[i] == ActionKind::Passthrough {
                self.phase = RunPhase::Passthrough(i);
                return RunAction::Passthrough(i);
            }
            i += 1;
        }
        if self.nested_count() > 0 {
            self.phase = RunPhase::Nested;
            RunAction::ConvertNested
        } else {
            self.phase = RunPhase::Members;
            RunAction::CountMembers
        }
    }

    /// Takes note of how the current step came out and says what is to be done next.
    pub fn step(&mut self, event: RunEvent) -> (r: RunAction)
        requires
            old(self)@.valid(),
            old(self)@.accepts(event),
        ensures
            (final(self)@, r@) == old(self)@.after(event),
            final(self)@.valid(),
            final(self)@.remaining() < old(self)@.remaining(),
    {
        proof {
            law_steps_keep_count(self@, event);
        }
        match self.phase {
            RunPhase::Ready => {
                self.phase = RunPhase::Solidity;
                RunAction::AskSolid
            },
            RunPhase::Solidity => {
                let solid = match event {
                    RunEvent::Solid(Some(yes)) => yes,
                    _ => false,
                };
                if self.want_bulk && (solid || self.workers > 1) {
                    self.bulk = true;
                    self.phase = RunPhase::BulkExtract;
                    RunAction::BulkExtract
                } else {
                    self.phase = RunPhase::CreateOuter;
                    RunAction::CreateOuter
                }
            },
            RunPhase::BulkExtract => {
                if let RunEvent::Failed(_) = event {
                    self.bulk = false;
                }
                self.phase = RunPhase::CreateOuter;
                RunAction::CreateOuter
            },
            RunPhase::CreateOuter => match event {
                RunEvent::Failed(e) => self.fail(e),
                _ => self.copy_from(0),
            },
            RunPhase::Passthrough(i) => {
                proof {
                    lemma_next_passthrough(self.actions@, i as int + 1);
                    assert(self.actions@.take(i + 1).drop_last() =~= self.actions@.take(i as int));
                    lemma_count_bound(self.actions@.take(i + 1));
                }
                if let RunEvent::Failed(_) = event {
                    self.stats.passthrough_skipped = self.stats.passthrough_skipped + 1;
                } else {
                    self.stats.passthrough_written = self.stats.passthrough_written + 1;
                }
                self.copy_from(i + 1)
            },
            RunPhase::Nested => match event {
                RunEvent::Nested(n) => {
                    self.stats.nested_converted = n.converted;
                    self.stats.nested_skipped = n.skipped;
                    self.phase = RunPhase::Members;
                    RunAction::CountMembers
                },
                RunEvent::Failed(e) => self.fail(e),
                _ => RunAction::CountMembers,
            },
            RunPhase::Members => match event {
                RunEvent::Members(n) => if n == 0 {
                    let nested = show_usize(self.nested_count());
                    let message = concat3(
                        "nothing to write: all ",
                        nested.as_str(),
                        " nested archive(s) failed and there are no usable passthrough members",
                    );
                    self.fail(Error::Other(message))
                } else {
                    self.phase = RunPhase::FinishOuter;
                    RunAction::FinishOuter
                },
                RunEvent::Failed(e) => self.fail(e),
                _ => RunAction::CountMembers,
            },
            RunPhase::FinishOuter => match event {
                RunEvent::Failed(e) => self.fail(e),
                _ => if self.verify {
                    self.phase = RunPhase::Files;
                    RunAction::CountFiles
                } else {
                    self.phase = RunPhase::Persist;
                    RunAction::Persist
                },
            },
            RunPhase::Files => match event {
                RunEvent::Files(n) => {
                    proof {
                        lemma_count_bound(self.actions@);
                    }
                    let expected: usize = self.stats.passthrough_written
                        + self.stats.nested_converted;
                    if n != expected {
                        let message = self.mismatch(expected, n);
                        self.fail(Error::Other(message))
                    } else {
                        self.phase = RunPhase::Persist;
                        RunAction::Persist
                    }
                },
                RunEvent::Failed(e) => self.fail(e),
                _ => RunAction::CountFiles,
            },
            RunPhase::Persist => match event {
                RunEvent::Failed(e) => self.fail(e),
                _ => {
                    self.phase = RunPhase::Ended;
                    RunAction::Succeed(self.stats)
                },
            },
            RunPhase::Ended => RunAction::Succeed(self.stats),
        }
    }

    fn fail(&mut self, e: Error) -> (r: RunAction)
        ensures
            (final(self)@, r@) == old(self)@.failing(e@),
    {
        self.phase = RunPhase::Ended;
        RunAction::Fail(e)
    }

    fn mismatch(&self, expected: usize, found: usize) -> (r: String)
        ensures
            r@ == "verify failed: expected "@ + text::number_text(expected as nat)
                + " files in output (passthrough + converted nested; "@ + text::number_text(
                self.stats.nested_skipped as nat,
            ) + " skipped), found "@ + text::number_text(found as nat),
    {
        let mut s = concat3(
            "verify failed: expected ",
            show_usize(expected).as_str(),
            " files in output (passthrough + converted nested; ",
        );
        s.append(show_usize(self.stats.nested_skipped).as_str());
        s.append(" skipped), found ");
        s.append(show_usize(found).as_str());
        s
    }
}

// ---------------------------------------------------------------------------------------------
// Laws
// ---------------------------------------------------------------------------------------------
/// Law: whatever a step comes to, the counters go on accounting for every member, and the run
/// comes nearer to its end.
pub proof fn law_steps_keep_count(s: RunView, event: RunEvent)
    requires
        s.valid(),
        s.accepts(event),
    ensures
        s.after(event).0.valid(),
        s.after(event).0.actions == s.actions,
        s.after(event).0.remaining() < s.remaining(),
{
    lemma_count_bound(s.actions);
    if s.phase is CreateOuter && event is Done {
        assert(s.actions.take(0) =~= Seq::<ActionKind>::empty());
        lemma_copying(s, 0);
    }
    if s.phase is Passthrough {
        let i = s.phase->Passthrough_0 as int;
        assert(s.actions.take(i + 1).drop_last() =~= s.actions.take(i));
        lemma_count_bound(s.actions.take(i + 1));
        let written = RuntimeStats {
            passthrough_written: (s.stats.passthrough_written + 1) as usize,
            ..s.stats
        };
        let left_out = RuntimeStats {
            passthrough_skipped: (s.stats.passthrough_skipped + 1) as usize,
            ..s.stats
        };
        lemma_copying(RunView { stats: written, ..s }, i + 1);
        lemma_copying(RunView { stats: left_out, ..s }, i + 1);
    }
}

/// Law: when a run succeeds, every member that was to be copied was written or left out, and
/// every nested archive was converted or left out.
pub proof fn law_success_accounts_for_all(s: RunView, event: RunEvent)
    requires
        s.valid(),
        s.accepts(event),
        s.after(event).1 is Succeed,
    ensures
        ({
            let stats = s.after(event).1->Succeed_0;
            &&& stats.passthrough_written + stats.passthrough_skipped == count(
                s.actions,
                ActionKind::Passthrough,
            )
            &&& stats.nested_converted + stats.nested_skipped == count(
                s.actions,
                ActionKind::ConvertNested,
            )
        }),
{
}

/// Law: a member that cannot be copied does not end the run, and neither does a failed extraction
/// of all members at once.
pub proof fn law_members_fail_softly(s: RunView, event: RunEvent)
    requires
        s.accepts(event),
        s.phase is Passthrough || s.phase is BulkExtract,
    ensures
        s.after(event).1 !is Fail,
        s.phase is BulkExtract && event is Failed ==> !s.after(event).0.bulk,
{
}

/// Law: an output is completed only if it has members, and it moves to its place only if it was
/// completed and, where it is checked, holds as many files as were written.
pub proof fn law_only_good_output_is_kept(s: RunView, event: RunEvent)
    requires
        s.accepts(event),
    ensures
        s.after(event).1 is FinishOuter ==> event is Members && event->Members_0 > 0,
        s.after(event).1 is Persist ==> s.phase is FinishOuter || s.phase is Files,
        s.after(event).1 is Persist && s.verify ==> event is Files && event->Files_0
            == s.expected(),
{
}

/// An outcome that need not end a run: a member that cannot be copied, members that cannot be
/// extracted at once, an output that has members, and as many files as were written.
pub open spec fn harmless(s: RunView, event: RunEvent) -> bool {
    match event {
        RunEvent::Failed(_) => s.phase is Passthrough || s.phase is BulkExtract,
        RunEvent::Members(n) => n > 0,
        RunEvent::Files(n) => n == s.expected(),
        _ => true,
    }
}

/// Law: a run fails only because a step failed that all members need, because nothing was
/// written, or because the output does not hold what was written.
pub proof fn law_fails_only_for_a_reason(s: RunView, event: RunEvent)
    requires
        s.accepts(event),
    ensures
        s.after(event).1 is Fail <==> !harmless(s, event),
{
}

/// The state and the action that several outcomes lead to, one after the other.
pub open spec fn played(s: RunView, events: Seq<RunEvent>) -> (RunView, RunActionView)
    decreases events.len(),
{
    if events.len() == 0 {
        (s, RunActionView::AskSolid)
    } else {
        played(s, events.drop_last()).0.after(events.last())
    }
}

/// Each outcome is one that its step can have, and one that need not end the run.
pub open spec fn plays_well(s: RunView, events: Seq<RunEvent>) -> bool {
    forall|i: int|
        0 <= i < events.len() ==> played(s, events.take(i)).0.accepts(#[trigger] events[i])
            && harmless(played(s, events.take(i)).0, events[i])
}

/// Law: a run in which only members fail, and some member does not, never fails; once it is over
/// it has succeeded, and every member is accounted for.
pub proof fn law_bad_members_do_not_fail_a_run(s: RunView, events: Seq<RunEvent>)
    requires
        s.valid(),
        s.phase is Ready,
        plays_well(s, events),
    ensures
        ({
            let (end, action) = played(s, events);
            &&& action !is Fail
            &&& end.valid()
            &&& end.phase is Ended ==> {
                &&& action is Succeed
                &&& action->Succeed_0.passthrough_written + action->Succeed_0.passthrough_skipped
                    == count(s.actions, ActionKind::Passthrough)
                &&& action->Succeed_0.nested_converted + action->Succeed_0.nested_skipped == count(
                    s.actions,
                    ActionKind::ConvertNested,
                )
            }
        }),
        played(s, events).0.actions == s.actions,
    decreases events.len(),
{
    if events.len() > 0 {
        let before = events.drop_last();
        let n = events.len() - 1;
        assert forall|i: int| 0 <= i < before.len() implies played(s, before.take(i)).0.accepts(
            #[trigger] before[i],
        ) && harmless(played(s, before.take(i)).0, before[i]) by {
            assert(before[i] == events[i]);
            assert(before.take(i) =~= events.take(i));
        }
        law_bad_members_do_not_fail_a_run(s, before);
        assert(events.take(n) =~= before);
        let now = played(s, before).0;
        let event = events[n];
        assert(now.accepts(event) && harmless(now, event));
        law_fails_only_for_a_reason(now, event);
        law_steps_keep_count(now, event);
        if now.after(event).1 is Succeed {
            law_success_accounts_for_all(now, event);
        }
    }
}

/// Law: an output without members ends the run with an error.
pub proof fn law_empty_output_is_refused(s: RunView)
    requires
        s.phase is Members,
    ensures
        s.after(RunEvent::Members(0)).1 is Fail,
{
}

} // verus!
