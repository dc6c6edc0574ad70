//! How runs go on, and where their files are, told from what happened.

use crate::archive::types::EntryView;
use crate::error::ErrorView;
use crate::pipeline::context::PipelineOptions;
use crate::pipeline::execute;
use crate::pipeline::execute::{RunActionView, RunEvent, RunPhase, RunView};
use crate::pipeline::plan;
use crate::pipeline::plan::{ActionKind, PlannedView};
use crate::pipeline::staging;
use crate::pipeline::staging::{ExtractedAt, ExtractedFile};
use crate::util::pathnorm;
use crate::util::text;
use vstd::prelude::*;

verus! {

// ---------------------------------------------------------------------------------------------
// The steps of a run
// ---------------------------------------------------------------------------------------------
/// Law: the counters of a run say what happened: a member that was copied counts as written, one
/// that could not be copied as left out, nested archives as they came out; and no other step changes
/// them.
pub proof fn law_counters_say_what_happened(s: RunView, event: RunEvent)
    requires
        s.valid(),
        s.accepts(event),
        s.stats.passthrough_written < usize::MAX,
        s.stats.passthrough_skipped < usize::MAX,
    ensures
        ({
            let a = s.stats;
            let b = s.after(event).0.stats;
            let copying = s.phase is Passthrough;
            let nesting = s.phase is Nested && event is Nested;
            &&& b.passthrough_written == a.passthrough_written + (if copying && event is Done {
                1int
            } else {
                0
            })
            &&& b.passthrough_skipped == a.passthrough_skipped + (if copying && event is Failed {
                1int
            } else {
                0
            })
            &&& nesting ==> b.nested_converted == event->Nested_0.converted && b.nested_skipped
                == event->Nested_0.skipped
            &&& !nesting ==> b.nested_converted == a.nested_converted && b.nested_skipped
                == a.nested_skipped
            &&& s.after(event).1 is Succeed ==> s.after(event).1->Succeed_0 == a
        }),
{
}

proof fn lemma_next(actions: Seq<ActionKind>, from: int, k: int)
    requires
        0 <= from <= k <= actions.len(),
        forall|i: int| from <= i < k ==> (#[trigger] actions[i]) !is Passthrough,
        k == actions.len() || actions[k] is Passthrough,
    ensures
        execute::next_passthrough(actions, from) == if k == actions.len() {
            None::<int>
        } else {
            Some(k)
        },
    decreases k - from,
{
    if from < k {
        assert(actions[from] !is Passthrough);
        lemma_next(actions, from + 1, k);
    }
}

/// Law: members are copied one after the other, in the order of the plan, and none of them is passed
/// over: once the output is there the first one, and after each the next. After the last one the
/// nested archives are converted, if there are any, and then the members are counted.
pub proof fn law_members_are_copied_in_turn(s: RunView, event: RunEvent, k: int)
    requires
        s.valid(),
        s.accepts(event),
        s.phase is CreateOuter && event is Done || s.phase is Passthrough,
        ({
            let from = if s.phase is Passthrough {
                s.phase->Passthrough_0 + 1
            } else {
                0
            };
            &&& from <= k <= s.actions.len()
            &&& forall|i: int| from <= i < k ==> (#[trigger] s.actions[i]) !is Passthrough
            &&& k == s.actions.len() || s.actions[k] is Passthrough
        }),
    ensures
        k < s.actions.len() ==> s.after(event).1 == RunActionView::Passthrough(k as usize)
            && s.after(event).0.phase == RunPhase::Passthrough(k as usize),
        k == s.actions.len() && execute::count(s.actions, ActionKind::ConvertNested) > 0 ==> s.after(
            event,
        ).1 is ConvertNested,
        k == s.actions.len() && execute::count(s.actions, ActionKind::ConvertNested) == 0
            ==> s.after(event).1 is CountMembers,
{
    let from: int = if s.phase is Passthrough {
        s.phase->Passthrough_0 + 1
    } else {
        0
    };
    lemma_next(s.actions, from, k);
}

/// Law: an action is counted once for each member that it is planned for.
pub proof fn law_actions_are_counted(a: Seq<ActionKind>, b: Seq<ActionKind>, x: ActionKind)
    ensures
        execute::count(a + b, x) == execute::count(a, x) + execute::count(b, x),
        execute::count(seq![x], x) == 1,
        forall|y: ActionKind| y != x ==> #[trigger] execute::count(seq![y], x) == 0,
    decreases b.len(),
{
    let none = Seq::<ActionKind>::empty();
    assert(execute::count(none, x) == 0);
    assert(seq![x].drop_last() =~= none);
    assert(seq![x].last() == x);
    assert forall|y: ActionKind| y != x implies #[trigger] execute::count(seq![y], x) == 0 by {
        assert(seq![y].drop_last() =~= none);
        assert(seq![y].last() == y);
    }
    if b.len() == 0 {
        assert(a + b =~= a);
    } else {
        assert((a + b).drop_last() =~= a + b.drop_last());
        assert((a + b).last() == b.last());
        law_actions_are_counted(a, b.drop_last(), x);
    }
}

/// Law: a run first asks whether the input is solid; the members are extracted at once exactly if
/// that is wanted and either the input is solid or several archives are converted at a time; and
/// then the output is made, whether the extraction came out well or not.
pub proof fn law_extraction_at_once(s: RunView, solid: Option<bool>, event: RunEvent)
    ensures
        s.phase is Ready ==> s.after(event).1 is AskSolid,
        s.phase is Solidity ==> {
            let r = s.after(RunEvent::Solid(solid));
            &&& r.1 is BulkExtract <==> s.want_bulk && (solid == Some(true) || s.workers > 1)
            &&& r.1 is BulkExtract || r.1 is CreateOuter
            &&& r.1 is BulkExtract ==> r.0.bulk
            &&& r.1 is CreateOuter ==> r.0.bulk == s.bulk
        },
        s.phase is BulkExtract && s.accepts(event) ==> s.after(event).1 is CreateOuter,
        s.phase is BulkExtract && event is Done ==> s.after(event).0.bulk == s.bulk,
        s.phase is BulkExtract && event is Failed ==> !s.after(event).0.bulk,
{
}

/// Law: once members were counted and there are any, the output is completed; then it is checked if
/// that is asked for; then it moves to its place; and then the run has succeeded.
pub proof fn law_output_is_completed(s: RunView, event: RunEvent)
    requires
        s.accepts(event),
    ensures
        s.phase is Members && event is Members && event->Members_0 > 0 ==> s.after(event).1
            is FinishOuter,
        s.phase is FinishOuter && event is Done && s.verify ==> s.after(event).1 is CountFiles,
        s.phase is FinishOuter && event is Done && !s.verify ==> s.after(event).1 is Persist,
        s.phase is Files && event is Files && event->Files_0 == s.stats.passthrough_written
            + s.stats.nested_converted ==> s.after(event).1 is Persist,
        s.phase is Files && event is Files && event->Files_0 != s.stats.passthrough_written
            + s.stats.nested_converted ==> s.after(event).1 is Fail,
        s.phase is Persist && event is Done ==> s.after(event).1 is Succeed,
        s.phase is Nested && event is Nested ==> s.after(event).1 is CountMembers,
        event is Failed && !(s.phase is Passthrough) && !(s.phase is BulkExtract) ==> s.after(
            event,
        ).1 == RunActionView::Fail(event->Failed_0@),
{
}

/// Law: one nested archive, and none, is worked on by one worker; and the members are wanted at once
/// where several of them are needed and one pass over the input is asked for, or where several
/// archives are converted at a time.
pub proof fn law_workers_of_a_run(
    nested: nat,
    asked: usize,
    threads: Option<u32>,
    cpus: Option<usize>,
    single_pass: bool,
    needed: nat,
    workers: int,
)
    requires
        asked > 0,
    ensures
        nested <= 1 ==> execute::run_workers(nested, asked, threads, cpus) == 1,
        nested > 1 ==> execute::run_workers(nested, asked, threads, cpus) == asked,
        single_pass && needed > 1 ==> execute::wants_bulk(single_pass, needed, workers, nested),
        workers > 1 && nested > 1 ==> execute::wants_bulk(single_pass, needed, workers, nested),
        !(single_pass && needed > 1) && workers <= 1 ==> !execute::wants_bulk(
            single_pass,
            needed,
            workers,
            nested,
        ),
        !(single_pass && needed > 1) && nested <= 1 ==> !execute::wants_bulk(
            single_pass,
            needed,
            workers,
            nested,
        ),
{
}

// ---------------------------------------------------------------------------------------------
// Plans
// ---------------------------------------------------------------------------------------------
/// Law: the members that have to be extracted are those of the plan that are not left out, by their
/// paths in the input and in the order of the plan.
pub proof fn law_needed_members(a: Seq<PlannedView>, b: Seq<PlannedView>, e: PlannedView)
    ensures
        plan::kept_sources(a + b) == plan::kept_sources(a) + plan::kept_sources(b),
        e.action == ActionKind::Skip ==> plan::kept_sources(seq![e]) == Seq::<Seq<char>>::empty(),
        e.action != ActionKind::Skip ==> plan::kept_sources(seq![e]) == seq![e.source_path],
    decreases b.len(),
{
    let none = Seq::<PlannedView>::empty();
    assert(seq![e].drop_last() =~= none);
    assert(seq![e].last() == e);
    assert(plan::kept_sources(none) =~= Seq::<Seq<char>>::empty());
    assert(plan::kept_sources(none).push(e.source_path) =~= seq![e.source_path]);
    if b.len() == 0 {
        assert(a + b =~= a);
        assert(plan::kept_sources(a) + plan::kept_sources(b) =~= plan::kept_sources(a));
    } else {
        assert((a + b).drop_last() =~= a + b.drop_last());
        assert((a + b).last() == b.last());
        law_needed_members(a, b.drop_last(), e);
        assert(plan::kept_sources(a + b) =~= plan::kept_sources(a) + plan::kept_sources(b));
    }
}

// ---------------------------------------------------------------------------------------------
// Staged files
// ---------------------------------------------------------------------------------------------
/// Law: the name under which a member is staged has no slash, is the path itself where that has
/// none, and has two underscores for each slash.
pub proof fn law_flat_names(a: Seq<char>, b: Seq<char>)
    requires
        !a.contains('/'),
    ensures
        staging::flat(a) == a,
        staging::flat(a + seq!['/'] + b) == a + seq!['_', '_'] + staging::flat(b),
        !staging::flat(b).contains('/'),
    decreases a.len() + b.len(),
{
    lemma_flat_plain(a);
    lemma_flat_after(a, b);
    lemma_flat_has_no_slash(b);
}

proof fn lemma_flat_plain(a: Seq<char>)
    requires
        !a.contains('/'),
    ensures
        staging::flat(a) == a,
    decreases a.len(),
{
    if a.len() > 0 {
        let t = a.drop_last();
        assert(a.contains(a[a.len() - 1]));
        assert forall|i: int| 0 <= i < t.len() implies t[i] != '/' by {
            assert(t[i] == a[i]);
            assert(a.contains(a[i]));
        }
        lemma_flat_plain(t);
        assert(t.push(a.last()) =~= a);
    }
}

proof fn lemma_flat_after(a: Seq<char>, b: Seq<char>)
    requires
        !a.contains('/'),
    ensures
        staging::flat(a + seq!['/'] + b) == a + seq!['_', '_'] + staging::flat(b),
    decreases b.len(),
{
    let s = a + seq!['/'] + b;
    lemma_flat_plain(a);
    if b.len() == 0 {
        assert(s.drop_last() =~= a);
        assert(s.last() == '/');
        assert(a + seq!['_', '_'] + staging::flat(b) =~= a + seq!['_', '_']);
    } else {
        assert(s.drop_last() =~= a + seq!['/'] + b.drop_last());
        assert(s.last() == b.last());
        lemma_flat_after(a, b.drop_last());
        let front = a + seq!['_', '_'];
        let f = staging::flat(b.drop_last());
        if b.last() == '/' {
            assert((front + f) + seq!['_', '_'] =~= front + (f + seq!['_', '_']));
        } else {
            assert((front + f).push(b.last()) =~= front + f.push(b.last()));
        }
    }
}

proof fn lemma_flat_has_no_slash(b: Seq<char>)
    ensures
        !staging::flat(b).contains('/'),
    decreases b.len(),
{
    if b.len() > 0 {
        let f = staging::flat(b.drop_last());
        lemma_flat_has_no_slash(b.drop_last());
        let s = staging::flat(b);
        assert forall|i: int| 0 <= i < s.len() implies s[i] != '/' by {
            if i < f.len() {
                assert(s[i] == f[i]);
                assert(f.contains(f[i]));
            }
        }
    }
}

/// Law: no two members are staged under the same name, whatever their paths.
pub proof fn law_staged_names_differ(i: nat, a: Seq<char>, j: nat, b: Seq<char>)
    requires
        i != j,
    ensures
        text::padded(i, 4) + "_"@ + staging::flat(a) != text::padded(j, 4) + "_"@ + staging::flat(b),
{
    reveal_strlit("_");
    text::law_padded_reads_back(i, j, 4);
    text::law_padded_reads_back(j, i, 4);
    let p = text::padded(i, 4);
    let q = text::padded(j, 4);
    let x = p + "_"@ + staging::flat(a);
    let y = q + "_"@ + staging::flat(b);
    if x == y {
        if p.len() < q.len() {
            assert(y[p.len() as int] == q[p.len() as int]);
            assert(text::is_digit(q[p.len() as int]));
            assert(x[p.len() as int] == '_');
        } else if q.len() < p.len() {
            assert(x[q.len() as int] == p[q.len() as int]);
            assert(text::is_digit(p[q.len() as int]));
            assert(y[q.len() as int] == '_');
        } else {
            assert(x.take(p.len() as int) =~= p);
            assert(y.take(q.len() as int) =~= q);
        }
    }
}

proof fn lemma_with_name(files: Seq<ExtractedFile>, base: Seq<char>)
    ensures
        ({
            let hits = staging::with_name(files, base);
            &&& forall|k: int|
                0 <= k < hits.len() ==> 0 <= (#[trigger] hits[k]) < files.len()
                    && staging::has_name(files[hits[k]], base)
            &&& forall|k: int, l: int| 0 <= k < l < hits.len() ==> hits[k] < hits[l]
            &&& forall|i: int|
                0 <= i < files.len() && staging::has_name(#[trigger] files[i], base)
                    ==> hits.contains(i)
        }),
    decreases files.len(),
{
    if files.len() > 0 {
        let t = files.drop_last();
        let before = staging::with_name(t, base);
        let hits = staging::with_name(files, base);
        lemma_with_name(t, base);
        assert forall|k: int| 0 <= k < hits.len() implies 0 <= (#[trigger] hits[k]) < files.len()
            && staging::has_name(files[hits[k]], base) by {
            if k < before.len() {
                assert(hits[k] == before[k]);
                assert(t[before[k]] == files[before[k]]);
            }
        }
        assert forall|i: int|
            0 <= i < files.len() && staging::has_name(#[trigger] files[i], base) implies hits.contains(
            i,
        ) by {
            if i < t.len() {
                assert(t[i] == files[i]);
                assert(before.contains(i));
                let k = choose|k: int| 0 <= k < before.len() && before[k] == i;
                assert(hits[k] == i);
            } else {
                assert(hits[hits.len() - 1] == i);
            }
        }
    }
}

proof fn lemma_no_path(files: Seq<ExtractedFile>, norm: Seq<char>, from: int)
    requires
        0 <= from <= files.len(),
        forall|i: int| from <= i < files.len() ==> !staging::has_path(#[trigger] files[i], norm),
    ensures
        staging::first_with_path(files, norm, from) is None,
    decreases files.len() - from,
{
    if from < files.len() {
        assert(!staging::has_path(files[from], norm));
        lemma_no_path(files, norm, from + 1);
    }
}

/// Law: a member that was extracted is found under its own path; else by a file of the same path;
/// else by the only file of its name. Where no file has its name it was not extracted, and where two
/// have it, it is not known which of them it is.
pub proof fn law_extracted_members_are_found(
    member: Seq<char>,
    files: Seq<ExtractedFile>,
    i: int,
    j: int,
)
    requires
        pathnorm::safe(pathnorm::normalized(member)),
        files.len() <= usize::MAX,
        forall|k: int|
            0 <= k < files.len() ==> !staging::has_path(
                #[trigger] files[k],
                pathnorm::normalized(member),
            ),
    ensures
        ({
            let base = pathnorm::base_name(member);
            let r = staging::extracted_at(member, false, files);
            &&& staging::extracted_at(member, true, files) == Ok::<ExtractedAt, ErrorView>(
                ExtractedAt::Direct,
            )
            &&& (forall|k: int|
                0 <= k < files.len() ==> !staging::has_name(#[trigger] files[k], base)) ==> r
                == Err::<ExtractedAt, ErrorView>(ErrorView::EntryNotFound(member))
            &&& 0 <= i < files.len() && staging::has_name(files[i], base) && (forall|k: int|
                0 <= k < files.len() && k != i ==> !staging::has_name(#[trigger] files[k], base))
                ==> r == Ok::<ExtractedAt, ErrorView>(ExtractedAt::File(i as usize))
            &&& 0 <= i < j < files.len() && staging::has_name(files[i], base) && staging::has_name(
                files[j],
                base,
            ) ==> r is Err
        }),
{
    let norm = pathnorm::normalized(member);
    let base = pathnorm::base_name(member);
    let hits = staging::with_name(files, base);
    lemma_no_path(files, norm, 0);
    lemma_with_name(files, base);
    if forall|k: int| 0 <= k < files.len() ==> !staging::has_name(#[trigger] files[k], base) {
        if hits.len() > 0 {
            assert(staging::has_name(files[hits[0]], base));
        }
    }
    if 0 <= i < files.len() && staging::has_name(files[i], base) {
        assert(hits.contains(i));
        if forall|k: int|
            0 <= k < files.len() && k != i ==> !staging::has_name(#[trigger] files[k], base) {
            assert(hits[0] == i) by {
                assert(staging::has_name(files[hits[0]], base));
            }
            if hits.len() > 1 {
                assert(staging::has_name(files[hits[1]], base));
                assert(hits[0] < hits[1]);
            }
        }
        if i < j < files.len() && staging::has_name(files[j], base) {
            assert(hits.contains(j));
        }
    }
}

/// Law: what a second listing knows of a member goes by its path: the last entry with the same path
/// counts, what that does not know is kept, and nothing but times and attributes changes.
pub proof fn law_second_listing(e: EntryView, listed: Seq<EntryView>, k: int)
    requires
        -1 <= k < listed.len(),
        k >= 0 ==> pathnorm::normalized(listed[k].path) == pathnorm::normalized(e.path),
        forall|i: int|
            k < i < listed.len() ==> pathnorm::normalized((#[trigger] listed[i]).path)
                != pathnorm::normalized(e.path),
    ensures
        ({
            let r = staging::enriched(e, listed);
            &&& r.path == e.path && r.size == e.size && r.is_dir == e.is_dir && r.format_hint
                == e.format_hint
            &&& k < 0 ==> r.meta == e.meta
            &&& k >= 0 ==> {
                let m = listed[k].meta;
                &&& r.meta.mtime == if m.mtime is Some {
                    m.mtime
                } else {
                    e.meta.mtime
                }
                &&& r.meta.ctime == if m.ctime is Some {
                    m.ctime
                } else {
                    e.meta.ctime
                }
                &&& r.meta.atime == if m.atime is Some {
                    m.atime
                } else {
                    e.meta.atime
                }
                &&& r.meta.windows_attributes == if m.windows_attributes is Some {
                    m.windows_attributes
                } else {
                    e.meta.windows_attributes
                }
            }
        }),
{
    lemma_last_with_path(listed, pathnorm::normalized(e.path), listed.len() as int, k);
}

proof fn lemma_last_with_path(listed: Seq<EntryView>, key: Seq<char>, n: int, k: int)
    requires
        -1 <= k < n <= listed.len() || k == -1 && n == 0,
        k >= 0 ==> pathnorm::normalized(listed[k].path) == key,
        forall|i: int| k < i < n ==> pathnorm::normalized((#[trigger] listed[i]).path) != key,
    ensures
        staging::last_with_path(listed, key, n) == if k < 0 {
            None::<int>
        } else {
            Some(k)
        },
    decreases n,
{
    if n > 0 && k < n - 1 {
        assert(pathnorm::normalized(listed[n - 1].path) != key);
        lemma_last_with_path(listed, key, n - 1, k);
    }
}

/// Law: the paths of a listing are those of its files, in normal form, and two listings have the
/// paths of both.
pub proof fn law_listed_paths(a: Seq<EntryView>, b: Seq<EntryView>, e: EntryView)
    ensures
        staging::listed_paths(a + b) == staging::listed_paths(a) + staging::listed_paths(b),
        e.is_dir ==> staging::listed_paths(seq![e]) == Seq::<Seq<char>>::empty(),
        !e.is_dir ==> staging::listed_paths(seq![e]) == seq![pathnorm::normalized(e.path)],
    decreases b.len(),
{
    let none = Seq::<EntryView>::empty();
    assert(seq![e].drop_last() =~= none);
    assert(seq![e].last() == e);
    assert(staging::listed_paths(none) =~= Seq::<Seq<char>>::empty());
    assert(staging::listed_paths(none).push(pathnorm::normalized(e.path)) =~= seq![
        pathnorm::normalized(e.path),
    ]);
    if b.len() == 0 {
        assert(a + b =~= a);
        assert(staging::listed_paths(a) + staging::listed_paths(b) =~= staging::listed_paths(a));
    } else {
        assert((a + b).drop_last() =~= a + b.drop_last());
        assert((a + b).last() == b.last());
        law_listed_paths(a, b.drop_last(), e);
        assert(staging::listed_paths(a + b) =~= staging::listed_paths(a) + staging::listed_paths(b));
    }
}

// ---------------------------------------------------------------------------------------------
// What is shown of a plan
// ---------------------------------------------------------------------------------------------
/// Law: the line of a member tells what happens to it, where it comes from, where it goes if that is
/// somewhere else, its size, and why.
pub proof fn law_line_of_a_member(e: PlannedView)
    ensures
        ({
            let word = match e.action {
                ActionKind::Skip => "SKIP"@,
                ActionKind::Passthrough => "COPY"@,
                ActionKind::ConvertNested => "CONVERT"@,
            };
            let end = " ("@ + text::number_text(e.size as nat) + " bytes) — "@ + e.reason + "\n"@;
            let line = plan::entry_line(e);
            &&& e.source_path == e.dest_path ==> line == "  ["@ + word + "] "@ + e.source_path + end
            &&& e.source_path != e.dest_path ==> line == "  ["@ + word + "] "@ + e.source_path
                + " -> "@ + e.dest_path + end
        }),
{
    let word = match e.action {
        ActionKind::Skip => "SKIP"@,
        ActionKind::Passthrough => "COPY"@,
        ActionKind::ConvertNested => "CONVERT"@,
    };
    let end = " ("@ + text::number_text(e.size as nat) + " bytes) — "@ + e.reason + "\n"@;
    let line = plan::entry_line(e);
    assert(e.source_path == e.dest_path ==> line =~= "  ["@ + word + "] "@ + e.source_path + end);
    assert(e.source_path != e.dest_path ==> line =~= "  ["@ + word + "] "@ + e.source_path + " -> "@
        + e.dest_path + end);
}

/// Law: a plan is shown member by member, in its order, behind the counts of what happens to them.
pub proof fn law_text_of_a_plan(
    input: Seq<char>,
    output: Seq<char>,
    entries: Seq<PlannedView>,
    e: PlannedView,
)
    ensures
        plan::entry_lines(entries.push(e)) == plan::entry_lines(entries) + plan::entry_line(e),
        plan::entry_lines(Seq::empty()).len() == 0,
        text::begins(plan::plan_text(input, output, entries), "Plan: "@ + input + " -> "@ + output),
        text::ends(plan::plan_text(input, output, entries), plan::entry_lines(entries)),
{
    assert(entries.push(e).drop_last() =~= entries);
    let t = plan::plan_text(input, output, entries);
    let head = "Plan: "@ + input + " -> "@ + output;
    let tail = plan::entry_lines(entries);
    assert(t.take(head.len() as int) =~= head);
    assert(t.skip(t.len() - tail.len()) =~= tail);
}

/// Law: an extracted file has the path of a member exactly if both have the same normal form, with
/// slashes or backslashes, and its name exactly if the names are equal.
pub proof fn law_files_of_members(f: ExtractedFile, norm: Seq<char>, base: Seq<char>)
    ensures
        staging::has_path(f, norm) <==> pathnorm::normalized(f.rel@) == norm,
        staging::has_name(f, base) <==> f.name is Some && f.name->0@ == base,
{
    let once = text::swapped(f.rel@, '\\', '/');
    assert(text::swapped(once, '\\', '/') =~= once);
}

/// Law: a plan sees each listed member, in order, with what a second listing knows of it, where there
/// is one.
pub proof fn law_members_of_two_listings(
    entries: Seq<EntryView>,
    second: Seq<EntryView>,
    i: int,
)
    requires
        0 <= i < entries.len(),
    ensures
        PipelineOptions::known_entries(entries, None) == entries,
        PipelineOptions::known_entries(entries, Some(second)).len() == entries.len(),
        PipelineOptions::known_entries(entries, Some(second))[i] == staging::enriched(
            entries[i],
            second,
        ),
{
}

} // verus!
