//! What measurements measure and what their tables show.

use crate::bench::baseline;
use crate::bench::baseline::{BaselineView, ManualBaselineEntry};
use crate::bench::fixtures;
use crate::bench::fixtures::{ScaleName, ScaleView};
use crate::bench::manual;
use crate::bench::manual::StepView;
use crate::bench::report;
use crate::bench::report::{BenchRow, RowTexts};
use crate::bench::schedule;
use crate::bench::schedule::BenchStep;
use crate::bench::tables;
use crate::filter::laws;
use crate::util::text;
use vstd::prelude::*;

verus! {

// ---------------------------------------------------------------------------------------------
// Scales and cells
// ---------------------------------------------------------------------------------------------
/// Law: each scale is larger than the one before it, in files and in size; the smallest has 200
/// files of 1 MiB together and the largest a million files of 300 MiB.
pub proof fn law_scales()
    ensures
        fixtures::scale_of(ScaleName::Tiny).files == 200,
        fixtures::scale_of(ScaleName::Tiny).size_mib == 1,
        fixtures::scale_of(ScaleName::Tiny).nested_counts == seq![1usize, 2],
        fixtures::scale_of(ScaleName::Small).files == 10 * fixtures::scale_of(ScaleName::Tiny).files,
        fixtures::scale_of(ScaleName::Small).size_mib == 4 * fixtures::scale_of(
            ScaleName::Tiny,
        ).size_mib,
        fixtures::scale_of(ScaleName::Small).nested_counts == seq![1usize, 2, 4],
        fixtures::scale_of(ScaleName::Quick).files == 5 * fixtures::scale_of(ScaleName::Small).files,
        fixtures::scale_of(ScaleName::Quick).size_mib == 4 * fixtures::scale_of(
            ScaleName::Small,
        ).size_mib,
        fixtures::scale_of(ScaleName::Quick).nested_counts == seq![1usize, 2, 4],
        fixtures::scale_of(ScaleName::Full).files == 100 * fixtures::scale_of(
            ScaleName::Quick,
        ).files,
        fixtures::scale_of(ScaleName::Full).size_mib == 300,
        fixtures::scale_of(ScaleName::Full).nested_counts == seq![1usize, 2, 4, 10],
{
}

/// Law: what is asked for replaces what a scale has, and the rest stays.
pub proof fn law_overridden_scales(
    s: ScaleView,
    size: u64,
    files: u64,
    counts: Seq<usize>,
    a: Option<u64>,
    b: Option<u64>,
    c: Option<Seq<usize>>,
)
    ensures
        fixtures::overridden(s, None, None, None) == s,
        fixtures::overridden(s, Some(size), b, c).size_mib == size,
        fixtures::overridden(s, None, b, c).size_mib == s.size_mib,
        fixtures::overridden(s, a, Some(files), c).files == files,
        fixtures::overridden(s, a, None, c).files == s.files,
        fixtures::overridden(s, a, b, Some(counts)).nested_counts == counts,
        fixtures::overridden(s, a, b, None).nested_counts == s.nested_counts,
        fixtures::overridden(s, a, b, c).name == s.name,
{
}

/// Law: the files of a scale share its size: together they have no more than that unless each has
/// only 32 bytes, which it has at least, and one byte more for each would be too much.
pub proof fn law_files_share_the_size(files: u64, size_mib: u64)
    requires
        files > 0,
    ensures
        ({
            let each = fixtures::share(files, size_mib);
            &&& each >= 32
            &&& each > 32 ==> each * files <= size_mib * 1_048_576
            &&& size_mib * 1_048_576 < (each + 1) * files
        }),
{
    let whole = size_mib * 1_048_576;
    let n = files as int;
    let q = whole / n;
    vstd::arithmetic::div_mod::lemma_fundamental_div_mod(whole, n);
    assert(q * n <= whole < (q + 1) * n) by (nonlinear_arith)
        requires
            whole == n * q + whole % n,
            0 <= whole % n < n,
    ;
    if q < 32 {
        assert((q + 1) * n <= 33 * n) by (nonlinear_arith)
            requires
                q < 32,
                n > 0,
        ;
    }
}

/// Law: there is one cell for each number of nested archives with each number of threads: the
/// threads change first.
pub proof fn law_cells(counts: Seq<usize>, threads: Seq<u32>, i: int, j: int)
    requires
        0 <= i < counts.len(),
        0 <= j < threads.len(),
    ensures
        fixtures::cells(counts, threads).len() == counts.len() * threads.len(),
        0 <= i * threads.len() + j < counts.len() * threads.len(),
        fixtures::cells(counts, threads)[i * threads.len() + j] == (counts[i], threads[j]),
    decreases counts.len(),
{
    let t = threads.len() as int;
    let d = counts.drop_last();
    lemma_cell_count(counts, threads);
    lemma_cell_count(d, threads);
    let front = fixtures::cells(d, threads);
    let last = Seq::new(threads.len(), |k: int| (counts.last(), threads[k]));
    assert(fixtures::cells(counts, threads) == front + last);
    assert(0 <= i * t + j < counts.len() * t) by (nonlinear_arith)
        requires
            0 <= i < counts.len(),
            0 <= j < t,
    ;
    if i < d.len() {
        law_cells(d, threads, i, j);
        assert(d[i] == counts[i]);
    } else {
        assert(i * t + j == front.len() + j) by (nonlinear_arith)
            requires
                i == d.len(),
                front.len() == d.len() * t,
        ;
        assert((front + last)[front.len() + j] == last[j]);
    }
}

proof fn lemma_cell_count(counts: Seq<usize>, threads: Seq<u32>)
    ensures
        fixtures::cells(counts, threads).len() == counts.len() * threads.len(),
    decreases counts.len(),
{
    let t = threads.len() as int;
    if counts.len() > 0 {
        let d = counts.drop_last();
        lemma_cell_count(d, threads);
        assert(d.len() * t + t == counts.len() * t) by (nonlinear_arith)
            requires
                d.len() == counts.len() - 1,
        ;
    } else {
        assert(counts.len() * t == 0) by (nonlinear_arith)
            requires
                counts.len() == 0,
        ;
    }
}

/// Law: every step of a cell is for that cell; runs that are not counted come first, with their
/// numbers, then as many that are timed as repeats are asked for, but at least one, with theirs.
pub proof fn law_steps_of_a_cell(cell: (usize, u32), warmup: u32, repeats: u32, k: int)
    requires
        0 <= k <= warmup + repeats,
        repeats > 0,
        warmup + repeats <= u32::MAX,
    ensures
        k < warmup ==> schedule::step_at(cell, warmup, repeats, k) == (BenchStep::Warmup {
            nested: cell.0,
            threads: cell.1,
            number: k as u32,
        }),
        warmup <= k < warmup + repeats ==> schedule::step_at(cell, warmup, repeats, k) == (
        BenchStep::Timed {
            nested: cell.0,
            threads: cell.1,
            number: (k - warmup) as u32,
            keep: k == warmup + repeats - 1,
        }),
        k == warmup + repeats ==> schedule::step_at(cell, warmup, repeats, k) == (
        BenchStep::Report { nested: cell.0, threads: cell.1 }),
        schedule::times_of(0) == 1,
        schedule::times_of(repeats) == repeats,
{
}

/// Law: the text of a file begins with what it begins with, goes on with whole lines as long as one
/// fits, and ends with `x` characters up to its length.
pub proof fn law_body_of_a_file(start: Seq<char>, line: Seq<char>, len: int)
    requires
        line.len() > 0,
        start.len() <= len,
    ensures
        ({
            let body = fixtures::with_lines(start, line, len);
            let whole = fixtures::with_fill(body, len);
            &&& text::begins(body, start)
            &&& len - body.len() < line.len()
            &&& start.len() + line.len() <= len ==> text::begins(body, start + line)
            &&& text::begins(whole, body)
            &&& forall|i: int| body.len() <= i < len ==> #[trigger] whole[i] == 'x'
        }),
    decreases len - start.len(),
{
    let body = fixtures::with_lines(start, line, len);
    let whole = fixtures::with_fill(body, len);
    if start.len() + line.len() <= len {
        let next = start + line;
        law_body_of_a_file(next, line, len);
        assert(body.take(start.len() as int) =~= body.take(next.len() as int).take(
            start.len() as int,
        ));
        assert(next.take(start.len() as int) =~= start);
    } else {
        assert(body.take(start.len() as int) =~= start);
    }
    fixtures::law_body_has_length(start, line, len);
    assert(whole.take(body.len() as int) =~= body);
}

// ---------------------------------------------------------------------------------------------
// Times
// ---------------------------------------------------------------------------------------------
/// Law: of times from the shortest to the longest, whatever their order was, the middle is the one
/// with as many before it as behind it, or one more before it.
pub proof fn law_middle_of_times(sorted: Seq<u64>, times: Seq<u64>, k: int)
    requires
        sorted.to_multiset() == times.to_multiset(),
        forall|i: int, j: int| 0 <= i < j < sorted.len() ==> sorted[i] <= sorted[j],
        times.len() == 2 * k || times.len() == 2 * k + 1,
        times.len() > 0,
    ensures
        baseline::is_middle(times, sorted[k]),
{
    assert(baseline::sorted_times(sorted, times));
    assert(times.len() as int / 2 == k);
}

/// Law: measurements are ordered by the number of nested archives, then of threads, then the level.
pub proof fn law_order_of_measurements(a: ManualBaselineEntry, b: ManualBaselineEntry)
    ensures
        a.nested < b.nested ==> baseline::cell_le(a, b) && !baseline::cell_le(b, a),
        a.nested == b.nested && a.threads < b.threads ==> baseline::cell_le(a, b)
            && !baseline::cell_le(b, a),
        a.nested == b.nested && a.threads == b.threads ==> (baseline::cell_le(a, b) <==> a.level
            <= b.level),
{
}

/// Law: the measurement of a cell is the first with its number of nested archives, its threads and
/// its level.
pub proof fn law_first_measurement(
    entries: Seq<ManualBaselineEntry>,
    nested: usize,
    threads: u32,
    level: u32,
    k: int,
)
    requires
        0 <= k <= entries.len(),
        forall|i: int|
            0 <= i < k ==> !((#[trigger] entries[i]).nested == nested && entries[i].threads == threads
                && entries[i].level == level),
        k < entries.len() ==> entries[k].nested == nested && entries[k].threads == threads
            && entries[k].level == level,
    ensures
        baseline::lookup(entries, nested, threads, level) == if k < entries.len() {
            Some(entries[k])
        } else {
            None
        },
    decreases k,
{
    if k > 0 {
        let rest = entries.skip(1);
        assert(!(entries[0].nested == nested && entries[0].threads == threads && entries[0].level
            == level));
        assert forall|i: int| 0 <= i < k - 1 implies !((#[trigger] rest[i]).nested == nested
            && rest[i].threads == threads && rest[i].level == level) by {
            assert(rest[i] == entries[i + 1]);
        }
        if k < entries.len() {
            assert(rest[k - 1] == entries[k]);
        }
        law_first_measurement(rest, nested, threads, level, k - 1);
    }
}

/// Law: new measurements go into the stored ones, unless those are replaced or there are none; the
/// moment of the change is noted either way.
pub proof fn law_what_is_merged_into(
    stored: BaselineView,
    scale: Seq<char>,
    now: u64,
)
    ensures
        baseline::merge_start(Some(stored), scale, false, now).entries == stored.entries,
        baseline::merge_start(Some(stored), scale, false, now).scale == stored.scale,
        baseline::merge_start(Some(stored), scale, false, now).version == stored.version,
        baseline::merge_start(Some(stored), scale, false, now).updated_unix == now,
        baseline::merge_start(Some(stored), scale, true, now).entries.len() == 0,
        baseline::merge_start(Some(stored), scale, true, now).scale == scale,
        baseline::merge_start(Some(stored), scale, true, now).updated_unix == now,
        baseline::merge_start(None, scale, false, now).entries.len() == 0,
        baseline::merge_start(None, scale, false, now).scale == scale,
        baseline::merge_start(None, scale, false, now).version == 1,
{
}

// ---------------------------------------------------------------------------------------------
// By hand
// ---------------------------------------------------------------------------------------------
/// Law: converting by hand extracts each member, packs it anew if it is a 7z archive and copies it
/// else, under its base name, and removes what was extracted.
pub proof fn law_steps_by_hand(dir: Seq<char>, name: Seq<char>)
    requires
        !name.contains('/'),
    ensures
        ({
            let path = dir + seq!['/'] + name;
            let steps = manual::member_steps(path);
            &&& steps.len() == 3
            &&& steps[0] == StepView::Extract(path)
            &&& text::ends(path, ".7z"@) ==> steps[1] == StepView::Repack(name)
            &&& !text::ends(path, ".7z"@) ==> steps[1] == StepView::Copy(name)
            &&& steps[2] is Clear
        }),
{
    let path = dir + seq!['/'] + name;
    let u = seq!['/'] + name;
    assert(path.skip(path.len() - u.len()) =~= u);
    crate::filter::exclude_laws::lemma_base_is(path, name);
}

/// Law: a block of a technical listing with a path and a size shows a file, unless it says that it
/// is a folder, has the attribute `D`, or describes the archive itself.
pub proof fn law_files_of_a_listing(path: Seq<char>, size: Seq<char>, attrs: Seq<char>, folder: bool)
    requires
        path.len() > 0,
        !text::begins(attrs, "Attributes = "@),
    ensures
        ({
            let head = "Path = "@ + path;
            let mark = if folder {
                "+"@
            } else {
                "-"@
            };
            let plain = manual::after_lines(seq![head, "Size = "@ + size]);
            let marked = manual::after_lines(seq![head, "Folder = "@ + mark]);
            let attributed = manual::after_lines(seq![head, "Attributes = "@ + attrs]);
            let archive = manual::after_lines(seq![head, "Type = 7z"@, "Size = "@ + size]);
            let bare = manual::after_lines(seq![head]);
            let none = Seq::<Seq<char>>::empty();
            &&& manual::flushed(plain.0, plain.1) == seq![path]
            &&& manual::flushed(marked.0, marked.1) == if folder {
                none
            } else {
                seq![path]
            }
            &&& manual::flushed(attributed.0, attributed.1) == if attrs.contains('D') {
                none
            } else {
                seq![path]
            }
            &&& manual::flushed(archive.0, archive.1) == none
            &&& manual::flushed(bare.0, bare.1) == none
        }),
{
    reveal_strlit("Path = ");
    reveal_strlit("Size = ");
    reveal_strlit("Folder = ");
    reveal_strlit("Attributes = ");
    reveal_strlit("Type = ");
    reveal_strlit("Type = 7z");
    reveal_strlit("7z");
    reveal_strlit("+");
    reveal_strlit("-");
    reveal_strlit("true");
    let none = Seq::<Seq<char>>::empty();
    let head = "Path = "@ + path;
    let mark = if folder {
        "+"@
    } else {
        "-"@
    };
    let sized = "Size = "@ + size;
    let foldered = "Folder = "@ + mark;
    let attributed = "Attributes = "@ + attrs;
    assert(head.take(7) =~= "Path = "@);
    assert(head.skip(7) =~= path);
    assert(seq![head].drop_last() =~= none);
    let start = manual::after_lines(seq![head]);
    assert(manual::after_lines(none) == (none, manual::BlockView::nothing()));
    assert(start == manual::after_line(none, manual::BlockView::nothing(), head));
    assert(start.0 == none && start.1.path == Some(path) && !start.1.is_member);
    assert(none.push(path) =~= seq![path]);
    // A size.
    assert(seq![head, sized].drop_last() =~= seq![head]);
    lemma_begun_otherwise(sized, "Path = "@);
    lemma_begun_otherwise(sized, "Type = "@);
    lemma_begun_otherwise(sized, "Folder = "@);
    lemma_begun_otherwise(sized, "Attributes = "@);
    assert(sized.take(7) =~= "Size = "@);
    // A folder mark.
    assert(seq![head, foldered].drop_last() =~= seq![head]);
    lemma_begun_otherwise(foldered, "Path = "@);
    lemma_begun_otherwise(foldered, "Type = "@);
    assert(foldered.take(9) =~= "Folder = "@);
    assert(foldered.skip(9) =~= mark);
    assert(!text::begins(mark, "Folder = "@));
    assert(text::strip_front_text(mark, "Folder = "@) == mark);
    assert(text::strip_front_text(foldered, "Folder = "@) == mark);
    text::law_trim_takes_white_space_away(Seq::empty(), mark, Seq::empty());
    assert(mark[0] == if folder {
        '+'
    } else {
        '-'
    });
    assert("+"@[0] == '+');
    assert(text::lower(mark).len() == 1 && "true"@.len() == 4);
    // Attributes.
    assert(seq![head, attributed].drop_last() =~= seq![head]);
    lemma_begun_otherwise(attributed, "Path = "@);
    lemma_begun_otherwise(attributed, "Type = "@);
    lemma_begun_otherwise(attributed, "Folder = "@);
    assert(attributed.take(13) =~= "Attributes = "@);
    assert(attributed.skip(13) =~= attrs);
    assert(text::strip_front_text(attrs, "Attributes = "@) == attrs);
    assert(text::strip_front_text(attributed, "Attributes = "@) == attrs);
    // The archive itself.
    let typed = "Type = 7z"@;
    assert(seq![head, typed].drop_last() =~= seq![head]);
    assert(seq![head, typed, sized].drop_last() =~= seq![head, typed]);
    lemma_begun_otherwise(typed, "Path = "@);
    assert(typed.take(7) =~= "Type = "@);
    assert(typed.skip(7) =~= "7z"@);
    lemma_begun_otherwise("7z"@, "Type = "@);
    assert(text::strip_front_text("7z"@, "Type = "@) == "7z"@);
    assert(text::strip_front_text(typed, "Type = "@) == "7z"@);
    text::law_trim_takes_white_space_away(Seq::empty(), "7z"@, Seq::empty());
    assert(text::lower("7z"@) =~= "7z"@);
    let second = manual::after_lines(seq![head, typed]);
    assert(second == manual::after_line(start.0, start.1, typed));
    assert(second.1.is_header && second.0 == none);
    assert(manual::after_lines(seq![head, typed, sized]) == manual::after_line(
        second.0,
        second.1,
        sized,
    ));
}

proof fn lemma_begun_otherwise(line: Seq<char>, key: Seq<char>)
    requires
        line.len() > 0,
        key.len() > 0,
        line[0] != key[0],
    ensures
        !text::begins(line, key),
{
    if text::begins(line, key) {
        assert(line.take(key.len() as int)[0] == line[0]);
    }
}

// ---------------------------------------------------------------------------------------------
// Tables
// ---------------------------------------------------------------------------------------------
/// Law: a row is compared with the first that measures the same scale and the same number of nested
/// archives with one thread.
pub proof fn law_base_rows(rows: Seq<BenchRow>, row: BenchRow, from: int, k: int)
    requires
        0 <= from <= k <= rows.len(),
        forall|i: int|
            from <= i < k ==> !((#[trigger] rows[i]).threads == 1 && rows[i].nested == row.nested
                && rows[i].scale@ == row.scale@),
        k < rows.len() ==> rows[k].threads == 1 && rows[k].nested == row.nested && rows[k].scale@
            == row.scale@,
    ensures
        report::first_base(rows, row, from) == if k < rows.len() {
            Some(k)
        } else {
            None::<int>
        },
    decreases k - from,
{
    if from < k {
        assert(!(rows[from].threads == 1 && rows[from].nested == row.nested && rows[from].scale@
            == row.scale@));
        law_base_rows(rows, row, from + 1, k);
    }
}

/// A cell that makes no further cells.
pub open spec fn one_cell(s: Seq<char>) -> bool {
    !s.contains(',')
}

/// The cells of a row of comma-separated values.
pub open spec fn csv_cells(row: BenchRow, t: RowTexts) -> Seq<Seq<char>> {
    seq![
        row.scale@,
        text::number_text(row.nested as nat),
        text::number_text(row.threads as nat),
        t.seconds@,
        match t.manual {
            Some(m) => m.0@,
            None => Seq::empty(),
        },
        match t.manual {
            Some(m) => m.1@,
            None => Seq::empty(),
        },
        text::number_text(row.input_bytes as nat),
        text::number_text(row.output_bytes as nat),
        t.speedup@,
    ]
}

/// Law: taken apart at its commas, a row of comma-separated values has nine cells: scale, nested
/// archives, threads, time, time by hand, ratio to it, bytes read, bytes written, speedup. What is
/// not known is empty.
pub proof fn law_comma_separated_cells(row: BenchRow, t: RowTexts)
    requires
        forall|i: int| 0 <= i < 9 ==> one_cell(#[trigger] csv_cells(row, t)[i]),
    ensures
        text::split(report::csv_text(row, t), ',') == csv_cells(row, t),
{
    reveal_strlit(",");
    reveal_strlit("");
    assert(","@ =~= seq![',']);
    assert(""@ =~= Seq::<char>::empty());
    let c = csv_cells(row, t);
    assert(one_cell(c[0]) && one_cell(c[1]) && one_cell(c[2]) && one_cell(c[3]) && one_cell(c[4])
        && one_cell(c[5]) && one_cell(c[6]) && one_cell(c[7]) && one_cell(c[8]));
    let s8 = c[8];
    let s7 = c[7].push(',') + s8;
    let s6 = c[6].push(',') + s7;
    let s5 = c[5].push(',') + s6;
    let s4 = c[4].push(',') + s5;
    let s3 = c[3].push(',') + s4;
    let s2 = c[2].push(',') + s3;
    let s1 = c[1].push(',') + s2;
    let s0 = c[0].push(',') + s1;
    assert(report::csv_text(row, t) =~= s0);
    lemma_one_cell(c[8]);
    lemma_cell_in_front(c[7], s8);
    lemma_cell_in_front(c[6], s7);
    lemma_cell_in_front(c[5], s6);
    lemma_cell_in_front(c[4], s5);
    lemma_cell_in_front(c[3], s4);
    lemma_cell_in_front(c[2], s3);
    lemma_cell_in_front(c[1], s2);
    lemma_cell_in_front(c[0], s1);
    assert(text::split(s0, ',') =~= c);
}

proof fn lemma_one_cell(s: Seq<char>)
    requires
        one_cell(s),
    ensures
        text::split(s, ',') == seq![s],
{
    text::lemma_find(s, ',');
}

proof fn lemma_cell_in_front(s: Seq<char>, rest: Seq<char>)
    requires
        one_cell(s),
    ensures
        text::split(s.push(',') + rest, ',') == seq![s] + text::split(rest, ','),
{
    laws::lemma_split_concat(s, rest, ',');
    lemma_one_cell(s);
}

/// Law: a list of numbers shows each of them, with a comma and a space between two.
pub proof fn law_comma_lists(v: Seq<usize>, n: usize)
    requires
        v.len() > 0,
    ensures
        fixtures::comma_list(Seq::empty()).len() == 0,
        fixtures::comma_list(seq![n]) == text::number_text(n as nat),
        fixtures::comma_list(v.push(n)) == fixtures::comma_list(v) + ", "@ + text::number_text(
            n as nat,
        ),
{
    assert(v.push(n).drop_last() =~= v);
}

/// Law: a cell that is aligned holds its text, with spaces alone around it.
pub proof fn law_aligned_cells(s: Seq<char>, width: nat)
    requires
        s.len() == 0 || text::bare(s),
    ensures
        text::trim(report::left(s, width)) == s,
        text::trim(report::right(s, width)) == s,
        text::begins(report::left(s, width), s),
        text::ends(report::right(s, width), s),
{
    let none = Seq::<char>::empty();
    let gap = report::spaces(if s.len() < width {
        (width - s.len()) as nat
    } else {
        0
    });
    assert(text::white(gap)) by {
        assert forall|i: int| 0 <= i < gap.len() implies text::is_space(#[trigger] gap[i]) by {
            assert(gap[i] == ' ');
        }
    }
    text::law_trim_takes_white_space_away(none, s, gap);
    text::law_trim_takes_white_space_away(gap, s, none);
    let l = report::left(s, width);
    let r = report::right(s, width);
    assert(l =~= none + s + gap);
    assert(r =~= gap + s + none);
    assert(l.take(s.len() as int) =~= s);
    assert(r.skip(r.len() - s.len()) =~= s);
}

/// Law: the file that stands for a member that is not at its own path is the first with its name.
pub proof fn law_first_file_of_a_name(
    names: Seq<Option<String>>,
    base: Seq<char>,
    from: int,
    k: int,
)
    requires
        0 <= from <= k <= names.len(),
        forall|i: int|
            from <= i < k ==> !((#[trigger] names[i]) is Some && names[i]->0@ == base),
        k < names.len() ==> names[k] is Some && names[k]->0@ == base,
    ensures
        manual::first_named(names, base, from) == if k < names.len() {
            Some(k)
        } else {
            None::<int>
        },
    decreases k - from,
{
    if from < k {
        assert(!(names[from] is Some && names[from]->0@ == base));
        law_first_file_of_a_name(names, base, from + 1, k);
    }
}

/// Law: the lines of a file that is written line by line are these lines.
pub proof fn law_written_lines_read_back(v: Seq<Seq<char>>)
    requires
        forall|i: int|
            0 <= i < v.len() ==> !(#[trigger] v[i]).contains('\n') && (v[i].len() == 0
                || v[i].last() != '\r'),
    ensures
        text::lines(tables::lines_text(v)) == v,
        v.len() > 0 ==> tables::lines_text(v).last() == '\n',
        v.len() == 0 ==> tables::lines_text(v).len() == 0,
    decreases v.len(),
{
    reveal_strlit("\n");
    assert("\n"@ =~= seq!['\n']);
    if v.len() == 0 {
        assert(v =~= Seq::<Seq<char>>::empty());
    } else {
        let t = v.drop_last();
        let last = v[v.len() - 1];
        assert forall|i: int| 0 <= i < t.len() implies !(#[trigger] t[i]).contains('\n') && (
        t[i].len() == 0 || t[i].last() != '\r') by {
            assert(t[i] == v[i]);
        }
        law_written_lines_read_back(t);
        let none = Seq::<char>::empty();
        let end = last + seq!['\n'];
        assert(end =~= last + seq!['\n'] + none);
        text::law_ends_of_lines(last, none);
        assert(text::lines(none) =~= Seq::<Seq<char>>::empty());
        assert(text::lines(end) =~= seq![last]);
        let a = tables::lines_text(t);
        assert(tables::lines_text(v) =~= a + end);
        text::law_lines_add_up(a, end);
        assert(t + seq![last] =~= v);
    }
}

/// Law: a row of the Markdown table shows scale, nested archives, threads and time; then the time by
/// hand, the ratio to it, the speedup and the size read; or without times by hand the sizes read and
/// written and the speedup. A dash stands for what is not known.
pub proof fn law_markdown_rows(row: BenchRow, t: RowTexts)
    ensures
        ({
            let bar = " | "@;
            let head = "| "@ + row.scale@ + bar + text::number_text(row.nested as nat) + bar
                + text::number_text(row.threads as nat) + bar + t.seconds@ + bar;
            let time = match t.manual {
                Some(m) => m.0@,
                None => "—"@,
            };
            let ratio = match t.manual {
                Some(m) => m.1@,
                None => "—"@,
            };
            &&& report::markdown_text(row, t, true) == head + time + bar + ratio + bar + t.speedup@
                + "x | "@ + t.input_mib@ + " |"@
            &&& report::markdown_text(row, t, false) == head + t.input_mib@ + bar + t.output_mib@
                + bar + t.speedup@ + "x |"@
        }),
{
}

/// Law: a row on the screen shows the same cells, each aligned in its column.
pub proof fn law_screen_rows(row: BenchRow, t: RowTexts)
    ensures
        ({
            let gap = " "@;
            let head = report::left(row.scale@, 8) + gap + report::right(
                text::number_text(row.nested as nat),
                7,
            ) + gap + report::right(text::number_text(row.threads as nat), 8) + gap
                + report::right(t.seconds@, 10);
            let time = match t.manual {
                Some(m) => m.0@,
                None => "—"@,
            };
            let ratio = match t.manual {
                Some(m) => m.1@,
                None => "—"@,
            };
            &&& report::screen_text(row, t, true) == head + gap + report::right(time, 10) + gap
                + report::right(ratio, 10) + gap + report::right(t.speedup@, 9) + "x "@
                + report::right(t.input_mib@, 12)
            &&& report::screen_text(row, t, false) == head + gap + report::right(t.input_mib@, 12)
                + gap + report::right(t.output_mib@, 12) + gap + report::right(t.speedup@, 7)
                + "x"@
        }),
{
}

} // verus!
