//! The reports of a measurement as whole texts.

use crate::bench::fixtures::ScaleName;
use crate::bench::report;
use crate::bench::report::{
    csv_line, markdown_line, scale_line, screen_heading, screen_line, BenchRow, RowTexts,
};
use crate::util::text::copy_str;
use vstd::prelude::*;

verus! {

/// Lines, each with its end.
pub open spec fn lines_text(lines: Seq<Seq<char>>) -> Seq<char>
    decreases lines.len(),
{
    if lines.len() == 0 {
        Seq::empty()
    } else {
        lines_text(lines.drop_last()) + lines.last() + "\n"@
    }
}

/// Adds lines behind lines.
proof fn lemma_lines_text(a: Seq<Seq<char>>, b: Seq<Seq<char>>)
    ensures
        lines_text(a + b) == lines_text(a) + lines_text(b),
    decreases b.len(),
{
    if b.len() == 0 {
        assert(a + b =~= a);
        assert(lines_text(a) + lines_text(b) =~= lines_text(a));
    } else {
        lemma_lines_text(a, b.drop_last());
        assert((a + b).drop_last() =~= a + b.drop_last());
        assert(lines_text(a + b) =~= lines_text(a) + lines_text(b));
    }
}

/// The texts of literals.
pub open spec fn literal_texts(v: Seq<&'static str>) -> Seq<Seq<char>> {
    Seq::new(v.len(), |i: int| v[i]@)
}

/// Adds literals as lines.
fn add_lines(out: &mut String, lines: &[&'static str])
    ensures
        final(out)@ == old(out)@ + lines_text(literal_texts(lines@)),
{
    let ghost start = out@;
    let ghost all = literal_texts(lines@);
    let mut i: usize = 0;
    assert(all.take(0) =~= Seq::<Seq<char>>::empty());
    assert(out@ =~= start + lines_text(all.take(0)));
    while i < lines.len()
        invariant
            i <= lines.len(),
            all == literal_texts(lines@),
            out@ == start + lines_text(all.take(i as int)),
        decreases lines.len() - i,
    {
        out.append(lines[i]);
        out.append("\n");
        assert(all.take(i + 1).drop_last() =~= all.take(i as int));
        i += 1;
        assert(out@ =~= start + lines_text(all.take(i as int)));
    }
    assert(all.take(i as int) =~= all);
}

// ---------------------------------------------------------------------------------------------
// Scales
// ---------------------------------------------------------------------------------------------
/// The table of the scales, with its heading.
pub fn scales_table() -> (r: String)
    ensures
        r@ == report::left("name"@, 8) + " "@ + report::right("files"@, 10) + " "@
            + report::right("MiB"@, 8) + " "@ + report::right("nested outers"@, 16)
            + "  intent\n"@ + report::scale_text(ScaleName::Tiny) + "\n"@
            + report::scale_text(ScaleName::Small) + "\n"@ + report::scale_text(ScaleName::Quick)
            + "\n"@ + report::scale_text(ScaleName::Full) + "\n"@,
{
    let mut s = report::align_left("name", 8);
    s.append(" ");
    s.append(report::align_right("files", 10).as_str());
    s.append(" ");
    s.append(report::align_right("MiB", 8).as_str());
    s.append(" ");
    s.append(report::align_right("nested outers", 16).as_str());
    s.append("  intent\n");
    s.append(scale_line(ScaleName::Tiny).as_str());
    s.append("\n");
    s.append(scale_line(ScaleName::Small).as_str());
    s.append("\n");
    s.append(scale_line(ScaleName::Quick).as_str());
    s.append("\n");
    s.append(scale_line(ScaleName::Full).as_str());
    s.append("\n");
    s
}

// ---------------------------------------------------------------------------------------------
// Rows
// ---------------------------------------------------------------------------------------------
/// The rows as they stand on the screen.
pub open spec fn screen_rows(rows: Seq<BenchRow>, t: Seq<RowTexts>, has_manual: bool) -> Seq<
    Seq<char>,
> {
    Seq::new(rows.len(), |i: int| report::screen_text(rows[i], t[i], has_manual))
}

/// The rows with commas.
pub open spec fn csv_rows(rows: Seq<BenchRow>, t: Seq<RowTexts>) -> Seq<Seq<char>> {
    Seq::new(rows.len(), |i: int| report::csv_text(rows[i], t[i]))
}

/// The rows of a Markdown table.
pub open spec fn markdown_rows(rows: Seq<BenchRow>, t: Seq<RowTexts>, has_manual: bool) -> Seq<
    Seq<char>,
> {
    Seq::new(rows.len(), |i: int| report::markdown_text(rows[i], t[i], has_manual))
}

/// The table on the screen: a heading and a line for each row.
pub fn screen_table(rows: &[BenchRow], t: &[RowTexts], has_manual: bool) -> (r: String)
    requires
        rows@.len() == t@.len(),
    ensures
        r@ == report::heading_text(has_manual) + "\n"@ + lines_text(
            screen_rows(rows@, t@, has_manual),
        ),
{
    let mut s = screen_heading(has_manual);
    s.append("\n");
    let ghost start = s@;
    let ghost all = screen_rows(rows@, t@, has_manual);
    let mut i: usize = 0;
    assert(all.take(0) =~= Seq::<Seq<char>>::empty());
    assert(s@ =~= start + lines_text(all.take(0)));
    while i < rows.len()
        invariant
            i <= rows.len(),
            rows@.len() == t@.len(),
            all == screen_rows(rows@, t@, has_manual),
            s@ == start + lines_text(all.take(i as int)),
        decreases rows.len() - i,
    {
        s.append(screen_line(&rows[i], &t[i], has_manual).as_str());
        s.append("\n");
        assert(all.take(i + 1).drop_last() =~= all.take(i as int));
        i += 1;
        assert(s@ =~= start + lines_text(all.take(i as int)));
    }
    assert(all.take(i as int) =~= all);
    s
}

/// The file with commas: a heading and a line for each row.
pub fn csv_file(rows: &[BenchRow], t: &[RowTexts]) -> (r: String)
    requires
        rows@.len() == t@.len(),
    ensures
        r@
            == "scale,nested,threads,tool_seconds,manual_seconds,ratio_tool_over_manual,input_bytes,output_bytes,speedup_vs_t1\n"@
            + lines_text(csv_rows(rows@, t@)),
{
    let mut s = copy_str(
        "scale,nested,threads,tool_seconds,manual_seconds,ratio_tool_over_manual,input_bytes,output_bytes,speedup_vs_t1\n",
    );
    let ghost start = s@;
    let ghost all = csv_rows(rows@, t@);
    let mut i: usize = 0;
    assert(all.take(0) =~= Seq::<Seq<char>>::empty());
    assert(s@ =~= start + lines_text(all.take(0)));
    while i < rows.len()
        invariant
            i <= rows.len(),
            rows@.len() == t@.len(),
            all == csv_rows(rows@, t@),
            s@ == start + lines_text(all.take(i as int)),
        decreases rows.len() - i,
    {
        s.append(csv_line(&rows[i], &t[i]).as_str());
        s.append("\n");
        assert(all.take(i + 1).drop_last() =~= all.take(i as int));
        i += 1;
        assert(s@ =~= start + lines_text(all.take(i as int)));
    }
    assert(all.take(i as int) =~= all);
    s
}

/// The two lines over the rows of the Markdown table.
pub open spec fn markdown_heading(has_manual: bool) -> Seq<Seq<char>> {
    if has_manual {
        seq![
            "| scale | nested | threads | tool s | manual s | ratio tool/manual | speedup vs t1 | input MiB |"@,
            "|-------|-------:|--------:|-------:|---------:|------------------:|--------------:|----------:|"@,
        ]
    } else {
        seq![
            "| scale | nested | threads | seconds | input MiB | output MiB | speedup vs 1 thread |"@,
            "|-------|-------:|--------:|--------:|----------:|-----------:|--------------------:|"@,
        ]
    }
}

/// What stands below the Markdown table.
pub open spec fn markdown_notes() -> Seq<Seq<char>> {
    seq![
        ""@,
        "## Interpretation"@,
        ""@,
        "- These runs pin pack threads via `--threads N` (tool) / `-mmt=N` (manual baseline)."@,
        "- Manual baseline: **one nested at a time**. Tool may convert several nests concurrently under the size budget."@,
        "- Single nested archive: tool forces pack threads=1 (MT often slower on dense tiny-file nests)."@,
        "- `ratio tool/manual` uses the **same thread count** on both sides when a baseline cell exists."@,
    ]
}

/// The Markdown file: a title, the table, and how to read it.
pub fn markdown_file(rows: &[BenchRow], t: &[RowTexts], has_manual: bool) -> (r: String)
    requires
        rows@.len() == t@.len(),
    ensures
        r@ == "# Nested conversion benchmark results\n\n"@ + lines_text(
            markdown_heading(has_manual) + markdown_rows(rows@, t@, has_manual) + markdown_notes(),
        ),
{
    let mut s = copy_str("# Nested conversion benchmark results\n\n");
    let ghost title = s@;
    if has_manual {
        let lines: [&'static str; 2] = [
            "| scale | nested | threads | tool s | manual s | ratio tool/manual | speedup vs t1 | input MiB |",
            "|-------|-------:|--------:|-------:|---------:|------------------:|--------------:|----------:|",
        ];
        add_lines(&mut s, &lines);
        assert(literal_texts(lines@) =~= markdown_heading(has_manual));
    } else {
        let lines: [&'static str; 2] = [
            "| scale | nested | threads | seconds | input MiB | output MiB | speedup vs 1 thread |",
            "|-------|-------:|--------:|--------:|----------:|-----------:|--------------------:|",
        ];
        add_lines(&mut s, &lines);
        assert(literal_texts(lines@) =~= markdown_heading(has_manual));
    }
    let ghost head = markdown_heading(has_manual);
    let ghost all = markdown_rows(rows@, t@, has_manual);
    let mut i: usize = 0;
    assert(head + all.take(0) =~= head);
    while i < rows.len()
        invariant
            i <= rows.len(),
            rows@.len() == t@.len(),
            all == markdown_rows(rows@, t@, has_manual),
            s@ == title + lines_text(head + all.take(i as int)),
        decreases rows.len() - i,
    {
        s.append(markdown_line(&rows[i], &t[i], has_manual).as_str());
        s.append("\n");
        assert((head + all.take(i + 1)).drop_last() =~= head + all.take(i as int));
        assert((head + all.take(i + 1)).last() == all[i as int]);
        i += 1;
        assert(s@ =~= title + lines_text(head + all.take(i as int)));
    }
    assert(all.take(i as int) =~= all);
    let notes: [&'static str; 7] = [
        "",
        "## Interpretation",
        "",
        "- These runs pin pack threads via `--threads N` (tool) / `-mmt=N` (manual baseline).",
        "- Manual baseline: **one nested at a time**. Tool may convert several nests concurrently under the size budget.",
        "- Single nested archive: tool forces pack threads=1 (MT often slower on dense tiny-file nests).",
        "- `ratio tool/manual` uses the **same thread count** on both sides when a baseline cell exists.",
    ];
    add_lines(&mut s, &notes);
    proof {
        assert(literal_texts(notes@) =~= markdown_notes());
        lemma_lines_text(head + all, markdown_notes());
        assert(s@ =~= title + lines_text(head + all + markdown_notes()));
    }
    s
}

} // verus!
