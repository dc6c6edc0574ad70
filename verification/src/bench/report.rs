//! Tables of measurements. Numbers with fractions come as text.

use crate::bench::fixtures;
use crate::bench::fixtures::{intent, list_text, Scale, ScaleName};
use crate::util::text;
use crate::util::text::{
    chars_of, concat5, copy_str, same_text, show_u64, show_usize,
};
use vstd::prelude::*;

verus! {

// ---------------------------------------------------------------------------------------------
// Columns
// ---------------------------------------------------------------------------------------------
/// So many spaces.
pub open spec fn spaces(n: nat) -> Seq<char> {
    Seq::new(n, |i: int| ' ')
}

/// `s` with spaces in front, up to a width.
pub open spec fn right(s: Seq<char>, width: nat) -> Seq<char> {
    if s.len() < width {
        spaces((width - s.len()) as nat) + s
    } else {
        s
    }
}

/// `s` with spaces behind it, up to a width.
pub open spec fn left(s: Seq<char>, width: nat) -> Seq<char> {
    if s.len() < width {
        s + spaces((width - s.len()) as nat)
    } else {
        s
    }
}

fn blanks(n: usize) -> (r: String)
    ensures
        r@ == spaces(n as nat),
{
    let mut s = String::new();
    let mut i: usize = 0;
    assert(s@ =~= spaces(0));
    while i < n
        invariant
            i <= n,
            s@ == spaces(i as nat),
        decreases n - i,
    {
        s.push(' ');
        i += 1;
        assert(s@ =~= spaces(i as nat));
    }
    s
}

/// `s` with spaces in front, up to a width.
pub fn align_right(s: &str, width: usize) -> (r: String)
    ensures
        r@ == right(s@, width as nat),
{
    let n: usize = chars_of(s).len();
    if n < width {
        let mut out = blanks(width - n);
        out.append(s);
        out
    } else {
        copy_str(s)
    }
}

/// `s` with spaces behind it, up to a width.
pub fn align_left(s: &str, width: usize) -> (r: String)
    ensures
        r@ == left(s@, width as nat),
{
    let n: usize = chars_of(s).len();
    let mut out = copy_str(s);
    if n < width {
        out.append(blanks(width - n).as_str());
    }
    out
}

/// One line of the table of scales.
pub open spec fn scale_text(name: ScaleName) -> Seq<char> {
    let s = fixtures::scale_of(name);
    left(s.name, 8) + " "@ + right(text::number_text(s.files as nat), 10) + " "@ + right(
        text::number_text(s.size_mib as nat),
        8,
    ) + " "@ + right("["@ + fixtures::comma_list(s.nested_counts) + "]"@, 16) + "  "@
        + fixtures::intent_of(name)
}

/// One line of the table of scales.
pub fn scale_line(name: ScaleName) -> (r: String)
    ensures
        r@ == scale_text(name),
{
    let s = Scale::from_name(name);
    let mut out = align_left(s.name, 8);
    out.append(" ");
    out.append(align_right(show_u64(s.files).as_str(), 10).as_str());
    out.append(" ");
    out.append(align_right(show_u64(s.size_mib).as_str(), 8).as_str());
    out.append(" ");
    out.append(align_right(list_text(s.nested_counts.as_slice()).as_str(), 16).as_str());
    out.append("  ");
    out.append(intent(name));
    out
}

// ---------------------------------------------------------------------------------------------
// Rows
// ---------------------------------------------------------------------------------------------
/// The measurement of one cell. The time is carried as the bits of a number of seconds.
#[derive(Debug)]
pub struct BenchRow {
    pub scale: String,
    pub nested: usize,
    pub threads: u32,
    pub seconds_bits: u64,
    pub input_bytes: u64,
    pub output_bytes: u64,
}

/// Row `b` measures the same archive as row `a` with one thread.
pub open spec fn is_base(a: BenchRow, b: BenchRow) -> bool {
    b.nested == a.nested && b.threads == 1 && b.scale@ == a.scale@
}

/// The number of the first row that measures the same archive with one thread.
pub open spec fn first_base(rows: Seq<BenchRow>, row: BenchRow, i: int) -> Option<int>
    decreases rows.len() - i,
{
    if i < 0 || i >= rows.len() {
        None
    } else if is_base(row, rows[i]) {
        Some(i)
    } else {
        first_base(rows, row, i + 1)
    }
}

/// The number of the row that a row is compared with: the first for the same archive with one
/// thread, else itself.
pub fn base_row(rows: &[BenchRow], at: usize) -> (r: usize)
    requires
        at < rows.len(),
    ensures
        r == (match first_base(rows@, rows[at as int], 0) {
            Some(i) => i,
            None => at as int,
        }),
        r < rows.len(),
{
    let mut i: usize = 0;
    while i < rows.len()
        invariant
            i <= rows.len(),
            at < rows.len(),
            first_base(rows@, rows[at as int], 0) == first_base(rows@, rows[at as int], i as int),
        decreases rows.len() - i,
    {
        let b = &rows[i];
        if b.nested == rows[at].nested && b.threads == 1 && same_text(
            b.scale.as_str(),
            rows[at].scale.as_str(),
        ) {
            return i;
        }
        i += 1;
    }
    at
}

/// The numbers of a row as text.
#[derive(Debug)]
pub struct RowTexts {
    /// The time.
    pub seconds: String,
    /// The time by hand and the ratio to it, where there is one.
    pub manual: Option<(String, String)>,
    /// How much faster it is than with one thread.
    pub speedup: String,
    pub input_mib: String,
    pub output_mib: String,
}

/// The time by hand, or what stands for it.
pub open spec fn manual_time(t: RowTexts, none: Seq<char>) -> Seq<char> {
    match t.manual {
        Some(m) => m.0@,
        None => none,
    }
}

/// The ratio to the time by hand, or what stands for it.
pub open spec fn manual_ratio(t: RowTexts, none: Seq<char>) -> Seq<char> {
    match t.manual {
        Some(m) => m.1@,
        None => none,
    }
}

fn manual_cells(t: &RowTexts, none: &str) -> (r: (String, String))
    ensures
        r.0@ == manual_time(*t, none@),
        r.1@ == manual_ratio(*t, none@),
{
    match &t.manual {
        Some(m) => (copy_str(m.0.as_str()), copy_str(m.1.as_str())),
        None => (copy_str(none), copy_str(none)),
    }
}

/// The first cells of a row on the screen.
pub open spec fn row_head(row: BenchRow) -> Seq<char> {
    left(row.scale@, 8) + " "@ + right(text::number_text(row.nested as nat), 7) + " "@ + right(
        text::number_text(row.threads as nat),
        8,
    ) + " "@
}

fn head_of(row: &BenchRow) -> (r: String)
    ensures
        r@ == row_head(*row),
{
    let mut s = align_left(row.scale.as_str(), 8);
    s.append(" ");
    s.append(align_right(show_usize(row.nested).as_str(), 7).as_str());
    s.append(" ");
    s.append(align_right(show_u64(row.threads as u64).as_str(), 8).as_str());
    s.append(" ");
    s
}

/// A row on the screen, with or without the columns for times by hand.
pub open spec fn screen_text(row: BenchRow, t: RowTexts, has_manual: bool) -> Seq<char> {
    if has_manual {
        row_head(row) + right(t.seconds@, 10) + " "@ + right(manual_time(t, "—"@), 10) + " "@
            + right(manual_ratio(t, "—"@), 10) + " "@ + right(t.speedup@, 9) + "x "@ + right(
            t.input_mib@,
            12,
        )
    } else {
        row_head(row) + right(t.seconds@, 10) + " "@ + right(t.input_mib@, 12) + " "@ + right(
            t.output_mib@,
            12,
        ) + " "@ + right(t.speedup@, 7) + "x"@
    }
}

/// A row on the screen, with or without the columns for times by hand.
pub fn screen_line(row: &BenchRow, t: &RowTexts, has_manual: bool) -> (r: String)
    ensures
        r@ == screen_text(*row, *t, has_manual),
{
    let mut s = head_of(row);
    s.append(align_right(t.seconds.as_str(), 10).as_str());
    s.append(" ");
    if has_manual {
        let (time, ratio) = manual_cells(t, "—");
        s.append(align_right(time.as_str(), 10).as_str());
        s.append(" ");
        s.append(align_right(ratio.as_str(), 10).as_str());
        s.append(" ");
        s.append(align_right(t.speedup.as_str(), 9).as_str());
        s.append("x ");
        s.append(align_right(t.input_mib.as_str(), 12).as_str());
    } else {
        s.append(align_right(t.input_mib.as_str(), 12).as_str());
        s.append(" ");
        s.append(align_right(t.output_mib.as_str(), 12).as_str());
        s.append(" ");
        s.append(align_right(t.speedup.as_str(), 7).as_str());
        s.append("x");
    }
    s
}

/// A row of comma-separated values. What is missing stays empty.
pub open spec fn csv_text(row: BenchRow, t: RowTexts) -> Seq<char> {
    row.scale@ + ","@ + text::number_text(row.nested as nat) + ","@ + text::number_text(
        row.threads as nat,
    ) + ","@ + t.seconds@ + ","@ + manual_time(t, ""@) + ","@ + manual_ratio(t, ""@) + ","@
        + text::number_text(row.input_bytes as nat) + ","@ + text::number_text(
        row.output_bytes as nat,
    ) + ","@ + t.speedup@
}

/// A row of comma-separated values. What is missing stays empty.
pub fn csv_line(row: &BenchRow, t: &RowTexts) -> (r: String)
    ensures
        r@ == csv_text(*row, *t),
{
    let (time, ratio) = manual_cells(t, "");
    let mut s = concat5(
        row.scale.as_str(),
        ",",
        show_usize(row.nested).as_str(),
        ",",
        show_u64(row.threads as u64).as_str(),
    );
    s.append(",");
    s.append(t.seconds.as_str());
    s.append(",");
    s.append(time.as_str());
    s.append(",");
    s.append(ratio.as_str());
    s.append(",");
    s.append(show_u64(row.input_bytes).as_str());
    s.append(",");
    s.append(show_u64(row.output_bytes).as_str());
    s.append(",");
    s.append(t.speedup.as_str());
    s
}

/// The first cells of a row of a Markdown table.
pub open spec fn markdown_head(row: BenchRow, t: RowTexts) -> Seq<char> {
    "| "@ + row.scale@ + " | "@ + text::number_text(row.nested as nat) + " | "@
        + text::number_text(row.threads as nat) + " | "@ + t.seconds@ + " | "@
}

/// A row of a Markdown table, with or without the columns for times by hand.
pub open spec fn markdown_text(row: BenchRow, t: RowTexts, has_manual: bool) -> Seq<char> {
    if has_manual {
        markdown_head(row, t) + manual_time(t, "—"@) + " | "@ + manual_ratio(t, "—"@) + " | "@
            + t.speedup@ + "x | "@ + t.input_mib@ + " |"@
    } else {
        markdown_head(row, t) + t.input_mib@ + " | "@ + t.output_mib@ + " | "@ + t.speedup@
            + "x |"@
    }
}

/// A row of a Markdown table, with or without the columns for times by hand.
pub fn markdown_line(row: &BenchRow, t: &RowTexts, has_manual: bool) -> (r: String)
    ensures
        r@ == markdown_text(*row, *t, has_manual),
{
    let mut s = concat5(
        "| ",
        row.scale.as_str(),
        " | ",
        show_usize(row.nested).as_str(),
        " | ",
    );
    s.append(show_u64(row.threads as u64).as_str());
    s.append(" | ");
    s.append(t.seconds.as_str());
    s.append(" | ");
    if has_manual {
        let (time, ratio) = manual_cells(t, "—");
        s.append(time.as_str());
        s.append(" | ");
        s.append(ratio.as_str());
        s.append(" | ");
        s.append(t.speedup.as_str());
        s.append("x | ");
        s.append(t.input_mib.as_str());
        s.append(" |");
    } else {
        s.append(t.input_mib.as_str());
        s.append(" | ");
        s.append(t.output_mib.as_str());
        s.append(" | ");
        s.append(t.speedup.as_str());
        s.append("x |");
    }
    s
}

/// The heading of the table on the screen.
pub open spec fn heading_text(has_manual: bool) -> Seq<char> {
    left("scale"@, 8) + " "@ + right("nested"@, 7) + " "@ + right("threads"@, 8) + " "@ + (
    if has_manual {
        right("tool_s"@, 10) + " "@ + right("manual_s"@, 10) + " "@ + right("ratio"@, 10) + " "@
            + right("vs_t1"@, 10) + " "@ + right("input_MiB"@, 12)
    } else {
        right("seconds"@, 10) + " "@ + right("input_MiB"@, 12) + " "@ + right("output_MiB"@, 12)
            + " "@ + right("speedup"@, 8)
    })
}

/// The heading of the table on the screen.
pub fn screen_heading(has_manual: bool) -> (r: String)
    ensures
        r@ == heading_text(has_manual),
{
    let mut s = align_left("scale", 8);
    s.append(" ");
    s.append(align_right("nested", 7).as_str());
    s.append(" ");
    s.append(align_right("threads", 8).as_str());
    s.append(" ");
    if has_manual {
        s.append(align_right("tool_s", 10).as_str());
        s.append(" ");
        s.append(align_right("manual_s", 10).as_str());
        s.append(" ");
        s.append(align_right("ratio", 10).as_str());
        s.append(" ");
        s.append(align_right("vs_t1", 10).as_str());
        s.append(" ");
        s.append(align_right("input_MiB", 12).as_str());
    } else {
        s.append(align_right("seconds", 10).as_str());
        s.append(" ");
        s.append(align_right("input_MiB", 12).as_str());
        s.append(" ");
        s.append(align_right("output_MiB", 12).as_str());
        s.append(" ");
        s.append(align_right("speedup", 8).as_str());
    }
    assert(s@ =~= heading_text(has_manual));
    s
}

/// Law: a cell is as wide as its column, unless its text is wider.
pub proof fn law_columns_line_up(s: Seq<char>, width: nat)
    ensures
        s.len() <= width ==> right(s, width).len() == width && left(s, width).len() == width,
        right(s, width).len() >= s.len(),
        left(s, width).len() >= s.len(),
{
}

} // verus!
