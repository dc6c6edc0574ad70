//! The archives that are measured: how many, how large, and what is in them.

use crate::util::text;
use crate::util::text::{
    chars_of, concat2, concat3, concat4, concat5, copy_str, show_padded, show_u64, show_usize,
};
use vstd::prelude::*;

verus! {

/// The names of the built-in scales.
#[derive(Debug, Clone, Copy, PartialEq, Eq, Structural)]
pub enum ScaleName {
    Tiny,
    Small,
    Quick,
    Full,
}

/// How much is measured.
#[derive(Debug)]
pub struct Scale {
    pub name: &'static str,
    /// How large the files of a nested archive are together.
    pub size_mib: u64,
    /// How many files a nested archive has.
    pub files: u64,
    /// How many nested archives each outer archive has.
    pub nested_counts: Vec<usize>,
}

/// The contents of a [`Scale`].
#[verifier::ext_equal]
pub struct ScaleView {
    pub name: Seq<char>,
    pub size_mib: u64,
    pub files: u64,
    pub nested_counts: Seq<usize>,
}

impl View for Scale {
    type V = ScaleView;

    open spec fn view(&self) -> ScaleView {
        ScaleView {
            name: self.name@,
            size_mib: self.size_mib,
            files: self.files,
            nested_counts: self.nested_counts@,
        }
    }
}

/// The built-in scale of a name.
pub open spec fn scale_of(name: ScaleName) -> ScaleView {
    match name {
        ScaleName::Tiny => ScaleView {
            name: "tiny"@,
            size_mib: 1,
            files: 200,
            nested_counts: seq![1usize, 2],
        },
        ScaleName::Small => ScaleView {
            name: "small"@,
            size_mib: 4,
            files: 2_000,
            nested_counts: seq![1usize, 2, 4],
        },
        ScaleName::Quick => ScaleView {
            name: "quick"@,
            size_mib: 16,
            files: 10_000,
            nested_counts: seq![1usize, 2, 4],
        },
        ScaleName::Full => ScaleView {
            name: "full"@,
            size_mib: 300,
            files: 1_000_000,
            nested_counts: seq![1usize, 2, 4, 10],
        },
    }
}

/// The scale with what was asked for in place of what is built in.
pub open spec fn overridden(
    s: ScaleView,
    size_mib: Option<u64>,
    files: Option<u64>,
    nested_counts: Option<Seq<usize>>,
) -> ScaleView {
    ScaleView {
        name: s.name,
        size_mib: match size_mib {
            Some(n) => n,
            None => s.size_mib,
        },
        files: match files {
            Some(n) => n,
            None => s.files,
        },
        nested_counts: match nested_counts {
            Some(v) => v,
            None => s.nested_counts,
        },
    }
}

/// A copy of a list of numbers.
pub fn copy_counts(v: &[usize]) -> (r: Vec<usize>)
    ensures
        r@ == v@,
{
    vstd::slice::slice_to_vec(v)
}

impl Scale {
    /// The built-in scale of a name.
    pub fn from_name(name: ScaleName) -> (r: Self)
        ensures
            r@ == scale_of(name),
    {
        match name {
            ScaleName::Tiny => Scale {
                name: "tiny",
                size_mib: 1,
                files: 200,
                nested_counts: vec![1, 2],
            },
            ScaleName::Small => Scale {
                name: "small",
                size_mib: 4,
                files: 2_000,
                nested_counts: vec![1, 2, 4],
            },
            ScaleName::Quick => Scale {
                name: "quick",
                size_mib: 16,
                files: 10_000,
                nested_counts: vec![1, 2, 4],
            },
            ScaleName::Full => Scale {
                name: "full",
                size_mib: 300,
                files: 1_000_000,
                nested_counts: vec![1, 2, 4, 10],
            },
        }
    }

    /// Puts what was asked for in place of what is built in.
    pub fn apply_overrides(
        &mut self,
        size_mib: Option<u64>,
        files: Option<u64>,
        nested_counts: Option<&[usize]>,
    )
        ensures
            final(self)@ == overridden(
                old(self)@,
                size_mib,
                files,
                match nested_counts {
                    Some(v) => Some(v@),
                    None => None,
                },
            ),
    {
        if let Some(n) = size_mib {
            self.size_mib = n;
        }
        if let Some(n) = files {
            self.files = n;
        }
        if let Some(v) = nested_counts {
            self.nested_counts = copy_counts(v);
        }
    }
}

/// The scale that is asked for; the short flag stands for the scale `quick`.
pub fn resolve_scale_name(scale: ScaleName, quick_flag: bool) -> (r: ScaleName)
    ensures
        r == (if quick_flag {
            ScaleName::Quick
        } else {
            scale
        }),
{
    if quick_flag {
        ScaleName::Quick
    } else {
        scale
    }
}

/// What a scale is meant for.
pub open spec fn intent_of(name: ScaleName) -> Seq<char> {
    match name {
        ScaleName::Tiny => "seconds; smoke / CI"@,
        ScaleName::Small => "default iteration"@,
        ScaleName::Quick => "minutes; denser file count"@,
        ScaleName::Full => "hours; production-shaped"@,
    }
}

/// What a scale is meant for.
pub fn intent(name: ScaleName) -> (r: &'static str)
    ensures
        r@ == intent_of(name),
{
    match name {
        ScaleName::Tiny => "seconds; smoke / CI",
        ScaleName::Small => "default iteration",
        ScaleName::Quick => "minutes; denser file count",
        ScaleName::Full => "hours; production-shaped",
    }
}

// ---------------------------------------------------------------------------------------------
// Names and texts
// ---------------------------------------------------------------------------------------------
/// The numbers with commas between them.
pub open spec fn comma_list(v: Seq<usize>) -> Seq<char>
    decreases v.len(),
{
    if v.len() == 0 {
        Seq::empty()
    } else if v.len() == 1 {
        text::number_text(v[0] as nat)
    } else {
        comma_list(v.drop_last()) + ", "@ + text::number_text(v.last() as nat)
    }
}

/// The numbers with commas between them, in brackets.
pub fn list_text(v: &[usize]) -> (r: String)
    ensures
        r@ == "["@ + comma_list(v@) + "]"@,
{
    let mut s = copy_str("[");
    let mut i: usize = 0;
    assert(v@.take(0) =~= Seq::<usize>::empty());
    assert(s@ =~= "["@ + Seq::<char>::empty());
    while i < v.len()
        invariant
            i <= v.len(),
            s@ == "["@ + comma_list(v@.take(i as int)),
        decreases v.len() - i,
    {
        assert(v@.take(i + 1).drop_last() =~= v@.take(i as int));
        let ghost before = comma_list(v@.take(i as int));
        let n = show_usize(v[i]);
        if i > 0 {
            s.append(", ");
            s.append(n.as_str());
            assert(s@ =~= "["@ + (before + ", "@ + n@));
        } else {
            assert(before =~= Seq::<char>::empty());
            s.append(n.as_str());
            assert(s@ =~= "["@ + n@);
        }
        i += 1;
    }
    assert(v@.take(i as int) =~= v@);
    s.append("]");
    s
}

/// The name of the outer archive with so many nested ones.
pub fn outer_name(n: usize) -> (r: String)
    ensures
        r@ == "outer-"@ + text::number_text(n as nat) + ".7z"@,
{
    concat3("outer-", show_usize(n).as_str(), ".7z")
}

/// The name of the directory in which that outer archive is put together.
pub fn outer_stage_name(n: usize) -> (r: String)
    ensures
        r@ == "outer-"@ + text::number_text(n as nat) + "-stage"@,
{
    concat3("outer-", show_usize(n).as_str(), "-stage")
}

/// The name of a nested archive.
pub fn nested_name(i: usize) -> (r: String)
    ensures
        r@ == "nested-"@ + text::padded(i as nat, 2) + ".7z"@,
{
    concat3("nested-", show_padded(i, 2).as_str(), ".7z")
}

/// The text that lies beside the nested archives.
pub fn readme_text(n: usize) -> (r: String)
    ensures
        r@ == "bench outer with "@ + text::number_text(n as nat) + " nested solid archives\n"@,
{
    concat3("bench outer with ", show_usize(n).as_str(), " nested solid archives\n")
}

/// The text that records a scale.
pub fn marker_text(scale: &Scale, inner_bytes: u64) -> (r: String)
    ensures
        r@ == "name="@ + scale@.name + "\nsize_mib="@ + text::number_text(scale@.size_mib as nat)
            + "\nfiles="@ + text::number_text(scale@.files as nat) + "\nnested_counts="@ + ("["@
            + comma_list(scale@.nested_counts) + "]"@) + "\ninner_bytes="@ + text::number_text(
            inner_bytes as nat,
        ) + "\n"@,
{
    let mut s = concat5(
        "name=",
        scale.name,
        "\nsize_mib=",
        show_u64(scale.size_mib).as_str(),
        "\nfiles=",
    );
    s.append(show_u64(scale.files).as_str());
    s.append("\nnested_counts=");
    s.append(list_text(scale.nested_counts.as_slice()).as_str());
    s.append("\ninner_bytes=");
    s.append(show_u64(inner_bytes).as_str());
    s.append("\n");
    s
}

/// Whether an archive that is there already is used again.
pub fn is_reused(is_file: bool, force: bool) -> (r: bool)
    ensures
        r == (is_file && !force),
{
    is_file && !force
}

/// The arguments with which the 7z program packs a directory into one stream.
pub fn solid_pack_args(dest: &str, level: u32) -> (r: Vec<String>)
    ensures
        text::texts(r@) == seq![
            "a"@,
            "-t7z"@,
            "-mx="@ + text::number_text(level as nat),
            "-ms=on"@,
            "-mmt=on"@,
            "-y"@,
            dest@,
            "."@,
        ],
{
    let mx = concat2("-mx=", show_u64(level as u64).as_str());
    let v: Vec<String> = vec![
        copy_str("a"),
        copy_str("-t7z"),
        mx,
        copy_str("-ms=on"),
        copy_str("-mmt=on"),
        copy_str("-y"),
        copy_str(dest),
        copy_str("."),
    ];
    assert(text::texts(v@) =~= seq![
        "a"@,
        "-t7z"@,
        "-mx="@ + text::number_text(level as nat),
        "-ms=on"@,
        "-mmt=on"@,
        "-y"@,
        dest@,
        "."@,
    ]);
    v
}

// ---------------------------------------------------------------------------------------------
// The files of a nested archive
// ---------------------------------------------------------------------------------------------
/// How large each file is: its share of the whole, and at least 32 bytes.
pub open spec fn share(files: u64, size_mib: u64) -> int {
    let count = if files == 0 {
        1
    } else {
        files as int
    };
    let each = (size_mib * 1_048_576) / count;
    if each < 32 {
        32
    } else {
        each
    }
}

/// How large each file is.
pub fn bytes_per_file(files: u64, size_mib: u64) -> (r: u64)
    requires
        size_mib * 1_048_576 <= u64::MAX,
    ensures
        r == share(files, size_mib),
{
    let target: u64 = size_mib * 1_048_576;
    let count: u64 = if files == 0 {
        1
    } else {
        files
    };
    let each: u64 = target / count;
    if each < 32 {
        32
    } else {
        each
    }
}

/// How many directories the files are spread over: one for fifty files, at least one and at most
/// a thousand.
pub fn directory_count(files: u64) -> (r: u64)
    ensures
        r == (if files / 50 < 1 {
            1
        } else if files / 50 > 1000 {
            1000
        } else {
            files / 50
        }),
        r >= 1,
{
    let n: u64 = files / 50;
    if n < 1 {
        1
    } else if n > 1000 {
        1000
    } else {
        n
    }
}

/// The name of a directory.
pub fn directory_name(d: usize) -> (r: String)
    ensures
        r@ == "d"@ + text::padded(d as nat, 4),
{
    concat2("d", show_padded(d, 4).as_str())
}

/// The path of file `i`, which lies in the directory that its number leaves over.
pub fn file_path(i: usize, dirs: usize) -> (r: String)
    requires
        dirs >= 1,
    ensures
        r@ == ("d"@ + text::padded((i % dirs) as nat, 4)) + "/f"@ + text::padded(i as nat, 7)
            + ".txt"@,
{
    let dir = directory_name(i % dirs);
    concat4(dir.as_str(), "/f", show_padded(i, 7).as_str(), ".txt")
}

/// `s` followed by whole lines of filler, as long as they fit `len`.
pub open spec fn with_lines(s: Seq<char>, line: Seq<char>, len: int) -> Seq<char>
    decreases len - s.len(),
{
    if line.len() > 0 && s.len() + line.len() <= len {
        with_lines(s + line, line, len)
    } else {
        s
    }
}

/// `s` followed by `x` up to the length `len`.
pub open spec fn with_fill(s: Seq<char>, len: int) -> Seq<char> {
    if s.len() < len {
        s + Seq::new((len - s.len()) as nat, |i: int| 'x')
    } else {
        s
    }
}

/// The line that fills files up.
pub open spec fn filler() -> Seq<char> {
    "lorem ipsum dolor sit amet benchmark line\n"@
}

/// The text of file `i`: its number, lines of filler, and `x` up to its length.
pub fn file_body(i: usize, len: usize) -> (r: String)
    ensures
        r@ == with_fill(
            with_lines("id="@ + text::padded(i as nat, 7) + "\n"@, filler(), len as int),
            len as int,
        ),
{
    let mut body = concat3("id=", show_padded(i, 7).as_str(), "\n");
    let pad = "lorem ipsum dolor sit amet benchmark line\n";
    proof {
        reveal_strlit("lorem ipsum dolor sit amet benchmark line\n");
    }
    let step: usize = chars_of(pad).len();
    let ghost start = body@;
    let mut have: usize = chars_of(body.as_str()).len();
    while step <= len && have <= len - step
        invariant
            step == pad@.len(),
            step > 0,
            pad@ == filler(),
            have == body@.len(),
            with_lines(start, filler(), len as int) == with_lines(body@, filler(), len as int),
        decreases len - have,
    {
        body.append(pad);
        have += step;
    }
    let ghost lines = body@;
    assert(lines == with_lines(start, filler(), len as int));
    assert(body@ =~= lines + Seq::new(0, |i: int| 'x'));
    let ghost first = have;
    while have < len
        invariant
            have == body@.len(),
            first == lines.len(),
            first <= have,
            first <= len ==> have <= len,
            first >= len ==> have == first,
            body@ == lines + Seq::new((have - first) as nat, |i: int| 'x'),
        decreases len - have,
    {
        body.push('x');
        have += 1;
        assert(body@ =~= lines + Seq::new((have - first) as nat, |i: int| 'x'));
    }
    assert(first >= len ==> body@ =~= lines);
    body
}

/// Law: a file is as long as it should be, unless its number alone is longer.
pub proof fn law_body_has_length(start: Seq<char>, line: Seq<char>, len: int)
    requires
        start.len() <= len,
    ensures
        with_fill(with_lines(start, line, len), len).len() == len,
        with_lines(start, line, len).len() <= len,
    decreases len - start.len(),
{
    if line.len() > 0 && start.len() + line.len() <= len {
        law_body_has_length(start + line, line, len);
    }
}

// ---------------------------------------------------------------------------------------------
// The cells of a measurement
// ---------------------------------------------------------------------------------------------
/// Every number of nested archives with every number of threads, in this order.
pub open spec fn cells(counts: Seq<usize>, threads: Seq<u32>) -> Seq<(usize, u32)>
    decreases counts.len(),
{
    if counts.len() == 0 {
        Seq::empty()
    } else {
        cells(counts.drop_last(), threads) + Seq::new(
            threads.len(),
            |i: int| (counts.last(), threads[i]),
        )
    }
}

/// Every number of nested archives with every number of threads.
pub fn bench_cells(counts: &[usize], threads: &[u32]) -> (r: Vec<(usize, u32)>)
    ensures
        r@ == cells(counts@, threads@),
{
    let mut out: Vec<(usize, u32)> = Vec::new();
    let mut i: usize = 0;
    assert(counts@.take(0) =~= Seq::<usize>::empty());
    while i < counts.len()
        invariant
            i <= counts.len(),
            out@ == cells(counts@.take(i as int), threads@),
        decreases counts.len() - i,
    {
        assert(counts@.take(i + 1).drop_last() =~= counts@.take(i as int));
        assert(counts@.take(i + 1).last() == counts@[i as int]);
        let ghost before = out@;
        let n: usize = counts[i];
        let mut j: usize = 0;
        assert(out@ =~= before + Seq::new(0, |k: int| (n, threads@[k])));
        while j < threads.len()
            invariant
                j <= threads.len(),
                out@ == before + Seq::new(j as nat, |k: int| (n, threads@[k])),
            decreases threads.len() - j,
        {
            out.push((n, threads[j]));
            j += 1;
            assert(out@ =~= before + Seq::new(j as nat, |k: int| (n, threads@[k])));
        }
        i += 1;
    }
    assert(counts@.take(i as int) =~= counts@);
    out
}

/// How often a cell is measured: at least once.
pub fn repeat_count(repeats: u32) -> (r: u32)
    ensures
        r == (if repeats == 0 {
            1
        } else {
            repeats
        }),
{
    if repeats == 0 {
        1
    } else {
        repeats
    }
}

/// Whether the output of a measurement is removed: only the last one stays.
pub fn is_intermediate(r: u32, repeats: u32) -> (yes: bool)
    ensures
        yes == (r + 1 < repeats),
{
    r < repeats && repeats - r > 1
}

/// The name of a run: what it is, the number of nested archives, of threads, and of the run.
pub open spec fn run_text(what: Seq<char>, n: nat, threads: nat, r: nat) -> Seq<char> {
    what + "n"@ + text::number_text(n) + "-t"@ + text::number_text(threads) + "-r"@
        + text::number_text(r)
}

/// The name of a run.
pub fn run_name(what: &str, n: usize, threads: u32, r: u32, ending: &str) -> (s: String)
    ensures
        s@ == run_text(what@, n as nat, threads as nat, r as nat) + ending@,
{
    let mut s = concat4(what, "n", show_usize(n).as_str(), "-t");
    s.append(show_u64(threads as u64).as_str());
    s.append("-r");
    s.append(show_u64(r as u64).as_str());
    s.append(ending);
    s
}

/// The name of the output of a run that is not measured.
pub fn warmup_name(n: usize, threads: u32) -> (s: String)
    ensures
        s@ == "warmup-n"@ + text::number_text(n as nat) + "-t"@ + text::number_text(threads as nat)
            + ".7z"@,
{
    concat5("warmup-n", show_usize(n).as_str(), "-t", show_u64(threads as u64).as_str(), ".7z")
}

/// The arguments with which the program converts an archive for a measurement.
pub fn convert_args(input: &str, output: &str, threads: u32, level: u32, temp: &str) -> (r: Vec<
    String,
>)
    ensures
        text::texts(r@) == seq![
            "convert"@,
            input@,
            "-o"@,
            output@,
            "--threads"@,
            text::number_text(threads as nat),
            "--level"@,
            text::number_text(level as nat),
            "--temp-dir"@,
            temp@,
        ],
{
    let v: Vec<String> = vec![
        copy_str("convert"),
        copy_str(input),
        copy_str("-o"),
        copy_str(output),
        copy_str("--threads"),
        show_u64(threads as u64),
        copy_str("--level"),
        show_u64(level as u64),
        copy_str("--temp-dir"),
        copy_str(temp),
    ];
    assert(text::texts(v@) =~= seq![
        "convert"@,
        input@,
        "-o"@,
        output@,
        "--threads"@,
        text::number_text(threads as nat),
        "--level"@,
        text::number_text(level as nat),
        "--temp-dir"@,
        temp@,
    ]);
    v
}

/// What is said when the fixtures of a scale are not there.
pub fn missing_fixtures(root: &str, scale: &str) -> (r: String)
    ensures
        r@ == "missing fixtures at "@ + root@ + " — run: bench_nested generate --scale "@ + scale@,
{
    concat4("missing fixtures at ", root, " — run: bench_nested generate --scale ", scale)
}

/// What is said when an outer archive is not there.
pub fn missing_outer(path: &str) -> (r: String)
    ensures
        r@ == "missing "@ + path@ + " — re-run generate"@,
{
    concat3("missing ", path, " — re-run generate")
}

} // verus!
