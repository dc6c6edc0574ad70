//! Command lines for the 7z program, and what its answers mean.

use crate::archive::sevenz;
use crate::archive::sevenz::{parse_archive_solid, parse_ba_listing, parse_slt_listing};
use crate::archive::types;
use crate::archive::types::{EntryMeta, PackOptions};
use crate::error::{Error, ErrorView, Result};
use crate::util::pathnorm;
use crate::util::pathnorm::{normalize_member_path, tail_after};
use crate::util::text;
use crate::util::text::{
    chars_of, concat2, concat3, copy_str, lines_of, same_text, show_u64, string_of,
};
use vstd::prelude::*;

verus! {

// ---------------------------------------------------------------------------------------------
// Finding the program
// ---------------------------------------------------------------------------------------------
/// The names under which the 7z program is looked for, the best first.
pub fn binary_names() -> (r: Vec<String>)
    ensures
        text::texts(r@) == seq!["7zz"@, "7z"@, "7za"@],
{
    let mut v: Vec<String> = Vec::new();
    v.push(copy_str("7zz"));
    v.push(copy_str("7z"));
    v.push(copy_str("7za"));
    assert(text::texts(v@) =~= seq!["7zz"@, "7z"@, "7za"@]);
    v
}

/// Where the 7z program may be below the user's home directory.
pub fn local_7z_paths(home: &str) -> (r: Vec<String>)
    ensures
        text::texts(r@) == seq![
            crate::util::textpath::join(home@, ".local/bin/7zz"@),
            crate::util::textpath::join(home@, ".local/bin/7z"@),
        ],
{
    let mut v: Vec<String> = Vec::new();
    v.push(crate::util::textpath::path_join(home, ".local/bin/7zz"));
    v.push(crate::util::textpath::path_join(home, ".local/bin/7z"));
    assert(text::texts(v@) =~= seq![
        crate::util::textpath::join(home@, ".local/bin/7zz"@),
        crate::util::textpath::join(home@, ".local/bin/7z"@),
    ]);
    v
}

/// The first program that was found among those that were looked for.
pub open spec fn first_found(found: Seq<Option<String>>) -> Option<Seq<char>>
    decreases found.len(),
{
    if found.len() == 0 {
        None
    } else {
        match found[0] {
            Some(p) => Some(p@),
            None => first_found(found.skip(1)),
        }
    }
}

/// The program to use, given for each place that was looked at what was found there.
pub fn find_7z_binary(found: &[Option<String>]) -> (r: Result<String>)
    ensures
        match r {
            Ok(p) => first_found(found@) == Some(p@),
            Err(e) => first_found(found@) is None && e@ == ErrorView::BackendMissing(
                "no 7zz/7z/7za found on PATH; install p7zip or 7-Zip"@,
            ),
        },
{
    let mut i: usize = 0;
    assert(found@.skip(0) =~= found@);
    while i < found.len()
        invariant
            i <= found.len(),
            first_found(found@) == first_found(found@.skip(i as int)),
        decreases found.len() - i,
    {
        if let Some(p) = &found[i] {
            return Ok(copy_str(p.as_str()));
        }
        assert(found@.skip(i as int).skip(1) =~= found@.skip(i + 1));
        i += 1;
    }
    Err(
        Error::BackendMissing(
            copy_str("no 7zz/7z/7za found on PATH; install p7zip or 7-Zip"),
        ),
    )
}

// ---------------------------------------------------------------------------------------------
// Answers
// ---------------------------------------------------------------------------------------------
/// What a program left behind.
#[derive(Debug, Clone)]
pub struct CommandOutput {
    /// Its exit code; none where a signal ended it.
    pub code: Option<i32>,
    pub stdout: String,
    pub stderr: String,
}

/// How the standard library writes a list of texts for debugging.
pub uninterp spec fn debug_list(items: Seq<Seq<char>>) -> Seq<char>;

/// The `Debug` form that `std::fmt` gives a list of strings: depends on the strings alone.
#[verifier::external_body]
fn debug_strings(items: &[String]) -> (r: String)
    ensures
        r@ == debug_list(text::texts(items@)),
{
    format!("{items:?}")
}

/// A code above 1, and no code at all, is a failure; 0 is success and 1 a warning.
pub open spec fn failed(code: Option<i32>) -> bool {
    match code {
        Some(c) => c > 1,
        None => true,
    }
}

/// An exit code in words.
pub open spec fn code_text(code: Option<i32>) -> Seq<char> {
    match code {
        Some(c) => "Some("@ + text::number_text(c as nat) + ")"@,
        None => "None"@,
    }
}

/// The error for a command that failed.
pub open spec fn command_error(args: Seq<Seq<char>>, out: CommandOutput) -> ErrorView {
    ErrorView::BackendFailed(
        "7z "@ + debug_list(args) + " failed (code "@ + code_text(out.code) + "): "@ + out.stderr@
            + out.stdout@,
    )
}

/// Tells success from failure.
pub fn check_output(args: &[String], out: &CommandOutput) -> (r: Result<()>)
    ensures
        match r {
            Ok(_) => !failed(out.code),
            Err(e) => failed(out.code) && e@ == command_error(text::texts(args@), *out),
        },
{
    let code = match out.code {
        Some(c) => {
            if c <= 1 {
                return Ok(());
            }
            let n = show_u64(c as u64);
            concat3("Some(", n.as_str(), ")")
        },
        None => copy_str("None"),
    };
    let shown = debug_strings(args);
    let mut m = text::concat5("7z ", shown.as_str(), " failed (code ", code.as_str(), "): ");
    m.append(out.stderr.as_str());
    m.append(out.stdout.as_str());
    Err(Error::BackendFailed(m))
}

/// A member among extracted files, given by their paths below the directory and their names.
pub open spec fn is_extracted(path: Seq<char>, name: Seq<char>, member: Seq<char>) -> bool {
    let want = pathnorm::normalized(member);
    pathnorm::normalized(path) == want || name == pathnorm::after_last(want, '/')
}

/// The 7z program.
#[derive(Debug, Clone)]
pub struct SevenZCli {
    pub binary: String,
}

/// One text behind a list of texts.
fn push_text(v: &mut Vec<String>, s: &str)
    ensures
        text::texts(final(v)@) == text::texts(old(v)@).push(s@),
{
    let ghost before = v@;
    v.push(copy_str(s));
    assert(text::texts(v@) =~= text::texts(before).push(s@));
}

/// A list of no texts.
fn no_texts() -> (r: Vec<String>)
    ensures
        text::texts(r@) == Seq::<Seq<char>>::empty(),
{
    let v: Vec<String> = Vec::new();
    assert(text::texts(v@) =~= Seq::<Seq<char>>::empty());
    v
}

/// The arguments of the extraction below a directory.
pub open spec fn extract_words(archive: Seq<char>, dest_dir: Seq<char>) -> Seq<Seq<char>> {
    seq!["x"@, "-y"@, "-o"@ + dest_dir, archive]
}

/// The exclusion arguments for globs.
pub open spec fn exclusions(globs: Seq<Seq<char>>) -> Seq<Seq<char>> {
    globs.map_values(|g: Seq<char>| "-x!"@ + g)
}

/// The arguments of packing the current directory.
pub open spec fn pack_words(dest: Seq<char>, opts: PackOptions) -> Seq<Seq<char>> {
    let solid = if opts.non_solid {
        seq!["-ms=off"@]
    } else {
        Seq::<Seq<char>>::empty()
    };
    let threads = match opts.threads {
        Some(t) => "-mmt="@ + text::number_text(t as nat),
        None => "-mmt=on"@,
    };
    seq!["a"@, "-t7z"@, "-mx="@ + text::number_text(opts.level as nat), "-y"@] + solid + seq![
        threads,
        dest,
        "."@,
    ]
}

impl SevenZCli {
    /// The program at a path.
    pub fn new(binary: String) -> (r: Self)
        ensures
            r.binary@ == binary@,
    {
        SevenZCli { binary }
    }

    /// The program, given for each place that was looked at what was found there.
    pub fn discover(found: &[Option<String>]) -> (r: Result<Self>)
        ensures
            match r {
                Ok(c) => first_found(found@) == Some(c.binary@),
                Err(e) => first_found(found@) is None && e@ == ErrorView::BackendMissing(
                    "no 7zz/7z/7za found on PATH; install p7zip or 7-Zip"@,
                ),
            },
    {
        match find_7z_binary(found) {
            Ok(p) => Ok(SevenZCli::new(p)),
            Err(e) => Err(e),
        }
    }

    /// The path of the program.
    pub fn binary(&self) -> (r: &str)
        ensures
            r@ == self.binary@,
    {
        self.binary.as_str()
    }

    /// The first line of what the program prints without arguments.
    pub fn version_line(stdout: &str) -> (r: String)
        ensures
            r@ == (if text::lines(stdout@).len() > 0 {
                text::lines(stdout@)[0]
            } else {
                "7z (unknown version)"@
            }),
    {
        let chars = chars_of(stdout);
        let lines = lines_of(chars.as_slice());
        if lines.len() > 0 {
            assert(text::rows(lines@)[0] == lines@[0]@);
            string_of(lines[0].as_slice())
        } else {
            copy_str("7z (unknown version)")
        }
    }

    /// The arguments of the technical listing.
    pub fn technical_args(archive: &str) -> (r: Vec<String>)
        ensures
            text::texts(r@) == seq!["l"@, "-slt"@, "-ba"@, archive@],
    {
        let mut v = no_texts();
        push_text(&mut v, "l");
        push_text(&mut v, "-slt");
        push_text(&mut v, "-ba");
        push_text(&mut v, archive);
        assert(text::texts(v@) =~= seq!["l"@, "-slt"@, "-ba"@, archive@]);
        v
    }

    /// The arguments of the compact listing.
    pub fn basic_args(archive: &str) -> (r: Vec<String>)
        ensures
            text::texts(r@) == seq!["l"@, "-ba"@, archive@],
    {
        let mut v = no_texts();
        push_text(&mut v, "l");
        push_text(&mut v, "-ba");
        push_text(&mut v, archive);
        assert(text::texts(v@) =~= seq!["l"@, "-ba"@, archive@]);
        v
    }

    /// The arguments of the full listing, which shows the archive itself too.
    pub fn solid_args(archive: &str) -> (r: Vec<String>)
        ensures
            text::texts(r@) == seq!["l"@, "-slt"@, archive@],
    {
        let mut v = no_texts();
        push_text(&mut v, "l");
        push_text(&mut v, "-slt");
        push_text(&mut v, archive);
        assert(text::texts(v@) =~= seq!["l"@, "-slt"@, archive@]);
        v
    }

    /// The members that the technical listing shows.
    pub fn list_technical(archive: &str, out: &CommandOutput) -> (r: Result<Vec<EntryMeta>>)
        ensures
            match r {
                Ok(v) => !failed(out.code) && types::entry_views(v@) == sevenz::technical_entries(
                    text::lines(out.stdout@),
                ),
                Err(e) => failed(out.code) && e@ == command_error(
                    seq!["l"@, "-slt"@, "-ba"@, archive@],
                    *out,
                ),
            },
    {
        let args = SevenZCli::technical_args(archive);
        match check_output(args.as_slice(), out) {
            Ok(_) => parse_slt_listing(out.stdout.as_str()),
            Err(e) => Err(e),
        }
    }

    /// The members that the compact listing shows.
    pub fn list_basic(archive: &str, out: &CommandOutput) -> (r: Result<Vec<EntryMeta>>)
        ensures
            match r {
                Ok(v) => !failed(out.code) && types::entry_views(v@) == sevenz::compact_entries(
                    text::lines(out.stdout@),
                ),
                Err(e) => failed(out.code) && e@ == command_error(
                    seq!["l"@, "-ba"@, archive@],
                    *out,
                ),
            },
    {
        let args = SevenZCli::basic_args(archive);
        match check_output(args.as_slice(), out) {
            Ok(_) => parse_ba_listing(out.stdout.as_str()),
            Err(e) => Err(e),
        }
    }

    /// Whether the compact listing is of no use, so that the technical one is asked for: it
    /// failed or showed nothing.
    pub fn needs_technical(basic: &Result<Vec<EntryMeta>>) -> (r: bool)
        ensures
            r == (basic is Err || basic->Ok_0@.len() == 0),
    {
        match basic {
            Ok(v) => v.len() == 0,
            Err(_) => true,
        }
    }

    /// Whether the full listing says that the archive is solid.
    pub fn archive_is_solid(archive: &str, out: &CommandOutput) -> (r: Result<bool>)
        ensures
            match r {
                Ok(b) => !failed(out.code) && b == sevenz::listing_solid(out.stdout@),
                Err(e) => failed(out.code) && e@ == command_error(
                    seq!["l"@, "-slt"@, archive@],
                    *out,
                ),
            },
    {
        let args = SevenZCli::solid_args(archive);
        match check_output(args.as_slice(), out) {
            Ok(_) => Ok(parse_archive_solid(out.stdout.as_str())),
            Err(e) => Err(e),
        }
    }

    /// The arguments of extracting everything below a directory.
    pub fn extract_all_args(archive: &str, dest_dir: &str) -> (r: Vec<String>)
        ensures
            text::texts(r@) == extract_words(archive@, dest_dir@),
    {
        let mut v = no_texts();
        push_text(&mut v, "x");
        push_text(&mut v, "-y");
        let out = concat2("-o", dest_dir);
        push_text(&mut v, out.as_str());
        push_text(&mut v, archive);
        assert(text::texts(v@) =~= extract_words(archive@, dest_dir@));
        v
    }

    /// The arguments of extracting some members below a directory in one run.
    pub fn extract_members_args(archive: &str, members: &[String], dest_dir: &str) -> (r: Vec<
        String,
    >)
        ensures
            text::texts(r@) == extract_words(archive@, dest_dir@) + text::texts(members@),
    {
        let mut v = SevenZCli::extract_all_args(archive, dest_dir);
        let ghost start = text::texts(v@);
        let ghost all = text::texts(members@);
        let mut i: usize = 0;
        assert(start + all.take(0) =~= start);
        while i < members.len()
            invariant
                i <= members.len(),
                all == text::texts(members@),
                text::texts(v@) == start + all.take(i as int),
            decreases members.len() - i,
        {
            push_text(&mut v, members[i].as_str());
            i += 1;
            assert(text::texts(v@) =~= start + all.take(i as int));
        }
        assert(all.take(i as int) =~= all);
        v
    }

    /// The arguments of extracting everything but what a glob matches.
    pub fn extract_excludes_args(archive: &str, dest_dir: &str, globs: &[String]) -> (r: Vec<
        String,
    >)
        ensures
            text::texts(r@) == extract_words(archive@, dest_dir@) + exclusions(
                text::texts(globs@),
            ),
    {
        let mut v = SevenZCli::extract_all_args(archive, dest_dir);
        let ghost start = text::texts(v@);
        let ghost all = exclusions(text::texts(globs@));
        let mut i: usize = 0;
        assert(start + all.take(0) =~= start);
        while i < globs.len()
            invariant
                i <= globs.len(),
                all == exclusions(text::texts(globs@)),
                text::texts(v@) == start + all.take(i as int),
            decreases globs.len() - i,
        {
            let x = concat2("-x!", globs[i].as_str());
            assert(all[i as int] == x@);
            push_text(&mut v, x.as_str());
            i += 1;
            assert(text::texts(v@) =~= start + all.take(i as int));
        }
        assert(all.take(i as int) =~= all);
        v
    }

    /// The arguments of sending one member to the standard output.
    pub fn stream_member_args(archive: &str, member: &str) -> (r: Vec<String>)
        ensures
            text::texts(r@) == seq!["e"@, "-so"@, "-y"@, archive@, member@],
    {
        let mut v = no_texts();
        push_text(&mut v, "e");
        push_text(&mut v, "-so");
        push_text(&mut v, "-y");
        push_text(&mut v, archive);
        push_text(&mut v, member);
        assert(text::texts(v@) =~= seq!["e"@, "-so"@, "-y"@, archive@, member@]);
        v
    }

    /// The arguments of testing an archive.
    pub fn test_args(archive: &str) -> (r: Vec<String>)
        ensures
            text::texts(r@) == seq!["t"@, archive@],
    {
        let mut v = no_texts();
        push_text(&mut v, "t");
        push_text(&mut v, archive);
        assert(text::texts(v@) =~= seq!["t"@, archive@]);
        v
    }

    /// The arguments of packing the current directory into a new archive.
    pub fn pack_args(dest_archive: &str, opts: &PackOptions) -> (r: Vec<String>)
        ensures
            text::texts(r@) == pack_words(dest_archive@, *opts),
    {
        let mut v = no_texts();
        push_text(&mut v, "a");
        push_text(&mut v, "-t7z");
        let level = concat2("-mx=", show_u64(opts.level as u64).as_str());
        push_text(&mut v, level.as_str());
        push_text(&mut v, "-y");
        if opts.non_solid {
            push_text(&mut v, "-ms=off");
        }
        let threads = match opts.threads {
            Some(t) => concat2("-mmt=", show_u64(t as u64).as_str()),
            None => copy_str("-mmt=on"),
        };
        push_text(&mut v, threads.as_str());
        push_text(&mut v, dest_archive);
        push_text(&mut v, ".");
        assert(text::texts(v@) =~= pack_words(dest_archive@, *opts));
        v
    }

    /// Whether a member was streamed to its file: the program did not fail, and the file is there.
    pub fn streamed(code: Option<i32>, exists: bool) -> (r: bool)
        ensures
            r == (!failed(code) && exists),
    {
        let bad = match code {
            Some(c) => c > 1,
            None => true,
        };
        !bad && exists
    }

    /// Tells from the answer, and from whether the archive exists now, whether packing succeeded.
    pub fn check_pack(dest_archive: &str, out: &CommandOutput, exists: bool) -> (r: Result<()>)
        ensures
            match r {
                Ok(_) => !failed(out.code) && exists,
                Err(e) => if failed(out.code) {
                    e@ == ErrorView::BackendFailed(
                        "7z pack failed: "@ + out.stderr@ + out.stdout@,
                    )
                } else {
                    !exists && e@ == ErrorView::BackendFailed(
                        "pack did not create "@ + dest_archive@,
                    )
                },
            },
    {
        let bad = match out.code {
            Some(c) => c > 1,
            None => true,
        };
        if bad {
            return Err(
                Error::BackendFailed(
                    concat3("7z pack failed: ", out.stderr.as_str(), out.stdout.as_str()),
                ),
            );
        }
        if !exists {
            return Err(Error::BackendFailed(concat2("pack did not create ", dest_archive)));
        }
        Ok(())
    }

    /// The first of the extracted files (their paths below the directory, and their names) that
    /// is the member.
    pub fn find_extracted_file(paths: &[String], names: &[String], member: &str) -> (r: Result<
        usize,
    >)
        requires
            paths@.len() == names@.len(),
        ensures
            match r {
                Ok(i) => i < paths@.len() && is_extracted(
                    paths@[i as int]@,
                    names@[i as int]@,
                    member@,
                ) && forall|k: int|
                    0 <= k < i ==> !is_extracted(
                        (#[trigger] paths@[k])@,
                        names@[k]@,
                        member@,
                    ),
                Err(e) => e@ == ErrorView::EntryNotFound(member@) && forall|k: int|
                    0 <= k < paths@.len() ==> !is_extracted(
                        (#[trigger] paths@[k])@,
                        names@[k]@,
                        member@,
                    ),
            },
    {
        let want = normalize_member_path(member);
        let chars = chars_of(want.as_str());
        let base = string_of(tail_after(chars.as_slice(), '/'));
        let mut i: usize = 0;
        while i < paths.len()
            invariant
                i <= paths.len(),
                paths@.len() == names@.len(),
                want@ == pathnorm::normalized(member@),
                base@ == pathnorm::after_last(want@, '/'),
                forall|k: int|
                    0 <= k < i ==> !is_extracted(
                        (#[trigger] paths@[k])@,
                        names@[k]@,
                        member@,
                    ),
            decreases paths.len() - i,
        {
            let norm = normalize_member_path(paths[i].as_str());
            if same_text(norm.as_str(), want.as_str()) || same_text(
                names[i].as_str(),
                base.as_str(),
            ) {
                return Ok(i);
            }
            i += 1;
        }
        Err(Error::EntryNotFound(copy_str(member)))
    }
}

} // verus!
