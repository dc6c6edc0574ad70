//! Converting by hand with the 7z program, one nested archive at a time.

use crate::error::{Error, ErrorView, Result};
use crate::util::pathnorm;
use crate::util::pathnorm::tail_after;
use crate::util::text;
use crate::util::text::{
    begins_with, chars_of, concat2, copy_str, ends_with, from_pos, has_char, is_text, lines_of,
    same_text, show_u64, string_of, swap_chars, to_lower, trimmed, without_front_text,
};
use vstd::prelude::*;

verus! {

// ---------------------------------------------------------------------------------------------
// The technical listing of the 7z program
// ---------------------------------------------------------------------------------------------
/// One block of a technical listing, as far as it has been read.
#[verifier::ext_equal]
pub struct BlockView {
    pub path: Option<Seq<char>>,
    pub is_dir: bool,
    /// The block describes the archive itself.
    pub is_header: bool,
    /// The block describes a member.
    pub is_member: bool,
}

impl BlockView {
    /// Nothing has been read.
    pub open spec fn nothing() -> BlockView {
        BlockView { path: None, is_dir: false, is_header: false, is_member: false }
    }

    /// The block describes a file.
    pub open spec fn is_file(self) -> bool {
        self.path is Some && self.path->0.len() > 0 && self.is_member && !self.is_dir
            && !self.is_header
    }
}

/// The value of a line, without its key however often that stands there, and without spaces
/// around it.
pub open spec fn value_of(line: Seq<char>, key: Seq<char>) -> Seq<char> {
    text::trim(text::strip_front_text(line, key))
}

/// The paths with that of the block, if it describes a file.
pub open spec fn flushed(paths: Seq<Seq<char>>, b: BlockView) -> Seq<Seq<char>> {
    if b.is_file() {
        paths.push(b.path->0)
    } else {
        paths
    }
}

/// The paths and the block after one line more.
pub open spec fn after_line(paths: Seq<Seq<char>>, b: BlockView, line: Seq<char>) -> (
    Seq<Seq<char>>,
    BlockView,
) {
    let kind = text::lower(value_of(line, "Type = "@));
    let folder = value_of(line, "Folder = "@);
    if text::begins(line, "Path = "@) {
        (
            flushed(paths, b),
            BlockView { path: Some(line.skip(7)), ..BlockView::nothing() },
        )
    } else if text::begins(line, "Type = "@) {
        (paths, BlockView { is_header: b.is_header || kind == "7z"@ || kind == "zip"@, ..b })
    } else if text::begins(line, "Folder = "@) {
        (
            paths,
            BlockView {
                is_dir: folder == "+"@ || text::lower(folder) == "true"@,
                is_member: true,
                ..b
            },
        )
    } else if text::begins(line, "Attributes = "@) {
        (
            paths,
            BlockView {
                is_dir: text::strip_front_text(line, "Attributes = "@).contains('D'),
                is_member: true,
                ..b
            },
        )
    } else if text::begins(line, "Size = "@) {
        (paths, BlockView { is_member: true, ..b })
    } else if line.len() == 0 {
        (flushed(paths, b), BlockView::nothing())
    } else {
        (paths, b)
    }
}

/// The paths and the block after some lines.
pub open spec fn after_lines(lines: Seq<Seq<char>>) -> (Seq<Seq<char>>, BlockView)
    decreases lines.len(),
{
    if lines.len() == 0 {
        (Seq::empty(), BlockView::nothing())
    } else {
        let (paths, b) = after_lines(lines.drop_last());
        after_line(paths, b, lines.last())
    }
}

/// The paths of the files in a technical listing.
pub open spec fn listed_files(listing: Seq<char>) -> Seq<Seq<char>> {
    let (paths, b) = after_lines(text::lines(listing));
    flushed(paths, b)
}

/// One block of a technical listing, as far as it has been read.
struct Block {
    path: Option<String>,
    is_dir: bool,
    is_header: bool,
    is_member: bool,
}

impl View for Block {
    type V = BlockView;

    closed spec fn view(&self) -> BlockView {
        BlockView {
            path: match self.path {
                Some(p) => Some(p@),
                None => None,
            },
            is_dir: self.is_dir,
            is_header: self.is_header,
            is_member: self.is_member,
        }
    }
}

fn no_block() -> (r: Block)
    ensures
        r@ == BlockView::nothing(),
{
    Block { path: None, is_dir: false, is_header: false, is_member: false }
}

fn flush(paths: &mut Vec<String>, b: Block)
    ensures
        text::texts(final(paths)@) == flushed(text::texts(old(paths)@), b@),
{
    if let Some(p) = b.path {
        if b.is_member && !b.is_dir && !b.is_header && chars_of(p.as_str()).len() > 0 {
            let ghost before = paths@;
            let ghost pv = p@;
            paths.push(p);
            assert(text::texts(paths@) =~= text::texts(before).push(pv));
        }
    }
}

fn read_line(paths: &mut Vec<String>, block: Block, line: &[char]) -> (r: Block)
    ensures
        (text::texts(final(paths)@), r@) == after_line(text::texts(old(paths)@), block@, line@),
{
    proof {
        reveal_strlit("Path = ");
    }
    let mut b = block;
    if begins_with(line, "Path = ") {
        flush(paths, b);
        let mut next = no_block();
        next.path = Some(string_of(from_pos(line, 7)));
        return next;
    }
    if begins_with(line, "Type = ") {
        let kind = to_lower(trimmed(without_front_text(line, "Type = ")));
        if is_text(kind.as_slice(), "7z") || is_text(kind.as_slice(), "zip") {
            b.is_header = true;
        }
        return b;
    }
    if begins_with(line, "Folder = ") {
        let v = trimmed(without_front_text(line, "Folder = "));
        let low = to_lower(v);
        b.is_dir = is_text(v, "+") || is_text(low.as_slice(), "true");
        b.is_member = true;
        return b;
    }
    if begins_with(line, "Attributes = ") {
        let v = without_front_text(line, "Attributes = ");
        b.is_dir = has_char(v, 'D');
        b.is_member = true;
        return b;
    }
    if begins_with(line, "Size = ") {
        b.is_member = true;
        return b;
    }
    if line.len() == 0 {
        flush(paths, b);
        return no_block();
    }
    b
}

/// The paths of the files in a technical listing of the archive at a path; a listing without
/// files is an error.
pub fn parse_listing(listing: &str, archive: &str) -> (r: Result<Vec<String>>)
    ensures
        match r {
            Ok(paths) => text::texts(paths@) == listed_files(listing@) && paths@.len() > 0,
            Err(e) => listed_files(listing@).len() == 0 && e@ == ErrorView::Other(
                "no file members listed in "@ + archive@,
            ),
        },
{
    let chars = chars_of(listing);
    let lines = lines_of(chars.as_slice());
    let ghost all = text::rows(lines@);
    let mut paths: Vec<String> = Vec::new();
    let mut block = no_block();
    let mut i: usize = 0;
    assert(all.take(0) =~= Seq::<Seq<char>>::empty());
    assert(text::texts(paths@) =~= Seq::<Seq<char>>::empty());
    while i < lines.len()
        invariant
            i <= lines.len(),
            all == text::rows(lines@),
            after_lines(all.take(i as int)) == (text::texts(paths@), block@),
        decreases lines.len() - i,
    {
        assert(all.take(i + 1).drop_last() =~= all.take(i as int));
        assert(all.take(i + 1).last() == lines@[i as int]@);
        block = read_line(&mut paths, block, lines[i].as_slice());
        i += 1;
    }
    assert(all.take(i as int) =~= all);
    flush(&mut paths, block);
    assert(text::texts(paths@).len() == paths@.len());
    if paths.len() == 0 {
        return Err(Error::Other(concat2("no file members listed in ", archive)));
    }
    Ok(paths)
}

// ---------------------------------------------------------------------------------------------
// Members
// ---------------------------------------------------------------------------------------------
/// What is done with a member of the outer archive.
#[derive(Debug)]
pub enum ManualMember {
    /// It is an archive that is converted and put under this name.
    Nested(String),
    /// It is copied under this name.
    Plain(String),
}

/// What is done with a member: archives are told by the ending of their names, and directories
/// are not kept.
pub fn manual_member(name: &str) -> (r: ManualMember)
    ensures
        text::ends(name@, ".7z"@) ==> r is Nested && r->Nested_0@ == pathnorm::after_last(
            name@,
            '/',
        ),
        !text::ends(name@, ".7z"@) ==> r is Plain && r->Plain_0@ == pathnorm::after_last(
            name@,
            '/',
        ),
{
    let chars = chars_of(name);
    let base = string_of(tail_after(chars.as_slice(), '/'));
    if ends_with(chars.as_slice(), ".7z") {
        ManualMember::Nested(base)
    } else {
        ManualMember::Plain(base)
    }
}

/// One step of converting by hand.
#[derive(Debug)]
pub enum ManualStep {
    /// Extract this member, alone, to an empty directory.
    Extract(String),
    /// The extracted member is an archive: extract it and pack it again, without solid blocks,
    /// under this name.
    Repack(String),
    /// Copy the extracted member under this name.
    Copy(String),
    /// Remove what was extracted.
    Clear,
    /// Pack everything, without solid blocks.
    PackAll,
}

/// The contents of a [`ManualStep`].
#[verifier::ext_equal]
pub enum StepView {
    Extract(Seq<char>),
    Repack(Seq<char>),
    Copy(Seq<char>),
    Clear,
    PackAll,
}

impl View for ManualStep {
    type V = StepView;

    open spec fn view(&self) -> StepView {
        match *self {
            ManualStep::Extract(m) => StepView::Extract(m@),
            ManualStep::Repack(n) => StepView::Repack(n@),
            ManualStep::Copy(n) => StepView::Copy(n@),
            ManualStep::Clear => StepView::Clear,
            ManualStep::PackAll => StepView::PackAll,
        }
    }
}

/// The contents of steps.
pub open spec fn step_views(v: Seq<ManualStep>) -> Seq<StepView> {
    Seq::new(v.len(), |i: int| v[i]@)
}

/// The steps for one member.
pub open spec fn member_steps(name: Seq<char>) -> Seq<StepView> {
    let base = pathnorm::after_last(name, '/');
    seq![
        StepView::Extract(name),
        if text::ends(name, ".7z"@) {
            StepView::Repack(base)
        } else {
            StepView::Copy(base)
        },
        StepView::Clear,
    ]
}

/// The steps for several members, one after the other.
pub open spec fn all_member_steps(names: Seq<Seq<char>>) -> Seq<StepView>
    decreases names.len(),
{
    if names.len() == 0 {
        Seq::empty()
    } else {
        all_member_steps(names.drop_last()) + member_steps(names.last())
    }
}

/// The steps that convert an archive with these members.
pub fn manual_steps(members: &[String]) -> (r: Vec<ManualStep>)
    ensures
        step_views(r@) == all_member_steps(text::texts(members@)).push(StepView::PackAll),
{
    let mut steps: Vec<ManualStep> = Vec::new();
    let mut i: usize = 0;
    let ghost names = text::texts(members@);
    assert(names.take(0) =~= Seq::<Seq<char>>::empty());
    assert(step_views(steps@) =~= Seq::<StepView>::empty());
    while i < members.len()
        invariant
            i <= members.len(),
            names == text::texts(members@),
            step_views(steps@) == all_member_steps(names.take(i as int)),
        decreases members.len() - i,
    {
        let ghost before = steps@;
        let name = members[i].as_str();
        steps.push(ManualStep::Extract(copy_str(name)));
        match manual_member(name) {
            ManualMember::Nested(base) => steps.push(ManualStep::Repack(base)),
            ManualMember::Plain(base) => steps.push(ManualStep::Copy(base)),
        }
        steps.push(ManualStep::Clear);
        assert(step_views(steps@) =~= step_views(before) + member_steps(name@));
        assert(names.take(i + 1).drop_last() =~= names.take(i as int));
        assert(names.take(i + 1).last() == name@);
        i += 1;
    }
    assert(names.take(i as int) =~= names);
    let ghost before = steps@;
    steps.push(ManualStep::PackAll);
    assert(step_views(steps@) =~= step_views(before).push(StepView::PackAll));
    steps
}

/// Law: members are converted one at a time: each is extracted, put in its place and removed
/// before the next, and everything is packed at the end.
pub proof fn law_members_come_in_turn(names: Seq<Seq<char>>, i: int)
    requires
        0 <= i < names.len(),
    ensures
        all_member_steps(names).len() == 3 * names.len(),
        all_member_steps(names).subrange(3 * i, 3 * i + 3) == member_steps(names[i]),
    decreases names.len(),
{
    let d = names.drop_last();
    let front = all_member_steps(d);
    lemma_member_step_count(d);
    if i < d.len() {
        law_members_come_in_turn(d, i);
        assert(d[i] == names[i]);
        assert(all_member_steps(names).subrange(3 * i, 3 * i + 3) =~= front.subrange(
            3 * i,
            3 * i + 3,
        ));
    } else {
        assert(all_member_steps(names).subrange(3 * i, 3 * i + 3) =~= member_steps(names[i]));
    }
}

proof fn lemma_member_step_count(names: Seq<Seq<char>>)
    ensures
        all_member_steps(names).len() == 3 * names.len(),
    decreases names.len(),
{
    if names.len() > 0 {
        lemma_member_step_count(names.drop_last());
    }
}

/// Where an extracted member is looked for first: its path with slashes.
pub fn member_path(member: &str) -> (r: String)
    ensures
        r@ == text::swapped(member@, '\\', '/'),
{
    string_of(swap_chars(chars_of(member).as_slice(), '\\', '/').as_slice())
}

/// The number of the first file that has the base name of a member.
pub open spec fn first_named(names: Seq<Option<String>>, base: Seq<char>, i: int) -> Option<int>
    decreases names.len() - i,
{
    if i < 0 || i >= names.len() {
        None
    } else if names[i] is Some && names[i]->0@ == base {
        Some(i)
    } else {
        first_named(names, base, i + 1)
    }
}

/// The number of the file that stands for a member that is not at its own path: the first one
/// with its base name. `names` are the names of the extracted files, where they are text.
pub fn find_file_under(member: &str, names: &[Option<String>]) -> (r: Option<usize>)
    ensures
        match first_named(
            names@,
            pathnorm::after_last(text::swapped(member@, '\\', '/'), '/'),
            0,
        ) {
            Some(k) => r == Some(k as usize) && 0 <= k < names.len(),
            None => r is None,
        },
{
    let want = member_path(member);
    let chars = chars_of(want.as_str());
    let base = string_of(tail_after(chars.as_slice(), '/'));
    let mut i: usize = 0;
    while i < names.len()
        invariant
            i <= names.len(),
            base@ == pathnorm::after_last(text::swapped(member@, '\\', '/'), '/'),
            first_named(names@, base@, 0) == first_named(names@, base@, i as int),
        decreases names.len() - i,
    {
        if let Some(n) = &names[i] {
            if same_text(n.as_str(), base.as_str()) {
                return Some(i);
            }
        }
        i += 1;
    }
    None
}

// ---------------------------------------------------------------------------------------------
// Calls of the 7z program
// ---------------------------------------------------------------------------------------------
/// Whether a run of the 7z program failed: a warning is no failure, an unknown end is one.
pub fn run_failed(code: Option<i32>) -> (r: bool)
    ensures
        r == (match code {
            Some(c) => c > 1,
            None => true,
        }),
{
    match code {
        Some(c) => c > 1,
        None => true,
    }
}

/// The arguments that list an archive.
pub fn list_args(archive: &str) -> (r: Vec<String>)
    ensures
        text::texts(r@) == seq!["l"@, "-slt"@, archive@],
{
    let v: Vec<String> = vec![copy_str("l"), copy_str("-slt"), copy_str(archive)];
    assert(text::texts(v@) =~= seq!["l"@, "-slt"@, archive@]);
    v
}

/// The arguments that extract one member below a directory.
pub fn extract_member_args(dir: &str, archive: &str, member: &str) -> (r: Vec<String>)
    ensures
        text::texts(r@) == seq!["x"@, "-y"@, "-o"@ + dir@, archive@, member@],
{
    let v: Vec<String> = vec![
        copy_str("x"),
        copy_str("-y"),
        concat2("-o", dir),
        copy_str(archive),
        copy_str(member),
    ];
    assert(text::texts(v@) =~= seq!["x"@, "-y"@, "-o"@ + dir@, archive@, member@]);
    v
}

/// The arguments that extract all members below a directory.
pub fn extract_all_args(dir: &str, archive: &str) -> (r: Vec<String>)
    ensures
        text::texts(r@) == seq!["x"@, "-y"@, "-o"@ + dir@, archive@],
{
    let v: Vec<String> = vec![
        copy_str("x"),
        copy_str("-y"),
        concat2("-o", dir),
        copy_str(archive),
    ];
    assert(text::texts(v@) =~= seq!["x"@, "-y"@, "-o"@ + dir@, archive@]);
    v
}

/// The arguments that pack a directory with every file in a stream of its own.
pub fn pack_args(dest: &str, level: u32, threads: u32) -> (r: Vec<String>)
    ensures
        text::texts(r@) == seq![
            "a"@,
            "-t7z"@,
            "-mx="@ + text::number_text(level as nat),
            "-ms=off"@,
            "-mmt="@ + text::number_text(threads as nat),
            "-y"@,
            dest@,
            "."@,
        ],
{
    let mx = concat2("-mx=", show_u64(level as u64).as_str());
    let mmt = concat2("-mmt=", show_u64(threads as u64).as_str());
    let v: Vec<String> = vec![
        copy_str("a"),
        copy_str("-t7z"),
        mx,
        copy_str("-ms=off"),
        mmt,
        copy_str("-y"),
        copy_str(dest),
        copy_str("."),
    ];
    assert(text::texts(v@) =~= seq![
        "a"@,
        "-t7z"@,
        "-mx="@ + text::number_text(level as nat),
        "-ms=off"@,
        "-mmt="@ + text::number_text(threads as nat),
        "-y"@,
        dest@,
        "."@,
    ]);
    v
}

} // verus!
