//! Reading filter files, which can merge other filter files.

use crate::error::{invalid_filter, Error, ErrorView};
use crate::filter::member;
use crate::filter::member::{file_text, FileText};
use crate::filter::rsync;
use crate::filter::rsync::{parse_filter_line, LineView, ParsedFilterLine};
use crate::util::path_laws;
use crate::util::text;
use crate::util::text::{
    chars_of, concat5, copy_str, lines_of, same_text, show_usize, string_of,
};
use crate::util::textpath;
use crate::util::textpath::{path_join, path_parent};
use vstd::prelude::*;

verus! {

// ---------------------------------------------------------------------------------------------
// What a filter file says
// ---------------------------------------------------------------------------------------------
/// A filter file that is being read.
#[derive(Debug)]
pub struct OpenFile {
    /// Its path.
    pub path: String,
    /// What the file is known by, however its path is written.
    pub canon: String,
    /// Its lines.
    pub lines: Vec<Vec<char>>,
    /// How many lines have been read.
    pub next: usize,
}

/// The contents of an [`OpenFile`].
#[verifier::ext_equal]
pub struct OpenFileView {
    pub path: Seq<char>,
    pub canon: Seq<char>,
    pub lines: Seq<Seq<char>>,
    pub next: int,
}

impl View for OpenFile {
    type V = OpenFileView;

    open spec fn view(&self) -> OpenFileView {
        OpenFileView {
            path: self.path@,
            canon: self.canon@,
            lines: text::rows(self.lines@),
            next: self.next as int,
        }
    }
}

/// The views of the files that are being read.
pub open spec fn file_views(v: Seq<OpenFile>) -> Seq<OpenFileView> {
    v.map_values(|f: OpenFile| f@)
}

impl OpenFileView {
    /// The directory from which merged files are looked for.
    pub open spec fn base(self) -> Seq<char> {
        match textpath::parent(self.path) {
            Some(p) => p,
            None => "."@,
        }
    }

    /// The file with one line more read.
    pub open spec fn advanced(self) -> OpenFileView {
        OpenFileView { next: self.next + 1, ..self }
    }

    /// What the next line says; the error of a bad rule names the file and the line.
    pub open spec fn said(self) -> std::result::Result<Option<LineView>, ErrorView> {
        match rsync::parsed_line(self.lines[self.next]) {
            Err(ErrorView::InvalidFilter { rule, message }) => Err(
                ErrorView::InvalidFilter {
                    rule,
                    message: message + " ("@ + self.path + ":"@ + text::number_text(
                        (self.next + 1) as nat,
                    ) + ")"@,
                },
            ),
            other => other,
        }
    }
}

/// How far the reading of filter files has come.
#[verifier::ext_equal]
pub enum Progress {
    /// Another file has to be read: the files that are being read, what was read so far, and the
    /// path of the other file.
    Need(Seq<OpenFileView>, Seq<LineView>, Seq<char>),
    /// All files have been read.
    Finished(Seq<LineView>),
    /// A file or a line could not be read.
    Failed(ErrorView),
}

/// Reads on in the files that are being read, the innermost first, until another file is needed.
pub open spec fn advance(files: Seq<OpenFileView>, out: Seq<LineView>) -> Progress
    decreases files.len(), files.last().lines.len() - files.last().next,
{
    if files.len() == 0 {
        Progress::Finished(out)
    } else {
        let top = files.last();
        let rest = files.drop_last();
        if top.next >= top.lines.len() {
            advance(rest, out)
        } else {
            match top.said() {
                Err(e) => Progress::Failed(e),
                Ok(None) => advance(rest.push(top.advanced()), out),
                Ok(Some(LineView::Merge(rel))) => Progress::Need(
                    rest.push(top.advanced()),
                    out,
                    textpath::join(top.base(), rel),
                ),
                Ok(Some(line)) => advance(rest.push(top.advanced()), out.push(line)),
            }
        }
    }
}

/// The file is being read already.
pub open spec fn being_read(files: Seq<OpenFileView>, canon: Seq<char>) -> bool {
    exists|i: int| 0 <= i < files.len() && (#[trigger] files[i]).canon == canon
}

/// A file that has just been opened.
pub open spec fn opened_file(path: Seq<char>, canon: Seq<char>, content: Seq<char>) -> OpenFileView {
    OpenFileView { path, canon, lines: text::lines(content), next: 0 }
}

/// Goes on with the file at `path`, which is known by `canon`. A file that is being read cannot
/// be merged once more.
pub open spec fn open_file(
    files: Seq<OpenFileView>,
    out: Seq<LineView>,
    path: Seq<char>,
    canon: Seq<char>,
    content: FileText,
) -> Progress {
    if being_read(files, canon) {
        Progress::Failed(
            ErrorView::InvalidFilter { rule: path, message: "recursive merge in filter file"@ },
        )
    } else {
        match content {
            FileText::Text(t) => advance(files.push(opened_file(path, canon, t@)), out),
            _ => Progress::Failed(member::file_error(path, content)->0),
        }
    }
}

// ---------------------------------------------------------------------------------------------
// The loader
// ---------------------------------------------------------------------------------------------
/// What the loader asks for.
#[derive(Debug)]
pub enum LoadStep {
    /// Read the file at this path.
    Read(String),
    /// All files have been read.
    Finished(Vec<ParsedFilterLine>),
    /// A file or a line could not be read.
    Failed(Error),
}

/// Reads a filter file and the files that it merges.
#[derive(Debug)]
pub struct FilterLoader {
    /// The files that are being read, the innermost last.
    pub files: Vec<OpenFile>,
    /// What was read so far.
    pub out: Vec<ParsedFilterLine>,
    /// The path of the file that is needed.
    pub needed: String,
}

/// The loader and its answer stand for a progress.
pub open spec fn shows(loader: FilterLoader, step: LoadStep, p: Progress) -> bool {
    match step {
        LoadStep::Read(path) => path@ == loader.needed@ && p == Progress::Need(
            file_views(loader.files@),
            rsync::line_views(loader.out@),
            loader.needed@,
        ),
        LoadStep::Finished(lines) => p == Progress::Finished(rsync::line_views(lines@)),
        LoadStep::Failed(e) => p == Progress::Failed(e@),
    }
}

impl OpenFile {
    fn base(&self) -> (r: String)
        ensures
            r@ == self@.base(),
    {
        match path_parent(self.path.as_str()) {
            Some(p) => p,
            None => copy_str("."),
        }
    }

    fn said(&self) -> (r: std::result::Result<Option<ParsedFilterLine>, Error>)
        requires
            self.next < self.lines.len(),
        ensures
            match r {
                Ok(Some(line)) => self@.said() == Ok::<Option<LineView>, ErrorView>(Some(line@)),
                Ok(None) => self@.said() == Ok::<Option<LineView>, ErrorView>(None),
                Err(e) => self@.said() == Err::<Option<LineView>, ErrorView>(e@),
            },
    {
        let line = string_of(self.lines[self.next].as_slice());
        assert(text::rows(self.lines@)[self.next as int] == line@);
        match parse_filter_line(line.as_str()) {
            Err(Error::InvalidFilter { rule, message }) => {
                let number = show_usize(self.next + 1);
                let mut m = concat5(
                    message.as_str(),
                    " (",
                    self.path.as_str(),
                    ":",
                    number.as_str(),
                );
                m.append(")");
                Err(Error::InvalidFilter { rule, message: m })
            },
            other => other,
        }
    }
}

impl FilterLoader {
    /// Begins with the filter file at a path, which is to be read first.
    pub fn new(path: &str) -> (r: Self)
        ensures
            file_views(r.files@) == Seq::<OpenFileView>::empty(),
            rsync::line_views(r.out@) == Seq::<LineView>::empty(),
            r.needed@ == path@,
    {
        let files: Vec<OpenFile> = Vec::new();
        let out: Vec<ParsedFilterLine> = Vec::new();
        assert(file_views(files@) =~= Seq::<OpenFileView>::empty());
        assert(rsync::line_views(out@) =~= Seq::<LineView>::empty());
        FilterLoader { files, out, needed: copy_str(path) }
    }

    fn reads(&self, canon: &str) -> (r: bool)
        ensures
            r == being_read(file_views(self.files@), canon@),
    {
        let ghost views = file_views(self.files@);
        let mut i: usize = 0;
        while i < self.files.len()
            invariant
                i <= self.files.len(),
                views == file_views(self.files@),
                forall|k: int| 0 <= k < i ==> (#[trigger] views[k]).canon != canon@,
            decreases self.files.len() - i,
        {
            assert(views[i as int] == self.files@[i as int]@);
            if same_text(self.files[i].canon.as_str(), canon) {
                return true;
            }
            i += 1;
        }
        false
    }

    /// Reads on until another file is needed.
    fn run(self) -> (r: (Self, LoadStep))
        ensures
            shows(r.0, r.1, advance(file_views(self.files@), rsync::line_views(self.out@))),
    {
        let ghost whole = advance(file_views(self.files@), rsync::line_views(self.out@));
        let ghost start = self.files@;
        let mut loader = self;
        let mut current = loader.files.pop();
        proof {
            if start.len() > 0 {
                assert(file_views(start) =~= file_views(loader.files@).push(start.last()@));
            } else {
                assert(file_views(start) =~= Seq::<OpenFileView>::empty());
            }
        }
        loop
            invariant
                whole == advance(file_views(self.files@), rsync::line_views(self.out@)),
                match current {
                    Some(f) => whole == advance(
                        file_views(loader.files@).push(f@),
                        rsync::line_views(loader.out@),
                    ),
                    None => loader.files@.len() == 0 && whole == advance(
                        Seq::empty(),
                        rsync::line_views(loader.out@),
                    ),
                },
            decreases
                loader.files.len() + (if current is Some {
                    1int
                } else {
                    0
                }),
                (if current is Some {
                    current->0.lines.len() - current->0.next
                } else {
                    0int
                }),
        {
            match current {
                None => {
                    let out = loader.out;
                    loader.out = Vec::new();
                    return (loader, LoadStep::Finished(out));
                },
                Some(mut f) => {
                    let ghost rest = file_views(loader.files@);
                    assert(rest.push(f@).last() == f@);
                    assert(rest.push(f@).drop_last() =~= rest);
                    if f.next >= f.lines.len() {
                        let ghost before = loader.files@;
                        current = loader.files.pop();
                        proof {
                            if before.len() > 0 {
                                assert(file_views(before) =~= file_views(loader.files@).push(
                                    before.last()@,
                                ));
                            } else {
                                assert(rest =~= Seq::<OpenFileView>::empty());
                            }
                        }
                    } else {
                        let said = f.said();
                        let base = f.base();
                        f.next = f.next + 1;
                        match said {
                            Err(e) => {
                                return (loader, LoadStep::Failed(e));
                            },
                            Ok(None) => {},
                            Ok(Some(ParsedFilterLine::Merge(rel))) => {
                                let path = path_join(base.as_str(), rel.as_str());
                                let ghost before = loader.files@;
                                let ghost fv = f@;
                                loader.files.push(f);
                                assert(file_views(loader.files@) =~= file_views(before).push(fv));
                                loader.needed = copy_str(path.as_str());
                                return (loader, LoadStep::Read(path));
                            },
                            Ok(Some(line)) => {
                                let ghost before = loader.out@;
                                let ghost lv = line@;
                                loader.out.push(line);
                                assert(rsync::line_views(loader.out@) =~= rsync::line_views(
                                    before,
                                ).push(lv));
                            },
                        }
                        current = Some(f);
                    }
                },
            }
        }
    }

    /// Goes on with what the needed file holds. `canon` is what the file is known by, however its
    /// path is written.
    pub fn step(self, canon: &str, content: &FileText) -> (r: (Self, LoadStep))
        ensures
            shows(
                r.0,
                r.1,
                open_file(
                    file_views(self.files@),
                    rsync::line_views(self.out@),
                    self.needed@,
                    canon@,
                    *content,
                ),
            ),
    {
        if self.reads(canon) {
            let e = invalid_filter(self.needed.as_str(), "recursive merge in filter file");
            return (self, LoadStep::Failed(e));
        }
        let mut loader = self;
        match file_text(loader.needed.as_str(), content) {
            Ok(t) => {
                let file = OpenFile {
                    path: copy_str(loader.needed.as_str()),
                    canon: copy_str(canon),
                    lines: lines_of(chars_of(t.as_str()).as_slice()),
                    next: 0,
                };
                let ghost before = loader.files@;
                let ghost fv = file@;
                loader.files.push(file);
                assert(file_views(loader.files@) =~= file_views(before).push(fv));
                loader.run()
            },
            Err(e) => (loader, LoadStep::Failed(e)),
        }
    }
}

// ---------------------------------------------------------------------------------------------
// Law: merges are expanded in place
// ---------------------------------------------------------------------------------------------
/// What is at each path: what the file is known by, and its contents.
pub type World = spec_fn(Seq<char>) -> (Seq<char>, FileText);

/// The lines of the file at `path` with every merge replaced by the lines of the merged file, or
/// the first error; `None` where merges nest deeper than `depth`. `within` holds what the files
/// around this one are known by.
pub open spec fn expanded(world: World, path: Seq<char>, within: Set<Seq<char>>, depth: nat) -> Option<
    std::result::Result<Seq<LineView>, ErrorView>,
>
    decreases depth, 0int,
{
    let (canon, content) = world(path);
    if depth == 0 {
        None
    } else if within.contains(canon) {
        Some(
            Err(
                ErrorView::InvalidFilter { rule: path, message: "recursive merge in filter file"@ },
            ),
        )
    } else {
        match content {
            FileText::Text(t) => expanded_lines(
                world,
                opened_file(path, canon, t@),
                within.insert(canon),
                (depth - 1) as nat,
            ),
            _ => Some(Err(member::file_error(path, content)->0)),
        }
    }
}

/// The lines of a file that have not been read, with every merge replaced by the lines of the
/// merged file, or the first error.
pub open spec fn expanded_lines(
    world: World,
    file: OpenFileView,
    within: Set<Seq<char>>,
    depth: nat,
) -> Option<std::result::Result<Seq<LineView>, ErrorView>>
    decreases depth, file.lines.len() - file.next + 1,
{
    if file.next >= file.lines.len() {
        Some(Ok(Seq::empty()))
    } else {
        match file.said() {
            Err(e) => Some(Err(e)),
            Ok(None) => expanded_lines(world, file.advanced(), within, depth),
            Ok(Some(LineView::Merge(rel))) => match expanded(
                world,
                textpath::join(file.base(), rel),
                within,
                depth,
            ) {
                None => None,
                Some(Err(e)) => Some(Err(e)),
                Some(Ok(merged)) => match expanded_lines(world, file.advanced(), within, depth) {
                    None => None,
                    Some(Err(e)) => Some(Err(e)),
                    Some(Ok(rest)) => Some(Ok(merged + rest)),
                },
            },
            Ok(Some(line)) => match expanded_lines(world, file.advanced(), within, depth) {
                None => None,
                Some(Err(e)) => Some(Err(e)),
                Some(Ok(rest)) => Some(Ok(seq![line] + rest)),
            },
        }
    }
}

/// The progress after `n` more files have been read.
pub open spec fn driven(world: World, p: Progress, n: nat) -> Progress
    decreases n,
{
    match p {
        Progress::Need(files, out, path) => if n == 0 {
            p
        } else {
            let (canon, content) = world(path);
            driven(world, open_file(files, out, path, canon, content), (n - 1) as nat)
        },
        _ => p,
    }
}

/// Reading `m` files and then `n` more is reading both.
proof fn lemma_driven(world: World, p: Progress, m: nat, n: nat)
    ensures
        driven(world, driven(world, p, m), n) == driven(world, p, m + n),
    decreases m,
{
    match p {
        Progress::Need(files, out, path) => {
            if m > 0 {
                let (canon, content) = world(path);
                lemma_driven(
                    world,
                    open_file(files, out, path, canon, content),
                    (m - 1) as nat,
                    n,
                );
            }
        },
        _ => {},
    }
}

/// What the files that are being read are known by.
pub open spec fn canons(files: Seq<OpenFileView>) -> Set<Seq<char>> {
    Set::new(|c: Seq<char>| being_read(files, c))
}

/// The progress once a part has been read: on with the files around it, or the error.
pub open spec fn resumed(
    files: Seq<OpenFileView>,
    out: Seq<LineView>,
    part: std::result::Result<Seq<LineView>, ErrorView>,
) -> Progress {
    match part {
        Ok(lines) => advance(files, out + lines),
        Err(e) => Progress::Failed(e),
    }
}

proof fn lemma_canons(files: Seq<OpenFileView>, f: OpenFileView)
    ensures
        canons(files.push(f)) =~= canons(files).insert(f.canon),
{
    let more = files.push(f);
    assert forall|c: Seq<char>| canons(more).contains(c) == canons(files).insert(f.canon).contains(
        c,
    ) by {
        if being_read(more, c) {
            let i = choose|i: int| 0 <= i < more.len() && (#[trigger] more[i]).canon == c;
            if i < files.len() {
                assert(files[i].canon == c);
            }
        }
        if being_read(files, c) {
            let i = choose|i: int| 0 <= i < files.len() && (#[trigger] files[i]).canon == c;
            assert(more[i].canon == c);
        }
        if c == f.canon {
            assert(more[files.len() as int].canon == c);
        }
    }
}

/// Reading the rest of a file does what its expansion says.
proof fn lemma_lines(
    world: World,
    files: Seq<OpenFileView>,
    file: OpenFileView,
    out: Seq<LineView>,
    depth: nat,
) -> (n: nat)
    requires
        expanded_lines(world, file, canons(files.push(file)), depth) is Some,
    ensures
        driven(world, advance(files.push(file), out), n) == driven(
            world,
            resumed(files, out, expanded_lines(world, file, canons(files.push(file)), depth)->0),
            0,
        ),
    decreases depth, file.lines.len() - file.next + 1,
{
    let all = files.push(file);
    let more = files.push(file.advanced());
    assert(all.last() == file);
    assert(all.drop_last() =~= files);
    lemma_canons(files, file);
    lemma_canons(files, file.advanced());
    assert(canons(all) =~= canons(more));
    if file.next >= file.lines.len() {
        assert(out + Seq::<LineView>::empty() =~= out);
        0
    } else {
        match file.said() {
            Err(e) => 0,
            Ok(None) => lemma_lines(world, files, file.advanced(), out, depth),
            Ok(Some(LineView::Merge(rel))) => {
                let path = textpath::join(file.base(), rel);
                let inner = lemma_file(world, more, path, out, depth);
                let need = Progress::Need(more, out, path);
                let (canon, content) = world(path);
                let first = open_file(more, out, path, canon, content);
                assert(driven(world, need, inner + 1) == driven(world, first, inner));
                match expanded(world, path, canons(more), depth)->0 {
                    Err(e) => inner + 1,
                    Ok(merged) => {
                        let rest = lemma_lines(world, files, file.advanced(), out + merged, depth);
                        lemma_driven(world, need, inner + 1, rest);
                        assert(driven(world, first, inner) == advance(more, out + merged));
                        let tail = expanded_lines(world, file.advanced(), canons(more), depth)->0;
                        if tail is Ok {
                            assert(out + merged + tail->Ok_0 =~= out + (merged + tail->Ok_0));
                        }
                        inner + 1 + rest
                    },
                }
            },
            Ok(Some(line)) => {
                let n = lemma_lines(world, files, file.advanced(), out.push(line), depth);
                let tail = expanded_lines(world, file.advanced(), canons(more), depth)->0;
                if tail is Ok {
                    assert(out.push(line) + tail->Ok_0 =~= out + (seq![line] + tail->Ok_0));
                }
                n
            },
        }
    }
}

/// Reading a file does what its expansion says.
proof fn lemma_file(
    world: World,
    files: Seq<OpenFileView>,
    path: Seq<char>,
    out: Seq<LineView>,
    depth: nat,
) -> (n: nat)
    requires
        expanded(world, path, canons(files), depth) is Some,
    ensures
        driven(
            world,
            open_file(files, out, path, world(path).0, world(path).1),
            n,
        ) == driven(world, resumed(files, out, expanded(world, path, canons(files), depth)->0), 0),
    decreases depth, 0int,
{
    let (canon, content) = world(path);
    if canons(files).contains(canon) {
        0
    } else {
        match content {
            FileText::Text(t) => {
                let file = opened_file(path, canon, t@);
                lemma_canons(files, file);
                lemma_lines(world, files, file, out, (depth - 1) as nat)
            },
            _ => 0,
        }
    }
}

/// Law: reading a filter file gives its lines with every merge replaced, in place, by the lines
/// of the merged file, or the first error, as long as merges nest no deeper than some depth and
/// the files do not change meanwhile.
pub proof fn law_merges_are_expanded_in_place(world: World, path: Seq<char>, depth: nat) -> (n: nat)
    requires
        expanded(world, path, Set::empty(), depth) is Some,
    ensures
        driven(world, Progress::Need(Seq::empty(), Seq::empty(), path), n) == (match expanded(
            world,
            path,
            Set::empty(),
            depth,
        )->0 {
            Ok(lines) => Progress::Finished(lines),
            Err(e) => Progress::Failed(e),
        }),
{
    let none = Seq::<OpenFileView>::empty();
    assert(canons(none) =~= Set::<Seq<char>>::empty());
    let n = lemma_file(world, none, path, Seq::empty(), depth);
    let part = expanded(world, path, Set::empty(), depth)->0;
    if part is Ok {
        assert(Seq::<LineView>::empty() + part->Ok_0 =~= part->Ok_0);
    }
    n + 1
}

// ---------------------------------------------------------------------------------------------
// Laws: reading ends, and what it gives
// ---------------------------------------------------------------------------------------------
/// Every file is one of the known ones, however its path is written.
pub open spec fn all_known(world: World, known: Set<Seq<char>>) -> bool {
    known.finite() && forall|p: Seq<char>| known.contains((#[trigger] world(p)).0)
}

/// Merges cannot nest deeper than there are files that are not being read.
proof fn lemma_file_ends(
    world: World,
    path: Seq<char>,
    within: Set<Seq<char>>,
    known: Set<Seq<char>>,
    depth: nat,
)
    requires
        all_known(world, known),
        within.subset_of(known),
        depth > known.len() - within.len(),
    ensures
        expanded(world, path, within, depth) is Some,
    decreases depth, 0int,
{
    let (canon, content) = world(path);
    vstd::set_lib::lemma_len_subset(within, known);
    if !within.contains(canon) {
        let more = within.insert(canon);
        assert(more.subset_of(known));
        vstd::set_lib::lemma_len_subset(more, known);
        match content {
            FileText::Text(t) => {
                lemma_lines_end(
                    world,
                    opened_file(path, canon, t@),
                    more,
                    known,
                    (depth - 1) as nat,
                );
            },
            _ => {},
        }
    }
}

proof fn lemma_lines_end(
    world: World,
    file: OpenFileView,
    within: Set<Seq<char>>,
    known: Set<Seq<char>>,
    depth: nat,
)
    requires
        all_known(world, known),
        within.subset_of(known),
        depth > known.len() - within.len(),
    ensures
        expanded_lines(world, file, within, depth) is Some,
    decreases depth, file.lines.len() - file.next + 1,
{
    if file.next < file.lines.len() {
        match file.said() {
            Err(e) => {},
            Ok(Some(LineView::Merge(rel))) => {
                lemma_file_ends(world, textpath::join(file.base(), rel), within, known, depth);
                lemma_lines_end(world, file.advanced(), within, known, depth);
            },
            Ok(_) => {
                lemma_lines_end(world, file.advanced(), within, known, depth);
            },
        }
    }
}

/// No line asks for another file.
pub open spec fn no_merges(lines: Seq<LineView>) -> bool {
    forall|i: int| 0 <= i < lines.len() ==> !((#[trigger] lines[i]) is Merge)
}

proof fn lemma_file_without_merges(
    world: World,
    path: Seq<char>,
    within: Set<Seq<char>>,
    depth: nat,
)
    ensures
        expanded(world, path, within, depth) matches Some(Ok(v)) ==> no_merges(v),
    decreases depth, 0int,
{
    let (canon, content) = world(path);
    if depth > 0 && !within.contains(canon) {
        match content {
            FileText::Text(t) => {
                lemma_lines_without_merges(
                    world,
                    opened_file(path, canon, t@),
                    within.insert(canon),
                    (depth - 1) as nat,
                );
            },
            _ => {},
        }
    }
}

proof fn lemma_lines_without_merges(
    world: World,
    file: OpenFileView,
    within: Set<Seq<char>>,
    depth: nat,
)
    ensures
        expanded_lines(world, file, within, depth) matches Some(Ok(v)) ==> no_merges(v),
    decreases depth, file.lines.len() - file.next + 1,
{
    if file.next < file.lines.len() {
        lemma_lines_without_merges(world, file.advanced(), within, depth);
        match file.said() {
            Ok(Some(LineView::Merge(rel))) => {
                lemma_file_without_merges(world, textpath::join(file.base(), rel), within, depth);
            },
            _ => {},
        }
    }
}

/// Law: as long as there are finitely many files, and they do not change meanwhile, reading a
/// filter file ends. It gives the lines with every merge replaced in place, none of which asks for
/// another file, or the first error.
pub proof fn law_reading_ends(world: World, path: Seq<char>, known: Set<Seq<char>>) -> (n: nat)
    requires
        all_known(world, known),
    ensures
        ({
            let part = expanded(world, path, Set::empty(), known.len() + 1);
            &&& part is Some
            &&& part->0 is Ok ==> no_merges(part->0->Ok_0)
            &&& driven(world, Progress::Need(Seq::empty(), Seq::empty(), path), n) == (match part->0 {
                Ok(lines) => Progress::Finished(lines),
                Err(e) => Progress::Failed(e),
            })
        }),
{
    let depth = known.len() + 1;
    lemma_file_ends(world, path, Set::empty(), known, depth);
    lemma_file_without_merges(world, path, Set::empty(), depth);
    law_merges_are_expanded_in_place(world, path, depth)
}

/// Law: a filter file that is not there is reported as such.
pub proof fn law_missing_file_is_reported(world: World, path: Seq<char>, depth: nat)
    requires
        world(path).1 is Missing,
        depth > 0,
    ensures
        expanded(world, path, Set::empty(), depth) == Some(
            Err::<Seq<LineView>, ErrorView>(ErrorView::FilterFileNotFound(path)),
        ),
{
}

/// Lines that merge nothing stand in front of one that merges a file that is being read.
proof fn lemma_merge_behind(
    world: World,
    file: OpenFileView,
    within: Set<Seq<char>>,
    k: int,
    rel: Seq<char>,
    depth: nat,
)
    requires
        0 <= file.next <= k < file.lines.len(),
        (OpenFileView { next: k, ..file }).said() == Ok::<Option<LineView>, ErrorView>(
            Some(LineView::Merge(rel)),
        ),
        forall|j: int|
            file.next <= j < k ==> {
                let said = #[trigger] (OpenFileView { next: j, ..file }).said();
                said is Ok && !(said->Ok_0 is Some && said->Ok_0->0 is Merge)
            },
        within.contains(world(textpath::join(file.base(), rel)).0),
        depth > 0,
    ensures
        expanded_lines(world, file, within, depth) == Some(
            Err::<Seq<LineView>, ErrorView>(
                ErrorView::InvalidFilter {
                    rule: textpath::join(file.base(), rel),
                    message: "recursive merge in filter file"@,
                },
            ),
        ),
    decreases k - file.next,
{
    let here = OpenFileView { next: file.next, ..file };
    assert(here == file);
    if file.next < k {
        let next = file.advanced();
        assert forall|j: int| next.next <= j < k implies {
            let said = #[trigger] (OpenFileView { next: j, ..next }).said();
            said is Ok && !(said->Ok_0 is Some && said->Ok_0->0 is Merge)
        } by {
            assert((OpenFileView { next: j, ..next }) == (OpenFileView { next: j, ..file }));
        }
        assert((OpenFileView { next: k, ..next }) == (OpenFileView { next: k, ..file }));
        lemma_merge_behind(world, next, within, k, rel, depth);
        assert(next.base() == file.base());
        let said = here.said();
        assert(said is Ok && !(said->Ok_0 is Some && said->Ok_0->0 is Merge));
    } else {
        let target = textpath::join(file.base(), rel);
        assert(expanded(world, target, within, depth) is Some);
        assert(expanded(world, target, within, depth)->0 is Err);
    }
}

/// Law: a filter file that merges itself, by whatever path, is refused.
pub proof fn law_self_merge_is_refused(
    world: World,
    path: Seq<char>,
    k: int,
    rel: Seq<char>,
    depth: nat,
)
    requires
        world(path).1 is Text,
        depth > 1,
        ({
            let file = opened_file(path, world(path).0, world(path).1->Text_0@);
            &&& 0 <= k < file.lines.len()
            &&& (OpenFileView { next: k, ..file }).said() == Ok::<Option<LineView>, ErrorView>(
                Some(LineView::Merge(rel)),
            )
            &&& forall|j: int|
                0 <= j < k ==> {
                    let said = #[trigger] (OpenFileView { next: j, ..file }).said();
                    said is Ok && !(said->Ok_0 is Some && said->Ok_0->0 is Merge)
                }
            &&& world(textpath::join(file.base(), rel)).0 == world(path).0
        }),
    ensures
        expanded(world, path, Set::empty(), depth) is Some,
        expanded(world, path, Set::empty(), depth)->0 is Err,
        expanded(world, path, Set::empty(), depth)->0->Err_0 is InvalidFilter,
{
    let file = opened_file(path, world(path).0, world(path).1->Text_0@);
    let within = Set::empty().insert(world(path).0);
    lemma_merge_behind(world, file, within, k, rel, (depth - 1) as nat);
}

/// Law: a merged file is looked for from the directory of the file that merges it, unless its path
/// is absolute.
pub proof fn law_merged_files_are_beside(
    f: OpenFileView,
    dir: Seq<char>,
    name: Seq<char>,
    rel: Seq<char>,
)
    requires
        path_laws::plain_name(name),
        dir.len() > 0,
        dir.last() != '/',
        textpath::rtrim(dir) == dir,
        rel.len() > 0,
    ensures
        f.path == dir + seq!['/'] + name && rel[0] != '/' ==> textpath::join(f.base(), rel) == dir
            + seq!['/'] + rel,
        f.path == name && rel[0] != '/' ==> textpath::join(f.base(), rel) == rel,
        f.path == dir + seq!['/'] + name && rel[0] == '/' ==> textpath::join(f.base(), rel) == rel,
{
    path_laws::law_file_name_and_parent(dir, name);
    path_laws::law_joined_paths(dir, rel);
}

/// Law: a line says in a file what it says by itself; the error of one that cannot be read tells the
/// file and the number of the line, from one on.
pub proof fn law_bad_lines_are_located(f: OpenFileView, rule: Seq<char>, message: Seq<char>)
    requires
        0 <= f.next < f.lines.len(),
    ensures
        rsync::parsed_line(f.lines[f.next]) is Ok ==> f.said() == rsync::parsed_line(
            f.lines[f.next],
        ),
        rsync::parsed_line(f.lines[f.next]) == Err::<Option<LineView>, ErrorView>(
            ErrorView::InvalidFilter { rule, message },
        ) ==> f.said() == Err::<Option<LineView>, ErrorView>(
            ErrorView::InvalidFilter {
                rule,
                message: message + " ("@ + f.path + ":"@ + text::number_text((f.next + 1) as nat)
                    + ")"@,
            },
        ),
{
}

} // verus!
