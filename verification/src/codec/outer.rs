//! The container around the converted members: a 7z archive, a tar archive or a directory.

use crate::error::{other, Error, ErrorView, Result};
use crate::util::pathnorm;
use crate::util::pathnorm::{is_safe_member_path, normalize_member_path};
use crate::util::text;
use crate::util::text::{
    chars_of, concat2, copy_str, is_text, string_of, swap_chars, to_lower, trimmed, without_front,
    without_front_text,
};
use crate::util::textpath;
use crate::util::textpath::{path_extension, path_file_stem, path_join, path_parent};
use vstd::prelude::*;

verus! {

/// The kinds of containers.
#[derive(Debug, Clone, Copy, PartialEq, Eq, Structural)]
pub enum OuterFormat {
    /// A non-solid 7z archive whose members are stored.
    SevenZ,
    /// A tar archive without compression.
    Tar,
    /// A directory.
    Dir,
}

impl Default for OuterFormat {
    fn default() -> (r: Self)
        ensures
            r == OuterFormat::SevenZ,
    {
        OuterFormat::SevenZ
    }
}

impl OuterFormat {
    /// The name of the container.
    pub open spec fn name(self) -> Seq<char> {
        match self {
            OuterFormat::SevenZ => "7z"@,
            OuterFormat::Tar => "tar"@,
            OuterFormat::Dir => "dir"@,
        }
    }

    /// The container that a name means, in any case.
    pub open spec fn named(s: Seq<char>) -> Option<OuterFormat> {
        let low = text::lower(text::trim(s));
        if low == "7z"@ || low == "sevenz"@ || low == "7zip"@ {
            Some(OuterFormat::SevenZ)
        } else if low == "tar"@ || low == "ustar"@ {
            Some(OuterFormat::Tar)
        } else if low == "dir"@ || low == "directory"@ || low == "folder"@ || low == "files"@ {
            Some(OuterFormat::Dir)
        } else {
            None
        }
    }

    /// The container that an output path means: `.tar` a tar archive, a trailing slash a
    /// directory, anything else a 7z archive.
    pub open spec fn of_path(path: Seq<char>) -> OuterFormat {
        if path.len() > 0 && (path.last() == '/' || path.last() == '\\') {
            OuterFormat::Dir
        } else {
            match textpath::extension(path) {
                Some(ext) => if text::lower(ext) == "tar"@ {
                    OuterFormat::Tar
                } else {
                    OuterFormat::SevenZ
                },
                None => OuterFormat::SevenZ,
            }
        }
    }

    /// The name of the container.
    pub fn as_str(self) -> (r: &'static str)
        ensures
            r@ == self.name(),
    {
        match self {
            OuterFormat::SevenZ => "7z",
            OuterFormat::Tar => "tar",
            OuterFormat::Dir => "dir",
        }
    }

    /// Whether the output is a directory and not a file.
    pub fn is_directory(self) -> (r: bool)
        ensures
            r == (self is Dir),
    {
        matches!(self, OuterFormat::Dir)
    }

    /// The ending of the output's name, without the dot.
    pub fn extension(self) -> (r: &'static str)
        ensures
            r@ == self.name(),
    {
        self.as_str()
    }

    /// The container that a name means.
    pub fn parse(s: &str) -> (r: Option<Self>)
        ensures
            r == OuterFormat::named(s@),
    {
        let chars = chars_of(s);
        let low = to_lower(trimmed(chars.as_slice()));
        let l = low.as_slice();
        if is_text(l, "7z") || is_text(l, "sevenz") || is_text(l, "7zip") {
            Some(OuterFormat::SevenZ)
        } else if is_text(l, "tar") || is_text(l, "ustar") {
            Some(OuterFormat::Tar)
        } else if is_text(l, "dir") || is_text(l, "directory") || is_text(l, "folder") || is_text(
            l,
            "files",
        ) {
            Some(OuterFormat::Dir)
        } else {
            None
        }
    }

    /// The container that an output path means.
    pub fn from_output_path(path: &str) -> (r: Self)
        ensures
            r == OuterFormat::of_path(path@),
    {
        let chars = chars_of(path);
        if chars.len() > 0 && (chars[chars.len() - 1] == '/' || chars[chars.len() - 1] == '\\') {
            return OuterFormat::Dir;
        }
        match path_extension(path) {
            Some(ext) => {
                let raw = chars_of(ext.as_str());
                let low = to_lower(raw.as_slice());
                if is_text(low.as_slice(), "tar") {
                    OuterFormat::Tar
                } else {
                    OuterFormat::SevenZ
                }
            },
            None => OuterFormat::SevenZ,
        }
    }

    /// What was asked for, else what the output path means, else a 7z archive.
    pub fn resolve(explicit: Option<Self>, output: Option<&str>) -> (r: Self)
        ensures
            r == (match explicit {
                Some(f) => f,
                None => match output {
                    Some(p) => OuterFormat::of_path(p@),
                    None => OuterFormat::SevenZ,
                },
            }),
    {
        match explicit {
            Some(f) => f,
            None => match output {
                Some(p) => OuterFormat::from_output_path(p),
                None => OuterFormat::SevenZ,
            },
        }
    }

    /// Law: the name of a container means that container.
    pub proof fn law_name_is_read_back(self)
        ensures
            OuterFormat::named(self.name()) == Some(self),
    {
        reveal_strlit("7z");
        reveal_strlit("sevenz");
        reveal_strlit("7zip");
        reveal_strlit("tar");
        reveal_strlit("ustar");
        reveal_strlit("dir");
        reveal_strlit("directory");
        let s = self.name();
        assert(text::trim_start(s) == s);
        assert(text::trim_end(s) == s);
        assert(text::lower(s) =~= s);
        assert(s[0] == (match self {
            OuterFormat::SevenZ => '7',
            OuterFormat::Tar => 't',
            OuterFormat::Dir => 'd',
        }));
        assert("sevenz"@[0] == 's' && "7zip"@[0] == '7' && "ustar"@[0] == 'u' && "7z"@[0] == '7'
            && "tar"@[0] == 't');
    }
}

/// The directory for an archive without an output path: beside the archive, named like it
/// without its extension.
pub open spec fn default_dir(input: Seq<char>) -> Seq<char> {
    let stem = match textpath::file_stem(input) {
        Some(s) => s,
        None => "output"@,
    };
    match textpath::parent(input) {
        Some(p) => if p.len() > 0 {
            textpath::join(p, stem)
        } else {
            stem
        },
        None => stem,
    }
}

/// The directory for an archive without an output path.
pub fn default_dir_from_input(input: &str) -> (r: String)
    ensures
        r@ == default_dir(input@),
{
    let stem = match path_file_stem(input) {
        Some(s) => s,
        None => copy_str("output"),
    };
    match path_parent(input) {
        Some(p) => if chars_of(p.as_str()).len() > 0 {
            path_join(p.as_str(), stem.as_str())
        } else {
            stem
        },
        None => stem,
    }
}

// ---------------------------------------------------------------------------------------------
// Directories
// ---------------------------------------------------------------------------------------------
/// Keeps track of the members that were put into a directory.
#[derive(Debug)]
pub struct DirOuterWriter {
    root: String,
    count: usize,
}

/// Where a member goes below a directory, or why it goes nowhere.
pub open spec fn member_dest(root: Seq<char>, name: Seq<char>) -> std::result::Result<
    Seq<char>,
    ErrorView,
> {
    let norm = pathnorm::normalized(name);
    if pathnorm::safe(norm) {
        Ok(textpath::join(root, norm))
    } else {
        Err(ErrorView::Other("unsafe outer member path for dir output: "@ + norm))
    }
}

impl DirOuterWriter {
    /// The directory.
    pub closed spec fn root_text(self) -> Seq<char> {
        self.root@
    }

    /// How many members were put into it.
    pub closed spec fn written(self) -> nat {
        self.count as nat
    }

    /// An empty directory at `root`.
    pub fn new(root: &str) -> (r: Self)
        ensures
            r.root_text() == root@,
            r.written() == 0,
    {
        DirOuterWriter { root: copy_str(root), count: 0 }
    }

    /// The directory.
    pub fn root(&self) -> (r: &str)
        ensures
            r@ == self.root_text(),
    {
        self.root.as_str()
    }

    /// Where a member goes.
    pub fn dest_path(&self, name: &str) -> (r: Result<String>)
        ensures
            match r {
                Ok(p) => member_dest(self.root_text(), name@) == Ok::<Seq<char>, ErrorView>(p@),
                Err(e) => member_dest(self.root_text(), name@) == Err::<Seq<char>, ErrorView>(e@),
            },
    {
        let norm = normalize_member_path(name);
        if !is_safe_member_path(norm.as_str()) {
            return Err(
                Error::Other(concat2("unsafe outer member path for dir output: ", norm.as_str())),
            );
        }
        Ok(path_join(self.root.as_str(), norm.as_str()))
    }

    /// A member was put into the directory.
    pub fn record(&mut self)
        requires
            old(self).written() < usize::MAX,
        ensures
            final(self).written() == old(self).written() + 1,
            final(self).root_text() == old(self).root_text(),
    {
        self.count = self.count + 1;
    }

    /// How many members were put into it.
    pub fn len(&self) -> (r: usize)
        ensures
            r == self.written(),
    {
        self.count
    }

    /// Whether no member was put into it.
    pub fn is_empty(&self) -> (r: bool)
        ensures
            r == (self.written() == 0),
    {
        self.count == 0
    }

    /// Ends the work; a directory without members is an error.
    pub fn finish(self) -> (r: Result<()>)
        ensures
            match r {
                Ok(_) => self.written() > 0,
                Err(e) => self.written() == 0 && e@ == ErrorView::Other(
                    "cannot finish empty directory outer (no members written)"@,
                ),
            },
    {
        if self.count == 0 {
            return Err(other("cannot finish empty directory outer (no members written)"));
        }
        Ok(())
    }
}

/// Law: every member of a directory output goes somewhere below the directory: what is joined to
/// the root is relative and climbs nowhere.
pub proof fn law_dir_members_stay_below(root: Seq<char>, name: Seq<char>)
    requires
        member_dest(root, name) is Ok,
        root.len() > 0,
    ensures
        ({
            let dest = member_dest(root, name)->Ok_0;
            &&& text::begins(dest, root)
            &&& !text::split(pathnorm::normalized(name), '/').contains(seq!['.', '.'])
        }),
{
    let norm = pathnorm::normalized(name);
    pathnorm::law_normal_form(name);
    pathnorm::law_normalize_twice(name);
    let dest = textpath::join(root, norm);
    assert(dest.take(root.len() as int) =~= root);
}

// ---------------------------------------------------------------------------------------------
// Tar archives
// ---------------------------------------------------------------------------------------------
/// The name of a member in a tar archive.
pub open spec fn tar_name(name: Seq<char>) -> Seq<char> {
    text::swapped(
        text::strip_front_text(text::strip_front(name, '/'), seq!['.', '/']),
        '\\',
        '/',
    )
}

/// Keeps track of the members that were put into a tar archive.
#[derive(Debug)]
pub struct TarOuterWriter {
    count: usize,
}

impl TarOuterWriter {
    /// How many members were put into it.
    pub closed spec fn written(self) -> nat {
        self.count as nat
    }

    /// An archive without members.
    pub fn new() -> (r: Self)
        ensures
            r.written() == 0,
    {
        TarOuterWriter { count: 0 }
    }

    /// The name of a member in the archive; an empty name is an error.
    pub fn member_name(name: &str) -> (r: Result<String>)
        ensures
            match r {
                Ok(n) => n@ == tar_name(name@) && n@.len() > 0,
                Err(e) => tar_name(name@).len() == 0 && e@ == ErrorView::Other(
                    "empty tar member name"@,
                ),
            },
    {
        let chars = chars_of(name);
        proof {
            reveal_strlit("./");
            assert("./"@ =~= seq!['.', '/']);
        }
        let bare = without_front_text(without_front(chars.as_slice(), '/'), "./");
        let norm = swap_chars(bare, '\\', '/');
        if norm.len() == 0 {
            return Err(other("empty tar member name"));
        }
        Ok(string_of(norm.as_slice()))
    }

    /// A member was put into the archive.
    pub fn record(&mut self)
        requires
            old(self).written() < usize::MAX,
        ensures
            final(self).written() == old(self).written() + 1,
    {
        self.count = self.count + 1;
    }

    /// How many members were put into it.
    pub fn len(&self) -> (r: usize)
        ensures
            r == self.written(),
    {
        self.count
    }

    /// Whether no member was put into it.
    pub fn is_empty(&self) -> (r: bool)
        ensures
            r == (self.written() == 0),
    {
        self.count == 0
    }

    /// Ends the work; an archive without members is an error.
    pub fn finish(self) -> (r: Result<()>)
        ensures
            match r {
                Ok(_) => self.written() > 0,
                Err(e) => self.written() == 0 && e@ == ErrorView::Other(
                    "cannot write empty tar archive"@,
                ),
            },
    {
        if self.count == 0 {
            return Err(other("cannot write empty tar archive"));
        }
        Ok(())
    }
}

} // verus!
