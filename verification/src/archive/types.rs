//! Formats, members and options.

use crate::codec::sevenz_header::FileMeta;
use crate::error::Result;
use crate::filter::member::MemberFilter;
use crate::util::text::copy_str;
use vstd::prelude::*;

verus! {

/// The kinds of archives that are told apart.
#[derive(Debug, Clone, Copy, PartialEq, Eq, Hash, Structural)]
pub enum ArchiveFormat {
    SevenZ,
    Zip,
    Unknown,
}

impl ArchiveFormat {
    /// The name of the format.
    pub open spec fn name(self) -> Seq<char> {
        match self {
            ArchiveFormat::SevenZ => "7z"@,
            ArchiveFormat::Zip => "zip"@,
            ArchiveFormat::Unknown => "unknown"@,
        }
    }

    /// The name of the format.
    pub fn as_str(self) -> (r: &'static str)
        ensures
            r@ == self.name(),
    {
        match self {
            ArchiveFormat::SevenZ => "7z",
            ArchiveFormat::Zip => "zip",
            ArchiveFormat::Unknown => "unknown",
        }
    }
}

/// What is known of one member of an archive.
#[derive(Debug)]
pub struct EntryMeta {
    pub path: String,
    pub size: u64,
    pub is_dir: bool,
    /// The format that its name suggests.
    pub format_hint: ArchiveFormat,
    /// Times and attributes, as far as the listing shows them.
    pub meta: FileMeta,
}

/// The contents of an [`EntryMeta`].
#[verifier::ext_equal]
pub struct EntryView {
    pub path: Seq<char>,
    pub size: u64,
    pub is_dir: bool,
    pub format_hint: ArchiveFormat,
    pub meta: FileMeta,
}

impl View for EntryMeta {
    type V = EntryView;

    open spec fn view(&self) -> EntryView {
        EntryView {
            path: self.path@,
            size: self.size,
            is_dir: self.is_dir,
            format_hint: self.format_hint,
            meta: self.meta,
        }
    }
}

/// The views of a sequence of members.
pub open spec fn entry_views(v: Seq<EntryMeta>) -> Seq<EntryView> {
    v.map_values(|e: EntryMeta| e@)
}

impl Clone for EntryMeta {
    fn clone(&self) -> (r: Self)
        ensures
            r@ == self@,
    {
        EntryMeta {
            path: copy_str(self.path.as_str()),
            size: self.size,
            is_dir: self.is_dir,
            format_hint: self.format_hint,
            meta: self.meta,
        }
    }
}

impl EntryMeta {
    /// Whether this member is itself an archive.
    pub fn is_nested_archive(&self) -> (r: bool)
        ensures
            r == (!self.is_dir && self.format_hint != ArchiveFormat::Unknown),
    {
        !self.is_dir && self.format_hint != ArchiveFormat::Unknown
    }
}

/// How an archive is packed.
#[derive(Debug, Clone, Copy, PartialEq, Eq, Structural)]
pub struct PackOptions {
    /// Every file in a stream of its own.
    pub non_solid: bool,
    /// How many threads compress; the backend's choice where there is none.
    pub threads: Option<u32>,
    /// Compression level, 0 to 9.
    pub level: u32,
}

impl Default for PackOptions {
    fn default() -> (r: Self)
        ensures
            r == (PackOptions { non_solid: true, threads: None, level: 5 }),
    {
        PackOptions { non_solid: true, threads: None, level: 5 }
    }
}

/// Which program or library reads and writes archives.
#[derive(Debug, Clone, Copy, PartialEq, Eq, Structural)]
pub enum BackendKind {
    /// The 7z program.
    Cli,
    /// The library within the process.
    Native,
}

impl BackendKind {
    /// The name of the backend.
    pub fn as_str(self) -> (r: &'static str)
        ensures
            r@ == (if self is Cli {
                "cli"@
            } else {
                "native"@
            }),
    {
        match self {
            BackendKind::Cli => "cli",
            BackendKind::Native => "native",
        }
    }
}

/// What the conversion needs of a program or library for archives. Paths are text.
pub trait ArchiveBackend {
    /// The format that it reads and writes.
    fn format(&self) -> ArchiveFormat;

    /// The members of an archive.
    fn list(&self, archive: &str) -> Result<Vec<EntryMeta>>;

    /// Whether an archive is solid.
    fn is_solid(&self, archive: &str) -> Result<bool>;

    /// Extracts one member to a file.
    fn extract_member(&self, archive: &str, member: &str, dest_file: &str) -> Result<()>;

    /// Extracts several members below a directory.
    fn extract_members(&self, archive: &str, members: &[String], dest_dir: &str) -> Result<()>;

    /// Extracts all members below a directory.
    fn extract_all(&self, archive: &str, dest_dir: &str) -> Result<()>;

    /// Extracts all members but those that a glob matches.
    fn extract_all_with_excludes(
        &self,
        archive: &str,
        dest_dir: &str,
        exclude_globs: &[String],
    ) -> Result<()>;

    /// Packs what is below a directory into a new archive.
    fn pack_dir(&self, src_dir: &str, dest_archive: &str, opts: &PackOptions) -> Result<()>;

    /// Tests an archive.
    fn test(&self, archive: &str) -> Result<()>;

    /// Converts without extracting to files; `false` where the backend cannot.
    fn convert_to_nonsolid_streaming(
        &self,
        input: &str,
        output: &str,
        filter: &MemberFilter,
        pack: &PackOptions,
    ) -> Result<bool>;
}

} // verus!
