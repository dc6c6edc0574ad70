//! The decisions of the backend within the process: which members are kept, how they are
//! compressed, and in which order they are written.

use crate::archive::detect;
use crate::archive::detect::format_from_path;
use crate::archive::types::{ArchiveFormat, EntryMeta, EntryView, PackOptions};
use crate::codec::lzma2;
use crate::codec::lzma2::CodecKind;
use crate::codec::sevenz_header::{FileMeta, FileView, SIG_HEADER_SIZE};
use crate::codec::writer;
use crate::codec::writer::{ArchiveEnd, NonsolidLzma2Writer, PackedEntry};
use crate::error::{other, Error, ErrorView, Result};
use crate::filter::member::{FilterView, MemberFilter};
use crate::filter::wild;
use crate::filter::wild::wild_match;
use crate::util::order;
use crate::util::order::sorted_order;
use crate::util::pathnorm;
use crate::util::pathnorm::{is_safe_member_path, normalize_member_path};
use crate::util::size_parse;
use crate::util::size_parse::clamp_cpus;
use crate::util::text;
use crate::util::text::{chars_of, concat2, same_text, string_of, swap_chars};
use std::collections::BTreeMap;
use vstd::prelude::*;

verus! {

// ---------------------------------------------------------------------------------------------
// Options
// ---------------------------------------------------------------------------------------------
/// From this size on, one file is compressed by several threads: 512 KiB.
pub const DEFAULT_LARGE_FILE_THRESHOLD: u64 = 524_288;

/// How decoding and encoding take turns.
#[derive(Debug, Clone, Copy, PartialEq, Eq, Structural)]
pub enum NativePipeline {
    /// Each file is decoded and then encoded.
    Sequential,
    /// Files are decoded ahead while one is encoded.
    DecodeAhead {
        /// How many decoded files may wait.
        depth: usize,
    },
    /// Files are decoded in order and encoded in parallel.
    ParallelCodec,
}

impl Default for NativePipeline {
    fn default() -> (r: Self)
        ensures
            r == NativePipeline::ParallelCodec,
    {
        NativePipeline::ParallelCodec
    }
}

/// How the backend works.
#[derive(Debug, Clone, Copy, PartialEq, Eq, Structural)]
pub struct NativeOptions {
    /// How many threads decode.
    pub decode_threads: u32,
    /// How many threads encode; by default as many as there are processors.
    pub encode_threads: Option<u32>,
    pub pipeline: NativePipeline,
    /// Files of this size or larger are compressed by several threads.
    pub large_file_threshold: u64,
    /// Whether the files of a directory are read in parallel.
    pub parallel_pack_read: bool,
    /// The encoder for files that are encoded in parallel.
    pub codec: CodecKind,
}

impl NativeOptions {
    /// The options for a machine with so many processors, where that is known.
    pub fn for_cpus(cpus: Option<usize>) -> (r: Self)
        ensures
            r.decode_threads == size_parse::processor_count(cpus),
            r.encode_threads is None,
            r.pipeline == NativePipeline::ParallelCodec,
            r.large_file_threshold == DEFAULT_LARGE_FILE_THRESHOLD,
            r.parallel_pack_read,
            r.codec == CodecKind::LibLzma,
    {
        let n: usize = clamp_cpus(cpus);
        NativeOptions {
            decode_threads: n as u32,
            encode_threads: None,
            pipeline: NativePipeline::ParallelCodec,
            large_file_threshold: DEFAULT_LARGE_FILE_THRESHOLD,
            parallel_pack_read: true,
            codec: CodecKind::LibLzma,
        }
    }
}

/// How one file is compressed.
#[derive(Debug, Clone, Copy, PartialEq, Eq, Structural)]
pub enum EntryEncoding {
    /// By one thread.
    Single { level: u32 },
    /// By several threads, in chunks.
    Multi { level: u32, threads: u32, chunk: u64 },
}

/// The backend within the process.
#[derive(Debug, Clone, Copy, PartialEq, Eq, Structural)]
pub struct NativeSevenZ {
    pub options: NativeOptions,
}

/// The larger of a number and one.
pub open spec fn at_least_one(n: u32) -> u32 {
    if n == 0 {
        1
    } else {
        n
    }
}

impl NativeSevenZ {
    /// The backend for a machine with so many processors, where that is known.
    pub fn new(cpus: Option<usize>) -> (r: Self)
        ensures
            r.options.decode_threads == size_parse::processor_count(cpus),
            r.options.encode_threads is None,
            r.options.pipeline == NativePipeline::ParallelCodec,
            r.options.large_file_threshold == DEFAULT_LARGE_FILE_THRESHOLD,
            r.options.parallel_pack_read,
            r.options.codec == CodecKind::LibLzma,
    {
        NativeSevenZ { options: NativeOptions::for_cpus(cpus) }
    }

    /// The backend with given options.
    pub fn with_options(options: NativeOptions) -> (r: Self)
        ensures
            r.options == options,
    {
        NativeSevenZ { options }
    }

    /// How many threads encode: what the packing asks for, else what the backend asks for, else
    /// as many as there are processors; at least one.
    pub open spec fn encoders(self, pack: PackOptions, cpus: Option<usize>) -> int {
        if pack.threads is Some {
            at_least_one(pack.threads->0) as int
        } else if self.options.encode_threads is Some {
            at_least_one(self.options.encode_threads->0) as int
        } else {
            size_parse::processor_count(cpus)
        }
    }

    /// How many threads encode.
    pub fn encode_threads(&self, pack: &PackOptions, cpus: Option<usize>) -> (r: u32)
        ensures
            r == self.encoders(*pack, cpus),
            r >= 1,
    {
        if let Some(t) = pack.threads {
            return if t == 0 {
                1
            } else {
                t
            };
        }
        if let Some(t) = self.options.encode_threads {
            return if t == 0 {
                1
            } else {
                t
            };
        }
        clamp_cpus(cpus) as u32
    }

    /// How a file of a size is compressed: a large one by several threads, if there are several,
    /// in chunks of at least 1 MiB.
    pub open spec fn encoding(self, pack: PackOptions, size: u64, cpus: Option<usize>) -> EntryEncoding {
        let threads = self.encoders(pack, cpus);
        let level = lzma2::capped_level(pack.level);
        let share = size as int / threads;
        if size >= self.options.large_file_threshold && threads > 1 {
            EntryEncoding::Multi {
                level,
                threads: threads as u32,
                chunk: (if share < 1_048_576 {
                    1_048_576
                } else {
                    share
                }) as u64,
            }
        } else {
            EntryEncoding::Single { level }
        }
    }

    /// How a file of a size is compressed.
    pub fn encoding_for_size(&self, pack: &PackOptions, size: u64, cpus: Option<usize>) -> (r:
        EntryEncoding)
        ensures
            r == self.encoding(*pack, size, cpus),
    {
        let level: u32 = if pack.level > 9 {
            9
        } else {
            pack.level
        };
        let threads: u32 = self.encode_threads(pack, cpus);
        if size >= self.options.large_file_threshold && threads > 1 {
            let share: u64 = size / threads as u64;
            let chunk: u64 = if share < 1_048_576 {
                1_048_576
            } else {
                share
            };
            EntryEncoding::Multi { level, threads, chunk }
        } else {
            EntryEncoding::Single { level }
        }
    }

    /// How files of unknown size are compressed: as if they were just large.
    pub fn encoding_default(&self, pack: &PackOptions, cpus: Option<usize>) -> (r: EntryEncoding)
        ensures
            r == self.encoding(*pack, self.options.large_file_threshold, cpus),
    {
        self.encoding_for_size(pack, self.options.large_file_threshold, cpus)
    }

    /// How many decoded files may wait while one is encoded.
    pub fn ahead(depth: usize) -> (r: usize)
        ensures
            r == (if depth == 0 {
                1
            } else {
                depth
            }),
    {
        if depth == 0 {
            1
        } else {
            depth
        }
    }

    /// Whether so many files are read in parallel.
    pub fn reads_in_parallel(&self, files: usize) -> (r: bool)
        ensures
            r == (self.options.parallel_pack_read && files > 32),
    {
        self.options.parallel_pack_read && files > 32
    }
}

/// The error for a failure of the 7z library.
pub fn native_error(message: &str) -> (r: Error)
    ensures
        r@ == ErrorView::Other("native 7z: "@ + message@),
{
    Error::Other(concat2("native 7z: ", message))
}

// ---------------------------------------------------------------------------------------------
// Members
// ---------------------------------------------------------------------------------------------
/// What a header says of a member's times and attributes: each value counts only if its flag is
/// set.
pub fn header_meta(
    modified: (bool, u64),
    created: (bool, u64),
    accessed: (bool, u64),
    attributes: (bool, u32),
) -> (r: FileMeta)
    ensures
        r.mtime == (if modified.0 {
            Some(modified.1)
        } else {
            None
        }),
        r.ctime == (if created.0 {
            Some(created.1)
        } else {
            None
        }),
        r.atime == (if accessed.0 {
            Some(accessed.1)
        } else {
            None
        }),
        r.windows_attributes == (if attributes.0 {
            Some(attributes.1)
        } else {
            None
        }),
{
    FileMeta {
        mtime: if modified.0 {
            Some(modified.1)
        } else {
            None
        },
        ctime: if created.0 {
            Some(created.1)
        } else {
            None
        },
        atime: if accessed.0 {
            Some(accessed.1)
        } else {
            None
        },
        windows_attributes: if attributes.0 {
            Some(attributes.1)
        } else {
            None
        },
    }
}

/// A member as it is listed.
pub fn listed_entry(name: &str, size: u64, is_dir: bool, meta: FileMeta) -> (r: EntryMeta)
    ensures
        r@ == (EntryView {
            path: pathnorm::normalized(name@),
            size,
            is_dir,
            format_hint: if is_dir {
                ArchiveFormat::Unknown
            } else {
                detect::named_format(pathnorm::normalized(name@))
            },
            meta,
        }),
{
    let path = normalize_member_path(name);
    let format_hint = if is_dir {
        ArchiveFormat::Unknown
    } else {
        format_from_path(path.as_str())
    };
    EntryMeta { path, size, is_dir, format_hint, meta }
}

/// The error for a member that is not extracted because its path is not safe.
pub open spec fn unsafe_member(member: Seq<char>) -> ErrorView {
    ErrorView::Other("refusing to extract unsafe member path: "@ + member)
}

/// The path under which a member is looked for; a path that is not safe is refused.
pub fn wanted_member(member: &str) -> (r: Result<String>)
    ensures
        match r {
            Ok(want) => pathnorm::safe(member@) && want@ == pathnorm::normalized(member@),
            Err(e) => !pathnorm::safe(member@) && e@ == unsafe_member(member@),
        },
{
    if !is_safe_member_path(member) {
        return Err(Error::Other(concat2("refusing to extract unsafe member path: ", member)));
    }
    Ok(normalize_member_path(member))
}

/// The number of the first member whose path is not safe.
pub open spec fn first_unsafe(members: Seq<Seq<char>>, i: int) -> Option<int>
    decreases members.len() - i,
{
    if i < 0 || i >= members.len() {
        None
    } else if !pathnorm::safe(members[i]) {
        Some(i)
    } else {
        first_unsafe(members, i + 1)
    }
}

/// The paths under which members are looked for; the first path that is not safe is refused.
pub fn wanted_members(members: &[String]) -> (r: Result<Vec<String>>)
    ensures
        match r {
            Ok(wants) => first_unsafe(text::texts(members@), 0) is None && text::texts(wants@)
                == text::texts(members@).map_values(|m: Seq<char>| pathnorm::normalized(m)),
            Err(e) => first_unsafe(text::texts(members@), 0) matches Some(i) && e@
                == unsafe_member(text::texts(members@)[i]),
        },
{
    let ghost all = text::texts(members@);
    let ghost whole = all.map_values(|m: Seq<char>| pathnorm::normalized(m));
    let mut wants: Vec<String> = Vec::new();
    let mut i: usize = 0;
    assert(text::texts(wants@) =~= whole.take(0));
    while i < members.len()
        invariant
            i <= members.len(),
            all == text::texts(members@),
            whole == all.map_values(|m: Seq<char>| pathnorm::normalized(m)),
            text::texts(wants@) == whole.take(i as int),
            first_unsafe(all, 0) == first_unsafe(all, i as int),
        decreases members.len() - i,
    {
        assert(all[i as int] == members@[i as int]@);
        match wanted_member(members[i].as_str()) {
            Ok(want) => {
                let ghost before = wants@;
                let ghost wv = want@;
                wants.push(want);
                assert(text::texts(wants@) =~= text::texts(before).push(wv));
            },
            Err(e) => {
                return Err(e);
            },
        }
        i += 1;
        assert(text::texts(wants@) =~= whole.take(i as int));
    }
    assert(whole.take(i as int) =~= whole);
    Ok(wants)
}

/// What happens to a member that is decoded.
#[derive(Debug)]
pub enum Fate {
    /// It is a directory and has no content.
    Directory,
    /// Its content is read and thrown away.
    Drop,
    /// It goes on under this path.
    Keep(String),
}

/// The contents of a [`Fate`].
pub enum FateView {
    Directory,
    Drop,
    Keep(Seq<char>),
}

impl View for Fate {
    type V = FateView;

    open spec fn view(&self) -> FateView {
        match *self {
            Fate::Directory => FateView::Directory,
            Fate::Drop => FateView::Drop,
            Fate::Keep(s) => FateView::Keep(s@),
        }
    }
}

/// What happens to a member when an archive is converted: it is kept if its path is safe and the
/// filter keeps it.
pub open spec fn convert_fate(name: Seq<char>, is_dir: bool, filter: FilterView) -> FateView {
    let path = pathnorm::normalized(name);
    if is_dir {
        FateView::Directory
    } else if !pathnorm::safe(path) || !filter.keeps(path, false) {
        FateView::Drop
    } else {
        FateView::Keep(path)
    }
}

/// What happens to a member when some members are extracted: it is kept if its path is safe and
/// wanted.
pub open spec fn extract_fate(name: Seq<char>, is_dir: bool, wants: Seq<Seq<char>>) -> FateView {
    let path = pathnorm::normalized(name);
    if is_dir {
        FateView::Directory
    } else if !pathnorm::safe(path) || !wants.contains(path) {
        FateView::Drop
    } else {
        FateView::Keep(path)
    }
}

/// What happens to a member when some members are extracted.
pub fn fate_when_extracted(name: &str, is_dir: bool, wants: &[String]) -> (r: Fate)
    ensures
        r@ == extract_fate(name@, is_dir, text::texts(wants@)),
{
    if is_dir {
        return Fate::Directory;
    }
    let path = normalize_member_path(name);
    if !is_safe_member_path(path.as_str()) {
        return Fate::Drop;
    }
    let ghost all = text::texts(wants@);
    let mut i: usize = 0;
    while i < wants.len()
        invariant
            i <= wants.len(),
            all == text::texts(wants@),
            forall|k: int| 0 <= k < i ==> #[trigger] all[k] != path@,
            !is_dir,
            path@ == pathnorm::normalized(name@),
            pathnorm::safe(path@),
        decreases wants.len() - i,
    {
        assert(all[i as int] == wants@[i as int]@);
        if same_text(wants[i].as_str(), path.as_str()) {
            return Fate::Keep(path);
        }
        i += 1;
    }
    Fate::Drop
}

/// Chooses the members that go on when an archive is converted, and numbers them.
#[derive(Debug)]
pub struct MemberSelection {
    pub kept: u64,
    pub skipped: u64,
}

impl MemberSelection {
    /// No member has been seen yet.
    pub fn new() -> (r: Self)
        ensures
            r.kept == 0,
            r.skipped == 0,
    {
        MemberSelection { kept: 0, skipped: 0 }
    }

    /// Decides on the next member. The number of a member that is kept is how many were kept
    /// before it.
    pub fn offer(&mut self, name: &str, is_dir: bool, filter: &MemberFilter) -> (r: Fate)
        requires
            old(self).kept < u64::MAX,
            old(self).skipped < u64::MAX,
        ensures
            r@ == convert_fate(name@, is_dir, filter@),
            final(self).kept == old(self).kept + (if r is Keep {
                1int
            } else {
                0
            }),
            final(self).skipped == old(self).skipped + (if r is Drop {
                1int
            } else {
                0
            }),
    {
        if is_dir {
            return Fate::Directory;
        }
        let path = normalize_member_path(name);
        if !is_safe_member_path(path.as_str()) || !filter.should_keep(path.as_str()) {
            self.skipped = self.skipped + 1;
            return Fate::Drop;
        }
        self.kept = self.kept + 1;
        Fate::Keep(path)
    }
}

// ---------------------------------------------------------------------------------------------
// Writing in order
// ---------------------------------------------------------------------------------------------
/// Compressed files that arrive in any order are written in the order of their numbers.
pub struct PackSequencer {
    /// Files that cannot be written yet, by their numbers.
    pending: BTreeMap<usize, PackedEntry>,
    /// The number of the file that is written next.
    next_id: usize,
    writer: NonsolidLzma2Writer,
    /// All files that have arrived.
    arrived: Ghost<Map<usize, PackedEntry>>,
}

impl PackSequencer {
    /// The files that have arrived, by their numbers.
    pub closed spec fn arrived(self) -> Map<usize, PackedEntry> {
        self.arrived@
    }

    /// How many files have been handed on to be written.
    pub closed spec fn written(self) -> nat {
        self.next_id as nat
    }

    /// What has been recorded of them.
    pub closed spec fn recorded(self) -> Seq<FileView> {
        self.writer@
    }

    /// The files with numbers from `from` up to `to`.
    pub open spec fn run(arrived: Map<usize, PackedEntry>, from: nat, to: nat) -> Seq<PackedEntry> {
        Seq::new((to - from) as nat, |i: int| arrived[(from + i) as usize])
    }

    /// What was handed on is what arrived under the first numbers, in the order of the numbers,
    /// and the next number has not arrived.
    pub closed spec fn valid(self) -> bool {
        &&& forall|k: usize| #[trigger]
            self.pending@.contains_key(k) <==> self.arrived@.contains_key(k) && k >= self.next_id
        &&& forall|k: usize| #[trigger]
            self.pending@.contains_key(k) ==> self.pending@[k] == self.arrived@[k]
        &&& forall|k: usize| k < self.next_id ==> #[trigger] self.arrived@.contains_key(k)
        &&& !self.arrived@.contains_key(self.next_id)
        &&& !self.arrived@.contains_key(usize::MAX)
        &&& self.writer@ == writer::records_of(
            PackSequencer::run(self.arrived@, 0, self.next_id as nat),
        )
    }

    /// Nothing has arrived yet.
    pub fn new() -> (r: Self)
        ensures
            r.valid(),
            r.arrived() == Map::<usize, PackedEntry>::empty(),
            r.written() == 0,
            r.recorded() == Seq::<FileView>::empty(),
    {
        let r = PackSequencer {
            pending: BTreeMap::new(),
            next_id: 0,
            writer: NonsolidLzma2Writer::new(),
            arrived: Ghost(Map::empty()),
        };
        assert(writer::records_of(PackSequencer::run(r.arrived@, 0, 0)) =~= Seq::<
            FileView,
        >::empty());
        r
    }

    /// Whether a file with this number can still arrive.
    pub fn expects(&self, id: usize) -> (r: bool)
        requires
            self.valid(),
        ensures
            r == (id < usize::MAX && !self.arrived().contains_key(id)),
    {
        id < usize::MAX && id >= self.next_id && !self.pending.contains_key(&id)
    }

    /// Takes a compressed file and gives back the files whose turn it is, in order; the caller
    /// appends their streams to the output.
    pub fn accept(&mut self, id: usize, entry: PackedEntry) -> (r: Vec<PackedEntry>)
        requires
            old(self).valid(),
            id < usize::MAX,
            !old(self).arrived().contains_key(id),
        ensures
            final(self).valid(),
            final(self).arrived() == old(self).arrived().insert(id, entry),
            final(self).written() >= old(self).written(),
            !final(self).arrived().contains_key(final(self).written() as usize),
            forall|k: usize|
                k < final(self).written() ==> #[trigger] final(self).arrived().contains_key(k),
            r@ == PackSequencer::run(
                final(self).arrived(),
                old(self).written(),
                final(self).written(),
            ),
            final(self).recorded() == old(self).recorded() + writer::records_of(r@),
    {
        let ghost arrived = self.arrived@.insert(id, entry);
        let ghost start = self.next_id as nat;
        let ghost base = self.writer@;
        assert(PackSequencer::run(arrived, 0, start) =~= PackSequencer::run(
            self.arrived@,
            0,
            start,
        ));
        self.pending.insert(id, entry);
        self.arrived = Ghost(arrived);
        let mut out: Vec<PackedEntry> = Vec::new();
        assert(out@ =~= PackSequencer::run(arrived, start, start));
        assert(writer::records_of(out@) =~= Seq::<FileView>::empty());
        loop
            invariant
                self.arrived@ == arrived,
                start <= self.next_id <= usize::MAX,
                forall|k: usize| #[trigger]
                    self.pending@.contains_key(k) <==> arrived.contains_key(k) && k
                        >= self.next_id,
                forall|k: usize| #[trigger]
                    self.pending@.contains_key(k) ==> self.pending@[k] == arrived[k],
                forall|k: usize| k < self.next_id ==> #[trigger] arrived.contains_key(k),
                out@ == PackSequencer::run(arrived, start, self.next_id as nat),
                self.writer@ == base + writer::records_of(out@),
                base == writer::records_of(PackSequencer::run(arrived, 0, start)),
                !arrived.contains_key(usize::MAX),
            ensures
                !arrived.contains_key(self.next_id),
            decreases usize::MAX - self.next_id,
        {
            let turn = self.pending.remove(&self.next_id);
            match turn {
                Some(done) => {
                    self.writer.push_entry(&done);
                    let ghost before = out@;
                    out.push(done);
                    self.next_id = self.next_id + 1;
                    assert(out@ =~= PackSequencer::run(arrived, start, self.next_id as nat));
                    assert(writer::records_of(out@) =~= writer::records_of(before).push(
                        done.record(),
                    ));
                },
                None => {
                    break;
                },
            }
        }
        proof {
            let end = self.next_id as nat;
            assert(PackSequencer::run(arrived, 0, end) =~= PackSequencer::run(arrived, 0, start)
                + out@);
            assert(writer::records_of(PackSequencer::run(arrived, 0, end)) =~= base
                + writer::records_of(out@));
        }
        out
    }

    /// How many files have been handed on to be written.
    pub fn len(&self) -> (r: usize)
        requires
            self.valid(),
        ensures
            r == self.written(),
    {
        self.next_id
    }

    /// The end of the archive, whose packed streams end at position `header_pos`. An archive
    /// without files is refused.
    pub fn finish(self, header_pos: u64) -> (r: Result<ArchiveEnd>)
        requires
            self.valid(),
            header_pos >= SIG_HEADER_SIZE,
        ensures
            match r {
                Ok(end) => self.written() > 0 && writer::ends_archive(
                    end,
                    self.recorded(),
                    header_pos,
                ),
                Err(e) => self.written() == 0 && e@ == ErrorView::Other(
                    "no files left after filters; refusing empty archive"@,
                ),
            },
    {
        assert(self.writer@.len() == self.next_id);
        if self.writer.is_empty() {
            return Err(other("no files left after filters; refusing empty archive"));
        }
        self.writer.finish(header_pos)
    }
}

/// Law: once the files with the numbers below `n` have arrived and no others, in whatever order,
/// all of them have been handed on, and the archive records them in the order of their numbers.
pub proof fn law_order_is_restored(s: PackSequencer, n: nat)
    requires
        s.valid(),
        n <= usize::MAX,
        forall|k: usize| #[trigger] s.arrived().contains_key(k) <==> k < n,
    ensures
        s.written() == n,
        s.recorded() == writer::records_of(PackSequencer::run(s.arrived(), 0, n)),
{
    if s.next_id < n {
        assert(s.arrived().contains_key(s.next_id));
    }
    if n < s.next_id {
        assert(s.arrived().contains_key(n as usize));
    }
}

// ---------------------------------------------------------------------------------------------
// Packing a directory
// ---------------------------------------------------------------------------------------------
/// The name of a file within the archive, by its path below the packed directory; `None` where
/// the path is not safe.
pub fn packed_name(rel: &str) -> (r: Option<String>)
    ensures
        ({
            let name = pathnorm::normalized(text::swapped(rel@, '\\', '/'));
            match r {
                Some(n) => pathnorm::safe(name) && n@ == name,
                None => !pathnorm::safe(name),
            }
        }),
{
    let slashed = string_of(swap_chars(chars_of(rel).as_slice(), '\\', '/').as_slice());
    let name = normalize_member_path(slashed.as_str());
    if is_safe_member_path(name.as_str()) {
        Some(name)
    } else {
        None
    }
}

/// The numbers of the files in the order in which they are packed: by their names.
pub fn pack_order(names: &[String]) -> (r: Vec<usize>)
    ensures
        order::arrangement(r@, names.len() as int),
        forall|i: int, j: int|
            0 <= i < j < r.len() ==> order::goes_before(
                text::texts(names@),
                #[trigger] r[i],
                #[trigger] r[j],
            ),
{
    sorted_order(names)
}

// ---------------------------------------------------------------------------------------------
// Exclusion globs
// ---------------------------------------------------------------------------------------------
/// Whether an exclusion glob matches a path, as the 7z program reads it: `*` stands for any run of
/// characters.
pub fn glob_match_simple(pattern: &str, path: &str) -> (r: bool)
    ensures
        r == wild::wild(pattern@, path@),
{
    wild_match(chars_of(pattern).as_slice(), chars_of(path).as_slice())
}

/// Whether one of the globs matches an extracted file, by its path below the directory.
pub fn excluded_by(globs: &[String], rel: &str) -> (r: bool)
    ensures
        r == wild::any_wild(text::texts(globs@), text::swapped(rel@, '\\', '/')),
{
    let slashed = string_of(swap_chars(chars_of(rel).as_slice(), '\\', '/').as_slice());
    let ghost all = text::texts(globs@);
    let mut i: usize = 0;
    while i < globs.len()
        invariant
            i <= globs.len(),
            all == text::texts(globs@),
            slashed@ == text::swapped(rel@, '\\', '/'),
            forall|k: int| 0 <= k < i ==> !wild::wild(#[trigger] all[k], slashed@),
        decreases globs.len() - i,
    {
        assert(all[i as int] == globs@[i as int]@);
        if glob_match_simple(globs[i].as_str(), slashed.as_str()) {
            return true;
        }
        i += 1;
    }
    false
}

} // verus!
