//! The raw (not itself compressed) header of a non-solid 7z archive: one folder and one stream
//! for each file that is not empty.
//!
//! ```text
//! Header
//!   MainStreamsInfo
//!     PackInfo (position, count, sizes, checksums)
//!     UnpackInfo (folders, unpacked sizes)
//!     SubStreamsInfo (checksums of the contents)
//!   FilesInfo (count, [empty streams, empty files], names, [times], [attributes])
//! End
//! ```
//!
//! Times and attributes are written only where a file has them; none is made up.

use crate::codec::bytes;
use crate::codec::bytes::{bitset_bytes, push_le, push_utf16, write_u64};
use crate::codec::checksum;
use crate::codec::checksum::crc32_of;
use crate::error::Result;
use crate::util::text::chars_of;
use vstd::prelude::*;

verus! {

/// The length of the start header.
pub const SIG_HEADER_SIZE: u64 = 32;

pub const K_END: u8 = 0x00;

pub const K_HEADER: u8 = 0x01;

pub const K_MAIN_STREAMS_INFO: u8 = 0x04;

pub const K_FILES_INFO: u8 = 0x05;

pub const K_PACK_INFO: u8 = 0x06;

pub const K_UNPACK_INFO: u8 = 0x07;

pub const K_SUB_STREAMS_INFO: u8 = 0x08;

pub const K_SIZE: u8 = 0x09;

pub const K_CRC: u8 = 0x0A;

pub const K_FOLDER: u8 = 0x0B;

pub const K_CODERS_UNPACK_SIZE: u8 = 0x0C;

pub const K_EMPTY_STREAM: u8 = 0x0E;

pub const K_EMPTY_FILE: u8 = 0x0F;

pub const K_NAME: u8 = 0x11;

pub const K_C_TIME: u8 = 0x12;

pub const K_A_TIME: u8 = 0x13;

pub const K_M_TIME: u8 = 0x14;

pub const K_WIN_ATTRIBUTES: u8 = 0x15;

/// The archive attribute with the Unix mode of a regular file (`0o100644`) in the high half.
pub const ATTR_FILE: u32 = 0x81A4_0020;

/// The times and attributes of a member, each of them known or not.
///
/// Times count steps of 100 ns since 1601-01-01 UTC.
#[derive(Debug, Clone, Copy, PartialEq, Eq, Structural)]
pub struct FileMeta {
    pub mtime: Option<u64>,
    pub ctime: Option<u64>,
    pub atime: Option<u64>,
    pub windows_attributes: Option<u32>,
}

/// The first of two values that is known.
pub open spec fn known<T>(a: Option<T>, b: Option<T>) -> Option<T> {
    if a is Some {
        a
    } else {
        b
    }
}

impl FileMeta {
    /// Nothing known.
    pub open spec fn nothing() -> FileMeta {
        FileMeta { mtime: None, ctime: None, atime: None, windows_attributes: None }
    }

    /// What is known from `self`, and the rest from `other`.
    pub open spec fn merged(self, other: FileMeta) -> FileMeta {
        FileMeta {
            mtime: known(self.mtime, other.mtime),
            ctime: known(self.ctime, other.ctime),
            atime: known(self.atime, other.atime),
            windows_attributes: known(self.windows_attributes, other.windows_attributes),
        }
    }

    /// What a file system says of a file: three moments (seconds and nanoseconds since 1970, where
    /// there are such), its Unix mode, and whether it is a directory.
    pub fn from_fs(
        modified: Option<(u64, u32)>,
        created: Option<(u64, u32)>,
        accessed: Option<(u64, u32)>,
        mode: Option<u32>,
        is_dir: bool,
    ) -> (r: Self)
        ensures
            opt_nat(r.mtime) == filetime(modified),
            opt_nat(r.ctime) == filetime(created),
            opt_nat(r.atime) == filetime(accessed),
            r.windows_attributes is Some,
            r.windows_attributes->0 == fs_attributes(mode, is_dir),
    {
        FileMeta {
            mtime: system_time_to_filetime(modified),
            ctime: system_time_to_filetime(created),
            atime: system_time_to_filetime(accessed),
            windows_attributes: Some(attrs_from_fs_meta(mode, is_dir)),
        }
    }

    /// True when at least one field is set.
    pub fn is_empty(&self) -> (r: bool)
        ensures
            r == (*self != FileMeta::nothing()),
    {
        self.mtime.is_some() || self.ctime.is_some() || self.atime.is_some()
            || self.windows_attributes.is_some()
    }

    /// Fills what is not known from `other`.
    pub fn merge_missing(&mut self, other: &FileMeta)
        ensures
            *final(self) == old(self).merged(*other),
    {
        if self.mtime.is_none() {
            self.mtime = other.mtime;
        }
        if self.ctime.is_none() {
            self.ctime = other.ctime;
        }
        if self.atime.is_none() {
            self.atime = other.atime;
        }
        if self.windows_attributes.is_none() {
            self.windows_attributes = other.windows_attributes;
        }
    }
}

impl Default for FileMeta {
    fn default() -> (r: Self)
        ensures
            r == FileMeta::nothing(),
    {
        FileMeta { mtime: None, ctime: None, atime: None, windows_attributes: None }
    }
}

/// The value as a natural number.
pub open spec fn opt_nat(v: Option<u64>) -> Option<nat> {
    match v {
        Some(x) => Some(x as nat),
        None => None,
    }
}

/// Steps of 100 ns since 1601 for a moment since 1970, where they fit a `u64`.
pub open spec fn filetime(since_1970: Option<(u64, u32)>) -> Option<nat> {
    match since_1970 {
        Some((secs, nanos)) => {
            let steps = (secs as nat + 11_644_473_600) * 10_000_000 + nanos as nat / 100;
            if steps <= u64::MAX {
                Some(steps)
            } else {
                None
            }
        },
        None => None,
    }
}

/// The attribute word: the archive bit, the directory bit, and the Unix mode in the high half.
pub open spec fn fs_attributes(mode: Option<u32>, is_dir: bool) -> int {
    0x20 + (if is_dir {
        0x10int
    } else {
        0
    }) + (match mode {
        Some(m) => 0x1_0000 * (m as int % 0x1_0000),
        None => 0,
    })
}

/// Turns a moment (seconds and nanoseconds since 1970) into steps of 100 ns since 1601; `None`
/// for a moment before 1970 and for one that does not fit.
pub fn system_time_to_filetime(since_1970: Option<(u64, u32)>) -> (r: Option<u64>)
    ensures
        opt_nat(r) == filetime(since_1970),
{
    match since_1970 {
        None => None,
        Some((secs, nanos)) => {
            let shifted: u64 = match secs.checked_add(11_644_473_600) {
                Some(x) => x,
                None => {
                    return None;
                },
            };
            let steps: u64 = match shifted.checked_mul(10_000_000) {
                Some(x) => x,
                None => {
                    return None;
                },
            };
            steps.checked_add((nanos / 100) as u64)
        },
    }
}

/// The moment `now` in steps of 100 ns since 1601, or zero where it cannot be written so.
pub fn filetime_now(now: Option<(u64, u32)>) -> (r: u64)
    ensures
        r == (match filetime(now) {
            Some(t) => t,
            None => 0,
        }),
{
    match system_time_to_filetime(now) {
        Some(t) => t,
        None => 0,
    }
}

/// The attribute word for a file system entry.
pub fn attrs_from_fs_meta(mode: Option<u32>, is_dir: bool) -> (r: u32)
    ensures
        r == fs_attributes(mode, is_dir),
{
    let base: u32 = if is_dir {
        0x30
    } else {
        0x20
    };
    match mode {
        Some(m) => base + 0x1_0000 * (m % 0x1_0000),
        None => base,
    }
}

/// One file of the archive.
#[derive(Debug, Clone)]
pub struct HeaderFile {
    pub name: String,
    /// Length of the packed stream.
    pub pack_size: u64,
    /// Checksum of the packed stream.
    pub pack_crc: u32,
    /// Length of the contents.
    pub unpack_size: u64,
    /// Checksum of the contents.
    pub content_crc: u32,
    /// Identifier of the method (`[0x21]` for LZMA2, `[0x00]` for storing).
    pub method_id: Vec<u8>,
    /// Properties of the method.
    pub method_props: Vec<u8>,
    /// The file is empty and has no stream.
    pub empty: bool,
    /// Times and attributes.
    pub meta: FileMeta,
}

/// The contents of a [`HeaderFile`].
#[verifier::ext_equal]
pub struct FileView {
    pub name: Seq<char>,
    pub pack_size: u64,
    pub pack_crc: u32,
    pub unpack_size: u64,
    pub content_crc: u32,
    pub method_id: Seq<u8>,
    pub method_props: Seq<u8>,
    pub empty: bool,
    pub meta: FileMeta,
}

impl View for HeaderFile {
    type V = FileView;

    open spec fn view(&self) -> FileView {
        FileView {
            name: self.name@,
            pack_size: self.pack_size,
            pack_crc: self.pack_crc,
            unpack_size: self.unpack_size,
            content_crc: self.content_crc,
            method_id: self.method_id@,
            method_props: self.method_props@,
            empty: self.empty,
            meta: self.meta,
        }
    }
}

/// The views of a sequence of files.
pub open spec fn file_views(v: Seq<HeaderFile>) -> Seq<FileView> {
    v.map_values(|f: HeaderFile| f@)
}

// ---------------------------------------------------------------------------------------------
// The bytes of the header
// ---------------------------------------------------------------------------------------------
/// The files that have a stream.
pub open spec fn streams(files: Seq<FileView>) -> Seq<FileView>
    decreases files.len(),
{
    if files.len() == 0 {
        files
    } else if files.last().empty {
        streams(files.drop_last())
    } else {
        streams(files.drop_last()).push(files.last())
    }
}

/// A part of each file, one after the other.
pub open spec fn gather(files: Seq<FileView>, part: spec_fn(FileView) -> Seq<u8>) -> Seq<u8>
    decreases files.len(),
{
    if files.len() == 0 {
        Seq::empty()
    } else {
        gather(files.drop_last(), part) + part(files.last())
    }
}

/// The length of the packed stream.
pub open spec fn pack_size_part() -> spec_fn(FileView) -> Seq<u8> {
    |f: FileView| bytes::number(f.pack_size)
}

/// The checksum of the packed stream.
pub open spec fn pack_crc_part() -> spec_fn(FileView) -> Seq<u8> {
    |f: FileView| bytes::le_bytes(f.pack_crc as nat, 4)
}

/// The folder of a file: one coder with its properties.
pub open spec fn folder(f: FileView) -> Seq<u8> {
    let id = if f.method_id.len() == 0 {
        seq![0u8]
    } else {
        f.method_id
    };
    let flags = (id.len() % 16) as int + (if f.method_props.len() > 0 {
        0x20int
    } else {
        0
    });
    bytes::number(1) + seq![flags as u8] + id + (if f.method_props.len() > 0 {
        bytes::number(f.method_props.len() as u64) + f.method_props
    } else {
        Seq::empty()
    })
}

/// The folder of a file.
pub open spec fn folder_part() -> spec_fn(FileView) -> Seq<u8> {
    |f: FileView| folder(f)
}

/// The length of the contents.
pub open spec fn unpack_size_part() -> spec_fn(FileView) -> Seq<u8> {
    |f: FileView| bytes::number(f.unpack_size)
}

/// The checksum of the contents.
pub open spec fn content_crc_part() -> spec_fn(FileView) -> Seq<u8> {
    |f: FileView| bytes::le_bytes(f.content_crc as nat, 4)
}

/// The name in UTF-16, ended by a zero.
pub open spec fn name_part() -> spec_fn(FileView) -> Seq<u8> {
    |f: FileView| bytes::utf16(f.name) + seq![0u8, 0u8]
}

/// Where the packed streams are, how long, and their checksums.
pub open spec fn pack_info(s: Seq<FileView>) -> Seq<u8> {
    seq![K_PACK_INFO] + bytes::number(0) + bytes::number(s.len() as u64) + seq![K_SIZE] + gather(
        s,
        pack_size_part(),
    ) + seq![K_CRC, 1u8] + gather(s, pack_crc_part()) + seq![K_END]
}

/// The folders and the lengths of the contents.
pub open spec fn unpack_info(s: Seq<FileView>) -> Seq<u8> {
    seq![K_UNPACK_INFO, K_FOLDER] + bytes::number(s.len() as u64) + seq![0u8] + gather(
        s,
        folder_part(),
    ) + seq![K_CODERS_UNPACK_SIZE] + gather(s, unpack_size_part()) + seq![K_END]
}

/// The checksums of the contents.
pub open spec fn substreams_info(s: Seq<FileView>) -> Seq<u8> {
    seq![K_SUB_STREAMS_INFO, K_CRC, 1u8] + gather(s, content_crc_part()) + seq![K_END]
}

/// Which files are empty.
pub open spec fn empty_flags(files: Seq<FileView>) -> Seq<bool> {
    files.map_values(|f: FileView| f.empty)
}

/// `n` flags that are all set.
pub open spec fn all_set(n: nat) -> Seq<bool> {
    Seq::new(n, |i: int| true)
}

/// A property: its identifier, its length and its body.
pub open spec fn property(id: u8, body: Seq<u8>) -> Seq<u8> {
    seq![id] + bytes::number(body.len() as u64) + body
}

/// The properties that mark the empty files; nothing where there are none.
pub open spec fn empty_info(files: Seq<FileView>) -> Seq<u8> {
    let empties = (files.len() - streams(files).len()) as nat;
    if empties == 0 {
        Seq::empty()
    } else {
        property(K_EMPTY_STREAM, bytes::bit_set(empty_flags(files))) + property(
            K_EMPTY_FILE,
            bytes::bit_set(all_set(empties)),
        )
    }
}

/// Which values are known.
pub open spec fn known_flags(values: Seq<Option<u64>>) -> Seq<bool> {
    values.map_values(|v: Option<u64>| v is Some)
}

/// How many values are known.
pub open spec fn known_count(values: Seq<Option<u64>>) -> nat
    decreases values.len(),
{
    if values.len() == 0 {
        0
    } else {
        known_count(values.drop_last()) + (if values.last() is Some {
            1nat
        } else {
            0
        })
    }
}

/// The known values, each in `width` bytes.
pub open spec fn value_bytes(values: Seq<Option<u64>>, width: nat) -> Seq<u8>
    decreases values.len(),
{
    if values.len() == 0 {
        Seq::empty()
    } else {
        value_bytes(values.drop_last(), width) + (match values.last() {
            Some(v) => bytes::le_bytes(v as nat, width),
            None => Seq::empty(),
        })
    }
}

/// The body of a property with one value for each file: which values are known, and those.
pub open spec fn value_body(values: Seq<Option<u64>>, width: nat) -> Seq<u8> {
    (if known_count(values) == values.len() {
        seq![1u8]
    } else {
        seq![0u8] + bytes::bit_set(known_flags(values))
    }) + seq![0u8] + value_bytes(values, width)
}

/// A property with one value for each file; nothing where no value is known.
pub open spec fn value_property(id: u8, values: Seq<Option<u64>>, width: nat) -> Seq<u8> {
    if known_count(values) == 0 {
        Seq::empty()
    } else {
        property(id, value_body(values, width))
    }
}

/// A `u32` value as a `u64`.
pub open spec fn widen(v: Option<u32>) -> Option<u64> {
    match v {
        Some(x) => Some(x as u64),
        None => None,
    }
}

/// The creation times.
pub open spec fn ctimes(files: Seq<FileView>) -> Seq<Option<u64>> {
    files.map_values(|f: FileView| f.meta.ctime)
}

/// The access times.
pub open spec fn atimes(files: Seq<FileView>) -> Seq<Option<u64>> {
    files.map_values(|f: FileView| f.meta.atime)
}

/// The modification times.
pub open spec fn mtimes(files: Seq<FileView>) -> Seq<Option<u64>> {
    files.map_values(|f: FileView| f.meta.mtime)
}

/// The attribute words.
pub open spec fn attributes(files: Seq<FileView>) -> Seq<Option<u64>> {
    files.map_values(|f: FileView| widen(f.meta.windows_attributes))
}

/// What is known of the files.
pub open spec fn files_info(files: Seq<FileView>) -> Seq<u8> {
    seq![K_FILES_INFO] + bytes::number(files.len() as u64) + empty_info(files) + property(
        K_NAME,
        seq![0u8] + gather(files, name_part()),
    ) + value_property(K_C_TIME, ctimes(files), 8) + value_property(K_A_TIME, atimes(files), 8)
        + value_property(K_M_TIME, mtimes(files), 8) + value_property(
        K_WIN_ATTRIBUTES,
        attributes(files),
        4,
    ) + seq![K_END]
}

/// The three descriptions of the streams; nothing where there are no streams.
pub open spec fn streams_info(s: Seq<FileView>) -> Seq<u8> {
    if s.len() == 0 {
        Seq::empty()
    } else {
        pack_info(s) + unpack_info(s) + substreams_info(s)
    }
}

/// The header of an archive of these files.
pub open spec fn raw_header(files: Seq<FileView>) -> Seq<u8> {
    seq![K_HEADER, K_MAIN_STREAMS_INFO] + streams_info(streams(files)) + seq![K_END] + files_info(
        files,
    ) + seq![K_END]
}

/// What the start header says of the header: where it is, how long, and its checksum.
pub open spec fn start_fields(offset: u64, size: u64, crc: u32) -> Seq<u8> {
    bytes::le_bytes(offset as nat, 8) + bytes::le_bytes(size as nat, 8) + bytes::le_bytes(
        crc as nat,
        4,
    )
}

/// The start header: signature, version, checksum of the fields, and the fields.
pub open spec fn start_header(offset: u64, size: u64, crc: u32) -> Seq<u8> {
    seq![0x37u8, 0x7A, 0xBC, 0xAF, 0x27, 0x1C, 0, 4] + bytes::le_bytes(
        checksum::crc32(start_fields(offset, size, crc)) as nat,
        4,
    ) + start_fields(offset, size, crc)
}

// ---------------------------------------------------------------------------------------------
// Writing
// ---------------------------------------------------------------------------------------------
proof fn lemma_streams_len(files: Seq<FileView>)
    ensures
        streams(files).len() <= files.len(),
    decreases files.len(),
{
    if files.len() > 0 {
        lemma_streams_len(files.drop_last());
    }
}

/// One file more: what that adds to the files with a stream and to a part of those.
proof fn lemma_gather_next(files: Seq<FileView>, i: int, part: spec_fn(FileView) -> Seq<u8>)
    requires
        0 <= i < files.len(),
    ensures
        files[i].empty ==> streams(files.take(i + 1)) == streams(files.take(i)),
        !files[i].empty ==> streams(files.take(i + 1)) == streams(files.take(i)).push(files[i])
            && gather(streams(files.take(i + 1)), part) == gather(streams(files.take(i)), part)
            + part(files[i]),
        gather(files.take(i + 1), part) == gather(files.take(i), part) + part(files[i]),
{
    assert(files.take(i + 1).drop_last() =~= files.take(i));
    assert(files.take(i + 1).last() == files[i]);
    if !files[i].empty {
        let s = streams(files.take(i));
        assert(s.push(files[i]).drop_last() =~= s);
        assert(s.push(files[i]).last() == files[i]);
    }
}

/// What a header says of each file with a stream.
#[derive(Debug, Clone, Copy, PartialEq, Eq, Structural)]
enum StreamPart {
    /// The length of the packed stream.
    PackSize,
    /// The checksum of the packed stream.
    PackCrc,
    /// The folder.
    Folder,
    /// The length of the contents.
    UnpackSize,
    /// The checksum of the contents.
    ContentCrc,
}

impl StreamPart {
    /// The bytes for one file.
    spec fn bytes(self) -> spec_fn(FileView) -> Seq<u8> {
        match self {
            StreamPart::PackSize => pack_size_part(),
            StreamPart::PackCrc => pack_crc_part(),
            StreamPart::Folder => folder_part(),
            StreamPart::UnpackSize => unpack_size_part(),
            StreamPart::ContentCrc => content_crc_part(),
        }
    }

    /// Appends the bytes for one file.
    fn write(self, h: &mut Vec<u8>, f: &HeaderFile)
        ensures
            final(h)@ == old(h)@ + self.bytes()(f@),
    {
        match self {
            StreamPart::PackSize => {
                let _ = write_u64(h, f.pack_size);
            },
            StreamPart::PackCrc => push_le(h, f.pack_crc as u64, 4),
            StreamPart::Folder => write_folder(h, f),
            StreamPart::UnpackSize => {
                let _ = write_u64(h, f.unpack_size);
            },
            StreamPart::ContentCrc => push_le(h, f.content_crc as u64, 4),
        }
    }
}

/// Appends one part of each file with a stream.
fn write_stream_parts(h: &mut Vec<u8>, files: &[HeaderFile], which: StreamPart)
    ensures
        final(h)@ == old(h)@ + gather(streams(file_views(files@)), which.bytes()),
{
    let ghost start = h@;
    let ghost all = file_views(files@);
    let ghost part = which.bytes();
    let mut i: usize = 0;
    assert(all.take(0) =~= Seq::<FileView>::empty());
    assert(h@ =~= start + gather(streams(all.take(0)), part));
    while i < files.len()
        invariant
            i <= files.len(),
            all == file_views(files@),
            part == which.bytes(),
            h@ == start + gather(streams(all.take(i as int)), part),
        decreases files.len() - i,
    {
        let f = &files[i];
        assert(all[i as int] == f@);
        let ghost before = gather(streams(all.take(i as int)), part);
        proof {
            lemma_gather_next(all, i as int, part);
        }
        if !f.empty {
            which.write(h, f);
            assert(h@ =~= start + (before + part(f@)));
        }
        i += 1;
    }
    assert(all.take(i as int) =~= all);
}

/// How many files have a stream.
fn count_streams(files: &[HeaderFile]) -> (r: usize)
    ensures
        r == streams(file_views(files@)).len(),
        r <= files@.len(),
{
    let ghost all = file_views(files@);
    let mut n: usize = 0;
    let mut i: usize = 0;
    assert(all.take(0) =~= Seq::<FileView>::empty());
    while i < files.len()
        invariant
            i <= files.len(),
            n <= i,
            all == file_views(files@),
            n == streams(all.take(i as int)).len(),
        decreases files.len() - i,
    {
        assert(all[i as int] == files@[i as int]@);
        proof {
            lemma_gather_next(all, i as int, name_part());
        }
        if !files[i].empty {
            n += 1;
        }
        i += 1;
    }
    assert(all.take(i as int) =~= all);
    n
}

/// Appends the folder of one file.
fn write_folder(h: &mut Vec<u8>, f: &HeaderFile)
    ensures
        final(h)@ == old(h)@ + folder(f@),
{
    let ghost start = h@;
    let _ = write_u64(h, 1);
    let id_len: usize = if f.method_id.len() == 0 {
        1
    } else {
        f.method_id.len()
    };
    let base: u8 = (id_len % 16) as u8;
    let flags: u8 = if f.method_props.len() > 0 {
        base + 0x20
    } else {
        base
    };
    h.push(flags);
    if f.method_id.len() == 0 {
        h.push(0);
    } else {
        push_bytes(h, f.method_id.as_slice());
    }
    if f.method_props.len() > 0 {
        let _ = write_u64(h, f.method_props.len() as u64);
        push_bytes(h, f.method_props.as_slice());
    }
    assert(h@ =~= start + folder(f@));
}

/// Appends bytes as they are.
pub fn push_bytes(h: &mut Vec<u8>, data: &[u8])
    ensures
        final(h)@ == old(h)@ + data@,
{
    let ghost start = h@;
    h.extend_from_slice(data);
    assert(h@ =~= start + data@);
}

/// Appends where the packed streams are.
fn write_pack_info(h: &mut Vec<u8>, files: &[HeaderFile])
    ensures
        final(h)@ == old(h)@ + pack_info(streams(file_views(files@))),
{
    let ghost start = h@;
    let ghost s = streams(file_views(files@));
    let n: usize = count_streams(files);
    h.push(K_PACK_INFO);
    let _ = write_u64(h, 0);
    let _ = write_u64(h, n as u64);
    h.push(K_SIZE);
    assert(h@ =~= start + (seq![K_PACK_INFO] + bytes::number(0) + bytes::number(s.len() as u64)
        + seq![K_SIZE]));
    write_stream_parts(h, files, StreamPart::PackSize);
    h.push(K_CRC);
    h.push(1);
    write_stream_parts(h, files, StreamPart::PackCrc);
    h.push(K_END);
    assert(h@ =~= start + pack_info(s));
}

/// Appends the folders and the lengths of the contents.
fn write_unpack_info(h: &mut Vec<u8>, files: &[HeaderFile])
    ensures
        final(h)@ == old(h)@ + unpack_info(streams(file_views(files@))),
{
    let ghost start = h@;
    let ghost s = streams(file_views(files@));
    let n: usize = count_streams(files);
    h.push(K_UNPACK_INFO);
    h.push(K_FOLDER);
    let _ = write_u64(h, n as u64);
    h.push(0);
    write_stream_parts(h, files, StreamPart::Folder);
    h.push(K_CODERS_UNPACK_SIZE);
    write_stream_parts(h, files, StreamPart::UnpackSize);
    h.push(K_END);
    assert(h@ =~= start + unpack_info(s));
}

/// Appends the checksums of the contents.
fn write_substreams_info(h: &mut Vec<u8>, files: &[HeaderFile])
    ensures
        final(h)@ == old(h)@ + substreams_info(streams(file_views(files@))),
{
    let ghost start = h@;
    h.push(K_SUB_STREAMS_INFO);
    h.push(K_CRC);
    h.push(1);
    write_stream_parts(h, files, StreamPart::ContentCrc);
    h.push(K_END);
    assert(h@ =~= start + substreams_info(streams(file_views(files@))));
}

/// Appends a property.
fn write_property(h: &mut Vec<u8>, id: u8, body: &[u8])
    ensures
        final(h)@ == old(h)@ + property(id, body@),
{
    let ghost start = h@;
    h.push(id);
    let _ = write_u64(h, body.len() as u64);
    push_bytes(h, body);
    assert(h@ =~= start + property(id, body@));
}

/// Appends the properties that mark the empty files.
fn write_empty_info(h: &mut Vec<u8>, files: &[HeaderFile])
    ensures
        final(h)@ == old(h)@ + empty_info(file_views(files@)),
{
    let ghost start = h@;
    let ghost all = file_views(files@);
    let n: usize = count_streams(files);
    let empties: usize = files.len() - n;
    if empties == 0 {
        assert(h@ =~= start + Seq::<u8>::empty());
        return;
    }
    let mut flags: Vec<bool> = Vec::new();
    let mut i: usize = 0;
    while i < files.len()
        invariant
            i <= files.len(),
            all == file_views(files@),
            flags@ == empty_flags(all).take(i as int),
        decreases files.len() - i,
    {
        assert(all[i as int] == files@[i as int]@);
        flags.push(files[i].empty);
        i += 1;
        assert(flags@ =~= empty_flags(all).take(i as int));
    }
    assert(flags@ =~= empty_flags(all));
    let mut ones: Vec<bool> = Vec::new();
    let mut k: usize = 0;
    while k < empties
        invariant
            k <= empties,
            ones@ == all_set(k as nat),
        decreases empties - k,
    {
        ones.push(true);
        k += 1;
        assert(ones@ =~= all_set(k as nat));
    }
    write_property(h, K_EMPTY_STREAM, bitset_bytes(flags.as_slice()).as_slice());
    write_property(h, K_EMPTY_FILE, bitset_bytes(ones.as_slice()).as_slice());
    assert(h@ =~= start + empty_info(all));
}

/// Appends the names.
fn write_names(h: &mut Vec<u8>, files: &[HeaderFile])
    ensures
        final(h)@ == old(h)@ + property(
            K_NAME,
            seq![0u8] + gather(file_views(files@), name_part()),
        ),
{
    let ghost all = file_views(files@);
    let ghost part = name_part();
    let mut names: Vec<u8> = Vec::new();
    names.push(0);
    let mut i: usize = 0;
    assert(all.take(0) =~= Seq::<FileView>::empty());
    assert(names@ =~= seq![0u8] + gather(all.take(0), part));
    while i < files.len()
        invariant
            i <= files.len(),
            all == file_views(files@),
            part == name_part(),
            names@ == seq![0u8] + gather(all.take(i as int), part),
        decreases files.len() - i,
    {
        assert(all[i as int] == files@[i as int]@);
        let ghost before = gather(all.take(i as int), part);
        proof {
            lemma_gather_next(all, i as int, part);
        }
        let name = chars_of(files[i].name.as_str());
        push_utf16(&mut names, name.as_slice());
        names.push(0);
        names.push(0);
        assert(names@ =~= seq![0u8] + (before + part(all[i as int])));
        i += 1;
    }
    assert(all.take(i as int) =~= all);
    write_property(h, K_NAME, names.as_slice());
}

/// Appends a property with one value for each file.
fn write_optional_prop(h: &mut Vec<u8>, id: u8, values: &[Option<u64>], width: u8)
    ensures
        final(h)@ == old(h)@ + value_property(id, values@, width as nat),
{
    let ghost start = h@;
    let mut flags: Vec<bool> = Vec::new();
    let mut tail: Vec<u8> = Vec::new();
    let mut count: usize = 0;
    let mut i: usize = 0;
    assert(values@.take(0) =~= Seq::<Option<u64>>::empty());
    while i < values.len()
        invariant
            i <= values.len(),
            count <= i,
            flags@ == known_flags(values@).take(i as int),
            tail@ == value_bytes(values@.take(i as int), width as nat),
            count == known_count(values@.take(i as int)),
        decreases values.len() - i,
    {
        assert(values@.take(i + 1).drop_last() =~= values@.take(i as int));
        assert(values@.take(i + 1).last() == values@[i as int]);
        let ghost before = tail@;
        match values[i] {
            Some(v) => {
                flags.push(true);
                push_le(&mut tail, v, width);
                count += 1;
            },
            None => {
                flags.push(false);
                assert(tail@ =~= before + Seq::<u8>::empty());
            },
        }
        i += 1;
        assert(flags@ =~= known_flags(values@).take(i as int));
    }
    assert(values@.take(i as int) =~= values@);
    assert(flags@ =~= known_flags(values@));
    if count == 0 {
        assert(h@ =~= start + Seq::<u8>::empty());
        return;
    }
    let mut body: Vec<u8> = Vec::new();
    if count == values.len() {
        body.push(1);
    } else {
        body.push(0);
        push_bytes(&mut body, bitset_bytes(flags.as_slice()).as_slice());
    }
    body.push(0);
    push_bytes(&mut body, tail.as_slice());
    assert(body@ =~= value_body(values@, width as nat));
    write_property(h, id, body.as_slice());
}

/// Appends what is known of the files.
fn write_files_info(h: &mut Vec<u8>, files: &[HeaderFile])
    ensures
        final(h)@ == old(h)@ + files_info(file_views(files@)),
{
    let ghost start = h@;
    let ghost all = file_views(files@);
    let mut c: Vec<Option<u64>> = Vec::new();
    let mut a: Vec<Option<u64>> = Vec::new();
    let mut m: Vec<Option<u64>> = Vec::new();
    let mut w: Vec<Option<u64>> = Vec::new();
    let mut i: usize = 0;
    while i < files.len()
        invariant
            i <= files.len(),
            all == file_views(files@),
            c@ == ctimes(all).take(i as int),
            a@ == atimes(all).take(i as int),
            m@ == mtimes(all).take(i as int),
            w@ == attributes(all).take(i as int),
        decreases files.len() - i,
    {
        assert(all[i as int] == files@[i as int]@);
        let meta = files[i].meta;
        c.push(meta.ctime);
        a.push(meta.atime);
        m.push(meta.mtime);
        let word: Option<u64> = match meta.windows_attributes {
            Some(x) => Some(x as u64),
            None => None,
        };
        w.push(word);
        i += 1;
        assert(c@ =~= ctimes(all).take(i as int));
        assert(a@ =~= atimes(all).take(i as int));
        assert(m@ =~= mtimes(all).take(i as int));
        assert(w@ =~= attributes(all).take(i as int));
    }
    assert(c@ =~= ctimes(all));
    assert(a@ =~= atimes(all));
    assert(m@ =~= mtimes(all));
    assert(w@ =~= attributes(all));
    h.push(K_FILES_INFO);
    let _ = write_u64(h, files.len() as u64);
    write_empty_info(h, files);
    write_names(h, files);
    write_optional_prop(h, K_C_TIME, c.as_slice(), 8);
    write_optional_prop(h, K_A_TIME, a.as_slice(), 8);
    write_optional_prop(h, K_M_TIME, m.as_slice(), 8);
    write_optional_prop(h, K_WIN_ATTRIBUTES, w.as_slice(), 4);
    h.push(K_END);
    assert(h@ =~= start + files_info(all));
}

/// Appends the header of an archive of these files.
pub fn write_raw_header(h: &mut Vec<u8>, files: &[HeaderFile]) -> (r: Result<()>)
    ensures
        r is Ok,
        final(h)@ == old(h)@ + raw_header(file_views(files@)),
{
    let ghost start = h@;
    let ghost all = file_views(files@);
    h.push(K_HEADER);
    h.push(K_MAIN_STREAMS_INFO);
    let n: usize = count_streams(files);
    if n > 0 {
        write_pack_info(h, files);
        write_unpack_info(h, files);
        write_substreams_info(h, files);
    }
    assert(h@ =~= start + (seq![K_HEADER, K_MAIN_STREAMS_INFO] + streams_info(streams(all))));
    h.push(K_END);
    write_files_info(h, files);
    h.push(K_END);
    assert(h@ =~= start + raw_header(all));
    Ok(())
}

/// The start header for a header at `next_header_offset` behind it.
pub fn write_start_header(
    next_header_offset: u64,
    next_header_size: u64,
    next_header_crc: u32,
) -> (r: Vec<u8>)
    ensures
        r@ == start_header(next_header_offset, next_header_size, next_header_crc),
        r@.len() == SIG_HEADER_SIZE,
{
    let mut fields: Vec<u8> = Vec::new();
    push_le(&mut fields, next_header_offset, 8);
    push_le(&mut fields, next_header_size, 8);
    push_le(&mut fields, next_header_crc as u64, 4);
    assert(fields@ =~= start_fields(next_header_offset, next_header_size, next_header_crc));
    let crc: u32 = crc32_of(fields.as_slice());
    let mut sig: Vec<u8> = Vec::new();
    sig.push(0x37);
    sig.push(0x7A);
    sig.push(0xBC);
    sig.push(0xAF);
    sig.push(0x27);
    sig.push(0x1C);
    sig.push(0);
    sig.push(4);
    push_le(&mut sig, crc as u64, 4);
    push_bytes(&mut sig, fields.as_slice());
    assert(sig@ =~= start_header(next_header_offset, next_header_size, next_header_crc));
    proof {
        bytes::lemma_le_bytes(next_header_offset as nat, 8);
        bytes::lemma_le_bytes(next_header_size as nat, 8);
        bytes::lemma_le_bytes(next_header_crc as nat, 4);
        bytes::lemma_le_bytes(crc as nat, 4);
    }
    sig
}

} // verus!
