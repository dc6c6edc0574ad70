//! Writers of non-solid 7z archives. They record what is appended and make the two headers; the
//! packed streams themselves go to the output between them, in the order in which they are
//! pushed.

use crate::codec::checksum;
use crate::codec::checksum::{
    crc32_of, hasher_finalize, hasher_new, hasher_update, RunningCrc,
};
use crate::codec::lzma2::Lzma2Compressed;
use crate::codec::sevenz_header;
use crate::codec::sevenz_header::{
    push_bytes, write_raw_header, write_start_header, FileMeta, FileView, HeaderFile,
    SIG_HEADER_SIZE,
};
use crate::error::{other, ErrorView, Result};
use crate::util::text::copy_str;
use vstd::prelude::*;

verus! {

/// The bytes that end an archive: the header, which goes behind the packed streams, and the start
/// header, which goes to the front of the file.
#[derive(Debug, Clone)]
pub struct ArchiveEnd {
    pub header: Vec<u8>,
    pub start: Vec<u8>,
}

/// `end` ends an archive of `files` whose packed streams end at position `header_pos`.
pub open spec fn ends_archive(end: ArchiveEnd, files: Seq<FileView>, header_pos: u64) -> bool {
    &&& end.header@ == sevenz_header::raw_header(files)
    &&& end.start@ == sevenz_header::start_header(
        (header_pos - SIG_HEADER_SIZE) as u64,
        end.header@.len() as u64,
        checksum::crc32(end.header@),
    )
}

/// The end of an archive of `files` whose packed streams end at position `header_pos`.
pub fn finish_archive(files: &[HeaderFile], header_pos: u64) -> (r: Result<ArchiveEnd>)
    requires
        header_pos >= SIG_HEADER_SIZE,
    ensures
        match r {
            Ok(end) => files@.len() > 0 && ends_archive(
                end,
                sevenz_header::file_views(files@),
                header_pos,
            ) && end.start@.len() == SIG_HEADER_SIZE,
            Err(e) => files@.len() == 0 && e@ == ErrorView::Other("cannot write empty 7z archive"@),
        },
{
    if files.len() == 0 {
        return Err(other("cannot write empty 7z archive"));
    }
    let mut header: Vec<u8> = Vec::new();
    let ghost empty = header@;
    let _ = write_raw_header(&mut header, files);
    assert(header@ =~= sevenz_header::raw_header(sevenz_header::file_views(files@)));
    let crc: u32 = crc32_of(header.as_slice());
    let start = write_start_header(header_pos - SIG_HEADER_SIZE, header.len() as u64, crc);
    Ok(ArchiveEnd { header, start })
}

/// A file without contents, stored.
pub open spec fn empty_record(name: Seq<char>, meta: FileMeta) -> FileView {
    FileView {
        name,
        pack_size: 0,
        pack_crc: 0,
        unpack_size: 0,
        content_crc: 0,
        method_id: seq![0u8],
        method_props: Seq::empty(),
        empty: true,
        meta,
    }
}

/// A file that is stored as it is.
pub open spec fn stored_record(name: Seq<char>, data: Seq<u8>, meta: FileMeta) -> FileView {
    if data.len() == 0 {
        empty_record(name, meta)
    } else {
        FileView {
            name,
            pack_size: data.len() as u64,
            pack_crc: checksum::crc32(data),
            unpack_size: data.len() as u64,
            content_crc: checksum::crc32(data),
            method_id: seq![0u8],
            method_props: Seq::empty(),
            empty: false,
            meta,
        }
    }
}

/// A file that was compressed with LZMA2.
pub open spec fn packed_record(name: Seq<char>, c: Lzma2Compressed, meta: FileMeta) -> FileView {
    FileView {
        name,
        pack_size: c.data@.len() as u64,
        pack_crc: checksum::crc32(c.data@),
        unpack_size: c.uncompressed_size,
        content_crc: c.crc32,
        method_id: seq![0x21u8],
        method_props: seq![c.props],
        empty: c.uncompressed_size == 0 && c.data@.len() == 0,
        meta,
    }
}

fn one_byte(b: u8) -> (r: Vec<u8>)
    ensures
        r@ == seq![b],
{
    let mut v: Vec<u8> = Vec::new();
    v.push(b);
    assert(v@ =~= seq![b]);
    v
}

fn no_bytes() -> (r: Vec<u8>)
    ensures
        r@ == Seq::<u8>::empty(),
{
    Vec::new()
}

fn empty_file(name: String, meta: FileMeta) -> (r: HeaderFile)
    ensures
        r@ == empty_record(name@, meta),
{
    HeaderFile {
        name,
        pack_size: 0,
        pack_crc: 0,
        unpack_size: 0,
        content_crc: 0,
        method_id: one_byte(0),
        method_props: no_bytes(),
        empty: true,
        meta,
    }
}

fn stored_file(name: String, size: u64, crc: u32, meta: FileMeta) -> (r: HeaderFile)
    ensures
        r@ == (FileView {
            name: name@,
            pack_size: size,
            pack_crc: crc,
            unpack_size: size,
            content_crc: crc,
            method_id: seq![0u8],
            method_props: Seq::empty(),
            empty: false,
            meta,
        }),
{
    HeaderFile {
        name,
        pack_size: size,
        pack_crc: crc,
        unpack_size: size,
        content_crc: crc,
        method_id: one_byte(0),
        method_props: no_bytes(),
        empty: false,
        meta,
    }
}

/// A file that is being stored piece by piece.
pub struct StoreAppend {
    name: String,
    meta: FileMeta,
    hasher: RunningCrc,
    size: u64,
}

impl StoreAppend {
    /// The name of the file.
    pub closed spec fn name(self) -> Seq<char> {
        self.name@
    }

    /// The times and attributes of the file.
    pub closed spec fn meta(self) -> FileMeta {
        self.meta
    }

    /// The bytes of the file so far.
    pub closed spec fn bytes(self) -> Seq<u8> {
        checksum::hashed(self.hasher)
    }

    /// The count of bytes is right.
    pub closed spec fn wf(self) -> bool {
        self.size == checksum::hashed(self.hasher).len()
    }

    /// Begins a file. Times and attributes that `listed` does not know are taken from what the
    /// file system says.
    pub fn begin(name: String, listed: Option<FileMeta>, on_disk: FileMeta) -> (r: Self)
        ensures
            r.wf(),
            r.name() == name@,
            r.bytes() == Seq::<u8>::empty(),
            r.meta() == (match listed {
                Some(m) => m.merged(on_disk),
                None => on_disk,
            }),
    {
        let mut meta = match listed {
            Some(m) => m,
            None => FileMeta::default(),
        };
        meta.merge_missing(&on_disk);
        StoreAppend { name, meta, hasher: hasher_new(), size: 0 }
    }

    /// Takes in the next bytes of the file, which the caller appends to the output.
    pub fn update(&mut self, data: &[u8])
        requires
            old(self).wf(),
            old(self).bytes().len() + data@.len() <= u64::MAX,
        ensures
            final(self).wf(),
            final(self).name() == old(self).name(),
            final(self).meta() == old(self).meta(),
            final(self).bytes() == old(self).bytes() + data@,
    {
        hasher_update(&mut self.hasher, data);
        self.size = self.size + data.len() as u64;
    }
}

/// Records files that are stored without compression.
#[derive(Debug)]
pub struct NonsolidStoreWriter {
    files: Vec<HeaderFile>,
}

impl View for NonsolidStoreWriter {
    type V = Seq<FileView>;

    closed spec fn view(&self) -> Seq<FileView> {
        sevenz_header::file_views(self.files@)
    }
}

impl NonsolidStoreWriter {
    /// A writer without files. The output begins with room for the start header.
    pub fn new() -> (r: Self)
        ensures
            r@ == Seq::<FileView>::empty(),
    {
        let files: Vec<HeaderFile> = Vec::new();
        assert(sevenz_header::file_views(files@) =~= Seq::<FileView>::empty());
        NonsolidStoreWriter { files }
    }

    fn push_file(&mut self, file: HeaderFile)
        ensures
            final(self)@ == old(self)@.push(file@),
    {
        let ghost before = self.files@;
        self.files.push(file);
        assert(sevenz_header::file_views(self.files@) =~= sevenz_header::file_views(before).push(
            file@,
        ));
    }

    /// Records a buffer, which the caller appends to the output, without times.
    pub fn push_bytes(&mut self, name: String, data: &[u8])
        ensures
            final(self)@ == old(self)@.push(stored_record(name@, data@, FileMeta::nothing())),
    {
        self.push_bytes_with_meta(name, data, FileMeta::default());
    }

    /// Records a buffer, which the caller appends to the output.
    pub fn push_bytes_with_meta(&mut self, name: String, data: &[u8], meta: FileMeta)
        ensures
            final(self)@ == old(self)@.push(stored_record(name@, data@, meta)),
    {
        if data.len() == 0 {
            self.push_file(empty_file(name, meta));
        } else {
            let crc: u32 = crc32_of(data);
            self.push_file(stored_file(name, data.len() as u64, crc, meta));
        }
    }

    /// Records a file that came piece by piece.
    ///
    /// A file that was found to be empty before it was opened (`was_empty`) has no stream.
    pub fn push_appended(&mut self, file: StoreAppend, was_empty: bool)
        requires
            file.wf(),
        ensures
            final(self)@ == old(self)@.push(
                if was_empty {
                    empty_record(file.name(), file.meta())
                } else {
                    (FileView {
                        name: file.name(),
                        pack_size: file.bytes().len() as u64,
                        pack_crc: checksum::crc32(file.bytes()),
                        unpack_size: file.bytes().len() as u64,
                        content_crc: checksum::crc32(file.bytes()),
                        method_id: seq![0u8],
                        method_props: Seq::empty(),
                        empty: false,
                        meta: file.meta(),
                    })
                },
            ),
    {
        if was_empty {
            self.push_file(empty_file(file.name, file.meta));
        } else {
            let crc: u32 = hasher_finalize(file.hasher);
            self.push_file(stored_file(file.name, file.size, crc, file.meta));
        }
    }

    /// How many files are recorded.
    pub fn len(&self) -> (r: usize)
        ensures
            r == self@.len(),
    {
        self.files.len()
    }

    /// Whether no file is recorded.
    pub fn is_empty(&self) -> (r: bool)
        ensures
            r == (self@.len() == 0),
    {
        self.files.len() == 0
    }

    /// The end of the archive, whose packed streams end at position `header_pos`.
    pub fn finish(self, header_pos: u64) -> (r: Result<ArchiveEnd>)
        requires
            header_pos >= SIG_HEADER_SIZE,
        ensures
            match r {
                Ok(end) => self@.len() > 0 && ends_archive(end, self@, header_pos)
                    && end.start@.len() == SIG_HEADER_SIZE,
                Err(e) => self@.len() == 0 && e@ == ErrorView::Other(
                    "cannot write empty 7z archive"@,
                ),
            },
    {
        finish_archive(self.files.as_slice(), header_pos)
    }
}

/// One compressed file.
#[derive(Debug, Clone)]
pub struct PackedEntry {
    pub name: String,
    pub compressed: Lzma2Compressed,
    /// Times and attributes; what is not known is left out of the header.
    pub meta: FileMeta,
}

impl PackedEntry {
    /// What is recorded of the file.
    pub open spec fn record(self) -> FileView {
        packed_record(self.name@, self.compressed, self.meta)
    }
}

/// Records files that were compressed with LZMA2.
#[derive(Debug)]
pub struct NonsolidLzma2Writer {
    files: Vec<HeaderFile>,
}

impl View for NonsolidLzma2Writer {
    type V = Seq<FileView>;

    closed spec fn view(&self) -> Seq<FileView> {
        sevenz_header::file_views(self.files@)
    }
}

impl NonsolidLzma2Writer {
    /// A writer without files. The output begins with room for the start header.
    pub fn new() -> (r: Self)
        ensures
            r@ == Seq::<FileView>::empty(),
    {
        let files: Vec<HeaderFile> = Vec::new();
        assert(sevenz_header::file_views(files@) =~= Seq::<FileView>::empty());
        NonsolidLzma2Writer { files }
    }

    /// Records a compressed file, whose stream the caller appends to the output.
    pub fn push_packed(&mut self, name: String, compressed: &Lzma2Compressed, meta: FileMeta)
        ensures
            final(self)@ == old(self)@.push(packed_record(name@, *compressed, meta)),
    {
        let pack_crc: u32 = crc32_of(compressed.data.as_slice());
        let pack_size: u64 = compressed.data.len() as u64;
        let file = HeaderFile {
            name,
            pack_size,
            pack_crc,
            unpack_size: compressed.uncompressed_size,
            content_crc: compressed.crc32,
            method_id: one_byte(0x21),
            method_props: one_byte(compressed.props),
            empty: compressed.uncompressed_size == 0 && pack_size == 0,
            meta,
        };
        let ghost before = self.files@;
        self.files.push(file);
        assert(sevenz_header::file_views(self.files@) =~= sevenz_header::file_views(before).push(
            file@,
        ));
    }

    /// Records a compressed file, whose stream the caller appends to the output.
    pub fn push_entry(&mut self, entry: &PackedEntry)
        ensures
            final(self)@ == old(self)@.push(entry.record()),
    {
        self.push_packed(copy_str(entry.name.as_str()), &entry.compressed, entry.meta);
    }

    /// How many files are recorded.
    pub fn len(&self) -> (r: usize)
        ensures
            r == self@.len(),
    {
        self.files.len()
    }

    /// Whether no file is recorded.
    pub fn is_empty(&self) -> (r: bool)
        ensures
            r == (self@.len() == 0),
    {
        self.files.len() == 0
    }

    /// The end of the archive, whose packed streams end at position `header_pos`.
    pub fn finish(self, header_pos: u64) -> (r: Result<ArchiveEnd>)
        requires
            header_pos >= SIG_HEADER_SIZE,
        ensures
            match r {
                Ok(end) => self@.len() > 0 && ends_archive(end, self@, header_pos)
                    && end.start@.len() == SIG_HEADER_SIZE,
                Err(e) => self@.len() == 0 && e@ == ErrorView::Other(
                    "cannot write empty 7z archive"@,
                ),
            },
    {
        finish_archive(self.files.as_slice(), header_pos)
    }
}

/// What is recorded of several compressed files.
pub open spec fn records_of(entries: Seq<PackedEntry>) -> Seq<FileView> {
    entries.map_values(|e: PackedEntry| e.record())
}

/// The streams of several compressed files, one after the other.
pub open spec fn streams_of(entries: Seq<PackedEntry>) -> Seq<u8>
    decreases entries.len(),
{
    if entries.len() == 0 {
        Seq::empty()
    } else {
        streams_of(entries.drop_last()) + entries.last().compressed.data@
    }
}

/// A whole archive of compressed files: the start header, the streams, and the header, which
/// begins where the streams end.
pub open spec fn lzma2_archive(entries: Seq<PackedEntry>) -> Seq<u8> {
    let header = sevenz_header::raw_header(records_of(entries));
    sevenz_header::start_header(
        streams_of(entries).len() as u64,
        header.len() as u64,
        checksum::crc32(header),
    ) + streams_of(entries) + header
}

/// The bytes of a whole archive of compressed files.
pub fn write_nonsolid_lzma2(entries: &[PackedEntry]) -> (r: Result<Vec<u8>>)
    requires
        streams_of(entries@).len() + SIG_HEADER_SIZE <= u64::MAX,
    ensures
        match r {
            Ok(v) => entries@.len() > 0 && v@ == lzma2_archive(entries@),
            Err(e) => entries@.len() == 0 && e@ == ErrorView::Other(
                "cannot write empty 7z archive"@,
            ),
        },
{
    if entries.len() == 0 {
        return Err(other("cannot write empty 7z archive"));
    }
    let mut w = NonsolidLzma2Writer::new();
    let mut body: Vec<u8> = Vec::new();
    let mut i: usize = 0;
    let ghost all = records_of(entries@);
    assert(entries@.take(0) =~= Seq::<PackedEntry>::empty());
    assert(all.take(0) =~= Seq::<FileView>::empty());
    while i < entries.len()
        invariant
            i <= entries.len(),
            all == records_of(entries@),
            w@ == all.take(i as int),
            body@ == streams_of(entries@.take(i as int)),
        decreases entries.len() - i,
    {
        assert(entries@.take(i + 1).drop_last() =~= entries@.take(i as int));
        assert(entries@.take(i + 1).last() == entries@[i as int]);
        w.push_entry(&entries[i]);
        push_bytes(&mut body, entries[i].compressed.data.as_slice());
        i += 1;
        assert(w@ =~= all.take(i as int));
    }
    assert(entries@.take(i as int) =~= entries@);
    assert(all.take(i as int) =~= all);
    let header_pos: u64 = body.len() as u64 + SIG_HEADER_SIZE;
    match w.finish(header_pos) {
        Ok(end) => {
            let mut out = end.start;
            push_bytes(&mut out, body.as_slice());
            push_bytes(&mut out, end.header.as_slice());
            assert(out@ =~= lzma2_archive(entries@));
            Ok(out)
        },
        Err(e) => Err(e),
    }
}

/// Law: the start header of a finished archive leads to its header: the header stands at the
/// offset and has the length that the start header gives.
pub proof fn law_start_header_leads_to_header(
    packed: Seq<u8>,
    header: Seq<u8>,
    crc: u32,
)
    requires
        packed.len() + header.len() + SIG_HEADER_SIZE <= u64::MAX,
    ensures
        ({
            let start = sevenz_header::start_header(packed.len() as u64, header.len() as u64, crc);
            let file = start + packed + header;
            let offset = crate::codec::bytes::le_value(file.subrange(12, 20));
            let size = crate::codec::bytes::le_value(file.subrange(20, 28));
            &&& start.len() == SIG_HEADER_SIZE
            &&& file.subrange(
                (SIG_HEADER_SIZE + offset) as int,
                (SIG_HEADER_SIZE + offset + size) as int,
            ) == header
            &&& crate::codec::bytes::le_value(file.subrange(28, 32)) == crc
        }),
{
    reveal_with_fuel(crate::codec::bytes::pow256, 9);
    let start = sevenz_header::start_header(packed.len() as u64, header.len() as u64, crc);
    let fields = sevenz_header::start_fields(packed.len() as u64, header.len() as u64, crc);
    let file = start + packed + header;
    crate::codec::bytes::law_le_bytes_read_back(packed.len(), 8);
    crate::codec::bytes::law_le_bytes_read_back(header.len(), 8);
    crate::codec::bytes::law_le_bytes_read_back(crc as nat, 4);
    crate::codec::bytes::lemma_le_bytes(checksum::crc32(fields) as nat, 4);
    assert(file.subrange(12, 20) =~= crate::codec::bytes::le_bytes(packed.len(), 8));
    assert(file.subrange(20, 28) =~= crate::codec::bytes::le_bytes(header.len(), 8));
    assert(file.subrange(28, 32) =~= crate::codec::bytes::le_bytes(crc as nat, 4));
    assert(file.subrange(32 + packed.len() as int, 32 + packed.len() as int + header.len() as int)
        =~= header);
}

} // verus!
