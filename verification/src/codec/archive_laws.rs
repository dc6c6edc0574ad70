//! What a reader makes of a whole archive.

use crate::codec::bytes;
use crate::codec::checksum;
use crate::codec::header_reader;
use crate::codec::header_reader::ReadFile;
use crate::codec::sevenz_header;
use crate::codec::sevenz_header::{FileMeta, FileView, SIG_HEADER_SIZE};
use crate::codec::writer;
use crate::codec::writer::PackedEntry;
use vstd::prelude::*;

verus! {

/// The files of an archive; `None` where the signature, a checksum or the header is wrong.
pub open spec fn read_archive(s: Seq<u8>) -> Option<Seq<ReadFile>> {
    let offset = bytes::le_value(s.subrange(12, 20));
    let size = bytes::le_value(s.subrange(20, 28));
    let from = (SIG_HEADER_SIZE + offset) as int;
    let header = s.subrange(from, from + size);
    if s.len() < SIG_HEADER_SIZE || s.take(6) != seq![0x37u8, 0x7A, 0xBC, 0xAF, 0x27, 0x1C] {
        None
    } else if bytes::le_value(s.subrange(8, 12)) != checksum::crc32(s.subrange(12, 32)) {
        None
    } else if s.len() < from + size || bytes::le_value(s.subrange(28, 32)) != checksum::crc32(
        header,
    ) {
        None
    } else {
        header_reader::read_header(header)
    }
}

/// Law: an archive of packed streams and a header is read as what the header says.
pub proof fn law_archive_leads_to_header(packed: Seq<u8>, header: Seq<u8>)
    requires
        packed.len() + header.len() + SIG_HEADER_SIZE <= u64::MAX,
    ensures
        read_archive(
            sevenz_header::start_header(
                packed.len() as u64,
                header.len() as u64,
                checksum::crc32(header),
            ) + packed + header,
        ) == header_reader::read_header(header),
{
    let crc = checksum::crc32(header);
    let start = sevenz_header::start_header(packed.len() as u64, header.len() as u64, crc);
    let fields = sevenz_header::start_fields(packed.len() as u64, header.len() as u64, crc);
    let file = start + packed + header;
    writer::law_start_header_leads_to_header(packed, header, crc);
    reveal_with_fuel(bytes::pow256, 9);
    bytes::law_le_bytes_read_back(packed.len(), 8);
    bytes::law_le_bytes_read_back(header.len(), 8);
    bytes::law_le_bytes_read_back(crc as nat, 4);
    bytes::law_le_bytes_read_back(checksum::crc32(fields) as nat, 4);
    assert(file.take(6) =~= seq![0x37u8, 0x7A, 0xBC, 0xAF, 0x27, 0x1C]);
    assert(file.subrange(8, 12) =~= bytes::le_bytes(checksum::crc32(fields) as nat, 4));
    assert(file.subrange(12, 32) =~= fields);
    assert(file.subrange(12, 20) =~= bytes::le_bytes(packed.len(), 8));
    assert(file.subrange(20, 28) =~= bytes::le_bytes(header.len(), 8));
}

/// Law: an archive that was written from compressed files is read back as these files: their
/// names, the lengths, checksums and methods of their streams, the lengths and checksums of
/// their contents, and what is known of their times and attributes.
pub proof fn law_archive_reads_back(entries: Seq<PackedEntry>)
    requires
        writer::lzma2_archive(entries).len() <= u64::MAX,
        entries.len() <= u64::MAX,
        forall|i: int| 0 <= i < entries.len() ==> !(#[trigger] entries[i]).name@.contains('\0'),
    ensures
        read_archive(writer::lzma2_archive(entries)) == Some(
            writer::records_of(entries).map_values(|f: FileView| header_reader::told(f)),
        ),
{
    let files = writer::records_of(entries);
    let packed = writer::streams_of(entries);
    let header = sevenz_header::raw_header(files);
    assert forall|i: int| 0 <= i < files.len() implies !(#[trigger] files[i]).name.contains('\0')
        && header_reader::sound_method(files[i]) by {
        assert(files[i] == entries[i].record());
        assert(!entries[i].name@.contains('\0'));
    }
    lemma_parts_fit(
        sevenz_header::start_header(
            packed.len() as u64,
            header.len() as u64,
            checksum::crc32(header),
        ),
        packed,
        header,
    );
    lemma_start_len(packed.len() as u64, header.len() as u64, checksum::crc32(header));
    law_archive_leads_to_header(packed, header);
    header_reader::law_header_reads_back(files);
}

proof fn lemma_parts_fit(a: Seq<u8>, b: Seq<u8>, c: Seq<u8>)
    ensures
        (a + b + c).len() == a.len() + b.len() + c.len(),
{
}

proof fn lemma_start_len(offset: u64, size: u64, crc: u32)
    ensures
        sevenz_header::start_header(offset, size, crc).len() == SIG_HEADER_SIZE,
{
    let fields = sevenz_header::start_fields(offset, size, crc);
    bytes::lemma_le_bytes(offset as nat, 8);
    bytes::lemma_le_bytes(size as nat, 8);
    bytes::lemma_le_bytes(crc as nat, 4);
    bytes::lemma_le_bytes(checksum::crc32(fields) as nat, 4);
}

/// Where the stream of file `i` begins behind the start header.
pub open spec fn stream_offset(entries: Seq<PackedEntry>, i: int) -> nat {
    writer::streams_of(entries.take(i)).len()
}

/// Law: the stream of each file stands behind those of the files before it, as it was compressed.
pub proof fn law_streams_stand_in_order(entries: Seq<PackedEntry>, i: int)
    requires
        0 <= i < entries.len(),
    ensures
        ({
            let from = stream_offset(entries, i) as int;
            let len = entries[i].compressed.data@.len();
            &&& from + len <= writer::streams_of(entries).len()
            &&& writer::streams_of(entries).subrange(from, from + len)
                == entries[i].compressed.data@
        }),
    decreases entries.len(),
{
    let t = entries.drop_last();
    let all = writer::streams_of(entries);
    let front = writer::streams_of(t);
    let from = stream_offset(entries, i) as int;
    let len = entries[i].compressed.data@.len();
    if i < t.len() {
        law_streams_stand_in_order(t, i);
        assert(t.take(i) =~= entries.take(i));
        assert(t[i] == entries[i]);
        assert(all.subrange(from, from + len) =~= front.subrange(from, from + len));
    } else {
        assert(entries.take(i) =~= t);
        assert(all.subrange(from, from + len) =~= entries[i].compressed.data@);
    }
}

/// Where a reader looks for the stream of file `i`, behind the start header: behind the streams of
/// the files before it, as long as it was told they are.
pub open spec fn read_offset(files: Seq<ReadFile>, i: int) -> nat
    decreases i,
{
    if i <= 0 {
        0
    } else {
        read_offset(files, i - 1) + (match files[i - 1].stream {
            Some(s) => s.pack_size,
            None => 0,
        })
    }
}

/// A value that may be missing was read as it was given.
pub open spec fn same_value(read: Option<nat>, given: Option<u64>) -> bool {
    match given {
        Some(v) => read == Some(v as nat),
        None => read is None,
    }
}

/// A reader knows the times and attributes that were given, and no others.
pub open spec fn same_meta(f: ReadFile, meta: FileMeta) -> bool {
    &&& same_value(f.mtime, meta.mtime)
    &&& same_value(f.ctime, meta.ctime)
    &&& same_value(f.atime, meta.atime)
    &&& match meta.windows_attributes {
        Some(w) => f.attributes == Some(w as nat),
        None => f.attributes is None,
    }
}

/// A reader knows the name that was given.
pub open spec fn same_name(f: ReadFile, name: Seq<char>) -> bool {
    &&& f.name.len() == name.len()
    &&& forall|k: int| 0 <= k < name.len() ==> #[trigger] f.name[k] == name[k] as u32
}

/// `data` stands at position `at` of the file `s`.
pub open spec fn stands_at(s: Seq<u8>, at: int, data: Seq<u8>) -> bool {
    0 <= at && at + data.len() <= s.len() && s.subrange(at, at + data.len()) == data
}

/// What stands at a position stands there with something behind it, and further on with something
/// in front.
proof fn lemma_stands_within(a: Seq<u8>, b: Seq<u8>, c: Seq<u8>, at: int, data: Seq<u8>)
    requires
        stands_at(b, at, data),
    ensures
        stands_at(a + b + c, a.len() + at, data),
{
    let n = a.len() + at;
    assert((a + b + c).subrange(n, n + data.len()) =~= b.subrange(at, at + data.len()));
}

proof fn lemma_told_name(f: FileView)
    ensures
        same_name(header_reader::told(f), f.name),
        same_meta(header_reader::told(f), f.meta),
{
}

proof fn lemma_entry_stands(entries: Seq<PackedEntry>, i: int)
    requires
        0 <= i < entries.len(),
    ensures
        stands_at(
            writer::lzma2_archive(entries),
            32 + stream_offset(entries, i) as int,
            entries[i].compressed.data@,
        ),
{
    law_streams_stand_in_order(entries, i);
    let header = sevenz_header::raw_header(writer::records_of(entries));
    let packed = writer::streams_of(entries);
    let start = sevenz_header::start_header(
        packed.len() as u64,
        header.len() as u64,
        checksum::crc32(header),
    );
    lemma_start_len(packed.len() as u64, header.len() as u64, checksum::crc32(header));
    lemma_stands_within(
        start,
        packed,
        header,
        stream_offset(entries, i) as int,
        entries[i].compressed.data@,
    );
}

proof fn lemma_stream_fits(entries: Seq<PackedEntry>, i: int)
    requires
        0 <= i < entries.len(),
    ensures
        entries[i].compressed.data@.len() <= writer::streams_of(entries).len(),
        writer::streams_of(entries).len() <= writer::lzma2_archive(entries).len(),
{
    law_streams_stand_in_order(entries, i);
    lemma_parts_fit(
        sevenz_header::start_header(
            writer::streams_of(entries).len() as u64,
            sevenz_header::raw_header(writer::records_of(entries)).len() as u64,
            checksum::crc32(sevenz_header::raw_header(writer::records_of(entries))),
        ),
        writer::streams_of(entries),
        sevenz_header::raw_header(writer::records_of(entries)),
    );
}

proof fn lemma_read_offset(entries: Seq<PackedEntry>, i: int)
    requires
        writer::lzma2_archive(entries).len() <= u64::MAX,
        entries.len() <= u64::MAX,
        forall|k: int| 0 <= k < entries.len() ==> !(#[trigger] entries[k]).name@.contains('\0'),
        0 <= i <= entries.len(),
    ensures
        read_offset(read_archive(writer::lzma2_archive(entries))->0, i) == stream_offset(
            entries,
            i,
        ),
    decreases i,
{
    law_archive_reads_back(entries);
    if i == 0 {
        assert(entries.take(0) =~= Seq::<PackedEntry>::empty());
    } else {
        lemma_read_offset(entries, i - 1);
        lemma_stream_fits(entries, i - 1);
        let files = read_archive(writer::lzma2_archive(entries))->0;
        assert(files[i - 1] == header_reader::told(entries[i - 1].record()));
        assert(entries.take(i).drop_last() =~= entries.take(i - 1));
        assert(entries.take(i).last() == entries[i - 1]);
    }
}

/// Law: in an archive that was written from compressed files, a reader finds each of them: its
/// name, times and attributes as they were given; and for a file with compressed data a stream of
/// the length and checksum of that data, packed by LZMA2 with the given property, which holds so
/// many bytes with such a checksum as were compressed, and which stands where the streams of the
/// files before it end. A file without data and without contents has no stream.
pub proof fn law_entries_are_found(entries: Seq<PackedEntry>, i: int)
    requires
        writer::lzma2_archive(entries).len() <= u64::MAX,
        entries.len() <= u64::MAX,
        forall|k: int| 0 <= k < entries.len() ==> !(#[trigger] entries[k]).name@.contains('\0'),
        0 <= i < entries.len(),
    ensures
        ({
            let archive = writer::lzma2_archive(entries);
            let files = read_archive(archive)->0;
            let f = files[i];
            let c = entries[i].compressed;
            &&& read_archive(archive) is Some
            &&& files.len() == entries.len()
            &&& same_name(f, entries[i].name@)
            &&& same_meta(f, entries[i].meta)
            &&& c.data@.len() > 0 || c.uncompressed_size > 0 ==> {
                &&& f.stream is Some
                &&& f.stream->0.pack_size == c.data@.len()
                &&& f.stream->0.pack_crc == checksum::crc32(c.data@)
                &&& f.stream->0.method_id == seq![0x21u8]
                &&& f.stream->0.method_props == seq![c.props]
                &&& f.stream->0.size == c.uncompressed_size
                &&& f.stream->0.crc == c.crc32
                &&& stands_at(archive, 32 + read_offset(files, i) as int, c.data@)
            }
            &&& c.data@.len() == 0 && c.uncompressed_size == 0 ==> f.stream is None
        }),
{
    law_archive_reads_back(entries);
    lemma_stream_fits(entries, i);
    lemma_read_offset(entries, i);
    lemma_entry_stands(entries, i);
    let files = read_archive(writer::lzma2_archive(entries))->0;
    assert(files[i] == header_reader::told(entries[i].record()));
    lemma_told_name(entries[i].record());
}

/// Files that are stored as they are.
#[verifier::ext_equal]
pub struct StoredItem {
    pub name: Seq<char>,
    pub data: Seq<u8>,
    pub meta: FileMeta,
}

/// The contents of stored files, one after the other.
pub open spec fn stored_bytes(items: Seq<StoredItem>) -> Seq<u8>
    decreases items.len(),
{
    if items.len() == 0 {
        Seq::empty()
    } else {
        stored_bytes(items.drop_last()) + items.last().data
    }
}

/// What is recorded of stored files.
pub open spec fn stored_records(items: Seq<StoredItem>) -> Seq<FileView> {
    items.map_values(|x: StoredItem| writer::stored_record(x.name, x.data, x.meta))
}

/// A whole archive of stored files: the start header, the contents, and the header.
pub open spec fn stored_archive(items: Seq<StoredItem>) -> Seq<u8> {
    let header = sevenz_header::raw_header(stored_records(items));
    sevenz_header::start_header(
        stored_bytes(items).len() as u64,
        header.len() as u64,
        checksum::crc32(header),
    ) + stored_bytes(items) + header
}

proof fn lemma_stored_in_order(items: Seq<StoredItem>, i: int)
    requires
        0 <= i < items.len(),
    ensures
        ({
            let from = stored_bytes(items.take(i)).len() as int;
            stands_at(stored_bytes(items), from, items[i].data)
        }),
    decreases items.len(),
{
    let t = items.drop_last();
    let all = stored_bytes(items);
    let from = stored_bytes(items.take(i)).len() as int;
    let len = items[i].data.len();
    if i < t.len() {
        lemma_stored_in_order(t, i);
        assert(t.take(i) =~= items.take(i));
        assert(t[i] == items[i]);
        assert(all.subrange(from, from + len) =~= stored_bytes(t).subrange(from, from + len));
    } else {
        assert(items.take(i) =~= t);
        assert(all.subrange(from, from + len) =~= items[i].data);
    }
}

proof fn lemma_item_stands(items: Seq<StoredItem>, i: int)
    requires
        0 <= i < items.len(),
    ensures
        stands_at(
            stored_archive(items),
            32 + stored_bytes(items.take(i)).len() as int,
            items[i].data,
        ),
        items[i].data.len() <= stored_bytes(items).len(),
{
    lemma_stored_in_order(items, i);
    let header = sevenz_header::raw_header(stored_records(items));
    let packed = stored_bytes(items);
    let start = sevenz_header::start_header(
        packed.len() as u64,
        header.len() as u64,
        checksum::crc32(header),
    );
    lemma_start_len(packed.len() as u64, header.len() as u64, checksum::crc32(header));
    lemma_stands_within(
        start,
        packed,
        header,
        stored_bytes(items.take(i)).len() as int,
        items[i].data,
    );
}

proof fn lemma_stored_reads_back(items: Seq<StoredItem>)
    requires
        stored_archive(items).len() <= u64::MAX,
        items.len() <= u64::MAX,
        forall|k: int| 0 <= k < items.len() ==> !(#[trigger] items[k]).name.contains('\0'),
    ensures
        read_archive(stored_archive(items)) == Some(
            stored_records(items).map_values(|f: FileView| header_reader::told(f)),
        ),
        stored_bytes(items).len() <= u64::MAX,
{
    let files = stored_records(items);
    let packed = stored_bytes(items);
    let header = sevenz_header::raw_header(files);
    assert forall|i: int| 0 <= i < files.len() implies !(#[trigger] files[i]).name.contains('\0')
        && header_reader::sound_method(files[i]) by {
        assert(files[i] == writer::stored_record(items[i].name, items[i].data, items[i].meta));
        assert(!items[i].name.contains('\0'));
    }
    lemma_parts_fit(
        sevenz_header::start_header(
            packed.len() as u64,
            header.len() as u64,
            checksum::crc32(header),
        ),
        packed,
        header,
    );
    lemma_start_len(packed.len() as u64, header.len() as u64, checksum::crc32(header));
    law_archive_leads_to_header(packed, header);
    header_reader::law_header_reads_back(files);
}

proof fn lemma_stored_offset(items: Seq<StoredItem>, i: int)
    requires
        stored_archive(items).len() <= u64::MAX,
        items.len() <= u64::MAX,
        forall|k: int| 0 <= k < items.len() ==> !(#[trigger] items[k]).name.contains('\0'),
        0 <= i <= items.len(),
    ensures
        read_offset(read_archive(stored_archive(items))->0, i) == stored_bytes(
            items.take(i),
        ).len(),
    decreases i,
{
    lemma_stored_reads_back(items);
    if i == 0 {
        assert(items.take(0) =~= Seq::<StoredItem>::empty());
    } else {
        lemma_stored_offset(items, i - 1);
        lemma_stored_in_order(items, i - 1);
        let x = items[i - 1];
        let files = read_archive(stored_archive(items))->0;
        assert(files[i - 1] == header_reader::told(
            writer::stored_record(x.name, x.data, x.meta),
        ));
        assert(items.take(i).drop_last() =~= items.take(i - 1));
        assert(items.take(i).last() == x);
    }
}

/// Law: in an archive of stored files a reader finds each of them: its name, times and attributes
/// as they were given; and for a file with contents a stream by the Copy method of the length and
/// checksum of the contents, which stands where the streams of the files before it end. A file
/// without contents has no stream.
pub proof fn law_stored_files_are_found(items: Seq<StoredItem>, i: int)
    requires
        stored_archive(items).len() <= u64::MAX,
        items.len() <= u64::MAX,
        forall|k: int| 0 <= k < items.len() ==> !(#[trigger] items[k]).name.contains('\0'),
        0 <= i < items.len(),
    ensures
        ({
            let archive = stored_archive(items);
            let files = read_archive(archive)->0;
            let f = files[i];
            let data = items[i].data;
            &&& read_archive(archive) is Some
            &&& files.len() == items.len()
            &&& same_name(f, items[i].name)
            &&& same_meta(f, items[i].meta)
            &&& f.stream is Some <==> data.len() > 0
            &&& data.len() > 0 ==> {
                &&& f.stream->0.pack_size == data.len()
                &&& f.stream->0.size == data.len()
                &&& f.stream->0.pack_crc == checksum::crc32(data)
                &&& f.stream->0.crc == checksum::crc32(data)
                &&& f.stream->0.method_id == seq![0u8]
                &&& f.stream->0.method_props.len() == 0
                &&& stands_at(archive, 32 + read_offset(files, i) as int, data)
            }
        }),
{
    let x = items[i];
    lemma_stored_reads_back(items);
    lemma_stored_offset(items, i);
    lemma_item_stands(items, i);
    let files = read_archive(stored_archive(items))->0;
    let record = writer::stored_record(x.name, x.data, x.meta);
    assert(files[i] == header_reader::told(record));
    lemma_told_name(record);
}

} // verus!
