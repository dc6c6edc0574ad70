use std::io::{Cursor, Write};

use archiveconverter::codec::bytes::{bitset_bytes, push_le, push_utf16, write_u64};
use archiveconverter::codec::lzma2::{
    dict_size_for_level, lzma2_dict_prop, CodecKind, LibLzmaCodec, LibLzmaOutcome, Lzma2Codec,
    Lzma2Compressed, PureRustCodec,
};
use archiveconverter::codec::outer::{
    default_dir_from_input, DirOuterWriter, OuterFormat, TarOuterWriter,
};
use archiveconverter::codec::sevenz_header::{
    attrs_from_fs_meta, filetime_now, system_time_to_filetime, write_raw_header,
    write_start_header, FileMeta, HeaderFile, ATTR_FILE, K_END, K_HEADER, K_M_TIME,
    K_SUB_STREAMS_INFO, K_WIN_ATTRIBUTES,
};
use archiveconverter::codec::writer::{
    write_nonsolid_lzma2, ArchiveEnd, NonsolidLzma2Writer, NonsolidStoreWriter, PackedEntry,
    StoreAppend,
};
use lzma_rust2::{Lzma2Options, Lzma2Writer};
use sevenz_rust2::{ArchiveReader, Password};

fn open(bytes: Vec<u8>) -> ArchiveReader<Cursor<Vec<u8>>> {
    ArchiveReader::new(Cursor::new(bytes), Password::empty()).unwrap()
}

/// An archive: room for the start header, the streams, the header.
fn assemble(streams: &[u8], end: ArchiveEnd) -> Vec<u8> {
    let mut all = end.start;
    all.extend_from_slice(streams);
    all.extend_from_slice(&end.header);
    all
}

fn names(reader: &ArchiveReader<Cursor<Vec<u8>>>) -> Vec<String> {
    reader
        .archive()
        .files
        .iter()
        .filter(|f| !f.is_directory())
        .map(|f| f.name().to_string())
        .collect()
}

/// Compresses with the settings and the records of the liblzma codec; any encoder of LZMA2 can
/// make the stream.
fn liblzma(input: &[u8], level: u32) -> Lzma2Compressed {
    let (preset, dict) = LibLzmaCodec::settings(level);
    let mut options = Lzma2Options::with_preset(preset);
    options.lzma_options.dict_size = dict;
    let mut data = Vec::new();
    let mut enc = Lzma2Writer::new(&mut data, options);
    enc.write_all(input).unwrap();
    enc.finish().unwrap();
    LibLzmaCodec::finish(input, level, LibLzmaOutcome::Stream(data)).unwrap()
}

#[test]
fn pure_rust_roundtrip_prop() {
    let c = PureRustCodec;
    let msg = b"hello phase3 codec ".repeat(100);
    let out = c.compress(&msg, 1).unwrap();
    assert!(!out.data.is_empty());
    assert_eq!(out.uncompressed_size, msg.len() as u64);
    assert_ne!(out.crc32, 0);
}

#[test]
fn liblzma_roundtrip_prop() {
    let msg = b"hello liblzma codec ".repeat(100);
    let out = liblzma(&msg, 1);
    assert!(!out.data.is_empty());
    assert_eq!(out.uncompressed_size, msg.len() as u64);
}

#[test]
fn liblzma_faults_are_named() {
    let message = |o: LibLzmaOutcome| LibLzmaCodec::finish(b"x", 3, o).unwrap_err().message();
    assert_eq!(message(LibLzmaOutcome::PresetFailed), "liblzma: lzma_lzma_preset failed");
    assert_eq!(message(LibLzmaOutcome::EncoderFailed(8)), "liblzma: lzma_raw_encoder failed (8)");
    assert_eq!(message(LibLzmaOutcome::CodeFailed(5)), "liblzma: lzma_code failed (5)");
    assert_eq!(LibLzmaCodec::settings(20), (9, 64 << 20));
}

#[test]
fn pure_rust_stream_is_lzma2() {
    let msg = b"abcabcabc".repeat(1000);
    let out = PureRustCodec.compress(&msg, 6).unwrap();
    assert!(out.data.len() < msg.len());
    assert_eq!(out.data.last(), Some(&0u8));
    assert_eq!(out.crc32, crc32fast::hash(&msg));
    assert_eq!(PureRustCodec.name(), "pure-rust");
    let same = PureRustCodec.compress(&msg, 6).unwrap();
    assert_eq!(out.data, same.data);
    assert_eq!(PureRustCodec.compress(&msg, 12).unwrap().props, 28);
}

#[test]
fn dictionary_sizes() {
    assert_eq!(dict_size_for_level(0), 64 << 10);
    assert_eq!(dict_size_for_level(5), 4 << 20);
    assert_eq!(dict_size_for_level(9), 64 << 20);
    assert_eq!(lzma2_dict_prop(0), 0);
    assert_eq!(lzma2_dict_prop(4096), 0);
    assert_eq!(lzma2_dict_prop(4097), 0);
    assert_eq!(lzma2_dict_prop(1 << 20), 16);
    assert_eq!(lzma2_dict_prop(64 << 20), 28);
    assert_eq!(lzma2_dict_prop(u32::MAX), 39);
}

#[test]
fn codec_names_are_read_back() {
    for k in [CodecKind::PureRust, CodecKind::LibLzma] {
        assert_eq!(CodecKind::parse(k.as_str()), Some(k));
    }
    assert_eq!(CodecKind::parse("XZ"), Some(CodecKind::LibLzma));
    assert_eq!(CodecKind::parse("zstd"), None);
}

#[test]
fn bitset_msb_first() {
    // index 0 set only → 0x80
    assert_eq!(bitset_bytes(&[true]), vec![0x80]);
    // first two of 8 set → 0xC0
    assert_eq!(
        bitset_bytes(&[true, true, false, false, false, false, false, false]),
        vec![0xC0]
    );
}

#[test]
fn bit_sets_fill_the_last_byte_with_zeros() {
    assert_eq!(bitset_bytes(&[]), Vec::<u8>::new());
    assert_eq!(
        bitset_bytes(&[false, true, false, true, false, true, false, true, true]),
        vec![0x55, 0x80]
    );
}

#[test]
fn numbers_are_packed() {
    let packed = |v: u64| {
        let mut h = Vec::new();
        write_u64(&mut h, v).unwrap();
        h
    };
    assert_eq!(packed(0x7F), vec![0x7F]);
    assert_eq!(packed(0x80), vec![0x80, 0x80]);
    assert_eq!(packed(0x3FFF), vec![0xBF, 0xFF]);
    assert_eq!(packed(0x4000), vec![0xC0, 0x00, 0x40]);
    assert_eq!(packed(u64::MAX), vec![0xFF; 9]);
    let mut h = Vec::new();
    push_le(&mut h, 0x0102_0304, 4);
    assert_eq!(h, vec![4, 3, 2, 1]);
    let mut h = Vec::new();
    push_utf16(&mut h, &['a', '😀']);
    assert_eq!(h, vec![0x61, 0x00, 0x3D, 0xD8, 0x00, 0xDE]);
}

fn one_file(meta: FileMeta) -> Vec<HeaderFile> {
    vec![HeaderFile {
        name: "a.txt".into(),
        pack_size: 4,
        pack_crc: 1,
        unpack_size: 4,
        content_crc: 2,
        method_id: vec![0x00],
        method_props: vec![],
        empty: false,
        meta,
    }]
}

#[test]
fn header_starts_and_ends_correctly() {
    let files = one_file(FileMeta {
        mtime: Some(0x01D5C0_5A_A0_00_0000),
        windows_attributes: Some(ATTR_FILE),
        ..Default::default()
    });
    let mut h = Vec::new();
    write_raw_header(&mut h, &files).unwrap();
    assert_eq!(h[0], K_HEADER);
    assert_eq!(*h.last().unwrap(), K_END);
    assert!(h.contains(&K_SUB_STREAMS_INFO));
    assert!(h.contains(&K_WIN_ATTRIBUTES));
    assert!(h.contains(&K_M_TIME));
}

#[test]
fn header_omits_times_when_undefined() {
    let files = one_file(FileMeta::default());
    let mut h = Vec::new();
    write_raw_header(&mut h, &files).unwrap();
    assert!(!h.contains(&K_M_TIME), "must not invent mtime when undefined");
    assert!(
        !h.contains(&K_WIN_ATTRIBUTES),
        "must not invent attrs when undefined"
    );
}

#[test]
fn start_header_bytes() {
    let s = write_start_header(5, 7, 0x0102_0304);
    assert_eq!(s.len(), 32);
    assert_eq!(&s[..8], &[0x37, 0x7A, 0xBC, 0xAF, 0x27, 0x1C, 0, 4]);
    assert_eq!(&s[8..12], &crc32fast::hash(&s[12..]).to_le_bytes());
    assert_eq!(&s[12..20], &5u64.to_le_bytes());
    assert_eq!(&s[20..28], &7u64.to_le_bytes());
    assert_eq!(&s[28..], &[4, 3, 2, 1]);
}

#[test]
fn system_time_roundtrip_epoch() {
    let ft = system_time_to_filetime(Some((0, 0))).unwrap();
    // Unix epoch FILETIME = 11644473600 * 10_000_000
    assert_eq!(ft, 11_644_473_600 * 10_000_000);
}

#[test]
fn times_and_attributes_of_files() {
    assert_eq!(system_time_to_filetime(None), None);
    assert_eq!(system_time_to_filetime(Some((u64::MAX, 0))), None);
    assert_eq!(
        system_time_to_filetime(Some((1, 250))),
        Some(11_644_473_601 * 10_000_000 + 2)
    );
    assert_eq!(filetime_now(None), 0);
    assert_eq!(attrs_from_fs_meta(Some(0o100644), false), ATTR_FILE);
    assert_eq!(attrs_from_fs_meta(None, true), 0x30);
    let meta = FileMeta::from_fs(Some((0, 0)), None, None, None, false);
    assert_eq!(meta.ctime, None);
    assert_eq!(meta.windows_attributes, Some(0x20));
    let mut own = FileMeta {
        mtime: Some(7),
        ..Default::default()
    };
    own.merge_missing(&meta);
    assert_eq!(own.mtime, Some(7));
    assert_eq!(own.windows_attributes, Some(0x20));
    assert!(own.is_empty());
    assert!(!FileMeta::default().is_empty());
}

#[test]
fn store_writer_roundtrip_list_extract() {
    let a = b"nested-like-payload-aaaa";
    let b = b"passthrough hello";
    let disk = FileMeta::from_fs(Some((1_000_000, 0)), None, None, Some(0o100644), false);
    let mut w = NonsolidStoreWriter::new();
    let mut streams = Vec::new();
    for (name, data) in [("nested/a.7z", &a[..]), ("readme.txt", &b[..])] {
        let mut file = StoreAppend::begin(name.to_string(), None, disk);
        for piece in data.chunks(5) {
            file.update(piece);
            streams.extend_from_slice(piece);
        }
        w.push_appended(file, false);
    }
    let end = w.finish(32 + streams.len() as u64).unwrap();
    let mut reader = open(assemble(&streams, end));
    assert!(!reader.archive().is_solid);
    let names = names(&reader);
    assert!(names.iter().any(|n| n.ends_with("a.7z")), "{names:?}");
    assert!(names.iter().any(|n| n == "readme.txt"), "{names:?}");
    assert_eq!(reader.read_file("nested/a.7z").unwrap(), a);
    assert_eq!(reader.read_file("readme.txt").unwrap(), b);
}

#[test]
fn store_writer_empty_file_and_paths() {
    let mut w = NonsolidStoreWriter::new();
    assert!(w.is_empty());
    w.push_bytes("empty.dat".into(), b"");
    w.push_bytes("sub/x.txt".into(), b"hi");
    assert_eq!(w.len(), 2);
    let end = w.finish(34).unwrap();
    let mut reader = open(assemble(b"hi", end));
    let names = names(&reader);
    assert!(names.iter().any(|n| n.ends_with("empty.dat")), "{names:?}");
    assert!(names.iter().any(|n| n.contains("x.txt")), "{names:?}");
    assert_eq!(reader.read_file("sub/x.txt").unwrap(), b"hi");
}

#[test]
fn store_writer_preserves_explicit_meta_not_now() {
    let filetime = |t: u64| (t + 11_644_473_600) * 10_000_000;
    let explicit = |t: u64| FileMeta {
        mtime: Some(filetime(t)),
        windows_attributes: Some(0x20 | (0o100644 << 16)),
        ..Default::default()
    };
    // What the file system says is later; explicit times win.
    let disk = FileMeta::from_fs(Some((4_000_000_000, 0)), None, None, Some(0o100600), false);
    let mut w = NonsolidStoreWriter::new();
    let mut streams: Vec<u8> = Vec::new();
    let nest = 1_552_200_000;
    let readme = 1_514_160_000;
    for (name, data, t) in [
        ("nest.7z", &b"nested-like-payload"[..], nest),
        ("readme.txt", &b"readme"[..], readme),
    ] {
        let mut file = StoreAppend::begin(name.to_string(), Some(explicit(t)), disk);
        file.update(data);
        streams.extend_from_slice(data);
        w.push_appended(file, false);
    }
    let end = w.finish(32 + streams.len() as u64).unwrap();
    let reader = open(assemble(&streams, end));
    for f in &reader.archive().files {
        let t = if f.name() == "nest.7z" { nest } else { readme };
        assert_eq!(u64::from(f.last_modified_date()), filetime(t), "{}", f.name());
        assert_eq!(f.windows_attributes(), 0x20 | (0o100644 << 16));
    }
}

#[test]
fn store_writer_only_empty_files() {
    let mut w = NonsolidStoreWriter::new();
    let file = StoreAppend::begin("gone.dat".to_string(), None, FileMeta::default());
    w.push_appended(file, true);
    let end = w.finish(32).unwrap();
    let reader = open(assemble(b"", end));
    assert_eq!(names(&reader), vec!["gone.dat"]);
}

#[test]
fn store_writer_empty_finish_errors() {
    let w = NonsolidStoreWriter::new();
    assert_eq!(w.finish(32).unwrap_err().message(), "cannot write empty 7z archive");
}

#[test]
fn tar_writer_empty_finish_errors() {
    let w = TarOuterWriter::new();
    assert!(w.finish().is_err());
}

#[test]
fn tar_member_names() {
    assert_eq!(TarOuterWriter::member_name("./a\\b.txt").unwrap(), "a/b.txt");
    assert_eq!(TarOuterWriter::member_name("//x").unwrap(), "x");
    assert_eq!(
        TarOuterWriter::member_name("/./").unwrap_err().message(),
        "empty tar member name"
    );
    let mut w = TarOuterWriter::new();
    w.record();
    assert_eq!(w.len(), 1);
    assert!(!w.is_empty());
    assert!(w.finish().is_ok());
}

#[test]
fn outer_format_resolve_from_extension() {
    assert_eq!(OuterFormat::resolve(None, Some("out.tar")), OuterFormat::Tar);
    assert_eq!(OuterFormat::resolve(None, Some("out.7z")), OuterFormat::SevenZ);
    assert_eq!(OuterFormat::resolve(None, Some("out_dir/")), OuterFormat::Dir);
    assert_eq!(
        OuterFormat::resolve(Some(OuterFormat::Tar), Some("out.7z")),
        OuterFormat::Tar
    );
    assert_eq!(
        OuterFormat::resolve(Some(OuterFormat::SevenZ), Some("out.tar")),
        OuterFormat::SevenZ
    );
    assert_eq!(OuterFormat::resolve(Some(OuterFormat::Dir), None), OuterFormat::Dir);
}

#[test]
fn outer_format_names() {
    for f in [OuterFormat::SevenZ, OuterFormat::Tar, OuterFormat::Dir] {
        assert_eq!(OuterFormat::parse(f.as_str()), Some(f));
    }
    assert_eq!(OuterFormat::parse("rar"), None);
    assert!(OuterFormat::Dir.is_directory());
    assert_eq!(OuterFormat::from_output_path("X.TAR"), OuterFormat::Tar);
}

#[test]
fn default_dir_matches_archive_stem() {
    assert_eq!(default_dir_from_input("/data/game.7z"), "/data/game");
    assert_eq!(default_dir_from_input("outer.7z"), "outer");
    assert_eq!(default_dir_from_input("foo/bar.tar.7z"), "foo/bar.tar");
}

#[test]
fn dir_writer_rejects_path_escape() {
    let w = DirOuterWriter::new("/tmp/out");
    assert!(w.dest_path("../evil").is_err());
}

#[test]
fn dir_writer_places_members() {
    let mut w = DirOuterWriter::new("/tmp/out");
    assert_eq!(w.root(), "/tmp/out");
    assert_eq!(w.dest_path("nested\\a.7z").unwrap(), "/tmp/out/nested/a.7z");
    w.record();
    assert_eq!(w.len(), 1);
    assert!(w.finish().is_ok());
    assert!(DirOuterWriter::new("x").finish().is_err());
}

#[test]
fn custom_writer_readable_by_native_and_lists_files() {
    let a = PureRustCodec.compress(b"alpha data content", 1).unwrap();
    let b = PureRustCodec.compress(b"beta data content!!", 1).unwrap();
    let meta = |mtime: u64| FileMeta {
        mtime: Some(mtime),
        windows_attributes: Some(0x20),
        ..Default::default()
    };
    let entries = vec![
        PackedEntry {
            name: "a.txt".into(),
            compressed: a,
            meta: meta(100_000_000_000_000),
        },
        PackedEntry {
            name: "b.txt".into(),
            compressed: b,
            meta: meta(200_000_000_000_000),
        },
    ];
    let mut reader = open(write_nonsolid_lzma2(&entries).unwrap());
    let names = names(&reader);
    assert!(names.iter().any(|n| n.ends_with("a.txt")), "{names:?}");
    assert!(names.iter().any(|n| n.ends_with("b.txt")), "{names:?}");
    assert!(!reader.archive().is_solid);
    let mtime = |name: &str| {
        let files = &reader.archive().files;
        let f = files.iter().find(|f| f.name() == name).unwrap();
        assert!(f.has_last_modified_date);
        u64::from(f.last_modified_date())
    };
    assert_eq!(mtime("a.txt"), 100_000_000_000_000);
    assert_eq!(mtime("b.txt"), 200_000_000_000_000);
    assert_eq!(reader.read_file("a.txt").unwrap(), b"alpha data content");
    assert_eq!(reader.read_file("b.txt").unwrap(), b"beta data content!!");
}

#[test]
fn streaming_writer_appends_and_roundtrips() {
    let mut w = NonsolidLzma2Writer::new();
    let mut streams = Vec::new();
    for i in 0..20 {
        let data = format!("payload-{i}-{}", "x".repeat(50));
        let c = liblzma(data.as_bytes(), 1);
        w.push_packed(
            format!("f{i:02}.txt"),
            &c,
            FileMeta {
                mtime: Some(1_000_000_000_000 + i as u64),
                ..Default::default()
            },
        );
        streams.extend_from_slice(&c.data);
    }
    assert_eq!(w.len(), 20);
    let end = w.finish(32 + streams.len() as u64).unwrap();
    let mut reader = open(assemble(&streams, end));
    assert_eq!(names(&reader).len(), 20);
    for i in 0..20 {
        assert_eq!(
            reader.read_file(&format!("f{i:02}.txt")).unwrap(),
            format!("payload-{i}-{}", "x".repeat(50)).as_bytes()
        );
    }
}

#[test]
fn nested_paths_roundtrip() {
    let c = PureRustCodec.compress(b"in subdir", 1).unwrap();
    let mut w = NonsolidLzma2Writer::new();
    w.push_packed("sub/dir/x.txt".into(), &c, FileMeta::default());
    let end = w.finish(32 + c.data.len() as u64).unwrap();
    let mut reader = open(assemble(&c.data, end));
    assert_eq!(reader.read_file("sub/dir/x.txt").unwrap(), b"in subdir");
}

#[test]
fn packed_archive_needs_a_file() {
    assert_eq!(
        write_nonsolid_lzma2(&[]).unwrap_err().message(),
        "cannot write empty 7z archive"
    );
    assert!(NonsolidLzma2Writer::new().is_empty());
}
