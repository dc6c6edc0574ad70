use std::io::{Cursor, Read};

use archiveconverter::archive::commands::{
    binary_names, check_output, find_7z_binary, local_7z_paths, CommandOutput, SevenZCli,
};
use archiveconverter::archive::detect::{detect_format, format_from_path, is_7z_member};
use archiveconverter::archive::native::{
    excluded_by, fate_when_extracted, glob_match_simple, header_meta, listed_entry, native_error,
    pack_order, packed_name, wanted_member, wanted_members, EntryEncoding, Fate, MemberSelection,
    NativeOptions, NativePipeline, NativeSevenZ, PackSequencer,
};
use archiveconverter::archive::sevenz::{
    parse_archive_solid, parse_ba_listing, parse_slt_listing,
};
use archiveconverter::archive::types::{ArchiveFormat, BackendKind, PackOptions};
use archiveconverter::codec::lzma2::{CodecKind, Lzma2Codec, PureRustCodec};
use archiveconverter::codec::sevenz_header::FileMeta;
use archiveconverter::codec::writer::PackedEntry;
use archiveconverter::error::Error;
use archiveconverter::filter::member::MemberFilter;
use sevenz_rust2::{ArchiveEntry, ArchiveReader, ArchiveWriter, Password, SourceReader};

fn texts(v: &[&str]) -> Vec<String> {
    v.iter().map(|s| s.to_string()).collect()
}

fn pack(non_solid: bool, threads: Option<u32>, level: u32) -> PackOptions {
    PackOptions {
        non_solid,
        threads,
        level,
    }
}

fn output(code: i32, stdout: &str, stderr: &str) -> CommandOutput {
    CommandOutput {
        code: Some(code),
        stdout: stdout.to_string(),
        stderr: stderr.to_string(),
    }
}

#[test]
fn extension_detection() {
    assert_eq!(format_from_path("a/b/c.7z"), ArchiveFormat::SevenZ);
    assert_eq!(format_from_path("C.7Z"), ArchiveFormat::SevenZ);
    assert_eq!(format_from_path("x.zip"), ArchiveFormat::Zip);
    assert_eq!(format_from_path("x.txt"), ArchiveFormat::Unknown);
}

#[test]
fn contents_tell_the_format() {
    let sig = [0x37, 0x7A, 0xBC, 0xAF, 0x27, 0x1C, 0, 4];
    assert_eq!(detect_format(&sig, Some("x.txt")), ArchiveFormat::SevenZ);
    assert_eq!(detect_format(b"PK\x03\x04rest", None), ArchiveFormat::Zip);
    assert_eq!(detect_format(b"text", Some("x.7z")), ArchiveFormat::SevenZ);
    assert_eq!(detect_format(b"text", None), ArchiveFormat::Unknown);
    assert!(is_7z_member("d/x.7z"));
    assert_eq!(ArchiveFormat::SevenZ.as_str(), "7z");
}

#[test]
fn parse_slt_sample() {
    let sample = r#"
Path = file1.txt
Size = 12
Attributes = A
Folder = -

Path = nested/data.7z
Size = 999
Folder = -
Attributes = A

Path = emptydir
Size = 0
Folder = +
"#;
    let entries = parse_slt_listing(sample).unwrap();
    assert_eq!(entries.len(), 3);
    assert_eq!(entries[0].path, "file1.txt");
    assert_eq!(entries[0].size, 12);
    assert!(!entries[0].is_dir);
    assert_eq!(entries[1].path, "nested/data.7z");
    assert_eq!(entries[1].format_hint, ArchiveFormat::SevenZ);
    assert!(entries[1].is_nested_archive());
    assert!(entries[2].is_dir);
}

#[test]
fn parse_ba_sample() {
    let sample = "\
2024-01-01 12:00:00 ....A          12           10  file1.txt
2024-01-01 12:00:00 ....A         999               nested/data.7z
2024-01-01 12:00:00 D....           0            0  emptydir
";
    let entries = parse_ba_listing(sample).unwrap();
    assert_eq!(entries.len(), 3);
    assert_eq!(entries[0].path, "file1.txt");
    assert_eq!(entries[0].size, 12);
    assert!(!entries[0].is_dir);
    assert_eq!(entries[1].path, "nested/data.7z");
    assert_eq!(entries[1].format_hint, ArchiveFormat::SevenZ);
    assert!(entries[2].is_dir);
}

#[test]
fn parse_solid_flag() {
    let solid = r#"
Path = outer.7z
Type = 7z
Solid = +
Blocks = 1
----------
Path = a.7z
Size = 1
"#;
    assert!(parse_archive_solid(solid));
    let nonsolid = r#"
Path = outer.7z
Type = 7z
Solid = -
Blocks = 3
----------
Path = a.7z
Size = 1
"#;
    assert!(!parse_archive_solid(nonsolid));
}

#[test]
fn discover_binary_or_skip() {
    // The first of the names that is installed is the program to use.
    let found: Vec<Option<String>> = binary_names()
        .iter()
        .map(|n| which::which(n).ok().map(|p| p.display().to_string()))
        .collect();
    match find_7z_binary(&found) {
        Ok(p) => assert!(std::path::Path::new(&p).exists(), "{p}"),
        Err(e) => println!("7z not installed: {}", e.message()),
    }
}

#[test]
fn first_program_found_is_used() {
    let found = vec![None, Some("/b/7z".to_string()), Some("/c/7za".to_string())];
    assert_eq!(find_7z_binary(&found).unwrap(), "/b/7z");
    assert_eq!(SevenZCli::discover(&found).unwrap().binary(), "/b/7z");
    assert!(matches!(find_7z_binary(&[None]), Err(Error::BackendMissing(_))));
    assert_eq!(binary_names(), vec!["7zz", "7z", "7za"]);
    assert_eq!(
        local_7z_paths("/home/u"),
        vec!["/home/u/.local/bin/7zz", "/home/u/.local/bin/7z"]
    );
}

#[test]
fn failed_commands_are_reported() {
    assert!(check_output(&texts(&["t"]), &output(0, "", "")).is_ok());
    assert!(check_output(&texts(&["t"]), &output(1, "", "")).is_ok());
    let e = check_output(&texts(&["t", "a \"b\""]), &output(2, "", "bad data")).unwrap_err();
    assert!(matches!(e, Error::BackendFailed(_)));
    let m = e.message();
    assert!(m.contains(r#"["t", "a \"b\""]"#), "{m}");
    assert!(m.contains("bad data"), "{m}");
}

#[test]
fn command_lines() {
    assert_eq!(
        SevenZCli::pack_args("o.7z", &pack(true, Some(2), 5)),
        vec!["a", "-t7z", "-mx=5", "-y", "-ms=off", "-mmt=2", "o.7z", "."]
    );
    assert_eq!(
        SevenZCli::extract_members_args("a.7z", &texts(&["x"]), "d"),
        vec!["x", "-y", "-od", "a.7z", "x"]
    );
    assert_eq!(
        SevenZCli::extract_excludes_args("a.7z", "d", &texts(&["*.tmp"])),
        vec!["x", "-y", "-od", "a.7z", "-x!*.tmp"]
    );
    assert_eq!(SevenZCli::test_args("a.7z"), vec!["t", "a.7z"]);
}

#[test]
fn listings_are_checked() {
    let basic = SevenZCli::list_basic("a.7z", &output(2, "", "no"));
    assert!(SevenZCli::needs_technical(&basic));
    let listing = "2024-01-01 12:00:00 ....A          12           10  f.txt\n";
    let basic = SevenZCli::list_basic("a.7z", &output(0, listing, ""));
    assert!(!SevenZCli::needs_technical(&basic));
    assert_eq!(basic.unwrap()[0].path, "f.txt");
    assert!(SevenZCli::archive_is_solid("a.7z", &output(0, "Solid = +\n", "")).unwrap());
    assert!(SevenZCli::check_pack("o.7z", &output(0, "", ""), false).is_err());
    assert!(SevenZCli::check_pack("o.7z", &output(0, "", ""), true).is_ok());
    assert!(SevenZCli::streamed(Some(1), true));
    assert!(!SevenZCli::streamed(Some(2), true));
    assert!(!SevenZCli::streamed(None, true));
    assert!(!SevenZCli::streamed(Some(0), false));
}

#[test]
fn extracted_files_are_found_again() {
    let paths = texts(&["d/a.txt", "e/b.txt"]);
    let names = texts(&["a.txt", "b.txt"]);
    assert_eq!(SevenZCli::find_extracted_file(&paths, &names, "e/b.txt").unwrap(), 1);
    assert!(matches!(
        SevenZCli::find_extracted_file(&paths, &names, "c.txt"),
        Err(Error::EntryNotFound(_))
    ));
}

#[test]
fn extract_rejects_unsafe_member_paths() {
    let err = wanted_member("../evil").unwrap_err();
    assert!(err.message().contains("unsafe"), "{}", err.message());
    let err = wanted_members(&texts(&["/abs/path"])).unwrap_err();
    assert!(err.message().contains("unsafe"), "{}", err.message());
}

#[test]
fn safe_members_are_normalized() {
    assert_eq!(wanted_member("a\\b").unwrap(), "a/b");
    assert_eq!(wanted_members(&texts(&["x", "./y"])).unwrap(), vec!["x", "y"]);
    assert_eq!(native_error("boom").message(), "native 7z: boom");
}

#[test]
fn listed_entries() {
    let meta = header_meta((true, 7), (false, 8), (true, 9), (false, 0x20));
    assert_eq!(meta.mtime, Some(7));
    assert_eq!(meta.ctime, None);
    assert_eq!(meta.atime, Some(9));
    assert_eq!(meta.windows_attributes, None);
    let e = listed_entry("a\\n.7z", 5, false, meta);
    assert_eq!(e.path, "a/n.7z");
    assert_eq!(e.format_hint, ArchiveFormat::SevenZ);
    assert_eq!(e.meta.mtime, Some(7));
}

#[test]
fn fate_of_extracted_members() {
    let wants = texts(&["a/b.txt"]);
    assert!(matches!(fate_when_extracted("a\\b.txt", false, &wants), Fate::Keep(p) if p == "a/b.txt"));
    assert!(matches!(fate_when_extracted("c.txt", false, &wants), Fate::Drop));
    assert!(matches!(fate_when_extracted("a", true, &wants), Fate::Directory));
}

#[test]
fn encoding_by_size() {
    let b = NativeSevenZ::with_options(NativeOptions {
        decode_threads: 1,
        encode_threads: Some(4),
        pipeline: NativePipeline::Sequential,
        large_file_threshold: 1000,
        parallel_pack_read: true,
        codec: CodecKind::PureRust,
    });
    let p = pack(true, None, 7);
    assert!(matches!(
        b.encoding_for_size(&p, 999, Some(8)),
        EntryEncoding::Single { level: 7 }
    ));
    assert!(!matches!(
        b.encoding_for_size(&p, 100_000_000, Some(8)),
        EntryEncoding::Single { .. }
    ));
    assert_eq!(b.encode_threads(&pack(true, Some(3), 7), Some(8)), 3);
    assert_eq!(b.encode_threads(&p, Some(8)), 4);
    assert_eq!(NativeSevenZ::ahead(0), 1);
}

#[test]
fn names_and_order_of_packed_files() {
    assert_eq!(packed_name("a\\b"), Some("a/b".to_string()));
    assert_eq!(packed_name(""), None);
    assert_eq!(pack_order(&texts(&["b", "a", "c"])), vec![1, 0, 2]);
}

#[test]
fn simple_globs() {
    assert!(glob_match_simple("*.tmp", "d/x.tmp"));
    assert!(!glob_match_simple("*.tmp", "x.txt"));
    assert!(!glob_match_simple("*.tmp", "x.TMP"));
    assert!(glob_match_simple("dir/*", "dir/a/b"));
    assert!(!glob_match_simple("dir/*", "dir"));
    assert!(!glob_match_simple("dir/*", "x/dir/a"));
    assert!(glob_match_simple("*/dir/*", "x/dir/a"));
    assert!(!glob_match_simple("*/dir/*", "x/dirs/a"));
    assert!(!glob_match_simple("name", "x/name"));
    assert!(glob_match_simple("*/name", "x/name"));
    assert!(glob_match_simple("a?c*", "abc"));
    assert!(!glob_match_simple("a?c*", "ac"));
    assert!(excluded_by(&texts(&["x/*"]), "x\\y"));
    assert!(excluded_by(&texts(&["*.bak", "secret"]), "secret"));
    assert!(!excluded_by(&[], "secret"));
}

#[test]
fn backend_names() {
    assert_eq!(BackendKind::Cli.as_str(), "cli");
    assert_eq!(BackendKind::Native.as_str(), "native");
}

/// A solid archive of these files.
fn solid(files: &[(&str, &[u8])]) -> Vec<u8> {
    let entries = files.iter().map(|f| ArchiveEntry::new_file(f.0)).collect();
    solid_of(entries, files)
}

fn solid_of(entries: Vec<ArchiveEntry>, files: &[(&str, &[u8])]) -> Vec<u8> {
    let mut w = ArchiveWriter::new(Cursor::new(Vec::new())).unwrap();
    let sources: Vec<SourceReader<&[u8]>> = files.iter().map(|f| SourceReader::new(f.1)).collect();
    w.push_archive_entries(entries, sources).unwrap();
    w.finish().unwrap().into_inner()
}

fn meta_of(e: &ArchiveEntry) -> FileMeta {
    header_meta(
        (e.has_last_modified_date, u64::from(e.last_modified_date)),
        (e.has_creation_date, u64::from(e.creation_date)),
        (e.has_access_date, u64::from(e.access_date)),
        (e.has_windows_attributes, e.windows_attributes),
    )
}

/// Converts a solid archive as the streaming backend does; what was compressed arrives backwards.
fn convert(input: Vec<u8>, filter: &MemberFilter) -> Vec<u8> {
    let mut reader = ArchiveReader::new(Cursor::new(input), Password::empty()).unwrap();
    assert!(reader.archive().is_solid);
    let mut selection = MemberSelection::new();
    let mut packed: Vec<PackedEntry> = Vec::new();
    reader
        .for_each_entries(|e, r| {
            let mut data = Vec::new();
            r.read_to_end(&mut data).unwrap();
            if let Fate::Keep(name) = selection.offer(e.name(), e.is_directory(), filter) {
                packed.push(PackedEntry {
                    name,
                    compressed: PureRustCodec.compress(&data, 1).unwrap(),
                    meta: meta_of(e),
                });
            }
            Ok(true)
        })
        .unwrap();
    let mut sequencer = PackSequencer::new();
    let mut streams = Vec::new();
    let count = packed.len();
    for (i, entry) in packed.into_iter().enumerate().rev() {
        for ready in sequencer.accept(i, entry) {
            streams.extend_from_slice(&ready.compressed.data);
        }
    }
    assert_eq!(sequencer.len(), count);
    let end = sequencer.finish(32 + streams.len() as u64).unwrap();
    let mut out = end.start;
    out.extend_from_slice(&streams);
    out.extend_from_slice(&end.header);
    out
}

fn file_names(reader: &ArchiveReader<Cursor<Vec<u8>>>) -> Vec<String> {
    let files = reader.archive().files.iter();
    files.filter(|f| !f.is_directory()).map(|f| f.name().to_string()).collect()
}

#[test]
fn streaming_pipeline_drops_excluded() {
    let input = solid(&[("keep.txt", b"keep"), ("drop.tmp", b"drop")]);
    let filter = MemberFilter::with_excludes(&texts(&[r"(?i)\.tmp$"])).unwrap();
    let out = convert(input, &filter);
    let reader = ArchiveReader::new(Cursor::new(out), Password::empty()).unwrap();
    assert!(!reader.archive().is_solid);
    let names = file_names(&reader);
    assert!(names.iter().any(|n| n.ends_with("keep.txt")), "{names:?}");
    assert!(!names.iter().any(|n| n.ends_with(".tmp")), "{names:?}");
}

#[test]
fn native_phase3_convert_single_preserves_mtime_and_attrs() {
    let times = [1_579_090_000u64, 1_527_840_000].map(|t| (t + 11_644_473_600) * 10_000_000);
    let files: [(&str, &[u8]); 2] = [
        ("old_a.txt", b"alpha content\n"),
        ("old_b.txt", b"beta content!!\n"),
    ];
    let entries: Vec<ArchiveEntry> = files
        .iter()
        .zip(times)
        .map(|(f, t)| {
            let mut e = ArchiveEntry::new_file(f.0);
            e.has_last_modified_date = true;
            e.last_modified_date = t.into();
            e.has_windows_attributes = true;
            e.windows_attributes = 0x20 | (0o100644 << 16);
            e
        })
        .collect();
    let out = convert(solid_of(entries, &files), &MemberFilter::new());
    let reader = ArchiveReader::new(Cursor::new(out), Password::empty()).unwrap();
    for (i, f) in reader.archive().files.iter().enumerate() {
        let meta = meta_of(f);
        assert_eq!(meta.mtime, Some(times[i]), "{}", f.name());
        assert_eq!(meta.windows_attributes, Some(0x20 | (0o100644 << 16)));
        assert_eq!(meta.ctime, None);
    }
    assert_ne!(times[0], times[1]);
}

#[test]
fn parallel_codec_pure_rust_roundtrip() {
    let payload = b"pure-rust phase3 payload ".repeat(20);
    let input = solid(&[("x.dat", &payload), ("sub/more.txt", b"more-content-bbbb")]);
    let out = convert(input, &MemberFilter::new());
    let mut reader = ArchiveReader::new(Cursor::new(out), Password::empty()).unwrap();
    assert_eq!(reader.read_file("x.dat").unwrap(), payload);
    assert_eq!(reader.read_file("sub/more.txt").unwrap(), b"more-content-bbbb");
    assert_eq!(file_names(&reader), vec!["x.dat", "sub/more.txt"]);
}

#[test]
fn listings_add_up() {
    let a = "Path = d\nFolder = +\nSize = 7\n\nPath = big.7z\nSize = 900\n";
    let b = "Path = x\n\nPath = \nSize = 3\n";
    let shown = |s: &str| {
        parse_slt_listing(s)
            .unwrap()
            .iter()
            .map(|e| (e.path.clone(), e.size, e.is_dir, e.format_hint))
            .collect::<Vec<_>>()
    };
    let mut both = shown(a);
    both.extend(shown(b));
    assert_eq!(shown(&format!("{a}{b}")), both);
    assert_eq!(
        both,
        vec![
            ("d".to_string(), 7, true, ArchiveFormat::Unknown),
            ("big.7z".to_string(), 900, false, ArchiveFormat::SevenZ),
            ("x".to_string(), 0, false, ArchiveFormat::Unknown),
        ]
    );
}
