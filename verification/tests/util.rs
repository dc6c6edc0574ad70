use archiveconverter::archive::types::{ArchiveFormat, EntryMeta};
use archiveconverter::codec::sevenz_header::FileMeta;
use archiveconverter::error::Error;
use archiveconverter::util::auto_threads::{file_stats, resolve_pack_threads};
use archiveconverter::util::cleanup::{deepest_first, removal_chunk};
use archiveconverter::util::order::{insert_sorted, not_after, sorted_order};
use archiveconverter::util::pathnorm::{
    is_safe_member_path, join_member, member_basename, normalize_member_path,
};
use archiveconverter::util::size_parse::{
    can_admit_nested, clamp_cpus, exact_size, finish_byte_size, parse_byte_size,
    resolve_nested_workers, SizeValue,
};
use archiveconverter::util::text::{
    chars_of, lines_of, read_u64, read_usize, show_padded, show_u64, show_usize, split_char,
    string_of, words_of,
};
use archiveconverter::util::textpath::{
    path_extension, path_file_name, path_file_stem, path_join, path_parent,
};

fn scale(number: &str, unit: u64) -> SizeValue {
    match number.parse::<f64>() {
        Err(_) => SizeValue::NotANumber,
        Ok(n) if !n.is_finite() || n < 0.0 => SizeValue::OutOfRange,
        Ok(n) => {
            let bytes = n * unit as f64;
            if bytes > u64::MAX as f64 {
                SizeValue::TooLarge
            } else {
                SizeValue::Bytes(bytes.round() as u64)
            }
        }
    }
}

fn file(path: &str, size: u64, is_dir: bool) -> EntryMeta {
    EntryMeta {
        path: path.to_string(),
        size,
        is_dir,
        format_hint: ArchiveFormat::Unknown,
        meta: FileMeta::default(),
    }
}

#[test]
fn normalizes_separators_and_dots() {
    assert_eq!(normalize_member_path(r".\foo\bar.7z"), "foo/bar.7z");
    assert_eq!(normalize_member_path("foo//bar"), "foo/bar");
    assert_eq!(normalize_member_path("/foo/bar"), "foo/bar");
}

#[test]
fn basename_works() {
    assert_eq!(member_basename("a/b/c.7z"), "c.7z");
    assert_eq!(member_basename("c.7z"), "c.7z");
}

#[test]
fn pathnorm_rejects_path_escape() {
    assert!(!is_safe_member_path("../evil"));
    assert!(!is_safe_member_path("/abs"));
    assert!(is_safe_member_path("ok/file.txt"));
}

#[test]
fn normalizing_a_normal_form_changes_nothing() {
    for p in ["a/b", "x//y\\z", "./q", "..", "a/./b", "/./x", ".//./y"] {
        let once = normalize_member_path(p);
        assert_eq!(normalize_member_path(&once), once);
    }
    assert_eq!(normalize_member_path("/./a"), "a");
    assert_eq!(normalize_member_path(".//./a/./b"), "a/./b");
    assert_eq!(normalize_member_path("\\.\\a\\\\b"), "a/b");
    assert_eq!(normalize_member_path("./x"), "x");
    assert_eq!(normalize_member_path("."), ".");
    assert_eq!(normalize_member_path("./"), "");
    assert_eq!(normalize_member_path("..//.x"), "../.x");
}

#[test]
fn unsafe_paths() {
    assert!(!is_safe_member_path("a/../../b"));
    assert!(!is_safe_member_path(""));
    assert!(!is_safe_member_path("C:/x"));
    assert!(is_safe_member_path("a/b..c"));
}

#[test]
fn joins_members() {
    assert_eq!(join_member("a", "b.txt"), "a/b.txt");
    assert_eq!(join_member("", "b.txt"), "b.txt");
}

#[test]
fn parse_suffixes() {
    assert_eq!(parse_byte_size("100", scale).unwrap(), 100);
    assert_eq!(parse_byte_size("500M", scale).unwrap(), 500 * 1024 * 1024);
    assert_eq!(parse_byte_size("500MB", scale).unwrap(), 500 * 1024 * 1024);
    assert_eq!(parse_byte_size("1G", scale).unwrap(), 1024 * 1024 * 1024);
    assert_eq!(parse_byte_size("1.5K", scale).unwrap(), 1536);
}

#[test]
fn bad_sizes_are_named() {
    let message = |s: &str| parse_byte_size(s, scale).unwrap_err().message();
    assert_eq!(message("  "), "empty size string");
    assert_eq!(message("MiB"), "missing number in size 'MiB'");
    assert_eq!(message("xK"), "invalid size number in 'xK'");
    assert_eq!(message("-1K"), "invalid size '-1K'");
    assert_eq!(message("1e30G"), "size too large: '1e30G'");
    assert_eq!(parse_byte_size(" 2 kib ", scale).unwrap(), 2048);
    assert_eq!(parse_byte_size("7B", scale).unwrap(), 7);
}

#[test]
fn whole_numbers_are_exact() {
    let never = |_: &str, _: u64| SizeValue::NotANumber;
    assert_eq!(parse_byte_size("9007199254740993", never).unwrap(), 9007199254740993);
    assert_eq!(parse_byte_size("18446744073709551615", never).unwrap(), u64::MAX);
    assert_eq!(parse_byte_size("17179869183GiB", never).unwrap(), 18446744072635809792);
    assert_eq!(parse_byte_size("+3K", never).unwrap(), 3072);
    assert_eq!(
        parse_byte_size("18446744073709551616", never).unwrap_err().message(),
        "size too large: '18446744073709551616'"
    );
    assert_eq!(
        parse_byte_size("17179869184g", never).unwrap_err().message(),
        "size too large: '17179869184g'"
    );
    assert_eq!(exact_size("12", 1024), Some(SizeValue::Bytes(12288)));
    assert_eq!(exact_size("1.5", 1024), None);
    assert_eq!(exact_size("", 1), None);
    assert_eq!(finish_byte_size("10k", SizeValue::TooLarge).unwrap(), 10240);
    assert_eq!(finish_byte_size("1.5k", SizeValue::Bytes(1536)).unwrap(), 1536);
}

#[test]
fn admit_rules() {
    let budget = 500 * 1024 * 1024;
    let m100 = 100 * 1024 * 1024;
    let m400 = 400 * 1024 * 1024;
    // empty → admit even oversized
    assert!(can_admit_nested(0, 0, budget * 2, budget, 4));
    // two 100MiB in flight, 400MiB next does not fit (200+400 > 500)
    assert!(can_admit_nested(0, 0, m100, budget, 5));
    assert!(can_admit_nested(m100, 1, m100, budget, 5));
    assert!(!can_admit_nested(2 * m100, 2, m400, budget, 5));
    // five 100MiB with 5 workers fills the budget
    let mut sum = 0u64;
    for i in 0..5 {
        assert!(can_admit_nested(sum, i, m100, budget, 5), "i={i}");
        sum += m100;
    }
    assert!(!can_admit_nested(sum, 5, m100, budget, 5));
}

#[test]
fn no_budget_admits_up_to_the_workers() {
    assert!(can_admit_nested(u64::MAX, 3, u64::MAX, 0, 4));
    assert!(!can_admit_nested(0, 4, 0, 0, 4));
    assert!(!can_admit_nested(0, 0, 0, 0, 0));
}

#[test]
fn resolve_workers() {
    assert_eq!(resolve_nested_workers(3, Some(8), None), 3);
    assert_eq!(resolve_nested_workers(0, Some(4), None), 4);
    assert!(resolve_nested_workers(0, None, Some(6)) >= 1);
    assert_eq!(resolve_nested_workers(0, None, Some(6)), 6);
    assert_eq!(resolve_nested_workers(0, Some(0), Some(6)), 1);
    assert_eq!(clamp_cpus(Some(1000)), 256);
    assert_eq!(clamp_cpus(None), 1);
}

#[test]
fn honors_explicit() {
    assert_eq!(resolve_pack_threads(Some(4), 1_000_000, 100), Some(4));
}

#[test]
fn many_tiny_forces_one() {
    assert_eq!(resolve_pack_threads(None, 50_000, 50_000 * 300), Some(1));
}

#[test]
fn few_large_uses_default_mt() {
    assert_eq!(resolve_pack_threads(None, 10, 10 * 10 * 1024 * 1024), None);
}

#[test]
fn thread_policy_edges() {
    assert_eq!(resolve_pack_threads(None, 0, 0), None);
    assert_eq!(resolve_pack_threads(None, 2, 2 * 65_536), None);
    assert_eq!(resolve_pack_threads(None, 2, 2 * 65_536 - 1), Some(1));
    assert_eq!(resolve_pack_threads(None, 1_000, 1_000 << 30), Some(1));
    assert_eq!(resolve_pack_threads(None, 999, 999 << 30), None);
}

#[test]
fn counts_files_and_bytes() {
    let listing = vec![
        file("a", 5, false),
        file("d", 99, true),
        file("b", u64::MAX, false),
    ];
    assert_eq!(file_stats(&listing), (2, u64::MAX));
    assert_eq!(file_stats(&listing[..2]), (1, 5));
}

#[test]
fn removal_is_shared_out() {
    assert_eq!(removal_chunk(10_000, Some(8)), None);
    assert_eq!(removal_chunk(10_001, Some(8)), Some(1_251));
    assert_eq!(removal_chunk(10_001, Some(1)), None);
    assert_eq!(removal_chunk(16_000, Some(64)), Some(1_000));
    assert_eq!(removal_chunk(20_000, None), Some(5_000));
    assert_eq!(deepest_first(&[1, 3, 2, 3]), vec![1, 3, 2, 0]);
}

#[test]
fn sorts_texts() {
    let names: Vec<String> = ["b", "a", "b", "", "ab"]
        .iter()
        .map(|s| s.to_string())
        .collect();
    assert_eq!(sorted_order(&names), vec![3, 1, 4, 0, 2]);
    assert!(not_after("Z", "a"));
    assert!(!not_after("é", "z"));
    let mut sorted: Vec<String> = Vec::new();
    for n in names {
        insert_sorted(&mut sorted, n);
    }
    assert_eq!(sorted, vec!["", "a", "ab", "b", "b"]);
}

#[test]
fn numbers_read_back() {
    for n in [0u64, 7, 10, 99, 1_234_567, u64::MAX] {
        assert_eq!(read_u64(&chars_of(&show_u64(n))), Some(n));
        assert_eq!(show_u64(n), n.to_string());
    }
    assert_eq!(show_usize(0), "0");
    assert_eq!(read_u64(&chars_of("18446744073709551616")), None);
    assert_eq!(read_u64(&chars_of("+5")), Some(5));
    assert_eq!(read_u64(&chars_of("")), None);
    assert_eq!(read_usize(&chars_of("12x")), None);
}

#[test]
fn pads_numbers() {
    assert_eq!(show_padded(7, 4), "0007");
    assert_eq!(show_padded(12345, 4), "12345");
    assert_eq!(show_padded(0, 0), "0");
}

#[test]
fn splits_texts() {
    let strings = |v: Vec<Vec<char>>| v.iter().map(|r| string_of(r)).collect::<Vec<_>>();
    assert_eq!(strings(split_char(&chars_of("a//b"), '/')), vec!["a", "", "b"]);
    assert_eq!(strings(lines_of(&chars_of("x\r\ny\n\nz"))), vec!["x", "y", "", "z"]);
    assert_eq!(strings(words_of(&chars_of("  one\ttwo  three "))), vec!["one", "two", "three"]);
}

#[test]
fn text_paths() {
    assert_eq!(path_file_name("a/b.7z"), Some("b.7z".to_string()));
    assert_eq!(path_file_name("a/.."), None);
    assert_eq!(path_parent("a/b.7z"), Some("a".to_string()));
    assert_eq!(path_parent("b.7z"), Some(String::new()));
    assert_eq!(path_parent("/"), None);
    assert_eq!(path_extension("x.tar.7z"), Some("7z".to_string()));
    assert_eq!(path_extension(".hidden"), None);
    assert_eq!(path_file_stem("x.tar.7z"), Some("x.tar".to_string()));
    assert_eq!(path_join("a", "b"), "a/b");
    assert_eq!(path_join("a", "/b"), "/b");
    assert_eq!(path_file_name(&path_join("dir", "f.txt")), Some("f.txt".to_string()));
}

#[test]
fn errors_are_shown() {
    assert_eq!(
        Error::NameCollision("x".to_string()).message(),
        "name collision: multiple members map to 'x'"
    );
    assert_eq!(Error::Io("gone".to_string()).message(), "I/O error: gone");
    assert_eq!(
        Error::BackendMissing("m".to_string()).message(),
        "7z backend not found: m"
    );
    assert_eq!(Error::BackendMissing("m".to_string()).exit_code(), 2);
    assert_eq!(Error::FilterFileNotFound("m".to_string()).exit_code(), 2);
    assert_eq!(Error::Other("m".to_string()).exit_code(), 1);
    assert_eq!(Error::Io("m".to_string()).exit_code(), 1);
    assert_eq!(Error::EntryNotFound("m".to_string()).exit_code(), 1);
}
