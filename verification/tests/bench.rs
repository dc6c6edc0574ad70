use archiveconverter::bench::baseline::{
    lookup_manual, median, merge_baseline_entries, ManualBaselineEntry,
};
use archiveconverter::bench::fixtures::{
    bench_cells, bytes_per_file, convert_args, directory_count, file_body, file_path, intent,
    is_intermediate, is_reused, list_text, marker_text, nested_name, outer_name, repeat_count,
    resolve_scale_name, run_name, Scale, ScaleName,
};
use archiveconverter::bench::manual::{
    find_file_under, manual_member, manual_steps, parse_listing, run_failed, ManualMember,
    ManualStep,
};
use archiveconverter::bench::schedule::{BenchSchedule, BenchStep, BenchTally};
use archiveconverter::bench::tables::{csv_file, markdown_file, scales_table, screen_table};
use archiveconverter::bench::report::{
    align_left, align_right, base_row, csv_line, markdown_line, scale_line, screen_heading,
    screen_line, BenchRow, RowTexts,
};

#[test]
fn runs_come_cell_by_cell() {
    let mut schedule = BenchSchedule::new(&[2], &[1, 4], 1, 2);
    let mut steps = Vec::new();
    while let Some(s) = schedule.next() {
        steps.push(s);
    }
    assert_eq!(steps.len(), 8);
    assert_eq!(steps[0], BenchStep::Warmup { nested: 2, threads: 1, number: 0 });
    assert_eq!(steps[1], BenchStep::Timed { nested: 2, threads: 1, number: 0, keep: false });
    assert_eq!(steps[2], BenchStep::Timed { nested: 2, threads: 1, number: 1, keep: true });
    assert_eq!(steps[3], BenchStep::Report { nested: 2, threads: 1 });
    assert_eq!(steps[7], BenchStep::Report { nested: 2, threads: 4 });
    assert!(schedule.next().is_none());
    let mut once = BenchSchedule::new(&[1], &[1], 0, 0);
    assert_eq!(once.next(), Some(BenchStep::Timed { nested: 1, threads: 1, number: 0, keep: true }));
}

#[test]
fn runs_are_tallied() {
    let mut tally = BenchTally::new();
    assert!(tally.row("tiny", 1, 1, 5).is_none());
    assert!(tally.entry(1, 1, 1, 1).is_none());
    for (seconds, bytes) in [(3.0f64, 30), (1.0, 10), (2.0, 20)] {
        tally.timed(seconds.to_bits(), bytes);
    }
    let row = tally.row("tiny", 2, 4, 5).unwrap();
    assert_eq!((row.nested, row.threads, row.input_bytes, row.output_bytes), (2, 4, 5, 20));
    assert_eq!(f64::from_bits(row.seconds_bits), 2.0);
    let e = tally.entry(2, 4, 7, 3).unwrap();
    assert_eq!((e.level, e.repeats, e.output_bytes), (7, 3, 20));
}

#[test]
fn members_are_converted_in_turn() {
    let steps = manual_steps(&["d/n.7z".to_string(), "readme.txt".to_string()]);
    let told: Vec<String> = steps
        .iter()
        .map(|s| match s {
            ManualStep::Extract(m) => format!("extract {m}"),
            ManualStep::Repack(n) => format!("repack {n}"),
            ManualStep::Copy(n) => format!("copy {n}"),
            ManualStep::Clear => "clear".to_string(),
            ManualStep::PackAll => "pack".to_string(),
        })
        .collect();
    assert_eq!(
        told,
        vec![
            "extract d/n.7z",
            "repack n.7z",
            "clear",
            "extract readme.txt",
            "copy readme.txt",
            "clear",
            "pack"
        ]
    );
}

#[test]
fn reports_are_whole_texts() {
    let rows = vec![row(1)];
    let csv = csv_file(&rows, &[row_texts(true)]);
    assert_eq!(csv.lines().nth(1).unwrap(), "tiny,2,1,1.500,3.000,2.00,100,200,1.00");
    let screen = screen_table(&rows, &[row_texts(false)], false);
    assert_eq!(screen.lines().count(), 2);
    let md = markdown_file(&rows, &[row_texts(false)], false);
    assert!(md.starts_with("# Nested conversion benchmark results\n\n| scale |"));
    assert_eq!(md.lines().nth(4).unwrap(), "| tiny | 2 | 1 | 1.500 | 0.1 | 0.2 | 1.00x |");
    assert_eq!(md.lines().count(), 12);
    let scales = scales_table();
    assert_eq!(scales.lines().count(), 5);
    assert!(scales.lines().nth(1).unwrap().starts_with("tiny            200        1"));
}

#[test]
fn scales_are_built_in() {
    let s = Scale::from_name(ScaleName::Tiny);
    assert_eq!(s.name, "tiny");
    let mut s = Scale::from_name(ScaleName::Small);
    let files = s.files;
    s.apply_overrides(Some(3), None, Some(&[1, 2]));
    assert_eq!((s.size_mib, s.files), (3, files));
    assert_eq!(s.nested_counts, vec![1, 2]);
    assert_eq!(resolve_scale_name(ScaleName::Full, true), ScaleName::Quick);
    assert_eq!(resolve_scale_name(ScaleName::Tiny, false), ScaleName::Tiny);
    assert_eq!(intent(ScaleName::Small), "default iteration");
    assert_eq!(
        marker_text(&s, 9),
        format!("name=small\nsize_mib=3\nfiles={files}\nnested_counts=[1, 2]\ninner_bytes=9\n")
    );
}

#[test]
fn fixture_names() {
    assert_eq!(outer_name(5), "outer-5.7z");
    assert_eq!(nested_name(3), "nested-03.7z");
    assert_eq!(list_text(&[]), "[]");
    assert_eq!(list_text(&[1, 2, 5]), "[1, 2, 5]");
    assert!(is_reused(true, false));
    assert!(!is_reused(true, true));
    assert_eq!(run_name("out-", 2, 4, 0, ".7z"), "out-n2-t4-r0.7z");
}

#[test]
fn fixture_files() {
    assert_eq!(bytes_per_file(0, 1), 1 << 20);
    assert_eq!(bytes_per_file(4, 1), 1 << 18);
    assert!(directory_count(1) >= 1);
    assert!(file_path(12, 10).ends_with(".txt"));
    assert_eq!(file_body(7, 0), "id=0000007\n");
    for len in [11, 50, 1000] {
        assert_eq!(file_body(7, len).len(), len);
    }
    assert_ne!(file_body(1, 100), file_body(2, 100));
}

#[test]
fn cells_and_repeats() {
    assert_eq!(bench_cells(&[1, 2], &[1, 4]), vec![(1, 1), (1, 4), (2, 1), (2, 4)]);
    assert_eq!(repeat_count(0), 1);
    assert_eq!(repeat_count(3), 3);
    assert!(is_intermediate(0, 2));
    assert!(!is_intermediate(1, 2));
    let args = convert_args("i.7z", "o.7z", 4, 1, "/tmp/t");
    assert_eq!(args[0], "convert");
    assert!(args.contains(&"i.7z".to_string()) && args.contains(&"o.7z".to_string()));
}

#[test]
fn listings_of_the_manual_way() {
    let listing = "\
Path = outer.7z
Type = 7z

----------
Path = n.7z
Size = 5
Attributes = A

Path = d
Size = 0
Attributes = D

Path = readme.txt
Size = 2
Folder = -
";
    assert_eq!(parse_listing(listing, "outer.7z").unwrap(), vec!["n.7z", "readme.txt"]);
    assert_eq!(
        parse_listing("", "x.7z").unwrap_err().message(),
        "no file members listed in x.7z"
    );
    assert!(matches!(manual_member("d/n.7z"), ManualMember::Nested(s) if s == "n.7z"));
    assert!(matches!(manual_member("readme.txt"), ManualMember::Plain(_)));
    let names = vec![Some("a".to_string()), None, Some("n.7z".to_string())];
    assert_eq!(find_file_under("d/n.7z", &names), Some(2));
    assert_eq!(find_file_under("zzz", &names), None);
    assert!(!run_failed(Some(0)));
    assert!(run_failed(Some(2)));
    assert!(run_failed(None));
}

fn entry(nested: usize, threads: u32, seconds: f64) -> ManualBaselineEntry {
    ManualBaselineEntry {
        nested,
        threads,
        level: 1,
        seconds_bits: seconds.to_bits(),
        output_bytes: 10,
        repeats: 1,
    }
}

#[test]
fn baselines_are_merged() {
    let first = merge_baseline_entries(None, "tiny", &[entry(2, 1, 4.0), entry(1, 1, 2.0)], false, 7);
    assert_eq!(first.scale, "tiny");
    assert_eq!(first.updated_unix, 7);
    let merged = merge_baseline_entries(Some(first), "tiny", &[entry(1, 1, 3.0)], false, 9);
    assert_eq!(merged.entries.len(), 2);
    assert!(merged.entries[0].nested == 1 && merged.entries[1].nested == 2);
    let found = lookup_manual(Some(&merged), 1, 1, 1).unwrap();
    assert_eq!(f64::from_bits(found.seconds_bits), 3.0);
    let kept = lookup_manual(Some(&merged), 2, 1, 1).unwrap();
    assert_eq!(f64::from_bits(kept.seconds_bits), 4.0);
    assert!(lookup_manual(Some(&merged), 2, 8, 1).is_none());
    assert!(lookup_manual(None, 1, 1, 1).is_none());
    let replaced = merge_baseline_entries(Some(merged), "tiny", &[entry(5, 1, 1.0)], true, 9);
    assert_eq!(replaced.entries.len(), 1);
}

#[test]
fn medians() {
    let bits = |v: &[f64]| v.iter().map(|x| x.to_bits()).collect::<Vec<u64>>();
    assert_eq!(f64::from_bits(median(&bits(&[3.0, 1.0, 2.0]))), 2.0);
    assert_eq!(f64::from_bits(median(&bits(&[4.0, 1.0]))), 4.0);
    assert_eq!(f64::from_bits(median(&bits(&[5.0, 1.0, 5.0, 2.0, 2.0]))), 2.0);
}

fn row(threads: u32) -> BenchRow {
    BenchRow {
        scale: "tiny".to_string(),
        nested: 2,
        threads,
        seconds_bits: 1.5f64.to_bits(),
        input_bytes: 100,
        output_bytes: 200,
    }
}

fn row_texts(manual: bool) -> RowTexts {
    RowTexts {
        seconds: "1.500".to_string(),
        manual: if manual { Some(("3.000".to_string(), "2.00".to_string())) } else { None },
        speedup: "1.00".to_string(),
        input_mib: "0.1".to_string(),
        output_mib: "0.2".to_string(),
    }
}

#[test]
fn rows_are_compared_with_one_thread() {
    let rows = vec![row(4), row(1), row(8)];
    assert_eq!(base_row(&rows, 0), 1);
    assert_eq!(base_row(&rows[..1], 0), 0);
}

#[test]
fn columns_line_up() {
    assert_eq!(align_right("ab", 4), "  ab");
    assert_eq!(align_left("ab", 4), "ab  ");
    assert_eq!(align_left("abcde", 4), "abcde");
    for manual in [false, true] {
        let head = screen_heading(manual);
        let line = screen_line(&row(4), &row_texts(manual), manual);
        assert_eq!(head.lines().next().unwrap().len(), line.len());
    }
    assert!(scale_line(ScaleName::Tiny).contains("tiny"));
    assert!(csv_line(&row(4), &row_texts(true)).contains("tiny,2,4"));
    assert!(markdown_line(&row(4), &row_texts(false), false).starts_with('|'));
}
