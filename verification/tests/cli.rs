use archiveconverter::archive::native::NativePipeline;
use archiveconverter::archive::types::{BackendKind, PackOptions};
use archiveconverter::cli::{
    log_level, native_options_from, parse_pipeline, single_summary, summary, CliBackend,
    CliOuterFormat, ConvertArgs, ConvertSingleArgs, FilterFiles,
};
use archiveconverter::codec::lzma2::CodecKind;
use archiveconverter::codec::outer::OuterFormat;
use archiveconverter::error::Error;
use archiveconverter::filter::member::{FileText, RuleFile};
use archiveconverter::pipeline::plan::{ConversionPlan, RuntimeStats};
use archiveconverter::util::size_parse::SizeValue;

fn texts(v: &[&str]) -> Vec<String> {
    v.iter().map(|s| s.to_string()).collect()
}

fn no_files() -> FilterFiles {
    FilterFiles {
        filter_from: Vec::new(),
        include_from: Vec::new(),
        exclude_from: Vec::new(),
    }
}

fn args() -> ConvertArgs {
    ConvertArgs {
        input: "outer.7z".to_string(),
        output: Some("out.7z".to_string()),
        outer_format: None,
        exclude_inner: Vec::new(),
        exclude_outer: Vec::new(),
        include_inner: Vec::new(),
        include_outer: Vec::new(),
        filter_inner: Vec::new(),
        filter_outer: Vec::new(),
        filter_from_inner: Vec::new(),
        filter_from_outer: Vec::new(),
        include_from_inner: Vec::new(),
        include_from_outer: Vec::new(),
        exclude_from_inner: Vec::new(),
        exclude_from_outer: Vec::new(),
        rename: Vec::new(),
        basename_match: false,
        temp_dir: None,
        keep_temp: false,
        verify: true,
        dry_run: false,
        level: 1,
        threads: Some(2),
        nested_concurrency: 0,
        nested_size_budget: "500M".to_string(),
        no_solid_single_pass: false,
        no_passthrough_nonsolid: true,
        no_pipeline_overlap: false,
        profile: false,
        backend: CliBackend::Native,
        native_pipeline: "ahead:3".to_string(),
        native_large_threshold: 1000,
        native_codec: "liblzma".to_string(),
    }
}

const BUDGET: u64 = 500 << 20;

#[test]
fn pipelines_are_parsed() {
    assert_eq!(parse_pipeline("sequential").unwrap(), NativePipeline::Sequential);
    assert_eq!(parse_pipeline("0").unwrap(), NativePipeline::Sequential);
    assert_eq!(parse_pipeline("ahead").unwrap(), NativePipeline::DecodeAhead { depth: 2 });
    assert_eq!(parse_pipeline("ahead:0").unwrap(), NativePipeline::DecodeAhead { depth: 1 });
    assert_eq!(parse_pipeline("7").unwrap(), NativePipeline::DecodeAhead { depth: 7 });
    assert_eq!(parse_pipeline("parallel").unwrap(), NativePipeline::ParallelCodec);
    assert_eq!(
        parse_pipeline("ahead:x").unwrap_err().message(),
        "invalid --native-pipeline depth in 'ahead:x'"
    );
    assert_eq!(
        parse_pipeline("fast").unwrap_err().message(),
        "unknown --native-pipeline 'fast' (parallel|sequential|ahead|ahead:N)"
    );
}

#[test]
fn native_options_are_read() {
    let o = native_options_from("parallel", 5, Some(3), "pure-rust", Some(8)).unwrap();
    assert_eq!(o.codec, CodecKind::PureRust);
    assert_eq!(o.encode_threads, Some(3));
    assert_eq!(o.large_file_threshold, 5);
    assert_eq!(
        native_options_from("parallel", 5, None, "zstd", None).unwrap_err().message(),
        "unknown --native-codec 'zstd' (use liblzma or pure-rust)"
    );
    let o = args().native_options(Some(4)).unwrap();
    assert_eq!(o.pipeline, NativePipeline::DecodeAhead { depth: 3 });
    assert_eq!(args().backend_kind(), BackendKind::Native);
    assert_eq!(BackendKind::from(CliBackend::Cli), BackendKind::Cli);
    assert_eq!(OuterFormat::from(CliOuterFormat::Tar), OuterFormat::Tar);
}

#[test]
fn verbosity_sets_the_level() {
    assert_eq!(log_level(0), "info");
    assert_eq!(log_level(1), "debug");
    assert_eq!(log_level(9), "trace");
}

#[test]
fn output_is_resolved() {
    let mut a = args();
    assert_eq!(a.resolve_output().unwrap(), (OuterFormat::SevenZ, "out.7z".to_string()));
    a.output = None;
    assert!(a.resolve_output().unwrap_err().message().starts_with("-o/--output is required"));
    a.dry_run = true;
    assert_eq!(a.resolve_output().unwrap().1, "out.7z");
    a.outer_format = Some(CliOuterFormat::Dir);
    assert_eq!(a.resolve_output().unwrap(), (OuterFormat::Dir, "outer".to_string()));
}

#[test]
fn arguments_become_options() {
    let mut a = args();
    a.exclude_inner = texts(&[r"\.tmp$"]);
    a.rename = texts(&[r"_old\.7z$=.7z"]);
    match a.to_pipeline_options(&no_files(), &no_files(), SizeValue::Bytes(BUDGET)) {
        Ok(o) => {
            assert_eq!(o.nested_size_budget, BUDGET);
            assert!(o.solid_single_pass && !o.passthrough_nonsolid && o.prefer_streaming);
            assert!(!o.exclude_inner.should_keep("x.tmp"));
            assert!(o.exclude_outer.should_keep("x.tmp"));
            assert_eq!(o.rename.transform("a_old.7z"), "a.7z");
            let pack: PackOptions = o.pack;
            assert_eq!((pack.non_solid, pack.threads, pack.level), (true, Some(2), 1));
        }
        Err(e) => panic!("{}", e.message()),
    }
}

#[test]
fn convert_rsync_filter_from_cli() {
    let mut a = args();
    a.filter_inner = texts(&["exclude *.tmp", "exclude __MACOSX/"]);
    a.exclude_from_outer = texts(&["outer.rules"]);
    a.rename = texts(&[r"_old\.7z$=.7z"]);
    let outer = FilterFiles {
        filter_from: Vec::new(),
        include_from: Vec::new(),
        exclude_from: vec![RuleFile {
            path: "outer.rules".to_string(),
            content: FileText::Text("skip_me.7z\n".to_string()),
        }],
    };
    match a.to_pipeline_options(&no_files(), &outer, SizeValue::Bytes(BUDGET)) {
        Ok(o) => {
            assert!(!o.exclude_outer.should_keep("skip_me.7z"));
            assert!(o.exclude_outer.should_keep("alpha_old.7z"));
            assert!(!o.exclude_inner.should_keep("a/b.tmp"));
            assert!(!o.exclude_inner.should_keep("__MACOSX/x"));
        }
        Err(e) => panic!("{}", e.message()),
    }
}

#[test]
fn bad_arguments_are_refused() {
    let message = |a: &ConvertArgs, v: SizeValue| {
        match a.to_pipeline_options(&no_files(), &no_files(), v) {
            Ok(_) => panic!("accepted"),
            Err(e) => e.message(),
        }
    };
    let mut a = args();
    a.level = 10;
    assert_eq!(message(&a, SizeValue::Bytes(1)), "--level must be 0-9");
    let mut a = args();
    a.nested_size_budget = "xM".to_string();
    assert_eq!(message(&a, SizeValue::NotANumber), "invalid size number in 'xM'");
    let mut a = args();
    a.nested_size_budget = "18446744073709551616".to_string();
    assert_eq!(message(&a, SizeValue::Bytes(1)), "size too large: '18446744073709551616'");
    let mut a = args();
    a.rename = texts(&["plain"]);
    assert!(message(&a, SizeValue::Bytes(1)).contains("plain"));
    let mut a = args();
    a.exclude_outer = texts(&["("]);
    let e = match a.to_pipeline_options(&no_files(), &no_files(), SizeValue::Bytes(1)) {
        Ok(_) => panic!("accepted"),
        Err(e) => e,
    };
    assert!(matches!(e, Error::InvalidRegex { .. }));
    assert_eq!(e.exit_code(), 2);
}

#[test]
fn results_are_told() {
    let opts = match args().to_pipeline_options(&no_files(), &no_files(), SizeValue::Bytes(1)) {
        Ok(o) => o,
        Err(e) => panic!("{}", e.message()),
    };
    let plan = ConversionPlan {
        input: "outer.7z".to_string(),
        output: "out.7z".to_string(),
        entries: Vec::new(),
        runtime: RuntimeStats {
            nested_converted: 3,
            nested_skipped: 1,
            passthrough_written: 4,
            passthrough_skipped: 2,
        },
    };
    assert_eq!(
        summary(&opts.clone(), &plan.clone(), BackendKind::Cli),
        "Wrote out.7z (outer=7z, nested=3, passthrough=4, skipped=3, backend=cli)"
    );
    assert_eq!(single_summary("o.7z", BackendKind::Native), "Wrote o.7z (backend=native)");
}

#[test]
fn single_arguments() {
    let a = ConvertSingleArgs {
        input: "a.7z".to_string(),
        output: "b.7z".to_string(),
        exclude: texts(&[r"\.tmp$"]),
        include_regex: Vec::new(),
        filter: texts(&["+ keep.tmp"]),
        filter_from: Vec::new(),
        include_from: Vec::new(),
        exclude_from: Vec::new(),
        temp_dir: None,
        keep_temp: false,
        verify: false,
        level: 4,
        threads: None,
        backend: CliBackend::Cli,
        native_pipeline: "parallel".to_string(),
        native_large_threshold: 0,
        native_codec: "liblzma".to_string(),
    };
    let f = a.member_filter(&no_files()).unwrap();
    assert!(f.should_keep("keep.tmp"));
    assert!(!f.should_keep("other.tmp"));
    let p = a.pack_options();
    assert_eq!((p.non_solid, p.threads, p.level), (true, None, 4));
    assert_eq!(a.backend_kind(), BackendKind::Cli);
    assert!(a.native_options(None).is_ok());
}
