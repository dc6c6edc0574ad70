use archiveconverter::archive::types::{ArchiveFormat, EntryMeta, PackOptions};
use archiveconverter::codec::sevenz_header::FileMeta;
use archiveconverter::convert::context::ConvertContext;
use archiveconverter::convert::registry::{
    convert_sevenz_file, BuiltinConverter, Converter, ConverterRegistry,
};
use archiveconverter::convert::sevenz_nonsolid::{
    unwanted_paths, Conversion, ConvertAction, ConvertEvent,
};
use archiveconverter::error::Error;
use archiveconverter::filter::member::MemberFilter;
use archiveconverter::pipeline::context::{convert_single, convert_single_ex};

fn entry(path: &str, size: u64, format_hint: ArchiveFormat) -> EntryMeta {
    EntryMeta {
        path: path.to_string(),
        size,
        is_dir: false,
        format_hint,
        meta: FileMeta::default(),
    }
}

fn context() -> ConvertContext {
    let mut ctx = ConvertContext::new("/tmp/w".to_string());
    ctx.pack = PackOptions {
        non_solid: false,
        threads: Some(2),
        level: 1,
    };
    ctx
}

#[test]
fn builtins_register_sevenz() {
    let r = ConverterRegistry::with_builtins();
    assert!(r.list_ids().contains(&"7z-solid-to-nonsolid"));
    let e = entry("x.7z", 1, ArchiveFormat::SevenZ);
    assert_eq!(r.find_for(&e).unwrap().id(), "7z-solid-to-nonsolid");
}

#[test]
fn list_converters() {
    let r = ConverterRegistry::with_builtins();
    assert_eq!(r.list_ids(), vec!["7z-solid-to-nonsolid", "zip-stub"]);
    assert!(r.get("zip-stub").is_some());
    assert!(r.get("rar").is_none());
    assert!(r.find_for(&entry("x.txt", 1, ArchiveFormat::Unknown)).is_none());
}

#[test]
fn zip_is_not_converted() {
    let r: ConverterRegistry<BuiltinConverter> = ConverterRegistry::with_builtins();
    let zip = r.get("zip-stub").unwrap();
    assert!(!zip.description().is_empty());
    match zip.convert("x.zip", &context()) {
        Ok(_) => panic!("a zip archive was converted"),
        Err(e) => assert!(e.message().contains("not implemented"), "{}", e.message()),
    }
}

/// Carries out a conversion in words and gives what was done.
fn drive(mut c: Conversion, solid: Option<bool>, listing: &[EntryMeta]) -> Vec<String> {
    let mut log = Vec::new();
    let mut event = ConvertEvent::Begin(true);
    loop {
        assert!(c.accepts(&event));
        event = match c.step(event) {
            ConvertAction::Prepare => {
                log.push("prepare".to_string());
                ConvertEvent::Done
            }
            ConvertAction::AskSolid => ConvertEvent::Solid(solid),
            ConvertAction::CopyInput => {
                log.push("copy".to_string());
                ConvertEvent::Done
            }
            ConvertAction::Stream(p) => {
                assert!(p.non_solid);
                log.push("stream".to_string());
                ConvertEvent::Streamed(false)
            }
            ConvertAction::CreateTree => {
                log.push("tree".to_string());
                ConvertEvent::Done
            }
            ConvertAction::List => {
                log.push("list".to_string());
                ConvertEvent::Listed(listing.to_vec())
            }
            ConvertAction::ExtractExcluding(g) => {
                log.push(format!("extract without {}", g.join(" ")));
                ConvertEvent::Done
            }
            ConvertAction::ExtractAll => {
                log.push("extract".to_string());
                ConvertEvent::Done
            }
            ConvertAction::Remove(v) => {
                log.push(format!("remove {}", v.join(" ")));
                ConvertEvent::Removed(!v.is_empty())
            }
            ConvertAction::Prune => {
                log.push("prune".to_string());
                ConvertEvent::Done
            }
            ConvertAction::Pack(p) => {
                assert!(p.non_solid);
                log.push(format!("pack {:?}", p.threads));
                ConvertEvent::Done
            }
            ConvertAction::Test => {
                log.push("test".to_string());
                ConvertEvent::Done
            }
            ConvertAction::Succeed => {
                log.push("ok".to_string());
                return log;
            }
            ConvertAction::Fail(e) => {
                log.push(e.message());
                return log;
            }
        };
    }
}

#[test]
fn nonsolid_input_is_copied() {
    let mut ctx = context();
    ctx.passthrough_nonsolid = true;
    ctx.verify = false;
    let c = Conversion::new("in.7z", &ctx);
    assert_eq!(drive(c, Some(false), &[]), vec!["prepare", "copy", "ok"]);
}

#[test]
fn solid_input_is_rebuilt_and_tested() {
    let mut ctx = context();
    ctx.verify = true;
    ctx.prefer_streaming = false;
    let c = Conversion::new("in.7z", &ctx);
    assert_eq!(
        drive(c, Some(true), &[]),
        vec!["prepare", "tree", "extract", "pack Some(2)", "test", "ok"]
    );
}

#[test]
fn unusable_streaming_falls_back() {
    let mut ctx = context();
    ctx.verify = false;
    ctx.prefer_streaming = true;
    ctx.pack.threads = None;
    let c = Conversion::new("in.7z", &ctx);
    let tiny = vec![entry("a", 10, ArchiveFormat::Unknown)];
    assert_eq!(
        drive(c, Some(true), &tiny),
        vec!["prepare", "stream", "tree", "extract", "list", "pack Some(1)", "ok"]
    );
}

#[test]
fn asked_threads_are_used() {
    let listing = vec![entry("a", 10, ArchiveFormat::Unknown)];
    for exclude in [vec![], vec![r"\.tmp$".to_string()], vec!["x.*y".to_string()]] {
        let mut ctx = context();
        ctx.verify = false;
        ctx.prefer_streaming = false;
        ctx.pack.threads = Some(3);
        ctx.exclude = MemberFilter::with_excludes(&exclude).unwrap();
        let c = Conversion::new("in.7z", &ctx);
        let log = drive(c, Some(true), &listing);
        assert!(log.contains(&"pack Some(3)".to_string()), "{log:?}");
    }
}

#[test]
fn simple_filters_are_globs() {
    let mut ctx = context();
    ctx.verify = false;
    ctx.prefer_streaming = false;
    ctx.exclude = MemberFilter::with_excludes(&["^__MACOSX/".to_string()]).unwrap();
    let c = Conversion::new("in.7z", &ctx);
    assert_eq!(
        drive(c, Some(true), &[]),
        vec!["prepare", "tree", "extract without __MACOSX/*", "pack Some(2)", "ok"]
    );
}

#[test]
fn complex_filters_remove_after_extraction() {
    let mut ctx = context();
    ctx.verify = false;
    ctx.prefer_streaming = false;
    ctx.exclude = MemberFilter::with_excludes(&["a.*b".to_string()]).unwrap();
    let c = Conversion::new("in.7z", &ctx);
    let listing = vec![
        entry("axb", 1, ArchiveFormat::Unknown),
        entry("c", 1, ArchiveFormat::Unknown),
    ];
    assert_eq!(
        drive(c, Some(true), &listing),
        vec!["prepare", "tree", "list", "extract", "remove axb", "prune", "pack Some(2)", "ok"]
    );
    let filter = MemberFilter::with_excludes(&["a.*b".to_string()]).unwrap();
    assert_eq!(unwanted_paths(&listing, &filter), vec!["axb"]);
}

#[test]
fn failures_end_a_conversion() {
    let mut c = Conversion::new("in.7z", &context());
    assert_eq!(c.work_dir(), "/tmp/w/work");
    assert_eq!(c.output_path(), "/tmp/w/work/out.7z");
    assert!(!c.accepts(&ConvertEvent::Done));
    match c.step(ConvertEvent::Begin(false)) {
        ConvertAction::Fail(e) => assert_eq!(e.message(), "input archive not found: in.7z"),
        _ => panic!(),
    }
    let mut c = Conversion::new("in.7z", &context());
    c.step(ConvertEvent::Begin(true));
    match c.step(ConvertEvent::Failed(Error::Io("full".to_string()))) {
        ConvertAction::Fail(e) => assert_eq!(e.message(), "I/O error: full"),
        _ => panic!(),
    }
    assert!(!c.accepts(&ConvertEvent::Done));
}

#[test]
fn single_archives_begin_a_conversion() {
    let filter = MemberFilter::new();
    let pack = context().pack;
    match convert_single("a.7z", &filter, &pack, true, "/tmp/s".to_string()) {
        Ok(c) => assert!(c.ctx.verify && c.ctx.passthrough_nonsolid && c.input == "a.7z"),
        Err(e) => panic!("{}", e.message()),
    }
    match convert_single_ex("a.7z", &filter, &pack, false, "/tmp/s".to_string(), false) {
        Ok(c) => assert!(!c.ctx.passthrough_nonsolid),
        Err(e) => panic!("{}", e.message()),
    }
    assert!(convert_sevenz_file("a.7z", 5, &context()).is_ok());
}
