use std::collections::{BTreeMap, HashMap, HashSet};

use archiveconverter::archive::types::{ArchiveBackend, ArchiveFormat, EntryMeta, PackOptions};
use archiveconverter::codec::outer::OuterFormat;
use archiveconverter::codec::sevenz_header::FileMeta;
use archiveconverter::error::{Error, Result};
use archiveconverter::filter::member::MemberFilter;
use archiveconverter::filter::rename::NameTransformer;
use archiveconverter::pipeline::context::PipelineOptions;
use archiveconverter::pipeline::execute::{
    building_name, nested_threads, Execution, RunAction, RunEvent,
};
use archiveconverter::pipeline::plan::{
    build_plan, ActionKind, ConversionPlan, PlanOptions, RuntimeStats,
};
use archiveconverter::pipeline::scheduler::{
    job_workers, schedule_order, total_size, NestedRunStats, NestedScheduler, SchedulerStep,
};
use archiveconverter::util::auto_threads::resolve_from_archive;
use archiveconverter::pipeline::staging::{
    enrich_entry_meta, find_extracted, list_file_paths, nested_source_name, nested_work_name,
    passthrough_temp_name, scheduled_size, staging_path_for, ExtractedAt, ExtractedFile,
};

fn texts(v: &[&str]) -> Vec<String> {
    v.iter().map(|s| s.to_string()).collect()
}

fn meta(path: &str, format: ArchiveFormat) -> EntryMeta {
    EntryMeta {
        path: path.into(),
        meta: Default::default(),
        size: 100,
        is_dir: false,
        format_hint: format,
    }
}

fn plan_of(entries: &[EntryMeta], outer: &MemberFilter, rename: &NameTransformer) -> Result<ConversionPlan> {
    build_plan(
        "in.7z".into(),
        "out.7z".into(),
        entries,
        PlanOptions {
            outer_filter: outer,
            rename,
            convert_nested_7z: true,
        },
    )
}

#[test]
fn plans_nested_and_skip() {
    let entries = vec![
        meta("a_old.7z", ArchiveFormat::SevenZ),
        meta("readme.txt", ArchiveFormat::Unknown),
        meta("skip.7z", ArchiveFormat::SevenZ),
    ];
    let outer = MemberFilter::with_excludes(&texts(&[r"^skip\.7z$"])).unwrap();
    let rename = NameTransformer::from_pairs(&texts(&[r"_old\.7z$=.7z"])).unwrap();
    let plan = plan_of(&entries, &outer, &rename).unwrap();

    assert_eq!(plan.nested_count(), 1);
    assert_eq!(plan.passthrough_count(), 1);
    assert_eq!(plan.skip_count(), 1);
    let a = plan
        .entries
        .iter()
        .find(|e| e.source_path == "a_old.7z")
        .unwrap();
    assert_eq!(a.dest_path, "a.7z");
    assert_eq!(a.action, ActionKind::ConvertNested);
    assert_eq!(plan.needed_members(), vec!["a_old.7z", "readme.txt"]);
}

#[test]
fn skips_unsafe_and_duplicate_members() {
    let entries = vec![
        meta("../evil.7z", ArchiveFormat::SevenZ),
        meta("ok.7z", ArchiveFormat::SevenZ),
        meta("ok.7z", ArchiveFormat::SevenZ),
        meta("", ArchiveFormat::Unknown),
    ];
    let plan = plan_of(&entries, &MemberFilter::new(), &NameTransformer::new()).unwrap();
    assert_eq!(plan.nested_count(), 1);
    assert_eq!(plan.skip_count(), 3);
    assert!(plan.entries.iter().any(|e| e.reason.contains("unsafe")));
    assert!(plan.entries.iter().any(|e| e.reason.contains("duplicate")));
}

#[test]
fn skips_unsafe_rename_destination() {
    let entries = vec![
        meta("ok.7z", ArchiveFormat::SevenZ),
        meta("readme.txt", ArchiveFormat::Unknown),
    ];
    let rename = NameTransformer::from_pairs(&texts(&[r"readme\.txt$=../evil"])).unwrap();
    let plan = plan_of(&entries, &MemberFilter::new(), &rename).unwrap();
    assert_eq!(plan.nested_count(), 1);
    assert_eq!(plan.passthrough_count(), 0);
    assert_eq!(plan.skip_count(), 1);
    assert!(plan
        .entries
        .iter()
        .any(|e| e.source_path == "readme.txt" && e.action == ActionKind::Skip));
}

#[test]
fn rename_collision_fails_plan() {
    let entries = vec![
        meta("alpha_old.7z", ArchiveFormat::SevenZ),
        meta("beta.7z", ArchiveFormat::SevenZ),
    ];
    // Map everything to the same name
    let rename = NameTransformer::from_pairs(&texts(&[r".*=same.7z"])).unwrap();
    match plan_of(&entries, &MemberFilter::new(), &rename) {
        Ok(_) => panic!("two members with one name"),
        Err(err) => {
            let msg = err.message();
            assert!(msg.contains("collision") || msg.contains("same.7z"), "{msg}");
        }
    }
}

#[test]
fn dry_run_does_not_write_output() {
    let mut opts = PipelineOptions::new("in.7z".into(), "should-not-exist.7z".into());
    opts.dry_run = true;
    let entries = vec![
        meta("alpha_old.7z", ArchiveFormat::SevenZ),
        meta("beta.7z", ArchiveFormat::SevenZ),
    ];
    let plan = opts.plan(entries, None).unwrap();
    assert!(plan.nested_count() >= 2);
    assert!(!std::path::Path::new("should-not-exist.7z").exists());
    let text = plan.render();
    assert!(text.contains("alpha_old.7z"), "{text}");
    assert!(text.contains("in.7z"), "{text}");
}

#[test]
fn listed_times_complete_the_plan() {
    let entries = vec![meta("a.7z", ArchiveFormat::SevenZ)];
    let mut listed = meta("a.7z", ArchiveFormat::SevenZ);
    listed.meta = FileMeta {
        mtime: Some(5),
        ..Default::default()
    };
    let out = enrich_entry_meta(&entries, &[listed.clone()]);
    assert_eq!(out[0].meta.mtime, Some(5));
    let opts = PipelineOptions::new("in.7z".into(), "out.7z".into());
    let plan = opts.plan(entries, Some(vec![listed])).unwrap();
    assert_eq!(plan.entries[0].meta.mtime, Some(5));
    assert_eq!(opts.input_missing().message(), "input not found: in.7z");
}

fn extracted(rels: &[&str]) -> Vec<ExtractedFile> {
    rels.iter()
        .map(|r| ExtractedFile {
            rel: r.to_string(),
            name: r.rsplit('/').next().map(|s| s.to_string()),
        })
        .collect()
}

#[test]
fn find_extracted_prefers_exact_path() {
    let files = extracted(&["nested/foo.7z", "other/foo.7z"]);
    let got = find_extracted("nested/foo.7z", true, &files).unwrap();
    assert!(matches!(got, ExtractedAt::Direct));
}

#[test]
fn find_extracted_unique_basename_fallback() {
    let files = extracted(&["other/bar.7z"]);
    let got = find_extracted("wanted/bar.7z", false, &files).unwrap();
    assert!(matches!(got, ExtractedAt::File(0)));
}

#[test]
fn find_extracted_ambiguous_basename_errors() {
    let files = extracted(&["a/foo.7z", "b/foo.7z"]);
    let err = find_extracted("missing/foo.7z", false, &files).unwrap_err();
    assert!(err.message().contains("ambiguous"), "{}", err.message());
}

#[test]
fn find_extracted_rejects_unsafe_member() {
    let err = find_extracted("../evil", false, &[]).unwrap_err();
    assert!(err.message().contains("unsafe"), "{}", err.message());
}

#[test]
fn find_extracted_reports_missing() {
    let files = extracted(&["x/y.txt"]);
    assert!(matches!(find_extracted("z.txt", false, &files), Err(Error::EntryNotFound(_))));
}

#[test]
fn names_of_work_files() {
    assert_eq!(passthrough_temp_name(3, "a/b.txt").unwrap(), "0003_a__b.txt");
    assert!(passthrough_temp_name(3, "../b.txt").is_err());
    assert_eq!(nested_source_name(2), "pre-0002.7z");
    assert_eq!(nested_work_name(2), "nested-0002");
    assert_eq!(staging_path_for("a\\b"), "a/b");
    assert_eq!(scheduled_size(5, Some(7)), 5);
    assert_eq!(scheduled_size(0, Some(7)), 7);
    assert_eq!(scheduled_size(0, None), 0);
    assert_eq!(nested_threads(1, Some(8)), Some(1));
    assert_eq!(nested_threads(2, Some(8)), Some(8));
    assert_eq!(building_name(OuterFormat::Tar), "final-out.tar");
    assert_eq!(building_name(OuterFormat::Dir), "final-out-dir");
}

/// In-memory backend for pipeline skip / bulk-fallback regressions.
struct ScriptedBackend {
    entries: Vec<EntryMeta>,
    blobs: HashMap<String, Vec<u8>>,
    fail_extract: HashSet<String>,
    fail_bulk: bool,
    omit_from_bulk: HashSet<String>,
    bulk_calls: usize,
    member_calls: Vec<String>,
}

impl ScriptedBackend {
    fn new(pairs: &[(&str, &[u8])]) -> Self {
        let mut blobs = HashMap::new();
        let mut entries = Vec::new();
        for (path, data) in pairs {
            blobs.insert((*path).to_string(), data.to_vec());
            entries.push(meta(path, ArchiveFormat::Unknown));
        }
        Self {
            entries,
            blobs,
            fail_extract: HashSet::new(),
            fail_bulk: false,
            omit_from_bulk: HashSet::new(),
            bulk_calls: 0,
            member_calls: Vec::new(),
        }
    }

    fn extract_member(&mut self, member: &str) -> Result<Vec<u8>> {
        self.member_calls.push(member.to_string());
        if self.fail_extract.contains(member) {
            return Err(Error::Other(format!("scripted extract fail: {member}")));
        }
        match self.blobs.get(member) {
            Some(data) => Ok(data.clone()),
            None => Err(Error::EntryNotFound(member.to_string())),
        }
    }

    fn extract_members(&mut self, members: &[String]) -> Result<BTreeMap<String, Vec<u8>>> {
        self.bulk_calls += 1;
        if self.fail_bulk {
            return Err(Error::Other("scripted bulk extract failed".into()));
        }
        let mut tree = BTreeMap::new();
        for m in members {
            if !self.omit_from_bulk.contains(m) {
                tree.insert(m.clone(), self.extract_member(m)?);
            }
        }
        Ok(tree)
    }
}

/// Runs a conversion in memory: the plan with what was done, and the files of the output.
fn run(
    backend: &mut ScriptedBackend,
    opts: &PipelineOptions,
) -> Result<(ConversionPlan, BTreeMap<String, Vec<u8>>)> {
    let mut plan = opts.plan(backend.entries.clone(), None)?;
    let mut run = Execution::new(
        &plan,
        opts.nested_concurrency,
        opts.pack.threads,
        Some(4),
        opts.solid_single_pass,
        opts.verify,
    );
    let mut tree: BTreeMap<String, Vec<u8>> = BTreeMap::new();
    let mut outer: BTreeMap<String, Vec<u8>> = BTreeMap::new();
    let mut persisted = false;
    let mut event = RunEvent::Begin;
    loop {
        assert!(run.accepts(&event));
        event = match run.step(event) {
            RunAction::AskSolid => RunEvent::Solid(Some(true)),
            RunAction::BulkExtract => match backend.extract_members(&plan.needed_members()) {
                Ok(t) => {
                    tree = t;
                    RunEvent::Done
                }
                Err(e) => RunEvent::Failed(e),
            },
            RunAction::CreateOuter => RunEvent::Done,
            RunAction::Passthrough(i) => {
                let e = &plan.entries[i];
                let data = if run.bulk {
                    let rels: Vec<&str> = tree.keys().map(|k| k.as_str()).collect();
                    let files = extracted(&rels);
                    match find_extracted(&e.source_path, tree.contains_key(&e.source_path), &files) {
                        Ok(ExtractedAt::Direct) => Ok(tree[&e.source_path].clone()),
                        Ok(ExtractedAt::File(k)) => Ok(tree[rels[k]].clone()),
                        Err(err) => Err(err),
                    }
                } else {
                    backend.extract_member(&e.source_path)
                };
                match data {
                    Ok(d) => {
                        outer.insert(e.dest_path.clone(), d);
                        RunEvent::Done
                    }
                    Err(err) => RunEvent::Failed(err),
                }
            }
            RunAction::ConvertNested => RunEvent::Nested(NestedRunStats {
                converted: 0,
                skipped: run.nested_count(),
            }),
            RunAction::CountMembers => RunEvent::Members(outer.len()),
            RunAction::FinishOuter => RunEvent::Done,
            RunAction::CountFiles => RunEvent::Files(outer.len()),
            RunAction::Persist => {
                persisted = true;
                RunEvent::Done
            }
            RunAction::Succeed(stats) => {
                assert!(persisted);
                plan.runtime = stats;
                return Ok((plan, outer));
            }
            RunAction::Fail(e) => return Err(e),
        };
    }
}

fn run_passthrough_job(backend: &mut ScriptedBackend) -> (ConversionPlan, BTreeMap<String, Vec<u8>>) {
    let mut opts = PipelineOptions::new("dummy-input.7z".into(), "out".into());
    opts.outer_format = OuterFormat::Dir;
    opts.verify = false;
    opts.solid_single_pass = true;
    opts.nested_concurrency = 1;
    match run(backend, &opts) {
        Ok(r) => r,
        Err(e) => panic!("pipeline should succeed: {}", e.message()),
    }
}

#[test]
fn passthrough_extract_failure_is_skipped() {
    let mut backend = ScriptedBackend::new(&[
        ("keep.txt", b"keep"),
        ("drop.txt", b"drop"),
        ("also.txt", b"also"),
    ]);
    backend.fail_extract.insert("drop.txt".into());
    backend.fail_bulk = true;
    let (plan, out) = run_passthrough_job(&mut backend);
    assert_eq!(plan.runtime.passthrough_written, 2);
    assert_eq!(plan.runtime.passthrough_skipped, 1);
    assert!(out.contains_key("keep.txt"));
    assert!(out.contains_key("also.txt"));
    assert!(!out.contains_key("drop.txt"));
    assert_eq!(backend.bulk_calls, 1);
    assert!(backend.member_calls.iter().any(|m| m == "drop.txt"));
}

#[test]
fn bulk_extract_failure_falls_back_to_per_member() {
    let mut backend = ScriptedBackend::new(&[("a.txt", b"aaa"), ("b.txt", b"bbb")]);
    backend.fail_bulk = true;
    let (plan, out) = run_passthrough_job(&mut backend);
    assert_eq!(plan.runtime.passthrough_written, 2);
    assert_eq!(plan.runtime.passthrough_skipped, 0);
    assert_eq!(backend.bulk_calls, 1);
    assert_eq!(out["a.txt"], b"aaa");
    assert_eq!(out["b.txt"], b"bbb");
}

#[test]
fn missing_bulk_member_is_skipped_others_written() {
    let mut backend = ScriptedBackend::new(&[("a.txt", b"aaa"), ("ghost.txt", b"g")]);
    backend.omit_from_bulk.insert("ghost.txt".into());
    let (plan, out) = run_passthrough_job(&mut backend);
    assert_eq!(plan.runtime.passthrough_written, 1);
    assert_eq!(plan.runtime.passthrough_skipped, 1);
    assert!(out.contains_key("a.txt"));
    assert!(!out.contains_key("ghost.txt"));
}

#[test]
fn all_passthrough_failures_error_with_nothing_to_write() {
    let mut backend = ScriptedBackend::new(&[("a.txt", b"a"), ("b.txt", b"b")]);
    backend.fail_extract.insert("a.txt".into());
    backend.fail_extract.insert("b.txt".into());
    backend.fail_bulk = true;
    let mut opts = PipelineOptions::new("in.7z".into(), "out".into());
    opts.outer_format = OuterFormat::Dir;
    match run(&mut backend, &opts) {
        Ok(_) => panic!("an empty output was written"),
        Err(err) => assert!(err.message().contains("nothing to write"), "{}", err.message()),
    }
}

#[test]
fn corrupt_nested_is_skipped_others_succeed() {
    let entries = vec![
        meta("good.7z", ArchiveFormat::SevenZ),
        meta("corrupt.7z", ArchiveFormat::SevenZ),
        meta("readme.txt", ArchiveFormat::Unknown),
    ];
    let mut opts = PipelineOptions::new("outer.7z".into(), "converted.7z".into());
    opts.verify = true;
    opts.nested_concurrency = 1;
    let plan = opts.plan(entries, None).unwrap();
    assert_eq!(plan.nested_count(), 2, "plan still lists both nests");
    let mut run = Execution::new(&plan, 1, Some(1), None, true, true);
    let mut written: Vec<String> = Vec::new();
    let mut event = RunEvent::Begin;
    let stats = loop {
        event = match run.step(event) {
            RunAction::AskSolid => RunEvent::Solid(Some(false)),
            RunAction::Passthrough(i) => {
                written.push(plan.entries[i].dest_path.clone());
                RunEvent::Done
            }
            RunAction::ConvertNested => {
                let nested = plan.entries.iter().filter(|e| e.action == ActionKind::ConvertNested);
                let order: Vec<&str> = nested.map(|e| e.dest_path.as_str()).collect();
                let mut jobs = NestedScheduler::new(vec![100, 100], 1, 0);
                while let SchedulerStep::Start(i) = jobs.next() {
                    let ok = order[i] != "corrupt.7z";
                    if ok {
                        written.push(order[i].to_string());
                    }
                    jobs.ended(i, ok);
                }
                RunEvent::Nested(jobs.result(0).unwrap())
            }
            RunAction::CountMembers => RunEvent::Members(written.len()),
            RunAction::CountFiles => RunEvent::Files(written.len()),
            RunAction::Succeed(stats) => break stats,
            RunAction::Fail(e) => panic!("convert should succeed with skip: {}", e.message()),
            _ => RunEvent::Done,
        };
    };
    assert_eq!((stats.nested_converted, stats.nested_skipped), (1, 1));
    assert!(written.iter().any(|p| p == "good.7z"));
    assert!(written.iter().any(|p| p == "readme.txt"));
    assert!(!written.iter().any(|p| p.contains("corrupt")));
}

#[test]
fn steps_of_a_run_are_guarded() {
    let backend = ScriptedBackend::new(&[("a.txt", b"a")]);
    let opts = PipelineOptions::new("in.7z".into(), "out.7z".into());
    let plan = opts.plan(backend.entries, None).unwrap();
    let run = Execution::new(&plan, 1, Some(1), None, true, true);
    assert!(run.accepts(&RunEvent::Begin));
    assert!(!run.accepts(&RunEvent::Done));
    assert_eq!(run.nested_count(), 0);
}

#[test]
fn smallest_nested_archives_come_first() {
    assert_eq!(schedule_order(&[30, 10, 20, 10]), vec![1, 3, 2, 0]);
    assert_eq!(total_size(&[1, 2, 3]), Some(6));
    assert_eq!(total_size(&[u64::MAX, 1]), None);
    assert_eq!(job_workers(8, 3), 3);
    assert_eq!(job_workers(0, 3), 1);
}

#[test]
fn scheduler_keeps_its_limits() {
    let mut s = NestedScheduler::new(vec![10, 20, 90, 95], 2, 100);
    assert!(matches!(s.next(), SchedulerStep::Start(0)));
    assert!(matches!(s.next(), SchedulerStep::Start(1)));
    assert!(matches!(s.next(), SchedulerStep::Wait));
    assert!(s.is_running(0));
    s.ended(0, true);
    assert!(matches!(s.next(), SchedulerStep::Wait));
    s.ended(1, false);
    assert!(matches!(s.next(), SchedulerStep::Start(2)));
    assert!(matches!(s.next(), SchedulerStep::Wait));
    s.ended(2, true);
    assert!(matches!(s.next(), SchedulerStep::Start(3)));
    s.ended(3, true);
    assert!(matches!(s.next(), SchedulerStep::Finished));
    let r = s.result(1).unwrap();
    assert_eq!((r.converted, r.skipped), (3, 2));
}

#[test]
fn runtime_counts_add_up() {
    let stats = RuntimeStats {
        nested_converted: 1,
        nested_skipped: 2,
        passthrough_written: 3,
        passthrough_skipped: 4,
    };
    assert_eq!(stats.runtime_skipped(), 6);
}

struct Listing(Vec<EntryMeta>);

impl ArchiveBackend for Listing {
    fn format(&self) -> ArchiveFormat {
        ArchiveFormat::SevenZ
    }

    fn list(&self, _archive: &str) -> Result<Vec<EntryMeta>> {
        Ok(self.0.clone())
    }

    fn is_solid(&self, _archive: &str) -> Result<bool> {
        Ok(true)
    }

    fn extract_member(&self, _archive: &str, _member: &str, _dest_file: &str) -> Result<()> {
        Ok(())
    }

    fn extract_members(&self, _archive: &str, _members: &[String], _dest_dir: &str) -> Result<()> {
        Ok(())
    }

    fn extract_all(&self, _archive: &str, _dest_dir: &str) -> Result<()> {
        Ok(())
    }

    fn extract_all_with_excludes(
        &self,
        _archive: &str,
        _dest_dir: &str,
        _exclude_globs: &[String],
    ) -> Result<()> {
        Ok(())
    }

    fn pack_dir(&self, _src_dir: &str, _dest_archive: &str, _opts: &PackOptions) -> Result<()> {
        Ok(())
    }

    fn test(&self, _archive: &str) -> Result<()> {
        Ok(())
    }

    fn convert_to_nonsolid_streaming(
        &self,
        _src: &str,
        _dest: &str,
        _filter: &MemberFilter,
        _opts: &PackOptions,
    ) -> Result<bool> {
        Ok(false)
    }
}

#[test]
fn files_of_an_archive_are_sorted() {
    let mut dir = meta("d", ArchiveFormat::Unknown);
    dir.is_dir = true;
    let backend = Listing(vec![
        meta("b", ArchiveFormat::Unknown),
        dir,
        meta("a", ArchiveFormat::Unknown),
    ]);
    assert_eq!(list_file_paths(&backend, "x.7z").unwrap(), vec!["a", "b"]);
    // Two files of 100 bytes are small.
    assert_eq!(resolve_from_archive(&backend, "x.7z", None).unwrap(), Some(1));
    assert_eq!(resolve_from_archive(&backend, "x.7z", Some(3)).unwrap(), Some(3));
}

#[test]
fn nested_conversions_use_the_options() {
    let mut opts = PipelineOptions::new("in.7z".into(), "out.7z".into());
    opts.verify = false;
    opts.pack.level = 3;
    match opts.nested_conversion("n.7z", Some(2), "/tmp/n".to_string()) {
        Ok(c) => {
            assert_eq!(c.ctx.pack.threads, Some(2));
            assert_eq!(c.ctx.pack.level, 3);
            assert_eq!(c.ctx.temp_dir, "/tmp/n");
        }
        Err(e) => panic!("{}", e.message()),
    }
}
