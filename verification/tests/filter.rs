use archiveconverter::archive::native::glob_match_simple;
use archiveconverter::error::Error;
use archiveconverter::filter::load::{FilterLoader, LoadStep};
use archiveconverter::filter::member::{FileText, MemberFilter, RuleFile};
use archiveconverter::filter::plain::regex_to_7z_globs;
use archiveconverter::filter::regexes::compile;
use archiveconverter::filter::rename::{NameTransformer, RenameRule};
use archiveconverter::filter::rsync::{
    parse_filter_line, rsync_exclude_to_7z_globs, ParsedFilterLine, RsyncPattern,
};

fn texts(v: &[&str]) -> Vec<String> {
    v.iter().map(|s| s.to_string()).collect()
}

fn exc(p: &str) -> RsyncPattern {
    RsyncPattern::parse(p, false).unwrap()
}

/// Reads a filter file among files that are given as pairs of a path and a text.
fn load(path: &str, files: &[(&str, &str)]) -> Result<Vec<ParsedFilterLine>, Error> {
    let mut loader = FilterLoader::new(path);
    let mut wanted = path.to_string();
    loop {
        let content = match files.iter().find(|f| f.0 == wanted) {
            Some(f) => FileText::Text(f.1.to_string()),
            None => FileText::Missing,
        };
        let (next, step) = loader.step(&wanted, &content);
        loader = next;
        match step {
            LoadStep::Read(p) => wanted = p,
            LoadStep::Finished(lines) => return Ok(lines),
            LoadStep::Failed(e) => return Err(e),
        }
    }
}

#[test]
fn exclude_tmp_files() {
    let f = MemberFilter::with_excludes(&texts(&[r"(?i)\.tmp$"])).unwrap();
    assert!(!f.should_keep("dir/foo.TMP"));
    assert!(f.should_keep("dir/foo.txt"));
}

#[test]
fn with_includes_keeps_and_reports_faults() {
    let f = MemberFilter::with_includes(&texts(&[r"\.txt$"])).unwrap();
    assert!(f.should_keep("a.txt"));
    assert!(f.should_keep("a.bin"));
    assert!(f.try_7z_exclude_globs().is_none());
    assert!(MemberFilter::with_includes(&texts(&["["])).is_err());
}

#[test]
fn exclude_macosx() {
    let f = MemberFilter::with_excludes(&texts(&[r"^__MACOSX/"])).unwrap();
    assert!(!f.should_keep("__MACOSX/._x"));
    assert!(f.should_keep("data/x"));
}

#[test]
fn include_only_does_not_exclude_others() {
    // Rsync default: unmatched paths are kept. Include-only is not a whitelist.
    let mut f = MemberFilter::new();
    f.add_include(r"\.txt$").unwrap();
    assert!(f.should_keep("a.txt"));
    assert!(f.should_keep("a.bin"));
}

#[test]
fn first_match_wins_exclude_then_include() {
    let mut f = MemberFilter::new();
    f.add_exclude(r"secret").unwrap();
    f.add_include(r".*").unwrap();
    assert!(!f.should_keep("secret.txt"));
    assert!(f.should_keep("public.txt"));
}

#[test]
fn first_match_wins_include_then_exclude() {
    let mut f = MemberFilter::new();
    f.add_include(r"secret").unwrap();
    f.add_exclude(r".*").unwrap();
    assert!(f.should_keep("secret.txt"));
    assert!(!f.should_keep("public.txt"));
}

#[test]
fn basename_mode() {
    let f = MemberFilter::with_excludes(&texts(&[r"^skip\.7z$"]))
        .unwrap()
        .basename_only(true);
    assert!(!f.should_keep("nested/skip.7z"));
    assert!(f.should_keep("nested/keep.7z"));
}

#[test]
fn invalid_regex_errors() {
    let err = MemberFilter::with_excludes(&texts(&[r"("])).unwrap_err();
    assert!(matches!(err, Error::InvalidRegex { .. }));
}

#[test]
fn maps_tmp_and_macosx_to_7z_globs() {
    let f = MemberFilter::with_excludes(&texts(&[r"(?i)\.tmp$", r"^__MACOSX/"])).unwrap();
    let g = f.try_7z_exclude_globs().unwrap();
    assert!(g.iter().any(|x| x.contains(".tmp")));
    assert!(g.iter().any(|x| x.contains("__MACOSX")));
}

#[test]
fn complex_regex_not_mapped() {
    let f = MemberFilter::with_excludes(&texts(&[r"foo.*bar\d+"])).unwrap();
    assert!(f.try_7z_exclude_globs().is_none());
}

#[test]
fn rsync_include_txt_exclude_rest() {
    let mut f = MemberFilter::new();
    f.add_filter_line("+ *.txt").unwrap();
    f.add_filter_line("+ */").unwrap();
    f.add_filter_line("- *").unwrap();
    assert!(f.should_keep("a.txt"));
    assert!(f.should_keep("dir/a.txt"));
    assert!(!f.should_keep("a.bin"));
    assert!(!f.should_keep("dir/a.bin"));
}

#[test]
fn rsync_dir_exclude_prunes_children() {
    let mut f = MemberFilter::new();
    f.add_filter_line("- secret/").unwrap();
    assert!(!f.should_keep("secret/x.txt"));
    assert!(f.should_keep("public/x.txt"));
    // A later include cannot resurrect children of an excluded dir
    // unless it matches the directory itself first (rsync walk).
    let mut f2 = MemberFilter::new();
    f2.add_filter_line("- secret/").unwrap();
    f2.add_filter_line("+ secret/keep.txt").unwrap();
    assert!(
        !f2.should_keep("secret/keep.txt"),
        "excluded parent dir prunes children"
    );
    let mut f3 = MemberFilter::new();
    f3.add_filter_line("+ secret/keep.txt").unwrap();
    f3.add_filter_line("+ secret/").unwrap();
    f3.add_filter_line("- *").unwrap();
    assert!(f3.should_keep("secret/keep.txt"));
    assert!(!f3.should_keep("secret/drop.bin"));
}

#[test]
fn rsync_filter_from_file() {
    let lines = load("rules", &[("rules", "+ *.7z\n+ */\n- *\n")]).unwrap();
    let mut f = MemberFilter::new();
    f.add_filter_from(&lines);
    assert!(f.should_keep("alpha.7z"));
    assert!(f.should_keep("nested/beta.7z"));
    assert!(!f.should_keep("readme.txt"));
}

#[test]
fn exclude_from_file() {
    let rules = RuleFile {
        path: "ex".to_string(),
        content: FileText::Text("skip_me.7z\n*.tmp\n".to_string()),
    };
    let mut f = MemberFilter::new();
    f.add_exclude_from(&rules).unwrap();
    assert!(!f.should_keep("skip_me.7z"));
    assert!(!f.should_keep("dir/foo.tmp"));
    assert!(f.should_keep("keep.7z"));
}

#[test]
fn includes_block_7z_glob_fast_path() {
    let mut f = MemberFilter::new();
    f.add_filter_line("+ *.txt").unwrap();
    f.add_filter_line("- *").unwrap();
    assert!(f.try_7z_exclude_globs().is_none());
}

#[test]
fn empty_filter_keeps_every_path() {
    let f = MemberFilter::new();
    assert!(f.is_empty());
    assert!(f.should_keep("any/thing"));
    assert!(f.should_keep_path("dir", true));
    assert!(!f.should_keep("/"));
    assert_eq!(f.try_7z_exclude_globs(), Some(Vec::new()));
}

#[test]
fn clear_line_forgets_rules() {
    let lines = load("r", &[("r", "- *.txt\nclear\n- *.bin\n")]).unwrap();
    let mut f = MemberFilter::new();
    f.add_exclude("^old$").unwrap();
    f.add_filter_from(&lines);
    assert!(f.should_keep("a.txt"));
    assert!(f.should_keep("old"));
    assert!(!f.should_keep("a.bin"));
}

#[test]
fn side_file_errors_are_named() {
    let side = |content: FileText| RuleFile { path: "s".to_string(), content };
    let mut f = MemberFilter::new();
    assert_eq!(
        f.add_include_from(&side(FileText::Missing)).unwrap_err().message(),
        "filter file not found: s"
    );
    assert_eq!(
        f.add_include_from(&side(FileText::Unreadable("denied".to_string())))
            .unwrap_err()
            .message(),
        "read filter file s: denied"
    );
    assert_eq!(
        f.add_include_from(&side(FileText::Text("a\n+ \n".to_string())))
            .unwrap_err()
            .message(),
        "invalid filter rule '+': empty pattern in s line 2"
    );
}

#[test]
fn command_line_order() {
    // A filter argument comes before an excluding expression.
    let f = MemberFilter::from_cli(
        &[],
        &texts(&["+ keep.tmp"]),
        &[],
        &[],
        &[],
        &texts(&[r"\.tmp$"]),
        false,
    )
    .unwrap();
    assert!(f.should_keep("keep.tmp"));
    assert!(!f.should_keep("other.tmp"));
    let failed = load("none", &[]);
    let e = MemberFilter::from_cli(&[failed], &[], &[], &[], &[], &[], false).unwrap_err();
    assert!(matches!(e, Error::FilterFileNotFound(_)));
    let e = MemberFilter::from_cli(&[], &texts(&["merge x"]), &[], &[], &[], &[], false).unwrap_err();
    assert!(e.message().contains("merge is only valid inside a filter file"));
}

#[test]
fn strip_old_suffix() {
    let t = NameTransformer::from_pairs(&texts(&[r"^(?P<base>.+)_old\.7z$=${base}.7z"])).unwrap();
    assert_eq!(t.transform("data_old.7z"), "data.7z");
    assert_eq!(t.transform("keep.7z"), "keep.7z");
}

#[test]
fn whitespace_to_underscore() {
    let mut t = NameTransformer::new();
    t.add(r"\s+", "_").unwrap();
    assert_eq!(t.transform("my archive.7z"), "my_archive.7z");
}

#[test]
fn ordered_rules() {
    let t = NameTransformer::from_pairs(&texts(&[r"_old\.7z$=.7z", r"\s+=_"])).unwrap();
    assert_eq!(t.transform("x_old.7z"), "x.7z");
}

#[test]
fn collision_detected() {
    let mut t = NameTransformer::new();
    t.add(r".*", "same.7z").unwrap();
    match t.transform_all(&texts(&["a.7z", "b.7z"])) {
        Ok(_) => panic!("two members with one name"),
        Err(err) => assert!(matches!(err, Error::NameCollision(_))),
    }
}

#[test]
fn parse_pair_requires_eq() {
    assert!(RenameRule::parse_pair("noreplace").is_err());
}

#[test]
fn renaming_maps_every_name() {
    let t = NameTransformer::from_pairs(&texts(&[r"_old=", r"^b=c"])).unwrap();
    assert!(!t.is_empty());
    match t.transform_all(&texts(&["a_old.7z", "b.txt"])) {
        Ok(map) => {
            assert_eq!(map.get("a_old.7z").unwrap(), "a.7z");
            assert_eq!(map.get("b.txt").unwrap(), "c.txt");
        }
        Err(e) => panic!("{}", e.message()),
    }
    assert!(matches!(
        NameTransformer::from_pairs(&texts(&["(=x"])),
        Err(Error::InvalidRegex { .. })
    ));
}

#[test]
fn basename_star_ext() {
    let p = exc("*.tmp");
    assert!(p.matches("dir/foo.tmp", false));
    assert!(p.matches("foo.tmp", false));
    assert!(!p.matches("dir/foo.txt", false));
    assert!(!p.matches("tmp", false));
}

#[test]
fn star_does_not_cross_slash() {
    let p = exc("foo*bar");
    assert!(p.matches("foobar", false));
    assert!(p.matches("fooXXXbar", false));
    assert!(!p.matches("foo/xx/bar", false));
}

#[test]
fn globstar_any_depth() {
    let p = exc("**/foo.txt");
    assert!(p.matches("foo.txt", false));
    assert!(p.matches("a/foo.txt", false));
    assert!(p.matches("a/b/foo.txt", false));
    assert!(!p.matches("foo.bin", false));
}

#[test]
fn globstar_under_dir() {
    let p = exc("secret/**");
    assert!(p.matches("secret/a", false));
    assert!(p.matches("secret/a/b.txt", false));
    assert!(!p.matches("secret", false));
    assert!(!p.matches("other/a", false));
}

#[test]
fn triple_star_dir_and_contents() {
    let p = exc("secret/***");
    assert!(p.matches("secret", true));
    assert!(p.matches("secret/a", false));
    assert!(p.matches("secret/a/b", false));
    assert!(!p.matches("secret2", false));
    assert!(!p.matches("oseecret", false));
}

#[test]
fn trailing_slash_dirs_only() {
    let p = exc("build/");
    assert!(p.matches("build", true));
    assert!(p.matches("sub/build", true)); // basename `build`
    assert!(!p.matches("build", false));
    assert!(!p.matches("build/out", false));
}

#[test]
fn anchored_root() {
    let p = exc("/skip.7z");
    assert!(p.matches("skip.7z", false));
    assert!(!p.matches("nested/skip.7z", false));
}

#[test]
fn full_path_pattern() {
    let p = exc("nested/skip.7z");
    assert!(p.matches("nested/skip.7z", false));
    assert!(!p.matches("skip.7z", false));
    assert!(!p.matches("other/skip.7z", false));
}

#[test]
fn question_and_class() {
    let p = exc("file.t?t");
    assert!(p.matches("file.txt", false));
    assert!(p.matches("file.tat", false));
    assert!(!p.matches("file.tt", false));
    let c = exc("file.[abc]");
    assert!(c.matches("file.a", false));
    assert!(!c.matches("file.d", false));
    let n = exc("file.[!abc]");
    assert!(n.matches("file.d", false));
    assert!(!n.matches("file.a", false));
}

#[test]
fn parse_filter_prefixes() {
    match parse_filter_line("+ *.txt").unwrap() {
        Some(ParsedFilterLine::Rule(r)) => assert!(r.keep),
        _ => panic!("expected include"),
    }
    match parse_filter_line("- secret/").unwrap() {
        Some(ParsedFilterLine::Rule(r)) => assert!(!r.keep),
        _ => panic!("expected exclude"),
    }
    match parse_filter_line("include *.7z").unwrap() {
        Some(ParsedFilterLine::Rule(r)) => assert!(r.keep),
        _ => panic!("expected include"),
    }
    assert!(matches!(
        parse_filter_line("!").unwrap(),
        Some(ParsedFilterLine::Clear)
    ));
    assert!(parse_filter_line("# comment").unwrap().is_none());
    assert!(parse_filter_line("").unwrap().is_none());
}

#[test]
fn bad_lines_are_named() {
    let message = |l: &str| parse_filter_line(l).unwrap_err().message();
    assert_eq!(message(" : "), "invalid filter rule ':': merge path is empty");
    assert_eq!(message("+"), "invalid filter rule '+': pattern is empty");
    assert!(message("- [a").contains("invalid filter rule '[a'"));
    assert!(RsyncPattern::parse("  ", true).is_err());
}

#[test]
fn filter_file_merge_and_comments() {
    let lines = load(
        "dir/main.rules",
        &[
            ("dir/extra.rules", "- *.bak\n"),
            ("dir/main.rules", "# header\n; also\n+ *.txt\nmerge extra.rules\n- *\n"),
        ],
    )
    .unwrap();
    assert_eq!(lines.len(), 3);
    match &lines[0] {
        ParsedFilterLine::Rule(r) => assert!(r.keep && r.original == "*.txt"),
        _ => panic!(),
    }
    match &lines[1] {
        ParsedFilterLine::Rule(r) => assert!(!r.keep && r.original == "*.bak"),
        _ => panic!(),
    }
    match &lines[2] {
        ParsedFilterLine::Rule(r) => assert!(!r.keep && r.original == "*"),
        _ => panic!(),
    }
}

#[test]
fn missing_filter_file_errors() {
    let err = load("/no/such/filter.rules", &[]).unwrap_err();
    assert!(matches!(err, Error::FilterFileNotFound(_)));
}

#[test]
fn merges_nest_but_do_not_recurse() {
    let files = [
        ("a", "- 1\nmerge b\n- 4\n"),
        ("b", "- 2\nmerge /c\n"),
        ("/c", "- 3\n"),
        ("self", "- 1\nmerge self\n"),
        ("twice", "merge /c\nmerge /c\n"),
        ("bad", "- ok\n- [x\n"),
    ];
    let names = |lines: Vec<ParsedFilterLine>| {
        lines
            .iter()
            .map(|l| match l {
                ParsedFilterLine::Rule(r) => r.original.clone(),
                _ => panic!(),
            })
            .collect::<Vec<_>>()
    };
    assert_eq!(names(load("a", &files).unwrap()), vec!["1", "2", "3", "4"]);
    assert_eq!(names(load("twice", &files).unwrap()), vec!["3", "3"]);
    assert_eq!(
        load("self", &files).unwrap_err().message(),
        "invalid filter rule 'self': recursive merge in filter file"
    );
    assert!(load("bad", &files).unwrap_err().message().ends_with("(bad:2)"));
}

#[test]
fn maps_simple_excludes_to_7z() {
    assert!(rsync_exclude_to_7z_globs("*.tmp")
        .unwrap()
        .iter()
        .any(|g| g == "*.tmp"));
    assert!(rsync_exclude_to_7z_globs("__MACOSX/")
        .unwrap()
        .iter()
        .any(|g| g.contains("__MACOSX")));
    assert!(rsync_exclude_to_7z_globs("foo.*bar").is_none());
}

#[test]
fn globs_of_patterns() {
    let globs = |p: &str| rsync_exclude_to_7z_globs(p).unwrap();
    assert_eq!(globs("secret/***"), vec!["secret", "secret/*"]);
    assert_eq!(globs("/secret/***"), vec!["secret", "secret/*"]);
    assert_eq!(globs("name.7z"), vec!["name.7z", "*/name.7z", "name.7z/*", "*/name.7z/*"]);
    assert_eq!(globs("/a/b/"), vec!["a/b/*"]);
    assert_eq!(globs("a/b/"), vec!["a/b/*"]);
    assert_eq!(globs("__MACOSX/"), vec!["__MACOSX/*", "*/__MACOSX/*"]);
    assert_eq!(globs("*.tmp"), vec!["*.tmp", "*.tmp/*"]);
    for p in ["a?", "", "a/b", "/a", "x*", "build-*/***", "***", "../a/", "[ab]", "a b", "\\*"] {
        assert_eq!(rsync_exclude_to_7z_globs(p), None, "{p}");
    }
}

#[test]
fn globs_of_expressions() {
    let globs = |p: &str, base: bool| regex_to_7z_globs(p, base);
    assert_eq!(globs(r"\.tmp$", false), Some(texts(&["*.tmp", "*/*.tmp"])));
    assert_eq!(globs(r"(?-i)\.tmp$", true), Some(texts(&["*.tmp"])));
    assert_eq!(
        globs(r"(?i)\.7z$", true),
        Some(texts(&["*.7z", "*.7Z"]))
    );
    assert_eq!(globs(r"(?i)\.tmp$", false).unwrap().len(), 16);
    assert_eq!(globs("^__MACOSX/", false), Some(texts(&["__MACOSX/*"])));
    assert_eq!(globs("^foo", false), Some(texts(&["foo*"])));
    assert_eq!(globs("^foo$", false), Some(texts(&["foo"])));
    assert_eq!(globs(r"^skip\.7z$", false), Some(texts(&["skip.7z"])));
    assert_eq!(globs(r"^skip\.7z$", true), Some(texts(&["skip.7z", "*/skip.7z"])));
    // Case with more than two forms, or with very many globs; a dot that is any character; a
    // beginning of a base name; an expression with a space of its own.
    assert_eq!(globs(r"(?i)\.bak$", false), None);
    assert_eq!(globs(r"(?i)\.torrent$", false), None);
    assert_eq!(globs("^a.b", false), None);
    assert_eq!(globs("^foo", true), None);
    assert_eq!(globs("^a/b$", true), None);
    assert_eq!(globs(" ^foo", false), None);
    assert_eq!(globs("foo", false), None);
}

/// Paths of files in normal form.
const PATHS: [&str; 30] = [
    "a", "b", "x/a", "x/b", "a/x", "a/b", "a/b/c", "x/a/y", "x/a/b/y", "ab", "x/ab", "ab/x", "a.tmp",
    "x/a.tmp", "a.tmp/x", "x/a.TMP", "a.tmpx", "atmp", ".tmp", "foo", "foobar", "foo/x", "x/foo",
    "x/foobar/y", "build-1/out.o", "src/a.c", "skip.7z", "x/skip.7z", "skip.7zz", "skipx7z",
];

/// A filter and its globs drop the same files.
fn agree(f: &MemberFilter, what: &str) {
    let globs = f.try_7z_exclude_globs().unwrap();
    for p in PATHS {
        let dropped = globs.iter().any(|g| glob_match_simple(g, p));
        assert_eq!(!f.should_keep(p), dropped, "{what}: {p}");
    }
}

#[test]
fn globs_drop_what_the_filter_drops() {
    for p in ["a", "b", "a/", "a/b/", "/a/", "*.tmp", "a/***", "/a/b/***", "foo", "skip.7z"] {
        let mut f = MemberFilter::new();
        f.add_rsync(RsyncPattern::parse(p, false).unwrap());
        agree(&f, p);
    }
    let expressions = [
        r"\.tmp$", r"(?i)\.tmp$", r"(?i)(?-i)\.tmp$", "^a", "^a/", "^foo", "^foo$", r"^skip\.7z$",
        "^a/b$", r"\.$",
    ];
    for p in expressions {
        agree(&MemberFilter::with_excludes(&texts(&[p])).unwrap(), p);
    }
    for p in [r"\.tmp$", r"(?i)\.tmp$", "^foo$", r"^skip\.7z$"] {
        let f = MemberFilter::with_excludes(&texts(&[p])).unwrap().basename_only(true);
        agree(&f, p);
    }
    let mut f = MemberFilter::with_excludes(&texts(&[r"(?i)\.tmp$", "^__MACOSX/", "^src/"])).unwrap();
    f.add_rsync(RsyncPattern::parse("b", false).unwrap());
    f.add_rsync(RsyncPattern::parse("foo/", false).unwrap());
    agree(&f, "all");
    assert_eq!(MemberFilter::new().try_7z_exclude_globs(), Some(vec![]));
    f.add_rsync(RsyncPattern::parse("*.txt", true).unwrap());
    assert_eq!(f.try_7z_exclude_globs(), None);
}

#[test]
fn case_has_more_than_two_forms() {
    // The Kelvin sign is a `k` where case does not count.
    let f = MemberFilter::with_excludes(&texts(&[r"(?i)\.bak$"])).unwrap();
    assert!(!f.should_keep("x.BAK"));
    assert!(!f.should_keep("x.ba\u{212a}"));
    assert_eq!(f.try_7z_exclude_globs(), None);
}

#[test]
fn wildcards_in_front_of_triple_star() {
    let p = exc("build-*/***");
    assert!(p.matches("build-1", true));
    assert!(p.matches("build-1/out.o", false));
    assert!(p.matches("build-1/deep/out.o", false));
    assert!(!p.matches("src/a.c", false));
    assert!(!p.matches("src/build-1", true));
    let p = exc("**/cache/***");
    assert!(p.matches("x/cache/y", false));
    assert!(p.matches("cache", true));
    assert!(!p.matches("x/cached/y", false));
    assert!(exc("***").matches("anything/at/all", false));
    assert!(exc("*/***").matches("x", false));
}

#[test]
fn expressions_keep_their_text() {
    let e = compile("^foo").unwrap();
    assert_eq!(e.clone().as_str(), "^foo");
    assert!(e.is_match("foobar"));
    assert!(!e.is_match("FOO"));
    assert_eq!(e.replace_all("foobar", "x"), "xbar");
    assert_eq!(e.replace_all("FOO", "x"), "FOO");
    let rule = RenameRule::new("^foo", "x").unwrap();
    assert_eq!(rule.pattern.as_str(), "^foo");
    assert_eq!(rule.clone().apply("FOO"), "FOO");
    assert_eq!(rule.apply("foo"), "x");
}
