//! Ordered keep and drop rules for member paths.
//!
//! 1. Rules are tried in the order in which they were added; the first that matches decides.
//! 2. A path that no rule matches is kept.
//! 3. A directory that a pattern rule drops takes everything below it along.
//! 4. Regular expressions and patterns stand in one list.

use crate::error::{invalid_filter, Error, ErrorView, Result};
use crate::filter::exclude_laws;
use crate::filter::plain;
use crate::filter::plain::regex_to_7z_globs;
use crate::filter::regexes;
use crate::filter::regexes::{compile, Expression};
use crate::filter::rsync;
use crate::filter::rsync::{
    parse_filter_line, parse_side_text, LineView, ParsedFilterLine, PatternView, RsyncPattern,
};
use crate::filter::wild;
use crate::util::pathnorm;
use crate::util::pathnorm::{normalize_member_path, tail_after};
use crate::util::text;
use crate::util::text::{chars_of, concat4, copy_str, split_char, string_of};
use vstd::prelude::*;

verus! {

/// One rule.
#[derive(Debug)]
enum FilterRule {
    Regex { keep: bool, re: Expression },
    Rsync(RsyncPattern),
}

/// The contents of a rule.
#[verifier::ext_equal]
pub enum RuleView {
    /// A regular expression.
    Regex { keep: bool, pattern: Seq<char> },
    /// A pattern in the manner of `rsync`.
    Rsync(PatternView),
}

impl View for FilterRule {
    type V = RuleView;

    closed spec fn view(&self) -> RuleView {
        match *self {
            FilterRule::Regex { keep, re } => RuleView::Regex {
                keep,
                pattern: re@,
            },
            FilterRule::Rsync(p) => RuleView::Rsync(p@),
        }
    }
}

spec fn rule_views(v: Seq<FilterRule>) -> Seq<RuleView> {
    v.map_values(|r: FilterRule| r@)
}

/// The text that a regular expression is tried on.
pub open spec fn regex_subject(path: Seq<char>, basename_only: bool) -> Seq<char> {
    if basename_only {
        pathnorm::after_last(pathnorm::normalized(path), '/')
    } else {
        pathnorm::normalized(path)
    }
}

impl RuleView {
    /// Whether the rule keeps what it matches.
    pub open spec fn keep(self) -> bool {
        match self {
            RuleView::Regex { keep, .. } => keep,
            RuleView::Rsync(p) => p.keep,
        }
    }

    /// Whether the rule matches `path`.
    pub open spec fn matches(self, path: Seq<char>, is_dir: bool, basename_only: bool) -> bool {
        match self {
            RuleView::Regex { pattern, .. } => regexes::regex_says(
                pattern,
                regex_subject(path, basename_only),
            ),
            RuleView::Rsync(p) => p.matches(path, is_dir),
        }
    }

    /// The exclusion globs of the 7z program for this rule, where there are any.
    pub open spec fn globs(self, basename_only: bool) -> Option<Seq<Seq<char>>> {
        match self {
            RuleView::Regex { pattern, .. } => plain::regex_globs(pattern, basename_only),
            RuleView::Rsync(p) => p.globs(),
        }
    }
}

/// What the first rule that matches `path` says.
pub open spec fn first_match(
    rules: Seq<RuleView>,
    path: Seq<char>,
    is_dir: bool,
    basename_only: bool,
) -> Option<bool>
    decreases rules.len(),
{
    if rules.len() == 0 {
        None
    } else if rules[0].matches(path, is_dir, basename_only) {
        Some(rules[0].keep())
    } else {
        first_match(rules.skip(1), path, is_dir, basename_only)
    }
}

/// What the first pattern rule that matches `path` says.
pub open spec fn first_rsync_match(
    rules: Seq<RuleView>,
    path: Seq<char>,
    is_dir: bool,
) -> Option<bool>
    decreases rules.len(),
{
    if rules.len() == 0 {
        None
    } else if rules[0] is Rsync && rules[0].matches(path, is_dir, false) {
        Some(rules[0].keep())
    } else {
        first_rsync_match(rules.skip(1), path, is_dir)
    }
}

/// The pieces that are not empty.
pub open spec fn nonempty(parts: Seq<Seq<char>>) -> Seq<Seq<char>>
    decreases parts.len(),
{
    if parts.len() == 0 {
        parts
    } else if parts.last().len() == 0 {
        nonempty(parts.drop_last())
    } else {
        nonempty(parts.drop_last()).push(parts.last())
    }
}

/// The components of a normalized path.
pub open spec fn path_parts(path: Seq<char>) -> Seq<Seq<char>> {
    nonempty(text::split(path, '/'))
}

/// The path made of the first `n` components.
pub open spec fn leading(parts: Seq<Seq<char>>, n: int) -> Seq<char> {
    text::join(parts.take(n), "/"@)
}

/// How many leading paths of a path are directories that are walked through.
pub open spec fn walked(parts: Seq<Seq<char>>, is_dir: bool) -> int {
    if is_dir || parts.len() == 0 {
        parts.len() as int
    } else {
        parts.len() - 1
    }
}

/// All exclusion globs of a list of rules, where every rule has some.
pub open spec fn rule_globs(rules: Seq<RuleView>, basename_only: bool) -> Option<Seq<Seq<char>>>
    decreases rules.len(),
{
    if rules.len() == 0 {
        Some(Seq::empty())
    } else {
        match (
            rule_globs(rules.drop_last(), basename_only),
            rules.last().globs(basename_only),
        ) {
            (Some(a), Some(b)) => Some(a + b),
            _ => None,
        }
    }
}

/// Rules, and whether regular expressions are tried on base names alone.
#[verifier::ext_equal]
pub struct FilterView {
    pub rules: Seq<RuleView>,
    pub basename_only: bool,
}

impl FilterView {
    /// Some rule is a pattern rule.
    pub open spec fn has_rsync(self) -> bool {
        exists|i: int| 0 <= i < self.rules.len() && (#[trigger] self.rules[i]) is Rsync
    }

    /// Some rule keeps what it matches.
    pub open spec fn has_keep(self) -> bool {
        exists|i: int| 0 <= i < self.rules.len() && (#[trigger] self.rules[i]).keep()
    }

    /// No directory on the way to the path is dropped.
    pub open spec fn reaches(self, path: Seq<char>, is_dir: bool) -> bool {
        let parts = path_parts(pathnorm::normalized(path));
        self.has_rsync() ==> forall|n: int|
            1 <= n <= walked(parts, is_dir) ==> first_rsync_match(
                self.rules,
                #[trigger] leading(parts, n),
                true,
            ) != Some(false)
    }

    /// Whether a member is kept.
    pub open spec fn keeps(self, path: Seq<char>, is_dir: bool) -> bool {
        let norm = pathnorm::normalized(path);
        &&& norm.len() > 0
        &&& self.reaches(path, is_dir)
        &&& first_match(self.rules, norm, is_dir, self.basename_only) != Some(false)
    }

    /// The exclusion globs that match exactly the files that the rules drop; `None` where some
    /// rule keeps, or where some rule has no such globs.
    pub open spec fn globs(self) -> Option<Seq<Seq<char>>> {
        if self.has_keep() {
            None
        } else {
            rule_globs(self.rules, self.basename_only)
        }
    }

    /// The filter with one more rule.
    pub open spec fn with_rule(self, rule: RuleView) -> FilterView {
        FilterView { rules: self.rules.push(rule), ..self }
    }

    /// The filter with one more regular expression, or why it does not compile.
    pub open spec fn with_regex(self, pattern: Seq<char>, keep: bool) -> std::result::Result<
        FilterView,
        ErrorView,
    > {
        if regexes::regex_fault(pattern) is None {
            Ok(self.with_rule(RuleView::Regex { keep, pattern }))
        } else {
            Err(regexes::regex_error(pattern))
        }
    }

    /// The filter after a line of a filter file.
    pub open spec fn with_line(self, line: LineView) -> FilterView {
        match line {
            LineView::Clear => FilterView { rules: Seq::empty(), ..self },
            LineView::Merge(_) => self,
            LineView::Rule(p) => self.with_rule(RuleView::Rsync(p)),
        }
    }

    /// The filter after the lines of a filter file.
    pub open spec fn with_lines(self, lines: Seq<LineView>) -> FilterView
        decreases lines.len(),
    {
        if lines.len() == 0 {
            self
        } else {
            self.with_lines(lines.drop_last()).with_line(lines.last())
        }
    }

    /// The filter with more pattern rules.
    pub open spec fn with_patterns(self, patterns: Seq<PatternView>) -> FilterView {
        FilterView {
            rules: self.rules + patterns.map_values(|p: PatternView| RuleView::Rsync(p)),
            ..self
        }
    }

    /// The filter after one `--filter` argument.
    pub open spec fn with_argument(self, line: Seq<char>) -> std::result::Result<
        FilterView,
        ErrorView,
    > {
        match rsync::parsed_line(line) {
            Err(e) => Err(e),
            Ok(None) => Ok(self),
            Ok(Some(LineView::Merge(_))) => Err(
                ErrorView::InvalidFilter {
                    rule: line,
                    message: "merge is only valid inside a filter file (use --filter-from)"@,
                },
            ),
            Ok(Some(l)) => Ok(self.with_line(l)),
        }
    }
}

// ---------------------------------------------------------------------------------------------
// The filter
// ---------------------------------------------------------------------------------------------
/// Ordered keep and drop rules for the members of an archive.
#[derive(Debug)]
pub struct MemberFilter {
    rules: Vec<FilterRule>,
    basename_only: bool,
}

impl View for MemberFilter {
    type V = FilterView;

    closed spec fn view(&self) -> FilterView {
        FilterView { rules: rule_views(self.rules@), basename_only: self.basename_only }
    }
}

/// The contents of a file that rules are read from.
#[derive(Debug, Clone)]
pub enum FileText {
    /// Its text.
    Text(String),
    /// There is no such file.
    Missing,
    /// It could not be read, for the reason given.
    Unreadable(String),
}

/// A file that rules are read from.
#[derive(Debug, Clone)]
pub struct RuleFile {
    /// Its path as the user wrote it.
    pub path: String,
    /// What reading it gave.
    pub content: FileText,
}

/// The error of a file that could not be read.
pub open spec fn file_error(path: Seq<char>, content: FileText) -> Option<ErrorView> {
    match content {
        FileText::Text(_) => None,
        FileText::Missing => Some(ErrorView::FilterFileNotFound(path)),
        FileText::Unreadable(e) => Some(
            ErrorView::Other("read filter file "@ + path + ": "@ + e@),
        ),
    }
}

/// The text of a rule file, or its error.
pub fn file_text(path: &str, content: &FileText) -> (r: Result<String>)
    ensures
        match r {
            Ok(t) => *content is Text && (*content)->Text_0@ == t@,
            Err(e) => file_error(path@, *content) == Some(e@),
        },
{
    match content {
        FileText::Text(t) => Ok(copy_str(t.as_str())),
        FileText::Missing => Err(Error::FilterFileNotFound(copy_str(path))),
        FileText::Unreadable(e) => Err(
            Error::Other(concat4("read filter file ", path, ": ", e.as_str())),
        ),
    }
}

/// The patterns of a side file, or the first error.
pub open spec fn side_file(file: RuleFile, keep: bool) -> std::result::Result<
    Seq<PatternView>,
    ErrorView,
> {
    match file.content {
        FileText::Text(t) => rsync::side_patterns(text::lines(t@), file.path@, keep),
        _ => Err(file_error(file.path@, file.content)->0),
    }
}

/// Reads a side file (`--exclude-from`, `--include-from`): one pattern per line.
pub fn load_side_file(file: &RuleFile, keep: bool) -> (r: Result<Vec<RsyncPattern>>)
    ensures
        match r {
            Ok(v) => side_file(*file, keep) == Ok::<Seq<PatternView>, ErrorView>(
                rsync::pattern_views(v@),
            ),
            Err(e) => side_file(*file, keep) == Err::<Seq<PatternView>, ErrorView>(e@),
        },
{
    match file_text(file.path.as_str(), &file.content) {
        Ok(content) => parse_side_text(content.as_str(), file.path.as_str(), keep),
        Err(e) => Err(e),
    }
}

/// What `r` says of a filter: the new filter, or the error with the filter as it was.
pub open spec fn updated(
    r: Result<()>,
    before: FilterView,
    after: FilterView,
    wanted: std::result::Result<FilterView, ErrorView>,
) -> bool {
    match r {
        Ok(_) => wanted == Ok::<FilterView, ErrorView>(after),
        Err(e) => wanted == Err::<FilterView, ErrorView>(e@) && after == before,
    }
}

impl Clone for FilterRule {
    fn clone(&self) -> (r: Self)
        ensures
            r@ == self@,
    {
        match self {
            FilterRule::Regex { keep, re } => FilterRule::Regex {
                keep: *keep,
                re: re.clone(),
            },
            FilterRule::Rsync(p) => FilterRule::Rsync(p.clone()),
        }
    }
}

impl FilterRule {
    /// Whether the rule keeps what it matches.
    fn keeps_match(&self) -> (r: bool)
        ensures
            r == self@.keep(),
    {
        match self {
            FilterRule::Regex { keep, .. } => *keep,
            FilterRule::Rsync(p) => p.keep,
        }
    }

    /// Whether this is a pattern rule.
    fn is_rsync(&self) -> (r: bool)
        ensures
            r == (self@ is Rsync),
    {
        match self {
            FilterRule::Rsync(_) => true,
            _ => false,
        }
    }

    /// Whether the rule matches `path`.
    fn matches(&self, path: &str, is_dir: bool, basename_only: bool) -> (r: bool)
        ensures
            r == self@.matches(path@, is_dir, basename_only),
    {
        match self {
            FilterRule::Regex { re, .. } => {
                let target = regex_target(path, basename_only);
                re.is_match(target.as_str())
            },
            FilterRule::Rsync(p) => p.matches(path, is_dir),
        }
    }
}

/// The text that a regular expression is tried on.
fn regex_target(path: &str, basename_only: bool) -> (r: String)
    ensures
        r@ == regex_subject(path@, basename_only),
{
    let norm = normalize_member_path(path);
    if basename_only {
        let chars = chars_of(norm.as_str());
        string_of(tail_after(chars.as_slice(), '/'))
    } else {
        norm
    }
}

/// The components of a path that are not empty.
fn nonempty_parts(path: &str) -> (r: Vec<Vec<char>>)
    ensures
        text::rows(r@) == path_parts(path@),
{
    let chars = chars_of(path);
    let all = split_char(chars.as_slice(), '/');
    let ghost rows = text::rows(all@);
    let mut out: Vec<Vec<char>> = Vec::new();
    let mut i: usize = 0;
    assert(text::rows(out@) =~= nonempty(rows.take(0)));
    while i < all.len()
        invariant
            i <= all.len(),
            rows == text::rows(all@),
            text::rows(out@) == nonempty(rows.take(i as int)),
        decreases all.len() - i,
    {
        assert(rows.take(i + 1).drop_last() =~= rows.take(i as int));
        assert(rows.take(i + 1).last() == all@[i as int]@);
        if all[i].len() > 0 {
            let part = all[i].clone();
            assert(part@ =~= all@[i as int]@);
            let ghost before = out@;
            out.push(part);
            assert(text::rows(out@) =~= text::rows(before).push(all@[i as int]@));
        }
        i += 1;
    }
    assert(rows.take(i as int) =~= rows);
    out
}

impl Clone for MemberFilter {
    fn clone(&self) -> (r: Self)
        ensures
            r@ == self@,
    {
        let mut rules: Vec<FilterRule> = Vec::new();
        let mut i: usize = 0;
        while i < self.rules.len()
            invariant
                i <= self.rules.len(),
                rule_views(rules@) == rule_views(self.rules@).take(i as int),
            decreases self.rules.len() - i,
        {
            let ghost before = rules@;
            rules.push(self.rules[i].clone());
            assert(rule_views(rules@) =~= rule_views(before).push(self.rules@[i as int]@));
            i += 1;
            assert(rule_views(rules@) =~= rule_views(self.rules@).take(i as int));
        }
        assert(rule_views(self.rules@).take(i as int) =~= rule_views(self.rules@));
        MemberFilter { rules, basename_only: self.basename_only }
    }
}

impl Default for MemberFilter {
    fn default() -> (r: Self)
        ensures
            r@ == (FilterView { rules: Seq::empty(), basename_only: false }),
    {
        let rules: Vec<FilterRule> = Vec::new();
        assert(rule_views(rules@) =~= Seq::<RuleView>::empty());
        MemberFilter { rules, basename_only: false }
    }
}

impl MemberFilter {
    /// A filter without rules, which keeps every member.
    pub fn new() -> (r: Self)
        ensures
            r@ == (FilterView { rules: Seq::empty(), basename_only: false }),
    {
        MemberFilter::default()
    }

    /// The filter with its regular expressions tried on base names alone, or not.
    pub fn basename_only(self, yes: bool) -> (r: Self)
        ensures
            r@ == (FilterView { basename_only: yes, ..self@ }),
    {
        MemberFilter { rules: self.rules, basename_only: yes }
    }

    fn add_rule(&mut self, rule: FilterRule)
        ensures
            final(self)@ == old(self)@.with_rule(rule@),
    {
        let ghost before = self.rules@;
        self.rules.push(rule);
        assert(rule_views(self.rules@) =~= rule_views(before).push(rule@));
    }

    /// Adds a regular expression that drops what it matches.
    pub fn add_exclude(&mut self, pattern: &str) -> (r: Result<()>)
        ensures
            updated(r, old(self)@, final(self)@, old(self)@.with_regex(pattern@, false)),
    {
        match compile(pattern) {
            Ok(re) => {
                self.add_rule(FilterRule::Regex { keep: false, re });
                Ok(())
            },
            Err(e) => Err(e),
        }
    }

    /// Adds a regular expression that keeps what it matches.
    pub fn add_include(&mut self, pattern: &str) -> (r: Result<()>)
        ensures
            updated(r, old(self)@, final(self)@, old(self)@.with_regex(pattern@, true)),
    {
        match compile(pattern) {
            Ok(re) => {
                self.add_rule(FilterRule::Regex { keep: true, re });
                Ok(())
            },
            Err(e) => Err(e),
        }
    }

    /// Adds a pattern rule.
    pub fn add_rsync(&mut self, pattern: RsyncPattern)
        ensures
            final(self)@ == old(self)@.with_rule(RuleView::Rsync(pattern@)),
    {
        self.add_rule(FilterRule::Rsync(pattern));
    }

    fn clear(&mut self)
        ensures
            final(self)@ == (FilterView { rules: Seq::empty(), ..old(self)@ }),
    {
        self.rules.clear();
        assert(rule_views(self.rules@) =~= Seq::<RuleView>::empty());
    }

    /// Adds what one `--filter` argument says (`+ pat`, `- pat`, a bare pattern drops).
    pub fn add_filter_line(&mut self, line: &str) -> (r: Result<()>)
        ensures
            updated(r, old(self)@, final(self)@, old(self)@.with_argument(line@)),
    {
        match parse_filter_line(line) {
            Err(e) => Err(e),
            Ok(None) => Ok(()),
            Ok(Some(ParsedFilterLine::Clear)) => {
                self.clear();
                Ok(())
            },
            Ok(Some(ParsedFilterLine::Merge(_))) => Err(
                invalid_filter(
                    line,
                    "merge is only valid inside a filter file (use --filter-from)",
                ),
            ),
            Ok(Some(ParsedFilterLine::Rule(p))) => {
                self.add_rsync(p);
                Ok(())
            },
        }
    }

    /// Adds the lines of a filter file (`--filter-from`), its merges inlined.
    pub fn add_filter_from(&mut self, lines: &[ParsedFilterLine])
        ensures
            final(self)@ == old(self)@.with_lines(rsync::line_views(lines@)),
    {
        let ghost start = self@;
        let ghost views = rsync::line_views(lines@);
        let mut i: usize = 0;
        assert(views.take(0) =~= Seq::<LineView>::empty());
        while i < lines.len()
            invariant
                i <= lines.len(),
                views == rsync::line_views(lines@),
                self@ == start.with_lines(views.take(i as int)),
            decreases lines.len() - i,
        {
            assert(views.take(i + 1).drop_last() =~= views.take(i as int));
            assert(views.take(i + 1).last() == lines@[i as int]@);
            match &lines[i] {
                ParsedFilterLine::Clear => {
                    self.clear();
                },
                ParsedFilterLine::Merge(_) => {},
                ParsedFilterLine::Rule(p) => {
                    self.add_rsync(p.clone());
                },
            }
            i += 1;
        }
        assert(views.take(i as int) =~= views);
    }

    /// Adds pattern rules in order.
    fn add_patterns(&mut self, patterns: Vec<RsyncPattern>)
        ensures
            final(self)@ == old(self)@.with_patterns(rsync::pattern_views(patterns@)),
    {
        let ghost start = self@;
        let ghost views = rsync::pattern_views(patterns@);
        let mut i: usize = 0;
        assert(self@ =~= start.with_patterns(views.take(0)));
        while i < patterns.len()
            invariant
                i <= patterns.len(),
                views == rsync::pattern_views(patterns@),
                self@ == start.with_patterns(views.take(i as int)),
            decreases patterns.len() - i,
        {
            self.add_rsync(patterns[i].clone());
            i += 1;
            assert(self@ =~= start.with_patterns(views.take(i as int)));
        }
        assert(views.take(i as int) =~= views);
    }

    /// The filter with the patterns of a side file, or why the file cannot be read.
    pub open spec fn with_side_file(before: FilterView, file: RuleFile, keep: bool) -> std::result::Result<
        FilterView,
        ErrorView,
    > {
        match side_file(file, keep) {
            Ok(v) => Ok(before.with_patterns(v)),
            Err(e) => Err(e),
        }
    }

    /// Adds the patterns of an `--exclude-from` file.
    pub fn add_exclude_from(&mut self, file: &RuleFile) -> (r: Result<()>)
        ensures
            updated(r, old(self)@, final(self)@, Self::with_side_file(old(self)@, *file, false)),
    {
        match load_side_file(file, false) {
            Ok(v) => {
                self.add_patterns(v);
                Ok(())
            },
            Err(e) => Err(e),
        }
    }

    /// Adds the patterns of an `--include-from` file.
    pub fn add_include_from(&mut self, file: &RuleFile) -> (r: Result<()>)
        ensures
            updated(r, old(self)@, final(self)@, Self::with_side_file(old(self)@, *file, true)),
    {
        match load_side_file(file, true) {
            Ok(v) => {
                self.add_patterns(v);
                Ok(())
            },
            Err(e) => Err(e),
        }
    }

    /// What the first matching rule says of exactly this path.
    fn first_match(&self, path: &str, is_dir: bool) -> (r: Option<bool>)
        ensures
            r == first_match(self@.rules, path@, is_dir, self@.basename_only),
    {
        let ghost views = rule_views(self.rules@);
        let mut i: usize = 0;
        assert(views.skip(0) =~= views);
        while i < self.rules.len()
            invariant
                i <= self.rules.len(),
                views == rule_views(self.rules@),
                first_match(views, path@, is_dir, self.basename_only) == first_match(
                    views.skip(i as int),
                    path@,
                    is_dir,
                    self.basename_only,
                ),
                self@.rules == views,
            decreases self.rules.len() - i,
        {
            assert(views.skip(i as int)[0] == self.rules@[i as int]@);
            if self.rules[i].matches(path, is_dir, self.basename_only) {
                return Some(self.rules[i].keeps_match());
            }
            assert(views.skip(i as int).skip(1) =~= views.skip(i + 1));
            i += 1;
        }
        None
    }

    /// What the first matching pattern rule says of exactly this path.
    fn first_rsync_match(&self, path: &str, is_dir: bool) -> (r: Option<bool>)
        ensures
            r == first_rsync_match(self@.rules, path@, is_dir),
    {
        let ghost views = rule_views(self.rules@);
        let mut i: usize = 0;
        assert(views.skip(0) =~= views);
        while i < self.rules.len()
            invariant
                i <= self.rules.len(),
                views == rule_views(self.rules@),
                first_rsync_match(views, path@, is_dir) == first_rsync_match(
                    views.skip(i as int),
                    path@,
                    is_dir,
                ),
                self@.rules == views,
            decreases self.rules.len() - i,
        {
            assert(views.skip(i as int)[0] == self.rules@[i as int]@);
            if let FilterRule::Rsync(p) = &self.rules[i] {
                if p.matches(path, is_dir) {
                    return Some(p.keep);
                }
            }
            assert(views.skip(i as int).skip(1) =~= views.skip(i + 1));
            i += 1;
        }
        None
    }

    fn has_rsync(&self) -> (r: bool)
        ensures
            r == self@.has_rsync(),
    {
        let mut i: usize = 0;
        while i < self.rules.len()
            invariant
                i <= self.rules.len(),
                forall|k: int| 0 <= k < i ==> !((#[trigger] self@.rules[k]) is Rsync),
            decreases self.rules.len() - i,
        {
            assert(self@.rules[i as int] == self.rules@[i as int]@);
            if self.rules[i].is_rsync() {
                return true;
            }
            i += 1;
        }
        false
    }

    fn has_keep(&self) -> (r: bool)
        ensures
            r == self@.has_keep(),
    {
        let mut i: usize = 0;
        while i < self.rules.len()
            invariant
                i <= self.rules.len(),
                forall|k: int| 0 <= k < i ==> !(#[trigger] self@.rules[k]).keep(),
            decreases self.rules.len() - i,
        {
            assert(self@.rules[i as int] == self.rules@[i as int]@);
            if self.rules[i].keeps_match() {
                return true;
            }
            i += 1;
        }
        false
    }

    /// Whether a file is kept.
    pub fn should_keep(&self, path: &str) -> (r: bool)
        ensures
            r == self@.keeps(path@, false),
    {
        self.should_keep_path(path, false)
    }

    /// Whether a file or a directory is kept. A dropped directory takes what is below it along.
    pub fn should_keep_path(&self, path: &str, is_dir: bool) -> (r: bool)
        ensures
            r == self@.keeps(path@, is_dir),
    {
        let norm = normalize_member_path(path);
        if chars_of(norm.as_str()).len() == 0 {
            return false;
        }
        if self.has_rsync() {
            let parts = nonempty_parts(norm.as_str());
            let ghost rows = path_parts(norm@);
            let end: usize = if is_dir || parts.len() == 0 {
                parts.len()
            } else {
                parts.len() - 1
            };
            let mut prefix = String::new();
            let mut i: usize = 0;
            while i < end
                invariant
                    i <= end <= parts.len(),
                    norm@ == pathnorm::normalized(path@),
                    rows == path_parts(norm@),
                    rows == text::rows(parts@),
                    end == walked(rows, is_dir),
                    prefix@ == leading(rows, i as int),
                    self@.has_rsync(),
                    forall|n: int|
                        1 <= n <= i ==> first_rsync_match(
                            self@.rules,
                            #[trigger] leading(rows, n),
                            true,
                        ) != Some(false),
                decreases end - i,
            {
                let piece = string_of(parts[i].as_slice());
                if i > 0 {
                    prefix.push('/');
                }
                prefix.append(piece.as_str());
                proof {
                    reveal_strlit("/");
                    assert(rows.take(i + 1).drop_last() =~= rows.take(i as int));
                    assert(rows.take(i + 1).last() == parts@[i as int]@);
                    assert(prefix@ =~= leading(rows, i + 1));
                }
                if let Some(false) = self.first_rsync_match(prefix.as_str(), true) {
                    assert(first_rsync_match(self@.rules, leading(rows, i + 1), true) == Some(
                        false,
                    ));
                    return false;
                }
                i += 1;
            }
        }
        match self.first_match(norm.as_str(), is_dir) {
            Some(keep) => keep,
            None => true,
        }
    }

    /// Whether there are no rules.
    pub fn is_empty(&self) -> (r: bool)
        ensures
            r == (self@.rules.len() == 0),
    {
        self.rules.len() == 0
    }

    /// Maps the rules to exclusion globs of the 7z program, which match exactly the files that
    /// the rules drop; `None` where that cannot be done safely, so that the members have to be
    /// filtered after extraction.
    pub fn try_7z_exclude_globs(&self) -> (r: Option<Vec<String>>)
        ensures
            match r {
                Some(v) => self@.globs() == Some(text::texts(v@)),
                None => self@.globs() is None,
            },
            r matches Some(v) ==> forall|p: Seq<char>|
                exclude_laws::file_path(p) ==> (!self@.keeps(p, false)
                    <==> #[trigger] wild::any_wild(text::texts(v@), p)),
    {
        if self.has_keep() {
            return None;
        }
        let ghost views = rule_views(self.rules@);
        let mut globs: Vec<String> = Vec::new();
        let mut i: usize = 0;
        assert(text::texts(globs@) =~= Seq::<Seq<char>>::empty());
        while i < self.rules.len()
            invariant
                i <= self.rules.len(),
                views == rule_views(self.rules@),
                self@.rules == views,
                !self@.has_keep(),
                rule_globs(views.take(i as int), self@.basename_only) == Some(
                    text::texts(globs@),
                ),
            decreases self.rules.len() - i,
        {
            let ghost upto = views.take(i + 1);
            assert(upto.drop_last() =~= views.take(i as int));
            assert(upto.last() == self.rules@[i as int]@);
            let found = match &self.rules[i] {
                FilterRule::Regex { re, .. } => regex_to_7z_globs(
                    re.as_str(),
                    self.basename_only,
                ),
                FilterRule::Rsync(p) => p.exclude_globs(),
            };
            match found {
                Some(more) => {
                    let ghost before = globs@;
                    let ghost added = more@;
                    let mut more = more;
                    globs.append(&mut more);
                    assert(text::texts(globs@) =~= text::texts(before) + text::texts(added));
                },
                None => {
                    proof {
                        lemma_globs_none(views, self@.basename_only, i + 1);
                    }
                    return None;
                },
            }
            i += 1;
        }
        assert(views.take(i as int) =~= views);
        proof {
            let g = text::texts(globs@);
            assert forall|p: Seq<char>| exclude_laws::file_path(p) implies (!self@.keeps(p, false)
                <==> #[trigger] wild::any_wild(g, p)) by {
                exclude_laws::law_globs_do_what_the_filter_does(self@, g, p);
            }
        }
        Some(globs)
    }
}

// ---------------------------------------------------------------------------------------------
// Building a filter from many pieces
// ---------------------------------------------------------------------------------------------
/// Takes the pieces one after the other, up to the first error.
pub open spec fn step_all<A>(
    f: FilterView,
    items: Seq<A>,
    step: spec_fn(FilterView, A) -> std::result::Result<FilterView, ErrorView>,
) -> std::result::Result<FilterView, ErrorView>
    decreases items.len(),
{
    if items.len() == 0 {
        Ok(f)
    } else {
        match step_all(f, items.drop_last(), step) {
            Ok(g) => step(g, items.last()),
            Err(e) => Err(e),
        }
    }
}

proof fn lemma_step_error<A>(
    f: FilterView,
    items: Seq<A>,
    step: spec_fn(FilterView, A) -> std::result::Result<FilterView, ErrorView>,
    n: int,
)
    requires
        0 <= n <= items.len(),
        step_all(f, items.take(n), step) is Err,
    ensures
        step_all(f, items, step) == step_all(f, items.take(n), step),
    decreases items.len(),
{
    if n < items.len() {
        assert(items.drop_last().take(n) =~= items.take(n));
        lemma_step_error(f, items.drop_last(), step, n);
    } else {
        assert(items.take(n) =~= items);
    }
}

/// The filter with several regular expressions more.
pub open spec fn with_regexes(f: FilterView, patterns: Seq<Seq<char>>, keep: bool) -> std::result::Result<
    FilterView,
    ErrorView,
> {
    step_all(f, patterns, |g: FilterView, p: Seq<char>| g.with_regex(p, keep))
}

/// The filter with several `--filter` arguments more.
pub open spec fn with_arguments(f: FilterView, lines: Seq<Seq<char>>) -> std::result::Result<
    FilterView,
    ErrorView,
> {
    step_all(f, lines, |g: FilterView, l: Seq<char>| g.with_argument(l))
}

/// The filter with several side files more.
pub open spec fn with_side_files(f: FilterView, files: Seq<RuleFile>, keep: bool) -> std::result::Result<
    FilterView,
    ErrorView,
> {
    step_all(f, files, |g: FilterView, x: RuleFile| MemberFilter::with_side_file(g, x, keep))
}

/// The filter after one filter file, read or not.
pub open spec fn with_filter_file(
    f: FilterView,
    file: Result<Vec<ParsedFilterLine>>,
) -> std::result::Result<FilterView, ErrorView> {
    match file {
        Ok(lines) => Ok(f.with_lines(rsync::line_views(lines@))),
        Err(e) => Err(e@),
    }
}

/// The filter with several filter files more.
pub open spec fn with_filter_files(
    f: FilterView,
    files: Seq<Result<Vec<ParsedFilterLine>>>,
) -> std::result::Result<FilterView, ErrorView> {
    step_all(f, files, |g: FilterView, x: Result<Vec<ParsedFilterLine>>| with_filter_file(g, x))
}

/// The filter that the pieces of a command line make, in the order: filter files, filter
/// arguments, include files, exclude files, keeping expressions, dropping expressions.
pub open spec fn cli_filter(
    filter_from: Seq<Result<Vec<ParsedFilterLine>>>,
    filter_lines: Seq<Seq<char>>,
    include_from: Seq<RuleFile>,
    exclude_from: Seq<RuleFile>,
    regex_includes: Seq<Seq<char>>,
    regex_excludes: Seq<Seq<char>>,
    basename_only: bool,
) -> std::result::Result<FilterView, ErrorView> {
    let empty = FilterView { rules: Seq::empty(), basename_only: false };
    match with_filter_files(empty, filter_from) {
        Err(e) => Err(e),
        Ok(a) => match with_arguments(a, filter_lines) {
            Err(e) => Err(e),
            Ok(b) => match with_side_files(b, include_from, true) {
                Err(e) => Err(e),
                Ok(c) => match with_side_files(c, exclude_from, false) {
                    Err(e) => Err(e),
                    Ok(d) => match with_regexes(d, regex_includes, true) {
                        Err(e) => Err(e),
                        Ok(g) => match with_regexes(g, regex_excludes, false) {
                            Err(e) => Err(e),
                            Ok(h) => Ok(FilterView { basename_only, ..h }),
                        },
                    },
                },
            },
        },
    }
}

/// What `r` says of a new filter.
pub open spec fn built(
    r: Result<MemberFilter>,
    wanted: std::result::Result<FilterView, ErrorView>,
) -> bool {
    match r {
        Ok(f) => wanted == Ok::<FilterView, ErrorView>(f@),
        Err(e) => wanted == Err::<FilterView, ErrorView>(e@),
    }
}

impl MemberFilter {
    /// The filter with several regular expressions more.
    fn plus_regexes(self, patterns: &[String], keep: bool) -> (r: Result<Self>)
        ensures
            built(r, with_regexes(self@, text::texts(patterns@), keep)),
    {
        let ghost start = self@;
        let ghost all = text::texts(patterns@);
        let ghost step = |g: FilterView, p: Seq<char>| g.with_regex(p, keep);
        let mut f = self;
        let mut i: usize = 0;
        assert(all.take(0) =~= Seq::<Seq<char>>::empty());
        while i < patterns.len()
            invariant
                i <= patterns.len(),
                all == text::texts(patterns@),
                step == (|g: FilterView, p: Seq<char>| g.with_regex(p, keep)),
                start == self@,
                step_all(start, all.take(i as int), step) == Ok::<FilterView, ErrorView>(f@),
            decreases patterns.len() - i,
        {
            assert(all.take(i + 1).drop_last() =~= all.take(i as int));
            assert(all.take(i + 1).last() == patterns@[i as int]@);
            let added = if keep {
                f.add_include(patterns[i].as_str())
            } else {
                f.add_exclude(patterns[i].as_str())
            };
            if let Err(e) = added {
                proof {
                    lemma_step_error(start, all, step, i + 1);
                }
                return Err(e);
            }
            i += 1;
        }
        assert(all.take(i as int) =~= all);
        Ok(f)
    }

    /// The filter with several `--filter` arguments more.
    fn plus_arguments(self, lines: &[String]) -> (r: Result<Self>)
        ensures
            built(r, with_arguments(self@, text::texts(lines@))),
    {
        let ghost start = self@;
        let ghost all = text::texts(lines@);
        let ghost step = |g: FilterView, l: Seq<char>| g.with_argument(l);
        let mut f = self;
        let mut i: usize = 0;
        assert(all.take(0) =~= Seq::<Seq<char>>::empty());
        while i < lines.len()
            invariant
                i <= lines.len(),
                all == text::texts(lines@),
                step == (|g: FilterView, l: Seq<char>| g.with_argument(l)),
                start == self@,
                step_all(start, all.take(i as int), step) == Ok::<FilterView, ErrorView>(f@),
            decreases lines.len() - i,
        {
            assert(all.take(i + 1).drop_last() =~= all.take(i as int));
            assert(all.take(i + 1).last() == lines@[i as int]@);
            if let Err(e) = f.add_filter_line(lines[i].as_str()) {
                proof {
                    lemma_step_error(start, all, step, i + 1);
                }
                return Err(e);
            }
            i += 1;
        }
        assert(all.take(i as int) =~= all);
        Ok(f)
    }

    /// The filter with several side files more.
    fn plus_side_files(self, files: &[RuleFile], keep: bool) -> (r: Result<Self>)
        ensures
            built(r, with_side_files(self@, files@, keep)),
    {
        let ghost start = self@;
        let ghost all = files@;
        let ghost step = |g: FilterView, x: RuleFile| MemberFilter::with_side_file(g, x, keep);
        let mut f = self;
        let mut i: usize = 0;
        assert(all.take(0) =~= Seq::<RuleFile>::empty());
        while i < files.len()
            invariant
                i <= files.len(),
                all == files@,
                step == (|g: FilterView, x: RuleFile| MemberFilter::with_side_file(g, x, keep)),
                start == self@,
                step_all(start, all.take(i as int), step) == Ok::<FilterView, ErrorView>(f@),
            decreases files.len() - i,
        {
            assert(all.take(i + 1).drop_last() =~= all.take(i as int));
            assert(all.take(i + 1).last() == files@[i as int]);
            let added = if keep {
                f.add_include_from(&files[i])
            } else {
                f.add_exclude_from(&files[i])
            };
            if let Err(e) = added {
                proof {
                    lemma_step_error(start, all, step, i + 1);
                }
                return Err(e);
            }
            i += 1;
        }
        assert(all.take(i as int) =~= all);
        Ok(f)
    }

    /// The filter with several filter files more.
    fn plus_filter_files(self, files: &[Result<Vec<ParsedFilterLine>>]) -> (r: Result<Self>)
        ensures
            built(r, with_filter_files(self@, files@)),
    {
        let ghost start = self@;
        let ghost all = files@;
        let ghost step = |g: FilterView, x: Result<Vec<ParsedFilterLine>>| with_filter_file(g, x);
        let mut f = self;
        let mut i: usize = 0;
        assert(all.take(0) =~= Seq::<Result<Vec<ParsedFilterLine>>>::empty());
        while i < files.len()
            invariant
                i <= files.len(),
                all == files@,
                step == (|g: FilterView, x: Result<Vec<ParsedFilterLine>>| with_filter_file(g, x)),
                start == self@,
                step_all(start, all.take(i as int), step) == Ok::<FilterView, ErrorView>(f@),
            decreases files.len() - i,
        {
            assert(all.take(i + 1).drop_last() =~= all.take(i as int));
            assert(all.take(i + 1).last() == files@[i as int]);
            match &files[i] {
                Ok(lines) => {
                    f.add_filter_from(lines.as_slice());
                },
                Err(e) => {
                    proof {
                        lemma_step_error(start, all, step, i + 1);
                    }
                    return Err(e.copy());
                },
            }
            i += 1;
        }
        assert(all.take(i as int) =~= all);
        Ok(f)
    }

    /// A filter of regular expressions that drop what they match.
    pub fn with_excludes(patterns: &[String]) -> (r: Result<Self>)
        ensures
            built(
                r,
                with_regexes(
                    (FilterView { rules: Seq::empty(), basename_only: false }),
                    text::texts(patterns@),
                    false,
                ),
            ),
    {
        MemberFilter::new().plus_regexes(patterns, false)
    }

    /// A filter of regular expressions that keep what they match.
    pub fn with_includes(patterns: &[String]) -> (r: Result<Self>)
        ensures
            built(
                r,
                with_regexes(
                    (FilterView { rules: Seq::empty(), basename_only: false }),
                    text::texts(patterns@),
                    true,
                ),
            ),
    {
        MemberFilter::new().plus_regexes(patterns, true)
    }

    /// The filter that the pieces of a command line make: filter files, then filter arguments,
    /// include files, exclude files, keeping expressions and dropping expressions.
    pub fn from_cli(
        filter_from: &[Result<Vec<ParsedFilterLine>>],
        filter_lines: &[String],
        include_from: &[RuleFile],
        exclude_from: &[RuleFile],
        regex_includes: &[String],
        regex_excludes: &[String],
        basename_only: bool,
    ) -> (r: Result<Self>)
        ensures
            built(
                r,
                cli_filter(
                    filter_from@,
                    text::texts(filter_lines@),
                    include_from@,
                    exclude_from@,
                    text::texts(regex_includes@),
                    text::texts(regex_excludes@),
                    basename_only,
                ),
            ),
    {
        let a = match MemberFilter::new().plus_filter_files(filter_from) {
            Ok(f) => f,
            Err(e) => {
                return Err(e);
            },
        };
        let b = match a.plus_arguments(filter_lines) {
            Ok(f) => f,
            Err(e) => {
                return Err(e);
            },
        };
        let c = match b.plus_side_files(include_from, true) {
            Ok(f) => f,
            Err(e) => {
                return Err(e);
            },
        };
        let d = match c.plus_side_files(exclude_from, false) {
            Ok(f) => f,
            Err(e) => {
                return Err(e);
            },
        };
        let g = match d.plus_regexes(regex_includes, true) {
            Ok(f) => f,
            Err(e) => {
                return Err(e);
            },
        };
        match g.plus_regexes(regex_excludes, false) {
            Ok(f) => Ok(f.basename_only(basename_only)),
            Err(e) => Err(e),
        }
    }
}

proof fn lemma_globs_none(rules: Seq<RuleView>, basename_only: bool, n: int)
    requires
        0 <= n <= rules.len(),
        rule_globs(rules.take(n), basename_only) is None,
    ensures
        rule_globs(rules, basename_only) is None,
    decreases rules.len(),
{
    if n < rules.len() {
        assert(rules.drop_last().take(n) =~= rules.take(n));
        lemma_globs_none(rules.drop_last(), basename_only, n);
    } else {
        assert(rules.take(n) =~= rules);
    }
}

} // verus!
