//! Filter rules in the manner of `rsync`: patterns, and the lines of filter files.
//!
//! - A pattern without `/` (other than at its end) is matched against the base name; one with
//!   `/` or `**`, or with `/` in front, against the whole normalized path.
//! - A trailing `/` restricts a pattern to directories.
//! - `*` takes any run of characters without `/`, `**` any run, `?` one character but `/`.
//! - A trailing `***` takes the directory in front of it and everything below.

use crate::error::{invalid_filter, Error, ErrorView, Result};
use crate::filter::glob;
use crate::filter::glob::{copy_toks, match_tokens, tokenize, Tok, TokView};
use crate::filter::wild;
use crate::util::pathnorm;
use crate::util::pathnorm::{member_basename, normalize_member_path};
use crate::util::text;
use crate::util::text::{
    begins_with, chars_of, concat2, concat3, copy_str, ends_with, from_pos, has_char, has_text, is_text,
    string_of, to_lower, trimmed, up_to, without_back, without_back_text,
};
use vstd::prelude::*;

verus! {

/// One compiled pattern.
#[derive(Debug)]
pub struct RsyncPattern {
    /// The pattern as it was written, without a `+` or `-` in front.
    pub original: String,
    /// `true` keeps what the pattern matches, `false` drops it.
    pub keep: bool,
    /// The tokens of the pattern.
    pub tokens: Vec<Tok>,
    /// Matched against the base name alone.
    pub basename_only: bool,
    /// Matches directories alone.
    pub dir_only: bool,
    /// Takes a directory with everything below it.
    pub triple_star: bool,
}

/// The contents of an [`RsyncPattern`].
#[verifier::ext_equal]
pub struct PatternView {
    pub original: Seq<char>,
    pub keep: bool,
    pub tokens: Seq<TokView>,
    pub basename_only: bool,
    pub dir_only: bool,
    pub triple_star: bool,
}

impl View for RsyncPattern {
    type V = PatternView;

    open spec fn view(&self) -> PatternView {
        PatternView {
            original: self.original@,
            keep: self.keep,
            tokens: glob::tok_views(self.tokens@),
            basename_only: self.basename_only,
            dir_only: self.dir_only,
            triple_star: self.triple_star,
        }
    }
}

/// The views of a sequence of patterns.
pub open spec fn pattern_views(v: Seq<RsyncPattern>) -> Seq<PatternView> {
    v.map_values(|p: RsyncPattern| p@)
}

/// The pattern that a text writes, or why it writes none.
pub open spec fn parsed_pattern(pattern: Seq<char>, keep: bool) -> std::result::Result<
    PatternView,
    ErrorView,
> {
    let whole = text::trim(pattern);
    let triple_star = text::ends(whole, "***"@);
    let bare = if triple_star {
        text::strip_back(text::strip_back_text(whole, "***"@), '/')
    } else {
        whole
    };
    let dir_only = !triple_star && bare.len() > 0 && bare.last() == '/';
    let path = if dir_only {
        text::strip_back(bare, '/')
    } else {
        bare
    };
    let anchored = path.len() > 0 && path[0] == '/';
    let body = if anchored {
        path.skip(1)
    } else {
        path
    };
    if whole.len() == 0 {
        Err(ErrorView::InvalidFilter { rule: pattern, message: "empty rsync pattern"@ })
    } else {
        match glob::tokens_of(body) {
            Err(message) => Err(ErrorView::InvalidFilter { rule: pattern, message }),
            Ok(tokens) => Ok(
                PatternView {
                    original: pattern,
                    keep,
                    tokens,
                    basename_only: !anchored && !body.contains('/') && !text::occurs(body, "**"@)
                        && !triple_star,
                    dir_only,
                    triple_star,
                },
            ),
        }
    }
}

/// Whether the tokens match `p` or a directory that `p` is below.
pub open spec fn covers(tokens: Seq<TokView>, p: Seq<char>) -> bool {
    exists|n: int|
        0 <= n <= p.len() && (n == p.len() || p[n] == '/') && glob::glob(
            tokens,
            #[trigger] p.take(n),
        )
}

impl PatternView {
    /// Whether the pattern matches `path`, which is a directory or not.
    pub open spec fn matches(self, path: Seq<char>, is_dir: bool) -> bool {
        let p = pathnorm::normalized(path);
        &&& p.len() > 0
        &&& self.dir_only ==> is_dir
        &&& if self.triple_star {
            self.tokens.len() == 0 || covers(self.tokens, p)
        } else if self.basename_only {
            glob::glob(self.tokens, pathnorm::base_name(p))
        } else {
            glob::glob(self.tokens, p)
        }
    }
}

impl Clone for RsyncPattern {
    fn clone(&self) -> (r: Self)
        ensures
            r@ == self@,
    {
        RsyncPattern {
            original: self.original.clone(),
            keep: self.keep,
            tokens: copy_toks(&self.tokens),
            basename_only: self.basename_only,
            dir_only: self.dir_only,
            triple_star: self.triple_star,
        }
    }
}

/// Whether the tokens match `p` or a directory that `p` is below.
fn covered(tokens: &[Tok], p: &[char]) -> (r: bool)
    ensures
        r == covers(glob::tok_views(tokens@), p@),
{
    let ghost toks = glob::tok_views(tokens@);
    let mut n: usize = 0;
    loop
        invariant
            n <= p.len(),
            toks == glob::tok_views(tokens@),
            forall|k: int|
                0 <= k < n ==> !((k == p@.len() || p@[k] == '/') && glob::glob(
                    toks,
                    #[trigger] p@.take(k),
                )),
        decreases p.len() - n,
    {
        if n == p.len() || p[n] == '/' {
            if match_tokens(tokens, up_to(p, n)) {
                return true;
            }
        }
        if n == p.len() {
            return false;
        }
        n += 1;
    }
}

impl RsyncPattern {
    /// Reads a pattern (without `+` or `-` in front).
    pub fn parse(pattern: &str, keep: bool) -> (r: Result<Self>)
        ensures
            match r {
                Ok(p) => parsed_pattern(pattern@, keep) == Ok::<PatternView, ErrorView>(p@),
                Err(e) => parsed_pattern(pattern@, keep) == Err::<PatternView, ErrorView>(e@),
            },
    {
        let raw = chars_of(pattern);
        let whole = trimmed(raw.as_slice());
        if whole.len() == 0 {
            return Err(invalid_filter(pattern, "empty rsync pattern"));
        }
        let triple_star = ends_with(whole, "***");
        let bare = if triple_star {
            without_back(without_back_text(whole, "***"), '/')
        } else {
            whole
        };
        let dir_only = !triple_star && bare.len() > 0 && bare[bare.len() - 1] == '/';
        let path = if dir_only {
            without_back(bare, '/')
        } else {
            bare
        };
        let anchored = path.len() > 0 && path[0] == '/';
        let body = if anchored {
            from_pos(path, 1)
        } else {
            path
        };
        let basename_only = !anchored && !has_char(body, '/') && !has_text(body, "**")
            && !triple_star;
        match tokenize(body) {
            Err(message) => Err(Error::InvalidFilter { rule: copy_str(pattern), message }),
            Ok(tokens) => Ok(
                RsyncPattern {
                    original: copy_str(pattern),
                    keep,
                    tokens,
                    basename_only,
                    dir_only,
                    triple_star,
                },
            ),
        }
    }

    /// Whether this pattern matches `path`, which is a directory or not.
    pub fn matches(&self, path: &str, is_dir: bool) -> (r: bool)
        ensures
            r == self@.matches(path@, is_dir),
    {
        let norm = normalize_member_path(path);
        let chars = chars_of(norm.as_str());
        if chars.len() == 0 {
            return false;
        }
        if self.dir_only && !is_dir {
            return false;
        }
        if self.triple_star {
            return self.tokens.len() == 0 || covered(self.tokens.as_slice(), chars.as_slice());
        }
        if self.basename_only {
            let base = chars_of(member_basename(norm.as_str()).as_str());
            match_tokens(self.tokens.as_slice(), base.as_slice())
        } else {
            match_tokens(self.tokens.as_slice(), chars.as_slice())
        }
    }
}

// ---------------------------------------------------------------------------------------------
// Filter lines
// ---------------------------------------------------------------------------------------------
/// What one line of a filter file says.
#[derive(Debug)]
pub enum ParsedFilterLine {
    /// Adds a rule.
    Rule(RsyncPattern),
    /// Reads another filter file at this place.
    Merge(String),
    /// Forgets the rules so far.
    Clear,
}

/// The contents of a [`ParsedFilterLine`].
#[verifier::ext_equal]
pub enum LineView {
    Rule(PatternView),
    Merge(Seq<char>),
    Clear,
}

impl View for ParsedFilterLine {
    type V = LineView;

    open spec fn view(&self) -> LineView {
        match *self {
            ParsedFilterLine::Rule(p) => LineView::Rule(p@),
            ParsedFilterLine::Merge(p) => LineView::Merge(p@),
            ParsedFilterLine::Clear => LineView::Clear,
        }
    }
}

impl Clone for ParsedFilterLine {
    fn clone(&self) -> (r: Self)
        ensures
            r@ == self@,
    {
        match self {
            ParsedFilterLine::Rule(p) => ParsedFilterLine::Rule(p.clone()),
            ParsedFilterLine::Merge(p) => ParsedFilterLine::Merge(copy_str(p.as_str())),
            ParsedFilterLine::Clear => ParsedFilterLine::Clear,
        }
    }
}

/// The views of a sequence of lines.
pub open spec fn line_views(v: Seq<ParsedFilterLine>) -> Seq<LineView> {
    v.map_values(|l: ParsedFilterLine| l@)
}

/// What kind of rule a line starts with.
#[derive(Debug, Clone, Copy, PartialEq, Eq, Structural)]
pub enum RuleKind {
    Keep,
    Drop,
    Merge,
    Ignore,
    Bare,
}

/// The line without white space around it; nothing where it is a comment.
pub open spec fn line_body(line: Seq<char>) -> Seq<char> {
    let t = text::trim(line);
    if t.len() > 0 && (t[0] == '#' || t[0] == ';') {
        Seq::empty()
    } else {
        t
    }
}

/// A one-letter rule has white space as its second character.
pub open spec fn one_letter_rule(line: Seq<char>) -> bool {
    line.len() >= 2 && (line[1] == ' ' || line[1] == '\t' || line[1] == '\n' || line[1] == '\r'
        || line[1] == '\x0C')
}

/// The kind of a rule and what follows its prefix.
pub open spec fn rule_prefix(line: Seq<char>) -> (RuleKind, Seq<char>) {
    let c = line[0];
    let rest = line.skip(1);
    let one = one_letter_rule(line);
    let low = text::lower(line);
    if line.len() == 0 {
        (RuleKind::Bare, line)
    } else if c == '+' {
        (RuleKind::Keep, rest)
    } else if c == '-' {
        (RuleKind::Drop, rest)
    } else if c == '.' || c == ':' {
        (RuleKind::Merge, rest)
    } else if one && (c == 'H' || c == 'h') {
        (RuleKind::Drop, rest)
    } else if one && (c == 'S' || c == 's') {
        (RuleKind::Keep, rest)
    } else if one && (c == 'P' || c == 'p' || c == 'R' || c == 'r' || c == 'C' || c == 'c') {
        (RuleKind::Ignore, rest)
    } else if text::begins(low, "include "@) {
        (RuleKind::Keep, line.skip("include "@.len() as int))
    } else if text::begins(low, "exclude "@) {
        (RuleKind::Drop, line.skip("exclude "@.len() as int))
    } else if text::begins(low, "merge "@) {
        (RuleKind::Merge, line.skip("merge "@.len() as int))
    } else if text::begins(low, "dir-merge "@) {
        (RuleKind::Merge, line.skip("dir-merge "@.len() as int))
    } else if text::begins(low, "hide "@) {
        (RuleKind::Drop, line.skip("hide "@.len() as int))
    } else if text::begins(low, "show "@) {
        (RuleKind::Keep, line.skip("show "@.len() as int))
    } else if text::begins(low, "protect "@) {
        (RuleKind::Ignore, line.skip("protect "@.len() as int))
    } else if text::begins(low, "risk "@) {
        (RuleKind::Ignore, line.skip("risk "@.len() as int))
    } else {
        (RuleKind::Bare, line)
    }
}

/// A rule line made of a pattern.
pub open spec fn rule_of(
    p: std::result::Result<PatternView, ErrorView>,
) -> std::result::Result<Option<LineView>, ErrorView> {
    match p {
        Ok(v) => Ok(Some(LineView::Rule(v))),
        Err(e) => Err(e),
    }
}

/// What a line of a filter file says: nothing (a comment, an empty line, or a rule that does not
/// apply to archives), a rule, a merge, or that the rules so far are forgotten.
pub open spec fn parsed_line(line: Seq<char>) -> std::result::Result<Option<LineView>, ErrorView> {
    let body = line_body(line);
    let (kind, rest) = rule_prefix(body);
    let arg = text::trim(rest);
    if body.len() == 0 {
        Ok(None)
    } else if body == "!"@ || text::lower(body) == "clear"@ {
        Ok(Some(LineView::Clear))
    } else {
        match kind {
            RuleKind::Merge => if arg.len() == 0 {
                Err(ErrorView::InvalidFilter { rule: body, message: "merge path is empty"@ })
            } else {
                Ok(Some(LineView::Merge(arg)))
            },
            RuleKind::Keep | RuleKind::Drop => if arg.len() == 0 {
                Err(ErrorView::InvalidFilter { rule: body, message: "pattern is empty"@ })
            } else {
                rule_of(parsed_pattern(arg, kind is Keep))
            },
            RuleKind::Ignore => Ok(None),
            RuleKind::Bare => rule_of(parsed_pattern(body, false)),
        }
    }
}

/// The line without white space around it; nothing where it is a comment.
pub fn strip_comment(line: &[char]) -> (r: &[char])
    ensures
        r@ == line_body(line@),
{
    let t = trimmed(line);
    if t.len() > 0 && (t[0] == '#' || t[0] == ';') {
        let r = text::up_to(t, 0);
        assert(r@ =~= Seq::<char>::empty());
        r
    } else {
        t
    }
}

/// Whether a one-letter rule letter is followed by white space (`H x` is a rule, `Hello` is not).
fn is_single_char_rule(line: &[char]) -> (r: bool)
    ensures
        r == one_letter_rule(line@),
{
    line.len() >= 2 && (line[1] == ' ' || line[1] == '\t' || line[1] == '\n' || line[1] == '\r'
        || line[1] == '\x0C')
}

/// The rest of `line` behind the keyword `kw`, where its lower-case form begins with it.
fn after_keyword<'a>(line: &'a [char], low: &[char], kw: &str) -> (r: Option<&'a [char]>)
    requires
        low@ == text::lower(line@),
    ensures
        match r {
            Some(rest) => text::begins(low@, kw@) && rest@ == line@.skip(kw@.len() as int),
            None => !text::begins(low@, kw@),
        },
{
    if begins_with(low, kw) {
        let n: usize = chars_of(kw).len();
        Some(from_pos(line, n))
    } else {
        None
    }
}

/// Splits a line into the kind of rule and what follows its prefix.
fn split_rule_prefix(line: &[char]) -> (r: (RuleKind, &[char]))
    ensures
        (r.0, r.1@) == rule_prefix(line@),
{
    if line.len() == 0 {
        return (RuleKind::Bare, line);
    }
    let c = line[0];
    let rest = from_pos(line, 1);
    let one = is_single_char_rule(line);
    if c == '+' {
        return (RuleKind::Keep, rest);
    }
    if c == '-' {
        return (RuleKind::Drop, rest);
    }
    if c == '.' || c == ':' {
        return (RuleKind::Merge, rest);
    }
    if one && (c == 'H' || c == 'h') {
        return (RuleKind::Drop, rest);
    }
    if one && (c == 'S' || c == 's') {
        return (RuleKind::Keep, rest);
    }
    if one && (c == 'P' || c == 'p' || c == 'R' || c == 'r' || c == 'C' || c == 'c') {
        return (RuleKind::Ignore, rest);
    }
    let low = to_lower(line);
    if let Some(arg) = after_keyword(line, low.as_slice(), "include ") {
        return (RuleKind::Keep, arg);
    }
    if let Some(arg) = after_keyword(line, low.as_slice(), "exclude ") {
        return (RuleKind::Drop, arg);
    }
    if let Some(arg) = after_keyword(line, low.as_slice(), "merge ") {
        return (RuleKind::Merge, arg);
    }
    if let Some(arg) = after_keyword(line, low.as_slice(), "dir-merge ") {
        return (RuleKind::Merge, arg);
    }
    if let Some(arg) = after_keyword(line, low.as_slice(), "hide ") {
        return (RuleKind::Drop, arg);
    }
    if let Some(arg) = after_keyword(line, low.as_slice(), "show ") {
        return (RuleKind::Keep, arg);
    }
    if let Some(arg) = after_keyword(line, low.as_slice(), "protect ") {
        return (RuleKind::Ignore, arg);
    }
    if let Some(arg) = after_keyword(line, low.as_slice(), "risk ") {
        return (RuleKind::Ignore, arg);
    }
    (RuleKind::Bare, line)
}

/// Reads one line of a filter file or one `--filter` argument.
pub fn parse_filter_line(line: &str) -> (r: Result<Option<ParsedFilterLine>>)
    ensures
        match r {
            Ok(None) => parsed_line(line@) == Ok::<Option<LineView>, ErrorView>(None),
            Ok(Some(l)) => parsed_line(line@) == Ok::<Option<LineView>, ErrorView>(Some(l@)),
            Err(e) => parsed_line(line@) == Err::<Option<LineView>, ErrorView>(e@),
        },
{
    let raw = chars_of(line);
    let body = strip_comment(raw.as_slice());
    if body.len() == 0 {
        return Ok(None);
    }
    let low = to_lower(body);
    if is_text(body, "!") || is_text(low.as_slice(), "clear") {
        return Ok(Some(ParsedFilterLine::Clear));
    }
    let (kind, rest) = split_rule_prefix(body);
    let arg = string_of(trimmed(rest));
    let arg_empty = trimmed(rest).len() == 0;
    let rule = string_of(body);
    match kind {
        RuleKind::Merge => {
            if arg_empty {
                return Err(invalid_filter(rule.as_str(), "merge path is empty"));
            }
            Ok(Some(ParsedFilterLine::Merge(arg)))
        },
        RuleKind::Keep | RuleKind::Drop => {
            if arg_empty {
                return Err(invalid_filter(rule.as_str(), "pattern is empty"));
            }
            let keep = kind == RuleKind::Keep;
            match RsyncPattern::parse(arg.as_str(), keep) {
                Ok(p) => Ok(Some(ParsedFilterLine::Rule(p))),
                Err(e) => Err(e),
            }
        },
        RuleKind::Ignore => Ok(None),
        RuleKind::Bare => match RsyncPattern::parse(rule.as_str(), false) {
            Ok(p) => Ok(Some(ParsedFilterLine::Rule(p))),
            Err(e) => Err(e),
        },
    }
}

// ---------------------------------------------------------------------------------------------
// Side files: one pattern per line
// ---------------------------------------------------------------------------------------------
/// The side and the pattern of a line that is neither empty nor a comment. `+` or `-` in front
/// overrides the side of the file.
pub open spec fn side_rule(line: Seq<char>, keep: bool) -> (bool, Seq<char>) {
    if line.len() > 0 && line[0] == '+' {
        (true, text::trim(line.skip(1)))
    } else if line.len() > 0 && line[0] == '-' {
        (false, text::trim(line.skip(1)))
    } else {
        (keep, line)
    }
}

/// What is said of an empty pattern on line `n` of the file `path`.
pub open spec fn empty_side_message(path: Seq<char>, n: nat) -> Seq<char> {
    "empty pattern in "@ + path + " line "@ + text::number_text(n)
}

/// The patterns of the first lines of a side file, or the first error.
pub open spec fn side_patterns(
    lines: Seq<Seq<char>>,
    path: Seq<char>,
    keep: bool,
) -> std::result::Result<Seq<PatternView>, ErrorView>
    decreases lines.len(),
{
    if lines.len() == 0 {
        Ok(Seq::empty())
    } else {
        let line = line_body(lines.last());
        let (side, pat) = side_rule(line, keep);
        match side_patterns(lines.drop_last(), path, keep) {
            Err(e) => Err(e),
            Ok(v) => if line.len() == 0 {
                Ok(v)
            } else if pat.len() == 0 {
                Err(
                    ErrorView::InvalidFilter {
                        rule: line,
                        message: empty_side_message(path, lines.len()),
                    },
                )
            } else {
                match parsed_pattern(pat, side) {
                    Ok(p) => Ok(v.push(p)),
                    Err(e) => Err(e),
                }
            },
        }
    }
}

/// Once a line of a side file cannot be read, the file cannot.
proof fn lemma_side_error(lines: Seq<Seq<char>>, path: Seq<char>, keep: bool, n: int)
    requires
        0 <= n <= lines.len(),
        side_patterns(lines.take(n), path, keep) is Err,
    ensures
        side_patterns(lines, path, keep) == side_patterns(lines.take(n), path, keep),
    decreases lines.len(),
{
    if n < lines.len() {
        assert(lines.drop_last().take(n) =~= lines.take(n));
        lemma_side_error(lines.drop_last(), path, keep, n);
    } else {
        assert(lines.take(n) =~= lines);
    }
}

/// Reads the text of a side file (`--exclude-from`, `--include-from`): one pattern per line.
pub fn parse_side_text(content: &str, path: &str, keep: bool) -> (r: Result<Vec<RsyncPattern>>)
    ensures
        match r {
            Ok(v) => side_patterns(text::lines(content@), path@, keep) == Ok::<
                Seq<PatternView>,
                ErrorView,
            >(pattern_views(v@)),
            Err(e) => side_patterns(text::lines(content@), path@, keep) == Err::<
                Seq<PatternView>,
                ErrorView,
            >(e@),
        },
{
    let raw = chars_of(content);
    let lines = text::lines_of(raw.as_slice());
    let ghost all = text::lines(content@);
    let mut out: Vec<RsyncPattern> = Vec::new();
    let mut i: usize = 0;
    assert(pattern_views(out@) =~= Seq::<PatternView>::empty());
    assert(all.take(0) =~= Seq::<Seq<char>>::empty());
    while i < lines.len()
        invariant
            i <= lines.len(),
            all == text::rows(lines@),
            side_patterns(all.take(i as int), path@, keep) == Ok::<Seq<PatternView>, ErrorView>(
                pattern_views(out@),
            ),
            all == text::lines(content@),
        decreases lines.len() - i,
    {
        let ghost upto = all.take(i + 1);
        assert(upto.drop_last() =~= all.take(i as int));
        assert(upto.last() == lines@[i as int]@);
        let line = strip_comment(lines[i].as_slice());
        if line.len() > 0 {
            let (side, pat): (bool, &[char]) = if line[0] == '+' {
                (true, trimmed(from_pos(line, 1)))
            } else if line[0] == '-' {
                (false, trimmed(from_pos(line, 1)))
            } else {
                (keep, line)
            };
            if pat.len() == 0 {
                let number = text::show_u64(i as u64 + 1);
                let message = text::concat4("empty pattern in ", path, " line ", number.as_str());
                proof {
                    lemma_side_error(all, path@, keep, i + 1);
                }
                return Err(Error::InvalidFilter { rule: string_of(line), message });
            }
            match RsyncPattern::parse(string_of(pat).as_str(), side) {
                Ok(p) => {
                    let ghost before = out@;
                    let ghost pv = p@;
                    out.push(p);
                    assert(pattern_views(out@) =~= pattern_views(before).push(pv));
                },
                Err(e) => {
                    proof {
                        lemma_side_error(all, path@, keep, i + 1);
                    }
                    return Err(e);
                },
            }
        }
        i += 1;
    }
    assert(all.take(i as int) =~= all);
    Ok(out)
}

// ---------------------------------------------------------------------------------------------
// Exclusion globs of the 7z program
// ---------------------------------------------------------------------------------------------
/// Sets of plain characters.
#[derive(Debug, Clone, Copy, PartialEq, Eq, Structural)]
pub enum CharSet {
    /// ASCII letters and digits.
    Alnum,
    /// ... and `_`, `-`.
    Word,
    /// ... and `.`.
    Name,
    /// ... and `/`.
    Path,
}

impl CharSet {
    /// `c` belongs to the set.
    pub open spec fn has(self, c: char) -> bool {
        ||| text::is_alnum(c)
        ||| self !is Alnum && (c == '_' || c == '-')
        ||| (self is Name || self is Path) && c == '.'
        ||| self is Path && c == '/'
    }

    /// Every character of `s` belongs to the set.
    pub open spec fn has_all(self, s: Seq<char>) -> bool {
        forall|i: int| 0 <= i < s.len() ==> self.has(#[trigger] s[i])
    }
}

/// Whether every character of `s` belongs to `set`.
pub fn only_chars(s: &[char], set: CharSet) -> (r: bool)
    ensures
        r == set.has_all(s@),
{
    let mut i: usize = 0;
    while i < s.len()
        invariant
            i <= s.len(),
            forall|k: int| 0 <= k < i ==> set.has(#[trigger] s@[k]),
        decreases s.len() - i,
    {
        let c = s[i];
        let ok = text::alnum_char(c) || match set {
            CharSet::Alnum => false,
            CharSet::Word => c == '_' || c == '-',
            CharSet::Name => c == '_' || c == '-' || c == '.',
            CharSet::Path => c == '_' || c == '-' || c == '.' || c == '/',
        };
        if !ok {
            assert(!set.has(s@[i as int]));
            return false;
        }
        i += 1;
    }
    true
}

/// The text that tokens spell, where all of them are plain characters.
pub open spec fn spelled(tokens: Seq<TokView>) -> Option<Seq<char>>
    decreases tokens.len(),
{
    if tokens.len() == 0 {
        Some(Seq::empty())
    } else {
        match (spelled(tokens.drop_last()), tokens.last()) {
            (Some(t), TokView::Lit(c)) => Some(t.push(c)),
            _ => None,
        }
    }
}

impl PatternView {
    /// The exclusion globs for the text `t` of a pattern without wildcards.
    pub open spec fn text_globs(self, t: Seq<char>) -> Option<Seq<Seq<char>>> {
        if t.len() == 0 || !wild::literal(t) || (self.triple_star || self.dir_only) && text::occurs(
            t,
            ".."@,
        ) {
            None
        } else if self.triple_star {
            if self.dir_only {
                None
            } else {
                Some(seq![t, t + "/*"@])
            }
        } else if !CharSet::Path.has_all(t) {
            None
        } else if self.basename_only {
            if t.contains('/') {
                None
            } else if self.dir_only {
                Some(seq![t + "/*"@, "*/"@ + t + "/*"@])
            } else {
                Some(seq![t, "*/"@ + t, t + "/*"@, "*/"@ + t + "/*"@])
            }
        } else if self.dir_only {
            Some(seq![t + "/*"@])
        } else {
            None
        }
    }

    /// The exclusion globs that drop the files that the pattern drops, itself or by a directory on
    /// the way to them; `None` where the pattern has none of the simple forms `name`, `dir/`,
    /// `*.ext` and `dir/***`.
    pub open spec fn globs(self) -> Option<Seq<Seq<char>>> {
        let o = self.original;
        if o.contains('?') || o.contains('[') || o.contains('\\') {
            None
        } else {
            match spelled(self.tokens) {
                Some(t) => self.text_globs(t),
                None => match spelled(self.tokens.skip(1)) {
                    Some(t) => if self.tokens[0] == TokView::Star && self.basename_only
                        && !self.dir_only && !self.triple_star && t.len() > 1 && t[0] == '.'
                        && CharSet::Word.has_all(t.skip(1)) {
                        Some(seq!["*"@ + t, "*"@ + t + "/*"@])
                    } else {
                        None
                    },
                    None => None,
                },
            }
        }
    }
}

/// The exclusion globs for the pattern that a text writes.
pub open spec fn pattern_globs(pattern: Seq<char>) -> Option<Seq<Seq<char>>> {
    match parsed_pattern(pattern, false) {
        Ok(p) => p.globs(),
        Err(_) => None,
    }
}

/// The text that tokens spell, where all of them are plain characters.
fn spell(tokens: &[Tok]) -> (r: Option<String>)
    ensures
        match r {
            Some(t) => spelled(glob::tok_views(tokens@)) == Some(t@),
            None => spelled(glob::tok_views(tokens@)) is None,
        },
{
    let ghost toks = glob::tok_views(tokens@);
    let mut s = String::new();
    let mut i: usize = 0;
    while i < tokens.len()
        invariant
            i <= tokens.len(),
            toks == glob::tok_views(tokens@),
            spelled(toks.take(i as int)) == Some(s@),
        decreases tokens.len() - i,
    {
        assert(toks.take(i + 1).drop_last() =~= toks.take(i as int));
        assert(toks.take(i + 1).last() == tokens@[i as int]@);
        match &tokens[i] {
            Tok::Lit(c) => {
                s.push(*c);
            },
            _ => {
                proof {
                    lemma_not_spelled(toks, i + 1);
                }
                return None;
            },
        }
        i += 1;
    }
    assert(toks.take(i as int) =~= toks);
    Some(s)
}

proof fn lemma_not_spelled(toks: Seq<TokView>, n: int)
    requires
        0 <= n <= toks.len(),
        spelled(toks.take(n)) is None,
    ensures
        spelled(toks) is None,
    decreases toks.len(),
{
    if n == toks.len() {
        assert(toks.take(n) =~= toks);
    } else {
        assert(toks.drop_last().take(n) =~= toks.take(n));
        lemma_not_spelled(toks.drop_last(), n);
    }
}

/// Whether `t` holds no wildcard of the 7z program.
fn is_literal(t: &[char]) -> (r: bool)
    ensures
        r == wild::literal(t@),
{
    let star = has_char(t, '*');
    let ques = has_char(t, '?');
    !star && !ques
}

/// A vector of one string.
pub fn one_string(a: String) -> (r: Vec<String>)
    ensures
        text::texts(r@) == seq![a@],
{
    let mut v: Vec<String> = Vec::new();
    v.push(a);
    assert(text::texts(v@) =~= seq![a@]);
    v
}

/// A vector of two strings.
pub fn two_strings(a: String, b: String) -> (r: Vec<String>)
    ensures
        text::texts(r@) == seq![a@, b@],
{
    let mut v: Vec<String> = Vec::new();
    v.push(a);
    v.push(b);
    assert(text::texts(v@) =~= seq![a@, b@]);
    v
}

impl RsyncPattern {
    /// The exclusion globs for the text `t` of a pattern without wildcards.
    fn text_globs(&self, t: &str) -> (r: Option<Vec<String>>)
        ensures
            match r {
                Some(v) => self@.text_globs(t@) == Some(text::texts(v@)),
                None => self@.text_globs(t@) is None,
            },
    {
        let chars = chars_of(t);
        let name = chars.as_slice();
        if name.len() == 0 || !is_literal(name) || ((self.triple_star || self.dir_only)
            && has_text(name, "..")) {
            return None;
        }
        let below = concat2(t, "/*");
        if self.triple_star {
            return if self.dir_only {
                None
            } else {
                Some(two_strings(copy_str(t), below))
            };
        }
        if !only_chars(name, CharSet::Path) {
            return None;
        }
        if !self.basename_only {
            return if self.dir_only {
                Some(one_string(below))
            } else {
                None
            };
        }
        if has_char(name, '/') {
            return None;
        }
        let deeper = concat3("*/", t, "/*");
        if self.dir_only {
            return Some(two_strings(below, deeper));
        }
        let mut v = two_strings(copy_str(t), concat2("*/", t));
        let ghost first = v@;
        v.push(below);
        v.push(deeper);
        assert(text::texts(v@) =~= text::texts(first).push(below@).push(deeper@));
        assert(text::texts(v@) =~= seq![
            t@,
            "*/"@ + t@,
            t@ + "/*"@,
            "*/"@ + t@ + "/*"@,
        ]);
        Some(v)
    }

    /// Maps the pattern to exclusion globs of the 7z program, where that is safe.
    pub fn exclude_globs(&self) -> (r: Option<Vec<String>>)
        ensures
            match r {
                Some(v) => self@.globs() == Some(text::texts(v@)),
                None => self@.globs() is None,
            },
    {
        let whole = chars_of(self.original.as_str());
        let o = whole.as_slice();
        if has_char(o, '?') || has_char(o, '[') || has_char(o, '\\') {
            return None;
        }
        if let Some(t) = spell(self.tokens.as_slice()) {
            return self.text_globs(t.as_str());
        }
        let ghost toks = glob::tok_views(self.tokens@);
        assert(self.tokens@.len() > 0);
        assert(glob::tok_views(self.tokens@.skip(1)) =~= toks.skip(1));
        assert(toks[0] == self.tokens@[0]@);
        let rest = spell(vstd::slice::slice_subrange(self.tokens.as_slice(), 1, self.tokens.len()));
        let star = match &self.tokens[0] {
            Tok::Star => true,
            _ => false,
        };
        match rest {
            Some(t) => {
                let chars = chars_of(t.as_str());
                if star && self.basename_only && !self.dir_only && !self.triple_star && chars.len()
                    > 1 && chars[0] == '.' && only_chars(
                    from_pos(chars.as_slice(), 1),
                    CharSet::Word,
                ) {
                    Some(
                        two_strings(concat2("*", t.as_str()), concat3("*", t.as_str(), "/*")),
                    )
                } else {
                    None
                }
            },
            None => None,
        }
    }
}

/// Maps a simple dropping pattern to exclusion globs of the 7z program, where that is safe.
pub fn rsync_exclude_to_7z_globs(pattern: &str) -> (r: Option<Vec<String>>)
    ensures
        match r {
            Some(v) => pattern_globs(pattern@) == Some(text::texts(v@)),
            None => pattern_globs(pattern@) is None,
        },
{
    match RsyncPattern::parse(pattern, false) {
        Ok(p) => p.exclude_globs(),
        Err(_) => None,
    }
}

} // verus!
