//! Which members a filter keeps, told from its rules one by one.

use crate::error::{ErrorView, Result};
use crate::filter::exclude_laws;
use crate::filter::laws;
use crate::filter::member;
use crate::filter::member::{FilterView, RuleFile, RuleView};
use crate::filter::plain;
use crate::filter::regexes;
use crate::filter::rsync;
use crate::filter::rsync::{CharSet, LineView, ParsedFilterLine, PatternView};
use crate::util::pathnorm;
use crate::util::text;
use vstd::prelude::*;

verus! {

// ---------------------------------------------------------------------------------------------
// What is kept
// ---------------------------------------------------------------------------------------------
/// Rule `k` is the first that matches the path, and it drops.
pub open spec fn dropped_by(f: FilterView, path: Seq<char>, is_dir: bool, k: int) -> bool {
    &&& 0 <= k < f.rules.len()
    &&& f.rules[k].matches(path, is_dir, f.basename_only)
    &&& !f.rules[k].keep()
    &&& forall|j: int| 0 <= j < k ==> !(#[trigger] f.rules[j]).matches(path, is_dir, f.basename_only)
}

/// Rule `k` is the first pattern that matches the directory, and it drops.
pub open spec fn pruned_by(f: FilterView, dir: Seq<char>, k: int) -> bool {
    &&& 0 <= k < f.rules.len()
    &&& f.rules[k] is Rsync && f.rules[k].matches(dir, true, false)
    &&& !f.rules[k].keep()
    &&& forall|j: int|
        0 <= j < k ==> !((#[trigger] f.rules[j]) is Rsync && f.rules[j].matches(dir, true, false))
}

/// The first rule that matches the path drops it.
pub open spec fn is_dropped(f: FilterView, path: Seq<char>, is_dir: bool) -> bool {
    exists|k: int| dropped_by(f, path, is_dir, k)
}

/// The first pattern that matches the directory drops it.
pub open spec fn is_pruned(f: FilterView, dir: Seq<char>) -> bool {
    exists|k: int| pruned_by(f, dir, k)
}

proof fn lemma_dropped(f: FilterView, path: Seq<char>, is_dir: bool)
    ensures
        member::first_match(f.rules, path, is_dir, f.basename_only) == Some(false) <==> is_dropped(
            f,
            path,
            is_dir,
        ),
    decreases f.rules.len(),
{
    let g = FilterView { rules: f.rules.skip(1), basename_only: f.basename_only };
    if f.rules.len() > 0 {
        lemma_dropped(g, path, is_dir);
        let hit = f.rules[0].matches(path, is_dir, f.basename_only);
        if hit && !f.rules[0].keep() {
            assert(dropped_by(f, path, is_dir, 0));
        }
        if !hit && is_dropped(g, path, is_dir) {
            let k = choose|k: int| dropped_by(g, path, is_dir, k);
            assert forall|j: int| 0 <= j < k + 1 implies !(#[trigger] f.rules[j]).matches(
                path,
                is_dir,
                f.basename_only,
            ) by {
                if j > 0 {
                    assert(g.rules[j - 1] == f.rules[j]);
                }
            }
            assert(f.rules[k + 1] == g.rules[k]);
            assert(dropped_by(f, path, is_dir, k + 1));
        }
        if is_dropped(f, path, is_dir) {
            let k = choose|k: int| dropped_by(f, path, is_dir, k);
            if k > 0 {
                assert(!f.rules[0].matches(path, is_dir, f.basename_only));
                assert forall|j: int| 0 <= j < k - 1 implies !(#[trigger] g.rules[j]).matches(
                    path,
                    is_dir,
                    g.basename_only,
                ) by {
                    assert(g.rules[j] == f.rules[j + 1]);
                }
                assert(g.rules[k - 1] == f.rules[k]);
                assert(dropped_by(g, path, is_dir, k - 1));
            }
        }
    }
}

proof fn lemma_pruned(f: FilterView, dir: Seq<char>)
    ensures
        member::first_rsync_match(f.rules, dir, true) == Some(false) <==> is_pruned(f, dir),
    decreases f.rules.len(),
{
    let g = FilterView { rules: f.rules.skip(1), basename_only: f.basename_only };
    if f.rules.len() > 0 {
        lemma_pruned(g, dir);
        let hit = f.rules[0] is Rsync && f.rules[0].matches(dir, true, false);
        if hit && !f.rules[0].keep() {
            assert(pruned_by(f, dir, 0));
        }
        if !hit && is_pruned(g, dir) {
            let k = choose|k: int| pruned_by(g, dir, k);
            assert forall|j: int| 0 <= j < k + 1 implies !((#[trigger] f.rules[j]) is Rsync
                && f.rules[j].matches(dir, true, false)) by {
                if j > 0 {
                    assert(g.rules[j - 1] == f.rules[j]);
                }
            }
            assert(f.rules[k + 1] == g.rules[k]);
            assert(pruned_by(f, dir, k + 1));
        }
        if is_pruned(f, dir) {
            let k = choose|k: int| pruned_by(f, dir, k);
            if k > 0 {
                assert(!(f.rules[0] is Rsync && f.rules[0].matches(dir, true, false)));
                assert forall|j: int| 0 <= j < k - 1 implies !((#[trigger] g.rules[j]) is Rsync
                    && g.rules[j].matches(dir, true, false)) by {
                    assert(g.rules[j] == f.rules[j + 1]);
                }
                assert(g.rules[k - 1] == f.rules[k]);
                assert(pruned_by(g, dir, k - 1));
            }
        }
    }
}

/// A directory on the way to the path is dropped by the first pattern that matches it.
pub open spec fn way_is_pruned(f: FilterView, path: Seq<char>) -> bool {
    exists|i: int| exclude_laws::dir_at(path, i) && is_pruned(f, #[trigger] path.take(i))
}

/// Law: a member is kept unless the first rule that matches it drops it, or the first pattern that
/// matches a directory on the way to it drops that; for a directory this holds of itself too. What
/// no rule matches is kept.
pub proof fn law_what_is_kept(f: FilterView, path: Seq<char>)
    requires
        exclude_laws::file_path(pathnorm::normalized(path)),
    ensures
        ({
            let p = pathnorm::normalized(path);
            &&& f.keeps(path, false) <==> !is_dropped(f, p, false) && !way_is_pruned(f, p)
            &&& f.keeps(path, true) <==> !is_dropped(f, p, true) && !way_is_pruned(f, p)
                && !is_pruned(f, p)
        }),
{
    reveal_strlit("/");
    assert("/"@ =~= seq!['/']);
    let p = pathnorm::normalized(path);
    let parts = member::path_parts(p);
    let n = parts.len() as int;
    lemma_dropped(f, p, false);
    lemma_dropped(f, p, true);
    lemma_pruned(f, p);
    exclude_laws::lemma_file_parts(p);
    laws::lemma_join_split(p, '/');
    assert(parts.take(n) =~= parts);
    assert(member::leading(parts, n) == p);
    if is_pruned(f, p) {
        let k = choose|k: int| pruned_by(f, p, k);
        assert(f.rules[k] is Rsync);
        assert(f.has_rsync());
    }
    if way_is_pruned(f, p) {
        let i = choose|i: int|
            exclude_laws::dir_at(p, i) && is_pruned(f, #[trigger] p.take(i));
        let m = exclude_laws::lemma_parts_of_dir(p, i);
        lemma_pruned(f, p.take(i));
        let k = choose|k: int| pruned_by(f, p.take(i), k);
        assert(f.rules[k] is Rsync);
        assert(f.has_rsync());
        assert(member::first_rsync_match(f.rules, member::leading(parts, m), true) == Some(false));
        assert(!f.reaches(path, false) && !f.reaches(path, true));
    } else {
        assert forall|m: int| 1 <= m < n implies member::first_rsync_match(
            f.rules,
            #[trigger] member::leading(parts, m),
            true,
        ) != Some(false) by {
            let i = exclude_laws::lemma_dir_of_parts(p, m);
            lemma_pruned(f, p.take(i));
        }
        assert(f.reaches(path, false));
        if !is_pruned(f, p) {
            assert(f.reaches(path, true));
        } else {
            assert(member::first_rsync_match(f.rules, member::leading(parts, n), true) == Some(
                false,
            ));
            assert(!f.reaches(path, true));
        }
    }
}

/// Law: a member without a path is not kept.
pub proof fn law_no_path_is_not_kept(f: FilterView, path: Seq<char>, is_dir: bool)
    requires
        pathnorm::normalized(path).len() == 0,
    ensures
        !f.keeps(path, is_dir),
{
}

/// Law: a filter does not tell paths apart that have the same normal form.
pub proof fn law_only_the_normal_form_counts(f: FilterView, a: Seq<char>, b: Seq<char>, is_dir: bool)
    requires
        pathnorm::normalized(a) == pathnorm::normalized(b),
    ensures
        f.keeps(a, is_dir) == f.keeps(b, is_dir),
{
}

/// Law: one more rule at the end of the list changes nothing for a member that an earlier rule
/// matches.
pub proof fn law_later_rules_do_not_overrule(
    f: FilterView,
    rule: RuleView,
    path: Seq<char>,
    is_dir: bool,
    k: int,
)
    requires
        rule is Regex,
        0 <= k < f.rules.len(),
        f.rules[k].matches(pathnorm::normalized(path), is_dir, f.basename_only),
    ensures
        f.with_rule(rule).keeps(path, is_dir) == f.keeps(path, is_dir),
{
    let g = f.with_rule(rule);
    let p = pathnorm::normalized(path);
    lemma_more_rules(f.rules, rule, p, is_dir, f.basename_only, k);
    let parts = member::path_parts(p);
    assert forall|m: int|
        member::first_rsync_match(g.rules, #[trigger] member::leading(parts, m), true)
            == member::first_rsync_match(f.rules, member::leading(parts, m), true) by {
        lemma_expression_is_no_pattern(f.rules, rule, member::leading(parts, m));
    }
    if f.has_rsync() {
        let i = choose|i: int| 0 <= i < f.rules.len() && (#[trigger] f.rules[i]) is Rsync;
        assert(g.rules[i] is Rsync);
    }
    if g.has_rsync() {
        let i = choose|i: int| 0 <= i < g.rules.len() && (#[trigger] g.rules[i]) is Rsync;
        assert(f.rules[i] is Rsync);
    }
}

proof fn lemma_more_rules(
    rules: Seq<RuleView>,
    rule: RuleView,
    p: Seq<char>,
    is_dir: bool,
    b: bool,
    k: int,
)
    requires
        0 <= k < rules.len(),
        rules[k].matches(p, is_dir, b),
    ensures
        member::first_match(rules.push(rule), p, is_dir, b) == member::first_match(
            rules,
            p,
            is_dir,
            b,
        ),
    decreases rules.len(),
{
    assert(rules.push(rule)[0] == rules[0]);
    if !rules[0].matches(p, is_dir, b) {
        assert(rules.push(rule).skip(1) =~= rules.skip(1).push(rule));
        assert(rules.skip(1)[k - 1] == rules[k]);
        lemma_more_rules(rules.skip(1), rule, p, is_dir, b, k - 1);
    }
}

proof fn lemma_expression_is_no_pattern(rules: Seq<RuleView>, rule: RuleView, dir: Seq<char>)
    requires
        rule is Regex,
    ensures
        member::first_rsync_match(rules.push(rule), dir, true) == member::first_rsync_match(
            rules,
            dir,
            true,
        ),
    decreases rules.len(),
{
    if rules.len() == 0 {
        let none = Seq::<RuleView>::empty();
        assert(rules.push(rule).skip(1) =~= none);
        assert(rules.push(rule)[0] == rule);
        assert(member::first_rsync_match(none, dir, true) is None);
    } else {
        assert(rules.push(rule)[0] == rules[0]);
        assert(rules.push(rule).skip(1) =~= rules.skip(1).push(rule));
        lemma_expression_is_no_pattern(rules.skip(1), rule, dir);
    }
}

// ---------------------------------------------------------------------------------------------
// Regular expressions
// ---------------------------------------------------------------------------------------------
/// Law: an expression is tried on the path in normal form, or on what follows its last slash where
/// expressions are for base names. Directories and files are not told apart.
pub proof fn law_expressions_see_the_path(
    keep: bool,
    pattern: Seq<char>,
    front: Seq<char>,
    name: Seq<char>,
    is_dir: bool,
)
    requires
        pathnorm::is_normal(front.push('/') + name),
        pathnorm::is_normal(name),
        !name.contains('/'),
    ensures
        ({
            let rule = RuleView::Regex { keep, pattern };
            let path = front.push('/') + name;
            &&& rule.keep() == keep
            &&& rule.matches(path, is_dir, false) == regexes::regex_says(pattern, path)
            &&& rule.matches(path, is_dir, true) == regexes::regex_says(pattern, name)
            &&& rule.matches(name, is_dir, true) == regexes::regex_says(pattern, name)
        }),
{
    let path = front.push('/') + name;
    pathnorm::law_normal_form(path);
    pathnorm::law_normal_form(name);
    let u = seq!['/'] + name;
    assert(path.skip(path.len() - u.len()) =~= u);
    exclude_laws::lemma_base_is(path, name);
    exclude_laws::lemma_base_is(name, name);
}

/// Law: an expression for an ending, `\.ext$`, matches what ends with `.ext`; behind `(?i)` it
/// matches upper and lower case, where each letter has just these two. Dropping such an ending can
/// be left to the 7z program.
pub proof fn law_ending_expressions(ext: Seq<char>, s: Seq<char>, basename_only: bool)
    requires
        CharSet::Alnum.has_all(ext),
        plain::two_cased(ext),
        ext.len() <= 4,
    ensures
        regexes::regex_says("\\."@ + ext + "$"@, s) <==> text::ends(s, "."@ + ext),
        regexes::regex_says("(?i)\\."@ + ext + "$"@, s) <==> text::ends(
            text::lower(s),
            text::lower("."@ + ext),
        ),
        plain::regex_globs("\\."@ + ext + "$"@, basename_only) is Some,
        plain::regex_globs("(?i)\\."@ + ext + "$"@, basename_only) is Some,
{
    reveal_strlit("\\.");
    reveal_strlit("$");
    reveal_strlit("(?i)");
    reveal_strlit("(?-i)");
    reveal_strlit("(?i)\\.");
    reveal_strlit(".");
    let p = "\\."@ + ext + "$"@;
    let rest = ext + "$"@;
    lemma_not_begun(p, "(?i)"@);
    lemma_not_begun(p, "(?-i)"@);
    assert(p.take(2) =~= "\\."@);
    assert(p.skip(2) =~= rest);
    assert(rest.last() == '$');
    assert(rest.drop_last() =~= ext);
    assert(plain::suffix_ext(p) == Some("."@ + ext));
    let q = "(?i)\\."@ + ext + "$"@;
    assert(q.take(4) =~= "(?i)"@);
    assert(q.skip(4) =~= p);
    assert(plain::suffix_ext(q) == Some("."@ + ext));
    let t = "."@ + ext;
    assert forall|i: int| 0 <= i < t.len() implies text::lower_char(#[trigger] t[i]) != 'k'
        && text::lower_char(t[i]) != 's' by {
        if i > 0 {
            assert(t[i] == ext[i - 1]);
        }
    }
}

proof fn lemma_not_begun(p: Seq<char>, q: Seq<char>)
    requires
        p.len() > 0,
        q.len() > 0,
        p[0] != q[0],
    ensures
        !text::begins(p, q),
{
    if text::begins(p, q) {
        assert(p.take(q.len() as int)[0] == p[0]);
    }
}

/// Law: `^path` matches what begins with the path, and `^path$` the path alone, where the path is
/// made of plain characters. Where whole paths are matched, dropping it can be left to the 7z
/// program.
pub proof fn law_path_expressions(t: Seq<char>, s: Seq<char>)
    requires
        plain::simple_path(t),
        t.last() != '$',
    ensures
        regexes::regex_says("^"@ + t, s) <==> text::begins(s, t),
        regexes::regex_says("^"@ + t + "$"@, s) <==> s == t,
        plain::regex_globs("^"@ + t, false) is Some,
        plain::regex_globs("^"@ + t + "$"@, false) is Some,
{
    reveal_strlit("^");
    reveal_strlit("$");
    reveal_strlit("\\.");
    reveal_strlit("(?i)");
    reveal_strlit("(?-i)");
    let p = "^"@ + t;
    lemma_not_begun(p, "(?i)"@);
    lemma_not_begun(p, "(?-i)"@);
    lemma_not_begun(p, "\\."@);
    assert(p.skip(1) =~= t);
    assert(plain::suffix_ext(p) is None);
    let q = "^"@ + t + "$"@;
    lemma_not_begun(q, "(?i)"@);
    lemma_not_begun(q, "(?-i)"@);
    lemma_not_begun(q, "\\."@);
    assert(q.skip(1) =~= t + "$"@);
    assert(q.skip(1).last() == '$');
    assert(q.skip(1).drop_last() =~= t);
    assert(plain::suffix_ext(q) is None);
}

// ---------------------------------------------------------------------------------------------
// Command lines
// ---------------------------------------------------------------------------------------------
/// The rules that patterns make.
pub open spec fn pattern_rules(patterns: Seq<PatternView>) -> Seq<RuleView> {
    Seq::new(patterns.len(), |i: int| RuleView::Rsync(patterns[i]))
}

/// Law: on a command line the rules stand in the order filter file, filter argument, include file,
/// exclude file, keeping expression, dropping expression. The patterns of the include file keep and
/// those of the exclude file drop, unless a line of them says otherwise.
pub proof fn law_rules_of_a_command_line(
    lines: Vec<ParsedFilterLine>,
    from: Seq<PatternView>,
    argument: Seq<char>,
    arg: PatternView,
    included: RuleFile,
    keeps: Seq<PatternView>,
    excluded: RuleFile,
    drops: Seq<PatternView>,
    keeping: Seq<char>,
    dropping: Seq<char>,
    basename_only: bool,
)
    requires
        rsync::line_views(lines@) == Seq::new(from.len(), |i: int| LineView::Rule(from[i])),
        rsync::parsed_line(argument) == Ok::<Option<LineView>, ErrorView>(
            Some(LineView::Rule(arg)),
        ),
        member::side_file(included, true) == Ok::<Seq<PatternView>, ErrorView>(keeps),
        member::side_file(excluded, false) == Ok::<Seq<PatternView>, ErrorView>(drops),
        regexes::regex_fault(keeping) is None,
        regexes::regex_fault(dropping) is None,
    ensures
        member::cli_filter(
            seq![Ok::<Vec<ParsedFilterLine>, crate::error::Error>(lines)],
            seq![argument],
            seq![included],
            seq![excluded],
            seq![keeping],
            seq![dropping],
            basename_only,
        ) == Ok::<FilterView, ErrorView>(
            FilterView {
                rules: pattern_rules(from) + seq![RuleView::Rsync(arg)] + pattern_rules(keeps)
                    + pattern_rules(drops) + seq![
                    RuleView::Regex { keep: true, pattern: keeping },
                    RuleView::Regex { keep: false, pattern: dropping },
                ],
                basename_only,
            },
        ),
{
    let empty = FilterView { rules: Seq::empty(), basename_only: false };
    let files = seq![Ok::<Vec<ParsedFilterLine>, crate::error::Error>(lines)];
    lemma_rule_lines(empty, from);
    let a = empty.with_lines(rsync::line_views(lines@));
    assert(empty.rules + pattern_rules(from) =~= pattern_rules(from));
    lemma_one_step(
        empty,
        files,
        |g: FilterView, x: Result<Vec<ParsedFilterLine>>| member::with_filter_file(g, x),
    );
    assert(member::with_filter_files(empty, files) == Ok::<FilterView, ErrorView>(a));
    let b = a.with_rule(RuleView::Rsync(arg));
    lemma_one_step(a, seq![argument], |g: FilterView, l: Seq<char>| g.with_argument(l));
    assert(member::with_arguments(a, seq![argument]) == Ok::<FilterView, ErrorView>(b));
    let c = b.with_patterns(keeps);
    lemma_one_step(
        b,
        seq![included],
        |g: FilterView, x: RuleFile| member::MemberFilter::with_side_file(g, x, true),
    );
    assert(member::with_side_files(b, seq![included], true) == Ok::<FilterView, ErrorView>(c));
    let d = c.with_patterns(drops);
    lemma_one_step(
        c,
        seq![excluded],
        |g: FilterView, x: RuleFile| member::MemberFilter::with_side_file(g, x, false),
    );
    assert(member::with_side_files(c, seq![excluded], false) == Ok::<FilterView, ErrorView>(d));
    let r1 = RuleView::Regex { keep: true, pattern: keeping };
    let r2 = RuleView::Regex { keep: false, pattern: dropping };
    let e = d.with_rule(r1);
    lemma_one_step(d, seq![keeping], |g: FilterView, p: Seq<char>| g.with_regex(p, true));
    assert(member::with_regexes(d, seq![keeping], true) == Ok::<FilterView, ErrorView>(e));
    lemma_one_step(e, seq![dropping], |g: FilterView, p: Seq<char>| g.with_regex(p, false));
    let h = e.with_rule(r2);
    assert(member::with_regexes(e, seq![dropping], false) == Ok::<FilterView, ErrorView>(h));
    assert(h.rules =~= pattern_rules(from) + seq![RuleView::Rsync(arg)] + pattern_rules(keeps)
        + pattern_rules(drops) + seq![r1, r2]) by {
        assert(keeps.map_values(|p: PatternView| RuleView::Rsync(p)) =~= pattern_rules(keeps));
        assert(drops.map_values(|p: PatternView| RuleView::Rsync(p)) =~= pattern_rules(drops));
    }
}

proof fn lemma_one_step<A>(
    f: FilterView,
    items: Seq<A>,
    step: spec_fn(FilterView, A) -> std::result::Result<FilterView, ErrorView>,
)
    requires
        items.len() == 1,
    ensures
        member::step_all(f, items, step) == step(f, items[0]),
{
    assert(items.drop_last() =~= Seq::<A>::empty());
    assert(member::step_all(f, items.drop_last(), step) == Ok::<FilterView, ErrorView>(f));
}

proof fn lemma_rule_lines(f: FilterView, from: Seq<PatternView>)
    ensures
        f.with_lines(Seq::new(from.len(), |i: int| LineView::Rule(from[i]))) == (FilterView {
            rules: f.rules + pattern_rules(from),
            ..f
        }),
    decreases from.len(),
{
    let lines = Seq::new(from.len(), |i: int| LineView::Rule(from[i]));
    if from.len() == 0 {
        assert(f.rules + pattern_rules(from) =~= f.rules);
    } else {
        let before = from.drop_last();
        lemma_rule_lines(f, before);
        assert(lines.drop_last() =~= Seq::new(before.len(), |i: int| LineView::Rule(before[i])));
        assert((f.rules + pattern_rules(before)).push(RuleView::Rsync(from.last())) =~= f.rules
            + pattern_rules(from));
    }
}

/// Law: a filter argument adds its rule behind the others, or forgets them, or says nothing; a merge
/// is refused there, and so is what cannot be read.
pub proof fn law_filter_arguments(f: FilterView, line: Seq<char>, p: PatternView)
    ensures
        rsync::parsed_line(line) == Ok::<Option<LineView>, ErrorView>(Some(LineView::Rule(p)))
            ==> f.with_argument(line) == Ok::<FilterView, ErrorView>(
            FilterView {
                rules: f.rules.push(RuleView::Rsync(p)),
                basename_only: f.basename_only,
            },
        ),
        rsync::parsed_line(line) == Ok::<Option<LineView>, ErrorView>(Some(LineView::Clear))
            ==> f.with_argument(line) == Ok::<FilterView, ErrorView>(
            FilterView { rules: Seq::empty(), basename_only: f.basename_only },
        ),
        rsync::parsed_line(line) == Ok::<Option<LineView>, ErrorView>(None) ==> f.with_argument(line)
            == Ok::<FilterView, ErrorView>(f),
        rsync::parsed_line(line) matches Ok(Some(LineView::Merge(_))) ==> f.with_argument(line)
            is Err,
        rsync::parsed_line(line) is Err ==> f.with_argument(line) is Err,
{
}

/// Law: a rule file that is not there is told by its path, and one that cannot be read with the
/// reason; neither adds a rule.
pub proof fn law_files_that_cannot_be_read(f: FilterView, file: RuleFile, keep: bool)
    ensures
        file.content is Missing ==> member::MemberFilter::with_side_file(f, file, keep) == Err::<
            FilterView,
            ErrorView,
        >(ErrorView::FilterFileNotFound(file.path@)),
        file.content is Unreadable ==> member::MemberFilter::with_side_file(f, file, keep) is Err,
{
}

proof fn lemma_word_is_plain(w: Seq<char>, rest: Seq<char>)
    requires
        CharSet::Word.has_all(w),
        plain::plain_name(rest) is Some,
    ensures
        plain::plain_name(w + rest) == Some(w + plain::plain_name(rest)->0),
    decreases w.len(),
{
    let s = w + rest;
    let tail = plain::plain_name(rest)->0;
    if w.len() == 0 {
        assert(s =~= rest);
        assert(w + tail =~= tail);
    } else {
        let v = w.skip(1);
        assert(CharSet::Word.has(w[0]));
        assert(s[0] == w[0]);
        assert(s.skip(1) =~= v + rest);
        assert forall|i: int| 0 <= i < v.len() implies CharSet::Word.has(#[trigger] v[i]) by {
            assert(v[i] == w[i + 1]);
        }
        lemma_word_is_plain(v, rest);
        assert(seq![w[0]] + (v + tail) =~= w + tail);
    }
}

/// Law: `^name\.ext$` matches the name `name.ext` alone, where both parts are made of word
/// characters, and dropping it can be left to the 7z program.
pub proof fn law_name_expressions(name: Seq<char>, ext: Seq<char>, s: Seq<char>, basename_only: bool)
    requires
        CharSet::Word.has_all(name),
        CharSet::Word.has_all(ext),
        name.len() > 0,
    ensures
        regexes::regex_says("^"@ + name + "\\."@ + ext + "$"@, s) <==> s == name + seq!['.'] + ext,
        plain::regex_globs("^"@ + name + "\\."@ + ext + "$"@, basename_only) is Some,
{
    reveal_strlit("^");
    reveal_strlit("$");
    reveal_strlit("\\.");
    reveal_strlit("(?i)");
    reveal_strlit("(?-i)");
    let p = "^"@ + name + "\\."@ + ext + "$"@;
    let none = Seq::<char>::empty();
    lemma_not_begun(p, "(?i)"@);
    lemma_not_begun(p, "(?-i)"@);
    lemma_not_begun(p, "\\."@);
    assert(plain::suffix_ext(p) is None);
    assert(p[0] == '^' && p.last() == '$');
    let rest = p.skip(1);
    let bare = rest.drop_last();
    assert(rest.last() == '$');
    let k = name.len() as int;
    assert(bare[k] == '\\');
    assert(!plain::simple_path(bare)) by {
        assert(!CharSet::Path.has(bare[k]));
    }
    let inner = p.subrange(1, p.len() - 1);
    let dotted = "\\."@ + ext;
    assert(inner =~= name + dotted);
    assert(ext + none =~= ext);
    assert(plain::plain_name(none) == Some(none));
    lemma_word_is_plain(ext, none);
    assert(dotted[0] == '\\' && dotted[1] == '.');
    assert(dotted.skip(2) =~= ext);
    assert(plain::plain_name(dotted) == Some(seq!['.'] + ext));
    lemma_word_is_plain(name, dotted);
    let t = name + (seq!['.'] + ext);
    assert(t =~= name + seq!['.'] + ext);
    assert(plain::exact_name(p) == Some(t));
    assert(!t.contains('/')) by {
        assert forall|i: int| 0 <= i < t.len() implies t[i] != '/' by {
            if i < k {
                assert(t[i] == name[i]);
                assert(CharSet::Word.has(name[i]));
            } else if i > k {
                assert(t[i] == ext[i - k - 1]);
                assert(CharSet::Word.has(ext[i - k - 1]));
            }
        }
    }
}

} // verus!
