//! What holds of filters and patterns as a whole.

use crate::error::{ErrorView, Result};
use crate::filter::glob;
use crate::filter::glob::TokView;
use crate::filter::member;
use crate::filter::member::{FilterView, RuleFile, RuleView};
use crate::filter::rsync;
use crate::filter::rsync::{LineView, ParsedFilterLine, PatternView};
use crate::util::pathnorm;
use crate::util::text;
use vstd::prelude::*;

verus! {

// ---------------------------------------------------------------------------------------------
// Rules
// ---------------------------------------------------------------------------------------------
/// Law: a filter without rules keeps every member that has a path.
pub proof fn law_empty_filter_keeps_all(basename_only: bool, path: Seq<char>, is_dir: bool)
    requires
        pathnorm::normalized(path).len() > 0,
    ensures
        (FilterView { rules: Seq::empty(), basename_only }).keeps(path, is_dir),
{
}

/// Law: the first rule that matches decides.
pub proof fn law_first_match_wins(
    rules: Seq<RuleView>,
    k: int,
    path: Seq<char>,
    is_dir: bool,
    basename_only: bool,
)
    requires
        0 <= k < rules.len(),
        rules[k].matches(path, is_dir, basename_only),
        forall|i: int|
            0 <= i < k ==> !(#[trigger] rules[i]).matches(path, is_dir, basename_only),
    ensures
        member::first_match(rules, path, is_dir, basename_only) == Some(rules[k].keep()),
    decreases k,
{
    if k > 0 {
        let rest = rules.skip(1);
        assert(!rules[0].matches(path, is_dir, basename_only));
        assert forall|i: int| 0 <= i < k - 1 implies !(#[trigger] rest[i]).matches(
            path,
            is_dir,
            basename_only,
        ) by {
            assert(rest[i] == rules[i + 1]);
        }
        law_first_match_wins(rest, k - 1, path, is_dir, basename_only);
    }
}

/// Law: where no rule matches, none decides.
pub proof fn law_unmatched_is_undecided(
    rules: Seq<RuleView>,
    path: Seq<char>,
    is_dir: bool,
    basename_only: bool,
)
    requires
        forall|i: int|
            0 <= i < rules.len() ==> !(#[trigger] rules[i]).matches(path, is_dir, basename_only),
    ensures
        member::first_match(rules, path, is_dir, basename_only) is None,
    decreases rules.len(),
{
    if rules.len() > 0 {
        let rest = rules.skip(1);
        assert(!rules[0].matches(path, is_dir, basename_only));
        assert forall|i: int| 0 <= i < rest.len() implies !(#[trigger] rest[i]).matches(
            path,
            is_dir,
            basename_only,
        ) by {
            assert(rest[i] == rules[i + 1]);
        }
        law_unmatched_is_undecided(rest, path, is_dir, basename_only);
    }
}

/// Law: a member whose first matching rule drops it is not kept.
pub proof fn law_dropped_is_not_kept(f: FilterView, k: int, path: Seq<char>, is_dir: bool)
    requires
        0 <= k < f.rules.len(),
        f.rules[k].matches(pathnorm::normalized(path), is_dir, f.basename_only),
        !f.rules[k].keep(),
        forall|i: int|
            0 <= i < k ==> !(#[trigger] f.rules[i]).matches(
                pathnorm::normalized(path),
                is_dir,
                f.basename_only,
            ),
    ensures
        !f.keeps(path, is_dir),
{
    law_first_match_wins(f.rules, k, pathnorm::normalized(path), is_dir, f.basename_only);
}

proof fn lemma_keeping_rules(rules: Seq<RuleView>, path: Seq<char>, is_dir: bool, basename: bool)
    requires
        forall|i: int| 0 <= i < rules.len() ==> (#[trigger] rules[i]).keep(),
    ensures
        member::first_match(rules, path, is_dir, basename) != Some(false),
        member::first_rsync_match(rules, path, is_dir) != Some(false),
    decreases rules.len(),
{
    if rules.len() > 0 {
        let rest = rules.skip(1);
        assert(rules[0].keep());
        assert forall|i: int| 0 <= i < rest.len() implies (#[trigger] rest[i]).keep() by {
            assert(rest[i] == rules[i + 1]);
        }
        lemma_keeping_rules(rest, path, is_dir, basename);
    }
}

/// Law: a list of rules that only keep is no whitelist: every member that has a path is kept.
pub proof fn law_keeping_rules_drop_nothing(f: FilterView, path: Seq<char>, is_dir: bool)
    requires
        pathnorm::normalized(path).len() > 0,
        forall|i: int| 0 <= i < f.rules.len() ==> (#[trigger] f.rules[i]).keep(),
    ensures
        f.keeps(path, is_dir),
{
    let norm = pathnorm::normalized(path);
    lemma_keeping_rules(f.rules, norm, is_dir, f.basename_only);
    let parts = member::path_parts(norm);
    assert forall|n: int| 1 <= n <= member::walked(parts, is_dir) implies member::first_rsync_match(
        f.rules,
        #[trigger] member::leading(parts, n),
        true,
    ) != Some(false) by {
        lemma_keeping_rules(f.rules, member::leading(parts, n), true, f.basename_only);
    }
}

/// Law: a filter with a rule that keeps cannot be handed on as exclusion globs.
pub proof fn law_keeping_rules_have_no_globs(f: FilterView, k: int)
    requires
        0 <= k < f.rules.len(),
        f.rules[k].keep(),
    ensures
        f.globs() is None,
{
    assert(f.rules[k].keep());
}

/// Law: a clear line forgets all rules before it.
pub proof fn law_clear_forgets(f: FilterView, before: Seq<LineView>, after: Seq<LineView>)
    ensures
        f.with_lines(before.push(LineView::Clear) + after) == (FilterView {
            rules: Seq::empty(),
            ..f
        }).with_lines(after),
    decreases after.len(),
{
    let all = before.push(LineView::Clear) + after;
    lemma_lines_keep_mode(f, before);
    if after.len() == 0 {
        assert(all =~= before.push(LineView::Clear));
        assert(all.drop_last() =~= before);
    } else {
        assert(all.drop_last() =~= before.push(LineView::Clear) + after.drop_last());
        law_clear_forgets(f, before, after.drop_last());
    }
}

proof fn lemma_lines_keep_mode(f: FilterView, lines: Seq<LineView>)
    ensures
        f.with_lines(lines).basename_only == f.basename_only,
    decreases lines.len(),
{
    if lines.len() > 0 {
        lemma_lines_keep_mode(f, lines.drop_last());
    }
}

// ---------------------------------------------------------------------------------------------
// Directories
// ---------------------------------------------------------------------------------------------
/// A path whose components are all there.
pub open spec fn clean(p: Seq<char>) -> bool {
    forall|i: int|
        0 <= i < text::split(p, '/').len() ==> (#[trigger] text::split(p, '/')[i]).len() > 0
}

/// The pieces of two texts with a separator between them are the pieces of both.
pub(crate) proof fn lemma_split_concat(a: Seq<char>, b: Seq<char>, c: char)
    ensures
        text::split(a.push(c) + b, c) == text::split(a, c) + text::split(b, c),
        text::split(a, c).len() >= 1,
    decreases a.len(),
{
    let whole = a.push(c) + b;
    let i = text::find(a, c);
    let j = text::find(whole, c);
    text::lemma_find(a, c);
    text::lemma_find(whole, c);
    assert(whole[a.len() as int] == c);
    assert(whole.contains(c));
    if i >= a.len() {
        if j < a.len() {
            assert(a[j] == whole[j]);
            assert(a.contains(c));
        }
        assert(j == a.len());
        assert(whole.take(j) =~= a);
        assert(whole.skip(j + 1) =~= b);
        assert(text::split(whole, c) =~= seq![a] + text::split(b, c));
    } else {
        assert(whole[i] == a[i]);
        if j < i {
            assert(a[j] == whole[j]);
        }
        assert(j == i);
        let rest = a.skip(i + 1);
        assert(whole.take(j) =~= a.take(i));
        assert(whole.skip(j + 1) =~= rest.push(c) + b);
        lemma_split_concat(rest, b, c);
        assert(text::split(whole, c) =~= seq![a.take(i)] + (text::split(rest, c) + text::split(
            b,
            c,
        )));
        assert(text::split(whole, c) =~= text::split(a, c) + text::split(b, c));
    }
}

/// A list of pieces, none of which is empty, has no empty pieces to leave out.
pub(crate) proof fn lemma_nonempty(parts: Seq<Seq<char>>)
    requires
        forall|i: int| 0 <= i < parts.len() ==> (#[trigger] parts[i]).len() > 0,
    ensures
        member::nonempty(parts) == parts,
    decreases parts.len(),
{
    if parts.len() > 0 {
        let t = parts.drop_last();
        assert forall|i: int| 0 <= i < t.len() implies (#[trigger] t[i]).len() > 0 by {
            assert(t[i] == parts[i]);
        }
        lemma_nonempty(t);
        assert(parts.last().len() > 0);
        assert(t.push(parts.last()) =~= parts);
    }
}

/// Joining one piece more in front.
pub(crate) proof fn lemma_join_front(first: Seq<char>, parts: Seq<Seq<char>>, sep: Seq<char>)
    requires
        parts.len() >= 1,
    ensures
        text::join(seq![first] + parts, sep) == first + sep + text::join(parts, sep),
    decreases parts.len(),
{
    let all = seq![first] + parts;
    assert(all.drop_last() =~= seq![first] + parts.drop_last());
    assert(all.last() == parts.last());
    if parts.len() == 1 {
        assert(all.drop_last() =~= seq![first]);
        assert(text::join(seq![first], sep) == first);
        assert(text::join(parts, sep) == parts[0]);
        assert(text::join(all, sep) =~= first + sep + parts[0]);
    } else {
        lemma_join_front(first, parts.drop_last(), sep);
        assert(text::join(all, sep) =~= first + sep + text::join(parts, sep));
    }
}

/// The pieces of a text, joined again, are the text.
pub(crate) proof fn lemma_join_split(s: Seq<char>, c: char)
    ensures
        text::join(text::split(s, c), seq![c]) == s,
        text::split(s, c).len() >= 1,
    decreases s.len(),
{
    let i = text::find(s, c);
    text::lemma_find(s, c);
    if i < s.len() {
        let rest = s.skip(i + 1);
        lemma_join_split(rest, c);
        lemma_join_front(s.take(i), text::split(rest, c), seq![c]);
        assert(s.take(i) + seq![c] + rest =~= s);
    }
}

/// Law: a directory that a pattern drops takes everything below it along, whatever the rules say
/// of what is below.
pub proof fn law_dropped_directory_is_pruned(
    f: FilterView,
    dir: Seq<char>,
    below: Seq<char>,
    path: Seq<char>,
    is_dir: bool,
)
    requires
        f.has_rsync(),
        member::first_rsync_match(f.rules, dir, true) == Some(false),
        clean(dir),
        clean(below),
        pathnorm::normalized(path) == dir.push('/') + below,
    ensures
        !f.keeps(path, is_dir),
{
    reveal_strlit("/");
    assert("/"@ =~= seq!['/']);
    let norm = pathnorm::normalized(path);
    let a = text::split(dir, '/');
    let b = text::split(below, '/');
    lemma_split_concat(dir, below, '/');
    lemma_join_split(dir, '/');
    lemma_join_split(below, '/');
    let parts = a + b;
    assert forall|i: int| 0 <= i < parts.len() implies (#[trigger] parts[i]).len() > 0 by {
        if i < a.len() {
            assert(parts[i] == a[i]);
        } else {
            assert(parts[i] == b[i - a.len()]);
        }
    }
    lemma_nonempty(parts);
    assert(member::path_parts(norm) == parts);
    assert(parts.take(a.len() as int) =~= a);
    assert(member::leading(parts, a.len() as int) == dir);
}

// ---------------------------------------------------------------------------------------------
// Command lines
// ---------------------------------------------------------------------------------------------
/// The rules that regular expressions make.
pub open spec fn regex_rules(patterns: Seq<Seq<char>>, keep: bool) -> Seq<RuleView> {
    Seq::new(patterns.len(), |i: int| RuleView::Regex { keep, pattern: patterns[i] })
}

proof fn lemma_regexes(f: FilterView, patterns: Seq<Seq<char>>, keep: bool)
    ensures
        member::with_regexes(f, patterns, keep) matches Ok(g) ==> g == (FilterView {
            rules: f.rules + regex_rules(patterns, keep),
            ..f
        }),
    decreases patterns.len(),
{
    if patterns.len() == 0 {
        assert(f.rules + regex_rules(patterns, keep) =~= f.rules);
    } else {
        let before = patterns.drop_last();
        lemma_regexes(f, before, keep);
        assert(regex_rules(patterns, keep) =~= regex_rules(before, keep).push(
            RuleView::Regex { keep, pattern: patterns.last() },
        ));
        assert((f.rules + regex_rules(before, keep)).push(
            RuleView::Regex { keep, pattern: patterns.last() },
        ) =~= f.rules + regex_rules(patterns, keep));
    }
}

/// Law: on a command line the regular expressions stand behind all other rules, those that keep
/// before those that drop.
pub proof fn law_expressions_come_last(
    filter_from: Seq<Result<Vec<ParsedFilterLine>>>,
    filter_lines: Seq<Seq<char>>,
    include_from: Seq<RuleFile>,
    exclude_from: Seq<RuleFile>,
    keeping: Seq<Seq<char>>,
    dropping: Seq<Seq<char>>,
    basename_only: bool,
)
    requires
        member::cli_filter(
            filter_from,
            filter_lines,
            include_from,
            exclude_from,
            keeping,
            dropping,
            basename_only,
        ) is Ok,
    ensures
        ({
            let all = member::cli_filter(
                filter_from,
                filter_lines,
                include_from,
                exclude_from,
                keeping,
                dropping,
                basename_only,
            )->Ok_0;
            let others = member::cli_filter(
                filter_from,
                filter_lines,
                include_from,
                exclude_from,
                Seq::empty(),
                Seq::empty(),
                basename_only,
            );
            &&& others is Ok
            &&& all.rules == others->Ok_0.rules + regex_rules(keeping, true) + regex_rules(
                dropping,
                false,
            )
            &&& all.basename_only == basename_only
        }),
{
    let empty = FilterView { rules: Seq::empty(), basename_only: false };
    let a = member::with_filter_files(empty, filter_from)->Ok_0;
    let b = member::with_arguments(a, filter_lines)->Ok_0;
    let c = member::with_side_files(b, include_from, true)->Ok_0;
    let d = member::with_side_files(c, exclude_from, false)->Ok_0;
    let g = member::with_regexes(d, keeping, true)->Ok_0;
    lemma_regexes(d, keeping, true);
    lemma_regexes(g, dropping, false);
    lemma_regexes(d, Seq::empty(), true);
    lemma_regexes(d, Seq::empty(), false);
    assert(member::with_regexes(d, Seq::empty(), true) == Ok::<FilterView, ErrorView>(d));
    assert(member::with_regexes(d, Seq::empty(), false) == Ok::<FilterView, ErrorView>(d));
}

// ---------------------------------------------------------------------------------------------
// Patterns
// ---------------------------------------------------------------------------------------------
/// Law: a pattern for base names, such as `*.tmp`, matches by the base name alone, in any
/// directory.
pub proof fn law_base_name_pattern(p: PatternView, a: Seq<char>, b: Seq<char>, is_dir: bool)
    requires
        p.basename_only,
        !p.triple_star,
        pathnorm::normalized(a).len() > 0,
        pathnorm::normalized(b).len() > 0,
        pathnorm::base_name(pathnorm::normalized(a)) == pathnorm::base_name(
            pathnorm::normalized(b),
        ),
    ensures
        p.matches(a, is_dir) == p.matches(b, is_dir),
{
}

/// Law: a pattern for directories, such as `secret/`, matches no file.
pub proof fn law_directory_pattern(p: PatternView, path: Seq<char>)
    requires
        p.dir_only,
    ensures
        !p.matches(path, false),
{
}

/// Law: a pattern such as `secret/***` matches the directory and everything below it, and nothing
/// else.
pub proof fn law_triple_star(p: PatternView, dir: Seq<char>, path: Seq<char>, is_dir: bool)
    requires
        p.triple_star,
        !p.dir_only,
        spells(p.tokens, dir),
        dir.len() > 0,
    ensures
        p.matches(path, is_dir) <==> pathnorm::normalized(path) == dir || text::begins(
            pathnorm::normalized(path),
            dir + "/"@,
        ),
{
    reveal_strlit("/");
    let q = pathnorm::normalized(path);
    let n = dir.len() as int;
    assert forall|k: int| 0 <= k <= q.len() implies (glob::glob(p.tokens, #[trigger] q.take(k))
        <==> q.take(k) == dir) by {
        law_plain_pattern(p.tokens, dir, q.take(k));
    }
    if q == dir {
        assert(q.take(n) =~= dir);
    }
    if text::begins(q, dir + "/"@) {
        assert(q.take(n + 1) =~= dir + "/"@);
        assert(q.take(n) =~= q.take(n + 1).take(n));
        assert(q.take(n) =~= dir);
        assert(q[n] == q.take(n + 1)[n]);
    }
    if rsync::covers(p.tokens, q) {
        let k = choose|k: int|
            0 <= k <= q.len() && (k == q.len() || q[k] == '/') && glob::glob(
                p.tokens,
                #[trigger] q.take(k),
            );
        assert(q.take(k) == dir);
        if k == q.len() {
            assert(q.take(k) =~= q);
        } else {
            assert(q.take(k + 1) =~= dir + "/"@);
        }
    }
}

/// Law: with wildcards too, such as `build-*/***`, a pattern matches what stands in front of its
/// `/***`, and everything below that.
pub proof fn law_triple_star_with_wildcards(
    p: PatternView,
    dir: Seq<char>,
    path: Seq<char>,
    is_dir: bool,
)
    requires
        p.triple_star,
        !p.dir_only,
        glob::glob(p.tokens, dir),
        pathnorm::normalized(path).len() > 0,
        pathnorm::normalized(path) == dir || text::begins(pathnorm::normalized(path), dir + "/"@),
    ensures
        p.matches(path, is_dir),
{
    reveal_strlit("/");
    let q = pathnorm::normalized(path);
    let n = dir.len() as int;
    if q == dir {
        assert(q.take(n) =~= dir);
    } else {
        assert(q.take(n + 1) =~= dir + "/"@);
        assert(q.take(n) =~= q.take(n + 1).take(n));
        assert(q.take(n) =~= dir);
        assert(q[n] == q.take(n + 1)[n]);
    }
}

/// Law: without `**` and without a slash of its own, a pattern matches no text with a slash:
/// `*`, `?` and classes stay within one directory.
pub proof fn law_wildcards_stop_at_slash(pat: Seq<TokView>, s: Seq<char>)
    requires
        forall|i: int|
            0 <= i < pat.len() ==> (#[trigger] pat[i]) != TokView::GlobStar && pat[i]
                != TokView::Lit('/'),
        glob::glob(pat, s),
    ensures
        !s.contains('/'),
    decreases pat.len(),
{
    if pat.len() > 0 {
        let rest = pat.skip(1);
        assert forall|i: int| 0 <= i < rest.len() implies (#[trigger] rest[i]) != TokView::GlobStar
            && rest[i] != TokView::Lit('/') by {
            assert(rest[i] == pat[i + 1]);
        }
        assert(pat[0] != TokView::GlobStar && pat[0] != TokView::Lit('/'));
        match pat[0] {
            TokView::Star => {
                let k = choose|k: int|
                    0 <= k <= s.len() && glob::slash_free(s, k) && glob::glob(
                        pat.skip(1),
                        #[trigger] s.skip(k),
                    );
                law_wildcards_stop_at_slash(rest, s.skip(k));
                assert forall|i: int| 0 <= i < s.len() implies s[i] != '/' by {
                    if i >= k {
                        assert(s[i] == s.skip(k)[i - k]);
                    }
                }
            },
            TokView::GlobStar => {},
            t => {
                law_wildcards_stop_at_slash(rest, s.skip(1));
                assert forall|i: int| 0 <= i < s.len() implies s[i] != '/' by {
                    if i > 0 {
                        assert(s[i] == s.skip(1)[i - 1]);
                    }
                }
            },
        }
    }
}

/// Law: a single `*` matches every text without a slash, and `**` every text.
pub proof fn law_stars(s: Seq<char>)
    ensures
        glob::glob(seq![TokView::Star], s) <==> !s.contains('/'),
        glob::glob(seq![TokView::GlobStar], s),
{
    let star = seq![TokView::Star];
    let any = seq![TokView::GlobStar];
    let n = s.len() as int;
    assert(star.skip(1) =~= Seq::<TokView>::empty());
    assert(any.skip(1) =~= Seq::<TokView>::empty());
    assert(s.skip(n).len() == 0);
    assert(glob::glob(star.skip(1), s.skip(n)));
    assert(glob::glob(any.skip(1), s.skip(n)));
    if glob::glob(star, s) {
        law_wildcards_stop_at_slash(star, s);
    }
    if !s.contains('/') {
        assert(glob::slash_free(s, n));
    }
}

/// The tokens are the characters of `t`.
pub open spec fn spells(pat: Seq<TokView>, t: Seq<char>) -> bool {
    &&& pat.len() == t.len()
    &&& forall|i: int| 0 <= i < pat.len() ==> (#[trigger] pat[i]) == TokView::Lit(t[i])
}

/// Law: a pattern of plain characters matches exactly the text of these characters.
pub proof fn law_plain_pattern(pat: Seq<TokView>, t: Seq<char>, s: Seq<char>)
    requires
        spells(pat, t),
    ensures
        glob::glob(pat, s) <==> s == t,
    decreases t.len(),
{
    if t.len() > 0 {
        assert(pat[0] == TokView::Lit(t[0]));
        assert forall|i: int| 0 <= i < pat.len() - 1 implies (#[trigger] pat.skip(1)[i])
            == TokView::Lit(t.skip(1)[i]) by {
            assert(pat.skip(1)[i] == pat[i + 1]);
        }
        if s.len() > 0 {
            law_plain_pattern(pat.skip(1), t.skip(1), s.skip(1));
            if s == t {
                assert(s.skip(1) == t.skip(1));
            }
            if s.skip(1) == t.skip(1) && s[0] == t[0] {
                assert(s =~= seq![s[0]] + s.skip(1));
                assert(t =~= seq![t[0]] + t.skip(1));
            }
        }
    } else {
        assert(s.len() == 0 ==> s =~= t);
    }
}

/// Law: a pattern behind `**/` matches at any depth.
pub proof fn law_any_depth(rest: Seq<TokView>, front: Seq<char>, s: Seq<char>)
    requires
        glob::glob(rest, s),
    ensures
        glob::glob(seq![TokView::GlobStar, TokView::Lit('/')] + rest, s),
        glob::glob(seq![TokView::GlobStar, TokView::Lit('/')] + rest, front.push('/') + s),
{
    let pat = seq![TokView::GlobStar, TokView::Lit('/')] + rest;
    assert(pat.skip(2) =~= rest);
    assert(pat[0] == TokView::GlobStar && pat[1] == TokView::Lit('/'));
    let whole = front.push('/') + s;
    let k = front.len() as int;
    let tail = whole.skip(k);
    assert(tail =~= seq!['/'] + s);
    assert(tail.skip(1) =~= s);
    assert(pat.skip(1)[0] == TokView::Lit('/'));
    assert(pat.skip(1).skip(1) =~= rest);
    assert(glob::glob(pat.skip(1), whole.skip(k)));
}

} // verus!
