//! Exclusion globs drop what the rules drop: neither more nor less.

use crate::error::ErrorView;
use crate::filter::glob;
use crate::filter::glob::TokView;
use crate::filter::laws;
use crate::filter::member;
use crate::filter::member::{FilterView, RuleView};
use crate::filter::plain;
use crate::filter::plain::FormView;
use crate::filter::regexes;
use crate::filter::rsync;
use crate::filter::rsync::PatternView;
use crate::filter::wild;
use crate::util::pathnorm;
use crate::util::text;
use vstd::prelude::*;

verus! {

/// The path of a file in normal form: it does not end with a slash.
pub open spec fn file_path(p: Seq<char>) -> bool {
    pathnorm::is_normal(p) && p.len() > 0 && p.last() != '/'
}

/// The first `i` characters of `p` are the path of a directory that `p` is below.
pub open spec fn dir_at(p: Seq<char>, i: int) -> bool {
    0 < i < p.len() && p[i] == '/'
}

/// A pattern drops a file when it matches the file, or a directory that the file is below.
pub open spec fn pattern_drops(v: PatternView, p: Seq<char>) -> bool {
    v.matches(p, false) || exists|i: int| dir_at(p, i) && v.matches(#[trigger] p.take(i), true)
}

/// A rule drops a file.
pub open spec fn rule_drops(r: RuleView, p: Seq<char>, basename_only: bool) -> bool {
    match r {
        RuleView::Regex { .. } => r.matches(p, false, basename_only),
        RuleView::Rsync(v) => pattern_drops(v, p),
    }
}

// ---------------------------------------------------------------------------------------------
// Paths
// ---------------------------------------------------------------------------------------------
/// What stands in front of a position of a normal form is a normal form.
proof fn lemma_front_is_normal(p: Seq<char>, i: int)
    requires
        pathnorm::is_normal(p),
        0 <= i <= p.len(),
    ensures
        pathnorm::is_normal(p.take(i)),
        pathnorm::normalized(p.take(i)) == p.take(i),
{
    let q = p.take(i);
    assert forall|k: int| 0 <= k < q.len() implies q[k] != '\\' by {
        assert(q[k] == p[k]);
        if p[k] == '\\' {
            assert(p.contains('\\'));
        }
    }
    assert(!q.contains('\\'));
    assert forall|k: int| 0 < k < q.len() implies !(q[k - 1] == '/' && #[trigger] q[k] == '/') by {
        assert(q[k] == p[k] && q[k - 1] == p[k - 1]);
    }
    if text::begins(q, seq!['.', '/']) {
        assert(q.take(2) =~= p.take(2));
        assert(text::begins(p, seq!['.', '/']));
    }
    pathnorm::law_normal_form(q);
}

/// The components of a path with single slashes inside are all there.
proof fn lemma_clean(p: Seq<char>)
    requires
        pathnorm::single_slashes(p),
        p.len() > 0,
        p[0] != '/',
        p.last() != '/',
    ensures
        laws::clean(p),
    decreases p.len(),
{
    let i = text::find(p, '/');
    text::lemma_find(p, '/');
    if i < p.len() {
        let rest = p.skip(i + 1);
        assert(i > 0);
        assert(rest.len() > 0) by {
            if rest.len() == 0 {
                assert(p.last() == p[i]);
            }
        }
        assert(rest.last() == p.last());
        assert(!(p[i] == '/' && p[i + 1] == '/'));
        assert(rest[0] == p[i + 1]);
        assert forall|k: int| 0 < k < rest.len() implies !(rest[k - 1] == '/' && #[trigger] rest[k]
            == '/') by {
            assert(rest[k] == p[k + i + 1] && rest[k - 1] == p[k + i]);
        }
        lemma_clean(rest);
        let parts = text::split(p, '/');
        let more = text::split(rest, '/');
        assert(parts == seq![p.take(i)] + more);
        assert forall|k: int| 0 <= k < parts.len() implies (#[trigger] parts[k]).len() > 0 by {
            if k > 0 {
                assert(parts[k] == more[k - 1]);
            }
        }
    }
}

/// The components of the path of a file.
pub(crate) proof fn lemma_file_parts(p: Seq<char>)
    requires
        file_path(p),
    ensures
        member::path_parts(p) == text::split(p, '/'),
        laws::clean(p),
{
    lemma_clean(p);
    laws::lemma_nonempty(text::split(p, '/'));
}

/// Joining two lists of pieces.
proof fn lemma_join_two(a: Seq<Seq<char>>, b: Seq<Seq<char>>, sep: Seq<char>)
    requires
        a.len() > 0,
        b.len() > 0,
    ensures
        text::join(a + b, sep) == text::join(a, sep) + sep + text::join(b, sep),
    decreases b.len(),
{
    let all = a + b;
    assert(all.drop_last() =~= a + b.drop_last());
    assert(all.last() == b.last());
    if b.len() == 1 {
        assert(a + b.drop_last() =~= a);
    } else {
        lemma_join_two(a, b.drop_last(), sep);
        assert(text::join(all, sep) =~= text::join(a, sep) + sep + text::join(b, sep));
    }
}

/// The path made of some leading components ends in front of a slash.
pub(crate) proof fn lemma_dir_of_parts(p: Seq<char>, n: int) -> (i: int)
    requires
        file_path(p),
        1 <= n <= member::walked(member::path_parts(p), false),
    ensures
        dir_at(p, i),
        member::leading(member::path_parts(p), n) == p.take(i),
{
    reveal_strlit("/");
    assert("/"@ =~= seq!['/']);
    lemma_file_parts(p);
    laws::lemma_join_split(p, '/');
    let parts = text::split(p, '/');
    let a = parts.take(n);
    let b = parts.skip(n);
    assert(a + b =~= parts);
    lemma_join_two(a, b, "/"@);
    let front = text::join(a, "/"@);
    assert(p == front + "/"@ + text::join(b, "/"@));
    let i = front.len() as int;
    assert(p[i] == '/');
    assert(p.take(i) =~= front);
    assert(i > 0) by {
        if i == 0 {
            assert(p[0] == '/');
        }
    }
    i
}

/// What stands in front of a slash is the path made of some leading components.
pub(crate) proof fn lemma_parts_of_dir(p: Seq<char>, i: int) -> (n: int)
    requires
        file_path(p),
        dir_at(p, i),
    ensures
        1 <= n <= member::walked(member::path_parts(p), false),
        member::leading(member::path_parts(p), n) == p.take(i),
{
    reveal_strlit("/");
    assert("/"@ =~= seq!['/']);
    lemma_file_parts(p);
    let dir = p.take(i);
    let below = p.skip(i + 1);
    assert(dir.push('/') + below =~= p);
    laws::lemma_split_concat(dir, below, '/');
    laws::lemma_join_split(dir, '/');
    laws::lemma_join_split(below, '/');
    let a = text::split(dir, '/');
    let parts = text::split(p, '/');
    assert(parts.take(a.len() as int) =~= a);
    a.len() as int
}

/// Where the last component of a path begins.
pub(crate) proof fn lemma_last_component(p: Seq<char>) -> (k: int)
    ensures
        0 <= k <= p.len(),
        pathnorm::after_last(p, '/') == p.skip(k),
        k == 0 || p[k - 1] == '/',
        forall|j: int| k <= j < p.len() ==> p[j] != '/',
    decreases p.len(),
{
    if p.len() == 0 || p.last() == '/' {
        assert(p.skip(p.len() as int) =~= Seq::<char>::empty());
        p.len() as int
    } else {
        let q = p.drop_last();
        let k = lemma_last_component(q);
        assert(q.skip(k).push(p.last()) =~= p.skip(k));
        assert forall|j: int| k <= j < p.len() implies p[j] != '/' by {
            if j < q.len() {
                assert(p[j] == q[j]);
            }
        }
        k
    }
}

/// The last component is `t` where the path is `t` or ends with `/t`.
pub(crate) proof fn lemma_base_is(q: Seq<char>, t: Seq<char>)
    requires
        !t.contains('/'),
    ensures
        pathnorm::after_last(q, '/') == t <==> q == t || text::ends(q, seq!['/'] + t),
{
    let k = lemma_last_component(q);
    let u = seq!['/'] + t;
    if q.skip(k) == t {
        if k == 0 {
            assert(q.skip(0) =~= q);
        } else {
            assert(q.skip(k - 1) =~= u);
            assert(q.len() - u.len() == k - 1);
        }
    }
    if q == t {
        if k > 0 {
            assert(t.contains('/'));
        }
        assert(q.skip(0) =~= q);
    }
    if text::ends(q, u) {
        let m = q.len() - u.len();
        assert(q[m] == q.skip(m)[0]);
        assert forall|j: int| m < j < q.len() implies q[j] != '/' by {
            assert(q[j] == q.skip(m)[j - m]);
            assert(u[j - m] == t[j - m - 1]);
            if q[j] == '/' {
                assert(t.contains('/'));
            }
        }
        assert(k == m + 1);
        assert(q.skip(k) =~= q.skip(m).skip(1));
        assert(u.skip(1) =~= t);
    }
}

/// Without a slash in it, an ending of the last component is an ending of the path.
pub(crate) proof fn lemma_base_ends(q: Seq<char>, t: Seq<char>)
    requires
        !t.contains('/'),
    ensures
        text::ends(pathnorm::after_last(q, '/'), t) <==> text::ends(q, t),
{
    let k = lemma_last_component(q);
    let b = q.skip(k);
    if text::ends(b, t) {
        assert(b.skip(b.len() - t.len()) =~= q.skip(q.len() - t.len()));
    }
    if text::ends(q, t) {
        let m = q.len() - t.len();
        if m < k {
            assert(q[k - 1] == q.skip(m)[k - 1 - m]);
            assert(t.contains('/'));
        }
        assert(b.skip(b.len() - t.len()) =~= q.skip(m));
    }
}

/// A directory that `p` is below is `t` where `p` begins with `t/`.
proof fn lemma_some_dir_is(p: Seq<char>, t: Seq<char>)
    requires
        t.len() > 0,
    ensures
        (exists|i: int| dir_at(p, i) && #[trigger] p.take(i) == t) <==> text::begins(
            p,
            t + seq!['/'],
        ),
{
    let n = t.len() as int;
    let u = t + seq!['/'];
    if text::begins(p, u) {
        assert(p[n] == p.take(n + 1)[n]);
        assert(p.take(n) =~= p.take(n + 1).take(n));
        assert(u.take(n) =~= t);
        assert(dir_at(p, n) && p.take(n) == t);
    }
    if exists|i: int| dir_at(p, i) && #[trigger] p.take(i) == t {
        let i = choose|i: int| dir_at(p, i) && #[trigger] p.take(i) == t;
        assert(p.take(n + 1) =~= u);
    }
}

/// A directory that `p` is below ends with `u` where `u/` occurs in `p`.
proof fn lemma_some_dir_ends(p: Seq<char>, u: Seq<char>)
    requires
        u.len() > 0,
    ensures
        (exists|i: int| dir_at(p, i) && text::ends(#[trigger] p.take(i), u)) <==> text::occurs(
            p,
            u + seq!['/'],
        ),
{
    let n = u.len() as int;
    let w = u + seq!['/'];
    if text::occurs(p, w) {
        let k = choose|k: int| text::occurs_at(p, w, k);
        let i = k + n;
        let at = p.subrange(k, k + w.len());
        assert(p[i] == at[n]);
        assert(p.take(i).skip(k) =~= at.take(n));
        assert(w.take(n) =~= u);
        assert(dir_at(p, i) && text::ends(p.take(i), u));
    }
    if exists|i: int| dir_at(p, i) && text::ends(#[trigger] p.take(i), u) {
        let i = choose|i: int| dir_at(p, i) && text::ends(#[trigger] p.take(i), u);
        let k = i - n;
        assert(p.subrange(k, k + w.len()) =~= p.take(i).skip(k).push('/'));
        assert(w =~= u.push('/'));
        assert(text::occurs_at(p, w, k));
    }
}

// ---------------------------------------------------------------------------------------------
// Patterns
// ---------------------------------------------------------------------------------------------
/// Tokens that spell a text are its characters.
proof fn lemma_spelled(toks: Seq<TokView>, t: Seq<char>)
    requires
        rsync::spelled(toks) == Some(t),
    ensures
        laws::spells(toks, t),
    decreases toks.len(),
{
    if toks.len() > 0 {
        let front = toks.drop_last();
        let u = rsync::spelled(front)->0;
        lemma_spelled(front, u);
        assert(t == u.push(t.last()));
        assert forall|i: int| 0 <= i < toks.len() implies (#[trigger] toks[i]) == TokView::Lit(
            t[i],
        ) by {
            if i < front.len() {
                assert(toks[i] == front[i]);
            }
        }
    }
}

/// `*` and plain text behind it match what ends with the text, within one directory.
proof fn lemma_star_and_text(toks: Seq<TokView>, t: Seq<char>, s: Seq<char>)
    requires
        toks.len() > 0,
        toks[0] == TokView::Star,
        rsync::spelled(toks.skip(1)) == Some(t),
        forall|i: int| 0 <= i < s.len() ==> s[i] != '/',
    ensures
        glob::glob(toks, s) <==> text::ends(s, t),
{
    let rest = toks.skip(1);
    lemma_spelled(rest, t);
    assert forall|k: int| 0 <= k <= s.len() implies (glob::glob(rest, #[trigger] s.skip(k))
        <==> s.skip(k) == t) by {
        laws::law_plain_pattern(rest, t, s.skip(k));
    }
    if text::ends(s, t) {
        let k = s.len() - t.len();
        assert(glob::slash_free(s, k));
        assert(glob::glob(rest, s.skip(k)));
    }
    if glob::glob(toks, s) {
        let k = choose|k: int|
            0 <= k <= s.len() && glob::slash_free(s, k) && glob::glob(
                toks.skip(1),
                #[trigger] s.skip(k),
            );
        assert(s.skip(k) == t);
        assert(k == s.len() - t.len());
    }
}

proof fn lemma_any_of_two(a: Seq<char>, b: Seq<char>, p: Seq<char>)
    ensures
        wild::any_wild(seq![a, b], p) <==> wild::wild(a, p) || wild::wild(b, p),
{
    let g = seq![a, b];
    assert(g[0] == a && g[1] == b);
}

/// `dir/*` matches what is below a directory at the root.
proof fn lemma_below(t: Seq<char>, p: Seq<char>)
    requires
        wild::literal(t),
        t.len() > 0,
    ensures
        wild::wild(t + "/*"@, p) <==> exists|i: int| dir_at(p, i) && #[trigger] p.take(i) == t,
{
    reveal_strlit("/*");
    let u = t + seq!['/'];
    assert(t + "/*"@ =~= u + seq!['*']);
    assert(wild::literal(u));
    wild::lemma_front(u, p);
    lemma_some_dir_is(p, t);
}

/// `*tail/*` matches what is below a directory whose path ends with `tail`.
proof fn lemma_below_ending(u: Seq<char>, p: Seq<char>)
    requires
        wild::literal(u),
        u.len() > 0,
    ensures
        wild::wild("*"@ + u + "/*"@, p) <==> exists|i: int|
            dir_at(p, i) && text::ends(#[trigger] p.take(i), u),
{
    reveal_strlit("*");
    reveal_strlit("/*");
    let w = u + seq!['/'];
    assert("*"@ + u + "/*"@ =~= seq!['*'] + w + seq!['*']);
    assert(wild::literal(w));
    wild::lemma_inside(w, p);
    lemma_some_dir_ends(p, u);
}

/// A pattern without wildcards in front of `/***`.
proof fn lemma_triple_globs(v: PatternView, t: Seq<char>, p: Seq<char>)
    requires
        v.triple_star,
        !v.dir_only,
        laws::spells(v.tokens, t),
        t.len() > 0,
        wild::literal(t),
        file_path(p),
    ensures
        pattern_drops(v, p) <==> wild::any_wild(seq![t, t + "/*"@], p),
{
    reveal_strlit("/");
    assert("/"@ =~= seq!['/']);
    pathnorm::law_normal_form(p);
    laws::law_triple_star(v, t, p, false);
    lemma_any_of_two(t, t + "/*"@, p);
    wild::lemma_whole(t, p);
    lemma_below(t, p);
    lemma_some_dir_is(p, t);
    let u = t + seq!['/'];
    assert forall|i: int|
        dir_at(p, i) && v.matches(#[trigger] p.take(i), true) implies text::begins(p, u) by {
        let q = p.take(i);
        lemma_front_is_normal(p, i);
        laws::law_triple_star(v, t, q, true);
        if q != t {
            let n = t.len() as int + 1;
            assert(q.take(n) =~= p.take(n));
        }
    }
}

/// A name matches a file where the last component is the name.
proof fn lemma_name_matches(v: PatternView, t: Seq<char>, q: Seq<char>, is_dir: bool)
    requires
        v.basename_only,
        !v.triple_star,
        laws::spells(v.tokens, t),
        !t.contains('/'),
        q.len() > 0,
        pathnorm::normalized(q) == q,
        v.dir_only ==> is_dir,
    ensures
        v.matches(q, is_dir) <==> q == t || text::ends(q, seq!['/'] + t),
{
    laws::law_plain_pattern(v.tokens, t, pathnorm::base_name(q));
    lemma_base_is(q, t);
}

/// The directories on the way to `p` that a name matches.
proof fn lemma_name_on_way(v: PatternView, t: Seq<char>, p: Seq<char>)
    requires
        v.basename_only,
        !v.triple_star,
        laws::spells(v.tokens, t),
        t.len() > 0,
        !t.contains('/'),
        wild::literal(t),
        file_path(p),
    ensures
        (exists|i: int| dir_at(p, i) && v.matches(#[trigger] p.take(i), true)) <==> wild::wild(
            t + "/*"@,
            p,
        ) || wild::wild("*/"@ + t + "/*"@, p),
{
    reveal_strlit("*/");
    reveal_strlit("*");
    let u = seq!['/'] + t;
    assert(wild::literal(u));
    lemma_below(t, p);
    lemma_below_ending(u, p);
    assert("*/"@ + t + "/*"@ =~= "*"@ + u + "/*"@);
    assert forall|i: int| dir_at(p, i) implies (v.matches(#[trigger] p.take(i), true) <==> p.take(i)
        == t || text::ends(p.take(i), u)) by {
        lemma_front_is_normal(p, i);
        lemma_name_matches(v, t, p.take(i), true);
    }
}

/// A name, for files and directories or for directories alone.
proof fn lemma_name_globs(v: PatternView, t: Seq<char>, g: Seq<Seq<char>>, p: Seq<char>)
    requires
        v.basename_only,
        !v.triple_star,
        laws::spells(v.tokens, t),
        t.len() > 0,
        !t.contains('/'),
        wild::literal(t),
        g == if v.dir_only {
            seq![t + "/*"@, "*/"@ + t + "/*"@]
        } else {
            seq![t, "*/"@ + t, t + "/*"@, "*/"@ + t + "/*"@]
        },
        file_path(p),
    ensures
        pattern_drops(v, p) <==> wild::any_wild(g, p),
{
    pathnorm::law_normal_form(p);
    lemma_name_on_way(v, t, p);
    if v.dir_only {
        lemma_any_of_two(t + "/*"@, "*/"@ + t + "/*"@, p);
    } else {
        reveal_strlit("*/");
        let u = seq!['/'] + t;
        assert(wild::literal(u));
        assert("*/"@ + t =~= seq!['*'] + u);
        lemma_name_matches(v, t, p, false);
        wild::lemma_whole(t, p);
        wild::lemma_back(u, p);
        assert(g[0] == t && g[1] == "*/"@ + t && g[2] == t + "/*"@ && g[3] == "*/"@ + t + "/*"@);
    }
}

/// A directory given by its whole path.
proof fn lemma_dir_globs(v: PatternView, t: Seq<char>, p: Seq<char>)
    requires
        !v.basename_only,
        !v.triple_star,
        v.dir_only,
        laws::spells(v.tokens, t),
        t.len() > 0,
        wild::literal(t),
        file_path(p),
    ensures
        pattern_drops(v, p) <==> wild::any_wild(seq![t + "/*"@], p),
{
    let g = seq![t + "/*"@];
    assert(g[0] == t + "/*"@);
    lemma_below(t, p);
    assert forall|i: int| dir_at(p, i) implies (v.matches(#[trigger] p.take(i), true) <==> p.take(i)
        == t) by {
        lemma_front_is_normal(p, i);
        laws::law_plain_pattern(v.tokens, t, p.take(i));
    }
}

/// A pattern such as `*.ext`.
proof fn lemma_ending_globs(v: PatternView, t: Seq<char>, p: Seq<char>)
    requires
        v.basename_only,
        !v.triple_star,
        !v.dir_only,
        v.tokens.len() > 0,
        v.tokens[0] == TokView::Star,
        rsync::spelled(v.tokens.skip(1)) == Some(t),
        t.len() > 0,
        !t.contains('/'),
        wild::literal(t),
        file_path(p),
    ensures
        pattern_drops(v, p) <==> wild::any_wild(seq!["*"@ + t, "*"@ + t + "/*"@], p),
{
    reveal_strlit("*");
    assert("*"@ =~= seq!['*']);
    pathnorm::law_normal_form(p);
    lemma_any_of_two("*"@ + t, "*"@ + t + "/*"@, p);
    wild::lemma_back(t, p);
    lemma_below_ending(t, p);
    assert forall|i: int| 0 < i <= p.len() implies (glob::glob(
        v.tokens,
        pathnorm::base_name(#[trigger] p.take(i)),
    ) <==> text::ends(p.take(i), t)) && pathnorm::normalized(p.take(i)) == p.take(i) by {
        let q = p.take(i);
        lemma_front_is_normal(p, i);
        let k = lemma_last_component(q);
        lemma_star_and_text(v.tokens, t, pathnorm::base_name(q));
        lemma_base_ends(q, t);
    }
    assert(p.take(p.len() as int) =~= p);
}

/// Law: the exclusion globs of a pattern match exactly the files that the pattern drops, itself or
/// by a directory on the way to them.
pub proof fn law_pattern_globs(v: PatternView, g: Seq<Seq<char>>, p: Seq<char>)
    requires
        v.globs() == Some(g),
        file_path(p),
    ensures
        pattern_drops(v, p) <==> wild::any_wild(g, p),
{
    match rsync::spelled(v.tokens) {
        Some(t) => {
            lemma_spelled(v.tokens, t);
            if v.triple_star {
                lemma_triple_globs(v, t, p);
            } else if v.basename_only {
                lemma_name_globs(v, t, g, p);
            } else {
                lemma_dir_globs(v, t, p);
            }
        },
        None => {
            let t = rsync::spelled(v.tokens.skip(1))->0;
            assert(v.tokens.len() > 0);
            assert forall|i: int| 0 <= i < t.len() implies (#[trigger] t[i]) != '*' && t[i] != '?'
                && t[i] != '/' by {
                if i > 0 {
                    assert(rsync::CharSet::Word.has(t.skip(1)[i - 1]));
                }
            }
            assert(!t.contains('/'));
            lemma_ending_globs(v, t, p);
        },
    }
}

// ---------------------------------------------------------------------------------------------
// Regular expressions
// ---------------------------------------------------------------------------------------------
/// `cases` writes out every text that differs from `t` in case alone.
proof fn lemma_cases(t: Seq<char>, v: Seq<char>)
    ensures
        plain::cases(t).contains(v) <==> text::lower(v) == text::lower(t),
    decreases t.len(),
{
    let all = plain::cases(t);
    if t.len() == 0 {
        assert(all[0] == Seq::<char>::empty());
        if all.contains(v) {
            assert(text::lower(v) =~= text::lower(t));
        }
        if text::lower(v) == text::lower(t) {
            assert(text::lower(v).len() == 0);
            assert(v =~= Seq::<char>::empty());
        }
    } else {
        let u = t.drop_last();
        let front = plain::cases(u);
        let c = text::lower_char(t.last());
        let n = front.len() as int;
        assert(text::lower(t) =~= text::lower(u).push(c));
        if all.contains(v) {
            let j = choose|j: int| 0 <= j < all.len() && all[j] == v;
            let f = if j < n {
                front[j]
            } else {
                front[j - n]
            };
            assert(front.contains(f));
            lemma_cases(u, f);
            assert(v == f.push(v.last()));
            assert(text::lower_char(v.last()) == c);
            assert(text::lower(v) =~= text::lower(f).push(c));
        }
        if text::lower(v) == text::lower(t) {
            assert(text::lower(v).len() == t.len());
            let f = v.drop_last();
            let x = v.last();
            assert(text::lower(v).last() == text::lower_char(x));
            assert(text::lower(f) =~= text::lower(v).drop_last());
            assert(text::lower(u) =~= text::lower(t).drop_last());
            lemma_cases(u, f);
            let j = choose|j: int| 0 <= j < front.len() && front[j] == f;
            assert(f.push(x) =~= v);
            if x == c {
                assert(all[j] == v);
            } else {
                assert(x == plain::upper_char(c));
                assert(all[j + n] == v);
            }
        }
    }
}

/// Some text of `tails` is at the end of `s`.
spec fn some_ending(tails: Seq<Seq<char>>, s: Seq<char>) -> bool {
    exists|j: int| 0 <= j < tails.len() && text::ends(s, #[trigger] tails[j])
}

/// Case does not count at the end of a text where one of the cases is there.
proof fn lemma_any_case(t: Seq<char>, s: Seq<char>)
    ensures
        FormView::EndsAnyCase(t).holds(s) <==> some_ending(plain::cases(t), s),
{
    let all = plain::cases(t);
    let low = text::lower(s);
    if text::ends(low, text::lower(t)) {
        let k = s.len() - t.len();
        let v = s.skip(k);
        assert(text::lower(v) =~= low.skip(k));
        lemma_cases(t, v);
        let j = choose|j: int| 0 <= j < all.len() && all[j] == v;
        assert(text::ends(s, all[j]));
    }
    if some_ending(all, s) {
        let j = choose|j: int| 0 <= j < all.len() && text::ends(s, #[trigger] all[j]);
        let v = all[j];
        assert(all.contains(v));
        lemma_cases(t, v);
        assert(text::lower(v).len() == text::lower(t).len());
        let k = s.len() - v.len();
        assert(low.skip(k) =~= text::lower(s.skip(k)));
    }
}

/// The globs for endings match what has one of the endings.
proof fn lemma_globs_of_endings(tails: Seq<Seq<char>>, basename_only: bool, p: Seq<char>)
    requires
        forall|j: int| 0 <= j < tails.len() ==> wild::literal(#[trigger] tails[j]),
    ensures
        wild::any_wild(plain::ending_globs(tails, basename_only), p) <==> some_ending(tails, p),
{
    reveal_strlit("*");
    reveal_strlit("*/*");
    assert("*"@ =~= seq!['*']);
    assert("*/*"@ =~= seq!['*', '/', '*']);
    let g = plain::ending_globs(tails, basename_only);
    let n = tails.len() as int;
    if some_ending(tails, p) {
        let j = choose|j: int| 0 <= j < tails.len() && text::ends(p, #[trigger] tails[j]);
        wild::lemma_back(tails[j], p);
        assert(g[j] == "*"@ + tails[j]);
    }
    if wild::any_wild(g, p) {
        let j = choose|j: int| 0 <= j < g.len() && wild::wild(#[trigger] g[j], p);
        if j < n {
            assert(g[j] == "*"@ + tails[j]);
            wild::lemma_back(tails[j], p);
        } else {
            assert(g[j] == "*/*"@ + tails[j - n]);
            wild::lemma_below_back(tails[j - n], p);
        }
    }
}

/// An ending of a path without a slash is one of its last component.
proof fn lemma_some_ending_of_base(tails: Seq<Seq<char>>, p: Seq<char>)
    requires
        forall|j: int| 0 <= j < tails.len() ==> !(#[trigger] tails[j]).contains('/'),
    ensures
        some_ending(tails, pathnorm::after_last(p, '/')) <==> some_ending(tails, p),
{
    let b = pathnorm::after_last(p, '/');
    assert forall|j: int| 0 <= j < tails.len() implies (text::ends(b, #[trigger] tails[j])
        <==> text::ends(p, tails[j])) by {
        lemma_base_ends(p, tails[j]);
    }
}

/// The ending that an expression names holds neither a wildcard nor a slash, in no case.
proof fn lemma_ending_is_plain(pattern: Seq<char>, t: Seq<char>, v: Seq<char>)
    requires
        plain::suffix_ext(pattern) == Some(t),
        text::lower(v) == text::lower(t),
    ensures
        wild::literal(v),
        !v.contains('/'),
{
    reveal_strlit(".");
    let q = plain::without_prefix(plain::without_prefix(pattern, "(?i)"@), "(?-i)"@);
    let ext = q.skip(2).drop_last();
    assert(t == "."@ + ext);
    assert(text::lower(v).len() == v.len() && text::lower(t).len() == t.len());
    assert forall|i: int| 0 <= i < v.len() implies (#[trigger] v[i]) != '*' && v[i] != '?' && v[i]
        != '/' by {
        assert(text::lower(v)[i] == text::lower_char(v[i]));
        assert(text::lower(t)[i] == text::lower_char(t[i]));
        if i > 0 {
            assert(t[i] == ext[i - 1]);
            assert(rsync::CharSet::Alnum.has(ext[i - 1]));
        } else {
            assert(t[0] == '.');
        }
    }
}

/// Endings, in one way or in upper and lower case.
proof fn lemma_regex_endings(
    pattern: Seq<char>,
    t: Seq<char>,
    tails: Seq<Seq<char>>,
    basename_only: bool,
    p: Seq<char>,
)
    requires
        plain::suffix_ext(pattern) == Some(t),
        forall|j: int|
            0 <= j < tails.len() ==> text::lower(#[trigger] tails[j]) == text::lower(t),
        file_path(p),
    ensures
        some_ending(tails, member::regex_subject(p, basename_only)) <==> wild::any_wild(
            plain::ending_globs(tails, basename_only),
            p,
        ),
{
    pathnorm::law_normal_form(p);
    assert forall|j: int| 0 <= j < tails.len() implies wild::literal(#[trigger] tails[j])
        && !tails[j].contains('/') by {
        lemma_ending_is_plain(pattern, t, tails[j]);
    }
    lemma_globs_of_endings(tails, basename_only, p);
    lemma_some_ending_of_base(tails, p);
}

/// The name that an expression matches holds neither a wildcard nor a slash.
proof fn lemma_plain_name(s: Seq<char>, t: Seq<char>)
    requires
        plain::plain_name(s) == Some(t),
    ensures
        wild::literal(t),
        !t.contains('/'),
    decreases s.len(),
{
    if s.len() > 0 {
        let (c, n): (char, int) = if s[0] == '\\' {
            ('.', 2)
        } else {
            (s[0], 1)
        };
        let u = plain::plain_name(s.skip(n))->0;
        lemma_plain_name(s.skip(n), u);
        assert(t == seq![c] + u);
        assert forall|i: int| 0 <= i < t.len() implies (#[trigger] t[i]) != '*' && t[i] != '?'
            && t[i] != '/' by {
            if i > 0 {
                assert(t[i] == u[i - 1]);
                assert(u.contains(u[i - 1]));
            }
        }
    }
}

/// A text that an expression begins with, or is, holds no wildcard.
proof fn lemma_form_is_literal(pattern: Seq<char>, t: Seq<char>)
    requires
        plain::plain_form(pattern) == Some(FormView::Begins(t)) || plain::plain_form(pattern)
            == Some(FormView::Whole(t)),
    ensures
        wild::literal(t),
{
    if plain::simple_path(t) {
        assert forall|i: int| 0 <= i < t.len() implies (#[trigger] t[i]) != '*' && t[i] != '?' by {
            assert(rsync::CharSet::Path.has(t[i]));
        }
    } else {
        lemma_plain_name(pattern.subrange(1, pattern.len() - 1), t);
    }
}

/// Law: the exclusion globs of a regular expression match exactly the files that it matches.
pub proof fn law_regex_globs(
    pattern: Seq<char>,
    basename_only: bool,
    g: Seq<Seq<char>>,
    p: Seq<char>,
)
    requires
        plain::regex_globs(pattern, basename_only) == Some(g),
        file_path(p),
    ensures
        regexes::regex_says(pattern, member::regex_subject(p, basename_only)) <==> wild::any_wild(
            g,
            p,
        ),
{
    let s = member::regex_subject(p, basename_only);
    pathnorm::law_normal_form(p);
    match plain::plain_form(pattern)->0 {
        FormView::Ends(t) => {
            let tails = seq![t];
            assert(tails[0] == t);
            lemma_regex_endings(pattern, t, tails, basename_only, p);
        },
        FormView::EndsAnyCase(t) => {
            let tails = plain::cases(t);
            assert forall|j: int| 0 <= j < tails.len() implies text::lower(#[trigger] tails[j])
                == text::lower(t) by {
                assert(tails.contains(tails[j]));
                lemma_cases(t, tails[j]);
            }
            lemma_any_case(t, s);
            lemma_regex_endings(pattern, t, tails, basename_only, p);
        },
        FormView::Begins(t) => {
            reveal_strlit("*");
            assert("*"@ =~= seq!['*']);
            lemma_form_is_literal(pattern, t);
            wild::lemma_front(t, p);
            assert(g[0] == t + "*"@);
        },
        FormView::Whole(t) => {
            lemma_form_is_literal(pattern, t);
            wild::lemma_whole(t, p);
            assert(g[0] == t);
            if basename_only {
                reveal_strlit("*/");
                let u = seq!['/'] + t;
                assert("*/"@ + t =~= seq!['*'] + u);
                assert(wild::literal(u));
                wild::lemma_back(u, p);
                lemma_base_is(p, t);
                assert(g[1] == "*/"@ + t);
            }
        },
    }
}

// ---------------------------------------------------------------------------------------------
// Filters
// ---------------------------------------------------------------------------------------------
/// Rules that only drop: what the first match says.
proof fn lemma_first_match_of_drops(
    rules: Seq<RuleView>,
    p: Seq<char>,
    is_dir: bool,
    basename_only: bool,
)
    requires
        forall|i: int| 0 <= i < rules.len() ==> !(#[trigger] rules[i]).keep(),
    ensures
        member::first_match(rules, p, is_dir, basename_only) == Some(false) <==> exists|i: int|
            0 <= i < rules.len() && (#[trigger] rules[i]).matches(p, is_dir, basename_only),
    decreases rules.len(),
{
    if rules.len() > 0 && !rules[0].matches(p, is_dir, basename_only) {
        let rest = rules.skip(1);
        assert forall|i: int| 0 <= i < rest.len() implies !(#[trigger] rest[i]).keep() by {
            assert(rest[i] == rules[i + 1]);
        }
        lemma_first_match_of_drops(rest, p, is_dir, basename_only);
        if exists|i: int|
            0 <= i < rules.len() && (#[trigger] rules[i]).matches(p, is_dir, basename_only) {
            let i = choose|i: int|
                0 <= i < rules.len() && (#[trigger] rules[i]).matches(p, is_dir, basename_only);
            assert(rest[i - 1].matches(p, is_dir, basename_only));
        }
        if exists|i: int|
            0 <= i < rest.len() && (#[trigger] rest[i]).matches(p, is_dir, basename_only) {
            let i = choose|i: int|
                0 <= i < rest.len() && (#[trigger] rest[i]).matches(p, is_dir, basename_only);
            assert(rules[i + 1].matches(p, is_dir, basename_only));
        }
    }
}

/// Rules that only drop: what the first match of a pattern says.
proof fn lemma_first_rsync_match_of_drops(rules: Seq<RuleView>, p: Seq<char>)
    requires
        forall|i: int| 0 <= i < rules.len() ==> !(#[trigger] rules[i]).keep(),
    ensures
        member::first_rsync_match(rules, p, true) == Some(false) <==> exists|i: int|
            0 <= i < rules.len() && (#[trigger] rules[i]) is Rsync && rules[i].matches(
                p,
                true,
                false,
            ),
    decreases rules.len(),
{
    if rules.len() > 0 && !(rules[0] is Rsync && rules[0].matches(p, true, false)) {
        let rest = rules.skip(1);
        assert forall|i: int| 0 <= i < rest.len() implies !(#[trigger] rest[i]).keep() by {
            assert(rest[i] == rules[i + 1]);
        }
        lemma_first_rsync_match_of_drops(rest, p);
        if exists|i: int|
            0 <= i < rules.len() && (#[trigger] rules[i]) is Rsync && rules[i].matches(
                p,
                true,
                false,
            ) {
            let i = choose|i: int|
                0 <= i < rules.len() && (#[trigger] rules[i]) is Rsync && rules[i].matches(
                    p,
                    true,
                    false,
                );
            assert(rest[i - 1] is Rsync && rest[i - 1].matches(p, true, false));
        }
        if exists|i: int|
            0 <= i < rest.len() && (#[trigger] rest[i]) is Rsync && rest[i].matches(
                p,
                true,
                false,
            ) {
            let i = choose|i: int|
                0 <= i < rest.len() && (#[trigger] rest[i]) is Rsync && rest[i].matches(
                    p,
                    true,
                    false,
                );
            assert(rules[i + 1] is Rsync && rules[i + 1].matches(p, true, false));
        }
    }
}

/// Some rule drops `p`.
spec fn some_rule_drops(f: FilterView, p: Seq<char>) -> bool {
    exists|i: int| 0 <= i < f.rules.len() && rule_drops(#[trigger] f.rules[i], p, f.basename_only)
}

/// A filter whose rules only drop leaves out the files that some rule drops.
proof fn lemma_only_drops(f: FilterView, p: Seq<char>)
    requires
        !f.has_keep(),
        file_path(p),
    ensures
        !f.keeps(p, false) <==> some_rule_drops(f, p),
{
    let b = f.basename_only;
    let parts = member::path_parts(p);
    pathnorm::law_normal_form(p);
    lemma_first_match_of_drops(f.rules, p, false, b);
    if !f.reaches(p, false) {
        let n = choose|n: int|
            1 <= n <= member::walked(parts, false) && member::first_rsync_match(
                f.rules,
                #[trigger] member::leading(parts, n),
                true,
            ) == Some(false);
        let i = lemma_dir_of_parts(p, n);
        lemma_first_rsync_match_of_drops(f.rules, p.take(i));
        let k = choose|k: int|
            0 <= k < f.rules.len() && (#[trigger] f.rules[k]) is Rsync && f.rules[k].matches(
                p.take(i),
                true,
                false,
            );
        assert(rule_drops(f.rules[k], p, b));
    }
    if member::first_match(f.rules, p, false, b) == Some(false) {
        let k = choose|k: int|
            0 <= k < f.rules.len() && (#[trigger] f.rules[k]).matches(p, false, b);
        assert(rule_drops(f.rules[k], p, b));
    }
    if some_rule_drops(f, p) {
        let k = choose|k: int| 0 <= k < f.rules.len() && rule_drops(#[trigger] f.rules[k], p, b);
        if !f.rules[k].matches(p, false, b) {
            let v = f.rules[k]->Rsync_0;
            let i = choose|i: int| dir_at(p, i) && v.matches(#[trigger] p.take(i), true);
            let n = lemma_parts_of_dir(p, i);
            lemma_first_rsync_match_of_drops(f.rules, p.take(i));
            assert(f.rules[k] is Rsync && f.rules[k].matches(p.take(i), true, false));
            assert(f.has_rsync());
            assert(member::first_rsync_match(f.rules, member::leading(parts, n), true) == Some(
                false,
            ));
        }
    }
}

/// The globs of all rules match what the globs of some rule match.
proof fn lemma_all_globs(rules: Seq<RuleView>, b: bool, g: Seq<Seq<char>>, p: Seq<char>)
    requires
        member::rule_globs(rules, b) == Some(g),
        file_path(p),
    ensures
        wild::any_wild(g, p) <==> exists|i: int|
            0 <= i < rules.len() && rule_drops(#[trigger] rules[i], p, b),
    decreases rules.len(),
{
    if rules.len() > 0 {
        let front = rules.drop_last();
        let r = rules.last();
        let a = member::rule_globs(front, b)->0;
        let c = r.globs(b)->0;
        lemma_all_globs(front, b, a, p);
        assert(rule_drops(r, p, b) <==> wild::any_wild(c, p)) by {
            match r {
                RuleView::Regex { pattern, .. } => {
                    law_regex_globs(pattern, b, c, p);
                },
                RuleView::Rsync(v) => {
                    law_pattern_globs(v, c, p);
                },
            }
        }
        assert(g == a + c);
        let n = a.len() as int;
        if wild::any_wild(g, p) {
            let j = choose|j: int| 0 <= j < g.len() && wild::wild(#[trigger] g[j], p);
            if j < n {
                assert(wild::wild(a[j], p));
                let i = choose|i: int|
                    0 <= i < front.len() && rule_drops(#[trigger] front[i], p, b);
                assert(rules[i] == front[i]);
            } else {
                assert(wild::wild(c[j - n], p));
                assert(rules[rules.len() - 1] == r);
            }
        }
        if exists|i: int| 0 <= i < rules.len() && rule_drops(#[trigger] rules[i], p, b) {
            let i = choose|i: int| 0 <= i < rules.len() && rule_drops(#[trigger] rules[i], p, b);
            if i < front.len() {
                assert(rule_drops(front[i], p, b));
                let j = choose|j: int| 0 <= j < a.len() && wild::wild(#[trigger] a[j], p);
                assert(wild::wild(g[j], p));
            } else {
                let j = choose|j: int| 0 <= j < c.len() && wild::wild(#[trigger] c[j], p);
                assert(wild::wild(g[j + n], p));
            }
        }
    }
}

/// Law: where a filter is mapped to exclusion globs, the globs match exactly the files that the
/// filter drops.
pub proof fn law_globs_do_what_the_filter_does(f: FilterView, g: Seq<Seq<char>>, p: Seq<char>)
    requires
        f.globs() == Some(g),
        file_path(p),
    ensures
        !f.keeps(p, false) <==> wild::any_wild(g, p),
{
    lemma_only_drops(f, p);
    lemma_all_globs(f.rules, f.basename_only, g, p);
}

/// Law: the globs of a pattern that a text writes match exactly the files that a filter with this
/// one rule drops.
pub proof fn law_globs_of_one_pattern(
    pattern: Seq<char>,
    v: PatternView,
    g: Seq<Seq<char>>,
    p: Seq<char>,
)
    requires
        rsync::parsed_pattern(pattern, false) == Ok::<PatternView, ErrorView>(v),
        rsync::pattern_globs(pattern) == Some(g),
        file_path(p),
    ensures
        ({
            let f = FilterView { rules: seq![RuleView::Rsync(v)], basename_only: false };
            !f.keeps(p, false) <==> wild::any_wild(g, p)
        }),
{
    let f = FilterView { rules: seq![RuleView::Rsync(v)], basename_only: false };
    let none = Seq::<RuleView>::empty();
    assert(f.rules.drop_last() =~= none);
    assert(member::rule_globs(none, false) == Some(Seq::<Seq<char>>::empty()));
    assert(f.rules.last() == RuleView::Rsync(v));
    assert(Seq::<Seq<char>>::empty() + g =~= g);
    assert(f.globs() == Some(g));
    law_globs_do_what_the_filter_does(f, g, p);
}

/// Law: a filter without rules is mapped to no globs at all, and one with a rule that keeps is not
/// mapped.
pub proof fn law_when_globs_are_given(f: FilterView)
    ensures
        f.rules.len() == 0 ==> f.globs() == Some(Seq::<Seq<char>>::empty()),
        f.has_keep() ==> f.globs() is None,
{
}

} // verus!
