//! What patterns match, told from the text in which they are written.

use crate::error::ErrorView;
use crate::filter::exclude_laws;
use crate::filter::glob;
use crate::filter::glob::TokView;
use crate::filter::laws;
use crate::filter::rsync;
use crate::filter::rsync::{CharSet, PatternView};
use crate::util::pathnorm;
use crate::util::text;
use vstd::prelude::*;

verus! {

/// A pattern, as it is written, matches the whole of `s`.
pub open spec fn says(body: Seq<char>, s: Seq<char>) -> bool {
    glob::tokens_of(body) is Ok && glob::glob(glob::tokens_of(body)->Ok_0, s)
}

/// The characters stand for themselves.
pub open spec fn plain_text(u: Seq<char>) -> bool {
    forall|i: int|
        0 <= i < u.len() ==> (#[trigger] u[i]) != '\\' && u[i] != '?' && u[i] != '*' && u[i] != '['
}

// ---------------------------------------------------------------------------------------------
// One piece after the other
// ---------------------------------------------------------------------------------------------
/// One token for one character, in front of others.
proof fn lemma_takes_one(t: TokView, v: Seq<TokView>, s: Seq<char>)
    requires
        t is Lit || t is Ques || t is Class,
    ensures
        glob::glob(seq![t] + v, s) <==> s.len() > 0 && glob::takes(t, s[0]) && glob::glob(
            v,
            s.skip(1),
        ),
{
    let pat = seq![t] + v;
    assert(pat[0] == t);
    assert(pat.skip(1) =~= v);
}

/// A pattern of which the first token and what follows it are known.
proof fn lemma_says_one(body: Seq<char>, t: TokView, rest: Seq<char>, s: Seq<char>)
    requires
        t is Lit || t is Ques || t is Class,
        glob::tokens_of(body) == glob::in_front(t, glob::tokens_of(rest)),
    ensures
        says(body, s) <==> s.len() > 0 && glob::takes(t, s[0]) && says(rest, s.skip(1)),
{
    if glob::tokens_of(rest) is Ok {
        lemma_takes_one(t, glob::tokens_of(rest)->Ok_0, s);
    }
}

/// Law: the empty pattern matches the empty text alone.
pub proof fn law_empty_pattern(s: Seq<char>)
    ensures
        says(Seq::empty(), s) <==> s.len() == 0,
{
}

/// Law: plain characters match themselves, and what follows them in the pattern matches what
/// follows them in the text.
pub proof fn law_plain_characters(u: Seq<char>, b: Seq<char>, s: Seq<char>)
    requires
        plain_text(u),
    ensures
        says(u + b, s) <==> text::begins(s, u) && says(b, s.skip(u.len() as int)),
    decreases u.len(),
{
    let n = u.len() as int;
    if u.len() == 0 {
        assert(u + b =~= b);
        assert(s.skip(0) =~= s);
        assert(s.take(0) =~= u);
    } else {
        let w = u.skip(1);
        let body = u + b;
        assert(u[0] != '\\' && u[0] != '?' && u[0] != '*' && u[0] != '[');
        assert(body.skip(1) =~= w + b);
        assert(body[0] == u[0]);
        lemma_says_one(body, TokView::Lit(u[0]), w + b, s);
        assert forall|i: int| 0 <= i < w.len() implies (#[trigger] w[i]) != '\\' && w[i] != '?'
            && w[i] != '*' && w[i] != '[' by {
            assert(w[i] == u[i + 1]);
        }
        law_plain_characters(w, b, s.skip(1));
        if s.len() > 0 {
            let t = s.skip(1);
            assert(s.len() >= n ==> t.skip(n - 1) =~= s.skip(n));
            if text::begins(s, u) {
                assert(s[0] == s.take(n)[0]);
                assert(t.take(n - 1) =~= s.take(n).skip(1));
            }
            if s[0] == u[0] && text::begins(t, w) {
                assert(s.take(n) =~= seq![s[0]] + t.take(n - 1));
                assert(u =~= seq![u[0]] + w);
            }
        }
    }
}

/// Law: `?` takes one character, whatever it is but a slash.
pub proof fn law_question_mark(b: Seq<char>, s: Seq<char>)
    ensures
        says(seq!['?'] + b, s) <==> s.len() > 0 && s[0] != '/' && says(b, s.skip(1)),
{
    let body = seq!['?'] + b;
    assert(body.skip(1) =~= b);
    lemma_says_one(body, TokView::Ques, b, s);
}

/// Law: a character behind a backslash stands for itself; a backslash at the end makes no pattern.
pub proof fn law_escaped_character(c: char, b: Seq<char>, s: Seq<char>)
    ensures
        says(seq!['\\', c] + b, s) <==> s.len() > 0 && s[0] == c && says(b, s.skip(1)),
        !says(seq!['\\'], s),
{
    let body = seq!['\\', c] + b;
    assert(body.skip(2) =~= b);
    lemma_says_one(body, TokView::Lit(c), b, s);
}

/// Some number of characters from the front of `s`, none of which is a slash unless `any`, can be
/// left out so that the pattern `b` matches the rest.
pub open spec fn says_behind(b: Seq<char>, s: Seq<char>, any: bool) -> bool {
    exists|k: int|
        0 <= k <= s.len() && (any || !s.take(k).contains('/')) && says(b, #[trigger] s.skip(k))
}

/// Law: a single `*` takes any number of characters, none of which is a slash.
pub proof fn law_one_star(b: Seq<char>, s: Seq<char>)
    requires
        b.len() == 0 || b[0] != '*',
    ensures
        says(seq!['*'] + b, s) <==> says_behind(b, s, false),
{
    let body = seq!['*'] + b;
    assert(body.skip(1) =~= b);
    assert forall|k: int| 0 <= k <= s.len() implies (glob::slash_free(s, k)
        <==> !(#[trigger] s.take(k)).contains('/')) by {
        if s.take(k).contains('/') {
            let j = choose|j: int| 0 <= j < k && s.take(k)[j] == '/';
            assert(s[j] == '/');
        }
        if !s.take(k).contains('/') {
            assert forall|j: int| 0 <= j < k implies #[trigger] s[j] != '/' by {
                assert(s.take(k)[j] == s[j]);
            }
        }
    }
    if glob::tokens_of(b) is Ok {
        let v = glob::tokens_of(b)->Ok_0;
        let pat = seq![TokView::Star] + v;
        assert(pat.skip(1) =~= v);
        if glob::glob(pat, s) {
            let k = choose|k: int|
                0 <= k <= s.len() && glob::slash_free(s, k) && glob::glob(
                    pat.skip(1),
                    #[trigger] s.skip(k),
                );
            assert(!s.take(k).contains('/'));
            assert(says(b, s.skip(k)));
        }
        if says_behind(b, s, false) {
            let k = choose|k: int|
                0 <= k <= s.len() && (false || !s.take(k).contains('/')) && says(
                    b,
                    #[trigger] s.skip(k),
                );
            assert(glob::slash_free(s, k) && glob::glob(pat.skip(1), s.skip(k)));
        }
    }
}

/// Law: `**` takes any number of characters, slashes too; with a slash behind it, it takes also
/// nothing at all and the slash with it.
pub proof fn law_two_stars(b: Seq<char>, s: Seq<char>)
    requires
        b.len() == 0 || b[0] != '*' && b[0] != '\\',
    ensures
        says(seq!['*', '*'] + b, s) <==> says_behind(b, s, true) || b.len() > 0 && b[0] == '/'
            && says(b.skip(1), s),
{
    let body = seq!['*', '*'] + b;
    assert(body.skip(1).skip(1) =~= b);
    assert(text::strip_front(body.skip(1), '*') == text::strip_front(b, '*'));
    assert(text::strip_front(body, '*') == b);
    if glob::tokens_of(b) is Ok {
        let v = glob::tokens_of(b)->Ok_0;
        let pat = seq![TokView::GlobStar] + v;
        assert(pat.skip(1) =~= v);
        if b.len() > 0 && b[0] == '/' {
            let w = glob::tokens_of(b.skip(1))->Ok_0;
            assert(v =~= seq![TokView::Lit('/')] + w);
            assert(pat[1] == TokView::Lit('/'));
            assert(pat.skip(2) =~= w);
        } else if v.len() > 0 {
            assert(pat[1] == v[0]);
            lemma_some_token(b);
        }
        if exists|k: int| 0 <= k <= s.len() && glob::glob(pat.skip(1), #[trigger] s.skip(k)) {
            let k = choose|k: int|
                0 <= k <= s.len() && glob::glob(pat.skip(1), #[trigger] s.skip(k));
            assert(says(b, s.skip(k)));
        }
        if says_behind(b, s, true) {
            let k = choose|k: int|
                0 <= k <= s.len() && (true || !s.take(k).contains('/')) && says(
                    b,
                    #[trigger] s.skip(k),
                );
            assert(glob::glob(pat.skip(1), s.skip(k)));
        }
    } else if b.len() > 0 && b[0] == '/' {
        assert(glob::tokens_of(b.skip(1)) is Err);
    }
}

// ---------------------------------------------------------------------------------------------
// Classes
// ---------------------------------------------------------------------------------------------
/// The characters of a class that has no ranges.
pub open spec fn members(m: Seq<char>) -> bool {
    m.len() > 0 && forall|i: int| 0 <= i < m.len() ==> (#[trigger] m[i]) != ']' && m[i] != '-'
}

proof fn lemma_class_of_members(m: Seq<char>, b: Seq<char>, first: bool)
    requires
        forall|i: int| 0 <= i < m.len() ==> (#[trigger] m[i]) != ']' && m[i] != '-',
        m.len() > 0 || !first,
    ensures
        glob::class_body(m + seq![']'] + b, first) == Some(
            (m, Seq::<(char, char)>::empty(), m.len() as int + 1),
        ),
    decreases m.len(),
{
    let s = m + seq![']'] + b;
    if m.len() == 0 {
        assert(s[0] == ']');
        assert(m =~= Seq::<char>::empty());
    } else {
        let w = m.skip(1);
        assert(s[0] == m[0]);
        assert(m[0] != ']' && m[0] != '-');
        if m.len() > 1 {
            assert(s[1] == m[1]);
            assert(m[1] != '-');
        } else {
            assert(s[1] == ']');
        }
        assert forall|i: int| 0 <= i < w.len() implies (#[trigger] w[i]) != ']' && w[i] != '-' by {
            assert(w[i] == m[i + 1]);
        }
        assert(s.skip(1) =~= w + seq![']'] + b);
        lemma_class_of_members(w, b, false);
        assert(seq![m[0]] + w =~= m);
    }
}

/// Law: a class takes one character that is among its members, and one that begins with `!` or `^`
/// a character that is not; neither takes a slash.
pub proof fn law_character_class(m: Seq<char>, mark: char, b: Seq<char>, s: Seq<char>)
    requires
        members(m),
        m[0] != '!' && m[0] != '^',
        mark == '!' || mark == '^',
    ensures
        says(seq!['['] + (m + seq![']'] + b), s) <==> s.len() > 0 && s[0] != '/' && m.contains(s[0])
            && says(b, s.skip(1)),
        says(seq!['[', mark] + (m + seq![']'] + b), s) <==> s.len() > 0 && s[0] != '/'
            && !m.contains(s[0]) && says(b, s.skip(1)),
{
    let inner = m + seq![']'] + b;
    let none = Seq::<(char, char)>::empty();
    lemma_class_of_members(m, b, true);
    let one = seq!['['] + inner;
    let n = m.len() as int + 2;
    assert(one.skip(1) =~= inner);
    assert(one[1] == m[0]);
    assert(one.skip(n) =~= b);
    let t = TokView::Class { negated: false, chars: m, ranges: none };
    assert(glob::class_at(one) == Some((t, n)));
    lemma_says_one(one, t, b, s);
    let two = seq!['[', mark] + inner;
    assert(two.skip(2) =~= inner);
    assert(two[1] == mark);
    assert(two.skip(n + 1) =~= b);
    let u = TokView::Class { negated: true, chars: m, ranges: none };
    assert(glob::class_at(two) == Some((u, n + 1)));
    lemma_says_one(two, u, b, s);
}

/// Law: a class of a range takes one character from the one end to the other, whichever of the two
/// is written first, and never a slash.
pub proof fn law_character_range(x: char, y: char, mark: char, b: Seq<char>, s: Seq<char>)
    requires
        y != ']',
        x != '!' && x != '^',
        mark == '!' || mark == '^',
    ensures
        says(seq!['[', x, '-', y, ']'] + b, s) <==> s.len() > 0 && s[0] != '/' && (x <= s[0] <= y || y
            <= s[0] <= x) && says(b, s.skip(1)),
        says(seq!['[', mark, x, '-', y, ']'] + b, s) <==> s.len() > 0 && s[0] != '/' && !(x <= s[0]
            <= y || y <= s[0] <= x) && says(b, s.skip(1)),
{
    let inner = seq![x, '-', y, ']'] + b;
    let range = if x <= y {
        (x, y)
    } else {
        (y, x)
    };
    let none = Seq::<char>::empty();
    let end = seq![']'] + b;
    assert(inner.skip(3) =~= end);
    assert(end =~= none + seq![']'] + b);
    lemma_class_of_members(none, b, false);
    let ranges = seq![range] + Seq::<(char, char)>::empty();
    assert(ranges[0] == range);
    assert(glob::class_body(inner, true) == Some((none, ranges, 4int)));
    let one = seq!['[', x, '-', y, ']'] + b;
    assert(one.skip(1) =~= inner);
    assert(one.skip(5) =~= b);
    let t = TokView::Class { negated: false, chars: none, ranges };
    assert(glob::class_at(one) == Some((t, 5int)));
    lemma_says_one(one, t, b, s);
    let two = seq!['[', mark, x, '-', y, ']'] + b;
    assert(two.skip(2) =~= inner);
    assert(two.skip(6) =~= b);
    let u = TokView::Class { negated: true, chars: none, ranges };
    assert(glob::class_at(two) == Some((u, 6int)));
    lemma_says_one(two, u, b, s);
    if s.len() > 0 {
        lemma_one_range(s[0], ranges, range);
    }
}

proof fn lemma_one_range(c: char, ranges: Seq<(char, char)>, range: (char, char))
    requires
        ranges.len() == 1,
        ranges[0] == range,
    ensures
        glob::in_class(c, Seq::empty(), ranges) <==> range.0 <= c <= range.1,
{
    if range.0 <= c <= range.1 {
        assert(ranges[0].0 <= c <= ranges[0].1);
    }
}

proof fn lemma_class_not_closed(m: Seq<char>, first: bool)
    requires
        !m.contains(']'),
    ensures
        glob::class_body(m, first) is None,
    decreases m.len(),
{
    if m.len() > 0 {
        assert(m[0] != ']');
        if m.len() > 2 && m[1] == '-' && m[2] != ']' {
            let w = m.skip(3);
            assert forall|i: int| 0 <= i < w.len() implies w[i] != ']' by {
                assert(w[i] == m[i + 3]);
            }
            lemma_class_not_closed(w, false);
        } else {
            let w = m.skip(1);
            assert forall|i: int| 0 <= i < w.len() implies w[i] != ']' by {
                assert(w[i] == m[i + 1]);
            }
            lemma_class_not_closed(w, false);
        }
    }
}

/// Law: a class that is not closed makes no pattern.
pub proof fn law_class_has_to_be_closed(m: Seq<char>, keep: bool)
    requires
        !m.contains(']'),
        m.len() > 0,
        !text::is_space(m.last()),
        m.last() != '/',
        m.last() != '*',
    ensures
        rsync::parsed_pattern(seq!['['] + m, keep) is Err,
{
    reveal_strlit("***");
    let body = seq!['['] + m;
    assert(body.last() == m.last());
    if text::ends(body, "***"@) {
        assert(body.skip(body.len() - 3)[2] == '*');
    }
    lemma_read(body, false, keep);
    let from = if body.len() > 1 && (body[1] == '!' || body[1] == '^') {
        2int
    } else {
        1int
    };
    let w = body.skip(from);
    assert forall|i: int| 0 <= i < w.len() implies w[i] != ']' by {
        assert(w[i] == m[i + from - 1]);
    }
    lemma_class_not_closed(w, true);
}

// ---------------------------------------------------------------------------------------------
// Whole patterns
// ---------------------------------------------------------------------------------------------
/// How the text of a pattern is taken apart.
proof fn lemma_read(t: Seq<char>, dir_mark: bool, keep: bool)
    requires
        text::bare(t),
        t.last() != '/',
        !dir_mark ==> !text::ends(t, "***"@),
    ensures
        ({
            let whole = if dir_mark {
                t.push('/')
            } else {
                t
            };
            let body = if t[0] == '/' {
                t.skip(1)
            } else {
                t
            };
            match glob::tokens_of(body) {
                Err(_) => rsync::parsed_pattern(whole, keep) is Err,
                Ok(tokens) => rsync::parsed_pattern(whole, keep) == Ok::<PatternView, ErrorView>(
                    PatternView {
                        original: whole,
                        keep,
                        tokens,
                        basename_only: t[0] != '/' && !body.contains('/') && !text::occurs(
                            body,
                            "**"@,
                        ),
                        dir_only: dir_mark,
                        triple_star: false,
                    },
                ),
            }
        }),
{
    reveal_strlit("***");
    let whole = if dir_mark {
        t.push('/')
    } else {
        t
    };
    assert(text::bare(whole));
    text::law_trim_takes_white_space_away(Seq::empty(), whole, Seq::empty());
    if dir_mark {
        assert(whole.last() == '/');
        if text::ends(whole, "***"@) {
            assert(whole.skip(whole.len() - 3)[2] == '*');
        }
        assert(whole.drop_last() =~= t);
        assert(text::strip_back(t, '/') == t);
        assert(text::strip_back(whole, '/') == t);
    }
}

/// Law: a pattern without a slash and without `**` is held against the base name of a path; any
/// other against the whole path, from its beginning, and a slash in front only says so. With a
/// slash at its end it matches directories alone. It keeps or drops as it is asked to.
pub proof fn law_written_pattern(
    t: Seq<char>,
    dir_mark: bool,
    keep: bool,
    path: Seq<char>,
    is_dir: bool,
)
    requires
        text::bare(t),
        t.last() != '/',
        !dir_mark ==> !text::ends(t, "***"@),
        rsync::parsed_pattern(
            if dir_mark {
                t.push('/')
            } else {
                t
            },
            keep,
        ) is Ok,
    ensures
        ({
            let p = rsync::parsed_pattern(
                if dir_mark {
                    t.push('/')
                } else {
                    t
                },
                keep,
            )->Ok_0;
            let norm = pathnorm::normalized(path);
            &&& p.keep == keep
            &&& p.matches(path, is_dir) <==> norm.len() > 0 && (dir_mark ==> is_dir) && if t[0]
                == '/' {
                says(t.skip(1), norm)
            } else if t.contains('/') || text::occurs(t, "**"@) {
                says(t, norm)
            } else {
                says(t, pathnorm::base_name(path))
            }
        }),
{
    lemma_read(t, dir_mark, keep);
    pathnorm::law_normalize_twice(path);
}

/// Some leading directory of a path, or the path itself, is what the pattern says.
pub open spec fn says_on_the_way(body: Seq<char>, p: Seq<char>) -> bool {
    exists|n: int|
        0 <= n <= p.len() && (n == p.len() || p[n] == '/') && says(body, #[trigger] p.take(n))
}

/// Law: a pattern with `/***` at its end matches what stands in front of that, and everything
/// below it, directories and files alike.
pub proof fn law_written_triple_star(t: Seq<char>, keep: bool, path: Seq<char>, is_dir: bool)
    requires
        text::bare(t),
        t.last() != '/',
        t[0] != '/',
        rsync::parsed_pattern(t + "/***"@, keep) is Ok,
    ensures
        ({
            let p = rsync::parsed_pattern(t + "/***"@, keep)->Ok_0;
            let norm = pathnorm::normalized(path);
            &&& p.keep == keep
            &&& p.matches(path, is_dir) <==> norm.len() > 0 && says_on_the_way(t, norm)
        }),
{
    reveal_strlit("***");
    reveal_strlit("/***");
    let whole = t + "/***"@;
    let norm = pathnorm::normalized(path);
    assert(whole.last() == '*');
    assert(text::bare(whole));
    text::law_trim_takes_white_space_away(Seq::empty(), whole, Seq::empty());
    assert(whole.skip(whole.len() - 3) =~= "***"@);
    let cut = t.push('/');
    assert(whole.take(whole.len() - 3) =~= cut);
    if text::ends(cut, "***"@) {
        assert(cut.skip(cut.len() - 3)[2] == '*');
    }
    assert(text::strip_back_text(cut, "***"@) == cut);
    assert(text::strip_back_text(whole, "***"@) == cut);
    assert(cut.drop_last() =~= t);
    assert(text::strip_back(t, '/') == t);
    assert(text::strip_back(cut, '/') == t);
    let toks = glob::tokens_of(t)->Ok_0;
    assert(toks.len() > 0) by {
        lemma_some_token(t);
    }
    if rsync::covers(toks, norm) {
        let n = choose|n: int|
            0 <= n <= norm.len() && (n == norm.len() || norm[n] == '/') && glob::glob(
                toks,
                #[trigger] norm.take(n),
            );
        assert(says(t, norm.take(n)));
    }
    if says_on_the_way(t, norm) {
        let n = choose|n: int|
            0 <= n <= norm.len() && (n == norm.len() || norm[n] == '/') && says(
                t,
                #[trigger] norm.take(n),
            );
        assert(glob::glob(toks, norm.take(n)));
    }
}

/// The first token of a pattern of which the first token and what follows it are known.
proof fn lemma_token_in_front(body: Seq<char>, t: TokView, rest: Seq<char>)
    requires
        glob::tokens_of(body) == glob::in_front(t, glob::tokens_of(rest)),
        glob::tokens_of(body) is Ok,
    ensures
        glob::tokens_of(body)->Ok_0.len() > 0,
        glob::tokens_of(body)->Ok_0[0] == t,
{
    let all = seq![t] + glob::tokens_of(rest)->Ok_0;
    assert(all[0] == t);
}

/// A pattern that is not empty has a token, which is a slash only if a slash was written.
proof fn lemma_some_token(t: Seq<char>)
    requires
        t.len() > 0,
        glob::tokens_of(t) is Ok,
    ensures
        glob::tokens_of(t)->Ok_0.len() > 0,
        t[0] != '/' && t[0] != '\\' ==> glob::tokens_of(t)->Ok_0[0] != TokView::Lit('/'),
{
    if t[0] == '\\' {
        lemma_token_in_front(t, TokView::Lit(t[1]), t.skip(2));
    } else if t[0] == '?' {
        lemma_token_in_front(t, TokView::Ques, t.skip(1));
    } else if t[0] == '*' && t.len() > 1 && t[1] == '*' {
        lemma_token_in_front(t, TokView::GlobStar, text::strip_front(t, '*'));
    } else if t[0] == '*' {
        lemma_token_in_front(t, TokView::Star, t.skip(1));
    } else if t[0] == '[' {
        let at = glob::class_at(t)->0;
        lemma_token_in_front(t, at.0, t.skip(at.1));
    } else {
        lemma_token_in_front(t, TokView::Lit(t[0]), t.skip(1));
    }
}

/// Law: white space around a pattern does not count, and white space alone is no pattern.
pub proof fn law_space_around_patterns(
    a: Seq<char>,
    t: Seq<char>,
    b: Seq<char>,
    keep: bool,
    path: Seq<char>,
    is_dir: bool,
)
    requires
        text::white(a),
        text::white(b),
        text::bare(t),
    ensures
        rsync::parsed_pattern(a + t + b, keep) is Ok <==> rsync::parsed_pattern(t, keep) is Ok,
        rsync::parsed_pattern(t, keep) is Ok ==> (rsync::parsed_pattern(a + t + b, keep)->Ok_0.matches(
            path,
            is_dir,
        ) <==> rsync::parsed_pattern(t, keep)->Ok_0.matches(path, is_dir)),
        rsync::parsed_pattern(a, keep) is Err,
{
    text::law_trim_takes_white_space_away(a, t, b);
    text::law_trim_takes_white_space_away(a, Seq::empty(), Seq::empty());
    assert(a + Seq::<char>::empty() + Seq::<char>::empty() =~= a);
}

/// Law: a plain name, such as `notes.txt`, matches the members of exactly that name, in any
/// directory; with a slash in front only the one at the top; and with a slash at its end, or
/// `/***`, directories.
pub proof fn law_plain_names(u: Seq<char>, keep: bool, path: Seq<char>, is_dir: bool)
    requires
        text::bare(u),
        plain_text(u),
        !u.contains('/'),
        pathnorm::normalized(path).len() > 0,
    ensures
        ({
            let norm = pathnorm::normalized(path);
            let name = rsync::parsed_pattern(u, keep);
            let dir = rsync::parsed_pattern(u.push('/'), keep);
            let top = rsync::parsed_pattern(seq!['/'] + u, keep);
            let tree = rsync::parsed_pattern(u + "/***"@, keep);
            &&& name is Ok && (name->Ok_0.matches(path, is_dir) <==> norm == u || text::ends(
                norm,
                seq!['/'] + u,
            ))
            &&& dir is Ok && (dir->Ok_0.matches(path, is_dir) <==> is_dir && (norm == u
                || text::ends(norm, seq!['/'] + u)))
            &&& top is Ok && (top->Ok_0.matches(path, is_dir) <==> norm == u)
            &&& tree is Ok && (tree->Ok_0.matches(path, is_dir) <==> norm == u || text::begins(
                norm,
                u + "/"@,
            ))
        }),
{
    reveal_strlit("**");
    reveal_strlit("***");
    reveal_strlit("/");
    let norm = pathnorm::normalized(path);
    let top = seq!['/'] + u;
    assert(u.last() != '/' && u[0] != '/');
    assert(u.last() != '*');
    assert(top.last() == u.last());
    assert(top.skip(1) =~= u);
    if text::ends(u, "***"@) {
        assert(u.skip(u.len() - 3)[2] == '*');
    }
    if text::ends(top, "***"@) {
        assert(top.skip(top.len() - 3)[2] == '*');
    }
    if text::occurs(u, "**"@) {
        let i = choose|i: int| text::occurs_at(u, "**"@, i);
        assert(u.subrange(i, i + 2)[0] == u[i]);
    }
    lemma_plain_is_read(u);
    lemma_read(u, false, keep);
    lemma_read(u, true, keep);
    lemma_read(top, false, keep);
    law_written_pattern(u, false, keep, path, is_dir);
    law_written_pattern(u, true, keep, path, is_dir);
    law_written_pattern(top, false, keep, path, is_dir);
    lemma_plain_says(u, norm);
    lemma_plain_says(u, pathnorm::base_name(path));
    exclude_laws::lemma_base_is(norm, u);
    lemma_triple_star_is_read(u, keep);
    law_written_triple_star(u, keep, path, is_dir);
    let n = u.len() as int;
    if says_on_the_way(u, norm) {
        let k = choose|k: int|
            0 <= k <= norm.len() && (k == norm.len() || norm[k] == '/') && says(
                u,
                #[trigger] norm.take(k),
            );
        lemma_plain_says(u, norm.take(k));
        if k < norm.len() {
            assert(norm.take(n + 1) =~= u + "/"@);
        } else {
            assert(norm.take(k) =~= norm);
        }
    }
    if norm == u {
        assert(norm.take(n) =~= u);
    }
    if text::begins(norm, u + "/"@) {
        assert(norm.take(n) =~= norm.take(n + 1).take(n));
        assert((u + "/"@).take(n) =~= u);
        assert(norm.take(n) =~= u);
        assert(norm[n] == norm.take(n + 1)[n]);
    }
    if norm == u || text::begins(norm, u + "/"@) {
        lemma_plain_says(u, norm.take(n));
        assert(says(u, norm.take(n)));
    }
}

proof fn lemma_plain_is_read(u: Seq<char>)
    requires
        plain_text(u),
    ensures
        glob::tokens_of(u) is Ok,
    decreases u.len(),
{
    if u.len() > 0 {
        let w = u.skip(1);
        assert(u[0] != '\\' && u[0] != '?' && u[0] != '*' && u[0] != '[');
        assert forall|i: int| 0 <= i < w.len() implies (#[trigger] w[i]) != '\\' && w[i] != '?'
            && w[i] != '*' && w[i] != '[' by {
            assert(w[i] == u[i + 1]);
        }
        lemma_plain_is_read(w);
    }
}

proof fn lemma_plain_says(u: Seq<char>, s: Seq<char>)
    requires
        plain_text(u),
    ensures
        says(u, s) <==> s == u,
{
    let none = Seq::<char>::empty();
    assert(u + none =~= u);
    law_plain_characters(u, none, s);
    if s == u {
        assert(s.take(u.len() as int) =~= u);
    }
    if text::begins(s, u) && s.skip(u.len() as int).len() == 0 {
        assert(s.take(u.len() as int) =~= s);
    }
}

proof fn lemma_triple_star_is_read(t: Seq<char>, keep: bool)
    requires
        text::bare(t),
        t.last() != '/',
        t[0] != '/',
        glob::tokens_of(t) is Ok,
    ensures
        rsync::parsed_pattern(t + "/***"@, keep) is Ok,
{
    reveal_strlit("***");
    reveal_strlit("/***");
    let whole = t + "/***"@;
    assert(whole.last() == '*');
    assert(text::bare(whole));
    text::law_trim_takes_white_space_away(Seq::empty(), whole, Seq::empty());
    assert(whole.skip(whole.len() - 3) =~= "***"@);
    let cut = t.push('/');
    assert(whole.take(whole.len() - 3) =~= cut);
    if text::ends(cut, "***"@) {
        assert(cut.skip(cut.len() - 3)[2] == '*');
    }
    assert(text::strip_back_text(cut, "***"@) == cut);
    assert(text::strip_back_text(whole, "***"@) == cut);
    assert(cut.drop_last() =~= t);
    assert(text::strip_back(t, '/') == t);
    assert(text::strip_back(cut, '/') == t);
}

/// Law: `*` with a plain ending, such as `*.tmp`, matches the members whose names have that ending.
pub proof fn law_plain_endings(u: Seq<char>, keep: bool, path: Seq<char>, is_dir: bool)
    requires
        text::bare(u),
        plain_text(u),
        !u.contains('/'),
        pathnorm::normalized(path).len() > 0,
    ensures
        ({
            let p = rsync::parsed_pattern(seq!['*'] + u, keep);
            &&& p is Ok
            &&& p->Ok_0.matches(path, is_dir) <==> text::ends(pathnorm::normalized(path), u)
        }),
{
    reveal_strlit("**");
    reveal_strlit("***");
    let t = seq!['*'] + u;
    let base = pathnorm::base_name(path);
    assert(u.last() != '/' && u.last() != '*' && u[0] != '*');
    assert(t.last() == u.last());
    assert(t.skip(1) =~= u);
    if text::ends(t, "***"@) {
        assert(t.skip(t.len() - 3)[2] == '*');
    }
    if text::occurs(t, "**"@) {
        let i = choose|i: int| text::occurs_at(t, "**"@, i);
        assert(t.subrange(i, i + 2)[1] == t[i + 1]);
        assert(t[i + 1] == u[i]);
    }
    if t.contains('/') {
        let i = choose|i: int| 0 <= i < t.len() && t[i] == '/';
        assert(u[i - 1] == '/');
    }
    lemma_plain_is_read(u);
    lemma_read(t, false, keep);
    law_written_pattern(t, false, keep, path, is_dir);
    law_one_star(u, base);
    let at = exclude_laws::lemma_last_component(pathnorm::normalized(path));
    exclude_laws::lemma_base_ends(pathnorm::normalized(path), u);
    let n = base.len() - u.len();
    if says_behind(u, base, false) {
        let k = choose|k: int|
            0 <= k <= base.len() && (false || !base.take(k).contains('/')) && says(
                u,
                #[trigger] base.skip(k),
            );
        lemma_plain_says(u, base.skip(k));
    }
    if text::ends(base, u) {
        lemma_plain_says(u, base.skip(n));
        assert(!base.take(n).contains('/')) by {
            if base.take(n).contains('/') {
                let i = choose|i: int| 0 <= i < n && base.take(n)[i] == '/';
                assert(base[i] == '/');
            }
        }
        assert(says(u, base.skip(n)));
    }
}

// ---------------------------------------------------------------------------------------------
// Patterns that the 7z program can take over
// ---------------------------------------------------------------------------------------------
proof fn lemma_letters(u: Seq<char>)
    requires
        plain_text(u),
    ensures
        glob::tokens_of(u) is Ok,
        laws::spells(glob::tokens_of(u)->Ok_0, u),
    decreases u.len(),
{
    if u.len() > 0 {
        let w = u.skip(1);
        assert(u[0] != '\\' && u[0] != '?' && u[0] != '*' && u[0] != '[');
        assert forall|i: int| 0 <= i < w.len() implies (#[trigger] w[i]) != '\\' && w[i] != '?'
            && w[i] != '*' && w[i] != '[' by {
            assert(w[i] == u[i + 1]);
        }
        lemma_letters(w);
        lemma_token_in_front(u, TokView::Lit(u[0]), w);
        let rest = glob::tokens_of(w)->Ok_0;
        let all = glob::tokens_of(u)->Ok_0;
        assert(all == seq![TokView::Lit(u[0])] + rest);
        assert forall|i: int| 0 <= i < all.len() implies (#[trigger] all[i]) == TokView::Lit(
            u[i],
        ) by {
            if i > 0 {
                assert(all[i] == rest[i - 1]);
                assert(w[i - 1] == u[i]);
            }
        }
    }
}

proof fn lemma_spelled_letters(toks: Seq<TokView>, u: Seq<char>)
    requires
        laws::spells(toks, u),
    ensures
        rsync::spelled(toks) == Some(u),
    decreases u.len(),
{
    if u.len() == 0 {
        assert(u =~= Seq::<char>::empty());
    } else {
        let t = u.drop_last();
        let v = toks.drop_last();
        assert forall|i: int| 0 <= i < v.len() implies (#[trigger] v[i]) == TokView::Lit(t[i]) by {
            assert(v[i] == toks[i]);
        }
        lemma_spelled_letters(v, t);
        assert(toks[toks.len() - 1] == TokView::Lit(u[u.len() - 1]));
        assert(t.push(u.last()) =~= u);
    }
}

/// Law: dropping a plain name, a directory by its name, everything below a directory, or the files
/// with a plain ending can be left to the 7z program.
pub proof fn law_simple_patterns_have_globs(u: Seq<char>)
    requires
        u.len() > 0,
        CharSet::Word.has_all(u),
    ensures
        rsync::pattern_globs(u) is Some,
        rsync::pattern_globs(u.push('/')) is Some,
        rsync::pattern_globs(u + "/***"@) is Some,
        rsync::pattern_globs(seq!['*', '.'] + u) is Some,
{
    reveal_strlit("..");
    reveal_strlit("**");
    reveal_strlit("***");
    reveal_strlit("/***");
    assert forall|i: int| 0 <= i < u.len() implies (#[trigger] u[i]) != '\\' && u[i] != '?' && u[i]
        != '*' && u[i] != '[' && u[i] != '/' && u[i] != '.' && !text::is_space(u[i]) by {
        assert(CharSet::Word.has(u[i]));
    }
    assert(plain_text(u));
    assert(u.last() == u[u.len() - 1]);
    assert(text::bare(u));
    lemma_letters(u);
    lemma_spelled_letters(glob::tokens_of(u)->Ok_0, u);
    if text::ends(u, "***"@) {
        assert(u.skip(u.len() - 3)[2] == '*');
    }
    if text::occurs(u, "**"@) {
        let i = choose|i: int| text::occurs_at(u, "**"@, i);
        assert(u.subrange(i, i + 2)[0] == u[i]);
    }
    if text::occurs(u, ".."@) {
        let i = choose|i: int| text::occurs_at(u, ".."@, i);
        assert(u.subrange(i, i + 2)[0] == u[i]);
    }
    assert(CharSet::Path.has_all(u)) by {
        assert forall|i: int| 0 <= i < u.len() implies CharSet::Path.has(#[trigger] u[i]) by {
            assert(CharSet::Word.has(u[i]));
        }
    }
    lemma_read(u, false, false);
    lemma_read(u, true, false);
    lemma_no_marks(u, u);
    lemma_no_marks(u, u.push('/'));
    lemma_no_marks(u, u + "/***"@);
    lemma_tree_is_read(u);
    let t = seq!['*', '.'] + u;
    let dotted = seq!['.'] + u;
    assert(t.last() == u.last());
    if text::ends(t, "***"@) {
        assert(t.skip(t.len() - 3)[2] == '*');
    }
    if text::occurs(t, "**"@) {
        let i = choose|i: int| text::occurs_at(t, "**"@, i);
        assert(t.subrange(i, i + 2)[1] == t[i + 1]);
        if i > 0 {
            assert(t[i + 1] == u[i - 1]);
        }
    }
    if t.contains('/') {
        let i = choose|i: int| 0 <= i < t.len() && t[i] == '/';
        assert(u[i - 2] == '/');
    }
    lemma_no_marks(u, t);
    assert(t.skip(1) =~= dotted);
    assert(plain_text(dotted)) by {
        assert forall|i: int| 0 <= i < dotted.len() implies (#[trigger] dotted[i]) != '\\'
            && dotted[i] != '?' && dotted[i] != '*' && dotted[i] != '[' by {
            if i > 0 {
                assert(dotted[i] == u[i - 1]);
            }
        }
    }
    lemma_letters(dotted);
    let rest = glob::tokens_of(dotted)->Ok_0;
    lemma_spelled_letters(rest, dotted);
    lemma_read(t, false, false);
    lemma_token_in_front(t, TokView::Star, dotted);
    let toks = glob::tokens_of(t)->Ok_0;
    assert(toks == seq![TokView::Star] + rest);
    assert(toks.skip(1) =~= rest);
    lemma_star_is_not_spelled(rest);
    assert(dotted.skip(1) =~= u);
}

/// Neither a wildcard for one character nor a backslash stands in the text.
proof fn lemma_no_marks(u: Seq<char>, t: Seq<char>)
    requires
        forall|i: int|
            0 <= i < u.len() ==> (#[trigger] u[i]) != '\\' && u[i] != '?' && u[i] != '*' && u[i]
                != '[',
        t == u || t == u.push('/') || t == u + "/***"@ || t == seq!['*', '.'] + u,
    ensures
        !t.contains('?') && !t.contains('[') && !t.contains('\\'),
{
    reveal_strlit("/***");
    assert forall|i: int| 0 <= i < t.len() implies t[i] != '?' && t[i] != '[' && t[i] != '\\' by {
        if t == seq!['*', '.'] + u {
            if i >= 2 {
                assert(t[i] == u[i - 2]);
            }
        } else if i < u.len() {
            assert(t[i] == u[i]);
        }
    }
}

/// What a plain name with `/***` is read as.
proof fn lemma_tree_is_read(u: Seq<char>)
    requires
        text::bare(u),
        plain_text(u),
        u.last() != '/',
        u[0] != '/',
    ensures
        ({
            let p = rsync::parsed_pattern(u + "/***"@, false);
            &&& p is Ok
            &&& glob::tokens_of(u) == Ok::<Seq<TokView>, Seq<char>>(p->Ok_0.tokens)
            &&& p->Ok_0.triple_star
            &&& !p->Ok_0.dir_only
            &&& p->Ok_0.original == u + "/***"@
        }),
{
    reveal_strlit("***");
    reveal_strlit("/***");
    lemma_letters(u);
    lemma_triple_star_is_read(u, false);
    let whole = u + "/***"@;
    assert(whole.last() == '*');
    text::law_trim_takes_white_space_away(Seq::empty(), whole, Seq::empty());
    assert(whole.skip(whole.len() - 3) =~= "***"@);
    let cut = u.push('/');
    assert(whole.take(whole.len() - 3) =~= cut);
    if text::ends(cut, "***"@) {
        assert(cut.skip(cut.len() - 3)[2] == '*');
    }
    assert(text::strip_back_text(cut, "***"@) == cut);
    assert(text::strip_back_text(whole, "***"@) == cut);
    assert(cut.drop_last() =~= u);
    assert(text::strip_back(u, '/') == u);
    assert(text::strip_back(cut, '/') == u);
}

proof fn lemma_star_is_not_spelled(v: Seq<TokView>)
    ensures
        rsync::spelled(seq![TokView::Star] + v) is None,
    decreases v.len(),
{
    let all = seq![TokView::Star] + v;
    if v.len() == 0 {
        assert(all.last() == TokView::Star);
    } else {
        assert(all.drop_last() =~= seq![TokView::Star] + v.drop_last());
        lemma_star_is_not_spelled(v.drop_last());
    }
}

// ---------------------------------------------------------------------------------------------
// Classes piece by piece
// ---------------------------------------------------------------------------------------------
/// What stands in a class that begins with none of the characters that mean something there.
pub open spec fn inside(rest: Seq<char>) -> bool {
    rest.len() > 0 && !rest.contains(']') && rest[0] != '-' && rest[0] != '!' && rest[0] != '^'
}

/// A class, as it is written, takes the character `c`.
pub open spec fn class_takes(interior: Seq<char>, c: char) -> bool {
    says(seq!['['] + interior + seq![']'], seq![c])
}

proof fn lemma_closed(rest: Seq<char>, first: bool)
    requires
        !rest.contains(']'),
        rest.len() > 0 || !first,
    ensures
        glob::class_body(rest + seq![']'], first) matches Some((_c, _r, n)) && n == rest.len() + 1,
    decreases rest.len(),
{
    let s = rest + seq![']'];
    if rest.len() == 0 {
        assert(s[0] == ']');
    } else {
        assert(s[0] == rest[0]);
        assert(rest.contains(rest[0]));
        if s.len() > 2 && s[1] == '-' && s[2] != ']' {
            assert(rest.len() > 2);
            let w = rest.skip(3);
            assert(s.skip(3) =~= w + seq![']']);
            assert forall|i: int| 0 <= i < w.len() implies w[i] != ']' by {
                assert(w[i] == rest[i + 3]);
                assert(rest.contains(rest[i + 3]));
            }
            lemma_closed(w, false);
        } else {
            let w = rest.skip(1);
            assert(s.skip(1) =~= w + seq![']']);
            assert forall|i: int| 0 <= i < w.len() implies w[i] != ']' by {
                assert(w[i] == rest[i + 1]);
                assert(rest.contains(rest[i + 1]));
            }
            lemma_closed(w, false);
        }
    }
}

/// What a class whose parts are known takes.
proof fn lemma_class_takes(
    interior: Seq<char>,
    chars: Seq<char>,
    ranges: Seq<(char, char)>,
    c: char,
)
    requires
        interior.len() > 0,
        interior[0] != '!' && interior[0] != '^',
        glob::class_body(interior + seq![']'], true) == Some(
            (chars, ranges, interior.len() as int + 1),
        ),
    ensures
        class_takes(interior, c) <==> c != '/' && glob::in_class(c, chars, ranges),
{
    let s = seq!['['] + interior + seq![']'];
    let n = interior.len() as int + 2;
    assert(s[1] == interior[0]);
    assert(s.skip(1) =~= interior + seq![']']);
    let t = TokView::Class { negated: false, chars, ranges };
    assert(glob::class_at(s) == Some((t, n)));
    let none = Seq::<char>::empty();
    assert(s.skip(n) =~= none);
    lemma_says_one(s, t, none, seq![c]);
    assert(seq![c].skip(1) =~= none);
    assert(says(none, none));
}

/// Law: a class takes what its pieces take: a character takes itself, a range everything between its
/// ends, and a `]` in first place and a `-` in last place stand for themselves. A slash is never
/// taken.
pub proof fn law_pieces_of_a_class(x: char, y: char, rest: Seq<char>, c: char)
    requires
        inside(rest),
        x != ']' && x != '!' && x != '^' && x != '-',
        y != ']',
    ensures
        class_takes(seq![x] + rest, c) <==> (c != '/' && c == x) || class_takes(rest, c),
        class_takes(seq![x, '-', y] + rest, c) <==> (c != '/' && (x <= c <= y || y <= c <= x))
            || class_takes(rest, c),
        class_takes(seq![']'] + rest, c) <==> c == ']' || class_takes(rest, c),
        class_takes(seq![x, '-'], c) <==> c != '/' && (c == x || c == '-'),
{
    let end = seq![']'];
    let tail = rest + end;
    lemma_closed(rest, true);
    lemma_closed(rest, false);
    assert(rest.contains(rest[0]));
    assert(tail[0] == rest[0]);
    let (chars, ranges, n) = glob::class_body(tail, true)->0;
    assert(glob::class_body(tail, false) == glob::class_body(tail, true));
    lemma_class_takes(rest, chars, ranges, c);
    // One character.
    let one = seq![x] + rest;
    assert((one + end).skip(1) =~= tail);
    assert((one + end)[1] == rest[0]);
    assert(glob::class_body(one + end, true) == Some((seq![x] + chars, ranges, n + 1)));
    lemma_class_takes(one, seq![x] + chars, ranges, c);
    lemma_one_more_member(x, chars, ranges, c);
    // A range.
    let two = seq![x, '-', y] + rest;
    let range = if x <= y {
        (x, y)
    } else {
        (y, x)
    };
    assert((two + end).skip(3) =~= tail);
    assert((two + end)[0] == x && (two + end)[1] == '-' && (two + end)[2] == y);
    assert(glob::class_body(two + end, true) == Some((chars, seq![range] + ranges, n + 3)));
    lemma_class_takes(two, chars, seq![range] + ranges, c);
    lemma_one_more_range(range, chars, ranges, c);
    // A bracket in first place.
    let three = seq![']'] + rest;
    assert((three + end).skip(1) =~= tail);
    assert((three + end)[0] == ']' && (three + end)[1] == rest[0]);
    assert(glob::class_body(three + end, true) == Some((seq![']'] + chars, ranges, n + 1)));
    lemma_class_takes(three, seq![']'] + chars, ranges, c);
    lemma_one_more_member(']', chars, ranges, c);
    // A hyphen in last place.
    let four = seq![x, '-'];
    let s = four + end;
    let none = Seq::<char>::empty();
    let no_ranges = Seq::<(char, char)>::empty();
    assert(s.skip(1) =~= seq!['-'] + end);
    assert((seq!['-'] + end).skip(1) =~= end);
    assert(end =~= none + end);
    assert(glob::class_body(end, false) == Some((none, no_ranges, 1int)));
    let h = seq!['-'] + none;
    assert((seq!['-'] + end)[0] == '-' && (seq!['-'] + end)[1] == ']');
    assert(glob::class_body(seq!['-'] + end, false) == Some((h, no_ranges, 2int)));
    let both = seq![x] + h;
    assert(s[0] == x && s[1] == '-' && s[2] == ']');
    assert(glob::class_body(s, true) == Some((both, no_ranges, 3int)));
    lemma_class_takes(four, both, no_ranges, c);
    lemma_one_more_member(x, h, no_ranges, c);
    lemma_one_more_member('-', none, no_ranges, c);
}

proof fn lemma_one_more_member(x: char, chars: Seq<char>, ranges: Seq<(char, char)>, c: char)
    ensures
        glob::in_class(c, seq![x] + chars, ranges) <==> c == x || glob::in_class(c, chars, ranges),
{
    let all = seq![x] + chars;
    assert(all[0] == x);
    if chars.contains(c) {
        let i = choose|i: int| 0 <= i < chars.len() && chars[i] == c;
        assert(all[i + 1] == c);
    }
    if all.contains(c) {
        let i = choose|i: int| 0 <= i < all.len() && all[i] == c;
        if i > 0 {
            assert(chars[i - 1] == c);
        }
    }
}

proof fn lemma_one_more_range(
    range: (char, char),
    chars: Seq<char>,
    ranges: Seq<(char, char)>,
    c: char,
)
    ensures
        glob::in_class(c, chars, seq![range] + ranges) <==> range.0 <= c <= range.1
            || glob::in_class(c, chars, ranges),
{
    let all = seq![range] + ranges;
    assert(all[0] == range);
    if exists|i: int| 0 <= i < ranges.len() && (#[trigger] ranges[i]).0 <= c <= ranges[i].1 {
        let i = choose|i: int|
            0 <= i < ranges.len() && (#[trigger] ranges[i]).0 <= c <= ranges[i].1;
        assert(all[i + 1] == ranges[i]);
        assert(all[i + 1].0 <= c <= all[i + 1].1);
    }
    if exists|i: int| 0 <= i < all.len() && (#[trigger] all[i]).0 <= c <= all[i].1 {
        let i = choose|i: int| 0 <= i < all.len() && (#[trigger] all[i]).0 <= c <= all[i].1;
        if i > 0 {
            assert(ranges[i - 1] == all[i]);
            assert(ranges[i - 1].0 <= c <= ranges[i - 1].1);
        }
    }
    if range.0 <= c <= range.1 {
        assert(all[0].0 <= c <= all[0].1);
    }
}

/// Law: the slash in front of `***` does not count, and neither does one in front of the pattern:
/// `dir***`, `dir/***` and `/dir/***` match the same.
pub proof fn law_slashes_of_triple_stars(
    t: Seq<char>,
    keep: bool,
    path: Seq<char>,
    is_dir: bool,
)
    requires
        text::bare(t),
        t.last() != '/',
        t.last() != '*',
        t[0] != '/',
        glob::tokens_of(t) is Ok,
    ensures
        ({
            let a = rsync::parsed_pattern(t + "/***"@, keep);
            let b = rsync::parsed_pattern(t + "***"@, keep);
            let c = rsync::parsed_pattern(seq!['/'] + t + "/***"@, keep);
            &&& a is Ok && b is Ok && c is Ok
            &&& a->Ok_0.matches(path, is_dir) == b->Ok_0.matches(path, is_dir)
            &&& a->Ok_0.matches(path, is_dir) == c->Ok_0.matches(path, is_dir)
        }),
{
    lemma_triple_star_read(t, t + "/***"@, keep);
    lemma_triple_star_read(t, t + "***"@, keep);
    lemma_triple_star_read(t, seq!['/'] + t + "/***"@, keep);
}

proof fn lemma_triple_star_read(t: Seq<char>, whole: Seq<char>, keep: bool)
    requires
        text::bare(t),
        t.last() != '/',
        t.last() != '*',
        t[0] != '/',
        glob::tokens_of(t) is Ok,
        whole == t + "/***"@ || whole == t + "***"@ || whole == seq!['/'] + t + "/***"@,
    ensures
        rsync::parsed_pattern(whole, keep) is Ok,
        ({
            let p = rsync::parsed_pattern(whole, keep)->Ok_0;
            &&& glob::tokens_of(t) == Ok::<Seq<TokView>, Seq<char>>(p.tokens)
            &&& p.triple_star && !p.dir_only && !p.basename_only
        }),
{
    reveal_strlit("***");
    reveal_strlit("/***");
    assert(whole.last() == '*');
    assert(text::bare(whole));
    text::law_trim_takes_white_space_away(Seq::empty(), whole, Seq::empty());
    assert(whole.skip(whole.len() - 3) =~= "***"@);
    let cut = whole.take(whole.len() - 3);
    assert(cut.last() != '*') by {
        if whole == t + "***"@ {
            assert(cut =~= t);
        } else if whole == t + "/***"@ {
            assert(cut =~= t.push('/'));
        } else {
            assert(cut =~= (seq!['/'] + t).push('/'));
        }
    }
    if text::ends(cut, "***"@) {
        assert(cut.skip(cut.len() - 3)[2] == '*');
    }
    assert(text::strip_back_text(cut, "***"@) == cut);
    assert(text::strip_back_text(whole, "***"@) == cut);
    assert(text::strip_back(t, '/') == t);
    if whole == t + "***"@ {
        assert(cut =~= t);
    } else if whole == t + "/***"@ {
        assert(cut =~= t.push('/'));
        assert(cut.drop_last() =~= t);
        assert(text::strip_back(cut, '/') == t);
    } else {
        let u = seq!['/'] + t;
        assert(cut =~= u.push('/'));
        assert(cut.drop_last() =~= u);
        assert(u.last() == t.last());
        assert(text::strip_back(u, '/') == u);
        assert(text::strip_back(cut, '/') == u);
        assert(u.skip(1) =~= t);
        assert(u[0] == '/');
    }
}

} // verus!
