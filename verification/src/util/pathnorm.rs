//! Member paths: normal form, base name, joining, and whether a path stays below its root.

use crate::util::text;
use crate::util::text::{
    chars_of, concat3, from_pos, is_text, split_char, string_of, swap_chars,
};
use vstd::prelude::*;

verus! {

broadcast use vstd::seq_lib::group_seq_properties;

/// `s` with every run of slashes shortened to one slash.
pub open spec fn collapse(s: Seq<char>) -> Seq<char>
    decreases s.len(),
{
    if s.len() == 0 {
        s
    } else if s.last() == '/' && s.len() >= 2 && s[s.len() - 2] == '/' {
        collapse(s.drop_last())
    } else {
        collapse(s.drop_last()).push(s.last())
    }
}

/// `s` without the slashes and the `./` in front of it.
pub open spec fn without_lead(s: Seq<char>) -> Seq<char>
    decreases s.len(),
{
    if s.len() > 0 && s[0] == '/' {
        without_lead(s.skip(1))
    } else if text::begins(s, seq!['.', '/']) {
        without_lead(s.skip(2))
    } else {
        s
    }
}

/// The normal form of a member path: `/` as the separator, no repeated slashes, and neither a
/// slash nor `./` in front.
pub open spec fn normalized(p: Seq<char>) -> Seq<char> {
    without_lead(collapse(text::swapped(p, '\\', '/')))
}

/// No two slashes stand side by side.
pub open spec fn single_slashes(s: Seq<char>) -> bool {
    forall|i: int| 0 < i < s.len() ==> !(s[i - 1] == '/' && #[trigger] s[i] == '/')
}

/// What a path in normal form looks like: no backslash, no repeated slash, and neither a slash
/// nor `./` in front.
pub open spec fn is_normal(p: Seq<char>) -> bool {
    &&& !p.contains('\\')
    &&& single_slashes(p)
    &&& !(p.len() > 0 && p[0] == '/')
    &&& !text::begins(p, seq!['.', '/'])
}

/// What follows the last `c` in `s`; all of `s` where there is no `c`.
pub open spec fn after_last(s: Seq<char>, c: char) -> Seq<char>
    decreases s.len(),
{
    if s.len() == 0 || s.last() == c {
        Seq::empty()
    } else {
        after_last(s.drop_last(), c).push(s.last())
    }
}

/// The last component of a member path.
pub open spec fn base_name(p: Seq<char>) -> Seq<char> {
    after_last(normalized(p), '/')
}

/// Two member paths joined.
pub open spec fn joined(parent: Seq<char>, child: Seq<char>) -> Seq<char> {
    let a = normalized(parent);
    let b = normalized(child);
    if a.len() == 0 {
        b
    } else if b.len() == 0 {
        a
    } else {
        a + "/"@ + b
    }
}

/// A path is safe when it is relative, not empty, and climbs nowhere.
pub open spec fn safe(p: Seq<char>) -> bool {
    let raw = text::swapped(p, '\\', '/');
    &&& !(raw.len() > 0 && raw[0] == '/')
    &&& !(raw.len() > 1 && raw[1] == ':')
    &&& normalized(p).len() > 0
    &&& !text::split(normalized(p), '/').contains(seq!['.', '.'])
}

/// Shortens every run of slashes to one slash.
fn collapse_slashes(s: &[char]) -> (r: Vec<char>)
    ensures
        r@ == collapse(s@),
{
    let mut out: Vec<char> = Vec::new();
    let mut prev_slash = false;
    let mut i: usize = 0;
    while i < s.len()
        invariant
            i <= s.len(),
            out@ == collapse(s@.take(i as int)),
            prev_slash == (i > 0 && s@[i - 1] == '/'),
        decreases s.len() - i,
    {
        let c = s[i];
        assert(s@.take(i + 1).drop_last() =~= s@.take(i as int));
        if c == '/' {
            if !prev_slash {
                out.push('/');
            }
            prev_slash = true;
        } else {
            out.push(c);
            prev_slash = false;
        }
        i += 1;
    }
    assert(s@.take(i as int) =~= s@);
    out
}

/// Drops the slashes and the `./` in front of `s`.
fn strip_lead(s: &[char]) -> (r: &[char])
    ensures
        r@ == without_lead(s@),
{
    let mut rest: &[char] = s;
    while rest.len() > 0 && (rest[0] == '/' || rest.len() > 1 && rest[0] == '.' && rest[1] == '/')
        invariant
            without_lead(s@) == without_lead(rest@),
        decreases rest@.len(),
    {
        if rest[0] == '/' {
            rest = from_pos(rest, 1);
        } else {
            assert(text::begins(rest@, seq!['.', '/'])) by {
                assert(rest@.take(2) =~= seq!['.', '/']);
            }
            rest = from_pos(rest, 2);
        }
    }
    assert(!text::begins(rest@, seq!['.', '/'])) by {
        if text::begins(rest@, seq!['.', '/']) {
            assert(rest@[0] == rest@.take(2)[0] && rest@[1] == rest@.take(2)[1]);
        }
    }
    rest
}

/// Normalizes a member path to `/` separators, without `./` or `/` in front.
pub fn normalize_member_path(path: &str) -> (r: String)
    ensures
        r@ == normalized(path@),
        is_normal(r@),
        normalized(r@) == r@,
{
    proof {
        law_normal_form(path@);
        law_normalize_twice(path@);
    }
    let raw = chars_of(path);
    let slashed = swap_chars(raw.as_slice(), '\\', '/');
    let out = collapse_slashes(slashed.as_slice());
    string_of(strip_lead(out.as_slice()))
}

/// What follows the last `c` in `s`.
pub fn tail_after(s: &[char], c: char) -> (r: &[char])
    ensures
        r@ == after_last(s@, c),
{
    let mut i: usize = s.len();
    assert(s@.take(i as int) =~= s@);
    assert(s@.skip(i as int) =~= Seq::<char>::empty());
    while i > 0 && s[i - 1] != c
        invariant
            i <= s.len(),
            after_last(s@, c) == after_last(s@.take(i as int), c) + s@.skip(i as int),
        decreases i,
    {
        assert(s@.take(i as int).drop_last() =~= s@.take(i - 1));
        assert(after_last(s@.take(i - 1), c).push(s@[i - 1]) + s@.skip(i as int) =~= after_last(
            s@.take(i - 1),
            c,
        ) + s@.skip(i - 1));
        i -= 1;
    }
    assert(after_last(s@.take(i as int), c) =~= Seq::<char>::empty());
    from_pos(s, i)
}

/// The base name of a member path.
pub fn member_basename(path: &str) -> (r: String)
    ensures
        r@ == base_name(path@),
{
    let norm = chars_of(normalize_member_path(path).as_str());
    string_of(tail_after(norm.as_slice(), '/'))
}

/// Joins two member paths with `/`.
pub fn join_member(parent: &str, child: &str) -> (r: String)
    ensures
        r@ == joined(parent@, child@),
{
    let parent = normalize_member_path(parent);
    let child = normalize_member_path(child);
    if chars_of(parent.as_str()).len() == 0 {
        child
    } else if chars_of(child.as_str()).len() == 0 {
        parent
    } else {
        concat3(parent.as_str(), "/", child.as_str())
    }
}

/// Whether a member path stays below the directory it is extracted to.
pub fn is_safe_member_path(path: &str) -> (r: bool)
    ensures
        r == safe(path@),
{
    let raw = chars_of(path);
    let slashed = swap_chars(raw.as_slice(), '\\', '/');
    if slashed.len() > 0 && slashed[0] == '/' {
        return false;
    }
    if slashed.len() > 1 && slashed[1] == ':' {
        return false;
    }
    let norm = chars_of(normalize_member_path(path).as_str());
    if norm.len() == 0 {
        return false;
    }
    proof {
        reveal_strlit("..");
        assert(".."@ =~= seq!['.', '.']);
    }
    let parts = split_char(norm.as_slice(), '/');
    let ghost all = text::rows(parts@);
    let mut i: usize = 0;
    while i < parts.len()
        invariant
            i <= parts.len(),
            all == text::rows(parts@),
            all == text::split(normalized(path@), '/'),
            ".."@ == seq!['.', '.'],
            forall|k: int| 0 <= k < i ==> all[k] != seq!['.', '.'],
        decreases parts.len() - i,
    {
        if is_text(parts[i].as_slice(), "..") {
            assert(all[i as int] == seq!['.', '.']);
            assert(all.contains(seq!['.', '.']));
            return false;
        }
        assert(all[i as int] == parts@[i as int]@);
        i += 1;
    }
    true
}

// ---------------------------------------------------------------------------------------------
// Laws
// ---------------------------------------------------------------------------------------------
proof fn lemma_collapse(s: Seq<char>)
    ensures
        single_slashes(collapse(s)),
        !s.contains('\\') ==> !collapse(s).contains('\\'),
        s.len() > 0 ==> collapse(s).len() > 0 && collapse(s).last() == s.last(),
        single_slashes(s) ==> collapse(s) == s,
    decreases s.len(),
{
    if s.len() > 0 {
        let t = s.drop_last();
        lemma_collapse(t);
        if single_slashes(s) {
            assert forall|i: int| 0 < i < t.len() implies !(t[i - 1] == '/' && #[trigger] t[i]
                == '/') by {
                assert(t[i] == s[i] && t[i - 1] == s[i - 1]);
            }
            if s.len() >= 2 {
                assert(!(s[s.len() - 2] == '/' && s[s.len() - 1] == '/'));
            }
            assert(collapse(s) =~= s);
        }
        let c = collapse(s);
        if s.last() == '/' && s.len() >= 2 && s[s.len() - 2] == '/' {
        } else {
            assert forall|i: int| 0 < i < c.len() implies !(c[i - 1] == '/' && #[trigger] c[i]
                == '/') by {
                if i < collapse(t).len() {
                    assert(c[i] == collapse(t)[i] && c[i - 1] == collapse(t)[i - 1]);
                } else {
                    assert(c[i - 1] == collapse(t).last());
                }
            }
        }
        if !s.contains('\\') {
            assert(s[s.len() - 1] != '\\');
            assert forall|k: int| 0 <= k < t.len() implies t[k] != '\\' by {
                assert(t[k] == s[k]);
            }
            assert(!t.contains('\\'));
            assert forall|k: int| 0 <= k < c.len() implies c[k] != '\\' by {
                if k < collapse(t).len() {
                    assert(c[k] == collapse(t)[k]);
                }
            }
        }
    }
}

proof fn lemma_without_lead(s: Seq<char>)
    ensures
        exists|k: int| 0 <= k <= s.len() && without_lead(s) == #[trigger] s.skip(k),
        without_lead(s).len() > 0 ==> without_lead(s)[0] != '/',
        !text::begins(without_lead(s), seq!['.', '/']),
    decreases s.len(),
{
    let n: int = if s.len() > 0 && s[0] == '/' {
        1
    } else if text::begins(s, seq!['.', '/']) {
        2
    } else {
        0
    };
    if n > 0 {
        let t = s.skip(n);
        lemma_without_lead(t);
        let k = choose|k: int| 0 <= k <= t.len() && without_lead(t) == #[trigger] t.skip(k);
        assert(t.skip(k) =~= s.skip(k + n));
    } else {
        assert(s.skip(0) =~= s);
    }
}

/// Law: a normal form holds no backslash, no repeated slash, and neither a slash nor `./` in
/// front; and what looks like that is its own normal form.
pub proof fn law_normal_form(p: Seq<char>)
    ensures
        is_normal(normalized(p)),
        is_normal(p) ==> normalized(p) == p,
{
    let a = text::swapped(p, '\\', '/');
    assert(!a.contains('\\'));
    let c = collapse(a);
    lemma_collapse(a);
    lemma_without_lead(c);
    let d = normalized(p);
    let j = choose|j: int| 0 <= j <= c.len() && d == #[trigger] c.skip(j);
    assert forall|i: int| 0 <= i < d.len() implies d[i] != '\\' by {
        assert(d[i] == c[i + j]);
        assert(!c.contains('\\'));
    }
    assert forall|i: int| 0 < i < d.len() implies !(d[i - 1] == '/' && #[trigger] d[i] == '/') by {
        assert(d[i] == c[i + j] && d[i - 1] == c[i + j - 1]);
    }
    if is_normal(p) {
        assert forall|i: int| 0 <= i < p.len() implies p[i] != '\\' by {
            if p[i] == '\\' {
                assert(p.contains('\\'));
            }
        }
        assert(a =~= p);
    }
}

/// Law: normalizing a normal form changes nothing.
pub proof fn law_normalize_twice(p: Seq<char>)
    ensures
        normalized(normalized(p)) == normalized(p),
{
    law_normal_form(p);
    law_normal_form(normalized(p));
}

/// How far below its starting point a walk along `segments` ends.
pub open spec fn depth(segments: Seq<Seq<char>>) -> int
    decreases segments.len(),
{
    if segments.len() == 0 {
        0
    } else {
        let before = depth(segments.drop_last());
        let s = segments.last();
        if s == seq!['.', '.'] {
            before - 1
        } else if s.len() == 0 || s == seq!['.'] {
            before
        } else {
            before + 1
        }
    }
}

proof fn lemma_no_climb(segments: Seq<Seq<char>>)
    requires
        !segments.contains(seq!['.', '.']),
    ensures
        depth(segments) >= 0,
    decreases segments.len(),
{
    if segments.len() > 0 {
        let t = segments.drop_last();
        assert forall|i: int| 0 <= i < t.len() implies t[i] != seq!['.', '.'] by {
            assert(t[i] == segments[i]);
            assert(segments.contains(segments[i]));
        }
        assert(!t.contains(seq!['.', '.']));
        lemma_no_climb(t);
        assert(segments.contains(segments[segments.len() - 1]));
    }
}

/// Law: a walk along a safe path never climbs above the directory where it starts.
pub proof fn law_safe_path_stays_below_root(p: Seq<char>, k: int)
    requires
        safe(p),
        0 <= k <= text::split(normalized(p), '/').len(),
    ensures
        depth(text::split(normalized(p), '/').take(k)) >= 0,
{
    let all = text::split(normalized(p), '/');
    let t = all.take(k);
    assert forall|i: int| 0 <= i < t.len() implies t[i] != seq!['.', '.'] by {
        assert(t[i] == all[i]);
        assert(all.contains(all[i]));
    }
    lemma_no_climb(t);
}

} // verus!
