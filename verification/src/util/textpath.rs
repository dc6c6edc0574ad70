//! File paths as text, with `/` between their components.

use crate::util::pathnorm;
use crate::util::pathnorm::tail_after;
use crate::util::text;
use crate::util::text::{chars_of, concat2, concat3, copy_str, string_of, up_to};
use vstd::prelude::*;

verus! {

/// `p` without trailing slashes and trailing `.` components; a lone `/` or `.` stays.
pub open spec fn rtrim(p: Seq<char>) -> Seq<char>
    decreases p.len(),
{
    if p.len() > 1 && (p.last() == '/' || (p.last() == '.' && p[p.len() - 2] == '/')) {
        rtrim(p.drop_last())
    } else {
        p
    }
}

/// The name of the file that a path leads to.
pub open spec fn file_name(p: Seq<char>) -> Option<Seq<char>> {
    let last = pathnorm::after_last(rtrim(p), '/');
    if last.len() == 0 || last == seq!['.'] || last == seq!['.', '.'] {
        None
    } else {
        Some(last)
    }
}

/// The path without its last component; `None` for an empty path and for the root.
pub open spec fn parent(p: Seq<char>) -> Option<Seq<char>> {
    let q = rtrim(p);
    let last = pathnorm::after_last(q, '/');
    if last.len() == 0 {
        None
    } else {
        Some(rtrim(q.take(q.len() - last.len())))
    }
}

/// The extension of a file name: what follows its last dot, unless that dot is its first
/// character.
pub open spec fn extension_of(name: Seq<char>) -> Option<Seq<char>> {
    let ext = pathnorm::after_last(name, '.');
    if ext.len() + 1 < name.len() {
        Some(ext)
    } else {
        None
    }
}

/// The extension of the file that a path leads to.
pub open spec fn extension(p: Seq<char>) -> Option<Seq<char>> {
    match file_name(p) {
        Some(name) => extension_of(name),
        None => None,
    }
}

/// The name of the file that a path leads to, without its extension.
pub open spec fn file_stem(p: Seq<char>) -> Option<Seq<char>> {
    match file_name(p) {
        Some(name) => match extension_of(name) {
            Some(ext) => Some(name.take(name.len() - ext.len() - 1)),
            None => Some(name),
        },
        None => None,
    }
}

/// `rel` as seen from the directory `base`.
pub open spec fn join(base: Seq<char>, rel: Seq<char>) -> Seq<char> {
    if rel.len() > 0 && rel[0] == '/' {
        rel
    } else if base.len() == 0 || base.last() == '/' {
        base + rel
    } else {
        base + "/"@ + rel
    }
}

fn rtrim_chars(p: &[char]) -> (r: &[char])
    ensures
        r@ == rtrim(p@),
        r@.len() <= p@.len(),
{
    let mut n: usize = p.len();
    assert(p@.take(n as int) =~= p@);
    while n > 1 && (p[n - 1] == '/' || (p[n - 1] == '.' && p[n - 2] == '/'))
        invariant
            n <= p.len(),
            rtrim(p@) == rtrim(p@.take(n as int)),
        decreases n,
    {
        assert(p@.take(n as int).drop_last() =~= p@.take(n - 1));
        n -= 1;
    }
    up_to(p, n)
}

/// The name of the file that a path leads to.
fn file_name_chars(p: &[char]) -> (r: Option<Vec<char>>)
    ensures
        match r {
            Some(n) => file_name(p@) == Some(n@),
            None => file_name(p@) is None,
        },
{
    let last = tail_after(rtrim_chars(p), '/');
    proof {
        reveal_strlit(".");
        reveal_strlit("..");
        assert("."@ =~= seq!['.']);
        assert(".."@ =~= seq!['.', '.']);
    }
    if last.len() == 0 || text::is_text(last, ".") || text::is_text(last, "..") {
        None
    } else {
        Some(vstd::slice::slice_to_vec(last))
    }
}

/// The name of the file that a path leads to.
pub fn path_file_name(p: &str) -> (r: Option<String>)
    ensures
        match r {
            Some(n) => file_name(p@) == Some(n@),
            None => file_name(p@) is None,
        },
{
    let chars = chars_of(p);
    match file_name_chars(chars.as_slice()) {
        Some(name) => Some(string_of(name.as_slice())),
        None => None,
    }
}

proof fn lemma_after_last_len(s: Seq<char>, c: char)
    ensures
        pathnorm::after_last(s, c).len() <= s.len(),
    decreases s.len(),
{
    if s.len() > 0 && s.last() != c {
        lemma_after_last_len(s.drop_last(), c);
    }
}

/// The path without its last component.
pub fn path_parent(p: &str) -> (r: Option<String>)
    ensures
        match r {
            Some(d) => parent(p@) == Some(d@),
            None => parent(p@) is None,
        },
{
    let chars = chars_of(p);
    let q = rtrim_chars(chars.as_slice());
    let last = tail_after(q, '/');
    if last.len() == 0 {
        return None;
    }
    proof {
        lemma_after_last_len(q@, '/');
    }
    Some(string_of(rtrim_chars(up_to(q, q.len() - last.len()))))
}

/// The extension of the file that a path leads to.
pub fn path_extension(p: &str) -> (r: Option<String>)
    ensures
        match r {
            Some(e) => extension(p@) == Some(e@),
            None => extension(p@) is None,
        },
{
    let chars = chars_of(p);
    match file_name_chars(chars.as_slice()) {
        Some(name) => {
            let ext = tail_after(name.as_slice(), '.');
            if ext.len() < name.len() && ext.len() + 1 < name.len() {
                Some(string_of(ext))
            } else {
                None
            }
        },
        None => None,
    }
}

/// The name of the file that a path leads to, without its extension.
pub fn path_file_stem(p: &str) -> (r: Option<String>)
    ensures
        match r {
            Some(s) => file_stem(p@) == Some(s@),
            None => file_stem(p@) is None,
        },
{
    let chars = chars_of(p);
    match file_name_chars(chars.as_slice()) {
        Some(name) => {
            let ext = tail_after(name.as_slice(), '.');
            if ext.len() < name.len() && ext.len() + 1 < name.len() {
                Some(string_of(up_to(name.as_slice(), name.len() - ext.len() - 1)))
            } else {
                Some(string_of(name.as_slice()))
            }
        },
        None => None,
    }
}

/// `rel` as seen from the directory `base`.
pub fn path_join(base: &str, rel: &str) -> (r: String)
    ensures
        r@ == join(base@, rel@),
{
    let b = chars_of(base);
    let x = chars_of(rel);
    if x.len() > 0 && x[0] == '/' {
        copy_str(rel)
    } else if b.len() == 0 || b[b.len() - 1] == '/' {
        concat2(base, rel)
    } else {
        concat3(base, "/", rel)
    }
}

/// Law: a path is its parent joined with its file name, up to what `.` components and repeated
/// slashes say: the file name of the joined path is the same.
pub proof fn law_join_keeps_file_name(base: Seq<char>, name: Seq<char>)
    requires
        name.len() > 0,
        !name.contains('/'),
        name != seq!['.'],
        name != seq!['.', '.'],
    ensures
        file_name(join(base, name)) == Some(name),
{
    reveal_strlit("/");
    let j = join(base, name);
    assert(name[0] != '/') by {
        if name[0] == '/' {
            assert(name.contains('/'));
        }
    }
    let front = j.take(j.len() - name.len());
    assert(front.len() > 0 ==> front.last() == '/');
    assert(j =~= front + name);
    assert(name[name.len() - 1] != '/') by {
        if name[name.len() - 1] == '/' {
            assert(name.contains('/'));
        }
    }
    assert(rtrim(j) == j) by {
        if j.len() > 1 && j.last() == '.' && j[j.len() - 2] == '/' {
            if name.len() == 1 {
                assert(name =~= seq!['.']);
            } else {
                assert(name[name.len() - 2] == '/');
                assert(name.contains('/'));
            }
        }
    }
    lemma_after_last_tail(front, name);
}

proof fn lemma_after_last_tail(front: Seq<char>, name: Seq<char>)
    requires
        front.len() > 0 ==> front.last() == '/',
        !name.contains('/'),
    ensures
        pathnorm::after_last(front + name, '/') == name,
    decreases name.len(),
{
    let j = front + name;
    if name.len() == 0 {
        assert(j =~= front);
    } else {
        let n = name.drop_last();
        assert forall|i: int| 0 <= i < n.len() implies n[i] != '/' by {
            assert(name[i] == n[i]);
            assert(name.contains(name[i]));
        }
        assert(name.contains(name[name.len() - 1]));
        lemma_after_last_tail(front, n);
        assert(j.drop_last() =~= front + n);
        assert(n.push(name.last()) =~= name);
    }
}

} // verus!
