//! What normal forms, safety, names and parents of paths are, told from their texts.

use crate::filter::exclude_laws;
use crate::util::pathnorm;
use crate::util::text;
use crate::util::textpath;
use vstd::prelude::*;

verus! {

// ---------------------------------------------------------------------------------------------
// Normal forms
// ---------------------------------------------------------------------------------------------
proof fn lemma_collapse_twice(x: Seq<char>, y: Seq<char>)
    ensures
        pathnorm::collapse(x + seq!['/', '/'] + y) == pathnorm::collapse(x + seq!['/'] + y),
    decreases y.len(),
{
    let a = x + seq!['/', '/'] + y;
    let b = x + seq!['/'] + y;
    if y.len() == 0 {
        assert(a.drop_last() =~= b);
    } else {
        let z = y.drop_last();
        assert(a.drop_last() =~= x + seq!['/', '/'] + z);
        assert(b.drop_last() =~= x + seq!['/'] + z);
        lemma_collapse_twice(x, z);
        assert(a[a.len() - 2] == b[b.len() - 2]);
    }
}

/// A first character that makes no pair of slashes stays as it is.
proof fn lemma_collapse_first(c: char, q: Seq<char>)
    requires
        !(c == '/' && q.len() > 0 && q[0] == '/'),
    ensures
        pathnorm::collapse(seq![c] + q) == seq![c] + pathnorm::collapse(q),
    decreases q.len(),
{
    let s = seq![c] + q;
    let none = Seq::<char>::empty();
    if q.len() == 0 {
        assert(s.drop_last() =~= none);
        assert(pathnorm::collapse(none) == none);
        assert(s.last() == c);
        assert(none.push(c) =~= seq![c] + none);
    } else {
        let r = q.drop_last();
        assert(s.drop_last() =~= seq![c] + r);
        assert(s.last() == q.last());
        lemma_collapse_first(c, r);
        if q.len() >= 2 {
            assert(s[s.len() - 2] == q[q.len() - 2]);
        } else {
            assert(s[s.len() - 2] == c);
        }
        assert((seq![c] + pathnorm::collapse(r)).push(q.last()) =~= seq![c]
            + pathnorm::collapse(r).push(q.last()));
    }
}

/// Without what leads a path, a slash in front does not count.
proof fn lemma_slash_in_front(q: Seq<char>)
    ensures
        pathnorm::without_lead(pathnorm::collapse(seq!['/'] + q)) == pathnorm::without_lead(
            pathnorm::collapse(q),
        ),
        pathnorm::without_lead(pathnorm::collapse(seq!['.', '/'] + q)) == pathnorm::without_lead(
            pathnorm::collapse(q),
        ),
{
    let none = Seq::<char>::empty();
    let slashed = seq!['/'] + q;
    let dotted = seq!['.', '/'] + q;
    assert(dotted =~= seq!['.'] + slashed);
    lemma_collapse_first('.', slashed);
    if q.len() > 0 && q[0] == '/' {
        let r = q.skip(1);
        assert(slashed =~= none + seq!['/', '/'] + r);
        assert(q =~= none + seq!['/'] + r);
        lemma_collapse_twice(none, r);
        let c = pathnorm::collapse(q);
        lemma_begins_with_slash(q);
        let w = c.skip(1);
        assert(c =~= seq!['/'] + w);
        let d = seq!['.'] + c;
        assert(d.take(2) =~= seq!['.', '/']);
        assert(d.skip(2) =~= w);
    } else {
        lemma_collapse_first('/', q);
        let w = pathnorm::collapse(q);
        let c = seq!['/'] + w;
        assert(c.skip(1) =~= w);
        let d = seq!['.'] + c;
        assert(d.take(2) =~= seq!['.', '/']);
        assert(d.skip(2) =~= w);
    }
}

proof fn lemma_begins_with_slash(q: Seq<char>)
    requires
        q.len() > 0,
        q[0] == '/',
    ensures
        pathnorm::collapse(q).len() > 0,
        pathnorm::collapse(q)[0] == '/',
    decreases q.len(),
{
    let t = q.drop_last();
    if q.len() > 1 {
        lemma_begins_with_slash(t);
        assert(pathnorm::collapse(t).push(q.last())[0] == pathnorm::collapse(t)[0]);
    } else {
        assert(t =~= Seq::<char>::empty());
        assert(pathnorm::collapse(t) == t);
        assert(t.push('/')[0] == '/');
    }
}

/// Law: in the normal form of a path a backslash counts as a slash, two slashes as one, and a slash
/// or `./` in front as nothing. Nothing else is changed: what has none of these is its own normal
/// form.
pub proof fn law_what_normal_forms_leave_out(a: Seq<char>, b: Seq<char>)
    ensures
        pathnorm::normalized(a + seq!['\\'] + b) == pathnorm::normalized(a + seq!['/'] + b),
        pathnorm::normalized(a + seq!['/', '/'] + b) == pathnorm::normalized(a + seq!['/'] + b),
        pathnorm::normalized(seq!['/'] + a) == pathnorm::normalized(a),
        pathnorm::normalized(seq!['.', '/'] + a) == pathnorm::normalized(a),
        pathnorm::is_normal(a) ==> pathnorm::normalized(a) == a,
{
    pathnorm::law_normal_form(a);
    let x = text::swapped(a, '\\', '/');
    let y = text::swapped(b, '\\', '/');
    assert(text::swapped(a + seq!['\\'] + b, '\\', '/') =~= x + seq!['/'] + y);
    assert(text::swapped(a + seq!['/'] + b, '\\', '/') =~= x + seq!['/'] + y);
    assert(text::swapped(a + seq!['/', '/'] + b, '\\', '/') =~= x + seq!['/', '/'] + y);
    lemma_collapse_twice(x, y);
    assert(text::swapped(seq!['/'] + a, '\\', '/') =~= seq!['/'] + x);
    assert(text::swapped(seq!['.', '/'] + a, '\\', '/') =~= seq!['.', '/'] + x);
    lemma_slash_in_front(x);
}

// ---------------------------------------------------------------------------------------------
// Safety
// ---------------------------------------------------------------------------------------------
/// A component `..` begins at position `i`.
pub open spec fn climbs_at(p: Seq<char>, i: int) -> bool {
    &&& 0 <= i && i + 2 <= p.len()
    &&& p[i] == '.' && p[i + 1] == '.'
    &&& i == 0 || p[i - 1] == '/'
    &&& i + 2 == p.len() || p[i + 2] == '/'
}

/// Some component of the path is `..`.
pub open spec fn climbs(p: Seq<char>) -> bool {
    exists|i: int| climbs_at(p, i)
}

proof fn lemma_climbs(p: Seq<char>)
    ensures
        text::split(p, '/').contains(seq!['.', '.']) <==> climbs(p),
    decreases p.len(),
{
    let up = seq!['.', '.'];
    let n = text::find(p, '/');
    text::lemma_find(p, '/');
    let parts = text::split(p, '/');
    if n >= p.len() {
        assert(parts =~= seq![p]);
        if parts.contains(up) {
            let k = choose|k: int| 0 <= k < parts.len() && parts[k] == up;
            assert(climbs_at(p, 0));
        }
        if climbs(p) {
            let i = choose|i: int| climbs_at(p, i);
            assert(i == 0 && p.len() == 2);
            assert(p =~= up);
            assert(parts[0] == up);
        }
    } else {
        let front = p.take(n);
        let rest = p.skip(n + 1);
        let more = text::split(rest, '/');
        lemma_climbs(rest);
        assert(parts =~= seq![front] + more);
        if parts.contains(up) {
            let k = choose|k: int| 0 <= k < parts.len() && parts[k] == up;
            if k == 0 {
                assert(front == up);
                assert(p[0] == front[0] && p[1] == front[1]);
                assert(climbs_at(p, 0));
            } else {
                assert(more[k - 1] == up);
                let i = choose|i: int| climbs_at(rest, i);
                assert(climbs_at(p, i + n + 1));
            }
        }
        if climbs(p) {
            let i = choose|i: int| climbs_at(p, i);
            if i < n {
                if i > 0 {
                    assert(p[i - 1] != '/');
                }
                assert(i == 0);
                assert(n == 2) by {
                    if n < 2 {
                        assert(p[n] == '.');
                    }
                    if n > 2 {
                        assert(p[2] != '/');
                    }
                }
                assert(front =~= up);
                assert(parts[0] == up);
            } else {
                assert(i > n);
                assert(climbs_at(rest, i - n - 1)) by {
                    if i - n - 1 > 0 {
                        assert(rest[i - n - 2] == p[i - 1]);
                    }
                }
                assert(climbs(rest));
                let k = choose|k: int| 0 <= k < more.len() && more[k] == up;
                assert(parts[k + 1] == up);
            }
        }
    }
}

/// Law: a path is safe exactly if something is left of it in normal form, it neither begins with a
/// slash or backslash nor with a drive letter, and no component of its normal form is `..`.
pub proof fn law_what_is_safe(p: Seq<char>)
    ensures
        pathnorm::safe(p) <==> pathnorm::normalized(p).len() > 0 && p[0] != '/' && p[0] != '\\' && !(
        p.len() > 1 && p[1] == ':') && !climbs(pathnorm::normalized(p)),
{
    lemma_climbs(pathnorm::normalized(p));
    let raw = text::swapped(p, '\\', '/');
    if p.len() == 0 {
        assert(raw =~= p);
        assert(pathnorm::is_normal(p));
        pathnorm::law_normal_form(p);
    } else {
        assert(raw[0] == '/' <==> p[0] == '/' || p[0] == '\\');
        if p.len() > 1 {
            assert(raw[1] == ':' <==> p[1] == ':');
        }
    }
}

// ---------------------------------------------------------------------------------------------
// Names of members
// ---------------------------------------------------------------------------------------------
/// Law: the base name of a member is what follows the last slash of its normal form; joining puts a
/// slash between two paths in normal form and nothing around an empty one.
pub proof fn law_names_of_members(dir: Seq<char>, name: Seq<char>)
    requires
        pathnorm::is_normal(dir),
        pathnorm::is_normal(name),
        !name.contains('/'),
    ensures
        pathnorm::base_name(name) == name,
        pathnorm::joined(dir, name) == if dir.len() == 0 {
            name
        } else if name.len() == 0 {
            dir
        } else {
            dir + seq!['/'] + name
        },
        dir.len() > 0 && dir.last() != '/' && name.len() > 0 ==> pathnorm::base_name(
            dir + seq!['/'] + name,
        ) == name,
{
    reveal_strlit("/");
    assert("/"@ =~= seq!['/']);
    pathnorm::law_normal_form(dir);
    pathnorm::law_normal_form(name);
    exclude_laws::lemma_base_is(name, name);
    let whole = dir + seq!['/'] + name;
    if dir == seq!['.'] {
        assert(whole =~= seq!['.', '/'] + name);
        law_what_normal_forms_leave_out(name, name);
    } else if dir.len() > 0 && dir.last() != '/' && name.len() > 0 {
        assert(pathnorm::is_normal(whole)) by {
            assert forall|i: int| 0 <= i < whole.len() implies whole[i] != '\\' by {
                if i < dir.len() {
                    assert(whole[i] == dir[i]);
                } else if i > dir.len() {
                    assert(whole[i] == name[i - dir.len() - 1]);
                }
            }
            assert forall|i: int| 0 < i < whole.len() implies !(whole[i - 1] == '/'
                && #[trigger] whole[i] == '/') by {
                if i < dir.len() {
                    assert(whole[i] == dir[i] && whole[i - 1] == dir[i - 1]);
                } else if i == dir.len() {
                    assert(whole[i - 1] == dir.last());
                } else {
                    assert(whole[i] == name[i - dir.len() - 1]);
                }
            }
            if text::begins(whole, seq!['.', '/']) {
                assert(whole.take(2)[0] == '.' && whole.take(2)[1] == '/');
                if dir.len() >= 2 {
                    assert(dir.take(2) =~= seq!['.', '/']);
                } else {
                    assert(dir =~= seq!['.']);
                }
            }
        }
        pathnorm::law_normal_form(whole);
        let u = seq!['/'] + name;
        assert(whole.skip(whole.len() - u.len()) =~= u);
        exclude_laws::lemma_base_is(whole, name);
    }
}

// ---------------------------------------------------------------------------------------------
// File paths
// ---------------------------------------------------------------------------------------------
/// A name of a file: not empty, without a slash, and neither `.` nor `..`.
pub open spec fn plain_name(name: Seq<char>) -> bool {
    name.len() > 0 && !name.contains('/') && name != seq!['.'] && name != seq!['.', '.']
}

proof fn lemma_nothing_to_trim(dir: Seq<char>, name: Seq<char>)
    requires
        plain_name(name),
    ensures
        textpath::rtrim(name) == name,
        textpath::rtrim(dir + seq!['/'] + name) == dir + seq!['/'] + name,
{
    let p = dir + seq!['/'] + name;
    assert(p.last() == name.last());
    assert(name.last() != '/') by {
        assert(name.contains(name[name.len() - 1]));
    }
    if name.last() == '.' {
        if name.len() == 1 {
            assert(name =~= seq!['.']);
        } else {
            assert(name[name.len() - 2] != '/') by {
                assert(name.contains(name[name.len() - 2]));
            }
            assert(p[p.len() - 2] == name[name.len() - 2]);
        }
    }
}

/// Law: the file name of a path is what follows its last slash, slashes at the end not counted; its
/// parent is what stands in front.
pub proof fn law_file_name_and_parent(dir: Seq<char>, name: Seq<char>)
    requires
        plain_name(name),
        dir.len() > 0,
        textpath::rtrim(dir) == dir,
    ensures
        textpath::file_name(name) == Some(name),
        textpath::file_name(dir + seq!['/'] + name) == Some(name),
        textpath::file_name(dir + seq!['/'] + name + seq!['/']) == Some(name),
        textpath::parent(dir + seq!['/'] + name) == Some(dir),
        textpath::parent(name) == Some(Seq::<char>::empty()),
{
    let p = dir + seq!['/'] + name;
    let q = p + seq!['/'];
    lemma_nothing_to_trim(dir, name);
    assert(q.last() == '/');
    assert(q.drop_last() =~= p);
    assert(textpath::rtrim(q) == p);
    let u = seq!['/'] + name;
    assert(p.skip(p.len() - u.len()) =~= u);
    exclude_laws::lemma_base_is(p, name);
    exclude_laws::lemma_base_is(name, name);
    let cut = dir + seq!['/'];
    assert(p.take(p.len() - name.len()) =~= cut);
    assert(cut.last() == '/');
    assert(cut.drop_last() =~= dir);
    assert(textpath::rtrim(cut) == dir);
    assert(name.take(0) =~= Seq::<char>::empty());
}

proof fn lemma_after_last_dot(stem: Seq<char>, ext: Seq<char>)
    requires
        !ext.contains('.'),
    ensures
        pathnorm::after_last(stem + seq!['.'] + ext, '.') == ext,
        pathnorm::after_last(ext, '.') == ext,
    decreases ext.len(),
{
    let s = stem + seq!['.'] + ext;
    if ext.len() == 0 {
        assert(s.last() == '.');
        assert(ext =~= Seq::<char>::empty());
    } else {
        let e = ext.drop_last();
        assert(s.drop_last() =~= stem + seq!['.'] + e);
        assert(s.last() == ext.last());
        assert(ext.contains(ext[ext.len() - 1]));
        assert forall|i: int| 0 <= i < e.len() implies e[i] != '.' by {
            assert(e[i] == ext[i]);
            assert(ext.contains(ext[i]));
        }
        lemma_after_last_dot(stem, e);
        assert(e.push(ext.last()) =~= ext);
    }
}

/// Law: the extension of a file name is what follows its last dot and the stem what stands in front
/// of it; a name without a dot, or with none but its first character, has no extension.
pub proof fn law_stem_and_extension(dir: Seq<char>, stem: Seq<char>, ext: Seq<char>)
    requires
        stem.len() > 0,
        !ext.contains('.'),
        !ext.contains('/'),
        !stem.contains('/'),
        plain_name(stem + seq!['.'] + ext),
        plain_name(ext),
        plain_name(seq!['.'] + ext),
    ensures
        textpath::extension(dir + seq!['/'] + (stem + seq!['.'] + ext)) == Some(ext),
        textpath::file_stem(dir + seq!['/'] + (stem + seq!['.'] + ext)) == Some(stem),
        textpath::extension(dir + seq!['/'] + ext) is None,
        textpath::file_stem(dir + seq!['/'] + ext) == Some(ext),
        textpath::extension(dir + seq!['/'] + (seq!['.'] + ext)) is None,
{
    let name = stem + seq!['.'] + ext;
    let hidden = seq!['.'] + ext;
    lemma_name_of(dir, name);
    lemma_name_of(dir, ext);
    lemma_name_of(dir, hidden);
    lemma_after_last_dot(stem, ext);
    assert(hidden =~= Seq::<char>::empty() + seq!['.'] + ext);
    lemma_after_last_dot(Seq::empty(), ext);
    assert(name.take(name.len() - ext.len() - 1) =~= stem);
}

pub(crate) proof fn lemma_name_of(dir: Seq<char>, name: Seq<char>)
    requires
        plain_name(name),
    ensures
        textpath::file_name(dir + seq!['/'] + name) == Some(name),
{
    let p = dir + seq!['/'] + name;
    lemma_nothing_to_trim(dir, name);
    let u = seq!['/'] + name;
    assert(p.skip(p.len() - u.len()) =~= u);
    exclude_laws::lemma_base_is(p, name);
}

/// Law: joining a relative path to a directory puts it below the directory, and an absolute path
/// stays as it is.
pub proof fn law_joined_paths(base: Seq<char>, rel: Seq<char>)
    requires
        base.len() > 0,
        base.last() != '/',
        rel.len() > 0,
    ensures
        rel[0] == '/' ==> textpath::join(base, rel) == rel,
        rel[0] != '/' ==> textpath::join(base, rel) == base + seq!['/'] + rel,
        rel[0] != '/' ==> textpath::join(base + seq!['/'], rel) == base + seq!['/'] + rel,
        rel[0] != '/' ==> textpath::join(Seq::empty(), rel) == rel,
{
    reveal_strlit("/");
    assert("/"@ =~= seq!['/']);
    let b = base + seq!['/'];
    assert(b.last() == '/');
    assert(Seq::<char>::empty() + rel =~= rel);
}

/// Law: slashes and `.` components at the end of a path lead nowhere else; a path without a name, and
/// `..`, name no file.
pub proof fn law_ends_of_paths(p: Seq<char>)
    requires
        p.len() > 0,
    ensures
        textpath::file_name(p + seq!['/']) == textpath::file_name(p),
        textpath::file_name(p + seq!['/', '.']) == textpath::file_name(p),
        textpath::parent(p + seq!['/']) == textpath::parent(p),
        textpath::parent(p + seq!['/', '.']) == textpath::parent(p),
        textpath::file_name(Seq::empty()) is None,
        textpath::file_name(seq!['/']) is None,
        textpath::file_name(seq!['.']) is None,
        textpath::file_name(seq!['.', '.']) is None,
        textpath::parent(Seq::empty()) is None,
        textpath::parent(seq!['/']) is None,
{
    let a = p + seq!['/'];
    let b = p + seq!['/', '.'];
    assert(a.last() == '/' && b.last() == '.' && b[b.len() - 2] == '/');
    assert(a.drop_last() =~= p);
    assert(b.drop_last() =~= a);
    assert(textpath::rtrim(b) == textpath::rtrim(a));
    assert(textpath::rtrim(a) == textpath::rtrim(p));
    let none = Seq::<char>::empty();
    assert(pathnorm::after_last(none, '/') == none);
    assert(pathnorm::after_last(seq!['/'], '/') == none);
    exclude_laws::lemma_base_is(seq!['.'], seq!['.']);
    exclude_laws::lemma_base_is(seq!['.', '.'], seq!['.', '.']);
}

} // verus!
