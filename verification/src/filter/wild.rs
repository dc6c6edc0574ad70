//! The wildcards of the 7z program: `*` stands for any run of characters, slashes among them, and
//! `?` for one character.

use crate::util::text;
use vstd::prelude::*;

verus! {

/// The glob `g` matches the whole of `s`.
pub open spec fn wild(g: Seq<char>, s: Seq<char>) -> bool
    decreases g.len(),
{
    if g.len() == 0 {
        s.len() == 0
    } else if g[0] == '*' {
        exists|k: int| 0 <= k <= s.len() && wild(g.skip(1), #[trigger] s.skip(k))
    } else {
        s.len() > 0 && (g[0] == '?' || g[0] == s[0]) && wild(g.skip(1), s.skip(1))
    }
}

/// Some glob of `globs` matches `s`.
pub open spec fn any_wild(globs: Seq<Seq<char>>, s: Seq<char>) -> bool {
    exists|j: int| 0 <= j < globs.len() && wild(#[trigger] globs[j], s)
}

/// `t` holds no wildcard.
pub open spec fn literal(t: Seq<char>) -> bool {
    forall|i: int| 0 <= i < t.len() ==> (#[trigger] t[i]) != '*' && t[i] != '?'
}

/// Whether the glob `g` matches the whole of `s`.
pub fn wild_match(g: &[char], s: &[char]) -> (r: bool)
    ensures
        r == wild(g@, s@),
    decreases g@.len(),
{
    if g.len() == 0 {
        return s.len() == 0;
    }
    let rest = text::from_pos(g, 1);
    if g[0] != '*' {
        return s.len() > 0 && (g[0] == '?' || g[0] == s[0]) && wild_match(
            rest,
            text::from_pos(s, 1),
        );
    }
    let mut k: usize = 0;
    loop
        invariant
            k <= s.len(),
            g@.len() > 0,
            g@[0] == '*',
            rest@ == g@.skip(1),
            forall|j: int| 0 <= j < k ==> !wild(rest@, #[trigger] s@.skip(j)),
        decreases s.len() - k,
    {
        if wild_match(rest, text::from_pos(s, k)) {
            return true;
        }
        if k == s.len() {
            return false;
        }
        k += 1;
    }
}

// ---------------------------------------------------------------------------------------------
// What globs of plain shapes match
// ---------------------------------------------------------------------------------------------
/// A glob that begins with plain text matches what begins with the text and goes on as the rest of
/// the glob says.
pub proof fn lemma_literal_front(t: Seq<char>, rest: Seq<char>, s: Seq<char>)
    requires
        literal(t),
    ensures
        wild(t + rest, s) <==> text::begins(s, t) && wild(rest, s.skip(t.len() as int)),
    decreases t.len(),
{
    let g = t + rest;
    if t.len() == 0 {
        assert(g =~= rest);
        assert(s.skip(0) =~= s);
        assert(s.take(0) =~= t);
    } else {
        let u = t.skip(1);
        assert(g[0] == t[0] && t[0] != '*' && t[0] != '?');
        assert(g.skip(1) =~= u + rest);
        assert forall|i: int| 0 <= i < u.len() implies (#[trigger] u[i]) != '*' && u[i] != '?' by {
            assert(u[i] == t[i + 1]);
        }
        if s.len() > 0 {
            lemma_literal_front(u, rest, s.skip(1));
            if t.len() <= s.len() {
                assert(s.skip(1).skip(u.len() as int) =~= s.skip(t.len() as int));
            }
            if text::begins(s, t) {
                assert(s[0] == s.take(t.len() as int)[0]);
                assert(s.skip(1).take(u.len() as int) =~= s.take(t.len() as int).skip(1));
            }
            if s[0] == t[0] && text::begins(s.skip(1), u) {
                assert(s.take(t.len() as int) =~= seq![t[0]] + s.skip(1).take(u.len() as int));
                assert(t =~= seq![t[0]] + u);
            }
        }
    }
}

/// A glob without wildcards matches its own text.
pub proof fn lemma_whole(t: Seq<char>, s: Seq<char>)
    requires
        literal(t),
    ensures
        wild(t, s) <==> s == t,
{
    lemma_literal_front(t, Seq::empty(), s);
    assert(t + Seq::<char>::empty() =~= t);
    if text::begins(s, t) && s.skip(t.len() as int).len() == 0 {
        assert(s.take(t.len() as int) =~= s);
    }
    if s == t {
        assert(s.take(t.len() as int) =~= s);
    }
}

/// `*` alone matches everything.
pub proof fn lemma_star(s: Seq<char>)
    ensures
        wild(seq!['*'], s),
{
    let n = s.len() as int;
    assert(seq!['*'].skip(1) =~= Seq::<char>::empty());
    assert(wild(seq!['*'].skip(1), s.skip(n)));
}

/// `text*` matches what begins with the text.
pub proof fn lemma_front(t: Seq<char>, s: Seq<char>)
    requires
        literal(t),
    ensures
        wild(t + seq!['*'], s) <==> text::begins(s, t),
{
    lemma_literal_front(t, seq!['*'], s);
    lemma_star(s.skip(t.len() as int));
}

/// `*text` matches what ends with the text.
pub proof fn lemma_back(t: Seq<char>, s: Seq<char>)
    requires
        literal(t),
    ensures
        wild(seq!['*'] + t, s) <==> text::ends(s, t),
{
    let g = seq!['*'] + t;
    assert(g[0] == '*');
    assert(g.skip(1) =~= t);
    assert forall|k: int| 0 <= k <= s.len() implies (wild(t, #[trigger] s.skip(k)) <==> s.skip(k)
        == t) by {
        lemma_whole(t, s.skip(k));
    }
    if text::ends(s, t) {
        assert(wild(g.skip(1), s.skip(s.len() - t.len())));
    }
    if wild(g, s) {
        let k = choose|k: int| 0 <= k <= s.len() && wild(g.skip(1), #[trigger] s.skip(k));
        assert(s.skip(k) == t);
        assert(k == s.len() - t.len());
    }
}

/// `*text*` matches what holds the text.
pub proof fn lemma_inside(t: Seq<char>, s: Seq<char>)
    requires
        literal(t),
    ensures
        wild(seq!['*'] + t + seq!['*'], s) <==> text::occurs(s, t),
{
    let g = seq!['*'] + t + seq!['*'];
    let n = t.len() as int;
    assert(g[0] == '*');
    assert(g.skip(1) =~= t + seq!['*']);
    assert forall|k: int| 0 <= k <= s.len() implies (wild(t + seq!['*'], #[trigger] s.skip(k))
        <==> text::occurs_at(s, t, k)) by {
        lemma_front(t, s.skip(k));
        if k + n <= s.len() {
            assert(s.skip(k).take(n) =~= s.subrange(k, k + n));
        }
    }
    if text::occurs(s, t) {
        let k = choose|k: int| text::occurs_at(s, t, k);
        assert(wild(g.skip(1), s.skip(k)));
    }
    if wild(g, s) {
        let k = choose|k: int| 0 <= k <= s.len() && wild(g.skip(1), #[trigger] s.skip(k));
        assert(text::occurs_at(s, t, k));
    }
}

/// What `*/*text` matches ends with the text.
pub proof fn lemma_below_back(t: Seq<char>, s: Seq<char>)
    requires
        literal(t),
        wild(seq!['*', '/', '*'] + t, s),
    ensures
        text::ends(s, t),
{
    let g = seq!['*', '/', '*'] + t;
    let tail = seq!['*'] + t;
    assert(g.skip(1) =~= seq!['/'] + tail);
    let k = choose|k: int| 0 <= k <= s.len() && wild(g.skip(1), #[trigger] s.skip(k));
    let u = s.skip(k);
    lemma_literal_front(seq!['/'], tail, u);
    let v = u.skip(1);
    lemma_back(t, v);
    assert(v.skip(v.len() - t.len()) =~= s.skip(s.len() - t.len()));
}

} // verus!
