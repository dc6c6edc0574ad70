//! Glob tokens of filter patterns, and what texts they match.

use crate::util::text;
use vstd::prelude::*;

verus! {

/// One token of a pattern.
#[derive(Debug)]
pub enum Tok {
    /// The character itself.
    Lit(char),
    /// One character other than `/`.
    Ques,
    /// Any run of characters other than `/`.
    Star,
    /// Any run of characters.
    GlobStar,
    /// One character other than `/` inside, or outside, a set.
    Class { negated: bool, chars: Vec<char>, ranges: Vec<(char, char)> },
}

/// The contents of a [`Tok`].
#[verifier::ext_equal]
pub enum TokView {
    Lit(char),
    Ques,
    Star,
    GlobStar,
    Class { negated: bool, chars: Seq<char>, ranges: Seq<(char, char)> },
}

impl View for Tok {
    type V = TokView;

    open spec fn view(&self) -> TokView {
        match *self {
            Tok::Lit(c) => TokView::Lit(c),
            Tok::Ques => TokView::Ques,
            Tok::Star => TokView::Star,
            Tok::GlobStar => TokView::GlobStar,
            Tok::Class { negated, chars, ranges } => TokView::Class {
                negated,
                chars: chars@,
                ranges: ranges@,
            },
        }
    }
}

/// The views of a sequence of tokens.
pub open spec fn tok_views(v: Seq<Tok>) -> Seq<TokView> {
    v.map_values(|t: Tok| t@)
}

proof fn lemma_tok_push(v: Seq<Tok>, t: Tok)
    ensures
        tok_views(v.push(t)) == tok_views(v).push(t@),
{
    assert(tok_views(v.push(t)) =~= tok_views(v).push(t@));
}

impl Clone for Tok {
    fn clone(&self) -> (r: Self)
        ensures
            r@ == self@,
    {
        match self {
            Tok::Lit(c) => Tok::Lit(*c),
            Tok::Ques => Tok::Ques,
            Tok::Star => Tok::Star,
            Tok::GlobStar => Tok::GlobStar,
            Tok::Class { negated, chars, ranges } => {
                let c2 = chars.clone();
                assert(c2@ =~= chars@);
                let r2 = copy_ranges(ranges);
                Tok::Class { negated: *negated, chars: c2, ranges: r2 }
            },
        }
    }
}

fn copy_ranges(v: &Vec<(char, char)>) -> (r: Vec<(char, char)>)
    ensures
        r@ == v@,
{
    let mut r: Vec<(char, char)> = Vec::new();
    let mut i: usize = 0;
    while i < v.len()
        invariant
            i <= v.len(),
            r@ == v@.take(i as int),
        decreases v.len() - i,
    {
        r.push((v[i].0, v[i].1));
        i += 1;
        assert(r@ =~= v@.take(i as int));
    }
    assert(v@.take(i as int) =~= v@);
    r
}

/// A copy of a row of tokens.
pub fn copy_toks(v: &Vec<Tok>) -> (r: Vec<Tok>)
    ensures
        tok_views(r@) == tok_views(v@),
{
    let mut r: Vec<Tok> = Vec::new();
    let mut i: usize = 0;
    while i < v.len()
        invariant
            i <= v.len(),
            tok_views(r@) == tok_views(v@).take(i as int),
        decreases v.len() - i,
    {
        let ghost before = r@;
        r.push(v[i].clone());
        assert(tok_views(r@) =~= tok_views(before).push(v@[i as int]@));
        i += 1;
        assert(tok_views(r@) =~= tok_views(v@).take(i as int));
    }
    assert(tok_views(v@).take(i as int) =~= tok_views(v@));
    r
}

// ---------------------------------------------------------------------------------------------
// Reading a pattern
// ---------------------------------------------------------------------------------------------
/// What stands between the opening and the closing bracket of a class: its single characters,
/// its ranges (each with the smaller end first), and how many characters were read, the closing
/// bracket included. `None` where the class is not closed. A `]` in first place is a member.
pub open spec fn class_body(s: Seq<char>, first: bool) -> Option<
    (Seq<char>, Seq<(char, char)>, int),
>
    decreases s.len(),
{
    if s.len() == 0 {
        None
    } else if s[0] == ']' && !first {
        Some((Seq::empty(), Seq::empty(), 1))
    } else if s.len() > 2 && s[1] == '-' && s[2] != ']' {
        let range = if s[0] <= s[2] {
            (s[0], s[2])
        } else {
            (s[2], s[0])
        };
        match class_body(s.skip(3), false) {
            Some((chars, ranges, n)) => Some((chars, seq![range] + ranges, n + 3)),
            None => None,
        }
    } else {
        match class_body(s.skip(1), false) {
            Some((chars, ranges, n)) => Some((seq![s[0]] + chars, ranges, n + 1)),
            None => None,
        }
    }
}

/// The class that begins at the `[` in front of `s`, and its length.
pub open spec fn class_at(s: Seq<char>) -> Option<(TokView, int)> {
    let negated = s.len() > 1 && (s[1] == '!' || s[1] == '^');
    let from = if negated {
        2int
    } else {
        1int
    };
    match class_body(s.skip(from), true) {
        Some((chars, ranges, n)) => Some((TokView::Class { negated, chars, ranges }, n + from)),
        None => None,
    }
}

/// `t` in front of the tokens of `rest`, unless those could not be read.
pub open spec fn in_front(
    t: TokView,
    rest: std::result::Result<Seq<TokView>, Seq<char>>,
) -> std::result::Result<Seq<TokView>, Seq<char>> {
    match rest {
        Ok(v) => Ok(seq![t] + v),
        Err(m) => Err(m),
    }
}

/// The tokens of a pattern, or why it cannot be read.
pub open spec fn tokens_of(s: Seq<char>) -> std::result::Result<Seq<TokView>, Seq<char>>
    decreases s.len(),
    via tokens_of_decreases
{
    if s.len() == 0 {
        Ok(Seq::empty())
    } else if s[0] == '\\' {
        if s.len() < 2 {
            Err("trailing backslash in pattern"@)
        } else {
            in_front(TokView::Lit(s[1]), tokens_of(s.skip(2)))
        }
    } else if s[0] == '?' {
        in_front(TokView::Ques, tokens_of(s.skip(1)))
    } else if s[0] == '*' {
        if s.len() > 1 && s[1] == '*' {
            in_front(TokView::GlobStar, tokens_of(text::strip_front(s, '*')))
        } else {
            in_front(TokView::Star, tokens_of(s.skip(1)))
        }
    } else if s[0] == '[' {
        match class_at(s) {
            Some((t, n)) => in_front(t, tokens_of(s.skip(n))),
            None => Err("unclosed character class"@),
        }
    } else {
        in_front(TokView::Lit(s[0]), tokens_of(s.skip(1)))
    }
}

proof fn lemma_class_body(s: Seq<char>, first: bool)
    ensures
        class_body(s, first) matches Some((_c, _r, n)) ==> 0 < n <= s.len(),
    decreases s.len(),
{
    if s.len() == 0 {
    } else if s[0] == ']' && !first {
    } else if s.len() > 2 && s[1] == '-' && s[2] != ']' {
        lemma_class_body(s.skip(3), false);
    } else {
        lemma_class_body(s.skip(1), false);
    }
}

proof fn lemma_class_at(s: Seq<char>)
    requires
        s.len() > 0,
    ensures
        class_at(s) matches Some((_t, n)) ==> 0 < n <= s.len(),
{
    let negated = s.len() > 1 && (s[1] == '!' || s[1] == '^');
    let from = if negated {
        2int
    } else {
        1int
    };
    lemma_class_body(s.skip(from), true);
}

proof fn lemma_strip_shrinks(s: Seq<char>, c: char)
    ensures
        text::strip_front(s, c).len() <= s.len(),
        s.len() > 0 && s[0] == c ==> text::strip_front(s, c).len() < s.len(),
    decreases s.len(),
{
    if s.len() > 0 && s[0] == c {
        lemma_strip_shrinks(s.skip(1), c);
    }
}

#[via_fn]
proof fn tokens_of_decreases(s: Seq<char>) {
    if s.len() > 0 {
        lemma_strip_shrinks(s, '*');
        lemma_class_at(s);
    }
}

/// Reads the class that begins at the `[` in front of `s`.
fn parse_class(s: &[char]) -> (r: std::result::Result<(Tok, usize), String>)
    requires
        s@.len() > 0,
    ensures
        match r {
            Ok((t, n)) => class_at(s@) == Some((t@, n as int)) && 0 < n <= s@.len(),
            Err(m) => class_at(s@) is None && m@ == "unclosed character class"@,
        },
{
    let mut i: usize = 1;
    let mut negated = false;
    if s.len() > 1 && (s[1] == '!' || s[1] == '^') {
        negated = true;
        i = 2;
    }
    let ghost from: int = i as int;
    let ghost whole = class_body(s@.skip(from), true);
    let mut chars: Vec<char> = Vec::new();
    let mut ranges: Vec<(char, char)> = Vec::new();
    let mut first = true;
    proof {
        lemma_class_at(s@);
        match whole {
            Some((c, r, n)) => {
                assert(chars@ + c =~= c);
                assert(ranges@ + r =~= r);
            },
            None => {},
        }
    }
    while i < s.len()
        invariant
            1 <= from <= i <= s.len(),
            from == (if negated {
                2int
            } else {
                1int
            }),
            negated == (s@.len() > 1 && (s@[1] == '!' || s@[1] == '^')),
            whole == class_body(s@.skip(from), true),
            class_at(s@) matches Some((_t, n)) ==> 0 < n <= s@.len(),
            match class_body(s@.skip(i as int), first) {
                Some((c, r, n)) => whole == Some((chars@ + c, ranges@ + r, n + i - from)),
                None => whole is None,
            },
        decreases s.len() - i,
    {
        let ghost rest = s@.skip(i as int);
        if s[i] == ']' && !first {
            assert(chars@ + Seq::<char>::empty() =~= chars@);
            assert(ranges@ + Seq::<(char, char)>::empty() =~= ranges@);
            return Ok((Tok::Class { negated, chars, ranges }, i + 1));
        }
        first = false;
        let ghost c0 = chars@;
        let ghost r0 = ranges@;
        if s.len() - i > 2 && s[i + 1] == '-' && s[i + 2] != ']' {
            let a = s[i];
            let b = s[i + 2];
            if a <= b {
                ranges.push((a, b));
            } else {
                ranges.push((b, a));
            }
            proof {
                assert(rest.skip(3) =~= s@.skip(i + 3));
                match class_body(s@.skip(i + 3), false) {
                    Some((c, r, n)) => {
                        text::lemma_push_front(r0, ranges@.last(), r);
                    },
                    None => {},
                }
            }
            i += 3;
        } else {
            chars.push(s[i]);
            proof {
                assert(rest.skip(1) =~= s@.skip(i + 1));
                match class_body(s@.skip(i + 1), false) {
                    Some((c, r, n)) => {
                        text::lemma_push_front(c0, s@[i as int], c);
                    },
                    None => {},
                }
            }
            i += 1;
        }
    }
    Err(text::copy_str("unclosed character class"))
}

/// Reads the token in front of `s`; gives it with what follows it.
fn read_token(s: &[char]) -> (r: std::result::Result<(Tok, &[char]), String>)
    requires
        s@.len() > 0,
    ensures
        match r {
            Ok((t, rest)) => rest@.len() < s@.len() && tokens_of(s@) == in_front(
                t@,
                tokens_of(rest@),
            ),
            Err(m) => tokens_of(s@) == Err::<Seq<TokView>, Seq<char>>(m@),
        },
{
    let c = s[0];
    if c == '\\' {
        if s.len() < 2 {
            return Err(text::copy_str("trailing backslash in pattern"));
        }
        Ok((Tok::Lit(s[1]), text::from_pos(s, 2)))
    } else if c == '?' {
        Ok((Tok::Ques, text::from_pos(s, 1)))
    } else if c == '*' {
        if s.len() > 1 && s[1] == '*' {
            proof {
                lemma_strip_shrinks(s@, '*');
            }
            Ok((Tok::GlobStar, text::without_front(s, '*')))
        } else {
            Ok((Tok::Star, text::from_pos(s, 1)))
        }
    } else if c == '[' {
        match parse_class(s) {
            Ok((t, n)) => Ok((t, text::from_pos(s, n))),
            Err(m) => Err(m),
        }
    } else {
        Ok((Tok::Lit(c), text::from_pos(s, 1)))
    }
}

/// Reads the tokens of a pattern.
pub fn tokenize(pat: &[char]) -> (r: std::result::Result<Vec<Tok>, String>)
    ensures
        match r {
            Ok(v) => tokens_of(pat@) == Ok::<Seq<TokView>, Seq<char>>(tok_views(v@)),
            Err(m) => tokens_of(pat@) == Err::<Seq<TokView>, Seq<char>>(m@),
        },
{
    let mut out: Vec<Tok> = Vec::new();
    let mut rest: &[char] = pat;
    proof {
        assert(tok_views(out@) =~= Seq::<TokView>::empty());
        match tokens_of(pat@) {
            Ok(v) => {
                assert(tok_views(out@) + v =~= v);
            },
            Err(_) => {},
        }
    }
    while rest.len() > 0
        invariant
            match tokens_of(rest@) {
                Ok(v) => tokens_of(pat@) == Ok::<Seq<TokView>, Seq<char>>(tok_views(out@) + v),
                Err(m) => tokens_of(pat@) == Err::<Seq<TokView>, Seq<char>>(m),
            },
        decreases rest@.len(),
    {
        match read_token(rest) {
            Ok((tok, next)) => {
                proof {
                    lemma_tok_push(out@, tok);
                    match tokens_of(next@) {
                        Ok(v) => {
                            text::lemma_push_front(tok_views(out@), tok@, v);
                        },
                        Err(_) => {},
                    }
                }
                out.push(tok);
                rest = next;
            },
            Err(m) => {
                return Err(m);
            },
        }
    }
    assert(tok_views(out@) + Seq::<TokView>::empty() =~= tok_views(out@));
    Ok(out)
}

// ---------------------------------------------------------------------------------------------
// Matching
// ---------------------------------------------------------------------------------------------
/// `c` is a member of a class.
pub open spec fn in_class(c: char, chars: Seq<char>, ranges: Seq<(char, char)>) -> bool {
    chars.contains(c) || exists|i: int|
        0 <= i < ranges.len() && (#[trigger] ranges[i]).0 <= c <= ranges[i].1
}

/// Whether a token, standing for one character, takes the character `c`.
pub open spec fn takes(t: TokView, c: char) -> bool {
    match t {
        TokView::Lit(x) => c == x,
        TokView::Ques => c != '/',
        TokView::Class { negated, chars, ranges } => c != '/' && in_class(c, chars, ranges)
            != negated,
        _ => false,
    }
}

/// No slash among the first `k` characters.
pub open spec fn slash_free(s: Seq<char>, k: int) -> bool {
    forall|j: int| 0 <= j < k ==> #[trigger] s[j] != '/'
}

/// `pat` matches the whole of `s`. `*` takes any run without a slash and `**` any run at all;
/// a `**/` may also stand for nothing.
pub open spec fn glob(pat: Seq<TokView>, s: Seq<char>) -> bool
    decreases pat.len(),
{
    if pat.len() == 0 {
        s.len() == 0
    } else {
        match pat[0] {
            TokView::GlobStar => {
                ||| exists|k: int| 0 <= k <= s.len() && glob(pat.skip(1), #[trigger] s.skip(k))
                ||| pat.len() > 1 && pat[1] == TokView::Lit('/') && glob(pat.skip(2), s)
            },
            TokView::Star => exists|k: int|
                0 <= k <= s.len() && slash_free(s, k) && glob(pat.skip(1), #[trigger] s.skip(k)),
            t => s.len() > 0 && takes(t, s[0]) && glob(pat.skip(1), s.skip(1)),
        }
    }
}

/// Whether `c` is a member of a class.
fn class_matches(c: char, chars: &[char], ranges: &[(char, char)]) -> (r: bool)
    ensures
        r == in_class(c, chars@, ranges@),
{
    if text::has_char(chars, c) {
        return true;
    }
    let mut i: usize = 0;
    while i < ranges.len()
        invariant
            i <= ranges.len(),
            !chars@.contains(c),
            forall|k: int| 0 <= k < i ==> !((#[trigger] ranges@[k]).0 <= c <= ranges@[k].1),
        decreases ranges.len() - i,
    {
        if c >= ranges[i].0 && c <= ranges[i].1 {
            assert(ranges@[i as int].0 <= c <= ranges@[i as int].1);
            return true;
        }
        i += 1;
    }
    false
}

/// Whether the tokens from `pi` on match the text from `ti` on.
fn match_from(pat: &[Tok], pi: usize, s: &[char], ti: usize) -> (r: bool)
    requires
        pi <= pat@.len(),
        ti <= s@.len(),
    ensures
        r == glob(tok_views(pat@).skip(pi as int), s@.skip(ti as int)),
    decreases pat@.len() - pi,
{
    let ghost toks = tok_views(pat@);
    let ghost here = toks.skip(pi as int);
    let ghost rest = s@.skip(ti as int);
    if pi == pat.len() {
        return ti == s.len();
    }
    assert(here[0] == pat@[pi as int]@);
    assert(here.skip(1) =~= toks.skip(pi + 1));
    match &pat[pi] {
        Tok::GlobStar => {
            if pat.len() - pi > 1 {
                let slash = match &pat[pi + 1] {
                    Tok::Lit(c) => *c == '/',
                    _ => false,
                };
                assert(here[1] == pat@[pi + 1]@);
                assert(slash == (here[1] == TokView::Lit('/')));
                assert(here.skip(2) =~= toks.skip(pi + 2));
                if slash && match_from(pat, pi + 2, s, ti) {
                    return true;
                }
            }
            let mut k: usize = ti;
            loop
                invariant
                    pi < pat.len(),
                    ti <= k <= s.len(),
                    toks == tok_views(pat@),
                    here == toks.skip(pi as int),
                    rest == s@.skip(ti as int),
                    here[0] == TokView::GlobStar,
                    here.skip(1) == toks.skip(pi + 1),
                    !(here.len() > 1 && here[1] == TokView::Lit('/') && glob(here.skip(2), rest)),
                    forall|j: int|
                        0 <= j < k - ti ==> !glob(here.skip(1), #[trigger] rest.skip(j)),
                decreases s.len() - k,
            {
                assert(rest.skip(k - ti) =~= s@.skip(k as int));
                assert(here.len() > 0);
                if match_from(pat, pi + 1, s, k) {
                    assert(glob(here.skip(1), rest.skip(k - ti)) && 0 <= k - ti <= rest.len());
                    return true;
                }
                if k == s.len() {
                    return false;
                }
                k += 1;
            }
        },
        Tok::Star => {
            let mut k: usize = ti;
            loop
                invariant
                    pi < pat.len(),
                    ti <= k <= s.len(),
                    toks == tok_views(pat@),
                    here == toks.skip(pi as int),
                    rest == s@.skip(ti as int),
                    here[0] == TokView::Star,
                    here.skip(1) == toks.skip(pi + 1),
                    slash_free(rest, k - ti),
                    forall|j: int|
                        0 <= j < k - ti ==> !glob(here.skip(1), #[trigger] rest.skip(j)),
                decreases s.len() - k,
            {
                assert(rest.skip(k - ti) =~= s@.skip(k as int));
                assert(here.len() > 0);
                if match_from(pat, pi + 1, s, k) {
                    assert(glob(here.skip(1), rest.skip(k - ti)) && 0 <= k - ti <= rest.len());
                    return true;
                }
                if k == s.len() || s[k] == '/' {
                    proof {
                        assert forall|j: int|
                            0 <= j <= rest.len() && slash_free(
                                rest,
                                j,
                            ) implies !glob(here.skip(1), #[trigger] rest.skip(j)) by {
                            if j > k - ti {
                                assert(rest[k - ti] == s@[k as int]);
                            }
                        }
                    }
                    return false;
                }
                assert(rest[k - ti] == s@[k as int]);
                k += 1;
            }
        },
        Tok::Ques => {
            if ti >= s.len() || s[ti] == '/' {
                return false;
            }
            assert(rest.skip(1) =~= s@.skip(ti + 1));
            match_from(pat, pi + 1, s, ti + 1)
        },
        Tok::Lit(c) => {
            if ti >= s.len() || s[ti] != *c {
                return false;
            }
            assert(rest.skip(1) =~= s@.skip(ti + 1));
            match_from(pat, pi + 1, s, ti + 1)
        },
        Tok::Class { negated, chars, ranges } => {
            if ti >= s.len() || s[ti] == '/' {
                return false;
            }
            let hit = class_matches(s[ti], chars.as_slice(), ranges.as_slice());
            if *negated == hit {
                return false;
            }
            assert(rest.skip(1) =~= s@.skip(ti + 1));
            match_from(pat, pi + 1, s, ti + 1)
        },
    }
}

/// Whether the tokens match the whole text.
pub fn match_tokens(pat: &[Tok], s: &[char]) -> (r: bool)
    ensures
        r == glob(tok_views(pat@), s@),
{
    assert(tok_views(pat@).skip(0) =~= tok_views(pat@));
    assert(s@.skip(0) =~= s@);
    match_from(pat, 0, s, 0)
}

} // verus!
