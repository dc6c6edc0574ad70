//! Regular expressions of a few plain forms, what they match, and the exclusion globs that drop the
//! same paths.
//!
//! - `\.ext$`, also behind `(?i)` or `(?-i)`: the text ends with `.ext`;
//! - `^path`: the text begins with `path`;
//! - `^path$` and `^name\.ext$`: the text is `path`, or `name.ext`.

use crate::filter::rsync::{one_string, only_chars, two_strings, CharSet};
use crate::util::text;
use crate::util::text::{
    begins_with, chars_of, concat2, copy_str, from_pos, has_char, string_of, to_lower_char, up_to,
};
use vstd::prelude::*;

verus! {

/// What an expression of a plain form asks of a text.
#[derive(Debug)]
pub enum PlainForm {
    /// It ends like this.
    Ends(String),
    /// It ends like this, upper or lower case.
    EndsAnyCase(String),
    /// It begins like this.
    Begins(String),
    /// It is this.
    Whole(String),
}

/// What an expression of a plain form asks of a text.
#[verifier::ext_equal]
pub enum FormView {
    Ends(Seq<char>),
    EndsAnyCase(Seq<char>),
    Begins(Seq<char>),
    Whole(Seq<char>),
}

impl View for PlainForm {
    type V = FormView;

    open spec fn view(&self) -> FormView {
        match *self {
            PlainForm::Ends(t) => FormView::Ends(t@),
            PlainForm::EndsAnyCase(t) => FormView::EndsAnyCase(t@),
            PlainForm::Begins(t) => FormView::Begins(t@),
            PlainForm::Whole(t) => FormView::Whole(t@),
        }
    }
}

impl FormView {
    /// Whether `s` is what the form asks for.
    pub open spec fn holds(self, s: Seq<char>) -> bool {
        match self {
            FormView::Ends(t) => text::ends(s, t),
            FormView::EndsAnyCase(t) => text::ends(text::lower(s), text::lower(t)),
            FormView::Begins(t) => text::begins(s, t),
            FormView::Whole(t) => s == t,
        }
    }
}

/// `s` without `p` in front, where it is there.
pub open spec fn without_prefix(s: Seq<char>, p: Seq<char>) -> Seq<char> {
    if text::begins(s, p) {
        s.skip(p.len() as int)
    } else {
        s
    }
}

/// The ending that an expression of the form `\.ext$` names, with its dot.
pub open spec fn suffix_ext(p: Seq<char>) -> Option<Seq<char>> {
    let q = without_prefix(without_prefix(p, "(?i)"@), "(?-i)"@);
    let rest = q.skip(2);
    if text::begins(q, "\\."@) && rest.len() > 0 && rest.last() == '$' && CharSet::Alnum.has_all(
        rest.drop_last(),
    ) {
        Some("."@ + rest.drop_last())
    } else {
        None
    }
}

/// Case does not count in the expression.
pub open spec fn any_case(p: Seq<char>) -> bool {
    text::begins(p, "(?i)"@) && !text::begins(p.skip("(?i)"@.len() as int), "(?-i)"@)
}

/// Every letter of `t` is written in two ways, upper and lower case. The letters `k` and `s` are
/// not: the Kelvin sign is a `k` too, and the long s an `s`.
pub open spec fn two_cased(t: Seq<char>) -> bool {
    forall|i: int|
        0 <= i < t.len() ==> text::lower_char(#[trigger] t[i]) != 'k' && text::lower_char(t[i])
            != 's'
}

/// The text that an expression of word characters and `\.` stands for.
pub open spec fn plain_name(s: Seq<char>) -> Option<Seq<char>>
    decreases s.len(),
{
    if s.len() == 0 {
        Some(Seq::empty())
    } else if s[0] == '\\' {
        if s.len() > 1 && s[1] == '.' {
            match plain_name(s.skip(2)) {
                Some(t) => Some(seq!['.'] + t),
                None => None,
            }
        } else {
            None
        }
    } else if CharSet::Word.has(s[0]) {
        match plain_name(s.skip(1)) {
            Some(t) => Some(seq![s[0]] + t),
            None => None,
        }
    } else {
        None
    }
}

/// The name that an expression of the form `^name$` matches.
pub open spec fn exact_name(p: Seq<char>) -> Option<Seq<char>> {
    if p.len() > 1 && p[0] == '^' && p.last() == '$' {
        match plain_name(p.subrange(1, p.len() - 1)) {
            Some(t) if t.len() > 0 => Some(t),
            _ => None,
        }
    } else {
        None
    }
}

/// A path of plain characters, each of which stands for itself in an expression.
pub open spec fn simple_path(p: Seq<char>) -> bool {
    p.len() > 0 && CharSet::Path.has_all(p) && !p.contains('.')
}

/// The plain form of an expression, where it has one.
pub open spec fn plain_form(p: Seq<char>) -> Option<FormView> {
    let rest = p.skip(1);
    let closed = rest.len() > 0 && rest.last() == '$';
    let bare = if closed {
        rest.drop_last()
    } else {
        rest
    };
    match suffix_ext(p) {
        Some(t) => if !any_case(p) {
            Some(FormView::Ends(t))
        } else if two_cased(t) {
            Some(FormView::EndsAnyCase(t))
        } else {
            None
        },
        None => if p.len() > 0 && p[0] == '^' && simple_path(bare) {
            if closed {
                Some(FormView::Whole(bare))
            } else {
                Some(FormView::Begins(bare))
            }
        } else {
            match exact_name(p) {
                Some(t) => Some(FormView::Whole(t)),
                None => None,
            }
        },
    }
}

/// Each text of `front` with `c` behind it.
pub open spec fn each_with(front: Seq<Seq<char>>, c: char) -> Seq<Seq<char>> {
    front.map_values(|t: Seq<char>| t.push(c))
}

/// The ASCII upper-case form of one character.
pub open spec fn upper_char(c: char) -> char {
    if 'a' <= c <= 'z' {
        ((c as u32) - 32) as char
    } else {
        c
    }
}

/// The ways to write `t` in upper and lower case.
pub open spec fn cases(t: Seq<char>) -> Seq<Seq<char>>
    decreases t.len(),
{
    if t.len() == 0 {
        seq![Seq::empty()]
    } else {
        let front = cases(t.drop_last());
        let c = text::lower_char(t.last());
        if 'a' <= c <= 'z' {
            each_with(front, c) + each_with(front, upper_char(c))
        } else {
            each_with(front, c)
        }
    }
}

/// Each text of `tails` with `head` in front of it.
pub open spec fn each_behind(head: Seq<char>, tails: Seq<Seq<char>>) -> Seq<Seq<char>> {
    tails.map_values(|t: Seq<char>| head + t)
}

/// The globs for paths with one of these endings.
pub open spec fn ending_globs(tails: Seq<Seq<char>>, basename_only: bool) -> Seq<Seq<char>> {
    if basename_only {
        each_behind("*"@, tails)
    } else {
        each_behind("*"@, tails) + each_behind("*/*"@, tails)
    }
}

/// The longest ending whose globs are written out in upper and lower case, with its dot.
pub const MAX_CASED: usize = 5;

/// The exclusion globs that drop what a dropping regular expression drops; `None` where it has no
/// plain form, or where no globs match the same paths.
pub open spec fn regex_globs(pattern: Seq<char>, basename_only: bool) -> Option<Seq<Seq<char>>> {
    match plain_form(pattern) {
        Some(FormView::Ends(t)) => Some(ending_globs(seq![t], basename_only)),
        Some(FormView::EndsAnyCase(t)) => if t.len() <= MAX_CASED {
            Some(ending_globs(cases(t), basename_only))
        } else {
            None
        },
        Some(FormView::Begins(t)) => if basename_only {
            None
        } else {
            Some(seq![t + "*"@])
        },
        Some(FormView::Whole(t)) => if !basename_only {
            Some(seq![t])
        } else if t.contains('/') {
            None
        } else {
            Some(seq![t, "*/"@ + t])
        },
        None => None,
    }
}

/// `s` behind `p`, where it begins with it.
fn strip_prefix<'a>(s: &'a [char], p: &str) -> (r: Option<&'a [char]>)
    ensures
        match r {
            Some(rest) => text::begins(s@, p@) && rest@ == s@.skip(p@.len() as int),
            None => !text::begins(s@, p@),
        },
{
    if begins_with(s, p) {
        let n: usize = chars_of(p).len();
        Some(from_pos(s, n))
    } else {
        None
    }
}

/// The ending that an expression of the form `\.ext$` names, with its dot.
fn strip_suffix_ext(p: &[char]) -> (r: Option<String>)
    ensures
        match r {
            Some(e) => suffix_ext(p@) == Some(e@),
            None => suffix_ext(p@) is None,
        },
{
    let a = match strip_prefix(p, "(?i)") {
        Some(rest) => rest,
        None => p,
    };
    let q = match strip_prefix(a, "(?-i)") {
        Some(rest) => rest,
        None => a,
    };
    proof {
        reveal_strlit("\\.");
    }
    if let Some(rest) = strip_prefix(q, "\\.") {
        if rest.len() == 0 || rest[rest.len() - 1] != '$' {
            return None;
        }
        let ext = up_to(rest, rest.len() - 1);
        assert(ext@ =~= rest@.drop_last());
        if only_chars(ext, CharSet::Alnum) {
            return Some(concat2(".", string_of(ext).as_str()));
        }
    }
    None
}

/// Whether case does not count in the expression.
fn ignores_case(p: &[char]) -> (r: bool)
    ensures
        r == any_case(p@),
{
    match strip_prefix(p, "(?i)") {
        Some(rest) => !begins_with(rest, "(?-i)"),
        None => false,
    }
}

/// Whether every letter of `t` is written in two ways.
fn is_two_cased(t: &[char]) -> (r: bool)
    ensures
        r == two_cased(t@),
{
    let mut i: usize = 0;
    while i < t.len()
        invariant
            i <= t.len(),
            forall|k: int|
                0 <= k < i ==> text::lower_char(#[trigger] t@[k]) != 'k' && text::lower_char(t@[k])
                    != 's',
        decreases t.len() - i,
    {
        let c = to_lower_char(t[i]);
        if c == 'k' || c == 's' {
            assert(text::lower_char(t@[i as int]) == c);
            return false;
        }
        i += 1;
    }
    true
}

/// The name that an expression of the form `^name$` matches.
fn strip_exact_name(p: &[char]) -> (r: Option<String>)
    ensures
        match r {
            Some(n) => exact_name(p@) == Some(n@),
            None => exact_name(p@) is None,
        },
{
    if !(p.len() > 1 && p[0] == '^' && p[p.len() - 1] == '$') {
        return None;
    }
    let body = up_to(from_pos(p, 1), p.len() - 2);
    assert(body@ =~= p@.subrange(1, p@.len() - 1));
    let mut out: Vec<char> = Vec::new();
    let mut rest: &[char] = body;
    proof {
        match plain_name(body@) {
            Some(t) => {
                assert(out@ + t =~= t);
            },
            None => {},
        }
    }
    while rest.len() > 0
        invariant
            match plain_name(rest@) {
                Some(t) => plain_name(body@) == Some(out@ + t),
                None => plain_name(body@) is None,
            },
            p@.len() > 1,
            p@[0] == '^',
            p@.last() == '$',
            body@ == p@.subrange(1, p@.len() - 1),
        decreases rest@.len(),
    {
        let c = rest[0];
        let ghost before = out@;
        if c == '\\' {
            if rest.len() < 2 || rest[1] != '.' {
                return None;
            }
            out.push('.');
            proof {
                match plain_name(rest@.skip(2)) {
                    Some(t) => {
                        text::lemma_push_front(before, '.', t);
                    },
                    None => {},
                }
            }
            rest = from_pos(rest, 2);
        } else if text::alnum_char(c) || c == '_' || c == '-' {
            out.push(c);
            proof {
                match plain_name(rest@.skip(1)) {
                    Some(t) => {
                        text::lemma_push_front(before, c, t);
                    },
                    None => {},
                }
            }
            rest = from_pos(rest, 1);
        } else {
            return None;
        }
    }
    assert(out@ + Seq::<char>::empty() =~= out@);
    if out.len() == 0 {
        None
    } else {
        Some(string_of(out.as_slice()))
    }
}

/// Whether `p` is a path of plain characters.
fn is_simple_path_prefix(p: &[char]) -> (r: bool)
    ensures
        r == simple_path(p@),
{
    p.len() > 0 && only_chars(p, CharSet::Path) && !has_char(p, '.')
}

/// Finds the plain form of an expression.
pub fn read_plain_form(pattern: &str) -> (r: Option<PlainForm>)
    ensures
        match r {
            Some(f) => plain_form(pattern@) == Some(f@),
            None => plain_form(pattern@) is None,
        },
{
    let chars = chars_of(pattern);
    let p = chars.as_slice();
    if let Some(t) = strip_suffix_ext(p) {
        if !ignores_case(p) {
            return Some(PlainForm::Ends(t));
        }
        return if is_two_cased(chars_of(t.as_str()).as_slice()) {
            Some(PlainForm::EndsAnyCase(t))
        } else {
            None
        };
    }
    if p.len() > 0 && p[0] == '^' {
        let rest = from_pos(p, 1);
        let closed = rest.len() > 0 && rest[rest.len() - 1] == '$';
        let bare = if closed {
            up_to(rest, rest.len() - 1)
        } else {
            rest
        };
        assert(closed ==> bare@ =~= rest@.drop_last());
        if is_simple_path_prefix(bare) {
            let t = string_of(bare);
            return Some(
                if closed {
                    PlainForm::Whole(t)
                } else {
                    PlainForm::Begins(t)
                },
            );
        }
    }
    match strip_exact_name(p) {
        Some(t) => Some(PlainForm::Whole(t)),
        None => None,
    }
}

/// Puts `c` behind each text of `front`, and the results behind those in `out`.
fn push_each_with(out: &mut Vec<String>, front: &[String], c: char)
    ensures
        text::texts(final(out)@) == text::texts(old(out)@) + each_with(text::texts(front@), c),
{
    let ghost before = text::texts(out@);
    let ghost added = each_with(text::texts(front@), c);
    let mut i: usize = 0;
    assert(before + added.take(0) =~= before);
    while i < front.len()
        invariant
            i <= front.len(),
            added == each_with(text::texts(front@), c),
            text::texts(out@) == before + added.take(i as int),
        decreases front.len() - i,
    {
        let mut t = copy_str(front[i].as_str());
        t.push(c);
        let ghost sofar = out@;
        out.push(t);
        assert(text::texts(out@) =~= text::texts(sofar).push(t@));
        assert(added[i as int] == t@);
        assert(before + added.take(i + 1) =~= (before + added.take(i as int)).push(t@));
        i += 1;
    }
    assert(added.take(i as int) =~= added);
}

/// The ways to write `t` in upper and lower case.
fn all_cases(t: &[char]) -> (r: Vec<String>)
    ensures
        text::texts(r@) == cases(t@),
{
    let mut front: Vec<String> = Vec::new();
    front.push(String::new());
    assert(text::texts(front@) =~= seq![Seq::<char>::empty()]);
    let mut i: usize = 0;
    while i < t.len()
        invariant
            i <= t.len(),
            text::texts(front@) == cases(t@.take(i as int)),
        decreases t.len() - i,
    {
        assert(t@.take(i + 1).drop_last() =~= t@.take(i as int));
        let c = to_lower_char(t[i]);
        let mut next: Vec<String> = Vec::new();
        assert(text::texts(next@) =~= Seq::<Seq<char>>::empty());
        push_each_with(&mut next, front.as_slice(), c);
        assert(text::texts(next@) =~= each_with(text::texts(front@), c));
        if 'a' <= c && c <= 'z' {
            push_each_with(&mut next, front.as_slice(), ((c as u8) - 32) as char);
        }
        front = next;
        i += 1;
    }
    assert(t@.take(i as int) =~= t@);
    front
}

/// Puts `head` in front of each text of `tails`, and the results behind those in `out`.
fn push_each_behind(out: &mut Vec<String>, head: &str, tails: &[String])
    ensures
        text::texts(final(out)@) == text::texts(old(out)@) + each_behind(
            head@,
            text::texts(tails@),
        ),
{
    let ghost before = text::texts(out@);
    let ghost added = each_behind(head@, text::texts(tails@));
    let mut i: usize = 0;
    assert(before + added.take(0) =~= before);
    while i < tails.len()
        invariant
            i <= tails.len(),
            added == each_behind(head@, text::texts(tails@)),
            text::texts(out@) == before + added.take(i as int),
        decreases tails.len() - i,
    {
        let t = concat2(head, tails[i].as_str());
        let ghost sofar = out@;
        out.push(t);
        assert(text::texts(out@) =~= text::texts(sofar).push(t@));
        assert(added[i as int] == t@);
        assert(before + added.take(i + 1) =~= (before + added.take(i as int)).push(t@));
        i += 1;
    }
    assert(added.take(i as int) =~= added);
}

/// The globs for paths with one of these endings.
fn globs_of_endings(tails: &[String], basename_only: bool) -> (r: Vec<String>)
    ensures
        text::texts(r@) == ending_globs(text::texts(tails@), basename_only),
{
    let mut out: Vec<String> = Vec::new();
    assert(text::texts(out@) =~= Seq::<Seq<char>>::empty());
    push_each_behind(&mut out, "*", tails);
    assert(text::texts(out@) =~= each_behind("*"@, text::texts(tails@)));
    if !basename_only {
        push_each_behind(&mut out, "*/*", tails);
    }
    out
}

/// Maps a dropping regular expression to exclusion globs of the 7z program, where that is safe.
pub fn regex_to_7z_globs(pattern: &str, basename_only: bool) -> (r: Option<Vec<String>>)
    ensures
        match r {
            Some(v) => regex_globs(pattern@, basename_only) == Some(text::texts(v@)),
            None => regex_globs(pattern@, basename_only) is None,
        },
{
    match read_plain_form(pattern) {
        Some(PlainForm::Ends(t)) => Some(
            globs_of_endings(one_string(t).as_slice(), basename_only),
        ),
        Some(PlainForm::EndsAnyCase(t)) => {
            let chars = chars_of(t.as_str());
            if chars.len() <= MAX_CASED {
                Some(globs_of_endings(all_cases(chars.as_slice()).as_slice(), basename_only))
            } else {
                None
            }
        },
        Some(PlainForm::Begins(t)) => if basename_only {
            None
        } else {
            Some(one_string(concat2(t.as_str(), "*")))
        },
        Some(PlainForm::Whole(t)) => if !basename_only {
            Some(one_string(t))
        } else if has_char(chars_of(t.as_str()).as_slice(), '/') {
            None
        } else {
            let below = concat2("*/", t.as_str());
            Some(two_strings(t, below))
        },
        None => None,
    }
}

} // verus!
