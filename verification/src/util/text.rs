//! Text as sequences of characters: trimming, splitting, searching and decimal numbers.
//!
//! The specification functions work on `Seq<char>`, the executable ones on character slices.

use vstd::prelude::*;
use vstd::slice::{slice_subrange, slice_to_vec};

verus! {

/// `String::push` appends one character and leaves the earlier ones as they were.
pub assume_specification[ String::push ](s: &mut String, c: char)
    ensures
        final(s)@ == old(s)@.push(c),
;

// ---------------------------------------------------------------------------------------------
// Conversions
// ---------------------------------------------------------------------------------------------
/// The views of a sequence of strings.
pub open spec fn texts(v: Seq<String>) -> Seq<Seq<char>> {
    v.map_values(|s: String| s@)
}

/// The views of a sequence of character vectors.
pub open spec fn rows(v: Seq<Vec<char>>) -> Seq<Seq<char>> {
    v.map_values(|s: Vec<char>| s@)
}

/// The characters of `s` as a vector.
pub fn chars_of(s: &str) -> (r: Vec<char>)
    ensures
        r@ == s@,
{
    let mut r: Vec<char> = Vec::new();
    for c in it: s.chars()
        invariant
            r@ == it.seq().take(it.index()),
            it.seq() == s@,
    {
        r.push(c);
    }
    r
}

/// The string made of the characters of `v`.
pub fn string_of(v: &[char]) -> (r: String)
    ensures
        r@ == v@,
{
    let mut r = String::new();
    let mut i: usize = 0;
    while i < v.len()
        invariant
            i <= v.len(),
            r@ == v@.take(i as int),
        decreases v.len() - i,
    {
        r.push(v[i]);
        i += 1;
    }
    assert(v@.take(i as int) =~= v@);
    r
}

/// A fresh copy of `s`.
pub fn copy_str(s: &str) -> (r: String)
    ensures
        r@ == s@,
{
    s.to_owned()
}

/// `a` followed by `b`.
pub fn concat2(a: &str, b: &str) -> (r: String)
    ensures
        r@ == a@ + b@,
{
    let mut r = a.to_owned();
    r.append(b);
    r
}

/// `a`, `b` and `c` in a row.
pub fn concat3(a: &str, b: &str, c: &str) -> (r: String)
    ensures
        r@ == a@ + b@ + c@,
{
    let mut r = a.to_owned();
    r.append(b);
    r.append(c);
    r
}

/// Four texts in a row.
pub fn concat4(a: &str, b: &str, c: &str, d: &str) -> (r: String)
    ensures
        r@ == a@ + b@ + c@ + d@,
{
    let mut r = a.to_owned();
    r.append(b);
    r.append(c);
    r.append(d);
    r
}

/// Five texts in a row.
pub fn concat5(a: &str, b: &str, c: &str, d: &str, e: &str) -> (r: String)
    ensures
        r@ == a@ + b@ + c@ + d@ + e@,
{
    let mut r = a.to_owned();
    r.append(b);
    r.append(c);
    r.append(d);
    r.append(e);
    r
}

/// Moving an element from the front of the second part to the end of the first.
pub proof fn lemma_push_front<A>(a: Seq<A>, t: A, v: Seq<A>)
    ensures
        a + (seq![t] + v) == a.push(t) + v,
{
    assert(a + (seq![t] + v) =~= a.push(t) + v);
}

// ---------------------------------------------------------------------------------------------
// Comparison
// ---------------------------------------------------------------------------------------------
/// Whether two character slices hold the same characters.
pub fn same_chars(a: &[char], b: &[char]) -> (r: bool)
    ensures
        r == (a@ == b@),
{
    if a.len() != b.len() {
        return false;
    }
    let mut i: usize = 0;
    while i < a.len()
        invariant
            i <= a.len(),
            a.len() == b.len(),
            a@.take(i as int) == b@.take(i as int),
        decreases a.len() - i,
    {
        if a[i] != b[i] {
            assert(a@[i as int] != b@[i as int]);
            return false;
        }
        assert(a@.take(i + 1) =~= a@.take(i as int).push(a@[i as int]));
        assert(b@.take(i + 1) =~= b@.take(i as int).push(b@[i as int]));
        i += 1;
    }
    assert(a@.take(i as int) =~= a@);
    assert(b@.take(i as int) =~= b@);
    true
}

/// Whether two texts are the same.
pub fn same_text(a: &str, b: &str) -> (r: bool)
    ensures
        r == (a@ == b@),
{
    let x = chars_of(a);
    let y = chars_of(b);
    same_chars(x.as_slice(), y.as_slice())
}

/// `s` begins with `p`.
pub open spec fn begins(s: Seq<char>, p: Seq<char>) -> bool {
    p.len() <= s.len() && s.take(p.len() as int) == p
}

/// `s` ends with `p`.
pub open spec fn ends(s: Seq<char>, p: Seq<char>) -> bool {
    p.len() <= s.len() && s.skip(s.len() - p.len()) == p
}

/// `p` occurs in `s` from position `i` on.
pub open spec fn occurs_at(s: Seq<char>, p: Seq<char>, i: int) -> bool {
    0 <= i && i + p.len() <= s.len() && s.subrange(i, i + p.len()) == p
}

/// `p` occurs somewhere in `s`.
pub open spec fn occurs(s: Seq<char>, p: Seq<char>) -> bool {
    exists|i: int| occurs_at(s, p, i)
}

/// Whether `s` begins with `p`.
pub fn begins_with(s: &[char], p: &str) -> (r: bool)
    ensures
        r == begins(s@, p@),
{
    let q = chars_of(p);
    if q.len() > s.len() {
        return false;
    }
    same_chars(slice_subrange(s, 0, q.len()), q.as_slice())
}

/// Whether `s` ends with `p`.
pub fn ends_with(s: &[char], p: &str) -> (r: bool)
    ensures
        r == ends(s@, p@),
{
    let q = chars_of(p);
    if q.len() > s.len() {
        return false;
    }
    let k: usize = s.len() - q.len();
    assert(s@.skip(k as int) =~= s@.subrange(k as int, s@.len() as int));
    same_chars(slice_subrange(s, k, s.len()), q.as_slice())
}

/// Whether `s` is exactly the text `p`.
pub fn is_text(s: &[char], p: &str) -> (r: bool)
    ensures
        r == (s@ == p@),
{
    let q = chars_of(p);
    same_chars(s, q.as_slice())
}

/// Whether `p` occurs in `s`.
pub fn has_text(s: &[char], p: &str) -> (r: bool)
    ensures
        r == occurs(s@, p@),
{
    let q = chars_of(p);
    let n: usize = q.len();
    if n > s.len() {
        assert forall|k: int| !occurs_at(s@, p@, k) by {}
        return false;
    }
    let last: usize = s.len() - n;
    let mut i: usize = 0;
    while i <= last
        invariant
            n == q@.len(),
            q@ == p@,
            last + n == s.len(),
            i <= last,
            forall|k: int| 0 <= k < i ==> !occurs_at(s@, p@, k),
        decreases last - i,
    {
        if same_chars(slice_subrange(s, i, i + n), q.as_slice()) {
            assert(occurs_at(s@, p@, i as int));
            return true;
        }
        if i == last {
            assert forall|k: int| !occurs_at(s@, p@, k) by {}
            return false;
        }
        i += 1;
    }
    assert(false);
    false
}

// ---------------------------------------------------------------------------------------------
// Single characters
// ---------------------------------------------------------------------------------------------
/// The characters with the Unicode `White_Space` property.
pub open spec fn is_space(c: char) -> bool {
    let n = c as u32;
    ||| 0x09 <= n <= 0x0D
    ||| n == 0x20
    ||| n == 0x85
    ||| n == 0xA0
    ||| n == 0x1680
    ||| 0x2000 <= n <= 0x200A
    ||| n == 0x2028
    ||| n == 0x2029
    ||| n == 0x202F
    ||| n == 0x205F
    ||| n == 0x3000
}

/// Whether `c` has the Unicode `White_Space` property.
pub fn space_char(c: char) -> (r: bool)
    ensures
        r == is_space(c),
{
    let n: u32 = c as u32;
    (0x09 <= n && n <= 0x0D) || n == 0x20 || n == 0x85 || n == 0xA0 || n == 0x1680 || (0x2000 <= n
        && n <= 0x200A) || n == 0x2028 || n == 0x2029 || n == 0x202F || n == 0x205F || n == 0x3000
}

/// An ASCII digit.
pub open spec fn is_digit(c: char) -> bool {
    '0' <= c <= '9'
}

/// An ASCII letter or digit.
pub open spec fn is_alnum(c: char) -> bool {
    is_digit(c) || 'a' <= c <= 'z' || 'A' <= c <= 'Z'
}

/// Whether `c` is an ASCII digit.
pub fn digit_char(c: char) -> (r: bool)
    ensures
        r == is_digit(c),
{
    '0' <= c && c <= '9'
}

/// Whether `c` is an ASCII letter or digit.
pub fn alnum_char(c: char) -> (r: bool)
    ensures
        r == is_alnum(c),
{
    digit_char(c) || ('a' <= c && c <= 'z') || ('A' <= c && c <= 'Z')
}

/// The ASCII lower-case form of one character.
pub open spec fn lower_char(c: char) -> char {
    if 'A' <= c <= 'Z' {
        ((c as u32) + 32) as char
    } else {
        c
    }
}

/// The ASCII lower-case form of a text.
pub open spec fn lower(s: Seq<char>) -> Seq<char> {
    s.map_values(|c: char| lower_char(c))
}

/// The ASCII lower-case form of one character.
pub fn to_lower_char(c: char) -> (r: char)
    ensures
        r == lower_char(c),
{
    if 'A' <= c && c <= 'Z' {
        ((c as u8) + 32) as char
    } else {
        c
    }
}

/// The ASCII lower-case form of a text.
pub fn to_lower(s: &[char]) -> (r: Vec<char>)
    ensures
        r@ == lower(s@),
{
    let mut r: Vec<char> = Vec::new();
    let mut i: usize = 0;
    while i < s.len()
        invariant
            i <= s.len(),
            r@ == lower(s@).take(i as int),
        decreases s.len() - i,
    {
        r.push(to_lower_char(s[i]));
        i += 1;
        assert(r@ =~= lower(s@).take(i as int));
    }
    assert(lower(s@).take(i as int) =~= lower(s@));
    r
}

/// `s` with every `a` replaced by `b`.
pub open spec fn swapped(s: Seq<char>, a: char, b: char) -> Seq<char> {
    s.map_values(|c: char| if c == a { b } else { c })
}

/// `s` with every `a` replaced by `b`.
pub fn swap_chars(s: &[char], a: char, b: char) -> (r: Vec<char>)
    ensures
        r@ == swapped(s@, a, b),
{
    let mut r: Vec<char> = Vec::new();
    let mut i: usize = 0;
    while i < s.len()
        invariant
            i <= s.len(),
            r@ == swapped(s@, a, b).take(i as int),
        decreases s.len() - i,
    {
        if s[i] == a {
            r.push(b);
        } else {
            r.push(s[i]);
        }
        i += 1;
        assert(r@ =~= swapped(s@, a, b).take(i as int));
    }
    assert(swapped(s@, a, b).take(i as int) =~= swapped(s@, a, b));
    r
}

/// Whether `c` occurs in `s`.
pub fn has_char(s: &[char], c: char) -> (r: bool)
    ensures
        r == s@.contains(c),
{
    let mut i: usize = 0;
    while i < s.len()
        invariant
            i <= s.len(),
            forall|k: int| 0 <= k < i ==> s@[k] != c,
        decreases s.len() - i,
    {
        if s[i] == c {
            assert(s@[i as int] == c);
            return true;
        }
        i += 1;
    }
    false
}

// ---------------------------------------------------------------------------------------------
// Trimming
// ---------------------------------------------------------------------------------------------
/// `s` without its leading white space.
pub open spec fn trim_start(s: Seq<char>) -> Seq<char>
    decreases s.len(),
{
    if s.len() > 0 && is_space(s[0]) {
        trim_start(s.skip(1))
    } else {
        s
    }
}

/// `s` without its trailing white space.
pub open spec fn trim_end(s: Seq<char>) -> Seq<char>
    decreases s.len(),
{
    if s.len() > 0 && is_space(s.last()) {
        trim_end(s.drop_last())
    } else {
        s
    }
}

/// `s` without white space at either end.
pub open spec fn trim(s: Seq<char>) -> Seq<char> {
    trim_end(trim_start(s))
}

/// All characters are white space.
pub open spec fn white(s: Seq<char>) -> bool {
    forall|i: int| 0 <= i < s.len() ==> is_space(#[trigger] s[i])
}

/// A text that neither begins nor ends with white space.
pub open spec fn bare(s: Seq<char>) -> bool {
    s.len() > 0 && !is_space(s[0]) && !is_space(s.last())
}

pub(crate) proof fn lemma_trim_start(a: Seq<char>, s: Seq<char>)
    requires
        white(a),
        s.len() == 0 || !is_space(s[0]),
    ensures
        trim_start(a + s) == s,
    decreases a.len(),
{
    if a.len() == 0 {
        assert(a + s =~= s);
    } else {
        assert(is_space(a[0]));
        assert((a + s).skip(1) =~= a.skip(1) + s);
        assert forall|i: int| 0 <= i < a.skip(1).len() implies is_space(
            #[trigger] a.skip(1)[i],
        ) by {
            assert(a.skip(1)[i] == a[i + 1]);
        }
        lemma_trim_start(a.skip(1), s);
    }
}

proof fn lemma_trim_end(s: Seq<char>, b: Seq<char>)
    requires
        white(b),
        s.len() == 0 || !is_space(s.last()),
    ensures
        trim_end(s + b) == s,
    decreases b.len(),
{
    if b.len() == 0 {
        assert(s + b =~= s);
    } else {
        assert(is_space(b[b.len() - 1]));
        assert((s + b).last() == b.last());
        assert((s + b).drop_last() =~= s + b.drop_last());
        assert forall|i: int| 0 <= i < b.drop_last().len() implies is_space(
            #[trigger] b.drop_last()[i],
        ) by {
            assert(b.drop_last()[i] == b[i]);
        }
        lemma_trim_end(s, b.drop_last());
    }
}

/// Law: trimming takes away the white space around a text and nothing else.
pub proof fn law_trim_takes_white_space_away(a: Seq<char>, s: Seq<char>, b: Seq<char>)
    requires
        white(a),
        white(b),
        s.len() == 0 || bare(s),
    ensures
        trim(a + s + b) == s,
        trim(s) == s,
        trim_start(a + s) == s,
        trim_end(s + b) == s,
{
    lemma_trim_end(s, b);
    lemma_trim_start(a, s);
    lemma_trim_start(Seq::empty(), s);
    lemma_trim_end(s, Seq::empty());
    assert(Seq::<char>::empty() + s =~= s);
    assert(s + Seq::<char>::empty() =~= s);
    if s.len() == 0 {
        let all = a + b;
        assert(a + s + b =~= all + s);
        assert forall|i: int| 0 <= i < all.len() implies is_space(#[trigger] all[i]) by {
            if i < a.len() {
                assert(all[i] == a[i]);
            } else {
                assert(all[i] == b[i - a.len()]);
            }
        }
        lemma_trim_start(all, s);
    } else {
        assert(a + s + b =~= a + (s + b));
        assert((s + b)[0] == s[0]);
        lemma_trim_start(a, s + b);
    }
}

/// `s` without its leading `c` characters.
pub open spec fn strip_front(s: Seq<char>, c: char) -> Seq<char>
    decreases s.len(),
{
    if s.len() > 0 && s[0] == c {
        strip_front(s.skip(1), c)
    } else {
        s
    }
}

/// `s` without its trailing `c` characters.
pub open spec fn strip_back(s: Seq<char>, c: char) -> Seq<char>
    decreases s.len(),
{
    if s.len() > 0 && s.last() == c {
        strip_back(s.drop_last(), c)
    } else {
        s
    }
}

/// `s` without the copies of `p` at its front.
pub open spec fn strip_front_text(s: Seq<char>, p: Seq<char>) -> Seq<char>
    decreases s.len(),
{
    if p.len() > 0 && begins(s, p) {
        strip_front_text(s.skip(p.len() as int), p)
    } else {
        s
    }
}

/// `s` without the copies of `p` at its back.
pub open spec fn strip_back_text(s: Seq<char>, p: Seq<char>) -> Seq<char>
    decreases s.len(),
{
    if p.len() > 0 && ends(s, p) {
        strip_back_text(s.take(s.len() - p.len()), p)
    } else {
        s
    }
}

/// The part of `s` after its leading white space.
pub fn trimmed_start(s: &[char]) -> (r: &[char])
    ensures
        r@ == trim_start(s@),
{
    let mut i: usize = 0;
    assert(s@.skip(0) =~= s@);
    while i < s.len() && space_char(s[i])
        invariant
            i <= s.len(),
            trim_start(s@) == trim_start(s@.skip(i as int)),
        decreases s.len() - i,
    {
        assert(s@.skip(i as int).skip(1) =~= s@.skip(i + 1));
        i += 1;
    }
    assert(s@.skip(i as int) =~= s@.subrange(i as int, s@.len() as int));
    slice_subrange(s, i, s.len())
}

/// The part of `s` before its trailing white space.
pub fn trimmed_end(s: &[char]) -> (r: &[char])
    ensures
        r@ == trim_end(s@),
{
    let mut n: usize = s.len();
    assert(s@.take(n as int) =~= s@);
    while n > 0 && space_char(s[n - 1])
        invariant
            n <= s.len(),
            trim_end(s@) == trim_end(s@.take(n as int)),
        decreases n,
    {
        assert(s@.take(n as int).drop_last() =~= s@.take(n - 1));
        n -= 1;
    }
    slice_subrange(s, 0, n)
}

/// The part of `s` between its leading and its trailing white space.
pub fn trimmed(s: &[char]) -> (r: &[char])
    ensures
        r@ == trim(s@),
{
    trimmed_end(trimmed_start(s))
}

/// The part of `s` after its leading `c` characters.
pub fn without_front(s: &[char], c: char) -> (r: &[char])
    ensures
        r@ == strip_front(s@, c),
{
    let mut i: usize = 0;
    assert(s@.skip(0) =~= s@);
    while i < s.len() && s[i] == c
        invariant
            i <= s.len(),
            strip_front(s@, c) == strip_front(s@.skip(i as int), c),
        decreases s.len() - i,
    {
        assert(s@.skip(i as int).skip(1) =~= s@.skip(i + 1));
        i += 1;
    }
    assert(s@.skip(i as int) =~= s@.subrange(i as int, s@.len() as int));
    slice_subrange(s, i, s.len())
}

/// The part of `s` before its trailing `c` characters.
pub fn without_back(s: &[char], c: char) -> (r: &[char])
    ensures
        r@ == strip_back(s@, c),
{
    let mut n: usize = s.len();
    assert(s@.take(n as int) =~= s@);
    while n > 0 && s[n - 1] == c
        invariant
            n <= s.len(),
            strip_back(s@, c) == strip_back(s@.take(n as int), c),
        decreases n,
    {
        assert(s@.take(n as int).drop_last() =~= s@.take(n - 1));
        n -= 1;
    }
    slice_subrange(s, 0, n)
}

/// The part of `s` after the copies of `p` at its front.
pub fn without_front_text<'a>(s: &'a [char], p: &str) -> (r: &'a [char])
    ensures
        r@ == strip_front_text(s@, p@),
{
    let q = chars_of(p);
    let n: usize = q.len();
    let mut rest: &'a [char] = s;
    while n > 0 && begins_with(rest, p)
        invariant
            n == p@.len(),
            strip_front_text(s@, p@) == strip_front_text(rest@, p@),
        decreases rest@.len(),
    {
        assert(rest@.skip(n as int) =~= rest@.subrange(n as int, rest@.len() as int));
        rest = slice_subrange(rest, n, rest.len());
    }
    rest
}

/// The part of `s` before the copies of `p` at its back.
pub fn without_back_text<'a>(s: &'a [char], p: &str) -> (r: &'a [char])
    ensures
        r@ == strip_back_text(s@, p@),
{
    let q = chars_of(p);
    let n: usize = q.len();
    let mut rest: &'a [char] = s;
    while n > 0 && ends_with(rest, p)
        invariant
            n == p@.len(),
            strip_back_text(s@, p@) == strip_back_text(rest@, p@),
        decreases rest@.len(),
    {
        rest = slice_subrange(rest, 0, rest.len() - n);
    }
    rest
}

/// `s` from position `i` on.
pub fn from_pos(s: &[char], i: usize) -> (r: &[char])
    requires
        i <= s@.len(),
    ensures
        r@ == s@.skip(i as int),
{
    assert(s@.skip(i as int) =~= s@.subrange(i as int, s@.len() as int));
    slice_subrange(s, i, s.len())
}

/// The first `n` characters of `s`.
pub fn up_to(s: &[char], n: usize) -> (r: &[char])
    requires
        n <= s@.len(),
    ensures
        r@ == s@.take(n as int),
{
    slice_subrange(s, 0, n)
}

// ---------------------------------------------------------------------------------------------
// Searching and splitting
// ---------------------------------------------------------------------------------------------
/// The position of the first `c` in `s`, or the length of `s` where there is none.
pub open spec fn find(s: Seq<char>, c: char) -> int
    decreases s.len(),
{
    if s.len() == 0 || s[0] == c {
        0
    } else {
        1 + find(s.skip(1), c)
    }
}

/// `find` stops at the first occurrence.
pub proof fn lemma_find(s: Seq<char>, c: char)
    ensures
        0 <= find(s, c) <= s.len(),
        find(s, c) < s.len() ==> s[find(s, c)] == c,
        forall|k: int| 0 <= k < find(s, c) ==> s[k] != c,
        find(s, c) < s.len() <==> s.contains(c),
    decreases s.len(),
{
    if s.len() == 0 || s[0] == c {
    } else {
        lemma_find(s.skip(1), c);
        assert forall|k: int| 0 <= k < find(s, c) implies s[k] != c by {
            if k > 0 {
                assert(s[k] == s.skip(1)[k - 1]);
            }
        }
        if s.contains(c) {
            let k = choose|k: int| 0 <= k < s.len() && s[k] == c;
            assert(s.skip(1)[k - 1] == c);
        }
    }
}

/// The position of the first `c` in `s`, or the length of `s` where there is none.
pub fn find_char(s: &[char], c: char) -> (r: usize)
    ensures
        r == find(s@, c),
        r <= s@.len(),
{
    let mut i: usize = 0;
    assert(s@.skip(0) =~= s@);
    while i < s.len() && s[i] != c
        invariant
            i <= s.len(),
            find(s@, c) == i + find(s@.skip(i as int), c),
        decreases s.len() - i,
    {
        assert(s@.skip(i as int).skip(1) =~= s@.skip(i + 1));
        i += 1;
    }
    i
}

/// The pieces of `s` between the occurrences of `c`.
pub open spec fn split(s: Seq<char>, c: char) -> Seq<Seq<char>>
    decreases s.len(),
    via split_decreases
{
    let i = find(s, c);
    if i >= s.len() {
        seq![s]
    } else {
        seq![s.take(i)] + split(s.skip(i + 1), c)
    }
}

#[via_fn]
proof fn split_decreases(s: Seq<char>, c: char) {
    lemma_find(s, c);
}

/// The pieces of `s` between the occurrences of `c`.
pub fn split_char(s: &[char], c: char) -> (r: Vec<Vec<char>>)
    ensures
        rows(r@) == split(s@, c),
{
    let mut out: Vec<Vec<char>> = Vec::new();
    let mut rest: &[char] = s;
    loop
        invariant
            split(s@, c) == rows(out@) + split(rest@, c),
        decreases rest@.len(),
    {
        let i: usize = find_char(rest, c);
        if i >= rest.len() {
            let ghost before = out@;
            out.push(slice_to_vec(rest));
            assert(rows(out@) =~= rows(before) + seq![rest@]);
            return out;
        }
        let ghost before = out@;
        out.push(slice_to_vec(up_to(rest, i)));
        assert(rows(out@) =~= rows(before) + seq![rest@.take(i as int)]);
        assert(rows(before) + split(rest@, c) =~= rows(out@) + split(rest@.skip(i + 1), c));
        rest = from_pos(rest, i + 1);
    }
}

/// One line without the carriage return of a `\r\n` ending.
pub open spec fn strip_cr(s: Seq<char>) -> Seq<char> {
    if s.len() > 0 && s.last() == '\r' {
        s.drop_last()
    } else {
        s
    }
}

/// The lines of a text: `\n` or `\r\n` ends a line, and the last line need not be ended.
pub open spec fn lines(s: Seq<char>) -> Seq<Seq<char>>
    decreases s.len(),
    via lines_decreases
{
    let i = find(s, '\n');
    if s.len() == 0 {
        Seq::empty()
    } else if i >= s.len() {
        seq![s]
    } else {
        seq![strip_cr(s.take(i))] + lines(s.skip(i + 1))
    }
}

#[via_fn]
proof fn lines_decreases(s: Seq<char>) {
    lemma_find(s, '\n');
}

/// Law: the lines of a text that is empty or ends with a line ending, and of another text behind it,
/// are the lines of both.
pub proof fn law_lines_add_up(a: Seq<char>, b: Seq<char>)
    requires
        a.len() == 0 || a.last() == '\n',
    ensures
        lines(a + b) == lines(a) + lines(b),
    decreases a.len(),
{
    if a.len() == 0 {
        assert(a + b =~= b);
        assert(lines(a) + lines(b) =~= lines(b));
    } else {
        let whole = a + b;
        let i = find(a, '\n');
        let j = find(whole, '\n');
        lemma_find(a, '\n');
        lemma_find(whole, '\n');
        assert(a[a.len() - 1] == '\n');
        assert(a.contains('\n'));
        assert(whole[i] == a[i]);
        assert(whole.contains('\n'));
        if j < i {
            assert(a[j] == whole[j]);
        }
        assert(j == i);
        let rest = a.skip(i + 1);
        assert(rest.len() > 0 ==> rest.last() == a.last());
        law_lines_add_up(rest, b);
        assert(whole.take(j) =~= a.take(i));
        assert(whole.skip(j + 1) =~= rest + b);
        assert(lines(whole) =~= seq![strip_cr(a.take(i))] + (lines(rest) + lines(b)));
        assert(lines(whole) =~= lines(a) + lines(b));
    }
}

/// The lines of a text.
pub fn lines_of(s: &[char]) -> (r: Vec<Vec<char>>)
    ensures
        rows(r@) == lines(s@),
{
    let mut out: Vec<Vec<char>> = Vec::new();
    let mut rest: &[char] = s;
    assert(rows(out@) =~= Seq::<Seq<char>>::empty());
    while rest.len() > 0
        invariant
            lines(s@) == rows(out@) + lines(rest@),
        decreases rest@.len(),
    {
        let i: usize = find_char(rest, '\n');
        let ghost before = out@;
        if i >= rest.len() {
            out.push(slice_to_vec(rest));
            assert(rows(out@) =~= rows(before) + seq![rest@]);
            return out;
        }
        let line = up_to(rest, i);
        if line.len() > 0 && line[line.len() - 1] == '\r' {
            out.push(slice_to_vec(up_to(line, line.len() - 1)));
        } else {
            out.push(slice_to_vec(line));
        }
        assert(rows(out@) =~= rows(before) + seq![strip_cr(rest@.take(i as int))]);
        assert(rows(before) + lines(rest@) =~= rows(out@) + lines(rest@.skip(i + 1)));
        rest = from_pos(rest, i + 1);
    }
    assert(rows(out@) + lines(rest@) =~= rows(out@));
    out
}

/// The number of characters before the first white space.
pub open spec fn word_len(s: Seq<char>) -> int
    decreases s.len(),
{
    if s.len() == 0 || is_space(s[0]) {
        0
    } else {
        1 + word_len(s.skip(1))
    }
}

/// `word_len` is a position in the text.
pub proof fn lemma_word_len(s: Seq<char>)
    ensures
        0 <= word_len(s) <= s.len(),
    decreases s.len(),
{
    if s.len() == 0 || is_space(s[0]) {
    } else {
        lemma_word_len(s.skip(1));
    }
}

proof fn lemma_trim_start_len(s: Seq<char>)
    ensures
        trim_start(s).len() <= s.len(),
        trim_start(s).len() > 0 ==> !is_space(trim_start(s)[0]),
    decreases s.len(),
{
    if s.len() > 0 && is_space(s[0]) {
        lemma_trim_start_len(s.skip(1));
    }
}

/// The pieces of `s` between runs of white space, none of them empty.
pub open spec fn words(s: Seq<char>) -> Seq<Seq<char>>
    decreases s.len(),
    via words_decreases
{
    let t = trim_start(s);
    if t.len() == 0 {
        Seq::empty()
    } else {
        seq![t.take(word_len(t))] + words(t.skip(word_len(t)))
    }
}

#[via_fn]
proof fn words_decreases(s: Seq<char>) {
    lemma_trim_start_len(s);
    let t = trim_start(s);
    lemma_word_len(t);
    if t.len() > 0 {
        lemma_word_len(t.skip(1));
    }
}

/// The pieces of `s` between runs of white space.
pub fn words_of(s: &[char]) -> (r: Vec<Vec<char>>)
    ensures
        rows(r@) == words(s@),
{
    let mut out: Vec<Vec<char>> = Vec::new();
    let mut rest: &[char] = trimmed_start(s);
    let ghost mut tail = s@;
    assert(rows(out@) =~= Seq::<Seq<char>>::empty());
    while rest.len() > 0
        invariant
            rest@ == trim_start(tail),
            words(s@) == rows(out@) + words(tail),
        decreases rest@.len(),
    {
        let mut n: usize = 0;
        assert(rest@.skip(0) =~= rest@);
        while n < rest.len() && !space_char(rest[n])
            invariant
                n <= rest.len(),
                word_len(rest@) == n + word_len(rest@.skip(n as int)),
            decreases rest.len() - n,
        {
            assert(rest@.skip(n as int).skip(1) =~= rest@.skip(n + 1));
            n += 1;
        }
        let ghost before = out@;
        out.push(slice_to_vec(up_to(rest, n)));
        assert(rows(out@) =~= rows(before) + seq![rest@.take(n as int)]);
        assert(rows(before) + words(tail) =~= rows(out@) + words(rest@.skip(n as int)));
        proof {
            lemma_trim_start_len(tail);
            lemma_trim_start_len(rest@.skip(n as int));
            lemma_word_len(rest@.skip(1));
            tail = rest@.skip(n as int);
        }
        rest = trimmed_start(from_pos(rest, n));
    }
    assert(rows(out@) + words(tail) =~= rows(out@));
    out
}

/// The texts of `parts` in order, `sep` between each two.
pub open spec fn join(parts: Seq<Seq<char>>, sep: Seq<char>) -> Seq<char>
    decreases parts.len(),
{
    if parts.len() == 0 {
        Seq::empty()
    } else if parts.len() == 1 {
        parts[0]
    } else {
        join(parts.drop_last(), sep) + sep + parts.last()
    }
}

/// The texts of `parts[from..]` in order, `sep` between each two.
pub fn join_rows(parts: &[Vec<char>], from: usize, sep: &str) -> (r: String)
    requires
        from <= parts@.len(),
    ensures
        r@ == join(rows(parts@).skip(from as int), sep@),
{
    let mut out = String::new();
    let mut i: usize = from;
    let ghost all = rows(parts@).skip(from as int);
    while i < parts.len()
        invariant
            from <= i <= parts.len(),
            all == rows(parts@).skip(from as int),
            out@ == join(all.take(i - from), sep@),
        decreases parts.len() - i,
    {
        if i > from {
            out.append(sep);
        }
        let piece = string_of(parts[i].as_slice());
        assert(all.take(i + 1 - from).drop_last() =~= all.take(i - from));
        assert(all.take(i + 1 - from).last() == parts@[i as int]@);
        let ghost before = out@;
        out.append(piece.as_str());
        assert(i == from ==> before + piece@ =~= piece@);
        i += 1;
    }
    assert(all.take(i - from) =~= all);
    out
}

// ---------------------------------------------------------------------------------------------
// Decimal numbers
// ---------------------------------------------------------------------------------------------
/// Every character is an ASCII digit.
pub open spec fn all_digits(s: Seq<char>) -> bool {
    forall|i: int| 0 <= i < s.len() ==> is_digit(#[trigger] s[i])
}

/// The number that a row of digits writes.
pub open spec fn digits_value(s: Seq<char>) -> nat
    decreases s.len(),
{
    if s.len() == 0 {
        0
    } else {
        10 * digits_value(s.drop_last()) + ((s.last() as u32 - '0' as u32) as nat)
    }
}

/// The number that a text writes in decimal, with an optional `+` in front.
pub open spec fn decimal(s: Seq<char>) -> Option<nat> {
    let d = if s.len() > 0 && s[0] == '+' {
        s.skip(1)
    } else {
        s
    };
    if d.len() > 0 && all_digits(d) {
        Some(digits_value(d))
    } else {
        None
    }
}

/// The number that a text writes in decimal, where it is at most `max`.
pub open spec fn decimal_max(s: Seq<char>, max: nat) -> Option<nat> {
    match decimal(s) {
        Some(n) if n <= max => Some(n),
        _ => None,
    }
}

/// Whether all characters are ASCII digits.
pub fn only_digits(s: &[char]) -> (r: bool)
    ensures
        r == all_digits(s@),
{
    let mut i: usize = 0;
    while i < s.len()
        invariant
            i <= s.len(),
            forall|k: int| 0 <= k < i ==> is_digit(#[trigger] s@[k]),
        decreases s.len() - i,
    {
        if !digit_char(s[i]) {
            return false;
        }
        i += 1;
    }
    true
}

proof fn lemma_digits_grow(s: Seq<char>, n: int)
    requires
        0 <= n <= s.len(),
        all_digits(s),
    ensures
        digits_value(s.take(n)) <= digits_value(s),
    decreases s.len() - n,
{
    if n < s.len() {
        lemma_digits_grow(s, n + 1);
        assert(s.take(n + 1).drop_last() =~= s.take(n));
    } else {
        assert(s.take(n) =~= s);
    }
}

/// Reads a decimal `u64`; `None` where the text is no number or the number is too large.
pub fn read_u64(s: &[char]) -> (r: Option<u64>)
    ensures
        match r {
            Some(n) => decimal_max(s@, u64::MAX as nat) == Some(n as nat),
            None => decimal_max(s@, u64::MAX as nat) is None,
        },
{
    let d = if s.len() > 0 && s[0] == '+' {
        from_pos(s, 1)
    } else {
        s
    };
    if d.len() == 0 || !only_digits(d) {
        return None;
    }
    let mut v: u64 = 0;
    let mut i: usize = 0;
    while i < d.len()
        invariant
            i <= d.len(),
            all_digits(d@),
            decimal(s@) == Some(digits_value(d@)),
            v == digits_value(d@.take(i as int)),
        decreases d.len() - i,
    {
        assert(is_digit(d@[i as int]));
        let digit: u64 = (d[i] as u32 - '0' as u32) as u64;
        assert(d@.take(i + 1).drop_last() =~= d@.take(i as int));
        proof {
            lemma_digits_grow(d@, i + 1);
        }
        let shifted: u64 = match v.checked_mul(10) {
            Some(x) => x,
            None => {
                return None;
            },
        };
        let next: u64 = match shifted.checked_add(digit) {
            Some(x) => x,
            None => {
                return None;
            },
        };
        v = next;
        i += 1;
    }
    assert(d@.take(i as int) =~= d@);
    Some(v)
}

/// Reads a decimal `usize`; `None` where the text is no number or the number is too large.
pub fn read_usize(s: &[char]) -> (r: Option<usize>)
    ensures
        match r {
            Some(n) => decimal_max(s@, usize::MAX as nat) == Some(n as nat),
            None => decimal_max(s@, usize::MAX as nat) is None,
        },
{
    match read_u64(s) {
        Some(n) => {
            if n <= usize::MAX as u64 {
                Some(n as usize)
            } else {
                None
            }
        },
        None => None,
    }
}

/// The digit that writes `d`.
pub open spec fn digit_of(d: nat) -> char {
    (('0' as u32) + d) as char
}

/// `n` in decimal, without leading zeros.
pub open spec fn number_text(n: nat) -> Seq<char>
    decreases n,
{
    if n < 10 {
        seq![digit_of(n)]
    } else {
        number_text(n / 10).push(digit_of(n % 10))
    }
}

/// `n` in decimal.
pub fn show_u64(n: u64) -> (r: String)
    ensures
        r@ == number_text(n as nat),
    decreases n,
{
    let digit: char = (48u8 + (n % 10) as u8) as char;
    if n < 10 {
        let mut s = String::new();
        s.push(digit);
        assert(s@ =~= seq![digit_of(n as nat)]);
        s
    } else {
        let mut s = show_u64(n / 10);
        s.push(digit);
        s
    }
}

/// `n` in decimal.
pub fn show_usize(n: usize) -> (r: String)
    ensures
        r@ == number_text(n as nat),
{
    show_u64(n as u64)
}

/// A number with zeros in front, so that it has at least `width` digits.
pub open spec fn padded(n: nat, width: nat) -> Seq<char> {
    let digits = number_text(n);
    if digits.len() < width {
        Seq::new((width - digits.len()) as nat, |i: int| '0') + digits
    } else {
        digits
    }
}

/// A number with zeros in front, so that it has at least `width` digits.
pub fn show_padded(n: usize, width: usize) -> (r: String)
    ensures
        r@ == padded(n as nat, width as nat),
{
    let digits = show_usize(n);
    let have: usize = chars_of(digits.as_str()).len();
    let mut s = String::new();
    assert(s@ =~= Seq::new(0, |i: int| '0'));
    let mut i: usize = have;
    while i < width
        invariant
            have <= i,
            have <= width ==> i <= width,
            have >= width ==> i == have,
            s@ == Seq::new((i - have) as nat, |i: int| '0'),
        decreases width - i,
    {
        s.push('0');
        i += 1;
        assert(s@ =~= Seq::new((i - have) as nat, |i: int| '0'));
    }
    s.append(digits.as_str());
    assert(have >= width ==> s@ =~= digits@);
    s
}

/// Law: reading back the decimal form of a number gives the number.
pub proof fn law_number_text_reads_back(n: nat)
    ensures
        decimal(number_text(n)) == Some(n),
{
    lemma_number_text(n);
}

proof fn lemma_number_text(n: nat)
    ensures
        number_text(n).len() > 0,
        all_digits(number_text(n)),
        digits_value(number_text(n)) == n,
    decreases n,
{
    let s = number_text(n);
    if n < 10 {
        reveal_with_fuel(digits_value, 2);
        assert(s.drop_last() =~= Seq::<char>::empty());
    } else {
        lemma_number_text(n / 10);
        assert(s.drop_last() =~= number_text(n / 10));
    }
}

proof fn lemma_zeros_in_front(z: Seq<char>, d: Seq<char>)
    requires
        forall|i: int| 0 <= i < z.len() ==> #[trigger] z[i] == '0',
    ensures
        digits_value(z + d) == digits_value(d),
    decreases z.len() + d.len(),
{
    let s = z + d;
    if d.len() > 0 {
        assert(s.drop_last() =~= z + d.drop_last());
        assert(s.last() == d.last());
        lemma_zeros_in_front(z, d.drop_last());
    } else if z.len() > 0 {
        let y = z.drop_last();
        assert(s =~= z);
        assert(z.drop_last() =~= y + d);
        assert forall|i: int| 0 <= i < y.len() implies #[trigger] y[i] == '0' by {
            assert(y[i] == z[i]);
        }
        lemma_zeros_in_front(y, d);
        assert(z[z.len() - 1] == '0');
    } else {
        assert(s =~= d);
    }
}

/// Law: reading back a number with zeros in front gives the number, and it has at least so many
/// digits; two numbers are never written the same.
pub proof fn law_padded_reads_back(n: nat, m: nat, width: nat)
    ensures
        digits_value(padded(n, width)) == n,
        all_digits(padded(n, width)),
        padded(n, width).len() >= width,
        padded(n, width) == padded(m, width) ==> n == m,
{
    lemma_padded(n, width);
    lemma_padded(m, width);
}

proof fn lemma_padded(n: nat, width: nat)
    ensures
        digits_value(padded(n, width)) == n,
        all_digits(padded(n, width)),
        padded(n, width).len() >= width,
{
    let d = number_text(n);
    lemma_number_text(n);
    if d.len() < width {
        let z = Seq::new((width - d.len()) as nat, |i: int| '0');
        lemma_zeros_in_front(z, d);
        let s = z + d;
        assert forall|i: int| 0 <= i < s.len() implies is_digit(#[trigger] s[i]) by {
            if i >= z.len() {
                assert(s[i] == d[i - z.len()]);
            }
        }
    }
}

/// Law: a line ends with `\n` or `\r\n`, neither of which belongs to it; the last line need not be
/// ended.
pub proof fn law_ends_of_lines(line: Seq<char>, rest: Seq<char>)
    requires
        !line.contains('\n'),
        line.len() == 0 || line.last() != '\r',
    ensures
        lines(line + seq!['\n'] + rest) == seq![line] + lines(rest),
        lines(line + seq!['\r', '\n'] + rest) == seq![line] + lines(rest),
        line.len() > 0 ==> lines(line) == seq![line],
        lines(Seq::empty()).len() == 0,
{
    lemma_find(line, '\n');
    let a = line + seq!['\n'] + rest;
    let b = line + seq!['\r', '\n'] + rest;
    let n = line.len() as int;
    lemma_find(a, '\n');
    lemma_find(b, '\n');
    assert(a[n] == '\n' && b[n + 1] == '\n' && b[n] == '\r');
    assert(find(a, '\n') == n) by {
        let i = find(a, '\n');
        assert(a.contains('\n'));
        if i < n {
            assert(a[i] == line[i]);
            assert(line.contains(line[i]));
        }
    }
    assert(find(b, '\n') == n + 1) by {
        let i = find(b, '\n');
        assert(b.contains('\n'));
        if i < n {
            assert(b[i] == line[i]);
            assert(line.contains(line[i]));
        }
    }
    assert(a.take(n) =~= line);
    assert(a.skip(n + 1) =~= rest);
    assert(b.take(n + 1) =~= line.push('\r'));
    assert(b.skip(n + 2) =~= rest);
    assert(line.push('\r').drop_last() =~= line);
}

/// Law: the pieces of a text between the occurrences of a character do not hold it: what stands in
/// front of the first is a piece, and what follows it is taken apart in the same way.
pub proof fn law_pieces_of_texts(a: Seq<char>, c: char, b: Seq<char>)
    requires
        !a.contains(c),
    ensures
        split(a + seq![c] + b, c) == seq![a] + split(b, c),
        split(a, c) == seq![a],
{
    let s = a + seq![c] + b;
    let n = a.len() as int;
    lemma_find(a, c);
    lemma_find(s, c);
    assert(s[n] == c);
    assert(s.contains(c));
    let i = find(s, c);
    if i < n {
        assert(s[i] == a[i]);
        assert(a.contains(a[i]));
    }
    assert(s.take(n) =~= a);
    assert(s.skip(n + 1) =~= b);
}

/// Law: joining puts the separator between two texts and nowhere else.
pub proof fn law_joined_texts(parts: Seq<Seq<char>>, last: Seq<char>, sep: Seq<char>)
    requires
        parts.len() > 0,
    ensures
        join(parts.push(last), sep) == join(parts, sep) + sep + last,
        join(seq![last], sep) == last,
        join(Seq::empty(), sep).len() == 0,
{
    assert(parts.push(last).drop_last() =~= parts);
}

/// Law: swapping one character for another changes no other.
pub proof fn law_swapped_characters(s: Seq<char>, a: char, b: char, i: int)
    requires
        0 <= i < s.len(),
    ensures
        swapped(s, a, b).len() == s.len(),
        s[i] == a ==> swapped(s, a, b)[i] == b,
        s[i] != a ==> swapped(s, a, b)[i] == s[i],
{
}

/// Law: a letter from `A` to `Z` becomes the one from `a` to `z` in the same place; no other
/// character changes.
pub proof fn law_lower_case(c: char)
    ensures
        'A' <= c <= 'Z' ==> 'a' <= lower_char(c) <= 'z' && lower_char(c) as u32 - 'a' as u32
            == c as u32 - 'A' as u32,
        !('A' <= c <= 'Z') ==> lower_char(c) == c,
        lower_char(lower_char(c)) == lower_char(c),
{
}

/// Law: white space is the space, the tab, the line feed and the other separators of Unicode; no
/// letter, digit or sign of ASCII is.
pub proof fn law_white_space(c: char)
    ensures
        c == ' ' || c == '\t' || c == '\n' || c == '\r' ==> is_space(c),
        '!' <= c <= '~' ==> !is_space(c),
        (c as u32) == 0x0B || (c as u32) == 0x0C || (c as u32) == 0x85 || (c as u32) == 0xA0 ==> is_space(c),
        (c as u32) == 0x1680 || 0x2000 <= (c as u32) <= 0x200A || (c as u32) == 0x2028 || (c as u32) == 0x2029
            || (c as u32) == 0x202F || (c as u32) == 0x205F || (c as u32) == 0x3000 ==> is_space(c),
        (c as u32) > 0x3000 ==> !is_space(c),
        0xA0 < (c as u32) < 0x1680 ==> !is_space(c),
        0x200A < (c as u32) < 0x2028 ==> !is_space(c),
{
}

/// Law: a digit is one of the ten from `0` to `9`, and its value is its place among them; a number is
/// read with each digit worth ten times the one behind it.
pub proof fn law_decimal_digits(s: Seq<char>, c: char)
    requires
        all_digits(s),
        is_digit(c),
    ensures
        digits_value(s.push(c)) == 10 * digits_value(s) + (c as u32 - '0' as u32),
        digits_value(Seq::empty()) == 0,
        all_digits(s.push(c)),
        decimal(s.push(c)) == Some(digits_value(s.push(c))),
        decimal(seq!['+'] + s.push(c)) == Some(digits_value(s.push(c))),
        decimal(Seq::empty()) is None,
{
    let t = s.push(c);
    assert(t.drop_last() =~= s);
    assert forall|i: int| 0 <= i < t.len() implies is_digit(#[trigger] t[i]) by {
        if i < s.len() {
            assert(t[i] == s[i]);
        }
    }
    assert(is_digit(t[0]));
    assert((seq!['+'] + t).skip(1) =~= t);
}

} // verus!
