//! What the listings of the 7z program say.

use crate::archive::detect;
use crate::archive::sevenz;
use crate::archive::sevenz::SltView;
use crate::archive::types::{ArchiveFormat, EntryView};
use crate::filter::exclude_laws;
use crate::filter::laws;
use crate::util::pathnorm;
use crate::util::text;
use vstd::prelude::*;

verus! {

// ---------------------------------------------------------------------------------------------
// Words
// ---------------------------------------------------------------------------------------------
/// A word: not empty, and without white space.
pub open spec fn word(w: Seq<char>) -> bool {
    w.len() > 0 && forall|i: int| 0 <= i < w.len() ==> !text::is_space(#[trigger] w[i])
}

/// White space between two words.
pub open spec fn gap(s: Seq<char>) -> bool {
    s.len() > 0 && text::white(s)
}

/// Words with one space between each two.
pub open spec fn single_spaced(s: Seq<char>) -> bool {
    &&& text::bare(s)
    &&& forall|i: int| 0 <= i < s.len() && text::is_space(#[trigger] s[i]) ==> s[i] == ' '
    &&& forall|i: int| 0 < i < s.len() ==> !(s[i - 1] == ' ' && #[trigger] s[i] == ' ')
}

proof fn lemma_word_len(w: Seq<char>, rest: Seq<char>)
    requires
        forall|i: int| 0 <= i < w.len() ==> !text::is_space(#[trigger] w[i]),
        rest.len() == 0 || text::is_space(rest[0]),
    ensures
        text::word_len(w + rest) == w.len(),
    decreases w.len(),
{
    if w.len() == 0 {
        assert(w + rest =~= rest);
    } else {
        assert(!text::is_space(w[0]));
        assert((w + rest).skip(1) =~= w.skip(1) + rest);
        assert forall|i: int| 0 <= i < w.skip(1).len() implies !text::is_space(
            #[trigger] w.skip(1)[i],
        ) by {
            assert(w.skip(1)[i] == w[i + 1]);
        }
        lemma_word_len(w.skip(1), rest);
    }
}

/// The words of a text that begins with a word.
proof fn lemma_first_word(space: Seq<char>, w: Seq<char>, rest: Seq<char>)
    requires
        text::white(space),
        word(w),
        rest.len() == 0 || text::is_space(rest[0]),
    ensures
        text::words(space + (w + rest)) == seq![w] + text::words(rest),
{
    let t = w + rest;
    assert(!text::is_space(w[0]));
    text::lemma_trim_start(space, t);
    lemma_word_len(w, rest);
    assert(t.take(w.len() as int) =~= w);
    assert(t.skip(w.len() as int) =~= rest);
}

/// White space in front of a text adds no word.
proof fn lemma_space_adds_no_word(space: Seq<char>, s: Seq<char>)
    requires
        text::white(space),
        s.len() > 0,
        !text::is_space(s[0]),
    ensures
        text::words(space + s) == text::words(s),
        text::words(s).len() > 0,
{
    text::lemma_trim_start(space, s);
    text::lemma_trim_start(Seq::empty(), s);
    assert(Seq::<char>::empty() + s =~= s);
}

/// The words of a text with single spaces, joined by single spaces, are the text.
proof fn lemma_words_join(s: Seq<char>)
    requires
        single_spaced(s),
    ensures
        text::join(text::words(s), " "@) == s,
        text::words(s).len() > 0,
        forall|k: int| 0 <= k < text::words(s)[0].len() ==> text::words(s)[0][k] == s[k],
        text::words(s)[0].len() <= s.len(),
    decreases s.len(),
{
    reveal_strlit(" ");
    assert(" "@ =~= seq![' ']);
    let n = text::word_len(s);
    text::lemma_word_len(s);
    lemma_word_end(s);
    let w = s.take(n);
    let rest = s.skip(n);
    assert(w + rest =~= s);
    assert(Seq::<char>::empty() + (w + rest) =~= s);
    assert forall|i: int| 0 <= i < w.len() implies !text::is_space(#[trigger] w[i]) by {
        assert(w[i] == s[i]);
    }
    assert(word(w));
    lemma_first_word(Seq::empty(), w, rest);
    if rest.len() == 0 {
        assert(text::trim_start(rest) == rest);
        assert(text::words(rest) =~= Seq::<Seq<char>>::empty());
        assert(text::words(s) =~= seq![w]);
        assert(text::join(seq![w], " "@) == w);
        assert(w =~= s);
    } else {
        assert(rest[0] == s[n]);
        let more = rest.skip(1);
        assert(more.len() > 0) by {
            if more.len() == 0 {
                assert(s.last() == s[n]);
            }
        }
        assert(more[0] == s[n + 1]);
        assert(!(s[n + 1 - 1] == ' ' && s[n + 1] == ' '));
        assert(!text::is_space(more[0]));
        assert(more.last() == s.last());
        assert forall|i: int| 0 <= i < more.len() && text::is_space(#[trigger] more[i]) implies more[i]
            == ' ' by {
            assert(more[i] == s[i + n + 1]);
        }
        assert forall|i: int| 0 < i < more.len() implies !(more[i - 1] == ' ' && #[trigger] more[i]
            == ' ') by {
            assert(more[i] == s[i + n + 1] && more[i - 1] == s[i + n]);
        }
        lemma_words_join(more);
        assert(seq![' '] + more =~= rest);
        lemma_space_adds_no_word(seq![' '], more);
        laws::lemma_join_front(w, text::words(more), " "@);
        assert(w + " "@ + more =~= s);
    }
}

/// Where the first word ends.
proof fn lemma_word_end(s: Seq<char>)
    requires
        s.len() > 0,
        !text::is_space(s[0]),
    ensures
        0 < text::word_len(s) <= s.len(),
        forall|i: int| 0 <= i < text::word_len(s) ==> !text::is_space(s[i]),
        text::word_len(s) < s.len() ==> text::is_space(s[text::word_len(s)]),
    decreases s.len(),
{
    let t = s.skip(1);
    text::lemma_word_len(t);
    if t.len() > 0 && !text::is_space(t[0]) {
        lemma_word_end(t);
        assert forall|i: int| 0 <= i < text::word_len(s) implies !text::is_space(s[i]) by {
            if i > 0 {
                assert(s[i] == t[i - 1]);
            }
        }
    }
}

// ---------------------------------------------------------------------------------------------
// The compact listing
// ---------------------------------------------------------------------------------------------
proof fn lemma_utf8_len(s: Seq<char>)
    ensures
        sevenz::utf8_len(s) >= s.len(),
    decreases s.len(),
{
    if s.len() > 0 {
        lemma_utf8_len(s.drop_last());
    }
}

/// A line that is neither the head of a listing nor its foot.
pub open spec fn member_line(line: Seq<char>) -> bool {
    &&& !text::begins(line, "----"@)
    &&& !text::begins(line, "Date "@)
    &&& !(text::occurs(line, " files"@) && text::occurs(line, "folder"@))
}

/// The member is what the columns say.
pub open spec fn shows_member(
    r: Option<EntryView>,
    attrs: Seq<char>,
    size: Seq<char>,
    name: Seq<char>,
) -> bool {
    &&& r is Some
    &&& r->0.path == name
    &&& r->0.size == text::digits_value(size)
    &&& r->0.is_dir <==> attrs[0] == 'D'
    &&& r->0.format_hint == if attrs[0] == 'D' {
        ArchiveFormat::Unknown
    } else {
        detect::named_format(name)
    }
    &&& r->0.meta.mtime is None && r->0.meta.ctime is None && r->0.meta.atime is None
        && r->0.meta.windows_attributes is None
}

/// What the reader makes of the words of a line.
proof fn lemma_compact_from_words(line: Seq<char>, parts: Seq<Seq<char>>, name: Seq<char>, k: int)
    requires
        text::trim_end(line) == line,
        line.len() > 0,
        member_line(line),
        text::words(line) == parts,
        parts.len() > k,
        parts[2].len() >= 4,
        parts[3].len() > 0,
        text::all_digits(parts[3]),
        text::digits_value(parts[3]) <= u64::MAX,
        k == if parts.len() >= 6 && text::all_digits(parts[4]) {
            5int
        } else {
            4int
        },
        text::join(parts.skip(k), " "@) == name,
        name.len() > 0,
        pathnorm::is_normal(name),
    ensures
        shows_member(sevenz::compact_entry(line), parts[2], parts[3], name),
{
    lemma_utf8_len(parts[2]);
    assert(text::is_digit(parts[3][0]));
    pathnorm::law_normal_form(name);
}

/// Law: a line of a compact listing made of date, time, attributes, size, packed size and name,
/// where the name is words with one space between them and in normal form, shows the member of
/// exactly that name, of that size, and a directory exactly if the attributes begin with `D`.
pub proof fn law_compact_line_shows_its_member(
    date: Seq<char>,
    time: Seq<char>,
    attrs: Seq<char>,
    size: Seq<char>,
    packed: Seq<char>,
    name: Seq<char>,
    g: Seq<Seq<char>>,
)
    requires
        word(date),
        word(time),
        word(attrs),
        word(size),
        word(packed),
        single_spaced(name),
        pathnorm::is_normal(name),
        g.len() == 5,
        gap(g[0]),
        gap(g[1]),
        gap(g[2]),
        gap(g[3]),
        gap(g[4]),
        attrs.len() >= 4,
        text::all_digits(size),
        text::digits_value(size) <= u64::MAX,
        text::all_digits(packed),
        member_line(
            date + (g[0] + (time + (g[1] + (attrs + (g[2] + (size + (g[3] + (packed + (g[4]
                + name))))))))),
        ),
    ensures
        shows_member(
            sevenz::compact_entry(
                date + (g[0] + (time + (g[1] + (attrs + (g[2] + (size + (g[3] + (packed + (g[4]
                    + name))))))))),
            ),
            attrs,
            size,
            name,
        ),
{
    let e = g[4] + name;
    let d = g[3] + (packed + e);
    let c = g[2] + (size + d);
    let b = g[1] + (attrs + c);
    let a = g[0] + (time + b);
    let line = date + a;
    assert(text::is_space(g[0][0]) && text::is_space(g[1][0]) && text::is_space(g[2][0])
        && text::is_space(g[3][0]) && text::is_space(g[4][0]));
    assert(e[0] == g[4][0] && d[0] == g[3][0] && c[0] == g[2][0] && b[0] == g[1][0] && a[0]
        == g[0][0]);
    lemma_first_word(Seq::empty(), date, a);
    lemma_first_word(g[0], time, b);
    lemma_first_word(g[1], attrs, c);
    lemma_first_word(g[2], size, d);
    lemma_first_word(g[3], packed, e);
    lemma_space_adds_no_word(g[4], name);
    lemma_words_join(name);
    assert(Seq::<char>::empty() + line =~= line);
    let parts = seq![date, time, attrs, size, packed] + text::words(name);
    assert(text::words(line) =~= parts);
    assert(parts.skip(5) =~= text::words(name));
    lemma_ends_with_name(line, name);
    lemma_compact_from_words(line, parts, name, 5);
}

/// A line that ends with a name ends with no white space.
proof fn lemma_ends_with_name(line: Seq<char>, name: Seq<char>)
    requires
        text::bare(name),
        line.len() >= name.len(),
        line.last() == name.last(),
    ensures
        text::trim_end(line) == line,
{
}

/// Law: the packed size may be missing, as it is for most members of solid archives: a line of date,
/// time, attributes, size and name shows the same, as long as the name does not begin with a word
/// of digits.
pub proof fn law_compact_line_without_packed_size(
    date: Seq<char>,
    time: Seq<char>,
    attrs: Seq<char>,
    size: Seq<char>,
    name: Seq<char>,
    g: Seq<Seq<char>>,
)
    requires
        word(date),
        word(time),
        word(attrs),
        word(size),
        single_spaced(name),
        !text::is_digit(name[0]),
        pathnorm::is_normal(name),
        g.len() == 4,
        gap(g[0]),
        gap(g[1]),
        gap(g[2]),
        gap(g[3]),
        attrs.len() >= 4,
        text::all_digits(size),
        text::digits_value(size) <= u64::MAX,
        member_line(date + (g[0] + (time + (g[1] + (attrs + (g[2] + (size + (g[3] + name)))))))),
    ensures
        shows_member(
            sevenz::compact_entry(
                date + (g[0] + (time + (g[1] + (attrs + (g[2] + (size + (g[3] + name))))))),
            ),
            attrs,
            size,
            name,
        ),
{
    let d = g[3] + name;
    let c = g[2] + (size + d);
    let b = g[1] + (attrs + c);
    let a = g[0] + (time + b);
    let line = date + a;
    assert(text::is_space(g[0][0]) && text::is_space(g[1][0]) && text::is_space(g[2][0])
        && text::is_space(g[3][0]));
    assert(d[0] == g[3][0] && c[0] == g[2][0] && b[0] == g[1][0] && a[0] == g[0][0]);
    lemma_first_word(Seq::empty(), date, a);
    lemma_first_word(g[0], time, b);
    lemma_first_word(g[1], attrs, c);
    lemma_first_word(g[2], size, d);
    lemma_space_adds_no_word(g[3], name);
    lemma_words_join(name);
    assert(Seq::<char>::empty() + line =~= line);
    let names = text::words(name);
    let parts = seq![date, time, attrs, size] + names;
    assert(text::words(line) =~= parts);
    assert(parts.skip(4) =~= names);
    assert(parts[4] == names[0]);
    lemma_first_word_begins(name);
    lemma_ends_with_name(line, name);
    lemma_compact_from_words(line, parts, name, 4);
}

proof fn lemma_first_word_begins(name: Seq<char>)
    requires
        name.len() > 0,
        !text::is_space(name[0]),
    ensures
        text::words(name)[0].len() > 0,
        text::words(name)[0][0] == name[0],
{
    let n = text::word_len(name);
    lemma_word_end(name);
    text::lemma_trim_start(Seq::empty(), name);
    assert(Seq::<char>::empty() + name =~= name);
    assert(text::words(name)[0] == name.take(n));
}

// ---------------------------------------------------------------------------------------------
// The technical listing
// ---------------------------------------------------------------------------------------------
/// Law: the lines of one member in a technical listing, its path, size, whether it is a folder and
/// its attributes, show the member of that path and size; it is a directory if one of the two says
/// so.
pub proof fn law_technical_block_shows_its_member(
    path: Seq<char>,
    size: Seq<char>,
    folder: bool,
    attrs: Seq<char>,
)
    requires
        path.len() > 0,
        pathnorm::is_normal(path),
        !text::begins(path, "Path = "@),
        word(size),
        text::all_digits(size),
        text::digits_value(size) <= u64::MAX,
        word(attrs),
        !text::begins(attrs, "Attributes = "@),
    ensures
        ({
            let mark = if folder {
                "+"@
            } else {
                "-"@
            };
            let r = sevenz::technical_entries(
                seq![
                    "Path = "@ + path,
                    "Size = "@ + size,
                    "Folder = "@ + mark,
                    "Attributes = "@ + attrs,
                ],
            );
            let is_dir = folder || attrs[0] == 'D';
            &&& r.len() == 1
            &&& r[0].path == path
            &&& r[0].size == text::digits_value(size)
            &&& r[0].is_dir <==> is_dir
            &&& r[0].format_hint == if is_dir {
                ArchiveFormat::Unknown
            } else {
                detect::named_format(path)
            }
        }),
{
    reveal_strlit("Path = ");
    reveal_strlit("Size = ");
    reveal_strlit("Folder = ");
    reveal_strlit("Attributes = ");
    reveal_strlit("+");
    reveal_strlit("-");
    reveal_strlit("true");
    let mark = if folder {
        "+"@
    } else {
        "-"@
    };
    let l1 = "Path = "@ + path;
    let l2 = "Size = "@ + size;
    let l3 = "Folder = "@ + mark;
    let l4 = "Attributes = "@ + attrs;
    let s1 = seq![l1];
    let s2 = seq![l1, l2];
    let s3 = seq![l1, l2, l3];
    let s4 = seq![l1, l2, l3, l4];
    assert(s1.drop_last() =~= Seq::<Seq<char>>::empty());
    assert(s2.drop_last() =~= s1);
    assert(s3.drop_last() =~= s2);
    assert(s4.drop_last() =~= s3);
    lemma_prefixed("Path = "@, path);
    lemma_prefixed("Size = "@, size);
    lemma_prefixed("Folder = "@, mark);
    lemma_prefixed("Attributes = "@, attrs);
    assert(text::is_digit(size[0]));
    assert(!text::begins(size, "Size = "@)) by {
        if text::begins(size, "Size = "@) {
            assert(size.take(7)[0] == 'S');
        }
    }
    assert(!text::begins(mark, "Folder = "@));
    assert(!text::is_space(size[0]) && !text::is_space(size[size.len() - 1]));
    text::law_trim_takes_white_space_away(Seq::empty(), size, Seq::empty());
    text::law_trim_takes_white_space_away(Seq::empty(), mark, Seq::empty());
    lemma_other_prefix(l2, "Path = "@, 0, 'P');
    lemma_other_prefix(l3, "Path = "@, 0, 'P');
    lemma_other_prefix(l3, "Size = "@, 0, 'S');
    lemma_other_prefix(l4, "Path = "@, 0, 'P');
    lemma_other_prefix(l4, "Size = "@, 0, 'S');
    lemma_other_prefix(l4, "Folder = "@, 0, 'F');
    pathnorm::law_normal_form(path);
    let start = SltView::start();
    assert(sevenz::slt_state(s1.drop_last()) == start);
    let a = sevenz::slt_state(s1);
    assert(a == start.line(l1));
    assert(a.path == Some(path) && a.size == 0 && !a.is_dir && a.entries.len() == 0);
    let b = sevenz::slt_state(s2);
    assert(b == a.line(l2));
    assert(b.path == Some(path) && b.size == text::digits_value(size) && !b.is_dir);
    let c = sevenz::slt_state(s3);
    assert(c == b.line(l3));
    assert(text::lower(mark).len() == 1);
    assert(c.is_dir == folder) by {
        if folder {
            assert(mark == "+"@);
        } else {
            assert(mark[0] == '-');
            assert("+"@[0] == '+');
        }
    }
    let d = sevenz::slt_state(s4);
    assert(d == c.line(l4));
}

/// A line with a prefix, and what stands behind it.
proof fn lemma_prefixed(p: Seq<char>, s: Seq<char>)
    requires
        p.len() > 0,
    ensures
        text::begins(p + s, p),
        (p + s).skip(p.len() as int) == s,
        !text::begins(s, p) ==> text::strip_front_text(p + s, p) == s,
{
    assert((p + s).take(p.len() as int) =~= p);
    assert((p + s).skip(p.len() as int) =~= s);
    if !text::begins(s, p) {
        assert(text::strip_front_text(s, p) == s);
    }
}

/// A line that begins otherwise does not begin with `p`.
proof fn lemma_other_prefix(line: Seq<char>, p: Seq<char>, k: int, c: char)
    requires
        0 <= k < p.len(),
        p[k] == c,
        line.len() > k,
        line[k] != c,
    ensures
        !text::begins(line, p),
{
    if text::begins(line, p) {
        assert(line.take(p.len() as int)[k] == line[k]);
    }
}

/// Law: lines of a technical listing that are neither path, size, folder nor attributes say nothing.
pub proof fn law_other_technical_lines_say_nothing(
    a: Seq<Seq<char>>,
    line: Seq<char>,
    b: Seq<Seq<char>>,
)
    requires
        !text::begins(line, "Path = "@),
        !text::begins(line, "Size = "@),
        !text::begins(line, "Folder = "@),
        !text::begins(line, "Attributes = "@),
    ensures
        sevenz::technical_entries(a.push(line) + b) == sevenz::technical_entries(a + b),
{
    lemma_same_state(a, line, b);
}

proof fn lemma_same_state(a: Seq<Seq<char>>, line: Seq<char>, b: Seq<Seq<char>>)
    requires
        !text::begins(line, "Path = "@),
        !text::begins(line, "Size = "@),
        !text::begins(line, "Folder = "@),
        !text::begins(line, "Attributes = "@),
    ensures
        sevenz::slt_state(a.push(line) + b) == sevenz::slt_state(a + b),
    decreases b.len(),
{
    let x = a.push(line) + b;
    if b.len() == 0 {
        assert(x =~= a.push(line));
        assert(a.push(line).drop_last() =~= a);
        assert(a + b =~= a);
    } else {
        assert(x.drop_last() =~= a.push(line) + b.drop_last());
        assert((a + b).drop_last() =~= a + b.drop_last());
        assert(x.last() == b.last() && (a + b).last() == b.last());
        lemma_same_state(a, line, b.drop_last());
    }
}

// ---------------------------------------------------------------------------------------------
// Whether an archive is solid
// ---------------------------------------------------------------------------------------------
proof fn lemma_solid_value(lines: Seq<Seq<char>>, k: int)
    requires
        0 <= k < lines.len(),
        text::begins(text::trim(lines[k]), "Solid = "@),
        forall|i: int|
            0 <= i < k ==> !text::begins(text::trim(#[trigger] lines[i]), "Solid = "@),
    ensures
        sevenz::solid_value(lines) == sevenz::solid_value(seq![lines[k]]),
        sevenz::solid_value(lines) is Some,
    decreases k,
{
    let one = seq![lines[k]];
    assert(one[0] == lines[k]);
    if k > 0 {
        let t = lines.skip(1);
        assert(!text::begins(text::trim(lines[0]), "Solid = "@));
        assert(t[k - 1] == lines[k]);
        assert forall|i: int| 0 <= i < k - 1 implies !text::begins(
            text::trim(#[trigger] t[i]),
            "Solid = "@,
        ) by {
            assert(t[i] == lines[i + 1]);
        }
        lemma_solid_value(t, k - 1);
    }
}

proof fn lemma_find_text(s: Seq<char>, p: Seq<char>, k: int)
    requires
        0 <= k <= s.len(),
        k == s.len() || text::begins(s.skip(k), p),
        forall|i: int| 0 <= i < k ==> !text::begins(#[trigger] s.skip(i), p),
    ensures
        sevenz::find_text(s, p) == k,
    decreases k,
{
    assert(s.skip(0) =~= s);
    if k > 0 {
        assert(!text::begins(s.skip(0), p));
        assert(s.skip(1).skip(k - 1) =~= s.skip(k));
        assert forall|i: int| 0 <= i < k - 1 implies !text::begins(
            #[trigger] s.skip(1).skip(i),
            p,
        ) by {
            assert(s.skip(1).skip(i) =~= s.skip(i + 1));
        }
        lemma_find_text(s.skip(1), p, k - 1);
    }
}

/// Law: an archive is solid exactly if the first line `Solid = ...` in the head of its listing says
/// so by `+`, `1` or `true`. The head ends at the first row of dashes.
pub proof fn law_head_tells_solidity(listing: Seq<char>, cut: int, k: int, value: Seq<char>)
    requires
        0 <= cut <= listing.len(),
        cut == listing.len() || text::begins(listing.skip(cut), "----------"@),
        forall|i: int| 0 <= i < cut ==> !text::begins(#[trigger] listing.skip(i), "----------"@),
        0 <= k < text::lines(listing.take(cut)).len(),
        word(value),
        text::trim(text::lines(listing.take(cut))[k]) == "Solid = "@ + value,
        forall|i: int|
            0 <= i < k ==> !text::begins(
                text::trim(#[trigger] text::lines(listing.take(cut))[i]),
                "Solid = "@,
            ),
    ensures
        sevenz::listing_solid(listing) <==> value == "+"@ || value == "1"@ || text::lower(value)
            == "true"@,
{
    reveal_strlit("Solid = ");
    let lines = text::lines(listing.take(cut));
    lemma_find_text(listing, "----------"@, cut);
    lemma_prefixed("Solid = "@, value);
    lemma_solid_value(lines, k);
    assert(!text::is_space(value[0]) && !text::is_space(value[value.len() - 1]));
    text::law_trim_takes_white_space_away(Seq::empty(), value, Seq::empty());
    let one = seq![lines[k]];
    let line = text::trim(lines[k]);
    assert(one[0] == lines[k]);
    assert(text::begins(line, "Solid = "@));
    assert(line.skip("Solid = "@.len() as int) == value);
    assert(sevenz::solid_value(one) == Some(sevenz::says_yes(value)));
    assert(sevenz::solid_value(lines) == Some(sevenz::says_yes(value)));
    assert(sevenz::listing_solid(listing) == sevenz::says_yes(value));
}

// ---------------------------------------------------------------------------------------------
// Formats
// ---------------------------------------------------------------------------------------------
proof fn lemma_lower_after_last(s: Seq<char>)
    ensures
        pathnorm::after_last(text::lower(s), '/') == text::lower(pathnorm::after_last(s, '/')),
    decreases s.len(),
{
    let low = text::lower(s);
    if s.len() == 0 {
        assert(text::lower(pathnorm::after_last(s, '/')) =~= Seq::<char>::empty());
    } else {
        assert(low.last() == text::lower_char(s.last()));
        assert(low.drop_last() =~= text::lower(s.drop_last()));
        if s.last() == '/' {
            assert(text::lower(pathnorm::after_last(s, '/')) =~= Seq::<char>::empty());
        } else {
            lemma_lower_after_last(s.drop_last());
            let b = pathnorm::after_last(s.drop_last(), '/');
            assert(text::lower(b.push(s.last())) =~= text::lower(b).push(
                text::lower_char(s.last()),
            ));
        }
    }
}

/// Law: a path that ends with `.7z`, in upper or lower case, names a 7z archive; one that ends with
/// `.zip` a ZIP archive; and any other no archive.
pub proof fn law_format_follows_the_ending(path: Seq<char>)
    ensures
        ({
            let low = text::lower(pathnorm::normalized(path));
            let f = detect::named_format(path);
            &&& f is SevenZ <==> text::ends(low, ".7z"@)
            &&& f is Zip <==> text::ends(low, ".zip"@)
            &&& f is Unknown <==> !text::ends(low, ".7z"@) && !text::ends(low, ".zip"@)
        }),
{
    reveal_strlit(".7z");
    reveal_strlit(".zip");
    let n = pathnorm::normalized(path);
    let low = text::lower(n);
    lemma_lower_after_last(n);
    exclude_laws::lemma_base_ends(low, ".7z"@);
    exclude_laws::lemma_base_ends(low, ".zip"@);
    if text::ends(low, ".7z"@) && text::ends(low, ".zip"@) {
        assert(low.last() == low.skip(low.len() - 3).last());
        assert(low.last() == low.skip(low.len() - 4).last());
    }
}

/// Law: the first bytes of a file tell its format before its name does: those of a 7z archive, or
/// `PK` of a ZIP archive. Where they tell nothing, the name does.
pub proof fn law_first_bytes_tell_the_format(head: Seq<u8>, rest: Seq<u8>, name: Option<Seq<char>>)
    requires
        head.len() == 6,
    ensures
        ({
            let f = detect::detected_format(head + rest, name);
            let sevenz = head[0] == 0x37 && head[1] == 0x7A && head[2] == 0xBC && head[3] == 0xAF
                && head[4] == 0x27 && head[5] == 0x1C;
            let zip = head[0] == 0x50 && head[1] == 0x4B;
            let named = match name {
                Some(n) => detect::named_format(n),
                None => ArchiveFormat::Unknown,
            };
            &&& sevenz ==> f is SevenZ
            &&& zip ==> f is Zip
            &&& !sevenz && !zip ==> f == named
            &&& detect::detected_format(head.take(5), name) == named
        }),
{
    let magic = seq![0x37u8, 0x7A, 0xBC, 0xAF, 0x27, 0x1C];
    let s = head + rest;
    assert(s.take(6) =~= head);
    if head[0] == 0x37 && head[1] == 0x7A && head[2] == 0xBC && head[3] == 0xAF && head[4] == 0x27
        && head[5] == 0x1C {
        assert(head =~= magic);
    }
    if head == magic {
        assert(magic[0] == 0x37 && magic[1] == 0x7A && magic[2] == 0xBC && magic[3] == 0xAF
            && magic[4] == 0x27 && magic[5] == 0x1C);
    }
}

// ---------------------------------------------------------------------------------------------
// What shows nothing
// ---------------------------------------------------------------------------------------------
/// Law: in a compact listing empty lines, rows of dashes, the heading and the line of totals show no
/// member, and neither does a line of fewer than five words, with attributes shorter than four
/// characters, or with a size that is no number.
pub proof fn law_compact_lines_without_a_member(line: Seq<char>)
    requires
        text::trim_end(line) == line,
    ensures
        line.len() == 0 ==> sevenz::compact_entry(line) is None,
        text::begins(line, "----"@) ==> sevenz::compact_entry(line) is None,
        text::begins(line, "Date "@) ==> sevenz::compact_entry(line) is None,
        text::occurs(line, " files"@) && text::occurs(line, "folder"@) ==> sevenz::compact_entry(
            line,
        ) is None,
        text::words(line).len() < 5 ==> sevenz::compact_entry(line) is None,
        text::words(line).len() >= 5 && sevenz::utf8_len(text::words(line)[2]) < 4
            ==> sevenz::compact_entry(line) is None,
        text::words(line).len() >= 5 && text::decimal(text::words(line)[3]) is None
            ==> sevenz::compact_entry(line) is None,
{
}

/// Law: a size in a technical listing that is no number counts as zero, and so does one that is not
/// there; a member without a path is not shown.
pub proof fn law_technical_block_without_a_size(path: Seq<char>, size: Seq<char>)
    requires
        path.len() > 0,
        pathnorm::is_normal(path),
        !text::begins(path, "Path = "@),
        word(size),
        !text::begins(size, "Size = "@),
        text::decimal(size) is None,
    ensures
        ({
            let a = sevenz::technical_entries(seq!["Path = "@ + path]);
            let b = sevenz::technical_entries(seq!["Path = "@ + path, "Size = "@ + size]);
            &&& a.len() == 1 && a[0].path == path && a[0].size == 0 && !a[0].is_dir
            &&& b.len() == 1 && b[0].path == path && b[0].size == 0 && !b[0].is_dir
            &&& sevenz::technical_entries(seq!["Size = "@ + size]).len() == 0
        }),
{
    reveal_strlit("Path = ");
    reveal_strlit("Size = ");
    let l1 = "Path = "@ + path;
    let l2 = "Size = "@ + size;
    let none = Seq::<Seq<char>>::empty();
    assert(seq![l1].drop_last() =~= none);
    assert(seq![l2].drop_last() =~= none);
    assert(seq![l1, l2].drop_last() =~= seq![l1]);
    lemma_prefixed("Path = "@, path);
    lemma_prefixed("Size = "@, size);
    lemma_other_prefix(l2, "Path = "@, 0, 'P');
    assert(!text::is_space(size[0]) && !text::is_space(size[size.len() - 1]));
    text::law_trim_takes_white_space_away(Seq::empty(), size, Seq::empty());
    pathnorm::law_normal_form(path);
    let start = SltView::start();
    assert(sevenz::slt_state(none) == start);
    let a = sevenz::slt_state(seq![l1]);
    assert(a == start.line(l1));
    assert(a.path == Some(path) && a.size == 0 && !a.is_dir && a.entries.len() == 0);
    let b = sevenz::slt_state(seq![l1, l2]);
    assert(b == a.line(l2));
    assert(b.path == Some(path) && b.size == 0 && !b.is_dir);
    let c = sevenz::slt_state(seq![l2]);
    assert(c == start.line(l2));
}

/// Law: where the head of a listing has no line `Solid = ...`, the archive counts as solid exactly if
/// some line of the whole listing is `Solid = +`, or `Solid = true` in upper or lower case.
pub proof fn law_other_lines_tell_solidity(listing: Seq<char>, cut: int)
    requires
        0 <= cut <= listing.len(),
        cut == listing.len() || text::begins(listing.skip(cut), "----------"@),
        forall|i: int| 0 <= i < cut ==> !text::begins(#[trigger] listing.skip(i), "----------"@),
        forall|i: int|
            0 <= i < text::lines(listing.take(cut)).len() ==> !text::begins(
                text::trim(#[trigger] text::lines(listing.take(cut))[i]),
                "Solid = "@,
            ),
    ensures
        sevenz::listing_solid(listing) <==> exists|i: int|
            0 <= i < text::lines(listing).len() && (text::trim(#[trigger] text::lines(listing)[i])
                == "Solid = +"@ || text::lower(text::trim(text::lines(listing)[i]))
                == "solid = true"@),
{
    lemma_find_text(listing, "----------"@, cut);
    lemma_no_solid_value(text::lines(listing.take(cut)));
    let all = text::lines(listing);
    if exists|i: int| 0 <= i < all.len() && sevenz::solid_line(#[trigger] all[i]) {
        let i = choose|i: int| 0 <= i < all.len() && sevenz::solid_line(#[trigger] all[i]);
        assert(text::trim(all[i]) == "Solid = +"@ || text::lower(text::trim(all[i]))
            == "solid = true"@);
    }
    if exists|i: int|
        0 <= i < all.len() && (text::trim(#[trigger] all[i]) == "Solid = +"@ || text::lower(
            text::trim(all[i]),
        ) == "solid = true"@) {
        let i = choose|i: int|
            0 <= i < all.len() && (text::trim(#[trigger] all[i]) == "Solid = +"@ || text::lower(
                text::trim(all[i]),
            ) == "solid = true"@);
        assert(sevenz::solid_line(all[i]));
    }
}

proof fn lemma_no_solid_value(lines: Seq<Seq<char>>)
    requires
        forall|i: int|
            0 <= i < lines.len() ==> !text::begins(text::trim(#[trigger] lines[i]), "Solid = "@),
    ensures
        sevenz::solid_value(lines) is None,
    decreases lines.len(),
{
    if lines.len() > 0 {
        let t = lines.skip(1);
        assert(!text::begins(text::trim(lines[0]), "Solid = "@));
        assert forall|i: int| 0 <= i < t.len() implies !text::begins(
            text::trim(#[trigger] t[i]),
            "Solid = "@,
        ) by {
            assert(t[i] == lines[i + 1]);
        }
        lemma_no_solid_value(t);
    }
}

} // verus!
