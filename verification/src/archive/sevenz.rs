//! The 7z program: its command lines, and what its listings say.

use crate::archive::detect;
use crate::archive::detect::format_from_path;
use crate::archive::types;
use crate::archive::types::{ArchiveFormat, EntryMeta, EntryView};
use crate::codec::sevenz_header::FileMeta;
use crate::error::Result;
use crate::util::pathnorm;
use crate::util::pathnorm::normalize_member_path;
use crate::util::text;
use crate::util::text::{
    begins_with, chars_of, has_text, is_text, join_rows, lines_of, only_digits, read_u64, string_of,
    to_lower, trimmed, trimmed_end, up_to, without_front_text, words_of,
};
use vstd::prelude::*;

verus! {

// ---------------------------------------------------------------------------------------------
// Whether an archive is solid
// ---------------------------------------------------------------------------------------------
/// Where `p` first occurs in `s`; the length of `s` where it does not.
pub open spec fn find_text(s: Seq<char>, p: Seq<char>) -> int
    decreases s.len(),
{
    if s.len() == 0 || text::begins(s, p) {
        0
    } else {
        1 + find_text(s.skip(1), p)
    }
}

/// A value that says yes.
pub open spec fn says_yes(v: Seq<char>) -> bool {
    v == "+"@ || text::lower(v) == "true"@ || v == "1"@
}

/// What the first `Solid = ` line says.
pub open spec fn solid_value(lines: Seq<Seq<char>>) -> Option<bool>
    decreases lines.len(),
{
    if lines.len() == 0 {
        None
    } else {
        let line = text::trim(lines[0]);
        if text::begins(line, "Solid = "@) {
            Some(says_yes(text::trim(line.skip("Solid = "@.len() as int))))
        } else {
            solid_value(lines.skip(1))
        }
    }
}

/// A line that says the archive is solid.
pub open spec fn solid_line(line: Seq<char>) -> bool {
    text::trim(line) == "Solid = +"@ || text::lower(text::trim(line)) == "solid = true"@
}

/// Whether a full listing says that the archive is solid: by its head, in front of the members,
/// else by any line.
pub open spec fn listing_solid(listing: Seq<char>) -> bool {
    let head = listing.take(find_text(listing, "----------"@));
    match solid_value(text::lines(head)) {
        Some(v) => v,
        None => exists|i: int|
            0 <= i < text::lines(listing).len() && solid_line(#[trigger] text::lines(listing)[i]),
    }
}

/// Where `p` first occurs in `s`.
fn find_text_at(s: &[char], p: &str) -> (r: usize)
    ensures
        r == find_text(s@, p@),
        r <= s@.len(),
{
    let mut i: usize = 0;
    assert(s@.skip(0) =~= s@);
    while i < s.len() && !begins_with(text::from_pos(s, i), p)
        invariant
            i <= s.len(),
            find_text(s@, p@) == i + find_text(s@.skip(i as int), p@),
        decreases s.len() - i,
    {
        assert(s@.skip(i as int).skip(1) =~= s@.skip(i + 1));
        i += 1;
    }
    i
}

/// Whether a full listing (`7z l -slt`) says that the archive is solid.
pub fn parse_archive_solid(listing: &str) -> (r: bool)
    ensures
        r == listing_solid(listing@),
{
    let chars = chars_of(listing);
    let cut: usize = find_text_at(chars.as_slice(), "----------");
    let head = lines_of(up_to(chars.as_slice(), cut));
    let ghost rows = text::rows(head@);
    let mut i: usize = 0;
    assert(rows.skip(0) =~= rows);
    while i < head.len()
        invariant
            i <= head.len(),
            rows == text::rows(head@),
            rows == text::lines(listing@.take(find_text(listing@, "----------"@))),
            solid_value(rows) == solid_value(rows.skip(i as int)),
        decreases head.len() - i,
    {
        assert(rows.skip(i as int)[0] == head@[i as int]@);
        assert(rows.skip(i as int).skip(1) =~= rows.skip(i + 1));
        let line = trimmed(head[i].as_slice());
        if begins_with(line, "Solid = ") {
            let n: usize = chars_of("Solid = ").len();
            let v = trimmed(text::from_pos(line, n));
            let low = to_lower(v);
            return is_text(v, "+") || is_text(low.as_slice(), "true") || is_text(v, "1");
        }
        i += 1;
    }
    let all = lines_of(chars.as_slice());
    let ghost every = text::lines(listing@);
    let mut k: usize = 0;
    while k < all.len()
        invariant
            k <= all.len(),
            every == text::rows(all@),
            every == text::lines(listing@),
            solid_value(text::lines(listing@.take(find_text(listing@, "----------"@)))) is None,
            forall|j: int| 0 <= j < k ==> !solid_line(#[trigger] every[j]),
        decreases all.len() - k,
    {
        assert(every[k as int] == all@[k as int]@);
        let line = trimmed(all[k].as_slice());
        let low = to_lower(line);
        if is_text(line, "Solid = +") || is_text(low.as_slice(), "solid = true") {
            assert(solid_line(every[k as int]));
            return true;
        }
        k += 1;
    }
    false
}

// ---------------------------------------------------------------------------------------------
// The compact listing
// ---------------------------------------------------------------------------------------------
/// How many bytes a character takes in UTF-8.
pub open spec fn utf8_width(c: char) -> nat {
    let n = c as u32;
    if n < 0x80 {
        1
    } else if n < 0x800 {
        2
    } else if n < 0x1_0000 {
        3
    } else {
        4
    }
}

/// How many bytes a text takes in UTF-8.
pub open spec fn utf8_len(s: Seq<char>) -> nat
    decreases s.len(),
{
    if s.len() == 0 {
        0
    } else {
        utf8_len(s.drop_last()) + utf8_width(s.last())
    }
}

/// A member as a listing shows it.
pub open spec fn listed(path: Seq<char>, size: u64, is_dir: bool) -> EntryView {
    EntryView {
        path,
        size,
        is_dir,
        format_hint: if is_dir {
            ArchiveFormat::Unknown
        } else {
            detect::named_format(path)
        },
        meta: FileMeta::nothing(),
    }
}

/// The member that a line of a compact listing shows, where it shows one. The columns are date,
/// time, attributes, size, packed size (often absent) and name.
pub open spec fn compact_entry(raw: Seq<char>) -> Option<EntryView> {
    let line = text::trim_end(raw);
    let parts = text::words(line);
    let name_from = if parts.len() >= 6 && text::all_digits(parts[4]) {
        5int
    } else {
        4int
    };
    let name = text::join(parts.skip(name_from), " "@);
    if line.len() == 0 || text::begins(line, "----"@) || text::begins(line, "Date "@) {
        None
    } else if text::occurs(line, " files"@) && text::occurs(line, "folder"@) {
        None
    } else if parts.len() < 5 || utf8_len(parts[2]) < 4 {
        None
    } else {
        match text::decimal_max(parts[3], u64::MAX as nat) {
            Some(size) => if name.len() == 0 {
                None
            } else {
                Some(
                    listed(
                        pathnorm::normalized(name),
                        size as u64,
                        parts[2].len() > 0 && parts[2][0] == 'D',
                    ),
                )
            },
            None => None,
        }
    }
}

/// The members that the lines of a compact listing show.
pub open spec fn compact_entries(lines: Seq<Seq<char>>) -> Seq<EntryView>
    decreases lines.len(),
{
    if lines.len() == 0 {
        Seq::empty()
    } else {
        match compact_entry(lines.last()) {
            Some(e) => compact_entries(lines.drop_last()).push(e),
            None => compact_entries(lines.drop_last()),
        }
    }
}

/// Whether a text takes fewer than `n` bytes in UTF-8.
fn shorter_than(s: &[char], n: usize) -> (r: bool)
    requires
        n <= 1_000,
    ensures
        r == (utf8_len(s@) < n),
{
    let mut total: usize = 0;
    let mut i: usize = 0;
    assert(s@.take(0) =~= Seq::<char>::empty());
    while i < s.len()
        invariant
            i <= s.len(),
            n <= 1_000,
            total < n || i == 0,
            total == utf8_len(s@.take(i as int)),
        decreases s.len() - i,
    {
        let c: u32 = s[i] as u32;
        assert(s@.take(i + 1).drop_last() =~= s@.take(i as int));
        assert(s@.take(i + 1).last() == s@[i as int]);
        let w: usize = if c < 0x80 {
            1
        } else if c < 0x800 {
            2
        } else if c < 0x1_0000 {
            3
        } else {
            4
        };
        total += w;
        i += 1;
        if total >= n {
            proof {
                lemma_utf8_grows(s@, i as int);
            }
            return false;
        }
    }
    assert(s@.take(i as int) =~= s@);
    total < n
}

proof fn lemma_utf8_grows(s: Seq<char>, n: int)
    requires
        0 <= n <= s.len(),
    ensures
        utf8_len(s.take(n)) <= utf8_len(s),
    decreases s.len() - n,
{
    if n < s.len() {
        lemma_utf8_grows(s, n + 1);
        assert(s.take(n + 1).drop_last() =~= s.take(n));
    } else {
        assert(s.take(n) =~= s);
    }
}

/// A member as a listing shows it.
fn listed_entry(path: String, size: u64, is_dir: bool) -> (r: EntryMeta)
    ensures
        r@ == listed(path@, size, is_dir),
{
    let format_hint = if is_dir {
        ArchiveFormat::Unknown
    } else {
        format_from_path(path.as_str())
    };
    EntryMeta { path, size, is_dir, format_hint, meta: FileMeta::default() }
}

/// The member that a line of a compact listing shows.
fn parse_ba_line(raw: &[char]) -> (r: Option<EntryMeta>)
    ensures
        match r {
            Some(e) => compact_entry(raw@) == Some(e@),
            None => compact_entry(raw@) is None,
        },
{
    let line = trimmed_end(raw);
    if line.len() == 0 || begins_with(line, "----") || begins_with(line, "Date ") {
        return None;
    }
    if has_text(line, " files") && has_text(line, "folder") {
        return None;
    }
    let parts = words_of(line);
    let ghost rows = text::words(line@);
    if parts.len() < 5 {
        return None;
    }
    assert(rows[2] == parts@[2]@ && rows[3] == parts@[3]@ && rows[4] == parts@[4]@);
    if shorter_than(parts[2].as_slice(), 4) {
        return None;
    }
    let is_dir = parts[2].len() > 0 && parts[2][0] == 'D';
    let size: u64 = match read_u64(parts[3].as_slice()) {
        Some(n) => n,
        None => {
            return None;
        },
    };
    let from: usize = if parts.len() >= 6 && only_digits(parts[4].as_slice()) {
        5
    } else {
        4
    };
    let name = join_rows(parts.as_slice(), from, " ");
    if chars_of(name.as_str()).len() == 0 {
        return None;
    }
    Some(listed_entry(normalize_member_path(name.as_str()), size, is_dir))
}

/// Reads a compact listing (`7z l -ba`).
pub fn parse_ba_listing(listing: &str) -> (r: Result<Vec<EntryMeta>>)
    ensures
        r is Ok,
        types::entry_views(r->Ok_0@) == compact_entries(text::lines(listing@)),
{
    let chars = chars_of(listing);
    let lines = lines_of(chars.as_slice());
    let ghost rows = text::lines(listing@);
    let mut out: Vec<EntryMeta> = Vec::new();
    let mut i: usize = 0;
    assert(rows.take(0) =~= Seq::<Seq<char>>::empty());
    assert(types::entry_views(out@) =~= Seq::<EntryView>::empty());
    while i < lines.len()
        invariant
            i <= lines.len(),
            rows == text::rows(lines@),
            types::entry_views(out@) == compact_entries(rows.take(i as int)),
        decreases lines.len() - i,
    {
        assert(rows.take(i + 1).drop_last() =~= rows.take(i as int));
        assert(rows.take(i + 1).last() == lines@[i as int]@);
        if let Some(e) = parse_ba_line(lines[i].as_slice()) {
            let ghost before = out@;
            let ghost ev = e@;
            out.push(e);
            assert(types::entry_views(out@) =~= types::entry_views(before).push(ev));
        }
        i += 1;
    }
    assert(rows.take(i as int) =~= rows);
    Ok(out)
}

// ---------------------------------------------------------------------------------------------
// The technical listing
// ---------------------------------------------------------------------------------------------
/// How far the reading of a technical listing has come.
#[verifier::ext_equal]
pub struct SltView {
    /// The members read to their end.
    pub entries: Seq<EntryView>,
    /// The path of the member that is being read.
    pub path: Option<Seq<char>>,
    pub size: u64,
    pub is_dir: bool,
}

impl SltView {
    /// Nothing read yet.
    pub open spec fn start() -> SltView {
        SltView { entries: Seq::empty(), path: None, size: 0, is_dir: false }
    }

    /// The member that is being read comes to its end.
    pub open spec fn flush(self) -> SltView {
        SltView {
            entries: match self.path {
                Some(p) => if pathnorm::normalized(p).len() > 0 {
                    self.entries.push(listed(pathnorm::normalized(p), self.size, self.is_dir))
                } else {
                    self.entries
                },
                None => self.entries,
            },
            path: None,
            size: 0,
            is_dir: false,
        }
    }

    /// One line is read. A `Path` line begins a member; the others say something of it.
    pub open spec fn line(self, line: Seq<char>) -> SltView {
        if text::begins(line, "Path = "@) {
            SltView { path: Some(text::strip_front_text(line, "Path = "@)), ..self.flush() }
        } else if text::begins(line, "Size = "@) {
            SltView {
                size: match text::decimal_max(
                    text::trim(text::strip_front_text(line, "Size = "@)),
                    u64::MAX as nat,
                ) {
                    Some(n) => n as u64,
                    None => 0,
                },
                ..self
            }
        } else if text::begins(line, "Folder = "@) {
            let v = text::trim(text::strip_front_text(line, "Folder = "@));
            SltView { is_dir: v == "+"@ || text::lower(v) == "true"@, ..self }
        } else if text::begins(line, "Attributes = "@) {
            let v = text::strip_front_text(line, "Attributes = "@);
            SltView { is_dir: self.is_dir || (v.len() > 0 && v[0] == 'D'), ..self }
        } else {
            self
        }
    }
}

/// The state after the lines of a technical listing.
pub open spec fn slt_state(lines: Seq<Seq<char>>) -> SltView
    decreases lines.len(),
{
    if lines.len() == 0 {
        SltView::start()
    } else {
        slt_state(lines.drop_last()).line(lines.last())
    }
}

/// The members that a technical listing shows.
pub open spec fn technical_entries(lines: Seq<Seq<char>>) -> Seq<EntryView> {
    slt_state(lines).flush().entries
}

/// Ends the member that is being read.
fn flush_entry(out: &mut Vec<EntryMeta>, path: Option<String>, size: u64, is_dir: bool)
    ensures
        types::entry_views(final(out)@) == (SltView {
            entries: types::entry_views(old(out)@),
            path: match path {
                Some(p) => Some(p@),
                None => None,
            },
            size,
            is_dir,
        }).flush().entries,
{
    if let Some(p) = path {
        let norm = normalize_member_path(p.as_str());
        if chars_of(norm.as_str()).len() > 0 {
            let e = listed_entry(norm, size, is_dir);
            let ghost before = out@;
            let ghost ev = e@;
            out.push(e);
            assert(types::entry_views(out@) =~= types::entry_views(before).push(ev));
        }
    }
}

/// Reads a technical listing (`7z l -slt -ba`).
pub fn parse_slt_listing(listing: &str) -> (r: Result<Vec<EntryMeta>>)
    ensures
        r is Ok,
        types::entry_views(r->Ok_0@) == technical_entries(text::lines(listing@)),
{
    let chars = chars_of(listing);
    let lines = lines_of(chars.as_slice());
    let ghost rows = text::lines(listing@);
    let mut out: Vec<EntryMeta> = Vec::new();
    let mut path: Option<String> = None;
    let mut size: u64 = 0;
    let mut is_dir = false;
    let mut i: usize = 0;
    assert(rows.take(0) =~= Seq::<Seq<char>>::empty());
    assert(types::entry_views(out@) =~= Seq::<EntryView>::empty());
    while i < lines.len()
        invariant
            i <= lines.len(),
            rows == text::rows(lines@),
            slt_state(rows.take(i as int)) == (SltView {
                entries: types::entry_views(out@),
                path: match path {
                    Some(p) => Some(p@),
                    None => None,
                },
                size,
                is_dir,
            }),
        decreases lines.len() - i,
    {
        let ghost before = slt_state(rows.take(i as int));
        assert(rows.take(i + 1).drop_last() =~= rows.take(i as int));
        assert(rows.take(i + 1).last() == lines@[i as int]@);
        let line = lines[i].as_slice();
        if begins_with(line, "Path = ") {
            flush_entry(&mut out, path, size, is_dir);
            path = Some(string_of(without_front_text(line, "Path = ")));
            size = 0;
            is_dir = false;
        } else if begins_with(line, "Size = ") {
            size =
            match read_u64(trimmed(without_front_text(line, "Size = "))) {
                Some(n) => n,
                None => 0,
            };
        } else if begins_with(line, "Folder = ") {
            let v = trimmed(without_front_text(line, "Folder = "));
            let low = to_lower(v);
            is_dir = is_text(v, "+") || is_text(low.as_slice(), "true");
        } else if begins_with(line, "Attributes = ") {
            let v = without_front_text(line, "Attributes = ");
            if v.len() > 0 && v[0] == 'D' {
                is_dir = true;
            }
        }
        i += 1;
    }
    assert(rows.take(i as int) =~= rows);
    flush_entry(&mut out, path, size, is_dir);
    Ok(out)
}

// ---------------------------------------------------------------------------------------------
// Laws
// ---------------------------------------------------------------------------------------------
/// The first line of a text that begins with `Path = ` does so too.
proof fn lemma_first_line_is_path(b: Seq<char>)
    requires
        text::begins(b, "Path = "@),
    ensures
        text::lines(b).len() > 0,
        text::begins(text::lines(b)[0], "Path = "@),
{
    reveal_strlit("Path = ");
    let i = text::find(b, '\n');
    text::lemma_find(b, '\n');
    let head = b.take(7);
    assert(head =~= "Path = "@);
    assert forall|k: int| 0 <= k < 7 implies b[k] != '\n' && b[k] != '\r' by {
        assert(b[k] == head[k]);
    }
    assert(i >= 7);
    if i < b.len() {
        let line = b.take(i);
        assert(line.last() == b[i - 1]);
        assert(text::strip_cr(line).take(7) =~= head);
        assert(text::lines(b)[0] == text::strip_cr(line));
    } else {
        assert(text::lines(b)[0] == b);
    }
}

/// What was read before a `Path` line has no part in what is read after it.
proof fn lemma_slt_state_behind(a: Seq<Seq<char>>, b: Seq<Seq<char>>)
    requires
        b.len() > 0,
        text::begins(b[0], "Path = "@),
    ensures
        slt_state(a + b) == (SltView {
            entries: technical_entries(a) + slt_state(b).entries,
            ..slt_state(b)
        }),
    decreases b.len(),
{
    let front = b.drop_last();
    assert((a + b).drop_last() =~= a + front);
    assert((a + b).last() == b.last());
    if b.len() == 1 {
        assert(a + front =~= a);
        assert(front =~= Seq::<Seq<char>>::empty());
        assert(slt_state(front) == SltView::start());
        assert(slt_state(b).entries =~= Seq::<EntryView>::empty());
        assert(slt_state(a + b).entries =~= technical_entries(a) + slt_state(b).entries);
    } else {
        lemma_slt_state_behind(a, front);
        let before = slt_state(front);
        assert(slt_state(a + b) == slt_state(a + front).line(b.last()));
        assert(slt_state(b) == before.line(b.last()));
        if before.path is Some {
            let p = pathnorm::normalized(before.path->0);
            let e = listed(p, before.size, before.is_dir);
            assert((technical_entries(a) + before.entries).push(e) =~= technical_entries(a)
                + before.entries.push(e));
        }
    }
}

/// Law: the technical listings of two archives, one behind the other, show the members of both:
/// neither the size nor the kind of one member reaches into the next.
pub proof fn law_technical_listings_add_up(a: Seq<char>, b: Seq<char>)
    requires
        a.len() == 0 || a.last() == '\n',
        text::begins(b, "Path = "@),
    ensures
        technical_entries(text::lines(a + b)) == technical_entries(text::lines(a))
            + technical_entries(text::lines(b)),
{
    text::law_lines_add_up(a, b);
    lemma_first_line_is_path(b);
    let x = text::lines(a);
    let y = text::lines(b);
    lemma_slt_state_behind(x, y);
    let last = slt_state(y);
    if last.path is Some {
        let p = pathnorm::normalized(last.path->0);
        let e = listed(p, last.size, last.is_dir);
        assert((technical_entries(x) + last.entries).push(e) =~= technical_entries(x)
            + last.entries.push(e));
    }
}

/// A member that a listing can show: its path is there and in normal form, and its format is the one
/// that its name tells, unless it is a directory.
pub open spec fn well_listed(e: EntryView) -> bool {
    &&& e.path.len() > 0
    &&& pathnorm::is_normal(e.path)
    &&& e == listed(e.path, e.size, e.is_dir)
}

proof fn lemma_slt_state_is_well_listed(lines: Seq<Seq<char>>)
    ensures
        forall|i: int|
            0 <= i < slt_state(lines).entries.len() ==> well_listed(
                #[trigger] slt_state(lines).entries[i],
            ),
        forall|i: int|
            0 <= i < technical_entries(lines).len() ==> well_listed(
                #[trigger] technical_entries(lines)[i],
            ),
    decreases lines.len(),
{
    if lines.len() > 0 {
        lemma_slt_state_is_well_listed(lines.drop_last());
    }
    let s = slt_state(lines);
    if lines.len() > 0 && text::begins(lines.last(), "Path = "@) {
        assert(s.entries == technical_entries(lines.drop_last()));
    }
    if s.path is Some {
        pathnorm::law_normal_form(s.path->0);
    }
}

/// Law: every member that a technical listing shows has a path, in normal form, and the format
/// that its name tells; a directory has none.
pub proof fn law_technical_entries_are_well_listed(lines: Seq<Seq<char>>, i: int)
    requires
        0 <= i < technical_entries(lines).len(),
    ensures
        well_listed(technical_entries(lines)[i]),
{
    lemma_slt_state_is_well_listed(lines);
}

proof fn lemma_compact_entries_add(a: Seq<Seq<char>>, b: Seq<Seq<char>>)
    ensures
        compact_entries(a + b) == compact_entries(a) + compact_entries(b),
    decreases b.len(),
{
    if b.len() == 0 {
        assert(a + b =~= a);
        assert(compact_entries(a) + compact_entries(b) =~= compact_entries(a));
    } else {
        assert((a + b).drop_last() =~= a + b.drop_last());
        assert((a + b).last() == b.last());
        lemma_compact_entries_add(a, b.drop_last());
        assert(compact_entries(a + b) =~= compact_entries(a) + compact_entries(b));
    }
}

/// Law: the compact listings of two archives, one behind the other, show the members of both.
pub proof fn law_compact_listings_add_up(a: Seq<char>, b: Seq<char>)
    requires
        a.len() == 0 || a.last() == '\n',
    ensures
        compact_entries(text::lines(a + b)) == compact_entries(text::lines(a)) + compact_entries(
            text::lines(b),
        ),
{
    text::law_lines_add_up(a, b);
    lemma_compact_entries_add(text::lines(a), text::lines(b));
}

} // verus!
