//! Stored measurements of conversions by hand.

use crate::util::text::copy_str;
use vstd::prelude::*;

verus! {

/// The measurement of one cell. The time is carried as the bits of a number of seconds.
#[derive(Debug, Clone, Copy, PartialEq, Eq, Structural)]
pub struct ManualBaselineEntry {
    pub nested: usize,
    pub threads: u32,
    pub level: u32,
    pub seconds_bits: u64,
    pub output_bytes: u64,
    pub repeats: u32,
}

/// Stored measurements.
#[derive(Debug)]
pub struct ManualBaselineFile {
    pub version: u32,
    pub scale: String,
    pub method: String,
    pub notes: String,
    /// When the file was last changed, in seconds since 1970.
    pub updated_unix: u64,
    pub entries: Vec<ManualBaselineEntry>,
}

/// The contents of a [`ManualBaselineFile`].
#[verifier::ext_equal]
pub struct BaselineView {
    pub version: u32,
    pub scale: Seq<char>,
    pub method: Seq<char>,
    pub notes: Seq<char>,
    pub updated_unix: u64,
    pub entries: Seq<ManualBaselineEntry>,
}

impl View for ManualBaselineFile {
    type V = BaselineView;

    open spec fn view(&self) -> BaselineView {
        BaselineView {
            version: self.version,
            scale: self.scale@,
            method: self.method@,
            notes: self.notes@,
            updated_unix: self.updated_unix,
            entries: self.entries@,
        }
    }
}

/// The entry measures the cell.
pub open spec fn measures(e: ManualBaselineEntry, nested: usize, threads: u32, level: u32) -> bool {
    e.nested == nested && e.threads == threads && e.level == level
}

/// The first entry that measures a cell.
pub open spec fn lookup(
    entries: Seq<ManualBaselineEntry>,
    nested: usize,
    threads: u32,
    level: u32,
) -> Option<ManualBaselineEntry>
    decreases entries.len(),
{
    if entries.len() == 0 {
        None
    } else if measures(entries[0], nested, threads, level) {
        Some(entries[0])
    } else {
        lookup(entries.skip(1), nested, threads, level)
    }
}

fn lookup_in(entries: &[ManualBaselineEntry], nested: usize, threads: u32, level: u32) -> (r:
    Option<ManualBaselineEntry>)
    ensures
        r == lookup(entries@, nested, threads, level),
{
    let mut i: usize = 0;
    assert(entries@.skip(0) =~= entries@);
    while i < entries.len()
        invariant
            i <= entries.len(),
            lookup(entries@, nested, threads, level) == lookup(
                entries@.skip(i as int),
                nested,
                threads,
                level,
            ),
        decreases entries.len() - i,
    {
        let e = entries[i];
        assert(entries@.skip(i as int)[0] == e);
        if e.nested == nested && e.threads == threads && e.level == level {
            return Some(e);
        }
        assert(entries@.skip(i as int).skip(1) =~= entries@.skip(i + 1));
        i += 1;
    }
    None
}

/// The first entry that measures a cell, where there are entries at all.
pub fn lookup_manual(
    base: Option<&ManualBaselineFile>,
    nested: usize,
    threads: u32,
    level: u32,
) -> (r: Option<ManualBaselineEntry>)
    ensures
        r == (match base {
            Some(f) => lookup(f.entries@, nested, threads, level),
            None => None,
        }),
{
    match base {
        None => None,
        Some(f) => lookup_in(f.entries.as_slice(), nested, threads, level),
    }
}

// ---------------------------------------------------------------------------------------------
// Merging
// ---------------------------------------------------------------------------------------------
/// Where the first entry for the cell of `e` stands.
pub open spec fn place(entries: Seq<ManualBaselineEntry>, e: ManualBaselineEntry, i: int) -> Option<int>
    decreases entries.len() - i,
{
    if i < 0 || i >= entries.len() {
        None
    } else if measures(entries[i], e.nested, e.threads, e.level) {
        Some(i)
    } else {
        place(entries, e, i + 1)
    }
}

/// The entries with `e` in place of the first one for its cell, or behind the others.
pub open spec fn with_entry(entries: Seq<ManualBaselineEntry>, e: ManualBaselineEntry) -> Seq<
    ManualBaselineEntry,
> {
    match place(entries, e, 0) {
        Some(i) => entries.update(i, e),
        None => entries.push(e),
    }
}

/// The entries with all new ones.
pub open spec fn with_entries(
    entries: Seq<ManualBaselineEntry>,
    new_entries: Seq<ManualBaselineEntry>,
) -> Seq<ManualBaselineEntry>
    decreases new_entries.len(),
{
    if new_entries.len() == 0 {
        entries
    } else {
        with_entry(with_entries(entries, new_entries.drop_last()), new_entries.last())
    }
}

/// `a` comes no later than `b`: by the number of nested archives, then of threads, then the level.
pub open spec fn cell_le(a: ManualBaselineEntry, b: ManualBaselineEntry) -> bool {
    if a.nested != b.nested {
        a.nested < b.nested
    } else if a.threads != b.threads {
        a.threads < b.threads
    } else {
        a.level <= b.level
    }
}

/// The entries that measure a cell, as they follow each other.
pub open spec fn of_cell(
    s: Seq<ManualBaselineEntry>,
    nested: usize,
    threads: u32,
    level: u32,
) -> Seq<ManualBaselineEntry>
    decreases s.len(),
{
    if s.len() == 0 {
        s
    } else {
        let front = of_cell(s.drop_last(), nested, threads, level);
        if measures(s.last(), nested, threads, level) {
            front.push(s.last())
        } else {
            front
        }
    }
}

/// `r` holds the entries of `s` in order; those for one cell keep the order that they have in `s`.
pub open spec fn sorting_of(r: Seq<ManualBaselineEntry>, s: Seq<ManualBaselineEntry>) -> bool {
    &&& r.to_multiset() == s.to_multiset()
    &&& forall|i: int, j: int| 0 <= i < j < r.len() ==> cell_le(#[trigger] r[i], #[trigger] r[j])
    &&& forall|n: usize, t: u32, l: u32| #[trigger]
        of_cell(r, n, t, l) == of_cell(s, n, t, l)
}

fn not_later(a: &ManualBaselineEntry, b: &ManualBaselineEntry) -> (r: bool)
    ensures
        r == cell_le(*a, *b),
{
    if a.nested != b.nested {
        a.nested < b.nested
    } else if a.threads != b.threads {
        a.threads < b.threads
    } else {
        a.level <= b.level
    }
}

/// An entry may stand in front of later ones just as well as behind them.
proof fn lemma_of_cell_insert(
    s: Seq<ManualBaselineEntry>,
    e: ManualBaselineEntry,
    p: int,
    n: usize,
    t: u32,
    l: u32,
)
    requires
        0 <= p <= s.len(),
        forall|i: int| p <= i < s.len() ==> !cell_le(#[trigger] s[i], e),
    ensures
        of_cell(s.insert(p, e), n, t, l) == of_cell(s.push(e), n, t, l),
    decreases s.len(),
{
    assert(s.push(e).drop_last() =~= s);
    if p == s.len() {
        assert(s.insert(p, e) =~= s.push(e));
    } else {
        let d = s.drop_last();
        assert(!cell_le(s[s.len() - 1], e));
        assert forall|i: int| p <= i < d.len() implies !cell_le(#[trigger] d[i], e) by {
            assert(d[i] == s[i]);
        }
        lemma_of_cell_insert(d, e, p, n, t, l);
        assert(s.insert(p, e).drop_last() =~= d.insert(p, e));
        assert(s.insert(p, e).last() == s.last());
        assert(d.push(e).drop_last() =~= d);
        let c = of_cell(d, n, t, l);
        let x = s.last();
        assert(!(measures(x, n, t, l) && measures(e, n, t, l)));
        assert(of_cell(s, n, t, l) == if measures(x, n, t, l) {
            c.push(x)
        } else {
            c
        });
        assert(of_cell(d.push(e), n, t, l) == if measures(e, n, t, l) {
            c.push(e)
        } else {
            c
        });
    }
}

/// The entries in order.
fn sort_entries(entries: &[ManualBaselineEntry]) -> (r: Vec<ManualBaselineEntry>)
    ensures
        sorting_of(r@, entries@),
{
    let mut out: Vec<ManualBaselineEntry> = Vec::new();
    let mut i: usize = 0;
    assert(entries@.take(0) =~= Seq::<ManualBaselineEntry>::empty());
    assert(out@ =~= Seq::<ManualBaselineEntry>::empty());
    while i < entries.len()
        invariant
            i <= entries.len(),
            sorting_of(out@, entries@.take(i as int)),
        decreases entries.len() - i,
    {
        let ghost taken = entries@.take(i as int);
        let ghost next = entries@.take(i + 1);
        assert(next =~= taken.push(entries@[i as int]));
        let e = entries[i];
        let ghost before = out@;
        let mut p: usize = out.len();
        while p > 0 && !not_later(&out[p - 1], &e)
            invariant
                p <= out.len(),
                forall|k: int| p <= k < out.len() ==> !cell_le(#[trigger] out@[k], e),
            decreases p,
        {
            p -= 1;
        }
        out.insert(p, e);
        proof {
            vstd::seq_lib::to_multiset_insert(before, p as int, e);
            vstd::seq_lib::to_multiset_build(taken, e);
            assert(next.drop_last() =~= taken);
            assert(before.push(e).drop_last() =~= before);
            assert forall|n: usize, t: u32, l: u32| #[trigger]
                of_cell(out@, n, t, l) == of_cell(next, n, t, l) by {
                lemma_of_cell_insert(before, e, p as int, n, t, l);
                assert(of_cell(before, n, t, l) == of_cell(taken, n, t, l));
            }
            assert forall|x: int, y: int| 0 <= x < y < out.len() implies cell_le(
                #[trigger] out@[x],
                #[trigger] out@[y],
            ) by {
                let u = if x < p {
                    x
                } else {
                    x - 1
                };
                let v = if y < p {
                    y
                } else {
                    y - 1
                };
                if x != p {
                    assert(out@[x] == before[u]);
                }
                if y != p {
                    assert(out@[y] == before[v]);
                }
                if y == p {
                    assert(cell_le(before[p - 1], e));
                }
            }
        }
        i += 1;
    }
    assert(entries@.take(i as int) =~= entries@);
    out
}

fn put_entry(entries: &mut Vec<ManualBaselineEntry>, e: ManualBaselineEntry)
    ensures
        final(entries)@ == with_entry(old(entries)@, e),
{
    let mut i: usize = 0;
    while i < entries.len()
        invariant
            i <= entries.len(),
            entries@ == old(entries)@,
            place(entries@, e, 0) == place(entries@, e, i as int),
        decreases entries.len() - i,
    {
        let have = entries[i];
        if have.nested == e.nested && have.threads == e.threads && have.level == e.level {
            entries.set(i, e);
            return;
        }
        i += 1;
    }
    entries.push(e);
}

/// How the measurements are made.
pub open spec fn method_text() -> Seq<char> {
    "manual-7z-one-at-a-time"@
}

/// What is noted about the measurements.
pub open spec fn notes_text() -> Seq<char> {
    "Outer members extracted one-by-one; each nested solid→non-solid with -ms=off -mmt=N; outer pack -ms=off -mmt=N. Thread N matches tool --threads N."@
}

/// A file without measurements.
pub open spec fn fresh(scale: Seq<char>, now: u64) -> BaselineView {
    BaselineView {
        version: 1,
        scale,
        method: method_text(),
        notes: notes_text(),
        updated_unix: now,
        entries: Seq::empty(),
    }
}

/// What new measurements are put into: the stored ones, or an empty file where those are to be
/// replaced or there are none.
pub open spec fn merge_start(
    existing: Option<BaselineView>,
    scale: Seq<char>,
    replace: bool,
    now: u64,
) -> BaselineView {
    if replace || existing is None {
        fresh(scale, now)
    } else {
        BaselineView { updated_unix: now, ..existing->0 }
    }
}

/// `r` holds the stored measurements with the new ones, in order.
pub open spec fn merge_of(
    r: BaselineView,
    existing: Option<BaselineView>,
    scale: Seq<char>,
    new_entries: Seq<ManualBaselineEntry>,
    replace: bool,
    now: u64,
) -> bool {
    let start = merge_start(existing, scale, replace, now);
    &&& r == BaselineView { entries: r.entries, ..start }
    &&& sorting_of(r.entries, with_entries(start.entries, new_entries))
}

fn fresh_file(scale: &str, now: u64) -> (r: ManualBaselineFile)
    ensures
        r@ == fresh(scale@, now),
{
    ManualBaselineFile {
        version: 1,
        scale: copy_str(scale),
        method: copy_str("manual-7z-one-at-a-time"),
        notes: copy_str(
            "Outer members extracted one-by-one; each nested solid→non-solid with -ms=off -mmt=N; outer pack -ms=off -mmt=N. Thread N matches tool --threads N.",
        ),
        updated_unix: now,
        entries: Vec::new(),
    }
}

/// Merges new measurements into the stored ones. `now` is the time, in seconds since 1970.
pub fn merge_baseline_entries(
    existing: Option<ManualBaselineFile>,
    scale: &str,
    new_entries: &[ManualBaselineEntry],
    replace: bool,
    now: u64,
) -> (r: ManualBaselineFile)
    ensures
        merge_of(
            r@,
            match existing {
                Some(f) => Some(f@),
                None => None,
            },
            scale@,
            new_entries@,
            replace,
            now,
        ),
{
    let mut file = if replace {
        fresh_file(scale, now)
    } else {
        match existing {
            Some(f) => {
                let mut g = f;
                g.updated_unix = now;
                g
            },
            None => fresh_file(scale, now),
        }
    };
    let ghost start = file@.entries;
    let mut i: usize = 0;
    let mut entries = file.entries;
    assert(new_entries@.take(0) =~= Seq::<ManualBaselineEntry>::empty());
    while i < new_entries.len()
        invariant
            i <= new_entries.len(),
            entries@ == with_entries(start, new_entries@.take(i as int)),
        decreases new_entries.len() - i,
    {
        assert(new_entries@.take(i + 1).drop_last() =~= new_entries@.take(i as int));
        put_entry(&mut entries, new_entries[i]);
        i += 1;
    }
    assert(new_entries@.take(i as int) =~= new_entries@);
    file.entries = sort_entries(entries.as_slice());
    file
}

// ---------------------------------------------------------------------------------------------
// The middle of several times
// ---------------------------------------------------------------------------------------------
/// `s` holds the times from the shortest to the longest.
pub open spec fn sorted_times(s: Seq<u64>, times: Seq<u64>) -> bool {
    &&& s.to_multiset() == times.to_multiset()
    &&& forall|i: int, j: int| 0 <= i < j < s.len() ==> #[trigger] s[i] <= #[trigger] s[j]
}

/// `m` is in the middle of the sorted times; of an even number it is the later of the two.
pub open spec fn is_middle(times: Seq<u64>, m: u64) -> bool {
    exists|s: Seq<u64>| #[trigger] sorted_times(s, times) && m == s[times.len() as int / 2]
}

/// Law: there is one way to sort times, and so one middle.
pub proof fn law_one_middle(times: Seq<u64>, a: u64, b: u64)
    requires
        is_middle(times, a),
        is_middle(times, b),
    ensures
        a == b,
{
    let x = choose|s: Seq<u64>| #[trigger]
        sorted_times(s, times) && a == s[times.len() as int / 2];
    let y = choose|s: Seq<u64>| #[trigger]
        sorted_times(s, times) && b == s[times.len() as int / 2];
    let leq = |p: u64, q: u64| p <= q;
    assert(vstd::relations::sorted_by(x, leq));
    assert(vstd::relations::sorted_by(y, leq));
    vstd::seq_lib::lemma_sorted_unique(x, y, leq);
}

/// The middle of several times; of an even number the later of the two in the middle.
pub fn median(times: &[u64]) -> (r: u64)
    requires
        times.len() > 0,
    ensures
        is_middle(times@, r),
{
    let mut out: Vec<u64> = Vec::new();
    let mut i: usize = 0;
    assert(times@.take(0) =~= Seq::<u64>::empty());
    assert(out@ =~= Seq::<u64>::empty());
    while i < times.len()
        invariant
            i <= times.len(),
            sorted_times(out@, times@.take(i as int)),
            out.len() == i,
        decreases times.len() - i,
    {
        let ghost taken = times@.take(i as int);
        assert(times@.take(i + 1) =~= taken.push(times@[i as int]));
        let t: u64 = times[i];
        let ghost before = out@;
        let mut p: usize = out.len();
        while p > 0 && out[p - 1] > t
            invariant
                p <= out.len(),
                forall|k: int| p <= k < out.len() ==> #[trigger] out@[k] > t,
            decreases p,
        {
            p -= 1;
        }
        out.insert(p, t);
        proof {
            vstd::seq_lib::to_multiset_insert(before, p as int, t);
            vstd::seq_lib::to_multiset_build(taken, t);
            assert forall|x: int, y: int| 0 <= x < y < out.len() implies #[trigger] out@[x]
                <= #[trigger] out@[y] by {
                let u = if x < p {
                    x
                } else {
                    x - 1
                };
                let v = if y < p {
                    y
                } else {
                    y - 1
                };
                if x != p {
                    assert(out@[x] == before[u]);
                }
                if y != p {
                    assert(out@[y] == before[v]);
                }
                if y == p {
                    assert(before[p - 1] <= t);
                }
            }
        }
        i += 1;
    }
    assert(times@.take(i as int) =~= times@);
    out[out.len() / 2]
}

// ---------------------------------------------------------------------------------------------
// Laws
// ---------------------------------------------------------------------------------------------
proof fn lemma_lookup_push(
    s: Seq<ManualBaselineEntry>,
    e: ManualBaselineEntry,
    n: usize,
    t: u32,
    l: u32,
)
    ensures
        lookup(s.push(e), n, t, l) == (match lookup(s, n, t, l) {
            Some(x) => Some(x),
            None => if measures(e, n, t, l) {
                Some(e)
            } else {
                None
            },
        }),
    decreases s.len(),
{
    if s.len() == 0 {
        assert(s.push(e).skip(1) =~= Seq::<ManualBaselineEntry>::empty());
        assert(lookup(s.push(e).skip(1), n, t, l) is None);
        assert(s.push(e)[0] == e);
    } else {
        assert(s.push(e)[0] == s[0]);
        assert(s.push(e).skip(1) =~= s.skip(1).push(e));
        lemma_lookup_push(s.skip(1), e, n, t, l);
    }
}

/// The first entry that measures a cell is the first of those that do.
proof fn lemma_lookup_of_cell(s: Seq<ManualBaselineEntry>, n: usize, t: u32, l: u32)
    ensures
        lookup(s, n, t, l) == (if of_cell(s, n, t, l).len() == 0 {
            None
        } else {
            Some(of_cell(s, n, t, l)[0])
        }),
    decreases s.len(),
{
    if s.len() > 0 {
        let d = s.drop_last();
        lemma_lookup_of_cell(d, n, t, l);
        lemma_lookup_push(d, s.last(), n, t, l);
        assert(d.push(s.last()) =~= s);
    }
}

proof fn lemma_place(s: Seq<ManualBaselineEntry>, e: ManualBaselineEntry, i: int)
    requires
        0 <= i <= s.len(),
    ensures
        match place(s, e, i) {
            Some(k) => i <= k < s.len() && measures(s[k], e.nested, e.threads, e.level)
                && forall|j: int|
                i <= j < k ==> !measures(#[trigger] s[j], e.nested, e.threads, e.level),
            None => forall|j: int|
                i <= j < s.len() ==> !measures(#[trigger] s[j], e.nested, e.threads, e.level),
        },
    decreases s.len() - i,
{
    if i < s.len() && !measures(s[i], e.nested, e.threads, e.level) {
        lemma_place(s, e, i + 1);
    }
}

proof fn lemma_lookup_at(s: Seq<ManualBaselineEntry>, k: int, n: usize, t: u32, l: u32)
    requires
        0 <= k < s.len(),
        measures(s[k], n, t, l),
        forall|j: int| 0 <= j < k ==> !measures(#[trigger] s[j], n, t, l),
    ensures
        lookup(s, n, t, l) == Some(s[k]),
    decreases k,
{
    if k > 0 {
        assert(!measures(s[0], n, t, l));
        assert forall|j: int| 0 <= j < k - 1 implies !measures(#[trigger] s.skip(1)[j], n, t, l) by {
            assert(s.skip(1)[j] == s[j + 1]);
        }
        lemma_lookup_at(s.skip(1), k - 1, n, t, l);
    }
}

/// An entry for another cell changes nothing for a cell.
proof fn lemma_lookup_update(
    s: Seq<ManualBaselineEntry>,
    i: int,
    e: ManualBaselineEntry,
    n: usize,
    t: u32,
    l: u32,
)
    requires
        0 <= i < s.len(),
        !measures(s[i], n, t, l),
        !measures(e, n, t, l),
    ensures
        lookup(s.update(i, e), n, t, l) == lookup(s, n, t, l),
    decreases s.len(),
{
    let u = s.update(i, e);
    if i == 0 {
        assert(u.skip(1) =~= s.skip(1));
    } else {
        assert(u.skip(1) =~= s.skip(1).update(i - 1, e));
        assert(u[0] == s[0]);
        if !measures(s[0], n, t, l) {
            assert(s.skip(1)[i - 1] == s[i]);
            lemma_lookup_update(s.skip(1), i - 1, e, n, t, l);
        }
    }
}

proof fn lemma_with_entry(
    s: Seq<ManualBaselineEntry>,
    e: ManualBaselineEntry,
    n: usize,
    t: u32,
    l: u32,
)
    ensures
        lookup(with_entry(s, e), n, t, l) == (if measures(e, n, t, l) {
            Some(e)
        } else {
            lookup(s, n, t, l)
        }),
{
    lemma_place(s, e, 0);
    match place(s, e, 0) {
        Some(i) => {
            let u = s.update(i, e);
            if measures(e, n, t, l) {
                assert forall|j: int| 0 <= j < i implies !measures(#[trigger] u[j], n, t, l) by {
                    assert(u[j] == s[j]);
                }
                lemma_lookup_at(u, i, n, t, l);
            } else {
                lemma_lookup_update(s, i, e, n, t, l);
            }
        },
        None => {
            lemma_lookup_push(s, e, n, t, l);
            if measures(e, n, t, l) {
                lemma_no_lookup(s, n, t, l);
            }
        },
    }
}

proof fn lemma_no_lookup(s: Seq<ManualBaselineEntry>, n: usize, t: u32, l: u32)
    requires
        forall|j: int| 0 <= j < s.len() ==> !measures(#[trigger] s[j], n, t, l),
    ensures
        lookup(s, n, t, l) is None,
    decreases s.len(),
{
    if s.len() > 0 {
        assert(!measures(s[0], n, t, l));
        assert forall|j: int| 0 <= j < s.len() - 1 implies !measures(
            #[trigger] s.skip(1)[j],
            n,
            t,
            l,
        ) by {
            assert(s.skip(1)[j] == s[j + 1]);
        }
        lemma_no_lookup(s.skip(1), n, t, l);
    }
}

/// The last of the new entries for a cell.
pub open spec fn last_for(s: Seq<ManualBaselineEntry>, n: usize, t: u32, l: u32) -> Option<
    ManualBaselineEntry,
>
    decreases s.len(),
{
    if s.len() == 0 {
        None
    } else if measures(s.last(), n, t, l) {
        Some(s.last())
    } else {
        last_for(s.drop_last(), n, t, l)
    }
}

proof fn lemma_with_entries(
    stored: Seq<ManualBaselineEntry>,
    new_entries: Seq<ManualBaselineEntry>,
    n: usize,
    t: u32,
    l: u32,
)
    ensures
        lookup(with_entries(stored, new_entries), n, t, l) == (match last_for(
            new_entries,
            n,
            t,
            l,
        ) {
            Some(e) => Some(e),
            None => lookup(stored, n, t, l),
        }),
    decreases new_entries.len(),
{
    if new_entries.len() > 0 {
        let d = new_entries.drop_last();
        lemma_with_entries(stored, d, n, t, l);
        lemma_with_entry(with_entries(stored, d), new_entries.last(), n, t, l);
    }
}

/// Law: after a merge, a cell that was measured anew has its last new measurement, and every
/// other cell the one that was stored.
pub proof fn law_merge_keeps_and_replaces(
    r: Seq<ManualBaselineEntry>,
    stored: Seq<ManualBaselineEntry>,
    new_entries: Seq<ManualBaselineEntry>,
    n: usize,
    t: u32,
    l: u32,
)
    requires
        sorting_of(r, with_entries(stored, new_entries)),
    ensures
        lookup(r, n, t, l) == (match last_for(new_entries, n, t, l) {
            Some(e) => Some(e),
            None => lookup(stored, n, t, l),
        }),
{
    let all = with_entries(stored, new_entries);
    lemma_with_entries(stored, new_entries, n, t, l);
    lemma_lookup_of_cell(r, n, t, l);
    lemma_lookup_of_cell(all, n, t, l);
    assert(of_cell(r, n, t, l) == of_cell(all, n, t, l));
}

} // verus!
