//! What is done with each member of the outer archive.

use crate::archive::types;
use crate::archive::types::{ArchiveFormat, EntryMeta, EntryView};
use crate::codec::sevenz_header::FileMeta;
use crate::error::{ErrorView, Result};
use crate::filter::member::{FilterView, MemberFilter};
use crate::filter::rename;
use crate::filter::rename::{NameTransformer, RenameView};
use crate::util::pathnorm;
use crate::util::pathnorm::{is_safe_member_path, normalize_member_path};
use crate::util::text;
use crate::util::text::{
    chars_of, concat2, concat5, copy_str, same_text, show_u64, show_usize,
};
use vstd::hash_map::StringHashMap;
use vstd::hash_set::StringHashSet;
use vstd::prelude::*;

verus! {

/// What is done with a member.
#[derive(Debug, Clone, Copy, PartialEq, Eq, Structural)]
pub enum ActionKind {
    /// It is left out.
    Skip,
    /// It is copied.
    Passthrough,
    /// It is an archive that is converted.
    ConvertNested,
}

/// One member of the plan.
#[derive(Debug)]
pub struct PlannedEntry {
    pub source_path: String,
    pub dest_path: String,
    pub size: u64,
    pub action: ActionKind,
    pub reason: String,
    /// Times and attributes of the member, as far as they are known.
    pub meta: FileMeta,
}

/// The contents of a [`PlannedEntry`].
#[verifier::ext_equal]
pub struct PlannedView {
    pub source_path: Seq<char>,
    pub dest_path: Seq<char>,
    pub size: u64,
    pub action: ActionKind,
    pub reason: Seq<char>,
    pub meta: FileMeta,
}

impl View for PlannedEntry {
    type V = PlannedView;

    open spec fn view(&self) -> PlannedView {
        PlannedView {
            source_path: self.source_path@,
            dest_path: self.dest_path@,
            size: self.size,
            action: self.action,
            reason: self.reason@,
            meta: self.meta,
        }
    }
}

impl Clone for PlannedEntry {
    fn clone(&self) -> (r: Self)
        ensures
            r@ == self@,
    {
        PlannedEntry {
            source_path: copy_str(self.source_path.as_str()),
            dest_path: copy_str(self.dest_path.as_str()),
            size: self.size,
            action: self.action,
            reason: copy_str(self.reason.as_str()),
            meta: self.meta,
        }
    }
}

/// The views of a sequence of planned members.
pub open spec fn plan_views(v: Seq<PlannedEntry>) -> Seq<PlannedView> {
    v.map_values(|e: PlannedEntry| e@)
}

/// What became of the members while the plan was carried out.
#[derive(Debug, Clone, Copy, PartialEq, Eq, Structural)]
pub struct RuntimeStats {
    pub nested_converted: usize,
    pub nested_skipped: usize,
    pub passthrough_written: usize,
    pub passthrough_skipped: usize,
}

impl Default for RuntimeStats {
    fn default() -> (r: Self)
        ensures
            r == (RuntimeStats {
                nested_converted: 0,
                nested_skipped: 0,
                passthrough_written: 0,
                passthrough_skipped: 0,
            }),
    {
        RuntimeStats {
            nested_converted: 0,
            nested_skipped: 0,
            passthrough_written: 0,
            passthrough_skipped: 0,
        }
    }
}

impl RuntimeStats {
    /// How many members were left out while the plan was carried out.
    pub fn runtime_skipped(&self) -> (r: usize)
        requires
            self.nested_skipped + self.passthrough_skipped <= usize::MAX,
        ensures
            r == self.nested_skipped + self.passthrough_skipped,
    {
        self.nested_skipped + self.passthrough_skipped
    }
}

/// What is done with the members of an archive.
#[derive(Debug)]
pub struct ConversionPlan {
    pub input: String,
    pub output: String,
    pub entries: Vec<PlannedEntry>,
    /// What became of the members, once the plan has been carried out.
    pub runtime: RuntimeStats,
}

impl Clone for ConversionPlan {
    fn clone(&self) -> (r: Self)
        ensures
            r.input@ == self.input@,
            r.output@ == self.output@,
            plan_views(r.entries@) == plan_views(self.entries@),
            r.runtime == self.runtime,
    {
        let mut entries: Vec<PlannedEntry> = Vec::new();
        let mut i: usize = 0;
        while i < self.entries.len()
            invariant
                i <= self.entries.len(),
                plan_views(entries@) == plan_views(self.entries@).take(i as int),
            decreases self.entries.len() - i,
        {
            let ghost before = entries@;
            let e = self.entries[i].clone();
            entries.push(e);
            assert(plan_views(entries@) =~= plan_views(before).push(e@));
            assert(plan_views(self.entries@).take(i + 1) =~= plan_views(
                self.entries@,
            ).take(i as int).push(e@));
            i += 1;
        }
        assert(plan_views(self.entries@).take(i as int) =~= plan_views(self.entries@));
        ConversionPlan {
            input: copy_str(self.input.as_str()),
            output: copy_str(self.output.as_str()),
            entries,
            runtime: self.runtime,
        }
    }
}

/// How many members an action is planned for.
pub open spec fn count_action(entries: Seq<PlannedView>, action: ActionKind) -> nat
    decreases entries.len(),
{
    if entries.len() == 0 {
        0
    } else {
        count_action(entries.drop_last(), action) + (if entries.last().action == action {
            1nat
        } else {
            0
        })
    }
}

// ---------------------------------------------------------------------------------------------
// The plan for a listing
// ---------------------------------------------------------------------------------------------
/// The members that are no directories.
pub open spec fn only_files(entries: Seq<EntryView>) -> Seq<EntryView>
    decreases entries.len(),
{
    if entries.len() == 0 {
        entries
    } else if entries.last().is_dir {
        only_files(entries.drop_last())
    } else {
        only_files(entries.drop_last()).push(entries.last())
    }
}

/// The path of a member as the plan knows it.
pub open spec fn source_of(e: EntryView) -> Seq<char> {
    pathnorm::normalized(e.path)
}

/// A member that can be extracted.
pub open spec fn usable(e: EntryView) -> bool {
    source_of(e).len() > 0 && pathnorm::safe(source_of(e))
}

/// An earlier member that can be extracted has the same path.
pub open spec fn repeated(files: Seq<EntryView>, i: int) -> bool {
    exists|j: int|
        0 <= j < i && usable(#[trigger] files[j]) && source_of(files[j]) == source_of(files[i])
}

/// A member that is left out.
pub open spec fn skipped(e: EntryView, source: Seq<char>, reason: Seq<char>) -> PlannedView {
    PlannedView {
        source_path: source,
        dest_path: Seq::empty(),
        size: e.size,
        action: ActionKind::Skip,
        reason,
        meta: e.meta,
    }
}

/// What is done with file `i` before names are changed.
pub open spec fn triaged(
    files: Seq<EntryView>,
    i: int,
    filter: FilterView,
    convert_nested_7z: bool,
) -> PlannedView {
    let e = files[i];
    let src = source_of(e);
    let nested = e.format_hint == ArchiveFormat::SevenZ && convert_nested_7z;
    if src.len() == 0 {
        skipped(e, e.path, "empty member path"@)
    } else if !pathnorm::safe(src) {
        skipped(e, src, "unsafe member path"@)
    } else if repeated(files, i) {
        skipped(e, src, "duplicate member path in listing"@)
    } else if !filter.keeps(src, false) {
        skipped(e, src, "excluded by outer filter"@)
    } else {
        PlannedView {
            source_path: src,
            dest_path: Seq::empty(),
            size: e.size,
            action: if nested {
                ActionKind::ConvertNested
            } else {
                ActionKind::Passthrough
            },
            reason: if nested {
                "nested 7z → non-solid convert"@
            } else {
                "repack into non-solid outer"@
            },
            meta: e.meta,
        }
    }
}

/// What is done with the files before names are changed.
pub open spec fn triage(
    files: Seq<EntryView>,
    filter: FilterView,
    convert_nested_7z: bool,
) -> Seq<PlannedView> {
    Seq::new(files.len(), |i: int| triaged(files, i, filter, convert_nested_7z))
}

/// The paths of the members that are not left out.
pub open spec fn kept_sources(entries: Seq<PlannedView>) -> Seq<Seq<char>>
    decreases entries.len(),
{
    if entries.len() == 0 {
        Seq::empty()
    } else if entries.last().action is Skip {
        kept_sources(entries.drop_last())
    } else {
        kept_sources(entries.drop_last()).push(entries.last().source_path)
    }
}

/// The new name of a member, by the map of new names.
pub open spec fn dest_of(p: PlannedView, names: Map<Seq<char>, Seq<char>>) -> Seq<char> {
    if names.contains_key(p.source_path) {
        names[p.source_path]
    } else {
        p.source_path
    }
}

/// The member with its new name; one whose new name is not safe is left out.
pub open spec fn with_dest(p: PlannedView, names: Map<Seq<char>, Seq<char>>) -> PlannedView {
    let dest = dest_of(p, names);
    if p.action is Skip {
        p
    } else if !pathnorm::safe(dest) {
        PlannedView {
            dest_path: Seq::empty(),
            action: ActionKind::Skip,
            reason: "unsafe destination path after rename: "@ + dest,
            ..p
        }
    } else {
        PlannedView {
            dest_path: dest,
            reason: if dest != p.source_path {
                p.reason + "; renamed"@
            } else {
                p.reason
            },
            ..p
        }
    }
}

/// The plan for a listing, or why the members cannot be renamed.
pub open spec fn planned(
    entries: Seq<EntryView>,
    filter: FilterView,
    rules: Seq<RenameView>,
    convert_nested_7z: bool,
) -> std::result::Result<Seq<PlannedView>, ErrorView> {
    let first = triage(only_files(entries), filter, convert_nested_7z);
    match rename::rename_map(rules, kept_sources(first)) {
        Err(e) => Err(e),
        Ok(names) => Ok(first.map_values(|p: PlannedView| with_dest(p, names))),
    }
}

/// What a plan is made with.
pub struct PlanOptions<'a> {
    pub outer_filter: &'a MemberFilter,
    pub rename: &'a NameTransformer,
    /// Whether nested 7z archives are converted; otherwise they are copied.
    pub convert_nested_7z: bool,
}

fn skip_entry(e: &EntryMeta, source: String, reason: &str) -> (r: PlannedEntry)
    ensures
        r@ == skipped(e@, source@, reason@),
{
    let dest_path = String::new();
    assert(dest_path@ =~= Seq::<char>::empty());
    PlannedEntry {
        source_path: source,
        dest_path,
        size: e.size,
        action: ActionKind::Skip,
        reason: copy_str(reason),
        meta: e.meta,
    }
}

/// What is done with one file before names are changed; `seen` holds the paths of the earlier
/// files that can be extracted.
fn triage_one(
    e: &EntryMeta,
    filter: &MemberFilter,
    convert_nested_7z: bool,
    seen: &mut StringHashSet,
    Ghost(files): Ghost<Seq<EntryView>>,
    Ghost(i): Ghost<int>,
) -> (r: PlannedEntry)
    requires
        0 <= i < files.len(),
        files[i] == e@,
        forall|s: Seq<char>|
            old(seen)@.contains(s) <==> exists|j: int|
                0 <= j < i && usable(#[trigger] files[j]) && source_of(files[j]) == s,
    ensures
        r@ == triaged(files, i, filter@, convert_nested_7z),
        forall|s: Seq<char>|
            final(seen)@.contains(s) <==> exists|j: int|
                0 <= j < i + 1 && usable(#[trigger] files[j]) && source_of(files[j]) == s,
{
    let src = normalize_member_path(e.path.as_str());
    let ghost before = seen@;
    if chars_of(src.as_str()).len() == 0 {
        return skip_entry(e, copy_str(e.path.as_str()), "empty member path");
    }
    if !is_safe_member_path(src.as_str()) {
        return skip_entry(e, src, "unsafe member path");
    }
    let fresh = seen.insert(copy_str(src.as_str()));
    assert(usable(files[i]));
    assert forall|s: Seq<char>|
        seen@.contains(s) <==> exists|j: int|
            0 <= j < i + 1 && usable(#[trigger] files[j]) && source_of(files[j]) == s by {
        if seen@.contains(s) {
            if s == src@ {
                assert(usable(files[i]) && source_of(files[i]) == s);
            } else {
                assert(before.contains(s));
            }
        }
    }
    assert(before.contains(src@) == repeated(files, i));
    if !fresh {
        return skip_entry(e, src, "duplicate member path in listing");
    }
    if !filter.should_keep(src.as_str()) {
        return skip_entry(e, src, "excluded by outer filter");
    }
    let nested = e.format_hint == ArchiveFormat::SevenZ && convert_nested_7z;
    let dest_path = String::new();
    assert(dest_path@ =~= Seq::<char>::empty());
    PlannedEntry {
        source_path: src,
        dest_path,
        size: e.size,
        action: if nested {
            ActionKind::ConvertNested
        } else {
            ActionKind::Passthrough
        },
        reason: if nested {
            copy_str("nested 7z → non-solid convert")
        } else {
            copy_str("repack into non-solid outer")
        },
        meta: e.meta,
    }
}

/// What is done with the files before names are changed.
fn triage_all(entries: &[EntryMeta], filter: &MemberFilter, convert_nested_7z: bool) -> (r: Vec<
    PlannedEntry,
>)
    ensures
        plan_views(r@) == triage(only_files(types::entry_views(entries@)), filter@, convert_nested_7z),
{
    let ghost all = types::entry_views(entries@);
    let ghost whole = triage(only_files(all), filter@, convert_nested_7z);
    let mut out: Vec<PlannedEntry> = Vec::new();
    let mut seen = StringHashSet::new();
    let mut i: usize = 0;
    assert(all.take(0) =~= Seq::<EntryView>::empty());
    assert(plan_views(out@) =~= triage(only_files(all.take(0)), filter@, convert_nested_7z));
    while i < entries.len()
        invariant
            i <= entries.len(),
            all == types::entry_views(entries@),
            plan_views(out@) == triage(
                only_files(all.take(i as int)),
                filter@,
                convert_nested_7z,
            ),
            forall|s: Seq<char>|
                seen@.contains(s) <==> exists|j: int|
                    0 <= j < only_files(all.take(i as int)).len() && usable(
                        #[trigger] only_files(all.take(i as int))[j],
                    ) && source_of(only_files(all.take(i as int))[j]) == s,
        decreases entries.len() - i,
    {
        assert(all.take(i + 1).drop_last() =~= all.take(i as int));
        assert(all.take(i + 1).last() == entries@[i as int]@);
        if !entries[i].is_dir {
            let ghost files = only_files(all.take(i as int));
            let ghost more = files.push(entries@[i as int]@);
            assert(only_files(all.take(i + 1)) == more);
            assert forall|s: Seq<char>|
                seen@.contains(s) <==> exists|j: int|
                    0 <= j < files.len() && usable(#[trigger] more[j]) && source_of(more[j]) == s by {
                if seen@.contains(s) {
                    let j = choose|j: int|
                        0 <= j < files.len() && usable(#[trigger] files[j]) && source_of(files[j])
                            == s;
                    assert(more[j] == files[j]);
                }
                if exists|j: int|
                    0 <= j < files.len() && usable(#[trigger] more[j]) && source_of(more[j]) == s {
                    let j = choose|j: int|
                        0 <= j < files.len() && usable(#[trigger] more[j]) && source_of(more[j])
                            == s;
                    assert(more[j] == files[j]);
                }
            }
            let p = triage_one(
                &entries[i],
                filter,
                convert_nested_7z,
                &mut seen,
                Ghost(more),
                Ghost(files.len() as int),
            );
            let ghost before = out@;
            let ghost pv = p@;
            out.push(p);
            assert(plan_views(out@) =~= plan_views(before).push(pv));
            proof {
                lemma_triage_push(files, entries@[i as int]@, filter@, convert_nested_7z);
            }
        }
        i += 1;
    }
    assert(all.take(i as int) =~= all);
    out
}

/// One file more does not change what is done with the earlier ones.
proof fn lemma_triage_push(
    files: Seq<EntryView>,
    e: EntryView,
    filter: FilterView,
    convert_nested_7z: bool,
)
    ensures
        triage(files.push(e), filter, convert_nested_7z) == triage(
            files,
            filter,
            convert_nested_7z,
        ).push(triaged(files.push(e), files.len() as int, filter, convert_nested_7z)),
{
    let more = files.push(e);
    assert forall|i: int| 0 <= i < files.len() implies triaged(more, i, filter, convert_nested_7z)
        == triaged(files, i, filter, convert_nested_7z) by {
        assert(more[i] == files[i]);
        assert(repeated(more, i) == repeated(files, i)) by {
            if repeated(more, i) {
                let j = choose|j: int|
                    0 <= j < i && usable(#[trigger] more[j]) && source_of(more[j]) == source_of(
                        more[i],
                    );
                assert(more[j] == files[j]);
            }
            if repeated(files, i) {
                let j = choose|j: int|
                    0 <= j < i && usable(#[trigger] files[j]) && source_of(files[j])
                        == source_of(files[i]);
                assert(more[j] == files[j]);
            }
        }
    }
    assert(triage(more, filter, convert_nested_7z) =~= triage(
        files,
        filter,
        convert_nested_7z,
    ).push(triaged(more, files.len() as int, filter, convert_nested_7z)));
}

/// The paths of the members that are not left out.
fn kept_names(entries: &[PlannedEntry]) -> (r: Vec<String>)
    ensures
        text::texts(r@) == kept_sources(plan_views(entries@)),
{
    let ghost all = plan_views(entries@);
    let mut out: Vec<String> = Vec::new();
    let mut i: usize = 0;
    assert(all.take(0) =~= Seq::<PlannedView>::empty());
    assert(text::texts(out@) =~= Seq::<Seq<char>>::empty());
    while i < entries.len()
        invariant
            i <= entries.len(),
            all == plan_views(entries@),
            text::texts(out@) == kept_sources(all.take(i as int)),
        decreases entries.len() - i,
    {
        assert(all.take(i + 1).drop_last() =~= all.take(i as int));
        assert(all.take(i + 1).last() == entries@[i as int]@);
        if entries[i].action != ActionKind::Skip {
            let ghost before = out@;
            out.push(copy_str(entries[i].source_path.as_str()));
            assert(text::texts(out@) =~= text::texts(before).push(
                entries@[i as int].source_path@,
            ));
        }
        i += 1;
    }
    assert(all.take(i as int) =~= all);
    out
}

/// The member with its new name.
fn apply_dest(p: &PlannedEntry, names: &StringHashMap<String>) -> (r: PlannedEntry)
    ensures
        r@ == with_dest(p@, rename::map_texts(names@)),
{
    let mut q = p.clone();
    if q.action == ActionKind::Skip {
        return q;
    }
    let dest = match names.get(p.source_path.as_str()) {
        Some(d) => copy_str(d.as_str()),
        None => copy_str(p.source_path.as_str()),
    };
    assert(dest@ == dest_of(p@, rename::map_texts(names@)));
    if !is_safe_member_path(dest.as_str()) {
        q.action = ActionKind::Skip;
        q.reason = concat2("unsafe destination path after rename: ", dest.as_str());
        q.dest_path = String::new();
        assert(q.dest_path@ =~= Seq::<char>::empty());
        return q;
    }
    if !same_text(dest.as_str(), p.source_path.as_str()) {
        q.reason = concat2(p.reason.as_str(), "; renamed");
    }
    q.dest_path = dest;
    q
}

/// Makes the plan for the listing of an outer archive.
pub fn build_plan(input: String, output: String, entries: &[EntryMeta], opts: PlanOptions<'_>) -> (r:
    Result<ConversionPlan>)
    ensures
        match r {
            Ok(plan) => plan.input@ == input@ && plan.output@ == output@ && plan.runtime == (
            RuntimeStats {
                nested_converted: 0,
                nested_skipped: 0,
                passthrough_written: 0,
                passthrough_skipped: 0,
            }) && planned(
                types::entry_views(entries@),
                opts.outer_filter@,
                opts.rename@,
                opts.convert_nested_7z,
            ) == Ok::<Seq<PlannedView>, ErrorView>(plan_views(plan.entries@)),
            Err(e) => planned(
                types::entry_views(entries@),
                opts.outer_filter@,
                opts.rename@,
                opts.convert_nested_7z,
            ) == Err::<Seq<PlannedView>, ErrorView>(e@),
        },
{
    let first = triage_all(entries, opts.outer_filter, opts.convert_nested_7z);
    let names = kept_names(first.as_slice());
    let map = match opts.rename.transform_all(names.as_slice()) {
        Ok(m) => m,
        Err(e) => {
            return Err(e);
        },
    };
    let ghost views = plan_views(first@);
    let ghost dests = rename::map_texts(map@);
    let ghost whole = views.map_values(|p: PlannedView| with_dest(p, dests));
    let mut out: Vec<PlannedEntry> = Vec::new();
    let mut i: usize = 0;
    assert(plan_views(out@) =~= whole.take(0));
    while i < first.len()
        invariant
            i <= first.len(),
            views == plan_views(first@),
            dests == rename::map_texts(map@),
            whole == views.map_values(|p: PlannedView| with_dest(p, dests)),
            plan_views(out@) == whole.take(i as int),
        decreases first.len() - i,
    {
        let p = apply_dest(&first[i], &map);
        let ghost before = out@;
        let ghost pv = p@;
        assert(whole[i as int] == pv);
        out.push(p);
        assert(plan_views(out@) =~= plan_views(before).push(pv));
        i += 1;
        assert(plan_views(out@) =~= whole.take(i as int));
    }
    assert(whole.take(i as int) =~= whole);
    Ok(ConversionPlan { input, output, entries: out, runtime: RuntimeStats::default() })
}

// ---------------------------------------------------------------------------------------------
// Showing a plan
// ---------------------------------------------------------------------------------------------
/// The word for an action.
pub open spec fn action_word(action: ActionKind) -> Seq<char> {
    match action {
        ActionKind::Skip => "SKIP"@,
        ActionKind::Passthrough => "COPY"@,
        ActionKind::ConvertNested => "CONVERT"@,
    }
}

/// The line that shows one member.
pub open spec fn entry_line(e: PlannedView) -> Seq<char> {
    let names = if e.source_path == e.dest_path {
        e.source_path
    } else {
        e.source_path + " -> "@ + e.dest_path
    };
    "  ["@ + action_word(e.action) + "] "@ + names + " ("@ + text::number_text(e.size as nat)
        + " bytes) — "@ + e.reason + "\n"@
}

/// The lines that show the members.
pub open spec fn entry_lines(entries: Seq<PlannedView>) -> Seq<char>
    decreases entries.len(),
{
    if entries.len() == 0 {
        Seq::empty()
    } else {
        entry_lines(entries.drop_last()) + entry_line(entries.last())
    }
}

/// The text that shows a plan.
pub open spec fn plan_text(input: Seq<char>, output: Seq<char>, entries: Seq<PlannedView>) -> Seq<
    char,
> {
    "Plan: "@ + input + " -> "@ + output + "\n"@ + "  nested converts: "@ + text::number_text(
        count_action(entries, ActionKind::ConvertNested),
    ) + "  passthrough: "@ + text::number_text(count_action(entries, ActionKind::Passthrough))
        + "  skipped: "@ + text::number_text(count_action(entries, ActionKind::Skip)) + "\n"@
        + entry_lines(entries)
}

impl ConversionPlan {
    fn count(&self, action: ActionKind) -> (r: usize)
        ensures
            r == count_action(plan_views(self.entries@), action),
    {
        let ghost all = plan_views(self.entries@);
        let mut n: usize = 0;
        let mut i: usize = 0;
        assert(all.take(0) =~= Seq::<PlannedView>::empty());
        while i < self.entries.len()
            invariant
                n <= i <= self.entries.len(),
                all == plan_views(self.entries@),
                n == count_action(all.take(i as int), action),
            decreases self.entries.len() - i,
        {
            assert(all.take(i + 1).drop_last() =~= all.take(i as int));
            assert(all.take(i + 1).last() == self.entries@[i as int]@);
            if self.entries[i].action == action {
                n += 1;
            }
            i += 1;
        }
        assert(all.take(i as int) =~= all);
        n
    }

    /// The paths of the members that are needed: those that are not left out.
    pub fn needed_members(&self) -> (r: Vec<String>)
        ensures
            text::texts(r@) == kept_sources(plan_views(self.entries@)),
    {
        kept_names(self.entries.as_slice())
    }

    /// How many archives are converted.
    pub fn nested_count(&self) -> (r: usize)
        ensures
            r == count_action(plan_views(self.entries@), ActionKind::ConvertNested),
    {
        self.count(ActionKind::ConvertNested)
    }

    /// How many members are copied.
    pub fn passthrough_count(&self) -> (r: usize)
        ensures
            r == count_action(plan_views(self.entries@), ActionKind::Passthrough),
    {
        self.count(ActionKind::Passthrough)
    }

    /// How many members are left out.
    pub fn skip_count(&self) -> (r: usize)
        ensures
            r == count_action(plan_views(self.entries@), ActionKind::Skip),
    {
        self.count(ActionKind::Skip)
    }

    /// The text that shows the plan.
    pub fn render(&self) -> (r: String)
        ensures
            r@ == plan_text(self.input@, self.output@, plan_views(self.entries@)),
    {
        let mut s = concat5("Plan: ", self.input.as_str(), " -> ", self.output.as_str(), "\n");
        s.append("  nested converts: ");
        s.append(show_usize(self.nested_count()).as_str());
        s.append("  passthrough: ");
        s.append(show_usize(self.passthrough_count()).as_str());
        s.append("  skipped: ");
        s.append(show_usize(self.skip_count()).as_str());
        s.append("\n");
        let ghost head = s@;
        let ghost all = plan_views(self.entries@);
        let mut i: usize = 0;
        assert(all.take(0) =~= Seq::<PlannedView>::empty());
        assert(s@ =~= head + Seq::<char>::empty());
        while i < self.entries.len()
            invariant
                i <= self.entries.len(),
                all == plan_views(self.entries@),
                s@ == head + entry_lines(all.take(i as int)),
            decreases self.entries.len() - i,
        {
            assert(all.take(i + 1).drop_last() =~= all.take(i as int));
            assert(all.take(i + 1).last() == self.entries@[i as int]@);
            let line = self.entries[i].line();
            let ghost before = entry_lines(all.take(i as int));
            s.append(line.as_str());
            assert(s@ =~= head + (before + line@));
            i += 1;
        }
        assert(all.take(i as int) =~= all);
        s
    }
}

impl PlannedEntry {
    /// The line that shows this member.
    pub fn line(&self) -> (r: String)
        ensures
            r@ == entry_line(self@),
    {
        let word = match self.action {
            ActionKind::Skip => "SKIP",
            ActionKind::Passthrough => "COPY",
            ActionKind::ConvertNested => "CONVERT",
        };
        let names = if same_text(self.source_path.as_str(), self.dest_path.as_str()) {
            copy_str(self.source_path.as_str())
        } else {
            text::concat3(self.source_path.as_str(), " -> ", self.dest_path.as_str())
        };
        let mut s = concat5("  [", word, "] ", names.as_str(), " (");
        s.append(show_u64(self.size).as_str());
        s.append(" bytes) — ");
        s.append(self.reason.as_str());
        s.append("\n");
        s
    }
}

// ---------------------------------------------------------------------------------------------
// Laws
// ---------------------------------------------------------------------------------------------
/// Law: every member is counted once: as converted, as copied or as left out.
pub proof fn law_counts_add_up(entries: Seq<PlannedView>)
    ensures
        count_action(entries, ActionKind::ConvertNested) + count_action(
            entries,
            ActionKind::Passthrough,
        ) + count_action(entries, ActionKind::Skip) == entries.len(),
    decreases entries.len(),
{
    if entries.len() > 0 {
        law_counts_add_up(entries.drop_last());
    }
}

/// Law: a plan has one entry for each file of the listing, in the same order, with its size and
/// its times and attributes.
pub proof fn law_plan_follows_listing(
    entries: Seq<EntryView>,
    filter: FilterView,
    rules: Seq<RenameView>,
    convert_nested_7z: bool,
)
    requires
        planned(entries, filter, rules, convert_nested_7z) is Ok,
    ensures
        ({
            let plan = planned(entries, filter, rules, convert_nested_7z)->Ok_0;
            let files = only_files(entries);
            &&& plan.len() == files.len()
            &&& forall|i: int|
                0 <= i < plan.len() ==> (#[trigger] plan[i]).size == files[i].size
                    && plan[i].meta == files[i].meta
        }),
{
}

/// Law: what is not left out goes to a safe destination, comes from a safe source, and passed
/// the filter.
pub proof fn law_planned_paths_are_safe(
    entries: Seq<EntryView>,
    filter: FilterView,
    rules: Seq<RenameView>,
    convert_nested_7z: bool,
    i: int,
)
    requires
        planned(entries, filter, rules, convert_nested_7z) is Ok,
        0 <= i < planned(entries, filter, rules, convert_nested_7z)->Ok_0.len(),
        planned(entries, filter, rules, convert_nested_7z)->Ok_0[i].action !is Skip,
    ensures
        ({
            let p = planned(entries, filter, rules, convert_nested_7z)->Ok_0[i];
            &&& pathnorm::safe(p.dest_path)
            &&& pathnorm::safe(p.source_path)
            &&& filter.keeps(p.source_path, false)
        }),
{
}

/// A member that is not left out is among the kept ones.
proof fn lemma_kept(entries: Seq<PlannedView>, i: int) -> (k: int)
    requires
        0 <= i < entries.len(),
        entries[i].action !is Skip,
    ensures
        0 <= k < kept_sources(entries).len(),
        kept_sources(entries)[k] == entries[i].source_path,
    decreases entries.len(),
{
    if i == entries.len() - 1 {
        kept_sources(entries).len() - 1
    } else {
        let t = entries.drop_last();
        assert(t[i] == entries[i]);
        lemma_kept(t, i)
    }
}

/// Law: no two members that are not left out have the same source, and none the same destination.
pub proof fn law_destinations_are_distinct(
    entries: Seq<EntryView>,
    filter: FilterView,
    rules: Seq<RenameView>,
    convert_nested_7z: bool,
    i: int,
    j: int,
)
    requires
        planned(entries, filter, rules, convert_nested_7z) is Ok,
        0 <= i < j < planned(entries, filter, rules, convert_nested_7z)->Ok_0.len(),
        planned(entries, filter, rules, convert_nested_7z)->Ok_0[i].action !is Skip,
        planned(entries, filter, rules, convert_nested_7z)->Ok_0[j].action !is Skip,
    ensures
        ({
            let plan = planned(entries, filter, rules, convert_nested_7z)->Ok_0;
            &&& plan[i].source_path != plan[j].source_path
            &&& plan[i].dest_path != plan[j].dest_path
        }),
{
    let files = only_files(entries);
    let first = triage(files, filter, convert_nested_7z);
    let kept = kept_sources(first);
    let names = rename::rename_map(rules, kept)->Ok_0;
    let plan = planned(entries, filter, rules, convert_nested_7z)->Ok_0;
    assert(first[i].action !is Skip && first[j].action !is Skip);
    assert(first[i].source_path == source_of(files[i]));
    assert(first[j].source_path == source_of(files[j]));
    assert(usable(files[i]));
    assert(!repeated(files, j));
    assert(plan[i].source_path != plan[j].source_path);
    rename::law_renaming_is_injective(rules, kept);
    let a = lemma_kept(first, i);
    let b = lemma_kept(first, j);
    pathnorm::law_normalize_twice(files[i].path);
    pathnorm::law_normalize_twice(files[j].path);
    assert(names.contains_key(pathnorm::normalized(kept[a])));
    assert(names.contains_key(pathnorm::normalized(kept[b])));
    assert(names.contains_key(first[i].source_path));
    assert(names.contains_key(first[j].source_path));
}

/// Law: the files of two listings, one behind the other, are the files of both; a member alone is
/// a file unless it is a directory.
pub proof fn law_only_directories_are_passed_over(
    a: Seq<EntryView>,
    b: Seq<EntryView>,
    e: EntryView,
)
    ensures
        only_files(a + b) == only_files(a) + only_files(b),
        e.is_dir ==> only_files(seq![e]) == Seq::<EntryView>::empty(),
        !e.is_dir ==> only_files(seq![e]) == seq![e],
    decreases b.len(),
{
    assert(seq![e].drop_last() =~= Seq::<EntryView>::empty());
    assert(only_files(Seq::<EntryView>::empty()) == Seq::<EntryView>::empty());
    assert(Seq::<EntryView>::empty().push(e) =~= seq![e]);
    if b.len() == 0 {
        assert(a + b =~= a);
        assert(only_files(a) + only_files(b) =~= only_files(a));
    } else {
        assert((a + b).drop_last() =~= a + b.drop_last());
        assert((a + b).last() == b.last());
        law_only_directories_are_passed_over(a, b.drop_last(), e);
        assert(only_files(a + b) =~= only_files(a) + only_files(b));
    }
}

/// An earlier member that can be extracted has the same path in normal form.
spec fn seen_before(files: Seq<EntryView>, i: int) -> bool {
    exists|j: int|
        0 <= j < i && pathnorm::normalized((#[trigger] files[j]).path).len() > 0 && pathnorm::safe(
            pathnorm::normalized(files[j].path),
        ) && pathnorm::normalized(files[j].path) == pathnorm::normalized(files[i].path)
}

/// The new name of a member that passed.
proof fn lemma_new_name(
    entries: Seq<EntryView>,
    filter: FilterView,
    rules: Seq<RenameView>,
    convert_nested_7z: bool,
    i: int,
)
    requires
        planned(entries, filter, rules, convert_nested_7z) is Ok,
        0 <= i < only_files(entries).len(),
        triaged(only_files(entries), i, filter, convert_nested_7z).action !is Skip,
    ensures
        ({
            let first = triage(only_files(entries), filter, convert_nested_7z);
            let names = rename::rename_map(rules, kept_sources(first))->Ok_0;
            dest_of(first[i], names) == rename::renamed(rules, only_files(entries)[i].path)
        }),
{
    let files = only_files(entries);
    let first = triage(files, filter, convert_nested_7z);
    let kept = kept_sources(first);
    let names = rename::rename_map(rules, kept)->Ok_0;
    let src = source_of(files[i]);
    assert(first[i].source_path == src);
    rename::law_renaming_is_injective(rules, kept);
    let k = lemma_kept(first, i);
    pathnorm::law_normalize_twice(files[i].path);
    assert(names.contains_key(pathnorm::normalized(kept[k])));
    assert(names.contains_key(src));
    assert(rename::renamed(rules, src) == rename::renamed(rules, files[i].path));
}

/// Law: in a plan that was made, a member that is not left out is converted exactly if it is a 7z
/// archive and converting nested archives is asked for, and else copied, whatever its size. It
/// comes from its path in normal form and goes to what the rules make of it.
pub proof fn law_nested_archives_are_converted(
    entries: Seq<EntryView>,
    filter: FilterView,
    rules: Seq<RenameView>,
    convert_nested_7z: bool,
    i: int,
)
    requires
        planned(entries, filter, rules, convert_nested_7z) is Ok,
        0 <= i < planned(entries, filter, rules, convert_nested_7z)->Ok_0.len(),
        planned(entries, filter, rules, convert_nested_7z)->Ok_0[i].action !is Skip,
    ensures
        ({
            let p = planned(entries, filter, rules, convert_nested_7z)->Ok_0[i];
            let e = only_files(entries)[i];
            let nested = convert_nested_7z && e.format_hint == ArchiveFormat::SevenZ;
            let why = if nested {
                "nested 7z → non-solid convert"@
            } else {
                "repack into non-solid outer"@
            };
            &&& p.action is ConvertNested <==> nested
            &&& p.action is Passthrough <==> !nested
            &&& p.source_path == pathnorm::normalized(e.path)
            &&& p.dest_path == rename::renamed(rules, e.path)
            &&& p.reason == if p.dest_path == p.source_path {
                why
            } else {
                why + "; renamed"@
            }
        }),
{
    lemma_new_name(entries, filter, rules, convert_nested_7z, i);
}

/// Law: in a plan that was made, a file is left out exactly if its path is empty or not safe, an
/// earlier file has the same path, the filter drops it, or its new name is not safe; and the plan
/// says which.
pub proof fn law_left_out_only_for_a_reason(
    entries: Seq<EntryView>,
    filter: FilterView,
    rules: Seq<RenameView>,
    convert_nested_7z: bool,
    i: int,
)
    requires
        planned(entries, filter, rules, convert_nested_7z) is Ok,
        0 <= i < planned(entries, filter, rules, convert_nested_7z)->Ok_0.len(),
    ensures
        ({
            let p = planned(entries, filter, rules, convert_nested_7z)->Ok_0[i];
            let files = only_files(entries);
            let path = pathnorm::normalized(files[i].path);
            let usable = path.len() > 0 && pathnorm::safe(path);
            let repeated = exists|j: int|
                0 <= j < i && pathnorm::normalized((#[trigger] files[j]).path).len() > 0
                    && pathnorm::safe(pathnorm::normalized(files[j].path)) && pathnorm::normalized(
                    files[j].path,
                ) == path;
            let new_name = rename::renamed(rules, files[i].path);
            &&& p.action is Skip <==> !usable || repeated || !filter.keeps(path, false)
                || !pathnorm::safe(new_name)
            &&& path.len() == 0 ==> p.reason == "empty member path"@
            &&& path.len() > 0 && !usable ==> p.reason == "unsafe member path"@
            &&& usable && repeated ==> p.reason == "duplicate member path in listing"@
            &&& usable && !repeated && !filter.keeps(path, false) ==> p.reason
                == "excluded by outer filter"@
            &&& usable && !repeated && filter.keeps(path, false) && !pathnorm::safe(new_name)
                ==> p.reason == "unsafe destination path after rename: "@ + new_name
        }),
{
    let files = only_files(entries);
    let first = triaged(files, i, filter, convert_nested_7z);
    if first.action !is Skip {
        lemma_new_name(entries, filter, rules, convert_nested_7z, i);
    }
    assert(repeated(files, i) == seen_before(files, i)) by {
        if repeated(files, i) {
            let j = choose|j: int|
                0 <= j < i && usable(#[trigger] files[j]) && source_of(files[j]) == source_of(
                    files[i],
                );
            assert(pathnorm::normalized(files[j].path).len() > 0);
        }
        if seen_before(files, i) {
            let j = choose|j: int|
                0 <= j < i && pathnorm::normalized((#[trigger] files[j]).path).len() > 0
                    && pathnorm::safe(pathnorm::normalized(files[j].path)) && pathnorm::normalized(
                    files[j].path,
                ) == pathnorm::normalized(files[i].path);
            assert(usable(files[j]));
        }
    }
}

/// Law: a plan is made exactly if the members that would not be left out keep names of their own;
/// else the plan fails with the mistake in their names.
pub proof fn law_when_a_plan_is_made(
    entries: Seq<EntryView>,
    filter: FilterView,
    rules: Seq<RenameView>,
    convert_nested_7z: bool,
)
    ensures
        ({
            let kept = kept_sources(triage(only_files(entries), filter, convert_nested_7z));
            let r = planned(entries, filter, rules, convert_nested_7z);
            &&& r is Ok <==> rename::renames_apart(rules, kept)
            &&& r is Err ==> rename::rename_map(rules, kept) is Err && r->Err_0
                == rename::rename_map(rules, kept)->Err_0
        }),
{
    let kept = kept_sources(triage(only_files(entries), filter, convert_nested_7z));
    rename::law_renaming_succeeds_when_names_stay_apart(rules, kept);
}

/// Law: a member that is left out goes nowhere; it is told by its path in normal form, or as it was
/// listed where nothing is left of that.
pub proof fn law_left_out_members_go_nowhere(
    entries: Seq<EntryView>,
    filter: FilterView,
    rules: Seq<RenameView>,
    convert_nested_7z: bool,
    i: int,
)
    requires
        planned(entries, filter, rules, convert_nested_7z) is Ok,
        0 <= i < planned(entries, filter, rules, convert_nested_7z)->Ok_0.len(),
        planned(entries, filter, rules, convert_nested_7z)->Ok_0[i].action is Skip,
    ensures
        ({
            let p = planned(entries, filter, rules, convert_nested_7z)->Ok_0[i];
            let path = only_files(entries)[i].path;
            let norm = pathnorm::normalized(path);
            &&& p.dest_path.len() == 0
            &&& p.source_path == if norm.len() > 0 {
                norm
            } else {
                path
            }
        }),
{
}

} // verus!
