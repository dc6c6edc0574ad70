//! Names of staged files, the search for extracted members, and what listings say of them.

use crate::archive::types;
use crate::archive::types::{ArchiveBackend, EntryMeta, EntryView};
use crate::codec::sevenz_header::FileMeta;
use crate::error::{Error, ErrorView, Result};
use crate::util::order;
use crate::util::order::insert_sorted;
use crate::util::pathnorm;
use crate::util::pathnorm::{is_safe_member_path, normalize_member_path, tail_after};
use crate::util::text;
use crate::util::text::{
    chars_of, concat2, concat3, concat4, copy_str, same_text, show_padded, show_usize, string_of,
};
use vstd::prelude::*;

verus! {

// ---------------------------------------------------------------------------------------------
// Names
// ---------------------------------------------------------------------------------------------
/// `s` with two underscores for each slash.
pub open spec fn flat(s: Seq<char>) -> Seq<char>
    decreases s.len(),
{
    if s.len() == 0 {
        s
    } else if s.last() == '/' {
        flat(s.drop_last()) + seq!['_', '_']
    } else {
        flat(s.drop_last()).push(s.last())
    }
}

fn flat_name(s: &str) -> (r: String)
    ensures
        r@ == flat(s@),
{
    let v = chars_of(s);
    let mut out = String::new();
    let mut i: usize = 0;
    assert(v@.take(0) =~= Seq::<char>::empty());
    assert(out@ =~= Seq::<char>::empty());
    while i < v.len()
        invariant
            i <= v.len(),
            out@ == flat(v@.take(i as int)),
        decreases v.len() - i,
    {
        assert(v@.take(i + 1).drop_last() =~= v@.take(i as int));
        let ghost before = out@;
        if v[i] == '/' {
            out.push('_');
            out.push('_');
            assert(out@ =~= before + seq!['_', '_']);
        } else {
            out.push(v[i]);
        }
        i += 1;
    }
    assert(v@.take(i as int) =~= v@);
    out
}

/// The name of the file in which a copied member is staged: its number and its destination, with
/// no directories. There is none for a destination that is not safe.
pub fn passthrough_temp_name(index: usize, dest_path: &str) -> (r: Result<String>)
    ensures
        match r {
            Ok(name) => pathnorm::safe(dest_path@) && name@ == text::padded(index as nat, 4) + "_"@
                + flat(dest_path@),
            Err(e) => !pathnorm::safe(dest_path@) && e@ == ErrorView::Other(
                "unsafe destination path: "@ + dest_path@,
            ),
        },
{
    if !is_safe_member_path(dest_path) {
        return Err(unsafe_destination(dest_path));
    }
    Ok(concat3(show_padded(index, 4).as_str(), "_", flat_name(dest_path).as_str()))
}

/// The error for a destination that is not safe.
pub fn unsafe_destination(dest_path: &str) -> (r: Error)
    ensures
        r@ == ErrorView::Other("unsafe destination path: "@ + dest_path@),
{
    Error::Other(concat2("unsafe destination path: ", dest_path))
}

/// The name of the file in which a nested archive is staged.
pub fn nested_source_name(index: usize) -> (r: String)
    ensures
        r@ == "pre-"@ + text::padded(index as nat, 4) + ".7z"@,
{
    concat3("pre-", show_padded(index, 4).as_str(), ".7z")
}

/// The name of the directory in which a nested archive is converted.
pub fn nested_work_name(index: usize) -> (r: String)
    ensures
        r@ == "nested-"@ + text::padded(index as nat, 4),
{
    concat2("nested-", show_padded(index, 4).as_str())
}

/// Where a destination is staged: its normal form.
pub fn staging_path_for(dest_member: &str) -> (r: String)
    ensures
        r@ == pathnorm::normalized(dest_member@),
{
    normalize_member_path(dest_member)
}

/// The size by which a nested archive is scheduled: the listed one, else that of the staged file,
/// else zero.
pub fn scheduled_size(listed: u64, on_disk: Option<u64>) -> (r: u64)
    ensures
        r == (if listed > 0 {
            listed
        } else if on_disk is Some {
            on_disk->0
        } else {
            0
        }),
{
    if listed > 0 {
        return listed;
    }
    match on_disk {
        Some(n) => n,
        None => 0,
    }
}

// ---------------------------------------------------------------------------------------------
// Times and attributes
// ---------------------------------------------------------------------------------------------
/// The number of the last listed member with the path `key`, from those before `n`.
pub open spec fn last_with_path(listed: Seq<EntryView>, key: Seq<char>, n: int) -> Option<int>
    decreases n,
{
    if n <= 0 {
        None
    } else if pathnorm::normalized(listed[n - 1].path) == key {
        Some(n - 1)
    } else {
        last_with_path(listed, key, n - 1)
    }
}

/// A member with what a second listing knows of its times and attributes; where both know
/// something, the second listing counts.
pub open spec fn enriched(e: EntryView, listed: Seq<EntryView>) -> EntryView {
    match last_with_path(listed, pathnorm::normalized(e.path), listed.len() as int) {
        None => e,
        Some(k) => EntryView { meta: listed[k].meta.merged(e.meta), ..e },
    }
}

/// The times and attributes of the last listed member with a path.
fn meta_of(listed: &[EntryMeta], keys: &[String], key: &str) -> (r: Option<FileMeta>)
    requires
        keys.len() == listed.len(),
        forall|i: int|
            0 <= i < keys.len() ==> (#[trigger] keys[i])@ == pathnorm::normalized(listed[i].path@),
    ensures
        match last_with_path(types::entry_views(listed@), key@, listed.len() as int) {
            None => r is None,
            Some(k) => r == Some(listed[k].meta) && 0 <= k < listed.len(),
        },
{
    let ghost views = types::entry_views(listed@);
    let mut n: usize = listed.len();
    while n > 0
        invariant
            n <= listed.len(),
            keys.len() == listed.len(),
            views == types::entry_views(listed@),
            forall|i: int|
                0 <= i < keys.len() ==> (#[trigger] keys[i])@ == pathnorm::normalized(
                    listed[i].path@,
                ),
            last_with_path(views, key@, listed.len() as int) == last_with_path(
                views,
                key@,
                n as int,
            ),
        decreases n,
    {
        assert(views[n - 1] == listed[n - 1]@);
        if same_text(keys[n - 1].as_str(), key) {
            return Some(listed[n - 1].meta);
        }
        n -= 1;
    }
    None
}

/// Completes times and attributes of `entries` from a second listing of the same archive.
pub fn enrich_entry_meta(entries: &[EntryMeta], listed: &[EntryMeta]) -> (r: Vec<EntryMeta>)
    ensures
        types::entry_views(r@) == types::entry_views(entries@).map_values(
            |e: EntryView| enriched(e, types::entry_views(listed@)),
        ),
{
    let mut keys: Vec<String> = Vec::new();
    let mut i: usize = 0;
    while i < listed.len()
        invariant
            i <= listed.len(),
            keys.len() == i,
            forall|k: int|
                0 <= k < i ==> (#[trigger] keys[k])@ == pathnorm::normalized(listed[k].path@),
        decreases listed.len() - i,
    {
        keys.push(normalize_member_path(listed[i].path.as_str()));
        i += 1;
    }
    let ghost views = types::entry_views(listed@);
    let ghost whole = types::entry_views(entries@).map_values(|e: EntryView| enriched(e, views));
    let mut out: Vec<EntryMeta> = Vec::new();
    let mut i: usize = 0;
    assert(types::entry_views(out@) =~= whole.take(0));
    while i < entries.len()
        invariant
            i <= entries.len(),
            keys.len() == listed.len(),
            forall|k: int|
                0 <= k < keys.len() ==> (#[trigger] keys[k])@ == pathnorm::normalized(
                    listed[k].path@,
                ),
            views == types::entry_views(listed@),
            whole == types::entry_views(entries@).map_values(|e: EntryView| enriched(e, views)),
            types::entry_views(out@) == whole.take(i as int),
        decreases entries.len() - i,
    {
        let mut e = entries[i].clone();
        let key = normalize_member_path(e.path.as_str());
        let found = meta_of(listed, keys.as_slice(), key.as_str());
        if let Some(m) = found {
            let mut known = m;
            known.merge_missing(&e.meta);
            e.meta = known;
        }
        let ghost ev = e@;
        assert(types::entry_views(entries@)[i as int] == entries@[i as int]@);
        assert(ev == enriched(entries@[i as int]@, views));
        let ghost before = out@;
        out.push(e);
        assert(types::entry_views(out@) =~= types::entry_views(before).push(ev));
        i += 1;
        assert(types::entry_views(out@) =~= whole.take(i as int));
    }
    assert(whole.take(i as int) =~= whole);
    out
}

// ---------------------------------------------------------------------------------------------
// The search for an extracted member
// ---------------------------------------------------------------------------------------------
/// A regular file below the directory into which members were extracted.
pub struct ExtractedFile {
    /// Its path below that directory.
    pub rel: String,
    /// Its name, where that is text.
    pub name: Option<String>,
}

/// Where an extracted member was found.
#[derive(Debug, Clone, Copy, PartialEq, Eq, Structural)]
pub enum ExtractedAt {
    /// Under its own path.
    Direct,
    /// It is the file with this number.
    File(usize),
}

/// The file has the path `norm` when both are written the same way.
pub open spec fn has_path(f: ExtractedFile, norm: Seq<char>) -> bool {
    pathnorm::normalized(text::swapped(f.rel@, '\\', '/')) == norm
}

/// The file is named `base`.
pub open spec fn has_name(f: ExtractedFile, base: Seq<char>) -> bool {
    f.name is Some && f.name->0@ == base
}

/// The number of the first file with the path `norm`, from number `i` on.
pub open spec fn first_with_path(files: Seq<ExtractedFile>, norm: Seq<char>, i: int) -> Option<int>
    decreases files.len() - i,
{
    if i < 0 || i >= files.len() {
        None
    } else if has_path(files[i], norm) {
        Some(i)
    } else {
        first_with_path(files, norm, i + 1)
    }
}

/// The numbers of the files that are named `base`.
pub open spec fn with_name(files: Seq<ExtractedFile>, base: Seq<char>) -> Seq<int>
    decreases files.len(),
{
    if files.len() == 0 {
        Seq::empty()
    } else if has_name(files.last(), base) {
        with_name(files.drop_last(), base).push(files.len() - 1)
    } else {
        with_name(files.drop_last(), base)
    }
}

/// Where the member was found. Its own path counts first, then the first file with an equal path,
/// then a file with its name, if there is only one.
pub open spec fn extracted_at(member: Seq<char>, direct: bool, files: Seq<ExtractedFile>) -> std::result::Result<
    ExtractedAt,
    ErrorView,
> {
    let norm = pathnorm::normalized(member);
    let base = pathnorm::after_last(norm, '/');
    let hits = with_name(files, base);
    if !pathnorm::safe(norm) {
        Err(ErrorView::Other("unsafe extracted member path: "@ + norm))
    } else if direct {
        Ok(ExtractedAt::Direct)
    } else if first_with_path(files, norm, 0) is Some {
        Ok(ExtractedAt::File(first_with_path(files, norm, 0)->0 as usize))
    } else if hits.len() == 1 {
        Ok(ExtractedAt::File(hits[0] as usize))
    } else if hits.len() == 0 {
        Err(ErrorView::EntryNotFound(member))
    } else {
        Err(
            ErrorView::Other(
                "ambiguous extracted member '"@ + member + "': "@ + text::number_text(hits.len())
                    + " files named '"@ + base + "'"@,
            ),
        )
    }
}

/// The path below the directory at which a member is looked for first.
pub fn extracted_path(member: &str) -> (r: Result<String>)
    ensures
        match r {
            Ok(p) => p@ == pathnorm::normalized(member@) && pathnorm::safe(p@),
            Err(e) => !pathnorm::safe(pathnorm::normalized(member@)) && e@ == ErrorView::Other(
                "unsafe extracted member path: "@ + pathnorm::normalized(member@),
            ),
        },
{
    let norm = normalize_member_path(member);
    if !is_safe_member_path(norm.as_str()) {
        return Err(Error::Other(concat2("unsafe extracted member path: ", norm.as_str())));
    }
    Ok(norm)
}

fn path_is(f: &ExtractedFile, norm: &str) -> (r: bool)
    ensures
        r == has_path(*f, norm@),
{
    let rel = string_of(
        text::swap_chars(chars_of(f.rel.as_str()).as_slice(), '\\', '/').as_slice(),
    );
    same_text(normalize_member_path(rel.as_str()).as_str(), norm)
}

fn name_is(f: &ExtractedFile, base: &str) -> (r: bool)
    ensures
        r == has_name(*f, base@),
{
    match &f.name {
        Some(n) => same_text(n.as_str(), base),
        None => false,
    }
}

/// Finds an extracted member. `direct` says whether there is a regular file at its own path;
/// `files` are the regular files below the directory.
pub fn find_extracted(member: &str, direct: bool, files: &[ExtractedFile]) -> (r: Result<
    ExtractedAt,
>)
    ensures
        match r {
            Ok(at) => extracted_at(member@, direct, files@) == Ok::<ExtractedAt, ErrorView>(at),
            Err(e) => extracted_at(member@, direct, files@) == Err::<ExtractedAt, ErrorView>(e@),
        },
{
    let norm = match extracted_path(member) {
        Ok(n) => n,
        Err(e) => {
            return Err(e);
        },
    };
    if direct {
        return Ok(ExtractedAt::Direct);
    }
    let chars = chars_of(norm.as_str());
    let base = string_of(tail_after(chars.as_slice(), '/'));
    let mut i: usize = 0;
    while i < files.len()
        invariant
            i <= files.len(),
            first_with_path(files@, norm@, 0) == first_with_path(files@, norm@, i as int),
            norm@ == pathnorm::normalized(member@),
            pathnorm::safe(norm@),
            !direct,
        decreases files.len() - i,
    {
        if path_is(&files[i], norm.as_str()) {
            return Ok(ExtractedAt::File(i));
        }
        i += 1;
    }
    let mut hits: usize = 0;
    let mut hit: usize = 0;
    let mut i: usize = 0;
    assert(files@.take(0) =~= Seq::<ExtractedFile>::empty());
    while i < files.len()
        invariant
            hits <= i <= files.len(),
            hits == with_name(files@.take(i as int), base@).len(),
            hits == 1 ==> with_name(files@.take(i as int), base@)[0] == hit,
        decreases files.len() - i,
    {
        assert(files@.take(i + 1).drop_last() =~= files@.take(i as int));
        assert(files@.take(i + 1).last() == files@[i as int]);
        if name_is(&files[i], base.as_str()) {
            hits += 1;
            hit = i;
        }
        i += 1;
    }
    assert(files@.take(i as int) =~= files@);
    if hits == 1 {
        return Ok(ExtractedAt::File(hit));
    }
    if hits == 0 {
        return Err(Error::EntryNotFound(copy_str(member)));
    }
    let mut message = concat4(
        "ambiguous extracted member '",
        member,
        "': ",
        show_usize(hits).as_str(),
    );
    message.append(" files named '");
    message.append(base.as_str());
    message.append("'");
    Err(Error::Other(message))
}

// ---------------------------------------------------------------------------------------------
// Sorted listings
// ---------------------------------------------------------------------------------------------
/// The paths of the files in a listing, in the order of the listing.
pub open spec fn listed_paths(entries: Seq<EntryView>) -> Seq<Seq<char>>
    decreases entries.len(),
{
    if entries.len() == 0 {
        Seq::empty()
    } else if entries.last().is_dir {
        listed_paths(entries.drop_last())
    } else {
        listed_paths(entries.drop_last()).push(pathnorm::normalized(entries.last().path))
    }
}

/// The paths of the files in a listing, sorted.
pub fn sorted_file_paths(entries: &[EntryMeta]) -> (r: Vec<String>)
    ensures
        order::sorted_texts(text::texts(r@)),
        text::texts(r@).to_multiset() =~= listed_paths(
            types::entry_views(entries@),
        ).to_multiset(),
{
    let ghost all = types::entry_views(entries@);
    let mut out: Vec<String> = Vec::new();
    let mut i: usize = 0;
    assert(all.take(0) =~= Seq::<EntryView>::empty());
    assert(text::texts(out@) =~= listed_paths(all.take(0)));
    while i < entries.len()
        invariant
            i <= entries.len(),
            all == types::entry_views(entries@),
            order::sorted_texts(text::texts(out@)),
            text::texts(out@).to_multiset() =~= listed_paths(all.take(i as int)).to_multiset(),
        decreases entries.len() - i,
    {
        assert(all.take(i + 1).drop_last() =~= all.take(i as int));
        assert(all.take(i + 1).last() == entries@[i as int]@);
        if !entries[i].is_dir {
            let path = normalize_member_path(entries[i].path.as_str());
            let ghost pv = path@;
            insert_sorted(&mut out, path);
            proof {
                broadcast use vstd::seq_lib::group_to_multiset_ensures;

                assert(listed_paths(all.take(i + 1)) == listed_paths(all.take(i as int)).push(pv));
            }
        }
        i += 1;
    }
    assert(all.take(i as int) =~= all);
    out
}

/// The paths of the files in an archive, sorted.
pub fn list_file_paths<B: ArchiveBackend>(backend: &B, archive: &str) -> (r: Result<Vec<String>>)
    ensures
        exists|listed: Result<Vec<EntryMeta>>| #[trigger]
            call_ensures(B::list, (backend, archive), listed) && match listed {
                Ok(entries) => r matches Ok(paths) && order::sorted_texts(text::texts(paths@))
                    && text::texts(paths@).to_multiset() =~= listed_paths(
                    types::entry_views(entries@),
                ).to_multiset(),
                Err(e) => r matches Err(e2) && e2 == e,
            },
{
    match backend.list(archive) {
        Ok(entries) => {
            let paths = sorted_file_paths(entries.as_slice());
            let ghost listed: Result<Vec<EntryMeta>> = Ok(entries);
            assert(call_ensures(B::list, (backend, archive), listed));
            Ok(paths)
        },
        Err(e) => {
            let ghost listed: Result<Vec<EntryMeta>> = Err(e);
            assert(call_ensures(B::list, (backend, archive), listed));
            Err(e)
        },
    }
}

// ---------------------------------------------------------------------------------------------
// Laws
// ---------------------------------------------------------------------------------------------
/// Law: an exact path wins over files that only have the name.
pub proof fn law_exact_path_wins(member: Seq<char>, files: Seq<ExtractedFile>, i: int)
    requires
        pathnorm::safe(pathnorm::normalized(member)),
        files.len() <= usize::MAX,
        0 <= i < files.len(),
        has_path(files[i], pathnorm::normalized(member)),
    ensures
        extracted_at(member, false, files) matches Ok(ExtractedAt::File(k)) && k < files.len()
            && has_path(files[k as int], pathnorm::normalized(member)),
{
    lemma_first_with_path(files, pathnorm::normalized(member), 0, i);
}

proof fn lemma_first_with_path(files: Seq<ExtractedFile>, norm: Seq<char>, from: int, i: int)
    requires
        0 <= from <= i < files.len(),
        has_path(files[i], norm),
    ensures
        first_with_path(files, norm, from) matches Some(k) && from <= k < files.len() && has_path(
            files[k],
            norm,
        ),
    decreases files.len() - from,
{
    if !has_path(files[from], norm) {
        lemma_first_with_path(files, norm, from + 1, i);
    }
}

/// Law: no file is ever taken for a member whose path is not safe.
pub proof fn law_unsafe_member_is_refused(
    member: Seq<char>,
    direct: bool,
    files: Seq<ExtractedFile>,
)
    requires
        !pathnorm::safe(pathnorm::normalized(member)),
    ensures
        extracted_at(member, direct, files) is Err,
{
}

} // verus!
