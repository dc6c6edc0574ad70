//! How many threads pack an archive, by the number and the size of its files.

use crate::archive::types;
use crate::archive::types::{ArchiveBackend, EntryMeta, EntryView};
use crate::error::Result;
use vstd::prelude::*;

verus! {

/// From so many files on, one thread packs faster than several.
pub const HIGH_FILE_COUNT: usize = 1_000;

/// Files smaller than this on average are packed faster by one thread: 64 KiB.
pub const SMALL_AVG_SIZE: u64 = 65_536;

/// How many threads pack an archive: what is asked for; one for many or small files; else the
/// backend's choice.
pub open spec fn pack_threads(explicit: Option<u32>, file_count: nat, total_bytes: nat) -> Option<
    u32,
> {
    if explicit is Some {
        explicit
    } else if file_count == 0 {
        None
    } else if file_count >= HIGH_FILE_COUNT || total_bytes / file_count < SMALL_AVG_SIZE {
        Some(1u32)
    } else {
        None
    }
}

/// How many threads pack an archive with so many files of so many bytes together.
pub fn resolve_pack_threads(explicit: Option<u32>, file_count: usize, total_bytes: u64) -> (r:
    Option<u32>)
    ensures
        r == pack_threads(explicit, file_count as nat, total_bytes as nat),
{
    if explicit.is_some() {
        return explicit;
    }
    if file_count == 0 {
        return None;
    }
    let avg: u64 = total_bytes / file_count as u64;
    if file_count >= HIGH_FILE_COUNT || avg < SMALL_AVG_SIZE {
        Some(1)
    } else {
        None
    }
}

/// How many files a listing has.
pub open spec fn file_count(entries: Seq<EntryView>) -> nat
    decreases entries.len(),
{
    if entries.len() == 0 {
        0
    } else {
        file_count(entries.drop_last()) + (if entries.last().is_dir {
            0nat
        } else {
            1
        })
    }
}

/// The sizes of the files in a listing together.
pub open spec fn byte_count(entries: Seq<EntryView>) -> nat
    decreases entries.len(),
{
    if entries.len() == 0 {
        0
    } else {
        byte_count(entries.drop_last()) + (if entries.last().is_dir {
            0nat
        } else {
            entries.last().size as nat
        })
    }
}

/// A number, or the largest `u64` where it is larger.
pub open spec fn capped(n: nat) -> nat {
    if n <= u64::MAX {
        n
    } else {
        u64::MAX as nat
    }
}

/// How many files a listing has, and how many bytes they have together.
pub fn file_stats(entries: &[EntryMeta]) -> (r: (usize, u64))
    ensures
        r.0 == file_count(types::entry_views(entries@)),
        r.1 == capped(byte_count(types::entry_views(entries@))),
{
    let ghost all = types::entry_views(entries@);
    let mut n: usize = 0;
    let mut bytes: u64 = 0;
    let mut i: usize = 0;
    assert(all.take(0) =~= Seq::<EntryView>::empty());
    while i < entries.len()
        invariant
            n <= i <= entries.len(),
            all == types::entry_views(entries@),
            n == file_count(all.take(i as int)),
            bytes == capped(byte_count(all.take(i as int))),
        decreases entries.len() - i,
    {
        assert(all.take(i + 1).drop_last() =~= all.take(i as int));
        assert(all.take(i + 1).last() == entries@[i as int]@);
        if !entries[i].is_dir {
            n += 1;
            bytes = bytes.saturating_add(entries[i].size);
        }
        i += 1;
    }
    assert(all.take(i as int) =~= all);
    (n, bytes)
}

/// How many threads pack an archive with these members.
pub open spec fn threads_for(explicit: Option<u32>, entries: Seq<EntryView>) -> Option<u32> {
    pack_threads(explicit, file_count(entries), capped(byte_count(entries)))
}

/// How many threads pack an archive again; it is listed only if nothing is asked for.
pub fn resolve_from_archive<B: ArchiveBackend>(
    backend: &B,
    archive: &str,
    explicit: Option<u32>,
) -> (r: Result<Option<u32>>)
    ensures
        explicit is Some ==> r == Ok::<Option<u32>, crate::error::Error>(explicit),
        explicit is None ==> exists|listed: Result<Vec<EntryMeta>>| #[trigger]
            call_ensures(B::list, (backend, archive), listed) && match listed {
                Ok(entries) => r == Ok::<Option<u32>, crate::error::Error>(
                    threads_for(None, types::entry_views(entries@)),
                ),
                Err(e) => r == Err::<Option<u32>, crate::error::Error>(e),
            },
{
    if explicit.is_some() {
        return Ok(explicit);
    }
    match backend.list(archive) {
        Ok(entries) => {
            let (n, bytes) = file_stats(entries.as_slice());
            let ghost listed: Result<Vec<EntryMeta>> = Ok(entries);
            assert(call_ensures(B::list, (backend, archive), listed));
            Ok(resolve_pack_threads(None, n, bytes))
        },
        Err(e) => {
            let ghost listed: Result<Vec<EntryMeta>> = Err(e);
            assert(call_ensures(B::list, (backend, archive), listed));
            Err(e)
        },
    }
}

/// Law: what is asked for is always honored.
pub proof fn law_explicit_threads_win(t: u32, file_count: nat, total_bytes: nat)
    ensures
        pack_threads(Some(t), file_count, total_bytes) == Some(t),
{
}

/// Law: where nothing is asked for, one thread packs an archive of a thousand files or more, or of
/// files below 64 KiB on average; for any other, and for one without files, nothing is said.
pub proof fn law_many_or_small_files_take_one_thread(files: nat, bytes: nat)
    ensures
        files >= 1000 ==> pack_threads(None, files, bytes) == Some(1u32),
        files > 0 && bytes < 65536 * files ==> pack_threads(None, files, bytes) == Some(1u32),
        0 < files < 1000 && bytes >= 65536 * files ==> pack_threads(None, files, bytes) is None,
        pack_threads(None, 0, bytes) is None,
{
    if files > 0 {
        let q = bytes / files;
        vstd::arithmetic::div_mod::lemma_fundamental_div_mod(bytes as int, files as int);
        assert(q < 65536 <==> bytes < 65536 * files) by (nonlinear_arith)
            requires
                bytes == files * q + bytes % files,
                0 <= bytes % files < files,
                files > 0,
                q >= 0,
        ;
    }
}

/// Law: the files and bytes of two listings together are those of both; a file counts as one with
/// its size, and a directory as nothing.
pub proof fn law_files_and_bytes_add_up(a: Seq<EntryView>, b: Seq<EntryView>, e: EntryView)
    ensures
        file_count(a + b) == file_count(a) + file_count(b),
        byte_count(a + b) == byte_count(a) + byte_count(b),
        file_count(seq![e]) == if e.is_dir {
            0nat
        } else {
            1nat
        },
        byte_count(seq![e]) == if e.is_dir {
            0nat
        } else {
            e.size as nat
        },
    decreases b.len(),
{
    let none = Seq::<EntryView>::empty();
    assert(seq![e].drop_last() =~= none);
    assert(file_count(none) == 0 && byte_count(none) == 0);
    if b.len() == 0 {
        assert(a + b =~= a);
    } else {
        assert((a + b).drop_last() =~= a + b.drop_last());
        assert((a + b).last() == b.last());
        law_files_and_bytes_add_up(a, b.drop_last(), e);
    }
}

} // verus!
