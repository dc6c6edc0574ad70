//! What backends are asked to do, told from what is wanted of them.

use crate::archive::commands;
use crate::archive::native;
use crate::archive::native::{EntryEncoding, FateView, NativeSevenZ};
use crate::archive::types::PackOptions;
use crate::filter::keep_laws;
use crate::filter::member::FilterView;
use crate::filter::wild;
use crate::util::order;
use crate::util::pathnorm;
use crate::util::size_parse;
use crate::util::text;
use vstd::prelude::*;

verus! {

// ---------------------------------------------------------------------------------------------
// Members
// ---------------------------------------------------------------------------------------------
/// Law: when an archive is converted, a file goes on exactly if its path is safe in normal form and
/// the filter keeps the file, and it goes on under that path. Directories never do.
pub proof fn law_converted_members(name: Seq<char>, filter: FilterView, path: Seq<char>)
    ensures
        native::convert_fate(name, false, filter) == FateView::Keep(path) <==> path
            == pathnorm::normalized(name) && pathnorm::safe(path) && filter.keeps(name, false),
        native::convert_fate(name, false, filter) is Keep || native::convert_fate(
            name,
            false,
            filter,
        ) is Drop,
        native::convert_fate(name, true, filter) is Directory,
{
    pathnorm::law_normalize_twice(name);
    keep_laws::law_only_the_normal_form_counts(filter, name, pathnorm::normalized(name), false);
}

/// Law: when members are asked for, a file is extracted exactly if one of them has the same normal
/// form and that is safe.
pub proof fn law_extracted_members(name: Seq<char>, members: Seq<Seq<char>>, path: Seq<char>)
    ensures
        ({
            let wants = members.map_values(|m: Seq<char>| pathnorm::normalized(m));
            &&& native::extract_fate(name, false, wants) == FateView::Keep(path) <==> path
                == pathnorm::normalized(name) && pathnorm::safe(path) && exists|i: int|
                0 <= i < members.len() && pathnorm::normalized(#[trigger] members[i]) == path
            &&& native::extract_fate(name, true, wants) is Directory
        }),
{
    let wants = members.map_values(|m: Seq<char>| pathnorm::normalized(m));
    let norm = pathnorm::normalized(name);
    if wants.contains(norm) {
        let i = choose|i: int| 0 <= i < wants.len() && wants[i] == norm;
        assert(pathnorm::normalized(members[i]) == norm);
    }
    if exists|i: int| 0 <= i < members.len() && pathnorm::normalized(#[trigger] members[i]) == norm {
        let i = choose|i: int|
            0 <= i < members.len() && pathnorm::normalized(#[trigger] members[i]) == norm;
        assert(wants[i] == norm);
    }
}

/// Law: the member that is refused is the first whose path is not safe, and none is refused where
/// all paths are safe.
pub proof fn law_first_unsafe_member(members: Seq<Seq<char>>, from: int, k: int)
    requires
        0 <= from <= k <= members.len(),
        forall|i: int| from <= i < k ==> pathnorm::safe(#[trigger] members[i]),
        k == members.len() || !pathnorm::safe(members[k]),
    ensures
        native::first_unsafe(members, from) == if k == members.len() {
            None::<int>
        } else {
            Some(k)
        },
    decreases k - from,
{
    if from < k {
        assert(pathnorm::safe(members[from]));
        law_first_unsafe_member(members, from + 1, k);
    }
}

// ---------------------------------------------------------------------------------------------
// Compression
// ---------------------------------------------------------------------------------------------
/// Law: the threads that the packing asks for come first, then those of the backend, then the
/// processors; none of them counts as less than one.
pub proof fn law_encoding_threads(backend: NativeSevenZ, pack: PackOptions, t: u32, cpus: usize)
    requires
        t > 0,
        1 <= cpus <= 256,
    ensures
        pack.threads == Some(t) ==> backend.encoders(pack, Some(cpus)) == t,
        pack.threads == Some(0u32) ==> backend.encoders(pack, Some(cpus)) == 1,
        pack.threads is None && backend.options.encode_threads == Some(t) ==> backend.encoders(
            pack,
            Some(cpus),
        ) == t,
        pack.threads is None && backend.options.encode_threads is None ==> backend.encoders(
            pack,
            Some(cpus),
        ) == cpus,
{
}

/// Law: a file is compressed by several threads exactly if it is large enough and there are
/// several; so many threads then take chunks of at least 1 MiB that cover all of the file but less
/// than one byte for each thread. The level is the one asked for, and at most nine.
pub proof fn law_large_files_are_shared_out(
    backend: NativeSevenZ,
    pack: PackOptions,
    size: u64,
    cpus: Option<usize>,
)
    requires
        1 <= backend.encoders(pack, cpus) <= u32::MAX,
    ensures
        ({
            let n = backend.encoders(pack, cpus);
            match backend.encoding(pack, size, cpus) {
                EntryEncoding::Single { level } => {
                    &&& size < backend.options.large_file_threshold || n == 1
                    &&& level <= 9 && (pack.level <= 9 ==> level == pack.level)
                },
                EntryEncoding::Multi { level, threads, chunk } => {
                    &&& size >= backend.options.large_file_threshold && n > 1
                    &&& threads == n
                    &&& chunk >= 1_048_576
                    &&& size < chunk * n + n
                    &&& chunk > 1_048_576 ==> chunk * n <= size
                    &&& level <= 9 && (pack.level <= 9 ==> level == pack.level)
                },
            }
        }),
{
    let n = backend.encoders(pack, cpus);
    let share = size as int / n;
    vstd::arithmetic::div_mod::lemma_fundamental_div_mod(size as int, n);
    assert(0 <= size as int % n < n);
    assert(share * n <= size < share * n + n) by (nonlinear_arith)
        requires
            size as int == n * share + size as int % n,
            0 <= size as int % n < n,
    ;
    assert(share <= size) by (nonlinear_arith)
        requires
            share * n <= size,
            n >= 1,
            share >= 0,
    ;
    if share < 1_048_576 {
        assert(size < 1_048_576 * n + n) by (nonlinear_arith)
            requires
                size < share * n + n,
                share < 1_048_576,
                n >= 1,
        ;
    }
}

// ---------------------------------------------------------------------------------------------
// Globs and orders
// ---------------------------------------------------------------------------------------------
/// Law: in an exclusion glob `*` stands for any run of characters, slashes too, `?` for any one
/// character, and every other character for itself.
pub proof fn law_exclusion_wildcards(c: char, rest: Seq<char>, s: Seq<char>)
    requires
        c != '*' && c != '?',
    ensures
        wild::wild(Seq::empty(), s) <==> s.len() == 0,
        wild::wild(seq!['*'] + rest, s) <==> exists|k: int|
            0 <= k <= s.len() && wild::wild(rest, #[trigger] s.skip(k)),
        wild::wild(seq!['?'] + rest, s) <==> s.len() > 0 && wild::wild(rest, s.skip(1)),
        wild::wild(seq![c] + rest, s) <==> s.len() > 0 && s[0] == c && wild::wild(rest, s.skip(1)),
{
    assert((seq!['*'] + rest).skip(1) =~= rest);
    assert((seq!['?'] + rest).skip(1) =~= rest);
    assert((seq![c] + rest).skip(1) =~= rest);
}

/// Law: texts are ordered by the first character in which they differ, and a text comes before what
/// it begins.
pub proof fn law_order_of_texts(u: Seq<char>, x: char, a: Seq<char>, y: char, b: Seq<char>)
    requires
        x < y,
    ensures
        order::text_le(u, u + a),
        a.len() > 0 ==> !order::text_le(u + a, u),
        order::text_le(u + (seq![x] + a), u + (seq![y] + b)),
        !order::text_le(u + (seq![y] + b), u + (seq![x] + a)),
    decreases u.len(),
{
    let p = seq![x] + a;
    let q = seq![y] + b;
    assert(p[0] == x && q[0] == y);
    if u.len() == 0 {
        assert(u + a =~= a);
        assert(u + p =~= p && u + q =~= q);
    } else {
        let v = u.skip(1);
        assert((u + a).skip(1) =~= v + a);
        assert((u + p).skip(1) =~= v + p);
        assert((u + q).skip(1) =~= v + q);
        assert((u + p)[0] == u[0] && (u + q)[0] == u[0] && (u + a)[0] == u[0]);
        law_order_of_texts(v, x, a, y, b);
    }
}

/// Law: two files keep the order of their names when a directory is packed, and files of the same
/// name the order in which they were found.
pub proof fn law_packing_order(names: Seq<Seq<char>>, order: Seq<usize>, i: int, j: int)
    requires
        order::arrangement(order, names.len() as int),
        forall|i: int, j: int|
            0 <= i < j < order.len() ==> order::goes_before(
                names,
                #[trigger] order[i],
                #[trigger] order[j],
            ),
        0 <= i < j < order.len(),
    ensures
        order::text_le(names[order[i] as int], names[order[j] as int]),
        names[order[i] as int] == names[order[j] as int] ==> order[i] < order[j],
{
}

// ---------------------------------------------------------------------------------------------
// The 7z program
// ---------------------------------------------------------------------------------------------
/// Law: packing says the level, that the archive is not solid where that is asked for, and how many
/// threads pack, and packs the current directory to the destination.
pub proof fn law_packing_arguments(dest: Seq<char>, threads: u32, level: u32)
    ensures
        ({
            let mx = "-mx="@ + text::number_text(level as nat);
            let mmt = "-mmt="@ + text::number_text(threads as nat);
            &&& commands::pack_words(
                dest,
                (PackOptions { non_solid: true, threads: Some(threads), level }),
            ) == seq!["a"@, "-t7z"@, mx, "-y"@, "-ms=off"@, mmt, dest, "."@]
            &&& commands::pack_words(
                dest,
                (PackOptions { non_solid: true, threads: None, level }),
            ) == seq!["a"@, "-t7z"@, mx, "-y"@, "-ms=off"@, "-mmt=on"@, dest, "."@]
            &&& commands::pack_words(
                dest,
                (PackOptions { non_solid: false, threads: Some(threads), level }),
            ) == seq!["a"@, "-t7z"@, mx, "-y"@, mmt, dest, "."@]
        }),
{
    let mx = "-mx="@ + text::number_text(level as nat);
    let mmt = "-mmt="@ + text::number_text(threads as nat);
    assert(commands::pack_words(
        dest,
        PackOptions { non_solid: true, threads: Some(threads), level },
    ) =~= seq!["a"@, "-t7z"@, mx, "-y"@, "-ms=off"@, mmt, dest, "."@]);
    assert(commands::pack_words(dest, PackOptions { non_solid: true, threads: None, level })
        =~= seq!["a"@, "-t7z"@, mx, "-y"@, "-ms=off"@, "-mmt=on"@, dest, "."@]);
    assert(commands::pack_words(
        dest,
        PackOptions { non_solid: false, threads: Some(threads), level },
    ) =~= seq!["a"@, "-t7z"@, mx, "-y"@, mmt, dest, "."@]);
}

/// Law: extraction says where to, overwrites without asking, and keeps paths; each glob is handed
/// on as one exclusion.
pub proof fn law_extraction_arguments(
    archive: Seq<char>,
    dest: Seq<char>,
    globs: Seq<Seq<char>>,
    i: int,
)
    requires
        0 <= i < globs.len(),
    ensures
        commands::extract_words(archive, dest) == seq!["x"@, "-y"@, "-o"@ + dest, archive],
        commands::exclusions(globs).len() == globs.len(),
        commands::exclusions(globs)[i] == "-x!"@ + globs[i],
{
}

/// Law: the 7z program succeeds with code 0 and, with a warning, 1; with a larger code it fails,
/// and so it does where it was ended without one.
pub proof fn law_codes_of_the_program(code: i32)
    ensures
        code == 0 || code == 1 ==> !commands::failed(Some(code)),
        code > 1 ==> commands::failed(Some(code)),
        commands::failed(None),
{
}

/// Law: the program that is used is the first that was found.
pub proof fn law_first_program_is_used(found: Seq<Option<String>>, k: int)
    requires
        0 <= k <= found.len(),
        forall|i: int| 0 <= i < k ==> (#[trigger] found[i]) is None,
        k < found.len() ==> found[k] is Some,
    ensures
        commands::first_found(found) == if k < found.len() {
            Some(found[k]->0@)
        } else {
            None
        },
    decreases k,
{
    if k > 0 {
        assert(found[0] is None);
        let rest = found.skip(1);
        assert forall|i: int| 0 <= i < k - 1 implies (#[trigger] rest[i]) is None by {
            assert(rest[i] == found[i + 1]);
        }
        if k < found.len() {
            assert(rest[k - 1] == found[k]);
        }
        law_first_program_is_used(rest, k - 1);
    }
}

/// Law: unless something else is asked for, files from 512 KiB on are compressed by several threads,
/// and nested archives of 500 MiB together are worked on at a time.
pub proof fn law_default_limits()
    ensures
        native::DEFAULT_LARGE_FILE_THRESHOLD == 512 * 1024,
        size_parse::DEFAULT_NESTED_SIZE_BUDGET == 500 * 1024 * 1024,
{
}

/// Law: an extracted file stands for a member if both have the same path in normal form, or if the
/// file has the base name of the member.
pub proof fn law_extracted_by_the_program(path: Seq<char>, name: Seq<char>, member: Seq<char>)
    ensures
        pathnorm::normalized(path) == pathnorm::normalized(member) ==> commands::is_extracted(
            path,
            name,
            member,
        ),
        name == pathnorm::base_name(member) ==> commands::is_extracted(path, name, member),
        pathnorm::normalized(path) != pathnorm::normalized(member) && name != pathnorm::base_name(
            member,
        ) ==> !commands::is_extracted(path, name, member),
{
}

} // verus!
