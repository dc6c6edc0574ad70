//! Containers, their paths and the names of their members, told from texts.

use crate::codec::outer;
use crate::codec::outer::OuterFormat;
use crate::util::path_laws;
use crate::util::pathnorm;
use crate::util::text;
use crate::util::textpath;
use vstd::prelude::*;

verus! {

/// Law: an output path that ends with a slash means a directory; else one with the extension `tar`,
/// in upper or lower case, means a tar archive, and any other a 7z archive.
pub proof fn law_container_of_a_path(dir: Seq<char>, stem: Seq<char>, ext: Seq<char>)
    requires
        stem.len() > 0,
        !ext.contains('.'),
        !ext.contains('/'),
        !stem.contains('/'),
        ext.len() > 0,
        ext.last() != '\\',
        path_laws::plain_name(stem + seq!['.'] + ext),
        path_laws::plain_name(ext),
        path_laws::plain_name(seq!['.'] + ext),
    ensures
        ({
            let path = dir + seq!['/'] + (stem + seq!['.'] + ext);
            &&& OuterFormat::of_path(path) is Tar <==> text::lower(ext) == "tar"@
            &&& OuterFormat::of_path(path) is SevenZ <==> text::lower(ext) != "tar"@
            &&& OuterFormat::of_path(path + seq!['/']) is Dir
            &&& OuterFormat::of_path(path + seq!['\\']) is Dir
            &&& OuterFormat::of_path(dir + seq!['/'] + ext) is SevenZ
        }),
{
    let path = dir + seq!['/'] + (stem + seq!['.'] + ext);
    let bare = dir + seq!['/'] + ext;
    path_laws::law_stem_and_extension(dir, stem, ext);
    assert(path.last() == ext.last());
    assert(bare.last() == ext.last());
    assert(ext.contains(ext[ext.len() - 1]));
    assert((path + seq!['/']).last() == '/');
    assert((path + seq!['\\']).last() == '\\');
}

/// Law: without an output path, the directory for an archive stands beside it and has its name
/// without the extension.
pub proof fn law_default_directory(dir: Seq<char>, stem: Seq<char>, ext: Seq<char>)
    requires
        dir.len() > 0,
        dir.last() != '/',
        textpath::rtrim(dir) == dir,
        stem.len() > 0,
        !ext.contains('.'),
        !ext.contains('/'),
        !stem.contains('/'),
        path_laws::plain_name(stem + seq!['.'] + ext),
        path_laws::plain_name(ext),
        path_laws::plain_name(seq!['.'] + ext),
    ensures
        outer::default_dir(dir + seq!['/'] + (stem + seq!['.'] + ext)) == dir + seq!['/'] + stem,
{
    let name = stem + seq!['.'] + ext;
    path_laws::law_stem_and_extension(dir, stem, ext);
    path_laws::law_file_name_and_parent(dir, name);
    assert(stem.contains(stem[0]));
    path_laws::law_joined_paths(dir, stem);
}

/// Law: a member goes to a directory output exactly if its normal form is safe, and to that path
/// below the directory.
pub proof fn law_destination_below_a_directory(root: Seq<char>, name: Seq<char>)
    requires
        root.len() > 0,
        root.last() != '/',
    ensures
        ({
            let norm = pathnorm::normalized(name);
            &&& outer::member_dest(root, name) is Ok <==> pathnorm::safe(norm)
            &&& pathnorm::safe(norm) ==> outer::member_dest(root, name)->Ok_0 == root + seq!['/']
                + norm
        }),
{
    let norm = pathnorm::normalized(name);
    path_laws::law_what_is_safe(norm);
    if pathnorm::safe(norm) {
        pathnorm::law_normalize_twice(name);
        path_laws::law_joined_paths(root, norm);
    }
}

/// Law: in a tar archive a member has its name with slashes for backslashes, without the slashes
/// and the `./` in front of it; every other character stays.
pub proof fn law_names_in_tar_archives(name: Seq<char>)
    requires
        name.len() > 0,
        name[0] != '/',
        !text::begins(name, seq!['.', '/']),
    ensures
        outer::tar_name(name).len() == name.len(),
        forall|i: int|
            0 <= i < name.len() ==> #[trigger] outer::tar_name(name)[i] == if name[i] == '\\' {
                '/'
            } else {
                name[i]
            },
        outer::tar_name(seq!['/'] + name) == outer::tar_name(name),
        outer::tar_name(seq!['.', '/'] + name) == outer::tar_name(name),
        outer::tar_name(seq!['/', '.', '/'] + name) == outer::tar_name(name),
{
    let dot = seq!['.', '/'];
    assert(text::strip_front(name, '/') == name);
    assert(text::strip_front_text(name, dot) == name);
    let a = seq!['/'] + name;
    assert(a.skip(1) =~= name);
    assert(text::strip_front(a, '/') == name);
    let b = dot + name;
    assert(b[0] == '.');
    assert(text::strip_front(b, '/') == b);
    assert(b.take(2) =~= dot);
    assert(b.skip(2) =~= name);
    assert(text::strip_front_text(b, dot) == name);
    let c = seq!['/', '.', '/'] + name;
    assert(c.skip(1) =~= b);
    assert(text::strip_front(c, '/') == b);
}

/// Law: the words for the containers, in upper or lower case and with white space around them or
/// not, mean these and no others.
pub proof fn law_words_for_containers(a: Seq<char>, word: Seq<char>, b: Seq<char>)
    requires
        text::white(a),
        text::white(b),
        text::bare(word),
    ensures
        ({
            let low = text::lower(word);
            let f = OuterFormat::named(a + word + b);
            &&& f == Some(OuterFormat::SevenZ) <==> low == "7z"@ || low == "sevenz"@ || low == "7zip"@
            &&& f == Some(OuterFormat::Tar) <==> low == "tar"@ || low == "ustar"@
            &&& f == Some(OuterFormat::Dir) <==> low == "dir"@ || low == "directory"@ || low
                == "folder"@ || low == "files"@
        }),
{
    reveal_strlit("7z");
    reveal_strlit("sevenz");
    reveal_strlit("7zip");
    reveal_strlit("tar");
    reveal_strlit("ustar");
    reveal_strlit("dir");
    reveal_strlit("directory");
    reveal_strlit("folder");
    reveal_strlit("files");
    text::law_trim_takes_white_space_away(a, word, b);
    assert("7z"@[0] == '7' && "sevenz"@[0] == 's' && "7zip"@[0] == '7' && "tar"@[0] == 't'
        && "ustar"@[0] == 'u' && "dir"@[0] == 'd' && "directory"@[0] == 'd' && "folder"@[0] == 'f'
        && "files"@[0] == 'f');
}

} // verus!
