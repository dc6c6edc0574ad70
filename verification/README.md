# archiveconverter

Converts outer 7z archives that hold solid 7z archives: every nested archive is rebuilt without
solid blocks, members can be left out and renamed, and the result is a 7z archive, a tar archive
or a directory.

The library under `src/` holds the rules of the conversion. It is written in Verus: each function
states what it does, and the statements are proved. It makes no system calls. The program under
`app/` reads and writes files, runs the 7z program or the `sevenz-rust2` crate, and asks the
library what to do next.

| Module | What it holds |
|--------|---------------|
| `util` | texts, paths, sizes, thread counts |
| `filter` | rsync-style patterns, regular expressions, exclusion globs, filter files, renaming |
| `archive` | listings and command lines of the 7z program, choices of the native backend |
| `codec` | 7z headers, checksums, LZMA2 streams, output formats |
| `convert` | the steps that rebuild one archive, and the registry of converters |
| `pipeline` | the plan for an outer archive, the schedule of nested archives, the steps of a run |
| `cli` | what command line arguments mean |
| `bench` | fixtures, runs and reports of measurements |

What holds of several functions together stands in proof functions whose names begin with `law_`.
For example, a header that was written reads back (`codec::header_reader`), the first filter rule
that matches decides (`filter::laws`), globs that keep members away from extraction match exactly
what the filter drops (`filter::exclude_laws`), limits on nested work are kept
(`pipeline::scheduler`), and members that cannot be read do not fail a run (`pipeline::execute`).

What the proofs rest on, besides the verifier, are the contracts of the functions that call other
crates: `regex` in `filter::regexes`, `crc32fast` in `codec::checksum`, `lzma-rust2` in
`codec::lzma2`; and, of the standard library, `String::push` in `util::text` and the debug form of
a list of strings in `archive::commands`.
