//! What a reader makes of a header, and that it is what was written.

use crate::codec::bytes;
use crate::codec::header_laws;
use crate::codec::sevenz_header;
use crate::codec::sevenz_header::{
    FileView, K_A_TIME, K_CODERS_UNPACK_SIZE, K_CRC, K_C_TIME, K_EMPTY_FILE, K_EMPTY_STREAM, K_END,
    K_FILES_INFO, K_FOLDER, K_HEADER, K_MAIN_STREAMS_INFO, K_M_TIME, K_NAME, K_PACK_INFO, K_SIZE,
    K_SUB_STREAMS_INFO, K_UNPACK_INFO, K_WIN_ATTRIBUTES,
};
use vstd::prelude::*;

verus! {

// ---------------------------------------------------------------------------------------------
// Pieces
// ---------------------------------------------------------------------------------------------
/// What follows `front` in `s`; `None` where `s` does not begin with it.
pub open spec fn expect(s: Seq<u8>, front: Seq<u8>) -> Option<Seq<u8>> {
    if s.len() >= front.len() && s.take(front.len() as int) == front {
        Some(s.skip(front.len() as int))
    } else {
        None
    }
}

proof fn lemma_expect(front: Seq<u8>, rest: Seq<u8>)
    ensures
        expect(front + rest, front) == Some(rest),
{
    assert((front + rest).take(front.len() as int) =~= front);
    assert((front + rest).skip(front.len() as int) =~= rest);
}

/// `n` numbers in front of `s`, and what follows them.
pub open spec fn read_numbers(s: Seq<u8>, n: nat) -> Option<(Seq<nat>, Seq<u8>)>
    decreases n,
{
    if n == 0 {
        Some((Seq::empty(), s))
    } else {
        match bytes::read_number(s) {
            None => None,
            Some((v, t)) => match read_numbers(t, (n - 1) as nat) {
                None => None,
                Some((vs, u)) => Some((seq![v] + vs, u)),
            },
        }
    }
}

/// `n` words of four bytes in front of `s`, and what follows them.
pub open spec fn read_words(s: Seq<u8>, n: nat) -> Option<(Seq<nat>, Seq<u8>)>
    decreases n,
{
    if n == 0 {
        Some((Seq::empty(), s))
    } else if s.len() < 4 {
        None
    } else {
        match read_words(s.skip(4), (n - 1) as nat) {
            None => None,
            Some((vs, u)) => Some((seq![bytes::le_value(s.take(4))] + vs, u)),
        }
    }
}

/// One folder in front of `s`: the method of its coder and the properties of the method.
pub open spec fn read_folder(s: Seq<u8>) -> Option<((Seq<u8>, Seq<u8>), Seq<u8>)> {
    match bytes::read_number(s) {
        None => None,
        Some((coders, a)) => {
            let id_len = (a[0] % 16) as int;
            if coders != 1 || a.len() < 1 + id_len {
                None
            } else {
                let id = a.subrange(1, 1 + id_len);
                let b = a.skip(1 + id_len);
                if a[0] < 0x20 {
                    Some(((id, Seq::empty()), b))
                } else {
                    match bytes::read_number(b) {
                        None => None,
                        Some((n, c)) => if c.len() < n {
                            None
                        } else {
                            Some(((id, c.take(n as int)), c.skip(n as int)))
                        },
                    }
                }
            }
        },
    }
}

/// `n` folders in front of `s`.
pub open spec fn read_folders(s: Seq<u8>, n: nat) -> Option<
    (Seq<(Seq<u8>, Seq<u8>)>, Seq<u8>),
>
    decreases n,
{
    if n == 0 {
        Some((Seq::empty(), s))
    } else {
        match read_folder(s) {
            None => None,
            Some((f, t)) => match read_folders(t, (n - 1) as nat) {
                None => None,
                Some((fs, u)) => Some((seq![f] + fs, u)),
            },
        }
    }
}

/// A part of each file is the part of the first one and those of the others.
proof fn lemma_gather_front(files: Seq<FileView>, part: spec_fn(FileView) -> Seq<u8>)
    requires
        files.len() > 0,
    ensures
        sevenz_header::gather(files, part) == part(files[0]) + sevenz_header::gather(
            files.skip(1),
            part,
        ),
    decreases files.len(),
{
    let t = files.drop_last();
    if files.len() == 1 {
        assert(t =~= Seq::<FileView>::empty());
        assert(files.skip(1) =~= Seq::<FileView>::empty());
        assert(sevenz_header::gather(files, part) =~= part(files[0]) + sevenz_header::gather(
            files.skip(1),
            part,
        ));
    } else {
        lemma_gather_front(t, part);
        assert(files.skip(1).drop_last() =~= t.skip(1));
        assert(files.skip(1).last() == files.last());
        assert(t[0] == files[0]);
        assert(sevenz_header::gather(files, part) =~= part(files[0]) + sevenz_header::gather(
            files.skip(1),
            part,
        ));
    }
}

/// The lengths of the packed streams.
pub open spec fn pack_sizes(s: Seq<FileView>) -> Seq<nat> {
    s.map_values(|f: FileView| f.pack_size as nat)
}

/// The checksums of the packed streams.
pub open spec fn pack_crcs(s: Seq<FileView>) -> Seq<nat> {
    s.map_values(|f: FileView| f.pack_crc as nat)
}

/// The lengths of the contents.
pub open spec fn unpack_sizes(s: Seq<FileView>) -> Seq<nat> {
    s.map_values(|f: FileView| f.unpack_size as nat)
}

/// The checksums of the contents.
pub open spec fn content_crcs(s: Seq<FileView>) -> Seq<nat> {
    s.map_values(|f: FileView| f.content_crc as nat)
}

/// The methods and their properties.
pub open spec fn methods(s: Seq<FileView>) -> Seq<(Seq<u8>, Seq<u8>)> {
    s.map_values(|f: FileView| (f.method_id, f.method_props))
}

/// Numbers that were written one after the other read back.
proof fn lemma_numbers(
    s: Seq<FileView>,
    part: spec_fn(FileView) -> Seq<u8>,
    value: spec_fn(FileView) -> u64,
    rest: Seq<u8>,
)
    requires
        forall|f: FileView| #[trigger] part(f) == bytes::number(value(f)),
    ensures
        read_numbers(sevenz_header::gather(s, part) + rest, s.len()) == Some(
            (s.map_values(|f: FileView| value(f) as nat), rest),
        ),
    decreases s.len(),
{
    let values = s.map_values(|f: FileView| value(f) as nat);
    if s.len() == 0 {
        assert(sevenz_header::gather(s, part) + rest =~= rest);
        assert(values =~= Seq::<nat>::empty());
    } else {
        lemma_gather_front(s, part);
        let tail = sevenz_header::gather(s.skip(1), part) + rest;
        assert(sevenz_header::gather(s, part) + rest =~= part(s[0]) + tail);
        bytes::law_number_reads_back(value(s[0]), tail);
        lemma_numbers(s.skip(1), part, value, rest);
        assert(values =~= seq![value(s[0]) as nat] + s.skip(1).map_values(
            |f: FileView| value(f) as nat,
        ));
    }
}

proof fn lemma_pack_sizes(s: Seq<FileView>, rest: Seq<u8>)
    ensures
        read_numbers(
            sevenz_header::gather(s, sevenz_header::pack_size_part()) + rest,
            s.len(),
        ) == Some((pack_sizes(s), rest)),
{
    let value = |f: FileView| f.pack_size;
    lemma_numbers(s, sevenz_header::pack_size_part(), value, rest);
    assert(pack_sizes(s) =~= s.map_values(|f: FileView| value(f) as nat));
}

proof fn lemma_unpack_sizes(s: Seq<FileView>, rest: Seq<u8>)
    ensures
        read_numbers(
            sevenz_header::gather(s, sevenz_header::unpack_size_part()) + rest,
            s.len(),
        ) == Some((unpack_sizes(s), rest)),
{
    let value = |f: FileView| f.unpack_size;
    lemma_numbers(s, sevenz_header::unpack_size_part(), value, rest);
    assert(unpack_sizes(s) =~= s.map_values(|f: FileView| value(f) as nat));
}

proof fn lemma_word(v: u32, tail: Seq<u8>)
    ensures
        (bytes::le_bytes(v as nat, 4) + tail).len() >= 4,
        bytes::le_value((bytes::le_bytes(v as nat, 4) + tail).take(4)) == v,
        (bytes::le_bytes(v as nat, 4) + tail).skip(4) == tail,
{
    reveal_with_fuel(bytes::pow256, 5);
    bytes::law_le_bytes_read_back(v as nat, 4);
    let s = bytes::le_bytes(v as nat, 4) + tail;
    assert(s.take(4) =~= bytes::le_bytes(v as nat, 4));
    assert(s.skip(4) =~= tail);
}

/// Checksums that were written one after the other read back.
proof fn lemma_words(
    s: Seq<FileView>,
    part: spec_fn(FileView) -> Seq<u8>,
    value: spec_fn(FileView) -> u32,
    rest: Seq<u8>,
)
    requires
        forall|f: FileView| #[trigger] part(f) == bytes::le_bytes(value(f) as nat, 4),
    ensures
        read_words(sevenz_header::gather(s, part) + rest, s.len()) == Some(
            (s.map_values(|f: FileView| value(f) as nat), rest),
        ),
    decreases s.len(),
{
    let values = s.map_values(|f: FileView| value(f) as nat);
    if s.len() == 0 {
        assert(sevenz_header::gather(s, part) + rest =~= rest);
        assert(values =~= Seq::<nat>::empty());
    } else {
        lemma_gather_front(s, part);
        let tail = sevenz_header::gather(s.skip(1), part) + rest;
        assert(sevenz_header::gather(s, part) + rest =~= part(s[0]) + tail);
        lemma_word(value(s[0]), tail);
        lemma_words(s.skip(1), part, value, rest);
        assert(values =~= seq![value(s[0]) as nat] + s.skip(1).map_values(
            |f: FileView| value(f) as nat,
        ));
    }
}

proof fn lemma_pack_crcs(s: Seq<FileView>, rest: Seq<u8>)
    ensures
        read_words(sevenz_header::gather(s, sevenz_header::pack_crc_part()) + rest, s.len())
            == Some((pack_crcs(s), rest)),
{
    let value = |f: FileView| f.pack_crc;
    lemma_words(s, sevenz_header::pack_crc_part(), value, rest);
    assert(pack_crcs(s) =~= s.map_values(|f: FileView| value(f) as nat));
}

proof fn lemma_content_crcs(s: Seq<FileView>, rest: Seq<u8>)
    ensures
        read_words(sevenz_header::gather(s, sevenz_header::content_crc_part()) + rest, s.len())
            == Some((content_crcs(s), rest)),
{
    let value = |f: FileView| f.content_crc;
    lemma_words(s, sevenz_header::content_crc_part(), value, rest);
    assert(content_crcs(s) =~= s.map_values(|f: FileView| value(f) as nat));
}

/// A method that a header can hold: its identifier has 1 to 15 bytes.
pub open spec fn sound_method(f: FileView) -> bool {
    1 <= f.method_id.len() <= 15 && f.method_props.len() <= u64::MAX
}

proof fn lemma_folder(f: FileView, rest: Seq<u8>)
    requires
        sound_method(f),
    ensures
        read_folder(sevenz_header::folder(f) + rest) == Some(
            ((f.method_id, f.method_props), rest),
        ),
{
    let id = f.method_id;
    let n = id.len() as int;
    let with_props = f.method_props.len() > 0;
    let flags = (n + (if with_props {
        0x20int
    } else {
        0
    })) as u8;
    let props = if with_props {
        bytes::number(f.method_props.len() as u64) + f.method_props
    } else {
        Seq::empty()
    };
    let a = seq![flags] + id + props + rest;
    assert(n % 16 == n);
    assert(sevenz_header::folder(f) + rest =~= bytes::number(1) + a);
    bytes::law_number_reads_back(1, a);
    assert(a[0] == flags);
    assert(flags % 16 == n);
    assert(a.subrange(1, 1 + n) =~= id);
    let b = a.skip(1 + n);
    assert(b =~= props + rest);
    if with_props {
        let c = f.method_props + rest;
        assert(b =~= bytes::number(f.method_props.len() as u64) + c);
        bytes::law_number_reads_back(f.method_props.len() as u64, c);
        assert(c.take(f.method_props.len() as int) =~= f.method_props);
        assert(c.skip(f.method_props.len() as int) =~= rest);
    } else {
        assert(f.method_props =~= Seq::<u8>::empty());
        assert(b =~= rest);
    }
}

/// One folder in front of the others.
proof fn lemma_folder_step(
    h: Seq<u8>,
    tail: Seq<u8>,
    n: nat,
    one: (Seq<u8>, Seq<u8>),
    others: Seq<(Seq<u8>, Seq<u8>)>,
    rest: Seq<u8>,
)
    requires
        read_folder(h) == Some((one, tail)),
        read_folders(tail, n) == Some((others, rest)),
    ensures
        read_folders(h, n + 1) == Some((seq![one] + others, rest)),
{
}

proof fn lemma_folders(s: Seq<FileView>, rest: Seq<u8>)
    requires
        forall|i: int| 0 <= i < s.len() ==> sound_method(#[trigger] s[i]),
    ensures
        read_folders(sevenz_header::gather(s, sevenz_header::folder_part()) + rest, s.len())
            == Some((methods(s), rest)),
    decreases s.len(),
{
    let part = sevenz_header::folder_part();
    if s.len() == 0 {
        assert(sevenz_header::gather(s, part) + rest =~= rest);
        assert(methods(s) =~= Seq::<(Seq<u8>, Seq<u8>)>::empty());
    } else {
        let left = s.skip(1);
        let tail = sevenz_header::gather(left, part) + rest;
        let h = sevenz_header::gather(s, part) + rest;
        assert(h == sevenz_header::folder(s[0]) + tail) by {
            lemma_gather_front(s, part);
            lemma_brackets(part(s[0]), sevenz_header::gather(left, part), rest);
        }
        lemma_folder(s[0], tail);
        assert forall|i: int| 0 <= i < left.len() implies sound_method(#[trigger] left[i]) by {
            assert(left[i] == s[i + 1]);
        }
        lemma_folders(left, rest);
        let one = (s[0].method_id, s[0].method_props);
        lemma_folder_step(h, tail, left.len(), one, methods(left), rest);
        assert(methods(s) =~= seq![one] + methods(left));
    }
}

proof fn lemma_brackets(a: Seq<u8>, b: Seq<u8>, c: Seq<u8>)
    ensures
        (a + b) + c == a + (b + c),
{
    assert((a + b) + c =~= a + (b + c));
}

// ---------------------------------------------------------------------------------------------
// The streams
// ---------------------------------------------------------------------------------------------
/// What a header says of the streams.
#[verifier::ext_equal]
pub struct StreamsRead {
    pub pack_sizes: Seq<nat>,
    pub pack_crcs: Seq<nat>,
    pub methods: Seq<(Seq<u8>, Seq<u8>)>,
    pub sizes: Seq<nat>,
    pub crcs: Seq<nat>,
}

/// Where the packed streams are: their lengths and checksums.
pub open spec fn read_pack_info(s: Seq<u8>) -> Option<((Seq<nat>, Seq<nat>), Seq<u8>)> {
    match expect(s, seq![K_PACK_INFO]) {
        None => None,
        Some(a) => match bytes::read_number(a) {
            None => None,
            Some((_, b)) => match bytes::read_number(b) {
                None => None,
                Some((n, c)) => match expect(c, seq![K_SIZE]) {
                    None => None,
                    Some(d) => match read_numbers(d, n) {
                        None => None,
                        Some((sizes, e)) => match expect(e, seq![K_CRC, 1u8]) {
                            None => None,
                            Some(f) => match read_words(f, n) {
                                None => None,
                                Some((crcs, g)) => match expect(g, seq![K_END]) {
                                    None => None,
                                    Some(h) => Some(((sizes, crcs), h)),
                                },
                            },
                        },
                    },
                },
            },
        },
    }
}

/// The methods and the lengths of the contents.
pub open spec fn read_unpack_info(s: Seq<u8>) -> Option<
    ((Seq<(Seq<u8>, Seq<u8>)>, Seq<nat>), Seq<u8>),
> {
    match expect(s, seq![K_UNPACK_INFO, K_FOLDER]) {
        None => None,
        Some(a) => match bytes::read_number(a) {
            None => None,
            Some((n, b)) => match expect(b, seq![0u8]) {
                None => None,
                Some(c) => match read_folders(c, n) {
                    None => None,
                    Some((folders, d)) => match expect(d, seq![K_CODERS_UNPACK_SIZE]) {
                        None => None,
                        Some(e) => match read_numbers(e, n) {
                            None => None,
                            Some((sizes, f)) => match expect(f, seq![K_END]) {
                                None => None,
                                Some(g) => Some(((folders, sizes), g)),
                            },
                        },
                    },
                },
            },
        },
    }
}

/// The checksums of the contents of `n` streams.
pub open spec fn read_substreams(s: Seq<u8>, n: nat) -> Option<(Seq<nat>, Seq<u8>)> {
    match expect(s, seq![K_SUB_STREAMS_INFO, K_CRC, 1u8]) {
        None => None,
        Some(a) => match read_words(a, n) {
            None => None,
            Some((crcs, b)) => match expect(b, seq![K_END]) {
                None => None,
                Some(c) => Some((crcs, c)),
            },
        },
    }
}

/// What the header says of the streams, up to its end mark.
pub open spec fn read_streams(s: Seq<u8>) -> Option<(StreamsRead, Seq<u8>)> {
    if expect(s, seq![K_END]) is Some {
        Some(
            (
                StreamsRead {
                    pack_sizes: Seq::empty(),
                    pack_crcs: Seq::empty(),
                    methods: Seq::empty(),
                    sizes: Seq::empty(),
                    crcs: Seq::empty(),
                },
                expect(s, seq![K_END])->0,
            ),
        )
    } else {
        match read_pack_info(s) {
            None => None,
            Some((p, a)) => match read_unpack_info(a) {
                None => None,
                Some((u, b)) => match read_substreams(b, u.0.len()) {
                    None => None,
                    Some((crcs, c)) => match expect(c, seq![K_END]) {
                        None => None,
                        Some(d) => Some(
                            (
                                StreamsRead {
                                    pack_sizes: p.0,
                                    pack_crcs: p.1,
                                    methods: u.0,
                                    sizes: u.1,
                                    crcs,
                                },
                                d,
                            ),
                        ),
                    },
                },
            },
        }
    }
}

/// What is to be read of the streams of these files.
pub open spec fn streams_of(s: Seq<FileView>) -> StreamsRead {
    StreamsRead {
        pack_sizes: pack_sizes(s),
        pack_crcs: pack_crcs(s),
        methods: methods(s),
        sizes: unpack_sizes(s),
        crcs: content_crcs(s),
    }
}

proof fn lemma_pack_info(s: Seq<FileView>, rest: Seq<u8>)
    requires
        s.len() <= u64::MAX,
    ensures
        read_pack_info(sevenz_header::pack_info(s) + rest) == Some(
            ((pack_sizes(s), pack_crcs(s)), rest),
        ),
{
    let h = rest;
    let g = seq![K_END] + h;
    let f = sevenz_header::gather(s, sevenz_header::pack_crc_part()) + g;
    let e = seq![K_CRC, 1u8] + f;
    let d = sevenz_header::gather(s, sevenz_header::pack_size_part()) + e;
    let c = seq![K_SIZE] + d;
    let b = bytes::number(s.len() as u64) + c;
    let a = bytes::number(0) + b;
    assert(sevenz_header::pack_info(s) + rest =~= seq![K_PACK_INFO] + a);
    lemma_expect(seq![K_PACK_INFO], a);
    bytes::law_number_reads_back(0, b);
    bytes::law_number_reads_back(s.len() as u64, c);
    lemma_expect(seq![K_SIZE], d);
    lemma_pack_sizes(s, e);
    lemma_expect(seq![K_CRC, 1u8], f);
    lemma_pack_crcs(s, g);
    lemma_expect(seq![K_END], h);
}

proof fn lemma_unpack_info(s: Seq<FileView>, rest: Seq<u8>)
    requires
        s.len() <= u64::MAX,
        forall|i: int| 0 <= i < s.len() ==> sound_method(#[trigger] s[i]),
    ensures
        read_unpack_info(sevenz_header::unpack_info(s) + rest) == Some(
            ((methods(s), unpack_sizes(s)), rest),
        ),
{
    let g = rest;
    let f = seq![K_END] + g;
    let e = sevenz_header::gather(s, sevenz_header::unpack_size_part()) + f;
    let d = seq![K_CODERS_UNPACK_SIZE] + e;
    let c = sevenz_header::gather(s, sevenz_header::folder_part()) + d;
    let b = seq![0u8] + c;
    let a = bytes::number(s.len() as u64) + b;
    assert(sevenz_header::unpack_info(s) + rest =~= seq![K_UNPACK_INFO, K_FOLDER] + a);
    lemma_expect(seq![K_UNPACK_INFO, K_FOLDER], a);
    bytes::law_number_reads_back(s.len() as u64, b);
    lemma_expect(seq![0u8], c);
    lemma_folders(s, d);
    lemma_expect(seq![K_CODERS_UNPACK_SIZE], e);
    lemma_unpack_sizes(s, f);
    lemma_expect(seq![K_END], g);
}

proof fn lemma_substreams(s: Seq<FileView>, rest: Seq<u8>)
    ensures
        read_substreams(sevenz_header::substreams_info(s) + rest, s.len()) == Some(
            (content_crcs(s), rest),
        ),
{
    let b = seq![K_END] + rest;
    let a = sevenz_header::gather(s, sevenz_header::content_crc_part()) + b;
    assert(sevenz_header::substreams_info(s) + rest =~= seq![K_SUB_STREAMS_INFO, K_CRC, 1u8] + a);
    lemma_expect(seq![K_SUB_STREAMS_INFO, K_CRC, 1u8], a);
    lemma_content_crcs(s, b);
    lemma_expect(seq![K_END], rest);
}

proof fn lemma_streams(s: Seq<FileView>, rest: Seq<u8>)
    requires
        s.len() <= u64::MAX,
        forall|i: int| 0 <= i < s.len() ==> sound_method(#[trigger] s[i]),
    ensures
        read_streams(sevenz_header::streams_info(s) + seq![K_END] + rest) == Some(
            (streams_of(s), rest),
        ),
{
    let whole = sevenz_header::streams_info(s) + seq![K_END] + rest;
    if s.len() == 0 {
        assert(whole =~= seq![K_END] + rest);
        lemma_expect(seq![K_END], rest);
        assert(streams_of(s) =~= (StreamsRead {
            pack_sizes: Seq::empty(),
            pack_crcs: Seq::empty(),
            methods: Seq::empty(),
            sizes: Seq::empty(),
            crcs: Seq::empty(),
        }));
    } else {
        let c = seq![K_END] + rest;
        let b = sevenz_header::substreams_info(s) + c;
        let a = sevenz_header::unpack_info(s) + b;
        assert(whole =~= sevenz_header::pack_info(s) + a);
        assert(whole[0] == K_PACK_INFO);
        assert(whole.take(1)[0] != seq![K_END][0]);
        lemma_pack_info(s, a);
        lemma_unpack_info(s, b);
        lemma_substreams(s, c);
        lemma_expect(seq![K_END], rest);
        assert(methods(s).len() == s.len());
    }
}

// ---------------------------------------------------------------------------------------------
// Names
// ---------------------------------------------------------------------------------------------
/// The name in front of `s`, as code points, up to its zero, and what follows it.
pub open spec fn read_name(s: Seq<u8>) -> Option<(Seq<nat>, Seq<u8>)>
    decreases s.len(),
{
    if s.len() < 2 {
        None
    } else {
        let unit = bytes::le_value(s.take(2));
        let t = s.skip(2);
        if unit == 0 {
            Some((Seq::empty(), t))
        } else if 0xD800 <= unit < 0xDC00 {
            if t.len() < 2 {
                None
            } else {
                let low = bytes::le_value(t.take(2));
                match read_name(t.skip(2)) {
                    None => None,
                    Some((cs, u)) => Some(
                        (
                            seq![
                                (0x1_0000 + (unit - 0xD800) * 0x400 + (low - 0xDC00)) as nat,
                            ] + cs,
                            u,
                        ),
                    ),
                }
            }
        } else {
            match read_name(t) {
                None => None,
                Some((cs, u)) => Some((seq![unit] + cs, u)),
            }
        }
    }
}

/// `n` names in front of `s`.
pub open spec fn read_names(s: Seq<u8>, n: nat) -> Option<(Seq<Seq<nat>>, Seq<u8>)>
    decreases n,
{
    if n == 0 {
        Some((Seq::empty(), s))
    } else {
        match read_name(s) {
            None => None,
            Some((name, t)) => match read_names(t, (n - 1) as nat) {
                None => None,
                Some((names, u)) => Some((seq![name] + names, u)),
            },
        }
    }
}

/// The code points of a text.
pub open spec fn code_points(s: Seq<char>) -> Seq<nat> {
    s.map_values(|c: char| (c as u32) as nat)
}

/// The names of the files, as code points.
pub open spec fn names(files: Seq<FileView>) -> Seq<Seq<nat>> {
    files.map_values(|f: FileView| code_points(f.name))
}

proof fn lemma_unit(v: nat, tail: Seq<u8>)
    requires
        v < 0x1_0000,
    ensures
        (bytes::le_bytes(v, 2) + tail).len() >= 2,
        bytes::le_value((bytes::le_bytes(v, 2) + tail).take(2)) == v,
        (bytes::le_bytes(v, 2) + tail).skip(2) == tail,
{
    reveal_with_fuel(bytes::pow256, 3);
    bytes::law_le_bytes_read_back(v, 2);
    let s = bytes::le_bytes(v, 2) + tail;
    assert(s.take(2) =~= bytes::le_bytes(v, 2));
    assert(s.skip(2) =~= tail);
}

proof fn lemma_utf16_front(s: Seq<char>)
    requires
        s.len() > 0,
    ensures
        bytes::utf16(s) == bytes::utf16_char(s[0]) + bytes::utf16(s.skip(1)),
    decreases s.len(),
{
    let t = s.drop_last();
    if s.len() == 1 {
        assert(t =~= Seq::<char>::empty());
        assert(s.skip(1) =~= Seq::<char>::empty());
        assert(bytes::utf16(s) =~= bytes::utf16_char(s[0]) + bytes::utf16(s.skip(1)));
    } else {
        lemma_utf16_front(t);
        assert(s.skip(1).drop_last() =~= t.skip(1));
        assert(s.skip(1).last() == s.last());
        assert(t[0] == s[0]);
        assert(bytes::utf16(s) =~= bytes::utf16_char(s[0]) + bytes::utf16(s.skip(1)));
    }
}

/// One character is read back in front of the rest of a name.
proof fn lemma_name_char(c: char, tail: Seq<u8>)
    requires
        c != '\0',
        read_name(tail) is Some,
    ensures
        read_name(bytes::utf16_char(c) + tail) == Some(
            (seq![(c as u32) as nat] + (read_name(tail)->0).0, (read_name(tail)->0).1),
        ),
{
    let n = (c as u32) as nat;
    if n < 0x1_0000 {
        lemma_unit(n, tail);
    } else {
        let over = (n - 0x1_0000) as nat;
        let lead = 0xD800 + over / 0x400;
        let trail = 0xDC00 + over % 0x400;
        let rest = bytes::le_bytes(trail, 2) + tail;
        assert(over < 0x10_0000);
        assert(bytes::utf16_char(c) + tail =~= bytes::le_bytes(lead, 2) + rest);
        lemma_unit(lead, rest);
        lemma_unit(trail, tail);
        assert(over == (over / 0x400) * 0x400 + over % 0x400);
    }
}

/// A name without a zero is read back.
proof fn lemma_name(name: Seq<char>, rest: Seq<u8>)
    requires
        !name.contains('\0'),
    ensures
        read_name(bytes::utf16(name) + seq![0u8, 0u8] + rest) == Some((code_points(name), rest)),
    decreases name.len(),
{
    let zero = seq![0u8, 0u8] + rest;
    if name.len() == 0 {
        assert(bytes::utf16(name) + seq![0u8, 0u8] + rest =~= zero);
        assert(zero.take(2) =~= seq![0u8, 0u8]);
        assert(zero.skip(2) =~= rest);
        reveal_with_fuel(bytes::le_value, 3);
        assert(bytes::le_value(seq![0u8, 0u8]) == 0);
        assert(code_points(name) =~= Seq::<nat>::empty());
    } else {
        let t = name.skip(1);
        let c = name[0];
        assert(name.contains(c));
        assert forall|i: int| 0 <= i < t.len() implies t[i] != '\0' by {
            assert(t[i] == name[i + 1]);
            assert(name.contains(name[i + 1]));
        }
        lemma_utf16_front(name);
        lemma_name(t, rest);
        let tail = bytes::utf16(t) + seq![0u8, 0u8] + rest;
        assert(bytes::utf16(name) + seq![0u8, 0u8] + rest =~= bytes::utf16_char(c) + tail);
        lemma_name_char(c, tail);
        assert(code_points(name) =~= seq![(c as u32) as nat] + code_points(t));
    }
}

proof fn lemma_names(files: Seq<FileView>, rest: Seq<u8>)
    requires
        forall|i: int| 0 <= i < files.len() ==> !(#[trigger] files[i]).name.contains('\0'),
    ensures
        read_names(sevenz_header::gather(files, sevenz_header::name_part()) + rest, files.len())
            == Some((names(files), rest)),
    decreases files.len(),
{
    let part = sevenz_header::name_part();
    if files.len() == 0 {
        assert(sevenz_header::gather(files, part) + rest =~= rest);
        assert(names(files) =~= Seq::<Seq<nat>>::empty());
    } else {
        lemma_gather_front(files, part);
        let tail = sevenz_header::gather(files.skip(1), part) + rest;
        assert(sevenz_header::gather(files, part) + rest =~= bytes::utf16(files[0].name) + seq![
            0u8,
            0u8,
        ] + tail);
        lemma_name(files[0].name, tail);
        assert forall|i: int| 0 <= i < files.skip(1).len() implies !(#[trigger] files.skip(
            1,
        )[i]).name.contains('\0') by {
            assert(files.skip(1)[i] == files[i + 1]);
        }
        lemma_names(files.skip(1), rest);
        assert(names(files) =~= seq![code_points(files[0].name)] + names(files.skip(1)));
    }
}

// ---------------------------------------------------------------------------------------------
// Properties of the files
// ---------------------------------------------------------------------------------------------
/// The properties in front of `s`, up to their end mark, and what follows it.
pub open spec fn read_properties(s: Seq<u8>) -> Option<(Seq<(u8, Seq<u8>)>, Seq<u8>)>
    decreases s.len(),
{
    if s.len() == 0 {
        None
    } else if s[0] == K_END {
        Some((Seq::empty(), s.skip(1)))
    } else {
        match bytes::read_number(s.skip(1)) {
            None => None,
            Some((n, t)) => if t.len() < n || t.skip(n as int).len() >= s.len() {
                None
            } else {
                match read_properties(t.skip(n as int)) {
                    None => None,
                    Some((ps, u)) => Some((seq![(s[0], t.take(n as int))] + ps, u)),
                }
            },
        }
    }
}

/// The body of the first property with an identifier.
pub open spec fn find_property(ps: Seq<(u8, Seq<u8>)>, id: u8) -> Option<Seq<u8>>
    decreases ps.len(),
{
    if ps.len() == 0 {
        None
    } else if ps[0].0 == id {
        Some(ps[0].1)
    } else {
        find_property(ps.skip(1), id)
    }
}

/// A property is read back in front of the others.
proof fn lemma_property(id: u8, body: Seq<u8>, tail: Seq<u8>)
    requires
        id != K_END,
        body.len() <= u64::MAX,
        read_properties(tail) is Some,
    ensures
        read_properties(sevenz_header::property(id, body) + tail) == Some(
            (seq![(id, body)] + (read_properties(tail)->0).0, (read_properties(tail)->0).1),
        ),
{
    let t = body + tail;
    let s = sevenz_header::property(id, body) + tail;
    assert(s.skip(1) =~= bytes::number(body.len() as u64) + t);
    assert(s[0] == id);
    bytes::law_number_reads_back(body.len() as u64, t);
    assert(t.take(body.len() as int) =~= body);
    assert(t.skip(body.len() as int) =~= tail);
}

/// One property, or none.
pub open spec fn optional(present: bool, id: u8, body: Seq<u8>) -> Seq<(u8, Seq<u8>)> {
    if present {
        seq![(id, body)]
    } else {
        Seq::empty()
    }
}

/// The bytes of one property, or nothing.
pub open spec fn optional_bytes(present: bool, id: u8, body: Seq<u8>) -> Seq<u8> {
    if present {
        sevenz_header::property(id, body)
    } else {
        Seq::empty()
    }
}

proof fn lemma_optional(present: bool, id: u8, body: Seq<u8>, tail: Seq<u8>)
    requires
        id != K_END,
        present ==> body.len() <= u64::MAX,
        read_properties(tail) is Some,
    ensures
        read_properties(optional_bytes(present, id, body) + tail) == Some(
            (optional(present, id, body) + (read_properties(tail)->0).0, (read_properties(tail)->0).1),
        ),
{
    if present {
        lemma_property(id, body, tail);
    } else {
        assert(optional_bytes(present, id, body) + tail =~= tail);
        assert(optional(present, id, body) + (read_properties(tail)->0).0
            =~= (read_properties(tail)->0).0);
    }
}

/// A property is found in front of others, unless it is not there.
proof fn lemma_find(present: bool, id: u8, body: Seq<u8>, tail: Seq<(u8, Seq<u8>)>, wanted: u8)
    ensures
        find_property(optional(present, id, body) + tail, wanted) == (if present && id == wanted {
            Some(body)
        } else {
            find_property(tail, wanted)
        }),
{
    let all = optional(present, id, body) + tail;
    if present {
        assert(all[0] == (id, body));
        assert(all.skip(1) =~= tail);
    } else {
        assert(all =~= tail);
    }
}

/// Some file is empty.
pub open spec fn has_empty(files: Seq<FileView>) -> bool {
    files.len() != sevenz_header::streams(files).len()
}

/// The body of the property with the names.
pub open spec fn names_body(files: Seq<FileView>) -> Seq<u8> {
    seq![0u8] + sevenz_header::gather(files, sevenz_header::name_part())
}

/// The body of the property that marks files without content.
pub open spec fn blank_body(files: Seq<FileView>) -> Seq<u8> {
    bytes::bit_set(
        sevenz_header::all_set((files.len() - sevenz_header::streams(files).len()) as nat),
    )
}

/// The body of the property that marks files without a stream.
pub open spec fn empty_body(files: Seq<FileView>) -> Seq<u8> {
    bytes::bit_set(sevenz_header::empty_flags(files))
}

/// There is a value for some file.
pub open spec fn known(values: Seq<Option<u64>>) -> bool {
    sevenz_header::known_count(values) > 0
}

/// The attributes.
pub open spec fn attribute_part(files: Seq<FileView>) -> Seq<(u8, Seq<u8>)> {
    let w = sevenz_header::attributes(files);
    optional(known(w), K_WIN_ATTRIBUTES, sevenz_header::value_body(w, 4)) + Seq::empty()
}

/// The modification times and what follows them.
pub open spec fn mtime_part(files: Seq<FileView>) -> Seq<(u8, Seq<u8>)> {
    let m = sevenz_header::mtimes(files);
    optional(known(m), K_M_TIME, sevenz_header::value_body(m, 8)) + attribute_part(files)
}

/// The access times and what follows them.
pub open spec fn atime_part(files: Seq<FileView>) -> Seq<(u8, Seq<u8>)> {
    let a = sevenz_header::atimes(files);
    optional(known(a), K_A_TIME, sevenz_header::value_body(a, 8)) + mtime_part(files)
}

/// The creation times and what follows them.
pub open spec fn ctime_part(files: Seq<FileView>) -> Seq<(u8, Seq<u8>)> {
    let c = sevenz_header::ctimes(files);
    optional(known(c), K_C_TIME, sevenz_header::value_body(c, 8)) + atime_part(files)
}

/// The names and what follows them.
pub open spec fn name_part(files: Seq<FileView>) -> Seq<(u8, Seq<u8>)> {
    optional(true, K_NAME, names_body(files)) + ctime_part(files)
}

/// The marks of empty files without content and what follows them.
pub open spec fn blank_part(files: Seq<FileView>) -> Seq<(u8, Seq<u8>)> {
    optional(has_empty(files), K_EMPTY_FILE, blank_body(files)) + name_part(files)
}

/// All properties of the files.
pub open spec fn all_parts(files: Seq<FileView>) -> Seq<(u8, Seq<u8>)> {
    optional(has_empty(files), K_EMPTY_STREAM, empty_body(files)) + blank_part(files)
}

proof fn lemma_streams_len(files: Seq<FileView>)
    ensures
        sevenz_header::streams(files).len() <= files.len(),
    decreases files.len(),
{
    if files.len() > 0 {
        lemma_streams_len(files.drop_last());
    }
}

/// A property is longer than its body.
proof fn lemma_optional_len(present: bool, id: u8, body: Seq<u8>)
    ensures
        present ==> body.len() < optional_bytes(present, id, body).len(),
{
}

/// Putting brackets elsewhere changes nothing.
proof fn lemma_regroup(
    k: Seq<u8>,
    n: Seq<u8>,
    b0: Seq<u8>,
    b1: Seq<u8>,
    b2: Seq<u8>,
    b3: Seq<u8>,
    b4: Seq<u8>,
    b5: Seq<u8>,
    b6: Seq<u8>,
    e: Seq<u8>,
    rest: Seq<u8>,
)
    ensures
        k + n + (b0 + b1) + b2 + b3 + b4 + b5 + b6 + e + rest == k + (n + (b0 + (b1 + (b2 + (b3 + (
        b4 + (b5 + (b6 + (e + rest))))))))),
        b0.len() + b1.len() + b2.len() + b3.len() + b4.len() + b5.len() + b6.len() <= (k + n + (b0
            + b1) + b2 + b3 + b4 + b5 + b6 + e).len(),
{
    assert(k + n + (b0 + b1) + b2 + b3 + b4 + b5 + b6 + e + rest =~= k + (n + (b0 + (b1 + (b2 + (b3
        + (b4 + (b5 + (b6 + (e + rest))))))))));
}

/// The bytes of the properties of the files, one after the other.
proof fn lemma_info_bytes(files: Seq<FileView>)
    ensures
        ({
            let c = sevenz_header::ctimes(files);
            let a = sevenz_header::atimes(files);
            let m = sevenz_header::mtimes(files);
            let w = sevenz_header::attributes(files);
            let b0 = optional_bytes(has_empty(files), K_EMPTY_STREAM, empty_body(files));
            let b1 = optional_bytes(has_empty(files), K_EMPTY_FILE, blank_body(files));
            let b2 = optional_bytes(true, K_NAME, names_body(files));
            let b3 = optional_bytes(known(c), K_C_TIME, sevenz_header::value_body(c, 8));
            let b4 = optional_bytes(known(a), K_A_TIME, sevenz_header::value_body(a, 8));
            let b5 = optional_bytes(known(m), K_M_TIME, sevenz_header::value_body(m, 8));
            let b6 = optional_bytes(known(w), K_WIN_ATTRIBUTES, sevenz_header::value_body(w, 4));
            sevenz_header::files_info(files) == seq![K_FILES_INFO] + bytes::number(
                files.len() as u64,
            ) + (b0 + b1) + b2 + b3 + b4 + b5 + b6 + seq![K_END]
        }),
{
    lemma_streams_len(files);
    let b0 = optional_bytes(has_empty(files), K_EMPTY_STREAM, empty_body(files));
    let b1 = optional_bytes(has_empty(files), K_EMPTY_FILE, blank_body(files));
    assert(sevenz_header::empty_info(files) =~= b0 + b1);
}

/// The properties of the files are read back.
proof fn lemma_properties(files: Seq<FileView>, rest: Seq<u8>)
    requires
        sevenz_header::files_info(files).len() <= u64::MAX,
        files.len() <= u64::MAX,
    ensures
        expect(sevenz_header::files_info(files) + rest, seq![K_FILES_INFO]) is Some,
        ({
            let a = expect(sevenz_header::files_info(files) + rest, seq![K_FILES_INFO])->0;
            let b = bytes::read_number(a);
            &&& b is Some
            &&& (b->0).0 == files.len()
            &&& read_properties((b->0).1) == Some((all_parts(files), rest))
        }),
{
    let c = sevenz_header::ctimes(files);
    let a = sevenz_header::atimes(files);
    let m = sevenz_header::mtimes(files);
    let w = sevenz_header::attributes(files);
    let b0 = optional_bytes(has_empty(files), K_EMPTY_STREAM, empty_body(files));
    let b1 = optional_bytes(has_empty(files), K_EMPTY_FILE, blank_body(files));
    let b2 = optional_bytes(true, K_NAME, names_body(files));
    let b3 = optional_bytes(known(c), K_C_TIME, sevenz_header::value_body(c, 8));
    let b4 = optional_bytes(known(a), K_A_TIME, sevenz_header::value_body(a, 8));
    let b5 = optional_bytes(known(m), K_M_TIME, sevenz_header::value_body(m, 8));
    let b6 = optional_bytes(known(w), K_WIN_ATTRIBUTES, sevenz_header::value_body(w, 4));
    let count = bytes::number(files.len() as u64);
    let t7 = seq![K_END] + rest;
    let t6 = b6 + t7;
    let t5 = b5 + t6;
    let t4 = b4 + t5;
    let t3 = b3 + t4;
    let t2 = b2 + t3;
    let t1 = b1 + t2;
    let t0 = b0 + t1;
    lemma_info_bytes(files);
    lemma_regroup(
        seq![K_FILES_INFO],
        count,
        b0,
        b1,
        b2,
        b3,
        b4,
        b5,
        b6,
        seq![K_END],
        rest,
    );
    lemma_optional_len(has_empty(files), K_EMPTY_STREAM, empty_body(files));
    lemma_optional_len(has_empty(files), K_EMPTY_FILE, blank_body(files));
    lemma_optional_len(true, K_NAME, names_body(files));
    lemma_optional_len(known(c), K_C_TIME, sevenz_header::value_body(c, 8));
    lemma_optional_len(known(a), K_A_TIME, sevenz_header::value_body(a, 8));
    lemma_optional_len(known(m), K_M_TIME, sevenz_header::value_body(m, 8));
    lemma_optional_len(known(w), K_WIN_ATTRIBUTES, sevenz_header::value_body(w, 4));
    lemma_expect(seq![K_FILES_INFO], count + t0);
    bytes::law_number_reads_back(files.len() as u64, t0);
    lemma_tail(files, rest);
}

/// The properties are read back, from the last to the first.
proof fn lemma_tail(files: Seq<FileView>, rest: Seq<u8>)
    requires
        empty_body(files).len() <= u64::MAX || !has_empty(files),
        blank_body(files).len() <= u64::MAX || !has_empty(files),
        names_body(files).len() <= u64::MAX,
        known(sevenz_header::ctimes(files)) ==> sevenz_header::value_body(
            sevenz_header::ctimes(files),
            8,
        ).len() <= u64::MAX,
        known(sevenz_header::atimes(files)) ==> sevenz_header::value_body(
            sevenz_header::atimes(files),
            8,
        ).len() <= u64::MAX,
        known(sevenz_header::mtimes(files)) ==> sevenz_header::value_body(
            sevenz_header::mtimes(files),
            8,
        ).len() <= u64::MAX,
        known(sevenz_header::attributes(files)) ==> sevenz_header::value_body(
            sevenz_header::attributes(files),
            4,
        ).len() <= u64::MAX,
    ensures
        ({
            let c = sevenz_header::ctimes(files);
            let a = sevenz_header::atimes(files);
            let m = sevenz_header::mtimes(files);
            let w = sevenz_header::attributes(files);
            let b0 = optional_bytes(has_empty(files), K_EMPTY_STREAM, empty_body(files));
            let b1 = optional_bytes(has_empty(files), K_EMPTY_FILE, blank_body(files));
            let b2 = optional_bytes(true, K_NAME, names_body(files));
            let b3 = optional_bytes(known(c), K_C_TIME, sevenz_header::value_body(c, 8));
            let b4 = optional_bytes(known(a), K_A_TIME, sevenz_header::value_body(a, 8));
            let b5 = optional_bytes(known(m), K_M_TIME, sevenz_header::value_body(m, 8));
            let b6 = optional_bytes(known(w), K_WIN_ATTRIBUTES, sevenz_header::value_body(w, 4));
            read_properties(
                b0 + (b1 + (b2 + (b3 + (b4 + (b5 + (b6 + (seq![K_END] + rest))))))),
            ) == Some((all_parts(files), rest))
        }),
{
    let c = sevenz_header::ctimes(files);
    let a = sevenz_header::atimes(files);
    let m = sevenz_header::mtimes(files);
    let w = sevenz_header::attributes(files);
    let t7 = seq![K_END] + rest;
    let t6 = optional_bytes(known(w), K_WIN_ATTRIBUTES, sevenz_header::value_body(w, 4)) + t7;
    let t5 = optional_bytes(known(m), K_M_TIME, sevenz_header::value_body(m, 8)) + t6;
    let t4 = optional_bytes(known(a), K_A_TIME, sevenz_header::value_body(a, 8)) + t5;
    let t3 = optional_bytes(known(c), K_C_TIME, sevenz_header::value_body(c, 8)) + t4;
    let t2 = optional_bytes(true, K_NAME, names_body(files)) + t3;
    let t1 = optional_bytes(has_empty(files), K_EMPTY_FILE, blank_body(files)) + t2;
    lemma_end(rest);
    lemma_optional(known(w), K_WIN_ATTRIBUTES, sevenz_header::value_body(w, 4), t7);
    lemma_optional(known(m), K_M_TIME, sevenz_header::value_body(m, 8), t6);
    lemma_optional(known(a), K_A_TIME, sevenz_header::value_body(a, 8), t5);
    lemma_optional(known(c), K_C_TIME, sevenz_header::value_body(c, 8), t4);
    lemma_optional(true, K_NAME, names_body(files), t3);
    lemma_optional(has_empty(files), K_EMPTY_FILE, blank_body(files), t2);
    lemma_optional(has_empty(files), K_EMPTY_STREAM, empty_body(files), t1);
}

proof fn lemma_end(rest: Seq<u8>)
    ensures
        read_properties(seq![K_END] + rest) == Some((Seq::<(u8, Seq<u8>)>::empty(), rest)),
{
    let s = seq![K_END] + rest;
    assert(s.skip(1) =~= rest);
}

/// Each property is found.
proof fn lemma_found(files: Seq<FileView>)
    ensures
        ({
            let ps = all_parts(files);
            let c = sevenz_header::ctimes(files);
            let a = sevenz_header::atimes(files);
            let m = sevenz_header::mtimes(files);
            let w = sevenz_header::attributes(files);
            &&& find_property(ps, K_EMPTY_STREAM) == (if has_empty(files) {
                Some(empty_body(files))
            } else {
                None
            })
            &&& find_property(ps, K_NAME) == Some(names_body(files))
            &&& find_property(ps, K_C_TIME) == (if known(c) {
                Some(sevenz_header::value_body(c, 8))
            } else {
                None
            })
            &&& find_property(ps, K_A_TIME) == (if known(a) {
                Some(sevenz_header::value_body(a, 8))
            } else {
                None
            })
            &&& find_property(ps, K_M_TIME) == (if known(m) {
                Some(sevenz_header::value_body(m, 8))
            } else {
                None
            })
            &&& find_property(ps, K_WIN_ATTRIBUTES) == (if known(w) {
                Some(sevenz_header::value_body(w, 4))
            } else {
                None
            })
        }),
{
    lemma_find_all(files, K_EMPTY_STREAM);
    lemma_find_all(files, K_NAME);
    lemma_find_all(files, K_C_TIME);
    lemma_find_all(files, K_A_TIME);
    lemma_find_all(files, K_M_TIME);
    lemma_find_all(files, K_WIN_ATTRIBUTES);
}

proof fn lemma_find_all(files: Seq<FileView>, wanted: u8)
    ensures
        ({
            let c = sevenz_header::ctimes(files);
            let a = sevenz_header::atimes(files);
            let m = sevenz_header::mtimes(files);
            let w = sevenz_header::attributes(files);
            find_property(all_parts(files), wanted) == (if has_empty(files) && wanted
                == K_EMPTY_STREAM {
                Some(empty_body(files))
            } else if has_empty(files) && wanted == K_EMPTY_FILE {
                Some(blank_body(files))
            } else if wanted == K_NAME {
                Some(names_body(files))
            } else if known(c) && wanted == K_C_TIME {
                Some(sevenz_header::value_body(c, 8))
            } else if known(a) && wanted == K_A_TIME {
                Some(sevenz_header::value_body(a, 8))
            } else if known(m) && wanted == K_M_TIME {
                Some(sevenz_header::value_body(m, 8))
            } else if known(w) && wanted == K_WIN_ATTRIBUTES {
                Some(sevenz_header::value_body(w, 4))
            } else {
                None
            })
        }),
{
    let c = sevenz_header::ctimes(files);
    let a = sevenz_header::atimes(files);
    let m = sevenz_header::mtimes(files);
    let w = sevenz_header::attributes(files);
    lemma_find(
        known(w),
        K_WIN_ATTRIBUTES,
        sevenz_header::value_body(w, 4),
        Seq::empty(),
        wanted,
    );
    lemma_find(
        known(m),
        K_M_TIME,
        sevenz_header::value_body(m, 8),
        attribute_part(files),
        wanted,
    );
    lemma_find(known(a), K_A_TIME, sevenz_header::value_body(a, 8), mtime_part(files), wanted);
    lemma_find(known(c), K_C_TIME, sevenz_header::value_body(c, 8), atime_part(files), wanted);
    lemma_find(true, K_NAME, names_body(files), ctime_part(files), wanted);
    lemma_find(has_empty(files), K_EMPTY_FILE, blank_body(files), name_part(files), wanted);
    lemma_find(has_empty(files), K_EMPTY_STREAM, empty_body(files), blank_part(files), wanted);
}

// ---------------------------------------------------------------------------------------------
// The whole header
// ---------------------------------------------------------------------------------------------
/// What a reader knows of a stream.
#[verifier::ext_equal]
pub struct ReadStream {
    pub pack_size: nat,
    pub pack_crc: nat,
    pub method_id: Seq<u8>,
    pub method_props: Seq<u8>,
    pub size: nat,
    pub crc: nat,
}

/// What a reader knows of a file.
#[verifier::ext_equal]
pub struct ReadFile {
    /// The name, as code points.
    pub name: Seq<nat>,
    /// Its stream; an empty file has none.
    pub stream: Option<ReadStream>,
    pub mtime: Option<nat>,
    pub ctime: Option<nat>,
    pub atime: Option<nat>,
    pub attributes: Option<nat>,
}

/// How many of the first `i` files have a stream.
pub open spec fn streams_before(empty: Seq<bool>, i: int) -> nat
    decreases i,
{
    if i <= 0 {
        0
    } else {
        streams_before(empty, i - 1) + (if empty[i - 1] {
            0nat
        } else {
            1
        })
    }
}

/// The value for file `i` in a property that may be missing.
pub open spec fn read_known(body: Option<Seq<u8>>, n: nat, width: nat, i: int) -> Option<nat> {
    match body {
        None => None,
        Some(b) => header_laws::read_value(b, n, width, i),
    }
}

/// Which of `n` files have no stream.
pub open spec fn read_empty(body: Option<Seq<u8>>, n: nat) -> Seq<bool> {
    match body {
        None => Seq::new(n, |i: int| false),
        Some(b) => Seq::new(n, |i: int| bytes::bit_at(b, i)),
    }
}

/// The files that a header describes; `None` where the bytes are no header.
pub open spec fn read_header(s: Seq<u8>) -> Option<Seq<ReadFile>> {
    match expect(s, seq![K_HEADER, K_MAIN_STREAMS_INFO]) {
        None => None,
        Some(a) => match read_streams(a) {
            None => None,
            Some((st, b)) => match expect(b, seq![K_FILES_INFO]) {
                None => None,
                Some(c) => match bytes::read_number(c) {
                    None => None,
                    Some((n, d)) => match read_properties(d) {
                        None => None,
                        Some((ps, e)) => match find_property(ps, K_NAME) {
                            None => None,
                            Some(nb) => match read_names(nb.skip(1), n) {
                                None => None,
                                Some((file_names, f)) => if e != seq![K_END] {
                                    None
                                } else {
                                    Some(read_files(n, st, ps, file_names))
                                },
                            },
                        },
                    },
                },
            },
        },
    }
}

/// The files, from what was read of their streams, properties and names.
pub open spec fn read_files(
    n: nat,
    st: StreamsRead,
    ps: Seq<(u8, Seq<u8>)>,
    file_names: Seq<Seq<nat>>,
) -> Seq<ReadFile> {
    let empty = read_empty(find_property(ps, K_EMPTY_STREAM), n);
    Seq::new(
        n,
        |i: int|
            {
                let k = streams_before(empty, i) as int;
                ReadFile {
                    name: file_names[i],
                    stream: if empty[i] {
                        None
                    } else {
                        Some(
                            ReadStream {
                                pack_size: st.pack_sizes[k],
                                pack_crc: st.pack_crcs[k],
                                method_id: st.methods[k].0,
                                method_props: st.methods[k].1,
                                size: st.sizes[k],
                                crc: st.crcs[k],
                            },
                        )
                    },
                    mtime: read_known(find_property(ps, K_M_TIME), n, 8, i),
                    ctime: read_known(find_property(ps, K_C_TIME), n, 8, i),
                    atime: read_known(find_property(ps, K_A_TIME), n, 8, i),
                    attributes: read_known(find_property(ps, K_WIN_ATTRIBUTES), n, 4, i),
                }
            },
    )
}

/// What a reader is to know of a file.
pub open spec fn told(f: FileView) -> ReadFile {
    ReadFile {
        name: code_points(f.name),
        stream: if f.empty {
            None
        } else {
            Some(
                ReadStream {
                    pack_size: f.pack_size as nat,
                    pack_crc: f.pack_crc as nat,
                    method_id: f.method_id,
                    method_props: f.method_props,
                    size: f.unpack_size as nat,
                    crc: f.content_crc as nat,
                },
            )
        },
        mtime: sevenz_header::opt_nat(f.meta.mtime),
        ctime: sevenz_header::opt_nat(f.meta.ctime),
        atime: sevenz_header::opt_nat(f.meta.atime),
        attributes: sevenz_header::opt_nat(sevenz_header::widen(f.meta.windows_attributes)),
    }
}

/// The stream of a file stands where the files before it say.
proof fn lemma_stream_at(files: Seq<FileView>, i: int)
    requires
        0 <= i < files.len(),
    ensures
        ({
            let k = streams_before(sevenz_header::empty_flags(files), i) as int;
            !files[i].empty ==> k < sevenz_header::streams(files).len()
                && sevenz_header::streams(files)[k] == files[i]
        }),
        streams_before(sevenz_header::empty_flags(files), i) <= sevenz_header::streams(files).len(),
        streams_before(sevenz_header::empty_flags(files), files.len() as int)
            == sevenz_header::streams(files).len(),
    decreases files.len(),
{
    let t = files.drop_last();
    let e = sevenz_header::empty_flags(files);
    let f = sevenz_header::empty_flags(t);
    assert(e.drop_last() =~= f);
    if t.len() > 0 {
        lemma_stream_at(t, if i < t.len() {
            i
        } else {
            0
        });
    }
    lemma_before_prefix(e, f, i);
    lemma_before_prefix(e, f, t.len() as int);
    if t.len() == 0 {
        assert(sevenz_header::streams(t).len() == 0);
    }
}

proof fn lemma_before_prefix(e: Seq<bool>, f: Seq<bool>, i: int)
    requires
        f == e.drop_last(),
        i <= f.len(),
        e.len() > 0,
    ensures
        streams_before(e, i) == streams_before(f, i),
    decreases i,
{
    if i > 0 {
        lemma_before_prefix(e, f, i - 1);
        assert(e[i - 1] == f[i - 1]);
    }
}

/// Where no file is empty, each has a stream.
proof fn lemma_none_empty(files: Seq<FileView>)
    requires
        !has_empty(files),
    ensures
        forall|i: int| 0 <= i < files.len() ==> !(#[trigger] files[i]).empty,
    decreases files.len(),
{
    if files.len() > 0 {
        let t = files.drop_last();
        lemma_streams_len(t);
        lemma_none_empty(t);
        assert forall|i: int| 0 <= i < files.len() implies !(#[trigger] files[i]).empty by {
            if i < t.len() {
                assert(t[i] == files[i]);
            }
        }
    }
}

/// Where no value is known, none is.
proof fn lemma_none_known(values: Seq<Option<u64>>, i: int)
    requires
        !known(values),
        0 <= i < values.len(),
    ensures
        values[i] is None,
    decreases values.len(),
{
    if i < values.len() - 1 {
        lemma_none_known(values.drop_last(), i);
    }
}

/// A value is read back from a property that may be missing.
proof fn lemma_known(values: Seq<Option<u64>>, width: nat, i: int)
    requires
        0 <= i < values.len(),
        forall|k: int|
            0 <= k < values.len() && (#[trigger] values[k]) is Some ==> values[k]->0
                < bytes::pow256(width),
    ensures
        read_known(
            if known(values) {
                Some(sevenz_header::value_body(values, width))
            } else {
                None
            },
            values.len(),
            width,
            i,
        ) == sevenz_header::opt_nat(values[i]),
{
    if known(values) {
        header_laws::law_values_read_back(values, width, i);
    } else {
        lemma_none_known(values, i);
    }
}

proof fn lemma_streams_sound(files: Seq<FileView>)
    requires
        forall|i: int| 0 <= i < files.len() ==> sound_method(#[trigger] files[i]),
    ensures
        forall|i: int|
            0 <= i < sevenz_header::streams(files).len() ==> sound_method(
                #[trigger] sevenz_header::streams(files)[i],
            ),
    decreases files.len(),
{
    if files.len() > 0 {
        let t = files.drop_last();
        assert forall|i: int| 0 <= i < t.len() implies sound_method(#[trigger] t[i]) by {
            assert(t[i] == files[i]);
        }
        assert(sound_method(files[files.len() - 1]));
        lemma_streams_sound(t);
        let all = sevenz_header::streams(files);
        let before = sevenz_header::streams(t);
        assert forall|i: int| 0 <= i < all.len() implies sound_method(#[trigger] all[i]) by {
            if i < before.len() {
                assert(all[i] == before[i]);
            }
        }
    }
}

/// Which files are empty is read back.
proof fn lemma_empty_read(files: Seq<FileView>)
    ensures
        read_empty(find_property(all_parts(files), K_EMPTY_STREAM), files.len())
            == sevenz_header::empty_flags(files),
{
    let flags = sevenz_header::empty_flags(files);
    let empty = read_empty(find_property(all_parts(files), K_EMPTY_STREAM), files.len());
    lemma_find_all(files, K_EMPTY_STREAM);
    if has_empty(files) {
        assert forall|k: int| 0 <= k < files.len() implies empty[k] == flags[k] by {
            bytes::law_bit_set_reads_back(flags, k);
        }
    } else {
        lemma_none_empty(files);
    }
    assert(empty =~= flags);
}

/// The times and attributes of a file are read back.
proof fn lemma_meta_read(files: Seq<FileView>, i: int)
    requires
        0 <= i < files.len(),
    ensures
        ({
            let n = files.len();
            let ps = all_parts(files);
            let f = files[i];
            &&& read_known(find_property(ps, K_M_TIME), n, 8, i) == sevenz_header::opt_nat(
                f.meta.mtime,
            )
            &&& read_known(find_property(ps, K_C_TIME), n, 8, i) == sevenz_header::opt_nat(
                f.meta.ctime,
            )
            &&& read_known(find_property(ps, K_A_TIME), n, 8, i) == sevenz_header::opt_nat(
                f.meta.atime,
            )
            &&& read_known(find_property(ps, K_WIN_ATTRIBUTES), n, 4, i) == sevenz_header::opt_nat(
                sevenz_header::widen(f.meta.windows_attributes),
            )
        }),
{
    lemma_found(files);
    reveal_with_fuel(bytes::pow256, 9);
    lemma_known(sevenz_header::mtimes(files), 8, i);
    lemma_known(sevenz_header::ctimes(files), 8, i);
    lemma_known(sevenz_header::atimes(files), 8, i);
    lemma_known(sevenz_header::attributes(files), 4, i);
}

/// What is read of one file.
proof fn lemma_read_file(files: Seq<FileView>, i: int)
    requires
        0 <= i < files.len(),
    ensures
        read_files(
            files.len(),
            streams_of(sevenz_header::streams(files)),
            all_parts(files),
            names(files),
        )[i] == told(files[i]),
{
    lemma_empty_read(files);
    lemma_stream_at(files, i);
    lemma_meta_read(files, i);
}

/// Law: from the header of an archive a reader gets back every file as it was written: its name,
/// its stream with length, checksum and method, the length and checksum of its content, and what
/// is known of its times and attributes. Names hold no zero character, which would end them.
pub proof fn law_header_reads_back(files: Seq<FileView>)
    requires
        sevenz_header::raw_header(files).len() <= u64::MAX,
        files.len() <= u64::MAX,
        forall|i: int| 0 <= i < files.len() ==> !(#[trigger] files[i]).name.contains('\0'),
        forall|i: int| 0 <= i < files.len() ==> sound_method(#[trigger] files[i]),
    ensures
        read_header(sevenz_header::raw_header(files)) == Some(
            files.map_values(|f: FileView| told(f)),
        ),
{
    let s = sevenz_header::streams(files);
    let end = seq![K_END];
    let info = sevenz_header::files_info(files);
    let b = info + end;
    let a = sevenz_header::streams_info(s) + end + b;
    lemma_streams_len(files);
    lemma_streams_sound(files);
    assert(sevenz_header::raw_header(files) =~= seq![K_HEADER, K_MAIN_STREAMS_INFO] + a);
    lemma_expect(seq![K_HEADER, K_MAIN_STREAMS_INFO], a);
    lemma_streams(s, b);
    lemma_properties(files, end);
    lemma_found(files);
    let nb = names_body(files);
    let gathered = sevenz_header::gather(files, sevenz_header::name_part());
    assert(nb.skip(1) =~= gathered + Seq::<u8>::empty());
    lemma_names(files, Seq::empty());
    let read = read_files(files.len(), streams_of(s), all_parts(files), names(files));
    let wanted = files.map_values(|f: FileView| told(f));
    assert forall|i: int| 0 <= i < files.len() implies read[i] == wanted[i] by {
        lemma_read_file(files, i);
    }
    assert(read =~= wanted);
}

} // verus!
