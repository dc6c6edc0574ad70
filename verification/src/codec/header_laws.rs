//! What a reader gets back of the times and attributes that a header holds.

use crate::codec::bytes;
use crate::codec::checksum;
use crate::codec::sevenz_header;
use crate::codec::sevenz_header::FileView;
use vstd::prelude::*;

verus! {

/// How many flags are set.
pub open spec fn set_count(flags: Seq<bool>) -> nat
    decreases flags.len(),
{
    if flags.len() == 0 {
        0
    } else {
        set_count(flags.drop_last()) + (if flags.last() {
            1nat
        } else {
            0
        })
    }
}

/// Which of `n` values the body of a property holds.
#[verifier::opaque]
pub open spec fn read_flags(body: Seq<u8>, n: nat) -> Seq<bool> {
    if body[0] == 1 {
        sevenz_header::all_set(n)
    } else {
        Seq::new(n, |k: int| bytes::bit_at(body.subrange(1, 1 + (n as int + 7) / 8), k))
    }
}

/// Where the values begin in the body of a property for `n` files.
pub open spec fn values_from(body: Seq<u8>, n: nat) -> int {
    if body[0] == 1 {
        2
    } else {
        2 + (n as int + 7) / 8
    }
}

/// The value for file `i` in the body of a property for `n` files.
pub open spec fn read_value(body: Seq<u8>, n: nat, width: nat, i: int) -> Option<nat> {
    let flags = read_flags(body, n);
    let from = values_from(body, n) + width * set_count(flags.take(i));
    if flags[i] {
        Some(bytes::le_value(body.subrange(from, from + width)))
    } else {
        None
    }
}

proof fn lemma_counts(values: Seq<Option<u64>>)
    ensures
        set_count(sevenz_header::known_flags(values)) == sevenz_header::known_count(values),
        sevenz_header::known_count(values) <= values.len(),
        sevenz_header::known_count(values) == values.len() ==> forall|i: int|
            0 <= i < values.len() ==> (#[trigger] values[i]) is Some,
    decreases values.len(),
{
    if values.len() > 0 {
        let t = values.drop_last();
        lemma_counts(t);
        assert(sevenz_header::known_flags(values).drop_last() =~= sevenz_header::known_flags(t));
        if sevenz_header::known_count(values) == values.len() {
            assert forall|i: int| 0 <= i < values.len() implies (#[trigger] values[i]) is Some by {
                if i < t.len() {
                    assert(t[i] == values[i]);
                }
            }
        }
    }
}

proof fn lemma_value_at(values: Seq<Option<u64>>, width: nat, i: int)
    requires
        0 <= i < values.len(),
    ensures
        sevenz_header::value_bytes(values, width).len() == width * sevenz_header::known_count(
            values,
        ),
        values[i] is Some ==> ({
            let from = width * sevenz_header::known_count(values.take(i));
            &&& from + width <= sevenz_header::value_bytes(values, width).len()
            &&& sevenz_header::value_bytes(values, width).subrange(
                from as int,
                (from + width) as int,
            ) == bytes::le_bytes(values[i]->0 as nat, width)
        }),
    decreases values.len(),
{
    let t = values.drop_last();
    let whole = sevenz_header::value_bytes(values, width);
    let front = sevenz_header::value_bytes(t, width);
    let c = sevenz_header::known_count(t);
    if t.len() > 0 {
        lemma_value_at(t, width, if i < t.len() {
            i
        } else {
            0
        });
    } else {
        assert(front.len() == 0 && c == 0);
    }
    assert(width * (c + 1) == width * c + width) by (nonlinear_arith);
    match values.last() {
        Some(v) => {
            bytes::lemma_le_bytes(v as nat, width);
        },
        None => {},
    }
    if i < t.len() {
        assert(values.take(i) =~= t.take(i));
        if values[i] is Some {
            let from = (width * sevenz_header::known_count(values.take(i))) as int;
            assert(whole.subrange(from, from + width) =~= front.subrange(from, from + width));
        }
    } else {
        assert(values.take(i) =~= t);
        if values[i] is Some {
            let from = (width * c) as int;
            assert(whole.subrange(from, from + width) =~= bytes::le_bytes(
                values[i]->0 as nat,
                width,
            ));
        }
    }
}

/// Where all values are known, no flags are needed, and the values follow at once.
proof fn lemma_body_all(values: Seq<Option<u64>>, width: nat)
    requires
        values.len() > 0,
        sevenz_header::known_count(values) == values.len(),
    ensures
        read_flags(sevenz_header::value_body(values, width), values.len())
            == sevenz_header::known_flags(values),
        sevenz_header::value_body(values, width)[0] == 1,
        sevenz_header::value_body(values, width).len() >= 2,
        sevenz_header::value_body(values, width).skip(2) == sevenz_header::value_bytes(
            values,
            width,
        ),
{
    let data = sevenz_header::value_bytes(values, width);
    let body = sevenz_header::value_body(values, width);
    reveal(read_flags);
    lemma_counts(values);
    assert(body == seq![1u8] + seq![0u8] + data);
    assert(body[0] == 1);
    assert(sevenz_header::all_set(values.len()) =~= sevenz_header::known_flags(values));
    assert(body.skip(2) =~= data);
}

/// Where some value is not known, the flags tell which are, and the values follow them.
proof fn lemma_body_some(values: Seq<Option<u64>>, width: nat)
    requires
        values.len() > 0,
        sevenz_header::known_count(values) != values.len(),
    ensures
        read_flags(sevenz_header::value_body(values, width), values.len())
            == sevenz_header::known_flags(values),
        sevenz_header::value_body(values, width)[0] == 0,
        sevenz_header::value_body(values, width).len() >= 2 + (values.len() as int + 7) / 8,
        sevenz_header::value_body(values, width).skip(2 + (values.len() as int + 7) / 8)
            == sevenz_header::value_bytes(values, width),
{
    let n = values.len();
    let data = sevenz_header::value_bytes(values, width);
    let body = sevenz_header::value_body(values, width);
    let known = sevenz_header::known_flags(values);
    let bits = bytes::bit_set(known);
    assert(body == seq![0u8] + bits + seq![0u8] + data);
    bytes::law_bit_set_reads_back(known, 0);
    lemma_framed(bits, data);
    assert(body[0] == 0);
    assert(body.subrange(1, 1 + (n as int + 7) / 8) == bits);
    lemma_flags_read(body, known);
}

/// Flags between two zeros, and data behind them.
proof fn lemma_framed(bits: Seq<u8>, data: Seq<u8>)
    ensures
        ({
            let body = seq![0u8] + bits + seq![0u8] + data;
            &&& body[0] == 0
            &&& body.len() == 2 + bits.len() + data.len()
            &&& body.subrange(1, 1 + bits.len() as int) == bits
            &&& body.skip(2 + bits.len() as int) == data
        }),
{
    let body = seq![0u8] + bits + seq![0u8] + data;
    assert(body.subrange(1, 1 + bits.len() as int) =~= bits);
    assert(body.skip(2 + bits.len() as int) =~= data);
}

/// The flags are read back.
proof fn lemma_flags_read(body: Seq<u8>, known: Seq<bool>)
    requires
        body[0] == 0,
        body.subrange(1, 1 + (known.len() as int + 7) / 8) == bytes::bit_set(known),
    ensures
        read_flags(body, known.len()) == known,
{
    reveal(read_flags);
    let flags = read_flags(body, known.len());
    assert forall|k: int| 0 <= k < known.len() implies flags[k] == known[k] by {
        bytes::law_bit_set_reads_back(known, k);
    }
    assert(flags =~= known);
}

/// The flags in front of the values are those of the known values, and the values follow them.
proof fn lemma_body(values: Seq<Option<u64>>, width: nat)
    requires
        values.len() > 0,
    ensures
        read_flags(sevenz_header::value_body(values, width), values.len())
            == sevenz_header::known_flags(values),
        sevenz_header::value_body(values, width).len() >= values_from(
            sevenz_header::value_body(values, width),
            values.len(),
        ),
        sevenz_header::value_body(values, width).skip(
            values_from(sevenz_header::value_body(values, width), values.len()),
        ) == sevenz_header::value_bytes(values, width),
{
    if sevenz_header::known_count(values) == values.len() {
        lemma_body_all(values, width);
    } else {
        lemma_body_some(values, width);
    }
}

/// Law: of the values that a property holds, a reader gets each back as it was: the known ones
/// with their value, the others as not known.
pub proof fn law_values_read_back(values: Seq<Option<u64>>, width: nat, i: int)
    requires
        0 <= i < values.len(),
        forall|k: int|
            0 <= k < values.len() && (#[trigger] values[k]) is Some ==> values[k]->0
                < bytes::pow256(width),
    ensures
        read_value(sevenz_header::value_body(values, width), values.len(), width, i)
            == sevenz_header::opt_nat(values[i]),
{
    let n = values.len();
    let body = sevenz_header::value_body(values, width);
    let known = sevenz_header::known_flags(values);
    let data = sevenz_header::value_bytes(values, width);
    let start = values_from(body, n);
    lemma_body(values, width);
    lemma_counts(values.take(i));
    assert(known.take(i) =~= sevenz_header::known_flags(values.take(i)));
    lemma_value_at(values, width, i);
    if values[i] is Some {
        let off = (width * sevenz_header::known_count(values.take(i))) as int;
        lemma_skip_subrange(body, start, off, off + width);
        bytes::law_le_bytes_read_back(values[i]->0 as nat, width);
    }
}

proof fn lemma_skip_subrange(s: Seq<u8>, start: int, a: int, b: int)
    requires
        0 <= start <= s.len(),
        0 <= a <= b <= s.skip(start).len(),
    ensures
        s.subrange(start + a, start + b) == s.skip(start).subrange(a, b),
{
    assert(s.subrange(start + a, start + b) =~= s.skip(start).subrange(a, b));
}

/// Law: the modification time of each file is read back from the body of its property, and so
/// are the other times and the attributes.
pub proof fn law_metadata_reads_back(files: Seq<FileView>, i: int)
    requires
        0 <= i < files.len(),
    ensures
        read_value(sevenz_header::value_body(sevenz_header::mtimes(files), 8), files.len(), 8, i)
            == sevenz_header::opt_nat(files[i].meta.mtime),
        read_value(sevenz_header::value_body(sevenz_header::ctimes(files), 8), files.len(), 8, i)
            == sevenz_header::opt_nat(files[i].meta.ctime),
        read_value(sevenz_header::value_body(sevenz_header::atimes(files), 8), files.len(), 8, i)
            == sevenz_header::opt_nat(files[i].meta.atime),
        read_value(
            sevenz_header::value_body(sevenz_header::attributes(files), 4),
            files.len(),
            4,
            i,
        ) == sevenz_header::opt_nat(sevenz_header::widen(files[i].meta.windows_attributes)),
{
    reveal_with_fuel(bytes::pow256, 9);
    law_values_read_back(sevenz_header::mtimes(files), 8, i);
    law_values_read_back(sevenz_header::ctimes(files), 8, i);
    law_values_read_back(sevenz_header::atimes(files), 8, i);
    law_values_read_back(sevenz_header::attributes(files), 4, i);
}

/// Law: a time or attribute that no file has takes no room in the header.
pub proof fn law_unknown_is_not_written(id: u8, values: Seq<Option<u64>>, width: nat)
    requires
        forall|k: int| 0 <= k < values.len() ==> (#[trigger] values[k]) is None,
    ensures
        sevenz_header::value_property(id, values, width).len() == 0,
    decreases values.len(),
{
    if values.len() > 0 {
        let t = values.drop_last();
        assert forall|k: int| 0 <= k < t.len() implies (#[trigger] t[k]) is None by {
            assert(t[k] == values[k]);
        }
        law_unknown_is_not_written(id, t, width);
        if sevenz_header::known_count(t) > 0 {
            assert(sevenz_header::value_property(id, t, width)[0] == id);
        }
    }
}

/// Law: filling in what is missing keeps what is known, and doing so twice changes nothing more.
pub proof fn law_merge_keeps_known(
    a: sevenz_header::FileMeta,
    b: sevenz_header::FileMeta,
    c: sevenz_header::FileMeta,
)
    ensures
        a.mtime is Some ==> a.merged(b).mtime == a.mtime,
        a.ctime is Some ==> a.merged(b).ctime == a.ctime,
        a.atime is Some ==> a.merged(b).atime == a.atime,
        a.windows_attributes is Some ==> a.merged(b).windows_attributes == a.windows_attributes,
        a.merged(b).merged(b) == a.merged(b),
        a.merged(b).merged(c) == a.merged(b.merged(c)),
{
}

/// Law: a moment is told in steps of 100 ns since 1601, which was 134774 days before 1970, as far as
/// they fit a `u64`; a moment that is not known is not told.
pub proof fn law_moments_since_1601(secs: u64, nanos: u32)
    ensures
        ({
            let steps = (134_774 * 86_400 + secs) * 10_000_000 + nanos as int / 100;
            &&& steps <= u64::MAX ==> sevenz_header::filetime(Some((secs, nanos))) == Some(
                steps as nat,
            )
            &&& steps > u64::MAX ==> sevenz_header::filetime(Some((secs, nanos))) is None
            &&& sevenz_header::filetime(None) is None
        }),
{
}

/// Law: the attributes of a file have the archive bit, and a directory has the directory bit too;
/// the upper half is the lower half of the Unix mode, or zero where the mode is not known.
pub proof fn law_attributes_of_files(mode: u32, is_dir: bool)
    ensures
        ({
            let a = sevenz_header::fs_attributes(Some(mode), is_dir);
            let b = sevenz_header::fs_attributes(None, is_dir);
            &&& a / 0x1_0000 == mode as int % 0x1_0000
            &&& a % 0x1_0000 == if is_dir {
                0x30int
            } else {
                0x20
            }
            &&& b == if is_dir {
                0x30int
            } else {
                0x20
            }
        }),
{
    let m = mode as int % 0x1_0000;
    let low: int = if is_dir {
        0x30
    } else {
        0x20
    };
    assert((low + 0x1_0000 * m) / 0x1_0000 == m && (low + 0x1_0000 * m) % 0x1_0000 == low)
        by (nonlinear_arith)
        requires
            0 <= low < 0x1_0000,
            m >= 0,
    ;
}

/// Law: the properties of a header have the numbers that the format gives them.
pub proof fn law_numbers_of_properties()
    ensures
        sevenz_header::K_END == 0x00,
        sevenz_header::K_HEADER == 0x01,
        sevenz_header::K_MAIN_STREAMS_INFO == 0x04,
        sevenz_header::K_FILES_INFO == 0x05,
        sevenz_header::K_PACK_INFO == 0x06,
        sevenz_header::K_UNPACK_INFO == 0x07,
        sevenz_header::K_SUB_STREAMS_INFO == 0x08,
        sevenz_header::K_SIZE == 0x09,
        sevenz_header::K_CRC == 0x0A,
        sevenz_header::K_FOLDER == 0x0B,
        sevenz_header::K_CODERS_UNPACK_SIZE == 0x0C,
        sevenz_header::K_EMPTY_STREAM == 0x0E,
        sevenz_header::K_EMPTY_FILE == 0x0F,
        sevenz_header::K_NAME == 0x11,
        sevenz_header::K_C_TIME == 0x12,
        sevenz_header::K_A_TIME == 0x13,
        sevenz_header::K_M_TIME == 0x14,
        sevenz_header::K_WIN_ATTRIBUTES == 0x15,
        sevenz_header::SIG_HEADER_SIZE == 32,
{
}

/// Law: an archive begins with the signature of the format and its version, and the checksum that
/// follows is that of the rest of the start header.
pub proof fn law_first_bytes_of_an_archive(offset: u64, size: u64, crc: u32)
    ensures
        ({
            let s = sevenz_header::start_header(offset, size, crc);
            &&& s.len() == 32
            &&& s[0] == 0x37 && s[1] == 0x7A && s[2] == 0xBC && s[3] == 0xAF && s[4] == 0x27 && s[5]
                == 0x1C
            &&& s[6] == 0 && s[7] == 4
            &&& bytes::le_value(s.subrange(8, 12)) == checksum::crc32(s.subrange(12, 32))
        }),
{
    reveal_with_fuel(bytes::pow256, 9);
    let fields = sevenz_header::start_fields(offset, size, crc);
    let s = sevenz_header::start_header(offset, size, crc);
    bytes::lemma_le_bytes(offset as nat, 8);
    bytes::lemma_le_bytes(size as nat, 8);
    bytes::lemma_le_bytes(crc as nat, 4);
    bytes::lemma_le_bytes(checksum::crc32(fields) as nat, 4);
    bytes::law_le_bytes_read_back(checksum::crc32(fields) as nat, 4);
    assert(s.subrange(8, 12) =~= bytes::le_bytes(checksum::crc32(fields) as nat, 4));
    assert(s.subrange(12, 32) =~= fields);
}

} // verus!
