//! LZMA2 streams: which encoder makes them, and what is recorded of them.

use crate::codec::checksum;
use crate::codec::checksum::crc32_of;
use crate::error::{Error, ErrorView, Result};
use crate::util::text;
use crate::util::text::{chars_of, concat2, is_text, to_lower};
use lzma_rust2::{Lzma2Options, Lzma2Writer};
use std::io::Write;
use vstd::arithmetic::power2::{
    lemma2_to64, lemma_pow2_pos, lemma_pow2_strictly_increases, lemma_pow2_unfold, pow2,
};
use vstd::prelude::*;

verus! {

/// Which LZMA2 encoder is used.
#[derive(Debug, Clone, Copy, PartialEq, Eq, Structural)]
pub enum CodecKind {
    /// The encoder written in Rust.
    PureRust,
    /// The system's liblzma.
    LibLzma,
}

impl Default for CodecKind {
    fn default() -> (r: Self)
        ensures
            r == CodecKind::PureRust,
    {
        CodecKind::PureRust
    }
}

impl CodecKind {
    /// The name of the encoder.
    pub open spec fn name(self) -> Seq<char> {
        match self {
            CodecKind::PureRust => "pure-rust"@,
            CodecKind::LibLzma => "liblzma"@,
        }
    }

    /// The encoder that a name means, in any case.
    pub open spec fn named(s: Seq<char>) -> Option<CodecKind> {
        let low = text::lower(s);
        if low == "pure-rust"@ || low == "rust"@ || low == "pure"@ {
            Some(CodecKind::PureRust)
        } else if low == "liblzma"@ || low == "lzma"@ || low == "xz"@ || low == "system"@ {
            Some(CodecKind::LibLzma)
        } else {
            None
        }
    }

    /// The name of the encoder.
    pub fn as_str(self) -> (r: &'static str)
        ensures
            r@ == self.name(),
    {
        match self {
            CodecKind::PureRust => "pure-rust",
            CodecKind::LibLzma => "liblzma",
        }
    }

    /// The encoder that a name means.
    pub fn parse(s: &str) -> (r: Option<Self>)
        ensures
            r == CodecKind::named(s@),
    {
        let chars = chars_of(s);
        let low = to_lower(chars.as_slice());
        let l = low.as_slice();
        if is_text(l, "pure-rust") || is_text(l, "rust") || is_text(l, "pure") {
            Some(CodecKind::PureRust)
        } else if is_text(l, "liblzma") || is_text(l, "lzma") || is_text(l, "xz") || is_text(
            l,
            "system",
        ) {
            Some(CodecKind::LibLzma)
        } else {
            None
        }
    }

    /// Law: the name of an encoder means that encoder.
    pub proof fn law_name_is_read_back(self)
        ensures
            CodecKind::named(self.name()) == Some(self),
    {
        reveal_strlit("pure-rust");
        reveal_strlit("rust");
        reveal_strlit("pure");
        reveal_strlit("liblzma");
        assert(text::lower("pure-rust"@) =~= "pure-rust"@);
        assert(text::lower("liblzma"@) =~= "liblzma"@);
        assert("liblzma"@[0] == 'l' && "pure-rust"@[0] == 'p' && "rust"@[0] == 'r' && "pure"@[0]
            == 'p');
    }
}

// ---------------------------------------------------------------------------------------------
// Dictionary sizes
// ---------------------------------------------------------------------------------------------
/// The dictionary size that a property byte stands for.
pub open spec fn prop_dict(p: nat) -> nat {
    ((2 + p % 2) * pow2(p / 2 + 11)) as nat
}

/// A dictionary size within the limits of the format.
pub open spec fn clamped_dict(dict_size: u32) -> nat {
    if dict_size < 4096 {
        4096
    } else if dict_size > 0xFFFF_FFF0 {
        0xFFFF_FFF0
    } else {
        dict_size as nat
    }
}

/// The step from one property byte to the next, and the bounds of a step.
proof fn lemma_prop_step(p: nat)
    requires
        p < 40,
    ensures
        pow2(p / 2 + 11) <= 0x4000_0000,
        prop_dict(0) == 4096,
        prop_dict(40) == 0x1_0000_0000,
        p % 2 == 0 ==> prop_dict(p + 1) == 3 * pow2(p / 2 + 11) && (p + 1) / 2 == p / 2,
        p % 2 == 1 ==> prop_dict(p + 1) == 4 * pow2(p / 2 + 11) && (p + 1) / 2 == p / 2 + 1
            && pow2((p + 1) / 2 + 11) == 2 * pow2(p / 2 + 11),
{
    lemma2_to64();
    assert(prop_dict(0) == 2 * pow2(11)) by {
        assert(0nat / 2 + 11 == 11nat);
    }
    assert(prop_dict(40) == 2 * pow2(31)) by {
        assert(40nat / 2 + 11 == 31nat);
    }
    let e = p / 2 + 11;
    if e < 30 {
        lemma_pow2_strictly_increases(e, 30);
    }
    if p % 2 == 1 {
        lemma_pow2_unfold(e + 1);
        assert((p + 1) / 2 + 11 == e + 1);
        assert(prop_dict(p + 1) == 2 * pow2(e + 1));
    }
}

/// The property byte for a dictionary size: the largest that stands for no more than that size.
pub fn lzma2_dict_prop(dict_size: u32) -> (r: u8)
    ensures
        r < 40,
        prop_dict(r as nat) <= clamped_dict(dict_size) < prop_dict((r + 1) as nat),
{
    let d: u64 = if dict_size < 4096 {
        4096
    } else if dict_size > 0xFFFF_FFF0 {
        0xFFFF_FFF0
    } else {
        dict_size as u64
    };
    let mut p: u8 = 0;
    let mut unit: u64 = 2048;
    proof {
        lemma2_to64();
        lemma_prop_step(0);
    }
    loop
        invariant
            p < 40,
            d == clamped_dict(dict_size),
            4096 <= d <= 0xFFFF_FFF0,
            unit == pow2((p / 2 + 11) as nat),
            prop_dict(p as nat) <= d,
        decreases 40 - p,
    {
        proof {
            lemma_prop_step(p as nat);
        }
        let next: u64 = if p % 2 == 0 {
            3 * unit
        } else {
            4 * unit
        };
        if next > d {
            return p;
        }
        if p % 2 == 1 {
            unit = unit * 2;
        }
        p += 1;
    }
}

/// Law: a larger property byte stands for a larger dictionary, so that the byte for a size is the
/// only one of its kind.
pub proof fn law_prop_dict_grows(p: nat, q: nat)
    requires
        p < q <= 40,
    ensures
        prop_dict(p) < prop_dict(q),
    decreases q,
{
    lemma_prop_step((q - 1) as nat);
    lemma_pow2_pos(((q - 1) / 2 + 11) as nat);
    if p < q - 1 {
        law_prop_dict_grows(p, (q - 1) as nat);
    }
}

/// Law: the dictionary sizes of the compression levels are written exactly.
pub proof fn law_level_dict_is_exact(level: u32, p: nat)
    requires
        p < 40,
        prop_dict(p) <= level_dict(level) < prop_dict(p + 1),
    ensures
        prop_dict(p) == level_dict(level),
{
    lemma2_to64();
    let l: nat = if level <= 1 {
        16
    } else if level == 2 {
        18
    } else if level <= 4 {
        20
    } else if level == 5 {
        22
    } else if level == 6 {
        23
    } else if level == 7 {
        24
    } else if level == 8 {
        25
    } else {
        26
    };
    assert(level_dict(level) == pow2(l));
    let q: nat = (2 * (l - 12)) as nat;
    assert(q / 2 + 11 == l - 1 && q % 2 == 0);
    lemma_pow2_unfold(l);
    assert(prop_dict(q) == pow2(l));
    if p < q {
        if p + 1 < q {
            law_prop_dict_grows(p + 1, q);
        }
    } else if q < p {
        law_prop_dict_grows(q, p);
    }
}

/// The dictionary size of a compression level.
pub open spec fn level_dict(level: u32) -> int {
    if level <= 1 {
        0x1_0000
    } else if level == 2 {
        0x4_0000
    } else if level <= 4 {
        0x10_0000
    } else if level == 5 {
        0x40_0000
    } else if level == 6 {
        0x80_0000
    } else if level == 7 {
        0x100_0000
    } else if level == 8 {
        0x200_0000
    } else {
        0x400_0000
    }
}

/// The dictionary size of a compression level; levels above 9 count as 9.
pub fn dict_size_for_level(level: u32) -> (r: u32)
    ensures
        r == level_dict(level),
{
    if level <= 1 {
        0x1_0000
    } else if level == 2 {
        0x4_0000
    } else if level <= 4 {
        0x10_0000
    } else if level == 5 {
        0x40_0000
    } else if level == 6 {
        0x80_0000
    } else if level == 7 {
        0x100_0000
    } else if level == 8 {
        0x200_0000
    } else {
        0x400_0000
    }
}

// ---------------------------------------------------------------------------------------------
// Compressed streams
// ---------------------------------------------------------------------------------------------
/// A buffer compressed to a raw LZMA2 stream.
#[derive(Debug, Clone)]
pub struct Lzma2Compressed {
    /// The stream.
    pub data: Vec<u8>,
    /// The property byte, which writes the dictionary size.
    pub props: u8,
    /// The checksum of the buffer.
    pub crc32: u32,
    /// The length of the buffer.
    pub uncompressed_size: u64,
}

/// `c` is what is recorded of `input` compressed at `level` to the stream `data`.
pub open spec fn records(c: Lzma2Compressed, input: Seq<u8>, level: u32, data: Seq<u8>) -> bool {
    &&& c.data@ == data
    &&& c.props < 40
    &&& prop_dict(c.props as nat) == level_dict(level)
    &&& c.crc32 == checksum::crc32(input)
    &&& c.uncompressed_size == input.len()
}

/// The stream that `Lzma2Writer` of the `lzma-rust2` crate makes of `input` with the preset
/// `level` and a dictionary of `dict_size` bytes; or the error that it reports, and whether it came
/// when the stream was finished.
pub uninterp spec fn lzma2_stream(input: Seq<u8>, level: u32, dict_size: u32) -> std::result::Result<
    Seq<u8>,
    (bool, Seq<char>),
>;

/// `Lzma2Writer` of the `lzma-rust2` crate, given the whole input and finished: the stream depends
/// on the input, the preset and the dictionary size alone. An error is told in words, with whether
/// it came when the stream was finished or before, as the input was written.
#[verifier::external_body]
fn lzma2_encode(input: &[u8], level: u32, dict_size: u32) -> (r: std::result::Result<
    Vec<u8>,
    (bool, String),
>)
    requires
        level <= 9,
        0x1_0000 <= dict_size <= 0x400_0000,
    ensures
        match r {
            Ok(v) => lzma2_stream(input@, level, dict_size) == Ok::<Seq<u8>, (bool, Seq<char>)>(v@),
            Err((finishing, m)) => lzma2_stream(input@, level, dict_size) == Err::<
                Seq<u8>,
                (bool, Seq<char>),
            >((finishing, m@)),
        },
{
    let mut options = Lzma2Options::with_preset(level);
    options.lzma_options.dict_size = dict_size;
    let mut data = Vec::new();
    let mut enc = Lzma2Writer::new(&mut data, options);
    enc.write_all(input).map_err(|e| (false, e.to_string()))?;
    enc.finish().map_err(|e| (true, e.to_string()))?;
    Ok(data)
}

/// The error of the encoder, behind the step that it came from.
pub open spec fn encoder_error(finishing: bool, m: Seq<char>) -> ErrorView {
    ErrorView::Other(
        if finishing {
            "pure-rust lzma2 finish: "@ + m
        } else {
            "pure-rust lzma2 write: "@ + m
        },
    )
}

/// What is recorded of a buffer that was compressed at `level` to the stream `data`.
pub fn record_stream(input: &[u8], level: u32, data: Vec<u8>) -> (r: Lzma2Compressed)
    ensures
        records(r, input@, level, data@),
{
    let dict: u32 = dict_size_for_level(level);
    let props: u8 = lzma2_dict_prop(dict);
    proof {
        law_level_dict_is_exact(level, props as nat);
    }
    Lzma2Compressed {
        data,
        props,
        crc32: crc32_of(input),
        uncompressed_size: input.len() as u64,
    }
}

/// An LZMA2 encoder.
pub trait Lzma2Codec {
    /// The name of the encoder.
    fn name(&self) -> &'static str;

    /// Compresses a buffer at a level from 0 to 9.
    fn compress(&self, input: &[u8], level: u32) -> Result<Lzma2Compressed>;
}

/// The level as the encoders take it: at most 9.
pub open spec fn capped_level(level: u32) -> u32 {
    if level > 9 {
        9
    } else {
        level
    }
}

/// The encoder written in Rust.
#[derive(Debug, Clone, Copy)]
pub struct PureRustCodec;

impl Lzma2Codec for PureRustCodec {
    fn name(&self) -> (r: &'static str)
        ensures
            r@ == CodecKind::PureRust.name(),
    {
        "pure-rust"
    }

    fn compress(&self, input: &[u8], level: u32) -> (r: Result<Lzma2Compressed>)
        ensures
            ({
                let l = capped_level(level);
                match lzma2_stream(input@, l, level_dict(l) as u32) {
                    Ok(data) => r is Ok && records(r->Ok_0, input@, l, data),
                    Err((finishing, m)) => r is Err && r->Err_0@ == encoder_error(finishing, m),
                }
            }),
    {
        let l: u32 = if level > 9 {
            9
        } else {
            level
        };
        let dict: u32 = dict_size_for_level(l);
        match lzma2_encode(input, l, dict) {
            Ok(data) => Ok(record_stream(input, l, data)),
            Err((finishing, m)) => {
                let step = if finishing {
                    "pure-rust lzma2 finish: "
                } else {
                    "pure-rust lzma2 write: "
                };
                Err(Error::Other(concat2(step, m.as_str())))
            },
        }
    }
}

/// The system's liblzma. The stream is made outside; what is recorded of it is made here.
#[derive(Debug, Clone, Copy)]
pub struct LibLzmaCodec;

/// What making a stream with liblzma came to.
#[derive(Debug, Clone)]
pub enum LibLzmaOutcome {
    /// The preset was refused.
    PresetFailed,
    /// The encoder could not be set up, for the reason with this number.
    EncoderFailed(u32),
    /// Encoding failed, for the reason with this number.
    CodeFailed(u32),
    /// The stream.
    Stream(Vec<u8>),
}

impl LibLzmaCodec {
    /// The level and the dictionary size to encode with.
    pub fn settings(level: u32) -> (r: (u32, u32))
        ensures
            r.0 == capped_level(level),
            r.1 == level_dict(capped_level(level)),
    {
        let l: u32 = if level > 9 {
            9
        } else {
            level
        };
        (l, dict_size_for_level(l))
    }

    /// What is recorded of a buffer, once its stream has been made, or the error.
    pub fn finish(input: &[u8], level: u32, outcome: LibLzmaOutcome) -> (r: Result<Lzma2Compressed>)
        ensures
            match outcome {
                LibLzmaOutcome::PresetFailed => r is Err && r->Err_0@ == ErrorView::Other(
                    "liblzma: lzma_lzma_preset failed"@,
                ),
                LibLzmaOutcome::EncoderFailed(n) => r is Err && r->Err_0@ == ErrorView::Other(
                    "liblzma: lzma_raw_encoder failed ("@ + text::number_text(n as nat) + ")"@,
                ),
                LibLzmaOutcome::CodeFailed(n) => r is Err && r->Err_0@ == ErrorView::Other(
                    "liblzma: lzma_code failed ("@ + text::number_text(n as nat) + ")"@,
                ),
                LibLzmaOutcome::Stream(data) => r is Ok && records(
                    r->Ok_0,
                    input@,
                    capped_level(level),
                    data@,
                ),
            },
    {
        match outcome {
            LibLzmaOutcome::PresetFailed => Err(
                crate::error::other("liblzma: lzma_lzma_preset failed"),
            ),
            LibLzmaOutcome::EncoderFailed(n) => Err(
                Error::Other(
                    text::concat3(
                        "liblzma: lzma_raw_encoder failed (",
                        text::show_u64(n as u64).as_str(),
                        ")",
                    ),
                ),
            ),
            LibLzmaOutcome::CodeFailed(n) => Err(
                Error::Other(
                    text::concat3(
                        "liblzma: lzma_code failed (",
                        text::show_u64(n as u64).as_str(),
                        ")",
                    ),
                ),
            ),
            LibLzmaOutcome::Stream(data) => {
                let (l, _dict) = LibLzmaCodec::settings(level);
                Ok(record_stream(input, l, data))
            },
        }
    }
}

/// Law: the dictionary is 64 KiB for the lowest levels and 64 MiB for the highest, and in between it
/// is 256 KiB for level 2, 1 MiB for levels 3 and 4, and from 4 MiB for level 5 on twice as large
/// for each level.
pub proof fn law_dictionaries_of_levels(level: u32)
    ensures
        level <= 1 ==> level_dict(level) == 64 * 1024,
        level == 2 ==> level_dict(level) == 256 * 1024,
        level == 3 || level == 4 ==> level_dict(level) == 1024 * 1024,
        level == 5 ==> level_dict(level) == 4 * 1024 * 1024,
        5 < level <= 9 ==> level_dict(level) == 2 * level_dict((level - 1) as u32),
        level > 9 ==> level_dict(level) == level_dict(9),
{
}

/// Law: the words for the encoders, in upper or lower case, mean these and no others.
pub proof fn law_words_for_encoders(word: Seq<char>)
    ensures
        ({
            let low = text::lower(word);
            &&& CodecKind::named(word) == Some(CodecKind::PureRust) <==> low == "pure-rust"@ || low
                == "rust"@ || low == "pure"@
            &&& CodecKind::named(word) == Some(CodecKind::LibLzma) <==> low == "liblzma"@ || low
                == "lzma"@ || low == "xz"@ || low == "system"@
        }),
{
    reveal_strlit("pure-rust");
    reveal_strlit("rust");
    reveal_strlit("pure");
    reveal_strlit("liblzma");
    reveal_strlit("lzma");
    reveal_strlit("xz");
    reveal_strlit("system");
    assert("pure-rust"@[0] == 'p' && "rust"@[0] == 'r' && "pure"@[0] == 'p' && "liblzma"@[0] == 'l'
        && "lzma"@[0] == 'l' && "xz"@[0] == 'x' && "system"@[0] == 's');
}

/// Law: what is recorded of a compressed buffer is the stream, the length and the checksum of the
/// buffer, and the property byte of the dictionary that the level has.
pub proof fn law_record_of_a_stream(
    c: Lzma2Compressed,
    input: Seq<u8>,
    level: u32,
    data: Seq<u8>,
)
    requires
        records(c, input, level, data),
        level <= 9,
    ensures
        c.data@ == data,
        c.uncompressed_size == input.len(),
        c.crc32 == checksum::crc32(input),
        ((2 + c.props as nat % 2) * pow2(c.props as nat / 2 + 11)) as nat == level_dict(level),
        capped_level(level) == level,
        capped_level(10) == 9,
{
}

} // verus!
