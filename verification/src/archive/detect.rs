//! Telling archive formats apart by name and by first bytes.

use crate::archive::types::ArchiveFormat;
use crate::util::pathnorm;
use crate::util::pathnorm::{member_basename, normalize_member_path};
use crate::util::text;
use crate::util::text::{chars_of, ends_with, to_lower};
use vstd::prelude::*;

verus! {

/// The format that a member's name suggests.
pub open spec fn named_format(path: Seq<char>) -> ArchiveFormat {
    let base = text::lower(pathnorm::base_name(path));
    if text::ends(base, ".7z"@) {
        ArchiveFormat::SevenZ
    } else if text::ends(base, ".zip"@) {
        ArchiveFormat::Zip
    } else {
        ArchiveFormat::Unknown
    }
}

/// The format that the first six bytes of a file show.
pub open spec fn magic_format(head: Seq<u8>) -> Option<ArchiveFormat> {
    if head.len() < 6 {
        None
    } else if head.take(6) == seq![0x37u8, 0x7A, 0xBC, 0xAF, 0x27, 0x1C] {
        Some(ArchiveFormat::SevenZ)
    } else if head[0] == 0x50 && head[1] == 0x4B {
        Some(ArchiveFormat::Zip)
    } else {
        None
    }
}

/// The format of a file: by its first bytes, else by its name.
pub open spec fn detected_format(head: Seq<u8>, file_name: Option<Seq<char>>) -> ArchiveFormat {
    match magic_format(head) {
        Some(f) => f,
        None => match file_name {
            Some(n) => named_format(n),
            None => ArchiveFormat::Unknown,
        },
    }
}

/// Guesses the format from a member path.
pub fn format_from_path(path: &str) -> (r: ArchiveFormat)
    ensures
        r == named_format(path@),
{
    let base = chars_of(member_basename(path).as_str());
    let low = to_lower(base.as_slice());
    if ends_with(low.as_slice(), ".7z") {
        ArchiveFormat::SevenZ
    } else if ends_with(low.as_slice(), ".zip") {
        ArchiveFormat::Zip
    } else {
        ArchiveFormat::Unknown
    }
}

/// The format of a file from its first bytes (none where it could not be read) and its name.
pub fn detect_format(head: &[u8], file_name: Option<&str>) -> (r: ArchiveFormat)
    ensures
        r == detected_format(
            head@,
            (match file_name {
                Some(n) => Some(n@),
                None => None,
            }),
        ),
{
    if head.len() >= 6 {
        let ghost h = head@.take(6);
        assert(h =~= seq![head@[0], head@[1], head@[2], head@[3], head@[4], head@[5]]);
        if head[0] == 0x37 && head[1] == 0x7A && head[2] == 0xBC && head[3] == 0xAF && head[4]
            == 0x27 && head[5] == 0x1C {
            return ArchiveFormat::SevenZ;
        }
        assert(h != seq![0x37u8, 0x7A, 0xBC, 0xAF, 0x27, 0x1C]) by {
            if h == seq![0x37u8, 0x7A, 0xBC, 0xAF, 0x27, 0x1C] {
                assert(h[0] == 0x37 && h[1] == 0x7A && h[2] == 0xBC && h[3] == 0xAF && h[4] == 0x27
                    && h[5] == 0x1C);
            }
        }
        if head[0] == 0x50 && head[1] == 0x4B {
            return ArchiveFormat::Zip;
        }
    }
    match file_name {
        Some(n) => format_from_path(n),
        None => ArchiveFormat::Unknown,
    }
}

/// Whether a member's name is that of a 7z archive.
pub fn is_7z_member(path: &str) -> (r: bool)
    ensures
        r == (named_format(pathnorm::normalized(path@)) == ArchiveFormat::SevenZ),
{
    format_from_path(normalize_member_path(path).as_str()) == ArchiveFormat::SevenZ
}

} // verus!
