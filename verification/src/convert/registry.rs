//! The list of conversion profiles.

use crate::archive::detect::format_from_path;
use crate::archive::listing_laws;
use crate::archive::types::{ArchiveFormat, EntryMeta, EntryView};
use crate::codec::sevenz_header::FileMeta;
use crate::convert::context::{ContextView, ConvertContext};
use crate::convert::sevenz_nonsolid::{Conversion, ConversionView, ConvertPhase};
use crate::error::{other, ErrorView, Result};
use crate::util::path_laws;
use crate::util::pathnorm;
use crate::util::text;
use crate::util::text::{copy_str, same_text};
use crate::util::textpath;
use crate::util::textpath::path_file_name;
use vstd::prelude::*;

verus! {

/// A conversion profile.
pub trait Converter {
    /// The name of the profile.
    spec fn id_text(&self) -> Seq<char>;

    /// What the profile does, in words.
    spec fn description_text(&self) -> Seq<char>;

    /// Whether the profile is for a member.
    spec fn handles(&self, entry: EntryView) -> bool;

    /// How the conversion of an archive begins, or why it cannot.
    spec fn beginning(&self, input: Seq<char>, ctx: ContextView) -> std::result::Result<
        ConversionView,
        ErrorView,
    >;

    /// The name of the profile.
    fn id(&self) -> (r: &'static str)
        ensures
            r@ == self.id_text(),
    ;

    /// What the profile does, in words.
    fn description(&self) -> (r: &'static str)
        ensures
            r@ == self.description_text(),
    ;

    /// Whether the profile is for a member.
    fn matches(&self, entry: &EntryMeta) -> (r: bool)
        ensures
            r == self.handles(entry@),
    ;

    /// Begins the conversion of an archive.
    fn convert(&self, input: &str, ctx: &ConvertContext) -> (r: Result<Conversion>)
        ensures
            conversion_result(r, self.beginning(input@, ctx@)),
    ;
}

/// What `r` says of the beginning of a conversion.
pub open spec fn conversion_result(
    r: Result<Conversion>,
    wanted: std::result::Result<ConversionView, ErrorView>,
) -> bool {
    match r {
        Ok(c) => wanted == Ok::<ConversionView, ErrorView>(c@),
        Err(e) => wanted == Err::<ConversionView, ErrorView>(e@),
    }
}

/// A conversion that has just begun.
pub open spec fn begun(input: Seq<char>, ctx: ContextView) -> ConversionView {
    ConversionView { input, ctx, phase: ConvertPhase::Ready, listed: None }
}

/// Rebuilds a 7z archive so that it is not solid.
#[derive(Debug, Clone, Copy, PartialEq, Eq, Structural)]
pub struct SevenZSolidToNonSolid;

impl Converter for SevenZSolidToNonSolid {
    open spec fn id_text(&self) -> Seq<char> {
        "7z-solid-to-nonsolid"@
    }

    open spec fn description_text(&self) -> Seq<char> {
        "Rebuild 7z as non-solid (-ms=off), with optional member exclusion"@
    }

    open spec fn handles(&self, entry: EntryView) -> bool {
        !entry.is_dir && entry.format_hint == ArchiveFormat::SevenZ
    }

    open spec fn beginning(&self, input: Seq<char>, ctx: ContextView) -> std::result::Result<
        ConversionView,
        ErrorView,
    > {
        Ok(begun(input, ctx))
    }

    fn id(&self) -> (r: &'static str) {
        "7z-solid-to-nonsolid"
    }

    fn description(&self) -> (r: &'static str) {
        "Rebuild 7z as non-solid (-ms=off), with optional member exclusion"
    }

    fn matches(&self, entry: &EntryMeta) -> (r: bool) {
        !entry.is_dir && entry.format_hint == ArchiveFormat::SevenZ
    }

    fn convert(&self, input: &str, ctx: &ConvertContext) -> (r: Result<Conversion>) {
        Ok(Conversion::new(input, ctx))
    }
}

/// Stands for ZIP archives, which cannot be converted yet.
#[derive(Debug, Clone, Copy, PartialEq, Eq, Structural)]
pub struct ZipPassthroughStub;

impl Converter for ZipPassthroughStub {
    open spec fn id_text(&self) -> Seq<char> {
        "zip-stub"@
    }

    open spec fn description_text(&self) -> Seq<char> {
        "Stub for future ZIP conversion (not implemented)"@
    }

    open spec fn handles(&self, entry: EntryView) -> bool {
        !entry.is_dir && entry.format_hint == ArchiveFormat::Zip
    }

    open spec fn beginning(&self, input: Seq<char>, ctx: ContextView) -> std::result::Result<
        ConversionView,
        ErrorView,
    > {
        Err(
            ErrorView::Other(
                "ZIP conversion is not implemented yet (stub registered for extension)"@,
            ),
        )
    }

    fn id(&self) -> (r: &'static str) {
        "zip-stub"
    }

    fn description(&self) -> (r: &'static str) {
        "Stub for future ZIP conversion (not implemented)"
    }

    fn matches(&self, entry: &EntryMeta) -> (r: bool) {
        !entry.is_dir && entry.format_hint == ArchiveFormat::Zip
    }

    fn convert(&self, input: &str, ctx: &ConvertContext) -> (r: Result<Conversion>) {
        Err(other("ZIP conversion is not implemented yet (stub registered for extension)"))
    }
}

/// One of the profiles that are always there.
#[derive(Debug, Clone, Copy, PartialEq, Eq, Structural)]
pub enum BuiltinConverter {
    SevenZ(SevenZSolidToNonSolid),
    Zip(ZipPassthroughStub),
}

impl Converter for BuiltinConverter {
    open spec fn id_text(&self) -> Seq<char> {
        match *self {
            BuiltinConverter::SevenZ(c) => c.id_text(),
            BuiltinConverter::Zip(c) => c.id_text(),
        }
    }

    open spec fn description_text(&self) -> Seq<char> {
        match *self {
            BuiltinConverter::SevenZ(c) => c.description_text(),
            BuiltinConverter::Zip(c) => c.description_text(),
        }
    }

    open spec fn handles(&self, entry: EntryView) -> bool {
        match *self {
            BuiltinConverter::SevenZ(c) => c.handles(entry),
            BuiltinConverter::Zip(c) => c.handles(entry),
        }
    }

    open spec fn beginning(&self, input: Seq<char>, ctx: ContextView) -> std::result::Result<
        ConversionView,
        ErrorView,
    > {
        match *self {
            BuiltinConverter::SevenZ(c) => c.beginning(input, ctx),
            BuiltinConverter::Zip(c) => c.beginning(input, ctx),
        }
    }

    fn id(&self) -> (r: &'static str) {
        match self {
            BuiltinConverter::SevenZ(c) => c.id(),
            BuiltinConverter::Zip(c) => c.id(),
        }
    }

    fn description(&self) -> (r: &'static str) {
        match self {
            BuiltinConverter::SevenZ(c) => c.description(),
            BuiltinConverter::Zip(c) => c.description(),
        }
    }

    fn matches(&self, entry: &EntryMeta) -> (r: bool) {
        match self {
            BuiltinConverter::SevenZ(c) => c.matches(entry),
            BuiltinConverter::Zip(c) => c.matches(entry),
        }
    }

    fn convert(&self, input: &str, ctx: &ConvertContext) -> (r: Result<Conversion>) {
        match self {
            BuiltinConverter::SevenZ(c) => c.convert(input, ctx),
            BuiltinConverter::Zip(c) => c.convert(input, ctx),
        }
    }
}

/// Conversion profiles in the order in which they are tried.
pub struct ConverterRegistry<C: Converter> {
    pub converters: Vec<C>,
}

impl<C: Converter> ConverterRegistry<C> {
    /// No profiles.
    pub fn new() -> (r: Self)
        ensures
            r.converters@ == Seq::<C>::empty(),
    {
        ConverterRegistry { converters: Vec::new() }
    }

    /// Adds a profile behind the others.
    pub fn register(&mut self, c: C)
        ensures
            final(self).converters@ == old(self).converters@.push(c),
    {
        self.converters.push(c);
    }

    /// The first profile for a member.
    pub fn find_for(&self, entry: &EntryMeta) -> (r: Option<&C>)
        ensures
            match r {
                Some(c) => exists|i: int|
                    0 <= i < self.converters.len() && *c == #[trigger] self.converters[i]
                        && c.handles(entry@) && forall|j: int|
                        0 <= j < i ==> !(#[trigger] self.converters[j]).handles(entry@),
                None => forall|j: int|
                    0 <= j < self.converters.len() ==> !(#[trigger] self.converters[j]).handles(
                        entry@,
                    ),
            },
    {
        let mut i: usize = 0;
        while i < self.converters.len()
            invariant
                i <= self.converters.len(),
                forall|j: int| 0 <= j < i ==> !(#[trigger] self.converters[j]).handles(entry@),
            decreases self.converters.len() - i,
        {
            if self.converters[i].matches(entry) {
                return Some(&self.converters[i]);
            }
            i += 1;
        }
        None
    }

    /// The first profile with a name.
    pub fn get(&self, id: &str) -> (r: Option<&C>)
        ensures
            match r {
                Some(c) => exists|i: int|
                    0 <= i < self.converters.len() && *c == #[trigger] self.converters[i]
                        && c.id_text() == id@ && forall|j: int|
                        0 <= j < i ==> (#[trigger] self.converters[j]).id_text() != id@,
                None => forall|j: int|
                    0 <= j < self.converters.len() ==> (#[trigger] self.converters[j]).id_text()
                        != id@,
            },
    {
        let mut i: usize = 0;
        while i < self.converters.len()
            invariant
                i <= self.converters.len(),
                forall|j: int| 0 <= j < i ==> (#[trigger] self.converters[j]).id_text() != id@,
            decreases self.converters.len() - i,
        {
            if same_text(self.converters[i].id(), id) {
                return Some(&self.converters[i]);
            }
            i += 1;
        }
        None
    }

    /// The names of the profiles.
    pub fn list_ids(&self) -> (r: Vec<&'static str>)
        ensures
            r.len() == self.converters.len(),
            forall|i: int| 0 <= i < r.len() ==> (#[trigger] r[i])@ == self.converters[i].id_text(),
    {
        let mut out: Vec<&'static str> = Vec::new();
        let mut i: usize = 0;
        while i < self.converters.len()
            invariant
                i <= self.converters.len(),
                out.len() == i,
                forall|k: int| 0 <= k < i ==> (#[trigger] out[k])@ == self.converters[k].id_text(),
            decreases self.converters.len() - i,
        {
            out.push(self.converters[i].id());
            i += 1;
        }
        out
    }
}

impl ConverterRegistry<BuiltinConverter> {
    /// The profiles that are always there.
    pub fn with_builtins() -> (r: Self)
        ensures
            r.converters@ == seq![
                BuiltinConverter::SevenZ(SevenZSolidToNonSolid),
                BuiltinConverter::Zip(ZipPassthroughStub),
            ],
    {
        let mut r: Self = ConverterRegistry::new();
        r.register(BuiltinConverter::SevenZ(SevenZSolidToNonSolid));
        r.register(BuiltinConverter::Zip(ZipPassthroughStub));
        assert(r.converters@ =~= seq![
            BuiltinConverter::SevenZ(SevenZSolidToNonSolid),
            BuiltinConverter::Zip(ZipPassthroughStub),
        ]);
        r
    }
}

/// Begins the conversion of a file whose name says that it is a 7z archive.
pub fn convert_sevenz_file(input: &str, size: u64, ctx: &ConvertContext) -> (r: Result<Conversion>)
    ensures
        conversion_result(
            r,
            if is_sevenz_name(input@) {
                Ok(begun(input@, ctx@))
            } else {
                Err(ErrorView::Other("not a 7z archive"@))
            },
        ),
{
    let name = path_file_name(input);
    let format_hint = match &name {
        Some(n) => format_from_path(n.as_str()),
        None => format_from_path("x.7z"),
    };
    let path = match name {
        Some(n) => n,
        None => copy_str("archive.7z"),
    };
    let entry = EntryMeta { path, size, is_dir: false, format_hint, meta: FileMeta::default() };
    let conv = SevenZSolidToNonSolid;
    if !conv.matches(&entry) {
        return Err(other("not a 7z archive"));
    }
    conv.convert(input, ctx)
}

/// The name of the file says that it is a 7z archive, or the path has no file name.
pub open spec fn is_sevenz_name(input: Seq<char>) -> bool {
    crate::archive::detect::named_format(
        match textpath::file_name(input) {
            Some(n) => n,
            None => "x.7z"@,
        },
    ) == ArchiveFormat::SevenZ
}

/// Law: among the profiles that are always there, a 7z member finds the one for 7z archives, and
/// its name finds it too.
pub proof fn law_builtins_handle_sevenz(entry: EntryView)
    requires
        !entry.is_dir,
        entry.format_hint == ArchiveFormat::SevenZ,
    ensures
        BuiltinConverter::SevenZ(SevenZSolidToNonSolid).handles(entry),
        !BuiltinConverter::Zip(ZipPassthroughStub).handles(entry),
        BuiltinConverter::SevenZ(SevenZSolidToNonSolid).id_text() != BuiltinConverter::Zip(
            ZipPassthroughStub,
        ).id_text(),
{
    reveal_strlit("7z-solid-to-nonsolid");
    reveal_strlit("zip-stub");
    assert("7z-solid-to-nonsolid"@.len() != "zip-stub"@.len());
}

/// Law: a file is begun to be converted exactly if its name ends with `.7z`, in upper or lower case.
pub proof fn law_names_of_archives(dir: Seq<char>, name: Seq<char>)
    requires
        path_laws::plain_name(name),
        pathnorm::is_normal(name),
    ensures
        is_sevenz_name(dir + seq!['/'] + name) <==> text::ends(text::lower(name), ".7z"@),
{
    path_laws::lemma_name_of(dir, name);
    pathnorm::law_normal_form(name);
    listing_laws::law_format_follows_the_ending(name);
}

/// Law: the profile for 7z archives is for files whose name tells a 7z archive, and that for ZIP
/// archives for files whose name tells a ZIP archive; only the first can begin a conversion.
pub proof fn law_what_profiles_are_for(entry: EntryView, input: Seq<char>, ctx: ContextView)
    ensures
        SevenZSolidToNonSolid.handles(entry) <==> !entry.is_dir && entry.format_hint
            == ArchiveFormat::SevenZ,
        ZipPassthroughStub.handles(entry) <==> !entry.is_dir && entry.format_hint
            == ArchiveFormat::Zip,
        SevenZSolidToNonSolid.beginning(input, ctx) is Ok,
        ZipPassthroughStub.beginning(input, ctx) is Err,
{
}

} // verus!
