//! What a conversion is made with.

use crate::archive::types::PackOptions;
use crate::filter::member::{FilterView, MemberFilter};
use crate::util::text::copy_str;
use vstd::prelude::*;

verus! {

/// What the conversion of one archive is made with.
#[derive(Debug)]
pub struct ConvertContext {
    /// Which members are kept.
    pub exclude: MemberFilter,
    pub pack: PackOptions,
    /// The directory for temporary files.
    pub temp_dir: String,
    /// Whether the result is tested.
    pub verify: bool,
    /// Whether an archive that is not solid is copied as it is, if there is no filter.
    pub passthrough_nonsolid: bool,
    /// Whether the backend is first asked to convert without extracting.
    pub prefer_streaming: bool,
}

/// The contents of a [`ConvertContext`].
#[verifier::ext_equal]
pub struct ContextView {
    pub exclude: FilterView,
    pub pack: PackOptions,
    pub temp_dir: Seq<char>,
    pub verify: bool,
    pub passthrough_nonsolid: bool,
    pub prefer_streaming: bool,
}

impl View for ConvertContext {
    type V = ContextView;

    open spec fn view(&self) -> ContextView {
        ContextView {
            exclude: self.exclude@,
            pack: self.pack,
            temp_dir: self.temp_dir@,
            verify: self.verify,
            passthrough_nonsolid: self.passthrough_nonsolid,
            prefer_streaming: self.prefer_streaming,
        }
    }
}

impl ConvertContext {
    /// No filter, the default packing, no test, no streaming; what is not solid is copied.
    pub fn new(temp_dir: String) -> (r: Self)
        ensures
            r@ == (ContextView {
                exclude: FilterView { rules: Seq::empty(), basename_only: false },
                pack: PackOptions { non_solid: true, threads: None, level: 5 },
                temp_dir: temp_dir@,
                verify: false,
                passthrough_nonsolid: true,
                prefer_streaming: false,
            }),
    {
        ConvertContext {
            exclude: MemberFilter::new(),
            pack: PackOptions::default(),
            temp_dir,
            verify: false,
            passthrough_nonsolid: true,
            prefer_streaming: false,
        }
    }
}

impl Clone for ConvertContext {
    fn clone(&self) -> (r: Self)
        ensures
            r@ == self@,
    {
        ConvertContext {
            exclude: self.exclude.clone(),
            pack: self.pack,
            temp_dir: copy_str(self.temp_dir.as_str()),
            verify: self.verify,
            passthrough_nonsolid: self.passthrough_nonsolid,
            prefer_streaming: self.prefer_streaming,
        }
    }
}

/// What came out of a conversion.
#[derive(Debug)]
pub struct ConvertOutput {
    /// Where the converted archive is.
    pub path: String,
}

} // verus!
