//! What a run is made with.

use crate::archive::types;
use crate::archive::types::{EntryMeta, EntryView, PackOptions};
use crate::codec::outer::OuterFormat;
use crate::convert::context::{ContextView, ConvertContext};
use crate::convert::registry;
use crate::convert::registry::{Converter, ConverterRegistry};
use crate::convert::sevenz_nonsolid::Conversion;
use crate::error::{other, Error, ErrorView, Result};
use crate::filter::member::{FilterView, MemberFilter};
use crate::filter::rename::{NameTransformer, RenameView};
use crate::pipeline::plan;
use crate::pipeline::plan::{build_plan, ConversionPlan, PlanOptions, PlannedView, RuntimeStats};
use crate::pipeline::staging;
use crate::pipeline::staging::enrich_entry_meta;
use crate::util::size_parse::DEFAULT_NESTED_SIZE_BUDGET;
use crate::util::text::{concat2, copy_str};
use vstd::prelude::*;

verus! {

/// What a run is made with.
#[derive(Debug)]
pub struct PipelineOptions {
    pub input: String,
    pub output: String,
    /// Which members of nested archives are kept.
    pub exclude_inner: MemberFilter,
    /// Which members of the outer archive are kept.
    pub exclude_outer: MemberFilter,
    pub rename: NameTransformer,
    pub temp_dir: Option<String>,
    pub keep_temp: bool,
    pub verify: bool,
    pub dry_run: bool,
    /// How many nested archives are converted at a time; zero stands for as many as there are
    /// threads or processors.
    pub nested_concurrency: usize,
    /// How much nested archives that are worked on at a time may weigh together; zero means no
    /// limit. An archive that weighs more runs alone.
    pub nested_size_budget: u64,
    pub pack: PackOptions,
    /// Whether the needed members of a solid archive are extracted at once.
    pub solid_single_pass: bool,
    /// Whether nested archives that are not solid are copied as they are, if there is no filter.
    pub passthrough_nonsolid: bool,
    /// Whether the next nested archive is extracted while one is converted.
    pub pipeline_overlap: bool,
    /// Whether the time of each step is shown.
    pub profile: bool,
    /// Whether the backend is first asked to convert without extracting.
    pub prefer_streaming: bool,
    /// What the output is.
    pub outer_format: OuterFormat,
}

impl Clone for PipelineOptions {
    fn clone(&self) -> (r: Self)
        ensures
            r.input@ == self.input@,
            r.output@ == self.output@,
            r.exclude_inner@ == self.exclude_inner@,
            r.exclude_outer@ == self.exclude_outer@,
            r.rename@ == self.rename@,
            r.temp_dir is Some <==> self.temp_dir is Some,
            self.temp_dir is Some ==> r.temp_dir->0@ == self.temp_dir->0@,
            r.keep_temp == self.keep_temp,
            r.verify == self.verify,
            r.dry_run == self.dry_run,
            r.nested_concurrency == self.nested_concurrency,
            r.nested_size_budget == self.nested_size_budget,
            r.pack == self.pack,
            r.solid_single_pass == self.solid_single_pass,
            r.passthrough_nonsolid == self.passthrough_nonsolid,
            r.pipeline_overlap == self.pipeline_overlap,
            r.profile == self.profile,
            r.prefer_streaming == self.prefer_streaming,
            r.outer_format == self.outer_format,
    {
        let temp_dir = match &self.temp_dir {
            Some(d) => Some(copy_str(d.as_str())),
            None => None,
        };
        PipelineOptions {
            input: copy_str(self.input.as_str()),
            output: copy_str(self.output.as_str()),
            exclude_inner: self.exclude_inner.clone(),
            exclude_outer: self.exclude_outer.clone(),
            rename: self.rename.clone(),
            temp_dir,
            keep_temp: self.keep_temp,
            verify: self.verify,
            dry_run: self.dry_run,
            nested_concurrency: self.nested_concurrency,
            nested_size_budget: self.nested_size_budget,
            pack: self.pack,
            solid_single_pass: self.solid_single_pass,
            passthrough_nonsolid: self.passthrough_nonsolid,
            pipeline_overlap: self.pipeline_overlap,
            profile: self.profile,
            prefer_streaming: self.prefer_streaming,
            outer_format: self.outer_format,
        }
    }
}

impl PipelineOptions {
    /// The options for a run from an input to an output; the name of the output says what it is.
    pub fn new(input: String, output: String) -> (r: Self)
        ensures
            r.input@ == input@,
            r.output@ == output@,
            r.exclude_inner@ == (FilterView { rules: Seq::empty(), basename_only: false }),
            r.exclude_outer@ == (FilterView { rules: Seq::empty(), basename_only: false }),
            r.rename@ == Seq::<RenameView>::empty(),
            r.temp_dir is None,
            !r.keep_temp,
            !r.verify,
            !r.dry_run,
            r.nested_concurrency == 0,
            r.nested_size_budget == DEFAULT_NESTED_SIZE_BUDGET,
            r.pack == (PackOptions { non_solid: true, threads: None, level: 5 }),
            r.solid_single_pass,
            r.passthrough_nonsolid,
            r.pipeline_overlap,
            !r.profile,
            !r.prefer_streaming,
            r.outer_format == OuterFormat::of_path(output@),
    {
        let outer_format = OuterFormat::from_output_path(output.as_str());
        PipelineOptions {
            input,
            output,
            exclude_inner: MemberFilter::new(),
            exclude_outer: MemberFilter::new(),
            rename: NameTransformer::new(),
            temp_dir: None,
            keep_temp: false,
            verify: false,
            dry_run: false,
            nested_concurrency: 0,
            nested_size_budget: DEFAULT_NESTED_SIZE_BUDGET,
            pack: PackOptions::default(),
            solid_single_pass: true,
            passthrough_nonsolid: true,
            pipeline_overlap: true,
            profile: false,
            prefer_streaming: false,
            outer_format,
        }
    }

    /// The error for an input that is no regular file.
    pub fn input_missing(&self) -> (r: Error)
        ensures
            r@ == ErrorView::Other("input not found: "@ + self.input@),
    {
        Error::Other(concat2("input not found: ", self.input.as_str()))
    }

    /// The members as the plan sees them: with what a second listing, if there is one, knows of
    /// their times and attributes.
    pub open spec fn known_entries(entries: Seq<EntryView>, listed: Option<Seq<EntryView>>) -> Seq<
        EntryView,
    > {
        match listed {
            Some(v) => entries.map_values(|e: EntryView| staging::enriched(e, v)),
            None => entries,
        }
    }

    /// Makes the plan for the members of the input. `listed` is a second listing, if there is
    /// one, that knows more of their times and attributes.
    pub fn plan(&self, entries: Vec<EntryMeta>, listed: Option<Vec<EntryMeta>>) -> (r: Result<
        ConversionPlan,
    >)
        ensures
            ({
                let seen = PipelineOptions::known_entries(
                    types::entry_views(entries@),
                    match listed {
                        Some(v) => Some(types::entry_views(v@)),
                        None => None,
                    },
                );
                let wanted = plan::planned(seen, self.exclude_outer@, self.rename@, true);
                match r {
                    Ok(p) => p.input@ == self.input@ && p.output@ == self.output@ && p.runtime == (
                    RuntimeStats {
                        nested_converted: 0,
                        nested_skipped: 0,
                        passthrough_written: 0,
                        passthrough_skipped: 0,
                    }) && wanted == Ok::<Seq<PlannedView>, ErrorView>(
                        plan::plan_views(p.entries@),
                    ),
                    Err(e) => wanted == Err::<Seq<PlannedView>, ErrorView>(e@),
                }
            }),
    {
        let seen = match listed {
            Some(v) => enrich_entry_meta(entries.as_slice(), v.as_slice()),
            None => entries,
        };
        build_plan(
            copy_str(self.input.as_str()),
            copy_str(self.output.as_str()),
            seen.as_slice(),
            PlanOptions {
                outer_filter: &self.exclude_outer,
                rename: &self.rename,
                convert_nested_7z: true,
            },
        )
    }

    /// Begins the conversion of a nested archive, with so many threads, in a directory for
    /// temporary files. Its output is not tested by itself.
    pub fn nested_conversion(&self, input: &str, threads: Option<u32>, temp_dir: String) -> (r:
        Result<Conversion>)
        ensures
            registry::conversion_result(
                r,
                Ok(
                    registry::begun(
                        input@,
                        ContextView {
                            exclude: self.exclude_inner@,
                            pack: PackOptions { non_solid: true, threads, level: self.pack.level },
                            temp_dir: temp_dir@,
                            verify: false,
                            passthrough_nonsolid: self.passthrough_nonsolid,
                            prefer_streaming: self.prefer_streaming,
                        },
                    ),
                ),
            ),
    {
        let mut ctx = ConvertContext::new(temp_dir);
        ctx.exclude = self.exclude_inner.clone();
        ctx.pack = PackOptions { non_solid: true, threads, level: self.pack.level };
        ctx.verify = false;
        ctx.passthrough_nonsolid = self.passthrough_nonsolid;
        ctx.prefer_streaming = self.prefer_streaming;
        begin_sevenz(input, &ctx, "missing 7z converter")
    }
}

/// Begins the conversion of a 7z archive.
fn begin_sevenz(input: &str, ctx: &ConvertContext, missing: &str) -> (r: Result<Conversion>)
    ensures
        registry::conversion_result(r, Ok(registry::begun(input@, ctx@))),
{
    let registry = ConverterRegistry::with_builtins();
    assert(registry.converters[0].id_text() == "7z-solid-to-nonsolid"@);
    match registry.get("7z-solid-to-nonsolid") {
        Some(conv) => conv.convert(input, ctx),
        None => Err(other(missing)),
    }
}

/// Begins the conversion of a single archive, which is copied as it is if it is not solid and
/// there is no filter.
pub fn convert_single(
    input: &str,
    exclude_inner: &MemberFilter,
    pack: &PackOptions,
    verify: bool,
    temp_dir: String,
) -> (r: Result<Conversion>)
    ensures
        registry::conversion_result(
            r,
            Ok(
                registry::begun(
                    input@,
                    ContextView {
                        exclude: exclude_inner@,
                        pack: PackOptions { non_solid: true, ..*pack },
                        temp_dir: temp_dir@,
                        verify,
                        passthrough_nonsolid: true,
                        prefer_streaming: true,
                    },
                ),
            ),
        ),
{
    convert_single_ex(input, exclude_inner, pack, verify, temp_dir, true)
}

/// Begins the conversion of a single archive. The backend is first asked to convert without
/// extracting.
pub fn convert_single_ex(
    input: &str,
    exclude_inner: &MemberFilter,
    pack: &PackOptions,
    verify: bool,
    temp_dir: String,
    passthrough_nonsolid: bool,
) -> (r: Result<Conversion>)
    ensures
        registry::conversion_result(
            r,
            Ok(
                registry::begun(
                    input@,
                    ContextView {
                        exclude: exclude_inner@,
                        pack: PackOptions { non_solid: true, ..*pack },
                        temp_dir: temp_dir@,
                        verify,
                        passthrough_nonsolid,
                        prefer_streaming: true,
                    },
                ),
            ),
        ),
{
    let mut ctx = ConvertContext::new(temp_dir);
    ctx.exclude = exclude_inner.clone();
    ctx.pack = *pack;
    ctx.pack.non_solid = true;
    ctx.verify = verify;
    ctx.passthrough_nonsolid = passthrough_nonsolid;
    ctx.prefer_streaming = true;
    begin_sevenz(input, &ctx, "missing converter")
}

} // verus!
