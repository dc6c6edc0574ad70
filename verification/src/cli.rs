//! What the arguments of the command line mean.

use crate::archive::native::{NativeOptions, NativePipeline};
use crate::archive::types::{BackendKind, PackOptions};
use crate::codec::lzma2::CodecKind;
use crate::codec::outer;
use crate::codec::outer::{default_dir_from_input, OuterFormat};
use crate::error::{other, Error, ErrorView, Result};
use crate::filter::member;
use crate::filter::member::{FilterView, MemberFilter, RuleFile};
use crate::filter::rename;
use crate::filter::rename::{NameTransformer, RenameView};
use crate::filter::rsync::ParsedFilterLine;
use crate::pipeline::context::PipelineOptions;
use crate::pipeline::plan;
use crate::pipeline::plan::{ActionKind, ConversionPlan};
use crate::util::size_parse;
use crate::util::size_parse::{finish_byte_size, split_byte_size, SizeValue};
use crate::util::text;
use crate::util::text::{
    begins_with, chars_of, concat3, concat5, copy_str, from_pos, is_text, read_usize, show_usize,
    string_of, to_lower, trimmed,
};
use vstd::prelude::*;

verus! {

/// The container of the output, as it is asked for.
#[derive(Debug, Clone, Copy, PartialEq, Eq, Structural)]
pub enum CliOuterFormat {
    SevenZ,
    Tar,
    Dir,
}

impl CliOuterFormat {
    /// The container that is asked for.
    pub open spec fn meant(self) -> OuterFormat {
        match self {
            CliOuterFormat::SevenZ => OuterFormat::SevenZ,
            CliOuterFormat::Tar => OuterFormat::Tar,
            CliOuterFormat::Dir => OuterFormat::Dir,
        }
    }
}

impl From<CliOuterFormat> for OuterFormat {
    fn from(v: CliOuterFormat) -> (r: Self) {
        match v {
            CliOuterFormat::SevenZ => OuterFormat::SevenZ,
            CliOuterFormat::Tar => OuterFormat::Tar,
            CliOuterFormat::Dir => OuterFormat::Dir,
        }
    }
}

impl vstd::std_specs::convert::FromSpecImpl<CliOuterFormat> for OuterFormat {
    open spec fn obeys_from_spec() -> bool {
        true
    }

    open spec fn from_spec(v: CliOuterFormat) -> Self {
        v.meant()
    }
}

/// The backend that is asked for.
#[derive(Debug, Clone, Copy, PartialEq, Eq, Structural)]
pub enum CliBackend {
    /// The 7z program.
    Cli,
    /// The library within the process.
    Native,
}

impl CliBackend {
    /// The backend that is asked for.
    pub open spec fn meant(self) -> BackendKind {
        match self {
            CliBackend::Cli => BackendKind::Cli,
            CliBackend::Native => BackendKind::Native,
        }
    }
}

impl From<CliBackend> for BackendKind {
    fn from(v: CliBackend) -> (r: Self) {
        match v {
            CliBackend::Cli => BackendKind::Cli,
            CliBackend::Native => BackendKind::Native,
        }
    }
}

impl vstd::std_specs::convert::FromSpecImpl<CliBackend> for BackendKind {
    open spec fn obeys_from_spec() -> bool {
        true
    }

    open spec fn from_spec(v: CliBackend) -> Self {
        v.meant()
    }
}

/// What the program is asked to do.
#[derive(Debug)]
pub enum Commands {
    /// Convert an archive with nested archives.
    Convert(ConvertArgs),
    /// Convert a single archive.
    ConvertSingle(ConvertSingleArgs),
    /// Show the backends.
    Backend,
    /// List the conversion profiles.
    ListConverters,
}

/// The level of messages for a number of `-v` flags.
pub fn log_level(verbose: u8) -> (r: &'static str)
    ensures
        r@ == (if verbose == 0 {
            "info"@
        } else if verbose == 1 {
            "debug"@
        } else {
            "trace"@
        }),
{
    if verbose == 0 {
        "info"
    } else if verbose == 1 {
        "debug"
    } else {
        "trace"
    }
}

// ---------------------------------------------------------------------------------------------
// The backend within the process
// ---------------------------------------------------------------------------------------------
/// How decoding and encoding take turns, by a word or a number; or why the text means nothing.
pub open spec fn named_pipeline(s: Seq<char>) -> std::result::Result<NativePipeline, ErrorView> {
    let low = text::lower(text::trim(s));
    let max = usize::MAX as nat;
    if low == "parallel"@ || low == "parallel-codec"@ || low == "p3"@ {
        Ok(NativePipeline::ParallelCodec)
    } else if low == "sequential"@ || low == "seq"@ || low == "0"@ {
        Ok(NativePipeline::Sequential)
    } else if low == "ahead"@ || low == "pipeline"@ {
        Ok(NativePipeline::DecodeAhead { depth: 2 })
    } else if text::begins(low, "ahead:"@) {
        match text::decimal_max(low.skip(6), max) {
            Some(n) => Ok(
                NativePipeline::DecodeAhead {
                    depth: if n == 0 {
                        1
                    } else {
                        n as usize
                    },
                },
            ),
            None => Err(
                ErrorView::Other("invalid --native-pipeline depth in '"@ + low + "'"@),
            ),
        }
    } else {
        match text::decimal_max(low, max) {
            Some(n) => Ok(
                if n == 0 {
                    NativePipeline::Sequential
                } else {
                    NativePipeline::DecodeAhead { depth: n as usize }
                },
            ),
            None => Err(
                ErrorView::Other(
                    "unknown --native-pipeline '"@ + low
                        + "' (parallel|sequential|ahead|ahead:N)"@,
                ),
            ),
        }
    }
}

/// How decoding and encoding take turns, by a word or a number.
pub fn parse_pipeline(s: &str) -> (r: Result<NativePipeline>)
    ensures
        match r {
            Ok(p) => named_pipeline(s@) == Ok::<NativePipeline, ErrorView>(p),
            Err(e) => named_pipeline(s@) == Err::<NativePipeline, ErrorView>(e@),
        },
{
    proof {
        reveal_strlit("ahead:");
    }
    let chars = chars_of(s);
    let lower = to_lower(trimmed(chars.as_slice()));
    let low = lower.as_slice();
    if is_text(low, "parallel") || is_text(low, "parallel-codec") || is_text(low, "p3") {
        return Ok(NativePipeline::ParallelCodec);
    }
    if is_text(low, "sequential") || is_text(low, "seq") || is_text(low, "0") {
        return Ok(NativePipeline::Sequential);
    }
    if is_text(low, "ahead") || is_text(low, "pipeline") {
        return Ok(NativePipeline::DecodeAhead { depth: 2 });
    }
    if begins_with(low, "ahead:") {
        return match read_usize(from_pos(low, 6)) {
            Some(n) => Ok(
                NativePipeline::DecodeAhead {
                    depth: if n == 0 {
                        1
                    } else {
                        n
                    },
                },
            ),
            None => Err(
                Error::Other(
                    concat3("invalid --native-pipeline depth in '", string_of(low).as_str(), "'"),
                ),
            ),
        };
    }
    match read_usize(low) {
        Some(n) => Ok(
            if n == 0 {
                NativePipeline::Sequential
            } else {
                NativePipeline::DecodeAhead { depth: n }
            },
        ),
        None => Err(
            Error::Other(
                concat3(
                    "unknown --native-pipeline '",
                    string_of(low).as_str(),
                    "' (parallel|sequential|ahead|ahead:N)",
                ),
            ),
        ),
    }
}

/// How the backend works, by the arguments; or the first argument that means nothing.
pub open spec fn native_settings(
    pipeline: Seq<char>,
    large_threshold: u64,
    encode_threads: Option<u32>,
    codec: Seq<char>,
    cpus: Option<usize>,
) -> std::result::Result<NativeOptions, ErrorView> {
    match named_pipeline(pipeline) {
        Err(e) => Err(e),
        Ok(p) => match CodecKind::named(codec) {
            None => Err(
                ErrorView::Other(
                    "unknown --native-codec '"@ + codec + "' (use liblzma or pure-rust)"@,
                ),
            ),
            Some(c) => Ok(
                NativeOptions {
                    decode_threads: size_parse::processor_count(cpus) as u32,
                    encode_threads,
                    pipeline: p,
                    large_file_threshold: large_threshold,
                    parallel_pack_read: true,
                    codec: c,
                },
            ),
        },
    }
}

/// How the backend works, by the arguments.
pub fn native_options_from(
    pipeline: &str,
    large_threshold: u64,
    encode_threads: Option<u32>,
    codec: &str,
    cpus: Option<usize>,
) -> (r: Result<NativeOptions>)
    ensures
        match r {
            Ok(o) => native_settings(pipeline@, large_threshold, encode_threads, codec@, cpus)
                == Ok::<NativeOptions, ErrorView>(o),
            Err(e) => native_settings(pipeline@, large_threshold, encode_threads, codec@, cpus)
                == Err::<NativeOptions, ErrorView>(e@),
        },
{
    let mut o = NativeOptions::for_cpus(cpus);
    o.pipeline = match parse_pipeline(pipeline) {
        Ok(p) => p,
        Err(e) => {
            return Err(e);
        },
    };
    o.large_file_threshold = large_threshold;
    o.encode_threads = encode_threads;
    o.codec = match CodecKind::parse(codec) {
        Some(c) => c,
        None => {
            return Err(
                Error::Other(
                    concat3(
                        "unknown --native-codec '",
                        codec,
                        "' (use liblzma or pure-rust)",
                    ),
                ),
            );
        },
    };
    Ok(o)
}

// ---------------------------------------------------------------------------------------------
// Converting an archive with nested archives
// ---------------------------------------------------------------------------------------------
/// The files that rules come from, as they were read.
#[derive(Debug)]
pub struct FilterFiles {
    /// Filter files, their merges inlined.
    pub filter_from: Vec<Result<Vec<ParsedFilterLine>>>,
    pub include_from: Vec<RuleFile>,
    pub exclude_from: Vec<RuleFile>,
}

/// The arguments of a conversion of an archive with nested archives.
#[derive(Debug)]
pub struct ConvertArgs {
    pub input: String,
    pub output: Option<String>,
    pub outer_format: Option<CliOuterFormat>,
    pub exclude_inner: Vec<String>,
    pub exclude_outer: Vec<String>,
    pub include_inner: Vec<String>,
    pub include_outer: Vec<String>,
    pub filter_inner: Vec<String>,
    pub filter_outer: Vec<String>,
    pub filter_from_inner: Vec<String>,
    pub filter_from_outer: Vec<String>,
    pub include_from_inner: Vec<String>,
    pub include_from_outer: Vec<String>,
    pub exclude_from_inner: Vec<String>,
    pub exclude_from_outer: Vec<String>,
    pub rename: Vec<String>,
    pub basename_match: bool,
    pub temp_dir: Option<String>,
    pub keep_temp: bool,
    pub verify: bool,
    pub dry_run: bool,
    pub level: u32,
    pub threads: Option<u32>,
    pub nested_concurrency: usize,
    pub nested_size_budget: String,
    pub no_solid_single_pass: bool,
    pub no_passthrough_nonsolid: bool,
    pub no_pipeline_overlap: bool,
    pub profile: bool,
    pub backend: CliBackend,
    pub native_pipeline: String,
    pub native_large_threshold: u64,
    pub native_codec: String,
}

/// What a size comes to, or why there is none; `value` is what its number comes to where it is not
/// a whole number.
pub open spec fn size_of(s: Seq<char>, value: SizeValue) -> std::result::Result<u64, ErrorView> {
    match size_parse::size_text(s) {
        Err(e) => Err(e),
        Ok(_) => size_parse::size_answer(s, value),
    }
}

fn scaled_size(s: &str, value: SizeValue) -> (r: Result<u64>)
    ensures
        size_parse::size_result(r, size_of(s@, value)),
{
    match split_byte_size(s) {
        Err(e) => Err(e),
        Ok(_) => finish_byte_size(s, value),
    }
}

impl ConvertArgs {
    /// The container of the output.
    pub open spec fn container(self) -> OuterFormat {
        match self.outer_format {
            Some(f) => f.meant(),
            None => match self.output {
                Some(p) => OuterFormat::of_path(p@),
                None => OuterFormat::SevenZ,
            },
        }
    }

    /// Where the output goes: to the path that is asked for; else, for a directory, next to the
    /// input; a run that writes nothing needs no path.
    pub open spec fn output_path(self) -> std::result::Result<Seq<char>, ErrorView> {
        match self.output {
            Some(p) => Ok(p@),
            None => if self.container() is Dir {
                Ok(outer::default_dir(self.input@))
            } else if self.dry_run {
                Ok("out.7z"@)
            } else {
                Err(
                    ErrorView::Other(
                        "-o/--output is required for outer formats 7z and tar (for directory output use --outer-format dir; default dir name matches the input archive stem)"@,
                    ),
                )
            },
        }
    }

    /// The container of the output and where it goes.
    pub fn resolve_output(&self) -> (r: Result<(OuterFormat, String)>)
        ensures
            match r {
                Ok((f, p)) => f == self.container() && self.output_path() == Ok::<
                    Seq<char>,
                    ErrorView,
                >(p@),
                Err(e) => self.output_path() == Err::<Seq<char>, ErrorView>(e@),
            },
    {
        let explicit: Option<OuterFormat> = match self.outer_format {
            Some(f) => Some(OuterFormat::from(f)),
            None => None,
        };
        let path = match &self.output {
            Some(p) => Some(p.as_str()),
            None => None,
        };
        let format = OuterFormat::resolve(explicit, path);
        let output = match &self.output {
            Some(p) => copy_str(p.as_str()),
            None => if format.is_directory() {
                default_dir_from_input(self.input.as_str())
            } else if self.dry_run {
                copy_str("out.7z")
            } else {
                return Err(
                    other(
                        "-o/--output is required for outer formats 7z and tar (for directory output use --outer-format dir; default dir name matches the input archive stem)",
                    ),
                );
            },
        };
        Ok((format, output))
    }

    /// Which members of nested archives are kept.
    pub open spec fn inner_filter(self, files: FilterFiles) -> std::result::Result<
        FilterView,
        ErrorView,
    > {
        member::cli_filter(
            files.filter_from@,
            text::texts(self.filter_inner@),
            files.include_from@,
            files.exclude_from@,
            text::texts(self.include_inner@),
            text::texts(self.exclude_inner@),
            self.basename_match,
        )
    }

    /// Which members of the outer archive are kept.
    pub open spec fn outer_filter(self, files: FilterFiles) -> std::result::Result<
        FilterView,
        ErrorView,
    > {
        member::cli_filter(
            files.filter_from@,
            text::texts(self.filter_outer@),
            files.include_from@,
            files.exclude_from@,
            text::texts(self.include_outer@),
            text::texts(self.exclude_outer@),
            self.basename_match,
        )
    }

    /// The first mistake in the arguments: in the filter for nested archives, that for the outer
    /// archive, the renaming, the level, the output, or the size budget.
    pub open spec fn first_mistake(
        self,
        inner: FilterFiles,
        outer: FilterFiles,
        budget: SizeValue,
    ) -> Option<ErrorView> {
        let renames = rename::rename_pairs(text::texts(self.rename@));
        if self.inner_filter(inner) is Err {
            Some(self.inner_filter(inner)->Err_0)
        } else if self.outer_filter(outer) is Err {
            Some(self.outer_filter(outer)->Err_0)
        } else if renames is Err {
            Some(renames->Err_0)
        } else if self.level > 9 {
            Some(ErrorView::Other("--level must be 0-9"@))
        } else if self.output_path() is Err {
            Some(self.output_path()->Err_0)
        } else if size_of(self.nested_size_budget@, budget) is Err {
            Some(size_of(self.nested_size_budget@, budget)->Err_0)
        } else {
            None
        }
    }

    /// The options are what the arguments ask for.
    pub open spec fn asks_for(
        self,
        inner: FilterFiles,
        outer: FilterFiles,
        budget: SizeValue,
        o: PipelineOptions,
    ) -> bool {
        &&& o.input@ == self.input@
        &&& self.output_path() == Ok::<Seq<char>, ErrorView>(o.output@)
        &&& self.inner_filter(inner) == Ok::<FilterView, ErrorView>(o.exclude_inner@)
        &&& self.outer_filter(outer) == Ok::<FilterView, ErrorView>(o.exclude_outer@)
        &&& rename::rename_pairs(text::texts(self.rename@)) == Ok::<Seq<RenameView>, ErrorView>(
            o.rename@,
        )
        &&& match (self.temp_dir, o.temp_dir) {
            (Some(a), Some(b)) => a@ == b@,
            (None, None) => true,
            _ => false,
        }
        &&& o.keep_temp == self.keep_temp
        &&& o.verify == self.verify
        &&& o.dry_run == self.dry_run
        &&& o.nested_concurrency == self.nested_concurrency
        &&& size_of(self.nested_size_budget@, budget) == Ok::<u64, ErrorView>(o.nested_size_budget)
        &&& o.pack == (PackOptions { non_solid: true, threads: self.threads, level: self.level })
        &&& o.solid_single_pass == !self.no_solid_single_pass
        &&& o.passthrough_nonsolid == !self.no_passthrough_nonsolid
        &&& o.pipeline_overlap == !self.no_pipeline_overlap
        &&& o.profile == self.profile
        &&& o.prefer_streaming == (self.backend is Native)
        &&& o.outer_format == self.container()
    }

    /// The options that the arguments ask for. `inner` and `outer` are the files that rules come
    /// from; `budget` is what the number of the size budget comes to where it is not a whole
    /// number.
    pub fn to_pipeline_options(
        &self,
        inner: &FilterFiles,
        outer: &FilterFiles,
        budget: SizeValue,
    ) -> (r: Result<PipelineOptions>)
        ensures
            match r {
                Ok(o) => self.first_mistake(*inner, *outer, budget) is None && self.asks_for(
                    *inner,
                    *outer,
                    budget,
                    o,
                ),
                Err(e) => self.first_mistake(*inner, *outer, budget) == Some(e@),
            },
    {
        let exclude_inner = match MemberFilter::from_cli(
            inner.filter_from.as_slice(),
            self.filter_inner.as_slice(),
            inner.include_from.as_slice(),
            inner.exclude_from.as_slice(),
            self.include_inner.as_slice(),
            self.exclude_inner.as_slice(),
            self.basename_match,
        ) {
            Ok(f) => f,
            Err(e) => {
                return Err(e);
            },
        };
        let exclude_outer = match MemberFilter::from_cli(
            outer.filter_from.as_slice(),
            self.filter_outer.as_slice(),
            outer.include_from.as_slice(),
            outer.exclude_from.as_slice(),
            self.include_outer.as_slice(),
            self.exclude_outer.as_slice(),
            self.basename_match,
        ) {
            Ok(f) => f,
            Err(e) => {
                return Err(e);
            },
        };
        let rename = match NameTransformer::from_pairs(self.rename.as_slice()) {
            Ok(t) => t,
            Err(e) => {
                return Err(e);
            },
        };
        if self.level > 9 {
            return Err(other("--level must be 0-9"));
        }
        let (outer_format, output) = match self.resolve_output() {
            Ok(x) => x,
            Err(e) => {
                return Err(e);
            },
        };
        let nested_size_budget = match scaled_size(self.nested_size_budget.as_str(), budget) {
            Ok(n) => n,
            Err(e) => {
                return Err(e);
            },
        };
        let mut opts = PipelineOptions::new(copy_str(self.input.as_str()), output);
        opts.exclude_inner = exclude_inner;
        opts.exclude_outer = exclude_outer;
        opts.rename = rename;
        opts.temp_dir = match &self.temp_dir {
            Some(d) => Some(copy_str(d.as_str())),
            None => None,
        };
        opts.keep_temp = self.keep_temp;
        opts.verify = self.verify;
        opts.dry_run = self.dry_run;
        opts.nested_concurrency = self.nested_concurrency;
        opts.nested_size_budget = nested_size_budget;
        opts.solid_single_pass = !self.no_solid_single_pass;
        opts.passthrough_nonsolid = !self.no_passthrough_nonsolid;
        opts.pipeline_overlap = !self.no_pipeline_overlap;
        opts.profile = self.profile;
        opts.prefer_streaming = matches!(self.backend, CliBackend::Native);
        opts.outer_format = outer_format;
        opts.pack = PackOptions { non_solid: true, threads: self.threads, level: self.level };
        Ok(opts)
    }

    /// The backend that is asked for.
    pub fn backend_kind(&self) -> (r: BackendKind)
        ensures
            r == self.backend.meant(),
    {
        BackendKind::from(self.backend)
    }

    /// How the backend within the process works.
    pub fn native_options(&self, cpus: Option<usize>) -> (r: Result<NativeOptions>)
        ensures
            match r {
                Ok(o) => native_settings(
                    self.native_pipeline@,
                    self.native_large_threshold,
                    self.threads,
                    self.native_codec@,
                    cpus,
                ) == Ok::<NativeOptions, ErrorView>(o),
                Err(e) => native_settings(
                    self.native_pipeline@,
                    self.native_large_threshold,
                    self.threads,
                    self.native_codec@,
                    cpus,
                ) == Err::<NativeOptions, ErrorView>(e@),
            },
    {
        native_options_from(
            self.native_pipeline.as_str(),
            self.native_large_threshold,
            self.threads,
            self.native_codec.as_str(),
            cpus,
        )
    }
}

/// The line that is shown after a run.
pub fn summary(opts: &PipelineOptions, plan: &ConversionPlan, backend: BackendKind) -> (r: String)
    requires
        plan.entries.len() + plan.runtime.nested_skipped + plan.runtime.passthrough_skipped
            <= usize::MAX,
    ensures
        r@ == "Wrote "@ + opts.output@ + " (outer="@ + opts.outer_format.name() + ", nested="@
            + text::number_text(plan.runtime.nested_converted as nat) + ", passthrough="@
            + text::number_text(plan.runtime.passthrough_written as nat) + ", skipped="@
            + text::number_text(
            (plan::count_action(plan::plan_views(plan.entries@), ActionKind::Skip)
                + plan.runtime.nested_skipped + plan.runtime.passthrough_skipped) as nat,
        ) + ", backend="@ + (if backend is Cli {
            "cli"@
        } else {
            "native"@
        }) + ")"@,
{
    proof {
        plan::law_counts_add_up(plan::plan_views(plan.entries@));
    }
    let skipped: usize = plan.skip_count() + plan.runtime.runtime_skipped();
    let mut s = concat5(
        "Wrote ",
        opts.output.as_str(),
        " (outer=",
        opts.outer_format.as_str(),
        ", nested=",
    );
    s.append(show_usize(plan.runtime.nested_converted).as_str());
    s.append(", passthrough=");
    s.append(show_usize(plan.runtime.passthrough_written).as_str());
    s.append(", skipped=");
    s.append(show_usize(skipped).as_str());
    s.append(", backend=");
    s.append(backend.as_str());
    s.append(")");
    s
}

// ---------------------------------------------------------------------------------------------
// Converting a single archive
// ---------------------------------------------------------------------------------------------
/// The arguments of a conversion of a single archive.
#[derive(Debug)]
pub struct ConvertSingleArgs {
    pub input: String,
    pub output: String,
    pub exclude: Vec<String>,
    pub include_regex: Vec<String>,
    pub filter: Vec<String>,
    pub filter_from: Vec<String>,
    pub include_from: Vec<String>,
    pub exclude_from: Vec<String>,
    pub temp_dir: Option<String>,
    pub keep_temp: bool,
    pub verify: bool,
    pub level: u32,
    pub threads: Option<u32>,
    pub backend: CliBackend,
    pub native_pipeline: String,
    pub native_large_threshold: u64,
    pub native_codec: String,
}

impl ConvertSingleArgs {
    /// Which members are kept.
    pub fn member_filter(&self, files: &FilterFiles) -> (r: Result<MemberFilter>)
        ensures
            member::built(
                r,
                member::cli_filter(
                    files.filter_from@,
                    text::texts(self.filter@),
                    files.include_from@,
                    files.exclude_from@,
                    text::texts(self.include_regex@),
                    text::texts(self.exclude@),
                    false,
                ),
            ),
    {
        MemberFilter::from_cli(
            files.filter_from.as_slice(),
            self.filter.as_slice(),
            files.include_from.as_slice(),
            files.exclude_from.as_slice(),
            self.include_regex.as_slice(),
            self.exclude.as_slice(),
            false,
        )
    }

    /// How the archive is packed.
    pub fn pack_options(&self) -> (r: PackOptions)
        ensures
            r == (PackOptions { non_solid: true, threads: self.threads, level: self.level }),
    {
        PackOptions { non_solid: true, threads: self.threads, level: self.level }
    }

    /// The backend that is asked for.
    pub fn backend_kind(&self) -> (r: BackendKind)
        ensures
            r == self.backend.meant(),
    {
        BackendKind::from(self.backend)
    }

    /// How the backend within the process works.
    pub fn native_options(&self, cpus: Option<usize>) -> (r: Result<NativeOptions>)
        ensures
            match r {
                Ok(o) => native_settings(
                    self.native_pipeline@,
                    self.native_large_threshold,
                    self.threads,
                    self.native_codec@,
                    cpus,
                ) == Ok::<NativeOptions, ErrorView>(o),
                Err(e) => native_settings(
                    self.native_pipeline@,
                    self.native_large_threshold,
                    self.threads,
                    self.native_codec@,
                    cpus,
                ) == Err::<NativeOptions, ErrorView>(e@),
            },
    {
        native_options_from(
            self.native_pipeline.as_str(),
            self.native_large_threshold,
            self.threads,
            self.native_codec.as_str(),
            cpus,
        )
    }
}

/// The line that is shown after the conversion of a single archive.
pub fn single_summary(output: &str, backend: BackendKind) -> (r: String)
    ensures
        r@ == "Wrote "@ + output@ + " (backend="@ + (if backend is Cli {
            "cli"@
        } else {
            "native"@
        }) + ")"@,
{
    concat5("Wrote ", output, " (backend=", backend.as_str(), ")")
}

} // verus!
