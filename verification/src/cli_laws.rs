//! What command lines ask for, argument by argument.

use crate::archive::native::NativePipeline;
use crate::archive::types::BackendKind;
use crate::cli;
use crate::cli::{CliBackend, CliOuterFormat, ConvertArgs, FilterFiles};
use crate::codec::lzma2::CodecKind;
use crate::codec::outer;
use crate::codec::outer::OuterFormat;
use crate::error::ErrorView;
use crate::filter::member;
use crate::filter::member::FilterView;
use crate::filter::rename;
use crate::filter::rename::RenameView;
use crate::pipeline::context::PipelineOptions;
use crate::util::size_parse;
use crate::util::size_parse::SizeValue;
use crate::util::text;
use vstd::prelude::*;

verus! {

/// Law: arguments that hold no mistake ask for what they say, each for its own option: the filters
/// of the outer archive are made of the arguments for the outer archive, and those of nested
/// archives of the arguments for these.
pub proof fn law_options_say_what_arguments_say(
    args: ConvertArgs,
    inner: FilterFiles,
    outer: FilterFiles,
    budget: SizeValue,
    o: PipelineOptions,
)
    requires
        args.asks_for(inner, outer, budget, o),
    ensures
        o.input@ == args.input@,
        args.output is Some ==> o.output@ == args.output->0@,
        member::cli_filter(
            inner.filter_from@,
            text::texts(args.filter_inner@),
            inner.include_from@,
            inner.exclude_from@,
            text::texts(args.include_inner@),
            text::texts(args.exclude_inner@),
            args.basename_match,
        ) == Ok::<FilterView, ErrorView>(o.exclude_inner@),
        member::cli_filter(
            outer.filter_from@,
            text::texts(args.filter_outer@),
            outer.include_from@,
            outer.exclude_from@,
            text::texts(args.include_outer@),
            text::texts(args.exclude_outer@),
            args.basename_match,
        ) == Ok::<FilterView, ErrorView>(o.exclude_outer@),
        rename::rename_pairs(text::texts(args.rename@)) == Ok::<Seq<RenameView>, ErrorView>(
            o.rename@,
        ),
        o.temp_dir is Some <==> args.temp_dir is Some,
        args.temp_dir is Some ==> o.temp_dir->0@ == args.temp_dir->0@,
        o.keep_temp == args.keep_temp,
        o.verify == args.verify,
        o.dry_run == args.dry_run,
        o.profile == args.profile,
        o.nested_concurrency == args.nested_concurrency,
        o.pack.non_solid,
        o.pack.threads == args.threads,
        o.pack.level == args.level,
        o.solid_single_pass <==> !args.no_solid_single_pass,
        o.passthrough_nonsolid <==> !args.no_passthrough_nonsolid,
        o.pipeline_overlap <==> !args.no_pipeline_overlap,
        o.prefer_streaming <==> args.backend == CliBackend::Native,
        args.outer_format == Some(CliOuterFormat::SevenZ) ==> o.outer_format == OuterFormat::SevenZ,
        args.outer_format == Some(CliOuterFormat::Tar) ==> o.outer_format == OuterFormat::Tar,
        args.outer_format == Some(CliOuterFormat::Dir) ==> o.outer_format == OuterFormat::Dir,
        args.outer_format is None && args.output is Some ==> o.outer_format == OuterFormat::of_path(
            args.output->0@,
        ),
        args.outer_format is None && args.output is None ==> o.outer_format == OuterFormat::SevenZ,
        size_parse::size_answer(args.nested_size_budget@, budget) == Ok::<u64, ErrorView>(
            o.nested_size_budget,
        ),
{
}

/// Law: arguments are refused for a level above nine, for rules, renaming or a size that cannot be
/// read, and where an output path is missing; and for nothing else.
pub proof fn law_what_is_refused(
    args: ConvertArgs,
    inner: FilterFiles,
    outer: FilterFiles,
    budget: SizeValue,
)
    ensures
        args.first_mistake(inner, outer, budget) is Some <==> args.level > 9 || args.inner_filter(
            inner,
        ) is Err || args.outer_filter(outer) is Err || rename::rename_pairs(
            text::texts(args.rename@),
        ) is Err || args.output_path() is Err || cli::size_of(args.nested_size_budget@, budget) is Err,
        args.inner_filter(inner) is Err ==> args.first_mistake(inner, outer, budget) == Some(
            args.inner_filter(inner)->Err_0,
        ),
        args.level > 9 && args.inner_filter(inner) is Ok && args.outer_filter(outer) is Ok
            && rename::rename_pairs(text::texts(args.rename@)) is Ok ==> args.first_mistake(
            inner,
            outer,
            budget,
        ) == Some(ErrorView::Other("--level must be 0-9"@)),
{
}

/// Law: the output goes to the path that is given. Without one, a directory goes beside the input,
/// a run that writes nothing needs none, and any other run is refused.
pub proof fn law_where_the_output_goes(args: ConvertArgs)
    ensures
        args.output is Some ==> args.output_path() == Ok::<Seq<char>, ErrorView>(args.output->0@),
        args.output is None && args.outer_format == Some(CliOuterFormat::Dir) ==> args.output_path()
            == Ok::<Seq<char>, ErrorView>(outer::default_dir(args.input@)),
        args.output is None && args.outer_format != Some(CliOuterFormat::Dir) && !args.dry_run
            ==> args.output_path() is Err,
        args.output is None && args.dry_run ==> args.output_path() is Ok,
{
}

/// Law: the words for how decoding and encoding take turns, in upper or lower case and with white
/// space around them or not; a number says how many files are decoded ahead, and zero none.
pub proof fn law_words_for_pipelines(a: Seq<char>, word: Seq<char>, b: Seq<char>)
    requires
        text::white(a),
        text::white(b),
        text::bare(word),
    ensures
        ({
            let low = text::lower(word);
            let p = cli::named_pipeline(a + word + b);
            &&& low == "parallel"@ || low == "parallel-codec"@ || low == "p3"@ ==> p == Ok::<
                NativePipeline,
                ErrorView,
            >(NativePipeline::ParallelCodec)
            &&& low == "sequential"@ || low == "seq"@ ==> p == Ok::<NativePipeline, ErrorView>(
                NativePipeline::Sequential,
            )
            &&& low == "ahead"@ || low == "pipeline"@ ==> p == Ok::<NativePipeline, ErrorView>(
                NativePipeline::DecodeAhead { depth: 2 },
            )
            &&& text::all_digits(word) && text::digits_value(word) == 0 ==> p == Ok::<
                NativePipeline,
                ErrorView,
            >(NativePipeline::Sequential)
            &&& text::all_digits(word) && 0 < text::digits_value(word) <= usize::MAX ==> p == Ok::<
                NativePipeline,
                ErrorView,
            >(NativePipeline::DecodeAhead { depth: text::digits_value(word) as usize })
        }),
{
    reveal_strlit("parallel");
    reveal_strlit("parallel-codec");
    reveal_strlit("p3");
    reveal_strlit("sequential");
    reveal_strlit("seq");
    reveal_strlit("0");
    reveal_strlit("ahead");
    reveal_strlit("pipeline");
    reveal_strlit("ahead:");
    text::law_trim_takes_white_space_away(a, word, b);
    let low = text::lower(word);
    assert("parallel"@.len() == 8 && "parallel-codec"@.len() == 14 && "p3"@.len() == 2
        && "sequential"@.len() == 10 && "seq"@.len() == 3 && "ahead"@.len() == 5
        && "pipeline"@.len() == 8);
    assert("parallel"@[0] == 'p' && "parallel-codec"@[0] == 'p' && "p3"@[0] == 'p' && "p3"@[1] == '3'
        && "sequential"@[0] == 's' && "seq"@[0] == 's' && "0"@[0] == '0' && "ahead"@[0] == 'a'
        && "pipeline"@[0] == 'p' && "pipeline"@[1] == 'i' && "parallel"@[1] == 'a');
    if text::all_digits(word) {
        assert(text::is_digit(word[0]));
        assert(low =~= word) by {
            assert forall|i: int| 0 <= i < word.len() implies text::lower_char(word[i])
                == word[i] by {
                assert(text::is_digit(word[i]));
            }
        }
        if text::begins(low, "ahead:"@) {
            assert(low.take(6)[0] == low[0]);
        }
        if low == "0"@ {
            lemma_zero();
        }
    }
}

proof fn lemma_zero()
    ensures
        text::digits_value("0"@) == 0,
{
    reveal_strlit("0");
    let none = Seq::<char>::empty();
    assert("0"@.drop_last() =~= none);
    assert("0"@.last() == '0');
    assert(text::digits_value(none) == 0);
}

/// Law: `ahead:` with a number says how many files are decoded ahead, at least one.
pub proof fn law_depth_of_decoding_ahead(digits: Seq<char>)
    requires
        digits.len() > 0,
        text::all_digits(digits),
        text::digits_value(digits) <= usize::MAX,
    ensures
        cli::named_pipeline("ahead:"@ + digits) == Ok::<NativePipeline, ErrorView>(
            NativePipeline::DecodeAhead {
                depth: if text::digits_value(digits) == 0 {
                    1
                } else {
                    text::digits_value(digits) as usize
                },
            },
        ),
{
    reveal_strlit("parallel");
    reveal_strlit("parallel-codec");
    reveal_strlit("p3");
    reveal_strlit("sequential");
    reveal_strlit("seq");
    reveal_strlit("0");
    reveal_strlit("ahead");
    reveal_strlit("pipeline");
    reveal_strlit("ahead:");
    let s = "ahead:"@ + digits;
    assert(text::is_digit(digits[0]));
    assert(text::is_digit(digits[digits.len() - 1]));
    assert(s.last() == digits[digits.len() - 1]);
    assert(s[0] == 'a');
    text::law_trim_takes_white_space_away(Seq::empty(), s, Seq::empty());
    assert(text::lower(s) =~= s) by {
        assert forall|i: int| 0 <= i < s.len() implies text::lower_char(s[i]) == s[i] by {
            if i >= 6 {
                assert(s[i] == digits[i - 6]);
                assert(text::is_digit(digits[i - 6]));
            }
        }
    }
    assert(s.take(6) =~= "ahead:"@);
    assert(s.skip(6) =~= digits);
    assert("parallel"@[0] == 'p' && "parallel-codec"@[0] == 'p' && "p3"@[0] == 'p'
        && "sequential"@[0] == 's' && "seq"@[0] == 's' && "0"@[0] == '0' && "pipeline"@[0] == 'p');
    assert(s.len() > "ahead"@.len());
}

/// Law: the backend within the process works as it is asked to: with the named pipeline and
/// encoder, from the given size on with several threads, and with so many threads as are given.
pub proof fn law_native_settings(
    pipeline: Seq<char>,
    threshold: u64,
    threads: Option<u32>,
    codec: Seq<char>,
    cpus: usize,
)
    requires
        1 <= cpus <= 256,
    ensures
        ({
            let r = cli::native_settings(pipeline, threshold, threads, codec, Some(cpus));
            &&& r is Ok <==> cli::named_pipeline(pipeline) is Ok && CodecKind::named(codec) is Some
            &&& r is Ok ==> {
                let o = r->Ok_0;
                &&& o.decode_threads == cpus
                &&& o.encode_threads == threads
                &&& cli::named_pipeline(pipeline) == Ok::<NativePipeline, ErrorView>(o.pipeline)
                &&& o.large_file_threshold == threshold
                &&& o.parallel_pack_read
                &&& CodecKind::named(codec) == Some(o.codec)
            }
        }),
{
}

/// Law: each word of the command line means the backend and the container of its name.
pub proof fn law_names_of_backends_and_containers()
    ensures
        CliBackend::Cli.meant() == BackendKind::Cli,
        CliBackend::Native.meant() == BackendKind::Native,
        CliOuterFormat::SevenZ.meant() == OuterFormat::SevenZ,
        CliOuterFormat::Tar.meant() == OuterFormat::Tar,
        CliOuterFormat::Dir.meant() == OuterFormat::Dir,
{
}

} // verus!
