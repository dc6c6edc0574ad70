//! Rebuilding a 7z archive so that no stream holds more than one file, without the members that a
//! filter drops.

use crate::archive::types;
use crate::archive::types::{EntryMeta, EntryView, PackOptions};
use crate::convert::context::{ContextView, ConvertContext};
use crate::error::{Error, ErrorView};
use crate::filter::exclude_laws;
use crate::filter::member::{FilterView, MemberFilter};
use crate::filter::wild;
use crate::util::auto_threads;
use crate::util::auto_threads::{file_stats, resolve_pack_threads};
use crate::util::pathnorm;
use crate::util::pathnorm::{is_safe_member_path, normalize_member_path};
use crate::util::text;
use crate::util::text::concat2;
use crate::util::textpath;
use crate::util::textpath::path_join;
use vstd::prelude::*;

verus! {

// ---------------------------------------------------------------------------------------------
// Decisions
// ---------------------------------------------------------------------------------------------
impl ContextView {
    /// There are rules.
    pub open spec fn filtered(self) -> bool {
        self.exclude.rules.len() > 0
    }

    /// The rules can be handed to the 7z program as globs, and there are some.
    pub open spec fn by_globs(self) -> bool {
        self.filtered() && self.exclude.globs() is Some && self.exclude.globs()->0.len() > 0
    }

    /// Members have to be removed after extraction.
    pub open spec fn by_removal(self) -> bool {
        self.filtered() && !self.by_globs()
    }

    /// The members have to be known before extraction.
    pub open spec fn needs_listing(self) -> bool {
        self.by_removal() || (self.pack.threads is None && self.filtered())
    }

    /// How the archive is packed, with a number of threads.
    pub open spec fn packing(self, threads: Option<u32>) -> PackOptions {
        PackOptions { non_solid: true, threads, level: self.pack.level }
    }
}

/// The paths of the listed files that must not stay: those that are not safe, and those that the
/// filter drops.
pub open spec fn unwanted(entries: Seq<EntryView>, filter: FilterView) -> Seq<Seq<char>>
    decreases entries.len(),
{
    if entries.len() == 0 {
        Seq::empty()
    } else {
        let rest = unwanted(entries.drop_last(), filter);
        let rel = pathnorm::normalized(entries.last().path);
        if entries.last().is_dir || (pathnorm::safe(rel) && filter.keeps(rel, false)) {
            rest
        } else {
            rest.push(rel)
        }
    }
}

/// The paths of the listed files that must not stay.
pub fn unwanted_paths(entries: &[EntryMeta], filter: &MemberFilter) -> (r: Vec<String>)
    ensures
        text::texts(r@) == unwanted(types::entry_views(entries@), filter@),
{
    let ghost all = types::entry_views(entries@);
    let mut out: Vec<String> = Vec::new();
    let mut i: usize = 0;
    assert(all.take(0) =~= Seq::<EntryView>::empty());
    assert(text::texts(out@) =~= Seq::<Seq<char>>::empty());
    while i < entries.len()
        invariant
            i <= entries.len(),
            all == types::entry_views(entries@),
            text::texts(out@) == unwanted(all.take(i as int), filter@),
        decreases entries.len() - i,
    {
        assert(all.take(i + 1).drop_last() =~= all.take(i as int));
        assert(all.take(i + 1).last() == entries@[i as int]@);
        if !entries[i].is_dir {
            let rel = normalize_member_path(entries[i].path.as_str());
            if !(is_safe_member_path(rel.as_str()) && filter.should_keep(rel.as_str())) {
                let ghost before = out@;
                let ghost rv = rel@;
                out.push(rel);
                assert(text::texts(out@) =~= text::texts(before).push(rv));
            }
        }
        i += 1;
    }
    assert(all.take(i as int) =~= all);
    out
}

// ---------------------------------------------------------------------------------------------
// Steps
// ---------------------------------------------------------------------------------------------
/// Which step is being carried out.
#[derive(Debug, Clone, Copy, PartialEq, Eq, Structural)]
pub enum ConvertPhase {
    /// Nothing has been done yet.
    Ready,
    Prepare,
    Solidity,
    Copy,
    Stream,
    CreateTree,
    List,
    Extract,
    Remove,
    Prune,
    Measure,
    Pack,
    Test,
    /// The conversion is over.
    Ended,
}

/// How a step came out.
#[derive(Debug)]
pub enum ConvertEvent {
    /// The conversion begins; whether the input is a regular file.
    Begin(bool),
    /// The step was carried out.
    Done,
    /// The step failed.
    Failed(Error),
    /// Whether the input is solid, where that could be found out.
    Solid(Option<bool>),
    /// Whether the backend converted without extracting.
    Streamed(bool),
    /// The members of the input.
    Listed(Vec<EntryMeta>),
    /// Whether any file was removed.
    Removed(bool),
}

/// What is to be done.
#[derive(Debug)]
pub enum ConvertAction {
    /// Make an empty directory for the work.
    Prepare,
    /// Find out whether the input is solid.
    AskSolid,
    /// Copy the input to the output.
    CopyInput,
    /// Have the backend convert without extracting.
    Stream(PackOptions),
    /// Make the directory into which members are extracted.
    CreateTree,
    /// List the members of the input.
    List,
    /// Extract all members but those that a glob matches.
    ExtractExcluding(Vec<String>),
    /// Extract all members.
    ExtractAll,
    /// Remove extracted files, as far as they exist.
    Remove(Vec<String>),
    /// Remove directories that have become empty.
    Prune,
    /// Pack what was extracted.
    Pack(PackOptions),
    /// Test the output.
    Test,
    /// The conversion is over and succeeded.
    Succeed,
    /// The conversion is over and failed.
    Fail(Error),
}

/// The contents of a [`ConvertAction`].
#[verifier::ext_equal]
pub enum ConvertActionView {
    Prepare,
    AskSolid,
    CopyInput,
    Stream(PackOptions),
    CreateTree,
    List,
    ExtractExcluding(Seq<Seq<char>>),
    ExtractAll,
    Remove(Seq<Seq<char>>),
    Prune,
    Pack(PackOptions),
    Test,
    Succeed,
    Fail(ErrorView),
}

impl View for ConvertAction {
    type V = ConvertActionView;

    open spec fn view(&self) -> ConvertActionView {
        match *self {
            ConvertAction::Prepare => ConvertActionView::Prepare,
            ConvertAction::AskSolid => ConvertActionView::AskSolid,
            ConvertAction::CopyInput => ConvertActionView::CopyInput,
            ConvertAction::Stream(p) => ConvertActionView::Stream(p),
            ConvertAction::CreateTree => ConvertActionView::CreateTree,
            ConvertAction::List => ConvertActionView::List,
            ConvertAction::ExtractExcluding(g) => ConvertActionView::ExtractExcluding(
                text::texts(g@),
            ),
            ConvertAction::ExtractAll => ConvertActionView::ExtractAll,
            ConvertAction::Remove(v) => ConvertActionView::Remove(text::texts(v@)),
            ConvertAction::Prune => ConvertActionView::Prune,
            ConvertAction::Pack(p) => ConvertActionView::Pack(p),
            ConvertAction::Test => ConvertActionView::Test,
            ConvertAction::Succeed => ConvertActionView::Succeed,
            ConvertAction::Fail(e) => ConvertActionView::Fail(e@),
        }
    }
}

/// The state of the conversion of one archive.
#[derive(Debug)]
pub struct Conversion {
    pub input: String,
    pub ctx: ConvertContext,
    pub phase: ConvertPhase,
    /// The members, once they have been listed.
    pub listed: Option<Vec<EntryMeta>>,
}

/// The contents of a [`Conversion`].
#[verifier::ext_equal]
pub struct ConversionView {
    pub input: Seq<char>,
    pub ctx: ContextView,
    pub phase: ConvertPhase,
    pub listed: Option<Seq<EntryView>>,
}

impl View for Conversion {
    type V = ConversionView;

    open spec fn view(&self) -> ConversionView {
        ConversionView {
            input: self.input@,
            ctx: self.ctx@,
            phase: self.phase,
            listed: match self.listed {
                Some(v) => Some(types::entry_views(v@)),
                None => None,
            },
        }
    }
}

impl ConversionView {
    /// This conversion in another phase.
    pub open spec fn at(self, phase: ConvertPhase) -> ConversionView {
        ConversionView { phase, ..self }
    }

    /// The conversion has failed.
    pub open spec fn failing(self, e: ErrorView) -> (ConversionView, ConvertActionView) {
        (self.at(ConvertPhase::Ended), ConvertActionView::Fail(e))
    }

    /// The output is there; it is tested if that is asked for.
    pub open spec fn finishing(self) -> (ConversionView, ConvertActionView) {
        if self.ctx.verify {
            (self.at(ConvertPhase::Test), ConvertActionView::Test)
        } else {
            (self.at(ConvertPhase::Ended), ConvertActionView::Succeed)
        }
    }

    /// The members are extracted, as far as possible without those that the filter drops.
    pub open spec fn extracting(self) -> (ConversionView, ConvertActionView) {
        (
            self.at(ConvertPhase::Extract),
            if self.ctx.by_globs() {
                ConvertActionView::ExtractExcluding(self.ctx.exclude.globs()->0)
            } else {
                ConvertActionView::ExtractAll
            },
        )
    }

    /// What was extracted is packed by so many threads.
    pub open spec fn packed_by(self, threads: Option<u32>) -> (ConversionView, ConvertActionView) {
        (self.at(ConvertPhase::Pack), ConvertActionView::Pack(self.ctx.packing(threads)))
    }

    /// What was extracted is packed; where nobody asked for a number of threads, the members
    /// decide it, which have to be listed first if they are not known yet.
    pub open spec fn packing(self) -> (ConversionView, ConvertActionView) {
        if self.ctx.pack.threads is Some {
            self.packed_by(self.ctx.pack.threads)
        } else {
            match self.listed {
                Some(v) => self.packed_by(auto_threads::threads_for(None, v)),
                None => (self.at(ConvertPhase::Measure), ConvertActionView::List),
            }
        }
    }

    /// The archive is extracted and packed again.
    pub open spec fn rebuilding(self) -> (ConversionView, ConvertActionView) {
        (self.at(ConvertPhase::CreateTree), ConvertActionView::CreateTree)
    }

    /// The outcome is one that the current step can have.
    pub open spec fn accepts(self, event: ConvertEvent) -> bool {
        match self.phase {
            ConvertPhase::Ready => event is Begin,
            ConvertPhase::Solidity => event is Solid,
            ConvertPhase::Stream => event is Streamed || event is Failed,
            ConvertPhase::List | ConvertPhase::Measure => event is Listed || event is Failed,
            ConvertPhase::Remove => event is Removed,
            ConvertPhase::Ended => false,
            _ => event is Done || event is Failed,
        }
    }

    /// The conversion after the current step came out as `event`, and what is to be done then.
    pub open spec fn after(self, event: ConvertEvent) -> (ConversionView, ConvertActionView) {
        let ctx = self.ctx;
        match (self.phase, event) {
            (ConvertPhase::Ready, ConvertEvent::Begin(is_file)) => if is_file {
                (self.at(ConvertPhase::Prepare), ConvertActionView::Prepare)
            } else {
                self.failing(ErrorView::Other("input archive not found: "@ + self.input))
            },
            (ConvertPhase::Prepare, ConvertEvent::Done) => (
                self.at(ConvertPhase::Solidity),
                ConvertActionView::AskSolid,
            ),
            (ConvertPhase::Solidity, ConvertEvent::Solid(solid)) => if solid == Some(false)
                && !ctx.filtered() && ctx.passthrough_nonsolid {
                (self.at(ConvertPhase::Copy), ConvertActionView::CopyInput)
            } else if ctx.prefer_streaming {
                (
                    self.at(ConvertPhase::Stream),
                    ConvertActionView::Stream(ctx.packing(ctx.pack.threads)),
                )
            } else {
                self.rebuilding()
            },
            (ConvertPhase::Copy, ConvertEvent::Done) => self.finishing(),
            (ConvertPhase::Stream, ConvertEvent::Streamed(true)) => self.finishing(),
            (ConvertPhase::Stream, _) => self.rebuilding(),
            (ConvertPhase::CreateTree, ConvertEvent::Done) => if ctx.needs_listing() {
                (self.at(ConvertPhase::List), ConvertActionView::List)
            } else {
                self.extracting()
            },
            (ConvertPhase::List, ConvertEvent::Listed(v)) => (ConversionView {
                listed: Some(types::entry_views(v@)),
                ..self
            }).extracting(),
            (ConvertPhase::Extract, ConvertEvent::Done) => if ctx.by_removal()
                && self.listed is Some {
                (
                    self.at(ConvertPhase::Remove),
                    ConvertActionView::Remove(unwanted(self.listed->0, ctx.exclude)),
                )
            } else {
                self.packing()
            },
            (ConvertPhase::Remove, ConvertEvent::Removed(any)) => if any {
                (self.at(ConvertPhase::Prune), ConvertActionView::Prune)
            } else {
                self.packing()
            },
            (ConvertPhase::Prune, ConvertEvent::Done) => self.packing(),
            (ConvertPhase::Measure, ConvertEvent::Listed(v)) => self.packed_by(
                auto_threads::threads_for(None, types::entry_views(v@)),
            ),
            (ConvertPhase::Measure, _) => self.packed_by(None),
            (ConvertPhase::Pack, ConvertEvent::Done) => self.finishing(),
            (ConvertPhase::Test, ConvertEvent::Done) => (
                self.at(ConvertPhase::Ended),
                ConvertActionView::Succeed,
            ),
            (_, ConvertEvent::Failed(e)) => self.failing(e@),
            _ => (self, ConvertActionView::Prepare),
        }
    }

    /// The members are known wherever the filter needs them, and are measured only where nobody
    /// asked for a number of threads.
    pub open spec fn valid(self) -> bool {
        match self.phase {
            ConvertPhase::Extract | ConvertPhase::Remove | ConvertPhase::Prune => {
                &&& self.ctx.needs_listing() ==> self.listed is Some
                &&& self.phase is Extract || self.ctx.by_removal()
            },
            ConvertPhase::Measure => self.ctx.pack.threads is None,
            _ => true,
        }
    }

    /// How far the conversion is from its end.
    pub open spec fn remaining(self) -> nat {
        match self.phase {
            ConvertPhase::Ready => 13,
            ConvertPhase::Prepare => 12,
            ConvertPhase::Solidity => 11,
            ConvertPhase::Copy => 10,
            ConvertPhase::Stream => 10,
            ConvertPhase::CreateTree => 9,
            ConvertPhase::List => 8,
            ConvertPhase::Extract => 7,
            ConvertPhase::Remove => 6,
            ConvertPhase::Prune => 5,
            ConvertPhase::Measure => 4,
            ConvertPhase::Pack => 3,
            ConvertPhase::Test => 2,
            ConvertPhase::Ended => 1,
        }
    }
}

impl Conversion {
    /// The conversion of an archive.
    pub fn new(input: &str, ctx: &ConvertContext) -> (r: Self)
        ensures
            r@ == (ConversionView {
                input: input@,
                ctx: ctx@,
                phase: ConvertPhase::Ready,
                listed: None,
            }),
            r@.valid(),
    {
        Conversion {
            input: text::copy_str(input),
            ctx: ctx.clone(),
            phase: ConvertPhase::Ready,
            listed: None,
        }
    }

    /// The directory for the work.
    pub fn work_dir(&self) -> (r: String)
        ensures
            r@ == textpath::join(self.ctx.temp_dir@, "work"@),
    {
        path_join(self.ctx.temp_dir.as_str(), "work")
    }

    /// The directory into which members are extracted.
    pub fn tree_dir(&self) -> (r: String)
        ensures
            r@ == textpath::join(textpath::join(self.ctx.temp_dir@, "work"@), "tree"@),
    {
        path_join(self.work_dir().as_str(), "tree")
    }

    /// Where the converted archive goes.
    pub fn output_path(&self) -> (r: String)
        ensures
            r@ == textpath::join(textpath::join(self.ctx.temp_dir@, "work"@), "out.7z"@),
    {
        path_join(self.work_dir().as_str(), "out.7z")
    }

    /// Whether the outcome is one that the current step can have.
    pub fn accepts(&self, event: &ConvertEvent) -> (r: bool)
        ensures
            r == self@.accepts(*event),
    {
        match self.phase {
            ConvertPhase::Ready => matches!(event, ConvertEvent::Begin(_)),
            ConvertPhase::Solidity => matches!(event, ConvertEvent::Solid(_)),
            ConvertPhase::Stream => matches!(
                event,
                ConvertEvent::Streamed(_) | ConvertEvent::Failed(_)
            ),
            ConvertPhase::List | ConvertPhase::Measure => matches!(
                event,
                ConvertEvent::Listed(_) | ConvertEvent::Failed(_)
            ),
            ConvertPhase::Remove => matches!(event, ConvertEvent::Removed(_)),
            ConvertPhase::Ended => false,
            _ => matches!(event, ConvertEvent::Done | ConvertEvent::Failed(_)),
        }
    }

    fn fail(&mut self, e: Error) -> (r: ConvertAction)
        ensures
            (final(self)@, r@) == old(self)@.failing(e@),
    {
        self.phase = ConvertPhase::Ended;
        ConvertAction::Fail(e)
    }

    fn finish(&mut self) -> (r: ConvertAction)
        ensures
            (final(self)@, r@) == old(self)@.finishing(),
    {
        if self.ctx.verify {
            self.phase = ConvertPhase::Test;
            ConvertAction::Test
        } else {
            self.phase = ConvertPhase::Ended;
            ConvertAction::Succeed
        }
    }

    /// The globs that are handed to the 7z program, where the rules can be written as globs.
    fn globs(&self) -> (r: Option<Vec<String>>)
        ensures
            match r {
                Some(g) => self.ctx@.by_globs() && text::texts(g@)
                    == self.ctx@.exclude.globs()->0,
                None => !self.ctx@.by_globs(),
            },
    {
        if self.ctx.exclude.is_empty() {
            return None;
        }
        match self.ctx.exclude.try_7z_exclude_globs() {
            Some(g) => {
                assert(text::texts(g@).len() == g.len());
                if g.len() > 0 {
                    Some(g)
                } else {
                    None
                }
            },
            None => None,
        }
    }

    fn needs_removal(&self) -> (r: bool)
        ensures
            r == self.ctx@.by_removal(),
    {
        !self.ctx.exclude.is_empty() && self.globs().is_none()
    }

    fn extract(&mut self) -> (r: ConvertAction)
        ensures
            (final(self)@, r@) == old(self)@.extracting(),
    {
        let globs = self.globs();
        self.phase = ConvertPhase::Extract;
        match globs {
            Some(g) => ConvertAction::ExtractExcluding(g),
            None => ConvertAction::ExtractAll,
        }
    }

    fn pack_with(&mut self, threads: Option<u32>) -> (r: ConvertAction)
        ensures
            (final(self)@, r@) == old(self)@.packed_by(threads),
    {
        self.phase = ConvertPhase::Pack;
        ConvertAction::Pack(
            PackOptions { non_solid: true, threads, level: self.ctx.pack.level },
        )
    }

    fn pack(&mut self) -> (r: ConvertAction)
        ensures
            (final(self)@, r@) == old(self)@.packing(),
    {
        if self.ctx.pack.threads.is_some() {
            let threads = self.ctx.pack.threads;
            return self.pack_with(threads);
        }
        let threads = match &self.listed {
            Some(v) => {
                let (n, bytes) = file_stats(v.as_slice());
                resolve_pack_threads(None, n, bytes)
            },
            None => {
                self.phase = ConvertPhase::Measure;
                return ConvertAction::List;
            },
        };
        self.pack_with(threads)
    }

    /// Takes note of how the current step came out and says what is to be done next.
    pub fn step(&mut self, event: ConvertEvent) -> (r: ConvertAction)
        requires
            old(self)@.valid(),
            old(self)@.accepts(event),
        ensures
            (final(self)@, r@) == old(self)@.after(event),
            final(self)@.valid(),
            final(self)@.remaining() < old(self)@.remaining(),
    {
        match (self.phase, event) {
            (_, ConvertEvent::Begin(is_file)) => if is_file {
                self.phase = ConvertPhase::Prepare;
                ConvertAction::Prepare
            } else {
                let message = concat2("input archive not found: ", self.input.as_str());
                self.fail(Error::Other(message))
            },
            (_, ConvertEvent::Solid(solid)) => {
                let loose = match solid {
                    Some(yes) => !yes,
                    None => false,
                };
                if loose && self.ctx.exclude.is_empty() && self.ctx.passthrough_nonsolid {
                    self.phase = ConvertPhase::Copy;
                    ConvertAction::CopyInput
                } else if self.ctx.prefer_streaming {
                    self.phase = ConvertPhase::Stream;
                    ConvertAction::Stream(
                        PackOptions {
                            non_solid: true,
                            threads: self.ctx.pack.threads,
                            level: self.ctx.pack.level,
                        },
                    )
                } else {
                    self.phase = ConvertPhase::CreateTree;
                    ConvertAction::CreateTree
                }
            },
            (_, ConvertEvent::Streamed(converted)) => if converted {
                self.finish()
            } else {
                self.phase = ConvertPhase::CreateTree;
                ConvertAction::CreateTree
            },
            (ConvertPhase::Stream, ConvertEvent::Failed(_)) => {
                self.phase = ConvertPhase::CreateTree;
                ConvertAction::CreateTree
            },
            (ConvertPhase::Measure, ConvertEvent::Failed(_)) => self.pack_with(None),
            (_, ConvertEvent::Failed(e)) => self.fail(e),
            (ConvertPhase::List, ConvertEvent::Listed(v)) => {
                self.listed = Some(v);
                self.extract()
            },
            (_, ConvertEvent::Listed(v)) => {
                let (n, bytes) = file_stats(v.as_slice());
                self.pack_with(resolve_pack_threads(None, n, bytes))
            },
            (_, ConvertEvent::Removed(any)) => if any {
                self.phase = ConvertPhase::Prune;
                ConvertAction::Prune
            } else {
                self.pack()
            },
            (ConvertPhase::Prepare, ConvertEvent::Done) => {
                self.phase = ConvertPhase::Solidity;
                ConvertAction::AskSolid
            },
            (ConvertPhase::CreateTree, ConvertEvent::Done) => {
                let known = self.ctx.pack.threads.is_none() && !self.ctx.exclude.is_empty();
                if self.needs_removal() || known {
                    self.phase = ConvertPhase::List;
                    ConvertAction::List
                } else {
                    self.extract()
                }
            },
            (ConvertPhase::Extract, ConvertEvent::Done) => {
                if self.needs_removal() {
                    let rels = match &self.listed {
                        Some(v) => Some(unwanted_paths(v.as_slice(), &self.ctx.exclude)),
                        None => None,
                    };
                    if let Some(paths) = rels {
                        self.phase = ConvertPhase::Remove;
                        return ConvertAction::Remove(paths);
                    }
                }
                self.pack()
            },
            (ConvertPhase::Prune, ConvertEvent::Done) => self.pack(),
            (ConvertPhase::Test, ConvertEvent::Done) => {
                self.phase = ConvertPhase::Ended;
                ConvertAction::Succeed
            },
            (_, ConvertEvent::Done) => self.finish(),
        }
    }
}

// ---------------------------------------------------------------------------------------------
// Laws
// ---------------------------------------------------------------------------------------------
/// Law: where a test is asked for, a conversion succeeds only after a test that passed.
pub proof fn law_success_is_tested(s: ConversionView, event: ConvertEvent)
    requires
        s.accepts(event),
        s.ctx.verify,
        s.after(event).1 is Succeed,
    ensures
        s.phase is Test && event is Done,
{
}

/// Law: an archive is copied as it is only if it is known not to be solid and no rule could drop
/// a member.
pub proof fn law_copied_only_if_nothing_changes(s: ConversionView, event: ConvertEvent)
    requires
        s.accepts(event),
        s.after(event).1 is CopyInput,
    ensures
        event == ConvertEvent::Solid(Some(false)),
        s.ctx.exclude.rules.len() == 0,
{
}

/// Law: whatever is packed is not solid.
pub proof fn law_packed_is_not_solid(s: ConversionView, event: ConvertEvent)
    requires
        s.accepts(event),
    ensures
        s.after(event).1 is Pack ==> s.after(event).1->Pack_0.non_solid,
        s.after(event).1 is Stream ==> s.after(event).1->Stream_0.non_solid,
{
}

/// Law: a number of threads that was asked for reaches everything that is packed or streamed.
pub proof fn law_asked_threads_are_used(s: ConversionView, event: ConvertEvent)
    requires
        s.valid(),
        s.accepts(event),
        s.ctx.pack.threads is Some,
    ensures
        s.after(event).1 is Pack ==> s.after(event).1->Pack_0.threads == s.ctx.pack.threads,
        s.after(event).1 is Stream ==> s.after(event).1->Stream_0.threads == s.ctx.pack.threads,
        s.after(event).0.valid(),
{
}

/// Law: globs that keep members away from extraction match exactly the files that the filter
/// drops.
pub proof fn law_globs_keep_away_what_is_dropped(
    s: ConversionView,
    event: ConvertEvent,
    p: Seq<char>,
)
    requires
        s.accepts(event),
        s.after(event).1 is ExtractExcluding,
        exclude_laws::file_path(p),
    ensures
        wild::any_wild(s.after(event).1->ExtractExcluding_0, p) <==> !s.ctx.exclude.keeps(p, false),
{
    let g = s.after(event).1->ExtractExcluding_0;
    assert(s.ctx.exclude.globs() == Some(g));
    exclude_laws::law_globs_do_what_the_filter_does(s.ctx.exclude, g, p);
}

/// Law: a backend that cannot convert without extracting, or fails at it, does not end the
/// conversion.
pub proof fn law_streaming_falls_back(s: ConversionView, event: ConvertEvent)
    requires
        s.phase is Stream,
        s.accepts(event),
        event != ConvertEvent::Streamed(true),
    ensures
        s.after(event).1 is CreateTree,
{
}

/// Law: members that the filter drops are kept away by globs or removed after extraction, but
/// never both, and never neither.
pub proof fn law_filter_is_applied_once(ctx: ContextView)
    requires
        ctx.exclude.rules.len() > 0,
    ensures
        ctx.by_globs() != ctx.by_removal(),
        ctx.by_removal() ==> ctx.needs_listing(),
{
}

/// Law: what is removed after extraction is every listed file that is not safe or that the filter
/// drops, and nothing else.
pub proof fn law_unwanted_is_exact(entries: Seq<EntryView>, filter: FilterView, rel: Seq<char>)
    ensures
        unwanted(entries, filter).contains(rel) <==> exists|i: int|
            0 <= i < entries.len() && !(#[trigger] entries[i]).is_dir && pathnorm::normalized(
                entries[i].path,
            ) == rel && !(pathnorm::safe(rel) && filter.keeps(rel, false)),
    decreases entries.len(),
{
    if entries.len() > 0 {
        let t = entries.drop_last();
        law_unwanted_is_exact(t, filter, rel);
        let rest = unwanted(t, filter);
        let last = pathnorm::normalized(entries.last().path);
        if rest.contains(rel) {
            let i = choose|i: int|
                0 <= i < t.len() && !(#[trigger] t[i]).is_dir && pathnorm::normalized(t[i].path)
                    == rel && !(pathnorm::safe(rel) && filter.keeps(rel, false));
            assert(entries[i] == t[i]);
            let k = choose|k: int| 0 <= k < rest.len() && rest[k] == rel;
            assert(unwanted(entries, filter)[k] == rel);
        }
        if unwanted(entries, filter).contains(rel) && !rest.contains(rel) {
            let k = choose|k: int|
                0 <= k < unwanted(entries, filter).len() && unwanted(entries, filter)[k] == rel;
            if k < rest.len() {
                assert(rest[k] == rel);
            }
            assert(entries[entries.len() - 1] == entries.last());
        }
        if exists|i: int|
            0 <= i < entries.len() && !(#[trigger] entries[i]).is_dir && pathnorm::normalized(
                entries[i].path,
            ) == rel && !(pathnorm::safe(rel) && filter.keeps(rel, false)) {
            let i = choose|i: int|
                0 <= i < entries.len() && !(#[trigger] entries[i]).is_dir && pathnorm::normalized(
                    entries[i].path,
                ) == rel && !(pathnorm::safe(rel) && filter.keeps(rel, false));
            if i < entries.len() - 1 {
                assert(t[i] == entries[i]);
            } else {
                assert(unwanted(entries, filter)[rest.len() as int] == last);
            }
        }
    }
}

} // verus!
