//! What holds of every run of a conversion, from its beginning on.

use crate::archive::types;
use crate::archive::types::EntryView;
use crate::convert::context::ContextView;
use crate::convert::registry;
use crate::convert::sevenz_nonsolid;
use crate::convert::sevenz_nonsolid::{
    ConversionView, ConvertActionView, ConvertEvent,
};
use crate::error::ErrorView;
use crate::filter::member::FilterView;
use crate::util::auto_threads;
use crate::util::pathnorm;
use vstd::prelude::*;

verus! {

/// The state after the first `k` outcomes.
pub open spec fn state_at(start: ConversionView, events: Seq<ConvertEvent>, k: int) -> ConversionView
    decreases k,
{
    if k <= 0 {
        start
    } else {
        state_at(start, events, k - 1).after(events[k - 1]).0
    }
}

/// What is done upon outcome `k`.
pub open spec fn action_at(start: ConversionView, events: Seq<ConvertEvent>, k: int) ->
    ConvertActionView {
    state_at(start, events, k).after(events[k]).1
}

/// A run: a conversion that has not begun, and outcomes each of which the step before can have.
pub open spec fn is_run(start: ConversionView, events: Seq<ConvertEvent>) -> bool {
    &&& start.phase is Ready
    &&& start.listed is None
    &&& forall|k: int|
        0 <= k < events.len() ==> #[trigger] state_at(start, events, k).accepts(events[k])
}

/// There are rules, and they cannot be handed on as globs.
pub open spec fn rules_without_globs(ctx: ContextView) -> bool {
    &&& ctx.exclude.rules.len() > 0
    &&& ctx.exclude.globs() is None || ctx.exclude.globs()->0.len() == 0
}

/// Some member that is no directory has this path, and the path is not safe or is dropped.
pub open spec fn must_go(members: Seq<EntryView>, filter: FilterView, rel: Seq<char>) -> bool {
    exists|i: int|
        0 <= i < members.len() && !(#[trigger] members[i]).is_dir && pathnorm::normalized(
            members[i].path,
        ) == rel && (!pathnorm::safe(rel) || !filter.keeps(rel, false))
}

proof fn lemma_valid(start: ConversionView, events: Seq<ConvertEvent>, k: int)
    requires
        is_run(start, events),
        0 <= k <= events.len(),
    ensures
        state_at(start, events, k).valid(),
        state_at(start, events, k).ctx == start.ctx,
        state_at(start, events, k).input == start.input,
        state_at(start, events, k).phase is Ready ==> k == 0,
    decreases k,
{
    if k > 0 {
        lemma_valid(start, events, k - 1);
        assert(state_at(start, events, k - 1).accepts(events[k - 1]));
    }
}

/// What is known of the members was told by an outcome.
proof fn lemma_listing(start: ConversionView, events: Seq<ConvertEvent>, k: int) -> (m: int)
    requires
        is_run(start, events),
        0 <= k <= events.len(),
        state_at(start, events, k).listed is Some,
    ensures
        0 <= m < k,
        events[m] is Listed,
        types::entry_views(events[m]->Listed_0@) == state_at(start, events, k).listed->0,
    decreases k,
{
    let before = state_at(start, events, k - 1);
    assert(before.accepts(events[k - 1]));
    if before.phase is List && events[k - 1] is Listed {
        k - 1
    } else {
        lemma_listing(start, events, k - 1)
    }
}

/// Before anything is packed, the unwanted files are removed.
proof fn lemma_removal(start: ConversionView, events: Seq<ConvertEvent>, k: int) -> (w: (int, int))
    requires
        is_run(start, events),
        0 <= k <= events.len(),
        rules_without_globs(start.ctx),
        ({
            let p = state_at(start, events, k).phase;
            p is Remove || p is Prune || p is Measure || p is Pack
        }),
    ensures
        0 <= w.0 < w.1 < k,
        events[w.0] is Listed,
        action_at(start, events, w.1) == ConvertActionView::Remove(
            sevenz_nonsolid::unwanted(
                types::entry_views(events[w.0]->Listed_0@),
                start.ctx.exclude,
            ),
        ),
    decreases k,
{
    let before = state_at(start, events, k - 1);
    lemma_valid(start, events, k - 1);
    assert(before.accepts(events[k - 1]));
    if before.phase is Extract {
        let m = lemma_listing(start, events, k - 1);
        (m, k - 1)
    } else {
        lemma_removal(start, events, k - 1)
    }
}

/// Law: where there are rules that cannot be handed on as globs, something is packed only after the
/// members were listed and files were removed: every listed file that is not safe or that the
/// filter drops, and no other. That holds whatever number of threads is asked for.
pub proof fn law_dropped_members_are_removed_before_packing(
    start: ConversionView,
    events: Seq<ConvertEvent>,
    k: int,
) -> (w: (int, int))
    requires
        is_run(start, events),
        0 <= k < events.len(),
        action_at(start, events, k) is Pack,
        rules_without_globs(start.ctx),
    ensures
        0 <= w.0 < w.1 < k,
        events[w.0] is Listed,
        action_at(start, events, w.1) is Remove,
        forall|rel: Seq<char>| #[trigger]
            action_at(start, events, w.1)->Remove_0.contains(rel) <==> must_go(
                types::entry_views(events[w.0]->Listed_0@),
                start.ctx.exclude,
                rel,
            ),
{
    assert(state_at(start, events, k).accepts(events[k]));
    assert(state_at(start, events, k + 1).phase is Pack);
    let w = lemma_removal(start, events, k + 1);
    let members = types::entry_views(events[w.0]->Listed_0@);
    assert(w.1 < k) by {
        assert(action_at(start, events, k) is Pack);
    }
    assert forall|rel: Seq<char>| #[trigger]
        action_at(start, events, w.1)->Remove_0.contains(rel) <==> must_go(
            members,
            start.ctx.exclude,
            rel,
        ) by {
        sevenz_nonsolid::law_unwanted_is_exact(members, start.ctx.exclude, rel);
    }
    w
}

/// Law: where the rules can be handed on as globs, nothing is extracted without these globs, and
/// without such rules nothing is kept away from extraction.
pub proof fn law_globs_are_handed_on(s: ConversionView, event: ConvertEvent)
    requires
        s.accepts(event),
    ensures
        s.after(event).1 is ExtractAll ==> s.ctx.exclude.rules.len() == 0 || rules_without_globs(
            s.ctx,
        ),
        s.after(event).1 matches ConvertActionView::ExtractExcluding(g) ==> {
            &&& s.ctx.exclude.rules.len() > 0
            &&& g.len() > 0
            &&& s.ctx.exclude.globs() == Some(g)
        },
        s.after(event).1 is Remove ==> rules_without_globs(s.ctx),
{
}

/// Law: a conversion without rules removes nothing in any run.
pub proof fn law_nothing_is_removed_without_rules(
    start: ConversionView,
    events: Seq<ConvertEvent>,
    k: int,
)
    requires
        is_run(start, events),
        0 <= k < events.len(),
        start.ctx.exclude.rules.len() == 0,
    ensures
        action_at(start, events, k) !is Remove,
        action_at(start, events, k) !is ExtractExcluding,
{
    lemma_valid(start, events, k);
    assert(state_at(start, events, k).accepts(events[k]));
}

/// Some members were extracted.
proof fn lemma_extraction(start: ConversionView, events: Seq<ConvertEvent>, k: int) -> (j: int)
    requires
        is_run(start, events),
        0 <= k <= events.len(),
        ({
            let p = state_at(start, events, k).phase;
            p is Extract || p is Remove || p is Prune || p is Measure || p is Pack
        }),
    ensures
        0 <= j < k,
        action_at(start, events, j) is ExtractAll || action_at(start, events, j)
            is ExtractExcluding,
        state_at(start, events, k).phase !is Extract ==> j + 1 < k && events[j + 1] is Done,
        state_at(start, events, k).phase is Extract ==> j + 1 == k,
    decreases k,
{
    let before = state_at(start, events, k - 1);
    lemma_valid(start, events, k - 1);
    assert(before.accepts(events[k - 1]));
    if before.phase is CreateTree || before.phase is List {
        k - 1
    } else {
        lemma_extraction(start, events, k - 1)
    }
}

/// Law: something is packed only after the members were extracted without a failure.
pub proof fn law_packing_follows_extraction(
    start: ConversionView,
    events: Seq<ConvertEvent>,
    k: int,
) -> (j: int)
    requires
        is_run(start, events),
        0 <= k < events.len(),
        action_at(start, events, k) is Pack,
    ensures
        0 <= j < k,
        action_at(start, events, j) is ExtractAll || action_at(start, events, j)
            is ExtractExcluding,
        events[j + 1] is Done,
{
    assert(state_at(start, events, k).accepts(events[k]));
    lemma_extraction(start, events, k + 1)
}

/// An output was made.
proof fn lemma_output(start: ConversionView, events: Seq<ConvertEvent>, k: int) -> (j: int)
    requires
        is_run(start, events),
        0 <= k <= events.len(),
        state_at(start, events, k).phase is Test,
    ensures
        0 <= j < k,
        j + 1 < k,
        ({
            let a = action_at(start, events, j);
            ||| a is Pack && events[j + 1] is Done
            ||| a is CopyInput && events[j + 1] is Done
            ||| a is Stream && events[j + 1] == ConvertEvent::Streamed(true)
        }),
    decreases k,
{
    let before = state_at(start, events, k - 1);
    lemma_valid(start, events, k - 1);
    assert(before.accepts(events[k - 1]));
    assert(k >= 2);
    lemma_valid(start, events, k - 2);
    assert(state_at(start, events, k - 2).accepts(events[k - 2]));
    k - 2
}

/// Law: a conversion succeeds only after an output was made: packed, copied or streamed, without a
/// failure; and where a test is asked for, only after a test that passed.
pub proof fn law_success_has_an_output(
    start: ConversionView,
    events: Seq<ConvertEvent>,
    k: int,
) -> (j: int)
    requires
        is_run(start, events),
        0 <= k < events.len(),
        action_at(start, events, k) is Succeed,
    ensures
        0 <= j < k,
        ({
            let a = action_at(start, events, j);
            ||| a is Pack && events[j + 1] is Done
            ||| a is CopyInput && events[j + 1] is Done
            ||| a is Stream && events[j + 1] == ConvertEvent::Streamed(true)
        }),
        start.ctx.verify ==> k > 0 && action_at(start, events, k - 1) is Test && events[k] is Done,
{
    let s = state_at(start, events, k);
    lemma_valid(start, events, k);
    assert(s.accepts(events[k]));
    lemma_valid(start, events, k - 1);
    assert(state_at(start, events, k - 1).accepts(events[k - 1]));
    if s.phase is Test {
        lemma_output(start, events, k)
    } else {
        k - 1
    }
}

/// Law: a conversion fails with the error of the step that failed, or because the input is no file;
/// and a step that fails fails it, unless it only tried to stream or to count the members.
pub proof fn law_failures_are_told(s: ConversionView, event: ConvertEvent)
    requires
        s.accepts(event),
    ensures
        s.after(event).1 matches ConvertActionView::Fail(e) ==> {
            ||| event is Failed && e == event->Failed_0@
            ||| event == ConvertEvent::Begin(false) && e == ErrorView::Other(
                "input archive not found: "@ + s.input,
            )
        },
        event is Failed && s.phase !is Stream && s.phase !is Measure ==> s.after(event).1 is Fail,
        event == ConvertEvent::Begin(false) ==> s.after(event).1 is Fail,
        event is Failed && s.phase is Stream ==> s.after(event).1 is CreateTree,
        event is Failed && s.phase is Measure ==> s.after(event).1 is Pack,
{
}

/// Law: what is known of the input decides how it is converted. One that is known not to be solid is
/// copied if that is wanted and no rule could drop a member; any other is streamed if that is
/// preferred, and else extracted.
pub proof fn law_solidity_decides(s: ConversionView, solid: Option<bool>)
    requires
        s.phase is Solidity,
    ensures
        ({
            let a = s.after(ConvertEvent::Solid(solid)).1;
            let copied = solid == Some(false) && s.ctx.passthrough_nonsolid
                && s.ctx.exclude.rules.len() == 0;
            &&& a is CopyInput <==> copied
            &&& a is Stream <==> !copied && s.ctx.prefer_streaming
            &&& a is CreateTree <==> !copied && !s.ctx.prefer_streaming
        }),
{
}

/// Law: what is packed or streamed has the level that was asked for.
pub proof fn law_level_is_kept(s: ConversionView, event: ConvertEvent)
    requires
        s.accepts(event),
    ensures
        s.after(event).1 matches ConvertActionView::Pack(p) ==> p.level == s.ctx.pack.level,
        s.after(event).1 matches ConvertActionView::Stream(p) ==> p.level == s.ctx.pack.level,
{
}

/// Law: once files were removed, the directories that became empty are removed too; and if nothing
/// was removed, they are left.
pub proof fn law_empty_directories_are_pruned(s: ConversionView, any: bool)
    requires
        s.phase is Remove,
    ensures
        s.after(ConvertEvent::Removed(any)).1 is Prune <==> any,
{
}

/// Law: where nobody asked for a number of threads, the listed members decide it; where they cannot
/// be listed it is left to the backend; and nothing is packed before one of the two.
pub proof fn law_listed_members_decide_threads(s: ConversionView, event: ConvertEvent)
    requires
        s.accepts(event),
        s.ctx.pack.threads is None,
        s.after(event).1 is Pack,
    ensures
        ({
            let t = s.after(event).1->Pack_0.threads;
            &&& s.phase is Measure && event is Listed ==> {
                let v = types::entry_views(event->Listed_0@);
                t == auto_threads::pack_threads(
                    None,
                    auto_threads::file_count(v),
                    if auto_threads::byte_count(v) <= u64::MAX {
                        auto_threads::byte_count(v)
                    } else {
                        u64::MAX as nat
                    },
                )
            }
            &&& s.phase is Measure && event is Failed ==> t is None
            &&& s.phase !is Measure ==> s.listed is Some && t == auto_threads::pack_threads(
                None,
                auto_threads::file_count(s.listed->0),
                if auto_threads::byte_count(s.listed->0) <= u64::MAX {
                    auto_threads::byte_count(s.listed->0)
                } else {
                    u64::MAX as nat
                },
            )
        }),
{
}

/// Law: a conversion goes on step by step: the work directory is prepared and the input asked about;
/// a tree is made and the members go into it; and what was made is tested where that is asked for.
/// The members are listed before extraction where the rules need them, or where they decide the
/// number of threads after some are dropped.
pub proof fn law_steps_lead_on(s: ConversionView, event: ConvertEvent)
    requires
        s.accepts(event),
    ensures
        event == ConvertEvent::Begin(true) ==> s.after(event).1 is Prepare,
        s.phase is Prepare && event is Done ==> s.after(event).1 is AskSolid,
        s.phase is CreateTree && event is Done ==> {
            let listing = s.ctx.exclude.rules.len() > 0 && (rules_without_globs(s.ctx)
                || s.ctx.pack.threads is None);
            &&& s.after(event).1 is List <==> listing
            &&& !listing ==> s.after(event).1 is ExtractAll || s.after(event).1 is ExtractExcluding
        },
        s.phase is List && event is Listed ==> s.after(event).1 is ExtractAll || s.after(event).1
            is ExtractExcluding,
        s.phase is List && event is Listed ==> s.after(event).0.listed == Some(
            types::entry_views(event->Listed_0@),
        ),
        (s.phase is Copy || s.phase is Pack) && event is Done ==> (s.after(event).1 is Test
            <==> s.ctx.verify) && (s.after(event).1 is Succeed <==> !s.ctx.verify),
        s.phase is Stream && event == ConvertEvent::Streamed(true) ==> (s.after(event).1 is Test
            <==> s.ctx.verify) && (s.after(event).1 is Succeed <==> !s.ctx.verify),
        s.phase is Stream && event == ConvertEvent::Streamed(false) ==> s.after(event).1
            is CreateTree,
        s.phase is Test && event is Done ==> s.after(event).1 is Succeed,
        s.after(event).0.ctx == s.ctx,
        s.after(event).0.input == s.input,
{
}

/// Law: a conversion begins with its input and its context as they were given, and with nothing done.
pub proof fn law_beginning(input: Seq<char>, ctx: ContextView)
    ensures
        ({
            let s = registry::begun(input, ctx);
            &&& s.input == input
            &&& s.ctx == ctx
            &&& s.listed is None
            &&& s.after(ConvertEvent::Begin(true)).1 is Prepare
        }),
{
}

} // verus!
