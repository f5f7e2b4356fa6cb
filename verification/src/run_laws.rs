//! What holds of every course that a run of a hook can take.
use crate::hook::StashMethod;
use crate::options::RunPlan;
use crate::run::{HookAction, HookEvent, HookPhase, HookRun, RunFailure};
use crate::step::types::RunType;
use vstd::prelude::*;

verus! {

/// A run of a plan after the given events.
pub open spec fn after<E>(plan: RunPlan, events: Seq<HookEvent<E>>) -> HookRun<E>
    decreases events.len(),
{
    if events.len() == 0 {
        HookRun::<E>::initial(plan)
    } else {
        after(plan, events.drop_last()).next(events.last()).0
    }
}

/// What a run of a plan asks for after the given events.
pub open spec fn asked<E>(plan: RunPlan, events: Seq<HookEvent<E>>) -> HookAction<E> {
    if events.len() == 0 {
        HookAction::OpenRepo
    } else {
        after(plan, events.drop_last()).next(events.last()).1
    }
}

/// Whether the events can come in that order: each of them answers what was asked for.
pub open spec fn is_course<E>(plan: RunPlan, events: Seq<HookEvent<E>>) -> bool
    decreases events.len(),
{
    events.len() == 0 || (is_course(plan, events.drop_last()) && after(
        plan,
        events.drop_last(),
    ).expects(events.last()))
}

/// Why a run fails by an event, where it does.
pub open spec fn failure<E>(event: HookEvent<E>) -> Option<RunFailure<E>> {
    match event {
        HookEvent::Done(Err(e)) => Some(RunFailure::Outside(e)),
        HookEvent::Status(Err(e)) => Some(RunFailure::Outside(e)),
        HookEvent::Files(Err(e)) => Some(RunFailure::Outside(e)),
        HookEvent::Modified(true) => Some(RunFailure::FilesModified),
        _ => None,
    }
}

/// The failure that comes first among the events.
pub open spec fn earliest_failure<E>(events: Seq<HookEvent<E>>) -> Option<RunFailure<E>>
    decreases events.len(),
{
    if events.len() == 0 {
        None
    } else if earliest_failure(events.drop_last()) is Some {
        earliest_failure(events.drop_last())
    } else {
        failure(events.last())
    }
}

/// Whether the run asked, at some point up to the given events, to put changes aside.
pub open spec fn put_aside<E>(plan: RunPlan, events: Seq<HookEvent<E>>) -> bool
    decreases events.len(),
{
    asked(plan, events) == HookAction::<E>::StashUnstaged(plan.stash_method) || (events.len() > 0
        && put_aside(plan, events.drop_last()))
}

/// Whether a group has been asked for at some point up to the given events.
pub open spec fn ran_group<E>(plan: RunPlan, events: Seq<HookEvent<E>>) -> bool
    decreases events.len(),
{
    asked(plan, events) is RunGroup || (events.len() > 0 && ran_group(plan, events.drop_last()))
}

/// How far a phase is from the end, at most.
pub open spec fn distance(plan: RunPlan, phase: HookPhase) -> int {
    match phase {
        HookPhase::OpeningRepo => plan.groups + 9,
        HookPhase::ReadingStatus => plan.groups + 8,
        HookPhase::ListingFiles => plan.groups + 7,
        HookPhase::CheckingJobs => plan.groups + 6,
        HookPhase::CapturingIndex => plan.groups + 5,
        HookPhase::Stashing => plan.groups + 4,
        HookPhase::NotingNothingToStash => plan.groups + 4,
        HookPhase::TakingSnapshot => plan.groups + 3,
        HookPhase::RunningGroup(i) => plan.groups - i + 2,
        HookPhase::ComparingSnapshot => 2,
        HookPhase::PoppingStash => 1,
        HookPhase::Finished => 0,
    }
}

/// What holds after the events of a course.
proof fn lemma_course<E>(plan: RunPlan, events: Seq<HookEvent<E>>)
    requires
        is_course(plan, events),
    ensures
        after(plan, events).well_formed(),
        after(plan, events).plan == plan,
        !(after(plan, events).phase is Finished) ==> match after(plan, events).result {
            Ok(_) => earliest_failure(events) is None,
            Err(f) => earliest_failure(events) == Some(f),
        },
        events.len() + distance(plan, after(plan, events).phase) <= plan.groups + 9,
        match after(plan, events).phase {
            HookPhase::Stashing => put_aside(plan, events),
            HookPhase::TakingSnapshot
            | HookPhase::RunningGroup(_)
            | HookPhase::ComparingSnapshot
            | HookPhase::PoppingStash => (plan.stash_method != StashMethod::NoStash && after(
                plan,
                events,
            ).dirty) ==> put_aside(plan, events),
            HookPhase::NotingNothingToStash => !after(plan, events).dirty,
            _ => true,
        },
        match after(plan, events).phase {
            HookPhase::RunningGroup(i) => asked(plan, events) == HookAction::<E>::RunGroup(i),
            HookPhase::PoppingStash => asked(plan, events) is PopStash,
            HookPhase::Finished => true,
            HookPhase::ComparingSnapshot => true,
            _ => !ran_group(plan, events),
        },
    decreases events.len(),
{
    if events.len() > 0 {
        lemma_course(plan, events.drop_last());
    }
}

/// The groups of a hook run in their order: a group other than the first is run directly after the
/// one before it.
pub proof fn groups_run_in_order<E>(plan: RunPlan, events: Seq<HookEvent<E>>, i: usize)
    requires
        is_course(plan, events),
        asked(plan, events) == HookAction::<E>::RunGroup(i),
    ensures
        i < plan.groups,
        i > 0 ==> events.len() > 0 && asked(plan, events.drop_last()) == HookAction::<
            E,
        >::RunGroup((i - 1) as usize),
        i == 0 ==> !(events.len() > 0 && ran_group(plan, events.drop_last())),
{
    lemma_course(plan, events);
    lemma_course(plan, events.drop_last());
}

/// A run that stops at the first failure runs no group after a failure.
pub proof fn no_group_runs_after_a_failure<E>(plan: RunPlan, events: Seq<HookEvent<E>>)
    requires
        is_course(plan, events),
        plan.fail_fast,
        asked(plan, events) is RunGroup,
    ensures
        earliest_failure(events) is None,
{
    lemma_course(plan, events);
    lemma_course(plan, events.drop_last());
}

/// A run that does not stop at a failure runs every group: where it has run a group and is
/// complete, the last group was run.
pub proof fn every_group_runs<E>(plan: RunPlan, events: Seq<HookEvent<E>>)
    requires
        is_course(plan, events),
        !plan.fail_fast,
        asked(plan, events) is PopStash || asked(plan, events) is CompareSnapshot,
        !(asked(plan, events.drop_last()) is CompareSnapshot),
    ensures
        asked(plan, events.drop_last()) == HookAction::<E>::RunGroup((plan.groups - 1) as usize),
{
    lemma_course(plan, events);
    lemma_course(plan, events.drop_last());
    lemma_compare(plan, events.drop_last());
}

/// The files are compared with the snapshot exactly where that was asked for.
proof fn lemma_compare<E>(plan: RunPlan, events: Seq<HookEvent<E>>)
    requires
        is_course(plan, events),
    ensures
        after(plan, events).phase is ComparingSnapshot ==> asked(plan, events) is CompareSnapshot,
{
    if events.len() > 0 {
        lemma_course(plan, events.drop_last());
    }
}

/// A complete run succeeds exactly where nothing failed, and else its result is the failure that
/// came first.
pub proof fn first_failure_is_the_result<E>(plan: RunPlan, events: Seq<HookEvent<E>>)
    requires
        is_course(plan, events),
        asked(plan, events) is Complete,
    ensures
        match asked(plan, events)->Complete_0 {
            Ok(_) => earliest_failure(events) is None,
            Err(f) => earliest_failure(events) == Some(f),
        },
{
    lemma_course(plan, events);
    lemma_course(plan, events.drop_last());
}

/// Where a run has to fail when files are modified, it does: a complete run in which the files
/// were found modified is no success.
pub proof fn modified_files_fail_the_run<E>(plan: RunPlan, events: Seq<HookEvent<E>>, i: int)
    requires
        is_course(plan, events),
        asked(plan, events) is Complete,
        0 <= i < events.len(),
        events[i] == HookEvent::<E>::Modified(true),
    ensures
        asked(plan, events)->Complete_0 is Err,
{
    first_failure_is_the_result(plan, events);
    lemma_failure_found(events, i);
}

proof fn lemma_failure_found<E>(events: Seq<HookEvent<E>>, i: int)
    requires
        0 <= i < events.len(),
        failure(events[i]) is Some,
    ensures
        earliest_failure(events) is Some,
    decreases events.len(),
{
    if i < events.len() - 1 {
        lemma_failure_found(events.drop_last(), i);
    }
}

/// No group runs before the changes that are not staged are put aside, where they have to be.
pub proof fn changes_are_put_aside_first<E>(plan: RunPlan, events: Seq<HookEvent<E>>)
    requires
        is_course(plan, events),
        asked(plan, events) is RunGroup,
        plan.stash_method != StashMethod::NoStash,
        after(plan, events).dirty,
    ensures
        put_aside(plan, events),
{
    lemma_course(plan, events);
    lemma_course(plan, events.drop_last());
}

/// Every run that has run a group brings back what was put aside before it returns: it ends in no
/// other way than complete, and the last thing that it did before was to bring the changes back.
pub proof fn changes_are_brought_back<E>(plan: RunPlan, events: Seq<HookEvent<E>>)
    requires
        is_course(plan, events),
        ran_group(plan, events),
        after(plan, events).phase is Finished,
    ensures
        asked(plan, events) is Complete,
        events.len() > 0,
        asked(plan, events.drop_last()) is PopStash,
{
    lemma_course(plan, events);
    lemma_course(plan, events.drop_last());
}

/// A run comes to its end: it takes no more events than there are groups and nine more.
pub proof fn run_ends<E>(plan: RunPlan, events: Seq<HookEvent<E>>)
    requires
        is_course(plan, events),
    ensures
        events.len() <= plan.groups + 9,
{
    lemma_course(plan, events);
}

/// No event that a run waits for is refused.
pub proof fn expected_events_are_taken<E>(run: HookRun<E>, event: HookEvent<E>)
    requires
        run.expects(event),
    ensures
        !(run.next(event).1 is Refuse),
{
}

/// What a run waits for after the events of a course is what it asked for last.
proof fn lemma_phase<E>(plan: RunPlan, events: Seq<HookEvent<E>>)
    requires
        is_course(plan, events),
    ensures
        after(plan, events).phase is OpeningRepo <==> asked(plan, events) is OpenRepo,
        after(plan, events).phase is ReadingStatus <==> asked(plan, events) is ReadStatus,
        after(plan, events).phase is ListingFiles <==> asked(plan, events) is ListFiles,
        after(plan, events).phase is CheckingJobs <==> asked(plan, events) is CheckJobs,
        after(plan, events).phase is CapturingIndex <==> asked(plan, events) is CaptureIndex,
        after(plan, events).phase is Stashing <==> asked(plan, events) is StashUnstaged,
        after(plan, events).phase is NotingNothingToStash <==> asked(
            plan,
            events,
        ) is NoteNothingToStash,
        after(plan, events).phase is TakingSnapshot <==> asked(plan, events) is TakeSnapshot,
        after(plan, events).phase matches HookPhase::RunningGroup(i) ==> asked(plan, events)
            == HookAction::<E>::RunGroup(i),
        asked(plan, events) matches HookAction::RunGroup(i) ==> after(plan, events).phase
            == HookPhase::RunningGroup(i),
        after(plan, events).phase is ComparingSnapshot <==> asked(plan, events) is CompareSnapshot,
        after(plan, events).phase is PoppingStash <==> asked(plan, events) is PopStash,
{
    if events.len() > 0 {
        lemma_course(plan, events.drop_last());
    }
}

/// The status is the second thing that a run asks for, and it settles whether there is something
/// to put aside.
proof fn lemma_status<E>(plan: RunPlan, events: Seq<HookEvent<E>>)
    requires
        is_course(plan, events),
    ensures
        forall|i: int| 0 <= i < events.len() && #[trigger] events[i] is Status ==> i == 1,
        events.len() == 0 ==> after(plan, events).phase is OpeningRepo,
        events.len() == 1 ==> after(plan, events).phase is ReadingStatus || after(
            plan,
            events,
        ).phase is Finished,
        events.len() < 2 ==> !after(plan, events).dirty,
        events.len() >= 2 ==> {
            &&& !(after(plan, events).phase is OpeningRepo)
            &&& !(after(plan, events).phase is ReadingStatus)
            &&& events[1] matches HookEvent::Status(Ok((unstaged, untracked))) ==> after(
                plan,
                events,
            ).dirty == (unstaged || (plan.stash_untracked && untracked))
            &&& events[1] matches HookEvent::Status(Err(_)) ==> after(plan, events).phase is Finished
            &&& events[1] is Status
        },
    decreases events.len(),
{
    if events.len() > 0 {
        let before = events.drop_last();
        lemma_course(plan, before);
        lemma_status(plan, before);
        assert forall|i: int| 0 <= i < events.len() && #[trigger] events[i] is Status implies i
            == 1 by {
            if i < before.len() {
                assert(before[i] == events[i]);
            }
        }
        if events.len() > 2 {
            assert(before[1] == events[1]);
        }
    }
}

/// Where the status told of changes that are not staged, or of untracked files in a run that puts
/// those aside too, no group runs before the changes were put aside.
pub proof fn reported_changes_are_put_aside_before_any_group<E>(
    plan: RunPlan,
    events: Seq<HookEvent<E>>,
    i: int,
    unstaged: bool,
    untracked: bool,
)
    requires
        is_course(plan, events),
        plan.stash_method != StashMethod::NoStash,
        0 <= i < events.len(),
        events[i] == HookEvent::<E>::Status(Ok((unstaged, untracked))),
        unstaged || (plan.stash_untracked && untracked),
        asked(plan, events) is RunGroup,
    ensures
        put_aside(plan, events),
{
    lemma_course(plan, events);
    lemma_phase(plan, events);
    lemma_status(plan, events);
}

/// Nothing is put aside where the status told neither of changes that are not staged nor, in a run
/// that puts those aside too, of untracked files; nor in a run that puts nothing aside.
pub proof fn nothing_is_put_aside_without_changes<E>(
    plan: RunPlan,
    events: Seq<HookEvent<E>>,
    i: int,
    unstaged: bool,
    untracked: bool,
)
    requires
        is_course(plan, events),
        0 <= i < events.len(),
        events[i] == HookEvent::<E>::Status(Ok((unstaged, untracked))),
        plan.stash_method == StashMethod::NoStash || !(unstaged || (plan.stash_untracked
            && untracked)),
    ensures
        !(asked(plan, events) is StashUnstaged),
        !put_aside(plan, events),
{
    lemma_status(plan, events);
    lemma_never_stashed(plan, events);
}

proof fn lemma_never_stashed<E>(plan: RunPlan, events: Seq<HookEvent<E>>)
    requires
        is_course(plan, events),
        events.len() >= 2,
        events[1] matches HookEvent::Status(Ok((unstaged, untracked))) && (plan.stash_method
            == StashMethod::NoStash || !(unstaged || (plan.stash_untracked && untracked))),
    ensures
        !(asked(plan, events) is StashUnstaged),
        !(asked(plan, events) is CaptureIndex),
        !put_aside(plan, events),
    decreases events.len(),
{
    let before = events.drop_last();
    lemma_course(plan, before);
    lemma_status(plan, before);
    lemma_phase(plan, before);
    lemma_phase(plan, events);
    if events.len() > 2 {
        assert(before[1] == events[1]);
        lemma_never_stashed(plan, before);
    } else {
        assert(before.drop_last().len() == 0);
        assert(!(asked(plan, before) is StashUnstaged));
        assert(!put_aside(plan, before.drop_last()));
        assert(!put_aside(plan, before));
    }
}

/// Changes are put aside by the method of the plan, and directly after what is staged was recorded.
pub proof fn index_is_captured_before_stashing<E>(plan: RunPlan, events: Seq<HookEvent<E>>)
    requires
        is_course(plan, events),
        asked(plan, events) is StashUnstaged,
    ensures
        asked(plan, events) == HookAction::<E>::StashUnstaged(plan.stash_method),
        plan.stash_method != StashMethod::NoStash,
        events.len() > 0,
        asked(plan, events.drop_last()) is CaptureIndex,
        events.last() matches HookEvent::Done(Ok(_)),
{
    let before = events.drop_last();
    lemma_course(plan, before);
    lemma_phase(plan, before);
    lemma_capturing(plan, before);
}

proof fn lemma_capturing<E>(plan: RunPlan, events: Seq<HookEvent<E>>)
    requires
        is_course(plan, events),
    ensures
        after(plan, events).phase is CapturingIndex || after(plan, events).phase is Stashing
            ==> plan.stash_method != StashMethod::NoStash && after(plan, events).dirty,
        after(plan, events).phase is NotingNothingToStash ==> plan.stash_method
            != StashMethod::NoStash && !after(plan, events).dirty,
    decreases events.len(),
{
    if events.len() > 0 {
        lemma_course(plan, events.drop_last());
        lemma_capturing(plan, events.drop_last());
    }
}

/// That there is nothing to put aside is shown only where the plan would put changes aside and the
/// status told of none.
pub proof fn nothing_to_stash_is_noted_without_changes<E>(
    plan: RunPlan,
    events: Seq<HookEvent<E>>,
    i: int,
    unstaged: bool,
    untracked: bool,
)
    requires
        is_course(plan, events),
        0 <= i < events.len(),
        events[i] == HookEvent::<E>::Status(Ok((unstaged, untracked))),
        asked(plan, events) is NoteNothingToStash,
    ensures
        plan.stash_method != StashMethod::NoStash,
        !unstaged,
        !(plan.stash_untracked && untracked),
{
    lemma_phase(plan, events);
    lemma_status(plan, events);
    lemma_capturing(plan, events);
}

/// Once the files are known, a run that puts changes aside records what is staged where the status
/// told of changes that are not, or of untracked files that it puts aside too; else it shows that
/// there is nothing to put aside.
pub proof fn stashing_follows_the_files<E>(
    plan: RunPlan,
    events: Seq<HookEvent<E>>,
    i: int,
    unstaged: bool,
    untracked: bool,
)
    requires
        is_course(plan, events),
        plan.stash_method != StashMethod::NoStash,
        0 <= i < events.len(),
        events[i] == HookEvent::<E>::Status(Ok((unstaged, untracked))),
        events.last() == HookEvent::<E>::Idle(false) || (events.last() matches HookEvent::Files(
            Ok(n),
        ) && n > 0),
    ensures
        unstaged || (plan.stash_untracked && untracked) ==> asked(plan, events) is CaptureIndex,
        !unstaged && !(plan.stash_untracked && untracked) ==> asked(
            plan,
            events,
        ) is NoteNothingToStash,
{
    let before = events.drop_last();
    lemma_course(plan, before);
    lemma_status(plan, before);
    lemma_status(plan, events);
    assert(before[1] == events[1]);
}

/// A run opens the repository, reads its status and lists the files, in that order, before anything
/// else.
pub proof fn repository_is_read_first<E>(plan: RunPlan, events: Seq<HookEvent<E>>)
    requires
        is_course(plan, events),
    ensures
        events.len() == 0 <==> asked(plan, events) is OpenRepo,
        asked(plan, events) is ReadStatus <==> events.len() == 1 && (
        events[0] matches HookEvent::Done(Ok(_))),
        asked(plan, events) is ListFiles <==> events.len() == 2 && (
        events[1] matches HookEvent::Status(Ok(_))),
{
    lemma_phase(plan, events);
    lemma_status(plan, events);
    if events.len() > 0 {
        let before = events.drop_last();
        lemma_course(plan, before);
        lemma_phase(plan, before);
        lemma_status(plan, before);
        lemma_listing(plan, events);
    }
}

proof fn lemma_listing<E>(plan: RunPlan, events: Seq<HookEvent<E>>)
    requires
        is_course(plan, events),
    ensures
        after(plan, events).phase is ListingFiles ==> events.len() == 2,
        events.len() == 2 && (events[1] matches HookEvent::Status(Ok(_))) ==> after(
            plan,
            events,
        ).phase is ListingFiles,
        events.len() == 1 && (events[0] matches HookEvent::Done(Ok(_))) ==> after(
            plan,
            events,
        ).phase is ReadingStatus,
        events.len() == 1 && (events[0] matches HookEvent::Done(Err(_))) ==> after(
            plan,
            events,
        ).phase is Finished,
{
    if events.len() > 0 {
        let before = events.drop_last();
        lemma_status(plan, before);
        lemma_course(plan, before);
        if events.len() == 2 {
            assert(before[0] == events[0]);
            lemma_status(plan, before.drop_last());
        }
    }
}

/// An error before the first group returns at once, as it is, and nothing else does that.
pub proof fn early_error_aborts_the_run<E>(plan: RunPlan, events: Seq<HookEvent<E>>, error: E)
    requires
        is_course(plan, events),
        events.len() > 0,
    ensures
        asked(plan, events) == HookAction::<E>::Abort(error) <==> {
            let before = asked(plan, events.drop_last());
            ||| (before is OpenRepo || before is CaptureIndex || before is StashUnstaged)
                && events.last() == HookEvent::<E>::Done(Err(error))
            ||| before is ReadStatus && events.last() == HookEvent::<E>::Status(Err(error))
            ||| before is ListFiles && events.last() == HookEvent::<E>::Files(Err(error))
        },
{
    lemma_phase(plan, events.drop_last());
    lemma_course(plan, events.drop_last());
}

/// Whether the steps have something to run is asked exactly where no files were found, and the run
/// stops exactly where they have not.
pub proof fn run_stops_without_files_and_jobs<E>(plan: RunPlan, events: Seq<HookEvent<E>>)
    requires
        is_course(plan, events),
        events.len() > 0,
    ensures
        asked(plan, events) is CheckJobs <==> events.last() == HookEvent::<E>::Files(Ok(0)),
        asked(plan, events) is StopWithoutFiles <==> events.last() == HookEvent::<E>::Idle(true),
{
    lemma_phase(plan, events.drop_last());
    lemma_course(plan, events.drop_last());
}

/// A run stops for want of steps exactly where it would come to its groups and there are none.
pub proof fn run_stops_without_groups<E>(plan: RunPlan, events: Seq<HookEvent<E>>)
    requires
        is_course(plan, events),
    ensures
        asked(plan, events) is StopWithoutSteps ==> plan.groups == 0,
        asked(plan, events) is RunGroup || asked(plan, events) is TakeSnapshot ==> plan.groups > 0,
{
    lemma_phase(plan, events);
    lemma_course(plan, events);
    if events.len() > 0 {
        lemma_phase(plan, events.drop_last());
        lemma_course(plan, events.drop_last());
    }
}

/// Once the files are known and what has to be put aside is, the run goes on to its groups: it
/// records the files where it has to know which of them the groups modify, and else runs the first
/// group.
pub proof fn groups_follow_the_stash<E>(plan: RunPlan, events: Seq<HookEvent<E>>)
    requires
        is_course(plan, events),
        events.len() > 0,
        asked(plan, events.drop_last()) is StashUnstaged && (
        events.last() matches HookEvent::Done(Ok(_))) || asked(
            plan,
            events.drop_last(),
        ) is NoteNothingToStash || (plan.stash_method == StashMethod::NoStash && (
        events.last() == HookEvent::<E>::Idle(false) || (events.last() matches HookEvent::Files(
            Ok(n),
        ) && n > 0))),
    ensures
        plan.groups == 0 ==> asked(plan, events) is StopWithoutSteps,
        plan.groups > 0 && plan.fail_on_fix && plan.run_type == RunType::Fix ==> asked(
            plan,
            events,
        ) is TakeSnapshot,
        plan.groups > 0 && !(plan.fail_on_fix && plan.run_type == RunType::Fix) ==> asked(
            plan,
            events,
        ) == HookAction::<E>::RunGroup(0),
{
    lemma_phase(plan, events.drop_last());
    lemma_course(plan, events.drop_last());
}

/// The files are recorded, and later compared, exactly where a run that fixes has to fail for files
/// that were modified; the first group follows directly.
pub proof fn snapshot_is_taken_to_watch_for_fixes<E>(plan: RunPlan, events: Seq<HookEvent<E>>)
    requires
        is_course(plan, events),
    ensures
        asked(plan, events) is TakeSnapshot || asked(plan, events) is CompareSnapshot
            ==> plan.fail_on_fix && plan.run_type == RunType::Fix,
        events.len() > 0 && asked(plan, events.drop_last()) is TakeSnapshot ==> asked(plan, events)
            == HookAction::<E>::RunGroup(0),
{
    lemma_phase(plan, events);
    lemma_course(plan, events);
    if events.len() > 0 {
        lemma_phase(plan, events.drop_last());
        lemma_course(plan, events.drop_last());
    }
}

/// After a group the next one runs, unless the run has failed and stops at that. After the last
/// group, or the one that the run stops at, what was put aside is brought back; but where all
/// groups succeeded in a run that fixes and has to fail for modified files, the files are compared
/// first.
pub proof fn group_is_followed_by_the_next<E>(plan: RunPlan, events: Seq<HookEvent<E>>, i: usize)
    requires
        is_course(plan, events),
        events.len() > 0,
        asked(plan, events.drop_last()) == HookAction::<E>::RunGroup(i),
    ensures
        i + 1 < plan.groups && (!plan.fail_fast || earliest_failure(events) is None) ==> asked(
            plan,
            events,
        ) == HookAction::<E>::RunGroup((i + 1) as usize),
        earliest_failure(events) is Some && (plan.fail_fast || i + 1 == plan.groups) ==> asked(
            plan,
            events,
        ) == (HookAction::<E>::PopStash { succeeded: false }),
        earliest_failure(events) is None && i + 1 == plan.groups ==> {
            &&& plan.fail_on_fix && plan.run_type == RunType::Fix ==> asked(
                plan,
                events,
            ) is CompareSnapshot
            &&& !(plan.fail_on_fix && plan.run_type == RunType::Fix) ==> asked(plan, events) == (
            HookAction::<E>::PopStash { succeeded: true })
        },
{
    lemma_phase(plan, events.drop_last());
    lemma_course(plan, events.drop_last());
}

/// The run is shown as a success exactly where nothing has failed so far, and that is when what was
/// put aside is brought back.
pub proof fn success_is_shown_where_nothing_failed<E>(
    plan: RunPlan,
    events: Seq<HookEvent<E>>,
    succeeded: bool,
)
    requires
        is_course(plan, events),
        asked(plan, events) == (HookAction::<E>::PopStash { succeeded }),
    ensures
        succeeded <==> earliest_failure(events) is None,
{
    lemma_phase(plan, events);
    lemma_course(plan, events);
    if events.len() > 0 {
        lemma_course(plan, events.drop_last());
        lemma_phase(plan, events.drop_last());
    }
}

/// Once the files were compared, or what was put aside is back, the run ends: with a failure where
/// files were modified.
pub proof fn comparison_leads_to_the_end<E>(plan: RunPlan, events: Seq<HookEvent<E>>, modified: bool)
    requires
        is_course(plan, events),
        events.len() > 0,
    ensures
        events.last() == HookEvent::<E>::Modified(modified) ==> asked(plan, events) == (
        HookAction::<E>::PopStash { succeeded: !modified }),
        asked(plan, events.drop_last()) is PopStash ==> asked(plan, events) is Complete,
        asked(plan, events) is Complete ==> asked(plan, events.drop_last()) is PopStash,
{
    lemma_phase(plan, events.drop_last());
    lemma_course(plan, events.drop_last());
}

/// What is said of a run that fails for modified files names the setting that asked for it; of an
/// outside failure nothing is said besides the error.
pub proof fn modified_files_are_complained_of<E>(error: E)
    ensures
        RunFailure::<E>::FilesModified.message_text() == Some(
            "fail_on_fix: files were modified by fix commands"@,
        ),
        RunFailure::Outside(error).message_text() is None,
{
}

} // verus!
