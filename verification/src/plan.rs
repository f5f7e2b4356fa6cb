//! The course of planning a hook: what its groups would do.
use crate::hook::{Hook, StashMethod};
use crate::options::{Environment, HookOptions};
use vstd::prelude::*;

verus! {

/// What planning waits for.
#[derive(Clone, Copy, Debug, PartialEq, Eq, Structural)]
pub enum PlanPhase {
    OpeningRepo,
    ReadingStatus,
    ListingFiles,
    CheckingJobs,
    AnnouncingStash,
    PlanningGroup(usize),
    Finished,
}

/// What came of what planning asked for.
#[derive(Debug, PartialEq, Eq)]
pub enum PlanEvent<E> {
    /// What was asked for was done, or failed.
    Done(Result<(), E>),
    /// The files were listed: how many there are.
    Files(Result<usize, E>),
    /// The jobs were built: whether no step has something to run.
    Idle(bool),
    /// What cannot fail was done.
    Ack,
}

/// What to do next in planning.
#[derive(Debug, PartialEq, Eq)]
pub enum PlanAction<E> {
    OpenRepo,
    ReadStatus,
    ListFiles,
    /// Build the jobs of all steps, none of which is switched off.
    CheckJobs,
    /// Say that changes that are not staged would be put aside.
    AnnounceStash,
    /// Plan the group at that position.
    PlanGroup(usize),
    /// Return: there are no files to work on.
    StopWithoutFiles,
    /// Return.
    Finish(Result<(), E>),
    /// Nothing: the event cannot come now.
    Refuse,
}

/// The planning of a hook.
#[derive(Clone, Copy, Debug, PartialEq, Eq, Structural)]
pub struct PlanRun {
    pub stash_method: StashMethod,
    /// How many groups there are.
    pub groups: usize,
    pub phase: PlanPhase,
}

impl PlanRun {
    pub open spec fn in_phase(self, phase: PlanPhase) -> PlanRun {
        PlanRun { phase, ..self }
    }

    /// Whether the event can come now.
    pub open spec fn expects<E>(self, event: PlanEvent<E>) -> bool {
        match self.phase {
            PlanPhase::OpeningRepo => event is Done,
            PlanPhase::ReadingStatus => event is Done,
            PlanPhase::ListingFiles => event is Files,
            PlanPhase::CheckingJobs => event is Idle,
            PlanPhase::AnnouncingStash => event is Ack,
            PlanPhase::PlanningGroup(_) => event is Done,
            PlanPhase::Finished => false,
        }
    }

    /// Whether the group that is planned is one of those that there are.
    pub open spec fn well_formed(self) -> bool {
        self.phase matches PlanPhase::PlanningGroup(i) ==> i < self.groups
    }

    /// From a group on, as far as there are groups.
    pub open spec fn to_group<E>(self, i: int) -> (PlanRun, PlanAction<E>) {
        if i < self.groups {
            (self.in_phase(PlanPhase::PlanningGroup(i as usize)), PlanAction::PlanGroup(i as usize))
        } else {
            (self.in_phase(PlanPhase::Finished), PlanAction::Finish(Ok(())))
        }
    }

    /// After the files are known: it is said whether changes would be put aside.
    pub open spec fn to_stash<E>(self) -> (PlanRun, PlanAction<E>) {
        if self.stash_method == StashMethod::NoStash {
            self.to_group(0)
        } else {
            (self.in_phase(PlanPhase::AnnouncingStash), PlanAction::AnnounceStash)
        }
    }

    /// The planning after an event, and what to do next.
    pub open spec fn next<E>(self, event: PlanEvent<E>) -> (PlanRun, PlanAction<E>) {
        if !self.expects(event) {
            (self, PlanAction::Refuse)
        } else {
            match (self.phase, event) {
                (_, PlanEvent::Done(Err(e))) => (
                    self.in_phase(PlanPhase::Finished),
                    PlanAction::Finish(Err(e)),
                ),
                (_, PlanEvent::Files(Err(e))) => (
                    self.in_phase(PlanPhase::Finished),
                    PlanAction::Finish(Err(e)),
                ),
                (PlanPhase::OpeningRepo, _) => (
                    self.in_phase(PlanPhase::ReadingStatus),
                    PlanAction::ReadStatus,
                ),
                (PlanPhase::ReadingStatus, _) => (
                    self.in_phase(PlanPhase::ListingFiles),
                    PlanAction::ListFiles,
                ),
                (_, PlanEvent::Files(Ok(n))) => if n == 0 {
                    (self.in_phase(PlanPhase::CheckingJobs), PlanAction::CheckJobs)
                } else {
                    self.to_stash()
                },
                (_, PlanEvent::Idle(idle)) => if idle {
                    (self.in_phase(PlanPhase::Finished), PlanAction::StopWithoutFiles)
                } else {
                    self.to_stash()
                },
                (_, PlanEvent::Ack) => self.to_group(0),
                (PlanPhase::PlanningGroup(i), _) => self.to_group(i + 1),
                _ => (self, PlanAction::Refuse),
            }
        }
    }

    fn enter<E>(self, phase: PlanPhase, action: PlanAction<E>) -> (r: (PlanRun, PlanAction<E>))
        ensures
            r == (self.in_phase(phase), action),
    {
        (PlanRun { stash_method: self.stash_method, groups: self.groups, phase }, action)
    }

    fn enter_group<E>(self, i: usize) -> (r: (PlanRun, PlanAction<E>))
        ensures
            r == self.to_group::<E>(i as int),
    {
        if i < self.groups {
            self.enter(PlanPhase::PlanningGroup(i), PlanAction::PlanGroup(i))
        } else {
            self.enter(PlanPhase::Finished, PlanAction::Finish(Ok(())))
        }
    }

    fn enter_stash<E>(self) -> (r: (PlanRun, PlanAction<E>))
        ensures
            r == self.to_stash::<E>(),
    {
        if self.stash_method == StashMethod::NoStash {
            self.enter_group(0)
        } else {
            self.enter(PlanPhase::AnnouncingStash, PlanAction::AnnounceStash)
        }
    }

    /// Takes the planning on by an event, and says what to do next.
    pub fn step<E>(self, event: PlanEvent<E>) -> (r: (PlanRun, PlanAction<E>))
        requires
            self.well_formed(),
        ensures
            r == self.next(event),
            r.0.well_formed(),
    {
        match (self.phase, event) {
            (PlanPhase::OpeningRepo, PlanEvent::Done(Ok(_))) => self.enter(
                PlanPhase::ReadingStatus,
                PlanAction::ReadStatus,
            ),
            (PlanPhase::ReadingStatus, PlanEvent::Done(Ok(_))) => self.enter(
                PlanPhase::ListingFiles,
                PlanAction::ListFiles,
            ),
            (PlanPhase::ListingFiles, PlanEvent::Files(Ok(n))) => {
                if n == 0 {
                    self.enter(PlanPhase::CheckingJobs, PlanAction::CheckJobs)
                } else {
                    self.enter_stash()
                }
            },
            (PlanPhase::CheckingJobs, PlanEvent::Idle(idle)) => {
                if idle {
                    self.enter(PlanPhase::Finished, PlanAction::StopWithoutFiles)
                } else {
                    self.enter_stash()
                }
            },
            (PlanPhase::AnnouncingStash, PlanEvent::Ack) => self.enter_group(0),
            (PlanPhase::PlanningGroup(i), PlanEvent::Done(Ok(_))) => self.enter_group(i + 1),
            (PlanPhase::OpeningRepo, PlanEvent::Done(Err(e))) => self.enter(
                PlanPhase::Finished,
                PlanAction::Finish(Err(e)),
            ),
            (PlanPhase::ReadingStatus, PlanEvent::Done(Err(e))) => self.enter(
                PlanPhase::Finished,
                PlanAction::Finish(Err(e)),
            ),
            (PlanPhase::ListingFiles, PlanEvent::Files(Err(e))) => self.enter(
                PlanPhase::Finished,
                PlanAction::Finish(Err(e)),
            ),
            (PlanPhase::PlanningGroup(_), PlanEvent::Done(Err(e))) => self.enter(
                PlanPhase::Finished,
                PlanAction::Finish(Err(e)),
            ),
            _ => (self, PlanAction::Refuse),
        }
    }
}

impl Hook {
    /// Starts to plan the hook.
    pub fn plan<E>(&self, opts: &HookOptions, env: &Environment, groups: usize) -> (r: (
        PlanRun,
        PlanAction<E>,
    ))
        ensures
            r.0 == (PlanRun {
                stash_method: self.chosen_stash(opts.stash, env.stash),
                groups,
                phase: PlanPhase::OpeningRepo,
            }),
            r.1 == PlanAction::<E>::OpenRepo,
    {
        let stash_method = self.stash_method(opts.stash, env.stash);
        (PlanRun { stash_method, groups, phase: PlanPhase::OpeningRepo }, PlanAction::OpenRepo)
    }
}

/// The planning that was started as `start`, after the given events.
pub open spec fn planned<E>(start: PlanRun, events: Seq<PlanEvent<E>>) -> PlanRun
    decreases events.len(),
{
    if events.len() == 0 {
        start
    } else {
        planned(start, events.drop_last()).next(events.last()).0
    }
}

/// What the planning asks for after the given events.
pub open spec fn asked<E>(start: PlanRun, events: Seq<PlanEvent<E>>) -> PlanAction<E> {
    if events.len() == 0 {
        PlanAction::OpenRepo
    } else {
        planned(start, events.drop_last()).next(events.last()).1
    }
}

/// Whether the events can come in that order.
pub open spec fn is_course<E>(start: PlanRun, events: Seq<PlanEvent<E>>) -> bool
    decreases events.len(),
{
    if events.len() == 0 {
        start.phase == PlanPhase::OpeningRepo
    } else {
        is_course(start, events.drop_last()) && planned(start, events.drop_last()).expects(
            events.last(),
        )
    }
}

proof fn lemma_course<E>(start: PlanRun, events: Seq<PlanEvent<E>>)
    requires
        is_course(start, events),
    ensures
        planned(start, events).well_formed(),
        planned(start, events) == start.in_phase(planned(start, events).phase),
        match planned(start, events).phase {
            PlanPhase::PlanningGroup(i) => asked(start, events) == PlanAction::<E>::PlanGroup(i)
                && i + 3 <= events.len() <= i + 5,
            PlanPhase::OpeningRepo => events.len() == 0,
            PlanPhase::ReadingStatus => events.len() == 1,
            PlanPhase::ListingFiles => events.len() == 2,
            PlanPhase::CheckingJobs => events.len() == 3,
            PlanPhase::AnnouncingStash => 3 <= events.len() <= 4,
            PlanPhase::Finished => events.len() <= start.groups + 5,
        },
    decreases events.len(),
{
    if events.len() > 0 {
        lemma_course(start, events.drop_last());
    }
}

/// The groups are planned in their order: a group other than the first is planned directly after
/// the one before it was.
pub proof fn groups_are_planned_in_order<E>(start: PlanRun, events: Seq<PlanEvent<E>>, i: usize)
    requires
        is_course(start, events),
        asked(start, events) == PlanAction::<E>::PlanGroup(i),
    ensures
        i < start.groups,
        i > 0 ==> asked(start, events.drop_last()) == PlanAction::<E>::PlanGroup((i - 1) as usize),
        i > 0 ==> events.last() matches PlanEvent::Done(Ok(_)),
{
    lemma_course(start, events);
    lemma_course(start, events.drop_last());
}

/// Planning that returns in success, with files to work on, has planned every group.
pub proof fn every_group_is_planned<E>(start: PlanRun, events: Seq<PlanEvent<E>>)
    requires
        is_course(start, events),
        asked(start, events) == PlanAction::<E>::Finish(Ok(())),
        start.groups > 0,
    ensures
        asked(start, events.drop_last()) == PlanAction::<E>::PlanGroup(
            (start.groups - 1) as usize,
        ),
{
    lemma_course(start, events);
    lemma_course(start, events.drop_last());
}

/// Planning comes to its end: it takes no more events than there are groups and five more.
pub proof fn planning_ends<E>(start: PlanRun, events: Seq<PlanEvent<E>>)
    requires
        is_course(start, events),
    ensures
        events.len() <= start.groups + 5,
{
    lemma_course(start, events);
}

/// Planning opens the repository, reads its status and lists the files, in that order, before
/// anything else.
pub proof fn planning_reads_the_repository_first<E>(start: PlanRun, events: Seq<PlanEvent<E>>)
    requires
        is_course(start, events),
    ensures
        asked(start, events) is OpenRepo <==> events.len() == 0,
        asked(start, events) is ReadStatus <==> events.len() == 1 && (
        events[0] matches PlanEvent::Done(Ok(_))),
        asked(start, events) is ListFiles <==> events.len() == 2 && (
        events[1] matches PlanEvent::Done(Ok(_))),
{
    lemma_course(start, events);
    if events.len() > 0 {
        lemma_course(start, events.drop_last());
        lemma_early(start, events);
    }
}

proof fn lemma_early<E>(start: PlanRun, events: Seq<PlanEvent<E>>)
    requires
        is_course(start, events),
    ensures
        events.len() == 1 ==> (planned(start, events).phase is ReadingStatus <==> (
        events[0] matches PlanEvent::Done(Ok(_)))),
        events.len() == 2 ==> (planned(start, events).phase is ListingFiles <==> (
        events[1] matches PlanEvent::Done(Ok(_)))),
{
    if events.len() > 0 {
        reveal_with_fuel(is_course, 3);
        let before = events.drop_last();
        lemma_course(start, before);
        if events.len() == 2 {
            lemma_course(start, before.drop_last());
        }
    }
}

/// Whether the steps would have something to run is asked exactly where no files were found, and
/// planning stops exactly where they would not.
pub proof fn planning_stops_without_files_and_jobs<E>(start: PlanRun, events: Seq<PlanEvent<E>>)
    requires
        is_course(start, events),
        events.len() > 0,
    ensures
        asked(start, events) is CheckJobs <==> events.last() == PlanEvent::<E>::Files(Ok(0)),
        asked(start, events) is StopWithoutFiles <==> events.last() == PlanEvent::<E>::Idle(true),
{
    lemma_course(start, events.drop_last());
}

/// Once there is something to plan, it is said that changes would be put aside where they would
/// be, and nowhere else; then the groups are planned from the first on, if there are any.
pub proof fn stash_is_announced_where_there_is_one<E>(start: PlanRun, events: Seq<PlanEvent<E>>)
    requires
        is_course(start, events),
        events.len() > 0,
    ensures
        asked(start, events) is AnnounceStash ==> start.stash_method != StashMethod::NoStash,
        events.last() == PlanEvent::<E>::Idle(false) || (events.last() matches PlanEvent::Files(
            Ok(n),
        ) && n > 0) ==> {
            &&& start.stash_method != StashMethod::NoStash ==> asked(
                start,
                events,
            ) is AnnounceStash
            &&& start.stash_method == StashMethod::NoStash && start.groups > 0 ==> asked(
                start,
                events,
            ) == PlanAction::<E>::PlanGroup(0)
            &&& start.stash_method == StashMethod::NoStash && start.groups == 0 ==> (asked(
                start,
                events,
            ) matches PlanAction::Finish(Ok(_)))
        },
        events.last() is Ack && start.groups > 0 ==> asked(start, events) == PlanAction::<
            E,
        >::PlanGroup(0),
        events.last() is Ack && start.groups == 0 ==> (asked(
            start,
            events,
        ) matches PlanAction::Finish(Ok(_))),
{
    lemma_course(start, events.drop_last());
}

/// Planning goes on from a group to the next one, and ends in success after the last.
pub proof fn planned_group_is_followed_by_the_next<E>(
    start: PlanRun,
    events: Seq<PlanEvent<E>>,
    i: usize,
)
    requires
        is_course(start, events),
        events.len() > 0,
        asked(start, events.drop_last()) == PlanAction::<E>::PlanGroup(i),
        events.last() matches PlanEvent::Done(Ok(_)),
    ensures
        i + 1 < start.groups ==> asked(start, events) == PlanAction::<E>::PlanGroup(
            (i + 1) as usize,
        ),
        i + 1 == start.groups ==> (asked(start, events) matches PlanAction::Finish(Ok(_))),
{
    reveal_with_fuel(is_course, 3);
    let before = events.drop_last();
    lemma_course(start, before);
    if before.len() > 0 {
        lemma_course(start, before.drop_last());
    }
}

/// Any error ends planning, and planning returns that error.
pub proof fn error_ends_planning<E>(start: PlanRun, events: Seq<PlanEvent<E>>, error: E)
    requires
        is_course(start, events),
        events.len() > 0,
    ensures
        asked(start, events) == PlanAction::<E>::Finish(Err(error)) <==> events.last()
            == PlanEvent::<E>::Done(Err(error)) || events.last() == PlanEvent::<E>::Files(
            Err(error),
        ),
{
    lemma_course(start, events.drop_last());
}

/// No event that planning waits for is refused.
pub proof fn expected_events_are_planned<E>(run: PlanRun, event: PlanEvent<E>)
    requires
        run.expects(event),
    ensures
        !(run.next(event).1 is Refuse),
{
}

} // verus!
