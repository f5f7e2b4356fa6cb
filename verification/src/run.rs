//! The course of a run: what to do next, given what came of what was done.
use crate::hook::{Hook, StashMethod};
use crate::options::{Environment, HookOptions, RunPlan, Settings};
use crate::step::types::{opt_text, RunType};
use vstd::prelude::*;

verus! {

/// Why a run failed.
#[derive(Debug, PartialEq, Eq)]
pub enum RunFailure<E> {
    /// Something that the run needed failed.
    Outside(E),
    /// Fixing modified files, and the hook does not want that.
    FilesModified,
}

impl<E> RunFailure<E> {
    /// What is said of the failure, where it is the run that failed.
    pub open spec fn message_text(self) -> Option<Seq<char>> {
        match self {
            RunFailure::Outside(_) => None,
            RunFailure::FilesModified => Some(
                "fail_on_fix: files were modified by fix commands"@,
            ),
        }
    }

    /// What is said of the failure, where it is the run that failed.
    pub fn message(&self) -> (r: Option<String>)
        ensures
            opt_text(r) == self.message_text(),
    {
        match self {
            RunFailure::Outside(_) => None,
            RunFailure::FilesModified => Some(
                "fail_on_fix: files were modified by fix commands".to_owned(),
            ),
        }
    }
}

/// What a run waits for.
#[derive(Clone, Copy, Debug, PartialEq, Eq, Structural)]
pub enum HookPhase {
    OpeningRepo,
    ReadingStatus,
    ListingFiles,
    CheckingJobs,
    CapturingIndex,
    Stashing,
    NotingNothingToStash,
    TakingSnapshot,
    RunningGroup(usize),
    ComparingSnapshot,
    PoppingStash,
    Finished,
}

/// What came of what a run asked for.
#[derive(Debug, PartialEq, Eq)]
pub enum HookEvent<E> {
    /// The repository was opened, the index captured, the changes put aside, the group run, or
    /// the changes brought back; or that failed.
    Done(Result<(), E>),
    /// What cannot fail was done.
    Ack,
    /// The status was read: whether there are changes that are not staged, and whether there are
    /// untracked files.
    Status(Result<(bool, bool), E>),
    /// The files were listed: how many there are.
    Files(Result<usize, E>),
    /// The jobs were built: whether no step has something to run.
    Idle(bool),
    /// The files were compared with the snapshot: whether one was modified or deleted.
    Modified(bool),
}

/// What to do next in a run.
#[derive(Debug, PartialEq, Eq)]
pub enum HookAction<E> {
    OpenRepo,
    ReadStatus,
    ListFiles,
    /// Build the jobs of all steps.
    CheckJobs,
    /// Record what is staged of the files to work on.
    CaptureIndex,
    /// Put aside all changes that are not staged.
    StashUnstaged(StashMethod),
    /// Show that there is nothing to put aside.
    NoteNothingToStash,
    /// Record the contents of the files.
    TakeSnapshot,
    /// Run the group at that position.
    RunGroup(usize),
    /// Compare the files with the snapshot.
    CompareSnapshot,
    /// Show whether the groups succeeded, then bring back what was put aside.
    PopStash { succeeded: bool },
    /// Return at once with the error.
    Abort(E),
    /// Return at once: there are no files to work on.
    StopWithoutFiles,
    /// Return at once: there are no steps to run.
    StopWithoutSteps,
    /// Show the summary of the run and return its result.
    Complete(Result<(), RunFailure<E>>),
    /// Nothing: the event cannot come now.
    Refuse,
}

/// A run of a hook.
#[derive(Debug, PartialEq, Eq)]
pub struct HookRun<E> {
    pub plan: RunPlan,
    pub phase: HookPhase,
    /// Whether there is something to put aside.
    pub dirty: bool,
    /// The result so far; where the run is over, its result was handed over.
    pub result: Result<(), RunFailure<E>>,
}

/// The result of doing one thing after another: the first failure counts.
pub open spec fn first_failure<E>(
    before: Result<(), RunFailure<E>>,
    now: Result<(), E>,
) -> Result<(), RunFailure<E>> {
    match (before, now) {
        (Err(f), _) => Err(f),
        (Ok(_), Err(e)) => Err(RunFailure::Outside(e)),
        (Ok(_), Ok(_)) => Ok(()),
    }
}

impl RunPlan {
    /// Whether the run has to know which files the groups modified.
    pub open spec fn watches_files(self) -> bool {
        self.fail_on_fix && self.run_type == RunType::Fix
    }
}

impl<E> HookRun<E> {
    /// The run of a plan before anything was done.
    pub open spec fn initial(plan: RunPlan) -> HookRun<E> {
        HookRun { plan, phase: HookPhase::OpeningRepo, dirty: false, result: Ok(()) }
    }

    pub open spec fn in_phase(self, phase: HookPhase) -> HookRun<E> {
        HookRun { phase, ..self }
    }

    /// Whether the event can come now.
    pub open spec fn expects(self, event: HookEvent<E>) -> bool {
        match self.phase {
            HookPhase::OpeningRepo => event is Done,
            HookPhase::ReadingStatus => event is Status,
            HookPhase::ListingFiles => event is Files,
            HookPhase::CheckingJobs => event is Idle,
            HookPhase::CapturingIndex => event is Done,
            HookPhase::Stashing => event is Done,
            HookPhase::NotingNothingToStash => event is Ack,
            HookPhase::TakingSnapshot => event is Ack,
            HookPhase::RunningGroup(_) => event is Done,
            HookPhase::ComparingSnapshot => event is Modified,
            HookPhase::PoppingStash => event is Done,
            HookPhase::Finished => false,
        }
    }

    /// What a run goes through: at a group it is one of those that there are, and where it stops
    /// at the first failure none has failed before.
    pub open spec fn well_formed(self) -> bool {
        match self.phase {
            HookPhase::RunningGroup(i) => {
                &&& i < self.plan.groups
                &&& self.plan.fail_fast ==> self.result is Ok
            },
            HookPhase::TakingSnapshot => {
                &&& self.plan.groups > 0
                &&& self.plan.watches_files()
                &&& self.result is Ok
            },
            HookPhase::ComparingSnapshot => self.result is Ok && self.plan.watches_files(),
            HookPhase::PoppingStash => true,
            HookPhase::Finished => true,
            _ => self.result is Ok,
        }
    }

    /// Ends the run.
    pub open spec fn ended(self, action: HookAction<E>) -> (HookRun<E>, HookAction<E>) {
        (self.in_phase(HookPhase::Finished), action)
    }

    /// After the files are known: changes are put aside where the plan says so and there are any.
    pub open spec fn to_stash(self) -> (HookRun<E>, HookAction<E>) {
        if self.plan.stash_method == StashMethod::NoStash {
            self.to_groups()
        } else if self.dirty {
            (self.in_phase(HookPhase::CapturingIndex), HookAction::CaptureIndex)
        } else {
            (self.in_phase(HookPhase::NotingNothingToStash), HookAction::NoteNothingToStash)
        }
    }

    /// Before the first group: where the run has to know which files the groups modify, the files
    /// are recorded.
    pub open spec fn to_groups(self) -> (HookRun<E>, HookAction<E>) {
        if self.plan.groups == 0 {
            self.ended(HookAction::StopWithoutSteps)
        } else if self.plan.watches_files() {
            (self.in_phase(HookPhase::TakingSnapshot), HookAction::TakeSnapshot)
        } else {
            (self.in_phase(HookPhase::RunningGroup(0)), HookAction::RunGroup(0))
        }
    }

    /// After a group: the next one, unless there is none or the run stops at a failure.
    pub open spec fn after_group(self, i: usize) -> (HookRun<E>, HookAction<E>) {
        if i + 1 < self.plan.groups && !(self.plan.fail_fast && self.result is Err) {
            (
                self.in_phase(HookPhase::RunningGroup((i + 1) as usize)),
                HookAction::RunGroup((i + 1) as usize),
            )
        } else if self.result is Ok && self.plan.watches_files() {
            (self.in_phase(HookPhase::ComparingSnapshot), HookAction::CompareSnapshot)
        } else {
            self.to_pop()
        }
    }

    /// After the groups: what was put aside is brought back.
    pub open spec fn to_pop(self) -> (HookRun<E>, HookAction<E>) {
        (
            self.in_phase(HookPhase::PoppingStash),
            HookAction::PopStash { succeeded: self.result is Ok },
        )
    }

    /// The run after an event, and what to do next.
    pub open spec fn next(self, event: HookEvent<E>) -> (HookRun<E>, HookAction<E>) {
        match (self.phase, event) {
            (HookPhase::OpeningRepo, HookEvent::Done(Ok(_))) => (
                self.in_phase(HookPhase::ReadingStatus),
                HookAction::ReadStatus,
            ),
            (HookPhase::ReadingStatus, HookEvent::Status(Ok((unstaged, untracked)))) => (
                HookRun {
                    dirty: unstaged || (self.plan.stash_untracked && untracked),
                    ..self.in_phase(HookPhase::ListingFiles)
                },
                HookAction::ListFiles,
            ),
            (HookPhase::ListingFiles, HookEvent::Files(Ok(n))) => if n == 0 {
                (self.in_phase(HookPhase::CheckingJobs), HookAction::CheckJobs)
            } else {
                self.to_stash()
            },
            (HookPhase::CheckingJobs, HookEvent::Idle(idle)) => if idle {
                self.ended(HookAction::StopWithoutFiles)
            } else {
                self.to_stash()
            },
            (HookPhase::CapturingIndex, HookEvent::Done(Ok(_))) => (
                self.in_phase(HookPhase::Stashing),
                HookAction::StashUnstaged(self.plan.stash_method),
            ),
            (HookPhase::Stashing, HookEvent::Done(Ok(_))) => self.to_groups(),
            (HookPhase::NotingNothingToStash, HookEvent::Ack) => self.to_groups(),
            (HookPhase::TakingSnapshot, HookEvent::Ack) => (
                self.in_phase(HookPhase::RunningGroup(0)),
                HookAction::RunGroup(0),
            ),
            (HookPhase::RunningGroup(i), HookEvent::Done(r)) => HookRun {
                result: first_failure(self.result, r),
                ..self
            }.after_group(i),
            (HookPhase::ComparingSnapshot, HookEvent::Modified(modified)) => HookRun {
                result: if modified {
                    Err(RunFailure::FilesModified)
                } else {
                    self.result
                },
                ..self
            }.to_pop(),
            (HookPhase::PoppingStash, HookEvent::Done(r)) => HookRun {
                result: Ok(()),
                ..self
            }.ended(HookAction::Complete(first_failure(self.result, r))),
            (HookPhase::OpeningRepo, HookEvent::Done(Err(e))) => self.ended(HookAction::Abort(e)),
            (HookPhase::ReadingStatus, HookEvent::Status(Err(e))) => self.ended(
                HookAction::Abort(e),
            ),
            (HookPhase::ListingFiles, HookEvent::Files(Err(e))) => self.ended(
                HookAction::Abort(e),
            ),
            (HookPhase::CapturingIndex, HookEvent::Done(Err(e))) => self.ended(
                HookAction::Abort(e),
            ),
            (HookPhase::Stashing, HookEvent::Done(Err(e))) => self.ended(HookAction::Abort(e)),
            _ => (self, HookAction::Refuse),
        }
    }
}

fn keep_first<E>(before: Result<(), RunFailure<E>>, now: Result<(), E>) -> (r: Result<
    (),
    RunFailure<E>,
>)
    ensures
        r == first_failure(before, now),
{
    match before {
        Err(f) => Err(f),
        Ok(_) => match now {
            Err(e) => Err(RunFailure::Outside(e)),
            Ok(_) => Ok(()),
        },
    }
}

impl<E> HookRun<E> {
    /// Starts the run of a plan, by opening the repository.
    pub fn start(plan: RunPlan) -> (r: (HookRun<E>, HookAction<E>))
        ensures
            r.0 == HookRun::<E>::initial(plan),
            r.0.well_formed(),
            r.1 == HookAction::<E>::OpenRepo,
    {
        (
            HookRun { plan, phase: HookPhase::OpeningRepo, dirty: false, result: Ok(()) },
            HookAction::OpenRepo,
        )
    }

    fn go(self, phase: HookPhase, action: HookAction<E>) -> (r: (HookRun<E>, HookAction<E>))
        ensures
            r == (self.in_phase(phase), action),
    {
        (HookRun { plan: self.plan, phase, dirty: self.dirty, result: self.result }, action)
    }

    fn watches(&self) -> (b: bool)
        ensures
            b == self.plan.watches_files(),
    {
        self.plan.fail_on_fix && self.plan.run_type == RunType::Fix
    }

    fn go_to_stash(self) -> (r: (HookRun<E>, HookAction<E>))
        ensures
            r == self.to_stash(),
    {
        if self.plan.stash_method == StashMethod::NoStash {
            self.go_to_groups()
        } else if self.dirty {
            self.go(HookPhase::CapturingIndex, HookAction::CaptureIndex)
        } else {
            self.go(HookPhase::NotingNothingToStash, HookAction::NoteNothingToStash)
        }
    }

    fn go_to_groups(self) -> (r: (HookRun<E>, HookAction<E>))
        ensures
            r == self.to_groups(),
    {
        if self.plan.groups == 0 {
            self.go(HookPhase::Finished, HookAction::StopWithoutSteps)
        } else if self.watches() {
            self.go(HookPhase::TakingSnapshot, HookAction::TakeSnapshot)
        } else {
            self.go(HookPhase::RunningGroup(0), HookAction::RunGroup(0))
        }
    }

    fn go_after_group(self, i: usize) -> (r: (HookRun<E>, HookAction<E>))
        requires
            i < self.plan.groups,
        ensures
            r == self.after_group(i),
    {
        if i + 1 < self.plan.groups && !(self.plan.fail_fast && self.result.is_err()) {
            self.go(HookPhase::RunningGroup(i + 1), HookAction::RunGroup(i + 1))
        } else if self.result.is_ok() && self.watches() {
            self.go(HookPhase::ComparingSnapshot, HookAction::CompareSnapshot)
        } else {
            self.go_to_pop()
        }
    }

    fn go_to_pop(self) -> (r: (HookRun<E>, HookAction<E>))
        ensures
            r == self.to_pop(),
    {
        let succeeded = self.result.is_ok();
        self.go(HookPhase::PoppingStash, HookAction::PopStash { succeeded })
    }

    /// Takes the run on by an event, and says what to do next.
    pub fn step(self, event: HookEvent<E>) -> (r: (HookRun<E>, HookAction<E>))
        requires
            self.well_formed(),
        ensures
            r == self.next(event),
            r.0.well_formed(),
    {
        match (self.phase, event) {
            (HookPhase::OpeningRepo, HookEvent::Done(Ok(_))) => self.go(
                HookPhase::ReadingStatus,
                HookAction::ReadStatus,
            ),
            (HookPhase::ReadingStatus, HookEvent::Status(Ok((unstaged, untracked)))) => {
                let dirty = unstaged || (self.plan.stash_untracked && untracked);
                HookRun { plan: self.plan, phase: self.phase, dirty, result: self.result }.go(
                    HookPhase::ListingFiles,
                    HookAction::ListFiles,
                )
            },
            (HookPhase::ListingFiles, HookEvent::Files(Ok(n))) => {
                if n == 0 {
                    self.go(HookPhase::CheckingJobs, HookAction::CheckJobs)
                } else {
                    self.go_to_stash()
                }
            },
            (HookPhase::CheckingJobs, HookEvent::Idle(idle)) => {
                if idle {
                    self.go(HookPhase::Finished, HookAction::StopWithoutFiles)
                } else {
                    self.go_to_stash()
                }
            },
            (HookPhase::CapturingIndex, HookEvent::Done(Ok(_))) => {
                let method = self.plan.stash_method;
                self.go(HookPhase::Stashing, HookAction::StashUnstaged(method))
            },
            (HookPhase::Stashing, HookEvent::Done(Ok(_))) => self.go_to_groups(),
            (HookPhase::NotingNothingToStash, HookEvent::Ack) => self.go_to_groups(),
            (HookPhase::TakingSnapshot, HookEvent::Ack) => self.go(
                HookPhase::RunningGroup(0),
                HookAction::RunGroup(0),
            ),
            (HookPhase::RunningGroup(i), HookEvent::Done(r)) => {
                let result = keep_first(self.result, r);
                HookRun {
                    plan: self.plan,
                    phase: self.phase,
                    dirty: self.dirty,
                    result,
                }.go_after_group(i)
            },
            (HookPhase::ComparingSnapshot, HookEvent::Modified(modified)) => {
                let result = if modified {
                    Err(RunFailure::FilesModified)
                } else {
                    self.result
                };
                HookRun { plan: self.plan, phase: self.phase, dirty: self.dirty, result }.go_to_pop()
            },
            (HookPhase::PoppingStash, HookEvent::Done(r)) => {
                let result = keep_first(self.result, r);
                HookRun {
                    plan: self.plan,
                    phase: self.phase,
                    dirty: self.dirty,
                    result: Ok(()),
                }.go(HookPhase::Finished, HookAction::Complete(result))
            },
            (HookPhase::OpeningRepo, HookEvent::Done(Err(e))) => self.go(
                HookPhase::Finished,
                HookAction::Abort(e),
            ),
            (HookPhase::ReadingStatus, HookEvent::Status(Err(e))) => self.go(
                HookPhase::Finished,
                HookAction::Abort(e),
            ),
            (HookPhase::ListingFiles, HookEvent::Files(Err(e))) => self.go(
                HookPhase::Finished,
                HookAction::Abort(e),
            ),
            (HookPhase::CapturingIndex, HookEvent::Done(Err(e))) => self.go(
                HookPhase::Finished,
                HookAction::Abort(e),
            ),
            (HookPhase::Stashing, HookEvent::Done(Err(e))) => self.go(
                HookPhase::Finished,
                HookAction::Abort(e),
            ),
            _ => (self, HookAction::Refuse),
        }
    }
}

impl Hook {
    /// Starts a run of the hook, unless the settings say to skip it.
    pub fn run<E>(
        &self,
        opts: &HookOptions,
        settings: &Settings,
        env: &Environment,
        groups: usize,
    ) -> (r: Option<(HookRun<E>, HookAction<E>)>)
        ensures
            match self.planned(*opts, *settings, *env, groups) {
                Some(plan) => r == Some((HookRun::<E>::initial(plan), HookAction::<E>::OpenRepo)),
                None => r is None,
            },
    {
        match self.plan_run(opts, settings, env, groups) {
            Some(plan) => Some(HookRun::start(plan)),
            None => None,
        }
    }
}

} // verus!
