//! What holds of every course that a job can take.
use crate::path::{self, FilePath};
use crate::skip::SkipReason;
use crate::step::job::{
    self, ConditionValue, JobAction, JobEvent, JobMode, JobPhase, JobRun,
};
use crate::step::types::{Platform, Step};
use vstd::prelude::*;

verus! {

/// A job as it was started and after each of the events that it has taken, with what it asked for
/// each time.
pub struct JobCourse<E> {
    pub mode: JobMode,
    pub platform: Platform,
    pub has_filters: bool,
    /// Whether the hook had failed before the job started.
    pub failed: bool,
    pub jobs: Seq<JobRun>,
    pub actions: Seq<JobAction<E>>,
    pub events: Seq<JobEvent<E>>,
}

/// Whether an event is that something failed.
pub open spec fn is_failure<E>(event: JobEvent<E>) -> bool {
    match event {
        JobEvent::Condition(Err(_)) | JobEvent::Done(Err(_)) | JobEvent::Rendered(Err(_)) => true,
        JobEvent::Executed(outcome) => !(outcome is Success),
        _ => false,
    }
}

impl<E> JobCourse<E> {
    /// Whether the job of a step can take this course: no event was refused.
    pub open spec fn is_course(self, step: Step) -> bool {
        &&& self.jobs.len() == self.events.len() + 1
        &&& self.actions.len() == self.jobs.len()
        &&& self.jobs[0].is_new(self.mode, self.platform, self.has_filters)
        &&& self.jobs[0].begins(step, self.failed, self.actions[0])
        &&& forall|i: int| 0 <= i < self.events.len() ==> #[trigger] self.takes(step, i)
    }

    /// Whether the event at that position was taken.
    pub open spec fn takes(self, step: Step, i: int) -> bool {
        &&& self.jobs[i].follows(step, self.events[i], self.jobs[i + 1], self.actions[i + 1])
        &&& !(self.actions[i + 1] is Refuse)
    }

    /// Whether the event at that position tells which files exist, and `left` are those.
    pub open spec fn leaves(self, i: int, left: Seq<FilePath>) -> bool {
        &&& self.events[i] matches JobEvent::Exist(exists)
        &&& path::views(left) == path::flagged(path::views(self.jobs[0].files@), exists@)
    }

    /// Whether one of the first `n` events tells which files exist, and `left` are those.
    pub open spec fn kept(self, n: int, left: Seq<FilePath>) -> bool {
        exists|i: int| 0 <= i < n && #[trigger] self.leaves(i, left)
    }

    /// Whether the event at that position is that the template of the command of the step was
    /// filled in, with the given result.
    pub open spec fn renders(self, step: Step, i: int, run: Seq<char>) -> bool {
        &&& self.events[i] matches JobEvent::Rendered(Ok(r))
        &&& r@ == run
        &&& self.actions[i] matches JobAction::RenderRun(template)
        &&& job::job_script(step, self.mode) is Some
        &&& template@ == job::prefixed(
            step,
            job::job_script(step, self.mode)->0.text_on(self.platform),
        )
    }

    /// Whether one of the first `n` events is that the template of the command of the step was
    /// filled in, with the given result.
    pub open spec fn rendered(self, step: Step, n: int, run: Seq<char>) -> bool {
        exists|i: int| 0 <= i < n && #[trigger] self.renders(step, i, run)
    }
}

/// How far a phase is from the end, at most; `env` is how many environment variables there are.
pub open spec fn distance(phase: JobPhase, env: int) -> int {
    match phase {
        JobPhase::EvaluatingCondition => env + 9,
        JobPhase::AskingProfile => env + 8,
        JobPhase::RetainingFiles => env + 7,
        JobPhase::Starting => env + 6,
        JobPhase::RenderingRun => env + 5,
        JobPhase::Announcing => env + 4,
        JobPhase::RenderingStdin => env + 3,
        JobPhase::RenderingEnv(i) => env - i + 2,
        JobPhase::Executing => 2,
        JobPhase::Finishing => 1,
        JobPhase::Finished => 0,
    }
}

/// What holds of a job after the first `n` events of its course.
pub(crate) proof fn lemma_course<E>(step: Step, course: JobCourse<E>, n: int)
    requires
        course.is_course(step),
        0 <= n <= course.events.len(),
    ensures
        course.jobs[n].mode == course.mode,
        course.jobs[n].platform == course.platform,
        course.jobs[n].has_filters == course.has_filters,
        course.jobs[n].well_formed(step),
        n + distance(course.jobs[n].phase, step.env.entries().len() as int) <= step.env.entries().len()
            + 9,
        distance(course.jobs[n].phase, step.env.entries().len() as int) >= 0,
        course.actions[n] is Execute <==> course.jobs[n].phase is Executing,
        course.actions[n] is Skip ==> course.jobs[n].phase is Finishing,
        course.actions[n] is AskProfile ==> course.jobs[n].phase is AskingProfile,
        match course.jobs[n].phase {
            JobPhase::EvaluatingCondition
            | JobPhase::AskingProfile
            | JobPhase::RetainingFiles => course.jobs[n].files == course.jobs[0].files,
            JobPhase::Finishing | JobPhase::Finished => true,
            _ => course.kept(n, course.jobs[n].files@) && (course.has_filters
                ==> course.jobs[n].files@.len() > 0),
        },
        match course.jobs[n].phase {
            JobPhase::RenderingRun => {
                &&& course.actions[n] matches JobAction::RenderRun(template)
                &&& job::job_script(step, course.mode) is Some
                &&& template@ == job::prefixed(
                    step,
                    job::job_script(step, course.mode)->0.text_on(course.platform),
                )
            },
            JobPhase::Announcing
            | JobPhase::RenderingStdin
            | JobPhase::RenderingEnv(_)
            | JobPhase::Executing => course.rendered(step, n, course.jobs[n].run@),
            _ => true,
        },
        course.actions[n] matches JobAction::Execute(cmd) ==> job::runs_in_shell(
            cmd.line,
            step,
            course.platform,
            course.jobs[n].run@,
        ),
    decreases n,
{
    if n > 0 {
        lemma_course(step, course, n - 1);
        assert(course.takes(step, n - 1));
        let event = course.events[n - 1];
        let left = course.jobs[n].files@;
        if course.jobs[n - 1].phase is RetainingFiles && event is Exist {
            assert(course.leaves(n - 1, left));
        }
        assert(course.kept(n - 1, left) ==> course.kept(n, left));
        let run = course.jobs[n - 1].run@;
        assert(course.rendered(step, n - 1, run) ==> course.rendered(step, n, run));
        if course.jobs[n - 1].phase is RenderingRun {
            if let JobEvent::Rendered(Ok(r)) = event {
                assert(course.renders(step, n - 1, r@));
            }
        }
    }
}

/// Nothing is done for a job where the hook has failed already.
pub proof fn failed_hook_starts_no_job<E>(step: Step, course: JobCourse<E>)
    requires
        course.is_course(step),
        course.failed,
    ensures
        course.events.len() == 0,
        course.actions[0] == JobAction::<E>::Leave,
{
    if course.events.len() > 0 {
        assert(course.takes(step, 0));
    }
}

/// A condition that does not evaluate to true wins over the profiles: the job skips the step for
/// it, the profiles are not asked for, and no command is run.
pub proof fn untrue_condition_wins_over_profiles<E>(
    step: Step,
    course: JobCourse<E>,
    value: ConditionValue,
)
    requires
        course.is_course(step),
        course.events.len() > 0,
        course.events[0] == JobEvent::<E>::Condition(Ok(value)),
        value != ConditionValue::Bool(true),
    ensures
        course.actions[1] == JobAction::<E>::Skip(SkipReason::ConditionFalse),
        forall|i: int|
            0 <= i < course.actions.len() ==> !(#[trigger] course.actions[i] is AskProfile)
                && !(course.actions[i] is Execute),
{
    assert(course.takes(step, 0));
    assert forall|i: int| 0 <= i < course.actions.len() implies !(
    #[trigger] course.actions[i] is AskProfile) && !(course.actions[i] is Execute) by {
        lemma_course(step, course, i);
        if i >= 2 {
            assert(course.takes(step, 1));
        }
        if i >= 3 {
            assert(course.takes(step, 2));
        }
    }
}

/// A job that skips its step runs no command.
pub proof fn skipped_job_runs_no_command<E>(step: Step, course: JobCourse<E>, i: int, k: int)
    requires
        course.is_course(step),
        0 <= i < course.actions.len(),
        course.actions[i] is Skip,
        0 <= k < course.actions.len(),
    ensures
        !(course.actions[k] is Execute),
{
    lemma_course(step, course, i);
    lemma_course(step, course, k);
    if course.actions[k] is Execute {
        if k < i {
            assert(course.takes(step, k));
            if k + 1 < i {
                assert(course.takes(step, k + 1));
                if k + 2 < i {
                    assert(course.takes(step, k + 2));
                }
            }
        } else if i < k {
            assert(course.takes(step, i));
            if i + 1 < k {
                assert(course.takes(step, i + 1));
            }
        }
    }
}

/// A job runs its command on those of its files that exist, in their order, and on at least one
/// where its step picks the files.
pub proof fn command_runs_on_existing_files<E>(step: Step, course: JobCourse<E>, k: int)
    requires
        course.is_course(step),
        0 <= k < course.actions.len(),
        course.actions[k] is Execute,
    ensures
        course.kept(k, course.jobs[k].files@),
        course.has_filters ==> course.jobs[k].files@.len() > 0,
{
    lemma_course(step, course, k);
}

/// What a job executes is the command of its step for the mode of the job, with its prefix, once
/// the template is filled in, in the shell of the step.
pub proof fn rendered_command_is_executed<E>(step: Step, course: JobCourse<E>, k: int) -> (run:
    Seq<char>)
    requires
        course.is_course(step),
        0 <= k < course.actions.len(),
        course.actions[k] is Execute,
    ensures
        course.rendered(step, k, run),
        job::runs_in_shell(course.actions[k]->Execute_0.line, step, course.platform, run),
{
    lemma_course(step, course, k);
    course.jobs[k].run@
}

/// Where something fails, the job returns a failure at once.
pub proof fn failure_ends_the_job<E>(step: Step, course: JobCourse<E>, i: int)
    requires
        course.is_course(step),
        0 <= i < course.events.len(),
        is_failure(course.events[i]),
    ensures
        i == course.events.len() - 1,
        course.actions[i + 1] is Fail || course.actions[i + 1] matches JobAction::Finish(Err(_)),
{
    assert(course.takes(step, i));
    if i + 1 < course.events.len() {
        assert(course.takes(step, i + 1));
    }
}

/// A job comes to its end: it takes no more events than there are environment variables and nine
/// more.
pub proof fn job_ends<E>(step: Step, course: JobCourse<E>)
    requires
        course.is_course(step),
    ensures
        course.events.len() <= step.env.entries().len() + 9,
{
    lemma_course(step, course, course.events.len() as int);
}

} // verus!
