//! Which command a job renders and runs, and what comes of it, told from the settings of its step.
use crate::component::PathView;
use crate::path;
use crate::skip::SkipReason;
use crate::step::job::{
    CmdOutput, ExecOutcome, JobAction, JobEvent, JobFailure, JobPhase, JobRun,
};
use crate::step::job_laws::JobCourse;
use crate::step::runner::StepError;
use crate::step::types::{Pattern, Platform, RunType, Script, Step};
use crate::text;
use vstd::prelude::*;

verus! {

/// Whether a template is the prefix of a step, where it has one, a space and the command of a
/// script: the one for the platform itself, else the common one, else nothing.
pub open spec fn is_template_of(
    template: Seq<char>,
    step: Step,
    script: Script,
    platform: Platform,
) -> bool {
    let own = match platform {
        Platform::Linux => script.linux,
        Platform::Macos => script.macos,
        Platform::Windows => script.windows,
        Platform::Other => None,
    };
    let command = if own is Some {
        own->0@
    } else if script.other is Some {
        script.other->0@
    } else {
        Seq::empty()
    };
    if step.prefix is Some {
        template == step.prefix->0@ + " "@ + command
    } else {
        template == command
    }
}

/// Whether an action is to render the template of a script of a step.
pub open spec fn renders<E>(
    action: JobAction<E>,
    step: Step,
    script: Option<Script>,
    platform: Platform,
) -> bool {
    &&& script is Some
    &&& action matches JobAction::RenderRun(template)
    &&& is_template_of(template@, step, script->0, platform)
}

/// Whether an action is to fail for want of a command in the step.
pub open spec fn misses_command<E>(action: JobAction<E>, step: Step) -> bool {
    action == JobAction::<E>::Finish(Err(JobFailure::Step(StepError::NoRunCommand(step.name))))
}

/// A job that only checks before another fixes asks to render `check_diff` of its step where there
/// is one, else `check`, else `check_list_files`; `fix` is none of its business. Where the step has
/// none of the three, the job fails for want of a command.
pub proof fn job_that_checks_first_renders_a_check<E>(step: Step, course: JobCourse<E>, k: int)
    requires
        course.is_course(step),
        course.mode.check_first,
        0 < k < course.actions.len(),
        course.actions[k - 1] is Start,
        course.events[k - 1] matches JobEvent::Done(Ok(_)),
    ensures
        step.check_diff is Some ==> renders(
            course.actions[k],
            step,
            step.check_diff,
            course.platform,
        ),
        step.check_diff is None && step.check is Some ==> renders(
            course.actions[k],
            step,
            step.check,
            course.platform,
        ),
        step.check_diff is None && step.check is None && step.check_list_files is Some ==> renders(
            course.actions[k],
            step,
            step.check_list_files,
            course.platform,
        ),
        step.check_diff is None && step.check is None && step.check_list_files is None
            ==> misses_command(course.actions[k], step),
{
    crate::step::job_laws::lemma_course(step, course, k - 1);
    assert(course.takes(step, k - 1));
    if k >= 2 {
        assert(course.takes(step, k - 2));
    }
}

/// A job that does not check first asks to render `fix` of its step where it fixes and there is
/// one; else `check` where there is one, else `check_diff`, else `check_list_files`. Where there is
/// none of these, the job fails for want of a command.
pub proof fn job_renders_the_command_of_its_run_type<E>(step: Step, course: JobCourse<E>, k: int)
    requires
        course.is_course(step),
        !course.mode.check_first,
        0 < k < course.actions.len(),
        course.actions[k - 1] is Start,
        course.events[k - 1] matches JobEvent::Done(Ok(_)),
    ensures
        course.mode.run_type == RunType::Fix && step.fix is Some ==> renders(
            course.actions[k],
            step,
            step.fix,
            course.platform,
        ),
        course.mode.run_type == RunType::Check || step.fix is None ==> {
            &&& step.check is Some ==> renders(
                course.actions[k],
                step,
                step.check,
                course.platform,
            )
            &&& step.check is None && step.check_diff is Some ==> renders(
                course.actions[k],
                step,
                step.check_diff,
                course.platform,
            )
            &&& step.check is None && step.check_diff is None && step.check_list_files is Some
                ==> renders(course.actions[k], step, step.check_list_files, course.platform)
            &&& step.check is None && step.check_diff is None && step.check_list_files is None
                ==> misses_command(course.actions[k], step)
        },
{
    crate::step::job_laws::lemma_course(step, course, k - 1);
    assert(course.takes(step, k - 1));
    if k >= 2 {
        assert(course.takes(step, k - 2));
    }
}

/// A job renders a command at no other time than directly after it was started, so that what is
/// said of that time is said of every command that is rendered.
pub proof fn command_is_rendered_after_the_start<E>(step: Step, course: JobCourse<E>, k: int)
    requires
        course.is_course(step),
        0 <= k < course.actions.len(),
        course.actions[k] is RenderRun,
    ensures
        k > 0,
        course.actions[k - 1] is Start,
        course.events[k - 1] matches JobEvent::Done(Ok(_)),
{
    if k > 0 {
        assert(course.takes(step, k - 1));
        if k >= 2 {
            assert(course.takes(step, k - 2));
        }
    }
}

/// The text that a pattern is shown by.
pub open spec fn shown_pattern(shown: Seq<char>, pattern: Option<Pattern>) -> bool {
    &&& pattern is None ==> shown.len() == 0
    &&& pattern matches Some(Pattern::Globs(globs)) ==> shown == text::join(
        Seq::new(globs@.len(), |i: int| globs@[i]@),
        " "@,
    )
    &&& pattern matches Some(Pattern::Regex { _type, pattern: p }) ==> shown == "regex: "@ + p@
}

/// The message of a job tells how many files it works on, what picks them and what is run.
pub proof fn message_tells_files_pattern_and_command<E>(
    step: Step,
    job: JobRun,
    run: String,
    now: JobRun,
    action: JobAction<E>,
) -> (shown: Seq<char>)
    requires
        job.phase is RenderingRun,
        job.follows(step, JobEvent::Rendered(Ok(run)), now, action),
    ensures
        action matches JobAction::Announce(t) && t@ == text::decimal(job.files@.len())
            + (if job.files@.len() == 1 {
            " file"@
        } else {
            " files"@
        }) + " – "@ + shown + " – "@ + run@,
        shown_pattern(shown, step.glob),
        now.run@ == run@,
        now.files == job.files,
{
    reveal_strlit(" file");
    reveal_strlit("s");
    reveal_strlit(" files");
    let n = job.files@.len();
    assert(" file"@ + "s"@ =~= " files"@);
    if let Some(Pattern::Globs(g)) = step.glob {
        assert(text::texts(g@) =~= Seq::new(g@.len(), |i: int| g@[i]@));
    }
    let shown = crate::step::job::pattern_text(step.glob);
    if let JobAction::Announce(t) = action {
        assert(t@ =~= text::decimal(n) + (if n == 1 {
            " file"@
        } else {
            " files"@
        }) + " – "@ + shown + " – "@ + run@);
    }
    shown
}

/// A template that cannot be rendered ends the job, and the error names the step.
pub proof fn unrendered_command_ends_the_job<E>(
    step: Step,
    job: JobRun,
    error: E,
    now: JobRun,
    action: JobAction<E>,
)
    requires
        job.phase is RenderingRun,
        job.follows(step, JobEvent::Rendered(Err(error)), now, action),
    ensures
        action == JobAction::<E>::Finish(Err((JobFailure::Render { error, step: step.name }))),
        now.phase is Finished,
{
}

/// The command of a job runs in the shell of its step where it has one: the first word of the shell
/// is the program, its other words are the first arguments, and the command is the last. Where the
/// step has no shell, the command is the program itself on Windows and elsewhere runs in `sh`,
/// which is told to stop at errors.
pub proof fn command_runs_in_the_shell<E>(
    step: Step,
    job: JobRun,
    event: JobEvent<E>,
    now: JobRun,
    action: JobAction<E>,
)
    requires
        job.phase is Announcing || job.phase is RenderingStdin || job.phase is RenderingEnv,
        job.follows(step, event, now, action),
        action is Execute,
    ensures
        action matches JobAction::Execute(cmd) && {
            &&& step.shell is None && job.platform == Platform::Windows ==> cmd.line.program@
                == job.run@ && cmd.line.args@.len() == 0
            &&& step.shell is None && job.platform != Platform::Windows ==> {
                &&& cmd.line.program@ == "sh"@
                &&& cmd.line.args@.len() == 4
                &&& cmd.line.args@[0]@ == "-o"@
                &&& cmd.line.args@[1]@ == "errexit"@
                &&& cmd.line.args@[2]@ == "-c"@
                &&& cmd.line.args@[3]@ == job.run@
            }
            &&& step.shell is Some ==> exists|shell: Seq<char>| #[trigger]
                runs_in(shell, step, job, cmd.line.program@, text::texts(cmd.line.args@))
            &&& cmd.dir is Some <==> step.dir is Some
            &&& step.dir is Some ==> cmd.dir->0@ == step.dir->0@
            &&& cmd.interactive == step.interactive
        },
{
    if let JobAction::Execute(cmd) = action {
        let args = text::texts(cmd.line.args@);
        if step.shell is None {
            assert(args.len() == cmd.line.args@.len());
            if job.platform != Platform::Windows {
                assert(args[0] == cmd.line.args@[0]@);
                assert(args[1] == cmd.line.args@[1]@);
                assert(args[2] == cmd.line.args@[2]@);
                assert(args[3] == cmd.line.args@[3]@);
            }
        } else {
            let shell = step.shell->0.text_on(job.platform);
            let bare = Step { prefix: None, ..step };
            assert(is_template_of(shell, bare, step.shell->0, job.platform));
            assert(runs_in(shell, step, job, cmd.line.program@, args));
        }
    }
}

/// Whether a program and its arguments run the command of a job in the shell of a step, whose
/// setting on the platform of the job is the text.
pub open spec fn runs_in(
    shell: Seq<char>,
    step: Step,
    job: JobRun,
    program: Seq<char>,
    args: Seq<Seq<char>>,
) -> bool {
    &&& step.shell is Some
    &&& is_template_of(shell, (Step { prefix: None, ..step }), step.shell->0, job.platform)
    &&& program == text::words(shell)[0]
    &&& args == text::words(shell).drop_first().push(job.run@)
}

/// A command that succeeds ends the job well with what it wrote.
pub proof fn successful_command_succeeds<E>(
    step: Step,
    job: JobRun,
    written: CmdOutput,
    now: JobRun,
    action: JobAction<E>,
)
    requires
        job.phase is Executing,
        job.follows(step, JobEvent::Executed(ExecOutcome::Success(written)), now, action),
    ensures
        action matches JobAction::Succeed { written: w, warn } && w == written,
        now.phase is Finishing,
{
}

/// A command that succeeds is warned about exactly where it is the one that lists files and it
/// listed some: never where the step has no such command, nor where the job runs another one.
pub proof fn listing_files_though_successful_is_warned_about<E>(
    step: Step,
    job: JobRun,
    written: CmdOutput,
    now: JobRun,
    action: JobAction<E>,
)
    requires
        job.phase is Executing,
        job.follows(step, JobEvent::Executed(ExecOutcome::Success(written)), now, action),
    ensures
        action matches JobAction::Succeed { written: _, warn } && {
            &&& step.check_list_files is None ==> !warn
            &&& (forall|i: int|
                0 <= i < written.stdout@.len() ==> text::is_space(#[trigger] written.stdout@[i]))
                ==> !warn
            &&& step.check is None && step.check_diff is None && step.check_list_files is Some && (
            job.mode.check_first || job.mode.run_type == RunType::Check || step.fix is None)
                ==> warn == (exists|i: int|
                0 <= i < written.stdout@.len() && !text::is_space(#[trigger] written.stdout@[i]))
            &&& forall|p: Platform|
                step.check_list_files is Some && !job.mode.check_first && job.mode.run_type
                    == RunType::Check && step.check is Some && #[trigger] step.check->0.text_on(p)
                    != step.check_list_files->0.text_on(p) ==> !warn
            &&& forall|p: Platform|
                step.check_list_files is Some && !job.mode.check_first && job.mode.run_type
                    == RunType::Fix && step.fix is Some && #[trigger] step.fix->0.text_on(p)
                    != step.check_list_files->0.text_on(p) ==> !warn
        },
{
}

/// Where the command that fails is `check_diff` or `check_list_files` in a job that checks first,
/// the job returns what the command wrote for the job that fixes: what went to stdout as that, and
/// what went to stderr as that.
pub proof fn failed_first_check_returns_its_output<E>(
    step: Step,
    job: JobRun,
    output: CmdOutput,
    error: E,
    now: JobRun,
    action: JobAction<E>,
)
    requires
        job.phase is Executing,
        job.mode.check_first,
        step.check_diff is Some || (step.check is None && step.check_list_files is Some),
        job.follows(
            step,
            JobEvent::Executed(ExecOutcome::ScriptFailed { output, error }),
            now,
            action,
        ),
    ensures
        action == JobAction::<E>::Finish(
            Err(
                JobFailure::CheckListFailed {
                    error,
                    stdout: output.stdout,
                    stderr: output.stderr,
                },
            ),
        ),
        now.phase is Finished,
{
}

/// Any other command that fails makes the step fail, with all that the command wrote and with the
/// command itself; where the job checks first in a run that only checks, that is a warning.
pub proof fn failed_command_fails_the_step<E>(
    step: Step,
    job: JobRun,
    output: CmdOutput,
    error: E,
    now: JobRun,
    action: JobAction<E>,
)
    requires
        job.phase is Executing,
        !job.mode.check_first || (step.check_diff is None && step.check is Some
            && step.check_list_files is None),
        job.follows(
            step,
            JobEvent::Executed(ExecOutcome::ScriptFailed { output, error }),
            now,
            action,
        ),
    ensures
        action == (JobAction::<E>::Fail {
            output: Some(output),
            as_warning: job.mode.check_first && job.mode.run_type == RunType::Check,
            failure: JobFailure::Command { error, run: job.run },
        }),
        now.phase is Finished,
{
}

/// A command that could not be run makes the step fail without any output.
pub proof fn command_that_cannot_run_fails_the_step<E>(
    step: Step,
    job: JobRun,
    error: E,
    now: JobRun,
    action: JobAction<E>,
)
    requires
        job.phase is Executing,
        job.follows(step, JobEvent::Executed(ExecOutcome::Error(error)), now, action),
    ensures
        action == (JobAction::<E>::Fail {
            output: None,
            as_warning: job.mode.check_first && job.mode.run_type == RunType::Check,
            failure: JobFailure::Command { error, run: job.run },
        }),
        now.phase is Finished,
{
}

/// A job begins with its condition where the step has one, and goes on to the profiles once that
/// is true; without a condition it begins with the profiles.
pub proof fn condition_comes_before_the_profiles<E>(step: Step, course: JobCourse<E>)
    requires
        course.is_course(step),
        !course.failed,
    ensures
        step.job_condition is Some ==> course.actions[0] is EvaluateCondition,
        step.job_condition is None ==> course.actions[0] is AskProfile,
        course.events.len() > 0 && course.events[0] == JobEvent::<E>::Condition(
            Ok(crate::step::job::ConditionValue::Bool(true)),
        ) ==> course.actions[1] is AskProfile,
{
    if course.events.len() > 0 {
        assert(course.takes(step, 0));
    }
}

/// A job whose profiles rule its step out skips the step for exactly that reason; else it goes on
/// with the files that are left.
pub proof fn profiles_decide_whether_the_job_goes_on<E>(
    step: Step,
    course: JobCourse<E>,
    k: int,
    reason: Option<SkipReason>,
)
    requires
        course.is_course(step),
        0 <= k < course.events.len(),
        course.events[k] == JobEvent::<E>::Profile(reason),
    ensures
        course.actions[k] is AskProfile,
        reason is Some ==> course.actions[k + 1] == JobAction::<E>::Skip(reason->0),
        reason is None ==> course.actions[k + 1] is RetainFiles,
{
    assert(course.takes(step, k));
    if k > 0 {
        assert(course.takes(step, k - 1));
    }
}

/// A job without a file left skips its step where the step picks its files, and only there.
pub proof fn job_without_files_is_skipped<E>(
    step: Step,
    course: JobCourse<E>,
    k: int,
    exists: Vec<bool>,
)
    requires
        course.is_course(step),
        0 <= k < course.events.len(),
        course.events[k] == JobEvent::<E>::Exist(exists),
    ensures
        course.actions[k] is RetainFiles,
        exists@.len() == course.jobs[k].files@.len(),
        course.has_filters && (forall|i: int| 0 <= i < exists@.len() ==> !#[trigger] exists@[i])
            ==> course.actions[k + 1] == JobAction::<E>::Skip(SkipReason::NoFilesToProcess),
        !course.has_filters || (exists|i: int| 0 <= i < exists@.len() && #[trigger] exists@[i])
            ==> course.actions[k + 1] is Start,
{
    crate::step::job_laws::lemma_course(step, course, k);
    assert(course.takes(step, k));
    if k > 0 {
        assert(course.takes(step, k - 1));
    }
    let all = path::views(course.jobs[k].files@);
    lemma_none_flagged(all, exists@);
}

proof fn lemma_none_flagged(items: Seq<PathView>, flags: Seq<bool>)
    requires
        items.len() == flags.len(),
    ensures
        path::flagged(items, flags).len() == 0 <==> forall|i: int|
            0 <= i < flags.len() ==> !#[trigger] flags[i],
    decreases items.len(),
{
    if items.len() > 0 {
        lemma_none_flagged(items.drop_last(), flags.drop_last());
        if forall|i: int| 0 <= i < flags.len() ==> !#[trigger] flags[i] {
            assert forall|i: int| 0 <= i < flags.drop_last().len() implies !(
            #[trigger] flags.drop_last()[i]) by {
                assert(!flags[i]);
            }
        }
        if path::flagged(items, flags).len() == 0 {
            assert forall|i: int| 0 <= i < flags.len() implies !(#[trigger] flags[i]) by {
                if i < flags.len() - 1 {
                    assert(!flags.drop_last()[i]);
                }
            }
        }
    }
}

/// A job that is counted as done, or skipped, returns success.
pub proof fn finished_job_succeeds<E>(step: Step, job: JobRun, now: JobRun, action: JobAction<E>)
    requires
        job.phase is Finishing,
        job.follows(step, JobEvent::Done(Ok(())), now, action),
    ensures
        action matches JobAction::Finish(Ok(_)),
        now.phase is Finished,
{
}

/// An outside error while a job evaluates its condition, starts, renders what is piped or an
/// environment variable, or finishes is what the job returns.
pub proof fn outside_error_is_returned<E>(
    step: Step,
    job: JobRun,
    error: E,
    now: JobRun,
    action: JobAction<E>,
)
    requires
        match job.phase {
            JobPhase::EvaluatingCondition => job.follows(
                step,
                JobEvent::Condition(Err(error)),
                now,
                action,
            ),
            JobPhase::Starting | JobPhase::Finishing => job.follows(
                step,
                JobEvent::Done(Err(error)),
                now,
                action,
            ),
            JobPhase::RenderingStdin | JobPhase::RenderingEnv(_) => job.follows(
                step,
                JobEvent::Rendered(Err(error)),
                now,
                action,
            ),
            _ => false,
        },
    ensures
        action == JobAction::<E>::Finish(Err(JobFailure::Outside(error))),
        now.phase is Finished,
{
}

/// Whether the event at that position is that the template for stdin was filled in, with the given
/// result.
pub open spec fn pipes<E>(course: JobCourse<E>, i: int, stdin: Seq<char>) -> bool {
    &&& course.actions[i] is RenderStdin
    &&& course.events[i] matches JobEvent::Rendered(Ok(s))
    &&& s@ == stdin
}

/// Whether the event at that position is that the template for the environment variable at `j` was
/// filled in, with the given result.
pub open spec fn sets<E>(course: JobCourse<E>, i: int, j: int, value: Seq<char>) -> bool {
    &&& course.actions[i] matches JobAction::RenderEnv(at)
    &&& at == j
    &&& course.events[i] matches JobEvent::Rendered(Ok(v))
    &&& v@ == value
}

/// Whether one of the first `n` events gave what is piped.
pub open spec fn piped<E>(course: JobCourse<E>, n: int, stdin: Seq<char>) -> bool {
    exists|i: int| 0 <= i < n && #[trigger] pipes(course, i, stdin)
}

/// Whether one of the first `n` events gave the value of the environment variable at `j`.
pub open spec fn is_set<E>(course: JobCourse<E>, n: int, j: int, value: Seq<char>) -> bool {
    exists|i: int| 0 <= i < n && #[trigger] sets(course, i, j, value)
}

proof fn lemma_rendered_values<E>(step: Step, course: JobCourse<E>, n: int)
    requires
        course.is_course(step),
        0 <= n <= course.events.len(),
    ensures
        match course.jobs[n].phase {
            JobPhase::RenderingStdin => course.actions[n] is RenderStdin && step.stdin is Some,
            JobPhase::RenderingEnv(i) => course.actions[n] == JobAction::<E>::RenderEnv(i)
                && course.jobs[n].env@.len() == i,
            _ => true,
        },
        course.jobs[n].phase is RenderingEnv || course.jobs[n].phase is Executing ==> {
            &&& course.jobs[n].stdin is Some <==> step.stdin is Some
            &&& step.stdin is Some ==> piped(course, n, course.jobs[n].stdin->0@)
            &&& forall|j: int|
                0 <= j < course.jobs[n].env@.len() ==> is_set(
                    course,
                    n,
                    j,
                    (#[trigger] course.jobs[n].env@[j])@,
                )
        },
    decreases n,
{
    if n > 0 {
        lemma_rendered_values(step, course, n - 1);
        assert(course.takes(step, n - 1));
        let before = course.jobs[n - 1];
        let now = course.jobs[n];
        if now.phase is RenderingEnv || now.phase is Executing {
            if step.stdin is Some {
                let stdin = now.stdin->0@;
                if before.phase is RenderingStdin {
                    assert(pipes(course, n - 1, stdin));
                } else {
                    let i = choose|i: int| 0 <= i < n - 1 && #[trigger] pipes(course, i, stdin);
                    assert(pipes(course, i, stdin));
                }
            }
            assert forall|j: int| 0 <= j < now.env@.len() implies is_set(
                course,
                n,
                j,
                (#[trigger] now.env@[j])@,
            ) by {
                assert(text::texts(now.env@)[j] == now.env@[j]@);
                let value = now.env@[j]@;
                if j < before.env@.len() {
                    assert(text::texts(before.env@)[j] == before.env@[j]@);
                    assert(before.env@[j]@ == value);
                    let i = choose|i: int| 0 <= i < n - 1 && #[trigger] sets(course, i, j, value);
                    assert(sets(course, i, j, value));
                } else {
                    assert(sets(course, n - 1, j, value));
                }
            }
        }
    }
}

/// What is piped to the command of a job is what the template for stdin was rendered to, and
/// nothing is piped where the step has no such template. The command gets the environment variables
/// of the step in their order, each with what its own template was rendered to.
pub proof fn command_gets_what_was_rendered<E>(step: Step, course: JobCourse<E>, k: int)
    requires
        course.is_course(step),
        0 <= k < course.actions.len(),
        course.actions[k] is Execute,
    ensures
        course.actions[k] matches JobAction::Execute(cmd) && {
            &&& step.stdin is None ==> cmd.stdin is None
            &&& step.stdin is Some ==> cmd.stdin is Some && piped(course, k, cmd.stdin->0@)
            &&& cmd.env@.len() == step.env.entries().len()
            &&& forall|j: int|
                0 <= j < cmd.env@.len() ==> (#[trigger] cmd.env@[j]).0@ == step.env.entries()[j].0
                    && is_set(course, k, j, cmd.env@[j].1@)
        },
{
    crate::step::job_laws::lemma_course(step, course, k);
    lemma_rendered_values(step, course, k);
    if k > 0 {
        assert(course.takes(step, k - 1));
        if let JobAction::Execute(cmd) = course.actions[k] {
            assert forall|j: int| 0 <= j < cmd.env@.len() implies (#[trigger] cmd.env@[j]).0@
                == step.env.entries()[j].0 && is_set(course, k, j, cmd.env@[j].1@) by {
                assert(cmd.env@[j].1@ == course.jobs[k].env@[j]@);
            }
        }
    }
}

/// What is said of a failure besides its error is the command that failed, or what is wrong with
/// the step; of an outside failure, and of a check that found issues, nothing more is said.
pub proof fn failure_is_told_by_its_command<E>(
    error: E,
    run: String,
    step: String,
    stdout: String,
    stderr: String,
)
    ensures
        JobFailure::Outside(error).context_text() is None,
        (JobFailure::<E>::CheckListFailed { error, stdout, stderr }).context_text() is None,
        (JobFailure::<E>::Command { error, run }).context_text() == Some(run@),
        (JobFailure::<E>::Render { error, step }).context_text() == Some(
            step@ + ": failed to render command template"@,
        ),
        JobFailure::<E>::Step(StepError::NoRunCommand(step)).context_text() == Some(
            step@ + ": no run command"@,
        ),
{
}

} // verus!
