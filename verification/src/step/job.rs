//! The course of a job: one command of a step over some files.
use crate::path::{self, FilePath};
use crate::skip::SkipReason;
use crate::step::runner::{self, CommandLine, StepError};
use crate::step::types::{Pattern, Platform, RunType, Script, Step};
use crate::text;
use vstd::prelude::*;

verus! {

/// How a job runs its step.
#[derive(Clone, Copy, Debug, PartialEq, Eq, Structural)]
pub struct JobMode {
    /// Whether it only checks, before a job that fixes.
    pub check_first: bool,
    pub run_type: RunType,
}

/// What a command wrote.
#[derive(Clone, Debug, PartialEq, Eq)]
pub struct CmdOutput {
    pub stdout: String,
    pub stderr: String,
    /// Both, interleaved.
    pub combined: String,
}

/// What a condition came to.
#[derive(Clone, Copy, Debug, PartialEq, Eq, Structural)]
pub enum ConditionValue {
    Bool(bool),
    /// A value that is no truth value.
    Other,
}

/// What templates know the pattern of a step as.
#[derive(Clone, Debug, PartialEq, Eq)]
pub enum TemplateGlobs {
    /// A list of glob patterns.
    List(Vec<String>),
    /// A regular expression.
    Text(String),
}

/// A command with all that it is started with.
#[derive(Clone, Debug, PartialEq, Eq)]
pub struct JobCommand {
    pub line: CommandLine,
    pub stdin: Option<String>,
    pub dir: Option<String>,
    /// Environment variables with their values, in order.
    pub env: Vec<(String, String)>,
    pub interactive: bool,
}

/// Why a job failed.
#[derive(Debug)]
pub enum JobFailure<E> {
    /// Something that the job needed failed.
    Outside(E),
    /// The template of the command of the step, which is named, could not be rendered.
    Render { error: E, step: String },
    /// The step is at fault.
    Step(StepError),
    /// The command that checks before fixing found issues.
    CheckListFailed { error: E, stdout: String, stderr: String },
    /// The command failed.
    Command { error: E, run: String },
}

/// What came of a command.
#[derive(Debug)]
pub enum ExecOutcome<E> {
    Success(CmdOutput),
    /// The command ran and failed.
    ScriptFailed { output: CmdOutput, error: E },
    /// The command could not be run.
    Error(E),
}

/// What a job waits for.
#[derive(Clone, Copy, Debug, PartialEq, Eq, Structural)]
pub enum JobPhase {
    EvaluatingCondition,
    AskingProfile,
    RetainingFiles,
    Starting,
    RenderingRun,
    Announcing,
    RenderingStdin,
    /// Which environment variable is rendered.
    RenderingEnv(usize),
    Executing,
    /// The step is being skipped, or its job counted as done.
    Finishing,
    Finished,
}

/// What came of what a job asked for.
#[derive(Debug)]
pub enum JobEvent<E> {
    /// The value of the condition.
    Condition(Result<ConditionValue, E>),
    /// Why the profiles rule the step out, if they do.
    Profile(Option<SkipReason>),
    /// What was asked for was done, or failed.
    Done(Result<(), E>),
    /// What cannot fail was done.
    Ack,
    /// For each file of the job whether it still exists; a link that leads nowhere does.
    Exist(Vec<bool>),
    /// A template with its variables filled in.
    Rendered(Result<String, E>),
    /// The command was run.
    Executed(ExecOutcome<E>),
}

/// What to do next in a job.
#[derive(Debug)]
pub enum JobAction<E> {
    /// Hide the job and return: the hook has failed already.
    Leave,
    /// Evaluate the condition of the step.
    EvaluateCondition,
    /// Find whether the profiles rule the step out.
    AskProfile,
    /// Mark the step as skipped.
    Skip(SkipReason),
    /// Find which files of the job still exist.
    RetainFiles,
    /// Show the job, wait for its turn and start it.
    Start,
    /// Fill in the template of the command.
    RenderRun(String),
    /// Show the message.
    Announce(String),
    /// Fill in the template for stdin.
    RenderStdin,
    /// Fill in the template for the environment variable at that position.
    RenderEnv(usize),
    /// Run the command.
    Execute(JobCommand),
    /// Keep the output for the summary and count the job as done; warn first where the command
    /// listed files though it succeeded.
    Succeed { written: CmdOutput, warn: bool },
    /// Keep the output, if there is one, suggest a fix for it, show the step as failed, or as
    /// a warning, and return the failure.
    Fail { output: Option<CmdOutput>, as_warning: bool, failure: JobFailure<E> },
    /// Return.
    Finish(Result<(), JobFailure<E>>),
    /// Nothing: the event cannot come now.
    Refuse,
}

/// A job of a step.
#[derive(Debug)]
pub struct JobRun {
    pub mode: JobMode,
    pub platform: Platform,
    /// Whether the step picks its files.
    pub has_filters: bool,
    /// The files that the job works on.
    pub files: Vec<FilePath>,
    pub phase: JobPhase,
    /// The command, once it is rendered.
    pub run: String,
    /// What to pipe to the command, once it is rendered.
    pub stdin: Option<String>,
    /// The values of the environment variables that are rendered.
    pub env: Vec<String>,
}

/// The script that a job runs.
pub open spec fn job_script(step: Step, mode: JobMode) -> Option<Script> {
    if mode.check_first {
        step.check_first_script()
    } else {
        step.script_for(mode.run_type)
    }
}

/// A command with the prefix of its step.
pub open spec fn prefixed(step: Step, command: Seq<char>) -> Seq<char> {
    match step.prefix {
        Some(p) => p@ + " "@ + command,
        None => command,
    }
}

/// How the pattern of a step is shown.
pub open spec fn pattern_text(pattern: Option<Pattern>) -> Seq<char> {
    match pattern {
        Some(Pattern::Globs(g)) => text::join(text::texts(g@), " "@),
        Some(Pattern::Regex { _type: _, pattern }) => "regex: "@ + pattern@,
        None => Seq::empty(),
    }
}

/// How a number of files is shown.
pub open spec fn files_text(n: nat) -> Seq<char> {
    text::decimal(n) + " file"@ + (if n == 1 {
        Seq::empty()
    } else {
        "s"@
    })
}

/// The message that is shown for a job.
pub open spec fn job_text(files: nat, pattern: Option<Pattern>, run: Seq<char>) -> Seq<char> {
    files_text(files) + " – "@ + pattern_text(pattern) + " – "@ + run
}

/// Whether a script is there and holds the same commands as another.
pub open spec fn is_script(script: Option<Script>, other: Option<Script>) -> bool {
    script is Some && other is Some && script->0.same_as(other->0)
}

/// Whether the job lists the files that need fixes.
pub open spec fn lists_files(step: Step, mode: JobMode) -> bool {
    is_script(job_script(step, mode), step.check_list_files)
}

/// Whether the job prints the needed changes as a diff.
pub open spec fn prints_diff(step: Step, mode: JobMode) -> bool {
    is_script(job_script(step, mode), step.check_diff)
}

/// Whether the shell setting of a step, where it has one, names a program.
pub open spec fn shell_is_usable(step: Step, platform: Platform) -> bool {
    step.shell is Some ==> text::words(step.shell_text(platform)).len() > 0
}

/// Whether a command line runs a command in the shell of a step.
pub open spec fn runs_in_shell(
    line: CommandLine,
    step: Step,
    platform: Platform,
    run: Seq<char>,
) -> bool {
    if step.shell is Some {
        let words = text::words(step.shell_text(platform));
        line.program@ == words[0] && text::texts(line.args@) == words.drop_first().push(run)
    } else {
        runner::is_default_line(line, run, platform)
    }
}

/// Whether variables are those of a step, in order, with the given values.
pub open spec fn is_job_env(env: Seq<(String, String)>, step: Step, values: Seq<String>) -> bool {
    &&& env.len() == step.env.entries().len()
    &&& env.len() == values.len()
    &&& forall|i: int|
        0 <= i < env.len() ==> (#[trigger] env[i]).0@ == step.env.entries()[i].0 && env[i].1@
            == values[i]@
}

/// Whether a command is what a job runs, given what was rendered.
pub open spec fn is_job_command(
    cmd: JobCommand,
    step: Step,
    platform: Platform,
    run: Seq<char>,
    stdin: Option<Seq<char>>,
    values: Seq<String>,
) -> bool {
    &&& runs_in_shell(cmd.line, step, platform, run)
    &&& crate::step::types::opt_text(cmd.stdin) == stdin
    &&& crate::step::types::opt_text(cmd.dir) == crate::step::types::opt_text(step.dir)
    &&& is_job_env(cmd.env@, step, values)
    &&& cmd.interactive == step.interactive
}

/// The message that is shown for a job.
pub fn job_message(files: usize, pattern: &Option<Pattern>, run: &str) -> (r: String)
    ensures
        r@ == job_text(files as nat, *pattern, run@),
{
    let mut r = text::decimal_text(files as u64);
    r.append(" file");
    if files != 1 {
        r.append("s");
    }
    assert(r@ =~= files_text(files as nat));
    r.append(" – ");
    match pattern {
        Some(Pattern::Globs(g)) => {
            r.append(text::joined(g, " ").as_str());
        },
        Some(Pattern::Regex { _type: _, pattern }) => {
            r.append("regex: ");
            r.append(pattern.as_str());
        },
        None => {},
    }
    assert(r@ =~= files_text(files as nat) + " – "@ + pattern_text(*pattern));
    r.append(" – ");
    r.append(run);
    r
}

/// The files that still exist, in their order.
pub fn existing_files(files: &Vec<FilePath>, exists: &Vec<bool>) -> (r: Vec<FilePath>)
    requires
        exists@.len() == files@.len(),
    ensures
        path::views(r@) == path::flagged(path::views(files@), exists@),
{
    let ghost all = path::views(files@);
    let mut r: Vec<FilePath> = Vec::new();
    let mut i: usize = 0;
    assert(path::views(r@) =~= path::flagged(all.take(0), exists@.take(0)));
    while i < files.len()
        invariant
            i <= files@.len(),
            exists@.len() == files@.len(),
            all == path::views(files@),
            path::views(r@) == path::flagged(all.take(i as int), exists@.take(i as int)),
        decreases files@.len() - i,
    {
        proof {
            assert(all.take(i + 1).drop_last() =~= all.take(i as int));
            assert(exists@.take(i + 1).drop_last() =~= exists@.take(i as int));
        }
        let ghost before = r@;
        if exists[i] {
            r.push(files[i].copy());
            assert(path::views(r@) =~= path::views(before).push(all[i as int]));
        }
        i = i + 1;
    }
    assert(all.take(i as int) =~= all);
    assert(exists@.take(i as int) =~= exists@);
    r
}

impl Step {
    /// What templates know the pattern of the step as: nothing stands for an empty list.
    pub fn template_globs(&self) -> (r: TemplateGlobs)
        ensures
            match self.glob {
                Some(Pattern::Globs(g)) => r matches TemplateGlobs::List(l) && l@ == g@,
                Some(Pattern::Regex { _type: _, pattern }) => r matches TemplateGlobs::Text(t)
                    && t@ == pattern@,
                None => r matches TemplateGlobs::List(l) && l@.len() == 0,
            },
    {
        match &self.glob {
            Some(Pattern::Globs(g)) => TemplateGlobs::List(text::copied(g)),
            Some(Pattern::Regex { _type: _, pattern }) => TemplateGlobs::Text(pattern.clone()),
            None => TemplateGlobs::List(Vec::new()),
        }
    }

    fn job_cmd(&self, mode: JobMode) -> (r: Option<&Script>)
        ensures
            r is Some <==> job_script(*self, mode) is Some,
            r is Some ==> *r->0 == job_script(*self, mode)->0,
    {
        if mode.check_first {
            self.check_first_cmd()
        } else {
            self.run_cmd(mode.run_type)
        }
    }

    fn is_listing(&self, mode: JobMode) -> (b: bool)
        ensures
            b == lists_files(*self, mode),
    {
        match (self.job_cmd(mode), &self.check_list_files) {
            (Some(a), Some(b)) => a.is_same(b),
            _ => false,
        }
    }

    fn is_diffing(&self, mode: JobMode) -> (b: bool)
        ensures
            b == prints_diff(*self, mode),
    {
        match (self.job_cmd(mode), &self.check_diff) {
            (Some(a), Some(b)) => a.is_same(b),
            _ => false,
        }
    }

    /// The template of the command of a job, with the prefix of the step.
    pub fn command_template(&self, mode: JobMode, platform: Platform) -> (r: Option<String>)
        ensures
            r is Some <==> job_script(*self, mode) is Some,
            r is Some ==> r->0@ == prefixed(
                *self,
                job_script(*self, mode)->0.text_on(platform),
            ),
    {
        match self.job_cmd(mode) {
            None => None,
            Some(script) => {
                let run = script.to_text(platform);
                match &self.prefix {
                    Some(p) => Some(p.clone().concat(" ").concat(run.as_str())),
                    None => Some(run),
                }
            },
        }
    }

    /// Whether the shell setting of the step, where it has one, names a program.
    pub fn has_usable_shell(&self, platform: Platform) -> (b: bool)
        ensures
            b == shell_is_usable(*self, platform),
    {
        match &self.shell {
            Some(shell) => text::split_words(shell.to_text(platform).as_str()).len() > 0,
            None => true,
        }
    }

    /// The command line that runs a command in the shell of the step.
    pub fn command_line(&self, platform: Platform, run: &str) -> (r: CommandLine)
        requires
            shell_is_usable(*self, platform),
        ensures
            runs_in_shell(r, *self, platform, run@),
    {
        match &self.shell {
            Some(shell) => {
                let shell = shell.to_text(platform);
                runner::shell_cmd(shell.as_str(), run)
            },
            None => runner::default_shell_cmd(run, platform),
        }
    }
}


impl<E> JobFailure<E> {
    /// What is said of the failure besides the error that caused it.
    pub open spec fn context_text(self) -> Option<Seq<char>> {
        match self {
            JobFailure::Render { error: _, step } => Some(
                step@ + ": failed to render command template"@,
            ),
            JobFailure::Step(e) => Some(e.text()),
            JobFailure::Command { error: _, run } => Some(run@),
            _ => None,
        }
    }

    /// What is said of the failure besides the error that caused it.
    pub fn context(&self) -> (r: Option<String>)
        ensures
            crate::step::types::opt_text(r) == self.context_text(),
    {
        match self {
            JobFailure::Render { error: _, step } => Some(
                step.clone().concat(": failed to render command template"),
            ),
            JobFailure::Step(e) => Some(e.message()),
            JobFailure::Command { error: _, run } => Some(run.clone()),
            _ => None,
        }
    }
}

impl JobRun {
    /// The same job, waiting for something else.
    pub open spec fn in_phase(self, phase: JobPhase) -> JobRun {
        JobRun { phase, ..self }
    }

    /// Whether nothing has been done for the job yet.
    pub open spec fn is_new(self, mode: JobMode, platform: Platform, has_filters: bool) -> bool {
        &&& self.mode == mode
        &&& self.platform == platform
        &&& self.has_filters == has_filters
        &&& self.stdin is None
        &&& self.env@.len() == 0
    }

    /// Whether the job of a step begins with the action; `failed` is whether the hook has failed.
    pub open spec fn begins<E>(self, step: Step, failed: bool, action: JobAction<E>) -> bool {
        if failed {
            &&& self.phase == JobPhase::Finished
            &&& action == JobAction::<E>::Leave
        } else if step.job_condition is Some {
            &&& self.phase == JobPhase::EvaluatingCondition
            &&& action == JobAction::<E>::EvaluateCondition
        } else {
            &&& self.phase == JobPhase::AskingProfile
            &&& action == JobAction::<E>::AskProfile
        }
    }

    /// Whether the next event can make the job build its command.
    pub open spec fn builds_command(self) -> bool {
        self.phase is Announcing || self.phase is RenderingStdin || self.phase is RenderingEnv
    }

    /// Whether the values that are rendered so far are those before the one that is waited for.
    pub open spec fn well_formed(self, step: Step) -> bool {
        self.phase matches JobPhase::RenderingEnv(i) ==> self.env@.len() == i && i
            < step.env.entries().len()
    }

    /// Whether `now` and `action` are how the job goes on once the values of the environment
    /// variables are rendered as far as they are given.
    pub open spec fn follows_env<E>(
        self,
        step: Step,
        stdin: Option<Seq<char>>,
        values: Seq<Seq<char>>,
        now: JobRun,
        action: JobAction<E>,
    ) -> bool {
        &&& now == JobRun { phase: now.phase, stdin: now.stdin, env: now.env, ..self }
        &&& crate::step::types::opt_text(now.stdin) == stdin
        &&& text::texts(now.env@) == values
        &&& if values.len() < step.env.entries().len() {
            &&& now.phase matches JobPhase::RenderingEnv(i)
            &&& i == values.len()
            &&& action == JobAction::<E>::RenderEnv(i)
        } else {
            &&& now.phase == JobPhase::Executing
            &&& action matches JobAction::Execute(cmd)
            &&& is_job_command(cmd, step, self.platform, self.run@, stdin, now.env@)
        }
    }

    /// Whether `now` and `action` are how the job of a step goes on by an event.
    pub open spec fn follows<E>(
        self,
        step: Step,
        event: JobEvent<E>,
        now: JobRun,
        action: JobAction<E>,
    ) -> bool {
        let over = self.in_phase(JobPhase::Finished);
        match (self.phase, event) {
            (JobPhase::EvaluatingCondition, JobEvent::Condition(Ok(v))) => if v
                == ConditionValue::Bool(true) {
                &&& now == self.in_phase(JobPhase::AskingProfile)
                &&& action == JobAction::<E>::AskProfile
            } else {
                &&& now == self.in_phase(JobPhase::Finishing)
                &&& action == JobAction::<E>::Skip(SkipReason::ConditionFalse)
            },
            (JobPhase::EvaluatingCondition, JobEvent::Condition(Err(e))) => {
                &&& now == over
                &&& action == JobAction::<E>::Finish(Err(JobFailure::Outside(e)))
            },
            (JobPhase::AskingProfile, JobEvent::Profile(Some(reason))) => {
                &&& now == self.in_phase(JobPhase::Finishing)
                &&& action == JobAction::<E>::Skip(reason)
            },
            (JobPhase::AskingProfile, JobEvent::Profile(None)) => {
                &&& now == self.in_phase(JobPhase::RetainingFiles)
                &&& action == JobAction::<E>::RetainFiles
            },
            (JobPhase::RetainingFiles, JobEvent::Exist(exists)) => if exists@.len()
                == self.files@.len() {
                &&& now == JobRun { phase: now.phase, files: now.files, ..self }
                &&& path::views(now.files@) == path::flagged(path::views(self.files@), exists@)
                &&& if now.files@.len() == 0 && self.has_filters {
                    &&& now.phase == JobPhase::Finishing
                    &&& action == JobAction::<E>::Skip(SkipReason::NoFilesToProcess)
                } else {
                    &&& now.phase == JobPhase::Starting
                    &&& action == JobAction::<E>::Start
                }
            } else {
                now == self && action == JobAction::<E>::Refuse
            },
            (JobPhase::Starting, JobEvent::Done(Err(e))) => {
                &&& now == over
                &&& action == JobAction::<E>::Finish(Err(JobFailure::Outside(e)))
            },
            (JobPhase::Starting, JobEvent::Done(Ok(_))) => match job_script(step, self.mode) {
                Some(script) => {
                    &&& now == self.in_phase(JobPhase::RenderingRun)
                    &&& action matches JobAction::RenderRun(t)
                    &&& t@ == prefixed(step, script.text_on(self.platform))
                },
                None => {
                    &&& now == over
                    &&& action matches JobAction::Finish(Err(JobFailure::Step(e)))
                    &&& e == StepError::NoRunCommand(step.name)
                },
            },
            (JobPhase::RenderingRun, JobEvent::Rendered(Err(e))) => {
                &&& now == over
                &&& action == JobAction::<E>::Finish(
                    Err(JobFailure::Render { error: e, step: step.name }),
                )
            },
            (JobPhase::RenderingRun, JobEvent::Rendered(Ok(run))) => {
                &&& now == JobRun { phase: JobPhase::Announcing, run, ..self }
                &&& action matches JobAction::Announce(t)
                &&& t@ == job_text(self.files@.len(), step.glob, run@)
            },
            (JobPhase::Announcing, JobEvent::Ack) => if step.stdin is Some {
                &&& now == self.in_phase(JobPhase::RenderingStdin)
                &&& action == JobAction::<E>::RenderStdin
            } else {
                self.follows_env(step, None, Seq::empty(), now, action)
            },
            (JobPhase::RenderingStdin, JobEvent::Rendered(Ok(stdin))) => self.follows_env(
                step,
                Some(stdin@),
                Seq::empty(),
                now,
                action,
            ),
            (JobPhase::RenderingStdin, JobEvent::Rendered(Err(e))) => {
                &&& now == over
                &&& action == JobAction::<E>::Finish(Err(JobFailure::Outside(e)))
            },
            (JobPhase::RenderingEnv(_), JobEvent::Rendered(Ok(value))) => self.follows_env(
                step,
                crate::step::types::opt_text(self.stdin),
                text::texts(self.env@).push(value@),
                now,
                action,
            ),
            (JobPhase::RenderingEnv(_), JobEvent::Rendered(Err(e))) => {
                &&& now == over
                &&& action == JobAction::<E>::Finish(Err(JobFailure::Outside(e)))
            },
            (JobPhase::Executing, JobEvent::Executed(outcome)) => self.follows_command(
                step,
                outcome,
                now,
                action,
            ),
            (JobPhase::Finishing, JobEvent::Done(Ok(_))) => {
                &&& now == over
                &&& action == JobAction::<E>::Finish(Ok(()))
            },
            (JobPhase::Finishing, JobEvent::Done(Err(e))) => {
                &&& now == over
                &&& action == JobAction::<E>::Finish(Err(JobFailure::Outside(e)))
            },
            _ => now == self && action == JobAction::<E>::Refuse,
        }
    }

    /// Whether `now` and `action` are how the job of a step goes on once its command was run.
    pub open spec fn follows_command<E>(
        self,
        step: Step,
        outcome: ExecOutcome<E>,
        now: JobRun,
        action: JobAction<E>,
    ) -> bool {
        let over = self.in_phase(JobPhase::Finished);
        let as_warning = self.mode.check_first && self.mode.run_type == RunType::Check;
        match outcome {
            ExecOutcome::Success(written) => {
                &&& now == self.in_phase(JobPhase::Finishing)
                &&& action == JobAction::<E>::Succeed {
                    written,
                    warn: lists_files(step, self.mode) && !text::is_blank(written.stdout@),
                }
            },
            ExecOutcome::ScriptFailed { output, error } => {
                &&& now == over
                &&& action == if self.mode.check_first && (lists_files(step, self.mode)
                    || prints_diff(step, self.mode)) {
                    JobAction::<E>::Finish(
                        Err(
                            JobFailure::CheckListFailed {
                                error,
                                stdout: output.stdout,
                                stderr: output.stderr,
                            },
                        ),
                    )
                } else {
                    JobAction::<E>::Fail {
                        output: Some(output),
                        as_warning,
                        failure: JobFailure::Command { error, run: self.run },
                    }
                }
            },
            ExecOutcome::Error(error) => {
                &&& now == over
                &&& action == JobAction::<E>::Fail {
                    output: None,
                    as_warning,
                    failure: JobFailure::Command { error, run: self.run },
                }
            },
        }
    }

    /// Starts a job, unless the hook has failed already.
    pub fn start<E>(
        step: &Step,
        mode: JobMode,
        platform: Platform,
        has_filters: bool,
        files: Vec<FilePath>,
        failed: bool,
    ) -> (r: (JobRun, JobAction<E>))
        ensures
            r.0.is_new(mode, platform, has_filters),
            r.0.files == files,
            r.0.begins(*step, failed, r.1),
    {
        let (phase, action) = if failed {
            (JobPhase::Finished, JobAction::Leave)
        } else if step.job_condition.is_some() {
            (JobPhase::EvaluatingCondition, JobAction::EvaluateCondition)
        } else {
            (JobPhase::AskingProfile, JobAction::AskProfile)
        };
        let run = String::new();
        let job = JobRun {
            mode,
            platform,
            has_filters,
            files,
            phase,
            run,
            stdin: None,
            env: Vec::new(),
        };
        (job, action)
    }

    fn enter<E>(self, phase: JobPhase, action: JobAction<E>) -> (r: (JobRun, JobAction<E>))
        ensures
            r.0 == self.in_phase(phase),
            r.1 == action,
    {
        let job = JobRun {
            mode: self.mode,
            platform: self.platform,
            has_filters: self.has_filters,
            files: self.files,
            phase,
            run: self.run,
            stdin: self.stdin,
            env: self.env,
        };
        (job, action)
    }

    fn fail<E>(self, failure: JobFailure<E>) -> (r: (JobRun, JobAction<E>))
        ensures
            r.0 == self.in_phase(JobPhase::Finished),
            r.1 == JobAction::<E>::Finish(Err(failure)),
    {
        self.enter(JobPhase::Finished, JobAction::Finish(Err(failure)))
    }

    fn with_env<E>(self, step: &Step, stdin: Option<String>, env: Vec<String>) -> (r: (
        JobRun,
        JobAction<E>,
    ))
        requires
            env@.len() <= step.env.entries().len(),
            shell_is_usable(*step, self.platform),
        ensures
            self.follows_env(
                *step,
                crate::step::types::opt_text(stdin),
                text::texts(env@),
                r.0,
                r.1,
            ),
            r.0.well_formed(*step),
    {
        let rendered: usize = env.len();
        let (phase, action) = if rendered < step.env.len() {
            (JobPhase::RenderingEnv(rendered), JobAction::RenderEnv(rendered))
        } else {
            let line = step.command_line(self.platform, self.run.as_str());
            let mut pairs: Vec<(String, String)> = Vec::new();
            let mut i: usize = 0;
            while i < rendered
                invariant
                    rendered == env@.len(),
                    rendered == step.env.entries().len(),
                    i <= rendered,
                    pairs@.len() == i,
                    forall|j: int|
                        0 <= j < i ==> (#[trigger] pairs@[j]).0@ == step.env.entries()[j].0
                            && pairs@[j].1@ == env@[j]@,
                decreases rendered - i,
            {
                pairs.push((step.env.key_at(i).clone(), env[i].clone()));
                i = i + 1;
            }
            let cmd = JobCommand {
                line,
                stdin: stdin.clone(),
                dir: step.dir.clone(),
                env: pairs,
                interactive: step.interactive,
            };
            (JobPhase::Executing, JobAction::Execute(cmd))
        };
        let job = JobRun {
            mode: self.mode,
            platform: self.platform,
            has_filters: self.has_filters,
            files: self.files,
            phase,
            run: self.run,
            stdin,
            env,
        };
        (job, action)
    }

    fn after_command<E>(self, step: &Step, outcome: ExecOutcome<E>) -> (r: (JobRun, JobAction<E>))
        ensures
            self.follows_command(*step, outcome, r.0, r.1),
    {
        let as_warning = self.mode.check_first && self.mode.run_type == RunType::Check;
        match outcome {
            ExecOutcome::Success(written) => {
                let warn = step.is_listing(self.mode) && !text::blank(written.stdout.as_str());
                self.enter(JobPhase::Finishing, JobAction::Succeed { written, warn })
            },
            ExecOutcome::ScriptFailed { output, error } => {
                if self.mode.check_first && (step.is_listing(self.mode) || step.is_diffing(
                    self.mode,
                )) {
                    self.fail(
                        JobFailure::CheckListFailed {
                            error,
                            stdout: output.stdout,
                            stderr: output.stderr,
                        },
                    )
                } else {
                    let run = self.run.clone();
                    self.enter(
                        JobPhase::Finished,
                        JobAction::Fail {
                            output: Some(output),
                            as_warning,
                            failure: JobFailure::Command { error, run },
                        },
                    )
                }
            },
            ExecOutcome::Error(error) => {
                let run = self.run.clone();
                self.enter(
                    JobPhase::Finished,
                    JobAction::Fail {
                        output: None,
                        as_warning,
                        failure: JobFailure::Command { error, run },
                    },
                )
            },
        }
    }

    /// Takes the job of a step on by an event, and says what to do next.
    pub fn step<E>(self, step: &Step, event: JobEvent<E>) -> (r: (JobRun, JobAction<E>))
        requires
            self.well_formed(*step),
            self.builds_command() ==> shell_is_usable(*step, self.platform),
        ensures
            self.follows(*step, event, r.0, r.1),
            r.0.well_formed(*step),
    {
        match (self.phase, event) {
            (JobPhase::EvaluatingCondition, JobEvent::Condition(Ok(v))) => {
                if v == ConditionValue::Bool(true) {
                    self.enter(JobPhase::AskingProfile, JobAction::AskProfile)
                } else {
                    self.enter(JobPhase::Finishing, JobAction::Skip(SkipReason::ConditionFalse))
                }
            },
            (JobPhase::EvaluatingCondition, JobEvent::Condition(Err(e))) => self.fail(
                JobFailure::Outside(e),
            ),
            (JobPhase::AskingProfile, JobEvent::Profile(Some(reason))) => self.enter(
                JobPhase::Finishing,
                JobAction::Skip(reason),
            ),
            (JobPhase::AskingProfile, JobEvent::Profile(None)) => self.enter(
                JobPhase::RetainingFiles,
                JobAction::RetainFiles,
            ),
            (JobPhase::RetainingFiles, JobEvent::Exist(exists)) => {
                if exists.len() != self.files.len() {
                    return (self, JobAction::Refuse);
                }
                let mut job = self;
                job.files = existing_files(&job.files, &exists);
                if job.files.len() == 0 && job.has_filters {
                    job.enter(JobPhase::Finishing, JobAction::Skip(SkipReason::NoFilesToProcess))
                } else {
                    job.enter(JobPhase::Starting, JobAction::Start)
                }
            },
            (JobPhase::Starting, JobEvent::Done(Err(e))) => self.fail(JobFailure::Outside(e)),
            (JobPhase::Starting, JobEvent::Done(Ok(_))) => {
                match step.command_template(self.mode, self.platform) {
                    Some(template) => self.enter(
                        JobPhase::RenderingRun,
                        JobAction::RenderRun(template),
                    ),
                    None => self.fail(JobFailure::Step(StepError::NoRunCommand(step.name.clone()))),
                }
            },
            (JobPhase::RenderingRun, JobEvent::Rendered(Err(e))) => self.fail(
                JobFailure::Render { error: e, step: step.name.clone() },
            ),
            (JobPhase::RenderingRun, JobEvent::Rendered(Ok(run))) => {
                let message = job_message(self.files.len(), &step.glob, run.as_str());
                let job = JobRun {
                    mode: self.mode,
                    platform: self.platform,
                    has_filters: self.has_filters,
                    files: self.files,
                    phase: JobPhase::Announcing,
                    run,
                    stdin: self.stdin,
                    env: self.env,
                };
                (job, JobAction::Announce(message))
            },
            (JobPhase::Announcing, JobEvent::Ack) => {
                if step.stdin.is_some() {
                    self.enter(JobPhase::RenderingStdin, JobAction::RenderStdin)
                } else {
                    let none: Vec<String> = Vec::new();
                    assert(text::texts(none@) =~= Seq::empty());
                    self.with_env(step, None, none)
                }
            },
            (JobPhase::RenderingStdin, JobEvent::Rendered(Ok(stdin))) => {
                let none: Vec<String> = Vec::new();
                assert(text::texts(none@) =~= Seq::empty());
                self.with_env(step, Some(stdin), none)
            },
            (JobPhase::RenderingStdin, JobEvent::Rendered(Err(e))) => self.fail(
                JobFailure::Outside(e),
            ),
            (JobPhase::RenderingEnv(_), JobEvent::Rendered(Ok(value))) => {
                let stdin = self.stdin.clone();
                let mut env = self.env.clone();
                env.push(value);
                assert(text::texts(env@) =~= text::texts(self.env@).push(value@));
                self.with_env(step, stdin, env)
            },
            (JobPhase::RenderingEnv(_), JobEvent::Rendered(Err(e))) => self.fail(
                JobFailure::Outside(e),
            ),
            (JobPhase::Executing, JobEvent::Executed(outcome)) => self.after_command(step, outcome),
            (JobPhase::Finishing, JobEvent::Done(Ok(_))) => self.enter(
                JobPhase::Finished,
                JobAction::Finish(Ok(())),
            ),
            (JobPhase::Finishing, JobEvent::Done(Err(e))) => self.fail(JobFailure::Outside(e)),
            _ => (self, JobAction::Refuse),
        }
    }
}

} // verus!
