use hk::component::PathStyle;
use hk::path::FilePath;
use hk::skip::SkipReason;
use hk::step::job::{
    existing_files, CmdOutput, ConditionValue, ExecOutcome, JobAction, JobEvent, JobFailure,
    JobMode, JobPhase, JobRun,
};
use hk::step::types::{Platform, RunType, Script, Step};

const CHECK: JobMode = JobMode { check_first: false, run_type: RunType::Check };
const CHECK_FIRST: JobMode = JobMode { check_first: true, run_type: RunType::Fix };

fn text(s: &str) -> String {
    s.to_string()
}

fn output(stdout: &str) -> CmdOutput {
    CmdOutput { stdout: text(stdout), stderr: text("err"), combined: text("both") }
}

fn linter() -> Step {
    let mut step = Step::default();
    step.name = text("lint");
    step.check = Some(Script::from_str("lint {{files}}"));
    step
}

type Event = JobEvent<&'static str>;
type Action = JobAction<&'static str>;

/// Three files.
fn files() -> Vec<FilePath> {
    let mut r = vec![];
    for s in vec!["a", "b", "c"] {
        r.push(FilePath::from_text(s, PathStyle::Unix));
    }
    r
}

fn shown(list: &Vec<FilePath>) -> Vec<String> {
    let mut r = vec![];
    for p in list {
        r.push(p.display());
    }
    r
}

fn start(step: &Step, mode: JobMode, has_filters: bool) -> (JobRun, Action) {
    JobRun::start(step, mode, Platform::Linux, has_filters, files(), false)
}

/// A job that has announced its command.
fn announced(step: &Step, mode: JobMode) -> JobRun {
    let (job, _) = start(step, mode, true);
    let (job, a) = job.step(step, Event::Profile(None));
    assert!(matches!(a, Action::RetainFiles));
    let (job, a) = job.step(step, Event::Exist(vec![true, false, true]));
    assert!(matches!(a, Action::Start));
    assert_eq!(shown(&job.files), vec!["a", "c"]);
    let (job, a) = job.step(step, Event::Done(Ok(())));
    assert!(matches!(a, Action::RenderRun(_)));
    let (job, a) = job.step(step, Event::Rendered(Ok(text("lint a c"))));
    match a {
        Action::Announce(m) => assert_eq!(m, "2 files –  – lint a c"),
        _ => panic!("no announcement"),
    }
    job
}

fn executing(step: &Step, mode: JobMode) -> JobRun {
    let (job, a) = announced(step, mode).step(step, Event::Ack);
    assert!(matches!(a, Action::Execute(_)));
    job
}

#[test]
fn job_runs_its_command() {
    let mut step = linter();
    step.prefix = Some(text("mise x --"));
    step.dir = Some(text("web"));
    step.stdin = Some(text("{{files}}"));
    step.env.insert(text("A"), text("{{a}}"));
    step.env.insert(text("B"), text("b"));
    let (job, a) = start(&step, CHECK, true);
    assert!(matches!(a, Action::AskProfile));
    let (job, _) = job.step(&step, Event::Profile(None));
    let (job, _) = job.step(&step, Event::Exist(vec![true, false, false]));
    let (job, a) = job.step(&step, Event::Done(Ok(())));
    match a {
        Action::RenderRun(t) => assert_eq!(t, "mise x -- lint {{files}}"),
        _ => panic!("no template"),
    }
    let (job, _) = job.step(&step, Event::Rendered(Ok(text("mise x -- lint a"))));
    let (job, a) = job.step(&step, Event::Ack);
    assert!(matches!(a, Action::RenderStdin));
    let (job, a) = job.step(&step, Event::Rendered(Ok(text("a"))));
    assert!(matches!(a, Action::RenderEnv(0)));
    let (job, a) = job.step(&step, Event::Rendered(Ok(text("1"))));
    assert!(matches!(a, Action::RenderEnv(1)));
    let (job, a) = job.step(&step, Event::Rendered(Ok(text("b"))));
    match a {
        Action::Execute(cmd) => {
            assert_eq!(cmd.line.program, "sh");
            assert_eq!(cmd.line.args, vec!["-o", "errexit", "-c", "mise x -- lint a"]);
            assert_eq!(cmd.stdin, Some(text("a")));
            assert_eq!(cmd.dir, Some(text("web")));
            assert_eq!(cmd.env, vec![(text("A"), text("1")), (text("B"), text("b"))]);
            assert!(!cmd.interactive);
        }
        _ => panic!("no command"),
    }
    let (job, a) = job.step(&step, Event::Executed(ExecOutcome::Success(output("x"))));
    match a {
        Action::Succeed { written, warn } => {
            assert_eq!(written, output("x"));
            assert!(!warn);
        }
        _ => panic!("no success"),
    }
    let (job, a) = job.step(&step, Event::Done(Ok(())));
    assert!(matches!(a, Action::Finish(Ok(()))));
    assert_eq!(job.phase, JobPhase::Finished);
}

#[test]
fn shell_of_the_step_runs_the_command() {
    let mut step = linter();
    step.shell = Some(Script::from_str("bash -c"));
    assert!(step.has_usable_shell(Platform::Linux));
    let (_, a) = announced(&step, CHECK).step(&step, Event::Ack);
    match a {
        Action::Execute(cmd) => {
            assert_eq!(cmd.line.program, "bash");
            assert_eq!(cmd.line.args, vec!["-c", "lint a c"]);
        }
        _ => panic!("no command"),
    }
    step.shell = Some(Script::from_str(" "));
    assert!(!step.has_usable_shell(Platform::Linux));
}

#[test]
fn failed_hook_leaves_the_job() {
    let step = linter();
    let (job, a): (JobRun, Action) = JobRun::start(&step, CHECK, Platform::Linux, true, files(), true);
    assert!(matches!(a, Action::Leave));
    let (_, a) = job.step(&step, Event::Ack);
    assert!(matches!(a, Action::Refuse));
}

#[test]
fn false_condition_skips_before_profiles() {
    let mut step = linter();
    step.job_condition = Some(text("false"));
    let (job, a) = start(&step, CHECK, true);
    assert!(matches!(a, Action::EvaluateCondition));
    let (job, a) = job.step(&step, Event::Condition(Ok(ConditionValue::Bool(false))));
    assert!(matches!(a, Action::Skip(SkipReason::ConditionFalse)));
    let (_, a) = job.step(&step, Event::Done(Err("dependency")));
    assert!(matches!(a, Action::Finish(Err(JobFailure::Outside("dependency")))));
}

#[test]
fn condition_has_to_be_true() {
    let mut step = linter();
    step.job_condition = Some(text("files"));
    let (job, _) = start(&step, CHECK, true);
    let (_, a) = job.step(&step, Event::Condition(Ok(ConditionValue::Bool(true))));
    assert!(matches!(a, Action::AskProfile));
    // A value that is no boolean is not true.
    let (job, _) = start(&step, CHECK, true);
    let (job, a) = job.step(&step, Event::Condition(Ok(ConditionValue::Other)));
    assert!(matches!(a, Action::Skip(SkipReason::ConditionFalse)));
    assert_eq!(job.phase, JobPhase::Finishing);
    let (job, _) = start(&step, CHECK, true);
    let (_, a) = job.step(&step, Event::Condition(Err("syntax")));
    assert!(matches!(a, Action::Finish(Err(JobFailure::Outside("syntax")))));
}

#[test]
fn profiles_skip_the_job() {
    let step = linter();
    let (job, _) = start(&step, CHECK, true);
    let (job, a) = job.step(&step, Event::Profile(Some(SkipReason::ProfileExplicitlyDisabled)));
    assert!(matches!(a, Action::Skip(SkipReason::ProfileExplicitlyDisabled)));
    let (_, a) = job.step(&step, Event::Done(Ok(())));
    assert!(matches!(a, Action::Finish(Ok(()))));
}

#[test]
fn job_without_files_is_skipped_where_the_step_picks_files() {
    let step = linter();
    let (job, _) = start(&step, CHECK, true);
    let (job, _) = job.step(&step, Event::Profile(None));
    let (_, a) = job.step(&step, Event::Exist(vec![false, false, false]));
    assert!(matches!(a, Action::Skip(SkipReason::NoFilesToProcess)));
    let (job, _) = start(&step, CHECK, false);
    let (job, _) = job.step(&step, Event::Profile(None));
    let (_, a) = job.step(&step, Event::Exist(vec![false, false, false]));
    assert!(matches!(a, Action::Start));
}

#[test]
fn job_needs_a_command() {
    let mut step = Step::default();
    step.name = text("lint");
    let (job, _) = start(&step, CHECK, false);
    let (job, _) = job.step(&step, Event::Profile(None));
    let (job, _) = job.step(&step, Event::Exist(vec![true, true, true]));
    let (_, a) = job.step(&step, Event::Done(Ok(())));
    match a {
        Action::Finish(Err(f)) => assert_eq!(f.context(), Some(text("lint: no run command"))),
        _ => panic!("no failure"),
    }
}

#[test]
fn failures_say_what_was_done() {
    let step = linter();
    let (job, _) = start(&step, CHECK, false);
    let (job, _) = job.step(&step, Event::Profile(None));
    let (job, _) = job.step(&step, Event::Exist(vec![true, true, true]));
    let (job, _) = job.step(&step, Event::Done(Ok(())));
    let (_, a) = job.step(&step, Event::Rendered(Err("template")));
    match a {
        Action::Finish(Err(f)) => {
            assert_eq!(f.context(), Some(text("lint: failed to render command template")))
        }
        _ => panic!("no failure"),
    }
    let job = executing(&step, CHECK);
    let (_, a) = job.step(&step, Event::Executed(ExecOutcome::Error("spawn")));
    match a {
        Action::Fail { output, as_warning, failure } => {
            assert!(output.is_none());
            assert!(!as_warning);
            assert_eq!(failure.context(), Some(text("lint a c")));
            assert!(matches!(failure, JobFailure::Command { error: "spawn", .. }));
        }
        _ => panic!("no failure"),
    }
}

#[test]
fn failed_command_keeps_its_output() {
    let step = linter();
    for (check_first, run_type, warned) in vec![
        (false, RunType::Check, false),
        (true, RunType::Check, true),
        (true, RunType::Fix, false),
    ] {
        let job = executing(&step, JobMode { check_first, run_type });
        let outcome = ExecOutcome::ScriptFailed { output: output("o"), error: "failed" };
        let (job, a) = job.step(&step, Event::Executed(outcome));
        match a {
            Action::Fail { output: kept, as_warning, failure: _ } => {
                assert_eq!(kept, Some(output("o")));
                assert_eq!(as_warning, warned);
            }
            _ => panic!("no failure"),
        }
        assert_eq!(job.phase, JobPhase::Finished);
    }
}

#[test]
fn found_issues_are_handed_on_when_checking_first() {
    for diff in vec![true, false] {
        let mut step = linter();
        step.check = None;
        if diff {
            step.check_diff = Some(Script::from_str("lint {{files}}"));
        } else {
            step.check_list_files = Some(Script::from_str("lint {{files}}"));
        }
        let outcome = ExecOutcome::ScriptFailed { output: output("a.rs"), error: "failed" };
        let job = executing(&step, CHECK_FIRST);
        let (_, a) = job.step(&step, Event::Executed(outcome));
        match a {
            Action::Finish(Err(JobFailure::CheckListFailed { error, stdout, stderr })) => {
                assert_eq!(error, "failed");
                assert_eq!(stdout, "a.rs");
                assert_eq!(stderr, "err");
            }
            _ => panic!("not handed on"),
        }
        // Without checking first it is a failure like any other.
        let outcome = ExecOutcome::ScriptFailed { output: output("a.rs"), error: "failed" };
        let job = executing(&step, CHECK);
        let (_, a) = job.step(&step, Event::Executed(outcome));
        assert!(matches!(a, Action::Fail { .. }));
    }
}

#[test]
fn listing_files_in_success_is_warned_of() {
    let mut step = linter();
    step.check = None;
    step.check_list_files = Some(Script::from_str("lint {{files}}"));
    for (stdout, warned) in vec![("a.rs\n", true), (" \n\t", false), ("", false)] {
        let job = executing(&step, CHECK);
        let (_, a) = job.step(&step, Event::Executed(ExecOutcome::Success(output(stdout))));
        match a {
            Action::Succeed { written: _, warn } => assert_eq!(warn, warned),
            _ => panic!("no success"),
        }
    }
}

#[test]
fn events_out_of_turn_are_refused() {
    let step = linter();
    let (job, _) = start(&step, CHECK, true);
    let (job, a) = job.step(&step, Event::Exist(vec![true, true, true]));
    assert!(matches!(a, Action::Refuse));
    assert_eq!(job.phase, JobPhase::AskingProfile);
}

#[test]
fn existing_files_stay_in_order() {
    assert_eq!(shown(&existing_files(&files(), &vec![true, false, true])), vec!["a", "c"]);
    assert_eq!(shown(&existing_files(&files(), &vec![false, true, false])), vec!["b"]);
    assert_eq!(existing_files(&files(), &vec![false, false, false]).len(), 0);
    assert_eq!(existing_files(&vec![], &vec![]).len(), 0);
}

#[test]
fn each_file_has_to_be_asked_for() {
    let step = linter();
    let (job, _) = start(&step, CHECK, true);
    let (job, _) = job.step(&step, Event::Profile(None));
    let (job, a) = job.step(&step, Event::Exist(vec![true, true]));
    assert!(matches!(a, Action::Refuse));
    assert_eq!(job.phase, JobPhase::RetainingFiles);
    assert_eq!(shown(&job.files), vec!["a", "b", "c"]);
}
