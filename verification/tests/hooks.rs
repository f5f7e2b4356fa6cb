use hk::hook::{
    can_exit_early, select_steps, Hook, StashArgument, StashMethod, StashSetting, StepGroup,
    StepJobs, StepOrGroup,
};
use hk::options::{Environment, HookOptions, RunPlan, Settings};
use hk::ordered_map::OrderedMap;
use hk::plan::{PlanAction, PlanEvent, PlanPhase, PlanRun};
use hk::run::{HookAction, HookEvent, HookPhase, HookRun, RunFailure};
use hk::skip::{skip_steps, SkipReason};
use hk::stats::{StatsAction, StatsEvent, StatsPhase, StatsRun};
use hk::step::types::{RunType, Script, Step};

fn text(s: &str) -> String {
    s.to_string()
}

fn texts(list: Vec<&str>) -> Vec<String> {
    let mut r = vec![];
    for s in list {
        r.push(text(s));
    }
    r
}

fn options() -> HookOptions {
    HookOptions {
        fail_fast: false,
        no_fail_fast: false,
        should_stage: None,
        fix: false,
        stash: None,
        step: vec![],
        skip_step: vec![],
        files: None,
        glob: None,
        from_ref: None,
        to_ref: None,
        all: false,
        exclude: None,
    }
}

fn settings() -> Settings {
    Settings {
        fail_fast: true,
        stage: None,
        skip_hooks: vec![],
        skip_steps: vec![],
        display_skip_reasons: vec![],
        warnings: vec![],
        hide_warnings: vec![],
        exclude: vec![],
    }
}

fn environment() -> Environment {
    Environment {
        fix: true,
        stash: None,
        stash_untracked: true,
        skip_steps: vec![],
        summary_text: false,
    }
}

fn step_with(command: &str) -> Step {
    let mut step = Step::default();
    step.check = Some(Script::from_str(command));
    step
}

fn group_of(names: Vec<&str>) -> StepGroup {
    let mut steps = OrderedMap::new();
    for n in names {
        let mut step = step_with("true");
        step.name = text(n);
        steps.insert(text(n), step);
    }
    StepGroup { name: None, steps }
}

#[test]
fn reasons_have_messages_and_keys() {
    let cases = vec![
        (
            SkipReason::DisabledByEnv(text("HK_SKIP_STEPS")),
            "skipped: disabled via HK_SKIP_STEPS",
            "disabled-by-env",
        ),
        (
            SkipReason::DisabledByCli(text("--skip-step a")),
            "skipped: disabled via --skip-step a",
            "disabled-by-cli",
        ),
        (
            SkipReason::DisabledByConfig,
            "skipped: disabled via skip configuration",
            "disabled-by-config",
        ),
        (
            SkipReason::ProfileNotEnabled(vec![]),
            "skipped: disabled by profile",
            "profile-not-enabled",
        ),
        (
            SkipReason::ProfileNotEnabled(texts(vec!["slow"])),
            "skipped: profile not enabled (slow)",
            "profile-not-enabled",
        ),
        (
            SkipReason::ProfileNotEnabled(texts(vec!["slow", "ci"])),
            "skipped: profiles not enabled (slow, ci)",
            "profile-not-enabled",
        ),
        (
            SkipReason::ProfileExplicitlyDisabled,
            "skipped: disabled by profile",
            "profile-explicitly-disabled",
        ),
        (
            SkipReason::NoCommandForRunType(RunType::Fix),
            "skipped: no command for run type",
            "no-command-for-run-type",
        ),
        (
            SkipReason::NoFilesToProcess,
            "skipped: no files to process",
            "no-files-to-process",
        ),
        (
            SkipReason::ConditionFalse,
            "skipped: condition is false",
            "condition-false",
        ),
    ];
    for (reason, message, key) in cases {
        assert_eq!(reason.message(), message);
        assert_eq!(reason.key(), key);
        assert!(reason.should_display(&texts(vec!["x", key])));
        assert!(!reason.should_display(&texts(vec!["x"])));
        assert_eq!(reason.copy(), reason);
    }
}

#[test]
fn command_line_wins_over_environment_and_configuration() {
    let m = skip_steps(
        &texts(vec!["a", "b", "a"]),
        &texts(vec!["b", "c"]),
        &texts(vec!["c", "a", "d"]),
    );
    assert_eq!(m.len(), 4);
    assert_eq!(m.key_at(0), "a");
    assert_eq!(m.value_at(0), &SkipReason::DisabledByCli(text("--skip-step a")));
    assert_eq!(m.key_at(1), "b");
    assert_eq!(m.value_at(1), &SkipReason::DisabledByEnv(text("HK_SKIP_STEPS")));
    assert_eq!(m.key_at(2), "c");
    assert_eq!(m.value_at(2), &SkipReason::DisabledByCli(text("--skip-step c")));
    assert_eq!(m.key_at(3), "d");
    let m = skip_steps(&vec![], &texts(vec!["c"]), &vec![]);
    assert_eq!(m.get("c"), Some(&SkipReason::DisabledByConfig));
    assert_eq!(m.get("a"), None);
}

#[test]
fn hook_hands_its_environment_to_steps() {
    let mut hook = Hook::default();
    hook.env.insert(text("A"), text("hook"));
    hook.env.insert(text("B"), text("hook"));
    let mut step = step_with("true");
    step.env.insert(text("B"), text("step"));
    hook.steps.insert(text("one"), StepOrGroup::Step(Box::new(step)));
    hook.steps.insert(text("two"), StepOrGroup::Group(Box::new(group_of(vec!["x"]))));
    assert!(hook.init("pre-commit").is_ok());
    assert_eq!(hook.name, "pre-commit");
    match hook.steps.get("one") {
        Some(StepOrGroup::Step(s)) => {
            assert_eq!(s.name, "one");
            assert_eq!(s.env.get("A"), Some(&text("hook")));
            assert_eq!(s.env.get("B"), Some(&text("step")));
        }
        _ => panic!("no step"),
    }
    match hook.steps.get("two") {
        Some(StepOrGroup::Group(g)) => {
            assert_eq!(g.name, Some(text("two")));
            assert_eq!(g.steps.get("x").unwrap().env.get("A"), Some(&text("hook")));
        }
        _ => panic!("no group"),
    }
}

#[test]
fn initialising_twice_changes_no_environment() {
    let mut hook = Hook::default();
    hook.env.insert(text("A"), text("hook"));
    let mut step = step_with("true");
    step.env.insert(text("B"), text("step"));
    hook.steps.insert(text("one"), StepOrGroup::Step(Box::new(step)));
    assert!(hook.init("check").is_ok());
    assert!(hook.init("check").is_ok());
    match hook.steps.get("one") {
        Some(StepOrGroup::Step(s)) => {
            assert_eq!(s.env.len(), 2);
            assert_eq!(s.env.key_at(0), "B");
            assert_eq!(s.env.key_at(1), "A");
        }
        _ => panic!("no step"),
    }
}

#[test]
fn hook_refuses_contradictory_steps() {
    let mut hook = Hook::default();
    let mut bad = step_with("true");
    bad.stdin = Some(text("x"));
    bad.interactive = true;
    hook.steps.insert(text("bad"), StepOrGroup::Step(Box::new(bad)));
    let err = hook.init("check").unwrap_err();
    assert_eq!(
        err.message(),
        "Step 'bad' can't have both `stdin` and `interactive = true`."
    );
}

#[test]
fn mode_depends_on_hook_environment_and_options() {
    let mut hook = Hook::default();
    hook.name = text("fix");
    assert_eq!(hook.run_type(false, true), RunType::Fix);
    assert_eq!(hook.run_type(false, false), RunType::Check);
    assert_eq!(hook.run_type(true, false), RunType::Fix);
    hook.fix = Some(false);
    assert_eq!(hook.run_type(false, true), RunType::Check);
    hook.name = text("pre-commit");
    hook.fix = None;
    assert_eq!(hook.run_type(false, true), RunType::Check);
    hook.fix = Some(true);
    assert_eq!(hook.run_type(false, true), RunType::Fix);
}

#[test]
fn stashing_is_settled_by_precedence() {
    let mut hook = Hook::default();
    assert_eq!(hook.stash_method(None, None), StashMethod::NoStash);
    hook.stash = Some(StashSetting::Bool(true));
    assert_eq!(hook.stash_method(None, None), StashMethod::Git);
    hook.stash = Some(StashSetting::Bool(false));
    assert_eq!(hook.resolve_stash_method(None), StashMethod::NoStash);
    hook.stash = Some(StashSetting::Method(StashMethod::PatchFile));
    assert_eq!(hook.resolve_stash_method(None), StashMethod::PatchFile);
    assert_eq!(hook.resolve_stash_method(Some(StashMethod::NoStash)), StashMethod::NoStash);
    assert_eq!(
        hook.stash_method(Some(StashArgument::Method(StashMethod::Git)), Some(StashMethod::NoStash)),
        StashMethod::Git
    );
    assert_eq!(
        hook.stash_method(Some(StashArgument::Unknown), Some(StashMethod::Git)),
        StashMethod::NoStash
    );
}

#[test]
fn named_steps_are_selected() {
    let mut steps = OrderedMap::new();
    let mut one = step_with("true");
    one.name = text("one");
    steps.insert(text("one"), StepOrGroup::Step(Box::new(one)));
    steps.insert(text("g"), StepOrGroup::Group(Box::new(group_of(vec!["a", "b", "c"]))));
    let all = select_steps(steps.clone(), &vec![]);
    assert_eq!(all.len(), 2);
    let some = select_steps(steps, &texts(vec!["c", "a"]));
    assert_eq!(some.len(), 1);
    match &some[0] {
        StepOrGroup::Group(g) => {
            assert_eq!(g.steps.len(), 2);
            assert_eq!(g.steps.key_at(0), "a");
            assert_eq!(g.steps.key_at(1), "c");
        }
        _ => panic!("no group"),
    }
}

#[test]
fn run_can_stop_where_all_jobs_are_skipped() {
    assert!(can_exit_early(&vec![]));
    assert!(can_exit_early(&vec![vec![StepJobs::Built(vec![true, true]), StepJobs::Built(vec![])]]));
    assert!(!can_exit_early(&vec![vec![StepJobs::Built(vec![true])], vec![StepJobs::Built(
        vec![true, false]
    )]]));
    assert!(!can_exit_early(&vec![vec![StepJobs::Failed]]));
}

#[test]
fn plan_follows_options_then_settings_then_hook() {
    let mut hook = Hook::default();
    hook.name = text("pre-commit");
    hook.stage = Some(false);
    let plan = hook.plan_run(&options(), &settings(), &environment(), 2).unwrap();
    assert!(plan.fail_fast);
    assert!(!plan.should_stage);
    assert_eq!(plan.run_type, RunType::Check);
    assert_eq!(plan.stash_method, StashMethod::NoStash);
    assert!(plan.stash_untracked);
    assert_eq!(plan.groups, 2);
    let mut opts = options();
    opts.no_fail_fast = true;
    let mut set = settings();
    set.stage = Some(true);
    let plan = hook.plan_run(&opts, &set, &environment(), 2).unwrap();
    assert!(!plan.fail_fast);
    assert!(plan.should_stage);
    opts.fail_fast = true;
    opts.should_stage = Some(false);
    let plan = hook.plan_run(&opts, &set, &environment(), 2).unwrap();
    assert!(plan.fail_fast);
    assert!(!plan.should_stage);
    hook.stage = None;
    assert!(hook.plan_run(&options(), &settings(), &environment(), 0).unwrap().should_stage);
    set.skip_hooks = texts(vec!["pre-commit"]);
    assert!(hook.plan_run(&options(), &set, &environment(), 2).is_none());
    let skipped: Option<(HookRun<&str>, HookAction<&str>)> =
        hook.run(&options(), &set, &environment(), 2);
    assert!(skipped.is_none());
}

type Event = HookEvent<&'static str>;
type Action = HookAction<&'static str>;
type Run = HookRun<&'static str>;

fn plan(fail_fast: bool, fail_on_fix: bool, stash_method: StashMethod, groups: usize) -> RunPlan {
    RunPlan {
        fail_fast,
        should_stage: true,
        run_type: RunType::Fix,
        stash_method,
        stash_untracked: false,
        fail_on_fix,
        groups,
    }
}

/// A run whose status is read: there are unstaged changes or not.
fn with_status(plan: RunPlan, unstaged: bool, untracked: bool) -> Run {
    let (run, a) = Run::start(plan);
    assert_eq!(a, Action::OpenRepo);
    let (run, a) = run.step(Event::Done(Ok(())));
    assert_eq!(a, Action::ReadStatus);
    let (run, a) = run.step(Event::Status(Ok((unstaged, untracked))));
    assert_eq!(a, Action::ListFiles);
    run
}

#[test]
fn run_goes_through_all_groups() {
    let run = with_status(plan(false, true, StashMethod::Git, 2), true, false);
    let (run, a) = run.step(Event::Files(Ok(3)));
    assert_eq!(a, Action::CaptureIndex);
    let (run, a) = run.step(Event::Done(Ok(())));
    assert_eq!(a, Action::StashUnstaged(StashMethod::Git));
    let (run, a) = run.step(Event::Done(Ok(())));
    assert_eq!(a, Action::TakeSnapshot);
    let (run, a) = run.step(Event::Ack);
    assert_eq!(a, Action::RunGroup(0));
    let (run, a) = run.step(Event::Done(Ok(())));
    assert_eq!(a, Action::RunGroup(1));
    let (run, a) = run.step(Event::Done(Ok(())));
    assert_eq!(a, Action::CompareSnapshot);
    let (run, a) = run.step(Event::Modified(true));
    assert_eq!(a, Action::PopStash { succeeded: false });
    let (run, a) = run.step(Event::Done(Ok(())));
    assert_eq!(a, Action::Complete(Err(RunFailure::FilesModified)));
    let failure: RunFailure<&'static str> = RunFailure::FilesModified;
    assert_eq!(
        failure.message(),
        Some("fail_on_fix: files were modified by fix commands".to_string())
    );
    assert_eq!(RunFailure::Outside("git").message(), None);
    assert_eq!(run.phase, HookPhase::Finished);
    let (_, a) = run.step(Event::Ack);
    assert_eq!(a, Action::Refuse);
}

#[test]
fn run_stops_at_the_first_failure_where_wanted() {
    let run = with_status(plan(true, false, StashMethod::NoStash, 3), true, true);
    let (run, a) = run.step(Event::Files(Ok(3)));
    assert_eq!(a, Action::RunGroup(0));
    let (run, a) = run.step(Event::Done(Err("first")));
    assert_eq!(a, Action::PopStash { succeeded: false });
    // Bringing changes back fails too, but the first failure counts.
    let (_, a) = run.step(Event::Done(Err("pop")));
    assert_eq!(a, Action::Complete(Err(RunFailure::Outside("first"))));
}

#[test]
fn run_goes_on_after_a_failure_where_wanted() {
    let run = with_status(plan(false, false, StashMethod::NoStash, 2), false, false);
    let (run, _) = run.step(Event::Files(Ok(1)));
    let (run, a) = run.step(Event::Done(Err("first")));
    assert_eq!(a, Action::RunGroup(1));
    let (run, _) = run.step(Event::Done(Err("second")));
    let (_, a) = run.step(Event::Done(Ok(())));
    assert_eq!(a, Action::Complete(Err(RunFailure::Outside("first"))));
}

#[test]
fn failing_to_bring_changes_back_fails_the_run() {
    let run = with_status(plan(false, false, StashMethod::NoStash, 1), false, false);
    let (run, _) = run.step(Event::Files(Ok(1)));
    let (run, a) = run.step(Event::Done(Ok(())));
    assert_eq!(a, Action::PopStash { succeeded: true });
    let (_, a) = run.step(Event::Done(Err("pop")));
    assert_eq!(a, Action::Complete(Err(RunFailure::Outside("pop"))));
}

#[test]
fn run_without_files_may_stop() {
    let run = with_status(plan(true, false, StashMethod::Git, 1), false, true);
    let (run, a) = run.step(Event::Files(Ok(0)));
    assert_eq!(a, Action::CheckJobs);
    let (_, a) = run.step(Event::Idle(true));
    assert_eq!(a, Action::StopWithoutFiles);
    let run = with_status(plan(true, false, StashMethod::Git, 0), false, true);
    let (run, _) = run.step(Event::Files(Ok(0)));
    let (run, a) = run.step(Event::Idle(false));
    // Untracked files alone are no reason to put something aside here.
    assert_eq!(a, Action::NoteNothingToStash);
    let (_, a) = run.step(Event::Ack);
    assert_eq!(a, Action::StopWithoutSteps);
}

#[test]
fn run_aborts_before_its_groups() {
    let (run, _) = Run::start(plan(true, false, StashMethod::Git, 1));
    let (_, a) = run.step(Event::Done(Err("open")));
    assert_eq!(a, Action::Abort("open"));
    let run = with_status(plan(true, false, StashMethod::Git, 1), true, false);
    let (run, _) = run.step(Event::Files(Ok(1)));
    let (_, a) = run.step(Event::Done(Err("index")));
    assert_eq!(a, Action::Abort("index"));
}

#[test]
fn planning_asks_each_group() {
    let mut hook = Hook::default();
    hook.stash = Some(StashSetting::Bool(true));
    type Event = PlanEvent<&'static str>;
    type Action = PlanAction<&'static str>;
    let (p, a): (PlanRun, Action) = hook.plan(&options(), &environment(), 2);
    assert_eq!(a, Action::OpenRepo);
    let (p, a) = p.step(Event::Done(Ok(())));
    assert_eq!(a, Action::ReadStatus);
    let (p, a) = p.step(Event::Done(Ok(())));
    assert_eq!(a, Action::ListFiles);
    let (stop, a) = p.step(Event::Files(Ok(0)));
    assert_eq!(a, Action::CheckJobs);
    assert_eq!(stop.step(Event::Idle(true)).1, Action::StopWithoutFiles);
    let (p, a) = p.step(Event::Files(Ok(1)));
    assert_eq!(a, Action::AnnounceStash);
    let (p, a) = p.step(Event::Ack);
    assert_eq!(a, Action::PlanGroup(0));
    assert_eq!(p.step(Event::Done(Err("group"))).1, Action::Finish(Err("group")));
    let (p, a) = p.step(Event::Done(Ok(())));
    assert_eq!(a, Action::PlanGroup(1));
    let (p, a) = p.step(Event::Done(Ok(())));
    assert_eq!(a, Action::Finish(Ok(())));
    assert_eq!(p.phase, PlanPhase::Finished);
    assert_eq!(p.step(Event::Ack).1, Action::Refuse);
}

#[test]
fn statistics_have_a_row_for_each_step() {
    type Event = StatsEvent<&'static str>;
    type Action = StatsAction<&'static str>;
    let mut first = group_of(vec!["off", "lint"]);
    let mut idle = Step::default();
    idle.name = text("idle");
    first.steps.insert(text("idle"), idle);
    let groups = vec![first, group_of(vec!["größe", "slow"])];
    let mut opts = options();
    opts.skip_step = texts(vec!["off"]);
    let hook = Hook::default();
    let (s, a): (StatsRun, Action) =
        hook.stats(&opts, &settings(), &environment(), &groups, "check");
    assert!(matches!(a, Action::OpenRepo));
    let (s, a) = s.step(Event::Done(Ok(())));
    assert!(matches!(a, Action::ReadStatus));
    let (s, a) = s.step(Event::Done(Ok(())));
    assert!(matches!(a, Action::ListFiles));
    let (s, a) = s.step(Event::Files(Ok(4)));
    match a {
        Action::PrintHeader { title, total, mode } => {
            assert_eq!(title, "Statistics for hook: check");
            assert_eq!(total, 4);
            assert_eq!(mode, "check");
        }
        _ => panic!("no header"),
    }
    // The first step is switched off, so the second is the first to be asked of.
    let (s, a) = s.step(Event::Ack);
    assert!(matches!(a, Action::AskProfile(1)));
    let (s, a) = s.step(Event::Profile(None));
    assert!(matches!(a, Action::CountFiles(1)));
    let (s, a) = s.step(Event::Counted(Ok(3)));
    assert!(matches!(a, Action::AskProfile(3)));
    let (s, _) = s.step(Event::Profile(None));
    let (s, a) = s.step(Event::Counted(Ok(0)));
    assert!(matches!(a, Action::AskProfile(4)));
    let (s, a) = s.step(Event::Profile(Some(SkipReason::ProfileNotEnabled(texts(vec!["slow"])))));
    // Two letters of the longest name take two bytes each.
    assert!(matches!(a, Action::PrintTable { width: 7 }));
    assert_eq!(s.phase, StatsPhase::Finished);
    assert_eq!(s.total, 4);
    let mut names = vec![];
    let mut notes = vec![];
    let mut counts = vec![];
    for row in &s.rows {
        names.push(row.name.clone());
        notes.push(row.note());
        counts.push(row.count);
    }
    assert_eq!(names, texts(vec!["off", "lint", "idle", "größe", "slow"]));
    assert_eq!(counts, vec![0, 3, 0, 0, 0]);
    assert_eq!(
        notes,
        vec![
            Some(text("(skipped: skipped: disabled via --skip-step off)")),
            None,
            Some(text("(skipped: skipped: no command for run type)")),
            None,
            Some(text("(skipped: skipped: profile not enabled (slow))")),
        ]
    );
}

#[test]
fn statistics_without_steps_or_with_errors_end() {
    type Event = StatsEvent<&'static str>;
    type Action = StatsAction<&'static str>;
    let to_header = |groups: &Vec<StepGroup>| {
        let hook = Hook::default();
        let (s, _): (StatsRun, Action) =
            hook.stats(&options(), &settings(), &environment(), groups, "check");
        let (s, _) = s.step(Event::Done(Ok(())));
        let (s, _) = s.step(Event::Done(Ok(())));
        s
    };
    let (s, _) = to_header(&vec![]).step(Event::Files(Ok(0)));
    let (_, a) = s.step(Event::Ack);
    match a {
        Action::PrintNothing(m) => assert_eq!(m, "No steps found in hook 'check'"),
        _ => panic!("steps"),
    }
    let (_, a) = to_header(&vec![]).step(Event::Files(Err("git")));
    assert!(matches!(a, Action::Abort("git")));
    let (s, _) = to_header(&vec![group_of(vec!["a"])]).step(Event::Files(Ok(0)));
    let (s, _) = s.step(Event::Ack);
    let (s, _) = s.step(Event::Profile(None));
    let (_, a) = s.step(Event::Counted(Err("glob")));
    assert!(matches!(a, Action::Abort("glob")));
}

#[test]
fn statistics_list_files_as_a_run_would() {
    let mut opts = options();
    let mut hook = Hook::default();
    hook.stash = Some(StashSetting::Method(StashMethod::PatchFile));
    let mut env = environment();
    env.stash = None;
    let groups = vec![];
    let method = |hook: &Hook, opts: &HookOptions, env: &Environment| {
        let (run, _): (StatsRun, StatsAction<&'static str>) =
            hook.stats(opts, &settings(), env, &groups, "check");
        run.stash_method
    };
    assert_eq!(method(&hook, &opts, &env), StashMethod::PatchFile);
    env.stash = Some(StashMethod::Git);
    assert_eq!(method(&hook, &opts, &env), StashMethod::Git);
    opts.stash = Some(StashArgument::Unknown);
    assert_eq!(method(&hook, &opts, &env), StashMethod::NoStash);
}
