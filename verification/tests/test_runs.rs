use hk::component::PathStyle;
use hk::ordered_map::OrderedMap;
use hk::path::FilePath;
use hk::step::types::{Platform, Script, Step};
use hk::test_run::{
    directory_of, project_root, run_test_named, TestAction, TestEvent, TestFailure, TestPhase,
    TestRun,
};
use hk::test_runner::{
    check_after_fail, check_exit_code, check_stderr_contains, check_stdout_contains, execute_cmd,
    CommandAction, CommandEvent, CommandRun, Expectation, Ran, RunKind, StepTest, TestOutcome,
    TestResult, TestStage,
};

fn text(s: &str) -> String {
    s.to_string()
}

fn path(s: &str) -> FilePath {
    FilePath::from_text(s, PathStyle::Unix)
}

fn linter() -> Step {
    let mut step = Step::default();
    step.name = text("lint");
    step.check = Some(Script::from_str("lint {{files}}"));
    step
}

fn blank_test() -> StepTest {
    StepTest {
        run: RunKind::Check,
        files: None,
        write: OrderedMap::new(),
        fixture: None,
        env: OrderedMap::new(),
        before: None,
        after: None,
        tmpdir: None,
        expect: Expectation { code: 0, stdout: None, stderr: None, files: OrderedMap::new() },
    }
}

type Event = TestEvent<&'static str>;
type Action = TestAction<&'static str>;

fn start() -> TestRun {
    let (run, a): (TestRun, Action) =
        run_test_named(Platform::Linux, path("/tmp/x"), path("/repo"));
    assert!(matches!(a, Action::RenderNames));
    run
}

fn ran(stdout: &str, stderr: &str, code: i32) -> Event {
    Event::Ran(Ok(Ran { stdout: text(stdout), stderr: text(stderr), code }))
}

/// A test that is about to run its commands, with its files as they are.
fn ready(step: &Step, test: &StepTest) -> (TestRun, Action) {
    let mut writes = vec![];
    for _ in 0..test.write.len() {
        writes.push(None);
    }
    let files = vec![];
    let (run, a) = start().step(step, test, "t", 1, Event::Names { writes, files });
    assert!(matches!(a, Action::FilterFiles(_)));
    let (mut run, mut a) = run.step(step, test, "t", 2, Event::Filtered(Ok(vec![path("a")])));
    while matches!(a, Action::WriteFile { .. }) {
        let next = run.step(step, test, "t", 3, Event::Done(Ok(())));
        run = next.0;
        a = next.1;
    }
    assert!(matches!(a, Action::FindWorkspaces(_)));
    let (run, a) = run.step(step, test, "t", 4, Event::Workspaces(Ok(None)));
    assert!(matches!(a, Action::RenderRun(_)));
    run.step(step, test, "t", 5, Event::Rendered(Ok(text("lint a"))))
}

fn result(a: Action) -> TestResult {
    match a {
        Action::Finish(Ok(r)) => r,
        _ => panic!("not finished"),
    }
}

#[test]
fn exit_codes_are_compared() {
    assert_eq!(check_exit_code(0, 0), None);
    assert_eq!(check_exit_code(1, 0), Some(text("exit code 1 != expected 0")));
    assert_eq!(check_exit_code(-1, 127), Some(text("exit code -1 != expected 127")));
    assert_eq!(
        check_exit_code(-2147483648, 2147483647),
        Some(text("exit code -2147483648 != expected 2147483647"))
    );
}

#[test]
fn failed_after_command_is_a_reason() {
    assert_eq!(check_after_fail(&None), None);
    assert_eq!(
        check_after_fail(&Some((3, text("o"), text("e")))),
        Some(text("after failed with code 3"))
    );
}

#[test]
fn outputs_have_to_contain_texts() {
    assert_eq!(check_stdout_contains("abc", &None), None);
    assert_eq!(check_stdout_contains("abc", &Some(text("bc"))), None);
    assert_eq!(check_stdout_contains("abc", &Some(text(""))), None);
    assert_eq!(check_stdout_contains("abc", &Some(text("d"))), Some(text("stdout missing: d")));
    assert_eq!(check_stderr_contains("abc", &Some(text("c"))), None);
    assert_eq!(check_stderr_contains("", &Some(text("c"))), Some(text("stderr missing: c")));
}

#[test]
fn commands_get_the_variables_of_step_and_test() {
    type Event = CommandEvent<&'static str>;
    type Action = CommandAction<&'static str>;
    let mut step = linter();
    step.stdin = Some(text("{{files}}"));
    step.env.insert(text("A"), text("{{a}}"));
    let mut test = blank_test();
    test.env.insert(text("A"), text("test"));
    test.env.insert(text("B"), text("{{b}}"));
    let (run, a): (CommandRun, Action) =
        execute_cmd(&step, &test, Platform::Linux, &path("/repo"), "lint a", TestStage::Main);
    assert!(matches!(a, Action::RenderStdin));
    let (run, a) = run.step(&step, &test, Event::Rendered(Ok(text("a\n"))));
    assert!(matches!(a, Action::RenderEnv(0)));
    let (run, a) = run.step(&step, &test, Event::Rendered(Ok(text("step"))));
    match a {
        Action::Execute(cmd) => {
            assert_eq!(cmd.line.program, "sh");
            assert_eq!(cmd.line.args, vec!["-o", "errexit", "-c", "lint a"]);
            assert_eq!(cmd.stdin, Some(text("a\n")));
            assert_eq!(cmd.dir.display(), "/repo");
            assert_eq!(
                cmd.env,
                vec![
                    (text("A"), text("step")),
                    (text("A"), text("test")),
                    (text("B"), text("{{b}}")),
                ]
            );
        }
        _ => panic!("no command"),
    }
    let outcome = TestOutcome::Success { stdout: text("o"), stderr: text("e"), code: None };
    let (_, a) = run.step(&step, &test, Event::Executed(outcome));
    match a {
        Action::Finish(Ok(r)) => {
            assert_eq!(r, Ran { stdout: text("o"), stderr: text("e"), code: 0 })
        }
        _ => panic!("not finished"),
    }
}

#[test]
fn commands_that_fail_have_a_code() {
    type Event = CommandEvent<&'static str>;
    type Action = CommandAction<&'static str>;
    let mut step = linter();
    step.stdin = Some(text("{{files}}"));
    step.shell = Some(Script::from_str("  "));
    let test = blank_test();
    let run = || {
        let (run, a): (CommandRun, Action) =
            execute_cmd(&step, &test, Platform::Linux, &path("/repo"), "true", TestStage::After);
        match a {
            Action::Execute(cmd) => {
                assert_eq!(cmd.line.program, "sh");
                assert_eq!(cmd.line.args, vec!["true"]);
                assert_eq!(cmd.stdin, None);
            }
            _ => panic!("no command"),
        }
        run
    };
    for (code, expected) in vec![(Some(7), 7), (None, 1)] {
        let outcome = TestOutcome::ScriptFailed { stdout: text(""), stderr: text(""), code };
        let (_, a) = run().step(&step, &test, Event::Executed(outcome));
        match a {
            Action::Finish(Ok(r)) => assert_eq!(r.code, expected),
            _ => panic!("not finished"),
        }
    }
    let (_, a) = run().step(&step, &test, Event::Executed(TestOutcome::Error("spawn")));
    assert!(matches!(a, Action::Finish(Err("spawn"))));
}

#[test]
fn files_in_the_sandbox_are_worked_on_there() {
    let step = linter();
    let mut test = blank_test();
    test.files = Some(vec![text("{{tmp}}/a"), text("b")]);
    test.fixture = Some(text("fixtures"));
    test.write.insert(text("{{tmp}}/a"), text("one"));
    test.write.insert(text("b"), text("two"));
    test.write.insert(text("{{tmp}}//a"), text("three"));
    let names = Event::Names {
        writes: vec![Some(text("/tmp/x/a")), None, Some(text("/tmp/x//a"))],
        files: vec![Some(text("/tmp/x/a")), None],
    };
    let (run, a) = start().step(&step, &test, "t", 0, names);
    assert_eq!(run.base.display(), "/tmp/x");
    match a {
        Action::CopyFixture { from, to } => {
            assert_eq!(from, "fixtures");
            assert_eq!(to.display(), "/tmp/x");
        }
        _ => panic!("no fixture"),
    }
    // A path that is named twice is written once, with what is given last.
    let (run, a) = run.step(&step, &test, "t", 0, Event::Done(Ok(())));
    match a {
        Action::WriteFile { path, contents } => {
            assert_eq!(path.display(), "/tmp/x/a");
            assert_eq!(contents, "three");
        }
        _ => panic!("not written"),
    }
    let (run, a) = run.step(&step, &test, "t", 0, Event::Done(Ok(())));
    match a {
        Action::WriteFile { path, contents } => {
            assert_eq!(path.display(), "/tmp/x/b");
            assert_eq!(contents, "two");
        }
        _ => panic!("not written"),
    }
    let (run, a) = run.step(&step, &test, "t", 0, Event::Done(Ok(())));
    match a {
        Action::FindWorkspaces(paths) => {
            assert_eq!(paths.len(), 2);
            assert_eq!(paths[0].display(), "/tmp/x/a");
            assert_eq!(paths[1].display(), "/tmp/x/b");
        }
        _ => panic!("no paths"),
    }
    assert_eq!(run.phase, TestPhase::FindingWorkspaces);
}

#[test]
fn setting_decides_on_the_sandbox() {
    let step = linter();
    let mut test = blank_test();
    test.write.insert(text("a"), text("x"));
    for (setting, base) in vec![(None, "/repo"), (Some(true), "/tmp/x"), (Some(false), "/repo")] {
        test.tmpdir = setting;
        let names = Event::Names { writes: vec![None], files: vec![] };
        let (run, a) = start().step(&step, &test, "t", 0, names);
        assert_eq!(run.base.display(), base);
        match a {
            Action::FilterFiles(list) => {
                assert_eq!(list.len(), 1);
                assert_eq!(list[0].display(), "a");
            }
            _ => panic!("not filtered"),
        }
    }
    let (_, a) = start().step(&step, &test, "t", 0, Event::Names { writes: vec![], files: vec![] });
    assert!(matches!(a, Action::Refuse));
}

#[test]
fn workspace_has_to_be_unique() {
    let step = linter();
    let test = blank_test();
    let find = |found: Vec<FilePath>| {
        let names = Event::Names { writes: vec![], files: vec![] };
        let (run, _) = start().step(&step, &test, "t", 0, names);
        let (run, _) = run.step(&step, &test, "t", 0, Event::Filtered(Ok(vec![])));
        run.step(&step, &test, "t", 0, Event::Workspaces(Ok(Some(found))))
    };
    match find(vec![]).1 {
        Action::Finish(Err(f)) => assert_eq!(
            f.message(""),
            Some(text("lint: no workspace_indicator found for files"))
        ),
        _ => panic!("no failure"),
    }
    match find(vec![path("a/w"), path("b/w")]).1 {
        Action::Finish(Err(f)) => assert_eq!(
            f.message("{}"),
            Some(text("lint: expected exactly one workspace_indicator, found 2: {}"))
        ),
        _ => panic!("no failure"),
    }
    let (run, a) = find(vec![path("a/w")]);
    match a {
        Action::EnterWorkspace { indicator, dir } => {
            assert_eq!(indicator.display(), "a/w");
            assert_eq!(dir.display(), "a");
        }
        _ => panic!("not entered"),
    }
    let (_, a) = run.step(&step, &test, "t", 0, Event::Ack);
    assert!(matches!(a, Action::RenderRun(_)));
    assert_eq!(directory_of(&path("w")).display(), ".");
    assert_eq!(directory_of(&path("/")).display(), ".");
}

#[test]
fn test_needs_a_command() {
    let mut step = linter();
    step.check = None;
    let test = blank_test();
    let names = Event::Names { writes: vec![], files: vec![] };
    let (run, _) = start().step(&step, &test, "t", 0, names);
    let (run, _) = run.step(&step, &test, "t", 0, Event::Filtered(Ok(vec![])));
    let (_, a) = run.step(&step, &test, "t", 0, Event::Workspaces(Ok(None)));
    match a {
        Action::Finish(Err(f)) => {
            assert_eq!(f.message(""), Some(text("lint: no command for test")))
        }
        _ => panic!("no failure"),
    }
}

#[test]
fn passing_test_has_no_reasons() {
    let step = linter();
    let mut test = blank_test();
    test.expect.stdout = Some(text("ok"));
    test.expect.files.insert(text("a"), text("contents"));
    let (run, a) = ready(&step, &test);
    match a {
        Action::Run { stage, command } => {
            assert_eq!(stage, TestStage::Main);
            assert_eq!(command, "lint a");
        }
        _ => panic!("not run"),
    }
    let (run, a) = run.step(&step, &test, "t", 6, ran("all ok", "", 0));
    assert!(matches!(a, Action::RenderPath(0)));
    let (run, a) = run.step(&step, &test, "t", 7, Event::Rendered(Ok(text("sub/a"))));
    match a {
        Action::ReadFile(p) => assert_eq!(p.display(), "/repo/sub/a"),
        _ => panic!("not read"),
    }
    let (_, a) = run.step(&step, &test, "t", 9, Event::Contents(Ok(text("contents"))));
    assert_eq!(
        result(a),
        TestResult {
            step: text("lint"),
            name: text("t"),
            ok: true,
            stdout: text("all ok"),
            stderr: text(""),
            code: 0,
            duration_ms: 9,
            reasons: vec![],
        }
    );
}

#[test]
fn reasons_come_in_order() {
    let step = linter();
    let mut test = blank_test();
    test.after = Some(text("clean"));
    test.expect.code = 2;
    test.expect.stdout = Some(text("ok"));
    test.expect.stderr = Some(text("warning"));
    test.expect.files.insert(text("/abs"), text("x"));
    test.expect.files.insert(text("b"), text("same"));
    let (run, _) = ready(&step, &test);
    let (run, a) = run.step(&step, &test, "t", 6, ran("out", "err", 1));
    assert!(matches!(a, Action::RenderAfter));
    let (run, a) = run.step(&step, &test, "t", 6, Event::Rendered(Ok(text("clean"))));
    assert!(matches!(a, Action::Run { stage: TestStage::After, .. }));
    let (run, _) = run.step(&step, &test, "t", 6, ran("", "", 4));
    let (run, _) = run.step(&step, &test, "t", 6, Event::Rendered(Ok(text("/abs"))));
    let (run, a) = run.step(&step, &test, "t", 6, Event::Contents(Ok(text("y"))));
    match a {
        Action::Compare { expected, actual } => {
            assert_eq!(expected, "x");
            assert_eq!(actual, "y");
        }
        _ => panic!("not compared"),
    }
    let (run, _) = run.step(&step, &test, "t", 6, Event::Compared(text("-x\n+y")));
    let (run, _) = run.step(&step, &test, "t", 6, Event::Rendered(Ok(text("b"))));
    let (_, a) = run.step(&step, &test, "t", 6, Event::Contents(Ok(text("same"))));
    let r = result(a);
    assert!(!r.ok);
    assert_eq!(r.code, 1);
    assert_eq!(
        r.reasons,
        vec![
            "exit code 1 != expected 2",
            "after failed with code 4",
            "stdout missing: ok",
            "stderr missing: warning",
            "file mismatch: /abs\n-x\n+y",
        ]
    );
}

#[test]
fn before_command_is_shown_or_ends_the_test() {
    let step = linter();
    let mut test = blank_test();
    test.before = Some(text("setup"));
    let (run, a) = ready(&step, &test);
    assert!(matches!(a, Action::RenderBefore));
    let (run, a) = run.step(&step, &test, "t", 6, Event::Rendered(Ok(text("setup"))));
    assert!(matches!(a, Action::Run { stage: TestStage::Before, .. }));
    let (run, a) = run.step(&step, &test, "t", 6, ran("made", "", 0));
    assert!(matches!(a, Action::Run { stage: TestStage::Main, .. }));
    let (_, a) = run.step(&step, &test, "t", 6, ran("out", "err", 0));
    let r = result(a);
    assert!(r.ok);
    assert_eq!(r.stdout, "[before]\nmade\n[main]\nout");
    assert_eq!(r.stderr, "err");

    let (run, _) = ready(&step, &test);
    let (run, _) = run.step(&step, &test, "t", 6, Event::Rendered(Ok(text("setup"))));
    let (run, a) = run.step(&step, &test, "t", 8, ran("made", "oops", 5));
    let r = result(a);
    assert!(!r.ok);
    assert_eq!(r.stdout, "made");
    assert_eq!(r.stderr, "oops");
    assert_eq!(r.code, 5);
    assert_eq!(r.duration_ms, 8);
    assert_eq!(r.reasons, vec!["before failed with code 5"]);
    let (_, a) = run.step(&step, &test, "t", 9, ran("", "", 0));
    assert!(matches!(a, Action::Refuse));
}

#[test]
fn failures_outside_end_the_test() {
    let step = linter();
    let test = blank_test();
    let (run, _) = ready(&step, &test);
    let (run, a) = run.step(&step, &test, "t", 6, Event::Ran(Err("spawn")));
    match a {
        Action::Finish(Err(f)) => {
            assert_eq!(f.message(""), None);
            assert!(matches!(f, TestFailure::Outside("spawn")));
        }
        _ => panic!("no failure"),
    }
    assert_eq!(run.phase, TestPhase::Finished);
}

#[test]
fn only_the_main_command_gets_stdin() {
    assert!(TestStage::Main.pipes_stdin());
    assert!(!TestStage::Before.pipes_stdin());
    assert!(!TestStage::After.pipes_stdin());
    let mut step = linter();
    step.stdin = Some(text("{{files}}"));
    let test = blank_test();
    let (run, _) = ready(&step, &test);
    let (_, a): (CommandRun, CommandAction<&'static str>) =
        run.start_command(&step, &test, TestStage::Main, "lint a");
    assert!(matches!(a, CommandAction::RenderStdin));
    for stage in vec![TestStage::Before, TestStage::After] {
        let (_, a): (CommandRun, CommandAction<&'static str>) =
            run.start_command(&step, &test, stage, "clean");
        match a {
            CommandAction::Execute(cmd) => assert_eq!(cmd.stdin, None),
            _ => panic!("no command"),
        }
    }
}

#[test]
fn commands_run_where_the_test_works() {
    let step = linter();
    for (tmpdir, dir) in vec![(true, "/tmp/x"), (false, "/repo")] {
        let mut test = blank_test();
        test.tmpdir = Some(tmpdir);
        let (run, _) = ready(&step, &test);
        assert_eq!(run.command_dir().display(), dir);
        let (_, a): (CommandRun, CommandAction<&'static str>) =
            run.start_command(&step, &test, TestStage::Main, "lint a");
        match a {
            CommandAction::Execute(cmd) => assert_eq!(cmd.dir.display(), dir),
            _ => panic!("no command"),
        }
    }
}

#[test]
fn files_are_written_once_by_path() {
    let step = linter();
    let mut test = blank_test();
    test.write.insert(text("a/b"), text("first"));
    test.write.insert(text("c"), text("other"));
    test.write.insert(text("a//./b"), text("last"));
    let event = Event::Names { writes: vec![None, None, None], files: vec![] };
    let (run, _) = start().step(&step, &test, "t", 0, event);
    let mut written = vec![];
    for (p, contents) in &run.writes {
        written.push((p.display(), contents.clone()));
    }
    assert_eq!(written, vec![(text("a/b"), text("last")), (text("c"), text("other"))]);
}

#[test]
fn project_is_where_its_mark_is() {
    assert_eq!(project_root(&Some(path("/repo/.git")), path("/repo/web")).display(), "/repo");
    assert_eq!(project_root(&None, path("/tmp")).display(), "/tmp");
    assert_eq!(project_root(&Some(path("/")), path("/tmp")).display(), "/tmp");
}
