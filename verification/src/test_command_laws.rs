//! What a test does, told from its settings and those of its step.
use crate::component::{PathStyle, PathView};
use crate::location::{is_within, joined_path, parent};
use crate::path::{text_path, FilePath};
use crate::step::command_laws::is_template_of;
use crate::step::types::{opt_text, style_of, Platform, Script, Step};
use crate::test_laws::TestCourse;
use crate::test_run::{
    by_path, command_reasons, given_files, given_writes, in_sandbox, mismatch_text, root_of,
    workspace_dir, write_views, TestAction, TestEvent, TestFailure, TestPhase, TestRun,
};
use crate::test_runner::{
    exit_code_text, map_texts, missing_text, pair_texts, ran, starts_command, test_env,
    CommandAction, CommandEvent, CommandRun, Ran, RunKind, StepTest, TestOutcome, TestResult,
    TestStage,
};
use crate::text;
use vstd::prelude::*;

verus! {

proof fn lemma_platform<E>(step: Step, test: StepTest, course: TestCourse<E>, n: int)
    requires
        course.is_course(step, test),
        0 <= n <= course.events.len(),
    ensures
        course.runs[n].platform == course.runs[0].platform,
        course.runs[n].sandbox == course.runs[0].sandbox,
        course.runs[n].root == course.runs[0].root,
    decreases n,
{
    if n > 0 {
        lemma_platform(step, test, course, n - 1);
        assert(course.takes(step, test, n - 1));
    }
}

/// Whether an action is to render the template of a script of a step.
pub open spec fn renders<E>(
    action: TestAction<E>,
    step: Step,
    script: Option<Script>,
    platform: Platform,
) -> bool {
    &&& script is Some
    &&& action matches TestAction::RenderRun(template)
    &&& is_template_of(template@, step, script->0, platform)
}

/// Whether a course has come to the command of the step: there are no workspaces to tell apart, or
/// the one that there is was entered.
pub open spec fn is_at_command<E>(course: TestCourse<E>, n: int) -> bool {
    ||| course.events[n - 1] == TestEvent::<E>::Workspaces(Ok(None))
    ||| course.actions[n - 1] is EnterWorkspace
}

/// A test that fixes, of a step that has a fix command, asks to render that command, and never
/// another one.
pub proof fn fixing_test_renders_the_fix_command<E>(
    step: Step,
    test: StepTest,
    course: TestCourse<E>,
    n: int,
)
    requires
        course.is_course(step, test),
        0 < n < course.actions.len(),
        is_at_command(course, n) || course.actions[n] is RenderRun,
        test.run == RunKind::Fix,
        step.fix is Some,
    ensures
        renders(course.actions[n], step, step.fix, course.runs[0].platform),
{
    assert(course.takes(step, test, n - 1));
    lemma_platform(step, test, course, n);
    lemma_platform(step, test, course, n - 1);
    lemma_entering(step, test, course, n - 1);
}

/// A test that checks, or that fixes where the step has no fix command, asks to render `check` of
/// the step where there is one, else `check_diff`, else `check_list_files`. Where there is none of
/// these, the test ends for want of a command.
pub proof fn checking_test_renders_a_check_command<E>(
    step: Step,
    test: StepTest,
    course: TestCourse<E>,
    n: int,
)
    requires
        course.is_course(step, test),
        0 < n < course.actions.len(),
        is_at_command(course, n) || course.actions[n] is RenderRun,
        test.run == RunKind::Check || step.fix is None,
    ensures
        step.check is Some ==> renders(
            course.actions[n],
            step,
            step.check,
            course.runs[0].platform,
        ),
        step.check is None && step.check_diff is Some ==> renders(
            course.actions[n],
            step,
            step.check_diff,
            course.runs[0].platform,
        ),
        step.check is None && step.check_diff is None && step.check_list_files is Some ==> renders(
            course.actions[n],
            step,
            step.check_list_files,
            course.runs[0].platform,
        ),
        step.check is None && step.check_diff is None && step.check_list_files is None
            ==> course.actions[n] == TestAction::<E>::Finish(
            Err(TestFailure::NoCommand(step.name)),
        ),
{
    assert(course.takes(step, test, n - 1));
    lemma_platform(step, test, course, n);
    lemma_platform(step, test, course, n - 1);
    lemma_entering(step, test, course, n - 1);
}

proof fn lemma_entering<E>(step: Step, test: StepTest, course: TestCourse<E>, n: int)
    requires
        course.is_course(step, test),
        0 <= n < course.actions.len(),
    ensures
        course.actions[n] is EnterWorkspace <==> course.runs[n].phase is EnteringWorkspace,
        course.actions[n] is RenderRun <==> course.runs[n].phase is RenderingRun,
        course.actions[n] is RenderBefore <==> course.runs[n].phase is RenderingBefore,
        course.actions[n] is RenderAfter <==> course.runs[n].phase is RenderingAfter,
        course.actions[n] is FilterFiles <==> course.runs[n].phase is FilteringFiles,
        course.actions[n] is CopyFixture <==> course.runs[n].phase is CopyingFixture,
        course.actions[n] is FindWorkspaces <==> course.runs[n].phase is FindingWorkspaces,
        course.actions[n] matches TestAction::Run { stage, command } ==> course.runs[n].phase == (
        match stage {
            TestStage::Before => TestPhase::RunningBefore,
            TestStage::Main => TestPhase::RunningMain,
            TestStage::After => TestPhase::RunningAfter,
        }),
        course.runs[n].phase is RunningBefore || course.runs[n].phase is RunningMain
            || course.runs[n].phase is RunningAfter ==> course.actions[n] is Run,
        course.actions[n] is ReadFile <==> course.runs[n].phase is ReadingFile,
        course.actions[n] is Compare <==> course.runs[n].phase is ComparingFile,
        course.actions[n] is WriteFile <==> course.runs[n].phase is WritingFile,
{
    if n > 0 {
        assert(course.takes(step, test, n - 1));
    }
}

/// Whether the event at that position is that the command of the step was rendered, with the given
/// result.
pub open spec fn renders_run<E>(course: TestCourse<E>, i: int, run: Seq<char>) -> bool {
    &&& course.actions[i] is RenderRun
    &&& course.events[i] matches TestEvent::Rendered(Ok(r))
    &&& r@ == run
}

/// Whether one of the first `n` events is that the command of the step was rendered, with the given
/// result.
pub open spec fn rendered_run<E>(course: TestCourse<E>, n: int, run: Seq<char>) -> bool {
    exists|i: int| 0 <= i < n && #[trigger] renders_run(course, i, run)
}

proof fn lemma_rendered_run<E>(step: Step, test: StepTest, course: TestCourse<E>, n: int)
    requires
        course.is_course(step, test),
        0 <= n < course.actions.len(),
    ensures
        course.runs[n].phase is RenderingBefore || course.runs[n].phase is RunningBefore
            || course.runs[n].phase is RunningMain ==> rendered_run(course, n, course.runs[n].run@),
    decreases n,
{
    if n > 0 {
        lemma_rendered_run(step, test, course, n - 1);
        lemma_entering(step, test, course, n - 1);
        assert(course.takes(step, test, n - 1));
        let run = course.runs[n].run@;
        if course.runs[n - 1].phase is RenderingRun {
            if course.events[n - 1] is Rendered {
                assert(course.events[n - 1] matches TestEvent::Rendered(Ok(r)) && r@ == run
                    ==> renders_run(course, n - 1, run));
            }
        } else if rendered_run(course, n - 1, run) {
            let i = choose|i: int| 0 <= i < n - 1 && #[trigger] renders_run(course, i, run);
            assert(renders_run(course, i, run));
        }
    }
}

/// The commands of a test are run as they were rendered: that of the step, the one before it and
/// the one after it, each from its own template.
pub proof fn test_runs_what_was_rendered<E>(
    step: Step,
    test: StepTest,
    course: TestCourse<E>,
    n: int,
    stage: TestStage,
    command: String,
)
    requires
        course.is_course(step, test),
        0 <= n < course.actions.len(),
        course.actions[n] == (TestAction::<E>::Run { stage, command }),
    ensures
        stage == TestStage::Main ==> rendered_run(course, n, command@),
        stage == TestStage::Before ==> n > 0 && course.actions[n - 1] is RenderBefore
            && course.events[n - 1] == TestEvent::<E>::Rendered(Ok(command)),
        stage == TestStage::After ==> n > 0 && course.actions[n - 1] is RenderAfter
            && course.events[n - 1] == TestEvent::<E>::Rendered(Ok(command)),
{
    lemma_rendered_run(step, test, course, n);
    lemma_entering(step, test, course, n);
    if n > 0 {
        assert(course.takes(step, test, n - 1));
        lemma_entering(step, test, course, n - 1);
    }
}

/// Once the command of the step is rendered, the one to run before comes where the test has one,
/// and else the command itself is run; once it was run, the one to run after comes where the test
/// has one.
pub proof fn other_commands_come_where_the_test_has_them<E>(
    step: Step,
    test: StepTest,
    course: TestCourse<E>,
    n: int,
)
    requires
        course.is_course(step, test),
        0 < n < course.actions.len(),
    ensures
        course.actions[n - 1] is RenderRun && (course.events[n - 1] matches TestEvent::Rendered(
            Ok(_),
        )) ==> {
            &&& test.before is Some <==> course.actions[n] is RenderBefore
            &&& test.before is None ==> (course.actions[n] matches TestAction::Run {
                stage,
                command,
            } && stage == TestStage::Main)
        },
        (course.actions[n - 1] matches TestAction::Run { stage, command } && stage
            == TestStage::Main) && (course.events[n - 1] matches TestEvent::Ran(Ok(_))) ==> (
        test.after is Some <==> course.actions[n] is RenderAfter),
{
    assert(course.takes(step, test, n - 1));
    lemma_entering(step, test, course, n - 1);
}

/// The result of a test names the step and the test, tells what the command of the step wrote,
/// behind what the one before it wrote if that wrote something, tells its exit code and how long
/// the test took, and passes exactly where no reason speaks against it.
pub proof fn result_tells_what_the_commands_did(
    run: TestRun,
    step: Step,
    name: Seq<char>,
    elapsed_ms: u128,
    r: TestResult,
)
    requires
        run.is_result(step, name, elapsed_ms, r),
    ensures
        r.step@ == step.name@,
        r.name@ == name,
        r.code == run.main.code,
        r.duration_ms == elapsed_ms,
        run.before.0@.len() == 0 ==> r.stdout@ == run.main.stdout@,
        run.before.0@.len() > 0 ==> r.stdout@ == "[before]\n"@ + run.before.0@ + "\n[main]\n"@
            + run.main.stdout@,
        run.before.1@.len() == 0 ==> r.stderr@ == run.main.stderr@,
        run.before.1@.len() > 0 ==> r.stderr@ == "[before]\n"@ + run.before.1@ + "\n[main]\n"@
            + run.main.stderr@,
        r.reasons@.len() == run.reasons@.len(),
        r.ok <==> run.reasons@.len() == 0,
        forall|i: int| 0 <= i < r.reasons@.len() ==> (#[trigger] r.reasons@[i])@ == run.reasons@[i]@,
{
    let a = text::texts(r.reasons@);
    let b = text::texts(run.reasons@);
    assert(a.len() == r.reasons@.len());
    assert(b.len() == run.reasons@.len());
    assert forall|i: int| 0 <= i < r.reasons@.len() implies (#[trigger] r.reasons@[i])@
        == run.reasons@[i]@ by {
        assert(a[i] == r.reasons@[i]@);
        assert(b[i] == run.reasons@[i]@);
    }
}

/// What a command wrote before the command of the step is kept for the result, and so is what that
/// command itself came to.
pub proof fn outputs_are_kept_for_the_result<E>(
    step: Step,
    test: StepTest,
    course: TestCourse<E>,
    n: int,
    ran: Ran,
)
    requires
        course.is_course(step, test),
        0 < n < course.actions.len(),
        course.events[n - 1] == TestEvent::<E>::Ran(Ok(ran)),
    ensures
        course.runs[n - 1].phase is RunningBefore && ran.code == 0 ==> course.runs[n].before == (
            ran.stdout,
            ran.stderr,
        ),
        course.runs[n - 1].phase is RunningMain ==> course.runs[n].main == ran
            && course.runs[n].before == course.runs[n - 1].before,
        course.runs[n - 1].phase is RunningAfter ==> course.runs[n].main == course.runs[n - 1].main
            && course.runs[n].before == course.runs[n - 1].before,
{
    assert(course.takes(step, test, n - 1));
}

/// Where the command to run before fails, the result tells what that command wrote and its exit
/// code, and that it is why.
pub proof fn failed_before_is_the_result<E>(
    run: TestRun,
    step: Step,
    test: StepTest,
    name: Seq<char>,
    elapsed_ms: u128,
    ran: Ran,
    now: TestRun,
    action: TestAction<E>,
)
    requires
        run.phase == TestPhase::RunningBefore,
        ran.code != 0,
        run.follows(step, test, name, elapsed_ms, TestEvent::Ran(Ok(ran)), now, action),
    ensures
        action matches TestAction::Finish(Ok(r)) && {
            &&& !r.ok
            &&& r.step@ == step.name@
            &&& r.name@ == name
            &&& r.stdout@ == ran.stdout@
            &&& r.stderr@ == ran.stderr@
            &&& r.code == ran.code
            &&& r.duration_ms == elapsed_ms
            &&& r.reasons@.len() == 1
            &&& r.reasons@[0]@ == "before failed with code "@ + text::decimal_int(ran.code as int)
        },
{
    if let TestAction::Finish(Ok(r)) = action {
        let a = text::texts(r.reasons@);
        assert(a.len() == r.reasons@.len());
        assert(a[0] == r.reasons@[0]@);
    }
}

/// One text in a list where a condition holds, and an empty list where it does not.
pub open spec fn where_so(condition: bool, said: Seq<char>) -> Seq<Seq<char>> {
    if condition {
        seq![said]
    } else {
        Seq::empty()
    }
}

/// The reasons against a test are, in this order: an exit code other than the expected one, a
/// failure of the command that ran after, an expected text that stdout lacks, and one that stderr
/// lacks.
pub proof fn reasons_tell_all_that_is_wrong(test: StepTest, main: Ran, after: Option<i32>)
    ensures
        command_reasons(test, main, after) == where_so(
            main.code != test.expect.code,
            "exit code "@ + text::decimal_int(main.code as int) + " != expected "@
                + text::decimal_int(test.expect.code as int),
        ) + where_so(
            after is Some,
            "after failed with code "@ + text::decimal_int(after->0 as int),
        ) + where_so(
            test.expect.stdout is Some && !text::occurs_in(
                main.stdout@,
                test.expect.stdout->0@,
            ),
            "stdout missing: "@ + test.expect.stdout->0@,
        ) + where_so(
            test.expect.stderr is Some && !text::occurs_in(
                main.stderr@,
                test.expect.stderr->0@,
            ),
            "stderr missing: "@ + test.expect.stderr->0@,
        ),
{
}

/// An exit code is complained of exactly where it is not the expected one, and a text exactly where
/// it is expected and missing.
pub proof fn only_what_is_wrong_is_complained_of(
    actual: i32,
    expected: i32,
    output: Seq<char>,
    needle: Option<String>,
    label: Seq<char>,
    code: Option<i32>,
    after_fail: Option<(i32, String, String)>,
)
    ensures
        exit_code_text(actual, expected) is None <==> actual == expected,
        actual != expected ==> exit_code_text(actual, expected) == Some(
            "exit code "@ + text::decimal_int(actual as int) + " != expected "@
                + text::decimal_int(expected as int),
        ),
        missing_text(output, needle, label) is Some <==> needle is Some && !text::occurs_in(
            output,
            needle->0@,
        ),
        missing_text(output, needle, label) is Some ==> missing_text(output, needle, label)->0
            == label + needle->0@,
        crate::test_runner::after_text(code) is Some <==> code is Some,
        code is Some ==> crate::test_runner::after_text(code)->0 == "after failed with code "@
            + text::decimal_int(code->0 as int),
        after_fail is None ==> crate::test_runner::after_code(after_fail) is None,
        after_fail matches Some((c, _, _)) ==> crate::test_runner::after_code(after_fail) == Some(
            c,
        ),
{
}

/// What is said of a file that does not hold what it should names it and shows the difference.
pub proof fn mismatch_names_the_file(path: PathView, diff: Seq<char>)
    ensures
        mismatch_text(path, diff) == "file mismatch: "@ + crate::display::shown_text(path) + "\n"@
            + diff,
{
}

/// The files that a test writes are those of its setting, in their order: each under its rendered
/// name, or the name as it is where that could not be rendered, and with its contents.
pub proof fn written_files_are_those_of_the_test(
    test: StepTest,
    rendered: Seq<Option<String>>,
    style: PathStyle,
    i: int,
)
    requires
        0 <= i < rendered.len(),
    ensures
        given_writes(test, rendered, style).len() == rendered.len(),
        given_writes(test, rendered, style)[i].1 == test.write.entries()[i].1@,
        rendered[i] is Some ==> given_writes(test, rendered, style)[i].0 == text_path(
            rendered[i]->0@,
            style,
        ),
        rendered[i] is None ==> given_writes(test, rendered, style)[i].0 == text_path(
            test.write.entries()[i].0,
            style,
        ),
{
}

/// The files that a test works on are those that it names, each under its rendered name, or the
/// name as it is where that could not be rendered; a test that names none works on those that it
/// writes.
pub proof fn test_works_on_the_files_that_it_names(
    test: StepTest,
    rendered: Seq<Option<String>>,
    writes: Seq<(PathView, Seq<char>)>,
    style: PathStyle,
    i: int,
)
    ensures
        test.files is Some ==> given_files(test, rendered, writes, style).len() == rendered.len(),
        test.files is Some && 0 <= i < rendered.len() ==> given_files(
            test,
            rendered,
            writes,
            style,
        )[i] == text_path(
            if rendered[i] is Some {
                rendered[i]->0@
            } else {
                test.files->0@[i]@
            },
            style,
        ),
        test.files is None ==> given_files(test, rendered, writes, style).len() == writes.len(),
        test.files is None && 0 <= i < writes.len() ==> given_files(test, rendered, writes, style)[i]
            == writes[i].0,
{
}

/// A test works in its temporary directory where it says so, and not where it says otherwise; one
/// that says nothing works there exactly where one of its files is there.
pub proof fn test_says_where_it_works(test: StepTest, files: Seq<PathView>, sandbox: PathView)
    ensures
        test.tmpdir == Some(true) ==> in_sandbox(test, files, sandbox),
        test.tmpdir == Some(false) ==> !in_sandbox(test, files, sandbox),
        test.tmpdir is None ==> (in_sandbox(test, files, sandbox) <==> exists|i: int|
            0 <= i < files.len() && is_within(#[trigger] files[i], sandbox)),
{
}

/// Once its names are rendered, a test has its files, its directory and what it writes. Where it
/// names no files, those that it writes are filtered for the step; else its fixture is copied, if
/// it has one, and its files are written.
pub proof fn rendered_names_settle_the_files<E>(
    step: Step,
    test: StepTest,
    course: TestCourse<E>,
    writes: Vec<Option<String>>,
    files: Vec<Option<String>>,
)
    requires
        course.is_course(step, test),
        course.events.len() > 0,
        course.events[0] == (TestEvent::<E>::Names { writes, files }),
    ensures
        ({
            let start = course.runs[0];
            let now = course.runs[1];
            let style = style_of(start.platform);
            let given = by_path(given_writes(test, writes@, style));
            let names = given_files(test, files@, given, style);
            &&& now.writes@.len() == given.len()
            &&& forall|k: int|
                0 <= k < given.len() ==> (#[trigger] now.writes@[k]).0@ == given[k].0
                    && now.writes@[k].1@ == given[k].1
            &&& now.files@.len() == names.len()
            &&& forall|k: int| 0 <= k < names.len() ==> (#[trigger] now.files@[k])@ == names[k]
            &&& in_sandbox(test, names, start.sandbox@) ==> now.base@ == start.sandbox@
            &&& !in_sandbox(test, names, start.sandbox@) ==> now.base@ == start.root@
            &&& test.files is None <==> course.actions[1] is FilterFiles
            &&& test.files is Some ==> prepares(test, now, course.actions[1])
        }),
{
    assert(course.takes(step, test, 0));
    let now = course.runs[1];
    let style = style_of(course.runs[0].platform);
    let given = by_path(given_writes(test, writes@, style));
    let names = given_files(test, files@, given, style);
    assert(write_views(now.writes@).len() == now.writes@.len());
    assert(crate::path::views(now.files@).len() == now.files@.len());
    assert forall|k: int| 0 <= k < given.len() implies (#[trigger] now.writes@[k]).0@ == given[k].0
        && now.writes@[k].1@ == given[k].1 by {
        assert(write_views(now.writes@)[k] == given[k]);
    }
    assert forall|k: int| 0 <= k < names.len() implies (#[trigger] now.files@[k])@ == names[k] by {
        assert(crate::path::views(now.files@)[k] == names[k]);
    }
    if test.files is Some && test.fixture is None {
        lemma_found(now, 0, course.actions[1]);
    }
}

/// Whether an action prepares the files of a test: the fixture is copied into its directory where
/// it has one, else the first file is written, and without files the workspaces are looked for.
pub open spec fn prepares<E>(test: StepTest, run: TestRun, action: TestAction<E>) -> bool {
    if test.fixture is Some {
        action matches TestAction::CopyFixture { from, to } && from@ == test.fixture->0@ && to@
            == run.base@
    } else {
        writes_from(run, 0, action)
    }
}

/// Whether an action writes the file at `i` into the directory of a test, or looks for the
/// workspaces of its files, taken from there, where there is no such file.
pub open spec fn writes_from<E>(run: TestRun, i: int, action: TestAction<E>) -> bool {
    if i < run.writes@.len() {
        action matches TestAction::WriteFile { path, contents } && path@ == joined_path(
            run.base@,
            run.writes@[i].0@,
        ) && contents@ == run.writes@[i].1@
    } else {
        action matches TestAction::FindWorkspaces(paths) && paths@.len() == run.files@.len() && (
        forall|k: int|
            0 <= k < paths@.len() ==> (#[trigger] paths@[k])@ == joined_path(
                run.base@,
                run.files@[k]@,
            ))
    }
}

proof fn lemma_found<E>(run: TestRun, i: int, action: TestAction<E>)
    requires
        run.at_writing(i, action),
    ensures
        writes_from(run, i, action),
{
    if i >= run.writes@.len() {
        if let TestAction::FindWorkspaces(paths) = action {
            let v = crate::path::views(paths@);
            assert(v.len() == paths@.len());
            assert forall|k: int| 0 <= k < paths@.len() implies (#[trigger] paths@[k])@
                == joined_path(run.base@, run.files@[k]@) by {
                assert(v[k] == paths@[k]@);
            }
        }
    }
}

/// The files that are left by the step's own filter are what the test works on from then on; the
/// fixture is copied before the files are written, and these are written one after the other, each
/// once, before the workspaces are looked for.
pub proof fn files_are_prepared_in_order<E>(
    step: Step,
    test: StepTest,
    course: TestCourse<E>,
    n: int,
)
    requires
        course.is_course(step, test),
        0 < n < course.actions.len(),
    ensures
        course.events[n - 1] matches TestEvent::Filtered(Ok(list)) ==> course.runs[n].files == list
            && prepares(test, course.runs[n], course.actions[n]),
        course.actions[n - 1] is CopyFixture && (course.events[n - 1] matches TestEvent::Done(
            Ok(_),
        )) ==> writes_from(course.runs[n], 0, course.actions[n]),
        course.runs[n - 1].phase matches TestPhase::WritingFile(i) && (
        course.events[n - 1] matches TestEvent::Done(Ok(_))) ==> writes_from(
            course.runs[n],
            course.runs[n - 1].phase->WritingFile_0 + 1,
            course.actions[n],
        ),
{
    assert(course.takes(step, test, n - 1));
    lemma_entering(step, test, course, n - 1);
    if course.events[n - 1] is Filtered && test.fixture is None && course.actions[n] !is Finish {
        lemma_found(course.runs[n], 0, course.actions[n]);
    }
    if course.actions[n - 1] is CopyFixture && (course.events[n - 1] matches TestEvent::Done(
        Ok(_),
    )) {
        lemma_found(course.runs[n], 0, course.actions[n]);
    }
    if let TestPhase::WritingFile(i) = course.runs[n - 1].phase {
        if course.events[n - 1] matches TestEvent::Done(Ok(_)) {
            lemma_found(course.runs[n], i + 1, course.actions[n]);
        }
    }
}

/// Where a step has workspaces, a test needs exactly one: it enters the directory of the file that
/// indicates it, and fails where there is none or more than one.
pub proof fn test_needs_one_workspace<E>(
    step: Step,
    test: StepTest,
    course: TestCourse<E>,
    n: int,
    list: Vec<FilePath>,
)
    requires
        course.is_course(step, test),
        0 < n < course.actions.len(),
        course.events[n - 1] == TestEvent::<E>::Workspaces(Ok(Some(list))),
    ensures
        list@.len() == 0 ==> course.actions[n] == TestAction::<E>::Finish(
            Err(TestFailure::NoWorkspace(step.name)),
        ),
        list@.len() == 1 ==> (course.actions[n] matches TestAction::EnterWorkspace { indicator, dir }
            && indicator@ == list@[0]@ && dir@ == workspace_dir(list@[0]@)),
        list@.len() > 1 ==> course.actions[n] == TestAction::<E>::Finish(
            Err((TestFailure::ManyWorkspaces { step: step.name, found: list })),
        ),
{
    assert(course.takes(step, test, n - 1));
}

/// The directory of a workspace is that of the file that indicates it, and the current one where
/// the file stands in none.
pub proof fn workspace_is_the_directory_of_its_indicator(indicator: PathView)
    ensures
        parent(indicator) is Some && parent(indicator)->0.bytes.len() > 0 ==> workspace_dir(
            indicator,
        ) == parent(indicator)->0,
        parent(indicator) is None || parent(indicator)->0.bytes.len() == 0 ==> workspace_dir(
            indicator,
        ) == (PathView { style: indicator.style, bytes: seq![46u8] }),
{
}

/// The directory of the project is that of its mark, and the current one without a mark.
pub proof fn project_is_where_its_mark_is(mark: PathView, cwd: PathView)
    ensures
        root_of(None, cwd) == cwd,
        parent(mark) is Some ==> root_of(Some(mark), cwd) == parent(mark)->0,
        parent(mark) is None ==> root_of(Some(mark), cwd) == cwd,
{
}

/// An expected file is read from the directory of the test. Where it holds what it should, the next
/// one is checked; else what it should hold and what it holds are compared, and the difference is a
/// further reason against the test.
pub proof fn expected_files_are_checked_one_by_one<E>(
    step: Step,
    test: StepTest,
    course: TestCourse<E>,
    n: int,
)
    requires
        course.is_course(step, test),
        0 < n < course.actions.len(),
    ensures
        course.runs[n - 1].phase matches TestPhase::RenderingPath(i) && (
        course.events[n - 1] matches TestEvent::Rendered(Ok(_))) ==> (
        course.actions[n] matches TestAction::ReadFile(q) && q@ == joined_path(
            course.runs[n].base@,
            text_path(
                course.events[n - 1]->Rendered_0->Ok_0@,
                style_of(course.runs[n].platform),
            ),
        ) && course.runs[n].path@ == q@),
        course.runs[n - 1].phase matches TestPhase::ReadingFile(i) ==> (
        course.events[n - 1] matches TestEvent::Contents(Ok(contents)) ==> {
            let expected = test.expect.files.entries()[course.runs[n
                - 1].phase->ReadingFile_0 as int].1;
            &&& contents@ == expected@ ==> !(course.actions[n] is Compare)
                && course.runs[n].reasons == course.runs[n - 1].reasons
            &&& contents@ != expected@ ==> (course.actions[n] matches TestAction::Compare {
                expected: e,
                actual,
            } && e@ == expected@ && actual@ == contents@)
        }),
        course.events[n - 1] matches TestEvent::Compared(diff) ==> {
            let before = course.runs[n - 1].reasons@;
            let now = course.runs[n].reasons@;
            &&& now.len() == before.len() + 1
            &&& now[before.len() as int]@ == "file mismatch: "@ + crate::display::shown_text(
                course.runs[n - 1].path@,
            ) + "\n"@ + diff@
            &&& forall|k: int|
                0 <= k < before.len() ==> (#[trigger] now[k])@ == before[k]@
        },
{
    assert(course.takes(step, test, n - 1));
    if course.events[n - 1] is Compared {
        let before = text::texts(course.runs[n - 1].reasons@);
        let now = text::texts(course.runs[n].reasons@);
        let last = before.len() as int;
        assert(before.len() == course.runs[n - 1].reasons@.len());
        assert(now.len() == course.runs[n].reasons@.len());
        assert(now[last] == course.runs[n].reasons@[last]@);
        assert forall|k: int| 0 <= k < last implies (#[trigger] course.runs[n].reasons@[k])@
            == course.runs[n - 1].reasons@[k]@ by {
            assert(now[k] == course.runs[n].reasons@[k]@);
            assert(before[k] == course.runs[n - 1].reasons@[k]@);
        }
    }
}

/// An outside error ends a test, and the test returns it.
pub proof fn outside_error_ends_the_test<E>(
    step: Step,
    test: StepTest,
    course: TestCourse<E>,
    n: int,
    error: E,
)
    requires
        course.is_course(step, test),
        0 < n < course.actions.len(),
        ({
            let event = course.events[n - 1];
            ||| event == TestEvent::<E>::Filtered(Err(error))
            ||| event == TestEvent::<E>::Done(Err(error))
            ||| event == TestEvent::<E>::Workspaces(Err(error))
            ||| event == TestEvent::<E>::Rendered(Err(error))
            ||| event == TestEvent::<E>::Ran(Err(error))
            ||| event == TestEvent::<E>::Contents(Err(error))
        }),
    ensures
        course.actions[n] == TestAction::<E>::Finish(Err(TestFailure::Outside(error))),
{
    assert(course.takes(step, test, n - 1));
}

/// The messages of a test that cannot be run name the step and say what is missing.
pub proof fn failures_name_the_step<E>(
    step: String,
    found: Vec<FilePath>,
    shown: Seq<char>,
    error: E,
)
    ensures
        TestFailure::Outside(error).text(shown) is None,
        TestFailure::<E>::NoWorkspace(step).text(shown) == Some(
            step@ + ": no workspace_indicator found for files"@,
        ),
        (TestFailure::<E>::ManyWorkspaces { step, found }).text(shown) == Some(
            step@ + ": expected exactly one workspace_indicator, found "@ + text::decimal(
                found@.len(),
            ) + ": "@ + shown,
        ),
        TestFailure::<E>::NoCommand(step).text(shown) == Some(step@ + ": no command for test"@),
{
}

/// A command of a test runs in the shell of the step: the first word of the setting is the program,
/// or `sh` where it names none, its other words are the first arguments, and the command is the
/// last. Without a setting the default shell runs it.
pub proof fn test_command_runs_in_the_shell<E>(
    step: Step,
    test: StepTest,
    run: CommandRun,
    event: CommandEvent<E>,
    now: CommandRun,
    action: CommandAction<E>,
)
    requires
        run.follows(step, test, event, now, action),
        action is Execute,
    ensures
        action matches CommandAction::Execute(cmd) && {
            let words = text::words(step.shell->0.text_on(run.platform));
            &&& step.shell is Some && words.len() > 0 ==> cmd.line.program@ == words[0]
                && text::texts(cmd.line.args@) == words.drop_first().push(run.command@)
            &&& step.shell is Some && words.len() == 0 ==> cmd.line.program@ == "sh"@
                && text::texts(cmd.line.args@) == seq![run.command@]
            &&& step.shell is None && run.platform == Platform::Windows ==> cmd.line.program@
                == run.command@ && cmd.line.args@.len() == 0
            &&& step.shell is None && run.platform != Platform::Windows ==> cmd.line.program@
                == "sh"@ && text::texts(cmd.line.args@) == seq![
                "-o"@,
                "errexit"@,
                "-c"@,
                run.command@,
            ]
            &&& cmd.dir@ == run.dir@
        },
{
}

/// The variables of a command of a test are those of the step, with what was rendered for them, and
/// behind them those of the test.
pub proof fn test_command_gets_both_environments(
    step: Step,
    values: Seq<Seq<char>>,
    test: StepTest,
    i: int,
)
    ensures
        test_env(step, values, test).len() == values.len() + test.env.entries().len(),
        0 <= i < values.len() ==> test_env(step, values, test)[i] == (
            step.env.entries()[i].0,
            values[i],
        ),
        0 <= i < test.env.entries().len() ==> test_env(step, values, test)[values.len() + i] == (
            test.env.entries()[i].0,
            test.env.entries()[i].1@,
        ),
{
}

/// Rendering goes through the variables of the step in their order, and the command is run with
/// what was rendered for them and for stdin.
pub proof fn variables_are_rendered_in_order<E>(
    step: Step,
    test: StepTest,
    run: CommandRun,
    rendered: String,
    now: CommandRun,
    action: CommandAction<E>,
)
    requires
        run.phase is RenderingEnv || run.phase is RenderingStdin,
        run.phase is RenderingStdin ==> run.env@.len() == 0,
        run.follows(step, test, CommandEvent::Rendered(Ok(rendered)), now, action),
    ensures
        run.phase is RenderingStdin ==> now.stdin is Some && now.stdin->0@ == rendered@
            && now.env@.len() == 0,
        run.phase is RenderingEnv ==> {
            &&& opt_text(now.stdin) == opt_text(run.stdin)
            &&& now.env@.len() == run.env@.len() + 1
            &&& now.env@[run.env@.len() as int]@ == rendered@
            &&& forall|k: int| 0 <= k < run.env@.len() ==> (#[trigger] now.env@[k])@ == run.env@[k]@
        },
        now.env@.len() < step.env.entries().len() ==> (action matches CommandAction::RenderEnv(k) && k
            == now.env@.len()),
        now.env@.len() >= step.env.entries().len() ==> (action matches CommandAction::Execute(cmd) && {
            &&& opt_text(cmd.stdin) == opt_text(now.stdin)
            &&& cmd.env@.len() == now.env@.len() + test.env.entries().len()
            &&& forall|k: int|
                0 <= k < now.env@.len() ==> (#[trigger] cmd.env@[k]).0@ == step.env.entries()[k].0
                    && cmd.env@[k].1@ == now.env@[k]@
            &&& forall|k: int|
                now.env@.len() <= k < cmd.env@.len() ==> (#[trigger] cmd.env@[k]).0@
                    == test.env.entries()[k - now.env@.len()].0 && cmd.env@[k].1@
                    == test.env.entries()[k - now.env@.len()].1@
        }),
{
    let before = text::texts(run.env@);
    let values = text::texts(now.env@);
    assert(before.len() == run.env@.len());
    assert(values.len() == now.env@.len());
    if run.phase is RenderingEnv {
        let last = before.len() as int;
        assert(values[last] == now.env@[last]@);
        assert forall|k: int| 0 <= k < last implies (#[trigger] now.env@[k])@ == run.env@[k]@ by {
            assert(values[k] == now.env@[k]@);
            assert(before[k] == run.env@[k]@);
        }
    }
    if let CommandAction::Execute(cmd) = action {
        let all = test_env(step, values, test);
        let pairs = pair_texts(cmd.env@);
        assert(pairs.len() == cmd.env@.len());
        assert(map_texts(test.env).len() == test.env.entries().len());
        assert forall|k: int| 0 <= k < cmd.env@.len() implies (#[trigger] cmd.env@[k]).0@
            == all[k].0 && cmd.env@[k].1@ == all[k].1 by {
            assert(pairs[k] == (cmd.env@[k].0@, cmd.env@[k].1@));
        }
        assert forall|k: int| 0 <= k < now.env@.len() implies (#[trigger] cmd.env@[k]).1@
            == now.env@[k]@ by {
            assert(values[k] == now.env@[k]@);
            assert(all[k].1 == values[k]);
        }
    }
}

/// The command of the step starts with what is piped to it where the step has that; every command
/// else starts with the variables of the step.
pub proof fn only_the_step_command_is_piped_to<E>(
    step: Step,
    test: StepTest,
    platform: Platform,
    dir: PathView,
    command: Seq<char>,
    stage: TestStage,
    run: CommandRun,
    action: CommandAction<E>,
)
    requires
        starts_command(step, test, platform, dir, command, stage, run, action),
    ensures
        run.platform == platform,
        run.dir@ == dir,
        run.command@ == command,
        run.env@.len() == 0,
        run.stdin is None,
        stage == TestStage::Main && step.stdin is Some <==> action is RenderStdin,
        !(stage == TestStage::Main && step.stdin is Some) && step.env.entries().len() > 0 ==> action
            == CommandAction::<E>::RenderEnv(0),
        !(stage == TestStage::Main && step.stdin is Some) && step.env.entries().len() == 0
            ==> action is Execute,
{
    assert(text::texts(run.env@).len() == run.env@.len());
}

/// A command of a test comes to what it wrote and its exit code; where a signal ended it, the code
/// is that of success where it succeeded and that of a failure where it failed. A command that
/// could not be run is an error.
pub proof fn signalled_command_gets_a_code<E>(
    stdout: String,
    stderr: String,
    code: Option<i32>,
    error: E,
)
    ensures
        ran(TestOutcome::<E>::Success { stdout, stderr, code }) matches Ok(r) && r.stdout == stdout
            && r.stderr == stderr && (code is Some ==> r.code == code->0) && (code is None ==> r.code
            == 0),
        ran(TestOutcome::<E>::ScriptFailed { stdout, stderr, code }) matches Ok(r) && r.stdout
            == stdout && r.stderr == stderr && (code is Some ==> r.code == code->0) && (code is None
            ==> r.code == 1),
        ran(TestOutcome::Error(error)) == Err::<Ran, E>(error),
{
}

/// An error while rendering, or one of the command, is what the command of a test comes to; and so
/// is what the command did.
pub proof fn command_of_a_test_returns_its_outcome<E>(
    step: Step,
    test: StepTest,
    run: CommandRun,
    error: E,
    outcome: TestOutcome<E>,
    now: CommandRun,
    action: CommandAction<E>,
)
    ensures
        (run.phase is RenderingStdin || run.phase is RenderingEnv) && run.follows(
            step,
            test,
            CommandEvent::Rendered(Err(error)),
            now,
            action,
        ) ==> action == CommandAction::<E>::Finish(Err(error)) && now.phase is Finished,
        run.phase is Executing && run.follows(
            step,
            test,
            CommandEvent::Executed(outcome),
            now,
            action,
        ) ==> action == CommandAction::<E>::Finish(ran(outcome)) && now.phase is Finished,
{
}

/// A path that is given more than once is written where it is given first, and under that spelling:
/// what is given later neither moves nor renames it. Each path that is written is one of those
/// given, and a single one is written as it is.
pub proof fn path_is_written_where_it_is_first_given(
    first: Seq<(PathView, Seq<char>)>,
    second: Seq<(PathView, Seq<char>)>,
    one: (PathView, Seq<char>),
    i: int,
)
    ensures
        by_path(seq![one]) == seq![one],
        by_path(first).len() <= by_path(first + second).len(),
        0 <= i < by_path(first).len() ==> by_path(first + second)[i].0 == by_path(first)[i].0,
        0 <= i < by_path(first).len() ==> exists|k: int|
            0 <= k < first.len() && (#[trigger] first[k]).0 == by_path(first)[i].0,
    decreases second.len(),
{
    reveal_with_fuel(by_path, 2);
    assert(seq![one].drop_last() =~= Seq::<(PathView, Seq<char>)>::empty());
    assert(by_path(seq![one]) =~= seq![one]);
    if 0 <= i < by_path(first).len() {
        lemma_path_is_given(first, i);
    }
    if second.len() > 0 {
        path_is_written_where_it_is_first_given(first, second.drop_last(), one, i);
        assert((first + second).drop_last() =~= first + second.drop_last());
    } else {
        assert(first + second =~= first);
    }
}

proof fn lemma_path_is_given(given: Seq<(PathView, Seq<char>)>, i: int)
    requires
        0 <= i < by_path(given).len(),
    ensures
        exists|k: int| 0 <= k < given.len() && (#[trigger] given[k]).0 == by_path(given)[i].0,
    decreases given.len(),
{
    let rest = given.drop_last();
    let before = by_path(rest);
    if i < before.len() {
        lemma_path_is_given(rest, i);
        let k = choose|k: int| 0 <= k < rest.len() && (#[trigger] rest[k]).0 == before[i].0;
        assert(given[k].0 == by_path(given)[i].0);
    } else {
        assert(given[given.len() - 1].0 == by_path(given)[i].0);
    }
}

} // verus!
