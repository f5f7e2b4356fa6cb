//! What holds of every course that a test can take.
use crate::component::{PathStyle, PathView};
use crate::location::path_below_is_within;
use crate::path::same_path;
use crate::step::types::{style_of, Step};
use crate::test_run::{
    by_path, command_reasons, given_files, given_writes, in_sandbox, mismatch_text, path_position,
    write_views, TestAction, TestEvent, TestPhase, TestRun,
};
use crate::test_runner::{Ran, StepTest, TestResult, TestStage};
use crate::text;
use vstd::prelude::*;

verus! {

/// A test as it was started and after each of the events that it has taken, with what it asked for
/// each time and how long it had run.
pub struct TestCourse<E> {
    pub name: Seq<char>,
    pub runs: Seq<TestRun>,
    pub actions: Seq<TestAction<E>>,
    pub events: Seq<TestEvent<E>>,
    pub elapsed: Seq<u128>,
}

impl<E> TestCourse<E> {
    /// Whether the test of a step can take this course: no event was refused.
    pub open spec fn is_course(self, step: Step, test: StepTest) -> bool {
        &&& self.runs.len() == self.events.len() + 1
        &&& self.actions.len() == self.runs.len()
        &&& self.elapsed.len() == self.events.len()
        &&& self.runs[0].phase == TestPhase::RenderingNames
        &&& self.runs[0].reasons@.len() == 0
        &&& self.actions[0] == TestAction::<E>::RenderNames
        &&& forall|i: int| 0 <= i < self.events.len() ==> #[trigger] self.takes(step, test, i)
    }

    /// Whether the event at that position was taken.
    pub open spec fn takes(self, step: Step, test: StepTest, i: int) -> bool {
        &&& self.runs[i].follows(
            step,
            test,
            self.name,
            self.elapsed[i],
            self.events[i],
            self.runs[i + 1],
            self.actions[i + 1],
        )
        &&& !(self.actions[i + 1] is Refuse)
    }

    /// What the command of the step came to, if it was among the first `n` events.
    pub open spec fn main_ran(self, n: int) -> Option<Ran>
        decreases n,
    {
        if n <= 0 {
            None
        } else if self.runs[n - 1].phase == TestPhase::RunningMain {
            match self.events[n - 1] {
                TestEvent::Ran(Ok(ran)) => Some(ran),
                _ => None,
            }
        } else {
            self.main_ran(n - 1)
        }
    }

    /// The exit code of the command that ran after the step, if that failed among the first `n`
    /// events.
    pub open spec fn after_failed(self, n: int) -> Option<i32>
        decreases n,
    {
        if n <= 0 {
            None
        } else if self.runs[n - 1].phase == TestPhase::RunningAfter {
            match self.events[n - 1] {
                TestEvent::Ran(Ok(ran)) => if ran.code != 0 {
                    Some(ran.code)
                } else {
                    None
                },
                _ => None,
            }
        } else {
            self.after_failed(n - 1)
        }
    }

    /// What is said of the files that the first `n` events showed not to hold what they should.
    pub open spec fn mismatches(self, n: int) -> Seq<Seq<char>>
        decreases n,
    {
        if n <= 0 {
            Seq::empty()
        } else {
            match self.events[n - 1] {
                TestEvent::Compared(diff) => self.mismatches(n - 1).push(
                    mismatch_text(self.runs[n - 1].path@, diff@),
                ),
                _ => self.mismatches(n - 1),
            }
        }
    }

    /// Whether the event at that position shows what the expected file number `k` holds, and that
    /// is what it should hold.
    pub open spec fn shows(self, test: StepTest, i: int, k: int) -> bool {
        &&& self.runs[i].phase matches TestPhase::ReadingFile(file) && file == k
        &&& self.events[i] matches TestEvent::Contents(Ok(contents)) && contents@
            == test.expect.files.entries()[k].1@
    }

    /// Whether the event at that position, if it shows what an expected file holds, shows that it
    /// holds what it should.
    pub open spec fn as_expected(self, test: StepTest, i: int) -> bool {
        match (self.runs[i].phase, self.events[i]) {
            (TestPhase::ReadingFile(k), TestEvent::Contents(Ok(_))) => self.shows(
                test,
                i,
                k as int,
            ),
            _ => true,
        }
    }

    /// Whether the first `n` events show no file that holds something else than it should.
    pub open spec fn all_as_expected(self, test: StepTest, n: int) -> bool {
        forall|i: int| 0 <= i < n ==> #[trigger] self.as_expected(test, i)
    }

    /// Whether one of the first `n` events shows that the expected file number `k` holds what it
    /// should.
    pub open spec fn was_shown(self, test: StepTest, n: int, k: int) -> bool {
        exists|i: int| 0 <= i < n && #[trigger] self.shows(test, i, k)
    }

    /// Whether the first `n` events show that each of the first `count` expected files holds what
    /// it should.
    pub open spec fn were_shown(self, test: StepTest, n: int, count: int) -> bool {
        forall|k: int| 0 <= k < count ==> #[trigger] self.was_shown(test, n, k)
    }

    /// Why the test fails, by the first `n` events.
    pub open spec fn found_reasons(self, test: StepTest, n: int) -> Seq<Seq<char>> {
        command_reasons(test, self.main_ran(n)->0, self.after_failed(n)) + self.mismatches(n)
    }
}

/// Where a phase stands in the course of a test.
pub open spec fn rank(phase: TestPhase) -> int {
    match phase {
        TestPhase::RenderingNames => 0,
        TestPhase::FilteringFiles => 1,
        TestPhase::CopyingFixture => 2,
        TestPhase::WritingFile(_) => 3,
        TestPhase::FindingWorkspaces => 4,
        TestPhase::EnteringWorkspace => 5,
        TestPhase::RenderingRun => 6,
        TestPhase::RenderingBefore => 7,
        TestPhase::RunningBefore => 8,
        TestPhase::RunningMain => 9,
        TestPhase::RenderingAfter => 10,
        TestPhase::RunningAfter => 11,
        TestPhase::RenderingPath(_) => 12,
        TestPhase::ReadingFile(_) => 12,
        TestPhase::ComparingFile(_) => 12,
        TestPhase::Finished => 13,
    }
}

/// What holds of a test after the first `n` events of its course.
proof fn lemma_course<E>(step: Step, test: StepTest, course: TestCourse<E>, n: int)
    requires
        course.is_course(step, test),
        0 <= n <= course.events.len(),
    ensures
        course.runs[n].well_formed(test),
        match course.actions[n] {
            TestAction::Run { stage, command: _ } => match stage {
                TestStage::Before => course.runs[n].phase == TestPhase::RunningBefore,
                TestStage::Main => course.runs[n].phase == TestPhase::RunningMain,
                TestStage::After => course.runs[n].phase == TestPhase::RunningAfter,
            },
            TestAction::Finish(Ok(r)) => course.main_ran(n) is Some ==> text::texts(r.reasons@)
                == course.found_reasons(test, n) && r.code == course.main_ran(n)->0.code,
            _ => true,
        },
        rank(course.runs[n].phase) <= 9 ==> course.main_ran(n) is None,
        rank(course.runs[n].phase) <= 11 ==> course.after_failed(n) is None && course.mismatches(
            n,
        ).len() == 0,
        10 <= rank(course.runs[n].phase) <= 12 ==> course.main_ran(n) == Some(course.runs[n].main),
        rank(course.runs[n].phase) == 12 ==> text::texts(course.runs[n].reasons@)
            == course.found_reasons(test, n),
    decreases n,
{
    if n > 0 {
        lemma_course(step, test, course, n - 1);
        assert(course.takes(step, test, n - 1));
        let a = course.found_reasons(test, n - 1);
        let c = command_reasons(test, course.main_ran(n)->0, course.after_failed(n));
        if rank(course.runs[n - 1].phase) == 12 {
            if let TestEvent::Compared(diff) = course.events[n - 1] {
                let m = mismatch_text(course.runs[n - 1].path@, diff@);
                assert(c + course.mismatches(n - 1).push(m) =~= a.push(m));
            }
        } else {
            assert(course.mismatches(n).len() == 0 ==> c + course.mismatches(n) =~= c);
        }
    }
}

/// What holds of the contents that the first `n` events of a course show.
proof fn lemma_contents<E>(step: Step, test: StepTest, course: TestCourse<E>, n: int)
    requires
        course.is_course(step, test),
        0 <= n <= course.events.len(),
    ensures
        ({
            let expected = test.expect.files.entries().len() as int;
            let good = course.mismatches(n).len() == 0 && !(course.runs[n].phase is ComparingFile);
            &&& good <==> course.all_as_expected(test, n)
            &&& match course.runs[n].phase {
                TestPhase::RenderingPath(k) => good ==> course.were_shown(test, n, k as int),
                TestPhase::ReadingFile(k) => good ==> course.were_shown(test, n, k as int),
                _ => true,
            }
            &&& course.actions[n] matches TestAction::Finish(Ok(_)) ==> {
                &&& course.runs[n].phase == TestPhase::Finished
                &&& good && course.main_ran(n) is Some ==> course.were_shown(test, n, expected)
            }
        }),
    decreases n,
{
    lemma_course(step, test, course, n);
    if n > 0 {
        lemma_course(step, test, course, n - 1);
        lemma_contents(step, test, course, n - 1);
        assert(course.takes(step, test, n - 1));
        assert(course.as_expected(test, n - 1) == !(course.runs[n].phase is ComparingFile));
        assert(course.all_as_expected(test, n) <==> course.all_as_expected(test, n - 1)
            && course.as_expected(test, n - 1)) by {
            if course.all_as_expected(test, n) {
                assert forall|i: int| 0 <= i < n - 1 implies #[trigger] course.as_expected(
                    test,
                    i,
                ) by {}
            }
        }
        assert forall|k: int| course.was_shown(test, n - 1, k) implies #[trigger] course.was_shown(
            test,
            n,
            k,
        ) by {
            let i = choose|i: int| 0 <= i < n - 1 && #[trigger] course.shows(test, i, k);
            assert(course.shows(test, i, k));
        }
        if let TestPhase::ReadingFile(k) = course.runs[n - 1].phase {
            if course.shows(test, n - 1, k as int) {
                assert(course.was_shown(test, n, k as int));
            }
        }
    }
}

/// A test passes exactly where nothing speaks against it.
pub proof fn passed_test_has_no_reasons<E>(
    step: Step,
    test: StepTest,
    course: TestCourse<E>,
    n: int,
    r: TestResult,
)
    requires
        course.is_course(step, test),
        0 <= n < course.actions.len(),
        course.actions[n] == TestAction::<E>::Finish(Ok(r)),
    ensures
        r.ok <==> r.reasons@.len() == 0,
{
    lemma_course(step, test, course, n);
    assert(n > 0);
    assert(course.takes(step, test, n - 1));
    assert(text::texts(r.reasons@).len() == r.reasons@.len());
}

/// A test whose command was run passes exactly where the command had the expected exit code and
/// wrote what it was expected to write, the command that ran after it did not fail, and no file
/// that was read holds something else than it should. Every file that it expects was then read.
pub proof fn test_passes_as_expected<E>(
    step: Step,
    test: StepTest,
    course: TestCourse<E>,
    n: int,
    r: TestResult,
    main: Ran,
)
    requires
        course.is_course(step, test),
        0 <= n < course.actions.len(),
        course.actions[n] == TestAction::<E>::Finish(Ok(r)),
        course.main_ran(n) == Some(main),
    ensures
        r.code == main.code,
        r.ok <==> {
            &&& main.code == test.expect.code
            &&& course.after_failed(n) is None
            &&& test.expect.stdout matches Some(needle) ==> text::occurs_in(
                main.stdout@,
                needle@,
            )
            &&& test.expect.stderr matches Some(needle) ==> text::occurs_in(
                main.stderr@,
                needle@,
            )
            &&& course.all_as_expected(test, n)
        },
        r.ok ==> course.were_shown(test, n, test.expect.files.entries().len() as int),
{
    lemma_course(step, test, course, n);
    lemma_contents(step, test, course, n);
    passed_test_has_no_reasons(step, test, course, n, r);
    assert(text::texts(r.reasons@).len() == r.reasons@.len());
    assert(course.found_reasons(test, n).len() == command_reasons(
        test,
        main,
        course.after_failed(n),
    ).len() + course.mismatches(n).len());
}

/// Where the command to run before fails, the test fails and ends, and its own command is not run.
pub proof fn failed_before_ends_the_test<E>(
    step: Step,
    test: StepTest,
    course: TestCourse<E>,
    i: int,
    ran: Ran,
)
    requires
        course.is_course(step, test),
        0 <= i < course.events.len(),
        course.runs[i].phase == TestPhase::RunningBefore,
        course.events[i] == TestEvent::<E>::Ran(Ok(ran)),
        ran.code != 0,
    ensures
        i == course.events.len() - 1,
        course.actions[i + 1] matches TestAction::Finish(Ok(r)) && !r.ok && r.code == ran.code,
        course.main_ran(course.events.len() as int) is None,
{
    assert(course.takes(step, test, i));
    if i + 1 < course.events.len() {
        assert(course.takes(step, test, i + 1));
    }
    lemma_course(step, test, course, i);
}

/// The command to run before, where there is one, is run first and has to succeed: where the
/// command of the step is asked for, the event before it was that success.
pub proof fn before_runs_first<E>(step: Step, test: StepTest, course: TestCourse<E>, n: int)
    requires
        course.is_course(step, test),
        0 <= n < course.actions.len(),
        course.actions[n] matches TestAction::Run { stage, command } && stage == TestStage::Main,
        test.before is Some,
    ensures
        n > 0,
        course.actions[n - 1] matches TestAction::Run { stage, command } && stage
            == TestStage::Before,
        course.events[n - 1] matches TestEvent::Ran(Ok(ran)) && ran.code == 0,
{
    assert(n > 0);
    assert(course.takes(step, test, n - 1));
    lemma_course(step, test, course, n);
    lemma_course(step, test, course, n - 1);
    if n > 1 {
        assert(course.takes(step, test, n - 2));
    }
}

/// The command to run after runs only once the command of the step was run.
pub proof fn after_runs_last<E>(step: Step, test: StepTest, course: TestCourse<E>, n: int)
    requires
        course.is_course(step, test),
        0 <= n < course.actions.len(),
        course.actions[n] matches TestAction::Run { stage, command } && stage == TestStage::After,
    ensures
        course.main_ran(n) is Some,
{
    lemma_course(step, test, course, n);
}

/// Every command of a test is run in the directory that the names of its files decide on: the
/// temporary directory or that of the project.
pub proof fn commands_run_in_one_directory<E>(
    step: Step,
    test: StepTest,
    course: TestCourse<E>,
    writes: Vec<Option<String>>,
    files: Vec<Option<String>>,
    n: int,
)
    requires
        course.is_course(step, test),
        0 < n < course.actions.len(),
        course.events[0] == (TestEvent::<E>::Names { writes, files }),
    ensures
        ({
            let start = course.runs[0];
            let style = style_of(start.platform);
            let given = by_path(given_writes(test, writes@, style));
            course.runs[n].base@ == if in_sandbox(
                test,
                given_files(test, files@, given, style),
                start.sandbox@,
            ) {
                start.sandbox@
            } else {
                start.root@
            }
        }),
    decreases n,
{
    assert(course.takes(step, test, n - 1));
    if n > 1 {
        commands_run_in_one_directory(step, test, course, writes, files, n - 1);
        lemma_names_first(step, test, course, n - 1);
    }
}

/// Only the first event of a course names files.
proof fn lemma_names_first<E>(step: Step, test: StepTest, course: TestCourse<E>, n: int)
    requires
        course.is_course(step, test),
        0 < n < course.runs.len(),
    ensures
        course.runs[n].phase != TestPhase::RenderingNames,
    decreases n,
{
    assert(course.takes(step, test, n - 1));
    if n > 1 {
        lemma_names_first(step, test, course, n - 1);
    }
}

/// A test that does not say where it works, and that names a file below its temporary directory,
/// works there. This is said of Unix; Windows reads no slash as a separator in a directory that is
/// taken as it stands.
pub proof fn file_below_sandbox_chooses_it(
    test: StepTest,
    files: Seq<PathView>,
    sandbox: PathView,
    i: int,
    rest: Seq<u8>,
)
    requires
        test.tmpdir is None,
        sandbox.style == PathStyle::Unix,
        0 <= i < files.len(),
        files[i] == (PathView {
            style: sandbox.style,
            bytes: sandbox.bytes + seq![47u8] + rest,
        }),
    ensures
        in_sandbox(test, files, sandbox),
{
    path_below_is_within(sandbox, files[i], rest);
}

proof fn lemma_position(entries: Seq<(PathView, Seq<char>)>, p: PathView)
    ensures
        path_position(entries, p) <= entries.len(),
        path_position(entries, p) < entries.len() ==> same_path(
            entries[path_position(entries, p) as int].0,
            p,
        ),
        forall|i: int|
            0 <= i < path_position(entries, p) ==> !same_path((#[trigger] entries[i]).0, p),
    decreases entries.len(),
{
    if entries.len() > 0 && !same_path(entries[0].0, p) {
        let rest = entries.drop_first();
        lemma_position(rest, p);
        assert forall|i: int| 0 <= i < path_position(entries, p) implies !same_path(
            (#[trigger] entries[i]).0,
            p,
        ) by {
            if i > 0 {
                assert(rest[i - 1] == entries[i]);
            }
        }
    }
}

/// No path is written twice.
pub proof fn each_path_is_written_once(given: Seq<(PathView, Seq<char>)>, i: int, j: int)
    requires
        0 <= i < j < by_path(given).len(),
    ensures
        !same_path(by_path(given)[i].0, by_path(given)[j].0),
    decreases given.len(),
{
    let before = by_path(given.drop_last());
    let p = given.last().0;
    lemma_position(before, p);
    if j < before.len() {
        each_path_is_written_once(given.drop_last(), i, j);
    } else {
        assert(!same_path(before[i].0, p));
    }
}

/// What is written to a path is what is given for it last.
pub proof fn last_contents_are_written(given: Seq<(PathView, Seq<char>)>, k: int)
    requires
        0 <= k < given.len(),
        forall|i: int| k < i < given.len() ==> !same_path((#[trigger] given[i]).0, given[k].0),
    ensures
        exists|i: int|
            0 <= i < by_path(given).len() && same_path(
                (#[trigger] by_path(given)[i]).0,
                given[k].0,
            ) && by_path(given)[i].1 == given[k].1,
    decreases given.len(),
{
    let rest = given.drop_last();
    let before = by_path(rest);
    let p = given.last().0;
    let at = path_position(before, p) as int;
    lemma_position(before, p);
    if k == given.len() - 1 {
        assert(same_path(by_path(given)[at].0, given[k].0));
    } else {
        assert forall|i: int| k < i < rest.len() implies !same_path(
            (#[trigger] rest[i]).0,
            rest[k].0,
        ) by {
            assert(given[i] == rest[i]);
        }
        last_contents_are_written(rest, k);
        let i = choose|i: int|
            0 <= i < before.len() && same_path((#[trigger] before[i]).0, rest[k].0) && before[i].1
                == rest[k].1;
        assert(!same_path(p, given[k].0));
        assert(i != at);
        assert(by_path(given)[i] == before[i]);
    }
}

proof fn lemma_by_path_len(given: Seq<(PathView, Seq<char>)>)
    ensures
        by_path(given).len() <= given.len(),
    decreases given.len(),
{
    if given.len() > 0 {
        lemma_by_path_len(given.drop_last());
    }
}

/// How far a test is from its end, at most; `writes` and `files` are how many files it writes and
/// how many it expects.
pub open spec fn distance(run: TestRun, writes: int, files: int) -> int {
    match run.phase {
        TestPhase::RenderingNames => writes + 3 * files + 12,
        TestPhase::FilteringFiles => writes + 3 * files + 11,
        TestPhase::CopyingFixture => writes + 3 * files + 10,
        TestPhase::WritingFile(i) => run.writes@.len() - i + 3 * files + 9,
        TestPhase::FindingWorkspaces => 3 * files + 8,
        TestPhase::EnteringWorkspace => 3 * files + 7,
        TestPhase::RenderingRun => 3 * files + 6,
        TestPhase::RenderingBefore => 3 * files + 5,
        TestPhase::RunningBefore => 3 * files + 4,
        TestPhase::RunningMain => 3 * files + 3,
        TestPhase::RenderingAfter => 3 * files + 2,
        TestPhase::RunningAfter => 3 * files + 1,
        TestPhase::RenderingPath(i) => 3 * (files - i),
        TestPhase::ReadingFile(i) => 3 * (files - i) - 1,
        TestPhase::ComparingFile(i) => 3 * (files - i) - 2,
        TestPhase::Finished => 0,
    }
}

proof fn lemma_distance<E>(step: Step, test: StepTest, course: TestCourse<E>, n: int)
    requires
        course.is_course(step, test),
        0 <= n <= course.events.len(),
    ensures
        ({
            let w = test.write.entries().len() as int;
            let f = test.expect.files.entries().len() as int;
            &&& n + distance(course.runs[n], w, f) <= w + 3 * f + 12
            &&& distance(course.runs[n], w, f) >= 0
            &&& rank(course.runs[n].phase) > 0 ==> course.runs[n].writes@.len() <= w
        }),
    decreases n,
{
    lemma_course(step, test, course, n);
    if n > 0 {
        lemma_distance(step, test, course, n - 1);
        lemma_course(step, test, course, n - 1);
        assert(course.takes(step, test, n - 1));
        if let TestEvent::Names { writes, files } = course.events[n - 1] {
            let style = style_of(course.runs[n - 1].platform);
            lemma_by_path_len(given_writes(test, writes@, style));
            assert(write_views(course.runs[n].writes@).len() == course.runs[n].writes@.len());
        }
    }
}

/// A test comes to its end: it takes no more events than there are files to write, three for each
/// file that it expects, and twelve more.
pub proof fn test_ends<E>(step: Step, test: StepTest, course: TestCourse<E>)
    requires
        course.is_course(step, test),
    ensures
        course.events.len() <= test.write.entries().len() + 3
            * test.expect.files.entries().len() + 12,
{
    lemma_distance(step, test, course, course.events.len() as int);
}

} // verus!
