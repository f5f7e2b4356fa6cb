//! The course of a test: what to do next, given what came of what was done.
use crate::component::{PathStyle, PathView};
use crate::display::shown_text;
use crate::location::{is_within, joined_path, parent};
use crate::ordered_map::OrderedMap;
use crate::path::{same_path, text_path, views, FilePath};
use crate::path_key::{keys_tell_paths_apart, path_key};
use crate::step::job::{prefixed, JobMode};
use crate::step::types::{opt_text, style_of, Platform, Step};
use crate::test_runner::{
    self, after_code, after_text, execute_cmd, exit_code_text, missing_text, starts_command,
    CommandAction, CommandRun, Ran, StepTest, TestResult, TestStage,
};
use crate::text;
use vstd::prelude::*;

verus! {

/// Why a test could not be run.
#[derive(Debug)]
pub enum TestFailure<E> {
    /// Something that the test needed failed.
    Outside(E),
    /// No workspace was found for the files of the step, which is named.
    NoWorkspace(String),
    /// More than one workspace was found for the files of the step, which is named.
    ManyWorkspaces { step: String, found: Vec<FilePath> },
    /// The step, which is named, has no command for the test.
    NoCommand(String),
}

/// What a test waits for.
#[derive(Clone, Copy, Debug, PartialEq, Eq, Structural)]
pub enum TestPhase {
    RenderingNames,
    FilteringFiles,
    CopyingFixture,
    /// Which file is written.
    WritingFile(usize),
    FindingWorkspaces,
    EnteringWorkspace,
    RenderingRun,
    RenderingBefore,
    RunningBefore,
    RunningMain,
    RenderingAfter,
    RunningAfter,
    /// The path of which expected file is rendered.
    RenderingPath(usize),
    /// Which expected file is read.
    ReadingFile(usize),
    /// Which expected file is compared with what it should hold.
    ComparingFile(usize),
    Finished,
}

/// What came of what a test asked for.
#[derive(Debug)]
pub enum TestEvent<E> {
    /// The names of the files to write and of the files to work on, with their variables filled
    /// in; none where that failed.
    Names { writes: Vec<Option<String>>, files: Vec<Option<String>> },
    /// The files that the step works on.
    Filtered(Result<Vec<FilePath>, E>),
    /// What was asked for was done, or failed.
    Done(Result<(), E>),
    /// What cannot fail was done.
    Ack,
    /// The workspaces of the files, where the step has any.
    Workspaces(Result<Option<Vec<FilePath>>, E>),
    /// A template with its variables filled in.
    Rendered(Result<String, E>),
    /// A command was run.
    Ran(Result<Ran, E>),
    /// What a file holds.
    Contents(Result<String, E>),
    /// How what a file should hold and what it holds differ.
    Compared(String),
}

/// What to do next in a test.
#[derive(Debug)]
pub enum TestAction<E> {
    /// Fill in the names of the files to write and of the files to work on.
    RenderNames,
    /// Find which of the files the step works on.
    FilterFiles(Vec<FilePath>),
    /// Copy a directory into another.
    CopyFixture { from: String, to: FilePath },
    /// Write a file.
    WriteFile { path: FilePath, contents: String },
    /// Let templates know the files, and find the workspaces of the paths that they lead to.
    FindWorkspaces(Vec<FilePath>),
    /// Let templates know the workspace.
    EnterWorkspace { indicator: FilePath, dir: FilePath },
    /// Fill in the template of the command of the step.
    RenderRun(String),
    /// Fill in the template of the command to run before.
    RenderBefore,
    /// Fill in the template of the command to run after.
    RenderAfter,
    /// Run a command.
    Run { stage: TestStage, command: String },
    /// Fill in the path of the expected file at that position.
    RenderPath(usize),
    /// Read a file.
    ReadFile(FilePath),
    /// Show how what a file should hold and what it holds differ.
    Compare { expected: String, actual: String },
    /// Return.
    Finish(Result<TestResult, TestFailure<E>>),
    /// Nothing: the event cannot come now.
    Refuse,
}

/// A test of a step.
#[derive(Debug)]
pub struct TestRun {
    pub platform: Platform,
    /// The temporary directory.
    pub sandbox: FilePath,
    /// The directory of the project.
    pub root: FilePath,
    pub phase: TestPhase,
    /// The directory that the test works in.
    pub base: FilePath,
    /// The files that the step works on.
    pub files: Vec<FilePath>,
    /// The files to write, with their contents.
    pub writes: Vec<(FilePath, String)>,
    /// The command of the step, once it is rendered.
    pub run: String,
    /// What the command that runs before wrote to stdout and stderr.
    pub before: (String, String),
    /// What the command of the step came to.
    pub main: Ran,
    /// Why the test fails.
    pub reasons: Vec<String>,
    /// The expected file that is read.
    pub path: FilePath,
}

/// A name with its variables filled in, or as it is where that failed.
pub open spec fn name_text(rendered: Option<String>, name: Seq<char>) -> Seq<char> {
    match rendered {
        Some(r) => r@,
        None => name,
    }
}

/// The files that a test writes, each with its contents, as they are given.
pub open spec fn given_writes(
    test: StepTest,
    rendered: Seq<Option<String>>,
    style: PathStyle,
) -> Seq<(PathView, Seq<char>)> {
    Seq::new(
        rendered.len(),
        |i: int|
            (
                text_path(name_text(rendered[i], test.write.entries()[i].0), style),
                test.write.entries()[i].1@,
            ),
    )
}

/// The position of a path among those that contents are given for; past the last if it is none of
/// them.
pub open spec fn path_position(entries: Seq<(PathView, Seq<char>)>, p: PathView) -> nat
    decreases entries.len(),
{
    if entries.len() == 0 || same_path(entries[0].0, p) {
        0
    } else {
        1 + path_position(entries.drop_first(), p)
    }
}

/// The contents of paths with those of one path set.
pub open spec fn with_contents(
    entries: Seq<(PathView, Seq<char>)>,
    p: PathView,
    contents: Seq<char>,
) -> Seq<(PathView, Seq<char>)> {
    let k = path_position(entries, p) as int;
    if k < entries.len() {
        entries.update(k, (entries[k].0, contents))
    } else {
        entries.push((p, contents))
    }
}

/// The files to write: each path once, where it is first given, with what is last given for it.
pub open spec fn by_path(given: Seq<(PathView, Seq<char>)>) -> Seq<(PathView, Seq<char>)>
    decreases given.len(),
{
    if given.len() == 0 {
        Seq::empty()
    } else {
        with_contents(by_path(given.drop_last()), given.last().0, given.last().1)
    }
}

/// The files to write, with their contents.
pub open spec fn write_views(writes: Seq<(FilePath, String)>) -> Seq<(PathView, Seq<char>)> {
    Seq::new(writes.len(), |i: int| (writes[i].0@, writes[i].1@))
}

/// The files that a test names, or else those that it writes.
pub open spec fn given_files(
    test: StepTest,
    rendered: Seq<Option<String>>,
    writes: Seq<(PathView, Seq<char>)>,
    style: PathStyle,
) -> Seq<PathView> {
    match test.files {
        Some(names) => Seq::new(
            rendered.len(),
            |i: int| text_path(name_text(rendered[i], names@[i]@), style),
        ),
        None => Seq::new(writes.len(), |i: int| writes[i].0),
    }
}

/// Whether a test works in its temporary directory: as it says, or else where one of its files is
/// there.
pub open spec fn in_sandbox(test: StepTest, files: Seq<PathView>, sandbox: PathView) -> bool {
    match test.tmpdir {
        Some(b) => b,
        None => exists|i: int| 0 <= i < files.len() && is_within(#[trigger] files[i], sandbox),
    }
}

/// What is shown of an output where a command ran before.
pub open spec fn shown_output(before: Seq<char>, main: Seq<char>) -> Seq<char> {
    if before.len() == 0 {
        main
    } else {
        "[before]\n"@ + before + "\n[main]\n"@ + main
    }
}

/// A list with an item added, where there is one.
pub open spec fn with_reason(reasons: Seq<Seq<char>>, reason: Option<Seq<char>>) -> Seq<
    Seq<char>,
> {
    match reason {
        Some(r) => reasons.push(r),
        None => reasons,
    }
}

/// Why a test fails for what its commands did.
pub open spec fn command_reasons(test: StepTest, main: Ran, after: Option<i32>) -> Seq<Seq<char>> {
    let a = with_reason(Seq::empty(), exit_code_text(main.code, test.expect.code));
    let b = with_reason(a, after_text(after));
    let c = with_reason(b, missing_text(main.stdout@, test.expect.stdout, "stdout missing: "@));
    with_reason(c, missing_text(main.stderr@, test.expect.stderr, "stderr missing: "@))
}

/// Why a test fails for what a file holds.
pub open spec fn mismatch_text(path: PathView, diff: Seq<char>) -> Seq<char> {
    "file mismatch: "@ + shown_text(path) + "\n"@ + diff
}

/// The directory of a workspace that a file indicates: the current one where the file stands in
/// none.
pub open spec fn workspace_dir(indicator: PathView) -> PathView {
    match parent(indicator) {
        Some(p) if p.bytes.len() > 0 => p,
        _ => PathView { style: indicator.style, bytes: seq![46u8] },
    }
}

impl TestRun {
    /// The same test, waiting for something else.
    pub open spec fn in_phase(self, phase: TestPhase) -> TestRun {
        TestRun { phase, ..self }
    }

    /// Whether what is waited for is there.
    pub open spec fn well_formed(self, test: StepTest) -> bool {
        match self.phase {
            TestPhase::WritingFile(i) => i < self.writes@.len(),
            TestPhase::RenderingPath(i) => i < test.expect.files.entries().len(),
            TestPhase::ReadingFile(i) => i < test.expect.files.entries().len(),
            TestPhase::ComparingFile(i) => i < test.expect.files.entries().len(),
            _ => true,
        }
    }

    /// Whether the test goes on with writing the files from one on.
    pub open spec fn at_writing<E>(self, i: int, action: TestAction<E>) -> bool {
        if i < self.writes@.len() {
            &&& self.phase matches TestPhase::WritingFile(k)
            &&& k == i
            &&& action matches TestAction::WriteFile { path, contents }
            &&& path@ == joined_path(self.base@, self.writes@[i].0@)
            &&& contents@ == self.writes@[i].1@
        } else {
            &&& self.phase == TestPhase::FindingWorkspaces
            &&& action matches TestAction::FindWorkspaces(paths)
            &&& views(paths@) == Seq::new(
                self.files@.len(),
                |k: int| joined_path(self.base@, self.files@[k]@),
            )
        }
    }

    /// Whether the test goes on with copying its fixture, where it has one.
    pub open spec fn at_copying<E>(self, test: StepTest, action: TestAction<E>) -> bool {
        match test.fixture {
            Some(fixture) => {
                &&& self.phase == TestPhase::CopyingFixture
                &&& action matches TestAction::CopyFixture { from, to }
                &&& from@ == fixture@
                &&& to@ == self.base@
            },
            None => self.at_writing(0, action),
        }
    }

    /// Whether the test goes on with the command of the step.
    pub open spec fn at_command<E>(
        self,
        step: Step,
        test: StepTest,
        action: TestAction<E>,
    ) -> bool {
        match step.script_for(test.run.mode()) {
            Some(script) => {
                &&& self.phase == TestPhase::RenderingRun
                &&& action matches TestAction::RenderRun(template)
                &&& template@ == prefixed(step, script.text_on(self.platform))
            },
            None => {
                &&& self.phase == TestPhase::Finished
                &&& action == TestAction::<E>::Finish(Err(TestFailure::NoCommand(step.name)))
            },
        }
    }

    /// Whether the test goes on with running the command of the step.
    pub open spec fn at_main<E>(self, action: TestAction<E>) -> bool {
        &&& self.phase == TestPhase::RunningMain
        &&& action matches TestAction::Run { stage, command }
        &&& stage == TestStage::Main
        &&& command@ == self.run@
    }

    /// Whether the test goes on with the command to run before, where it has one.
    pub open spec fn at_before<E>(self, test: StepTest, action: TestAction<E>) -> bool {
        if test.before is Some {
            &&& self.phase == TestPhase::RenderingBefore
            &&& action == TestAction::<E>::RenderBefore
        } else {
            self.at_main(action)
        }
    }

    /// Whether a result is that of the test.
    pub open spec fn is_result(
        self,
        step: Step,
        name: Seq<char>,
        elapsed_ms: u128,
        r: TestResult,
    ) -> bool {
        &&& r.step@ == step.name@
        &&& r.name@ == name
        &&& r.ok == (self.reasons@.len() == 0)
        &&& r.stdout@ == shown_output(self.before.0@, self.main.stdout@)
        &&& r.stderr@ == shown_output(self.before.1@, self.main.stderr@)
        &&& r.code == self.main.code
        &&& r.duration_ms == elapsed_ms
        &&& text::texts(r.reasons@) == text::texts(self.reasons@)
    }

    /// Whether the test goes on with checking the expected files from one on.
    pub open spec fn at_check<E>(
        self,
        step: Step,
        test: StepTest,
        name: Seq<char>,
        elapsed_ms: u128,
        i: int,
        action: TestAction<E>,
    ) -> bool {
        if i < test.expect.files.entries().len() {
            &&& self.phase matches TestPhase::RenderingPath(k)
            &&& k == i
            &&& action == TestAction::<E>::RenderPath(k)
        } else {
            &&& self.phase == TestPhase::Finished
            &&& action matches TestAction::Finish(Ok(r))
            &&& self.is_result(step, name, elapsed_ms, r)
        }
    }

    /// Whether `now` and `action` are how the test goes on once all its commands were run; `after`
    /// is the exit code of the last, where it failed.
    pub open spec fn follows_commands<E>(
        self,
        step: Step,
        test: StepTest,
        name: Seq<char>,
        elapsed_ms: u128,
        after: Option<i32>,
        now: TestRun,
        action: TestAction<E>,
    ) -> bool {
        &&& now == TestRun { phase: now.phase, reasons: now.reasons, ..self }
        &&& text::texts(now.reasons@) == command_reasons(test, self.main, after)
        &&& now.at_check(step, test, name, elapsed_ms, 0, action)
    }

    /// Whether `now` and `action` are how the test goes on once the names of its files are filled
    /// in.
    pub open spec fn follows_names<E>(
        self,
        test: StepTest,
        writes: Seq<Option<String>>,
        files: Seq<Option<String>>,
        now: TestRun,
        action: TestAction<E>,
    ) -> bool {
        let style = style_of(self.platform);
        let w = by_path(given_writes(test, writes, style));
        let f = given_files(test, files, w, style);
        &&& now == TestRun {
            phase: now.phase,
            base: now.base,
            files: now.files,
            writes: now.writes,
            ..self
        }
        &&& write_views(now.writes@) == w
        &&& views(now.files@) == f
        &&& now.base@ == if in_sandbox(test, f, self.sandbox@) {
            self.sandbox@
        } else {
            self.root@
        }
        &&& if test.files is None {
            &&& now.phase == TestPhase::FilteringFiles
            &&& action matches TestAction::FilterFiles(list)
            &&& views(list@) == f
        } else {
            now.at_copying(test, action)
        }
    }

    /// Whether a result is that of a test whose command to run before failed.
    pub open spec fn is_early_result(
        step: Step,
        name: Seq<char>,
        elapsed_ms: u128,
        ran: Ran,
        r: TestResult,
    ) -> bool {
        &&& r.step@ == step.name@
        &&& r.name@ == name
        &&& !r.ok
        &&& r.stdout@ == ran.stdout@
        &&& r.stderr@ == ran.stderr@
        &&& r.code == ran.code
        &&& r.duration_ms == elapsed_ms
        &&& text::texts(r.reasons@) == seq![
            "before failed with code "@ + text::decimal_int(ran.code as int),
        ]
    }

    /// Whether `now` and `action` are how the test goes on once its workspaces are found.
    pub open spec fn follows_workspaces<E>(
        self,
        step: Step,
        test: StepTest,
        found: Option<Vec<FilePath>>,
        now: TestRun,
        action: TestAction<E>,
    ) -> bool {
        &&& now == self.in_phase(now.phase)
        &&& match found {
            None => now.at_command(step, test, action),
            Some(list) => if list@.len() == 0 {
                &&& now.phase == TestPhase::Finished
                &&& action == TestAction::<E>::Finish(Err(TestFailure::NoWorkspace(step.name)))
            } else if list@.len() == 1 {
                &&& now.phase == TestPhase::EnteringWorkspace
                &&& action matches TestAction::EnterWorkspace { indicator, dir }
                &&& indicator@ == list@[0]@
                &&& dir@ == workspace_dir(list@[0]@)
            } else {
                &&& now.phase == TestPhase::Finished
                &&& action == TestAction::<E>::Finish(
                    Err(TestFailure::ManyWorkspaces { step: step.name, found: list }),
                )
            },
        }
    }

    /// The failure that an event reports, where it answers what the test waits for.
    pub open spec fn reported<E>(self, event: TestEvent<E>) -> Option<E> {
        match (self.phase, event) {
            (TestPhase::FilteringFiles, TestEvent::Filtered(Err(e))) => Some(e),
            (TestPhase::CopyingFixture, TestEvent::Done(Err(e))) => Some(e),
            (TestPhase::WritingFile(_), TestEvent::Done(Err(e))) => Some(e),
            (TestPhase::FindingWorkspaces, TestEvent::Workspaces(Err(e))) => Some(e),
            (TestPhase::RenderingRun, TestEvent::Rendered(Err(e))) => Some(e),
            (TestPhase::RenderingBefore, TestEvent::Rendered(Err(e))) => Some(e),
            (TestPhase::RunningBefore, TestEvent::Ran(Err(e))) => Some(e),
            (TestPhase::RunningMain, TestEvent::Ran(Err(e))) => Some(e),
            (TestPhase::RenderingAfter, TestEvent::Rendered(Err(e))) => Some(e),
            (TestPhase::RunningAfter, TestEvent::Ran(Err(e))) => Some(e),
            (TestPhase::RenderingPath(_), TestEvent::Rendered(Err(e))) => Some(e),
            (TestPhase::ReadingFile(_), TestEvent::Contents(Err(e))) => Some(e),
            _ => None,
        }
    }

    /// Whether `now` and `action` are how the test goes on by an event; `elapsed_ms` is for how
    /// long it has run.
    pub open spec fn follows<E>(
        self,
        step: Step,
        test: StepTest,
        name: Seq<char>,
        elapsed_ms: u128,
        event: TestEvent<E>,
        now: TestRun,
        action: TestAction<E>,
    ) -> bool {
        let moved = now == self.in_phase(now.phase);
        if self.reported(event) is Some {
            &&& now == self.in_phase(TestPhase::Finished)
            &&& action == TestAction::<E>::Finish(
                Err(TestFailure::Outside(self.reported(event)->0)),
            )
        } else {
            match (self.phase, event) {
                (TestPhase::RenderingNames, TestEvent::Names { writes, files }) => if writes@.len()
                    == test.write.entries().len() && files@.len() == (match test.files {
                    Some(names) => names@.len(),
                    None => 0,
                }) {
                    self.follows_names(test, writes@, files@, now, action)
                } else {
                    now == self && action == TestAction::<E>::Refuse
                },
                (TestPhase::FilteringFiles, TestEvent::Filtered(Ok(list))) => {
                    &&& now == TestRun { phase: now.phase, files: list, ..self }
                    &&& now.at_copying(test, action)
                },
                (TestPhase::CopyingFixture, TestEvent::Done(Ok(_))) => moved && now.at_writing(
                    0,
                    action,
                ),
                (TestPhase::WritingFile(i), TestEvent::Done(Ok(_))) => moved && now.at_writing(
                    i + 1,
                    action,
                ),
                (TestPhase::FindingWorkspaces, TestEvent::Workspaces(Ok(found))) =>
                    self.follows_workspaces(step, test, found, now, action),
                (TestPhase::EnteringWorkspace, TestEvent::Ack) => moved && now.at_command(
                    step,
                    test,
                    action,
                ),
                (TestPhase::RenderingRun, TestEvent::Rendered(Ok(run))) => {
                    &&& now == TestRun { phase: now.phase, run, ..self }
                    &&& now.at_before(test, action)
                },
                (TestPhase::RenderingBefore, TestEvent::Rendered(Ok(command))) => {
                    &&& now == self.in_phase(TestPhase::RunningBefore)
                    &&& action == TestAction::<E>::Run { stage: TestStage::Before, command }
                },
                (TestPhase::RunningBefore, TestEvent::Ran(Ok(ran))) => if ran.code != 0 {
                    &&& now == self.in_phase(TestPhase::Finished)
                    &&& action matches TestAction::Finish(Ok(r))
                    &&& TestRun::is_early_result(step, name, elapsed_ms, ran, r)
                } else {
                    &&& now == TestRun {
                        phase: now.phase,
                        before: (ran.stdout, ran.stderr),
                        ..self
                    }
                    &&& now.at_main(action)
                },
                (TestPhase::RunningMain, TestEvent::Ran(Ok(ran))) => {
                    let done = TestRun { main: ran, ..self };
                    if test.after is Some {
                        &&& now == done.in_phase(TestPhase::RenderingAfter)
                        &&& action == TestAction::<E>::RenderAfter
                    } else {
                        done.follows_commands(step, test, name, elapsed_ms, None, now, action)
                    }
                },
                (TestPhase::RenderingAfter, TestEvent::Rendered(Ok(command))) => {
                    &&& now == self.in_phase(TestPhase::RunningAfter)
                    &&& action == TestAction::<E>::Run { stage: TestStage::After, command }
                },
                (TestPhase::RunningAfter, TestEvent::Ran(Ok(ran))) => self.follows_commands(
                    step,
                    test,
                    name,
                    elapsed_ms,
                    if ran.code != 0 {
                        Some(ran.code)
                    } else {
                        None
                    },
                    now,
                    action,
                ),
                (TestPhase::RenderingPath(i), TestEvent::Rendered(Ok(p))) => {
                    &&& now == TestRun {
                        phase: TestPhase::ReadingFile(i),
                        path: now.path,
                        ..self
                    }
                    &&& now.path@ == joined_path(
                        self.base@,
                        text_path(p@, style_of(self.platform)),
                    )
                    &&& action matches TestAction::ReadFile(q)
                    &&& q@ == now.path@
                },
                (TestPhase::ReadingFile(i), TestEvent::Contents(Ok(contents))) => {
                    let expected = test.expect.files.entries()[i as int].1;
                    &&& moved
                    &&& if contents@ == expected@ {
                        now.at_check(step, test, name, elapsed_ms, i + 1, action)
                    } else {
                        &&& now.phase == TestPhase::ComparingFile(i)
                        &&& action matches TestAction::Compare { expected: e, actual }
                        &&& e@ == expected@
                        &&& actual@ == contents@
                    }
                },
                (TestPhase::ComparingFile(i), TestEvent::Compared(diff)) => {
                    &&& now == TestRun { phase: now.phase, reasons: now.reasons, ..self }
                    &&& text::texts(now.reasons@) == text::texts(self.reasons@).push(
                        mismatch_text(self.path@, diff@),
                    )
                    &&& now.at_check(step, test, name, elapsed_ms, i + 1, action)
                },
                _ => now == self && action == TestAction::<E>::Refuse,
            }
        }
    }
}

fn name_of(rendered: &Option<String>, name: &String) -> (r: String)
    ensures
        r@ == name_text(*rendered, name@),
{
    match rendered {
        Some(r) => r.clone(),
        None => name.clone(),
    }
}

proof fn lemma_path_position(entries: Seq<(PathView, Seq<char>)>, p: PathView, k: int)
    requires
        0 <= k <= entries.len(),
        forall|i: int| 0 <= i < k ==> !same_path((#[trigger] entries[i]).0, p),
        k < entries.len() ==> same_path(entries[k].0, p),
    ensures
        path_position(entries, p) == k,
    decreases entries.len(),
{
    if k > 0 {
        assert(entries[0].0 == entries[0].0);
        let rest = entries.drop_first();
        assert forall|i: int| 0 <= i < k - 1 implies !same_path((#[trigger] rest[i]).0, p) by {
            assert(rest[i] == entries[i + 1]);
        }
        lemma_path_position(rest, p, k - 1);
    }
}

/// The files to write, with their contents, as a map holds them.
spec fn map_writes(m: OrderedMap<(FilePath, String)>) -> Seq<(PathView, Seq<char>)> {
    Seq::new(m.entries().len(), |i: int| (m.entries()[i].1.0@, m.entries()[i].1.1@))
}

/// Whether a map holds each path under its key.
spec fn keyed_by_path(m: OrderedMap<(FilePath, String)>) -> bool {
    forall|i: int|
        0 <= i < m.entries().len() ==> (#[trigger] m.entries()[i]).0 == path_key(
            m.entries()[i].1.0@,
        )
}

fn set_contents(m: &mut OrderedMap<(FilePath, String)>, p: FilePath, contents: String)
    requires
        keyed_by_path(*old(m)),
    ensures
        keyed_by_path(*final(m)),
        map_writes(*final(m)) == with_contents(map_writes(*old(m)), p@, contents@),
{
    let ghost before = m.entries();
    let ghost views = map_writes(*m);
    let ghost view = p@;
    let key = p.key();
    proof {
        assert forall|i: int| 0 <= i < before.len() implies (#[trigger] before[i]).0 == key@
            <==> same_path(views[i].0, view) by {
            keys_tell_paths_apart(before[i].1.0@, view);
        }
    }
    match m.get_index_of(key.as_str()) {
        Some(k) => {
            proof {
                assert forall|i: int| 0 <= i < k implies !same_path(
                    (#[trigger] views[i]).0,
                    view,
                ) by {
                    assert(before[i].0 != before[k as int].0);
                }
                assert(before[k as int].0 == key@);
                lemma_path_position(views, view, k as int);
            }
            let first = m.value_at(k).0.copy();
            m.insert(key, (first, contents));
        },
        None => {
            proof {
                assert forall|i: int| 0 <= i < views.len() implies !same_path(
                    (#[trigger] views[i]).0,
                    view,
                ) by {
                    assert(before[i].0 != key@);
                }
                lemma_path_position(views, view, views.len() as int);
            }
            m.insert(key, (p, contents));
        },
    }
    assert(map_writes(*m) =~= with_contents(views, view, contents@));
}

fn writes_of(test: &StepTest, rendered: &Vec<Option<String>>, style: PathStyle) -> (r: Vec<
    (FilePath, String),
>)
    requires
        rendered@.len() == test.write.entries().len(),
    ensures
        write_views(r@) == by_path(given_writes(*test, rendered@, style)),
{
    let ghost given = given_writes(*test, rendered@, style);
    let mut m: OrderedMap<(FilePath, String)> = OrderedMap::new();
    let mut i: usize = 0;
    assert(map_writes(m) =~= by_path(given.take(0)));
    while i < rendered.len()
        invariant
            i <= rendered@.len(),
            rendered@.len() == test.write.entries().len(),
            given == given_writes(*test, rendered@, style),
            keyed_by_path(m),
            map_writes(m) == by_path(given.take(i as int)),
        decreases rendered@.len() - i,
    {
        let name = name_of(&rendered[i], test.write.key_at(i));
        let p = FilePath::from_text(name.as_str(), style);
        proof {
            assert(given.take(i + 1).drop_last() =~= given.take(i as int));
            assert(given.take(i + 1).last() == given[i as int]);
        }
        set_contents(&mut m, p, test.write.value_at(i).clone());
        i = i + 1;
    }
    assert(given.take(i as int) =~= given);
    let ghost all = map_writes(m);
    let mut r: Vec<(FilePath, String)> = Vec::new();
    let n: usize = m.len();
    let mut k: usize = 0;
    while k < n
        invariant
            k <= n,
            n == m.entries().len(),
            all == map_writes(m),
            write_views(r@) == all.take(k as int),
        decreases n - k,
    {
        let ghost before = r@;
        let entry = m.value_at(k);
        r.push((entry.0.copy(), entry.1.clone()));
        assert(write_views(r@) =~= write_views(before).push(all[k as int]));
        assert(all.take(k + 1) =~= all.take(k as int).push(all[k as int]));
        k = k + 1;
    }
    assert(all.take(k as int) =~= all);
    r
}

fn files_of(
    test: &StepTest,
    rendered: &Vec<Option<String>>,
    writes: &Vec<(FilePath, String)>,
    style: PathStyle,
) -> (r: Vec<FilePath>)
    requires
        test.files matches Some(names) ==> rendered@.len() == names@.len(),
    ensures
        views(r@) == given_files(*test, rendered@, write_views(writes@), style),
{
    let ghost all = given_files(*test, rendered@, write_views(writes@), style);
    let mut r: Vec<FilePath> = Vec::new();
    let mut i: usize = 0;
    match &test.files {
        Some(names) => {
            while i < names.len()
                invariant
                    test.files == Some(*names),
                    i <= names@.len(),
                    names@.len() == rendered@.len(),
                    all == given_files(*test, rendered@, write_views(writes@), style),
                    views(r@) == all.take(i as int),
                decreases names@.len() - i,
            {
                let ghost before = r@;
                r.push(FilePath::from_text(name_of(&rendered[i], &names[i]).as_str(), style));
                assert(views(r@) =~= views(before).push(all[i as int]));
                assert(all.take(i + 1) =~= all.take(i as int).push(all[i as int]));
                i = i + 1;
            }
        },
        None => {
            while i < writes.len()
                invariant
                    test.files is None,
                    i <= writes@.len(),
                    all == given_files(*test, rendered@, write_views(writes@), style),
                    views(r@) == all.take(i as int),
                decreases writes@.len() - i,
            {
                let ghost before = r@;
                r.push(writes[i].0.copy());
                assert(views(r@) =~= views(before).push(all[i as int]));
                assert(all.take(i + 1) =~= all.take(i as int).push(all[i as int]));
                i = i + 1;
            }
        },
    }
    assert(all.take(i as int) =~= all);
    r
}

fn uses_sandbox(test: &StepTest, files: &Vec<FilePath>, sandbox: &FilePath) -> (b: bool)
    ensures
        b == in_sandbox(*test, views(files@), sandbox@),
{
    if let Some(b) = test.tmpdir {
        return b;
    }
    let ghost all = views(files@);
    let mut i: usize = 0;
    while i < files.len()
        invariant
            i <= files@.len(),
            test.tmpdir is None,
            all == views(files@),
            forall|k: int| 0 <= k < i ==> !is_within(#[trigger] all[k], sandbox@),
        decreases files@.len() - i,
    {
        assert(all[i as int] == files@[i as int]@);
        if files[i].starts_with(sandbox) {
            return true;
        }
        i = i + 1;
    }
    false
}

fn joined_to(base: &FilePath, files: &Vec<FilePath>) -> (r: Vec<FilePath>)
    ensures
        views(r@) == Seq::new(files@.len(), |k: int| joined_path(base@, files@[k]@)),
{
    let ghost all = Seq::new(files@.len(), |k: int| joined_path(base@, files@[k]@));
    let mut r: Vec<FilePath> = Vec::new();
    let mut i: usize = 0;
    while i < files.len()
        invariant
            i <= files@.len(),
            all == Seq::new(files@.len(), |k: int| joined_path(base@, files@[k]@)),
            views(r@) == all.take(i as int),
        decreases files@.len() - i,
    {
        let ghost before = r@;
        r.push(base.join(&files[i]));
        assert(views(r@) =~= views(before).push(all[i as int]));
        assert(all.take(i + 1) =~= all.take(i as int).push(all[i as int]));
        i = i + 1;
    }
    assert(all.take(i as int) =~= all);
    r
}

fn copies_of(files: &Vec<FilePath>) -> (r: Vec<FilePath>)
    ensures
        views(r@) == views(files@),
{
    let mut r: Vec<FilePath> = Vec::new();
    let mut i: usize = 0;
    while i < files.len()
        invariant
            i <= files@.len(),
            views(r@) == views(files@).take(i as int),
        decreases files@.len() - i,
    {
        let ghost before = r@;
        r.push(files[i].copy());
        assert(views(r@) =~= views(before).push(views(files@)[i as int]));
        assert(views(files@).take(i + 1) =~= views(files@).take(i as int).push(
            views(files@)[i as int],
        ));
        i = i + 1;
    }
    assert(views(files@).take(i as int) =~= views(files@));
    r
}

/// The directory of the workspace that a file indicates.
pub fn directory_of(indicator: &FilePath) -> (r: FilePath)
    ensures
        r@ == workspace_dir(indicator@),
{
    match indicator.parent() {
        Some(p) => {
            if p.bytes.len() > 0 {
                return p;
            }
        },
        None => {},
    }
    let mut bytes: Vec<u8> = Vec::new();
    bytes.push(46u8);
    assert(bytes@ =~= seq![46u8]);
    FilePath { bytes, style: indicator.style }
}

fn output_of(before: &String, main: &String) -> (r: String)
    ensures
        r@ == shown_output(before@, main@),
{
    if before.as_str().unicode_len() == 0 {
        main.clone()
    } else {
        "[before]\n".to_owned().concat(before.as_str()).concat("\n[main]\n").concat(main.as_str())
    }
}

fn add_reason(reasons: &mut Vec<String>, reason: Option<String>)
    ensures
        text::texts(final(reasons)@) == with_reason(text::texts(old(reasons)@), opt_text(reason)),
{
    let ghost before = reasons@;
    if let Some(r) = reason {
        reasons.push(r);
        assert(text::texts(reasons@) =~= text::texts(before).push(r@));
    }
}

fn reasons_of(test: &StepTest, main: &Ran, after_fail: &Option<(i32, String, String)>) -> (r: Vec<
    String,
>)
    ensures
        text::texts(r@) == command_reasons(*test, *main, after_code(*after_fail)),
{
    let mut r: Vec<String> = Vec::new();
    assert(text::texts(r@) =~= Seq::empty());
    add_reason(&mut r, test_runner::check_exit_code(main.code, test.expect.code));
    add_reason(&mut r, test_runner::check_after_fail(after_fail));
    add_reason(
        &mut r,
        test_runner::check_stdout_contains(main.stdout.as_str(), &test.expect.stdout),
    );
    add_reason(
        &mut r,
        test_runner::check_stderr_contains(main.stderr.as_str(), &test.expect.stderr),
    );
    r
}

/// Why a test fails for a file that does not hold what it should.
pub fn mismatch(path: &FilePath, diff: &str) -> (r: String)
    ensures
        r@ == mismatch_text(path@, diff@),
{
    "file mismatch: ".to_owned().concat(path.display().as_str()).concat("\n").concat(diff)
}

impl<E> TestFailure<E> {
    /// The message for the failure, where it is no other's; `shown` is how the workspaces that
    /// were found are shown.
    pub open spec fn text(self, shown: Seq<char>) -> Option<Seq<char>> {
        match self {
            TestFailure::Outside(_) => None,
            TestFailure::NoWorkspace(step) => Some(
                step@ + ": no workspace_indicator found for files"@,
            ),
            TestFailure::ManyWorkspaces { step, found } => Some(
                step@ + ": expected exactly one workspace_indicator, found "@ + text::decimal(
                    found@.len(),
                ) + ": "@ + shown,
            ),
            TestFailure::NoCommand(step) => Some(step@ + ": no command for test"@),
        }
    }

    /// The message for the failure.
    pub fn message(&self, shown: &str) -> (r: Option<String>)
        ensures
            opt_text(r) == self.text(shown@),
    {
        match self {
            TestFailure::Outside(_) => None,
            TestFailure::NoWorkspace(step) => Some(
                step.clone().concat(": no workspace_indicator found for files"),
            ),
            TestFailure::ManyWorkspaces { step, found } => Some(
                step.clone().concat(": expected exactly one workspace_indicator, found ").concat(
                    text::decimal_text(found.len() as u64).as_str(),
                ).concat(": ").concat(shown),
            ),
            TestFailure::NoCommand(step) => Some(step.clone().concat(": no command for test")),
        }
    }
}

impl TestRun {
    fn enter<E>(self, phase: TestPhase, action: TestAction<E>) -> (r: (TestRun, TestAction<E>))
        ensures
            r.0 == self.in_phase(phase),
            r.1 == action,
    {
        let mut run = self;
        run.phase = phase;
        (run, action)
    }

    fn fail<E>(self, failure: TestFailure<E>) -> (r: (TestRun, TestAction<E>))
        ensures
            r.0 == self.in_phase(TestPhase::Finished),
            r.1 == TestAction::<E>::Finish(Err(failure)),
    {
        self.enter(TestPhase::Finished, TestAction::Finish(Err(failure)))
    }

    fn to_writing<E>(self, i: usize) -> (r: (TestRun, TestAction<E>))
        ensures
            r.0 == self.in_phase(r.0.phase),
            r.0.at_writing(i as int, r.1),
    {
        if i < self.writes.len() {
            let path = self.base.join(&self.writes[i].0);
            let contents = self.writes[i].1.clone();
            self.enter(TestPhase::WritingFile(i), TestAction::WriteFile { path, contents })
        } else {
            let paths = joined_to(&self.base, &self.files);
            self.enter(TestPhase::FindingWorkspaces, TestAction::FindWorkspaces(paths))
        }
    }

    fn to_copying<E>(self, test: &StepTest) -> (r: (TestRun, TestAction<E>))
        ensures
            r.0 == self.in_phase(r.0.phase),
            r.0.at_copying(*test, r.1),
    {
        match &test.fixture {
            Some(fixture) => {
                let from = fixture.clone();
                let to = self.base.copy();
                self.enter(TestPhase::CopyingFixture, TestAction::CopyFixture { from, to })
            },
            None => self.to_writing(0),
        }
    }

    fn to_command<E>(self, step: &Step, test: &StepTest) -> (r: (TestRun, TestAction<E>))
        ensures
            r.0 == self.in_phase(r.0.phase),
            r.0.at_command(*step, *test, r.1),
    {
        let mode = JobMode { check_first: false, run_type: test.run.run_type() };
        match step.command_template(mode, self.platform) {
            Some(template) => self.enter(TestPhase::RenderingRun, TestAction::RenderRun(template)),
            None => self.fail(TestFailure::NoCommand(step.name.clone())),
        }
    }

    fn to_main<E>(self) -> (r: (TestRun, TestAction<E>))
        ensures
            r.0 == self.in_phase(r.0.phase),
            r.0.at_main(r.1),
    {
        let command = self.run.clone();
        self.enter(TestPhase::RunningMain, TestAction::Run { stage: TestStage::Main, command })
    }

    fn to_check<E>(
        self,
        step: &Step,
        test: &StepTest,
        name: &str,
        elapsed_ms: u128,
        i: usize,
    ) -> (r: (TestRun, TestAction<E>))
        ensures
            r.0 == self.in_phase(r.0.phase),
            r.0.at_check(*step, *test, name@, elapsed_ms, i as int, r.1),
    {
        if i < test.expect.files.len() {
            self.enter(TestPhase::RenderingPath(i), TestAction::RenderPath(i))
        } else {
            let reasons = self.reasons.clone();
            assert(text::texts(reasons@) =~= text::texts(self.reasons@));
            let result = TestResult {
                step: step.name.clone(),
                name: name.to_owned(),
                ok: self.reasons.len() == 0,
                stdout: output_of(&self.before.0, &self.main.stdout),
                stderr: output_of(&self.before.1, &self.main.stderr),
                code: self.main.code,
                duration_ms: elapsed_ms,
                reasons,
            };
            self.enter(TestPhase::Finished, TestAction::Finish(Ok(result)))
        }
    }

    fn to_reasons<E>(
        self,
        step: &Step,
        test: &StepTest,
        name: &str,
        elapsed_ms: u128,
        after_fail: &Option<(i32, String, String)>,
    ) -> (r: (TestRun, TestAction<E>))
        ensures
            self.follows_commands(
                *step,
                *test,
                name@,
                elapsed_ms,
                after_code(*after_fail),
                r.0,
                r.1,
            ),
    {
        let mut run = self;
        run.reasons = reasons_of(test, &run.main, after_fail);
        run.to_check(step, test, name, elapsed_ms, 0)
    }

    fn with_names<E>(
        self,
        test: &StepTest,
        writes: &Vec<Option<String>>,
        files: &Vec<Option<String>>,
    ) -> (r: (TestRun, TestAction<E>))
        requires
            writes@.len() == test.write.entries().len(),
            test.files matches Some(names) ==> files@.len() == names@.len(),
        ensures
            self.follows_names(*test, writes@, files@, r.0, r.1),
    {
        let mut run = self;
        let style = run.platform.path_style();
        run.writes = writes_of(test, writes, style);
        run.files = files_of(test, files, &run.writes, style);
        run.base = if uses_sandbox(test, &run.files, &run.sandbox) {
            run.sandbox.copy()
        } else {
            run.root.copy()
        };
        if test.files.is_none() {
            let list = copies_of(&run.files);
            run.enter(TestPhase::FilteringFiles, TestAction::FilterFiles(list))
        } else {
            run.to_copying(test)
        }
    }

    fn with_workspaces<E>(self, step: &Step, test: &StepTest, found: Option<Vec<FilePath>>) -> (r: (
        TestRun,
        TestAction<E>,
    ))
        ensures
            self.follows_workspaces(*step, *test, found, r.0, r.1),
    {
        match found {
            None => self.to_command(step, test),
            Some(list) => {
                if list.len() == 0 {
                    self.fail(TestFailure::NoWorkspace(step.name.clone()))
                } else if list.len() == 1 {
                    let indicator = list[0].copy();
                    let dir = directory_of(&indicator);
                    self.enter(
                        TestPhase::EnteringWorkspace,
                        TestAction::EnterWorkspace { indicator, dir },
                    )
                } else {
                    self.fail(
                        TestFailure::ManyWorkspaces { step: step.name.clone(), found: list },
                    )
                }
            },
        }
    }

    /// Takes the test on by an event, and says what to do next; `elapsed_ms` is for how long it
    /// has run.
    pub fn step<E>(
        self,
        step: &Step,
        test: &StepTest,
        name: &str,
        elapsed_ms: u128,
        event: TestEvent<E>,
    ) -> (r: (TestRun, TestAction<E>))
        requires
            self.well_formed(*test),
        ensures
            self.follows(*step, *test, name@, elapsed_ms, event, r.0, r.1),
            r.0.well_formed(*test),
    {
        match (self.phase, event) {
            (TestPhase::RenderingNames, TestEvent::Names { writes, files }) => {
                let named: usize = match &test.files {
                    Some(names) => names.len(),
                    None => 0,
                };
                if writes.len() == test.write.len() && files.len() == named {
                    self.with_names(test, &writes, &files)
                } else {
                    (self, TestAction::Refuse)
                }
            },
            (TestPhase::FilteringFiles, TestEvent::Filtered(Ok(list))) => {
                let mut run = self;
                run.files = list;
                run.to_copying(test)
            },
            (TestPhase::FilteringFiles, TestEvent::Filtered(Err(e))) => self.fail(
                TestFailure::Outside(e),
            ),
            (TestPhase::CopyingFixture, TestEvent::Done(Ok(_))) => self.to_writing(0),
            (TestPhase::CopyingFixture, TestEvent::Done(Err(e))) => self.fail(
                TestFailure::Outside(e),
            ),
            (TestPhase::WritingFile(i), TestEvent::Done(Ok(_))) => {
                assert(i < self.writes.len());
                self.to_writing(i + 1)
            },
            (TestPhase::WritingFile(_), TestEvent::Done(Err(e))) => self.fail(
                TestFailure::Outside(e),
            ),
            (TestPhase::FindingWorkspaces, TestEvent::Workspaces(Ok(found))) =>
                self.with_workspaces(step, test, found),
            (TestPhase::FindingWorkspaces, TestEvent::Workspaces(Err(e))) => self.fail(
                TestFailure::Outside(e),
            ),
            (TestPhase::EnteringWorkspace, TestEvent::Ack) => self.to_command(step, test),
            (TestPhase::RenderingRun, TestEvent::Rendered(Ok(command))) => {
                let mut run = self;
                run.run = command;
                if test.before.is_some() {
                    run.enter(TestPhase::RenderingBefore, TestAction::RenderBefore)
                } else {
                    run.to_main()
                }
            },
            (TestPhase::RenderingRun, TestEvent::Rendered(Err(e))) => self.fail(
                TestFailure::Outside(e),
            ),
            (TestPhase::RenderingBefore, TestEvent::Rendered(Ok(command))) => self.enter(
                TestPhase::RunningBefore,
                TestAction::Run { stage: TestStage::Before, command },
            ),
            (TestPhase::RenderingBefore, TestEvent::Rendered(Err(e))) => self.fail(
                TestFailure::Outside(e),
            ),
            (TestPhase::RunningBefore, TestEvent::Ran(Ok(ran))) => {
                if ran.code != 0 {
                    let mut reasons: Vec<String> = Vec::new();
                    reasons.push(
                        "before failed with code ".to_owned().concat(
                            text::decimal_code(ran.code).as_str(),
                        ),
                    );
                    assert(text::texts(reasons@) =~= seq![
                        "before failed with code "@ + text::decimal_int(ran.code as int),
                    ]);
                    let result = TestResult {
                        step: step.name.clone(),
                        name: name.to_owned(),
                        ok: false,
                        stdout: ran.stdout,
                        stderr: ran.stderr,
                        code: ran.code,
                        duration_ms: elapsed_ms,
                        reasons,
                    };
                    self.enter(TestPhase::Finished, TestAction::Finish(Ok(result)))
                } else {
                    let mut run = self;
                    run.before = (ran.stdout, ran.stderr);
                    run.to_main()
                }
            },
            (TestPhase::RunningBefore, TestEvent::Ran(Err(e))) => self.fail(
                TestFailure::Outside(e),
            ),
            (TestPhase::RunningMain, TestEvent::Ran(Ok(ran))) => {
                let mut run = self;
                run.main = ran;
                if test.after.is_some() {
                    run.enter(TestPhase::RenderingAfter, TestAction::RenderAfter)
                } else {
                    run.to_reasons(step, test, name, elapsed_ms, &None)
                }
            },
            (TestPhase::RunningMain, TestEvent::Ran(Err(e))) => self.fail(TestFailure::Outside(e)),
            (TestPhase::RenderingAfter, TestEvent::Rendered(Ok(command))) => self.enter(
                TestPhase::RunningAfter,
                TestAction::Run { stage: TestStage::After, command },
            ),
            (TestPhase::RenderingAfter, TestEvent::Rendered(Err(e))) => self.fail(
                TestFailure::Outside(e),
            ),
            (TestPhase::RunningAfter, TestEvent::Ran(Ok(ran))) => {
                let after_fail = if ran.code != 0 {
                    Some((ran.code, ran.stdout, ran.stderr))
                } else {
                    None
                };
                self.to_reasons(step, test, name, elapsed_ms, &after_fail)
            },
            (TestPhase::RunningAfter, TestEvent::Ran(Err(e))) => self.fail(TestFailure::Outside(e)),
            (TestPhase::RenderingPath(i), TestEvent::Rendered(Ok(p))) => {
                let mut run = self;
                let p = FilePath::from_text(p.as_str(), run.platform.path_style());
                run.path = run.base.join(&p);
                let path = run.path.copy();
                run.enter(TestPhase::ReadingFile(i), TestAction::ReadFile(path))
            },
            (TestPhase::RenderingPath(_), TestEvent::Rendered(Err(e))) => self.fail(
                TestFailure::Outside(e),
            ),
            (TestPhase::ReadingFile(i), TestEvent::Contents(Ok(contents))) => {
                let count: usize = test.expect.files.len();
                assert(i < count);
                let expected = test.expect.files.value_at(i);
                if text::same(contents.as_str(), expected.as_str()) {
                    self.to_check(step, test, name, elapsed_ms, i + 1)
                } else {
                    self.enter(
                        TestPhase::ComparingFile(i),
                        TestAction::Compare { expected: expected.clone(), actual: contents },
                    )
                }
            },
            (TestPhase::ReadingFile(_), TestEvent::Contents(Err(e))) => self.fail(
                TestFailure::Outside(e),
            ),
            (TestPhase::ComparingFile(i), TestEvent::Compared(diff)) => {
                let count: usize = test.expect.files.len();
                assert(i < count);
                let mut run = self;
                let reason = mismatch(&run.path, diff.as_str());
                let mut reasons = run.reasons.clone();
                reasons.push(reason);
                run.reasons = reasons;
                assert(text::texts(run.reasons@) =~= text::texts(self.reasons@).push(reason@));
                run.to_check(step, test, name, elapsed_ms, i + 1)
            },
            _ => (self, TestAction::Refuse),
        }
    }
}

/// The directory of the project: the one that holds what marks it, or else the current one.
pub open spec fn root_of(mark: Option<PathView>, cwd: PathView) -> PathView {
    match mark {
        Some(p) => match parent(p) {
            Some(dir) => dir,
            None => cwd,
        },
        None => cwd,
    }
}

/// The directory of the project, given where its mark was found and the current directory.
pub fn project_root(mark: &Option<FilePath>, cwd: FilePath) -> (r: FilePath)
    ensures
        r@ == root_of(
            match *mark {
                Some(p) => Some(p@),
                None => None,
            },
            cwd@,
        ),
{
    if let Some(p) = mark {
        if let Some(dir) = p.parent() {
            return dir;
        }
    }
    cwd
}

impl TestRun {
    /// The directory that the commands of the test are run in.
    pub fn command_dir(&self) -> (r: &FilePath)
        ensures
            *r == self.base,
    {
        &self.base
    }

    /// Starts a command that the test asks to run.
    pub fn start_command<E>(&self, step: &Step, test: &StepTest, stage: TestStage, command: &str) -> (
    r: (CommandRun, CommandAction<E>))
        ensures
            starts_command(
                *step,
                *test,
                self.platform,
                self.base@,
                command@,
                stage,
                r.0,
                r.1,
            ),
    {
        execute_cmd(step, test, self.platform, self.command_dir(), command, stage)
    }
}

/// Starts a test of a step, given its temporary directory and the directory of the project.
pub fn run_test_named<E>(platform: Platform, sandbox: FilePath, root: FilePath) -> (r: (
    TestRun,
    TestAction<E>,
))
    ensures
        r.0.platform == platform,
        r.0.sandbox == sandbox,
        r.0.root == root,
        r.0.phase == TestPhase::RenderingNames,
        r.0.before.0@.len() == 0,
        r.0.before.1@.len() == 0,
        r.0.reasons@.len() == 0,
        r.1 == TestAction::<E>::RenderNames,
{
    let run = TestRun {
        platform,
        base: root.copy(),
        sandbox,
        root,
        phase: TestPhase::RenderingNames,
        files: Vec::new(),
        writes: Vec::new(),
        run: String::new(),
        before: (String::new(), String::new()),
        main: Ran { stdout: String::new(), stderr: String::new(), code: 0 },
        reasons: Vec::new(),
        path: FilePath { bytes: Vec::new(), style: platform.path_style() },
    };
    (run, TestAction::RenderNames)
}

} // verus!
