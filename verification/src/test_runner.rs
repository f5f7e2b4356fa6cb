//! Tests of steps.
use crate::component::PathView;
use crate::ordered_map::OrderedMap;
use crate::path::FilePath;
use crate::step::runner::{self, CommandLine};
use crate::step::types::{opt_text, Platform, RunType, Step};
use crate::text;
use vstd::prelude::*;

verus! {

/// The mode in which a test runs its step.
#[derive(Clone, Copy, Debug, PartialEq, Eq, Structural)]
pub enum RunKind {
    Fix,
    Check,
}

impl RunKind {
    /// The mode of the step.
    pub open spec fn mode(self) -> RunType {
        match self {
            RunKind::Fix => RunType::Fix,
            RunKind::Check => RunType::Check,
        }
    }

    /// The mode of the step.
    pub fn run_type(self) -> (r: RunType)
        ensures
            r == self.mode(),
    {
        match self {
            RunKind::Fix => RunType::Fix,
            RunKind::Check => RunType::Check,
        }
    }
}

/// What a test expects of its command.
#[derive(Clone, Debug)]
pub struct Expectation {
    /// The exit code.
    pub code: i32,
    /// A text that stdout must contain.
    pub stdout: Option<String>,
    /// A text that stderr must contain.
    pub stderr: Option<String>,
    /// The contents that files must have.
    pub files: OrderedMap<String>,
}

/// A test of a step.
#[derive(Clone, Debug)]
pub struct StepTest {
    /// The mode in which the step runs.
    pub run: RunKind,
    /// The files that the step works on.
    pub files: Option<Vec<String>>,
    /// Files to write beforehand, with their contents.
    pub write: OrderedMap<String>,
    /// Directory to copy beforehand.
    pub fixture: Option<String>,
    /// Environment variables of the commands.
    pub env: OrderedMap<String>,
    /// Command to run before the step.
    pub before: Option<String>,
    /// Command to run after the step.
    pub after: Option<String>,
    /// Whether to work in a temporary directory.
    pub tmpdir: Option<bool>,
    /// What is expected.
    pub expect: Expectation,
}

/// What came of a test.
#[derive(Clone, Debug, PartialEq, Eq)]
pub struct TestResult {
    pub step: String,
    pub name: String,
    pub ok: bool,
    pub stdout: String,
    pub stderr: String,
    pub code: i32,
    pub duration_ms: u128,
    /// Why the test failed.
    pub reasons: Vec<String>,
}

/// What is said of an exit code.
pub open spec fn exit_code_text(actual: i32, expected: i32) -> Option<Seq<char>> {
    if actual != expected {
        Some(
            "exit code "@ + text::decimal_int(actual as int) + " != expected "@
                + text::decimal_int(expected as int),
        )
    } else {
        None
    }
}

/// What is said of the command that ran after the step.
pub open spec fn after_text(code: Option<i32>) -> Option<Seq<char>> {
    match code {
        Some(c) => Some("after failed with code "@ + text::decimal_int(c as int)),
        None => None,
    }
}

/// What is said of an output that has to contain a text.
pub open spec fn missing_text(
    output: Seq<char>,
    expected: Option<String>,
    label: Seq<char>,
) -> Option<Seq<char>> {
    match expected {
        Some(needle) => if text::occurs_in(output, needle@) {
            None
        } else {
            Some(label + needle@)
        },
        None => None,
    }
}

/// Why a test fails for its exit code, if it does.
pub fn check_exit_code(actual: i32, expected: i32) -> (r: Option<String>)
    ensures
        opt_text(r) == exit_code_text(actual, expected),
{
    if actual != expected {
        Some(
            "exit code ".to_owned().concat(text::decimal_code(actual).as_str()).concat(
                " != expected ",
            ).concat(text::decimal_code(expected).as_str()),
        )
    } else {
        None
    }
}

/// The exit code of the command that ran after the step, if it failed.
pub open spec fn after_code(after_fail: Option<(i32, String, String)>) -> Option<i32> {
    match after_fail {
        Some((code, _, _)) => Some(code),
        None => None,
    }
}

/// Why a test fails for the command that ran after the step, if it does.
pub fn check_after_fail(after_fail: &Option<(i32, String, String)>) -> (r: Option<String>)
    ensures
        opt_text(r) == after_text(after_code(*after_fail)),
{
    match after_fail {
        Some((code, _, _)) => Some(
            "after failed with code ".to_owned().concat(text::decimal_code(*code).as_str()),
        ),
        None => None,
    }
}

fn check_contains(output: &str, expected: &Option<String>, label: &str) -> (r: Option<String>)
    ensures
        opt_text(r) == missing_text(output@, *expected, label@),
{
    match expected {
        Some(needle) => {
            if text::contains(output, needle.as_str()) {
                None
            } else {
                Some(label.to_owned().concat(needle.as_str()))
            }
        },
        None => None,
    }
}

/// Why a test fails for what its command wrote to stdout, if it does.
pub fn check_stdout_contains(stdout: &str, expected: &Option<String>) -> (r: Option<String>)
    ensures
        opt_text(r) == missing_text(stdout@, *expected, "stdout missing: "@),
{
    check_contains(stdout, expected, "stdout missing: ")
}

/// Why a test fails for what its command wrote to stderr, if it does.
pub fn check_stderr_contains(stderr: &str, expected: &Option<String>) -> (r: Option<String>)
    ensures
        opt_text(r) == missing_text(stderr@, *expected, "stderr missing: "@),
{
    check_contains(stderr, expected, "stderr missing: ")
}

/// What a command of a test came to.
#[derive(Clone, Debug, PartialEq, Eq)]
pub struct Ran {
    pub stdout: String,
    pub stderr: String,
    pub code: i32,
}

/// What came of a command of a test; the code is none where a signal ended it.
#[derive(Debug)]
pub enum TestOutcome<E> {
    Success { stdout: String, stderr: String, code: Option<i32> },
    /// The command ran and failed.
    ScriptFailed { stdout: String, stderr: String, code: Option<i32> },
    /// The command could not be run.
    Error(E),
}

/// Which command of a test is run.
#[derive(Clone, Copy, Debug, PartialEq, Eq, Structural)]
pub enum TestStage {
    Before,
    Main,
    After,
}

impl TestStage {
    /// Whether the command gets what the step pipes to its own: the commands that run before and
    /// after it do not.
    pub fn pipes_stdin(self) -> (b: bool)
        ensures
            b == (self == TestStage::Main),
    {
        matches!(self, TestStage::Main)
    }
}

/// A command of a test with all that it is started with.
#[derive(Clone, Debug)]
pub struct TestCommand {
    pub line: CommandLine,
    /// The directory to run the command in.
    pub dir: FilePath,
    pub stdin: Option<String>,
    /// Environment variables with their values, in order: a later one replaces an earlier one of
    /// the same name.
    pub env: Vec<(String, String)>,
}

/// What a command of a test waits for.
#[derive(Clone, Copy, Debug, PartialEq, Eq, Structural)]
pub enum CommandPhase {
    RenderingStdin,
    /// Which environment variable of the step is rendered.
    RenderingEnv(usize),
    Executing,
    Finished,
}

/// What came of what a command of a test asked for.
#[derive(Debug)]
pub enum CommandEvent<E> {
    /// A template with its variables filled in.
    Rendered(Result<String, E>),
    Executed(TestOutcome<E>),
}

/// What to do next for a command of a test.
#[derive(Debug)]
pub enum CommandAction<E> {
    /// Fill in the template for stdin.
    RenderStdin,
    /// Fill in the template for the environment variable of the step at that position.
    RenderEnv(usize),
    /// Run the command.
    Execute(TestCommand),
    /// Return.
    Finish(Result<Ran, E>),
    /// Nothing: the event cannot come now.
    Refuse,
}

/// A command of a test.
#[derive(Debug)]
pub struct CommandRun {
    pub platform: Platform,
    /// The directory to run the command in.
    pub dir: FilePath,
    /// The command, with its variables filled in.
    pub command: String,
    pub phase: CommandPhase,
    /// What to pipe to the command, once it is rendered.
    pub stdin: Option<String>,
    /// The values of the environment variables that are rendered.
    pub env: Vec<String>,
}

/// The command line that a test runs a command by: in the shell of the step, where it has one,
/// and `sh` where the setting names no program.
pub open spec fn is_test_line(
    line: CommandLine,
    step: Step,
    platform: Platform,
    command: Seq<char>,
) -> bool {
    if step.shell is Some {
        let words = text::words(step.shell_text(platform));
        if words.len() == 0 {
            line.program@ == "sh"@ && text::texts(line.args@) == seq![command]
        } else {
            line.program@ == words[0] && text::texts(line.args@) == words.drop_first().push(
                command,
            )
        }
    } else {
        runner::is_default_line(line, command, platform)
    }
}

/// The variables of a command, as texts.
pub open spec fn pair_texts(env: Seq<(String, String)>) -> Seq<(Seq<char>, Seq<char>)> {
    Seq::new(env.len(), |i: int| (env[i].0@, env[i].1@))
}

/// The variables of a map, as texts.
pub open spec fn map_texts(m: OrderedMap<String>) -> Seq<(Seq<char>, Seq<char>)> {
    Seq::new(m.entries().len(), |i: int| (m.entries()[i].0, m.entries()[i].1@))
}

/// The variables of a command of a test: those of the step with their values, then those of the
/// test.
pub open spec fn test_env(step: Step, values: Seq<Seq<char>>, test: StepTest) -> Seq<
    (Seq<char>, Seq<char>),
> {
    Seq::new(values.len(), |i: int| (step.env.entries()[i].0, values[i])) + map_texts(test.env)
}

impl CommandRun {
    /// The same command, waiting for something else.
    pub open spec fn in_phase(self, phase: CommandPhase) -> CommandRun {
        CommandRun { phase, ..self }
    }

    /// Whether the values that are rendered so far are those before the one that is waited for.
    pub open spec fn well_formed(self, step: Step) -> bool {
        self.phase matches CommandPhase::RenderingEnv(i) ==> self.env@.len() == i && i
            < step.env.entries().len()
    }

    /// Whether `now` and `action` are how the command goes on once the values of the environment
    /// variables are rendered as far as they are given.
    pub open spec fn follows_env<E>(
        self,
        step: Step,
        test: StepTest,
        stdin: Option<Seq<char>>,
        values: Seq<Seq<char>>,
        now: CommandRun,
        action: CommandAction<E>,
    ) -> bool {
        &&& now == CommandRun { phase: now.phase, stdin: now.stdin, env: now.env, ..self }
        &&& opt_text(now.stdin) == stdin
        &&& text::texts(now.env@) == values
        &&& if values.len() < step.env.entries().len() {
            &&& now.phase matches CommandPhase::RenderingEnv(i)
            &&& i == values.len()
            &&& action == CommandAction::<E>::RenderEnv(i)
        } else {
            &&& now.phase == CommandPhase::Executing
            &&& action matches CommandAction::Execute(cmd)
            &&& is_test_line(cmd.line, step, self.platform, self.command@)
            &&& cmd.dir@ == self.dir@
            &&& opt_text(cmd.stdin) == stdin
            &&& pair_texts(cmd.env@) == test_env(step, values, test)
        }
    }

    /// Whether `now` and `action` are how the command goes on by an event.
    pub open spec fn follows<E>(
        self,
        step: Step,
        test: StepTest,
        event: CommandEvent<E>,
        now: CommandRun,
        action: CommandAction<E>,
    ) -> bool {
        let over = self.in_phase(CommandPhase::Finished);
        match (self.phase, event) {
            (CommandPhase::RenderingStdin, CommandEvent::Rendered(Ok(stdin))) => self.follows_env(
                step,
                test,
                Some(stdin@),
                Seq::empty(),
                now,
                action,
            ),
            (CommandPhase::RenderingEnv(_), CommandEvent::Rendered(Ok(value))) => self.follows_env(
                step,
                test,
                opt_text(self.stdin),
                text::texts(self.env@).push(value@),
                now,
                action,
            ),
            (CommandPhase::RenderingStdin, CommandEvent::Rendered(Err(e))) => {
                &&& now == over
                &&& action == CommandAction::<E>::Finish(Err(e))
            },
            (CommandPhase::RenderingEnv(_), CommandEvent::Rendered(Err(e))) => {
                &&& now == over
                &&& action == CommandAction::<E>::Finish(Err(e))
            },
            (CommandPhase::Executing, CommandEvent::Executed(outcome)) => {
                &&& now == over
                &&& action == CommandAction::<E>::Finish(ran(outcome))
            },
            _ => now == self && action == CommandAction::<E>::Refuse,
        }
    }
}

/// What a command of a test came to: where a signal ended it, the code is that of success or that
/// of failure.
pub open spec fn ran<E>(outcome: TestOutcome<E>) -> Result<Ran, E> {
    match outcome {
        TestOutcome::Success { stdout, stderr, code } => Ok(
            Ran { stdout, stderr, code: if code is Some { code->0 } else { 0 } },
        ),
        TestOutcome::ScriptFailed { stdout, stderr, code } => Ok(
            Ran { stdout, stderr, code: if code is Some { code->0 } else { 1 } },
        ),
        TestOutcome::Error(e) => Err(e),
    }
}

fn test_line(step: &Step, platform: Platform, command: &str) -> (r: CommandLine)
    ensures
        is_test_line(r, *step, platform, command@),
{
    match &step.shell {
        Some(shell) => runner::shell_cmd(shell.to_text(platform).as_str(), command),
        None => runner::default_shell_cmd(command, platform),
    }
}

fn test_variables(step: &Step, values: &Vec<String>, test: &StepTest) -> (r: Vec<(String, String)>)
    requires
        values@.len() == step.env.entries().len(),
    ensures
        pair_texts(r@) == test_env(*step, text::texts(values@), *test),
{
    let ghost all = test_env(*step, text::texts(values@), *test);
    let mut r: Vec<(String, String)> = Vec::new();
    let mut i: usize = 0;
    while i < values.len()
        invariant
            i <= values@.len(),
            values@.len() == step.env.entries().len(),
            all == test_env(*step, text::texts(values@), *test),
            pair_texts(r@) == all.take(i as int),
        decreases values@.len() - i,
    {
        let ghost before = r@;
        r.push((step.env.key_at(i).clone(), values[i].clone()));
        assert(pair_texts(r@) =~= pair_texts(before).push(all[i as int]));
        assert(all.take(i + 1) =~= all.take(i as int).push(all[i as int]));
        i = i + 1;
    }
    let mut k: usize = 0;
    let n: usize = test.env.len();
    while k < n
        invariant
            k <= n,
            n == test.env.entries().len(),
            all == test_env(*step, text::texts(values@), *test),
            pair_texts(r@) == all.take(values@.len() + k),
        decreases n - k,
    {
        let ghost before = r@;
        r.push((test.env.key_at(k).clone(), test.env.value_at(k).clone()));
        assert(pair_texts(r@) =~= pair_texts(before).push(all[values@.len() + k]));
        assert(all.take(values@.len() + k + 1) =~= all.take(values@.len() + k).push(
            all[values@.len() + k],
        ));
        k = k + 1;
    }
    assert(all.take(values@.len() + n) =~= all);
    r
}

impl CommandRun {
    fn with_env<E>(self, step: &Step, test: &StepTest, stdin: Option<String>, env: Vec<String>) -> (
    r: (CommandRun, CommandAction<E>))
        requires
            env@.len() <= step.env.entries().len(),
        ensures
            self.follows_env(
                *step,
                *test,
                opt_text(stdin),
                text::texts(env@),
                r.0,
                r.1,
            ),
            r.0.well_formed(*step),
    {
        let rendered: usize = env.len();
        let (phase, action) = if rendered < step.env.len() {
            (CommandPhase::RenderingEnv(rendered), CommandAction::RenderEnv(rendered))
        } else {
            let cmd = TestCommand {
                line: test_line(step, self.platform, self.command.as_str()),
                dir: self.dir.copy(),
                stdin: stdin.clone(),
                env: test_variables(step, &env, test),
            };
            (CommandPhase::Executing, CommandAction::Execute(cmd))
        };
        let run = CommandRun {
            platform: self.platform,
            dir: self.dir,
            command: self.command,
            phase,
            stdin,
            env,
        };
        (run, action)
    }

    fn finish<E>(self, result: Result<Ran, E>) -> (r: (CommandRun, CommandAction<E>))
        ensures
            r.0 == self.in_phase(CommandPhase::Finished),
            r.1 == CommandAction::<E>::Finish(result),
    {
        let run = CommandRun {
            platform: self.platform,
            dir: self.dir,
            command: self.command,
            phase: CommandPhase::Finished,
            stdin: self.stdin,
            env: self.env,
        };
        (run, CommandAction::Finish(result))
    }

    /// Takes the command on by an event, and says what to do next.
    pub fn step<E>(self, step: &Step, test: &StepTest, event: CommandEvent<E>) -> (r: (
        CommandRun,
        CommandAction<E>,
    ))
        requires
            self.well_formed(*step),
        ensures
            self.follows(*step, *test, event, r.0, r.1),
            r.0.well_formed(*step),
    {
        match (self.phase, event) {
            (CommandPhase::RenderingStdin, CommandEvent::Rendered(Ok(stdin))) => {
                let none: Vec<String> = Vec::new();
                assert(text::texts(none@) =~= Seq::empty());
                self.with_env(step, test, Some(stdin), none)
            },
            (CommandPhase::RenderingEnv(_), CommandEvent::Rendered(Ok(value))) => {
                let stdin = self.stdin.clone();
                let mut env = self.env.clone();
                env.push(value);
                assert(text::texts(env@) =~= text::texts(self.env@).push(value@));
                self.with_env(step, test, stdin, env)
            },
            (CommandPhase::RenderingStdin, CommandEvent::Rendered(Err(e))) => self.finish(Err(e)),
            (CommandPhase::RenderingEnv(_), CommandEvent::Rendered(Err(e))) => self.finish(Err(e)),
            (CommandPhase::Executing, CommandEvent::Executed(outcome)) => {
                let result = match outcome {
                    TestOutcome::Success { stdout, stderr, code } => Ok(
                        Ran { stdout, stderr, code: code.unwrap_or(0) },
                    ),
                    TestOutcome::ScriptFailed { stdout, stderr, code } => Ok(
                        Ran { stdout, stderr, code: code.unwrap_or(1) },
                    ),
                    TestOutcome::Error(e) => Err(e),
                };
                self.finish(result)
            },
            _ => (self, CommandAction::Refuse),
        }
    }
}

/// Whether `run` and `action` are how a command of a test starts.
pub open spec fn starts_command<E>(
    step: Step,
    test: StepTest,
    platform: Platform,
    dir: PathView,
    command: Seq<char>,
    stage: TestStage,
    run: CommandRun,
    action: CommandAction<E>,
) -> bool {
    &&& run.platform == platform
    &&& run.dir@ == dir
    &&& run.command@ == command
    &&& run.well_formed(step)
    &&& if stage == TestStage::Main && step.stdin is Some {
        &&& run.phase == CommandPhase::RenderingStdin
        &&& run.stdin is None
        &&& run.env@.len() == 0
        &&& action == CommandAction::<E>::RenderStdin
    } else {
        run.follows_env(step, test, None, Seq::empty(), run, action)
    }
}

/// Starts a command of a test in a directory.
pub fn execute_cmd<E>(
    step: &Step,
    test: &StepTest,
    platform: Platform,
    base_dir: &FilePath,
    command: &str,
    stage: TestStage,
) -> (r: (CommandRun, CommandAction<E>))
    ensures
        starts_command(*step, *test, platform, base_dir@, command@, stage, r.0, r.1),
{
    let run = CommandRun {
        platform,
        dir: base_dir.copy(),
        command: command.to_owned(),
        phase: CommandPhase::RenderingStdin,
        stdin: None,
        env: Vec::new(),
    };
    if stage.pipes_stdin() && step.stdin.is_some() {
        (run, CommandAction::RenderStdin)
    } else {
        let none: Vec<String> = Vec::new();
        assert(text::texts(none@) =~= Seq::empty());
        run.with_env(step, test, None, none)
    }
}

/// A command that runs before or after that of the step starts without stdin.
pub proof fn other_commands_start_without_stdin<E>(
    step: Step,
    test: StepTest,
    platform: Platform,
    dir: PathView,
    command: Seq<char>,
    stage: TestStage,
    run: CommandRun,
    action: CommandAction<E>,
)
    requires
        starts_command(step, test, platform, dir, command, stage, run, action),
        stage != TestStage::Main,
    ensures
        run.stdin is None,
        run.phase != CommandPhase::RenderingStdin,
        action matches CommandAction::Execute(cmd) ==> cmd.stdin is None,
{
}

/// A command that started without stdin is run without it.
pub proof fn command_gets_no_stdin_later<E>(
    step: Step,
    test: StepTest,
    run: CommandRun,
    event: CommandEvent<E>,
    now: CommandRun,
    action: CommandAction<E>,
)
    requires
        run.follows(step, test, event, now, action),
        run.stdin is None,
        run.phase != CommandPhase::RenderingStdin,
    ensures
        now.stdin is None,
        now.phase != CommandPhase::RenderingStdin,
        action matches CommandAction::Execute(cmd) ==> cmd.stdin is None,
{
}

/// Whether a variable of a command has a value: the last of its name counts.
pub open spec fn has_value(env: Seq<(Seq<char>, Seq<char>)>, key: Seq<char>, value: Seq<char>) -> bool {
    exists|i: int|
        0 <= i < env.len() && #[trigger] env[i] == (key, value) && (forall|j: int|
            i < j < env.len() ==> (#[trigger] env[j]).0 != key)
}

/// The variables of a test take precedence over those of its step.
pub proof fn test_env_takes_precedence(
    step: Step,
    values: Seq<Seq<char>>,
    test: StepTest,
    key: Seq<char>,
    value: Seq<char>,
)
    requires
        has_value(map_texts(test.env), key, value),
    ensures
        has_value(test_env(step, values, test), key, value),
{
    let own = map_texts(test.env);
    let all = test_env(step, values, test);
    let i = choose|i: int|
        0 <= i < own.len() && #[trigger] own[i] == (key, value) && (forall|j: int|
            i < j < own.len() ==> (#[trigger] own[j]).0 != key);
    let k = values.len() + i;
    assert(all[k] == own[i]);
    assert forall|j: int| k < j < all.len() implies (#[trigger] all[j]).0 != key by {
        assert(all[j] == own[j - values.len()]);
    }
}

} // verus!
