//! What a step is made of: its patterns, its scripts, its modes and its settings.
use crate::component::PathStyle;
use crate::ordered_map::OrderedMap;
use crate::text;
use crate::test_runner::StepTest;
use vstd::prelude::*;

verus! {

/// The text that an optional string holds.
pub open spec fn opt_text(o: Option<String>) -> Option<Seq<char>> {
    match o {
        Some(s) => Some(s@),
        None => None,
    }
}

/// Whether two optional strings hold the same text.
pub fn same_opt(a: &Option<String>, b: &Option<String>) -> (r: bool)
    ensures
        r == (opt_text(*a) == opt_text(*b)),
{
    match (a, b) {
        (Some(x), Some(y)) => text::same(x.as_str(), y.as_str()),
        (None, None) => true,
        _ => false,
    }
}

/// The operating system that commands are chosen for.
#[derive(Clone, Copy, Debug, PartialEq, Eq, Structural)]
pub enum Platform {
    Linux,
    Macos,
    Windows,
    Other,
}

/// By which rules the paths of a platform are written.
pub open spec fn style_of(platform: Platform) -> PathStyle {
    if platform == Platform::Windows {
        PathStyle::Windows
    } else {
        PathStyle::Unix
    }
}

impl Platform {
    /// By which rules the paths of the platform are written.
    pub fn path_style(self) -> (r: PathStyle)
        ensures
            r == style_of(self),
    {
        match self {
            Platform::Windows => PathStyle::Windows,
            _ => PathStyle::Unix,
        }
    }
}

/// The mode in which a step runs.
#[derive(Clone, Copy, Debug, PartialEq, Eq, Structural)]
pub enum RunType {
    /// Verifies without modifying.
    Check,
    /// Corrects issues.
    Fix,
}

/// Which output of a command is kept for the summary at the end of a run.
#[derive(Clone, Copy, Debug, PartialEq, Eq, Structural)]
pub enum OutputSummary {
    /// What the command wrote to stderr.
    Stderr,
    /// What the command wrote to stdout.
    Stdout,
    /// Both, interleaved.
    Combined,
    /// Nothing.
    Hide,
}

impl Default for OutputSummary {
    fn default() -> (r: OutputSummary)
        ensures
            r == OutputSummary::Stderr,
    {
        OutputSummary::Stderr
    }
}

/// A command that may differ from platform to platform.
#[derive(Clone, Debug, PartialEq, Eq)]
pub struct Script {
    /// Command for Linux.
    pub linux: Option<String>,
    /// Command for macOS.
    pub macos: Option<String>,
    /// Command for Windows.
    pub windows: Option<String>,
    /// Command where the platform has none of its own.
    pub other: Option<String>,
}

impl Script {
    /// The command of the platform itself, where it has one.
    pub open spec fn own_text(self, platform: Platform) -> Option<Seq<char>> {
        match platform {
            Platform::Linux => opt_text(self.linux),
            Platform::Macos => opt_text(self.macos),
            Platform::Windows => opt_text(self.windows),
            Platform::Other => None,
        }
    }

    /// The command for a platform: its own, else the common one, else nothing.
    pub open spec fn text_on(self, platform: Platform) -> Seq<char> {
        match (self.own_text(platform), opt_text(self.other)) {
            (Some(own), _) => own,
            (None, Some(other)) => other,
            (None, None) => Seq::empty(),
        }
    }

    /// Whether two scripts hold the same commands.
    pub open spec fn same_as(self, other: Script) -> bool {
        &&& opt_text(self.linux) == opt_text(other.linux)
        &&& opt_text(self.macos) == opt_text(other.macos)
        &&& opt_text(self.windows) == opt_text(other.windows)
        &&& opt_text(self.other) == opt_text(other.other)
    }

    /// The script that is the given command on every platform.
    pub fn from_str(s: &str) -> (r: Script)
        ensures
            r.linux is None,
            r.macos is None,
            r.windows is None,
            opt_text(r.other) == Some(s@),
            forall|p: Platform| #[trigger] r.text_on(p) == s@,
    {
        Script { linux: None, macos: None, windows: None, other: Some(s.to_owned()) }
    }

    /// The command for a platform.
    pub fn to_text(&self, platform: Platform) -> (r: String)
        ensures
            r@ == self.text_on(platform),
    {
        let own = match platform {
            Platform::Linux => &self.linux,
            Platform::Macos => &self.macos,
            Platform::Windows => &self.windows,
            Platform::Other => &None,
        };
        match (own, &self.other) {
            (Some(s), _) => s.clone(),
            (None, Some(s)) => s.clone(),
            (None, None) => String::new(),
        }
    }

    /// Whether two scripts hold the same commands.
    pub fn is_same(&self, other: &Script) -> (r: bool)
        ensures
            r == self.same_as(*other),
    {
        same_opt(&self.linux, &other.linux) && same_opt(&self.macos, &other.macos) && same_opt(
            &self.windows,
            &other.windows,
        ) && same_opt(&self.other, &other.other)
    }
}

/// A value of a configuration file.
#[derive(Debug, PartialEq, Eq)]
pub enum JsonValue {
    Null,
    Bool(bool),
    Number,
    Text(String),
    Array(Vec<JsonValue>),
    /// The members of an object, no two under the same name.
    Object(Vec<(String, JsonValue)>),
}

/// The text under `key` among the members of an object: what the first member of that name
/// holds, where it is a text.
pub open spec fn member_text(members: Seq<(String, JsonValue)>, key: Seq<char>) -> Option<Seq<char>>
    decreases members.len(),
{
    if members.len() == 0 {
        None
    } else if members[0].0@ == key {
        match members[0].1 {
            JsonValue::Text(s) => Some(s@),
            _ => None,
        }
    } else {
        member_text(members.drop_first(), key)
    }
}

fn find_text<'a>(members: &'a Vec<(String, JsonValue)>, key: &str) -> (r: Option<&'a String>)
    ensures
        r is Some <==> member_text(members@, key@) is Some,
        r is Some ==> Some(r->0@) == member_text(members@, key@),
{
    let mut i: usize = 0;
    assert(members@.skip(0) =~= members@);
    while i < members.len()
        invariant
            i <= members@.len(),
            member_text(members@, key@) == member_text(members@.skip(i as int), key@),
        decreases members@.len() - i,
    {
        if text::same(members[i].0.as_str(), key) {
            return match &members[i].1 {
                JsonValue::Text(s) => Some(s),
                _ => None,
            };
        }
        assert(members@.skip(i as int).drop_first() =~= members@.skip(i + 1));
        i = i + 1;
    }
    None
}

/// Which files a step works on.
#[derive(Clone, Debug, PartialEq, Eq)]
pub enum Pattern {
    /// A regular expression, marked as such by `_type`.
    Regex { _type: String, pattern: String },
    /// One or more glob patterns.
    Globs(Vec<String>),
}

/// Why a value is no pattern.
#[derive(Clone, Copy, Debug, PartialEq, Eq, Structural)]
pub enum PatternError {
    /// An array holds something other than a text.
    ElementNotText,
    /// The value is neither a regex object, nor a text, nor an array.
    NotAPattern,
}

impl PatternError {
    /// The message for the error.
    pub open spec fn text(self) -> Seq<char> {
        match self {
            PatternError::ElementNotText => "array elements must be strings"@,
            PatternError::NotAPattern => "expected regex object, string, or array of strings"@,
        }
    }

    /// The message for the error.
    pub fn message(&self) -> (r: String)
        ensures
            r@ == self.text(),
    {
        match self {
            PatternError::ElementNotText => "array elements must be strings".to_owned(),
            PatternError::NotAPattern => {
                "expected regex object, string, or array of strings".to_owned()
            },
        }
    }
}

/// Whether a value is a text.
pub open spec fn is_text(v: JsonValue) -> bool {
    v is Text
}

/// The pattern that a regex object describes: one whose `_type` is `regex` and whose `pattern`
/// is a text.
pub open spec fn regex_of(value: JsonValue) -> Option<Seq<char>> {
    match value {
        JsonValue::Object(members) => {
            if member_text(members@, "_type"@) == Some("regex"@) {
                member_text(members@, "pattern"@)
            } else {
                None
            }
        },
        _ => None,
    }
}

impl Pattern {
    /// The pattern that a configuration value stands for.
    pub fn from_value(value: JsonValue) -> (r: Result<Pattern, PatternError>)
        ensures
            match value {
                JsonValue::Text(s) => {
                    &&& r is Ok
                    &&& r->Ok_0 matches Pattern::Globs(g)
                    &&& text::texts(g@) == seq![s@]
                },
                JsonValue::Array(items) => if forall|i: int|
                    0 <= i < items@.len() ==> is_text(#[trigger] items@[i]) {
                    &&& r is Ok
                    &&& r->Ok_0 matches Pattern::Globs(g)
                    &&& g@.len() == items@.len()
                    &&& forall|i: int|
                        0 <= i < g@.len() ==> #[trigger] g@[i]@ == items@[i]->Text_0@
                } else {
                    r == Err::<Pattern, PatternError>(PatternError::ElementNotText)
                },
                _ => match regex_of(value) {
                    Some(p) => {
                        &&& r is Ok
                        &&& r->Ok_0 matches Pattern::Regex { _type, pattern }
                        &&& _type@ == "regex"@
                        &&& pattern@ == p
                    },
                    None => r == Err::<Pattern, PatternError>(PatternError::NotAPattern),
                },
            },
    {
        match value {
            JsonValue::Text(s) => {
                let mut g: Vec<String> = Vec::new();
                g.push(s);
                assert(text::texts(g@) =~= seq![s@]);
                Ok(Pattern::Globs(g))
            },
            JsonValue::Array(items) => {
                let mut g: Vec<String> = Vec::new();
                let mut i: usize = 0;
                while i < items.len()
                    invariant
                        value == JsonValue::Array(items),
                        i <= items@.len(),
                        g@.len() == i,
                        forall|j: int|
                            0 <= j < i ==> is_text(#[trigger] items@[j]) && g@[j]@
                                == items@[j]->Text_0@,
                    decreases items@.len() - i,
                {
                    match &items[i] {
                        JsonValue::Text(s) => {
                            g.push(s.clone());
                        },
                        _ => {
                            assert(!is_text(items@[i as int]));
                            return Err(PatternError::ElementNotText);
                        },
                    }
                    i = i + 1;
                }
                Ok(Pattern::Globs(g))
            },
            JsonValue::Object(members) => {
                if let Some(t) = find_text(&members, "_type") {
                    if text::same(t.as_str(), "regex") {
                        if let Some(p) = find_text(&members, "pattern") {
                            return Ok(
                                Pattern::Regex { _type: "regex".to_owned(), pattern: p.clone() },
                            );
                        }
                    }
                }
                Err(PatternError::NotAPattern)
            },
            _ => Err(PatternError::NotAPattern),
        }
    }
}

/// A linting or formatting task: which files it works on, which commands it runs, and how.
#[derive(Clone, Debug)]
pub struct Step {
    /// Type marker of the configuration language.
    pub _type: Option<String>,
    /// Category for documentation.
    pub category: Option<String>,
    /// Description for documentation.
    pub description: Option<String>,
    /// The name of the step, set when the step is initialised.
    pub name: String,
    /// Profiles that enable the step, or disable it where they begin with `!`.
    pub profiles: Option<Vec<String>>,
    /// Which files to match.
    pub glob: Option<Pattern>,
    /// Which file types to match.
    pub types: Option<Vec<String>>,
    /// Whether the step needs an interactive terminal.
    pub interactive: bool,
    /// What to pipe to the command.
    pub stdin: Option<String>,
    /// Steps that must complete before this one.
    pub depends: Vec<String>,
    /// The shell that runs the commands.
    pub shell: Option<Script>,
    /// Command that checks for issues.
    pub check: Option<Script>,
    /// Command that lists the files that need fixes.
    pub check_list_files: Option<Script>,
    /// Command that prints the needed changes as a diff.
    pub check_diff: Option<Script>,
    /// Command that fixes issues.
    pub fix: Option<Script>,
    /// File that marks the root of a workspace.
    pub workspace_indicator: Option<String>,
    /// What to put before every command.
    pub prefix: Option<String>,
    /// Working directory of the commands.
    pub dir: Option<String>,
    /// Expression that must evaluate to true for a job to run.
    pub job_condition: Option<String>,
    /// Expression that must hold for the step to run.
    pub step_condition: Option<String>,
    /// Whether to check before fixing.
    pub check_first: bool,
    /// Whether to split the files over several jobs.
    pub batch: bool,
    /// Whether to work on files that other steps work on.
    pub stomp: bool,
    /// Environment variables of the commands.
    pub env: OrderedMap<String>,
    /// Which files to stage after fixing.
    pub stage: Option<Vec<String>>,
    /// Which files to leave out.
    pub exclude: Option<Pattern>,
    /// Whether to run alone.
    pub exclusive: bool,
    /// Whether to work on binary files.
    pub allow_binary: bool,
    /// Whether to work on symbolic links.
    pub allow_symlinks: bool,
    /// Root directory.
    pub root: Option<String>,
    /// Whether to leave the step out of the list of builtins.
    pub hide: bool,
    /// The tests of the step.
    pub tests: OrderedMap<StepTest>,
    /// Which output to keep.
    pub output_summary: OutputSummary,
}

impl Step {
    /// Whether nothing is set.
    pub open spec fn is_blank(self) -> bool {
        &&& self._type is None
        &&& self.category is None
        &&& self.description is None
        &&& self.name@.len() == 0
        &&& self.profiles is None
        &&& self.glob is None
        &&& self.types is None
        &&& !self.interactive
        &&& self.stdin is None
        &&& self.depends@.len() == 0
        &&& self.shell is None
        &&& self.check is None
        &&& self.check_list_files is None
        &&& self.check_diff is None
        &&& self.fix is None
        &&& self.workspace_indicator is None
        &&& self.prefix is None
        &&& self.dir is None
        &&& self.job_condition is None
        &&& self.step_condition is None
        &&& !self.check_first
        &&& !self.batch
        &&& !self.stomp
        &&& self.env.entries().len() == 0
        &&& self.stage is None
        &&& self.exclude is None
        &&& !self.exclusive
        &&& !self.allow_binary
        &&& !self.allow_symlinks
        &&& self.root is None
        &&& !self.hide
        &&& self.tests.entries().len() == 0
        &&& self.output_summary == OutputSummary::Stderr
    }
}

impl Default for Step {
    /// A step of which nothing is set.
    fn default() -> (r: Step)
        ensures
            r.is_blank(),
    {
        Step {
            _type: None,
            category: None,
            description: None,
            name: String::new(),
            profiles: None,
            glob: None,
            types: None,
            interactive: false,
            stdin: None,
            depends: Vec::new(),
            shell: None,
            check: None,
            check_list_files: None,
            check_diff: None,
            fix: None,
            workspace_indicator: None,
            prefix: None,
            dir: None,
            job_condition: None,
            step_condition: None,
            check_first: false,
            batch: false,
            stomp: false,
            env: OrderedMap::new(),
            stage: None,
            exclude: None,
            exclusive: false,
            allow_binary: false,
            allow_symlinks: false,
            root: None,
            hide: false,
            tests: OrderedMap::new(),
            output_summary: OutputSummary::Stderr,
        }
    }
}

} // verus!
