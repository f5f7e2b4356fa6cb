//! Which command a step runs, and in which shell.
use crate::step::types::{Platform, RunType, Script, Step};
use crate::text;
use vstd::prelude::*;

verus! {

/// A program with its arguments.
#[derive(Clone, Debug, PartialEq, Eq)]
pub struct CommandLine {
    pub program: String,
    pub args: Vec<String>,
}

/// Whether a command line runs `run` in the default shell: the command itself on Windows, where
/// commands are wrapped in a shell when they are started, and `sh -o errexit -c <run>` elsewhere.
pub open spec fn is_default_line(line: CommandLine, run: Seq<char>, platform: Platform) -> bool {
    if platform == Platform::Windows {
        line.program@ == run && line.args@.len() == 0
    } else {
        line.program@ == "sh"@ && text::texts(line.args@) == seq!["-o"@, "errexit"@, "-c"@, run]
    }
}

/// The command line that runs `run` in the default shell.
pub fn default_shell_cmd(run: &str, platform: Platform) -> (r: CommandLine)
    ensures
        is_default_line(r, run@, platform),
{
    let mut args: Vec<String> = Vec::new();
    if platform == Platform::Windows {
        return CommandLine { program: run.to_owned(), args };
    }
    args.push("-o".to_owned());
    args.push("errexit".to_owned());
    args.push("-c".to_owned());
    args.push(run.to_owned());
    assert(text::texts(args@) =~= seq!["-o"@, "errexit"@, "-c"@, run@]);
    CommandLine { program: "sh".to_owned(), args }
}

/// The command line that runs `run` in a given shell: the first word of the shell is the
/// program, or `sh` where it has none; the other words and the command are the arguments.
pub fn shell_cmd(shell: &str, run: &str) -> (r: CommandLine)
    ensures
        ({
            let words = text::words(shell@);
            if words.len() == 0 {
                r.program@ == "sh"@ && text::texts(r.args@) == seq![run@]
            } else {
                r.program@ == words[0] && text::texts(r.args@) == words.drop_first().push(run@)
            }
        }),
{
    let words = text::split_words(shell);
    let mut args: Vec<String> = Vec::new();
    let ghost all = text::words(shell@);
    assert(words@.len() == all.len());
    let mut i: usize = 1;
    while i < words.len()
        invariant
            1 <= i,
            all == text::texts(words@),
            words@.len() > 0 ==> i <= words@.len() && text::texts(args@) == all.subrange(1, i as int),
            words@.len() == 0 ==> args@.len() == 0,
        decreases words@.len() - i,
    {
        args.push(words[i].clone());
        assert(text::texts(args@) =~= all.subrange(1, i + 1));
        i = i + 1;
    }
    args.push(run.to_owned());
    if words.len() == 0 {
        assert(text::texts(args@) =~= seq![run@]);
        return CommandLine { program: "sh".to_owned(), args };
    }
    assert(words@[0]@ == all[0]);
    assert(text::texts(args@) =~= all.drop_first().push(run@));
    CommandLine { program: words[0].clone(), args }
}

/// The family of a shell.
#[derive(Clone, Debug, PartialEq, Eq)]
pub enum ShellType {
    Bash,
    Dash,
    Fish,
    Sh,
    Zsh,
    Cmd,
    PowerShell,
    /// A shell of another family, by its name.
    Other(String),
}

/// What follows the last slash or backslash.
pub open spec fn base_name(s: Seq<char>) -> Seq<char>
    decreases s.len(),
{
    if s.len() == 0 || s.last() == '/' || s.last() == '\\' {
        Seq::empty()
    } else {
        base_name(s.drop_last()).push(s.last())
    }
}

/// A letter from `A` to `Z` in lower case; any other character as it is.
pub open spec fn lower(c: char) -> char {
    if 'A' <= c <= 'Z' {
        ((c as int) + 32) as char
    } else {
        c
    }
}

/// The text with the letters from `A` to `Z` in lower case.
///
/// No character but these and the Kelvin sign, which becomes `k`, has a lower case within ASCII,
/// and no name of a shell family holds a `k`: for telling the families apart this is the lower
/// case of Unicode.
pub open spec fn lowered(s: Seq<char>) -> Seq<char> {
    Seq::new(s.len(), |i: int| lower(s[i]))
}

/// The name of the shell in a shell setting: the last part of the path that is its first word.
pub open spec fn shell_name(shell: Seq<char>) -> Seq<char> {
    let words = text::words(shell);
    if words.len() == 0 {
        Seq::empty()
    } else {
        base_name(words[0])
    }
}

/// Whether `t` is the family of the shell of that name. No name stands for the default shell.
pub open spec fn is_family(t: ShellType, name: Seq<char>, platform: Platform) -> bool {
    let l = lowered(name);
    if l == "bash"@ || l == "bash.exe"@ {
        t == ShellType::Bash
    } else if l == "dash"@ || l == "dash.exe"@ {
        t == ShellType::Dash
    } else if l == "fish"@ || l == "fish.exe"@ {
        t == ShellType::Fish
    } else if l == "sh"@ || l == "sh.exe"@ {
        t == ShellType::Sh
    } else if l == "zsh"@ || l == "zsh.exe"@ {
        t == ShellType::Zsh
    } else if l == "cmd"@ || l == "cmd.exe"@ {
        t == ShellType::Cmd
    } else if l == "powershell"@ || l == "powershell.exe"@ || l == "pwsh"@ || l == "pwsh.exe"@ {
        t == ShellType::PowerShell
    } else if l == Seq::<char>::empty() {
        t == if platform == Platform::Windows {
            ShellType::Cmd
        } else {
            ShellType::Sh
        }
    } else {
        t matches ShellType::Other(n) && n@ == name
    }
}

fn base_name_text(s: &str) -> (r: String)
    ensures
        r@ == base_name(s@),
{
    let x = text::chars_of(s);
    let mut from: usize = x.len();
    assert(x@.subrange(from as int, x@.len() as int) =~= Seq::<char>::empty());
    assert(x@.take(from as int) =~= x@);
    assert(base_name(x@) =~= base_name(x@) + Seq::<char>::empty());
    while from > 0 && x[from - 1] != '/' && x[from - 1] != '\\'
        invariant
            from <= x@.len(),
            base_name(x@) == base_name(x@.take(from as int)) + x@.subrange(
                from as int,
                x@.len() as int,
            ),
        decreases from,
    {
        proof {
            let t = x@.take(from as int);
            assert(t.drop_last() =~= x@.take(from - 1));
            assert(x@.subrange(from - 1, x@.len() as int) =~= seq![x@[from - 1]] + x@.subrange(
                from as int,
                x@.len() as int,
            ));
            assert(base_name(t) + x@.subrange(from as int, x@.len() as int) =~= base_name(
                x@.take(from - 1),
            ) + x@.subrange(from - 1, x@.len() as int));
        }
        from = from - 1;
    }
    assert(base_name(x@.take(from as int)) =~= Seq::<char>::empty());
    assert(base_name(x@) =~= x@.subrange(from as int, x@.len() as int));
    text::string_of(&x, from, x.len())
}

fn lower_char(c: char) -> (r: char)
    ensures
        r == lower(c),
{
    if 'A' <= c && c <= 'Z' {
        let u: u8 = c as u8;
        (u + 32) as char
    } else {
        c
    }
}

fn lower_text(s: &str) -> (r: String)
    ensures
        r@ == lowered(s@),
{
    let x = text::chars_of(s);
    let mut r = String::new();
    let mut i: usize = 0;
    while i < x.len()
        invariant
            i <= x@.len(),
            r@ == lowered(x@).take(i as int),
        decreases x@.len() - i,
    {
        r.push(lower_char(x[i]));
        assert(r@ =~= lowered(x@).take(i + 1));
        i = i + 1;
    }
    assert(lowered(x@).take(x@.len() as int) =~= lowered(x@));
    r
}

impl ShellType {
    /// The family of the shell of that name.
    pub fn from_name(name: &str, platform: Platform) -> (t: ShellType)
        ensures
            is_family(t, name@, platform),
    {
        let l = lower_text(name);
        let s = l.as_str();
        if text::same(s, "bash") || text::same(s, "bash.exe") {
            ShellType::Bash
        } else if text::same(s, "dash") || text::same(s, "dash.exe") {
            ShellType::Dash
        } else if text::same(s, "fish") || text::same(s, "fish.exe") {
            ShellType::Fish
        } else if text::same(s, "sh") || text::same(s, "sh.exe") {
            ShellType::Sh
        } else if text::same(s, "zsh") || text::same(s, "zsh.exe") {
            ShellType::Zsh
        } else if text::same(s, "cmd") || text::same(s, "cmd.exe") {
            ShellType::Cmd
        } else if text::same(s, "powershell") || text::same(s, "powershell.exe") || text::same(
            s,
            "pwsh",
        ) || text::same(s, "pwsh.exe") {
            ShellType::PowerShell
        } else if s.is_empty() {
            assert(l@ =~= Seq::<char>::empty());
            if platform == Platform::Windows {
                ShellType::Cmd
            } else {
                ShellType::Sh
            }
        } else {
            ShellType::Other(name.to_owned())
        }
    }
}

/// Why the configuration of a step is refused.
#[derive(Clone, Debug, PartialEq, Eq)]
pub enum StepError {
    /// The step, which is named, reads from a pipe and from the terminal.
    StdinWithInteractive(String),
    /// The step, which is named, has no command to run.
    NoRunCommand(String),
}

impl StepError {
    /// The message for the error.
    pub open spec fn text(self) -> Seq<char> {
        match self {
            StepError::StdinWithInteractive(name) => "Step '"@ + name@
                + "' can't have both `stdin` and `interactive = true`."@,
            StepError::NoRunCommand(name) => name@ + ": no run command"@,
        }
    }

    /// The message for the error.
    pub fn message(&self) -> (r: String)
        ensures
            r@ == self.text(),
    {
        match self {
            StepError::StdinWithInteractive(name) => {
                "Step '".to_owned().concat(name.as_str()).concat(
                    "' can't have both `stdin` and `interactive = true`.",
                )
            },
            StepError::NoRunCommand(name) => name.clone().concat(": no run command"),
        }
    }
}

/// The first of two options that is there.
pub open spec fn first_of<T>(a: Option<T>, b: Option<T>) -> Option<T> {
    if a is Some {
        a
    } else {
        b
    }
}

fn first_ref<'a>(a: Option<&'a Script>, b: Option<&'a Script>) -> (r: Option<&'a Script>)
    ensures
        r == first_of(a, b),
{
    if a.is_some() {
        a
    } else {
        b
    }
}

impl Step {
    /// Whether the settings of the step exclude each other.
    pub open spec fn is_contradictory(self) -> bool {
        self.stdin is Some && self.interactive
    }

    /// The script that the step runs in a mode. Fixing falls back to checking; checking takes
    /// `check`, `check_diff` or `check_list_files`, in that order of preference.
    pub open spec fn script_for(self, run_type: RunType) -> Option<Script> {
        let check = first_of(self.check, first_of(self.check_diff, self.check_list_files));
        match run_type {
            RunType::Fix => first_of(self.fix, check),
            RunType::Check => check,
        }
    }

    /// The script that checks before fixing: `check_diff`, `check` or `check_list_files`, in that
    /// order of preference.
    pub open spec fn check_first_script(self) -> Option<Script> {
        first_of(self.check_diff, first_of(self.check, self.check_list_files))
    }

    /// The shell setting of the step on a platform; nothing where it has none.
    pub open spec fn shell_text(self, platform: Platform) -> Seq<char> {
        match self.shell {
            Some(s) => s.text_on(platform),
            None => Seq::empty(),
        }
    }

    /// The step after initialisation under a name: it bears the name, and it runs alone where it
    /// is interactive.
    pub open spec fn is_initialised(self, before: Step, name: Seq<char>) -> bool {
        &&& self.name@ == name
        &&& self == (Step {
            name: self.name,
            exclusive: before.exclusive || before.interactive,
            ..before
        })
    }

    /// Gives the step its name and refuses settings that exclude each other.
    pub fn init(&mut self, name: &str) -> (r: Result<(), StepError>)
        ensures
            r is Err <==> old(self).is_contradictory(),
            r is Err ==> *final(self) == *old(self) && r->Err_0.text() == "Step '"@ + name@
                + "' can't have both `stdin` and `interactive = true`."@,
            r is Ok ==> final(self).is_initialised(*old(self), name@),
    {
        if self.stdin.is_some() && self.interactive {
            return Err(StepError::StdinWithInteractive(name.to_owned()));
        }
        self.name = name.to_owned();
        if self.interactive {
            self.exclusive = true;
        }
        Ok(())
    }

    /// The script that the step runs in a mode.
    pub fn run_cmd(&self, run_type: RunType) -> (r: Option<&Script>)
        ensures
            r is Some <==> self.script_for(run_type) is Some,
            r is Some ==> *r->0 == self.script_for(run_type)->0,
    {
        let check = first_ref(
            self.check.as_ref(),
            first_ref(self.check_diff.as_ref(), self.check_list_files.as_ref()),
        );
        match run_type {
            RunType::Fix => first_ref(self.fix.as_ref(), check),
            RunType::Check => check,
        }
    }

    /// The script that checks before fixing.
    pub fn check_first_cmd(&self) -> (r: Option<&Script>)
        ensures
            r is Some <==> self.check_first_script() is Some,
            r is Some ==> *r->0 == self.check_first_script()->0,
    {
        first_ref(
            self.check_diff.as_ref(),
            first_ref(self.check.as_ref(), self.check_list_files.as_ref()),
        )
    }

    /// Whether the step has a script for a mode.
    pub fn has_command_for(&self, run_type: RunType) -> (b: bool)
        ensures
            b == (self.script_for(run_type) is Some),
    {
        self.run_cmd(run_type).is_some()
    }

    /// The family of the shell that runs the commands of the step.
    pub fn shell_type(&self, platform: Platform) -> (t: ShellType)
        ensures
            is_family(t, shell_name(self.shell_text(platform)), platform),
    {
        let shell = match &self.shell {
            Some(s) => s.to_text(platform),
            None => String::new(),
        };
        let words = text::split_words(shell.as_str());
        if words.len() == 0 {
            proof {
                reveal_strlit("");
                assert(text::texts(words@).len() == 0);
                assert(""@ =~= Seq::<char>::empty());
            }
            return ShellType::from_name("", platform);
        }
        assert(text::texts(words@)[0] == words@[0]@);
        let name = base_name_text(words[0].as_str());
        ShellType::from_name(name.as_str(), platform)
    }
}

/// A step that can check can be run to fix too: it then checks where it has no command to fix.
pub proof fn fixing_falls_back_to_checking(step: Step)
    ensures
        step.fix is None ==> step.script_for(RunType::Fix) == step.script_for(RunType::Check),
        step.script_for(RunType::Check) is Some ==> step.script_for(RunType::Fix) is Some,
{
}

/// A step that has a command that checks has one to check first with, and the other way round.
pub proof fn checking_first_needs_a_check(step: Step)
    ensures
        step.check_first_script() is Some <==> step.script_for(RunType::Check) is Some,
{
}

} // verus!
