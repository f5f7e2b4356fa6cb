//! What the settings of a step come to: its scripts, its shell, its patterns and its diffs.
use crate::component::PathStyle;
use crate::step;
use crate::step::runner::{self, CommandLine, ShellType, StepError};
use crate::step::types::{
    self, JsonValue, OutputSummary, PatternError, Platform, RunType, Script, Step,
};
use crate::text;
use vstd::prelude::*;

verus! {

/// The text of an optional string is that of the string where there is one.
pub proof fn optional_text_is_that_of_the_string(s: String)
    ensures
        types::opt_text(Some(s)) == Some(s@),
        types::opt_text(None) is None,
{
}

/// Paths are written by the rules of Windows there, and by those of Unix everywhere else.
pub proof fn only_windows_writes_paths_its_own_way(platform: Platform)
    ensures
        types::style_of(platform) == PathStyle::Windows <==> platform == Platform::Windows,
        types::style_of(platform) == PathStyle::Unix <==> platform != Platform::Windows,
{
}

/// A script has its own command for a platform, or else the common one, or else none.
pub proof fn own_command_of_the_platform_wins(script: Script)
    ensures
        script.linux is Some ==> script.text_on(Platform::Linux) == script.linux->0@,
        script.macos is Some ==> script.text_on(Platform::Macos) == script.macos->0@,
        script.windows is Some ==> script.text_on(Platform::Windows) == script.windows->0@,
        script.other is Some ==> {
            &&& script.linux is None ==> script.text_on(Platform::Linux) == script.other->0@
            &&& script.macos is None ==> script.text_on(Platform::Macos) == script.other->0@
            &&& script.windows is None ==> script.text_on(Platform::Windows) == script.other->0@
            &&& script.text_on(Platform::Other) == script.other->0@
        },
        script.other is None ==> {
            &&& script.linux is None ==> script.text_on(Platform::Linux).len() == 0
            &&& script.macos is None ==> script.text_on(Platform::Macos).len() == 0
            &&& script.windows is None ==> script.text_on(Platform::Windows).len() == 0
            &&& script.text_on(Platform::Other).len() == 0
        },
{
}

/// Whether two optional strings are both there with the same text, or both missing.
pub open spec fn agree(a: Option<String>, b: Option<String>) -> bool {
    (a is None && b is None) || (a is Some && b is Some && a->0@ == b->0@)
}

/// Two scripts are the same exactly where they agree on each platform and on the common command;
/// they then are the same command everywhere.
pub proof fn same_scripts_agree_everywhere(a: Script, b: Script, platform: Platform)
    ensures
        a.same_as(b) <==> agree(a.linux, b.linux) && agree(a.macos, b.macos) && agree(
            a.windows,
            b.windows,
        ) && agree(a.other, b.other),
        a.same_as(b) ==> a.text_on(platform) == b.text_on(platform),
{
}

/// A step fixes by `fix` where it has that, and else does what checking does; it checks by `check`
/// where it has that, else by `check_diff`, else by `check_list_files`.
pub proof fn step_runs_the_first_script_that_it_has(step: Step)
    ensures
        step.fix is Some ==> step.script_for(RunType::Fix) == step.fix,
        step.fix is None ==> step.script_for(RunType::Fix) == step.script_for(RunType::Check),
        step.check is Some ==> step.script_for(RunType::Check) == step.check,
        step.check is None && step.check_diff is Some ==> step.script_for(RunType::Check)
            == step.check_diff,
        step.check is None && step.check_diff is None ==> step.script_for(RunType::Check)
            == step.check_list_files,
{
}

/// A step checks first by `check_diff` where it has that, else by `check`, else by
/// `check_list_files`.
pub proof fn step_checks_first_by_a_diff(step: Step)
    ensures
        step.check_diff is Some ==> step.check_first_script() == step.check_diff,
        step.check_diff is None && step.check is Some ==> step.check_first_script() == step.check,
        step.check_diff is None && step.check is None ==> step.check_first_script()
            == step.check_list_files,
{
}

/// Settings exclude each other exactly where something is piped to a step that uses the terminal.
pub proof fn terminal_excludes_a_pipe(step: Step)
    ensures
        step.is_contradictory() <==> step.stdin is Some && step.interactive,
{
}

/// Initialisation names a step and makes one that uses the terminal run alone. A step that ran
/// alone before still does, and every other setting stays.
pub proof fn initialisation_names_the_step(before: Step, now: Step, name: Seq<char>)
    requires
        now.is_initialised(before, name),
    ensures
        now.name@ == name,
        now.interactive ==> now.exclusive,
        before.exclusive ==> now.exclusive,
        !before.exclusive && !before.interactive ==> !now.exclusive,
        now == (Step { name: now.name, exclusive: now.exclusive, ..before }),
{
}

/// The default shell is `sh`, told to stop at errors, with the command as its last argument; on
/// Windows the command is the program itself.
pub proof fn default_shell_stops_at_errors(line: CommandLine, run: Seq<char>, platform: Platform)
    requires
        runner::is_default_line(line, run, platform),
    ensures
        platform == Platform::Windows ==> line.program@ == run && line.args@.len() == 0,
        platform != Platform::Windows ==> {
            &&& line.program@ == "sh"@
            &&& line.args@.len() == 4
            &&& line.args@[0]@ == "-o"@
            &&& line.args@[1]@ == "errexit"@
            &&& line.args@[2]@ == "-c"@
            &&& line.args@[3]@ == run
        },
{
    let args = text::texts(line.args@);
    assert(args.len() == line.args@.len());
    if platform != Platform::Windows {
        assert(args[0] == line.args@[0]@);
        assert(args[1] == line.args@[1]@);
        assert(args[2] == line.args@[2]@);
        assert(args[3] == line.args@[3]@);
    }
}

/// The last part of a path holds no slash and no backslash, ends the path, and is all of it or
/// stands directly behind one of the two.
pub proof fn base_name_is_the_last_part(s: Seq<char>)
    ensures
        runner::base_name(s).len() <= s.len(),
        runner::base_name(s) == s.skip(s.len() - runner::base_name(s).len()),
        !runner::base_name(s).contains('/'),
        !runner::base_name(s).contains('\\'),
        runner::base_name(s).len() == s.len() || s[s.len() - runner::base_name(s).len() - 1] == '/'
            || s[s.len() - runner::base_name(s).len() - 1] == '\\',
    decreases s.len(),
{
    if !(s.len() == 0 || s.last() == '/' || s.last() == '\\') {
        let rest = s.drop_last();
        base_name_is_the_last_part(rest);
        let b = runner::base_name(rest);
        let base = runner::base_name(s);
        assert(base =~= s.skip(s.len() - base.len()));
        assert forall|c: char| c == '/' || c == '\\' implies !base.contains(c) by {
            if base.contains(c) {
                let i = choose|i: int| 0 <= i < base.len() && base[i] == c;
                if i < b.len() {
                    assert(b[i] == c);
                    assert(b.contains(c));
                }
            }
        }
    }
}

/// Lower case changes the letters from `A` to `Z` alone, each to the letter 32 places on, and
/// neither the number of characters nor what is in lower case already.
pub proof fn lower_case_changes_capital_letters_alone(s: Seq<char>, i: int)
    requires
        0 <= i < s.len(),
    ensures
        runner::lowered(s).len() == s.len(),
        65 <= s[i] as int <= 90 ==> runner::lowered(s)[i] as int == s[i] as int + 32,
        !(65 <= s[i] as int <= 90) ==> runner::lowered(s)[i] == s[i],
        runner::lowered(runner::lowered(s)) == runner::lowered(s),
{
    assert(runner::lowered(runner::lowered(s)) =~= runner::lowered(s));
}

/// Neither case nor the ending `.exe` matters for the family of a shell that is known by name.
#[verifier::spinoff_prover]
pub proof fn known_shell_is_told_by_its_name(t: ShellType, name: Seq<char>, platform: Platform)
    requires
        runner::is_family(t, name, platform),
    ensures
        t == ShellType::Bash <==> is_called(name, "bash"@),
        t == ShellType::Dash <==> is_called(name, "dash"@),
        t == ShellType::Fish <==> is_called(name, "fish"@),
        t == ShellType::Zsh <==> is_called(name, "zsh"@),
        t == ShellType::PowerShell <==> is_called(name, "powershell"@) || is_called(name, "pwsh"@),
        t == ShellType::Sh <==> is_called(name, "sh"@) || (name.len() == 0 && platform
            != Platform::Windows),
        t == ShellType::Cmd <==> is_called(name, "cmd"@) || (name.len() == 0 && platform
            == Platform::Windows),
        t matches ShellType::Other(n) ==> n@ == name,
{
    reveal_strlit("bash");
    reveal_strlit("bash.exe");
    reveal_strlit("dash");
    reveal_strlit("dash.exe");
    reveal_strlit("fish");
    reveal_strlit("fish.exe");
    reveal_strlit("sh");
    reveal_strlit("sh.exe");
    reveal_strlit("zsh");
    reveal_strlit("zsh.exe");
    reveal_strlit("cmd");
    reveal_strlit("cmd.exe");
    reveal_strlit("powershell");
    reveal_strlit("powershell.exe");
    reveal_strlit("pwsh");
    reveal_strlit("pwsh.exe");
    reveal_strlit(".exe");
    assert("bash"@ + ".exe"@ =~= "bash.exe"@);
    assert("dash"@ + ".exe"@ =~= "dash.exe"@);
    assert("fish"@ + ".exe"@ =~= "fish.exe"@);
    assert("sh"@ + ".exe"@ =~= "sh.exe"@);
    assert("zsh"@ + ".exe"@ =~= "zsh.exe"@);
    assert("cmd"@ + ".exe"@ =~= "cmd.exe"@);
    assert("powershell"@ + ".exe"@ =~= "powershell.exe"@);
    assert("pwsh"@ + ".exe"@ =~= "pwsh.exe"@);
    assert("bash"@[0] == 'b');
    assert("bash.exe"@[0] == 'b');
    assert("dash"@[0] == 'd');
    assert("dash.exe"@[0] == 'd');
    assert("fish"@[0] == 'f');
    assert("fish.exe"@[0] == 'f');
    assert("sh"@[0] == 's');
    assert("sh.exe"@[0] == 's');
    assert("zsh"@[0] == 'z');
    assert("zsh.exe"@[0] == 'z');
    assert("cmd"@[0] == 'c');
    assert("cmd.exe"@[0] == 'c');
    assert("powershell"@[0] == 'p');
    assert("powershell.exe"@[0] == 'p');
    assert("pwsh"@[0] == 'p');
    assert("pwsh.exe"@[0] == 'p');
    let l = runner::lowered(name);
    assert(l.len() == name.len());
    if name.len() == 0 {
        assert(l =~= Seq::<char>::empty());
        assert("bash"@.len() > 0 && "bash.exe"@.len() > 0 && "dash"@.len() > 0);
        assert("dash.exe"@.len() > 0 && "fish"@.len() > 0 && "fish.exe"@.len() > 0);
        assert("sh"@.len() > 0 && "sh.exe"@.len() > 0 && "zsh"@.len() > 0);
        assert("zsh.exe"@.len() > 0 && "cmd"@.len() > 0 && "cmd.exe"@.len() > 0);
        assert("powershell"@.len() > 0 && "powershell.exe"@.len() > 0);
        assert("pwsh"@.len() > 0 && "pwsh.exe"@.len() > 0);
    } else {
        assert(l != Seq::<char>::empty());
    }
}

/// Whether a shell name, in lower case, is a given one, with or without the ending `.exe`.
pub open spec fn is_called(name: Seq<char>, shell: Seq<char>) -> bool {
    runner::lowered(name) == shell || runner::lowered(name) == shell + ".exe"@
}

/// The name of the shell in a setting is the last part of its first word, and nothing where the
/// setting is blank.
pub proof fn shell_is_named_by_the_first_word(shell: Seq<char>)
    ensures
        text::words(shell).len() == 0 ==> runner::shell_name(shell).len() == 0,
        text::words(shell).len() > 0 ==> runner::shell_name(shell) == runner::base_name(
            text::words(shell)[0],
        ),
{
}

/// The errors of a step name it and say what is wrong.
pub proof fn step_errors_name_the_step(name: String)
    ensures
        StepError::StdinWithInteractive(name).text() == "Step '"@ + name@
            + "' can't have both `stdin` and `interactive = true`."@,
        StepError::NoRunCommand(name).text() == name@ + ": no run command"@,
        PatternError::ElementNotText.text() == "array elements must be strings"@,
        PatternError::NotAPattern.text()
            == "expected regex object, string, or array of strings"@,
{
}

/// The text under a key of an object is that of the first member of that name, where it is a text.
pub proof fn first_member_of_a_name_counts(
    members: Seq<(String, JsonValue)>,
    key: Seq<char>,
    i: int,
)
    requires
        forall|j: int| 0 <= j < i ==> (#[trigger] members[j]).0@ != key,
        0 <= i <= members.len(),
        i < members.len() ==> members[i].0@ == key,
    ensures
        i == members.len() ==> types::member_text(members, key) is None,
        i < members.len() ==> (members[i].1 matches JsonValue::Text(s) ==> types::member_text(
            members,
            key,
        ) == Some(s@)),
        i < members.len() && !(members[i].1 is Text) ==> types::member_text(members, key) is None,
    decreases i,
{
    if i > 0 {
        assert(members[0].0@ != key);
        let rest = members.drop_first();
        assert forall|j: int| 0 <= j < i - 1 implies (#[trigger] rest[j]).0@ != key by {
            assert(members[j + 1].0@ != key);
        }
        first_member_of_a_name_counts(rest, key, i - 1);
    }
}

/// A regular expression is an object whose `_type` is `regex` and whose `pattern` is a text, and
/// the expression is that text.
pub proof fn regex_object_holds_its_pattern(members: Vec<(String, JsonValue)>)
    ensures
        types::regex_of(JsonValue::Object(members)) is Some <==> types::member_text(
            members@,
            "_type"@,
        ) == Some("regex"@) && types::member_text(members@, "pattern"@) is Some,
        types::regex_of(JsonValue::Object(members)) is Some ==> types::regex_of(
            JsonValue::Object(members),
        ) == types::member_text(members@, "pattern"@),
        types::regex_of(JsonValue::Null) is None,
        types::regex_of(JsonValue::Number) is None,
        forall|b: bool| #[trigger] types::regex_of(JsonValue::Bool(b)) is None,
{
}

/// A header of a diff for an old file loses the ending `.orig` of its path. What follows the path
/// behind a tab stays, but for a tab that nothing follows.
pub proof fn old_header_loses_the_ending(path: Seq<char>, rest: Seq<char>)
    requires
        !path.contains('\t'),
    ensures
        step::header_without_orig("--- "@ + path + ".orig"@) == Some("--- "@ + path),
        rest.len() > 0 ==> step::header_without_orig(
            "--- "@ + path + ".orig"@ + "\t"@ + rest,
        ) == Some("--- "@ + path + "\t"@ + rest),
        rest.len() == 0 ==> step::header_without_orig(
            "--- "@ + path + ".orig"@ + "\t"@ + rest,
        ) == Some("--- "@ + path),
{
    reveal_strlit("--- ");
    reveal_strlit(".orig");
    reveal_strlit("\t");
    let head = path + ".orig"@;
    assert forall|i: int| 0 <= i < head.len() implies #[trigger] head[i] != '\t' by {
        if i < path.len() {
            assert(path[i] == head[i]);
        }
    }
    let line = "--- "@ + path + ".orig"@;
    assert(line.skip(4) =~= head);
    lemma_tab(head, Seq::empty());
    assert(head + Seq::<char>::empty() =~= head);
    assert(head.take(head.len() as int) =~= head);
    assert(line.subrange(0, 4) =~= "--- "@);
    assert(head.subrange(head.len() - 5, head.len() - 5 + 5) =~= ".orig"@);
    assert(head.take(head.len() - 5) =~= path);
    let long = "--- "@ + path + ".orig"@ + "\t"@ + rest;
    let tail = "\t"@ + rest;
    assert(long.skip(4) =~= head + tail);
    lemma_tab(head, tail);
    assert((head + tail).take(head.len() as int) =~= head);
    assert(long.subrange(0, 4) =~= "--- "@);
    assert((head + tail).skip(head.len() as int + 1) =~= rest);
}

proof fn lemma_tab(head: Seq<char>, tail: Seq<char>)
    requires
        forall|i: int| 0 <= i < head.len() ==> #[trigger] head[i] != '\t',
        tail.len() > 0 ==> tail[0] == '\t',
    ensures
        text::run_len(head + tail, '\t') == head.len(),
{
    let s = head + tail;
    text::lemma_run_len(s, '\t');
    let n = text::run_len(s, '\t') as int;
    let at = head.len() as int;
    if n < at {
        assert(s[n] == head[n]);
    }
    if at < s.len() {
        assert(s[at] == '\t');
    }
}

/// No other line is such a header: one that does not begin with `--- `, or whose path does not end
/// in `.orig`.
pub proof fn other_lines_are_no_old_header(line: Seq<char>, path: Seq<char>)
    requires
        !path.contains('\t'),
        !text::ends_in(path, ".orig"@),
    ensures
        !text::begins_with(line, "--- "@) ==> step::header_without_orig(line) is None,
        step::header_without_orig("--- "@ + path) is None,
        step::header_without_orig("--- "@ + path + "\t"@ + line) is None,
{
    reveal_strlit("--- ");
    reveal_strlit("\t");
    assert forall|i: int| 0 <= i < path.len() implies #[trigger] path[i] != '\t' by {
        assert(path.contains(path[i]));
    }
    let short = "--- "@ + path;
    assert(short.skip(4) =~= path);
    lemma_tab(path, Seq::empty());
    assert(path + Seq::<char>::empty() =~= path);
    assert(path.take(path.len() as int) =~= path);
    let tail = "\t"@ + line;
    let long = "--- "@ + path + "\t"@ + line;
    assert(long.skip(4) =~= path + tail);
    lemma_tab(path, tail);
    assert((path + tail).take(path.len() as int) =~= path);
}

/// A line is the plain header of a new file where it is `+++ ` and a path that does not end in
/// `.orig`, with or without something behind a tab, and not where the path does.
pub proof fn new_header_is_plain_without_the_ending(path: Seq<char>, rest: Seq<char>)
    requires
        !path.contains('\t'),
    ensures
        step::is_plain_new_header("+++ "@ + path) <==> !text::ends_in(path, ".orig"@),
        step::is_plain_new_header("+++ "@ + path + "\t"@ + rest) <==> !text::ends_in(
            path,
            ".orig"@,
        ),
        !text::begins_with(rest, "+++ "@) ==> !step::is_plain_new_header(rest),
{
    reveal_strlit("+++ ");
    reveal_strlit("\t");
    assert forall|i: int| 0 <= i < path.len() implies #[trigger] path[i] != '\t' by {
        assert(path.contains(path[i]));
    }
    let short = "+++ "@ + path;
    assert(short.skip(4) =~= path);
    assert(short.subrange(0, 4) =~= "+++ "@);
    lemma_tab(path, Seq::empty());
    assert(path + Seq::<char>::empty() =~= path);
    assert(path.take(path.len() as int) =~= path);
    let tail = "\t"@ + rest;
    let long = "+++ "@ + path + "\t"@ + rest;
    assert(long.skip(4) =~= path + tail);
    assert(long.subrange(0, 4) =~= "+++ "@);
    lemma_tab(path, tail);
    assert((path + tail).take(path.len() as int) =~= path);
}

/// Stripping changes a line of a diff only where it is the header of an old file whose path ends in
/// `.orig` and the next line is the plain header of a new one.
pub proof fn stripping_changes_old_headers_alone(diff: Seq<char>, i: int)
    requires
        0 <= i < text::lines(diff).len(),
    ensures
        i + 1 < text::lines(diff).len() && step::is_plain_new_header(text::lines(diff)[i + 1])
            && step::header_without_orig(text::lines(diff)[i]) is Some ==> step::stripped_line(
            text::lines(diff),
            i,
        ) == step::header_without_orig(text::lines(diff)[i])->0,
        i + 1 == text::lines(diff).len() ==> step::stripped_line(text::lines(diff), i)
            == text::lines(diff)[i],
        i + 1 < text::lines(diff).len() && !step::is_plain_new_header(text::lines(diff)[i + 1])
            ==> step::stripped_line(text::lines(diff), i) == text::lines(diff)[i],
        step::header_without_orig(text::lines(diff)[i]) is None ==> step::stripped_line(
            text::lines(diff),
            i,
        ) == text::lines(diff)[i],
{
}

/// A stripped diff is its lines after stripping, in their order, each ended by a line feed.
pub proof fn stripped_diff_is_its_stripped_lines(diff: Seq<char>, parts: Seq<Seq<char>>)
    requires
        parts.len() == text::lines(diff).len(),
        forall|i: int|
            0 <= i < parts.len() ==> #[trigger] parts[i] == step::stripped_line(
                text::lines(diff),
                i,
            ),
    ensures
        step::stripped_diff(diff) == text::join(parts, "\n"@) + "\n"@,
{
    let lines = text::lines(diff);
    assert(parts =~= Seq::new(lines.len(), |i: int| step::stripped_line(lines, i)));
}

/// A diff without headers of old files whose paths end in `.orig` comes back line by line, each
/// line ended by a line feed.
pub proof fn other_diffs_come_back(diff: Seq<char>)
    requires
        forall|i: int|
            0 <= i < text::lines(diff).len() ==> step::header_without_orig(
                #[trigger] text::lines(diff)[i],
            ) is None,
    ensures
        step::stripped_diff(diff) == text::join(text::lines(diff), "\n"@) + "\n"@,
{
    let lines = text::lines(diff);
    assert(Seq::new(lines.len(), |i: int| step::stripped_line(lines, i)) =~= lines);
}

/// A step of which nothing is set has no command and no filter, gets nothing piped, runs neither
/// alone nor on the terminal, and shows what its command writes to stderr.
pub proof fn step_of_which_nothing_is_set_does_nothing(step: Step, run_type: RunType)
    requires
        call_ensures(<Step as Default>::default, (), step),
    ensures
        step.name@.len() == 0,
        step.script_for(run_type) is None,
        step.check_first_script() is None,
        step.fix is None && step.check is None && step.check_diff is None
            && step.check_list_files is None,
        step.glob is None && step.types is None && step.exclude is None && step.root is None,
        step.profiles is None && step.job_condition is None && step.step_condition is None,
        step.prefix is None && step.shell is None && step.dir is None && step.stdin is None,
        step.workspace_indicator is None && step.stage is None,
        step._type is None && step.category is None && step.description is None,
        step.depends@.len() == 0 && step.env.entries().len() == 0 && step.tests.entries().len() == 0,
        !step.interactive && !step.exclusive && !step.check_first && !step.batch && !step.stomp,
        !step.allow_binary && !step.allow_symlinks && !step.hide,
        step.output_summary == OutputSummary::Stderr,
{
}

} // verus!
