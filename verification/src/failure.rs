//! What is shown and kept of a command that failed.
use crate::location::joined_path;
use crate::path::{text_path, FilePath};
use crate::step::runner::{self, CommandLine};
use crate::step::types::Platform;
use crate::text;
use vstd::prelude::*;

verus! {

/// The text without terminal escape codes, as `console::strip_ansi_codes` makes it.
pub uninterp spec fn without_escapes(s: Seq<char>) -> Seq<char>;

/// Whether a character begins a terminal escape code.
pub open spec fn is_escape(c: char) -> bool {
    c == '\u{1b}' || c == '\u{9b}'
}

/// `console::strip_ansi_codes` leaves out the terminal escape codes of a text. Its result depends
/// on the text alone, and a text without a character that begins such a code comes back as it is;
/// which sequences count as codes is left unsaid.
#[verifier::external_body]
fn strip_ansi_codes(s: &str) -> (r: String)
    ensures
        r@ == without_escapes(s@),
        (forall|i: int| 0 <= i < s@.len() ==> !is_escape(#[trigger] s@[i])) ==> r@ == s@,
{
    console::strip_ansi_codes(s).into_owned()
}

/// Whether arguments begin as those of the default shell do.
pub open spec fn is_default_shell(args: Seq<Seq<char>>) -> bool {
    args.len() >= 4 && args[0] == "-o"@ && args[1] == "errexit"@ && args[2] == "-c"@
}

/// How a command is shown: without the default shell.
pub open spec fn command_text(bin: Seq<char>, args: Seq<Seq<char>>) -> Seq<char> {
    if is_default_shell(args) {
        text::join(args.skip(3), " "@)
    } else {
        bin + " "@ + text::join(args, " "@)
    }
}

/// How a command is shown: without the default shell.
pub fn shown_command(bin: &str, args: &Vec<String>) -> (r: String)
    ensures
        r@ == command_text(bin@, text::texts(args@)),
{
    let ghost all = text::texts(args@);
    if args.len() >= 4 && text::same(args[0].as_str(), "-o") && text::same(
        args[1].as_str(),
        "errexit",
    ) && text::same(args[2].as_str(), "-c") {
        let mut rest: Vec<String> = Vec::new();
        let mut i: usize = 3;
        while i < args.len()
            invariant
                3 <= i <= args@.len(),
                all == text::texts(args@),
                text::texts(rest@) == all.subrange(3, i as int),
            decreases args@.len() - i,
        {
            let ghost before = rest@;
            rest.push(args[i].clone());
            assert(text::texts(rest@) =~= text::texts(before).push(all[i as int]));
            assert(all.subrange(3, i + 1) =~= all.subrange(3, i as int).push(all[i as int]));
            i = i + 1;
        }
        assert(all.subrange(3, i as int) =~= all.skip(3));
        text::joined(&rest, " ")
    } else {
        bin.to_owned().concat(" ").concat(text::joined(args, " ").as_str())
    }
}

/// A command that was run in the default shell is shown as it was given.
pub proof fn default_shell_is_not_shown(line: CommandLine, run: Seq<char>, platform: Platform)
    requires
        runner::is_default_line(line, run, platform),
        platform != Platform::Windows,
    ensures
        command_text(line.program@, text::texts(line.args@)) == run,
{
    let args = text::texts(line.args@);
    assert(args[3] == run);
    assert(args.skip(3) =~= seq![run]);
    assert(text::join(seq![run], " "@) =~= run);
}

/// What is done about a command that failed.
#[derive(Clone, Debug, PartialEq, Eq)]
pub struct FailureReport {
    /// The line that names the command.
    pub title: String,
    /// The exit code of the program.
    pub code: i32,
}

/// What is done about a command that failed: it is named, and its exit code, or that of failure
/// where a signal ended it, becomes that of the program.
pub fn handle_script_failed(bin: &str, args: &Vec<String>, code: Option<i32>) -> (r: FailureReport)
    ensures
        r.title@ == "Error running "@ + command_text(bin@, text::texts(args@)),
        r.code == match code {
            Some(c) => c,
            None => 1,
        },
{
    let command = shown_command(bin, args);
    FailureReport {
        title: "Error running ".to_owned().concat(command.as_str()),
        code: code.unwrap_or(1),
    }
}

/// A file that keeps what a command wrote.
#[derive(Clone, Debug)]
pub struct OutputFile {
    pub path: FilePath,
    pub contents: String,
}

/// The file that keeps what a command wrote, without terminal escape codes.
pub fn write_output_file(state_dir: &FilePath, combined_output: &str) -> (r: OutputFile)
    ensures
        r.path@ == joined_path(
            state_dir@,
            text_path("output.log"@, state_dir.style),
        ),
        r.contents@ == without_escapes(combined_output@),
        (forall|i: int| 0 <= i < combined_output@.len() ==> !is_escape(
            #[trigger] combined_output@[i],
        )) ==> r.contents@ == combined_output@,
{
    OutputFile {
        path: state_dir.join(&FilePath::from_text("output.log", state_dir.style)),
        contents: strip_ansi_codes(combined_output),
    }
}

} // verus!
