use hk::context::{HookContext, SkipDisplay};
use hk::ordered_map::OrderedMap;
use hk::path::FileSet;
use hk::skip::SkipReason;
use hk::step::job::{job_message, TemplateGlobs};
use hk::step::runner::{default_shell_cmd, shell_cmd, ShellType, StepError};
use hk::step::strip_orig_suffix;
use hk::step::types::{
    JsonValue, OutputSummary, Pattern, PatternError, Platform, RunType, Script, Step,
};

fn text(s: &str) -> String {
    s.to_string()
}

fn script(s: &str) -> Option<Script> {
    Some(Script::from_str(s))
}

fn named(name: &str) -> Step {
    let mut step = Step::default();
    step.name = text(name);
    step
}

#[test]
fn test_default_shell_cmd_constructs_without_panic() {
    let _runner = default_shell_cmd("echo hello", Platform::Linux);
}

#[test]
fn default_shell_stops_at_errors() {
    let line = default_shell_cmd("echo hello", Platform::Macos);
    assert_eq!(line.program, "sh");
    assert_eq!(line.args, vec!["-o", "errexit", "-c", "echo hello"]);
    let line = default_shell_cmd("echo hello", Platform::Windows);
    assert_eq!(line.program, "echo hello");
    assert!(line.args.is_empty());
}

#[test]
fn shell_setting_is_split_into_words() {
    let line = shell_cmd("  bash \t-o pipefail\n-c ", "true");
    assert_eq!(line.program, "bash");
    assert_eq!(line.args, vec!["-o", "pipefail", "-c", "true"]);
    let line = shell_cmd("   ", "true");
    assert_eq!(line.program, "sh");
    assert_eq!(line.args, vec!["true"]);
}

#[test]
fn shell_types_are_told_by_name() {
    let of = |s: &str, p: Platform| {
        let mut step = Step::default();
        step.shell = script(s);
        step.shell_type(p)
    };
    assert_eq!(of("bash -c", Platform::Linux), ShellType::Bash);
    assert_eq!(of("/usr/bin/ZSH", Platform::Linux), ShellType::Zsh);
    assert_eq!(of("C:\\Windows\\CMD.EXE /c", Platform::Linux), ShellType::Cmd);
    assert_eq!(of("dash", Platform::Linux), ShellType::Dash);
    assert_eq!(of("fish", Platform::Linux), ShellType::Fish);
    assert_eq!(of("sh.exe", Platform::Windows), ShellType::Sh);
    assert_eq!(of("pwsh -Command", Platform::Linux), ShellType::PowerShell);
    assert_eq!(of("PowerShell.exe", Platform::Linux), ShellType::PowerShell);
    assert_eq!(of("Nu -c", Platform::Linux), ShellType::Other(text("Nu")));
    assert_eq!(of("", Platform::Linux), ShellType::Sh);
    assert_eq!(of("/bin/", Platform::Windows), ShellType::Cmd);
    assert_eq!(Step::default().shell_type(Platform::Linux), ShellType::Sh);
    assert_eq!(Step::default().shell_type(Platform::Windows), ShellType::Cmd);
}

#[test]
fn scripts_depend_on_the_platform() {
    let s = Script {
        linux: Some(text("l")),
        macos: None,
        windows: Some(text("w")),
        other: Some(text("o")),
    };
    assert_eq!(s.to_text(Platform::Linux), "l");
    assert_eq!(s.to_text(Platform::Macos), "o");
    assert_eq!(s.to_text(Platform::Windows), "w");
    assert_eq!(s.to_text(Platform::Other), "o");
    let none = Script { linux: None, macos: None, windows: None, other: None };
    assert_eq!(none.to_text(Platform::Linux), "");
    assert!(s.is_same(&s.clone()));
    assert!(!s.is_same(&none));
}

#[test]
fn commands_are_chosen_by_preference() {
    let mut step = Step::default();
    assert!(step.run_cmd(RunType::Check).is_none());
    assert!(!step.has_command_for(RunType::Fix));
    step.check_list_files = script("list");
    assert_eq!(step.run_cmd(RunType::Check), step.check_list_files.as_ref());
    step.check_diff = script("diff");
    assert_eq!(step.run_cmd(RunType::Check), step.check_diff.as_ref());
    step.check = script("check");
    assert_eq!(step.run_cmd(RunType::Check), step.check.as_ref());
    assert_eq!(step.check_first_cmd(), step.check_diff.as_ref());
    // A step without a command that fixes is still checked.
    assert_eq!(step.run_cmd(RunType::Fix), step.check.as_ref());
    assert!(step.has_command_for(RunType::Fix));
    step.fix = script("fix");
    assert_eq!(step.run_cmd(RunType::Fix), step.fix.as_ref());
    step.check_diff = None;
    assert_eq!(step.check_first_cmd(), step.check.as_ref());
}

#[test]
fn interactive_steps_run_alone() {
    let mut step = Step::default();
    step.interactive = true;
    assert!(step.init("lint").is_ok());
    assert_eq!(step.name, "lint");
    assert!(step.exclusive);
    let mut plain = Step::default();
    assert!(plain.init("plain").is_ok());
    assert!(!plain.exclusive);
}

#[test]
fn stdin_excludes_interactive() {
    let mut step = Step::default();
    step.interactive = true;
    step.stdin = Some(text("{{files}}"));
    let err = step.init("lint").unwrap_err();
    assert_eq!(
        err.message(),
        "Step 'lint' can't have both `stdin` and `interactive = true`."
    );
    assert_eq!(step.name, "");
    assert_eq!(StepError::NoRunCommand(text("lint")).message(), "lint: no run command");
}

#[test]
fn patterns_come_from_values() {
    let globs = |v: JsonValue| Pattern::from_value(v);
    assert_eq!(
        globs(JsonValue::Text(text("*.rs"))),
        Ok(Pattern::Globs(vec![text("*.rs")]))
    );
    assert_eq!(
        globs(JsonValue::Array(vec![
            JsonValue::Text(text("*.js")),
            JsonValue::Text(text("*.ts")),
        ])),
        Ok(Pattern::Globs(vec![text("*.js"), text("*.ts")]))
    );
    assert_eq!(globs(JsonValue::Array(vec![])), Ok(Pattern::Globs(vec![])));
    assert_eq!(
        globs(JsonValue::Object(vec![
            (text("pattern"), JsonValue::Text(text("^a"))),
            (text("_type"), JsonValue::Text(text("regex"))),
        ])),
        Ok(Pattern::Regex { _type: text("regex"), pattern: text("^a") })
    );
}

#[test]
fn other_values_are_no_patterns() {
    let e = Pattern::from_value(JsonValue::Array(vec![JsonValue::Number])).unwrap_err();
    assert_eq!(e, PatternError::ElementNotText);
    assert_eq!(e.message(), "array elements must be strings");
    for v in vec![
        JsonValue::Null,
        JsonValue::Bool(true),
        JsonValue::Number,
        JsonValue::Object(vec![(text("pattern"), JsonValue::Text(text("^a")))]),
        JsonValue::Object(vec![
            (text("_type"), JsonValue::Text(text("glob"))),
            (text("pattern"), JsonValue::Text(text("^a"))),
        ]),
        JsonValue::Object(vec![
            (text("_type"), JsonValue::Text(text("regex"))),
            (text("pattern"), JsonValue::Null),
        ]),
    ] {
        let e = Pattern::from_value(v).unwrap_err();
        assert_eq!(e, PatternError::NotAPattern);
        assert_eq!(e.message(), "expected regex object, string, or array of strings");
    }
}

#[test]
fn orig_suffix_is_stripped_from_headers() {
    assert_eq!(
        strip_orig_suffix("--- a.go.orig\n+++ a.go\n@@ -1 +1 @@\n"),
        "--- a.go\n+++ a.go\n@@ -1 +1 @@\n"
    );
    assert_eq!(
        strip_orig_suffix("--- a.go.orig\t2024-01-01\r\n+++ a.go\t2024-01-02"),
        "--- a.go\t2024-01-01\n+++ a.go\t2024-01-02\n"
    );
    // The header of the new file has it too.
    assert_eq!(
        strip_orig_suffix("--- a.orig\n+++ a.orig\n"),
        "--- a.orig\n+++ a.orig\n"
    );
    // Only the end of the path of the new file counts.
    assert_eq!(
        strip_orig_suffix("--- a.original.go.orig\n+++ a.original.go\n"),
        "--- a.original.go\n+++ a.original.go\n"
    );
    assert_eq!(
        strip_orig_suffix("--- a.orig\n+++ a\tb.orig\n"),
        "--- a\n+++ a\tb.orig\n"
    );
    assert_eq!(
        strip_orig_suffix("--- a.orig\n+++ a.orig\tdate\n"),
        "--- a.orig\n+++ a.orig\tdate\n"
    );
    // No header of a new file follows.
    assert_eq!(strip_orig_suffix("--- a.orig\nx\n"), "--- a.orig\nx\n");
    assert_eq!(strip_orig_suffix("--- a.orig"), "--- a.orig\n");
    assert_eq!(strip_orig_suffix("--- a.orig\t\n+++ a\n"), "--- a\n+++ a\n");
    assert_eq!(strip_orig_suffix(""), "\n");
}

#[test]
fn job_messages_count_files() {
    let globs = Some(Pattern::Globs(vec![text("*.js"), text("*.ts")]));
    assert_eq!(job_message(1, &globs, "eslint a.js"), "1 file – *.js *.ts – eslint a.js");
    let regex = Some(Pattern::Regex { _type: text("regex"), pattern: text("^a") });
    assert_eq!(job_message(12, &regex, "run"), "12 files – regex: ^a – run");
    assert_eq!(job_message(0, &None, "run"), "0 files –  – run");
}

#[test]
fn templates_know_the_pattern() {
    let mut step = Step::default();
    assert_eq!(step.template_globs(), TemplateGlobs::List(vec![]));
    step.glob = Some(Pattern::Globs(vec![text("*.js")]));
    assert_eq!(step.template_globs(), TemplateGlobs::List(vec![text("*.js")]));
    step.glob = Some(Pattern::Regex { _type: text("regex"), pattern: text("^a") });
    assert_eq!(step.template_globs(), TemplateGlobs::Text(text("^a")));
}

fn empty_context() -> HookContext {
    HookContext::new(FileSet::new(), vec![], RunType::Check, OrderedMap::new(), true)
}

#[test]
fn skipped_steps_are_tracked_and_shown_as_wanted() {
    let mut ctx = empty_context();
    let step = named("lint");
    let shown = vec![text("condition-false")];
    assert_eq!(
        step.mark_skipped(&mut ctx, SkipReason::ConditionFalse, &shown),
        SkipDisplay::Message(text("skipped: condition is false"))
    );
    assert_eq!(
        named("fmt").mark_skipped(&mut ctx, SkipReason::NoFilesToProcess, &shown),
        SkipDisplay::Hidden
    );
    let all = ctx.get_skipped_steps();
    assert_eq!(all.len(), 2);
    assert_eq!(all.get("lint"), Some(&SkipReason::ConditionFalse));
    assert_eq!(all.get("fmt"), Some(&SkipReason::NoFilesToProcess));
    // A later reason replaces the first and keeps its place.
    ctx.track_skip("lint", SkipReason::ProfileNotEnabled(vec![text("slow")]));
    let all = ctx.get_skipped_steps();
    assert_eq!(all.key_at(0), "lint");
    assert_eq!(
        all.value_at(0),
        &SkipReason::ProfileNotEnabled(vec![text("slow")])
    );
}

#[test]
fn outputs_are_joined_per_step() {
    let mut ctx = empty_context();
    ctx.append_step_output("b", OutputSummary::Stdout, "one\n");
    ctx.append_step_output("a", OutputSummary::Stderr, "");
    ctx.append_step_output("a", OutputSummary::Stderr, "x");
    ctx.append_step_output("b", OutputSummary::Combined, "two\n");
    let all = &ctx.output_by_step;
    assert_eq!(all.len(), 2);
    assert_eq!(all.key_at(0), "b");
    assert_eq!(all.get("b"), Some(&(OutputSummary::Stdout, text("one\ntwo\n"))));
    assert_eq!(all.get("a"), Some(&(OutputSummary::Stderr, text("x"))));
}

#[test]
fn suggestions_stay_with_the_run() {
    let mut ctx = empty_context();
    ctx.add_fix_suggestion(text("hk fix"));
    ctx.add_fix_suggestion(text("hk fix -S a"));
    assert_eq!(ctx.take_fix_suggestions(), vec!["hk fix", "hk fix -S a"]);
    assert_eq!(ctx.take_fix_suggestions().len(), 2);
}

#[test]
fn jobs_are_counted() {
    let mut ctx = empty_context();
    assert_eq!(ctx.total_jobs, 0);
    assert_eq!(ctx.inc_total_jobs(3), Some(3));
    assert_eq!(ctx.inc_total_jobs(0), None);
    assert_eq!(ctx.inc_completed_jobs(2), Some(2));
    assert_eq!(ctx.inc_completed_jobs(0), None);
    assert_eq!(ctx.dec_total_jobs(1), Some(2));
    assert_eq!(ctx.dec_total_jobs(0), None);
    assert_eq!(ctx.dec_total_jobs(5), Some(0));
    assert_eq!(ctx.completed_jobs, 2);
}
