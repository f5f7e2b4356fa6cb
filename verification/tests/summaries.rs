use hk::component::PathStyle;
use hk::context::HookContext;
use hk::failure::{handle_script_failed, shown_command, write_output_file};
use hk::hook::{Hook, StepGroup};
use hk::name_set::NameSet;
use hk::options::Settings;
use hk::ordered_map::OrderedMap;
use hk::path::{collect, FilePath};
use hk::skip::SkipReason;
use hk::step::runner::default_shell_cmd;
use hk::step::types::{OutputSummary, Platform, RunType, Script, Step};
use hk::summary::{
    group_title, help_with_command, help_with_option, missing_profiles, modified_files,
    modified_warning, output_blocks, shows_outputs, snapshot, OutputBlock,
};

fn text(s: &str) -> String {
    s.to_string()
}

fn texts(list: Vec<&str>) -> Vec<String> {
    let mut r = vec![];
    for s in list {
        r.push(text(s));
    }
    r
}

fn path(s: &str) -> FilePath {
    FilePath::from_text(s, PathStyle::Unix)
}

fn settings(warnings: Vec<&str>, hidden: Vec<&str>) -> Settings {
    Settings {
        fail_fast: true,
        stage: None,
        skip_hooks: vec![],
        skip_steps: vec![],
        display_skip_reasons: vec![],
        warnings: texts(warnings),
        hide_warnings: texts(hidden),
        exclude: vec![],
    }
}

fn hook_named(name: &str) -> Hook {
    let mut hook = Hook::default();
    hook.name = text(name);
    hook
}

#[test]
fn outputs_are_shown_in_blocks() {
    let mut outputs = OrderedMap::new();
    outputs.insert(text("b"), (OutputSummary::Stderr, text("warn\n\n")));
    outputs.insert(text("blank"), (OutputSummary::Stdout, text(" \n\t")));
    outputs.insert(text("hidden"), (OutputSummary::Hide, text("x")));
    outputs.insert(text("a"), (OutputSummary::Combined, text("  x")));
    outputs.insert(text("c"), (OutputSummary::Stdout, text("y")));
    assert_eq!(
        output_blocks(&outputs),
        vec![
            OutputBlock { title: text("b stderr:"), body: text("warn") },
            OutputBlock { title: text("a output:"), body: text("  x") },
            OutputBlock { title: text("c stdout:"), body: text("y") },
        ]
    );
    assert!(shows_outputs(false, false));
    assert!(!shows_outputs(true, false));
    assert!(shows_outputs(true, true));
}

#[test]
fn groups_are_titled_where_there_are_several() {
    let group = |n: Option<&str>| StepGroup { name: n.map(text), steps: OrderedMap::new() };
    let one = vec![group(Some("a"))];
    assert_eq!(group_title(&one, 0), None);
    let two = vec![group(Some("a")), group(None)];
    assert_eq!(group_title(&two, 0), Some(text("a")));
    assert_eq!(group_title(&two, 1), None);
}

#[test]
fn progress_names_hook_and_mode() {
    let p = hook_named("pre-commit").start_hk_progress(false, RunType::Fix, 3).unwrap();
    assert_eq!(p.hook, " – pre-commit");
    assert_eq!(p.message, " – fix");
    assert_eq!(p.total, 3);
    for name in vec!["check", "fix"] {
        let p = hook_named(name).start_hk_progress(false, RunType::Check, 0).unwrap();
        assert_eq!(p.hook, "");
        assert_eq!(p.message, " – check");
    }
    assert!(hook_named("check").start_hk_progress(true, RunType::Check, 0).is_none());
}

#[test]
fn report_runs_in_the_default_shell() {
    let mut hook = hook_named("check");
    assert!(hook.report_command(Platform::Linux).is_none());
    hook.report = Some(Script::from_str("send"));
    let (run, line) = hook.report_command(Platform::Linux).unwrap();
    assert_eq!(run, "send");
    assert_eq!(line, default_shell_cmd("send", Platform::Linux));
}

#[test]
fn modified_and_deleted_files_are_found() {
    let before = vec![(path("a"), 1), (path("b"), 2), (path("c"), 3)];
    let files = modified_files(&before, &vec![Some(1), Some(9), None]);
    assert_eq!(files.len(), 2);
    assert_eq!(
        modified_warning(&files),
        "Files were modified by fix commands (fail_on_fix=true):\n  b\n  c"
    );
    assert!(modified_files(&before, &vec![Some(1), Some(2), Some(3)]).is_empty());
}

#[test]
fn missing_profiles_are_warned_of() {
    let mut skipped = OrderedMap::new();
    skipped.insert(text("x"), SkipReason::ConditionFalse);
    let wanted = settings(vec!["missing-profiles"], vec![]);
    assert!(missing_profiles(&skipped, &wanted).is_none());
    skipped.insert(text("a"), SkipReason::ProfileNotEnabled(texts(vec!["ci", "docs"])));
    let m = missing_profiles(&skipped, &wanted).unwrap();
    assert_eq!(m.headline(), "1 step was skipped due to missing profiles: ci, docs");
    assert_eq!(m.env, "HK_PROFILE=ci");
    assert_eq!(m.flag, "--profile=ci");
    skipped.insert(text("b"), SkipReason::ProfileNotEnabled(texts(vec!["docs", "slow"])));
    let m = missing_profiles(&skipped, &wanted).unwrap();
    assert_eq!(m.headline(), "2 steps were skipped due to missing profiles: ci, docs, slow");
    assert_eq!(m.env, "HK_PROFILE=slow");
    assert_eq!(m.flag, "--slow");
    assert_eq!(m.fix_command("main"), "hk fix --slow --from-ref=main");
    assert!(missing_profiles(&skipped, &settings(vec![], vec![])).is_none());
    let hidden = settings(vec!["missing-profiles"], vec!["missing-profiles"]);
    assert!(missing_profiles(&skipped, &hidden).is_none());
    let mut nameless = OrderedMap::new();
    nameless.insert(text("a"), SkipReason::ProfileNotEnabled(vec![]));
    let m = missing_profiles(&nameless, &wanted).unwrap();
    assert_eq!(m.list, "");
    assert_eq!(m.flag, "--profile=slow");
}

#[test]
fn help_depends_on_the_hook() {
    assert!(hook_named("pre-commit").runs_in_git());
    assert!(hook_named("pre-push").runs_in_git());
    assert!(!hook_named("check").runs_in_git());
    assert_eq!(
        help_with_command("E", "C"),
        "  To enable these steps, set E environment variable or run C"
    );
    assert_eq!(help_with_option("F", "E"), "  To enable these steps, use F or set E.");
}

#[test]
fn name_sets_keep_the_order_of_insertion() {
    let mut set = NameSet::new();
    assert!(set.first().is_none());
    set.extend(&texts(vec!["b", "a", "b"]));
    set.extend(&texts(vec!["c", "a"]));
    assert_eq!(set.to_list(), vec!["b", "a", "c"]);
    assert_eq!(set.first(), Some(&text("b")));
    assert!(set.contains("c"));
    assert!(!set.contains("d"));
}

#[test]
fn maps_keep_the_order_of_insertion() {
    let mut m = OrderedMap::new();
    m.insert(text("b"), 1);
    m.insert(text("a"), 2);
    m.insert(text("b"), 3);
    assert_eq!(m.len(), 2);
    assert_eq!(m.key_at(0), "b");
    assert_eq!(m.get("b"), Some(&3));
    assert_eq!(m.get_index_of("a"), Some(1));
    assert!(!m.contains_key("c"));
    assert_eq!(m.clone().into_reversed(), vec![(text("a"), 2), (text("b"), 3)]);
}

#[test]
fn context_starts_with_a_job_for_each_step() {
    let group = |names: Vec<&str>| {
        let mut steps = OrderedMap::new();
        for n in names {
            steps.insert(text(n), Step::default());
        }
        StepGroup { name: None, steps }
    };
    let groups = vec![group(vec!["a", "b"]), group(vec!["c"])];
    let files = collect(&vec![path("b"), path("a")]);
    let mut ctx = HookContext::new(files, groups, RunType::Fix, OrderedMap::new(), false);
    assert_eq!(ctx.total_jobs, 3);
    assert_eq!(ctx.completed_jobs, 0);
    ctx.add_files(&vec![path("c"), path("./a")], &vec![path("a"), path("new")]);
    let mut shown = vec![];
    for p in ctx.files() {
        shown.push(p.display());
    }
    assert_eq!(shown, vec!["./a", "a", "b", "c", "new"]);
}

#[test]
fn default_shell_is_left_out_of_messages() {
    let line = default_shell_cmd("echo a  b", Platform::Linux);
    assert_eq!(shown_command(&line.program, &line.args), "echo a  b");
    assert_eq!(shown_command("bash", &texts(vec!["-c", "x"])), "bash -c x");
    assert_eq!(
        shown_command("sh", &texts(vec!["-o", "errexit", "-c"])),
        "sh -o errexit -c"
    );
    assert_eq!(
        shown_command("sh", &texts(vec!["-o", "errexit", "-c", "a", "b"])),
        "a b"
    );
}

#[test]
fn failed_script_ends_the_program_with_its_code() {
    let r = handle_script_failed("bash", &texts(vec!["-c", "x"]), Some(3));
    assert_eq!(r.title, "Error running bash -c x");
    assert_eq!(r.code, 3);
    assert_eq!(handle_script_failed("bash", &vec![], None).code, 1);
}

#[test]
fn escape_codes_are_left_out_of_the_output_file() {
    let f = write_output_file(&path("/state"), "\u{1b}[31mred\u{1b}[0m plain");
    assert_eq!(f.path.display(), "/state/output.log");
    assert_eq!(f.contents, "red plain");
    assert_eq!(write_output_file(&path("/state"), "plain\n").contents, "plain\n");
}

#[test]
fn snapshot_leaves_out_what_cannot_be_read() {
    let files = vec![path("a"), path("b"), path("c")];
    let mut kept = vec![];
    for (p, print) in snapshot(&files, &vec![Some(4), None, Some(6)]) {
        kept.push((p.display(), print));
    }
    assert_eq!(kept, vec![(text("a"), 4), (text("c"), 6)]);
}
