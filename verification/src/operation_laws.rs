//! What the operations give, told from what they are given.
use crate::component::PathView;
use crate::context::HookContext;
use crate::file_laws::{is_bare, paths};
use crate::files::{self, FileListing, FileSource, ListAction, ListEvent, RepoStatus};
use crate::hook::{self, Hook, StashArgument, StashMethod, StepGroup, StepOrGroup};
use crate::hook_laws::is_named;
use crate::name_set::NameSet;
use crate::options::{Environment, HookOptions, RunPlan, Settings};
use crate::ordered_map::{self, OrderedMap};
use crate::path::{self, FilePath, FileSet, PathOrder};
use crate::plan::{PlanAction, PlanEvent, PlanRun};
use crate::run::{HookAction, HookEvent, HookRun};
use crate::skip::{self, SkipReason};
use crate::stats::{StatsAction, StatsEvent, StatsRun};
use crate::step;
use crate::step::command_laws::is_template_of;
use crate::step::job::{self, JobAction, JobEvent, JobMode, JobRun, TemplateGlobs};
use crate::step::runner::{self, CommandLine, ShellType};
use crate::step::types::{JsonValue, Pattern, PatternError, Platform, RunType, Script, Step};
use crate::test_run::{self, TestAction, TestEvent, TestRun};
use crate::test_runner::{
    self, CommandAction, CommandEvent, CommandRun, RunKind, StepTest, TestStage,
};
use crate::text;
use crate::walk::{self, DirWalk, WalkAction};
use vstd::prelude::*;

verus! {

/// The template of a job that checks first is that of `check_diff`, else of `check`, else of
/// `check_list_files`; that of any other job is that of `fix` where it fixes and there is one, else
/// of `check`, else of `check_diff`, else of `check_list_files`. There is none where there is no
/// such script.
pub proof fn template_is_that_of_the_first_script(
    step: Step,
    mode: JobMode,
    platform: Platform,
    r: Option<String>,
)
    requires
        call_ensures(Step::command_template, (&step, mode, platform), r),
    ensures
        ({
            let fixes = !mode.check_first && mode.run_type == RunType::Fix && step.fix is Some;
            let none = step.check is None && step.check_diff is None && step.check_list_files is None;
            &&& r is None <==> !fixes && none
            &&& fixes ==> is_template_of(r->0@, step, step.fix->0, platform)
            &&& !fixes && step.check is Some && (step.check_diff is None || !mode.check_first)
                ==> is_template_of(r->0@, step, step.check->0, platform)
            &&& !fixes && step.check_diff is Some && (step.check is None || mode.check_first)
                ==> is_template_of(r->0@, step, step.check_diff->0, platform)
            &&& !fixes && step.check is None && step.check_diff is None && step.check_list_files is Some
                ==> is_template_of(r->0@, step, step.check_list_files->0, platform)
        }),
{
}

/// A step has a command to run exactly where it has one that checks, or, where it fixes, one that
/// fixes; to check first only one that checks will do.
pub proof fn step_has_the_commands_that_it_is_given(
    step: Step,
    run_type: RunType,
    run: Option<&Script>,
    first: Option<&Script>,
    has: bool,
)
    requires
        call_ensures(Step::run_cmd, (&step, run_type), run),
        call_ensures(Step::check_first_cmd, (&step,), first),
        call_ensures(Step::has_command_for, (&step, run_type), has),
    ensures
        ({
            let checks = step.check is Some || step.check_diff is Some
                || step.check_list_files is Some;
            let fixes = run_type == RunType::Fix && step.fix is Some;
            &&& run is Some <==> checks || fixes
            &&& has <==> checks || fixes
            &&& first is Some <==> checks
            &&& fixes ==> *run->0 == step.fix->0
            &&& !fixes && step.check is Some ==> *run->0 == step.check->0
            &&& step.check_diff is Some ==> *first->0 == step.check_diff->0
        }),
{
}

/// Templates know the glob patterns of a step as a list, a regular expression as a text, and
/// nothing as an empty list.
pub proof fn templates_know_the_pattern(step: Step, r: TemplateGlobs)
    requires
        call_ensures(Step::template_globs, (&step,), r),
    ensures
        step.glob is None ==> (r matches TemplateGlobs::List(l) && l@.len() == 0),
        step.glob matches Some(Pattern::Globs(g)) ==> (r matches TemplateGlobs::List(l) && l@ == g@),
        step.glob matches Some(Pattern::Regex { _type, pattern }) ==> (
        r matches TemplateGlobs::Text(t) && t@ == pattern@),
{
}

/// A shell runs a command by its first word, with its other words and then the command as
/// arguments. A setting that names no program stands for `sh`.
pub proof fn shell_runs_the_command(shell: &str, run: &str, r: CommandLine, i: int)
    requires
        call_ensures(runner::shell_cmd, (shell, run), r),
    ensures
        ({
            let words = text::words(shell@);
            &&& words.len() == 0 ==> r.program@ == "sh"@ && r.args@.len() == 1
            &&& words.len() > 0 ==> r.program@ == words[0] && r.args@.len() == words.len()
            &&& r.args@.len() > 0
            &&& r.args@[r.args@.len() - 1]@ == run@
            &&& 0 <= i < r.args@.len() - 1 ==> r.args@[i]@ == words[i + 1]
        }),
{
    let args = text::texts(r.args@);
    assert(args.len() == r.args@.len());
    assert(args[args.len() - 1] == r.args@[args.len() - 1]@);
    if 0 <= i < args.len() - 1 {
        assert(args[i] == r.args@[i]@);
    }
}

/// The command line of a step is that of its shell where it has one, and else that of the default
/// shell. A setting of the shell is of use where it names a program.
pub proof fn command_line_is_that_of_the_shell(
    step: Step,
    platform: Platform,
    run: &str,
    usable: bool,
    r: CommandLine,
)
    requires
        call_ensures(Step::has_usable_shell, (&step, platform), usable),
        usable,
        call_ensures(Step::command_line, (&step, platform, run), r),
    ensures
        step.shell is None && platform == Platform::Windows ==> r.program@ == run@ && r.args@.len()
            == 0,
        step.shell is None && platform != Platform::Windows ==> r.program@ == "sh"@ && text::texts(
            r.args@,
        ) == seq!["-o"@, "errexit"@, "-c"@, run@],
        step.shell is Some ==> {
            let words = text::words(step.shell->0.text_on(platform));
            words.len() > 0 && r.program@ == words[0] && text::texts(r.args@)
                == words.drop_first().push(run@)
        },
{
}

/// A value is a pattern where it is a text, which is then a glob pattern, a list of texts, which
/// are then glob patterns in their order, or an object that marks its pattern as a regular
/// expression. A list that holds something else is an error, and so is any other value.
pub proof fn value_is_a_pattern(value: JsonValue, r: Result<Pattern, PatternError>)
    requires
        call_ensures(Pattern::from_value, (value,), r),
    ensures
        value matches JsonValue::Text(s) ==> (r matches Ok(Pattern::Globs(g)) && g@.len() == 1
            && g@[0]@ == s@),
        value matches JsonValue::Array(items) ==> {
            &&& r matches Ok(Pattern::Globs(g)) ==> g@.len() == items@.len() && (forall|i: int|
                0 <= i < g@.len() ==> (#[trigger] items@[i] matches JsonValue::Text(s) && s@
                    == g@[i]@))
            &&& !(r matches Ok(Pattern::Regex { _type, pattern }))
            &&& r is Err ==> r->Err_0 == PatternError::ElementNotText && (exists|i: int|
                0 <= i < items@.len() && !(#[trigger] items@[i] is Text))
        },
        value is Null || value is Bool || value is Number ==> (r matches Err(e) && e
            == PatternError::NotAPattern),
        value matches JsonValue::Object(members) ==> {
            let pattern = crate::step::types::member_text(members@, "pattern"@);
            let marked = crate::step::types::member_text(members@, "_type"@) == Some("regex"@);
            &&& marked && pattern is Some ==> (r matches Ok(Pattern::Regex { _type, pattern: p })
                && _type@ == "regex"@ && p@ == pattern->0)
            &&& !marked || pattern is None ==> (r matches Err(e) && e == PatternError::NotAPattern)
        },
{
    if let JsonValue::Text(s) = value {
        if let Ok(Pattern::Globs(g)) = r {
            assert(text::texts(g@).len() == g@.len());
            assert(text::texts(g@)[0] == g@[0]@);
        }
    }
    if let JsonValue::Array(items) = value {
        if r is Ok {
            if let Ok(Pattern::Globs(g)) = r {
                assert forall|i: int| 0 <= i < g@.len() implies (
                #[trigger] items@[i] matches JsonValue::Text(s) && s@ == g@[i]@) by {
                    assert(crate::step::types::is_text(items@[i]));
                }
            }
        } else {
            let i = choose|i: int|
                0 <= i < items@.len() && !crate::step::types::is_text(#[trigger] items@[i]);
            assert(!(items@[i] is Text));
        }
    }
}

/// A command that is given as a text is that text on every platform.
pub proof fn plain_command_is_the_same_everywhere(s: &str, platform: Platform, r: Script)
    requires
        call_ensures(Script::from_str, (s,), r),
    ensures
        r.text_on(platform) == s@,
        r.linux is None,
        r.macos is None,
        r.windows is None,
        r.other is Some,
{
}

/// Where names are given, a step outside a group is selected exactly where its name is among them;
/// without names everything is selected.
pub proof fn selection_follows_the_names(
    steps: OrderedMap<StepOrGroup>,
    only: Vec<String>,
    r: Vec<StepOrGroup>,
    i: int,
)
    requires
        call_ensures(hook::select_steps, (steps, &only), r),
        0 <= i < steps.entries().len(),
    ensures
        only@.len() == 0 ==> r@.len() == steps.entries().len() && r@[i] == steps.entries()[i].1,
        only@.len() > 0 && steps.entries()[i].1 is Step ==> (r@.contains(steps.entries()[i].1)
            <==> is_named(only@, steps.entries()[i].1->Step_0.name@)),
{
    let all = hook::values(steps.entries());
    assert(all[i] == steps.entries()[i].1);
    if only@.len() > 0 && all[i] is Step {
        crate::hook_laws::named_steps_are_selected(r@, all, only@, i);
    }
}

/// The environment decides how changes are put aside where the command line does not, and else the
/// hook does.
pub proof fn environment_decides_before_the_hook(
    hook: Hook,
    argument: Option<StashArgument>,
    env_stash: Option<StashMethod>,
    resolved: StashMethod,
    method: StashMethod,
)
    requires
        call_ensures(Hook::resolve_stash_method, (&hook, env_stash), resolved),
        call_ensures(Hook::stash_method, (&hook, argument, env_stash), method),
    ensures
        env_stash is Some ==> resolved == env_stash->0,
        env_stash is None ==> resolved == hook.configured_stash(),
        argument is None ==> method == resolved,
        argument matches Some(StashArgument::Method(m)) ==> method == m,
        argument == Some(StashArgument::Unknown) ==> method == StashMethod::NoStash,
{
}

/// A run of a hook begins by opening the repository, with nothing failed and nothing to put aside
/// known yet, under the plan that was settled; it does not begin where the settings skip the hook.
pub proof fn run_begins_with_its_plan<E>(
    hook: Hook,
    opts: HookOptions,
    settings: Settings,
    env: Environment,
    groups: usize,
    planned: Option<RunPlan>,
    r: Option<(HookRun<E>, HookAction<E>)>,
)
    requires
        call_ensures(Hook::plan_run, (&hook, &opts, &settings, &env, groups), planned),
        call_ensures(Hook::run::<E>, (&hook, &opts, &settings, &env, groups), r),
    ensures
        r is None <==> planned is None,
        r is None <==> is_named(settings.skip_hooks@, hook.name@),
        r matches Some((run, action)) ==> {
            &&& run.plan == planned->0
            &&& run.phase is OpeningRepo
            &&& run.result is Ok
            &&& !run.dirty
            &&& action is OpenRepo
        },
{
    crate::hook_laws::skipped_hook_is_not_planned(hook, opts, settings, env, groups);
}

/// Planning a hook begins by opening the repository; it knows how changes would be put aside and
/// how many groups there are.
pub proof fn planning_begins_with_the_stash<E>(
    hook: Hook,
    opts: HookOptions,
    env: Environment,
    groups: usize,
    r: (PlanRun, PlanAction<E>),
)
    requires
        call_ensures(Hook::plan::<E>, (&hook, &opts, &env, groups), r),
    ensures
        r.0.groups == groups,
        r.0.phase is OpeningRepo,
        r.1 is OpenRepo,
        opts.stash matches Some(StashArgument::Method(m)) ==> r.0.stash_method == m,
        opts.stash == Some(StashArgument::Unknown) ==> r.0.stash_method == StashMethod::NoStash,
        opts.stash is None && env.stash is Some ==> r.0.stash_method == env.stash->0,
        opts.stash is None && env.stash is None ==> r.0.stash_method == hook.configured_stash(),
{
}

/// Statistics begin by opening the repository. They are made of the steps of all groups, in the
/// mode that a run would have, and know which steps are switched off by the environment, the
/// settings and the command line.
pub proof fn statistics_begin_with_all_steps<E>(
    hook: Hook,
    opts: HookOptions,
    settings: Settings,
    env: Environment,
    groups: Vec<StepGroup>,
    name: &str,
    r: (StatsRun, StatsAction<E>),
    off: Seq<char>,
)
    requires
        call_ensures(
            Hook::stats::<E>,
            (&hook, &opts, &settings, &env, &groups, name),
            r,
        ),
    ensures
        r.0.hook@ == name@,
        r.0.run_type == hook.mode(opts.fix, env.fix),
        r.0.stash_method == hook.chosen_stash(opts.stash, env.stash),
        r.0.steps@.len() == crate::stats::all_steps(groups@).len(),
        forall|i: int|
            0 <= i < r.0.steps@.len() ==> (#[trigger] r.0.steps@[i]).name@
                == crate::stats::all_steps(groups@)[i].0,
        ordered_map::has_key(r.0.skip_steps.entries(), off) <==> is_named(env.skip_steps@, off)
            || is_named(settings.skip_steps@, off) || is_named(opts.skip_step@, off),
        r.0.rows@.len() == 0,
        r.0.phase is OpeningRepo,
        r.1 is OpenRepo,
{
    let a = text::texts(env.skip_steps@);
    let b = text::texts(settings.skip_steps@);
    let c = text::texts(opts.skip_step@);
    ordered_map::lemma_firsts(a + b + c);
    ordered_map::lemma_has_key(r.0.skip_steps.entries(), off);
    crate::skip_laws::named_steps_are_switched_off(r.0.skip_steps.entries(), a, b, c, off);
    lemma_named(env.skip_steps@, off);
    lemma_named(settings.skip_steps@, off);
    lemma_named(opts.skip_step@, off);
}

pub(crate) proof fn lemma_named(list: Seq<String>, name: Seq<char>)
    ensures
        text::texts(list).contains(name) <==> is_named(list, name),
{
    if text::texts(list).contains(name) {
        let i = choose|i: int| 0 <= i < text::texts(list).len() && text::texts(list)[i] == name;
        assert(list[i]@ == name);
    }
    if is_named(list, name) {
        let i = choose|i: int| 0 <= i < list.len() && (#[trigger] list[i])@ == name;
        assert(text::texts(list)[i] == name);
    }
}

/// A step is switched off exactly where one of the three lists names it, and for the command line
/// where that does, else for the environment where that does.
pub proof fn lists_switch_steps_off(
    env: Vec<String>,
    config: Vec<String>,
    cli: Vec<String>,
    r: OrderedMap<SkipReason>,
    i: int,
    name: Seq<char>,
)
    requires
        call_ensures(skip::skip_steps, (&env, &config, &cli), r),
    ensures
        (exists|k: int| 0 <= k < r.entries().len() && (#[trigger] r.entries()[k]).0 == name)
            <==> is_named(env@, name) || is_named(config@, name) || is_named(cli@, name),
        0 <= i < r.entries().len() ==> {
            let off = r.entries()[i];
            &&& is_named(cli@, off.0) ==> (off.1 matches SkipReason::DisabledByCli(src) && src@
                == "--skip-step "@ + off.0)
            &&& !is_named(cli@, off.0) && is_named(env@, off.0) ==> (
            off.1 matches SkipReason::DisabledByEnv(src) && src@ == "HK_SKIP_STEPS"@)
            &&& !is_named(cli@, off.0) && !is_named(env@, off.0) ==> off.1
                == SkipReason::DisabledByConfig
        },
{
    let e = text::texts(env@);
    let c = text::texts(config@);
    let o = text::texts(cli@);
    crate::skip_laws::named_steps_are_switched_off(r.entries(), e, c, o, name);
    lemma_named(env@, name);
    lemma_named(config@, name);
    lemma_named(cli@, name);
    if 0 <= i < r.entries().len() {
        crate::skip_laws::command_line_is_the_first_reason(r.entries(), e, c, o, i);
        lemma_named(env@, r.entries()[i].0);
        lemma_named(cli@, r.entries()[i].0);
    }
}

/// A reason is shown exactly where the settings list its name.
pub proof fn reason_is_shown_where_it_is_listed(reason: SkipReason, list: Vec<String>, r: bool)
    requires
        call_ensures(SkipReason::should_display, (&reason, &list), r),
    ensures
        r <==> is_named(list@, reason.key_text()),
{
    lemma_named(list@, reason.key_text());
    crate::text_laws::listed_name_is_among_the_texts(list@, reason.key_text());
}

/// Listing files begins by fetching those of the source that the options ask for, and knows the
/// status and the patterns for leaving files out.
pub proof fn listing_begins_with_its_source<E>(
    opts: HookOptions,
    exclude: Vec<String>,
    stash: bool,
    status: RepoStatus,
    r: (FileListing, ListAction<E>),
)
    requires
        call_ensures(FileListing::start::<E>, (&opts, &exclude, stash, status), r),
    ensures
        r.0.status == status,
        r.0.phase is Fetching,
        r.0.files.items().len() == 0,
        r.1 == ListAction::<E>::Fetch(r.0.source),
        text::texts(r.0.excludes@) == files::all_expanded(
            files::exclude_patterns(exclude@, opts.exclude),
        ),
        opts.files is Some ==> r.0.source is Named,
        opts.files is None && opts.glob is Some ==> r.0.source == (FileSource::Matching {
            untracked: !stash,
        }),
        opts.files is None && opts.glob is None && opts.from_ref is Some ==> r.0.source is Nothing
            || r.0.source is BetweenRevisions,
        opts.files is None && opts.glob is None && opts.from_ref is None && opts.all ==> r.0.source
            == (FileSource::All { untracked: !stash }),
        opts.files is None && opts.glob is None && opts.from_ref is None && !opts.all ==> {
            &&& stash ==> r.0.source is Staged
            &&& !stash ==> r.0.source is Changed
        },
{
}

/// The files of a source before patterns are applied: the staged ones of the status, all that it
/// tells of, or what was fetched, with the untracked ones where they count.
pub proof fn source_gives_its_files(
    source: FileSource,
    fetched: Vec<FilePath>,
    status: RepoStatus,
    r: Vec<FilePath>,
)
    requires
        call_ensures(files::candidate_files, (source, fetched, &status), r),
    ensures
        source is Staged ==> paths(r@) == paths(status.staged@),
        source is Changed ==> paths(r@) == paths(status.staged@) + paths(status.unstaged@) + paths(
            status.untracked@,
        ),
        source is Nothing ==> r@.len() == 0,
        source is Named || source is BetweenRevisions ==> paths(r@) == paths(fetched@),
        source == (FileSource::All { untracked: false }) || source == (FileSource::Matching {
            untracked: false,
        }) ==> paths(r@) == paths(fetched@),
        source == (FileSource::All { untracked: true }) || source == (FileSource::Matching {
            untracked: true,
        }) ==> paths(r@) == paths(fetched@) + paths(status.untracked@),
{
    assert(paths(r@) =~= path::views(r@));
    assert(path::views(r@).len() == r@.len());
    assert(paths(fetched@) =~= path::views(fetched@));
    assert(paths(status.staged@) =~= path::views(status.staged@));
    assert(paths(status.unstaged@) =~= path::views(status.unstaged@));
    assert(paths(status.untracked@) =~= path::views(status.untracked@));
}

/// A path loses a leading `./` and nothing else.
pub proof fn path_loses_a_leading_dot(p: FilePath, r: FilePath)
    requires
        call_ensures(FilePath::strip_dot, (&p,), r),
    ensures
        is_bare(r@, p@),
{
    crate::file_laws::leading_dot_is_taken_away(p@);
}

/// A job begins with its mode, its platform and its files; it does nothing where the hook has
/// failed, and else it evaluates its condition, if there is one, or asks for the profiles.
pub proof fn job_begins_with_its_files<E>(
    step: Step,
    mode: JobMode,
    platform: Platform,
    has_filters: bool,
    files: Vec<FilePath>,
    failed: bool,
    r: (JobRun, JobAction<E>),
)
    requires
        call_ensures(JobRun::start::<E>, (&step, mode, platform, has_filters, files, failed), r),
    ensures
        r.0.mode == mode,
        r.0.platform == platform,
        r.0.has_filters == has_filters,
        r.0.files == files,
        r.0.stdin is None,
        r.0.env@.len() == 0,
        failed ==> r.1 is Leave && r.0.phase is Finished,
        !failed && step.job_condition is Some ==> r.1 is EvaluateCondition
            && r.0.phase is EvaluatingCondition,
        !failed && step.job_condition is None ==> r.1 is AskProfile && r.0.phase is AskingProfile,
{
}

/// Of the files of a job those are left that exist, in their order: of two lists what is left of
/// each, and a single file where it exists.
pub proof fn existing_files_are_left(
    files: Vec<FilePath>,
    exists: Vec<bool>,
    r: Vec<FilePath>,
    p: PathView,
)
    requires
        files@.len() == exists@.len(),
        call_ensures(job::existing_files, (&files, &exists), r),
    ensures
        (exists|j: int| 0 <= j < r@.len() && (#[trigger] r@[j])@ == p) <==> (exists|i: int|
            0 <= i < files@.len() && exists@[i] && (#[trigger] files@[i])@ == p),
{
    let all = path::views(files@);
    let left = path::flagged(all, exists@);
    assert(path::views(r@) == left);
    files::lemma_flagged(all, exists@);
    if exists|j: int| 0 <= j < r@.len() && (#[trigger] r@[j])@ == p {
        let j = choose|j: int| 0 <= j < r@.len() && (#[trigger] r@[j])@ == p;
        assert(path::views(r@)[j] == r@[j]@);
        assert(files::is_flagged(all, exists@, left[j]));
        let i = choose|i: int| 0 <= i < all.len() && exists@[i] && #[trigger] all[i] == left[j];
        assert(files@[i]@ == p);
    }
    if exists|i: int| 0 <= i < files@.len() && exists@[i] && (#[trigger] files@[i])@ == p {
        let i = choose|i: int| 0 <= i < files@.len() && exists@[i] && (#[trigger] files@[i])@ == p;
        assert(all[i] == p);
        assert(left.contains(all[i]));
        let j = choose|j: int| 0 <= j < left.len() && left[j] == all[i];
        assert(path::views(r@)[j] == r@[j]@);
    }
}

/// A test begins by rendering the names of its files, with its temporary directory and that of the
/// project, nothing written and no reason against it.
pub proof fn test_begins_with_its_directories<E>(
    platform: Platform,
    sandbox: FilePath,
    root: FilePath,
    r: (TestRun, TestAction<E>),
)
    requires
        call_ensures(test_run::run_test_named::<E>, (platform, sandbox, root), r),
    ensures
        r.0.platform == platform,
        r.0.sandbox == sandbox,
        r.0.root == root,
        r.0.phase is RenderingNames,
        r.0.before.0@.len() == 0,
        r.0.before.1@.len() == 0,
        r.0.reasons@.len() == 0,
        r.1 is RenderNames,
{
}

/// A test fixes where it says so, and else checks; and the command of the step alone gets what is
/// piped.
pub proof fn test_runs_as_it_says(kind: RunKind, stage: TestStage, r: RunType, piped: bool)
    requires
        call_ensures(RunKind::run_type, (kind,), r),
        call_ensures(TestStage::pipes_stdin, (stage,), piped),
    ensures
        r == RunType::Fix <==> kind == RunKind::Fix,
        r == RunType::Check <==> kind == RunKind::Check,
        piped <==> stage == TestStage::Main,
{
}

/// A text is complained of exactly where it is expected and the output lacks it, under the name of
/// the output; and the exit code exactly where it is not the expected one.
pub proof fn checks_complain_of_what_is_wrong(
    output: &str,
    needle: Option<String>,
    actual: i32,
    expected: i32,
    on_stdout: Option<String>,
    on_stderr: Option<String>,
    on_code: Option<String>,
)
    requires
        call_ensures(test_runner::check_stdout_contains, (output, &needle), on_stdout),
        call_ensures(test_runner::check_stderr_contains, (output, &needle), on_stderr),
        call_ensures(test_runner::check_exit_code, (actual, expected), on_code),
    ensures
        ({
            let lacks = needle is Some && !text::occurs_in(output@, needle->0@);
            &&& on_stdout is Some <==> lacks
            &&& on_stderr is Some <==> lacks
            &&& lacks ==> on_stdout->0@ == "stdout missing: "@ + needle->0@
            &&& lacks ==> on_stderr->0@ == "stderr missing: "@ + needle->0@
            &&& on_code is Some <==> actual != expected
            &&& actual != expected ==> on_code->0@ == "exit code "@ + text::decimal_int(
                actual as int,
            ) + " != expected "@ + text::decimal_int(expected as int)
        }),
{
}

/// The directory of the project is that of its mark where it has one, and else the current one.
pub proof fn project_is_found_by_its_mark(mark: Option<FilePath>, cwd: FilePath, r: FilePath)
    requires
        call_ensures(test_run::project_root, (&mark, cwd), r),
    ensures
        mark is None ==> r@ == cwd@,
        mark is Some && crate::location::parent(mark->0@) is None ==> r@ == cwd@,
        mark is Some && crate::location::parent(mark->0@) is Some ==> r@
            == crate::location::parent(mark->0@)->0,
{
}

/// What follows a beginning is the rest of the text, what precedes an end too; and a text is parted
/// at the first of a character.
pub proof fn texts_are_taken_apart(
    s: &str,
    part: &str,
    c: char,
    behind: Option<String>,
    ahead: Option<String>,
    parted: Option<(String, String)>,
)
    requires
        call_ensures(text::strip_prefix, (s, part), behind),
        call_ensures(text::strip_suffix, (s, part), ahead),
        call_ensures(text::split_once, (s, c), parted),
    ensures
        behind is Some ==> s@ == part@ + behind->0@,
        behind is None ==> !text::begins_with(s@, part@),
        ahead is Some ==> s@ == ahead->0@ + part@,
        ahead is None ==> !text::ends_in(s@, part@),
        parted is None <==> !s@.contains(c),
        parted matches Some((a, b)) ==> s@ == a@ + seq![c] + b@ && !a@.contains(c),
{
    if behind is Some {
        assert(s@ =~= part@ + s@.skip(part@.len() as int));
    }
    if ahead is Some {
        assert(s@ =~= s@.take(s@.len() - part@.len()) + part@);
    }
    text::lemma_run_len(s@, c);
    let n = text::run_len(s@, c) as int;
    if n < s@.len() {
        assert(s@ =~= s@.take(n) + seq![c] + s@.skip(n + 1));
        assert(s@.contains(s@[n]));
        if s@.take(n).contains(c) {
            let i = choose|i: int| 0 <= i < n && s@.take(n)[i] == c;
            assert(s@[i] != c);
        }
    } else if s@.contains(c) {
        let i = choose|i: int| 0 <= i < s@.len() && s@[i] == c;
        assert(s@[i] != c);
    }
}

/// A walk begins by listing its directory, with nothing found.
pub proof fn walk_begins_with_its_directory<E>(dir: FilePath, r: (DirWalk, WalkAction<E>))
    requires
        call_ensures(walk::all_files_in_dir::<E>, (dir,), r),
    ensures
        r.0.pending@.len() == 0,
        r.0.files@.len() == 0,
        r.1 == WalkAction::<E>::List(dir),
{
}

/// The lines of a diff are stripped one by one, each in view of the next.
pub proof fn diff_is_stripped_line_by_line(diff: &str, r: String)
    requires
        call_ensures(step::strip_orig_suffix, (diff,), r),
    ensures
        r@ == step::stripped_diff(diff@),
        text::lines(diff@).len() == 1 ==> r@ == text::lines(diff@)[0] + "\n"@,
{
    let lines = text::lines(diff@);
    let parts = Seq::new(lines.len(), |i: int| step::stripped_line(lines, i));
    if lines.len() == 1 {
        assert(parts =~= seq![lines[0]]);
    }
}

/// An error while a directory is listed is the result of the walk.
pub proof fn error_ends_the_walk<E>(walk: DirWalk, error: E, r: (DirWalk, WalkAction<E>))
    requires
        call_ensures(DirWalk::step::<E>, (walk, Err(error)), r),
    ensures
        r.1 == WalkAction::<E>::Finish(Err(error)),
{
}

/// Of what a walk came upon, the plain files are found, and nothing else.
pub proof fn plain_files_are_found(found: Vec<(FilePath, bool)>, r: Vec<FilePath>, p: PathView)
    requires
        call_ensures(walk::plain_files, (&found,), r),
    ensures
        (exists|j: int| 0 <= j < r@.len() && (#[trigger] r@[j])@ == p) <==> (exists|i: int|
            0 <= i < found@.len() && (#[trigger] found@[i]).1 && found@[i].0@ == p),
{
    let all = Seq::new(found@.len(), |i: int| found@[i].0@);
    let plain = Seq::new(found@.len(), |i: int| found@[i].1);
    let left = path::flagged(all, plain);
    assert(path::views(r@) == left);
    files::lemma_flagged(all, plain);
    if exists|j: int| 0 <= j < r@.len() && (#[trigger] r@[j])@ == p {
        let j = choose|j: int| 0 <= j < r@.len() && (#[trigger] r@[j])@ == p;
        assert(path::views(r@)[j] == r@[j]@);
        assert(files::is_flagged(all, plain, left[j]));
        let i = choose|i: int| 0 <= i < all.len() && plain[i] && #[trigger] all[i] == left[j];
        assert(found@[i].1 && found@[i].0@ == p);
    }
    if exists|i: int| 0 <= i < found@.len() && (#[trigger] found@[i]).1 && found@[i].0@ == p {
        let i = choose|i: int|
            0 <= i < found@.len() && (#[trigger] found@[i]).1 && found@[i].0@ == p;
        assert(plain[i] && all[i] == p);
        assert(left.contains(all[i]));
        let j = choose|j: int| 0 <= j < left.len() && left[j] == all[i];
        assert(path::views(r@)[j] == r@[j]@);
    }
}

/// Two paths are compared by their components: they are the same, or one comes before the other.
pub proof fn paths_are_compared_by_components(a: FilePath, b: FilePath, o: PathOrder)
    requires
        call_ensures(FilePath::order, (&a, &b), o),
    ensures
        o == PathOrder::Same <==> a@.components() == b@.components(),
        o == PathOrder::Before <==> path::path_before(a@, b@),
        o == PathOrder::After <==> path::path_before(b@, a@),
{
    path::paths_are_totally_ordered(a@, b@);
}

/// A path is in a set exactly where the set has it in some spelling; putting it in adds it where it
/// is not there, and nothing else.
pub proof fn set_holds_what_is_put_in(set: FileSet, p: FilePath, r: FileSet, had: bool, q: PathView)
    requires
        call_ensures(FileSet::contains, (&set, &p), had),
        call_ensures(FileSet::with, (set, p), r),
    ensures
        had <==> exists|i: int|
            0 <= i < set.items().len() && path::same_path(#[trigger] set.items()[i], p@),
        had ==> r.items() == set.items(),
        !had ==> r.items().len() == set.items().len() + 1,
        (exists|i: int| 0 <= i < r.items().len() && path::same_path(#[trigger] r.items()[i], q))
            <==> path::same_path(p@, q) || (exists|i: int|
            0 <= i < set.items().len() && path::same_path(#[trigger] set.items()[i], q)),
{
    let before = set.items();
    let after = r.items();
    if had {
        let i = choose|i: int| 0 <= i < before.len() && path::same_path(#[trigger] before[i], p@);
        assert(path::same_path(p@, q) ==> path::same_path(before[i], q));
    } else {
        let k = choose|k: int| 0 <= k <= before.len() && after == #[trigger] before.insert(k, p@);
        assert(after[k] == p@);
        if exists|i: int| 0 <= i < after.len() && path::same_path(#[trigger] after[i], q) {
            let i = choose|i: int| 0 <= i < after.len() && path::same_path(#[trigger] after[i], q);
            if i < k {
                assert(path::same_path(before[i], q));
            } else if i > k {
                assert(path::same_path(before[i - 1], q));
            }
        }
        if exists|i: int| 0 <= i < before.len() && path::same_path(#[trigger] before[i], q) {
            let i = choose|i: int| 0 <= i < before.len() && path::same_path(#[trigger] before[i], q);
            if i < k {
                assert(path::same_path(after[i], q));
            } else {
                assert(path::same_path(after[i + 1], q));
            }
        }
    }
}

/// A map gives for a key the value that stands under it, and the position of the key, and nothing
/// for a key that it does not have.
pub proof fn map_gives_what_is_under_the_key<V>(
    m: OrderedMap<V>,
    key: &str,
    value: Option<&V>,
    at: Option<usize>,
    has: bool,
)
    requires
        call_ensures(OrderedMap::<V>::get, (&m, key), value),
        call_ensures(OrderedMap::<V>::get_index_of, (&m, key), at),
        call_ensures(OrderedMap::<V>::contains_key, (&m, key), has),
    ensures
        has <==> exists|i: int| 0 <= i < m.entries().len() && (#[trigger] m.entries()[i]).0 == key@,
        has <==> value is Some,
        has <==> at is Some,
        has ==> at->0 < m.entries().len() && m.entries()[at->0 as int] == (key@, *value->0),
{
    let entries = m.entries();
    if ordered_map::has_key(entries, key@) {
        let i = choose|i: int| 0 <= i < entries.len() && #[trigger] entries[i].0 == key@;
        assert(entries[i].0 == key@);
    }
}

/// A set of names has the names that were put in, in their order, each once; its first name is the
/// one that was put in first.
pub proof fn names_are_kept_in_order(
    set: NameSet,
    name: &str,
    has: bool,
    first: Option<&String>,
    list: Vec<String>,
    more: Seq<Seq<char>>,
)
    requires
        call_ensures(NameSet::contains, (&set, name), has),
        call_ensures(NameSet::first, (&set,), first),
        call_ensures(NameSet::to_list, (&set,), list),
    ensures
        has <==> is_named(list@, name@),
        first is Some <==> list@.len() > 0,
        first is Some ==> first->0@ == list@[0]@,
        forall|n: Seq<char>| #[trigger]
            crate::name_set::with_names(set.items(), more).contains(n) <==> set.items().contains(n)
                || more.contains(n),
        set.items().is_prefix_of(crate::name_set::with_names(set.items(), more)),
{
    let items = set.items();
    lemma_named(list@, name@);
    assert(text::texts(list@).len() == list@.len());
    if list@.len() > 0 {
        assert(text::texts(list@)[0] == list@[0]@);
    }
    lemma_names_put_in(items, more);
}

pub(crate) proof fn lemma_names_put_in(names: Seq<Seq<char>>, more: Seq<Seq<char>>)
    ensures
        forall|n: Seq<char>| #[trigger]
            crate::name_set::with_names(names, more).contains(n) <==> names.contains(n)
                || more.contains(n),
        names.is_prefix_of(crate::name_set::with_names(names, more)),
    decreases more.len(),
{
    if more.len() > 0 {
        let rest = more.drop_last();
        let last = more.last();
        lemma_names_put_in(names, rest);
        let before = crate::name_set::with_names(names, rest);
        let after = crate::name_set::with_names(names, more);
        assert(more =~= rest.push(last));
        assert forall|n: Seq<char>| #[trigger] after.contains(n) <==> names.contains(n)
            || more.contains(n) by {
            assert(more.contains(n) <==> rest.contains(n) || n == last) by {
                if rest.contains(n) {
                    let i = choose|i: int| 0 <= i < rest.len() && rest[i] == n;
                    assert(more[i] == n);
                }
                if n == last {
                    assert(more[rest.len() as int] == n);
                }
                if more.contains(n) {
                    let i = choose|i: int| 0 <= i < more.len() && more[i] == n;
                    if i < rest.len() {
                        assert(rest[i] == n);
                    }
                }
            }
            assert(before.contains(n) <==> names.contains(n) || rest.contains(n));
            if !before.contains(last) {
                assert(after == before.push(last));
                if after.contains(n) {
                    let i = choose|i: int| 0 <= i < after.len() && after[i] == n;
                    if i < before.len() {
                        assert(before[i] == n);
                    }
                }
                if before.contains(n) {
                    let i = choose|i: int| 0 <= i < before.len() && before[i] == n;
                    assert(after[i] == n);
                }
                assert(after[before.len() as int] == last);
            }
        }
        let k = names.len() as int;
        assert(names =~= before.subrange(0, k));
        assert(after.subrange(0, k) =~= before.subrange(0, k));
    } else {
        assert(names.subrange(0, names.len() as int) =~= names);
    }
}

/// A run of a hook, planning, the listing of files and statistics go on by an event as their
/// courses say.
pub proof fn runs_go_on_as_their_courses_say<E>(
    run: HookRun<E>,
    run_event: HookEvent<E>,
    run_now: (HookRun<E>, HookAction<E>),
    plan: PlanRun,
    plan_event: PlanEvent<E>,
    plan_now: (PlanRun, PlanAction<E>),
    listing: FileListing,
    list_event: ListEvent<E>,
    list_now: (FileListing, ListAction<E>),
    stats: StatsRun,
    stats_event: StatsEvent<E>,
    stats_now: (StatsRun, StatsAction<E>),
)
    requires
        call_ensures(HookRun::<E>::step, (run, run_event), run_now),
        call_ensures(PlanRun::step::<E>, (plan, plan_event), plan_now),
        call_ensures(FileListing::step::<E>, (listing, list_event), list_now),
        call_ensures(StatsRun::step::<E>, (stats, stats_event), stats_now),
    ensures
        run_now == run.next(run_event),
        plan_now == plan.next(plan_event),
        listing.follows(list_event, list_now.0, list_now.1),
        stats.follows(stats_event, stats_now.0, stats_now.1),
{
}

/// A job, a test and a command of a test go on by an event as their courses say.
pub proof fn jobs_and_tests_go_on_as_their_courses_say<E>(
    step: Step,
    test: StepTest,
    name: &str,
    elapsed_ms: u128,
    job: JobRun,
    job_event: JobEvent<E>,
    job_now: (JobRun, JobAction<E>),
    run: TestRun,
    run_event: TestEvent<E>,
    run_now: (TestRun, TestAction<E>),
    command: CommandRun,
    command_event: CommandEvent<E>,
    command_now: (CommandRun, CommandAction<E>),
)
    requires
        call_ensures(JobRun::step::<E>, (job, &step, job_event), job_now),
        call_ensures(TestRun::step::<E>, (run, &step, &test, name, elapsed_ms, run_event), run_now),
        call_ensures(CommandRun::step::<E>, (command, &step, &test, command_event), command_now),
    ensures
        job.follows(step, job_event, job_now.0, job_now.1),
        run.follows(step, test, name@, elapsed_ms, run_event, run_now.0, run_now.1),
        command.follows(step, test, command_event, command_now.0, command_now.1),
{
}

/// A test runs its commands in the directory that it works in.
pub proof fn commands_of_a_test_run_where_it_works<E>(
    run: TestRun,
    step: Step,
    test: StepTest,
    stage: TestStage,
    command: &str,
    dir: &FilePath,
    r: (CommandRun, CommandAction<E>),
)
    requires
        call_ensures(TestRun::command_dir, (&run,), dir),
        call_ensures(TestRun::start_command::<E>, (&run, &step, &test, stage, command), r),
    ensures
        *dir == run.base,
        r.0.dir@ == run.base@,
        r.0.command@ == command@,
        r.0.platform == run.platform,
        r.1 is RenderStdin <==> stage == TestStage::Main && step.stdin is Some,
{
}

/// The files, the skipped steps and the number of steps that a run gives out are those that it has.
pub proof fn run_gives_out_what_it_has(
    ctx: HookContext,
    files: Vec<FilePath>,
    skipped: OrderedMap<SkipReason>,
    i: int,
)
    requires
        call_ensures(HookContext::files, (&ctx,), files),
        call_ensures(HookContext::get_skipped_steps, (&ctx,), skipped),
    ensures
        paths(files@) == ctx.file_set.items(),
        skipped.entries().len() == ctx.skipped_steps.entries().len(),
        0 <= i < skipped.entries().len() ==> skipped.entries()[i].0
            == ctx.skipped_steps.entries()[i].0 && skipped.entries()[i].1.message_text()
            == ctx.skipped_steps.entries()[i].1.message_text(),
{
    assert(paths(files@) =~= path::views(files@));
    if 0 <= i < skipped.entries().len() {
        let a = skipped.entries()[i].1;
        let b = ctx.skipped_steps.entries()[i].1;
        assert(a.same_as(b));
        crate::skip_laws::same_reasons_are_shown_alike(a, b);
    }
}

/// The family of the shell of a step is told by the last part of the first word of its setting; a
/// step without a setting has the default shell of the platform.
pub proof fn shell_of_a_step_is_told_by_its_setting(step: Step, platform: Platform, t: ShellType)
    requires
        call_ensures(Step::shell_type, (&step, platform), t),
    ensures
        step.shell is None && platform == Platform::Windows ==> t == ShellType::Cmd,
        step.shell is None && platform != Platform::Windows ==> t == ShellType::Sh,
        step.shell is Some ==> {
            let words = text::words(step.shell->0.text_on(platform));
            &&& words.len() > 0 ==> runner::is_family(t, runner::base_name(words[0]), platform)
            &&& words.len() == 0 ==> runner::is_family(t, Seq::empty(), platform)
        },
{
    if step.shell is None {
        crate::step::step_laws::known_shell_is_told_by_its_name(t, Seq::empty(), platform);
    }
}

} // verus!
