//! What holds of what is shown of a run, and of what its jobs share.
use crate::component::PathView;
use crate::context::{self, HookContext};
use crate::display::shown_text;
use crate::failure::{self, FailureReport, OutputFile};
use crate::hook::{Hook, StepGroup};
use crate::location::joined_path;
use crate::options::Settings;
use crate::ordered_map::{self, OrderedMap};
use crate::path::{text_path, FilePath};
use crate::skip::SkipReason;
use crate::step::runner::CommandLine;
use crate::step::types::{OutputSummary, Platform, RunType};
use crate::summary::{self, MissingProfiles, OutputBlock, ProgressStart};
use crate::text;
use vstd::prelude::*;

verus! {

/// The output of steps is shown at the end unless progress has shown it already as plain text; but
/// the environment can ask for it.
pub proof fn outputs_are_shown_once(plain_text: bool, summary_text: bool, shown: bool)
    requires
        call_ensures(summary::shows_outputs, (plain_text, summary_text), shown),
    ensures
        !plain_text ==> shown,
        summary_text ==> shown,
        plain_text && !summary_text ==> !shown,
{
}

/// The output of a step is shown under its name and what kind of output it is, without white space
/// at its end; nothing is shown of output that is hidden, or that is nothing but white space.
pub proof fn output_is_shown_under_its_step(step: Seq<char>, output: Seq<char>)
    ensures
        summary::block_of(step, OutputSummary::Hide, output) is None,
        text::is_blank(output) ==> {
            &&& summary::block_of(step, OutputSummary::Stdout, output) is None
            &&& summary::block_of(step, OutputSummary::Stderr, output) is None
            &&& summary::block_of(step, OutputSummary::Combined, output) is None
        },
        !text::is_blank(output) ==> {
            &&& summary::block_of(step, OutputSummary::Stdout, output) == Some(
                (step + " stdout:"@, text::trimmed_end(output)),
            )
            &&& summary::block_of(step, OutputSummary::Stderr, output) == Some(
                (step + " stderr:"@, text::trimmed_end(output)),
            )
            &&& summary::block_of(step, OutputSummary::Combined, output) == Some(
                (step + " output:"@, text::trimmed_end(output)),
            )
        },
{
    crate::text_laws::blank_text_is_trimmed_to_nothing(output);
    reveal_strlit(" ");
    reveal_strlit(":");
    reveal_strlit("stdout");
    reveal_strlit("stderr");
    reveal_strlit("output");
    reveal_strlit(" stdout:");
    reveal_strlit(" stderr:");
    reveal_strlit(" output:");
    assert(step + " "@ + "stdout"@ + ":"@ =~= step + " stdout:"@);
    assert(step + " "@ + "stderr"@ + ":"@ =~= step + " stderr:"@);
    assert(step + " "@ + "output"@ + ":"@ =~= step + " output:"@);
}

/// The outputs of steps are shown in the order of the steps, each by itself.
pub proof fn outputs_are_shown_in_order(
    first: Seq<(Seq<char>, (OutputSummary, Seq<char>))>,
    second: Seq<(Seq<char>, (OutputSummary, Seq<char>))>,
    step: Seq<char>,
    mode: OutputSummary,
    output: Seq<char>,
)
    ensures
        summary::blocks_of(first + second) == summary::blocks_of(first) + summary::blocks_of(second),
        summary::block_of(step, mode, output) is None ==> summary::blocks_of(
            seq![(step, (mode, output))],
        ).len() == 0,
        summary::block_of(step, mode, output) is Some ==> summary::blocks_of(
            seq![(step, (mode, output))],
        ) == seq![summary::block_of(step, mode, output)->0],
    decreases second.len(),
{
    reveal_with_fuel(summary::blocks_of, 2);
    let one = seq![(step, (mode, output))];
    assert(one.drop_last() =~= Seq::<(Seq<char>, (OutputSummary, Seq<char>))>::empty());
    if second.len() > 0 {
        outputs_are_shown_in_order(first, second.drop_last(), step, mode, output);
        assert((first + second).drop_last() =~= first + second.drop_last());
        assert(summary::blocks_of(first + second) =~= summary::blocks_of(first)
            + summary::blocks_of(second));
    } else {
        assert(first + second =~= first);
        assert(summary::blocks_of(first) + summary::blocks_of(second) =~= summary::blocks_of(first));
    }
}

/// A group is shown by its name where there are several groups, and else not.
pub proof fn group_is_named_among_several(groups: Vec<StepGroup>, i: usize, r: Option<String>)
    requires
        i < groups@.len(),
        call_ensures(summary::group_title, (&groups, i), r),
    ensures
        groups@.len() == 1 ==> r is None,
        groups@.len() > 1 && groups@[i as int].name is None ==> r is None,
        groups@.len() > 1 && groups@[i as int].name is Some ==> r is Some && r->0@
            == groups@[i as int].name->0@,
{
}

/// Progress names the hook, unless the name says no more than the mode does, which it names too; it
/// is not drawn where it is plain text.
pub proof fn progress_names_hook_and_mode(
    hook: Hook,
    plain_text: bool,
    run_type: RunType,
    total: usize,
    r: Option<ProgressStart>,
)
    requires
        call_ensures(Hook::start_hk_progress, (&hook, plain_text, run_type, total), r),
    ensures
        plain_text <==> r is None,
        r is Some && (hook.name@ == "check"@ || hook.name@ == "fix"@) ==> r->0.hook@.len() == 0,
        r is Some && hook.name@ != "check"@ && hook.name@ != "fix"@ ==> r->0.hook@ == " – "@
            + hook.name@,
        r is Some && run_type == RunType::Fix ==> r->0.message@ == " – fix"@,
        r is Some && run_type == RunType::Check ==> r->0.message@ == " – check"@,
        r is Some ==> r->0.total == total,
{
}

/// A report is made where the hook has a command for it: the one for the platform, in the default
/// shell.
pub proof fn report_runs_in_the_default_shell(
    hook: Hook,
    platform: Platform,
    r: Option<(String, CommandLine)>,
)
    requires
        call_ensures(Hook::report_command, (&hook, platform), r),
    ensures
        r is Some <==> hook.report is Some,
        r matches Some((run, line)) ==> {
            &&& run@ == hook.report->0.text_on(platform)
            &&& platform == Platform::Windows ==> line.program@ == run@ && line.args@.len() == 0
            &&& platform != Platform::Windows ==> line.program@ == "sh"@ && line.args@.len() == 4
                && line.args@[3]@ == run@
        },
{
    if let Some((run, line)) = r {
        crate::step::step_laws::default_shell_stops_at_errors(line, run@, platform);
    }
}

/// A file is modified exactly where it has another fingerprint now, or none because it cannot be
/// read.
pub proof fn changed_or_unreadable_file_is_modified(before: u64, now: u64)
    ensures
        summary::is_modified(before, None),
        summary::is_modified(before, Some(now)) <==> now != before,
{
}

/// Of the files that were recorded, those are found modified that are, in their order.
pub proof fn modified_files_are_found_in_order(
    first: Seq<(FilePath, u64)>,
    second: Seq<(FilePath, u64)>,
    first_now: Seq<Option<u64>>,
    second_now: Seq<Option<u64>>,
    file: FilePath,
    before: u64,
    now: Option<u64>,
)
    requires
        first.len() == first_now.len(),
        second.len() == second_now.len(),
    ensures
        summary::modified_of(first + second, first_now + second_now) == summary::modified_of(
            first,
            first_now,
        ) + summary::modified_of(second, second_now),
        now == Some(before) ==> summary::modified_of(seq![(file, before)], seq![now]).len() == 0,
        now != Some(before) ==> summary::modified_of(seq![(file, before)], seq![now]) == seq![
            file@,
        ],
    decreases second.len(),
{
    reveal_with_fuel(summary::modified_of, 2);
    assert(seq![(file, before)].drop_last() =~= Seq::<(FilePath, u64)>::empty());
    if second.len() > 0 {
        modified_files_are_found_in_order(
            first,
            second.drop_last(),
            first_now,
            second_now.drop_last(),
            file,
            before,
            now,
        );
        assert((first + second).drop_last() =~= first + second.drop_last());
        assert((first_now + second_now).drop_last() =~= first_now + second_now.drop_last());
        assert(summary::modified_of(first + second, first_now + second_now) =~= summary::modified_of(
            first,
            first_now,
        ) + summary::modified_of(second, second_now));
    } else {
        assert(first + second =~= first);
        assert(first_now + second_now =~= first_now);
        assert(summary::modified_of(first, first_now) + summary::modified_of(second, second_now)
            =~= summary::modified_of(first, first_now));
    }
}

/// Files are recorded in their order with their fingerprints, but for those that have none.
pub proof fn readable_files_are_recorded(
    first: Seq<PathView>,
    second: Seq<PathView>,
    first_prints: Seq<Option<u64>>,
    second_prints: Seq<Option<u64>>,
    file: PathView,
    print: u64,
)
    requires
        first.len() == first_prints.len(),
        second.len() == second_prints.len(),
    ensures
        summary::snapshot_of(first + second, first_prints + second_prints) == summary::snapshot_of(
            first,
            first_prints,
        ) + summary::snapshot_of(second, second_prints),
        summary::snapshot_of(seq![file], seq![Some(print)]) == seq![(file, print)],
        summary::snapshot_of(seq![file], seq![None]).len() == 0,
    decreases second.len(),
{
    reveal_with_fuel(summary::snapshot_of, 2);
    assert(seq![file].drop_last() =~= Seq::<PathView>::empty());
    assert(summary::snapshot_of(seq![file], seq![Some(print)]) =~= seq![(file, print)]);
    if second.len() > 0 {
        readable_files_are_recorded(
            first,
            second.drop_last(),
            first_prints,
            second_prints.drop_last(),
            file,
            print,
        );
        assert((first + second).drop_last() =~= first + second.drop_last());
        assert((first_prints + second_prints).drop_last() =~= first_prints
            + second_prints.drop_last());
        assert(summary::snapshot_of(first + second, first_prints + second_prints)
            =~= summary::snapshot_of(first, first_prints) + summary::snapshot_of(
            second,
            second_prints,
        ));
    } else {
        assert(first + second =~= first);
        assert(first_prints + second_prints =~= first_prints);
        assert(summary::snapshot_of(first, first_prints) + summary::snapshot_of(
            second,
            second_prints,
        ) =~= summary::snapshot_of(first, first_prints));
    }
}

/// The warning that files were modified names each of them on a line of its own, in their order.
pub proof fn warning_names_each_modified_file(files: Vec<FilePath>, warning: String)
    requires
        call_ensures(summary::modified_warning, (&files,), warning),
    ensures
        warning@ == "Files were modified by fix commands (fail_on_fix=true):\n"@ + text::join(
            Seq::new(files@.len(), |i: int| "  "@ + shown_text(files@[i]@)),
            "\n"@,
        ),
{
    assert(summary::file_lines(files@) =~= Seq::new(
        files@.len(),
        |i: int| "  "@ + shown_text(files@[i]@),
    ));
}

/// The steps that miss a profile are those that were skipped for that reason, in their order; their
/// profiles are all those that they miss, in their order.
pub proof fn steps_that_miss_profiles_are_counted(
    first: Seq<(Seq<char>, SkipReason)>,
    second: Seq<(Seq<char>, SkipReason)>,
    step: Seq<char>,
    reason: SkipReason,
)
    ensures
        summary::profile_skipped(first + second) == summary::profile_skipped(first)
            + summary::profile_skipped(second),
        summary::profiles_missed(first + second) == summary::profiles_missed(first)
            + summary::profiles_missed(second),
        reason matches SkipReason::ProfileNotEnabled(profiles) ==> summary::profile_skipped(
            seq![(step, reason)],
        ) == seq![step] && summary::profiles_missed(seq![(step, reason)]) == Seq::new(
            profiles@.len(),
            |i: int| profiles@[i]@,
        ),
        !(reason is ProfileNotEnabled) ==> summary::profile_skipped(seq![(step, reason)]).len() == 0
            && summary::profiles_missed(seq![(step, reason)]).len() == 0,
    decreases second.len(),
{
    reveal_with_fuel(summary::profile_skipped, 2);
    reveal_with_fuel(summary::profiles_missed, 2);
    assert(seq![(step, reason)].drop_last() =~= Seq::<(Seq<char>, SkipReason)>::empty());
    if let SkipReason::ProfileNotEnabled(profiles) = reason {
        assert(summary::profiles_missed(seq![(step, reason)]) =~= Seq::new(
            profiles@.len(),
            |i: int| profiles@[i]@,
        ));
    }
    if second.len() > 0 {
        steps_that_miss_profiles_are_counted(first, second.drop_last(), step, reason);
        assert((first + second).drop_last() =~= first + second.drop_last());
        assert(summary::profile_skipped(first + second) =~= summary::profile_skipped(first)
            + summary::profile_skipped(second));
        assert(summary::profiles_missed(first + second) =~= summary::profiles_missed(first)
            + summary::profiles_missed(second));
    } else {
        assert(first + second =~= first);
        assert(summary::profile_skipped(first) + summary::profile_skipped(second)
            =~= summary::profile_skipped(first));
        assert(summary::profiles_missed(first) + summary::profiles_missed(second)
            =~= summary::profiles_missed(first));
    }
}

/// Steps that were skipped for want of profiles are spoken of where the settings ask for that
/// warning and do not hide it: how many they are, the profiles that they miss, each once, and how
/// to enable one. That is the slow one where it is among them, and else the first; where no profile
/// is named it is the slow one too.
pub proof fn missing_profiles_are_spoken_of(
    skipped: OrderedMap<SkipReason>,
    settings: Settings,
    r: Option<MissingProfiles>,
)
    requires
        call_ensures(summary::missing_profiles, (&skipped, &settings), r),
    ensures
        r is Some <==> summary::profile_skipped(skipped.entries()).len() > 0 && text::lists(
            settings.warnings@,
            "missing-profiles"@,
        ) && !text::lists(settings.hide_warnings@, "missing-profiles"@),
        r is Some ==> {
            let profiles = ordered_map::firsts(summary::profiles_missed(skipped.entries()));
            &&& r->0.count == summary::profile_skipped(skipped.entries()).len()
            &&& r->0.list@ == text::join(profiles, ", "@)
            &&& profiles.contains("slow"@) ==> r->0.env@ == "HK_PROFILE=slow"@ && r->0.flag@
                == "--slow"@
            &&& !profiles.contains("slow"@) && profiles.len() > 0 ==> r->0.env@ == "HK_PROFILE="@
                + profiles[0] && r->0.flag@ == "--profile="@ + profiles[0]
            &&& profiles.len() == 0 ==> r->0.env@ == "HK_PROFILE=slow"@ && r->0.flag@
                == "--profile=slow"@
        },
{
    reveal_strlit("HK_PROFILE=slow");
    reveal_strlit("HK_PROFILE=");
    reveal_strlit("--profile=");
    reveal_strlit("--profile=slow");
    reveal_strlit("slow");
    assert("HK_PROFILE="@ + "slow"@ =~= "HK_PROFILE=slow"@);
    assert("--profile="@ + "slow"@ =~= "--profile=slow"@);
}

/// The headline of that warning counts the steps and lists the profiles.
pub proof fn headline_counts_the_steps(m: MissingProfiles, r: String)
    requires
        call_ensures(MissingProfiles::headline, (&m,), r),
    ensures
        m.count == 1 ==> r@ == text::decimal(1) + " step was skipped due to missing profiles: "@
            + m.list@,
        m.count != 1 ==> r@ == text::decimal(m.count as nat)
            + " steps were skipped due to missing profiles: "@ + m.list@,
{
    reveal_strlit(" ");
    reveal_strlit("step was");
    reveal_strlit("steps were");
    reveal_strlit(" skipped due to missing profiles: ");
    reveal_strlit(" step was skipped due to missing profiles: ");
    reveal_strlit(" steps were skipped due to missing profiles: ");
    let n = text::decimal(m.count as nat);
    assert(n + " "@ + "step was"@ + " skipped due to missing profiles: "@ + m.list@ =~= n
        + " step was skipped due to missing profiles: "@ + m.list@);
    assert(n + " "@ + "steps were"@ + " skipped due to missing profiles: "@ + m.list@ =~= n
        + " steps were skipped due to missing profiles: "@ + m.list@);
}

/// The command that is suggested fixes with the option that is suggested, from the given branch on.
pub proof fn suggested_command_fixes_from_the_branch(m: MissingProfiles, branch: &str, r: String)
    requires
        call_ensures(MissingProfiles::fix_command, (&m, branch), r),
    ensures
        r@ == "hk fix "@ + m.flag@ + " --from-ref="@ + branch@,
{
}

/// A hook runs in git, where no option can be given, exactly where it is one of these two.
pub proof fn two_hooks_run_in_git(hook: Hook, r: bool)
    requires
        call_ensures(Hook::runs_in_git, (&hook,), r),
    ensures
        r <==> hook.name@ == "pre-commit"@ || hook.name@ == "pre-push"@,
{
}

/// How to enable skipped steps names the variable and the command, or the option and the variable.
pub proof fn help_names_the_ways(a: &str, b: &str, with_command: String, with_option: String)
    requires
        call_ensures(summary::help_with_command, (a, b), with_command),
        call_ensures(summary::help_with_option, (a, b), with_option),
    ensures
        with_command@ == "  To enable these steps, set "@ + a@
            + " environment variable or run "@ + b@,
        with_option@ == "  To enable these steps, use "@ + a@ + " or set "@ + b@ + "."@,
{
}

/// A command that was not run in the default shell is shown with its program and all its arguments,
/// and one that was without the program and what makes up that shell.
pub proof fn only_the_default_shell_is_left_out(bin: Seq<char>, args: Seq<Seq<char>>)
    ensures
        args.len() < 4 || args[0] != "-o"@ || args[1] != "errexit"@ || args[2] != "-c"@
            ==> failure::command_text(bin, args) == bin + " "@ + text::join(args, " "@),
        args.len() >= 4 && args[0] == "-o"@ && args[1] == "errexit"@ && args[2] == "-c"@
            ==> failure::command_text(bin, args) == text::join(args.skip(3), " "@),
{
}

/// A command that failed is named, and its exit code becomes that of the program, or that of a
/// failure where a signal ended it.
pub proof fn failed_command_gives_the_exit_code(
    bin: &str,
    args: Vec<String>,
    code: Option<i32>,
    r: FailureReport,
)
    requires
        call_ensures(failure::handle_script_failed, (bin, &args, code), r),
    ensures
        r.title@ == "Error running "@ + failure::command_text(bin@, text::texts(args@)),
        code is Some ==> r.code == code->0,
        code is None ==> r.code == 1,
{
}

/// What a command wrote is kept in a file of the state directory, without escape codes: a text that
/// has none is kept as it is.
pub proof fn output_is_kept_in_the_state_directory(dir: FilePath, written: &str, r: OutputFile)
    requires
        call_ensures(failure::write_output_file, (&dir, written), r),
    ensures
        r.path@ == joined_path(dir@, text_path("output.log"@, dir.style)),
        r.contents@ == failure::without_escapes(written@),
        (forall|i: int|
            0 <= i < written@.len() ==> written@[i] != '\u{1b}' && #[trigger] written@[i]
                != '\u{9b}') ==> r.contents@ == written@,
{
    if forall|i: int|
        0 <= i < written@.len() ==> written@[i] != '\u{1b}' && #[trigger] written@[i] != '\u{9b}' {
        assert forall|i: int| 0 <= i < written@.len() implies !failure::is_escape(
            #[trigger] written@[i],
        ) by {}
    }
}

/// The number of steps of groups is that of each group, summed up.
pub proof fn steps_of_groups_are_summed_up(
    first: Seq<StepGroup>,
    second: Seq<StepGroup>,
    group: StepGroup,
)
    ensures
        context::step_count(Seq::<StepGroup>::empty()) == 0,
        context::step_count(seq![group]) == group.steps.entries().len(),
        context::step_count(first + second) == context::step_count(first) + context::step_count(
            second,
        ),
    decreases second.len(),
{
    reveal_with_fuel(context::step_count, 2);
    assert(seq![group].drop_last() =~= Seq::<StepGroup>::empty());
    if second.len() > 0 {
        steps_of_groups_are_summed_up(first, second.drop_last(), group);
        assert((first + second).drop_last() =~= first + second.drop_last());
    } else {
        assert(first + second =~= first);
    }
}

/// A run begins with its files and steps, nothing done, nothing skipped and nothing written, and
/// with a job for each step.
pub proof fn run_begins_with_a_job_for_each_step(
    files: crate::path::FileSet,
    groups: Vec<StepGroup>,
    run_type: RunType,
    off: OrderedMap<SkipReason>,
    should_stage: bool,
    r: HookContext,
)
    requires
        call_ensures(HookContext::new, (files, groups, run_type, off, should_stage), r),
    ensures
        r.file_set == files,
        r.groups == groups,
        r.run_type == run_type,
        r.skip_steps == off,
        r.should_stage == should_stage,
        r.total_jobs == context::step_count(groups@),
        r.completed_jobs == 0,
        r.skipped_steps.entries().len() == 0,
        r.output_by_step.entries().len() == 0,
        r.fix_suggestions@.len() == 0,
{
}

/// Adding to the output of a step leaves that of every other step as it is. What is added comes
/// behind what the step has written before, which settles what kind of output it is; the first
/// output of a step comes last, and adding nothing changes nothing.
pub proof fn output_is_added_behind(
    outputs: Seq<(Seq<char>, (OutputSummary, Seq<char>))>,
    step: Seq<char>,
    mode: OutputSummary,
    added: Seq<char>,
    i: int,
)
    requires
        ordered_map::distinct_keys(outputs),
    ensures
        added.len() == 0 ==> context::with_output(outputs, step, mode, added) == outputs,
        0 <= i < outputs.len() && outputs[i].0 != step ==> context::with_output(
            outputs,
            step,
            mode,
            added,
        )[i] == outputs[i],
        0 <= i < outputs.len() && outputs[i].0 == step && added.len() > 0 ==> context::with_output(
            outputs,
            step,
            mode,
            added,
        ) == outputs.update(
            i,
            (step, ((outputs[i].1).0, (outputs[i].1).1 + added)),
        ),
        (forall|k: int| 0 <= k < outputs.len() ==> (#[trigger] outputs[k]).0 != step) && added.len()
            > 0 ==> context::with_output(outputs, step, mode, added) == outputs.push(
            (step, (mode, added)),
        ),
{
    if ordered_map::has_key(outputs, step) {
        ordered_map::lemma_first_position(outputs, step);
    }
    if 0 <= i < outputs.len() && outputs[i].0 == step {
        ordered_map::lemma_position(outputs, i);
    }
}

/// An entry that is put under a key replaces the one that is there, in its place, and else comes
/// last; every other one stays.
pub proof fn entry_replaces_the_one_under_its_key<V>(
    entries: Seq<(Seq<char>, V)>,
    key: Seq<char>,
    value: V,
    i: int,
)
    requires
        ordered_map::distinct_keys(entries),
    ensures
        0 <= i < entries.len() && entries[i].0 == key ==> ordered_map::with_entry(
            entries,
            key,
            value,
        ) == entries.update(i, (key, value)),
        (forall|k: int| 0 <= k < entries.len() ==> (#[trigger] entries[k]).0 != key)
            ==> ordered_map::with_entry(entries, key, value) == entries.push((key, value)),
{
    if ordered_map::has_key(entries, key) {
        ordered_map::lemma_first_position(entries, key);
    }
    if 0 <= i < entries.len() && entries[i].0 == key {
        ordered_map::lemma_position(entries, i);
    }
}

/// A list of steps with reasons says the same as another where it has the same steps in the same
/// order, each with a reason that says the same.
pub proof fn same_reasons_are_for_the_same_steps(
    a: Seq<(Seq<char>, SkipReason)>,
    b: Seq<(Seq<char>, SkipReason)>,
    i: int,
)
    requires
        context::same_reasons(a, b),
    ensures
        a.len() == b.len(),
        0 <= i < a.len() ==> a[i].0 == b[i].0 && a[i].1.same_as(b[i].1),
{
}

/// What is kept, shown or recorded is told by the texts and paths that it holds, in their order.
pub proof fn views_hold_texts_and_paths(
    kept: Seq<(Seq<char>, (OutputSummary, String))>,
    blocks: Seq<OutputBlock>,
    prints: Seq<(FilePath, u64)>,
    i: int,
)
    ensures
        context::output_texts(kept).len() == kept.len(),
        0 <= i < kept.len() ==> context::output_texts(kept)[i] == (
            kept[i].0,
            ((kept[i].1).0, (kept[i].1).1@),
        ),
        summary::block_texts(blocks).len() == blocks.len(),
        0 <= i < blocks.len() ==> summary::block_texts(blocks)[i] == (
            blocks[i].title@,
            blocks[i].body@,
        ),
        summary::print_views(prints).len() == prints.len(),
        0 <= i < prints.len() ==> summary::print_views(prints)[i] == (prints[i].0@, prints[i].1),
{
}

} // verus!
