//! What holds of a hook once it is set up, planned and narrowed to some steps.
use crate::hook::{
    self, Hook, StashArgument, StashMethod, StashSetting, StepGroup, StepJobs, StepOrGroup,
};
use crate::options::{Environment, HookOptions, Settings};
use crate::ordered_map;
use crate::step::types::{RunType, Step};
use crate::text;
use vstd::prelude::*;

verus! {

/// Whether a name is one of those given.
pub open spec fn is_named(only: Seq<String>, name: Seq<char>) -> bool {
    exists|k: int| 0 <= k < only.len() && (#[trigger] only[k])@ == name
}

/// Where no names are given, every step and every group is selected.
pub proof fn no_names_select_everything(
    selected: Seq<StepOrGroup>,
    all: Seq<StepOrGroup>,
    only: Seq<String>,
)
    requires
        hook::is_selection(selected, all, only),
        only.len() == 0,
    ensures
        selected == all,
{
}

/// Where names are given, a step that stands outside a group is selected exactly where its name is
/// among them, and it is selected as it is.
pub proof fn named_steps_are_selected(
    selected: Seq<StepOrGroup>,
    all: Seq<StepOrGroup>,
    only: Seq<String>,
    i: int,
)
    requires
        hook::is_selection(selected, all, only),
        only.len() > 0,
        0 <= i < all.len(),
        all[i] is Step,
    ensures
        selected.contains(all[i]) <==> is_named(only, all[i]->Step_0.name@),
{
    let kept = |e: StepOrGroup| hook::is_kept(e, only);
    let left = all.filter(kept);
    let step = all[i]->Step_0;
    if is_named(only, step.name@) {
        let k = choose|k: int| 0 <= k < only.len() && (#[trigger] only[k])@ == step.name@;
        assert(text::lists(only, step.name@));
        all.lemma_filter_contains(kept, i);
        let j = choose|j: int| 0 <= j < left.len() && left[j] == all[i];
        assert(hook::is_narrowed(selected[j], left[j], only));
        assert(selected[j] == all[i]);
    }
    if selected.contains(all[i]) {
        let j = choose|j: int| 0 <= j < selected.len() && selected[j] == all[i];
        assert(hook::is_narrowed(selected[j], left[j], only));
        assert(left.contains(left[j]));
        all.lemma_filter_contains_rev(kept, left[j]);
        assert(kept(left[j])) by {
            broadcast use vstd::seq_lib::group_filter_ensures;

        }
        let k = choose|k: int| 0 <= k < only.len() && #[trigger] only[k]@ == step.name@;
        assert(only[k]@ == step.name@);
    }
}

/// No step is selected that the hook does not have.
pub proof fn selected_steps_are_steps_of_the_hook(
    selected: Seq<StepOrGroup>,
    all: Seq<StepOrGroup>,
    only: Seq<String>,
    j: int,
)
    requires
        hook::is_selection(selected, all, only),
        0 <= j < selected.len(),
        selected[j] is Step,
    ensures
        all.contains(selected[j]),
{
    if only.len() > 0 {
        let kept = |e: StepOrGroup| hook::is_kept(e, only);
        let left = all.filter(kept);
        assert(hook::is_narrowed(selected[j], left[j], only));
        assert(left.contains(left[j]));
        all.lemma_filter_contains_rev(kept, left[j]);
        assert(selected[j] == left[j]);
    } else {
        assert(all[j] == selected[j]);
    }
}

/// Whether `after` is the group `before` with exactly those of its steps whose names are given.
pub open spec fn holds_named_steps(after: StepGroup, before: StepGroup, only: Seq<String>) -> bool {
    &&& after.name == before.name
    &&& forall|e: (Seq<char>, Step)| #[trigger]
        after.steps.entries().contains(e) <==> before.steps.entries().contains(e) && is_named(
            only,
            e.0,
        )
}

/// Where names are given, a group stays under its name, with those of its steps whose names are
/// among them and no others.
pub proof fn groups_are_narrowed_to_named_steps(
    selected: Seq<StepOrGroup>,
    all: Seq<StepOrGroup>,
    only: Seq<String>,
    i: int,
) -> (j: int)
    requires
        hook::is_selection(selected, all, only),
        only.len() > 0,
        0 <= i < all.len(),
        all[i] is Group,
    ensures
        0 <= j < selected.len(),
        selected[j] is Group,
        holds_named_steps(*selected[j]->Group_0, *all[i]->Group_0, only),
{
    let kept = |e: StepOrGroup| hook::is_kept(e, only);
    let left = all.filter(kept);
    all.lemma_filter_contains(kept, i);
    let j = choose|j: int| 0 <= j < left.len() && left[j] == all[i];
    assert(hook::is_narrowed(selected[j], left[j], only));
    let b = all[i]->Group_0.steps.entries();
    let a = selected[j]->Group_0.steps.entries();
    let wanted = |e: (Seq<char>, Step)| text::lists(only, e.0);
    assert forall|e: (Seq<char>, Step)| #[trigger]
        a.contains(e) <==> b.contains(e) && is_named(only, e.0) by {
        assert(text::lists(only, e.0) <==> is_named(only, e.0)) by {
            if text::lists(only, e.0) {
                let k = choose|k: int| 0 <= k < only.len() && #[trigger] only[k]@ == e.0;
                assert(only[k]@ == e.0);
            }
        }
        if a.contains(e) {
            b.lemma_filter_contains_rev(wanted, e);
            let m = choose|m: int| 0 <= m < a.len() && a[m] == e;
            assert(wanted(a[m])) by {
                broadcast use vstd::seq_lib::group_filter_ensures;

            }
        }
        if b.contains(e) && is_named(only, e.0) {
            let m = choose|m: int| 0 <= m < b.len() && b[m] == e;
            assert(wanted(b[m]));
            b.lemma_filter_contains(wanted, m);
        }
    }
    j
}

/// Selecting keeps the order: what is selected of two lists, one after the other, is what is
/// selected of the first and then what is selected of the second.
pub proof fn selection_keeps_the_order(
    first: Seq<StepOrGroup>,
    second: Seq<StepOrGroup>,
    all_first: Seq<StepOrGroup>,
    all_second: Seq<StepOrGroup>,
    only: Seq<String>,
)
    requires
        hook::is_selection(first, all_first, only),
        hook::is_selection(second, all_second, only),
    ensures
        hook::is_selection(first + second, all_first + all_second, only),
{
    if only.len() > 0 {
        let kept = |e: StepOrGroup| hook::is_kept(e, only);
        Seq::filter_distributes_over_add(all_first, all_second, kept);
        let left = (all_first + all_second).filter(kept);
        assert forall|i: int| 0 <= i < (first + second).len() implies hook::is_narrowed(
            #[trigger] (first + second)[i],
            left[i],
            only,
        ) by {
            if i < first.len() {
                assert(hook::is_narrowed(first[i], all_first.filter(kept)[i], only));
            } else {
                let j = i - first.len();
                assert(hook::is_narrowed(second[j], all_second.filter(kept)[j], only));
            }
        }
    }
}

/// The steps that are named of a group stand in the order of the group.
pub proof fn named_steps_keep_the_order(
    first: Seq<(Seq<char>, Step)>,
    second: Seq<(Seq<char>, Step)>,
    only: Seq<String>,
)
    ensures
        hook::named_steps(first + second, only) == hook::named_steps(first, only)
            + hook::named_steps(second, only),
{
    Seq::filter_distributes_over_add(
        first,
        second,
        |e: (Seq<char>, Step)| text::lists(only, e.0),
    );
}

/// The values of a map stand in the order of its entries.
pub proof fn values_are_those_of_the_entries<V>(entries: Seq<(Seq<char>, V)>, i: int)
    ensures
        hook::values(entries).len() == entries.len(),
        0 <= i < entries.len() ==> hook::values(entries)[i] == entries[i].1,
{
}

/// Whether something is piped to a step that uses the terminal.
pub open spec fn clashes(step: Step) -> bool {
    step.stdin is Some && step.interactive
}

/// Whether an entry, under a name, is or holds a step of the given name to which something is piped
/// though it uses the terminal, and it is the first in its group.
pub open spec fn clashes_at(entry: StepOrGroup, name: Seq<char>, step: Seq<char>) -> bool {
    match entry {
        StepOrGroup::Step(s) => clashes(*s) && step == name,
        StepOrGroup::Group(g) => exists|k: int|
            {
                &&& 0 <= k < g.steps.entries().len()
                &&& clashes((#[trigger] g.steps.entries()[k]).1)
                &&& step == g.steps.entries()[k].0
                &&& forall|m: int|
                    0 <= m < k ==> !clashes((#[trigger] g.steps.entries()[m]).1)
            },
    }
}

/// Whether an entry holds no step to which something is piped though it uses the terminal.
pub open spec fn is_sound(entry: StepOrGroup) -> bool {
    match entry {
        StepOrGroup::Step(s) => !clashes(*s),
        StepOrGroup::Group(g) => forall|k: int|
            0 <= k < g.steps.entries().len() ==> !clashes((#[trigger] g.steps.entries()[k]).1),
    }
}

pub(crate) proof fn lemma_sound_group(steps: Seq<(Seq<char>, Step)>)
    ensures
        hook::sound_steps(steps) <= steps.len(),
        forall|i: int| 0 <= i < hook::sound_steps(steps) ==> !clashes((#[trigger] steps[i]).1),
        hook::sound_steps(steps) < steps.len() ==> clashes(
            steps[hook::sound_steps(steps) as int].1,
        ),
    decreases steps.len(),
{
    if steps.len() > 0 && !steps[0].1.is_contradictory() {
        let rest = steps.drop_first();
        lemma_sound_group(rest);
        assert forall|i: int| 0 <= i < hook::sound_steps(steps) implies !clashes(
            (#[trigger] steps[i]).1,
        ) by {
            if i > 0 {
                assert(!clashes(rest[i - 1].1));
            }
        }
    }
}

proof fn lemma_refused(entry: StepOrGroup, name: Seq<char>)
    ensures
        entry.is_refused() <==> !is_sound(entry),
        entry.is_refused() ==> clashes_at(entry, name, entry.refused_name(name)),
{
    if let StepOrGroup::Group(g) = entry {
        lemma_sound_group(g.steps.entries());
        let n = hook::sound_steps(g.steps.entries()) as int;
        if n < g.steps.entries().len() {
            assert(clashes(g.steps.entries()[n].1));
        }
    }
}

/// A hook is set up where nothing is piped to any of its steps that uses the terminal, in a group
/// or outside; else the first such step is the one that is complained of.
pub proof fn first_clash_refuses_the_hook(entries: Seq<(Seq<char>, StepOrGroup)>)
    ensures
        hook::sound_entries(entries) <= entries.len(),
        hook::sound_entries(entries) == entries.len() <==> forall|i: int|
            0 <= i < entries.len() ==> is_sound((#[trigger] entries[i]).1),
        forall|i: int|
            0 <= i < hook::sound_entries(entries) ==> is_sound((#[trigger] entries[i]).1),
        hook::sound_entries(entries) < entries.len() ==> {
            let at = entries[hook::sound_entries(entries) as int];
            clashes_at(at.1, at.0, at.1.refused_name(at.0))
        },
    decreases entries.len(),
{
    if entries.len() > 0 {
        lemma_refused(entries[0].1, entries[0].0);
        if !entries[0].1.is_refused() {
            let rest = entries.drop_first();
            first_clash_refuses_the_hook(rest);
            assert forall|i: int| 0 <= i < hook::sound_entries(entries) implies is_sound(
                (#[trigger] entries[i]).1,
            ) by {
                if i > 0 {
                    assert(is_sound(rest[i - 1].1));
                }
            }
            if forall|i: int| 0 <= i < entries.len() ==> is_sound((#[trigger] entries[i]).1) {
                assert forall|i: int| 0 <= i < rest.len() implies is_sound(
                    (#[trigger] rest[i]).1,
                ) by {
                    assert(is_sound(entries[i + 1].1));
                }
            }
        }
    }
}

/// The complaint names the step.
pub proof fn complaint_names_the_step(name: Seq<char>)
    ensures
        hook::contradiction_text(name) == "Step '"@ + name
            + "' can't have both `stdin` and `interactive = true`."@,
{
}

/// Whether `after` is a step of a hook that is set up: it bears its name, it runs alone where it is
/// meant to or uses the terminal, its variables begin with its own and hold those of the hook, and
/// everything else is as it was.
pub open spec fn is_set_up(
    after: Step,
    before: Step,
    name: Seq<char>,
    env: Seq<(Seq<char>, String)>,
) -> bool {
    &&& after.name@ == name
    &&& after.exclusive <==> before.exclusive || before.interactive
    &&& before.env.entries().is_prefix_of(after.env.entries())
    &&& forall|i: int|
        0 <= i < env.len() ==> ordered_map::has_key(after.env.entries(), (#[trigger] env[i]).0)
    &&& after == (Step { name: after.name, exclusive: after.exclusive, env: after.env, ..before })
}

/// Every step of a hook that is set up, in a group or outside, bears its name and has the variables
/// of the hook; every group bears its name.
pub proof fn initialised_steps_are_set_up(
    before: Seq<(Seq<char>, StepOrGroup)>,
    after: Seq<(Seq<char>, StepOrGroup)>,
    env: Seq<(Seq<char>, String)>,
    i: int,
)
    requires
        hook::entries_initialised(before, after, env, before.len()),
        ordered_map::distinct_keys(env),
        0 <= i < before.len(),
    ensures
        after.len() == before.len(),
        after[i].0 == before[i].0,
        before[i].1 matches StepOrGroup::Step(b) ==> (after[i].1 matches StepOrGroup::Step(a)
            && is_set_up(*a, *b, before[i].0, env)),
        before[i].1 matches StepOrGroup::Group(b) ==> (after[i].1 matches StepOrGroup::Group(a) && {
            &&& a.name is Some
            &&& a.name->0@ == before[i].0
            &&& a.steps.entries().len() == b.steps.entries().len()
            &&& forall|k: int|
                0 <= k < b.steps.entries().len() ==> (#[trigger] a.steps.entries()[k]).0
                    == b.steps.entries()[k].0 && is_set_up(
                    a.steps.entries()[k].1,
                    b.steps.entries()[k].1,
                    b.steps.entries()[k].0,
                    env,
                )
        }),
{
    assert(hook::entry_ready(after[i].1, before[i].1, before[i].0, env));
    match (after[i].1, before[i].1) {
        (StepOrGroup::Step(a), StepOrGroup::Step(b)) => {
            lemma_set_up(*a, *b, before[i].0, env);
        },
        (StepOrGroup::Group(a), StepOrGroup::Group(b)) => {
            assert forall|k: int| 0 <= k < b.steps.entries().len() implies (
            #[trigger] a.steps.entries()[k]).0 == b.steps.entries()[k].0 && is_set_up(
                a.steps.entries()[k].1,
                b.steps.entries()[k].1,
                b.steps.entries()[k].0,
                env,
            ) by {
                lemma_set_up(
                    a.steps.entries()[k].1,
                    b.steps.entries()[k].1,
                    b.steps.entries()[k].0,
                    env,
                );
            }
        },
        _ => {},
    }
}

proof fn lemma_set_up(after: Step, before: Step, name: Seq<char>, env: Seq<(Seq<char>, String)>)
    requires
        hook::step_ready(after, before, name, env),
        ordered_map::distinct_keys(env),
    ensures
        is_set_up(after, before, name, env),
{
    let own = before.env.entries();
    hook::own_env_takes_precedence(own, env);
    let m = hook::merged_env(own, env);
    assert(own.is_prefix_of(m)) by {
        assert(m.take(own.len() as int) == own);
        assert(m.subrange(0, own.len() as int) =~= own);
    }
    assert forall|i: int| 0 <= i < env.len() implies ordered_map::has_key(
        m,
        (#[trigger] env[i]).0,
    ) by {
        hook::hook_env_reaches_step(own, env, i);
    }
}

/// A run fixes where the command line says so. Else it fixes only where the environment does not
/// forbid it and the hook wants it: by its setting, or by its name, which is then `fix`.
pub proof fn command_line_may_ask_for_fixing(hook: Hook, opts_fix: bool, env_fix: bool)
    ensures
        opts_fix ==> hook.mode(opts_fix, env_fix) == RunType::Fix,
        !opts_fix && !env_fix ==> hook.mode(opts_fix, env_fix) == RunType::Check,
        !opts_fix && env_fix && hook.fix == Some(true) ==> hook.mode(opts_fix, env_fix)
            == RunType::Fix,
        !opts_fix && hook.fix == Some(false) ==> hook.mode(opts_fix, env_fix) == RunType::Check,
        !opts_fix && env_fix && hook.fix is None && hook.name@ == "fix"@ ==> hook.mode(
            opts_fix,
            env_fix,
        ) == RunType::Fix,
        !opts_fix && hook.fix is None && hook.name@ != "fix"@ ==> hook.mode(opts_fix, env_fix)
            == RunType::Check,
{
}

/// The command line decides how changes are put aside, and a word that it does not know stands for
/// not at all; else the environment decides, and else the hook: by its method, by `git stash` where
/// it only says yes, and not at all where it says no or nothing.
pub proof fn command_line_decides_how_to_stash(
    hook: Hook,
    argument: Option<StashArgument>,
    env_stash: Option<StashMethod>,
    method: StashMethod,
)
    ensures
        argument == Some(StashArgument::Method(method)) ==> hook.chosen_stash(argument, env_stash)
            == method,
        argument == Some(StashArgument::Unknown) ==> hook.chosen_stash(argument, env_stash)
            == StashMethod::NoStash,
        argument is None && env_stash is Some ==> hook.chosen_stash(argument, env_stash)
            == env_stash->0,
        argument is None && env_stash is None ==> {
            &&& hook.stash is None ==> hook.chosen_stash(argument, env_stash)
                == StashMethod::NoStash
            &&& hook.stash == Some(StashSetting::Bool(true)) ==> hook.chosen_stash(
                argument,
                env_stash,
            ) == StashMethod::Git
            &&& hook.stash == Some(StashSetting::Bool(false)) ==> hook.chosen_stash(
                argument,
                env_stash,
            ) == StashMethod::NoStash
            &&& hook.stash == Some(StashSetting::Method(method)) ==> hook.chosen_stash(
                argument,
                env_stash,
            ) == method
        },
        hook.stash is None ==> hook.configured_stash() == StashMethod::NoStash,
        hook.stash == Some(StashSetting::Bool(true)) ==> hook.configured_stash()
            == StashMethod::Git,
        hook.stash == Some(StashSetting::Bool(false)) ==> hook.configured_stash()
            == StashMethod::NoStash,
        hook.stash == Some(StashSetting::Method(method)) ==> hook.configured_stash() == method,
{
}

/// A hook is planned unless the settings name it among those to skip.
pub proof fn skipped_hook_is_not_planned(
    hook: Hook,
    opts: HookOptions,
    settings: Settings,
    env: Environment,
    groups: usize,
)
    ensures
        hook.planned(opts, settings, env, groups) is None <==> is_named(
            settings.skip_hooks@,
            hook.name@,
        ),
{
    let names = settings.skip_hooks@;
    if text::lists(names, hook.name@) {
        let k = choose|k: int| 0 <= k < names.len() && #[trigger] names[k]@ == hook.name@;
        assert(names[k]@ == hook.name@);
    }
}

/// A plan stops at the first failure where the command line says so; else it goes on where that
/// says so; else it does as the settings say.
pub proof fn command_line_decides_whether_to_stop(
    hook: Hook,
    opts: HookOptions,
    settings: Settings,
    env: Environment,
    groups: usize,
)
    requires
        hook.planned(opts, settings, env, groups) is Some,
    ensures
        opts.fail_fast ==> hook.planned(opts, settings, env, groups)->0.fail_fast,
        !opts.fail_fast && opts.no_fail_fast ==> !hook.planned(
            opts,
            settings,
            env,
            groups,
        )->0.fail_fast,
        !opts.fail_fast && !opts.no_fail_fast ==> hook.planned(
            opts,
            settings,
            env,
            groups,
        )->0.fail_fast == settings.fail_fast,
{
}

/// A plan stages what was fixed as the command line says; else as the settings say; else as the
/// hook says; and else it does.
pub proof fn command_line_decides_whether_to_stage(
    hook: Hook,
    opts: HookOptions,
    settings: Settings,
    env: Environment,
    groups: usize,
)
    requires
        hook.planned(opts, settings, env, groups) is Some,
    ensures
        opts.should_stage is Some ==> hook.planned(opts, settings, env, groups)->0.should_stage
            == opts.should_stage->0,
        opts.should_stage is None && settings.stage is Some ==> hook.planned(
            opts,
            settings,
            env,
            groups,
        )->0.should_stage == settings.stage->0,
        opts.should_stage is None && settings.stage is None && hook.stage is Some ==> hook.planned(
            opts,
            settings,
            env,
            groups,
        )->0.should_stage == hook.stage->0,
        opts.should_stage is None && settings.stage is None && hook.stage is None ==> hook.planned(
            opts,
            settings,
            env,
            groups,
        )->0.should_stage,
{
}

/// What else a plan holds comes from where it belongs: the mode and the way to put changes aside
/// from the command line, the environment and the hook; whether untracked files are a reason to put
/// them aside from the environment; whether modified files are a failure from the hook.
pub proof fn plan_holds_what_was_decided(
    hook: Hook,
    opts: HookOptions,
    settings: Settings,
    env: Environment,
    groups: usize,
)
    requires
        hook.planned(opts, settings, env, groups) is Some,
    ensures
        hook.planned(opts, settings, env, groups)->0.run_type == hook.mode(opts.fix, env.fix),
        hook.planned(opts, settings, env, groups)->0.stash_method == hook.chosen_stash(
            opts.stash,
            env.stash,
        ),
        hook.planned(opts, settings, env, groups)->0.stash_untracked == env.stash_untracked,
        hook.planned(opts, settings, env, groups)->0.fail_on_fix == hook.fail_on_fix,
        hook.planned(opts, settings, env, groups)->0.groups == groups,
{
}

/// A step has nothing to run exactly where its jobs could be built and each of them is to be
/// skipped.
pub proof fn step_is_idle_where_all_jobs_are_skipped(skipped: Vec<bool>)
    ensures
        StepJobs::Built(skipped).is_idle() <==> !skipped@.contains(false),
        !StepJobs::Failed.is_idle(),
{
    let jobs = StepJobs::Built(skipped);
    if skipped@.contains(false) {
        let i = choose|i: int| 0 <= i < skipped@.len() && skipped@[i] == false;
        assert(!(jobs->Built_0@[i] == true));
    } else {
        assert forall|i: int|
            0 <= i < jobs->Built_0@.len() implies #[trigger] jobs->Built_0@[i] == true by {
            if skipped@[i] == false {
                assert(skipped@.contains(false));
            }
        }
    }
}

/// Whether the jobs of a step could be built and each of them is to be skipped.
pub open spec fn has_no_job(jobs: StepJobs) -> bool {
    jobs matches StepJobs::Built(skipped) && !skipped@.contains(false)
}

proof fn lemma_idle(jobs: StepJobs)
    ensures
        jobs.is_idle() <==> has_no_job(jobs),
{
    if let StepJobs::Built(skipped) = jobs {
        step_is_idle_where_all_jobs_are_skipped(skipped);
    }
}

/// A run has nothing to do exactly where the jobs of every step could be built and each of them is
/// to be skipped.
pub proof fn run_has_nothing_to_do_without_jobs(groups: Vec<Vec<StepJobs>>, r: bool)
    requires
        call_ensures(hook::can_exit_early, (&groups,), r),
    ensures
        r <==> forall|g: int, s: int|
            0 <= g < groups@.len() && 0 <= s < groups@[g]@.len() ==> has_no_job(
                #[trigger] groups@[g]@[s],
            ),
{
    if r {
        assert forall|g: int, s: int|
            0 <= g < groups@.len() && 0 <= s < groups@[g]@.len() implies has_no_job(
            #[trigger] groups@[g]@[s],
        ) by {
            lemma_idle(groups@[g]@[s]);
        }
    } else {
        let (g, s) = choose|g: int, s: int|
            0 <= g < groups@.len() && 0 <= s < groups@[g]@.len() && !(
            #[trigger] groups@[g]@[s]).is_idle();
        lemma_idle(groups@[g]@[s]);
        assert(!has_no_job(groups@[g]@[s]));
    }
}

/// The variables of a hook are merged into those of a step one after the other, in their order:
/// each comes last where the step does not have it, and changes nothing where it does.
pub proof fn variables_are_merged_in_order(
    own: Seq<(Seq<char>, String)>,
    first: Seq<(Seq<char>, String)>,
    second: Seq<(Seq<char>, String)>,
    one: (Seq<char>, String),
)
    ensures
        hook::merged_env(own, Seq::empty()) == own,
        (exists|k: int| 0 <= k < own.len() && (#[trigger] own[k]).0 == one.0) ==> hook::merged_env(
            own,
            seq![one],
        ) == own,
        (forall|k: int| 0 <= k < own.len() ==> (#[trigger] own[k]).0 != one.0) ==> hook::merged_env(
            own,
            seq![one],
        ) == own.push(one),
        hook::merged_env(own, first + second) == hook::merged_env(
            hook::merged_env(own, first),
            second,
        ),
    decreases second.len(),
{
    reveal_with_fuel(hook::merged_env, 2);
    assert(seq![one].drop_last() =~= Seq::<(Seq<char>, String)>::empty());
    if exists|k: int| 0 <= k < own.len() && (#[trigger] own[k]).0 == one.0 {
        let k = choose|k: int| 0 <= k < own.len() && (#[trigger] own[k]).0 == one.0;
        assert(own[k].0 == one.0);
        assert(ordered_map::has_key(own, one.0));
    }
    if second.len() > 0 {
        variables_are_merged_in_order(own, first, second.drop_last(), one);
        assert((first + second).drop_last() =~= first + second.drop_last());
    } else {
        assert(first + second =~= first);
    }
}

} // verus!
