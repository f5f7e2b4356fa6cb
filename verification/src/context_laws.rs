//! What changes, and what stays, when something is counted, kept or set up.
use crate::context::{HookContext, SkipDisplay};
use crate::hook::{Hook, StepGroup, StepOrGroup};
use crate::hook_laws::{clashes, clashes_at, is_named, is_set_up, is_sound};
use crate::name_set::NameSet;
use crate::ordered_map::{self, OrderedMap};
use crate::path::{self, FilePath};
use crate::skip::SkipReason;
use crate::step::runner::StepError;
use crate::step::types::{OutputSummary, Step};
use crate::text;
use vstd::prelude::*;

verus! {

/// Jobs that come up add to the total. The new number is given where there are any, and nothing
/// else changes.
pub proof fn jobs_that_come_up_are_counted(ctx: &mut HookContext, n: usize, r: Option<usize>)
    requires
        call_ensures(HookContext::inc_total_jobs, (ctx, n), r),
    ensures
        final(ctx).total_jobs == old(ctx).total_jobs + n,
        n > 0 ==> r == Some(final(ctx).total_jobs),
        n == 0 ==> r is None,
        final(ctx).completed_jobs == old(ctx).completed_jobs,
        final(ctx).file_set == old(ctx).file_set,
        final(ctx).skipped_steps == old(ctx).skipped_steps,
        final(ctx).output_by_step == old(ctx).output_by_step,
        final(ctx).fix_suggestions == old(ctx).fix_suggestions,
{
}

/// Jobs that are done add to those that are done, and the total stays.
pub proof fn jobs_that_are_done_are_counted(ctx: &mut HookContext, n: usize, r: Option<usize>)
    requires
        call_ensures(HookContext::inc_completed_jobs, (ctx, n), r),
    ensures
        final(ctx).completed_jobs == old(ctx).completed_jobs + n,
        n > 0 ==> r == Some(final(ctx).completed_jobs),
        n == 0 ==> r is None,
        final(ctx).total_jobs == old(ctx).total_jobs,
        final(ctx).file_set == old(ctx).file_set,
        final(ctx).skipped_steps == old(ctx).skipped_steps,
        final(ctx).output_by_step == old(ctx).output_by_step,
        final(ctx).fix_suggestions == old(ctx).fix_suggestions,
{
}

/// Jobs that fall away are taken from the total, which does not go below none.
pub proof fn jobs_that_fall_away_are_taken_off(ctx: &mut HookContext, n: usize, r: Option<usize>)
    requires
        call_ensures(HookContext::dec_total_jobs, (ctx, n), r),
    ensures
        n <= old(ctx).total_jobs ==> final(ctx).total_jobs + n == old(ctx).total_jobs,
        n > old(ctx).total_jobs ==> final(ctx).total_jobs == 0,
        n > 0 ==> r == Some(final(ctx).total_jobs),
        n == 0 ==> r is None,
        final(ctx).completed_jobs == old(ctx).completed_jobs,
        final(ctx).file_set == old(ctx).file_set,
        final(ctx).skipped_steps == old(ctx).skipped_steps,
        final(ctx).output_by_step == old(ctx).output_by_step,
        final(ctx).fix_suggestions == old(ctx).fix_suggestions,
{
}

/// A step that is skipped is recorded with its reason, which replaces one that was recorded before;
/// those of other steps stay. It is shown with its message where the settings list that kind of
/// reason, and else not at all.
pub proof fn skipped_step_is_recorded(
    step: Step,
    ctx: &mut HookContext,
    reason: SkipReason,
    shown: Vec<String>,
    r: SkipDisplay,
)
    requires
        ordered_map::distinct_keys(old(ctx).skipped_steps.entries()),
        call_ensures(Step::mark_skipped, (&step, ctx, reason, &shown), r),
    ensures
        final(ctx).skipped_steps.entries().contains((step.name@, reason)),
        forall|i: int|
            0 <= i < old(ctx).skipped_steps.entries().len()
                && (#[trigger] old(ctx).skipped_steps.entries()[i]).0 != step.name@
                ==> final(ctx).skipped_steps.entries()[i] == old(ctx).skipped_steps.entries()[i],
        is_named(shown@, reason.key_text()) ==> (r matches SkipDisplay::Message(m) && m@
            == reason.message_text()),
        !is_named(shown@, reason.key_text()) ==> r is Hidden,
        final(ctx).total_jobs == old(ctx).total_jobs,
        final(ctx).completed_jobs == old(ctx).completed_jobs,
        final(ctx).output_by_step == old(ctx).output_by_step,
{
    let before = old(ctx).skipped_steps.entries();
    let name = step.name@;
    let after = ordered_map::with_entry(before, name, reason);
    if ordered_map::has_key(before, name) {
        ordered_map::lemma_first_position(before, name);
        let p = ordered_map::position_of(before, name);
        assert(after[p] == (name, reason));
    } else {
        assert(after[before.len() as int] == (name, reason));
    }
    if text::lists(shown@, reason.key_text()) {
        let k = choose|k: int| 0 <= k < shown@.len() && #[trigger] shown@[k]@ == reason.key_text();
        assert(shown@[k]@ == reason.key_text());
    }
}

/// Recording a step as skipped changes nothing but what is recorded of it.
pub proof fn only_the_step_is_recorded(ctx: &mut HookContext, name: &str, reason: SkipReason)
    requires
        ordered_map::distinct_keys(old(ctx).skipped_steps.entries()),
        call_ensures(HookContext::track_skip, (ctx, name, reason), ()),
    ensures
        final(ctx).skipped_steps.entries().contains((name@, reason)),
        forall|i: int|
            0 <= i < old(ctx).skipped_steps.entries().len()
                && (#[trigger] old(ctx).skipped_steps.entries()[i]).0 != name@
                ==> final(ctx).skipped_steps.entries()[i] == old(ctx).skipped_steps.entries()[i],
        final(ctx).total_jobs == old(ctx).total_jobs,
        final(ctx).output_by_step == old(ctx).output_by_step,
{
    let before = old(ctx).skipped_steps.entries();
    let after = ordered_map::with_entry(before, name@, reason);
    if ordered_map::has_key(before, name@) {
        ordered_map::lemma_first_position(before, name@);
        let p = ordered_map::position_of(before, name@);
        assert(after[p] == (name@, reason));
    } else {
        assert(after[before.len() as int] == (name@, reason));
    }
}

/// A text that a step writes is kept behind what it has written before, and what other steps have
/// written stays; the first text of a step settles which output it is.
pub proof fn written_text_is_kept_behind(
    ctx: &mut HookContext,
    name: &str,
    mode: OutputSummary,
    added: &str,
    i: int,
)
    requires
        ordered_map::distinct_keys(old(ctx).outputs()),
        added@.len() > 0,
        call_ensures(HookContext::append_step_output, (ctx, name, mode, added), ()),
        0 <= i < old(ctx).outputs().len(),
    ensures
        old(ctx).outputs()[i].0 != name@ ==> final(ctx).outputs()[i] == old(ctx).outputs()[i],
        old(ctx).outputs()[i].0 == name@ ==> final(ctx).outputs()[i] == (
            name@,
            ((old(ctx).outputs()[i].1).0, (old(ctx).outputs()[i].1).1 + added@),
        ),
        final(ctx).total_jobs == old(ctx).total_jobs,
        final(ctx).skipped_steps == old(ctx).skipped_steps,
{
    crate::summary_laws::output_is_added_behind(old(ctx).outputs(), name@, mode, added@, i);
}

/// The first text of a step is kept as it is, as the last of all.
pub proof fn first_text_of_a_step_is_kept(
    ctx: &mut HookContext,
    name: &str,
    mode: OutputSummary,
    added: &str,
)
    requires
        ordered_map::distinct_keys(old(ctx).outputs()),
        forall|k: int|
            0 <= k < old(ctx).outputs().len() ==> (#[trigger] old(ctx).outputs()[k]).0 != name@,
        call_ensures(HookContext::append_step_output, (ctx, name, mode, added), ()),
    ensures
        added@.len() > 0 ==> final(ctx).outputs() == old(ctx).outputs().push((name@, (mode, added@))),
        added@.len() == 0 ==> final(ctx).outputs() == old(ctx).outputs(),
{
    crate::summary_laws::output_is_added_behind(old(ctx).outputs(), name@, mode, added@, 0);
}

/// A fix that is suggested comes behind those that are there, and what is given out is all of them.
pub proof fn suggestions_are_kept_in_order(
    ctx: &mut HookContext,
    suggestion: String,
    all: Vec<String>,
)
    requires
        call_ensures(HookContext::add_fix_suggestion, (ctx, suggestion), ()),
        call_ensures(HookContext::take_fix_suggestions, (&*final(ctx),), all),
    ensures
        all@ == old(ctx).fix_suggestions@.push(suggestion),
        final(ctx).output_by_step == old(ctx).output_by_step,
        final(ctx).skipped_steps == old(ctx).skipped_steps,
{
}

/// Files that are added are in the run from then on, and so are those that were there; no others
/// are.
pub proof fn added_files_are_in_the_run(
    ctx: &mut HookContext,
    added: Vec<FilePath>,
    created: Vec<FilePath>,
    p: crate::component::PathView,
)
    requires
        call_ensures(HookContext::add_files, (ctx, &added, &created), ()),
    ensures
        (exists|k: int|
            0 <= k < final(ctx).file_set.items().len() && path::same_path(
                #[trigger] final(ctx).file_set.items()[k],
                p,
            )) <==> (exists|k: int|
            0 <= k < old(ctx).file_set.items().len() && path::same_path(
                #[trigger] old(ctx).file_set.items()[k],
                p,
            )) || (exists|k: int|
            0 <= k < added@.len() && path::same_path((#[trigger] added@[k])@, p)) || (exists|k: int|
            0 <= k < created@.len() && path::same_path((#[trigger] created@[k])@, p)),
        final(ctx).total_jobs == old(ctx).total_jobs,
        final(ctx).groups == old(ctx).groups,
{
    let set = final(ctx).file_set.items();
    let had = old(ctx).file_set.items();
    let a = path::views(added@);
    let c = path::views(created@);
    let list = had + a + c;
    crate::path_laws::set_has_the_paths_of_the_list(set, list, p, 0, 0);
    if exists|k: int| 0 <= k < list.len() && path::same_path(#[trigger] list[k], p) {
        let k = choose|k: int| 0 <= k < list.len() && path::same_path(#[trigger] list[k], p);
        if k < had.len() {
            assert(path::same_path(had[k], p));
        } else if k < had.len() + a.len() {
            assert(path::same_path(added@[k - had.len()]@, p));
        } else {
            assert(path::same_path(created@[k - had.len() - a.len()]@, p));
        }
    }
    if exists|k: int| 0 <= k < had.len() && path::same_path(#[trigger] had[k], p) {
        let k = choose|k: int| 0 <= k < had.len() && path::same_path(#[trigger] had[k], p);
        assert(path::same_path(list[k], p));
    }
    if exists|k: int| 0 <= k < added@.len() && path::same_path((#[trigger] added@[k])@, p) {
        let k = choose|k: int| 0 <= k < added@.len() && path::same_path((#[trigger] added@[k])@, p);
        assert(path::same_path(list[had.len() + k], p));
    }
    if exists|k: int| 0 <= k < created@.len() && path::same_path((#[trigger] created@[k])@, p) {
        let k = choose|k: int|
            0 <= k < created@.len() && path::same_path((#[trigger] created@[k])@, p);
        assert(path::same_path(list[had.len() + a.len() + k], p));
    }
}

/// A value that is put into a map stands under its key from then on, and every other entry stays
/// where it is.
pub proof fn value_is_put_under_its_key<V>(m: &mut OrderedMap<V>, key: String, value: V, i: int)
    requires
        ordered_map::distinct_keys(old(m).entries()),
        call_ensures(OrderedMap::<V>::insert, (m, key, value), ()),
    ensures
        final(m).entries().contains((key@, value)),
        0 <= i < old(m).entries().len() && old(m).entries()[i].0 != key@ ==> final(m).entries()[i]
            == old(m).entries()[i],
        final(m).entries().len() <= old(m).entries().len() + 1,
{
    let before = old(m).entries();
    let after = ordered_map::with_entry(before, key@, value);
    if ordered_map::has_key(before, key@) {
        ordered_map::lemma_first_position(before, key@);
        let p = ordered_map::position_of(before, key@);
        assert(after[p] == (key@, value));
    } else {
        assert(after[before.len() as int] == (key@, value));
    }
}

/// Names that are put into a set are in it from then on, behind those that were there.
pub proof fn names_are_put_into_a_set(set: &mut NameSet, more: Vec<String>, name: Seq<char>)
    requires
        call_ensures(NameSet::extend, (set, &more), ()),
    ensures
        final(set).items().contains(name) <==> old(set).items().contains(name) || is_named(
            more@,
            name,
        ),
        old(set).items().is_prefix_of(final(set).items()),
{
    crate::operation_laws::lemma_names_put_in(old(set).items(), text::texts(more@));
    crate::operation_laws::lemma_named(more@, name);
}

/// A step is set up under its name, and runs alone where it did before or uses the terminal; but
/// one that uses the terminal while something is piped to it is refused as it is, and the message
/// names it.
pub proof fn step_is_set_up_or_refused(step: &mut Step, name: &str, r: Result<(), StepError>)
    requires
        call_ensures(Step::init, (step, name), r),
    ensures
        r is Err <==> clashes(*old(step)),
        r is Err ==> *final(step) == *old(step) && r->Err_0.text() == "Step '"@ + name@
            + "' can't have both `stdin` and `interactive = true`."@,
        r is Ok ==> {
            &&& final(step).name@ == name@
            &&& final(step).exclusive <==> old(step).exclusive || old(step).interactive
            &&& final(step).check == old(step).check
            &&& final(step).check_diff == old(step).check_diff
            &&& final(step).check_list_files == old(step).check_list_files
            &&& final(step).fix == old(step).fix
            &&& final(step).shell == old(step).shell
            &&& final(step).prefix == old(step).prefix
            &&& final(step).env == old(step).env
        },
{
}

/// A group is set up under its name; it succeeds exactly where nothing is piped to any of its steps
/// that uses the terminal, and each step then bears its name.
pub proof fn group_is_set_up_with_its_steps(
    group: &mut StepGroup,
    name: &str,
    r: Result<(), StepError>,
    i: int,
)
    requires
        call_ensures(StepGroup::init, (group, name), r),
        0 <= i < old(group).steps.entries().len(),
    ensures
        final(group).name is Some,
        final(group).name->0@ == name@,
        final(group).steps.entries().len() == old(group).steps.entries().len(),
        final(group).steps.entries()[i].0 == old(group).steps.entries()[i].0,
        r is Ok <==> forall|k: int|
            0 <= k < old(group).steps.entries().len() ==> !clashes(
                (#[trigger] old(group).steps.entries()[k]).1,
            ),
        r is Ok ==> final(group).steps.entries()[i].1.name@ == old(group).steps.entries()[i].0,
        clashes(old(group).steps.entries()[i].1) ==> final(group).steps.entries()[i].1
            == old(group).steps.entries()[i].1,
{
    crate::hook_laws::lemma_sound_group(old(group).steps.entries());
    let n = crate::hook::sound_steps(old(group).steps.entries()) as int;
    assert(final(group).steps.entries()[i].0 == old(group).steps.entries()[i].0);
    if n < old(group).steps.entries().len() {
        assert(clashes(old(group).steps.entries()[n].1));
    }
}

/// Whether a message complains of the first step of a hook, in a group or outside, to which
/// something is piped though it uses the terminal; `m` is which entry of the hook that step is, or
/// is in.
pub open spec fn is_complaint(
    said: Seq<char>,
    entries: Seq<(Seq<char>, StepOrGroup)>,
    m: int,
    step: Seq<char>,
) -> bool {
    &&& 0 <= m < entries.len()
    &&& clashes_at(entries[m].1, entries[m].0, step)
    &&& forall|j: int| 0 <= j < m ==> is_sound((#[trigger] entries[j]).1)
    &&& said == "Step '"@ + step + "' can't have both `stdin` and `interactive = true`."@
}

/// Where a hook is refused, the message complains of its first step at fault; what comes behind the
/// entry of that step is left as it was.
pub proof fn hook_is_refused_for_its_first_clash(
    hook: &mut Hook,
    name: &str,
    r: Result<(), StepError>,
    k: int,
    i: int,
)
    requires
        call_ensures(Hook::init, (hook, name), r),
    ensures
        r is Err ==> exists|m: int, step: Seq<char>| #[trigger]
            is_complaint(r->Err_0.text(), old(hook).steps.entries(), m, step),
        0 <= k < i < old(hook).steps.entries().len() && !is_sound(
            old(hook).steps.entries()[k].1,
        ) ==> final(hook).steps.entries()[i] == old(hook).steps.entries()[i],
{
    let before = old(hook).steps.entries();
    let after = final(hook).steps.entries();
    crate::hook_laws::first_clash_refuses_the_hook(before);
    let n = crate::hook::sound_entries(before) as int;
    if r is Err {
        let step = before[n].1.refused_name(before[n].0);
        assert(is_complaint(r->Err_0.text(), before, n, step));
    }
    if 0 <= k < i < before.len() && !is_sound(before[k].1) {
        assert(n <= k);
        assert(after[i].0 == before[i].0);
        assert(after[i].1 == before[i].1);
    }
}

/// A hook is set up under its name; it succeeds exactly where nothing is piped to any of its steps
/// that uses the terminal, in a group or outside. Each step outside a group then bears its name and
/// has the variables of the hook. Whatever comes of it, the other settings of the hook stay.
pub proof fn hook_is_set_up_with_its_steps(
    hook: &mut Hook,
    name: &str,
    r: Result<(), StepError>,
    i: int,
)
    requires
        ordered_map::distinct_keys(old(hook).env.entries()),
        call_ensures(Hook::init, (hook, name), r),
        0 <= i < old(hook).steps.entries().len(),
    ensures
        final(hook).name@ == name@,
        r is Ok <==> forall|k: int|
            0 <= k < old(hook).steps.entries().len() ==> is_sound(
                (#[trigger] old(hook).steps.entries()[k]).1,
            ),
        r is Ok ==> (old(hook).steps.entries()[i].1 matches StepOrGroup::Step(b) ==> (
        final(hook).steps.entries()[i].1 matches StepOrGroup::Step(a) && is_set_up(
            *a,
            *b,
            old(hook).steps.entries()[i].0,
            old(hook).env.entries(),
        ))),
        final(hook).fix == old(hook).fix,
        final(hook).stash == old(hook).stash,
        final(hook).stage == old(hook).stage,
        final(hook).fail_on_fix == old(hook).fail_on_fix,
        final(hook).env == old(hook).env,
        final(hook).report == old(hook).report,
{
    let before = old(hook).steps.entries();
    let after = final(hook).steps.entries();
    crate::hook_laws::first_clash_refuses_the_hook(before);
    if r is Ok {
        crate::hook_laws::initialised_steps_are_set_up(before, after, old(hook).env.entries(), i);
    }
}

} // verus!
