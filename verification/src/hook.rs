//! Hooks: the steps that run on an occasion, and how they are set up.
use crate::ordered_map::{self, OrderedMap};
use crate::step::runner::StepError;
use crate::step::types::{RunType, Script, Step};
use crate::text;
use vstd::prelude::*;

verus! {

/// How changes that are not staged are put aside while a hook runs.
#[derive(Clone, Copy, Debug, PartialEq, Eq, Structural)]
pub enum StashMethod {
    /// With `git stash`.
    Git,
    /// In a patch file.
    PatchFile,
    /// Not at all.
    NoStash,
}

/// What a configuration says of stashing.
#[derive(Clone, Copy, Debug, PartialEq, Eq, Structural)]
pub enum StashSetting {
    Method(StashMethod),
    Bool(bool),
}

/// What the command line says of stashing.
#[derive(Clone, Copy, Debug, PartialEq, Eq, Structural)]
pub enum StashArgument {
    Method(StashMethod),
    /// A word that names no method.
    Unknown,
}

/// Steps that run together.
#[derive(Clone, Debug)]
pub struct StepGroup {
    /// The name of the group, set when it is initialised.
    pub name: Option<String>,
    /// The steps of the group, by name.
    pub steps: OrderedMap<Step>,
}

/// A step, or a group of steps.
#[derive(Clone, Debug)]
pub enum StepOrGroup {
    Step(Box<Step>),
    Group(Box<StepGroup>),
}

/// The steps that run on an occasion.
#[derive(Clone, Debug)]
pub struct Hook {
    /// The name of the hook, set when it is initialised.
    pub name: String,
    /// The steps and groups of the hook, by name.
    pub steps: OrderedMap<StepOrGroup>,
    /// Whether the hook fixes; by default the hook `fix` does.
    pub fix: Option<bool>,
    /// Whether, and how, to put changes aside that are not staged.
    pub stash: Option<StashSetting>,
    /// Whether to stage what was fixed.
    pub stage: Option<bool>,
    /// Whether the hook fails where fixing modified files.
    pub fail_on_fix: bool,
    /// Environment variables for all steps.
    pub env: OrderedMap<String>,
    /// Command that reports on the run.
    pub report: Option<Script>,
}

/// How many steps there are before the first one whose settings exclude each other.
pub open spec fn sound_steps(steps: Seq<(Seq<char>, Step)>) -> nat
    decreases steps.len(),
{
    if steps.len() == 0 || steps[0].1.is_contradictory() {
        0
    } else {
        1 + sound_steps(steps.drop_first())
    }
}

/// Whether the first `n` steps are initialised and the others are as they were.
pub open spec fn steps_initialised(
    before: Seq<(Seq<char>, Step)>,
    after: Seq<(Seq<char>, Step)>,
    n: nat,
) -> bool {
    &&& after.len() == before.len()
    &&& forall|i: int|
        0 <= i < after.len() ==> {
            &&& (#[trigger] after[i]).0 == before[i].0
            &&& i < n ==> after[i].1.is_initialised(before[i].1, before[i].0)
            &&& i >= n ==> after[i].1 == before[i].1
        }
}

/// A run of sound steps followed by an unsound one, or by none, has the length of the run.
proof fn lemma_sound_steps(steps: Seq<(Seq<char>, Step)>, n: nat)
    requires
        n <= steps.len(),
        forall|i: int| 0 <= i < n ==> !(#[trigger] steps[i]).1.is_contradictory(),
        n < steps.len() ==> steps[n as int].1.is_contradictory(),
    ensures
        sound_steps(steps) == n,
    decreases steps.len(),
{
    if steps.len() > 0 && n > 0 {
        assert(!steps[0].1.is_contradictory());
        let rest = steps.drop_first();
        assert forall|i: int| 0 <= i < n - 1 implies !(
        #[trigger] rest[i]).1.is_contradictory() by {
            assert(rest[i] == steps[i + 1]);
        }
        lemma_sound_steps(rest, (n - 1) as nat);
    }
}

impl StepGroup {
    /// Gives the group and its steps their names, up to the first step that is refused.
    pub fn init(&mut self, name: &str) -> (r: Result<(), StepError>)
        ensures
            crate::step::types::opt_text(final(self).name) == Some(name@),
            steps_initialised(
                old(self).steps.entries(),
                final(self).steps.entries(),
                sound_steps(old(self).steps.entries()),
            ),
            r is Ok <==> sound_steps(old(self).steps.entries()) == old(
                self,
            ).steps.entries().len(),
            r is Err ==> r->Err_0.text() == contradiction_text(
                old(self).steps.entries()[sound_steps(old(self).steps.entries()) as int].0,
            ),
    {
        let ghost before = self.steps.entries();
        self.name = Some(name.to_owned());
        let mut old_steps: OrderedMap<Step> = OrderedMap::new();
        core::mem::swap(&mut self.steps, &mut old_steps);
        let r = init_steps(old_steps);
        self.steps = r.0;
        r.1
    }
}

/// The message where the settings of the step of that name exclude each other.
pub open spec fn contradiction_text(name: Seq<char>) -> Seq<char> {
    "Step '"@ + name + "' can't have both `stdin` and `interactive = true`."@
}

fn init_steps(steps: OrderedMap<Step>) -> (r: (OrderedMap<Step>, Result<(), StepError>))
    ensures
        steps_initialised(steps.entries(), r.0.entries(), sound_steps(steps.entries())),
        r.1 is Ok <==> sound_steps(steps.entries()) == steps.entries().len(),
        r.1 is Err ==> sound_steps(steps.entries()) < steps.entries().len()
            && r.1->Err_0.text() == contradiction_text(
            steps.entries()[sound_steps(steps.entries()) as int].0,
        ),
{
    let ghost before = steps.entries();
    let ghost mut n: nat = 0;
    let mut r: Result<(), StepError> = Ok(());
    let mut rest = steps.into_reversed();
    let mut done: OrderedMap<Step> = OrderedMap::new();
    while rest.len() > 0
        invariant
            done.entries().len() + rest@.len() == before.len(),
            ordered_map::distinct_keys(before),
            forall|i: int|
                0 <= i < rest@.len() ==> (#[trigger] rest@[i]).0@ == before[before.len() - 1 - i].0
                    && rest@[i].1 == before[before.len() - 1 - i].1,
            n <= done.entries().len(),
            r is Ok ==> n == done.entries().len(),
            forall|i: int|
                0 <= i < done.entries().len() ==> {
                    &&& (#[trigger] done.entries()[i]).0 == before[i].0
                    &&& i < n ==> done.entries()[i].1.is_initialised(before[i].1, before[i].0)
                    &&& i >= n ==> done.entries()[i].1 == before[i].1
                },
            forall|i: int| 0 <= i < n ==> !(#[trigger] before[i]).1.is_contradictory(),
            r is Err ==> n < done.entries().len() && before[n as int].1.is_contradictory()
                && r->Err_0.text() == contradiction_text(before[n as int].0),
        decreases rest@.len(),
    {
        let ghost at = done.entries().len() as int;
        let (name, mut step) = rest.pop().unwrap();
        if r.is_ok() {
            r = step.init(name.as_str());
            proof {
                if r is Ok {
                    n = n + 1;
                }
            }
        }
        proof {
            ordered_map::lemma_new_key(done.entries(), before, at);
        }
        done.insert(name, step);
    }
    proof {
        lemma_sound_steps(before, n);
    }
    (done, r)
}

impl StepOrGroup {
    /// Whether initialising refuses the step, or one of the steps of the group.
    pub open spec fn is_refused(self) -> bool {
        match self {
            StepOrGroup::Step(step) => step.is_contradictory(),
            StepOrGroup::Group(group) => sound_steps(group.steps.entries())
                < group.steps.entries().len(),
        }
    }

    /// The name that the message speaks of where initialising under `name` is refused.
    pub open spec fn refused_name(self, name: Seq<char>) -> Seq<char> {
        match self {
            StepOrGroup::Step(_) => name,
            StepOrGroup::Group(group) => group.steps.entries()[sound_steps(
                group.steps.entries(),
            ) as int].0,
        }
    }

    /// Whether `self` is what initialising under `name` makes of `before`: as much of it as comes
    /// before a step that is refused is initialised.
    pub open spec fn is_initialised(self, before: StepOrGroup, name: Seq<char>) -> bool {
        match (self, before) {
            (StepOrGroup::Step(a), StepOrGroup::Step(b)) => if b.is_contradictory() {
                *a == *b
            } else {
                a.is_initialised(*b, name)
            },
            (StepOrGroup::Group(a), StepOrGroup::Group(b)) => {
                &&& crate::step::types::opt_text(a.name) == Some(name)
                &&& steps_initialised(
                    b.steps.entries(),
                    a.steps.entries(),
                    sound_steps(b.steps.entries()),
                )
            },
            _ => false,
        }
    }

    /// Gives the step, or the group with its steps, its name.
    pub fn init(&mut self, name: &str) -> (r: Result<(), StepError>)
        ensures
            r is Err <==> old(self).is_refused(),
            r is Err ==> r->Err_0.text() == contradiction_text(old(self).refused_name(name@)),
            final(self).is_initialised(*old(self), name@),
    {
        match self {
            StepOrGroup::Step(step) => step.init(name),
            StepOrGroup::Group(group) => {
                proof {
                    lemma_sound_bound(group.steps.entries());
                }
                group.init(name)
            },
        }
    }
}

/// There are no more sound steps than steps.
pub proof fn lemma_sound_bound(steps: Seq<(Seq<char>, Step)>)
    ensures
        sound_steps(steps) <= steps.len(),
    decreases steps.len(),
{
    if steps.len() > 0 && !steps[0].1.is_contradictory() {
        lemma_sound_bound(steps.drop_first());
    }
}

/// `entries` with `value` under `key` as a new last entry, where the key is not there.
pub open spec fn with_default(
    entries: Seq<(Seq<char>, String)>,
    key: Seq<char>,
    value: String,
) -> Seq<(Seq<char>, String)> {
    if ordered_map::has_key(entries, key) {
        entries
    } else {
        entries.push((key, value))
    }
}

/// The variables of a step together with those of the hook that the step does not set itself.
pub open spec fn merged_env(
    own: Seq<(Seq<char>, String)>,
    hook: Seq<(Seq<char>, String)>,
) -> Seq<(Seq<char>, String)>
    decreases hook.len(),
{
    if hook.len() == 0 {
        own
    } else {
        with_default(merged_env(own, hook.drop_last()), hook.last().0, hook.last().1)
    }
}

fn merge_env(own: &mut OrderedMap<String>, hook: &OrderedMap<String>)
    ensures
        final(own).entries() == merged_env(old(own).entries(), hook.entries()),
{
    let ghost before = own.entries();
    let ghost all = hook.entries();
    let mut i: usize = 0;
    assert(all.take(0) =~= Seq::<(Seq<char>, String)>::empty());
    while i < hook.len()
        invariant
            i <= all.len(),
            all == hook.entries(),
            own.entries() == merged_env(before, all.take(i as int)),
        decreases all.len() - i,
    {
        assert(all.take(i + 1).drop_last() =~= all.take(i as int));
        if !own.contains_key(hook.key_at(i).as_str()) {
            own.insert(hook.key_at(i).clone(), hook.value_at(i).clone());
        }
        i = i + 1;
    }
    assert(all.take(all.len() as int) =~= all);
}

/// The variables that a step sets itself keep their place and their value when those of the hook
/// are merged in.
pub proof fn own_env_takes_precedence(
    own: Seq<(Seq<char>, String)>,
    hook: Seq<(Seq<char>, String)>,
)
    ensures
        merged_env(own, hook).len() >= own.len(),
        merged_env(own, hook).take(own.len() as int) == own,
    decreases hook.len(),
{
    if hook.len() > 0 {
        own_env_takes_precedence(own, hook.drop_last());
        let m = merged_env(own, hook.drop_last());
        assert(merged_env(own, hook).take(own.len() as int) =~= m.take(own.len() as int));
    } else {
        assert(merged_env(own, hook).take(own.len() as int) =~= own);
    }
}

/// Every variable of the hook is set for the step, with the value of the hook where the step does
/// not set it itself.
pub proof fn hook_env_reaches_step(
    own: Seq<(Seq<char>, String)>,
    hook: Seq<(Seq<char>, String)>,
    i: int,
)
    requires
        0 <= i < hook.len(),
        ordered_map::distinct_keys(hook),
    ensures
        ordered_map::has_key(merged_env(own, hook), hook[i].0),
        !ordered_map::has_key(own, hook[i].0) ==> merged_env(own, hook).contains(hook[i]),
    decreases hook.len(),
{
    let rest = hook.drop_last();
    let m = merged_env(own, rest);
    let key = hook[i].0;
    if i == rest.len() {
        if ordered_map::has_key(m, key) {
            if !ordered_map::has_key(own, key) {
                lemma_merged_key(own, rest, key);
                let j = choose|j: int| 0 <= j < rest.len() && #[trigger] rest[j].0 == key;
                assert(hook[j].0 != hook[i].0);
            }
        } else {
            assert(merged_env(own, hook)[m.len() as int] == hook[i]);
        }
    } else {
        assert(ordered_map::distinct_keys(rest)) by {
            assert forall|a: int, b: int| 0 <= a < b < rest.len() implies #[trigger] rest[a].0
                != #[trigger] rest[b].0 by {
                assert(hook[a].0 != hook[b].0);
            }
        }
        hook_env_reaches_step(own, rest, i);
        let j = choose|j: int| 0 <= j < m.len() && #[trigger] m[j].0 == key;
        assert(merged_env(own, hook)[j] == m[j]);
        if !ordered_map::has_key(own, key) {
            let k = choose|k: int| 0 <= k < m.len() && m[k] == hook[i];
            assert(merged_env(own, hook)[k] == m[k]);
        }
    }
}

/// A variable that is set after merging is set by the step or by the hook.
proof fn lemma_merged_key(
    own: Seq<(Seq<char>, String)>,
    hook: Seq<(Seq<char>, String)>,
    key: Seq<char>,
)
    requires
        ordered_map::has_key(merged_env(own, hook), key),
    ensures
        ordered_map::has_key(own, key) || ordered_map::has_key(hook, key),
    decreases hook.len(),
{
    if hook.len() > 0 {
        let m = merged_env(own, hook.drop_last());
        let all = merged_env(own, hook);
        let j = choose|j: int| 0 <= j < all.len() && #[trigger] all[j].0 == key;
        if j < m.len() {
            assert(m[j].0 == key);
            lemma_merged_key(own, hook.drop_last(), key);
            if ordered_map::has_key(hook.drop_last(), key) {
                let k = choose|k: int|
                    0 <= k < hook.drop_last().len() && #[trigger] hook.drop_last()[k].0 == key;
                assert(hook[k].0 == key);
            }
        } else {
            assert(hook[hook.len() - 1].0 == key);
        }
    }
}

/// Merging the variables of the hook a second time changes nothing.
pub proof fn merging_env_twice_is_merging_once(
    own: Seq<(Seq<char>, String)>,
    hook: Seq<(Seq<char>, String)>,
)
    requires
        ordered_map::distinct_keys(hook),
    ensures
        merged_env(merged_env(own, hook), hook) == merged_env(own, hook),
{
    assert forall|i: int| 0 <= i < hook.len() implies ordered_map::has_key(
        merged_env(own, hook),
        (#[trigger] hook[i]).0,
    ) by {
        hook_env_reaches_step(own, hook, i);
    }
    lemma_merge_known(merged_env(own, hook), hook);
}

proof fn lemma_merge_known(own: Seq<(Seq<char>, String)>, hook: Seq<(Seq<char>, String)>)
    requires
        forall|i: int| 0 <= i < hook.len() ==> ordered_map::has_key(own, (#[trigger] hook[i]).0),
    ensures
        merged_env(own, hook) == own,
    decreases hook.len(),
{
    if hook.len() > 0 {
        assert forall|i: int| 0 <= i < hook.drop_last().len() implies ordered_map::has_key(
            own,
            (#[trigger] hook.drop_last()[i]).0,
        ) by {
            assert(hook[i] == hook.drop_last()[i]);
        }
        lemma_merge_known(own, hook.drop_last());
        assert(ordered_map::has_key(own, hook[hook.len() - 1].0));
    }
}

/// Whether `after` is `before`, initialised under `name` and with the variables of the hook.
pub open spec fn step_ready(
    after: Step,
    before: Step,
    name: Seq<char>,
    env: Seq<(Seq<char>, String)>,
) -> bool {
    &&& after.name@ == name
    &&& after.env.entries() == merged_env(before.env.entries(), env)
    &&& after == (Step {
        name: after.name,
        env: after.env,
        exclusive: before.exclusive || before.interactive,
        ..before
    })
}

/// Whether `after` is `before`, initialised under `name` and with the variables of the hook in
/// each step.
pub open spec fn entry_ready(
    after: StepOrGroup,
    before: StepOrGroup,
    name: Seq<char>,
    env: Seq<(Seq<char>, String)>,
) -> bool {
    match (after, before) {
        (StepOrGroup::Step(a), StepOrGroup::Step(b)) => step_ready(*a, *b, name, env),
        (StepOrGroup::Group(a), StepOrGroup::Group(b)) => {
            &&& crate::step::types::opt_text(a.name) == Some(name)
            &&& a.steps.entries().len() == b.steps.entries().len()
            &&& forall|i: int|
                0 <= i < a.steps.entries().len() ==> {
                    &&& (#[trigger] a.steps.entries()[i]).0 == b.steps.entries()[i].0
                    &&& step_ready(
                        a.steps.entries()[i].1,
                        b.steps.entries()[i].1,
                        b.steps.entries()[i].0,
                        env,
                    )
                }
        },
        _ => false,
    }
}

fn merge_env_all(steps: OrderedMap<Step>, env: &OrderedMap<String>) -> (r: OrderedMap<Step>)
    ensures
        r.entries().len() == steps.entries().len(),
        forall|i: int|
            0 <= i < r.entries().len() ==> {
                let before = steps.entries()[i].1;
                let after = (#[trigger] r.entries()[i]).1;
                &&& r.entries()[i].0 == steps.entries()[i].0
                &&& after.env.entries() == merged_env(before.env.entries(), env.entries())
                &&& after == (Step { env: after.env, ..before })
            },
{
    let ghost before = steps.entries();
    let mut rest = steps.into_reversed();
    let mut done: OrderedMap<Step> = OrderedMap::new();
    while rest.len() > 0
        invariant
            done.entries().len() + rest@.len() == before.len(),
            ordered_map::distinct_keys(before),
            forall|i: int|
                0 <= i < rest@.len() ==> (#[trigger] rest@[i]).0@ == before[before.len() - 1 - i].0
                    && rest@[i].1 == before[before.len() - 1 - i].1,
            forall|i: int|
                0 <= i < done.entries().len() ==> {
                    let after = (#[trigger] done.entries()[i]).1;
                    &&& done.entries()[i].0 == before[i].0
                    &&& after.env.entries() == merged_env(
                        before[i].1.env.entries(),
                        env.entries(),
                    )
                    &&& after == (Step { env: after.env, ..before[i].1 })
                },
        decreases rest@.len(),
    {
        let (name, mut step) = rest.pop().unwrap();
        merge_env(&mut step.env, env);
        proof {
            ordered_map::lemma_new_key(done.entries(), before, done.entries().len() as int);
        }
        done.insert(name, step);
    }
    done
}

/// How many entries there are before the first one that initialising refuses.
pub open spec fn sound_entries(entries: Seq<(Seq<char>, StepOrGroup)>) -> nat
    decreases entries.len(),
{
    if entries.len() == 0 || entries[0].1.is_refused() {
        0
    } else {
        1 + sound_entries(entries.drop_first())
    }
}

proof fn lemma_sound_entries(entries: Seq<(Seq<char>, StepOrGroup)>, n: nat)
    requires
        n <= entries.len(),
        forall|i: int| 0 <= i < n ==> !(#[trigger] entries[i]).1.is_refused(),
        n < entries.len() ==> entries[n as int].1.is_refused(),
    ensures
        sound_entries(entries) == n,
    decreases entries.len(),
{
    if entries.len() > 0 && n > 0 {
        assert(!entries[0].1.is_refused());
        let rest = entries.drop_first();
        assert forall|i: int| 0 <= i < n - 1 implies !(#[trigger] rest[i]).1.is_refused() by {
            assert(rest[i] == entries[i + 1]);
        }
        lemma_sound_entries(rest, (n - 1) as nat);
    }
}

/// Whether `after` is what initialising a hook makes of its entries: those before the first one
/// that is refused are ready, that one is initialised as far as it goes, and the others are as
/// they were.
pub open spec fn entries_initialised(
    before: Seq<(Seq<char>, StepOrGroup)>,
    after: Seq<(Seq<char>, StepOrGroup)>,
    env: Seq<(Seq<char>, String)>,
    n: nat,
) -> bool {
    &&& after.len() == before.len()
    &&& forall|i: int|
        0 <= i < after.len() ==> {
            &&& (#[trigger] after[i]).0 == before[i].0
            &&& i < n ==> entry_ready(after[i].1, before[i].1, before[i].0, env)
            &&& i == n ==> after[i].1.is_initialised(before[i].1, before[i].0)
            &&& i > n ==> after[i].1 == before[i].1
        }
}

fn init_entry(entry: &mut StepOrGroup, name: &str, env: &OrderedMap<String>) -> (r: Result<
    (),
    StepError,
>)
    ensures
        r is Err <==> old(entry).is_refused(),
        r is Err ==> r->Err_0.text() == contradiction_text(old(entry).refused_name(name@))
            && final(entry).is_initialised(*old(entry), name@),
        r is Ok ==> entry_ready(*final(entry), *old(entry), name@, env.entries()),
{
    let ghost before = *entry;
    let r = entry.init(name);
    if r.is_err() {
        return r;
    }
    match entry {
        StepOrGroup::Step(step) => {
            merge_env(&mut step.env, env);
        },
        StepOrGroup::Group(group) => {
            proof {
                lemma_sound_bound(before->Group_0.steps.entries());
            }
            let ghost mid = group.steps.entries();
            let mut steps: OrderedMap<Step> = OrderedMap::new();
            core::mem::swap(&mut group.steps, &mut steps);
            group.steps = merge_env_all(steps, env);
            proof {
                let b = before->Group_0.steps.entries();
                assert forall|i: int| 0 <= i < group.steps.entries().len() implies {
                    &&& (#[trigger] group.steps.entries()[i]).0 == b[i].0
                    &&& step_ready(group.steps.entries()[i].1, b[i].1, b[i].0, env.entries())
                } by {
                    assert(mid[i].0 == b[i].0);
                }
            }
        },
    }
    r
}

impl Hook {
    /// Gives the hook, its groups and its steps their names, and merges the variables of the hook
    /// into those of the steps, up to the first step that is refused.
    pub fn init(&mut self, hook_name: &str) -> (r: Result<(), StepError>)
        ensures
            ({
                let before = old(self).steps.entries();
                let n = sound_entries(before);
                &&& final(self).name@ == hook_name@
                &&& *final(self) == (Hook {
                    name: final(self).name,
                    steps: final(self).steps,
                    ..*old(self)
                })
                &&& entries_initialised(
                    before,
                    final(self).steps.entries(),
                    old(self).env.entries(),
                    n,
                )
                &&& r is Ok <==> n == before.len()
                &&& r is Err ==> n < before.len() && r->Err_0.text() == contradiction_text(
                    before[n as int].1.refused_name(before[n as int].0),
                )
            }),
    {
        self.name = hook_name.to_owned();
        let ghost before = self.steps.entries();
        let mut steps: OrderedMap<StepOrGroup> = OrderedMap::new();
        core::mem::swap(&mut self.steps, &mut steps);
        let ghost mut n: nat = 0;
        let mut r: Result<(), StepError> = Ok(());
        let mut rest = steps.into_reversed();
        let mut done: OrderedMap<StepOrGroup> = OrderedMap::new();
        while rest.len() > 0
            invariant
                done.entries().len() + rest@.len() == before.len(),
                ordered_map::distinct_keys(before),
                forall|i: int|
                    0 <= i < rest@.len() ==> (#[trigger] rest@[i]).0@ == before[before.len() - 1
                        - i].0 && rest@[i].1 == before[before.len() - 1 - i].1,
                n <= done.entries().len(),
                r is Ok ==> n == done.entries().len(),
                forall|i: int|
                    0 <= i < done.entries().len() ==> {
                        &&& (#[trigger] done.entries()[i]).0 == before[i].0
                        &&& i < n ==> entry_ready(
                            done.entries()[i].1,
                            before[i].1,
                            before[i].0,
                            self.env.entries(),
                        )
                        &&& i == n ==> done.entries()[i].1.is_initialised(
                            before[i].1,
                            before[i].0,
                        )
                        &&& i > n ==> done.entries()[i].1 == before[i].1
                    },
                forall|i: int| 0 <= i < n ==> !(#[trigger] before[i]).1.is_refused(),
                r is Err ==> n < done.entries().len() && before[n as int].1.is_refused()
                    && r->Err_0.text() == contradiction_text(
                    before[n as int].1.refused_name(before[n as int].0),
                ),
            decreases rest@.len(),
        {
            let ghost at = done.entries().len() as int;
            let (name, mut entry) = rest.pop().unwrap();
            if r.is_ok() {
                r = init_entry(&mut entry, name.as_str(), &self.env);
                proof {
                    if r is Ok {
                        n = n + 1;
                    }
                }
            }
            proof {
                ordered_map::lemma_new_key(done.entries(), before, at);
            }
            done.insert(name, entry);
        }
        proof {
            lemma_sound_entries(before, n);
        }
        self.steps = done;
        r
    }

    /// Whether the hook fixes by its own configuration.
    pub open spec fn wants_fix(self) -> bool {
        match self.fix {
            Some(b) => b,
            None => self.name@ == "fix"@,
        }
    }

    /// The mode of a run. The command line may ask for fixing; else the hook must want it and the
    /// environment must not forbid it.
    pub open spec fn mode(self, opts_fix: bool, env_fix: bool) -> RunType {
        if (env_fix && self.wants_fix()) || opts_fix {
            RunType::Fix
        } else {
            RunType::Check
        }
    }

    /// The mode of a run.
    pub fn run_type(&self, opts_fix: bool, env_fix: bool) -> (r: RunType)
        ensures
            r == self.mode(opts_fix, env_fix),
    {
        let fix = match self.fix {
            Some(b) => b,
            None => text::same(self.name.as_str(), "fix"),
        };
        if (env_fix && fix) || opts_fix {
            RunType::Fix
        } else {
            RunType::Check
        }
    }

    /// What the hook says of stashing, where neither command line nor environment do.
    pub open spec fn configured_stash(self) -> StashMethod {
        match self.stash {
            Some(StashSetting::Method(m)) => m,
            Some(StashSetting::Bool(true)) => StashMethod::Git,
            Some(StashSetting::Bool(false)) => StashMethod::NoStash,
            None => StashMethod::NoStash,
        }
    }

    /// How to stash by environment and configuration: the environment comes first.
    pub fn resolve_stash_method(&self, env_stash: Option<StashMethod>) -> (r: StashMethod)
        ensures
            r == match env_stash {
                Some(m) => m,
                None => self.configured_stash(),
            },
    {
        if let Some(m) = env_stash {
            return m;
        }
        match self.stash {
            Some(StashSetting::Method(m)) => m,
            Some(StashSetting::Bool(b)) => if b {
                StashMethod::Git
            } else {
                StashMethod::NoStash
            },
            None => StashMethod::NoStash,
        }
    }

    /// How to stash: as the command line says, where a word that names no method stands for not
    /// stashing; else as the environment says, else as the hook does.
    pub open spec fn chosen_stash(
        self,
        argument: Option<StashArgument>,
        env_stash: Option<StashMethod>,
    ) -> StashMethod {
        match (argument, env_stash) {
            (Some(StashArgument::Method(m)), _) => m,
            (Some(StashArgument::Unknown), _) => StashMethod::NoStash,
            (None, Some(m)) => m,
            (None, None) => self.configured_stash(),
        }
    }

    /// How to stash: the command line comes first, then the environment, then the hook.
    pub fn stash_method(
        &self,
        argument: Option<StashArgument>,
        env_stash: Option<StashMethod>,
    ) -> (r: StashMethod)
        ensures
            r == self.chosen_stash(argument, env_stash),
    {
        match argument {
            Some(StashArgument::Method(m)) => m,
            Some(StashArgument::Unknown) => StashMethod::NoStash,
            None => self.resolve_stash_method(env_stash),
        }
    }
}

/// Whether an entry stays when only the steps named in `only` are to run. A group always stays.
pub open spec fn is_kept(entry: StepOrGroup, only: Seq<String>) -> bool {
    match entry {
        StepOrGroup::Step(step) => text::lists(only, step.name@),
        StepOrGroup::Group(_) => true,
    }
}

/// The entries of a group whose names are in `only`, in order.
pub open spec fn named_steps(steps: Seq<(Seq<char>, Step)>, only: Seq<String>) -> Seq<
    (Seq<char>, Step),
> {
    steps.filter(|e: (Seq<char>, Step)| text::lists(only, e.0))
}

/// Whether `after` is `before`, with no other steps in it than those named in `only`.
pub open spec fn is_narrowed(after: StepOrGroup, before: StepOrGroup, only: Seq<String>) -> bool {
    match (after, before) {
        (StepOrGroup::Step(a), StepOrGroup::Step(b)) => *a == *b,
        (StepOrGroup::Group(a), StepOrGroup::Group(b)) => {
            &&& a.name == b.name
            &&& a.steps.entries() == named_steps(b.steps.entries(), only)
        },
        _ => false,
    }
}

/// The values of a map, in order.
pub open spec fn values<V>(entries: Seq<(Seq<char>, V)>) -> Seq<V> {
    Seq::new(entries.len(), |i: int| entries[i].1)
}

/// Whether `selected` is what is left of `all` when only the steps named in `only` are to run;
/// no names stand for all steps.
pub open spec fn is_selection(
    selected: Seq<StepOrGroup>,
    all: Seq<StepOrGroup>,
    only: Seq<String>,
) -> bool {
    if only.len() == 0 {
        selected == all
    } else {
        let kept = all.filter(|e: StepOrGroup| is_kept(e, only));
        &&& selected.len() == kept.len()
        &&& forall|i: int|
            0 <= i < selected.len() ==> is_narrowed(#[trigger] selected[i], kept[i], only)
    }
}

fn retain_named(steps: OrderedMap<Step>, only: &Vec<String>) -> (r: OrderedMap<Step>)
    ensures
        r.entries() == named_steps(steps.entries(), only@),
{
    let ghost all = steps.entries();
    let ghost wanted = |e: (Seq<char>, Step)| text::lists(only@, e.0);
    let mut rest = steps.into_reversed();
    let mut done: OrderedMap<Step> = OrderedMap::new();
    let ghost mut n: int = 0;
    proof {
        reveal(Seq::filter);
        assert(all.take(0).filter(wanted) =~= Seq::<(Seq<char>, Step)>::empty());
    }
    while rest.len() > 0
        invariant
            wanted == (|e: (Seq<char>, Step)| text::lists(only@, e.0)),
            n + rest@.len() == all.len(),
            0 <= n,
            ordered_map::distinct_keys(all),
            forall|i: int|
                0 <= i < rest@.len() ==> (#[trigger] rest@[i]).0@ == all[all.len() - 1 - i].0
                    && rest@[i].1 == all[all.len() - 1 - i].1,
            done.entries() == all.take(n).filter(wanted),
        decreases rest@.len(),
    {
        let (name, step) = rest.pop().unwrap();
        proof {
            reveal(Seq::filter);
            assert(all.take(n + 1).drop_last() =~= all.take(n));
            assert(all[n] == (name@, step));
            if ordered_map::has_key(done.entries(), name@) {
                let f = all.take(n).filter(wanted);
                let j = choose|j: int| 0 <= j < f.len() && #[trigger] f[j].0 == name@;
                all.take(n).lemma_filter_contains_rev(wanted, f[j]);
                let k = choose|k: int| 0 <= k < n && all.take(n)[k] == f[j];
                assert(all[k].0 != all[n].0);
            }
        }
        if text::listed(only, name.as_str()) {
            done.insert(name, step);
        }
        proof {
            n = n + 1;
        }
    }
    assert(all.take(n) =~= all);
    done
}

/// What is left of the steps and groups of a hook when only the steps named in `only` are to run;
/// no names stand for all steps.
pub fn select_steps(steps: OrderedMap<StepOrGroup>, only: &Vec<String>) -> (r: Vec<StepOrGroup>)
    ensures
        is_selection(r@, values(steps.entries()), only@),
{
    let ghost all = values(steps.entries());
    let ghost kept = |e: StepOrGroup| is_kept(e, only@);
    let mut rest = steps.into_reversed();
    let mut r: Vec<StepOrGroup> = Vec::new();
    let ghost mut n: int = 0;
    proof {
        reveal(Seq::filter);
        assert(all.take(0).filter(kept) =~= Seq::<StepOrGroup>::empty());
        assert(all.take(0) =~= Seq::<StepOrGroup>::empty());
    }
    while rest.len() > 0
        invariant
            kept == (|e: StepOrGroup| is_kept(e, only@)),
            n + rest@.len() == all.len(),
            0 <= n,
            forall|i: int|
                0 <= i < rest@.len() ==> (#[trigger] rest@[i]).1 == all[all.len() - 1 - i],
            only@.len() == 0 ==> r@ == all.take(n),
            only@.len() > 0 ==> r@.len() == all.take(n).filter(kept).len(),
            only@.len() > 0 ==> forall|i: int|
                0 <= i < r@.len() ==> is_narrowed(
                    #[trigger] r@[i],
                    all.take(n).filter(kept)[i],
                    only@,
                ),
        decreases rest@.len(),
    {
        let (_, entry) = rest.pop().unwrap();
        proof {
            reveal(Seq::filter);
            assert(all.take(n + 1).drop_last() =~= all.take(n));
            assert(all.take(n + 1) =~= all.take(n).push(all[n]));
            assert(all[n] == entry);
            n = n + 1;
        }
        if only.len() == 0 {
            r.push(entry);
        } else {
            match entry {
                StepOrGroup::Step(step) => {
                    if text::listed(only, step.name.as_str()) {
                        r.push(StepOrGroup::Step(step));
                    }
                },
                StepOrGroup::Group(group) => {
                    let group = *group;
                    let steps = retain_named(group.steps, only);
                    r.push(StepOrGroup::Group(Box::new(StepGroup { name: group.name, steps })));
                },
            }
        }
    }
    assert(all.take(n) =~= all);
    r
}

/// What building the jobs of a step came to.
#[derive(Clone, Debug, PartialEq, Eq)]
pub enum StepJobs {
    /// The jobs, each by whether it is to be skipped.
    Built(Vec<bool>),
    /// Building them failed.
    Failed,
}

impl StepJobs {
    /// Whether the step has nothing to run.
    pub open spec fn is_idle(self) -> bool {
        match self {
            StepJobs::Built(skipped) => forall|i: int|
                0 <= i < skipped@.len() ==> #[trigger] skipped@[i] == true,
            StepJobs::Failed => false,
        }
    }

    fn idle(&self) -> (b: bool)
        ensures
            b == self.is_idle(),
    {
        match self {
            StepJobs::Built(skipped) => {
                let mut i: usize = 0;
                while i < skipped.len()
                    invariant
                        i <= skipped@.len(),
                        *self == StepJobs::Built(*skipped),
                        forall|j: int| 0 <= j < i ==> #[trigger] skipped@[j] == true,
                    decreases skipped@.len() - i,
                {
                    if !skipped[i] {
                        assert(self->Built_0@[i as int] == false);
                        return false;
                    }
                    i = i + 1;
                }
                true
            },
            StepJobs::Failed => false,
        }
    }
}

/// Whether none of the steps of any group has something to run.
pub open spec fn all_idle(groups: Seq<Vec<StepJobs>>) -> bool {
    forall|g: int, s: int|
        0 <= g < groups.len() && 0 <= s < groups[g]@.len() ==> (#[trigger] groups[g]@[s]).is_idle()
}

/// Whether none of the steps of any group has something to run.
pub fn can_exit_early(groups: &Vec<Vec<StepJobs>>) -> (b: bool)
    ensures
        b <==> forall|g: int, s: int|
            0 <= g < groups@.len() && 0 <= s < groups@[g]@.len() ==> (
            #[trigger] groups@[g]@[s]).is_idle(),
        b == all_idle(groups@),
{
    let mut g: usize = 0;
    while g < groups.len()
        invariant
            g <= groups@.len(),
            forall|i: int, s: int|
                0 <= i < g && 0 <= s < groups@[i]@.len() ==> (#[trigger] groups@[i]@[s]).is_idle(),
        decreases groups@.len() - g,
    {
        let mut s: usize = 0;
        while s < groups[g].len()
            invariant
                g < groups@.len(),
                s <= groups@[g as int]@.len(),
                forall|j: int| 0 <= j < s ==> (#[trigger] groups@[g as int]@[j]).is_idle(),
            decreases groups@[g as int]@.len() - s,
        {
            if !groups[g][s].idle() {
                assert(!groups@[g as int]@[s as int].is_idle());
                return false;
            }
            s = s + 1;
        }
        g = g + 1;
    }
    true
}

impl Default for Hook {
    /// A hook of which nothing is set.
    fn default() -> (r: Hook)
        ensures
            r.name@.len() == 0,
            r.steps.entries().len() == 0,
            r.fix is None,
            r.stash is None,
            r.stage is None,
            !r.fail_on_fix,
            r.env.entries().len() == 0,
            r.report is None,
    {
        Hook {
            name: String::new(),
            steps: OrderedMap::new(),
            fix: None,
            stash: None,
            stage: None,
            fail_on_fix: false,
            env: OrderedMap::new(),
            report: None,
        }
    }
}

} // verus!
