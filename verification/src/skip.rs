//! Why steps are skipped.
use crate::ordered_map::{self, OrderedMap};
use crate::step::types::RunType;
use crate::text;
use vstd::prelude::*;

verus! {

/// Why a step does not run.
#[derive(Clone, Debug, PartialEq, Eq)]
pub enum SkipReason {
    /// Switched off by an environment variable, which is named.
    DisabledByEnv(String),
    /// Switched off on the command line, by the option given.
    DisabledByCli(String),
    /// Switched off by configuration.
    DisabledByConfig,
    /// None of the profiles that the step needs is enabled; these are the missing ones.
    ProfileNotEnabled(Vec<String>),
    /// A profile that disables the step is enabled.
    ProfileExplicitlyDisabled,
    /// The step has no command for the mode of the run.
    NoCommandForRunType(RunType),
    /// No file is left for the step.
    NoFilesToProcess,
    /// The condition of the step does not evaluate to true.
    ConditionFalse,
}

impl SkipReason {
    /// The message that is shown for the reason.
    pub open spec fn message_text(self) -> Seq<char> {
        match self {
            SkipReason::DisabledByEnv(src) => "skipped: disabled via "@ + src@,
            SkipReason::DisabledByCli(src) => "skipped: disabled via "@ + src@,
            SkipReason::DisabledByConfig => "skipped: disabled via skip configuration"@,
            SkipReason::ProfileNotEnabled(profiles) => {
                if profiles@.len() == 0 {
                    "skipped: disabled by profile"@
                } else {
                    "skipped: profile"@ + (if profiles@.len() > 1 {
                        "s"@
                    } else {
                        Seq::empty()
                    }) + " not enabled ("@ + text::join(text::texts(profiles@), ", "@) + ")"@
                }
            },
            SkipReason::ProfileExplicitlyDisabled => "skipped: disabled by profile"@,
            SkipReason::NoCommandForRunType(_) => "skipped: no command for run type"@,
            SkipReason::NoFilesToProcess => "skipped: no files to process"@,
            SkipReason::ConditionFalse => "skipped: condition is false"@,
        }
    }

    /// The name of the kind of reason, under which settings speak of it.
    pub open spec fn key_text(self) -> Seq<char> {
        match self {
            SkipReason::DisabledByEnv(_) => "disabled-by-env"@,
            SkipReason::DisabledByCli(_) => "disabled-by-cli"@,
            SkipReason::DisabledByConfig => "disabled-by-config"@,
            SkipReason::ProfileNotEnabled(_) => "profile-not-enabled"@,
            SkipReason::ProfileExplicitlyDisabled => "profile-explicitly-disabled"@,
            SkipReason::NoCommandForRunType(_) => "no-command-for-run-type"@,
            SkipReason::NoFilesToProcess => "no-files-to-process"@,
            SkipReason::ConditionFalse => "condition-false"@,
        }
    }

    /// Whether two reasons say the same.
    pub open spec fn same_as(self, other: SkipReason) -> bool {
        match (self, other) {
            (SkipReason::ProfileNotEnabled(a), SkipReason::ProfileNotEnabled(b)) => a@ == b@,
            _ => self == other,
        }
    }

    /// A reason that says the same.
    pub fn copy(&self) -> (r: SkipReason)
        ensures
            r.same_as(*self),
    {
        match self {
            SkipReason::DisabledByEnv(src) => SkipReason::DisabledByEnv(src.clone()),
            SkipReason::DisabledByCli(src) => SkipReason::DisabledByCli(src.clone()),
            SkipReason::DisabledByConfig => SkipReason::DisabledByConfig,
            SkipReason::ProfileNotEnabled(profiles) => SkipReason::ProfileNotEnabled(
                text::copied(profiles),
            ),
            SkipReason::ProfileExplicitlyDisabled => SkipReason::ProfileExplicitlyDisabled,
            SkipReason::NoCommandForRunType(t) => SkipReason::NoCommandForRunType(*t),
            SkipReason::NoFilesToProcess => SkipReason::NoFilesToProcess,
            SkipReason::ConditionFalse => SkipReason::ConditionFalse,
        }
    }

    /// The message that is shown for the reason.
    pub fn message(&self) -> (r: String)
        ensures
            r@ == self.message_text(),
    {
        match self {
            SkipReason::DisabledByEnv(src) | SkipReason::DisabledByCli(src) => {
                "skipped: disabled via ".to_owned().concat(src.as_str())
            },
            SkipReason::DisabledByConfig => "skipped: disabled via skip configuration".to_owned(),
            SkipReason::ProfileNotEnabled(profiles) => {
                if profiles.len() == 0 {
                    "skipped: disabled by profile".to_owned()
                } else {
                    let mut r = "skipped: profile".to_owned();
                    if profiles.len() > 1 {
                        r.append("s");
                    }
                    r.append(" not enabled (");
                    r.append(text::joined(profiles, ", ").as_str());
                    r.append(")");
                    assert(r@ =~= self.message_text());
                    r
                }
            },
            SkipReason::ProfileExplicitlyDisabled => "skipped: disabled by profile".to_owned(),
            SkipReason::NoCommandForRunType(_) => "skipped: no command for run type".to_owned(),
            SkipReason::NoFilesToProcess => "skipped: no files to process".to_owned(),
            SkipReason::ConditionFalse => "skipped: condition is false".to_owned(),
        }
    }

    /// The name of the kind of reason.
    pub fn key(&self) -> (r: String)
        ensures
            r@ == self.key_text(),
    {
        match self {
            SkipReason::DisabledByEnv(_) => "disabled-by-env".to_owned(),
            SkipReason::DisabledByCli(_) => "disabled-by-cli".to_owned(),
            SkipReason::DisabledByConfig => "disabled-by-config".to_owned(),
            SkipReason::ProfileNotEnabled(_) => "profile-not-enabled".to_owned(),
            SkipReason::ProfileExplicitlyDisabled => "profile-explicitly-disabled".to_owned(),
            SkipReason::NoCommandForRunType(_) => "no-command-for-run-type".to_owned(),
            SkipReason::NoFilesToProcess => "no-files-to-process".to_owned(),
            SkipReason::ConditionFalse => "condition-false".to_owned(),
        }
    }

    /// Whether the reason is among those that the settings want shown.
    pub fn should_display(&self, display_skip_reasons: &Vec<String>) -> (b: bool)
        ensures
            b == text::lists(display_skip_reasons@, self.key_text()),
    {
        text::listed(display_skip_reasons, self.key().as_str())
    }
}

/// Whether `reason` is why the step `name` is switched off: the command line comes before the
/// environment, and that before the configuration.
pub open spec fn is_skip_reason(
    reason: SkipReason,
    name: Seq<char>,
    env: Seq<Seq<char>>,
    config: Seq<Seq<char>>,
    cli: Seq<Seq<char>>,
) -> bool {
    if cli.contains(name) {
        reason matches SkipReason::DisabledByCli(src) && src@ == "--skip-step "@ + name
    } else if env.contains(name) {
        reason matches SkipReason::DisabledByEnv(src) && src@ == "HK_SKIP_STEPS"@
    } else {
        config.contains(name) && reason == SkipReason::DisabledByConfig
    }
}

/// Whether every entry gives the reason why its step is switched off.
pub open spec fn skip_reasons_right(
    entries: Seq<(Seq<char>, SkipReason)>,
    env: Seq<Seq<char>>,
    config: Seq<Seq<char>>,
    cli: Seq<Seq<char>>,
) -> bool {
    forall|i: int|
        0 <= i < entries.len() ==> is_skip_reason(
            (#[trigger] entries[i]).1,
            entries[i].0,
            env,
            config,
            cli,
        )
}

/// A list with one name more at the end holds that name and what it held before.
proof fn lemma_push_contains(names: Seq<Seq<char>>, name: Seq<char>)
    ensures
        forall|k: Seq<char>|
            #[trigger] names.push(name).contains(k) <==> names.contains(k) || k == name,
{
    assert forall|k: Seq<char>|
        #[trigger] names.push(name).contains(k) <==> names.contains(k) || k == name by {
        if names.contains(k) {
            let i = choose|i: int| 0 <= i < names.len() && names[i] == k;
            assert(names.push(name)[i] == k);
        }
        if k == name {
            assert(names.push(name)[names.len() as int] == k);
        }
    }
}

/// Right entries stay right where a step is put in with its own reason.
proof fn lemma_reason_put(
    entries: Seq<(Seq<char>, SkipReason)>,
    name: Seq<char>,
    reason: SkipReason,
    env: Seq<Seq<char>>,
    config: Seq<Seq<char>>,
    cli: Seq<Seq<char>>,
    env2: Seq<Seq<char>>,
    config2: Seq<Seq<char>>,
    cli2: Seq<Seq<char>>,
)
    requires
        skip_reasons_right(entries, env, config, cli),
        ordered_map::distinct_keys(entries),
        env2 == env || env2 == env.push(name),
        config2 == config || config2 == config.push(name),
        cli2 == cli || cli2 == cli.push(name),
        is_skip_reason(reason, name, env2, config2, cli2),
    ensures
        skip_reasons_right(
            ordered_map::with_entry(entries, name, reason),
            env2,
            config2,
            cli2,
        ),
{
    lemma_push_contains(env, name);
    lemma_push_contains(config, name);
    lemma_push_contains(cli, name);
    let after = ordered_map::with_entry(entries, name, reason);
    if ordered_map::has_key(entries, name) {
        ordered_map::lemma_first_position(entries, name);
    }
    assert forall|i: int| 0 <= i < after.len() implies is_skip_reason(
        (#[trigger] after[i]).1,
        after[i].0,
        env2,
        config2,
        cli2,
    ) by {
        if after[i].0 != name {
            assert(after[i] == entries[i]);
            assert(is_skip_reason(entries[i].1, entries[i].0, env, config, cli));
        } else if ordered_map::has_key(entries, name) {
            let p = ordered_map::position_of(entries, name);
            if i < p {
                assert(entries[i].0 != entries[p].0);
            } else if p < i {
                assert(entries[p].0 != entries[i].0);
            }
        } else if i < entries.len() {
            assert(entries[i].0 == name);
        }
    }
}

/// The steps that are switched off, each with the reason, in the order in which environment,
/// configuration and command line name them.
pub fn skip_steps(env: &Vec<String>, config: &Vec<String>, cli: &Vec<String>) -> (m: OrderedMap<
    SkipReason,
>)
    ensures
        ordered_map::keys(m.entries()) == ordered_map::firsts(
            text::texts(env@) + text::texts(config@) + text::texts(cli@),
        ),
        skip_reasons_right(
            m.entries(),
            text::texts(env@),
            text::texts(config@),
            text::texts(cli@),
        ),
{
    let ghost e = text::texts(env@);
    let ghost c = text::texts(config@);
    let ghost o = text::texts(cli@);
    let ghost none = Seq::<Seq<char>>::empty();
    let mut m: OrderedMap<SkipReason> = OrderedMap::new();
    let mut i: usize = 0;
    assert(ordered_map::keys(m.entries()) =~= ordered_map::firsts(e.take(0)));
    while i < env.len()
        invariant
            i <= env@.len(),
            e == text::texts(env@),
            none.len() == 0,
            ordered_map::keys(m.entries()) == ordered_map::firsts(e.take(i as int)),
            ordered_map::distinct_keys(m.entries()),
            skip_reasons_right(m.entries(), e.take(i as int), none, none),
        decreases env@.len() - i,
    {
        let reason = SkipReason::DisabledByEnv("HK_SKIP_STEPS".to_owned());
        proof {
            ordered_map::lemma_with_entry_keys(m.entries(), e.take(i as int), e[i as int], reason);
            assert(e.take(i as int).push(e[i as int]) =~= e.take(i + 1));
            lemma_push_contains(e.take(i as int), e[i as int]);
            lemma_reason_put(
                m.entries(),
                e[i as int],
                reason,
                e.take(i as int),
                none,
                none,
                e.take(i + 1),
                none,
                none,
            );
        }
        m.insert(env[i].clone(), reason);
        i = i + 1;
    }
    proof {
        assert(e.take(e.len() as int) =~= e);
        assert(e + c.take(0) =~= e);
        assert(c.take(0) =~= none);
    }
    i = 0;
    while i < config.len()
        invariant
            i <= config@.len(),
            c == text::texts(config@),
            none.len() == 0,
            ordered_map::keys(m.entries()) == ordered_map::firsts(e + c.take(i as int)),
            ordered_map::distinct_keys(m.entries()),
            skip_reasons_right(m.entries(), e, c.take(i as int), none),
        decreases config@.len() - i,
    {
        let reason = SkipReason::DisabledByConfig;
        proof {
            ordered_map::lemma_with_entry_keys(m.entries(), e + c.take(i as int), c[i as int], reason);
            assert((e + c.take(i as int)).push(c[i as int]) =~= e + c.take(i + 1));
            assert(c.take(i as int).push(c[i as int]) =~= c.take(i + 1));
            lemma_push_contains(c.take(i as int), c[i as int]);
        }
        if !m.contains_key(config[i].as_str()) {
            proof {
                assert(!(e + c.take(i as int)).contains(c[i as int]));
                if e.contains(c[i as int]) {
                    let j = choose|j: int| 0 <= j < e.len() && e[j] == c[i as int];
                    assert((e + c.take(i as int))[j] == c[i as int]);
                }
                lemma_reason_put(
                    m.entries(),
                    c[i as int],
                    reason,
                    e,
                    c.take(i as int),
                    none,
                    e,
                    c.take(i + 1),
                    none,
                );
            }
            m.insert(config[i].clone(), reason);
        } else {
            proof {
                let name = c[i as int];
                let entries = m.entries();
                ordered_map::lemma_first_position(entries, name);
                let p = ordered_map::position_of(entries, name);
                assert(is_skip_reason(entries[p].1, entries[p].0, e, c.take(i as int), none));
                assert forall|j: int| 0 <= j < entries.len() implies is_skip_reason(
                    (#[trigger] entries[j]).1,
                    entries[j].0,
                    e,
                    c.take(i + 1),
                    none,
                ) by {
                    assert(is_skip_reason(entries[j].1, entries[j].0, e, c.take(i as int), none));
                    if j < p {
                        assert(entries[j].0 != entries[p].0);
                    } else if p < j {
                        assert(entries[p].0 != entries[j].0);
                    }
                }
                assert((e + c.take(i as int)).contains(name));
                assert(ordered_map::keys(ordered_map::with_entry(entries, name, reason))
                    =~= ordered_map::keys(entries));
            }
        }
        i = i + 1;
    }
    proof {
        assert(c.take(c.len() as int) =~= c);
        assert(e + c + o.take(0) =~= e + c);
        assert(o.take(0) =~= none);
    }
    i = 0;
    while i < cli.len()
        invariant
            i <= cli@.len(),
            o == text::texts(cli@),
            ordered_map::keys(m.entries()) == ordered_map::firsts(e + c + o.take(i as int)),
            ordered_map::distinct_keys(m.entries()),
            skip_reasons_right(m.entries(), e, c, o.take(i as int)),
        decreases cli@.len() - i,
    {
        let reason = SkipReason::DisabledByCli(
            "--skip-step ".to_owned().concat(cli[i].as_str()),
        );
        proof {
            ordered_map::lemma_with_entry_keys(m.entries(), e + c + o.take(i as int), o[i as int], reason);
            assert((e + c + o.take(i as int)).push(o[i as int]) =~= e + c + o.take(i + 1));
            assert(o.take(i as int).push(o[i as int]) =~= o.take(i + 1));
            lemma_push_contains(o.take(i as int), o[i as int]);
            lemma_reason_put(
                m.entries(),
                o[i as int],
                reason,
                e,
                c,
                o.take(i as int),
                e,
                c,
                o.take(i + 1),
            );
        }
        m.insert(cli[i].clone(), reason);
        i = i + 1;
    }
    assert(o.take(o.len() as int) =~= o);
    m
}

} // verus!
