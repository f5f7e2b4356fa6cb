//! Which steps are switched off, and what is said of it.
use crate::ordered_map;
use crate::skip::{self, SkipReason};
use crate::step::types::RunType;
use crate::text;
use vstd::prelude::*;

verus! {

/// A step is switched off exactly where the environment, the configuration or the command line
/// names it, and it is listed once.
pub proof fn named_steps_are_switched_off(
    entries: Seq<(Seq<char>, SkipReason)>,
    env: Seq<Seq<char>>,
    config: Seq<Seq<char>>,
    cli: Seq<Seq<char>>,
    name: Seq<char>,
)
    requires
        ordered_map::keys(entries) == ordered_map::firsts(env + config + cli),
    ensures
        (exists|i: int| 0 <= i < entries.len() && (#[trigger] entries[i]).0 == name)
            <==> env.contains(name) || config.contains(name) || cli.contains(name),
        forall|i: int, j: int|
            0 <= i < j < entries.len() ==> (#[trigger] entries[i]).0 != (#[trigger] entries[j]).0,
{
    let all = env + config + cli;
    let keys = ordered_map::keys(entries);
    ordered_map::lemma_firsts(all);
    ordered_map::lemma_has_key(entries, name);
    assert(ordered_map::has_key(entries, name) <==> exists|i: int|
        0 <= i < entries.len() && (#[trigger] entries[i]).0 == name) by {
        if ordered_map::has_key(entries, name) {
            let i = choose|i: int| 0 <= i < entries.len() && #[trigger] entries[i].0 == name;
            assert(entries[i].0 == name);
        }
    }
    assert(all.contains(name) <==> env.contains(name) || config.contains(name) || cli.contains(
        name,
    )) by {
        if all.contains(name) {
            let i = choose|i: int| 0 <= i < all.len() && all[i] == name;
            if i < env.len() {
                assert(env[i] == name);
            } else if i < env.len() + config.len() {
                assert(config[i - env.len()] == name);
            } else {
                assert(cli[i - env.len() - config.len()] == name);
            }
        }
        if env.contains(name) {
            let i = choose|i: int| 0 <= i < env.len() && env[i] == name;
            assert(all[i] == name);
        }
        if config.contains(name) {
            let i = choose|i: int| 0 <= i < config.len() && config[i] == name;
            assert(all[i + env.len()] == name);
        }
        if cli.contains(name) {
            let i = choose|i: int| 0 <= i < cli.len() && cli[i] == name;
            assert(all[i + env.len() + config.len()] == name);
        }
    }
    assert forall|i: int, j: int| 0 <= i < j < entries.len() implies (#[trigger] entries[i]).0 != (
    #[trigger] entries[j]).0 by {
        assert(keys[i] != keys[j]);
    }
}

/// The reason that a step is switched off is the command line where that names it, else the
/// environment where that does, and else the configuration.
pub proof fn command_line_is_the_first_reason(
    entries: Seq<(Seq<char>, SkipReason)>,
    env: Seq<Seq<char>>,
    config: Seq<Seq<char>>,
    cli: Seq<Seq<char>>,
    i: int,
)
    requires
        skip::skip_reasons_right(entries, env, config, cli),
        0 <= i < entries.len(),
    ensures
        cli.contains(entries[i].0) ==> (entries[i].1 matches SkipReason::DisabledByCli(src) && src@
            == "--skip-step "@ + entries[i].0),
        !cli.contains(entries[i].0) && env.contains(entries[i].0) ==> (
        entries[i].1 matches SkipReason::DisabledByEnv(src) && src@ == "HK_SKIP_STEPS"@),
        !cli.contains(entries[i].0) && !env.contains(entries[i].0) ==> entries[i].1
            == SkipReason::DisabledByConfig && config.contains(entries[i].0),
{
    assert(skip::is_skip_reason(entries[i].1, entries[i].0, env, config, cli));
}

/// Names that are given again change nothing: the names without repetition are those of a first
/// list and then those of a second that the first does not have.
pub proof fn repeated_names_stay_where_they_come_first(a: Seq<Seq<char>>, b: Seq<Seq<char>>)
    ensures
        ordered_map::firsts(a).is_prefix_of(ordered_map::firsts(a + b)),
        ordered_map::firsts(ordered_map::firsts(a)) == ordered_map::firsts(a),
        a.no_duplicates() ==> ordered_map::firsts(a) == a,
    decreases b.len(),
{
    ordered_map::lemma_firsts(a);
    lemma_distinct(a);
    lemma_distinct(ordered_map::firsts(a));
    if b.len() > 0 {
        repeated_names_stay_where_they_come_first(a, b.drop_last());
        let all = a + b;
        assert(all.drop_last() =~= a + b.drop_last());
        let fewer = ordered_map::firsts(a + b.drop_last());
        let f = ordered_map::firsts(a);
        let n = f.len() as int;
        assert(f =~= fewer.subrange(0, n));
        assert(ordered_map::firsts(all).subrange(0, n) =~= fewer.subrange(0, n));
    } else {
        assert(a + b =~= a);
        let f = ordered_map::firsts(a);
        assert(f.subrange(0, f.len() as int) =~= f);
    }
}

proof fn lemma_distinct(names: Seq<Seq<char>>)
    ensures
        names.no_duplicates() ==> ordered_map::firsts(names) == names,
    decreases names.len(),
{
    if names.len() > 0 && names.no_duplicates() {
        let rest = names.drop_last();
        lemma_distinct(rest);
        if rest.contains(names.last()) {
            let i = choose|i: int| 0 <= i < rest.len() && rest[i] == names.last();
            assert(names[i] == names[names.len() - 1]);
        }
        assert(rest.push(names.last()) =~= names);
    } else if names.len() == 0 {
        assert(ordered_map::firsts(names) =~= names);
    }
}

/// The message for a reason says what switched the step off.
pub proof fn message_says_what_switched_the_step_off(
    src: String,
    run_type: RunType,
    profiles: Vec<String>,
)
    ensures
        SkipReason::DisabledByEnv(src).message_text() == "skipped: disabled via "@ + src@,
        SkipReason::DisabledByCli(src).message_text() == "skipped: disabled via "@ + src@,
        SkipReason::DisabledByConfig.message_text() == "skipped: disabled via skip configuration"@,
        SkipReason::ProfileExplicitlyDisabled.message_text() == "skipped: disabled by profile"@,
        SkipReason::NoCommandForRunType(run_type).message_text()
            == "skipped: no command for run type"@,
        SkipReason::NoFilesToProcess.message_text() == "skipped: no files to process"@,
        SkipReason::ConditionFalse.message_text() == "skipped: condition is false"@,
        profiles@.len() == 0 ==> SkipReason::ProfileNotEnabled(profiles).message_text()
            == "skipped: disabled by profile"@,
        profiles@.len() == 1 ==> SkipReason::ProfileNotEnabled(profiles).message_text()
            == "skipped: profile not enabled ("@ + profiles@[0]@ + ")"@,
        profiles@.len() > 1 ==> SkipReason::ProfileNotEnabled(profiles).message_text()
            == "skipped: profiles not enabled ("@ + text::join(
            Seq::new(profiles@.len(), |i: int| profiles@[i]@),
            ", "@,
        ) + ")"@,
{
    reveal_strlit("skipped: profile");
    reveal_strlit("s");
    reveal_strlit(" not enabled (");
    reveal_strlit("skipped: profile not enabled (");
    reveal_strlit("skipped: profiles not enabled (");
    let names = text::texts(profiles@);
    let none = Seq::<char>::empty();
    assert(names =~= Seq::new(profiles@.len(), |i: int| profiles@[i]@));
    assert("skipped: profile"@ + none + " not enabled ("@ =~= "skipped: profile not enabled ("@);
    assert("skipped: profile"@ + "s"@ + " not enabled ("@ =~= "skipped: profiles not enabled ("@);
}

/// The kinds of reasons go by these names, and each has its own.
pub proof fn each_kind_of_reason_has_a_name(src: String, run_type: RunType, profiles: Vec<String>)
    ensures
        SkipReason::DisabledByEnv(src).key_text() == "disabled-by-env"@,
        SkipReason::DisabledByCli(src).key_text() == "disabled-by-cli"@,
        SkipReason::DisabledByConfig.key_text() == "disabled-by-config"@,
        SkipReason::ProfileNotEnabled(profiles).key_text() == "profile-not-enabled"@,
        SkipReason::ProfileExplicitlyDisabled.key_text() == "profile-explicitly-disabled"@,
        SkipReason::NoCommandForRunType(run_type).key_text() == "no-command-for-run-type"@,
        SkipReason::NoFilesToProcess.key_text() == "no-files-to-process"@,
        SkipReason::ConditionFalse.key_text() == "condition-false"@,
{
}

/// Reasons that say the same have the same message and go by the same name; and reasons of other
/// kinds do not say the same.
pub proof fn same_reasons_are_shown_alike(a: SkipReason, b: SkipReason)
    requires
        a.same_as(b),
    ensures
        a.message_text() == b.message_text(),
        a.key_text() == b.key_text(),
        b.same_as(a),
        a is DisabledByEnv <==> b is DisabledByEnv,
        a is DisabledByCli <==> b is DisabledByCli,
        a is DisabledByConfig <==> b is DisabledByConfig,
        a is ProfileNotEnabled <==> b is ProfileNotEnabled,
        a is ProfileExplicitlyDisabled <==> b is ProfileExplicitlyDisabled,
        a is NoFilesToProcess <==> b is NoFilesToProcess,
        a is ConditionFalse <==> b is ConditionFalse,
        a matches SkipReason::NoCommandForRunType(t) ==> b == SkipReason::NoCommandForRunType(t),
{
    if let (SkipReason::ProfileNotEnabled(p), SkipReason::ProfileNotEnabled(q)) = (a, b) {
        assert(text::texts(p@) == text::texts(q@));
    }
}

} // verus!
