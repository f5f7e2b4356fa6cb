//! What is shown of a run: while it goes on, and at its end.
use crate::component::PathView;
use crate::display::shown_text;
use crate::hook::{Hook, StepGroup};
use crate::name_set::{self, NameSet};
use crate::options::Settings;
use crate::ordered_map::{self, OrderedMap};
use crate::path::{self, FilePath};
use crate::skip::SkipReason;
use crate::step::runner::{self, CommandLine};
use crate::step::types::{opt_text, OutputSummary, Platform, RunType};
use crate::text;
use vstd::prelude::*;

verus! {

/// Whether the output of steps is shown at the end: progress as plain text has shown it already,
/// but the environment can ask for it.
pub fn shows_outputs(plain_text: bool, summary_text: bool) -> (b: bool)
    ensures
        b == (!plain_text || summary_text),
{
    !plain_text || summary_text
}

/// The output of a step, as it is shown at the end.
#[derive(Clone, Debug, PartialEq, Eq)]
pub struct OutputBlock {
    pub title: String,
    pub body: String,
}

/// What is shown of the output of a step: nothing where there is none but blanks, or where it is
/// hidden.
pub open spec fn block_of(step: Seq<char>, mode: OutputSummary, output: Seq<char>) -> Option<
    (Seq<char>, Seq<char>),
> {
    let body = text::trimmed_end(output);
    let label = match mode {
        OutputSummary::Stdout => "stdout"@,
        OutputSummary::Stderr => "stderr"@,
        OutputSummary::Combined => "output"@,
        OutputSummary::Hide => Seq::empty(),
    };
    if body.len() == 0 || mode == OutputSummary::Hide {
        None
    } else {
        Some((step + " "@ + label + ":"@, body))
    }
}

/// What is shown of the output of all steps, in their order.
pub open spec fn blocks_of(outputs: Seq<(Seq<char>, (OutputSummary, Seq<char>))>) -> Seq<
    (Seq<char>, Seq<char>),
>
    decreases outputs.len(),
{
    if outputs.len() == 0 {
        Seq::empty()
    } else {
        let rest = blocks_of(outputs.drop_last());
        match block_of(outputs.last().0, outputs.last().1.0, outputs.last().1.1) {
            Some(block) => rest.push(block),
            None => rest,
        }
    }
}

/// The blocks as texts.
pub open spec fn block_texts(blocks: Seq<OutputBlock>) -> Seq<(Seq<char>, Seq<char>)> {
    Seq::new(blocks.len(), |i: int| (blocks[i].title@, blocks[i].body@))
}

fn output_block(step: &String, mode: OutputSummary, output: &String) -> (r: Option<OutputBlock>)
    ensures
        match block_of(step@, mode, output@) {
            Some((title, body)) => r matches Some(b) && b.title@ == title && b.body@ == body,
            None => r is None,
        },
{
    let body = text::trim_end(output.as_str());
    if body.as_str().is_empty() {
        return None;
    }
    let label = match mode {
        OutputSummary::Stdout => "stdout",
        OutputSummary::Stderr => "stderr",
        OutputSummary::Combined => "output",
        OutputSummary::Hide => {
            return None;
        },
    };
    Some(OutputBlock { title: step.clone().concat(" ").concat(label).concat(":"), body })
}

/// What is shown of the output of all steps, in their order.
pub fn output_blocks(outputs: &OrderedMap<(OutputSummary, String)>) -> (r: Vec<OutputBlock>)
    ensures
        block_texts(r@) == blocks_of(crate::context::output_texts(outputs.entries())),
{
    let ghost all = crate::context::output_texts(outputs.entries());
    let mut r: Vec<OutputBlock> = Vec::new();
    let n: usize = outputs.len();
    let mut i: usize = 0;
    assert(block_texts(r@) =~= blocks_of(all.take(0)));
    while i < n
        invariant
            i <= n,
            n == outputs.entries().len(),
            all == crate::context::output_texts(outputs.entries()),
            block_texts(r@) == blocks_of(all.take(i as int)),
        decreases n - i,
    {
        let (mode, output) = outputs.value_at(i);
        let block = output_block(outputs.key_at(i), *mode, output);
        proof {
            assert(all.take(i + 1).drop_last() =~= all.take(i as int));
            assert(all.take(i + 1).last() == all[i as int]);
        }
        let ghost before = r@;
        if let Some(b) = block {
            r.push(b);
            assert(block_texts(r@) =~= block_texts(before).push((b.title@, b.body@)));
        }
        i = i + 1;
    }
    assert(all.take(n as int) =~= all);
    r
}

/// The name that is shown for a group: only where there are several groups.
pub fn group_title(groups: &Vec<StepGroup>, i: usize) -> (r: Option<String>)
    requires
        i < groups@.len(),
    ensures
        opt_text(r) == if groups@.len() > 1 {
            opt_text(groups@[i as int].name)
        } else {
            None
        },
{
    if groups.len() > 1 {
        groups[i].name.clone()
    } else {
        None
    }
}

/// What the progress of a run shows.
#[derive(Clone, Debug, PartialEq, Eq)]
pub struct ProgressStart {
    pub hook: String,
    pub message: String,
    pub total: usize,
}

impl Hook {
    /// How the progress of a run shows the hook.
    pub open spec fn progress_name(self) -> Seq<char> {
        if self.name@ == "check"@ || self.name@ == "fix"@ {
            Seq::empty()
        } else {
            " – "@ + self.name@
        }
    }

    /// What the progress of a run shows at its start; nothing where progress is plain text.
    pub fn start_hk_progress(&self, plain_text: bool, run_type: RunType, total_jobs: usize) -> (r:
        Option<ProgressStart>)
        ensures
            r is None <==> plain_text,
            r matches Some(p) ==> {
                &&& p.hook@ == self.progress_name()
                &&& p.message@ == match run_type {
                    RunType::Fix => " – fix"@,
                    RunType::Check => " – check"@,
                }
                &&& p.total == total_jobs
            },
    {
        if plain_text {
            return None;
        }
        let hook = if text::same(self.name.as_str(), "check") || text::same(
            self.name.as_str(),
            "fix",
        ) {
            String::new()
        } else {
            " – ".to_owned().concat(self.name.as_str())
        };
        assert(hook@ =~= self.progress_name());
        let message = match run_type {
            RunType::Fix => " – fix".to_owned(),
            RunType::Check => " – check".to_owned(),
        };
        Some(ProgressStart { hook, message, total: total_jobs })
    }

    /// The command that reports on a run, with the command line that runs it.
    pub fn report_command(&self, platform: Platform) -> (r: Option<(String, CommandLine)>)
        ensures
            match self.report {
                Some(report) => {
                    &&& r matches Some((run, line))
                    &&& run@ == report.text_on(platform)
                    &&& runner::is_default_line(line, run@, platform)
                },
                None => r is None,
            },
    {
        match &self.report {
            Some(report) => {
                let run = report.to_text(platform);
                let line = runner::default_shell_cmd(run.as_str(), platform);
                Some((run, line))
            },
            None => None,
        }
    }
}

/// Files with their fingerprints; those that cannot be read are left out.
pub open spec fn snapshot_of(files: Seq<PathView>, prints: Seq<Option<u64>>) -> Seq<(PathView, u64)>
    decreases files.len(),
{
    if files.len() == 0 {
        Seq::empty()
    } else {
        let rest = snapshot_of(files.drop_last(), prints.drop_last());
        match prints.last() {
            Some(print) => rest.push((files.last(), print)),
            None => rest,
        }
    }
}

/// The paths and the fingerprints of a list.
pub open spec fn print_views(list: Seq<(FilePath, u64)>) -> Seq<(PathView, u64)> {
    Seq::new(list.len(), |i: int| (list[i].0@, list[i].1))
}

/// Files with their fingerprints, without those that cannot be read.
pub fn snapshot(files: &Vec<FilePath>, prints: &Vec<Option<u64>>) -> (r: Vec<(FilePath, u64)>)
    requires
        prints@.len() == files@.len(),
    ensures
        print_views(r@) == snapshot_of(path::views(files@), prints@),
{
    let ghost all = path::views(files@);
    let mut r: Vec<(FilePath, u64)> = Vec::new();
    let mut i: usize = 0;
    assert(print_views(r@) =~= snapshot_of(all.take(0), prints@.take(0)));
    while i < files.len()
        invariant
            i <= files@.len(),
            prints@.len() == files@.len(),
            all == path::views(files@),
            print_views(r@) == snapshot_of(all.take(i as int), prints@.take(i as int)),
        decreases files@.len() - i,
    {
        proof {
            assert(all.take(i + 1).drop_last() =~= all.take(i as int));
            assert(prints@.take(i + 1).drop_last() =~= prints@.take(i as int));
        }
        let ghost had = r@;
        if let Some(print) = prints[i] {
            r.push((files[i].copy(), print));
            assert(print_views(r@) =~= print_views(had).push((all[i as int], print)));
        }
        i = i + 1;
    }
    assert(all.take(i as int) =~= all);
    assert(prints@.take(i as int) =~= prints@);
    r
}

/// Whether a file is not what it was: its fingerprint differs, or it cannot be read any more.
pub open spec fn is_modified(before: u64, now: Option<u64>) -> bool {
    now != Some(before)
}

/// The files that were modified, or cannot be read any more, in order.
pub open spec fn modified_of(before: Seq<(FilePath, u64)>, now: Seq<Option<u64>>) -> Seq<PathView>
    decreases before.len(),
{
    if before.len() == 0 {
        Seq::empty()
    } else {
        let rest = modified_of(before.drop_last(), now.drop_last());
        if is_modified(before.last().1, now.last()) {
            rest.push(before.last().0@)
        } else {
            rest
        }
    }
}

/// The files that were modified since their fingerprints were taken, or cannot be read any more.
pub fn modified_files(before: &Vec<(FilePath, u64)>, now: &Vec<Option<u64>>) -> (r: Vec<FilePath>)
    requires
        now@.len() == before@.len(),
    ensures
        path::views(r@) == modified_of(before@, now@),
{
    let mut r: Vec<FilePath> = Vec::new();
    let mut i: usize = 0;
    assert(path::views(r@) =~= modified_of(before@.take(0), now@.take(0)));
    while i < before.len()
        invariant
            i <= before@.len(),
            now@.len() == before@.len(),
            path::views(r@) == modified_of(before@.take(i as int), now@.take(i as int)),
        decreases before@.len() - i,
    {
        proof {
            assert(before@.take(i + 1).drop_last() =~= before@.take(i as int));
            assert(now@.take(i + 1).drop_last() =~= now@.take(i as int));
        }
        let same = match now[i] {
            Some(f) => f == before[i].1,
            None => false,
        };
        let ghost had = r@;
        if !same {
            r.push(before[i].0.copy());
            assert(path::views(r@) =~= path::views(had).push(before@[i as int].0@));
        }
        i = i + 1;
    }
    assert(before@.take(i as int) =~= before@);
    assert(now@.take(i as int) =~= now@);
    r
}

/// The lines that name files, one below the other.
pub open spec fn file_lines(files: Seq<FilePath>) -> Seq<Seq<char>> {
    Seq::new(files.len(), |i: int| "  "@ + shown_text(files[i]@))
}

/// The warning that fixing modified files.
pub fn modified_warning(files: &Vec<FilePath>) -> (r: String)
    ensures
        r@ == "Files were modified by fix commands (fail_on_fix=true):\n"@ + text::join(
            file_lines(files@),
            "\n"@,
        ),
{
    let ghost all = file_lines(files@);
    let mut lines: Vec<String> = Vec::new();
    let mut i: usize = 0;
    while i < files.len()
        invariant
            i <= files@.len(),
            all == file_lines(files@),
            text::texts(lines@) == all.take(i as int),
        decreases files@.len() - i,
    {
        let ghost before = lines@;
        lines.push("  ".to_owned().concat(files[i].display().as_str()));
        assert(text::texts(lines@) =~= text::texts(before).push(all[i as int]));
        assert(all.take(i + 1) =~= all.take(i as int).push(all[i as int]));
        i = i + 1;
    }
    assert(all.take(i as int) =~= all);
    "Files were modified by fix commands (fail_on_fix=true):\n".to_owned().concat(
        text::joined(&lines, "\n").as_str(),
    )
}

/// The steps that were skipped because a profile is missing, in order.
pub open spec fn profile_skipped(skipped: Seq<(Seq<char>, SkipReason)>) -> Seq<Seq<char>>
    decreases skipped.len(),
{
    if skipped.len() == 0 {
        Seq::empty()
    } else {
        let rest = profile_skipped(skipped.drop_last());
        if skipped.last().1 is ProfileNotEnabled {
            rest.push(skipped.last().0)
        } else {
            rest
        }
    }
}

/// The profiles that are missing, as often as steps miss them, in order.
pub open spec fn profiles_missed(skipped: Seq<(Seq<char>, SkipReason)>) -> Seq<Seq<char>>
    decreases skipped.len(),
{
    if skipped.len() == 0 {
        Seq::empty()
    } else {
        let rest = profiles_missed(skipped.drop_last());
        match skipped.last().1 {
            SkipReason::ProfileNotEnabled(profiles) => rest + text::texts(profiles@),
            _ => rest,
        }
    }
}

/// What is said of steps that were skipped because profiles are missing.
#[derive(Clone, Debug, PartialEq, Eq)]
pub struct MissingProfiles {
    /// How many steps were skipped.
    pub count: usize,
    /// The profiles, each once.
    pub list: String,
    /// The setting of the environment that enables one of them.
    pub env: String,
    /// The option of the command line that does.
    pub flag: String,
}

/// The profile that is suggested: the slow one where it is missing, or where no profile is named.
pub open spec fn suggested(profiles: Seq<Seq<char>>) -> Seq<char> {
    if profiles.contains("slow"@) || profiles.len() == 0 {
        "slow"@
    } else {
        profiles[0]
    }
}

/// Whether `m` is what is said of the steps that were skipped because profiles are missing.
pub open spec fn is_missing(m: MissingProfiles, skipped: Seq<(Seq<char>, SkipReason)>) -> bool {
    let profiles = ordered_map::firsts(profiles_missed(skipped));
    &&& m.count == profile_skipped(skipped).len()
    &&& m.list@ == text::join(profiles, ", "@)
    &&& m.env@ == "HK_PROFILE="@ + suggested(profiles)
    &&& m.flag@ == if profiles.contains("slow"@) {
        "--slow"@
    } else {
        "--profile="@ + suggested(profiles)
    }
}

/// What is to be said of steps that were skipped because profiles are missing: nothing where there
/// are none, or where the settings do not ask for that warning.
pub fn missing_profiles(skipped: &OrderedMap<SkipReason>, settings: &Settings) -> (r: Option<
    MissingProfiles,
>)
    ensures
        r is Some <==> text::lists(settings.warnings@, "missing-profiles"@) && !text::lists(
            settings.hide_warnings@,
            "missing-profiles"@,
        ) && profile_skipped(skipped.entries()).len() > 0,
        r is Some ==> is_missing(r->0, skipped.entries()),
{
    if !text::listed(&settings.warnings, "missing-profiles") || text::listed(
        &settings.hide_warnings,
        "missing-profiles",
    ) {
        return None;
    }
    let ghost all = skipped.entries();
    let mut count: usize = 0;
    let mut profiles = NameSet::new();
    let n: usize = skipped.len();
    let mut i: usize = 0;
    assert(profiles.items() =~= ordered_map::firsts(profiles_missed(all.take(0))));
    while i < n
        invariant
            i <= n,
            n == skipped.entries().len(),
            all == skipped.entries(),
            count <= i,
            count == profile_skipped(all.take(i as int)).len(),
            profiles.items() == ordered_map::firsts(profiles_missed(all.take(i as int))),
        decreases n - i,
    {
        proof {
            assert(all.take(i + 1).drop_last() =~= all.take(i as int));
            assert(all.take(i + 1).last() == all[i as int]);
        }
        if let SkipReason::ProfileNotEnabled(p) = skipped.value_at(i) {
            proof {
                name_set::lemma_with_names(
                    profiles_missed(all.take(i as int)),
                    text::texts(p@),
                );
            }
            count = count + 1;
            profiles.extend(p);
        }
        i = i + 1;
    }
    assert(all.take(n as int) =~= all);
    if count == 0 {
        return None;
    }
    let list = text::joined(&profiles.to_list(), ", ");
    let (env, flag) = if profiles.contains("slow") {
        ("HK_PROFILE=slow".to_owned(), "--slow".to_owned())
    } else {
        let profile = match profiles.first() {
            Some(p) => p.clone(),
            None => "slow".to_owned(),
        };
        (
            "HK_PROFILE=".to_owned().concat(profile.as_str()),
            "--profile=".to_owned().concat(profile.as_str()),
        )
    };
    proof {
        reveal_strlit("HK_PROFILE=slow");
        reveal_strlit("HK_PROFILE=");
        reveal_strlit("slow");
        assert("HK_PROFILE=slow"@ =~= "HK_PROFILE="@ + "slow"@);
    }
    Some(MissingProfiles { count, list, env, flag })
}

impl MissingProfiles {
    /// The first line of the warning.
    pub fn headline(&self) -> (r: String)
        ensures
            r@ == text::decimal(self.count as nat) + " "@ + (if self.count == 1 {
                "step was"@
            } else {
                "steps were"@
            }) + " skipped due to missing profiles: "@ + self.list@,
    {
        let verb = if self.count == 1 {
            "step was"
        } else {
            "steps were"
        };
        text::decimal_text(self.count as u64).concat(" ").concat(verb).concat(
            " skipped due to missing profiles: ",
        ).concat(self.list.as_str())
    }

    /// The command that runs the skipped steps on what changed since a branch.
    pub fn fix_command(&self, branch: &str) -> (r: String)
        ensures
            r@ == "hk fix "@ + self.flag@ + " --from-ref="@ + branch@,
    {
        "hk fix ".to_owned().concat(self.flag.as_str()).concat(" --from-ref=").concat(branch)
    }
}

impl Hook {
    /// Whether the hook runs at a commit or a push, where no option can be given.
    pub fn runs_in_git(&self) -> (b: bool)
        ensures
            b == (self.name@ == "pre-commit"@ || self.name@ == "pre-push"@),
    {
        text::same(self.name.as_str(), "pre-commit") || text::same(self.name.as_str(), "pre-push")
    }
}

/// How to enable skipped steps where no option can be given.
pub fn help_with_command(env: &str, command: &str) -> (r: String)
    ensures
        r@ == "  To enable these steps, set "@ + env@ + " environment variable or run "@ + command@,
{
    "  To enable these steps, set ".to_owned().concat(env).concat(
        " environment variable or run ",
    ).concat(command)
}

/// How to enable skipped steps where an option can be given.
pub fn help_with_option(flag: &str, env: &str) -> (r: String)
    ensures
        r@ == "  To enable these steps, use "@ + flag@ + " or set "@ + env@ + "."@,
{
    "  To enable these steps, use ".to_owned().concat(flag).concat(" or set ").concat(env).concat(".")
}

} // verus!
