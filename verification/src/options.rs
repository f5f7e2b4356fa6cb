//! What the command line, the settings and the environment say of a run.
use crate::hook::{Hook, StashArgument, StashMethod};
use crate::step::types::RunType;
use crate::text;
use vstd::prelude::*;

verus! {

/// What the command line asks for.
#[derive(Clone, Debug)]
pub struct HookOptions {
    /// Stop at the first failure.
    pub fail_fast: bool,
    /// Go on after a failure.
    pub no_fail_fast: bool,
    /// Whether to stage what was fixed.
    pub should_stage: Option<bool>,
    /// Fix.
    pub fix: bool,
    /// How to stash.
    pub stash: Option<StashArgument>,
    /// The only steps to run; none stand for all.
    pub step: Vec<String>,
    /// Steps not to run.
    pub skip_step: Vec<String>,
    /// The files and directories to work on.
    pub files: Option<Vec<String>>,
    /// Patterns of the files to work on.
    pub glob: Option<Vec<String>>,
    /// Work on the files that changed since this revision.
    pub from_ref: Option<String>,
    /// Work on the files that changed up to this revision.
    pub to_ref: Option<String>,
    /// Work on all files.
    pub all: bool,
    /// Patterns of files not to work on.
    pub exclude: Option<Vec<String>>,
}

/// What the settings say.
#[derive(Clone, Debug)]
pub struct Settings {
    /// Stop at the first failure.
    pub fail_fast: bool,
    /// Whether to stage what was fixed.
    pub stage: Option<bool>,
    /// Hooks not to run.
    pub skip_hooks: Vec<String>,
    /// Steps not to run.
    pub skip_steps: Vec<String>,
    /// The kinds of reasons to show where a step is skipped.
    pub display_skip_reasons: Vec<String>,
    /// Warnings to show.
    pub warnings: Vec<String>,
    /// Warnings not to show.
    pub hide_warnings: Vec<String>,
    /// Patterns of files not to work on.
    pub exclude: Vec<String>,
}

/// What the environment variables say.
#[derive(Clone, Debug)]
pub struct Environment {
    /// Whether hooks may fix.
    pub fix: bool,
    /// How to stash.
    pub stash: Option<StashMethod>,
    /// Whether to stash untracked files too.
    pub stash_untracked: bool,
    /// Steps not to run.
    pub skip_steps: Vec<String>,
    /// Whether to show the summary where progress is plain text.
    pub summary_text: bool,
}

/// What is settled before a hook runs.
#[derive(Clone, Copy, Debug, PartialEq, Eq, Structural)]
pub struct RunPlan {
    /// Stop at the first group that fails.
    pub fail_fast: bool,
    /// Stage what was fixed.
    pub should_stage: bool,
    /// The mode of the run.
    pub run_type: RunType,
    /// How to stash.
    pub stash_method: StashMethod,
    /// Whether untracked files alone are a reason to stash.
    pub stash_untracked: bool,
    /// Fail where fixing modified files.
    pub fail_on_fix: bool,
    /// How many groups there are to run.
    pub groups: usize,
}

/// Whether a run stops at the first failure: as the command line says, else as the settings say.
pub open spec fn fails_fast(opts: HookOptions, settings: Settings) -> bool {
    if opts.fail_fast {
        true
    } else if opts.no_fail_fast {
        false
    } else {
        settings.fail_fast
    }
}

/// Whether a run stages what was fixed: as the command line, the settings or the hook say, the
/// first of them that does; by default it does.
pub open spec fn stages(hook: Hook, opts: HookOptions, settings: Settings) -> bool {
    match (opts.should_stage, settings.stage, hook.stage) {
        (Some(b), _, _) => b,
        (None, Some(b), _) => b,
        (None, None, Some(b)) => b,
        (None, None, None) => true,
    }
}

impl Hook {
    /// What is settled before the hook runs, or `None` where the settings say to skip the hook.
    pub open spec fn planned(
        self,
        opts: HookOptions,
        settings: Settings,
        env: Environment,
        groups: usize,
    ) -> Option<RunPlan> {
        if text::lists(settings.skip_hooks@, self.name@) {
            None
        } else {
            Some(
                RunPlan {
                    fail_fast: fails_fast(opts, settings),
                    should_stage: stages(self, opts, settings),
                    run_type: self.mode(opts.fix, env.fix),
                    stash_method: self.chosen_stash(opts.stash, env.stash),
                    stash_untracked: env.stash_untracked,
                    fail_on_fix: self.fail_on_fix,
                    groups,
                },
            )
        }
    }

    /// What is settled before the hook runs, or `None` where the settings say to skip the hook.
    pub fn plan_run(
        &self,
        opts: &HookOptions,
        settings: &Settings,
        env: &Environment,
        groups: usize,
    ) -> (r: Option<RunPlan>)
        ensures
            r == self.planned(*opts, *settings, *env, groups),
    {
        if text::listed(&settings.skip_hooks, self.name.as_str()) {
            return None;
        }
        let fail_fast = if opts.fail_fast {
            true
        } else if opts.no_fail_fast {
            false
        } else {
            settings.fail_fast
        };
        let should_stage = match (opts.should_stage, settings.stage, self.stage) {
            (Some(b), _, _) => b,
            (None, Some(b), _) => b,
            (None, None, Some(b)) => b,
            (None, None, None) => true,
        };
        Some(
            RunPlan {
                fail_fast,
                should_stage,
                run_type: self.run_type(opts.fix, env.fix),
                stash_method: self.stash_method(opts.stash, env.stash),
                stash_untracked: env.stash_untracked,
                fail_on_fix: self.fail_on_fix,
                groups,
            },
        )
    }
}

} // verus!
