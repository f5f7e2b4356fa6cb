//! What the jobs of a run share.
use crate::hook::StepGroup;
use crate::ordered_map::{self, OrderedMap};
use crate::path::{self, FilePath, FileSet};
use crate::skip::SkipReason;
use crate::step::types::{OutputSummary, RunType, Step};
use crate::text;
use vstd::prelude::*;

verus! {

/// What the jobs of a run share: its files, its counts of jobs, and what is collected for the end.
#[derive(Debug)]
pub struct HookContext {
    /// The files of the run.
    pub file_set: FileSet,
    pub groups: Vec<StepGroup>,
    pub run_type: RunType,
    /// The steps that are switched off.
    pub skip_steps: OrderedMap<SkipReason>,
    pub should_stage: bool,
    /// How many jobs there are.
    pub total_jobs: usize,
    /// How many jobs are done.
    pub completed_jobs: usize,
    /// The steps that were skipped, with the reason for each.
    pub skipped_steps: OrderedMap<SkipReason>,
    /// The output that is kept of each step.
    pub output_by_step: OrderedMap<(OutputSummary, String)>,
    /// The fixes that are suggested.
    pub fix_suggestions: Vec<String>,
}

/// How a step that is skipped is shown.
#[derive(Clone, Debug, PartialEq, Eq)]
pub enum SkipDisplay {
    /// With a message.
    Message(String),
    /// Not at all.
    Hidden,
}

/// How many steps the groups have together.
pub open spec fn step_count(groups: Seq<StepGroup>) -> nat
    decreases groups.len(),
{
    if groups.len() == 0 {
        0
    } else {
        step_count(groups.drop_last()) + groups.last().steps.entries().len()
    }
}

proof fn lemma_step_count(groups: Seq<StepGroup>, n: int)
    requires
        0 <= n <= groups.len(),
    ensures
        step_count(groups.take(n)) <= step_count(groups),
    decreases groups.len() - n,
{
    if n < groups.len() {
        assert(groups.take(n + 1).drop_last() =~= groups.take(n));
        lemma_step_count(groups, n + 1);
    } else {
        assert(groups.take(n) =~= groups);
    }
}

/// How many steps the groups have together.
pub fn total_steps(groups: &Vec<StepGroup>) -> (n: usize)
    requires
        step_count(groups@) <= usize::MAX,
    ensures
        n == step_count(groups@),
{
    let mut n: usize = 0;
    let mut i: usize = 0;
    while i < groups.len()
        invariant
            i <= groups@.len(),
            step_count(groups@) <= usize::MAX,
            n == step_count(groups@.take(i as int)),
        decreases groups@.len() - i,
    {
        proof {
            assert(groups@.take(i + 1).drop_last() =~= groups@.take(i as int));
            lemma_step_count(groups@, i + 1);
        }
        n = n + groups[i].steps.len();
        i = i + 1;
    }
    assert(groups@.take(i as int) =~= groups@);
    n
}

/// The output of steps, as texts.
pub open spec fn output_texts(entries: Seq<(Seq<char>, (OutputSummary, String))>) -> Seq<
    (Seq<char>, (OutputSummary, Seq<char>)),
> {
    Seq::new(entries.len(), |i: int| (entries[i].0, (entries[i].1.0, entries[i].1.1@)))
}

/// The output of steps with a text added for one of them. The first text for a step settles which
/// output it is; no text at all changes nothing.
pub open spec fn with_output(
    outputs: Seq<(Seq<char>, (OutputSummary, Seq<char>))>,
    step: Seq<char>,
    mode: OutputSummary,
    added: Seq<char>,
) -> Seq<(Seq<char>, (OutputSummary, Seq<char>))> {
    if added.len() == 0 {
        outputs
    } else if ordered_map::has_key(outputs, step) {
        let (first, before) = outputs[ordered_map::position_of(outputs, step)].1;
        ordered_map::with_entry(outputs, step, (first, before + added))
    } else {
        outputs.push((step, (mode, added)))
    }
}

/// Whether two lists of steps with reasons say the same.
pub open spec fn same_reasons(
    a: Seq<(Seq<char>, SkipReason)>,
    b: Seq<(Seq<char>, SkipReason)>,
) -> bool {
    &&& a.len() == b.len()
    &&& forall|i: int| 0 <= i < a.len() ==> (#[trigger] a[i]).0 == b[i].0 && a[i].1.same_as(b[i].1)
}

proof fn lemma_output_position(
    entries: Seq<(Seq<char>, (OutputSummary, String))>,
    step: Seq<char>,
)
    requires
        ordered_map::distinct_keys(entries),
    ensures
        ordered_map::has_key(entries, step) <==> ordered_map::has_key(output_texts(entries), step),
        ordered_map::has_key(entries, step) ==> ordered_map::position_of(entries, step)
            == ordered_map::position_of(output_texts(entries), step),
        ordered_map::distinct_keys(output_texts(entries)),
{
    let t = output_texts(entries);
    assert(forall|i: int| 0 <= i < entries.len() ==> #[trigger] t[i].0 == entries[i].0);
    if ordered_map::has_key(t, step) {
        let i = choose|i: int| 0 <= i < t.len() && #[trigger] t[i].0 == step;
        assert(entries[i].0 == step);
    }
    assert forall|i: int, j: int| 0 <= i < j < t.len() implies #[trigger] t[i].0
        != #[trigger] t[j].0 by {
        assert(entries[i].0 != entries[j].0);
    }
    if ordered_map::has_key(entries, step) {
        ordered_map::lemma_first_position(entries, step);
        let p = ordered_map::position_of(entries, step);
        assert(t[p].0 == step);
        ordered_map::lemma_position(t, p);
    }
}

impl HookContext {
    /// The output that is kept, by step.
    pub open spec fn outputs(self) -> Seq<(Seq<char>, (OutputSummary, Seq<char>))> {
        output_texts(self.output_by_step.entries())
    }

    /// What is shared at the beginning of a run: each step counts as a job.
    pub fn new(
        files: FileSet,
        groups: Vec<StepGroup>,
        run_type: RunType,
        skip_steps: OrderedMap<SkipReason>,
        should_stage: bool,
    ) -> (r: HookContext)
        requires
            step_count(groups@) <= usize::MAX,
        ensures
            r.file_set == files,
            r.groups == groups,
            r.run_type == run_type,
            r.skip_steps == skip_steps,
            r.should_stage == should_stage,
            r.total_jobs == step_count(groups@),
            r.completed_jobs == 0,
            r.skipped_steps.entries().len() == 0,
            r.output_by_step.entries().len() == 0,
            r.fix_suggestions@.len() == 0,
    {
        let total_jobs = total_steps(&groups);
        HookContext {
            file_set: files,
            groups,
            run_type,
            skip_steps,
            should_stage,
            total_jobs,
            completed_jobs: 0,
            skipped_steps: OrderedMap::new(),
            output_by_step: OrderedMap::new(),
            fix_suggestions: Vec::new(),
        }
    }

    /// The files of the run.
    pub fn files(&self) -> (r: Vec<FilePath>)
        ensures
            path::views(r@) == self.file_set.items(),
    {
        let mut r: Vec<FilePath> = Vec::new();
        let n: usize = self.file_set.len();
        let mut i: usize = 0;
        while i < n
            invariant
                i <= n,
                n == self.file_set.items().len(),
                path::views(r@) == self.file_set.items().take(i as int),
            decreases n - i,
        {
            let ghost before = r@;
            r.push(self.file_set.path_at(i).copy());
            proof {
                let all = self.file_set.items();
                assert(path::views(r@) =~= path::views(before).push(all[i as int]));
                assert(all.take(i + 1) =~= all.take(i as int).push(all[i as int]));
            }
            i = i + 1;
        }
        assert(self.file_set.items().take(n as int) =~= self.file_set.items());
        r
    }

    /// Adds files that a step has staged and files that it has created.
    pub fn add_files(&mut self, added_paths: &Vec<FilePath>, created_paths: &Vec<FilePath>)
        ensures
            path::is_set_of(
                final(self).file_set.items(),
                old(self).file_set.items() + path::views(added_paths@) + path::views(created_paths@),
            ),
            *final(self) == (HookContext { file_set: final(self).file_set, ..*old(self) }),
    {
        let mut set = FileSet::new();
        core::mem::swap(&mut self.file_set, &mut set);
        let middle = set.extended(added_paths);
        let ghost start = old(self).file_set.items() + path::views(added_paths@);
        let ghost m = middle.items();
        let set = middle.extended(created_paths);
        proof {
            path::lemma_set_of_set(m, start, path::views(created_paths@), set.items());
        }
        self.file_set = set;
    }

    /// Counts jobs that came up, and gives the new total to show where there are any.
    pub fn inc_total_jobs(&mut self, n: usize) -> (r: Option<usize>)
        requires
            old(self).total_jobs + n <= usize::MAX,
        ensures
            final(self).total_jobs == old(self).total_jobs + n,
            r == if n > 0 {
                Some(final(self).total_jobs)
            } else {
                None
            },
            *final(self) == (HookContext { total_jobs: final(self).total_jobs, ..*old(self) }),
    {
        if n > 0 {
            self.total_jobs = self.total_jobs + n;
            Some(self.total_jobs)
        } else {
            None
        }
    }

    /// Counts jobs that are done, and gives their new number to show where there are any.
    pub fn inc_completed_jobs(&mut self, n: usize) -> (r: Option<usize>)
        requires
            old(self).completed_jobs + n <= usize::MAX,
        ensures
            final(self).completed_jobs == old(self).completed_jobs + n,
            r == if n > 0 {
                Some(final(self).completed_jobs)
            } else {
                None
            },
            *final(self) == (HookContext {
                completed_jobs: final(self).completed_jobs,
                ..*old(self)
            }),
    {
        if n > 0 {
            self.completed_jobs = self.completed_jobs + n;
            Some(self.completed_jobs)
        } else {
            None
        }
    }

    /// Counts jobs that fell away, no further than to none, and gives the new total to show where
    /// there are any.
    pub fn dec_total_jobs(&mut self, n: usize) -> (r: Option<usize>)
        ensures
            final(self).total_jobs == if old(self).total_jobs < n {
                0
            } else {
                old(self).total_jobs - n
            },
            r == if n > 0 {
                Some(final(self).total_jobs)
            } else {
                None
            },
            *final(self) == (HookContext { total_jobs: final(self).total_jobs, ..*old(self) }),
    {
        if n > 0 {
            self.total_jobs = if self.total_jobs < n {
                0
            } else {
                self.total_jobs - n
            };
            Some(self.total_jobs)
        } else {
            None
        }
    }

    /// Records why a step was skipped; what was recorded for it before is replaced.
    pub fn track_skip(&mut self, step_name: &str, reason: SkipReason)
        ensures
            final(self).skipped_steps.entries() == ordered_map::with_entry(
                old(self).skipped_steps.entries(),
                step_name@,
                reason,
            ),
            *final(self) == (HookContext {
                skipped_steps: final(self).skipped_steps,
                ..*old(self)
            }),
    {
        self.skipped_steps.insert(step_name.to_owned(), reason);
    }

    /// The steps that were skipped, with the reason for each.
    pub fn get_skipped_steps(&self) -> (r: OrderedMap<SkipReason>)
        ensures
            same_reasons(r.entries(), self.skipped_steps.entries()),
    {
        let all = &self.skipped_steps;
        let mut r: OrderedMap<SkipReason> = OrderedMap::new();
        let n: usize = all.len();
        let mut i: usize = 0;
        while i < n
            invariant
                i <= n,
                n == all.entries().len(),
                ordered_map::distinct_keys(all.entries()),
                r.entries().len() == i,
                forall|j: int|
                    0 <= j < i ==> (#[trigger] r.entries()[j]).0 == all.entries()[j].0
                        && r.entries()[j].1.same_as(all.entries()[j].1),
            decreases n - i,
        {
            proof {
                ordered_map::lemma_new_key(r.entries(), all.entries(), i as int);
            }
            r.insert(all.key_at(i).clone(), all.value_at(i).copy());
            i = i + 1;
        }
        r
    }

    /// Adds to the output that is kept of a step.
    pub fn append_step_output(&mut self, step_name: &str, mode: OutputSummary, text: &str)
        ensures
            final(self).outputs() == with_output(old(self).outputs(), step_name@, mode, text@),
            *final(self) == (HookContext {
                output_by_step: final(self).output_by_step,
                ..*old(self)
            }),
    {
        if text.is_empty() {
            return;
        }
        let ghost before = self.output_by_step.entries();
        let found = self.output_by_step.get_index_of(step_name);
        proof {
            lemma_output_position(before, step_name@);
        }
        let (first, whole) = match found {
            Some(i) => {
                let (first, kept) = self.output_by_step.value_at(i);
                (*first, kept.clone().concat(text))
            },
            None => (mode, text.to_owned()),
        };
        self.output_by_step.insert(step_name.to_owned(), (first, whole));
        assert(output_texts(self.output_by_step.entries()) =~= with_output(
            output_texts(before),
            step_name@,
            mode,
            text@,
        ));
    }

    /// Adds a fix that is suggested.
    pub fn add_fix_suggestion(&mut self, suggestion: String)
        ensures
            final(self).fix_suggestions@ == old(self).fix_suggestions@.push(suggestion),
            *final(self) == (HookContext {
                fix_suggestions: final(self).fix_suggestions,
                ..*old(self)
            }),
    {
        self.fix_suggestions.push(suggestion);
    }

    /// The fixes that are suggested, which stay with the run.
    pub fn take_fix_suggestions(&self) -> (r: Vec<String>)
        ensures
            r@ == self.fix_suggestions@,
    {
        text::copied(&self.fix_suggestions)
    }
}

impl Step {
    /// Records why the step is skipped, and says how to show that.
    pub fn mark_skipped(
        &self,
        ctx: &mut HookContext,
        reason: SkipReason,
        display_skip_reasons: &Vec<String>,
    ) -> (r: SkipDisplay)
        ensures
            if text::lists(display_skip_reasons@, reason.key_text()) {
                r matches SkipDisplay::Message(m) && m@ == reason.message_text()
            } else {
                r == SkipDisplay::Hidden
            },
            final(ctx).skipped_steps.entries() == ordered_map::with_entry(
                old(ctx).skipped_steps.entries(),
                self.name@,
                reason,
            ),
            *final(ctx) == (HookContext { skipped_steps: final(ctx).skipped_steps, ..*old(ctx) }),
    {
        let display = if reason.should_display(display_skip_reasons) {
            SkipDisplay::Message(reason.message())
        } else {
            SkipDisplay::Hidden
        };
        ctx.track_skip(self.name.as_str(), reason);
        display
    }
}

/// The output of a step is kept whole and in order: adding two texts is adding them together,
/// also where another output was named the second time.
pub proof fn outputs_are_joined_in_order(
    outputs: Seq<(Seq<char>, (OutputSummary, Seq<char>))>,
    step: Seq<char>,
    mode: OutputSummary,
    later: OutputSummary,
    a: Seq<char>,
    b: Seq<char>,
)
    requires
        ordered_map::distinct_keys(outputs),
        a.len() > 0,
    ensures
        with_output(with_output(outputs, step, mode, a), step, later, b) == with_output(
            outputs,
            step,
            mode,
            a + b,
        ),
{
    let once = with_output(outputs, step, mode, a);
    if b.len() == 0 {
        assert(a + b =~= a);
    } else {
        if ordered_map::has_key(outputs, step) {
            ordered_map::lemma_first_position(outputs, step);
            let p = ordered_map::position_of(outputs, step);
            let before = outputs[p].1.1;
            assert(once[p].0 == step);
            assert(ordered_map::distinct_keys(once)) by {
                assert forall|i: int, j: int| 0 <= i < j < once.len() implies #[trigger] once[i].0
                    != #[trigger] once[j].0 by {
                    assert(outputs[i].0 != outputs[j].0);
                }
            }
            ordered_map::lemma_position(once, p);
            assert((before + a) + b =~= before + (a + b));
        } else {
            let p = outputs.len() as int;
            assert(once[p].0 == step);
            assert(ordered_map::distinct_keys(once)) by {
                assert forall|i: int, j: int| 0 <= i < j < once.len() implies #[trigger] once[i].0
                    != #[trigger] once[j].0 by {
                    if j < p {
                        assert(outputs[i].0 != outputs[j].0);
                    } else {
                        assert(outputs[i].0 != step);
                    }
                }
            }
            ordered_map::lemma_position(once, p);
        }
        assert(with_output(once, step, later, b) =~= with_output(outputs, step, mode, a + b));
    }
}

} // verus!
