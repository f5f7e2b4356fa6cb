//! What holds of every course that the statistics of a hook can take.
use crate::hook::StepGroup;
use crate::ordered_map;
use crate::skip::SkipReason;
use crate::stats::{self, StatRow, StatStep, StatsAction, StatsEvent, StatsPhase, StatsRun};
use crate::step::types::{RunType, Step};
use vstd::prelude::*;
use vstd::utf8::encode_utf8;

verus! {

/// The statistics as they were started and after each of the events that they have taken, with what
/// they asked for each time.
pub struct StatsCourse<E> {
    pub runs: Seq<StatsRun>,
    pub actions: Seq<StatsAction<E>>,
    pub events: Seq<StatsEvent<E>>,
}

impl<E> StatsCourse<E> {
    /// Whether the statistics can take this course: no event was refused.
    pub open spec fn is_course(self) -> bool {
        &&& self.runs.len() == self.events.len() + 1
        &&& self.actions.len() == self.runs.len()
        &&& self.runs[0].phase == StatsPhase::OpeningRepo
        &&& self.runs[0].rows@.len() == 0
        &&& self.actions[0] is OpenRepo
        &&& forall|i: int| 0 <= i < self.events.len() ==> #[trigger] self.takes(i)
    }

    /// Whether the event at that position was taken.
    pub open spec fn takes(self, i: int) -> bool {
        &&& self.runs[i].follows(self.events[i], self.runs[i + 1], self.actions[i + 1])
        &&& !(self.actions[i + 1] is Refuse)
    }

    /// Whether the event at that position tells what a row says of the step at `k`: that its
    /// profiles rule it out, or how many files it works on.
    pub open spec fn tells(self, i: int, k: int, row: StatRow) -> bool {
        ||| {
            &&& self.actions[i] matches StatsAction::AskProfile(at)
            &&& at == k
            &&& self.events[i] matches StatsEvent::Profile(Some(reason))
            &&& row.count == 0
            &&& row.skip is Some
            &&& row.skip->0.same_as(reason)
        }
        ||| {
            &&& self.actions[i] matches StatsAction::CountFiles(at)
            &&& at == k
            &&& self.events[i] == StatsEvent::<E>::Counted(Ok(row.count))
            &&& row.skip is None
        }
    }

    /// Whether one of the first `n` events tells what a row says of the step at `k`.
    pub open spec fn told(self, n: int, k: int, row: StatRow) -> bool {
        exists|i: int| 0 <= i < n && #[trigger] self.tells(i, k, row)
    }

    /// Whether a row says of the step at `k` what there is to say after the first `n` events: that
    /// it is switched off, that it has no command, or what was found.
    pub open spec fn is_right(self, n: int, k: int, row: StatRow) -> bool {
        let run = self.runs[0];
        let step = run.steps@[k];
        let off = run.skip_steps.entries();
        &&& row.name@ == step.name@
        &&& forall|m: int|
            is_first(off, step.name@, m) ==> row.count == 0 && row.skip is Some
                && row.skip->0.same_as((#[trigger] off[m]).1)
        &&& is_free(off, step.name@) && !step.runnable ==> row.count == 0 && row.skip == Some(
            SkipReason::NoCommandForRunType(run.run_type),
        )
        &&& is_free(off, step.name@) && step.runnable ==> self.told(n, k, row)
    }
}

/// Whether an entry is the first under a name.
pub open spec fn is_first(off: Seq<(Seq<char>, SkipReason)>, name: Seq<char>, m: int) -> bool {
    &&& 0 <= m < off.len()
    &&& off[m].0 == name
    &&& forall|j: int| 0 <= j < m ==> (#[trigger] off[j]).0 != name
}

/// Whether there is no entry under a name.
pub open spec fn is_free(off: Seq<(Seq<char>, SkipReason)>, name: Seq<char>) -> bool {
    forall|j: int| 0 <= j < off.len() ==> (#[trigger] off[j]).0 != name
}

proof fn lemma_unsettled(run: StatsRun, k: int)
    ensures
        run.settled(k) is None <==> is_free(run.skip_steps.entries(), run.steps@[k].name@)
            && run.steps@[k].runnable,
{
    let off = run.skip_steps.entries();
    let name = run.steps@[k].name@;
    if ordered_map::has_key(off, name) {
        let i = choose|i: int| 0 <= i < off.len() && #[trigger] off[i].0 == name;
        assert(off[i].0 == name);
    } else {
        assert forall|j: int| 0 <= j < off.len() implies (#[trigger] off[j]).0 != name by {}
    }
}

proof fn lemma_settled(run: StatsRun, k: int, row: StatRow)
    ensures
        ({
            let off = run.skip_steps.entries();
            let step = run.steps@[k];
            run.settled(k) is Some && stats::is_row(row, step.name@, 0, run.settled(k)) ==> {
                &&& row.name@ == step.name@
                &&& forall|m: int|
                    is_first(off, step.name@, m) ==> row.count == 0 && row.skip is Some
                        && row.skip->0.same_as((#[trigger] off[m]).1)
                &&& is_free(off, step.name@) ==> row.count == 0 && row.skip == Some(
                    SkipReason::NoCommandForRunType(run.run_type),
                )
            }
        }),
{
    let off = run.skip_steps.entries();
    let name = run.steps@[k].name@;
    if ordered_map::has_key(off, name) {
        ordered_map::lemma_first_position(off, name);
        let p = ordered_map::position_of(off, name);
        let i = choose|i: int| 0 <= i < off.len() && #[trigger] off[i].0 == name;
        assert(off[i].0 == name);
        assert(!is_free(off, name));
        assert forall|m: int| is_first(off, name, m) implies m == p by {
            ordered_map::lemma_first_position(off, name);
            if p < m {
                assert(off[p].0 != name);
            }
            if m < p {
                lemma_position_is_first(off, name);
                assert(off[m].0 != name);
            }
        }
    } else {
        assert forall|j: int| 0 <= j < off.len() implies (#[trigger] off[j]).0 != name by {}
    }
}

proof fn lemma_position_is_first(off: Seq<(Seq<char>, SkipReason)>, name: Seq<char>)
    requires
        ordered_map::has_key(off, name),
    ensures
        forall|j: int|
            0 <= j < ordered_map::position_of(off, name) ==> #[trigger] off[j].0 != name,
{
    let i = choose|i: int| 0 <= i < off.len() && #[trigger] off[i].0 == name;
    ordered_map::lemma_first_below(off, name, i);
}

proof fn lemma_next_open(run: StatsRun, from: int)
    ensures
        from <= run.steps@.len() ==> from <= run.next_open(from) <= run.steps@.len(),
        forall|k: int| from <= k < run.next_open(from) ==> #[trigger] run.settled(k) is Some,
        from <= run.next_open(from) < run.steps@.len() ==> run.settled(run.next_open(from)) is None,
    decreases run.steps@.len() - from,
{
    if from < run.steps@.len() && run.settled(from) is Some {
        lemma_next_open(run, from + 1);
    }
}

proof fn lemma_course<E>(course: StatsCourse<E>, n: int)
    requires
        course.is_course(),
        0 <= n <= course.events.len(),
    ensures
        ({
            let run = course.runs[n];
            let start = course.runs[0];
            &&& run.hook == start.hook
            &&& run.run_type == start.run_type
            &&& run.stash_method == start.stash_method
            &&& run.steps == start.steps
            &&& run.skip_steps == start.skip_steps
            &&& run.rows@.len() <= run.steps@.len()
            &&& match run.phase {
                StatsPhase::AskingProfile(i) => i < run.steps@.len() && run.rows@.len() == i
                    && run.settled(i as int) is None && course.actions[n] == StatsAction::<
                    E,
                >::AskProfile(i),
                StatsPhase::CountingFiles(i) => i < run.steps@.len() && run.rows@.len() == i
                    && run.settled(i as int) is None && course.actions[n] == StatsAction::<
                    E,
                >::CountFiles(i),
                StatsPhase::Finished => true,
                _ => run.rows@.len() == 0,
            }
            &&& forall|k: int|
                0 <= k < run.rows@.len() ==> course.is_right(n, k, #[trigger] run.rows@[k])
            &&& course.actions[n] is PrintTable ==> run.rows@.len() == run.steps@.len()
                && run.steps@.len() > 0
            &&& course.actions[n] is PrintNothing ==> run.steps@.len() == 0
        }),
    decreases n,
{
    if n > 0 {
        lemma_course(course, n - 1);
        assert(course.takes(n - 1));
        let before = course.runs[n - 1];
        let now = course.runs[n];
        let start = course.runs[0];
        let i = before.rows@.len() as int;
        lemma_next_open(before, 0);
        lemma_next_open(before, i + 1);
        assert forall|k: int| #[trigger] now.settled(k) == before.settled(k) by {}
        assert forall|k: int| 0 <= k < now.rows@.len() implies course.is_right(
            n,
            k,
            #[trigger] now.rows@[k],
        ) by {
            let row = now.rows@[k];
            lemma_settled(before, k, row);
            lemma_unsettled(before, k);
            if k < i {
                if now.rows@.len() != before.rows@.len() {
                    assert(now.rows@.take(i)[k] == row);
                }
                assert(before.rows@[k] == row);
                assert(course.is_right(n - 1, k, before.rows@[k]));
                if course.told(n - 1, k, row) {
                    let m = choose|m: int| 0 <= m < n - 1 && #[trigger] course.tells(m, k, row);
                    assert(course.tells(m, k, row));
                }
            } else if before.phase is AskingProfile || before.phase is CountingFiles {
                if k == i {
                    assert(course.tells(n - 1, k, row));
                } else {
                    assert(before.settled(k) is Some);
                }
            } else {
                assert(before.settled(k) is Some);
            }
        }
    }
}

/// The table has a row for each step, in their order: a step that is switched off is shown as
/// skipped for that, one without a command for want of it, one that its profiles rule out for what
/// they say, and every other one with the number of files that were counted for it.
pub proof fn table_tells_what_each_step_works_on<E>(course: StatsCourse<E>, n: int, k: int)
    requires
        course.is_course(),
        0 <= n < course.actions.len(),
        course.actions[n] is PrintTable,
        0 <= k < course.runs[0].steps@.len(),
    ensures
        course.runs[n].rows@.len() == course.runs[0].steps@.len(),
        course.is_right(n, k, course.runs[n].rows@[k]),
{
    lemma_course(course, n);
}

/// That there are no steps is shown exactly where the statistics end without any, and the message
/// names the hook; the table is shown only where there are some.
pub proof fn no_steps_are_shown_as_such<E>(course: StatsCourse<E>, n: int)
    requires
        course.is_course(),
        0 <= n < course.actions.len(),
    ensures
        course.actions[n] matches StatsAction::PrintNothing(t) ==> course.runs[0].steps@.len() == 0
            && t@ == "No steps found in hook '"@ + course.runs[0].hook@ + "'"@,
        course.actions[n] is PrintTable ==> course.runs[0].steps@.len() > 0,
{
    lemma_course(course, n);
    if n > 0 {
        assert(course.takes(n - 1));
        lemma_course(course, n - 1);
    }
}

/// A step is asked of only where it is neither switched off nor without a command: first for its
/// profiles, and for its files only where these do not rule it out.
pub proof fn steps_are_asked_of_only_where_needed<E>(course: StatsCourse<E>, n: int, k: usize)
    requires
        course.is_course(),
        0 <= n < course.actions.len(),
        course.actions[n] == StatsAction::<E>::AskProfile(k) || course.actions[n] == StatsAction::<
            E,
        >::CountFiles(k),
    ensures
        k < course.runs[0].steps@.len(),
        course.runs[0].steps@[k as int].runnable,
        is_free(course.runs[0].skip_steps.entries(), course.runs[0].steps@[k as int].name@),
        course.actions[n] is CountFiles ==> n > 0 && course.actions[n - 1] == StatsAction::<
            E,
        >::AskProfile(k) && course.events[n - 1] == StatsEvent::<E>::Profile(None),
{
    lemma_course(course, n);
    if n > 0 {
        assert(course.takes(n - 1));
        lemma_course(course, n - 1);
        lemma_next_open(course.runs[n - 1], 0);
        lemma_next_open(course.runs[n - 1], course.runs[n - 1].rows@.len() as int + 1);
    }
    lemma_unsettled(course.runs[n], k as int);
}

/// The statistics open the repository, read its status, list the files and show the header, which
/// names the hook, tells how many files there are, and names the mode.
pub proof fn header_comes_before_the_rows<E>(course: StatsCourse<E>, n: int)
    requires
        course.is_course(),
        0 < n < course.actions.len(),
    ensures
        course.actions[n - 1] is OpenRepo && (course.events[n - 1] matches StatsEvent::Done(Ok(_)))
            ==> course.actions[n] is ReadStatus,
        course.actions[n - 1] is ReadStatus && (course.events[n - 1] matches StatsEvent::Done(Ok(_)))
            ==> course.actions[n] is ListFiles,
        course.events[n - 1] matches StatsEvent::Files(Ok(total)) ==> (
        course.actions[n] matches StatsAction::PrintHeader { title, total: t, mode } && t == total
            && title@ == "Statistics for hook: "@ + course.runs[0].hook@ && (
        course.runs[0].run_type == RunType::Fix ==> mode@ == "fix"@) && (course.runs[0].run_type
            == RunType::Check ==> mode@ == "check"@)),
{
    assert(course.takes(n - 1));
    lemma_course(course, n - 1);
    if n >= 2 {
        assert(course.takes(n - 2));
    }
}

/// Any error ends the statistics, and they return that error.
pub proof fn error_ends_the_statistics<E>(course: StatsCourse<E>, n: int, error: E)
    requires
        course.is_course(),
        0 < n < course.actions.len(),
    ensures
        course.actions[n] == StatsAction::<E>::Abort(error) <==> course.events[n - 1]
            == StatsEvent::<E>::Done(Err(error)) || course.events[n - 1] == StatsEvent::<E>::Files(
            Err(error),
        ) || course.events[n - 1] == StatsEvent::<E>::Counted(Err(error)),
{
    assert(course.takes(n - 1));
}

/// The names are shown as wide as the longest of them: none is longer, and one is as long.
pub proof fn table_is_as_wide_as_the_longest_name(rows: Seq<StatRow>)
    ensures
        forall|k: int|
            0 <= k < rows.len() ==> encode_utf8((#[trigger] rows[k]).name@).len() <= stats::widest(
                rows,
            ),
        rows.len() > 0 ==> exists|k: int|
            0 <= k < rows.len() && encode_utf8((#[trigger] rows[k]).name@).len() == stats::widest(
                rows,
            ),
        rows.len() == 0 ==> stats::widest(rows) == 0,
    decreases rows.len(),
{
    if rows.len() > 0 {
        let rest = rows.drop_last();
        table_is_as_wide_as_the_longest_name(rest);
        assert forall|k: int| 0 <= k < rows.len() implies encode_utf8(
            (#[trigger] rows[k]).name@,
        ).len() <= stats::widest(rows) by {
            if k < rest.len() {
                assert(rest[k] == rows[k]);
            }
        }
        let last = rows.len() - 1;
        if stats::widest(rest) < encode_utf8(rows[last].name@).len() || rest.len() == 0 {
            assert(encode_utf8(rows[last].name@).len() == stats::widest(rows));
        } else {
            let k = choose|k: int|
                0 <= k < rest.len() && encode_utf8((#[trigger] rest[k]).name@).len()
                    == stats::widest(rest);
            assert(rows[k] == rest[k]);
        }
    }
}

/// The table is as wide as its rows need.
pub proof fn table_is_shown_with_its_width<E>(course: StatsCourse<E>, n: int, width: usize)
    requires
        course.is_course(),
        0 <= n < course.actions.len(),
        course.actions[n] == (StatsAction::<E>::PrintTable { width }),
    ensures
        width == stats::widest(course.runs[n].rows@),
{
    if n > 0 {
        assert(course.takes(n - 1));
    }
}

/// The steps of groups are those of the first group, then those of the next, and so on, each
/// group's in its own order.
pub proof fn steps_stand_in_the_order_of_the_groups(
    first: Seq<StepGroup>,
    second: Seq<StepGroup>,
    group: StepGroup,
)
    ensures
        stats::all_steps(Seq::<StepGroup>::empty()).len() == 0,
        stats::all_steps(seq![group]) == group.steps.entries(),
        stats::all_steps(first + second) == stats::all_steps(first) + stats::all_steps(second),
    decreases second.len(),
{
    reveal_with_fuel(stats::all_steps, 2);
    assert(seq![group].drop_last() =~= Seq::<StepGroup>::empty());
    assert(stats::all_steps(seq![group]) =~= group.steps.entries());
    if second.len() > 0 {
        steps_stand_in_the_order_of_the_groups(first, second.drop_last(), group);
        assert((first + second).drop_last() =~= first + second.drop_last());
        assert(stats::all_steps(first + second) =~= stats::all_steps(first) + stats::all_steps(
            second,
        ));
    } else {
        assert(first + second =~= first);
        assert(stats::all_steps(first) + stats::all_steps(second) =~= stats::all_steps(first));
    }
}

/// Statistics are made of every step under its name; it can run exactly where it has a command that
/// checks, or one that fixes in a run that fixes.
pub proof fn step_without_a_command_cannot_run(
    steps: Seq<StatStep>,
    list: Seq<(Seq<char>, Step)>,
    run_type: RunType,
    i: int,
)
    requires
        stats::are_steps_of(steps, list, run_type),
        0 <= i < list.len(),
    ensures
        steps.len() == list.len(),
        steps[i].name@ == list[i].0,
        steps[i].runnable <==> list[i].1.check is Some || list[i].1.check_diff is Some
            || list[i].1.check_list_files is Some || (list[i].1.fix is Some && run_type
            == RunType::Fix),
{
}

/// What is shown of a step that is skipped is why, and nothing is shown of one that is not.
pub proof fn skipped_step_is_noted(row: StatRow)
    ensures
        row.skip is None ==> row.note_text() is None,
        row.skip is Some ==> row.note_text() == Some(
            "(skipped: "@ + row.skip->0.message_text() + ")"@,
        ),
{
}

} // verus!
