//! How many files each step of a hook works on.
use crate::hook::{Hook, StashMethod, StepGroup};
use crate::options::{Environment, HookOptions, Settings};
use crate::ordered_map::{self, OrderedMap};
use crate::skip::{self, SkipReason};
use crate::step::types::{opt_text, RunType, Step};
use crate::text;
use vstd::prelude::*;
use vstd::utf8::encode_utf8;

verus! {

/// A step that statistics are made of.
#[derive(Clone, Debug)]
pub struct StatStep {
    pub name: String,
    /// Whether the step has a command for the mode of the run.
    pub runnable: bool,
}

/// What is found for a step: how many files it works on, or why it is skipped.
#[derive(Debug)]
pub struct StatRow {
    pub name: String,
    pub count: usize,
    pub skip: Option<SkipReason>,
}

/// What statistics wait for.
#[derive(Clone, Copy, Debug, PartialEq, Eq, Structural)]
pub enum StatsPhase {
    OpeningRepo,
    ReadingStatus,
    ListingFiles,
    PrintingHeader,
    /// Whose profiles are asked for.
    AskingProfile(usize),
    /// Whose files are counted.
    CountingFiles(usize),
    Finished,
}

/// What came of what statistics asked for.
#[derive(Debug)]
pub enum StatsEvent<E> {
    /// What was asked for was done, or failed.
    Done(Result<(), E>),
    /// What cannot fail was done.
    Ack,
    /// How many files there are.
    Files(Result<usize, E>),
    /// Why the profiles rule the step out, if they do.
    Profile(Option<SkipReason>),
    /// How many files the step works on.
    Counted(Result<usize, E>),
}

/// What to do next for statistics.
#[derive(Debug)]
pub enum StatsAction<E> {
    OpenRepo,
    ReadStatus,
    ListFiles,
    /// Show for which hook these are, how many files there are, and the mode.
    PrintHeader { title: String, total: usize, mode: String },
    /// Find whether the profiles rule the step at that position out.
    AskProfile(usize),
    /// Count the files that the step at that position works on.
    CountFiles(usize),
    /// Show that there are no steps, and return.
    PrintNothing(String),
    /// Show what was found for each step, with the names as wide as given, and return.
    PrintTable { width: usize },
    /// Return the error.
    Abort(E),
    /// Nothing: the event cannot come now.
    Refuse,
}

/// Statistics of a hook.
#[derive(Debug)]
pub struct StatsRun {
    pub hook: String,
    pub run_type: RunType,
    /// How changes would be stashed, which decides which files are listed.
    pub stash_method: StashMethod,
    pub steps: Vec<StatStep>,
    /// The steps that are switched off.
    pub skip_steps: OrderedMap<SkipReason>,
    pub phase: StatsPhase,
    /// How many files there are.
    pub total: usize,
    /// What is found, for each step in order.
    pub rows: Vec<StatRow>,
}

/// The steps of all groups, by name, in order.
pub open spec fn all_steps(groups: Seq<StepGroup>) -> Seq<(Seq<char>, Step)>
    decreases groups.len(),
{
    if groups.len() == 0 {
        Seq::empty()
    } else {
        all_steps(groups.drop_last()) + groups.last().steps.entries()
    }
}

/// Whether `steps` are those of a list of steps by name, in order.
pub open spec fn are_steps_of(
    steps: Seq<StatStep>,
    list: Seq<(Seq<char>, Step)>,
    run_type: RunType,
) -> bool {
    &&& steps.len() == list.len()
    &&& forall|i: int|
        0 <= i < steps.len() ==> (#[trigger] steps[i]).name@ == list[i].0 && (steps[i].runnable
            <==> list[i].1.script_for(run_type) is Some)
}

/// The name of a mode.
pub open spec fn mode_text(run_type: RunType) -> Seq<char> {
    match run_type {
        RunType::Fix => "fix"@,
        RunType::Check => "check"@,
    }
}

/// The length of the longest name, in bytes.
pub open spec fn widest(rows: Seq<StatRow>) -> nat
    decreases rows.len(),
{
    if rows.len() == 0 {
        0
    } else {
        let rest = widest(rows.drop_last());
        let last = encode_utf8(rows.last().name@).len();
        if rest < last {
            last
        } else {
            rest
        }
    }
}

/// Whether a row says how many files a step works on, or why it is skipped.
pub open spec fn is_row(row: StatRow, name: Seq<char>, count: usize, skip: Option<SkipReason>) -> bool {
    &&& row.name@ == name
    &&& row.count == count
    &&& match skip {
        Some(reason) => row.skip matches Some(s) && s.same_as(reason),
        None => row.skip is None,
    }
}

impl StatsRun {
    pub open spec fn in_phase(self, phase: StatsPhase) -> StatsRun {
        StatsRun { phase, ..self }
    }

    /// Why the step at a position is skipped, where no one else has to be asked.
    pub open spec fn settled(self, i: int) -> Option<SkipReason> {
        let off = self.skip_steps.entries();
        let name = self.steps@[i].name@;
        if ordered_map::has_key(off, name) {
            Some(off[ordered_map::position_of(off, name)].1)
        } else if !self.steps@[i].runnable {
            Some(SkipReason::NoCommandForRunType(self.run_type))
        } else {
            None
        }
    }

    /// The first step from a position on of which someone else has to be asked.
    pub open spec fn next_open(self, from: int) -> int
        decreases self.steps@.len() - from,
    {
        if from >= self.steps@.len() {
            self.steps@.len() as int
        } else if self.settled(from) is Some {
            self.next_open(from + 1)
        } else {
            from
        }
    }

    /// Whether each row is that of the step at its position: a step that is switched off, or has
    /// no command, is skipped for that.
    pub open spec fn rows_are_right(self) -> bool {
        &&& self.rows@.len() <= self.steps@.len()
        &&& forall|k: int|
            0 <= k < self.rows@.len() ==> (#[trigger] self.rows@[k]).name@ == self.steps@[k].name@
                && (self.settled(k) is Some ==> is_row(
                self.rows@[k],
                self.steps@[k].name@,
                0,
                self.settled(k),
            ))
    }

    /// Whether there is a row for each step before the one that is asked of, and no step is asked
    /// of without need.
    pub open spec fn well_formed(self) -> bool {
        &&& self.rows_are_right()
        &&& match self.phase {
            StatsPhase::AskingProfile(i) => i < self.steps@.len() && self.rows@.len() == i
                && self.settled(i as int) is None,
            StatsPhase::CountingFiles(i) => i < self.steps@.len() && self.rows@.len() == i
                && self.settled(i as int) is None,
            StatsPhase::Finished => true,
            _ => self.rows@.len() == 0,
        }
    }

    /// Whether `now` and `action` are how the statistics go on once the rows up to a position are
    /// there; `now` holds them already.
    pub open spec fn goes_on<E>(
        self,
        from: int,
        now: StatsRun,
        action: StatsAction<E>,
    ) -> bool {
        let open = self.next_open(from);
        &&& now == StatsRun { phase: now.phase, rows: now.rows, ..self }
        &&& now.rows@.len() == open
        &&& forall|k: int|
            from <= k < open ==> is_row(
                #[trigger] now.rows@[k],
                self.steps@[k].name@,
                0,
                self.settled(k),
            )
        &&& if open < self.steps@.len() {
            &&& now.phase matches StatsPhase::AskingProfile(i)
            &&& i == open
            &&& action == StatsAction::<E>::AskProfile(i)
        } else {
            &&& now.phase == StatsPhase::Finished
            &&& if open == 0 {
                &&& action matches StatsAction::PrintNothing(t)
                &&& t@ == "No steps found in hook '"@ + self.hook@ + "'"@
            } else {
                &&& action matches StatsAction::PrintTable { width }
                &&& width == widest(now.rows@)
            }
        }
    }

    /// Whether `now` and `action` are how the statistics go on with one row more.
    pub open spec fn goes_on_with<E>(
        self,
        count: usize,
        skip: Option<SkipReason>,
        now: StatsRun,
        action: StatsAction<E>,
    ) -> bool {
        let i = self.rows@.len() as int;
        &&& self.goes_on(i + 1, now, action)
        &&& now.rows@.take(i) == self.rows@
        &&& is_row(now.rows@[i], self.steps@[i].name@, count, skip)
    }

    /// Whether `now` and `action` are how the statistics go on by an event.
    pub open spec fn follows<E>(
        self,
        event: StatsEvent<E>,
        now: StatsRun,
        action: StatsAction<E>,
    ) -> bool {
        let over = self.in_phase(StatsPhase::Finished);
        match (self.phase, event) {
            (StatsPhase::OpeningRepo, StatsEvent::Done(Ok(_))) => {
                &&& now == self.in_phase(StatsPhase::ReadingStatus)
                &&& action == StatsAction::<E>::ReadStatus
            },
            (StatsPhase::ReadingStatus, StatsEvent::Done(Ok(_))) => {
                &&& now == self.in_phase(StatsPhase::ListingFiles)
                &&& action == StatsAction::<E>::ListFiles
            },
            (StatsPhase::ListingFiles, StatsEvent::Files(Ok(n))) => {
                &&& now == StatsRun { phase: StatsPhase::PrintingHeader, total: n, ..self }
                &&& action matches StatsAction::PrintHeader { title, total, mode }
                &&& title@ == "Statistics for hook: "@ + self.hook@
                &&& total == n
                &&& mode@ == mode_text(self.run_type)
            },
            (StatsPhase::PrintingHeader, StatsEvent::Ack) => self.goes_on(0, now, action),
            (StatsPhase::AskingProfile(_), StatsEvent::Profile(Some(reason))) => self.goes_on_with(
                0,
                Some(reason),
                now,
                action,
            ),
            (StatsPhase::AskingProfile(i), StatsEvent::Profile(None)) => {
                &&& now == self.in_phase(StatsPhase::CountingFiles(i))
                &&& action == StatsAction::<E>::CountFiles(i)
            },
            (StatsPhase::CountingFiles(_), StatsEvent::Counted(Ok(n))) => self.goes_on_with(
                n,
                None,
                now,
                action,
            ),
            (StatsPhase::OpeningRepo, StatsEvent::Done(Err(e))) => {
                &&& now == over
                &&& action == StatsAction::<E>::Abort(e)
            },
            (StatsPhase::ReadingStatus, StatsEvent::Done(Err(e))) => {
                &&& now == over
                &&& action == StatsAction::<E>::Abort(e)
            },
            (StatsPhase::ListingFiles, StatsEvent::Files(Err(e))) => {
                &&& now == over
                &&& action == StatsAction::<E>::Abort(e)
            },
            (StatsPhase::CountingFiles(_), StatsEvent::Counted(Err(e))) => {
                &&& now == over
                &&& action == StatsAction::<E>::Abort(e)
            },
            _ => now == self && action == StatsAction::<E>::Refuse,
        }
    }
}

fn stat_steps(groups: &Vec<StepGroup>, run_type: RunType) -> (r: Vec<StatStep>)
    ensures
        are_steps_of(r@, all_steps(groups@), run_type),
{
    let mut r: Vec<StatStep> = Vec::new();
    let mut g: usize = 0;
    while g < groups.len()
        invariant
            g <= groups@.len(),
            are_steps_of(r@, all_steps(groups@.take(g as int)), run_type),
        decreases groups@.len() - g,
    {
        let ghost before = all_steps(groups@.take(g as int));
        let steps = &groups[g].steps;
        let ghost all = before + steps.entries();
        proof {
            assert(groups@.take(g + 1).drop_last() =~= groups@.take(g as int));
            assert(groups@.take(g + 1).last() == groups@[g as int]);
        }
        let mut i: usize = 0;
        let n: usize = steps.len();
        while i < n
            invariant
                n == steps.entries().len(),
                i <= n,
                all == before + steps.entries(),
                r@.len() == before.len() + i,
                forall|k: int|
                    0 <= k < r@.len() ==> (#[trigger] r@[k]).name@ == all[k].0 && (r@[k].runnable
                        <==> all[k].1.script_for(run_type) is Some),
            decreases n - i,
        {
            assert(all[before.len() + i] == steps.entries()[i as int]);
            r.push(
                StatStep {
                    name: steps.key_at(i).clone(),
                    runnable: steps.value_at(i).has_command_for(run_type),
                },
            );
            i = i + 1;
        }
        g = g + 1;
    }
    assert(groups@.take(groups@.len() as int) =~= groups@);
    r
}

fn widest_name(rows: &Vec<StatRow>) -> (r: usize)
    ensures
        r == widest(rows@),
{
    let mut r: usize = 0;
    let mut i: usize = 0;
    while i < rows.len()
        invariant
            i <= rows@.len(),
            r == widest(rows@.take(i as int)),
        decreases rows@.len() - i,
    {
        let bytes: usize = rows[i].name.as_str().as_bytes().len();
        assert(rows@.take(i + 1).drop_last() =~= rows@.take(i as int));
        if r < bytes {
            r = bytes;
        }
        i = i + 1;
    }
    assert(rows@.take(rows@.len() as int) =~= rows@);
    r
}

impl StatRow {
    /// What is shown of a step that is skipped.
    pub open spec fn note_text(self) -> Option<Seq<char>> {
        match self.skip {
            Some(reason) => Some("(skipped: "@ + reason.message_text() + ")"@),
            None => None,
        }
    }

    /// What is shown of a step that is skipped.
    pub fn note(&self) -> (r: Option<String>)
        ensures
            opt_text(r) == self.note_text(),
    {
        match &self.skip {
            Some(reason) => Some(
                "(skipped: ".to_owned().concat(reason.message().as_str()).concat(")"),
            ),
            None => None,
        }
    }
}

impl StatsRun {
    /// Starts the statistics of a hook.
    pub fn start<E>(
        hook: &str,
        run_type: RunType,
        stash_method: StashMethod,
        groups: &Vec<StepGroup>,
        skip_steps: OrderedMap<SkipReason>,
    ) -> (r: (StatsRun, StatsAction<E>))
        ensures
            r.0.hook@ == hook@,
            r.0.run_type == run_type,
            r.0.stash_method == stash_method,
            are_steps_of(r.0.steps@, all_steps(groups@), run_type),
            r.0.skip_steps == skip_steps,
            r.0.phase == StatsPhase::OpeningRepo,
            r.0.rows@.len() == 0,
            r.0.well_formed(),
            r.1 == StatsAction::<E>::OpenRepo,
    {
        let run = StatsRun {
            hook: hook.to_owned(),
            run_type,
            stash_method,
            steps: stat_steps(groups, run_type),
            skip_steps,
            phase: StatsPhase::OpeningRepo,
            total: 0,
            rows: Vec::new(),
        };
        (run, StatsAction::OpenRepo)
    }

    fn enter<E>(self, phase: StatsPhase, action: StatsAction<E>) -> (r: (StatsRun, StatsAction<E>))
        ensures
            r.0 == self.in_phase(phase),
            r.1 == action,
    {
        let mut run = self;
        run.phase = phase;
        (run, action)
    }

    fn reason_for(&self, i: usize) -> (r: Option<SkipReason>)
        requires
            i < self.steps@.len(),
        ensures
            match self.settled(i as int) {
                Some(reason) => r matches Some(s) && s.same_as(reason),
                None => r is None,
            },
    {
        match self.skip_steps.get(self.steps[i].name.as_str()) {
            Some(reason) => Some(reason.copy()),
            None => {
                if self.steps[i].runnable {
                    None
                } else {
                    Some(SkipReason::NoCommandForRunType(self.run_type))
                }
            },
        }
    }

    /// Takes the statistics on by an event, and says what to do next.
    pub fn step<E>(self, event: StatsEvent<E>) -> (r: (StatsRun, StatsAction<E>))
        requires
            self.well_formed(),
        ensures
            self.follows(event, r.0, r.1),
            r.0.well_formed(),
            r.1 is PrintTable ==> r.0.rows@.len() == r.0.steps@.len(),
    {
        match (self.phase, event) {
            (StatsPhase::OpeningRepo, StatsEvent::Done(Ok(_))) => self.enter(
                StatsPhase::ReadingStatus,
                StatsAction::ReadStatus,
            ),
            (StatsPhase::ReadingStatus, StatsEvent::Done(Ok(_))) => self.enter(
                StatsPhase::ListingFiles,
                StatsAction::ListFiles,
            ),
            (StatsPhase::ListingFiles, StatsEvent::Files(Ok(total))) => {
                let title = "Statistics for hook: ".to_owned().concat(self.hook.as_str());
                let mode = match self.run_type {
                    RunType::Fix => "fix".to_owned(),
                    RunType::Check => "check".to_owned(),
                };
                let mut run = self;
                run.total = total;
                run.enter(
                    StatsPhase::PrintingHeader,
                    StatsAction::PrintHeader { title, total, mode },
                )
            },
            (StatsPhase::PrintingHeader, StatsEvent::Ack) => self.go_on(),
            (StatsPhase::AskingProfile(i), StatsEvent::Profile(Some(reason))) => self.go_on_with(
                i,
                0,
                Some(reason),
            ),
            (StatsPhase::AskingProfile(i), StatsEvent::Profile(None)) => self.enter(
                StatsPhase::CountingFiles(i),
                StatsAction::CountFiles(i),
            ),
            (StatsPhase::CountingFiles(i), StatsEvent::Counted(Ok(n))) => self.go_on_with(
                i,
                n,
                None,
            ),
            (StatsPhase::OpeningRepo, StatsEvent::Done(Err(e))) => self.enter(
                StatsPhase::Finished,
                StatsAction::Abort(e),
            ),
            (StatsPhase::ReadingStatus, StatsEvent::Done(Err(e))) => self.enter(
                StatsPhase::Finished,
                StatsAction::Abort(e),
            ),
            (StatsPhase::ListingFiles, StatsEvent::Files(Err(e))) => self.enter(
                StatsPhase::Finished,
                StatsAction::Abort(e),
            ),
            (StatsPhase::CountingFiles(_), StatsEvent::Counted(Err(e))) => self.enter(
                StatsPhase::Finished,
                StatsAction::Abort(e),
            ),
            _ => (self, StatsAction::Refuse),
        }
    }

    fn go_on<E>(self) -> (r: (StatsRun, StatsAction<E>))
        requires
            self.rows_are_right(),
        ensures
            self.goes_on(self.rows@.len() as int, r.0, r.1),
            self.rows@.len() <= r.0.rows@.len(),
            r.0.rows@.take(self.rows@.len() as int) == self.rows@,
            r.0.well_formed(),
    {
        let ghost from = self.rows@.len() as int;
        let mut run = self;
        let mut i: usize = run.rows.len();
        while i < run.steps.len()
            invariant_except_break
                from <= i <= run.steps@.len(),
                self.next_open(from) == self.next_open(i as int),
            invariant
                from <= i <= run.steps@.len(),
                from == self.rows@.len(),
                run == (StatsRun { rows: run.rows, ..self }),
                run.rows@.len() == i,
                run.rows@.take(from) == self.rows@,
                forall|k: int|
                    from <= k < i ==> is_row(
                        #[trigger] run.rows@[k],
                        self.steps@[k].name@,
                        0,
                        self.settled(k),
                    ),
            ensures
                i == self.next_open(from),
            decreases run.steps@.len() - i,
        {
            match run.reason_for(i) {
                Some(reason) => {
                    let name = run.steps[i].name.clone();
                    let ghost before = run.rows@;
                    run.rows.push(StatRow { name, count: 0, skip: Some(reason) });
                    assert(run.rows@.take(from) =~= before.take(from));
                    i = i + 1;
                },
                None => {
                    break;
                },
            }
        }
        let r = if i < run.steps.len() {
            run.enter(StatsPhase::AskingProfile(i), StatsAction::AskProfile(i))
        } else if i == 0 {
            let text = "No steps found in hook '".to_owned().concat(run.hook.as_str()).concat("'");
            run.enter(StatsPhase::Finished, StatsAction::PrintNothing(text))
        } else {
            let width = widest_name(&run.rows);
            run.enter(StatsPhase::Finished, StatsAction::PrintTable { width })
        };
        proof {
            self.lemma_same_steps(r.0, from);
            self.lemma_open(from);
            assert forall|k: int| 0 <= k < r.0.rows@.len() implies (#[trigger] r.0.rows@[k]).name@
                == r.0.steps@[k].name@ && (r.0.settled(k) is Some ==> is_row(
                r.0.rows@[k],
                r.0.steps@[k].name@,
                0,
                r.0.settled(k),
            )) by {
                if k < from {
                    assert(r.0.rows@.take(from)[k] == self.rows@[k]);
                }
            }
        }
        r
    }

    /// The first step of which someone else has to be asked is not settled.
    proof fn lemma_open(self, from: int)
        ensures
            self.next_open(from) < self.steps@.len() ==> self.settled(self.next_open(from)) is None,
        decreases self.steps@.len() - from,
    {
        if from < self.steps@.len() && self.settled(from) is Some {
            self.lemma_open(from + 1);
        }
    }

    fn go_on_with<E>(self, i: usize, count: usize, skip: Option<SkipReason>) -> (r: (
        StatsRun,
        StatsAction<E>,
    ))
        requires
            i == self.rows@.len(),
            i < self.steps@.len(),
            self.settled(i as int) is None,
            self.rows_are_right(),
        ensures
            self.goes_on_with(count, skip, r.0, r.1),
            r.0.well_formed(),
    {
        let mut run = self;
        let name = run.steps[i].name.clone();
        run.rows.push(StatRow { name, count, skip });
        let ghost middle = run;
        proof {
            self.lemma_same_steps(middle, i + 1);
            assert forall|k: int| 0 <= k < middle.rows@.len() implies (
            #[trigger] middle.rows@[k]).name@ == middle.steps@[k].name@ && (middle.settled(
                k,
            ) is Some ==> is_row(
                middle.rows@[k],
                middle.steps@[k].name@,
                0,
                middle.settled(k),
            )) by {
                if k < i {
                    assert(middle.rows@[k] == self.rows@[k]);
                }
            }
        }
        let r = run.go_on();
        proof {
            assert(middle.rows@.take(i as int) =~= self.rows@);
            assert(r.0.rows@.take(i as int) =~= r.0.rows@.take(i + 1).take(i as int));
            assert(r.0.rows@[i as int] == r.0.rows@.take(i + 1)[i as int]);
        }
        r
    }

    /// Which steps are settled depends neither on the rows nor on what is waited for.
    proof fn lemma_same_steps(self, other: StatsRun, from: int)
        requires
            other == (StatsRun { rows: other.rows, phase: other.phase, ..self }),
        ensures
            self.next_open(from) == other.next_open(from),
            forall|k: int| #[trigger] self.settled(k) == other.settled(k),
        decreases self.steps@.len() - from,
    {
        if from < self.steps@.len() && self.settled(from) is Some {
            assert(self.settled(from) == other.settled(from));
            self.lemma_same_steps(other, from + 1);
        }
    }
}

impl Hook {
    /// Starts the statistics of the hook under a name.
    pub fn stats<E>(
        &self,
        opts: &HookOptions,
        settings: &Settings,
        env: &Environment,
        groups: &Vec<StepGroup>,
        hook_name: &str,
    ) -> (r: (StatsRun, StatsAction<E>))
        ensures
            r.0.hook@ == hook_name@,
            r.0.run_type == self.mode(opts.fix, env.fix),
            r.0.stash_method == self.chosen_stash(opts.stash, env.stash),
            are_steps_of(r.0.steps@, all_steps(groups@), self.mode(opts.fix, env.fix)),
            ordered_map::keys(r.0.skip_steps.entries()) == ordered_map::firsts(
                text::texts(env.skip_steps@) + text::texts(settings.skip_steps@) + text::texts(
                    opts.skip_step@,
                ),
            ),
            skip::skip_reasons_right(
                r.0.skip_steps.entries(),
                text::texts(env.skip_steps@),
                text::texts(settings.skip_steps@),
                text::texts(opts.skip_step@),
            ),
            r.0.phase == StatsPhase::OpeningRepo,
            r.0.rows@.len() == 0,
            r.0.well_formed(),
            r.1 == StatsAction::<E>::OpenRepo,
    {
        let off = skip::skip_steps(&env.skip_steps, &settings.skip_steps, &opts.skip_step);
        StatsRun::start(
            hook_name,
            self.run_type(opts.fix, env.fix),
            self.stash_method(opts.stash, env.stash),
            groups,
            off,
        )
    }
}

} // verus!
