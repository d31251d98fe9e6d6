//! The scrape engine: one batch of URLs under a bound on fetches in flight.
//!
//! A `Batch` decides; it never waits. Its driver asks for the next command,
//! carries it out (starts a fetch, starts a pause), and reports back each
//! fetch outcome and each elapsed pause as an event. A fetch holds one of the
//! admission slots from the `Fetch` command until its outcome is handled; a
//! pause before a retry holds none.

use vstd::prelude::*;
use crate::config::{ConfigError, ScraperConfig};
use crate::report::BatchReport;
use crate::result::{ScrapeResult, ScrapeResultView};
use crate::task::{FetchOutcome, FetchOutcomeView, Step, StepView, Task, TaskPhase, TaskView};

verus! {

/// What the driver is to do next.
#[derive(Debug)]
pub enum Command {
    /// Start a fetch of `url` for task `task`, allowing it `timeout_ms`.
    Fetch { task: usize, url: String, timeout_ms: u64 },
    /// Start a pause of `delay_ms` for task `task`.
    Sleep { task: usize, delay_ms: u64 },
    /// Nothing can start now: wait for a fetch or a pause to end.
    Wait,
    /// Every task has its record.
    Finished,
}

/// What the driver reports back.
#[derive(Debug)]
pub enum Event {
    /// The fetch of task `task` came to `outcome`.
    Fetched { task: usize, outcome: FetchOutcome },
    /// The pause of task `task` is over.
    DelayElapsed { task: usize },
}

/// A list of tasks seen as a sequence of their views.
pub open spec fn tasks_view(v: Seq<Task>) -> Seq<TaskView> {
    v.map_values(|t: Task| t@)
}

/// A list of optional records seen as a sequence of optional views.
pub open spec fn slots_view(v: Seq<Option<ScrapeResult>>) -> Seq<Option<ScrapeResultView>> {
    v.map_values(
        |o: Option<ScrapeResult>|
            match o {
                Some(r) => Some(r@),
                None => None,
            },
    )
}

/// How many of `tasks` are in `phase`.
pub open spec fn count_in(tasks: Seq<TaskView>, phase: TaskPhase) -> nat
    decreases tasks.len(),
{
    if tasks.len() == 0 {
        0
    } else {
        count_in(tasks.drop_last(), phase) + if tasks.last().phase == phase {
            1nat
        } else {
            0nat
        }
    }
}

/// No task is in `phase`.
pub open spec fn none_in(tasks: Seq<TaskView>, phase: TaskPhase) -> bool {
    forall|j: int| 0 <= j < tasks.len() ==> (#[trigger] tasks[j]).phase != phase
}

/// Task `i` is the first one in `phase`.
pub open spec fn first_in(tasks: Seq<TaskView>, phase: TaskPhase, i: int) -> bool {
    &&& 0 <= i < tasks.len()
    &&& tasks[i].phase == phase
    &&& forall|j: int| 0 <= j < i ==> (#[trigger] tasks[j]).phase != phase
}

/// Where no task is in `phase` the count is zero, and the other way round.
pub proof fn lemma_count_zero(tasks: Seq<TaskView>, phase: TaskPhase)
    ensures
        count_in(tasks, phase) == 0 <==> none_in(tasks, phase),
    decreases tasks.len(),
{
    if tasks.len() > 0 {
        let rest = tasks.drop_last();
        lemma_count_zero(rest, phase);
        if count_in(tasks, phase) == 0 {
            assert forall|j: int| 0 <= j < tasks.len() implies (#[trigger] tasks[j]).phase != phase by {
                if j < rest.len() {
                    assert(rest[j] == tasks[j]);
                }
            }
        }
        if none_in(tasks, phase) {
            assert forall|j: int| 0 <= j < rest.len() implies (#[trigger] rest[j]).phase != phase by {
                assert(rest[j] == tasks[j]);
            }
            assert(tasks.last() == tasks[tasks.len() - 1]);
        }
    }
}

/// Replacing one task moves the count by what that task left and entered.
pub proof fn lemma_count_update(tasks: Seq<TaskView>, phase: TaskPhase, i: int, t: TaskView)
    requires
        0 <= i < tasks.len(),
    ensures
        count_in(tasks.update(i, t), phase) + (if tasks[i].phase == phase {
            1nat
        } else {
            0nat
        }) == count_in(tasks, phase) + (if t.phase == phase {
            1nat
        } else {
            0nat
        }),
    decreases tasks.len(),
{
    let after = tasks.update(i, t);
    if i == tasks.len() - 1 {
        assert(after.drop_last() =~= tasks.drop_last());
    } else {
        assert(after.drop_last() =~= tasks.drop_last().update(i, t));
        lemma_count_update(tasks.drop_last(), phase, i, t);
    }
}

/// `Batch` over sequences.
pub struct BatchView {
    pub config: ScraperConfig,
    /// One task per URL, in the order the URLs were given.
    pub tasks: Seq<TaskView>,
    /// The record of each finished task, at the task's place.
    pub results: Seq<Option<ScrapeResultView>>,
    /// Admission slots taken.
    pub in_flight: nat,
}

impl BatchView {
    /// The URLs of the batch, in the order given.
    pub open spec fn urls(self) -> Seq<Seq<char>> {
        self.tasks.map_values(|t: TaskView| t.url)
    }

    /// What holds of every batch, at every moment.
    pub open spec fn wf(self) -> bool {
        &&& self.config.is_valid()
        &&& self.results.len() == self.tasks.len()
        &&& self.in_flight == count_in(self.tasks, TaskPhase::Fetching)
        &&& self.in_flight <= self.config.concurrency_limit
        &&& forall|i: int|
            0 <= i < self.tasks.len() ==> (#[trigger] self.tasks[i]).attempt <= self.config.max_retries
        &&& forall|i: int|
            0 <= i < self.tasks.len() ==> ((#[trigger] self.tasks[i]).phase == TaskPhase::Done
                <==> self.results[i] is Some)
        &&& forall|i: int|
            0 <= i < self.tasks.len() && (#[trigger] self.results[i]) is Some ==> {
                &&& self.results[i]->0.url == self.tasks[i].url
                &&& self.results[i]->0.wf()
            }
    }

    /// Every task has its record.
    pub open spec fn finished(self) -> bool {
        forall|i: int| 0 <= i < self.tasks.len() ==> (#[trigger] self.tasks[i]).phase == TaskPhase::Done
    }

    /// A batch of fresh tasks, one per URL.
    pub open spec fn fresh(urls: Seq<Seq<char>>, config: ScraperConfig) -> BatchView {
        BatchView {
            config,
            tasks: urls.map_values(|u: Seq<char>| TaskView::fresh(u)),
            results: Seq::new(urls.len(), |i: int| None),
            in_flight: 0,
        }
    }

    /// Task `i` moves to `phase`; nothing else changes.
    pub open spec fn with_phase(self, i: int, phase: TaskPhase) -> BatchView {
        BatchView { tasks: self.tasks.update(i, self.tasks[i].in_phase(phase)), ..self }
    }

    /// Task `i` is admitted: it takes a slot and starts fetching.
    pub open spec fn grant(self, i: int) -> BatchView {
        BatchView { in_flight: self.in_flight + 1, ..self.with_phase(i, TaskPhase::Fetching) }
    }

    /// The fetch of task `i` came to `outcome`: its slot is free again, and
    /// the task is done, with its record in place, or owes a pause.
    pub open spec fn settle(self, i: int, outcome: FetchOutcomeView) -> BatchView {
        let (task, step) = self.tasks[i].after_fetch(self.config.max_retries, outcome);
        BatchView {
            config: self.config,
            tasks: self.tasks.update(i, task),
            results: match step {
                StepView::Finished(r) => self.results.update(i, Some(r)),
                _ => self.results,
            },
            in_flight: (self.in_flight - 1) as nat,
        }
    }
}

/// One batch on its way: the tasks, the records so far, and the slots taken.
#[derive(Debug)]
pub struct Batch {
    config: ScraperConfig,
    tasks: Vec<Task>,
    results: Vec<Option<ScrapeResult>>,
    in_flight: usize,
}

impl View for Batch {
    type V = BatchView;

    closed spec fn view(&self) -> BatchView {
        BatchView {
            config: self.config,
            tasks: tasks_view(self.tasks@),
            results: slots_view(self.results@),
            in_flight: self.in_flight as nat,
        }
    }
}

impl Batch {
    /// Sets up a batch for `urls`, each URL a task of its own, duplicates
    /// too. A configuration that is not valid is refused before any task
    /// exists.
    pub fn new(urls: Vec<String>, config: ScraperConfig) -> (r: Result<Batch, ConfigError>)
        ensures
            r is Ok <==> config.is_valid(),
            r is Err ==> r->Err_0 == ConfigError::ZeroConcurrency,
            r is Ok ==> r->Ok_0@ == BatchView::fresh(urls@.map_values(|u: String| u@), config),
            r is Ok ==> r->Ok_0@.wf(),
    {
        match config.validate() {
            Err(e) => {
                return Err(e);
            },
            Ok(_) => {},
        }
        let ghost want = BatchView::fresh(urls@.map_values(|u: String| u@), config);
        let n: usize = urls.len();
        let mut tasks: Vec<Task> = Vec::new();
        let mut results: Vec<Option<ScrapeResult>> = Vec::new();
        let mut i: usize = 0;
        while i < n
            invariant
                i <= n,
                n == urls@.len(),
                tasks@.len() == i,
                results@.len() == i,
                forall|j: int| 0 <= j < i ==> (#[trigger] tasks@[j])@ == TaskView::fresh(urls@[j]@),
                forall|j: int| 0 <= j < i ==> (#[trigger] results@[j]) is None,
            decreases n - i,
        {
            tasks.push(Task::new(urls[i].clone()));
            results.push(None);
            i += 1;
        }
        let batch = Batch { config, tasks, results, in_flight: 0 };
        proof {
            assert(batch@.tasks =~= want.tasks);
            assert(batch@.results =~= want.results);
            assert(none_in(batch@.tasks, TaskPhase::Fetching));
            lemma_count_zero(batch@.tasks, TaskPhase::Fetching);
        }
        Ok(batch)
    }

    /// The configuration of the batch.
    pub fn config(&self) -> (c: ScraperConfig)
        ensures
            c == self@.config,
    {
        self.config
    }

    /// How many URLs the batch has.
    pub fn len(&self) -> (n: usize)
        ensures
            n == self@.tasks.len(),
    {
        self.tasks.len()
    }

    /// How many fetches are in flight: never more than the limit.
    pub fn in_flight(&self) -> (n: usize)
        requires
            self@.wf(),
        ensures
            n == count_in(self@.tasks, TaskPhase::Fetching),
            n <= self@.config.concurrency_limit,
    {
        self.in_flight
    }

    /// Where task `task` stands, if there is such a task.
    pub fn phase_of(&self, task: usize) -> (p: Option<TaskPhase>)
        ensures
            p is Some <==> task < self@.tasks.len(),
            p is Some ==> p->0 == self@.tasks[task as int].phase,
    {
        if task < self.tasks.len() {
            Some(self.tasks[task].phase())
        } else {
            None
        }
    }

    /// How many fetches have been started for task `task`, if there is such
    /// a task: never more than one more than the retries allowed.
    pub fn fetches_started(&self, task: usize) -> (k: Option<u64>)
        requires
            self@.wf(),
        ensures
            k is Some <==> task < self@.tasks.len(),
            k is Some ==> k->0 == self@.tasks[task as int].fetches_started(),
            k is Some ==> k->0 <= self@.config.max_retries + 1,
    {
        if task < self.tasks.len() {
            let attempt: u64 = self.tasks[task].attempt() as u64;
            match self.tasks[task].phase() {
                TaskPhase::Fetching | TaskPhase::Done => Some(attempt + 1),
                _ => Some(attempt),
            }
        } else {
            None
        }
    }

    /// The first task in `phase`, if any.
    fn find_phase(&self, phase: TaskPhase) -> (r: Option<usize>)
        ensures
            match r {
                Some(i) => first_in(self@.tasks, phase, i as int),
                None => none_in(self@.tasks, phase),
            },
    {
        let n: usize = self.tasks.len();
        let mut i: usize = 0;
        while i < n
            invariant
                i <= n,
                n == self.tasks@.len(),
                forall|j: int| 0 <= j < i ==> (#[trigger] self@.tasks[j]).phase != phase,
            decreases n - i,
        {
            if self.tasks[i].phase() == phase {
                return Some(i);
            }
            i += 1;
        }
        None
    }

    /// Whether every task has its record.
    pub fn is_finished(&self) -> (r: bool)
        ensures
            r == self@.finished(),
    {
        let n: usize = self.tasks.len();
        let mut i: usize = 0;
        while i < n
            invariant
                i <= n,
                n == self.tasks@.len(),
                forall|j: int| 0 <= j < i ==> (#[trigger] self@.tasks[j]).phase == TaskPhase::Done,
            decreases n - i,
        {
            if self.tasks[i].phase() != TaskPhase::Done {
                assert(self@.tasks[i as int].phase != TaskPhase::Done);
                return false;
            }
            i += 1;
        }
        true
    }

    /// Decides what the driver is to do next.
    ///
    /// A task that owes a pause is told to sleep, the first such task first.
    /// Failing that, and while a slot is free, the first ready task is
    /// granted the slot and its fetch is ordered. Failing that, the answer
    /// is `Finished` where every task is done and `Wait` otherwise; with
    /// `Wait`, some fetch or pause is still running.
    pub fn next_command(&mut self) -> (cmd: Command)
        requires
            old(self)@.wf(),
        ensures
            final(self)@.wf(),
            final(self)@.urls() == old(self)@.urls(),
            match cmd {
                Command::Sleep { task, delay_ms } => {
                    &&& first_in(old(self)@.tasks, TaskPhase::RetryDue, task as int)
                    &&& delay_ms == old(self)@.config.retry_delay_ms
                    &&& final(self)@ == old(self)@.with_phase(task as int, TaskPhase::Sleeping)
                },
                Command::Fetch { task, url, timeout_ms } => {
                    &&& none_in(old(self)@.tasks, TaskPhase::RetryDue)
                    &&& old(self)@.in_flight < old(self)@.config.concurrency_limit
                    &&& first_in(old(self)@.tasks, TaskPhase::Ready, task as int)
                    &&& url@ == old(self)@.tasks[task as int].url
                    &&& timeout_ms == old(self)@.config.timeout_ms
                    &&& final(self)@ == old(self)@.grant(task as int)
                },
                Command::Wait => {
                    &&& none_in(old(self)@.tasks, TaskPhase::RetryDue)
                    &&& old(self)@.in_flight == old(self)@.config.concurrency_limit || none_in(
                        old(self)@.tasks,
                        TaskPhase::Ready,
                    )
                    &&& !old(self)@.finished()
                    &&& exists|i: int|
                        0 <= i < old(self)@.tasks.len() && ((#[trigger] old(self)@.tasks[i]).phase
                            == TaskPhase::Fetching || old(self)@.tasks[i].phase == TaskPhase::Sleeping)
                    &&& final(self)@ == old(self)@
                },
                Command::Finished => {
                    &&& old(self)@.finished()
                    &&& final(self)@ == old(self)@
                },
            },
    {
        let ghost before = self@;
        match self.find_phase(TaskPhase::RetryDue) {
            Some(i) => {
                self.tasks[i].begin_delay();
                proof {
                    let after = before.with_phase(i as int, TaskPhase::Sleeping);
                    assert(self@.tasks =~= after.tasks);
                    lemma_count_update(
                        before.tasks,
                        TaskPhase::Fetching,
                        i as int,
                        before.tasks[i as int].in_phase(TaskPhase::Sleeping),
                    );
                    assert(self@.urls() =~= before.urls());
                }
                return Command::Sleep { task: i, delay_ms: self.config.retry_delay_ms };
            },
            None => {},
        }
        if self.in_flight < self.config.concurrency_limit {
            match self.find_phase(TaskPhase::Ready) {
                Some(i) => {
                    let url = self.tasks[i].url().clone();
                    self.tasks[i].begin_fetch();
                    self.in_flight = self.in_flight + 1;
                    proof {
                        let after = before.grant(i as int);
                        assert(self@.tasks =~= after.tasks);
                        lemma_count_update(
                            before.tasks,
                            TaskPhase::Fetching,
                            i as int,
                            before.tasks[i as int].in_phase(TaskPhase::Fetching),
                        );
                        assert(self@.urls() =~= before.urls());
                    }
                    return Command::Fetch { task: i, url, timeout_ms: self.config.timeout_ms };
                },
                None => {},
            }
        }
        if self.is_finished() {
            Command::Finished
        } else {
            proof {
                let i = choose|i: int|
                    0 <= i < before.tasks.len() && (#[trigger] before.tasks[i]).phase != TaskPhase::Done;
                if before.in_flight == before.config.concurrency_limit {
                    lemma_count_zero(before.tasks, TaskPhase::Fetching);
                    let j = choose|j: int|
                        0 <= j < before.tasks.len() && (#[trigger] before.tasks[j]).phase
                            == TaskPhase::Fetching;
                    assert(before.tasks[j].phase == TaskPhase::Fetching);
                } else {
                    assert(before.tasks[i].phase == TaskPhase::Fetching || before.tasks[i].phase
                        == TaskPhase::Sleeping);
                }
            }
            Command::Wait
        }
    }

    /// Takes in what the driver reports.
    ///
    /// A fetch outcome for a task that is fetching frees the task's slot and
    /// either finishes the task, with its record, or leaves it owing a pause.
    /// The end of a pause for a task that is sleeping makes the task ready.
    /// Any other event changes nothing and is answered with `false`.
    pub fn handle(&mut self, event: Event) -> (accepted: bool)
        requires
            old(self)@.wf(),
        ensures
            final(self)@.wf(),
            final(self)@.urls() == old(self)@.urls(),
            match event {
                Event::Fetched { task, outcome } => {
                    &&& accepted == (task < old(self)@.tasks.len() && old(self)@.tasks[task as int].phase
                        == TaskPhase::Fetching)
                    &&& final(self)@ == if accepted {
                        old(self)@.settle(task as int, outcome@)
                    } else {
                        old(self)@
                    }
                },
                Event::DelayElapsed { task } => {
                    &&& accepted == (task < old(self)@.tasks.len() && old(self)@.tasks[task as int].phase
                        == TaskPhase::Sleeping)
                    &&& final(self)@ == if accepted {
                        old(self)@.with_phase(task as int, TaskPhase::Ready)
                    } else {
                        old(self)@
                    }
                },
            },
    {
        let ghost before = self@;
        match event {
            Event::Fetched { task, outcome } => {
                if task >= self.tasks.len() {
                    return false;
                }
                if self.tasks[task].phase() != TaskPhase::Fetching {
                    return false;
                }
                let ghost seen = outcome@;
                proof {
                    lemma_count_zero(before.tasks, TaskPhase::Fetching);
                    assert(before.tasks[task as int].phase == TaskPhase::Fetching);
                }
                let step = self.tasks[task].on_fetched(self.config.max_retries, outcome);
                self.in_flight = self.in_flight - 1;
                match step {
                    Step::Finished(record) => {
                        self.results[task] = Some(record);
                    },
                    _ => {},
                }
                proof {
                    let after = before.settle(task as int, seen);
                    assert(self@.tasks =~= after.tasks);
                    assert(self@.results =~= after.results);
                    lemma_count_update(before.tasks, TaskPhase::Fetching, task as int, after.tasks[task as int]);
                    assert(self@.urls() =~= before.urls());
                }
                true
            },
            Event::DelayElapsed { task } => {
                if task >= self.tasks.len() {
                    return false;
                }
                let moved = self.tasks[task].end_delay();
                proof {
                    if moved {
                        let after = before.with_phase(task as int, TaskPhase::Ready);
                        assert(self@.tasks =~= after.tasks);
                        lemma_count_update(before.tasks, TaskPhase::Fetching, task as int, after.tasks[task as int]);
                    } else {
                        assert(self@.tasks =~= before.tasks);
                    }
                    assert(self@.urls() =~= before.urls());
                }
                moved
            },
        }
    }

    /// Hands over the report once every task is done: one record per URL, at
    /// the URL's place. A batch that is not finished gives none.
    pub fn into_report(self) -> (r: Option<BatchReport>)
        requires
            self@.wf(),
        ensures
            r is Some <==> self@.finished(),
            r is Some ==> r->0@.len() == self@.urls().len(),
            r is Some ==> forall|i: int|
                0 <= i < self@.tasks.len() ==> self@.results[i] == Some(#[trigger] r->0@[i]),
            r is Some ==> forall|i: int|
                0 <= i < self@.tasks.len() ==> (#[trigger] r->0@[i]).url == self@.urls()[i],
    {
        if !self.is_finished() {
            return None;
        }
        let ghost slots = self@.results;
        proof {
            assert forall|j: int| 0 <= j < slots.len() implies (#[trigger] slots[j]) is Some by {
                assert(self@.tasks[j].phase == TaskPhase::Done);
            }
            assert(self@.urls().len() == self@.tasks.len());
        }
        let mut results = self.results;
        let n: usize = results.len();
        let mut out: Vec<ScrapeResult> = Vec::new();
        let mut i: usize = 0;
        while i < n
            invariant
                i <= n,
                n == results@.len(),
                n == slots.len(),
                out@.len() == i,
                forall|j: int| 0 <= j < n ==> (#[trigger] slots[j]) is Some,
                forall|j: int| i <= j < n ==> (#[trigger] slots_view(results@)[j]) == slots[j],
                forall|j: int| 0 <= j < i ==> Some((#[trigger] out@[j])@) == slots[j],
            decreases n - i,
        {
            assert(slots_view(results@)[i as int] == slots[i as int]);
            let ghost held = results@;
            let record = results[i].take();
            assert(results@ =~= held.update(i as int, None));
            assert forall|j: int| i + 1 <= j < n implies (#[trigger] slots_view(results@)[j]) == slots[j] by {
                assert(slots_view(held)[j] == slots[j]);
            }
            out.push(record.unwrap());
            i += 1;
        }
        let report = BatchReport::from_results(out);
        Some(report)
    }
}

/// At every moment the fetches in flight are the tasks that are fetching, and
/// they are no more than the limit.
pub proof fn lemma_in_flight_bounded(b: BatchView)
    requires
        b.wf(),
    ensures
        b.in_flight == count_in(b.tasks, TaskPhase::Fetching),
        count_in(b.tasks, TaskPhase::Fetching) <= b.config.concurrency_limit,
{
}

/// A batch set up for `urls` has those URLs, in that order, and nothing in
/// flight; with no URLs it is finished before any fetch could be ordered.
pub proof fn lemma_fresh_batch(urls: Seq<Seq<char>>, config: ScraperConfig)
    requires
        config.is_valid(),
    ensures
        BatchView::fresh(urls, config).wf(),
        BatchView::fresh(urls, config).urls() == urls,
        BatchView::fresh(urls, config).in_flight == 0,
        urls.len() == 0 ==> BatchView::fresh(urls, config).finished(),
        urls.len() == 0 ==> forall|i: int| !first_in(BatchView::fresh(urls, config).tasks, TaskPhase::Ready, i),
{
    let b = BatchView::fresh(urls, config);
    assert(b.urls() =~= urls);
    assert(none_in(b.tasks, TaskPhase::Fetching));
    lemma_count_zero(b.tasks, TaskPhase::Fetching);
}

/// How many steps a task can still take: each start of a fetch, each outcome,
/// each start and each end of a pause takes at least one off.
pub open spec fn steps_left(task: TaskView, max_retries: u32) -> nat {
    let retries = (max_retries - task.attempt) as nat;
    match task.phase {
        TaskPhase::RetryDue => 4 * retries + 4,
        TaskPhase::Sleeping => 4 * retries + 3,
        TaskPhase::Ready => 4 * retries + 2,
        TaskPhase::Fetching => 4 * retries + 1,
        TaskPhase::Done => 0,
    }
}

/// The steps that all of `tasks` can still take together.
pub open spec fn total_steps_left(tasks: Seq<TaskView>, max_retries: u32) -> nat
    decreases tasks.len(),
{
    if tasks.len() == 0 {
        0
    } else {
        total_steps_left(tasks.drop_last(), max_retries) + steps_left(tasks.last(), max_retries)
    }
}

/// Replacing one task moves the total by the difference between the two.
pub proof fn lemma_total_update(tasks: Seq<TaskView>, max_retries: u32, i: int, t: TaskView)
    requires
        0 <= i < tasks.len(),
    ensures
        total_steps_left(tasks.update(i, t), max_retries) + steps_left(tasks[i], max_retries)
            == total_steps_left(tasks, max_retries) + steps_left(t, max_retries),
    decreases tasks.len(),
{
    let after = tasks.update(i, t);
    if i == tasks.len() - 1 {
        assert(after.drop_last() =~= tasks.drop_last());
    } else {
        assert(after.drop_last() =~= tasks.drop_last().update(i, t));
        lemma_total_update(tasks.drop_last(), max_retries, i, t);
    }
}

impl BatchView {
    /// The steps that the batch can still take.
    pub open spec fn steps_left(self) -> nat {
        total_steps_left(self.tasks, self.config.max_retries)
    }
}

/// Every command but `Wait` and `Finished`, and every event that is taken
/// in, brings the batch nearer to its end: a batch whose driver reports each
/// outcome and each elapsed pause finishes after a bounded number of steps,
/// so that no task waits for a slot for ever.
pub proof fn lemma_progress(b: BatchView, i: int, outcome: FetchOutcomeView)
    requires
        b.wf(),
        0 <= i < b.tasks.len(),
    ensures
        b.tasks[i].phase == TaskPhase::RetryDue ==> b.with_phase(i, TaskPhase::Sleeping).steps_left()
            < b.steps_left(),
        b.tasks[i].phase == TaskPhase::Sleeping ==> b.with_phase(i, TaskPhase::Ready).steps_left()
            < b.steps_left(),
        b.tasks[i].phase == TaskPhase::Ready ==> b.grant(i).steps_left() < b.steps_left(),
        b.tasks[i].phase == TaskPhase::Fetching ==> b.settle(i, outcome).steps_left() < b.steps_left(),
{
    let m = b.config.max_retries;
    lemma_total_update(b.tasks, m, i, b.tasks[i].in_phase(TaskPhase::Sleeping));
    lemma_total_update(b.tasks, m, i, b.tasks[i].in_phase(TaskPhase::Ready));
    lemma_total_update(b.tasks, m, i, b.tasks[i].in_phase(TaskPhase::Fetching));
    lemma_total_update(b.tasks, m, i, b.tasks[i].after_fetch(m, outcome).0);
}

} // verus!
