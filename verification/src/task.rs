//! The life of one URL: attempt, then finish or wait and try again.
//!
//! A task never performs a fetch or a pause itself. It is told what happened
//! and answers with what it has become, so that the whole rule of retrying is
//! a function from state and event to state.

use vstd::prelude::*;
use crate::extract::{extract_fields, parseable, spec_extract_fields, spec_parseable};
use crate::result::{ScrapeResult, ScrapeResultView};

verus! {

/// A failed attempt is tried again while fewer than `max_retries` retries
/// have been made.
pub open spec fn spec_should_retry(attempt: u32, max_retries: u32) -> bool {
    attempt < max_retries
}

/// The retry rule: `attempt` counts the retries made so far.
pub fn should_retry(attempt: u32, max_retries: u32) -> (r: bool)
    ensures
        r == spec_should_retry(attempt, max_retries),
{
    attempt < max_retries
}

/// What one fetch attempt came to.
#[derive(Debug)]
pub enum FetchOutcome {
    /// A response arrived, whatever its status.
    Response { status_code: u16, body: String, elapsed_ms: u128 },
    /// No response: the connection failed, the attempt timed out, or the
    /// answer could not be read.
    Failed { cause: String, elapsed_ms: u128 },
}

/// `FetchOutcome` over character sequences.
pub enum FetchOutcomeView {
    Response { status_code: u16, body: Seq<char>, elapsed_ms: u128 },
    Failed { cause: Seq<char>, elapsed_ms: u128 },
}

impl View for FetchOutcome {
    type V = FetchOutcomeView;

    open spec fn view(&self) -> FetchOutcomeView {
        match *self {
            FetchOutcome::Response { status_code, body, elapsed_ms } => FetchOutcomeView::Response {
                status_code,
                body: body@,
                elapsed_ms,
            },
            FetchOutcome::Failed { cause, elapsed_ms } => FetchOutcomeView::Failed {
                cause: cause@,
                elapsed_ms,
            },
        }
    }
}

/// The cause given for a response whose body is too large to be parsed.
pub open spec fn oversize_cause() -> Seq<char> {
    "response body too large to parse"@
}

impl FetchOutcomeView {
    /// Whether the attempt counts as failed: no response came, or one whose
    /// body is too large to be parsed.
    pub open spec fn failed(self) -> bool {
        match self {
            FetchOutcomeView::Response { body, .. } => !spec_parseable(body),
            FetchOutcomeView::Failed { .. } => true,
        }
    }

    /// How long the attempt took, in milliseconds.
    pub open spec fn elapsed(self) -> u128 {
        match self {
            FetchOutcomeView::Response { elapsed_ms, .. } => elapsed_ms,
            FetchOutcomeView::Failed { elapsed_ms, .. } => elapsed_ms,
        }
    }

    /// Why the attempt counts as failed, where it does.
    pub open spec fn cause(self) -> Seq<char> {
        match self {
            FetchOutcomeView::Response { .. } => oversize_cause(),
            FetchOutcomeView::Failed { cause, .. } => cause,
        }
    }
}

/// Where a task stands.
#[derive(Debug, Clone, Copy, PartialEq, Eq, Structural)]
pub enum TaskPhase {
    /// Waiting to be admitted for its next fetch.
    Ready,
    /// A fetch is in flight.
    Fetching,
    /// The last fetch failed and a pause is owed before the next.
    RetryDue,
    /// The pause before a retry is running.
    Sleeping,
    /// The terminal record has been produced.
    Done,
}

/// One URL on its way to a terminal record.
#[derive(Debug)]
pub struct Task {
    url: String,
    attempt: u32,
    phase: TaskPhase,
}

/// `Task` over character sequences.
pub struct TaskView {
    pub url: Seq<char>,
    /// Retries made so far.
    pub attempt: u32,
    pub phase: TaskPhase,
}

impl View for Task {
    type V = TaskView;

    closed spec fn view(&self) -> TaskView {
        TaskView { url: self.url@, attempt: self.attempt, phase: self.phase }
    }
}

/// What a task answers when it is told of a fetch outcome.
#[derive(Debug)]
pub enum Step {
    /// The task was not fetching: nothing changed.
    Ignored,
    /// The attempt failed and another is due after the pause.
    Retry,
    /// The task is done, with this record.
    Finished(ScrapeResult),
}

/// `Step` over character sequences.
pub enum StepView {
    Ignored,
    Retry,
    Finished(ScrapeResultView),
}

impl View for Step {
    type V = StepView;

    open spec fn view(&self) -> StepView {
        match *self {
            Step::Ignored => StepView::Ignored,
            Step::Retry => StepView::Retry,
            Step::Finished(r) => StepView::Finished(r@),
        }
    }
}

impl TaskView {
    /// A fresh task: no retries made, waiting for its first fetch.
    pub open spec fn fresh(url: Seq<char>) -> TaskView {
        TaskView { url, attempt: 0, phase: TaskPhase::Ready }
    }

    /// The same task in another phase.
    pub open spec fn in_phase(self, phase: TaskPhase) -> TaskView {
        TaskView { phase, ..self }
    }

    /// How many fetches have been started for the task.
    pub open spec fn fetches_started(self) -> nat {
        match self.phase {
            TaskPhase::Ready | TaskPhase::RetryDue | TaskPhase::Sleeping => self.attempt as nat,
            TaskPhase::Fetching | TaskPhase::Done => (self.attempt + 1) as nat,
        }
    }

    /// A fetching task after an attempt that counts as failed: another
    /// attempt is due while retries are left; otherwise the task is done, with
    /// a record that names the cause and the time of the attempt.
    pub open spec fn after_failure(self, max_retries: u32, cause: Seq<char>, elapsed_ms: u128) -> (
        TaskView,
        StepView,
    ) {
        if spec_should_retry(self.attempt, max_retries) {
            (
                TaskView { url: self.url, attempt: (self.attempt + 1) as u32, phase: TaskPhase::RetryDue },
                StepView::Retry,
            )
        } else {
            (
                self.in_phase(TaskPhase::Done),
                StepView::Finished(ScrapeResultView::failure(self.url, elapsed_ms, cause)),
            )
        }
    }

    /// The task after it has been told of `outcome`, and its answer. A
    /// response whose body can be parsed finishes the task, whatever its
    /// status. No response, or a response whose body is too large to be
    /// parsed, is a failed attempt.
    pub open spec fn after_fetch(self, max_retries: u32, outcome: FetchOutcomeView) -> (TaskView, StepView) {
        if self.phase != TaskPhase::Fetching {
            (self, StepView::Ignored)
        } else {
            match outcome {
                FetchOutcomeView::Response { status_code, body, elapsed_ms } => if spec_parseable(body) {
                    (
                        self.in_phase(TaskPhase::Done),
                        StepView::Finished(
                            ScrapeResultView::success(
                                self.url,
                                status_code,
                                elapsed_ms,
                                spec_extract_fields(body),
                            ),
                        ),
                    )
                } else {
                    self.after_failure(max_retries, oversize_cause(), elapsed_ms)
                },
                FetchOutcomeView::Failed { cause, elapsed_ms } => self.after_failure(
                    max_retries,
                    cause,
                    elapsed_ms,
                ),
            }
        }
    }
}

impl Task {
    /// A task for `url`, waiting for its first fetch.
    pub fn new(url: String) -> (t: Task)
        ensures
            t@ == TaskView::fresh(url@),
    {
        Task { url, attempt: 0, phase: TaskPhase::Ready }
    }

    /// The URL of the task.
    pub fn url(&self) -> (u: &String)
        ensures
            u@ == self@.url,
    {
        &self.url
    }

    /// Retries made so far.
    pub fn attempt(&self) -> (a: u32)
        ensures
            a == self@.attempt,
    {
        self.attempt
    }

    /// Where the task stands.
    pub fn phase(&self) -> (p: TaskPhase)
        ensures
            p == self@.phase,
    {
        self.phase
    }

    /// Moves a task from `from` to `to`; a task in another phase stays as it
    /// is. Returns whether it moved.
    fn advance(&mut self, from: TaskPhase, to: TaskPhase) -> (moved: bool)
        ensures
            moved == (old(self)@.phase == from),
            final(self)@ == if moved { old(self)@.in_phase(to) } else { old(self)@ },
    {
        if self.phase == from {
            self.phase = to;
            true
        } else {
            false
        }
    }

    /// A ready task starts fetching; any other task stays as it is. Returns
    /// whether the task was ready.
    pub fn begin_fetch(&mut self) -> (moved: bool)
        ensures
            moved == (old(self)@.phase == TaskPhase::Ready),
            final(self)@ == if moved { old(self)@.in_phase(TaskPhase::Fetching) } else { old(self)@ },
    {
        self.advance(TaskPhase::Ready, TaskPhase::Fetching)
    }

    /// A task that owes a pause starts it; any other task stays as it is.
    /// Returns whether the task owed a pause.
    pub fn begin_delay(&mut self) -> (moved: bool)
        ensures
            moved == (old(self)@.phase == TaskPhase::RetryDue),
            final(self)@ == if moved { old(self)@.in_phase(TaskPhase::Sleeping) } else { old(self)@ },
    {
        self.advance(TaskPhase::RetryDue, TaskPhase::Sleeping)
    }

    /// A sleeping task becomes ready; any other task stays as it is. Returns
    /// whether the task was sleeping.
    pub fn end_delay(&mut self) -> (moved: bool)
        ensures
            moved == (old(self)@.phase == TaskPhase::Sleeping),
            final(self)@ == if moved { old(self)@.in_phase(TaskPhase::Ready) } else { old(self)@ },
    {
        self.advance(TaskPhase::Sleeping, TaskPhase::Ready)
    }

    /// Takes in an attempt that counts as failed: the task owes a pause while
    /// retries are left and is done, with a failure record, otherwise.
    fn on_failure(&mut self, max_retries: u32, cause: &str, elapsed_ms: u128) -> (step: Step)
        requires
            old(self)@.phase == TaskPhase::Fetching,
        ensures
            (final(self)@, step@) == old(self)@.after_failure(max_retries, cause@, elapsed_ms),
    {
        if should_retry(self.attempt, max_retries) {
            self.attempt = self.attempt + 1;
            self.phase = TaskPhase::RetryDue;
            Step::Retry
        } else {
            self.phase = TaskPhase::Done;
            Step::Finished(ScrapeResult::failure(self.url.clone(), elapsed_ms, cause))
        }
    }

    /// Tells a fetching task what its fetch came to. A response finishes the
    /// task with the fields read from its body, provided the body is short
    /// enough to be parsed. No response, or a body that is too large, is a
    /// failed attempt: it is retried while retries are left and finishes the
    /// task otherwise. A task that is not fetching ignores the outcome.
    pub fn on_fetched(&mut self, max_retries: u32, outcome: FetchOutcome) -> (step: Step)
        ensures
            (final(self)@, step@) == old(self)@.after_fetch(max_retries, outcome@),
    {
        if self.phase != TaskPhase::Fetching {
            return Step::Ignored;
        }
        match outcome {
            FetchOutcome::Response { status_code, body, elapsed_ms } => {
                if parseable(body.as_str()) {
                    let fields = extract_fields(body.as_str());
                    self.phase = TaskPhase::Done;
                    Step::Finished(ScrapeResult::success(self.url.clone(), status_code, elapsed_ms, fields))
                } else {
                    self.on_failure(max_retries, "response body too large to parse", elapsed_ms)
                }
            },
            FetchOutcome::Failed { cause, elapsed_ms } => self.on_failure(
                max_retries,
                cause.as_str(),
                elapsed_ms,
            ),
        }
    }
}

/// How a task fared over a run of fetches.
pub struct RunView {
    /// The task at the end of the run.
    pub task: TaskView,
    /// Fetches made during the run.
    pub fetches: nat,
    /// The terminal record, if the run reached one.
    pub result: Option<ScrapeResultView>,
}

/// How many of `outcomes` count as failed before the first that does not.
pub open spec fn leading_failures(outcomes: Seq<FetchOutcomeView>) -> nat
    decreases outcomes.len(),
{
    if outcomes.len() == 0 || !outcomes[0].failed() {
        0
    } else {
        1 + leading_failures(outcomes.drop_first())
    }
}

/// The record that a run ends with when its last fetch came to `outcome`.
pub open spec fn record_of(url: Seq<char>, outcome: FetchOutcomeView) -> ScrapeResultView {
    match outcome {
        FetchOutcomeView::Response { status_code, body, elapsed_ms } if spec_parseable(body) => ScrapeResultView::success(
            url,
            status_code,
            elapsed_ms,
            spec_extract_fields(body),
        ),
        _ => ScrapeResultView::failure(url, outcome.elapsed(), outcome.cause()),
    }
}

impl TaskView {
    /// Drives a ready task through fetches that come to `outcomes`, in order:
    /// it is admitted, hears the outcome, and where a retry is due sits out
    /// the pause and goes round again. The run ends with the task's record or
    /// when `outcomes` runs out.
    pub open spec fn run(self, max_retries: u32, outcomes: Seq<FetchOutcomeView>) -> RunView
        decreases outcomes.len(),
    {
        if outcomes.len() == 0 || self.phase != TaskPhase::Ready {
            RunView { task: self, fetches: 0, result: None }
        } else {
            let (next, step) = self.in_phase(TaskPhase::Fetching).after_fetch(max_retries, outcomes[0]);
            match step {
                StepView::Finished(r) => RunView { task: next, fetches: 1, result: Some(r) },
                StepView::Retry => {
                    let rest = next.in_phase(TaskPhase::Sleeping).in_phase(TaskPhase::Ready).run(
                        max_retries,
                        outcomes.drop_first(),
                    );
                    RunView { task: rest.task, fetches: rest.fetches + 1, result: rest.result }
                },
                StepView::Ignored => RunView { task: next, fetches: 1, result: None },
            }
        }
    }
}

/// The smaller of two counts.
pub open spec fn least(a: nat, b: nat) -> nat {
    if a <= b {
        a
    } else {
        b
    }
}

/// A ready task whose next fetches fail `k` times in a row makes
/// `1 + min(k, retries left)` fetches, provided that many outcomes are there.
/// It ends done, with the record of its last fetch: a success where the
/// failures ran out first, a failure where the retries did.
pub proof fn lemma_run_fetches(task: TaskView, max_retries: u32, outcomes: Seq<FetchOutcomeView>)
    requires
        task.phase == TaskPhase::Ready,
        task.attempt <= max_retries,
        outcomes.len() > least(leading_failures(outcomes), (max_retries - task.attempt) as nat),
    ensures
        ({
            let last = least(leading_failures(outcomes), (max_retries - task.attempt) as nat);
            let run = task.run(max_retries, outcomes);
            &&& run.fetches == 1 + last
            &&& run.task.phase == TaskPhase::Done
            &&& run.task.attempt == task.attempt + last
            &&& run.task.url == task.url
            &&& run.result == Some(record_of(task.url, outcomes[last as int]))
            &&& outcomes[last as int].failed() <==> leading_failures(outcomes) > max_retries - task.attempt
        }),
    decreases outcomes.len(),
{
    let (next, step) = task.in_phase(TaskPhase::Fetching).after_fetch(max_retries, outcomes[0]);
    if outcomes[0].failed() && task.attempt < max_retries {
        let again = next.in_phase(TaskPhase::Sleeping).in_phase(TaskPhase::Ready);
        let rest = outcomes.drop_first();
        assert(leading_failures(outcomes) == 1 + leading_failures(rest));
        lemma_run_fetches(again, max_retries, rest);
        let last = least(leading_failures(rest), (max_retries - again.attempt) as nat);
        assert(rest[last as int] == outcomes[last as int + 1]);
    }
}

/// A fresh task makes `1 + min(k, max_retries)` fetches, where `k` is the
/// number of failures in a row before the first response; never more than
/// `max_retries + 1`.
pub proof fn lemma_attempt_count(url: Seq<char>, max_retries: u32, outcomes: Seq<FetchOutcomeView>)
    requires
        outcomes.len() > least(leading_failures(outcomes), max_retries as nat),
    ensures
        TaskView::fresh(url).run(max_retries, outcomes).fetches == 1 + least(
            leading_failures(outcomes),
            max_retries as nat,
        ),
        TaskView::fresh(url).run(max_retries, outcomes).fetches <= max_retries + 1,
        TaskView::fresh(url).run(max_retries, outcomes).task.fetches_started() == TaskView::fresh(url).run(
            max_retries,
            outcomes,
        ).fetches,
{
    lemma_run_fetches(TaskView::fresh(url), max_retries, outcomes);
}

/// A response whose body can be parsed finishes a fresh task at once,
/// whatever its status: one fetch, no error, the status as it came and the
/// fields read from the body.
pub proof fn lemma_response_is_terminal(
    url: Seq<char>,
    max_retries: u32,
    status_code: u16,
    body: Seq<char>,
    elapsed_ms: u128,
)
    requires
        spec_parseable(body),
    ensures
        ({
            let outcome = FetchOutcomeView::Response { status_code, body, elapsed_ms };
            let run = TaskView::fresh(url).run(max_retries, seq![outcome]);
            &&& run.fetches == 1
            &&& run.result == Some(
                ScrapeResultView::success(url, status_code, elapsed_ms, spec_extract_fields(body)),
            )
            &&& run.result->0.status_code == status_code
            &&& run.result->0.error is None
        }),
{
    let outcome = FetchOutcomeView::Response { status_code, body, elapsed_ms };
    assert(leading_failures(seq![outcome]) == 0);
    lemma_run_fetches(TaskView::fresh(url), max_retries, seq![outcome]);
}

/// A task whose every fetch counts as failed gives up after exactly
/// `max_retries` retries, with status 0, no content, a message that is not
/// empty, and the time of its last attempt.
pub proof fn lemma_exhaustion(url: Seq<char>, max_retries: u32, outcomes: Seq<FetchOutcomeView>)
    requires
        outcomes.len() > max_retries,
        forall|i: int| 0 <= i < outcomes.len() ==> (#[trigger] outcomes[i]).failed(),
    ensures
        ({
            let run = TaskView::fresh(url).run(max_retries, outcomes);
            &&& run.fetches == max_retries + 1
            &&& run.task.attempt == max_retries
            &&& run.result is Some
            &&& run.result->0.status_code == 0
            &&& run.result->0.error is Some
            &&& run.result->0.error->0.len() > 0
            &&& run.result->0.fetch_time_ms == outcomes[max_retries as int].elapsed()
            &&& run.result->0.wf()
        }),
{
    lemma_all_fail(outcomes);
    lemma_run_fetches(TaskView::fresh(url), max_retries, outcomes);
    reveal_strlit("Failed to scrape: ");
}

/// Where every outcome counts as failed, all of them lead.
proof fn lemma_all_fail(outcomes: Seq<FetchOutcomeView>)
    requires
        forall|i: int| 0 <= i < outcomes.len() ==> (#[trigger] outcomes[i]).failed(),
    ensures
        leading_failures(outcomes) == outcomes.len(),
    decreases outcomes.len(),
{
    if outcomes.len() > 0 {
        let rest = outcomes.drop_first();
        assert forall|i: int| 0 <= i < rest.len() implies (#[trigger] rest[i]).failed() by {
            assert(rest[i] == outcomes[i + 1]);
        }
        lemma_all_fail(rest);
    }
}

} // verus!
