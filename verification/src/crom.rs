//! The client of the service, as a machine of states: what to send next, how
//! long to wait before it, and when to give up.
//!
//! Before every request the keeper of the quota is asked. The program around
//! the library sends what a [`Step`] says, and hands back what came of it as
//! an outcome.
use vstd::prelude::*;
use crate::query;
use crate::query::{crom_query_text, opt_text};
use crate::rate_limit::{
    finds_quota, fresh, probe_verdict, Outcome, ProbeFault, ProbeVerdict, RateLimiter,
    RETRY_DELAY_SECONDS, RETRY_LIMIT,
};
use crate::record::{member, Record, Value};
use crate::retry::{Retry, RetryBudget};
use crate::text::copy_text;

verus! {

/// The address of the service.
pub fn endpoint() -> (url: &'static str)
    ensures
        url@ == "https://api.crom.avn.sh/graphql"@,
{
    "https://api.crom.avn.sh/graphql"
}

/// The name under which the program presents itself to the service and to
/// the sites.
pub fn user_agent() -> (name: &'static str)
    ensures
        name@ == "ScpScriptAnthology/1.0"@,
{
    "ScpScriptAnthology/1.0"
}

/// The errors that the service reported for a query.
#[derive(Debug)]
pub struct CromError {
    pub errors: String,
}

impl CromError {
    /// The reported errors, as text.
    pub fn message(&self) -> (text: String)
        ensures
            text@ == self.errors@,
    {
        copy_text(self.errors.as_str())
    }
}

/// Which request is under way.
#[derive(Debug, Clone, Copy, PartialEq, Eq, Structural)]
pub enum Phase {
    /// None.
    Idle,
    /// A quota probe.
    Probing,
    /// The query itself.
    Querying,
}

/// Why a query was given up.
#[derive(Debug, Clone, Copy, PartialEq, Eq, Structural)]
pub enum Abort {
    /// As many attempts failed as one operation may.
    TooManyFailures,
    /// The answer to a quota probe is no JSON.
    ProbeNotJson,
    /// The answer to a quota probe holds neither a quota nor errors.
    NoRateLimit,
    /// An outcome was handed in while no request was under way.
    NothingInFlight,
}

/// What to do next.
#[derive(Debug)]
pub enum Step {
    /// Wait for `after_seconds`, then send `query` to the service.
    Post { query: String, after_seconds: u64 },
    /// The query is answered.
    Deliver(Record),
    /// The query is given up: the run cannot go on.
    Abort(Abort),
}

/// A step, as a mathematical value.
pub enum StepView {
    Post { query: Seq<char>, after_seconds: u64 },
    Deliver(Value),
    Abort(Abort),
}

impl View for Step {
    type V = StepView;

    open spec fn view(&self) -> StepView {
        match self {
            Step::Post { query, after_seconds } => StepView::Post {
                query: query@,
                after_seconds: *after_seconds,
            },
            Step::Deliver(record) => StepView::Deliver(record@),
            Step::Abort(why) => StepView::Abort(*why),
        }
    }
}

/// The reason for which a query is given up when the wait for quota was.
pub open spec fn abort_of(fault: ProbeFault) -> Abort {
    match fault {
        ProbeFault::TooManyFailures => Abort::TooManyFailures,
        ProbeFault::NotJson => Abort::ProbeNotJson,
        ProbeFault::NoRateLimit => Abort::NoRateLimit,
    }
}

/// The client: the keeper of the quota, the query it is answering, the
/// request under way, and the budget of the attempts at the query.
#[derive(Debug)]
pub struct Crom {
    /// The keeper of the quota, which is asked before every request.
    pub limiter: RateLimiter,
    /// The query that is being answered.
    pub request: String,
    pub phase: Phase,
    /// The budget of the attempts at the query.
    pub attempts: RetryBudget,
}

/// The text of the quota probe.
pub open spec fn probe_text() -> Seq<char> {
    "query {rateLimit{remaining, resetAt}}"@
}

/// Whether an outcome counts as a failed attempt at the query: no answer, an
/// answer that is no JSON, or an answer in which the service reports errors.
pub open spec fn query_failed(outcome: Outcome) -> bool {
    match outcome {
        Outcome::Answer(answer) => member(answer@, "errors"@) is Some,
        _ => true,
    }
}

/// The step that follows a failed attempt: a probe after the delay, or the
/// end.
pub open spec fn step_after_failure(budget: RetryBudget) -> StepView {
    match budget.verdict() {
        Retry::Again { after_seconds } => StepView::Post { query: probe_text(), after_seconds },
        Retry::GiveUp => StepView::Abort(Abort::TooManyFailures),
    }
}

/// The phase that follows a failed attempt: a probe, or none.
pub open spec fn phase_after_failure(budget: RetryBudget) -> Phase {
    match budget.verdict() {
        Retry::Again { .. } => Phase::Probing,
        Retry::GiveUp => Phase::Idle,
    }
}

/// The step that follows a quota probe.
pub open spec fn step_after_probe(verdict: ProbeVerdict, request: Seq<char>) -> StepView {
    match verdict {
        ProbeVerdict::Proceed => StepView::Post { query: request, after_seconds: 0 },
        ProbeVerdict::Wait { seconds } => StepView::Post {
            query: probe_text(),
            after_seconds: seconds,
        },
        ProbeVerdict::Fail(fault) => StepView::Abort(abort_of(fault)),
    }
}

/// The phase that follows a quota probe.
pub open spec fn phase_after_probe(verdict: ProbeVerdict) -> Phase {
    match verdict {
        ProbeVerdict::Proceed => Phase::Querying,
        ProbeVerdict::Wait { .. } => Phase::Probing,
        ProbeVerdict::Fail(_) => Phase::Idle,
    }
}

/// The state of the client after an outcome, and the step it asks for: the
/// phase, the budget of the probes, the budget of the attempts, and the
/// step.
///
/// What follows a probe is for the keeper of the quota to say: the query
/// itself, at once, where quota was found; a new probe after a wait; or the
/// end. A failed attempt at the query is followed by a new probe within the
/// budget of the attempts. An answer without errors ends the query.
pub open spec fn transition(
    phase: Phase,
    probes: RetryBudget,
    attempts: RetryBudget,
    request: Seq<char>,
    outcome: Outcome,
) -> (Phase, RetryBudget, RetryBudget, StepView) {
    match phase {
        Phase::Idle => (Phase::Idle, probes, attempts, StepView::Abort(Abort::NothingInFlight)),
        Phase::Probing => {
            let (left, verdict) = probe_verdict(probes, outcome);
            (phase_after_probe(verdict), left, attempts, step_after_probe(verdict, request))
        },
        Phase::Querying => if query_failed(outcome) {
            (
                phase_after_failure(attempts),
                fresh(probes),
                attempts.after_failure(),
                step_after_failure(attempts),
            )
        } else {
            (Phase::Idle, probes, attempts, StepView::Deliver(outcome->Answer_0@))
        },
    }
}

impl Crom {
    /// The budgets are within their limits.
    pub open spec fn wf(&self) -> bool {
        self.limiter.wf() && self.attempts.wf()
    }

    /// A client that has nothing under way.
    pub fn new(verbose: bool) -> (crom: Self)
        ensures
            crom.limiter.verbose == verbose,
            crom.phase == Phase::Idle,
            crom.limiter.probes == (RetryBudget {
                limit: RETRY_LIMIT,
                used: 0,
                delay_seconds: RETRY_DELAY_SECONDS,
            }),
            crom.attempts == crom.limiter.probes,
            crom.request@ == Seq::<char>::empty(),
            crom.wf(),
    {
        Crom {
            limiter: RateLimiter::new(verbose),
            request: String::new(),
            phase: Phase::Idle,
            attempts: RetryBudget::new(RETRY_LIMIT, RETRY_DELAY_SECONDS),
        }
    }

    /// Begins to answer `request`: whatever was under way is dropped, the
    /// budgets are fresh, and the first step is a quota probe, at once.
    pub fn query(&mut self, request: &str) -> (step: Step)
        ensures
            step@ == (StepView::Post { query: probe_text(), after_seconds: 0 }),
            final(self).phase == Phase::Probing,
            final(self).limiter.probes == (RetryBudget {
                limit: RETRY_LIMIT,
                used: 0,
                delay_seconds: RETRY_DELAY_SECONDS,
            }),
            final(self).attempts == final(self).limiter.probes,
            final(self).request@ == request@,
            final(self).limiter.verbose == old(self).limiter.verbose,
            final(self).wf(),
    {
        self.request = copy_text(request);
        self.phase = Phase::Probing;
        self.limiter = RateLimiter::new(self.limiter.verbose);
        self.attempts = RetryBudget::new(RETRY_LIMIT, RETRY_DELAY_SECONDS);
        Step::Post { query: copy_text(query::rate_limit_request()), after_seconds: 0 }
    }

    /// Takes what came of the last step and says what to do next.
    pub fn advance(&mut self, outcome: Outcome) -> (step: Step)
        ensures
            (final(self).phase, final(self).limiter.probes, final(self).attempts, step@)
                == transition(
                old(self).phase,
                old(self).limiter.probes,
                old(self).attempts,
                old(self).request@,
                outcome,
            ),
            final(self).request@ == old(self).request@,
            final(self).limiter.verbose == old(self).limiter.verbose,
            old(self).wf() ==> final(self).wf(),
    {
        match self.phase {
            Phase::Idle => Step::Abort(Abort::NothingInFlight),
            Phase::Probing => match self.limiter.await_capacity(&outcome) {
                ProbeVerdict::Proceed => {
                    self.phase = Phase::Querying;
                    Step::Post { query: copy_text(self.request.as_str()), after_seconds: 0 }
                },
                ProbeVerdict::Wait { seconds } => self.probe(seconds),
                ProbeVerdict::Fail(ProbeFault::TooManyFailures) => self.give_up(
                    Abort::TooManyFailures,
                ),
                ProbeVerdict::Fail(ProbeFault::NotJson) => self.give_up(Abort::ProbeNotJson),
                ProbeVerdict::Fail(ProbeFault::NoRateLimit) => self.give_up(Abort::NoRateLimit),
            },
            Phase::Querying => {
                let failed = match &outcome {
                    Outcome::Answer(answer) => answer.get("errors").is_some(),
                    _ => true,
                };
                if failed {
                    let next = self.attempts.fail();
                    self.limiter.probes.reset();
                    match next {
                        Retry::Again { after_seconds } => self.probe(after_seconds),
                        Retry::GiveUp => self.give_up(Abort::TooManyFailures),
                    }
                } else {
                    match outcome {
                        Outcome::Answer(answer) => {
                            self.phase = Phase::Idle;
                            Step::Deliver(answer)
                        },
                        _ => Step::Abort(Abort::NothingInFlight),
                    }
                }
            },
        }
    }

    /// Goes on with a quota probe after a wait.
    fn probe(&mut self, after_seconds: u64) -> (step: Step)
        ensures
            step@ == (StepView::Post { query: probe_text(), after_seconds }),
            final(self).phase == Phase::Probing,
            final(self).limiter == old(self).limiter,
            final(self).attempts == old(self).attempts,
            final(self).request@ == old(self).request@,
    {
        self.phase = Phase::Probing;
        Step::Post { query: copy_text(query::rate_limit_request()), after_seconds }
    }

    /// Gives the query up.
    fn give_up(&mut self, why: Abort) -> (step: Step)
        ensures
            step@ == StepView::Abort(why),
            final(self).phase == Phase::Idle,
            final(self).limiter == old(self).limiter,
            final(self).attempts == old(self).attempts,
            final(self).request@ == old(self).request@,
    {
        self.phase = Phase::Idle;
        Step::Abort(why)
    }

    /// The text of the listing query: the pages of `site`, or those attributed
    /// to `author` among them, that pass `filter`, from the cursor `after` on,
    /// each with the fields of `requested_data`.
    pub fn build_crom_query(
        site: &str,
        filter: Option<&str>,
        author: Option<&str>,
        requested_data: &str,
        after: Option<&str>,
    ) -> (text: String)
        ensures
            text@ == crom_query_text(
                site@,
                opt_text(filter),
                opt_text(author),
                requested_data@,
                opt_text(after),
            ),
    {
        query::build_crom_query(site, filter, author, requested_data, after)
    }
}

/// The state of the client, as the transitions see it.
pub struct CromState {
    pub phase: Phase,
    pub probes: RetryBudget,
    pub attempts: RetryBudget,
}

/// The state in which a query begins: a probe is under way and the budgets
/// are fresh.
pub open spec fn start_state() -> CromState {
    CromState {
        phase: Phase::Probing,
        probes: RetryBudget { limit: RETRY_LIMIT, used: 0, delay_seconds: RETRY_DELAY_SECONDS },
        attempts: RetryBudget { limit: RETRY_LIMIT, used: 0, delay_seconds: RETRY_DELAY_SECONDS },
    }
}

/// The state after one outcome.
pub open spec fn next_state(state: CromState, request: Seq<char>, outcome: Outcome) -> CromState {
    let t = transition(state.phase, state.probes, state.attempts, request, outcome);
    CromState { phase: t.0, probes: t.1, attempts: t.2 }
}

/// The step after one outcome.
pub open spec fn next_step(state: CromState, request: Seq<char>, outcome: Outcome) -> StepView {
    transition(state.phase, state.probes, state.attempts, request, outcome).3
}

/// A probe that finds quota is answered with the query itself, at once.
pub proof fn lemma_quota_sends_query(state: CromState, request: Seq<char>, outcome: Outcome)
    requires
        state.phase == Phase::Probing,
        finds_quota(outcome),
    ensures
        next_step(state, request, outcome) == (StepView::Post { query: request, after_seconds: 0 }),
        next_state(state, request, outcome).phase == Phase::Querying,
        next_state(state, request, outcome).attempts == state.attempts,
{
}

/// The query itself is only sent behind a probe that found quota.
pub proof fn lemma_query_needs_quota(state: CromState, request: Seq<char>, outcome: Outcome)
    requires
        request != probe_text(),
        next_step(state, request, outcome) matches StepView::Post { query, .. } && query == request,
    ensures
        state.phase == Phase::Probing,
        finds_quota(outcome),
{
}

/// The state after so many rounds in which a probe finds quota and the query
/// then fails: each round takes one attempt off the budget.
pub open spec fn after_failed_rounds(state: CromState, rounds: nat) -> CromState
    decreases rounds,
{
    if rounds == 0 {
        state
    } else {
        let before = after_failed_rounds(state, (rounds - 1) as nat);
        CromState {
            phase: phase_after_failure(before.attempts),
            probes: fresh(before.probes),
            attempts: before.attempts.after_failure(),
        }
    }
}

/// One round in which a probe finds quota and the query fails.
pub proof fn lemma_failed_round(
    state: CromState,
    request: Seq<char>,
    probe: Outcome,
    failure: Outcome,
)
    requires
        state.phase == Phase::Probing,
        finds_quota(probe),
        query_failed(failure),
    ensures
        next_state(next_state(state, request, probe), request, failure) == after_failed_rounds(
            state,
            1,
        ),
        next_step(next_state(state, request, probe), request, failure) == step_after_failure(
            state.attempts,
        ),
{
    reveal_with_fuel(after_failed_rounds, 2);
    assert(fresh(fresh(state.probes)) == fresh(state.probes));
}

/// A query has as many attempts as the limit says: from its beginning, the
/// attempts that fail before the last one are each followed by a new probe
/// after the delay, with one attempt less in the budget; the failure of the
/// last one gives the query up.
pub proof fn lemma_attempts_are_bounded(rounds: nat)
    ensures
        rounds < RETRY_LIMIT ==> after_failed_rounds(start_state(), rounds).phase == Phase::Probing
            && after_failed_rounds(start_state(), rounds).attempts.used == rounds,
        rounds + 1 < RETRY_LIMIT ==> step_after_failure(
            after_failed_rounds(start_state(), rounds).attempts,
        ) == (StepView::Post { query: probe_text(), after_seconds: RETRY_DELAY_SECONDS }),
        rounds + 1 == RETRY_LIMIT ==> step_after_failure(
            after_failed_rounds(start_state(), rounds).attempts,
        ) == StepView::Abort(Abort::TooManyFailures),
        rounds >= RETRY_LIMIT ==> after_failed_rounds(start_state(), rounds).phase == Phase::Idle,
        after_failed_rounds(start_state(), rounds).attempts.limit == RETRY_LIMIT,
        after_failed_rounds(start_state(), rounds).attempts.delay_seconds == RETRY_DELAY_SECONDS,
        after_failed_rounds(start_state(), rounds).attempts.used <= RETRY_LIMIT,
    decreases rounds,
{
    if rounds > 0 {
        lemma_attempts_are_bounded((rounds - 1) as nat);
    }
}

} // verus!
