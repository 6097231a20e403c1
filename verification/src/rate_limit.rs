//! The quota of the service: before every request the service is asked how
//! much is left, and the answer says whether to go on, to wait or to stop.
use vstd::prelude::*;
use crate::record::{member, member_at, Record, Value};
use crate::retry::{Retry, RetryBudget};

verus! {

/// How many attempts one logical operation may fail before it is given up.
pub const RETRY_LIMIT: u32 = 5;

/// Seconds between two attempts.
pub const RETRY_DELAY_SECONDS: u64 = 10;

/// Seconds to wait when the quota is used up.
pub const EXHAUSTED_WAIT_SECONDS: u64 = 300;

/// Seconds to wait when the service reports errors in place of the quota.
pub const OVERLOADED_WAIT_SECONDS: u64 = 15;

/// What came of a request.
#[derive(Debug)]
pub enum Outcome {
    /// The request could not be sent, or no answer came.
    TransportError,
    /// The body of the answer is no JSON.
    NotJson,
    /// The answer.
    Answer(Record),
}

/// What the answer to a quota probe says.
#[derive(Debug, Clone, Copy, PartialEq, Eq, Structural)]
pub enum Capacity {
    /// Some quota is left.
    Available,
    /// The quota is used up.
    Exhausted,
    /// No quota is given, but errors are: the service is overloaded.
    Overloaded,
    /// Neither a quota nor errors: not an answer of the service.
    Malformed,
}

/// The quota that an answer gives: the whole number from 0 to `u64::MAX` at
/// `data.rateLimit.remaining`.
pub open spec fn remaining_of(answer: Value) -> Option<int> {
    match member_at(answer, seq!["data"@, "rateLimit"@, "remaining"@]) {
        Some(Value::Whole(n)) => if 0 <= n <= u64::MAX {
            Some(n)
        } else {
            None
        },
        _ => None,
    }
}

/// What the answer to a quota probe says.
pub open spec fn capacity_of(answer: Value) -> Capacity {
    match remaining_of(answer) {
        Some(n) => if n == 0 {
            Capacity::Exhausted
        } else {
            Capacity::Available
        },
        None => if member(answer, "errors"@) is Some {
            Capacity::Overloaded
        } else {
            Capacity::Malformed
        },
    }
}

/// Reads the answer to a quota probe.
pub fn read_capacity(answer: &Record) -> (capacity: Capacity)
    ensures
        capacity == capacity_of(answer@),
{
    let ghost keys = seq!["data"@, "rateLimit"@, "remaining"@];
    proof {
        reveal_with_fuel(member_at, 4);
        assert(keys.skip(1) =~= seq!["rateLimit"@, "remaining"@]);
        assert(keys.skip(1).skip(1) =~= seq!["remaining"@]);
        assert(keys.skip(1).skip(1).skip(1) =~= Seq::<Seq<char>>::empty());
    }
    let remaining = match answer.get("data") {
        Some(data) => match data.get("rateLimit") {
            Some(limit) => match limit.get("remaining") {
                Some(n) => n.as_u64(),
                None => None,
            },
            None => None,
        },
        None => None,
    };
    match remaining {
        Some(n) => if n == 0 {
            Capacity::Exhausted
        } else {
            Capacity::Available
        },
        None => match answer.get("errors") {
            Some(_) => Capacity::Overloaded,
            None => Capacity::Malformed,
        },
    }
}

/// Why the wait for quota was given up.
#[derive(Debug, Clone, Copy, PartialEq, Eq, Structural)]
pub enum ProbeFault {
    /// As many probes in a row could not be sent as may fail.
    TooManyFailures,
    /// The answer to a probe is no JSON.
    NotJson,
    /// The answer to a probe holds neither a quota nor errors.
    NoRateLimit,
}

/// What follows a quota probe.
#[derive(Debug, Clone, Copy, PartialEq, Eq, Structural)]
pub enum ProbeVerdict {
    /// Quota is left: the request can be sent.
    Proceed,
    /// Wait so many seconds, then probe again.
    Wait { seconds: u64 },
    /// The run cannot go on.
    Fail(ProbeFault),
}

/// The keeper of the quota: it counts the probes that could not be sent.
#[derive(Debug, Clone, Copy, PartialEq, Eq, Structural)]
pub struct RateLimiter {
    /// Whether the program prints what it sends and receives.
    pub verbose: bool,
    /// The budget of the probe that is under way.
    pub probes: RetryBudget,
}

/// A budget with no failed attempts.
pub open spec fn fresh(budget: RetryBudget) -> RetryBudget {
    RetryBudget { used: 0, ..budget }
}

/// What follows a quota probe, and the budget of the probes after it.
///
/// A probe that finds quota lets the request pass. One that finds the quota
/// used up is repeated after a long wait, one that finds errors in its place
/// after a short one. A probe that could not be sent is repeated after the
/// delay between attempts, as long as the budget lasts. An answer that is no
/// JSON, or holds neither quota nor errors, ends the run.
pub open spec fn probe_verdict(probes: RetryBudget, outcome: Outcome) -> (
    RetryBudget,
    ProbeVerdict,
) {
    match outcome {
        Outcome::TransportError => (
            probes.after_failure(),
            match probes.verdict() {
                Retry::Again { after_seconds } => ProbeVerdict::Wait { seconds: after_seconds },
                Retry::GiveUp => ProbeVerdict::Fail(ProbeFault::TooManyFailures),
            },
        ),
        Outcome::NotJson => (probes, ProbeVerdict::Fail(ProbeFault::NotJson)),
        Outcome::Answer(answer) => match capacity_of(answer@) {
            Capacity::Available => (fresh(probes), ProbeVerdict::Proceed),
            Capacity::Exhausted => (
                fresh(probes),
                ProbeVerdict::Wait { seconds: EXHAUSTED_WAIT_SECONDS },
            ),
            Capacity::Overloaded => (
                fresh(probes),
                ProbeVerdict::Wait { seconds: OVERLOADED_WAIT_SECONDS },
            ),
            Capacity::Malformed => (probes, ProbeVerdict::Fail(ProbeFault::NoRateLimit)),
        },
    }
}

impl RateLimiter {
    /// The budget of the probes is within its limit.
    pub open spec fn wf(&self) -> bool {
        self.probes.wf()
    }

    /// A keeper with a fresh budget.
    pub fn new(verbose: bool) -> (limiter: Self)
        ensures
            limiter.verbose == verbose,
            limiter.probes == (RetryBudget {
                limit: RETRY_LIMIT,
                used: 0,
                delay_seconds: RETRY_DELAY_SECONDS,
            }),
            limiter.wf(),
    {
        RateLimiter { verbose, probes: RetryBudget::new(RETRY_LIMIT, RETRY_DELAY_SECONDS) }
    }

    /// Takes what came of a quota probe and says what follows.
    pub fn await_capacity(&mut self, outcome: &Outcome) -> (verdict: ProbeVerdict)
        ensures
            (final(self).probes, verdict) == probe_verdict(old(self).probes, *outcome),
            final(self).verbose == old(self).verbose,
            old(self).wf() ==> final(self).wf(),
    {
        match outcome {
            Outcome::TransportError => match self.probes.fail() {
                Retry::Again { after_seconds } => ProbeVerdict::Wait { seconds: after_seconds },
                Retry::GiveUp => ProbeVerdict::Fail(ProbeFault::TooManyFailures),
            },
            Outcome::NotJson => ProbeVerdict::Fail(ProbeFault::NotJson),
            Outcome::Answer(answer) => match read_capacity(answer) {
                Capacity::Available => {
                    self.probes.reset();
                    ProbeVerdict::Proceed
                },
                Capacity::Exhausted => {
                    self.probes.reset();
                    ProbeVerdict::Wait { seconds: EXHAUSTED_WAIT_SECONDS }
                },
                Capacity::Overloaded => {
                    self.probes.reset();
                    ProbeVerdict::Wait { seconds: OVERLOADED_WAIT_SECONDS }
                },
                Capacity::Malformed => ProbeVerdict::Fail(ProbeFault::NoRateLimit),
            },
        }
    }
}

/// Whether an outcome is a probe that found the quota used up.
pub open spec fn finds_no_quota(outcome: Outcome) -> bool {
    outcome matches Outcome::Answer(answer) && capacity_of(answer@) == Capacity::Exhausted
}

/// Whether an outcome is a probe that found quota.
pub open spec fn finds_quota(outcome: Outcome) -> bool {
    outcome matches Outcome::Answer(answer) && capacity_of(answer@) == Capacity::Available
}

/// The budget of the probes after a run of probes.
pub open spec fn probes_after(probes: RetryBudget, outcomes: Seq<Outcome>) -> RetryBudget
    decreases outcomes.len(),
{
    if outcomes.len() == 0 {
        probes
    } else {
        probe_verdict(probes_after(probes, outcomes.drop_last()), outcomes.last()).0
    }
}

/// What follows each probe of a run of probes.
pub open spec fn verdicts_after(probes: RetryBudget, outcomes: Seq<Outcome>) -> Seq<ProbeVerdict>
    decreases outcomes.len(),
{
    if outcomes.len() == 0 {
        Seq::empty()
    } else {
        verdicts_after(probes, outcomes.drop_last()).push(
            probe_verdict(probes_after(probes, outcomes.drop_last()), outcomes.last()).1,
        )
    }
}

/// The long wait follows every probe that finds the quota used up, and
/// nothing else does: so many such probes in a row are answered with as many
/// long waits, and a probe that then finds quota lets the request pass.
pub proof fn lemma_exhausted_quota_waits(
    probes: RetryBudget,
    outcomes: Seq<Outcome>,
    last: Outcome,
)
    requires
        forall|i: int| 0 <= i < outcomes.len() ==> finds_no_quota(#[trigger] outcomes[i]),
        finds_quota(last),
    ensures
        verdicts_after(probes, outcomes) == Seq::new(
            outcomes.len(),
            |i: int| ProbeVerdict::Wait { seconds: EXHAUSTED_WAIT_SECONDS },
        ),
        verdicts_after(probes, outcomes.push(last)) == verdicts_after(probes, outcomes).push(
            ProbeVerdict::Proceed,
        ),
    decreases outcomes.len(),
{
    let waits = Seq::new(
        outcomes.len(),
        |i: int| ProbeVerdict::Wait { seconds: EXHAUSTED_WAIT_SECONDS },
    );
    if outcomes.len() > 0 {
        let before = outcomes.drop_last();
        assert forall|i: int| 0 <= i < before.len() implies finds_no_quota(
            #[trigger] before[i],
        ) by {
            assert(before[i] == outcomes[i]);
        }
        lemma_exhausted_quota_waits(probes, before, last);
        assert(finds_no_quota(outcomes[outcomes.len() - 1]));
        assert(verdicts_after(probes, outcomes) =~= waits);
    } else {
        assert(verdicts_after(probes, outcomes) =~= waits);
    }
    assert(outcomes.push(last).drop_last() == outcomes);
}

} // verus!
