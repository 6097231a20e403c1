//! Bounded retries: how often an operation may fail before it is given up,
//! and how long to wait between two attempts.
use vstd::prelude::*;

verus! {

/// The attempts that one logical operation has, and those that have failed.
#[derive(Debug, Clone, Copy, PartialEq, Eq, Structural)]
pub struct RetryBudget {
    /// How many attempts may fail before the operation is given up.
    pub limit: u32,
    /// How many attempts have failed.
    pub used: u32,
    /// Seconds between two attempts.
    pub delay_seconds: u64,
}

/// What to do after a failed attempt.
#[derive(Debug, Clone, Copy, PartialEq, Eq, Structural)]
pub enum Retry {
    /// Try again after so many seconds.
    Again { after_seconds: u64 },
    /// The budget is used up: the operation has failed.
    GiveUp,
}

impl RetryBudget {
    /// No more attempts have failed than may.
    pub open spec fn wf(&self) -> bool {
        self.used <= self.limit
    }

    /// Whether the budget is used up.
    pub open spec fn exhausted(&self) -> bool {
        self.used >= self.limit
    }

    /// The budget after one more failed attempt.
    pub open spec fn after_failure(&self) -> RetryBudget {
        RetryBudget {
            limit: self.limit,
            used: if self.used < self.limit {
                (self.used + 1) as u32
            } else {
                self.used
            },
            delay_seconds: self.delay_seconds,
        }
    }

    /// What to do after one more failed attempt: give up if the budget is
    /// then used up, else try again after the delay.
    pub open spec fn verdict(&self) -> Retry {
        if self.after_failure().exhausted() {
            Retry::GiveUp
        } else {
            Retry::Again { after_seconds: self.delay_seconds }
        }
    }

    /// A fresh budget.
    pub fn new(limit: u32, delay_seconds: u64) -> (budget: Self)
        ensures
            budget == (RetryBudget { limit, used: 0, delay_seconds }),
            budget.wf(),
    {
        RetryBudget { limit, used: 0, delay_seconds }
    }

    /// Counts one failed attempt and says what to do next.
    pub fn fail(&mut self) -> (next: Retry)
        ensures
            *final(self) == old(self).after_failure(),
            next == old(self).verdict(),
            old(self).wf() ==> final(self).wf(),
    {
        if self.used < self.limit {
            self.used = self.used + 1;
        }
        if self.used >= self.limit {
            Retry::GiveUp
        } else {
            Retry::Again { after_seconds: self.delay_seconds }
        }
    }

    /// Forgets the failed attempts: a new operation begins.
    pub fn reset(&mut self)
        ensures
            *final(self) == (RetryBudget { used: 0, ..*old(self) }),
            final(self).wf(),
    {
        self.used = 0;
    }

    /// How many attempts may still fail before the operation is given up.
    pub fn remaining(&self) -> (left: u32)
        ensures
            left == if self.used <= self.limit {
                self.limit - self.used
            } else {
                0
            },
    {
        if self.used <= self.limit {
            self.limit - self.used
        } else {
            0
        }
    }
}

/// With a fresh budget of `limit` attempts, exactly the `limit`-th failure in
/// a row gives up: the failures before it are retried.
pub proof fn lemma_budget_lasts(budget: RetryBudget, failures: nat)
    requires
        budget.used == 0,
        budget.limit > 0,
    ensures
        failures < budget.limit ==> after_failures(budget, failures).used == failures
            && !after_failures(budget, failures).exhausted(),
        failures >= budget.limit ==> after_failures(budget, failures).exhausted(),
        failures + 1 < budget.limit ==> after_failures(budget, failures).verdict() == (Retry::Again {
            after_seconds: budget.delay_seconds,
        }),
        failures + 1 >= budget.limit ==> after_failures(budget, failures).verdict() == Retry::GiveUp,
    decreases failures,
{
    if failures > 0 {
        lemma_budget_lasts(budget, (failures - 1) as nat);
    }
    lemma_after_failures_keeps(budget, failures);
}

/// The budget after a number of failed attempts in a row.
pub open spec fn after_failures(budget: RetryBudget, failures: nat) -> RetryBudget
    decreases failures,
{
    if failures == 0 {
        budget
    } else {
        after_failures(budget, (failures - 1) as nat).after_failure()
    }
}

/// Failures change neither the limit nor the delay of a budget.
pub proof fn lemma_after_failures_keeps(budget: RetryBudget, failures: nat)
    ensures
        after_failures(budget, failures).limit == budget.limit,
        after_failures(budget, failures).delay_seconds == budget.delay_seconds,
        budget.wf() ==> after_failures(budget, failures).wf(),
    decreases failures,
{
    if failures > 0 {
        lemma_after_failures_keeps(budget, (failures - 1) as nat);
    }
}

} // verus!
