use scp_script_anthology::document_fetch::{download_budget, FileListPoll, PollStep, FILE_LIST_POLLS};
use scp_script_anthology::retry::{Retry, RetryBudget};

#[test]
fn a_budget_of_five_gives_up_at_the_fifth_failure() {
    let mut budget = RetryBudget::new(5, 10);
    for used in 1..5 {
        assert_eq!(budget.fail(), Retry::Again { after_seconds: 10 });
        assert_eq!(budget.used, used);
        assert_eq!(budget.remaining(), 5 - used);
    }
    assert_eq!(budget.fail(), Retry::GiveUp);
    assert_eq!(budget.used, 5);
    assert_eq!(budget.fail(), Retry::GiveUp);
    assert_eq!(budget.used, 5);
    assert_eq!(budget.remaining(), 0);
}

#[test]
fn a_reset_budget_is_fresh() {
    let mut budget = RetryBudget::new(2, 3);
    assert_eq!(budget.fail(), Retry::Again { after_seconds: 3 });
    budget.reset();
    assert_eq!(budget, RetryBudget { limit: 2, used: 0, delay_seconds: 3 });
    assert_eq!(budget.fail(), Retry::Again { after_seconds: 3 });
    assert_eq!(budget.fail(), Retry::GiveUp);
}

#[test]
fn an_empty_budget_gives_up_at_once() {
    let mut budget = RetryBudget::new(0, 1);
    assert_eq!(budget.fail(), Retry::GiveUp);
    assert_eq!(budget.used, 0);
}

#[test]
fn a_download_is_tried_five_times() {
    assert_eq!(download_budget(), RetryBudget { limit: 5, used: 0, delay_seconds: 5 });
}

#[test]
fn the_list_of_files_is_waited_for_within_bounds() {
    let mut poll = FileListPoll::new();
    assert_eq!(poll.left, 30);
    assert_eq!(poll.observe(0), PollStep::Again);
    assert_eq!(poll.observe(2), PollStep::Found);
    assert_eq!(poll.left, 28);
    let mut poll = FileListPoll::new();
    for _ in 1..FILE_LIST_POLLS {
        assert_eq!(poll.observe(0), PollStep::Again);
    }
    assert_eq!(poll.observe(3), PollStep::TimedOut);
    assert_eq!(poll.observe(0), PollStep::TimedOut);
    assert_eq!(poll.left, 0);
}
