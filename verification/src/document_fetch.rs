//! The fetch of rendered documents, as far as it is a matter of counting: how
//! often a download is tried, and how long the list of files of a page is
//! waited for in the browser.
use vstd::prelude::*;
use crate::retry::RetryBudget;

verus! {

/// How many downloads of one document may fail.
pub const DOWNLOAD_LIMIT: u32 = 5;

/// Seconds between two downloads of one document.
pub const DOWNLOAD_DELAY_SECONDS: u64 = 5;

/// How often the list of files is looked for after it was asked for.
pub const FILE_LIST_POLLS: u32 = 30;

/// Milliseconds before each look.
pub const POLL_MILLISECONDS: u64 = 50;

/// The budget of the download of one document.
pub fn download_budget() -> (budget: RetryBudget)
    ensures
        budget == (RetryBudget {
            limit: DOWNLOAD_LIMIT,
            used: 0,
            delay_seconds: DOWNLOAD_DELAY_SECONDS,
        }),
{
    RetryBudget::new(DOWNLOAD_LIMIT, DOWNLOAD_DELAY_SECONDS)
}

/// What a look at the page says.
#[derive(Debug, Clone, Copy, PartialEq, Eq, Structural)]
pub enum PollStep {
    /// The list is not there yet: wait and look again.
    Again,
    /// The list is there: the document can be taken.
    Found,
    /// The looks are used up: the document is taken as it is, with a warning.
    TimedOut,
}

/// The wait for the list of files of a page.
#[derive(Debug, Clone, Copy, PartialEq, Eq, Structural)]
pub struct FileListPoll {
    /// How many looks are left.
    pub left: u32,
}

impl FileListPoll {
    /// The looks that are left after one more.
    pub open spec fn after_look(&self) -> FileListPoll {
        FileListPoll {
            left: if self.left > 0 {
                (self.left - 1) as u32
            } else {
                0
            },
        }
    }

    /// What a look says that finds `links` links in the list: the wait is over
    /// when the looks are used up, whatever was found, and when links are
    /// there.
    pub open spec fn verdict(&self, links: usize) -> PollStep {
        if self.after_look().left == 0 {
            PollStep::TimedOut
        } else if links > 0 {
            PollStep::Found
        } else {
            PollStep::Again
        }
    }

    /// A wait with all its looks left.
    pub fn new() -> (poll: Self)
        ensures
            poll.left == FILE_LIST_POLLS,
    {
        FileListPoll { left: FILE_LIST_POLLS }
    }

    /// Counts one look that found `links` links, and says how to go on.
    pub fn observe(&mut self, links: usize) -> (step: PollStep)
        ensures
            *final(self) == old(self).after_look(),
            step == old(self).verdict(links),
    {
        if self.left > 0 {
            self.left = self.left - 1;
        }
        if self.left == 0 {
            PollStep::TimedOut
        } else if links > 0 {
            PollStep::Found
        } else {
            PollStep::Again
        }
    }
}

} // verus!
