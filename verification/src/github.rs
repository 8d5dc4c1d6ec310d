//! The shapes of the GitHub data the analyzer works with: build outcomes of
//! check runs, webhook event payloads, and commit metadata.  The values are
//! produced at the system's edge (webhook bodies, API responses) and handed
//! to the library as plain data.

use crate::ci::Outcome;
use vstd::prelude::*;

verus! {

/// Where a check run stands.
#[derive(PartialEq, Eq, Structural, Debug)]
pub enum BuildStatus {
    Queued,
    InProgress,
    Completed,
}

/// How a completed check run ended.
#[derive(PartialEq, Eq, Structural, Debug, Clone, Copy)]
pub enum BuildConclusion {
    Success,
    Failure,
    Neutral,
    Cancelled,
    TimedOut,
    ActionRequired,
    Skipped,
}

/// The outcome of a check run: its status, and its conclusion once the
/// status is `Completed`.
#[derive(Debug)]
pub struct BuildOutcome {
    status: BuildStatus,
    conclusion: Option<BuildConclusion>,
}

impl BuildOutcome {
    pub closed spec fn spec_status(&self) -> BuildStatus {
        self.status
    }

    pub closed spec fn spec_conclusion(&self) -> Option<BuildConclusion> {
        self.conclusion
    }

    pub fn new(status: BuildStatus, conclusion: Option<BuildConclusion>) -> (r: BuildOutcome)
        ensures
            r.spec_status() == status,
            r.spec_conclusion() == conclusion,
    {
        BuildOutcome { status, conclusion }
    }
}

impl Outcome for BuildOutcome {
    open spec fn spec_finished(&self) -> bool {
        self.spec_status() is Completed
    }

    open spec fn spec_passed(&self) -> bool {
        self.spec_finished() && self.spec_conclusion() == Some(BuildConclusion::Success)
    }

    open spec fn spec_failed(&self) -> bool {
        self.spec_finished() && self.spec_conclusion() == Some(BuildConclusion::Failure)
    }

    fn is_finished(&self) -> (r: bool) {
        self.status == BuildStatus::Completed
    }

    fn is_passed(&self) -> (r: bool) {
        self.is_finished() && (match self.conclusion {
            Some(c) => c == BuildConclusion::Success,
            None => false,
        })
    }

    fn is_failed(&self) -> (r: bool) {
        self.is_finished() && (match self.conclusion {
            Some(c) => c == BuildConclusion::Failure,
            None => false,
        })
    }
}

/// A `status` webhook event.
pub struct CommitStatusEvent {
    pub target_url: String,
    pub context: String,
    pub repository: Repository,
}

/// A pull request, as far as the analyzer needs it.
pub struct Pr {
    pub head: PrCommitRef,
}

/// The head commit reference of a pull request.
pub struct PrCommitRef {
    pub sha: String,
}

/// A commit with its parents.
pub struct CommitMeta {
    pub commit: Commit,
    pub parents: Vec<CommitParent>,
}

/// The message of a commit.
pub struct Commit {
    pub message: String,
}

/// One parent of a commit.
pub struct CommitParent {
    pub sha: String,
}

/// A `check_run` webhook event.
pub struct CheckRunEvent {
    pub check_run: CheckRun,
    pub repository: Repository,
}

/// One check run.
pub struct CheckRun {
    pub url: String,
    pub external_id: String,
    pub details_url: String,
    pub app: App,
    pub check_suite: CheckSuite,
    pub outcome: BuildOutcome,
}

/// The suite a check run belongs to.
pub struct CheckSuite {
    pub id: u64,
    pub url: String,
}

/// The application that produced a check run.
pub struct App {
    pub id: u64,
}

/// The repository an event concerns.
pub struct Repository {
    pub full_name: String,
}

/// What happened to a pull request.
#[derive(PartialEq, Eq, Structural, Debug)]
pub enum PullRequestAction {
    Opened,
    Edited,
    Closed,
    Assigned,
    Unassigned,
    ReviewRequested,
    ReviewRequestRemoved,
    ReadyForReview,
    Labeled,
    Unlabeled,
    Synchronize,
    Locked,
    Unlocked,
    Reopened,
}

/// A `pull_request` webhook event.
pub struct PullRequestEvent {
    pub action: PullRequestAction,
    pub number: u32,
    pub repository: Repository,
}

} // verus!
