//! The items the webhook service hands to the worker.

use crate::github;
use vstd::prelude::*;

verus! {

/// One unit of work for the worker: a webhook payload together with
/// GitHub's delivery identifier, or the request to shut down.
#[allow(inconsistent_fields)]
pub enum QueueItem {
    GitHubStatus { payload: github::CommitStatusEvent, delivery_id: String },
    GitHubCheckRun { payload: github::CheckRunEvent, delivery_id: String },
    GitHubPullRequest { payload: github::PullRequestEvent, delivery_id: String },
    GracefulShutdown,
}

impl QueueItem {
    /// The delivery identifier of the event, if the item carries one.
    pub closed spec fn spec_delivery_id(&self) -> Option<Seq<char>> {
        match self {
            QueueItem::GitHubStatus { delivery_id, .. } => Some(delivery_id@),
            QueueItem::GitHubCheckRun { delivery_id, .. } => Some(delivery_id@),
            QueueItem::GitHubPullRequest { delivery_id, .. } => Some(delivery_id@),
            QueueItem::GracefulShutdown => None,
        }
    }

    /// GitHub's delivery identifier, used to deduplicate redelivered
    /// events; the shutdown request has none.
    pub fn delivery_id(&self) -> (r: Option<&str>)
        ensures
            (match r {
                Some(s) => self.spec_delivery_id() == Some(s@),
                None => self.spec_delivery_id() is None,
            }),
    {
        match self {
            QueueItem::GitHubStatus { delivery_id, .. } => Some(delivery_id.as_str()),
            QueueItem::GitHubCheckRun { delivery_id, .. } => Some(delivery_id.as_str()),
            QueueItem::GitHubPullRequest { delivery_id, .. } => Some(delivery_id.as_str()),
            QueueItem::GracefulShutdown => None,
        }
    }
}

} // verus!
