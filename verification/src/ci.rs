//! The shape every CI platform presents to the analyzer: builds made of
//! jobs, each with an outcome and a downloadable log.

use vstd::prelude::*;

verus! {

/// The commit a build ran on.  Some platforms report the head commit of the
/// branch or pull request, others a merge commit that must be resolved to
/// its second parent.
#[derive(Debug)]
pub enum BuildCommit<'a> {
    Merge { sha: &'a str },
    Head { sha: &'a str },
}

/// The outcome of a build or job.
pub trait Outcome {
    /// Whether the run has come to an end.
    spec fn spec_finished(&self) -> bool;

    /// Whether the run ended successfully.
    spec fn spec_passed(&self) -> bool;

    /// Whether the run ended in failure.
    spec fn spec_failed(&self) -> bool;

    fn is_finished(&self) -> (r: bool)
        ensures
            r == self.spec_finished(),
    ;

    fn is_passed(&self) -> (r: bool)
        ensures
            r == self.spec_passed(),
    ;

    fn is_failed(&self) -> (r: bool)
        ensures
            r == self.spec_failed(),
    ;
}

/// One build: an ordered collection of jobs with shared metadata.
pub trait Build {
    type O: Outcome;

    type J: Job;

    fn pr_number(&self) -> Option<u32>;

    fn branch_name(&self) -> &str;

    fn commit_sha(&self) -> BuildCommit<'_>;

    fn outcome(&self) -> &Self::O;

    fn jobs(&self) -> Vec<&Self::J>;
}

/// One job of a build.
pub trait Job {
    type O: Outcome;

    fn id(&self) -> String;

    fn html_url(&self) -> String;

    /// Some platforms have no log URL for some jobs.
    fn log_url(&self) -> Option<String>;

    fn log_file_name(&self) -> String;

    fn outcome(&self) -> &Self::O;
}

} // verus!
