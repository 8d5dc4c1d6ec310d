//! The shapes of Travis builds and jobs, and the job state machine's final
//! states.  The values are produced at the system's edge and handed to the
//! library as plain data.

use crate::ci;
use crate::ci::Outcome;
use vstd::prelude::*;
use vstd::string::StringExecFns;
use vstd::string::StringSliceAdditionalSpecFns;

verus! {

/// One Travis build with its jobs.
pub struct Build {
    pub branch: Branch,
    pub commit: Commit,
    pub pull_request_number: Option<u32>,
    pub state: JobState,
    pub jobs: Vec<Job>,
}

/// One job of a Travis build.
pub struct Job {
    pub id: u64,
    pub state: JobState,
}

/// The branch a build ran on.
pub struct Branch {
    pub name: String,
}

/// The commit a build ran on.
pub struct Commit {
    pub message: String,
    pub sha: String,
}

/// The lifecycle state of a Travis job.
#[derive(Clone, Copy, PartialEq, Eq, Structural, Hash, Debug)]
pub enum JobState {
    Received,
    Queued,
    Created,
    Started,
    Passed,
    Canceled,
    Errored,
    Failed,
}

impl JobState {
    /// The state's lower-case name, as the API spells it.
    pub fn name(&self) -> (r: String)
        ensures
            r@ == self.name_view(),
    {
        match self {
            JobState::Received => "received".to_owned(),
            JobState::Queued => "queued".to_owned(),
            JobState::Created => "created".to_owned(),
            JobState::Started => "started".to_owned(),
            JobState::Passed => "passed".to_owned(),
            JobState::Canceled => "canceled".to_owned(),
            JobState::Errored => "errored".to_owned(),
            JobState::Failed => "failed".to_owned(),
        }
    }

    /// The state a lower-case name denotes, if any: the inverse of
    /// [`JobState::name`].
    pub fn from_name(name: &str) -> (r: Option<JobState>)
        ensures
            (match r {
                Some(st) => st.name_view() == name@,
                None => forall|st: JobState| (#[trigger] st.name_view()) != name@,
            }),
    {
        let r: Option<JobState> = if str_eq(name, "received") {
            Some(JobState::Received)
        } else if str_eq(name, "queued") {
            Some(JobState::Queued)
        } else if str_eq(name, "created") {
            Some(JobState::Created)
        } else if str_eq(name, "started") {
            Some(JobState::Started)
        } else if str_eq(name, "passed") {
            Some(JobState::Passed)
        } else if str_eq(name, "canceled") {
            Some(JobState::Canceled)
        } else if str_eq(name, "errored") {
            Some(JobState::Errored)
        } else if str_eq(name, "failed") {
            Some(JobState::Failed)
        } else {
            None
        };
        proof {
            if r is None {
                assert forall|st: JobState| (#[trigger] st.name_view()) != name@ by {
                    match st {
                        JobState::Received => assert(name@ != "received"@),
                        JobState::Queued => assert(name@ != "queued"@),
                        JobState::Created => assert(name@ != "created"@),
                        JobState::Started => assert(name@ != "started"@),
                        JobState::Passed => assert(name@ != "passed"@),
                        JobState::Canceled => assert(name@ != "canceled"@),
                        JobState::Errored => assert(name@ != "errored"@),
                        JobState::Failed => assert(name@ != "failed"@),
                    }
                }
            }
        }
        r
    }

    /// The character shape of the state's name.
    pub open spec fn name_view(self) -> Seq<char> {
        match self {
            JobState::Received => "received"@,
            JobState::Queued => "queued"@,
            JobState::Created => "created"@,
            JobState::Started => "started"@,
            JobState::Passed => "passed"@,
            JobState::Canceled => "canceled"@,
            JobState::Errored => "errored"@,
            JobState::Failed => "failed"@,
        }
    }

    /// Whether the job has reached a final state.
    pub fn finished(self) -> (r: bool)
        ensures
            r == self.spec_finished(),
    {
        match self {
            JobState::Received | JobState::Queued | JobState::Created | JobState::Started => false,
            _ => true,
        }
    }
}

impl Outcome for JobState {
    open spec fn spec_finished(&self) -> bool {
        !(self is Received || self is Queued || self is Created || self is Started)
    }

    open spec fn spec_passed(&self) -> bool {
        self is Passed
    }

    open spec fn spec_failed(&self) -> bool {
        self is Failed || self is Errored
    }

    fn is_finished(&self) -> (r: bool) {
        self.finished()
    }

    fn is_passed(&self) -> (r: bool) {
        *self == JobState::Passed
    }

    fn is_failed(&self) -> (r: bool) {
        *self == JobState::Failed || *self == JobState::Errored
    }
}

impl ci::Build for Build {
    type O = JobState;

    type J = Job;

    fn pr_number(&self) -> Option<u32> {
        self.pull_request_number
    }

    fn branch_name(&self) -> &str {
        self.branch.name.as_str()
    }

    fn commit_sha(&self) -> ci::BuildCommit<'_> {
        ci::BuildCommit::Head { sha: self.commit.sha.as_str() }
    }

    fn outcome(&self) -> &JobState {
        &self.state
    }

    fn jobs(&self) -> Vec<&Job> {
        let mut r: Vec<&Job> = Vec::new();
        let mut i: usize = 0;
        while i < self.jobs.len()
            invariant
                i <= self.jobs@.len(),
            decreases self.jobs@.len() - i,
        {
            r.push(&self.jobs[i]);
            i += 1;
        }
        r
    }
}

impl ci::Job for Job {
    type O = JobState;

    fn id(&self) -> String {
        let mut r = String::new();
        push_u64_decimal(&mut r, self.id);
        r
    }

    fn html_url(&self) -> String {
        let mut r = "https://travis-ci.com/jobs/".to_owned();
        push_u64_decimal(&mut r, self.id);
        r
    }

    fn log_url(&self) -> Option<String> {
        let mut r = "https://api.travis-ci.com/v3/job/".to_owned();
        push_u64_decimal(&mut r, self.id);
        r.append("/log.txt");
        Some(r)
    }

    fn log_file_name(&self) -> String {
        let mut r = "travis-".to_owned();
        push_u64_decimal(&mut r, self.id);
        r.append("-");
        r.append(self.state.name().as_str());
        r
    }

    fn outcome(&self) -> &JobState {
        &self.state
    }
}

/// Appends the decimal digits of `v` to `out`.
fn push_u64_decimal(out: &mut String, v: u64) {
    let mut digits: Vec<u64> = Vec::new();
    let mut rest: u64 = v;
    if rest == 0 {
        digits.push(0);
    }
    while rest > 0
        decreases rest,
    {
        digits.push(rest % 10);
        rest = rest / 10;
    }
    let mut k: usize = digits.len();
    while k > 0
        invariant
            k <= digits@.len(),
        decreases k,
    {
        k -= 1;
        out.append(digit_str(digits[k]));
    }
}

/// Whether two string slices hold the same characters.
fn str_eq(a: &str, b: &str) -> (r: bool)
    ensures
        r == (a@ == b@),
{
    let x = a.as_bytes();
    let y = b.as_bytes();
    if x.len() != y.len() {
        proof {
            if a@ == b@ {
                assert(a.spec_bytes() == b.spec_bytes());
            }
        }
        return false;
    }
    let mut i: usize = 0;
    while i < x.len()
        invariant
            i <= x@.len(),
            x@.len() == y@.len(),
            x@ == a.spec_bytes(),
            y@ == b.spec_bytes(),
            forall|k: int| 0 <= k < i ==> x@[k] == y@[k],
        decreases x@.len() - i,
    {
        if x[i] != y[i] {
            proof {
                if a@ == b@ {
                    assert(a.spec_bytes() == b.spec_bytes());
                }
            }
            return false;
        }
        i += 1;
    }
    proof {
        assert(x@ =~= y@);
        vstd::utf8::encode_utf8_decode_utf8(a@);
        vstd::utf8::encode_utf8_decode_utf8(b@);
        assert(a@ == vstd::utf8::decode_utf8(a.spec_bytes()));
        assert(b@ == vstd::utf8::decode_utf8(b.spec_bytes()));
    }
    true
}

fn digit_str(d: u64) -> &'static str {
    match d {
        0u64 => "0",
        1u64 => "1",
        2u64 => "2",
        3u64 => "3",
        4u64 => "4",
        5u64 => "5",
        6u64 => "6",
        7u64 => "7",
        8u64 => "8",
        _ => "9",
    }
}

} // verus!
