use rust_log_analyzer as rla;

use rla::ci::{Build as _, Job as _, Outcome};
use rla::github::{BuildConclusion, BuildOutcome, BuildStatus};
use rla::queue::QueueItem;
use rla::travis;

#[test]
fn github_outcome_flags() {
    let passed = BuildOutcome::new(BuildStatus::Completed, Some(BuildConclusion::Success));
    assert!(passed.is_finished());
    assert!(passed.is_passed());
    assert!(!passed.is_failed());

    let failed = BuildOutcome::new(BuildStatus::Completed, Some(BuildConclusion::Failure));
    assert!(failed.is_finished());
    assert!(!failed.is_passed());
    assert!(failed.is_failed());

    let running = BuildOutcome::new(BuildStatus::InProgress, None);
    assert!(!running.is_finished());
    assert!(!running.is_passed());
    assert!(!running.is_failed());

    let cancelled = BuildOutcome::new(BuildStatus::Completed, Some(BuildConclusion::Cancelled));
    assert!(cancelled.is_finished());
    assert!(!cancelled.is_passed());
    assert!(!cancelled.is_failed());
}

#[test]
fn travis_job_state_finished() {
    assert!(!travis::JobState::Received.finished());
    assert!(!travis::JobState::Queued.finished());
    assert!(!travis::JobState::Created.finished());
    assert!(!travis::JobState::Started.finished());
    assert!(travis::JobState::Passed.finished());
    assert!(travis::JobState::Canceled.finished());
    assert!(travis::JobState::Errored.finished());
    assert!(travis::JobState::Failed.finished());
}

#[test]
fn travis_job_state_outcome() {
    assert!(travis::JobState::Passed.is_passed());
    assert!(!travis::JobState::Passed.is_failed());
    assert!(travis::JobState::Errored.is_failed());
    assert!(travis::JobState::Failed.is_failed());
    assert!(!travis::JobState::Canceled.is_failed());
    assert_eq!("errored", travis::JobState::Errored.name());
}

#[test]
fn travis_build_presents_ci_shape() {
    let build = travis::Build {
        branch: travis::Branch { name: "auto".to_string() },
        commit: travis::Commit { message: "m".to_string(), sha: "abc123".to_string() },
        pull_request_number: Some(7),
        state: travis::JobState::Failed,
        jobs: vec![
            travis::Job { id: 41, state: travis::JobState::Passed },
            travis::Job { id: 42, state: travis::JobState::Failed },
        ],
    };
    assert_eq!(Some(7), build.pr_number());
    assert_eq!("auto", build.branch_name());
    assert!(build.outcome().is_failed());
    let jobs = build.jobs();
    assert_eq!(2, jobs.len());
    assert_eq!("42", jobs[1].id());
    assert_eq!("https://travis-ci.com/jobs/41", jobs[0].html_url());
    assert_eq!(
        Some("https://api.travis-ci.com/v3/job/42/log.txt".to_string()),
        jobs[1].log_url()
    );
    assert_eq!("travis-42-failed", jobs[1].log_file_name());
}

#[test]
fn queue_item_delivery_id() {
    let item = QueueItem::GitHubPullRequest {
        payload: rla::github::PullRequestEvent {
            action: rla::github::PullRequestAction::Synchronize,
            number: 9,
            repository: rla::github::Repository { full_name: "a/b".to_string() },
        },
        delivery_id: "deadbeef".to_string(),
    };
    assert_eq!(Some("deadbeef"), item.delivery_id());
    assert_eq!(None, QueueItem::GracefulShutdown.delivery_id());
}

#[test]
fn travis_job_state_names_round_trip() {
    let states = [
        travis::JobState::Received,
        travis::JobState::Queued,
        travis::JobState::Created,
        travis::JobState::Started,
        travis::JobState::Passed,
        travis::JobState::Canceled,
        travis::JobState::Errored,
        travis::JobState::Failed,
    ];
    for st in states {
        assert_eq!(Some(st), travis::JobState::from_name(&st.name()));
    }
    assert_eq!(None, travis::JobState::from_name("running"));
    assert_eq!(None, travis::JobState::from_name(""));
}
