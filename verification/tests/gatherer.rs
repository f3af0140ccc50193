use chrono::{Duration, Utc};

use dora_metrics::events::{DeployEntry, DeployGroup, GatheredData, IssueEntry, IssueGroup, MergeEntry, MergeRecord};
use dora_metrics::gatherer::{extract_failure_by_sha, find_failures_per_deployment, link_data, Failure};

fn nanos_ago(hours: i64) -> i64 {
    (Utc::now() - Duration::hours(hours)).timestamp_nanos_opt().unwrap()
}

fn now_nanos() -> i64 {
    Utc::now().timestamp_nanos_opt().unwrap()
}

#[test]
fn test_extract_failure_by_sha_with_failure_no_issues() {
    let deployment = DeployEntry {
        status: false,
        created_at: nanos_ago(3),
        sha: "abcdef".to_string(),
        deploy_url: "https://github.com/owner/repo/actions/runs/123456".to_string(),
        repository: "repo-a".to_string(),
        ..Default::default()
    };

    let gathered_data = GatheredData {
        issues_by_repo: Vec::new(),
        ..Default::default()
    };

    let next_deployment_at = now_nanos();
    let (sha, failure) = extract_failure_by_sha(&deployment, next_deployment_at, &gathered_data);

    assert_eq!(sha, "abcdef");
    assert_eq!(
        failure,
        Failure {
            failed_at: Some(deployment.created_at),
            fixed_at: None,
            issue_url: None,
            fixed_url: None,
        }
    );
}

#[test]
fn test_extract_failure_by_sha_with_issues_and_fix() {
    let deployment = DeployEntry {
        status: true,
        created_at: nanos_ago(3),
        sha: "abcdef".to_string(),
        deploy_url: "https://github.com/owner/repo/actions/runs/123456".to_string(),
        repository: "repo-a".to_string(),
        ..Default::default()
    };

    let issue1 = IssueEntry {
        created_at: nanos_ago(2),
        closed_at: Some(nanos_ago(1)),
        number: 42,
    };

    let gathered_data = GatheredData {
        issues_by_repo: vec![IssueGroup {
            repository: "repo-a".to_string(),
            issues: vec![issue1.clone()],
        }],
        ..Default::default()
    };

    let next_deployment_at = now_nanos();
    let (sha, failure) = extract_failure_by_sha(&deployment, next_deployment_at, &gathered_data);

    assert_eq!(sha, "abcdef");
    assert_eq!(
        failure,
        Failure {
            failed_at: Some(issue1.created_at),
            fixed_at: Some(issue1.closed_at.unwrap()),
            issue_url: Some("https://github.com/owner/repo/issues/42".to_string()),
            fixed_url: None,
        }
    );
}

#[test]
fn test_extract_failure_by_sha_with_issues_but_no_fix() {
    let deployment = DeployEntry {
        status: true,
        created_at: nanos_ago(3),
        sha: "abcdef".to_string(),
        deploy_url: "https://github.com/owner/repo/actions/runs/123456".to_string(),
        repository: "repo-a".to_string(),
        ..Default::default()
    };

    let issue1 = IssueEntry {
        created_at: nanos_ago(2),
        closed_at: None,
        number: 42,
    };

    let gathered_data = GatheredData {
        issues_by_repo: vec![IssueGroup {
            repository: "repo-a".to_string(),
            issues: vec![issue1.clone()],
        }],
        ..Default::default()
    };

    let next_deployment_at = now_nanos();
    let (sha, failure) = extract_failure_by_sha(&deployment, next_deployment_at, &gathered_data);

    assert_eq!(sha, "abcdef");
    assert_eq!(
        failure,
        Failure {
            failed_at: Some(issue1.created_at),
            fixed_at: None,
            issue_url: Some("https://github.com/owner/repo/issues/42".to_string()),
            fixed_url: None,
        }
    );
}

#[test]
fn test_extract_failure_by_sha_no_issues_no_failure() {
    let deployment = DeployEntry {
        status: true,
        created_at: nanos_ago(3),
        sha: "abcdef".to_string(),
        deploy_url: "https://github.com/owner/repo/actions/runs/123456".to_string(),
        repository: "repo-a".to_string(),
        ..Default::default()
    };

    let gathered_data = GatheredData {
        issues_by_repo: Vec::new(),
        ..Default::default()
    };

    let next_deployment_at = now_nanos();
    let (sha, failure) = extract_failure_by_sha(&deployment, next_deployment_at, &gathered_data);

    assert_eq!(sha, "");
    assert_eq!(failure, Failure::default());
}

fn deploy(repo: &str, sha: &str, status: bool, created_at: i64, deploy_url: &str) -> DeployEntry {
    DeployEntry {
        status,
        repository: repo.to_string(),
        team: "team-a".to_string(),
        created_at,
        sha: sha.to_string(),
        deploy_url: deploy_url.to_string(),
        change_url: String::new(),
    }
}

// A successful deployment followed by an issue that opens and closes
// before the next deployment: the window breaks at the issue's creation
// time, and the issue's own closing time resolves it since it lies
// strictly after the break.
#[test]
fn scenario_issue_after_successful_deployment() {
    let d1 = deploy("repo-a", "a", true, 0, "https://github.com/o/r/actions/runs/1");
    let d2 = deploy("repo-a", "z", true, 5, "https://github.com/o/r/actions/runs/2");

    let data = GatheredData {
        deployments_by_repo: vec![DeployGroup {
            repository: "repo-a".to_string(),
            deployments: vec![d1, d2],
        }],
        issues_by_repo: vec![IssueGroup {
            repository: "repo-a".to_string(),
            issues: vec![IssueEntry { created_at: 1, closed_at: Some(3), number: 9 }],
        }],
        merges_by_sha: Vec::new(),
    };

    let failures = find_failures_per_deployment(&data);

    assert_eq!(failures.len(), 1);
    assert_eq!(failures[0].sha, "a");
    assert_eq!(failures[0].failure.failed_at, Some(1));
    assert_eq!(failures[0].failure.fixed_at, Some(3));
    assert_eq!(
        failures[0].failure.issue_url,
        Some("https://github.com/o/r/issues/9".to_string())
    );
}

// A failed deployment resolved by the next clean one: the window runs
// from the failing run to the clean run, which also contributes its URL.
#[test]
fn scenario_failure_resolved_by_clean_deployment() {
    let d1 = deploy("repo-a", "b", false, 0, "https://github.com/o/r/actions/runs/1");
    let d2 = deploy("repo-a", "z", true, 10, "https://github.com/o/r/actions/runs/2");

    let data = GatheredData {
        deployments_by_repo: vec![DeployGroup {
            repository: "repo-a".to_string(),
            deployments: vec![d1, d2],
        }],
        issues_by_repo: Vec::new(),
        merges_by_sha: Vec::new(),
    };

    let failures = find_failures_per_deployment(&data);

    assert_eq!(failures.len(), 1);
    assert_eq!(failures[0].sha, "b");
    assert_eq!(failures[0].failure.failed_at, Some(0));
    assert_eq!(failures[0].failure.fixed_at, Some(10));
    assert_eq!(
        failures[0].failure.fixed_url,
        Some("https://github.com/o/r/actions/runs/2".to_string())
    );
}

// A second failure while one is already open is dropped: only the first
// window is tracked and resolved by the clean deployment.
#[test]
fn scenario_second_failure_dropped_while_open() {
    let d1 = deploy("repo-a", "c", false, 0, "https://github.com/o/r/actions/runs/1");
    let d2 = deploy("repo-a", "d", false, 5, "https://github.com/o/r/actions/runs/2");
    let d3 = deploy("repo-a", "z", true, 10, "https://github.com/o/r/actions/runs/3");

    let data = GatheredData {
        deployments_by_repo: vec![DeployGroup {
            repository: "repo-a".to_string(),
            deployments: vec![d1, d2, d3],
        }],
        issues_by_repo: Vec::new(),
        merges_by_sha: Vec::new(),
    };

    let failures = find_failures_per_deployment(&data);

    assert_eq!(failures.len(), 1);
    assert_eq!(failures[0].sha, "c");
    assert_eq!(failures[0].failure.failed_at, Some(0));
    assert_eq!(failures[0].failure.fixed_at, Some(10));
    assert!(!failures.iter().any(|f| f.sha == "d"));
}

// A merge joined onto a clean deployment by SHA: the record carries the
// merge's title and author and no failure fields.
#[test]
fn scenario_merge_joined_onto_clean_deployment() {
    let d1 = deploy("repo-a", "e", true, 0, "https://github.com/o/r/actions/runs/1");

    let data = GatheredData {
        deployments_by_repo: vec![DeployGroup {
            repository: "repo-a".to_string(),
            deployments: vec![d1],
        }],
        issues_by_repo: Vec::new(),
        merges_by_sha: vec![MergeRecord {
            sha: "e".to_string(),
            entry: MergeEntry {
                merged_at: -100,
                user: "alice".to_string(),
                title: "fix bug".to_string(),
            },
        }],
    };

    let records = link_data(data);

    assert_eq!(records.len(), 1);
    assert_eq!(records[0].sha, "e");
    assert_eq!(records[0].title, Some("fix bug".to_string()));
    assert_eq!(records[0].user, Some("alice".to_string()));
    assert_eq!(records[0].merged_at, Some(-100));
    assert_eq!(records[0].failed_at, None);
    assert_eq!(records[0].fixed_at, None);
}

// Linked records copy the deployment's own fields and join failures by
// SHA.
#[test]
fn link_data_joins_failure_fields() {
    let d1 = deploy("repo-a", "b", false, 0, "https://github.com/o/r/actions/runs/1");
    let d2 = deploy("repo-a", "z", true, 10, "https://github.com/o/r/actions/runs/2");

    let data = GatheredData {
        deployments_by_repo: vec![DeployGroup {
            repository: "repo-a".to_string(),
            deployments: vec![d1, d2],
        }],
        issues_by_repo: Vec::new(),
        merges_by_sha: Vec::new(),
    };

    let records = link_data(data);

    assert_eq!(records.len(), 2);
    assert_eq!(records[0].sha, "b");
    assert_eq!(records[0].repository, "repo-a");
    assert_eq!(records[0].team, "team-a");
    assert!(!records[0].status);
    assert_eq!(records[0].failed_at, Some(0));
    assert_eq!(records[0].fixed_at, Some(10));
    assert_eq!(
        records[0].fixed_url,
        Some("https://github.com/o/r/actions/runs/2".to_string())
    );
    assert_eq!(records[1].sha, "z");
    assert_eq!(records[1].failed_at, None);
}
