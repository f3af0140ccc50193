use dora_metrics::events::DeployEntry;
use dora_metrics::normalize::{filter_duplicate_deployments_by_sha, merge_query_responses, sort_deploy_data, sort_issue_data, sort_merge_data};
use dora_metrics::rows::{Data, Deployment, DeploymentStatus, Issue, JsonData, PullRequest, QueryResponse, Repository, ResultItem, Stream, User, ValueItem, WorkflowRun};

#[test]
fn test_filter_duplicate_deployments_by_sha_with_successful_duplicates() {
    let mut deploys = vec![
        DeployEntry {
            sha: "abcdef".to_string(),
            status: false,
            ..Default::default()
        },
        DeployEntry {
            sha: "abcdef".to_string(),
            status: true,
            ..Default::default()
        },
        DeployEntry {
            sha: "123456".to_string(),
            status: true,
            ..Default::default()
        },
        DeployEntry {
            sha: "abcdef".to_string(),
            status: false,
            ..Default::default()
        },
    ];

    filter_duplicate_deployments_by_sha(&mut deploys);

    assert_eq!(deploys.len(), 3);
    assert!(deploys.iter().any(|d| d.sha == "abcdef" && d.status == false));
    assert!(deploys.iter().any(|d| d.sha == "abcdef" && d.status == true));
    assert!(deploys.iter().any(|d| d.sha == "123456" && d.status == true));
}

#[test]
fn test_filter_duplicate_deployments_by_sha_without_successful_duplicates() {
    let mut deploys = vec![
        DeployEntry {
            sha: "abcdef".to_string(),
            status: false,
            ..Default::default()
        },
        DeployEntry {
            sha: "123456".to_string(),
            status: true,
            ..Default::default()
        },
        DeployEntry {
            sha: "abcdef".to_string(),
            status: false,
            ..Default::default()
        },
    ];

    filter_duplicate_deployments_by_sha(&mut deploys);

    assert_eq!(deploys.len(), 2);
    assert!(deploys.iter().any(|d| d.sha == "abcdef" && d.status == false));
    assert!(deploys.iter().any(|d| d.sha == "123456" && d.status == true));
}

#[test]
fn test_filter_duplicate_deployments_by_sha_only_one_deployment() {
    let mut deploys = vec![DeployEntry {
        sha: "abcdef".to_string(),
        status: true,
        ..Default::default()
    }];

    filter_duplicate_deployments_by_sha(&mut deploys);

    assert_eq!(deploys.len(), 1);
    assert_eq!(deploys[0].sha, "abcdef");
    assert_eq!(deploys[0].status, true);
}

#[test]
fn test_filter_duplicate_deployments_by_sha_no_deployments() {
    let mut deploys: Vec<DeployEntry> = vec![];

    filter_duplicate_deployments_by_sha(&mut deploys);

    assert_eq!(deploys.len(), 0);
}

#[test]
fn test_filter_duplicate_deployments_by_sha_all_successful() {
    let mut deploys = vec![
        DeployEntry {
            sha: "abcdef".to_string(),
            status: true,
            ..Default::default()
        },
        DeployEntry {
            sha: "abcdef".to_string(),
            status: true,
            ..Default::default()
        },
        DeployEntry {
            sha: "123456".to_string(),
            status: true,
            ..Default::default()
        },
    ];

    filter_duplicate_deployments_by_sha(&mut deploys);

    assert_eq!(deploys.len(), 2);
    assert!(deploys.iter().any(|d| d.sha == "abcdef" && d.status == true));
    assert!(deploys.iter().any(|d| d.sha == "123456" && d.status == true));
}

fn deploy_value(id: u32, created_at: i64, sha: &str, state: &str, workflow_id: u32) -> ValueItem {
    ValueItem {
        json_data: JsonData {
            deployment: Some(Deployment {
                id,
                created_at,
                sha: sha.to_string(),
                url: format!("https://api.github.com/repos/o/r/deployments/{}", id),
            }),
            deployment_status: Some(DeploymentStatus { state: state.to_string() }),
            workflow_run: Some(WorkflowRun { workflow_id: Some(workflow_id) }),
            ..Default::default()
        },
    }
}

fn deploy_item(env: &str, repo: &str, values: Vec<ValueItem>) -> ResultItem {
    ResultItem {
        stream: Stream {
            deployment_environment_name: Some(env.to_string()),
            vcs_repository_name: repo.to_string(),
            team_name: "team-a".to_string(),
            merged_at: None,
        },
        values,
    }
}

// Rows from non-production environments are dropped, including those
// matched only through the exclusion prefix; the rest are grouped,
// ordered by creation time, and deduplicated by SHA. The environment
// comparison is case-insensitive.
#[test]
fn sort_deploy_data_filters_groups_and_orders() {
    let data = QueryResponse {
        data: Data {
            result: vec![
                deploy_item(
                    "PRODUCTION",
                    "repo-a",
                    vec![
                        deploy_value(2, 20, "s2", "success", 72),
                        deploy_value(1, 10, "s1", "failure", 71),
                        deploy_value(3, 15, "s1", "success", 73),
                    ],
                ),
                deploy_item("dev", "repo-a", vec![deploy_value(4, 5, "s4", "success", 74)]),
                deploy_item("prod-eu", "repo-a", vec![deploy_value(5, 6, "s5", "success", 75)]),
                deploy_item("prod", "repo-b", vec![deploy_value(6, 7, "s6", "failure", 76)]),
            ],
        },
    };

    let groups = sort_deploy_data(data, "production,prod");

    assert_eq!(groups.len(), 2);
    assert_eq!(groups[0].repository, "repo-a");
    // s1 failed at 10, its retry succeeded at 15: both stay; s2 at 20.
    let shas: Vec<&str> = groups[0].deployments.iter().map(|d| d.sha.as_str()).collect();
    assert_eq!(shas, vec!["s1", "s1", "s2"]);
    assert!(!groups[0].deployments[0].status);
    assert!(groups[0].deployments[1].status);
    for w in groups[0].deployments.windows(2) {
        assert!(w[0].created_at <= w[1].created_at);
    }
    assert_eq!(groups[0].deployments[2].deploy_url, "https://github.com/o/r/actions/runs/72");
    assert_eq!(groups[0].deployments[2].change_url, "https://github.com/o/r/commit/s2");
    assert_eq!(groups[1].repository, "repo-b");
    assert_eq!(groups[1].deployments.len(), 1);
}

// Issues are grouped by the repository embedded in each row value and
// ordered by creation time within each group.
#[test]
fn sort_issue_data_groups_and_orders() {
    let issue_value = |repo: &str, created_at: i64, number: u32| ValueItem {
        json_data: JsonData {
            repository: Some(Repository { name: repo.to_string() }),
            issue: Some(Issue { created_at, closed_at: None, number }),
            ..Default::default()
        },
    };
    let data = QueryResponse {
        data: Data {
            result: vec![ResultItem {
                stream: Stream::default(),
                values: vec![
                    issue_value("repo-a", 30, 1),
                    issue_value("repo-b", 5, 2),
                    issue_value("repo-a", 10, 3),
                ],
            }],
        },
    };

    let groups = sort_issue_data(data);

    assert_eq!(groups.len(), 2);
    assert_eq!(groups[0].repository, "repo-a");
    assert_eq!(groups[0].issues.len(), 2);
    assert_eq!(groups[0].issues[0].number, 3);
    assert_eq!(groups[0].issues[1].number, 1);
    assert_eq!(groups[1].repository, "repo-b");
    assert_eq!(groups[1].issues[0].number, 2);
}

// The first merge observed for a SHA wins; later duplicates are dropped.
#[test]
fn sort_merge_data_first_observation_wins() {
    let merge_value = |sha: &str, user: &str, title: &str| ValueItem {
        json_data: JsonData {
            pull_request: Some(PullRequest {
                title: title.to_string(),
                user: User { login: user.to_string() },
                merge_commit_sha: sha.to_string(),
            }),
            ..Default::default()
        },
    };
    let data = QueryResponse {
        data: Data {
            result: vec![ResultItem {
                stream: Stream { merged_at: Some(50), ..Default::default() },
                values: vec![
                    merge_value("m1", "alice", "first"),
                    merge_value("m1", "bob", "second"),
                    merge_value("m2", "carol", "third"),
                ],
            }],
        },
    };

    let records = sort_merge_data(data);

    assert_eq!(records.len(), 2);
    assert_eq!(records[0].sha, "m1");
    assert_eq!(records[0].entry.user, "alice");
    assert_eq!(records[0].entry.title, "first");
    assert_eq!(records[0].entry.merged_at, 50);
    assert_eq!(records[1].sha, "m2");
}

// Window responses are concatenated per stream, in window order.
#[test]
fn merge_query_responses_concatenates_in_order() {
    let item = |repo: &str| ResultItem {
        stream: Stream { vcs_repository_name: repo.to_string(), ..Default::default() },
        values: Vec::new(),
    };
    let resp = |repo: &str| QueryResponse { data: Data { result: vec![item(repo)] } };
    let parts = vec![
        (resp("d1"), resp("i1"), resp("m1")),
        (resp("d2"), resp("i2"), resp("m2")),
    ];

    let (deploy, issue, merge) = merge_query_responses(parts);

    assert_eq!(deploy.data.result.len(), 2);
    assert_eq!(deploy.data.result[0].stream.vcs_repository_name, "d1");
    assert_eq!(deploy.data.result[1].stream.vcs_repository_name, "d2");
    assert_eq!(issue.data.result[0].stream.vcs_repository_name, "i1");
    assert_eq!(merge.data.result[1].stream.vcs_repository_name, "m2");
}
