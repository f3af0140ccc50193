use dora_metrics::gatherer::correlate_responses;
use dora_metrics::params::{batch_windows, deploy_data_query_params, fill_query_params, issue_data_query_params, merge_data_query_params, DataRequest, NANOS_PER_DAY};
use dora_metrics::rows::{Data, Deployment, DeploymentStatus, Issue, JsonData, PullRequest, QueryResponse, Repository, ResultItem, Stream, User, ValueItem};

#[test]
fn test_fill_query_params_with_all_fields() {
    let request = DataRequest {
        team: Some("test_team".to_string()),
        repositories: Some(vec!["repo1".to_string(), "repo2".to_string()]),
        start: 0,
        end: 1_000_000_000,
    };

    let result = fill_query_params(&request, "query", Some("filter"), "test_service");

    assert_eq!(result.start, "0");
    assert_eq!(result.end, "1000000000");
    assert_eq!(
        result.query,
        r#"{service_namespace=`test_service`} | team_name="test_team", vcs_repository_name="repo1|repo2", query filter"#
    );
    assert_eq!(result.limit, 5000);
}

#[test]
fn test_fill_query_params_without_optional_fields() {
    let request = DataRequest {
        team: None,
        repositories: None,
        start: 0,
        end: 1_000_000_000,
    };

    let result = fill_query_params(&request, "query", None, "test_service");

    assert_eq!(result.start, "0");
    assert_eq!(result.end, "1000000000");
    assert_eq!(result.query, r#"{service_namespace=`test_service`} | query"#);
    assert_eq!(result.limit, 5000);
}

#[test]
fn stream_query_params_use_their_selectors() {
    let request = DataRequest { team: None, repositories: None, start: -5, end: 7 };

    let deploys = deploy_data_query_params(&request, "svc");
    assert_eq!(deploys.query, r"{service_namespace=`svc`} | deployment_status=~`failure|success`");
    assert_eq!(deploys.start, "-5");
    assert_eq!(deploys.end, "7");

    let merges = merge_data_query_params(&request, "svc");
    assert_eq!(
        merges.query,
        "{service_namespace=`svc`} | event_name=`change_closed`, merged_at!=\"\""
    );

    let issues = issue_data_query_params(&request, "svc");
    assert_eq!(issues.query, r"{service_namespace=`svc`} | event_name=`issue_closed` |= `incident`");
}

// A seven-and-a-half-day range with a five-day batch yields two windows
// moving backward from the end; the half day above the range's start is
// not covered.
#[test]
fn batch_windows_splits_backward() {
    let end = 7 * NANOS_PER_DAY + NANOS_PER_DAY / 2;
    let windows = batch_windows(0, end, 5);

    assert_eq!(
        windows,
        vec![(end - 5 * NANOS_PER_DAY, end), (end - 7 * NANOS_PER_DAY, end - 5 * NANOS_PER_DAY)]
    );
}

#[test]
fn batch_windows_exact_multiple() {
    let end = 10 * NANOS_PER_DAY;
    let windows = batch_windows(0, end, 5);

    assert_eq!(windows, vec![(5 * NANOS_PER_DAY, end), (0, 5 * NANOS_PER_DAY)]);
}

#[test]
fn batch_windows_empty_and_subday_ranges() {
    assert_eq!(batch_windows(5, 5, 5), vec![]);
    assert_eq!(batch_windows(0, NANOS_PER_DAY - 1, 5), vec![]);
}

fn sample_responses() -> (QueryResponse, QueryResponse, QueryResponse) {
    let deploy = QueryResponse {
        data: Data {
            result: vec![ResultItem {
                stream: Stream {
                    deployment_environment_name: Some("production".to_string()),
                    vcs_repository_name: "repo-a".to_string(),
                    team_name: "team-a".to_string(),
                    merged_at: None,
                },
                values: vec![
                    ValueItem {
                        json_data: JsonData {
                            deployment: Some(Deployment {
                                id: 1,
                                created_at: 0,
                                sha: "e".to_string(),
                                url: "https://api.github.com/repos/o/r/deployments/1".to_string(),
                            }),
                            deployment_status: Some(DeploymentStatus {
                                state: "failure".to_string(),
                            }),
                            ..Default::default()
                        },
                    },
                    ValueItem {
                        json_data: JsonData {
                            deployment: Some(Deployment {
                                id: 2,
                                created_at: 10,
                                sha: "f".to_string(),
                                url: "https://api.github.com/repos/o/r/deployments/2".to_string(),
                            }),
                            deployment_status: Some(DeploymentStatus {
                                state: "success".to_string(),
                            }),
                            ..Default::default()
                        },
                    },
                ],
            }],
        },
    };
    let issue = QueryResponse {
        data: Data {
            result: vec![ResultItem {
                stream: Stream::default(),
                values: vec![ValueItem {
                    json_data: JsonData {
                        repository: Some(Repository { name: "repo-a".to_string() }),
                        issue: Some(Issue { created_at: 2, closed_at: Some(4), number: 3 }),
                        ..Default::default()
                    },
                }],
            }],
        },
    };
    let merge = QueryResponse {
        data: Data {
            result: vec![ResultItem {
                stream: Stream { merged_at: Some(-7), ..Default::default() },
                values: vec![ValueItem {
                    json_data: JsonData {
                        pull_request: Some(PullRequest {
                            title: "change".to_string(),
                            user: User { login: "dana".to_string() },
                            merge_commit_sha: "f".to_string(),
                        }),
                        ..Default::default()
                    },
                }],
            }],
        },
    };
    (deploy, issue, merge)
}

// Running the whole correlation twice over identical responses yields
// identical record lists.
#[test]
fn correlate_responses_is_idempotent() {
    let (d, i, m) = sample_responses();
    let first = correlate_responses(d.clone(), i.clone(), m.clone(), "production,prod");
    let second = correlate_responses(d, i, m, "production,prod");

    assert_eq!(first, second);
    assert_eq!(first.len(), 2);
    assert_eq!(first[0].sha, "e");
    assert_eq!(first[0].failed_at, Some(0));
    assert_eq!(first[0].fixed_at, Some(10));
    assert_eq!(first[1].sha, "f");
    assert_eq!(first[1].merged_at, Some(-7));
    assert_eq!(first[1].user, Some("dana".to_string()));
    assert_eq!(first[1].title, Some("change".to_string()));
}
