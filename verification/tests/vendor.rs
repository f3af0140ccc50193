use dora_metrics::rows::{Deployment, JsonData, ValueItem, WorkflowRun};
use dora_metrics::service::{team_names, GitHubTeam};
use dora_metrics::vendor::{EventVendorFunctions, GitHub};

#[test]
fn test_extract_change_url() {
    let entry = ValueItem {
        json_data: JsonData {
            deployment: Some(Deployment {
                url: "https://api.github.com/repos/owner/repo/deployments/123456".to_string(),
                id: 123456,
                sha: "abcdef".to_string(),
                ..Default::default()
            }),
            ..Default::default()
        },
    };

    let result = GitHub::extract_change_url(&entry);

    assert_eq!(result, "https://github.com/owner/repo/commit/abcdef");
}

#[test]
fn test_extract_deployment_url_with_workflow_run() {
    let entry = ValueItem {
        json_data: JsonData {
            deployment: Some(Deployment {
                url: "https://api.github.com/repos/owner/repo/deployments/123456".to_string(),
                id: 123456,
                sha: "abcdef".to_string(),
                ..Default::default()
            }),
            workflow_run: Some(WorkflowRun {
                workflow_id: Some(7890),
            }),
            ..Default::default()
        },
    };

    let result = GitHub::extract_deployment_url(&entry);

    assert_eq!(result, "https://github.com/owner/repo/actions/runs/7890");
}

#[test]
fn test_extract_deployment_url_without_workflow_run() {
    let entry = ValueItem {
        json_data: JsonData {
            deployment: Some(Deployment {
                url: "https://api.github.com/repos/owner/repo/deployments/123456".to_string(),
                id: 123456,
                sha: "abcdef".to_string(),
                ..Default::default()
            }),
            ..Default::default()
        },
    };

    let result = GitHub::extract_deployment_url(&entry);

    assert_eq!(result, "");
}

#[test]
fn team_names_projects_in_order() {
    let teams = vec![
        GitHubTeam { name: "alpha".to_string() },
        GitHubTeam { name: "beta".to_string() },
    ];

    let response = team_names(&teams);

    assert_eq!(response.teams, vec!["alpha".to_string(), "beta".to_string()]);
}
