//! The shape of a backend query response: streams of rows, each row
//! carrying one embedded event body. Timestamps are nanoseconds since the
//! Unix epoch; decoding the transport format into these plain values is
//! the caller's concern.

use vstd::prelude::*;

verus! {

/// View of an embedded issue body.
#[verifier::ext_equal]
pub ghost struct IssueV {
    pub created_at: i64,
    pub closed_at: Option<i64>,
    pub number: u32,
}

/// An embedded issue body.
#[derive(Debug, Clone, Default, PartialEq)]
pub struct Issue {
    pub created_at: i64,
    pub closed_at: Option<i64>,
    pub number: u32,
}

impl DeepView for Issue {
    type V = IssueV;

    open spec fn deep_view(&self) -> IssueV {
        IssueV { created_at: self.created_at, closed_at: self.closed_at, number: self.number }
    }
}

/// View of an embedded repository body.
#[verifier::ext_equal]
pub ghost struct RepositoryV {
    pub name: Seq<char>,
}

/// An embedded repository body.
#[derive(Debug, Clone, Default, PartialEq)]
pub struct Repository {
    pub name: String,
}

impl DeepView for Repository {
    type V = RepositoryV;

    open spec fn deep_view(&self) -> RepositoryV {
        RepositoryV { name: self.name.deep_view() }
    }
}

/// View of an embedded user body.
#[verifier::ext_equal]
pub ghost struct UserV {
    pub login: Seq<char>,
}

/// The author of a pull request.
#[derive(Debug, Clone, Default, PartialEq)]
pub struct User {
    pub login: String,
}

impl DeepView for User {
    type V = UserV;

    open spec fn deep_view(&self) -> UserV {
        UserV { login: self.login.deep_view() }
    }
}

/// View of an embedded pull-request body.
#[verifier::ext_equal]
pub ghost struct PullRequestV {
    pub title: Seq<char>,
    pub user: UserV,
    pub merge_commit_sha: Seq<char>,
}

/// An embedded pull-request body.
#[derive(Debug, Clone, Default, PartialEq)]
pub struct PullRequest {
    pub title: String,
    pub user: User,
    pub merge_commit_sha: String,
}

impl DeepView for PullRequest {
    type V = PullRequestV;

    open spec fn deep_view(&self) -> PullRequestV {
        PullRequestV {
            title: self.title.deep_view(),
            user: self.user.deep_view(),
            merge_commit_sha: self.merge_commit_sha.deep_view(),
        }
    }
}

/// View of an embedded deployment-status body.
#[verifier::ext_equal]
pub ghost struct DeploymentStatusV {
    pub state: Seq<char>,
}

/// An embedded deployment-status body.
#[derive(Debug, Clone, Default, PartialEq)]
pub struct DeploymentStatus {
    pub state: String,
}

impl DeepView for DeploymentStatus {
    type V = DeploymentStatusV;

    open spec fn deep_view(&self) -> DeploymentStatusV {
        DeploymentStatusV { state: self.state.deep_view() }
    }
}

/// View of an embedded deployment body.
#[verifier::ext_equal]
pub ghost struct DeploymentV {
    pub id: u32,
    pub created_at: i64,
    pub sha: Seq<char>,
    pub url: Seq<char>,
}

/// An embedded deployment body.
#[derive(Debug, Clone, Default, PartialEq)]
pub struct Deployment {
    pub id: u32,
    pub created_at: i64,
    pub sha: String,
    pub url: String,
}

impl DeepView for Deployment {
    type V = DeploymentV;

    open spec fn deep_view(&self) -> DeploymentV {
        DeploymentV {
            id: self.id,
            created_at: self.created_at,
            sha: self.sha.deep_view(),
            url: self.url.deep_view(),
        }
    }
}

/// View of an embedded workflow-run body.
#[verifier::ext_equal]
pub ghost struct WorkflowRunV {
    pub workflow_id: Option<u32>,
}

/// An embedded workflow-run body.
#[derive(Debug, Clone, Default, PartialEq)]
pub struct WorkflowRun {
    pub workflow_id: Option<u32>,
}

impl DeepView for WorkflowRun {
    type V = WorkflowRunV;

    open spec fn deep_view(&self) -> WorkflowRunV {
        WorkflowRunV { workflow_id: self.workflow_id }
    }
}

/// View of one decoded event body.
#[verifier::ext_equal]
pub ghost struct JsonDataV {
    pub pull_request: Option<PullRequestV>,
    pub deployment: Option<DeploymentV>,
    pub deployment_status: Option<DeploymentStatusV>,
    pub issue: Option<IssueV>,
    pub repository: Option<RepositoryV>,
    pub workflow_run: Option<WorkflowRunV>,
}

/// One decoded event body; which parts are present depends on the stream
/// the row came from.
#[derive(Debug, Clone, Default, PartialEq)]
pub struct JsonData {
    pub pull_request: Option<PullRequest>,
    pub deployment: Option<Deployment>,
    pub deployment_status: Option<DeploymentStatus>,
    pub issue: Option<Issue>,
    pub repository: Option<Repository>,
    pub workflow_run: Option<WorkflowRun>,
}

impl DeepView for JsonData {
    type V = JsonDataV;

    open spec fn deep_view(&self) -> JsonDataV {
        JsonDataV {
            pull_request: self.pull_request.deep_view(),
            deployment: self.deployment.deep_view(),
            deployment_status: self.deployment_status.deep_view(),
            issue: self.issue.deep_view(),
            repository: self.repository.deep_view(),
            workflow_run: self.workflow_run.deep_view(),
        }
    }
}

/// View of one row value.
#[verifier::ext_equal]
pub ghost struct ValueItemV {
    pub json_data: JsonDataV,
}

/// One row value: a single decoded event body.
#[derive(Debug, Clone, Default, PartialEq)]
pub struct ValueItem {
    pub json_data: JsonData,
}

impl DeepView for ValueItem {
    type V = ValueItemV;

    open spec fn deep_view(&self) -> ValueItemV {
        ValueItemV { json_data: self.json_data.deep_view() }
    }
}

/// View of a stream's grouping labels.
#[verifier::ext_equal]
pub ghost struct StreamV {
    pub deployment_environment_name: Option<Seq<char>>,
    pub vcs_repository_name: Seq<char>,
    pub team_name: Seq<char>,
    pub merged_at: Option<i64>,
}

/// The grouping labels shared by all values of one result item.
#[derive(Debug, Clone, Default, PartialEq)]
pub struct Stream {
    pub deployment_environment_name: Option<String>,
    pub vcs_repository_name: String,
    pub team_name: String,
    pub merged_at: Option<i64>,
}

impl DeepView for Stream {
    type V = StreamV;

    open spec fn deep_view(&self) -> StreamV {
        StreamV {
            deployment_environment_name: self.deployment_environment_name.deep_view(),
            vcs_repository_name: self.vcs_repository_name.deep_view(),
            team_name: self.team_name.deep_view(),
            merged_at: self.merged_at,
        }
    }
}

/// View of one result item.
#[verifier::ext_equal]
pub ghost struct ResultItemV {
    pub stream: StreamV,
    pub values: Seq<ValueItemV>,
}

/// One result item: a stream label plus its row values.
#[derive(Debug, Clone, Default, PartialEq)]
pub struct ResultItem {
    pub stream: Stream,
    pub values: Vec<ValueItem>,
}

impl DeepView for ResultItem {
    type V = ResultItemV;

    open spec fn deep_view(&self) -> ResultItemV {
        ResultItemV { stream: self.stream.deep_view(), values: self.values.deep_view() }
    }
}

/// View of a response's result list.
#[verifier::ext_equal]
pub ghost struct DataV {
    pub result: Seq<ResultItemV>,
}

/// The result list of a query response.
#[derive(Debug, Clone, Default, PartialEq)]
pub struct Data {
    pub result: Vec<ResultItem>,
}

impl DeepView for Data {
    type V = DataV;

    open spec fn deep_view(&self) -> DataV {
        DataV { result: self.result.deep_view() }
    }
}

/// View of a whole query response.
#[verifier::ext_equal]
pub ghost struct QueryResponseV {
    pub data: DataV,
}

/// A whole query response from the backend.
#[derive(Debug, Clone, Default, PartialEq)]
pub struct QueryResponse {
    pub data: Data,
}

impl DeepView for QueryResponse {
    type V = QueryResponseV;

    open spec fn deep_view(&self) -> QueryResponseV {
        QueryResponseV { data: self.data.deep_view() }
    }
}

/// A deployment row carries its environment label, and every value embeds
/// a deployment and a deployment status.
pub open spec fn deploy_item_wf(item: ResultItemV) -> bool {
    &&& item.stream.deployment_environment_name is Some
    &&& forall|j: int|
        0 <= j < item.values.len() ==> {
            let v = #[trigger] item.values[j];
            v.json_data.deployment is Some && v.json_data.deployment_status is Some
        }
}

/// Every value of an issue row embeds a repository and an issue body.
pub open spec fn issue_item_wf(item: ResultItemV) -> bool {
    forall|j: int|
        0 <= j < item.values.len() ==> {
            let v = #[trigger] item.values[j];
            v.json_data.repository is Some && v.json_data.issue is Some
        }
}

/// A merge row carries a merge time and every value embeds a pull
/// request.
pub open spec fn merge_item_wf(item: ResultItemV) -> bool {
    &&& item.stream.merged_at is Some
    &&& forall|j: int|
        0 <= j < item.values.len() ==> #[trigger] item.values[j].json_data.pull_request is Some
}

/// Every deployment row is well-formed. A response that violates this
/// has drifted from the backend schema and must be rejected by the caller.
pub open spec fn deploy_rows_wf(q: QueryResponseV) -> bool {
    forall|i: int| 0 <= i < q.data.result.len() ==> deploy_item_wf(#[trigger] q.data.result[i])
}

/// Every issue row is well-formed.
pub open spec fn issue_rows_wf(q: QueryResponseV) -> bool {
    forall|i: int| 0 <= i < q.data.result.len() ==> issue_item_wf(#[trigger] q.data.result[i])
}

/// Every merge row is well-formed.
pub open spec fn merge_rows_wf(q: QueryResponseV) -> bool {
    forall|i: int| 0 <= i < q.data.result.len() ==> merge_item_wf(#[trigger] q.data.result[i])
}

} // verus!
