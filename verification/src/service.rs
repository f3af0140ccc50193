//! The records and shells the HTTP layer exchanges with the engine.

use vstd::prelude::*;

verus! {

/// View of a final metric record.
#[verifier::ext_equal]
pub ghost struct ResponseRecordV {
    pub repository: Seq<char>,
    pub team: Seq<char>,
    pub title: Option<Seq<char>>,
    pub user: Option<Seq<char>>,
    pub sha: Seq<char>,
    pub status: bool,
    pub failed_at: Option<i64>,
    pub merged_at: Option<i64>,
    pub created_at: i64,
    pub fixed_at: Option<i64>,
    pub fixed_url: Option<Seq<char>>,
    pub deploy_url: Seq<char>,
    pub issue_url: Option<Seq<char>>,
    pub change_url: Seq<char>,
}

/// One final metric record: the deployment's own fields, joined with its
/// failure window and merged change where those exist.
#[derive(Debug, Clone, Default, PartialEq)]
pub struct ResponseRecord {
    pub repository: String,
    pub team: String,
    pub title: Option<String>,
    pub user: Option<String>,
    pub sha: String,
    pub status: bool,
    pub failed_at: Option<i64>,
    pub merged_at: Option<i64>,
    pub created_at: i64,
    pub fixed_at: Option<i64>,
    pub fixed_url: Option<String>,
    pub deploy_url: String,
    pub issue_url: Option<String>,
    pub change_url: String,
}

impl DeepView for ResponseRecord {
    type V = ResponseRecordV;

    open spec fn deep_view(&self) -> ResponseRecordV {
        ResponseRecordV {
            repository: self.repository.deep_view(),
            team: self.team.deep_view(),
            title: self.title.deep_view(),
            user: self.user.deep_view(),
            sha: self.sha.deep_view(),
            status: self.status,
            failed_at: self.failed_at,
            merged_at: self.merged_at,
            created_at: self.created_at,
            fixed_at: self.fixed_at,
            fixed_url: self.fixed_url.deep_view(),
            deploy_url: self.deploy_url.deep_view(),
            issue_url: self.issue_url.deep_view(),
            change_url: self.change_url.deep_view(),
        }
    }
}

/// The body of a metrics response: one record per retained deployment.
#[derive(Debug, Clone, Default)]
pub struct DataResponse {
    pub records: Vec<ResponseRecord>,
}

impl DeepView for DataResponse {
    type V = Seq<ResponseRecordV>;

    open spec fn deep_view(&self) -> Seq<ResponseRecordV> {
        self.records.deep_view()
    }
}

/// Query-string options of a metrics request.
#[derive(Debug, Clone, Default, PartialEq)]
pub struct RequestParams {
    pub no_cache: Option<bool>,
}

/// The body of a health probe response.
#[derive(Debug, Clone, Default, PartialEq)]
pub struct HealthResponse {}

/// One team as the VCS host reports it.
#[derive(Debug, Clone, Default, PartialEq)]
pub struct GitHubTeam {
    pub name: String,
}

impl DeepView for GitHubTeam {
    type V = Seq<char>;

    open spec fn deep_view(&self) -> Seq<char> {
        self.name.deep_view()
    }
}

/// The body of a teams response: the team names.
#[derive(Debug, Clone, Default, PartialEq)]
pub struct TeamsResponse {
    pub teams: Vec<String>,
}

impl DeepView for TeamsResponse {
    type V = Seq<Seq<char>>;

    open spec fn deep_view(&self) -> Seq<Seq<char>> {
        self.teams.deep_view()
    }
}

/// Projects the fetched teams onto their names, in order.
pub fn team_names(teams: &Vec<GitHubTeam>) -> (r: TeamsResponse)
    ensures
        r.deep_view() == teams.deep_view(),
{
    let mut names: Vec<String> = Vec::new();
    let mut i: usize = 0;
    while i < teams.len()
        invariant
            0 <= i <= teams.len(),
            names.deep_view() =~= teams.deep_view().take(i as int),
        decreases teams.len() - i,
    {
        let ghost names0 = names.deep_view();
        names.push(teams[i].name.clone());
        proof {
            assert(names.deep_view() =~= names0.push(teams.deep_view()[i as int]));
            assert(names.deep_view() =~= teams.deep_view().take(i + 1));
        }
        i = i + 1;
    }
    proof {
        assert(teams.deep_view().take(teams.len() as int) =~= teams.deep_view());
    }
    TeamsResponse { teams: names }
}

} // verus!
