//! The normalized event entries the correlation engine works on, grouped
//! per repository or keyed by commit SHA, with their mathematical views.

use vstd::prelude::*;

verus! {

/// View of an issue lifecycle event. Timestamps are nanoseconds since the
/// Unix epoch.
#[verifier::ext_equal]
pub ghost struct IssueEntryV {
    pub created_at: i64,
    pub closed_at: Option<i64>,
    pub number: u32,
}

/// An issue or incident lifecycle event for one repository.
#[derive(Debug, Clone, Default, PartialEq)]
pub struct IssueEntry {
    pub created_at: i64,
    pub closed_at: Option<i64>,
    pub number: u32,
}

impl DeepView for IssueEntry {
    type V = IssueEntryV;

    open spec fn deep_view(&self) -> IssueEntryV {
        IssueEntryV {
            created_at: self.created_at,
            closed_at: self.closed_at,
            number: self.number,
        }
    }
}

/// View of a merged-change event.
#[verifier::ext_equal]
pub ghost struct MergeEntryV {
    pub merged_at: i64,
    pub user: Seq<char>,
    pub title: Seq<char>,
}

/// A merged change; the commit SHA that keys it lives in the surrounding
/// collection.
#[derive(Debug, Clone, Default, PartialEq)]
pub struct MergeEntry {
    pub merged_at: i64,
    pub user: String,
    pub title: String,
}

impl DeepView for MergeEntry {
    type V = MergeEntryV;

    open spec fn deep_view(&self) -> MergeEntryV {
        MergeEntryV {
            merged_at: self.merged_at,
            user: self.user.deep_view(),
            title: self.title.deep_view(),
        }
    }
}

/// View of a deployment event.
#[verifier::ext_equal]
pub ghost struct DeployEntryV {
    pub status: bool,
    pub repository: Seq<char>,
    pub team: Seq<char>,
    pub created_at: i64,
    pub sha: Seq<char>,
    pub deploy_url: Seq<char>,
    pub change_url: Seq<char>,
}

/// One pipeline run that targeted a production environment; `status` is
/// true when the run succeeded.
#[derive(Debug, Clone, Default, PartialEq)]
pub struct DeployEntry {
    pub status: bool,
    pub repository: String,
    pub team: String,
    pub created_at: i64,
    pub sha: String,
    pub deploy_url: String,
    pub change_url: String,
}

impl DeepView for DeployEntry {
    type V = DeployEntryV;

    open spec fn deep_view(&self) -> DeployEntryV {
        DeployEntryV {
            status: self.status,
            repository: self.repository.deep_view(),
            team: self.team.deep_view(),
            created_at: self.created_at,
            sha: self.sha.deep_view(),
            deploy_url: self.deploy_url.deep_view(),
            change_url: self.change_url.deep_view(),
        }
    }
}

/// View of a per-repository deployment group.
#[verifier::ext_equal]
pub ghost struct DeployGroupV {
    pub repository: Seq<char>,
    pub deployments: Seq<DeployEntryV>,
}

/// The deployments of one repository, in normalized order.
#[derive(Debug, Clone, Default, PartialEq)]
pub struct DeployGroup {
    pub repository: String,
    pub deployments: Vec<DeployEntry>,
}

impl DeepView for DeployGroup {
    type V = DeployGroupV;

    open spec fn deep_view(&self) -> DeployGroupV {
        DeployGroupV {
            repository: self.repository.deep_view(),
            deployments: self.deployments.deep_view(),
        }
    }
}

/// View of a per-repository issue group.
#[verifier::ext_equal]
pub ghost struct IssueGroupV {
    pub repository: Seq<char>,
    pub issues: Seq<IssueEntryV>,
}

/// The issues of one repository, in normalized order.
#[derive(Debug, Clone, Default, PartialEq)]
pub struct IssueGroup {
    pub repository: String,
    pub issues: Vec<IssueEntry>,
}

impl DeepView for IssueGroup {
    type V = IssueGroupV;

    open spec fn deep_view(&self) -> IssueGroupV {
        IssueGroupV { repository: self.repository.deep_view(), issues: self.issues.deep_view() }
    }
}

/// View of a merge record keyed by commit SHA.
#[verifier::ext_equal]
pub ghost struct MergeRecordV {
    pub sha: Seq<char>,
    pub entry: MergeEntryV,
}

/// A merged change together with the commit SHA that keys it.
#[derive(Debug, Clone, Default, PartialEq)]
pub struct MergeRecord {
    pub sha: String,
    pub entry: MergeEntry,
}

impl DeepView for MergeRecord {
    type V = MergeRecordV;

    open spec fn deep_view(&self) -> MergeRecordV {
        MergeRecordV { sha: self.sha.deep_view(), entry: self.entry.deep_view() }
    }
}

/// View of the three normalized collections.
#[verifier::ext_equal]
pub ghost struct GatheredDataV {
    pub deployments_by_repo: Seq<DeployGroupV>,
    pub issues_by_repo: Seq<IssueGroupV>,
    pub merges_by_sha: Seq<MergeRecordV>,
}

/// The three normalized collections: deployments and issues grouped per
/// repository, merges keyed by commit SHA. Each repository and each SHA
/// appears in at most one group.
#[derive(Debug, Clone, Default)]
pub struct GatheredData {
    pub deployments_by_repo: Vec<DeployGroup>,
    pub issues_by_repo: Vec<IssueGroup>,
    pub merges_by_sha: Vec<MergeRecord>,
}

impl DeepView for GatheredData {
    type V = GatheredDataV;

    open spec fn deep_view(&self) -> GatheredDataV {
        GatheredDataV {
            deployments_by_repo: self.deployments_by_repo.deep_view(),
            issues_by_repo: self.issues_by_repo.deep_view(),
            merges_by_sha: self.merges_by_sha.deep_view(),
        }
    }
}

/// The index of the first element satisfying the predicate, or -1 when
/// none does.
pub open spec fn spec_first_match<A>(s: Seq<A>, p: spec_fn(A) -> bool) -> int
    decreases s.len(),
{
    if s.len() == 0 {
        -1
    } else if p(s[0]) {
        0
    } else {
        let r = spec_first_match(s.drop_first(), p);
        if r < 0 {
            -1
        } else {
            r + 1
        }
    }
}

/// The first match is either absent or a real, earliest match.
pub proof fn lemma_first_match_bounds<A>(s: Seq<A>, p: spec_fn(A) -> bool)
    ensures
        spec_first_match(s, p) == -1 || (0 <= spec_first_match(s, p) < s.len() && p(
            s[spec_first_match(s, p)],
        ) && forall|k: int| 0 <= k < spec_first_match(s, p) ==> !p(#[trigger] s[k])),
    decreases s.len(),
{
    if s.len() == 0 {
    } else if p(s[0]) {
    } else {
        lemma_first_match_bounds(s.drop_first(), p);
        let r = spec_first_match(s.drop_first(), p);
        if r >= 0 {
            assert(s.drop_first()[r] == s[r + 1]);
            assert forall|k: int| 0 <= k < r + 1 implies !p(#[trigger] s[k]) by {
                if k > 0 {
                    assert(s.drop_first()[k - 1] == s[k]);
                }
            }
        }
    }
}

/// When nothing matches, there is no first match.
pub proof fn lemma_first_match_none<A>(s: Seq<A>, p: spec_fn(A) -> bool)
    requires
        forall|k: int| 0 <= k < s.len() ==> !p(#[trigger] s[k]),
    ensures
        spec_first_match(s, p) == -1,
    decreases s.len(),
{
    if s.len() == 0 {
    } else {
        assert(forall|k: int|
            0 <= k < s.drop_first().len() ==> !p(#[trigger] s.drop_first()[k]));
        lemma_first_match_none(s.drop_first(), p);
    }
}

/// Without a first match nothing matches.
pub proof fn lemma_first_match_absent<A>(s: Seq<A>, p: spec_fn(A) -> bool)
    requires
        spec_first_match(s, p) == -1,
    ensures
        forall|k: int| 0 <= k < s.len() ==> !p(#[trigger] s[k]),
    decreases s.len(),
{
    if s.len() == 0 {
    } else {
        assert(!p(s[0]));
        lemma_first_match_absent(s.drop_first(), p);
        assert forall|k: int| 0 <= k < s.len() implies !p(#[trigger] s[k]) by {
            if k > 0 {
                assert(s.drop_first()[k - 1] == s[k]);
            }
        }
    }
}

/// A match with no earlier match is the first match.
pub proof fn lemma_first_match_found<A>(s: Seq<A>, p: spec_fn(A) -> bool, i: int)
    requires
        0 <= i < s.len(),
        p(s[i]),
        forall|k: int| 0 <= k < i ==> !p(#[trigger] s[k]),
    ensures
        spec_first_match(s, p) == i,
    decreases i,
{
    if i == 0 {
    } else {
        assert(!p(s[0]));
        assert(s.drop_first()[i - 1] == s[i]);
        assert(forall|k: int|
            0 <= k < i - 1 ==> !p(#[trigger] s.drop_first()[k]));
        lemma_first_match_found(s.drop_first(), p, i - 1);
    }
}

/// The issues recorded for a repository, or the empty sequence when the
/// repository has no group.
pub open spec fn spec_issues_of(groups: Seq<IssueGroupV>, repo: Seq<char>) -> Seq<IssueEntryV>
    decreases groups.len(),
{
    if groups.len() == 0 {
        Seq::empty()
    } else if groups[0].repository == repo {
        groups[0].issues
    } else {
        spec_issues_of(groups.drop_first(), repo)
    }
}

/// Looks up the issues of a repository; the empty slice stands for a
/// repository without a group.
pub fn issues_of<'a>(groups: &'a Vec<IssueGroup>, repo: &String) -> (r: &'a [IssueEntry])
    ensures
        r.deep_view() == spec_issues_of(groups.deep_view(), repo.deep_view()),
{
    let mut i: usize = 0;
    proof {
        assert(groups.deep_view().skip(0) =~= groups.deep_view());
    }
    while i < groups.len()
        invariant
            0 <= i <= groups.len(),
            spec_issues_of(groups.deep_view(), repo.deep_view()) == spec_issues_of(
                groups.deep_view().skip(i as int),
                repo.deep_view(),
            ),
        decreases groups.len() - i,
    {
        proof {
            assert(groups.deep_view().skip(i as int).drop_first() =~= groups.deep_view().skip(
                i + 1,
            ));
            assert(groups.deep_view().skip(i as int)[0] == groups.deep_view()[i as int]);
        }
        if groups[i].repository == *repo {
            return groups[i].issues.as_slice();
        }
        i = i + 1;
    }
    proof {
        assert(groups.deep_view().skip(groups.len() as int) =~= Seq::<IssueGroupV>::empty());
    }
    let empty: &[IssueEntry] = &[];
    proof {
        assert(empty.deep_view() =~= Seq::<IssueEntryV>::empty());
    }
    empty
}

} // verus!
