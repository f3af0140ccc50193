//! The failure-window detector and the record linker: per repository, a
//! single-pass scan over the ordered deployments detects when the
//! delivery pipeline broke and when it recovered, and every deployment is
//! then joined with its failure window and its merged change by commit
//! SHA.

use vstd::prelude::*;
use vstd::string::StringExecFns;

use crate::events::{
    issues_of, lemma_first_match_absent, lemma_first_match_bounds, lemma_first_match_found,
    lemma_first_match_none, spec_first_match, spec_issues_of, DeployEntry, DeployEntryV,
    DeployGroupV, GatheredData, GatheredDataV, IssueEntry, IssueEntryV, IssueGroupV, MergeEntryV,
    MergeRecordV,
};
use crate::normalize::{
    merge_position, merge_sha_pred, normalize_responses, spec_sort_deploy_data,
    spec_sort_issue_data, spec_sort_merge_data,
};
use crate::rows::{deploy_rows_wf, issue_rows_wf, merge_rows_wf, QueryResponse, QueryResponseV};
use crate::service::{ResponseRecord, ResponseRecordV};

verus! {

/// What the issue-link substitution returns for a deployment URL and an
/// issue number; it depends on those two values alone.
pub uninterp spec fn issue_link_of(deploy_url: Seq<char>, issue_number: u32) -> Seq<char>;

/// View of a failure window.
#[verifier::ext_equal]
pub ghost struct FailureV {
    pub failed_at: Option<i64>,
    pub fixed_at: Option<i64>,
    pub issue_url: Option<Seq<char>>,
    pub fixed_url: Option<Seq<char>>,
}

/// A failure window: when the pipeline broke, when a later clean
/// deployment or issue closure mended it, and the derived links.
#[derive(Debug, Clone, Default, PartialEq)]
pub struct Failure {
    pub failed_at: Option<i64>,
    pub fixed_at: Option<i64>,
    pub issue_url: Option<String>,
    pub fixed_url: Option<String>,
}

impl DeepView for Failure {
    type V = FailureV;

    open spec fn deep_view(&self) -> FailureV {
        FailureV {
            failed_at: self.failed_at,
            fixed_at: self.fixed_at,
            issue_url: self.issue_url.deep_view(),
            fixed_url: self.fixed_url.deep_view(),
        }
    }
}

/// View of a failure window keyed by commit SHA.
#[verifier::ext_equal]
pub ghost struct FailureRecordV {
    pub sha: Seq<char>,
    pub failure: FailureV,
}

/// A failure window together with the commit SHA that owns it.
#[derive(Debug, Clone, Default, PartialEq)]
pub struct FailureRecord {
    pub sha: String,
    pub failure: Failure,
}

impl DeepView for FailureRecord {
    type V = FailureRecordV;

    open spec fn deep_view(&self) -> FailureRecordV {
        FailureRecordV { sha: self.sha.deep_view(), failure: self.failure.deep_view() }
    }
}

/// An issue lies in the window between one deployment and the next.
pub open spec fn in_window(i: IssueEntryV, from: i64, until: i64) -> bool {
    i.created_at >= from && i.created_at < until
}

/// The window predicate for one deployment.
pub open spec fn window_pred(from: i64, until: i64) -> spec_fn(IssueEntryV) -> bool {
    |i: IssueEntryV| in_window(i, from, until)
}

/// The earliest issue of a non-empty window; on ties the earliest-listed
/// one.
pub open spec fn spec_first_min_issue(w: Seq<IssueEntryV>) -> IssueEntryV
    recommends
        w.len() > 0,
    decreases w.len(),
{
    if w.len() <= 1 {
        w[0]
    } else {
        let m = spec_first_min_issue(w.drop_last());
        if m.created_at <= w.last().created_at {
            m
        } else {
            w.last()
        }
    }
}

/// The latest closing time among the window's issues that have one.
pub open spec fn spec_latest_close(w: Seq<IssueEntryV>) -> Option<i64>
    decreases w.len(),
{
    if w.len() == 0 {
        None
    } else {
        let rest = spec_latest_close(w.drop_last());
        match w.last().closed_at {
            Some(c) => match rest {
                Some(m) => if c > m {
                    Some(c)
                } else {
                    Some(m)
                },
                None => Some(c),
            },
            None => rest,
        }
    }
}

/// What one deployment contributes to failure detection. A failed run
/// breaks the pipeline at its own creation time. A successful run breaks
/// it only when issues were opened before the next deployment; the break
/// starts at the earliest such issue, and the window closes at the
/// latest issue-closing time when that lies strictly after the break.
/// A clean success yields the empty SHA and an empty window.
pub open spec fn spec_extract_failure(
    d: DeployEntryV,
    next_at: i64,
    issues: Seq<IssueEntryV>,
) -> (Seq<char>, FailureV) {
    if !d.status {
        (
            d.sha,
            FailureV {
                failed_at: Some(d.created_at),
                fixed_at: None,
                issue_url: None,
                fixed_url: None,
            },
        )
    } else {
        let w = issues.filter(window_pred(d.created_at, next_at));
        if w.len() == 0 {
            (
                Seq::empty(),
                FailureV { failed_at: None, fixed_at: None, issue_url: None, fixed_url: None },
            )
        } else {
            let opened = spec_first_min_issue(w);
            let fixed = match spec_latest_close(w) {
                Some(c) => if c > opened.created_at {
                    Some(c)
                } else {
                    None
                },
                None => None,
            };
            (
                d.sha,
                FailureV {
                    failed_at: Some(opened.created_at),
                    fixed_at: fixed,
                    issue_url: Some(issue_link_of(d.deploy_url, opened.number)),
                    fixed_url: None,
                },
            )
        }
    }
}

/// Relies on regex::Regex::replace with the pattern `actions/runs/\d+`:
/// the first match in the URL is rewritten to `issues/` followed by the
/// issue number. The result depends on the URL and the number alone.
#[verifier::external_body]
fn substitute_issue_link(deploy_url: &str, issue_number: u32) -> (r: String)
    ensures
        r@ == issue_link_of(deploy_url@, issue_number),
{
    let re = regex::Regex::new(r"actions/runs/\d+").unwrap();
    let replacement = format!("issues/{}", issue_number);
    re.replace(deploy_url, replacement.as_str()).to_string()
}

/// Extracts the failure one deployment contributes, searching the
/// repository's issues in the window up to the next deployment.
pub fn extract_failure_by_sha(
    deployment: &DeployEntry,
    next_deployment_at: i64,
    data: &GatheredData,
) -> (r: (String, Failure))
    ensures
        (r.0.deep_view(), r.1.deep_view()) == spec_extract_failure(
            deployment.deep_view(),
            next_deployment_at,
            spec_issues_of(data.deep_view().issues_by_repo, deployment.deep_view().repository),
        ),
{
    let ghost dv = deployment.deep_view();
    if !deployment.status {
        let failure = Failure {
            failed_at: Some(deployment.created_at),
            fixed_at: None,
            issue_url: None,
            fixed_url: None,
        };
        return (deployment.sha.clone(), failure);
    }
    let issues = issues_of(&data.issues_by_repo, &deployment.repository);
    let ghost issues_dv = issues.deep_view();
    let ghost pred = window_pred(dv.created_at, next_deployment_at);
    let mut found: bool = false;
    let mut opened_created: i64 = 0;
    let mut opened_number: u32 = 0;
    let mut latest_close: Option<i64> = None;
    let mut k: usize = 0;
    proof {
        assert(issues_dv.take(0).filter(pred) =~= Seq::<IssueEntryV>::empty());
    }
    while k < issues.len()
        invariant
            dv == deployment.deep_view(),
            0 <= k <= issues_dv.len(),
            issues_dv == issues.deep_view(),
            issues_dv.len() == issues.len(),
            pred == window_pred(dv.created_at, next_deployment_at),
            found == (issues_dv.take(k as int).filter(pred).len() > 0),
            found ==> {
                let m = spec_first_min_issue(issues_dv.take(k as int).filter(pred));
                opened_created == m.created_at && opened_number == m.number
            },
            latest_close == spec_latest_close(issues_dv.take(k as int).filter(pred)),
        decreases issues_dv.len() - k,
    {
        let issue = &issues[k];
        let ghost w0 = issues_dv.take(k as int).filter(pred);
        proof {
            reveal(Seq::filter);
            assert(issue.deep_view() == issues_dv[k as int]);
            assert(issues_dv.take(k + 1).drop_last() =~= issues_dv.take(k as int));
            assert(issues_dv.take(k + 1).last() == issues_dv[k as int]);
        }
        if issue.created_at >= deployment.created_at && issue.created_at < next_deployment_at {
            proof {
                assert(in_window(issues_dv[k as int], dv.created_at, next_deployment_at));
                assert(window_pred(dv.created_at, next_deployment_at)(issues_dv[k as int])
                    == in_window(issues_dv[k as int], dv.created_at, next_deployment_at));
                assert(pred(issues_dv[k as int]));
                assert(issues_dv.take(k + 1).filter(pred) == w0.push(issues_dv[k as int]));
            }
            if !found {
                found = true;
                opened_created = issue.created_at;
                opened_number = issue.number;
            } else if issue.created_at < opened_created {
                opened_created = issue.created_at;
                opened_number = issue.number;
            }
            if let Some(c) = issue.closed_at {
                match latest_close {
                    Some(m) => {
                        if c > m {
                            latest_close = Some(c);
                        }
                    },
                    None => {
                        latest_close = Some(c);
                    },
                }
            }
            proof {
                let w1 = issues_dv.take(k + 1).filter(pred);
                assert(w1.drop_last() =~= w0);
                assert(w1.last() == issues_dv[k as int]);
                if w0.len() > 0 {
                    assert(spec_first_min_issue(w1) == (if spec_first_min_issue(
                        w0,
                    ).created_at <= issues_dv[k as int].created_at {
                        spec_first_min_issue(w0)
                    } else {
                        issues_dv[k as int]
                    }));
                }
            }
        } else {
            proof {
                assert(!in_window(issues_dv[k as int], dv.created_at, next_deployment_at));
                assert(window_pred(dv.created_at, next_deployment_at)(issues_dv[k as int])
                    == in_window(issues_dv[k as int], dv.created_at, next_deployment_at));
                assert(!pred(issues_dv[k as int]));
                assert(issues_dv.take(k + 1).filter(pred) == w0);
            }
        }
        k = k + 1;
    }
    proof {
        assert(issues_dv.take(issues_dv.len() as int) =~= issues_dv);
    }
    if !found {
        let empty_failure = Failure {
            failed_at: None,
            fixed_at: None,
            issue_url: None,
            fixed_url: None,
        };
        let empty_sha = String::from_str("");
        proof {
            reveal_strlit("");
            assert(empty_sha@ =~= Seq::<char>::empty());
        }
        return (empty_sha, empty_failure);
    }
    let issue_url = substitute_issue_link(deployment.deploy_url.as_str(), opened_number);
    let fixed_at = match latest_close {
        Some(c) => if c > opened_created {
            Some(c)
        } else {
            None
        },
        None => None,
    };
    let failure = Failure {
        failed_at: Some(opened_created),
        fixed_at,
        issue_url: Some(issue_url),
        fixed_url: None,
    };
    (deployment.sha.clone(), failure)
}

/// Whether a failure record carries this commit SHA.
pub open spec fn fail_sha_pred(sha: Seq<char>) -> spec_fn(FailureRecordV) -> bool {
    |r: FailureRecordV| r.sha == sha
}

/// Inserts the window recorded for a SHA, overwriting an earlier window
/// of the same SHA so that each SHA owns at most one entry.
pub open spec fn spec_fail_put(recs: Seq<FailureRecordV>, sha: Seq<char>, f: FailureV) -> Seq<
    FailureRecordV,
> {
    let idx = spec_first_match(recs, fail_sha_pred(sha));
    if idx < 0 {
        recs.push(FailureRecordV { sha, failure: f })
    } else {
        recs.update(idx, FailureRecordV { sha, failure: f })
    }
}

/// The window recorded for a SHA, if any.
pub open spec fn spec_fail_lookup(recs: Seq<FailureRecordV>, sha: Seq<char>) -> Option<FailureV> {
    let idx = spec_first_match(recs, fail_sha_pred(sha));
    if idx < 0 {
        None
    } else {
        Some(recs[idx].failure)
    }
}

/// The merge entry recorded for a SHA, if any.
pub open spec fn spec_merge_lookup(recs: Seq<MergeRecordV>, sha: Seq<char>) -> Option<MergeEntryV> {
    let idx = spec_first_match(recs, merge_sha_pred(sha));
    if idx < 0 {
        None
    } else {
        Some(recs[idx].entry)
    }
}

/// View of the detector's running state: the recorded windows, and the
/// open failure still waiting for a resolving deployment.
#[verifier::ext_equal]
pub ghost struct DetectorStateV {
    pub recorded: Seq<FailureRecordV>,
    pub open_failure: Option<(Seq<char>, FailureV)>,
}

/// The creation time of the following deployment, or the far future for
/// the last one.
pub open spec fn spec_next_at(deps: Seq<DeployEntryV>, i: int) -> i64 {
    if i + 1 < deps.len() {
        deps[i + 1].created_at
    } else {
        i64::MAX
    }
}

/// One step of the open-failure state machine. A deployment that yields
/// a failure is recorded at once when it is the repository's last one —
/// flushing the open window unresolved — and otherwise becomes the open
/// failure when the slot is free, or is dropped while another failure is
/// still open. A deployment that yields no failure resolves the open
/// window at its own creation time, unless an issue closure already had.
pub open spec fn spec_detect_step(
    st: DetectorStateV,
    d: DeployEntryV,
    next_at: i64,
    is_last: bool,
    issues_by_repo: Seq<IssueGroupV>,
) -> DetectorStateV {
    let ex = spec_extract_failure(d, next_at, spec_issues_of(issues_by_repo, d.repository));
    let sha = ex.0;
    let failure = ex.1;
    if failure.failed_at is Some {
        if is_last {
            let recs1 = spec_fail_put(st.recorded, sha, failure);
            match st.open_failure {
                Some(open) => DetectorStateV {
                    recorded: spec_fail_put(recs1, open.0, open.1),
                    open_failure: None,
                },
                None => DetectorStateV { recorded: recs1, open_failure: None },
            }
        } else if st.open_failure is None {
            DetectorStateV { recorded: st.recorded, open_failure: Some((sha, failure)) }
        } else {
            st
        }
    } else {
        match st.open_failure {
            Some(open) => {
                let resolved = if open.1.fixed_at is None {
                    FailureV {
                        failed_at: open.1.failed_at,
                        fixed_at: Some(d.created_at),
                        issue_url: open.1.issue_url,
                        fixed_url: Some(d.deploy_url),
                    }
                } else {
                    open.1
                };
                DetectorStateV {
                    recorded: spec_fail_put(st.recorded, open.0, resolved),
                    open_failure: None,
                }
            },
            None => st,
        }
    }
}

/// Scans one repository's ordered deployments from index `i` on.
pub open spec fn spec_scan_deploys(
    deps: Seq<DeployEntryV>,
    i: int,
    issues_by_repo: Seq<IssueGroupV>,
    st: DetectorStateV,
) -> DetectorStateV
    decreases deps.len() - i,
{
    if i < 0 || i >= deps.len() {
        st
    } else {
        spec_scan_deploys(
            deps,
            i + 1,
            issues_by_repo,
            spec_detect_step(st, deps[i], spec_next_at(deps, i), i == deps.len() - 1, issues_by_repo),
        )
    }
}

/// Scans the repositories from index `i` on; each repository starts with
/// a fresh open-failure slot.
pub open spec fn spec_detect_groups(
    groups: Seq<DeployGroupV>,
    i: int,
    issues_by_repo: Seq<IssueGroupV>,
    recorded: Seq<FailureRecordV>,
) -> Seq<FailureRecordV>
    decreases groups.len() - i,
{
    if i < 0 || i >= groups.len() {
        recorded
    } else {
        spec_detect_groups(
            groups,
            i + 1,
            issues_by_repo,
            spec_scan_deploys(
                groups[i].deployments,
                0,
                issues_by_repo,
                DetectorStateV { recorded, open_failure: None },
            ).recorded,
        )
    }
}

/// The failure-window map of the gathered data: at most one window per
/// commit SHA, covering only SHAs that experienced a failure window.
pub open spec fn spec_find_failures(g: GatheredDataV) -> Seq<FailureRecordV> {
    spec_detect_groups(g.deployments_by_repo, 0, g.issues_by_repo, Seq::empty())
}

/// The position of the window for this SHA, if one exists.
fn fail_position(records: &Vec<FailureRecord>, sha: &String) -> (r: Option<usize>)
    ensures
        match r {
            Some(i) => 0 <= i < records.len() && spec_first_match(
                records.deep_view(),
                fail_sha_pred(sha.deep_view()),
            ) == i as int,
            None => spec_first_match(records.deep_view(), fail_sha_pred(sha.deep_view())) == -1,
        },
{
    let ghost pred = fail_sha_pred(sha.deep_view());
    let mut i: usize = 0;
    while i < records.len()
        invariant
            0 <= i <= records.len(),
            pred == fail_sha_pred(sha.deep_view()),
            forall|k: int| 0 <= k < i ==> !pred(#[trigger] records.deep_view()[k]),
        decreases records.len() - i,
    {
        if records[i].sha.eq(sha) {
            proof {
                assert(records.deep_view()[i as int].sha == sha.deep_view());
                lemma_first_match_found(records.deep_view(), pred, i as int);
            }
            return Some(i);
        }
        proof {
            assert(records.deep_view()[i as int].sha != sha.deep_view());
        }
        i = i + 1;
    }
    proof {
        lemma_first_match_none(records.deep_view(), pred);
    }
    None
}

/// Records the window for a SHA, overwriting an earlier one of the same
/// SHA.
fn fail_put(records: &mut Vec<FailureRecord>, sha: String, failure: Failure)
    ensures
        final(records).deep_view() == spec_fail_put(
            old(records).deep_view(),
            sha.deep_view(),
            failure.deep_view(),
        ),
{
    let ghost recs0 = records.deep_view();
    let ghost target = spec_fail_put(recs0, sha.deep_view(), failure.deep_view());
    match fail_position(records, &sha) {
        Some(idx) => {
            let ghost graw = records@;
            let _removed = records.remove(idx);
            let rec = FailureRecord { sha, failure };
            let ghost gg = rec;
            let ghost mid_raw = records@;
            records.insert(idx, rec);
            proof {
                graw.remove_ensures(idx as int);
                mid_raw.insert_ensures(idx as int, gg);
                assert forall|k: int|
                    0 <= k < records.deep_view().len() implies records.deep_view()[k]
                    == target[k] by {
                    if k < idx as int {
                        assert(records@[k] == graw[k]);
                        assert(recs0[k] == graw[k].deep_view());
                    } else if k == idx as int {
                        assert(records@[k] == gg);
                    } else {
                        assert(records@[k] == mid_raw[k - 1]);
                        assert(mid_raw[k - 1] == graw[k]);
                        assert(recs0[k] == graw[k].deep_view());
                    }
                }
                assert(records.deep_view() =~= target);
            }
        },
        None => {
            let rec = FailureRecord { sha, failure };
            let ghost gg = rec;
            records.push(rec);
            proof {
                assert(records.deep_view() =~= recs0.push(gg.deep_view()));
            }
        },
    }
}

/// Detects the failure windows of every repository: each repository's
/// ordered deployments are scanned once with a single open-failure slot,
/// and the resulting windows are keyed by commit SHA, at most one per
/// SHA.
pub fn find_failures_per_deployment(data: &GatheredData) -> (r: Vec<FailureRecord>)
    ensures
        r.deep_view() == spec_find_failures(data.deep_view()),
        distinct_shas(r.deep_view()),
{
    let ghost gv = data.deep_view();
    let mut failures: Vec<FailureRecord> = Vec::new();
    proof {
        assert(failures.deep_view() =~= Seq::<FailureRecordV>::empty());
    }
    let mut gi: usize = 0;
    while gi < data.deployments_by_repo.len()
        invariant
            gv == data.deep_view(),
            0 <= gi <= data.deployments_by_repo.len(),
            spec_detect_groups(
                gv.deployments_by_repo,
                gi as int,
                gv.issues_by_repo,
                failures.deep_view(),
            ) == spec_find_failures(gv),
        decreases data.deployments_by_repo.len() - gi,
    {
        let deps = &data.deployments_by_repo[gi].deployments;
        let ghost depsv = deps.deep_view();
        proof {
            assert(depsv == gv.deployments_by_repo[gi as int].deployments);
            assert(spec_detect_groups(
                gv.deployments_by_repo,
                gi as int,
                gv.issues_by_repo,
                failures.deep_view(),
            ) == spec_detect_groups(
                gv.deployments_by_repo,
                gi as int + 1,
                gv.issues_by_repo,
                spec_scan_deploys(
                    depsv,
                    0,
                    gv.issues_by_repo,
                    DetectorStateV { recorded: failures.deep_view(), open_failure: None },
                ).recorded,
            ));
        }
        let mut previous_failure: Option<(String, Failure)> = None;
        let mut di: usize = 0;
        while di < deps.len()
            invariant
                gv == data.deep_view(),
                gi < gv.deployments_by_repo.len(),
                depsv == deps.deep_view(),
                depsv == gv.deployments_by_repo[gi as int].deployments,
                0 <= di <= depsv.len(),
                spec_detect_groups(
                    gv.deployments_by_repo,
                    gi as int + 1,
                    gv.issues_by_repo,
                    spec_scan_deploys(
                        depsv,
                        di as int,
                        gv.issues_by_repo,
                        DetectorStateV {
                            recorded: failures.deep_view(),
                            open_failure: previous_failure.deep_view(),
                        },
                    ).recorded,
                ) == spec_find_failures(gv),
            decreases depsv.len() - di,
        {
            let deployment = &deps[di];
            let is_last = di + 1 >= deps.len();
            let next_deployment_at: i64 = if di + 1 < deps.len() {
                deps[di + 1].created_at
            } else {
                i64::MAX
            };
            let ghost st0 = DetectorStateV {
                recorded: failures.deep_view(),
                open_failure: previous_failure.deep_view(),
            };
            let ghost st1 = spec_detect_step(
                st0,
                depsv[di as int],
                spec_next_at(depsv, di as int),
                di as int == depsv.len() - 1,
                gv.issues_by_repo,
            );
            proof {
                assert(deployment.deep_view() == depsv[di as int]);
                assert(next_deployment_at == spec_next_at(depsv, di as int));
                assert(is_last == (di as int == depsv.len() - 1));
                assert(spec_scan_deploys(depsv, di as int, gv.issues_by_repo, st0)
                    == spec_scan_deploys(depsv, di as int + 1, gv.issues_by_repo, st1));
            }
            let (sha, failure) = extract_failure_by_sha(deployment, next_deployment_at, data);
            proof {
                assert((sha.deep_view(), failure.deep_view()) == spec_extract_failure(
                    depsv[di as int],
                    next_deployment_at,
                    spec_issues_of(gv.issues_by_repo, depsv[di as int].repository),
                ));
            }
            match failure.failed_at {
                Some(_) => {
                    if is_last {
                        fail_put(&mut failures, sha, failure);
                        let taken = previous_failure;
                        previous_failure = None;
                        match taken {
                            Some((open_sha, open_failure)) => {
                                fail_put(&mut failures, open_sha, open_failure);
                            },
                            None => {},
                        }
                        proof {
                            assert(failures.deep_view() == st1.recorded);
                            assert(previous_failure.deep_view() == st1.open_failure);
                        }
                    } else if previous_failure.is_none() {
                        previous_failure = Some((sha, failure));
                        proof {
                            assert(failures.deep_view() == st1.recorded);
                            assert(previous_failure.deep_view() == st1.open_failure);
                        }
                    } else {
                        proof {
                            assert(failures.deep_view() == st1.recorded);
                            assert(previous_failure.deep_view() == st1.open_failure);
                        }
                    }
                },
                None => {
                    let taken = previous_failure;
                    previous_failure = None;
                    match taken {
                        Some((open_sha, open_failure)) => {
                            let mut resolved = open_failure;
                            if resolved.fixed_at.is_none() {
                                resolved.fixed_at = Some(deployment.created_at);
                                resolved.fixed_url = Some(deployment.deploy_url.clone());
                            }
                            fail_put(&mut failures, open_sha, resolved);
                        },
                        None => {},
                    }
                    proof {
                        assert(failures.deep_view() == st1.recorded);
                        assert(previous_failure.deep_view() == st1.open_failure);
                    }
                },
            }
            di = di + 1;
        }
        proof {
            assert(spec_scan_deploys(
                depsv,
                di as int,
                gv.issues_by_repo,
                DetectorStateV {
                    recorded: failures.deep_view(),
                    open_failure: previous_failure.deep_view(),
                },
            ).recorded == failures.deep_view());
        }
        gi = gi + 1;
    }
    proof {
        lemma_find_failures_distinct(gv);
    }
    failures
}

/// The record one deployment yields: its own fields, the failure window
/// recorded for its SHA, and the merged change recorded for its SHA.
pub open spec fn spec_record_for(
    d: DeployEntryV,
    failures: Seq<FailureRecordV>,
    merges: Seq<MergeRecordV>,
) -> ResponseRecordV {
    let base = ResponseRecordV {
        repository: d.repository,
        team: d.team,
        title: None,
        user: None,
        sha: d.sha,
        status: d.status,
        failed_at: None,
        merged_at: None,
        created_at: d.created_at,
        fixed_at: None,
        fixed_url: None,
        deploy_url: d.deploy_url,
        issue_url: None,
        change_url: d.change_url,
    };
    let with_failure = match spec_fail_lookup(failures, d.sha) {
        Some(f) => ResponseRecordV {
            failed_at: f.failed_at,
            fixed_at: f.fixed_at,
            issue_url: f.issue_url,
            fixed_url: f.fixed_url,
            ..base
        },
        None => base,
    };
    match spec_merge_lookup(merges, d.sha) {
        Some(m) => ResponseRecordV {
            merged_at: Some(m.merged_at),
            title: Some(m.title),
            user: Some(m.user),
            ..with_failure
        },
        None => with_failure,
    }
}

/// Folds one repository's deployments into the record list.
pub open spec fn spec_link_deploys(
    deps: Seq<DeployEntryV>,
    failures: Seq<FailureRecordV>,
    merges: Seq<MergeRecordV>,
    acc: Seq<ResponseRecordV>,
) -> Seq<ResponseRecordV>
    decreases deps.len(),
{
    if deps.len() == 0 {
        acc
    } else {
        spec_link_deploys(
            deps.drop_first(),
            failures,
            merges,
            acc.push(spec_record_for(deps[0], failures, merges)),
        )
    }
}

/// Folds all repositories into the record list, in group order.
pub open spec fn spec_link_groups(
    groups: Seq<DeployGroupV>,
    failures: Seq<FailureRecordV>,
    merges: Seq<MergeRecordV>,
    acc: Seq<ResponseRecordV>,
) -> Seq<ResponseRecordV>
    decreases groups.len(),
{
    if groups.len() == 0 {
        acc
    } else {
        spec_link_groups(
            groups.drop_first(),
            failures,
            merges,
            spec_link_deploys(groups[0].deployments, failures, merges, acc),
        )
    }
}

/// The final record list: one record per normalized deployment, joined
/// with its failure window and merged change by commit SHA.
pub open spec fn spec_link_data(g: GatheredDataV) -> Seq<ResponseRecordV> {
    spec_link_groups(g.deployments_by_repo, spec_find_failures(g), g.merges_by_sha, Seq::empty())
}

/// Joins every normalized deployment with the failure window and the
/// merged change recorded for its commit SHA, producing the final record
/// list.
pub fn link_data(data: GatheredData) -> (records: Vec<ResponseRecord>)
    ensures
        records.deep_view() == spec_link_data(data.deep_view()),
{
    let ghost gv = data.deep_view();
    let failures = find_failures_per_deployment(&data);
    let ghost failsv = failures.deep_view();
    let mut records: Vec<ResponseRecord> = Vec::new();
    proof {
        assert(records.deep_view() =~= Seq::<ResponseRecordV>::empty());
        assert(gv.deployments_by_repo.skip(0) =~= gv.deployments_by_repo);
    }
    let mut gi: usize = 0;
    while gi < data.deployments_by_repo.len()
        invariant
            gv == data.deep_view(),
            failsv == failures.deep_view(),
            failsv == spec_find_failures(gv),
            0 <= gi <= data.deployments_by_repo.len(),
            spec_link_groups(
                gv.deployments_by_repo.skip(gi as int),
                failsv,
                gv.merges_by_sha,
                records.deep_view(),
            ) == spec_link_data(gv),
        decreases data.deployments_by_repo.len() - gi,
    {
        let deps = &data.deployments_by_repo[gi].deployments;
        let ghost depsv = deps.deep_view();
        proof {
            assert(gv.deployments_by_repo.skip(gi as int).drop_first()
                =~= gv.deployments_by_repo.skip(gi as int + 1));
            assert(gv.deployments_by_repo.skip(gi as int)[0]
                == gv.deployments_by_repo[gi as int]);
            assert(depsv == gv.deployments_by_repo[gi as int].deployments);
            assert(depsv.skip(0) =~= depsv);
            assert(spec_link_groups(
                gv.deployments_by_repo.skip(gi as int),
                failsv,
                gv.merges_by_sha,
                records.deep_view(),
            ) == spec_link_groups(
                gv.deployments_by_repo.skip(gi as int + 1),
                failsv,
                gv.merges_by_sha,
                spec_link_deploys(depsv, failsv, gv.merges_by_sha, records.deep_view()),
            ));
        }
        let mut di: usize = 0;
        while di < deps.len()
            invariant
                gv == data.deep_view(),
                failsv == failures.deep_view(),
                gi < gv.deployments_by_repo.len(),
                depsv == deps.deep_view(),
                0 <= di <= depsv.len(),
                spec_link_groups(
                    gv.deployments_by_repo.skip(gi as int + 1),
                    failsv,
                    gv.merges_by_sha,
                    spec_link_deploys(
                        depsv.skip(di as int),
                        failsv,
                        gv.merges_by_sha,
                        records.deep_view(),
                    ),
                ) == spec_link_data(gv),
            decreases depsv.len() - di,
        {
            let deployment = &deps[di];
            proof {
                assert(deployment.deep_view() == depsv[di as int]);
                assert(depsv.skip(di as int).drop_first() =~= depsv.skip(di as int + 1));
                assert(depsv.skip(di as int)[0] == depsv[di as int]);
            }
            let mut record = ResponseRecord {
                repository: deployment.repository.clone(),
                team: deployment.team.clone(),
                title: None,
                user: None,
                sha: deployment.sha.clone(),
                status: deployment.status,
                failed_at: None,
                merged_at: None,
                created_at: deployment.created_at,
                fixed_at: None,
                fixed_url: None,
                deploy_url: deployment.deploy_url.clone(),
                issue_url: None,
                change_url: deployment.change_url.clone(),
            };
            match fail_position(&failures, &deployment.sha) {
                Some(idx) => {
                    record.failed_at = failures[idx].failure.failed_at;
                    record.fixed_at = failures[idx].failure.fixed_at;
                    record.issue_url = failures[idx].failure.issue_url.clone();
                    record.fixed_url = failures[idx].failure.fixed_url.clone();
                    proof {
                        assert(failures[idx as int].deep_view() == failsv[idx as int]);
                    }
                },
                None => {},
            }
            match merge_position(&data.merges_by_sha, &deployment.sha) {
                Some(idx) => {
                    let entry = &data.merges_by_sha[idx].entry;
                    record.merged_at = Some(entry.merged_at);
                    record.title = Some(entry.title.clone());
                    record.user = Some(entry.user.clone());
                    proof {
                        assert(data.merges_by_sha[idx as int].deep_view()
                            == gv.merges_by_sha[idx as int]);
                    }
                },
                None => {},
            }
            let ghost recs0 = records.deep_view();
            proof {
                assert(record.deep_view() == spec_record_for(
                    depsv[di as int],
                    failsv,
                    gv.merges_by_sha,
                ));
            }
            records.push(record);
            proof {
                assert(records.deep_view() =~= recs0.push(
                    spec_record_for(depsv[di as int], failsv, gv.merges_by_sha),
                ));
            }
            di = di + 1;
        }
        proof {
            assert(spec_link_deploys(
                depsv.skip(di as int),
                failsv,
                gv.merges_by_sha,
                records.deep_view(),
            ) == records.deep_view());
        }
        gi = gi + 1;
    }
    proof {
        assert(gv.deployments_by_repo.skip(gi as int)
            =~= Seq::<DeployGroupV>::empty());
    }
    records
}

/// The normalized view of three raw responses.
pub open spec fn spec_gathered_view(
    deploy: QueryResponseV,
    issue: QueryResponseV,
    merge: QueryResponseV,
    prod_env_names: Seq<char>,
) -> GatheredDataV {
    GatheredDataV {
        deployments_by_repo: spec_sort_deploy_data(deploy, prod_env_names),
        issues_by_repo: spec_sort_issue_data(issue),
        merges_by_sha: spec_sort_merge_data(merge),
    }
}

/// Normalizes the three concatenated responses and links the result into
/// the final record list. The whole computation is a function of the
/// responses and the configured production-environment names alone.
pub fn correlate_responses(
    deploy_data: QueryResponse,
    issue_data: QueryResponse,
    merge_data: QueryResponse,
    prod_env_names: &str,
) -> (r: Vec<ResponseRecord>)
    requires
        deploy_rows_wf(deploy_data.deep_view()),
        issue_rows_wf(issue_data.deep_view()),
        merge_rows_wf(merge_data.deep_view()),
    ensures
        r.deep_view() == spec_link_data(
            spec_gathered_view(
                deploy_data.deep_view(),
                issue_data.deep_view(),
                merge_data.deep_view(),
                prod_env_names@,
            ),
        ),
{
    let ghost dv = deploy_data.deep_view();
    let ghost iv = issue_data.deep_view();
    let ghost mv = merge_data.deep_view();
    let gathered = normalize_responses(deploy_data, issue_data, merge_data, prod_env_names);
    proof {
        assert(gathered.deep_view() =~= spec_gathered_view(dv, iv, mv, prod_env_names@));
    }
    link_data(gathered)
}

/// Law: gathering metrics is idempotent. Two runs of the correlation
/// against identical responses and configuration yield identical record
/// lists, because the result is pinned to a function of those inputs
/// alone.
pub proof fn lemma_gather_metrics_idempotent(
    deploy: QueryResponseV,
    issue: QueryResponseV,
    merge: QueryResponseV,
    prod_env_names: Seq<char>,
    r1: Seq<ResponseRecordV>,
    r2: Seq<ResponseRecordV>,
)
    requires
        r1 == spec_link_data(spec_gathered_view(deploy, issue, merge, prod_env_names)),
        r2 == spec_link_data(spec_gathered_view(deploy, issue, merge, prod_env_names)),
    ensures
        r1 == r2,
{
}

/// A recorded window with no resolution time.
pub open spec fn unresolved_pred() -> spec_fn(FailureRecordV) -> bool {
    |r: FailureRecordV| r.failure.fixed_at is None
}

/// How many recorded windows are still unresolved.
pub open spec fn spec_unresolved_count(recs: Seq<FailureRecordV>) -> nat {
    recs.filter(unresolved_pred()).len()
}

/// Every recorded window carries a resolution time.
pub open spec fn all_resolved(recs: Seq<FailureRecordV>) -> bool {
    forall|i: int| 0 <= i < recs.len() ==> (#[trigger] recs[i]).failure.fixed_at is Some
}

proof fn lemma_all_resolved_count(recs: Seq<FailureRecordV>)
    requires
        all_resolved(recs),
    ensures
        spec_unresolved_count(recs) == 0,
    decreases recs.len(),
{
    reveal(Seq::filter);
    if recs.len() == 0 {
        assert(recs.filter(unresolved_pred()) =~= Seq::<FailureRecordV>::empty());
    } else {
        assert(all_resolved(recs.drop_last()));
        lemma_all_resolved_count(recs.drop_last());
        assert(!unresolved_pred()(recs.last()));
    }
}

proof fn lemma_unresolved_push(recs: Seq<FailureRecordV>, x: FailureRecordV)
    ensures
        spec_unresolved_count(recs.push(x)) <= spec_unresolved_count(recs) + 1,
{
    reveal(Seq::filter);
    assert(recs.push(x).drop_last() =~= recs);
}

proof fn lemma_unresolved_update(recs: Seq<FailureRecordV>, i: int, x: FailureRecordV)
    requires
        0 <= i < recs.len(),
    ensures
        spec_unresolved_count(recs.update(i, x)) <= spec_unresolved_count(recs) + 1,
    decreases recs.len(),
{
    reveal(Seq::filter);
    let u = recs.update(i, x);
    if i == recs.len() - 1 {
        assert(u.drop_last() =~= recs.drop_last());
        assert(u.last() == x);
    } else {
        assert(u.drop_last() =~= recs.drop_last().update(i, x));
        assert(u.last() == recs.last());
        lemma_unresolved_update(recs.drop_last(), i, x);
    }
}

proof fn lemma_fail_put_unresolved(recs: Seq<FailureRecordV>, sha: Seq<char>, f: FailureV)
    ensures
        spec_unresolved_count(spec_fail_put(recs, sha, f)) <= spec_unresolved_count(recs) + 1,
{
    lemma_first_match_bounds(recs, fail_sha_pred(sha));
    let idx = spec_first_match(recs, fail_sha_pred(sha));
    if idx < 0 {
        lemma_unresolved_push(recs, FailureRecordV { sha, failure: f });
    } else {
        lemma_unresolved_update(recs, idx, FailureRecordV { sha, failure: f });
    }
}

proof fn lemma_fail_put_resolved(recs: Seq<FailureRecordV>, sha: Seq<char>, f: FailureV)
    requires
        all_resolved(recs),
        f.fixed_at is Some,
    ensures
        all_resolved(spec_fail_put(recs, sha, f)),
{
    lemma_first_match_bounds(recs, fail_sha_pred(sha));
    let idx = spec_first_match(recs, fail_sha_pred(sha));
    if idx < 0 {
        let out = recs.push(FailureRecordV { sha, failure: f });
        assert forall|i: int| 0 <= i < out.len() implies (#[trigger] out[i]).failure.fixed_at
            is Some by {
            if i < recs.len() {
                assert(out[i] == recs[i]);
            }
        }
    } else {
        let out = recs.update(idx, FailureRecordV { sha, failure: f });
        assert forall|i: int| 0 <= i < out.len() implies (#[trigger] out[i]).failure.fixed_at
            is Some by {
            if i != idx {
                assert(out[i] == recs[i]);
            }
        }
    }
}

proof fn lemma_scan_unresolved(
    deps: Seq<DeployEntryV>,
    i: int,
    issues_by_repo: Seq<IssueGroupV>,
    st: DetectorStateV,
)
    requires
        all_resolved(st.recorded),
    ensures
        spec_unresolved_count(spec_scan_deploys(deps, i, issues_by_repo, st).recorded) <= 2,
    decreases deps.len() - i,
{
    if i < 0 || i >= deps.len() {
        lemma_all_resolved_count(st.recorded);
    } else {
        let st1 = spec_detect_step(
            st,
            deps[i],
            spec_next_at(deps, i),
            i == deps.len() - 1,
            issues_by_repo,
        );
        let ex = spec_extract_failure(
            deps[i],
            spec_next_at(deps, i),
            spec_issues_of(issues_by_repo, deps[i].repository),
        );
        if i == deps.len() - 1 {
            assert(spec_scan_deploys(deps, i + 1, issues_by_repo, st1) == st1);
            if ex.1.failed_at is Some {
                let recs1 = spec_fail_put(st.recorded, ex.0, ex.1);
                lemma_all_resolved_count(st.recorded);
                lemma_fail_put_unresolved(st.recorded, ex.0, ex.1);
                match st.open_failure {
                    Some(open) => {
                        lemma_fail_put_unresolved(recs1, open.0, open.1);
                    },
                    None => {},
                }
            } else {
                match st.open_failure {
                    Some(open) => {
                        let resolved = if open.1.fixed_at is None {
                            FailureV {
                                failed_at: open.1.failed_at,
                                fixed_at: Some(deps[i].created_at),
                                issue_url: open.1.issue_url,
                                fixed_url: Some(deps[i].deploy_url),
                            }
                        } else {
                            open.1
                        };
                        lemma_fail_put_resolved(st.recorded, open.0, resolved);
                        lemma_all_resolved_count(st1.recorded);
                    },
                    None => {
                        lemma_all_resolved_count(st.recorded);
                    },
                }
            }
        } else {
            if ex.1.failed_at is Some {
                assert(st1.recorded == st.recorded);
            } else {
                match st.open_failure {
                    Some(open) => {
                        let resolved = if open.1.fixed_at is None {
                            FailureV {
                                failed_at: open.1.failed_at,
                                fixed_at: Some(deps[i].created_at),
                                issue_url: open.1.issue_url,
                                fixed_url: Some(deps[i].deploy_url),
                            }
                        } else {
                            open.1
                        };
                        lemma_fail_put_resolved(st.recorded, open.0, resolved);
                    },
                    None => {},
                }
            }
            lemma_scan_unresolved(deps, i + 1, issues_by_repo, st1);
        }
    }
}

/// Law: a repository tracks at most one open failure at a time. A new
/// failure arriving while another window is open and unresolved is not
/// tracked, so a repository's scan leaves at most two unresolved windows
/// in the output — the pair that the last deployment can flush without a
/// resolution — and never an unresolved window opened beside another.
pub proof fn lemma_single_open_failure(deps: Seq<DeployEntryV>, issues_by_repo: Seq<IssueGroupV>)
    ensures
        spec_unresolved_count(
            spec_scan_deploys(
                deps,
                0,
                issues_by_repo,
                DetectorStateV { recorded: Seq::empty(), open_failure: None },
            ).recorded,
        ) <= 2,
{
    lemma_scan_unresolved(
        deps,
        0,
        issues_by_repo,
        DetectorStateV { recorded: Seq::empty(), open_failure: None },
    );
}

/// No two recorded windows share a commit SHA.
pub open spec fn distinct_shas(recs: Seq<FailureRecordV>) -> bool {
    forall|i: int, j: int|
        0 <= i < j < recs.len() ==> (#[trigger] recs[i]).sha != (#[trigger] recs[j]).sha
}

proof fn lemma_fail_put_distinct(recs: Seq<FailureRecordV>, sha: Seq<char>, f: FailureV)
    requires
        distinct_shas(recs),
    ensures
        distinct_shas(spec_fail_put(recs, sha, f)),
{
    lemma_first_match_bounds(recs, fail_sha_pred(sha));
    let idx = spec_first_match(recs, fail_sha_pred(sha));
    if idx < 0 {
        lemma_first_match_absent(recs, fail_sha_pred(sha));
        let out = recs.push(FailureRecordV { sha, failure: f });
        assert forall|i: int, j: int| 0 <= i < j < out.len() implies (#[trigger] out[i]).sha != (
        #[trigger] out[j]).sha by {
            if j < recs.len() {
                assert(out[i] == recs[i] && out[j] == recs[j]);
            } else {
                assert(out[i] == recs[i] && out[j].sha == sha);
                assert(!fail_sha_pred(sha)(recs[i]));
            }
        }
    } else {
        assert(recs[idx].sha == sha);
        let out = recs.update(idx, FailureRecordV { sha, failure: f });
        assert forall|i: int, j: int| 0 <= i < j < out.len() implies (#[trigger] out[i]).sha != (
        #[trigger] out[j]).sha by {
            assert(out[i].sha == recs[i].sha && out[j].sha == recs[j].sha);
        }
    }
}

proof fn lemma_scan_distinct(
    deps: Seq<DeployEntryV>,
    i: int,
    issues_by_repo: Seq<IssueGroupV>,
    st: DetectorStateV,
)
    requires
        distinct_shas(st.recorded),
    ensures
        distinct_shas(spec_scan_deploys(deps, i, issues_by_repo, st).recorded),
    decreases deps.len() - i,
{
    if i < 0 || i >= deps.len() {
    } else {
        let st1 = spec_detect_step(
            st,
            deps[i],
            spec_next_at(deps, i),
            i == deps.len() - 1,
            issues_by_repo,
        );
        let ex = spec_extract_failure(
            deps[i],
            spec_next_at(deps, i),
            spec_issues_of(issues_by_repo, deps[i].repository),
        );
        if ex.1.failed_at is Some && i == deps.len() - 1 {
            lemma_fail_put_distinct(st.recorded, ex.0, ex.1);
            match st.open_failure {
                Some(open) => {
                    lemma_fail_put_distinct(spec_fail_put(st.recorded, ex.0, ex.1), open.0, open.1);
                },
                None => {},
            }
        } else if ex.1.failed_at is None {
            match st.open_failure {
                Some(open) => {
                    let resolved = if open.1.fixed_at is None {
                        FailureV {
                            failed_at: open.1.failed_at,
                            fixed_at: Some(deps[i].created_at),
                            issue_url: open.1.issue_url,
                            fixed_url: Some(deps[i].deploy_url),
                        }
                    } else {
                        open.1
                    };
                    lemma_fail_put_distinct(st.recorded, open.0, resolved);
                },
                None => {},
            }
        }
        lemma_scan_distinct(deps, i + 1, issues_by_repo, st1);
    }
}

proof fn lemma_detect_groups_distinct(
    groups: Seq<DeployGroupV>,
    i: int,
    issues_by_repo: Seq<IssueGroupV>,
    recorded: Seq<FailureRecordV>,
)
    requires
        distinct_shas(recorded),
    ensures
        distinct_shas(spec_detect_groups(groups, i, issues_by_repo, recorded)),
    decreases groups.len() - i,
{
    if i < 0 || i >= groups.len() {
    } else {
        lemma_scan_distinct(
            groups[i].deployments,
            0,
            issues_by_repo,
            DetectorStateV { recorded, open_failure: None },
        );
        lemma_detect_groups_distinct(
            groups,
            i + 1,
            issues_by_repo,
            spec_scan_deploys(
                groups[i].deployments,
                0,
                issues_by_repo,
                DetectorStateV { recorded, open_failure: None },
            ).recorded,
        );
    }
}

/// The failure map owns each SHA at most once.
pub proof fn lemma_find_failures_distinct(g: GatheredDataV)
    ensures
        distinct_shas(spec_find_failures(g)),
{
    lemma_detect_groups_distinct(g.deployments_by_repo, 0, g.issues_by_repo, Seq::empty());
}



} // verus!
