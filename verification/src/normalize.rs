//! Normalization of the raw query responses: filtering deployments to
//! production environments, grouping per repository, ordering by creation
//! time, and deduplicating by commit SHA.

use vstd::prelude::*;

use crate::events::{
    lemma_first_match_found, lemma_first_match_none, spec_first_match, DeployEntry, DeployEntryV, DeployGroup, DeployGroupV, GatheredData,
    IssueEntry, IssueEntryV, IssueGroup, IssueGroupV, MergeEntry, MergeEntryV, MergeRecord,
    MergeRecordV,
};
use crate::rows::{
    deploy_item_wf, deploy_rows_wf, issue_item_wf, issue_rows_wf, merge_item_wf, merge_rows_wf,
    Data, QueryResponse, QueryResponseV, ResultItemV, StreamV, ValueItem, ValueItemV,
};
use crate::text::{
    lower_of, spec_contains, spec_starts_with, str_contains, str_starts_with, to_lowercase,
};
use crate::vendor::{spec_change_url, spec_deployment_url, EventVendorFunctions, GitHub};

verus! {

/// The deployments are in non-decreasing creation order.
pub open spec fn deploys_sorted(s: Seq<DeployEntryV>) -> bool {
    forall|i: int, j: int|
        0 <= i <= j < s.len() ==> #[trigger] s[i].created_at <= #[trigger] s[j].created_at
}

/// The issues are in non-decreasing creation order.
pub open spec fn issues_sorted(s: Seq<IssueEntryV>) -> bool {
    forall|i: int, j: int|
        0 <= i <= j < s.len() ==> #[trigger] s[i].created_at <= #[trigger] s[j].created_at
}

/// Stable insertion of a deployment into a creation-ordered sequence:
/// the new entry goes after every entry that does not come strictly
/// later.
pub open spec fn spec_insert_deploy(x: DeployEntryV, s: Seq<DeployEntryV>) -> Seq<DeployEntryV>
    decreases s.len(),
{
    if s.len() == 0 {
        seq![x]
    } else if s[0].created_at <= x.created_at {
        seq![s[0]] + spec_insert_deploy(x, s.drop_first())
    } else {
        seq![x] + s
    }
}

/// Stable insertion sort of deployments by creation time.
pub open spec fn spec_sort_deploys(s: Seq<DeployEntryV>) -> Seq<DeployEntryV>
    decreases s.len(),
{
    if s.len() == 0 {
        Seq::empty()
    } else {
        spec_insert_deploy(s.last(), spec_sort_deploys(s.drop_last()))
    }
}

/// Stable insertion of an issue into a creation-ordered sequence.
pub open spec fn spec_insert_issue(x: IssueEntryV, s: Seq<IssueEntryV>) -> Seq<IssueEntryV>
    decreases s.len(),
{
    if s.len() == 0 {
        seq![x]
    } else if s[0].created_at <= x.created_at {
        seq![s[0]] + spec_insert_issue(x, s.drop_first())
    } else {
        seq![x] + s
    }
}

/// Stable insertion sort of issues by creation time.
pub open spec fn spec_sort_issues(s: Seq<IssueEntryV>) -> Seq<IssueEntryV>
    decreases s.len(),
{
    if s.len() == 0 {
        Seq::empty()
    } else {
        spec_insert_issue(s.last(), spec_sort_issues(s.drop_last()))
    }
}

proof fn lemma_insert_deploy_at(x: DeployEntryV, s: Seq<DeployEntryV>, j: int)
    requires
        0 <= j <= s.len(),
        forall|i: int| 0 <= i < j ==> #[trigger] s[i].created_at <= x.created_at,
        j < s.len() ==> s[j].created_at > x.created_at,
    ensures
        spec_insert_deploy(x, s) == s.insert(j, x),
    decreases j,
{
    if j == 0 {
        if s.len() == 0 {
            assert(spec_insert_deploy(x, s) =~= s.insert(0, x));
        } else {
            assert(spec_insert_deploy(x, s) =~= s.insert(0, x));
        }
    } else {
        assert(s[0].created_at <= x.created_at);
        lemma_insert_deploy_at(x, s.drop_first(), j - 1);
        assert(seq![s[0]] + s.drop_first().insert(j - 1, x) =~= s.insert(j, x));
    }
}

proof fn lemma_insert_issue_at(x: IssueEntryV, s: Seq<IssueEntryV>, j: int)
    requires
        0 <= j <= s.len(),
        forall|i: int| 0 <= i < j ==> #[trigger] s[i].created_at <= x.created_at,
        j < s.len() ==> s[j].created_at > x.created_at,
    ensures
        spec_insert_issue(x, s) == s.insert(j, x),
    decreases j,
{
    if j == 0 {
        assert(spec_insert_issue(x, s) =~= s.insert(0, x));
    } else {
        assert(s[0].created_at <= x.created_at);
        lemma_insert_issue_at(x, s.drop_first(), j - 1);
        assert(seq![s[0]] + s.drop_first().insert(j - 1, x) =~= s.insert(j, x));
    }
}

/// Inserting into a sorted sequence keeps it sorted.
proof fn lemma_insert_deploy_sorted(x: DeployEntryV, s: Seq<DeployEntryV>)
    requires
        deploys_sorted(s),
    ensures
        deploys_sorted(spec_insert_deploy(x, s)),
    decreases s.len(),
{
    if s.len() == 0 {
    } else if s[0].created_at <= x.created_at {
        assert(deploys_sorted(s.drop_first()));
        lemma_insert_deploy_sorted(x, s.drop_first());
        let r = seq![s[0]] + spec_insert_deploy(x, s.drop_first());
        assert forall|i: int, j: int| 0 <= i <= j < r.len() implies #[trigger] r[i].created_at
            <= #[trigger] r[j].created_at by {
            if i == 0 && j > 0 {
                let inner = spec_insert_deploy(x, s.drop_first());
                assert(r[j] == inner[j - 1]);
                lemma_insert_deploy_member(x, s.drop_first(), j - 1);
            }
        }
    } else {
        let r = seq![x] + s;
        assert forall|i: int, j: int| 0 <= i <= j < r.len() implies #[trigger] r[i].created_at
            <= #[trigger] r[j].created_at by {
            if i == 0 && j > 0 {
                assert(r[j] == s[j - 1]);
                assert(s[0].created_at <= s[j - 1].created_at);
            }
        }
    }
}

/// Every element of an insertion result is the inserted element or an
/// element of the original, so a lower bound on both bounds the result.
proof fn lemma_insert_deploy_member(x: DeployEntryV, s: Seq<DeployEntryV>, i: int)
    requires
        0 <= i < spec_insert_deploy(x, s).len(),
    ensures
        spec_insert_deploy(x, s)[i] == x || s.contains(spec_insert_deploy(x, s)[i]),
    decreases s.len(),
{
    if s.len() == 0 {
    } else if s[0].created_at <= x.created_at {
        if i == 0 {
            assert(s.contains(s[0]));
        } else {
            lemma_insert_deploy_member(x, s.drop_first(), i - 1);
            let e = spec_insert_deploy(x, s)[i];
            if s.drop_first().contains(e) {
                let k = choose|k: int| 0 <= k < s.drop_first().len() && s.drop_first()[k] == e;
                assert(s[k + 1] == e);
                assert(s.contains(e));
            }
        }
    } else {
        if i > 0 {
            assert(s.contains(s[i - 1]));
        }
    }
}

proof fn lemma_insert_issue_sorted(x: IssueEntryV, s: Seq<IssueEntryV>)
    requires
        issues_sorted(s),
    ensures
        issues_sorted(spec_insert_issue(x, s)),
    decreases s.len(),
{
    if s.len() == 0 {
    } else if s[0].created_at <= x.created_at {
        assert(issues_sorted(s.drop_first()));
        lemma_insert_issue_sorted(x, s.drop_first());
        let r = seq![s[0]] + spec_insert_issue(x, s.drop_first());
        assert forall|i: int, j: int| 0 <= i <= j < r.len() implies #[trigger] r[i].created_at
            <= #[trigger] r[j].created_at by {
            if i == 0 && j > 0 {
                let inner = spec_insert_issue(x, s.drop_first());
                assert(r[j] == inner[j - 1]);
                lemma_insert_issue_member(x, s.drop_first(), j - 1);
            }
        }
    } else {
        let r = seq![x] + s;
        assert forall|i: int, j: int| 0 <= i <= j < r.len() implies #[trigger] r[i].created_at
            <= #[trigger] r[j].created_at by {
            if i == 0 && j > 0 {
                assert(r[j] == s[j - 1]);
                assert(s[0].created_at <= s[j - 1].created_at);
            }
        }
    }
}

proof fn lemma_insert_issue_member(x: IssueEntryV, s: Seq<IssueEntryV>, i: int)
    requires
        0 <= i < spec_insert_issue(x, s).len(),
    ensures
        spec_insert_issue(x, s)[i] == x || s.contains(spec_insert_issue(x, s)[i]),
    decreases s.len(),
{
    if s.len() == 0 {
    } else if s[0].created_at <= x.created_at {
        if i == 0 {
            assert(s.contains(s[0]));
        } else {
            lemma_insert_issue_member(x, s.drop_first(), i - 1);
            let e = spec_insert_issue(x, s)[i];
            if s.drop_first().contains(e) {
                let k = choose|k: int| 0 <= k < s.drop_first().len() && s.drop_first()[k] == e;
                assert(s[k + 1] == e);
                assert(s.contains(e));
            }
        }
    } else {
        if i > 0 {
            assert(s.contains(s[i - 1]));
        }
    }
}

/// The insertion sort of a deployment sequence is sorted.
pub proof fn lemma_sort_deploys_sorted(s: Seq<DeployEntryV>)
    ensures
        deploys_sorted(spec_sort_deploys(s)),
    decreases s.len(),
{
    if s.len() == 0 {
    } else {
        lemma_sort_deploys_sorted(s.drop_last());
        lemma_insert_deploy_sorted(s.last(), spec_sort_deploys(s.drop_last()));
    }
}

/// The insertion sort of an issue sequence is sorted.
pub proof fn lemma_sort_issues_sorted(s: Seq<IssueEntryV>)
    ensures
        issues_sorted(spec_sort_issues(s)),
    decreases s.len(),
{
    if s.len() == 0 {
    } else {
        lemma_sort_issues_sorted(s.drop_last());
        lemma_insert_issue_sorted(s.last(), spec_sort_issues(s.drop_last()));
    }
}

/// Sorts the deployments of one repository by creation time, stably.
pub fn sort_deploys_by_created_at(deploys: &mut Vec<DeployEntry>)
    ensures
        final(deploys).deep_view() == spec_sort_deploys(old(deploys).deep_view()),
{
    let ghost orig = old(deploys).deep_view();
    let mut sorted: Vec<DeployEntry> = Vec::new();
    let ghost mut done: int = 0;
    while deploys.len() > 0
        invariant
            0 <= done <= orig.len(),
            deploys.deep_view() =~= orig.skip(done),
            sorted.deep_view() == spec_sort_deploys(orig.take(done)),
        decreases deploys.len(),
    {
        let ghost pending = deploys.deep_view();
        let ghost pending_raw = deploys@;
        let e = deploys.remove(0);
        proof {
            pending_raw.remove_ensures(0);
            assert(pending.len() > 0);
            assert(pending[0] == orig.skip(done)[0]);
            assert(orig.skip(done)[0] == orig[done]);
            assert(e.deep_view() == pending[0]);
            assert forall|i: int| 0 <= i < deploys.deep_view().len() implies deploys.deep_view()[i]
                == orig.skip(done + 1)[i] by {
                assert(deploys@[i] == pending_raw[i + 1]);
                assert(pending[i + 1] == orig[done + 1 + i]);
            }
            assert(deploys.deep_view() =~= orig.skip(done + 1));
        }
        let ghost before = sorted.deep_view();
        let mut j: usize = 0;
        while j < sorted.len() && sorted[j].created_at <= e.created_at
            invariant
                0 <= j <= sorted.len(),
                sorted.deep_view() == before,
                forall|i: int|
                    0 <= i < j ==> #[trigger] before[i].created_at <= e.deep_view().created_at,
            decreases sorted.len() - j,
        {
            j = j + 1;
        }
        sorted.insert(j, e);
        proof {
            lemma_insert_deploy_at(e.deep_view(), before, j as int);
            assert(sorted.deep_view() =~= before.insert(j as int, e.deep_view()));
            assert(orig.take(done + 1).drop_last() =~= orig.take(done));
            assert(orig.take(done + 1).last() == orig[done]);
            done = done + 1;
        }
    }
    proof {
        assert(orig.take(done) =~= orig);
    }
    *deploys = sorted;
}

/// Sorts the issues of one repository by creation time, stably.
pub fn sort_issues_by_created_at(issues: &mut Vec<IssueEntry>)
    ensures
        final(issues).deep_view() == spec_sort_issues(old(issues).deep_view()),
{
    let ghost orig = old(issues).deep_view();
    let mut sorted: Vec<IssueEntry> = Vec::new();
    let ghost mut done: int = 0;
    while issues.len() > 0
        invariant
            0 <= done <= orig.len(),
            issues.deep_view() =~= orig.skip(done),
            sorted.deep_view() == spec_sort_issues(orig.take(done)),
        decreases issues.len(),
    {
        let ghost pending = issues.deep_view();
        let ghost pending_raw = issues@;
        let e = issues.remove(0);
        proof {
            pending_raw.remove_ensures(0);
            assert(pending.len() > 0);
            assert(pending[0] == orig.skip(done)[0]);
            assert(orig.skip(done)[0] == orig[done]);
            assert(e.deep_view() == pending[0]);
            assert forall|i: int| 0 <= i < issues.deep_view().len() implies issues.deep_view()[i]
                == orig.skip(done + 1)[i] by {
                assert(issues@[i] == pending_raw[i + 1]);
                assert(pending[i + 1] == orig[done + 1 + i]);
            }
            assert(issues.deep_view() =~= orig.skip(done + 1));
        }
        let ghost before = sorted.deep_view();
        let mut j: usize = 0;
        while j < sorted.len() && sorted[j].created_at <= e.created_at
            invariant
                0 <= j <= sorted.len(),
                sorted.deep_view() == before,
                forall|i: int|
                    0 <= i < j ==> #[trigger] before[i].created_at <= e.deep_view().created_at,
            decreases sorted.len() - j,
        {
            j = j + 1;
        }
        sorted.insert(j, e);
        proof {
            lemma_insert_issue_at(e.deep_view(), before, j as int);
            assert(sorted.deep_view() =~= before.insert(j as int, e.deep_view()));
            assert(orig.take(done + 1).drop_last() =~= orig.take(done));
            assert(orig.take(done + 1).last() == orig[done]);
            done = done + 1;
        }
    }
    proof {
        assert(orig.take(done) =~= orig);
    }
    *issues = sorted;
}

/// A sequence of strings contains the given one.
pub open spec fn str_seq_contains(l: Seq<Seq<char>>, s: Seq<char>) -> bool {
    exists|i: int| 0 <= i < l.len() && l[i] == s
}

/// Whether one of the strings equals `s`.
fn contains_string(l: &Vec<String>, s: &String) -> (r: bool)
    ensures
        r == str_seq_contains(l.deep_view(), s.deep_view()),
{
    let mut i: usize = 0;
    while i < l.len()
        invariant
            0 <= i <= l.len(),
            forall|k: int| 0 <= k < i ==> #[trigger] l.deep_view()[k] != s.deep_view(),
        decreases l.len() - i,
    {
        if l[i].eq(s) {
            proof {
                assert(l.deep_view()[i as int] == s.deep_view());
            }
            return true;
        }
        i = i + 1;
    }
    false
}

/// Pushing a string extends the membership of a string sequence by
/// exactly that string.
proof fn lemma_str_seq_contains_push(l: Seq<Seq<char>>, x: Seq<char>, sha: Seq<char>)
    ensures
        str_seq_contains(l.push(x), sha) <==> (sha == x || str_seq_contains(l, sha)),
{
    if str_seq_contains(l.push(x), sha) {
        let i = choose|i: int| 0 <= i < l.push(x).len() && l.push(x)[i] == sha;
        if i < l.len() {
            assert(l[i] == sha);
        }
    }
    if sha == x {
        assert(l.push(x)[l.len() as int] == x);
    }
    if str_seq_contains(l, sha) {
        let i = choose|i: int| 0 <= i < l.len() && l[i] == sha;
        assert(l.push(x)[i] == sha);
    }
}

/// One step of the deduplication scan, carrying for each commit SHA seen
/// so far whether a success has already been retained for it.
pub open spec fn spec_dedup_rec(s: Seq<DeployEntryV>, seen: Map<Seq<char>, bool>) -> Seq<
    DeployEntryV,
>
    decreases s.len(),
{
    if s.len() == 0 {
        Seq::empty()
    } else {
        let e = s[0];
        let rest = s.drop_first();
        if !seen.contains_key(e.sha) {
            seq![e] + spec_dedup_rec(rest, seen.insert(e.sha, e.status))
        } else if !seen[e.sha] && e.status {
            seq![e] + spec_dedup_rec(rest, seen.insert(e.sha, true))
        } else {
            spec_dedup_rec(rest, seen)
        }
    }
}

/// The deduplication policy over a creation-ordered deployment sequence:
/// the first entry of each SHA is kept; when that first entry is a
/// failure, the first later success of the same SHA is kept as well; all
/// other repeats are dropped.
pub open spec fn spec_dedup(s: Seq<DeployEntryV>) -> Seq<DeployEntryV> {
    spec_dedup_rec(s, Map::empty())
}

/// Drops duplicate deployments of one repository by commit SHA, keeping
/// the first entry per SHA and, after a failing first entry, the first
/// later success of that SHA.
pub fn filter_duplicate_deployments_by_sha(deploys: &mut Vec<DeployEntry>)
    ensures
        final(deploys).deep_view() == spec_dedup(old(deploys).deep_view()),
{
    let ghost orig = old(deploys).deep_view();
    let mut kept: Vec<DeployEntry> = Vec::new();
    let mut seen_shas: Vec<String> = Vec::new();
    let mut fixed_shas: Vec<String> = Vec::new();
    let ghost mut seen: Map<Seq<char>, bool> = Map::empty();
    proof {
        assert(spec_dedup(orig) =~= kept.deep_view() + spec_dedup_rec(deploys.deep_view(), seen));
    }
    while deploys.len() > 0
        invariant
            spec_dedup(orig) == kept.deep_view() + spec_dedup_rec(deploys.deep_view(), seen),
            forall|sha: Seq<char>| #[trigger]
                seen.contains_key(sha) <==> str_seq_contains(seen_shas.deep_view(), sha),
            forall|sha: Seq<char>|
                seen.contains_key(sha) ==> (#[trigger] seen[sha] <==> str_seq_contains(
                    fixed_shas.deep_view(),
                    sha,
                )),
            forall|sha: Seq<char>| #[trigger]
                str_seq_contains(fixed_shas.deep_view(), sha) ==> seen.contains_key(sha),
        decreases deploys.len(),
    {
        let ghost pending = deploys.deep_view();
        let ghost pending_raw = deploys@;
        let e = deploys.remove(0);
        proof {
            pending_raw.remove_ensures(0);
            assert(e.deep_view() == pending[0]);
            assert forall|i: int| 0 <= i < deploys.deep_view().len() implies deploys.deep_view()[i]
                == pending.drop_first()[i] by {
                assert(deploys@[i] == pending_raw[i + 1]);
            }
            assert(deploys.deep_view() =~= pending.drop_first());
        }
        let was_seen = contains_string(&seen_shas, &e.sha);
        if !was_seen {
            let ghost shas0 = seen_shas.deep_view();
            let ghost fixed0 = fixed_shas.deep_view();
            let ghost kept0 = kept.deep_view();
            let ghost ev = e.deep_view();
            seen_shas.push(e.sha.clone());
            if e.status {
                fixed_shas.push(e.sha.clone());
            }
            proof {
                let seen0 = seen;
                seen = seen.insert(ev.sha, ev.status);
                assert(spec_dedup_rec(pending, seen0) == seq![ev] + spec_dedup_rec(
                    pending.drop_first(),
                    seen,
                ));
                assert(kept0.push(ev) + spec_dedup_rec(deploys.deep_view(), seen) =~= kept0 + (
                seq![ev] + spec_dedup_rec(deploys.deep_view(), seen)));
                assert(seen_shas.deep_view() =~= shas0.push(ev.sha));
                assert forall|sha: Seq<char>| #[trigger]
                    seen.contains_key(sha) <==> str_seq_contains(
                        seen_shas.deep_view(),
                        sha,
                    ) by {
                    lemma_str_seq_contains_push(shas0, ev.sha, sha);
                }
                if ev.status {
                    assert(fixed_shas.deep_view() =~= fixed0.push(ev.sha));
                }
                assert forall|sha: Seq<char>|
                    seen.contains_key(sha) implies (#[trigger] seen[sha] <==> str_seq_contains(
                    fixed_shas.deep_view(),
                    sha,
                )) by {
                    if ev.status {
                        lemma_str_seq_contains_push(fixed0, ev.sha, sha);
                    }
                }
                assert forall|sha: Seq<char>| #[trigger]
                    str_seq_contains(fixed_shas.deep_view(), sha) implies seen.contains_key(
                    sha,
                ) by {
                    if ev.status {
                        lemma_str_seq_contains_push(fixed0, ev.sha, sha);
                    }
                }
            }
            kept.push(e);
            proof {
                assert(kept.deep_view() =~= kept0.push(ev));
            }
        } else {
            let was_fixed = contains_string(&fixed_shas, &e.sha);
            if !was_fixed && e.status {
                let ghost fixed0 = fixed_shas.deep_view();
                let ghost kept0 = kept.deep_view();
                let ghost ev = e.deep_view();
                fixed_shas.push(e.sha.clone());
                proof {
                    let seen0 = seen;
                    assert(!seen0[ev.sha]);
                    seen = seen.insert(ev.sha, true);
                    assert(spec_dedup_rec(pending, seen0) == seq![ev] + spec_dedup_rec(
                        pending.drop_first(),
                        seen,
                    ));
                    assert(kept0.push(ev) + spec_dedup_rec(deploys.deep_view(), seen) =~= kept0
                        + (seq![ev] + spec_dedup_rec(deploys.deep_view(), seen)));
                    assert(fixed_shas.deep_view() =~= fixed0.push(ev.sha));
                    assert forall|sha: Seq<char>|
                        seen.contains_key(sha) implies (#[trigger] seen[sha]
                        <==> str_seq_contains(fixed_shas.deep_view(), sha)) by {
                        lemma_str_seq_contains_push(fixed0, ev.sha, sha);
                    }
                    assert forall|sha: Seq<char>| #[trigger]
                        str_seq_contains(fixed_shas.deep_view(), sha) implies seen.contains_key(
                        sha,
                    ) by {
                        lemma_str_seq_contains_push(fixed0, ev.sha, sha);
                    }
                }
                kept.push(e);
                proof {
                    assert(kept.deep_view() =~= kept0.push(ev));
                }
            } else {
                proof {
                    assert(seen[e.deep_view().sha] == was_fixed || !e.deep_view().status);
                    assert(spec_dedup_rec(pending, seen) == spec_dedup_rec(
                        pending.drop_first(),
                        seen,
                    ));
                }
            }
        }
    }
    proof {
        assert(kept.deep_view() + spec_dedup_rec(deploys.deep_view(), seen) =~= kept.deep_view());
    }
    *deploys = kept;
}


/// Whether a merge record for this commit SHA is already present.
pub open spec fn merge_sha_pred(sha: Seq<char>) -> spec_fn(MergeRecordV) -> bool {
    |r: MergeRecordV| r.sha == sha
}

/// The merge record one row value yields: the pull request's merge
/// commit SHA, author and title, and the stream's merge time.
pub open spec fn spec_merge_record(stream: StreamV, v: ValueItemV) -> MergeRecordV
    recommends
        stream.merged_at is Some,
        v.json_data.pull_request is Some,
{
    let pr = v.json_data.pull_request.unwrap();
    MergeRecordV {
        sha: pr.merge_commit_sha,
        entry: MergeEntryV {
            merged_at: stream.merged_at.unwrap(),
            user: pr.user.login,
            title: pr.title,
        },
    }
}

/// Folds the values of one merge row into the accumulated records; the
/// first record observed for a SHA wins, later duplicates are dropped.
pub open spec fn spec_merge_values(
    stream: StreamV,
    values: Seq<ValueItemV>,
    acc: Seq<MergeRecordV>,
) -> Seq<MergeRecordV>
    decreases values.len(),
{
    if values.len() == 0 {
        acc
    } else {
        let rec = spec_merge_record(stream, values[0]);
        let acc2 = if spec_first_match(acc, merge_sha_pred(rec.sha)) >= 0 {
            acc
        } else {
            acc.push(rec)
        };
        spec_merge_values(stream, values.drop_first(), acc2)
    }
}

/// Folds all merge rows into the accumulated records.
pub open spec fn spec_merge_items(items: Seq<ResultItemV>, acc: Seq<MergeRecordV>) -> Seq<
    MergeRecordV,
>
    decreases items.len(),
{
    if items.len() == 0 {
        acc
    } else {
        spec_merge_items(
            items.drop_first(),
            spec_merge_values(items[0].stream, items[0].values, acc),
        )
    }
}

/// The merge records of a whole response, keyed by commit SHA with the
/// first observation winning.
pub open spec fn spec_sort_merge_data(q: QueryResponseV) -> Seq<MergeRecordV> {
    spec_merge_items(q.data.result, Seq::empty())
}

/// The position of the record with this SHA, if one exists.
pub(crate) fn merge_position(records: &Vec<MergeRecord>, sha: &String) -> (r: Option<usize>)
    ensures
        match r {
            Some(i) => 0 <= i < records.len() && spec_first_match(
                records.deep_view(),
                merge_sha_pred(sha.deep_view()),
            ) == i as int,
            None => spec_first_match(records.deep_view(), merge_sha_pred(sha.deep_view())) == -1,
        },
{
    let ghost pred = merge_sha_pred(sha.deep_view());
    let mut i: usize = 0;
    while i < records.len()
        invariant
            0 <= i <= records.len(),
            pred == merge_sha_pred(sha.deep_view()),
            forall|k: int| 0 <= k < i ==> !pred(#[trigger] records.deep_view()[k]),
        decreases records.len() - i,
    {
        if records[i].sha.eq(sha) {
            proof {
                assert(records.deep_view()[i as int].sha == sha.deep_view());
                crate::events::lemma_first_match_found(records.deep_view(), pred, i as int);
            }
            return Some(i);
        }
        proof {
            assert(records.deep_view()[i as int].sha != sha.deep_view());
        }
        i = i + 1;
    }
    proof {
        crate::events::lemma_first_match_none(records.deep_view(), pred);
    }
    None
}

/// Groups merge data by commit SHA. For each pull request the author,
/// title and merge time are recorded; when several rows carry the same
/// SHA only the first observed one is retained.
pub fn sort_merge_data(merge_data: QueryResponse) -> (r: Vec<MergeRecord>)
    requires
        merge_rows_wf(merge_data.deep_view()),
    ensures
        r.deep_view() == spec_sort_merge_data(merge_data.deep_view()),
{
    let ghost target = spec_sort_merge_data(merge_data.deep_view());
    let mut records: Vec<MergeRecord> = Vec::new();
    proof {
        assert(records.deep_view() =~= Seq::<MergeRecordV>::empty());
    }
    let data = merge_data.data;
    let mut items = data.result;
    while items.len() > 0
        invariant
            spec_merge_items(items.deep_view(), records.deep_view()) == target,
            forall|i: int|
                0 <= i < items.deep_view().len() ==> merge_item_wf(
                    #[trigger] items.deep_view()[i],
                ),
        decreases items.len(),
    {
        let ghost items_pre = items.deep_view();
        let ghost items_pre_raw = items@;
        let item = items.remove(0);
        proof {
            items_pre_raw.remove_ensures(0);
            assert(item.deep_view() == items_pre[0]);
            assert forall|i: int|
                0 <= i < items.deep_view().len() implies items.deep_view()[i]
                == items_pre.drop_first()[i] by {
                assert(items@[i] == items_pre_raw[i + 1]);
            }
            assert(items.deep_view() =~= items_pre.drop_first());
        }
        let ghost itemv = item.deep_view();
        proof {
            assert(merge_item_wf(itemv));
            assert(spec_merge_items(items_pre, records.deep_view()) == spec_merge_items(
                items.deep_view(),
                spec_merge_values(itemv.stream, itemv.values, records.deep_view()),
            ));
        }
        let stream = item.stream;
        let mut values = item.values;
        while values.len() > 0
            invariant
                stream.deep_view() == itemv.stream,
                merge_item_wf(itemv),
                spec_merge_items(
                    items.deep_view(),
                    spec_merge_values(itemv.stream, values.deep_view(), records.deep_view()),
                ) == target,
                forall|j: int|
                    0 <= j < values.deep_view().len() ==> (#[trigger] values.deep_view()[j])
                        .json_data.pull_request is Some,
            decreases values.len(),
        {
            let ghost values_pre = values.deep_view();
            let ghost values_pre_raw = values@;
            let v = values.remove(0);
            proof {
                values_pre_raw.remove_ensures(0);
                assert(v.deep_view() == values_pre[0]);
                assert forall|j: int|
                    0 <= j < values.deep_view().len() implies values.deep_view()[j]
                    == values_pre.drop_first()[j] by {
                    assert(values@[j] == values_pre_raw[j + 1]);
                }
                assert(values.deep_view() =~= values_pre.drop_first());
            }
            let ghost vv = v.deep_view();
            let pr = v.json_data.pull_request.unwrap();
            let ghost recs0 = records.deep_view();
            match merge_position(&records, &pr.merge_commit_sha) {
                Some(_) => {
                    proof {
                        assert(spec_merge_values(itemv.stream, values_pre, recs0)
                            == spec_merge_values(itemv.stream, values.deep_view(), recs0));
                    }
                },
                None => {
                    let merged_at = stream.merged_at.unwrap();
                    let record = MergeRecord {
                        sha: pr.merge_commit_sha,
                        entry: MergeEntry { merged_at, user: pr.user.login, title: pr.title },
                    };
                    proof {
                        assert(record.deep_view() == spec_merge_record(itemv.stream, vv));
                    }
                    records.push(record);
                    proof {
                        assert(records.deep_view() =~= recs0.push(
                            spec_merge_record(itemv.stream, vv),
                        ));
                        assert(spec_merge_values(itemv.stream, values_pre, recs0)
                            == spec_merge_values(
                            itemv.stream,
                            values.deep_view(),
                            records.deep_view(),
                        ));
                    }
                },
            }
        }
        proof {
            assert(spec_merge_values(itemv.stream, values.deep_view(), records.deep_view())
                == records.deep_view());
        }
    }
    proof {
        assert(spec_merge_items(items.deep_view(), records.deep_view()) == records.deep_view());
    }
    records
}


/// Whether an issue group belongs to this repository.
pub open spec fn issue_group_pred(repo: Seq<char>) -> spec_fn(IssueGroupV) -> bool {
    |g: IssueGroupV| g.repository == repo
}

/// Whether a deployment group belongs to this repository.
pub open spec fn deploy_group_pred(repo: Seq<char>) -> spec_fn(DeployGroupV) -> bool {
    |g: DeployGroupV| g.repository == repo
}

/// The issue entry one row value yields.
pub open spec fn spec_issue_entry(v: ValueItemV) -> IssueEntryV
    recommends
        v.json_data.issue is Some,
{
    let iss = v.json_data.issue.unwrap();
    IssueEntryV { created_at: iss.created_at, closed_at: iss.closed_at, number: iss.number }
}

/// Appends an issue to its repository's group, creating the group at the
/// end when the repository is new.
pub open spec fn spec_issue_upsert(
    groups: Seq<IssueGroupV>,
    repo: Seq<char>,
    e: IssueEntryV,
) -> Seq<IssueGroupV> {
    let idx = spec_first_match(groups, issue_group_pred(repo));
    if idx < 0 {
        groups.push(IssueGroupV { repository: repo, issues: seq![e] })
    } else {
        groups.update(
            idx,
            IssueGroupV { repository: groups[idx].repository, issues: groups[idx].issues.push(e) },
        )
    }
}

/// Folds the values of one issue row into the accumulated groups; each
/// value is keyed by the repository embedded in its body.
pub open spec fn spec_issue_values(values: Seq<ValueItemV>, acc: Seq<IssueGroupV>) -> Seq<
    IssueGroupV,
>
    decreases values.len(),
{
    if values.len() == 0 {
        acc
    } else {
        let v = values[0];
        spec_issue_values(
            values.drop_first(),
            spec_issue_upsert(acc, v.json_data.repository.unwrap().name, spec_issue_entry(v)),
        )
    }
}

/// Folds all issue rows into the accumulated groups.
pub open spec fn spec_issue_items(items: Seq<ResultItemV>, acc: Seq<IssueGroupV>) -> Seq<
    IssueGroupV,
>
    decreases items.len(),
{
    if items.len() == 0 {
        acc
    } else {
        spec_issue_items(items.drop_first(), spec_issue_values(items[0].values, acc))
    }
}

/// The issue groups of a whole response, in first-encounter repository
/// order, before sorting.
pub open spec fn spec_group_issue_rows(q: QueryResponseV) -> Seq<IssueGroupV> {
    spec_issue_items(q.data.result, Seq::empty())
}

/// Each group with its issues sorted by creation time.
pub open spec fn spec_finish_issue_groups(gs: Seq<IssueGroupV>) -> Seq<IssueGroupV> {
    Seq::new(
        gs.len(),
        |i: int| IssueGroupV { repository: gs[i].repository, issues: spec_sort_issues(gs[i].issues) },
    )
}

/// The normalized issue collection of a whole response.
pub open spec fn spec_sort_issue_data(q: QueryResponseV) -> Seq<IssueGroupV> {
    spec_finish_issue_groups(spec_group_issue_rows(q))
}

/// The position of the group for this repository, if one exists.
fn issue_group_position(groups: &Vec<IssueGroup>, repo: &String) -> (r: Option<usize>)
    ensures
        match r {
            Some(i) => 0 <= i < groups.len() && spec_first_match(
                groups.deep_view(),
                issue_group_pred(repo.deep_view()),
            ) == i as int,
            None => spec_first_match(groups.deep_view(), issue_group_pred(repo.deep_view()))
                == -1,
        },
{
    let ghost pred = issue_group_pred(repo.deep_view());
    let mut i: usize = 0;
    while i < groups.len()
        invariant
            0 <= i <= groups.len(),
            pred == issue_group_pred(repo.deep_view()),
            forall|k: int| 0 <= k < i ==> !pred(#[trigger] groups.deep_view()[k]),
        decreases groups.len() - i,
    {
        if groups[i].repository.eq(repo) {
            proof {
                assert(groups.deep_view()[i as int].repository == repo.deep_view());
                crate::events::lemma_first_match_found(groups.deep_view(), pred, i as int);
            }
            return Some(i);
        }
        proof {
            assert(groups.deep_view()[i as int].repository != repo.deep_view());
        }
        i = i + 1;
    }
    proof {
        crate::events::lemma_first_match_none(groups.deep_view(), pred);
    }
    None
}

/// The position of the group for this repository, if one exists.
fn deploy_group_position(groups: &Vec<DeployGroup>, repo: &String) -> (r: Option<usize>)
    ensures
        match r {
            Some(i) => 0 <= i < groups.len() && spec_first_match(
                groups.deep_view(),
                deploy_group_pred(repo.deep_view()),
            ) == i as int,
            None => spec_first_match(groups.deep_view(), deploy_group_pred(repo.deep_view()))
                == -1,
        },
{
    let ghost pred = deploy_group_pred(repo.deep_view());
    let mut i: usize = 0;
    while i < groups.len()
        invariant
            0 <= i <= groups.len(),
            pred == deploy_group_pred(repo.deep_view()),
            forall|k: int| 0 <= k < i ==> !pred(#[trigger] groups.deep_view()[k]),
        decreases groups.len() - i,
    {
        if groups[i].repository.eq(repo) {
            proof {
                assert(groups.deep_view()[i as int].repository == repo.deep_view());
                crate::events::lemma_first_match_found(groups.deep_view(), pred, i as int);
            }
            return Some(i);
        }
        proof {
            assert(groups.deep_view()[i as int].repository != repo.deep_view());
        }
        i = i + 1;
    }
    proof {
        crate::events::lemma_first_match_none(groups.deep_view(), pred);
    }
    None
}

/// Groups issue data by repository and sorts each group by creation
/// time. No deduplication is applied to issues.
pub fn sort_issue_data(data: QueryResponse) -> (r: Vec<IssueGroup>)
    requires
        issue_rows_wf(data.deep_view()),
    ensures
        r.deep_view() == spec_sort_issue_data(data.deep_view()),
        forall|i: int|
            0 <= i < r.deep_view().len() ==> issues_sorted(#[trigger] r.deep_view()[i].issues),
{
    let ghost grouped = spec_group_issue_rows(data.deep_view());
    let mut groups: Vec<IssueGroup> = Vec::new();
    proof {
        assert(groups.deep_view() =~= Seq::<IssueGroupV>::empty());
    }
    let inner = data.data;
    let mut items = inner.result;
    while items.len() > 0
        invariant
            spec_issue_items(items.deep_view(), groups.deep_view()) == grouped,
            forall|i: int|
                0 <= i < items.deep_view().len() ==> issue_item_wf(
                    #[trigger] items.deep_view()[i],
                ),
        decreases items.len(),
    {
        let ghost items_pre = items.deep_view();
        let ghost items_pre_raw = items@;
        let item = items.remove(0);
        proof {
            items_pre_raw.remove_ensures(0);
            assert(item.deep_view() == items_pre[0]);
            assert forall|i: int|
                0 <= i < items.deep_view().len() implies items.deep_view()[i]
                == items_pre.drop_first()[i] by {
                assert(items@[i] == items_pre_raw[i + 1]);
            }
            assert(items.deep_view() =~= items_pre.drop_first());
        }
        let ghost itemv = item.deep_view();
        proof {
            assert(issue_item_wf(itemv));
            assert(spec_issue_items(items_pre, groups.deep_view()) == spec_issue_items(
                items.deep_view(),
                spec_issue_values(itemv.values, groups.deep_view()),
            ));
        }
        let mut values = item.values;
        while values.len() > 0
            invariant
                issue_item_wf(itemv),
                spec_issue_items(
                    items.deep_view(),
                    spec_issue_values(values.deep_view(), groups.deep_view()),
                ) == grouped,
                forall|j: int|
                    0 <= j < values.deep_view().len() ==> {
                        let v = #[trigger] values.deep_view()[j];
                        v.json_data.repository is Some && v.json_data.issue is Some
                    },
            decreases values.len(),
        {
            let ghost values_pre = values.deep_view();
            let ghost values_pre_raw = values@;
            let v = values.remove(0);
            proof {
                values_pre_raw.remove_ensures(0);
                assert(v.deep_view() == values_pre[0]);
                assert forall|j: int|
                    0 <= j < values.deep_view().len() implies values.deep_view()[j]
                    == values_pre.drop_first()[j] by {
                    assert(values@[j] == values_pre_raw[j + 1]);
                }
                assert(values.deep_view() =~= values_pre.drop_first());
            }
            let ghost vv = v.deep_view();
            let json = v.json_data;
            let rn = json.repository.unwrap().name;
            let iss = json.issue.unwrap();
            let ie = IssueEntry {
                created_at: iss.created_at,
                closed_at: iss.closed_at,
                number: iss.number,
            };
            proof {
                assert(ie.deep_view() == spec_issue_entry(vv));
                assert(rn.deep_view() == vv.json_data.repository.unwrap().name);
            }
            let ghost groups0 = groups.deep_view();
            let ghost target_groups = spec_issue_upsert(groups0, rn.deep_view(), ie.deep_view());
            match issue_group_position(&groups, &rn) {
                Some(idx) => {
                    let ghost graw = groups@;
                    let mut g = groups.remove(idx);
                    g.issues.push(ie);
                    let ghost gg = g;
                    let ghost mid_raw = groups@;
                    groups.insert(idx, g);
                    proof {
                        graw.remove_ensures(idx as int);
                        mid_raw.insert_ensures(idx as int, gg);
                        assert(gg.deep_view().issues =~= groups0[idx as int].issues.push(
                            ie.deep_view(),
                        ));
                        assert(gg.deep_view() == IssueGroupV {
                            repository: groups0[idx as int].repository,
                            issues: groups0[idx as int].issues.push(ie.deep_view()),
                        });
                        assert forall|k: int|
                            0 <= k < groups.deep_view().len() implies groups.deep_view()[k]
                            == target_groups[k] by {
                            if k < idx as int {
                                assert(groups@[k] == graw[k]);
                            } else if k == idx as int {
                                assert(groups@[k] == gg);
                            } else {
                                assert(groups@[k] == mid_raw[k - 1]);
                                assert(mid_raw[k - 1] == graw[k]);
                            }
                        }
                        assert(groups.deep_view() =~= target_groups);
                    }
                },
                None => {
                    let mut new_issues: Vec<IssueEntry> = Vec::new();
                    new_issues.push(ie);
                    let g = IssueGroup { repository: rn, issues: new_issues };
                    proof {
                        assert(g.deep_view().issues =~= seq![spec_issue_entry(vv)]);
                    }
                    groups.push(g);
                    proof {
                        assert(groups.deep_view() =~= target_groups);
                    }
                },
            }
            proof {
                assert(spec_issue_values(values_pre, groups0) == spec_issue_values(
                    values.deep_view(),
                    groups.deep_view(),
                ));
            }
        }
        proof {
            assert(spec_issue_values(values.deep_view(), groups.deep_view())
                == groups.deep_view());
        }
    }
    proof {
        assert(spec_issue_items(items.deep_view(), groups.deep_view()) == groups.deep_view());
        assert(groups.deep_view() == grouped);
    }
    let ghost base = groups.deep_view();
    let mut idx: usize = 0;
    while idx < groups.len()
        invariant
            base == grouped,
            groups.len() == base.len(),
            0 <= idx <= groups.len(),
            forall|k: int|
                0 <= k < idx ==> #[trigger] groups.deep_view()[k] == spec_finish_issue_groups(
                    base,
                )[k],
            forall|k: int| idx <= k < base.len() ==> #[trigger] groups.deep_view()[k] == base[k],
        decreases groups.len() - idx,
    {
        let ghost pre = groups.deep_view();
        let ghost graw = groups@;
        let mut g = groups.remove(idx);
        proof {
            graw.remove_ensures(idx as int);
            assert(g.deep_view() == pre[idx as int]);
            assert(pre[idx as int] == base[idx as int]);
        }
        sort_issues_by_created_at(&mut g.issues);
        let ghost gg = g;
        let ghost mid_raw = groups@;
        groups.insert(idx, g);
        proof {
            mid_raw.insert_ensures(idx as int, gg);
            assert(gg.deep_view() == IssueGroupV {
                repository: base[idx as int].repository,
                issues: spec_sort_issues(base[idx as int].issues),
            });
            assert(groups@[idx as int] == gg);
            assert(groups.deep_view()[idx as int] == gg.deep_view());
            assert(spec_finish_issue_groups(base)[idx as int] == IssueGroupV {
                repository: base[idx as int].repository,
                issues: spec_sort_issues(base[idx as int].issues),
            });
            assert forall|k: int| 0 <= k < idx as int + 1 implies #[trigger] groups.deep_view()[k]
                == spec_finish_issue_groups(base)[k] by {
                if k != idx as int {
                    assert(groups@[k] == graw[k]);
                    assert(pre[k] == graw[k].deep_view());
                    assert(pre[k] == spec_finish_issue_groups(base)[k]);
                }
            }
            assert forall|k: int|
                idx as int + 1 <= k < base.len() implies #[trigger] groups.deep_view()[k]
                == base[k] by {
                assert(groups@[k] == mid_raw[k - 1]);
                assert(mid_raw[k - 1] == graw[k]);
                assert(pre[k] == graw[k].deep_view());
                assert(pre[k] == base[k]);
            }
        }
        idx = idx + 1;
    }
    proof {
        assert(groups.deep_view() =~= spec_finish_issue_groups(base));
        assert forall|i: int|
            0 <= i < groups.deep_view().len() implies issues_sorted(
        #[trigger] groups.deep_view()[i].issues) by {
            lemma_sort_issues_sorted(base[i].issues);
        }
    }
    groups
}

/// Whether a deployment row belongs to a production environment: its
/// lower-cased environment name occurs in the configured name set and
/// does not carry the exclusion prefix.
pub open spec fn spec_keep_env(stream: StreamV, prod_env_names: Seq<char>) -> bool
    recommends
        stream.deployment_environment_name is Some,
{
    let env = lower_of(stream.deployment_environment_name.unwrap());
    spec_contains(prod_env_names, env) && !spec_starts_with(env, "prod-"@)
}

/// The deployment entry one row value yields, tagged with its stream's
/// team and repository.
pub open spec fn spec_extract_deployment_data(
    v: ValueItemV,
    team: Seq<char>,
    repo: Seq<char>,
) -> DeployEntryV
    recommends
        v.json_data.deployment is Some,
        v.json_data.deployment_status is Some,
{
    let d = v.json_data.deployment.unwrap();
    DeployEntryV {
        status: v.json_data.deployment_status.unwrap().state == "success"@,
        repository: repo,
        team: team,
        created_at: d.created_at,
        sha: d.sha,
        deploy_url: spec_deployment_url(v),
        change_url: spec_change_url(d),
    }
}

/// Builds a deployment entry from one row value: whether the run
/// succeeded, when it ran, its commit SHA, and the derived run and
/// commit links.
pub fn extract_deployment_data(
    value: &ValueItem,
    team_name: String,
    repository_name: String,
) -> (r: DeployEntry)
    requires
        value.deep_view().json_data.deployment is Some,
        value.deep_view().json_data.deployment_status is Some,
    ensures
        r.deep_view() == spec_extract_deployment_data(
            value.deep_view(),
            team_name.deep_view(),
            repository_name.deep_view(),
        ),
{
    let success = String::from_str("success");
    let status = value.json_data.deployment_status.as_ref().unwrap().state.eq(&success);
    let deploy_url = GitHub::extract_deployment_url(value);
    let change_url = GitHub::extract_change_url(value);
    let d = value.json_data.deployment.as_ref().unwrap();
    DeployEntry {
        status,
        repository: repository_name,
        team: team_name,
        created_at: d.created_at,
        sha: d.sha.clone(),
        deploy_url,
        change_url,
    }
}

/// Appends a deployment to its repository's group, creating the group at
/// the end when the repository is new.
pub open spec fn spec_deploy_upsert(
    groups: Seq<DeployGroupV>,
    repo: Seq<char>,
    e: DeployEntryV,
) -> Seq<DeployGroupV> {
    let idx = spec_first_match(groups, deploy_group_pred(repo));
    if idx < 0 {
        groups.push(DeployGroupV { repository: repo, deployments: seq![e] })
    } else {
        groups.update(
            idx,
            DeployGroupV {
                repository: groups[idx].repository,
                deployments: groups[idx].deployments.push(e),
            },
        )
    }
}

/// Folds the values of one deployment row into the accumulated groups.
pub open spec fn spec_deploy_values(
    team: Seq<char>,
    repo: Seq<char>,
    values: Seq<ValueItemV>,
    acc: Seq<DeployGroupV>,
) -> Seq<DeployGroupV>
    decreases values.len(),
{
    if values.len() == 0 {
        acc
    } else {
        spec_deploy_values(
            team,
            repo,
            values.drop_first(),
            spec_deploy_upsert(acc, repo, spec_extract_deployment_data(values[0], team, repo)),
        )
    }
}

/// Folds all deployment rows into the accumulated groups, skipping rows
/// whose environment is not a production one.
pub open spec fn spec_deploy_items(
    items: Seq<ResultItemV>,
    prod_env_names: Seq<char>,
    acc: Seq<DeployGroupV>,
) -> Seq<DeployGroupV>
    decreases items.len(),
{
    if items.len() == 0 {
        acc
    } else {
        let item = items[0];
        let acc2 = if spec_keep_env(item.stream, prod_env_names) {
            spec_deploy_values(
                item.stream.team_name,
                item.stream.vcs_repository_name,
                item.values,
                acc,
            )
        } else {
            acc
        };
        spec_deploy_items(items.drop_first(), prod_env_names, acc2)
    }
}

/// The deployment groups of a whole response, in first-encounter
/// repository order, before sorting and deduplication.
pub open spec fn spec_group_deploy_rows(q: QueryResponseV, prod_env_names: Seq<char>) -> Seq<
    DeployGroupV,
> {
    spec_deploy_items(q.data.result, prod_env_names, Seq::empty())
}

/// Each group with its deployments sorted by creation time and then
/// deduplicated by commit SHA.
pub open spec fn spec_finish_deploy_groups(gs: Seq<DeployGroupV>) -> Seq<DeployGroupV> {
    Seq::new(
        gs.len(),
        |i: int| DeployGroupV {
            repository: gs[i].repository,
            deployments: spec_dedup(spec_sort_deploys(gs[i].deployments)),
        },
    )
}

/// The normalized deployment collection of a whole response.
pub open spec fn spec_sort_deploy_data(q: QueryResponseV, prod_env_names: Seq<char>) -> Seq<
    DeployGroupV,
> {
    spec_finish_deploy_groups(spec_group_deploy_rows(q, prod_env_names))
}

/// Deduplication keeps a creation-ordered sequence ordered, and never
/// moves an entry before the original head.
proof fn lemma_dedup_rec_sorted(s: Seq<DeployEntryV>, seen: Map<Seq<char>, bool>)
    requires
        deploys_sorted(s),
    ensures
        deploys_sorted(spec_dedup_rec(s, seen)),
        spec_dedup_rec(s, seen).len() > 0 ==> s.len() > 0 && spec_dedup_rec(s, seen)[0].created_at
            >= s[0].created_at,
    decreases s.len(),
{
    if s.len() == 0 {
    } else {
        let e = s[0];
        let rest = s.drop_first();
        assert(deploys_sorted(rest));
        if !seen.contains_key(e.sha) || (!seen[e.sha] && e.status) {
            let seen2 = if !seen.contains_key(e.sha) {
                seen.insert(e.sha, e.status)
            } else {
                seen.insert(e.sha, true)
            };
            lemma_dedup_rec_sorted(rest, seen2);
            let inner = spec_dedup_rec(rest, seen2);
            let r = seq![e] + inner;
            assert forall|i: int, j: int| 0 <= i <= j < r.len() implies #[trigger] r[i].created_at
                <= #[trigger] r[j].created_at by {
                if i == 0 && j > 0 {
                    assert(r[j] == inner[j - 1]);
                    assert(inner[0].created_at <= inner[j - 1].created_at);
                    assert(rest[0].created_at >= s[0].created_at);
                }
            }
        } else {
            lemma_dedup_rec_sorted(rest, seen);
            if spec_dedup_rec(rest, seen).len() > 0 {
                assert(rest[0].created_at >= s[0].created_at);
            }
        }
    }
}

/// Deduplication of a sorted deployment sequence stays sorted.
pub proof fn lemma_dedup_sorted(s: Seq<DeployEntryV>)
    requires
        deploys_sorted(s),
    ensures
        deploys_sorted(spec_dedup(s)),
{
    lemma_dedup_rec_sorted(s, Map::empty());
}

/// Filters deployment rows to production environments, groups them by
/// repository, sorts each group by creation time, and deduplicates each
/// group by commit SHA. Every group of the result is creation-ordered.
#[verifier::rlimit(100)]
pub fn sort_deploy_data(data: QueryResponse, prod_env_names: &str) -> (r: Vec<DeployGroup>)
    requires
        deploy_rows_wf(data.deep_view()),
    ensures
        r.deep_view() == spec_sort_deploy_data(data.deep_view(), prod_env_names@),
        forall|i: int|
            0 <= i < r.deep_view().len() ==> deploys_sorted(
                #[trigger] r.deep_view()[i].deployments,
            ),
{
    let ghost prodv = prod_env_names@;
    let ghost grouped = spec_group_deploy_rows(data.deep_view(), prodv);
    let mut groups: Vec<DeployGroup> = Vec::new();
    proof {
        assert(groups.deep_view() =~= Seq::<DeployGroupV>::empty());
    }
    let inner = data.data;
    let mut items = inner.result;
    while items.len() > 0
        invariant
            spec_deploy_items(items.deep_view(), prodv, groups.deep_view()) == grouped,
            prodv == prod_env_names@,
            forall|i: int|
                0 <= i < items.deep_view().len() ==> deploy_item_wf(
                    #[trigger] items.deep_view()[i],
                ),
        decreases items.len(),
    {
        let ghost items_pre = items.deep_view();
        let ghost items_pre_raw = items@;
        let item = items.remove(0);
        proof {
            items_pre_raw.remove_ensures(0);
            assert(item.deep_view() == items_pre[0]);
            assert forall|i: int|
                0 <= i < items.deep_view().len() implies items.deep_view()[i]
                == items_pre.drop_first()[i] by {
                assert(items@[i] == items_pre_raw[i + 1]);
            }
            assert(items.deep_view() =~= items_pre.drop_first());
        }
        let ghost itemv = item.deep_view();
        proof {
            assert(deploy_item_wf(itemv));
        }
        match &item.stream.deployment_environment_name {
            Some(env_name) => {
                let env = to_lowercase(env_name.as_str());
                let keep = if str_contains(prod_env_names, env.as_str()) {
                    !str_starts_with(env.as_str(), "prod-")
                } else {
                    false
                };
                if keep {
                    proof {
                        assert(spec_keep_env(itemv.stream, prodv));
                        assert(spec_deploy_items(items_pre, prodv, groups.deep_view())
                            == spec_deploy_items(
                            items.deep_view(),
                            prodv,
                            spec_deploy_values(
                                itemv.stream.team_name,
                                itemv.stream.vcs_repository_name,
                                itemv.values,
                                groups.deep_view(),
                            ),
                        ));
                    }
                    let stream = item.stream;
                    let team_name = stream.team_name;
                    let repository_name = stream.vcs_repository_name;
                    let mut values = item.values;
                    while values.len() > 0
                        invariant
                            team_name.deep_view() == itemv.stream.team_name,
                            repository_name.deep_view() == itemv.stream.vcs_repository_name,
                            prodv == prod_env_names@,
                            spec_deploy_items(
                                items.deep_view(),
                                prodv,
                                spec_deploy_values(
                                    itemv.stream.team_name,
                                    itemv.stream.vcs_repository_name,
                                    values.deep_view(),
                                    groups.deep_view(),
                                ),
                            ) == grouped,
                            forall|j: int|
                                0 <= j < values.deep_view().len() ==> {
                                    let v = #[trigger] values.deep_view()[j];
                                    v.json_data.deployment is Some
                                        && v.json_data.deployment_status is Some
                                },
                        decreases values.len(),
                    {
                        let ghost values_pre = values.deep_view();
                        let ghost values_pre_raw = values@;
                        let v = values.remove(0);
                        proof {
                            values_pre_raw.remove_ensures(0);
                            assert(v.deep_view() == values_pre[0]);
                            assert forall|j: int|
                                0 <= j < values.deep_view().len() implies values.deep_view()[j]
                                == values_pre.drop_first()[j] by {
                                assert(values@[j] == values_pre_raw[j + 1]);
                            }
                            assert(values.deep_view() =~= values_pre.drop_first());
                        }
                        let ghost vv = v.deep_view();
                        let record = extract_deployment_data(
                            &v,
                            team_name.clone(),
                            repository_name.clone(),
                        );
                        let ghost recordv = record.deep_view();
                        proof {
                            assert(recordv == spec_extract_deployment_data(
                                vv,
                                itemv.stream.team_name,
                                itemv.stream.vcs_repository_name,
                            ));
                        }
                        let ghost groups0 = groups.deep_view();
                        let ghost target_groups = spec_deploy_upsert(
                            groups0,
                            itemv.stream.vcs_repository_name,
                            recordv,
                        );
                        match deploy_group_position(&groups, &repository_name) {
                            Some(idx) => {
                                let ghost graw = groups@;
                                let mut g = groups.remove(idx);
                                g.deployments.push(record);
                                let ghost gg = g;
                                let ghost mid_raw = groups@;
                                groups.insert(idx, g);
                                proof {
                                    graw.remove_ensures(idx as int);
                                    mid_raw.insert_ensures(idx as int, gg);
                                    assert(gg.deep_view().deployments =~= groups0[
                                    idx as int].deployments.push(recordv));
                                    assert(gg.deep_view() == DeployGroupV {
                                        repository: groups0[idx as int].repository,
                                        deployments: groups0[idx as int].deployments.push(
                                            recordv,
                                        ),
                                    });
                                    assert forall|k: int|
                                        0 <= k < groups.deep_view().len() implies
                                        groups.deep_view()[k] == target_groups[k] by {
                                        if k < idx as int {
                                            assert(groups@[k] == graw[k]);
                                        } else if k == idx as int {
                                            assert(groups@[k] == gg);
                                        } else {
                                            assert(groups@[k] == mid_raw[k - 1]);
                                            assert(mid_raw[k - 1] == graw[k]);
                                        }
                                    }
                                    assert(groups.deep_view() =~= target_groups);
                                }
                            },
                            None => {
                                let mut new_deploys: Vec<DeployEntry> = Vec::new();
                                new_deploys.push(record);
                                let g = DeployGroup {
                                    repository: repository_name.clone(),
                                    deployments: new_deploys,
                                };
                                proof {
                                    assert(g.deep_view().deployments =~= seq![recordv]);
                                }
                                groups.push(g);
                                proof {
                                    assert(groups.deep_view() =~= target_groups);
                                }
                            },
                        }
                        proof {
                            assert(spec_deploy_values(
                                itemv.stream.team_name,
                                itemv.stream.vcs_repository_name,
                                values_pre,
                                groups0,
                            ) == spec_deploy_values(
                                itemv.stream.team_name,
                                itemv.stream.vcs_repository_name,
                                values.deep_view(),
                                groups.deep_view(),
                            ));
                        }
                    }
                    proof {
                        assert(spec_deploy_values(
                            itemv.stream.team_name,
                            itemv.stream.vcs_repository_name,
                            values.deep_view(),
                            groups.deep_view(),
                        ) == groups.deep_view());
                    }
                } else {
                    proof {
                        assert(!spec_keep_env(itemv.stream, prodv));
                        assert(spec_deploy_items(items_pre, prodv, groups.deep_view())
                            == spec_deploy_items(items.deep_view(), prodv, groups.deep_view()));
                    }
                }
            },
            None => {
                proof {
                    assert(false);
                }
            },
        }
    }
    proof {
        assert(spec_deploy_items(items.deep_view(), prodv, groups.deep_view())
            == groups.deep_view());
        assert(groups.deep_view() == grouped);
    }
    let ghost base = groups.deep_view();
    let mut idx: usize = 0;
    while idx < groups.len()
        invariant
            base == grouped,
            groups.len() == base.len(),
            0 <= idx <= groups.len(),
            forall|k: int|
                0 <= k < idx ==> #[trigger] groups.deep_view()[k] == spec_finish_deploy_groups(
                    base,
                )[k],
            forall|k: int| idx <= k < base.len() ==> #[trigger] groups.deep_view()[k] == base[k],
        decreases groups.len() - idx,
    {
        let ghost pre = groups.deep_view();
        let ghost graw = groups@;
        let mut g = groups.remove(idx);
        proof {
            graw.remove_ensures(idx as int);
            assert(g.deep_view() == pre[idx as int]);
            assert(pre[idx as int] == base[idx as int]);
        }
        sort_deploys_by_created_at(&mut g.deployments);
        filter_duplicate_deployments_by_sha(&mut g.deployments);
        let ghost gg = g;
        let ghost mid_raw = groups@;
        groups.insert(idx, g);
        proof {
            mid_raw.insert_ensures(idx as int, gg);
            assert(gg.deep_view() == DeployGroupV {
                repository: base[idx as int].repository,
                deployments: spec_dedup(spec_sort_deploys(base[idx as int].deployments)),
            });
            assert(groups@[idx as int] == gg);
            assert(groups.deep_view()[idx as int] == gg.deep_view());
            assert(spec_finish_deploy_groups(base)[idx as int] == DeployGroupV {
                repository: base[idx as int].repository,
                deployments: spec_dedup(spec_sort_deploys(base[idx as int].deployments)),
            });
            assert forall|k: int| 0 <= k < idx as int + 1 implies #[trigger] groups.deep_view()[k]
                == spec_finish_deploy_groups(base)[k] by {
                if k != idx as int {
                    assert(groups@[k] == graw[k]);
                    assert(pre[k] == graw[k].deep_view());
                    assert(pre[k] == spec_finish_deploy_groups(base)[k]);
                }
            }
            assert forall|k: int|
                idx as int + 1 <= k < base.len() implies #[trigger] groups.deep_view()[k]
                == base[k] by {
                assert(groups@[k] == mid_raw[k - 1]);
                assert(mid_raw[k - 1] == graw[k]);
                assert(pre[k] == graw[k].deep_view());
                assert(pre[k] == base[k]);
            }
        }
        idx = idx + 1;
    }
    proof {
        assert(groups.deep_view() =~= spec_finish_deploy_groups(base));
        assert forall|i: int|
            0 <= i < groups.deep_view().len() implies deploys_sorted(
        #[trigger] groups.deep_view()[i].deployments) by {
            lemma_sort_deploys_sorted(base[i].deployments);
            lemma_dedup_sorted(spec_sort_deploys(base[i].deployments));
        }
    }
    groups
}

/// The deployment results of a window sequence, concatenated in window
/// order.
pub open spec fn spec_concat_first(
    parts: Seq<(QueryResponseV, QueryResponseV, QueryResponseV)>,
) -> Seq<ResultItemV>
    decreases parts.len(),
{
    if parts.len() == 0 {
        Seq::empty()
    } else {
        parts[0].0.data.result + spec_concat_first(parts.drop_first())
    }
}

/// The issue results of a window sequence, concatenated in window order.
pub open spec fn spec_concat_second(
    parts: Seq<(QueryResponseV, QueryResponseV, QueryResponseV)>,
) -> Seq<ResultItemV>
    decreases parts.len(),
{
    if parts.len() == 0 {
        Seq::empty()
    } else {
        parts[0].1.data.result + spec_concat_second(parts.drop_first())
    }
}

/// The merge results of a window sequence, concatenated in window order.
pub open spec fn spec_concat_third(
    parts: Seq<(QueryResponseV, QueryResponseV, QueryResponseV)>,
) -> Seq<ResultItemV>
    decreases parts.len(),
{
    if parts.len() == 0 {
        Seq::empty()
    } else {
        parts[0].2.data.result + spec_concat_third(parts.drop_first())
    }
}

/// Concatenates the per-window response triples into one response per
/// stream, in window order.
pub fn merge_query_responses(parts: Vec<(QueryResponse, QueryResponse, QueryResponse)>) -> (r: (
    QueryResponse,
    QueryResponse,
    QueryResponse,
))
    ensures
        r.0.deep_view().data.result == spec_concat_first(parts.deep_view()),
        r.1.deep_view().data.result == spec_concat_second(parts.deep_view()),
        r.2.deep_view().data.result == spec_concat_third(parts.deep_view()),
{
    let ghost parts0 = parts.deep_view();
    let mut deploy = QueryResponse { data: Data { result: Vec::new() } };
    let mut issue = QueryResponse { data: Data { result: Vec::new() } };
    let mut merge = QueryResponse { data: Data { result: Vec::new() } };
    let mut remaining = parts;
    proof {
        assert(deploy.deep_view().data.result =~= Seq::<ResultItemV>::empty());
        assert(issue.deep_view().data.result =~= Seq::<ResultItemV>::empty());
        assert(merge.deep_view().data.result =~= Seq::<ResultItemV>::empty());
    }
    while remaining.len() > 0
        invariant
            deploy.deep_view().data.result + spec_concat_first(remaining.deep_view())
                == spec_concat_first(parts0),
            issue.deep_view().data.result + spec_concat_second(remaining.deep_view())
                == spec_concat_second(parts0),
            merge.deep_view().data.result + spec_concat_third(remaining.deep_view())
                == spec_concat_third(parts0),
        decreases remaining.len(),
    {
        let ghost rem_pre = remaining.deep_view();
        let ghost rem_pre_raw = remaining@;
        let part = remaining.remove(0);
        proof {
            rem_pre_raw.remove_ensures(0);
            assert(part.deep_view() == rem_pre[0]);
            assert forall|i: int|
                0 <= i < remaining.deep_view().len() implies remaining.deep_view()[i]
                == rem_pre.drop_first()[i] by {
                assert(remaining@[i] == rem_pre_raw[i + 1]);
            }
            assert(remaining.deep_view() =~= rem_pre.drop_first());
        }
        let (first, second, third) = part;
        let ghost d0 = deploy.deep_view().data.result;
        let ghost i0 = issue.deep_view().data.result;
        let ghost m0 = merge.deep_view().data.result;
        let mut first_items = first.data.result;
        let mut second_items = second.data.result;
        let mut third_items = third.data.result;
        deploy.data.result.append(&mut first_items);
        issue.data.result.append(&mut second_items);
        merge.data.result.append(&mut third_items);
        proof {
            assert(deploy.deep_view().data.result =~= d0 + rem_pre[0].0.data.result);
            assert(issue.deep_view().data.result =~= i0 + rem_pre[0].1.data.result);
            assert(merge.deep_view().data.result =~= m0 + rem_pre[0].2.data.result);
            assert((d0 + rem_pre[0].0.data.result) + spec_concat_first(remaining.deep_view())
                =~= d0 + (rem_pre[0].0.data.result + spec_concat_first(remaining.deep_view())));
            assert((i0 + rem_pre[0].1.data.result) + spec_concat_second(remaining.deep_view())
                =~= i0 + (rem_pre[0].1.data.result + spec_concat_second(remaining.deep_view())));
            assert((m0 + rem_pre[0].2.data.result) + spec_concat_third(remaining.deep_view())
                =~= m0 + (rem_pre[0].2.data.result + spec_concat_third(remaining.deep_view())));
        }
    }
    proof {
        assert(spec_concat_first(remaining.deep_view()) =~= Seq::<ResultItemV>::empty());
        assert(spec_concat_second(remaining.deep_view()) =~= Seq::<ResultItemV>::empty());
        assert(spec_concat_third(remaining.deep_view()) =~= Seq::<ResultItemV>::empty());
        assert(deploy.deep_view().data.result + Seq::<ResultItemV>::empty()
            =~= deploy.deep_view().data.result);
        assert(issue.deep_view().data.result + Seq::<ResultItemV>::empty()
            =~= issue.deep_view().data.result);
        assert(merge.deep_view().data.result + Seq::<ResultItemV>::empty()
            =~= merge.deep_view().data.result);
    }
    (deploy, issue, merge)
}

/// Normalizes the three concatenated responses into the grouped,
/// ordered, deduplicated collections the detector and linker work on.
pub fn normalize_responses(
    deploy_data: QueryResponse,
    issue_data: QueryResponse,
    merge_data: QueryResponse,
    prod_env_names: &str,
) -> (r: GatheredData)
    requires
        deploy_rows_wf(deploy_data.deep_view()),
        issue_rows_wf(issue_data.deep_view()),
        merge_rows_wf(merge_data.deep_view()),
    ensures
        r.deployments_by_repo.deep_view() == spec_sort_deploy_data(
            deploy_data.deep_view(),
            prod_env_names@,
        ),
        r.issues_by_repo.deep_view() == spec_sort_issue_data(issue_data.deep_view()),
        r.merges_by_sha.deep_view() == spec_sort_merge_data(merge_data.deep_view()),
        forall|i: int|
            0 <= i < r.deployments_by_repo.deep_view().len() ==> deploys_sorted(
                #[trigger] r.deployments_by_repo.deep_view()[i].deployments,
            ),
        forall|i: int|
            0 <= i < r.issues_by_repo.deep_view().len() ==> issues_sorted(
                #[trigger] r.issues_by_repo.deep_view()[i].issues,
            ),
{
    GatheredData {
        deployments_by_repo: sort_deploy_data(deploy_data, prod_env_names),
        issues_by_repo: sort_issue_data(issue_data),
        merges_by_sha: sort_merge_data(merge_data),
    }
}

/// Whether a deployment carries this commit SHA.
pub open spec fn deploy_sha_pred(sha: Seq<char>) -> spec_fn(DeployEntryV) -> bool {
    |e: DeployEntryV| e.sha == sha
}

/// How many deployments carry this SHA.
pub open spec fn spec_count_sha(s: Seq<DeployEntryV>, sha: Seq<char>) -> int
    decreases s.len(),
{
    if s.len() == 0 {
        0
    } else {
        (if s[0].sha == sha {
            1int
        } else {
            0int
        }) + spec_count_sha(s.drop_first(), sha)
    }
}

/// Whether some deployment with this SHA succeeded.
pub open spec fn spec_has_success(s: Seq<DeployEntryV>, sha: Seq<char>) -> bool {
    exists|j: int| 0 <= j < s.len() && (#[trigger] s[j]).sha == sha && s[j].status
}

proof fn lemma_count_sha_cons(s: Seq<DeployEntryV>, x: DeployEntryV, sha: Seq<char>)
    ensures
        spec_count_sha(seq![x] + s, sha) == (if x.sha == sha {
            1int
        } else {
            0int
        }) + spec_count_sha(s, sha),
{
    assert((seq![x] + s).drop_first() =~= s);
    assert((seq![x] + s)[0] == x);
}

proof fn lemma_has_success_cons(s: Seq<DeployEntryV>, x: DeployEntryV, sha: Seq<char>)
    ensures
        spec_has_success(seq![x] + s, sha) == ((x.sha == sha && x.status) || spec_has_success(
            s,
            sha,
        )),
{
    let c = seq![x] + s;
    if spec_has_success(c, sha) {
        let j = choose|j: int| 0 <= j < c.len() && (#[trigger] c[j]).sha == sha && c[j].status;
        if j > 0 {
            assert(s[j - 1] == c[j]);
        }
    }
    if spec_has_success(s, sha) {
        let j = choose|j: int| 0 <= j < s.len() && (#[trigger] s[j]).sha == sha && s[j].status;
        assert(c[j + 1] == s[j]);
    }
    if x.sha == sha && x.status {
        assert(c[0] == x);
    }
}

proof fn lemma_dedup_rec_count(s: Seq<DeployEntryV>, seen: Map<Seq<char>, bool>, sha: Seq<char>)
    ensures
        !seen.contains_key(sha) ==> spec_count_sha(spec_dedup_rec(s, seen), sha) == ({
            let fi = spec_first_match(s, deploy_sha_pred(sha));
            if fi < 0 {
                0int
            } else if !s[fi].status && spec_has_success(s.skip(fi + 1), sha) {
                2int
            } else {
                1int
            }
        }),
        seen.contains_key(sha) && !seen[sha] ==> spec_count_sha(spec_dedup_rec(s, seen), sha) == (
        if spec_has_success(s, sha) {
            1int
        } else {
            0int
        }),
        seen.contains_key(sha) && seen[sha] ==> spec_count_sha(spec_dedup_rec(s, seen), sha) == 0,
    decreases s.len(),
{
    if s.len() == 0 {
        lemma_first_match_none(s, deploy_sha_pred(sha));
    } else {
        let e = s[0];
        let rest = s.drop_first();
        assert(seq![e] + rest =~= s);
        if e.sha == sha {
            assert(deploy_sha_pred(sha)(s[0]));
            lemma_first_match_found(s, deploy_sha_pred(sha), 0);
            assert(s.skip(1) =~= rest);
            lemma_has_success_cons(rest, e, sha);
            if !seen.contains_key(sha) {
                let seen2 = seen.insert(e.sha, e.status);
                lemma_dedup_rec_count(rest, seen2, sha);
                let out = spec_dedup_rec(s, seen);
                assert(out == seq![e] + spec_dedup_rec(rest, seen2));
                lemma_count_sha_cons(spec_dedup_rec(rest, seen2), e, sha);
                if e.status {
                    assert(spec_count_sha(out, sha) == 1);
                } else {
                    if spec_has_success(rest, sha) {
                        assert(spec_count_sha(out, sha) == 2);
                    } else {
                        assert(spec_count_sha(out, sha) == 1);
                    }
                }
            } else if !seen[sha] {
                if e.status {
                    let seen2 = seen.insert(e.sha, true);
                    lemma_dedup_rec_count(rest, seen2, sha);
                    let out = spec_dedup_rec(s, seen);
                    assert(out == seq![e] + spec_dedup_rec(rest, seen2));
                    lemma_count_sha_cons(spec_dedup_rec(rest, seen2), e, sha);
                    assert(spec_has_success(s, sha)) by {
                        assert(s[0].sha == sha && s[0].status);
                    }
                    assert(spec_count_sha(out, sha) == 1);
                } else {
                    lemma_dedup_rec_count(rest, seen, sha);
                    assert(spec_dedup_rec(s, seen) == spec_dedup_rec(rest, seen));
                    assert(spec_has_success(s, sha) == spec_has_success(rest, sha));
                }
            } else {
                lemma_dedup_rec_count(rest, seen, sha);
                assert(spec_dedup_rec(s, seen) == spec_dedup_rec(rest, seen));
            }
        } else {
            assert(!deploy_sha_pred(sha)(s[0]));
            lemma_has_success_cons(rest, e, sha);
            let fi = spec_first_match(s, deploy_sha_pred(sha));
            let fr = spec_first_match(rest, deploy_sha_pred(sha));
            assert(fi == (if fr < 0 {
                -1int
            } else {
                fr + 1
            }));
            if fr >= 0 {
                crate::events::lemma_first_match_bounds(rest, deploy_sha_pred(sha));
                assert(s[fi] == rest[fr]);
                assert(s.skip(fi + 1) =~= rest.skip(fr + 1));
            }
            if !seen.contains_key(e.sha) || (!seen[e.sha] && e.status) {
                let seen2 = if !seen.contains_key(e.sha) {
                    seen.insert(e.sha, e.status)
                } else {
                    seen.insert(e.sha, true)
                };
                assert(seen2.contains_key(sha) == seen.contains_key(sha));
                assert(seen.contains_key(sha) ==> seen2[sha] == seen[sha]);
                lemma_dedup_rec_count(rest, seen2, sha);
                let out = spec_dedup_rec(s, seen);
                assert(out == seq![e] + spec_dedup_rec(rest, seen2));
                lemma_count_sha_cons(spec_dedup_rec(rest, seen2), e, sha);
            } else {
                lemma_dedup_rec_count(rest, seen, sha);
                assert(spec_dedup_rec(s, seen) == spec_dedup_rec(rest, seen));
            }
        }
    }
}

/// Law: deduplication keeps exactly one entry per commit SHA, except that
/// a SHA whose first entry is a failure followed later by a success keeps
/// exactly two — the first failure and the first following success.
pub proof fn lemma_dedup_sha_counts(s: Seq<DeployEntryV>, sha: Seq<char>)
    requires
        spec_first_match(s, deploy_sha_pred(sha)) >= 0,
    ensures
        spec_count_sha(spec_dedup(s), sha) == ({
            let fi = spec_first_match(s, deploy_sha_pred(sha));
            if !s[fi].status && spec_has_success(s.skip(fi + 1), sha) {
                2int
            } else {
                1int
            }
        }),
{
    lemma_dedup_rec_count(s, Map::empty(), sha);
}

} // verus!
