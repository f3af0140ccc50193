//! The metrics request, the backend query parameters built from it, and
//! the batching of a long time range into backend-sized windows.

use vstd::prelude::*;
use vstd::string::StringExecFns;

use crate::text::{i64_to_string, join_strings, spec_int_str, spec_join};

verus! {

/// Nanoseconds in one day.
pub const NANOS_PER_DAY: i64 = 86_400_000_000_000;

/// View of a metrics request.
#[verifier::ext_equal]
pub ghost struct DataRequestV {
    pub repositories: Option<Seq<Seq<char>>>,
    pub team: Option<Seq<char>>,
    pub start: i64,
    pub end: i64,
}

/// A metrics request: optional repository and team filters plus a time
/// range, in nanoseconds since the Unix epoch.
#[derive(Debug, Clone, PartialEq)]
pub struct DataRequest {
    pub repositories: Option<Vec<String>>,
    pub team: Option<String>,
    pub start: i64,
    pub end: i64,
}

impl DeepView for DataRequest {
    type V = DataRequestV;

    open spec fn deep_view(&self) -> DataRequestV {
        DataRequestV {
            repositories: self.repositories.deep_view(),
            team: self.team.deep_view(),
            start: self.start,
            end: self.end,
        }
    }
}

/// View of a set of backend query parameters.
#[verifier::ext_equal]
pub ghost struct QueryParamsV {
    pub query: Seq<char>,
    pub start: Seq<char>,
    pub end: Seq<char>,
    pub limit: u16,
}

/// One backend query: the selector string, the time range rendered in
/// nanoseconds, and the row limit.
#[derive(Debug, Clone, Default, PartialEq)]
pub struct QueryParams {
    pub query: String,
    pub start: String,
    pub end: String,
    pub limit: u16,
}

impl DeepView for QueryParams {
    type V = QueryParamsV;

    open spec fn deep_view(&self) -> QueryParamsV {
        QueryParamsV {
            query: self.query.deep_view(),
            start: self.start.deep_view(),
            end: self.end.deep_view(),
            limit: self.limit,
        }
    }
}

/// The team filter clause of a query selector.
pub open spec fn spec_team_clause(team: Option<Seq<char>>) -> Seq<char> {
    match team {
        Some(t) => "team_name=\""@ + t + "\", "@,
        None => Seq::empty(),
    }
}

/// The repository filter clause of a query selector: the repositories
/// joined with `|`.
pub open spec fn spec_repo_clause(repositories: Option<Seq<Seq<char>>>) -> Seq<char> {
    match repositories {
        Some(rs) => "vcs_repository_name=\""@ + spec_join(rs, "|"@) + "\", "@,
        None => Seq::empty(),
    }
}

/// The full query selector: the service namespace, the optional team and
/// repository clauses, the stream query, and an optional trailing filter.
pub open spec fn spec_query_string(
    req: DataRequestV,
    query: Seq<char>,
    filter: Option<Seq<char>>,
    service_name: Seq<char>,
) -> Seq<char> {
    let base = "{service_namespace=`"@ + service_name + "`} | "@ + spec_team_clause(req.team)
        + spec_repo_clause(req.repositories) + query;
    match filter {
        Some(f) => base + " "@ + f,
        None => base,
    }
}

/// Builds the backend query parameters for one stream query over the
/// request's time range. The service namespace is configuration and is
/// passed in by the caller.
pub fn fill_query_params(
    request: &DataRequest,
    query: &str,
    filter: Option<&str>,
    service_name: &str,
) -> (r: QueryParams)
    ensures
        r.query@ == spec_query_string(
            request.deep_view(),
            query@,
            filter.deep_view(),
            service_name@,
        ),
        r.start@ == spec_int_str(request.start as int),
        r.end@ == spec_int_str(request.end as int),
        r.limit == 5000,
{
    let mut q = String::from_str("{service_namespace=`");
    q.append(service_name);
    q.append("`} | ");
    match &request.team {
        Some(t) => {
            q.append("team_name=\"");
            q.append(t.as_str());
            q.append("\", ");
        },
        None => {},
    }
    match &request.repositories {
        Some(rs) => {
            q.append("vcs_repository_name=\"");
            let joined = join_strings(rs, "|");
            q.append(joined.as_str());
            q.append("\", ");
        },
        None => {},
    }
    q.append(query);
    match filter {
        Some(f) => {
            q.append(" ");
            q.append(f);
        },
        None => {},
    }
    proof {
        assert(q@ =~= spec_query_string(
            request.deep_view(),
            query@,
            filter.deep_view(),
            service_name@,
        ));
    }
    QueryParams {
        start: i64_to_string(request.start),
        end: i64_to_string(request.end),
        query: q,
        limit: 5000,
    }
}

/// Query parameters for the merged-change stream: changes that were
/// closed with a merge time.
pub fn merge_data_query_params(request: &DataRequest, service_name: &str) -> (r: QueryParams)
    ensures
        r.query@ == spec_query_string(
            request.deep_view(),
            "event_name=`change_closed`, merged_at!=\"\""@,
            None,
            service_name@,
        ),
        r.start@ == spec_int_str(request.start as int),
        r.end@ == spec_int_str(request.end as int),
        r.limit == 5000,
{
    fill_query_params(request, "event_name=`change_closed`, merged_at!=\"\"", None, service_name)
}

/// Query parameters for the deployment stream: runs that ended in
/// success or failure.
pub fn deploy_data_query_params(request: &DataRequest, service_name: &str) -> (r: QueryParams)
    ensures
        r.query@ == spec_query_string(
            request.deep_view(),
            "deployment_status=~`failure|success`"@,
            None,
            service_name@,
        ),
        r.start@ == spec_int_str(request.start as int),
        r.end@ == spec_int_str(request.end as int),
        r.limit == 5000,
{
    fill_query_params(request, "deployment_status=~`failure|success`", None, service_name)
}

/// Query parameters for the issue stream: closed issues labelled as
/// incidents.
pub fn issue_data_query_params(request: &DataRequest, service_name: &str) -> (r: QueryParams)
    ensures
        r.query@ == spec_query_string(
            request.deep_view(),
            "event_name=`issue_closed`"@,
            Some("|= `incident`"@),
            service_name@,
        ),
        r.start@ == spec_int_str(request.start as int),
        r.end@ == spec_int_str(request.end as int),
        r.limit == 5000,
{
    fill_query_params(request, "event_name=`issue_closed`", Some("|= `incident`"), service_name)
}

/// The whole number of days spanned by the range.
pub open spec fn spec_num_days(start: int, end: int) -> int {
    (end - start) / (NANOS_PER_DAY as int)
}

/// How many windows the batcher carves out of the range.
pub open spec fn spec_window_count(days: int, batch: int) -> int {
    if days <= 0 {
        0
    } else {
        (days + batch - 1) / batch
    }
}

/// The end of the `k`-th window, counting backward from the range's end.
pub open spec fn spec_window_end(end: int, batch: int, k: int) -> int {
    end - k * batch * (NANOS_PER_DAY as int)
}

/// The start of the `k`-th window: a full batch before its end, except
/// that the last window stops at the range's whole-day floor.
pub open spec fn spec_window_start(start: int, end: int, batch: int, k: int) -> int {
    if spec_num_days(start, end) - k * batch > batch {
        spec_window_end(end, batch, k) - batch * (NANOS_PER_DAY as int)
    } else {
        end - spec_num_days(start, end) * (NANOS_PER_DAY as int)
    }
}

/// Splits the request range into a backward-moving sequence of windows of
/// at most `batch_days` days each. Whatever fraction of a day is left
/// over at the range's start is not covered; an empty or sub-day range
/// yields no windows.
pub fn batch_windows(start: i64, end: i64, batch_days: i64) -> (r: Vec<(i64, i64)>)
    requires
        start <= end,
        end as int - start as int <= i64::MAX as int,
        1 <= batch_days <= 100_000,
    ensures
        r.deep_view().len() == spec_window_count(
            spec_num_days(start as int, end as int),
            batch_days as int,
        ),
        forall|k: int|
            0 <= k < r.deep_view().len() ==> {
                &&& (#[trigger] r.deep_view()[k]).1 as int == spec_window_end(
                    end as int,
                    batch_days as int,
                    k,
                )
                &&& r.deep_view()[k].0 as int == spec_window_start(
                    start as int,
                    end as int,
                    batch_days as int,
                    k,
                )
            },
{
    let ghost days: int = spec_num_days(start as int, end as int);
    let ghost b: int = batch_days as int;
    let ghost npd: int = NANOS_PER_DAY as int;
    let mut windows: Vec<(i64, i64)> = Vec::new();
    let mut remaining: i64 = (end - start) / NANOS_PER_DAY;
    let mut cur_end: i64 = end;
    proof {
        assert(days * npd <= end - start && days >= 0) by (nonlinear_arith)
            requires
                days == (end as int - start as int) / npd,
                npd == NANOS_PER_DAY as int,
                start <= end,
        ;
    }
    while remaining > 0
        invariant
            1 <= batch_days <= 100_000,
            start <= end,
            b == batch_days as int,
            npd == NANOS_PER_DAY as int,
            days == spec_num_days(start as int, end as int),
            days * npd <= end - start,
            days >= 0,
            remaining as int == (if days - windows.len() * b > 0 {
                days - windows.len() * b
            } else {
                0
            }),
            windows.len() > 0 ==> days - (windows.len() - 1) * b > 0,
            remaining > 0 ==> cur_end as int == spec_window_end(
                end as int,
                b,
                windows.len() as int,
            ),
            forall|k: int|
                0 <= k < windows.len() ==> {
                    &&& (#[trigger] windows.deep_view()[k]).1 as int == spec_window_end(
                        end as int,
                        b,
                        k,
                    )
                    &&& windows.deep_view()[k].0 as int == spec_window_start(
                        start as int,
                        end as int,
                        b,
                        k,
                    )
                },
        decreases remaining,
    {
        let ghost k: int = windows.len() as int;
        proof {
            assert(k * b * npd <= (days - remaining) * npd && (days - remaining) * npd <= days
                * npd - remaining * npd && remaining * npd >= npd) by (nonlinear_arith)
                requires
                    remaining as int == days - k * b,
                    remaining >= 1,
                    npd == NANOS_PER_DAY as int,
            ;
            assert(cur_end as int >= start as int + npd);
        }
        let window_start: i64 = if remaining > batch_days {
            proof {
                assert((k * b + b) * npd <= (days - remaining + b) * npd && (days - remaining
                    + b) * npd <= days * npd && (k + 1) * b * npd == (k * b + b) * npd) by (
                nonlinear_arith)
                    requires
                        remaining as int == days - k * b,
                        remaining > b,
                        b >= 1,
                        npd == NANOS_PER_DAY as int,
                ;
            }
            cur_end - batch_days * NANOS_PER_DAY
        } else {
            proof {
                assert(remaining * npd <= b * npd) by (nonlinear_arith)
                    requires
                        remaining <= b,
                        npd > 0,
                        remaining >= 0,
                ;
                assert(cur_end as int - remaining as int * npd == end as int - (k * b + (days - k
                    * b)) * npd && (k * b + (days - k * b)) * npd == days * npd) by (
                nonlinear_arith)
                    requires
                        cur_end as int == end as int - k * b * npd,
                        remaining as int == days - k * b,
                        npd == NANOS_PER_DAY as int,
                ;
            }
            cur_end - remaining * NANOS_PER_DAY
        };
        let ghost wv0 = windows.deep_view();
        windows.push((window_start, cur_end));
        proof {
            assert(windows.deep_view() =~= wv0.push((window_start, cur_end)));
            assert((k + 1) * b == k * b + b) by (nonlinear_arith);
        }
        remaining = if remaining > batch_days {
            remaining - batch_days
        } else {
            0
        };
        if remaining > 0 {
            proof {
                assert((k + 1) * b * npd == k * b * npd + b * npd && (k + 1) * b * npd <= (days
                    - remaining) * npd && (days - remaining) * npd <= days * npd - npd) by (
                nonlinear_arith)
                    requires
                        remaining as int == days - (k + 1) * b,
                        remaining >= 1,
                        b >= 1,
                        npd == NANOS_PER_DAY as int,
                ;
            }
            cur_end = cur_end - batch_days * NANOS_PER_DAY;
        }
    }
    proof {
        let k = windows.len() as int;
        if days <= 0 {
            assert(k == 0) by {
                if k > 0 {
                    assert(days - (k - 1) * b > 0);
                    assert((k - 1) * b >= 0) by (nonlinear_arith)
                        requires
                            k >= 1,
                            b >= 1,
                    ;
                }
            }
        } else {
            assert(k > 0) by {
                if k == 0 {
                    assert(days - 0 * b <= 0);
                }
            }
            assert(days + b - 1 == k * b + (days + b - 1 - k * b) && 0 <= days + b - 1 - k * b
                < b) by (nonlinear_arith)
                requires
                    days - k * b <= 0,
                    days - (k - 1) * b > 0,
                    b >= 1,
            ;
            vstd::arithmetic::div_mod::lemma_fundamental_div_mod_converse(
                days + b - 1,
                b,
                k,
                days + b - 1 - k * b,
            );
        }
    }
    windows
}

} // verus!
