//! Derivation of commit and workflow-run links from a deployment row.
//! The derivations are pure string rewrites over fields already present
//! on the row.

use vstd::prelude::*;

use crate::rows::{DeploymentV, ValueItem, ValueItemV};
use crate::text::{spec_digits, spec_replace, str_replace, u32_to_string, lemma_digits_nonempty};

verus! {

/// The commit link derived from a deployment body: the API host and the
/// `repos/` segment are dropped, the `deployments/` segment becomes
/// `commit/`, and the numeric deployment id is rewritten to the commit SHA.
pub open spec fn spec_change_url(d: DeploymentV) -> Seq<char> {
    spec_replace(
        spec_replace(spec_replace(spec_replace(d.url, "api."@, ""@), "repos/"@, ""@), "deployments/"@, "commit/"@),
        spec_digits(d.id as int),
        d.sha,
    )
}

/// The workflow-run link derived from a deployment row: like the commit
/// link, but `deployments/` becomes `actions/runs/` and the deployment id
/// is rewritten to the workflow id. Rows without a workflow id yield the
/// empty string.
pub open spec fn spec_deployment_url(v: ValueItemV) -> Seq<char>
    recommends
        v.json_data.deployment is Some,
{
    if v.json_data.workflow_run is Some && v.json_data.workflow_run.unwrap().workflow_id
        is Some {
        let d = v.json_data.deployment.unwrap();
        let wid = v.json_data.workflow_run.unwrap().workflow_id.unwrap();
        spec_replace(
            spec_replace(
                spec_replace(spec_replace(d.url, "api."@, ""@), "repos/"@, ""@),
                "deployments/"@,
                "actions/runs/"@,
            ),
            spec_digits(d.id as int),
            spec_digits(wid as int),
        )
    } else {
        ""@
    }
}

/// What an event vendor derives from a deployment row: a commit link and
/// a workflow-run link, both pure rewrites of the row's own fields.
pub trait EventVendorFunctions {
    fn extract_change_url(entry: &ValueItem) -> (r: String)
        requires
            entry.deep_view().json_data.deployment is Some,
        ensures
            r@ == spec_change_url(entry.deep_view().json_data.deployment.unwrap()),
    ;

    fn extract_deployment_url(entry: &ValueItem) -> (r: String)
        requires
            entry.deep_view().json_data.deployment is Some,
        ensures
            r@ == spec_deployment_url(entry.deep_view()),
    ;
}

/// The GitHub event vendor.
pub struct GitHub {}

impl EventVendorFunctions for GitHub {
    fn extract_change_url(entry: &ValueItem) -> (r: String) {
        let deployment = entry.json_data.deployment.as_ref().unwrap();
        proof {
            reveal_strlit("api.");
            reveal_strlit("repos/");
            reveal_strlit("deployments/");
            lemma_digits_nonempty(deployment.id as int);
        }
        let stripped_host = str_replace(deployment.url.as_str(), "api.", "");
        let stripped_repos = str_replace(stripped_host.as_str(), "repos/", "");
        let with_commit = str_replace(stripped_repos.as_str(), "deployments/", "commit/");
        let id_digits = u32_to_string(deployment.id);
        str_replace(with_commit.as_str(), id_digits.as_str(), deployment.sha.as_str())
    }

    fn extract_deployment_url(entry: &ValueItem) -> (r: String) {
        let deployment = entry.json_data.deployment.as_ref().unwrap();
        if let Some(wf) = &entry.json_data.workflow_run {
            if let Some(workflow_id) = wf.workflow_id {
                proof {
                    reveal_strlit("api.");
                    reveal_strlit("repos/");
                    reveal_strlit("deployments/");
                    lemma_digits_nonempty(deployment.id as int);
                }
                let stripped_host = str_replace(deployment.url.as_str(), "api.", "");
                let stripped_repos = str_replace(stripped_host.as_str(), "repos/", "");
                let with_runs = str_replace(
                    stripped_repos.as_str(),
                    "deployments/",
                    "actions/runs/",
                );
                let id_digits = u32_to_string(deployment.id);
                let wid_digits = u32_to_string(workflow_id);
                return str_replace(
                    with_runs.as_str(),
                    id_digits.as_str(),
                    wid_digits.as_str(),
                );
            }
        }
        proof {
            reveal_strlit("");
            assert(""@ =~= Seq::<char>::empty());
        }
        String::new()
    }
}

} // verus!
