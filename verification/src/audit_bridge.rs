//! `audit-bridge` — surface security advisories collected by an audit.
//!
//! Running the audit is the caller's business; this inspection only turns
//! [`Context::audit`] into findings. Empty unless the audit ran.
use vstd::prelude::*;
use crate::model::{
    lemma_views_push, views, AuditVuln, Context, Finding, FindingView, Inspection, Location,
    Severity,
};
use crate::workspace_graph::no_location;

verus! {

pub struct AuditBridge;

impl AuditBridge {
    pub const NAME: &'static str = "audit-bridge";
}

/// The finding for one advisory: `"{id}: {package} {version} — {title}"`.
pub open spec fn audit_finding(v: AuditVuln) -> FindingView {
    FindingView {
        inspection: "audit-bridge"@,
        severity: Severity::Error,
        location: no_location(),
        message: v.id@ + ": "@ + v.package@ + " "@ + v.version@ + " — "@ + v.title@,
        metric: None,
    }
}

/// One error per advisory, in order.
pub open spec fn audit_spec(vulns: Seq<AuditVuln>) -> Seq<FindingView> {
    vulns.map_values(|v: AuditVuln| audit_finding(v))
}

/// One error per advisory: the findings match the advisories one for one,
/// in order, each an error naming its advisory's id, package, version and
/// title.
pub proof fn lemma_one_error_per_advisory(vulns: Seq<AuditVuln>)
    ensures
        audit_spec(vulns).len() == vulns.len(),
        forall|i: int|
            0 <= i < vulns.len() ==> (#[trigger] audit_spec(vulns)[i]).severity == Severity::Error
                && audit_spec(vulns)[i].message == vulns[i].id@ + ": "@ + vulns[i].package@ + " "@
                + vulns[i].version@ + " — "@ + vulns[i].title@,
{
}

impl Inspection for AuditBridge {
    open spec fn accepts(&self, ctx: &Context) -> bool {
        true
    }

    open spec fn findings_spec(&self, ctx: &Context) -> Seq<FindingView> {
        audit_spec(ctx.audit@)
    }

    open spec fn inspection_name(&self) -> Seq<char> {
        "audit-bridge"@
    }

    fn name(&self) -> (r: &'static str) {
        Self::NAME
    }

    fn run(&self, ctx: &Context) -> (r: Vec<Finding>) {
        let mut findings: Vec<Finding> = Vec::new();
        for i in 0..ctx.audit.len()
            invariant
                views(findings@) == audit_spec(ctx.audit@.take(i as int)),
        {
            let v = &ctx.audit[i];
            let mut message = v.id.clone();
            message.append(": ");
            message.append(v.package.as_str());
            message.append(" ");
            message.append(v.version.as_str());
            message.append(" — ");
            message.append(v.title.as_str());
            let f = Finding {
                inspection: Self::NAME,
                severity: Severity::Error,
                location: Location::none(),
                message,
                metric: None,
            };
            proof {
                lemma_views_push(findings@, f);
                assert(audit_spec(ctx.audit@.take(i + 1)) =~= audit_spec(ctx.audit@.take(i as int)).push(
                    f@,
                ));
            }
            findings.push(f);
        }
        proof {
            assert(ctx.audit@.take(ctx.audit@.len() as int) =~= ctx.audit@);
        }
        findings
    }
}

} // verus!
