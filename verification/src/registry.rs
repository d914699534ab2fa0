//! The set of inspections a run performs.
use vstd::prelude::*;
use crate::ast_metrics::{ModuleSize, PubSurface, TestGap, UnsafeSurface};
use crate::audit_bridge::AuditBridge;
use crate::coupling::Coupling;
use crate::dep_hygiene::DepHygiene;
use crate::model::Inspection;
use crate::workspace_graph::WorkspaceGraph;

verus! {

/// The names of the inspections a run performs, in order.
pub open spec fn registered_names() -> Seq<Seq<char>> {
    seq![
        "workspace-graph"@,
        "module-size"@,
        "unsafe-surface"@,
        "pub-surface"@,
        "test-gap"@,
        "dep-hygiene"@,
        "coupling"@,
        "audit-bridge"@,
    ]
}

/// Return the set of inspections to run.
pub fn all() -> (r: Vec<Box<dyn Inspection>>)
    ensures
        r@.len() == registered_names().len(),
        forall|i: int| 0 <= i < r@.len() ==> (#[trigger] r@[i]).inspection_name() == registered_names()[i],
{
    let v: Vec<Box<dyn Inspection>> = vec![
        Box::new(WorkspaceGraph),
        Box::new(ModuleSize),
        Box::new(UnsafeSurface),
        Box::new(PubSurface),
        Box::new(TestGap),
        Box::new(DepHygiene),
        Box::new(Coupling),
        Box::new(AuditBridge),
    ];
    v
}

} // verus!
