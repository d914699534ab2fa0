//! The shared vocabulary: findings, reports, configuration and the analysed
//! workspace.
use vstd::prelude::*;
use crate::syntax::SyntaxFile;

verus! {

/// Severity of a [`Finding`].
#[derive(Clone, Copy, Debug, PartialEq, Eq, Structural)]
pub enum Severity {
    Info,
    Warn,
    Error,
}

/// The characters of an optional string.
pub open spec fn opt_str(o: Option<String>) -> Option<Seq<char>> {
    match o {
        Some(s) => Some(s@),
        None => None,
    }
}

/// Where a [`Finding`] applies. Any level may be omitted when not relevant
/// (a workspace-wide finding has no crate, file or span).
#[derive(Debug)]
pub struct Location {
    pub krate: Option<String>,
    pub file: Option<String>,
    /// 1-based `(start_line, end_line)` when known.
    pub span: Option<(usize, usize)>,
}

/// The mathematical content of a [`Location`].
pub struct LocationView {
    pub krate: Option<Seq<char>>,
    pub file: Option<Seq<char>>,
    pub span: Option<(usize, usize)>,
}

impl View for Location {
    type V = LocationView;

    open spec fn view(&self) -> LocationView {
        LocationView { krate: opt_str(self.krate), file: opt_str(self.file), span: self.span }
    }
}

impl Location {
    /// A location that names nothing.
    pub fn none() -> (r: Location)
        ensures
            r@ == (LocationView { krate: None, file: None, span: None }),
    {
        Location { krate: None, file: None, span: None }
    }

    /// A location naming a crate only.
    pub fn in_crate(krate: &String) -> (r: Location)
        ensures
            r@ == (LocationView { krate: Some(krate@), file: None, span: None }),
    {
        Location { krate: Some(krate.clone()), file: None, span: None }
    }

    /// A location naming a crate and a file in it.
    pub fn in_file(krate: &String, file: &String) -> (r: Location)
        ensures
            r@ == (LocationView { krate: Some(krate@), file: Some(file@), span: None }),
    {
        Location { krate: Some(krate.clone()), file: Some(file.clone()), span: None }
    }
}

impl Default for Location {
    fn default() -> (r: Location)
        ensures
            r@ == (LocationView { krate: None, file: None, span: None }),
    {
        Location::none()
    }
}

/// A measured value: `numerator / denominator * scale`, kept exact. Counts
/// have denominator and scale 1.
#[derive(Clone, Copy, Debug, PartialEq, Eq, Structural)]
pub struct Metric {
    pub numerator: u64,
    pub denominator: u64,
    pub scale: u64,
}

impl Metric {
    /// A plain count.
    pub fn count(n: u64) -> (r: Metric)
        ensures
            r == (Metric { numerator: n, denominator: 1, scale: 1 }),
    {
        Metric { numerator: n, denominator: 1, scale: 1 }
    }
}

/// A single structural observation produced by an [`Inspection`].
#[derive(Debug)]
pub struct Finding {
    /// Name of the producing inspection, e.g. `"module-size"`.
    pub inspection: &'static str,
    pub severity: Severity,
    pub location: Location,
    pub message: String,
    /// The measured value that tripped a threshold, when applicable.
    pub metric: Option<Metric>,
}

/// The mathematical content of a [`Finding`].
pub struct FindingView {
    pub inspection: Seq<char>,
    pub severity: Severity,
    pub location: LocationView,
    pub message: Seq<char>,
    pub metric: Option<Metric>,
}

impl View for Finding {
    type V = FindingView;

    open spec fn view(&self) -> FindingView {
        FindingView {
            inspection: self.inspection@,
            severity: self.severity,
            location: self.location@,
            message: self.message@,
            metric: self.metric,
        }
    }
}

/// The views of a list of findings.
pub open spec fn views(v: Seq<Finding>) -> Seq<FindingView> {
    v.map_values(|f: Finding| f@)
}

pub proof fn lemma_views_push(v: Seq<Finding>, f: Finding)
    ensures
        views(v.push(f)) == views(v).push(f@),
{
    assert(views(v.push(f)) =~= views(v).push(f@));
}

pub proof fn lemma_views_append(v: Seq<Finding>, w: Seq<Finding>)
    ensures
        views(v + w) == views(v) + views(w),
{
    assert(views(v + w) =~= views(v) + views(w));
}

/// Coarse workspace facts.
#[derive(Debug)]
pub struct WorkspaceInfo {
    pub root: String,
    pub crates: Vec<String>,
}

impl Default for WorkspaceInfo {
    fn default() -> (r: WorkspaceInfo)
        ensures
            r.root@ == Seq::<char>::empty(),
            r.crates@.len() == 0,
    {
        WorkspaceInfo { root: String::new(), crates: Vec::new() }
    }
}

/// Aggregate metrics rolled up across all findings.
#[derive(Clone, Copy, Debug, PartialEq, Eq, Structural)]
pub struct Metrics {
    pub crate_count: usize,
    pub finding_count: usize,
}

/// The full result of an inspection run — the unit every renderer consumes.
#[derive(Debug)]
pub struct Report {
    pub workspace: WorkspaceInfo,
    pub findings: Vec<Finding>,
    pub metrics: Metrics,
    /// Supplied by the caller; the library never reads the clock.
    pub generated_at: String,
}

impl Report {
    /// Build a report from raw parts, deriving [`Metrics`] from them.
    pub fn new(workspace: WorkspaceInfo, findings: Vec<Finding>, generated_at: String) -> (r: Report)
        ensures
            r.workspace == workspace,
            r.findings == findings,
            r.generated_at == generated_at,
            r.metrics.crate_count == workspace.crates@.len(),
            r.metrics.finding_count == findings@.len(),
    {
        let metrics = Metrics { crate_count: workspace.crates.len(), finding_count: findings.len() };
        Report { workspace, findings, metrics, generated_at }
    }
}

/// Thresholds, overridable per workspace.
#[derive(Clone, Copy, Debug, PartialEq, Eq, Structural)]
pub struct Config {
    /// Lines above which a file is oversized.
    pub module_size_loc: usize,
    /// Public items above which a crate's API surface warns.
    pub pub_surface_warn: usize,
    /// `unsafe` items per 1000 lines above which a crate warns, in
    /// thousandths (5.0/kLOC is 5000).
    pub unsafe_density_warn_milli: u64,
    /// Cyclomatic complexity above which a function warns.
    pub complexity_warn: usize,
    /// Distinct imported crate roots above which a file warns.
    pub coupling_warn: usize,
    /// Changes at or above which a file counts as churning.
    pub churn_warn: usize,
}

/// The default thresholds.
pub open spec fn default_config() -> Config {
    Config {
        module_size_loc: 300,
        pub_surface_warn: 50,
        unsafe_density_warn_milli: 5000,
        complexity_warn: 10,
        coupling_warn: 10,
        churn_warn: 10,
    }
}

impl Default for Config {
    fn default() -> (r: Config)
        ensures
            r == default_config(),
    {
        Config {
            module_size_loc: 300,
            pub_surface_warn: 50,
            unsafe_density_warn_milli: 5000,
            complexity_warn: 10,
            coupling_warn: 10,
            churn_warn: 10,
        }
    }
}

/// One security advisory reported against a resolved package.
#[derive(Debug)]
pub struct AuditVuln {
    pub id: String,
    pub package: String,
    pub version: String,
    pub title: String,
}

/// One source file: its path, its physical line count and its syntax.
#[derive(Debug)]
pub struct SourceFile {
    pub path: String,
    pub loc: usize,
    pub ast: SyntaxFile,
}

/// A workspace-member crate with its sources.
#[derive(Debug)]
pub struct CrateData {
    pub name: String,
    pub manifest_path: String,
    /// Directory containing the crate's manifest.
    pub root_dir: String,
    /// Names of other workspace members this crate depends on.
    pub workspace_deps: Vec<String>,
    /// Names of declared dependencies outside the workspace.
    pub external_deps: Vec<String>,
    pub files: Vec<SourceFile>,
}

/// Everything an [`Inspection`] reads.
#[derive(Debug)]
pub struct Context {
    pub workspace: WorkspaceInfo,
    pub crates: Vec<CrateData>,
    pub config: Config,
    /// `(package, version)` for every resolved package of the dependency graph.
    pub resolved_versions: Vec<(String, String)>,
    /// Advisories found by the audit, when it ran.
    pub audit: Vec<AuditVuln>,
    /// `(file path, number of changes)` from version-control history; empty
    /// when there is none.
    pub churn: Vec<(String, usize)>,
}

impl Default for Context {
    fn default() -> (r: Context)
        ensures
            r.workspace.root@ == Seq::<char>::empty(),
            r.workspace.crates@.len() == 0,
            r.crates@.len() == 0,
            r.config == default_config(),
            r.resolved_versions@.len() == 0,
            r.audit@.len() == 0,
            r.churn@.len() == 0,
    {
        Context {
            workspace: WorkspaceInfo::default(),
            crates: Vec::new(),
            config: Config::default(),
            resolved_versions: Vec::new(),
            audit: Vec::new(),
            churn: Vec::new(),
        }
    }
}

/// A single structural analysis. `run` reads only its [`Context`] and has
/// no side effects.
pub trait Inspection {
    /// The contexts `run` accepts: those on which its counts fit the machine.
    spec fn accepts(&self, ctx: &Context) -> bool;

    /// The findings `run` gives on `ctx`.
    spec fn findings_spec(&self, ctx: &Context) -> Seq<FindingView>;

    /// The stable identifier.
    spec fn inspection_name(&self) -> Seq<char>;

    /// Stable identifier, e.g. `"workspace-graph"`.
    fn name(&self) -> (r: &'static str)
        ensures
            r@ == self.inspection_name(),
    ;

    /// Produce findings for the given context.
    fn run(&self, ctx: &Context) -> (r: Vec<Finding>)
        requires
            self.accepts(ctx),
        ensures
            views(r@) == self.findings_spec(ctx),
    ;
}

} // verus!
