//! The decisions of workspace collection: which files are sources, in what
//! order, how lines are counted, and which dependencies stay inside the
//! workspace. Reading the disk and running `cargo metadata` is the caller's.
use vstd::prelude::*;
use crate::model::{CrateData, SourceFile, WorkspaceInfo};
use crate::strings::{contains_str, path_order, sort_by_rank, str_eq, strs};
use crate::syntax::{count_where, lemma_count_where_push};
use crate::workspace_graph::crate_names;

verus! {

/// Whether a directory of this name is skipped: build output (`target`).
pub fn skips_dir(dir_name: &str) -> (r: bool)
    ensures
        r == (dir_name@ == "target"@),
{
    str_eq(dir_name, "target")
}

/// Whether a file name has the extension `rs`: a `.` that is not the name's
/// first character, followed by `rs` at the end.
pub open spec fn has_rs_extension(name: Seq<char>) -> bool {
    name.len() > 3 && name.subrange(name.len() - 3, name.len() as int) == seq!['.', 'r', 's']
}

/// Whether a file of this name is a Rust source.
pub fn is_rust_source(file_name: &str) -> (r: bool)
    ensures
        r == has_rs_extension(file_name@),
{
    let n = file_name.unicode_len();
    if n <= 3 {
        return false;
    }
    let r = file_name.get_char(n - 3) == '.' && file_name.get_char(n - 2) == 'r'
        && file_name.get_char(n - 1) == 's';
    proof {
        let t = file_name@.subrange(n - 3, n as int);
        if r {
            assert(t =~= seq!['.', 'r', 's']);
        } else {
            if t == seq!['.', 'r', 's'] {
                assert(t[0] == file_name@[n - 3]);
                assert(t[1] == file_name@[n - 2]);
                assert(t[2] == file_name@[n - 1]);
            }
        }
    }
    r
}

/// The collected source files, sorted by path.
pub fn collect_rs_files(found: &Vec<String>) -> (r: Vec<String>)
    ensures
        strs(r@) == strs(found@).sort_by(path_order()),
{
    sort_by_rank(found, true)
}

/// Number of lines of a text, as `str::lines` counts them: line breaks are
/// `\n`, and a last line without one still counts.
pub open spec fn line_count_spec(text: Seq<char>) -> nat {
    count_where(text, |c: char| c == '\n') + if text.len() > 0 && text.last() != '\n' {
        1nat
    } else {
        0nat
    }
}

/// Physical line count of a file's text.
pub fn line_count(text: &str) -> (r: usize)
    ensures
        r == line_count_spec(text@),
{
    let n = text.unicode_len();
    let mut breaks: usize = 0;
    let mut last = '\n';
    for i in 0..n
        invariant
            n == text@.len(),
            breaks <= i,
            i > 0 && last != '\n' ==> breaks < i,
            breaks == count_where(text@.take(i as int), |c: char| c == '\n'),
            i > 0 ==> last == text@[i - 1],
    {
        let c = text.get_char(i);
        proof {
            assert(text@.take(i + 1) =~= text@.take(i as int).push(c));
            lemma_count_where_push(text@.take(i as int), c, |c: char| c == '\n');
        }
        if c == '\n' {
            breaks = breaks + 1;
        }
        last = c;
    }
    proof {
        assert(text@.take(n as int) =~= text@);
    }
    if n > 0 && last != '\n' {
        breaks + 1
    } else {
        breaks
    }
}

/// A declared dependency: its name, and whether it is a normal (not dev or
/// build) dependency.
#[derive(Debug)]
pub struct Dependency {
    pub name: String,
    pub normal: bool,
}

/// The names of the dependencies that are workspace members, in order.
pub open spec fn workspace_dep_names(deps: Seq<Dependency>, members: Set<Seq<char>>) -> Seq<Seq<char>>
    decreases deps.len(),
{
    if deps.len() == 0 {
        seq![]
    } else {
        workspace_dep_names(deps.drop_last(), members) + if members.contains(deps.last().name@) {
            seq![deps.last().name@]
        } else {
            seq![]
        }
    }
}

/// The names of the normal dependencies that are not workspace members, in
/// order.
pub open spec fn external_dep_names(deps: Seq<Dependency>, members: Set<Seq<char>>) -> Seq<Seq<char>>
    decreases deps.len(),
{
    if deps.len() == 0 {
        seq![]
    } else {
        external_dep_names(deps.drop_last(), members) + if deps.last().normal && !members.contains(
            deps.last().name@,
        ) {
            seq![deps.last().name@]
        } else {
            seq![]
        }
    }
}

/// A member crate from its package facts: its dependencies on other members
/// (any kind) feed the dependency graph, its normal dependencies outside the
/// workspace feed `dep-hygiene`.
pub fn crate_data(
    name: String,
    manifest_path: String,
    root_dir: String,
    deps: &Vec<Dependency>,
    members: &Vec<String>,
    files: Vec<SourceFile>,
) -> (r: CrateData)
    ensures
        r.name == name,
        r.manifest_path == manifest_path,
        r.root_dir == root_dir,
        r.files == files,
        strs(r.workspace_deps@) == workspace_dep_names(deps@, strs(members@).to_set()),
        strs(r.external_deps@) == external_dep_names(deps@, strs(members@).to_set()),
{
    let ghost ms = strs(members@).to_set();
    let mut workspace_deps: Vec<String> = Vec::new();
    let mut external_deps: Vec<String> = Vec::new();
    for i in 0..deps.len()
        invariant
            ms == strs(members@).to_set(),
            strs(workspace_deps@) == workspace_dep_names(deps@.take(i as int), ms),
            strs(external_deps@) == external_dep_names(deps@.take(i as int), ms),
    {
        let d = &deps[i];
        proof {
            assert(deps@.take(i + 1).drop_last() =~= deps@.take(i as int));
            assert(deps@.take(i + 1).last() == *d);
            assert(strs(members@).contains(d.name@) == ms.contains(d.name@));
        }
        let member = contains_str(members, d.name.as_str());
        if member {
            workspace_deps.push(d.name.clone());
        } else if d.normal {
            external_deps.push(d.name.clone());
        }
        proof {
            assert(strs(workspace_deps@) =~= workspace_dep_names(deps@.take(i + 1), ms));
            assert(strs(external_deps@) =~= external_dep_names(deps@.take(i + 1), ms));
        }
    }
    proof {
        assert(deps@.take(deps@.len() as int) =~= deps@);
    }
    CrateData { name, manifest_path, root_dir, workspace_deps, external_deps, files }
}

/// The workspace summary: its root and its crates' names, in order.
pub fn workspace_info(root: String, crates: &Vec<CrateData>) -> (r: WorkspaceInfo)
    ensures
        r.root == root,
        strs(r.crates@) == crate_names(crates@),
{
    let mut names: Vec<String> = Vec::new();
    for i in 0..crates.len()
        invariant
            strs(names@) == crate_names(crates@.take(i as int)),
    {
        let ghost before = strs(names@);
        let nm = crates[i].name.clone();
        let ghost v = nm@;
        names.push(nm);
        assert(strs(names@) =~= before.push(v));
        assert(crate_names(crates@.take(i + 1)) =~= crate_names(crates@.take(i as int)).push(
            crates@[i as int].name@,
        ));
        assert(strs(names@) =~= crate_names(crates@.take(i + 1)));
    }
    assert(crates@.take(crates@.len() as int) =~= crates@);
    WorkspaceInfo { root, crates: names }
}

} // verus!
