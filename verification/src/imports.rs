//! The crate roots a file references.
//!
//! Two granularities, because the callers ask different questions:
//! - [`file_use_roots`] — roots brought in by `use` (and attribute paths).
//!   The "how many external crates does this file import" signal for
//!   `coupling`.
//! - [`file_reference_roots`] — the broader set that adds every path's leading
//!   segment, used by `dep-hygiene` to decide whether a declared dependency is
//!   referenced anywhere.
//!
//! Both see only the written source: names reached through macro expansion
//! are missed.
use vstd::prelude::*;
use crate::strings::{insert_sorted, lex_lt, lemma_lex_irreflexive, str_eq, strictly_sorted, strs};
use crate::syntax::{SyntaxFile, SyntaxNode, UseTree};

verus! {

/// Path-position keywords that are never crate roots.
pub open spec fn is_keyword(s: Seq<char>) -> bool {
    s == "crate"@ || s == "self"@ || s == "super"@ || s == "Self"@
}

/// `{ident}`, unless it is a keyword.
pub open spec fn root_set(ident: Seq<char>) -> Set<Seq<char>> {
    if is_keyword(ident) {
        Set::empty()
    } else {
        set![ident]
    }
}

/// The roots a `use` tree names at its top level.
pub open spec fn tree_roots(t: UseTree) -> Set<Seq<char>>
    decreases t,
{
    match t {
        UseTree::Path(i) => root_set(i@),
        UseTree::Name(i) => root_set(i@),
        UseTree::Rename(i) => root_set(i@),
        UseTree::Group(items) => group_roots(items@),
        UseTree::Glob => Set::empty(),
    }
}

/// The roots the trees of a group name.
pub open spec fn group_roots(items: Seq<UseTree>) -> Set<Seq<char>>
    decreases items,
{
    if items.len() == 0 {
        Set::empty()
    } else {
        group_roots(items.drop_last()) + tree_roots(items.last())
    }
}

/// The root a path names (its leading segment), if any.
pub open spec fn first_root(segments: Seq<String>) -> Set<Seq<char>> {
    if segments.len() == 0 {
        Set::empty()
    } else {
        root_set(segments[0]@)
    }
}

/// The roots one node contributes: `use` trees and attribute paths, and with
/// `all_paths` also the leading segment of every path.
pub open spec fn node_roots(n: SyntaxNode, all_paths: bool) -> Set<Seq<char>> {
    match n {
        SyntaxNode::Use { tree } => tree_roots(tree),
        SyntaxNode::Attribute { path } => first_root(path@),
        SyntaxNode::Path { segments } => if all_paths {
            first_root(segments@)
        } else {
            Set::empty()
        },
        _ => Set::empty(),
    }
}

/// The roots of a sequence of nodes.
pub open spec fn nodes_roots(nodes: Seq<SyntaxNode>, all_paths: bool) -> Set<Seq<char>>
    decreases nodes.len(),
{
    if nodes.len() == 0 {
        Set::empty()
    } else {
        nodes_roots(nodes.drop_last(), all_paths) + node_roots(nodes.last(), all_paths)
    }
}

/// Distinct roots imported via `use` or attribute paths.
pub open spec fn use_roots_spec(ast: SyntaxFile) -> Set<Seq<char>> {
    nodes_roots(ast.nodes@, false)
}

/// Distinct roots referenced anywhere: `use` trees, attribute paths and every
/// path's leading segment.
pub open spec fn reference_roots_spec(ast: SyntaxFile) -> Set<Seq<char>> {
    nodes_roots(ast.nodes@, true)
}

/// The roots of a node when only imports count are among those when every
/// path counts.
proof fn lemma_node_roots_mono(n: SyntaxNode)
    ensures
        node_roots(n, false).subset_of(node_roots(n, true)),
{
}

proof fn lemma_group_roots_not_keyword(items: Seq<UseTree>, k: Seq<char>)
    requires
        group_roots(items).contains(k),
    ensures
        !is_keyword(k),
    decreases items,
{
    if items.len() > 0 {
        if group_roots(items.drop_last()).contains(k) {
            lemma_group_roots_not_keyword(items.drop_last(), k);
        } else {
            lemma_tree_roots_not_keyword(items.last(), k);
        }
    }
}

proof fn lemma_tree_roots_not_keyword(t: UseTree, k: Seq<char>)
    requires
        tree_roots(t).contains(k),
    ensures
        !is_keyword(k),
    decreases t,
{
    if let UseTree::Group(items) = t {
        lemma_group_roots_not_keyword(items@, k);
    }
}

/// Import roots never count more than reference roots: every root that a
/// file imports is also a root that it references, and neither set holds a
/// path keyword (`crate`, `self`, `super`, `Self`).
pub proof fn lemma_use_roots_within_reference_roots(nodes: Seq<SyntaxNode>)
    ensures
        nodes_roots(nodes, false).subset_of(nodes_roots(nodes, true)),
        forall|k: Seq<char>| #[trigger] nodes_roots(nodes, true).contains(k) ==> !is_keyword(k),
    decreases nodes.len(),
{
    if nodes.len() > 0 {
        lemma_use_roots_within_reference_roots(nodes.drop_last());
        lemma_node_roots_mono(nodes.last());
        assert forall|k: Seq<char>| #[trigger] nodes_roots(nodes, true).contains(k) implies !is_keyword(k) by {
            if !nodes_roots(nodes.drop_last(), true).contains(k) {
                if let SyntaxNode::Use { tree } = nodes.last() {
                    lemma_tree_roots_not_keyword(tree, k);
                }
            }
        }
    }
}

/// Gathers crate roots into a sorted set.
pub struct RootCollector {
    pub include_all_paths: bool,
    pub roots: Vec<String>,
}

impl RootCollector {
    /// Add `ident` as a root unless it is a path keyword.
    pub fn add(&mut self, ident: &String)
        requires
            strictly_sorted(strs(old(self).roots@)),
        ensures
            final(self).include_all_paths == old(self).include_all_paths,
            strictly_sorted(strs(final(self).roots@)),
            strs(final(self).roots@).to_set() == strs(old(self).roots@).to_set() + root_set(
                ident@,
            ),
    {
        let s = ident.as_str();
        if str_eq(s, "crate") || str_eq(s, "self") || str_eq(s, "super") || str_eq(s, "Self") {
            assert(strs(self.roots@).to_set() + root_set(ident@) =~= strs(self.roots@).to_set());
        } else {
            insert_sorted(&mut self.roots, ident.clone());
            assert(strs(old(self).roots@).to_set().insert(ident@) =~= strs(old(self).roots@).to_set()
                + root_set(ident@));
        }
    }

    /// Add the leading idents of a `use` tree.
    pub fn collect_use(&mut self, tree: &UseTree)
        requires
            strictly_sorted(strs(old(self).roots@)),
        ensures
            final(self).include_all_paths == old(self).include_all_paths,
            strictly_sorted(strs(final(self).roots@)),
            strs(final(self).roots@).to_set() == strs(old(self).roots@).to_set() + tree_roots(
                *tree,
            ),
        decreases tree,
    {
        match tree {
            UseTree::Path(i) => self.add(i),
            UseTree::Name(i) => self.add(i),
            UseTree::Rename(i) => self.add(i),
            UseTree::Group(items) => {
                let ghost start = strs(self.roots@).to_set();
                for k in 0..items.len()
                    invariant
                        *tree == UseTree::Group(*items),
                        self.include_all_paths == old(self).include_all_paths,
                        strictly_sorted(strs(self.roots@)),
                        start == strs(old(self).roots@).to_set(),
                        strs(self.roots@).to_set() == start + group_roots(items@.take(k as int)),
                {
                    proof {
                        assert(items@.take(k + 1).drop_last() =~= items@.take(k as int));
                        assert((*tree)->Group_0 == *items);
                        assert(decreases_to!(*tree => (*tree)->Group_0));
                        assert(decreases_to!(*items => items@));
                        assert(decreases_to!(items@ => items@[k as int]));
                    }
                    self.collect_use(&items[k]);
                    proof {
                        assert(strs(self.roots@).to_set() =~= start + group_roots(
                            items@.take(k + 1),
                        ));
                    }
                }
                proof {
                    assert(items@.take(items@.len() as int) =~= items@);
                }
            },
            UseTree::Glob => {
                assert(strs(self.roots@).to_set() + Set::empty() =~= strs(self.roots@).to_set());
            },
        }
    }

    /// Add the leading segment of a path.
    fn add_first(&mut self, segments: &Vec<String>)
        requires
            strictly_sorted(strs(old(self).roots@)),
        ensures
            final(self).include_all_paths == old(self).include_all_paths,
            strictly_sorted(strs(final(self).roots@)),
            strs(final(self).roots@).to_set() == strs(old(self).roots@).to_set() + first_root(
                segments@,
            ),
    {
        if segments.len() > 0 {
            self.add(&segments[0]);
        } else {
            assert(strs(self.roots@).to_set() + Set::empty() =~= strs(self.roots@).to_set());
        }
    }

    /// Add what one node contributes.
    pub fn visit_node(&mut self, node: &SyntaxNode)
        requires
            strictly_sorted(strs(old(self).roots@)),
        ensures
            final(self).include_all_paths == old(self).include_all_paths,
            strictly_sorted(strs(final(self).roots@)),
            strs(final(self).roots@).to_set() == strs(old(self).roots@).to_set() + node_roots(
                *node,
                old(self).include_all_paths,
            ),
    {
        match node {
            SyntaxNode::Use { tree } => self.collect_use(tree),
            SyntaxNode::Attribute { path } => self.add_first(path),
            SyntaxNode::Path { segments } => {
                if self.include_all_paths {
                    self.add_first(segments);
                } else {
                    assert(strs(self.roots@).to_set() + Set::empty() =~= strs(
                        self.roots@,
                    ).to_set());
                }
            },
            _ => {
                assert(strs(self.roots@).to_set() + Set::empty() =~= strs(self.roots@).to_set());
            },
        }
    }

    /// Add what every node of a file contributes.
    pub fn visit_file(&mut self, ast: &SyntaxFile)
        requires
            strictly_sorted(strs(old(self).roots@)),
        ensures
            final(self).include_all_paths == old(self).include_all_paths,
            strictly_sorted(strs(final(self).roots@)),
            strs(final(self).roots@).to_set() == strs(old(self).roots@).to_set() + nodes_roots(
                ast.nodes@,
                old(self).include_all_paths,
            ),
    {
        let ghost start = strs(self.roots@).to_set();
        let nodes = &ast.nodes;
        for i in 0..nodes.len()
            invariant
                nodes == &ast.nodes,
                self.include_all_paths == old(self).include_all_paths,
                strictly_sorted(strs(self.roots@)),
                start == strs(old(self).roots@).to_set(),
                strs(self.roots@).to_set() == start + nodes_roots(
                    nodes@.take(i as int),
                    self.include_all_paths,
                ),
        {
            proof {
                assert(nodes@.take(i + 1).drop_last() =~= nodes@.take(i as int));
            }
            self.visit_node(&nodes[i]);
            proof {
                assert(strs(self.roots@).to_set() =~= start + nodes_roots(
                    nodes@.take(i + 1),
                    self.include_all_paths,
                ));
            }
        }
        proof {
            assert(nodes@.take(nodes@.len() as int) =~= nodes@);
        }
    }
}

/// A strictly sorted list holds no string twice, so its length is the size
/// of its set.
pub proof fn lemma_sorted_set_len(s: Seq<Seq<char>>)
    requires
        strictly_sorted(s),
    ensures
        s.no_duplicates(),
        s.to_set().len() == s.len(),
{
    assert forall|i: int, j: int| 0 <= i < s.len() && 0 <= j < s.len() && i != j implies s[i]
        != s[j] by {
        if i < j {
            assert(lex_lt(s[i], s[j]));
            lemma_lex_irreflexive(s[i]);
        } else {
            assert(lex_lt(s[j], s[i]));
            lemma_lex_irreflexive(s[j]);
        }
    }
    s.unique_seq_to_set();
}

/// Distinct crate roots imported via `use` or attribute paths, sorted.
pub fn file_use_roots(ast: &SyntaxFile) -> (r: Vec<String>)
    ensures
        strictly_sorted(strs(r@)),
        strs(r@).to_set() == use_roots_spec(*ast),
        r@.len() == use_roots_spec(*ast).len(),
{
    let mut v = RootCollector { include_all_paths: false, roots: Vec::new() };
    assert(strs(v.roots@).to_set() =~= Set::<Seq<char>>::empty());
    v.visit_file(ast);
    assert(strs(v.roots@).to_set() =~= use_roots_spec(*ast));
    proof {
        lemma_sorted_set_len(strs(v.roots@));
    }
    v.roots
}

/// Distinct crate roots referenced anywhere, sorted.
pub fn file_reference_roots(ast: &SyntaxFile) -> (r: Vec<String>)
    ensures
        strictly_sorted(strs(r@)),
        strs(r@).to_set() == reference_roots_spec(*ast),
        r@.len() == reference_roots_spec(*ast).len(),
{
    let mut v = RootCollector { include_all_paths: true, roots: Vec::new() };
    assert(strs(v.roots@).to_set() =~= Set::<Seq<char>>::empty());
    v.visit_file(ast);
    assert(strs(v.roots@).to_set() =~= reference_roots_spec(*ast));
    proof {
        lemma_sorted_set_len(strs(v.roots@));
    }
    v.roots
}

} // verus!
