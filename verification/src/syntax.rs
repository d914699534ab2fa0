//! The syntax facts of one source file that the inspections read.
//!
//! A file is the pre-order sequence of the syntax nodes that matter to the
//! analyses (items, `fn`s, `unsafe` markers, attributes, paths, `use` trees and
//! decision points), in the order a syntax-tree walk meets them. A function's
//! body is the run of nodes that its [`BodySpan`] marks out after it.
use vstd::prelude::*;
use crate::strings::str_eq;

verus! {

/// The kind of an item, one per kind of the Rust grammar.
#[derive(Clone, Copy, Debug, PartialEq, Eq, Structural)]
pub enum ItemKind {
    Const,
    Enum,
    ExternCrate,
    Fn,
    ForeignMod,
    Impl,
    Macro,
    Mod,
    Static,
    Struct,
    Trait,
    TraitAlias,
    Type,
    Union,
    Use,
    Verbatim,
}

/// Declared visibility: `pub`, a restricted `pub(..)`, or none.
#[derive(Clone, Copy, Debug, PartialEq, Eq, Structural)]
pub enum Visibility {
    Public,
    Restricted,
    Inherited,
}

/// Where a function is declared: free item, `impl` block, or trait.
#[derive(Clone, Copy, Debug, PartialEq, Eq, Structural)]
pub enum FnKind {
    Free,
    Method,
    TraitMethod,
}

/// A binary operator, as far as the analyses tell operators apart.
#[derive(Clone, Copy, Debug, PartialEq, Eq, Structural)]
pub enum BinOp {
    And,
    Or,
    Other,
}

/// Where a function body lies: it starts `skip` nodes after the node that
/// follows the function's own node (the signature's nodes come first), and
/// spans `len` nodes.
#[derive(Clone, Copy, Debug, PartialEq, Eq, Structural)]
pub struct BodySpan {
    pub skip: usize,
    pub len: usize,
}

/// A `use` tree, down to what names its leading segment.
#[derive(Debug)]
pub enum UseTree {
    /// `ident::...`
    Path(String),
    /// `ident`
    Name(String),
    /// `ident as alias`
    Rename(String),
    /// `{a, b, ...}`
    Group(Vec<UseTree>),
    /// `*`
    Glob,
}

/// One syntax node.
#[allow(inconsistent_fields)]
#[derive(Debug)]
pub enum SyntaxNode {
    /// Any item, at any depth.
    Item { kind: ItemKind, vis: Visibility },
    /// A function with a name; `body` is `None` for a trait method without a
    /// default body.
    Fn { kind: FnKind, name: String, is_unsafe: bool, body: Option<BodySpan> },
    /// An `impl` block.
    Impl { is_unsafe: bool },
    /// A trait declaration.
    Trait { is_unsafe: bool },
    /// An `unsafe { .. }` block.
    UnsafeBlock,
    /// An attribute, by the segments of its path.
    Attribute { path: Vec<String> },
    /// A path, by its segments.
    Path { segments: Vec<String> },
    /// A `use` declaration.
    Use { tree: UseTree },
    If,
    While,
    ForLoop,
    Loop,
    MatchArm,
    /// The `?` operator.
    Try,
    Binary { op: BinOp },
}

/// The syntax facts of one source file.
#[derive(Debug)]
pub struct SyntaxFile {
    pub nodes: Vec<SyntaxNode>,
}

/// Number of elements of `s` that satisfy `p`.
pub open spec fn count_where<A>(s: Seq<A>, p: spec_fn(A) -> bool) -> nat
    decreases s.len(),
{
    if s.len() == 0 {
        0
    } else {
        count_where(s.drop_last(), p) + if p(s.last()) {
            1nat
        } else {
            0nat
        }
    }
}

pub proof fn lemma_count_where_push<A>(s: Seq<A>, x: A, p: spec_fn(A) -> bool)
    ensures
        count_where(s.push(x), p) == count_where(s, p) + if p(x) {
            1nat
        } else {
            0nat
        },
{
    assert(s.push(x).drop_last() =~= s);
}

pub proof fn lemma_count_where_bound<A>(s: Seq<A>, p: spec_fn(A) -> bool)
    ensures
        count_where(s, p) <= s.len(),
    decreases s.len(),
{
    if s.len() > 0 {
        lemma_count_where_bound(s.drop_last(), p);
    }
}

/// Two predicates that agree on every element of `s` count the same.
pub proof fn lemma_count_where_congruent<A>(s: Seq<A>, p: spec_fn(A) -> bool, q: spec_fn(A) -> bool)
    requires
        forall|i: int| 0 <= i < s.len() ==> p(#[trigger] s[i]) == q(s[i]),
    ensures
        count_where(s, p) == count_where(s, q),
    decreases s.len(),
{
    if s.len() > 0 {
        let t = s.drop_last();
        assert forall|i: int| 0 <= i < t.len() implies p(#[trigger] t[i]) == q(t[i]) by {
            assert(t[i] == s[i]);
        }
        lemma_count_where_congruent(t, p, q);
        assert(p(s[s.len() - 1]) == q(s[s.len() - 1]));
    }
}

/// Whether some element of `s` satisfies `p`.
pub open spec fn any_where<A>(s: Seq<A>, p: spec_fn(A) -> bool) -> bool {
    exists|i: int| 0 <= i < s.len() && p(#[trigger] s[i])
}

/// Whether an item of this kind and visibility is public API (`pub`
/// exactly; restricted visibility does not count, nor do items that carry no
/// visibility of their own).
pub open spec fn item_is_public_spec(kind: ItemKind, vis: Visibility) -> bool {
    vis == Visibility::Public && match kind {
        ItemKind::Const | ItemKind::Enum | ItemKind::Fn | ItemKind::Mod | ItemKind::Static
        | ItemKind::Struct | ItemKind::Trait | ItemKind::TraitAlias | ItemKind::Type
        | ItemKind::Union | ItemKind::Use => true,
        _ => false,
    }
}

/// Whether a node is an item.
pub open spec fn is_item(n: SyntaxNode) -> bool {
    n is Item
}

/// Whether a node is a public item.
pub open spec fn is_pub_item(n: SyntaxNode) -> bool {
    match n {
        SyntaxNode::Item { kind, vis } => item_is_public_spec(kind, vis),
        _ => false,
    }
}

/// Whether a node is an `unsafe` marker: an `unsafe` block, an `unsafe` free
/// function or method, an `unsafe impl`, or an `unsafe trait`.
pub open spec fn is_unsafe_marker(n: SyntaxNode) -> bool {
    match n {
        SyntaxNode::UnsafeBlock => true,
        SyntaxNode::Fn { kind, is_unsafe, .. } => is_unsafe && kind != FnKind::TraitMethod,
        SyntaxNode::Impl { is_unsafe } => is_unsafe,
        SyntaxNode::Trait { is_unsafe } => is_unsafe,
        _ => false,
    }
}

/// Whether an attribute path's last segment is `test` (`#[test]`,
/// `#[tokio::test]`, ...).
pub open spec fn is_test_path(path: Seq<Seq<char>>) -> bool {
    path.len() > 0 && path.last() == "test"@
}

/// Whether a node is a test attribute.
pub open spec fn is_test_attr(n: SyntaxNode) -> bool {
    match n {
        SyntaxNode::Attribute { path } => is_test_path(path.deep_view()),
        _ => false,
    }
}

/// Whether a node is a decision point: `if`, `while`, `for`, `loop`, a
/// `match` arm, `?`, `&&` or `||`.
pub open spec fn is_decision(n: SyntaxNode) -> bool {
    match n {
        SyntaxNode::If | SyntaxNode::While | SyntaxNode::ForLoop | SyntaxNode::Loop
        | SyntaxNode::MatchArm | SyntaxNode::Try => true,
        SyntaxNode::Binary { op } => op == BinOp::And || op == BinOp::Or,
        _ => false,
    }
}

/// The predicates above as values, for counting.
pub open spec fn item_pred() -> spec_fn(SyntaxNode) -> bool {
    |n: SyntaxNode| is_item(n)
}

pub open spec fn pub_pred() -> spec_fn(SyntaxNode) -> bool {
    |n: SyntaxNode| is_pub_item(n)
}

pub open spec fn unsafe_pred() -> spec_fn(SyntaxNode) -> bool {
    |n: SyntaxNode| is_unsafe_marker(n)
}

pub open spec fn test_pred() -> spec_fn(SyntaxNode) -> bool {
    |n: SyntaxNode| is_test_attr(n)
}

pub open spec fn decision_pred() -> spec_fn(SyntaxNode) -> bool {
    |n: SyntaxNode| is_decision(n)
}

/// Whether `public` is exactly the publicness of the item.
pub fn item_is_public(kind: ItemKind, vis: Visibility) -> (r: bool)
    ensures
        r == item_is_public_spec(kind, vis),
{
    match vis {
        Visibility::Public => match kind {
            ItemKind::Const | ItemKind::Enum | ItemKind::Fn | ItemKind::Mod | ItemKind::Static
            | ItemKind::Struct | ItemKind::Trait | ItemKind::TraitAlias | ItemKind::Type
            | ItemKind::Union | ItemKind::Use => true,
            _ => false,
        },
        _ => false,
    }
}

/// Whether the node is an `unsafe` marker.
pub fn unsafe_marker(n: &SyntaxNode) -> (r: bool)
    ensures
        r == is_unsafe_marker(*n),
{
    match n {
        SyntaxNode::UnsafeBlock => true,
        SyntaxNode::Fn { kind, is_unsafe, .. } => *is_unsafe && !matches!(kind, FnKind::TraitMethod),
        SyntaxNode::Impl { is_unsafe } => *is_unsafe,
        SyntaxNode::Trait { is_unsafe } => *is_unsafe,
        _ => false,
    }
}

/// Whether the node is a decision point.
pub fn decision(n: &SyntaxNode) -> (r: bool)
    ensures
        r == is_decision(*n),
{
    match n {
        SyntaxNode::If | SyntaxNode::While | SyntaxNode::ForLoop | SyntaxNode::Loop
        | SyntaxNode::MatchArm | SyntaxNode::Try => true,
        SyntaxNode::Binary { op } => matches!(op, BinOp::And) || matches!(op, BinOp::Or),
        _ => false,
    }
}

/// Whether an attribute path marks a test.
pub fn test_path(path: &Vec<String>) -> (r: bool)
    ensures
        r == is_test_path(path.deep_view()),
{
    let n = path.len();
    if n == 0 {
        return false;
    }
    let r = str_eq(path[n - 1].as_str(), "test");
    proof {
        assert(path.deep_view().last() == path@[n - 1]@);
    }
    r
}

/// Whether the node is a test attribute.
pub fn test_attr(n: &SyntaxNode) -> (r: bool)
    ensures
        r == is_test_attr(*n),
{
    match n {
        SyntaxNode::Attribute { path } => test_path(path),
        _ => false,
    }
}

/// Number of nodes of `nodes` between `start` and `end`, both clamped to the
/// sequence, that satisfy `p`.
pub open spec fn clamp(x: int, n: int) -> int {
    if x < n {
        x
    } else {
        n
    }
}

/// Where the body of the function node at `i` starts (clamped to the file).
pub open spec fn body_start(nodes: Seq<SyntaxNode>, i: int, span: BodySpan) -> int {
    clamp(i + 1 + span.skip, nodes.len() as int)
}

/// Where the body of the function node at `i` ends (clamped to the file).
pub open spec fn body_end(nodes: Seq<SyntaxNode>, i: int, span: BodySpan) -> int {
    clamp(i + 1 + span.skip + span.len, nodes.len() as int)
}

/// The body nodes of the function node at `i`.
pub open spec fn body_nodes(nodes: Seq<SyntaxNode>, i: int, span: BodySpan) -> Seq<SyntaxNode> {
    nodes.subrange(body_start(nodes, i, span), body_end(nodes, i, span))
}

} // verus!
