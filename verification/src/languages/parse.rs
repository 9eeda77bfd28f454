//! Parsing source text into a [`SyntaxNode`] tree with tree-sitter: the
//! parser's tree is read node by node and copied.

use vstd::prelude::*;

use crate::languages::syntax::{
    lemma_depth_of_shape, lemma_shapes, Label, SyntaxNode, TreeView, MAX_DEPTH,
};

verus! {

/// The tree that tree-sitter parses from a source with a grammar: the tree
/// under its root node; none where the parser refuses the grammar or
/// gives up.
pub uninterp spec fn parsed(grammar: tree_sitter::Language, source: Seq<char>) -> Option<TreeView>;

/// What a parsed tree holds: the tree under its root node.
pub uninterp spec fn root_view(tree: tree_sitter::Tree) -> TreeView;

/// `Parser::new`, `Parser::set_language` and `Parser::parse` of tree-sitter:
/// parses the source with the grammar. The outcome depends on the grammar
/// and the source alone: the tree is the one that they give, and there is
/// none exactly where they give none.
#[verifier::external_body]
fn ts_parse(grammar: &tree_sitter::Language, source: &str) -> (tree: Option<tree_sitter::Tree>)
    ensures
        match tree {
            Some(t) => parsed(*grammar, source@) == Some(root_view(t)),
            None => parsed(*grammar, source@) is None,
        },
{
    let mut parser = tree_sitter::Parser::new();
    match parser.set_language(grammar) {
        Ok(()) => parser.parse(source, None),
        Err(_) => None,
    }
}

/// `Tree::root_node` of tree-sitter: the root node holds what the tree
/// holds.
#[verifier::external_body]
fn ts_root<'a>(tree: &'a tree_sitter::Tree) -> (root: tree_sitter::Node<'a>)
    ensures
        tree_of(root, None) == root_view(*tree),
{
    tree.root_node()
}

/// What a node of a parsed tree holds under it: the trees under its
/// children, in order, each with the field name of the child.
pub uninterp spec fn children_of(node: tree_sitter::Node) -> Seq<TreeView>;

/// What a node of a parsed tree holds of its own: its kind, its byte range
/// and its positions.
pub uninterp spec fn label_of(node: tree_sitter::Node) -> Label;

/// The tree under a node of a parsed tree that hangs under `field`.
pub open spec fn tree_of(node: tree_sitter::Node, field: Option<Seq<char>>) -> TreeView {
    TreeView { label: label_of(node), field, children: children_of(node) }
}

/// Where `i` is below the number of the node's children, `child` is the
/// node's child at that index and holds what the node holds there.
pub open spec fn is_child_at(node: tree_sitter::Node, i: u32, child: Option<tree_sitter::Node>)
    -> bool {
    let under = children_of(node);
    i < under.len() ==> (child matches Some(c) && label_of(c) == under[i as int].label
        && children_of(c) == under[i as int].children)
}

/// `Node::kind` of tree-sitter, as an owned string: the kind of the node.
#[verifier::external_body]
fn ts_kind(node: &tree_sitter::Node) -> (kind: String)
    ensures
        kind@ == label_of(*node).kind,
{
    node.kind().to_string()
}

/// `Node::child_count` of tree-sitter: the number of the node's children.
#[verifier::external_body]
fn ts_child_count(node: &tree_sitter::Node) -> (count: u32)
    ensures
        count == children_of(*node).len(),
{
    node.child_count()
}

/// `Node::child` of tree-sitter: the child at the index, where zero is the
/// first child and the child count bounds the indices. The child holds
/// what the node holds at that index.
#[verifier::external_body]
fn ts_child<'a>(node: &tree_sitter::Node<'a>, i: u32) -> (child: Option<tree_sitter::Node<'a>>)
    ensures
        is_child_at(*node, i, child),
{
    node.child(i)
}

/// `Node::field_name_for_child` of tree-sitter, as an owned string: the
/// field name of the child at the index, if it has one.
#[verifier::external_body]
fn ts_field(node: &tree_sitter::Node, i: u32) -> (name: Option<String>)
    ensures
        i < children_of(*node).len() ==> name.deep_view() == children_of(*node)[i as int].field,
{
    node.field_name_for_child(i).map(String::from)
}

/// `Node::start_byte` of tree-sitter: the byte at which the node starts.
#[verifier::external_body]
fn ts_start_byte(node: &tree_sitter::Node) -> (at: usize)
    ensures
        at == label_of(*node).start_byte,
{
    node.start_byte()
}

/// `Node::end_byte` of tree-sitter: the byte at which the node ends.
#[verifier::external_body]
fn ts_end_byte(node: &tree_sitter::Node) -> (at: usize)
    ensures
        at == label_of(*node).end_byte,
{
    node.end_byte()
}

/// `Node::start_position` of tree-sitter, as row and column: where the
/// node starts.
#[verifier::external_body]
fn ts_start(node: &tree_sitter::Node) -> (at: (usize, usize))
    ensures
        at == (label_of(*node).start_row, label_of(*node).start_column),
{
    let point = node.start_position();
    (point.row, point.column)
}

/// `Node::end_position` of tree-sitter, as row and column: where the node
/// ends.
#[verifier::external_body]
fn ts_end(node: &tree_sitter::Node) -> (at: (usize, usize))
    ensures
        at == (label_of(*node).end_row, label_of(*node).end_column),
{
    let point = node.end_position();
    (point.row, point.column)
}

/// Copies the tree under `node`, which hangs under `field`: the copy holds
/// what the node holds. There is none exactly where the tree is nested
/// deeper than `depth`.
fn build(node: &tree_sitter::Node, field: Option<String>, depth: usize) -> (r: Option<SyntaxNode>)
    ensures
        match r {
            Some(tree) => tree.shape() == tree_of(*node, field.deep_view()) && tree.shape().nested_within(
                depth as nat,
            ),
            None => !tree_of(*node, field.deep_view()).nested_within(depth as nat),
        },
    decreases depth,
{
    if depth == 0 {
        return None;
    }
    let ghost under = children_of(*node);
    let count = ts_child_count(node);
    let mut children: Vec<SyntaxNode> = Vec::new();
    let mut i: u32 = 0;
    while i < count
        invariant
            i <= count,
            depth > 0,
            under == children_of(*node),
            count == under.len(),
            children@.len() == i,
            forall|j: int| 0 <= j < i ==> (#[trigger] children@[j]).shape() == under[j],
            forall|j: int| 0 <= j < i ==> (#[trigger] under[j]).nested_within((depth - 1) as nat),
        decreases count - i,
    {
        match ts_child(node, i) {
            Some(child) => {
                match build(&child, ts_field(node, i), depth - 1) {
                    Some(tree) => {
                        children.push(tree);
                    },
                    None => {
                        proof {
                            let whole = tree_of(*node, field.deep_view());
                            assert(!whole.children[i as int].nested_within((depth - 1) as nat));
                        }
                        return None;
                    },
                }
            },
            None => {},
        }
        i = i + 1;
    }
    let start = ts_start(node);
    let end = ts_end(node);
    let tree = SyntaxNode {
        kind: ts_kind(node),
        field,
        start_byte: ts_start_byte(node),
        end_byte: ts_end_byte(node),
        start_row: start.0,
        start_column: start.1,
        end_row: end.0,
        end_column: end.1,
        children,
    };
    proof {
        lemma_shapes(tree.children@, tree.children@.len());
        assert(tree.shape().children =~= under);
    }
    Some(tree)
}

/// What parsing a source with a grammar gives: the tree that the parser
/// yields; none where it yields none or the tree is nested deeper than
/// [`MAX_DEPTH`].
pub open spec fn syntax_of(grammar: tree_sitter::Language, source: Seq<char>) -> Option<TreeView> {
    match parsed(grammar, source) {
        Some(tv) => if tv.nested_within(MAX_DEPTH as nat) {
            Some(tv)
        } else {
            None
        },
        None => None,
    }
}

/// Parses the source with the grammar.
///
/// There is no tree where the parser produces none or the tree is nested
/// deeper than [`MAX_DEPTH`].
pub fn parse_syntax(grammar: &tree_sitter::Language, source: &str) -> (r: Option<SyntaxNode>)
    ensures
        match syntax_of(*grammar, source@) {
            Some(tv) => r matches Some(tree) && tree.shape() == tv && tree.within_depth(
                MAX_DEPTH as nat,
            ),
            None => r is None,
        },
{
    match ts_parse(grammar, source) {
        Some(tree) => {
            let root = ts_root(&tree);
            let built = build(&root, None, MAX_DEPTH);
            proof {
                if built is Some {
                    lemma_depth_of_shape(built->0, MAX_DEPTH as nat);
                }
            }
            built
        },
        None => None,
    }
}

} // verus!
