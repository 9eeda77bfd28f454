//! The syntax tree that extractors read: kinds, field names, byte ranges
//! and positions as plain values, built from the parser's tree.

use vstd::prelude::*;

use crate::seqs::{first_index, lemma_first_absent, lemma_first_found};
use crate::text::{can_slice, same_text, slice, slice_of, slice_ok};

verus! {

/// `tree_sitter::Language`, a grammar; opaque to the verifier.
#[verifier::external_type_specification]
#[verifier::external_body]
pub struct ExLanguage(tree_sitter::Language);

/// `tree_sitter::Tree`, a parsed syntax tree; opaque to the verifier.
#[verifier::external_type_specification]
#[verifier::external_body]
pub struct ExTree(tree_sitter::Tree);

/// `tree_sitter::Node`, a node of a parsed syntax tree; opaque to the verifier.
#[verifier::external_type_specification]
#[verifier::external_body]
pub struct ExNode<'tree>(tree_sitter::Node<'tree>);

/// A node of a syntax tree.
///
/// Rows, columns and bytes count from zero; `field` is the name under which
/// the node hangs in its parent, if it has one.
#[derive(Debug)]
pub struct SyntaxNode {
    pub kind: String,
    pub field: Option<String>,
    pub start_byte: usize,
    pub end_byte: usize,
    pub start_row: usize,
    pub start_column: usize,
    pub end_row: usize,
    pub end_column: usize,
    pub children: Vec<SyntaxNode>,
}

/// What a syntax node holds of its own: its kind, its byte range and its
/// positions.
pub struct Label {
    pub kind: Seq<char>,
    pub start_byte: usize,
    pub end_byte: usize,
    pub start_row: usize,
    pub start_column: usize,
    pub end_row: usize,
    pub end_column: usize,
}

/// Mathematical value of a syntax tree: the label of its root, the field
/// under which the root hangs, and the trees under the root, in order.
pub struct TreeView {
    pub label: Label,
    pub field: Option<Seq<char>>,
    pub children: Seq<TreeView>,
}

impl TreeView {
    /// The tree is nested no deeper than `depth`.
    pub open spec fn nested_within(self, depth: nat) -> bool
        decreases depth,
    {
        &&& depth > 0
        &&& forall|i: int|
            0 <= i < self.children.len() ==> (#[trigger] self.children[i]).nested_within(
                (depth - 1) as nat,
            )
    }
}

/// The values of the first `count` of the trees, in order.
pub open spec fn shapes(nodes: Seq<SyntaxNode>, count: nat) -> Seq<TreeView>
    decreases nodes, count,
{
    if count == 0 || count > nodes.len() {
        Seq::empty()
    } else {
        shapes(nodes, (count - 1) as nat).push(nodes[count - 1].shape())
    }
}

/// The deepest nesting that the machine can count; a tree nested deeper
/// is not built.
pub const MAX_DEPTH: usize = usize::MAX;

/// The node is of this kind.
pub open spec fn has_kind(kind: Seq<char>) -> spec_fn(SyntaxNode) -> bool {
    |n: SyntaxNode| n.kind@ == kind
}

/// The node hangs under this field of its parent.
pub open spec fn has_field(name: Seq<char>) -> spec_fn(SyntaxNode) -> bool {
    |n: SyntaxNode| n.field matches Some(f) && f@ == name
}

impl SyntaxNode {
    /// What the node holds of its own.
    pub open spec fn label(&self) -> Label {
        Label {
            kind: self.kind@,
            start_byte: self.start_byte,
            end_byte: self.end_byte,
            start_row: self.start_row,
            start_column: self.start_column,
            end_row: self.end_row,
            end_column: self.end_column,
        }
    }

    /// The mathematical value of the tree.
    pub open spec fn shape(&self) -> TreeView
        decreases self, 0nat,
    {
        TreeView {
            label: self.label(),
            field: self.field.deep_view(),
            children: shapes(self.children@, self.children@.len()),
        }
    }

    /// The position of the first child that hangs under the field `name`.
    pub open spec fn child_by_field(&self, name: Seq<char>) -> Option<int> {
        match first_index(self.children@, has_field(name)) {
            Some(k) => if 0 <= k < self.children@.len() {
                Some(k)
            } else {
                None
            },
            None => None,
        }
    }

    /// The position of the first child of the given kind.
    pub open spec fn child_of_kind(&self, kind: Seq<char>) -> Option<int> {
        match first_index(self.children@, has_kind(kind)) {
            Some(k) => if 0 <= k < self.children@.len() {
                Some(k)
            } else {
                None
            },
            None => None,
        }
    }

    /// The node's byte range can be cut out of the source, and its
    /// positions can be counted from one in 32 bits.
    pub open spec fn node_fits(&self, source: Seq<char>) -> bool {
        &&& slice_ok(source, self.start_byte as int, self.end_byte as int)
        &&& self.start_row < u32::MAX
        &&& self.start_column < u32::MAX
        &&& self.end_row < u32::MAX
        &&& self.end_column < u32::MAX
    }

    /// Every node of the tree fits the source.
    pub open spec fn fits(&self, source: Seq<char>) -> bool
        decreases self,
    {
        &&& self.node_fits(source)
        &&& forall|i: int|
            0 <= i < self.children@.len() ==> (#[trigger] self.children@[i]).fits(source)
    }

    /// The tree is nested no deeper than `depth`.
    pub open spec fn within_depth(&self, depth: nat) -> bool
        decreases self,
    {
        &&& depth > 0
        &&& forall|i: int|
            0 <= i < self.children@.len() ==> (#[trigger] self.children@[i]).within_depth(
                (depth - 1) as nat,
            )
    }

    /// The source text of the node.
    pub open spec fn text(&self, source: Seq<char>) -> Seq<char> {
        slice_of(source, self.start_byte as int, self.end_byte as int)
    }

    /// The line the node starts on, counted from one.
    pub open spec fn start_line(&self) -> u32 {
        (self.start_row + 1) as u32
    }

    /// The column the node starts at, counted from one.
    pub open spec fn start_col(&self) -> u32 {
        (self.start_column + 1) as u32
    }

    /// The line the node ends on, counted from one.
    pub open spec fn end_line(&self) -> u32 {
        (self.end_row + 1) as u32
    }

    /// The column the node ends at, counted from one.
    pub open spec fn end_col(&self) -> u32 {
        (self.end_column + 1) as u32
    }

    /// Whether the node is of the given kind.
    pub fn is_kind(&self, kind: &str) -> (b: bool)
        ensures
            b == (self.kind@ == kind@),
    {
        same_text(self.kind.as_str(), kind)
    }

    /// The position of the first child that hangs under the field `name`.
    pub fn field_child(&self, name: &str) -> (r: Option<usize>)
        ensures
            match r {
                Some(k) => self.child_by_field(name@) == Some(k as int) && k < self.children.len(),
                None => self.child_by_field(name@) is None,
            },
    {
        let ghost p = has_field(name@);
        let mut i: usize = 0;
        while i < self.children.len()
            invariant
                i <= self.children.len(),
                p == has_field(name@),
                forall|j: int| 0 <= j < i ==> !p(#[trigger] self.children@[j]),
            decreases self.children.len() - i,
        {
            let hit = match &self.children[i].field {
                Some(f) => same_text(f.as_str(), name),
                None => false,
            };
            if hit {
                proof {
                    lemma_first_found(self.children@, p, i as int);
                }
                return Some(i);
            }
            i = i + 1;
        }
        proof {
            lemma_first_absent(self.children@, p);
        }
        None
    }

    /// The position of the first child of the given kind.
    pub fn kind_child(&self, kind: &str) -> (r: Option<usize>)
        ensures
            match r {
                Some(k) => self.child_of_kind(kind@) == Some(k as int) && k < self.children.len(),
                None => self.child_of_kind(kind@) is None,
            },
    {
        let ghost p = has_kind(kind@);
        let mut i: usize = 0;
        while i < self.children.len()
            invariant
                i <= self.children.len(),
                p == has_kind(kind@),
                forall|j: int| 0 <= j < i ==> !p(#[trigger] self.children@[j]),
            decreases self.children.len() - i,
        {
            if self.children[i].is_kind(kind) {
                proof {
                    lemma_first_found(self.children@, p, i as int);
                }
                return Some(i);
            }
            i = i + 1;
        }
        proof {
            lemma_first_absent(self.children@, p);
        }
        None
    }

    /// Whether every node of the tree fits the source.
    pub fn check_fits(&self, source: &str) -> (b: bool)
        ensures
            b == self.fits(source@),
        decreases self,
    {
        let limit: usize = u32::MAX as usize;
        if !(can_slice(source, self.start_byte, self.end_byte) && self.start_row < limit
            && self.start_column < limit && self.end_row < limit && self.end_column < limit) {
            return false;
        }
        let mut i: usize = 0;
        while i < self.children.len()
            invariant
                i <= self.children.len(),
                self.node_fits(source@),
                forall|j: int| 0 <= j < i ==> (#[trigger] self.children@[j]).fits(source@),
            decreases self.children.len() - i,
        {
            if !self.children[i].check_fits(source) {
                return false;
            }
            i = i + 1;
        }
        true
    }

    /// The source text of the node.
    pub fn source_text(&self, source: &str) -> (text: String)
        requires
            self.node_fits(source@),
        ensures
            text@ == self.text(source@),
    {
        slice(source, self.start_byte, self.end_byte)
    }
}

/// The children of a tree that fits the source fit it too.
pub proof fn lemma_child_fits(node: SyntaxNode, source: Seq<char>, i: int)
    requires
        node.fits(source),
        0 <= i < node.children@.len(),
    ensures
        node.children@[i].fits(source),
        node.children@[i].node_fits(source),
        node.node_fits(source),
{
}

/// What walking the children one by one makes of `st`.
pub open spec fn fold_children<S>(
    children: Seq<SyntaxNode>,
    count: nat,
    st: S,
    step: spec_fn(S, SyntaxNode) -> S,
) -> S
    decreases count,
{
    if count == 0 {
        st
    } else {
        step(fold_children(children, (count - 1) as nat, st, step), children[count - 1])
    }
}


/// The values of the first `count` trees are as many, each the value of
/// the tree at its position.
pub proof fn lemma_shapes(nodes: Seq<SyntaxNode>, count: nat)
    requires
        count <= nodes.len(),
    ensures
        shapes(nodes, count).len() == count,
        forall|i: int| 0 <= i < count ==> (#[trigger] shapes(nodes, count)[i]) == nodes[i].shape(),
    decreases count,
{
    if count > 0 {
        lemma_shapes(nodes, (count - 1) as nat);
    }
}

/// A tree is nested as deep as its value.
pub proof fn lemma_depth_of_shape(node: SyntaxNode, depth: nat)
    ensures
        node.within_depth(depth) == node.shape().nested_within(depth),
    decreases depth,
{
    lemma_shapes(node.children@, node.children@.len());
    if depth > 0 {
        assert forall|i: int| 0 <= i < node.children@.len() implies (
        #[trigger] node.children@[i]).within_depth((depth - 1) as nat)
            == node.shape().children[i].nested_within((depth - 1) as nat) by {
            lemma_depth_of_shape(node.children@[i], (depth - 1) as nat);
        }
    }
}

} // verus!
