//! The fragment under construction: nodes in extraction order and links
//! between their positions.

use vstd::prelude::*;

use crate::languages::syntax::{fold_children, SyntaxNode};
use crate::storage::models::{EdgeData, EdgeDataView, NodeData, NodeDataView};
use crate::text::{from_chars, join, to_chars};

verus! {

/// A typed link between two positions of the node list.
#[derive(Debug)]
pub struct Link {
    pub source: usize,
    pub target: usize,
    pub kind: String,
}

/// Mathematical value of a [`Link`].
pub struct LinkView {
    pub source: usize,
    pub target: usize,
    pub kind: Seq<char>,
}

impl View for Link {
    type V = LinkView;

    open spec fn view(&self) -> LinkView {
        LinkView { source: self.source, target: self.target, kind: self.kind@ }
    }
}

impl DeepView for Link {
    type V = LinkView;

    open spec fn deep_view(&self) -> LinkView {
        self@
    }
}

/// Why extraction failed.
#[derive(Debug, Clone, Copy, PartialEq, Eq, Structural)]
pub enum ExtractError {
    /// The fragment has more nodes than 32 bits can count.
    TooLarge,
}

/// The node that a syntax node of the given kind and name becomes.
pub open spec fn node_data(
    kind: Seq<char>,
    name: Seq<char>,
    qualified: Option<Seq<char>>,
    at: SyntaxNode,
    attributes: Option<Seq<char>>,
) -> NodeDataView {
    NodeDataView {
        node_type: kind,
        name,
        qualified_name: qualified,
        start_line: at.start_line(),
        start_column: at.start_col(),
        end_line: at.end_line(),
        end_column: at.end_col(),
        attributes,
    }
}

/// The fragment edge that a link becomes.
pub open spec fn edge_of() -> spec_fn(LinkView) -> EdgeDataView {
    |l: LinkView|
        EdgeDataView {
            source_idx: l.source as u32,
            target_idx: l.target as u32,
            edge_type: l.kind,
            attributes: None,
        }
}

/// The name qualified by the enclosing scope, if there is one.
pub open spec fn qualified(scope: Option<Seq<char>>, name: Seq<char>) -> Seq<char> {
    match scope {
        Some(s) => s + "."@ + name,
        None => name,
    }
}

/// The text without the characters `c` at its start and at its end.
pub open spec fn trimmed(s: Seq<char>, c: char) -> Seq<char>
    decreases s.len(),
{
    if s.len() > 0 && s[0] == c {
        trimmed(s.subrange(1, s.len() as int), c)
    } else {
        trimmed_end(s, c)
    }
}

/// The text without the characters `c` at its end.
pub open spec fn trimmed_end(s: Seq<char>, c: char) -> Seq<char>
    decreases s.len(),
{
    if s.len() > 0 && s[s.len() - 1] == c {
        trimmed_end(s.subrange(0, s.len() - 1), c)
    } else {
        s
    }
}

/// Mathematical value of a [`Collector`].
pub struct Collected {
    pub nodes: Seq<NodeDataView>,
    pub links: Seq<LinkView>,
}

impl Collected {
    /// Nothing gathered.
    pub open spec fn empty() -> Collected {
        Collected { nodes: Seq::empty(), links: Seq::empty() }
    }

    /// Every link joins two positions of the node list.
    pub open spec fn closed(self) -> bool {
        forall|i: int|
            0 <= i < self.links.len() ==> (#[trigger] self.links[i]).source < self.nodes.len()
                && self.links[i].target < self.nodes.len()
    }

    /// With one more node at the end.
    pub open spec fn with_node(self, d: NodeDataView) -> Collected {
        Collected { nodes: self.nodes.push(d), ..self }
    }

    /// With one more link at the end.
    pub open spec fn with_link(self, source: usize, target: usize, kind: Seq<char>) -> Collected {
        Collected { links: self.links.push(LinkView { source, target, kind }), ..self }
    }
}

/// Nodes and links gathered while a syntax tree is walked.
pub struct Collector {
    nodes: Vec<NodeData>,
    links: Vec<Link>,
}

impl View for Collector {
    type V = Collected;

    closed spec fn view(&self) -> Collected {
        Collected { nodes: self.nodes.deep_view(), links: self.links.deep_view() }
    }
}

impl Collector {
    /// A collector that holds nothing.
    pub fn new() -> (c: Collector)
        ensures
            c@ == Collected::empty(),
    {
        let c = Collector { nodes: Vec::new(), links: Vec::new() };
        assert(c.nodes.deep_view() =~= Seq::empty());
        assert(c.links.deep_view() =~= Seq::empty());
        c
    }

    /// The number of nodes gathered.
    pub fn len(&self) -> (n: usize)
        ensures
            n == self@.nodes.len(),
    {
        self.nodes.len()
    }

    /// Appends the node that the syntax node `at` becomes, and returns its
    /// position.
    pub fn add_node(
        &mut self,
        kind: &str,
        name: String,
        qualified_name: Option<String>,
        at: &SyntaxNode,
        attributes: Option<String>,
    ) -> (position: usize)
        requires
            at.start_row < u32::MAX,
            at.start_column < u32::MAX,
            at.end_row < u32::MAX,
            at.end_column < u32::MAX,
        ensures
            position == old(self)@.nodes.len(),
            final(self)@ == old(self)@.with_node(
                node_data(kind@, name@, qualified_name.deep_view(), *at, attributes.deep_view()),
            ),
    {
        let position = self.nodes.len();
        let ghost prior = self.nodes.deep_view();
        let data = NodeData {
            node_type: kind.to_owned(),
            name,
            qualified_name,
            start_line: at.start_row as u32 + 1,
            start_column: at.start_column as u32 + 1,
            end_line: at.end_row as u32 + 1,
            end_column: at.end_column as u32 + 1,
            attributes,
        };
        self.nodes.push(data);
        assert(self.nodes.deep_view() =~= prior.push(data@));
        position
    }

    /// Appends a link between two positions.
    pub fn add_link(&mut self, source: usize, target: usize, kind: &str)
        ensures
            final(self)@ == old(self)@.with_link(source, target, kind@),
    {
        let ghost prior = self.links.deep_view();
        let link = Link { source, target, kind: kind.to_owned() };
        self.links.push(link);
        assert(self.links.deep_view() =~= prior.push(link@));
    }

    /// The fragment gathered: the nodes, and the links as edges between
    /// positions; an error if the positions do not fit 32 bits.
    pub fn finish(self) -> (r: Result<(Vec<NodeData>, Vec<EdgeData>), ExtractError>)
        requires
            self@.closed(),
        ensures
            match r {
                Ok((nodes, edges)) => {
                    &&& nodes.deep_view() == self@.nodes
                    &&& edges.deep_view() == self@.links.map_values(edge_of())
                    &&& self@.nodes.len() <= u32::MAX
                },
                Err(ExtractError::TooLarge) => self@.nodes.len() > u32::MAX,
            },
    {
        if self.nodes.len() > u32::MAX as usize {
            return Err(ExtractError::TooLarge);
        }
        let ghost links = self.links.deep_view();
        let mut edges: Vec<EdgeData> = Vec::new();
        let mut i: usize = 0;
        while i < self.links.len()
            invariant
                i <= self.links.len(),
                links == self.links.deep_view(),
                links == self@.links,
                self@.closed(),
                self.nodes.len() <= u32::MAX,
                edges.deep_view() == links.take(i as int).map_values(edge_of()),
            decreases self.links.len() - i,
        {
            let ghost prior = edges.deep_view();
            assert(self@.links[i as int].source < self@.nodes.len());
            assert(self@.links[i as int].target < self@.nodes.len());
            let edge = EdgeData {
                source_idx: self.links[i].source as u32,
                target_idx: self.links[i].target as u32,
                edge_type: self.links[i].kind.clone(),
                attributes: None,
            };
            edges.push(edge);
            assert(edges.deep_view() =~= prior.push(edge_of()(links[i as int])));
            assert(links.take(i + 1).map_values(edge_of()) =~= prior.push(
                edge_of()(links[i as int]),
            ));
            i = i + 1;
        }
        assert(links.take(i as int) =~= links);
        Ok((self.nodes, edges))
    }
}

/// The name qualified by the enclosing scope, if there is one.
pub fn qualify(scope: &Option<String>, name: &str) -> (r: String)
    ensures
        r@ == qualified(scope.deep_view(), name@),
{
    match scope {
        Some(s) => {
            let head = join(s.as_str(), ".");
            join(head.as_str(), name)
        },
        None => name.to_owned(),
    }
}

/// The text without the characters `c` at its start and at its end.
pub fn trim(s: &str, c: char) -> (r: String)
    ensures
        r@ == trimmed(s@, c),
{
    let chars = to_chars(s);
    assert(chars@.subrange(0, chars.len() as int) =~= chars@);
    let mut start: usize = 0;
    while start < chars.len() && chars[start] == c
        invariant
            start <= chars.len(),
            trimmed(chars@, c) == trimmed(chars@.subrange(start as int, chars.len() as int), c),
        decreases chars.len() - start,
    {
        proof {
            let rest = chars@.subrange(start as int, chars.len() as int);
            assert(rest.subrange(1, rest.len() as int) =~= chars@.subrange(
                start + 1,
                chars.len() as int,
            ));
        }
        start = start + 1;
    }
    proof {
        let rest = chars@.subrange(start as int, chars.len() as int);
        if start < chars.len() {
            assert(rest[0] == chars@[start as int]);
        }
    }
    let mut end: usize = chars.len();
    while end > start && chars[end - 1] == c
        invariant
            start <= end <= chars.len(),
            start < chars.len() ==> chars@[start as int] != c,
            trimmed(chars@, c) == trimmed_end(chars@.subrange(start as int, end as int), c),
        decreases end - start,
    {
        proof {
            let rest = chars@.subrange(start as int, end as int);
            assert(rest.subrange(0, rest.len() - 1) =~= chars@.subrange(start as int, end - 1));
        }
        end = end - 1;
    }
    let mut kept: Vec<char> = Vec::new();
    let mut i: usize = start;
    while i < end
        invariant
            start <= i <= end <= chars.len(),
            kept@ == chars@.subrange(start as int, i as int),
        decreases end - i,
    {
        kept.push(chars[i]);
        assert(chars@.subrange(start as int, i + 1) =~= chars@.subrange(
            start as int,
            i as int,
        ).push(chars@[i as int]));
        i = i + 1;
    }
    from_chars(&kept)
}

/// `b` holds all that `a` holds, at the same positions.
pub open spec fn grown(a: Collected, b: Collected) -> bool {
    &&& a.nodes.len() <= b.nodes.len()
    &&& a.links.len() <= b.links.len()
    &&& forall|i: int| 0 <= i < a.nodes.len() ==> #[trigger] b.nodes[i] == a.nodes[i]
    &&& forall|i: int| 0 <= i < a.links.len() ==> #[trigger] b.links[i] == a.links[i]
}

/// Every step adds to what is gathered.
pub open spec fn growing(step: spec_fn(Collected, SyntaxNode) -> Collected) -> bool {
    forall|out: Collected, node: SyntaxNode| grown(out, #[trigger] step(out, node))
}

/// Steps that add, taken child by child, add.
pub proof fn lemma_fold_grows(
    children: Seq<SyntaxNode>,
    count: nat,
    out: Collected,
    step: spec_fn(Collected, SyntaxNode) -> Collected,
)
    requires
        growing(step),
    ensures
        grown(out, fold_children(children, count, out, step)),
    decreases count,
{
    if count > 0 {
        lemma_fold_grows(children, (count - 1) as nat, out, step);
        let mid = fold_children(children, (count - 1) as nat, out, step);
        assert(grown(mid, step(mid, children[count - 1])));
    }
}

} // verus!
