//! The store's lookups: projects in listing order, project status, the
//! node at a position, symbols by name, and the nodes that edges lead to.

use vstd::prelude::*;

use crate::seqs::{
    any_match, ascending, find_first, lemma_filter_map_step, lemma_filter_prefix,
    lemma_filter_step, lemma_filter_twice, lemma_first_absent, lemma_first_found,
    lemma_insert_to_multiset, none_match,
};
use crate::storage::database::Database;
use crate::storage::error::StoreError;
use crate::storage::models::{
    EdgeView, FileRecord, NodeRecord, NodeView, ProjectRecord, ProjectStatus, ProjectStatusView,
    ProjectView,
};
use crate::storage::state::{file_has_id, file_of_project, node_has_id, StoreView};
use crate::text::{
    chars_contain, chars_le, contains_seq, lemma_text_le_total, lemma_text_le_transitive,
    same_text, text_le, to_chars,
};

verus! {

/// The node kind of a use of a name that awaits resolution.
pub open spec fn kind_reference() -> Seq<char> {
    "reference"@
}

/// The edge kind that links a use of a name to its definition.
pub open spec fn kind_references() -> Seq<char> {
    "references"@
}

/// The edge kind that links a caller to what it calls.
pub open spec fn kind_calls() -> Seq<char> {
    "calls"@
}

/// The status word of a project whose graph can be queried.
pub open spec fn status_ready() -> Seq<char> {
    "ready"@
}

/// The node kinds that can be the definition a name refers to.
pub open spec fn is_definition_kind(kind: Seq<char>) -> bool {
    ||| kind == "class"@
    ||| kind == "method"@
    ||| kind == "function"@
    ||| kind == "interface"@
    ||| kind == "struct"@
    ||| kind == "field"@
    ||| kind == "variable"@
}

/// The node's span contains the position. Both ends are inclusive; on the
/// first line the column must not lie before the start column, on the last
/// line not after the end column.
pub open spec fn covers(n: NodeView, line: u32, column: u32) -> bool {
    &&& n.start_line <= line <= n.end_line
    &&& (n.start_line < line || n.start_column <= column)
    &&& (n.end_line > line || n.end_column >= column)
}

/// `a` spans less than `b`: fewer lines, or as many lines and fewer columns.
pub open spec fn span_less(a: NodeView, b: NodeView) -> bool {
    let al = a.end_line - a.start_line;
    let bl = b.end_line - b.start_line;
    let ac = a.end_column - a.start_column;
    let bc = b.end_column - b.start_column;
    al < bl || (al == bl && ac < bc)
}

/// The node belongs to the file and its span contains the position.
pub open spec fn node_covering(file_id: i64, line: u32, column: u32) -> spec_fn(NodeView) -> bool {
    |n: NodeView| n.file_id == file_id && covers(n, line, column)
}

/// `i` is the position of the candidate with the least span; among
/// candidates of equal span, of the first.
pub open spec fn is_innermost(s: Seq<NodeView>, cand: spec_fn(NodeView) -> bool, i: int) -> bool {
    &&& 0 <= i < s.len()
    &&& cand(s[i])
    &&& forall|j: int| 0 <= j < i && cand(#[trigger] s[j]) ==> span_less(s[i], s[j])
    &&& forall|j: int| i < j < s.len() && cand(#[trigger] s[j]) ==> !span_less(s[j], s[i])
}

/// The candidate with the least span, if there is a candidate.
pub open spec fn innermost(s: Seq<NodeView>, cand: spec_fn(NodeView) -> bool) -> Option<NodeView> {
    if exists|i: int| is_innermost(s, cand, i) {
        Some(s[choose|i: int| is_innermost(s, cand, i)])
    } else {
        None
    }
}

/// `i` is the position of the innermost candidate among the first `k` nodes.
pub open spec fn is_innermost_in(
    s: Seq<NodeView>,
    cand: spec_fn(NodeView) -> bool,
    k: int,
    i: int,
) -> bool {
    &&& 0 <= i < k
    &&& cand(s[i])
    &&& forall|j: int| 0 <= j < i && cand(#[trigger] s[j]) ==> span_less(s[i], s[j])
    &&& forall|j: int| i < j < k && cand(#[trigger] s[j]) ==> !span_less(s[j], s[i])
}

/// There is at most one innermost candidate.
pub proof fn lemma_innermost_found(s: Seq<NodeView>, cand: spec_fn(NodeView) -> bool, i: int)
    requires
        is_innermost(s, cand, i),
    ensures
        innermost(s, cand) == Some(s[i]),
{
    let k = choose|k: int| is_innermost(s, cand, k);
    if k < i {
        assert(span_less(s[i], s[k]));
        assert(!span_less(s[i], s[k]));
    }
    if i < k {
        assert(span_less(s[k], s[i]));
        assert(!span_less(s[k], s[i]));
    }
}

/// Without a candidate there is no innermost candidate.
pub proof fn lemma_innermost_absent(s: Seq<NodeView>, cand: spec_fn(NodeView) -> bool)
    requires
        none_match(s, cand),
    ensures
        innermost(s, cand) is None,
{
    if exists|i: int| is_innermost(s, cand, i) {
        let k = choose|k: int| is_innermost(s, cand, k);
        assert(!cand(s[k]));
    }
}

/// Among the first `k` nodes there is an innermost candidate if there is a
/// candidate.
pub proof fn lemma_innermost_exists(s: Seq<NodeView>, cand: spec_fn(NodeView) -> bool, k: int)
    requires
        0 <= k <= s.len(),
    ensures
        (exists|j: int| 0 <= j < k && cand(#[trigger] s[j])) ==> exists|i: int|
            is_innermost_in(s, cand, k, i),
    decreases k,
{
    if k > 0 {
        let before = k - 1;
        lemma_innermost_exists(s, cand, before);
        if exists|j: int| 0 <= j < k && cand(#[trigger] s[j]) {
            if exists|j: int| 0 <= j < before && cand(#[trigger] s[j]) {
                let b = choose|b: int| is_innermost_in(s, cand, before, b);
                if cand(s[k - 1]) && span_less(s[k - 1], s[b]) {
                    assert(is_innermost_in(s, cand, k, k - 1));
                } else {
                    assert(is_innermost_in(s, cand, k, b));
                }
            } else {
                assert(cand(s[k - 1]));
                assert(is_innermost_in(s, cand, k, k - 1));
            }
        }
    }
}

/// Where there is a candidate, there is an innermost one, and no candidate
/// spans less than it: of an outer and an inner node that both contain a
/// position, the outer one is never the node found.
pub proof fn lemma_innermost_least(s: Seq<NodeView>, cand: spec_fn(NodeView) -> bool, j: int)
    requires
        0 <= j < s.len(),
        cand(s[j]),
    ensures
        innermost(s, cand) matches Some(n) && cand(n) && !span_less(s[j], n),
{
    let all = s.len() as int;
    lemma_innermost_exists(s, cand, all);
    let i = choose|i: int| is_innermost_in(s, cand, all, i);
    assert(is_innermost(s, cand, i));
    lemma_innermost_found(s, cand, i);
}

/// The edge is of this kind and starts at the node.
pub open spec fn edge_out(node_id: i64, kind: Seq<char>) -> spec_fn(EdgeView) -> bool {
    |e: EdgeView| e.source_id == node_id && e.edge_type == kind
}

/// The edge is of this kind and ends at the node.
pub open spec fn edge_in(node_id: i64, kind: Seq<char>) -> spec_fn(EdgeView) -> bool {
    |e: EdgeView| e.target_id == node_id && e.edge_type == kind
}

/// Identifier and name of a node.
pub open spec fn id_and_name() -> spec_fn(NodeView) -> (i64, Seq<char>) {
    |n: NodeView| (n.id, n.name)
}

/// The node is of this kind.
pub open spec fn of_kind(kind: Seq<char>) -> spec_fn(NodeView) -> bool {
    |n: NodeView| n.node_type == kind
}

/// The projects are in the order of a listing: by name, and projects of
/// the same name by identifier.
pub open spec fn listed(r: Seq<ProjectView>) -> bool {
    forall|i: int, j: int|
        0 <= i < j < r.len() ==> text_le((#[trigger] r[i]).name, (#[trigger] r[j]).name) && (r[i].name
            == r[j].name ==> r[i].id < r[j].id)
}

impl StoreView {
    /// The node belongs to a file of the project.
    pub open spec fn node_in_project(self, n: NodeView, project_id: i64) -> bool {
        match self.file_by_id(n.file_id) {
            Some(f) => f.project_id == project_id,
            None => false,
        }
    }

    /// The innermost node of the file at `path` whose span contains the
    /// position.
    pub open spec fn node_at(self, project_id: i64, path: Seq<char>, line: u32, column: u32)
        -> Option<NodeView> {
        match self.file_by_path(project_id, path) {
            Some(f) => innermost(self.nodes, node_covering(f.id, line, column)),
            None => None,
        }
    }

    /// The node belongs to the project and has this name or qualified name.
    pub open spec fn symbol_named(self, project_id: i64, name: Seq<char>) -> spec_fn(
        NodeView,
    ) -> bool {
        |n: NodeView|
            self.node_in_project(n, project_id) && (n.name == name || n.qualified_name == Some(
                name,
            ))
    }

    /// The first node of the project whose name or qualified name is `name`.
    pub open spec fn symbol_by_name(self, project_id: i64, name: Seq<char>) -> Option<NodeView> {
        find_first(self.nodes, self.symbol_named(project_id, name))
    }

    /// The node belongs to the project, its name or qualified name contains the
    /// query, and it is of the kind if one is given.
    pub open spec fn symbol_matching(
        self,
        project_id: i64,
        query: Seq<char>,
        kind: Option<Seq<char>>,
    ) -> spec_fn(NodeView) -> bool {
        |n: NodeView|
            {
                &&& self.node_in_project(n, project_id)
                &&& (contains_seq(n.name, query) || (n.qualified_name matches Some(q)
                    && contains_seq(q, query)))
                &&& (kind matches Some(k) ==> n.node_type == k)
            }
    }

    /// The nodes of the project whose name or qualified name contains
    /// `query`, of the given kind if one is given, cut off after `limit`.
    pub open spec fn search(
        self,
        project_id: i64,
        query: Seq<char>,
        kind: Option<Seq<char>>,
        limit: u32,
    ) -> Seq<NodeView> {
        let all = self.nodes.filter(self.symbol_matching(project_id, query, kind));
        if all.len() <= limit {
            all
        } else {
            all.take(limit as int)
        }
    }

    /// The node has an outgoing edge of kind `references`.
    pub open spec fn is_resolved(self, node_id: i64) -> bool {
        any_match(self.edges, edge_out(node_id, kind_references()))
    }

    /// The node is a reference of the project that is linked to no definition.
    pub open spec fn unresolved(self, project_id: i64) -> spec_fn(NodeView) -> bool {
        |n: NodeView|
            self.node_in_project(n, project_id) && n.node_type == kind_reference()
                && !self.is_resolved(n.id)
    }

    /// Identifier and name of each `reference` node of the project that has
    /// no outgoing `references` edge.
    pub open spec fn unresolved_references(self, project_id: i64) -> Seq<(i64, Seq<char>)> {
        self.nodes.filter(self.unresolved(project_id)).map_values(id_and_name())
    }

    /// The node belongs to the project, has this name, and is of a definition kind.
    pub open spec fn defines(self, project_id: i64, name: Seq<char>) -> spec_fn(NodeView) -> bool {
        |n: NodeView|
            self.node_in_project(n, project_id) && n.name == name && is_definition_kind(
                n.node_type,
            )
    }

    /// Identifier of the first node of the project that can define `name`.
    pub open spec fn definition_by_name(self, project_id: i64, name: Seq<char>) -> Option<i64> {
        match find_first(self.nodes, self.defines(project_id, name)) {
            Some(n) => Some(n.id),
            None => None,
        }
    }

    /// The target of the node's first outgoing `references` edge.
    pub open spec fn reference_target(self, node_id: i64) -> Option<NodeView> {
        match find_first(self.edges, edge_out(node_id, kind_references())) {
            Some(e) => self.node_by_id(e.target_id),
            None => None,
        }
    }

    /// The source node of an edge of this kind into the node.
    pub open spec fn source_if_into(self, node_id: i64, kind: Seq<char>) -> spec_fn(
        EdgeView,
    ) -> Option<NodeView> {
        |e: EdgeView|
            if edge_in(node_id, kind)(e) {
                self.node_by_id(e.source_id)
            } else {
                None
            }
    }

    /// The target node of an edge of this kind out of the node.
    pub open spec fn target_if_from(self, node_id: i64, kind: Seq<char>) -> spec_fn(
        EdgeView,
    ) -> Option<NodeView> {
        |e: EdgeView|
            if edge_out(node_id, kind)(e) {
                self.node_by_id(e.target_id)
            } else {
                None
            }
    }

    /// The source node of each edge of the given kind into the node, in edge
    /// order.
    pub open spec fn sources_into(self, node_id: i64, kind: Seq<char>) -> Seq<NodeView> {
        self.edges.filter_map(self.source_if_into(node_id, kind))
    }

    /// The target node of each edge of the given kind out of the node, in
    /// edge order.
    pub open spec fn targets_from(self, node_id: i64, kind: Seq<char>) -> Seq<NodeView> {
        self.edges.filter_map(self.target_if_from(node_id, kind))
    }

    /// The node belongs to a file of the project.
    pub open spec fn node_of_project(self, project_id: i64) -> spec_fn(NodeView) -> bool {
        |n: NodeView| self.node_in_project(n, project_id)
    }

    /// The edge starts at a node of the project.
    pub open spec fn edge_of_project(self, project_id: i64) -> spec_fn(EdgeView) -> bool {
        |e: EdgeView|
            match self.node_by_id(e.source_id) {
                Some(n) => self.node_in_project(n, project_id),
                None => false,
            }
    }

    /// The number of files of a project.
    pub open spec fn file_count(self, project_id: i64) -> nat {
        self.files.filter(file_of_project(project_id)).len()
    }

    /// The number of nodes in the files of a project.
    pub open spec fn node_count(self, project_id: i64) -> nat {
        self.nodes.filter(self.node_of_project(project_id)).len()
    }

    /// The number of edges that start at a node of a project.
    pub open spec fn edge_count(self, project_id: i64) -> nat {
        self.edges.filter(self.edge_of_project(project_id)).len()
    }

    /// The counts of a project fit a status report.
    pub open spec fn countable(self, project_id: i64) -> bool {
        &&& self.file_count(project_id) <= u32::MAX
        &&& self.node_count(project_id) <= u32::MAX
        &&& self.edge_count(project_id) <= u32::MAX
    }

    /// The status report of a project.
    pub open spec fn status_of(self, p: ProjectView) -> ProjectStatusView {
        ProjectStatusView {
            project_id: p.id,
            name: p.name,
            root_path: p.root_path,
            status: status_ready(),
            files_parsed: self.file_count(p.id) as u32,
            nodes_count: self.node_count(p.id) as u32,
            edges_count: self.edge_count(p.id) as u32,
            last_updated: p.updated_at,
        }
    }
}

/// A kind filter restricts a search: before the limit cuts it off, what is
/// found under a kind is found without it, in the same order, and is of
/// that kind.
pub proof fn lemma_kind_filter_restricts(
    s: StoreView,
    project_id: i64,
    query: Seq<char>,
    kind: Seq<char>,
)
    ensures
        s.nodes.filter(s.symbol_matching(project_id, query, Some(kind))) == s.nodes.filter(
            s.symbol_matching(project_id, query, None),
        ).filter(of_kind(kind)),
{
    lemma_filter_twice(
        s.nodes,
        s.symbol_matching(project_id, query, None),
        of_kind(kind),
        s.symbol_matching(project_id, query, Some(kind)),
    );
}

/// The project that the file with this identifier belongs to.
fn project_of_file(files: &Vec<FileRecord>, file_id: i64) -> (r: Option<i64>)
    ensures
        r == match find_first(files.deep_view(), file_has_id(file_id)) {
            Some(f) => Some(f.project_id),
            None => None,
        },
{
    let ghost p = file_has_id(file_id);
    let mut i: usize = 0;
    while i < files.len()
        invariant
            i <= files.len(),
            p == file_has_id(file_id),
            forall|j: int| 0 <= j < i ==> !p(#[trigger] files.deep_view()[j]),
        decreases files.len() - i,
    {
        if files[i].id == file_id {
            proof {
                assert(p(files.deep_view()[i as int]));
                lemma_first_found(files.deep_view(), p, i as int);
            }
            return Some(files[i].project_id);
        }
        i = i + 1;
    }
    proof {
        lemma_first_absent(files.deep_view(), p);
    }
    None
}

/// The row of the node with this identifier.
fn node_position(nodes: &Vec<NodeRecord>, id: i64) -> (r: Option<usize>)
    ensures
        match r {
            Some(i) => i < nodes.len() && find_first(nodes.deep_view(), node_has_id(id)) == Some(
                nodes.deep_view()[i as int],
            ),
            None => find_first(nodes.deep_view(), node_has_id(id)) is None,
        },
{
    let ghost p = node_has_id(id);
    let mut i: usize = 0;
    while i < nodes.len()
        invariant
            i <= nodes.len(),
            p == node_has_id(id),
            forall|j: int| 0 <= j < i ==> !p(#[trigger] nodes.deep_view()[j]),
        decreases nodes.len() - i,
    {
        if nodes[i].id == id {
            proof {
                assert(p(nodes.deep_view()[i as int]));
                lemma_first_found(nodes.deep_view(), p, i as int);
            }
            return Some(i);
        }
        i = i + 1;
    }
    proof {
        lemma_first_absent(nodes.deep_view(), p);
    }
    None
}

/// Whether the node's span contains the position.
fn node_covers(n: &NodeRecord, line: u32, column: u32) -> (b: bool)
    ensures
        b == covers(n@, line, column),
{
    n.start_line <= line && line <= n.end_line && (n.start_line < line || n.start_column
        <= column) && (n.end_line > line || n.end_column >= column)
}

/// Whether `a` spans less than `b`.
fn node_span_less(a: &NodeRecord, b: &NodeRecord) -> (r: bool)
    ensures
        r == span_less(a@, b@),
{
    let al: i64 = a.end_line as i64 - a.start_line as i64;
    let bl: i64 = b.end_line as i64 - b.start_line as i64;
    let ac: i64 = a.end_column as i64 - a.start_column as i64;
    let bc: i64 = b.end_column as i64 - b.start_column as i64;
    al < bl || (al == bl && ac < bc)
}

/// Whether the name or the qualified name contains the query.
fn name_contains(n: &NodeRecord, query: &Vec<char>) -> (b: bool)
    ensures
        b == (contains_seq(n@.name, query@) || (n@.qualified_name matches Some(q) && contains_seq(
            q,
            query@,
        ))),
{
    let name = to_chars(n.name.as_str());
    if chars_contain(&name, query) {
        return true;
    }
    match &n.qualified_name {
        Some(q) => {
            let qualified = to_chars(q.as_str());
            chars_contain(&qualified, query)
        },
        None => false,
    }
}

/// Whether the node's name or qualified name is `name`.
fn name_is(n: &NodeRecord, name: &str) -> (b: bool)
    ensures
        b == (n@.name == name@ || n@.qualified_name == Some(name@)),
{
    if same_text(n.name.as_str(), name) {
        return true;
    }
    match &n.qualified_name {
        Some(q) => same_text(q.as_str(), name),
        None => false,
    }
}

/// Whether the project's name comes no later than `name`.
fn named_no_later(project: &ProjectRecord, name: &Vec<char>) -> (b: bool)
    ensures
        b == text_le(project@.name, name@),
{
    let own = to_chars(project.name.as_str());
    chars_le(&own, name)
}

/// Whether a node of this kind can be the definition a name refers to.
pub fn definition_kind(kind: &str) -> (b: bool)
    ensures
        b == is_definition_kind(kind@),
{
    same_text(kind, "class") || same_text(kind, "method") || same_text(kind, "function")
        || same_text(kind, "interface") || same_text(kind, "struct") || same_text(kind, "field")
        || same_text(kind, "variable")
}

impl Database {
    /// All projects, ordered by name.
    pub fn list_projects(&self) -> (r: Result<Vec<ProjectRecord>, StoreError>)
        ensures
            r matches Ok(found) && found.deep_view().to_multiset() == self@.projects.to_multiset()
                && listed(found.deep_view()),
    {
        self.well_formed();
        let rows = self.project_rows();
        let ghost all = self@.projects;
        let mut out: Vec<ProjectRecord> = Vec::new();
        let mut i: usize = 0;
        assert(out.deep_view() =~= all.take(0));
        while i < rows.len()
            invariant
                i <= rows.len(),
                rows.deep_view() == all,
                ascending(all, crate::storage::state::project_key()),
                out.deep_view().to_multiset() == all.take(i as int).to_multiset(),
                listed(out.deep_view()),
                forall|k: int|
                    0 <= k < out.len() ==> exists|m: int|
                        0 <= m < i && (#[trigger] out.deep_view()[k]) == all[m],
            decreases rows.len() - i,
        {
            let ghost prior = out.deep_view();
            let ghost p = all[i as int];
            let name = to_chars(rows[i].name.as_str());
            let mut j: usize = 0;
            while j < out.len() && named_no_later(&out[j], &name)
                invariant
                    j <= out.len(),
                    out.deep_view() == prior,
                    name@ == p.name,
                    forall|k: int| 0 <= k < j ==> text_le((#[trigger] prior[k]).name, p.name),
                decreases out.len() - j,
            {
                j = j + 1;
            }
            out.insert(j, rows[i].clone());
            proof {
                let next = out.deep_view();
                assert(next =~= prior.insert(j as int, p));
                lemma_insert_to_multiset(prior, j as int, p);
                assert(all.take(i + 1) =~= all.take(i as int).push(p));
                vstd::seq_lib::to_multiset_build(all.take(i as int), p);
                assert forall|k: int| 0 <= k < next.len() implies exists|m: int|
                    0 <= m < i + 1 && (#[trigger] next[k]) == all[m] by {
                    if k < j {
                        assert(next[k] == prior[k]);
                        let m = choose|m: int| 0 <= m < i && prior[k] == all[m];
                        assert(next[k] == all[m]);
                    } else if k == j {
                        assert(next[k] == all[i as int]);
                    } else {
                        assert(next[k] == prior[k - 1]);
                        let m = choose|m: int| 0 <= m < i && prior[k - 1] == all[m];
                        assert(next[k] == all[m]);
                    }
                }
                assert forall|a: int, b: int| 0 <= a < b < next.len() implies text_le(
                    (#[trigger] next[a]).name,
                    (#[trigger] next[b]).name,
                ) && (next[a].name == next[b].name ==> next[a].id < next[b].id) by {
                    if b < j {
                        assert(next[a] == prior[a] && next[b] == prior[b]);
                    } else if b == j {
                        assert(next[a] == prior[a]);
                        let m = choose|m: int| 0 <= m < i && prior[a] == all[m];
                        assert(crate::storage::state::project_key()(all[m])
                            < crate::storage::state::project_key()(all[i as int]));
                    } else if a == j {
                        assert(next[b] == prior[b - 1]);
                        assert(!text_le(prior[j as int].name, p.name));
                        lemma_text_le_total(prior[j as int].name, p.name);
                        if j < b - 1 {
                            assert(text_le(prior[j as int].name, prior[b - 1].name));
                        } else {
                            lemma_text_le_total(prior[j as int].name, prior[j as int].name);
                        }
                        lemma_text_le_transitive(p.name, prior[j as int].name, prior[b - 1].name);
                    } else if a < j {
                        assert(next[a] == prior[a] && next[b] == prior[b - 1]);
                    } else {
                        assert(next[a] == prior[a - 1] && next[b] == prior[b - 1]);
                    }
                }
            }
            i = i + 1;
        }
        assert(all.take(i as int) =~= all);
        Ok(out)
    }

    fn count_files(&self, project_id: i64) -> (n: usize)
        ensures
            n == self@.file_count(project_id),
    {
        let files = self.file_rows();
        let ghost p = file_of_project(project_id);
        let mut n: usize = 0;
        let mut i: usize = 0;
        while i < files.len()
            invariant
                i <= files.len(),
                files.deep_view() == self@.files,
                p == file_of_project(project_id),
                n == self@.files.take(i as int).filter(p).len(),
                n <= i,
            decreases files.len() - i,
        {
            proof {
                lemma_filter_step(self@.files, p, i as int);
            }
            if files[i].project_id == project_id {
                n = n + 1;
            }
            i = i + 1;
        }
        assert(self@.files.take(i as int) =~= self@.files);
        n
    }

    fn count_nodes(&self, project_id: i64) -> (n: usize)
        ensures
            n == self@.node_count(project_id),
    {
        let nodes = self.node_rows();
        let files = self.file_rows();
        let ghost p = self@.node_of_project(project_id);
        let mut n: usize = 0;
        let mut i: usize = 0;
        while i < nodes.len()
            invariant
                i <= nodes.len(),
                nodes.deep_view() == self@.nodes,
                files.deep_view() == self@.files,
                p == self@.node_of_project(project_id),
                n == self@.nodes.take(i as int).filter(p).len(),
                n <= i,
            decreases nodes.len() - i,
        {
            proof {
                lemma_filter_step(self@.nodes, p, i as int);
            }
            if project_of_file(files, nodes[i].file_id) == Some(project_id) {
                n = n + 1;
            }
            i = i + 1;
        }
        assert(self@.nodes.take(i as int) =~= self@.nodes);
        n
    }

    fn count_edges(&self, project_id: i64) -> (n: usize)
        ensures
            n == self@.edge_count(project_id),
    {
        let edges = self.edge_rows();
        let nodes = self.node_rows();
        let files = self.file_rows();
        let ghost p = self@.edge_of_project(project_id);
        let mut n: usize = 0;
        let mut i: usize = 0;
        while i < edges.len()
            invariant
                i <= edges.len(),
                edges.deep_view() == self@.edges,
                nodes.deep_view() == self@.nodes,
                files.deep_view() == self@.files,
                p == self@.edge_of_project(project_id),
                n == self@.edges.take(i as int).filter(p).len(),
                n <= i,
            decreases edges.len() - i,
        {
            proof {
                lemma_filter_step(self@.edges, p, i as int);
            }
            let inside = match node_position(nodes, edges[i].source_id) {
                Some(k) => project_of_file(files, nodes[k].file_id) == Some(project_id),
                None => false,
            };
            if inside {
                n = n + 1;
            }
            i = i + 1;
        }
        assert(self@.edges.take(i as int) =~= self@.edges);
        n
    }

    /// The status report of a project: its files, nodes and edges counted.
    /// There is none for a project that does not exist; a count beyond 32
    /// bits is an error.
    pub fn get_project_status(&self, project_id: i64) -> (r: Result<
        Option<ProjectStatus>,
        StoreError,
    >)
        ensures
            match self@.project_by_id(project_id) {
                None => r matches Ok(None),
                Some(p) => if self@.countable(project_id) {
                    r matches Ok(Some(status)) && status@ == self@.status_of(p)
                } else {
                    r == Err::<Option<ProjectStatus>, StoreError>(StoreError::CountOverflow)
                },
            },
    {
        let project = match self.get_project(project_id) {
            Ok(Some(p)) => p,
            Ok(None) => {
                return Ok(None);
            },
            Err(e) => {
                return Err(e);
            },
        };
        let files = self.count_files(project_id);
        let nodes = self.count_nodes(project_id);
        let edges = self.count_edges(project_id);
        let limit: usize = u32::MAX as usize;
        if files > limit || nodes > limit || edges > limit {
            return Err(StoreError::CountOverflow);
        }
        Ok(
            Some(
                ProjectStatus {
                    project_id: project.id,
                    name: project.name,
                    root_path: project.root_path,
                    status: "ready".to_owned(),
                    files_parsed: files as u32,
                    nodes_count: nodes as u32,
                    edges_count: edges as u32,
                    last_updated: project.updated_at,
                },
            ),
        )
    }

    /// The innermost node of a file whose span contains a position.
    pub fn find_node_at_position(&self, project_id: i64, file_path: &str, line: u32, column: u32)
        -> (r: Result<Option<NodeRecord>, StoreError>)
        ensures
            r matches Ok(found) && found.deep_view() == self@.node_at(
                project_id,
                file_path@,
                line,
                column,
            ),
    {
        let file = match self.get_file_by_path(project_id, file_path) {
            Ok(Some(f)) => f,
            _ => {
                return Ok(None);
            },
        };
        let nodes = self.node_rows();
        let ghost s = self@.nodes;
        let ghost cand = node_covering(file.id, line, column);
        let mut best: Option<usize> = None;
        let mut i: usize = 0;
        while i < nodes.len()
            invariant
                i <= nodes.len(),
                nodes.deep_view() == s,
                cand == node_covering(file.id, line, column),
                match best {
                    Some(b) => {
                        &&& b < i
                        &&& cand(s[b as int])
                        &&& forall|j: int|
                            0 <= j < b && cand(#[trigger] s[j]) ==> span_less(s[b as int], s[j])
                        &&& forall|j: int|
                            b < j < i && cand(#[trigger] s[j]) ==> !span_less(s[j], s[b as int])
                    },
                    None => forall|j: int| 0 <= j < i ==> !cand(#[trigger] s[j]),
                },
            decreases nodes.len() - i,
        {
            if nodes[i].file_id == file.id && node_covers(&nodes[i], line, column) {
                match best {
                    Some(b) => {
                        if node_span_less(&nodes[i], &nodes[b]) {
                            best = Some(i);
                        }
                    },
                    None => {
                        best = Some(i);
                    },
                }
            }
            i = i + 1;
        }
        match best {
            Some(b) => {
                proof {
                    lemma_innermost_found(s, cand, b as int);
                }
                Ok(Some(nodes[b].clone()))
            },
            None => {
                proof {
                    lemma_innermost_absent(s, cand);
                }
                Ok(None)
            },
        }
    }

    /// The first node of a project whose name or qualified name is `name`.
    pub fn find_symbol_by_name(&self, project_id: i64, name: &str) -> (r: Result<
        Option<NodeRecord>,
        StoreError,
    >)
        ensures
            r matches Ok(found) && found.deep_view() == self@.symbol_by_name(project_id, name@),
    {
        let nodes = self.node_rows();
        let files = self.file_rows();
        let ghost s = self@.nodes;
        let ghost p = self@.symbol_named(project_id, name@);
        let mut i: usize = 0;
        while i < nodes.len()
            invariant
                i <= nodes.len(),
                nodes.deep_view() == s,
                files.deep_view() == self@.files,
                s == self@.nodes,
                p == self@.symbol_named(project_id, name@),
                forall|j: int| 0 <= j < i ==> !p(#[trigger] s[j]),
            decreases nodes.len() - i,
        {
            if name_is(&nodes[i], name) && project_of_file(files, nodes[i].file_id) == Some(
                project_id,
            ) {
                proof {
                    lemma_first_found(s, p, i as int);
                }
                return Ok(Some(nodes[i].clone()));
            }
            i = i + 1;
        }
        proof {
            lemma_first_absent(s, p);
        }
        Ok(None)
    }

    /// The nodes of a project whose name or qualified name contains `query`,
    /// of kind `symbol_type` if one is given, at most `limit` of them.
    pub fn search_symbols(
        &self,
        project_id: i64,
        query: &str,
        symbol_type: Option<&str>,
        limit: u32,
    ) -> (r: Result<Vec<NodeRecord>, StoreError>)
        ensures
            r matches Ok(found) && found.deep_view() == self@.search(
                project_id,
                query@,
                symbol_type.deep_view(),
                limit,
            ),
    {
        let nodes = self.node_rows();
        let files = self.file_rows();
        let wanted = to_chars(query);
        let ghost s = self@.nodes;
        let ghost p = self@.symbol_matching(project_id, query@, symbol_type.deep_view());
        let mut out: Vec<NodeRecord> = Vec::new();
        let mut i: usize = 0;
        while i < nodes.len() && out.len() < limit as usize
            invariant
                i <= nodes.len(),
                nodes.deep_view() == s,
                files.deep_view() == self@.files,
                wanted@ == query@,
                p == self@.symbol_matching(project_id, query@, symbol_type.deep_view()),
                out.deep_view() == s.take(i as int).filter(p),
                out.len() <= limit,
            decreases nodes.len() - i,
        {
            let kind_fits = match symbol_type {
                Some(k) => same_text(nodes[i].node_type.as_str(), k),
                None => true,
            };
            proof {
                lemma_filter_step(s, p, i as int);
            }
            if kind_fits && name_contains(&nodes[i], &wanted) && project_of_file(
                files,
                nodes[i].file_id,
            ) == Some(project_id) {
                let ghost prior = out.deep_view();
                out.push(nodes[i].clone());
                assert(out.deep_view() =~= prior.push(s[i as int]));
            }
            i = i + 1;
        }
        proof {
            lemma_filter_prefix(s, p, i as int);
            if i == nodes.len() {
                assert(s.take(i as int) =~= s);
            }
        }
        Ok(out)
    }

    /// Whether the node has an outgoing edge of kind `references`.
    fn has_reference_edge(&self, node_id: i64) -> (b: bool)
        ensures
            b == self@.is_resolved(node_id),
    {
        let edges = self.edge_rows();
        let ghost p = edge_out(node_id, kind_references());
        let mut i: usize = 0;
        while i < edges.len()
            invariant
                i <= edges.len(),
                edges.deep_view() == self@.edges,
                p == edge_out(node_id, kind_references()),
                forall|j: int| 0 <= j < i ==> !p(#[trigger] self@.edges[j]),
            decreases edges.len() - i,
        {
            if edges[i].source_id == node_id && same_text(
                edges[i].edge_type.as_str(),
                "references",
            ) {
                assert(p(self@.edges[i as int]));
                return true;
            }
            i = i + 1;
        }
        false
    }

    /// Identifier and name of each `reference` node of a project that has no
    /// outgoing `references` edge.
    pub fn get_unresolved_references(&self, project_id: i64) -> (r: Result<
        Vec<(i64, String)>,
        StoreError,
    >)
        ensures
            r matches Ok(found) && found.deep_view() == self@.unresolved_references(project_id),
    {
        let nodes = self.node_rows();
        let files = self.file_rows();
        let ghost s = self@.nodes;
        let ghost p = self@.unresolved(project_id);
        let mut out: Vec<(i64, String)> = Vec::new();
        let mut i: usize = 0;
        while i < nodes.len()
            invariant
                i <= nodes.len(),
                nodes.deep_view() == s,
                files.deep_view() == self@.files,
                p == self@.unresolved(project_id),
                out.deep_view() == s.take(i as int).filter(p).map_values(id_and_name()),
            decreases nodes.len() - i,
        {
            proof {
                lemma_filter_step(s, p, i as int);
            }
            if same_text(nodes[i].node_type.as_str(), "reference") && project_of_file(
                files,
                nodes[i].file_id,
            ) == Some(project_id) && !self.has_reference_edge(nodes[i].id) {
                let ghost prior = out.deep_view();
                out.push((nodes[i].id, nodes[i].name.clone()));
                assert(out.deep_view() =~= prior.push(id_and_name()(s[i as int])));
                assert(s.take(i + 1).filter(p).map_values(id_and_name()) =~= s.take(
                    i as int,
                ).filter(p).map_values(id_and_name()).push(id_and_name()(s[i as int])));
            }
            i = i + 1;
        }
        assert(s.take(i as int) =~= s);
        Ok(out)
    }

    /// Identifier of the first node of a project that can define `name`.
    pub fn find_definition_by_name(&self, project_id: i64, name: &str) -> (r: Result<
        Option<i64>,
        StoreError,
    >)
        ensures
            r matches Ok(found) && found == self@.definition_by_name(project_id, name@),
    {
        let nodes = self.node_rows();
        let files = self.file_rows();
        let ghost s = self@.nodes;
        let ghost p = self@.defines(project_id, name@);
        let mut i: usize = 0;
        while i < nodes.len()
            invariant
                i <= nodes.len(),
                nodes.deep_view() == s,
                files.deep_view() == self@.files,
                s == self@.nodes,
                p == self@.defines(project_id, name@),
                forall|j: int| 0 <= j < i ==> !p(#[trigger] s[j]),
            decreases nodes.len() - i,
        {
            if same_text(nodes[i].name.as_str(), name) && definition_kind(
                nodes[i].node_type.as_str(),
            ) && project_of_file(files, nodes[i].file_id) == Some(project_id) {
                proof {
                    lemma_first_found(s, p, i as int);
                }
                return Ok(Some(nodes[i].id));
            }
            i = i + 1;
        }
        proof {
            lemma_first_absent(s, p);
        }
        Ok(None)
    }

    /// The target of the node's first outgoing `references` edge.
    pub fn find_reference_target(&self, node_id: i64) -> (r: Result<
        Option<NodeRecord>,
        StoreError,
    >)
        ensures
            r matches Ok(found) && found.deep_view() == self@.reference_target(node_id),
    {
        let edges = self.edge_rows();
        let nodes = self.node_rows();
        let ghost p = edge_out(node_id, kind_references());
        let mut i: usize = 0;
        while i < edges.len()
            invariant
                i <= edges.len(),
                edges.deep_view() == self@.edges,
                nodes.deep_view() == self@.nodes,
                p == edge_out(node_id, kind_references()),
                forall|j: int| 0 <= j < i ==> !p(#[trigger] self@.edges[j]),
            decreases edges.len() - i,
        {
            if edges[i].source_id == node_id && same_text(
                edges[i].edge_type.as_str(),
                "references",
            ) {
                proof {
                    assert(p(self@.edges[i as int]));
                    lemma_first_found(self@.edges, p, i as int);
                }
                return match node_position(nodes, edges[i].target_id) {
                    Some(k) => Ok(Some(nodes[k].clone())),
                    None => Ok(None),
                };
            }
            i = i + 1;
        }
        proof {
            lemma_first_absent(self@.edges, p);
        }
        Ok(None)
    }

    /// The source node of each edge of the given kind into the node.
    pub fn find_sources(&self, node_id: i64, kind: &str) -> (r: Result<
        Vec<NodeRecord>,
        StoreError,
    >)
        ensures
            r matches Ok(found) && found.deep_view() == self@.sources_into(node_id, kind@),
    {
        let edges = self.edge_rows();
        let nodes = self.node_rows();
        let ghost s = self@.edges;
        let ghost f = self@.source_if_into(node_id, kind@);
        let mut out: Vec<NodeRecord> = Vec::new();
        let mut i: usize = 0;
        while i < edges.len()
            invariant
                i <= edges.len(),
                edges.deep_view() == s,
                nodes.deep_view() == self@.nodes,
                f == self@.source_if_into(node_id, kind@),
                out.deep_view() == s.take(i as int).filter_map(f),
            decreases edges.len() - i,
        {
            proof {
                lemma_filter_map_step(s, f, i as int);
            }
            if edges[i].target_id == node_id && same_text(edges[i].edge_type.as_str(), kind) {
                match node_position(nodes, edges[i].source_id) {
                    Some(k) => {
                        let ghost prior = out.deep_view();
                        out.push(nodes[k].clone());
                        assert(out.deep_view() =~= prior.push(self@.nodes[k as int]));
                    },
                    None => {},
                }
            }
            i = i + 1;
        }
        assert(s.take(i as int) =~= s);
        Ok(out)
    }

    /// The target node of each edge of the given kind out of the node.
    pub fn find_targets(&self, node_id: i64, kind: &str) -> (r: Result<
        Vec<NodeRecord>,
        StoreError,
    >)
        ensures
            r matches Ok(found) && found.deep_view() == self@.targets_from(node_id, kind@),
    {
        let edges = self.edge_rows();
        let nodes = self.node_rows();
        let ghost s = self@.edges;
        let ghost f = self@.target_if_from(node_id, kind@);
        let mut out: Vec<NodeRecord> = Vec::new();
        let mut i: usize = 0;
        while i < edges.len()
            invariant
                i <= edges.len(),
                edges.deep_view() == s,
                nodes.deep_view() == self@.nodes,
                f == self@.target_if_from(node_id, kind@),
                out.deep_view() == s.take(i as int).filter_map(f),
            decreases edges.len() - i,
        {
            proof {
                lemma_filter_map_step(s, f, i as int);
            }
            if edges[i].source_id == node_id && same_text(edges[i].edge_type.as_str(), kind) {
                match node_position(nodes, edges[i].target_id) {
                    Some(k) => {
                        let ghost prior = out.deep_view();
                        out.push(nodes[k].clone());
                        assert(out.deep_view() =~= prior.push(self@.nodes[k as int]));
                    },
                    None => {},
                }
            }
            i = i + 1;
        }
        assert(s.take(i as int) =~= s);
        Ok(out)
    }

    /// The nodes with a `references` edge into the node.
    pub fn find_all_references(&self, node_id: i64) -> (r: Result<Vec<NodeRecord>, StoreError>)
        ensures
            r matches Ok(found) && found.deep_view() == self@.sources_into(
                node_id,
                kind_references(),
            ),
    {
        self.find_sources(node_id, "references")
    }

    /// The nodes with a `calls` edge into the node.
    pub fn find_callers(&self, node_id: i64) -> (r: Result<Vec<NodeRecord>, StoreError>)
        ensures
            r matches Ok(found) && found.deep_view() == self@.sources_into(node_id, kind_calls()),
    {
        self.find_sources(node_id, "calls")
    }

    /// The nodes that the node has a `calls` edge to.
    pub fn find_callees(&self, node_id: i64) -> (r: Result<Vec<NodeRecord>, StoreError>)
        ensures
            r matches Ok(found) && found.deep_view() == self@.targets_from(node_id, kind_calls()),
    {
        self.find_targets(node_id, "calls")
    }
}

} // verus!
