//! The mathematical value of the store, its invariant, and what each
//! operation makes of it.

use vstd::prelude::*;

use crate::seqs::{
    any_match, ascending, find_first, keys_below, lemma_filter_ascending, lemma_filter_member,
    lemma_first_found, lemma_first_index,
};
use crate::storage::error::StoreError;
use crate::storage::models::{EdgeView, FileView, NodeView, ProjectView};

verus! {

/// The identifier of a project.
pub open spec fn project_key() -> spec_fn(ProjectView) -> i64 {
    |p: ProjectView| p.id
}

/// The identifier of a file.
pub open spec fn file_key() -> spec_fn(FileView) -> i64 {
    |f: FileView| f.id
}

/// The identifier of a node.
pub open spec fn node_key() -> spec_fn(NodeView) -> i64 {
    |n: NodeView| n.id
}

/// The identifier of an edge.
pub open spec fn edge_key() -> spec_fn(EdgeView) -> i64 {
    |e: EdgeView| e.id
}

/// The project has this identifier.
pub open spec fn project_has_id(id: i64) -> spec_fn(ProjectView) -> bool {
    |p: ProjectView| p.id == id
}

/// The project has this root path.
pub open spec fn project_has_root(root: Seq<char>) -> spec_fn(ProjectView) -> bool {
    |p: ProjectView| p.root_path == root
}

/// The project has this name.
pub open spec fn project_has_name(name: Seq<char>) -> spec_fn(ProjectView) -> bool {
    |p: ProjectView| p.name == name
}

/// The file has this identifier.
pub open spec fn file_has_id(id: i64) -> spec_fn(FileView) -> bool {
    |f: FileView| f.id == id
}

/// The file has another identifier.
pub open spec fn file_not_id(id: i64) -> spec_fn(FileView) -> bool {
    |f: FileView| f.id != id
}

/// The file is the one of the project at this path.
pub open spec fn file_at(project_id: i64, path: Seq<char>) -> spec_fn(FileView) -> bool {
    |f: FileView| f.project_id == project_id && f.path == path
}

/// The file belongs to the project.
pub open spec fn file_of_project(project_id: i64) -> spec_fn(FileView) -> bool {
    |f: FileView| f.project_id == project_id
}

/// The node has this identifier.
pub open spec fn node_has_id(id: i64) -> spec_fn(NodeView) -> bool {
    |n: NodeView| n.id == id
}

/// The node belongs to another file.
pub open spec fn node_outside_file(file_id: i64) -> spec_fn(NodeView) -> bool {
    |n: NodeView| n.file_id != file_id
}

/// The node has this identifier and belongs to the file.
pub open spec fn node_is(id: i64, file_id: i64) -> spec_fn(NodeView) -> bool {
    |n: NodeView| n.id == id && n.file_id == file_id
}

/// A project row with its update time replaced if it is the named project.
pub open spec fn touch_row(project_id: i64, now: i64) -> spec_fn(ProjectView) -> ProjectView {
    |p: ProjectView|
        if p.id == project_id {
            ProjectView { updated_at: now, ..p }
        } else {
            p
        }
}

/// The stored form of the `i`-th of a run of nodes inserted from `base` on.
pub open spec fn stored_node(file_id: i64, base: i64) -> spec_fn(int, NodeView) -> NodeView {
    |i: int, n: NodeView| NodeView { id: (base + i) as i64, file_id, ..n }
}

/// The stored form of the `i`-th of a run of edges inserted from `base` on.
pub open spec fn stored_edge(base: i64) -> spec_fn(int, EdgeView) -> EdgeView {
    |i: int, e: EdgeView| e.with_id((base + i) as i64)
}

/// Mathematical value of the store: its four tables, each in ascending
/// identifier order, and the next identifier of each table.
pub struct StoreView {
    pub projects: Seq<ProjectView>,
    pub files: Seq<FileView>,
    pub nodes: Seq<NodeView>,
    pub edges: Seq<EdgeView>,
    pub next_project_id: i64,
    pub next_file_id: i64,
    pub next_node_id: i64,
    pub next_edge_id: i64,
}

impl StoreView {
    /// The store with no rows.
    pub open spec fn empty() -> StoreView {
        StoreView {
            projects: Seq::empty(),
            files: Seq::empty(),
            nodes: Seq::empty(),
            edges: Seq::empty(),
            next_project_id: 1,
            next_file_id: 1,
            next_node_id: 1,
            next_edge_id: 1,
        }
    }

    /// A project has this identifier.
    pub open spec fn has_project(self, id: i64) -> bool {
        any_match(self.projects, project_has_id(id))
    }

    /// A file has this identifier.
    pub open spec fn has_file(self, id: i64) -> bool {
        any_match(self.files, file_has_id(id))
    }

    /// A node has this identifier.
    pub open spec fn has_node(self, id: i64) -> bool {
        any_match(self.nodes, node_has_id(id))
    }

    /// Identifiers are positive, ascending and below the table's counter.
    pub open spec fn ids_wf(self) -> bool {
        &&& ascending(self.projects, project_key())
        &&& ascending(self.files, file_key())
        &&& ascending(self.nodes, node_key())
        &&& ascending(self.edges, edge_key())
        &&& keys_below(self.projects, project_key(), self.next_project_id as int)
        &&& keys_below(self.files, file_key(), self.next_file_id as int)
        &&& keys_below(self.nodes, node_key(), self.next_node_id as int)
        &&& keys_below(self.edges, edge_key(), self.next_edge_id as int)
        &&& 0 < self.next_project_id
        &&& 0 < self.next_file_id
        &&& 0 < self.next_node_id
        &&& 0 < self.next_edge_id
    }

    /// Root paths are unique among projects, and paths among a project's files.
    pub open spec fn unique_wf(self) -> bool {
        &&& forall|i: int, j: int|
            0 <= i < j < self.projects.len() ==> (#[trigger] self.projects[i]).root_path != (
            #[trigger] self.projects[j]).root_path
        &&& forall|i: int, j: int|
            0 <= i < j < self.files.len() ==> !((#[trigger] self.files[i]).project_id == (
            #[trigger] self.files[j]).project_id && self.files[i].path == self.files[j].path)
    }

    /// Every file names a project, every node a file, every edge two nodes.
    pub open spec fn links_wf(self) -> bool {
        &&& forall|i: int|
            0 <= i < self.files.len() ==> self.has_project((#[trigger] self.files[i]).project_id)
        &&& forall|i: int|
            0 <= i < self.nodes.len() ==> self.has_file((#[trigger] self.nodes[i]).file_id)
        &&& forall|i: int|
            0 <= i < self.edges.len() ==> self.has_node((#[trigger] self.edges[i]).source_id)
                && self.has_node(self.edges[i].target_id)
    }

    /// The store's invariant.
    pub open spec fn wf(self) -> bool {
        &&& self.ids_wf()
        &&& self.unique_wf()
        &&& self.links_wf()
    }

    /// The project with this identifier.
    pub open spec fn project_by_id(self, id: i64) -> Option<ProjectView> {
        find_first(self.projects, project_has_id(id))
    }

    /// The project with this root path.
    pub open spec fn project_by_path(self, root: Seq<char>) -> Option<ProjectView> {
        find_first(self.projects, project_has_root(root))
    }

    /// The first project with this name.
    pub open spec fn project_by_name(self, name: Seq<char>) -> Option<ProjectView> {
        find_first(self.projects, project_has_name(name))
    }

    /// The file with this identifier.
    pub open spec fn file_by_id(self, id: i64) -> Option<FileView> {
        find_first(self.files, file_has_id(id))
    }

    /// The file of the project at this path.
    pub open spec fn file_by_path(self, project_id: i64, path: Seq<char>) -> Option<FileView> {
        find_first(self.files, file_at(project_id, path))
    }

    /// The node with this identifier.
    pub open spec fn node_by_id(self, id: i64) -> Option<NodeView> {
        find_first(self.nodes, node_has_id(id))
    }

    /// The node with this identifier exists and belongs to the file.
    pub open spec fn node_within(self, id: i64, file_id: i64) -> bool {
        any_match(self.nodes, node_is(id, file_id))
    }

    /// Neither endpoint of the edge belongs to the file.
    pub open spec fn edge_clear_of(self, file_id: i64) -> spec_fn(EdgeView) -> bool {
        |e: EdgeView| !self.node_within(e.source_id, file_id) && !self.node_within(
            e.target_id,
            file_id,
        )
    }

    /// Whether a project row can be restored under its own identifier.
    pub open spec fn restore_project_result(self, p: ProjectView) -> Result<(), StoreError> {
        if p.id < self.next_project_id {
            Err(StoreError::OutOfOrder)
        } else if self.project_by_path(p.root_path) is Some {
            Err(StoreError::DuplicateRootPath)
        } else if p.id == i64::MAX {
            Err(StoreError::Exhausted)
        } else {
            Ok(())
        }
    }

    /// The store with one more project row, under the row's identifier.
    pub open spec fn with_project_row(self, p: ProjectView) -> StoreView {
        StoreView {
            projects: self.projects.push(p),
            next_project_id: (p.id + 1) as i64,
            ..self
        }
    }

    /// What inserting a project returns.
    pub open spec fn insert_project_result(self, p: ProjectView) -> Result<i64, StoreError> {
        if self.project_by_path(p.root_path) is Some {
            Err(StoreError::DuplicateRootPath)
        } else if self.next_project_id == i64::MAX {
            Err(StoreError::Exhausted)
        } else {
            Ok(self.next_project_id)
        }
    }

    /// The store with one more project, stored under the next identifier.
    pub open spec fn with_project(self, p: ProjectView) -> StoreView {
        self.with_project_row(ProjectView { id: self.next_project_id, ..p })
    }

    /// Whether a file row can be restored under its own identifier.
    pub open spec fn restore_file_result(self, f: FileView) -> Result<(), StoreError> {
        if f.id < self.next_file_id {
            Err(StoreError::OutOfOrder)
        } else if !self.has_project(f.project_id) {
            Err(StoreError::UnknownProject)
        } else if self.file_by_path(f.project_id, f.path) is Some {
            Err(StoreError::DuplicateFile)
        } else if f.id == i64::MAX {
            Err(StoreError::Exhausted)
        } else {
            Ok(())
        }
    }

    /// The store with one more file row, under the row's identifier.
    pub open spec fn with_file_row(self, f: FileView) -> StoreView {
        StoreView { files: self.files.push(f), next_file_id: (f.id + 1) as i64, ..self }
    }

    /// What inserting a file returns.
    pub open spec fn insert_file_result(self, f: FileView) -> Result<i64, StoreError> {
        if !self.has_project(f.project_id) {
            Err(StoreError::UnknownProject)
        } else if self.file_by_path(f.project_id, f.path) is Some {
            Err(StoreError::DuplicateFile)
        } else if self.next_file_id == i64::MAX {
            Err(StoreError::Exhausted)
        } else {
            Ok(self.next_file_id)
        }
    }

    /// The store with one more file, stored under the next identifier.
    pub open spec fn with_file(self, f: FileView) -> StoreView {
        self.with_file_row(FileView { id: self.next_file_id, ..f })
    }

    /// Whether a node row can be restored under its own identifier.
    pub open spec fn restore_node_result(self, n: NodeView) -> Result<(), StoreError> {
        if n.id < self.next_node_id {
            Err(StoreError::OutOfOrder)
        } else if !self.has_file(n.file_id) {
            Err(StoreError::UnknownFile)
        } else if n.id == i64::MAX {
            Err(StoreError::Exhausted)
        } else {
            Ok(())
        }
    }

    /// The store with one more node row, under the row's identifier.
    pub open spec fn with_node_row(self, n: NodeView) -> StoreView {
        StoreView { nodes: self.nodes.push(n), next_node_id: (n.id + 1) as i64, ..self }
    }

    /// What inserting a node returns.
    pub open spec fn insert_node_result(self, n: NodeView) -> Result<i64, StoreError> {
        if !self.has_file(n.file_id) {
            Err(StoreError::UnknownFile)
        } else if self.next_node_id == i64::MAX {
            Err(StoreError::Exhausted)
        } else {
            Ok(self.next_node_id)
        }
    }

    /// The store with one more node, stored under the next identifier.
    pub open spec fn with_node(self, n: NodeView) -> StoreView {
        self.with_node_row(n.with_id(self.next_node_id))
    }

    /// Whether an edge row can be restored under its own identifier.
    pub open spec fn restore_edge_result(self, e: EdgeView) -> Result<(), StoreError> {
        if e.id < self.next_edge_id {
            Err(StoreError::OutOfOrder)
        } else if !self.has_node(e.source_id) || !self.has_node(e.target_id) {
            Err(StoreError::UnknownNode)
        } else if e.id == i64::MAX {
            Err(StoreError::Exhausted)
        } else {
            Ok(())
        }
    }

    /// The store with one more edge row, under the row's identifier.
    pub open spec fn with_edge_row(self, e: EdgeView) -> StoreView {
        StoreView { edges: self.edges.push(e), next_edge_id: (e.id + 1) as i64, ..self }
    }

    /// What inserting an edge returns.
    pub open spec fn insert_edge_result(self, e: EdgeView) -> Result<i64, StoreError> {
        if !self.has_node(e.source_id) || !self.has_node(e.target_id) {
            Err(StoreError::UnknownNode)
        } else if self.next_edge_id == i64::MAX {
            Err(StoreError::Exhausted)
        } else {
            Ok(self.next_edge_id)
        }
    }

    /// The store with one more edge, stored under the next identifier.
    pub open spec fn with_edge(self, e: EdgeView) -> StoreView {
        self.with_edge_row(e.with_id(self.next_edge_id))
    }

    /// The store after a run of node insertions for one file.
    pub open spec fn with_nodes(self, file_id: i64, run: Seq<NodeView>) -> StoreView {
        StoreView {
            nodes: self.nodes + run.map(stored_node(file_id, self.next_node_id)),
            next_node_id: (self.next_node_id + run.len()) as i64,
            ..self
        }
    }

    /// The store after a run of edge insertions.
    pub open spec fn with_edges(self, run: Seq<EdgeView>) -> StoreView {
        StoreView {
            edges: self.edges + run.map(stored_edge(self.next_edge_id)),
            next_edge_id: (self.next_edge_id + run.len()) as i64,
            ..self
        }
    }

    /// The store with the update time of one project replaced.
    pub open spec fn touched(self, project_id: i64, now: i64) -> StoreView {
        StoreView {
            projects: self.projects.map_values(touch_row(project_id, now)),
            ..self
        }
    }

    /// The store without a file, its nodes, and every edge that touches one
    /// of those nodes.
    pub open spec fn without_file(self, file_id: i64) -> StoreView {
        StoreView {
            files: self.files.filter(file_not_id(file_id)),
            nodes: self.nodes.filter(node_outside_file(file_id)),
            edges: self.edges.filter(self.edge_clear_of(file_id)),
            ..self
        }
    }
}

/// A project row put back where the store accepts it keeps the store well
/// formed.
pub proof fn lemma_with_project_row_wf(s: StoreView, p: ProjectView)
    requires
        s.wf(),
        s.restore_project_result(p) is Ok,
    ensures
        s.with_project_row(p).wf(),
        s.with_project_row(p).has_project(p.id),
{
    let t = s.with_project_row(p);
    let last = s.projects.len() as int;
    let same_root = project_has_root(p.root_path);
    lemma_first_index(s.projects, same_root);
    assert forall|i: int, j: int| 0 <= i < j < t.projects.len() implies (
    #[trigger] t.projects[i]).root_path != (#[trigger] t.projects[j]).root_path by {
        if j == last {
            assert(!same_root(s.projects[i]));
        }
    }
    assert forall|i: int| 0 <= i < t.files.len() implies t.has_project(
        (#[trigger] t.files[i]).project_id,
    ) by {
        let pid = s.files[i].project_id;
        assert(s.has_project(pid));
        let k = choose|k: int|
            0 <= k < s.projects.len() && project_has_id(pid)(#[trigger] s.projects[k]);
        assert(project_has_id(pid)(t.projects[k]));
    }
    assert(project_has_id(p.id)(t.projects[last]));
}

/// A file row put back where the store accepts it keeps the store well
/// formed, and is the file at its path.
pub proof fn lemma_with_file_row_wf(s: StoreView, f: FileView)
    requires
        s.wf(),
        s.restore_file_result(f) is Ok,
    ensures
        s.with_file_row(f).wf(),
        s.with_file_row(f).has_file(f.id),
        s.with_file_row(f).file_by_path(f.project_id, f.path) == Some(f),
{
    let t = s.with_file_row(f);
    let last = s.files.len() as int;
    let p = file_at(f.project_id, f.path);
    lemma_first_index(s.files, p);
    assert forall|i: int, j: int| 0 <= i < j < t.files.len() implies !((
    #[trigger] t.files[i]).project_id == (#[trigger] t.files[j]).project_id && t.files[i].path
        == t.files[j].path) by {
        if j == last {
            assert(!p(s.files[i]));
        }
    }
    assert forall|i: int| 0 <= i < t.files.len() implies t.has_project(
        (#[trigger] t.files[i]).project_id,
    ) by {
        if i < last {
            assert(s.has_project(s.files[i].project_id));
        }
    }
    assert forall|i: int| 0 <= i < t.nodes.len() implies t.has_file(
        (#[trigger] t.nodes[i]).file_id,
    ) by {
        let fid = s.nodes[i].file_id;
        assert(s.has_file(fid));
        let k = choose|k: int| 0 <= k < s.files.len() && file_has_id(fid)(#[trigger] s.files[k]);
        assert(file_has_id(fid)(t.files[k]));
    }
    assert(file_has_id(f.id)(t.files[last]));
    assert forall|j: int| 0 <= j < last implies !p(#[trigger] t.files[j]) by {
        assert(!p(s.files[j]));
    }
    assert(p(t.files[last]));
    lemma_first_found(t.files, p, last);
}

/// A file inserted where the store accepts it keeps the store well formed,
/// and is the file at its path.
pub proof fn lemma_with_file_wf(s: StoreView, f: FileView)
    requires
        s.wf(),
        s.insert_file_result(f) is Ok,
    ensures
        s.with_file(f).wf(),
        s.with_file(f).has_file(s.next_file_id),
        s.with_file(f).file_by_path(f.project_id, f.path) == Some(
            FileView { id: s.next_file_id, ..f },
        ),
{
    lemma_with_file_row_wf(s, FileView { id: s.next_file_id, ..f });
}

/// A node row put back where the store accepts it keeps the store well
/// formed.
pub proof fn lemma_with_node_row_wf(s: StoreView, n: NodeView)
    requires
        s.wf(),
        s.restore_node_result(n) is Ok,
    ensures
        s.with_node_row(n).wf(),
        s.with_node_row(n).has_node(n.id),
{
    let t = s.with_node_row(n);
    let last = s.nodes.len() as int;
    assert(t.has_file(t.nodes[last].file_id));
    assert forall|i: int| 0 <= i < t.nodes.len() implies t.has_file(
        (#[trigger] t.nodes[i]).file_id,
    ) by {
        if i < last {
            assert(s.has_file(s.nodes[i].file_id));
        }
    }
    assert forall|i: int| 0 <= i < t.edges.len() implies t.has_node(
        (#[trigger] t.edges[i]).source_id,
    ) && t.has_node(t.edges[i].target_id) by {
        lemma_node_stays(s, t, s.edges[i].source_id);
        lemma_node_stays(s, t, s.edges[i].target_id);
    }
    assert(node_has_id(n.id)(t.nodes[last]));
}

/// An edge row put back where the store accepts it keeps the store well
/// formed.
pub proof fn lemma_with_edge_row_wf(s: StoreView, e: EdgeView)
    requires
        s.wf(),
        s.restore_edge_result(e) is Ok,
    ensures
        s.with_edge_row(e).wf(),
{
    let t = s.with_edge_row(e);
    let last = s.edges.len() as int;
    assert forall|i: int| 0 <= i < t.edges.len() implies t.has_node(
        (#[trigger] t.edges[i]).source_id,
    ) && t.has_node(t.edges[i].target_id) by {
        if i < last {
            assert(s.has_node(s.edges[i].source_id) && s.has_node(s.edges[i].target_id));
        }
    }
}

/// A node that is not in the removed file is still there after the removal.
proof fn lemma_kept_node(s: StoreView, file_id: i64, id: i64)
    requires
        s.has_node(id),
        !s.node_within(id, file_id),
    ensures
        s.without_file(file_id).has_node(id),
{
    let t = s.without_file(file_id);
    let k = choose|k: int| 0 <= k < s.nodes.len() && node_has_id(id)(#[trigger] s.nodes[k]);
    assert(!node_is(id, file_id)(s.nodes[k]));
    assert(s.nodes.contains(s.nodes[k]));
    lemma_filter_member(s.nodes, node_outside_file(file_id), s.nodes[k]);
    let q = choose|q: int| 0 <= q < t.nodes.len() && t.nodes[q] == s.nodes[k];
    assert(node_has_id(id)(t.nodes[q]));
}

/// Removing a file with its nodes and their edges keeps the store well formed.
pub proof fn lemma_without_file_wf(s: StoreView, file_id: i64)
    requires
        s.wf(),
    ensures
        s.without_file(file_id).wf(),
        !s.without_file(file_id).has_file(file_id),
{
    let t = s.without_file(file_id);
    lemma_filter_ascending(s.files, file_not_id(file_id), file_key());
    lemma_filter_ascending(s.nodes, node_outside_file(file_id), node_key());
    lemma_filter_ascending(s.edges, s.edge_clear_of(file_id), edge_key());
    assert forall|i: int| 0 <= i < t.files.len() implies file_key()(#[trigger] t.files[i])
        < t.next_file_id && t.has_project(t.files[i].project_id) by {
        let k = choose|k: int| 0 <= k < s.files.len() && s.files[k] == t.files[i];
        assert(s.has_project(s.files[k].project_id));
    }
    assert forall|i: int, j: int| 0 <= i < j < t.files.len() implies !((
    #[trigger] t.files[i]).project_id == (#[trigger] t.files[j]).project_id && t.files[i].path
        == t.files[j].path) by {
        let a = choose|a: int| 0 <= a < s.files.len() && s.files[a] == t.files[i];
        let b = choose|b: int| 0 <= b < s.files.len() && s.files[b] == t.files[j];
        assert(file_key()(t.files[i]) < file_key()(t.files[j]));
        if a < b {
            assert(!(s.files[a].project_id == s.files[b].project_id && s.files[a].path
                == s.files[b].path));
        } else if b < a {
            assert(!(s.files[b].project_id == s.files[a].project_id && s.files[b].path
                == s.files[a].path));
        }
    }
    assert forall|i: int| 0 <= i < t.nodes.len() implies node_key()(#[trigger] t.nodes[i])
        < t.next_node_id && t.has_file(t.nodes[i].file_id) by {
        let n = t.nodes[i];
        let k = choose|k: int| 0 <= k < s.nodes.len() && s.nodes[k] == n;
        assert(s.has_file(s.nodes[k].file_id));
        let m = choose|m: int|
            0 <= m < s.files.len() && file_has_id(n.file_id)(#[trigger] s.files[m]);
        assert(node_outside_file(file_id)(n));
        assert(s.files.contains(s.files[m]));
        lemma_filter_member(s.files, file_not_id(file_id), s.files[m]);
        let q = choose|q: int| 0 <= q < t.files.len() && t.files[q] == s.files[m];
        assert(file_has_id(n.file_id)(t.files[q]));
    }
    assert forall|i: int| 0 <= i < t.edges.len() implies edge_key()(#[trigger] t.edges[i])
        < t.next_edge_id && t.has_node(t.edges[i].source_id) && t.has_node(
        t.edges[i].target_id,
    ) by {
        let e = t.edges[i];
        let k = choose|k: int| 0 <= k < s.edges.len() && s.edges[k] == e;
        assert(s.has_node(s.edges[k].source_id) && s.has_node(s.edges[k].target_id));
        assert(s.edge_clear_of(file_id)(e));
        lemma_kept_node(s, file_id, e.source_id);
        lemma_kept_node(s, file_id, e.target_id);
    }
    if t.has_file(file_id) {
        let q = choose|q: int| 0 <= q < t.files.len() && file_has_id(file_id)(
            #[trigger] t.files[q],
        );
        assert(file_not_id(file_id)(t.files[q]));
    }
}

/// A node of a store is a node of any store whose node table extends it.
pub proof fn lemma_node_stays(s: StoreView, t: StoreView, id: i64)
    requires
        s.has_node(id),
        s.nodes.len() <= t.nodes.len(),
        forall|i: int| 0 <= i < s.nodes.len() ==> #[trigger] t.nodes[i] == s.nodes[i],
    ensures
        t.has_node(id),
{
    let k = choose|k: int| 0 <= k < s.nodes.len() && node_has_id(id)(#[trigger] s.nodes[k]);
    assert(node_has_id(id)(t.nodes[k]));
}

/// A run of nodes inserted for an existing file keeps the store well formed.
pub proof fn lemma_with_nodes_wf(s: StoreView, file_id: i64, run: Seq<NodeView>)
    requires
        s.wf(),
        s.has_file(file_id),
        s.next_node_id + run.len() <= i64::MAX,
    ensures
        s.with_nodes(file_id, run).wf(),
        forall|id: i64|
            s.next_node_id <= id < s.next_node_id + run.len() ==> #[trigger] s.with_nodes(
                file_id,
                run,
            ).has_node(id),
{
    let t = s.with_nodes(file_id, run);
    let n0 = s.nodes.len() as int;
    assert forall|i: int| 0 <= i < t.nodes.len() implies 0 < node_key()(#[trigger] t.nodes[i])
        < t.next_node_id && t.has_file(t.nodes[i].file_id) by {
        if i < n0 {
            assert(t.nodes[i] == s.nodes[i]);
            assert(node_key()(s.nodes[i]) < s.next_node_id);
            assert(s.has_file(s.nodes[i].file_id));
        } else {
            assert(t.nodes[i] == stored_node(file_id, s.next_node_id)(i - n0, run[i - n0]));
        }
    }
    assert forall|i: int, j: int| 0 <= i < j < t.nodes.len() implies node_key()(
        #[trigger] t.nodes[i],
    ) < node_key()(#[trigger] t.nodes[j]) by {
        if j < n0 {
            assert(t.nodes[i] == s.nodes[i] && t.nodes[j] == s.nodes[j]);
        } else {
            assert(t.nodes[j] == stored_node(file_id, s.next_node_id)(j - n0, run[j - n0]));
            if i < n0 {
                assert(t.nodes[i] == s.nodes[i]);
                assert(node_key()(s.nodes[i]) < s.next_node_id);
            } else {
                assert(t.nodes[i] == stored_node(file_id, s.next_node_id)(i - n0, run[i - n0]));
            }
        }
    }
    assert forall|i: int| 0 <= i < t.edges.len() implies t.has_node(
        (#[trigger] t.edges[i]).source_id,
    ) && t.has_node(t.edges[i].target_id) by {
        lemma_node_stays(s, t, s.edges[i].source_id);
        lemma_node_stays(s, t, s.edges[i].target_id);
    }
    assert forall|id: i64| s.next_node_id <= id < s.next_node_id + run.len() implies #[trigger] t.has_node(
        id,
    ) by {
        let j = id - s.next_node_id;
        assert(t.nodes[n0 + j] == stored_node(file_id, s.next_node_id)(j, run[j]));
        assert(node_has_id(id)(t.nodes[n0 + j]));
    }
}

/// A run of edges inserted between existing nodes keeps the store well formed.
pub proof fn lemma_with_edges_wf(s: StoreView, run: Seq<EdgeView>)
    requires
        s.wf(),
        forall|j: int|
            0 <= j < run.len() ==> s.has_node((#[trigger] run[j]).source_id) && s.has_node(
                run[j].target_id,
            ),
        s.next_edge_id + run.len() <= i64::MAX,
    ensures
        s.with_edges(run).wf(),
{
    let t = s.with_edges(run);
    let n0 = s.edges.len() as int;
    assert forall|i: int| 0 <= i < t.edges.len() implies 0 < edge_key()(#[trigger] t.edges[i])
        < t.next_edge_id && t.has_node(t.edges[i].source_id) && t.has_node(
        t.edges[i].target_id,
    ) by {
        if i < n0 {
            assert(t.edges[i] == s.edges[i]);
            assert(edge_key()(s.edges[i]) < s.next_edge_id);
            assert(s.has_node(s.edges[i].source_id) && s.has_node(s.edges[i].target_id));
        } else {
            assert(t.edges[i] == stored_edge(s.next_edge_id)(i - n0, run[i - n0]));
            assert(s.has_node(run[i - n0].source_id) && s.has_node(run[i - n0].target_id));
        }
    }
    assert forall|i: int, j: int| 0 <= i < j < t.edges.len() implies edge_key()(
        #[trigger] t.edges[i],
    ) < edge_key()(#[trigger] t.edges[j]) by {
        if j < n0 {
            assert(t.edges[i] == s.edges[i] && t.edges[j] == s.edges[j]);
        } else {
            assert(t.edges[j] == stored_edge(s.next_edge_id)(j - n0, run[j - n0]));
            if i < n0 {
                assert(t.edges[i] == s.edges[i]);
                assert(edge_key()(s.edges[i]) < s.next_edge_id);
            } else {
                assert(t.edges[i] == stored_edge(s.next_edge_id)(i - n0, run[i - n0]));
            }
        }
    }
}

/// Setting a project's update time keeps the store well formed.
pub proof fn lemma_touched_wf(s: StoreView, project_id: i64, now: i64)
    requires
        s.wf(),
    ensures
        s.touched(project_id, now).wf(),
{
    let t = s.touched(project_id, now);
    assert forall|i: int| 0 <= i < t.files.len() implies t.has_project(
        (#[trigger] t.files[i]).project_id,
    ) by {
        let pid = s.files[i].project_id;
        assert(s.has_project(pid));
        let k = choose|k: int|
            0 <= k < s.projects.len() && project_has_id(pid)(#[trigger] s.projects[k]);
        assert(project_has_id(pid)(t.projects[k]));
    }
}

} // verus!
