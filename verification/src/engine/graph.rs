//! The graph builder: commits fragments to the store with change detection
//! and resolves references across the files of a project.

use std::collections::HashMap;

use vstd::prelude::*;

use crate::clock::now_micros;
use crate::engine::parser::{FileGraphData, FragmentView};
use crate::seqs::{
    lemma_filter_map_step, lemma_filter_member, lemma_first_absent, lemma_first_index,
};
use crate::storage::database::Database;
use crate::storage::error::StoreError;
use crate::storage::lookup::{id_and_name, kind_references};
use crate::storage::models::{
    copy_text, EdgeDataView, EdgeRecord, EdgeView, FileRecord, FileView, NodeDataView,
    NodeRecord, NodeView, ProjectRecord, ProjectView,
};
use crate::storage::state::{
    file_at, file_has_id, file_not_id, lemma_without_file_wf, node_has_id, StoreView,
};
use crate::text::same_text;

verus! {

/// The row that extracted node data becomes, before the store names it.
pub open spec fn as_node_row() -> spec_fn(NodeDataView) -> NodeView {
    |d: NodeDataView| NodeView::of_data(0, 0, d)
}

/// The edge that a fragment edge becomes once its endpoints are translated
/// from positions to identifiers; none if an endpoint is not a position of
/// the fragment's `count` nodes.
pub open spec fn translated(base: i64, count: nat) -> spec_fn(EdgeDataView) -> Option<EdgeView> {
    |e: EdgeDataView|
        if e.source_idx < count && e.target_idx < count {
            Some(
                EdgeView {
                    id: 0,
                    source_id: (base + e.source_idx) as i64,
                    target_id: (base + e.target_idx) as i64,
                    edge_type: e.edge_type,
                    attributes: e.attributes,
                },
            )
        } else {
            None
        }
}

/// The file row of a fragment.
pub open spec fn file_row(
    project_id: i64,
    path: Seq<char>,
    language: Seq<char>,
    frag: FragmentView,
    now: i64,
) -> FileView {
    FileView {
        id: 0,
        project_id,
        path,
        language,
        content_hash: frag.content_hash,
        parsed_at: now,
    }
}

/// The store already holds this file with the fragment's fingerprint.
pub open spec fn is_unchanged(s: StoreView, project_id: i64, path: Seq<char>, frag: FragmentView)
    -> bool {
    s.file_by_path(project_id, path) matches Some(f) && f.content_hash == frag.content_hash
}

/// The store without the file at `path`, if there is one.
pub open spec fn cleared(s: StoreView, project_id: i64, path: Seq<char>) -> StoreView {
    match s.file_by_path(project_id, path) {
        Some(f) => s.without_file(f.id),
        None => s,
    }
}

/// The edges of a fragment that will be stored, endpoints translated.
pub open spec fn kept_edges(s: StoreView, frag: FragmentView) -> Seq<EdgeView> {
    frag.edges.filter_map(translated(s.next_node_id, frag.nodes.len()))
}

/// The number of edges of a fragment that will not be stored: those with
/// an endpoint that is no position of the node list.
pub open spec fn stray_edges(frag: FragmentView) -> nat {
    (frag.edges.len() - frag.edges.filter_map(translated(0, frag.nodes.len())).len()) as nat
}

/// What storing a fragment returns: the identifier of the unchanged file,
/// or of the new file row; an error, if the project does not exist or a
/// table lacks identifiers for the new rows.
pub open spec fn store_result(s: StoreView, project_id: i64, path: Seq<char>, frag: FragmentView)
    -> Result<i64, StoreError> {
    if is_unchanged(s, project_id, path, frag) {
        Ok(s.file_by_path(project_id, path)->0.id)
    } else if !s.has_project(project_id) {
        Err(StoreError::UnknownProject)
    } else if s.next_file_id == i64::MAX || s.next_node_id + frag.nodes.len() > i64::MAX
        || s.next_edge_id + kept_edges(s, frag).len() > i64::MAX {
        Err(StoreError::Exhausted)
    } else {
        Ok(s.next_file_id)
    }
}

/// The store after storing a fragment: unchanged where the fingerprint is
/// the stored one or the operation fails; otherwise the prior version of
/// the file is gone and the fragment's file, nodes and in-range edges are in.
pub open spec fn stored(
    s: StoreView,
    project_id: i64,
    path: Seq<char>,
    language: Seq<char>,
    frag: FragmentView,
    now: i64,
) -> StoreView {
    if is_unchanged(s, project_id, path, frag) || store_result(s, project_id, path, frag) is Err {
        s
    } else {
        cleared(s, project_id, path).with_file(
            file_row(project_id, path, language, frag, now),
        ).with_nodes(s.next_file_id, frag.nodes.map_values(as_node_row())).with_edges(
            kept_edges(s, frag),
        )
    }
}

/// What looking a project up by root path, and creating it if absent, returns.
pub open spec fn project_result(s: StoreView, root: Seq<char>) -> Result<i64, StoreError> {
    match s.project_by_path(root) {
        Some(p) => Ok(p.id),
        None => if s.next_project_id == i64::MAX {
            Err(StoreError::Exhausted)
        } else {
            Ok(s.next_project_id)
        },
    }
}

/// The store after looking a project up by root path, and creating it if absent.
pub open spec fn with_project_at(s: StoreView, name: Seq<char>, root: Seq<char>, now: i64)
    -> StoreView {
    if s.project_by_path(root) is None && s.next_project_id != i64::MAX {
        s.with_project(
            ProjectView { id: 0, name, root_path: root, created_at: now, updated_at: now },
        )
    } else {
        s
    }
}

/// A `references` edge between two nodes, before the store names it.
pub open spec fn reference_edge(source: i64, target: i64) -> EdgeView {
    EdgeView {
        id: 0,
        source_id: source,
        target_id: target,
        edge_type: kind_references(),
        attributes: None,
    }
}

/// The `references` edge between a pair of node identifiers.
pub open spec fn pair_edge() -> spec_fn((i64, i64)) -> EdgeView {
    |p: (i64, i64)| reference_edge(p.0, p.1)
}

/// The edge that resolves an unresolved reference: to the first node of the
/// project that can define its name; none if there is no such node.
pub open spec fn resolution(s: StoreView, project_id: i64) -> spec_fn((i64, Seq<char>)) -> Option<
    EdgeView,
> {
    |r: (i64, Seq<char>)|
        match s.definition_by_name(project_id, r.1) {
            Some(d) => Some(reference_edge(r.0, d)),
            None => None,
        }
}

/// The `references` edges that a resolution pass adds.
pub open spec fn new_references(s: StoreView, project_id: i64) -> Seq<EdgeView> {
    s.unresolved_references(project_id).filter_map(resolution(s, project_id))
}

/// What a resolution pass returns: an error only if the edge table lacks
/// identifiers for the new edges.
pub open spec fn cross_result(s: StoreView, project_id: i64) -> Result<(), StoreError> {
    if s.next_edge_id + new_references(s, project_id).len() > i64::MAX {
        Err(StoreError::Exhausted)
    } else {
        Ok(())
    }
}

/// The store after a resolution pass: each unresolved reference that has a
/// definition is linked to it, and the project's update time is `now`. On
/// an error the store is unchanged.
pub open spec fn cross_referenced(s: StoreView, project_id: i64, now: i64) -> StoreView {
    if cross_result(s, project_id) is Ok {
        s.with_edges(new_references(s, project_id)).touched(project_id, now)
    } else {
        s
    }
}

/// After the file at a path is removed, no file is at that path, and the
/// store is well formed with its projects and counters as before.
pub proof fn lemma_cleared(s: StoreView, project_id: i64, path: Seq<char>)
    requires
        s.wf(),
    ensures
        cleared(s, project_id, path).wf(),
        cleared(s, project_id, path).file_by_path(project_id, path) is None,
        cleared(s, project_id, path).projects == s.projects,
        cleared(s, project_id, path).next_file_id == s.next_file_id,
        cleared(s, project_id, path).next_node_id == s.next_node_id,
        cleared(s, project_id, path).next_edge_id == s.next_edge_id,
        cleared(s, project_id, path).next_project_id == s.next_project_id,
{
    let p = file_at(project_id, path);
    let c = cleared(s, project_id, path);
    lemma_first_index(s.files, p);
    match s.file_by_path(project_id, path) {
        Some(f) => {
            lemma_without_file_wf(s, f.id);
            let i = crate::seqs::first_index(s.files, p)->0;
            assert(s.files[i] == f);
            assert forall|j: int| 0 <= j < c.files.len() implies !p(#[trigger] c.files[j]) by {
                let x = c.files[j];
                assert(c.files.contains(x));
                lemma_filter_member(s.files, file_not_id(f.id), x);
                let k = choose|k: int| 0 <= k < s.files.len() && s.files[k] == x;
                if p(x) {
                    if k < i {
                        assert(!p(s.files[k]));
                    } else if k > i {
                        assert(!(s.files[i].project_id == s.files[k].project_id
                            && s.files[i].path == s.files[k].path));
                    } else {
                        assert(file_not_id(f.id)(x));
                    }
                }
            }
            lemma_first_absent(c.files, p);
        },
        None => {
            lemma_first_absent(c.files, p);
        },
    }
}

/// An unresolved reference names a node of the store.
pub proof fn lemma_unresolved_known(s: StoreView, project_id: i64, i: int)
    requires
        0 <= i < s.unresolved_references(project_id).len(),
    ensures
        s.has_node(s.unresolved_references(project_id)[i].0),
        exists|k: int|
            0 <= k < s.nodes.len() && s.unresolved(project_id)(#[trigger] s.nodes[k]) && id_and_name()(
                s.nodes[k],
            ) == s.unresolved_references(project_id)[i],
{
    let p = s.unresolved(project_id);
    let x = s.nodes.filter(p)[i];
    assert(s.nodes.filter(p).contains(x));
    lemma_filter_member(s.nodes, p, x);
    let k = choose|k: int| 0 <= k < s.nodes.len() && s.nodes[k] == x;
    assert(node_has_id(x.id)(s.nodes[k]));
    assert(p(s.nodes[k]));
}

/// A definition found by name is a node of the store.
pub proof fn lemma_definition_known(s: StoreView, project_id: i64, name: Seq<char>)
    requires
        s.definition_by_name(project_id, name) is Some,
    ensures
        s.has_node(s.definition_by_name(project_id, name)->0),
{
    let p = s.defines(project_id, name);
    lemma_first_index(s.nodes, p);
    let i = crate::seqs::first_index(s.nodes, p)->0;
    assert(node_has_id(s.nodes[i].id)(s.nodes[i]));
}

/// Whether `count` identifiers from `next` on exist.
fn has_room(next: i64, count: usize) -> (b: bool)
    requires
        0 < next,
    ensures
        b == (next + count <= i64::MAX),
{
    let room: u64 = (i64::MAX - next) as u64;
    count as u64 <= room
}

/// Builder that commits graph fragments to a store.
pub struct GraphBuilder {
    db: Database,
}

impl View for GraphBuilder {
    type V = StoreView;

    closed spec fn view(&self) -> StoreView {
        self.db@
    }
}

impl GraphBuilder {
    /// A builder over the given store.
    pub fn new(db: Database) -> (builder: GraphBuilder)
        ensures
            builder@ == db@,
    {
        GraphBuilder { db }
    }

    /// The store.
    pub fn database(&self) -> (db: &Database)
        ensures
            db@ == self@,
    {
        &self.db
    }

    /// Gives the store back.
    pub fn into_database(self) -> (db: Database)
        ensures
            db@ == self@,
    {
        self.db
    }

    /// Looks a project up by its root path, and creates it with the given
    /// name and times if there is none.
    pub fn create_or_get_project_at(&mut self, name: &str, root_path: &str, now: i64) -> (r:
        Result<i64, StoreError>)
        ensures
            r == project_result(old(self)@, root_path@),
            final(self)@ == with_project_at(old(self)@, name@, root_path@, now),
    {
        match self.db.get_project_by_path(root_path) {
            Ok(Some(project)) => {
                return Ok(project.id);
            },
            Ok(None) => {},
            Err(e) => {
                return Err(e);
            },
        }
        let project = ProjectRecord {
            id: 0,
            name: name.to_owned(),
            root_path: root_path.to_owned(),
            created_at: now,
            updated_at: now,
        };
        self.db.insert_project(&project)
    }

    /// Looks a project up by its root path, and creates it if there is none,
    /// stamped with the current time.
    pub fn create_or_get_project(&mut self, name: &str, root_path: &str) -> (r: Result<
        i64,
        StoreError,
    >)
        ensures
            r == project_result(old(self)@, root_path@),
            exists|now: i64| final(self)@ == with_project_at(old(self)@, name@, root_path@, now),
    {
        let now = now_micros();
        self.create_or_get_project_at(name, root_path, now)
    }

    /// The number of edges of the fragment that join two of its nodes.
    fn count_kept(graph_data: &FileGraphData, Ghost(base): Ghost<i64>) -> (n: usize)
        ensures
            n == graph_data@.edges.filter_map(translated(base, graph_data@.nodes.len())).len(),
    {
        let count = graph_data.nodes.len();
        let ghost f = translated(base, graph_data@.nodes.len());
        let ghost edges = graph_data@.edges;
        let mut n: usize = 0;
        let mut i: usize = 0;
        while i < graph_data.edges.len()
            invariant
                i <= graph_data.edges.len(),
                count == graph_data.nodes.len(),
                edges == graph_data@.edges,
                f == translated(base, graph_data@.nodes.len()),
                n == edges.take(i as int).filter_map(f).len(),
                n <= i,
            decreases graph_data.edges.len() - i,
        {
            proof {
                lemma_filter_map_step(edges, f, i as int);
            }
            if (graph_data.edges[i].source_idx as usize) < count && (
            graph_data.edges[i].target_idx as usize) < count {
                n = n + 1;
            }
            i = i + 1;
        }
        assert(edges.take(i as int) =~= edges);
        n
    }

    /// Stores the fragment of one file, `now` being the time of parsing.
    ///
    /// A file that the store holds with the same fingerprint is left as it
    /// is and its identifier returned. Otherwise the stored version of the
    /// file, if any, is removed with its nodes and their edges, and the
    /// fragment is inserted: the file, each node in order, and each edge
    /// whose endpoints are positions of the node list; other edges are
    /// dropped. The identifier that the store gives each node is recorded
    /// under the node's position, and the endpoints of the edges are
    /// translated through that record. On an error the store is unchanged.
    pub fn store_file_graph_at(
        &mut self,
        project_id: i64,
        file_path: &str,
        language: &str,
        graph_data: FileGraphData,
        now: i64,
    ) -> (r: Result<i64, StoreError>)
        ensures
            r == store_result(old(self)@, project_id, file_path@, graph_data@),
            final(self)@ == stored(
                old(self)@,
                project_id,
                file_path@,
                language@,
                graph_data@,
                now,
            ),
    {
        self.db.well_formed();
        let ghost s0 = self@;
        let ghost frag = graph_data@;
        let existing = match self.db.get_file_by_path(project_id, file_path) {
            Ok(found) => found,
            Err(e) => {
                return Err(e);
            },
        };
        if let Some(f) = &existing {
            if same_text(f.content_hash.as_str(), graph_data.content_hash.as_str()) {
                return Ok(f.id);
            }
        }
        let known = match self.db.get_project(project_id) {
            Ok(found) => found.is_some(),
            Err(e) => {
                return Err(e);
            },
        };
        if !known {
            return Err(StoreError::UnknownProject);
        }
        let ids = self.db.next_ids();
        let count = graph_data.nodes.len();
        let kept = Self::count_kept(&graph_data, Ghost(ids.1));
        proof {
            assert(s0.ids_wf());
        }
        if ids.0 == i64::MAX || !has_room(ids.1, count) || !has_room(ids.2, kept) {
            return Err(StoreError::Exhausted);
        }
        proof {
            lemma_cleared(s0, project_id, file_path@);
        }
        if let Some(f) = &existing {
            let _ = self.db.delete_file_data(f.id);
        }
        let ghost c = cleared(s0, project_id, file_path@);
        assert(self@ == c);
        let file = FileRecord {
            id: 0,
            project_id,
            path: file_path.to_owned(),
            language: language.to_owned(),
            content_hash: graph_data.content_hash.clone(),
            parsed_at: now,
        };
        assert(file@ == file_row(project_id, file_path@, language@, frag, now));
        let file_id = match self.db.insert_file(&file) {
            Ok(id) => id,
            Err(e) => {
                return Err(e);
            },
        };
        let ghost s1 = c.with_file(file@);
        let ghost base = s0.next_node_id;
        let ghost run = frag.nodes.map_values(as_node_row());
        proof {
            assert(file_has_id(file_id)(s1.files[s1.files.len() - 1]));
            assert(s1.has_file(file_id));
            assert(s1.with_nodes(file_id, run.take(0)).nodes =~= s1.nodes);
            assert(s1.with_nodes(file_id, run.take(0)) == s1);
        }
        let mut node_ids: HashMap<usize, i64> = HashMap::new();
        let mut k: usize = 0;
        while k < graph_data.nodes.len()
            invariant
                k <= graph_data.nodes.len(),
                frag == graph_data@,
                run == frag.nodes.map_values(as_node_row()),
                count == graph_data.nodes.len(),
                base == s1.next_node_id,
                0 < base,
                base + count <= i64::MAX,
                s1.has_file(file_id),
                self@ == s1.with_nodes(file_id, run.take(k as int)),
                forall|j: usize| #[trigger] node_ids@.contains_key(j) <==> j < k,
                forall|j: usize| j < k ==> #[trigger] node_ids@[j] == base + j,
            decreases graph_data.nodes.len() - k,
        {
            let d = &graph_data.nodes[k];
            let node = NodeRecord {
                id: 0,
                file_id,
                node_type: d.node_type.clone(),
                name: d.name.clone(),
                qualified_name: copy_text(&d.qualified_name),
                start_line: d.start_line,
                start_column: d.start_column,
                end_line: d.end_line,
                end_column: d.end_column,
                attributes: copy_text(&d.attributes),
            };
            let ghost prior = self@;
            proof {
                assert(prior.files == s1.files);
                assert(prior.has_file(file_id));
            }
            match self.db.insert_node(&node) {
                Ok(id) => {
                    node_ids.insert(k, id);
                },
                Err(e) => {
                    return Err(e);
                },
            }
            proof {
                let next = s1.with_nodes(file_id, run.take(k + 1));
                assert(run.take(k + 1) =~= run.take(k as int).push(run[k as int]));
                assert(self@.nodes =~= next.nodes);
                assert(self@ == next);
            }
            k = k + 1;
        }
        let ghost s2 = s1.with_nodes(file_id, run);
        let ghost tr = translated(base, frag.nodes.len());
        proof {
            assert(run.take(k as int) =~= run);
            assert(self@ == s2);
            assert forall|id: i64| base <= id < base + count implies #[trigger] s2.has_node(
                id,
            ) by {
                assert(node_has_id(id)(s2.nodes[s1.nodes.len() + (id - base)]));
            }
            assert(s2.with_edges(frag.edges.take(0).filter_map(tr)).edges =~= s2.edges);
            assert(s2.with_edges(frag.edges.take(0).filter_map(tr)) == s2);
        }
        let mut m: usize = 0;
        while m < graph_data.edges.len()
            invariant
                m <= graph_data.edges.len(),
                frag == graph_data@,
                count == graph_data.nodes.len(),
                tr == translated(base, frag.nodes.len()),
                0 < base,
                base + count <= i64::MAX,
                0 < s2.next_edge_id,
                s2.next_edge_id + frag.edges.filter_map(tr).len() <= i64::MAX,
                forall|id: i64| base <= id < base + count ==> #[trigger] s2.has_node(id),
                self@ == s2.with_edges(frag.edges.take(m as int).filter_map(tr)),
                forall|j: usize| #[trigger] node_ids@.contains_key(j) <==> j < count,
                forall|j: usize| j < count ==> #[trigger] node_ids@[j] == base + j,
            decreases graph_data.edges.len() - m,
        {
            let e = &graph_data.edges[m];
            let source = e.source_idx as usize;
            let target = e.target_idx as usize;
            proof {
                lemma_filter_map_step(frag.edges, tr, m as int);
                crate::seqs::lemma_filter_map_prefix(frag.edges, tr, m as int + 1);
            }
            let ends = (node_ids.get(&source), node_ids.get(&target));
            if let (Some(source_id), Some(target_id)) = ends {
                let edge = EdgeRecord {
                    id: 0,
                    source_id: *source_id,
                    target_id: *target_id,
                    edge_type: e.edge_type.clone(),
                    attributes: copy_text(&e.attributes),
                };
                let ghost prior = self@;
                proof {
                    assert(node_ids@.contains_key(source) && node_ids@.contains_key(target));
                    assert(prior.nodes == s2.nodes);
                    assert(s2.has_node((base + source) as i64));
                    assert(s2.has_node((base + target) as i64));
                    assert(prior.has_node(edge.source_id));
                    assert(prior.has_node(edge.target_id));
                }
                match self.db.insert_edge(&edge) {
                    Ok(_) => {},
                    Err(e) => {
                        return Err(e);
                    },
                }
                proof {
                    let next = s2.with_edges(frag.edges.take(m + 1).filter_map(tr));
                    assert(self@.edges =~= next.edges);
                    assert(self@ == next);
                }
            } else {
                assert(!node_ids@.contains_key(source) || !node_ids@.contains_key(target));
            }
            m = m + 1;
        }
        proof {
            assert(frag.edges.take(m as int) =~= frag.edges);
        }
        Ok(file_id)
    }

    /// Stores the fragment of one file, stamped with the current time; see
    /// [`GraphBuilder::store_file_graph_at`].
    pub fn store_file_graph(
        &mut self,
        project_id: i64,
        file_path: &str,
        language: &str,
        graph_data: FileGraphData,
    ) -> (r: Result<i64, StoreError>)
        ensures
            r == store_result(old(self)@, project_id, file_path@, graph_data@),
            exists|now: i64|
                final(self)@ == stored(
                    old(self)@,
                    project_id,
                    file_path@,
                    language@,
                    graph_data@,
                    now,
                ),
    {
        let now = now_micros();
        self.store_file_graph_at(project_id, file_path, language, graph_data, now)
    }

    /// Links each unresolved reference of a project to the first node of
    /// the project that can define its name, and sets the project's update
    /// time to `now`. References without such a node stay unresolved. On an
    /// error the store is unchanged.
    pub fn build_cross_references_at(&mut self, project_id: i64, now: i64) -> (r: Result<
        (),
        StoreError,
    >)
        ensures
            r == cross_result(old(self)@, project_id),
            final(self)@ == cross_referenced(old(self)@, project_id, now),
    {
        self.db.well_formed();
        let ghost s = self@;
        let ghost res = resolution(s, project_id);
        let unresolved = match self.db.get_unresolved_references(project_id) {
            Ok(found) => found,
            Err(e) => {
                return Err(e);
            },
        };
        let ghost open = unresolved.deep_view();
        let mut pending: Vec<(i64, i64)> = Vec::new();
        let mut i: usize = 0;
        while i < unresolved.len()
            invariant
                i <= unresolved.len(),
                self@ == s,
                open == unresolved.deep_view(),
                open == s.unresolved_references(project_id),
                res == resolution(s, project_id),
                pending@.map_values(pair_edge()) == open.take(i as int).filter_map(res),
                forall|j: int|
                    0 <= j < pending.len() ==> s.has_node((#[trigger] pending@[j]).0)
                        && s.has_node(pending@[j].1),
            decreases unresolved.len() - i,
        {
            let found = match self.db.find_definition_by_name(project_id, unresolved[i].1.as_str()) {
                Ok(found) => found,
                Err(e) => {
                    return Err(e);
                },
            };
            proof {
                lemma_filter_map_step(open, res, i as int);
                assert(open[i as int] == (unresolved@[i as int].0, unresolved@[i as int].1@));
            }
            match found {
                Some(def) => {
                    let ghost prior = pending@;
                    pending.push((unresolved[i].0, def));
                    proof {
                        lemma_unresolved_known(s, project_id, i as int);
                        lemma_definition_known(s, project_id, open[i as int].1);
                        assert(pending@.map_values(pair_edge()) =~= prior.map_values(
                            pair_edge(),
                        ).push(reference_edge(unresolved@[i as int].0, def)));
                    }
                },
                None => {},
            }
            i = i + 1;
        }
        let ghost run = pending@.map_values(pair_edge());
        proof {
            assert(open.take(i as int) =~= open);
            assert(run == new_references(s, project_id));
            assert(s.ids_wf());
        }
        let ids = self.db.next_ids();
        if !has_room(ids.2, pending.len()) {
            return Err(StoreError::Exhausted);
        }
        proof {
            assert(s.with_edges(run.take(0)).edges =~= s.edges);
            assert(s.with_edges(run.take(0)) == s);
        }
        let mut k: usize = 0;
        while k < pending.len()
            invariant
                k <= pending.len(),
                run == pending@.map_values(pair_edge()),
                0 < s.next_edge_id,
                s.next_edge_id + pending.len() <= i64::MAX,
                forall|j: int|
                    0 <= j < pending.len() ==> s.has_node((#[trigger] pending@[j]).0)
                        && s.has_node(pending@[j].1),
                self@ == s.with_edges(run.take(k as int)),
            decreases pending.len() - k,
        {
            let edge = EdgeRecord {
                id: 0,
                source_id: pending[k].0,
                target_id: pending[k].1,
                edge_type: "references".to_owned(),
                attributes: None,
            };
            let ghost prior = self@;
            proof {
                assert(prior.nodes == s.nodes);
                assert(s.has_node(pending@[k as int].0) && s.has_node(pending@[k as int].1));
                assert(prior.has_node(edge.source_id));
                assert(prior.has_node(edge.target_id));
                assert(edge@ == run[k as int]);
            }
            match self.db.insert_edge(&edge) {
                Ok(_) => {},
                Err(e) => {
                    return Err(e);
                },
            }
            proof {
                let next = s.with_edges(run.take(k + 1));
                assert(run.take(k + 1) =~= run.take(k as int).push(run[k as int]));
                assert(self@.edges =~= next.edges);
                assert(self@ == next);
            }
            k = k + 1;
        }
        proof {
            assert(run.take(k as int) =~= run);
        }
        match self.db.touch_project(project_id, now) {
            Ok(()) => Ok(()),
            Err(e) => Err(e),
        }
    }

    /// Runs a resolution pass stamped with the current time; see
    /// [`GraphBuilder::build_cross_references_at`].
    pub fn build_cross_references(&mut self, project_id: i64) -> (r: Result<(), StoreError>)
        ensures
            r == cross_result(old(self)@, project_id),
            exists|now: i64| final(self)@ == cross_referenced(old(self)@, project_id, now),
    {
        let now = now_micros();
        self.build_cross_references_at(project_id, now)
    }
}

/// Counts the edges of a fragment that storing it drops.
pub fn count_stray_edges(graph_data: &FileGraphData) -> (n: usize)
    ensures
        n == stray_edges(graph_data@),
{
    let kept = GraphBuilder::count_kept(graph_data, Ghost(0));
    proof {
        crate::seqs::lemma_filter_map_len(
            graph_data@.edges,
            translated(0, graph_data@.nodes.len()),
        );
    }
    graph_data.edges.len() - kept
}

} // verus!
