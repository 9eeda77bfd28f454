//! What holds of storing fragments and of resolution passes, whatever the
//! store and the fragment.

use vstd::prelude::*;

use crate::engine::graph::{
    as_node_row, cleared, cross_referenced, cross_result, file_row, is_unchanged, kept_edges,
    lemma_cleared, lemma_definition_known, lemma_unresolved_known, new_references, resolution,
    store_result, stored, translated,
};
use crate::engine::parser::FragmentView;
use crate::seqs::{
    lemma_filter_map_from, lemma_filter_map_has, lemma_filter_map_none,
    lemma_filter_map_of_filter, lemma_filter_member, lemma_first_index, lemma_first_agree,
};
use crate::storage::lookup::{edge_out, id_and_name, kind_references};
use crate::storage::models::EdgeDataView;
use crate::storage::state::{
    lemma_touched_wf, lemma_with_edges_wf, lemma_with_file_wf, lemma_with_nodes_wf, node_has_id,
    node_key, stored_edge, stored_node, StoreView,
};

verus! {

/// Storing a fragment keeps the store well formed.
pub proof fn lemma_stored_wf(
    s: StoreView,
    project_id: i64,
    path: Seq<char>,
    language: Seq<char>,
    frag: FragmentView,
    now: i64,
)
    requires
        s.wf(),
    ensures
        stored(s, project_id, path, language, frag, now).wf(),
{
    if !(is_unchanged(s, project_id, path, frag) || store_result(s, project_id, path, frag)
        is Err) {
        let c = cleared(s, project_id, path);
        let f = file_row(project_id, path, language, frag, now);
        let run = frag.nodes.map_values(as_node_row());
        lemma_cleared(s, project_id, path);
        assert(c.has_project(project_id));
        lemma_with_file_wf(c, f);
        let s1 = c.with_file(f);
        lemma_with_nodes_wf(s1, s.next_file_id, run);
        let s2 = s1.with_nodes(s.next_file_id, run);
        let kept = kept_edges(s, frag);
        let tr = translated(s.next_node_id, frag.nodes.len());
        assert forall|j: int| 0 <= j < kept.len() implies s2.has_node(
            (#[trigger] kept[j]).source_id,
        ) && s2.has_node(kept[j].target_id) by {
            lemma_filter_map_from(frag.edges, tr, j);
        }
        lemma_with_edges_wf(s2, kept);
    }
}

/// Storing is idempotent: after a fragment has been stored, storing the same
/// fragment for the same project and path returns the same file identifier
/// and leaves the store, its nodes and edges included, as it is.
pub proof fn lemma_store_twice(
    s: StoreView,
    project_id: i64,
    path: Seq<char>,
    language: Seq<char>,
    frag: FragmentView,
    first: i64,
    second: i64,
)
    requires
        s.wf(),
        store_result(s, project_id, path, frag) is Ok,
    ensures
        ({
            let once = stored(s, project_id, path, language, frag, first);
            &&& store_result(once, project_id, path, frag) == store_result(
                s,
                project_id,
                path,
                frag,
            )
            &&& stored(once, project_id, path, language, frag, second) == once
        }),
{
    if !is_unchanged(s, project_id, path, frag) {
        let c = cleared(s, project_id, path);
        let f = file_row(project_id, path, language, frag, first);
        lemma_cleared(s, project_id, path);
        assert(c.has_project(project_id));
        lemma_with_file_wf(c, f);
        let once = stored(s, project_id, path, language, frag, first);
        assert(once.files == c.with_file(f).files);
        assert(is_unchanged(once, project_id, path, frag));
    }
}

/// `e` joins two positions of a list of `count` nodes.
pub open spec fn in_range(count: nat) -> spec_fn(EdgeDataView) -> bool {
    |e: EdgeDataView| e.source_idx < count && e.target_idx < count
}

/// The fragment without the edges that have an endpoint out of range.
pub open spec fn without_stray_edges(frag: FragmentView) -> FragmentView {
    FragmentView { edges: frag.edges.filter(in_range(frag.nodes.len())), ..frag }
}

/// Edges with an endpoint out of range are simply omitted: a fragment is
/// stored exactly as the same fragment without them, with the same result,
/// so that no such edge makes storing fail.
pub proof fn lemma_stray_edges_dropped(
    s: StoreView,
    project_id: i64,
    path: Seq<char>,
    language: Seq<char>,
    frag: FragmentView,
    now: i64,
)
    ensures
        store_result(s, project_id, path, frag) == store_result(
            s,
            project_id,
            path,
            without_stray_edges(frag),
        ),
        stored(s, project_id, path, language, frag, now) == stored(
            s,
            project_id,
            path,
            language,
            without_stray_edges(frag),
            now,
        ),
        without_stray_edges(frag).closed(),
{
    let p = in_range(frag.nodes.len());
    let tr = translated(s.next_node_id, frag.nodes.len());
    lemma_filter_map_of_filter(frag.edges, p, tr);
    assert(kept_edges(s, frag) == kept_edges(s, without_stray_edges(frag)));
    let clean = without_stray_edges(frag);
    assert forall|i: int| 0 <= i < clean.edges.len() implies (#[trigger] clean.edges[i]).source_idx
        < clean.nodes.len() && clean.edges[i].target_idx < clean.nodes.len() by {
        frag.edges.lemma_filter_pred(p, i);
    }
}

/// Replacement leaves nothing of the prior version behind: after changed
/// content has been stored for a file, no node of the prior version is in
/// the store, no edge has such a node as an endpoint, and every node has
/// its file and every edge both its nodes.
pub proof fn lemma_replaced_version_gone(
    s: StoreView,
    project_id: i64,
    path: Seq<char>,
    language: Seq<char>,
    frag: FragmentView,
    now: i64,
)
    requires
        s.wf(),
        s.file_by_path(project_id, path) is Some,
        s.file_by_path(project_id, path)->0.content_hash != frag.content_hash,
        store_result(s, project_id, path, frag) is Ok,
    ensures
        ({
            let prior = s.file_by_path(project_id, path)->0;
            let after = stored(s, project_id, path, language, frag, now);
            &&& after.wf()
            &&& forall|k: int|
                0 <= k < s.nodes.len() && (#[trigger] s.nodes[k]).file_id == prior.id
                    ==> !after.has_node(s.nodes[k].id)
            &&& forall|j: int|
                0 <= j < after.edges.len() ==> !s.node_within(
                    (#[trigger] after.edges[j]).source_id,
                    prior.id,
                ) && !s.node_within(after.edges[j].target_id, prior.id)
        }),
{
    let prior = s.file_by_path(project_id, path)->0;
    let after = stored(s, project_id, path, language, frag, now);
    let c = s.without_file(prior.id);
    let f = file_row(project_id, path, language, frag, now);
    let run = frag.nodes.map_values(as_node_row());
    let s1 = c.with_file(f);
    let s2 = s1.with_nodes(s.next_file_id, run);
    let kept = kept_edges(s, frag);
    let tr = translated(s.next_node_id, frag.nodes.len());
    lemma_stored_wf(s, project_id, path, language, frag, now);
    let keep = crate::storage::state::node_outside_file(prior.id);
    assert forall|k: int|
        0 <= k < s.nodes.len() && (#[trigger] s.nodes[k]).file_id == prior.id implies !after.has_node(
        s.nodes[k].id,
    ) by {
        let id = s.nodes[k].id;
        if after.has_node(id) {
            let q = choose|q: int|
                0 <= q < after.nodes.len() && node_has_id(id)(#[trigger] after.nodes[q]);
            if q < c.nodes.len() {
                let x = c.nodes[q];
                assert(after.nodes[q] == x);
                assert(c.nodes.contains(x));
                lemma_filter_member(s.nodes, keep, x);
                let m = choose|m: int| 0 <= m < s.nodes.len() && s.nodes[m] == x;
                if m < k {
                    assert(node_key()(s.nodes[m]) < node_key()(s.nodes[k]));
                } else if m > k {
                    assert(node_key()(s.nodes[k]) < node_key()(s.nodes[m]));
                } else {
                    assert(keep(x));
                }
            } else {
                let j = q - c.nodes.len();
                assert(after.nodes[q] == stored_node(s.next_file_id, s.next_node_id)(j, run[j]));
                assert(node_key()(s.nodes[k]) < s.next_node_id);
            }
        }
    }
    assert forall|j: int| 0 <= j < after.edges.len() implies !s.node_within(
        (#[trigger] after.edges[j]).source_id,
        prior.id,
    ) && !s.node_within(after.edges[j].target_id, prior.id) by {
        if j < c.edges.len() {
            let e = c.edges[j];
            assert(after.edges[j] == e);
            s.edges.lemma_filter_pred(s.edge_clear_of(prior.id), j);
        } else {
            let i = j - c.edges.len();
            assert(after.edges[j] == stored_edge(s.next_edge_id)(i, kept[i]));
            lemma_filter_map_from(frag.edges, tr, i);
            lemma_fresh_not_within(s, after.edges[j].source_id, prior.id);
            lemma_fresh_not_within(s, after.edges[j].target_id, prior.id);
        }
    }
}

/// An identifier that the node table has not handed out names no node.
proof fn lemma_fresh_not_within(s: StoreView, id: i64, file_id: i64)
    requires
        s.wf(),
        s.next_node_id <= id,
    ensures
        !s.node_within(id, file_id),
{
    if s.node_within(id, file_id) {
        let k = choose|k: int|
            0 <= k < s.nodes.len() && crate::storage::state::node_is(id, file_id)(
                #[trigger] s.nodes[k],
            );
        assert(node_key()(s.nodes[k]) < s.next_node_id);
    }
}

/// A resolution pass changes neither nodes nor files, so that names are
/// defined after it exactly as before.
pub proof fn lemma_pass_keeps_definitions(s: StoreView, project_id: i64, now: i64, name: Seq<char>)
    ensures
        cross_referenced(s, project_id, now).nodes == s.nodes,
        cross_referenced(s, project_id, now).files == s.files,
        cross_referenced(s, project_id, now).definition_by_name(project_id, name)
            == s.definition_by_name(project_id, name),
{
    let t = cross_referenced(s, project_id, now);
    assert forall|i: int| 0 <= i < s.nodes.len() implies s.defines(project_id, name)(
        #[trigger] s.nodes[i],
    ) == t.defines(project_id, name)(s.nodes[i]) by {}
    lemma_first_agree(s.nodes, s.defines(project_id, name), t.defines(project_id, name));
}

/// A resolution pass keeps the store well formed.
pub proof fn lemma_cross_referenced_wf(s: StoreView, project_id: i64, now: i64)
    requires
        s.wf(),
    ensures
        cross_referenced(s, project_id, now).wf(),
{
    if cross_result(s, project_id) is Ok {
        let run = new_references(s, project_id);
        let open = s.unresolved_references(project_id);
        assert forall|j: int| 0 <= j < run.len() implies s.has_node((#[trigger] run[j]).source_id)
            && s.has_node(run[j].target_id) by {
            lemma_filter_map_from(open, resolution(s, project_id), j);
            let i = choose|i: int|
                0 <= i < open.len() && resolution(s, project_id)(#[trigger] open[i]) == Some(
                    run[j],
                );
            lemma_unresolved_known(s, project_id, i);
            lemma_definition_known(s, project_id, open[i].1);
        }
        lemma_with_edges_wf(s, run);
        lemma_touched_wf(s.with_edges(run), project_id, now);
    }
}

/// After a resolution pass, a node of the project that is still an
/// unresolved reference has a name that nothing defines.
pub proof fn lemma_left_unresolved(s: StoreView, project_id: i64, now: i64, k: int)
    requires
        cross_result(s, project_id) is Ok,
        0 <= k < s.nodes.len(),
        cross_referenced(s, project_id, now).unresolved(project_id)(s.nodes[k]),
    ensures
        s.definition_by_name(project_id, s.nodes[k].name) is None,
{
    let t = cross_referenced(s, project_id, now);
    let n = s.nodes[k];
    let p = s.unresolved(project_id);
    let open = s.unresolved_references(project_id);
    let res = resolution(s, project_id);
    let run = new_references(s, project_id);
    let out = edge_out(n.id, kind_references());
    if s.is_resolved(n.id) {
        let j = choose|j: int| 0 <= j < s.edges.len() && out(#[trigger] s.edges[j]);
        assert(out(t.edges[j]));
    }
    assert(p(n));
    if s.definition_by_name(project_id, n.name) is Some {
        assert(s.nodes.contains(n));
        lemma_filter_member(s.nodes, p, n);
        let m = choose|m: int| 0 <= m < s.nodes.filter(p).len() && s.nodes.filter(p)[m] == n;
        assert(open[m] == id_and_name()(n));
        lemma_filter_map_has(open, res, m);
        let j = choose|j: int| 0 <= j < run.len() && #[trigger] run[j] == res(open[m])->0;
        assert(t.edges[s.edges.len() + j] == stored_edge(s.next_edge_id)(j, run[j]));
        assert(out(t.edges[s.edges.len() + j]));
    }
}

/// Resolution is idempotent: a second pass finds nothing to link, so it
/// succeeds and leaves nodes, files and edges as the first pass left them;
/// no `references` edge is added twice.
pub proof fn lemma_resolution_twice(s: StoreView, project_id: i64, first: i64, second: i64)
    requires
        cross_result(s, project_id) is Ok,
    ensures
        ({
            let once = cross_referenced(s, project_id, first);
            let twice = cross_referenced(once, project_id, second);
            &&& new_references(once, project_id).len() == 0
            &&& cross_result(once, project_id) is Ok
            &&& twice.edges == once.edges
            &&& twice.nodes == once.nodes
            &&& twice.files == once.files
        }),
{
    let once = cross_referenced(s, project_id, first);
    let open = once.unresolved_references(project_id);
    let res = resolution(once, project_id);
    assert forall|i: int| 0 <= i < open.len() implies res(#[trigger] open[i]) is None by {
        lemma_unresolved_known(once, project_id, i);
        let k = choose|k: int|
            0 <= k < once.nodes.len() && once.unresolved(project_id)(#[trigger] once.nodes[k])
                && id_and_name()(once.nodes[k]) == open[i];
        lemma_left_unresolved(s, project_id, first, k);
        lemma_pass_keeps_definitions(s, project_id, first, s.nodes[k].name);
    }
    lemma_filter_map_none(open, res);
    let run = new_references(once, project_id);
    assert(once.with_edges(run).edges =~= once.edges);
}

/// A reference whose name nothing in the project defines stays unresolved:
/// a pass gives it no outgoing `references` edge.
pub proof fn lemma_undefined_stays_unresolved(s: StoreView, project_id: i64, now: i64, k: int)
    requires
        s.wf(),
        0 <= k < s.nodes.len(),
        s.unresolved(project_id)(s.nodes[k]),
        s.definition_by_name(project_id, s.nodes[k].name) is None,
    ensures
        cross_referenced(s, project_id, now).unresolved(project_id)(s.nodes[k]),
{
    let t = cross_referenced(s, project_id, now);
    let n = s.nodes[k];
    let open = s.unresolved_references(project_id);
    let res = resolution(s, project_id);
    let run = new_references(s, project_id);
    let out = edge_out(n.id, kind_references());
    if t.is_resolved(n.id) {
        let j = choose|j: int| 0 <= j < t.edges.len() && out(#[trigger] t.edges[j]);
        if j < s.edges.len() {
            assert(out(s.edges[j]));
        } else {
            let i = j - s.edges.len();
            assert(t.edges[j] == stored_edge(s.next_edge_id)(i, run[i]));
            lemma_filter_map_from(open, res, i);
            let m = choose|m: int| 0 <= m < open.len() && res(#[trigger] open[m]) == Some(run[i]);
            lemma_unresolved_known(s, project_id, m);
            let q = choose|q: int|
                0 <= q < s.nodes.len() && s.unresolved(project_id)(#[trigger] s.nodes[q])
                    && id_and_name()(s.nodes[q]) == open[m];
            if q < k {
                assert(node_key()(s.nodes[q]) < node_key()(s.nodes[k]));
            } else if k < q {
                assert(node_key()(s.nodes[k]) < node_key()(s.nodes[q]));
            }
        }
    }
}


/// A resolution pass links nodes of one project only: each edge that it
/// adds is a `references` edge from a reference of the project to a
/// definition of the project with the same name.
pub proof fn lemma_references_within_project(s: StoreView, project_id: i64, j: int)
    requires
        0 <= j < new_references(s, project_id).len(),
    ensures
        ({
            let e = new_references(s, project_id)[j];
            &&& e.edge_type == kind_references()
            &&& exists|a: int, b: int|
                {
                    &&& 0 <= a < s.nodes.len()
                    &&& 0 <= b < s.nodes.len()
                    &&& (#[trigger] s.nodes[a]).id == e.source_id
                    &&& (#[trigger] s.nodes[b]).id == e.target_id
                    &&& s.unresolved(project_id)(s.nodes[a])
                    &&& s.defines(project_id, s.nodes[a].name)(s.nodes[b])
                }
        }),
{
    let open = s.unresolved_references(project_id);
    let res = resolution(s, project_id);
    lemma_filter_map_from(open, res, j);
    let i = choose|i: int| 0 <= i < open.len() && res(#[trigger] open[i]) == Some(
        new_references(s, project_id)[j],
    );
    lemma_unresolved_known(s, project_id, i);
    let a = choose|a: int|
        0 <= a < s.nodes.len() && s.unresolved(project_id)(#[trigger] s.nodes[a]) && id_and_name()(
            s.nodes[a],
        ) == open[i];
    let p = s.defines(project_id, s.nodes[a].name);
    lemma_first_index(s.nodes, p);
    let b = crate::seqs::first_index(s.nodes, p)->0;
    assert(p(s.nodes[b]));
    assert(s.nodes[a].id == new_references(s, project_id)[j].source_id);
    assert(s.nodes[b].id == new_references(s, project_id)[j].target_id);
}

} // verus!
