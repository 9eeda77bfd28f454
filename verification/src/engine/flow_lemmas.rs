//! What holds from a syntax tree and its fragment, through storing and
//! resolution, to the call graph, whatever the store, the tree and the
//! fragment.

use vstd::prelude::*;

use crate::engine::graph::{
    as_node_row, cleared, cross_referenced, is_unchanged, kept_edges, lemma_cleared, store_result,
    stored, translated,
};
use crate::engine::graph_lemmas::lemma_stored_wf;
use crate::engine::parser::{fingerprint, fragment_of, FragmentView};
use crate::engine::query::{callgraph_of, info_of, InfoView};
use crate::engine::query_lemmas::{lemma_callgraph_direction, lemma_callgraph_edge};
use crate::languages::collect::{edge_of, node_data, qualified};
use crate::languages::go::{go_fragment, GoView};
use crate::languages::go_lemmas::{go_meets, lemma_go_call_linked};
use crate::languages::java::{java_fragment, JavaView};
use crate::languages::java_lemmas::{java_meets, lemma_java_call_linked};
use crate::languages::syntax::SyntaxNode;
use crate::seqs::{
    first_index, is_first, lemma_filter_map_has, lemma_first_found, lemma_first_index,
};
use crate::storage::lookup::kind_calls;
use crate::storage::models::NodeDataView;
use crate::storage::state::{file_has_id, node_has_id, stored_edge, stored_node, StoreView};

verus! {

/// The node data has this name or qualified name.
pub open spec fn data_named(symbol: Seq<char>) -> spec_fn(NodeDataView) -> bool {
    |d: NodeDataView| d.name == symbol || d.qualified_name == Some(symbol)
}

/// What a query says of a fragment node that is stored for the file at
/// `path`.
pub open spec fn info_of_data(path: Seq<char>, d: NodeDataView) -> InfoView {
    InfoView {
        name: d.name,
        qualified_name: d.qualified_name,
        node_type: d.node_type,
        file: path,
        line: d.start_line,
        column: d.start_column,
    }
}

/// The store after a fragment has been stored and a resolution pass has run.
pub open spec fn indexed(
    s: StoreView,
    project_id: i64,
    path: Seq<char>,
    language: Seq<char>,
    frag: FragmentView,
    parsed: i64,
    resolved: i64,
) -> StoreView {
    cross_referenced(stored(s, project_id, path, language, frag, parsed), project_id, resolved)
}

/// After a fragment has been stored anew and a resolution pass has run, the
/// node table is the cleared store's followed by the fragment's nodes in
/// order, each found under its identifier and in the new file, and the
/// fragment's in-range edges follow the cleared store's edges.
pub proof fn lemma_indexed_tables(
    s: StoreView,
    project_id: i64,
    path: Seq<char>,
    language: Seq<char>,
    frag: FragmentView,
    parsed: i64,
    resolved: i64,
)
    requires
        s.wf(),
        !is_unchanged(s, project_id, path, frag),
        store_result(s, project_id, path, frag) is Ok,
    ensures
        ({
            let c = cleared(s, project_id, path);
            let a = indexed(s, project_id, path, language, frag, parsed, resolved);
            let kept = kept_edges(s, frag);
            &&& c.wf()
            &&& a.nodes == c.nodes + frag.nodes.map_values(as_node_row()).map(
                stored_node(s.next_file_id, s.next_node_id),
            )
            &&& a.files.len() == c.files.len() + 1
            &&& forall|k: int| 0 <= k < c.files.len() ==> #[trigger] a.files[k] == c.files[k]
            &&& a.file_by_id(s.next_file_id) matches Some(f) && f.path == path && f.project_id
                == project_id
            &&& a.edges.len() >= c.edges.len() + kept.len()
            &&& forall|k: int|
                0 <= k < kept.len() ==> #[trigger] a.edges[c.edges.len() + k] == stored_edge(
                    s.next_edge_id,
                )(k, kept[k])
            &&& forall|k: int|
                0 <= k < frag.nodes.len() ==> a.node_by_id((s.next_node_id + k) as i64) == Some(
                    #[trigger] a.nodes[c.nodes.len() + k],
                )
        }),
{
    let c = cleared(s, project_id, path);
    let t = stored(s, project_id, path, language, frag, parsed);
    let a = indexed(s, project_id, path, language, frag, parsed, resolved);
    let fid = s.next_file_id;
    let base = s.next_node_id;
    let kept = kept_edges(s, frag);
    lemma_cleared(s, project_id, path);
    lemma_stored_wf(s, project_id, path, language, frag, parsed);
    assert(a.nodes == t.nodes);
    assert(a.files == t.files);
    assert(is_first(a.files, file_has_id(fid), c.files.len() as int));
    lemma_first_found(a.files, file_has_id(fid), c.files.len() as int);
    assert forall|k: int| 0 <= k < kept.len() implies #[trigger] a.edges[c.edges.len() + k]
        == stored_edge(s.next_edge_id)(k, kept[k]) by {
        assert(t.edges[c.edges.len() + k] == stored_edge(s.next_edge_id)(k, kept[k]));
    }
    assert forall|k: int| 0 <= k < frag.nodes.len() implies a.node_by_id((base + k) as i64)
        == Some(#[trigger] a.nodes[c.nodes.len() + k]) by {
        let id = (base + k) as i64;
        assert(is_first(a.nodes, node_has_id(id), c.nodes.len() + k));
        lemma_first_found(a.nodes, node_has_id(id), c.nodes.len() + k);
    }
}

/// From a fragment to the call graph: after a fragment has been stored anew
/// and a resolution pass has run, each `calls` edge of the fragment between
/// two of its positions shows in the call graph of its source. Where
/// `symbol` is the name or the qualified name of the source, and the source
/// is the first node of the project that goes by it, the call graph of
/// `symbol`, asked for callees at depth one or more, has the source as its
/// center, the edge's target among the callees, and no callers.
pub proof fn lemma_stored_call_in_callgraph(
    s: StoreView,
    project_id: i64,
    path: Seq<char>,
    language: Seq<char>,
    frag: FragmentView,
    parsed: i64,
    resolved: i64,
    m: int,
    symbol: Seq<char>,
    depth: u32,
)
    requires
        s.wf(),
        !is_unchanged(s, project_id, path, frag),
        store_result(s, project_id, path, frag) is Ok,
        0 <= m < frag.edges.len(),
        frag.edges[m].edge_type == kind_calls(),
        frag.edges[m].source_idx < frag.nodes.len(),
        frag.edges[m].target_idx < frag.nodes.len(),
        data_named(symbol)(frag.nodes[frag.edges[m].source_idx as int]),
        cleared(s, project_id, path).symbol_by_name(project_id, symbol) is None,
        forall|k: int|
            0 <= k < frag.edges[m].source_idx ==> !data_named(symbol)(#[trigger] frag.nodes[k]),
        depth > 0,
    ensures
        ({
            let source = frag.nodes[frag.edges[m].source_idx as int];
            let target = frag.nodes[frag.edges[m].target_idx as int];
            let a = indexed(s, project_id, path, language, frag, parsed, resolved);
            &&& callgraph_of(a, project_id, symbol, depth, "callees"@) matches Some(graph)
                && graph.center == info_of_data(path, source) && graph.callees.contains(
                info_of_data(path, target),
            ) && graph.callers.len() == 0
        }),
{
    let c = cleared(s, project_id, path);
    let a = indexed(s, project_id, path, language, frag, parsed, resolved);
    let fid = s.next_file_id;
    let base = s.next_node_id;
    let i = frag.edges[m].source_idx as int;
    let j = frag.edges[m].target_idx as int;
    let q = a.symbol_named(project_id, symbol);
    lemma_indexed_tables(s, project_id, path, language, frag, parsed, resolved);
    lemma_first_index(c.nodes, c.symbol_named(project_id, symbol));
    assert forall|k: int| 0 <= k < c.nodes.len() + i implies !q(#[trigger] a.nodes[k]) by {
        if k < c.nodes.len() {
            let n = c.nodes[k];
            assert(a.nodes[k] == n);
            assert(!c.symbol_named(project_id, symbol)(n));
            assert(c.has_file(n.file_id));
            let p = file_has_id(n.file_id);
            lemma_first_index(c.files, p);
            let x = first_index(c.files, p)->0;
            assert(is_first(a.files, p, x));
            lemma_first_found(a.files, p, x);
            assert(a.file_by_id(n.file_id) == c.file_by_id(n.file_id));
        } else {
            assert(!data_named(symbol)(frag.nodes[k - c.nodes.len()]));
        }
    }
    let center = a.nodes[c.nodes.len() + i];
    assert(center.file_id == fid);
    assert(q(center));
    lemma_first_found(a.nodes, q, c.nodes.len() + i);
    assert(a.symbol_by_name(project_id, symbol) == Some(center));
    let tr = translated(base, frag.nodes.len());
    lemma_filter_map_has(frag.edges, tr, m);
    let kept = kept_edges(s, frag);
    let k = choose|k: int| 0 <= k < kept.len() && #[trigger] kept[k] == tr(frag.edges[m])->0;
    let at = c.edges.len() + k;
    assert(a.edges[at] == stored_edge(s.next_edge_id)(k, kept[k]));
    let target = a.nodes[c.nodes.len() + j];
    assert(a.node_by_id((base + j) as i64) == Some(target));
    lemma_callgraph_edge(a, project_id, symbol, depth, "callees"@, at);
    lemma_callgraph_direction(a, project_id, symbol, depth, "callees"@);
    assert(info_of(a)(center) == info_of_data(path, frag.nodes[i]));
    assert(info_of(a)(target) == info_of_data(path, frag.nodes[j]));
}

/// From a Go source to the call graph. A file defines a function that
/// calls something: the walk of its tree comes upon a function declaration
/// `f` with a name, and in `f` itself upon a call expression `x`. After the
/// file's fragment has been stored anew and a resolution pass has run, the
/// call graph of `symbol`, the function's name or its qualified name, asked
/// for callees at depth one or more, has the function as its center, the
/// call among the callees, and no callers, provided that the function is
/// the first node of the project that goes by `symbol`.
pub proof fn lemma_go_call_in_callgraph(
    s: StoreView,
    project_id: i64,
    path: Seq<char>,
    language: Seq<char>,
    src: Seq<char>,
    tree: SyntaxNode,
    f: SyntaxNode,
    at_f: GoView,
    x: SyntaxNode,
    at_x: GoView,
    parsed: i64,
    resolved: i64,
    symbol: Seq<char>,
    depth: u32,
)
    requires
        s.wf(),
        go_fragment(src, tree).nodes.len() <= u32::MAX,
        !is_unchanged(s, project_id, path, fragment_of(go_fragment(src, tree), fingerprint(src))),
        store_result(s, project_id, path, fragment_of(go_fragment(src, tree), fingerprint(src)))
            is Ok,
        go_meets(src, tree, GoView::start(), f, at_f),
        f.kind@ == "function_declaration"@,
        f.child_by_field("name"@) is Some,
        go_meets(src, f, at_f, x, at_x),
        x.kind@ == "call_expression"@,
        x.child_by_field("function"@) is Some,
        at_x.func matches Some(owner) && owner == at_f.out.nodes.len(),
        symbol == f.children@[f.child_by_field("name"@)->0].text(src) || symbol == qualified(
            at_f.package,
            f.children@[f.child_by_field("name"@)->0].text(src),
        ),
        cleared(s, project_id, path).symbol_by_name(project_id, symbol) is None,
        forall|k: int|
            0 <= k < at_f.out.nodes.len() && k < go_fragment(src, tree).nodes.len()
                ==> !data_named(symbol)(#[trigger] go_fragment(src, tree).nodes[k]),
        depth > 0,
    ensures
        ({
            let name = f.children@[f.child_by_field("name"@)->0].text(src);
            let called = x.children@[x.child_by_field("function"@)->0].text(src);
            let frag = fragment_of(go_fragment(src, tree), fingerprint(src));
            let a = indexed(s, project_id, path, language, frag, parsed, resolved);
            &&& callgraph_of(a, project_id, symbol, depth, "callees"@) matches Some(graph)
                && graph.center == info_of_data(
                path,
                node_data("function"@, name, Some(qualified(at_f.package, name)), f, None),
            ) && graph.callees.contains(
                info_of_data(path, node_data("call"@, called, None, x, None)),
            ) && graph.callers.len() == 0
        }),
{
    let out = go_fragment(src, tree);
    let frag = fragment_of(out, fingerprint(src));
    let m = at_x.out.links.len() as int;
    lemma_go_call_linked(src, tree, f, at_f, x, at_x);
    assert(frag.edges[m] == edge_of()(out.links[m]));
    lemma_stored_call_in_callgraph(
        s,
        project_id,
        path,
        language,
        frag,
        parsed,
        resolved,
        m,
        symbol,
        depth,
    );
}

/// From a Java source to the call graph. A file defines a method that
/// calls something: the walk of its tree comes upon a method declaration
/// `f` with a name, and in `f` itself upon a method invocation `x`. After the
/// file's fragment has been stored anew and a resolution pass has run, the
/// call graph of `symbol`, the method's name or its qualified name, asked
/// for callees at depth one or more, has the method as its center, the
/// call among the callees, and no callers, provided that the method is the
/// first node of the project that goes by `symbol`.
pub proof fn lemma_java_call_in_callgraph(
    s: StoreView,
    project_id: i64,
    path: Seq<char>,
    language: Seq<char>,
    src: Seq<char>,
    tree: SyntaxNode,
    f: SyntaxNode,
    at_f: JavaView,
    x: SyntaxNode,
    at_x: JavaView,
    parsed: i64,
    resolved: i64,
    symbol: Seq<char>,
    depth: u32,
)
    requires
        s.wf(),
        java_fragment(src, tree).nodes.len() <= u32::MAX,
        !is_unchanged(s, project_id, path, fragment_of(java_fragment(src, tree), fingerprint(src))),
        store_result(s, project_id, path, fragment_of(java_fragment(src, tree), fingerprint(src)))
            is Ok,
        java_meets(src, tree, JavaView::start(), f, at_f),
        f.kind@ == "method_declaration"@,
        f.child_by_field("name"@) is Some,
        java_meets(src, f, at_f, x, at_x),
        x.kind@ == "method_invocation"@,
        x.child_by_field("name"@) is Some,
        at_x.method matches Some(owner) && owner == at_f.out.nodes.len(),
        symbol == f.children@[f.child_by_field("name"@)->0].text(src) || symbol == qualified(
            at_f.class,
            f.children@[f.child_by_field("name"@)->0].text(src),
        ),
        cleared(s, project_id, path).symbol_by_name(project_id, symbol) is None,
        forall|k: int|
            0 <= k < at_f.out.nodes.len() && k < java_fragment(src, tree).nodes.len()
                ==> !data_named(symbol)(#[trigger] java_fragment(src, tree).nodes[k]),
        depth > 0,
    ensures
        ({
            let name = f.children@[f.child_by_field("name"@)->0].text(src);
            let called = x.children@[x.child_by_field("name"@)->0].text(src);
            let frag = fragment_of(java_fragment(src, tree), fingerprint(src));
            let a = indexed(s, project_id, path, language, frag, parsed, resolved);
            &&& callgraph_of(a, project_id, symbol, depth, "callees"@) matches Some(graph)
                && graph.center == info_of_data(
                path,
                node_data("method"@, name, Some(qualified(at_f.class, name)), f, None),
            ) && graph.callees.contains(
                info_of_data(path, node_data("call"@, called, None, x, None)),
            ) && graph.callers.len() == 0
        }),
{
    let out = java_fragment(src, tree);
    let frag = fragment_of(out, fingerprint(src));
    let m = at_x.out.links.len() as int;
    lemma_java_call_linked(src, tree, f, at_f, x, at_x);
    assert(frag.edges[m] == edge_of()(out.links[m]));
    lemma_stored_call_in_callgraph(
        s,
        project_id,
        path,
        language,
        frag,
        parsed,
        resolved,
        m,
        symbol,
        depth,
    );
}

} // verus!
