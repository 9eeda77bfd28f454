//! What holds of call graphs and of lookups by name, whatever the store.

use vstd::prelude::*;

use crate::engine::query::{
    callgraph_of, defines_in, defines_symbol, definition_of, info_of, location_of, wants_callees,
    wants_callers,
};
use crate::seqs::{any_match, first_index, lemma_filter_map_has, lemma_first_index};
use crate::storage::lookup::{edge_in, edge_out, is_definition_kind, kind_calls};
use crate::storage::state::StoreView;
use crate::text::ends_with_seq;

verus! {

/// A call graph follows the direction asked for: `callers` gives no
/// callees, `callees` gives no callers, and at depth zero there is neither,
/// whatever edges exist.
pub proof fn lemma_callgraph_direction(
    s: StoreView,
    project_id: i64,
    symbol: Seq<char>,
    depth: u32,
    direction: Seq<char>,
)
    requires
        callgraph_of(s, project_id, symbol, depth, direction) is Some,
    ensures
        ({
            let graph = callgraph_of(s, project_id, symbol, depth, direction)->0;
            &&& depth == 0 ==> graph.callers.len() == 0 && graph.callees.len() == 0
            &&& direction == "callers"@ ==> graph.callees.len() == 0
            &&& direction == "callees"@ ==> graph.callers.len() == 0
        }),
{
    reveal_strlit("callers");
    reveal_strlit("callees");
    reveal_strlit("both");
    assert("callers"@.len() == 7 && "callees"@.len() == 7 && "both"@.len() == 4);
    assert("callers"@[4] == 'e' && "callees"@[4] == 'e');
    assert("callers"@[5] == 'r' && "callees"@[5] == 'e');
}

/// A `calls` edge shows from both ends: at depth one or more, its source is
/// among the callers of its target when callers are asked for, and its
/// target among the callees of its source when callees are asked for.
pub proof fn lemma_callgraph_edge(
    s: StoreView,
    project_id: i64,
    symbol: Seq<char>,
    depth: u32,
    direction: Seq<char>,
    j: int,
)
    requires
        0 <= j < s.edges.len(),
        s.edges[j].edge_type == kind_calls(),
        depth > 0,
        s.symbol_by_name(project_id, symbol) is Some,
    ensures
        ({
            let center = s.symbol_by_name(project_id, symbol)->0;
            let graph = callgraph_of(s, project_id, symbol, depth, direction)->0;
            &&& (wants_callers(direction) && s.edges[j].target_id == center.id && s.node_by_id(
                s.edges[j].source_id,
            ) is Some) ==> graph.callers.contains(
                info_of(s)(s.node_by_id(s.edges[j].source_id)->0),
            )
            &&& (wants_callees(direction) && s.edges[j].source_id == center.id && s.node_by_id(
                s.edges[j].target_id,
            ) is Some) ==> graph.callees.contains(
                info_of(s)(s.node_by_id(s.edges[j].target_id)->0),
            )
        }),
{
    let center = s.symbol_by_name(project_id, symbol)->0;
    let graph = callgraph_of(s, project_id, symbol, depth, direction)->0;
    let e = s.edges[j];
    if wants_callers(direction) && e.target_id == center.id && s.node_by_id(e.source_id) is Some {
        let f = s.source_if_into(center.id, kind_calls());
        assert(edge_in(center.id, kind_calls())(e));
        lemma_filter_map_has(s.edges, f, j);
        let k = choose|k: int|
            0 <= k < s.edges.filter_map(f).len() && #[trigger] s.edges.filter_map(f)[k] == f(
                s.edges[j],
            )->0;
        assert(graph.callers[k] == info_of(s)(s.node_by_id(e.source_id)->0));
    }
    if wants_callees(direction) && e.source_id == center.id && s.node_by_id(e.target_id) is Some {
        let f = s.target_if_from(center.id, kind_calls());
        assert(edge_out(center.id, kind_calls())(e));
        lemma_filter_map_has(s.edges, f, j);
        let k = choose|k: int|
            0 <= k < s.edges.filter_map(f).len() && #[trigger] s.edges.filter_map(f)[k] == f(
                s.edges[j],
            )->0;
        assert(graph.callees[k] == info_of(s)(s.node_by_id(e.target_id)->0));
    }
}

/// A lookup by name finds a definition exactly where the project holds a
/// node that can define the symbol, and what it gives is where the first
/// such node starts.
pub proof fn lemma_definition_exact(s: StoreView, project_id: i64, symbol: Seq<char>)
    ensures
        definition_of(s, project_id, symbol) is Some <==> any_match(
            s.nodes,
            defines_in(s, project_id, symbol),
        ),
        definition_of(s, project_id, symbol) matches Some(loc) ==> exists|i: int|
            0 <= i < s.nodes.len() && defines_in(s, project_id, symbol)(#[trigger] s.nodes[i])
                && loc == location_of(s)(s.nodes[i]),
{
    let p = defines_in(s, project_id, symbol);
    lemma_first_index(s.nodes, p);
    if first_index(s.nodes, p) is Some {
        let i = first_index(s.nodes, p)->0;
        assert(p(s.nodes[i]));
    }
}

/// A node of the project that is of a definition kind and named as the
/// symbol is enough for the lookup to find a definition, however many other
/// nodes hold the symbol in their names; what is found is of a definition
/// kind and can define the symbol.
pub proof fn lemma_definition_found(s: StoreView, project_id: i64, symbol: Seq<char>, j: int)
    requires
        0 <= j < s.nodes.len(),
        s.node_in_project(s.nodes[j], project_id),
        s.nodes[j].name == symbol,
        is_definition_kind(s.nodes[j].node_type),
    ensures
        definition_of(s, project_id, symbol) matches Some(loc) && is_definition_kind(loc.node_type)
            && (loc.name == symbol || (loc.qualified_name matches Some(q) && (q == symbol
            || ends_with_seq(q, "."@ + symbol)))),
{
    let p = defines_in(s, project_id, symbol);
    assert(defines_symbol(symbol)(s.nodes[j]));
    assert(p(s.nodes[j]));
    lemma_first_index(s.nodes, p);
    let i = first_index(s.nodes, p)->0;
    assert(p(s.nodes[i]));
}

} // verus!
