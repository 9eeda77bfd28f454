//! What holds of Go fragments, whatever the source and its syntax tree:
//! a walk only adds to what is gathered, and a call expression that is
//! walked inside a function is linked from that function.

use vstd::prelude::*;

use crate::languages::collect::{
    grown, growing, lemma_fold_grows, node_data, qualified, Collected,
};
use crate::languages::go::{
    go_body, go_call_site, go_callable_head, go_field, go_field_list, go_fragment, go_function,
    go_import_child, go_import_spec, go_method, go_method_name, go_method_receiver,
    go_method_spec, go_parameter, go_type_child, go_type_kind, go_type_spec, go_walk,
    go_walk_all, receiver_attribute, GoView,
};
use crate::languages::syntax::SyntaxNode;

verus! {

/// The steps of the Go extractor that gather imports, parameters, fields,
/// interface methods and declared types add to what is gathered.
pub proof fn lemma_go_steps_grow(src: Seq<char>, owner: usize, package: Option<Seq<char>>)
    ensures
        growing(go_import_spec(src)),
        growing(go_import_child(src)),
        growing(go_parameter(src, owner)),
        growing(go_field(src, owner)),
        growing(go_field_list(src, owner)),
        growing(go_method_spec(src, owner)),
        growing(go_type_spec(src, package)),
        growing(go_type_child(src, package)),
{
    assert(growing(go_import_spec(src)));
    assert forall|out: Collected, node: SyntaxNode|
        grown(out, #[trigger] go_import_child(src)(out, node)) by {
        lemma_fold_grows(node.children@, node.children@.len(), out, go_import_spec(src));
    }
    assert(growing(go_parameter(src, owner)));
    assert(growing(go_field(src, owner)));
    assert forall|out: Collected, node: SyntaxNode|
        grown(out, #[trigger] go_field_list(src, owner)(out, node)) by {
        lemma_fold_grows(node.children@, node.children@.len(), out, go_field(src, owner));
    }
    assert(growing(go_method_spec(src, owner)));
    assert forall|out: Collected, node: SyntaxNode|
        grown(out, #[trigger] go_type_spec(src, package)(out, node)) by {
        lemma_go_type_spec_grows(src, package, out, node);
    }
    assert(growing(go_type_child(src, package)));
}

/// A type spec adds to what is gathered.
proof fn lemma_go_type_spec_grows(
    src: Seq<char>,
    package: Option<Seq<char>>,
    out: Collected,
    node: SyntaxNode,
)
    ensures
        grown(out, go_type_spec(src, package)(out, node)),
{
    let owner = out.nodes.len() as usize;
    if node.child_by_field("name"@) is Some && node.child_by_field("type"@) is Some {
        let name = node.children@[node.child_by_field("name"@)->0].text(src);
        let type_node = node.children@[node.child_by_field("type"@)->0];
        let named = out.with_node(
            node_data(
                go_type_kind(type_node.kind@),
                name,
                Some(qualified(package, name)),
                node,
                None,
            ),
        );
        assert(grown(out, named));
        assert forall|o: Collected, n: SyntaxNode|
            grown(o, #[trigger] go_field_list(src, owner)(o, n)) by {
            assert(growing(go_field(src, owner)));
            lemma_fold_grows(n.children@, n.children@.len(), o, go_field(src, owner));
        }
        assert(growing(go_method_spec(src, owner)));
        lemma_fold_grows(
            type_node.children@,
            type_node.children@.len(),
            named,
            go_field_list(src, owner),
        );
        lemma_fold_grows(
            type_node.children@,
            type_node.children@.len(),
            named,
            go_method_spec(src, owner),
        );
    }
}

/// The state in which the body of a function declaration is walked: after
/// its node and its parameters; none if the declaration has no name.
pub open spec fn go_function_head(src: Seq<char>, node: SyntaxNode, st: GoView) -> Option<GoView> {
    match node.child_by_field("name"@) {
        Some(k) => {
            let name = node.children@[k].text(src);
            Some(
                go_callable_head(
                    src,
                    node,
                    st,
                    "function"@,
                    name,
                    qualified(st.package, name),
                    None,
                ),
            )
        },
        None => None,
    }
}

/// The state in which the body of a method declaration is walked: after
/// its node and its parameters; none if the declaration has no name.
pub open spec fn go_method_head(src: Seq<char>, node: SyntaxNode, st: GoView) -> Option<GoView> {
    match node.child_by_field("name"@) {
        Some(k) => {
            let name = node.children@[k].text(src);
            let receiver = go_method_receiver(src, node);
            let attributes = match receiver {
                Some(r) => Some(receiver_attribute(r)),
                None => None,
            };
            Some(
                go_callable_head(
                    src,
                    node,
                    st,
                    "method"@,
                    name,
                    go_method_name(st.package, receiver, name),
                    attributes,
                ),
            )
        },
        None => None,
    }
}

/// The node of a function or method and its parameters add to what is
/// gathered, the node first.
pub proof fn lemma_go_head_grows(
    src: Seq<char>,
    node: SyntaxNode,
    st: GoView,
    kind: Seq<char>,
    name: Seq<char>,
    qualified_name: Seq<char>,
    attributes: Option<Seq<char>>,
)
    ensures
        ({
            let head = go_callable_head(src, node, st, kind, name, qualified_name, attributes);
            &&& grown(st.out, head.out)
            &&& head.out.nodes.len() > st.out.nodes.len()
            &&& head.out.nodes[st.out.nodes.len() as int] == node_data(
                kind,
                name,
                Some(qualified_name),
                node,
                attributes,
            )
            &&& head.func == Some(st.out.nodes.len() as usize)
            &&& head.package == st.package
        }),
{
    let owner = st.out.nodes.len() as usize;
    let named = st.out.with_node(node_data(kind, name, Some(qualified_name), node, attributes));
    assert(grown(st.out, named));
    if node.child_by_field("parameters"@) is Some {
        let params = node.children@[node.child_by_field("parameters"@)->0];
        assert(growing(go_parameter(src, owner)));
        lemma_fold_grows(params.children@, params.children@.len(), named, go_parameter(src, owner));
    }
}

/// A walk only adds to what is gathered, and ends in the function it
/// started in.
pub proof fn lemma_go_walk_grows(src: Seq<char>, node: SyntaxNode, st: GoView)
    ensures
        grown(st.out, go_walk(src, node, st).out),
        go_walk(src, node, st).func == st.func,
    decreases node, 2nat,
{
    if node.kind@ == "package_clause"@ {
    } else if node.kind@ == "import_declaration"@ {
        lemma_go_steps_grow(src, 0, None);
        lemma_fold_grows(node.children@, node.children@.len(), st.out, go_import_child(src));
    } else if node.kind@ == "function_declaration"@ {
        lemma_go_function_head(src, node, st);
        lemma_go_body_grows(src, node, go_function_head(src, node, st), st);
    } else if node.kind@ == "method_declaration"@ {
        lemma_go_method_head(src, node, st);
        lemma_go_body_grows(src, node, go_method_head(src, node, st), st);
    } else if node.kind@ == "type_declaration"@ {
        lemma_go_steps_grow(src, 0, st.package);
        lemma_fold_grows(
            node.children@,
            node.children@.len(),
            st.out,
            go_type_child(src, st.package),
        );
    } else if node.kind@ == "call_expression"@ {
        let called = go_call_site(src, node, st);
        assert(grown(st.out, called.out));
        match node.child_by_field("arguments"@) {
            Some(a) => {
                lemma_go_walk_all_grows(
                    src,
                    node.children@[a].children@,
                    node.children@[a].children@.len(),
                    called,
                );
            },
            None => {},
        }
    } else {
        lemma_go_walk_all_grows(src, node.children@, node.children@.len(), st);
    }
}

/// Walking nodes in order only adds to what is gathered, and ends in the
/// function it started in.
pub proof fn lemma_go_walk_all_grows(src: Seq<char>, nodes: Seq<SyntaxNode>, count: nat, st: GoView)
    ensures
        grown(st.out, go_walk_all(src, nodes, count, st).out),
        go_walk_all(src, nodes, count, st).func == st.func,
    decreases nodes, count,
{
    if count == 0 || count > nodes.len() {
    } else {
        lemma_go_walk_all_grows(src, nodes, (count - 1) as nat, st);
        lemma_go_walk_grows(src, nodes[count - 1], go_walk_all(src, nodes, (count - 1) as nat, st));
    }
}

/// What a function or method declaration makes of `st`, given the state
/// `head` in which its body is walked.
pub open spec fn go_declared(src: Seq<char>, node: SyntaxNode, head: Option<GoView>, st: GoView)
    -> GoView {
    match head {
        Some(h) => go_body(src, node, h, st),
        None => st,
    }
}

/// A function declaration is its body walked after its node and parameters,
/// which add to what is gathered.
pub proof fn lemma_go_function_head(src: Seq<char>, node: SyntaxNode, st: GoView)
    ensures
        go_function(src, node, st) == go_declared(src, node, go_function_head(src, node, st), st),
        go_function_head(src, node, st) matches Some(h) ==> grown(st.out, h.out),
{
    if node.child_by_field("name"@) is Some {
        let name = node.children@[node.child_by_field("name"@)->0].text(src);
        lemma_go_head_grows(src, node, st, "function"@, name, qualified(st.package, name), None);
    }
}

/// A method declaration is its body walked after its node and parameters,
/// which add to what is gathered.
pub proof fn lemma_go_method_head(src: Seq<char>, node: SyntaxNode, st: GoView)
    ensures
        go_method(src, node, st) == go_declared(src, node, go_method_head(src, node, st), st),
        go_method_head(src, node, st) matches Some(h) ==> grown(st.out, h.out),
{
    if node.child_by_field("name"@) is Some {
        let name = node.children@[node.child_by_field("name"@)->0].text(src);
        let receiver = go_method_receiver(src, node);
        let attributes = match receiver {
            Some(r) => Some(receiver_attribute(r)),
            None => None,
        };
        lemma_go_head_grows(
            src,
            node,
            st,
            "method"@,
            name,
            go_method_name(st.package, receiver, name),
            attributes,
        );
    }
}

/// The body of a function or method, walked from the state `head` after its
/// node and parameters, only adds to what `head` holds, and the declaration
/// ends in the function it started in.
proof fn lemma_go_body_grows(src: Seq<char>, node: SyntaxNode, head: Option<GoView>, st: GoView)
    requires
        head matches Some(h) ==> grown(st.out, h.out),
    ensures
        grown(st.out, go_declared(src, node, head, st).out),
        go_declared(src, node, head, st).func == st.func,
        head matches Some(h) ==> grown(h.out, go_declared(src, node, head, st).out),
    decreases node, 0nat,
{
    match head {
        Some(h) => {
            match node.child_by_field("body"@) {
                Some(b) => {
                    lemma_go_walk_all_grows(
                        src,
                        node.children@[b].children@,
                        node.children@[b].children@.len(),
                        h,
                    );
                },
                None => {},
            }
        },
        None => {},
    }
}

/// Walking `node` from the state `st` comes upon the node `x` in the state
/// `at`: `x` is `node` itself, or is come upon in the body of a function or
/// method, in the arguments of a call expression, or in the children of
/// any other node that is walked child by child.
pub open spec fn go_meets(src: Seq<char>, node: SyntaxNode, st: GoView, x: SyntaxNode, at: GoView)
    -> bool
    decreases node, 2nat,
{
    (node == x && st == at) || if node.kind@ == "package_clause"@ {
        false
    } else if node.kind@ == "import_declaration"@ {
        false
    } else if node.kind@ == "function_declaration"@ {
        go_meets_in_body(src, node, go_function_head(src, node, st), x, at)
    } else if node.kind@ == "method_declaration"@ {
        go_meets_in_body(src, node, go_method_head(src, node, st), x, at)
    } else if node.kind@ == "type_declaration"@ {
        false
    } else if node.kind@ == "call_expression"@ {
        match node.child_by_field("arguments"@) {
            Some(a) => go_meets_among(
                src,
                node.children@[a].children@,
                node.children@[a].children@.len(),
                go_call_site(src, node, st),
                x,
                at,
            ),
            None => false,
        }
    } else {
        go_meets_among(src, node.children@, node.children@.len(), st, x, at)
    }
}

/// Walking the first `count` of the nodes from `st` comes upon `x` in the
/// state `at`.
pub open spec fn go_meets_among(
    src: Seq<char>,
    nodes: Seq<SyntaxNode>,
    count: nat,
    st: GoView,
    x: SyntaxNode,
    at: GoView,
) -> bool
    decreases nodes, count,
{
    0 < count <= nodes.len() && (go_meets_among(src, nodes, (count - 1) as nat, st, x, at)
        || go_meets(
        src,
        nodes[count - 1],
        go_walk_all(src, nodes, (count - 1) as nat, st),
        x,
        at,
    ))
}

/// Walking the body of a function or method from `head` comes upon `x` in
/// the state `at`.
pub open spec fn go_meets_in_body(
    src: Seq<char>,
    node: SyntaxNode,
    head: Option<GoView>,
    x: SyntaxNode,
    at: GoView,
) -> bool
    decreases node, 0nat,
{
    match head {
        Some(h) => match node.child_by_field("body"@) {
            Some(b) => go_meets_among(
                src,
                node.children@[b].children@,
                node.children@[b].children@.len(),
                h,
                x,
                at,
            ),
            None => false,
        },
        None => false,
    }
}

/// What a walk gathers of a node that it comes upon stays: the outcome of
/// the whole walk holds all that walking that node gathered.
pub proof fn lemma_go_met_stays(
    src: Seq<char>,
    node: SyntaxNode,
    st: GoView,
    x: SyntaxNode,
    at: GoView,
)
    requires
        go_meets(src, node, st, x, at),
    ensures
        grown(go_walk(src, x, at).out, go_walk(src, node, st).out),
    decreases node, 2nat,
{
    if node == x && st == at {
    } else if node.kind@ == "package_clause"@ {
    } else if node.kind@ == "import_declaration"@ {
    } else if node.kind@ == "function_declaration"@ {
        lemma_go_function_head(src, node, st);
        lemma_go_met_in_body_stays(src, node, go_function_head(src, node, st), st, x, at);
    } else if node.kind@ == "method_declaration"@ {
        lemma_go_method_head(src, node, st);
        lemma_go_met_in_body_stays(src, node, go_method_head(src, node, st), st, x, at);
    } else if node.kind@ == "type_declaration"@ {
    } else if node.kind@ == "call_expression"@ {
        let a = node.child_by_field("arguments"@)->0;
        lemma_go_met_among_stays(
            src,
            node.children@[a].children@,
            node.children@[a].children@.len(),
            go_call_site(src, node, st),
            x,
            at,
        );
    } else {
        lemma_go_met_among_stays(src, node.children@, node.children@.len(), st, x, at);
    }
}

/// What a walk of nodes in order gathers of a node that it comes upon stays.
pub proof fn lemma_go_met_among_stays(
    src: Seq<char>,
    nodes: Seq<SyntaxNode>,
    count: nat,
    st: GoView,
    x: SyntaxNode,
    at: GoView,
)
    requires
        go_meets_among(src, nodes, count, st, x, at),
    ensures
        grown(go_walk(src, x, at).out, go_walk_all(src, nodes, count, st).out),
    decreases nodes, count,
{
    let before = go_walk_all(src, nodes, (count - 1) as nat, st);
    if go_meets_among(src, nodes, (count - 1) as nat, st, x, at) {
        lemma_go_met_among_stays(src, nodes, (count - 1) as nat, st, x, at);
        lemma_go_walk_grows(src, nodes[count - 1], before);
    } else {
        lemma_go_met_stays(src, nodes[count - 1], before, x, at);
    }
}

/// What the walk of a body gathers of a node that it comes upon stays.
proof fn lemma_go_met_in_body_stays(
    src: Seq<char>,
    node: SyntaxNode,
    head: Option<GoView>,
    st: GoView,
    x: SyntaxNode,
    at: GoView,
)
    requires
        go_meets_in_body(src, node, head, x, at),
    ensures
        grown(go_walk(src, x, at).out, go_declared(src, node, head, st).out),
    decreases node, 0nat,
{
    let b = node.child_by_field("body"@)->0;
    lemma_go_met_among_stays(
        src,
        node.children@[b].children@,
        node.children@[b].children@.len(),
        head->0,
        x,
        at,
    );
}

/// A call inside a function is linked from the function: where the walk of
/// a tree comes upon a function declaration `f` with a name, and the walk
/// of `f` comes upon a call expression `x` with a called expression while
/// in `f` itself, the fragment holds the function node where `f` was come
/// upon, the call node where `x` was, and a `calls` link from the one to
/// the other. The fragment's nodes are no more than the machine can count.
pub proof fn lemma_go_call_linked(
    src: Seq<char>,
    tree: SyntaxNode,
    f: SyntaxNode,
    at_f: GoView,
    x: SyntaxNode,
    at_x: GoView,
)
    requires
        go_fragment(src, tree).nodes.len() <= usize::MAX,
        go_meets(src, tree, GoView::start(), f, at_f),
        f.kind@ == "function_declaration"@,
        f.child_by_field("name"@) is Some,
        go_meets(src, f, at_f, x, at_x),
        x.kind@ == "call_expression"@,
        x.child_by_field("function"@) is Some,
        at_x.func matches Some(owner) && owner == at_f.out.nodes.len(),
    ensures
        ({
            let out = go_fragment(src, tree);
            let name = f.children@[f.child_by_field("name"@)->0].text(src);
            let called = x.children@[x.child_by_field("function"@)->0].text(src);
            let i = at_f.out.nodes.len() as int;
            let j = at_x.out.nodes.len() as int;
            let m = at_x.out.links.len() as int;
            &&& i < out.nodes.len()
            &&& j < out.nodes.len()
            &&& m < out.links.len()
            &&& out.nodes[i] == node_data(
                "function"@,
                name,
                Some(qualified(at_f.package, name)),
                f,
                None,
            )
            &&& out.nodes[j] == node_data("call"@, called, None, x, None)
            &&& out.links[m].source == i
            &&& out.links[m].target == j
            &&& out.links[m].kind == "calls"@
        }),
{
    let out = go_fragment(src, tree);
    let name = f.children@[f.child_by_field("name"@)->0].text(src);
    let in_f = go_walk(src, f, at_f).out;
    let in_x = go_walk(src, x, at_x).out;
    reveal_strlit("package_clause");
    reveal_strlit("import_declaration");
    reveal_strlit("function_declaration");
    reveal_strlit("method_declaration");
    reveal_strlit("type_declaration");
    reveal_strlit("call_expression");
    assert("function_declaration"@.len() == 20 && "package_clause"@.len() == 14
        && "import_declaration"@.len() == 18 && "call_expression"@.len() == 15
        && "method_declaration"@.len() == 18 && "type_declaration"@.len() == 16);
    assert("import_declaration"@[0] == 'i' && "method_declaration"@[0] == 'm');
    lemma_go_met_stays(src, tree, GoView::start(), f, at_f);
    lemma_go_met_stays(src, f, at_f, x, at_x);
    assert(grown(in_x, in_f));
    assert(grown(in_f, out));
    lemma_go_head_grows(src, f, at_f, "function"@, name, qualified(at_f.package, name), None);
    let head = go_function_head(src, f, at_f)->0;
    lemma_go_function_head(src, f, at_f);
    lemma_go_body_grows(src, f, Some(head), at_f);
    assert(go_walk(src, f, at_f) == go_function(src, f, at_f));
    assert(grown(head.out, in_f));
    let site = go_call_site(src, x, at_x);
    match x.child_by_field("arguments"@) {
        Some(a) => {
            lemma_go_walk_all_grows(
                src,
                x.children@[a].children@,
                x.children@[a].children@.len(),
                site,
            );
        },
        None => {},
    }
    assert(grown(site.out, in_x));
    let i = at_f.out.nodes.len() as int;
    let j = at_x.out.nodes.len() as int;
    let m = at_x.out.links.len() as int;
    assert(site.out.nodes[j] == in_x.nodes[j]);
    assert(in_f.nodes[j] == in_x.nodes[j]);
    assert(out.nodes[j] == in_f.nodes[j]);
    assert(site.out.links[m] == in_x.links[m]);
    assert(in_f.links[m] == in_x.links[m]);
    assert(out.links[m] == in_f.links[m]);
    assert(in_f.nodes[i] == head.out.nodes[i]);
    assert(out.nodes[i] == in_f.nodes[i]);
}

} // verus!
