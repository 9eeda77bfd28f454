//! What holds of Java fragments, whatever the source and its syntax tree:
//! a walk only adds to what is gathered, and a method invocation that is
//! walked inside a method is linked from that method.

use vstd::prelude::*;

use crate::languages::collect::{grown, growing, lemma_fold_grows, node_data, qualified};
use crate::languages::java::{
    java_body, java_call_site, java_class, java_class_head, java_constructor,
    java_constructor_head, java_fragment, java_implemented, java_interface, java_interface_head,
    java_method, java_method_head, java_parameter, java_walk, java_walk_all, JavaView,
};
use crate::languages::syntax::SyntaxNode;

verus! {

/// The steps of the Java extractor that gather implemented interfaces and
/// parameters add to what is gathered.
pub proof fn lemma_java_steps_grow(src: Seq<char>, owner: usize)
    ensures
        growing(java_implemented(src, owner)),
        growing(java_parameter(src, owner)),
{
    assert(growing(java_implemented(src, owner)));
    assert(growing(java_parameter(src, owner)));
}

/// The state in which the body of a class, interface, method or
/// constructor declaration is walked: after its node and what belongs to
/// its header; none if the declaration has no name.
pub open spec fn java_head(src: Seq<char>, node: SyntaxNode, st: JavaView) -> Option<JavaView> {
    match node.child_by_field("name"@) {
        Some(k) => {
            let name = node.children@[k].text(src);
            Some(
                if node.kind@ == "class_declaration"@ {
                    java_class_head(src, node, st, name)
                } else if node.kind@ == "interface_declaration"@ {
                    java_interface_head(src, node, st, name)
                } else if node.kind@ == "method_declaration"@ {
                    java_method_head(src, node, st, name)
                } else {
                    java_constructor_head(src, node, st, name)
                },
            )
        },
        None => None,
    }
}

/// What a declaration makes of `st`, given the state `head` in which its
/// body is walked.
pub open spec fn java_declared(
    src: Seq<char>,
    node: SyntaxNode,
    head: Option<JavaView>,
    st: JavaView,
) -> JavaView {
    match head {
        Some(h) => java_body(src, node, h, st),
        None => st,
    }
}

/// The node of a method and its parameters add to what is gathered, the
/// node first, and the body is walked in that method.
pub proof fn lemma_java_method_head(src: Seq<char>, node: SyntaxNode, st: JavaView, name: Seq<char>)
    ensures
        ({
            let head = java_method_head(src, node, st, name);
            &&& grown(st.out, head.out)
            &&& head.out.nodes.len() > st.out.nodes.len()
            &&& head.out.nodes[st.out.nodes.len() as int] == node_data(
                "method"@,
                name,
                Some(qualified(st.class, name)),
                node,
                None,
            )
            &&& head.method == Some(st.out.nodes.len() as usize)
            &&& head.class == st.class
        }),
{
    let owner = st.out.nodes.len() as usize;
    let named = st.out.with_node(
        node_data("method"@, name, Some(qualified(st.class, name)), node, None),
    );
    assert(grown(st.out, named));
    if node.child_by_field("parameters"@) is Some {
        let params = node.children@[node.child_by_field("parameters"@)->0];
        lemma_java_steps_grow(src, owner);
        lemma_fold_grows(params.children@, params.children@.len(), named, java_parameter(src, owner));
    }
}

/// The node of a class, its superclass and its interfaces add to what is
/// gathered.
pub proof fn lemma_java_class_head(src: Seq<char>, node: SyntaxNode, st: JavaView, name: Seq<char>)
    ensures
        grown(st.out, java_class_head(src, node, st, name).out),
{
    let owner = st.out.nodes.len() as usize;
    let named = st.out.with_node(
        node_data("class"@, name, Some(qualified(st.class, name)), node, None),
    );
    assert(grown(st.out, named));
    let extended = match node.child_by_field("superclass"@) {
        Some(s) => {
            let superclass = node.children@[s];
            named.with_node(
                node_data("reference"@, superclass.text(src), None, superclass, None),
            ).with_link(owner, named.nodes.len() as usize, "extends"@)
        },
        None => named,
    };
    assert(grown(named, extended));
    if node.child_by_field("interfaces"@) is Some {
        let list = node.children@[node.child_by_field("interfaces"@)->0];
        lemma_java_steps_grow(src, owner);
        lemma_fold_grows(
            list.children@,
            list.children@.len(),
            extended,
            java_implemented(src, owner),
        );
    }
}

/// The header of a declaration adds to what is gathered.
pub proof fn lemma_java_head_grows(src: Seq<char>, node: SyntaxNode, st: JavaView)
    ensures
        java_head(src, node, st) matches Some(h) ==> grown(st.out, h.out),
{
    if node.child_by_field("name"@) is Some {
        let name = node.children@[node.child_by_field("name"@)->0].text(src);
        lemma_java_class_head(src, node, st, name);
        lemma_java_method_head(src, node, st, name);
    }
}

/// A walk only adds to what is gathered, and ends in the class and the
/// method it started in.
pub proof fn lemma_java_walk_grows(src: Seq<char>, node: SyntaxNode, st: JavaView)
    ensures
        grown(st.out, java_walk(src, node, st).out),
        java_walk(src, node, st).method == st.method,
        java_walk(src, node, st).class == st.class,
    decreases node, 2nat,
{
    if node.kind@ == "package_declaration"@ {
    } else if node.kind@ == "import_declaration"@ {
    } else if node.kind@ == "class_declaration"@ || node.kind@ == "interface_declaration"@
        || node.kind@ == "method_declaration"@ || node.kind@ == "constructor_declaration"@ {
        lemma_java_declared(src, node, st);
        lemma_java_head_grows(src, node, st);
        lemma_java_body_grows(src, node, java_head(src, node, st), st);
    } else if node.kind@ == "field_declaration"@ {
    } else if node.kind@ == "method_invocation"@ {
        let called = java_call_site(src, node, st);
        assert(grown(st.out, called.out));
        match node.child_by_field("arguments"@) {
            Some(a) => {
                lemma_java_walk_all_grows(
                    src,
                    node.children@[a].children@,
                    node.children@[a].children@.len(),
                    called,
                );
            },
            None => {},
        }
    } else {
        lemma_java_walk_all_grows(src, node.children@, node.children@.len(), st);
    }
}

/// Walking a declaration is walking its body after its header.
pub proof fn lemma_java_declared(src: Seq<char>, node: SyntaxNode, st: JavaView)
    requires
        node.kind@ != "package_declaration"@,
        node.kind@ != "import_declaration"@,
        node.kind@ == "class_declaration"@ || node.kind@ == "interface_declaration"@ || node.kind@
            == "method_declaration"@ || node.kind@ == "constructor_declaration"@,
    ensures
        java_walk(src, node, st) == java_declared(src, node, java_head(src, node, st), st),
{
    if node.kind@ == "class_declaration"@ {
        assert(java_walk(src, node, st) == java_class(src, node, st));
    } else if node.kind@ == "interface_declaration"@ {
        assert(java_walk(src, node, st) == java_interface(src, node, st));
    } else if node.kind@ == "method_declaration"@ {
        assert(java_walk(src, node, st) == java_method(src, node, st));
    } else {
        assert(java_walk(src, node, st) == java_constructor(src, node, st));
    }
}

/// Walking nodes in order only adds to what is gathered, and ends in the
/// class and the method it started in.
pub proof fn lemma_java_walk_all_grows(
    src: Seq<char>,
    nodes: Seq<SyntaxNode>,
    count: nat,
    st: JavaView,
)
    ensures
        grown(st.out, java_walk_all(src, nodes, count, st).out),
        java_walk_all(src, nodes, count, st).method == st.method,
        java_walk_all(src, nodes, count, st).class == st.class,
    decreases nodes, count,
{
    if count == 0 || count > nodes.len() {
    } else {
        lemma_java_walk_all_grows(src, nodes, (count - 1) as nat, st);
        lemma_java_walk_grows(
            src,
            nodes[count - 1],
            java_walk_all(src, nodes, (count - 1) as nat, st),
        );
    }
}

/// The body of a declaration, walked from the state `head` after its
/// header, only adds to what `head` holds, and the declaration ends in the
/// class and the method it started in.
proof fn lemma_java_body_grows(
    src: Seq<char>,
    node: SyntaxNode,
    head: Option<JavaView>,
    st: JavaView,
)
    requires
        head matches Some(h) ==> grown(st.out, h.out),
    ensures
        grown(st.out, java_declared(src, node, head, st).out),
        java_declared(src, node, head, st).method == st.method,
        java_declared(src, node, head, st).class == st.class,
        head matches Some(h) ==> grown(h.out, java_declared(src, node, head, st).out),
    decreases node, 0nat,
{
    match head {
        Some(h) => {
            match node.child_by_field("body"@) {
                Some(b) => {
                    lemma_java_walk_all_grows(
                        src,
                        node.children@[b].children@,
                        node.children@[b].children@.len(),
                        h,
                    );
                },
                None => {},
            }
        },
        None => {},
    }
}

/// Walking `node` from the state `st` comes upon the node `x` in the state
/// `at`: `x` is `node` itself, or is come upon in the body of a
/// declaration, in the arguments of a method invocation, or in the children
/// of any other node that is walked child by child.
pub open spec fn java_meets(
    src: Seq<char>,
    node: SyntaxNode,
    st: JavaView,
    x: SyntaxNode,
    at: JavaView,
) -> bool
    decreases node, 2nat,
{
    (node == x && st == at) || if node.kind@ == "package_declaration"@ {
        false
    } else if node.kind@ == "import_declaration"@ {
        false
    } else if node.kind@ == "class_declaration"@ || node.kind@ == "interface_declaration"@
        || node.kind@ == "method_declaration"@ || node.kind@ == "constructor_declaration"@ {
        java_meets_in_body(src, node, java_head(src, node, st), x, at)
    } else if node.kind@ == "field_declaration"@ {
        false
    } else if node.kind@ == "method_invocation"@ {
        match node.child_by_field("arguments"@) {
            Some(a) => java_meets_among(
                src,
                node.children@[a].children@,
                node.children@[a].children@.len(),
                java_call_site(src, node, st),
                x,
                at,
            ),
            None => false,
        }
    } else {
        java_meets_among(src, node.children@, node.children@.len(), st, x, at)
    }
}

/// Walking the first `count` of the nodes from `st` comes upon `x` in the
/// state `at`.
pub open spec fn java_meets_among(
    src: Seq<char>,
    nodes: Seq<SyntaxNode>,
    count: nat,
    st: JavaView,
    x: SyntaxNode,
    at: JavaView,
) -> bool
    decreases nodes, count,
{
    0 < count <= nodes.len() && (java_meets_among(src, nodes, (count - 1) as nat, st, x, at)
        || java_meets(
        src,
        nodes[count - 1],
        java_walk_all(src, nodes, (count - 1) as nat, st),
        x,
        at,
    ))
}

/// Walking the body of a declaration from `head` comes upon `x` in the
/// state `at`.
pub open spec fn java_meets_in_body(
    src: Seq<char>,
    node: SyntaxNode,
    head: Option<JavaView>,
    x: SyntaxNode,
    at: JavaView,
) -> bool
    decreases node, 0nat,
{
    match head {
        Some(h) => match node.child_by_field("body"@) {
            Some(b) => java_meets_among(
                src,
                node.children@[b].children@,
                node.children@[b].children@.len(),
                h,
                x,
                at,
            ),
            None => false,
        },
        None => false,
    }
}

/// What a walk gathers of a node that it comes upon stays: the outcome of
/// the whole walk holds all that walking that node gathered.
pub proof fn lemma_java_met_stays(
    src: Seq<char>,
    node: SyntaxNode,
    st: JavaView,
    x: SyntaxNode,
    at: JavaView,
)
    requires
        java_meets(src, node, st, x, at),
    ensures
        grown(java_walk(src, x, at).out, java_walk(src, node, st).out),
    decreases node, 2nat,
{
    if node == x && st == at {
    } else if node.kind@ == "package_declaration"@ {
    } else if node.kind@ == "import_declaration"@ {
    } else if node.kind@ == "class_declaration"@ || node.kind@ == "interface_declaration"@
        || node.kind@ == "method_declaration"@ || node.kind@ == "constructor_declaration"@ {
        lemma_java_declared(src, node, st);
        lemma_java_met_in_body_stays(src, node, java_head(src, node, st), st, x, at);
    } else if node.kind@ == "field_declaration"@ {
    } else if node.kind@ == "method_invocation"@ {
        let a = node.child_by_field("arguments"@)->0;
        lemma_java_met_among_stays(
            src,
            node.children@[a].children@,
            node.children@[a].children@.len(),
            java_call_site(src, node, st),
            x,
            at,
        );
    } else {
        lemma_java_met_among_stays(src, node.children@, node.children@.len(), st, x, at);
    }
}

/// What a walk of nodes in order gathers of a node that it comes upon stays.
pub proof fn lemma_java_met_among_stays(
    src: Seq<char>,
    nodes: Seq<SyntaxNode>,
    count: nat,
    st: JavaView,
    x: SyntaxNode,
    at: JavaView,
)
    requires
        java_meets_among(src, nodes, count, st, x, at),
    ensures
        grown(java_walk(src, x, at).out, java_walk_all(src, nodes, count, st).out),
    decreases nodes, count,
{
    let before = java_walk_all(src, nodes, (count - 1) as nat, st);
    if java_meets_among(src, nodes, (count - 1) as nat, st, x, at) {
        lemma_java_met_among_stays(src, nodes, (count - 1) as nat, st, x, at);
        lemma_java_walk_grows(src, nodes[count - 1], before);
    } else {
        lemma_java_met_stays(src, nodes[count - 1], before, x, at);
    }
}

/// What the walk of a body gathers of a node that it comes upon stays.
proof fn lemma_java_met_in_body_stays(
    src: Seq<char>,
    node: SyntaxNode,
    head: Option<JavaView>,
    st: JavaView,
    x: SyntaxNode,
    at: JavaView,
)
    requires
        java_meets_in_body(src, node, head, x, at),
    ensures
        grown(java_walk(src, x, at).out, java_declared(src, node, head, st).out),
    decreases node, 0nat,
{
    let b = node.child_by_field("body"@)->0;
    lemma_java_met_among_stays(
        src,
        node.children@[b].children@,
        node.children@[b].children@.len(),
        head->0,
        x,
        at,
    );
}

/// A call inside a method is linked from the method: where the walk of a
/// tree comes upon a method declaration `f` with a name, and the walk of
/// `f` comes upon a method invocation `x` with a name while in `f` itself,
/// the fragment holds the method node where `f` was come upon, the call
/// node where `x` was, and a `calls` link from the one to the other. The
/// fragment's nodes are no more than the machine can count.
pub proof fn lemma_java_call_linked(
    src: Seq<char>,
    tree: SyntaxNode,
    f: SyntaxNode,
    at_f: JavaView,
    x: SyntaxNode,
    at_x: JavaView,
)
    requires
        java_fragment(src, tree).nodes.len() <= usize::MAX,
        java_meets(src, tree, JavaView::start(), f, at_f),
        f.kind@ == "method_declaration"@,
        f.child_by_field("name"@) is Some,
        java_meets(src, f, at_f, x, at_x),
        x.kind@ == "method_invocation"@,
        x.child_by_field("name"@) is Some,
        at_x.method matches Some(owner) && owner == at_f.out.nodes.len(),
    ensures
        ({
            let out = java_fragment(src, tree);
            let name = f.children@[f.child_by_field("name"@)->0].text(src);
            let called = x.children@[x.child_by_field("name"@)->0].text(src);
            let i = at_f.out.nodes.len() as int;
            let j = at_x.out.nodes.len() as int;
            let m = at_x.out.links.len() as int;
            &&& i < out.nodes.len()
            &&& j < out.nodes.len()
            &&& m < out.links.len()
            &&& out.nodes[i] == node_data(
                "method"@,
                name,
                Some(qualified(at_f.class, name)),
                f,
                None,
            )
            &&& out.nodes[j] == node_data("call"@, called, None, x, None)
            &&& out.links[m].source == i
            &&& out.links[m].target == j
            &&& out.links[m].kind == "calls"@
        }),
{
    let out = java_fragment(src, tree);
    let in_f = java_walk(src, f, at_f).out;
    let in_x = java_walk(src, x, at_x).out;
    reveal_strlit("package_declaration");
    reveal_strlit("import_declaration");
    reveal_strlit("class_declaration");
    reveal_strlit("interface_declaration");
    reveal_strlit("method_declaration");
    reveal_strlit("constructor_declaration");
    reveal_strlit("field_declaration");
    reveal_strlit("method_invocation");
    assert("package_declaration"@.len() == 19 && "import_declaration"@.len() == 18
        && "class_declaration"@.len() == 17 && "interface_declaration"@.len() == 21
        && "method_declaration"@.len() == 18 && "constructor_declaration"@.len() == 23
        && "field_declaration"@.len() == 17 && "method_invocation"@.len() == 17);
    assert("import_declaration"@[0] == 'i' && "method_declaration"@[0] == 'm');
    assert("class_declaration"@[0] == 'c' && "field_declaration"@[0] == 'f'
        && "method_invocation"@[0] == 'm');
    lemma_java_met_stays(src, tree, JavaView::start(), f, at_f);
    lemma_java_met_stays(src, f, at_f, x, at_x);
    assert(grown(in_x, in_f));
    assert(grown(in_f, out));
    let name = f.children@[f.child_by_field("name"@)->0].text(src);
    lemma_java_declared(src, f, at_f);
    lemma_java_method_head(src, f, at_f, name);
    let head = java_head(src, f, at_f)->0;
    assert(head == java_method_head(src, f, at_f, name));
    lemma_java_body_grows(src, f, Some(head), at_f);
    assert(grown(head.out, in_f));
    let site = java_call_site(src, x, at_x);
    match x.child_by_field("arguments"@) {
        Some(a) => {
            lemma_java_walk_all_grows(
                src,
                x.children@[a].children@,
                x.children@[a].children@.len(),
                site,
            );
        },
        None => {},
    }
    assert(grown(site.out, in_x));
    let i = at_f.out.nodes.len() as int;
    let j = at_x.out.nodes.len() as int;
    let m = at_x.out.links.len() as int;
    assert(site.out.nodes[j] == in_x.nodes[j]);
    assert(in_f.nodes[j] == in_x.nodes[j]);
    assert(out.nodes[j] == in_f.nodes[j]);
    assert(site.out.links[m] == in_x.links[m]);
    assert(in_f.links[m] == in_x.links[m]);
    assert(out.links[m] == in_f.links[m]);
    assert(in_f.nodes[i] == head.out.nodes[i]);
    assert(out.nodes[i] == in_f.nodes[i]);
}

} // verus!
