//! Go language support.

use vstd::prelude::*;

use crate::languages::collect::{
    node_data, qualified, qualify, trim, trimmed, Collected, Collector, ExtractError,
};
use crate::languages::syntax::{fold_children, lemma_child_fits, SyntaxNode};
use crate::languages::{is_outcome, LanguageSupport};
use crate::seqs::{first_index, lemma_first_absent, lemma_first_found};
use crate::storage::models::{EdgeData, NodeData};
use crate::text::join;

verus! {

/// Mathematical value of a Go extractor: what it has gathered, the package
/// it is in, and the position of the function it is in.
pub struct GoView {
    pub out: Collected,
    pub package: Option<Seq<char>>,
    pub func: Option<usize>,
}

impl GoView {
    /// Links join gathered nodes, and so does the enclosing function.
    pub open spec fn inv(self) -> bool {
        &&& self.out.closed()
        &&& (self.func matches Some(f) ==> f < self.out.nodes.len())
    }

    /// `self` can follow `before`: it is valid and has lost no node.
    pub open spec fn follows(self, before: GoView) -> bool {
        &&& self.inv()
        &&& self.out.nodes.len() >= before.out.nodes.len()
    }

    /// The state a walk starts in.
    pub open spec fn start() -> GoView {
        GoView { out: Collected::empty(), package: None, func: None }
    }

    /// The same state with other gatherings.
    pub open spec fn with_out(self, out: Collected) -> GoView {
        GoView { out, ..self }
    }
}

/// The attribute blob of a method with a receiver of the given type.
pub open spec fn receiver_attribute(receiver: Seq<char>) -> Seq<char> {
    "{\"receiver\":\""@ + receiver + "\"}"@
}

/// The attribute blob of an interface method.
pub open spec fn abstract_attribute() -> Seq<char> {
    "{\"abstract\":true}"@
}

/// A package clause: the package node, which also names the package that
/// later names are qualified with.
pub open spec fn go_package(src: Seq<char>, node: SyntaxNode, st: GoView) -> GoView {
    match node.child_of_kind("package_identifier"@) {
        Some(k) => {
            let name = node.children@[k].text(src);
            GoView {
                out: st.out.with_node(node_data("package"@, name, Some(name), node, None)),
                package: Some(name),
                func: st.func,
            }
        },
        None => st,
    }
}

/// An import spec: an import node named by the path without its quotes.
pub open spec fn go_import_spec(src: Seq<char>) -> spec_fn(Collected, SyntaxNode) -> Collected {
    |out: Collected, node: SyntaxNode|
        match node.child_by_field("path"@) {
            Some(k) => {
                let name = trimmed(node.children@[k].text(src), '"');
                out.with_node(node_data("import"@, name, Some(name), node, None))
            },
            None => out,
        }
}

/// A child of an import declaration: a list of specs or a single spec.
pub open spec fn go_import_child(src: Seq<char>) -> spec_fn(Collected, SyntaxNode) -> Collected {
    |out: Collected, child: SyntaxNode|
        if child.kind@ == "import_spec_list"@ {
            fold_children(child.children@, child.children@.len(), out, go_import_spec(src))
        } else if child.kind@ == "import_spec"@ {
            go_import_spec(src)(out, child)
        } else {
            out
        }
}

/// An import declaration.
pub open spec fn go_imports(src: Seq<char>, node: SyntaxNode, out: Collected) -> Collected {
    fold_children(node.children@, node.children@.len(), out, go_import_child(src))
}

/// A parameter declaration with a name: a parameter node, linked from its
/// function.
pub open spec fn go_parameter(src: Seq<char>, owner: usize) -> spec_fn(
    Collected,
    SyntaxNode,
) -> Collected {
    |out: Collected, param: SyntaxNode|
        if param.kind@ == "parameter_declaration"@ {
            match param.child_by_field("name"@) {
                Some(k) => out.with_node(
                    node_data("parameter"@, param.children@[k].text(src), None, param, None),
                ).with_link(owner, out.nodes.len() as usize, "has_parameter"@),
                None => out,
            }
        } else {
            out
        }
}

/// A parameter list.
pub open spec fn go_parameters(src: Seq<char>, owner: usize, params: SyntaxNode, out: Collected)
    -> Collected {
    fold_children(params.children@, params.children@.len(), out, go_parameter(src, owner))
}

/// The name of a type: of a pointer type, the type pointed to.
pub open spec fn go_type_name(src: Seq<char>, node: SyntaxNode) -> Seq<char> {
    if node.kind@ == "pointer_type"@ {
        match node.child_of_kind("type_identifier"@) {
            Some(k) => node.children@[k].text(src),
            None => node.text(src),
        }
    } else {
        node.text(src)
    }
}

/// The child is a parameter declaration with a type.
pub open spec fn typed_parameter() -> spec_fn(SyntaxNode) -> bool {
    |c: SyntaxNode| c.kind@ == "parameter_declaration"@ && c.child_by_field("type"@) is Some
}

/// The type of a method's receiver: of the first parameter declaration
/// with a type.
pub open spec fn go_receiver_type(src: Seq<char>, receiver: SyntaxNode) -> Option<Seq<char>> {
    match first_index(receiver.children@, typed_parameter()) {
        Some(k) => if 0 <= k < receiver.children@.len() {
            let decl = receiver.children@[k];
            Some(go_type_name(src, decl.children@[decl.child_by_field("type"@)->0]))
        } else {
            None
        },
        None => None,
    }
}

/// A field declaration with a name: a field node, contained in its struct.
pub open spec fn go_field(src: Seq<char>, owner: usize) -> spec_fn(Collected, SyntaxNode) -> Collected {
    |out: Collected, field: SyntaxNode|
        if field.kind@ == "field_declaration"@ {
            match field.child_by_field("name"@) {
                Some(k) => out.with_node(
                    node_data("field"@, field.children@[k].text(src), None, field, None),
                ).with_link(owner, out.nodes.len() as usize, "contains"@),
                None => out,
            }
        } else {
            out
        }
}

/// A child of a struct type: the fields of a field declaration list.
pub open spec fn go_field_list(src: Seq<char>, owner: usize) -> spec_fn(
    Collected,
    SyntaxNode,
) -> Collected {
    |out: Collected, child: SyntaxNode|
        if child.kind@ == "field_declaration_list"@ {
            fold_children(child.children@, child.children@.len(), out, go_field(src, owner))
        } else {
            out
        }
}

/// The fields of a struct type.
pub open spec fn go_struct_fields(src: Seq<char>, owner: usize, node: SyntaxNode, out: Collected)
    -> Collected {
    fold_children(node.children@, node.children@.len(), out, go_field_list(src, owner))
}

/// A method spec with a name: an abstract method node, contained in its
/// interface.
pub open spec fn go_method_spec(src: Seq<char>, owner: usize) -> spec_fn(
    Collected,
    SyntaxNode,
) -> Collected {
    |out: Collected, child: SyntaxNode|
        if child.kind@ == "method_spec"@ {
            match child.child_by_field("name"@) {
                Some(k) => out.with_node(
                    node_data(
                        "method"@,
                        child.children@[k].text(src),
                        None,
                        child,
                        Some(abstract_attribute()),
                    ),
                ).with_link(owner, out.nodes.len() as usize, "contains"@),
                None => out,
            }
        } else {
            out
        }
}

/// The methods of an interface type.
pub open spec fn go_interface_methods(
    src: Seq<char>,
    owner: usize,
    node: SyntaxNode,
    out: Collected,
) -> Collected {
    fold_children(node.children@, node.children@.len(), out, go_method_spec(src, owner))
}

/// The node kind of a declared type, by the kind of the type's syntax.
pub open spec fn go_type_kind(type_kind: Seq<char>) -> Seq<char> {
    if type_kind == "struct_type"@ {
        "struct"@
    } else if type_kind == "interface_type"@ {
        "interface"@
    } else {
        "type"@
    }
}

/// A type spec with a name: a struct, interface or type node, with the
/// fields of a struct and the methods of an interface.
pub open spec fn go_type_spec(src: Seq<char>, package: Option<Seq<char>>) -> spec_fn(
    Collected,
    SyntaxNode,
) -> Collected {
    |out: Collected, node: SyntaxNode|
        match node.child_by_field("name"@) {
            Some(k) => {
                let name = node.children@[k].text(src);
                let owner = out.nodes.len() as usize;
                match node.child_by_field("type"@) {
                    Some(t) => {
                        let type_node = node.children@[t];
                        let named = out.with_node(
                            node_data(
                                go_type_kind(type_node.kind@),
                                name,
                                Some(qualified(package, name)),
                                node,
                                None,
                            ),
                        );
                        if type_node.kind@ == "struct_type"@ {
                            go_struct_fields(src, owner, type_node, named)
                        } else if type_node.kind@ == "interface_type"@ {
                            go_interface_methods(src, owner, type_node, named)
                        } else {
                            named
                        }
                    },
                    None => out.with_node(
                        node_data("type"@, name, Some(qualified(package, name)), node, None),
                    ),
                }
            },
            None => out,
        }
}

/// A child of a type declaration: a type spec.
pub open spec fn go_type_child(src: Seq<char>, package: Option<Seq<char>>) -> spec_fn(
    Collected,
    SyntaxNode,
) -> Collected {
    |out: Collected, child: SyntaxNode|
        if child.kind@ == "type_spec"@ {
            go_type_spec(src, package)(out, child)
        } else {
            out
        }
}

/// A type declaration.
pub open spec fn go_type_declaration(
    src: Seq<char>,
    package: Option<Seq<char>>,
    node: SyntaxNode,
    out: Collected,
) -> Collected {
    fold_children(node.children@, node.children@.len(), out, go_type_child(src, package))
}

/// The node of a function or method and its parameters, before its body.
pub open spec fn go_callable_head(
    src: Seq<char>,
    node: SyntaxNode,
    st: GoView,
    kind: Seq<char>,
    name: Seq<char>,
    qualified_name: Seq<char>,
    attributes: Option<Seq<char>>,
) -> GoView {
    let owner = st.out.nodes.len() as usize;
    let named = st.out.with_node(node_data(kind, name, Some(qualified_name), node, attributes));
    let out = match node.child_by_field("parameters"@) {
        Some(p) => go_parameters(src, owner, node.children@[p], named),
        None => named,
    };
    GoView { out, package: st.package, func: Some(owner) }
}

/// What walking a syntax tree makes of `st`.
///
/// Package clauses, imports, functions, methods, type declarations and call
/// expressions are extracted; any other node is walked child by child.
pub open spec fn go_walk(src: Seq<char>, node: SyntaxNode, st: GoView) -> GoView
    decreases node, 2nat,
{
    if node.kind@ == "package_clause"@ {
        go_package(src, node, st)
    } else if node.kind@ == "import_declaration"@ {
        st.with_out(go_imports(src, node, st.out))
    } else if node.kind@ == "function_declaration"@ {
        go_function(src, node, st)
    } else if node.kind@ == "method_declaration"@ {
        go_method(src, node, st)
    } else if node.kind@ == "type_declaration"@ {
        st.with_out(go_type_declaration(src, st.package, node, st.out))
    } else if node.kind@ == "call_expression"@ {
        go_call(src, node, st)
    } else {
        go_walk_all(src, node.children@, node.children@.len(), st)
    }
}

/// What walking the first `count` of the nodes, in order, makes of `st`.
pub open spec fn go_walk_all(src: Seq<char>, nodes: Seq<SyntaxNode>, count: nat, st: GoView)
    -> GoView
    decreases nodes, count,
{
    if count == 0 || count > nodes.len() {
        st
    } else {
        go_walk(src, nodes[count - 1], go_walk_all(src, nodes, (count - 1) as nat, st))
    }
}

/// The body of a function or method, walked inside it.
pub open spec fn go_body(src: Seq<char>, node: SyntaxNode, head: GoView, st: GoView) -> GoView
    decreases node, 0nat,
{
    let walked = match node.child_by_field("body"@) {
        Some(b) => go_walk_all(
            src,
            node.children@[b].children@,
            node.children@[b].children@.len(),
            head,
        ),
        None => head,
    };
    GoView { func: st.func, ..walked }
}

/// A function declaration with a name: a function node qualified by the
/// package, its parameters, and its body walked inside it.
pub open spec fn go_function(src: Seq<char>, node: SyntaxNode, st: GoView) -> GoView
    decreases node, 1nat,
{
    match node.child_by_field("name"@) {
        Some(k) => {
            let name = node.children@[k].text(src);
            go_body(
                src,
                node,
                go_callable_head(
                    src,
                    node,
                    st,
                    "function"@,
                    name,
                    qualified(st.package, name),
                    None,
                ),
                st,
            )
        },
        None => st,
    }
}

/// The qualified name of a method: by its receiver type, or by the package
/// where the receiver has none.
pub open spec fn go_method_name(
    package: Option<Seq<char>>,
    receiver: Option<Seq<char>>,
    name: Seq<char>,
) -> Seq<char> {
    match receiver {
        Some(r) => r + "."@ + name,
        None => qualified(package, name),
    }
}

/// The receiver type of a method declaration.
pub open spec fn go_method_receiver(src: Seq<char>, node: SyntaxNode) -> Option<Seq<char>> {
    match node.child_by_field("receiver"@) {
        Some(r) => go_receiver_type(src, node.children@[r]),
        None => None,
    }
}

/// A method declaration with a name: a method node that records its
/// receiver type, its parameters, and its body walked inside it.
pub open spec fn go_method(src: Seq<char>, node: SyntaxNode, st: GoView) -> GoView
    decreases node, 1nat,
{
    match node.child_by_field("name"@) {
        Some(k) => {
            let name = node.children@[k].text(src);
            let receiver = go_method_receiver(src, node);
            let attributes = match receiver {
                Some(r) => Some(receiver_attribute(r)),
                None => None,
            };
            go_body(
                src,
                node,
                go_callable_head(
                    src,
                    node,
                    st,
                    "method"@,
                    name,
                    go_method_name(st.package, receiver, name),
                    attributes,
                ),
                st,
            )
        },
        None => st,
    }
}

/// The call node of a call expression, linked from the enclosing function.
pub open spec fn go_call_site(src: Seq<char>, node: SyntaxNode, st: GoView) -> GoView {
    match node.child_by_field("function"@) {
        Some(k) => {
            let site = st.out.nodes.len() as usize;
            let named = st.out.with_node(
                node_data("call"@, node.children@[k].text(src), None, node, None),
            );
            st.with_out(
                match st.func {
                    Some(f) => named.with_link(f, site, "calls"@),
                    None => named,
                },
            )
        },
        None => st,
    }
}

/// A call expression: its call site, and its arguments walked.
pub open spec fn go_call(src: Seq<char>, node: SyntaxNode, st: GoView) -> GoView
    decreases node, 1nat,
{
    let called = go_call_site(src, node, st);
    match node.child_by_field("arguments"@) {
        Some(a) => go_walk_all(
            src,
            node.children@[a].children@,
            node.children@[a].children@.len(),
            called,
        ),
        None => called,
    }
}

/// The fragment of a Go source file: what walking its tree gathers.
pub open spec fn go_fragment(src: Seq<char>, tree: SyntaxNode) -> Collected {
    go_walk(src, tree, GoView::start()).out
}


/// Walks a Go syntax tree and gathers its fragment. The package and the
/// function that the walk is in are carried along, not shared.
pub struct GoGraphExtractor<'a> {
    source: &'a str,
    out: Collector,
    current_package: Option<String>,
    current_func: Option<usize>,
}

impl<'a> View for GoGraphExtractor<'a> {
    type V = GoView;

    closed spec fn view(&self) -> GoView {
        GoView {
            out: self.out@,
            package: self.current_package.deep_view(),
            func: self.current_func,
        }
    }
}

impl<'a> GoGraphExtractor<'a> {
    /// The source text that the extractor reads names from.
    pub closed spec fn src(&self) -> Seq<char> {
        self.source@
    }

    /// An extractor over the source that has gathered nothing.
    pub fn new(source: &'a str) -> (r: Self)
        ensures
            r.src() == source@,
            r@ == GoView::start(),
    {
        GoGraphExtractor {
            source,
            out: Collector::new(),
            current_package: None,
            current_func: None,
        }
    }

    /// The source text of a node.
    fn node_text(&self, node: &SyntaxNode) -> (text: String)
        requires
            node.node_fits(self.src()),
        ensures
            text@ == node.text(self.src()),
    {
        node.source_text(self.source)
    }

    /// The name qualified by the current package.
    pub fn qualify_name(&self, name: &str) -> (r: String)
        ensures
            r@ == qualified(self@.package, name@),
    {
        qualify(&self.current_package, name)
    }

    /// Extracts a package clause.
    fn extract_package(&mut self, node: &SyntaxNode)
        requires
            node.fits(old(self).src()),
            old(self)@.inv(),
        ensures
            final(self)@ == go_package(old(self).src(), *node, old(self)@),
            final(self)@.follows(old(self)@),
            final(self).src() == old(self).src(),
    {
        match node.kind_child("package_identifier") {
            Some(k) => {
                proof {
                    lemma_child_fits(*node, self.src(), k as int);
                }
                let name = self.node_text(&node.children[k]);
                self.current_package = Some(name.clone());
                let _ = self.out.add_node("package", name.clone(), Some(name), node, None);
            },
            None => {},
        }
    }

    /// Extracts an import spec.
    fn extract_import_spec(&mut self, node: &SyntaxNode)
        requires
            node.fits(old(self).src()),
            old(self)@.inv(),
        ensures
            final(self)@ == old(self)@.with_out(
                go_import_spec(old(self).src())(old(self)@.out, *node),
            ),
            final(self)@.follows(old(self)@),
            final(self).src() == old(self).src(),
    {
        match node.field_child("path") {
            Some(k) => {
                proof {
                    lemma_child_fits(*node, self.src(), k as int);
                }
                let text = self.node_text(&node.children[k]);
                let name = trim(text.as_str(), '"');
                let _ = self.out.add_node("import", name.clone(), Some(name), node, None);
            },
            None => {},
        }
    }

    /// Extracts the specs of an import spec list.
    fn extract_import_list(&mut self, list: &SyntaxNode)
        requires
            list.fits(old(self).src()),
            old(self)@.inv(),
        ensures
            final(self)@ == old(self)@.with_out(
                fold_children(
                    list.children@,
                    list.children@.len(),
                    old(self)@.out,
                    go_import_spec(old(self).src()),
                ),
            ),
            final(self)@.follows(old(self)@),
            final(self).src() == old(self).src(),
    {
        let ghost st0 = self@;
        let ghost src = self.src();
        let ghost step = go_import_spec(src);
        let mut i: usize = 0;
        while i < list.children.len()
            invariant
                i <= list.children.len(),
                list.fits(src),
                self.src() == src,
                step == go_import_spec(src),
                st0.inv(),
                self@ == st0.with_out(fold_children(list.children@, i as nat, st0.out, step)),
                self@.follows(st0),
            decreases list.children.len() - i,
        {
            proof {
                lemma_child_fits(*list, src, i as int);
            }
            self.extract_import_spec(&list.children[i]);
            i = i + 1;
        }
    }

    /// Extracts an import declaration.
    fn extract_imports(&mut self, node: &SyntaxNode)
        requires
            node.fits(old(self).src()),
            old(self)@.inv(),
        ensures
            final(self)@ == old(self)@.with_out(
                go_imports(old(self).src(), *node, old(self)@.out),
            ),
            final(self)@.follows(old(self)@),
            final(self).src() == old(self).src(),
    {
        let ghost st0 = self@;
        let ghost src = self.src();
        let ghost step = go_import_child(src);
        let mut i: usize = 0;
        while i < node.children.len()
            invariant
                i <= node.children.len(),
                node.fits(src),
                self.src() == src,
                step == go_import_child(src),
                st0.inv(),
                self@ == st0.with_out(fold_children(node.children@, i as nat, st0.out, step)),
                self@.follows(st0),
            decreases node.children.len() - i,
        {
            proof {
                lemma_child_fits(*node, src, i as int);
            }
            let child = &node.children[i];
            if child.is_kind("import_spec_list") {
                self.extract_import_list(child);
            } else if child.is_kind("import_spec") {
                self.extract_import_spec(child);
            }
            i = i + 1;
        }
    }

    /// Extracts the parameters of a function or method.
    fn extract_parameters(&mut self, func_idx: usize, params: &SyntaxNode)
        requires
            params.fits(old(self).src()),
            old(self)@.inv(),
            func_idx < old(self)@.out.nodes.len(),
        ensures
            final(self)@ == old(self)@.with_out(
                go_parameters(old(self).src(), func_idx, *params, old(self)@.out),
            ),
            final(self)@.follows(old(self)@),
            final(self).src() == old(self).src(),
    {
        let ghost st0 = self@;
        let ghost src = self.src();
        let ghost step = go_parameter(src, func_idx);
        let mut i: usize = 0;
        while i < params.children.len()
            invariant
                i <= params.children.len(),
                params.fits(src),
                self.src() == src,
                step == go_parameter(src, func_idx),
                st0.inv(),
                func_idx < st0.out.nodes.len(),
                self@ == st0.with_out(fold_children(params.children@, i as nat, st0.out, step)),
                self@.follows(st0),
            decreases params.children.len() - i,
        {
            proof {
                lemma_child_fits(*params, src, i as int);
            }
            let param = &params.children[i];
            if param.is_kind("parameter_declaration") {
                match param.field_child("name") {
                    Some(k) => {
                        proof {
                            lemma_child_fits(*param, src, k as int);
                        }
                        let name = self.node_text(&param.children[k]);
                        let param_idx = self.out.add_node("parameter", name, None, param, None);
                        self.out.add_link(func_idx, param_idx, "has_parameter");
                    },
                    None => {},
                }
            }
            i = i + 1;
        }
    }

    /// The name of a type: of a pointer type, the type pointed to.
    fn extract_type_name(&self, node: &SyntaxNode) -> (name: String)
        requires
            node.fits(self.src()),
        ensures
            name@ == go_type_name(self.src(), *node),
    {
        if node.is_kind("pointer_type") {
            match node.kind_child("type_identifier") {
                Some(k) => {
                    proof {
                        lemma_child_fits(*node, self.src(), k as int);
                    }
                    return self.node_text(&node.children[k]);
                },
                None => {},
            }
        }
        self.node_text(node)
    }

    /// The type of a method's receiver.
    fn extract_receiver_type(&self, receiver: &SyntaxNode) -> (r: Option<String>)
        requires
            receiver.fits(self.src()),
        ensures
            r.deep_view() == go_receiver_type(self.src(), *receiver),
    {
        let ghost p = typed_parameter();
        let mut i: usize = 0;
        while i < receiver.children.len()
            invariant
                i <= receiver.children.len(),
                receiver.fits(self.src()),
                p == typed_parameter(),
                forall|j: int| 0 <= j < i ==> !p(#[trigger] receiver.children@[j]),
            decreases receiver.children.len() - i,
        {
            let child = &receiver.children[i];
            if child.is_kind("parameter_declaration") {
                match child.field_child("type") {
                    Some(t) => {
                        proof {
                            lemma_child_fits(*receiver, self.src(), i as int);
                            lemma_child_fits(*child, self.src(), t as int);
                            lemma_first_found(receiver.children@, p, i as int);
                        }
                        return Some(self.extract_type_name(&child.children[t]));
                    },
                    None => {},
                }
            }
            i = i + 1;
        }
        proof {
            lemma_first_absent(receiver.children@, p);
        }
        None
    }

    /// Extracts the fields of a field declaration list.
    fn extract_field_list(&mut self, struct_idx: usize, list: &SyntaxNode)
        requires
            list.fits(old(self).src()),
            old(self)@.inv(),
            struct_idx < old(self)@.out.nodes.len(),
        ensures
            final(self)@ == old(self)@.with_out(
                fold_children(
                    list.children@,
                    list.children@.len(),
                    old(self)@.out,
                    go_field(old(self).src(), struct_idx),
                ),
            ),
            final(self)@.follows(old(self)@),
            final(self).src() == old(self).src(),
    {
        let ghost st0 = self@;
        let ghost src = self.src();
        let ghost step = go_field(src, struct_idx);
        let mut i: usize = 0;
        while i < list.children.len()
            invariant
                i <= list.children.len(),
                list.fits(src),
                self.src() == src,
                step == go_field(src, struct_idx),
                st0.inv(),
                struct_idx < st0.out.nodes.len(),
                self@ == st0.with_out(fold_children(list.children@, i as nat, st0.out, step)),
                self@.follows(st0),
            decreases list.children.len() - i,
        {
            proof {
                lemma_child_fits(*list, src, i as int);
            }
            let field = &list.children[i];
            if field.is_kind("field_declaration") {
                match field.field_child("name") {
                    Some(k) => {
                        proof {
                            lemma_child_fits(*field, src, k as int);
                        }
                        let name = self.node_text(&field.children[k]);
                        let field_idx = self.out.add_node("field", name, None, field, None);
                        self.out.add_link(struct_idx, field_idx, "contains");
                    },
                    None => {},
                }
            }
            i = i + 1;
        }
    }

    /// Extracts the fields of a struct type.
    fn extract_struct_fields(&mut self, struct_idx: usize, node: &SyntaxNode)
        requires
            node.fits(old(self).src()),
            old(self)@.inv(),
            struct_idx < old(self)@.out.nodes.len(),
        ensures
            final(self)@ == old(self)@.with_out(
                go_struct_fields(old(self).src(), struct_idx, *node, old(self)@.out),
            ),
            final(self)@.follows(old(self)@),
            final(self).src() == old(self).src(),
    {
        let ghost st0 = self@;
        let ghost src = self.src();
        let ghost step = go_field_list(src, struct_idx);
        let mut i: usize = 0;
        while i < node.children.len()
            invariant
                i <= node.children.len(),
                node.fits(src),
                self.src() == src,
                step == go_field_list(src, struct_idx),
                st0.inv(),
                struct_idx < st0.out.nodes.len(),
                self@ == st0.with_out(fold_children(node.children@, i as nat, st0.out, step)),
                self@.follows(st0),
            decreases node.children.len() - i,
        {
            proof {
                lemma_child_fits(*node, src, i as int);
            }
            let child = &node.children[i];
            if child.is_kind("field_declaration_list") {
                self.extract_field_list(struct_idx, child);
            }
            i = i + 1;
        }
    }

    /// Extracts the methods of an interface type.
    fn extract_interface_methods(&mut self, interface_idx: usize, node: &SyntaxNode)
        requires
            node.fits(old(self).src()),
            old(self)@.inv(),
            interface_idx < old(self)@.out.nodes.len(),
        ensures
            final(self)@ == old(self)@.with_out(
                go_interface_methods(old(self).src(), interface_idx, *node, old(self)@.out),
            ),
            final(self)@.follows(old(self)@),
            final(self).src() == old(self).src(),
    {
        let ghost st0 = self@;
        let ghost src = self.src();
        let ghost step = go_method_spec(src, interface_idx);
        let mut i: usize = 0;
        while i < node.children.len()
            invariant
                i <= node.children.len(),
                node.fits(src),
                self.src() == src,
                step == go_method_spec(src, interface_idx),
                st0.inv(),
                interface_idx < st0.out.nodes.len(),
                self@ == st0.with_out(fold_children(node.children@, i as nat, st0.out, step)),
                self@.follows(st0),
            decreases node.children.len() - i,
        {
            proof {
                lemma_child_fits(*node, src, i as int);
            }
            let child = &node.children[i];
            if child.is_kind("method_spec") {
                match child.field_child("name") {
                    Some(k) => {
                        proof {
                            lemma_child_fits(*child, src, k as int);
                        }
                        let name = self.node_text(&child.children[k]);
                        let method_idx = self.out.add_node(
                            "method",
                            name,
                            None,
                            child,
                            Some("{\"abstract\":true}".to_owned()),
                        );
                        self.out.add_link(interface_idx, method_idx, "contains");
                    },
                    None => {},
                }
            }
            i = i + 1;
        }
    }

    /// Extracts a type spec.
    fn extract_type_spec(&mut self, node: &SyntaxNode)
        requires
            node.fits(old(self).src()),
            old(self)@.inv(),
        ensures
            final(self)@ == old(self)@.with_out(
                go_type_spec(old(self).src(), old(self)@.package)(old(self)@.out, *node),
            ),
            final(self)@.follows(old(self)@),
            final(self).src() == old(self).src(),
    {
        let name_at = match node.field_child("name") {
            Some(k) => k,
            None => {
                return ;
            },
        };
        proof {
            lemma_child_fits(*node, self.src(), name_at as int);
        }
        let name = self.node_text(&node.children[name_at]);
        let qualified_name = self.qualify_name(name.as_str());
        match node.field_child("type") {
            Some(t) => {
                proof {
                    lemma_child_fits(*node, self.src(), t as int);
                }
                let type_node = &node.children[t];
                let node_type = if type_node.is_kind("struct_type") {
                    "struct"
                } else if type_node.is_kind("interface_type") {
                    "interface"
                } else {
                    "type"
                };
                let type_idx = self.out.add_node(node_type, name, Some(qualified_name), node, None);
                if type_node.is_kind("struct_type") {
                    self.extract_struct_fields(type_idx, type_node);
                } else if type_node.is_kind("interface_type") {
                    self.extract_interface_methods(type_idx, type_node);
                }
            },
            None => {
                let _ = self.out.add_node("type", name, Some(qualified_name), node, None);
            },
        }
    }

    /// Extracts a type declaration.
    fn extract_type_declaration(&mut self, node: &SyntaxNode)
        requires
            node.fits(old(self).src()),
            old(self)@.inv(),
        ensures
            final(self)@ == old(self)@.with_out(
                go_type_declaration(old(self).src(), old(self)@.package, *node, old(self)@.out),
            ),
            final(self)@.follows(old(self)@),
            final(self).src() == old(self).src(),
    {
        let ghost st0 = self@;
        let ghost src = self.src();
        let ghost step = go_type_child(src, st0.package);
        let mut i: usize = 0;
        while i < node.children.len()
            invariant
                i <= node.children.len(),
                node.fits(src),
                self.src() == src,
                step == go_type_child(src, st0.package),
                st0.inv(),
                self@ == st0.with_out(fold_children(node.children@, i as nat, st0.out, step)),
                self@.follows(st0),
            decreases node.children.len() - i,
        {
            proof {
                lemma_child_fits(*node, src, i as int);
            }
            let child = &node.children[i];
            if child.is_kind("type_spec") {
                self.extract_type_spec(child);
            }
            i = i + 1;
        }
    }

    /// Adds the node of a function or method with its parameters, and
    /// enters it.
    fn enter_callable(
        &mut self,
        node: &SyntaxNode,
        kind: &str,
        name: String,
        qualified_name: String,
        attributes: Option<String>,
    )
        requires
            node.fits(old(self).src()),
            old(self)@.inv(),
        ensures
            final(self)@ == go_callable_head(
                old(self).src(),
                *node,
                old(self)@,
                kind@,
                name@,
                qualified_name@,
                attributes.deep_view(),
            ),
            final(self)@.follows(old(self)@),
            final(self).src() == old(self).src(),
    {
        let idx = self.out.add_node(kind, name, Some(qualified_name), node, attributes);
        match node.field_child("parameters") {
            Some(p) => {
                proof {
                    lemma_child_fits(*node, self.src(), p as int);
                }
                self.extract_parameters(idx, &node.children[p]);
            },
            None => {},
        }
        self.current_func = Some(idx);
    }

    /// Walks the children of a node in order.
    fn walk_children(&mut self, parent: &SyntaxNode)
        requires
            parent.fits(old(self).src()),
            old(self)@.inv(),
        ensures
            final(self)@ == go_walk_all(
                old(self).src(),
                parent.children@,
                parent.children@.len(),
                old(self)@,
            ),
            final(self)@.follows(old(self)@),
            final(self).src() == old(self).src(),
        decreases parent, 0nat,
    {
        let ghost st0 = self@;
        let ghost src = self.src();
        let mut i: usize = 0;
        while i < parent.children.len()
            invariant
                i <= parent.children.len(),
                parent.fits(src),
                self.src() == src,
                st0.inv(),
                self@ == go_walk_all(src, parent.children@, i as nat, st0),
                self@.follows(st0),
            decreases parent.children.len() - i,
        {
            proof {
                lemma_child_fits(*parent, src, i as int);
            }
            self.extract(&parent.children[i]);
            i = i + 1;
        }
    }

    /// Walks the body of a function or method and leaves it.
    fn walk_body(&mut self, node: &SyntaxNode, outer: Option<usize>, Ghost(st): Ghost<GoView>)
        requires
            node.fits(old(self).src()),
            old(self)@.inv(),
            st.inv(),
            st.func == outer,
            st.out.nodes.len() <= old(self)@.out.nodes.len(),
        ensures
            final(self)@ == go_body(old(self).src(), *node, old(self)@, st),
            final(self)@.follows(st),
            final(self).src() == old(self).src(),
        decreases node, 0nat,
    {
        match node.field_child("body") {
            Some(b) => {
                proof {
                    lemma_child_fits(*node, self.src(), b as int);
                }
                self.walk_children(&node.children[b]);
            },
            None => {},
        }
        self.current_func = outer;
    }

    /// Extracts a function declaration and walks its body.
    fn extract_function(&mut self, node: &SyntaxNode)
        requires
            node.fits(old(self).src()),
            old(self)@.inv(),
        ensures
            final(self)@ == go_function(old(self).src(), *node, old(self)@),
            final(self)@.follows(old(self)@),
            final(self).src() == old(self).src(),
        decreases node, 1nat,
    {
        let ghost st = self@;
        match node.field_child("name") {
            Some(k) => {
                proof {
                    lemma_child_fits(*node, self.src(), k as int);
                }
                let name = self.node_text(&node.children[k]);
                let qualified_name = self.qualify_name(name.as_str());
                let outer = self.current_func;
                self.enter_callable(node, "function", name, qualified_name, None);
                self.walk_body(node, outer, Ghost(st));
            },
            None => {},
        }
    }

    /// Extracts a method declaration and walks its body.
    fn extract_method(&mut self, node: &SyntaxNode)
        requires
            node.fits(old(self).src()),
            old(self)@.inv(),
        ensures
            final(self)@ == go_method(old(self).src(), *node, old(self)@),
            final(self)@.follows(old(self)@),
            final(self).src() == old(self).src(),
        decreases node, 1nat,
    {
        let ghost st = self@;
        match node.field_child("name") {
            Some(k) => {
                proof {
                    lemma_child_fits(*node, self.src(), k as int);
                }
                let name = self.node_text(&node.children[k]);
                let receiver = match node.field_child("receiver") {
                    Some(r) => {
                        proof {
                            lemma_child_fits(*node, self.src(), r as int);
                        }
                        self.extract_receiver_type(&node.children[r])
                    },
                    None => None,
                };
                let qualified_name = match &receiver {
                    Some(r) => {
                        let head = join(r.as_str(), ".");
                        join(head.as_str(), name.as_str())
                    },
                    None => self.qualify_name(name.as_str()),
                };
                let attributes = match &receiver {
                    Some(r) => {
                        let head = join("{\"receiver\":\"", r.as_str());
                        Some(join(head.as_str(), "\"}"))
                    },
                    None => None,
                };
                let outer = self.current_func;
                self.enter_callable(node, "method", name, qualified_name, attributes);
                self.walk_body(node, outer, Ghost(st));
            },
            None => {},
        }
    }

    /// Extracts a call expression and walks its arguments.
    fn extract_call(&mut self, node: &SyntaxNode)
        requires
            node.fits(old(self).src()),
            old(self)@.inv(),
        ensures
            final(self)@ == go_call(old(self).src(), *node, old(self)@),
            final(self)@.follows(old(self)@),
            final(self).src() == old(self).src(),
        decreases node, 1nat,
    {
        match node.field_child("function") {
            Some(k) => {
                proof {
                    lemma_child_fits(*node, self.src(), k as int);
                }
                let name = self.node_text(&node.children[k]);
                let call_idx = self.out.add_node("call", name, None, node, None);
                match self.current_func {
                    Some(func_idx) => {
                        self.out.add_link(func_idx, call_idx, "calls");
                    },
                    None => {},
                }
            },
            None => {},
        }
        match node.field_child("arguments") {
            Some(a) => {
                proof {
                    lemma_child_fits(*node, self.src(), a as int);
                }
                self.walk_children(&node.children[a]);
            },
            None => {},
        }
    }

    /// Walks a syntax tree: extracts the node if it is of a kind that is
    /// extracted, and walks its children otherwise.
    pub fn extract(&mut self, node: &SyntaxNode)
        requires
            node.fits(old(self).src()),
            old(self)@.inv(),
        ensures
            final(self)@ == go_walk(old(self).src(), *node, old(self)@),
            final(self)@.follows(old(self)@),
            final(self).src() == old(self).src(),
        decreases node, 2nat,
    {
        if node.is_kind("package_clause") {
            self.extract_package(node);
        } else if node.is_kind("import_declaration") {
            self.extract_imports(node);
        } else if node.is_kind("function_declaration") {
            self.extract_function(node);
        } else if node.is_kind("method_declaration") {
            self.extract_method(node);
        } else if node.is_kind("type_declaration") {
            self.extract_type_declaration(node);
        } else if node.is_kind("call_expression") {
            self.extract_call(node);
        } else {
            self.walk_children(node);
        }
    }

    /// The fragment gathered.
    pub fn finish(self) -> (r: Result<(Vec<NodeData>, Vec<EdgeData>), ExtractError>)
        requires
            self@.inv(),
        ensures
            is_outcome(self@.out, r),
    {
        self.out.finish()
    }
}

/// Go language support.
pub struct GoLanguage;

impl GoLanguage {
    /// Support for Go.
    pub fn new() -> (r: Self)
        ensures
            r == GoLanguage,
    {
        GoLanguage
    }
}

impl Default for GoLanguage {
    fn default() -> (r: Self)
        ensures
            r == GoLanguage,
    {
        GoLanguage::new()
    }
}

/// The grammar of Go.
pub uninterp spec fn go_grammar_of(language: GoLanguage) -> tree_sitter::Language;

/// `tree_sitter_go::LANGUAGE` converted with `Language::from`: the grammar
/// of Go, the same at every call. Nothing else is claimed of it.
#[verifier::external_body]
fn go_grammar(language: &GoLanguage) -> (grammar: tree_sitter::Language)
    ensures
        grammar == go_grammar_of(*language),
{
    tree_sitter_go::LANGUAGE.into()
}

impl LanguageSupport for GoLanguage {
    open spec fn id(&self) -> Seq<char> {
        "go"@
    }

    open spec fn extensions(&self) -> Seq<Seq<char>> {
        seq![".go"@]
    }

    open spec fn fragment(&self, source: Seq<char>, tree: SyntaxNode) -> Collected {
        go_fragment(source, tree)
    }

    open spec fn grammar_of(&self) -> tree_sitter::Language {
        go_grammar_of(*self)
    }

    fn language_id(&self) -> (r: &str) {
        "go"
    }

    fn file_extensions(&self) -> (r: &[&str]) {
        let extensions: &[&str] = &[".go"];
        assert(extensions.deep_view() =~= seq![".go"@]);
        extensions
    }

    fn grammar(&self) -> (r: tree_sitter::Language) {
        go_grammar(self)
    }

    fn extract_graph(&self, source: &str, tree: &SyntaxNode) -> (r: Result<
        (Vec<NodeData>, Vec<EdgeData>),
        ExtractError,
    >) {
        let mut extractor = GoGraphExtractor::new(source);
        extractor.extract(tree);
        extractor.finish()
    }
}

} // verus!
