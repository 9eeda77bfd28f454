//! Java language support.

use vstd::prelude::*;

use crate::languages::collect::{node_data, qualified, qualify, Collected, Collector, ExtractError};
use crate::languages::syntax::{fold_children, lemma_child_fits, SyntaxNode};
use crate::languages::{is_outcome, LanguageSupport};
use crate::seqs::{first_index, lemma_first_absent, lemma_first_found};
use crate::storage::models::{EdgeData, NodeData};

verus! {

/// Mathematical value of a Java extractor: what it has gathered, the
/// qualified name of the class it is in, and the position of the method it
/// is in.
pub struct JavaView {
    pub out: Collected,
    pub class: Option<Seq<char>>,
    pub method: Option<usize>,
}

impl JavaView {
    /// Links join gathered nodes, and so does the enclosing method.
    pub open spec fn inv(self) -> bool {
        &&& self.out.closed()
        &&& (self.method matches Some(m) ==> m < self.out.nodes.len())
    }

    /// `self` can follow `before`: it is valid and has lost no node.
    pub open spec fn follows(self, before: JavaView) -> bool {
        &&& self.inv()
        &&& self.out.nodes.len() >= before.out.nodes.len()
    }

    /// The state a walk starts in.
    pub open spec fn start() -> JavaView {
        JavaView { out: Collected::empty(), class: None, method: None }
    }

    /// The same state with other gatherings.
    pub open spec fn with_out(self, out: Collected) -> JavaView {
        JavaView { out, ..self }
    }
}

/// A package declaration with a name: a package node.
pub open spec fn java_package(src: Seq<char>, node: SyntaxNode, out: Collected) -> Collected {
    match node.child_by_field("name"@) {
        Some(k) => {
            let name = node.children@[k].text(src);
            out.with_node(node_data("package"@, name, Some(name), node, None))
        },
        None => out,
    }
}

/// The child names what an import declaration imports.
pub open spec fn imported_name() -> spec_fn(SyntaxNode) -> bool {
    |c: SyntaxNode| c.kind@ == "scoped_identifier"@ || c.kind@ == "identifier"@
}

/// An import declaration: an import node named by its first identifier.
pub open spec fn java_import(src: Seq<char>, node: SyntaxNode, out: Collected) -> Collected {
    match first_index(node.children@, imported_name()) {
        Some(k) => if 0 <= k < node.children@.len() {
            let name = node.children@[k].text(src);
            out.with_node(node_data("import"@, name, Some(name), node, None))
        } else {
            out
        },
        None => out,
    }
}

/// An implemented interface: a reference node, linked from its class.
pub open spec fn java_implemented(src: Seq<char>, owner: usize) -> spec_fn(
    Collected,
    SyntaxNode,
) -> Collected {
    |out: Collected, child: SyntaxNode|
        if child.kind@ == "type_identifier"@ || child.kind@ == "generic_type"@ {
            out.with_node(node_data("reference"@, child.text(src), None, child, None)).with_link(
                owner,
                out.nodes.len() as usize,
                "implements"@,
            )
        } else {
            out
        }
}

/// The interfaces that a class implements.
pub open spec fn java_implements(src: Seq<char>, owner: usize, node: SyntaxNode, out: Collected)
    -> Collected {
    fold_children(node.children@, node.children@.len(), out, java_implemented(src, owner))
}

/// A formal parameter with a name: a parameter node, linked from its method.
pub open spec fn java_parameter(src: Seq<char>, owner: usize) -> spec_fn(
    Collected,
    SyntaxNode,
) -> Collected {
    |out: Collected, param: SyntaxNode|
        if param.kind@ == "formal_parameter"@ {
            match param.child_by_field("name"@) {
                Some(k) => out.with_node(
                    node_data("parameter"@, param.children@[k].text(src), None, param, None),
                ).with_link(owner, out.nodes.len() as usize, "has_parameter"@),
                None => out,
            }
        } else {
            out
        }
}

/// A parameter list.
pub open spec fn java_parameters(src: Seq<char>, owner: usize, params: SyntaxNode, out: Collected)
    -> Collected {
    fold_children(params.children@, params.children@.len(), out, java_parameter(src, owner))
}

/// A field declaration whose declarator has a name: a field node.
pub open spec fn java_field(src: Seq<char>, node: SyntaxNode, out: Collected) -> Collected {
    match node.child_by_field("declarator"@) {
        Some(d) => {
            let declarator = node.children@[d];
            match declarator.child_by_field("name"@) {
                Some(k) => out.with_node(
                    node_data("field"@, declarator.children@[k].text(src), None, node, None),
                ),
                None => out,
            }
        },
        None => out,
    }
}

/// The node of a class with its superclass and interfaces, before its body.
pub open spec fn java_class_head(src: Seq<char>, node: SyntaxNode, st: JavaView, name: Seq<char>)
    -> JavaView {
    let owner = st.out.nodes.len() as usize;
    let named = st.out.with_node(
        node_data("class"@, name, Some(qualified(st.class, name)), node, None),
    );
    let extended = match node.child_by_field("superclass"@) {
        Some(s) => {
            let superclass = node.children@[s];
            named.with_node(
                node_data("reference"@, superclass.text(src), None, superclass, None),
            ).with_link(owner, named.nodes.len() as usize, "extends"@)
        },
        None => named,
    };
    let out = match node.child_by_field("interfaces"@) {
        Some(i) => java_implements(src, owner, node.children@[i], extended),
        None => extended,
    };
    JavaView { out, class: Some(qualified(st.class, name)), method: st.method }
}

/// The node of an interface, before its body.
pub open spec fn java_interface_head(
    src: Seq<char>,
    node: SyntaxNode,
    st: JavaView,
    name: Seq<char>,
) -> JavaView {
    JavaView {
        out: st.out.with_node(
            node_data("interface"@, name, Some(qualified(st.class, name)), node, None),
        ),
        class: Some(qualified(st.class, name)),
        method: st.method,
    }
}

/// The node of a method with its parameters, before its body.
pub open spec fn java_method_head(src: Seq<char>, node: SyntaxNode, st: JavaView, name: Seq<char>)
    -> JavaView {
    let owner = st.out.nodes.len() as usize;
    let named = st.out.with_node(
        node_data("method"@, name, Some(qualified(st.class, name)), node, None),
    );
    let out = match node.child_by_field("parameters"@) {
        Some(p) => java_parameters(src, owner, node.children@[p], named),
        None => named,
    };
    JavaView { out, class: st.class, method: Some(owner) }
}

/// The node of a constructor, before its body.
pub open spec fn java_constructor_head(
    src: Seq<char>,
    node: SyntaxNode,
    st: JavaView,
    name: Seq<char>,
) -> JavaView {
    JavaView {
        out: st.out.with_node(
            node_data("constructor"@, name, Some(qualified(st.class, name)), node, None),
        ),
        class: st.class,
        method: Some(st.out.nodes.len() as usize),
    }
}

/// What walking a syntax tree makes of `st`.
///
/// Packages, imports, classes, interfaces, methods, constructors, fields
/// and method invocations are extracted; any other node is walked child by
/// child.
pub open spec fn java_walk(src: Seq<char>, node: SyntaxNode, st: JavaView) -> JavaView
    decreases node, 2nat,
{
    if node.kind@ == "package_declaration"@ {
        st.with_out(java_package(src, node, st.out))
    } else if node.kind@ == "import_declaration"@ {
        st.with_out(java_import(src, node, st.out))
    } else if node.kind@ == "class_declaration"@ {
        java_class(src, node, st)
    } else if node.kind@ == "interface_declaration"@ {
        java_interface(src, node, st)
    } else if node.kind@ == "method_declaration"@ {
        java_method(src, node, st)
    } else if node.kind@ == "constructor_declaration"@ {
        java_constructor(src, node, st)
    } else if node.kind@ == "field_declaration"@ {
        st.with_out(java_field(src, node, st.out))
    } else if node.kind@ == "method_invocation"@ {
        java_invocation(src, node, st)
    } else {
        java_walk_all(src, node.children@, node.children@.len(), st)
    }
}

/// What walking the first `count` of the nodes, in order, makes of `st`.
pub open spec fn java_walk_all(src: Seq<char>, nodes: Seq<SyntaxNode>, count: nat, st: JavaView)
    -> JavaView
    decreases nodes, count,
{
    if count == 0 || count > nodes.len() {
        st
    } else {
        java_walk(src, nodes[count - 1], java_walk_all(src, nodes, (count - 1) as nat, st))
    }
}

/// The body of a declaration, walked inside it; class and method are
/// afterwards what they were outside.
pub open spec fn java_body(src: Seq<char>, node: SyntaxNode, head: JavaView, st: JavaView)
    -> JavaView
    decreases node, 0nat,
{
    let walked = match node.child_by_field("body"@) {
        Some(b) => java_walk_all(
            src,
            node.children@[b].children@,
            node.children@[b].children@.len(),
            head,
        ),
        None => head,
    };
    JavaView { out: walked.out, class: st.class, method: st.method }
}

/// A class declaration with a name.
pub open spec fn java_class(src: Seq<char>, node: SyntaxNode, st: JavaView) -> JavaView
    decreases node, 1nat,
{
    match node.child_by_field("name"@) {
        Some(k) => java_body(
            src,
            node,
            java_class_head(src, node, st, node.children@[k].text(src)),
            st,
        ),
        None => st,
    }
}

/// An interface declaration with a name.
pub open spec fn java_interface(src: Seq<char>, node: SyntaxNode, st: JavaView) -> JavaView
    decreases node, 1nat,
{
    match node.child_by_field("name"@) {
        Some(k) => java_body(
            src,
            node,
            java_interface_head(src, node, st, node.children@[k].text(src)),
            st,
        ),
        None => st,
    }
}

/// A method declaration with a name.
pub open spec fn java_method(src: Seq<char>, node: SyntaxNode, st: JavaView) -> JavaView
    decreases node, 1nat,
{
    match node.child_by_field("name"@) {
        Some(k) => java_body(
            src,
            node,
            java_method_head(src, node, st, node.children@[k].text(src)),
            st,
        ),
        None => st,
    }
}

/// A constructor declaration with a name.
pub open spec fn java_constructor(src: Seq<char>, node: SyntaxNode, st: JavaView) -> JavaView
    decreases node, 1nat,
{
    match node.child_by_field("name"@) {
        Some(k) => java_body(
            src,
            node,
            java_constructor_head(src, node, st, node.children@[k].text(src)),
            st,
        ),
        None => st,
    }
}

/// The call node of a method invocation, linked from the enclosing method.
pub open spec fn java_call_site(src: Seq<char>, node: SyntaxNode, st: JavaView) -> JavaView {
    match node.child_by_field("name"@) {
        Some(k) => {
            let site = st.out.nodes.len() as usize;
            let named = st.out.with_node(
                node_data("call"@, node.children@[k].text(src), None, node, None),
            );
            st.with_out(
                match st.method {
                    Some(m) => named.with_link(m, site, "calls"@),
                    None => named,
                },
            )
        },
        None => st,
    }
}

/// A method invocation: its call site, and its arguments walked.
pub open spec fn java_invocation(src: Seq<char>, node: SyntaxNode, st: JavaView) -> JavaView
    decreases node, 1nat,
{
    let called = java_call_site(src, node, st);
    match node.child_by_field("arguments"@) {
        Some(a) => java_walk_all(
            src,
            node.children@[a].children@,
            node.children@[a].children@.len(),
            called,
        ),
        None => called,
    }
}

/// The fragment of a Java source file: what walking its tree gathers.
pub open spec fn java_fragment(src: Seq<char>, tree: SyntaxNode) -> Collected {
    java_walk(src, tree, JavaView::start()).out
}

/// Walks a Java syntax tree and gathers its fragment. The class and the
/// method that the walk is in are carried along, not shared.
pub struct JavaGraphExtractor<'a> {
    source: &'a str,
    out: Collector,
    current_class: Option<String>,
    current_method: Option<usize>,
}

impl<'a> View for JavaGraphExtractor<'a> {
    type V = JavaView;

    closed spec fn view(&self) -> JavaView {
        JavaView {
            out: self.out@,
            class: self.current_class.deep_view(),
            method: self.current_method,
        }
    }
}

impl<'a> JavaGraphExtractor<'a> {
    /// The source text that the extractor reads names from.
    pub closed spec fn src(&self) -> Seq<char> {
        self.source@
    }

    /// An extractor over the source that has gathered nothing.
    pub fn new(source: &'a str) -> (r: Self)
        ensures
            r.src() == source@,
            r@ == JavaView::start(),
    {
        JavaGraphExtractor {
            source,
            out: Collector::new(),
            current_class: None,
            current_method: None,
        }
    }

    /// The source text of a node.
    fn node_text(&self, node: &SyntaxNode) -> (text: String)
        requires
            node.node_fits(self.src()),
        ensures
            text@ == node.text(self.src()),
    {
        node.source_text(self.source)
    }

    /// The name qualified by the current class.
    pub fn qualify_name(&self, name: &str) -> (r: String)
        ensures
            r@ == qualified(self@.class, name@),
    {
        qualify(&self.current_class, name)
    }

    /// The method name qualified by the current class.
    pub fn qualify_method_name(&self, name: &str) -> (r: String)
        ensures
            r@ == qualified(self@.class, name@),
    {
        qualify(&self.current_class, name)
    }

    /// Extracts a package declaration.
    fn extract_package(&mut self, node: &SyntaxNode)
        requires
            node.fits(old(self).src()),
            old(self)@.inv(),
        ensures
            final(self)@ == old(self)@.with_out(
                java_package(old(self).src(), *node, old(self)@.out),
            ),
            final(self)@.follows(old(self)@),
            final(self).src() == old(self).src(),
    {
        match node.field_child("name") {
            Some(k) => {
                proof {
                    lemma_child_fits(*node, self.src(), k as int);
                }
                let name = self.node_text(&node.children[k]);
                let _ = self.out.add_node("package", name.clone(), Some(name), node, None);
            },
            None => {},
        }
    }

    /// Extracts an import declaration.
    fn extract_import(&mut self, node: &SyntaxNode)
        requires
            node.fits(old(self).src()),
            old(self)@.inv(),
        ensures
            final(self)@ == old(self)@.with_out(
                java_import(old(self).src(), *node, old(self)@.out),
            ),
            final(self)@.follows(old(self)@),
            final(self).src() == old(self).src(),
    {
        let ghost p = imported_name();
        let mut i: usize = 0;
        while i < node.children.len()
            invariant
                i <= node.children.len(),
                node.fits(self.src()),
                p == imported_name(),
                self@ == old(self)@,
                self.src() == old(self).src(),
                old(self)@.inv(),
                forall|j: int| 0 <= j < i ==> !p(#[trigger] node.children@[j]),
            decreases node.children.len() - i,
        {
            let child = &node.children[i];
            if child.is_kind("scoped_identifier") || child.is_kind("identifier") {
                proof {
                    lemma_child_fits(*node, self.src(), i as int);
                    lemma_first_found(node.children@, p, i as int);
                }
                let name = self.node_text(child);
                let _ = self.out.add_node("import", name.clone(), Some(name), node, None);
                return ;
            }
            i = i + 1;
        }
        proof {
            lemma_first_absent(node.children@, p);
        }
    }

    /// Extracts the interfaces that a class implements.
    fn extract_implements(&mut self, class_idx: usize, interfaces: &SyntaxNode)
        requires
            interfaces.fits(old(self).src()),
            old(self)@.inv(),
            class_idx < old(self)@.out.nodes.len(),
        ensures
            final(self)@ == old(self)@.with_out(
                java_implements(old(self).src(), class_idx, *interfaces, old(self)@.out),
            ),
            final(self)@.follows(old(self)@),
            final(self).src() == old(self).src(),
    {
        let ghost st0 = self@;
        let ghost src = self.src();
        let ghost step = java_implemented(src, class_idx);
        let mut i: usize = 0;
        while i < interfaces.children.len()
            invariant
                i <= interfaces.children.len(),
                interfaces.fits(src),
                self.src() == src,
                step == java_implemented(src, class_idx),
                st0.inv(),
                class_idx < st0.out.nodes.len(),
                self@ == st0.with_out(
                    fold_children(interfaces.children@, i as nat, st0.out, step),
                ),
                self@.follows(st0),
            decreases interfaces.children.len() - i,
        {
            proof {
                lemma_child_fits(*interfaces, src, i as int);
            }
            let child = &interfaces.children[i];
            if child.is_kind("type_identifier") || child.is_kind("generic_type") {
                let name = self.node_text(child);
                let ref_idx = self.out.add_node("reference", name, None, child, None);
                self.out.add_link(class_idx, ref_idx, "implements");
            }
            i = i + 1;
        }
    }

    /// Extracts the parameters of a method.
    fn extract_parameters(&mut self, method_idx: usize, params: &SyntaxNode)
        requires
            params.fits(old(self).src()),
            old(self)@.inv(),
            method_idx < old(self)@.out.nodes.len(),
        ensures
            final(self)@ == old(self)@.with_out(
                java_parameters(old(self).src(), method_idx, *params, old(self)@.out),
            ),
            final(self)@.follows(old(self)@),
            final(self).src() == old(self).src(),
    {
        let ghost st0 = self@;
        let ghost src = self.src();
        let ghost step = java_parameter(src, method_idx);
        let mut i: usize = 0;
        while i < params.children.len()
            invariant
                i <= params.children.len(),
                params.fits(src),
                self.src() == src,
                step == java_parameter(src, method_idx),
                st0.inv(),
                method_idx < st0.out.nodes.len(),
                self@ == st0.with_out(fold_children(params.children@, i as nat, st0.out, step)),
                self@.follows(st0),
            decreases params.children.len() - i,
        {
            proof {
                lemma_child_fits(*params, src, i as int);
            }
            let param = &params.children[i];
            if param.is_kind("formal_parameter") {
                match param.field_child("name") {
                    Some(k) => {
                        proof {
                            lemma_child_fits(*param, src, k as int);
                        }
                        let name = self.node_text(&param.children[k]);
                        let param_idx = self.out.add_node("parameter", name, None, param, None);
                        self.out.add_link(method_idx, param_idx, "has_parameter");
                    },
                    None => {},
                }
            }
            i = i + 1;
        }
    }

    /// Extracts a field declaration.
    fn extract_field(&mut self, node: &SyntaxNode)
        requires
            node.fits(old(self).src()),
            old(self)@.inv(),
        ensures
            final(self)@ == old(self)@.with_out(
                java_field(old(self).src(), *node, old(self)@.out),
            ),
            final(self)@.follows(old(self)@),
            final(self).src() == old(self).src(),
    {
        match node.field_child("declarator") {
            Some(d) => {
                proof {
                    lemma_child_fits(*node, self.src(), d as int);
                }
                let declarator = &node.children[d];
                match declarator.field_child("name") {
                    Some(k) => {
                        proof {
                            lemma_child_fits(*declarator, self.src(), k as int);
                        }
                        let name = self.node_text(&declarator.children[k]);
                        let _ = self.out.add_node("field", name, None, node, None);
                    },
                    None => {},
                }
            },
            None => {},
        }
    }

    /// Walks the children of a node in order.
    fn walk_children(&mut self, parent: &SyntaxNode)
        requires
            parent.fits(old(self).src()),
            old(self)@.inv(),
        ensures
            final(self)@ == java_walk_all(
                old(self).src(),
                parent.children@,
                parent.children@.len(),
                old(self)@,
            ),
            final(self)@.follows(old(self)@),
            final(self).src() == old(self).src(),
        decreases parent, 0nat,
    {
        let ghost st0 = self@;
        let ghost src = self.src();
        let mut i: usize = 0;
        while i < parent.children.len()
            invariant
                i <= parent.children.len(),
                parent.fits(src),
                self.src() == src,
                st0.inv(),
                self@ == java_walk_all(src, parent.children@, i as nat, st0),
                self@.follows(st0),
            decreases parent.children.len() - i,
        {
            proof {
                lemma_child_fits(*parent, src, i as int);
            }
            self.extract(&parent.children[i]);
            i = i + 1;
        }
    }

    /// Walks the body of a declaration and leaves it: class and method are
    /// set to what they were outside.
    fn walk_body(
        &mut self,
        node: &SyntaxNode,
        outer_class: Option<String>,
        outer_method: Option<usize>,
        Ghost(st): Ghost<JavaView>,
    )
        requires
            node.fits(old(self).src()),
            old(self)@.inv(),
            st.inv(),
            st.class == outer_class.deep_view(),
            st.method == outer_method,
            st.out.nodes.len() <= old(self)@.out.nodes.len(),
        ensures
            final(self)@ == java_body(old(self).src(), *node, old(self)@, st),
            final(self)@.follows(st),
            final(self).src() == old(self).src(),
        decreases node, 0nat,
    {
        match node.field_child("body") {
            Some(b) => {
                proof {
                    lemma_child_fits(*node, self.src(), b as int);
                }
                self.walk_children(&node.children[b]);
            },
            None => {},
        }
        self.current_class = outer_class;
        self.current_method = outer_method;
    }

    /// Extracts a class declaration and walks its body.
    fn extract_class(&mut self, node: &SyntaxNode)
        requires
            node.fits(old(self).src()),
            old(self)@.inv(),
        ensures
            final(self)@ == java_class(old(self).src(), *node, old(self)@),
            final(self)@.follows(old(self)@),
            final(self).src() == old(self).src(),
        decreases node, 1nat,
    {
        let ghost st = self@;
        let name_at = match node.field_child("name") {
            Some(k) => k,
            None => {
                return ;
            },
        };
        proof {
            lemma_child_fits(*node, self.src(), name_at as int);
        }
        let name = self.node_text(&node.children[name_at]);
        let qualified_name = self.qualify_name(name.as_str());
        let class_idx = self.out.add_node(
            "class",
            name,
            Some(qualified_name.clone()),
            node,
            None,
        );
        match node.field_child("superclass") {
            Some(s) => {
                proof {
                    lemma_child_fits(*node, self.src(), s as int);
                }
                let superclass = &node.children[s];
                let super_name = self.node_text(superclass);
                let super_idx = self.out.add_node("reference", super_name, None, superclass, None);
                self.out.add_link(class_idx, super_idx, "extends");
            },
            None => {},
        }
        match node.field_child("interfaces") {
            Some(i) => {
                proof {
                    lemma_child_fits(*node, self.src(), i as int);
                }
                self.extract_implements(class_idx, &node.children[i]);
            },
            None => {},
        }
        let outer_class = self.current_class.take();
        let outer_method = self.current_method;
        self.current_class = Some(qualified_name);
        self.walk_body(node, outer_class, outer_method, Ghost(st));
    }

    /// Extracts an interface declaration and walks its body.
    fn extract_interface(&mut self, node: &SyntaxNode)
        requires
            node.fits(old(self).src()),
            old(self)@.inv(),
        ensures
            final(self)@ == java_interface(old(self).src(), *node, old(self)@),
            final(self)@.follows(old(self)@),
            final(self).src() == old(self).src(),
        decreases node, 1nat,
    {
        let ghost st = self@;
        let name_at = match node.field_child("name") {
            Some(k) => k,
            None => {
                return ;
            },
        };
        proof {
            lemma_child_fits(*node, self.src(), name_at as int);
        }
        let name = self.node_text(&node.children[name_at]);
        let qualified_name = self.qualify_name(name.as_str());
        let _ = self.out.add_node("interface", name, Some(qualified_name.clone()), node, None);
        let outer_class = self.current_class.take();
        let outer_method = self.current_method;
        self.current_class = Some(qualified_name);
        self.walk_body(node, outer_class, outer_method, Ghost(st));
    }

    /// Extracts a method declaration and walks its body.
    fn extract_method(&mut self, node: &SyntaxNode)
        requires
            node.fits(old(self).src()),
            old(self)@.inv(),
        ensures
            final(self)@ == java_method(old(self).src(), *node, old(self)@),
            final(self)@.follows(old(self)@),
            final(self).src() == old(self).src(),
        decreases node, 1nat,
    {
        let ghost st = self@;
        let name_at = match node.field_child("name") {
            Some(k) => k,
            None => {
                return ;
            },
        };
        proof {
            lemma_child_fits(*node, self.src(), name_at as int);
        }
        let name = self.node_text(&node.children[name_at]);
        let qualified_name = self.qualify_method_name(name.as_str());
        let method_idx = self.out.add_node("method", name, Some(qualified_name), node, None);
        match node.field_child("parameters") {
            Some(p) => {
                proof {
                    lemma_child_fits(*node, self.src(), p as int);
                }
                self.extract_parameters(method_idx, &node.children[p]);
            },
            None => {},
        }
        let outer_class = crate::storage::models::copy_text(&self.current_class);
        let outer_method = self.current_method;
        self.current_method = Some(method_idx);
        self.walk_body(node, outer_class, outer_method, Ghost(st));
    }

    /// Extracts a constructor declaration and walks its body.
    fn extract_constructor(&mut self, node: &SyntaxNode)
        requires
            node.fits(old(self).src()),
            old(self)@.inv(),
        ensures
            final(self)@ == java_constructor(old(self).src(), *node, old(self)@),
            final(self)@.follows(old(self)@),
            final(self).src() == old(self).src(),
        decreases node, 1nat,
    {
        let ghost st = self@;
        let name_at = match node.field_child("name") {
            Some(k) => k,
            None => {
                return ;
            },
        };
        proof {
            lemma_child_fits(*node, self.src(), name_at as int);
        }
        let name = self.node_text(&node.children[name_at]);
        let qualified_name = self.qualify_method_name(name.as_str());
        let method_idx = self.out.add_node("constructor", name, Some(qualified_name), node, None);
        let outer_class = crate::storage::models::copy_text(&self.current_class);
        let outer_method = self.current_method;
        self.current_method = Some(method_idx);
        self.walk_body(node, outer_class, outer_method, Ghost(st));
    }

    /// Extracts a method invocation and walks its arguments.
    fn extract_method_invocation(&mut self, node: &SyntaxNode)
        requires
            node.fits(old(self).src()),
            old(self)@.inv(),
        ensures
            final(self)@ == java_invocation(old(self).src(), *node, old(self)@),
            final(self)@.follows(old(self)@),
            final(self).src() == old(self).src(),
        decreases node, 1nat,
    {
        match node.field_child("name") {
            Some(k) => {
                proof {
                    lemma_child_fits(*node, self.src(), k as int);
                }
                let name = self.node_text(&node.children[k]);
                let call_idx = self.out.add_node("call", name, None, node, None);
                match self.current_method {
                    Some(method_idx) => {
                        self.out.add_link(method_idx, call_idx, "calls");
                    },
                    None => {},
                }
            },
            None => {},
        }
        match node.field_child("arguments") {
            Some(a) => {
                proof {
                    lemma_child_fits(*node, self.src(), a as int);
                }
                self.walk_children(&node.children[a]);
            },
            None => {},
        }
    }

    /// Walks a syntax tree: extracts the node if it is of a kind that is
    /// extracted, and walks its children otherwise.
    pub fn extract(&mut self, node: &SyntaxNode)
        requires
            node.fits(old(self).src()),
            old(self)@.inv(),
        ensures
            final(self)@ == java_walk(old(self).src(), *node, old(self)@),
            final(self)@.follows(old(self)@),
            final(self).src() == old(self).src(),
        decreases node, 2nat,
    {
        if node.is_kind("package_declaration") {
            self.extract_package(node);
        } else if node.is_kind("import_declaration") {
            self.extract_import(node);
        } else if node.is_kind("class_declaration") {
            self.extract_class(node);
        } else if node.is_kind("interface_declaration") {
            self.extract_interface(node);
        } else if node.is_kind("method_declaration") {
            self.extract_method(node);
        } else if node.is_kind("constructor_declaration") {
            self.extract_constructor(node);
        } else if node.is_kind("field_declaration") {
            self.extract_field(node);
        } else if node.is_kind("method_invocation") {
            self.extract_method_invocation(node);
        } else {
            self.walk_children(node);
        }
    }

    /// The fragment gathered.
    pub fn finish(self) -> (r: Result<(Vec<NodeData>, Vec<EdgeData>), ExtractError>)
        requires
            self@.inv(),
        ensures
            is_outcome(self@.out, r),
    {
        self.out.finish()
    }
}

/// Java language support.
pub struct JavaLanguage;

impl JavaLanguage {
    /// Support for Java.
    pub fn new() -> (r: Self)
        ensures
            r == JavaLanguage,
    {
        JavaLanguage
    }
}

impl Default for JavaLanguage {
    fn default() -> (r: Self)
        ensures
            r == JavaLanguage,
    {
        JavaLanguage::new()
    }
}

/// The grammar of Java.
pub uninterp spec fn java_grammar_of(language: JavaLanguage) -> tree_sitter::Language;

/// `tree_sitter_java::LANGUAGE` converted with `Language::from`: the grammar
/// of Java, the same at every call. Nothing else is claimed of it.
#[verifier::external_body]
fn java_grammar(language: &JavaLanguage) -> (grammar: tree_sitter::Language)
    ensures
        grammar == java_grammar_of(*language),
{
    tree_sitter_java::LANGUAGE.into()
}

impl LanguageSupport for JavaLanguage {
    open spec fn id(&self) -> Seq<char> {
        "java"@
    }

    open spec fn extensions(&self) -> Seq<Seq<char>> {
        seq![".java"@]
    }

    open spec fn fragment(&self, source: Seq<char>, tree: SyntaxNode) -> Collected {
        java_fragment(source, tree)
    }

    open spec fn grammar_of(&self) -> tree_sitter::Language {
        java_grammar_of(*self)
    }

    fn language_id(&self) -> (r: &str) {
        "java"
    }

    fn file_extensions(&self) -> (r: &[&str]) {
        let extensions: &[&str] = &[".java"];
        assert(extensions.deep_view() =~= seq![".java"@]);
        extensions
    }

    fn grammar(&self) -> (r: tree_sitter::Language) {
        java_grammar(self)
    }

    fn extract_graph(&self, source: &str, tree: &SyntaxNode) -> (r: Result<
        (Vec<NodeData>, Vec<EdgeData>),
        ExtractError,
    >) {
        let mut extractor = JavaGraphExtractor::new(source);
        extractor.extract(tree);
        extractor.finish()
    }
}

} // verus!
