use codegraph::languages::collect::{Collector, ExtractError};
use codegraph::languages::go::{GoGraphExtractor, GoLanguage};
use codegraph::languages::java::{JavaGraphExtractor, JavaLanguage};
use codegraph::languages::parse::parse_syntax;
use codegraph::languages::syntax::SyntaxNode;
use codegraph::languages::{BuiltinLanguage, LanguageSupport};
use codegraph::storage::models::{EdgeData, NodeData};

/// A node on one line whose columns are its bytes.
fn node(kind: &str, field: Option<&str>, start: usize, end: usize, children: Vec<SyntaxNode>) -> SyntaxNode {
    SyntaxNode {
        kind: kind.to_string(),
        field: field.map(|f| f.to_string()),
        start_byte: start,
        end_byte: end,
        start_row: 0,
        start_column: start,
        end_row: 0,
        end_column: end,
        children,
    }
}

fn summary(nodes: &[NodeData]) -> Vec<(String, String, Option<String>, u32, u32)> {
    nodes
        .iter()
        .map(|n| (n.node_type.clone(), n.name.clone(), n.qualified_name.clone(), n.start_column, n.end_column))
        .collect()
}

fn links(edges: &[EdgeData]) -> Vec<(u32, u32, String)> {
    edges.iter().map(|e| (e.source_idx, e.target_idx, e.edge_type.clone())).collect()
}

fn row(kind: &str, name: &str, qualified: Option<&str>, start: u32, end: u32) -> (String, String, Option<String>, u32, u32) {
    (kind.to_string(), name.to_string(), qualified.map(|q| q.to_string()), start, end)
}

#[test]
fn test_field_and_kind_lookup_take_the_first_child() {
    let tree = node(
        "root",
        None,
        0,
        9,
        vec![
            node("a", Some("name"), 0, 1, vec![]),
            node("b", None, 1, 2, vec![]),
            node("b", Some("name"), 2, 3, vec![]),
            node("c", Some("body"), 3, 4, vec![]),
        ],
    );
    assert_eq!(tree.field_child("name"), Some(0));
    assert_eq!(tree.field_child("body"), Some(3));
    assert_eq!(tree.field_child("type"), None);
    assert_eq!(tree.kind_child("b"), Some(1));
    assert_eq!(tree.kind_child("c"), Some(3));
    assert_eq!(tree.kind_child("root"), None);
    assert!(tree.is_kind("root"));
    assert!(!tree.is_kind("roo"));
    assert_eq!(tree.children[2].source_text("0123456789"), "2");
}

#[test]
fn test_fits_checks_every_node_and_every_position() {
    let source = "0123456789";
    let tree = node("root", None, 0, 10, vec![node("leaf", None, 2, 4, vec![node("deep", None, 3, 11, vec![])])]);
    assert!(!tree.check_fits(source));
    let mut tree = node("root", None, 0, 10, vec![node("leaf", None, 2, 4, vec![])]);
    assert!(tree.check_fits(source));
    tree.children[0].end_row = u32::MAX as usize;
    assert!(!tree.check_fits(source));
    tree.children[0].end_row = u32::MAX as usize - 1;
    assert!(tree.check_fits(source));
    tree.start_column = u32::MAX as usize;
    assert!(!tree.check_fits(source));
}

#[test]
fn test_go_function_from_a_hand_built_tree() {
    //            0         1         2         3
    //            0123456789012345678901234567890123456789
    let source = "package p func f(a int) { g(h()) }";
    let call_h = node(
        "call_expression",
        None,
        28,
        31,
        vec![node("identifier", Some("function"), 28, 29, vec![]), node("argument_list", Some("arguments"), 29, 31, vec![])],
    );
    let call_g = node(
        "call_expression",
        None,
        26,
        32,
        vec![
            node("identifier", Some("function"), 26, 27, vec![]),
            node("argument_list", Some("arguments"), 27, 32, vec![call_h]),
        ],
    );
    let function = node(
        "function_declaration",
        None,
        10,
        34,
        vec![
            node("identifier", Some("name"), 15, 16, vec![]),
            node(
                "parameter_list",
                Some("parameters"),
                16,
                23,
                vec![
                    node(
                        "parameter_declaration",
                        None,
                        17,
                        22,
                        vec![node("identifier", Some("name"), 17, 18, vec![]), node("type_identifier", Some("type"), 19, 22, vec![])],
                    ),
                    node("parameter_declaration", None, 22, 22, vec![]),
                    node("comment", None, 22, 22, vec![node("identifier", Some("name"), 17, 18, vec![])]),
                ],
            ),
            node("block", Some("body"), 24, 34, vec![node("expression_statement", None, 26, 32, vec![call_g])]),
        ],
    );
    let tree = node(
        "source_file",
        None,
        0,
        34,
        vec![node("package_clause", None, 0, 9, vec![node("package_identifier", None, 8, 9, vec![])]), function],
    );
    assert!(tree.check_fits(source));
    let (nodes, edges) = GoLanguage::new().extract_graph(source, &tree).unwrap();
    assert_eq!(
        summary(&nodes),
        vec![
            row("package", "p", Some("p"), 1, 10),
            row("function", "f", Some("p.f"), 11, 35),
            row("parameter", "a", None, 18, 23),
            row("call", "g", None, 27, 33),
            row("call", "h", None, 29, 32),
        ]
    );
    assert!(nodes.iter().all(|n| n.start_line == 1 && n.end_line == 1 && n.attributes.is_none()));
    assert_eq!(
        links(&edges),
        vec![(1, 2, "has_parameter".to_string()), (1, 3, "calls".to_string()), (1, 4, "calls".to_string())]
    );
    assert!(edges.iter().all(|e| e.attributes.is_none()));
}

#[test]
fn test_go_method_receiver_and_types_from_a_hand_built_tree() {
    //            0         1         2         3         4         5
    //            0123456789012345678901234567890123456789012345678901234567
    let source = "func (s *T) M() {} type S struct { F int } type I interface { N() }";
    let receiver = node(
        "parameter_list",
        Some("receiver"),
        5,
        11,
        vec![
            node("parameter_declaration", None, 6, 6, vec![]),
            node(
                "parameter_declaration",
                None,
                6,
                10,
                vec![
                    node("identifier", Some("name"), 6, 7, vec![]),
                    node("pointer_type", Some("type"), 8, 10, vec![node("type_identifier", None, 9, 10, vec![])]),
                ],
            ),
        ],
    );
    let method = node(
        "method_declaration",
        None,
        0,
        18,
        vec![receiver, node("field_identifier", Some("name"), 12, 13, vec![]), node("block", Some("body"), 16, 18, vec![])],
    );
    let fields = node(
        "field_declaration_list",
        None,
        33,
        42,
        vec![node("field_declaration", None, 35, 40, vec![node("field_identifier", Some("name"), 35, 36, vec![])])],
    );
    let struct_decl = node(
        "type_declaration",
        None,
        19,
        42,
        vec![node(
            "type_spec",
            None,
            24,
            42,
            vec![
                node("type_identifier", Some("name"), 24, 25, vec![]),
                node("struct_type", Some("type"), 26, 42, vec![fields]),
            ],
        )],
    );
    let interface_decl = node(
        "type_declaration",
        None,
        43,
        67,
        vec![
            node(
                "type_spec",
                None,
                48,
                67,
                vec![
                    node("type_identifier", Some("name"), 48, 49, vec![]),
                    node(
                        "interface_type",
                        Some("type"),
                        50,
                        67,
                        vec![node("method_spec", None, 62, 65, vec![node("field_identifier", Some("name"), 62, 63, vec![])])],
                    ),
                ],
            ),
            node("type_spec", None, 48, 49, vec![node("type_identifier", Some("name"), 48, 49, vec![])]),
            node("type_alias", None, 48, 49, vec![node("type_identifier", Some("name"), 48, 49, vec![])]),
        ],
    );
    let tree = node("source_file", None, 0, 67, vec![method, struct_decl, interface_decl]);
    assert!(tree.check_fits(source));
    let (nodes, edges) = GoLanguage::new().extract_graph(source, &tree).unwrap();
    assert_eq!(
        summary(&nodes),
        vec![
            row("method", "M", Some("T.M"), 1, 19),
            row("struct", "S", Some("S"), 25, 43),
            row("field", "F", None, 36, 41),
            row("interface", "I", Some("I"), 49, 68),
            row("method", "N", None, 63, 66),
            row("type", "I", Some("I"), 49, 50),
        ]
    );
    assert_eq!(nodes[0].attributes.as_deref(), Some("{\"receiver\":\"T\"}"));
    assert_eq!(nodes[4].attributes.as_deref(), Some("{\"abstract\":true}"));
    assert_eq!(links(&edges), vec![(1, 2, "contains".to_string()), (3, 4, "contains".to_string())]);
}

#[test]
fn test_java_class_from_a_hand_built_tree() {
    //            0         1         2         3         4         5
    //            012345678901234567890123456789012345678901234567890123456789
    let source = "class C extends B implements I, J<K> { int x; C() { m(); } void m(int a) { } }";
    let invocation = node(
        "method_invocation",
        None,
        52,
        55,
        vec![node("identifier", Some("name"), 52, 53, vec![]), node("argument_list", Some("arguments"), 53, 55, vec![])],
    );
    let constructor = node(
        "constructor_declaration",
        None,
        46,
        58,
        vec![
            node("identifier", Some("name"), 46, 47, vec![]),
            node("constructor_body", Some("body"), 50, 58, vec![node("expression_statement", None, 52, 56, vec![invocation])]),
        ],
    );
    let method = node(
        "method_declaration",
        None,
        59,
        76,
        vec![
            node("identifier", Some("name"), 64, 65, vec![]),
            node(
                "formal_parameters",
                Some("parameters"),
                65,
                72,
                vec![node("formal_parameter", None, 66, 71, vec![node("identifier", Some("name"), 70, 71, vec![])])],
            ),
            node("block", Some("body"), 73, 76, vec![]),
        ],
    );
    let field = node(
        "field_declaration",
        None,
        39,
        45,
        vec![node("variable_declarator", Some("declarator"), 43, 44, vec![node("identifier", Some("name"), 43, 44, vec![])])],
    );
    let class = node(
        "class_declaration",
        None,
        0,
        78,
        vec![
            node("identifier", Some("name"), 6, 7, vec![]),
            node("superclass", Some("superclass"), 8, 17, vec![]),
            node(
                "super_interfaces",
                Some("interfaces"),
                18,
                36,
                vec![
                    node("type_identifier", None, 29, 30, vec![]),
                    node(",", None, 30, 31, vec![]),
                    node("generic_type", None, 32, 36, vec![]),
                ],
            ),
            node("class_body", Some("body"), 37, 78, vec![field, constructor, method]),
        ],
    );
    let tree = node("program", None, 0, 78, vec![class]);
    assert!(tree.check_fits(source));
    let (nodes, edges) = JavaLanguage::new().extract_graph(source, &tree).unwrap();
    assert_eq!(
        summary(&nodes),
        vec![
            row("class", "C", Some("C"), 1, 79),
            row("reference", "extends B", None, 9, 18),
            row("reference", "I", None, 30, 31),
            row("reference", "J<K>", None, 33, 37),
            row("field", "x", None, 40, 46),
            row("constructor", "C", Some("C.C"), 47, 59),
            row("call", "m", None, 53, 56),
            row("method", "m", Some("C.m"), 60, 77),
            row("parameter", "a", None, 67, 72),
        ]
    );
    assert_eq!(
        links(&edges),
        vec![
            (0, 1, "extends".to_string()),
            (0, 2, "implements".to_string()),
            (0, 3, "implements".to_string()),
            (5, 6, "calls".to_string()),
            (7, 8, "has_parameter".to_string()),
        ]
    );
}

#[test]
fn test_nested_java_classes_qualify_by_the_enclosing_class() {
    //            0         1         2         3
    //            0123456789012345678901234567890123456789
    let source = "class A { class B { void f() { } } void g() { } }";
    let f = node(
        "method_declaration",
        None,
        20,
        32,
        vec![node("identifier", Some("name"), 25, 26, vec![]), node("block", Some("body"), 29, 32, vec![])],
    );
    let inner = node(
        "class_declaration",
        None,
        10,
        34,
        vec![node("identifier", Some("name"), 16, 17, vec![]), node("class_body", Some("body"), 18, 34, vec![f])],
    );
    let g = node(
        "method_declaration",
        None,
        35,
        47,
        vec![node("identifier", Some("name"), 40, 41, vec![]), node("block", Some("body"), 44, 47, vec![])],
    );
    let outer = node(
        "class_declaration",
        None,
        0,
        49,
        vec![node("identifier", Some("name"), 6, 7, vec![]), node("class_body", Some("body"), 8, 49, vec![inner, g])],
    );
    let (nodes, edges) = JavaLanguage::new().extract_graph(source, &outer).unwrap();
    let qualified: Vec<Option<&str>> = nodes.iter().map(|n| n.qualified_name.as_deref()).collect();
    assert_eq!(qualified, vec![Some("A"), Some("A.B"), Some("A.B.f"), Some("A.g")]);
    assert!(edges.is_empty());
}

#[test]
fn test_extractors_walk_and_finish() {
    let source = "package p";
    let tree = node("package_clause", None, 0, 9, vec![node("package_identifier", None, 8, 9, vec![])]);
    let mut go = GoGraphExtractor::new(source);
    assert_eq!(go.qualify_name("F"), "F");
    go.extract(&tree);
    assert_eq!(go.qualify_name("F"), "p.F");
    let (nodes, edges) = go.finish().unwrap();
    assert_eq!(nodes.len(), 1);
    assert!(edges.is_empty());

    let mut java = JavaGraphExtractor::new(source);
    assert_eq!(java.qualify_name("C"), "C");
    assert_eq!(java.qualify_method_name("m"), "m");
    java.extract(&tree);
    let (nodes, _) = java.finish().unwrap();
    assert!(nodes.is_empty());
}

#[test]
fn test_collector_turns_links_into_edges() {
    let at = node("x", None, 2, 5, vec![]);
    let mut collector = Collector::new();
    assert_eq!(collector.len(), 0);
    assert_eq!(collector.add_node("class", "A".to_string(), None, &at, Some("{}".to_string())), 0);
    assert_eq!(collector.add_node("field", "b".to_string(), Some("A.b".to_string()), &at, None), 1);
    collector.add_link(0, 1, "contains");
    assert_eq!(collector.len(), 2);
    let (nodes, edges) = collector.finish().unwrap();
    assert_eq!(nodes[0].attributes.as_deref(), Some("{}"));
    assert_eq!((nodes[1].start_line, nodes[1].start_column, nodes[1].end_line, nodes[1].end_column), (1, 3, 1, 6));
    assert_eq!(links(&edges), vec![(0, 1, "contains".to_string())]);
    let ok: Result<(), ExtractError> = Ok(());
    assert!(ok.is_ok());
}

#[test]
fn test_parsed_trees_agree_with_the_source() {
    let go = GoLanguage::new();
    let source = "package main\n\nfunc main() {\n}\n";
    let tree = parse_syntax(&go.grammar(), source).unwrap();
    assert_eq!(tree.kind, "source_file");
    assert!(tree.field.is_none());
    assert_eq!((tree.start_byte, tree.end_byte), (0, source.len()));
    assert_eq!((tree.start_row, tree.start_column), (0, 0));
    assert!(tree.check_fits(source));
    let function = &tree.children[tree.kind_child("function_declaration").unwrap()];
    assert_eq!((function.start_row, function.end_row), (2, 3));
    let name = &function.children[function.field_child("name").unwrap()];
    assert_eq!(name.source_text(source), "main");
    assert_eq!(name.field.as_deref(), Some("name"));
    assert!(function.field_child("body").is_some());
    // The same source parsed again gives the same fragment.
    let again = parse_syntax(&go.grammar(), source).unwrap();
    let (a, _) = go.extract_graph(source, &tree).unwrap();
    let (b, _) = go.extract_graph(source, &again).unwrap();
    assert_eq!(summary(&a), summary(&b));
}

#[test]
fn test_builtin_language_delegates() {
    let java = BuiltinLanguage::Java(JavaLanguage::new());
    let go = BuiltinLanguage::Go(GoLanguage::new());
    assert_eq!(java.language_id(), "java");
    assert_eq!(go.language_id(), "go");
    assert_eq!(java.file_extensions().to_vec(), vec![".java"]);
    assert_eq!(go.file_extensions().to_vec(), vec![".go"]);
    let source = "class A {}";
    let tree = parse_syntax(&java.grammar(), source).unwrap();
    assert!(tree.check_fits(source));
    let (nodes, _) = java.extract_graph(source, &tree).unwrap();
    assert_eq!(summary(&nodes), vec![row("class", "A", Some("A"), 1, 11)]);
    let tree = parse_syntax(&go.grammar(), "package q").unwrap();
    let (nodes, _) = go.extract_graph("package q", &tree).unwrap();
    assert_eq!(summary(&nodes), vec![row("package", "q", Some("q"), 1, 10)]);
}

#[test]
fn test_exact_fragment_of_a_go_source() {
    let source = "package app\n\nimport \"fmt\"\n\ntype T struct {\n\tN int\n}\n\nfunc (t *T) Run(x int) {\n\tfmt.Println(go2(x))\n}\n";
    let go = GoLanguage::new();
    let tree = parse_syntax(&go.grammar(), source).unwrap();
    assert!(tree.check_fits(source));
    let (nodes, edges) = go.extract_graph(source, &tree).unwrap();
    let rows: Vec<(String, String, Option<String>, (u32, u32, u32, u32))> = nodes
        .iter()
        .map(|n| {
            (
                n.node_type.clone(),
                n.name.clone(),
                n.qualified_name.clone(),
                (n.start_line, n.start_column, n.end_line, n.end_column),
            )
        })
        .collect();
    let r = |k: &str, n: &str, q: Option<&str>, span: (u32, u32, u32, u32)| {
        (k.to_string(), n.to_string(), q.map(|q| q.to_string()), span)
    };
    assert_eq!(
        rows,
        vec![
            r("package", "app", Some("app"), (1, 1, 1, 12)),
            r("import", "fmt", Some("fmt"), (3, 8, 3, 13)),
            r("struct", "T", Some("app.T"), (5, 6, 7, 2)),
            r("field", "N", None, (6, 2, 6, 7)),
            r("method", "Run", Some("T.Run"), (9, 1, 11, 2)),
            r("parameter", "x", None, (9, 17, 9, 22)),
            r("call", "fmt.Println", None, (10, 2, 10, 21)),
            r("call", "go2", None, (10, 14, 10, 20)),
        ]
    );
    assert_eq!(nodes[4].attributes.as_deref(), Some("{\"receiver\":\"T\"}"));
    assert_eq!(
        links(&edges),
        vec![
            (2, 3, "contains".to_string()),
            (4, 5, "has_parameter".to_string()),
            (4, 6, "calls".to_string()),
            (4, 7, "calls".to_string()),
        ]
    );
}

fn outline(tree: &SyntaxNode, out: &mut Vec<(usize, String, Option<String>, (usize, usize), (usize, usize), (usize, usize))>, depth: usize) {
    out.push((
        depth,
        tree.kind.clone(),
        tree.field.clone(),
        (tree.start_byte, tree.end_byte),
        (tree.start_row, tree.start_column),
        (tree.end_row, tree.end_column),
    ));
    for child in &tree.children {
        outline(child, out, depth + 1);
    }
}

#[test]
fn test_exact_tree_of_a_go_source() {
    let go = GoLanguage::new();
    let source = "package p\nfunc f() {\n}\n";
    let tree = parse_syntax(&go.grammar(), source).unwrap();
    let mut rows = Vec::new();
    outline(&tree, &mut rows, 0);
    let row = |depth: usize, kind: &str, field: Option<&str>, bytes: (usize, usize), start: (usize, usize), end: (usize, usize)| {
        (depth, kind.to_string(), field.map(|f| f.to_string()), bytes, start, end)
    };
    assert_eq!(
        rows,
        vec![
            row(0, "source_file", None, (0, 23), (0, 0), (3, 0)),
            row(1, "package_clause", None, (0, 9), (0, 0), (0, 9)),
            row(2, "package", None, (0, 7), (0, 0), (0, 7)),
            row(2, "package_identifier", None, (8, 9), (0, 8), (0, 9)),
            row(1, "function_declaration", None, (10, 22), (1, 0), (2, 1)),
            row(2, "func", None, (10, 14), (1, 0), (1, 4)),
            row(2, "identifier", Some("name"), (15, 16), (1, 5), (1, 6)),
            row(2, "parameter_list", Some("parameters"), (16, 18), (1, 6), (1, 8)),
            row(3, "(", None, (16, 17), (1, 6), (1, 7)),
            row(3, ")", None, (17, 18), (1, 7), (1, 8)),
            row(2, "block", Some("body"), (19, 22), (1, 9), (2, 1)),
            row(3, "{", None, (19, 20), (1, 9), (1, 10)),
            row(3, "}", None, (21, 22), (2, 0), (2, 1)),
        ]
    );
}
