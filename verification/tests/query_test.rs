use codegraph::engine::query::{
    find_definition, find_definition_by_symbol, find_references_by_symbol, search_symbols,
    CallGraphResult, DefinitionResult, QueryError, QueryExecutor, ReferencesResult, SymbolInfo,
    SymbolLocation, SymbolSearchResult,
};
use codegraph::storage::models::{EdgeRecord, FileRecord, NodeRecord, ProjectRecord};
use codegraph::storage::Database;

fn setup_test_db() -> Database {
    Database::open_in_memory().unwrap()
}

fn create_test_project(db: &mut Database) -> i64 {
    let project = ProjectRecord {
        id: 0,
        name: "test-project".to_string(),
        root_path: "/test/project".to_string(),
        created_at: chrono::Utc::now().timestamp_micros(),
        updated_at: chrono::Utc::now().timestamp_micros(),
    };
    db.insert_project(&project).unwrap()
}

fn create_test_file(db: &mut Database, project_id: i64, path: &str, language: &str) -> i64 {
    let file = FileRecord {
        id: 0,
        project_id,
        path: path.to_string(),
        language: language.to_string(),
        content_hash: "test_hash".to_string(),
        parsed_at: chrono::Utc::now().timestamp_micros(),
    };
    db.insert_file(&file).unwrap()
}

fn create_test_node(
    db: &mut Database,
    file_id: i64,
    node_type: &str,
    name: &str,
    qualified_name: Option<&str>,
    start_line: u32,
) -> i64 {
    let node = NodeRecord {
        id: 0,
        file_id,
        node_type: node_type.to_string(),
        name: name.to_string(),
        qualified_name: qualified_name.map(|s| s.to_string()),
        start_line,
        start_column: 1,
        end_line: start_line + 5,
        end_column: 1,
        attributes: None,
    };
    db.insert_node(&node).unwrap()
}

fn calls(source_id: i64, target_id: i64) -> EdgeRecord {
    EdgeRecord { id: 0, source_id, target_id, edge_type: "calls".to_string(), attributes: None }
}

#[test]
fn test_query_executor_new() {
    let db = setup_test_db();
    let executor = QueryExecutor::new(db);
    drop(executor);
}

#[test]
fn test_find_definition_not_found() {
    let mut db = setup_test_db();
    let project_id = create_test_project(&mut db);
    let executor = QueryExecutor::new(db);

    let result = executor.find_definition(project_id, "/nonexistent/file.java", 10, 5).unwrap();

    assert!(!result.found);
    assert!(result.definition.is_none());
}

#[test]
fn test_find_definition_at_position() {
    let mut db = setup_test_db();
    let project_id = create_test_project(&mut db);
    let file_id = create_test_file(&mut db, project_id, "/test/UserService.java", "java");
    create_test_node(&mut db, file_id, "class", "UserService", Some("com.example.UserService"), 1);

    let executor = QueryExecutor::new(db);
    let result = executor.find_definition(project_id, "/test/UserService.java", 3, 1).unwrap();

    assert!(result.found);
    assert!(result.definition.is_some());
    let def = result.definition.unwrap();
    assert_eq!(def.name, "UserService");
    assert_eq!(def.node_type, "class");
}

#[test]
fn test_find_references_empty() {
    let mut db = setup_test_db();
    let project_id = create_test_project(&mut db);
    let executor = QueryExecutor::new(db);

    let result = executor.find_references(project_id, "/nonexistent/file.java", 10, 5).unwrap();

    assert_eq!(result.count, 0);
    assert!(result.references.is_empty());
}

#[test]
fn query_test_search_symbols() {
    let mut db = setup_test_db();
    let project_id = create_test_project(&mut db);
    let file_id = create_test_file(&mut db, project_id, "/test/Service.java", "java");

    create_test_node(&mut db, file_id, "class", "UserService", Some("com.example.UserService"), 1);
    create_test_node(&mut db, file_id, "method", "getUser", Some("com.example.UserService.getUser"), 10);
    create_test_node(&mut db, file_id, "method", "createUser", Some("com.example.UserService.createUser"), 20);

    let executor = QueryExecutor::new(db);
    let result = executor.search_symbols(project_id, "User", None, 10).unwrap();

    assert!(result.count >= 2);
    assert!(result.symbols.iter().any(|s| s.name == "UserService"));
}

#[test]
fn query_test_search_symbols_by_type() {
    let mut db = setup_test_db();
    let project_id = create_test_project(&mut db);
    let file_id = create_test_file(&mut db, project_id, "/test/Service.java", "java");

    create_test_node(&mut db, file_id, "class", "UserService", None, 1);
    create_test_node(&mut db, file_id, "method", "getUser", None, 10);

    let executor = QueryExecutor::new(db);

    // Search only for methods
    let result = executor.search_symbols(project_id, "User", Some("method"), 10).unwrap();

    assert_eq!(result.count, 1);
    assert_eq!(result.symbols[0].name, "getUser");
    assert_eq!(result.symbols[0].node_type, "method");
}

#[test]
fn query_test_search_symbols_with_limit() {
    let mut db = setup_test_db();
    let project_id = create_test_project(&mut db);
    let file_id = create_test_file(&mut db, project_id, "/test/Service.java", "java");

    for i in 0..10 {
        create_test_node(
            &mut db,
            file_id,
            "method",
            &format!("testMethod{}", i),
            None,
            (i * 10) as u32,
        );
    }

    let executor = QueryExecutor::new(db);
    let result = executor.search_symbols(project_id, "testMethod", None, 5).unwrap();

    assert_eq!(result.count, 5);
}

#[test]
fn test_get_callgraph_symbol_not_found() {
    let mut db = setup_test_db();
    let project_id = create_test_project(&mut db);
    let executor = QueryExecutor::new(db);

    let result = executor.get_callgraph(project_id, "nonExistentSymbol", 2, "both");
    assert!(result.is_err());
    assert!(result.unwrap_err().message().contains("Symbol not found"));
}

#[test]
fn test_get_callgraph_basic() {
    let mut db = setup_test_db();
    let project_id = create_test_project(&mut db);
    let file_id = create_test_file(&mut db, project_id, "/test/main.go", "go");

    let main_id = create_test_node(&mut db, file_id, "function", "main", Some("main.main"), 1);
    let helper_id = create_test_node(&mut db, file_id, "function", "helper", Some("main.helper"), 20);

    // main calls helper
    let edge = EdgeRecord {
        id: 0,
        source_id: main_id,
        target_id: helper_id,
        edge_type: "calls".to_string(),
        attributes: None,
    };
    db.insert_edge(&edge).unwrap();

    let executor = QueryExecutor::new(db);
    let result = executor.get_callgraph(project_id, "main", 1, "both").unwrap();

    assert_eq!(result.center.name, "main");
    // The callees should include helper
    assert!(result.callees.iter().any(|c| c.name == "helper"));
}

#[test]
fn test_callgraph_direction_callers() {
    let mut db = setup_test_db();
    let project_id = create_test_project(&mut db);
    let file_id = create_test_file(&mut db, project_id, "/test/main.go", "go");

    let main_id = create_test_node(&mut db, file_id, "function", "main", Some("main.main"), 1);
    let helper_id = create_test_node(&mut db, file_id, "function", "helper", Some("main.helper"), 20);

    let edge = EdgeRecord {
        id: 0,
        source_id: main_id,
        target_id: helper_id,
        edge_type: "calls".to_string(),
        attributes: None,
    };
    db.insert_edge(&edge).unwrap();

    let executor = QueryExecutor::new(db);
    let result = executor.get_callgraph(project_id, "helper", 1, "callers").unwrap();

    assert_eq!(result.center.name, "helper");
    assert!(result.callees.is_empty());
    let callers: Vec<&str> = result.callers.iter().map(|c| c.name.as_str()).collect();
    assert_eq!(callers, vec!["main"]);
}

#[test]
fn test_callgraph_direction_callees() {
    let mut db = setup_test_db();
    let project_id = create_test_project(&mut db);
    let file_id = create_test_file(&mut db, project_id, "/test/main.go", "go");

    let main_id = create_test_node(&mut db, file_id, "function", "main", Some("main.main"), 1);
    let helper_id = create_test_node(&mut db, file_id, "function", "helper", Some("main.helper"), 20);

    let edge = EdgeRecord {
        id: 0,
        source_id: main_id,
        target_id: helper_id,
        edge_type: "calls".to_string(),
        attributes: None,
    };
    db.insert_edge(&edge).unwrap();

    let executor = QueryExecutor::new(db);
    let result = executor.get_callgraph(project_id, "main", 1, "callees").unwrap();

    assert_eq!(result.center.name, "main");
    assert!(result.callers.is_empty());
    assert!(result.callees.iter().any(|c| c.name == "helper"));
}

#[test]
fn test_callgraph_depth_zero() {
    let mut db = setup_test_db();
    let project_id = create_test_project(&mut db);
    let file_id = create_test_file(&mut db, project_id, "/test/main.go", "go");

    let main_id = create_test_node(&mut db, file_id, "function", "main", Some("main.main"), 1);
    let helper_id = create_test_node(&mut db, file_id, "function", "helper", Some("main.helper"), 20);

    let edge = EdgeRecord {
        id: 0,
        source_id: main_id,
        target_id: helper_id,
        edge_type: "calls".to_string(),
        attributes: None,
    };
    db.insert_edge(&edge).unwrap();

    let executor = QueryExecutor::new(db);
    let result = executor.get_callgraph(project_id, "main", 0, "both").unwrap();

    assert_eq!(result.center.name, "main");
    assert!(result.callers.is_empty());
    assert!(result.callees.is_empty());
}

#[test]
fn test_find_definition_by_symbol() {
    let mut db = setup_test_db();
    let project_id = create_test_project(&mut db);
    let file_id = create_test_file(&mut db, project_id, "/test/Service.java", "java");
    create_test_node(&mut db, file_id, "class", "UserService", Some("com.example.UserService"), 1);

    let result = find_definition_by_symbol(db, project_id, "UserService").unwrap();

    assert!(result.found);
    let def = result.definition.unwrap();
    assert_eq!(def.name, "UserService");
}

#[test]
fn test_find_references_by_symbol() {
    let mut db = setup_test_db();
    let project_id = create_test_project(&mut db);
    let file_id = create_test_file(&mut db, project_id, "/test/Service.java", "java");

    let method_id = create_test_node(&mut db, file_id, "method", "getUser", Some("UserService.getUser"), 10);
    let call_id = create_test_node(&mut db, file_id, "call", "getUser", None, 30);

    // Create a calls edge
    let edge = EdgeRecord {
        id: 0,
        source_id: call_id,
        target_id: method_id,
        edge_type: "calls".to_string(),
        attributes: None,
    };
    db.insert_edge(&edge).unwrap();

    let result = find_references_by_symbol(db, project_id, "getUser", 10).unwrap();

    assert!(result.count >= 1);
    let lines: Vec<u32> = result.references.iter().map(|r| r.line).collect();
    assert_eq!(lines, vec![30, 30]);
}

#[test]
fn test_standalone_find_definition() {
    let mut db = setup_test_db();
    let project_id = create_test_project(&mut db);
    let file_id = create_test_file(&mut db, project_id, "/test/file.java", "java");
    create_test_node(&mut db, file_id, "class", "Test", None, 1);

    let result = find_definition(db, "/test/file.java", 3, 1).unwrap();
    assert!(result.found);
}

#[test]
fn test_standalone_search_symbols() {
    let mut db = setup_test_db();
    let project_id = create_test_project(&mut db);
    let file_id = create_test_file(&mut db, project_id, "/test/file.java", "java");
    create_test_node(&mut db, file_id, "class", "TestClass", None, 1);

    let result = search_symbols(db, "Test", None, 10).unwrap();
    assert!(result.count > 0);
}

#[test]
fn test_result_values_hold_what_they_are_given() {
    let result = DefinitionResult {
        found: true,
        definition: Some(SymbolLocation {
            file: "/test/file.java".to_string(),
            line: 10,
            column: 5,
            node_type: "class".to_string(),
            name: "TestClass".to_string(),
            qualified_name: Some("com.example.TestClass".to_string()),
            context: None,
        }),
    };
    assert!(result.found);
    let copy = result.definition.as_ref().unwrap().clone();
    assert_eq!(copy.name, "TestClass");
    assert_eq!((copy.line, copy.column), (10, 5));

    let result = ReferencesResult { count: 1, references: vec![copy] };
    assert_eq!(result.count, 1);
    assert_eq!(result.references.len(), 1);

    let info = SymbolInfo {
        name: "helper".to_string(),
        qualified_name: None,
        node_type: "function".to_string(),
        file: "/test/main.go".to_string(),
        line: 20,
        column: 1,
    };
    let result = CallGraphResult { center: info.clone(), callers: vec![], callees: vec![info.clone()] };
    assert_eq!(result.center.name, "helper");
    assert_eq!(result.callees.len(), 1);
    let result = SymbolSearchResult { count: 2, symbols: vec![info.clone(), info] };
    assert_eq!(result.count, 2);
    assert_eq!(result.symbols.len(), 2);
}

#[test]
fn test_definition_follows_a_reference_edge() {
    let mut db = setup_test_db();
    let project_id = create_test_project(&mut db);
    let uses = create_test_file(&mut db, project_id, "/test/Use.java", "java");
    let defs = create_test_file(&mut db, project_id, "/test/Def.java", "java");
    let reference = create_test_node(&mut db, uses, "reference", "Thing", None, 4);
    let class = create_test_node(&mut db, defs, "class", "Thing", Some("pkg.Thing"), 9);
    db.insert_edge(&EdgeRecord {
        id: 0,
        source_id: reference,
        target_id: class,
        edge_type: "references".to_string(),
        attributes: None,
    })
    .unwrap();
    let executor = QueryExecutor::new(db);
    let def = executor.find_definition(project_id, "/test/Use.java", 5, 1).unwrap().definition.unwrap();
    assert_eq!(def.file, "/test/Def.java");
    assert_eq!((def.line, def.column), (9, 1));
    assert_eq!(def.node_type, "class");
    assert_eq!(def.qualified_name.as_deref(), Some("pkg.Thing"));
    assert!(def.context.is_none());
    // On the definition itself the definition is found.
    let def = executor.find_definition(project_id, "/test/Def.java", 9, 1).unwrap().definition.unwrap();
    assert_eq!(def.file, "/test/Def.java");
    // The references of the definition are the nodes that refer to it.
    let refs = executor.find_references(project_id, "/test/Def.java", 10, 1).unwrap();
    assert_eq!(refs.count, 1);
    assert_eq!(refs.references[0].file, "/test/Use.java");
    assert_eq!(refs.references[0].line, 4);
    assert_eq!(refs.references[0].node_type, "reference");
    // A node that nothing refers to has no references.
    let refs = executor.find_references(project_id, "/test/Use.java", 5, 1).unwrap();
    assert_eq!(refs.count, 0);
}

#[test]
fn test_innermost_node_decides_definition_and_references() {
    let mut db = setup_test_db();
    let project_id = create_test_project(&mut db);
    let file_id = create_test_file(&mut db, project_id, "/test/a.go", "go");
    let span = |name: &str, start: u32, end: u32| NodeRecord {
        id: 0,
        file_id,
        node_type: "function".to_string(),
        name: name.to_string(),
        qualified_name: None,
        start_line: start,
        start_column: 1,
        end_line: end,
        end_column: 1,
        attributes: None,
    };
    let a = db.insert_node(&span("A", 1, 20)).unwrap();
    let b = db.insert_node(&span("B", 5, 8)).unwrap();
    let to_a = db.insert_node(&span("RefA", 30, 30)).unwrap();
    let to_b = db.insert_node(&span("RefB", 31, 31)).unwrap();
    for (source_id, target_id) in [(to_a, a), (to_b, b)] {
        db.insert_edge(&EdgeRecord {
            id: 0,
            source_id,
            target_id,
            edge_type: "references".to_string(),
            attributes: None,
        })
        .unwrap();
    }
    let executor = QueryExecutor::new(db);
    let def = executor.find_definition(project_id, "/test/a.go", 6, 1).unwrap();
    assert_eq!(def.definition.unwrap().name, "B");
    let refs = executor.find_references(project_id, "/test/a.go", 6, 1).unwrap();
    let names: Vec<&str> = refs.references.iter().map(|r| r.name.as_str()).collect();
    assert_eq!(names, vec!["RefB"]);
}

#[test]
fn test_callgraph_accepts_depth_above_one_and_unknown_directions() {
    let mut db = setup_test_db();
    let project_id = create_test_project(&mut db);
    let file_id = create_test_file(&mut db, project_id, "/test/main.go", "go");
    let a = create_test_node(&mut db, file_id, "function", "a", Some("main.a"), 1);
    let b = create_test_node(&mut db, file_id, "function", "b", None, 10);
    let c = create_test_node(&mut db, file_id, "function", "c", None, 20);
    db.insert_edge(&calls(a, b)).unwrap();
    db.insert_edge(&calls(b, c)).unwrap();
    db.insert_edge(&EdgeRecord {
        id: 0,
        source_id: a,
        target_id: c,
        edge_type: "contains".to_string(),
        attributes: None,
    })
    .unwrap();
    let executor = QueryExecutor::new(db);
    let names = |infos: &Vec<SymbolInfo>| infos.iter().map(|i| i.name.clone()).collect::<Vec<_>>();
    // One hop only, whatever the depth.
    let graph = executor.get_callgraph(project_id, "a", 5, "both").unwrap();
    assert_eq!(names(&graph.callees), vec!["b"]);
    assert!(graph.callers.is_empty());
    let graph = executor.get_callgraph(project_id, "b", 3, "both").unwrap();
    assert_eq!(names(&graph.callers), vec!["a"]);
    assert_eq!(names(&graph.callees), vec!["c"]);
    assert_eq!(graph.center.file, "/test/main.go");
    assert_eq!((graph.center.line, graph.center.column), (10, 1));
    // The symbol may be given by its qualified name.
    let graph = executor.get_callgraph(project_id, "main.a", 1, "callees").unwrap();
    assert_eq!(graph.center.name, "a");
    assert_eq!(graph.center.qualified_name.as_deref(), Some("main.a"));
    // A word that is no direction asks for neither.
    let graph = executor.get_callgraph(project_id, "b", 1, "sideways").unwrap();
    assert!(graph.callers.is_empty() && graph.callees.is_empty());
    match executor.get_callgraph(project_id, "zzz", 1, "both") {
        Err(QueryError::SymbolNotFound(name)) => assert_eq!(name, "zzz"),
        _ => panic!("the symbol does not exist"),
    }
    assert_eq!(
        QueryError::SymbolNotFound("zzz".to_string()).message(),
        "Symbol not found: zzz"
    );
}

#[test]
fn test_search_filtering() {
    let mut db = setup_test_db();
    let project_id = create_test_project(&mut db);
    let file_id = create_test_file(&mut db, project_id, "/test/Service.java", "java");
    create_test_node(&mut db, file_id, "class", "UserService", None, 1);
    create_test_node(&mut db, file_id, "interface", "UserRepository", None, 10);
    create_test_node(&mut db, file_id, "class", "OrderService", None, 20);
    let executor = QueryExecutor::new(db);
    let names = |r: SymbolSearchResult| r.symbols.into_iter().map(|s| s.name).collect::<Vec<_>>();
    assert_eq!(
        names(executor.search_symbols(project_id, "User", None, 10).unwrap()),
        vec!["UserService", "UserRepository"]
    );
    assert_eq!(
        names(executor.search_symbols(project_id, "User", Some("class"), 10).unwrap()),
        vec!["UserService"]
    );
    let found = executor.search_symbols(project_id, "Service", None, 1).unwrap();
    assert_eq!(found.count, 1);
    assert_eq!(found.symbols[0].file, "/test/Service.java");
    assert_eq!((found.symbols[0].line, found.symbols[0].column), (1, 1));
}

#[test]
fn test_definition_by_symbol_skips_calls_and_accepts_qualified_suffix() {
    let mut db = setup_test_db();
    let project_id = create_test_project(&mut db);
    let file_id = create_test_file(&mut db, project_id, "/test/Service.java", "java");
    create_test_node(&mut db, file_id, "call", "run", None, 1);
    create_test_node(&mut db, file_id, "method", "rerun", Some("Job.rerun"), 5);
    create_test_node(&mut db, file_id, "method", "start", Some("Job.run"), 9);
    create_test_node(&mut db, file_id, "method", "run", None, 13);
    let found = find_definition_by_symbol(db, project_id, "run").unwrap();
    assert!(found.found);
    let def = found.definition.unwrap();
    assert_eq!((def.name.as_str(), def.line), ("start", 9));

    let mut db = setup_test_db();
    let project_id = create_test_project(&mut db);
    let file_id = create_test_file(&mut db, project_id, "/test/Service.java", "java");
    create_test_node(&mut db, file_id, "call", "run", None, 1);
    create_test_node(&mut db, file_id, "method", "rerun", Some("Job.rerun"), 5);
    let found = find_definition_by_symbol(db, project_id, "run").unwrap();
    assert!(!found.found);
    assert!(found.definition.is_none());
}

#[test]
fn test_references_by_symbol_are_cut_at_the_limit() {
    let mut db = setup_test_db();
    let project_id = create_test_project(&mut db);
    let file_id = create_test_file(&mut db, project_id, "/test/Service.java", "java");
    let target = create_test_node(&mut db, file_id, "method", "run", None, 1);
    for line in [10, 20, 30] {
        let caller = create_test_node(&mut db, file_id, "method", "caller", None, line);
        db.insert_edge(&calls(caller, target)).unwrap();
    }
    for line in [40, 50] {
        create_test_node(&mut db, file_id, "call", "run", None, line);
    }
    let lines = |limit: u32| {
        let mut copy = Database::new();
        let p = create_test_project(&mut copy);
        let f = create_test_file(&mut copy, p, "/test/Service.java", "java");
        let target = create_test_node(&mut copy, f, "method", "run", None, 1);
        for line in [10, 20, 30] {
            let caller = create_test_node(&mut copy, f, "method", "caller", None, line);
            copy.insert_edge(&calls(caller, target)).unwrap();
        }
        for line in [40, 50] {
            create_test_node(&mut copy, f, "call", "run", None, line);
        }
        let found = find_references_by_symbol(copy, p, "run", limit).unwrap();
        assert_eq!(found.count, found.references.len());
        found.references.iter().map(|r| r.line).collect::<Vec<_>>()
    };
    assert_eq!(lines(10), vec![10, 20, 30, 40, 50]);
    assert_eq!(lines(4), vec![10, 20, 30, 40]);
    assert_eq!(lines(2), vec![10, 20]);
    assert_eq!(lines(0), Vec::<u32>::new());
    // Without a node of that name the call sites alone are the uses.
    let mut other = Database::new();
    let p = create_test_project(&mut other);
    let f = create_test_file(&mut other, p, "/test/Service.java", "java");
    create_test_node(&mut other, f, "call", "walk", None, 7);
    create_test_node(&mut other, f, "call", "walker", None, 8);
    let found = find_references_by_symbol(other, p, "walke", 10).unwrap();
    assert_eq!(found.references.iter().map(|r| r.line).collect::<Vec<_>>(), vec![8]);
    drop(db);
}

#[test]
fn test_definition_by_symbol_is_found_behind_many_other_matches() {
    let mut db = setup_test_db();
    let project_id = create_test_project(&mut db);
    let file_id = create_test_file(&mut db, project_id, "/test/many.go", "go");
    for line in 1..=60u32 {
        create_test_node(&mut db, file_id, "call", "f", None, line);
    }
    for line in 61..=120u32 {
        create_test_node(&mut db, file_id, "function", "prefix_f", None, line);
    }
    create_test_node(&mut db, file_id, "function", "f", Some("pkg.f"), 200);
    create_test_node(&mut db, file_id, "function", "f", None, 300);

    let result = find_definition_by_symbol(db, project_id, "f").unwrap();

    assert!(result.found);
    let def = result.definition.unwrap();
    assert_eq!(def.name, "f");
    assert_eq!(def.node_type, "function");
    assert_eq!((def.line, def.column), (200, 1));
    assert_eq!(def.file, "/test/many.go");
    assert_eq!(def.qualified_name.as_deref(), Some("pkg.f"));
}

#[test]
fn test_definition_by_symbol_stays_within_the_project() {
    let mut db = setup_test_db();
    let project_id = create_test_project(&mut db);
    let other = db
        .insert_project(&ProjectRecord {
            id: 0,
            name: "other".to_string(),
            root_path: "/other".to_string(),
            created_at: 1,
            updated_at: 1,
        })
        .unwrap();
    let far = create_test_file(&mut db, other, "/other/a.go", "go");
    create_test_node(&mut db, far, "function", "run", None, 3);
    let near = create_test_file(&mut db, project_id, "/test/a.go", "go");
    create_test_node(&mut db, near, "variable", "run", None, 8);

    let mut copy = Database::new();
    let p = create_test_project(&mut copy);
    let q = copy
        .insert_project(&ProjectRecord {
            id: 0,
            name: "other".to_string(),
            root_path: "/other".to_string(),
            created_at: 1,
            updated_at: 1,
        })
        .unwrap();
    let f = create_test_file(&mut copy, q, "/other/a.go", "go");
    create_test_node(&mut copy, f, "function", "run", None, 3);

    let found = find_definition_by_symbol(db, project_id, "run").unwrap();
    let def = found.definition.unwrap();
    assert_eq!((def.node_type.as_str(), def.line), ("variable", 8));
    assert_eq!(def.file, "/test/a.go");

    let missing = find_definition_by_symbol(copy, p, "run").unwrap();
    assert!(!missing.found);
    assert!(missing.definition.is_none());
}
