use codegraph::storage::models::{EdgeRecord, FileRecord, NodeRecord, ProjectRecord};
use codegraph::storage::{Database, StoreError};

fn now() -> i64 {
    chrono::Utc::now().timestamp_micros()
}

fn setup_db() -> Database {
    Database::open_in_memory().unwrap()
}

fn create_project(db: &mut Database) -> i64 {
    let project = ProjectRecord {
        id: 0,
        name: "test-project".to_string(),
        root_path: "/test/path".to_string(),
        created_at: now(),
        updated_at: now(),
    };
    db.insert_project(&project).unwrap()
}

fn create_file(db: &mut Database, project_id: i64) -> i64 {
    let file = FileRecord {
        id: 0,
        project_id,
        path: "/test/path/file.java".to_string(),
        language: "java".to_string(),
        content_hash: "abc123".to_string(),
        parsed_at: now(),
    };
    db.insert_file(&file).unwrap()
}

fn create_node(db: &mut Database, file_id: i64, node_type: &str, name: &str) -> i64 {
    let node = NodeRecord {
        id: 0,
        file_id,
        node_type: node_type.to_string(),
        name: name.to_string(),
        qualified_name: Some(format!("com.example.{}", name)),
        start_line: 1,
        start_column: 1,
        end_line: 10,
        end_column: 1,
        attributes: None,
    };
    db.insert_node(&node).unwrap()
}

fn edge(source_id: i64, target_id: i64, edge_type: &str) -> EdgeRecord {
    EdgeRecord { id: 0, source_id, target_id, edge_type: edge_type.to_string(), attributes: None }
}

#[test]
fn test_insert_project() {
    let mut db = Database::new();

    let project = ProjectRecord {
        id: 0,
        name: "test".to_string(),
        root_path: "/test/path".to_string(),
        created_at: now(),
        updated_at: now(),
    };

    let id = db.insert_project(&project).unwrap();
    assert!(id > 0);
}

#[test]
fn test_get_project_by_path() {
    let mut db = setup_db();
    let project_id = create_project(&mut db);

    let project = db.get_project_by_path("/test/path").unwrap();
    assert!(project.is_some());
    assert_eq!(project.unwrap().id, project_id);
}

#[test]
fn test_get_project_by_path_not_found() {
    let db = setup_db();
    let project = db.get_project_by_path("/nonexistent").unwrap();
    assert!(project.is_none());
}

#[test]
fn test_get_project_by_name() {
    let mut db = setup_db();
    create_project(&mut db);

    let project = db.get_project_by_name("test-project").unwrap();
    assert!(project.is_some());
    assert_eq!(project.unwrap().name, "test-project");
}

#[test]
fn test_list_projects() {
    let mut db = setup_db();

    let project1 = ProjectRecord {
        id: 0,
        name: "project-a".to_string(),
        root_path: "/test/a".to_string(),
        created_at: now(),
        updated_at: now(),
    };
    let project2 = ProjectRecord {
        id: 0,
        name: "project-b".to_string(),
        root_path: "/test/b".to_string(),
        created_at: now(),
        updated_at: now(),
    };

    db.insert_project(&project1).unwrap();
    db.insert_project(&project2).unwrap();

    let projects = db.list_projects().unwrap();
    assert_eq!(projects.len(), 2);
    // Should be sorted by name
    assert_eq!(projects[0].name, "project-a");
    assert_eq!(projects[1].name, "project-b");
}

#[test]
fn test_list_projects_sorts_by_name_not_by_insertion() {
    let mut db = setup_db();
    for (name, root) in [("zeta", "/z"), ("alpha", "/a"), ("mid", "/m"), ("alpha", "/a2")] {
        let project = ProjectRecord {
            id: 0,
            name: name.to_string(),
            root_path: root.to_string(),
            created_at: 0,
            updated_at: 0,
        };
        db.insert_project(&project).unwrap();
    }
    let projects = db.list_projects().unwrap();
    let listed: Vec<(String, i64)> = projects.iter().map(|p| (p.name.clone(), p.id)).collect();
    assert_eq!(
        listed,
        vec![
            ("alpha".to_string(), 2),
            ("alpha".to_string(), 4),
            ("mid".to_string(), 3),
            ("zeta".to_string(), 1)
        ]
    );
}

#[test]
fn test_update_project_timestamp() {
    let mut db = setup_db();
    let project_id = create_project(&mut db);

    db.update_project_timestamp(project_id).unwrap();

    let project = db.get_project_by_path("/test/path").unwrap().unwrap();
    assert!(project.updated_at >= project.created_at);
}

#[test]
fn test_touch_project_sets_only_that_project() {
    let mut db = setup_db();
    let first = create_project(&mut db);
    let other = ProjectRecord {
        id: 0,
        name: "other".to_string(),
        root_path: "/other".to_string(),
        created_at: 5,
        updated_at: 5,
    };
    let second = db.insert_project(&other).unwrap();
    db.touch_project(first, 1234).unwrap();
    assert_eq!(db.get_project(first).unwrap().unwrap().updated_at, 1234);
    assert_eq!(db.get_project(second).unwrap().unwrap().updated_at, 5);
    // A missing project is no error and changes nothing.
    db.touch_project(99, 7).unwrap();
    assert_eq!(db.get_project(first).unwrap().unwrap().updated_at, 1234);
}

#[test]
fn test_get_project_status() {
    let mut db = setup_db();
    let project_id = create_project(&mut db);
    let file_id = create_file(&mut db, project_id);
    create_node(&mut db, file_id, "class", "TestClass");

    let status = db.get_project_status(project_id).unwrap();
    assert!(status.is_some());

    let status = status.unwrap();
    assert_eq!(status.project_id, project_id);
    assert_eq!(status.files_parsed, 1);
    assert_eq!(status.nodes_count, 1);
    assert_eq!(status.status, "ready");
}

#[test]
fn test_get_project_status_counts_only_the_project() {
    let mut db = setup_db();
    let project_id = create_project(&mut db);
    let other = ProjectRecord {
        id: 0,
        name: "other".to_string(),
        root_path: "/other".to_string(),
        created_at: 5,
        updated_at: 6,
    };
    let other_id = db.insert_project(&other).unwrap();
    let file_id = create_file(&mut db, project_id);
    let other_file = create_file(&mut db, other_id);
    let a = create_node(&mut db, file_id, "function", "a");
    let b = create_node(&mut db, file_id, "function", "b");
    let c = create_node(&mut db, other_file, "function", "c");
    db.insert_edge(&edge(a, b, "calls")).unwrap();
    db.insert_edge(&edge(a, c, "calls")).unwrap();
    db.insert_edge(&edge(c, a, "calls")).unwrap();

    let status = db.get_project_status(project_id).unwrap().unwrap();
    assert_eq!((status.files_parsed, status.nodes_count, status.edges_count), (1, 2, 2));
    let status = db.get_project_status(other_id).unwrap().unwrap();
    assert_eq!((status.files_parsed, status.nodes_count, status.edges_count), (1, 1, 1));
    assert_eq!(status.last_updated, 6);
    assert_eq!(status.name, "other");
    assert_eq!(status.root_path, "/other");
    assert!(db.get_project_status(77).unwrap().is_none());
}

#[test]
fn test_insert_file() {
    let mut db = setup_db();
    let project_id = create_project(&mut db);

    let file = FileRecord {
        id: 0,
        project_id,
        path: "/test/file.java".to_string(),
        language: "java".to_string(),
        content_hash: "hash123".to_string(),
        parsed_at: now(),
    };

    let file_id = db.insert_file(&file).unwrap();
    assert!(file_id > 0);
}

#[test]
fn test_get_file_by_path() {
    let mut db = setup_db();
    let project_id = create_project(&mut db);
    let file_id = create_file(&mut db, project_id);

    let file = db.get_file_by_path(project_id, "/test/path/file.java").unwrap();
    assert!(file.is_some());
    assert_eq!(file.unwrap().id, file_id);
}

#[test]
fn test_get_file() {
    let mut db = setup_db();
    let project_id = create_project(&mut db);
    let file_id = create_file(&mut db, project_id);

    let file = db.get_file(file_id).unwrap();
    assert!(file.is_some());
    assert_eq!(file.unwrap().path, "/test/path/file.java");
}

#[test]
fn test_delete_file_data() {
    let mut db = setup_db();
    let project_id = create_project(&mut db);
    let file_id = create_file(&mut db, project_id);
    create_node(&mut db, file_id, "class", "Test");

    db.delete_file_data(file_id).unwrap();

    let file = db.get_file(file_id).unwrap();
    assert!(file.is_none());
}

#[test]
fn test_insert_node() {
    let mut db = setup_db();
    let project_id = create_project(&mut db);
    let file_id = create_file(&mut db, project_id);

    let node = NodeRecord {
        id: 0,
        file_id,
        node_type: "function".to_string(),
        name: "myFunction".to_string(),
        qualified_name: Some("pkg.myFunction".to_string()),
        start_line: 5,
        start_column: 1,
        end_line: 10,
        end_column: 1,
        attributes: Some(r#"{"public":true}"#.to_string()),
    };

    let node_id = db.insert_node(&node).unwrap();
    assert!(node_id > 0);
}

#[test]
fn test_find_node_at_position() {
    let mut db = setup_db();
    let project_id = create_project(&mut db);
    let file_id = create_file(&mut db, project_id);

    let node = NodeRecord {
        id: 0,
        file_id,
        node_type: "class".to_string(),
        name: "TestClass".to_string(),
        qualified_name: None,
        start_line: 1,
        start_column: 1,
        end_line: 20,
        end_column: 1,
        attributes: None,
    };
    db.insert_node(&node).unwrap();

    let found = db.find_node_at_position(project_id, "/test/path/file.java", 10, 5).unwrap();
    assert!(found.is_some());
    assert_eq!(found.unwrap().name, "TestClass");
}

#[test]
fn test_find_node_at_position_not_found() {
    let mut db = setup_db();
    let project_id = create_project(&mut db);

    let found = db.find_node_at_position(project_id, "/nonexistent.java", 10, 5).unwrap();
    assert!(found.is_none());
}

#[test]
fn test_find_symbol_by_name() {
    let mut db = setup_db();
    let project_id = create_project(&mut db);
    let file_id = create_file(&mut db, project_id);
    create_node(&mut db, file_id, "class", "UserService");

    let found = db.find_symbol_by_name(project_id, "UserService").unwrap();
    assert!(found.is_some());
    assert_eq!(found.unwrap().name, "UserService");
}

#[test]
fn test_find_symbol_by_qualified_name() {
    let mut db = setup_db();
    let project_id = create_project(&mut db);
    let file_id = create_file(&mut db, project_id);
    create_node(&mut db, file_id, "class", "UserService");

    let found = db.find_symbol_by_name(project_id, "com.example.UserService").unwrap();
    assert!(found.is_some());
}

#[test]
fn sqlite_test_search_symbols() {
    let mut db = setup_db();
    let project_id = create_project(&mut db);
    let file_id = create_file(&mut db, project_id);

    create_node(&mut db, file_id, "class", "UserService");
    create_node(&mut db, file_id, "class", "UserRepository");
    create_node(&mut db, file_id, "class", "OrderService");

    let results = db.search_symbols(project_id, "User", None, 10).unwrap();
    assert_eq!(results.len(), 2);
    let names: Vec<&str> = results.iter().map(|n| n.name.as_str()).collect();
    assert_eq!(names, vec!["UserService", "UserRepository"]);
}

#[test]
fn sqlite_test_search_symbols_by_type() {
    let mut db = setup_db();
    let project_id = create_project(&mut db);
    let file_id = create_file(&mut db, project_id);

    create_node(&mut db, file_id, "class", "UserService");
    create_node(&mut db, file_id, "method", "getUser");

    let results = db.search_symbols(project_id, "User", Some("method"), 10).unwrap();
    assert_eq!(results.len(), 1);
    assert_eq!(results[0].node_type, "method");
}

#[test]
fn sqlite_test_search_symbols_with_limit() {
    let mut db = setup_db();
    let project_id = create_project(&mut db);
    let file_id = create_file(&mut db, project_id);

    for i in 0..10 {
        create_node(&mut db, file_id, "method", &format!("method{}", i));
    }

    let results = db.search_symbols(project_id, "method", None, 5).unwrap();
    assert_eq!(results.len(), 5);
}

#[test]
fn test_insert_edge() {
    let mut db = setup_db();
    let project_id = create_project(&mut db);
    let file_id = create_file(&mut db, project_id);

    let node1_id = create_node(&mut db, file_id, "function", "caller");
    let node2_id = create_node(&mut db, file_id, "function", "callee");

    let edge = EdgeRecord {
        id: 0,
        source_id: node1_id,
        target_id: node2_id,
        edge_type: "calls".to_string(),
        attributes: None,
    };

    let edge_id = db.insert_edge(&edge).unwrap();
    assert!(edge_id > 0);
}

#[test]
fn test_find_reference_target() {
    let mut db = setup_db();
    let project_id = create_project(&mut db);
    let file_id = create_file(&mut db, project_id);

    let source_id = create_node(&mut db, file_id, "reference", "UserService");
    let target_id = create_node(&mut db, file_id, "class", "UserService");

    let edge = EdgeRecord {
        id: 0,
        source_id,
        target_id,
        edge_type: "references".to_string(),
        attributes: None,
    };
    db.insert_edge(&edge).unwrap();

    let target = db.find_reference_target(source_id).unwrap();
    assert!(target.is_some());
    assert_eq!(target.unwrap().id, target_id);
}

#[test]
fn test_find_all_references() {
    let mut db = setup_db();
    let project_id = create_project(&mut db);
    let file_id = create_file(&mut db, project_id);

    let target_id = create_node(&mut db, file_id, "class", "UserService");
    let ref1_id = create_node(&mut db, file_id, "reference", "ref1");
    let ref2_id = create_node(&mut db, file_id, "reference", "ref2");

    for ref_id in [ref1_id, ref2_id] {
        let edge = EdgeRecord {
            id: 0,
            source_id: ref_id,
            target_id,
            edge_type: "references".to_string(),
            attributes: None,
        };
        db.insert_edge(&edge).unwrap();
    }

    let refs = db.find_all_references(target_id).unwrap();
    assert_eq!(refs.len(), 2);
}

#[test]
fn test_find_callers() {
    let mut db = setup_db();
    let project_id = create_project(&mut db);
    let file_id = create_file(&mut db, project_id);

    let callee_id = create_node(&mut db, file_id, "function", "helper");
    let caller1_id = create_node(&mut db, file_id, "function", "main");
    let caller2_id = create_node(&mut db, file_id, "function", "test");

    for caller_id in [caller1_id, caller2_id] {
        let edge = EdgeRecord {
            id: 0,
            source_id: caller_id,
            target_id: callee_id,
            edge_type: "calls".to_string(),
            attributes: None,
        };
        db.insert_edge(&edge).unwrap();
    }

    let callers = db.find_callers(callee_id).unwrap();
    assert_eq!(callers.len(), 2);
}

#[test]
fn test_find_callees() {
    let mut db = setup_db();
    let project_id = create_project(&mut db);
    let file_id = create_file(&mut db, project_id);

    let caller_id = create_node(&mut db, file_id, "function", "main");
    let callee1_id = create_node(&mut db, file_id, "function", "helper1");
    let callee2_id = create_node(&mut db, file_id, "function", "helper2");

    for callee_id in [callee1_id, callee2_id] {
        let edge = EdgeRecord {
            id: 0,
            source_id: caller_id,
            target_id: callee_id,
            edge_type: "calls".to_string(),
            attributes: None,
        };
        db.insert_edge(&edge).unwrap();
    }

    let callees = db.find_callees(caller_id).unwrap();
    assert_eq!(callees.len(), 2);
}

#[test]
fn test_get_unresolved_references() {
    let mut db = setup_db();
    let project_id = create_project(&mut db);
    let file_id = create_file(&mut db, project_id);

    // Create a reference node without a target edge
    let node = NodeRecord {
        id: 0,
        file_id,
        node_type: "reference".to_string(),
        name: "UnresolvedType".to_string(),
        qualified_name: None,
        start_line: 1,
        start_column: 1,
        end_line: 1,
        end_column: 15,
        attributes: None,
    };
    db.insert_node(&node).unwrap();

    let unresolved = db.get_unresolved_references(project_id).unwrap();
    assert_eq!(unresolved.len(), 1);
    assert_eq!(unresolved[0].1, "UnresolvedType");
}

#[test]
fn test_find_definition_by_name() {
    let mut db = setup_db();
    let project_id = create_project(&mut db);
    let file_id = create_file(&mut db, project_id);

    create_node(&mut db, file_id, "function", "myFunction");
    create_node(&mut db, file_id, "call", "myFunction"); // This should not be found

    let def_id = db.find_definition_by_name(project_id, "myFunction").unwrap();
    assert!(def_id.is_some());
}

#[test]
fn test_cascade_delete() {
    let mut db = setup_db();
    let project_id = create_project(&mut db);
    let file_id = create_file(&mut db, project_id);
    let _node_id = create_node(&mut db, file_id, "class", "Test");

    // Verify node exists
    let found = db.find_symbol_by_name(project_id, "Test").unwrap();
    assert!(found.is_some());

    // Delete file should cascade delete nodes
    db.delete_file_data(file_id).unwrap();

    // Node should be gone
    let found = db.find_symbol_by_name(project_id, "Test").unwrap();
    assert!(found.is_none());
}

#[test]
fn test_unique_project_path_constraint() {
    let mut db = setup_db();

    let project1 = ProjectRecord {
        id: 0,
        name: "project1".to_string(),
        root_path: "/same/path".to_string(),
        created_at: now(),
        updated_at: now(),
    };

    let project2 = ProjectRecord {
        id: 0,
        name: "project2".to_string(),
        root_path: "/same/path".to_string(),
        created_at: now(),
        updated_at: now(),
    };

    db.insert_project(&project1).unwrap();
    let result = db.insert_project(&project2);
    assert!(result.is_err()); // Should fail due to unique constraint
    assert_eq!(result, Err(StoreError::DuplicateRootPath));
}

#[test]
fn test_unique_file_path_constraint() {
    let mut db = setup_db();
    let project_id = create_project(&mut db);

    let file1 = FileRecord {
        id: 0,
        project_id,
        path: "/same/file.java".to_string(),
        language: "java".to_string(),
        content_hash: "hash1".to_string(),
        parsed_at: now(),
    };

    let file2 = FileRecord {
        id: 0,
        project_id,
        path: "/same/file.java".to_string(),
        language: "java".to_string(),
        content_hash: "hash2".to_string(),
        parsed_at: now(),
    };

    db.insert_file(&file1).unwrap();
    let result = db.insert_file(&file2);
    assert!(result.is_err()); // Should fail due to unique constraint
    assert_eq!(result, Err(StoreError::DuplicateFile));
}

#[test]
fn test_insert_errors_name_the_missing_row() {
    let mut db = setup_db();
    let file = FileRecord {
        id: 0,
        project_id: 42,
        path: "/a".to_string(),
        language: "go".to_string(),
        content_hash: "h".to_string(),
        parsed_at: 0,
    };
    assert_eq!(db.insert_file(&file), Err(StoreError::UnknownProject));
    let node = NodeRecord {
        id: 0,
        file_id: 42,
        node_type: "class".to_string(),
        name: "A".to_string(),
        qualified_name: None,
        start_line: 1,
        start_column: 1,
        end_line: 1,
        end_column: 1,
        attributes: None,
    };
    assert_eq!(db.insert_node(&node), Err(StoreError::UnknownFile));
    let project_id = create_project(&mut db);
    let file_id = create_file(&mut db, project_id);
    let a = create_node(&mut db, file_id, "class", "A");
    assert_eq!(db.insert_edge(&edge(a, 99, "calls")), Err(StoreError::UnknownNode));
    assert_eq!(db.insert_edge(&edge(99, a, "calls")), Err(StoreError::UnknownNode));
    assert_eq!(db.edge_rows().len(), 0);
}

#[test]
fn test_identifiers_count_up_from_one() {
    let mut db = setup_db();
    let project_id = create_project(&mut db);
    assert_eq!(project_id, 1);
    let file_id = create_file(&mut db, project_id);
    assert_eq!(file_id, 1);
    assert_eq!(create_node(&mut db, file_id, "class", "A"), 1);
    assert_eq!(create_node(&mut db, file_id, "class", "B"), 2);
    assert_eq!(db.insert_edge(&edge(1, 2, "contains")), Ok(1));
    assert_eq!(db.next_ids(), (2, 3, 2));
    // A stored row carries the identifier it was given, not the one passed in.
    assert_eq!(db.get_node(2).unwrap().unwrap().name, "B");
    assert_eq!(db.node_rows()[1].id, 2);
}

#[test]
fn test_delete_removes_edges_that_touch_the_file_only() {
    let mut db = setup_db();
    let project_id = create_project(&mut db);
    let file_id = create_file(&mut db, project_id);
    let other = FileRecord {
        id: 0,
        project_id,
        path: "/other.java".to_string(),
        language: "java".to_string(),
        content_hash: "h".to_string(),
        parsed_at: 0,
    };
    let other_id = db.insert_file(&other).unwrap();
    let a = create_node(&mut db, file_id, "function", "a");
    let b = create_node(&mut db, other_id, "function", "b");
    let c = create_node(&mut db, other_id, "function", "c");
    db.insert_edge(&edge(a, b, "calls")).unwrap();
    db.insert_edge(&edge(b, a, "calls")).unwrap();
    let kept = db.insert_edge(&edge(b, c, "calls")).unwrap();

    db.delete_file_data(file_id).unwrap();

    assert!(db.get_node(a).unwrap().is_none());
    assert!(db.get_node(b).unwrap().is_some());
    let edges: Vec<i64> = db.edge_rows().iter().map(|e| e.id).collect();
    assert_eq!(edges, vec![kept]);
    assert_eq!(db.file_rows().len(), 1);
    assert_eq!(db.project_rows().len(), 1);
    // Deleting a file that does not exist changes nothing.
    db.delete_file_data(file_id).unwrap();
    assert_eq!(db.node_rows().len(), 2);
}

#[test]
fn test_innermost_node_wins() {
    let mut db = setup_db();
    let project_id = create_project(&mut db);
    let file_id = create_file(&mut db, project_id);
    let span = |name: &str, sl: u32, sc: u32, el: u32, ec: u32| NodeRecord {
        id: 0,
        file_id,
        node_type: "function".to_string(),
        name: name.to_string(),
        qualified_name: None,
        start_line: sl,
        start_column: sc,
        end_line: el,
        end_column: ec,
        attributes: None,
    };
    db.insert_node(&span("A", 1, 1, 20, 1)).unwrap();
    db.insert_node(&span("B", 5, 1, 8, 1)).unwrap();
    db.insert_node(&span("C", 6, 4, 6, 9)).unwrap();
    db.insert_node(&span("D", 6, 4, 6, 9)).unwrap();
    let at = |db: &Database, line: u32, column: u32| {
        db.find_node_at_position(project_id, "/test/path/file.java", line, column)
            .unwrap()
            .map(|n| n.name)
    };
    assert_eq!(at(&db, 6, 1).as_deref(), Some("B"));
    assert_eq!(at(&db, 3, 7).as_deref(), Some("A"));
    // Of two nodes with the same span the first is found.
    assert_eq!(at(&db, 6, 4).as_deref(), Some("C"));
    assert_eq!(at(&db, 6, 9).as_deref(), Some("C"));
    assert_eq!(at(&db, 6, 10).as_deref(), Some("B"));
    // Both ends are inclusive; the column counts on the first and last line only.
    assert_eq!(at(&db, 5, 1).as_deref(), Some("B"));
    assert_eq!(at(&db, 8, 1).as_deref(), Some("B"));
    assert_eq!(at(&db, 8, 2).as_deref(), Some("A"));
    assert_eq!(at(&db, 20, 1).as_deref(), Some("A"));
    assert_eq!(at(&db, 20, 2), None);
    assert_eq!(at(&db, 21, 1), None);
    // Another project does not see the file.
    assert!(db.find_node_at_position(project_id + 1, "/test/path/file.java", 6, 1).unwrap().is_none());
}

#[test]
fn test_search_is_case_sensitive_and_matches_qualified_names() {
    let mut db = setup_db();
    let project_id = create_project(&mut db);
    let file_id = create_file(&mut db, project_id);
    create_node(&mut db, file_id, "class", "UserService");
    create_node(&mut db, file_id, "class", "userservice");
    create_node(&mut db, file_id, "class", "Other");
    let names = |found: Vec<NodeRecord>| found.into_iter().map(|n| n.name).collect::<Vec<_>>();
    assert_eq!(names(db.search_symbols(project_id, "User", None, 10).unwrap()), vec!["UserService"]);
    assert_eq!(
        names(db.search_symbols(project_id, "example.", None, 10).unwrap()),
        vec!["UserService", "userservice", "Other"]
    );
    assert_eq!(names(db.search_symbols(project_id, "", None, 2).unwrap()).len(), 2);
    assert_eq!(names(db.search_symbols(project_id, "", None, 0).unwrap()).len(), 0);
    assert_eq!(names(db.search_symbols(project_id, "User", Some("method"), 10).unwrap()).len(), 0);
    assert_eq!(names(db.search_symbols(project_id + 1, "User", None, 10).unwrap()).len(), 0);
}

#[test]
fn test_definition_kinds() {
    let mut db = setup_db();
    let project_id = create_project(&mut db);
    let file_id = create_file(&mut db, project_id);
    for kind in ["call", "reference", "package", "import", "parameter", "constructor", "type"] {
        create_node(&mut db, file_id, kind, "name");
        assert_eq!(db.find_definition_by_name(project_id, "name").unwrap(), None);
    }
    let mut expected = 8;
    for kind in ["class", "method", "function", "interface", "struct", "field", "variable"] {
        let mut db2 = Database::new();
        let p = create_project(&mut db2);
        let f = create_file(&mut db2, p);
        create_node(&mut db2, f, "call", "name");
        let id = create_node(&mut db2, f, kind, "name");
        assert_eq!(db2.find_definition_by_name(p, "name").unwrap(), Some(id));
        create_node(&mut db, file_id, kind, "name");
        assert_eq!(db.find_definition_by_name(project_id, "name").unwrap(), Some(8));
        expected += 1;
    }
    assert_eq!(expected, 15);
}

#[test]
fn test_restore_puts_rows_back_under_their_identifiers() {
    let mut db = setup_db();
    let project = ProjectRecord {
        id: 4,
        name: "p".to_string(),
        root_path: "/p".to_string(),
        created_at: 1,
        updated_at: 2,
    };
    assert_eq!(db.restore_project(&project), Ok(()));
    assert_eq!(db.restore_project(&project), Err(StoreError::OutOfOrder));
    let again = ProjectRecord { id: 9, ..project.clone() };
    assert_eq!(db.restore_project(&again), Err(StoreError::DuplicateRootPath));
    let last = ProjectRecord { id: i64::MAX, root_path: "/q".to_string(), ..project.clone() };
    assert_eq!(db.restore_project(&last), Err(StoreError::Exhausted));
    assert_eq!(db.project_rows().len(), 1);
    assert_eq!(db.project_rows()[0].id, 4);

    let file = FileRecord {
        id: 7,
        project_id: 4,
        path: "/p/a.go".to_string(),
        language: "go".to_string(),
        content_hash: "h".to_string(),
        parsed_at: 3,
    };
    assert_eq!(db.restore_file(&FileRecord { project_id: 5, ..file.clone() }), Err(StoreError::UnknownProject));
    assert_eq!(db.restore_file(&FileRecord { id: 0, ..file.clone() }), Err(StoreError::OutOfOrder));
    assert_eq!(db.restore_file(&file), Ok(()));
    assert_eq!(db.restore_file(&FileRecord { id: 8, ..file.clone() }), Err(StoreError::DuplicateFile));
    assert_eq!(
        db.restore_file(&FileRecord { id: i64::MAX, path: "/p/b.go".to_string(), ..file.clone() }),
        Err(StoreError::Exhausted)
    );

    let node = NodeRecord {
        id: 3,
        file_id: 7,
        node_type: "function".to_string(),
        name: "f".to_string(),
        qualified_name: None,
        start_line: 1,
        start_column: 1,
        end_line: 2,
        end_column: 1,
        attributes: None,
    };
    assert_eq!(db.restore_node(&NodeRecord { file_id: 8, ..node.clone() }), Err(StoreError::UnknownFile));
    assert_eq!(db.restore_node(&node), Ok(()));
    assert_eq!(db.restore_node(&NodeRecord { id: 3, ..node.clone() }), Err(StoreError::OutOfOrder));
    assert_eq!(db.restore_node(&NodeRecord { id: i64::MAX, ..node.clone() }), Err(StoreError::Exhausted));
    assert_eq!(db.restore_node(&NodeRecord { id: 10, ..node.clone() }), Ok(()));

    let link = EdgeRecord { id: 2, ..edge(3, 10, "calls") };
    assert_eq!(db.restore_edge(&EdgeRecord { target_id: 11, ..link.clone() }), Err(StoreError::UnknownNode));
    assert_eq!(db.restore_edge(&EdgeRecord { source_id: 11, ..link.clone() }), Err(StoreError::UnknownNode));
    assert_eq!(db.restore_edge(&EdgeRecord { id: 0, ..link.clone() }), Err(StoreError::OutOfOrder));
    assert_eq!(db.restore_edge(&EdgeRecord { id: i64::MAX, ..link.clone() }), Err(StoreError::Exhausted));
    assert_eq!(db.restore_edge(&link), Ok(()));

    // New rows continue after the restored ones.
    assert_eq!(db.next_ids(), (8, 11, 3));
    assert_eq!(create_node(&mut db, 7, "function", "g"), 11);
    let next = ProjectRecord { id: 0, root_path: "/r".to_string(), ..project };
    assert_eq!(db.insert_project(&next), Ok(5));
    assert_eq!(db.find_callees(3).unwrap().len(), 1);
}

#[test]
fn test_store_opened_in_memory_is_empty() {
    let db = Database::open_in_memory().unwrap();
    assert!(db.list_projects().unwrap().is_empty());
    assert!(db.project_rows().is_empty());
    assert!(db.file_rows().is_empty());
    assert!(db.node_rows().is_empty());
    assert!(db.edge_rows().is_empty());
    assert_eq!(db.next_ids(), (1, 1, 1));
    assert!(db.get_project(1).unwrap().is_none());
}
