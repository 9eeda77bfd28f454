use codegraph::storage::models::{
    EdgeData, EdgeRecord, FileRecord, NodeData, NodeRecord, ProjectRecord, ProjectStatus,
};

#[test]
fn test_project_record_clone() {
    let project = ProjectRecord {
        id: 1,
        name: "test".to_string(),
        root_path: "/test".to_string(),
        created_at: chrono::Utc::now().timestamp_micros(),
        updated_at: chrono::Utc::now().timestamp_micros(),
    };

    let cloned = project.clone();
    assert_eq!(cloned.id, project.id);
    assert_eq!(cloned.name, project.name);
}

#[test]
fn test_node_data_clone() {
    let node = NodeData {
        node_type: "method".to_string(),
        name: "process".to_string(),
        qualified_name: Some("Service.process".to_string()),
        start_line: 10,
        start_column: 5,
        end_line: 25,
        end_column: 5,
        attributes: None,
    };

    let cloned = node.clone();
    assert_eq!(cloned.name, node.name);
    assert_eq!(cloned.node_type, node.node_type);
}

#[test]
fn test_edge_data_clone() {
    let edge = EdgeData {
        source_idx: 0,
        target_idx: 1,
        edge_type: "contains".to_string(),
        attributes: Some(r#"{"count":1}"#.to_string()),
    };

    let cloned = edge.clone();
    assert_eq!(cloned.source_idx, edge.source_idx);
    assert_eq!(cloned.target_idx, edge.target_idx);
    assert_eq!(cloned.edge_type, edge.edge_type);
}

#[test]
fn test_node_data_debug() {
    let node = NodeData {
        node_type: "class".to_string(),
        name: "Test".to_string(),
        qualified_name: None,
        start_line: 1,
        start_column: 1,
        end_line: 10,
        end_column: 1,
        attributes: None,
    };

    let debug_str = format!("{:?}", node);
    assert!(debug_str.contains("Test"));
    assert!(debug_str.contains("class"));
}

#[test]
fn test_edge_data_debug() {
    let edge = EdgeData {
        source_idx: 0,
        target_idx: 1,
        edge_type: "calls".to_string(),
        attributes: None,
    };

    let debug_str = format!("{:?}", edge);
    assert!(debug_str.contains("calls"));
    assert!(debug_str.contains("source_idx: 0"));
}

#[test]
fn test_record_clones_keep_every_field() {
    let file = FileRecord {
        id: 3,
        project_id: 2,
        path: "/src/lib.go".to_string(),
        language: "go".to_string(),
        content_hash: "xyz789".to_string(),
        parsed_at: 17,
    };
    let copy = file.clone();
    assert_eq!(copy.id, 3);
    assert_eq!(copy.project_id, 2);
    assert_eq!(copy.path, "/src/lib.go");
    assert_eq!(copy.language, "go");
    assert_eq!(copy.content_hash, "xyz789");
    assert_eq!(copy.parsed_at, 17);

    let node = NodeRecord {
        id: 1,
        file_id: 1,
        node_type: "variable".to_string(),
        name: "x".to_string(),
        qualified_name: None,
        start_line: 1,
        start_column: 2,
        end_line: 3,
        end_column: 5,
        attributes: Some(r#"{"public":true}"#.to_string()),
    };
    let copy = node.clone();
    assert!(copy.qualified_name.is_none());
    assert_eq!(copy.attributes.as_deref(), Some(r#"{"public":true}"#));
    assert_eq!((copy.start_line, copy.start_column, copy.end_line, copy.end_column), (1, 2, 3, 5));

    let edge = EdgeRecord {
        id: 1,
        source_id: 10,
        target_id: 20,
        edge_type: "extends".to_string(),
        attributes: None,
    };
    let copy = edge.clone();
    assert_eq!((copy.source_id, copy.target_id), (10, 20));
    assert_eq!(copy.edge_type, "extends");

    let status = ProjectStatus {
        project_id: 1,
        name: "my-project".to_string(),
        root_path: "/home/project".to_string(),
        status: "parsing".to_string(),
        files_parsed: 5,
        nodes_count: 50,
        edges_count: 25,
        last_updated: 9,
    };
    let copy = status.clone();
    assert_eq!(copy.name, "my-project");
    assert_eq!(copy.status, "parsing");
    assert_eq!((copy.files_parsed, copy.nodes_count, copy.edges_count), (5, 50, 25));
}
