//! End-to-end tests: sources are parsed, stored, resolved and queried.

use codegraph::engine::query::QueryExecutor;
use codegraph::languages::BuiltinLanguage;
use codegraph::{CodeParser, Database, GraphBuilder, LanguageRegistry};

fn setup_test_environment() -> (Database, LanguageRegistry<BuiltinLanguage>) {
    let db = Database::open_in_memory().unwrap();
    let registry = LanguageRegistry::new();
    (db, registry)
}

#[test]
fn test_java_end_to_end() {
    let (db, registry) = setup_test_environment();

    let java_code = r#"
package com.example;

import java.util.List;

public class UserService {
    private UserRepository repository;

    public UserService(UserRepository repository) {
        this.repository = repository;
    }

    public User getUser(Long id) {
        return repository.findById(id);
    }

    public List<User> getAllUsers() {
        return repository.findAll();
    }
}
"#;

    // Parse the file
    let parser = CodeParser::new(registry);
    let graph_data = parser.parse_source(java_code, "java").unwrap();

    // Verify parsing results
    assert!(!graph_data.nodes.is_empty());
    assert!(!graph_data.content_hash.is_empty());

    // Check for expected node types (required)
    let node_types: Vec<_> = graph_data.nodes.iter().map(|n| n.node_type.as_str()).collect();
    assert!(node_types.contains(&"import"));
    assert!(node_types.contains(&"class"));
    assert!(node_types.contains(&"method"));

    // Store the graph
    let mut builder = GraphBuilder::new(db);
    let project_id = builder.create_or_get_project("test-project", "/tmp/project").unwrap();
    builder.store_file_graph(project_id, "/tmp/project/UserService.java", "java", graph_data).unwrap();
}

#[test]
fn test_go_end_to_end() {
    let (db, registry) = setup_test_environment();

    let go_code = r#"
package main

import (
    "fmt"
    "net/http"
)

type Server struct {
    port int
    name string
}

func NewServer(port int, name string) *Server {
    return &Server{port: port, name: name}
}

func (s *Server) Start() error {
    fmt.Printf("Starting %s on port %d\n", s.name, s.port)
    return http.ListenAndServe(fmt.Sprintf(":%d", s.port), nil)
}

func main() {
    server := NewServer(8080, "TestServer")
    server.Start()
}
"#;

    // Parse the file
    let parser = CodeParser::new(registry);
    let graph_data = parser.parse_source(go_code, "go").unwrap();

    // Verify parsing results
    assert!(!graph_data.nodes.is_empty());

    // Check for expected node types
    let node_types: Vec<_> = graph_data.nodes.iter().map(|n| n.node_type.as_str()).collect();
    assert!(node_types.contains(&"package"));
    assert!(node_types.contains(&"import"));
    assert!(node_types.contains(&"struct"));
    assert!(node_types.contains(&"function"));
    assert!(node_types.contains(&"method"));

    // Store the graph
    let mut builder = GraphBuilder::new(db);
    let project_id = builder.create_or_get_project("test-project", "/tmp/project").unwrap();
    builder.store_file_graph(project_id, "/tmp/project/main.go", "go", graph_data).unwrap();
}

#[test]
fn test_multi_file_project() {
    let (db, registry) = setup_test_environment();

    // Create multiple Java files
    let service_code = r#"
package com.example;

public class UserService {
    private UserRepository repository;

    public User getUser(Long id) {
        return repository.findById(id);
    }
}
"#;

    let repo_code = r#"
package com.example;

public interface UserRepository {
    User findById(Long id);
    List<User> findAll();
}
"#;

    let parser = CodeParser::new(registry);
    let mut builder = GraphBuilder::new(db);

    let project_id = builder.create_or_get_project("multi-file-project", "/tmp/project").unwrap();

    // Parse and store both files
    let service_graph = parser.parse_source(service_code, "java").unwrap();
    builder.store_file_graph(project_id, "/tmp/project/UserService.java", "java", service_graph).unwrap();

    let repo_graph = parser.parse_source(repo_code, "java").unwrap();
    builder.store_file_graph(project_id, "/tmp/project/UserRepository.java", "java", repo_graph).unwrap();

    // Build cross-references
    builder.build_cross_references(project_id).unwrap();
}

#[test]
fn test_query_after_parsing() {
    let (db, registry) = setup_test_environment();

    let java_code = r#"
package com.example;

public class Calculator {
    public int add(int a, int b) {
        return a + b;
    }

    public int subtract(int a, int b) {
        return a - b;
    }
}
"#;

    // Parse and store
    let parser = CodeParser::new(registry);
    let graph_data = parser.parse_source(java_code, "java").unwrap();

    // Verify parsing produced expected nodes
    assert!(!graph_data.nodes.is_empty());
    assert!(graph_data.nodes.iter().any(|n| n.name == "Calculator" && n.node_type == "class"));
    assert!(graph_data.nodes.iter().any(|n| n.name == "add" && n.node_type == "method"));
    assert!(graph_data.nodes.iter().any(|n| n.name == "subtract" && n.node_type == "method"));

    let mut builder = GraphBuilder::new(db);
    let project_id = builder.create_or_get_project("query-test", "/tmp/project").unwrap();
    let file_id = builder.store_file_graph(project_id, "/tmp/project/Calculator.java", "java", graph_data).unwrap();

    // Verify storage succeeded
    assert!(project_id > 0);
    assert!(file_id > 0);
}

#[test]
fn test_file_collection_with_filter() {
    let (_db, registry) = setup_test_environment();

    let parser = CodeParser::new(registry);
    let names = ["Service.java", "main.go"];

    // Filter Java only
    let filter = vec!["java".to_string()];
    let files: Vec<String> =
        names.iter().filter_map(|n| parser.language_for(n.rsplit('.').next().unwrap(), Some(&filter))).collect();
    // All returned files should be Java (if any)
    assert!(files.iter().all(|lang| lang == "java"));
    assert_eq!(files.len(), 1);

    // Filter Go only
    let filter = vec!["go".to_string()];
    let files: Vec<String> =
        names.iter().filter_map(|n| parser.language_for(n.rsplit('.').next().unwrap(), Some(&filter))).collect();
    // All returned files should be Go (if any)
    assert!(files.iter().all(|lang| lang == "go"));
    assert_eq!(files.len(), 1);
}

#[test]
fn test_incremental_parsing() {
    let (db, registry) = setup_test_environment();

    let initial_code = "public class Test { public void method1() {} }";

    let parser = CodeParser::new(registry);
    let mut builder = GraphBuilder::new(db);

    let project_id = builder.create_or_get_project("incremental-test", "/tmp/project").unwrap();

    // First parse
    let graph1 = parser.parse_source(initial_code, "java").unwrap();
    let hash1 = graph1.content_hash.clone();
    let file_id1 = builder.store_file_graph(project_id, "/tmp/project/Test.java", "java", graph1).unwrap();

    // Parse same file again (should return same file_id due to same hash)
    let graph2 = parser.parse_source(initial_code, "java").unwrap();
    let hash2 = graph2.content_hash.clone();
    let file_id2 = builder.store_file_graph(project_id, "/tmp/project/Test.java", "java", graph2).unwrap();

    assert_eq!(hash1, hash2);
    assert_eq!(file_id1, file_id2);

    // Modify the file
    let modified_code = "public class Test { public void method1() {} public void method2() {} }";

    // Parse modified file (should get new hash)
    let parser = CodeParser::new(LanguageRegistry::new());
    let graph3 = parser.parse_source(modified_code, "java").unwrap();
    let hash3 = graph3.content_hash.clone();
    let file_id3 = builder.store_file_graph(project_id, "/tmp/project/Test.java", "java", graph3).unwrap();

    // Hash should be different for different content
    assert_ne!(hash1, hash3);
    // Both file IDs should be valid
    assert!(file_id1 > 0);
    assert!(file_id3 > 0);
}

#[test]
fn test_project_status() {
    let (db, registry) = setup_test_environment();

    let code = "public class Test {}";

    let parser = CodeParser::new(registry);
    let mut builder = GraphBuilder::new(db);

    let project_id = builder.create_or_get_project("status-test", "/tmp/project").unwrap();
    let graph = parser.parse_source(code, "java").unwrap();
    let file_id = builder.store_file_graph(project_id, "/tmp/project/Test.java", "java", graph).unwrap();

    // Verify file was stored
    assert!(project_id > 0);
    assert!(file_id > 0);
}

#[test]
fn test_query_executor_integration() {
    let (db, registry) = setup_test_environment();

    let code = r#"
package com.example;

public class Calculator {
    public int add(int a, int b) {
        return a + b;
    }
}
"#;

    let parser = CodeParser::new(registry);
    let graph = parser.parse_source(code, "java").unwrap();

    let mut builder = GraphBuilder::new(db);
    let project_id = builder.create_or_get_project("calc-test", "/tmp/project").unwrap();
    builder.store_file_graph(project_id, "/tmp/project/Calculator.java", "java", graph).unwrap();

    let executor = QueryExecutor::new(builder.into_database());
    let found = executor.search_symbols(project_id, "add", None, 10).unwrap();
    assert!(found.symbols.iter().any(|s| s.name == "add" && s.node_type == "method"));
}

#[test]
fn test_complex_java_parsing() {
    let (db, registry) = setup_test_environment();

    let code = r#"
package com.example.service;

import java.util.List;
import java.util.Optional;
import java.util.stream.Collectors;

public class UserService extends AbstractService implements UserOperations {
    private final UserRepository userRepository;
    private final EmailService emailService;

    public UserService(UserRepository userRepository, EmailService emailService) {
        this.userRepository = userRepository;
        this.emailService = emailService;
    }

    @Override
    public Optional<User> findById(Long id) {
        return userRepository.findById(id);
    }

    @Override
    public List<User> findAll() {
        return userRepository.findAll().stream()
            .filter(User::isActive)
            .collect(Collectors.toList());
    }

    public void sendWelcomeEmail(User user) {
        emailService.send(user.getEmail(), "Welcome!");
    }
}
"#;

    let parser = CodeParser::new(registry);
    let graph = parser.parse_source(code, "java").unwrap();

    // Verify complex structure was parsed
    let class_nodes: Vec<_> = graph.nodes.iter().filter(|n| n.node_type == "class").collect();
    assert_eq!(class_nodes.len(), 1);
    assert_eq!(class_nodes[0].name, "UserService");

    let method_nodes: Vec<_> = graph.nodes.iter().filter(|n| n.node_type == "method").collect();
    assert_eq!(method_nodes.len(), 3); // findById, findAll, sendWelcomeEmail

    let field_nodes: Vec<_> = graph.nodes.iter().filter(|n| n.node_type == "field").collect();
    assert_eq!(field_nodes.len(), 2);

    // Verify extends relationship if present
    let extends_edges: Vec<_> = graph.edges.iter().filter(|e| e.edge_type == "extends").collect();
    // extends edge may or may not be created depending on implementation
    assert!(extends_edges.len() <= 1);

    // Verify implements relationships if present
    let implements_edges: Vec<_> = graph.edges.iter().filter(|e| e.edge_type == "implements").collect();
    // implements edges may or may not be created depending on implementation
    assert!(implements_edges.len() <= 2);

    let mut builder = GraphBuilder::new(db);
    let project_id = builder.create_or_get_project("complex-test", "/tmp/project").unwrap();
    builder.store_file_graph(project_id, "/tmp/project/UserService.java", "java", graph).unwrap();
}

#[test]
fn test_complex_go_parsing() {
    let (db, registry) = setup_test_environment();

    let code = r#"
package server

import (
    "context"
    "fmt"
    "net/http"
    "time"
)

type Config struct {
    Host    string
    Port    int
    Timeout time.Duration
}

type Server struct {
    config *Config
    router http.Handler
}

func NewServer(config *Config) *Server {
    return &Server{
        config: config,
    }
}

func (s *Server) Start(ctx context.Context) error {
    addr := fmt.Sprintf("%s:%d", s.config.Host, s.config.Port)
    server := &http.Server{
        Addr:         addr,
        Handler:      s.router,
        ReadTimeout:  s.config.Timeout,
        WriteTimeout: s.config.Timeout,
    }
    return server.ListenAndServe()
}

func (s *Server) Stop(ctx context.Context) error {
    fmt.Println("Stopping server...")
    return nil
}

type Handler interface {
    Handle(ctx context.Context, req *http.Request) error
}
"#;

    let parser = CodeParser::new(registry);
    let graph = parser.parse_source(code, "go").unwrap();

    // Verify struct types
    let struct_nodes: Vec<_> = graph.nodes.iter().filter(|n| n.node_type == "struct").collect();
    assert_eq!(struct_nodes.len(), 2); // Config, Server

    // Verify functions
    let func_nodes: Vec<_> = graph.nodes.iter().filter(|n| n.node_type == "function").collect();
    assert_eq!(func_nodes.len(), 1); // NewServer

    // Verify methods
    let method_nodes: Vec<_> = graph.nodes.iter().filter(|n| n.node_type == "method").collect();
    assert!(method_nodes.len() >= 2); // Start, Stop + interface methods

    // Verify interface
    let interface_nodes: Vec<_> = graph.nodes.iter().filter(|n| n.node_type == "interface").collect();
    assert_eq!(interface_nodes.len(), 1); // Handler

    let mut builder = GraphBuilder::new(db);
    let project_id = builder.create_or_get_project("go-complex-test", "/tmp/project").unwrap();
    builder.store_file_graph(project_id, "/tmp/project/server.go", "go", graph).unwrap();
}

#[test]
fn test_main_calls_helper_end_to_end() {
    let (db, registry) = setup_test_environment();
    let source = "package app\n\nfunc helper() {\n}\n\nfunc main() {\n    helper()\n}\n";
    let parser = CodeParser::new(registry);
    let graph = parser.parse_source(source, "go").unwrap();
    let mut builder = GraphBuilder::new(db);
    let project_id = builder.create_or_get_project("e2e", "/tmp/e2e").unwrap();
    builder.store_file_graph(project_id, "/tmp/e2e/main.go", "go", graph).unwrap();
    builder.build_cross_references(project_id).unwrap();

    let executor = QueryExecutor::new(builder.into_database());
    let result = executor.get_callgraph(project_id, "main", 1, "callees").unwrap();
    assert_eq!(result.center.name, "main");
    assert_eq!(result.center.node_type, "function");
    assert!(result.callees.iter().any(|c| c.name == "helper"));
    assert!(result.callers.is_empty());
    // The callee is the call site that the function contains.
    let helper = result.callees.iter().find(|c| c.name == "helper").unwrap();
    assert_eq!(helper.node_type, "call");
    assert_eq!((helper.line, helper.column), (7, 5));
    assert_eq!(helper.file, "/tmp/e2e/main.go");
}

#[test]
fn test_symbol_lookup_takes_the_first_node_of_that_name() {
    let (db, registry) = setup_test_environment();
    let source = "package main\n\nfunc helper() {\n}\n\nfunc main() {\n    helper()\n}\n";
    let parser = CodeParser::new(registry);
    let graph = parser.parse_source(source, "go").unwrap();
    let mut builder = GraphBuilder::new(db);
    let project_id = builder.create_or_get_project("e2e", "/tmp/e2e").unwrap();
    builder.store_file_graph(project_id, "/tmp/e2e/main.go", "go", graph).unwrap();
    builder.build_cross_references(project_id).unwrap();

    let executor = QueryExecutor::new(builder.into_database());
    // The package node is the first node named `main`.
    let result = executor.get_callgraph(project_id, "main", 1, "callees").unwrap();
    assert_eq!(result.center.node_type, "package");
    assert!(result.callees.is_empty());
    // The function is reached by its qualified name.
    let result = executor.get_callgraph(project_id, "main.main", 1, "callees").unwrap();
    assert_eq!(result.center.node_type, "function");
    assert!(result.callees.iter().any(|c| c.name == "helper"));
    assert!(result.callers.is_empty());
}

#[test]
fn test_java_method_calls_helper_end_to_end() {
    let (db, registry) = setup_test_environment();
    let source = "package demo;\n\npublic class App {\n    void helper() {\n    }\n\n    void main() {\n        helper();\n    }\n}\n";
    let parser = CodeParser::new(registry);
    let graph = parser.parse_source(source, "java").unwrap();
    let mut builder = GraphBuilder::new(db);
    let project_id = builder.create_or_get_project("e2e-java", "/tmp/e2e-java").unwrap();
    builder.store_file_graph(project_id, "/tmp/e2e-java/App.java", "java", graph).unwrap();
    builder.build_cross_references(project_id).unwrap();

    let executor = QueryExecutor::new(builder.into_database());
    let result = executor.get_callgraph(project_id, "main", 1, "callees").unwrap();
    assert_eq!(result.center.name, "main");
    assert_eq!(result.center.node_type, "method");
    assert_eq!(result.center.qualified_name.as_deref(), Some("App.main"));
    assert_eq!(result.callees.len(), 1);
    assert_eq!(result.callees[0].name, "helper");
    assert_eq!(result.callees[0].node_type, "call");
    assert_eq!((result.callees[0].line, result.callees[0].column), (8, 9));
    assert_eq!(result.callees[0].file, "/tmp/e2e-java/App.java");
    assert!(result.callers.is_empty());

    // The same method under its qualified name.
    let result = executor.get_callgraph(project_id, "App.main", 1, "callees").unwrap();
    assert_eq!(result.center.name, "main");
    assert!(result.callees.iter().any(|c| c.name == "helper"));
    assert!(result.callers.is_empty());

    // At depth zero nothing is followed.
    let result = executor.get_callgraph(project_id, "main", 0, "callees").unwrap();
    assert!(result.callees.is_empty());
    assert!(result.callers.is_empty());
}

#[test]
fn test_nested_call_is_linked_from_its_function() {
    let (db, registry) = setup_test_environment();
    let source = "package app\n\nfunc run() {\n    if ready() {\n        outer(inner())\n    }\n}\n";
    let parser = CodeParser::new(registry);
    let graph = parser.parse_source(source, "go").unwrap();
    let mut builder = GraphBuilder::new(db);
    let project_id = builder.create_or_get_project("nested", "/tmp/nested").unwrap();
    builder.store_file_graph(project_id, "/tmp/nested/run.go", "go", graph).unwrap();
    builder.build_cross_references(project_id).unwrap();

    let executor = QueryExecutor::new(builder.into_database());
    let result = executor.get_callgraph(project_id, "run", 3, "callees").unwrap();
    assert_eq!(result.center.node_type, "function");
    let names: Vec<&str> = result.callees.iter().map(|c| c.name.as_str()).collect();
    assert_eq!(names, vec!["ready", "outer", "inner"]);
    assert!(result.callers.is_empty());
}
