use std::sync::Arc;

use codegraph::engine::registry::LanguageRegistry;
use codegraph::languages::go::GoLanguage;
use codegraph::languages::java::JavaLanguage;
use codegraph::languages::{BuiltinLanguage, LanguageSupport};

fn java() -> Arc<BuiltinLanguage> {
    Arc::new(BuiltinLanguage::Java(JavaLanguage::new()))
}

fn go() -> Arc<BuiltinLanguage> {
    Arc::new(BuiltinLanguage::Go(GoLanguage::new()))
}

#[test]
fn test_empty_registry() {
    let registry: LanguageRegistry<BuiltinLanguage> = LanguageRegistry::empty();
    assert!(registry.language_ids().is_empty());
}

#[test]
fn test_register_language() {
    let mut registry = LanguageRegistry::empty();
    registry.register(Arc::new(JavaLanguage::new()));

    let ids = registry.language_ids();
    assert_eq!(ids.len(), 1);
    assert!(ids.contains(&"java"));
}

#[test]
fn test_register_multiple_languages() {
    let mut registry = LanguageRegistry::empty();
    registry.register(java());
    registry.register(go());

    let ids = registry.language_ids();
    assert_eq!(ids.len(), 2);
    assert!(ids.contains(&"java"));
    assert!(ids.contains(&"go"));
}

#[test]
fn test_get_by_id() {
    let mut registry = LanguageRegistry::empty();
    registry.register(Arc::new(JavaLanguage::new()));

    let lang = registry.get("java");
    assert!(lang.is_some());
    assert_eq!(lang.unwrap().language_id(), "java");
}

#[test]
fn test_get_by_id_not_found() {
    let registry: LanguageRegistry<BuiltinLanguage> = LanguageRegistry::empty();
    let lang = registry.get("python");
    assert!(lang.is_none());
}

#[test]
fn test_get_by_extension_with_dot() {
    let mut registry = LanguageRegistry::empty();
    registry.register(Arc::new(JavaLanguage::new()));

    let lang = registry.get_by_extension(".java");
    assert!(lang.is_some());
    assert_eq!(lang.unwrap().language_id(), "java");
}

#[test]
fn test_get_by_extension_without_dot() {
    let mut registry = LanguageRegistry::empty();
    registry.register(Arc::new(GoLanguage::new()));

    let lang = registry.get_by_extension("go");
    assert!(lang.is_some());
    assert_eq!(lang.unwrap().language_id(), "go");
}

#[test]
fn test_get_by_extension_not_found() {
    let mut registry = LanguageRegistry::empty();
    registry.register(Arc::new(JavaLanguage::new()));

    let lang = registry.get_by_extension(".py");
    assert!(lang.is_none());
}

#[test]
fn test_is_supported() {
    let mut registry = LanguageRegistry::empty();
    registry.register(Arc::new(JavaLanguage::new()));

    assert!(registry.is_supported(".java"));
    assert!(registry.is_supported("java"));
    assert!(!registry.is_supported(".py"));
    assert!(!registry.is_supported("python"));
}

#[test]
fn test_list_languages() {
    let mut registry = LanguageRegistry::empty();
    registry.register(java());
    registry.register(go());

    let languages = registry.list_languages();
    assert_eq!(languages.len(), 2);
}

#[test]
fn test_extension_map() {
    let mut registry = LanguageRegistry::empty();
    registry.register(Arc::new(JavaLanguage::new()));

    // Verify extension mapping works
    assert!(registry.is_supported(".java"));
    assert_eq!(registry.get_by_extension(".java").map(|l| l.language_id()), Some("java"));
}

#[test]
fn test_language_extensions() {
    let java = JavaLanguage::new();
    assert!(java.file_extensions().contains(&".java"));

    let go = GoLanguage::new();
    assert!(go.file_extensions().contains(&".go"));
}

#[test]
fn test_language_grammar() {
    let java = JavaLanguage::new();
    let _grammar = java.grammar();
    // Grammar should be valid (no panic)

    let go = GoLanguage::new();
    let _grammar = go.grammar();
    // Grammar should be valid (no panic)
}

#[test]
fn test_register_twice_replaces_in_place() {
    let mut registry = LanguageRegistry::empty();
    registry.register(java());
    registry.register(go());
    registry.register(java());
    assert_eq!(registry.language_ids(), vec!["java", "go"]);
    assert_eq!(registry.list_languages().len(), 2);
    assert_eq!(registry.get_by_extension("go").map(|l| l.language_id()), Some("go"));
    assert!(registry.get_by_extension("").is_none());
    assert!(registry.get_by_extension(".").is_none());
    assert!(registry.get_by_extension("..go").is_none());
}

#[test]
fn test_builtin_registry_lists_java_then_go() {
    let registry = codegraph::LanguageRegistry::new();
    let ids: Vec<&str> = registry.list_languages().iter().map(|l| l.language_id()).collect();
    assert_eq!(ids, vec!["java", "go"]);
    assert_eq!(registry.get("go").map(|l| l.language_id()), Some("go"));
    assert!(registry.get("rust").is_none());
    assert_eq!(registry.get_by_extension("java").map(|l| l.language_id()), Some("java"));
    assert_eq!(registry.get_by_extension(".go").map(|l| l.language_id()), Some("go"));
    assert!(registry.get_by_extension("txt").is_none());
    let default = codegraph::LanguageRegistry::default();
    assert_eq!(default.list_languages().len(), 2);
}
