use typthon::cache::CacheKey;
use typthon::hex::encode;
use typthon::incremental::{ContentHash, DependencyGraph, IncrementalEngine, ModuleId, ModuleMetadata};
use typthon::query;

#[test]
fn test_content_hash() {
    let content1 = "def foo(): pass";
    let content2 = "def foo(): pass";
    let content3 = "def bar(): pass";

    let hash1 = ContentHash::from_str(content1);
    let hash2 = ContentHash::from_str(content2);
    let hash3 = ContentHash::from_str(content3);

    assert_eq!(hash1, hash2);
    assert_ne!(hash1, hash3);
}

#[test]
fn content_hash_is_blake3() {
    let h = ContentHash::from_str("");
    assert_eq!(
        encode(h.as_bytes()),
        "af1349b9f5f9a1a6a0404dea36dcc9499bcb25c9adc112b7cc9a93cae41f3262"
    );
    assert_eq!(ContentHash::from_content(b"abc"), ContentHash::from_str("abc"));
}

#[test]
fn module_ids_from_paths() {
    let a = ModuleId::from_path("a.py");
    assert_eq!(a, ModuleId::from_path("a.py"));
    assert_ne!(a, ModuleId::from_path("b.py"));
    let empty = ModuleId::from_path("");
    assert_eq!(empty.as_u64(), 0xa6a1f9f5b94913af);
    assert_eq!(empty.as_str(), "a6a1f9f5b94913af");
    assert_eq!(ModuleId(255).as_str(), "00000000000000ff");
}

#[test]
fn cache_file_names() {
    let key = CacheKey::new(ModuleId(1), ContentHash::from_str(""));
    assert_eq!(key.filename(), "0000000000000001_af1349b9f5f9a1a6a0404dea36dcc949.cache");
}

#[test]
fn hex_encoding() {
    assert_eq!(encode(&[0, 1, 15, 16, 255]), "00010f10ff");
    assert_eq!(encode(&[]), "");
}

#[test]
fn query_module_ids() {
    assert_eq!(query::ModuleId::new(7).as_u64(), 7);
}

fn meta(id: ModuleId, path: &str, content: &str, imports: Vec<ModuleId>) -> ModuleMetadata {
    ModuleMetadata { id, path: path.to_string(), hash: ContentHash::from_str(content), timestamp: 0, imports }
}

fn chain() -> DependencyGraph {
    let mut graph = DependencyGraph::new();
    graph.add_module(meta(ModuleId(1), "a.py", "a", vec![]));
    graph.add_module(meta(ModuleId(2), "b.py", "b", vec![ModuleId(1)]));
    graph.add_module(meta(ModuleId(3), "c.py", "c", vec![ModuleId(2)]));
    graph
}

#[test]
fn test_dependency_graph() {
    let graph = chain();
    let (id_a, id_b, id_c) = (ModuleId(1), ModuleId(2), ModuleId(3));
    let invalid = graph.invalidate(&[id_a]);
    assert_eq!(invalid.len(), 3);
    assert!(invalid.contains(&id_a));
    assert!(invalid.contains(&id_b));
    assert!(invalid.contains(&id_c));
}

#[test]
fn test_dependency_layers() {
    let graph = chain();
    let layers = graph.dependency_layers();
    assert_eq!(layers.len(), 3);
    assert_eq!(layers[0], vec![ModuleId(1)]);
    assert_eq!(layers[1], vec![ModuleId(2)]);
    assert_eq!(layers[2], vec![ModuleId(3)]);
}

#[test]
fn invalidating_a_leaf_touches_only_it() {
    let graph = chain();
    assert_eq!(graph.invalidate(&[ModuleId(3)]), vec![ModuleId(3)]);
    let mid = graph.invalidate(&[ModuleId(2), ModuleId(2)]);
    assert_eq!(mid.len(), 2);
    assert!(mid.contains(&ModuleId(2)) && mid.contains(&ModuleId(3)));
    assert!(graph.invalidate(&[]).is_empty());
}

#[test]
fn modules_with_a_missing_import_get_no_layer() {
    let mut graph = chain();
    graph.add_module(meta(ModuleId(4), "d.py", "d", vec![ModuleId(9)]));
    let layers = graph.dependency_layers();
    assert_eq!(layers.len(), 3);
    assert!(layers.iter().all(|l| !l.contains(&ModuleId(4))));
}

#[test]
fn changes_are_found_by_digest() {
    let mut graph = chain();
    assert!(!graph.has_changed(ModuleId(1), ContentHash::from_str("a")));
    assert!(graph.has_changed(ModuleId(1), ContentHash::from_str("a2")));
    assert!(graph.has_changed(ModuleId(7), ContentHash::from_str("a")));
    graph.update_hash(ModuleId(1), ContentHash::from_str("a2"));
    assert!(!graph.has_changed(ModuleId(1), ContentHash::from_str("a2")));
    assert_eq!(graph.get_metadata(ModuleId(2)).unwrap().imports, vec![ModuleId(1)]);
    assert!(graph.get_metadata(ModuleId(8)).is_none());
}

#[test]
fn engine_tracks_changes_through_imports() {
    let mut engine = IncrementalEngine::new(DependencyGraph::new());
    engine.register_module("a.py".to_string(), "x = 1", vec![], 0);
    engine.register_module("b.py".to_string(), "import a", vec!["a.py".to_string()], 0);
    let a = ModuleId::from_path("a.py");
    let b = ModuleId::from_path("b.py");
    assert!(engine.get_invalid_modules().is_empty());
    engine.mark_changed(a);
    let invalid = engine.get_invalid_modules();
    assert_eq!(invalid.len(), 2);
    assert!(invalid.contains(&a) && invalid.contains(&b));
    engine.clear_changed();
    assert!(engine.get_invalid_modules().is_empty());
    engine.set_enabled(false);
    assert_eq!(engine.get_invalid_modules().len(), 2);
    assert!(engine.needs_recheck("a.py", Some("x = 1")));
    engine.set_enabled(true);
    assert!(!engine.needs_recheck("a.py", Some("x = 1")));
    assert!(engine.needs_recheck("a.py", Some("x = 2")));
    assert!(engine.needs_recheck("a.py", None));
    let layers = engine.get_layers();
    assert_eq!(layers, vec![vec![a], vec![b]]);
}
