use typthon::cache::{CacheEntry, CachedError};
use typthon::context::TypeContext;
use typthon::errors::ErrorKind;
use typthon::incremental::{ContentHash, ModuleId};
use typthon::parallel::{analyze_parsed, analyze_task, cached_result, task_cache_key, AnalysisTask};
use typthon::pyast::{Expr, Module, Stmt};

fn task(content: &str) -> AnalysisTask {
    AnalysisTask { id: ModuleId(7), path: "m.py".to_string(), content: content.to_string() }
}

#[test]
fn cache_key_is_module_and_digest() {
    let key = task_cache_key(&task("x = 1"));
    assert_eq!(key.module, ModuleId(7));
    assert_eq!(key.hash, ContentHash::from_str("x = 1"));
}

#[test]
fn unparsed_text_is_one_error() {
    let r = analyze_parsed(&task("x ="), TypeContext::new(), Err("bad".to_string()), 3);
    assert_eq!(r.id, ModuleId(7));
    assert_eq!(r.duration_ms, 3);
    assert_eq!(r.errors.len(), 1);
    match &r.errors[0].kind {
        ErrorKind::TypeMismatch { expected, found } => {
            assert_eq!(expected, "");
            assert_eq!(found, "parse error: bad");
        },
        _ => panic!("expected a mismatch"),
    }
}

#[test]
fn checked_errors_are_reported() {
    let module = Module {
        body: vec![
            Stmt::Assign { targets: vec![Expr::Name("s".to_string())], value: Expr::Constant(typthon::pyast::Constant::Str("a".to_string())) },
            Stmt::Expr(Expr::Attribute(Box::new(Expr::Name("s".to_string())), "nope".to_string())),
        ],
    };
    let r = analyze_parsed(&task("..."), TypeContext::new(), Ok(module), 0);
    assert_eq!(r.errors.len(), 1);
    match &r.errors[0].kind {
        ErrorKind::TypeMismatch { found, .. } => assert!(found.starts_with("Type 'str' has no attribute 'nope'")),
        _ => panic!("expected a mismatch"),
    }
    let ok = analyze_parsed(&task(""), TypeContext::new(), Ok(Module { body: vec![] }), 0);
    assert!(ok.errors.is_empty());
}

#[test]
fn cached_errors_are_reported_again() {
    let entry = CacheEntry {
        module: ModuleId(7),
        hash: ContentHash::from_str("x"),
        types: vec![],
        errors: vec![CachedError { message: "boom".to_string(), line: 2, col: 3, file: "m.py".to_string() }],
        timestamp: 0,
        size_bytes: 1,
    };
    let r = cached_result(&task("x"), &entry, 5);
    assert_eq!(r.errors.len(), 1);
    assert_eq!(r.errors[0].file, "m.py");
    assert_eq!(r.errors[0].location.line, 2);
    assert_eq!(r.errors[0].location.end_col, 3);
}

#[test]
fn analyzing_source_parses_and_checks_it() {
    let r = analyze_task(&task("s = 'a'\ns.nope\n"), TypeContext::new(), None, 5);
    assert_eq!(r.duration_ms, 5);
    assert_eq!(r.errors.len(), 1);
    match &r.errors[0].kind {
        ErrorKind::TypeMismatch { found, .. } => assert!(found.starts_with("Type 'str' has no attribute 'nope'")),
        _ => panic!("expected a mismatch"),
    }
    let bad = analyze_task(&task("x = ("), TypeContext::new(), None, 0);
    assert_eq!(bad.errors.len(), 1);
    match &bad.errors[0].kind {
        ErrorKind::TypeMismatch { found, .. } => assert!(found.starts_with("parse error: Parse error: ")),
        _ => panic!("expected a mismatch"),
    }
}

#[test]
fn analyzing_a_cached_task_reports_the_cache() {
    let entry = CacheEntry {
        module: ModuleId(7),
        hash: ContentHash::from_str("x = ("),
        types: vec![],
        errors: vec![],
        timestamp: 0,
        size_bytes: 5,
    };
    let r = analyze_task(&task("x = ("), TypeContext::new(), Some(&entry), 1);
    assert!(r.errors.is_empty());
}
