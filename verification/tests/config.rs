use typthon::config::{CheckConfig, Config, InferConfig, OverrideConfig};
use typthon::glob::matches_glob;

#[test]
fn test_default_config() {
    let config = Config::default();
    assert!(config.check.enabled);
    assert!(!config.check.strict);
}

#[test]
fn test_should_check() {
    let config = Config::default();
    assert!(config.should_check("src/main.py"));
    assert!(!config.should_check("venv/lib/python3.11/site.py"));
}

#[test]
fn glob_patterns() {
    assert!(matches_glob("a/b/c.py", "**/*.py"));
    assert!(matches_glob("c.py", "**/*.py"));
    assert!(!matches_glob("a/b/c.pyc", "**/*.py"));
    assert!(matches_glob("x/node_modules/y/z.js", "**/node_modules/**"));
    assert!(!matches_glob("a/b.py", "*.py"));
    assert!(matches_glob("b.py", "*.py"));
    assert!(matches_glob("src/tests/x.py", "tests"));
    assert!(!matches_glob("src/x.py", "tests"));
}

#[test]
fn excluded_paths_and_empty_includes() {
    let mut config = Config::default();
    assert!(!config.should_check("a/__pycache__/m.py"));
    assert!(!config.should_check("notes.txt"));
    config.paths.includes.clear();
    assert!(config.should_check("notes.txt"));
    assert!(!config.should_check("a/.venv/m.py"));
}

#[test]
fn overrides_apply_in_order() {
    let mut config = Config::default();
    let strict = CheckConfig { strict: true, ..CheckConfig::default() };
    let lax = CheckConfig { enabled: false, ..CheckConfig::default() };
    let aggressive = InferConfig { aggressive: true, ..InferConfig::default() };
    config.overrides.push(("tests".to_string(), OverrideConfig { check: Some(strict), infer: None }));
    config.overrides.push(("**/legacy/**".to_string(), OverrideConfig { check: Some(lax), infer: Some(aggressive) }));

    let plain = config.for_file("src/a.py");
    assert_eq!(plain.check, CheckConfig::default());
    assert_eq!(plain.infer, InferConfig::default());

    let t = config.for_file("tests/a.py");
    assert!(t.check.strict);
    assert!(t.check.enabled);

    let both = config.for_file("tests/legacy/a.py");
    assert!(!both.check.enabled);
    assert!(!both.check.strict);
    assert!(both.infer.aggressive);
    assert_eq!(both.errors.max_errors, 100);
}
