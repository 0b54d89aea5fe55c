use typthon::cli::{parse_args, parse_usize, Cli, CliConfig};

fn args(v: &[&str]) -> Vec<String> {
    v.iter().map(|s| s.to_string()).collect()
}

#[test]
fn parsing_arguments() {
    let c = parse_args(&args(&["typthon", "--strict", "--no-color", "--max-errors", "7", "a.py", "src"])).unwrap();
    assert!(c.strict);
    assert!(!c.color);
    assert!(c.recursive);
    assert!(c.parallel);
    assert_eq!(c.max_errors, 7);
    assert_eq!(c.paths, vec!["a.py".to_string(), "src".to_string()]);
}

#[test]
fn argument_errors() {
    let usage = parse_args(&args(&["typthon"])).unwrap_err();
    assert!(usage.starts_with("Usage: typthon [OPTIONS] <path>..."));
    assert!(usage.ends_with("--max-errors N  Maximum errors to report (default: 100)"));
    assert_eq!(parse_args(&args(&["t", "--max-errors"])).unwrap_err(), "--max-errors requires an argument");
    assert_eq!(parse_args(&args(&["t", "--max-errors", "x"])).unwrap_err(), "Invalid value for --max-errors");
    assert_eq!(parse_args(&args(&["t", "--bogus"])).unwrap_err(), "Unknown option: --bogus");
    assert_eq!(parse_args(&args(&["t", "--no-recursive"])).unwrap_err(), "No paths specified");
}

#[test]
fn reading_numbers() {
    assert_eq!(parse_usize("42"), Some(42));
    assert_eq!(parse_usize("+5"), Some(5));
    assert_eq!(parse_usize(""), None);
    assert_eq!(parse_usize("+"), None);
    assert_eq!(parse_usize("-1"), None);
    assert_eq!(parse_usize("1a"), None);
    assert_eq!(parse_usize("99999999999999999999999"), None);
}

#[test]
fn summaries() {
    let cli = Cli::new(CliConfig::default());
    assert_eq!(cli.summary(3, 0), "✓ Checked 3 files, no errors found");
    assert_eq!(cli.summary(1, 1), "Found 1 error in 1 file");
    assert_eq!(cli.summary(2, 5), "Found 5 errors in 2 files");
    assert_eq!(cli.exit_code(0), 0);
    assert_eq!(cli.exit_code(3), 1);
    assert_eq!(cli.config().max_errors, 100);
}

#[test]
fn file_errors_are_prefixed_with_the_path() {
    let errors = vec![typthon::checker::TypeError { message: "bad".to_string(), line: 3, col: 4 }];
    let lines = typthon::cli::file_error_lines("m.py", &errors);
    assert_eq!(lines, vec!["m.py:Line 3, Col 4: bad".to_string()]);
}

#[test]
fn directory_checks_stop_at_the_maximum() {
    let mut config = CliConfig::default();
    config.max_errors = 2;
    let cli = Cli::new(config);
    assert!(!cli.reached_max_errors(1));
    assert!(cli.reached_max_errors(2));
    assert!(cli.reached_max_errors(5));
}
