//! Checker configuration: options, path selection and per-path overrides.
use vstd::prelude::*;
use crate::errors::strings_view;
use crate::glob::{matches_glob, path_matches};

verus! {

/// Options of the checker.
#[derive(Debug, Clone, Copy, PartialEq, Eq, Structural)]
pub struct CheckConfig {
    pub enabled: bool,
    pub strict: bool,
    pub allow_untyped_defs: bool,
    pub allow_any: bool,
    pub check_variance: bool,
    pub check_generics: bool,
    pub warn_redundant_casts: bool,
    pub warn_unused_ignores: bool,
}

/// Options of inference.
#[derive(Debug, Clone, Copy, PartialEq, Eq, Structural)]
pub struct InferConfig {
    pub enabled: bool,
    pub aggressive: bool,
    pub use_annotations: bool,
    pub max_iterations: Option<usize>,
}

/// How errors are printed.
#[derive(Debug, Clone, Copy, PartialEq, Eq, Structural)]
pub enum ErrorFormat {
    Default,
    Json,
    Compact,
    Verbose,
}

/// Options of error reporting.
#[derive(Debug, Clone, Copy, PartialEq, Eq, Structural)]
pub struct ErrorConfig {
    pub max_errors: usize,
    pub show_suggestions: bool,
    pub show_error_codes: bool,
    pub color: bool,
    pub format: ErrorFormat,
}

/// Which paths are checked.
#[derive(Debug)]
pub struct PathsConfig {
    pub includes: Vec<String>,
    pub exclude: Vec<String>,
    pub follow_imports: bool,
    pub python_path: Vec<String>,
}

/// Options that replace the general ones for the paths matching a pattern.
#[derive(Debug, Clone, Copy, PartialEq, Eq, Structural)]
pub struct OverrideConfig {
    pub check: Option<CheckConfig>,
    pub infer: Option<InferConfig>,
}

/// The whole configuration.
#[derive(Debug)]
pub struct Config {
    pub check: CheckConfig,
    pub infer: InferConfig,
    pub errors: ErrorConfig,
    pub paths: PathsConfig,
    pub plugins: Vec<String>,
    pub overrides: Vec<(String, OverrideConfig)>,
}

/// The model of the overrides: patterns and their options, in order.
pub open spec fn overrides_view(v: Seq<(String, OverrideConfig)>) -> Seq<(Seq<char>, OverrideConfig)> {
    v.map_values(|e: (String, OverrideConfig)| (e.0@, e.1))
}

/// The default checker options.
pub open spec fn default_check() -> CheckConfig {
    CheckConfig {
        enabled: true,
        strict: false,
        allow_untyped_defs: false,
        allow_any: false,
        check_variance: true,
        check_generics: true,
        warn_redundant_casts: false,
        warn_unused_ignores: false,
    }
}

/// The default inference options.
pub open spec fn default_infer() -> InferConfig {
    InferConfig { enabled: true, aggressive: false, use_annotations: true, max_iterations: None }
}

/// The default error options.
pub open spec fn default_errors() -> ErrorConfig {
    ErrorConfig {
        max_errors: 100,
        show_suggestions: true,
        show_error_codes: true,
        color: true,
        format: ErrorFormat::Default,
    }
}

/// The default included patterns.
pub open spec fn default_includes() -> Seq<Seq<char>> {
    seq!["**/*.py"@]
}

/// The default excluded patterns.
pub open spec fn default_exclude() -> Seq<Seq<char>> {
    seq!["**/node_modules/**"@, "**/__pycache__/**"@, "**/venv/**"@, "**/.venv/**"@]
}

impl Default for CheckConfig {
    fn default() -> (r: Self)
        ensures
            r == default_check(),
    {
        CheckConfig {
            enabled: true,
            strict: false,
            allow_untyped_defs: false,
            allow_any: false,
            check_variance: true,
            check_generics: true,
            warn_redundant_casts: false,
            warn_unused_ignores: false,
        }
    }
}

impl Default for InferConfig {
    fn default() -> (r: Self)
        ensures
            r == default_infer(),
    {
        InferConfig { enabled: true, aggressive: false, use_annotations: true, max_iterations: None }
    }
}

impl Default for ErrorFormat {
    fn default() -> (r: Self)
        ensures
            r == ErrorFormat::Default,
    {
        ErrorFormat::Default
    }
}

impl Default for ErrorConfig {
    fn default() -> (r: Self)
        ensures
            r == default_errors(),
    {
        ErrorConfig {
            max_errors: 100,
            show_suggestions: true,
            show_error_codes: true,
            color: true,
            format: ErrorFormat::Default,
        }
    }
}

impl Default for PathsConfig {
    fn default() -> (r: Self)
        ensures
            strings_view(r.includes@) == default_includes(),
            strings_view(r.exclude@) == default_exclude(),
            r.follow_imports,
            r.python_path@.len() == 0,
    {
        let mut includes: Vec<String> = Vec::new();
        includes.push(String::from_str("**/*.py"));
        let mut exclude: Vec<String> = Vec::new();
        exclude.push(String::from_str("**/node_modules/**"));
        exclude.push(String::from_str("**/__pycache__/**"));
        exclude.push(String::from_str("**/venv/**"));
        exclude.push(String::from_str("**/.venv/**"));
        assert(strings_view(includes@) =~= default_includes());
        assert(strings_view(exclude@) =~= default_exclude());
        PathsConfig { includes, exclude, follow_imports: true, python_path: Vec::new() }
    }
}

impl Default for Config {
    fn default() -> (r: Self)
        ensures
            r.check == default_check(),
            r.infer == default_infer(),
            r.errors == default_errors(),
            strings_view(r.paths.includes@) == default_includes(),
            strings_view(r.paths.exclude@) == default_exclude(),
            r.paths.follow_imports,
            r.paths.python_path@.len() == 0,
            r.plugins@.len() == 0,
            r.overrides@.len() == 0,
    {
        Config {
            check: CheckConfig::default(),
            infer: InferConfig::default(),
            errors: ErrorConfig::default(),
            paths: PathsConfig::default(),
            plugins: Vec::new(),
            overrides: Vec::new(),
        }
    }
}

/// Copies a list of strings.
pub fn clone_strings(v: &Vec<String>) -> (r: Vec<String>)
    ensures
        strings_view(r@) == strings_view(v@),
{
    let mut r: Vec<String> = Vec::new();
    let mut i: usize = 0;
    while i < v.len()
        invariant
            0 <= i <= v.len(),
            strings_view(r@) == strings_view(v@.take(i as int)),
        decreases v.len() - i,
    {
        let ghost before = r@;
        r.push(v[i].clone());
        assert(v@.take(i + 1) =~= v@.take(i as int).push(v@[i as int]));
        assert(strings_view(r@) =~= strings_view(before).push(v@[i as int]@));
        assert(strings_view(r@) =~= strings_view(v@.take(i + 1)));
        i += 1;
    }
    assert(v@.take(v.len() as int) =~= v@);
    r
}

impl Clone for PathsConfig {
    fn clone(&self) -> (r: Self)
        ensures
            strings_view(r.includes@) == strings_view(self.includes@),
            strings_view(r.exclude@) == strings_view(self.exclude@),
            r.follow_imports == self.follow_imports,
            strings_view(r.python_path@) == strings_view(self.python_path@),
    {
        PathsConfig {
            includes: clone_strings(&self.includes),
            exclude: clone_strings(&self.exclude),
            follow_imports: self.follow_imports,
            python_path: clone_strings(&self.python_path),
        }
    }
}

impl Clone for Config {
    fn clone(&self) -> (r: Self)
        ensures
            r.check == self.check,
            r.infer == self.infer,
            r.errors == self.errors,
            strings_view(r.paths.includes@) == strings_view(self.paths.includes@),
            strings_view(r.paths.exclude@) == strings_view(self.paths.exclude@),
            r.paths.follow_imports == self.paths.follow_imports,
            strings_view(r.paths.python_path@) == strings_view(self.paths.python_path@),
            strings_view(r.plugins@) == strings_view(self.plugins@),
            overrides_view(r.overrides@) == overrides_view(self.overrides@),
    {
        let mut overrides: Vec<(String, OverrideConfig)> = Vec::new();
        let mut i: usize = 0;
        while i < self.overrides.len()
            invariant
                0 <= i <= self.overrides.len(),
                overrides_view(overrides@) == overrides_view(self.overrides@.take(i as int)),
            decreases self.overrides.len() - i,
        {
            let ghost before = overrides@;
            overrides.push((self.overrides[i].0.clone(), self.overrides[i].1));
            assert(self.overrides@.take(i + 1) =~= self.overrides@.take(i as int).push(self.overrides@[i as int]));
            assert(overrides_view(overrides@) =~= overrides_view(before).push((self.overrides@[i as int].0@, self.overrides@[i as int].1)));
            assert(overrides_view(overrides@) =~= overrides_view(self.overrides@.take(i + 1)));
            i += 1;
        }
        assert(self.overrides@.take(self.overrides.len() as int) =~= self.overrides@);
        Config {
            check: self.check,
            infer: self.infer,
            errors: self.errors,
            paths: self.paths.clone(),
            plugins: clone_strings(&self.plugins),
            overrides,
        }
    }
}

/// The checker and inference options for a path: each override whose pattern matches the
/// path replaces the options it gives, in order.
pub open spec fn apply_overrides(
    ovs: Seq<(Seq<char>, OverrideConfig)>,
    path: Seq<char>,
    check: CheckConfig,
    infer: InferConfig,
) -> (CheckConfig, InferConfig)
    decreases ovs.len(),
{
    if ovs.len() == 0 {
        (check, infer)
    } else {
        let (c, i) = apply_overrides(ovs.drop_last(), path, check, infer);
        let o = ovs.last();
        if path_matches(path, o.0) {
            (
                match o.1.check {
                    Some(x) => x,
                    None => c,
                },
                match o.1.infer {
                    Some(x) => x,
                    None => i,
                },
            )
        } else {
            (c, i)
        }
    }
}

/// Whether some pattern of a list matches a path.
pub open spec fn any_matches(patterns: Seq<Seq<char>>, path: Seq<char>) -> bool {
    exists|i: int| 0 <= i < patterns.len() && path_matches(path, #[trigger] patterns[i])
}

fn any_matches_exec(patterns: &Vec<String>, path: &str) -> (r: bool)
    ensures
        r == any_matches(strings_view(patterns@), path@),
{
    let ghost pv = strings_view(patterns@);
    let mut i: usize = 0;
    while i < patterns.len()
        invariant
            0 <= i <= patterns.len(),
            pv == strings_view(patterns@),
            forall|j: int| 0 <= j < i ==> !path_matches(path@, #[trigger] pv[j]),
        decreases patterns.len() - i,
    {
        if matches_glob(path, patterns[i].as_str()) {
            assert(path_matches(path@, pv[i as int]));
            return true;
        }
        i += 1;
    }
    false
}

impl Config {
    /// The configuration for a path: the overrides whose patterns match it applied in
    /// order, everything else as it is.
    #[verifier::rlimit(40)]
    pub fn for_file(&self, path: &str) -> (r: Config)
        ensures
            (r.check, r.infer) == apply_overrides(
                overrides_view(self.overrides@),
                path@,
                self.check,
                self.infer,
            ),
            r.errors == self.errors,
            strings_view(r.paths.includes@) == strings_view(self.paths.includes@),
            strings_view(r.paths.exclude@) == strings_view(self.paths.exclude@),
            r.paths.follow_imports == self.paths.follow_imports,
            strings_view(r.paths.python_path@) == strings_view(self.paths.python_path@),
            strings_view(r.plugins@) == strings_view(self.plugins@),
            overrides_view(r.overrides@) == overrides_view(self.overrides@),
    {
        let mut config = self.clone();
        let ghost ov = overrides_view(self.overrides@);
        let mut i: usize = 0;
        while i < self.overrides.len()
            invariant
                0 <= i <= self.overrides.len(),
                ov == overrides_view(self.overrides@),
                (config.check, config.infer) == apply_overrides(
                    ov.take(i as int),
                    path@,
                    self.check,
                    self.infer,
                ),
                config.errors == self.errors,
                strings_view(config.paths.includes@) == strings_view(self.paths.includes@),
                strings_view(config.paths.exclude@) == strings_view(self.paths.exclude@),
                config.paths.follow_imports == self.paths.follow_imports,
                strings_view(config.paths.python_path@) == strings_view(self.paths.python_path@),
                strings_view(config.plugins@) == strings_view(self.plugins@),
                overrides_view(config.overrides@) == ov,
            decreases self.overrides.len() - i,
        {
            let ghost t1 = ov.take(i + 1);
            assert(t1.drop_last() =~= ov.take(i as int));
            assert(t1.last() == ov[i as int]);
            assert(ov[i as int] == (self.overrides@[i as int].0@, self.overrides@[i as int].1));
            let o = self.overrides[i].1;
            let m = matches_glob(path, self.overrides[i].0.as_str());
            if m {
                if let Some(check) = o.check {
                    config.check = check;
                }
                if let Some(infer) = o.infer {
                    config.infer = infer;
                }
            }
            assert((config.check, config.infer) == apply_overrides(t1, path@, self.check, self.infer));
            i += 1;
        }
        assert(ov.take(self.overrides.len() as int) =~= ov);
        config
    }

    /// Whether a path is checked: it must match no excluded pattern, and match an
    /// included pattern unless none is given.
    pub fn should_check(&self, path: &str) -> (r: bool)
        ensures
            r == (!any_matches(strings_view(self.paths.exclude@), path@) && (self.paths.includes@.len()
                == 0 || any_matches(strings_view(self.paths.includes@), path@))),
    {
        if any_matches_exec(&self.paths.exclude, path) {
            return false;
        }
        if self.paths.includes.len() == 0 {
            return true;
        }
        any_matches_exec(&self.paths.includes, path)
    }
}

} // verus!
