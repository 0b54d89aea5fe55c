//! The command line: options, argument parsing and the closing summary.
use vstd::prelude::*;
use crate::errors::strings_view;
use crate::display::{decimal, write_u64};
use crate::protocols::text_eq;
use crate::checker::TypeError;

verus! {

/// Options of a command-line run.
#[derive(Debug)]
pub struct CliConfig {
    pub paths: Vec<String>,
    pub recursive: bool,
    pub strict: bool,
    pub max_errors: usize,
    pub show_suggestions: bool,
    pub color: bool,
    pub parallel: bool,
}

/// Model of a [`CliConfig`].
pub struct SCliConfig {
    pub paths: Seq<Seq<char>>,
    pub recursive: bool,
    pub strict: bool,
    pub max_errors: usize,
    pub show_suggestions: bool,
    pub color: bool,
    pub parallel: bool,
}

impl View for CliConfig {
    type V = SCliConfig;

    open spec fn view(&self) -> SCliConfig {
        SCliConfig {
            paths: strings_view(self.paths@),
            recursive: self.recursive,
            strict: self.strict,
            max_errors: self.max_errors,
            show_suggestions: self.show_suggestions,
            color: self.color,
            parallel: self.parallel,
        }
    }
}

/// The default options: no paths, recursive, not strict, 100 errors at most, with
/// suggestions, colour and parallelism.
pub open spec fn default_cli() -> SCliConfig {
    SCliConfig {
        paths: Seq::empty(),
        recursive: true,
        strict: false,
        max_errors: 100,
        show_suggestions: true,
        color: true,
        parallel: true,
    }
}

impl Default for CliConfig {
    fn default() -> (r: Self)
        ensures
            r@ == default_cli(),
    {
        let r = CliConfig {
            paths: Vec::new(),
            recursive: true,
            strict: false,
            max_errors: 100,
            show_suggestions: true,
            color: true,
            parallel: true,
        };
        assert(r@.paths =~= Seq::<Seq<char>>::empty());
        r
    }
}

impl Clone for CliConfig {
    fn clone(&self) -> (r: Self)
        ensures
            r@ == self@,
    {
        CliConfig {
            paths: crate::config::clone_strings(&self.paths),
            recursive: self.recursive,
            strict: self.strict,
            max_errors: self.max_errors,
            show_suggestions: self.show_suggestions,
            color: self.color,
            parallel: self.parallel,
        }
    }
}

/// Whether a character is an ASCII digit.
pub open spec fn is_digit(c: char) -> bool {
    '0' <= c <= '9'
}

/// The value of a string of decimal digits.
pub open spec fn digits_value(t: Seq<char>) -> nat
    decreases t.len(),
{
    if t.len() == 0 {
        0
    } else {
        digits_value(t.drop_last()) * 10 + (t.last() as nat - '0' as nat) as nat
    }
}

/// The digits of an unsigned number as Rust reads it: an optional `+`, then one digit or
/// more.
pub open spec fn number_digits(s: Seq<char>) -> Seq<char> {
    if s.len() > 0 && s[0] == '+' {
        s.drop_first()
    } else {
        s
    }
}

/// The `usize` that a string denotes, if it denotes one.
pub open spec fn parse_usize_spec(s: Seq<char>) -> Option<usize> {
    let t = number_digits(s);
    if t.len() == 0 || exists|i: int| 0 <= i < t.len() && !is_digit(#[trigger] t[i]) {
        None
    } else if digits_value(t) > usize::MAX {
        None
    } else {
        Some(digits_value(t) as usize)
    }
}

pub proof fn lemma_digits_value_grows(t: Seq<char>, i: int)
    requires
        0 <= i <= t.len(),
        forall|k: int| 0 <= k < t.len() ==> is_digit(#[trigger] t[k]),
    ensures
        digits_value(t.take(i)) <= digits_value(t),
    decreases t.len() - i,
{
    if i < t.len() {
        lemma_digits_value_grows(t, i + 1);
        assert(t.take(i + 1).drop_last() =~= t.take(i));
    } else {
        assert(t.take(i) =~= t);
    }
}

/// Reads an unsigned number.
pub fn parse_usize(s: &str) -> (r: Option<usize>)
    ensures
        r == parse_usize_spec(s@),
{
    let n = s.unicode_len();
    let mut start: usize = 0;
    if n > 0 && s.get_char(0) == '+' {
        start = 1;
    }
    let ghost t = number_digits(s@);
    assert(t =~= s@.subrange(start as int, n as int));
    if start == n {
        return None;
    }
    let mut i: usize = start;
    while i < n
        invariant
            start <= i <= n,
            n == s@.len(),
            t =~= s@.subrange(start as int, n as int),
            t == number_digits(s@),
            forall|k: int| start <= k < i ==> is_digit(#[trigger] s@[k]),
        decreases n - i,
    {
        let c = s.get_char(i);
        if !('0' <= c && c <= '9') {
            assert(t[i - start] == s@[i as int]);
            assert(!is_digit(t[i - start]));
            return None;
        }
        i += 1;
    }
    assert forall|k: int| 0 <= k < t.len() implies is_digit(#[trigger] t[k]) by {
        assert(t[k] == s@[start + k]);
    }
    let mut v: usize = 0;
    let mut j: usize = start;
    while j < n
        invariant
            start <= j <= n,
            n == s@.len(),
            t =~= s@.subrange(start as int, n as int),
            t == number_digits(s@),
            t.len() > 0,
            forall|k: int| 0 <= k < t.len() ==> is_digit(#[trigger] t[k]),
            v == digits_value(t.take(j - start)),
        decreases n - j,
    {
        let c = s.get_char(j);
        assert(c == t[j - start]);
        let d = (c as u32 - '0' as u32) as usize;
        assert(t.take(j - start + 1).drop_last() =~= t.take(j - start));
        assert(t.take(j - start + 1).last() == c);
        assert(d == c as nat - '0' as nat);
        assert(digits_value(t.take(j - start + 1)) == v * 10 + d);
        match v.checked_mul(10) {
            None => {
                proof {
                    lemma_digits_value_grows(t, j - start + 1);
                    assert(digits_value(t) > usize::MAX);
                }
                return None;
            },
            Some(m) => match m.checked_add(d) {
                None => {
                    proof {
                        lemma_digits_value_grows(t, j - start + 1);
                        assert(digits_value(t) > usize::MAX);
                    }
                    return None;
                },
                Some(w) => {
                    v = w;
                },
            },
        }
        j += 1;
    }
    assert(t.take(n - start) =~= t);
    Some(v)
}

/// The usage text, for the program name given.
pub open spec fn usage_text(program: Seq<char>) -> Seq<char> {
    "Usage: "@ + program
        + " [OPTIONS] <path>...\n\nOptions:\n  --no-recursive  Don't check subdirectories\n  --strict        Enable strict mode\n  --no-color      Disable colored output\n  --max-errors N  Maximum errors to report (default: 100)"@
}

/// Reading the arguments from index `i` on into `c`.
pub open spec fn parse_from(args: Seq<Seq<char>>, i: nat, c: SCliConfig) -> Result<SCliConfig, Seq<char>>
    decreases args.len() - i,
{
    if i >= args.len() {
        if c.paths.len() == 0 {
            Err("No paths specified"@)
        } else {
            Ok(c)
        }
    } else {
        let a = args[i as int];
        if a == "--no-recursive"@ {
            parse_from(args, i + 1, SCliConfig { recursive: false, ..c })
        } else if a == "--strict"@ {
            parse_from(args, i + 1, SCliConfig { strict: true, ..c })
        } else if a == "--no-color"@ {
            parse_from(args, i + 1, SCliConfig { color: false, ..c })
        } else if a == "--no-parallel"@ {
            parse_from(args, i + 1, SCliConfig { parallel: false, ..c })
        } else if a == "--max-errors"@ {
            if i + 1 >= args.len() {
                Err("--max-errors requires an argument"@)
            } else {
                match parse_usize_spec(args[i + 1int]) {
                    Some(n) => parse_from(args, i + 2, SCliConfig { max_errors: n, ..c }),
                    None => Err("Invalid value for --max-errors"@),
                }
            }
        } else if a.len() >= 2 && a[0] == '-' && a[1] == '-' {
            Err("Unknown option: "@ + a)
        } else {
            parse_from(args, i + 1, SCliConfig { paths: c.paths.push(a), ..c })
        }
    }
}

/// The model of `parse_args`: the program name comes first; without another argument
/// the usage text is the error.
pub open spec fn parse_args_spec(args: Seq<Seq<char>>) -> Result<SCliConfig, Seq<char>> {
    if args.len() < 2 {
        Err(usage_text(args[0]))
    } else {
        parse_from(args, 1, default_cli())
    }
}

/// Reads the command-line arguments, the program name first.
pub fn parse_args(args: &[String]) -> (r: Result<CliConfig, String>)
    requires
        args@.len() >= 1,
    ensures
        r is Ok <==> parse_args_spec(strings_view(args@)) is Ok,
        r matches Ok(c) ==> parse_args_spec(strings_view(args@)) == Ok::<SCliConfig, Seq<char>>(c@),
        r matches Err(m) ==> parse_args_spec(strings_view(args@)) == Err::<SCliConfig, Seq<char>>(m@),
{
    let ghost av = strings_view(args@);
    assert(av.len() == args@.len());
    if args.len() < 2 {
        let mut s = String::from_str("Usage: ");
        s.append(args[0].as_str());
        s.append(
            " [OPTIONS] <path>...\n\nOptions:\n  --no-recursive  Don't check subdirectories\n  --strict        Enable strict mode\n  --no-color      Disable colored output\n  --max-errors N  Maximum errors to report (default: 100)",
        );
        return Err(s);
    }
    let mut config = CliConfig::default();
    let mut i: usize = 1;
    while i < args.len()
        invariant
            1 <= i <= args.len() + 1,
            av == strings_view(args@),
            av.len() == args@.len(),
            parse_from(av, i as nat, config@) == parse_from(av, 1, default_cli()),
        decreases args.len() + 1 - i,
    {
        let a = args[i].as_str();
        assert(a@ == av[i as int]);
        if text_eq(a, "--no-recursive") {
            config.recursive = false;
        } else if text_eq(a, "--strict") {
            config.strict = true;
        } else if text_eq(a, "--no-color") {
            config.color = false;
        } else if text_eq(a, "--no-parallel") {
            config.parallel = false;
        } else if text_eq(a, "--max-errors") {
            i += 1;
            if i >= args.len() {
                return Err(String::from_str("--max-errors requires an argument"));
            }
            assert(args[i as int]@ == av[i as int]);
            match parse_usize(args[i].as_str()) {
                Some(n) => {
                    config.max_errors = n;
                },
                None => {
                    return Err(String::from_str("Invalid value for --max-errors"));
                },
            }
        } else if a.unicode_len() >= 2 && a.get_char(0) == '-' && a.get_char(1) == '-' {
            let mut s = String::from_str("Unknown option: ");
            s.append(a);
            return Err(s);
        } else {
            let ghost before = config.paths@;
            config.paths.push(String::from_str(a));
            assert(strings_view(config.paths@) =~= strings_view(before).push(a@));
        }
        i += 1;
    }
    if config.paths.len() == 0 {
        return Err(String::from_str("No paths specified"));
    }
    Ok(config)
}

/// The closing line of a run: success with the number of files, or the numbers of
/// errors and files with their plurals.
pub open spec fn summary_text(file_count: nat, error_count: nat) -> Seq<char> {
    if error_count == 0 {
        "✓ Checked "@ + decimal(file_count) + " files, no errors found"@
    } else {
        "Found "@ + decimal(error_count) + " error"@ + (if error_count == 1 {
            Seq::empty()
        } else {
            "s"@
        }) + " in "@ + decimal(file_count) + " file"@ + (if file_count == 1 {
            Seq::empty()
        } else {
            "s"@
        })
    }
}

/// Runs the checker from the command line.
pub struct Cli {
    config: CliConfig,
}

impl Cli {
    /// The options of the run.
    pub closed spec fn options(&self) -> SCliConfig {
        self.config@
    }

    pub fn new(config: CliConfig) -> (r: Self)
        ensures
            r.options() == config@,
    {
        Cli { config }
    }

    /// The options of the run.
    pub fn config(&self) -> (r: &CliConfig)
        ensures
            r@ == self.options(),
    {
        &self.config
    }

    /// The closing line of a run.
    pub fn summary(&self, file_count: usize, error_count: usize) -> (r: String)
        ensures
            r@ == summary_text(file_count as nat, error_count as nat),
    {
        let mut s = String::new();
        if error_count == 0 {
            s.append("✓ Checked ");
            write_u64(&mut s, file_count as u64);
            s.append(" files, no errors found");
            assert(s@ =~= summary_text(file_count as nat, error_count as nat));
            return s;
        } else {
            s.append("Found ");
            write_u64(&mut s, error_count as u64);
            s.append(" error");
            let ghost p1 = s@;
            if error_count != 1 {
                s.append("s");
            }
            let ghost e_pl: Seq<char> = if error_count == 1 { Seq::empty() } else { "s"@ };
            assert(s@ =~= p1 + e_pl);
            s.append(" in ");
            write_u64(&mut s, file_count as u64);
            s.append(" file");
            let ghost p2 = s@;
            if file_count != 1 {
                s.append("s");
            }
            let ghost f_pl: Seq<char> = if file_count == 1 { Seq::empty() } else { "s"@ };
            assert(s@ =~= p2 + f_pl);
            assert(p1 =~= "Found "@ + decimal(error_count as nat) + " error"@);
            assert(p2 =~= p1 + e_pl + " in "@ + decimal(file_count as nat) + " file"@);
        }
        assert(s@ =~= summary_text(file_count as nat, error_count as nat));
        s
    }

    /// Whether a directory's check stops: the errors found reach the maximum.
    pub fn reached_max_errors(&self, error_count: usize) -> (r: bool)
        ensures
            r == (error_count >= self.options().max_errors),
    {
        error_count >= self.config.max_errors
    }

    /// The exit status of a run: 0 without errors, 1 with.
    pub fn exit_code(&self, error_count: usize) -> (r: i32)
        ensures
            r == (if error_count == 0 {
                0i32
            } else {
                1i32
            }),
    {
        if error_count == 0 {
            0
        } else {
            1
        }
    }
}

/// How a type error of a file is reported: the file's path, a colon, then the error.
pub open spec fn file_error_line(path: Seq<char>, e: TypeError) -> Seq<char> {
    path + ":"@ + ("Line "@ + decimal(e.line as nat) + ", Col "@ + decimal(e.col as nat) + ": "@ + e.message@)
}

/// The report lines for the type errors of a file, in order.
pub fn file_error_lines(path: &str, errors: &[TypeError]) -> (r: Vec<String>)
    ensures
        r@.len() == errors@.len(),
        forall|i: int| 0 <= i < r@.len() ==> (#[trigger] r@[i])@ == file_error_line(path@, errors@[i]),
{
    let mut out: Vec<String> = Vec::new();
    let mut i: usize = 0;
    while i < errors.len()
        invariant
            0 <= i <= errors.len(),
            out@.len() == i,
            forall|j: int| 0 <= j < i ==> (#[trigger] out@[j])@ == file_error_line(path@, errors@[j]),
        decreases errors.len() - i,
    {
        let mut line = String::from_str(path);
        line.append(":");
        let text = errors[i].to_string();
        line.append(text.as_str());
        assert(line@ =~= file_error_line(path@, errors@[i as int]));
        out.push(line);
        i += 1;
    }
    out
}

/// A run needs paths to check: none gives `No paths specified`.
pub fn require_paths(paths: &Vec<String>) -> (r: Result<(), String>)
    ensures
        r is Err <==> paths@.len() == 0,
        r matches Err(m) ==> m@ == "No paths specified"@,
{
    if paths.len() == 0 {
        Err(String::from_str("No paths specified"))
    } else {
        Ok(())
    }
}

/// The error for a path that is neither a file nor a directory.
pub fn path_not_found(path: &str) -> (r: String)
    ensures
        r@ == "Path not found: "@ + path@,
{
    let mut s = String::from_str("Path not found: ");
    s.append(path);
    s
}

} // verus!
