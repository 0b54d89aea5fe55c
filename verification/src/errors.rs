//! Type errors, their collection, and "did you mean" suggestions.
use vstd::prelude::*;
use crate::types::{Type, SType};
use crate::display::{type_str, decimal, join, write_u64, push_char, lemma_join_push};
use crate::subtype::subtype;

verus! {

/// A span in a source file.
#[derive(Debug, Clone, Copy, PartialEq, Eq, Structural)]
pub struct SourceLocation {
    pub line: usize,
    pub col: usize,
    pub end_line: usize,
    pub end_col: usize,
}

impl SourceLocation {
    pub fn new(line: usize, col: usize, end_line: usize, end_col: usize) -> (r: Self)
        ensures
            r == (SourceLocation { line, col, end_line, end_col }),
    {
        SourceLocation { line, col, end_line, end_col }
    }

    /// The span from a start `(line, col)` to an end `(line, col)`.
    pub fn from_range(start: (usize, usize), end: (usize, usize)) -> (r: Self)
        ensures
            r == (SourceLocation { line: start.0, col: start.1, end_line: end.0, end_col: end.1 }),
    {
        Self::new(start.0, start.1, end.0, end.1)
    }
}

/// What went wrong.
#[derive(Debug)]
pub enum ErrorKind {
    TypeMismatch { expected: String, found: String },
    UndefinedVariable { name: String },
    UndefinedFunction { name: String },
    InvalidArgCount { expected: usize, found: usize },
    InvalidArgType { param: String, expected: String, found: String },
    InvalidReturnType { expected: String, found: String },
    NonCallable { ty: String },
    InvalidSubscript { container: String, key: String },
    InvalidAttribute { ty: String, attr: String },
    CircularDependency { chain: Vec<String> },
    ConstraintViolation { constraint: String, value: String },
    VarianceError { context: String },
    InfiniteType { var: String, ty: String },
}

/// Model of an [`ErrorKind`].
pub enum SErrorKind {
    TypeMismatch(Seq<char>, Seq<char>),
    UndefinedVariable(Seq<char>),
    UndefinedFunction(Seq<char>),
    InvalidArgCount(usize, usize),
    InvalidArgType(Seq<char>, Seq<char>, Seq<char>),
    InvalidReturnType(Seq<char>, Seq<char>),
    NonCallable(Seq<char>),
    InvalidSubscript(Seq<char>, Seq<char>),
    InvalidAttribute(Seq<char>, Seq<char>),
    CircularDependency(Seq<Seq<char>>),
    ConstraintViolation(Seq<char>, Seq<char>),
    VarianceError(Seq<char>),
    InfiniteType(Seq<char>, Seq<char>),
}

pub open spec fn strings_view(v: Seq<String>) -> Seq<Seq<char>> {
    v.map_values(|s: String| s@)
}

impl View for ErrorKind {
    type V = SErrorKind;

    open spec fn view(&self) -> SErrorKind {
        match self {
            ErrorKind::TypeMismatch { expected, found } => SErrorKind::TypeMismatch(
                expected@,
                found@,
            ),
            ErrorKind::UndefinedVariable { name } => SErrorKind::UndefinedVariable(name@),
            ErrorKind::UndefinedFunction { name } => SErrorKind::UndefinedFunction(name@),
            ErrorKind::InvalidArgCount { expected, found } => SErrorKind::InvalidArgCount(
                *expected,
                *found,
            ),
            ErrorKind::InvalidArgType { param, expected, found } => SErrorKind::InvalidArgType(
                param@,
                expected@,
                found@,
            ),
            ErrorKind::InvalidReturnType { expected, found } => SErrorKind::InvalidReturnType(
                expected@,
                found@,
            ),
            ErrorKind::NonCallable { ty } => SErrorKind::NonCallable(ty@),
            ErrorKind::InvalidSubscript { container, key } => SErrorKind::InvalidSubscript(
                container@,
                key@,
            ),
            ErrorKind::InvalidAttribute { ty, attr } => SErrorKind::InvalidAttribute(ty@, attr@),
            ErrorKind::CircularDependency { chain } => SErrorKind::CircularDependency(
                strings_view(chain@),
            ),
            ErrorKind::ConstraintViolation { constraint, value } => SErrorKind::ConstraintViolation(
                constraint@,
                value@,
            ),
            ErrorKind::VarianceError { context } => SErrorKind::VarianceError(context@),
            ErrorKind::InfiniteType { var, ty } => SErrorKind::InfiniteType(var@, ty@),
        }
    }
}

/// The message of an error kind.
pub open spec fn kind_str(k: SErrorKind) -> Seq<char> {
    match k {
        SErrorKind::TypeMismatch(e, f) => "Type mismatch: expected "@ + e + ", found "@ + f,
        SErrorKind::UndefinedVariable(n) => "Undefined variable: "@ + n,
        SErrorKind::UndefinedFunction(n) => "Undefined function: "@ + n,
        SErrorKind::InvalidArgCount(e, f) => "Invalid argument count: expected "@ + decimal(
            e as nat,
        ) + ", found "@ + decimal(f as nat),
        SErrorKind::InvalidArgType(p, e, f) => "Invalid type for parameter '"@ + p
            + "': expected "@ + e + ", found "@ + f,
        SErrorKind::InvalidReturnType(e, f) => "Invalid return type: expected "@ + e + ", found "@
            + f,
        SErrorKind::NonCallable(t) => "Type "@ + t + " is not callable"@,
        SErrorKind::InvalidSubscript(c, k) => "Cannot subscript "@ + c + " with "@ + k,
        SErrorKind::InvalidAttribute(t, a) => "Type "@ + t + " has no attribute '"@ + a + "'"@,
        SErrorKind::CircularDependency(chain) => "Circular dependency: "@ + join(chain, " -> "@),
        SErrorKind::ConstraintViolation(c, v) => "Constraint '"@ + c + "' violated by value: "@
            + v,
        SErrorKind::VarianceError(c) => "Variance error: "@ + c,
        SErrorKind::InfiniteType(v, t) => "Infinite type: "@ + v + " = "@ + t,
    }
}

/// Appends the strings of a list joined by a separator.
pub fn write_joined(parts: &Vec<String>, sep: &str, out: &mut String)
    ensures
        final(out)@ == old(out)@ + join(strings_view(parts@), sep@),
{
    let ghost start = out@;
    let ghost ps = strings_view(parts@);
    let mut i: usize = 0;
    while i < parts.len()
        invariant
            0 <= i <= parts.len(),
            ps == strings_view(parts@),
            out@ == start + join(ps.take(i as int), sep@),
        decreases parts.len() - i,
    {
        proof {
            lemma_join_push(ps.take(i as int), sep@, ps[i as int]);
            assert(ps.take(i as int).push(ps[i as int]) =~= ps.take(i + 1));
        }
        if i > 0 {
            out.append(sep);
        }
        out.append(parts[i].as_str());
        i += 1;
    }
    assert(ps.take(parts.len() as int) =~= ps);
}

impl ErrorKind {
    /// The message of the error kind.
    pub fn to_string(&self) -> (r: String)
        ensures
            r@ == kind_str(self@),
    {
        let mut s = String::new();
        match self {
            ErrorKind::TypeMismatch { expected, found } => {
                s.append("Type mismatch: expected ");
                s.append(expected.as_str());
                s.append(", found ");
                s.append(found.as_str());
            },
            ErrorKind::UndefinedVariable { name } => {
                s.append("Undefined variable: ");
                s.append(name.as_str());
            },
            ErrorKind::UndefinedFunction { name } => {
                s.append("Undefined function: ");
                s.append(name.as_str());
            },
            ErrorKind::InvalidArgCount { expected, found } => {
                s.append("Invalid argument count: expected ");
                write_u64(&mut s, *expected as u64);
                s.append(", found ");
                write_u64(&mut s, *found as u64);
            },
            ErrorKind::InvalidArgType { param, expected, found } => {
                s.append("Invalid type for parameter '");
                s.append(param.as_str());
                s.append("': expected ");
                s.append(expected.as_str());
                s.append(", found ");
                s.append(found.as_str());
            },
            ErrorKind::InvalidReturnType { expected, found } => {
                s.append("Invalid return type: expected ");
                s.append(expected.as_str());
                s.append(", found ");
                s.append(found.as_str());
            },
            ErrorKind::NonCallable { ty } => {
                s.append("Type ");
                s.append(ty.as_str());
                s.append(" is not callable");
            },
            ErrorKind::InvalidSubscript { container, key } => {
                s.append("Cannot subscript ");
                s.append(container.as_str());
                s.append(" with ");
                s.append(key.as_str());
            },
            ErrorKind::InvalidAttribute { ty, attr } => {
                s.append("Type ");
                s.append(ty.as_str());
                s.append(" has no attribute '");
                s.append(attr.as_str());
                s.append("'");
            },
            ErrorKind::CircularDependency { chain } => {
                s.append("Circular dependency: ");
                write_joined(chain, " -> ", &mut s);
            },
            ErrorKind::ConstraintViolation { constraint, value } => {
                s.append("Constraint '");
                s.append(constraint.as_str());
                s.append("' violated by value: ");
                s.append(value.as_str());
            },
            ErrorKind::VarianceError { context } => {
                s.append("Variance error: ");
                s.append(context.as_str());
            },
            ErrorKind::InfiniteType { var, ty } => {
                s.append("Infinite type: ");
                s.append(var.as_str());
                s.append(" = ");
                s.append(ty.as_str());
            },
        }
        assert(s@ =~= kind_str(self@));
        s
    }
}

/// A type error with its location, file and suggestions.
#[derive(Debug)]
pub struct TypeError {
    pub kind: ErrorKind,
    pub location: SourceLocation,
    pub file: String,
    pub suggestions: Vec<String>,
}

/// Model of a [`TypeError`].
pub struct STypeError {
    pub kind: SErrorKind,
    pub location: SourceLocation,
    pub file: Seq<char>,
    pub suggestions: Seq<Seq<char>>,
}

impl View for TypeError {
    type V = STypeError;

    open spec fn view(&self) -> STypeError {
        STypeError {
            kind: self.kind@,
            location: self.location,
            file: self.file@,
            suggestions: strings_view(self.suggestions@),
        }
    }
}

pub open spec fn errors_view(v: Seq<TypeError>) -> Seq<STypeError> {
    v.map_values(|e: TypeError| e@)
}

/// The text of an error: `file:` when a file is known, `line:col: message`, then one
/// `  hint: ...` line per suggestion.
pub open spec fn error_str(
    kind: SErrorKind,
    loc: SourceLocation,
    file: Seq<char>,
    suggestions: Seq<Seq<char>>,
) -> Seq<char> {
    (if file.len() == 0 {
        Seq::empty()
    } else {
        file + ":"@
    }) + decimal(loc.line as nat) + ":"@ + decimal(loc.col as nat) + ": "@ + kind_str(kind) + (
    if suggestions.len() == 0 {
        Seq::empty()
    } else {
        "\n"@ + hints_str(suggestions)
    })
}

pub open spec fn hints_str(s: Seq<Seq<char>>) -> Seq<char>
    decreases s.len(),
{
    if s.len() == 0 {
        Seq::empty()
    } else {
        hints_str(s.drop_last()) + "  hint: "@ + s.last() + "\n"@
    }
}

/// The suggestion text `Did you mean '<name>'?`.
pub open spec fn did_you_mean(name: Seq<char>) -> Seq<char> {
    "Did you mean '"@ + name + "'?"@
}

fn did_you_mean_exec(name: &String) -> (r: String)
    ensures
        r@ == did_you_mean(name@),
{
    let mut s = String::new();
    s.append("Did you mean '");
    s.append(name.as_str());
    s.append("'?");
    assert(s@ =~= did_you_mean(name@));
    s
}

/// The suggestions for at most the first three similar names.
pub open spec fn did_you_mean_all(similar: Seq<Seq<char>>) -> Seq<Seq<char>> {
    let n = if similar.len() < 3 {
        similar.len()
    } else {
        3
    };
    Seq::new(n, |i: int| did_you_mean(similar[i]))
}

/// Suggestions for the first three names of a list.
pub fn did_you_mean_list(similar: &Vec<String>) -> (r: Vec<String>)
    ensures
        strings_view(r@) == did_you_mean_all(strings_view(similar@)),
{
    let n: usize = if similar.len() < 3 {
        similar.len()
    } else {
        3
    };
    let mut out: Vec<String> = Vec::new();
    let mut i: usize = 0;
    while i < n
        invariant
            0 <= i <= n,
            n <= similar.len(),
            n == if similar.len() < 3 {
                similar.len()
            } else {
                3
            },
            out.len() == i,
            forall|j: int| 0 <= j < i ==> out@[j]@ == did_you_mean(similar@[j]@),
        decreases n - i,
    {
        out.push(did_you_mean_exec(&similar[i]));
        i += 1;
    }
    assert(strings_view(out@) =~= did_you_mean_all(strings_view(similar@)));
    out
}

/// The suggestions that `type_mismatch` attaches.
pub open spec fn mismatch_suggestions(expected: SType, found: SType) -> Seq<Seq<char>> {
    if expected is Int && found is Float {
        seq!["Use int() to convert float to int"@]
    } else if expected is Str && found is Int {
        seq!["Use str() to convert int to string"@]
    } else if subtype(expected, found) {
        seq!["Note: "@ + type_str(found) + " is a supertype of "@ + type_str(expected)]
    } else {
        Seq::empty()
    }
}

pub open spec fn empty_suggestions() -> Seq<Seq<char>> {
    Seq::empty()
}

impl TypeError {
    pub fn new(kind: ErrorKind, location: SourceLocation) -> (r: Self)
        ensures
            r.kind@ == kind@,
            r.location == location,
            r.file@ == Seq::<char>::empty(),
            r.suggestions@.len() == 0,
    {
        TypeError { kind, location, file: String::new(), suggestions: Vec::new() }
    }

    pub fn with_file(self, file: String) -> (r: Self)
        ensures
            r.kind@ == self.kind@,
            r.location == self.location,
            r.file@ == file@,
            strings_view(r.suggestions@) == strings_view(self.suggestions@),
    {
        TypeError { file, ..self }
    }

    pub fn with_suggestion(self, suggestion: String) -> (r: Self)
        ensures
            r.kind@ == self.kind@,
            r.location == self.location,
            r.file@ == self.file@,
            strings_view(r.suggestions@) == strings_view(self.suggestions@).push(suggestion@),
    {
        let mut e = self;
        let ghost before = e.suggestions@;
        let ghost sv = suggestion@;
        e.suggestions.push(suggestion);
        assert(strings_view(e.suggestions@) =~= strings_view(before).push(sv));
        e
    }

    pub fn with_suggestions(self, suggestions: Vec<String>) -> (r: Self)
        ensures
            r.kind@ == self.kind@,
            r.location == self.location,
            r.file@ == self.file@,
            strings_view(r.suggestions@) == strings_view(suggestions@),
    {
        TypeError { suggestions, ..self }
    }

    /// A mismatch between an expected and a found type, with a conversion hint for
    /// `int`/`float` and `str`/`int`, or a note when the expected type is a subtype of the
    /// found one.
    pub fn type_mismatch(expected: Type, found: Type, location: SourceLocation) -> (r: Self)
        ensures
            r.kind@ == SErrorKind::TypeMismatch(type_str(expected@), type_str(found@)),
            r.location == location,
            r.file@ == Seq::<char>::empty(),
            strings_view(r.suggestions@) == mismatch_suggestions(expected@, found@),
    {
        let error = Self::new(
            ErrorKind::TypeMismatch { expected: expected.to_string(), found: found.to_string() },
            location,
        );
        assert(strings_view(error.suggestions@) =~= Seq::<Seq<char>>::empty());
        match (&expected, &found) {
            (Type::Int, Type::Float) => {
                let r = error.with_suggestion(String::from_str("Use int() to convert float to int"));
                assert(strings_view(r.suggestions@) =~= mismatch_suggestions(expected@, found@));
                return r;
            },
            (Type::Str, Type::Int) => {
                let r = error.with_suggestion(String::from_str("Use str() to convert int to string"));
                assert(strings_view(r.suggestions@) =~= mismatch_suggestions(expected@, found@));
                return r;
            },
            _ => {},
        }
        proof {
            crate::equality::lemma_view_tag(expected);
            crate::equality::lemma_view_tag(found);
        }
        if expected.is_subtype(&found) {
            let mut note = String::from_str("Note: ");
            note.append(found.to_string().as_str());
            note.append(" is a supertype of ");
            note.append(expected.to_string().as_str());
            let r = error.with_suggestion(note);
            assert(strings_view(r.suggestions@) =~= mismatch_suggestions(expected@, found@));
            r
        } else {
            error
        }
    }

    /// An undefined variable, suggesting up to three similar names.
    pub fn undefined_variable(name: String, location: SourceLocation, similar: Vec<String>) -> (r:
        Self)
        ensures
            r.kind@ == SErrorKind::UndefinedVariable(name@),
            r.location == location,
            r.file@ == Seq::<char>::empty(),
            strings_view(r.suggestions@) == did_you_mean_all(strings_view(similar@)),
    {
        let error = Self::new(ErrorKind::UndefinedVariable { name: name.clone() }, location);
        if similar.len() > 0 {
            error.with_suggestions(did_you_mean_list(&similar))
        } else {
            assert(strings_view(error.suggestions@) =~= did_you_mean_all(strings_view(similar@)));
            error
        }
    }

    pub fn invalid_arg_count(expected: usize, found: usize, location: SourceLocation) -> (r: Self)
        ensures
            r.kind@ == SErrorKind::InvalidArgCount(expected, found),
            r.location == location,
            r.file@ == Seq::<char>::empty(),
            r.suggestions@.len() == 0,
    {
        Self::new(ErrorKind::InvalidArgCount { expected, found }, location)
    }

    pub fn invalid_arg_type(param: String, expected: Type, found: Type, location: SourceLocation) -> (r:
        Self)
        ensures
            r.kind@ == SErrorKind::InvalidArgType(param@, type_str(expected@), type_str(found@)),
            r.location == location,
            r.file@ == Seq::<char>::empty(),
            r.suggestions@.len() == 0,
    {
        Self::new(
            ErrorKind::InvalidArgType {
                param,
                expected: expected.to_string(),
                found: found.to_string(),
            },
            location,
        )
    }

    /// The text of the error.
    pub fn to_string(&self) -> (r: String)
        ensures
            r@ == error_str(self.kind@, self.location, self.file@, strings_view(self.suggestions@)),
    {
        let mut s = String::new();
        if !self.file.as_str().is_empty() {
            s.append(self.file.as_str());
            s.append(":");
        }
        write_u64(&mut s, self.location.line as u64);
        s.append(":");
        write_u64(&mut s, self.location.col as u64);
        s.append(": ");
        s.append(self.kind.to_string().as_str());
        let ghost head = s@;
        let ghost sv = strings_view(self.suggestions@);
        if self.suggestions.len() > 0 {
            s.append("\n");
            let mut i: usize = 0;
            while i < self.suggestions.len()
                invariant
                    0 <= i <= self.suggestions.len(),
                    sv == strings_view(self.suggestions@),
                    s@ == head + "\n"@ + hints_str(sv.take(i as int)),
                decreases self.suggestions.len() - i,
            {
                assert(sv.take(i + 1).drop_last() =~= sv.take(i as int));
                s.append("  hint: ");
                s.append(self.suggestions[i].as_str());
                s.append("\n");
                i += 1;
            }
            assert(sv.take(self.suggestions.len() as int) =~= sv);
        }
        assert(s@ =~= error_str(self.kind@, self.location, self.file@, sv));
        s
    }
}

/// Collects errors up to a maximum count.
pub struct ErrorCollector {
    pub(crate) errors: Vec<TypeError>,
    pub(crate) max_errors: usize,
}

impl ErrorCollector {
    /// A collector never holds more errors than its maximum.
    #[verifier::type_invariant]
    spec fn within_max(&self) -> bool {
        self.errors.len() <= self.max_errors
    }

    /// The errors held, as a sequence.
    pub closed spec fn held(&self) -> Seq<TypeError> {
        self.errors@
    }

    /// The most errors kept.
    pub closed spec fn max(&self) -> usize {
        self.max_errors
    }

    /// A collector that keeps at most 100 errors.
    pub fn new() -> (r: Self)
        ensures
            r.held().len() == 0,
            r.max() == 100,
            r.held().len() <= r.max(),
    {
        ErrorCollector { errors: Vec::new(), max_errors: 100 }
    }

    pub fn with_max(max_errors: usize) -> (r: Self)
        ensures
            r.held().len() == 0,
            r.max() == max_errors,
            r.held().len() <= r.max(),
    {
        ErrorCollector { errors: Vec::new(), max_errors }
    }

    /// Adds an error unless the maximum is reached.
    pub fn add(&mut self, error: TypeError)
        ensures
            final(self).max() == old(self).max(),
            final(self).held() == if old(self).held().len() < old(self).max() {
                old(self).held().push(error)
            } else {
                old(self).held()
            },
            final(self).held().len() <= final(self).max(),
    {
        if self.errors.len() < self.max_errors {
            let mut held: Vec<TypeError> = Vec::new();
            std::mem::swap(&mut held, &mut self.errors);
            held.push(error);
            std::mem::swap(&mut held, &mut self.errors);
        }
        proof {
            use_type_invariant(&*self);
        }
    }

    pub fn has_errors(&self) -> (r: bool)
        ensures
            r == (self.held().len() > 0),
    {
        self.errors.len() != 0
    }

    pub fn error_count(&self) -> (r: usize)
        ensures
            r == self.held().len(),
            r <= self.max(),
    {
        proof {
            use_type_invariant(self);
        }
        self.errors.len()
    }

    pub fn errors(&self) -> (r: &[TypeError])
        ensures
            r@ == self.held(),
    {
        self.errors.as_slice()
    }

    pub fn into_errors(self) -> (r: Vec<TypeError>)
        ensures
            r@ == self.held(),
    {
        self.errors
    }

    pub fn clear(&mut self)
        ensures
            final(self).held().len() == 0,
            final(self).max() == old(self).max(),
    {
        self.errors = Vec::new();
    }
}

/// Edit distance between prefixes `a[..i]` and `b[..j]` (insertions, deletions and
/// substitutions each cost one).
pub open spec fn lev(a: Seq<char>, b: Seq<char>, i: nat, j: nat) -> nat
    decreases i + j,
{
    if i == 0 {
        j
    } else if j == 0 {
        i
    } else {
        let del = lev(a, b, (i - 1) as nat, j) + 1;
        let ins = lev(a, b, i, (j - 1) as nat) + 1;
        let sub = lev(a, b, (i - 1) as nat, (j - 1) as nat) + if a[i - 1] == b[j - 1] {
            0nat
        } else {
            1nat
        };
        let m = if del < ins {
            del
        } else {
            ins
        };
        if m < sub {
            m
        } else {
            sub
        }
    }
}

/// Levenshtein distance between two strings of characters.
pub open spec fn levenshtein(a: Seq<char>, b: Seq<char>) -> nat {
    lev(a, b, a.len(), b.len())
}

pub proof fn lemma_lev_bound(a: Seq<char>, b: Seq<char>, i: nat, j: nat)
    ensures
        lev(a, b, i, j) <= if i < j {
            j
        } else {
            i
        },
    decreases i + j,
{
    if i > 0 && j > 0 {
        lemma_lev_bound(a, b, (i - 1) as nat, (j - 1) as nat);
    }
}

/// The edit distance is symmetric: editing `b[..j]` into `a[..i]` costs what editing
/// `a[..i]` into `b[..j]` costs.
pub proof fn lemma_lev_symmetric(a: Seq<char>, b: Seq<char>, i: nat, j: nat)
    ensures
        lev(a, b, i, j) == lev(b, a, j, i),
    decreases i + j,
{
    if i > 0 && j > 0 {
        lemma_lev_symmetric(a, b, (i - 1) as nat, j);
        lemma_lev_symmetric(a, b, i, (j - 1) as nat);
        lemma_lev_symmetric(a, b, (i - 1) as nat, (j - 1) as nat);
    }
}

/// The edit distance is zero exactly when the two prefixes are the same string.
pub proof fn lemma_lev_zero(a: Seq<char>, b: Seq<char>, i: nat, j: nat)
    requires
        i <= a.len(),
        j <= b.len(),
    ensures
        lev(a, b, i, j) == 0 <==> (i == j && a.take(i as int) =~= b.take(j as int)),
    decreases i + j,
{
    if i > 0 && j > 0 {
        lemma_lev_zero(a, b, (i - 1) as nat, (j - 1) as nat);
        if lev(a, b, i, j) == 0 {
            assert(a.take(i as int) =~= a.take(i - 1).push(a[i - 1]));
            assert(b.take(j as int) =~= b.take(j - 1).push(b[j - 1]));
        }
        if i == j && a.take(i as int) =~= b.take(j as int) {
            assert(a.take(i - 1) =~= a.take(i as int).take(i - 1));
            assert(b.take(j - 1) =~= b.take(j as int).take(j - 1));
            assert(a[i - 1] == a.take(i as int)[i - 1]);
            assert(b[j - 1] == b.take(j as int)[j - 1]);
        }
    } else if i > 0 {
        assert(a.take(i as int).len() == i);
    } else if j > 0 {
        assert(b.take(j as int).len() == j);
    }
}

/// The edit distance is at least the difference of the two lengths.
pub proof fn lemma_lev_lower(a: Seq<char>, b: Seq<char>, i: nat, j: nat)
    ensures
        lev(a, b, i, j) >= i - j,
        lev(a, b, i, j) >= j - i,
    decreases i + j,
{
    if i > 0 && j > 0 {
        lemma_lev_lower(a, b, (i - 1) as nat, j);
        lemma_lev_lower(a, b, i, (j - 1) as nat);
        lemma_lev_lower(a, b, (i - 1) as nat, (j - 1) as nat);
    }
}

/// Levenshtein distance is symmetric, zero exactly on equal strings, and lies between
/// the difference of the lengths and the longer length.
pub proof fn lemma_levenshtein_laws(a: Seq<char>, b: Seq<char>)
    ensures
        levenshtein(a, b) == levenshtein(b, a),
        levenshtein(a, b) == 0 <==> a == b,
        levenshtein(a, b) >= a.len() - b.len(),
        levenshtein(a, b) >= b.len() - a.len(),
        levenshtein(a, b) <= if a.len() < b.len() {
            b.len()
        } else {
            a.len()
        },
{
    lemma_lev_symmetric(a, b, a.len(), b.len());
    lemma_lev_zero(a, b, a.len(), b.len());
    lemma_lev_lower(a, b, a.len(), b.len());
    lemma_lev_bound(a, b, a.len(), b.len());
    assert(a.take(a.len() as int) =~= a);
    assert(b.take(b.len() as int) =~= b);
}

/// The characters of a string.
pub fn chars_of(s: &str) -> (r: Vec<char>)
    ensures
        r@ == s@,
{
    let n = s.unicode_len();
    let mut r: Vec<char> = Vec::new();
    let mut i: usize = 0;
    while i < n
        invariant
            0 <= i <= n,
            n == s@.len(),
            r@ == s@.take(i as int),
        decreases n - i,
    {
        let c = s.get_char(i);
        r.push(c);
        assert(r@ =~= s@.take(i + 1));
        i += 1;
    }
    assert(s@.take(n as int) =~= s@);
    r
}

/// Compute the Levenshtein distance for "did you mean" suggestions.
pub fn levenshtein_distance(a: &str, b: &str) -> (r: usize)
    requires
        a@.len() < usize::MAX,
        b@.len() < usize::MAX,
    ensures
        r == levenshtein(a@, b@),
{
    let ac = chars_of(a);
    let bc = chars_of(b);
    let a_len = ac.len();
    let b_len = bc.len();
    if a_len == 0 {
        return b_len;
    }
    if b_len == 0 {
        return a_len;
    }
    let ghost av = a@;
    let ghost bv = b@;
    let mut prev: Vec<usize> = Vec::new();
    let mut j: usize = 0;
    while j <= b_len
        invariant
            0 <= j <= b_len + 1,
            b_len < usize::MAX,
            prev.len() == j,
            forall|k: int| 0 <= k < j ==> prev@[k] == lev(av, bv, 0, k as nat),
        decreases b_len + 1 - j,
    {
        prev.push(j);
        j += 1;
    }
    let mut i: usize = 1;
    while i <= a_len
        invariant
            1 <= i <= a_len + 1,
            a_len < usize::MAX,
            b_len < usize::MAX,
            ac@ == av,
            bc@ == bv,
            a_len == av.len(),
            b_len == bv.len(),
            prev.len() == b_len + 1,
            forall|k: int| 0 <= k <= b_len ==> prev@[k] == lev(av, bv, (i - 1) as nat, k as nat),
        decreases a_len + 1 - i,
    {
        let mut cur: Vec<usize> = Vec::new();
        cur.push(i);
        let mut j: usize = 1;
        while j <= b_len
            invariant
                1 <= i <= a_len,
                1 <= j <= b_len + 1,
                a_len < usize::MAX,
                b_len < usize::MAX,
                ac@ == av,
                bc@ == bv,
                a_len == av.len(),
                b_len == bv.len(),
                prev.len() == b_len + 1,
                forall|k: int| 0 <= k <= b_len ==> prev@[k] == lev(av, bv, (i - 1) as nat, k as nat),
                cur.len() == j,
                forall|k: int| 0 <= k < j ==> cur@[k] == lev(av, bv, i as nat, k as nat),
            decreases b_len + 1 - j,
        {
            proof {
                lemma_lev_bound(av, bv, (i - 1) as nat, j as nat);
                lemma_lev_bound(av, bv, i as nat, (j - 1) as nat);
                lemma_lev_bound(av, bv, (i - 1) as nat, (j - 1) as nat);
            }
            let cost: usize = if ac[i - 1] == bc[j - 1] {
                0
            } else {
                1
            };
            let del = prev[j] + 1;
            let ins = cur[j - 1] + 1;
            let sub = prev[j - 1] + cost;
            let m = if del < ins {
                del
            } else {
                ins
            };
            let v = if m < sub {
                m
            } else {
                sub
            };
            cur.push(v);
            j += 1;
        }
        prev = cur;
        i += 1;
    }
    prev[b_len]
}

/// A candidate with its distance, kept in order of distance, earlier candidates first
/// among equals.
pub open spec fn insert_by_distance(s: Seq<(Seq<char>, nat)>, x: (Seq<char>, nat)) -> Seq<
    (Seq<char>, nat),
>
    decreases s.len(),
{
    if s.len() == 0 {
        seq![x]
    } else if s[0].1 > x.1 {
        seq![x] + s
    } else {
        seq![s[0]] + insert_by_distance(s.drop_first(), x)
    }
}

/// The similar candidates with their distances, stably sorted by distance.
pub open spec fn similar_sorted(target: Seq<char>, cands: Seq<Seq<char>>, max_distance: nat) -> Seq<
    (Seq<char>, nat),
>
    decreases cands.len(),
{
    if cands.len() == 0 {
        Seq::empty()
    } else {
        let prev = similar_sorted(target, cands.drop_last(), max_distance);
        let d = levenshtein(target, cands.last());
        if d <= max_distance && d > 0 {
            insert_by_distance(prev, (cands.last(), d))
        } else {
            prev
        }
    }
}

/// The names of the candidates at distance `1..=max_distance` from `target`, nearest
/// first, in their original order among equal distances.
pub open spec fn similar_names(target: Seq<char>, cands: Seq<Seq<char>>, max_distance: nat) -> Seq<
    Seq<char>,
> {
    similar_sorted(target, cands, max_distance).map_values(|p: (Seq<char>, nat)| p.0)
}

pub proof fn lemma_insert_at(s: Seq<(Seq<char>, nat)>, x: (Seq<char>, nat), k: int)
    requires
        0 <= k <= s.len(),
        forall|m: int| 0 <= m < k ==> s[m].1 <= x.1,
        k < s.len() ==> s[k].1 > x.1,
    ensures
        insert_by_distance(s, x) == s.insert(k, x),
    decreases s.len(),
{
    if s.len() == 0 {
        assert(s.insert(k, x) =~= seq![x]);
    } else if k == 0 {
        assert(s.insert(k, x) =~= seq![x] + s);
    } else {
        lemma_insert_at(s.drop_first(), x, k - 1);
        assert(s.insert(k, x) =~= seq![s[0]] + s.drop_first().insert(k - 1, x));
    }
}

/// Entries in order of distance, nearest first.
pub open spec fn by_distance(s: Seq<(Seq<char>, nat)>) -> bool {
    forall|i: int, j: int| 0 <= i < j < s.len() ==> #[trigger] s[i].1 <= #[trigger] s[j].1
}

proof fn lemma_insert_by_distance(s: Seq<(Seq<char>, nat)>, x: (Seq<char>, nat))
    requires
        by_distance(s),
    ensures
        by_distance(insert_by_distance(s, x)),
        insert_by_distance(s, x).len() == s.len() + 1,
        forall|y: (Seq<char>, nat)| #[trigger] insert_by_distance(s, x).contains(y) <==> (s.contains(y) || y == x),
    decreases s.len(),
{
    let r = insert_by_distance(s, x);
    if s.len() == 0 {
        assert(r =~= seq![x]);
        assert forall|y: (Seq<char>, nat)| #[trigger] r.contains(y) <==> (s.contains(y) || y == x) by {
            if r.contains(y) {
                assert(r[0] == y);
            }
            if y == x {
                assert(r[0] == x);
            }
        }
    } else if s[0].1 > x.1 {
        assert forall|i: int, j: int| 0 <= i < j < r.len() implies #[trigger] r[i].1 <= #[trigger] r[j].1 by {
            if i == 0 {
                assert(s[0].1 <= s[j - 1].1 || j - 1 == 0);
            } else {
                assert(r[i] == s[i - 1] && r[j] == s[j - 1]);
            }
        }
        assert forall|y: (Seq<char>, nat)| #[trigger] r.contains(y) <==> (s.contains(y) || y == x) by {
            if r.contains(y) {
                let k = choose|k: int| 0 <= k < r.len() && r[k] == y;
                if k > 0 {
                    assert(s[k - 1] == y);
                }
            }
            if s.contains(y) {
                let k = choose|k: int| 0 <= k < s.len() && s[k] == y;
                assert(r[k + 1] == y);
            }
            if y == x {
                assert(r[0] == x);
            }
        }
    } else {
        let t = s.drop_first();
        assert(by_distance(t)) by {
            assert forall|i: int, j: int| 0 <= i < j < t.len() implies #[trigger] t[i].1 <= #[trigger] t[j].1 by {
                assert(t[i] == s[i + 1] && t[j] == s[j + 1]);
            }
        }
        lemma_insert_by_distance(t, x);
        let rt = insert_by_distance(t, x);
        assert(r == seq![s[0]] + rt);
        assert forall|i: int, j: int| 0 <= i < j < r.len() implies #[trigger] r[i].1 <= #[trigger] r[j].1 by {
            if i == 0 {
                assert(r[j] == rt[j - 1]);
                assert(rt.contains(rt[j - 1]));
                if t.contains(rt[j - 1]) {
                    let k = choose|k: int| 0 <= k < t.len() && t[k] == rt[j - 1];
                    assert(t[k] == s[k + 1]);
                }
            } else {
                assert(r[i] == rt[i - 1] && r[j] == rt[j - 1]);
            }
        }
        assert forall|y: (Seq<char>, nat)| #[trigger] r.contains(y) <==> (s.contains(y) || y == x) by {
            if r.contains(y) {
                let k = choose|k: int| 0 <= k < r.len() && r[k] == y;
                if k > 0 {
                    assert(rt[k - 1] == y);
                    assert(rt.contains(y));
                    if t.contains(y) {
                        let m = choose|m: int| 0 <= m < t.len() && t[m] == y;
                        assert(s[m + 1] == y);
                    }
                } else {
                    assert(s[0] == y);
                }
            }
            if s.contains(y) {
                let k = choose|k: int| 0 <= k < s.len() && s[k] == y;
                if k > 0 {
                    assert(t[k - 1] == y);
                    assert(t.contains(y));
                    assert(rt.contains(y));
                    let m = choose|m: int| 0 <= m < rt.len() && rt[m] == y;
                    assert(r[m + 1] == rt[m]);
                    assert(r.contains(y));
                } else {
                    assert(r[0] == y);
                    assert(r.contains(y));
                }
            }
            if y == x {
                assert(rt.contains(x));
                let m = choose|m: int| 0 <= m < rt.len() && rt[m] == x;
                assert(r[m + 1] == rt[m]);
                assert(r.contains(x));
            }
        }
    }
}

/// Insertion by distance of entries that carry the position of their candidate.
pub open spec fn insert_idx(s: Seq<(int, nat)>, x: (int, nat)) -> Seq<(int, nat)>
    decreases s.len(),
{
    if s.len() == 0 {
        seq![x]
    } else if s[0].1 > x.1 {
        seq![x] + s
    } else {
        seq![s[0]] + insert_idx(s.drop_first(), x)
    }
}

/// The similar candidates as positions in `cands` with their distances, in the order of
/// `similar_sorted`.
pub open spec fn similar_idx(target: Seq<char>, cands: Seq<Seq<char>>, max_distance: nat) -> Seq<(int, nat)>
    decreases cands.len(),
{
    if cands.len() == 0 {
        Seq::empty()
    } else {
        let prev = similar_idx(target, cands.drop_last(), max_distance);
        let d = levenshtein(target, cands.last());
        if d <= max_distance && d > 0 {
            insert_idx(prev, (cands.len() - 1, d))
        } else {
            prev
        }
    }
}

/// The entries of positions, as names.
pub open spec fn idx_names(cands: Seq<Seq<char>>, s: Seq<(int, nat)>) -> Seq<(Seq<char>, nat)> {
    s.map_values(|p: (int, nat)| (cands[p.0], p.1))
}

/// Ordered by distance, and by position among equal distances.
pub open spec fn stable(s: Seq<(int, nat)>) -> bool {
    forall|i: int, j: int|
        0 <= i < j < s.len() ==> #[trigger] s[i].1 < #[trigger] s[j].1 || (s[i].1 == s[j].1 && s[i].0 < s[j].0)
}

proof fn lemma_insert_idx_names(cands: Seq<Seq<char>>, s: Seq<(int, nat)>, x: (int, nat))
    ensures
        insert_by_distance(idx_names(cands, s), (cands[x.0], x.1)) == idx_names(cands, insert_idx(s, x)),
    decreases s.len(),
{
    let ns = idx_names(cands, s);
    if s.len() == 0 {
        assert(idx_names(cands, seq![x]) =~= seq![(cands[x.0], x.1)]);
    } else if s[0].1 > x.1 {
        assert(idx_names(cands, seq![x] + s) =~= seq![(cands[x.0], x.1)] + ns);
    } else {
        lemma_insert_idx_names(cands, s.drop_first(), x);
        assert(ns.drop_first() =~= idx_names(cands, s.drop_first()));
        assert(idx_names(cands, seq![s[0]] + insert_idx(s.drop_first(), x)) =~= seq![ns[0]] + idx_names(
            cands,
            insert_idx(s.drop_first(), x),
        ));
    }
}

proof fn lemma_insert_idx_stable(s: Seq<(int, nat)>, x: (int, nat))
    requires
        stable(s),
        forall|i: int| 0 <= i < s.len() ==> (#[trigger] s[i]).0 < x.0,
    ensures
        stable(insert_idx(s, x)),
        forall|y: (int, nat)| #[trigger] insert_idx(s, x).contains(y) ==> s.contains(y) || y == x,
        insert_idx(s, x).len() == s.len() + 1,
    decreases s.len(),
{
    let r = insert_idx(s, x);
    if s.len() == 0 {
        assert(r =~= seq![x]);
        assert forall|y: (int, nat)| #[trigger] r.contains(y) implies s.contains(y) || y == x by {
            assert(r[0] == y);
        }
    } else if s[0].1 > x.1 {
        assert forall|i: int, j: int| 0 <= i < j < r.len() implies #[trigger] r[i].1 < #[trigger] r[j].1 || (r[i].1
            == r[j].1 && r[i].0 < r[j].0) by {
            if i == 0 {
                if j - 1 > 0 {
                    assert(s[0].1 <= s[j - 1].1);
                }
            } else {
                assert(r[i] == s[i - 1] && r[j] == s[j - 1]);
            }
        }
        assert forall|y: (int, nat)| #[trigger] r.contains(y) implies s.contains(y) || y == x by {
            let k = choose|k: int| 0 <= k < r.len() && r[k] == y;
            if k > 0 {
                assert(s[k - 1] == y);
            }
        }
    } else {
        let t = s.drop_first();
        assert(stable(t)) by {
            assert forall|i: int, j: int| 0 <= i < j < t.len() implies #[trigger] t[i].1 < #[trigger] t[j].1 || (t[i].1
                == t[j].1 && t[i].0 < t[j].0) by {
                assert(t[i] == s[i + 1] && t[j] == s[j + 1]);
            }
        }
        assert forall|i: int| 0 <= i < t.len() implies (#[trigger] t[i]).0 < x.0 by {
            assert(t[i] == s[i + 1]);
        }
        lemma_insert_idx_stable(t, x);
        let rt = insert_idx(t, x);
        assert(r == seq![s[0]] + rt);
        assert forall|i: int, j: int| 0 <= i < j < r.len() implies #[trigger] r[i].1 < #[trigger] r[j].1 || (r[i].1
            == r[j].1 && r[i].0 < r[j].0) by {
            if i == 0 {
                assert(r[j] == rt[j - 1]);
                assert(rt.contains(rt[j - 1]));
                if t.contains(rt[j - 1]) {
                    let k = choose|k: int| 0 <= k < t.len() && t[k] == rt[j - 1];
                    assert(t[k] == s[k + 1]);
                } else {
                    assert(rt[j - 1] == x);
                }
            } else {
                assert(r[i] == rt[i - 1] && r[j] == rt[j - 1]);
            }
        }
        assert forall|y: (int, nat)| #[trigger] r.contains(y) implies s.contains(y) || y == x by {
            let k = choose|k: int| 0 <= k < r.len() && r[k] == y;
            if k > 0 {
                assert(rt[k - 1] == y);
                assert(rt.contains(y));
                if t.contains(y) {
                    let m = choose|m: int| 0 <= m < t.len() && t[m] == y;
                    assert(s[m + 1] == y);
                }
            } else {
                assert(s[0] == y);
            }
        }
    }
}

/// Suggestions keep the order of the candidates among equal distances: they are the
/// candidates at the positions `similar_idx` gives, which come nearest first and, at equal
/// distance, in the order of the positions, each paired with the candidate's distance.
pub proof fn lemma_similar_stable(target: Seq<char>, cands: Seq<Seq<char>>, max_distance: nat)
    ensures
        similar_sorted(target, cands, max_distance) == idx_names(cands, similar_idx(target, cands, max_distance)),
        stable(similar_idx(target, cands, max_distance)),
        forall|i: int|
            0 <= i < similar_idx(target, cands, max_distance).len() ==> {
                let p = #[trigger] similar_idx(target, cands, max_distance)[i];
                &&& 0 <= p.0 < cands.len()
                &&& p.1 == levenshtein(target, cands[p.0])
            },
    decreases cands.len(),
{
    let s = similar_idx(target, cands, max_distance);
    if cands.len() == 0 {
        assert(idx_names(cands, s) =~= Seq::<(Seq<char>, nat)>::empty());
    } else {
        let d = cands.drop_last();
        lemma_similar_stable(target, d, max_distance);
        let prev = similar_idx(target, d, max_distance);
        assert(idx_names(d, prev) =~= idx_names(cands, prev)) by {
            assert forall|i: int| 0 <= i < prev.len() implies idx_names(d, prev)[i] == idx_names(cands, prev)[i] by {
                let p = prev[i];
                assert(d[p.0] == cands[p.0]);
            }
        }
        assert forall|i: int| 0 <= i < prev.len() implies {
            let p = #[trigger] prev[i];
            &&& 0 <= p.0 < cands.len()
            &&& p.1 == levenshtein(target, cands[p.0])
        } by {
            assert(d[prev[i].0] == cands[prev[i].0]);
        }
        let dist = levenshtein(target, cands.last());
        if dist <= max_distance && dist > 0 {
            let x = (cands.len() - 1, dist);
            lemma_insert_idx_names(cands, prev, x);
            assert(cands[x.0] == cands.last());
            lemma_insert_idx_stable(prev, x);
            assert forall|i: int| 0 <= i < s.len() implies {
                let p = #[trigger] s[i];
                &&& 0 <= p.0 < cands.len()
                &&& p.1 == levenshtein(target, cands[p.0])
            } by {
                assert(s.contains(s[i]));
                if prev.contains(s[i]) {
                    let k = choose|k: int| 0 <= k < prev.len() && prev[k] == s[i];
                    assert(prev[k] == s[i]);
                }
            }
        }
    }
}

/// The suggestions for a name: nearest first, each a candidate at distance from 1 to
/// `max_distance` paired with that distance, and every such candidate among them.
pub proof fn lemma_similar_sorted(target: Seq<char>, cands: Seq<Seq<char>>, max_distance: nat)
    ensures
        by_distance(similar_sorted(target, cands, max_distance)),
        forall|i: int|
            0 <= i < similar_sorted(target, cands, max_distance).len() ==> {
                let e = #[trigger] similar_sorted(target, cands, max_distance)[i];
                &&& cands.contains(e.0)
                &&& e.1 == levenshtein(target, e.0)
                &&& 0 < e.1 <= max_distance
            },
        forall|j: int|
            0 <= j < cands.len() && 0 < levenshtein(target, cands[j]) <= max_distance ==> similar_sorted(
                target,
                cands,
                max_distance,
            ).contains((#[trigger] cands[j], levenshtein(target, cands[j]))),
    decreases cands.len(),
{
    if cands.len() > 0 {
        let d = cands.drop_last();
        lemma_similar_sorted(target, d, max_distance);
        let prev = similar_sorted(target, d, max_distance);
        let c = cands.last();
        let dist = levenshtein(target, c);
        let r = similar_sorted(target, cands, max_distance);
        if dist <= max_distance && dist > 0 {
            lemma_insert_by_distance(prev, (c, dist));
        }
        assert forall|i: int| 0 <= i < r.len() implies {
            let e = #[trigger] r[i];
            &&& cands.contains(e.0)
            &&& e.1 == levenshtein(target, e.0)
            &&& 0 < e.1 <= max_distance
        } by {
            let e = r[i];
            assert(r.contains(e));
            if prev.contains(e) {
                let k = choose|k: int| 0 <= k < prev.len() && prev[k] == e;
                let m = choose|m: int| 0 <= m < d.len() && d[m] == prev[k].0;
                assert(cands[m] == e.0);
            } else {
                assert(cands[cands.len() - 1] == e.0);
            }
        }
        assert forall|j: int|
            0 <= j < cands.len() && 0 < levenshtein(target, cands[j]) <= max_distance implies r.contains(
            (#[trigger] cands[j], levenshtein(target, cands[j])),
        ) by {
            if j < d.len() {
                assert(d[j] == cands[j]);
                assert(prev.contains((d[j], levenshtein(target, d[j]))));
            }
        }
    }
}

/// Some attribute name, or the attribute itself, is too long to measure its distance.
pub open spec fn unmeasurable(attr: Seq<char>, cs: Seq<Seq<char>>) -> bool {
    attr.len() >= usize::MAX || exists|j: int| 0 <= j < cs.len() && (#[trigger] cs[j]).len() >= usize::MAX
}

/// The names among `available` close to `attr`, nearest first; none when a name is too
/// long to measure.
pub(crate) fn close_names(attr: &str, available: &Vec<String>) -> (r: Vec<String>)
    ensures
        strings_view(r@) == similar_names(attr@, strings_view(available@), 2) || (r@.len() == 0
            && unmeasurable(attr@, strings_view(available@))),
{
    let ghost cs = strings_view(available@);
    let mut measurable = attr.unicode_len() < usize::MAX;
    let mut i: usize = 0;
    while i < available.len()
        invariant
            0 <= i <= available.len(),
            cs == strings_view(available@),
            measurable ==> attr@.len() < usize::MAX,
            measurable ==> forall|j: int| 0 <= j < i ==> (#[trigger] available@[j])@.len() < usize::MAX,
            !measurable ==> unmeasurable(attr@, cs),
        decreases available.len() - i,
    {
        if available[i].as_str().unicode_len() == usize::MAX {
            assert(cs[i as int] == available@[i as int]@);
            measurable = false;
        }
        i += 1;
    }
    if measurable {
        find_similar_names(attr, available.as_slice(), 2)
    } else {
        Vec::new()
    }
}

/// A collector never holds more errors than its maximum: one made by `new` or
/// `with_max` holds none, and `add` stops at the maximum.
pub proof fn lemma_collector_bounded(held: Seq<TypeError>, max: usize, e: TypeError)
    requires
        held.len() <= max,
    ensures
        (if held.len() < max {
            held.push(e)
        } else {
            held
        }).len() <= max,
{
}

/// Find similar names for "did you mean" suggestions.
pub fn find_similar_names(target: &str, candidates: &[String], max_distance: usize) -> (r: Vec<
    String,
>)
    requires
        target@.len() < usize::MAX,
        forall|i: int| 0 <= i < candidates@.len() ==> (#[trigger] candidates@[i])@.len() < usize::MAX,
    ensures
        strings_view(r@) == similar_names(target@, strings_view(candidates@), max_distance as nat),
{
    let ghost cv = strings_view(candidates@);
    let mut names: Vec<String> = Vec::new();
    let mut dists: Vec<usize> = Vec::new();
    let mut i: usize = 0;
    while i < candidates.len()
        invariant
            0 <= i <= candidates.len(),
            cv == strings_view(candidates@),
            target@.len() < usize::MAX,
            forall|m: int| 0 <= m < candidates@.len() ==> (#[trigger] candidates@[m])@.len() < usize::MAX,
            names.len() == dists.len(),
            similar_sorted(target@, cv.take(i as int), max_distance as nat) == Seq::new(
                names.len() as nat,
                |m: int| (names@[m]@, dists@[m] as nat),
            ),
        decreases candidates.len() - i,
    {
        let ghost s = Seq::new(names.len() as nat, |m: int| (names@[m]@, dists@[m] as nat));
        assert(cv.take(i + 1).drop_last() =~= cv.take(i as int));
        assert(cv.take(i + 1).last() == candidates@[i as int]@);
        let d = levenshtein_distance(target, candidates[i].as_str());
        if d <= max_distance && d > 0 {
            let mut k: usize = 0;
            while k < dists.len() && dists[k] <= d
                invariant
                    0 <= k <= dists.len(),
                    forall|m: int| 0 <= m < k ==> dists@[m] <= d,
                decreases dists.len() - k,
            {
                k += 1;
            }
            proof {
                lemma_insert_at(s, (candidates@[i as int]@, d as nat), k as int);
            }
            let ghost (n0, d0) = (names@, dists@);
            names.insert(k, candidates[i].clone());
            dists.insert(k, d);
            assert(Seq::new(names.len() as nat, |m: int| (names@[m]@, dists@[m] as nat)) =~= s.insert(
                k as int,
                (candidates@[i as int]@, d as nat),
            ));
        }
        i += 1;
    }
    assert(cv.take(candidates.len() as int) =~= cv);
    assert(strings_view(names@) =~= similar_names(target@, cv, max_distance as nat));
    names
}

} // verus!
