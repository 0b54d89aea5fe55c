//! The part of a Python syntax tree that the checker reads.
use vstd::prelude::*;

verus! {

/// A literal.
pub enum Constant {
    NoneValue,
    Bool(bool),
    /// An integer literal, with its value where it fits in an `i64`.
    Int(Option<i64>),
    Float,
    Str(String),
    Bytes,
    Tuple(Vec<Constant>),
    Other,
}

/// A binary operator.
#[derive(PartialEq, Eq, Structural)]
pub enum Operator {
    Add,
    Sub,
    Mult,
    MatMult,
    Div,
    Mod,
    Pow,
    LShift,
    RShift,
    BitOr,
    BitXor,
    BitAnd,
    FloorDiv,
}

/// A unary operator.
#[derive(PartialEq, Eq, Structural)]
pub enum UnaryOp {
    Invert,
    Not,
    UAdd,
    USub,
}

/// One `for ... in ... if ...` clause of a comprehension.
pub struct Comprehension {
    pub target: Expr,
    pub iter: Expr,
    pub ifs: Vec<Expr>,
}

/// An expression.
pub enum Expr {
    Constant(Constant),
    Name(String),
    BinOp(Box<Expr>, Operator, Box<Expr>),
    UnaryOp(UnaryOp, Box<Expr>),
    BoolOp(Vec<Expr>),
    Compare(Box<Expr>, Vec<Expr>),
    Call(Box<Expr>, Vec<Expr>),
    List(Vec<Expr>),
    Tuple(Vec<Expr>),
    SetExpr(Vec<Expr>),
    /// Keys (`None` for a `**` entry) and values.
    Dict(Vec<Option<Expr>>, Vec<Expr>),
    ListComp(Box<Expr>, Vec<Comprehension>),
    SetComp(Box<Expr>, Vec<Comprehension>),
    DictComp(Box<Expr>, Box<Expr>, Vec<Comprehension>),
    GeneratorExp(Box<Expr>, Vec<Comprehension>),
    Lambda(Vec<String>, Box<Expr>),
    IfExp(Box<Expr>, Box<Expr>, Box<Expr>),
    Subscript(Box<Expr>, Box<Expr>),
    Attribute(Box<Expr>, String),
    Slice,
    Await(Box<Expr>),
    Yield(Option<Box<Expr>>),
    YieldFrom(Box<Expr>),
    Starred(Box<Expr>),
    NamedExpr(Box<Expr>),
    FormattedValue(Box<Expr>),
    JoinedStr,
}

/// A parameter of a function definition.
pub struct Param {
    pub name: String,
    pub annotation: Option<Expr>,
}

/// A statement.
pub enum Stmt {
    FunctionDef { name: String, params: Vec<Param>, result: Option<Expr>, body: Vec<Stmt> },
    AsyncFunctionDef { name: String, body: Vec<Stmt> },
    ClassDef { name: String, body: Vec<Stmt> },
    Return(Option<Expr>),
    Assign { targets: Vec<Expr>, value: Expr },
    AugAssign(Expr),
    AnnAssign { target: Expr, annotation: Expr, value: Option<Expr> },
    For { target: Expr, iter: Expr, body: Vec<Stmt>, orelse: Vec<Stmt> },
    While { test: Expr, body: Vec<Stmt>, orelse: Vec<Stmt> },
    If { test: Expr, body: Vec<Stmt>, orelse: Vec<Stmt> },
    /// The context expressions of the items, and the body.
    With { items: Vec<Expr>, body: Vec<Stmt> },
    /// The body, and the body of each handler.
    Try { body: Vec<Stmt>, handlers: Vec<Vec<Stmt>> },
    Raise,
    Import,
    ImportFrom,
    Expr(Expr),
    Other,
}

/// A module: its statements.
pub struct Module {
    pub body: Vec<Stmt>,
}

} // verus!
