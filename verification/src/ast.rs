//! Core AST and type definitions shared across later phases, and the static
//! type checker for annotated functions.

use vstd::prelude::*;

use crate::lowering::{stmt_has_last, stmt_has_next};


use crate::annotations::FunctionSpec;
use crate::assoc::{NameMap, ViewClone};
use crate::facts::{
    facts_common, facts_without, false_facts, lemma_exprs_view_add, lemma_exprs_view_push, lemma_has_same_contains,
    lemma_mentions_view, true_facts, facts_typing, lemma_facts_typing, lemma_exprs_view_same,
};
use crate::text::{copy_string, decimal, push_str, push_string, push_u64, str_to_string, string_eq};

verus! {

#[derive(Debug, Clone, Copy, PartialEq, Eq, Structural)]
pub enum Type {
    Int,
    Str,
    ArrayInt,
    ArrayStr,
    HashInt,
    HashStr,
}

#[derive(Debug, Clone, Copy, PartialEq, Eq, Structural)]
pub enum ExprType {
    Int,
    Bool,
    Str,
    ArrayInt,
    ArrayStr,
    HashInt,
    HashStr,
}

#[derive(Debug, Clone, Copy, PartialEq, Eq, Structural)]
pub enum Builtin {
    Length,
    Substr,
    Index,
    Scalar,
    Abs,
    Min,
    Max,
    Ord,
    Chr,
    Chomp,
    Reverse,
    Int,
    Contains,
    StartsWith,
    EndsWith,
    Replace,
    CharAt,
}

#[derive(Debug, Clone, Copy, PartialEq, Eq, Structural)]
pub enum AccessKind {
    Array,
    Hash,
}

#[derive(Debug, PartialEq, Eq)]
pub enum Expr {
    Int(i64),
    Bool(bool),
    String(String),
    Variable(String),
    Unary { op: UnaryOp, expr: Box<Expr> },
    Binary { left: Box<Expr>, op: BinaryOp, right: Box<Expr> },
    Ternary { condition: Box<Expr>, then_expr: Box<Expr>, else_expr: Box<Expr> },
    Access { kind: AccessKind, collection: String, index: Box<Expr> },
    Call { function: String, args: Vec<Expr> },
    Builtin { function: Builtin, args: Vec<Expr> },
    Pop { array: String },
}

#[derive(Debug, Clone, Copy, PartialEq, Eq, Structural)]
pub enum UnaryOp {
    Neg,
    Not,
    BitNot,
}

#[derive(Debug, Clone, Copy, PartialEq, Eq, Structural)]
pub enum BinaryOp {
    Add,
    Sub,
    Mul,
    Div,
    Mod,
    Pow,
    Concat,
    Lt,
    Le,
    Gt,
    Ge,
    Eq,
    Ne,
    StrEq,
    StrNe,
    StrLt,
    StrGt,
    StrLe,
    StrGe,
    And,
    Or,
    BitAnd,
    BitOr,
    BitXor,
    Shl,
    Shr,
    Spaceship,
    Cmp,
    Repeat,
}

#[derive(Debug, PartialEq, Eq)]
pub struct FunctionAst {
    pub name: String,
    pub params: Vec<String>,
    pub body: Vec<Stmt>,
}

#[derive(Debug, PartialEq, Eq)]
pub enum Stmt {
    Declare { name: String },
    Assign { name: String, expr: Expr, declaration: bool },
    If { condition: Expr, then_branch: Vec<Stmt>, else_branch: Vec<Stmt> },
    Return(Expr),
    ArrayAssign { name: String, index: Expr, expr: Expr },
    HashAssign { name: String, key: Expr, expr: Expr },
    LoopBoundExceeded,
    Last,
    Next,
    Die(Expr),
    Push { array: String, value: Expr },
    ArrayInit { name: String, elements: Vec<Expr> },
}

#[derive(Debug, Clone, Copy, PartialEq, Eq, Structural)]
pub struct VariableState {
    pub ty: Option<Type>,
    pub initialized: bool,
}

#[derive(Debug, PartialEq, Eq)]
pub enum TypeCheckError {
    ParameterCountMismatch { function: String, expected: usize, actual: usize },
    UndeclaredVariable { function: String, variable: String },
    UninitializedVariable { function: String, variable: String },
    NegativeSubstringArgument { function: String, argument: &'static str },
    UnsafeSubstringStart { function: String },
    UnsafeSubstringLength { function: String },
    TypeMismatch {
        function: String,
        context: &'static str,
        expected: &'static str,
        found: &'static str,
    },
}

impl TypeCheckError {
    /// The text that reports the error.
    pub open spec fn describe(&self) -> Seq<char> {
        match self {
            TypeCheckError::ParameterCountMismatch { function, expected, actual } => "function `"@ + function@ + "` declares "@ + decimal(*expected as nat) + " arguments in `# sig:` but parses "@ + decimal(*actual as nat) + " parameters"@,
            TypeCheckError::UndeclaredVariable { function, variable } => "function `"@ + function@ + "` references undeclared variable `$"@ + variable@ + "`"@,
            TypeCheckError::UninitializedVariable { function, variable } => "function `"@ + function@ + "` reads uninitialized variable `$"@ + variable@ + "`"@,
            TypeCheckError::NegativeSubstringArgument { function, argument } => "function `"@ + function@ + "` uses a negative substring "@ + argument@,
            TypeCheckError::UnsafeSubstringStart { function } => "function `"@ + function@ + "` uses substr without proving the start offset is in bounds"@,
            TypeCheckError::UnsafeSubstringLength { function } => "function `"@ + function@ + "` uses substr without proving the requested length is nonnegative"@,
            TypeCheckError::TypeMismatch { function, context, expected, found } => "function `"@ + function@ + "` expected `"@ + context@ + "` to be "@ + expected@ + " but found "@ + found@,
        }
    }

    /// The text that reports the error.
    pub fn message(&self) -> (r: String)
        ensures
            r@ == self.describe(),
    {
        match self {
            TypeCheckError::ParameterCountMismatch { function, expected, actual } => {
                let mut m = String::new();
                push_str(&mut m, "function `");
                push_string(&mut m, function);
                push_str(&mut m, "` declares ");
                push_u64(&mut m, *expected as u64);
                push_str(&mut m, " arguments in `# sig:` but parses ");
                push_u64(&mut m, *actual as u64);
                push_str(&mut m, " parameters");
                m
            },
            TypeCheckError::UndeclaredVariable { function, variable } => {
                let mut m = String::new();
                push_str(&mut m, "function `");
                push_string(&mut m, function);
                push_str(&mut m, "` references undeclared variable `$");
                push_string(&mut m, variable);
                push_str(&mut m, "`");
                m
            },
            TypeCheckError::UninitializedVariable { function, variable } => {
                let mut m = String::new();
                push_str(&mut m, "function `");
                push_string(&mut m, function);
                push_str(&mut m, "` reads uninitialized variable `$");
                push_string(&mut m, variable);
                push_str(&mut m, "`");
                m
            },
            TypeCheckError::NegativeSubstringArgument { function, argument } => {
                let mut m = String::new();
                push_str(&mut m, "function `");
                push_string(&mut m, function);
                push_str(&mut m, "` uses a negative substring ");
                push_str(&mut m, *argument);
                m
            },
            TypeCheckError::UnsafeSubstringStart { function } => {
                let mut m = String::new();
                push_str(&mut m, "function `");
                push_string(&mut m, function);
                push_str(&mut m, "` uses substr without proving the start offset is in bounds");
                m
            },
            TypeCheckError::UnsafeSubstringLength { function } => {
                let mut m = String::new();
                push_str(&mut m, "function `");
                push_string(&mut m, function);
                push_str(&mut m, "` uses substr without proving the requested length is nonnegative");
                m
            },
            TypeCheckError::TypeMismatch { function, context, expected, found } => {
                let mut m = String::new();
                push_str(&mut m, "function `");
                push_string(&mut m, function);
                push_str(&mut m, "` expected `");
                push_str(&mut m, *context);
                push_str(&mut m, "` to be ");
                push_str(&mut m, *expected);
                push_str(&mut m, " but found ");
                push_str(&mut m, *found);
                m
            },
        }
    }
}

/// A callee's name, argument types and return type.
pub type Signature = (String, Vec<Type>, Type);

/// The number of arguments each builtin takes once parsed (the two-argument
/// form of `substr` is desugared to three arguments).
pub open spec fn builtin_arity_ok(b: Builtin, n: nat) -> bool {
    match b {
        Builtin::Length | Builtin::Scalar | Builtin::Abs | Builtin::Ord | Builtin::Chr
        | Builtin::Chomp | Builtin::Reverse | Builtin::Int => n == 1,
        Builtin::Min | Builtin::Max | Builtin::Contains | Builtin::StartsWith
        | Builtin::EndsWith | Builtin::CharAt => n == 2,
        Builtin::Substr | Builtin::Replace => n == 3,
        Builtin::Index => n == 2 || n == 3,
    }
}

/// Every builtin call inside `e` has an arity that `builtin_arity_ok` admits.
pub open spec fn expr_wf(e: Expr) -> bool
    decreases e,
{
    match e {
        Expr::Unary { expr, .. } => expr_wf(*expr),
        Expr::Binary { left, right, .. } => expr_wf(*left) && expr_wf(*right),
        Expr::Ternary { condition, then_expr, else_expr } => expr_wf(*condition)
            && expr_wf(*then_expr) && expr_wf(*else_expr),
        Expr::Access { index, .. } => expr_wf(*index),
        Expr::Call { args, .. } => forall|i: int| 0 <= i < args@.len() ==> expr_wf(#[trigger] args@[i]),
        Expr::Builtin { function, args } => builtin_arity_ok(function, args@.len())
            && forall|i: int| 0 <= i < args@.len() ==> expr_wf(#[trigger] args@[i]),
        _ => true,
    }
}

/// Every statement in `s` is well formed.
pub open spec fn stmts_wf(s: Seq<Stmt>) -> bool
    decreases s,
{
    forall|i: int| 0 <= i < s.len() ==> stmt_wf(#[trigger] s[i])
}

/// The expressions inside `s` are well formed and array initialisers are non-empty.
pub open spec fn stmt_wf(s: Stmt) -> bool
    decreases s,
{
    match s {
        Stmt::Assign { expr, .. } => expr_wf(expr),
        Stmt::If { condition, then_branch, else_branch } => expr_wf(condition)
            && (forall|i: int| 0 <= i < then_branch@.len() ==> stmt_wf(#[trigger] then_branch@[i]))
            && (forall|i: int| 0 <= i < else_branch@.len() ==> stmt_wf(#[trigger] else_branch@[i])),
        Stmt::Return(e) => expr_wf(e),
        Stmt::ArrayAssign { index, expr, .. } => expr_wf(index) && expr_wf(expr),
        Stmt::HashAssign { key, expr, .. } => expr_wf(key) && expr_wf(expr),
        Stmt::Die(e) => expr_wf(e),
        Stmt::Push { value, .. } => expr_wf(value),
        Stmt::ArrayInit { elements, .. } => elements@.len() > 0
            && forall|i: int| 0 <= i < elements@.len() ==> expr_wf(#[trigger] elements@[i]),
        _ => true,
    }
}

/// Structural equality of expressions, comparing strings and argument lists by value.
pub open spec fn expr_same(a: Expr, b: Expr) -> bool
    decreases a,
{
    match (a, b) {
        (Expr::Int(x), Expr::Int(y)) => x == y,
        (Expr::Bool(x), Expr::Bool(y)) => x == y,
        (Expr::String(x), Expr::String(y)) => x@ == y@,
        (Expr::Variable(x), Expr::Variable(y)) => x@ == y@,
        (Expr::Unary { op: o1, expr: e1 }, Expr::Unary { op: o2, expr: e2 }) => o1 == o2
            && expr_same(*e1, *e2),
        (Expr::Binary { left: l1, op: o1, right: r1 }, Expr::Binary { left: l2, op: o2, right: r2 }) =>
            o1 == o2 && expr_same(*l1, *l2) && expr_same(*r1, *r2),
        (
            Expr::Ternary { condition: c1, then_expr: t1, else_expr: f1 },
            Expr::Ternary { condition: c2, then_expr: t2, else_expr: f2 },
        ) => expr_same(*c1, *c2) && expr_same(*t1, *t2) && expr_same(*f1, *f2),
        (
            Expr::Access { kind: k1, collection: c1, index: i1 },
            Expr::Access { kind: k2, collection: c2, index: i2 },
        ) => k1 == k2 && c1@ == c2@ && expr_same(*i1, *i2),
        (Expr::Call { function: f1, args: a1 }, Expr::Call { function: f2, args: a2 }) => f1@
            == f2@ && a1@.len() == a2@.len() && forall|i: int|
            0 <= i < a1@.len() ==> expr_same(#[trigger] a1@[i], a2@[i]),
        (Expr::Builtin { function: f1, args: a1 }, Expr::Builtin { function: f2, args: a2 }) => f1
            == f2 && a1@.len() == a2@.len() && forall|i: int|
            0 <= i < a1@.len() ==> expr_same(#[trigger] a1@[i], a2@[i]),
        (Expr::Pop { array: x }, Expr::Pop { array: y }) => x@ == y@,
        _ => false,
    }
}

/// Decides `expr_same`.
#[verifier::loop_isolation(false)]
pub fn expr_equal(a: &Expr, b: &Expr) -> (r: bool)
    ensures
        r == expr_same(*a, *b),
    decreases a,
{
    match (a, b) {
        (Expr::Int(x), Expr::Int(y)) => *x == *y,
        (Expr::Bool(x), Expr::Bool(y)) => *x == *y,
        (Expr::String(x), Expr::String(y)) => string_eq(x, y),
        (Expr::Variable(x), Expr::Variable(y)) => string_eq(x, y),
        (Expr::Unary { op: o1, expr: e1 }, Expr::Unary { op: o2, expr: e2 }) => *o1 == *o2
            && expr_equal(e1, e2),
        (Expr::Binary { left: l1, op: o1, right: r1 }, Expr::Binary { left: l2, op: o2, right: r2 }) =>
            *o1 == *o2 && expr_equal(l1, l2) && expr_equal(r1, r2),
        (
            Expr::Ternary { condition: c1, then_expr: t1, else_expr: f1 },
            Expr::Ternary { condition: c2, then_expr: t2, else_expr: f2 },
        ) => expr_equal(c1, c2) && expr_equal(t1, t2) && expr_equal(f1, f2),
        (
            Expr::Access { kind: k1, collection: c1, index: i1 },
            Expr::Access { kind: k2, collection: c2, index: i2 },
        ) => *k1 == *k2 && string_eq(c1, c2) && expr_equal(i1, i2),
        (Expr::Call { function: f1, args: a1 }, Expr::Call { function: f2, args: a2 }) => {
            if !string_eq(f1, f2) || a1.len() != a2.len() {
                return false;
            }
            let mut i: usize = 0;
            while i < a1.len()
                invariant
                    i <= a1.len(),
                    a1.len() == a2.len(),
                    forall|j: int| 0 <= j < i ==> expr_same(#[trigger] a1@[j], a2@[j]),
                decreases a1.len() - i,
            {
                proof {
                    assert(decreases_to!(*a1 => a1@[i as int]));
                }
                if !expr_equal(&a1[i], &a2[i]) {
                    assert(!expr_same(a1@[i as int], a2@[i as int]));
                    return false;
                }
                i += 1;
            }
            true
        },
        (Expr::Builtin { function: f1, args: a1 }, Expr::Builtin { function: f2, args: a2 }) => {
            if *f1 != *f2 || a1.len() != a2.len() {
                return false;
            }
            let mut i: usize = 0;
            while i < a1.len()
                invariant
                    i <= a1.len(),
                    a1.len() == a2.len(),
                    forall|j: int| 0 <= j < i ==> expr_same(#[trigger] a1@[j], a2@[j]),
                decreases a1.len() - i,
            {
                proof {
                    assert(decreases_to!(*a1 => a1@[i as int]));
                }
                if !expr_equal(&a1[i], &a2[i]) {
                    assert(!expr_same(a1@[i as int], a2@[i as int]));
                    return false;
                }
                i += 1;
            }
            true
        },
        (Expr::Pop { array: x }, Expr::Pop { array: y }) => string_eq(x, y),
        _ => false,
    }
}

} // verus!

verus! {

impl View for VariableState {
    type V = VariableState;

    open spec fn view(&self) -> VariableState {
        *self
    }
}

impl ViewClone for VariableState {
    fn view_clone(&self) -> (r: Self) {
        *self
    }
}

/// A callee's argument types and return type.
#[derive(Debug)]
pub struct FunctionSig {
    pub arg_types: Vec<Type>,
    pub ret_type: Type,
}

impl View for FunctionSig {
    type V = (Seq<Type>, Type);

    open spec fn view(&self) -> (Seq<Type>, Type) {
        (self.arg_types@, self.ret_type)
    }
}

/// Types of the variables in scope.
pub type TypeEnv = NameMap<VariableState>;

/// Facts known to hold at a program point, as boolean expressions.
pub type Assumptions = Vec<Expr>;

pub open spec fn expr_type_of(t: Type) -> ExprType {
    match t {
        Type::Int => ExprType::Int,
        Type::Str => ExprType::Str,
        Type::ArrayInt => ExprType::ArrayInt,
        Type::ArrayStr => ExprType::ArrayStr,
        Type::HashInt => ExprType::HashInt,
        Type::HashStr => ExprType::HashStr,
    }
}

/// The expression type of a declared type.
pub fn expr_type_from_type(ty: Type) -> (r: ExprType)
    ensures
        r == expr_type_of(ty),
{
    match ty {
        Type::Int => ExprType::Int,
        Type::Str => ExprType::Str,
        Type::ArrayInt => ExprType::ArrayInt,
        Type::ArrayStr => ExprType::ArrayStr,
        Type::HashInt => ExprType::HashInt,
        Type::HashStr => ExprType::HashStr,
    }
}

pub open spec fn type_label(ty: ExprType) -> &'static str {
    match ty {
        ExprType::Int => "Int",
        ExprType::Bool => "Bool",
        ExprType::Str => "Str",
        ExprType::ArrayInt => "Array<Int>",
        ExprType::ArrayStr => "Array<Str>",
        ExprType::HashInt => "Hash<Str, Int>",
        ExprType::HashStr => "Hash<Str, Str>",
    }
}

/// The name under which a type is written in messages.
pub fn render_expr_type(ty: ExprType) -> (r: &'static str)
    ensures
        r == type_label(ty),
{
    match ty {
        ExprType::Int => "Int",
        ExprType::Bool => "Bool",
        ExprType::Str => "Str",
        ExprType::ArrayInt => "Array<Int>",
        ExprType::ArrayStr => "Array<Str>",
        ExprType::HashInt => "Hash<Str, Int>",
        ExprType::HashStr => "Hash<Str, Str>",
    }
}

/// The declared type that a value of expression type `found` can be stored as,
/// or the mismatch error for booleans.
pub fn expect_assignable_type(function: &str, context: &'static str, found: ExprType) -> (r: Result<Type, TypeCheckError>)
    ensures
        match r {
            Ok(t) => found != ExprType::Bool && expr_type_of(t) == found,
            Err(e) => found == ExprType::Bool && e == (TypeCheckError::TypeMismatch {
                function: e->TypeMismatch_function,
                context,
                expected: "Int, Str, Array<Int>, Array<Str>, Hash<Str, Int>, or Hash<Str, Str>",
                found: "Bool",
            }) && e->TypeMismatch_function@ == function@,
        },
{
    match found {
        ExprType::Int => Ok(Type::Int),
        ExprType::Str => Ok(Type::Str),
        ExprType::ArrayInt => Ok(Type::ArrayInt),
        ExprType::ArrayStr => Ok(Type::ArrayStr),
        ExprType::HashInt => Ok(Type::HashInt),
        ExprType::HashStr => Ok(Type::HashStr),
        ExprType::Bool => Err(
            TypeCheckError::TypeMismatch {
                function: str_to_string(function),
                context,
                expected: "Int, Str, Array<Int>, Array<Str>, Hash<Str, Int>, or Hash<Str, Str>",
                found: render_expr_type(found),
            },
        ),
    }
}

/// A mismatch error for `context`.
fn mismatch(function: &str, context: &'static str, expected: &'static str, found: &'static str) -> (r: TypeCheckError)
    ensures
        r matches TypeCheckError::TypeMismatch { function: f, context: c, expected: e, found: x }
            && f@ == function@ && c == context && e == expected && x == found,
{
    TypeCheckError::TypeMismatch { function: str_to_string(function), context, expected, found }
}

} // verus!

verus! {

/// A copy of `e`.
pub fn clone_expr(e: &Expr) -> (r: Expr)
    ensures
        expr_same(r, *e),
        expr_wf(*e) ==> expr_wf(r),
    decreases e,
{
    match e {
        Expr::Int(v) => Expr::Int(*v),
        Expr::Bool(v) => Expr::Bool(*v),
        Expr::String(s) => Expr::String(copy_string(s)),
        Expr::Variable(s) => Expr::Variable(copy_string(s)),
        Expr::Unary { op, expr } => Expr::Unary { op: *op, expr: Box::new(clone_expr(expr)) },
        Expr::Binary { left, op, right } => Expr::Binary {
            left: Box::new(clone_expr(left)),
            op: *op,
            right: Box::new(clone_expr(right)),
        },
        Expr::Ternary { condition, then_expr, else_expr } => Expr::Ternary {
            condition: Box::new(clone_expr(condition)),
            then_expr: Box::new(clone_expr(then_expr)),
            else_expr: Box::new(clone_expr(else_expr)),
        },
        Expr::Access { kind, collection, index } => Expr::Access {
            kind: *kind,
            collection: copy_string(collection),
            index: Box::new(clone_expr(index)),
        },
        Expr::Call { function, args } => {
            let new_args = clone_exprs(args);
            Expr::Call { function: copy_string(function), args: new_args }
        },
        Expr::Builtin { function, args } => {
            let new_args = clone_exprs(args);
            Expr::Builtin { function: *function, args: new_args }
        },
        Expr::Pop { array } => Expr::Pop { array: copy_string(array) },
    }
}

/// A copy of each expression in `args`.
pub fn clone_exprs(args: &Vec<Expr>) -> (r: Vec<Expr>)
    ensures
        r@.len() == args@.len(),
        forall|i: int| 0 <= i < args@.len() ==> expr_same(#[trigger] r@[i], args@[i]) && (expr_wf(args@[i]) ==> expr_wf(r@[i])),
    decreases args,
{
    let mut out: Vec<Expr> = Vec::new();
    let mut i: usize = 0;
    while i < args.len()
        invariant
            i <= args@.len(),
            out@.len() == i,
            forall|j: int| 0 <= j < i ==> expr_same(#[trigger] out@[j], args@[j]) && (expr_wf(args@[j]) ==> expr_wf(out@[j])),
        decreases args.len() - i,
    {
        proof {
            assert(decreases_to!(*args => args@[i as int]));
        }
        out.push(clone_expr(&args[i]));
        i += 1;
    }
    out
}

/// Whether `expr` mentions variable `name`, directly, as a collection, or as a popped array.
pub open spec fn mentions(expr: Expr, name: Seq<char>) -> bool
    decreases expr,
{
    match expr {
        Expr::Variable(v) => v@ == name,
        Expr::Unary { expr, .. } => mentions(*expr, name),
        Expr::Binary { left, right, .. } => mentions(*left, name) || mentions(*right, name),
        Expr::Ternary { condition, then_expr, else_expr } => mentions(*condition, name)
            || mentions(*then_expr, name) || mentions(*else_expr, name),
        Expr::Access { collection, index, .. } => collection@ == name || mentions(*index, name),
        Expr::Call { args, .. } => exists|i: int| 0 <= i < args@.len() && mentions(#[trigger] args@[i], name),
        Expr::Builtin { args, .. } => exists|i: int| 0 <= i < args@.len() && mentions(#[trigger] args@[i], name),
        Expr::Pop { array } => array@ == name,
        _ => false,
    }
}

/// Decides `mentions`.
#[verifier::loop_isolation(false)]
pub fn references_variable(expr: &Expr, name: &String) -> (r: bool)
    ensures
        r == mentions(*expr, name@),
    decreases expr,
{
    match expr {
        Expr::Variable(v) => string_eq(v, name),
        Expr::Unary { expr, .. } => references_variable(expr, name),
        Expr::Binary { left, right, .. } => references_variable(left, name) || references_variable(right, name),
        Expr::Ternary { condition, then_expr, else_expr } => references_variable(condition, name)
            || references_variable(then_expr, name) || references_variable(else_expr, name),
        Expr::Access { collection, index, .. } => string_eq(collection, name) || references_variable(index, name),
        Expr::Call { args, .. } | Expr::Builtin { args, .. } => {
            let mut i: usize = 0;
            while i < args.len()
                invariant
                    i <= args@.len(),
                    forall|j: int| 0 <= j < i ==> !mentions(#[trigger] args@[j], name@),
                decreases args.len() - i,
            {
                proof {
                    assert(decreases_to!(*args => args@[i as int]));
                }
                if references_variable(&args[i], name) {
                    return true;
                }
                i += 1;
            }
            false
        },
        Expr::Pop { array } => string_eq(array, name),
        Expr::Int(_) | Expr::Bool(_) | Expr::String(_) => false,
    }
}

pub open spec fn is_length_of(e: Expr, value: Expr) -> bool {
    e matches Expr::Builtin { function: Builtin::Length, args } && args@.len() == 1 && expr_same(args@[0], value)
}

/// Whether `e` is `length(value)`.
fn is_length_expr_of(e: &Expr, value: &Expr) -> (r: bool)
    ensures
        r == is_length_of(*e, *value),
{
    match e {
        Expr::Builtin { function: Builtin::Length, args } => args.len() == 1 && expr_equal(&args[0], value),
        _ => false,
    }
}

pub open spec fn negative_literal(expr: Expr) -> bool {
    ||| expr matches Expr::Int(v) && v < 0
    ||| expr matches Expr::Unary { op: UnaryOp::Neg, expr: inner } && (*inner matches Expr::Int(v) && v > 0)
}

/// Whether `expr` is a negative integer literal, written as such or as a negated positive literal.
pub fn is_negative_literal(expr: &Expr) -> (r: bool)
    ensures
        r == negative_literal(*expr),
{
    match expr {
        Expr::Int(v) => *v < 0,
        Expr::Unary { op: UnaryOp::Neg, expr: inner } => match &**inner {
            Expr::Int(v) => *v > 0,
            _ => false,
        },
        _ => false,
    }
}

pub open spec fn implies_nonnegative(target: Expr, assumption: Expr) -> bool {
    match assumption {
        Expr::Binary { left, op, right } => match op {
            BinaryOp::Ge => (expr_same(*left, target) && (*right matches Expr::Int(v) && v >= 0))
                || (expr_same(*right, target) && (*left matches Expr::Int(v) && v <= 0)),
            BinaryOp::Gt => (expr_same(*left, target) && (*right matches Expr::Int(v) && v >= -1))
                || (expr_same(*right, target) && (*left matches Expr::Int(v) && v <= 1)),
            BinaryOp::Le => (expr_same(*right, target) && (*left matches Expr::Int(v) && v >= 0))
                || (expr_same(*left, target) && (*right matches Expr::Int(v) && v <= 0)),
            BinaryOp::Lt => (expr_same(*right, target) && (*left matches Expr::Int(v) && v >= -1))
                || (expr_same(*left, target) && (*right matches Expr::Int(v) && v <= 1)),
            _ => false,
        },
        _ => false,
    }
}

fn int_literal_satisfies(e: &Expr, lo: bool, bound: i64) -> (r: bool)
    ensures
        r == (e matches Expr::Int(v) && (if lo { v >= bound } else { v <= bound })),
{
    match e {
        Expr::Int(v) => if lo { *v >= bound } else { *v <= bound },
        _ => false,
    }
}

/// Whether `assumption` is a comparison of `target` with a literal that bounds it from below by zero.
pub fn assumption_implies_nonnegative(target: &Expr, assumption: &Expr) -> (r: bool)
    ensures
        r == implies_nonnegative(*target, *assumption),
{
    match assumption {
        Expr::Binary { left, op, right } => match op {
            BinaryOp::Ge => (expr_equal(left, target) && int_literal_satisfies(right, true, 0))
                || (expr_equal(right, target) && int_literal_satisfies(left, false, 0)),
            BinaryOp::Gt => (expr_equal(left, target) && int_literal_satisfies(right, true, -1))
                || (expr_equal(right, target) && int_literal_satisfies(left, false, 1)),
            BinaryOp::Le => (expr_equal(right, target) && int_literal_satisfies(left, true, 0))
                || (expr_equal(left, target) && int_literal_satisfies(right, false, 0)),
            BinaryOp::Lt => (expr_equal(right, target) && int_literal_satisfies(left, true, -1))
                || (expr_equal(left, target) && int_literal_satisfies(right, false, 1)),
            _ => false,
        },
        _ => false,
    }
}

pub open spec fn proven_nonnegative(expr: Expr, assumptions: Seq<Expr>) -> bool {
    match expr {
        Expr::Int(v) => v >= 0,
        Expr::Builtin { function: Builtin::Length, .. } => true,
        _ => exists|i: int| 0 <= i < assumptions.len() && implies_nonnegative(expr, #[trigger] assumptions[i]),
    }
}

/// Whether `expr` is known to be non-negative: a non-negative literal, a
/// length, or bounded by one of the assumptions.
#[verifier::loop_isolation(false)]
pub fn is_proven_nonnegative(expr: &Expr, assumptions: &Assumptions) -> (r: bool)
    ensures
        r == proven_nonnegative(*expr, assumptions@),
{
    match expr {
        Expr::Int(v) => *v >= 0,
        Expr::Builtin { function: Builtin::Length, .. } => true,
        _ => {
            let mut i: usize = 0;
            while i < assumptions.len()
                invariant
                    i <= assumptions@.len(),
                    forall|j: int| 0 <= j < i ==> !implies_nonnegative(*expr, #[trigger] assumptions@[j]),
                decreases assumptions.len() - i,
            {
                if assumption_implies_nonnegative(expr, &assumptions[i]) {
                    return true;
                }
                i += 1;
            }
            false
        },
    }
}

pub open spec fn proven_leq_length(expr: Expr, string_expr: Expr, assumptions: Seq<Expr>) -> bool {
    ||| expr matches Expr::Int(0)
    ||| is_length_of(expr, string_expr)
    ||| exists|i: int| 0 <= i < assumptions.len() && #[trigger] implies_leq_length(expr, string_expr, assumptions[i])
}

pub open spec fn implies_leq_length(expr: Expr, string_expr: Expr, assumption: Expr) -> bool {
    match assumption {
        Expr::Binary { left, op, right } => match op {
            BinaryOp::Le | BinaryOp::Lt => expr_same(*left, expr) && is_length_of(*right, string_expr),
            BinaryOp::Ge | BinaryOp::Gt => is_length_of(*left, string_expr) && expr_same(*right, expr),
            _ => false,
        },
        _ => false,
    }
}

/// Whether `expr` is known to be at most `length(string_expr)`.
#[verifier::loop_isolation(false)]
pub fn is_proven_leq_to_length(expr: &Expr, string_expr: &Expr, assumptions: &Assumptions) -> (r: bool)
    ensures
        r == proven_leq_length(*expr, *string_expr, assumptions@),
{
    if let Expr::Int(0) = expr {
        return true;
    }
    if is_length_expr_of(expr, string_expr) {
        return true;
    }
    let mut i: usize = 0;
    while i < assumptions.len()
        invariant
            i <= assumptions@.len(),
            !(expr matches Expr::Int(0)),
            !is_length_of(*expr, *string_expr),
            forall|j: int| 0 <= j < i ==> !#[trigger] implies_leq_length(*expr, *string_expr, assumptions@[j]),
        decreases assumptions.len() - i,
    {
        let hit = match &assumptions[i] {
            Expr::Binary { left, op, right } => match op {
                BinaryOp::Le | BinaryOp::Lt => expr_equal(left, expr) && is_length_expr_of(right, string_expr),
                BinaryOp::Ge | BinaryOp::Gt => is_length_expr_of(left, string_expr) && expr_equal(right, expr),
                _ => false,
            },
            _ => false,
        };
        if hit {
            assert(implies_leq_length(*expr, *string_expr, assumptions@[i as int]));
            return true;
        }
        i += 1;
    }
    false
}

pub open spec fn desugared_substr_length(len: Expr, value: Expr, start: Expr) -> bool {
    len matches Expr::Binary { left, op: BinaryOp::Sub, right } && is_length_of(*left, value) && expr_same(
        *right,
        start,
    )
}

/// Detects the desugared two-argument `substr` length `length(value) - start`.
pub fn is_desugared_substr_length(len: &Expr, value: &Expr, start: &Expr) -> (r: bool)
    ensures
        r == desugared_substr_length(*len, *value, *start),
{
    match len {
        Expr::Binary { left, op: BinaryOp::Sub, right } => is_length_expr_of(left, value) && expr_equal(right, start),
        _ => false,
    }
}

} // verus!

verus! {

pub open spec fn inverse_comparison(op: BinaryOp) -> Option<BinaryOp> {
    match op {
        BinaryOp::Lt => Some(BinaryOp::Ge),
        BinaryOp::Le => Some(BinaryOp::Gt),
        BinaryOp::Gt => Some(BinaryOp::Le),
        BinaryOp::Ge => Some(BinaryOp::Lt),
        BinaryOp::Eq => Some(BinaryOp::Ne),
        BinaryOp::Ne => Some(BinaryOp::Eq),
        BinaryOp::StrEq => Some(BinaryOp::StrNe),
        BinaryOp::StrNe => Some(BinaryOp::StrEq),
        BinaryOp::StrLt => Some(BinaryOp::StrGe),
        BinaryOp::StrLe => Some(BinaryOp::StrGt),
        BinaryOp::StrGt => Some(BinaryOp::StrLe),
        BinaryOp::StrGe => Some(BinaryOp::StrLt),
        _ => None,
    }
}

/// The comparison with the inverse operator, when `op` is a comparison.
pub fn complement_of_comparison(left: &Expr, op: &BinaryOp, right: &Expr) -> (r: Option<Expr>)
    ensures
        match r {
            Some(e) => {
                &&& inverse_comparison(*op) is Some
                &&& e matches Expr::Binary { left: l, op: o, right: rr }
                &&& o == inverse_comparison(*op)->0
                &&& expr_same(*l, *left)
                &&& expr_same(*rr, *right)
                &&& (expr_wf(*left) ==> expr_wf(*l))
                &&& (expr_wf(*right) ==> expr_wf(*rr))
            },
            None => inverse_comparison(*op) is None,
        },
{
    let inverse = match op {
        BinaryOp::Lt => BinaryOp::Ge,
        BinaryOp::Le => BinaryOp::Gt,
        BinaryOp::Gt => BinaryOp::Le,
        BinaryOp::Ge => BinaryOp::Lt,
        BinaryOp::Eq => BinaryOp::Ne,
        BinaryOp::Ne => BinaryOp::Eq,
        BinaryOp::StrEq => BinaryOp::StrNe,
        BinaryOp::StrNe => BinaryOp::StrEq,
        BinaryOp::StrLt => BinaryOp::StrGe,
        BinaryOp::StrLe => BinaryOp::StrGt,
        BinaryOp::StrGt => BinaryOp::StrLe,
        BinaryOp::StrGe => BinaryOp::StrLt,
        _ => return None,
    };
    Some(Expr::Binary { left: Box::new(clone_expr(left)), op: inverse, right: Box::new(clone_expr(right)) })
}

pub open spec fn all_wf(s: Seq<Expr>) -> bool {
    forall|i: int| 0 <= i < s.len() ==> expr_wf(#[trigger] s[i])
}

/// The facts that hold when `expr` is true: the conjuncts of a conjunction,
/// the falsity facts of a negation, nothing for `true`, and otherwise `expr` itself.
pub fn collect_true_assumptions(expr: &Expr) -> (r: Assumptions)
    requires
        expr_wf(*expr),
    ensures
        all_wf(r@),
        exprs_view(r@) == true_facts(expr_view(*expr)),
    decreases expr,
{
    match expr {
        Expr::Unary { op: UnaryOp::Not, expr: inner } => collect_false_assumptions(inner),
        Expr::Binary { left, op: BinaryOp::And, right } => {
            let mut a = collect_true_assumptions(left);
            let mut b = collect_true_assumptions(right);
            let ghost (a0, b0) = (a@, b@);
            a.append(&mut b);
            proof {
                lemma_exprs_view_add(a0, b0);
            }
            a
        },
        Expr::Bool(true) => {
            let v = Vec::new();
            proof {
                assert(exprs_view(v@) =~= Seq::<ExprV>::empty());
            }
            v
        },
        _ => {
            let mut v = Vec::new();
            let c = clone_expr(expr);
            proof {
                lemma_same_view(c, *expr);
                lemma_exprs_view_push(v@, c);
                assert(exprs_view(Seq::<Expr>::empty()) =~= Seq::<ExprV>::empty());
            }
            v.push(c);
            v
        },
    }
}

/// The facts that hold when `expr` is false: the truth facts of a negation,
/// the complement of a comparison, and otherwise `!expr`.
pub fn collect_false_assumptions(expr: &Expr) -> (r: Assumptions)
    requires
        expr_wf(*expr),
    ensures
        all_wf(r@),
        exprs_view(r@) == false_facts(expr_view(*expr)),
    decreases expr,
{
    proof {
        assert(exprs_view(Seq::<Expr>::empty()) =~= Seq::<ExprV>::empty());
    }
    match expr {
        Expr::Unary { op: UnaryOp::Not, expr: inner } => collect_true_assumptions(inner),
        Expr::Binary { left, op, right } => {
            let mut v = Vec::new();
            let f = match complement_of_comparison(left, op, right) {
                Some(c) => {
                    proof {
                        let ghost cg = c;
                        if let Expr::Binary { left: l, right: rr, .. } = cg {
                            lemma_same_view(*l, **left);
                            lemma_same_view(*rr, **right);
                        }
                    }
                    c
                },
                None => {
                    let c = clone_expr(expr);
                    proof {
                        lemma_same_view(c, *expr);
                    }
                    Expr::Unary { op: UnaryOp::Not, expr: Box::new(c) }
                },
            };
            proof {
                lemma_exprs_view_push(v@, f);
            }
            v.push(f);
            v
        },
        _ => {
            let mut v = Vec::new();
            let c = clone_expr(expr);
            proof {
                lemma_same_view(c, *expr);
            }
            let f = Expr::Unary { op: UnaryOp::Not, expr: Box::new(c) };
            proof {
                lemma_exprs_view_push(v@, f);
            }
            v.push(f);
            v
        },
    }
}

pub open spec fn seq_has_same(s: Seq<Expr>, e: Expr) -> bool {
    exists|i: int| 0 <= i < s.len() && expr_same(#[trigger] s[i], e)
}

/// Whether some element of `s` is the same expression as `e`.
pub fn contains_same(s: &Assumptions, e: &Expr) -> (r: bool)
    ensures
        r == seq_has_same(s@, *e),
{
    let mut i: usize = 0;
    while i < s.len()
        invariant
            i <= s@.len(),
            forall|j: int| 0 <= j < i ==> !expr_same(#[trigger] s@[j], *e),
        decreases s.len() - i,
    {
        if expr_equal(&s[i], e) {
            return true;
        }
        i += 1;
    }
    false
}

/// The facts of `left` that `right` also holds.
pub fn intersect_assumptions(left: &Assumptions, right: &Assumptions) -> (r: Assumptions)
    requires
        all_wf(left@),
    ensures
        all_wf(r@),
        exprs_view(r@) == facts_common(exprs_view(left@), exprs_view(right@)),
{
    let mut out: Vec<Expr> = Vec::new();
    let mut i: usize = 0;
    proof {
        assert(exprs_view(out@) =~= Seq::<ExprV>::empty());
        assert(left@.take(0) =~= Seq::<Expr>::empty());
    }
    while i < left.len()
        invariant
            i <= left@.len(),
            all_wf(left@),
            all_wf(out@),
            exprs_view(out@) == facts_common(exprs_view(left@.take(i as int)), exprs_view(right@)),
        decreases left.len() - i,
    {
        proof {
            assert(left@.take(i + 1) =~= left@.take(i as int).push(left@[i as int]));
            lemma_exprs_view_push(left@.take(i as int), left@[i as int]);
            lemma_has_same_contains(right@, left@[i as int]);
            let x = exprs_view(left@.take(i as int)).push(expr_view(left@[i as int]));
            assert(x.drop_last() =~= exprs_view(left@.take(i as int)));
        }
        if contains_same(right, &left[i]) {
            let c = clone_expr(&left[i]);
            proof {
                lemma_same_view(c, left@[i as int]);
                lemma_exprs_view_push(out@, c);
            }
            out.push(c);
        }
        i += 1;
    }
    proof {
        assert(left@.take(i as int) =~= left@);
    }
    out
}

/// The facts that do not mention `name`.
pub fn remove_variable_assumptions(assumptions: &Assumptions, name: &String) -> (r: Assumptions)
    requires
        all_wf(assumptions@),
    ensures
        all_wf(r@),
        exprs_view(r@) == facts_without(exprs_view(assumptions@), name@),
{
    let mut out: Vec<Expr> = Vec::new();
    let mut i: usize = 0;
    proof {
        assert(exprs_view(out@) =~= Seq::<ExprV>::empty());
        assert(assumptions@.take(0) =~= Seq::<Expr>::empty());
    }
    while i < assumptions.len()
        invariant
            i <= assumptions@.len(),
            all_wf(assumptions@),
            all_wf(out@),
            exprs_view(out@) == facts_without(exprs_view(assumptions@.take(i as int)), name@),
        decreases assumptions.len() - i,
    {
        proof {
            assert(assumptions@.take(i + 1) =~= assumptions@.take(i as int).push(assumptions@[i as int]));
            lemma_exprs_view_push(assumptions@.take(i as int), assumptions@[i as int]);
            lemma_mentions_view(assumptions@[i as int], name@);
            let x = exprs_view(assumptions@.take(i as int)).push(expr_view(assumptions@[i as int]));
            assert(x.drop_last() =~= exprs_view(assumptions@.take(i as int)));
        }
        if !references_variable(&assumptions[i], name) {
            let c = clone_expr(&assumptions[i]);
            proof {
                lemma_same_view(c, assumptions@[i as int]);
                lemma_exprs_view_push(out@, c);
            }
            out.push(c);
        }
        i += 1;
    }
    proof {
        assert(assumptions@.take(i as int) =~= assumptions@);
    }
    out
}

/// An expression as a mathematical value: its strings as their characters
/// and its argument lists as sequences.
pub enum ExprV {
    Int(i64),
    Bool(bool),
    Str(Seq<char>),
    Var(Seq<char>),
    Unary(UnaryOp, Box<ExprV>),
    Binary(Box<ExprV>, BinaryOp, Box<ExprV>),
    Ternary(Box<ExprV>, Box<ExprV>, Box<ExprV>),
    Access(AccessKind, Seq<char>, Box<ExprV>),
    Call(Seq<char>, Seq<ExprV>),
    Builtin(Builtin, Seq<ExprV>),
    Pop(Seq<char>),
}

/// The value of an expression.
pub open spec fn expr_view(e: Expr) -> ExprV
    decreases e, 0nat,
{
    match e {
        Expr::Int(v) => ExprV::Int(v),
        Expr::Bool(v) => ExprV::Bool(v),
        Expr::String(s) => ExprV::Str(s@),
        Expr::Variable(n) => ExprV::Var(n@),
        Expr::Unary { op, expr } => ExprV::Unary(op, Box::new(expr_view(*expr))),
        Expr::Binary { left, op, right } => ExprV::Binary(Box::new(expr_view(*left)), op, Box::new(expr_view(*right))),
        Expr::Ternary { condition, then_expr, else_expr } => ExprV::Ternary(
            Box::new(expr_view(*condition)),
            Box::new(expr_view(*then_expr)),
            Box::new(expr_view(*else_expr)),
        ),
        Expr::Access { kind, collection, index } => ExprV::Access(kind, collection@, Box::new(expr_view(*index))),
        Expr::Call { function, args } => ExprV::Call(function@, exprs_view(args@)),
        Expr::Builtin { function, args } => ExprV::Builtin(function, exprs_view(args@)),
        Expr::Pop { array } => ExprV::Pop(array@),
    }
}

/// The values of a list of expressions.
pub open spec fn exprs_view(s: Seq<Expr>) -> Seq<ExprV>
    decreases s, 1nat,
{
    if s.len() == 0 {
        Seq::empty()
    } else {
        exprs_view(s.subrange(0, s.len() - 1)).push(expr_view(s[s.len() - 1]))
    }
}

/// The values of a list are those of its expressions, in order.
pub proof fn lemma_exprs_view(s: Seq<Expr>)
    ensures
        exprs_view(s).len() == s.len(),
        forall|i: int| 0 <= i < s.len() ==> #[trigger] exprs_view(s)[i] == expr_view(s[i]),
    decreases s.len(),
{
    if s.len() > 0 {
        let front = s.subrange(0, s.len() - 1);
        lemma_exprs_view(front);
        assert forall|i: int| 0 <= i < s.len() implies #[trigger] exprs_view(s)[i] == expr_view(s[i]) by {
            if i < s.len() - 1 {
                assert(front[i] == s[i]);
            }
        }
    }
}

/// Expressions that are the same have the same value.
pub proof fn lemma_same_view(a: Expr, b: Expr)
    requires
        expr_same(a, b),
    ensures
        expr_view(a) == expr_view(b),
    decreases a,
{
    match (a, b) {
        (Expr::Unary { expr: e1, .. }, Expr::Unary { expr: e2, .. }) => lemma_same_view(*e1, *e2),
        (Expr::Binary { left: l1, right: r1, .. }, Expr::Binary { left: l2, right: r2, .. }) => {
            lemma_same_view(*l1, *l2);
            lemma_same_view(*r1, *r2);
        },
        (
            Expr::Ternary { condition: c1, then_expr: t1, else_expr: f1 },
            Expr::Ternary { condition: c2, then_expr: t2, else_expr: f2 },
        ) => {
            lemma_same_view(*c1, *c2);
            lemma_same_view(*t1, *t2);
            lemma_same_view(*f1, *f2);
        },
        (Expr::Access { index: i1, .. }, Expr::Access { index: i2, .. }) => lemma_same_view(*i1, *i2),
        (Expr::Call { args: a1, .. }, Expr::Call { args: a2, .. }) | (
            Expr::Builtin { args: a1, .. },
            Expr::Builtin { args: a2, .. },
        ) => {
            lemma_exprs_view(a1@);
            lemma_exprs_view(a2@);
            assert forall|i: int| 0 <= i < a1@.len() implies exprs_view(a1@)[i] == exprs_view(a2@)[i] by {
                assert(decreases_to!(a1 => a1@[i]));
                lemma_same_view(a1@[i], a2@[i]);
            }
            assert(exprs_view(a1@) =~= exprs_view(a2@));
        },
        _ => {},
    }
}

pub proof fn lemma_expr_same_symmetric(a: Expr, b: Expr)
    requires
        expr_same(a, b),
    ensures
        expr_same(b, a),
    decreases a,
{
    match (a, b) {
        (Expr::Unary { expr: e1, .. }, Expr::Unary { expr: e2, .. }) => lemma_expr_same_symmetric(*e1, *e2),
        (Expr::Binary { left: l1, right: r1, .. }, Expr::Binary { left: l2, right: r2, .. }) => {
            lemma_expr_same_symmetric(*l1, *l2);
            lemma_expr_same_symmetric(*r1, *r2);
        },
        (
            Expr::Ternary { condition: c1, then_expr: t1, else_expr: f1 },
            Expr::Ternary { condition: c2, then_expr: t2, else_expr: f2 },
        ) => {
            lemma_expr_same_symmetric(*c1, *c2);
            lemma_expr_same_symmetric(*t1, *t2);
            lemma_expr_same_symmetric(*f1, *f2);
        },
        (Expr::Access { index: i1, .. }, Expr::Access { index: i2, .. }) => lemma_expr_same_symmetric(*i1, *i2),
        (Expr::Call { args: a1, .. }, Expr::Call { args: a2, .. }) | (
            Expr::Builtin { args: a1, .. },
            Expr::Builtin { args: a2, .. },
        ) => {
            assert forall|i: int| 0 <= i < a2@.len() implies expr_same(#[trigger] a2@[i], a1@[i]) by {
                assert(decreases_to!(a1 => a1@[i]));
                lemma_expr_same_symmetric(a1@[i], a2@[i]);
            }
        },
        _ => {},
    }
}

pub proof fn lemma_expr_same_transitive(a: Expr, b: Expr, c: Expr)
    requires
        expr_same(a, b),
        expr_same(b, c),
    ensures
        expr_same(a, c),
    decreases a,
{
    match (a, b, c) {
        (Expr::Unary { expr: e1, .. }, Expr::Unary { expr: e2, .. }, Expr::Unary { expr: e3, .. }) =>
            lemma_expr_same_transitive(*e1, *e2, *e3),
        (
            Expr::Binary { left: l1, right: r1, .. },
            Expr::Binary { left: l2, right: r2, .. },
            Expr::Binary { left: l3, right: r3, .. },
        ) => {
            lemma_expr_same_transitive(*l1, *l2, *l3);
            lemma_expr_same_transitive(*r1, *r2, *r3);
        },
        (
            Expr::Ternary { condition: c1, then_expr: t1, else_expr: f1 },
            Expr::Ternary { condition: c2, then_expr: t2, else_expr: f2 },
            Expr::Ternary { condition: c3, then_expr: t3, else_expr: f3 },
        ) => {
            lemma_expr_same_transitive(*c1, *c2, *c3);
            lemma_expr_same_transitive(*t1, *t2, *t3);
            lemma_expr_same_transitive(*f1, *f2, *f3);
        },
        (Expr::Access { index: i1, .. }, Expr::Access { index: i2, .. }, Expr::Access { index: i3, .. }) =>
            lemma_expr_same_transitive(*i1, *i2, *i3),
        (Expr::Call { args: a1, .. }, Expr::Call { args: a2, .. }, Expr::Call { args: a3, .. }) | (
            Expr::Builtin { args: a1, .. },
            Expr::Builtin { args: a2, .. },
            Expr::Builtin { args: a3, .. },
        ) => {
            assert forall|i: int| 0 <= i < a1@.len() implies expr_same(#[trigger] a1@[i], a3@[i]) by {
                assert(decreases_to!(a1 => a1@[i]));
                lemma_expr_same_transitive(a1@[i], a2@[i], a3@[i]);
            }
        },
        _ => {},
    }
}

pub proof fn lemma_same_mentions(a: Expr, b: Expr, name: Seq<char>)
    requires
        expr_same(a, b),
    ensures
        mentions(a, name) == mentions(b, name),
    decreases a,
{
    match (a, b) {
        (Expr::Unary { expr: e1, .. }, Expr::Unary { expr: e2, .. }) => lemma_same_mentions(*e1, *e2, name),
        (Expr::Binary { left: l1, right: r1, .. }, Expr::Binary { left: l2, right: r2, .. }) => {
            lemma_same_mentions(*l1, *l2, name);
            lemma_same_mentions(*r1, *r2, name);
        },
        (
            Expr::Ternary { condition: c1, then_expr: t1, else_expr: f1 },
            Expr::Ternary { condition: c2, then_expr: t2, else_expr: f2 },
        ) => {
            lemma_same_mentions(*c1, *c2, name);
            lemma_same_mentions(*t1, *t2, name);
            lemma_same_mentions(*f1, *f2, name);
        },
        (Expr::Access { index: i1, .. }, Expr::Access { index: i2, .. }) => lemma_same_mentions(*i1, *i2, name),
        (Expr::Call { args: a1, .. }, Expr::Call { args: a2, .. }) | (
            Expr::Builtin { args: a1, .. },
            Expr::Builtin { args: a2, .. },
        ) => {
            assert forall|i: int| 0 <= i < a1@.len() implies mentions(#[trigger] a1@[i], name) == mentions(a2@[i], name) by {
                assert(decreases_to!(a1 => a1@[i]));
                lemma_same_mentions(a1@[i], a2@[i], name);
            }
            if mentions(a, name) {
                let i = choose|i: int| 0 <= i < a1@.len() && mentions(#[trigger] a1@[i], name);
                assert(mentions(a2@[i], name));
            }
            if mentions(b, name) {
                let i = choose|i: int| 0 <= i < a2@.len() && mentions(#[trigger] a2@[i], name);
                assert(mentions(a1@[i], name));
            }
        },
        _ => {},
    }
}

} // verus!

verus! {

/// The expression type of variable `name`: defined when it is declared,
/// initialized and typed.
pub open spec fn var_typing(env: Map<Seq<char>, VariableState>, name: Seq<char>) -> Option<ExprType> {
    if env.contains_key(name) && env[name].initialized && env[name].ty is Some {
        Some(expr_type_of(env[name].ty->0))
    } else {
        None
    }
}

/// The element type of collection `name` accessed as `kind`.
pub open spec fn element_typing(env: Map<Seq<char>, VariableState>, name: Seq<char>, kind: AccessKind) -> Option<ExprType> {
    match (kind, var_typing(env, name)) {
        (AccessKind::Array, Some(ExprType::ArrayInt)) => Some(ExprType::Int),
        (AccessKind::Array, Some(ExprType::ArrayStr)) => Some(ExprType::Str),
        (AccessKind::Hash, Some(ExprType::HashInt)) => Some(ExprType::Int),
        (AccessKind::Hash, Some(ExprType::HashStr)) => Some(ExprType::Str),
        _ => None,
    }
}

/// The type both operands of `op` must have (for every operator but `.` and `x`).
pub open spec fn binary_operand(op: BinaryOp) -> ExprType {
    match op {
        BinaryOp::StrEq | BinaryOp::StrNe | BinaryOp::StrLt | BinaryOp::StrGt | BinaryOp::StrLe
        | BinaryOp::StrGe | BinaryOp::Cmp | BinaryOp::Concat | BinaryOp::Repeat => ExprType::Str,
        BinaryOp::And | BinaryOp::Or => ExprType::Bool,
        _ => ExprType::Int,
    }
}

/// The type of the value of `op`.
pub open spec fn binary_result(op: BinaryOp) -> ExprType {
    match op {
        BinaryOp::Lt | BinaryOp::Le | BinaryOp::Gt | BinaryOp::Ge | BinaryOp::Eq | BinaryOp::Ne
        | BinaryOp::StrEq | BinaryOp::StrNe | BinaryOp::StrLt | BinaryOp::StrGt | BinaryOp::StrLe
        | BinaryOp::StrGe | BinaryOp::And | BinaryOp::Or => ExprType::Bool,
        BinaryOp::Concat | BinaryOp::Repeat => ExprType::Str,
        _ => ExprType::Int,
    }
}

/// Whether a value of this type may be used as text (`.` and `int`).
pub open spec fn text_like(t: Option<ExprType>) -> bool {
    t == Some(ExprType::Str) || t == Some(ExprType::Int)
}

/// The type of the `i`-th argument of a builtin called with `n` arguments.
pub open spec fn builtin_param(b: Builtin, n: nat, i: int) -> ExprType {
    match b {
        Builtin::Abs | Builtin::Min | Builtin::Max | Builtin::Chr => ExprType::Int,
        Builtin::Substr | Builtin::CharAt => if i == 0 { ExprType::Str } else { ExprType::Int },
        Builtin::Index => if i == 2 { ExprType::Int } else { ExprType::Str },
        _ => ExprType::Str,
    }
}

/// The type of the value of a builtin.
pub open spec fn builtin_result(b: Builtin) -> ExprType {
    match b {
        Builtin::Substr | Builtin::Chr | Builtin::Chomp | Builtin::Reverse | Builtin::Replace
        | Builtin::CharAt => ExprType::Str,
        _ => ExprType::Int,
    }
}

/// The safety side conditions of `substr(value, start, len)`: no negative
/// literal, and a start and length that the assumptions show to be in bounds.
pub open spec fn substr_safe(value: Expr, start: Expr, len: Expr, assumptions: Seq<Expr>) -> bool {
    &&& !negative_literal(start)
    &&& !negative_literal(len)
    &&& proven_nonnegative(start, assumptions)
    &&& proven_leq_length(start, value, assumptions)
    &&& (desugared_substr_length(len, value, start) || proven_nonnegative(len, assumptions))
}

/// The typing judgment: the type of `e` under the variable types `env`, the
/// facts `facts` and the callee signatures `sigs`, or `None` where `e` is ill typed.
pub open spec fn typing(
    e: Expr,
    env: Map<Seq<char>, VariableState>,
    facts: Seq<Expr>,
    sigs: Map<Seq<char>, (Seq<Type>, Type)>,
) -> Option<ExprType>
    decreases e,
{
    match e {
        Expr::Int(_) => Some(ExprType::Int),
        Expr::Bool(_) => Some(ExprType::Bool),
        Expr::String(_) => Some(ExprType::Str),
        Expr::Variable(name) => var_typing(env, name@),
        Expr::Unary { op, expr } => {
            let t = if op == UnaryOp::Not { ExprType::Bool } else { ExprType::Int };
            if typing(*expr, env, facts, sigs) == Some(t) { Some(t) } else { None }
        },
        Expr::Binary { left, op, right } => {
            let lt = typing(*left, env, facts, sigs);
            let rt = typing(*right, env, facts, sigs);
            let ok = match op {
                BinaryOp::Concat => text_like(lt) && text_like(rt),
                BinaryOp::Repeat => lt == Some(ExprType::Str) && rt == Some(ExprType::Int),
                _ => lt == Some(binary_operand(op)) && rt == Some(binary_operand(op)),
            };
            if ok { Some(binary_result(op)) } else { None }
        },
        Expr::Ternary { condition, then_expr, else_expr } => {
            let t = typing(*then_expr, env, facts, sigs);
            if typing(*condition, env, facts, sigs) == Some(ExprType::Bool) && t is Some
                && typing(*else_expr, env, facts, sigs) == t {
                t
            } else {
                None
            }
        },
        Expr::Access { kind, collection, index } => {
            let key = if kind == AccessKind::Array { ExprType::Int } else { ExprType::Str };
            if var_typing(env, collection@) is Some && typing(*index, env, facts, sigs) == Some(key) {
                element_typing(env, collection@, kind)
            } else {
                None
            }
        },
        Expr::Call { function, args } => {
            if sigs.contains_key(function@) && sigs[function@].0.len() == args@.len() && (forall|i: int|
                0 <= i < args@.len() ==> typing(#[trigger] args@[i], env, facts, sigs) == Some(
                    expr_type_of(sigs[function@].0[i]),
                )) {
                Some(expr_type_of(sigs[function@].1))
            } else {
                None
            }
        },
        Expr::Builtin { function, args } => match function {
            Builtin::Scalar => {
                let t = if args@.len() > 0 { typing(args@[0], env, facts, sigs) } else { None };
                if t == Some(ExprType::ArrayInt) || t == Some(ExprType::ArrayStr) {
                    Some(ExprType::Int)
                } else {
                    None
                }
            },
            Builtin::Int => if args@.len() > 0 && text_like(typing(args@[0], env, facts, sigs)) {
                Some(ExprType::Int)
            } else {
                None
            },
            _ => {
                if (forall|i: int|
                    0 <= i < args@.len() ==> typing(#[trigger] args@[i], env, facts, sigs) == Some(
                        builtin_param(function, args@.len(), i),
                    )) && (function == Builtin::Substr ==> substr_safe(args@[0], args@[1], args@[2], facts)) {
                    Some(builtin_result(function))
                } else {
                    None
                }
            },
        },
        Expr::Pop { array } => element_typing(env, array@, AccessKind::Array),
    }
}

/// The view of the signature table.
pub type SigView = Map<Seq<char>, (Seq<Type>, Type)>;

/// Type of variable `name`.
fn variable_type(function: &str, name: &String, env: &TypeEnv) -> (r: Result<ExprType, TypeCheckError>)
    requires
        env.wf(),
    ensures
        match r {
            Ok(t) => var_typing(env@, name@) == Some(t),
            Err(_) => var_typing(env@, name@) is None,
        },
{
    match env.get(name) {
        None => Err(TypeCheckError::UndeclaredVariable { function: str_to_string(function), variable: copy_string(name) }),
        Some(state) => {
            if !state.initialized {
                return Err(
                    TypeCheckError::UninitializedVariable { function: str_to_string(function), variable: copy_string(name) },
                );
            }
            match state.ty {
                Some(ty) => Ok(expr_type_from_type(ty)),
                None => Err(
                    TypeCheckError::UninitializedVariable { function: str_to_string(function), variable: copy_string(name) },
                ),
            }
        },
    }
}

/// The element type of collection `name` accessed as `kind`.
fn collection_element_type(function: &str, env: &TypeEnv, name: &String, kind: AccessKind) -> (r: Result<
    ExprType,
    TypeCheckError,
>)
    requires
        env.wf(),
    ensures
        match r {
            Ok(t) => element_typing(env@, name@, kind) == Some(t),
            Err(_) => element_typing(env@, name@, kind) is None,
        },
{
    let ty = variable_type(function, name, env)?;
    match (kind, ty) {
        (AccessKind::Array, ExprType::ArrayInt) => Ok(ExprType::Int),
        (AccessKind::Array, ExprType::ArrayStr) => Ok(ExprType::Str),
        (AccessKind::Hash, ExprType::HashInt) => Ok(ExprType::Int),
        (AccessKind::Hash, ExprType::HashStr) => Ok(ExprType::Str),
        (AccessKind::Array, _) => Err(
            mismatch(function, "array assignment", "Array<Int> or Array<Str>", render_expr_type(ty)),
        ),
        (AccessKind::Hash, _) => Err(
            mismatch(function, "hash assignment", "Hash<Str, Int> or Hash<Str, Str>", render_expr_type(ty)),
        ),
    }
}

fn builtin_param_type(b: Builtin, n: usize, i: usize) -> (r: ExprType)
    ensures
        r == builtin_param(b, n as nat, i as int),
{
    match b {
        Builtin::Abs | Builtin::Min | Builtin::Max | Builtin::Chr => ExprType::Int,
        Builtin::Substr | Builtin::CharAt => if i == 0 { ExprType::Str } else { ExprType::Int },
        Builtin::Index => if i == 2 { ExprType::Int } else { ExprType::Str },
        _ => ExprType::Str,
    }
}

fn builtin_result_type(b: Builtin) -> (r: ExprType)
    ensures
        r == builtin_result(b),
{
    match b {
        Builtin::Substr | Builtin::Chr | Builtin::Chomp | Builtin::Reverse | Builtin::Replace
        | Builtin::CharAt => ExprType::Str,
        _ => ExprType::Int,
    }
}

/// The context under which the `i`-th argument of a builtin is reported.
pub open spec fn builtin_label(b: Builtin, i: int) -> &'static str {
    match b {
        Builtin::Length => "length argument",
        Builtin::Substr => if i == 0int { "substr value" } else if i == 1int { "substr start" } else { "substr length" },
        Builtin::Index => if i == 0int { "index haystack" } else if i == 1int { "index needle" } else { "index start position" },
        Builtin::Abs => "abs argument",
        Builtin::Min | Builtin::Max => "min/max argument",
        Builtin::Ord => "ord argument",
        Builtin::Chr => "chr argument",
        Builtin::Chomp => "chomp argument",
        Builtin::Reverse => "reverse argument",
        Builtin::Contains => if i == 0int { "contains haystack" } else { "contains needle" },
        Builtin::StartsWith => if i == 0int { "starts_with string" } else { "starts_with prefix" },
        Builtin::EndsWith => if i == 0int { "ends_with string" } else { "ends_with suffix" },
        Builtin::Replace => if i == 0int { "replace string" } else if i == 1int { "replace from" } else { "replace to" },
        Builtin::CharAt => if i == 0int { "char_at string" } else { "char_at index" },
        Builtin::Scalar => "scalar argument",
        Builtin::Int => "int argument",
    }
}

/// The context under which the `i`-th argument of a builtin is reported.
fn builtin_context(b: Builtin, i: usize) -> (r: &'static str)
    ensures
        r == builtin_label(b, i as int),
{
    match b {
        Builtin::Length => "length argument",
        Builtin::Substr => if i == 0 { "substr value" } else if i == 1 { "substr start" } else { "substr length" },
        Builtin::Index => if i == 0 { "index haystack" } else if i == 1 { "index needle" } else { "index start position" },
        Builtin::Abs => "abs argument",
        Builtin::Min | Builtin::Max => "min/max argument",
        Builtin::Ord => "ord argument",
        Builtin::Chr => "chr argument",
        Builtin::Chomp => "chomp argument",
        Builtin::Reverse => "reverse argument",
        Builtin::Contains => if i == 0 { "contains haystack" } else { "contains needle" },
        Builtin::StartsWith => if i == 0 { "starts_with string" } else { "starts_with prefix" },
        Builtin::EndsWith => if i == 0 { "ends_with string" } else { "ends_with suffix" },
        Builtin::Replace => if i == 0 { "replace string" } else if i == 1 { "replace from" } else { "replace to" },
        Builtin::CharAt => if i == 0 { "char_at string" } else { "char_at index" },
        Builtin::Scalar => "scalar argument",
        Builtin::Int => "int argument",
    }
}

/// Checks that `expr` has type `expected`.
pub fn expect_expr_type(
    function: &str,
    context: &'static str,
    expr: &Expr,
    env: &TypeEnv,
    assumptions: &Assumptions,
    expected: ExprType,
    signatures: &NameMap<FunctionSig>,
) -> (r: Result<(), TypeCheckError>)
    requires
        env.wf(),
        signatures.wf(),
        expr_wf(*expr),
    ensures
        r is Ok <==> typing(*expr, env@, assumptions@, signatures@) == Some(expected),
    decreases expr, 2nat,
{
    let found = infer_expr_type(function, expr, env, assumptions, signatures)?;
    if found == expected {
        Ok(())
    } else {
        Err(mismatch(function, context, render_expr_type(expected), render_expr_type(found)))
    }
}

/// The type of `expr`, or the first type error found in it.
pub fn infer_expr_type(
    function: &str,
    expr: &Expr,
    env: &TypeEnv,
    assumptions: &Assumptions,
    signatures: &NameMap<FunctionSig>,
) -> (r: Result<ExprType, TypeCheckError>)
    requires
        env.wf(),
        signatures.wf(),
        expr_wf(*expr),
    ensures
        match r {
            Ok(t) => typing(*expr, env@, assumptions@, signatures@) == Some(t),
            Err(_) => typing(*expr, env@, assumptions@, signatures@) is None,
        },
    decreases expr, 1nat,
{
    match expr {
        Expr::Int(_) => Ok(ExprType::Int),
        Expr::Bool(_) => Ok(ExprType::Bool),
        Expr::String(_) => Ok(ExprType::Str),
        Expr::Variable(name) => variable_type(function, name, env),
        Expr::Unary { op, expr: inner } => match op {
            UnaryOp::Neg => {
                expect_expr_type(function, "unary negation", inner, env, assumptions, ExprType::Int, signatures)?;
                Ok(ExprType::Int)
            },
            UnaryOp::Not => {
                expect_expr_type(function, "logical negation", inner, env, assumptions, ExprType::Bool, signatures)?;
                Ok(ExprType::Bool)
            },
            UnaryOp::BitNot => {
                expect_expr_type(function, "bitwise complement", inner, env, assumptions, ExprType::Int, signatures)?;
                Ok(ExprType::Int)
            },
        },
        Expr::Binary { .. } => infer_binary_type(function, expr, env, assumptions, signatures),
        Expr::Access { kind, collection, index } => {
            let collection_type = variable_type(function, collection, env)?;
            match kind {
                AccessKind::Array => {
                    expect_expr_type(function, "array index", index, env, assumptions, ExprType::Int, signatures)?;
                    match collection_type {
                        ExprType::ArrayInt => Ok(ExprType::Int),
                        ExprType::ArrayStr => Ok(ExprType::Str),
                        _ => Err(
                            mismatch(function, "array access", "Array<Int> or Array<Str>", render_expr_type(collection_type)),
                        ),
                    }
                },
                AccessKind::Hash => {
                    expect_expr_type(function, "hash key", index, env, assumptions, ExprType::Str, signatures)?;
                    match collection_type {
                        ExprType::HashInt => Ok(ExprType::Int),
                        ExprType::HashStr => Ok(ExprType::Str),
                        _ => Err(
                            mismatch(
                                function,
                                "hash access",
                                "Hash<Str, Int> or Hash<Str, Str>",
                                render_expr_type(collection_type),
                            ),
                        ),
                    }
                },
            }
        },
        Expr::Call { .. } => infer_call_type(function, expr, env, assumptions, signatures),
        Expr::Builtin { .. } => infer_builtin_type(function, expr, env, assumptions, signatures),
        Expr::Ternary { condition, then_expr, else_expr } => {
            expect_expr_type(function, "ternary condition", condition, env, assumptions, ExprType::Bool, signatures)?;
            let then_type = infer_expr_type(function, then_expr, env, assumptions, signatures)?;
            let else_type = infer_expr_type(function, else_expr, env, assumptions, signatures)?;
            if then_type != else_type {
                return Err(mismatch(function, "ternary branches", render_expr_type(then_type), render_expr_type(else_type)));
            }
            Ok(then_type)
        },
        Expr::Pop { array } => collection_element_type(function, env, array, AccessKind::Array),
    }
}

/// The type of a binary expression.
fn infer_binary_type(
    function: &str,
    expr: &Expr,
    env: &TypeEnv,
    assumptions: &Assumptions,
    signatures: &NameMap<FunctionSig>,
) -> (r: Result<ExprType, TypeCheckError>)
    requires
        env.wf(),
        signatures.wf(),
        expr_wf(*expr),
        expr is Binary,
    ensures
        match r {
            Ok(t) => typing(*expr, env@, assumptions@, signatures@) == Some(t),
            Err(_) => typing(*expr, env@, assumptions@, signatures@) is None,
        },
    decreases expr, 0nat,
{
    let Expr::Binary { left, op, right } = expr else { return Err(mismatch(function, "expression", "", "")) };
    match op {
        BinaryOp::Concat => {
            let left_ty = infer_expr_type(function, left, env, assumptions, signatures)?;
            if left_ty != ExprType::Str && left_ty != ExprType::Int {
                return Err(mismatch(function, "concat operand", "Str or Int", render_expr_type(left_ty)));
            }
            let right_ty = infer_expr_type(function, right, env, assumptions, signatures)?;
            if right_ty != ExprType::Str && right_ty != ExprType::Int {
                return Err(mismatch(function, "concat operand", "Str or Int", render_expr_type(right_ty)));
            }
            Ok(ExprType::Str)
        },
        BinaryOp::Repeat => {
            expect_expr_type(function, "repeat operand", left, env, assumptions, ExprType::Str, signatures)?;
            expect_expr_type(function, "repeat count", right, env, assumptions, ExprType::Int, signatures)?;
            Ok(ExprType::Str)
        },
        _ => {
            let (context, operand, result) = match op {
                BinaryOp::Lt | BinaryOp::Le | BinaryOp::Gt | BinaryOp::Ge => (
                    "comparison operand",
                    ExprType::Int,
                    ExprType::Bool,
                ),
                BinaryOp::Eq | BinaryOp::Ne => ("equality operand", ExprType::Int, ExprType::Bool),
                BinaryOp::StrEq | BinaryOp::StrNe | BinaryOp::StrLt | BinaryOp::StrGt | BinaryOp::StrLe
                | BinaryOp::StrGe => ("string comparison operand", ExprType::Str, ExprType::Bool),
                BinaryOp::Cmp => ("string comparison operand", ExprType::Str, ExprType::Int),
                BinaryOp::And | BinaryOp::Or => ("boolean operand", ExprType::Bool, ExprType::Bool),
                _ => ("arithmetic operand", ExprType::Int, ExprType::Int),
            };
            expect_expr_type(function, context, left, env, assumptions, operand, signatures)?;
            expect_expr_type(function, context, right, env, assumptions, operand, signatures)?;
            Ok(result)
        },
    }
}

/// The type of a call of an annotated function.
#[verifier::loop_isolation(false)]
fn infer_call_type(
    function: &str,
    expr: &Expr,
    env: &TypeEnv,
    assumptions: &Assumptions,
    signatures: &NameMap<FunctionSig>,
) -> (r: Result<ExprType, TypeCheckError>)
    requires
        env.wf(),
        signatures.wf(),
        expr_wf(*expr),
        expr is Call,
    ensures
        match r {
            Ok(t) => typing(*expr, env@, assumptions@, signatures@) == Some(t),
            Err(_) => typing(*expr, env@, assumptions@, signatures@) is None,
        },
    decreases expr, 0nat,
{
    let Expr::Call { function: callee, args } = expr else { return Err(mismatch(function, "expression", "", "")) };
    let sig = match signatures.get(callee) {
        Some(s) => s,
        None => {
            return Err(
                TypeCheckError::UndeclaredVariable { function: str_to_string(function), variable: copy_string(callee) },
            );
        },
    };
    if sig.arg_types.len() != args.len() {
        return Err(mismatch(function, "function call arity", "matching signature arity", "different arity"));
    }
    let mut i: usize = 0;
    while i < args.len()
        invariant
            i <= args@.len(),
            forall|j: int| 0 <= j < i ==> typing(#[trigger] args@[j], env@, assumptions@, signatures@) == Some(
                expr_type_of(sig.arg_types@[j]),
            ),
        decreases args.len() - i,
    {
        proof {
            assert(decreases_to!(*expr => args@[i as int]));
        }
        let expected = expr_type_from_type(sig.arg_types[i]);
        expect_expr_type(function, "function argument", &args[i], env, assumptions, expected, signatures)?;
        i += 1;
    }
    Ok(expr_type_from_type(sig.ret_type))
}

/// The type of a builtin call.
#[verifier::loop_isolation(false)]
fn infer_builtin_type(
    function: &str,
    expr: &Expr,
    env: &TypeEnv,
    assumptions: &Assumptions,
    signatures: &NameMap<FunctionSig>,
) -> (r: Result<ExprType, TypeCheckError>)
    requires
        env.wf(),
        signatures.wf(),
        expr_wf(*expr),
        expr is Builtin,
    ensures
        match r {
            Ok(t) => typing(*expr, env@, assumptions@, signatures@) == Some(t),
            Err(_) => typing(*expr, env@, assumptions@, signatures@) is None,
        },
    decreases expr, 0nat,
{
    let Expr::Builtin { function: builtin, args } = expr else { return Err(mismatch(function, "expression", "", "")) };
    proof {
        assert(decreases_to!(*expr => args@[0]));
    }
    match builtin {
        Builtin::Scalar => {
            let array_type = infer_expr_type(function, &args[0], env, assumptions, signatures)?;
            match array_type {
                ExprType::ArrayInt | ExprType::ArrayStr => Ok(ExprType::Int),
                _ => Err(mismatch(function, "scalar argument", "Array<Int> or Array<Str>", render_expr_type(array_type))),
            }
        },
        Builtin::Int => {
            let arg_type = infer_expr_type(function, &args[0], env, assumptions, signatures)?;
            if arg_type != ExprType::Str && arg_type != ExprType::Int {
                return Err(mismatch(function, "int argument", "Str or Int", render_expr_type(arg_type)));
            }
            Ok(ExprType::Int)
        },
        _ => {
            let mut i: usize = 0;
            while i < args.len()
                invariant
                    i <= args@.len(),
                    forall|j: int| 0 <= j < i ==> typing(#[trigger] args@[j], env@, assumptions@, signatures@) == Some(
                        builtin_param(*builtin, args@.len(), j),
                    ),
                decreases args.len() - i,
            {
                proof {
                    assert(decreases_to!(*expr => args@[i as int]));
                }
                let expected = builtin_param_type(*builtin, args.len(), i);
                expect_expr_type(function, builtin_context(*builtin, i), &args[i], env, assumptions, expected, signatures)?;
                i += 1;
            }
            if let Builtin::Substr = builtin {
                check_substr_safety(function, &args[0], &args[1], &args[2], assumptions)?;
            }
            Ok(builtin_result_type(*builtin))
        },
    }
}

/// The bounds checks of `substr(value, start, len)`.
fn check_substr_safety(function: &str, value: &Expr, start: &Expr, len: &Expr, assumptions: &Assumptions) -> (r: Result<
    (),
    TypeCheckError,
>)
    ensures
        r is Ok <==> substr_safe(*value, *start, *len, assumptions@),
{
    if is_negative_literal(start) {
        return Err(TypeCheckError::NegativeSubstringArgument { function: str_to_string(function), argument: "start" });
    }
    if is_negative_literal(len) {
        return Err(TypeCheckError::NegativeSubstringArgument { function: str_to_string(function), argument: "length" });
    }
    if !is_proven_nonnegative(start, assumptions) || !is_proven_leq_to_length(start, value, assumptions) {
        return Err(TypeCheckError::UnsafeSubstringStart { function: str_to_string(function) });
    }
    if !is_desugared_substr_length(len, value, start) && !is_proven_nonnegative(len, assumptions) {
        return Err(TypeCheckError::UnsafeSubstringLength { function: str_to_string(function) });
    }
    Ok(())
}

} // verus!

verus! {

/// The state of `k` after a branch: its state there, or else its state before.
pub open spec fn branch_state(
    base: Map<Seq<char>, VariableState>,
    branch: Map<Seq<char>, VariableState>,
    k: Seq<char>,
) -> Option<VariableState> {
    if branch.contains_key(k) {
        Some(branch[k])
    } else if base.contains_key(k) {
        Some(base[k])
    } else {
        None
    }
}

/// Two optional types agree unless both are known and differ.
pub open spec fn types_agree(left: Option<Type>, right: Option<Type>) -> bool {
    !(left is Some && right is Some && left != right)
}

/// The known one of two agreeing optional types.
pub open spec fn unified_type(left: Option<Type>, right: Option<Type>) -> Option<Type> {
    if left is Some { left } else { right }
}

/// The state of `k` after both branches of an `if`: initialized when both
/// branches initialize it, with the branches' type when it is, and its type
/// before the `if` otherwise.
pub open spec fn merged_state(
    base: Map<Seq<char>, VariableState>,
    then_env: Map<Seq<char>, VariableState>,
    else_env: Map<Seq<char>, VariableState>,
    k: Seq<char>,
) -> VariableState {
    let t = branch_state(base, then_env, k)->0;
    let e = branch_state(base, else_env, k)->0;
    let initialized = t.initialized && e.initialized;
    let base_ty = if base.contains_key(k) { base[k].ty } else { None };
    let ty = if initialized && unified_type(t.ty, e.ty) is Some { unified_type(t.ty, e.ty) } else { base_ty };
    VariableState { ty, initialized }
}

/// `k` is known after both branches.
pub open spec fn known_after_both(
    base: Map<Seq<char>, VariableState>,
    then_env: Map<Seq<char>, VariableState>,
    else_env: Map<Seq<char>, VariableState>,
    k: Seq<char>,
) -> bool {
    branch_state(base, then_env, k) is Some && branch_state(base, else_env, k) is Some
}

/// The common type of two optional types, or a mismatch error when both are known and differ.
pub fn unify_optional_type(function: &str, context: &'static str, left: Option<Type>, right: Option<Type>) -> (r: Result<
    Option<Type>,
    TypeCheckError,
>)
    ensures
        match r {
            Ok(t) => types_agree(left, right) && t == unified_type(left, right),
            Err(e) => {
                &&& !types_agree(left, right)
                &&& e matches TypeCheckError::TypeMismatch { function: f, context: c, .. }
                &&& f@ == function@
                &&& c == context
            },
        },
{
    match (left, right) {
        (Some(l), Some(rt)) => {
            if l != rt {
                Err(
                    mismatch(
                        function,
                        context,
                        render_expr_type(expr_type_from_type(l)),
                        render_expr_type(expr_type_from_type(rt)),
                    ),
                )
            } else {
                Ok(Some(l))
            }
        },
        (Some(l), None) => Ok(Some(l)),
        (None, Some(rt)) => Ok(Some(rt)),
        (None, None) => Ok(None),
    }
}

fn lookup_state(env: &TypeEnv, k: &String) -> (r: Option<VariableState>)
    requires
        env.wf(),
    ensures
        r == (if env@.contains_key(k@) { Some(env@[k@]) } else { None::<VariableState> }),
{
    match env.get(k) {
        Some(s) => Some(*s),
        None => None,
    }
}

/// The variable states after an `if`, from the states before it and after each branch.
pub fn merge_branch_envs(function: &str, base: &TypeEnv, then_env: &TypeEnv, else_env: &TypeEnv) -> (r: Result<
    TypeEnv,
    TypeCheckError,
>)
    requires
        base.wf(),
        then_env.wf(),
        else_env.wf(),
    ensures
        match r {
            Ok(m) => {
                &&& m.wf()
                &&& forall|k: Seq<char>| #[trigger] m@.contains_key(k) <==> known_after_both(base@, then_env@, else_env@, k)
                &&& forall|k: Seq<char>| #[trigger] m@.contains_key(k) ==> m@[k] == merged_state(base@, then_env@, else_env@, k)
                    && types_agree(branch_state(base@, then_env@, k)->0.ty, branch_state(base@, else_env@, k)->0.ty)
            },
            Err(_) => exists|k: Seq<char>| #[trigger] known_after_both(base@, then_env@, else_env@, k)
                && !types_agree(branch_state(base@, then_env@, k)->0.ty, branch_state(base@, else_env@, k)->0.ty),
        },
{
    let mut keys = base.keys();
    let mut then_keys = then_env.keys();
    let mut else_keys = else_env.keys();
    keys.append(&mut then_keys);
    keys.append(&mut else_keys);
    let ghost all_keys = base.key_seq() + then_env.key_seq() + else_env.key_seq();
    assert(keys@.len() == all_keys.len());
    assert(forall|j: int| 0 <= j < keys@.len() ==> (#[trigger] keys@[j])@ == all_keys[j]);
    let mut merged: TypeEnv = NameMap::new();
    let mut i: usize = 0;
    while i < keys.len()
        invariant
            i <= keys@.len(),
            base.wf(),
            then_env.wf(),
            else_env.wf(),
            merged.wf(),
            keys@.len() == all_keys.len(),
            forall|j: int| 0 <= j < keys@.len() ==> (#[trigger] keys@[j])@ == all_keys[j],
            forall|k: Seq<char>| #[trigger] merged@.contains_key(k) ==> known_after_both(base@, then_env@, else_env@, k)
                && merged@[k] == merged_state(base@, then_env@, else_env@, k) && types_agree(
                branch_state(base@, then_env@, k)->0.ty,
                branch_state(base@, else_env@, k)->0.ty,
            ),
            forall|j: int| 0 <= j < i && known_after_both(base@, then_env@, else_env@, #[trigger] all_keys[j])
                ==> merged@.contains_key(all_keys[j]),
        decreases keys.len() - i,
    {
        let key = &keys[i];
        let base_state = lookup_state(base, key);
        let then_state = match lookup_state(then_env, key) {
            Some(s) => Some(s),
            None => base_state,
        };
        let else_state = match lookup_state(else_env, key) {
            Some(s) => Some(s),
            None => base_state,
        };
        if let (Some(ts), Some(es)) = (then_state, else_state) {
            let unified = match unify_optional_type(function, "branch assignment", ts.ty, es.ty) {
                Ok(u) => u,
                Err(e) => {
                    assert(known_after_both(base@, then_env@, else_env@, key@));
                    return Err(e);
                },
            };
            let initialized = ts.initialized && es.initialized;
            let base_ty = match base_state {
                Some(b) => b.ty,
                None => None,
            };
            let ty = if initialized && unified.is_some() { unified } else { base_ty };
            merged.insert(copy_string(key), VariableState { ty, initialized });
        }
        i += 1;
    }
    proof {
        base.lemma_keys();
        then_env.lemma_keys();
        else_env.lemma_keys();
        assert forall|k: Seq<char>| known_after_both(base@, then_env@, else_env@, k) implies #[trigger] merged@.contains_key(k) by {
            if base@.contains_key(k) {
                assert(base.key_seq().contains(k));
                let j = choose|j: int| 0 <= j < base.key_seq().len() && base.key_seq()[j] == k;
                assert((base.key_seq() + then_env.key_seq())[j] == k);
                assert(all_keys[j] == k);
                assert(known_after_both(base@, then_env@, else_env@, all_keys[j]));
            } else {
                assert(then_env@.contains_key(k));
                assert(then_env.key_seq().contains(k));
                let j = choose|j: int| 0 <= j < then_env.key_seq().len() && then_env.key_seq()[j] == k;
                let n = base.key_seq().len() + j;
                assert((base.key_seq() + then_env.key_seq())[n] == k);
                assert(all_keys[n] == k);
                assert(known_after_both(base@, then_env@, else_env@, all_keys[n]));
            }
        }
    }
    Ok(merged)
}

} // verus!

verus! {

/// A copy of each fact.
fn copy_facts(facts: &Assumptions) -> (r: Assumptions)
    requires
        all_wf(facts@),
    ensures
        all_wf(r@),
        r@.len() == facts@.len(),
        forall|i: int| 0 <= i < r@.len() ==> expr_same(#[trigger] r@[i], facts@[i]),
{
    clone_exprs(facts)
}

/// The declared type that stores a value of expression type `t`.
pub open spec fn assignable(t: ExprType) -> Type {
    match t {
        ExprType::Str => Type::Str,
        ExprType::ArrayInt => Type::ArrayInt,
        ExprType::ArrayStr => Type::ArrayStr,
        ExprType::HashInt => Type::HashInt,
        ExprType::HashStr => Type::HashStr,
        _ => Type::Int,
    }
}

/// The two branches of an `if` agree on the type of every variable known after both.
pub open spec fn branches_agree(
    base: Map<Seq<char>, VariableState>,
    then_env: Map<Seq<char>, VariableState>,
    else_env: Map<Seq<char>, VariableState>,
) -> bool {
    forall|k: Seq<char>| #[trigger]
        known_after_both(base, then_env, else_env, k) ==> types_agree(
            branch_state(base, then_env, k)->0.ty,
            branch_state(base, else_env, k)->0.ty,
        )
}

/// The variable states after an `if`: each variable known after both branches, in its merged state.
pub open spec fn merged_env(
    base: Map<Seq<char>, VariableState>,
    then_env: Map<Seq<char>, VariableState>,
    else_env: Map<Seq<char>, VariableState>,
) -> Map<Seq<char>, VariableState> {
    Map::new(
        |k: Seq<char>| known_after_both(base, then_env, else_env, k),
        |k: Seq<char>| merged_state(base, then_env, else_env, k),
    )
}

/// The states and fact values after statement `s`, or `None` where `s` is ill typed.
pub open spec fn check_stmt(
    s: Stmt,
    env: Map<Seq<char>, VariableState>,
    facts: Seq<ExprV>,
    ret: Type,
    sigs: SigView,
) -> Option<(Map<Seq<char>, VariableState>, Seq<ExprV>)>
    decreases s,
{
    match s {
        Stmt::Declare { name } => Some(
            (env.insert(name@, VariableState { ty: None, initialized: false }), facts_without(facts, name@)),
        ),
        Stmt::Assign { name, expr, declaration } => match facts_typing(expr, env, facts, sigs) {
            Some(t) => if t == ExprType::Bool || (!declaration && (!env.contains_key(name@) || (env[name@].ty is Some
                && env[name@].ty->0 != assignable(t)))) {
                None
            } else {
                Some(
                    (
                        env.insert(name@, VariableState { ty: Some(assignable(t)), initialized: true }),
                        facts_without(facts, name@),
                    ),
                )
            },
            None => None,
        },
        Stmt::ArrayAssign { name, index, expr } => {
            let t = facts_typing(expr, env, facts, sigs);
            if facts_typing(index, env, facts, sigs) == Some(ExprType::Int) && t is Some && element_typing(
                env,
                name@,
                AccessKind::Array,
            ) == t {
                Some((env, facts_without(facts, name@)))
            } else {
                None
            }
        },
        Stmt::HashAssign { name, key, expr } => {
            let t = facts_typing(expr, env, facts, sigs);
            if facts_typing(key, env, facts, sigs) == Some(ExprType::Str) && t is Some && element_typing(
                env,
                name@,
                AccessKind::Hash,
            ) == t {
                Some((env, facts_without(facts, name@)))
            } else {
                None
            }
        },
        Stmt::If { condition, then_branch, else_branch } => {
            let c = expr_view(condition);
            if facts_typing(condition, env, facts, sigs) != Some(ExprType::Bool) {
                None
            } else {
                match check_stmts(then_branch@, env, facts + true_facts(c), ret, sigs) {
                    None => None,
                    Some((te, tf)) => {
                        let other = if else_branch@.len() == 0 {
                            Some((env, facts + false_facts(c)))
                        } else {
                            check_stmts(else_branch@, env, facts + false_facts(c), ret, sigs)
                        };
                        match other {
                            None => None,
                            Some((ee, ef)) => if branches_agree(env, te, ee) {
                                Some((merged_env(env, te, ee), facts_common(tf, ef)))
                            } else {
                                None
                            },
                        }
                    },
                }
            }
        },
        Stmt::Return(e) => if facts_typing(e, env, facts, sigs) == Some(expr_type_of(ret)) {
            Some((env, facts))
        } else {
            None
        },
        Stmt::Push { array, value } => {
            let t = facts_typing(value, env, facts, sigs);
            if t is Some && element_typing(env, array@, AccessKind::Array) == t {
                Some((env, facts))
            } else {
                None
            }
        },
        Stmt::ArrayInit { name, elements } => {
            let t = facts_typing(elements@[0], env, facts, sigs);
            if (t == Some(ExprType::Int) || t == Some(ExprType::Str)) && (forall|i: int|
                1 <= i < elements@.len() ==> facts_typing(#[trigger] elements@[i], env, facts, sigs) == t) {
                let ty = if t == Some(ExprType::Int) { Type::ArrayInt } else { Type::ArrayStr };
                Some((env.insert(name@, VariableState { ty: Some(ty), initialized: true }), facts))
            } else {
                None
            }
        },
        _ => Some((env, facts)),
    }
}

/// The states and fact values after the statements `ss` in order, or `None`
/// where one of them is ill typed.
pub open spec fn check_stmts(
    ss: Seq<Stmt>,
    env: Map<Seq<char>, VariableState>,
    facts: Seq<ExprV>,
    ret: Type,
    sigs: SigView,
) -> Option<(Map<Seq<char>, VariableState>, Seq<ExprV>)>
    decreases ss,
{
    if ss.len() == 0 {
        Some((env, facts))
    } else {
        match check_stmt(ss[0], env, facts, ret, sigs) {
            Some((e, f)) => check_stmts(ss.subrange(1, ss.len() as int), e, f, ret, sigs),
            None => None,
        }
    }
}

/// Checks one statement, updating the variable states and the known facts.
#[verifier::loop_isolation(false)]
#[verifier::spinoff_prover]
#[verifier::rlimit(80)]
pub fn type_check_stmt(
    function: &str,
    stmt: &Stmt,
    env: &mut TypeEnv,
    assumptions: &mut Assumptions,
    return_type: Type,
    signatures: &NameMap<FunctionSig>,
) -> (r: Result<(), TypeCheckError>)
    requires
        old(env).wf(),
        signatures.wf(),
        stmt_wf(*stmt),
        all_wf(old(assumptions)@),
    ensures
        final(env).wf(),
        all_wf(final(assumptions)@),
        match r {
            Ok(()) => {
                &&& check_stmt(*stmt, old(env)@, exprs_view(old(assumptions)@), return_type, signatures@) == Some(
                    (final(env)@, exprs_view(final(assumptions)@)),
                )
                &&& forall|k: Seq<char>| old(env)@.contains_key(k) ==> #[trigger] final(env)@.contains_key(k)
            },
            Err(_) => check_stmt(*stmt, old(env)@, exprs_view(old(assumptions)@), return_type, signatures@) is None,
        },
    decreases stmt,
{
    let ghost env0 = env@;
    let ghost facts0 = assumptions@;
    let ghost fv = exprs_view(assumptions@);
    match stmt {
        Stmt::Declare { name } => {
            env.insert(copy_string(name), VariableState { ty: None, initialized: false });
            *assumptions = remove_variable_assumptions(assumptions, name);
        },
        Stmt::Assign { name, expr, declaration } => {
            proof {
                lemma_facts_typing(*expr, env0, facts0, signatures@);
            }
            let expr_type = infer_expr_type(function, expr, env, assumptions, signatures)?;
            let assign_type = expect_assignable_type(function, "assignment", expr_type)?;
            assert(assign_type == assignable(expr_type));
            if !*declaration {
                let prior = match lookup_state(env, name) {
                    Some(p) => p,
                    None => {
                        return Err(
                            TypeCheckError::UndeclaredVariable {
                                function: str_to_string(function),
                                variable: copy_string(name),
                            },
                        );
                    },
                };
                if let Some(prior_type) = prior.ty {
                    if prior_type != assign_type {
                        return Err(
                            mismatch(
                                function,
                                "assignment",
                                render_expr_type(expr_type_from_type(prior_type)),
                                render_expr_type(expr_type),
                            ),
                        );
                    }
                }
            }
            env.insert(copy_string(name), VariableState { ty: Some(assign_type), initialized: true });
            *assumptions = remove_variable_assumptions(assumptions, name);
        },
        Stmt::ArrayAssign { name, index, expr } => {
            proof {
                lemma_facts_typing(*index, env0, facts0, signatures@);
                lemma_facts_typing(*expr, env0, facts0, signatures@);
            }
            expect_expr_type(function, "array index", index, env, assumptions, ExprType::Int, signatures)?;
            let expr_type = infer_expr_type(function, expr, env, assumptions, signatures)?;
            let element_type = collection_element_type(function, env, name, AccessKind::Array)?;
            if expr_type != element_type {
                return Err(
                    mismatch(function, "array assignment", render_expr_type(element_type), render_expr_type(expr_type)),
                );
            }
            *assumptions = remove_variable_assumptions(assumptions, name);
        },
        Stmt::HashAssign { name, key, expr } => {
            proof {
                lemma_facts_typing(*key, env0, facts0, signatures@);
                lemma_facts_typing(*expr, env0, facts0, signatures@);
            }
            expect_expr_type(function, "hash key", key, env, assumptions, ExprType::Str, signatures)?;
            let expr_type = infer_expr_type(function, expr, env, assumptions, signatures)?;
            let element_type = collection_element_type(function, env, name, AccessKind::Hash)?;
            if expr_type != element_type {
                return Err(
                    mismatch(function, "hash assignment", render_expr_type(element_type), render_expr_type(expr_type)),
                );
            }
            *assumptions = remove_variable_assumptions(assumptions, name);
        },
        Stmt::If { condition, then_branch, else_branch } => {
            proof {
                lemma_facts_typing(*condition, env0, facts0, signatures@);
            }
            expect_expr_type(function, "if condition", condition, env, assumptions, ExprType::Bool, signatures)?;
            let mut then_facts = copy_facts(assumptions);
            let mut extra_then = collect_true_assumptions(condition);
            let ghost (t0, t1) = (then_facts@, extra_then@);
            then_facts.append(&mut extra_then);
            let mut else_facts = copy_facts(assumptions);
            let mut extra_else = collect_false_assumptions(condition);
            let ghost (e0, e1) = (else_facts@, extra_else@);
            else_facts.append(&mut extra_else);
            proof {
                lemma_exprs_view_same(t0, facts0);
                lemma_exprs_view_same(e0, facts0);
                lemma_exprs_view_add(t0, t1);
                lemma_exprs_view_add(e0, e1);
                assert(decreases_to!(*stmt => *then_branch));
                assert(decreases_to!(*stmt => *else_branch));
            }
            let (then_env, then_out) = type_check_stmts(
                function,
                then_branch,
                env,
                &then_facts,
                return_type,
                signatures,
            )?;
            let (else_env, else_out) = if else_branch.len() == 0 {
                (env.duplicate(), else_facts)
            } else {
                type_check_stmts(function, else_branch, env, &else_facts, return_type, signatures)?
            };
            let merged = match merge_branch_envs(function, env, &then_env, &else_env) {
                Ok(m) => m,
                Err(e) => {
                    return Err(e);
                },
            };
            proof {
                assert(then_facts@ == t0 + t1);
                assert(exprs_view(then_facts@) == fv + true_facts(expr_view(*condition)));
                assert(exprs_view(else_facts@) == fv + false_facts(expr_view(*condition)));
                assert(check_stmts(then_branch@, env0, fv + true_facts(expr_view(*condition)), return_type, signatures@)
                    == Some((then_env@, exprs_view(then_out@))));
                assert(branches_agree(env0, then_env@, else_env@)) by {
                    assert forall|k: Seq<char>| #[trigger] known_after_both(env0, then_env@, else_env@, k) implies types_agree(
                        branch_state(env0, then_env@, k)->0.ty,
                        branch_state(env0, else_env@, k)->0.ty,
                    ) by {
                        assert(merged@.contains_key(k));
                    }
                }
                assert(merged@ =~= merged_env(env0, then_env@, else_env@));
                assert forall|k: Seq<char>| env0.contains_key(k) implies #[trigger] merged@.contains_key(k) by {
                    assert(known_after_both(env0, then_env@, else_env@, k));
                }
            }
            *env = merged;
            *assumptions = intersect_assumptions(&then_out, &else_out);
        },
        Stmt::Return(expr) => {
            proof {
                lemma_facts_typing(*expr, env0, facts0, signatures@);
            }
            expect_expr_type(
                function,
                "return expression",
                expr,
                env,
                assumptions,
                expr_type_from_type(return_type),
                signatures,
            )?;
        },
        Stmt::Push { array, value } => {
            proof {
                lemma_facts_typing(*value, env0, facts0, signatures@);
            }
            let expr_type = infer_expr_type(function, value, env, assumptions, signatures)?;
            let element_type = collection_element_type(function, env, array, AccessKind::Array)?;
            if expr_type != element_type {
                return Err(
                    mismatch(function, "push value", render_expr_type(element_type), render_expr_type(expr_type)),
                );
            }
        },
        Stmt::ArrayInit { name, elements } => {
            proof {
                lemma_facts_typing(elements@[0], env0, facts0, signatures@);
            }
            let first_type = infer_expr_type(function, &elements[0], env, assumptions, signatures)?;
            let array_type = match first_type {
                ExprType::Int => Type::ArrayInt,
                ExprType::Str => Type::ArrayStr,
                _ => {
                    return Err(mismatch(function, "array init element", "Int or Str", render_expr_type(first_type)));
                },
            };
            let mut j: usize = 1;
            while j < elements.len()
                invariant
                    1 <= j <= elements@.len(),
                    env.wf(),
                    env@ == env0,
                    assumptions@ == facts0,
                    forall|i: int| 1 <= i < j ==> facts_typing(#[trigger] elements@[i], env0, fv, signatures@) == Some(
                        first_type,
                    ),
                decreases elements.len() - j,
            {
                proof {
                    lemma_facts_typing(elements@[j as int], env0, facts0, signatures@);
                }
                let elem_type = infer_expr_type(function, &elements[j], env, assumptions, signatures)?;
                if elem_type != first_type {
                    return Err(
                        mismatch(
                            function,
                            "array init element",
                            render_expr_type(first_type),
                            render_expr_type(elem_type),
                        ),
                    );
                }
                j += 1;
            }
            env.insert(copy_string(name), VariableState { ty: Some(array_type), initialized: true });
        },
        Stmt::LoopBoundExceeded | Stmt::Last | Stmt::Next | Stmt::Die(_) => {},
    }
    Ok(())
}

/// Checks a statement list, threading the variable states and the known facts
/// through it; returns the states and facts after the last statement.
pub fn type_check_stmts(
    function: &str,
    stmts: &Vec<Stmt>,
    env: &TypeEnv,
    assumptions: &Assumptions,
    return_type: Type,
    signatures: &NameMap<FunctionSig>,
) -> (r: Result<(TypeEnv, Assumptions), TypeCheckError>)
    requires
        env.wf(),
        signatures.wf(),
        stmts_wf(stmts@),
        all_wf(assumptions@),
    ensures
        match r {
            Ok((e, a)) => {
                &&& e.wf()
                &&& all_wf(a@)
                &&& check_stmts(stmts@, env@, exprs_view(assumptions@), return_type, signatures@) == Some(
                    (e@, exprs_view(a@)),
                )
                &&& forall|k: Seq<char>| env@.contains_key(k) ==> #[trigger] e@.contains_key(k)
            },
            Err(_) => check_stmts(stmts@, env@, exprs_view(assumptions@), return_type, signatures@) is None,
        },
    decreases stmts,
{
    let mut state = env.duplicate();
    let mut facts = copy_facts(assumptions);
    let ghost env0 = env@;
    let ghost fv0 = exprs_view(assumptions@);
    proof {
        lemma_exprs_view_same(facts@, assumptions@);
        assert(stmts@.subrange(0, stmts@.len() as int) =~= stmts@);
    }
    let mut i: usize = 0;
    while i < stmts.len()
        invariant
            i <= stmts@.len(),
            state.wf(),
            signatures.wf(),
            stmts_wf(stmts@),
            all_wf(facts@),
            env0 == env@,
            fv0 == exprs_view(assumptions@),
            check_stmts(stmts@, env0, fv0, return_type, signatures@) == check_stmts(
                stmts@.subrange(i as int, stmts@.len() as int),
                state@,
                exprs_view(facts@),
                return_type,
                signatures@,
            ),
            forall|k: Seq<char>| env0.contains_key(k) ==> #[trigger] state@.contains_key(k),
        decreases stmts.len() - i,
    {
        proof {
            assert(decreases_to!(*stmts => stmts@[i as int]));
            assert(stmt_wf(stmts@[i as int]));
            let rest = stmts@.subrange(i as int, stmts@.len() as int);
            assert(rest[0] == stmts@[i as int]);
            assert(rest.subrange(1, rest.len() as int) =~= stmts@.subrange(i + 1, stmts@.len() as int));
        }
        let ghost s0 = state@;
        let ghost f0 = exprs_view(facts@);
        match type_check_stmt(function, &stmts[i], &mut state, &mut facts, return_type, signatures) {
            Ok(()) => {},
            Err(e) => {
                assert(check_stmt(stmts@[i as int], s0, f0, return_type, signatures@) is None);
                assert(check_stmts(stmts@.subrange(i as int, stmts@.len() as int), s0, f0, return_type, signatures@) is None);
                return Err(e);
            },
        }
        i += 1;
    }
    Ok((state, facts))
}

} // verus!

verus! {

/// The variable states at function entry: each parameter initialized with its declared type.
pub open spec fn param_env(params: Seq<String>, types: Seq<Type>) -> Map<Seq<char>, VariableState>
    decreases params.len(),
{
    if params.len() == 0 || types.len() == 0 {
        Map::empty()
    } else {
        param_env(params.drop_last(), types.drop_last()).insert(
            params.last()@,
            VariableState { ty: Some(types.last()), initialized: true },
        )
    }
}

impl View for FunctionAst {
    type V = FunctionAst;

    open spec fn view(&self) -> FunctionAst {
        *self
    }
}

impl FunctionAst {
    /// Every statement of the body is well formed.
    pub open spec fn wf(&self) -> bool {
        stmts_wf(self.body@)
    }
}

/// Whether an annotated function type checks against its contract: its
/// signature gives each parameter a type, its precondition is boolean, its
/// body is well typed from the parameters under the facts of the
/// precondition, and its postcondition is boolean afterwards, with `$result`
/// of the declared return type.
pub open spec fn function_typechecks(spec: FunctionSpec, function: FunctionAst, sigs: SigView) -> bool {
    let entry = param_env(function.params@, spec.arg_types@);
    let facts = true_facts(expr_view(spec.pre));
    &&& spec.arg_types@.len() == function.params@.len()
    &&& facts_typing(spec.pre, entry, facts, sigs) == Some(ExprType::Bool)
    &&& match check_stmts(function.body@, entry, facts, spec.ret_type, sigs) {
        Some((after, post_facts)) => facts_typing(
            spec.post,
            after.insert(seq!['r', 'e', 's', 'u', 'l', 't'], VariableState { ty: Some(spec.ret_type), initialized: true }),
            post_facts,
            sigs,
        ) == Some(ExprType::Bool),
        None => false,
    }
}

/// Type checks an annotated function against its contract, with no callee signatures.
pub fn type_check_function(spec: &FunctionSpec, function: &FunctionAst) -> (r: Result<(), TypeCheckError>)
    requires
        spec.wf(),
        function.wf(),
    ensures
        (spec.arg_types@.len() != function.params@.len()) ==> (r matches Err(
            TypeCheckError::ParameterCountMismatch { function: f, expected, actual },
        ) && f@ == function.name@ && expected == spec.arg_types@.len() && actual == function.params@.len()),
        r is Ok <==> function_typechecks(*spec, *function, Map::empty()),
{
    let signatures: NameMap<FunctionSig> = NameMap::new();
    type_check_function_with_signatures(spec, function, &signatures)
}

/// Type checks an annotated function against its contract, where calls may
/// go to the functions of `signatures`.
pub fn type_check_function_with_signatures(
    spec: &FunctionSpec,
    function: &FunctionAst,
    signatures: &NameMap<FunctionSig>,
) -> (r: Result<(), TypeCheckError>)
    requires
        spec.wf(),
        function.wf(),
        signatures.wf(),
    ensures
        (spec.arg_types@.len() != function.params@.len()) ==> (r matches Err(
            TypeCheckError::ParameterCountMismatch { function: f, expected, actual },
        ) && f@ == function.name@ && expected == spec.arg_types@.len() && actual == function.params@.len()),
        r is Ok <==> function_typechecks(*spec, *function, signatures@),
{
    if spec.arg_types.len() != function.params.len() {
        return Err(
            TypeCheckError::ParameterCountMismatch {
                function: copy_string(&function.name),
                expected: spec.arg_types.len(),
                actual: function.params.len(),
            },
        );
    }
    let mut env: TypeEnv = NameMap::new();
    let mut i: usize = 0;
    while i < function.params.len()
        invariant
            i <= function.params@.len(),
            spec.arg_types@.len() == function.params@.len(),
            env.wf(),
            env@ == param_env(function.params@.take(i as int), spec.arg_types@.take(i as int)),
        decreases function.params.len() - i,
    {
        env.insert(copy_string(&function.params[i]), VariableState { ty: Some(spec.arg_types[i]), initialized: true });
        proof {
            let ps = function.params@.take(i + 1);
            let ts = spec.arg_types@.take(i + 1);
            assert(ps.drop_last() =~= function.params@.take(i as int));
            assert(ts.drop_last() =~= spec.arg_types@.take(i as int));
        }
        i += 1;
    }
    proof {
        assert(function.params@.take(i as int) =~= function.params@);
        assert(spec.arg_types@.take(i as int) =~= spec.arg_types@);
    }
    let initial = collect_true_assumptions(&spec.pre);
    let name = function.name.as_str();
    proof {
        lemma_facts_typing(spec.pre, env@, initial@, signatures@);
    }
    expect_expr_type(name, "precondition", &spec.pre, &env, &initial, ExprType::Bool, signatures)?;
    let (after, facts) = type_check_stmts(name, &function.body, &env, &initial, spec.ret_type, signatures)?;
    let mut post_env = after;
    let ghost env_before = post_env@;
    post_env.insert(str_to_string("result"), VariableState { ty: Some(spec.ret_type), initialized: true });
    proof {
        lemma_facts_typing(spec.post, post_env@, facts@, signatures@);
        reveal_strlit("result");
        assert("result"@ =~= seq!['r', 'e', 's', 'u', 'l', 't']);
    }
    expect_expr_type(name, "postcondition", &spec.post, &post_env, &facts, ExprType::Bool, signatures)?;
    proof {
        reveal_strlit("result");
        assert("result"@ =~= seq!['r', 'e', 's', 'u', 'l', 't']);
        assert(post_env@ == env_before.insert(
            seq!['r', 'e', 's', 'u', 'l', 't'],
            VariableState { ty: Some(spec.ret_type), initialized: true },
        ));
    }
    Ok(())
}

} // verus!

verus! {

/// A statement as a mathematical value.
pub enum StmtV {
    Declare(Seq<char>),
    Assign(Seq<char>, ExprV, bool),
    If(ExprV, Seq<StmtV>, Seq<StmtV>),
    Return(ExprV),
    ArrayAssign(Seq<char>, ExprV, ExprV),
    HashAssign(Seq<char>, ExprV, ExprV),
    LoopBoundExceeded,
    Last,
    Next,
    Die(ExprV),
    Push(Seq<char>, ExprV),
    ArrayInit(Seq<char>, Seq<ExprV>),
}

/// The value of a statement.
pub open spec fn stmt_view(s: Stmt) -> StmtV
    decreases s, 0nat,
{
    match s {
        Stmt::Declare { name } => StmtV::Declare(name@),
        Stmt::Assign { name, expr, declaration } => StmtV::Assign(name@, expr_view(expr), declaration),
        Stmt::If { condition, then_branch, else_branch } => StmtV::If(
            expr_view(condition),
            stmts_view(then_branch@),
            stmts_view(else_branch@),
        ),
        Stmt::Return(e) => StmtV::Return(expr_view(e)),
        Stmt::ArrayAssign { name, index, expr } => StmtV::ArrayAssign(name@, expr_view(index), expr_view(expr)),
        Stmt::HashAssign { name, key, expr } => StmtV::HashAssign(name@, expr_view(key), expr_view(expr)),
        Stmt::LoopBoundExceeded => StmtV::LoopBoundExceeded,
        Stmt::Last => StmtV::Last,
        Stmt::Next => StmtV::Next,
        Stmt::Die(e) => StmtV::Die(expr_view(e)),
        Stmt::Push { array, value } => StmtV::Push(array@, expr_view(value)),
        Stmt::ArrayInit { name, elements } => StmtV::ArrayInit(name@, exprs_view(elements@)),
    }
}

/// The values of a list of statements.
pub open spec fn stmts_view(v: Seq<Stmt>) -> Seq<StmtV>
    decreases v, 1nat,
{
    if v.len() == 0 {
        Seq::empty()
    } else {
        stmts_view(v.subrange(0, v.len() - 1)).push(stmt_view(v[v.len() - 1]))
    }
}

/// The values of a list are those of its statements, in order.
pub proof fn lemma_stmts_view(v: Seq<Stmt>)
    ensures
        stmts_view(v).len() == v.len(),
        forall|i: int| 0 <= i < v.len() ==> #[trigger] stmts_view(v)[i] == stmt_view(v[i]),
    decreases v.len(),
{
    if v.len() > 0 {
        let front = v.subrange(0, v.len() - 1);
        lemma_stmts_view(front);
        assert forall|i: int| 0 <= i < v.len() implies #[trigger] stmts_view(v)[i] == stmt_view(v[i]) by {
            if i < v.len() - 1 {
                assert(front[i] == v[i]);
            }
        }
    }
}

/// The values of two statement lists one after the other.
pub proof fn lemma_stmts_view_add(a: Seq<Stmt>, b: Seq<Stmt>)
    ensures
        stmts_view(a + b) == stmts_view(a) + stmts_view(b),
{
    lemma_stmts_view(a);
    lemma_stmts_view(b);
    lemma_stmts_view(a + b);
    assert(stmts_view(a + b) =~= stmts_view(a) + stmts_view(b));
}

/// The value of a list with one more statement.
pub proof fn lemma_stmts_view_push(a: Seq<Stmt>, x: Stmt)
    ensures
        stmts_view(a.push(x)) == stmts_view(a).push(stmt_view(x)),
{
    assert(a.push(x).subrange(0, a.len() as int) =~= a);
}

/// A copy of `s`.
pub fn clone_stmt(s: &Stmt) -> (r: Stmt)
    ensures
        stmt_view(r) == stmt_view(*s),
        stmt_wf(*s) ==> stmt_wf(r),
        stmt_has_last(r) == stmt_has_last(*s),
        stmt_has_next(r) == stmt_has_next(*s),
    decreases s,
{
    match s {
        Stmt::Declare { name } => Stmt::Declare { name: copy_string(name) },
        Stmt::Assign { name, expr, declaration } => {
            let e = clone_expr(expr);
            proof {
                lemma_same_view(e, *expr);
            }
            Stmt::Assign { name: copy_string(name), expr: e, declaration: *declaration }
        },
        Stmt::If { condition, then_branch, else_branch } => {
            let t = clone_stmts(then_branch);
            let e = clone_stmts(else_branch);
            let c = clone_expr(condition);
            proof {
                lemma_same_view(c, *condition);
            }
            let r = Stmt::If { condition: c, then_branch: t, else_branch: e };
            proof {
                crate::lowering::lemma_same_exits(*s, r);
            }
            r
        },
        Stmt::Return(e) => {
            let c = clone_expr(e);
            proof {
                lemma_same_view(c, *e);
            }
            Stmt::Return(c)
        },
        Stmt::ArrayAssign { name, index, expr } => {
            let i = clone_expr(index);
            let x = clone_expr(expr);
            proof {
                lemma_same_view(i, *index);
                lemma_same_view(x, *expr);
            }
            Stmt::ArrayAssign { name: copy_string(name), index: i, expr: x }
        },
        Stmt::HashAssign { name, key, expr } => {
            let k = clone_expr(key);
            let x = clone_expr(expr);
            proof {
                lemma_same_view(k, *key);
                lemma_same_view(x, *expr);
            }
            Stmt::HashAssign { name: copy_string(name), key: k, expr: x }
        },
        Stmt::LoopBoundExceeded => Stmt::LoopBoundExceeded,
        Stmt::Last => Stmt::Last,
        Stmt::Next => Stmt::Next,
        Stmt::Die(e) => {
            let c = clone_expr(e);
            proof {
                lemma_same_view(c, *e);
            }
            Stmt::Die(c)
        },
        Stmt::Push { array, value } => {
            let c = clone_expr(value);
            proof {
                lemma_same_view(c, *value);
            }
            Stmt::Push { array: copy_string(array), value: c }
        },
        Stmt::ArrayInit { name, elements } => {
            let es = clone_exprs(elements);
            proof {
                crate::facts::lemma_exprs_view_same(es@, elements@);
            }
            Stmt::ArrayInit { name: copy_string(name), elements: es }
        },
    }
}

/// A copy of each statement of `v`.
pub fn clone_stmts(v: &Vec<Stmt>) -> (r: Vec<Stmt>)
    ensures
        r@.len() == v@.len(),
        stmts_view(r@) == stmts_view(v@),
        stmts_wf(v@) ==> stmts_wf(r@),
        forall|i: int| 0 <= i < v@.len() ==> stmt_has_last(#[trigger] r@[i]) == stmt_has_last(v@[i]) && stmt_has_next(r@[i])
            == stmt_has_next(v@[i]),
    decreases v,
{
    let mut out: Vec<Stmt> = Vec::new();
    let mut i: usize = 0;
    while i < v.len()
        invariant
            i <= v@.len(),
            out@.len() == i,
            forall|j: int| 0 <= j < i ==> stmt_wf(v@[j]) ==> stmt_wf(#[trigger] out@[j]),
            forall|j: int| 0 <= j < i ==> stmt_has_last(#[trigger] out@[j]) == stmt_has_last(v@[j]) && stmt_has_next(out@[j])
                == stmt_has_next(v@[j]),
            forall|j: int| 0 <= j < i ==> stmt_view(#[trigger] out@[j]) == stmt_view(v@[j]),
        decreases v.len() - i,
    {
        proof {
            assert(decreases_to!(*v => v@[i as int]));
        }
        out.push(clone_stmt(&v[i]));
        i += 1;
    }
    proof {
        lemma_stmts_view(out@);
        lemma_stmts_view(v@);
        assert(stmts_view(out@) =~= stmts_view(v@));
    }
    out
}

/// Appends the statements of `src` to `dst`.
pub fn extend_stmts(dst: &mut Vec<Stmt>, src: Vec<Stmt>)
    ensures
        final(dst)@ == old(dst)@ + src@,
        stmts_wf(old(dst)@) && stmts_wf(src@) ==> stmts_wf(final(dst)@),
{
    let mut src = src;
    let ghost a = dst@;
    let ghost b = src@;
    dst.append(&mut src);
    proof {
        if stmts_wf(a) && stmts_wf(b) {
            assert forall|i: int| 0 <= i < dst@.len() implies stmt_wf(#[trigger] dst@[i]) by {
                if i < a.len() {
                    assert(dst@[i] == a[i]);
                } else {
                    assert(dst@[i] == b[i - a.len()]);
                }
            }
        }
    }
}

} // verus!
