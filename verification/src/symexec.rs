//! Symbolic execution of control-flow graphs, and the verification of
//! annotated functions against their contracts.

use vstd::prelude::*;

use crate::assoc::NameMap;
use crate::annotations::FunctionSpec;
use crate::ast::{type_check_function_with_signatures, FunctionAst, FunctionSig, Stmt};
use crate::extractor::ExtractedFunction;
use crate::PerlcheckerError;
use crate::ir::{BlockStmt, ControlFlowGraph, SsaExpr, SsaParam, Terminator};
use crate::limits::Limits;
use crate::ast::{binary_operand, element_typing, expr_wf, text_like, typing, var_typing, Expr, SigView, UnaryOp, VariableState, binary_result, builtin_arity_ok, builtin_param, builtin_result, AccessKind, BinaryOp, Builtin, ExprType, Type, expr_type_of};
use crate::text::{copy_string, decimal, lemma_listed_push, listed, strictly_sorted, push_str, push_string, push_u64, sorted_unique, str_to_string, string_eq};

verus! {

/// A symbolic 64-bit integer.
#[derive(Debug, PartialEq, Eq)]
pub enum IntExpr {
    Const(i64),
    Var(String),
    Add(Box<IntExpr>, Box<IntExpr>),
    Sub(Box<IntExpr>, Box<IntExpr>),
    Mul(Box<IntExpr>, Box<IntExpr>),
    Div(Box<IntExpr>, Box<IntExpr>),
    Mod(Box<IntExpr>, Box<IntExpr>),
    Pow(Box<IntExpr>, Box<IntExpr>),
    BitAnd(Box<IntExpr>, Box<IntExpr>),
    BitOr(Box<IntExpr>, Box<IntExpr>),
    BitXor(Box<IntExpr>, Box<IntExpr>),
    Shl(Box<IntExpr>, Box<IntExpr>),
    Shr(Box<IntExpr>, Box<IntExpr>),
    BitNot(Box<IntExpr>),
    Abs(Box<IntExpr>),
    Ord(Box<StrExpr>),
    StrToInt(Box<StrExpr>),
    Contains(Box<StrExpr>, Box<StrExpr>),
    StartsWith(Box<StrExpr>, Box<StrExpr>),
    EndsWith(Box<StrExpr>, Box<StrExpr>),
    Chomp(Box<StrExpr>),
    Ite(Box<BoolExpr>, Box<IntExpr>, Box<IntExpr>),
    Length(Box<StrExpr>),
    Index(Box<StrExpr>, Box<StrExpr>, Box<IntExpr>),
    ArraySelect(Box<ArrayIntExpr>, Box<IntExpr>),
    HashSelect(Box<HashIntExpr>, Box<StrExpr>),
}

/// A symbolic string.
#[derive(Debug, PartialEq, Eq)]
pub enum StrExpr {
    Const(String),
    Var(String),
    Concat(Box<StrExpr>, Box<StrExpr>),
    Substr(Box<StrExpr>, Box<IntExpr>, Box<IntExpr>),
    Chr(Box<IntExpr>),
    FromInt(Box<IntExpr>),
    Reverse(Box<StrExpr>),
    Replace(Box<StrExpr>, Box<StrExpr>, Box<StrExpr>),
    CharAt(Box<StrExpr>, Box<IntExpr>),
    Ite(Box<BoolExpr>, Box<StrExpr>, Box<StrExpr>),
    ArraySelect(Box<ArrayStrExpr>, Box<IntExpr>),
    HashSelect(Box<HashStrExpr>, Box<StrExpr>),
}

/// A symbolic array of integers.
#[derive(Debug, PartialEq, Eq)]
pub enum ArrayIntExpr {
    Var(String),
    Store(Box<ArrayIntExpr>, Box<IntExpr>, Box<IntExpr>),
}

/// A symbolic array of strings.
#[derive(Debug, PartialEq, Eq)]
pub enum ArrayStrExpr {
    Var(String),
    Store(Box<ArrayStrExpr>, Box<IntExpr>, Box<StrExpr>),
}

/// A symbolic hash from strings to integers.
#[derive(Debug, PartialEq, Eq)]
pub enum HashIntExpr {
    Var(String),
    Store(Box<HashIntExpr>, Box<StrExpr>, Box<IntExpr>),
}

/// A symbolic hash from strings to strings.
#[derive(Debug, PartialEq, Eq)]
pub enum HashStrExpr {
    Var(String),
    Store(Box<HashStrExpr>, Box<StrExpr>, Box<StrExpr>),
}

/// A comparison.
#[derive(Debug, Clone, Copy, PartialEq, Eq, Structural)]
pub enum CmpOp {
    Lt,
    Le,
    Gt,
    Ge,
    Eq,
    Ne,
}

/// A symbolic condition.
#[derive(Debug, PartialEq, Eq)]
pub enum BoolExpr {
    Const(bool),
    Not(Box<BoolExpr>),
    And(Box<BoolExpr>, Box<BoolExpr>),
    Or(Box<BoolExpr>, Box<BoolExpr>),
    /// Some of these integer operations overflow 64 bits.
    Overflow(Vec<IntExpr>),
    IntCmp(CmpOp, Box<IntExpr>, Box<IntExpr>),
    StrEq(Box<StrExpr>, Box<StrExpr>),
    StrCmp(CmpOp, Box<StrExpr>, Box<StrExpr>),
}

/// A value of a counterexample.
#[derive(Debug, PartialEq, Eq)]
pub enum ModelValue {
    Int(i64),
    Str(String),
    Collection(String),
    Unconstrained,
}

impl View for ModelValue {
    type V = ModelValue;

    open spec fn view(&self) -> ModelValue {
        *self
    }
}


/// A symbolic value of one of the language's types.
#[derive(Debug, PartialEq, Eq)]
pub enum SymValue {
    Int(IntExpr),
    Bool(BoolExpr),
    Str(StrExpr),
    ArrayInt(ArrayIntExpr),
    ArrayStr(ArrayStrExpr),
    HashInt(HashIntExpr),
    HashStr(HashStrExpr),
}

/// The type of a symbolic value.
pub open spec fn sym_type(v: SymValue) -> ExprType {
    match v {
        SymValue::Int(_) => ExprType::Int,
        SymValue::Bool(_) => ExprType::Bool,
        SymValue::Str(_) => ExprType::Str,
        SymValue::ArrayInt(_) => ExprType::ArrayInt,
        SymValue::ArrayStr(_) => ExprType::ArrayStr,
        SymValue::HashInt(_) => ExprType::HashInt,
        SymValue::HashStr(_) => ExprType::HashStr,
    }
}

/// A symbolic value is seen through its type, so that an environment of
/// symbolic values is seen as the type environment it realises.
impl View for SymValue {
    type V = ExprType;

    open spec fn view(&self) -> ExprType {
        sym_type(*self)
    }
}

/// Two integer terms are the same term: the same shape, with the same
/// constants and names.
pub open spec fn int_same(a: IntExpr, b: IntExpr) -> bool
    decreases a,
{
    match (a, b) {
        (IntExpr::Const(x), IntExpr::Const(y)) => x == y,
        (IntExpr::Var(x), IntExpr::Var(y)) => x@ == y@,
        (IntExpr::Add(a1, a2), IntExpr::Add(b1, b2)) | (IntExpr::Sub(a1, a2), IntExpr::Sub(b1, b2))
        | (IntExpr::Mul(a1, a2), IntExpr::Mul(b1, b2)) | (IntExpr::Div(a1, a2), IntExpr::Div(b1, b2))
        | (IntExpr::Mod(a1, a2), IntExpr::Mod(b1, b2)) | (IntExpr::Pow(a1, a2), IntExpr::Pow(b1, b2))
        | (IntExpr::BitAnd(a1, a2), IntExpr::BitAnd(b1, b2)) | (IntExpr::BitOr(a1, a2), IntExpr::BitOr(b1, b2))
        | (IntExpr::BitXor(a1, a2), IntExpr::BitXor(b1, b2)) | (IntExpr::Shl(a1, a2), IntExpr::Shl(b1, b2))
        | (IntExpr::Shr(a1, a2), IntExpr::Shr(b1, b2)) => int_same(*a1, *b1) && int_same(*a2, *b2),
        (IntExpr::BitNot(x), IntExpr::BitNot(y)) | (IntExpr::Abs(x), IntExpr::Abs(y)) => int_same(*x, *y),
        (IntExpr::Ord(x), IntExpr::Ord(y)) | (IntExpr::StrToInt(x), IntExpr::StrToInt(y))
        | (IntExpr::Chomp(x), IntExpr::Chomp(y)) | (IntExpr::Length(x), IntExpr::Length(y)) => str_same(*x, *y),
        (IntExpr::Contains(a1, a2), IntExpr::Contains(b1, b2)) | (IntExpr::StartsWith(a1, a2), IntExpr::StartsWith(b1, b2))
        | (IntExpr::EndsWith(a1, a2), IntExpr::EndsWith(b1, b2)) => str_same(*a1, *b1) && str_same(*a2, *b2),
        (IntExpr::Ite(c1, a1, a2), IntExpr::Ite(c2, b1, b2)) => bool_same(*c1, *c2) && int_same(*a1, *b1)
            && int_same(*a2, *b2),
        (IntExpr::Index(a1, a2, a3), IntExpr::Index(b1, b2, b3)) => str_same(*a1, *b1) && str_same(*a2, *b2)
            && int_same(*a3, *b3),
        (IntExpr::ArraySelect(x, i), IntExpr::ArraySelect(y, j)) => array_int_same(*x, *y) && int_same(*i, *j),
        (IntExpr::HashSelect(x, k), IntExpr::HashSelect(y, l)) => hash_int_same(*x, *y) && str_same(*k, *l),
        _ => false,
    }
}

/// Two string terms are the same term.
pub open spec fn str_same(a: StrExpr, b: StrExpr) -> bool
    decreases a,
{
    match (a, b) {
        (StrExpr::Const(x), StrExpr::Const(y)) => x@ == y@,
        (StrExpr::Var(x), StrExpr::Var(y)) => x@ == y@,
        (StrExpr::Concat(a1, a2), StrExpr::Concat(b1, b2)) => str_same(*a1, *b1) && str_same(*a2, *b2),
        (StrExpr::Substr(a1, a2, a3), StrExpr::Substr(b1, b2, b3)) => str_same(*a1, *b1) && int_same(*a2, *b2)
            && int_same(*a3, *b3),
        (StrExpr::Chr(x), StrExpr::Chr(y)) | (StrExpr::FromInt(x), StrExpr::FromInt(y)) => int_same(*x, *y),
        (StrExpr::Reverse(x), StrExpr::Reverse(y)) => str_same(*x, *y),
        (StrExpr::Replace(a1, a2, a3), StrExpr::Replace(b1, b2, b3)) => str_same(*a1, *b1) && str_same(*a2, *b2)
            && str_same(*a3, *b3),
        (StrExpr::CharAt(x, i), StrExpr::CharAt(y, j)) => str_same(*x, *y) && int_same(*i, *j),
        (StrExpr::Ite(c1, a1, a2), StrExpr::Ite(c2, b1, b2)) => bool_same(*c1, *c2) && str_same(*a1, *b1)
            && str_same(*a2, *b2),
        (StrExpr::ArraySelect(x, i), StrExpr::ArraySelect(y, j)) => array_str_same(*x, *y) && int_same(*i, *j),
        (StrExpr::HashSelect(x, k), StrExpr::HashSelect(y, l)) => hash_str_same(*x, *y) && str_same(*k, *l),
        _ => false,
    }
}

/// Two integer-array terms are the same term.
pub open spec fn array_int_same(a: ArrayIntExpr, b: ArrayIntExpr) -> bool
    decreases a,
{
    match (a, b) {
        (ArrayIntExpr::Var(x), ArrayIntExpr::Var(y)) => x@ == y@,
        (ArrayIntExpr::Store(x, i, v), ArrayIntExpr::Store(y, j, w)) => array_int_same(*x, *y) && int_same(*i, *j)
            && int_same(*v, *w),
        _ => false,
    }
}

/// Two string-array terms are the same term.
pub open spec fn array_str_same(a: ArrayStrExpr, b: ArrayStrExpr) -> bool
    decreases a,
{
    match (a, b) {
        (ArrayStrExpr::Var(x), ArrayStrExpr::Var(y)) => x@ == y@,
        (ArrayStrExpr::Store(x, i, v), ArrayStrExpr::Store(y, j, w)) => array_str_same(*x, *y) && int_same(*i, *j)
            && str_same(*v, *w),
        _ => false,
    }
}

/// Two integer-hash terms are the same term.
pub open spec fn hash_int_same(a: HashIntExpr, b: HashIntExpr) -> bool
    decreases a,
{
    match (a, b) {
        (HashIntExpr::Var(x), HashIntExpr::Var(y)) => x@ == y@,
        (HashIntExpr::Store(x, k, v), HashIntExpr::Store(y, l, w)) => hash_int_same(*x, *y) && str_same(*k, *l)
            && int_same(*v, *w),
        _ => false,
    }
}

/// Two string-hash terms are the same term.
pub open spec fn hash_str_same(a: HashStrExpr, b: HashStrExpr) -> bool
    decreases a,
{
    match (a, b) {
        (HashStrExpr::Var(x), HashStrExpr::Var(y)) => x@ == y@,
        (HashStrExpr::Store(x, k, v), HashStrExpr::Store(y, l, w)) => hash_str_same(*x, *y) && str_same(*k, *l)
            && str_same(*v, *w),
        _ => false,
    }
}

/// Two boolean terms are the same term.
pub open spec fn bool_same(a: BoolExpr, b: BoolExpr) -> bool
    decreases a,
{
    match (a, b) {
        (BoolExpr::Const(x), BoolExpr::Const(y)) => x == y,
        (BoolExpr::Not(x), BoolExpr::Not(y)) => bool_same(*x, *y),
        (BoolExpr::And(a1, a2), BoolExpr::And(b1, b2)) | (BoolExpr::Or(a1, a2), BoolExpr::Or(b1, b2)) => bool_same(*a1, *b1)
            && bool_same(*a2, *b2),
        (BoolExpr::Overflow(v), BoolExpr::Overflow(w)) => v@.len() == w@.len() && forall|i: int|
            0 <= i < v@.len() ==> int_same(#[trigger] v@[i], w@[i]),
        (BoolExpr::IntCmp(o1, a1, a2), BoolExpr::IntCmp(o2, b1, b2)) => o1 == o2 && int_same(*a1, *b1) && int_same(*a2, *b2),
        (BoolExpr::StrEq(a1, a2), BoolExpr::StrEq(b1, b2)) => str_same(*a1, *b1) && str_same(*a2, *b2),
        (BoolExpr::StrCmp(o1, a1, a2), BoolExpr::StrCmp(o2, b1, b2)) => o1 == o2 && str_same(*a1, *b1) && str_same(*a2, *b2),
        _ => false,
    }
}

/// A copy of `e`.
pub(crate) fn clone_int(e: &IntExpr) -> (r: IntExpr)
    ensures
        int_same(r, *e),
    decreases e,
{
    match e {
        IntExpr::Const(v) => IntExpr::Const(*v),
        IntExpr::Var(n) => IntExpr::Var(copy_string(n)),
        IntExpr::Add(a, b) => IntExpr::Add(Box::new(clone_int(a)), Box::new(clone_int(b))),
        IntExpr::Sub(a, b) => IntExpr::Sub(Box::new(clone_int(a)), Box::new(clone_int(b))),
        IntExpr::Mul(a, b) => IntExpr::Mul(Box::new(clone_int(a)), Box::new(clone_int(b))),
        IntExpr::Div(a, b) => IntExpr::Div(Box::new(clone_int(a)), Box::new(clone_int(b))),
        IntExpr::Mod(a, b) => IntExpr::Mod(Box::new(clone_int(a)), Box::new(clone_int(b))),
        IntExpr::Pow(a, b) => IntExpr::Pow(Box::new(clone_int(a)), Box::new(clone_int(b))),
        IntExpr::BitAnd(a, b) => IntExpr::BitAnd(Box::new(clone_int(a)), Box::new(clone_int(b))),
        IntExpr::BitOr(a, b) => IntExpr::BitOr(Box::new(clone_int(a)), Box::new(clone_int(b))),
        IntExpr::BitXor(a, b) => IntExpr::BitXor(Box::new(clone_int(a)), Box::new(clone_int(b))),
        IntExpr::Shl(a, b) => IntExpr::Shl(Box::new(clone_int(a)), Box::new(clone_int(b))),
        IntExpr::Shr(a, b) => IntExpr::Shr(Box::new(clone_int(a)), Box::new(clone_int(b))),
        IntExpr::BitNot(a) => IntExpr::BitNot(Box::new(clone_int(a))),
        IntExpr::Abs(a) => IntExpr::Abs(Box::new(clone_int(a))),
        IntExpr::Ord(a) => IntExpr::Ord(Box::new(clone_str(a))),
        IntExpr::StrToInt(a) => IntExpr::StrToInt(Box::new(clone_str(a))),
        IntExpr::Contains(a, b) => IntExpr::Contains(Box::new(clone_str(a)), Box::new(clone_str(b))),
        IntExpr::StartsWith(a, b) => IntExpr::StartsWith(Box::new(clone_str(a)), Box::new(clone_str(b))),
        IntExpr::EndsWith(a, b) => IntExpr::EndsWith(Box::new(clone_str(a)), Box::new(clone_str(b))),
        IntExpr::Chomp(a) => IntExpr::Chomp(Box::new(clone_str(a))),
        IntExpr::Ite(c, a, b) => IntExpr::Ite(Box::new(clone_bool(c)), Box::new(clone_int(a)), Box::new(clone_int(b))),
        IntExpr::Length(a) => IntExpr::Length(Box::new(clone_str(a))),
        IntExpr::Index(a, b, c) => IntExpr::Index(Box::new(clone_str(a)), Box::new(clone_str(b)), Box::new(clone_int(c))),
        IntExpr::ArraySelect(a, i) => IntExpr::ArraySelect(Box::new(clone_array_int(a)), Box::new(clone_int(i))),
        IntExpr::HashSelect(h, k) => IntExpr::HashSelect(Box::new(clone_hash_int(h)), Box::new(clone_str(k))),
    }
}

/// A copy of `e`.
pub(crate) fn clone_str(e: &StrExpr) -> (r: StrExpr)
    ensures
        str_same(r, *e),
    decreases e,
{
    match e {
        StrExpr::Const(v) => StrExpr::Const(copy_string(v)),
        StrExpr::Var(n) => StrExpr::Var(copy_string(n)),
        StrExpr::Concat(a, b) => StrExpr::Concat(Box::new(clone_str(a)), Box::new(clone_str(b))),
        StrExpr::Substr(a, b, c) => StrExpr::Substr(Box::new(clone_str(a)), Box::new(clone_int(b)), Box::new(clone_int(c))),
        StrExpr::Chr(a) => StrExpr::Chr(Box::new(clone_int(a))),
        StrExpr::FromInt(a) => StrExpr::FromInt(Box::new(clone_int(a))),
        StrExpr::Reverse(a) => StrExpr::Reverse(Box::new(clone_str(a))),
        StrExpr::Replace(a, b, c) => StrExpr::Replace(Box::new(clone_str(a)), Box::new(clone_str(b)), Box::new(clone_str(c))),
        StrExpr::CharAt(a, i) => StrExpr::CharAt(Box::new(clone_str(a)), Box::new(clone_int(i))),
        StrExpr::Ite(c, a, b) => StrExpr::Ite(Box::new(clone_bool(c)), Box::new(clone_str(a)), Box::new(clone_str(b))),
        StrExpr::ArraySelect(a, i) => StrExpr::ArraySelect(Box::new(clone_array_str(a)), Box::new(clone_int(i))),
        StrExpr::HashSelect(h, k) => StrExpr::HashSelect(Box::new(clone_hash_str(h)), Box::new(clone_str(k))),
    }
}

/// A copy of `e`.
pub(crate) fn clone_array_int(e: &ArrayIntExpr) -> (r: ArrayIntExpr)
    ensures
        array_int_same(r, *e),
    decreases e,
{
    match e {
        ArrayIntExpr::Var(n) => ArrayIntExpr::Var(copy_string(n)),
        ArrayIntExpr::Store(a, i, v) => ArrayIntExpr::Store(Box::new(clone_array_int(a)), Box::new(clone_int(i)), Box::new(clone_int(v))),
    }
}

/// A copy of `e`.
pub(crate) fn clone_array_str(e: &ArrayStrExpr) -> (r: ArrayStrExpr)
    ensures
        array_str_same(r, *e),
    decreases e,
{
    match e {
        ArrayStrExpr::Var(n) => ArrayStrExpr::Var(copy_string(n)),
        ArrayStrExpr::Store(a, i, v) => ArrayStrExpr::Store(Box::new(clone_array_str(a)), Box::new(clone_int(i)), Box::new(clone_str(v))),
    }
}

/// A copy of `e`.
pub(crate) fn clone_hash_int(e: &HashIntExpr) -> (r: HashIntExpr)
    ensures
        hash_int_same(r, *e),
    decreases e,
{
    match e {
        HashIntExpr::Var(n) => HashIntExpr::Var(copy_string(n)),
        HashIntExpr::Store(h, k, v) => HashIntExpr::Store(Box::new(clone_hash_int(h)), Box::new(clone_str(k)), Box::new(clone_int(v))),
    }
}

/// A copy of `e`.
pub(crate) fn clone_hash_str(e: &HashStrExpr) -> (r: HashStrExpr)
    ensures
        hash_str_same(r, *e),
    decreases e,
{
    match e {
        HashStrExpr::Var(n) => HashStrExpr::Var(copy_string(n)),
        HashStrExpr::Store(h, k, v) => HashStrExpr::Store(Box::new(clone_hash_str(h)), Box::new(clone_str(k)), Box::new(clone_str(v))),
    }
}

/// A copy of `e`.
#[verifier::loop_isolation(false)]
pub(crate) fn clone_bool(e: &BoolExpr) -> (r: BoolExpr)
    ensures
        bool_same(r, *e),
    decreases e,
{
    match e {
        BoolExpr::Const(v) => BoolExpr::Const(*v),
        BoolExpr::Not(a) => BoolExpr::Not(Box::new(clone_bool(a))),
        BoolExpr::And(a, b) => BoolExpr::And(Box::new(clone_bool(a)), Box::new(clone_bool(b))),
        BoolExpr::Or(a, b) => BoolExpr::Or(Box::new(clone_bool(a)), Box::new(clone_bool(b))),
        BoolExpr::Overflow(v) => {
            let mut out: Vec<IntExpr> = Vec::new();
            let mut i: usize = 0;
            while i < v.len()
                invariant
                    i <= v@.len(),
                    out@.len() == i,
                    forall|j: int| 0 <= j < i ==> int_same(#[trigger] out@[j], v@[j]),
                decreases v.len() - i,
            {
                proof {
                    assert(decreases_to!(*v => v@[i as int]));
                }
                out.push(clone_int(&v[i]));
                i += 1;
            }
            BoolExpr::Overflow(out)
        },
        BoolExpr::IntCmp(op, a, b) => BoolExpr::IntCmp(*op, Box::new(clone_int(a)), Box::new(clone_int(b))),
        BoolExpr::StrEq(a, b) => BoolExpr::StrEq(Box::new(clone_str(a)), Box::new(clone_str(b))),
        BoolExpr::StrCmp(op, a, b) => BoolExpr::StrCmp(*op, Box::new(clone_str(a)), Box::new(clone_str(b))),
    }
}

/// A copy of `v`, of the same type.
pub(crate) fn clone_sym(v: &SymValue) -> (r: SymValue)
    ensures
        sym_type(r) == sym_type(*v),
        sym_same(r, *v),
{
    match v {
        SymValue::Int(e) => SymValue::Int(clone_int(e)),
        SymValue::Bool(e) => SymValue::Bool(clone_bool(e)),
        SymValue::Str(e) => SymValue::Str(clone_str(e)),
        SymValue::ArrayInt(e) => SymValue::ArrayInt(clone_array_int(e)),
        SymValue::ArrayStr(e) => SymValue::ArrayStr(clone_array_str(e)),
        SymValue::HashInt(e) => SymValue::HashInt(clone_hash_int(e)),
        SymValue::HashStr(e) => SymValue::HashStr(clone_hash_str(e)),
    }
}

impl crate::assoc::ViewClone for SymValue {
    fn view_clone(&self) -> (r: Self) {
        clone_sym(self)
    }
}

/// A failure of symbolic execution.
#[derive(Debug, PartialEq, Eq)]
pub enum SymExecError {
    MissingBlock { function: String, block_id: usize },
    MissingSymbol { function: String, name: String },
    TypeMismatch { function: String },
    UnknownCallee { function: String, callee: String },
    RecursionDetected { function: String },
    PathLimitExceeded { function: String, max_paths: usize },
    LoopBoundExceeded { function: String },
    DieReached { function: String },
    NoValidPaths { function: String },
    Ir(crate::ir::IrError),
    Smt(crate::smt::SmtError),
}

impl SymExecError {
    /// The text that reports the error.
    pub open spec fn describe(&self) -> Seq<char> {
        match self {
            SymExecError::MissingBlock { function, block_id } => "CFG references missing block "@ + decimal(*block_id as nat) + " in function `"@ + function@ + "`"@,
            SymExecError::MissingSymbol { function, name } => "symbolic environment is missing `"@ + name@ + "` in function `"@ + function@ + "`"@,
            SymExecError::TypeMismatch { function } => "type mismatch during symbolic evaluation in function `"@ + function@ + "`"@,
            SymExecError::UnknownCallee { function, callee } => "function `"@ + function@ + "` calls unknown callee `"@ + callee@ + "`"@,
            SymExecError::RecursionDetected { function } => "recursive call graph detected involving `"@ + function@ + "`"@,
            SymExecError::PathLimitExceeded { function, max_paths } => "function `"@ + function@ + "` exceeded the maximum number of symbolic paths ("@ + decimal(*max_paths as nat) + ")"@,
            SymExecError::LoopBoundExceeded { function } => "function `"@ + function@ + "` exceeded the loop unroll bound on a feasible path"@,
            SymExecError::DieReached { function } => "function `"@ + function@ + "` can reach a `die` statement on a feasible path"@,
            SymExecError::NoValidPaths { function } => "function `"@ + function@ + "` has no valid execution paths after discarding invalid arithmetic paths"@,
            SymExecError::Ir(e) => e.describe(),
            SymExecError::Smt(e) => e.describe(),
        }
    }

    /// The text that reports the error.
    pub fn message(&self) -> (r: String)
        ensures
            r@ == self.describe(),
    {
        match self {
            SymExecError::MissingBlock { function, block_id } => {
                let mut m = String::new();
                push_str(&mut m, "CFG references missing block ");
                push_u64(&mut m, *block_id as u64);
                push_str(&mut m, " in function `");
                push_string(&mut m, function);
                push_str(&mut m, "`");
                m
            },
            SymExecError::MissingSymbol { function, name } => {
                let mut m = String::new();
                push_str(&mut m, "symbolic environment is missing `");
                push_string(&mut m, name);
                push_str(&mut m, "` in function `");
                push_string(&mut m, function);
                push_str(&mut m, "`");
                m
            },
            SymExecError::TypeMismatch { function } => {
                let mut m = String::new();
                push_str(&mut m, "type mismatch during symbolic evaluation in function `");
                push_string(&mut m, function);
                push_str(&mut m, "`");
                m
            },
            SymExecError::UnknownCallee { function, callee } => {
                let mut m = String::new();
                push_str(&mut m, "function `");
                push_string(&mut m, function);
                push_str(&mut m, "` calls unknown callee `");
                push_string(&mut m, callee);
                push_str(&mut m, "`");
                m
            },
            SymExecError::RecursionDetected { function } => {
                let mut m = String::new();
                push_str(&mut m, "recursive call graph detected involving `");
                push_string(&mut m, function);
                push_str(&mut m, "`");
                m
            },
            SymExecError::PathLimitExceeded { function, max_paths } => {
                let mut m = String::new();
                push_str(&mut m, "function `");
                push_string(&mut m, function);
                push_str(&mut m, "` exceeded the maximum number of symbolic paths (");
                push_u64(&mut m, *max_paths as u64);
                push_str(&mut m, ")");
                m
            },
            SymExecError::LoopBoundExceeded { function } => {
                let mut m = String::new();
                push_str(&mut m, "function `");
                push_string(&mut m, function);
                push_str(&mut m, "` exceeded the loop unroll bound on a feasible path");
                m
            },
            SymExecError::DieReached { function } => {
                let mut m = String::new();
                push_str(&mut m, "function `");
                push_string(&mut m, function);
                push_str(&mut m, "` can reach a `die` statement on a feasible path");
                m
            },
            SymExecError::NoValidPaths { function } => {
                let mut m = String::new();
                push_str(&mut m, "function `");
                push_string(&mut m, function);
                push_str(&mut m, "` has no valid execution paths after discarding invalid arithmetic paths");
                m
            },
            SymExecError::Ir(e) => e.message(),
            SymExecError::Smt(e) => e.message(),
        }
    }
}

fn mismatch(function: &str) -> (r: SymExecError)
    ensures
        r matches SymExecError::TypeMismatch { function: f } && f@ == function@,
{
    SymExecError::TypeMismatch { function: str_to_string(function) }
}

/// The unconstrained value of a parameter `name` of type `ty`.
pub fn symbolic_value(name: &str, ty: Type) -> (r: SymValue)
    ensures
        sym_type(r) == expr_type_of(ty),
{
    let n = str_to_string(name);
    match ty {
        Type::Int => SymValue::Int(IntExpr::Var(n)),
        Type::Str => SymValue::Str(StrExpr::Var(n)),
        Type::ArrayInt => SymValue::ArrayInt(ArrayIntExpr::Var(n)),
        Type::ArrayStr => SymValue::ArrayStr(ArrayStrExpr::Var(n)),
        Type::HashInt => SymValue::HashInt(HashIntExpr::Var(n)),
        Type::HashStr => SymValue::HashStr(HashStrExpr::Var(n)),
    }
}

/// The integer inside `value`.
pub fn expect_int(value: SymValue, function: &str) -> (r: Result<IntExpr, SymExecError>)
    ensures
        r is Ok <==> sym_type(value) == ExprType::Int,
        r matches Ok(x) ==> x == int_of(value),
        r is Err ==> r->Err_0 is TypeMismatch,
{
    match value {
        SymValue::Int(v) => Ok(v),
        _ => Err(mismatch(function)),
    }
}

/// The condition inside `value`.
pub fn expect_bool(value: SymValue, function: &str) -> (r: Result<BoolExpr, SymExecError>)
    ensures
        r is Ok <==> sym_type(value) == ExprType::Bool,
        r matches Ok(x) ==> x == bool_of(value),
        r is Err ==> r->Err_0 is TypeMismatch,
{
    match value {
        SymValue::Bool(v) => Ok(v),
        _ => Err(mismatch(function)),
    }
}

/// The string inside `value`.
pub fn expect_str(value: SymValue, function: &str) -> (r: Result<StrExpr, SymExecError>)
    ensures
        r is Ok <==> sym_type(value) == ExprType::Str,
        r matches Ok(x) ==> x == str_of(value),
        r is Err ==> r->Err_0 is TypeMismatch,
{
    match value {
        SymValue::Str(v) => Ok(v),
        _ => Err(mismatch(function)),
    }
}

/// The text of `value`: a string as it is, an integer in decimal.
fn expect_text(value: SymValue, function: &str) -> (r: Result<StrExpr, SymExecError>)
    ensures
        r is Ok <==> text_type(sym_type(value)),
        r matches Ok(x) ==> x == text_of(value),
{
    match value {
        SymValue::Str(v) => Ok(v),
        SymValue::Int(v) => Ok(StrExpr::FromInt(Box::new(v))),
        _ => Err(mismatch(function)),
    }
}

/// Two symbolic values are the same term of the same type.
pub open spec fn sym_same(a: SymValue, b: SymValue) -> bool {
    match (a, b) {
        (SymValue::Int(x), SymValue::Int(y)) => int_same(x, y),
        (SymValue::Bool(x), SymValue::Bool(y)) => bool_same(x, y),
        (SymValue::Str(x), SymValue::Str(y)) => str_same(x, y),
        (SymValue::ArrayInt(x), SymValue::ArrayInt(y)) => array_int_same(x, y),
        (SymValue::ArrayStr(x), SymValue::ArrayStr(y)) => array_str_same(x, y),
        (SymValue::HashInt(x), SymValue::HashInt(y)) => hash_int_same(x, y),
        (SymValue::HashStr(x), SymValue::HashStr(y)) => hash_str_same(x, y),
        _ => false,
    }
}

/// The integer term of an integer value.
pub open spec fn int_of(v: SymValue) -> IntExpr {
    v->Int_0
}

/// The string term of a string value.
pub open spec fn str_of(v: SymValue) -> StrExpr {
    v->Str_0
}

/// The condition of a boolean value.
pub open spec fn bool_of(v: SymValue) -> BoolExpr {
    v->Bool_0
}

/// The text of a value: a string as it is, an integer in decimal.
pub open spec fn text_of(v: SymValue) -> StrExpr {
    match v {
        SymValue::Int(i) => StrExpr::FromInt(Box::new(i)),
        _ => v->Str_0,
    }
}

/// `-1`, `0` or `1` as `a < b` (on copies of the terms) or `a == b` holds,
/// for integer terms.
pub open spec fn int_three_way_is(v: SymValue, a: IntExpr, b: IntExpr) -> bool {
    match v {
        SymValue::Int(IntExpr::Ite(c, m, rest)) => int_lt_copy(*c, a, b) && *m == IntExpr::Const(-1i64) && *rest
            == IntExpr::Ite(
            Box::new(BoolExpr::IntCmp(CmpOp::Eq, Box::new(a), Box::new(b))),
            Box::new(IntExpr::Const(0i64)),
            Box::new(IntExpr::Const(1i64)),
        ),
        _ => false,
    }
}

/// `-1`, `0` or `1` as `a lt b` (on copies of the terms) or `a eq b` holds,
/// for string terms.
pub open spec fn str_three_way_is(v: SymValue, a: StrExpr, b: StrExpr) -> bool {
    match v {
        SymValue::Int(IntExpr::Ite(c, m, rest)) => str_lt_copy(*c, a, b) && *m == IntExpr::Const(-1i64) && *rest
            == IntExpr::Ite(
            Box::new(BoolExpr::StrEq(Box::new(a), Box::new(b))),
            Box::new(IntExpr::Const(0i64)),
            Box::new(IntExpr::Const(1i64)),
        ),
        _ => false,
    }
}

/// `c` is `a < b` on copies of the integer terms `a` and `b`.
pub open spec fn int_lt_copy(c: BoolExpr, a: IntExpr, b: IntExpr) -> bool {
    match c {
        BoolExpr::IntCmp(o, x, y) => o == CmpOp::Lt && int_same(*x, a) && int_same(*y, b),
        _ => false,
    }
}

/// `c` is `a lt b` on copies of the string terms `a` and `b`.
pub open spec fn str_lt_copy(c: BoolExpr, a: StrExpr, b: StrExpr) -> bool {
    match c {
        BoolExpr::StrCmp(o, x, y) => o == CmpOp::Lt && str_same(*x, a) && str_same(*y, b),
        _ => false,
    }
}

/// The term of `left op right`: the operation applied to the operands' terms.
pub open spec fn binary_term_is(op: BinaryOp, left: SymValue, right: SymValue, v: SymValue) -> bool {
    let li = Box::new(int_of(left));
    let ri = Box::new(int_of(right));
    let ls = Box::new(str_of(left));
    let rs = Box::new(str_of(right));
    let lb = Box::new(bool_of(left));
    let rb = Box::new(bool_of(right));
    match op {
        BinaryOp::Concat => v == SymValue::Str(StrExpr::Concat(Box::new(text_of(left)), Box::new(text_of(right)))),
        BinaryOp::StrEq => v == SymValue::Bool(BoolExpr::StrEq(ls, rs)),
        BinaryOp::StrNe => v == SymValue::Bool(BoolExpr::Not(Box::new(BoolExpr::StrEq(ls, rs)))),
        BinaryOp::StrLt => v == SymValue::Bool(BoolExpr::StrCmp(CmpOp::Lt, ls, rs)),
        BinaryOp::StrGt => v == SymValue::Bool(BoolExpr::StrCmp(CmpOp::Gt, ls, rs)),
        BinaryOp::StrLe => v == SymValue::Bool(BoolExpr::StrCmp(CmpOp::Le, ls, rs)),
        BinaryOp::StrGe => v == SymValue::Bool(BoolExpr::StrCmp(CmpOp::Ge, ls, rs)),
        BinaryOp::Cmp => str_three_way_is(v, str_of(left), str_of(right)),
        BinaryOp::And => v == SymValue::Bool(BoolExpr::And(lb, rb)),
        BinaryOp::Or => v == SymValue::Bool(BoolExpr::Or(lb, rb)),
        BinaryOp::Add => v == SymValue::Int(IntExpr::Add(li, ri)),
        BinaryOp::Sub => v == SymValue::Int(IntExpr::Sub(li, ri)),
        BinaryOp::Mul => v == SymValue::Int(IntExpr::Mul(li, ri)),
        BinaryOp::Div => v == SymValue::Int(IntExpr::Div(li, ri)),
        BinaryOp::Mod => v == SymValue::Int(IntExpr::Mod(li, ri)),
        BinaryOp::Pow => v == SymValue::Int(IntExpr::Pow(li, ri)),
        BinaryOp::BitAnd => v == SymValue::Int(IntExpr::BitAnd(li, ri)),
        BinaryOp::BitOr => v == SymValue::Int(IntExpr::BitOr(li, ri)),
        BinaryOp::BitXor => v == SymValue::Int(IntExpr::BitXor(li, ri)),
        BinaryOp::Shl => v == SymValue::Int(IntExpr::Shl(li, ri)),
        BinaryOp::Shr => v == SymValue::Int(IntExpr::Shr(li, ri)),
        BinaryOp::Lt => v == SymValue::Bool(BoolExpr::IntCmp(CmpOp::Lt, li, ri)),
        BinaryOp::Le => v == SymValue::Bool(BoolExpr::IntCmp(CmpOp::Le, li, ri)),
        BinaryOp::Gt => v == SymValue::Bool(BoolExpr::IntCmp(CmpOp::Gt, li, ri)),
        BinaryOp::Ge => v == SymValue::Bool(BoolExpr::IntCmp(CmpOp::Ge, li, ri)),
        BinaryOp::Eq => v == SymValue::Bool(BoolExpr::IntCmp(CmpOp::Eq, li, ri)),
        BinaryOp::Ne => v == SymValue::Bool(BoolExpr::IntCmp(CmpOp::Ne, li, ri)),
        BinaryOp::Spaceship => int_three_way_is(v, int_of(left), int_of(right)),
        BinaryOp::Repeat => false,
    }
}

/// What a comparison of integers means: `x op y`.
pub open spec fn int_cmp_holds(op: CmpOp, x: int, y: int) -> bool {
    match op {
        CmpOp::Lt => x < y,
        CmpOp::Le => x <= y,
        CmpOp::Gt => x > y,
        CmpOp::Ge => x >= y,
        CmpOp::Eq => x == y,
        CmpOp::Ne => x != y,
    }
}

/// What a comparison of strings means, in the lexicographic order of their
/// characters: `a op b`.
pub open spec fn str_cmp_holds(op: CmpOp, a: Seq<char>, b: Seq<char>) -> bool {
    match op {
        CmpOp::Lt => crate::text::seq_less(a, b),
        CmpOp::Le => crate::text::seq_less(a, b) || a == b,
        CmpOp::Gt => crate::text::seq_less(b, a),
        CmpOp::Ge => crate::text::seq_less(b, a) || a == b,
        CmpOp::Eq => a == b,
        CmpOp::Ne => a != b,
    }
}

/// Whether the condition `c` holds when its two compared integer terms have
/// the values `x` and `y`.
pub open spec fn int_condition_holds(c: BoolExpr, x: int, y: int) -> bool
    decreases c,
{
    match c {
        BoolExpr::IntCmp(op, _, _) => int_cmp_holds(op, x, y),
        BoolExpr::Not(inner) => !int_condition_holds(*inner, x, y),
        _ => false,
    }
}

/// Whether the condition `c` holds when its two compared string terms have
/// the values `a` and `b`.
pub open spec fn str_condition_holds(c: BoolExpr, a: Seq<char>, b: Seq<char>) -> bool
    decreases c,
{
    match c {
        BoolExpr::StrCmp(op, _, _) => str_cmp_holds(op, a, b),
        BoolExpr::StrEq(_, _) => a == b,
        BoolExpr::Not(inner) => !str_condition_holds(*inner, a, b),
        _ => false,
    }
}

/// The condition `c` compares the integer terms `l` and `r`, in that order.
pub open spec fn compares_ints(c: BoolExpr, l: IntExpr, r: IntExpr) -> bool
    decreases c,
{
    match c {
        BoolExpr::IntCmp(_, x, y) => *x == l && *y == r,
        BoolExpr::Not(inner) => compares_ints(*inner, l, r),
        _ => false,
    }
}

/// The condition `c` compares the string terms `l` and `r`, in that order.
pub open spec fn compares_strs(c: BoolExpr, l: StrExpr, r: StrExpr) -> bool
    decreases c,
{
    match c {
        BoolExpr::StrCmp(_, x, y) | BoolExpr::StrEq(x, y) => *x == l && *y == r,
        BoolExpr::Not(inner) => compares_strs(*inner, l, r),
        _ => false,
    }
}

/// Perl's numeric comparison operators, on integers.
pub open spec fn perl_int_relation(op: BinaryOp, x: int, y: int) -> bool {
    match op {
        BinaryOp::Lt => x < y,
        BinaryOp::Le => !(y < x),
        BinaryOp::Gt => y < x,
        BinaryOp::Ge => !(x < y),
        BinaryOp::Eq => x == y,
        BinaryOp::Ne => !(x == y),
        _ => false,
    }
}

/// Perl's string comparison operators (`lt`, `le`, `gt`, `ge`, `eq`, `ne`):
/// `le` is "not after", `ge` is "not before".
pub open spec fn perl_str_relation(op: BinaryOp, a: Seq<char>, b: Seq<char>) -> bool {
    match op {
        BinaryOp::StrLt => crate::text::seq_less(a, b),
        BinaryOp::StrLe => !crate::text::seq_less(b, a),
        BinaryOp::StrGt => crate::text::seq_less(b, a),
        BinaryOp::StrGe => !crate::text::seq_less(a, b),
        BinaryOp::StrEq => a == b,
        BinaryOp::StrNe => !(a == b),
        _ => false,
    }
}

/// Perl's integer arithmetic (`+`, `-`, `*`), before any bound on the result.
pub open spec fn perl_arith(op: BinaryOp, x: int, y: int) -> int {
    match op {
        BinaryOp::Add => x + y,
        BinaryOp::Sub => x - y,
        BinaryOp::Mul => x * y,
        _ => 0,
    }
}

/// The value of an integer term whose outermost operation is applied to
/// operands of values `x` and `y`.
pub open spec fn int_top_value(e: IntExpr, x: int, y: int) -> Option<int> {
    match e {
        IntExpr::Add(_, _) => Some(x + y),
        IntExpr::Sub(_, _) => Some(x - y),
        IntExpr::Mul(_, _) => Some(x * y),
        _ => None,
    }
}

/// Law: a numeric comparison evaluates to a condition on its two operands'
/// terms, in order, that holds exactly when the Perl operator holds of
/// their values.
pub proof fn law_integer_comparison_means_the_operator(op: BinaryOp, l: IntExpr, r: IntExpr, v: SymValue, x: int, y: int)
    requires
        op == BinaryOp::Lt || op == BinaryOp::Le || op == BinaryOp::Gt || op == BinaryOp::Ge || op == BinaryOp::Eq || op
            == BinaryOp::Ne,
        binary_term_is(op, SymValue::Int(l), SymValue::Int(r), v),
    ensures
        v is Bool,
        compares_ints(bool_of(v), l, r),
        int_condition_holds(bool_of(v), x, y) == perl_int_relation(op, x, y),
{
}

/// Law: a string comparison evaluates to a condition on its two operands'
/// terms, in order, that holds exactly when the Perl operator holds of the
/// strings in lexicographic order (so `s ge s` and `s le s` hold).
pub proof fn law_string_comparison_means_the_operator(
    op: BinaryOp,
    l: StrExpr,
    r: StrExpr,
    v: SymValue,
    a: Seq<char>,
    b: Seq<char>,
)
    requires
        op == BinaryOp::StrLt || op == BinaryOp::StrLe || op == BinaryOp::StrGt || op == BinaryOp::StrGe || op
            == BinaryOp::StrEq || op == BinaryOp::StrNe,
        binary_term_is(op, SymValue::Str(l), SymValue::Str(r), v),
    ensures
        v is Bool,
        compares_strs(bool_of(v), l, r),
        str_condition_holds(bool_of(v), a, b) == perl_str_relation(op, a, b),
{
    crate::text::lemma_seq_less_total(a, b);
    crate::text::lemma_seq_less_asym(a, b);
    crate::text::lemma_seq_less_asym(b, a);
    reveal_with_fuel(str_condition_holds, 2);
    reveal_with_fuel(compares_strs, 2);
}

/// Law: `+`, `-` and `*` evaluate to a term over the two operands' terms, in
/// order, whose value is the Perl operation on their values.
pub proof fn law_arithmetic_means_the_operator(op: BinaryOp, l: IntExpr, r: IntExpr, v: SymValue, x: int, y: int)
    requires
        op == BinaryOp::Add || op == BinaryOp::Sub || op == BinaryOp::Mul,
        binary_term_is(op, SymValue::Int(l), SymValue::Int(r), v),
    ensures
        v matches SymValue::Int(e) && int_top_value(e, x, y) == Some(perl_arith(op, x, y)) && match e {
            IntExpr::Add(a, b) | IntExpr::Sub(a, b) | IntExpr::Mul(a, b) => *a == l && *b == r,
            _ => false,
        },
{
}

/// Law: `min` and `max` evaluate to a choice between (copies of) their two
/// arguments' terms that picks the smaller, respectively the larger, value.
pub proof fn law_min_max_pick_the_extreme(b: Builtin, args: Seq<SymValue>, v: SymValue, x: int, y: int)
    requires
        b == Builtin::Min || b == Builtin::Max,
        builtin_term_is(b, args, v),
    ensures
        v matches SymValue::Int(IntExpr::Ite(c, t, e)) && int_same(*t, int_of(args[0])) && int_same(*e, int_of(args[1]))
            && (if int_condition_holds(*c, x, y) { x } else { y }) == (if b == Builtin::Min {
            if x <= y { x } else { y }
        } else {
            if x >= y { x } else { y }
        }),
{
}

/// Law: unary minus evaluates to `0 - x` on the operand's term, whose value
/// is the negation of the operand's; `!` and `~` apply their operation to
/// the operand's term.
pub proof fn law_unary_means_the_operator(op: UnaryOp, x: SymValue, v: SymValue, n: int)
    requires
        unary_term_is(op, x, v),
    ensures
        op == UnaryOp::Neg ==> (v matches SymValue::Int(e) && (e matches IntExpr::Sub(z, t) && *z == IntExpr::Const(0i64)
            && *t == int_of(x)) && int_top_value(e, 0, n) == Some(-n)),
        op == UnaryOp::Not ==> (v matches SymValue::Bool(c) && c == BoolExpr::Not(Box::new(bool_of(x)))),
        op == UnaryOp::BitNot ==> (v matches SymValue::Int(e) && e == IntExpr::BitNot(Box::new(int_of(x)))),
{
}

/// Law: `&&` and `||` evaluate to the conjunction, respectively disjunction,
/// of the operands' conditions, left before right.
pub proof fn law_connectives_keep_their_operands(op: BinaryOp, l: BoolExpr, r: BoolExpr, v: SymValue)
    requires
        op == BinaryOp::And || op == BinaryOp::Or,
        binary_term_is(op, SymValue::Bool(l), SymValue::Bool(r), v),
    ensures
        v matches SymValue::Bool(c) && (op == BinaryOp::And ==> c == BoolExpr::And(Box::new(l), Box::new(r))) && (op
            == BinaryOp::Or ==> c == BoolExpr::Or(Box::new(l), Box::new(r))),
{
}

/// Whether a value of this type may be used as text.
pub open spec fn text_type(t: ExprType) -> bool {
    t == ExprType::Int || t == ExprType::Str
}

/// The type of `left op right` for operands of types `l` and `r`, or `None`
/// where the evaluator refuses them (`x` is unfolded before evaluation).
pub open spec fn binary_value_type(op: BinaryOp, l: ExprType, r: ExprType) -> Option<ExprType> {
    match op {
        BinaryOp::Concat => if text_type(l) && text_type(r) { Some(ExprType::Str) } else { None },
        BinaryOp::Repeat => None,
        _ => if l == binary_operand(op) && r == binary_operand(op) { Some(binary_result(op)) } else { None },
    }
}

/// `-1`, `0` or `1` as `lt` or `eq` hold.
fn three_way(lt: BoolExpr, eq: BoolExpr) -> (r: IntExpr)
    ensures
        r == IntExpr::Ite(
            Box::new(lt),
            Box::new(IntExpr::Const(-1i64)),
            Box::new(IntExpr::Ite(Box::new(eq), Box::new(IntExpr::Const(0i64)), Box::new(IntExpr::Const(1i64)))),
        ),
{
    IntExpr::Ite(
        Box::new(lt),
        Box::new(IntExpr::Const(-1)),
        Box::new(IntExpr::Ite(Box::new(eq), Box::new(IntExpr::Const(0)), Box::new(IntExpr::Const(1)))),
    )
}

/// The symbolic value of `left op right`.
pub fn eval_binary(function: &str, op: BinaryOp, left: SymValue, right: SymValue) -> (r: Result<SymValue, SymExecError>)
    ensures
        r is Ok <==> binary_value_type(op, sym_type(left), sym_type(right)) is Some,
        r matches Ok(v) ==> Some(sym_type(v)) == binary_value_type(op, sym_type(left), sym_type(right)),
        r matches Ok(v) ==> binary_term_is(op, left, right, v),
{
    let lt = sym_type_of(&left);
    let rt = sym_type_of(&right);
    match op {
        BinaryOp::Concat => {
            let l = expect_text(left, function)?;
            let r = expect_text(right, function)?;
            Ok(SymValue::Str(StrExpr::Concat(Box::new(l), Box::new(r))))
        },
        BinaryOp::Repeat => Err(mismatch(function)),
        BinaryOp::StrEq | BinaryOp::StrNe | BinaryOp::StrLt | BinaryOp::StrGt | BinaryOp::StrLe | BinaryOp::StrGe
        | BinaryOp::Cmp => {
            let l = expect_str(left, function)?;
            let r = expect_str(right, function)?;
            let v = match op {
                BinaryOp::StrEq => BoolExpr::StrEq(Box::new(l), Box::new(r)),
                BinaryOp::StrNe => BoolExpr::Not(Box::new(BoolExpr::StrEq(Box::new(l), Box::new(r)))),
                BinaryOp::StrLt => BoolExpr::StrCmp(CmpOp::Lt, Box::new(l), Box::new(r)),
                BinaryOp::StrGt => BoolExpr::StrCmp(CmpOp::Gt, Box::new(l), Box::new(r)),
                BinaryOp::StrLe => BoolExpr::StrCmp(CmpOp::Le, Box::new(l), Box::new(r)),
                BinaryOp::StrGe => BoolExpr::StrCmp(CmpOp::Ge, Box::new(l), Box::new(r)),
                _ => {
                    let lt = BoolExpr::StrCmp(CmpOp::Lt, Box::new(clone_str(&l)), Box::new(clone_str(&r)));
                    let eq = BoolExpr::StrEq(Box::new(l), Box::new(r));
                    return Ok(SymValue::Int(three_way(lt, eq)));
                },
            };
            Ok(SymValue::Bool(v))
        },
        BinaryOp::And | BinaryOp::Or => {
            let l = expect_bool(left, function)?;
            let r = expect_bool(right, function)?;
            if op == BinaryOp::And {
                Ok(SymValue::Bool(BoolExpr::And(Box::new(l), Box::new(r))))
            } else {
                Ok(SymValue::Bool(BoolExpr::Or(Box::new(l), Box::new(r))))
            }
        },
        _ => {
            let l = expect_int(left, function)?;
            let r = expect_int(right, function)?;
            let (a, b) = (Box::new(l), Box::new(r));
            let v = match op {
                BinaryOp::Add => SymValue::Int(IntExpr::Add(a, b)),
                BinaryOp::Sub => SymValue::Int(IntExpr::Sub(a, b)),
                BinaryOp::Mul => SymValue::Int(IntExpr::Mul(a, b)),
                BinaryOp::Div => SymValue::Int(IntExpr::Div(a, b)),
                BinaryOp::Mod => SymValue::Int(IntExpr::Mod(a, b)),
                BinaryOp::Pow => SymValue::Int(IntExpr::Pow(a, b)),
                BinaryOp::BitAnd => SymValue::Int(IntExpr::BitAnd(a, b)),
                BinaryOp::BitOr => SymValue::Int(IntExpr::BitOr(a, b)),
                BinaryOp::BitXor => SymValue::Int(IntExpr::BitXor(a, b)),
                BinaryOp::Shl => SymValue::Int(IntExpr::Shl(a, b)),
                BinaryOp::Shr => SymValue::Int(IntExpr::Shr(a, b)),
                BinaryOp::Lt => SymValue::Bool(BoolExpr::IntCmp(CmpOp::Lt, a, b)),
                BinaryOp::Le => SymValue::Bool(BoolExpr::IntCmp(CmpOp::Le, a, b)),
                BinaryOp::Gt => SymValue::Bool(BoolExpr::IntCmp(CmpOp::Gt, a, b)),
                BinaryOp::Ge => SymValue::Bool(BoolExpr::IntCmp(CmpOp::Ge, a, b)),
                BinaryOp::Eq => SymValue::Bool(BoolExpr::IntCmp(CmpOp::Eq, a, b)),
                BinaryOp::Ne => SymValue::Bool(BoolExpr::IntCmp(CmpOp::Ne, a, b)),
                _ => {
                    let lt = BoolExpr::IntCmp(CmpOp::Lt, Box::new(clone_int(&a)), Box::new(clone_int(&b)));
                    let eq = BoolExpr::IntCmp(CmpOp::Eq, a, b);
                    SymValue::Int(three_way(lt, eq))
                },
            };
            Ok(v)
        },
    }
}

/// The type of `v`.
fn sym_type_of(v: &SymValue) -> (t: ExprType)
    ensures
        t == sym_type(*v),
{
    match v {
        SymValue::Int(_) => ExprType::Int,
        SymValue::Bool(_) => ExprType::Bool,
        SymValue::Str(_) => ExprType::Str,
        SymValue::ArrayInt(_) => ExprType::ArrayInt,
        SymValue::ArrayStr(_) => ExprType::ArrayStr,
        SymValue::HashInt(_) => ExprType::HashInt,
        SymValue::HashStr(_) => ExprType::HashStr,
    }
}

/// The type of element `kind` of a collection of type `c` at an index of
/// type `i`.
pub open spec fn access_value_type(kind: AccessKind, c: ExprType, i: ExprType) -> Option<ExprType> {
    match (kind, c, i) {
        (AccessKind::Array, ExprType::ArrayInt, ExprType::Int) => Some(ExprType::Int),
        (AccessKind::Array, ExprType::ArrayStr, ExprType::Int) => Some(ExprType::Str),
        (AccessKind::Hash, ExprType::HashInt, ExprType::Str) => Some(ExprType::Int),
        (AccessKind::Hash, ExprType::HashStr, ExprType::Str) => Some(ExprType::Str),
        _ => None,
    }
}

/// The type of a collection of type `c` after storing a value of type `v`
/// at an index of type `i`.
pub open spec fn store_value_type(kind: AccessKind, c: ExprType, i: ExprType, v: ExprType) -> Option<ExprType> {
    match (kind, c, i, v) {
        (AccessKind::Array, ExprType::ArrayInt, ExprType::Int, ExprType::Int) => Some(ExprType::ArrayInt),
        (AccessKind::Array, ExprType::ArrayStr, ExprType::Int, ExprType::Str) => Some(ExprType::ArrayStr),
        (AccessKind::Hash, ExprType::HashInt, ExprType::Str, ExprType::Int) => Some(ExprType::HashInt),
        (AccessKind::Hash, ExprType::HashStr, ExprType::Str, ExprType::Str) => Some(ExprType::HashStr),
        _ => None,
    }
}

/// The term of element `kind` of `collection` at `index`: a select from the
/// collection's term at the index's term.
pub open spec fn access_term_is(kind: AccessKind, collection: SymValue, index: SymValue, v: SymValue) -> bool {
    match (kind, collection) {
        (AccessKind::Array, SymValue::ArrayInt(a)) => v == SymValue::Int(IntExpr::ArraySelect(Box::new(a), Box::new(int_of(index)))),
        (AccessKind::Array, SymValue::ArrayStr(a)) => v == SymValue::Str(StrExpr::ArraySelect(Box::new(a), Box::new(int_of(index)))),
        (AccessKind::Hash, SymValue::HashInt(h)) => v == SymValue::Int(IntExpr::HashSelect(Box::new(h), Box::new(str_of(index)))),
        (AccessKind::Hash, SymValue::HashStr(h)) => v == SymValue::Str(StrExpr::HashSelect(Box::new(h), Box::new(str_of(index)))),
        _ => false,
    }
}

/// The term of `collection` with `value` stored at `index`: a store into the
/// collection's term.
pub open spec fn store_term_is(kind: AccessKind, collection: SymValue, index: SymValue, value: SymValue, v: SymValue) -> bool {
    match (kind, collection, value) {
        (AccessKind::Array, SymValue::ArrayInt(a), SymValue::Int(x)) => v == SymValue::ArrayInt(
            ArrayIntExpr::Store(Box::new(a), Box::new(int_of(index)), Box::new(x)),
        ),
        (AccessKind::Array, SymValue::ArrayStr(a), SymValue::Str(x)) => v == SymValue::ArrayStr(
            ArrayStrExpr::Store(Box::new(a), Box::new(int_of(index)), Box::new(x)),
        ),
        (AccessKind::Hash, SymValue::HashInt(h), SymValue::Int(x)) => v == SymValue::HashInt(
            HashIntExpr::Store(Box::new(h), Box::new(str_of(index)), Box::new(x)),
        ),
        (AccessKind::Hash, SymValue::HashStr(h), SymValue::Str(x)) => v == SymValue::HashStr(
            HashStrExpr::Store(Box::new(h), Box::new(str_of(index)), Box::new(x)),
        ),
        _ => false,
    }
}

/// The element of `collection` at `index`.
pub fn eval_access(function: &str, kind: AccessKind, collection: SymValue, index: SymValue) -> (r: Result<SymValue, SymExecError>)
    ensures
        r is Ok <==> access_value_type(kind, sym_type(collection), sym_type(index)) is Some,
        r matches Ok(v) ==> Some(sym_type(v)) == access_value_type(kind, sym_type(collection), sym_type(index)),
        r matches Ok(v) ==> access_term_is(kind, collection, index, v),
{
    match (kind, collection) {
        (AccessKind::Array, SymValue::ArrayInt(a)) => Ok(SymValue::Int(IntExpr::ArraySelect(Box::new(a), Box::new(expect_int(index, function)?)))),
        (AccessKind::Array, SymValue::ArrayStr(a)) => Ok(SymValue::Str(StrExpr::ArraySelect(Box::new(a), Box::new(expect_int(index, function)?)))),
        (AccessKind::Hash, SymValue::HashInt(h)) => Ok(SymValue::Int(IntExpr::HashSelect(Box::new(h), Box::new(expect_str(index, function)?)))),
        (AccessKind::Hash, SymValue::HashStr(h)) => Ok(SymValue::Str(StrExpr::HashSelect(Box::new(h), Box::new(expect_str(index, function)?)))),
        _ => Err(mismatch(function)),
    }
}

/// `collection` with `value` stored at `index`.
pub fn eval_store(function: &str, kind: AccessKind, collection: SymValue, index: SymValue, value: SymValue) -> (r: Result<SymValue, SymExecError>)
    ensures
        r is Ok <==> store_value_type(kind, sym_type(collection), sym_type(index), sym_type(value)) is Some,
        r matches Ok(v) ==> Some(sym_type(v)) == store_value_type(kind, sym_type(collection), sym_type(index), sym_type(value)),
        r matches Ok(v) ==> store_term_is(kind, collection, index, value, v),
{
    match (kind, collection, value) {
        (AccessKind::Array, SymValue::ArrayInt(a), SymValue::Int(v)) => Ok(
            SymValue::ArrayInt(ArrayIntExpr::Store(Box::new(a), Box::new(expect_int(index, function)?), Box::new(v))),
        ),
        (AccessKind::Array, SymValue::ArrayStr(a), SymValue::Str(v)) => Ok(
            SymValue::ArrayStr(ArrayStrExpr::Store(Box::new(a), Box::new(expect_int(index, function)?), Box::new(v))),
        ),
        (AccessKind::Hash, SymValue::HashInt(h), SymValue::Int(v)) => Ok(
            SymValue::HashInt(HashIntExpr::Store(Box::new(h), Box::new(expect_str(index, function)?), Box::new(v))),
        ),
        (AccessKind::Hash, SymValue::HashStr(h), SymValue::Str(v)) => Ok(
            SymValue::HashStr(HashStrExpr::Store(Box::new(h), Box::new(expect_str(index, function)?), Box::new(v))),
        ),
        _ => Err(mismatch(function)),
    }
}

/// The name of the array that `e` stores into.
pub open spec fn array_int_name(e: ArrayIntExpr) -> Seq<char>
    decreases e,
{
    match e {
        ArrayIntExpr::Var(n) => n@,
        ArrayIntExpr::Store(a, _, _) => array_int_name(*a),
    }
}

/// The name of the array that `e` stores into.
pub open spec fn array_str_name(e: ArrayStrExpr) -> Seq<char>
    decreases e,
{
    match e {
        ArrayStrExpr::Var(n) => n@,
        ArrayStrExpr::Store(a, _, _) => array_str_name(*a),
    }
}

/// Arrays that are the same term store into the same array.
pub proof fn lemma_array_int_name_same(a: ArrayIntExpr, b: ArrayIntExpr)
    requires
        array_int_same(a, b),
    ensures
        array_int_name(a) == array_int_name(b),
    decreases a,
{
    if let (ArrayIntExpr::Store(x, _, _), ArrayIntExpr::Store(y, _, _)) = (a, b) {
        lemma_array_int_name_same(*x, *y);
    }
}

/// Arrays that are the same term store into the same array.
pub proof fn lemma_array_str_name_same(a: ArrayStrExpr, b: ArrayStrExpr)
    requires
        array_str_same(a, b),
    ensures
        array_str_name(a) == array_str_name(b),
    decreases a,
{
    if let (ArrayStrExpr::Store(x, _, _), ArrayStrExpr::Store(y, _, _)) = (a, b) {
        lemma_array_str_name_same(*x, *y);
    }
}

fn array_int_base(e: &ArrayIntExpr) -> (r: String)
    ensures
        r@ == array_int_name(*e),
    decreases e,
{
    match e {
        ArrayIntExpr::Var(n) => copy_string(n),
        ArrayIntExpr::Store(a, _, _) => array_int_base(a),
    }
}

/// The name of the array that `e` stores into.
fn array_str_base(e: &ArrayStrExpr) -> (r: String)
    ensures
        r@ == array_str_name(*e),
    decreases e,
{
    match e {
        ArrayStrExpr::Var(n) => copy_string(n),
        ArrayStrExpr::Store(a, _, _) => array_str_base(a),
    }
}

/// The length variable of array `name`.
fn length_var(name: String) -> (r: IntExpr)
    ensures
        r matches IntExpr::Var(n) && n@ == name@ + "__len"@,
{
    let mut n = name;
    push_str(&mut n, "__len");
    IntExpr::Var(n)
}

/// The type of a builtin applied to arguments of types `args`, or `None`
/// where the evaluator refuses them.
pub open spec fn builtin_value_type(b: Builtin, args: Seq<ExprType>) -> Option<ExprType> {
    if !builtin_arity_ok(b, args.len()) {
        None
    } else {
        match b {
            Builtin::Scalar => if args[0] == ExprType::ArrayInt || args[0] == ExprType::ArrayStr {
                Some(ExprType::Int)
            } else {
                None
            },
            Builtin::Int => if text_type(args[0]) { Some(ExprType::Int) } else { None },
            _ => if forall|i: int| 0 <= i < args.len() ==> #[trigger] args[i] == builtin_param(b, args.len(), i) {
                Some(builtin_result(b))
            } else {
                None
            },
        }
    }
}

/// The types of `args`.
pub open spec fn types_of(args: Seq<SymValue>) -> Seq<ExprType> {
    args.map_values(|v: SymValue| sym_type(v))
}

/// The term of builtin `b` applied to `args`, built on copies of the
/// arguments' terms (`x` below is the first argument's term, `y` the second's,
/// `z` the third's).
pub open spec fn builtin_term_is(b: Builtin, args: Seq<SymValue>, v: SymValue) -> bool {
    match b {
        Builtin::Scalar => match (args[0], v) {
            (SymValue::ArrayInt(a), SymValue::Int(IntExpr::Var(n))) => n@ == array_int_name(a) + "__len"@,
            (SymValue::ArrayStr(a), SymValue::Int(IntExpr::Var(n))) => n@ == array_str_name(a) + "__len"@,
            _ => false,
        },
        Builtin::Int => match (args[0], v) {
            (SymValue::Int(x), SymValue::Int(w)) => int_same(w, x),
            (SymValue::Str(x), SymValue::Int(IntExpr::StrToInt(w))) => str_same(*w, x),
            _ => false,
        },
        Builtin::Length => v matches SymValue::Int(IntExpr::Length(w)) && str_same(*w, str_of(args[0])),
        Builtin::Ord => v matches SymValue::Int(IntExpr::Ord(w)) && str_same(*w, str_of(args[0])),
        Builtin::Reverse => v matches SymValue::Str(StrExpr::Reverse(w)) && str_same(*w, str_of(args[0])),
        Builtin::Chomp => chomp_term_is(v, str_of(args[0])),
        Builtin::Abs => v matches SymValue::Int(IntExpr::Abs(w)) && int_same(*w, int_of(args[0])),
        Builtin::Chr => v matches SymValue::Str(StrExpr::Chr(w)) && int_same(*w, int_of(args[0])),
        Builtin::Min => min_max_term_is(v, CmpOp::Le, int_of(args[0]), int_of(args[1])),
        Builtin::Max => min_max_term_is(v, CmpOp::Ge, int_of(args[0]), int_of(args[1])),
        Builtin::Contains => v matches SymValue::Int(IntExpr::Contains(w1, w2)) && str_same(*w1, str_of(args[0]))
            && str_same(*w2, str_of(args[1])),
        Builtin::StartsWith => v matches SymValue::Int(IntExpr::StartsWith(w1, w2)) && str_same(*w1, str_of(args[0]))
            && str_same(*w2, str_of(args[1])),
        Builtin::EndsWith => v matches SymValue::Int(IntExpr::EndsWith(w1, w2)) && str_same(*w1, str_of(args[0]))
            && str_same(*w2, str_of(args[1])),
        Builtin::CharAt => v matches SymValue::Str(StrExpr::CharAt(w1, w2)) && str_same(*w1, str_of(args[0]))
            && int_same(*w2, int_of(args[1])),
        Builtin::Index => v matches SymValue::Int(IntExpr::Index(w1, w2, w3)) && str_same(*w1, str_of(args[0]))
            && str_same(*w2, str_of(args[1])) && (if args.len() == 3 {
            int_same(*w3, int_of(args[2]))
        } else {
            *w3 == IntExpr::Const(0i64)
        }),
        Builtin::Substr => v matches SymValue::Str(StrExpr::Substr(w1, w2, w3)) && str_same(*w1, str_of(args[0]))
            && int_same(*w2, int_of(args[1])) && int_same(*w3, int_of(args[2])),
        Builtin::Replace => v matches SymValue::Str(StrExpr::Replace(w1, w2, w3)) && str_same(*w1, str_of(args[0]))
            && str_same(*w2, str_of(args[1])) && str_same(*w3, str_of(args[2])),
    }
}

/// `chomp(s)`: `s` without its last character when that is a newline, as
/// `chomp(s) == 1 ? substr(s, 0, length(s) - 1) : s`, on copies of a term
/// that is the same as `s`.
pub open spec fn chomp_term_is(v: SymValue, s: StrExpr) -> bool {
    match v {
        SymValue::Str(StrExpr::Ite(c, t, e)) => str_same(*e, s) && match (*c, *t) {
            (BoolExpr::IntCmp(o, lhs, one), StrExpr::Substr(x, zero, len)) => o == CmpOp::Eq && *one == IntExpr::Const(1i64)
                && *zero == IntExpr::Const(0i64) && (match (*lhs, *len) {
                (IntExpr::Chomp(y), IntExpr::Sub(l, one2)) => str_same(*y, *e) && str_same(*x, *e) && *one2 == IntExpr::Const(
                    1i64,
                ) && (match *l {
                    IntExpr::Length(z) => str_same(*z, *e),
                    _ => false,
                }),
                _ => false,
            }),
            _ => false,
        },
        _ => false,
    }
}

/// `min` (`op` is `<=`) or `max` (`op` is `>=`) of `a` and `b`, as
/// `a op b ? a : b`, on copies of the terms.
pub open spec fn min_max_term_is(v: SymValue, op: CmpOp, a: IntExpr, b: IntExpr) -> bool {
    match v {
        SymValue::Int(IntExpr::Ite(c, x, y)) => int_same(*x, a) && int_same(*y, b) && match *c {
            BoolExpr::IntCmp(o, c1, c2) => o == op && int_same(*c1, *x) && int_same(*c2, *y),
            _ => false,
        },
        _ => false,
    }
}

/// The symbolic value of builtin `b` applied to `args`.
pub fn eval_builtin(function: &str, b: Builtin, args: &Vec<SymValue>) -> (r: Result<SymValue, SymExecError>)
    ensures
        r is Ok <==> builtin_value_type(b, types_of(args@)) is Some,
        r matches Ok(v) ==> Some(sym_type(v)) == builtin_value_type(b, types_of(args@)),
        r matches Ok(v) ==> builtin_term_is(b, args@, v),
{
    let n = args.len();
    let ghost ts = types_of(args@);
    proof {
        assert(ts.len() == n);
        assert forall|i: int| 0 <= i < n implies #[trigger] ts[i] == sym_type(args@[i]) by {}
    }
    let ok = match b {
        Builtin::Length | Builtin::Scalar | Builtin::Abs | Builtin::Ord | Builtin::Chr | Builtin::Chomp | Builtin::Reverse
        | Builtin::Int => n == 1,
        Builtin::Min | Builtin::Max | Builtin::Contains | Builtin::StartsWith | Builtin::EndsWith | Builtin::CharAt => n == 2,
        Builtin::Substr | Builtin::Replace => n == 3,
        Builtin::Index => n == 2 || n == 3,
    };
    if !ok {
        return Err(mismatch(function));
    }
    let a0 = clone_sym(&args[0]);
    match b {
        Builtin::Scalar => {
            return match a0 {
                SymValue::ArrayInt(a) => {
                    proof {
                        lemma_array_int_name_same(a, args@[0]->ArrayInt_0);
                    }
                    Ok(SymValue::Int(length_var(array_int_base(&a))))
                },
                SymValue::ArrayStr(a) => {
                    proof {
                        lemma_array_str_name_same(a, args@[0]->ArrayStr_0);
                    }
                    Ok(SymValue::Int(length_var(array_str_base(&a))))
                },
                _ => Err(mismatch(function)),
            };
        },
        Builtin::Int => {
            return match a0 {
                SymValue::Int(v) => Ok(SymValue::Int(v)),
                SymValue::Str(v) => Ok(SymValue::Int(IntExpr::StrToInt(Box::new(v)))),
                _ => Err(mismatch(function)),
            };
        },
        Builtin::Length | Builtin::Ord | Builtin::Chomp | Builtin::Reverse => {
            let s = expect_str(a0, function)?;
            let v = match b {
                Builtin::Length => SymValue::Int(IntExpr::Length(Box::new(s))),
                Builtin::Ord => SymValue::Int(IntExpr::Ord(Box::new(s))),
                Builtin::Reverse => SymValue::Str(StrExpr::Reverse(Box::new(s))),
                _ => {
                    let ends_in_newline = BoolExpr::IntCmp(
                        CmpOp::Eq,
                        Box::new(IntExpr::Chomp(Box::new(clone_str(&s)))),
                        Box::new(IntExpr::Const(1)),
                    );
                    let shorter = StrExpr::Substr(
                        Box::new(clone_str(&s)),
                        Box::new(IntExpr::Const(0)),
                        Box::new(IntExpr::Sub(Box::new(IntExpr::Length(Box::new(clone_str(&s)))), Box::new(IntExpr::Const(1)))),
                    );
                    SymValue::Str(StrExpr::Ite(Box::new(ends_in_newline), Box::new(shorter), Box::new(s)))
                },
            };
            return Ok(v);
        },
        Builtin::Abs | Builtin::Chr => {
            let x = expect_int(a0, function)?;
            if b == Builtin::Abs {
                return Ok(SymValue::Int(IntExpr::Abs(Box::new(x))));
            } else {
                return Ok(SymValue::Str(StrExpr::Chr(Box::new(x))));
            }
        },
        _ => {},
    }
    let a1 = clone_sym(&args[1]);
    proof {
        assert(ts[1] == sym_type(args@[1]));
    }
    match b {
        Builtin::Min | Builtin::Max => {
            let l = expect_int(a0, function)?;
            let r = expect_int(a1, function)?;
            let op = if b == Builtin::Min { CmpOp::Le } else { CmpOp::Ge };
            let c = BoolExpr::IntCmp(op, Box::new(clone_int(&l)), Box::new(clone_int(&r)));
            return Ok(SymValue::Int(IntExpr::Ite(Box::new(c), Box::new(l), Box::new(r))));
        },
        Builtin::Contains | Builtin::StartsWith | Builtin::EndsWith => {
            let l = expect_str(a0, function)?;
            let r = expect_str(a1, function)?;
            let v = match b {
                Builtin::Contains => IntExpr::Contains(Box::new(l), Box::new(r)),
                Builtin::StartsWith => IntExpr::StartsWith(Box::new(l), Box::new(r)),
                _ => IntExpr::EndsWith(Box::new(l), Box::new(r)),
            };
            return Ok(SymValue::Int(v));
        },
        Builtin::CharAt => {
            let s = expect_str(a0, function)?;
            let i = expect_int(a1, function)?;
            return Ok(SymValue::Str(StrExpr::CharAt(Box::new(s), Box::new(i))));
        },
        Builtin::Index => {
            let h = expect_str(a0, function)?;
            let needle = expect_str(a1, function)?;
            proof {
                if n == 3 {
                    assert(ts[2] == sym_type(args@[2]));
                }
            }
            let start = if n == 3 {
                expect_int(clone_sym(&args[2]), function)?
            } else {
                IntExpr::Const(0)
            };
            return Ok(SymValue::Int(IntExpr::Index(Box::new(h), Box::new(needle), Box::new(start))));
        },
        _ => {},
    }
    let a2 = clone_sym(&args[2]);
    proof {
        assert(ts[2] == sym_type(args@[2]));
    }
    if b == Builtin::Substr {
        let s = expect_str(a0, function)?;
        let start = expect_int(a1, function)?;
        let len = expect_int(a2, function)?;
        Ok(SymValue::Str(StrExpr::Substr(Box::new(s), Box::new(start), Box::new(len))))
    } else {
        let s = expect_str(a0, function)?;
        let from = expect_str(a1, function)?;
        let to = expect_str(a2, function)?;
        Ok(SymValue::Str(StrExpr::Replace(Box::new(s), Box::new(from), Box::new(to))))
    }
}

/// The count of `x` when it is an integer literal, perhaps negated.
pub open spec fn repeat_count(e: Expr) -> bool {
    match e {
        Expr::Int(_) => true,
        Expr::Unary { op: UnaryOp::Neg, expr } => *expr is Int,
        _ => false,
    }
}

/// Whether a type has symbolic conditional values.
pub open spec fn scalar_type(t: ExprType) -> bool {
    t == ExprType::Int || t == ExprType::Str || t == ExprType::Bool
}

/// The type of the symbolic value of `e` in an environment whose values have
/// the types `tys`, or `None` where evaluation fails.
pub open spec fn sym_typing(e: Expr, tys: Map<Seq<char>, ExprType>) -> Option<ExprType>
    decreases e,
{
    match e {
        Expr::Int(_) => Some(ExprType::Int),
        Expr::Bool(_) => Some(ExprType::Bool),
        Expr::String(_) => Some(ExprType::Str),
        Expr::Variable(name) => if tys.contains_key(name@) { Some(tys[name@]) } else { None },
        Expr::Unary { op, expr } => {
            let t = if op == UnaryOp::Not { ExprType::Bool } else { ExprType::Int };
            if sym_typing(*expr, tys) == Some(t) { Some(t) } else { None }
        },
        Expr::Binary { left, op, right } => if op == BinaryOp::Repeat {
            if repeat_count(*right) && sym_typing(*left, tys) == Some(ExprType::Str) { Some(ExprType::Str) } else { None }
        } else {
            match (sym_typing(*left, tys), sym_typing(*right, tys)) {
                (Some(l), Some(r)) => binary_value_type(op, l, r),
                _ => None,
            }
        },
        Expr::Ternary { condition, then_expr, else_expr } => {
            let t = sym_typing(*then_expr, tys);
            if sym_typing(*condition, tys) == Some(ExprType::Bool) && t is Some && scalar_type(t->0)
                && sym_typing(*else_expr, tys) == t {
                t
            } else {
                None
            }
        },
        Expr::Access { kind, collection, index } => match sym_typing(*index, tys) {
            Some(it) => if tys.contains_key(collection@) { access_value_type(kind, tys[collection@], it) } else { None },
            None => None,
        },
        Expr::Call { .. } => None,
        Expr::Pop { .. } => None,
        Expr::Builtin { function, args } => if !builtin_arity_ok(function, args@.len()) {
            None
        } else {
            match function {
                Builtin::Scalar => match sym_typing(args@[0], tys) {
                    Some(ExprType::ArrayInt) | Some(ExprType::ArrayStr) => Some(ExprType::Int),
                    _ => None,
                },
                Builtin::Int => match sym_typing(args@[0], tys) {
                    Some(t) => if text_type(t) { Some(ExprType::Int) } else { None },
                    None => None,
                },
                _ => if forall|i: int|
                    0 <= i < args@.len() ==> sym_typing(#[trigger] args@[i], tys) == Some(builtin_param(function, args@.len(), i)) {
                    Some(builtin_result(function))
                } else {
                    None
                },
            }
        },
    }
}

/// The value named `name` in `env`.
fn lookup_value(function: &str, env: &NameMap<SymValue>, name: &String) -> (r: Result<SymValue, SymExecError>)
    requires
        env.wf(),
    ensures
        r is Ok <==> env@.contains_key(name@),
        r matches Ok(v) ==> sym_type(v) == env@[name@],
        r matches Ok(v) ==> env.stored().contains_key(name@) && sym_same(v, env.stored()[name@]),
{
    match env.get(name) {
        Some(v) => Ok(clone_sym(v)),
        None => Err(SymExecError::MissingSymbol { function: str_to_string(function), name: copy_string(name) }),
    }
}

/// The conditional value `if c { t } else { f }`; conditions are spelled out
/// in `and`/`or`.
fn eval_ite(function: &str, c: BoolExpr, t: SymValue, f: SymValue) -> (r: Result<SymValue, SymExecError>)
    ensures
        r is Ok <==> sym_type(t) == sym_type(f) && scalar_type(sym_type(t)),
        r matches Ok(v) ==> sym_type(v) == sym_type(t),
        r matches Ok(v) ==> ite_term_is(c, t, f, v),
{
    match (t, f) {
        (SymValue::Int(a), SymValue::Int(b)) => Ok(SymValue::Int(IntExpr::Ite(Box::new(c), Box::new(a), Box::new(b)))),
        (SymValue::Str(a), SymValue::Str(b)) => Ok(SymValue::Str(StrExpr::Ite(Box::new(c), Box::new(a), Box::new(b)))),
        (SymValue::Bool(a), SymValue::Bool(b)) => Ok(
            SymValue::Bool(
                BoolExpr::And(
                    Box::new(BoolExpr::Or(Box::new(BoolExpr::Not(Box::new(clone_bool(&c)))), Box::new(a))),
                    Box::new(BoolExpr::Or(Box::new(c), Box::new(b))),
                ),
            ),
        ),
        _ => Err(mismatch(function)),
    }
}

/// `value` repeated `count` times.
fn repeated(value: StrExpr, count: i64) -> (r: StrExpr)
    ensures
        count <= 0 ==> (r matches StrExpr::Const(c) && c@ == Seq::<char>::empty()),
        count > 0 ==> str_same(r, repetition(value, count as int)),
{
    if count <= 0 {
        return StrExpr::Const(String::new());
    }
    let mut result = clone_str(&value);
    let mut k: i64 = 1;
    while k < count
        invariant
            1 <= k <= count,
            str_same(result, repetition(value, k as int)),
        decreases count - k,
    {
        result = StrExpr::Concat(Box::new(result), Box::new(clone_str(&value)));
        k += 1;
    }
    result
}

/// `count` copies of `value` joined left to right, for a positive `count`.
pub open spec fn repetition(value: StrExpr, count: int) -> StrExpr
    decreases count,
{
    if count <= 1 {
        value
    } else {
        StrExpr::Concat(Box::new(repetition(value, count - 1)), Box::new(value))
    }
}

/// A builtin call one of whose arguments fails to evaluate fails too.
proof fn lemma_builtin_arg_fails(b: Builtin, args: Vec<Expr>, tys: Map<Seq<char>, ExprType>, j: int)
    requires
        0 <= j < args@.len(),
        sym_typing(args@[j], tys) is None,
    ensures
        sym_typing(Expr::Builtin { function: b, args }, tys) is None,
{
    if builtin_arity_ok(b, args@.len()) {
        if b == Builtin::Scalar || b == Builtin::Int {
            assert(j == 0);
            assert(sym_typing(Expr::Builtin { function: b, args }, tys) is None);
        } else {
            assert(sym_typing(args@[j], tys) != Some(builtin_param(b, args@.len(), j)));
            assert(sym_typing(Expr::Builtin { function: b, args }, tys) is None);
        }
    } else {
        assert(sym_typing(Expr::Builtin { function: b, args }, tys) is None);
    }
}

/// A builtin call whose arguments have the types `ts` has the type that
/// `builtin_value_type` gives them.
proof fn lemma_builtin_typing(b: Builtin, args: Vec<Expr>, tys: Map<Seq<char>, ExprType>, ts: Seq<ExprType>)
    requires
        ts.len() == args@.len(),
        forall|j: int| 0 <= j < args@.len() ==> Some(#[trigger] ts[j]) == sym_typing(args@[j], tys),
    ensures
        builtin_value_type(b, ts) == sym_typing(Expr::Builtin { function: b, args }, tys),
{
    if builtin_arity_ok(b, args@.len()) {
        assert(Some(ts[0]) == sym_typing(args@[0], tys));
        if b != Builtin::Scalar && b != Builtin::Int {
            if forall|j: int| 0 <= j < ts.len() ==> #[trigger] ts[j] == builtin_param(b, args@.len(), j) {
                assert forall|j: int| 0 <= j < args@.len() implies sym_typing(#[trigger] args@[j], tys) == Some(
                    builtin_param(b, args@.len(), j),
                ) by {
                    assert(Some(ts[j]) == sym_typing(args@[j], tys));
                }
            } else {
                let j = choose|j: int| 0 <= j < ts.len() && #[trigger] ts[j] != builtin_param(b, args@.len(), j);
                assert(Some(ts[j]) == sym_typing(args@[j], tys));
            }
        }
    }
}

/// The count of `x` that the literal `e` writes: the integer, or its
/// negation (`i64::MIN` stays as it is).
pub open spec fn repeat_count_value(e: Expr) -> int {
    match e {
        Expr::Int(n) => n as int,
        Expr::Unary { op: UnaryOp::Neg, expr } => match *expr {
            Expr::Int(n) => if n == i64::MIN {
                n as int
            } else {
                -n
            },
            _ => 0,
        },
        _ => 0,
    }
}

/// `s` repeated `count` times: the empty string for a count below one.
pub open spec fn repeat_term_is(s: StrExpr, count: int, v: SymValue) -> bool {
    match v {
        SymValue::Str(w) => if count <= 0 {
            w matches StrExpr::Const(c) && c@ == Seq::<char>::empty()
        } else {
            str_same(w, repetition(s, count))
        },
        _ => false,
    }
}

/// The term of a unary operation on `x`.
pub open spec fn unary_term_is(op: UnaryOp, x: SymValue, v: SymValue) -> bool {
    match op {
        UnaryOp::Neg => v == SymValue::Int(IntExpr::Sub(Box::new(IntExpr::Const(0i64)), Box::new(int_of(x)))),
        UnaryOp::BitNot => v == SymValue::Int(IntExpr::BitNot(Box::new(int_of(x)))),
        UnaryOp::Not => v == SymValue::Bool(BoolExpr::Not(Box::new(bool_of(x)))),
    }
}

/// The term of `c ? t : f`: a conditional term for integers and strings,
/// and `(!c || t) && (c || f)` (on a copy of `c`) for conditions.
pub open spec fn ite_term_is(c: BoolExpr, t: SymValue, f: SymValue, v: SymValue) -> bool {
    match (t, f) {
        (SymValue::Int(a), SymValue::Int(b)) => v == SymValue::Int(IntExpr::Ite(Box::new(c), Box::new(a), Box::new(b))),
        (SymValue::Str(a), SymValue::Str(b)) => v == SymValue::Str(StrExpr::Ite(Box::new(c), Box::new(a), Box::new(b))),
        (SymValue::Bool(a), SymValue::Bool(b)) => match v {
            SymValue::Bool(BoolExpr::And(l, r)) => *r == BoolExpr::Or(Box::new(c), Box::new(b)) && match *l {
                BoolExpr::Or(n, x) => *x == a && match *n {
                    BoolExpr::Not(c2) => bool_same(*c2, c),
                    _ => false,
                },
                _ => false,
            },
            _ => false,
        },
        _ => false,
    }
}

/// `v` is a value of `e` in an environment holding the values `vals`: a
/// variable is (a copy of) its value, and each operation is applied to
/// values of its operands.
pub open spec fn evaluates(e: Expr, vals: Map<Seq<char>, SymValue>, v: SymValue) -> bool
    decreases e,
{
    match e {
        Expr::Int(n) => v == SymValue::Int(IntExpr::Const(n)),
        Expr::Bool(b) => v == SymValue::Bool(BoolExpr::Const(b)),
        Expr::String(s) => v matches SymValue::Str(StrExpr::Const(t)) && t@ == s@,
        Expr::Variable(n) => vals.contains_key(n@) && sym_same(v, vals[n@]),
        Expr::Unary { op, expr } => exists|x: SymValue| evaluates(*expr, vals, x) && #[trigger] unary_term_is(op, x, v),
        Expr::Binary { left, op, right } => if op == BinaryOp::Repeat {
            exists|x: SymValue| evaluates(*left, vals, x) && x is Str && #[trigger] repeat_term_is(
                str_of(x),
                repeat_count_value(*right),
                v,
            )
        } else {
            exists|x: SymValue, y: SymValue|
                evaluates(*left, vals, x) && evaluates(*right, vals, y) && #[trigger] binary_term_is(op, x, y, v)
        },
        Expr::Ternary { condition, then_expr, else_expr } => exists|c: SymValue, x: SymValue, y: SymValue|
            evaluates(*condition, vals, c) && evaluates(*then_expr, vals, x) && evaluates(*else_expr, vals, y)
                && #[trigger] ite_term_is(bool_of(c), x, y, v),
        Expr::Access { kind, collection, index } => vals.contains_key(collection@) && exists|c: SymValue, i: SymValue|
            sym_same(c, vals[collection@]) && evaluates(*index, vals, i) && #[trigger] access_term_is(kind, c, i, v),
        Expr::Builtin { function, args } => exists|xs: Seq<SymValue>|
            #[trigger] builtin_term_is(function, xs, v) && xs.len() == args@.len() && forall|j: int|
                0 <= j < xs.len() ==> evaluates(#[trigger] args@[j], vals, xs[j]),
        _ => false,
    }
}

/// The symbolic value of an annotation expression `e` in `env`.
#[verifier::loop_isolation(false)]
pub fn eval_expr(function: &str, e: &Expr, env: &NameMap<SymValue>) -> (r: Result<SymValue, SymExecError>)
    requires
        env.wf(),
    ensures
        r is Ok <==> sym_typing(*e, env@) is Some,
        r matches Ok(v) ==> Some(sym_type(v)) == sym_typing(*e, env@),
        r matches Ok(v) ==> evaluates(*e, env.stored(), v),
    decreases e,
{
    match e {
        Expr::Int(v) => Ok(SymValue::Int(IntExpr::Const(*v))),
        Expr::Bool(v) => Ok(SymValue::Bool(BoolExpr::Const(*v))),
        Expr::String(v) => {
            let r = SymValue::Str(StrExpr::Const(copy_string(v)));
            assert(evaluates(*e, env.stored(), r));
            Ok(r)
        },
        Expr::Variable(name) => {
            let r = lookup_value(function, env, name);
            assert(r matches Ok(w) ==> evaluates(*e, env.stored(), w));
            r
        },
        Expr::Unary { op, expr } => {
            let v = eval_expr(function, expr, env)?;
            let ghost x = v;
            let r = match op {
                UnaryOp::Neg => SymValue::Int(IntExpr::Sub(Box::new(IntExpr::Const(0)), Box::new(expect_int(v, function)?))),
                UnaryOp::BitNot => SymValue::Int(IntExpr::BitNot(Box::new(expect_int(v, function)?))),
                UnaryOp::Not => SymValue::Bool(BoolExpr::Not(Box::new(expect_bool(v, function)?))),
            };
            assert(evaluates(**expr, env.stored(), x) && unary_term_is(*op, x, r));
            assert(evaluates(*e, env.stored(), r));
            Ok(r)
        },
        Expr::Binary { left, op, right } => {
            if *op == BinaryOp::Repeat {
                let count: i64 = match &**right {
                    Expr::Int(n) => *n,
                    Expr::Unary { op: UnaryOp::Neg, expr: inner } => match &**inner {
                        Expr::Int(n) => if *n == i64::MIN { i64::MIN } else { -*n },
                        _ => {
                            return Err(mismatch(function));
                        },
                    },
                    _ => {
                        return Err(mismatch(function));
                    },
                };
                let lv = eval_expr(function, left, env)?;
                let ghost x = lv;
                let l = expect_str(lv, function)?;
                let r = SymValue::Str(repeated(l, count));
                assert(count as int == repeat_count_value(**right));
                assert(evaluates(**left, env.stored(), x) && x is Str && repeat_term_is(str_of(x), repeat_count_value(**right), r));
                assert(*op == BinaryOp::Repeat);
                assert(evaluates(*e, env.stored(), r));
                return Ok(r);
            }
            let l = eval_expr(function, left, env)?;
            let r = eval_expr(function, right, env)?;
            let ghost (x, y) = (l, r);
            let v = eval_binary(function, *op, l, r);
            assert(v matches Ok(w) ==> (evaluates(**left, env.stored(), x) && evaluates(**right, env.stored(), y) && binary_term_is(*op, x, y, w)));
            assert(v matches Ok(w) ==> evaluates(*e, env.stored(), w));
            v
        },
        Expr::Ternary { condition, then_expr, else_expr } => {
            let c = eval_expr(function, condition, env)?;
            let t = eval_expr(function, then_expr, env)?;
            let f = eval_expr(function, else_expr, env)?;
            let ghost (gc, gt, gf) = (c, t, f);
            let c = expect_bool(c, function)?;
            let v = eval_ite(function, c, t, f);
            assert(v matches Ok(w) ==> (evaluates(**condition, env.stored(), gc) && evaluates(**then_expr, env.stored(), gt) && evaluates(
                        **else_expr,
                        env.stored(),
                        gf,
                    ) && ite_term_is(bool_of(gc), gt, gf, w)));
            assert(v matches Ok(w) ==> evaluates(*e, env.stored(), w));
            v
        },
        Expr::Access { kind, collection, index } => {
            let c = lookup_value(function, env, collection)?;
            let i = eval_expr(function, index, env)?;
            let ghost (gc, gi) = (c, i);
            let v = eval_access(function, *kind, c, i);
            assert(v matches Ok(w) ==> (sym_same(gc, env.stored()[collection@]) && evaluates(**index, env.stored(), gi) && access_term_is(
                        *kind,
                        gc,
                        gi,
                        w,
                    )));
            v
        },
        Expr::Call { .. } | Expr::Pop { .. } => Err(mismatch(function)),
        Expr::Builtin { function: b, args } => {
            let mut values: Vec<SymValue> = Vec::new();
            let mut i: usize = 0;
            while i < args.len()
                invariant
                    i <= args@.len(),
                    env.wf(),
                    values@.len() == i,
                    forall|j: int| 0 <= j < i ==> sym_typing(#[trigger] args@[j], env@) == Some(sym_type(values@[j])),
                    forall|j: int| 0 <= j < i ==> evaluates(#[trigger] args@[j], env.stored(), values@[j]),
                decreases args.len() - i,
            {
                proof {
                    assert(decreases_to!(*e => args@[i as int]));
                }
                let v = match eval_expr(function, &args[i], env) {
                    Ok(v) => v,
                    Err(err) => {
                        proof {
                            lemma_builtin_arg_fails(*b, *args, env@, i as int);
                        }
                        return Err(err);
                    },
                };
                values.push(v);
                i += 1;
            }
            proof {
                lemma_builtin_typing(*b, *args, env@, types_of(values@));
            }
            let v = eval_builtin(function, *b, &values);
            assert(v matches Ok(w) ==> (builtin_term_is(*b, values@, w) && values@.len() == args@.len()));
            assert(v matches Ok(w) ==> evaluates(*e, env.stored(), w));
            v
        },
    }
}


/// Whether the symbolic evaluator takes `e` as the type checker types it:
/// no calls or `pop`, literal counts for `x`, and conditional values of
/// scalar type only.
pub open spec fn evaluable(e: Expr, env: Map<Seq<char>, VariableState>, facts: Seq<Expr>, sigs: SigView) -> bool
    decreases e,
{
    match e {
        Expr::Call { .. } | Expr::Pop { .. } => false,
        Expr::Unary { expr, .. } => evaluable(*expr, env, facts, sigs),
        Expr::Binary { left, op, right } => evaluable(*left, env, facts, sigs) && evaluable(*right, env, facts, sigs)
            && (op == BinaryOp::Repeat ==> repeat_count(*right)),
        Expr::Ternary { condition, then_expr, else_expr } => evaluable(*condition, env, facts, sigs)
            && evaluable(*then_expr, env, facts, sigs) && evaluable(*else_expr, env, facts, sigs)
            && (typing(*then_expr, env, facts, sigs) matches Some(t) ==> scalar_type(t)),
        Expr::Access { index, .. } => evaluable(*index, env, facts, sigs),
        Expr::Builtin { args, .. } => forall|i: int| 0 <= i < args@.len() ==> evaluable(#[trigger] args@[i], env, facts, sigs),
        _ => true,
    }
}

/// Whether the values of `tys` have the types that `env` gives its typed,
/// initialized variables.
pub open spec fn realizes(tys: Map<Seq<char>, ExprType>, env: Map<Seq<char>, VariableState>) -> bool {
    forall|name: Seq<char>| #[trigger] var_typing(env, name) is Some ==> tys.contains_key(name) && tys[name] == var_typing(env, name)->0
}

/// Type soundness of symbolic evaluation: an expression that the type checker
/// gives a type evaluates, in an environment whose values have the checked
/// types, to a value of that type.
pub proof fn lemma_evaluation_is_type_sound(
    e: Expr,
    env: Map<Seq<char>, VariableState>,
    facts: Seq<Expr>,
    sigs: SigView,
    tys: Map<Seq<char>, ExprType>,
)
    requires
        expr_wf(e),
        evaluable(e, env, facts, sigs),
        typing(e, env, facts, sigs) is Some,
        realizes(tys, env),
    ensures
        sym_typing(e, tys) == typing(e, env, facts, sigs),
    decreases e,
{
    match e {
        Expr::Variable(name) => {
            assert(var_typing(env, name@) is Some);
        },
        Expr::Unary { expr, .. } => {
            lemma_evaluation_is_type_sound(*expr, env, facts, sigs, tys);
        },
        Expr::Binary { left, op, right } => {
            lemma_evaluation_is_type_sound(*left, env, facts, sigs, tys);
            if op != BinaryOp::Repeat {
                lemma_evaluation_is_type_sound(*right, env, facts, sigs, tys);
            }
        },
        Expr::Ternary { condition, then_expr, else_expr } => {
            lemma_evaluation_is_type_sound(*condition, env, facts, sigs, tys);
            lemma_evaluation_is_type_sound(*then_expr, env, facts, sigs, tys);
            lemma_evaluation_is_type_sound(*else_expr, env, facts, sigs, tys);
        },
        Expr::Access { kind, collection, index } => {
            lemma_evaluation_is_type_sound(*index, env, facts, sigs, tys);
            assert(var_typing(env, collection@) is Some);
        },
        Expr::Builtin { function, args } => {
            assert(builtin_arity_ok(function, args@.len()));
            assert forall|i: int| 0 <= i < args@.len() && typing(args@[i], env, facts, sigs) is Some implies #[trigger] sym_typing(
                args@[i],
                tys,
            ) == typing(args@[i], env, facts, sigs) by {
                assert(decreases_to!(e => args@[i]));
                lemma_evaluation_is_type_sound(args@[i], env, facts, sigs, tys);
            }
            if function == Builtin::Scalar || function == Builtin::Int {
                assert(typing(args@[0], env, facts, sigs) is Some);
                assert(sym_typing(args@[0], tys) == typing(args@[0], env, facts, sigs));
            } else {
                assert forall|i: int| 0 <= i < args@.len() implies sym_typing(#[trigger] args@[i], tys) == Some(
                    builtin_param(function, args@.len(), i),
                ) by {
                    assert(typing(args@[i], env, facts, sigs) == Some(builtin_param(function, args@.len(), i)));
                    assert(sym_typing(args@[i], tys) == typing(args@[i], env, facts, sigs));
                }
            }
        },
        _ => {},
    }
}

/// The unconstrained element to store into `collection`: of the collection's
/// element type.
/// The type of a fresh element of a collection of type `c`.
pub open spec fn fresh_element_type(c: ExprType) -> ExprType {
    if c == ExprType::ArrayStr || c == ExprType::HashStr {
        ExprType::Str
    } else {
        ExprType::Int
    }
}

/// The type of the symbolic value of the SSA expression `e` in an
/// environment whose values have the types `tys`, or `None` where evaluation
/// fails.
pub open spec fn ssa_typing(e: SsaExpr, tys: Map<Seq<char>, ExprType>) -> Option<ExprType>
    decreases e, 0nat,
{
    match e {
        SsaExpr::Int(_) | SsaExpr::FreshVar(_) => Some(ExprType::Int),
        SsaExpr::Bool(_) => Some(ExprType::Bool),
        SsaExpr::String(_) => Some(ExprType::Str),
        SsaExpr::Var(name) => if tys.contains_key(name@) { Some(tys[name@]) } else { None },
        SsaExpr::Unary { op, expr } => {
            let t = if op == UnaryOp::Not { ExprType::Bool } else { ExprType::Int };
            if ssa_typing(*expr, tys) == Some(t) { Some(t) } else { None }
        },
        SsaExpr::Binary { left, op, right } => match (ssa_typing(*left, tys), ssa_typing(*right, tys)) {
            (Some(l), Some(r)) => binary_value_type(op, l, r),
            _ => None,
        },
        SsaExpr::Ite { condition, then_expr, else_expr } => match (
            ssa_typing(*condition, tys),
            ssa_typing(*then_expr, tys),
            ssa_typing(*else_expr, tys),
        ) {
            (Some(c), Some(t), Some(f)) => if c == ExprType::Bool && t == f && scalar_type(t) { Some(t) } else { None },
            _ => None,
        },
        SsaExpr::Access { kind, collection, index } => match (ssa_typing(*collection, tys), ssa_typing(*index, tys)) {
            (Some(c), Some(i)) => access_value_type(kind, c, i),
            _ => None,
        },
        SsaExpr::Store { kind, collection, index, value } => match (ssa_typing(*collection, tys), ssa_typing(*index, tys)) {
            (Some(c), Some(i)) => {
                let v = if *value is FreshVar { Some(fresh_element_type(c)) } else { ssa_typing(*value, tys) };
                match v {
                    Some(vt) => store_value_type(kind, c, i, vt),
                    None => None,
                }
            },
            _ => None,
        },
        SsaExpr::Builtin { function, args } => match ssa_arg_types(args@, tys) {
            Some(ts) => builtin_value_type(function, ts),
            None => None,
        },
        SsaExpr::FreshArray { element_int, .. } => Some(if element_int { ExprType::ArrayInt } else { ExprType::ArrayStr }),
        SsaExpr::FreshHash { value_int, .. } => Some(if value_int { ExprType::HashInt } else { ExprType::HashStr }),
    }
}

/// The types of the arguments `args`, where each of them has one.
pub open spec fn ssa_arg_types(args: Seq<SsaExpr>, tys: Map<Seq<char>, ExprType>) -> Option<Seq<ExprType>>
    decreases args, 1nat,
{
    if args.len() == 0 {
        Some(Seq::empty())
    } else {
        match (ssa_arg_types(args.subrange(0, args.len() - 1), tys), ssa_typing(args[args.len() - 1], tys)) {
            (Some(ts), Some(t)) => Some(ts.push(t)),
            _ => None,
        }
    }
}

/// Arguments have types only where each of them has one.
pub proof fn lemma_arg_types_need_each(args: Seq<SsaExpr>, tys: Map<Seq<char>, ExprType>, k: int)
    requires
        0 <= k < args.len(),
        ssa_typing(args[k], tys) is None,
    ensures
        ssa_arg_types(args, tys) is None,
    decreases args.len(),
{
    if k < args.len() - 1 {
        let front = args.subrange(0, args.len() - 1);
        assert(front[k] == args[k]);
        lemma_arg_types_need_each(front, tys, k);
    }
}

fn fresh_element(collection: &SymValue, name: &String) -> (r: SymValue)
    ensures
        sym_type(r) == fresh_element_type(sym_type(*collection)),
{
    match collection {
        SymValue::ArrayStr(_) | SymValue::HashStr(_) => SymValue::Str(StrExpr::Var(copy_string(name))),
        _ => SymValue::Int(IntExpr::Var(copy_string(name))),
    }
}

/// The symbolic value of an SSA expression in `env`.
#[verifier::loop_isolation(false)]
fn eval_ssa_expr(function: &str, e: &SsaExpr, env: &NameMap<SymValue>) -> (r: Result<SymValue, SymExecError>)
    requires
        env.wf(),
    ensures
        r is Ok <==> ssa_typing(*e, env@) is Some,
        r matches Ok(v) ==> Some(sym_type(v)) == ssa_typing(*e, env@),
    decreases e,
{
    match e {
        SsaExpr::Int(v) => Ok(SymValue::Int(IntExpr::Const(*v))),
        SsaExpr::Bool(v) => Ok(SymValue::Bool(BoolExpr::Const(*v))),
        SsaExpr::String(v) => Ok(SymValue::Str(StrExpr::Const(copy_string(v)))),
        SsaExpr::Var(name) => lookup_value(function, env, name),
        SsaExpr::Unary { op, expr } => {
            let v = eval_ssa_expr(function, expr, env)?;
            match op {
                UnaryOp::Neg => Ok(SymValue::Int(IntExpr::Sub(Box::new(IntExpr::Const(0)), Box::new(expect_int(v, function)?)))),
                UnaryOp::BitNot => Ok(SymValue::Int(IntExpr::BitNot(Box::new(expect_int(v, function)?)))),
                UnaryOp::Not => Ok(SymValue::Bool(BoolExpr::Not(Box::new(expect_bool(v, function)?)))),
            }
        },
        SsaExpr::Binary { left, op, right } => {
            let l = eval_ssa_expr(function, left, env)?;
            let r = eval_ssa_expr(function, right, env)?;
            eval_binary(function, *op, l, r)
        },
        SsaExpr::Ite { condition, then_expr, else_expr } => {
            let c = eval_ssa_expr(function, condition, env)?;
            let t = eval_ssa_expr(function, then_expr, env)?;
            let f = eval_ssa_expr(function, else_expr, env)?;
            let c = expect_bool(c, function)?;
            eval_ite(function, c, t, f)
        },
        SsaExpr::Access { kind, collection, index } => {
            let c = eval_ssa_expr(function, collection, env)?;
            let i = eval_ssa_expr(function, index, env)?;
            eval_access(function, *kind, c, i)
        },
        SsaExpr::Store { kind, collection, index, value } => {
            let c = eval_ssa_expr(function, collection, env)?;
            let i = eval_ssa_expr(function, index, env)?;
            let v = match &**value {
                SsaExpr::FreshVar(name) => fresh_element(&c, name),
                _ => eval_ssa_expr(function, value, env)?,
            };
            eval_store(function, *kind, c, i, v)
        },
        SsaExpr::Builtin { function: b, args } => {
            let mut values: Vec<SymValue> = Vec::new();
            let mut i: usize = 0;
            assert(args@.subrange(0, 0) =~= Seq::<SsaExpr>::empty());
            assert(types_of(values@) =~= Seq::<ExprType>::empty());
            while i < args.len()
                invariant
                    env.wf(),
                    i <= args@.len(),
                    ssa_arg_types(args@.subrange(0, i as int), env@) == Some(types_of(values@)),
                decreases args.len() - i,
            {
                proof {
                    assert(decreases_to!(*e => args@[i as int]));
                }
                let v = match eval_ssa_expr(function, &args[i], env) {
                    Ok(v) => v,
                    Err(err) => {
                        proof {
                            lemma_arg_types_need_each(args@, env@, i as int);
                        }
                        return Err(err);
                    },
                };
                proof {
                    let sub = args@.subrange(0, i + 1);
                    assert(sub.subrange(0, sub.len() - 1) =~= args@.subrange(0, i as int));
                    assert(sub[sub.len() - 1] == args@[i as int]);
                }
                let ghost before = values@;
                values.push(v);
                assert(types_of(values@) =~= types_of(before).push(sym_type(v)));
                i += 1;
            }
            assert(args@.subrange(0, i as int) =~= args@);
            eval_builtin(function, *b, &values)
        },
        SsaExpr::FreshVar(name) => Ok(SymValue::Int(IntExpr::Var(copy_string(name)))),
        SsaExpr::FreshArray { element_int, name } => if *element_int {
            Ok(SymValue::ArrayInt(ArrayIntExpr::Var(copy_string(name))))
        } else {
            Ok(SymValue::ArrayStr(ArrayStrExpr::Var(copy_string(name))))
        },
        SsaExpr::FreshHash { value_int, name } => if *value_int {
            Ok(SymValue::HashInt(HashIntExpr::Var(copy_string(name))))
        } else {
            Ok(SymValue::HashStr(HashStrExpr::Var(copy_string(name))))
        },
    }
}

/// The condition under which a result is defined: for an integer or a
/// string, that it equals itself (which fails where its arithmetic is not
/// defined); for a condition, the condition itself.
pub fn well_defined_result_condition(result: &SymValue) -> (r: BoolExpr)
    ensures
        result is Int ==> r is IntCmp,
        result is Str ==> r is StrEq,
        (result is ArrayInt || result is ArrayStr || result is HashInt || result is HashStr) ==> r == BoolExpr::Const(true),
        match *result {
            SymValue::Int(e) => r matches BoolExpr::IntCmp(o, a, b) && o == CmpOp::Eq && int_same(*a, e) && int_same(*b, e),
            SymValue::Str(e) => r matches BoolExpr::StrEq(a, b) && str_same(*a, e) && str_same(*b, e),
            SymValue::Bool(e) => bool_same(r, e),
            _ => true,
        },
{
    match result {
        SymValue::Int(e) => BoolExpr::IntCmp(CmpOp::Eq, Box::new(clone_int(e)), Box::new(clone_int(e))),
        SymValue::Str(e) => BoolExpr::StrEq(Box::new(clone_str(e)), Box::new(clone_str(e))),
        SymValue::Bool(e) => clone_bool(e),
        _ => BoolExpr::Const(true),
    }
}

/// A path being explored: the values of the SSA variables and the condition
/// under which the path is taken.
#[derive(Debug)]
pub struct State {
    pub env: NameMap<SymValue>,
    pub path_condition: BoolExpr,
}

/// A path that returned: its environment, its condition and its result.
#[derive(Debug)]
pub struct CompletedState {
    pub env: NameMap<SymValue>,
    pub path_condition: BoolExpr,
    pub result: SymValue,
}

/// `c` returned through a `return` of `cfg`: its result has the type of
/// that block's returned expression in its environment.
pub open spec fn returned_from(cfg: ControlFlowGraph, c: CompletedState) -> bool {
    &&& c.env.wf()
    &&& exists|b: int| 0 <= b < cfg.blocks@.len() && returns_typed((#[trigger] cfg.blocks@[b]).terminator, c)
}

/// `t` returns an expression that has the type of `c`'s result in `c`'s environment.
pub open spec fn returns_typed(t: Terminator, c: CompletedState) -> bool {
    t matches Terminator::Return(x) && Some(sym_type(c.result)) == ssa_typing(x, c.env@)
}

/// Inputs of a function on which its postcondition fails.
#[derive(Debug)]
pub struct Counterexample {
    pub function: String,
    pub assignments: NameMap<ModelValue>,
}

/// The functions of a file ready for verification: their order in the
/// file, their contracts, their graphs and the bounds of the search.
#[derive(Debug)]
pub struct Program {
    pub order: Vec<String>,
    pub specs: NameMap<FunctionSpec>,
    pub cfgs: NameMap<ControlFlowGraph>,
    pub limits: Limits,
}

impl Program {
    /// Its tables have distinct keys and its contracts are well formed.
    pub open spec fn wf(&self) -> bool {
        &&& self.specs.wf()
        &&& self.cfgs.wf()
        &&& forall|k: Seq<char>| #[trigger] self.specs@.contains_key(k) ==> self.specs@[k].wf()
    }
}

/// The verdict on one function.
#[derive(Debug)]
pub enum VerificationResult {
    Verified { function: String },
    Counterexample(Counterexample),
}

/// Every environment of `s` has distinct keys.
pub open spec fn states_wf(s: Seq<State>) -> bool {
    forall|i: int| 0 <= i < s.len() ==> (#[trigger] s[i]).env.wf()
}

/// The types of the annotation variables of the first `n` parameters:
/// each parameter, and for an array its length `NAME__len`.
pub open spec fn param_types(params: Seq<SsaParam>, types: Seq<Type>, n: nat) -> Map<Seq<char>, ExprType>
    decreases n,
{
    if n == 0 {
        Map::empty()
    } else {
        let before = param_types(params, types, (n - 1) as nat);
        let ty = types[n - 1];
        let name = params[n - 1].source@;
        let with_param = before.insert(name, expr_type_of(ty));
        if ty == Type::ArrayInt || ty == Type::ArrayStr {
            with_param.insert(name + "__len"@, ExprType::Int)
        } else {
            with_param
        }
    }
}

/// The number of parameters that have a type.
pub open spec fn typed_count(params: Seq<SsaParam>, types: Seq<Type>) -> nat {
    if params.len() <= types.len() { params.len() } else { types.len() }
}

/// The environment in which a precondition is read: each parameter bound to
/// its value in `values` (its symbol where `values` is `None`), and each
/// array's length to its symbol `NAME__len`.
fn precondition_env(params: &Vec<SsaParam>, types: &Vec<Type>, values: &Vec<SymValue>, symbolic: bool) -> (r: NameMap<
    SymValue,
>)
    requires
        !symbolic ==> values@.len() >= typed_count(params@, types@),
        !symbolic ==> forall|i: int|
            0 <= i < typed_count(params@, types@) ==> sym_type(#[trigger] values@[i]) == expr_type_of(types@[i]),
    ensures
        r.wf(),
        r@ == param_types(params@, types@, typed_count(params@, types@)),
{
    let n = if params.len() <= types.len() { params.len() } else { types.len() };
    let mut env: NameMap<SymValue> = NameMap::new();
    let mut i: usize = 0;
    while i < n
        invariant
            i <= n,
            n == typed_count(params@, types@),
            !symbolic ==> values@.len() >= n,
            !symbolic ==> forall|j: int| 0 <= j < n ==> sym_type(#[trigger] values@[j]) == expr_type_of(types@[j]),
            env.wf(),
            env@ == param_types(params@, types@, i as nat),
        decreases n - i,
    {
        let source = &params[i].source;
        let ty = types[i];
        let value = if symbolic { symbolic_value(source.as_str(), ty) } else { clone_sym(&values[i]) };
        env.insert(copy_string(source), value);
        if ty == Type::ArrayInt || ty == Type::ArrayStr {
            let mut len_name = copy_string(source);
            push_str(&mut len_name, "__len");
            env.insert(copy_string(&len_name), SymValue::Int(IntExpr::Var(len_name)));
        }
        i += 1;
    }
    env
}

/// Whether `condition` can hold; a solver that cannot tell is an error.
fn satisfiable(function: &String, condition: &BoolExpr, timeout_ms: u32) -> (r: Result<bool, SymExecError>)
    ensures
        r matches Err(e) ==> e is Smt,
        crate::smt::query_script(*condition).contains('\0') ==> (r matches Err(
            SymExecError::Smt(crate::smt::SmtError::Unknown { function: f, .. }),
        ) && f@ == function@),
{
    match crate::smt::is_satisfiable_with_timeout(function.as_str(), condition, timeout_ms) {
        Ok(b) => Ok(b),
        Err(e) => Err(SymExecError::Smt(e)),
    }
}

fn path_limit(cfg: &ControlFlowGraph, program: &Program) -> (r: SymExecError)
    ensures
        r matches SymExecError::PathLimitExceeded { function, max_paths } && function@ == cfg.name@ && max_paths
            == program.limits.max_paths,
{
    SymExecError::PathLimitExceeded { function: copy_string(&cfg.name), max_paths: program.limits.max_paths }
}

/// The completed paths of `cfg` from `initial`, explored breadth first from
/// the entry block: a branch is followed on each side whose condition can
/// hold, and calls take the completed paths of their callee. At most
/// `depth` calls may be nested.
#[verifier::loop_isolation(false)]
fn execute_cfg_from_state(program: &Program, cfg: &ControlFlowGraph, initial: State, depth: usize) -> (r: Result<
    Vec<CompletedState>,
    SymExecError,
>)
    requires
        program.wf(),
        initial.env.wf(),
    ensures
        r matches Ok(done) ==> forall|i: int| 0 <= i < done@.len() ==> returned_from(*cfg, #[trigger] done@[i]),
        cfg.entry >= cfg.blocks@.len() ==> (r matches Err(SymExecError::MissingBlock { function, block_id })
            && function@ == cfg.name@ && block_id == cfg.entry),
    decreases depth, 1nat,
{
    let mut ids: Vec<usize> = Vec::new();
    let mut states: Vec<State> = Vec::new();
    ids.push(cfg.entry);
    states.push(initial);
    let mut budget: usize = 1;
    let mut completed: Vec<CompletedState> = Vec::new();
    while ids.len() > 0
        invariant
            program.wf(),
            ids@.len() == states@.len(),
            states_wf(states@),
            forall|i: int| 0 <= i < completed@.len() ==> returned_from(*cfg, #[trigger] completed@[i]),
            cfg.entry >= cfg.blocks@.len() ==> ids@.len() == 1 && ids@[0] == cfg.entry,
        decreases (usize::MAX - budget) + ids@.len(),
    {
        let block_id = ids.remove(0);
        let state = states.remove(0);
        let ghost measure = (usize::MAX - budget) + ids@.len();
        if block_id >= cfg.blocks.len() {
            return Err(SymExecError::MissingBlock { function: copy_string(&cfg.name), block_id });
        }
        let block = &cfg.blocks[block_id];
        let mut active: Vec<State> = Vec::new();
        active.push(state);
        let mut si: usize = 0;
        while si < block.stmts.len()
            invariant
                states_wf(active@),
                (usize::MAX - budget) + ids@.len() == measure,
                ids@.len() == states@.len(),
                states_wf(states@),
            decreases block.stmts.len() - si,
        {
            let mut next: Vec<State> = Vec::new();
            match &block.stmts[si] {
                BlockStmt::Assign(name, expr) => {
                    while active.len() > 0
                        invariant
                            states_wf(active@),
                            states_wf(next@),
                        decreases active.len(),
                    {
                        let mut st = active.remove(0);
                        let value = eval_ssa_expr(cfg.name.as_str(), expr, &st.env)?;
                        st.env.insert(copy_string(name), value);
                        next.push(st);
                    }
                },
                BlockStmt::CallAssign { name, callee, args } => {
                    while active.len() > 0
                        invariant
                            program.wf(),
                            states_wf(active@),
                            states_wf(next@),
                        decreases active.len(),
                    {
                        let st = active.remove(0);
                        let mut arg_values: Vec<SymValue> = Vec::new();
                        let mut k: usize = 0;
                        while k < args.len()
                            invariant
                                st.env.wf(),
                            decreases args.len() - k,
                        {
                            let v = eval_ssa_expr(cfg.name.as_str(), &args[k], &st.env)?;
                            arg_values.push(v);
                            k += 1;
                        }
                        let mut outcomes = execute_call(program, &cfg.name, callee, arg_values, clone_bool(&st.path_condition), depth)?;
                        while outcomes.len() > 0
                            invariant
                                st.env.wf(),
                                states_wf(next@),
                            decreases outcomes.len(),
                        {
                            let outcome = outcomes.remove(0);
                            let mut env = st.env.duplicate();
                            env.insert(copy_string(name), outcome.result);
                            next.push(State { env, path_condition: outcome.path_condition });
                        }
                    }
                },
            }
            active = next;
            si += 1;
        }
        while active.len() > 0
            invariant
                program.wf(),
                states_wf(active@),
                (usize::MAX - budget) + ids@.len() == measure,
                ids@.len() == states@.len(),
                states_wf(states@),
                block_id < cfg.blocks@.len(),
                *block == cfg.blocks@[block_id as int],
                forall|i: int| 0 <= i < completed@.len() ==> returned_from(*cfg, #[trigger] completed@[i]),
            decreases active.len(),
        {
            let st = active.remove(0);
            assert(st.env.wf());
            match &block.terminator {
                Terminator::Return(expr) => {
                    let result = eval_ssa_expr(cfg.name.as_str(), expr, &st.env)?;
                    let ghost before = completed@;
                    let done = CompletedState { env: st.env, path_condition: st.path_condition, result };
                    assert(returned_from(*cfg, done)) by {
                        assert(returns_typed(cfg.blocks@[block_id as int].terminator, done));
                    }
                    completed.push(done);
                },
                Terminator::Goto { target, args } => {
                    if *target >= cfg.blocks.len() {
                        return Err(SymExecError::MissingBlock { function: copy_string(&cfg.name), block_id: *target });
                    }
                    let target_block = &cfg.blocks[*target];
                    let mut next_env = st.env.duplicate();
                    let mut k: usize = 0;
                    while k < target_block.params.len() && k < args.len()
                        invariant
                            st.env.wf(),
                            next_env.wf(),
                        decreases args.len() - k,
                    {
                        let value = eval_ssa_expr(cfg.name.as_str(), &args[k], &st.env)?;
                        next_env.insert(copy_string(&target_block.params[k].ssa_name), value);
                        k += 1;
                    }
                    if budget == usize::MAX {
                        return Err(path_limit(cfg, program));
                    }
                    ids.push(*target);
                    states.push(State { env: next_env, path_condition: st.path_condition });
                    budget += 1;
                },
                Terminator::Branch { condition, then_target, else_target } => {
                    let cond = expect_bool(eval_ssa_expr(cfg.name.as_str(), condition, &st.env)?, cfg.name.as_str())?;
                    let then_pc = BoolExpr::And(Box::new(clone_bool(&st.path_condition)), Box::new(clone_bool(&cond)));
                    let else_pc = BoolExpr::And(Box::new(clone_bool(&st.path_condition)), Box::new(BoolExpr::Not(Box::new(cond))));
                    if satisfiable(&cfg.name, &then_pc, program.limits.solver_timeout_ms)? {
                        if budget >= program.limits.max_paths || budget == usize::MAX {
                            return Err(path_limit(cfg, program));
                        }
                        ids.push(*then_target);
                        states.push(State { env: st.env.duplicate(), path_condition: then_pc });
                        budget += 1;
                    }
                    if satisfiable(&cfg.name, &else_pc, program.limits.solver_timeout_ms)? {
                        if budget >= program.limits.max_paths || budget == usize::MAX {
                            return Err(path_limit(cfg, program));
                        }
                        ids.push(*else_target);
                        states.push(State { env: st.env, path_condition: else_pc });
                        budget += 1;
                    }
                },
                Terminator::LoopBoundExceeded => {
                    if satisfiable(&cfg.name, &st.path_condition, program.limits.solver_timeout_ms)? {
                        return Err(SymExecError::LoopBoundExceeded { function: copy_string(&cfg.name) });
                    }
                },
                Terminator::Die | Terminator::InvariantInitFailed | Terminator::InvariantPreservationFailed
                | Terminator::AssertFailed => {
                    if satisfiable(&cfg.name, &st.path_condition, program.limits.solver_timeout_ms)? {
                        return Err(SymExecError::DieReached { function: copy_string(&cfg.name) });
                    }
                },
                Terminator::Unreachable => {},
            }
        }
    }
    Ok(completed)
}

/// The completed paths of a call of `callee` with `args` from a path under
/// `caller_path_condition`: the callee's body, entered under that condition
/// and the callee's precondition on the arguments.
fn execute_call(
    program: &Program,
    caller: &String,
    callee: &String,
    args: Vec<SymValue>,
    caller_path_condition: BoolExpr,
    depth: usize,
) -> (r: Result<Vec<CompletedState>, SymExecError>)
    requires
        program.wf(),
    ensures
        !program.specs@.contains_key(callee@) || !program.cfgs@.contains_key(callee@) ==> (r matches Err(
            SymExecError::UnknownCallee { function: f, callee: c },
        ) && f@ == caller@ && c@ == callee@),
        program.specs@.contains_key(callee@) && program.cfgs@.contains_key(callee@) && depth == 0 ==> (r matches Err(
            SymExecError::RecursionDetected { function: f },
        ) && f@ == callee@),
        r matches Ok(done) ==> program.cfgs@.contains_key(callee@) && forall|i: int|
            0 <= i < done@.len() ==> returned_from(program.cfgs@[callee@], #[trigger] done@[i]),
    decreases depth, 0nat,
{
    let spec = match program.specs.get(callee) {
        Some(s) => s,
        None => {
            return Err(SymExecError::UnknownCallee { function: copy_string(caller), callee: copy_string(callee) });
        },
    };
    let cfg = match program.cfgs.get(callee) {
        Some(c) => c,
        None => {
            return Err(SymExecError::UnknownCallee { function: copy_string(caller), callee: copy_string(callee) });
        },
    };
    if depth == 0 {
        return Err(SymExecError::RecursionDetected { function: copy_string(callee) });
    }
    let n = if cfg.params.len() <= spec.arg_types.len() { cfg.params.len() } else { spec.arg_types.len() };
    let n = if n <= args.len() { n } else { args.len() };
    let mut env: NameMap<SymValue> = NameMap::new();
    let mut annotation_env: NameMap<SymValue> = NameMap::new();
    let mut i: usize = 0;
    while i < n
        invariant
            n <= cfg.params@.len(),
            n <= spec.arg_types@.len(),
            n <= args@.len(),
            env.wf(),
            annotation_env.wf(),
        decreases n - i,
    {
        let param = &cfg.params[i];
        env.insert(copy_string(&param.ssa_name), clone_sym(&args[i]));
        annotation_env.insert(copy_string(&param.source), clone_sym(&args[i]));
        let ty = spec.arg_types[i];
        if ty == Type::ArrayInt || ty == Type::ArrayStr {
            let mut len_name = copy_string(&param.source);
            push_str(&mut len_name, "__len");
            annotation_env.insert(copy_string(&len_name), SymValue::Int(IntExpr::Var(len_name)));
        }
        i += 1;
    }
    let pre = expect_bool(eval_expr(callee.as_str(), &spec.pre, &annotation_env)?, callee.as_str())?;
    let path_condition = BoolExpr::And(Box::new(caller_path_condition), Box::new(pre));
    execute_cfg_from_state(program, cfg, State { env, path_condition }, depth - 1)
}

/// Whether `e` calls the function `name`.
pub open spec fn expr_calls(e: Expr, name: Seq<char>) -> bool
    decreases e,
{
    match e {
        Expr::Call { function, args } => function@ == name || exists|i: int|
            0 <= i < args@.len() && expr_calls(#[trigger] args@[i], name),
        Expr::Unary { expr, .. } => expr_calls(*expr, name),
        Expr::Binary { left, right, .. } => expr_calls(*left, name) || expr_calls(*right, name),
        Expr::Ternary { condition, then_expr, else_expr } => expr_calls(*condition, name) || expr_calls(*then_expr, name)
            || expr_calls(*else_expr, name),
        Expr::Access { index, .. } => expr_calls(*index, name),
        Expr::Builtin { args, .. } => exists|i: int| 0 <= i < args@.len() && expr_calls(#[trigger] args@[i], name),
        _ => false,
    }
}

/// Whether statement `s` calls the function `name` (a `die` message is never
/// evaluated).
pub open spec fn stmt_calls(s: Stmt, name: Seq<char>) -> bool
    decreases s,
{
    match s {
        Stmt::Assign { expr, .. } | Stmt::Return(expr) => expr_calls(expr, name),
        Stmt::ArrayAssign { index, expr, .. } => expr_calls(index, name) || expr_calls(expr, name),
        Stmt::HashAssign { key, expr, .. } => expr_calls(key, name) || expr_calls(expr, name),
        Stmt::If { condition, then_branch, else_branch } => expr_calls(condition, name) || (exists|i: int|
            0 <= i < then_branch@.len() && stmt_calls(#[trigger] then_branch@[i], name)) || (exists|i: int|
            0 <= i < else_branch@.len() && stmt_calls(#[trigger] else_branch@[i], name)),
        Stmt::Push { value, .. } => expr_calls(value, name),
        Stmt::ArrayInit { elements, .. } => exists|i: int| 0 <= i < elements@.len() && expr_calls(#[trigger] elements@[i], name),
        _ => false,
    }
}

/// Whether some statement of `s` calls the function `name`.
pub open spec fn stmts_call(s: Seq<Stmt>, name: Seq<char>) -> bool {
    exists|i: int| 0 <= i < s.len() && stmt_calls(#[trigger] s[i], name)
}

/// Appends to `calls` the name of each function that `e` calls, in the order
/// in which the calls are written.
fn collect_calls_from_expr(e: &Expr, calls: &mut Vec<String>)
    ensures
        forall|n: Seq<char>| #[trigger] listed(final(calls)@, n) <==> listed(old(calls)@, n) || expr_calls(*e, n),
    decreases e, 1nat,
{
    match e {
        Expr::Unary { expr, .. } => {
            collect_calls_from_expr(expr, calls);
        },
        Expr::Binary { left, right, .. } => {
            collect_calls_from_expr(left, calls);
            collect_calls_from_expr(right, calls);
        },
        Expr::Ternary { condition, then_expr, else_expr } => {
            collect_calls_from_expr(condition, calls);
            collect_calls_from_expr(then_expr, calls);
            collect_calls_from_expr(else_expr, calls);
        },
        Expr::Access { index, .. } => {
            collect_calls_from_expr(index, calls);
        },
        Expr::Call { function, args } => {
            let name = copy_string(function);
            proof {
                lemma_listed_push(calls@, name);
            }
            calls.push(name);
            collect_calls_from_args(args, calls);
        },
        Expr::Builtin { args, .. } => {
            collect_calls_from_args(args, calls);
        },
        _ => {},
    }
}

/// Appends to `calls` the name of each function that the expressions of
/// `args` call, in order.
fn collect_calls_from_args(args: &Vec<Expr>, calls: &mut Vec<String>)
    ensures
        forall|n: Seq<char>| #[trigger] listed(final(calls)@, n) <==> listed(old(calls)@, n) || exists|j: int|
            0 <= j < args@.len() && expr_calls(#[trigger] args@[j], n),
    decreases args, 0nat,
{
    let mut i: usize = 0;
    while i < args.len()
        invariant
            i <= args@.len(),
            forall|n: Seq<char>| #[trigger] listed(calls@, n) <==> listed(old(calls)@, n) || exists|j: int|
                0 <= j < i && expr_calls(#[trigger] args@[j], n),
        decreases args.len() - i,
    {
        proof {
            assert(decreases_to!(*args => args@[i as int]));
        }
        let ghost mid = calls@;
        collect_calls_from_expr(&args[i], calls);
        proof {
            assert forall|n: Seq<char>| #[trigger] listed(calls@, n) <==> listed(old(calls)@, n) || exists|j: int|
                0 <= j < i + 1 && expr_calls(#[trigger] args@[j], n) by {
                if expr_calls(args@[i as int], n) {
                    assert(listed(calls@, n));
                }
                if exists|j: int| 0 <= j < i + 1 && expr_calls(#[trigger] args@[j], n) {
                    let j = choose|j: int| 0 <= j < i + 1 && expr_calls(#[trigger] args@[j], n);
                    if j < i {
                        assert(listed(mid, n));
                    }
                }
            }
        }
        i += 1;
    }
}


/// Appends to `calls` the name of each function that statement `s` calls.
fn collect_calls_from_stmt(s: &Stmt, calls: &mut Vec<String>)
    ensures
        forall|n: Seq<char>| #[trigger] listed(final(calls)@, n) <==> listed(old(calls)@, n) || stmt_calls(*s, n),
    decreases s, 1nat,
{
    match s {
        Stmt::Assign { expr, .. } | Stmt::Return(expr) => {
            collect_calls_from_expr(expr, calls);
        },
        Stmt::ArrayAssign { index, expr, .. } => {
            collect_calls_from_expr(index, calls);
            collect_calls_from_expr(expr, calls);
        },
        Stmt::HashAssign { key, expr, .. } => {
            collect_calls_from_expr(key, calls);
            collect_calls_from_expr(expr, calls);
        },
        Stmt::If { condition, then_branch, else_branch } => {
            collect_calls_from_expr(condition, calls);
            collect_calls_from_stmts(then_branch, calls);
            collect_calls_from_stmts(else_branch, calls);
        },
        Stmt::Push { value, .. } => {
            collect_calls_from_expr(value, calls);
        },
        Stmt::ArrayInit { elements, .. } => {
            collect_calls_from_args(elements, calls);
        },
        _ => {},
    }
}

/// Appends to `calls` the name of each function that the statements of `s`
/// call, in order.
fn collect_calls_from_stmts(s: &Vec<Stmt>, calls: &mut Vec<String>)
    ensures
        forall|n: Seq<char>| #[trigger] listed(final(calls)@, n) <==> listed(old(calls)@, n) || stmts_call(s@, n),
    decreases s, 0nat,
{
    let mut i: usize = 0;
    while i < s.len()
        invariant
            i <= s@.len(),
            forall|n: Seq<char>| #[trigger] listed(calls@, n) <==> listed(old(calls)@, n) || stmts_call(s@.subrange(0, i as int), n),
        decreases s.len() - i,
    {
        proof {
            assert(decreases_to!(*s => s@[i as int]));
        }
        let ghost mid = calls@;
        collect_calls_from_stmt(&s[i], calls);
        proof {
            let w = s@.subrange(0, i + 1);
            assert forall|n: Seq<char>| #[trigger] listed(calls@, n) <==> listed(old(calls)@, n) || stmts_call(w, n) by {
                if stmts_call(w, n) {
                    let k = choose|k: int| 0 <= k < w.len() && stmt_calls(#[trigger] w[k], n);
                    if k < i {
                        assert(s@.subrange(0, i as int)[k] == w[k]);
                        assert(listed(mid, n));
                    }
                }
                if stmts_call(s@.subrange(0, i as int), n) {
                    let k = choose|k: int| 0 <= k < i && stmt_calls(#[trigger] s@.subrange(0, i as int)[k], n);
                    assert(w[k] == s@.subrange(0, i as int)[k]);
                }
                if stmt_calls(s@[i as int], n) {
                    assert(w[i as int] == s@[i as int]);
                }
            }
        }
        i += 1;
    }
    proof {
        assert(s@.subrange(0, s@.len() as int) =~= s@);
    }
}

/// The functions that `function` calls, each once, in the order of their names.
pub fn collect_called_functions(function: &FunctionAst) -> (r: Vec<String>)
    ensures
        forall|n: Seq<char>| #[trigger] listed(r@, n) <==> stmts_call(function.body@, n),
        strictly_sorted(r@),
{
    let mut calls: Vec<String> = Vec::new();
    collect_calls_from_stmts(&function.body, &mut calls);
    sorted_unique(calls)
}

/// The callees of `node` in `graph`: those of its first entry.
fn callees_of<'a>(graph: &'a Vec<(String, Vec<String>)>, node: &String) -> (r: Option<&'a Vec<String>>)
    ensures
        r matches Some(c) ==> exists|i: int| first_entry(graph@, i, node@) && graph@[i].1 == *c,
        r is None ==> forall|i: int| 0 <= i < graph@.len() ==> graph@[i].0@ != node@,
{
    let mut i: usize = 0;
    while i < graph.len()
        invariant
            i <= graph@.len(),
            forall|j: int| 0 <= j < i ==> graph@[j].0@ != node@,
        decreases graph.len() - i,
    {
        if string_eq(&graph[i].0, node) {
            proof {
                assert(first_entry(graph@, i as int, node@));
            }
            return Some(&graph[i].1);
        }
        i += 1;
    }
    None
}

/// Entry `i` is the first of `graph` for the function `name`.
pub open spec fn first_entry(graph: Seq<(String, Vec<String>)>, i: int, name: Seq<char>) -> bool {
    0 <= i < graph.len() && graph[i].0@ == name && forall|j: int| 0 <= j < i ==> graph[j].0@ != name
}

/// The function `name` is not among the callees of its first entry.
pub open spec fn no_self_call(graph: Seq<(String, Vec<String>)>, name: Seq<char>) -> bool {
    forall|i: int| #[trigger] first_entry(graph, i, name) ==> !listed(graph[i].1@, name)
}

/// Every function that the search has finished (`false`) calls itself not
/// directly.
pub open spec fn finished_ok(graph: Seq<(String, Vec<String>)>, states: Map<Seq<char>, bool>) -> bool {
    forall|k: Seq<char>| #[trigger] states.contains_key(k) && !states[k] ==> no_self_call(graph, k)
}

/// Depth-first search from `node`: an error where it reaches a function
/// that is being visited (`true` in `states`), or where the search goes
/// deeper than `fuel`.
fn visit(node: &String, graph: &Vec<(String, Vec<String>)>, states: &mut NameMap<bool>, fuel: usize) -> (r: Result<(), SymExecError>)
    requires
        old(states).wf(),
        finished_ok(graph@, old(states)@),
    ensures
        final(states).wf(),
        finished_ok(graph@, final(states)@),
        forall|k: Seq<char>| old(states)@.contains_key(k) ==> #[trigger] final(states)@.contains_key(k) && final(states)@[k] == old(states)@[k],
        old(states)@.contains_key(node@) && old(states)@[node@] ==> r is Err,
        r is Ok ==> final(states)@.contains_key(node@) && !final(states)@[node@],
        r matches Err(e) ==> e is RecursionDetected,
    decreases fuel,
{
    match states.get(node) {
        Some(visiting) => {
            if *visiting {
                return Err(SymExecError::RecursionDetected { function: copy_string(node) });
            }
            return Ok(());
        },
        None => {},
    }
    if fuel == 0 {
        return Err(SymExecError::RecursionDetected { function: copy_string(node) });
    }
    states.insert(copy_string(node), true);
    let found = callees_of(graph, node);
    if let Some(callees) = found {
        let mut i: usize = 0;
        while i < callees.len()
            invariant
                fuel > 0,
                states.wf(),
                finished_ok(graph@, states@),
                states@.contains_key(node@) && states@[node@],
                forall|k: Seq<char>| old(states)@.contains_key(k) ==> #[trigger] states@.contains_key(k) && states@[k] == old(states)@[k],
                forall|j: int| 0 <= j < i ==> (#[trigger] callees@[j])@ != node@,
            decreases callees.len() - i,
        {
            let ghost before = states@;
            let sub = visit(&callees[i], graph, states, fuel - 1);
            if sub.is_err() {
                return sub;
            }
            proof {
                assert(before.contains_key(node@));
                assert(states@.contains_key(node@));
                assert(states@[node@] == before[node@]);
                assert forall|k: Seq<char>| old(states)@.contains_key(k) implies #[trigger] states@.contains_key(k) && states@[k] == old(states)@[k] by {
                    assert(before.contains_key(k));
                }
            }
            i += 1;
        }
        proof {
            assert(!listed(callees@, node@));
        }
    }
    let ghost mid = states@;
    states.insert(copy_string(node), false);
    proof {
        assert forall|k: Seq<char>| #[trigger] states@.contains_key(k) && !states@[k] implies no_self_call(graph@, k) by {
            if k != node@ {
                assert(mid.contains_key(k) && !mid[k]);
            }
        }
    }
    Ok(())
}

/// An error naming a function of `graph` that calls itself, directly or
/// through others; the functions are searched in the order of `graph`.
fn detect_recursion(graph: &Vec<(String, Vec<String>)>) -> (r: Result<(), SymExecError>)
    ensures
        r is Ok ==> forall|i: int| #[trigger] first_entry(graph@, i, graph@[i].0@) ==> !listed(graph@[i].1@, graph@[i].0@),
        r matches Err(e) ==> e is RecursionDetected,
{
    let mut states: NameMap<bool> = NameMap::new();
    let fuel = if graph.len() < usize::MAX - 1 { graph.len() + 2 } else { usize::MAX };
    let mut i: usize = 0;
    while i < graph.len()
        invariant
            i <= graph@.len(),
            states.wf(),
            finished_ok(graph@, states@),
            forall|j: int| 0 <= j < i ==> states@.contains_key(#[trigger] graph@[j].0@) && !states@[graph@[j].0@],
        decreases graph.len() - i,
    {
        visit(&graph[i].0, graph, &mut states, fuel)?;
        i += 1;
    }
    proof {
        assert forall|i: int| #[trigger] first_entry(graph@, i, graph@[i].0@) implies !listed(graph@[i].1@, graph@[i].0@) by {
            assert(states@.contains_key(graph@[i].0@) && !states@[graph@[i].0@]);
            assert(no_self_call(graph@, graph@[i].0@));
        }
    }
    Ok(())
}


/// The completed paths of `cfg` from its entry, with each parameter bound to
/// its symbol and the path condition starting as the precondition.
pub fn execute_cfg(program: &Program, function: &FunctionSpec, cfg: &ControlFlowGraph) -> (r: Result<
    Vec<CompletedState>,
    SymExecError,
>)
    requires
        program.wf(),
    ensures
        r is Ok ==> sym_typing(function.pre, param_types(cfg.params@, function.arg_types@, typed_count(cfg.params@, function.arg_types@)))
            == Some(ExprType::Bool),
        r matches Ok(done) ==> forall|i: int| 0 <= i < done@.len() ==> returned_from(*cfg, #[trigger] done@[i]),
        sym_typing(function.pre, param_types(cfg.params@, function.arg_types@, typed_count(cfg.params@, function.arg_types@)))
            == Some(ExprType::Bool) && cfg.entry >= cfg.blocks@.len() ==> (r matches Err(
            SymExecError::MissingBlock { function: f, block_id },
        ) && f@ == cfg.name@ && block_id == cfg.entry),
{
    let n = if cfg.params.len() <= function.arg_types.len() { cfg.params.len() } else { function.arg_types.len() };
    let mut env: NameMap<SymValue> = NameMap::new();
    let mut i: usize = 0;
    while i < n
        invariant
            n <= cfg.params@.len(),
            n <= function.arg_types@.len(),
            env.wf(),
        decreases n - i,
    {
        let param = &cfg.params[i];
        env.insert(copy_string(&param.ssa_name), symbolic_value(param.source.as_str(), function.arg_types[i]));
        i += 1;
    }
    let no_values: Vec<SymValue> = Vec::new();
    let annotation_env = precondition_env(&cfg.params, &function.arg_types, &no_values, true);
    let pre = expect_bool(eval_expr(cfg.name.as_str(), &function.pre, &annotation_env)?, cfg.name.as_str())?;
    execute_cfg_from_state(program, cfg, State { env, path_condition: pre }, program.order.len())
}

/// The name of the function that a verdict is about.
pub open spec fn verdict_function(v: VerificationResult) -> Seq<char> {
    match v {
        VerificationResult::Verified { function } => function@,
        VerificationResult::Counterexample(c) => c.function@,
    }
}

/// What the solver answered for one completed path: its result is never
/// defined, the postcondition holds on it, or it fails for the given values
/// of the parameters.
#[derive(Debug)]
pub enum PathOutcome {
    Undefined,
    Holds,
    Fails(NameMap<ModelValue>),
}

/// The position of the first failing path of `outcomes`, if any.
pub open spec fn first_failure(outcomes: Seq<PathOutcome>) -> Option<int>
    decreases outcomes.len(),
{
    if outcomes.len() == 0 {
        None
    } else {
        match first_failure(outcomes.drop_last()) {
            Some(i) => Some(i),
            None => if outcomes.last() is Fails {
                Some(outcomes.len() - 1)
            } else {
                None
            },
        }
    }
}

/// The first failing path is one, and the paths before it do not fail.
pub proof fn lemma_first_failure(outcomes: Seq<PathOutcome>)
    ensures
        first_failure(outcomes) matches Some(i) ==> 0 <= i < outcomes.len() && outcomes[i] is Fails && forall|j: int|
            0 <= j < i ==> !(#[trigger] outcomes[j] is Fails),
        first_failure(outcomes) is None ==> forall|j: int| 0 <= j < outcomes.len() ==> !(#[trigger] outcomes[j] is Fails),
    decreases outcomes.len(),
{
    if outcomes.len() > 0 {
        let front = outcomes.drop_last();
        lemma_first_failure(front);
        assert forall|j: int| 0 <= j < front.len() implies front[j] == outcomes[j] by {}
    }
}

/// There are paths, and the result of none of them is ever defined.
pub open spec fn all_undefined(outcomes: Seq<PathOutcome>) -> bool {
    outcomes.len() > 0 && forall|j: int| 0 <= j < outcomes.len() ==> #[trigger] outcomes[j] is Undefined
}

/// The verdict on a function from the answers for its completed paths, in
/// the order of exploration: a counterexample from the first path that
/// fails; where none fails, an error if every path's result is undefined
/// (and there is one), and otherwise verified.
pub fn verdict(function: &String, outcomes: Vec<PathOutcome>) -> (r: Result<VerificationResult, SymExecError>)
    ensures
        first_failure(outcomes@) matches Some(i) ==> (r matches Ok(VerificationResult::Counterexample(c))
            && c.function@ == function@ && outcomes@[i] == PathOutcome::Fails(c.assignments)),
        first_failure(outcomes@) is None && all_undefined(outcomes@) ==> (r matches Err(
            SymExecError::NoValidPaths { function: f },
        ) && f@ == function@),
        first_failure(outcomes@) is None && !all_undefined(outcomes@) ==> (r matches Ok(
            VerificationResult::Verified { function: f },
        ) && f@ == function@),
{
    let ghost all = outcomes@;
    proof {
        lemma_first_failure(all);
    }
    assert(all.len() == outcomes.len());
    let mut rest = outcomes;
    let mut i: usize = 0;
    let mut saw_valid_path = false;
    let mut saw_invalid_path = false;
    while rest.len() > 0
        invariant
            i + rest@.len() == all.len(),
            all.len() <= usize::MAX,
            all == outcomes@,
            rest@ == all.subrange(i as int, all.len() as int),
            forall|j: int| 0 <= j < i ==> !(#[trigger] all[j] is Fails),
            saw_invalid_path <==> exists|j: int| 0 <= j < i && #[trigger] all[j] is Undefined,
            saw_valid_path <==> exists|j: int| 0 <= j < i && !(#[trigger] all[j] is Undefined),
        decreases rest.len(),
    {
        let ghost before = rest@;
        let outcome = rest.remove(0);
        assert(outcome == all[i as int]);
        let ghost this = outcome;
        match outcome {
            PathOutcome::Undefined => {
                saw_invalid_path = true;
            },
            PathOutcome::Holds => {
                saw_valid_path = true;
            },
            PathOutcome::Fails(assignments) => {
                proof {
                    lemma_first_failure(all);
                    assert(all[i as int] is Fails);
                    match first_failure(all) {
                        Some(k) => {
                            if k < i {
                                assert(!(all[k] is Fails));
                            }
                            assert(k == i);
                        },
                        None => {},
                    }
                    assert(this == PathOutcome::Fails(assignments));
                    assert(first_failure(all) == Some(i as int));
                }
                return Ok(VerificationResult::Counterexample(Counterexample { function: copy_string(function), assignments }));
            },
        }
        assert(rest@ =~= all.subrange(i + 1, all.len() as int));
        i += 1;
    }
    if !saw_valid_path && saw_invalid_path {
        return Err(SymExecError::NoValidPaths { function: copy_string(function) });
    }
    proof {
        if all_undefined(all) {
            assert(all[0] is Undefined);
        }
    }
    Ok(VerificationResult::Verified { function: copy_string(function) })
}

/// The condition that an integer result stays within 64 bits (`true` for
/// results of other types): the postcondition is checked only there.
pub fn result_in_range(result: &SymValue) -> (r: BoolExpr)
    ensures
        match *result {
            SymValue::Int(e) => r matches BoolExpr::Not(o) && (*o matches BoolExpr::Overflow(v) && v@.len() == 1 && int_same(
                v@[0],
                e,
            )),
            _ => r == BoolExpr::Const(true),
        },
{
    match result {
        SymValue::Int(r) => {
            let mut exprs: Vec<IntExpr> = Vec::new();
            exprs.push(clone_int(r));
            BoolExpr::Not(Box::new(BoolExpr::Overflow(exprs)))
        },
        _ => BoolExpr::Const(true),
    }
}

/// The verdict on `cfg` against `spec`: a counterexample for the first
/// completed path, in the order of exploration, whose result is defined and
/// on which the postcondition can fail with the result's integer arithmetic
/// inside 64 bits (beyond them Perl leaves integers); an error where no path
/// has a defined result; otherwise verified.
pub fn verify_cfg(program: &Program, spec: &FunctionSpec, cfg: &ControlFlowGraph) -> (r: Result<VerificationResult, SymExecError>)
    requires
        program.wf(),
    ensures
        r matches Ok(v) ==> verdict_function(v) == cfg.name@,
        r is Ok ==> sym_typing(spec.pre, param_types(cfg.params@, spec.arg_types@, typed_count(cfg.params@, spec.arg_types@)))
            == Some(ExprType::Bool),
        cfg.entry >= cfg.blocks@.len() ==> r is Err,
        r matches Ok(VerificationResult::Counterexample(c)) ==> c.assignments.wf() && forall|i: int|
            0 <= i < typed_count(cfg.params@, spec.arg_types@) ==> c.assignments@.contains_key(#[trigger] cfg.params@[i].source@),
{
    let mut completed = execute_cfg(program, spec, cfg)?;
    let n = if cfg.params.len() <= spec.arg_types.len() { cfg.params.len() } else { spec.arg_types.len() };
    let mut variables: Vec<crate::smt::ModelVar> = Vec::new();
    let mut i: usize = 0;
    while i < n
        invariant
            n == typed_count(cfg.params@, spec.arg_types@),
            i <= n,
            variables@.len() == i,
            forall|j: int| 0 <= j < i ==> (#[trigger] variables@[j]).name@ == cfg.params@[j].source@,
        decreases n - i,
    {
        variables.push(crate::smt::ModelVar { name: copy_string(&cfg.params[i].source), ty: spec.arg_types[i] });
        i += 1;
    }
    let mut outcomes: Vec<PathOutcome> = Vec::new();
    let mut failed = false;
    while completed.len() > 0 && !failed
        invariant
            program.wf(),
            n == typed_count(cfg.params@, spec.arg_types@),
            variables@.len() == n,
            forall|j: int| 0 <= j < n ==> (#[trigger] variables@[j]).name@ == cfg.params@[j].source@,
            forall|j: int| 0 <= j < outcomes@.len() ==> (#[trigger] outcomes@[j] matches PathOutcome::Fails(m) ==> m.wf()
                && forall|i: int| 0 <= i < n ==> m@.contains_key(#[trigger] cfg.params@[i].source@)),
        decreases completed.len(),
    {
        let state = completed.remove(0);
        let validity = BoolExpr::And(Box::new(clone_bool(&state.path_condition)), Box::new(well_defined_result_condition(&state.result)));
        if !satisfiable(&cfg.name, &validity, program.limits.solver_timeout_ms)? {
            outcomes.push(PathOutcome::Undefined);
            continue;
        }
        let mut annotation_env: NameMap<SymValue> = NameMap::new();
        let mut k: usize = 0;
        while k < n
            invariant
                n <= cfg.params@.len(),
                n <= spec.arg_types@.len(),
                annotation_env.wf(),
            decreases n - k,
        {
            let source = &cfg.params[k].source;
            annotation_env.insert(copy_string(source), symbolic_value(source.as_str(), spec.arg_types[k]));
            k += 1;
        }
        let in_range = result_in_range(&state.result);
        annotation_env.insert(str_to_string("result"), state.result);
        let post = expect_bool(eval_expr(cfg.name.as_str(), &spec.post, &annotation_env)?, cfg.name.as_str())?;
        let failure = BoolExpr::And(
            Box::new(BoolExpr::And(Box::new(state.path_condition), Box::new(BoolExpr::Not(Box::new(post))))),
            Box::new(in_range),
        );
        let found = match crate::smt::find_model_with_timeout(cfg.name.as_str(), &failure, &variables, program.limits.solver_timeout_ms) {
            Ok(m) => m,
            Err(e) => {
                return Err(SymExecError::Smt(e));
            },
        };
        match found {
            Some(assignments) => {
                proof {
                    assert forall|i: int| 0 <= i < n implies assignments@.contains_key(#[trigger] cfg.params@[i].source@) by {
                        assert(variables@[i].name@ == cfg.params@[i].source@);
                    }
                }
                outcomes.push(PathOutcome::Fails(assignments));
                failed = true;
            },
            None => {
                outcomes.push(PathOutcome::Holds);
            },
        }
    }
    let ghost answers = outcomes@;
    let r = verdict(&cfg.name, outcomes);
    proof {
        lemma_first_failure(answers);
    }
    r
}


/// No function after the `i`-th has its name.
pub open spec fn last_named(functions: Seq<ExtractedFunction>, i: int) -> bool {
    forall|k: int| i < k < functions.len() ==> (#[trigger] functions[k]).name@ != functions[i].name@
}

/// The functions of a file made ready for verification: their contracts
/// parsed, their bodies parsed (with loops unrolled up to the limit), type
/// checked against each other's signatures, checked to call only known
/// functions and none recursively, and lowered to control-flow graphs.
#[verifier::loop_isolation(false)]
#[verifier::rlimit(80)]
#[verifier::spinoff_prover]
pub fn prepare_program(functions: &Vec<ExtractedFunction>, limits: Limits) -> (r: Result<Program, PerlcheckerError>)
    ensures
        r matches Ok(p) ==> {
            &&& p.wf()
            &&& p.limits == limits
            &&& p.order@.len() == functions@.len()
            &&& forall|i: int| 0 <= i < functions@.len() ==> (#[trigger] p.order@[i])@ == functions@[i].name@
            &&& forall|i: int| 0 <= i < functions@.len() ==> p.specs@.contains_key(#[trigger] functions@[i].name@)
                && p.cfgs@.contains_key(functions@[i].name@)
            &&& forall|k: Seq<char>| #[trigger] p.cfgs@.contains_key(k) ==> p.cfgs@[k].wf() && p.cfgs@[k].name@ == k
        },
        r is Ok ==> forall|i: int| 0 <= i < functions@.len() ==> crate::annotations::contract_ok(#[trigger] functions@[i]),
        r matches Err(PerlcheckerError::Annotation(_)) ==> exists|i: int|
            0 <= i < functions@.len() && !crate::annotations::contract_ok(#[trigger] functions@[i]),
        r matches Ok(p) ==> forall|i: int|
            0 <= i < functions@.len() && last_named(functions@, i) ==> crate::annotations::states_contract(
                #[trigger] functions@[i],
                p.specs@[functions@[i].name@],
            ),
{
    let mut order: Vec<String> = Vec::new();
    let mut specs: NameMap<FunctionSpec> = NameMap::new();
    let mut asts: NameMap<FunctionAst> = NameMap::new();
    let mut i: usize = 0;
    while i < functions.len()
        invariant
            i <= functions@.len(),
            specs.wf(),
            asts.wf(),
            order@.len() == i,
            forall|j: int| 0 <= j < i ==> (#[trigger] order@[j])@ == functions@[j].name@,
            forall|j: int| 0 <= j < i ==> specs@.contains_key(#[trigger] functions@[j].name@) && asts@.contains_key(
                functions@[j].name@,
            ),
            forall|k: Seq<char>| #[trigger] specs@.contains_key(k) ==> specs@[k].wf(),
            forall|k: Seq<char>| #[trigger] asts@.contains_key(k) ==> asts@[k].wf() && asts@[k].name@ == k,
            forall|j: int| 0 <= j < i ==> crate::annotations::contract_ok(#[trigger] functions@[j]),
            forall|j: int|
                0 <= j < i && last_named(functions@.take(i as int), j) ==> crate::annotations::states_contract(
                    #[trigger] functions@[j],
                    specs@[functions@[j].name@],
                ),
        decreases functions.len() - i,
    {
        let function = &functions[i];
        let spec = match crate::annotations::parse_function_spec(function) {
            Ok(s) => s,
            Err(e) => {
                return Err(PerlcheckerError::Annotation(e));
            },
        };
        let ast = match crate::parser::parse_function_ast_with_limits(function, limits.max_loop_unroll) {
            Ok(a) => a,
            Err(e) => {
                return Err(PerlcheckerError::Parse(e));
            },
        };
        order.push(copy_string(&function.name));
        let ghost gspec = spec;
        let ghost before = specs@;
        specs.insert(copy_string(&function.name), spec);
        asts.insert(copy_string(&function.name), ast);
        proof {
            let fs = functions@;
            assert forall|j: int|
                0 <= j < i + 1 && last_named(fs.take(i + 1), j) implies crate::annotations::states_contract(
                #[trigger] fs[j],
                specs@[fs[j].name@],
            ) by {
                if j < i {
                    assert(fs.take(i + 1)[i as int] == fs[i as int]);
                    assert(fs[i as int].name@ != fs[j].name@);
                    assert(last_named(fs.take(i as int), j)) by {
                        assert forall|k: int| j < k < fs.take(i as int).len() implies (#[trigger] fs.take(i as int)[k]).name@
                            != fs.take(i as int)[j].name@ by {
                            assert(fs.take(i + 1)[k] == fs.take(i as int)[k]);
                        }
                    }
                    assert(specs@[fs[j].name@] == before[fs[j].name@]);
                } else {
                    assert(specs@[fs[j].name@] == gspec);
                }
            }
        }
        i += 1;
    }
    proof {
        assert(functions@.take(i as int) =~= functions@);
    }
    let mut signatures: NameMap<FunctionSig> = NameMap::new();
    let spec_names = specs.keys();
    let mut k: usize = 0;
    while k < spec_names.len()
        invariant
            specs.wf(),
            signatures.wf(),
        decreases spec_names.len() - k,
    {
        if let Some(spec) = specs.get(&spec_names[k]) {
            let mut arg_types: Vec<Type> = Vec::new();
            let mut t: usize = 0;
            while t < spec.arg_types.len()
                decreases spec.arg_types.len() - t,
            {
                arg_types.push(spec.arg_types[t]);
                t += 1;
            }
            signatures.insert(copy_string(&spec_names[k]), FunctionSig { arg_types, ret_type: spec.ret_type });
        }
        k += 1;
    }
    let mut j: usize = 0;
    while j < order.len()
        invariant
            specs.wf(),
            asts.wf(),
            signatures.wf(),
            forall|k: Seq<char>| #[trigger] specs@.contains_key(k) ==> specs@[k].wf(),
            forall|k: Seq<char>| #[trigger] asts@.contains_key(k) ==> asts@[k].wf() && asts@[k].name@ == k,
        decreases order.len() - j,
    {
        match (specs.get(&order[j]), asts.get(&order[j])) {
            (Some(spec), Some(ast)) => {
                if let Err(e) = type_check_function_with_signatures(spec, ast, &signatures) {
                    return Err(PerlcheckerError::TypeCheck(e));
                }
            },
            _ => {},
        }
        j += 1;
    }
    let names = sorted_unique(asts.keys());
    let mut graph: Vec<(String, Vec<String>)> = Vec::new();
    let mut g: usize = 0;
    while g < names.len()
        invariant
            specs.wf(),
            asts.wf(),
        decreases names.len() - g,
    {
        if let Some(ast) = asts.get(&names[g]) {
            let callees = collect_called_functions(ast);
            let mut c: usize = 0;
            while c < callees.len()
                invariant
                    g < names@.len(),
                    specs.wf(),
                decreases callees.len() - c,
            {
                if !specs.contains(&callees[c]) {
                    return Err(
                        PerlcheckerError::SymExec(
                            SymExecError::UnknownCallee { function: copy_string(&names[g]), callee: copy_string(&callees[c]) },
                        ),
                    );
                }
                c += 1;
            }
            graph.push((copy_string(&names[g]), callees));
        }
        g += 1;
    }
    if let Err(e) = detect_recursion(&graph) {
        return Err(PerlcheckerError::SymExec(e));
    }
    let mut cfgs: NameMap<ControlFlowGraph> = NameMap::new();
    let mut m: usize = 0;
    while m < order.len()
        invariant
            m <= order@.len(),
            order@.len() == functions@.len(),
            forall|j: int| 0 <= j < functions@.len() ==> (#[trigger] order@[j])@ == functions@[j].name@,
            forall|j: int| 0 <= j < functions@.len() ==> asts@.contains_key(#[trigger] functions@[j].name@),
            asts.wf(),
            cfgs.wf(),
            forall|k: Seq<char>| #[trigger] asts@.contains_key(k) ==> asts@[k].wf() && asts@[k].name@ == k,
            forall|j: int| 0 <= j < m ==> cfgs@.contains_key(#[trigger] functions@[j].name@),
            forall|k: Seq<char>| #[trigger] cfgs@.contains_key(k) ==> cfgs@[k].wf() && cfgs@[k].name@ == k,
        decreases order.len() - m,
    {
        proof {
            assert(order@[m as int]@ == functions@[m as int].name@);
        }
        if let Some(ast) = asts.get(&order[m]) {
            let ssa = match crate::ir::lower_to_ssa(ast) {
                Ok(s) => s,
                Err(e) => {
                    return Err(PerlcheckerError::Ir(e));
                },
            };
            let cfg = crate::ir::build_cfg(&ssa);
            cfgs.insert(copy_string(&order[m]), cfg);
        }
        m += 1;
    }
    Ok(Program { order, specs, cfgs, limits })
}

/// The verdicts on the functions of a file, in the order of the file.
pub fn verify_extracted_functions(functions: &Vec<ExtractedFunction>, limits: Limits) -> (r: Result<
    Vec<VerificationResult>,
    PerlcheckerError,
>)
    ensures
        r matches Ok(v) ==> v@.len() == functions@.len() && forall|i: int|
            0 <= i < functions@.len() ==> verdict_function(#[trigger] v@[i]) == functions@[i].name@,
        r is Ok ==> forall|i: int| 0 <= i < functions@.len() ==> crate::annotations::contract_ok(#[trigger] functions@[i]),
        r matches Err(PerlcheckerError::Annotation(_)) ==> exists|i: int|
            0 <= i < functions@.len() && !crate::annotations::contract_ok(#[trigger] functions@[i]),
{
    let program = prepare_program(functions, limits)?;
    let mut results: Vec<VerificationResult> = Vec::new();
    let mut i: usize = 0;
    while i < program.order.len()
        invariant
            program.wf(),
            program.order@.len() == functions@.len(),
            forall|j: int| 0 <= j < functions@.len() ==> (#[trigger] program.order@[j])@ == functions@[j].name@,
            forall|j: int| 0 <= j < functions@.len() ==> program.specs@.contains_key(#[trigger] functions@[j].name@)
                && program.cfgs@.contains_key(functions@[j].name@),
            forall|k: Seq<char>| #[trigger] program.cfgs@.contains_key(k) ==> program.cfgs@[k].wf() && program.cfgs@[k].name@ == k,
            results@.len() == i,
            i <= functions@.len(),
            forall|j: int| 0 <= j < i ==> verdict_function(#[trigger] results@[j]) == functions@[j].name@,
        decreases program.order.len() - i,
    {
        let name = &program.order[i];
        proof {
            assert(name@ == functions@[i as int].name@);
        }
        let spec = match program.specs.get(name) {
            Some(s) => s,
            None => {
                return Err(PerlcheckerError::VerificationFailed);
            },
        };
        let cfg = match program.cfgs.get(name) {
            Some(c) => c,
            None => {
                return Err(PerlcheckerError::VerificationFailed);
            },
        };
        match verify_cfg(&program, spec, cfg) {
            Ok(v) => results.push(v),
            Err(e) => {
                return Err(PerlcheckerError::SymExec(e));
            },
        }
        i += 1;
    }
    Ok(results)
}

/// The verdict on one function, within `limits`.
pub fn verify_extracted_function_with_limits(function: &ExtractedFunction, limits: Limits) -> (r: Result<
    VerificationResult,
    PerlcheckerError,
>)
    ensures
        r matches Ok(v) ==> verdict_function(v) == function.name@,
        !crate::annotations::contract_ok(*function) ==> r is Err,
        r matches Err(PerlcheckerError::Annotation(_)) ==> !crate::annotations::contract_ok(*function),
{
    let mut functions: Vec<ExtractedFunction> = Vec::new();
    let copy = function.duplicate();
    proof {
        crate::annotations::lemma_contract_ok_by_text(copy, *function);
    }
    functions.push(copy);
    let results = verify_extracted_functions(&functions, limits);
    proof {
        assert(functions@[0] == copy);
    }
    let mut results = results?;
    Ok(results.remove(0))
}

/// The verdict on one function, within the default limits.
pub fn verify_extracted_function(function: &ExtractedFunction) -> (r: Result<VerificationResult, PerlcheckerError>)
    ensures
        r matches Ok(v) ==> verdict_function(v) == function.name@,
        !crate::annotations::contract_ok(*function) ==> r is Err,
        r matches Err(PerlcheckerError::Annotation(_)) ==> !crate::annotations::contract_ok(*function),
{
    verify_extracted_function_with_limits(function, Limits::default())
}
} // verus!
