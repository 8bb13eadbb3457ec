//! Lowering of function ASTs to SSA form, and of SSA to control-flow graphs
//! whose join blocks take the merged variables as parameters.

use vstd::prelude::*;

use crate::assoc::NameMap;
use crate::ast::{AccessKind, BinaryOp, Builtin, Expr, FunctionAst, Stmt, UnaryOp};
use crate::names::{log_extends, drawn_from, lemma_drawn_concat, lemma_drawn_empty, lemma_drawn_extend, lemma_drawn_single, lemma_drawn_union, lemma_versioned_injective, versioned};
use crate::text::{copy_string, decimal, listed, push_str, push_string, push_u64, sorted_unique, str_to_string, string_eq};

verus! {

/// A parameter and its SSA name.
#[derive(Debug, PartialEq, Eq)]
pub struct SsaParam {
    pub source: String,
    pub ssa_name: String,
}

/// A function in SSA form.
#[derive(Debug, PartialEq, Eq)]
pub struct SsaFunction {
    pub name: String,
    pub params: Vec<SsaParam>,
    pub body: Vec<SsaStmt>,
}

/// An SSA statement.
#[derive(Debug, PartialEq, Eq)]
pub enum SsaStmt {
    Assign(String, SsaExpr),
    CallAssign { name: String, callee: String, args: Vec<SsaExpr> },
    If { condition: SsaExpr, then_branch: Vec<SsaStmt>, else_branch: Vec<SsaStmt>, merges: Vec<SsaMerge> },
    Return(SsaExpr),
    LoopBoundExceeded,
    Die,
    /// A path that is dropped.
    Unreachable,
    InvariantInitFailed,
    InvariantPreservationFailed,
    AssertFailed,
}

/// A variable whose versions at the end of the two branches of an `if` meet
/// in a new version.
#[derive(Debug, PartialEq, Eq)]
pub struct SsaMerge {
    pub source: String,
    pub then_name: String,
    pub else_name: String,
    pub result_name: String,
}

/// An SSA expression.
#[derive(Debug, PartialEq, Eq)]
pub enum SsaExpr {
    Int(i64),
    Bool(bool),
    String(String),
    Var(String),
    Unary { op: UnaryOp, expr: Box<SsaExpr> },
    Binary { left: Box<SsaExpr>, op: BinaryOp, right: Box<SsaExpr> },
    Ite { condition: Box<SsaExpr>, then_expr: Box<SsaExpr>, else_expr: Box<SsaExpr> },
    Access { kind: AccessKind, collection: Box<SsaExpr>, index: Box<SsaExpr> },
    Store { kind: AccessKind, collection: Box<SsaExpr>, index: Box<SsaExpr>, value: Box<SsaExpr> },
    Builtin { function: Builtin, args: Vec<SsaExpr> },
    /// A fresh unconstrained scalar.
    FreshVar(String),
    /// A fresh unconstrained array of integers (`element_int`) or strings.
    FreshArray { element_int: bool, name: String },
    /// A fresh unconstrained hash of integers (`value_int`) or strings.
    FreshHash { value_int: bool, name: String },
}

/// A function as a graph of basic blocks; `entry` is the first block.
#[derive(Debug, PartialEq, Eq)]
pub struct ControlFlowGraph {
    pub name: String,
    pub params: Vec<SsaParam>,
    pub entry: usize,
    pub blocks: Vec<BasicBlock>,
}

impl View for ControlFlowGraph {
    type V = ControlFlowGraph;

    open spec fn view(&self) -> ControlFlowGraph {
        *self
    }
}

/// A basic block: its parameters, straight-line statements and terminator.
#[derive(Debug, PartialEq, Eq)]
pub struct BasicBlock {
    pub id: usize,
    pub params: Vec<BlockParam>,
    pub stmts: Vec<BlockStmt>,
    pub terminator: Terminator,
}

/// A block parameter: the variable it stands for and its SSA name.
#[derive(Debug, PartialEq, Eq)]
pub struct BlockParam {
    pub source: String,
    pub ssa_name: String,
}

/// A straight-line statement.
#[derive(Debug, PartialEq, Eq)]
pub enum BlockStmt {
    Assign(String, SsaExpr),
    CallAssign { name: String, callee: String, args: Vec<SsaExpr> },
}

/// How control leaves a block.
#[derive(Debug, PartialEq, Eq)]
pub enum Terminator {
    Goto { target: usize, args: Vec<SsaExpr> },
    Branch { condition: SsaExpr, then_target: usize, else_target: usize },
    Return(SsaExpr),
    LoopBoundExceeded,
    Die,
    Unreachable,
    InvariantInitFailed,
    InvariantPreservationFailed,
    AssertFailed,
}

/// A function that cannot be put in SSA form.
#[derive(Debug, PartialEq, Eq)]
pub enum IrError {
    UnknownVariable { function: String, variable: String },
    GhostShadowsReal { function: String, variable: String },
}

impl IrError {
    /// The text that reports the error.
    pub open spec fn describe(&self) -> Seq<char> {
        match self {
            IrError::UnknownVariable { function, variable } => "function `"@ + function@ + "` references unsupported variable `"@ + variable@ + "` during SSA lowering"@,
            IrError::GhostShadowsReal { function, variable } => "function `"@ + function@ + "`: ghost variable `"@ + variable@ + "` shadows a real variable"@,
        }
    }

    /// The text that reports the error.
    pub fn message(&self) -> (r: String)
        ensures
            r@ == self.describe(),
    {
        match self {
            IrError::UnknownVariable { function, variable } => {
                let mut m = String::new();
                push_str(&mut m, "function `");
                push_string(&mut m, function);
                push_str(&mut m, "` references unsupported variable `");
                push_string(&mut m, variable);
                push_str(&mut m, "` during SSA lowering");
                m
            },
            IrError::GhostShadowsReal { function, variable } => {
                let mut m = String::new();
                push_str(&mut m, "function `");
                push_string(&mut m, function);
                push_str(&mut m, "`: ghost variable `");
                push_string(&mut m, variable);
                push_str(&mut m, "` shadows a real variable");
                m
            },
        }
    }
}

/// The names that statement `s` assigns, its branches' and merges' included.
pub open spec fn stmt_targets(s: SsaStmt) -> Seq<Seq<char>>
    decreases s, 1nat,
{
    match s {
        SsaStmt::Assign(name, _) => seq![name@],
        SsaStmt::CallAssign { name, .. } => seq![name@],
        SsaStmt::If { then_branch, else_branch, merges, .. } => {
            proof {
                assert(decreases_to!(s => then_branch@));
                assert(decreases_to!(s => else_branch@));
            }
            stmts_targets(then_branch@) + stmts_targets(else_branch@) + merge_targets(merges@)
        },
        _ => Seq::empty(),
    }
}

/// The names that the statements of `s` assign, in order.
pub open spec fn stmts_targets(s: Seq<SsaStmt>) -> Seq<Seq<char>>
    decreases s, 0nat,
{
    if s.len() == 0 {
        Seq::empty()
    } else {
        stmts_targets(s.drop_last()) + stmt_targets(s.last())
    }
}

/// The names that the merges `m` define.
pub open spec fn merge_targets(m: Seq<SsaMerge>) -> Seq<Seq<char>> {
    m.map_values(|x: SsaMerge| x.result_name@)
}

/// The assigned names of a concatenation are those of its parts.
pub proof fn lemma_targets_concat(a: Seq<SsaStmt>, b: Seq<SsaStmt>)
    ensures
        stmts_targets(a + b) == stmts_targets(a) + stmts_targets(b),
    decreases b.len(),
{
    if b.len() == 0 {
        assert(a + b =~= a);
    } else {
        assert((a + b).drop_last() =~= a + b.drop_last());
        assert((a + b).last() == b.last());
        lemma_targets_concat(a, b.drop_last());
    }
}

/// The assigned names after pushing `x` are those before and those of `x`.
pub proof fn lemma_targets_push(a: Seq<SsaStmt>, x: SsaStmt)
    ensures
        stmts_targets(a.push(x)) == stmts_targets(a) + stmt_targets(x),
{
    assert(a.push(x).drop_last() =~= a);
}

/// `after` is `before` followed by statements whose assigned names are
/// distinct and drawn from `log[lo..hi]`.
pub open spec fn grew(before: Seq<SsaStmt>, after: Seq<SsaStmt>, log: Seq<Seq<char>>, lo: int, hi: int) -> bool {
    &&& before.len() <= after.len()
    &&& after.subrange(0, before.len() as int) == before
    &&& drawn_from(stmts_targets(after.skip(before.len() as int)), log, lo, hi)
}

proof fn lemma_grew_refl(p: Seq<SsaStmt>, log: Seq<Seq<char>>, a: int, b: int)
    ensures
        grew(p, p, log, a, b),
{
    assert(p.subrange(0, p.len() as int) =~= p);
    assert(p.skip(p.len() as int) =~= Seq::<SsaStmt>::empty());
    assert(stmts_targets(Seq::<SsaStmt>::empty()) =~= Seq::<Seq<char>>::empty());
}

proof fn lemma_grew_chain(
    p0: Seq<SsaStmt>,
    p1: Seq<SsaStmt>,
    p2: Seq<SsaStmt>,
    log1: Seq<Seq<char>>,
    log2: Seq<Seq<char>>,
    a: int,
    b: int,
    c: int,
)
    requires
        grew(p0, p1, log1, a, b),
        grew(p1, p2, log2, b, c),
        log_extends(log2, log1),
        0 <= a <= b <= c <= log2.len(),
        b <= log1.len(),
        log2.no_duplicates(),
    ensures
        grew(p0, p2, log2, a, c),
{
    let s1 = p1.skip(p0.len() as int);
    let s2 = p2.skip(p1.len() as int);
    assert(p2.skip(p0.len() as int) =~= s1 + s2);
    lemma_targets_concat(s1, s2);
    lemma_drawn_extend(stmts_targets(s1), log1, log2, a, b, a, b);
    lemma_drawn_concat(stmts_targets(s1), stmts_targets(s2), log2, a, b, c);
    assert(p2.subrange(0, p0.len() as int) =~= p1.subrange(0, p0.len() as int));
}

proof fn lemma_grew_push(
    p0: Seq<SsaStmt>,
    p1: Seq<SsaStmt>,
    x: SsaStmt,
    log1: Seq<Seq<char>>,
    log2: Seq<Seq<char>>,
    a: int,
    b: int,
    c: int,
)
    requires
        grew(p0, p1, log1, a, b),
        drawn_from(stmt_targets(x), log2, b, c),
        log_extends(log2, log1),
        0 <= a <= b <= c <= log2.len(),
        b <= log1.len(),
        log2.no_duplicates(),
    ensures
        grew(p0, p1.push(x), log2, a, c),
{
    let s1 = p1.skip(p0.len() as int);
    assert(p1.push(x).skip(p0.len() as int) =~= s1.push(x));
    lemma_targets_push(s1, x);
    lemma_drawn_extend(stmts_targets(s1), log1, log2, a, b, a, b);
    lemma_drawn_concat(stmts_targets(s1), stmt_targets(x), log2, a, b, c);
    assert(p1.push(x).subrange(0, p0.len() as int) =~= p1.subrange(0, p0.len() as int));
}

/// The statements after `before` in a vector that grew from it have the
/// assigned names the growth promises, whatever the vector held before.
proof fn lemma_grew_from_empty(p: Seq<SsaStmt>, log: Seq<Seq<char>>, a: int, b: int)
    requires
        grew(Seq::empty(), p, log, a, b),
    ensures
        drawn_from(stmts_targets(p), log, a, b),
{
    assert(p.skip(0) =~= p);
}

/// Two steps of growth, each drawing names from the stretch of the log that
/// it added, make one.
proof fn lemma_step(p0: Seq<SsaStmt>, p1: Seq<SsaStmt>, p2: Seq<SsaStmt>, s0: SsaBuilder, s1: SsaBuilder, s2: SsaBuilder)
    requires
        grew(p0, p1, s1.log@, s0.log@.len() as int, s1.log@.len() as int),
        grew(p1, p2, s2.log@, s1.log@.len() as int, s2.log@.len() as int),
        s1.extends(&s0),
        s2.extends(&s1),
        s2.wf(),
    ensures
        grew(p0, p2, s2.log@, s0.log@.len() as int, s2.log@.len() as int),
        s2.extends(&s0),
{
    lemma_grew_chain(p0, p1, p2, s1.log@, s2.log@, s0.log@.len() as int, s1.log@.len() as int, s2.log@.len() as int);
}

/// Pushing the assignment of the name that was just handed out keeps the
/// growth drawn from the log.
proof fn lemma_step_assign(p0: Seq<SsaStmt>, p1: Seq<SsaStmt>, x: SsaStmt, s0: SsaBuilder, s1: SsaBuilder, s2: SsaBuilder)
    requires
        grew(p0, p1, s1.log@, s0.log@.len() as int, s1.log@.len() as int),
        s1.extends(&s0),
        s2.extends(&s1),
        s2.wf(),
        s1.log@.len() < s2.log@.len(),
        stmt_targets(x) == seq![s2.log@[s2.log@.len() - 1]],
    ensures
        grew(p0, p1.push(x), s2.log@, s0.log@.len() as int, s2.log@.len() as int),
        s2.extends(&s0),
{
    let n = s2.log@.len() - 1;
    lemma_drawn_single(s2.log@, n);
    lemma_drawn_extend(stmt_targets(x), s2.log@, s2.log@, n, n + 1, s1.log@.len() as int, s2.log@.len() as int);
    lemma_grew_push(p0, p1, x, s1.log@, s2.log@, s0.log@.len() as int, s1.log@.len() as int, s2.log@.len() as int);
}

/// Growth drawn from a stretch of a log is drawn from any longer log and
/// any wider stretch.
proof fn lemma_step_widen(p0: Seq<SsaStmt>, p1: Seq<SsaStmt>, s0: SsaBuilder, s1: SsaBuilder, s2: SsaBuilder)
    requires
        grew(p0, p1, s1.log@, s0.log@.len() as int, s1.log@.len() as int),
        s1.extends(&s0),
        s2.extends(&s1),
    ensures
        grew(p0, p1, s2.log@, s0.log@.len() as int, s2.log@.len() as int),
        s2.extends(&s0),
{
    let t = stmts_targets(p1.skip(p0.len() as int));
    lemma_drawn_extend(t, s1.log@, s2.log@, s0.log@.len() as int, s1.log@.len() as int, s0.log@.len() as int, s2.log@.len() as int);
}

/// Pushing a statement that assigns nothing keeps the growth.
proof fn lemma_step_plain(p0: Seq<SsaStmt>, p1: Seq<SsaStmt>, x: SsaStmt, s0: SsaBuilder, s1: SsaBuilder)
    requires
        grew(p0, p1, s1.log@, s0.log@.len() as int, s1.log@.len() as int),
        stmt_targets(x) =~= Seq::<Seq<char>>::empty(),
        s1.wf(),
        s1.extends(&s0),
    ensures
        grew(p0, p1.push(x), s1.log@, s0.log@.len() as int, s1.log@.len() as int),
{
    let n = s1.log@.len() as int;
    lemma_grew_push(p0, p1, x, s1.log@, s1.log@, s0.log@.len() as int, n, n);
}

/// Appending statements that grew from nothing, drawing names from the log
/// after `s1`, keeps the growth.
proof fn lemma_step_append(p0: Seq<SsaStmt>, p1: Seq<SsaStmt>, q: Seq<SsaStmt>, s0: SsaBuilder, s1: SsaBuilder, s2: SsaBuilder)
    requires
        grew(p0, p1, s1.log@, s0.log@.len() as int, s1.log@.len() as int),
        grew(Seq::empty(), q, s2.log@, s1.log@.len() as int, s2.log@.len() as int),
        s1.extends(&s0),
        s2.extends(&s1),
        s2.wf(),
    ensures
        grew(p0, p1 + q, s2.log@, s0.log@.len() as int, s2.log@.len() as int),
        s2.extends(&s0),
{
    assert((p1 + q).skip(p1.len() as int) =~= q);
    assert(q.skip(0) =~= q);
    assert((p1 + q).subrange(0, p1.len() as int) =~= p1);
    lemma_step(p0, p1, p1 + q, s0, s1, s2);
}

/// Two SSA expressions are the same: the same shape, with the same
/// constants, names and argument lists.
pub open spec fn ssa_same(a: SsaExpr, b: SsaExpr) -> bool
    decreases a,
{
    match (a, b) {
        (SsaExpr::Int(x), SsaExpr::Int(y)) => x == y,
        (SsaExpr::Bool(x), SsaExpr::Bool(y)) => x == y,
        (SsaExpr::String(x), SsaExpr::String(y)) | (SsaExpr::Var(x), SsaExpr::Var(y))
        | (SsaExpr::FreshVar(x), SsaExpr::FreshVar(y)) => x@ == y@,
        (SsaExpr::Unary { op: o1, expr: x }, SsaExpr::Unary { op: o2, expr: y }) => o1 == o2 && ssa_same(*x, *y),
        (SsaExpr::Binary { left: l1, op: o1, right: r1 }, SsaExpr::Binary { left: l2, op: o2, right: r2 }) => o1
            == o2 && ssa_same(*l1, *l2) && ssa_same(*r1, *r2),
        (
            SsaExpr::Ite { condition: c1, then_expr: t1, else_expr: e1 },
            SsaExpr::Ite { condition: c2, then_expr: t2, else_expr: e2 },
        ) => ssa_same(*c1, *c2) && ssa_same(*t1, *t2) && ssa_same(*e1, *e2),
        (
            SsaExpr::Access { kind: k1, collection: c1, index: i1 },
            SsaExpr::Access { kind: k2, collection: c2, index: i2 },
        ) => k1 == k2 && ssa_same(*c1, *c2) && ssa_same(*i1, *i2),
        (
            SsaExpr::Store { kind: k1, collection: c1, index: i1, value: v1 },
            SsaExpr::Store { kind: k2, collection: c2, index: i2, value: v2 },
        ) => k1 == k2 && ssa_same(*c1, *c2) && ssa_same(*i1, *i2) && ssa_same(*v1, *v2),
        (SsaExpr::Builtin { function: f1, args: a1 }, SsaExpr::Builtin { function: f2, args: a2 }) => f1 == f2
            && a1@.len() == a2@.len() && forall|i: int| 0 <= i < a1@.len() ==> ssa_same(#[trigger] a1@[i], a2@[i]),
        (SsaExpr::FreshArray { element_int: x, name: n }, SsaExpr::FreshArray { element_int: y, name: m }) => x == y
            && n@ == m@,
        (SsaExpr::FreshHash { value_int: x, name: n }, SsaExpr::FreshHash { value_int: y, name: m }) => x == y && n@
            == m@,
        _ => false,
    }
}

/// Whether an element expression stands for an integer, judged from its form:
/// only string literals, the string-valued builtins, hash accesses and
/// conditionals whose first branch is a string stand for strings.
pub open spec fn int_element(e: SsaExpr) -> bool
    decreases e,
{
    match e {
        SsaExpr::String(_) => false,
        SsaExpr::Ite { then_expr, .. } => int_element(*then_expr),
        SsaExpr::Builtin { function, .. } => !(function == Builtin::Chr || function == Builtin::Reverse || function
            == Builtin::Replace || function == Builtin::CharAt),
        SsaExpr::Access { kind, .. } => kind == AccessKind::Array,
        _ => true,
    }
}

/// A copy of `e`.
pub(crate) fn clone_ssa_expr(e: &SsaExpr) -> (r: SsaExpr)
    ensures
        ssa_same(r, *e),
    decreases e,
{
    match e {
        SsaExpr::Int(v) => SsaExpr::Int(*v),
        SsaExpr::Bool(v) => SsaExpr::Bool(*v),
        SsaExpr::String(s) => SsaExpr::String(copy_string(s)),
        SsaExpr::Var(s) => SsaExpr::Var(copy_string(s)),
        SsaExpr::Unary { op, expr } => SsaExpr::Unary { op: *op, expr: Box::new(clone_ssa_expr(expr)) },
        SsaExpr::Binary { left, op, right } => SsaExpr::Binary {
            left: Box::new(clone_ssa_expr(left)),
            op: *op,
            right: Box::new(clone_ssa_expr(right)),
        },
        SsaExpr::Ite { condition, then_expr, else_expr } => SsaExpr::Ite {
            condition: Box::new(clone_ssa_expr(condition)),
            then_expr: Box::new(clone_ssa_expr(then_expr)),
            else_expr: Box::new(clone_ssa_expr(else_expr)),
        },
        SsaExpr::Access { kind, collection, index } => SsaExpr::Access {
            kind: *kind,
            collection: Box::new(clone_ssa_expr(collection)),
            index: Box::new(clone_ssa_expr(index)),
        },
        SsaExpr::Store { kind, collection, index, value } => SsaExpr::Store {
            kind: *kind,
            collection: Box::new(clone_ssa_expr(collection)),
            index: Box::new(clone_ssa_expr(index)),
            value: Box::new(clone_ssa_expr(value)),
        },
        SsaExpr::Builtin { function, args } => SsaExpr::Builtin { function: *function, args: clone_ssa_exprs(args) },
        SsaExpr::FreshVar(s) => SsaExpr::FreshVar(copy_string(s)),
        SsaExpr::FreshArray { element_int, name } => SsaExpr::FreshArray { element_int: *element_int, name: copy_string(name) },
        SsaExpr::FreshHash { value_int, name } => SsaExpr::FreshHash { value_int: *value_int, name: copy_string(name) },
    }
}

/// A copy of each expression of `v`.
pub(crate) fn clone_ssa_exprs(v: &Vec<SsaExpr>) -> (r: Vec<SsaExpr>)
    ensures
        r@.len() == v@.len(),
        forall|i: int| 0 <= i < v@.len() ==> ssa_same(#[trigger] r@[i], v@[i]),
    decreases v,
{
    let mut out: Vec<SsaExpr> = Vec::new();
    let mut i: usize = 0;
    while i < v.len()
        invariant
            i <= v@.len(),
            out@.len() == i,
            forall|j: int| 0 <= j < i ==> ssa_same(#[trigger] out@[j], v@[j]),
        decreases v.len() - i,
    {
        proof {
            assert(decreases_to!(*v => v@[i as int]));
        }
        out.push(clone_ssa_expr(&v[i]));
        i += 1;
    }
    out
}

/// Whether an element expression stands for an integer (otherwise a string),
/// judged from its form.
pub(crate) fn is_int_element(expr: &SsaExpr) -> (r: bool)
    ensures
        r == int_element(*expr),
    decreases expr,
{
    match expr {
        SsaExpr::Int(_) => true,
        SsaExpr::String(_) => false,
        SsaExpr::Bool(_) => true,
        SsaExpr::Unary { .. } | SsaExpr::Binary { .. } => true,
        SsaExpr::Ite { then_expr, .. } => is_int_element(then_expr),
        SsaExpr::Builtin { function, .. } => match function {
            Builtin::Chr | Builtin::Reverse | Builtin::Replace | Builtin::CharAt => false,
            _ => true,
        },
        SsaExpr::Access { kind, .. } => *kind == AccessKind::Array,
        SsaExpr::Store { .. } | SsaExpr::Var(_) | SsaExpr::FreshVar(_) | SsaExpr::FreshArray { .. }
        | SsaExpr::FreshHash { .. } => true,
    }
}

/// `a` followed by `b`.
fn joined(a: &String, b: &str) -> (r: String)
    ensures
        r@ == a@ + b@,
{
    let mut s = copy_string(a);
    push_str(&mut s, b);
    s
}

/// The names of `log` are distinct, and the `i`-th is version `ver[i]` of
/// `base[i]`, below that base's next version in `versions`.
pub open spec fn names_handed_out(
    versions: Map<Seq<char>, u64>,
    log: Seq<Seq<char>>,
    base: Seq<Seq<char>>,
    ver: Seq<nat>,
) -> bool {
    &&& log.len() == base.len()
    &&& log.len() == ver.len()
    &&& log.no_duplicates()
    &&& forall|i: int|
        0 <= i < log.len() ==> #[trigger] log[i] == versioned(base[i], ver[i]) && versions.contains_key(base[i]) && ver[i]
            < versions[base[i]]
}

/// The next version of `base`: its entry in `versions`, or 0 when it has none.
pub open spec fn next_version(versions: Map<Seq<char>, u64>, base: Seq<char>) -> u64 {
    if versions.contains_key(base) {
        versions[base]
    } else {
        0
    }
}

/// The error for a variable `name` that lowering cannot handle in `function`.
pub open spec fn unknown_variable(e: IrError, function: Seq<char>, name: Seq<char>) -> bool {
    e matches IrError::UnknownVariable { function: f, variable: v } && f@ == function && v@ == name
}

/// The state of SSA lowering: the next version of each name and the
/// companions that track array lengths, definedness and hash keys.
pub struct SsaBuilder {
    pub function: String,
    pub versions: NameMap<u64>,
    pub len_companions: NameMap<String>,
    pub defined_companions: Vec<String>,
    pub exists_companions: NameMap<String>,
    /// Every name handed out so far, with its base and version.
    pub log: Ghost<Seq<Seq<char>>>,
    pub log_base: Ghost<Seq<Seq<char>>>,
    pub log_ver: Ghost<Seq<nat>>,
}

/// The outermost form of the SSA expression that rewriting `expr` gives,
/// with the variables at the start named as in `env`: literals stay as they
/// are, a variable becomes its current SSA name (failing when it has none),
/// an operator keeps its operator and a conditional stays a conditional, an
/// element access reads its collection's current SSA name, and a call's value
/// is the fresh variable that receives it.
pub open spec fn rewrite_shape(expr: Expr, env: Map<Seq<char>, Seq<char>>, r: Result<SsaExpr, IrError>) -> bool {
    match expr {
        Expr::Int(v) => r == Ok::<SsaExpr, IrError>(SsaExpr::Int(v)),
        Expr::Bool(v) => r == Ok::<SsaExpr, IrError>(SsaExpr::Bool(v)),
        Expr::String(t) => r matches Ok(SsaExpr::String(u)) && u@ == t@,
        Expr::Variable(n) => match r {
            Ok(x) => env.contains_key(n@) && (x matches SsaExpr::Var(v) && v@ == env[n@]),
            Err(_) => !env.contains_key(n@),
        },
        Expr::Unary { op, .. } => r matches Ok(x) ==> (x matches SsaExpr::Unary { op: o, .. } && o == op),
        Expr::Binary { op, .. } => !(op == BinaryOp::Repeat || op == BinaryOp::Spaceship || op == BinaryOp::Cmp || op
            == BinaryOp::And || op == BinaryOp::Or) ==> (r matches Ok(x) ==> (x matches SsaExpr::Binary { op: o, .. } && o
            == op)),
        Expr::Ternary { .. } => r matches Ok(x) ==> x is Ite,
        Expr::Access { kind, collection, .. } => {
            &&& !env.contains_key(collection@) ==> r is Err
            &&& r matches Ok(x) ==> (x matches SsaExpr::Access { kind: k, collection: c, .. } && k == kind && env.contains_key(
                collection@,
            ) && (*c matches SsaExpr::Var(v) && v@ == env[collection@]))
        },
        Expr::Call { .. } => r matches Ok(x) ==> x is Var,
        _ => true,
    }
}

impl SsaBuilder {
    /// The tables have distinct keys, and the names handed out are distinct,
    /// each a version of its base below the base's next version.
    pub open spec fn wf(&self) -> bool {
        &&& self.versions.wf()
        &&& self.len_companions.wf()
        &&& self.exists_companions.wf()
        &&& names_handed_out(self.versions@, self.log@, self.log_base@, self.log_ver@)
    }

    /// The log of `self` extends the log of `before`.
    pub open spec fn extends(&self, before: &SsaBuilder) -> bool {
        &&& log_extends(self.log@, before.log@)
        &&& self.function == before.function
    }

    fn new(function: &String) -> (r: Self)
        ensures
            r.wf(),
    {
        SsaBuilder {
            function: copy_string(function),
            versions: NameMap::new(),
            len_companions: NameMap::new(),
            defined_companions: Vec::new(),
            exists_companions: NameMap::new(),
            log: Ghost(Seq::empty()),
            log_base: Ghost(Seq::empty()),
            log_ver: Ghost(Seq::empty()),
        }
    }

    /// `base__N`, with `N` the next version of `base`; an error once `base`
    /// has run out of versions.
    fn fresh_name(&mut self, base: &String) -> (r: Result<String, IrError>)
        requires
            old(self).wf(),
        ensures
            final(self).wf(),
            final(self).extends(old(self)),
            r matches Ok(n) ==> final(self).log@ == old(self).log@.push(n@),
            r is Err ==> final(self).log@ == old(self).log@,
            r is Err <==> next_version(old(self).versions@, base@) == u64::MAX,
            r matches Ok(n) ==> n@ == versioned(base@, next_version(old(self).versions@, base@) as nat)
                && final(self).versions@ == old(self).versions@.insert(
                base@,
                (next_version(old(self).versions@, base@) + 1) as u64,
            ),
            r matches Err(e) ==> unknown_variable(e, old(self).function@, base@),
    {
        let counter: u64 = match self.versions.get(base) {
            Some(c) => *c,
            None => 0,
        };
        if counter == u64::MAX {
            return Err(self.unknown(base));
        }
        let mut name = joined(base, "__");
        push_u64(&mut name, counter);
        proof {
            reveal_strlit("__");
            assert(name@ =~= versioned(base@, counter as nat));
            assert forall|i: int| 0 <= i < self.log@.len() implies self.log@[i] != name@ by {
                if self.log@[i] == name@ {
                    lemma_versioned_injective(self.log_base@[i], self.log_ver@[i], base@, counter as nat);
                }
            }
        }
        let ghost old_versions = self.versions@;
        let ghost old_log = self.log@;
        let ghost old_base = self.log_base@;
        let ghost old_ver = self.log_ver@;
        self.versions.insert(copy_string(base), counter + 1);
        self.log = Ghost(self.log@.push(name@));
        self.log_base = Ghost(self.log_base@.push(base@));
        self.log_ver = Ghost(self.log_ver@.push(counter as nat));
        proof {
            assert forall|i: int|
                0 <= i < self.log@.len() implies #[trigger] self.log@[i] == versioned(self.log_base@[i], self.log_ver@[i])
                && self.versions@.contains_key(self.log_base@[i]) && self.log_ver@[i] < self.versions@[self.log_base@[i]] by {
                if i < self.log@.len() - 1 {
                    assert(old_log[i] == versioned(old_base[i], old_ver[i]));
                    assert(self.log@[i] == old_log[i] && self.log_base@[i] == old_base[i] && self.log_ver@[i] == old_ver[i]);
                    assert(old_versions.contains_key(old_base[i]));
                }
            }
        }
        Ok(name)
    }

    fn fresh_name_str(&mut self, base: &str) -> (r: Result<String, IrError>)
        requires
            old(self).wf(),
        ensures
            final(self).wf(),
            final(self).extends(old(self)),
            r matches Ok(n) ==> final(self).log@ == old(self).log@.push(n@),
            r is Err ==> final(self).log@ == old(self).log@,
            r is Err <==> next_version(old(self).versions@, base@) == u64::MAX,
            r matches Ok(n) ==> n@ == versioned(base@, next_version(old(self).versions@, base@) as nat)
                && final(self).versions@ == old(self).versions@.insert(
                base@,
                (next_version(old(self).versions@, base@) + 1) as u64,
            ),
            r matches Err(e) ==> unknown_variable(e, old(self).function@, base@),
    {
        let b = str_to_string(base);
        self.fresh_name(&b)
    }

    fn unknown(&self, name: &String) -> (r: IrError)
        ensures
            unknown_variable(r, self.function@, name@),
    {
        IrError::UnknownVariable { function: copy_string(&self.function), variable: copy_string(name) }
    }

    fn lookup(&self, env: &NameMap<String>, name: &String) -> (r: Result<String, IrError>)
        requires
            env.wf(),
        ensures
            match r {
                Ok(v) => env@.contains_key(name@) && v@ == env@[name@],
                Err(e) => !env@.contains_key(name@) && unknown_variable(e, self.function@, name@),
            },
    {
        match env.get(name) {
            Some(v) => Ok(copy_string(v)),
            None => Err(self.unknown(name)),
        }
    }

    fn is_defined_tracked(&self, name: &String) -> (r: bool)
        ensures
            r == listed(self.defined_companions@, name@),
    {
        let mut i: usize = 0;
        while i < self.defined_companions.len()
            invariant
                i <= self.defined_companions@.len(),
                forall|j: int| 0 <= j < i ==> (#[trigger] self.defined_companions@[j])@ != name@,
            decreases self.defined_companions.len() - i,
        {
            if string_eq(&self.defined_companions[i], name) {
                return true;
            }
            i += 1;
        }
        false
    }

    /// The SSA form of `expr` under the current versions `env`; calls and
    /// other effects are emitted into `prefix` first.
    #[verifier::loop_isolation(false)]
    #[verifier::rlimit(60)]
    #[verifier::spinoff_prover]
    fn rewrite_expr(&mut self, expr: &Expr, env: &mut NameMap<String>, prefix: &mut Vec<SsaStmt>) -> (r: Result<SsaExpr, IrError>)
        requires
            old(self).wf(),
            old(env).wf(),
        ensures
            final(self).wf(),
            final(env).wf(),
            final(self).extends(old(self)),
            r is Ok ==> grew(old(prefix)@, final(prefix)@, final(self).log@, old(self).log@.len() as int, final(self).log@.len() as int),
            rewrite_shape(*expr, old(env)@, r),
        decreases expr,
    {
        let ghost p0 = prefix@;
        let ghost s0 = *self;
        proof {
            lemma_grew_refl(prefix@, self.log@, self.log@.len() as int, self.log@.len() as int);
        }
        match expr {
            Expr::Int(v) => Ok(SsaExpr::Int(*v)),
            Expr::Bool(v) => Ok(SsaExpr::Bool(*v)),
            Expr::String(s) => Ok(SsaExpr::String(copy_string(s))),
            Expr::Variable(name) => Ok(SsaExpr::Var(self.lookup(env, name)?)),
            Expr::Unary { op, expr: inner } => {
                let e = self.rewrite_expr(inner, env, prefix)?;
                Ok(SsaExpr::Unary { op: *op, expr: Box::new(e) })
            },
            Expr::Binary { left, op, right } => match op {
                BinaryOp::Repeat => {
                    let n: i64 = match &**right {
                        Expr::Int(n) => *n,
                        Expr::Unary { op: UnaryOp::Neg, expr: inner } => match &**inner {
                            Expr::Int(n) => if *n == i64::MIN { i64::MIN } else { -*n },
                            _ => {
                                return Err(self.unknown(&str_to_string("x operator requires a constant integer count")));
                            },
                        },
                        _ => {
                            return Err(self.unknown(&str_to_string("x operator requires a constant integer count")));
                        },
                    };
                    let lhs = self.rewrite_expr(left, env, prefix)?;
                    if n <= 0 {
                        Ok(SsaExpr::String(String::new()))
                    } else if n == 1 {
                        Ok(lhs)
                    } else {
                        let mut result = clone_ssa_expr(&lhs);
                        let mut k: i64 = 1;
                        while k < n
                            decreases n - k,
                        {
                            result = SsaExpr::Binary {
                                left: Box::new(result),
                                op: BinaryOp::Concat,
                                right: Box::new(clone_ssa_expr(&lhs)),
                            };
                            k += 1;
                        }
                        Ok(result)
                    }
                },
                BinaryOp::Spaceship | BinaryOp::Cmp => {
                    let lhs = self.rewrite_expr(left, env, prefix)?;
                    let ghost p1 = prefix@;
                    let ghost s1 = *self;
                    let rhs = self.rewrite_expr(right, env, prefix)?;
                    proof {
                        lemma_step(p0, p1, prefix@, s0, s1, *self);
                    }
                    let (less, equal) = if *op == BinaryOp::Spaceship {
                        (BinaryOp::Lt, BinaryOp::Eq)
                    } else {
                        (BinaryOp::StrLt, BinaryOp::StrEq)
                    };
                    Ok(
                        SsaExpr::Ite {
                            condition: Box::new(
                                SsaExpr::Binary {
                                    left: Box::new(clone_ssa_expr(&lhs)),
                                    op: less,
                                    right: Box::new(clone_ssa_expr(&rhs)),
                                },
                            ),
                            then_expr: Box::new(SsaExpr::Int(-1)),
                            else_expr: Box::new(
                                SsaExpr::Ite {
                                    condition: Box::new(SsaExpr::Binary { left: Box::new(lhs), op: equal, right: Box::new(rhs) }),
                                    then_expr: Box::new(SsaExpr::Int(0)),
                                    else_expr: Box::new(SsaExpr::Int(1)),
                                },
                            ),
                        },
                    )
                },
                BinaryOp::And | BinaryOp::Or => {
                    let is_and = *op == BinaryOp::And;
                    let left_val = self.rewrite_expr(left, env, prefix)?;
                    let ghost p1 = prefix@;
                    let ghost s1 = *self;
                    let mut rhs_prefix: Vec<SsaStmt> = Vec::new();
                    let right_val = self.rewrite_expr(right, env, &mut rhs_prefix)?;
                    let ghost s2 = *self;
                    proof {
                        lemma_step_widen(p0, p1, s0, s1, *self);
                        lemma_grew_from_empty(rhs_prefix@, self.log@, s1.log@.len() as int, self.log@.len() as int);
                    }
                    if rhs_prefix.len() == 0 {
                        Ok(SsaExpr::Binary { left: Box::new(left_val), op: *op, right: Box::new(right_val) })
                    } else {
                        let stem = if is_and { "__sc_and" } else { "__sc_or" };
                        let then_name = self.fresh_name_str(stem)?;
                        let else_name = self.fresh_name_str(stem)?;
                        let result_name = self.fresh_name_str(stem)?;
                        let ghost rhs = rhs_prefix@;
                        let (then_branch, else_branch) = if is_and {
                            let mut t = rhs_prefix;
                            t.push(SsaStmt::Assign(copy_string(&then_name), right_val));
                            let mut e: Vec<SsaStmt> = Vec::new();
                            e.push(SsaStmt::Assign(copy_string(&else_name), SsaExpr::Bool(false)));
                            (t, e)
                        } else {
                            let mut t: Vec<SsaStmt> = Vec::new();
                            t.push(SsaStmt::Assign(copy_string(&then_name), SsaExpr::Bool(true)));
                            let mut e = rhs_prefix;
                            e.push(SsaStmt::Assign(copy_string(&else_name), right_val));
                            (t, e)
                        };
                        let mut merges: Vec<SsaMerge> = Vec::new();
                        merges.push(
                            SsaMerge {
                                source: str_to_string(stem),
                                then_name,
                                else_name,
                                result_name: copy_string(&result_name),
                            },
                        );
                        let x = SsaStmt::If { condition: left_val, then_branch, else_branch, merges };
                        proof {
                            let log = self.log@;
                            let b = s2.log@.len() as int;
                            let a = s1.log@.len() as int;
                            let rt = stmts_targets(rhs);
                            lemma_drawn_extend(rt, s2.log@, log, a, b, a, b);
                            lemma_drawn_single(log, b);
                            lemma_drawn_single(log, b + 1);
                            lemma_drawn_single(log, b + 2);
                            assert(log[b] == then_name@);
                            assert(log[b + 1] == else_name@);
                            assert(log[b + 2] == result_name@);
                            assert(merge_targets(merges@) =~= seq![log[b + 2]]);
                            if is_and {
                                lemma_targets_push(Seq::empty(), else_branch@.last());
                                lemma_targets_push(rhs, then_branch@.last());
                                assert(then_branch@ =~= rhs.push(then_branch@.last()));
                                assert(else_branch@ =~= Seq::<SsaStmt>::empty().push(else_branch@.last()));
                                assert(stmts_targets(else_branch@) =~= seq![log[b + 1]]);
                                lemma_drawn_concat(rt, seq![log[b]], log, a, b, b + 1);
                                lemma_drawn_concat(rt + seq![log[b]], seq![log[b + 1]], log, a, b + 1, b + 2);
                                lemma_drawn_concat(rt + seq![log[b]] + seq![log[b + 1]], seq![log[b + 2]], log, a, b + 2, b + 3);
                                assert(stmt_targets(x) =~= rt + seq![log[b]] + seq![log[b + 1]] + seq![log[b + 2]]);
                            } else {
                                lemma_targets_push(rhs, else_branch@.last());
                                assert(else_branch@ =~= rhs.push(else_branch@.last()));
                                assert(then_branch@ =~= Seq::<SsaStmt>::empty().push(then_branch@.last()));
                                lemma_targets_push(Seq::empty(), then_branch@.last());
                                assert(stmts_targets(then_branch@) =~= seq![log[b]]);
                                lemma_drawn_union(seq![log[b]], rt, log, b, b + 1, a, b, a, b + 1);
                                lemma_drawn_concat(seq![log[b]] + rt, seq![log[b + 1]], log, a, b + 1, b + 2);
                                lemma_drawn_concat(seq![log[b]] + rt + seq![log[b + 1]], seq![log[b + 2]], log, a, b + 2, b + 3);
                                assert(stmt_targets(x) =~= seq![log[b]] + rt + seq![log[b + 1]] + seq![log[b + 2]]);
                            }
                            lemma_grew_push(p0, p1, x, s1.log@, log, s0.log@.len() as int, a, log.len() as int);
                        }
                        prefix.push(x);
                        Ok(SsaExpr::Var(result_name))
                    }
                },
                _ => {
                    let l = self.rewrite_expr(left, env, prefix)?;
                    let ghost p1 = prefix@;
                    let ghost s1 = *self;
                    let r = self.rewrite_expr(right, env, prefix)?;
                    proof {
                        lemma_step(p0, p1, prefix@, s0, s1, *self);
                    }
                    Ok(SsaExpr::Binary { left: Box::new(l), op: *op, right: Box::new(r) })
                },
            },
            Expr::Ternary { condition, then_expr, else_expr } => {
                let c = self.rewrite_expr(condition, env, prefix)?;
                let ghost p1 = prefix@;
                let ghost s1 = *self;
                let t = self.rewrite_expr(then_expr, env, prefix)?;
                proof {
                    lemma_step(p0, p1, prefix@, s0, s1, *self);
                }
                let ghost p2 = prefix@;
                let ghost s2 = *self;
                let f = self.rewrite_expr(else_expr, env, prefix)?;
                proof {
                    lemma_step(p0, p2, prefix@, s0, s2, *self);
                }
                Ok(SsaExpr::Ite { condition: Box::new(c), then_expr: Box::new(t), else_expr: Box::new(f) })
            },
            Expr::Access { kind, collection, index } => {
                let c = self.lookup(env, collection)?;
                let i = self.rewrite_expr(index, env, prefix)?;
                Ok(SsaExpr::Access { kind: *kind, collection: Box::new(SsaExpr::Var(c)), index: Box::new(i) })
            },
            Expr::Call { function: callee, args } => {
                let mut lowered: Vec<SsaExpr> = Vec::new();
                let mut i: usize = 0;
                while i < args.len()
                    invariant
                        self.wf(),
                        env.wf(),
                        self.extends(&s0),
                        grew(p0, prefix@, self.log@, s0.log@.len() as int, self.log@.len() as int),
                    decreases args.len() - i,
                {
                    proof {
                        assert(decreases_to!(*args => args@[i as int]));
                    }
                    let ghost p1 = prefix@;
                    let ghost s1 = *self;
                    lowered.push(self.rewrite_expr(&args[i], env, prefix)?);
                    proof {
                        lemma_step(p0, p1, prefix@, s0, s1, *self);
                    }
                    i += 1;
                }
                let ghost p1 = prefix@;
                let ghost s1 = *self;
                let temp = self.fresh_name_str("__call_result")?;
                let x = SsaStmt::CallAssign { name: copy_string(&temp), callee: copy_string(callee), args: lowered };
                proof {
                    lemma_step_assign(p0, p1, x, s0, s1, *self);
                }
                prefix.push(x);
                Ok(SsaExpr::Var(temp))
            },
            Expr::Builtin { function, args } => {
                if *function == Builtin::Scalar && args.len() > 0 {
                    if let Expr::Variable(arr) = &args[0] {
                        if let Some(len_ssa) = self.len_companions.get(arr) {
                            return Ok(SsaExpr::Var(copy_string(len_ssa)));
                        }
                    }
                }
                if *function == Builtin::Chomp && args.len() > 0 {
                    if let Expr::Variable(var_name) = &args[0] {
                        let old_ssa = self.lookup(env, var_name)?;
                        let mut ends_args: Vec<SsaExpr> = Vec::new();
                        ends_args.push(SsaExpr::Var(copy_string(&old_ssa)));
                        ends_args.push(SsaExpr::String(str_to_string("\n")));
                        let condition = SsaExpr::Binary {
                            left: Box::new(SsaExpr::Builtin { function: Builtin::EndsWith, args: ends_args }),
                            op: BinaryOp::Gt,
                            right: Box::new(SsaExpr::Int(0)),
                        };
                        let mut len_args: Vec<SsaExpr> = Vec::new();
                        len_args.push(SsaExpr::Var(copy_string(&old_ssa)));
                        let len_minus_one = SsaExpr::Binary {
                            left: Box::new(SsaExpr::Builtin { function: Builtin::Length, args: len_args }),
                            op: BinaryOp::Sub,
                            right: Box::new(SsaExpr::Int(1)),
                        };
                        let mut sub_args: Vec<SsaExpr> = Vec::new();
                        sub_args.push(SsaExpr::Var(copy_string(&old_ssa)));
                        sub_args.push(SsaExpr::Int(0));
                        sub_args.push(len_minus_one);
                        let new_value = SsaExpr::Ite {
                            condition: Box::new(clone_ssa_expr(&condition)),
                            then_expr: Box::new(SsaExpr::Builtin { function: Builtin::Substr, args: sub_args }),
                            else_expr: Box::new(SsaExpr::Var(old_ssa)),
                        };
                        let ghost p1 = prefix@;
                        let ghost s1 = *self;
                        let new_ssa = self.fresh_name(var_name)?;
                        let x = SsaStmt::Assign(copy_string(&new_ssa), new_value);
                        proof {
                            lemma_step_assign(p0, p1, x, s0, s1, *self);
                        }
                        prefix.push(x);
                        env.insert(copy_string(var_name), new_ssa);
                        return Ok(
                            SsaExpr::Ite {
                                condition: Box::new(condition),
                                then_expr: Box::new(SsaExpr::Int(1)),
                                else_expr: Box::new(SsaExpr::Int(0)),
                            },
                        );
                    }
                }
                let mut lowered: Vec<SsaExpr> = Vec::new();
                let mut i: usize = 0;
                while i < args.len()
                    invariant
                        self.wf(),
                        env.wf(),
                        self.extends(&s0),
                        grew(p0, prefix@, self.log@, s0.log@.len() as int, self.log@.len() as int),
                    decreases args.len() - i,
                {
                    proof {
                        assert(decreases_to!(*args => args@[i as int]));
                    }
                    let ghost p1 = prefix@;
                    let ghost s1 = *self;
                    lowered.push(self.rewrite_expr(&args[i], env, prefix)?);
                    proof {
                        lemma_step(p0, p1, prefix@, s0, s1, *self);
                    }
                    i += 1;
                }
                Ok(SsaExpr::Builtin { function: *function, args: lowered })
            },
            Expr::Pop { array } => {
                let collection_name = self.lookup(env, array)?;
                let len_base = joined(array, "__len");
                let len_ssa = match self.len_companions.get(array) {
                    Some(existing) => copy_string(existing),
                    None => {
                        let ghost p1 = prefix@;
                        let ghost s1 = *self;
                        let init_name = self.fresh_name(&len_base)?;
                        let mut scalar_args: Vec<SsaExpr> = Vec::new();
                        scalar_args.push(SsaExpr::Var(copy_string(&collection_name)));
                        let x = SsaStmt::Assign(copy_string(&init_name), SsaExpr::Builtin { function: Builtin::Scalar, args: scalar_args });
                        proof {
                            lemma_step_assign(p0, p1, x, s0, s1, *self);
                        }
                        prefix.push(x);
                        self.len_companions.insert(copy_string(array), copy_string(&init_name));
                        init_name
                    },
                };
                let ghost p1 = prefix@;
                let ghost s1 = *self;
                let new_len_name = self.fresh_name(&len_base)?;
                let decrement = SsaExpr::Ite {
                    condition: Box::new(
                        SsaExpr::Binary {
                            left: Box::new(SsaExpr::Var(copy_string(&len_ssa))),
                            op: BinaryOp::Gt,
                            right: Box::new(SsaExpr::Int(0)),
                        },
                    ),
                    then_expr: Box::new(
                        SsaExpr::Binary {
                            left: Box::new(SsaExpr::Var(copy_string(&len_ssa))),
                            op: BinaryOp::Sub,
                            right: Box::new(SsaExpr::Int(1)),
                        },
                    ),
                    else_expr: Box::new(SsaExpr::Int(0)),
                };
                let x = SsaStmt::Assign(copy_string(&new_len_name), decrement);
                proof {
                    lemma_step_assign(p0, p1, x, s0, s1, *self);
                }
                prefix.push(x);
                self.len_companions.insert(copy_string(array), copy_string(&new_len_name));
                let pop_base = joined(array, "__pop");
                let ghost p1 = prefix@;
                let ghost s1 = *self;
                let pop_val_name = self.fresh_name(&pop_base)?;
                let x = SsaStmt::Assign(
                    copy_string(&pop_val_name),
                    SsaExpr::Access {
                        kind: AccessKind::Array,
                        collection: Box::new(SsaExpr::Var(copy_string(&collection_name))),
                        index: Box::new(SsaExpr::Var(copy_string(&new_len_name))),
                    },
                );
                proof {
                    lemma_step_assign(p0, p1, x, s0, s1, *self);
                }
                prefix.push(x);
                let ghost_base = joined(array, "__ghost");
                let ghost p1 = prefix@;
                let ghost s1 = *self;
                let placeholder = self.fresh_name(&ghost_base)?;
                let x = SsaStmt::Assign(copy_string(&placeholder), SsaExpr::FreshVar(copy_string(&placeholder)));
                proof {
                    lemma_step_assign(p0, p1, x, s0, s1, *self);
                }
                prefix.push(x);
                let invalidation = SsaExpr::Store {
                    kind: AccessKind::Array,
                    collection: Box::new(SsaExpr::Var(collection_name)),
                    index: Box::new(SsaExpr::Var(new_len_name)),
                    value: Box::new(SsaExpr::Var(placeholder)),
                };
                let ghost p1 = prefix@;
                let ghost s1 = *self;
                let new_arr_name = self.fresh_name(array)?;
                let x = SsaStmt::Assign(copy_string(&new_arr_name), invalidation);
                proof {
                    lemma_step_assign(p0, p1, x, s0, s1, *self);
                }
                prefix.push(x);
                env.insert(copy_string(array), new_arr_name);
                Ok(
                    SsaExpr::Ite {
                        condition: Box::new(
                            SsaExpr::Binary {
                                left: Box::new(SsaExpr::Var(len_ssa)),
                                op: BinaryOp::Gt,
                                right: Box::new(SsaExpr::Int(0)),
                            },
                        ),
                        then_expr: Box::new(SsaExpr::Var(pop_val_name)),
                        else_expr: Box::new(SsaExpr::Int(0)),
                    },
                )
            },
        }
    }
}

} // verus!

verus! {

impl SsaBuilder {
    /// The SSA statements of `stmts` and the versions after them; the
    /// statements assign distinct names, each handed out during the call.
    #[verifier::loop_isolation(false)]
    #[verifier::rlimit(50)]
    fn lower_stmts(&mut self, stmts: &Vec<Stmt>, env: &NameMap<String>) -> (r: Result<(Vec<SsaStmt>, NameMap<String>), IrError>)
        requires
            old(self).wf(),
            env.wf(),
        ensures
            final(self).wf(),
            final(self).extends(old(self)),
            r matches Ok((out, e)) ==> e.wf() && drawn_from(
                stmts_targets(out@),
                final(self).log@,
                old(self).log@.len() as int,
                final(self).log@.len() as int,
            ),
        decreases stmts,
    {
        let ghost s0 = *self;
        let ghost e0 = Seq::<SsaStmt>::empty();
        let mut env = env.duplicate();
        let mut lowered: Vec<SsaStmt> = Vec::new();
        proof {
            lemma_grew_refl(lowered@, self.log@, self.log@.len() as int, self.log@.len() as int);
        }
        let mut i: usize = 0;
        while i < stmts.len()
            invariant
                self.wf(),
                env.wf(),
                self.extends(&s0),
                grew(e0, lowered@, self.log@, s0.log@.len() as int, self.log@.len() as int),
            decreases stmts.len() - i,
        {
            proof {
                assert(decreases_to!(*stmts => stmts@[i as int]));
            }
            match &stmts[i] {
                Stmt::Declare { name } => {
                    let def_base = joined(name, "__defined");
                    let ghost (q, t) = (lowered@, *self);
                    let def_name = self.fresh_name(&def_base)?;
                    let x = SsaStmt::Assign(copy_string(&def_name), SsaExpr::Int(0));
                    proof {
                        lemma_step_assign(e0, q, x, s0, t, *self);
                    }
                    lowered.push(x);
                    env.insert(def_base, def_name);
                    self.defined_companions.push(copy_string(name));
                },
                Stmt::LoopBoundExceeded => {
                    proof {
                        lemma_step_plain(e0, lowered@, SsaStmt::LoopBoundExceeded, s0, *self);
                    }
                    lowered.push(SsaStmt::LoopBoundExceeded);
                },
                Stmt::Assign { name, expr, .. } => {
                    let ghost t = *self;
                    let mut prefix: Vec<SsaStmt> = Vec::new();
                    let rhs = self.rewrite_expr(expr, &mut env, &mut prefix)?;
                    let ghost (q, pre) = (lowered@, prefix@);
                    lowered.append(&mut prefix);
                    proof {
                        lemma_step_append(e0, q, pre, s0, t, *self);
                    }
                    let ghost (q, t) = (lowered@, *self);
                    let ssa_name = self.fresh_name(name)?;
                    env.insert(copy_string(name), copy_string(&ssa_name));
                    let x = SsaStmt::Assign(ssa_name, rhs);
                    proof {
                        lemma_step_assign(e0, q, x, s0, t, *self);
                    }
                    lowered.push(x);
                    if self.is_defined_tracked(name) {
                        let def_base = joined(name, "__defined");
                        let ghost (q, t) = (lowered@, *self);
                        let def_name = self.fresh_name(&def_base)?;
                        let x = SsaStmt::Assign(copy_string(&def_name), SsaExpr::Int(1));
                        proof {
                            lemma_step_assign(e0, q, x, s0, t, *self);
                        }
                        lowered.push(x);
                        env.insert(def_base, def_name);
                    }
                },
                Stmt::ArrayAssign { name, index, expr } => {
                    let collection = self.lookup(&env, name)?;
                    let ghost t = *self;
                    let mut prefix: Vec<SsaStmt> = Vec::new();
                    let index_expr = self.rewrite_expr(index, &mut env, &mut prefix)?;
                    let ghost (pre1, t1) = (prefix@, *self);
                    let value_expr = self.rewrite_expr(expr, &mut env, &mut prefix)?;
                    proof {
                        lemma_step(e0, pre1, prefix@, t, t1, *self);
                    }
                    let ghost (q, pre) = (lowered@, prefix@);
                    lowered.append(&mut prefix);
                    proof {
                        lemma_step_append(e0, q, pre, s0, t, *self);
                    }
                    let store = SsaExpr::Store {
                        kind: AccessKind::Array,
                        collection: Box::new(SsaExpr::Var(collection)),
                        index: Box::new(index_expr),
                        value: Box::new(value_expr),
                    };
                    let ghost (q, t) = (lowered@, *self);
                    let ssa_name = self.fresh_name(name)?;
                    env.insert(copy_string(name), copy_string(&ssa_name));
                    let x = SsaStmt::Assign(ssa_name, store);
                    proof {
                        lemma_step_assign(e0, q, x, s0, t, *self);
                    }
                    lowered.push(x);
                },
                Stmt::HashAssign { name, key, expr } => {
                    let collection = self.lookup(&env, name)?;
                    let ghost t = *self;
                    let mut prefix: Vec<SsaStmt> = Vec::new();
                    let key_expr = self.rewrite_expr(key, &mut env, &mut prefix)?;
                    let ghost (pre1, t1) = (prefix@, *self);
                    let value_expr = self.rewrite_expr(expr, &mut env, &mut prefix)?;
                    proof {
                        lemma_step(e0, pre1, prefix@, t, t1, *self);
                    }
                    let ghost (q, pre) = (lowered@, prefix@);
                    lowered.append(&mut prefix);
                    proof {
                        lemma_step_append(e0, q, pre, s0, t, *self);
                    }
                    let store = SsaExpr::Store {
                        kind: AccessKind::Hash,
                        collection: Box::new(SsaExpr::Var(collection)),
                        index: Box::new(clone_ssa_expr(&key_expr)),
                        value: Box::new(value_expr),
                    };
                    let ghost (q, t) = (lowered@, *self);
                    let ssa_name = self.fresh_name(name)?;
                    env.insert(copy_string(name), copy_string(&ssa_name));
                    let x = SsaStmt::Assign(ssa_name, store);
                    proof {
                        lemma_step_assign(e0, q, x, s0, t, *self);
                    }
                    lowered.push(x);
                    let exists_base = joined(name, "__exists");
                    let old_exists = match self.exists_companions.get(name) {
                        Some(existing) => copy_string(existing),
                        None => {
                            let ghost (q, t) = (lowered@, *self);
                            let fresh = self.fresh_name(&exists_base)?;
                            let x = SsaStmt::Assign(copy_string(&fresh), SsaExpr::FreshHash { value_int: true, name: copy_string(&fresh) });
                            proof {
                                lemma_step_assign(e0, q, x, s0, t, *self);
                            }
                            lowered.push(x);
                            self.exists_companions.insert(copy_string(name), copy_string(&fresh));
                            fresh
                        },
                    };
                    let exists_store = SsaExpr::Store {
                        kind: AccessKind::Hash,
                        collection: Box::new(SsaExpr::Var(old_exists)),
                        index: Box::new(key_expr),
                        value: Box::new(SsaExpr::Int(1)),
                    };
                    let ghost (q, t) = (lowered@, *self);
                    let new_exists = self.fresh_name(&exists_base)?;
                    let x = SsaStmt::Assign(copy_string(&new_exists), exists_store);
                    proof {
                        lemma_step_assign(e0, q, x, s0, t, *self);
                    }
                    lowered.push(x);
                    self.exists_companions.insert(copy_string(name), new_exists);
                },
                Stmt::If { condition, then_branch, else_branch } => {
                    let ghost t = *self;
                    let mut prefix: Vec<SsaStmt> = Vec::new();
                    let cond = self.rewrite_expr(condition, &mut env, &mut prefix)?;
                    let ghost (q, pre) = (lowered@, prefix@);
                    lowered.append(&mut prefix);
                    proof {
                        lemma_step_append(e0, q, pre, s0, t, *self);
                    }
                    let ghost (q, t) = (lowered@, *self);
                    let (then_stmts, then_env) = self.lower_stmts(then_branch, &env)?;
                    let ghost t1 = *self;
                    let (else_stmts, else_env) = self.lower_stmts(else_branch, &env)?;
                    let ghost t2 = *self;
                    let mut next_env = env.duplicate();
                    let mut all_keys = then_env.keys();
                    let mut more = else_env.keys();
                    all_keys.append(&mut more);
                    let keys = sorted_unique(all_keys);
                    let mut merges: Vec<SsaMerge> = Vec::new();
                    proof {
                        lemma_drawn_empty(self.log@, self.log@.len() as int);
                        assert(merge_targets(merges@) =~= Seq::<Seq<char>>::empty());
                    }
                    let mut k: usize = 0;
                    while k < keys.len()
                        invariant
                            self.wf(),
                            next_env.wf(),
                            then_env.wf(),
                            else_env.wf(),
                            self.extends(&t2),
                            drawn_from(merge_targets(merges@), self.log@, t2.log@.len() as int, self.log@.len() as int),
                        decreases keys.len() - k,
                    {
                        let key = &keys[k];
                        match (then_env.get(key), else_env.get(key)) {
                            (Some(tn), Some(en)) => {
                                if string_eq(tn, en) {
                                    next_env.insert(copy_string(key), copy_string(tn));
                                } else {
                                    let ghost (m0, u) = (merges@, *self);
                                    let result_name = self.fresh_name(key)?;
                                    let m = SsaMerge {
                                        source: copy_string(key),
                                        then_name: copy_string(tn),
                                        else_name: copy_string(en),
                                        result_name: copy_string(&result_name),
                                    };
                                    merges.push(m);
                                    proof {
                                        let log = self.log@;
                                        let n = log.len() - 1;
                                        lemma_drawn_extend(merge_targets(m0), u.log@, log, t2.log@.len() as int, n, t2.log@.len() as int, n);
                                        lemma_drawn_single(log, n);
                                        assert(merge_targets(merges@) =~= merge_targets(m0) + seq![log[n]]);
                                        lemma_drawn_concat(merge_targets(m0), seq![log[n]], log, t2.log@.len() as int, n, n + 1);
                                    }
                                    next_env.insert(copy_string(key), result_name);
                                }
                            },
                            _ => {},
                        }
                        k += 1;
                    }
                    let x = SsaStmt::If { condition: cond, then_branch: then_stmts, else_branch: else_stmts, merges };
                    proof {
                        let log = self.log@;
                        let a = t.log@.len() as int;
                        let b = t1.log@.len() as int;
                        let c = t2.log@.len() as int;
                        let d = log.len() as int;
                        let tt = stmts_targets(x->If_then_branch@);
                        let et = stmts_targets(x->If_else_branch@);
                        let mt = merge_targets(x->If_merges@);
                        lemma_drawn_extend(tt, t1.log@, log, a, b, a, b);
                        lemma_drawn_extend(et, t2.log@, log, b, c, b, c);
                        lemma_drawn_concat(tt, et, log, a, b, c);
                        lemma_drawn_concat(tt + et, mt, log, a, c, d);
                        assert(stmt_targets(x) == tt + et + mt);
                        lemma_grew_push(e0, q, x, t.log@, log, s0.log@.len() as int, a, d);
                    }
                    lowered.push(x);
                    env = next_env;
                },
                Stmt::Return(expr) => {
                    let ghost t = *self;
                    let mut prefix: Vec<SsaStmt> = Vec::new();
                    let value = self.rewrite_expr(expr, &mut env, &mut prefix)?;
                    let ghost (q, pre) = (lowered@, prefix@);
                    lowered.append(&mut prefix);
                    proof {
                        lemma_step_append(e0, q, pre, s0, t, *self);
                        lemma_step_plain(e0, lowered@, SsaStmt::Return(value), s0, *self);
                    }
                    lowered.push(SsaStmt::Return(value));
                },
                Stmt::Push { array, value } => {
                    let collection = self.lookup(&env, array)?;
                    let len_base = joined(array, "__len");
                    let len_ssa = match self.len_companions.get(array) {
                        Some(existing) => copy_string(existing),
                        None => {
                            let ghost (q, t) = (lowered@, *self);
                            let init_name = self.fresh_name(&len_base)?;
                            let mut scalar_args: Vec<SsaExpr> = Vec::new();
                            scalar_args.push(SsaExpr::Var(copy_string(&collection)));
                            let x = SsaStmt::Assign(copy_string(&init_name), SsaExpr::Builtin { function: Builtin::Scalar, args: scalar_args });
                            proof {
                                lemma_step_assign(e0, q, x, s0, t, *self);
                            }
                            lowered.push(x);
                            self.len_companions.insert(copy_string(array), copy_string(&init_name));
                            init_name
                        },
                    };
                    let ghost t = *self;
                    let mut prefix: Vec<SsaStmt> = Vec::new();
                    let value_expr = self.rewrite_expr(value, &mut env, &mut prefix)?;
                    let ghost (q, pre) = (lowered@, prefix@);
                    lowered.append(&mut prefix);
                    proof {
                        lemma_step_append(e0, q, pre, s0, t, *self);
                    }
                    let store = SsaExpr::Store {
                        kind: AccessKind::Array,
                        collection: Box::new(SsaExpr::Var(collection)),
                        index: Box::new(SsaExpr::Var(copy_string(&len_ssa))),
                        value: Box::new(value_expr),
                    };
                    let ghost (q, t) = (lowered@, *self);
                    let new_arr = self.fresh_name(array)?;
                    env.insert(copy_string(array), copy_string(&new_arr));
                    let x = SsaStmt::Assign(new_arr, store);
                    proof {
                        lemma_step_assign(e0, q, x, s0, t, *self);
                    }
                    lowered.push(x);
                    let ghost (q, t) = (lowered@, *self);
                    let new_len = self.fresh_name(&len_base)?;
                    let increment = SsaExpr::Binary {
                        left: Box::new(SsaExpr::Var(len_ssa)),
                        op: BinaryOp::Add,
                        right: Box::new(SsaExpr::Int(1)),
                    };
                    let x = SsaStmt::Assign(copy_string(&new_len), increment);
                    proof {
                        lemma_step_assign(e0, q, x, s0, t, *self);
                    }
                    lowered.push(x);
                    self.len_companions.insert(copy_string(array), new_len);
                },
                Stmt::ArrayInit { name, elements } => {
                    let mut values: Vec<SsaExpr> = Vec::new();
                    let mut j: usize = 0;
                    while j < elements.len()
                        invariant
                            self.wf(),
                            env.wf(),
                            self.extends(&s0),
                            grew(e0, lowered@, self.log@, s0.log@.len() as int, self.log@.len() as int),
                        decreases elements.len() - j,
                    {
                        let ghost t = *self;
                        let mut prefix: Vec<SsaStmt> = Vec::new();
                        let v = self.rewrite_expr(&elements[j], &mut env, &mut prefix)?;
                        let ghost (q, pre) = (lowered@, prefix@);
                        lowered.append(&mut prefix);
                        proof {
                            lemma_step_append(e0, q, pre, s0, t, *self);
                        }
                        values.push(v);
                        j += 1;
                    }
                    let element_int = if values.len() > 0 { is_int_element(&values[0]) } else { true };
                    let ghost (q, t) = (lowered@, *self);
                    let arr_name = self.fresh_name(name)?;
                    env.insert(copy_string(name), copy_string(&arr_name));
                    let x = SsaStmt::Assign(copy_string(&arr_name), SsaExpr::FreshArray { element_int, name: arr_name });
                    proof {
                        lemma_step_assign(e0, q, x, s0, t, *self);
                    }
                    lowered.push(x);
                    let count = values.len();
                    let mut values = values;
                    let mut idx: usize = 0;
                    while values.len() > 0
                        invariant
                            self.wf(),
                            env.wf(),
                            self.extends(&s0),
                            grew(e0, lowered@, self.log@, s0.log@.len() as int, self.log@.len() as int),
                            idx + values@.len() == count,
                        decreases values.len(),
                    {
                        let value = values.remove(0);
                        let current = self.lookup(&env, name)?;
                        let store = SsaExpr::Store {
                            kind: AccessKind::Array,
                            collection: Box::new(SsaExpr::Var(current)),
                            index: Box::new(SsaExpr::Int(idx as i64)),
                            value: Box::new(value),
                        };
                        let ghost (q, t) = (lowered@, *self);
                        let new_arr = self.fresh_name(name)?;
                        env.insert(copy_string(name), copy_string(&new_arr));
                        let x = SsaStmt::Assign(new_arr, store);
                        proof {
                            lemma_step_assign(e0, q, x, s0, t, *self);
                        }
                        lowered.push(x);
                        idx += 1;
                    }
                    let len_base = joined(name, "__len");
                    let ghost (q, t) = (lowered@, *self);
                    let len_init = self.fresh_name(&len_base)?;
                    let x = SsaStmt::Assign(copy_string(&len_init), SsaExpr::Int(elements.len() as i64));
                    proof {
                        lemma_step_assign(e0, q, x, s0, t, *self);
                    }
                    lowered.push(x);
                    self.len_companions.insert(copy_string(name), len_init);
                },
                Stmt::Die(_) => {
                    proof {
                        lemma_step_plain(e0, lowered@, SsaStmt::Die, s0, *self);
                    }
                    lowered.push(SsaStmt::Die);
                },
                Stmt::Last => {
                    return Err(self.unknown(&str_to_string("last")));
                },
                Stmt::Next => {
                    return Err(self.unknown(&str_to_string("next")));
                },
            }
            i += 1;
        }
        proof {
            lemma_grew_from_empty(lowered@, self.log@, s0.log@.len() as int, self.log@.len() as int);
        }
        Ok((lowered, env))
    }
}

/// The SSA form of a function: each parameter gets version 0 and every
/// The SSA names of the parameters `ps`.
pub open spec fn param_names(ps: Seq<SsaParam>) -> Seq<Seq<char>> {
    ps.map_values(|p: SsaParam| p.ssa_name@)
}

/// The SSA form of a function: each parameter gets version 0 and every
/// assignment a new version of its variable, so that no name is assigned
/// twice and none is both a parameter and assigned.
pub fn lower_to_ssa(function: &FunctionAst) -> (r: Result<SsaFunction, IrError>)
    ensures
        r matches Ok(ssa) ==> ssa.name@ == function.name@ && ssa.params@.len() == function.params@.len() && forall|i: int|
            0 <= i < ssa.params@.len() ==> (#[trigger] ssa.params@[i]).source@ == function.params@[i]@,
        r matches Ok(ssa) ==> (param_names(ssa.params@) + stmts_targets(ssa.body@)).no_duplicates(),
{
    let mut builder = SsaBuilder::new(&function.name);
    let mut env: NameMap<String> = NameMap::new();
    let mut params: Vec<SsaParam> = Vec::new();
    proof {
        assert(param_names(params@) =~= Seq::<Seq<char>>::empty());
    }
    let mut i: usize = 0;
    while i < function.params.len()
        invariant
            i <= function.params@.len(),
            builder.wf(),
            env.wf(),
            params@.len() == i,
            forall|j: int| 0 <= j < i ==> (#[trigger] params@[j]).source@ == function.params@[j]@,
            drawn_from(param_names(params@), builder.log@, 0, builder.log@.len() as int),
        decreases function.params.len() - i,
    {
        let param = &function.params[i];
        let ghost (ps, b0) = (params@, builder);
        let ssa_name = builder.fresh_name(param)?;
        env.insert(copy_string(param), copy_string(&ssa_name));
        params.push(SsaParam { source: copy_string(param), ssa_name });
        proof {
            let log = builder.log@;
            let n = log.len() - 1;
            lemma_drawn_extend(param_names(ps), b0.log@, log, 0, n, 0, n);
            lemma_drawn_single(log, n);
            assert(param_names(params@) =~= param_names(ps) + seq![log[n]]);
            lemma_drawn_concat(param_names(ps), seq![log[n]], log, 0, n, n + 1);
        }
        i += 1;
    }
    let ghost b1 = builder;
    let (body, _) = builder.lower_stmts(&function.body, &env)?;
    proof {
        let log = builder.log@;
        lemma_drawn_extend(param_names(params@), b1.log@, log, 0, b1.log@.len() as int, 0, b1.log@.len() as int);
        lemma_drawn_concat(param_names(params@), stmts_targets(body@), log, 0, b1.log@.len() as int, log.len() as int);
    }
    Ok(SsaFunction { name: copy_string(&function.name), params, body })
}


/// Whether the edges that leave block `from` through `t` lead to blocks
/// after it and before `n`.
pub open spec fn forward_edges(t: Terminator, from: int, n: int) -> bool {
    match t {
        Terminator::Goto { target, .. } => from < target < n,
        Terminator::Branch { then_target, else_target, .. } => from < then_target < n && from < else_target < n
            && then_target != else_target,
        _ => true,
    }
}

/// Whether a `Goto` through `t` hands its target one argument per parameter.
pub open spec fn goto_arity(t: Terminator, params: Seq<Vec<BlockParam>>) -> bool {
    match t {
        Terminator::Goto { target, args } => 0 <= target < params.len() && args@.len() == params[target as int]@.len(),
        _ => true,
    }
}

impl ControlFlowGraph {
    /// A graph whose entry is block 0, whose blocks are numbered by their
    /// position, and whose edges all lead forward (so it has no cycle) to
    /// blocks that take as many arguments as they are handed.
    pub open spec fn wf(&self) -> bool {
        &&& self.blocks@.len() >= 1
        &&& self.entry == 0
        &&& forall|i: int| 0 <= i < self.blocks@.len() ==> (#[trigger] self.blocks@[i]).id == i
        &&& forall|i: int|
            0 <= i < self.blocks@.len() ==> forward_edges(#[trigger] self.blocks@[i].terminator, i, self.blocks@.len() as int)
        &&& forall|i: int|
            0 <= i < self.blocks@.len() ==> goto_arity(
                #[trigger] self.blocks@[i].terminator,
                Seq::new(self.blocks@.len(), |j: int| self.blocks@[j].params),
            )
    }
}

/// Where a lowered sequence left control: in `block_id`, still open, or in
/// no block because every path through it was terminated.
struct BlockExit {
    block_id: usize,
    terminated: bool,
}

/// The blocks built so far, kept as parallel vectors of parameters,
/// statements and terminators.
struct CfgBuilder {
    params: Vec<Vec<BlockParam>>,
    stmts: Vec<Vec<BlockStmt>>,
    terms: Vec<Terminator>,
}

/// A copy of each parameter.
fn clone_params(v: &Vec<SsaParam>) -> (r: Vec<SsaParam>)
    ensures
        r@.len() == v@.len(),
        forall|i: int| 0 <= i < v@.len() ==> (#[trigger] r@[i]).source@ == v@[i].source@ && r@[i].ssa_name@ == v@[i].ssa_name@,
{
    let mut out: Vec<SsaParam> = Vec::new();
    let mut i: usize = 0;
    while i < v.len()
        invariant
            i <= v@.len(),
            out@.len() == i,
            forall|j: int| 0 <= j < i ==> (#[trigger] out@[j]).source@ == v@[j].source@ && out@[j].ssa_name@ == v@[j].ssa_name@,
        decreases v.len() - i,
    {
        out.push(SsaParam { source: copy_string(&v[i].source), ssa_name: copy_string(&v[i].ssa_name) });
        i += 1;
    }
    out
}

fn clone_block_stmt(s: &SsaStmt) -> (r: Option<BlockStmt>)
    ensures
        match *s {
            SsaStmt::Assign(name, expr) => r matches Some(BlockStmt::Assign(n, e)) && n@ == name@ && ssa_same(e, expr),
            SsaStmt::CallAssign { name, callee, args } => r matches Some(
                BlockStmt::CallAssign { name: n, callee: c, args: a },
            ) && n@ == name@ && c@ == callee@ && a@.len() == args@.len() && forall|i: int|
                0 <= i < args@.len() ==> ssa_same(#[trigger] a@[i], args@[i]),
            _ => r is None,
        },
{
    match s {
        SsaStmt::Assign(name, expr) => Some(BlockStmt::Assign(copy_string(name), clone_ssa_expr(expr))),
        SsaStmt::CallAssign { name, callee, args } => Some(
            BlockStmt::CallAssign { name: copy_string(name), callee: copy_string(callee), args: clone_ssa_exprs(args) },
        ),
        _ => None,
    }
}

impl CfgBuilder {
    spec fn wf(&self) -> bool {
        &&& self.params@.len() == self.stmts@.len()
        &&& self.params@.len() == self.terms@.len()
        &&& forall|i: int| 0 <= i < self.terms@.len() ==> forward_edges(#[trigger] self.terms@[i], i, self.terms@.len() as int)
        &&& forall|i: int| 0 <= i < self.terms@.len() ==> goto_arity(#[trigger] self.terms@[i], self.params@)
    }

    spec fn grows(&self, before: &CfgBuilder) -> bool {
        &&& before.terms@.len() <= self.terms@.len()
        &&& before.params@.len() <= self.params@.len()
        &&& forall|i: int| 0 <= i < before.params@.len() ==> (#[trigger] self.params@[i])@ == before.params@[i]@
    }

    proof fn lemma_forward_extends(t: Terminator, from: int, n: int, m: int)
        requires
            forward_edges(t, from, n),
            n <= m,
        ensures
            forward_edges(t, from, m),
    {
    }

    fn new_block(&mut self, params: Vec<BlockParam>) -> (id: usize)
        requires
            old(self).wf(),
            old(self).terms@.len() < usize::MAX,
        ensures
            final(self).wf(),
            final(self).grows(old(self)),
            id == old(self).terms@.len(),
            final(self).terms@.len() == id + 1,
            final(self).params@[id as int]@ == params@,
            final(self).terms@[id as int] == Terminator::Unreachable,
    {
        let id = self.terms.len();
        self.params.push(params);
        self.stmts.push(Vec::new());
        self.terms.push(Terminator::Unreachable);
        proof {
            assert forall|i: int| 0 <= i < self.terms@.len() implies forward_edges(#[trigger] self.terms@[i], i, self.terms@.len() as int) by {
                if i < id {
                    Self::lemma_forward_extends(self.terms@[i], i, id as int, self.terms@.len() as int);
                }
            }
            assert forall|i: int| 0 <= i < self.terms@.len() implies goto_arity(#[trigger] self.terms@[i], self.params@) by {
                if i < id {
                    assert(goto_arity(old(self).terms@[i], old(self).params@));
                }
            }
        }
        id
    }

    fn set_terminator(&mut self, block: usize, t: Terminator)
        requires
            old(self).wf(),
            block < old(self).terms@.len(),
            forward_edges(t, block as int, old(self).terms@.len() as int),
            goto_arity(t, old(self).params@),
        ensures
            final(self).wf(),
            final(self).grows(old(self)),
            final(self).terms@.len() == old(self).terms@.len(),
            final(self).terms@ == old(self).terms@.update(block as int, t),
            final(self).params@ == old(self).params@,
            final(self).stmts@ == old(self).stmts@,
    {
        self.terms.set(block, t);
    }

    fn set_stmts(&mut self, block: usize, s: Vec<BlockStmt>)
        requires
            old(self).wf(),
            block < old(self).terms@.len(),
        ensures
            final(self).wf(),
            final(self).grows(old(self)),
            final(self).terms@.len() == old(self).terms@.len(),
            final(self).terms@ == old(self).terms@,
            final(self).stmts@ == old(self).stmts@.update(block as int, s),
            final(self).params@ == old(self).params@,
    {
        self.stmts.set(block, s);
    }

    /// Lowers `stmts[start..]` into the fresh block `block_id`, creating
    /// blocks for the branches of each `if` and for the point where they meet.
    fn lower_sequence(&mut self, block_id: usize, stmts: &Vec<SsaStmt>, start: usize) -> (exit: BlockExit)
        requires
            old(self).wf(),
            block_id < old(self).terms@.len(),
            start <= stmts@.len(),
        ensures
            final(self).wf(),
            final(self).grows(old(self)),
            !exit.terminated ==> block_id <= exit.block_id < final(self).terms@.len(),
            !exit.terminated ==> exit.block_id == block_id || old(self).terms@.len() <= exit.block_id,
        decreases stmts, stmts@.len() - start,
    {
        let current = block_id;
        let mut local: Vec<BlockStmt> = Vec::new();
        let mut index: usize = start;
        while index < stmts.len()
            invariant
                self.wf(),
                self.grows(old(self)),
                block_id < self.terms@.len(),
                current == block_id,
                start <= index <= stmts@.len(),
                self.terms@.len() == old(self).terms@.len(),
            decreases stmts.len() - index,
        {
            proof {
                assert(decreases_to!(*stmts => stmts@[index as int]));
            }
            let stmt = &stmts[index];
            match stmt {
                SsaStmt::Assign(..) | SsaStmt::CallAssign { .. } => {
                    match clone_block_stmt(stmt) {
                        Some(b) => local.push(b),
                        None => {},
                    }
                },
                SsaStmt::If { condition, then_branch, else_branch, merges } => {
                    self.set_stmts(current, local);
                    if self.terms.len() >= usize::MAX - 3 {
                        return BlockExit { block_id: 0, terminated: true };
                    }
                    let then_block = self.new_block(Vec::new());
                    let else_block = self.new_block(Vec::new());
                    self.set_terminator(
                        current,
                        Terminator::Branch { condition: clone_ssa_expr(condition), then_target: then_block, else_target: else_block },
                    );
                    let then_exit = self.lower_sequence(then_block, then_branch, 0);
                    let else_exit = self.lower_sequence(else_block, else_branch, 0);
                    if index + 1 == stmts.len() && then_exit.terminated && else_exit.terminated {
                        return BlockExit { block_id: 0, terminated: true };
                    }
                    if self.terms.len() >= usize::MAX - 1 {
                        return BlockExit { block_id: 0, terminated: true };
                    }
                    let mut join_params: Vec<BlockParam> = Vec::new();
                    let mut then_args: Vec<SsaExpr> = Vec::new();
                    let mut else_args: Vec<SsaExpr> = Vec::new();
                    let mut m: usize = 0;
                    while m < merges.len()
                        invariant
                            m <= merges@.len(),
                            join_params@.len() == m,
                            then_args@.len() == m,
                            else_args@.len() == m,
                        decreases merges.len() - m,
                    {
                        let merge = &merges[m];
                        join_params.push(
                            BlockParam { source: copy_string(&merge.source), ssa_name: copy_string(&merge.result_name) },
                        );
                        then_args.push(SsaExpr::Var(copy_string(&merge.then_name)));
                        else_args.push(SsaExpr::Var(copy_string(&merge.else_name)));
                        m += 1;
                    }
                    let join_block = self.new_block(join_params);
                    if !then_exit.terminated {
                        self.set_terminator(then_exit.block_id, Terminator::Goto { target: join_block, args: then_args });
                    }
                    if !else_exit.terminated {
                        self.set_terminator(else_exit.block_id, Terminator::Goto { target: join_block, args: else_args });
                    }
                    let rest = self.lower_sequence(join_block, stmts, index + 1);
                    return rest;
                },
                SsaStmt::Return(expr) => {
                    self.set_stmts(current, local);
                    self.set_terminator(current, Terminator::Return(clone_ssa_expr(expr)));
                    return BlockExit { block_id: 0, terminated: true };
                },
                SsaStmt::LoopBoundExceeded => {
                    self.set_stmts(current, local);
                    self.set_terminator(current, Terminator::LoopBoundExceeded);
                    return BlockExit { block_id: 0, terminated: true };
                },
                SsaStmt::Die => {
                    self.set_stmts(current, local);
                    self.set_terminator(current, Terminator::Die);
                    return BlockExit { block_id: 0, terminated: true };
                },
                SsaStmt::Unreachable => {
                    self.set_stmts(current, local);
                    self.set_terminator(current, Terminator::Unreachable);
                    return BlockExit { block_id: 0, terminated: true };
                },
                SsaStmt::InvariantInitFailed => {
                    self.set_stmts(current, local);
                    self.set_terminator(current, Terminator::InvariantInitFailed);
                    return BlockExit { block_id: 0, terminated: true };
                },
                SsaStmt::InvariantPreservationFailed => {
                    self.set_stmts(current, local);
                    self.set_terminator(current, Terminator::InvariantPreservationFailed);
                    return BlockExit { block_id: 0, terminated: true };
                },
                SsaStmt::AssertFailed => {
                    self.set_stmts(current, local);
                    self.set_terminator(current, Terminator::AssertFailed);
                    return BlockExit { block_id: 0, terminated: true };
                },
            }
            index += 1;
        }
        self.set_stmts(current, local);
        BlockExit { block_id: current, terminated: false }
    }
}

/// The control-flow graph of an SSA function: block 0 is the entry, each
/// `if` ends its block in a branch, and where the two branches meet a join
/// block takes the merged variables as parameters.
pub fn build_cfg(function: &SsaFunction) -> (cfg: ControlFlowGraph)
    ensures
        cfg.wf(),
        cfg.name@ == function.name@,
        cfg.params@.len() == function.params@.len(),
        forall|i: int|
            0 <= i < function.params@.len() ==> (#[trigger] cfg.params@[i]).source@ == function.params@[i].source@
                && cfg.params@[i].ssa_name@ == function.params@[i].ssa_name@,
{
    let mut builder = CfgBuilder { params: Vec::new(), stmts: Vec::new(), terms: Vec::new() };
    let entry = builder.new_block(Vec::new());
    let _ = builder.lower_sequence(entry, &function.body, 0);
    let CfgBuilder { params, stmts, terms } = builder;
    let mut params = params;
    let mut stmts = stmts;
    let mut terms = terms;
    let ghost all_params = params@;
    let ghost all_terms = terms@;
    let n = terms.len();
    let mut blocks: Vec<BasicBlock> = Vec::new();
    let mut i: usize = 0;
    while i < n
        invariant
            i <= n,
            n == all_terms.len(),
            all_params.len() == n,
            stmts@.len() == n - i,
            terms@ == all_terms.subrange(i as int, n as int),
            params@ == all_params.subrange(i as int, n as int),
            blocks@.len() == i,
            forall|j: int| 0 <= j < i ==> (#[trigger] blocks@[j]).id == j && blocks@[j].params == all_params[j]
                && blocks@[j].terminator == all_terms[j],
        decreases n - i,
    {
        let block_params = params.remove(0);
        let block_stmts = stmts.remove(0);
        let terminator = terms.remove(0);
        blocks.push(BasicBlock { id: i, params: block_params, stmts: block_stmts, terminator });
        i += 1;
        proof {
            assert(terms@ =~= all_terms.subrange(i as int, n as int));
            assert(params@ =~= all_params.subrange(i as int, n as int));
        }
    }
    proof {
        assert(Seq::new(blocks@.len(), |j: int| blocks@[j].params) =~= all_params);
        assert forall|k: int| 0 <= k < blocks@.len() implies forward_edges(#[trigger] blocks@[k].terminator, k, blocks@.len() as int) by {
            assert(forward_edges(all_terms[k], k, n as int));
        }
        assert forall|k: int| 0 <= k < blocks@.len() implies goto_arity(
            #[trigger] blocks@[k].terminator,
            Seq::new(blocks@.len(), |j: int| blocks@[j].params),
        ) by {
            assert(goto_arity(all_terms[k], all_params));
        }
    }
    ControlFlowGraph { name: copy_string(&function.name), params: clone_params(&function.params), entry: 0, blocks }
}
} // verus!
