//! Bounded unrolling of loops into nested conditionals, with `last` and
//! `next` turned into assignments to flag variables.

use vstd::prelude::*;

use crate::ast::{
    clone_expr, clone_stmt, clone_stmts, expr_wf, extend_stmts, stmt_wf, stmts_wf, AccessKind, BinaryOp, Builtin,
    Expr, Stmt, expr_view, ExprV, StmtV, stmt_view, stmts_view, lemma_stmts_view, lemma_stmts_view_push,
    lemma_stmts_view_add,
};
use crate::text::str_to_string;

verus! {

/// The flag that records a `last`.
pub const BREAK_FLAG: &'static str = "__broke";

/// The flag that records a `next`.
pub const SKIP_FLAG: &'static str = "__skipped";

/// The counter of a `foreach` loop.
pub const FOREACH_INDEX: &'static str = "__foreach_i";

/// `s` is `last`, or an `if` with a `last` somewhere in its branches.
pub open spec fn stmt_has_last(s: Stmt) -> bool
    decreases s,
{
    match s {
        Stmt::Last => true,
        Stmt::If { then_branch, else_branch, .. } => (exists|i: int|
            0 <= i < then_branch@.len() && stmt_has_last(#[trigger] then_branch@[i])) || (exists|i: int|
            0 <= i < else_branch@.len() && stmt_has_last(#[trigger] else_branch@[i])),
        _ => false,
    }
}

/// `s` is `next`, or an `if` with a `next` somewhere in its branches.
pub open spec fn stmt_has_next(s: Stmt) -> bool
    decreases s,
{
    match s {
        Stmt::Next => true,
        Stmt::If { then_branch, else_branch, .. } => (exists|i: int|
            0 <= i < then_branch@.len() && stmt_has_next(#[trigger] then_branch@[i])) || (exists|i: int|
            0 <= i < else_branch@.len() && stmt_has_next(#[trigger] else_branch@[i])),
        _ => false,
    }
}

/// Two `if`s whose branches agree statement by statement on `last` and
/// `next` agree on them too.
pub proof fn lemma_same_exits(a: Stmt, b: Stmt)
    requires
        a is If,
        b is If,
        a->If_then_branch@.len() == b->If_then_branch@.len(),
        a->If_else_branch@.len() == b->If_else_branch@.len(),
        forall|i: int|
            0 <= i < a->If_then_branch@.len() ==> stmt_has_last(#[trigger] b->If_then_branch@[i]) == stmt_has_last(
                a->If_then_branch@[i],
            ) && stmt_has_next(b->If_then_branch@[i]) == stmt_has_next(a->If_then_branch@[i]),
        forall|i: int|
            0 <= i < a->If_else_branch@.len() ==> stmt_has_last(#[trigger] b->If_else_branch@[i]) == stmt_has_last(
                a->If_else_branch@[i],
            ) && stmt_has_next(b->If_else_branch@[i]) == stmt_has_next(a->If_else_branch@[i]),
    ensures
        stmt_has_last(a) == stmt_has_last(b),
        stmt_has_next(a) == stmt_has_next(b),
{
    let (at, ae) = (a->If_then_branch@, a->If_else_branch@);
    let (bt, be) = (b->If_then_branch@, b->If_else_branch@);
    if exists|i: int| 0 <= i < at.len() && stmt_has_last(#[trigger] at[i]) {
        let i = choose|i: int| 0 <= i < at.len() && stmt_has_last(#[trigger] at[i]);
        assert(stmt_has_last(bt[i]));
    }
    if exists|i: int| 0 <= i < ae.len() && stmt_has_last(#[trigger] ae[i]) {
        let i = choose|i: int| 0 <= i < ae.len() && stmt_has_last(#[trigger] ae[i]);
        assert(stmt_has_last(be[i]));
    }
    if exists|i: int| 0 <= i < bt.len() && stmt_has_last(#[trigger] bt[i]) {
        let i = choose|i: int| 0 <= i < bt.len() && stmt_has_last(#[trigger] bt[i]);
        assert(stmt_has_last(at[i]));
    }
    if exists|i: int| 0 <= i < be.len() && stmt_has_last(#[trigger] be[i]) {
        let i = choose|i: int| 0 <= i < be.len() && stmt_has_last(#[trigger] be[i]);
        assert(stmt_has_last(ae[i]));
    }
    if exists|i: int| 0 <= i < at.len() && stmt_has_next(#[trigger] at[i]) {
        let i = choose|i: int| 0 <= i < at.len() && stmt_has_next(#[trigger] at[i]);
        assert(stmt_has_next(bt[i]));
    }
    if exists|i: int| 0 <= i < ae.len() && stmt_has_next(#[trigger] ae[i]) {
        let i = choose|i: int| 0 <= i < ae.len() && stmt_has_next(#[trigger] ae[i]);
        assert(stmt_has_next(be[i]));
    }
    if exists|i: int| 0 <= i < bt.len() && stmt_has_next(#[trigger] bt[i]) {
        let i = choose|i: int| 0 <= i < bt.len() && stmt_has_next(#[trigger] bt[i]);
        assert(stmt_has_next(at[i]));
    }
    if exists|i: int| 0 <= i < be.len() && stmt_has_next(#[trigger] be[i]) {
        let i = choose|i: int| 0 <= i < be.len() && stmt_has_next(#[trigger] be[i]);
        assert(stmt_has_next(ae[i]));
    }
}

pub open spec fn has_last(s: Seq<Stmt>) -> bool {
    exists|i: int| 0 <= i < s.len() && stmt_has_last(#[trigger] s[i])
}

pub open spec fn has_next(s: Seq<Stmt>) -> bool {
    exists|i: int| 0 <= i < s.len() && stmt_has_next(#[trigger] s[i])
}

/// From `from` on, no statement of `s` has a `last` unless `on_last`, nor
/// a `next` unless `on_next`.
pub open spec fn exit_free(s: Seq<Stmt>, from: int, on_last: bool, on_next: bool) -> bool {
    forall|i: int|
        from <= i < s.len() ==> (!on_last ==> !stmt_has_last(#[trigger] s[i])) && (!on_next ==> !stmt_has_next(s[i]))
}

/// A statement list has a `last` (`next`) when one of its statements does.
pub proof fn lemma_exits_push(r: Seq<Stmt>, x: Stmt)
    ensures
        has_last(r.push(x)) == (has_last(r) || stmt_has_last(x)),
        has_next(r.push(x)) == (has_next(r) || stmt_has_next(x)),
{
    let p = r.push(x);
    assert(p[r.len() as int] == x);
    assert forall|i: int| 0 <= i < r.len() implies #[trigger] p[i] == r[i] by {}
    if has_last(p) {
        let i = choose|i: int| 0 <= i < p.len() && stmt_has_last(#[trigger] p[i]);
        if i < r.len() {
            assert(stmt_has_last(r[i]));
        }
    }
    if has_next(p) {
        let i = choose|i: int| 0 <= i < p.len() && stmt_has_next(#[trigger] p[i]);
        if i < r.len() {
            assert(stmt_has_next(r[i]));
        }
    }
    if has_last(r) {
        let i = choose|i: int| 0 <= i < r.len() && stmt_has_last(#[trigger] r[i]);
        assert(stmt_has_last(p[i]));
    }
    if has_next(r) {
        let i = choose|i: int| 0 <= i < r.len() && stmt_has_next(#[trigger] r[i]);
        assert(stmt_has_next(p[i]));
    }
}

/// The `last`s and `next`s of a concatenation are those of its parts.
pub proof fn lemma_exits_concat(a: Seq<Stmt>, b: Seq<Stmt>)
    ensures
        has_last(a + b) == (has_last(a) || has_last(b)),
        has_next(a + b) == (has_next(a) || has_next(b)),
    decreases b.len(),
{
    if b.len() == 0 {
        assert(a + b =~= a);
    } else {
        lemma_exits_concat(a, b.drop_last());
        assert(a + b =~= (a + b.drop_last()).push(b.last()));
        assert(b =~= b.drop_last().push(b.last()));
        lemma_exits_push(a + b.drop_last(), b.last());
        lemma_exits_push(b.drop_last(), b.last());
    }
}

/// Statements with the same value agree on `last` and `next`.
pub proof fn lemma_view_exits(a: Stmt, b: Stmt)
    requires
        stmt_view(a) == stmt_view(b),
    ensures
        stmt_has_last(a) == stmt_has_last(b),
        stmt_has_next(a) == stmt_has_next(b),
    decreases a,
{
    if let (Stmt::If { then_branch: t1, else_branch: e1, .. }, Stmt::If { then_branch: t2, else_branch: e2, .. }) = (a, b) {
        lemma_stmts_view(t1@);
        lemma_stmts_view(t2@);
        lemma_stmts_view(e1@);
        lemma_stmts_view(e2@);
        assert forall|i: int| 0 <= i < t1@.len() implies stmt_has_last(#[trigger] t2@[i]) == stmt_has_last(t1@[i])
            && stmt_has_next(t2@[i]) == stmt_has_next(t1@[i]) by {
            assert(decreases_to!(t1 => t1@[i]));
            assert(stmts_view(t1@)[i] == stmts_view(t2@)[i]);
            lemma_view_exits(t1@[i], t2@[i]);
        }
        assert forall|i: int| 0 <= i < e1@.len() implies stmt_has_last(#[trigger] e2@[i]) == stmt_has_last(e1@[i])
            && stmt_has_next(e2@[i]) == stmt_has_next(e1@[i]) by {
            assert(decreases_to!(e1 => e1@[i]));
            assert(stmts_view(e1@)[i] == stmts_view(e2@)[i]);
            lemma_view_exits(e1@[i], e2@[i]);
        }
        lemma_same_exits(a, b);
    }
}

/// Whether the statement value `v` holds a `last`: whether a statement with that value does.
pub open spec fn last_v(v: StmtV) -> bool {
    stmt_has_last(choose|s: Stmt| stmt_view(s) == v)
}

/// Whether the statement value `v` holds a `next`.
pub open spec fn next_v(v: StmtV) -> bool {
    stmt_has_next(choose|s: Stmt| stmt_view(s) == v)
}

/// Some statement value of `v` holds a `last`.
pub open spec fn has_last_v(v: Seq<StmtV>) -> bool {
    exists|i: int| 0 <= i < v.len() && last_v(#[trigger] v[i])
}

/// Some statement value of `v` holds a `next`.
pub open spec fn has_next_v(v: Seq<StmtV>) -> bool {
    exists|i: int| 0 <= i < v.len() && next_v(#[trigger] v[i])
}

/// A statement holds a `last` (`next`) exactly when its value does.
pub proof fn lemma_exits_view(s: Stmt)
    ensures
        stmt_has_last(s) == last_v(stmt_view(s)),
        stmt_has_next(s) == next_v(stmt_view(s)),
{
    let v = stmt_view(s);
    assert(exists|x: Stmt| stmt_view(x) == v);
    let x = choose|x: Stmt| stmt_view(x) == v;
    lemma_view_exits(s, x);
}

/// A list holds a `last` (`next`) exactly when its values do.
pub proof fn lemma_list_exits_view(s: Seq<Stmt>)
    ensures
        has_last(s) == has_last_v(stmts_view(s)),
        has_next(s) == has_next_v(stmts_view(s)),
{
    lemma_stmts_view(s);
    let v = stmts_view(s);
    assert forall|i: int| 0 <= i < s.len() implies #[trigger] stmt_has_last(s[i]) == last_v(v[i]) && stmt_has_next(s[i])
        == next_v(v[i]) by {
        lemma_exits_view(s[i]);
    }
    if has_last(s) {
        let i = choose|i: int| 0 <= i < s.len() && stmt_has_last(#[trigger] s[i]);
        lemma_exits_view(s[i]);
        assert(last_v(v[i]));
    }
    if has_last_v(v) {
        let i = choose|i: int| 0 <= i < v.len() && last_v(#[trigger] v[i]);
        lemma_exits_view(s[i]);
        assert(stmt_has_last(s[i]));
    }
    if has_next(s) {
        let i = choose|i: int| 0 <= i < s.len() && stmt_has_next(#[trigger] s[i]);
        lemma_exits_view(s[i]);
        assert(next_v(v[i]));
    }
    if has_next_v(v) {
        let i = choose|i: int| 0 <= i < v.len() && next_v(#[trigger] v[i]);
        lemma_exits_view(s[i]);
        assert(stmt_has_next(s[i]));
    }
}

/// `$name = value;` as a value.
pub open spec fn flag_v(name: Seq<char>, value: i64, declaration: bool) -> StmtV {
    StmtV::Assign(name, ExprV::Int(value), declaration)
}

/// `$name == 0` as a value.
pub open spec fn clear_v(name: Seq<char>) -> ExprV {
    ExprV::Binary(Box::new(ExprV::Var(name)), BinaryOp::Eq, Box::new(ExprV::Int(0)))
}

/// The condition under which the statements after a loop exit run: no flag of the loop is set.
pub open spec fn guard_v(on_last: bool, on_next: bool) -> ExprV {
    if on_last && on_next {
        ExprV::Binary(Box::new(clear_v(BREAK_FLAG@)), BinaryOp::And, Box::new(clear_v(SKIP_FLAG@)))
    } else if on_last {
        clear_v(BREAK_FLAG@)
    } else {
        clear_v(SKIP_FLAG@)
    }
}

/// `if (condition) { then_branch }` as a value.
pub open spec fn if_v(condition: ExprV, then_branch: Seq<StmtV>) -> StmtV {
    StmtV::If(condition, then_branch, Seq::empty())
}

/// The statements `stmts[i..]` of a loop body with `last` (when `on_last`)
/// and `next` (when `on_next`) replaced by setting their flag, and what
/// follows a statement that may set a flag guarded by the flags being clear.
pub open spec fn body_v(stmts: Seq<StmtV>, i: int, on_last: bool, on_next: bool) -> Seq<StmtV>
    decreases stmts, stmts.len() - i,
{
    if i < 0 || i >= stmts.len() {
        Seq::empty()
    } else {
        let rest = if i + 1 < stmts.len() { body_v(stmts, i + 1, on_last, on_next) } else { Seq::empty() };
        match stmts[i] {
            StmtV::Last => if on_last {
                seq![flag_v(BREAK_FLAG@, 1, false)] + if i + 1 < stmts.len() {
                    seq![if_v(clear_v(BREAK_FLAG@), rest)]
                } else {
                    Seq::empty()
                }
            } else {
                seq![stmts[i]] + body_v(stmts, i + 1, on_last, on_next)
            },
            StmtV::Next => if on_next {
                seq![flag_v(SKIP_FLAG@, 1, false)] + if i + 1 < stmts.len() {
                    seq![if_v(clear_v(SKIP_FLAG@), rest)]
                } else {
                    Seq::empty()
                }
            } else {
                seq![stmts[i]] + body_v(stmts, i + 1, on_last, on_next)
            },
            StmtV::If(c, t, e) => if (on_last && (has_last_v(t) || has_last_v(e))) || (on_next && (has_next_v(t)
                || has_next_v(e))) {
                seq![StmtV::If(c, body_v(t, 0, on_last, on_next), body_v(e, 0, on_last, on_next))] + if i + 1
                    < stmts.len() {
                    seq![if_v(guard_v(on_last, on_next), rest)]
                } else {
                    Seq::empty()
                }
            } else {
                seq![stmts[i]] + body_v(stmts, i + 1, on_last, on_next)
            },
            _ => seq![stmts[i]] + body_v(stmts, i + 1, on_last, on_next),
        }
    }
}

/// Decides `has_last` (`want_last`) or `has_next` (otherwise).
pub fn contains_loop_exit(stmts: &Vec<Stmt>, want_last: bool) -> (r: bool)
    ensures
        r == if want_last { has_last(stmts@) } else { has_next(stmts@) },
    decreases stmts,
{
    let mut i: usize = 0;
    while i < stmts.len()
        invariant
            i <= stmts@.len(),
            forall|j: int| 0 <= j < i ==> !(if want_last { stmt_has_last(#[trigger] stmts@[j]) } else { stmt_has_next(stmts@[j]) }),
        decreases stmts.len() - i,
    {
        proof {
            assert(decreases_to!(*stmts => stmts@[i as int]));
        }
        let hit = match &stmts[i] {
            Stmt::Last => want_last,
            Stmt::Next => !want_last,
            Stmt::If { then_branch, else_branch, .. } => contains_loop_exit(then_branch, want_last) || contains_loop_exit(
                else_branch,
                want_last,
            ),
            _ => false,
        };
        if hit {
            return true;
        }
        i += 1;
    }
    false
}

/// `s` is `$name = value;`, a declaration when `declaration`.
pub open spec fn flag_set_to(s: Stmt, name: Seq<char>, value: i64, declaration: bool) -> bool {
    s matches Stmt::Assign { name: n, expr: Expr::Int(v), declaration: d } && n@ == name && v == value && d
        == declaration
}

/// `$name = value;`
fn set_flag(name: &str, value: i64, declaration: bool) -> (r: Stmt)
    ensures
        stmt_view(r) == flag_v(name@, value, declaration),
        r matches Stmt::Assign { name: n, expr: Expr::Int(v), declaration: d } && n@ == name@ && v == value && d
            == declaration,
        stmt_wf(r),
        !stmt_has_last(r),
        !stmt_has_next(r),
{
    Stmt::Assign { name: str_to_string(name), expr: Expr::Int(value), declaration }
}

/// `$name == 0`
fn flag_clear(name: &str) -> (r: Expr)
    ensures
        expr_view(r) == ExprV::Binary(Box::new(ExprV::Var(name@)), BinaryOp::Eq, Box::new(ExprV::Int(0))),
        expr_wf(r),
{
    let left = Expr::Variable(str_to_string(name));
    let right = Expr::Int(0);
    assert(expr_wf(left) && expr_wf(right));
    assert(expr_view(left) == ExprV::Var(name@));
    assert(expr_view(right) == ExprV::Int(0));
    let r = Expr::Binary { left: Box::new(left), op: BinaryOp::Eq, right: Box::new(right) };
    assert(expr_view(r) == ExprV::Binary(Box::new(expr_view(left)), BinaryOp::Eq, Box::new(expr_view(right))));
    r
}

fn and_expr(left: Expr, right: Expr) -> (r: Expr)
    requires
        expr_wf(left),
        expr_wf(right),
    ensures
        r == (Expr::Binary { left: Box::new(left), op: BinaryOp::And, right: Box::new(right) }),
        expr_wf(r),
{
    Expr::Binary { left: Box::new(left), op: BinaryOp::And, right: Box::new(right) }
}

fn if_then(condition: Expr, then_branch: Vec<Stmt>) -> (r: Stmt)
    requires
        expr_wf(condition),
        stmts_wf(then_branch@),
    ensures
        stmt_view(r) == if_v(expr_view(condition), stmts_view(then_branch@)),
        stmt_wf(r),
        stmt_has_last(r) == has_last(then_branch@),
        stmt_has_next(r) == has_next(then_branch@),
{
    let ghost tb = then_branch@;
    let r = Stmt::If { condition, then_branch, else_branch: Vec::new() };
    assert(stmt_wf(r));
    assert(stmts_view(Seq::<Stmt>::empty()) =~= Seq::<StmtV>::empty());
    proof {
        let (t, e) = (r->If_then_branch@, r->If_else_branch@);
        assert(e.len() == 0);
        assert(t == tb);
        if has_last(tb) {
            let i = choose|i: int| 0 <= i < tb.len() && stmt_has_last(#[trigger] tb[i]);
            assert(stmt_has_last(t[i]));
        }
        if stmt_has_last(r) {
            let i = choose|i: int| 0 <= i < t.len() && stmt_has_last(#[trigger] t[i]);
            assert(stmt_has_last(tb[i]));
        }
        if has_next(tb) {
            let i = choose|i: int| 0 <= i < tb.len() && stmt_has_next(#[trigger] tb[i]);
            assert(stmt_has_next(t[i]));
        }
        if stmt_has_next(r) {
            let i = choose|i: int| 0 <= i < t.len() && stmt_has_next(#[trigger] t[i]);
            assert(stmt_has_next(tb[i]));
        }
    }
    r
}

fn single(s: Stmt) -> (r: Vec<Stmt>)
    requires
        stmt_wf(s),
    ensures
        stmts_wf(r@),
        r@.len() == 1,
        r@ == seq![s],
        stmts_view(r@) == seq![stmt_view(s)],
        has_last(r@) == stmt_has_last(s),
        has_next(r@) == stmt_has_next(s),
{
    let mut v = Vec::new();
    v.push(s);
    proof {
        lemma_exits_push(Seq::empty(), s);
        assert(v@ =~= Seq::<Stmt>::empty().push(s));
        lemma_stmts_view_push(Seq::empty(), s);
        assert(stmts_view(Seq::<Stmt>::empty()) =~= Seq::<StmtV>::empty());
        assert(Seq::<StmtV>::empty().push(stmt_view(s)) =~= seq![stmt_view(s)]);
    }
    v
}

/// The statements `stmts[start..]` of a loop body with `last` (when
/// `on_last`) and `next` (when `on_next`) replaced by setting their flag;
/// whatever follows a statement that may set a flag runs only while the
/// flags are clear.
pub fn transform_loop_body(stmts: &Vec<Stmt>, start: usize, on_last: bool, on_next: bool) -> (r: Vec<Stmt>)
    requires
        stmts_wf(stmts@),
        start <= stmts@.len(),
    ensures
        stmts_wf(r@),
        exit_free(stmts@, start as int, on_last, on_next) ==> !has_last(r@) && !has_next(r@),
        stmts_view(r@) == body_v(stmts_view(stmts@), start as int, on_last, on_next),
    decreases stmts, stmts@.len() - start,
{
    let ghost free = exit_free(stmts@, start as int, on_last, on_next);
    let ghost whole = stmts_view(stmts@);
    let mut result: Vec<Stmt> = Vec::new();
    let mut i = start;
    proof {
        lemma_stmts_view(stmts@);
        assert(stmts_view(result@) =~= Seq::<StmtV>::empty());
        assert(body_v(whole, start as int, on_last, on_next) =~= Seq::<StmtV>::empty() + body_v(
            whole,
            start as int,
            on_last,
            on_next,
        ));
    }
    while i < stmts.len()
        invariant
            start <= i <= stmts@.len(),
            stmts_wf(stmts@),
            stmts_wf(result@),
            free == exit_free(stmts@, start as int, on_last, on_next),
            free ==> !has_last(result@) && !has_next(result@),
            whole == stmts_view(stmts@),
            whole.len() == stmts@.len(),
            forall|k: int| 0 <= k < stmts@.len() ==> #[trigger] whole[k] == stmt_view(stmts@[k]),
            body_v(whole, start as int, on_last, on_next) == stmts_view(result@) + body_v(whole, i as int, on_last, on_next),
        decreases stmts.len() - i,
    {
        proof {
            assert(decreases_to!(*stmts => stmts@[i as int]));
            assert(stmt_wf(stmts@[i as int]));
        }
        let ghost done = stmts_view(result@);
        match &stmts[i] {
            Stmt::Last if on_last => {
                let f = set_flag(BREAK_FLAG, 1, false);
                proof {
                    lemma_stmts_view_push(result@, f);
                }
                result.push(f);
                if i + 1 < stmts.len() {
                    let guarded = transform_loop_body(stmts, i + 1, on_last, on_next);
                    let g = if_then(flag_clear(BREAK_FLAG), guarded);
                    proof {
                        lemma_stmts_view_push(result@, g);
                        assert(done.push(flag_v(BREAK_FLAG@, 1, false)).push(stmt_view(g)) =~= done + (seq![
                            flag_v(BREAK_FLAG@, 1, false),
                        ] + seq![stmt_view(g)]));
                    }
                    result.push(g);
                } else {
                    proof {
                        assert(done.push(flag_v(BREAK_FLAG@, 1, false)) =~= done + (seq![flag_v(BREAK_FLAG@, 1, false)]
                            + Seq::<StmtV>::empty()));
                    }
                }
                return result;
            },
            Stmt::Next if on_next => {
                let f = set_flag(SKIP_FLAG, 1, false);
                proof {
                    lemma_stmts_view_push(result@, f);
                }
                result.push(f);
                if i + 1 < stmts.len() {
                    let guarded = transform_loop_body(stmts, i + 1, on_last, on_next);
                    let g = if_then(flag_clear(SKIP_FLAG), guarded);
                    proof {
                        lemma_stmts_view_push(result@, g);
                        assert(done.push(flag_v(SKIP_FLAG@, 1, false)).push(stmt_view(g)) =~= done + (seq![
                            flag_v(SKIP_FLAG@, 1, false),
                        ] + seq![stmt_view(g)]));
                    }
                    result.push(g);
                } else {
                    proof {
                        assert(done.push(flag_v(SKIP_FLAG@, 1, false)) =~= done + (seq![flag_v(SKIP_FLAG@, 1, false)]
                            + Seq::<StmtV>::empty()));
                    }
                }
                return result;
            },
            Stmt::If { condition, then_branch, else_branch } => {
                proof {
                    lemma_list_exits_view(then_branch@);
                    lemma_list_exits_view(else_branch@);
                }
                let exits = (on_last && (contains_loop_exit(then_branch, true) || contains_loop_exit(else_branch, true)))
                    || (on_next && (contains_loop_exit(then_branch, false) || contains_loop_exit(else_branch, false)));
                if exits {
                    let new_then = transform_loop_body(then_branch, 0, on_last, on_next);
                    let new_else = transform_loop_body(else_branch, 0, on_last, on_next);
                    let c = clone_expr(condition);
                    proof {
                        crate::ast::lemma_same_view(c, *condition);
                    }
                    let rewritten = Stmt::If { condition: c, then_branch: new_then, else_branch: new_else };
                    assert(stmt_wf(rewritten));
                    proof {
                        lemma_stmts_view_push(result@, rewritten);
                    }
                    result.push(rewritten);
                    if i + 1 < stmts.len() {
                        let guarded = transform_loop_body(stmts, i + 1, on_last, on_next);
                        let guard = if on_last && on_next {
                            and_expr(flag_clear(BREAK_FLAG), flag_clear(SKIP_FLAG))
                        } else if on_last {
                            flag_clear(BREAK_FLAG)
                        } else {
                            flag_clear(SKIP_FLAG)
                        };
                        assert(expr_view(guard) == guard_v(on_last, on_next));
                        let g = if_then(guard, guarded);
                        proof {
                            lemma_stmts_view_push(result@, g);
                            assert(done.push(stmt_view(rewritten)).push(stmt_view(g)) =~= done + (seq![
                                stmt_view(rewritten),
                            ] + seq![stmt_view(g)]));
                        }
                        result.push(g);
                    } else {
                        proof {
                            assert(done.push(stmt_view(rewritten)) =~= done + (seq![stmt_view(rewritten)]
                                + Seq::<StmtV>::empty()));
                        }
                    }
                    return result;
                } else {
                    let c = clone_stmt(&stmts[i]);
                    proof {
                        lemma_stmts_view_push(result@, c);
                        assert(done.push(stmt_view(c)) + body_v(whole, i + 1, on_last, on_next) =~= done + (seq![
                            whole[i as int],
                        ] + body_v(whole, i + 1, on_last, on_next)));
                    }
                    result.push(c);
                }
            },
            _ => {
                let c = clone_stmt(&stmts[i]);
                proof {
                    lemma_stmts_view_push(result@, c);
                    assert(done.push(stmt_view(c)) + body_v(whole, i + 1, on_last, on_next) =~= done + (seq![
                        whole[i as int],
                    ] + body_v(whole, i + 1, on_last, on_next)));
                }
                result.push(c);
            },
        }
        i += 1;
    }
    proof {
        assert(stmts_view(result@) + Seq::<StmtV>::empty() =~= stmts_view(result@));
    }
    result
}

/// The loop condition, and no `last` ran when the body has one.
pub open spec fn effective_v(condition: ExprV, on_last: bool) -> ExprV {
    if on_last {
        ExprV::Binary(Box::new(condition), BinaryOp::And, Box::new(clear_v(BREAK_FLAG@)))
    } else {
        condition
    }
}

/// The step statements run after a body when they run outside the `next` guard.
pub open spec fn step_v(step: Seq<StmtV>, on_last: bool, separate_step: bool) -> Seq<StmtV> {
    if !separate_step {
        Seq::empty()
    } else if on_last {
        if step.len() > 0 {
            seq![if_v(clear_v(BREAK_FLAG@), step)]
        } else {
            Seq::empty()
        }
    } else {
        step
    }
}

/// The last `remaining` iterations of a loop, nested, as a value.
pub open spec fn unroll_v(
    condition: ExprV,
    body: Seq<StmtV>,
    step: Seq<StmtV>,
    on_last: bool,
    on_next: bool,
    separate_step: bool,
    remaining: nat,
) -> StmtV
    decreases remaining,
{
    if remaining == 0 {
        if_v(effective_v(condition, on_last), seq![StmtV::LoopBoundExceeded])
    } else {
        if_v(
            effective_v(condition, on_last),
            (if on_next { seq![flag_v(SKIP_FLAG@, 0, false)] } else { Seq::empty() }) + body_v(body, 0, on_last, on_next)
                + step_v(step, on_last, separate_step) + seq![
                unroll_v(condition, body, step, on_last, on_next, separate_step, (remaining - 1) as nat),
            ],
        )
    }
}

/// The declarations of the flags a loop needs, as values.
pub open spec fn flag_decls_v(on_last: bool, on_next: bool) -> Seq<StmtV> {
    (if on_last { seq![flag_v(BREAK_FLAG@, 0, true)] } else { Seq::empty() }) + (if on_next {
        seq![flag_v(SKIP_FLAG@, 0, true)]
    } else {
        Seq::empty()
    })
}

/// `while (condition) { body }` unrolled `max_unroll` times, as values.
pub open spec fn while_v(condition: ExprV, body: Seq<StmtV>, max_unroll: nat) -> Seq<StmtV> {
    let on_last = has_last_v(body);
    let on_next = has_next_v(body);
    flag_decls_v(on_last, on_next) + seq![
        unroll_v(condition, body, Seq::empty(), on_last, on_next, false, max_unroll),
    ]
}

/// A C-style `for` loop after its initialisation, as values.
pub open spec fn for_v(condition: ExprV, body: Seq<StmtV>, step: Seq<StmtV>, max_unroll: nat) -> Seq<StmtV> {
    if has_next_v(body) {
        flag_decls_v(has_last_v(body), true) + seq![
            unroll_v(condition, body, step, has_last_v(body), true, true, max_unroll),
        ]
    } else {
        while_v(condition, body + step, max_unroll)
    }
}

/// `do { body } while (condition)`, as values.
pub open spec fn do_while_v(condition: ExprV, body: Seq<StmtV>, max_unroll: nat) -> Seq<StmtV> {
    let on_last = has_last_v(body);
    let on_next = has_next_v(body);
    flag_decls_v(on_last, on_next) + (if on_next { seq![flag_v(SKIP_FLAG@, 0, false)] } else { Seq::empty() })
        + body_v(body, 0, on_last, on_next) + if max_unroll > 0 {
        seq![unroll_v(condition, body, Seq::empty(), on_last, on_next, false, (max_unroll - 1) as nat)]
    } else {
        Seq::empty()
    }
}

/// `foreach my $var (@array) { body }`, as values: a counter from 0 while
/// it is below the array's size, with `$var` the element at the counter.
pub open spec fn foreach_v(var: Seq<char>, array: Seq<char>, body: Seq<StmtV>, max_unroll: nat) -> Seq<StmtV> {
    let counter = ExprV::Var(FOREACH_INDEX@);
    let condition = ExprV::Binary(
        Box::new(counter),
        BinaryOp::Lt,
        Box::new(ExprV::Builtin(Builtin::Scalar, seq![ExprV::Var(array)])),
    );
    let element = StmtV::Assign(var, ExprV::Access(AccessKind::Array, array, Box::new(counter)), true);
    let step = StmtV::Assign(
        FOREACH_INDEX@,
        ExprV::Binary(Box::new(counter), BinaryOp::Add, Box::new(ExprV::Int(1))),
        false,
    );
    seq![flag_v(FOREACH_INDEX@, 0, true)] + for_v(condition, seq![element] + body, seq![step], max_unroll)
}

/// The test that the flag `name` is down (`$name == 0`).
pub open spec fn flag_down(name: Seq<char>) -> ExprV {
    ExprV::Binary(Box::new(ExprV::Var(name)), BinaryOp::Eq, Box::new(ExprV::Int(0)))
}

/// Law: in a loop body, `last` raises the break flag (to a value other than
/// 0) and the rest of the body runs only while it is down; the flag starts
/// down, and each further iteration runs only while it is down.
pub proof fn law_last_stops_the_loop(stmts: Seq<StmtV>, i: int, on_next: bool, condition: ExprV)
    requires
        0 <= i < stmts.len(),
        stmts[i] == StmtV::Last,
    ensures
        body_v(stmts, i, true, on_next)[0] matches StmtV::Assign(n, ExprV::Int(v), d) && n == BREAK_FLAG@ && v != 0 && !d,
        i + 1 < stmts.len() ==> (body_v(stmts, i, true, on_next).len() == 2 && (body_v(stmts, i, true, on_next)[1] matches StmtV::If(
            c,
            _,
            _,
        ) && c == flag_down(BREAK_FLAG@))),
        flag_decls_v(true, on_next)[0] == StmtV::Assign(BREAK_FLAG@, ExprV::Int(0), true),
        effective_v(condition, true) == ExprV::Binary(Box::new(condition), BinaryOp::And, Box::new(flag_down(BREAK_FLAG@))),
{
}

/// Law: in a loop body, `next` raises the skip flag (to a value other than
/// 0) and the rest of the body runs only while it is down.
pub proof fn law_next_skips_the_rest(stmts: Seq<StmtV>, i: int, on_last: bool)
    requires
        0 <= i < stmts.len(),
        stmts[i] == StmtV::Next,
    ensures
        body_v(stmts, i, on_last, true)[0] matches StmtV::Assign(n, ExprV::Int(v), d) && n == SKIP_FLAG@ && v != 0 && !d,
        i + 1 < stmts.len() ==> (body_v(stmts, i, on_last, true).len() == 2 && (body_v(stmts, i, on_last, true)[1] matches StmtV::If(
            c,
            _,
            _,
        ) && c == flag_down(SKIP_FLAG@))),
{
}

/// A body with neither `last` nor `next` runs as written.
proof fn lemma_body_unchanged(stmts: Seq<StmtV>, i: int)
    requires
        0 <= i <= stmts.len(),
    ensures
        body_v(stmts, i, false, false) == stmts.subrange(i, stmts.len() as int),
    decreases stmts.len() - i,
{
    if i < stmts.len() {
        lemma_body_unchanged(stmts, i + 1);
        assert(seq![stmts[i]] + stmts.subrange(i + 1, stmts.len() as int) =~= stmts.subrange(i, stmts.len() as int));
        if i + 1 >= stmts.len() {
            assert(stmts.subrange(i + 1, stmts.len() as int) =~= Seq::<StmtV>::empty());
        }
    } else {
        assert(stmts.subrange(i, stmts.len() as int) =~= Seq::<StmtV>::empty());
    }
}

/// Law: a lowered `while` whose body has neither `last` nor `next` is one
/// conditional on the loop condition: past the unrolling bound it reaches
/// `LoopBoundExceeded`, otherwise it runs the body first.
pub proof fn law_while_tests_before_the_body(condition: ExprV, body: Seq<StmtV>, max_unroll: nat)
    requires
        !has_last_v(body),
        !has_next_v(body),
    ensures
        while_v(condition, body, max_unroll).len() == 1,
        while_v(condition, body, max_unroll)[0] matches StmtV::If(c, t, e) && c == condition && e.len() == 0 && (
        max_unroll == 0 ==> t == seq![StmtV::LoopBoundExceeded]) && (max_unroll > 0 ==> t.len() > body.len()
            && t.subrange(0, body.len() as int) == body),
{
    lemma_body_unchanged(body, 0);
    assert(body.subrange(0, body.len() as int) =~= body);
    assert(flag_decls_v(false, false) =~= Seq::<StmtV>::empty());
    if max_unroll > 0 {
        let t = body_v(body, 0, false, false) + step_v(Seq::empty(), false, false) + seq![
            unroll_v(condition, body, Seq::empty(), false, false, false, (max_unroll - 1) as nat),
        ];
        assert(t.subrange(0, body.len() as int) =~= body);
    }
}

/// Law: a lowered `do`-`while` whose body has neither `last` nor `next`
/// runs the body once before any test of the condition, and then (within
/// the bound) the loop on that condition.
pub proof fn law_do_while_runs_the_body_first(condition: ExprV, body: Seq<StmtV>, max_unroll: nat)
    requires
        !has_last_v(body),
        !has_next_v(body),
    ensures
        do_while_v(condition, body, max_unroll).len() >= body.len(),
        do_while_v(condition, body, max_unroll).subrange(0, body.len() as int) == body,
        max_unroll > 0 ==> (do_while_v(condition, body, max_unroll).len() == body.len() + 1 && (do_while_v(
            condition,
            body,
            max_unroll,
        ).last() matches StmtV::If(c, _, _) && c == condition)),
{
    lemma_body_unchanged(body, 0);
    assert(body.subrange(0, body.len() as int) =~= body);
    assert(flag_decls_v(false, false) =~= Seq::<StmtV>::empty());
    let d = do_while_v(condition, body, max_unroll);
    assert(d.subrange(0, body.len() as int) =~= body);
}

/// Law: a lowered `foreach` first declares its counter with the value 0, so
/// its first iteration reads element 0 of the array; and the lowered loop
/// ends in the first unrolled iteration, which runs only while the counter
/// is below the array's size (and, when the body has `last`, no `last` ran).
pub proof fn law_foreach_counts_from_zero_below_the_size(
    var: Seq<char>,
    array: Seq<char>,
    body: Seq<StmtV>,
    max_unroll: nat,
)
    ensures
        foreach_v(var, array, body, max_unroll).len() >= 2,
        foreach_v(var, array, body, max_unroll)[0] == StmtV::Assign(FOREACH_INDEX@, ExprV::Int(0), true),
        foreach_v(var, array, body, max_unroll).last() matches StmtV::If(c, _, e) && e.len() == 0 && {
            let below = ExprV::Binary(
                Box::new(ExprV::Var(FOREACH_INDEX@)),
                BinaryOp::Lt,
                Box::new(ExprV::Builtin(Builtin::Scalar, seq![ExprV::Var(array)])),
            );
            c == below || c == ExprV::Binary(
                Box::new(below),
                BinaryOp::And,
                Box::new(ExprV::Binary(Box::new(ExprV::Var(BREAK_FLAG@)), BinaryOp::Eq, Box::new(ExprV::Int(0)))),
            )
        },
{
}

/// The last `remaining` iterations of a loop, nested: each runs when the
/// condition holds (and no `last` ran), and after the final one a loop that
/// could go on reaches `LoopBoundExceeded`. When `separate_step`, the `step`
/// statements run after each body outside the `next` guard.
pub fn unroll_iterations(
    condition: &Expr,
    body: &Vec<Stmt>,
    step: &Vec<Stmt>,
    on_last: bool,
    on_next: bool,
    separate_step: bool,
    remaining: usize,
) -> (r: Vec<Stmt>)
    requires
        expr_wf(*condition),
        stmts_wf(body@),
        stmts_wf(step@),
    ensures
        stmts_wf(r@),
        r@.len() == 1,
        exit_free(body@, 0, on_last, on_next) && !has_last(step@) && !has_next(step@) ==> !has_last(r@) && !has_next(r@),
        stmts_view(r@) == seq![
            unroll_v(
                expr_view(*condition),
                stmts_view(body@),
                stmts_view(step@),
                on_last,
                on_next,
                separate_step,
                remaining as nat,
            ),
        ],
    decreases remaining,
{
    let c = clone_expr(condition);
    proof {
        crate::ast::lemma_same_view(c, *condition);
    }
    let effective = if on_last {
        and_expr(c, flag_clear(BREAK_FLAG))
    } else {
        c
    };
    assert(expr_view(effective) == effective_v(expr_view(*condition), on_last));
    if remaining == 0 {
        let inner = single(Stmt::LoopBoundExceeded);
        return single(if_then(effective, inner));
    }
    let mut then_branch: Vec<Stmt> = Vec::new();
    let ghost pre = if on_next { seq![flag_v(SKIP_FLAG@, 0, false)] } else { Seq::<StmtV>::empty() };
    if on_next {
        let f = set_flag(SKIP_FLAG, 0, false);
        proof {
            lemma_stmts_view_push(then_branch@, f);
            assert(stmts_view(Seq::<Stmt>::empty()) =~= Seq::<StmtV>::empty());
            assert(Seq::<StmtV>::empty().push(stmt_view(f)) =~= pre);
        }
        then_branch.push(f);
    } else {
        proof {
            assert(stmts_view(then_branch@) =~= pre);
        }
    }
    let transformed = transform_loop_body(body, 0, on_last, on_next);
    proof {
        lemma_stmts_view_add(then_branch@, transformed@);
    }
    extend_stmts(&mut then_branch, transformed);
    let ghost sv = step_v(stmts_view(step@), on_last, separate_step);
    let ghost before_step = stmts_view(then_branch@);
    if separate_step {
        if on_last {
            if step.len() > 0 {
                let g = if_then(flag_clear(BREAK_FLAG), clone_stmts(step));
                proof {
                    lemma_stmts_view_push(then_branch@, g);
                    assert(before_step.push(stmt_view(g)) =~= before_step + sv);
                }
                then_branch.push(g);
            } else {
                proof {
                    assert(before_step + sv =~= before_step);
                }
            }
        } else {
            let copies = clone_stmts(step);
            proof {
                lemma_stmts_view_add(then_branch@, copies@);
            }
            extend_stmts(&mut then_branch, copies);
        }
    } else {
        proof {
            assert(before_step + sv =~= before_step);
        }
    }
    let inner = unroll_iterations(condition, body, step, on_last, on_next, separate_step, remaining - 1);
    proof {
        lemma_stmts_view_add(then_branch@, inner@);
    }
    extend_stmts(&mut then_branch, inner);
    single(if_then(effective, then_branch))
}

/// The declarations of the flags a loop needs.
fn flag_declarations(on_last: bool, on_next: bool) -> (r: Vec<Stmt>)
    ensures
        r@.len() == (if on_last { 1int } else { 0int }) + (if on_next { 1int } else { 0int }),
        on_last ==> flag_set_to(r@[0], BREAK_FLAG@, 0, true),
        on_next ==> flag_set_to(r@[r@.len() - 1], SKIP_FLAG@, 0, true),
        stmts_view(r@) == flag_decls_v(on_last, on_next),
        stmts_wf(r@),
        !has_last(r@),
        !has_next(r@),
{
    let mut v: Vec<Stmt> = Vec::new();
    proof {
        assert(stmts_view(v@) =~= Seq::<StmtV>::empty());
    }
    if on_last {
        let f = set_flag(BREAK_FLAG, 0, true);
        proof {
            lemma_stmts_view_push(v@, f);
        }
        v.push(f);
    }
    if on_next {
        let f = set_flag(SKIP_FLAG, 0, true);
        proof {
            lemma_stmts_view_push(v@, f);
        }
        v.push(f);
    }
    proof {
        assert(stmts_view(v@) =~= flag_decls_v(on_last, on_next));
    }
    v
}

/// `while (condition) { body }`, unrolled `max_unroll` times.
pub fn lower_while(condition: &Expr, body: &Vec<Stmt>, max_unroll: usize) -> (r: Vec<Stmt>)
    requires
        expr_wf(*condition),
        stmts_wf(body@),
    ensures
        stmts_wf(r@),
        !has_last(r@),
        !has_next(r@),
        stmts_view(r@) == while_v(expr_view(*condition), stmts_view(body@), max_unroll as nat),
{
    proof {
        lemma_list_exits_view(body@);
        assert(stmts_view(Seq::<Stmt>::empty()) =~= Seq::<StmtV>::empty());
    }
    let on_last = contains_loop_exit(body, true);
    let on_next = contains_loop_exit(body, false);
    let mut out = flag_declarations(on_last, on_next);
    let no_step: Vec<Stmt> = Vec::new();
    let unrolled = unroll_iterations(condition, body, &no_step, on_last, on_next, false, max_unroll);
    proof {
        lemma_stmts_view_add(out@, unrolled@);
    }
    extend_stmts(&mut out, unrolled);
    out
}

/// A C-style `for` loop after its initialisation, unrolled `max_unroll`
/// times; a `next` in the body still runs the step.
pub fn lower_for(condition: &Expr, body: &Vec<Stmt>, step: &Vec<Stmt>, max_unroll: usize) -> (r: Vec<Stmt>)
    requires
        expr_wf(*condition),
        stmts_wf(body@),
        stmts_wf(step@),
    ensures
        stmts_wf(r@),
        !has_last(step@) && !has_next(step@) ==> !has_last(r@) && !has_next(r@),
        stmts_view(r@) == for_v(expr_view(*condition), stmts_view(body@), stmts_view(step@), max_unroll as nat),
{
    proof {
        lemma_list_exits_view(body@);
    }
    if contains_loop_exit(body, false) {
        let on_last = contains_loop_exit(body, true);
        let mut out = flag_declarations(on_last, true);
        let unrolled = unroll_iterations(condition, body, step, on_last, true, true, max_unroll);
        proof {
            lemma_stmts_view_add(out@, unrolled@);
        }
        extend_stmts(&mut out, unrolled);
        out
    } else {
        let mut loop_body = clone_stmts(body);
        let copies = clone_stmts(step);
        proof {
            lemma_stmts_view_add(loop_body@, copies@);
        }
        extend_stmts(&mut loop_body, copies);
        lower_while(condition, &loop_body, max_unroll)
    }
}

/// `do { body } while (condition)`: the body once, then the loop unrolled
/// `max_unroll - 1` more times.
pub fn lower_do_while(condition: &Expr, body: &Vec<Stmt>, max_unroll: usize) -> (r: Vec<Stmt>)
    requires
        expr_wf(*condition),
        stmts_wf(body@),
    ensures
        stmts_wf(r@),
        !has_last(r@),
        !has_next(r@),
        stmts_view(r@) == do_while_v(expr_view(*condition), stmts_view(body@), max_unroll as nat),
{
    proof {
        lemma_list_exits_view(body@);
        assert(stmts_view(Seq::<Stmt>::empty()) =~= Seq::<StmtV>::empty());
    }
    let on_last = contains_loop_exit(body, true);
    let on_next = contains_loop_exit(body, false);
    let mut out = flag_declarations(on_last, on_next);
    let ghost decls = stmts_view(out@);
    if on_next {
        let f = set_flag(SKIP_FLAG, 0, false);
        proof {
            lemma_stmts_view_push(out@, f);
            assert(decls.push(stmt_view(f)) =~= decls + seq![flag_v(SKIP_FLAG@, 0, false)]);
        }
        out.push(f);
    } else {
        proof {
            assert(decls + Seq::<StmtV>::empty() =~= decls);
        }
    }
    let transformed = transform_loop_body(body, 0, on_last, on_next);
    proof {
        lemma_stmts_view_add(out@, transformed@);
    }
    extend_stmts(&mut out, transformed);
    if max_unroll > 0 {
        let no_step: Vec<Stmt> = Vec::new();
        let unrolled = unroll_iterations(condition, body, &no_step, on_last, on_next, false, max_unroll - 1);
        proof {
            lemma_stmts_view_add(out@, unrolled@);
        }
        extend_stmts(&mut out, unrolled);
    } else {
        proof {
            assert(stmts_view(out@) + Seq::<StmtV>::empty() =~= stmts_view(out@));
        }
    }
    out
}

/// `foreach my $var (@array) { body }`: a counter over the array's indices,
/// with `$var` bound to the element at the start of each iteration.
pub fn lower_foreach(var: &String, array: &String, body: &Vec<Stmt>, max_unroll: usize) -> (r: Vec<Stmt>)
    requires
        stmts_wf(body@),
    ensures
        stmts_wf(r@),
        !has_last(r@),
        !has_next(r@),
        stmts_view(r@) == foreach_v(var@, array@, stmts_view(body@), max_unroll as nat),
{
    let mut out = single(set_flag(FOREACH_INDEX, 0, true));
    let mut scalar_args: Vec<Expr> = Vec::new();
    scalar_args.push(Expr::Variable(crate::text::copy_string(array)));
    let counter = Expr::Variable(str_to_string(FOREACH_INDEX));
    let length = Expr::Builtin { function: Builtin::Scalar, args: scalar_args };
    assert(expr_wf(scalar_args@[0]));
    assert(expr_wf(counter) && expr_wf(length));
    let condition = Expr::Binary { left: Box::new(counter), op: BinaryOp::Lt, right: Box::new(length) };
    let index = Expr::Variable(str_to_string(FOREACH_INDEX));
    assert(expr_wf(index));
    let read = Expr::Access { kind: AccessKind::Array, collection: crate::text::copy_string(array), index: Box::new(index) };
    assert(expr_wf(read));
    let element = Stmt::Assign { name: crate::text::copy_string(var), expr: read, declaration: true };
    let counter2 = Expr::Variable(str_to_string(FOREACH_INDEX));
    let one = Expr::Int(1);
    assert(expr_wf(counter2) && expr_wf(one));
    let next = Expr::Binary { left: Box::new(counter2), op: BinaryOp::Add, right: Box::new(one) };
    let step = Stmt::Assign { name: str_to_string(FOREACH_INDEX), expr: next, declaration: false };
    let ghost cv = ExprV::Var(FOREACH_INDEX@);
    proof {
        crate::ast::lemma_exprs_view(scalar_args@);
        assert(crate::ast::exprs_view(scalar_args@) =~= seq![ExprV::Var(array@)]);
        assert(expr_view(counter) == cv);
        assert(expr_view(length) == ExprV::Builtin(Builtin::Scalar, seq![ExprV::Var(array@)]));
        assert(expr_view(condition) == ExprV::Binary(Box::new(cv), BinaryOp::Lt, Box::new(expr_view(length))));
        assert(expr_view(index) == cv);
        assert(expr_view(read) == ExprV::Access(AccessKind::Array, array@, Box::new(cv)));
        assert(expr_view(counter2) == cv);
        assert(expr_view(one) == ExprV::Int(1));
        assert(expr_view(next) == ExprV::Binary(Box::new(cv), BinaryOp::Add, Box::new(ExprV::Int(1))));
    }
    let mut full_body = single(element);
    let copies = clone_stmts(body);
    proof {
        lemma_stmts_view_add(full_body@, copies@);
    }
    extend_stmts(&mut full_body, copies);
    let steps = single(step);
    let lowered = lower_for(&condition, &full_body, &steps, max_unroll);
    proof {
        lemma_stmts_view_add(out@, lowered@);
    }
    extend_stmts(&mut out, lowered);
    out
}

} // verus!
