//! The facts that the type checker carries through a function, as values:
//! what a condition contributes when it holds or fails, which facts survive
//! an assignment or the join of two branches, and the typing of an
//! expression under facts known only by their values.

use vstd::prelude::*;

use crate::ast::{
    expr_same, expr_view, exprs_view, implies_leq_length, implies_nonnegative, inverse_comparison, is_length_of,
    lemma_expr_same_symmetric, lemma_expr_same_transitive, lemma_exprs_view, mentions, proven_leq_length,
    proven_nonnegative, typing, BinaryOp, Builtin, Expr, ExprType, ExprV, SigView, UnaryOp, VariableState, expr_type_of,
    builtin_param, builtin_result, substr_safe,
};

verus! {

/// Whether the expression value `e` mentions variable `name`: whether an
/// expression with that value does.
pub open spec fn mentions_v(e: ExprV, name: Seq<char>) -> bool {
    mentions(choose|x: Expr| expr_view(x) == e, name)
}

/// The facts that hold when the condition `e` is true.
pub open spec fn true_facts(e: ExprV) -> Seq<ExprV>
    decreases e,
{
    match e {
        ExprV::Unary(UnaryOp::Not, x) => false_facts(*x),
        ExprV::Binary(l, BinaryOp::And, r) => true_facts(*l) + true_facts(*r),
        ExprV::Bool(true) => Seq::empty(),
        _ => seq![e],
    }
}

/// The facts that hold when the condition `e` is false.
pub open spec fn false_facts(e: ExprV) -> Seq<ExprV>
    decreases e,
{
    match e {
        ExprV::Unary(UnaryOp::Not, x) => true_facts(*x),
        ExprV::Binary(l, op, r) => match inverse_comparison(op) {
            Some(inv) => seq![ExprV::Binary(l, inv, r)],
            None => seq![ExprV::Unary(UnaryOp::Not, Box::new(e))],
        },
        _ => seq![ExprV::Unary(UnaryOp::Not, Box::new(e))],
    }
}

/// The facts of `facts` that do not mention `name`, in order.
pub open spec fn facts_without(facts: Seq<ExprV>, name: Seq<char>) -> Seq<ExprV>
    decreases facts.len(),
{
    if facts.len() == 0 {
        Seq::empty()
    } else {
        let rest = facts_without(facts.drop_last(), name);
        if mentions_v(facts.last(), name) {
            rest
        } else {
            rest.push(facts.last())
        }
    }
}

/// The facts of `left` that `right` holds too, in the order of `left`.
pub open spec fn facts_common(left: Seq<ExprV>, right: Seq<ExprV>) -> Seq<ExprV>
    decreases left.len(),
{
    if left.len() == 0 {
        Seq::empty()
    } else {
        let rest = facts_common(left.drop_last(), right);
        if right.contains(left.last()) {
            rest.push(left.last())
        } else {
            rest
        }
    }
}

/// The type of `e` under the variable states `env` and facts whose values are `facts`.
pub open spec fn facts_typing(
    e: Expr,
    env: Map<Seq<char>, VariableState>,
    facts: Seq<ExprV>,
    sigs: SigView,
) -> Option<ExprType> {
    typing(e, env, choose|f: Seq<Expr>| exprs_view(f) == facts, sigs)
}

/// Expressions with the same value are the same expression.
pub proof fn lemma_view_same(a: Expr, b: Expr)
    requires
        expr_view(a) == expr_view(b),
    ensures
        expr_same(a, b),
    decreases a,
{
    match (a, b) {
        (Expr::Unary { expr: e1, .. }, Expr::Unary { expr: e2, .. }) => lemma_view_same(*e1, *e2),
        (Expr::Binary { left: l1, right: r1, .. }, Expr::Binary { left: l2, right: r2, .. }) => {
            lemma_view_same(*l1, *l2);
            lemma_view_same(*r1, *r2);
        },
        (
            Expr::Ternary { condition: c1, then_expr: t1, else_expr: f1 },
            Expr::Ternary { condition: c2, then_expr: t2, else_expr: f2 },
        ) => {
            lemma_view_same(*c1, *c2);
            lemma_view_same(*t1, *t2);
            lemma_view_same(*f1, *f2);
        },
        (Expr::Access { index: i1, .. }, Expr::Access { index: i2, .. }) => lemma_view_same(*i1, *i2),
        (Expr::Call { args: a1, .. }, Expr::Call { args: a2, .. }) | (
            Expr::Builtin { args: a1, .. },
            Expr::Builtin { args: a2, .. },
        ) => {
            lemma_exprs_view(a1@);
            lemma_exprs_view(a2@);
            assert forall|i: int| 0 <= i < a1@.len() implies expr_same(#[trigger] a1@[i], a2@[i]) by {
                assert(decreases_to!(a1 => a1@[i]));
                assert(exprs_view(a1@)[i] == exprs_view(a2@)[i]);
                lemma_view_same(a1@[i], a2@[i]);
            }
        },
        _ => {},
    }
}

/// An expression mentions a variable exactly when its value does.
pub proof fn lemma_mentions_view(e: Expr, name: Seq<char>)
    ensures
        mentions(e, name) == mentions_v(expr_view(e), name),
{
    let v = expr_view(e);
    assert(exists|x: Expr| expr_view(x) == v);
    let x = choose|x: Expr| expr_view(x) == v;
    lemma_view_same(x, e);
    crate::ast::lemma_same_mentions(x, e, name);
}

/// The values of a list with one more expression.
pub proof fn lemma_exprs_view_push(s: Seq<Expr>, e: Expr)
    ensures
        exprs_view(s.push(e)) == exprs_view(s).push(expr_view(e)),
{
    assert(s.push(e).subrange(0, s.len() as int) =~= s);
}

/// The values of two lists one after the other.
pub proof fn lemma_exprs_view_add(a: Seq<Expr>, b: Seq<Expr>)
    ensures
        exprs_view(a + b) == exprs_view(a) + exprs_view(b),
{
    lemma_exprs_view(a);
    lemma_exprs_view(b);
    lemma_exprs_view(a + b);
    assert(exprs_view(a + b) =~= exprs_view(a) + exprs_view(b));
}

/// Lists whose expressions are pairwise the same have the same values.
pub proof fn lemma_exprs_view_same(a: Seq<Expr>, b: Seq<Expr>)
    requires
        a.len() == b.len(),
        forall|i: int| 0 <= i < a.len() ==> expr_same(#[trigger] a[i], b[i]),
    ensures
        exprs_view(a) == exprs_view(b),
{
    lemma_exprs_view(a);
    lemma_exprs_view(b);
    assert forall|i: int| 0 <= i < a.len() implies exprs_view(a)[i] == exprs_view(b)[i] by {
        crate::ast::lemma_same_view(a[i], b[i]);
    }
    assert(exprs_view(a) =~= exprs_view(b));
}

/// A list holds an expression the same as `e` exactly when its values hold the value of `e`.
pub proof fn lemma_has_same_contains(s: Seq<Expr>, e: Expr)
    ensures
        crate::ast::seq_has_same(s, e) == exprs_view(s).contains(expr_view(e)),
{
    lemma_exprs_view(s);
    if crate::ast::seq_has_same(s, e) {
        let i = choose|i: int| 0 <= i < s.len() && expr_same(#[trigger] s[i], e);
        crate::ast::lemma_same_view(s[i], e);
        assert(exprs_view(s)[i] == expr_view(e));
    }
    if exprs_view(s).contains(expr_view(e)) {
        let i = choose|i: int| 0 <= i < exprs_view(s).len() && exprs_view(s)[i] == expr_view(e);
        lemma_view_same(s[i], e);
        assert(expr_same(s[i], e));
    }
}

/// Whether `value` is `length(s)` does not change when `value` is replaced by the same expression.
proof fn lemma_length_of_same(a: Expr, b: Expr, s: Expr)
    requires
        expr_same(a, b),
    ensures
        is_length_of(a, s) == is_length_of(b, s),
{
    if let (Expr::Builtin { args: a1, .. }, Expr::Builtin { args: a2, .. }) = (a, b) {
        if a1@.len() == 1 {
            lemma_same_swap(a1@[0], a2@[0], s);
        }
    }
}

/// With `a` and `b` the same, each is the same as `t` when the other is.
proof fn lemma_same_swap(a: Expr, b: Expr, t: Expr)
    requires
        expr_same(a, b),
    ensures
        expr_same(a, t) == expr_same(b, t),
{
    lemma_expr_same_symmetric(a, b);
    if expr_same(a, t) {
        lemma_expr_same_transitive(b, a, t);
    }
    if expr_same(b, t) {
        lemma_expr_same_transitive(a, b, t);
    }
}

/// What a fact shows of a target does not change when the fact is replaced by the same expression.
proof fn lemma_fact_same(a: Expr, b: Expr, target: Expr, s: Expr)
    requires
        expr_same(a, b),
    ensures
        implies_nonnegative(target, a) == implies_nonnegative(target, b),
        implies_leq_length(target, s, a) == implies_leq_length(target, s, b),
{
    if let (Expr::Binary { left: l1, op: o1, right: r1 }, Expr::Binary { left: l2, op: o2, right: r2 }) = (a, b) {
        assert(o1 == o2);
        assert(expr_same(*l1, *l2));
        assert(expr_same(*r1, *r2));
        assert((*r1 matches Expr::Int(v) && v >= 0) == (*r2 matches Expr::Int(v) && v >= 0));
        assert((*r1 matches Expr::Int(v) && v >= -1) == (*r2 matches Expr::Int(v) && v >= -1));
        assert((*r1 matches Expr::Int(v) && v <= 0) == (*r2 matches Expr::Int(v) && v <= 0));
        assert((*r1 matches Expr::Int(v) && v <= 1) == (*r2 matches Expr::Int(v) && v <= 1));
        assert((*l1 matches Expr::Int(v) && v >= 0) == (*l2 matches Expr::Int(v) && v >= 0));
        assert((*l1 matches Expr::Int(v) && v >= -1) == (*l2 matches Expr::Int(v) && v >= -1));
        assert((*l1 matches Expr::Int(v) && v <= 0) == (*l2 matches Expr::Int(v) && v <= 0));
        assert((*l1 matches Expr::Int(v) && v <= 1) == (*l2 matches Expr::Int(v) && v <= 1));
        lemma_same_swap(*l1, *l2, target);
        lemma_same_swap(*r1, *r2, target);
        lemma_length_of_same(*l1, *l2, s);
        lemma_length_of_same(*r1, *r2, s);
    }
}

/// Facts with the same values prove the same bounds.
proof fn lemma_bounds_by_view(f1: Seq<Expr>, f2: Seq<Expr>, x: Expr, s: Expr)
    requires
        exprs_view(f1) == exprs_view(f2),
    ensures
        proven_nonnegative(x, f1) == proven_nonnegative(x, f2),
        proven_leq_length(x, s, f1) == proven_leq_length(x, s, f2),
{
    lemma_exprs_view(f1);
    lemma_exprs_view(f2);
    assert forall|i: int| 0 <= i < f1.len() implies implies_nonnegative(x, #[trigger] f1[i]) == implies_nonnegative(
        x,
        f2[i],
    ) && implies_leq_length(x, s, f1[i]) == implies_leq_length(x, s, f2[i]) by {
        assert(exprs_view(f1)[i] == expr_view(f1[i]));
        assert(exprs_view(f2)[i] == expr_view(f2[i]));
        lemma_view_same(f1[i], f2[i]);
        lemma_fact_same(f1[i], f2[i], x, s);
    }
    if exists|i: int| 0 <= i < f1.len() && implies_nonnegative(x, #[trigger] f1[i]) {
        let i = choose|i: int| 0 <= i < f1.len() && implies_nonnegative(x, #[trigger] f1[i]);
        assert(implies_nonnegative(x, f2[i]));
    }
    if exists|i: int| 0 <= i < f2.len() && implies_nonnegative(x, #[trigger] f2[i]) {
        let i = choose|i: int| 0 <= i < f2.len() && implies_nonnegative(x, #[trigger] f2[i]);
        assert(implies_nonnegative(x, f1[i]));
    }
    if exists|i: int| 0 <= i < f1.len() && #[trigger] implies_leq_length(x, s, f1[i]) {
        let i = choose|i: int| 0 <= i < f1.len() && #[trigger] implies_leq_length(x, s, f1[i]);
        assert(implies_leq_length(x, s, f2[i]));
    }
    if exists|i: int| 0 <= i < f2.len() && #[trigger] implies_leq_length(x, s, f2[i]) {
        let i = choose|i: int| 0 <= i < f2.len() && #[trigger] implies_leq_length(x, s, f2[i]);
        assert(implies_leq_length(x, s, f1[i]));
    }
}

/// Typing under facts depends on the facts' values only.
pub proof fn lemma_typing_by_view(
    e: Expr,
    env: Map<Seq<char>, VariableState>,
    f1: Seq<Expr>,
    f2: Seq<Expr>,
    sigs: SigView,
)
    requires
        exprs_view(f1) == exprs_view(f2),
    ensures
        typing(e, env, f1, sigs) == typing(e, env, f2, sigs),
    decreases e,
{
    match e {
        Expr::Unary { expr, .. } => {
            lemma_typing_by_view(*expr, env, f1, f2, sigs);
            assert(typing(e, env, f1, sigs) == typing(e, env, f2, sigs));
        },
        Expr::Binary { left, right, .. } => {
            lemma_typing_by_view(*left, env, f1, f2, sigs);
            lemma_typing_by_view(*right, env, f1, f2, sigs);
            assert(typing(e, env, f1, sigs) == typing(e, env, f2, sigs));
        },
        Expr::Ternary { condition, then_expr, else_expr } => {
            lemma_typing_by_view(*condition, env, f1, f2, sigs);
            lemma_typing_by_view(*then_expr, env, f1, f2, sigs);
            lemma_typing_by_view(*else_expr, env, f1, f2, sigs);
            assert(typing(e, env, f1, sigs) == typing(e, env, f2, sigs));
        },
        Expr::Access { index, .. } => {
            lemma_typing_by_view(*index, env, f1, f2, sigs);
            assert(typing(e, env, f1, sigs) == typing(e, env, f2, sigs));
        },
        Expr::Call { function, args } => {
            lemma_args_typing_by_view(args@, env, f1, f2, sigs);
            if sigs.contains_key(function@) && sigs[function@].0.len() == args@.len() {
                let ps = sigs[function@].0;
                assert(typing(e, env, f1, sigs) == (if (forall|i: int|
                    0 <= i < args@.len() ==> typing(#[trigger] args@[i], env, f1, sigs) == Some(expr_type_of(ps[i]))) {
                    Some(expr_type_of(sigs[function@].1))
                } else {
                    None
                }));
                assert(typing(e, env, f2, sigs) == (if (forall|i: int|
                    0 <= i < args@.len() ==> typing(#[trigger] args@[i], env, f2, sigs) == Some(expr_type_of(ps[i]))) {
                    Some(expr_type_of(sigs[function@].1))
                } else {
                    None
                }));
            }
            assert(typing(e, env, f1, sigs) == typing(e, env, f2, sigs));
        },
        Expr::Builtin { function, args } => {
            lemma_args_typing_by_view(args@, env, f1, f2, sigs);
            lemma_bounds_by_view(f1, f2, args@[1], args@[0]);
            lemma_bounds_by_view(f1, f2, args@[2], args@[0]);
            if args@.len() > 0 {
                assert(typing(args@[0], env, f1, sigs) == typing(args@[0], env, f2, sigs));
            }
            if function != Builtin::Scalar && function != Builtin::Int {
                let n = args@.len();
                let safe1 = function == Builtin::Substr ==> substr_safe(args@[0], args@[1], args@[2], f1);
                let safe2 = function == Builtin::Substr ==> substr_safe(args@[0], args@[1], args@[2], f2);
                assert(safe1 == safe2);
                let all1 = forall|i: int|
                    0 <= i < n ==> typing(#[trigger] args@[i], env, f1, sigs) == Some(builtin_param(function, n, i));
                let all2 = forall|i: int|
                    0 <= i < n ==> typing(#[trigger] args@[i], env, f2, sigs) == Some(builtin_param(function, n, i));
                if all1 {
                    assert forall|i: int| 0 <= i < n implies typing(#[trigger] args@[i], env, f2, sigs) == Some(
                        builtin_param(function, n, i),
                    ) by {
                        assert(typing(args@[i], env, f1, sigs) == typing(args@[i], env, f2, sigs));
                    }
                }
                if all2 {
                    assert forall|i: int| 0 <= i < n implies typing(#[trigger] args@[i], env, f1, sigs) == Some(
                        builtin_param(function, n, i),
                    ) by {
                        assert(typing(args@[i], env, f1, sigs) == typing(args@[i], env, f2, sigs));
                    }
                }
                assert(all1 == all2);
                assert(typing(e, env, f1, sigs) == (if (forall|i: int|
                    0 <= i < n ==> typing(#[trigger] args@[i], env, f1, sigs) == Some(builtin_param(function, n, i)))
                    && safe1 {
                    Some(builtin_result(function))
                } else {
                    None
                }));
                assert(typing(e, env, f2, sigs) == (if (forall|i: int|
                    0 <= i < n ==> typing(#[trigger] args@[i], env, f2, sigs) == Some(builtin_param(function, n, i)))
                    && safe2 {
                    Some(builtin_result(function))
                } else {
                    None
                }));
            }
            assert(typing(e, env, f1, sigs) == typing(e, env, f2, sigs));
        },
        _ => {
            assert(typing(e, env, f1, sigs) == typing(e, env, f2, sigs));
        },
    }
}

/// Each expression of a list has the same type under facts with the same values.
proof fn lemma_args_typing_by_view(
    args: Seq<Expr>,
    env: Map<Seq<char>, VariableState>,
    f1: Seq<Expr>,
    f2: Seq<Expr>,
    sigs: SigView,
)
    requires
        exprs_view(f1) == exprs_view(f2),
    ensures
        forall|i: int| 0 <= i < args.len() ==> #[trigger] typing(args[i], env, f1, sigs) == #[trigger] typing(
            args[i],
            env,
            f2,
            sigs,
        ),
    decreases args,
{
    assert forall|i: int| 0 <= i < args.len() implies #[trigger] typing(args[i], env, f1, sigs) == #[trigger] typing(
        args[i],
        env,
        f2,
        sigs,
    ) by {
        assert(decreases_to!(args => args[i]));
        lemma_typing_by_view(args[i], env, f1, f2, sigs);
    }
}

/// Typing under facts is typing under their values.
pub proof fn lemma_facts_typing(
    e: Expr,
    env: Map<Seq<char>, VariableState>,
    facts: Seq<Expr>,
    sigs: SigView,
)
    ensures
        typing(e, env, facts, sigs) == facts_typing(e, env, exprs_view(facts), sigs),
{
    let fv = exprs_view(facts);
    assert(exists|f: Seq<Expr>| exprs_view(f) == fv);
    let chosen = choose|f: Seq<Expr>| exprs_view(f) == fv;
    lemma_typing_by_view(e, env, facts, chosen, sigs);
}

} // verus!

