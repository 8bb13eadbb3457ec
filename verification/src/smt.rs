//! Encoding of symbolic conditions as SMT-LIB2 scripts over 64-bit vectors,
//! strings and arrays, and satisfiability queries to Z3.

use vstd::prelude::*;

use crate::assoc::NameMap;
use crate::ast::Type;
use crate::symexec::{ArrayIntExpr, ArrayStrExpr, BoolExpr, CmpOp, HashIntExpr, HashStrExpr, IntExpr, ModelValue, StrExpr};
use crate::encoding::{
    bool_piece, bool_text, declare, declare_all, int_literal, new_encoder, push_int, push_symbol, safety_bool_piece,
    safety_bool_text, symbol, lemma_declarations_complete,
};
use crate::text::{chars_of, copy_string, push_str, push_string, str_to_string, string_eq};

verus! {

/// The least bound on the length of every string variable.
pub const MAX_STR_LEN: i64 = 32;

/// A variable whose value a counterexample reports.
#[derive(Debug, PartialEq, Eq)]
pub struct ModelVar {
    pub name: String,
    pub ty: Type,
}

/// The solver could not decide a query.
#[derive(Debug, PartialEq, Eq)]
pub enum SmtError {
    Unknown { function: String, reason: String },
}

impl SmtError {
    /// The text that reports the error.
    pub open spec fn describe(&self) -> Seq<char> {
        match self {
            SmtError::Unknown { function, reason } => "solver returned unknown for function `"@ + function@ + "`: "@ + reason@,
        }
    }

    /// The text that reports the error.
    pub fn message(&self) -> (r: String)
        ensures
            r@ == self.describe(),
    {
        match self {
            SmtError::Unknown { function, reason } => {
                let mut m = String::new();
                push_str(&mut m, "solver returned unknown for function `");
                push_string(&mut m, function);
                push_str(&mut m, "`: ");
                push_string(&mut m, reason);
                m
            },
        }
    }
}

} // verus!

verus! {

/// The views of a list of strings.
pub open spec fn views(v: Seq<String>) -> Seq<Seq<char>> {
    v.map_values(|s: String| s@)
}

/// The names of the string variables of `e`, in order of occurrence.
pub open spec fn int_str_vars(e: IntExpr) -> Seq<Seq<char>>
    decreases e, 0nat,
{
    match e {
        IntExpr::Const(_) | IntExpr::Var(_) => Seq::empty(),
        IntExpr::Add(l, r) | IntExpr::Sub(l, r) | IntExpr::Mul(l, r) | IntExpr::Div(l, r) | IntExpr::Mod(l, r)
        | IntExpr::Pow(l, r) | IntExpr::BitAnd(l, r) | IntExpr::BitOr(l, r) | IntExpr::BitXor(l, r)
        | IntExpr::Shl(l, r) | IntExpr::Shr(l, r) => int_str_vars(*l) + int_str_vars(*r),
        IntExpr::BitNot(v) | IntExpr::Abs(v) => int_str_vars(*v),
        IntExpr::StrToInt(v) | IntExpr::Ord(v) | IntExpr::Chomp(v) | IntExpr::Length(v) => str_str_vars(*v),
        IntExpr::Contains(a, b) | IntExpr::StartsWith(a, b) | IntExpr::EndsWith(a, b) => str_str_vars(*a) + str_str_vars(*b),
        IntExpr::Ite(c, t, f) => bool_str_vars(*c) + int_str_vars(*t) + int_str_vars(*f),
        IntExpr::Index(h, n, s) => str_str_vars(*h) + str_str_vars(*n) + int_str_vars(*s),
        IntExpr::ArraySelect(_, i) => int_str_vars(*i),
        IntExpr::HashSelect(_, k) => str_str_vars(*k),
    }
}

pub open spec fn str_str_vars(e: StrExpr) -> Seq<Seq<char>>
    decreases e, 0nat,
{
    match e {
        StrExpr::Const(_) => Seq::empty(),
        StrExpr::Var(name) => seq![name@],
        StrExpr::Concat(a, b) => str_str_vars(*a) + str_str_vars(*b),
        StrExpr::Substr(v, s, l) => str_str_vars(*v) + int_str_vars(*s) + int_str_vars(*l),
        StrExpr::Chr(v) | StrExpr::FromInt(v) => int_str_vars(*v),
        StrExpr::Reverse(v) => str_str_vars(*v),
        StrExpr::Replace(a, b, c) => str_str_vars(*a) + str_str_vars(*b) + str_str_vars(*c),
        StrExpr::CharAt(s, i) => str_str_vars(*s) + int_str_vars(*i),
        StrExpr::Ite(c, t, f) => bool_str_vars(*c) + str_str_vars(*t) + str_str_vars(*f),
        StrExpr::ArraySelect(_, i) => int_str_vars(*i),
        StrExpr::HashSelect(_, k) => str_str_vars(*k),
    }
}

pub open spec fn bool_str_vars(e: BoolExpr) -> Seq<Seq<char>>
    decreases e, 0nat,
{
    match e {
        BoolExpr::Const(_) => Seq::empty(),
        BoolExpr::Overflow(exprs) => list_str_vars(exprs@),
        BoolExpr::Not(x) => bool_str_vars(*x),
        BoolExpr::And(a, b) | BoolExpr::Or(a, b) => bool_str_vars(*a) + bool_str_vars(*b),
        BoolExpr::IntCmp(_, a, b) => int_str_vars(*a) + int_str_vars(*b),
        BoolExpr::StrEq(a, b) | BoolExpr::StrCmp(_, a, b) => str_str_vars(*a) + str_str_vars(*b),
    }
}

pub open spec fn list_str_vars(exprs: Seq<IntExpr>) -> Seq<Seq<char>>
    decreases exprs, 1nat,
{
    if exprs.len() == 0 {
        Seq::empty()
    } else {
        list_str_vars(exprs.subrange(0, exprs.len() - 1)) + int_str_vars(exprs[exprs.len() - 1])
    }
}

/// The number of bytes of the UTF-8 encoding of `c`.
pub open spec fn utf8_width(c: char) -> nat {
    if (c as u32) < 0x80 {
        1
    } else if (c as u32) < 0x800 {
        2
    } else if (c as u32) < 0x10000 {
        3
    } else {
        4
    }
}

/// The number of bytes of the UTF-8 encoding of `s`.
pub open spec fn utf8_size(s: Seq<char>) -> nat
    decreases s.len(),
{
    if s.len() == 0 {
        0
    } else {
        utf8_size(s.drop_last()) + utf8_width(s.last())
    }
}

/// `utf8_size(s)`, or `i64::MAX` where it is larger.
pub open spec fn utf8_capped(s: Seq<char>) -> int {
    if utf8_size(s) < i64::MAX {
        utf8_size(s) as int
    } else {
        i64::MAX as int
    }
}

pub open spec fn larger(a: int, b: int) -> int {
    if a >= b {
        a
    } else {
        b
    }
}

/// The byte length of the longest string constant of `e` (0 where it has none).
pub open spec fn int_longest(e: IntExpr) -> int
    decreases e, 0nat,
{
    match e {
        IntExpr::Const(_) | IntExpr::Var(_) => 0,
        IntExpr::Add(l, r) | IntExpr::Sub(l, r) | IntExpr::Mul(l, r) | IntExpr::Div(l, r) | IntExpr::Mod(l, r)
        | IntExpr::Pow(l, r) | IntExpr::BitAnd(l, r) | IntExpr::BitOr(l, r) | IntExpr::BitXor(l, r)
        | IntExpr::Shl(l, r) | IntExpr::Shr(l, r) => larger(int_longest(*l), int_longest(*r)),
        IntExpr::BitNot(v) | IntExpr::Abs(v) => int_longest(*v),
        IntExpr::StrToInt(v) | IntExpr::Ord(v) | IntExpr::Chomp(v) | IntExpr::Length(v) => str_longest(*v),
        IntExpr::Contains(a, b) | IntExpr::StartsWith(a, b) | IntExpr::EndsWith(a, b) => larger(str_longest(*a), str_longest(*b)),
        IntExpr::Ite(c, t, f) => larger(bool_longest(*c), larger(int_longest(*t), int_longest(*f))),
        IntExpr::Index(h, n, s) => larger(str_longest(*h), larger(str_longest(*n), int_longest(*s))),
        IntExpr::ArraySelect(_, i) => int_longest(*i),
        IntExpr::HashSelect(_, k) => str_longest(*k),
    }
}

pub open spec fn str_longest(e: StrExpr) -> int
    decreases e, 0nat,
{
    match e {
        StrExpr::Const(s) => utf8_capped(s@),
        StrExpr::Var(_) => 0,
        StrExpr::Concat(a, b) => larger(str_longest(*a), str_longest(*b)),
        StrExpr::Substr(v, s, l) => larger(str_longest(*v), larger(int_longest(*s), int_longest(*l))),
        StrExpr::Chr(v) | StrExpr::FromInt(v) => int_longest(*v),
        StrExpr::Reverse(v) => str_longest(*v),
        StrExpr::Replace(a, b, c) => larger(str_longest(*a), larger(str_longest(*b), str_longest(*c))),
        StrExpr::CharAt(s, i) => larger(str_longest(*s), int_longest(*i)),
        StrExpr::Ite(c, t, f) => larger(bool_longest(*c), larger(str_longest(*t), str_longest(*f))),
        StrExpr::ArraySelect(_, i) => int_longest(*i),
        StrExpr::HashSelect(_, k) => str_longest(*k),
    }
}

pub open spec fn bool_longest(e: BoolExpr) -> int
    decreases e, 0nat,
{
    match e {
        BoolExpr::Const(_) | BoolExpr::Overflow(_) => 0,
        BoolExpr::Not(x) => bool_longest(*x),
        BoolExpr::And(a, b) | BoolExpr::Or(a, b) => larger(bool_longest(*a), bool_longest(*b)),
        BoolExpr::IntCmp(_, a, b) => larger(int_longest(*a), int_longest(*b)),
        BoolExpr::StrEq(a, b) | BoolExpr::StrCmp(_, a, b) => larger(str_longest(*a), str_longest(*b)),
    }
}

/// The bound that `length($name) op n` puts on the length of `name`.
pub open spec fn stated_bound(op: CmpOp, left: IntExpr, right: IntExpr) -> Option<(Seq<char>, i64)> {
    match (left, right) {
        (IntExpr::Length(s), IntExpr::Const(n)) => match *s {
            StrExpr::Var(name) => match op {
                CmpOp::Le | CmpOp::Eq => Some((name@, n)),
                CmpOp::Lt => if n > i64::MIN {
                    Some((name@, (n - 1) as i64))
                } else {
                    None
                },
                _ => None,
            },
            _ => None,
        },
        _ => None,
    }
}

/// `op` with its operands swapped.
pub open spec fn flipped(op: CmpOp) -> CmpOp {
    match op {
        CmpOp::Lt => CmpOp::Gt,
        CmpOp::Le => CmpOp::Ge,
        CmpOp::Gt => CmpOp::Lt,
        CmpOp::Ge => CmpOp::Le,
        CmpOp::Eq => CmpOp::Eq,
        CmpOp::Ne => CmpOp::Ne,
    }
}

/// The bounds recorded so far, by name.
pub open spec fn bound_views(bs: Seq<(String, i64)>) -> Seq<(Seq<char>, i64)> {
    bs.map_values(|p: (String, i64)| (p.0@, p.1))
}

/// No name has two bounds.
pub open spec fn distinct_names(bs: Seq<(Seq<char>, i64)>) -> bool {
    forall|i: int, j: int| 0 <= i < j < bs.len() ==> bs[i].0 != bs[j].0
}

/// Records the bound `b` on `name`: the larger of it and the one recorded,
/// or the larger of it and 0 for a new name.
pub open spec fn note(bs: Seq<(Seq<char>, i64)>, name: Seq<char>, b: i64) -> Seq<(Seq<char>, i64)> {
    if exists|i: int| 0 <= i < bs.len() && bs[i].0 == name {
        let i = choose|i: int| 0 <= i < bs.len() && bs[i].0 == name;
        if b > bs[i].1 {
            bs.update(i, (name, b))
        } else {
            bs
        }
    } else {
        bs.push((name, if b > 0 { b } else { 0 }))
    }
}

pub open spec fn note_opt(bs: Seq<(Seq<char>, i64)>, found: Option<(Seq<char>, i64)>) -> Seq<(Seq<char>, i64)> {
    match found {
        Some((name, b)) => note(bs, name, b),
        None => bs,
    }
}

/// The bounds stated by the top-level conjuncts of `e`, added to `bs`.
pub open spec fn bounds_after(e: BoolExpr, bs: Seq<(Seq<char>, i64)>) -> Seq<(Seq<char>, i64)>
    decreases e,
{
    match e {
        BoolExpr::And(a, b) => bounds_after(*b, bounds_after(*a, bs)),
        BoolExpr::IntCmp(op, l, r) => note_opt(note_opt(bs, stated_bound(op, *l, *r)), stated_bound(flipped(op), *r, *l)),
        _ => bs,
    }
}

/// The names of `names` at their first occurrence.
pub open spec fn first_seen(names: Seq<Seq<char>>) -> Seq<Seq<char>>
    decreases names.len(),
{
    if names.len() == 0 {
        Seq::empty()
    } else {
        let f = first_seen(names.drop_last());
        if f.contains(names.last()) {
            f
        } else {
            f.push(names.last())
        }
    }
}

/// The length bound of the string variable `name`: the least bound `minb`,
/// or the bound stated for it where that is larger.
pub open spec fn length_limit(bs: Seq<(Seq<char>, i64)>, name: Seq<char>, minb: i64) -> i64 {
    if exists|i: int| 0 <= i < bs.len() && bs[i].0 == name {
        let i = choose|i: int| 0 <= i < bs.len() && bs[i].0 == name;
        if bs[i].1 >= minb {
            bs[i].1
        } else {
            minb
        }
    } else {
        minb
    }
}

/// The assertions that bound the lengths of the string variables `vars`.
pub open spec fn bound_lines(vars: Seq<Seq<char>>, bs: Seq<(Seq<char>, i64)>, minb: i64) -> Seq<char>
    decreases vars.len(),
{
    if vars.len() == 0 {
        Seq::empty()
    } else {
        bound_lines(vars.drop_last(), bs, minb) + "(assert (<= (str.len "@ + symbol("s:"@, vars.last()) + ") "@
            + int_literal(length_limit(bs, vars.last(), minb)) + "))\n"@
    }
}

/// The declarations of the string variables `vars`.
pub open spec fn string_decls(vars: Seq<Seq<char>>) -> Seq<(Seq<char>, Seq<char>)> {
    vars.map_values(|v: Seq<char>| ("s:"@ + v, "String"@))
}

/// The declarations of the script for `c` (names and text): its string
/// variables, then the constants of its definedness conditions and of `c`.
pub open spec fn query_declarations(c: BoolExpr) -> (Seq<Seq<char>>, Seq<char>) {
    let vars = first_seen(bool_str_vars(c));
    let st0 = declare_all((Seq::empty(), Seq::empty()), string_decls(vars));
    let sp = safety_bool_piece(c, false, 0);
    let cp = bool_piece(c, sp.after);
    declare_all(declare_all(st0, sp.decls), cp.decls)
}

/// The script that asks whether `c` can hold with its operations defined:
/// the declarations, the length bounds of its string variables, the
/// definedness conditions, the condition, and the facts of the auxiliary
/// constants.
pub open spec fn query_script(c: BoolExpr) -> Seq<char> {
    let vars = first_seen(bool_str_vars(c));
    let bs = bounds_after(c, Seq::empty());
    let minb = larger(bool_longest(c), MAX_STR_LEN as int) as i64;
    let sp = safety_bool_piece(c, false, 0);
    let cp = bool_piece(c, sp.after);
    query_declarations(c).1 + (bound_lines(vars, bs, minb) + "(assert "@ + sp.term + ")\n(assert "@ + cp.term + ")\n"@ + (
    sp.facts + cp.facts))
}

/// The script for `c` declares no constant twice, and declares every
/// string variable of `c` and every constant that its terms ask for.
pub proof fn lemma_query_declares_each_once(c: BoolExpr)
    ensures
        query_declarations(c).0.no_duplicates(),
        forall|v: Seq<char>| bool_str_vars(c).contains(v) ==> #[trigger] query_declarations(c).0.contains("s:"@ + v),
        forall|i: int| 0 <= i < safety_bool_piece(c, false, 0).decls.len()
            ==> query_declarations(c).0.contains(#[trigger] safety_bool_piece(c, false, 0).decls[i].0),
        forall|i: int| 0 <= i < bool_piece(c, safety_bool_piece(c, false, 0).after).decls.len()
            ==> query_declarations(c).0.contains(#[trigger] bool_piece(c, safety_bool_piece(c, false, 0).after).decls[i].0),
{
    let vars = first_seen(bool_str_vars(c));
    let reqs = string_decls(vars);
    let init = (Seq::<Seq<char>>::empty(), Seq::<char>::empty());
    let st0 = declare_all(init, reqs);
    let sp = safety_bool_piece(c, false, 0);
    let cp = bool_piece(c, sp.after);
    let st1 = declare_all(st0, sp.decls);
    assert(init.0.no_duplicates());
    lemma_declarations_complete(init, reqs);
    lemma_declarations_complete(st0, sp.decls);
    lemma_declarations_complete(st1, cp.decls);
    assert forall|v: Seq<char>| bool_str_vars(c).contains(v) implies #[trigger] query_declarations(c).0.contains("s:"@ + v) by {
        lemma_first_seen_covers(bool_str_vars(c), v);
        let k = choose|k: int| 0 <= k < vars.len() && vars[k] == v;
        assert(reqs[k].0 == "s:"@ + v);
        assert(st0.0.contains("s:"@ + v));
        assert(st1.0.contains("s:"@ + v));
    }
    assert forall|i: int| 0 <= i < sp.decls.len() implies query_declarations(c).0.contains(#[trigger] sp.decls[i].0) by {
        assert(st1.0.contains(sp.decls[i].0));
    }
}

/// Every name of `names` is among its first occurrences.
pub proof fn lemma_first_seen_covers(names: Seq<Seq<char>>, v: Seq<char>)
    requires
        names.contains(v),
    ensures
        first_seen(names).contains(v),
    decreases names.len(),
{
    let front = names.drop_last();
    if names.last() == v {
        if !first_seen(front).contains(v) {
            assert(first_seen(names).last() == v);
        }
    } else {
        let k = choose|k: int| 0 <= k < names.len() && names[k] == v;
        assert(front[k] == v);
        lemma_first_seen_covers(front, v);
        let f = first_seen(front);
        if !f.contains(names.last()) {
            let j = choose|j: int| 0 <= j < f.len() && f[j] == v;
            assert(f.push(names.last())[j] == v);
        }
    }
}

/// Adds to `out` the names of the string variables of `e`.
fn string_vars_int(e: &IntExpr, out: &mut Vec<String>)
    ensures
        views(final(out)@) == views(old(out)@) + int_str_vars(*e),
    decreases e,
{
    let ghost start = views(out@);
    match e {
        IntExpr::Const(_) | IntExpr::Var(_) => {
            assert(views(out@) =~= start + int_str_vars(*e));
        },
        IntExpr::Add(l, r) | IntExpr::Sub(l, r) | IntExpr::Mul(l, r) | IntExpr::Div(l, r) | IntExpr::Mod(l, r)
        | IntExpr::Pow(l, r) | IntExpr::BitAnd(l, r) | IntExpr::BitOr(l, r) | IntExpr::BitXor(l, r)
        | IntExpr::Shl(l, r) | IntExpr::Shr(l, r) => {
            string_vars_int(l, out);
            string_vars_int(r, out);
            assert(views(out@) =~= start + int_str_vars(*e));
        },
        IntExpr::BitNot(v) | IntExpr::Abs(v) => string_vars_int(v, out),
        IntExpr::StrToInt(v) | IntExpr::Ord(v) | IntExpr::Chomp(v) | IntExpr::Length(v) => string_vars_str(v, out),
        IntExpr::Contains(a, b) | IntExpr::StartsWith(a, b) | IntExpr::EndsWith(a, b) => {
            string_vars_str(a, out);
            string_vars_str(b, out);
            assert(views(out@) =~= start + int_str_vars(*e));
        },
        IntExpr::Ite(c, t, f) => {
            string_vars_bool(c, out);
            string_vars_int(t, out);
            string_vars_int(f, out);
            assert(views(out@) =~= start + int_str_vars(*e));
        },
        IntExpr::Index(h, n, s) => {
            string_vars_str(h, out);
            string_vars_str(n, out);
            string_vars_int(s, out);
            assert(views(out@) =~= start + int_str_vars(*e));
        },
        IntExpr::ArraySelect(_, i) => string_vars_int(i, out),
        IntExpr::HashSelect(_, k) => string_vars_str(k, out),
    }
}

fn string_vars_str(e: &StrExpr, out: &mut Vec<String>)
    ensures
        views(final(out)@) == views(old(out)@) + str_str_vars(*e),
    decreases e,
{
    let ghost start = views(out@);
    match e {
        StrExpr::Const(_) => {
            assert(views(out@) =~= start + str_str_vars(*e));
        },
        StrExpr::Var(name) => {
            out.push(copy_string(name));
            assert(views(out@) =~= start + str_str_vars(*e));
        },
        StrExpr::Concat(a, b) => {
            string_vars_str(a, out);
            string_vars_str(b, out);
            assert(views(out@) =~= start + str_str_vars(*e));
        },
        StrExpr::Substr(v, s, l) => {
            string_vars_str(v, out);
            string_vars_int(s, out);
            string_vars_int(l, out);
            assert(views(out@) =~= start + str_str_vars(*e));
        },
        StrExpr::Chr(v) | StrExpr::FromInt(v) => string_vars_int(v, out),
        StrExpr::Reverse(v) => string_vars_str(v, out),
        StrExpr::Replace(a, b, c) => {
            string_vars_str(a, out);
            string_vars_str(b, out);
            string_vars_str(c, out);
            assert(views(out@) =~= start + str_str_vars(*e));
        },
        StrExpr::CharAt(s, i) => {
            string_vars_str(s, out);
            string_vars_int(i, out);
            assert(views(out@) =~= start + str_str_vars(*e));
        },
        StrExpr::Ite(c, t, f) => {
            string_vars_bool(c, out);
            string_vars_str(t, out);
            string_vars_str(f, out);
            assert(views(out@) =~= start + str_str_vars(*e));
        },
        StrExpr::ArraySelect(_, i) => string_vars_int(i, out),
        StrExpr::HashSelect(_, k) => string_vars_str(k, out),
    }
}

fn string_vars_bool(e: &BoolExpr, out: &mut Vec<String>)
    ensures
        views(final(out)@) == views(old(out)@) + bool_str_vars(*e),
    decreases e,
{
    let ghost start = views(out@);
    match e {
        BoolExpr::Const(_) => {
            assert(views(out@) =~= start + bool_str_vars(*e));
        },
        BoolExpr::Overflow(exprs) => {
            let mut i: usize = 0;
            assert(exprs@.subrange(0, 0) =~= Seq::<IntExpr>::empty());
            assert(views(out@) =~= start + list_str_vars(exprs@.subrange(0, 0)));
            while i < exprs.len()
                invariant
                    i <= exprs@.len(),
                    *e == BoolExpr::Overflow(*exprs),
                    views(out@) == start + list_str_vars(exprs@.subrange(0, i as int)),
                decreases exprs.len() - i,
            {
                proof {
                    assert(decreases_to!(*e => (*e)->Overflow_0));
                    assert(decreases_to!(*exprs => exprs@[i as int]));
                }
                string_vars_int(&exprs[i], out);
                proof {
                    let sub = exprs@.subrange(0, i + 1);
                    assert(sub.subrange(0, sub.len() - 1) =~= exprs@.subrange(0, i as int));
                    assert(sub[sub.len() - 1] == exprs@[i as int]);
                    assert(views(out@) =~= start + list_str_vars(sub));
                }
                i += 1;
            }
            assert(exprs@.subrange(0, i as int) =~= exprs@);
        },
        BoolExpr::Not(x) => string_vars_bool(x, out),
        BoolExpr::And(a, b) | BoolExpr::Or(a, b) => {
            string_vars_bool(a, out);
            string_vars_bool(b, out);
            assert(views(out@) =~= start + bool_str_vars(*e));
        },
        BoolExpr::IntCmp(_, a, b) => {
            string_vars_int(a, out);
            string_vars_int(b, out);
            assert(views(out@) =~= start + bool_str_vars(*e));
        },
        BoolExpr::StrEq(a, b) | BoolExpr::StrCmp(_, a, b) => {
            string_vars_str(a, out);
            string_vars_str(b, out);
            assert(views(out@) =~= start + bool_str_vars(*e));
        },
    }
}

/// The number of bytes of the UTF-8 encoding of `s` (at most `i64::MAX`).
fn utf8_len(s: &String) -> (r: i64)
    ensures
        r == utf8_capped(s@),
{
    let chars = chars_of(s.as_str());
    let mut n: i64 = 0;
    let mut i: usize = 0;
    assert(chars@.take(0) =~= Seq::<char>::empty());
    while i < chars.len()
        invariant
            i <= chars@.len(),
            chars@ == s@,
            n == utf8_capped(chars@.take(i as int)),
        decreases chars.len() - i,
    {
        let c = chars[i] as u32;
        let width: i64 = if c < 0x80 { 1 } else if c < 0x800 { 2 } else if c < 0x10000 { 3 } else { 4 };
        if n > i64::MAX - width {
            n = i64::MAX;
        } else {
            n = n + width;
        }
        assert(chars@.take(i + 1).drop_last() =~= chars@.take(i as int));
        i += 1;
    }
    assert(chars@.take(i as int) =~= s@);
    n
}

fn max_i64(a: i64, b: i64) -> (r: i64)
    ensures
        r == larger(a as int, b as int),
{
    if a >= b { a } else { b }
}

/// The length in bytes of the longest string constant of `e`.
fn longest_const_int(e: &IntExpr) -> (r: i64)
    ensures
        r == int_longest(*e),
    decreases e,
{
    match e {
        IntExpr::Const(_) | IntExpr::Var(_) => 0,
        IntExpr::Add(l, r) | IntExpr::Sub(l, r) | IntExpr::Mul(l, r) | IntExpr::Div(l, r) | IntExpr::Mod(l, r)
        | IntExpr::Pow(l, r) | IntExpr::BitAnd(l, r) | IntExpr::BitOr(l, r) | IntExpr::BitXor(l, r)
        | IntExpr::Shl(l, r) | IntExpr::Shr(l, r) => max_i64(longest_const_int(l), longest_const_int(r)),
        IntExpr::BitNot(v) | IntExpr::Abs(v) => longest_const_int(v),
        IntExpr::StrToInt(v) | IntExpr::Ord(v) | IntExpr::Chomp(v) | IntExpr::Length(v) => longest_const_str(v),
        IntExpr::Contains(a, b) | IntExpr::StartsWith(a, b) | IntExpr::EndsWith(a, b) => max_i64(
            longest_const_str(a),
            longest_const_str(b),
        ),
        IntExpr::Ite(c, t, f) => max_i64(longest_const_bool(c), max_i64(longest_const_int(t), longest_const_int(f))),
        IntExpr::Index(h, n, s) => max_i64(longest_const_str(h), max_i64(longest_const_str(n), longest_const_int(s))),
        IntExpr::ArraySelect(_, i) => longest_const_int(i),
        IntExpr::HashSelect(_, k) => longest_const_str(k),
    }
}

fn longest_const_str(e: &StrExpr) -> (r: i64)
    ensures
        r == str_longest(*e),
    decreases e,
{
    match e {
        StrExpr::Const(s) => utf8_len(s),
        StrExpr::Var(_) => 0,
        StrExpr::Concat(a, b) => max_i64(longest_const_str(a), longest_const_str(b)),
        StrExpr::Substr(v, s, l) => max_i64(longest_const_str(v), max_i64(longest_const_int(s), longest_const_int(l))),
        StrExpr::Chr(v) | StrExpr::FromInt(v) => longest_const_int(v),
        StrExpr::Reverse(v) => longest_const_str(v),
        StrExpr::Replace(a, b, c) => max_i64(longest_const_str(a), max_i64(longest_const_str(b), longest_const_str(c))),
        StrExpr::CharAt(s, i) => max_i64(longest_const_str(s), longest_const_int(i)),
        StrExpr::Ite(c, t, f) => max_i64(longest_const_bool(c), max_i64(longest_const_str(t), longest_const_str(f))),
        StrExpr::ArraySelect(_, i) => longest_const_int(i),
        StrExpr::HashSelect(_, k) => longest_const_str(k),
    }
}

fn longest_const_bool(e: &BoolExpr) -> (r: i64)
    ensures
        r == bool_longest(*e),
    decreases e,
{
    match e {
        BoolExpr::Const(_) | BoolExpr::Overflow(_) => 0,
        BoolExpr::Not(x) => longest_const_bool(x),
        BoolExpr::And(a, b) | BoolExpr::Or(a, b) => max_i64(longest_const_bool(a), longest_const_bool(b)),
        BoolExpr::IntCmp(_, a, b) => max_i64(longest_const_int(a), longest_const_int(b)),
        BoolExpr::StrEq(a, b) | BoolExpr::StrCmp(_, a, b) => max_i64(longest_const_str(a), longest_const_str(b)),
    }
}

/// The bound `length($name) op n` states on `name`, read left to right.
fn length_bound(op: CmpOp, left: &IntExpr, right: &IntExpr) -> (r: Option<(String, i64)>)
    ensures
        match r {
            Some(p) => stated_bound(op, *left, *right) == Some((p.0@, p.1)),
            None => stated_bound(op, *left, *right) is None,
        },
{
    if let IntExpr::Length(s) = left {
        if let StrExpr::Var(name) = &**s {
            if let IntExpr::Const(n) = right {
                return match op {
                    CmpOp::Le | CmpOp::Eq => Some((copy_string(name), *n)),
                    CmpOp::Lt => if *n > i64::MIN { Some((copy_string(name), *n - 1)) } else { None },
                    _ => None,
                };
            }
        }
    }
    None
}

fn flip(op: CmpOp) -> (r: CmpOp)
    ensures
        r == flipped(op),
{
    match op {
        CmpOp::Lt => CmpOp::Gt,
        CmpOp::Le => CmpOp::Ge,
        CmpOp::Gt => CmpOp::Lt,
        CmpOp::Ge => CmpOp::Le,
        CmpOp::Eq => CmpOp::Eq,
        CmpOp::Ne => CmpOp::Ne,
    }
}

/// The position of the bound recorded for `name`, if any.
fn find_bound(bounds: &Vec<(String, i64)>, name: &String) -> (r: Option<usize>)
    ensures
        match r {
            Some(i) => i < bounds@.len() && bound_views(bounds@)[i as int].0 == name@,
            None => forall|k: int| 0 <= k < bounds@.len() ==> bound_views(bounds@)[k].0 != name@,
        },
{
    let mut i: usize = 0;
    while i < bounds.len()
        invariant
            i <= bounds@.len(),
            forall|k: int| 0 <= k < i ==> bound_views(bounds@)[k].0 != name@,
        decreases bounds.len() - i,
    {
        assert(bound_views(bounds@)[i as int] == (bounds@[i as int].0@, bounds@[i as int].1));
        if string_eq(&bounds[i].0, name) {
            return Some(i);
        }
        i += 1;
    }
    None
}

/// Records `bound` for `name`, keeping the largest bound seen (from 0).
fn note_bound(bounds: &mut Vec<(String, i64)>, name: String, bound: i64)
    requires
        distinct_names(bound_views(old(bounds)@)),
    ensures
        bound_views(final(bounds)@) == note(bound_views(old(bounds)@), name@, bound),
        distinct_names(bound_views(final(bounds)@)),
{
    let ghost bs = bound_views(bounds@);
    let ghost nm = name@;
    match find_bound(bounds, &name) {
        Some(i) => {
            proof {
                let j = choose|j: int| 0 <= j < bs.len() && bs[j].0 == nm;
                assert(j == i);
            }
            assert(bs[i as int] == (bounds@[i as int].0@, bounds@[i as int].1));
            let current = bounds[i].1;
            if bound > current {
                bounds.set(i, (name, bound));
                assert(bound_views(bounds@) =~= bs.update(i as int, (nm, bound)));
            }
        },
        None => {
            bounds.push((name, max_i64(bound, 0)));
            assert(bound_views(bounds@) =~= bs.push((nm, if bound > 0 { bound } else { 0 })));
        },
    }
}

/// The explicit upper bounds on string lengths in the top-level conjuncts of `e`.
fn length_bounds(e: &BoolExpr, bounds: &mut Vec<(String, i64)>)
    requires
        distinct_names(bound_views(old(bounds)@)),
    ensures
        bound_views(final(bounds)@) == bounds_after(*e, bound_views(old(bounds)@)),
        distinct_names(bound_views(final(bounds)@)),
    decreases e,
{
    match e {
        BoolExpr::And(a, b) => {
            length_bounds(a, bounds);
            length_bounds(b, bounds);
        },
        BoolExpr::IntCmp(op, l, r) => {
            if let Some((name, n)) = length_bound(*op, l, r) {
                note_bound(bounds, name, n);
            }
            if let Some((name, n)) = length_bound(flip(*op), r, l) {
                note_bound(bounds, name, n);
            }
        },
        _ => {},
    }
}

/// The SMT-LIB term that holds where no integer operation of `condition`
/// leaves 64 bits (the symbols it names are those that `build_query`
/// declares).
pub fn encode_overflow_safety(condition: &BoolExpr) -> (r: String)
    ensures
        r@ == safety_bool_piece(*condition, true, 0).term,
{
    let mut enc = new_encoder();
    safety_bool_text(&mut enc, condition, true)
}

/// The SMT-LIB2 script that asks whether `condition` and its definedness
/// conditions hold, with every string variable bounded in length.
pub fn build_query(condition: &BoolExpr) -> (script: String)
    ensures
        script@ == query_script(*condition),
{
    let mut enc = new_encoder();
    let mut asserts = String::new();
    let mut names: Vec<String> = Vec::new();
    string_vars_bool(condition, &mut names);
    assert(views(names@) =~= bool_str_vars(*condition)) by {
        assert(views(Seq::<String>::empty()) =~= Seq::<Seq<char>>::empty());
    }
    let mut bounds: Vec<(String, i64)> = Vec::new();
    assert(bound_views(bounds@) =~= Seq::<(Seq<char>, i64)>::empty());
    length_bounds(condition, &mut bounds);
    let ghost bs = bound_views(bounds@);
    let min_bound = max_i64(longest_const_bool(condition), MAX_STR_LEN);
    let mut seen: Vec<String> = Vec::new();
    let ghost init = (Seq::<Seq<char>>::empty(), Seq::<char>::empty());
    proof {
        assert(views(seen@) =~= Seq::<Seq<char>>::empty());
        assert(views(names@).take(0) =~= Seq::<Seq<char>>::empty());
        assert(string_decls(views(seen@)) =~= Seq::<(Seq<char>, Seq<char>)>::empty());
        assert(enc.names() =~= init.0);
    }
    let mut i: usize = 0;
    while i < names.len()
        invariant
            i <= names@.len(),
            bs == bound_views(bounds@),
            distinct_names(bs),
            views(seen@) == first_seen(views(names@).take(i as int)),
            asserts@ == bound_lines(views(seen@), bs, min_bound),
            (enc.names(), enc.decls@) == declare_all(init, string_decls(views(seen@))),
            enc.fresh == 0,
            enc.facts@ == Seq::<char>::empty(),
            init == (Seq::<Seq<char>>::empty(), Seq::<char>::empty()),
        decreases names.len() - i,
    {
        let name = &names[i];
        let mut dup = false;
        let mut k: usize = 0;
        while k < seen.len()
            invariant
                k <= seen@.len(),
                dup <==> exists|x: int| 0 <= x < k && views(seen@)[x] == name@,
            decreases seen.len() - k,
        {
            proof {
                assert(views(seen@)[k as int] == seen@[k as int]@);
            }
            if string_eq(&seen[k], name) {
                dup = true;
            }
            k += 1;
        }
        proof {
            assert(dup == views(seen@).contains(name@));
            let prefix = views(names@).take(i + 1);
            assert(prefix.drop_last() =~= views(names@).take(i as int));
            assert(prefix.last() == name@);
        }
        if !dup {
            let ghost old_seen = views(seen@);
            let ghost old_asserts = asserts@;
            let ghost st = (enc.names(), enc.decls@);
            seen.push(copy_string(name));
            assert(views(seen@) =~= old_seen.push(name@));
            let mut bound = min_bound;
            let mut j: usize = 0;
            while j < bounds.len()
                invariant
                    j <= bounds@.len(),
                    bs == bound_views(bounds@),
                    distinct_names(bs),
                    forall|x: int| 0 <= x < j && bs[x].0 == name@ ==> bound == larger(bs[x].1 as int, min_bound as int),
                    (forall|x: int| 0 <= x < j ==> bs[x].0 != name@) ==> bound == min_bound,
                decreases bounds.len() - j,
            {
                assert(bs[j as int] == (bounds@[j as int].0@, bounds@[j as int].1));
                if string_eq(&bounds[j].0, name) {
                    bound = max_i64(bounds[j].1, min_bound);
                }
                j += 1;
            }
            proof {
                if exists|x: int| 0 <= x < bs.len() && bs[x].0 == name@ {
                    let x = choose|x: int| 0 <= x < bs.len() && bs[x].0 == name@;
                    assert(bound == larger(bs[x].1 as int, min_bound as int));
                }
                assert(bound == length_limit(bs, name@, min_bound));
            }
            declare(&mut enc, "s:", name, "String");
            push_str(&mut asserts, "(assert (<= (str.len ");
            push_symbol(&mut asserts, "s:", name);
            push_str(&mut asserts, ") ");
            push_int(&mut asserts, bound);
            push_str(&mut asserts, "))\n");
            proof {
                let vs = views(seen@);
                assert(vs.drop_last() =~= old_seen);
                assert(asserts@ =~= bound_lines(vs, bs, min_bound));
                let reqs = string_decls(vs);
                assert(reqs.drop_last() =~= string_decls(old_seen));
                assert(reqs.last() == ("s:"@ + name@, "String"@));
            }
        }
        i += 1;
    }
    let ghost e1 = enc;
    let ghost vars = views(seen@);
    assert(views(names@).take(i as int) =~= views(names@));
    let sp = safety_bool_text(&mut enc, condition, false);
    let ghost e2 = enc;
    let cp = bool_text(&mut enc, condition);
    let ghost before = asserts@;
    push_str(&mut asserts, "(assert ");
    push_string(&mut asserts, &sp);
    push_str(&mut asserts, ")\n(assert ");
    push_string(&mut asserts, &cp);
    push_str(&mut asserts, ")\n");
    push_string(&mut asserts, &enc.facts);
    let mut script = copy_string(&enc.decls);
    push_string(&mut script, &asserts);
    proof {
        let p1 = safety_bool_piece(*condition, false, 0);
        let p2 = bool_piece(*condition, p1.after);
        assert(enc.facts@ =~= p1.facts + p2.facts);
        assert(script@ =~= query_script(*condition));
    }
    script
}

} // verus!

verus! {

#[verifier::external_type_specification]
#[verifier::external_body]
pub struct ExSolver(z3::Solver);

#[verifier::external_type_specification]
#[verifier::external_body]
pub struct ExModel(z3::Model);

/// The answer of a satisfiability check.
#[derive(Debug, Clone, Copy, PartialEq, Eq, Structural)]
pub enum SolverOutcome {
    Sat,
    Unsat,
    Unknown,
}

/// A new solver on the thread's Z3 context (`z3::Solver::new`).
#[verifier::external_body]
fn solver_new() -> z3::Solver {
    z3::Solver::new()
}

/// Sets the solver's `timeout` parameter, in milliseconds (`z3::Params::set_u32`
/// and `z3::Solver::set_params`).
#[verifier::external_body]
fn solver_set_timeout(solver: &z3::Solver, timeout_ms: u32) {
    let mut params = z3::Params::new();
    params.set_u32("timeout", timeout_ms);
    solver.set_params(&params);
}

/// Adds the declarations and assertions of an SMT-LIB2 script
/// (`z3::Solver::from_string`, which panics on a NUL character, hence the `requires`).
#[verifier::external_body]
fn solver_load(solver: &z3::Solver, script: &String)
    requires
        !script@.contains('\0'),
{
    solver.from_string(script.as_str());
}

/// Checks the solver's assertions (`z3::Solver::check`); the answer depends
/// on the solver and its time limit, so nothing is promised of it.
#[verifier::external_body]
fn solver_check(solver: &z3::Solver) -> SolverOutcome {
    match solver.check() {
        z3::SatResult::Sat => SolverOutcome::Sat,
        z3::SatResult::Unsat => SolverOutcome::Unsat,
        z3::SatResult::Unknown => SolverOutcome::Unknown,
    }
}

/// Z3's explanation of an unknown answer (`z3::Solver::get_reason_unknown`).
#[verifier::external_body]
fn solver_reason_unknown(solver: &z3::Solver) -> Option<String> {
    solver.get_reason_unknown()
}

/// The model of a satisfiable check (`z3::Solver::get_model`).
#[verifier::external_body]
fn solver_model(solver: &z3::Solver) -> Option<z3::Model> {
    solver.get_model()
}

/// The value the model gives the 64-bit vector constant `symbol`, completed
/// where the model leaves it open (`z3::Model::eval` and `BV::as_u64`); the
/// name becomes a C string, which panics on a NUL character, hence the `requires`.
#[verifier::external_body]
fn model_bits(model: &z3::Model, symbol: &String) -> Option<u64>
    requires
        !symbol@.contains('\0'),
{
    let constant = z3::ast::BV::new_const(symbol.as_str(), 64);
    match model.eval(&constant, true) {
        Some(value) => value.as_u64(),
        None => None,
    }
}

/// The value the model gives the string constant `symbol`, completed where
/// the model leaves it open (`z3::Model::eval` and `String::as_string`); the
/// name must hold no NUL character, as for `model_bits`.
#[verifier::external_body]
fn model_text(model: &z3::Model, symbol: &String) -> Option<String>
    requires
        !symbol@.contains('\0'),
{
    let constant = z3::ast::String::new_const(symbol.as_str());
    match model.eval(&constant, true) {
        Some(value) => value.as_string(),
        None => None,
    }
}

/// The value the model gives the array constant `symbol` with integer
/// (`int_keys`) or string indices and integer (`int_values`) or string
/// elements, printed (`z3::Model::eval` and `Display`); the name must hold
/// no NUL character, as for `model_bits`.
#[verifier::external_body]
fn model_array(model: &z3::Model, symbol: &String, int_keys: bool, int_values: bool) -> Option<String>
    requires
        !symbol@.contains('\0'),
{
    let domain = if int_keys { z3::Sort::bitvector(64) } else { z3::Sort::string() };
    let range = if int_values { z3::Sort::bitvector(64) } else { z3::Sort::string() };
    let constant = z3::ast::Array::new_const(symbol.as_str(), &domain, &range);
    match model.eval(&constant, true) {
        Some(value) => Some(format!("{}", value)),
        None => None,
    }
}

/// Whether `s` holds a NUL character.
fn has_nul(s: &String) -> (r: bool)
    ensures
        r == s@.contains('\0'),
{
    let chars = chars_of(s.as_str());
    let mut i: usize = 0;
    while i < chars.len()
        invariant
            i <= chars@.len(),
            chars@ == s@,
            forall|k: int| 0 <= k < i ==> chars@[k] != '\0',
        decreases chars.len() - i,
    {
        if chars[i] == '\0' {
            return true;
        }
        i += 1;
    }
    false
}

/// The satisfiability answer for an outcome: `true` for sat, `false` for
/// unsat, and for unknown the error with the solver's reason (or "unknown").
pub fn satisfiability_from(function: &str, outcome: SolverOutcome, reason: Option<String>) -> (r: Result<bool, SmtError>)
    ensures
        outcome == SolverOutcome::Sat ==> r == Ok::<bool, SmtError>(true),
        outcome == SolverOutcome::Unsat ==> r == Ok::<bool, SmtError>(false),
        outcome == SolverOutcome::Unknown ==> (r matches Err(SmtError::Unknown { function: f, reason: why }) && f@
            == function@ && why@ == (match reason {
            Some(x) => x@,
            None => "unknown"@,
        })),
{
    match outcome {
        SolverOutcome::Sat => Ok(true),
        SolverOutcome::Unsat => Ok(false),
        SolverOutcome::Unknown => Err(
            SmtError::Unknown {
                function: str_to_string(function),
                reason: match reason {
                    Some(x) => x,
                    None => str_to_string("unknown"),
                },
            },
        ),
    }
}

/// A solver loaded with the query for `condition`, and its answer; `None`
/// when the query cannot be handed to the solver.
fn run_query(condition: &BoolExpr, timeout_ms: u32) -> (r: Option<(z3::Solver, SolverOutcome)>)
    ensures
        r is None <==> query_script(*condition).contains('\0'),
{
    let script = build_query(condition);
    if has_nul(&script) {
        return None;
    }
    let solver = solver_new();
    solver_set_timeout(&solver, timeout_ms);
    solver_load(&solver, &script);
    let outcome = solver_check(&solver);
    Some((solver, outcome))
}

/// Whether `condition`, with its arithmetic defined, can hold, within the
/// default time limit.
pub fn is_satisfiable(function: &str, condition: &BoolExpr) -> (r: Result<bool, SmtError>)
    ensures
        query_script(*condition).contains('\0') ==> (r matches Err(SmtError::Unknown { function: f, reason: why })
            && f@ == function@ && why@ == "invalid query"@),
        r matches Err(SmtError::Unknown { function: f, .. }) ==> f@ == function@,
{
    is_satisfiable_with_timeout(function, condition, crate::limits::DEFAULT_SOLVER_TIMEOUT_MS)
}

/// Whether `condition`, with its arithmetic defined, can hold, within `timeout_ms`.
pub fn is_satisfiable_with_timeout(function: &str, condition: &BoolExpr, timeout_ms: u32) -> (r: Result<bool, SmtError>)
    ensures
        query_script(*condition).contains('\0') ==> (r matches Err(SmtError::Unknown { function: f, reason: why })
            && f@ == function@ && why@ == "invalid query"@),
        r matches Err(SmtError::Unknown { function: f, .. }) ==> f@ == function@,
{
    match run_query(condition, timeout_ms) {
        None => Err(SmtError::Unknown { function: str_to_string(function), reason: str_to_string("invalid query") }),
        Some((solver, outcome)) => {
            let reason = if outcome == SolverOutcome::Unknown { solver_reason_unknown(&solver) } else { None };
            satisfiability_from(function, outcome, reason)
        },
    }
}

/// The counterexample value of a variable of type `ty`, from what the model
/// gives its constant: the integer of the bits, the text, or the printed
/// collection; `Unconstrained` where the model gives nothing.
pub fn model_value_from(ty: Type, bits: Option<u64>, text: Option<String>) -> (r: ModelValue)
    ensures
        ty == Type::Int ==> r == (match bits {
            Some(b) => ModelValue::Int(b as i64),
            None => ModelValue::Unconstrained,
        }),
        ty == Type::Str ==> (match text {
            Some(t) => r matches ModelValue::Str(s) && s@ == t@,
            None => r == ModelValue::Unconstrained,
        }),
        ty != Type::Int && ty != Type::Str ==> (match text {
            Some(t) => r matches ModelValue::Collection(s) && s@ == t@,
            None => r == ModelValue::Unconstrained,
        }),
{
    match ty {
        Type::Int => match bits {
            Some(b) => ModelValue::Int(b as i64),
            None => ModelValue::Unconstrained,
        },
        Type::Str => match text {
            Some(t) => ModelValue::Str(t),
            None => ModelValue::Unconstrained,
        },
        _ => match text {
            Some(t) => ModelValue::Collection(t),
            None => ModelValue::Unconstrained,
        },
    }
}

/// A model value of the kind that a variable of type `ty` takes: an integer,
/// a string, or a printed collection, or no value at all.
pub open spec fn value_fits(ty: Type, v: ModelValue) -> bool {
    ||| v is Unconstrained
    ||| ty == Type::Int && v is Int
    ||| ty == Type::Str && v is Str
    ||| ty != Type::Int && ty != Type::Str && v is Collection
}

/// Some variable's name holds a NUL character, which no solver symbol can.
pub open spec fn names_hold_nul(variables: Seq<ModelVar>) -> bool {
    exists|i: int| 0 <= i < variables.len() && (#[trigger] variables[i]).name@.contains('\0')
}

/// The value of one variable in a model.
fn value_in_model(model: &z3::Model, var: &ModelVar) -> (r: ModelValue)
    requires
        !var.name@.contains('\0'),
    ensures
        value_fits(var.ty, r),
{
    let (prefix, int_keys, int_values) = match var.ty {
        Type::Int => ("i:", true, true),
        Type::Str => ("s:", true, false),
        Type::ArrayInt => ("ai:", true, true),
        Type::ArrayStr => ("as:", true, false),
        Type::HashInt => ("hi:", false, true),
        Type::HashStr => ("hs:", false, false),
    };
    let mut symbol = str_to_string(prefix);
    push_string(&mut symbol, &var.name);
    proof {
        reveal_strlit("i:");
        reveal_strlit("s:");
        reveal_strlit("ai:");
        reveal_strlit("as:");
        reveal_strlit("hi:");
        reveal_strlit("hs:");
        assert forall|k: int| 0 <= k < symbol@.len() implies symbol@[k] != '\0' by {
            if k < prefix@.len() {
                assert(symbol@[k] == prefix@[k]);
            } else {
                assert(symbol@[k] == var.name@[k - prefix@.len()]);
            }
        }
    }
    match var.ty {
        Type::Int => model_value_from(var.ty, model_bits(model, &symbol), None),
        Type::Str => model_value_from(var.ty, None, model_text(model, &symbol)),
        _ => model_value_from(var.ty, None, model_array(model, &symbol, int_keys, int_values)),
    }
}

/// A counterexample for `condition` within the default time limit: `None`
/// when it cannot hold, and otherwise a value for each of `variables`.
pub fn find_model(function: &str, condition: &BoolExpr, variables: &Vec<ModelVar>) -> (r: Result<
    Option<NameMap<ModelValue>>,
    SmtError,
>)
    ensures
        query_script(*condition).contains('\0') || names_hold_nul(variables@) ==> (r matches Err(
            SmtError::Unknown { function: f, reason: why },
        ) && f@ == function@ && why@ == "invalid query"@),
        r matches Ok(Some(m)) ==> m.wf() && forall|i: int|
            0 <= i < variables@.len() ==> m@.contains_key(#[trigger] variables@[i].name@),
        r matches Ok(Some(m)) ==> forall|k: Seq<char>|
            #[trigger] m@.contains_key(k) ==> exists|i: int| 0 <= i < variables@.len() && variables@[i].name@ == k,
        r matches Err(SmtError::Unknown { function: f, .. }) ==> f@ == function@,
{
    find_model_with_timeout(function, condition, variables, crate::limits::DEFAULT_SOLVER_TIMEOUT_MS)
}

/// A counterexample for `condition` within `timeout_ms`.
pub fn find_model_with_timeout(function: &str, condition: &BoolExpr, variables: &Vec<ModelVar>, timeout_ms: u32) -> (r:
    Result<Option<NameMap<ModelValue>>, SmtError>)
    ensures
        query_script(*condition).contains('\0') || names_hold_nul(variables@) ==> (r matches Err(
            SmtError::Unknown { function: f, reason: why },
        ) && f@ == function@ && why@ == "invalid query"@),
        r matches Ok(Some(m)) ==> m.wf() && forall|i: int|
            0 <= i < variables@.len() ==> m@.contains_key(#[trigger] variables@[i].name@),
        r matches Ok(Some(m)) ==> forall|k: Seq<char>|
            #[trigger] m@.contains_key(k) ==> exists|i: int| 0 <= i < variables@.len() && variables@[i].name@ == k,
        r matches Err(SmtError::Unknown { function: f, .. }) ==> f@ == function@,
{
    let mut k: usize = 0;
    while k < variables.len()
        invariant
            k <= variables@.len(),
            forall|j: int| 0 <= j < k ==> !(#[trigger] variables@[j]).name@.contains('\0'),
        decreases variables.len() - k,
    {
        if has_nul(&variables[k].name) {
            return Err(SmtError::Unknown { function: str_to_string(function), reason: str_to_string("invalid query") });
        }
        k += 1;
    }
    let (solver, outcome) = match run_query(condition, timeout_ms) {
        None => {
            return Err(SmtError::Unknown { function: str_to_string(function), reason: str_to_string("invalid query") });
        },
        Some(p) => p,
    };
    match outcome {
        SolverOutcome::Unsat => Ok(None),
        SolverOutcome::Unknown => {
            let reason = solver_reason_unknown(&solver);
            match satisfiability_from(function, outcome, reason) {
                Err(e) => Err(e),
                Ok(_) => Ok(None),
            }
        },
        SolverOutcome::Sat => {
            let model = solver_model(&solver);
            let mut assignments: NameMap<ModelValue> = NameMap::new();
            let mut i: usize = 0;
            while i < variables.len()
                invariant
                    i <= variables@.len(),
                    assignments.wf(),
                    forall|j: int| 0 <= j < i ==> assignments@.contains_key(#[trigger] variables@[j].name@),
                    forall|j: int| 0 <= j < variables@.len() ==> !(#[trigger] variables@[j]).name@.contains('\0'),
                    forall|k: Seq<char>|
                        #[trigger] assignments@.contains_key(k) ==> exists|j: int| 0 <= j < i && variables@[j].name@ == k,
                decreases variables.len() - i,
            {
                let value = match &model {
                    Some(m) => value_in_model(m, &variables[i]),
                    None => ModelValue::Unconstrained,
                };
                assignments.insert(copy_string(&variables[i].name), value);
                i += 1;
            }
            Ok(Some(assignments))
        },
    }
}

} // verus!
