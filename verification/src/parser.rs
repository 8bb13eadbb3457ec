//! A recursive-descent parser for the Perl subset: annotation expressions
//! and function bodies, with loops unrolled to nested conditionals.

use vstd::prelude::*;

use crate::ast::{stmt_view, stmts_view, StmtV, 
    all_wf, builtin_arity_ok, clone_expr, expr_view, expr_wf, exprs_view, extend_stmts, lemma_exprs_view, lemma_same_view,
    stmt_wf, stmts_wf, AccessKind, BinaryOp, Builtin, Expr, ExprV, FunctionAst, Stmt, UnaryOp,
};
use crate::lexer::{lexed, tok_view, token_view, token_views, tokenize, Sym, Tok, Token, TokenV};
use crate::text::{copy_string, decimal, push_str, push_string, push_u64, str_to_string, string_eq};

verus! {

/// A syntax error at a token position.
pub struct SyntaxError {
    pub pos: usize,
    pub message: String,
}

/// The result of parsing one phrase: the phrase and the position after it.
pub type Parsed<T> = Result<(T, usize), SyntaxError>;

fn fail<T>(pos: usize, message: &str) -> (r: Result<T, SyntaxError>)
    ensures
        r matches Err(e) && e.pos == pos && e.message@ == message@,
{
    Err(SyntaxError { pos, message: str_to_string(message) })
}

/// Token `p` is the symbol `s`.
pub open spec fn sym_at(toks: Seq<Token>, p: int, s: Sym) -> bool {
    &&& 0 <= p < toks.len()
    &&& toks[p].tok matches Tok::Sym(x)
    &&& x == s
}

fn is_sym(toks: &Vec<Token>, p: usize, s: Sym) -> (r: bool)
    ensures
        r == sym_at(toks@, p as int, s),
{
    if p < toks.len() {
        match &toks[p].tok {
            Tok::Sym(x) => *x == s,
            _ => false,
        }
    } else {
        false
    }
}

/// Token `p` is the symbol `s`, written right after the previous token.
fn is_glued_sym(toks: &Vec<Token>, p: usize, s: Sym) -> (r: bool)
    ensures
        r == glued_sym_at(toks@, p as int, s),
{
    is_sym(toks, p, s) && toks[p].glued
}

/// Token `p` is the bare word `w`.
fn is_word(toks: &Vec<Token>, p: usize, w: &str) -> (r: bool)
    ensures
        r == word_at(toks@, p as int, w@),
{
    if p < toks.len() {
        match &toks[p].tok {
            Tok::Ident(name) => {
                let ws = str_to_string(w);
                string_eq(name, &ws)
            },
            _ => false,
        }
    } else {
        false
    }
}

/// The position after the symbol `s` at `p`.
fn expect_sym(toks: &Vec<Token>, p: usize, s: Sym, message: &str) -> (r: Result<usize, SyntaxError>)
    requires
        p <= toks.len(),
    ensures
        r matches Ok(q) ==> q == p + 1 && q <= toks.len() && sym_at(toks@, p as int, s),
        r is Ok <==> sym_at(toks@, p as int, s),
        r matches Err(e) ==> e.pos == p && e.message@ == message@,
{
    if is_sym(toks, p, s) {
        Ok(p + 1)
    } else {
        fail(p, message)
    }
}

/// The outcome of parsing a phrase: its value and the position after it,
/// or the position and text of a syntax error.
pub type Outcome<T> = Result<(T, int), (int, Seq<char>)>;

/// Token `p` is the bare word `w`.
pub open spec fn word_at(toks: Seq<Token>, p: int, w: Seq<char>) -> bool {
    &&& 0 <= p < toks.len()
    &&& toks[p].tok matches Tok::Ident(n)
    &&& n@ == w
}

/// Token `p` is the symbol `s`, written right after the previous token.
pub open spec fn glued_sym_at(toks: Seq<Token>, p: int, s: Sym) -> bool {
    sym_at(toks, p, s) && toks[p].glued
}

/// The binary operator that token `p` writes at precedence `level` (0
/// binds loosest).
pub open spec fn infix(toks: Seq<Token>, p: int, level: int) -> Option<BinaryOp> {
    if p < 0 || p >= toks.len() {
        None
    } else {
        match toks[p].tok {
            Tok::Sym(s) => if level == 2 && s == Sym::OrOr {
                Some(BinaryOp::Or)
            } else if level == 3 && s == Sym::AndAnd {
                Some(BinaryOp::And)
            } else if level == 4 && s == Sym::Pipe {
                Some(BinaryOp::BitOr)
            } else if level == 5 && s == Sym::Caret {
                Some(BinaryOp::BitXor)
            } else if level == 6 && s == Sym::Amp {
                Some(BinaryOp::BitAnd)
            } else if level == 7 {
                match s {
                    Sym::EqEq => Some(BinaryOp::Eq),
                    Sym::Ne => Some(BinaryOp::Ne),
                    Sym::Spaceship => Some(BinaryOp::Spaceship),
                    Sym::Lt => Some(BinaryOp::Lt),
                    Sym::Le => Some(BinaryOp::Le),
                    Sym::Gt => Some(BinaryOp::Gt),
                    Sym::Ge => Some(BinaryOp::Ge),
                    _ => None,
                }
            } else if level == 8 {
                match s {
                    Sym::Shl => Some(BinaryOp::Shl),
                    Sym::Shr => Some(BinaryOp::Shr),
                    _ => None,
                }
            } else if level == 9 {
                match s {
                    Sym::Plus => Some(BinaryOp::Add),
                    Sym::Minus => Some(BinaryOp::Sub),
                    Sym::Dot => Some(BinaryOp::Concat),
                    _ => None,
                }
            } else if level == 10 {
                match s {
                    Sym::Star => Some(BinaryOp::Mul),
                    Sym::Slash => Some(BinaryOp::Div),
                    Sym::Percent => Some(BinaryOp::Mod),
                    _ => None,
                }
            } else {
                None
            },
            Tok::Ident(n) => if level == 0 && n@ == "or"@ {
                Some(BinaryOp::Or)
            } else if level == 1 && n@ == "and"@ {
                Some(BinaryOp::And)
            } else if level == 7 {
                if n@ == "eq"@ {
                    Some(BinaryOp::StrEq)
                } else if n@ == "ne"@ {
                    Some(BinaryOp::StrNe)
                } else if n@ == "lt"@ {
                    Some(BinaryOp::StrLt)
                } else if n@ == "gt"@ {
                    Some(BinaryOp::StrGt)
                } else if n@ == "le"@ {
                    Some(BinaryOp::StrLe)
                } else if n@ == "ge"@ {
                    Some(BinaryOp::StrGe)
                } else if n@ == "cmp"@ {
                    Some(BinaryOp::Cmp)
                } else {
                    None
                }
            } else if level == 10 && n@ == "x"@ {
                Some(BinaryOp::Repeat)
            } else {
                None
            },
            _ => None,
        }
    }
}

/// How a binary operator is written as a word, if it is.
pub open spec fn op_word(op: BinaryOp) -> Option<Seq<char>> {
    match op {
        BinaryOp::Or => Some("or"@),
        BinaryOp::And => Some("and"@),
        BinaryOp::StrEq => Some("eq"@),
        BinaryOp::StrNe => Some("ne"@),
        BinaryOp::StrLt => Some("lt"@),
        BinaryOp::StrGt => Some("gt"@),
        BinaryOp::StrLe => Some("le"@),
        BinaryOp::StrGe => Some("ge"@),
        BinaryOp::Cmp => Some("cmp"@),
        BinaryOp::Repeat => Some("x"@),
        _ => None,
    }
}

/// The precedence level of a binary operator written as a word (0 binds loosest).
pub open spec fn word_level(op: BinaryOp) -> int {
    match op {
        BinaryOp::Or => 0,
        BinaryOp::And => 1,
        BinaryOp::Repeat => 10,
        _ => 7,
    }
}

/// The symbol that writes a binary operator of levels 2 to 10, if any.
pub open spec fn op_symbol(op: BinaryOp) -> Option<Sym> {
    match op {
        BinaryOp::Or => Some(Sym::OrOr),
        BinaryOp::And => Some(Sym::AndAnd),
        BinaryOp::BitOr => Some(Sym::Pipe),
        BinaryOp::BitXor => Some(Sym::Caret),
        BinaryOp::BitAnd => Some(Sym::Amp),
        BinaryOp::Eq => Some(Sym::EqEq),
        BinaryOp::Ne => Some(Sym::Ne),
        BinaryOp::Spaceship => Some(Sym::Spaceship),
        BinaryOp::Lt => Some(Sym::Lt),
        BinaryOp::Le => Some(Sym::Le),
        BinaryOp::Gt => Some(Sym::Gt),
        BinaryOp::Ge => Some(Sym::Ge),
        BinaryOp::Shl => Some(Sym::Shl),
        BinaryOp::Shr => Some(Sym::Shr),
        BinaryOp::Add => Some(Sym::Plus),
        BinaryOp::Sub => Some(Sym::Minus),
        BinaryOp::Concat => Some(Sym::Dot),
        BinaryOp::Mul => Some(Sym::Star),
        BinaryOp::Div => Some(Sym::Slash),
        BinaryOp::Mod => Some(Sym::Percent),
        _ => None,
    }
}

/// The precedence level of a binary operator written as a symbol.
pub open spec fn symbol_level(op: BinaryOp) -> int {
    match op {
        BinaryOp::Or => 2,
        BinaryOp::And => 3,
        BinaryOp::BitOr => 4,
        BinaryOp::BitXor => 5,
        BinaryOp::BitAnd => 6,
        BinaryOp::Shl | BinaryOp::Shr => 8,
        BinaryOp::Add | BinaryOp::Sub | BinaryOp::Concat => 9,
        BinaryOp::Mul | BinaryOp::Div | BinaryOp::Mod => 10,
        _ => 7,
    }
}

/// Law: an infix operator read at a token is the operator that the token
/// writes (its word or its symbol), at that operator's level.
pub proof fn law_infix_is_what_the_token_writes(toks: Seq<Token>, p: int, level: int)
    ensures
        infix(toks, p, level) matches Some(op) ==> 0 <= p < toks.len() && match toks[p].tok {
            Tok::Ident(n) => op_word(op) == Some(n@) && word_level(op) == level,
            Tok::Sym(s) => op_symbol(op) == Some(s) && symbol_level(op) == level,
            _ => false,
        },
{
}

/// Law: each operator word, at its level, reads as its operator.
pub proof fn law_operator_words_are_read(op: BinaryOp, toks: Seq<Token>, p: int)
    requires
        op_word(op) is Some,
        word_at(toks, p, op_word(op)->0),
    ensures
        infix(toks, p, word_level(op)) == Some(op),
{
    reveal_strlit("or");
    reveal_strlit("and");
    reveal_strlit("eq");
    reveal_strlit("ne");
    reveal_strlit("lt");
    reveal_strlit("gt");
    reveal_strlit("le");
    reveal_strlit("ge");
    reveal_strlit("cmp");
    reveal_strlit("x");
    assert("eq"@[0] != "ne"@[0]);
    assert("eq"@[0] != "lt"@[0]);
    assert("eq"@[0] != "gt"@[0]);
    assert("eq"@[0] != "le"@[0]);
    assert("eq"@[0] != "ge"@[0]);
    assert("ne"@[0] != "lt"@[0]);
    assert("ne"@[0] != "gt"@[0]);
    assert("ne"@[0] != "le"@[0]);
    assert("ne"@[0] != "ge"@[0]);
    assert("lt"@[0] != "gt"@[0]);
    assert("lt"@[1] != "le"@[1]);
    assert("lt"@[0] != "ge"@[0]);
    assert("gt"@[0] != "le"@[0]);
    assert("gt"@[1] != "ge"@[1]);
    assert("le"@[0] != "ge"@[0]);
}

/// Law: each operator symbol, at its level, reads as its operator.
pub proof fn law_operator_symbols_are_read(op: BinaryOp, toks: Seq<Token>, p: int)
    requires
        op_symbol(op) is Some,
        sym_at(toks, p, op_symbol(op)->0),
    ensures
        infix(toks, p, symbol_level(op)) == Some(op),
{
}

/// The prefix operator at `p`, if any.
pub open spec fn prefix_op(toks: Seq<Token>, p: int) -> Option<UnaryOp> {
    if sym_at(toks, p, Sym::Bang) || word_at(toks, p, "not"@) {
        Some(UnaryOp::Not)
    } else if sym_at(toks, p, Sym::Minus) {
        Some(UnaryOp::Neg)
    } else if sym_at(toks, p, Sym::Tilde) {
        Some(UnaryOp::BitNot)
    } else {
        None
    }
}

/// Law: a prefix operator read at a token is the one the token writes:
/// `!` or `not` negate a condition, `-` negates a number, `~` complements bits.
pub proof fn law_prefix_is_what_the_token_writes(toks: Seq<Token>, p: int)
    ensures
        prefix_op(toks, p) == Some(UnaryOp::Not) ==> sym_at(toks, p, Sym::Bang) || word_at(toks, p, "not"@),
        prefix_op(toks, p) == Some(UnaryOp::Neg) ==> sym_at(toks, p, Sym::Minus),
        prefix_op(toks, p) == Some(UnaryOp::BitNot) ==> sym_at(toks, p, Sym::Tilde),
        sym_at(toks, p, Sym::Bang) || word_at(toks, p, "not"@) ==> prefix_op(toks, p) == Some(UnaryOp::Not),
        sym_at(toks, p, Sym::Minus) ==> prefix_op(toks, p) == Some(UnaryOp::Neg),
        sym_at(toks, p, Sym::Tilde) ==> prefix_op(toks, p) == Some(UnaryOp::BitNot),
{
}

/// The grammar of expressions, read from token `p`: a conditional
/// `c ? a : b`, with the branches and the condition read as the binary
/// operators of every level.
pub open spec fn grammar_ternary(toks: Seq<Token>, p: int) -> Outcome<ExprV>
    decreases toks.len() - p, 20nat,
{
    if p < 0 || p > toks.len() {
        Err((p, Seq::empty()))
    } else {
        match grammar_level(toks, p, 0) {
            Err(e) => Err(e),
            Ok((c, p1)) => if p1 <= p || p1 > toks.len() {
                Err((p, Seq::empty()))
            } else if !sym_at(toks, p1, Sym::Question) {
                Ok((c, p1))
            } else {
                match grammar_level(toks, p1 + 1, 0) {
                    Err(e) => Err(e),
                    Ok((t, p2)) => if p2 <= p1 + 1 || p2 > toks.len() {
                        Err((p, Seq::empty()))
                    } else if !sym_at(toks, p2, Sym::Colon) {
                        Err((p2, "expected `:` in conditional expression"@))
                    } else {
                        match grammar_ternary(toks, p2 + 1) {
                            Err(e) => Err(e),
                            Ok((f, p4)) => Ok((ExprV::Ternary(Box::new(c), Box::new(t), Box::new(f)), p4)),
                        }
                    }
                }
            }
        }
    }
}

/// The binary operators from `level` up: `**` (level 11) groups to the
/// right, the others to the left.
pub open spec fn grammar_level(toks: Seq<Token>, p: int, level: int) -> Outcome<ExprV>
    decreases toks.len() - p, 15 - level,
{
    if p < 0 || p > toks.len() || level < 0 || level > 11 {
        Err((p, Seq::empty()))
    } else if level == 11 {
        match grammar_unary(toks, p) {
            Err(e) => Err(e),
            Ok((l, q)) => if q <= p || q > toks.len() {
                Err((p, Seq::empty()))
            } else if !sym_at(toks, q, Sym::Pow) {
                Ok((l, q))
            } else {
                match grammar_level(toks, q + 1, 11) {
                    Err(e) => Err(e),
                    Ok((r, q2)) => Ok((ExprV::Binary(Box::new(l), BinaryOp::Pow, Box::new(r)), q2)),
                }
            }
        }
    } else {
        match grammar_level(toks, p, level + 1) {
            Err(e) => Err(e),
            Ok((first, q)) => if q <= p || q > toks.len() {
                Err((p, Seq::empty()))
            } else {
                grammar_level_rest(toks, q, level, first)
            },
        }
    }
}

/// The operators of `level` that follow `left`, which ends before `q`,
/// grouped to the left.
pub open spec fn grammar_level_rest(toks: Seq<Token>, q: int, level: int, left: ExprV) -> Outcome<ExprV>
    decreases toks.len() - q, 0nat,
{
    if q < 0 || q > toks.len() || level < 0 || level >= 11 {
        Err((q, Seq::empty()))
    } else {
        match infix(toks, q, level) {
            None => Ok((left, q)),
            Some(op) => match grammar_level(toks, q + 1, level + 1) {
                Err(e) => Err(e),
                Ok((right, q2)) => if q2 <= q + 1 || q2 > toks.len() {
                    Err((q, Seq::empty()))
                } else {
                    grammar_level_rest(toks, q2, level, ExprV::Binary(Box::new(left), op, Box::new(right)))
                },
            },
        }
    }
}

/// A prefix operator applied to a unary expression, or a primary.
pub open spec fn grammar_unary(toks: Seq<Token>, p: int) -> Outcome<ExprV>
    decreases toks.len() - p, 3nat,
{
    if p < 0 || p > toks.len() {
        Err((p, Seq::empty()))
    } else {
        match prefix_op(toks, p) {
            Some(op) => match grammar_unary(toks, p + 1) {
                Err(e) => Err(e),
                Ok((inner, q)) => Ok((ExprV::Unary(op, Box::new(inner)), q)),
            },
            None => grammar_primary(toks, p),
        }
    }
}

/// The arguments of a call of the builtin `f`, where `substr` with two
/// arguments takes the rest of the string.
pub open spec fn builtin_args(f: Builtin, args: Seq<ExprV>) -> Seq<ExprV> {
    if f == Builtin::Substr && args.len() == 2 {
        args.push(ExprV::Binary(Box::new(ExprV::Builtin(Builtin::Length, seq![args[0]])), BinaryOp::Sub, Box::new(args[1])))
    } else {
        args
    }
}

/// A literal, a variable, an element access, a call, or a parenthesized
/// expression.
pub open spec fn grammar_primary(toks: Seq<Token>, p: int) -> Outcome<ExprV>
    decreases toks.len() - p, 2nat,
{
    if p < 0 || p > toks.len() {
        Err((p, Seq::empty()))
    } else if p == toks.len() {
        Err((p, "expected an expression"@))
    } else {
        match toks[p].tok {
            Tok::Int(v) => Ok((ExprV::Int(v), p + 1)),
            Tok::Str(s) => Ok((ExprV::Str(s@), p + 1)),
            Tok::Scalar(name) => if glued_sym_at(toks, p + 1, Sym::LBracket) {
                match grammar_access(toks, p + 2, Sym::RBracket) {
                    Err(e) => Err(e),
                    Ok((i, q)) => Ok((ExprV::Access(AccessKind::Array, name@, Box::new(i)), q)),
                }
            } else if glued_sym_at(toks, p + 1, Sym::LBrace) {
                match grammar_access(toks, p + 2, Sym::RBrace) {
                    Err(e) => Err(e),
                    Ok((k, q)) => Ok((ExprV::Access(AccessKind::Hash, name@, Box::new(k)), q)),
                }
            } else {
                Ok((ExprV::Var(name@), p + 1))
            },
            Tok::Ident(name) => if name@ == "scalar"@ {
                match grammar_array_arg(toks, p + 1) {
                    Err(e) => Err(e),
                    Ok((a, q)) => Ok((ExprV::Builtin(Builtin::Scalar, seq![ExprV::Var(a)]), q)),
                }
            } else if name@ == "pop"@ {
                match grammar_array_arg(toks, p + 1) {
                    Err(e) => Err(e),
                    Ok((a, q)) => Ok((ExprV::Pop(a), q)),
                }
            } else {
                match grammar_call_args(toks, p + 1) {
                    Err(e) => Err(e),
                    Ok((args, q)) => match builtin_of(name@) {
                        Some(f) => if builtin_arity_ok(f, builtin_args(f, args).len()) {
                            Ok((ExprV::Builtin(f, builtin_args(f, args)), q))
                        } else {
                            Err((p, "wrong number of arguments to a builtin"@))
                        },
                        None => Ok((ExprV::Call(name@, args), q)),
                    },
                }
            },
            Tok::Sym(Sym::LParen) => match grammar_ternary(toks, p + 1) {
                Err(e) => Err(e),
                Ok((e, q)) => if q <= p + 1 || q > toks.len() {
                    Err((p, Seq::empty()))
                } else if sym_at(toks, q, Sym::RParen) {
                    Ok((e, q + 1))
                } else {
                    Err((q, "expected `)`"@))
                },
            },
            _ => Err((p, "expected an expression"@)),
        }
    }
}

/// A parenthesized, comma-separated argument list from `(` at `p`.
pub open spec fn grammar_call_args(toks: Seq<Token>, p: int) -> Outcome<Seq<ExprV>>
    decreases toks.len() - p, 1nat,
{
    if p < 0 || p > toks.len() {
        Err((p, Seq::empty()))
    } else if !sym_at(toks, p, Sym::LParen) {
        Err((p, "expected `(`"@))
    } else if sym_at(toks, p + 1, Sym::RParen) {
        Ok((Seq::empty(), p + 2))
    } else {
        grammar_args_rest(toks, p + 1, Seq::empty())
    }
}

/// The arguments from `q` on, after the arguments `done`.
pub open spec fn grammar_args_rest(toks: Seq<Token>, q: int, done: Seq<ExprV>) -> Outcome<Seq<ExprV>>
    decreases toks.len() - q, 22nat,
{
    if q < 0 || q > toks.len() {
        Err((q, Seq::empty()))
    } else {
        match grammar_ternary(toks, q) {
            Err(e) => Err(e),
            Ok((arg, q2)) => if q2 <= q || q2 > toks.len() {
                Err((q, Seq::empty()))
            } else if sym_at(toks, q2, Sym::Comma) {
                grammar_args_rest(toks, q2 + 1, done.push(arg))
            } else if sym_at(toks, q2, Sym::RParen) {
                Ok((done.push(arg), q2 + 1))
            } else {
                Err((q2, "expected `)` after arguments"@))
            },
        }
    }
}

/// `(@name)`, as taken by `scalar` and `pop`.
pub open spec fn grammar_array_arg(toks: Seq<Token>, p: int) -> Outcome<Seq<char>> {
    if !sym_at(toks, p, Sym::LParen) {
        Err((p, "expected `(`"@))
    } else if p + 1 >= toks.len() {
        Err((p + 1, "expected an array"@))
    } else {
        match toks[p + 1].tok {
            Tok::ArrayName(n) => if sym_at(toks, p + 2, Sym::RParen) {
                Ok((n@, p + 3))
            } else {
                Err((p + 2, "expected `)`"@))
            },
            _ => Err((p + 1, "expected an array"@)),
        }
    }
}

/// The index or key of `$a[...]` or `$h{...}` from `p` up to `close`: a
/// bare word (a variable name) or an expression.
pub open spec fn grammar_access(toks: Seq<Token>, p: int, close: Sym) -> Outcome<ExprV>
    decreases toks.len() - p, 21nat,
{
    if p < 0 || p > toks.len() {
        Err((p, Seq::empty()))
    } else if p < toks.len() && sym_at(toks, p + 1, close) && toks[p].tok is Ident {
        Ok((ExprV::Var(toks[p].tok->Ident_0@), p + 2))
    } else {
        match grammar_ternary(toks, p) {
            Err(e) => Err(e),
            Ok((e, q)) => if q <= p || q > toks.len() {
                Err((p, Seq::empty()))
            } else if sym_at(toks, q, close) {
                Ok((e, q + 1))
            } else {
                Err((q, "expected the end of the subscript"@))
            },
        }
    }
}

/// Two token lists carry the same tokens, each glued or not alike; only
/// their positions in the text may differ.
pub open spec fn same_tokens(a: Seq<Token>, b: Seq<Token>) -> bool {
    &&& a.len() == b.len()
    &&& forall|i: int| 0 <= i < a.len() ==> #[trigger] tok_view(a[i].tok) == tok_view(b[i].tok) && a[i].glued == b[i].glued
}

/// Lists with the same token values carry the same tokens.
proof fn lemma_same_tokens(a: Seq<Token>, b: Seq<Token>)
    requires
        token_views(a) == token_views(b),
    ensures
        same_tokens(a, b),
{
    assert(a.len() == token_views(a).len());
    assert forall|i: int| 0 <= i < a.len() implies #[trigger] tok_view(a[i].tok) == tok_view(b[i].tok) && a[i].glued
        == b[i].glued by {
        assert(token_views(a)[i] == token_view(a[i]));
        assert(token_views(b)[i] == token_view(b[i]));
    }
}

/// The tokens at `p` read alike in both lists.
proof fn lemma_tok_at(a: Seq<Token>, b: Seq<Token>, p: int)
    requires
        same_tokens(a, b),
    ensures
        forall|s: Sym| sym_at(a, p, s) == sym_at(b, p, s),
        forall|s: Sym| glued_sym_at(a, p, s) == glued_sym_at(b, p, s),
        forall|w: Seq<char>| word_at(a, p, w) == word_at(b, p, w),
        forall|level: int| infix(a, p, level) == infix(b, p, level),
        prefix_op(a, p) == prefix_op(b, p),
        0 <= p < a.len() ==> tok_view(a[p].tok) == tok_view(b[p].tok),
{
    if 0 <= p < a.len() {
        assert(tok_view(a[p].tok) == tok_view(b[p].tok));
    }
}

proof fn lemma_ternary_same(a: Seq<Token>, b: Seq<Token>, p: int)
    requires
        same_tokens(a, b),
    ensures
        grammar_ternary(a, p) == grammar_ternary(b, p),
    decreases a.len() - p, 20nat,
{
    if 0 <= p <= a.len() {
        lemma_level_same(a, b, p, 0);
        if let Ok((c, p1)) = grammar_level(a, p, 0) {
            if p < p1 <= a.len() {
                lemma_tok_at(a, b, p1);
                if sym_at(a, p1, Sym::Question) {
                    lemma_level_same(a, b, p1 + 1, 0);
                    if let Ok((t, p2)) = grammar_level(a, p1 + 1, 0) {
                        if p1 + 1 < p2 <= a.len() {
                            lemma_tok_at(a, b, p2);
                            if sym_at(a, p2, Sym::Colon) {
                                lemma_ternary_same(a, b, p2 + 1);
                            }
                        }
                    }
                }
            }
        }
    }
}

proof fn lemma_level_same(a: Seq<Token>, b: Seq<Token>, p: int, level: int)
    requires
        same_tokens(a, b),
    ensures
        grammar_level(a, p, level) == grammar_level(b, p, level),
    decreases a.len() - p, 15 - level,
{
    if 0 <= p <= a.len() && 0 <= level <= 11 {
        if level == 11 {
            lemma_unary_same(a, b, p);
            if let Ok((l, q)) = grammar_unary(a, p) {
                if p < q <= a.len() {
                    lemma_tok_at(a, b, q);
                    if sym_at(a, q, Sym::Pow) {
                        lemma_level_same(a, b, q + 1, 11);
                    }
                }
            }
        } else {
            lemma_level_same(a, b, p, level + 1);
            if let Ok((first, q)) = grammar_level(a, p, level + 1) {
                if p < q <= a.len() {
                    lemma_level_rest_same(a, b, q, level, first);
                }
            }
        }
    }
}

proof fn lemma_level_rest_same(a: Seq<Token>, b: Seq<Token>, q: int, level: int, left: ExprV)
    requires
        same_tokens(a, b),
    ensures
        grammar_level_rest(a, q, level, left) == grammar_level_rest(b, q, level, left),
    decreases a.len() - q, 0nat,
{
    if 0 <= q <= a.len() && 0 <= level < 11 {
        lemma_tok_at(a, b, q);
        if let Some(op) = infix(a, q, level) {
            lemma_level_same(a, b, q + 1, level + 1);
            if let Ok((right, q2)) = grammar_level(a, q + 1, level + 1) {
                if q + 1 < q2 <= a.len() {
                    lemma_level_rest_same(a, b, q2, level, ExprV::Binary(Box::new(left), op, Box::new(right)));
                }
            }
        }
    }
}

proof fn lemma_unary_same(a: Seq<Token>, b: Seq<Token>, p: int)
    requires
        same_tokens(a, b),
    ensures
        grammar_unary(a, p) == grammar_unary(b, p),
    decreases a.len() - p, 3nat,
{
    if 0 <= p <= a.len() {
        lemma_tok_at(a, b, p);
        if prefix_op(a, p) is Some {
            lemma_unary_same(a, b, p + 1);
        } else {
            lemma_primary_same(a, b, p);
        }
    }
}

#[verifier::rlimit(80)]
#[verifier::spinoff_prover]
proof fn lemma_primary_same(a: Seq<Token>, b: Seq<Token>, p: int)
    requires
        same_tokens(a, b),
    ensures
        grammar_primary(a, p) == grammar_primary(b, p),
    decreases a.len() - p, 2nat,
{
    if 0 <= p < a.len() {
        lemma_tok_at(a, b, p);
        lemma_tok_at(a, b, p + 1);
        match a[p].tok {
            Tok::Scalar(n) => {
                assert(b[p].tok matches Tok::Scalar(m) && m@ == n@);
                if p + 2 <= a.len() {
                    lemma_access_same(a, b, p + 2, Sym::RBracket);
                    lemma_access_same(a, b, p + 2, Sym::RBrace);
                }
            },
            Tok::Ident(n) => {
                assert(b[p].tok matches Tok::Ident(m) && m@ == n@);
                lemma_call_args_same(a, b, p + 1);
                lemma_array_arg_same(a, b, p + 1);
            },
            Tok::Int(v) => {
                assert(b[p].tok == Tok::Int(v));
            },
            Tok::Str(t) => {
                assert(b[p].tok matches Tok::Str(u) && u@ == t@);
            },
            Tok::Sym(Sym::LParen) => {
                lemma_ternary_same(a, b, p + 1);
                if let Ok((e, q)) = grammar_ternary(a, p + 1) {
                    lemma_tok_at(a, b, q);
                }
            },
            _ => {},
        }
    }
}

proof fn lemma_array_arg_same(a: Seq<Token>, b: Seq<Token>, p: int)
    requires
        same_tokens(a, b),
    ensures
        grammar_array_arg(a, p) == grammar_array_arg(b, p),
{
    lemma_tok_at(a, b, p);
    lemma_tok_at(a, b, p + 1);
    lemma_tok_at(a, b, p + 2);
    if sym_at(a, p, Sym::LParen) && p + 1 < a.len() {
        if let Tok::ArrayName(n) = a[p + 1].tok {
            assert(b[p + 1].tok matches Tok::ArrayName(m) && m@ == n@);
        } else {
            assert(!(b[p + 1].tok is ArrayName));
        }
    }
}

proof fn lemma_call_args_same(a: Seq<Token>, b: Seq<Token>, p: int)
    requires
        same_tokens(a, b),
    ensures
        grammar_call_args(a, p) == grammar_call_args(b, p),
    decreases a.len() - p, 1nat,
{
    if 0 <= p <= a.len() {
        lemma_tok_at(a, b, p);
        lemma_tok_at(a, b, p + 1);
        if sym_at(a, p, Sym::LParen) && !sym_at(a, p + 1, Sym::RParen) {
            lemma_args_rest_same(a, b, p + 1, Seq::empty());
        }
    }
}

proof fn lemma_args_rest_same(a: Seq<Token>, b: Seq<Token>, q: int, done: Seq<ExprV>)
    requires
        same_tokens(a, b),
    ensures
        grammar_args_rest(a, q, done) == grammar_args_rest(b, q, done),
    decreases a.len() - q, 22nat,
{
    if 0 <= q <= a.len() {
        lemma_ternary_same(a, b, q);
        if let Ok((arg, q2)) = grammar_ternary(a, q) {
            if q < q2 <= a.len() {
                lemma_tok_at(a, b, q2);
                if sym_at(a, q2, Sym::Comma) {
                    lemma_args_rest_same(a, b, q2 + 1, done.push(arg));
                }
            }
        }
    }
}

proof fn lemma_access_same(a: Seq<Token>, b: Seq<Token>, p: int, close: Sym)
    requires
        same_tokens(a, b),
    ensures
        grammar_access(a, p, close) == grammar_access(b, p, close),
    decreases a.len() - p, 21nat,
{
    if 0 <= p <= a.len() {
        lemma_tok_at(a, b, p);
        lemma_tok_at(a, b, p + 1);
        lemma_ternary_same(a, b, p);
        if let Ok((e, q)) = grammar_ternary(a, p) {
            lemma_tok_at(a, b, q);
        }
    }
}

/// Token lists with the same token values read as the same expression.
pub proof fn lemma_grammar_by_views(a: Seq<Token>, b: Seq<Token>)
    requires
        token_views(a) == token_views(b),
    ensures
        grammar_ternary(a, 0) == grammar_ternary(b, 0),
        a.len() == b.len(),
{
    lemma_same_tokens(a, b);
    lemma_ternary_same(a, b, 0);
}

/// `r` is the outcome `o`, the expression taken by its value.
pub open spec fn parsed_as(r: Parsed<Expr>, o: Outcome<ExprV>) -> bool {
    match (r, o) {
        (Ok((e, q)), Ok((v, q2))) => expr_view(e) == v && q == q2,
        (Err(err), Err((pos, msg))) => err.pos == pos && err.message@ == msg,
        _ => false,
    }
}

/// `r` is the outcome `o`, the arguments taken by their values.
pub open spec fn args_parsed_as(r: Parsed<Vec<Expr>>, o: Outcome<Seq<ExprV>>) -> bool {
    match (r, o) {
        (Ok((args, q)), Ok((vs, q2))) => exprs_view(args@) == vs && q == q2,
        (Err(err), Err((pos, msg))) => err.pos == pos && err.message@ == msg,
        _ => false,
    }
}

/// The binary operator at `p` that binds at `level` (0 binds loosest).
fn infix_at(toks: &Vec<Token>, p: usize, level: u8) -> (r: Option<BinaryOp>)
    ensures
        r is Some ==> p < toks.len(),
        r == infix(toks@, p as int, level as int),
{
    if p >= toks.len() {
        return None;
    }
    match &toks[p].tok {
        Tok::Sym(s) => {
            let s = *s;
            match level {
                2 => if s == Sym::OrOr { Some(BinaryOp::Or) } else { None },
                3 => if s == Sym::AndAnd { Some(BinaryOp::And) } else { None },
                4 => if s == Sym::Pipe { Some(BinaryOp::BitOr) } else { None },
                5 => if s == Sym::Caret { Some(BinaryOp::BitXor) } else { None },
                6 => if s == Sym::Amp { Some(BinaryOp::BitAnd) } else { None },
                7 => match s {
                    Sym::EqEq => Some(BinaryOp::Eq),
                    Sym::Ne => Some(BinaryOp::Ne),
                    Sym::Spaceship => Some(BinaryOp::Spaceship),
                    Sym::Lt => Some(BinaryOp::Lt),
                    Sym::Le => Some(BinaryOp::Le),
                    Sym::Gt => Some(BinaryOp::Gt),
                    Sym::Ge => Some(BinaryOp::Ge),
                    _ => None,
                },
                8 => match s {
                    Sym::Shl => Some(BinaryOp::Shl),
                    Sym::Shr => Some(BinaryOp::Shr),
                    _ => None,
                },
                9 => match s {
                    Sym::Plus => Some(BinaryOp::Add),
                    Sym::Minus => Some(BinaryOp::Sub),
                    Sym::Dot => Some(BinaryOp::Concat),
                    _ => None,
                },
                10 => match s {
                    Sym::Star => Some(BinaryOp::Mul),
                    Sym::Slash => Some(BinaryOp::Div),
                    Sym::Percent => Some(BinaryOp::Mod),
                    _ => None,
                },
                _ => None,
            }
        },
        Tok::Ident(_) => {
            if level == 0 && is_word(toks, p, "or") {
                Some(BinaryOp::Or)
            } else if level == 1 && is_word(toks, p, "and") {
                Some(BinaryOp::And)
            } else if level == 7 {
                if is_word(toks, p, "eq") {
                    Some(BinaryOp::StrEq)
                } else if is_word(toks, p, "ne") {
                    Some(BinaryOp::StrNe)
                } else if is_word(toks, p, "lt") {
                    Some(BinaryOp::StrLt)
                } else if is_word(toks, p, "gt") {
                    Some(BinaryOp::StrGt)
                } else if is_word(toks, p, "le") {
                    Some(BinaryOp::StrLe)
                } else if is_word(toks, p, "ge") {
                    Some(BinaryOp::StrGe)
                } else if is_word(toks, p, "cmp") {
                    Some(BinaryOp::Cmp)
                } else {
                    None
                }
            } else if level == 10 && is_word(toks, p, "x") {
                Some(BinaryOp::Repeat)
            } else {
                None
            }
        },
        _ => None,
    }
}

/// An expression, with the conditional operator `c ? a : b` at its top.
pub fn parse_ternary(toks: &Vec<Token>, p: usize) -> (r: Parsed<Expr>)
    requires
        p <= toks.len(),
    ensures
        r matches Ok((e, q)) ==> p < q <= toks.len() && expr_wf(e),
        parsed_as(r, grammar_ternary(toks@, p as int)),
    decreases toks.len() - p, 20nat,
{
    let (condition, p1) = parse_level(toks, p, 0)?;
    if is_sym(toks, p1, Sym::Question) {
        let (then_expr, p2) = parse_level(toks, p1 + 1, 0)?;
        let p3 = expect_sym(toks, p2, Sym::Colon, "expected `:` in conditional expression")?;
        let (else_expr, p4) = parse_ternary(toks, p3)?;
        Ok((
            Expr::Ternary {
                condition: Box::new(condition),
                then_expr: Box::new(then_expr),
                else_expr: Box::new(else_expr),
            },
            p4,
        ))
    } else {
        Ok((condition, p1))
    }
}

/// The binary operators from `level` up; `**` (level 11) groups to the
/// right, the others to the left.
fn parse_level(toks: &Vec<Token>, p: usize, level: u8) -> (r: Parsed<Expr>)
    requires
        p <= toks.len(),
        level <= 11,
    ensures
        r matches Ok((e, q)) ==> p < q <= toks.len() && expr_wf(e),
        parsed_as(r, grammar_level(toks@, p as int, level as int)),
    decreases toks.len() - p, 15 - level,
{
    if level == 11 {
        let (left, q) = parse_unary(toks, p)?;
        if is_sym(toks, q, Sym::Pow) {
            let (right, q2) = parse_level(toks, q + 1, 11)?;
            return Ok((Expr::Binary { left: Box::new(left), op: BinaryOp::Pow, right: Box::new(right) }, q2));
        }
        return Ok((left, q));
    }
    let (first, q0) = parse_level(toks, p, level + 1)?;
    let mut left = first;
    let mut q = q0;
    loop
        invariant
            p < q <= toks.len(),
            level < 11,
            expr_wf(left),
            grammar_level(toks@, p as int, level as int) == grammar_level_rest(toks@, q as int, level as int, expr_view(left)),
        decreases toks.len() - q,
    {
        match infix_at(toks, q, level) {
            Some(op) => {
                let (right, q2) = parse_level(toks, q + 1, level + 1)?;
                left = Expr::Binary { left: Box::new(left), op, right: Box::new(right) };
                q = q2;
            },
            None => {
                return Ok((left, q));
            },
        }
    }
}

/// A prefix operator (`!`, `-`, `~`, `not`) applied to a unary expression, or a primary.
fn parse_unary(toks: &Vec<Token>, p: usize) -> (r: Parsed<Expr>)
    requires
        p <= toks.len(),
    ensures
        r matches Ok((e, q)) ==> p < q <= toks.len() && expr_wf(e),
        parsed_as(r, grammar_unary(toks@, p as int)),
    decreases toks.len() - p, 3nat,
{
    let op = if is_sym(toks, p, Sym::Bang) || is_word(toks, p, "not") {
        Some(UnaryOp::Not)
    } else if is_sym(toks, p, Sym::Minus) {
        Some(UnaryOp::Neg)
    } else if is_sym(toks, p, Sym::Tilde) {
        Some(UnaryOp::BitNot)
    } else {
        None
    };
    match op {
        Some(op) => {
            let (inner, q) = parse_unary(toks, p + 1)?;
            Ok((Expr::Unary { op, expr: Box::new(inner) }, q))
        },
        None => parse_primary(toks, p),
    }
}

/// The builtin function called `n`, if any.
pub open spec fn builtin_of(n: Seq<char>) -> Option<Builtin> {
    if n == "length"@ {
        Some(Builtin::Length)
    } else if n == "substr"@ {
        Some(Builtin::Substr)
    } else if n == "index"@ {
        Some(Builtin::Index)
    } else if n == "abs"@ {
        Some(Builtin::Abs)
    } else if n == "min"@ {
        Some(Builtin::Min)
    } else if n == "max"@ {
        Some(Builtin::Max)
    } else if n == "ord"@ {
        Some(Builtin::Ord)
    } else if n == "chr"@ {
        Some(Builtin::Chr)
    } else if n == "chomp"@ {
        Some(Builtin::Chomp)
    } else if n == "reverse"@ {
        Some(Builtin::Reverse)
    } else if n == "int"@ {
        Some(Builtin::Int)
    } else if n == "contains"@ {
        Some(Builtin::Contains)
    } else if n == "starts_with"@ {
        Some(Builtin::StartsWith)
    } else if n == "ends_with"@ {
        Some(Builtin::EndsWith)
    } else if n == "replace"@ {
        Some(Builtin::Replace)
    } else if n == "char_at"@ {
        Some(Builtin::CharAt)
    } else {
        None
    }
}

/// The builtin function called `name`.
fn builtin_named(name: &String) -> (r: Option<Builtin>)
    ensures
        r == builtin_of(name@),
{
    if string_eq(name, &str_to_string("length")) {
        Some(Builtin::Length)
    } else if string_eq(name, &str_to_string("substr")) {
        Some(Builtin::Substr)
    } else if string_eq(name, &str_to_string("index")) {
        Some(Builtin::Index)
    } else if string_eq(name, &str_to_string("abs")) {
        Some(Builtin::Abs)
    } else if string_eq(name, &str_to_string("min")) {
        Some(Builtin::Min)
    } else if string_eq(name, &str_to_string("max")) {
        Some(Builtin::Max)
    } else if string_eq(name, &str_to_string("ord")) {
        Some(Builtin::Ord)
    } else if string_eq(name, &str_to_string("chr")) {
        Some(Builtin::Chr)
    } else if string_eq(name, &str_to_string("chomp")) {
        Some(Builtin::Chomp)
    } else if string_eq(name, &str_to_string("reverse")) {
        Some(Builtin::Reverse)
    } else if string_eq(name, &str_to_string("int")) {
        Some(Builtin::Int)
    } else if string_eq(name, &str_to_string("contains")) {
        Some(Builtin::Contains)
    } else if string_eq(name, &str_to_string("starts_with")) {
        Some(Builtin::StartsWith)
    } else if string_eq(name, &str_to_string("ends_with")) {
        Some(Builtin::EndsWith)
    } else if string_eq(name, &str_to_string("replace")) {
        Some(Builtin::Replace)
    } else if string_eq(name, &str_to_string("char_at")) {
        Some(Builtin::CharAt)
    } else {
        None
    }
}

fn arity_ok(b: Builtin, n: usize) -> (r: bool)
    ensures
        r == builtin_arity_ok(b, n as nat),
{
    match b {
        Builtin::Length | Builtin::Scalar | Builtin::Abs | Builtin::Ord | Builtin::Chr | Builtin::Chomp
        | Builtin::Reverse | Builtin::Int => n == 1,
        Builtin::Min | Builtin::Max | Builtin::Contains | Builtin::StartsWith | Builtin::EndsWith
        | Builtin::CharAt => n == 2,
        Builtin::Substr | Builtin::Replace => n == 3,
        Builtin::Index => n == 2 || n == 3,
    }
}

/// A parenthesized, comma-separated argument list starting at `(` at `p`.
fn parse_call_args(toks: &Vec<Token>, p: usize) -> (r: Parsed<Vec<Expr>>)
    requires
        p <= toks.len(),
    ensures
        r matches Ok((args, q)) ==> p < q <= toks.len() && all_wf(args@),
        args_parsed_as(r, grammar_call_args(toks@, p as int)),
    decreases toks.len() - p, 1nat,
{
    let mut q = expect_sym(toks, p, Sym::LParen, "expected `(`")?;
    let mut args: Vec<Expr> = Vec::new();
    if is_sym(toks, q, Sym::RParen) {
        return Ok((args, q + 1));
    }
    loop
        invariant
            p < q <= toks.len(),
            all_wf(args@),
            grammar_call_args(toks@, p as int) == grammar_args_rest(toks@, q as int, exprs_view(args@)),
        decreases toks.len() - q,
    {
        let (arg, q2) = parse_ternary(toks, q)?;
        let ghost before = args@;
        args.push(arg);
        assert(args@.subrange(0, args@.len() - 1) =~= before);
        if is_sym(toks, q2, Sym::Comma) {
            q = q2 + 1;
        } else {
            let q3 = expect_sym(toks, q2, Sym::RParen, "expected `)` after arguments")?;
            return Ok((args, q3));
        }
    }
}

/// `(@name)`, as taken by `scalar` and `pop`.
fn parse_array_arg(toks: &Vec<Token>, p: usize) -> (r: Parsed<String>)
    requires
        p <= toks.len(),
    ensures
        r matches Ok((_, q)) ==> p < q <= toks.len(),
        match (r, grammar_array_arg(toks@, p as int)) {
            (Ok((n, q)), Ok((m, q2))) => n@ == m && q == q2,
            (Err(err), Err((pos, msg))) => err.pos == pos && err.message@ == msg,
            _ => false,
        },
{
    let q = expect_sym(toks, p, Sym::LParen, "expected `(`")?;
    if q >= toks.len() {
        return fail(q, "expected an array");
    }
    let name = match &toks[q].tok {
        Tok::ArrayName(n) => copy_string(n),
        _ => {
            return fail(q, "expected an array");
        },
    };
    let q2 = expect_sym(toks, q + 1, Sym::RParen, "expected `)`")?;
    Ok((name, q2))
}

/// The index or key of `$a[...]` or `$h{...}`, from `p` up to `close`: a bare
/// word (taken as a variable name) or an expression.
fn parse_access_operand(toks: &Vec<Token>, p: usize, close: Sym) -> (r: Parsed<Expr>)
    requires
        p <= toks.len(),
    ensures
        r matches Ok((e, q)) ==> p < q <= toks.len() && expr_wf(e) && sym_at(toks@, q - 1, close),
        parsed_as(r, grammar_access(toks@, p as int, close)),
    decreases toks.len() - p, 21nat,
{
    if p < toks.len() && is_sym(toks, p + 1, close) {
        if let Tok::Ident(name) = &toks[p].tok {
            return Ok((Expr::Variable(copy_string(name)), p + 2));
        }
    }
    let (e, q) = parse_ternary(toks, p)?;
    let q2 = expect_sym(toks, q, close, "expected the end of the subscript")?;
    Ok((e, q2))
}

/// A literal, a variable, an element access, a call, or a parenthesized expression.
#[verifier::rlimit(60)]
fn parse_primary(toks: &Vec<Token>, p: usize) -> (r: Parsed<Expr>)
    requires
        p <= toks.len(),
    ensures
        r matches Ok((e, q)) ==> p < q <= toks.len() && expr_wf(e),
        parsed_as(r, grammar_primary(toks@, p as int)),
    decreases toks.len() - p, 2nat,
{
    if p >= toks.len() {
        return fail(p, "expected an expression");
    }
    match &toks[p].tok {
        Tok::Int(v) => Ok((Expr::Int(*v), p + 1)),
        Tok::Str(s) => Ok((Expr::String(copy_string(s)), p + 1)),
        Tok::Scalar(name) => {
            if is_glued_sym(toks, p + 1, Sym::LBracket) {
                let (index, q) = parse_access_operand(toks, p + 2, Sym::RBracket)?;
                Ok((Expr::Access { kind: AccessKind::Array, collection: copy_string(name), index: Box::new(index) }, q))
            } else if is_glued_sym(toks, p + 1, Sym::LBrace) {
                let (index, q) = parse_access_operand(toks, p + 2, Sym::RBrace)?;
                Ok((Expr::Access { kind: AccessKind::Hash, collection: copy_string(name), index: Box::new(index) }, q))
            } else {
                Ok((Expr::Variable(copy_string(name)), p + 1))
            }
        },
        Tok::Ident(name) => {
            let ws = str_to_string("scalar");
            let wp = str_to_string("pop");
            if string_eq(name, &ws) {
                let (array, q) = parse_array_arg(toks, p + 1)?;
                let mut args: Vec<Expr> = Vec::new();
                let ghost a = array@;
                args.push(Expr::Variable(array));
                proof {
                    lemma_exprs_view(args@);
                    assert(exprs_view(args@) =~= seq![ExprV::Var(a)]);
                }
                assert(expr_wf(args@[0]));
                assert(all_wf(args@));
                return Ok((Expr::Builtin { function: Builtin::Scalar, args }, q));
            }
            if string_eq(name, &wp) {
                let (array, q) = parse_array_arg(toks, p + 1)?;
                return Ok((Expr::Pop { array }, q));
            }
            let (mut args, q) = parse_call_args(toks, p + 1)?;
            match builtin_named(name) {
                Some(function) => {
                    let ghost views = exprs_view(args@);
                    proof {
                        lemma_exprs_view(args@);
                    }
                    if function == Builtin::Substr && args.len() == 2 {
                        let value = clone_expr(&args[0]);
                        let offset = clone_expr(&args[1]);
                        let mut len_args: Vec<Expr> = Vec::new();
                        len_args.push(value);
                        let ghost lv = len_args@;
                        proof {
                            lemma_exprs_view(lv);
                            lemma_same_view(value, args@[0]);
                            assert(exprs_view(lv) =~= seq![views[0]]);
                        }
                        let length = Expr::Builtin { function: Builtin::Length, args: len_args };
                        assert(expr_wf(args@[0]) && expr_wf(args@[1]));
                        assert(expr_wf(length));
                        let ghost before = args@;
                        proof {
                            lemma_same_view(offset, before[1]);
                        }
                        assert(expr_view(offset) == views[1]);
                        assert(length->Builtin_args@ == lv);
                        assert(expr_view(length) == ExprV::Builtin(Builtin::Length, seq![views[0]]));
                        let diff = Expr::Binary { left: Box::new(length), op: BinaryOp::Sub, right: Box::new(offset) };
                        assert(expr_view(diff) == ExprV::Binary(
                            Box::new(ExprV::Builtin(Builtin::Length, seq![views[0]])),
                            BinaryOp::Sub,
                            Box::new(views[1]),
                        ));
                        args.push(diff);
                        assert(args@.subrange(0, args@.len() - 1) =~= before);
                        assert(exprs_view(args@) == views.push(expr_view(diff)));
                        assert(all_wf(args@));
                    }
                    assert(exprs_view(args@) == builtin_args(function, views));
                    proof {
                        lemma_exprs_view(args@);
                    }
                    if !arity_ok(function, args.len()) {
                        return fail(p, "wrong number of arguments to a builtin");
                    }
                    assert(all_wf(args@));
                    Ok((Expr::Builtin { function, args }, q))
                },
                None => {
                    assert(all_wf(args@));
                    Ok((Expr::Call { function: copy_string(name), args }, q))
                },
            }
        },
        Tok::Sym(Sym::LParen) => {
            let (e, q) = parse_ternary(toks, p + 1)?;
            let q2 = expect_sym(toks, q, Sym::RParen, "expected `)`")?;
            Ok((e, q2))
        },
        _ => fail(p, "expected an expression"),
    }
}

} // verus!

verus! {

/// A statement modifier: `if COND` or `unless COND` (`negated`).
pub struct Modifier {
    pub negated: bool,
    pub condition: Expr,
}

/// What an optional `if COND` / `unless COND` modifier at `p` parses to:
/// whether it is negated and the condition's value, or nothing when `p`
/// holds neither word.
pub open spec fn modifier_grammar(toks: Seq<Token>, p: int) -> Outcome<Option<(bool, ExprV)>> {
    if word_at(toks, p, "if"@) || word_at(toks, p, "unless"@) {
        match grammar_ternary(toks, p + 1) {
            Ok((v, q)) => Ok((Some((!word_at(toks, p, "if"@), v)), q)),
            Err(e) => Err(e),
        }
    } else {
        Ok((None, p))
    }
}

/// An optional `if`/`unless` modifier at `p`.
fn parse_modifier(toks: &Vec<Token>, p: usize) -> (r: Parsed<Option<Modifier>>)
    requires
        p <= toks.len(),
    ensures
        r matches Ok((m, q)) ==> p <= q <= toks.len() && (m matches Some(md) ==> expr_wf(md.condition)),
        match modifier_grammar(toks@, p as int) {
            Ok((None, q)) => r matches Ok((None, q2)) && q2 == q,
            Ok((Some((neg, v)), q)) => r matches Ok((Some(md), q2)) && q2 == q && md.negated == neg && expr_view(
                md.condition,
            ) == v,
            Err((pos, msg)) => r matches Err(err) && err.pos == pos && err.message@ == msg,
        },
{
    let negated = if is_word(toks, p, "if") {
        false
    } else if is_word(toks, p, "unless") {
        true
    } else {
        return Ok((None, p));
    };
    let (condition, q) = parse_ternary(toks, p + 1)?;
    Ok((Some(Modifier { negated, condition }), q))
}

/// `!(condition)`
fn negate(condition: Expr) -> (r: Expr)
    requires
        expr_wf(condition),
    ensures
        r == (Expr::Unary { op: UnaryOp::Not, expr: Box::new(condition) }),
        expr_wf(r),
{
    Expr::Unary { op: UnaryOp::Not, expr: Box::new(condition) }
}

/// `stmt`, or `if (cond) { stmt }` under a modifier.
fn apply_modifier(stmt: Stmt, modifier: Option<Modifier>) -> (r: Stmt)
    requires
        stmt_wf(stmt),
        modifier matches Some(md) ==> expr_wf(md.condition),
    ensures
        stmt_wf(r),
        stmt_view(r) == modified(stmt_view(stmt), modifier_v(modifier)),
        match modifier {
            None => r == stmt,
            Some(md) => r matches Stmt::If { condition, then_branch, else_branch } && then_branch@ == seq![stmt]
                && else_branch@.len() == 0 && condition == (if md.negated {
                Expr::Unary { op: UnaryOp::Not, expr: Box::new(md.condition) }
            } else {
                md.condition
            }),
        },
{
    match modifier {
        None => stmt,
        Some(md) => {
            let condition = if md.negated { negate(md.condition) } else { md.condition };
            let mut then_branch: Vec<Stmt> = Vec::new();
            then_branch.push(stmt);
            assert(then_branch@ =~= seq![stmt]);
            let r = Stmt::If { condition, then_branch, else_branch: Vec::new() };
            assert(stmt_wf(r));
            proof {
                lemma_one_view(stmt);
                assert(stmts_view(Seq::<Stmt>::empty()) =~= Seq::<StmtV>::empty());
            }
            r
        },
    }
}

/// The value of an optional modifier: whether it is negated, and its condition's value.
pub open spec fn modifier_v(m: Option<Modifier>) -> Option<(bool, ExprV)> {
    match m {
        None => None,
        Some(md) => Some((md.negated, expr_view(md.condition))),
    }
}

/// A statement under an optional `if`/`unless` modifier, as a value.
pub open spec fn modified(s: StmtV, m: Option<(bool, ExprV)>) -> StmtV {
    match m {
        None => s,
        Some((negated, c)) => StmtV::If(negated_if(negated, c), seq![s], Seq::empty()),
    }
}

/// `!c` when `negated`, else `c`.
pub open spec fn negated_if(negated: bool, c: ExprV) -> ExprV {
    if negated {
        ExprV::Unary(UnaryOp::Not, Box::new(c))
    } else {
        c
    }
}

/// The value of a list of one statement.
pub proof fn lemma_one_view(s: Stmt)
    ensures
        stmts_view(seq![s]) == seq![stmt_view(s)],
{
    crate::ast::lemma_stmts_view_push(Seq::empty(), s);
    assert(Seq::<Stmt>::empty().push(s) =~= seq![s]);
    assert(stmts_view(Seq::<Stmt>::empty()) =~= Seq::<StmtV>::empty());
    assert(Seq::<StmtV>::empty().push(stmt_view(s)) =~= seq![stmt_view(s)]);
}

fn one_stmt(s: Stmt) -> (r: Vec<Stmt>)
    requires
        stmt_wf(s),
    ensures
        stmts_wf(r@),
        r@ == seq![s],
        stmts_view(r@) == seq![stmt_view(s)],
{
    proof {
        lemma_one_view(s);
    }
    let mut v = Vec::new();
    v.push(s);
    assert(v@ =~= seq![s]);
    v
}

/// The assignment operator that token `t` is: `Some(None)` for `=`, the
/// operator of a compound assignment, or `None`.
pub open spec fn assign_op(t: Tok) -> Option<Option<BinaryOp>> {
    match t {
        Tok::Sym(s) => match s {
            Sym::Assign => Some(None),
            Sym::PlusEq => Some(Some(BinaryOp::Add)),
            Sym::MinusEq => Some(Some(BinaryOp::Sub)),
            Sym::PowEq => Some(Some(BinaryOp::Pow)),
            Sym::StarEq => Some(Some(BinaryOp::Mul)),
            Sym::SlashEq => Some(Some(BinaryOp::Div)),
            Sym::PercentEq => Some(Some(BinaryOp::Mod)),
            Sym::DotEq => Some(Some(BinaryOp::Concat)),
            Sym::AmpEq => Some(Some(BinaryOp::BitAnd)),
            Sym::PipeEq => Some(Some(BinaryOp::BitOr)),
            Sym::CaretEq => Some(Some(BinaryOp::BitXor)),
            Sym::ShlEq => Some(Some(BinaryOp::Shl)),
            Sym::ShrEq => Some(Some(BinaryOp::Shr)),
            _ => None,
        },
        _ => None,
    }
}

/// The compound assignment operator at `p`: `Some(None)` for `=`.
fn assign_op_at(toks: &Vec<Token>, p: usize) -> (r: Option<Option<BinaryOp>>)
    ensures
        r is Some ==> p < toks.len(),
        r == (if p < toks@.len() { assign_op(toks@[p as int].tok) } else { None }),
{
    if p >= toks.len() {
        return None;
    }
    match &toks[p].tok {
        Tok::Sym(s) => match *s {
            Sym::Assign => Some(None),
            Sym::PlusEq => Some(Some(BinaryOp::Add)),
            Sym::MinusEq => Some(Some(BinaryOp::Sub)),
            Sym::PowEq => Some(Some(BinaryOp::Pow)),
            Sym::StarEq => Some(Some(BinaryOp::Mul)),
            Sym::SlashEq => Some(Some(BinaryOp::Div)),
            Sym::PercentEq => Some(Some(BinaryOp::Mod)),
            Sym::DotEq => Some(Some(BinaryOp::Concat)),
            Sym::AmpEq => Some(Some(BinaryOp::BitAnd)),
            Sym::PipeEq => Some(Some(BinaryOp::BitOr)),
            Sym::CaretEq => Some(Some(BinaryOp::BitXor)),
            Sym::ShlEq => Some(Some(BinaryOp::Shl)),
            Sym::ShrEq => Some(Some(BinaryOp::Shr)),
            _ => None,
        },
        _ => None,
    }
}

/// `$name = $name op 1`, for `++` and `--`.
fn step_by_one(name: &String, op: BinaryOp) -> (r: Stmt)
    ensures
        stmt_wf(r),
        r matches Stmt::Assign { name: n, expr: Expr::Binary { left, op: o, right }, declaration: false } && n@
            == name@ && o == op && expr_view(*left) == ExprV::Var(name@) && *right == Expr::Int(1),
        stmt_view(r) == step_stmt_v(name@, op),
{
    let left = Expr::Variable(copy_string(name));
    let right = Expr::Int(1);
    assert(expr_wf(left) && expr_wf(right));
    assert(expr_view(left) == ExprV::Var(name@));
    assert(expr_view(right) == ExprV::Int(1));
    let e = Expr::Binary { left: Box::new(left), op, right: Box::new(right) };
    assert(expr_view(e) == ExprV::Binary(Box::new(ExprV::Var(name@)), op, Box::new(ExprV::Int(1))));
    Stmt::Assign { name: copy_string(name), expr: e, declaration: false }
}

/// The scalar variable name at `p`.
fn scalar_at(toks: &Vec<Token>, p: usize) -> (r: Option<String>)
    ensures
        r is Some ==> p < toks.len(),
        r is Some <==> p < toks@.len() && toks@[p as int].tok is Scalar,
        r matches Some(n) ==> toks@[p as int].tok matches Tok::Scalar(m) && m@ == n@,
{
    if p < toks.len() {
        match &toks[p].tok {
            Tok::Scalar(n) => Some(copy_string(n)),
            _ => None,
        }
    } else {
        None
    }
}

/// `r` is the outcome `o`, the statement taken by its value.
pub open spec fn stmt_parsed_as(r: Parsed<Stmt>, o: Outcome<StmtV>) -> bool {
    match (r, o) {
        (Ok((s, q)), Ok((v, q2))) => stmt_view(s) == v && q == q2,
        (Err(err), Err((pos, msg))) => err.pos == pos && err.message@ == msg,
        _ => false,
    }
}

/// `$name = $name op 1` as a value.
pub open spec fn step_stmt_v(name: Seq<char>, op: BinaryOp) -> StmtV {
    StmtV::Assign(name, ExprV::Binary(Box::new(ExprV::Var(name)), op, Box::new(ExprV::Int(1))), false)
}

/// The name of the scalar token at `p`.
pub open spec fn scalar_name(toks: Seq<Token>, p: int) -> Seq<char> {
    toks[p].tok->Scalar_0@
}

/// Token `p` is a scalar variable.
pub open spec fn scalar_tok(toks: Seq<Token>, p: int) -> bool {
    0 <= p < toks.len() && toks[p].tok is Scalar
}

/// `... = expr` after an element or key `target` whose subscript ends before `q`.
pub open spec fn store_grammar(toks: Seq<Token>, q: int, name: Seq<char>, target: ExprV, hash: bool) -> Outcome<StmtV> {
    if !sym_at(toks, q, Sym::Assign) {
        Err((q, "expected `=`"@))
    } else {
        match grammar_ternary(toks, q + 1) {
            Ok((e, q3)) => Ok((
                if hash {
                    StmtV::HashAssign(name, target, e)
                } else {
                    StmtV::ArrayAssign(name, target, e)
                },
                q3,
            )),
            Err(e) => Err(e),
        }
    }
}

/// What an assignment, element or key assignment, or increment at `p` parses
/// to; `declaration` marks a `my` in front of it.
pub open spec fn assignment_grammar(toks: Seq<Token>, p: int, declaration: bool) -> Outcome<StmtV> {
    if sym_at(toks, p, Sym::PlusPlus) || sym_at(toks, p, Sym::MinusMinus) {
        let op = if sym_at(toks, p, Sym::PlusPlus) { BinaryOp::Add } else { BinaryOp::Sub };
        if scalar_tok(toks, p + 1) {
            Ok((step_stmt_v(scalar_name(toks, p + 1), op), p + 2))
        } else {
            Err((p, "expected a variable after `++` or `--`"@))
        }
    } else if !scalar_tok(toks, p) {
        Err((p, "expected a variable"@))
    } else {
        let name = scalar_name(toks, p);
        if !declaration && glued_sym_at(toks, p + 1, Sym::LBracket) {
            match grammar_access(toks, p + 2, Sym::RBracket) {
                Ok((index, q)) => store_grammar(toks, q, name, index, false),
                Err(e) => Err(e),
            }
        } else if !declaration && glued_sym_at(toks, p + 1, Sym::LBrace) {
            match grammar_access(toks, p + 2, Sym::RBrace) {
                Ok((key, q)) => store_grammar(toks, q, name, key, true),
                Err(e) => Err(e),
            }
        } else if !declaration && (sym_at(toks, p + 1, Sym::PlusPlus) || sym_at(toks, p + 1, Sym::MinusMinus)) {
            let op = if sym_at(toks, p + 1, Sym::PlusPlus) { BinaryOp::Add } else { BinaryOp::Sub };
            Ok((step_stmt_v(name, op), p + 2))
        } else {
            match (if p + 1 < toks.len() { assign_op(toks[p + 1].tok) } else { None }) {
                Some(compound) => if declaration && compound is Some {
                    Err((p + 1, "expected `=` after a declaration"@))
                } else {
                    match grammar_ternary(toks, p + 2) {
                        Ok((rhs, q)) => Ok((
                            StmtV::Assign(
                                name,
                                match compound {
                                    Some(op) => ExprV::Binary(Box::new(ExprV::Var(name)), op, Box::new(rhs)),
                                    None => rhs,
                                },
                                declaration,
                            ),
                            q,
                        )),
                        Err(e) => Err(e),
                    }
                },
                None => Err((p + 1, "expected an assignment"@)),
            }
        }
    }
}

/// An assignment to a scalar, an element or a key, or an increment, starting
/// at the variable at `p` and stopping before any terminator; `declaration`
/// marks a `my` in front of it.
fn parse_simple_assignment(toks: &Vec<Token>, p: usize, declaration: bool) -> (r: Parsed<Stmt>)
    requires
        p <= toks.len(),
    ensures
        r matches Ok((s, q)) ==> p < q <= toks.len() && stmt_wf(s),
        stmt_parsed_as(r, assignment_grammar(toks@, p as int, declaration)),
{
    if is_sym(toks, p, Sym::PlusPlus) || is_sym(toks, p, Sym::MinusMinus) {
        let op = if is_sym(toks, p, Sym::PlusPlus) { BinaryOp::Add } else { BinaryOp::Sub };
        return match scalar_at(toks, p + 1) {
            Some(name) => Ok((step_by_one(&name, op), p + 2)),
            None => fail(p, "expected a variable after `++` or `--`"),
        };
    }
    let name = match scalar_at(toks, p) {
        Some(n) => n,
        None => {
            return fail(p, "expected a variable");
        },
    };
    if !declaration && is_glued_sym(toks, p + 1, Sym::LBracket) {
        let (index, q) = parse_access_operand(toks, p + 2, Sym::RBracket)?;
        let q2 = expect_sym(toks, q, Sym::Assign, "expected `=`")?;
        let (expr, q3) = parse_ternary(toks, q2)?;
        return Ok((Stmt::ArrayAssign { name, index, expr }, q3));
    }
    if !declaration && is_glued_sym(toks, p + 1, Sym::LBrace) {
        let (key, q) = parse_access_operand(toks, p + 2, Sym::RBrace)?;
        let q2 = expect_sym(toks, q, Sym::Assign, "expected `=`")?;
        let (expr, q3) = parse_ternary(toks, q2)?;
        return Ok((Stmt::HashAssign { name, key, expr }, q3));
    }
    if !declaration && (is_sym(toks, p + 1, Sym::PlusPlus) || is_sym(toks, p + 1, Sym::MinusMinus)) {
        let op = if is_sym(toks, p + 1, Sym::PlusPlus) { BinaryOp::Add } else { BinaryOp::Sub };
        return Ok((step_by_one(&name, op), p + 2));
    }
    match assign_op_at(toks, p + 1) {
        Some(compound) => {
            if declaration && compound.is_some() {
                return fail(p + 1, "expected `=` after a declaration");
            }
            let (rhs, q) = parse_ternary(toks, p + 2)?;
            let expr = match compound {
                Some(op) => {
                    let current = Expr::Variable(copy_string(&name));
                    assert(expr_wf(current));
                    assert(expr_view(current) == ExprV::Var(name@));
                    let b = Expr::Binary { left: Box::new(current), op, right: Box::new(rhs) };
                    assert(expr_view(b) == ExprV::Binary(Box::new(ExprV::Var(name@)), op, Box::new(expr_view(rhs))));
                    b
                },
                None => rhs,
            };
            let ghost nv = name@;
            let r = Stmt::Assign { name, expr, declaration };
            assert(stmt_view(r) == StmtV::Assign(nv, expr_view(expr), declaration));
            Ok((r, q))
        },
        None => fail(p + 1, "expected an assignment"),
    }
}

/// The names of `$a, $b, ... )` from `q` on, with the position after `)`.
pub open spec fn vars_from(toks: Seq<Token>, q: int) -> Outcome<Seq<Seq<char>>>
    decreases toks.len() - q,
{
    if !(0 <= q < toks.len() && toks[q].tok is Scalar) {
        Err((q, "expected a variable"@))
    } else {
        let n = toks[q].tok->Scalar_0@;
        if sym_at(toks, q + 1, Sym::Comma) {
            match vars_from(toks, q + 2) {
                Ok((ns, k)) => Ok((seq![n] + ns, k)),
                Err(e) => Err(e),
            }
        } else if sym_at(toks, q + 1, Sym::RParen) {
            Ok((seq![n], q + 2))
        } else {
            Err((q + 1, "expected `)`"@))
        }
    }
}

/// What `( $a, $b, ... )` at `p` parses to.
pub open spec fn var_list_grammar(toks: Seq<Token>, p: int) -> Outcome<Seq<Seq<char>>> {
    if !sym_at(toks, p, Sym::LParen) {
        Err((p, "expected `(`"@))
    } else {
        vars_from(toks, p + 1)
    }
}

/// Names found so far, followed by the outcome of the rest.
pub open spec fn after_names(found: Seq<Seq<char>>, rest: Outcome<Seq<Seq<char>>>) -> Outcome<Seq<Seq<char>>> {
    match rest {
        Ok((ns, k)) => Ok((found + ns, k)),
        Err(e) => Err(e),
    }
}

/// `( $a, $b, ... )` at `p`.
#[verifier::loop_isolation(false)]
fn parse_var_list(toks: &Vec<Token>, p: usize) -> (r: Parsed<Vec<String>>)
    requires
        p <= toks.len(),
    ensures
        r matches Ok((_, q)) ==> p < q <= toks.len(),
        match var_list_grammar(toks@, p as int) {
            Ok((names, q)) => r matches Ok((v, q2)) && q2 == q && v@.map_values(|n: String| n@) == names,
            Err((pos, msg)) => r matches Err(e) && e.pos == pos && e.message@ == msg,
        },
{
    let mut q = expect_sym(toks, p, Sym::LParen, "expected `(`")?;
    let mut names: Vec<String> = Vec::new();
    proof {
        assert(names@.map_values(|n: String| n@) =~= Seq::<Seq<char>>::empty());
    }
    loop
        invariant
            p < q <= toks.len(),
            var_list_grammar(toks@, p as int) == after_names(names@.map_values(|n: String| n@), vars_from(toks@, q as int)),
        decreases toks.len() - q,
    {
        let ghost before = names@.map_values(|n: String| n@);
        match scalar_at(toks, q) {
            Some(n) => {
                proof {
                    assert(names@.push(n).map_values(|n: String| n@) =~= before.push(n@));
                }
                names.push(n);
            },
            None => {
                return fail(q, "expected a variable");
            },
        }
        if is_sym(toks, q + 1, Sym::Comma) {
            proof {
                let rest = vars_from(toks@, q + 2);
                if let Ok((ns, k)) = rest {
                    assert(before + (seq![names@.last()@] + ns) =~= before.push(names@.last()@) + ns);
                }
            }
            q = q + 2;
        } else {
            let q2 = expect_sym(toks, q + 1, Sym::RParen, "expected `)`")?;
            proof {
                assert(before + seq![names@.last()@] =~= before.push(names@.last()@));
            }
            return Ok((names, q2));
        }
    }
}

/// The decimal numeral of `n`.
fn decimal_string(n: usize) -> (r: String)
    ensures
        r@ == crate::text::decimal(n as nat),
{
    let mut s = String::new();
    crate::text::push_u64(&mut s, n as u64);
    s
}

/// The name of the temporary that holds the `i`-th value of a list assignment.
fn list_temp(i: usize) -> (r: String)
    ensures
        r@ == "__list_tmp_"@ + crate::text::decimal(i as nat),
{
    let mut s = str_to_string("__list_tmp_");
    crate::text::push_u64(&mut s, i as u64);
    s
}

/// The name of the temporary that holds the `i`-th value of a list assignment, as a value.
pub open spec fn temp_name(i: int) -> Seq<char> {
    "__list_tmp_"@ + crate::text::decimal(i as nat)
}

/// The first `k` temporaries of a list assignment, each taking its value.
pub open spec fn temps_v(values: Seq<ExprV>, k: int) -> Seq<StmtV> {
    Seq::new(k as nat, |i: int| StmtV::Assign(temp_name(i), values[i], true))
}

/// The assignments from the temporaries to the first `k` variables that have a value.
pub open spec fn binds_v(names: Seq<Seq<char>>, n: int, k: int, declaration: bool) -> Seq<StmtV> {
    Seq::new(
        (if k < n { k } else { n }) as nat,
        |j: int| StmtV::Assign(names[j], ExprV::Var(temp_name(j)), declaration),
    )
}

/// What `(vars) = (exprs);` at `p` parses to: each value into its temporary,
/// then each variable that has a value from its temporary.
pub open spec fn list_assign_grammar(toks: Seq<Token>, p: int, declaration: bool) -> Outcome<Seq<StmtV>> {
    match var_list_grammar(toks, p) {
        Err(e) => Err(e),
        Ok((names, q)) => if !sym_at(toks, q, Sym::Assign) {
            Err((q, "expected `=`"@))
        } else {
            match grammar_call_args(toks, q + 1) {
                Err(e) => Err(e),
                Ok((values, q2)) => if !sym_at(toks, q2, Sym::Semi) {
                    Err((q2, "expected `;`"@))
                } else {
                    Ok((
                        temps_v(values, values.len() as int) + binds_v(names, values.len() as int, names.len() as int, declaration),
                        q2 + 1,
                    ))
                },
            }
        },
    }
}

/// `(vars) = (exprs);` at `p`, evaluated through temporaries so that swaps work.
#[verifier::loop_isolation(false)]
fn parse_list_assign(toks: &Vec<Token>, p: usize, declaration: bool) -> (r: Parsed<Vec<Stmt>>)
    requires
        p <= toks.len(),
    ensures
        r matches Ok((v, q)) ==> p < q <= toks.len() && stmts_wf(v@),
        stmts_parsed_as(r, list_assign_grammar(toks@, p as int, declaration)),
{
    let (vars, q) = parse_var_list(toks, p)?;
    let q1 = expect_sym(toks, q, Sym::Assign, "expected `=`")?;
    let (exprs, q2) = parse_call_args(toks, q1)?;
    let q3 = expect_sym(toks, q2, Sym::Semi, "expected `;`")?;
    let ghost names = vars@.map_values(|n: String| n@);
    let ghost es = crate::ast::exprs_view(exprs@);
    proof {
        crate::ast::lemma_exprs_view(exprs@);
    }
    let mut out: Vec<Stmt> = Vec::new();
    let mut exprs = exprs;
    let n = exprs.len();
    let mut i: usize = 0;
    proof {
        assert(stmts_view(out@) =~= temps_v(es, 0));
    }
    while i < n
        invariant
            i <= n,
            n == exprs@.len(),
            es.len() == n,
            all_wf(exprs@),
            stmts_wf(out@),
            stmts_view(out@) == temps_v(es, i as int),
        decreases n - i,
    {
        let e = clone_expr(&exprs[i]);
        proof {
            crate::ast::lemma_same_view(e, exprs@[i as int]);
        }
        let t = list_temp(i);
        let st = Stmt::Assign { name: t, expr: e, declaration: true };
        proof {
            crate::ast::lemma_stmts_view_push(out@, st);
            assert(temps_v(es, i as int).push(stmt_view(st)) =~= temps_v(es, i + 1));
        }
        out.push(st);
        i += 1;
    }
    let mut j: usize = 0;
    proof {
        assert(temps_v(es, n as int) + binds_v(names, n as int, 0, declaration) =~= temps_v(es, n as int));
    }
    while j < vars.len()
        invariant
            j <= vars@.len(),
            names == vars@.map_values(|x: String| x@),
            stmts_wf(out@),
            stmts_view(out@) == temps_v(es, n as int) + binds_v(names, n as int, j as int, declaration),
        decreases vars.len() - j,
    {
        if j < n {
            let t = list_temp(j);
            let ghost tv = t@;
            let st = Stmt::Assign { name: copy_string(&vars[j]), expr: Expr::Variable(t), declaration };
            proof {
                crate::ast::lemma_stmts_view_push(out@, st);
                assert(stmt_view(st) == StmtV::Assign(names[j as int], ExprV::Var(tv), declaration));
                assert(binds_v(names, n as int, j as int, declaration).push(stmt_view(st)) =~= binds_v(
                    names,
                    n as int,
                    j + 1,
                    declaration,
                ));
            }
            out.push(st);
        } else {
            proof {
                assert(binds_v(names, n as int, j as int, declaration) =~= binds_v(names, n as int, j + 1, declaration));
            }
        }
        j += 1;
    }
    Ok((out, q3))
}

/// What `( expr )` at `p` parses to.
pub open spec fn condition_grammar(toks: Seq<Token>, p: int) -> Outcome<ExprV> {
    if !sym_at(toks, p, Sym::LParen) {
        Err((p, "expected `(`"@))
    } else {
        match grammar_ternary(toks, p + 1) {
            Ok((v, q)) => if sym_at(toks, q, Sym::RParen) {
                Ok((v, q + 1))
            } else {
                Err((q, "expected `)`"@))
            },
            Err(e) => Err(e),
        }
    }
}

/// `( expr )` at `p`.
fn parse_condition(toks: &Vec<Token>, p: usize) -> (r: Parsed<Expr>)
    requires
        p <= toks.len(),
    ensures
        r matches Ok((e, q)) ==> p < q <= toks.len() && expr_wf(e),
        parsed_as(r, condition_grammar(toks@, p as int)),
{
    let q = expect_sym(toks, p, Sym::LParen, "expected `(`")?;
    let (e, q2) = parse_ternary(toks, q)?;
    let q3 = expect_sym(toks, q2, Sym::RParen, "expected `)`")?;
    Ok((e, q3))
}

/// The position of the first `;` from `p` on.
pub open spec fn semi_from(toks: Seq<Token>, p: int) -> Option<int>
    decreases toks.len() - p,
{
    if p < 0 || p >= toks.len() {
        None
    } else if sym_at(toks, p, Sym::Semi) {
        Some(p)
    } else {
        semi_from(toks, p + 1)
    }
}

/// The position after `;`, skipping everything up to it.
fn skip_statement(toks: &Vec<Token>, p: usize) -> (r: Result<usize, SyntaxError>)
    requires
        p <= toks.len(),
    ensures
        r matches Ok(q) ==> p < q <= toks.len(),
        match semi_from(toks@, p as int) {
            Some(k) => r == Ok::<usize, SyntaxError>((k + 1) as usize),
            None => r matches Err(e) && e.pos == toks@.len() && e.message@ == "expected `;`"@,
        },
{
    let mut q = p;
    while q < toks.len()
        invariant
            p <= q <= toks.len(),
            semi_from(toks@, p as int) == semi_from(toks@, q as int),
        decreases toks.len() - q,
    {
        if is_sym(toks, q, Sym::Semi) {
            return Ok(q + 1);
        }
        q += 1;
    }
    fail(q, "expected `;`")
}

/// `r` failed at token `pos` with `msg`.
pub open spec fn fails_with<T>(r: Parsed<T>, pos: int, msg: Seq<char>) -> bool {
    r matches Err(e) && e.pos == pos && e.message@ == msg
}

/// A statement `s` ending before `q`, then an optional modifier and `;`.
#[verifier::opaque]
pub open spec fn terminated(toks: Seq<Token>, o: Outcome<StmtV>) -> Outcome<Seq<StmtV>> {
    match o {
        Err(e) => Err(e),
        Ok((s, q)) => match modifier_grammar(toks, q) {
            Err(e) => Err(e),
            Ok((m, q2)) => if !sym_at(toks, q2, Sym::Semi) {
                Err((q2, "expected `;`"@))
            } else {
                Ok((seq![modified(s, m)], q2 + 1))
            },
        },
    }
}

/// What `push @a, v;` or `push(@a, v);` at `p` parses to.
#[verifier::opaque]
pub open spec fn push_grammar(toks: Seq<Token>, p: int) -> Outcome<Seq<StmtV>> {
    let parens = sym_at(toks, p + 1, Sym::LParen);
    let q = if parens { p + 2 } else { p + 1 };
    if q >= toks.len() || !(toks[q].tok is ArrayName) {
        Err((q, "expected an array"@))
    } else if !sym_at(toks, q + 1, Sym::Comma) {
        Err((q + 1, "expected `,`"@))
    } else {
        match grammar_ternary(toks, q + 2) {
            Err(e) => Err(e),
            Ok((v, q2)) => if parens && !sym_at(toks, q2, Sym::RParen) {
                Err((q2, "expected `)`"@))
            } else {
                let k = if parens { q2 + 1 } else { q2 };
                if !sym_at(toks, k, Sym::Semi) {
                    Err((k, "expected `;`"@))
                } else {
                    Ok((seq![StmtV::Push(toks[q].tok->ArrayName_0@, v)], k + 1))
                }
            },
        }
    }
}

/// The statement at `p` opens a conditional, a loop or a `do` block.
pub open spec fn compound_at(toks: Seq<Token>, p: int) -> bool {
    &&& !word_at(toks, p, "my"@)
    &&& !sym_at(toks, p, Sym::LParen)
    &&& word_at(toks, p, "if"@) || word_at(toks, p, "unless"@) || word_at(toks, p, "while"@) || word_at(
        toks,
        p,
        "until"@,
    ) || word_at(toks, p, "do"@) || word_at(toks, p, "for"@) || word_at(toks, p, "foreach"@)
}

/// What a statement at `p` that opens no block parses to: a declaration, an
/// assignment, a list assignment, `return`, `die`, `last`, `next`, `push`,
/// or output, which is skipped.
#[verifier::opaque]
pub open spec fn simple_stmt_grammar(toks: Seq<Token>, p: int) -> Outcome<Seq<StmtV>> {
    if word_at(toks, p, "my"@) {
        if sym_at(toks, p + 1, Sym::LParen) {
            list_assign_grammar(toks, p + 1, true)
        } else if p + 1 < toks.len() && sym_at(toks, p + 2, Sym::Semi) {
            if scalar_tok(toks, p + 1) {
                Ok((seq![StmtV::Declare(scalar_name(toks, p + 1))], p + 3))
            } else {
                Err((p + 1, "expected a variable"@))
            }
        } else {
            terminated(toks, assignment_grammar(toks, p + 1, true))
        }
    } else if sym_at(toks, p, Sym::LParen) {
        list_assign_grammar(toks, p, false)
    } else if word_at(toks, p, "return"@) {
        match grammar_ternary(toks, p + 1) {
            Err(e) => Err(e),
            Ok((e, q)) => terminated(toks, Ok((StmtV::Return(e), q))),
        }
    } else if word_at(toks, p, "die"@) {
        let head: Outcome<ExprV> = if sym_at(toks, p + 1, Sym::Semi) || word_at(toks, p + 1, "if"@)
            || word_at(toks, p + 1, "unless"@) {
            Ok((ExprV::Str(Seq::empty()), p + 1))
        } else {
            grammar_ternary(toks, p + 1)
        };
        match head {
            Err(e) => Err(e),
            Ok((e, q)) => terminated(toks, Ok((StmtV::Die(e), q))),
        }
    } else if word_at(toks, p, "warn"@) || word_at(toks, p, "print"@) || word_at(toks, p, "say"@) {
        match semi_from(toks, p + 1) {
            Some(k) => Ok((Seq::empty(), k + 1)),
            None => Err((toks.len() as int, "expected `;`"@)),
        }
    } else if word_at(toks, p, "last"@) || word_at(toks, p, "next"@) {
        terminated(toks, Ok((if word_at(toks, p, "last"@) { StmtV::Last } else { StmtV::Next }, p + 1)))
    } else if word_at(toks, p, "push"@) {
        push_grammar(toks, p)
    } else {
        terminated(toks, assignment_grammar(toks, p, false))
    }
}

/// A block at `q` that does not open with `{` fails there.
pub open spec fn block_opens(r: Parsed<Vec<Stmt>>, toks: Seq<Token>, q: int) -> bool {
    !sym_at(toks, q, Sym::LBrace) ==> fails_with(r, q, "expected `{`"@)
}

/// What an `if` (or, `negated`, an `unless`) at `p` gives: the condition's
/// error, the block's opening error, or one conditional on that condition.
#[verifier::opaque]
pub open spec fn conditional_head(r: Parsed<Vec<Stmt>>, toks: Seq<Token>, p: int, negated: bool) -> bool {
    match condition_grammar(toks, p + 1) {
        Err((pos, msg)) => fails_with(r, pos, msg),
        Ok((c, q)) => block_opens(r, toks, q) && (r matches Ok((v, _)) ==> (stmts_view(v@).len() == 1
            && stmts_view(v@)[0] is If && stmts_view(v@)[0]->If_0 == negated_if(negated, c))),
    }
}

/// What a `while` or `until` loop at `p` gives: the condition's error, the
/// block's opening error, or the loop on that condition (negated for `until`).
#[verifier::opaque]
pub open spec fn while_head(r: Parsed<Vec<Stmt>>, toks: Seq<Token>, p: int, m: nat) -> bool {
    match condition_grammar(toks, p + 1) {
        Err((pos, msg)) => fails_with(r, pos, msg),
        Ok((c, q)) => block_opens(r, toks, q) && (r matches Ok((v, _)) ==> exists|body: Seq<StmtV>|
            stmts_view(v@) == crate::lowering::while_v(negated_if(word_at(toks, p, "until"@), c), body, m)),
    }
}

/// What a `do` block at `p` gives: the block's opening error, or a loop that
/// runs its body first and ends with `;`.
#[verifier::opaque]
pub open spec fn do_head(r: Parsed<Vec<Stmt>>, toks: Seq<Token>, p: int, m: nat) -> bool {
    &&& block_opens(r, toks, p + 1)
    &&& r matches Ok((v, q)) ==> sym_at(toks, q - 1, Sym::Semi) && exists|c: ExprV, body: Seq<StmtV>|
        stmts_view(v@) == crate::lowering::do_while_v(c, body, m)
}

/// What a `for`/`foreach` loop at `p` gives: the error of its header, or the
/// loop on that header: a C-style one runs its initial assignments, then its
/// condition, body and step; one over an array binds its variable to each element.
#[verifier::opaque]
pub open spec fn for_head(r: Parsed<Vec<Stmt>>, toks: Seq<Token>, p: int, m: nat) -> bool {
    if sym_at(toks, p + 1, Sym::LParen) {
        match for_assignments_grammar(toks, p + 2, Sym::Semi) {
            Err((pos, msg)) => fails_with(r, pos, msg),
            Ok((init, q)) => if !sym_at(toks, q, Sym::Semi) {
                fails_with(r, q, "expected `;`"@)
            } else {
                match grammar_ternary(toks, q + 1) {
                    Err((pos, msg)) => fails_with(r, pos, msg),
                    Ok((c, q2)) => if !sym_at(toks, q2, Sym::Semi) {
                        fails_with(r, q2, "expected `;`"@)
                    } else {
                        match for_assignments_grammar(toks, q2 + 1, Sym::RParen) {
                            Err((pos, msg)) => fails_with(r, pos, msg),
                            Ok((step, q4)) => if !sym_at(toks, q4, Sym::RParen) {
                                fails_with(r, q4, "expected `)`"@)
                            } else {
                                block_opens(r, toks, q4 + 1) && (r matches Ok((v, _)) ==> exists|body: Seq<StmtV>|
                                    stmts_view(v@) == init + crate::lowering::for_v(c, body, step, m))
                            },
                        }
                    },
                }
            },
        }
    } else {
        let q = loop_var_at(toks, p);
        if !scalar_tok(toks, q) {
            fails_with(r, q, "expected a loop variable"@)
        } else {
            match grammar_array_arg(toks, q + 1) {
                Err((pos, msg)) => fails_with(r, pos, msg),
                Ok((array, q1)) => block_opens(r, toks, q1) && (r matches Ok((v, _)) ==> exists|body: Seq<StmtV>|
                    stmts_view(v@) == crate::lowering::foreach_v(scalar_name(toks, q), array, body, m)),
            }
        }
    }
}

/// Where the variable of a `foreach` at `p` stands: after `my`, if there is one.
pub open spec fn loop_var_at(toks: Seq<Token>, p: int) -> int {
    if word_at(toks, p + 1, "my"@) {
        p + 2
    } else {
        p + 1
    }
}

/// What a statement at `p` that opens a block gives, short of the block's statements.
#[verifier::opaque]
pub open spec fn compound_head(r: Parsed<Vec<Stmt>>, toks: Seq<Token>, p: int, m: nat) -> bool {
    if word_at(toks, p, "if"@) {
        conditional_head(r, toks, p, false)
    } else if word_at(toks, p, "unless"@) {
        conditional_head(r, toks, p, true)
    } else if word_at(toks, p, "while"@) || word_at(toks, p, "until"@) {
        while_head(r, toks, p, m)
    } else if word_at(toks, p, "do"@) {
        do_head(r, toks, p, m)
    } else {
        for_head(r, toks, p, m)
    }
}

/// `{ statements }` at `p`.
fn parse_block(toks: &Vec<Token>, p: usize, max_unroll: usize) -> (r: Parsed<Vec<Stmt>>)
    requires
        p <= toks.len(),
    ensures
        r matches Ok((v, q)) ==> p < q <= toks.len() && stmts_wf(v@),
        block_opens(r, toks@, p as int),
        sym_at(toks@, p as int, Sym::LBrace) && sym_at(toks@, p + 1, Sym::RBrace) ==> (r matches Ok((v, q)) && v@.len()
            == 0 && q == p + 2),
        r matches Ok((_, q)) ==> sym_at(toks@, q - 1, Sym::RBrace),
    decreases toks.len() - p, 0nat,
{
    let mut q = expect_sym(toks, p, Sym::LBrace, "expected `{`")?;
    let mut out: Vec<Stmt> = Vec::new();
    loop
        invariant
            p < q <= toks.len(),
            stmts_wf(out@),
            sym_at(toks@, p as int, Sym::LBrace),
            q == p + 1 ==> out@.len() == 0,
            sym_at(toks@, p + 1, Sym::RBrace) ==> q == p + 1,
        decreases toks.len() - q,
    {
        if is_sym(toks, q, Sym::RBrace) {
            return Ok((out, q + 1));
        }
        if q >= toks.len() {
            return fail(q, "expected `}`");
        }
        let (stmts, q2) = parse_stmt(toks, q, max_unroll)?;
        extend_stmts(&mut out, stmts);
        q = q2;
    }
}

/// `if (c) {..} elsif (c) {..} ... else {..}` after the `if` at `p`, as nested ifs.
#[verifier::loop_isolation(false)]
fn parse_if(toks: &Vec<Token>, p: usize, max_unroll: usize) -> (r: Parsed<Vec<Stmt>>)
    requires
        p < toks.len(),
    ensures
        r matches Ok((v, q)) ==> p < q <= toks.len() && stmts_wf(v@),
        conditional_head(r, toks@, p as int, false),
    decreases toks.len() - p, 1nat,
{
    proof {
        reveal(conditional_head);
    }
    let (condition, q) = parse_condition(toks, p + 1)?;
    let (then_branch, q1) = parse_block(toks, q, max_unroll)?;
    let mut conds: Vec<Expr> = Vec::new();
    let mut blocks: Vec<Vec<Stmt>> = Vec::new();
    let mut q = q1;
    let mut final_else: Vec<Stmt> = Vec::new();
    loop
        invariant
            p < q <= toks.len(),
            conds@.len() == blocks@.len(),
            forall|i: int| 0 <= i < conds@.len() ==> expr_wf(#[trigger] conds@[i]),
            forall|i: int| 0 <= i < blocks@.len() ==> stmts_wf((#[trigger] blocks@[i])@),
            stmts_wf(final_else@),
        decreases toks.len() - q,
    {
        if is_word(toks, q, "elsif") {
            let (c, q2) = parse_condition(toks, q + 1)?;
            let (b, q3) = parse_block(toks, q2, max_unroll)?;
            conds.push(c);
            blocks.push(b);
            q = q3;
        } else if is_word(toks, q, "else") {
            let (b, q2) = parse_block(toks, q + 1, max_unroll)?;
            final_else = b;
            q = q2;
            break;
        } else {
            break;
        }
    }
    let mut else_branch = final_else;
    while conds.len() > 0
        invariant
            conds@.len() == blocks@.len(),
            forall|i: int| 0 <= i < conds@.len() ==> expr_wf(#[trigger] conds@[i]),
            forall|i: int| 0 <= i < blocks@.len() ==> stmts_wf((#[trigger] blocks@[i])@),
            stmts_wf(else_branch@),
        decreases conds.len(),
    {
        let c = conds.pop().unwrap();
        let b = blocks.pop().unwrap();
        let nested = Stmt::If { condition: c, then_branch: b, else_branch };
        assert(stmt_wf(nested));
        else_branch = one_stmt(nested);
    }
    let s = Stmt::If { condition, then_branch, else_branch };
    assert(stmt_wf(s));
    Ok((one_stmt(s), q))
}

/// The statement or statements at `p`.
#[verifier::rlimit(100)]
#[verifier::spinoff_prover]
fn parse_stmt(toks: &Vec<Token>, p: usize, max_unroll: usize) -> (r: Parsed<Vec<Stmt>>)
    requires
        p < toks.len(),
    ensures
        r matches Ok((v, q)) ==> p < q <= toks.len() && stmts_wf(v@),
        compound_at(toks@, p as int) ==> compound_head(r, toks@, p as int, max_unroll as nat),
    decreases toks.len() - p, 2nat,
{
    if is_word(toks, p, "my") {
        if is_sym(toks, p + 1, Sym::LParen) {
            return parse_list_assign(toks, p + 1, true);
        }
        if p + 1 < toks.len() && is_sym(toks, p + 2, Sym::Semi) {
            return match scalar_at(toks, p + 1) {
                Some(name) => Ok((one_stmt(Stmt::Declare { name }), p + 3)),
                None => fail(p + 1, "expected a variable"),
            };
        }
        let (s, q) = parse_simple_assignment(toks, p + 1, true)?;
        let (m, q2) = parse_modifier(toks, q)?;
        let q3 = expect_sym(toks, q2, Sym::Semi, "expected `;`")?;
        return Ok((one_stmt(apply_modifier(s, m)), q3));
    }
    if is_sym(toks, p, Sym::LParen) {
        return parse_list_assign(toks, p, false);
    }
    if is_word(toks, p, "if") {
        proof {
            reveal(compound_head);
        }
        return parse_if(toks, p, max_unroll);
    }
    if is_word(toks, p, "unless") {
        proof {
            reveal(compound_head);
            reveal(conditional_head);
        }
        let (condition, q) = parse_condition(toks, p + 1)?;
        let (then_branch, q1) = parse_block(toks, q, max_unroll)?;
        let (else_branch, q2) = if is_word(toks, q1, "else") {
            parse_block(toks, q1 + 1, max_unroll)?
        } else {
            (Vec::new(), q1)
        };
        let s = Stmt::If { condition: negate(condition), then_branch, else_branch };
        assert(stmt_wf(s));
        return Ok((one_stmt(s), q2));
    }
    if is_word(toks, p, "while") || is_word(toks, p, "until") {
        proof {
            reveal(compound_head);
            reveal(while_head);
        }
        let until = is_word(toks, p, "until");
        let (condition, q) = parse_condition(toks, p + 1)?;
        let (body, q1) = parse_block(toks, q, max_unroll)?;
        let condition = if until { negate(condition) } else { condition };
        return Ok((crate::lowering::lower_while(&condition, &body, max_unroll), q1));
    }
    if is_word(toks, p, "do") {
        proof {
            reveal(compound_head);
            reveal(do_head);
        }
        let (body, q) = parse_block(toks, p + 1, max_unroll)?;
        let until = if is_word(toks, q, "while") {
            false
        } else if is_word(toks, q, "until") {
            true
        } else {
            return fail(q, "expected `while` or `until` after a `do` block");
        };
        let (condition, q1) = parse_condition(toks, q + 1)?;
        let q2 = expect_sym(toks, q1, Sym::Semi, "expected `;`")?;
        let condition = if until { negate(condition) } else { condition };
        return Ok((crate::lowering::lower_do_while(&condition, &body, max_unroll), q2));
    }
    if is_word(toks, p, "for") || is_word(toks, p, "foreach") {
        proof {
            reveal(compound_head);
        }
        return parse_for(toks, p, max_unroll);
    }
    if is_word(toks, p, "return") {
        let (e, q) = parse_ternary(toks, p + 1)?;
        let (m, q1) = parse_modifier(toks, q)?;
        let q2 = expect_sym(toks, q1, Sym::Semi, "expected `;`")?;
        return Ok((one_stmt(apply_modifier(Stmt::Return(e), m)), q2));
    }
    if is_word(toks, p, "die") {
        let (e, q) = if is_sym(toks, p + 1, Sym::Semi) || is_word(toks, p + 1, "if") || is_word(toks, p + 1, "unless") {
            (Expr::String(String::new()), p + 1)
        } else {
            parse_ternary(toks, p + 1)?
        };
        let (m, q1) = parse_modifier(toks, q)?;
        let q2 = expect_sym(toks, q1, Sym::Semi, "expected `;`")?;
        return Ok((one_stmt(apply_modifier(Stmt::Die(e), m)), q2));
    }
    if is_word(toks, p, "warn") || is_word(toks, p, "print") || is_word(toks, p, "say") {
        let q = skip_statement(toks, p + 1)?;
        let out: Vec<Stmt> = Vec::new();
        assert(stmts_view(out@) =~= Seq::<StmtV>::empty());
        return Ok((out, q));
    }
    if is_word(toks, p, "last") || is_word(toks, p, "next") {
        let s = if is_word(toks, p, "last") { Stmt::Last } else { Stmt::Next };
        let (m, q1) = parse_modifier(toks, p + 1)?;
        let q2 = expect_sym(toks, q1, Sym::Semi, "expected `;`")?;
        return Ok((one_stmt(apply_modifier(s, m)), q2));
    }
    if is_word(toks, p, "push") {
        let parens = is_sym(toks, p + 1, Sym::LParen);
        let q = if parens { p + 2 } else { p + 1 };
        if q >= toks.len() {
            return fail(q, "expected an array");
        }
        let array = match &toks[q].tok {
            Tok::ArrayName(n) => copy_string(n),
            _ => {
                return fail(q, "expected an array");
            },
        };
        let q1 = expect_sym(toks, q + 1, Sym::Comma, "expected `,`")?;
        let (value, q2) = parse_ternary(toks, q1)?;
        let q3 = if parens { expect_sym(toks, q2, Sym::RParen, "expected `)`")? } else { q2 };
        let q4 = expect_sym(toks, q3, Sym::Semi, "expected `;`")?;
        return Ok((one_stmt(Stmt::Push { array, value }), q4));
    }
    let (s, q) = parse_simple_assignment(toks, p, false)?;
    let (m, q1) = parse_modifier(toks, q)?;
    let q2 = expect_sym(toks, q1, Sym::Semi, "expected `;`")?;
    Ok((one_stmt(apply_modifier(s, m)), q2))
}

/// `r` is the outcome `o`, the statements taken by their values.
pub open spec fn stmts_parsed_as(r: Parsed<Vec<Stmt>>, o: Outcome<Seq<StmtV>>) -> bool {
    match (r, o) {
        (Ok((v, q)), Ok((sv, q2))) => stmts_view(v@) == sv && q == q2,
        (Err(err), Err((pos, msg))) => err.pos == pos && err.message@ == msg,
        _ => false,
    }
}

/// Statements found so far, followed by the outcome of the rest.
pub open spec fn after_stmts(found: Seq<StmtV>, rest: Outcome<Seq<StmtV>>) -> Outcome<Seq<StmtV>> {
    match rest {
        Ok((ss, k)) => Ok((found + ss, k)),
        Err(e) => Err(e),
    }
}

/// The comma-separated assignments from `q` on, each with an optional `my`.
pub open spec fn assignments_from(toks: Seq<Token>, q: int) -> Outcome<Seq<StmtV>>
    decreases toks.len() - q,
{
    let declaration = word_at(toks, q, "my"@);
    let start = if declaration { q + 1 } else { q };
    match assignment_grammar(toks, start, declaration) {
        Err(e) => Err(e),
        Ok((sv, q2)) => if q2 <= q {
            Err((q2, Seq::empty()))
        } else if sym_at(toks, q2, Sym::Comma) {
            match assignments_from(toks, q2 + 1) {
                Ok((ss, k)) => Ok((seq![sv] + ss, k)),
                Err(e) => Err(e),
            }
        } else {
            Ok((seq![sv], q2))
        },
    }
}

/// What the assignments of a `for` header up to `end` parse to: none when
/// `end` comes at once.
pub open spec fn for_assignments_grammar(toks: Seq<Token>, p: int, end: Sym) -> Outcome<Seq<StmtV>> {
    if sym_at(toks, p, end) {
        Ok((Seq::empty(), p))
    } else {
        assignments_from(toks, p)
    }
}

/// Assignments separated by commas, up to (not including) `end`.
#[verifier::loop_isolation(false)]
fn parse_for_assignments(toks: &Vec<Token>, p: usize, end: Sym) -> (r: Parsed<Vec<Stmt>>)
    requires
        p <= toks.len(),
    ensures
        r matches Ok((v, q)) ==> p <= q <= toks.len() && stmts_wf(v@),
        stmts_parsed_as(r, for_assignments_grammar(toks@, p as int, end)),
{
    let mut out: Vec<Stmt> = Vec::new();
    proof {
        assert(stmts_view(out@) =~= Seq::<StmtV>::empty());
    }
    if is_sym(toks, p, end) {
        return Ok((out, p));
    }
    let mut q = p;
    loop
        invariant
            p <= q <= toks.len(),
            stmts_wf(out@),
            for_assignments_grammar(toks@, p as int, end) == after_stmts(stmts_view(out@), assignments_from(toks@, q as int)),
        decreases toks.len() - q,
    {
        let declaration = is_word(toks, q, "my");
        let start = if declaration { q + 1 } else { q };
        let (s, q2) = parse_simple_assignment(toks, start, declaration)?;
        let ghost before = stmts_view(out@);
        proof {
            crate::ast::lemma_stmts_view_push(out@, s);
        }
        out.push(s);
        if is_sym(toks, q2, Sym::Comma) {
            proof {
                if let Ok((ss, k)) = assignments_from(toks@, q2 + 1) {
                    assert(before + (seq![stmt_view(s)] + ss) =~= before.push(stmt_view(s)) + ss);
                }
            }
            q = q2 + 1;
        } else {
            proof {
                assert(before + seq![stmt_view(s)] =~= before.push(stmt_view(s)));
            }
            return Ok((out, q2));
        }
    }
}

/// A `for`/`foreach` loop at `p`: C-style or over an array.
#[verifier::rlimit(40)]
fn parse_for(toks: &Vec<Token>, p: usize, max_unroll: usize) -> (r: Parsed<Vec<Stmt>>)
    requires
        p < toks.len(),
    ensures
        r matches Ok((v, q)) ==> p < q <= toks.len() && stmts_wf(v@),
        for_head(r, toks@, p as int, max_unroll as nat),
    decreases toks.len() - p, 1nat,
{
    proof {
        reveal(for_head);
    }
    if is_sym(toks, p + 1, Sym::LParen) {
        let (init, q) = parse_for_assignments(toks, p + 2, Sym::Semi)?;
        let q1 = expect_sym(toks, q, Sym::Semi, "expected `;`")?;
        let (condition, q2) = parse_ternary(toks, q1)?;
        let q3 = expect_sym(toks, q2, Sym::Semi, "expected `;`")?;
        let (step, q4) = parse_for_assignments(toks, q3, Sym::RParen)?;
        let q5 = expect_sym(toks, q4, Sym::RParen, "expected `)`")?;
        let (body, q6) = parse_block(toks, q5, max_unroll)?;
        let mut out = init;
        let lowered = crate::lowering::lower_for(&condition, &body, &step, max_unroll);
        let ghost lv = lowered@;
        extend_stmts(&mut out, lowered);
        proof {
            crate::ast::lemma_stmts_view_add(init@, lv);
            assert(stmts_view(out@) == stmts_view(init@) + crate::lowering::for_v(
                expr_view(condition),
                stmts_view(body@),
                stmts_view(step@),
                max_unroll as nat,
            ));
        }
        return Ok((out, q6));
    }
    let q = if is_word(toks, p + 1, "my") { p + 2 } else { p + 1 };
    let var = match scalar_at(toks, q) {
        Some(n) => n,
        None => {
            return fail(q, "expected a loop variable");
        },
    };
    let (array, q1) = parse_array_arg(toks, q + 1)?;
    let (body, q2) = parse_block(toks, q1, max_unroll)?;
    let lowered = crate::lowering::lower_foreach(&var, &array, &body, max_unroll);
    proof {
        assert(!sym_at(toks@, p + 1, Sym::LParen));
        assert(scalar_tok(toks@, q as int));
        assert(grammar_array_arg(toks@, q + 1) == Outcome::Ok((array@, q1 as int)));
        assert(sym_at(toks@, q1 as int, Sym::LBrace));
        assert(scalar_name(toks@, q as int) == var@);
        assert(exists|b: Seq<StmtV>| stmts_view(lowered@) == crate::lowering::foreach_v(
            scalar_name(toks@, q as int),
            array@,
            b,
            max_unroll as nat,
        ));
        assert(stmts_view(lowered@) == crate::lowering::foreach_v(
            scalar_name(toks@, q as int),
            array@,
            stmts_view(body@),
            max_unroll as nat,
        ));
        let ghost rr: Parsed<Vec<Stmt>> = Ok((lowered, q2));
        assert(block_opens(rr, toks@, q1 as int));
        assert(rr matches Ok((v, _)) ==> exists|b: Seq<StmtV>| stmts_view(v@) == crate::lowering::foreach_v(
            scalar_name(toks@, q as int),
            array@,
            b,
            max_unroll as nat,
        ));
        assert(q == loop_var_at(toks@, p as int));
        assert(exists|b: Seq<StmtV>| stmts_view(lowered@) == crate::lowering::foreach_v(
            scalar_name(toks@, loop_var_at(toks@, p as int)),
            array@,
            b,
            max_unroll as nat,
        ));
        assert(for_head(rr, toks@, p as int, max_unroll as nat));
    }
    Ok((lowered, q2))
}

} // verus!

verus! {

/// A function body that does not parse.
#[derive(Debug)]
pub enum ParseError {
    InvalidSyntax { function: String, line: usize, column: usize, message: String },
}

impl ParseError {
    /// The text that reports the error.
    pub open spec fn describe(&self) -> Seq<char> {
        match self {
            ParseError::InvalidSyntax { function, line, column, message } => "function `"@ + function@ + "` has invalid syntax at "@ + decimal(*line as nat) + ":"@ + decimal(*column as nat) + ": "@ + message@,
        }
    }

    /// The text that reports the error.
    pub fn message(&self) -> (r: String)
        ensures
            r@ == self.describe(),
    {
        match self {
            ParseError::InvalidSyntax { function, line, column, message } => {
                let mut m = String::new();
                push_str(&mut m, "function `");
                push_string(&mut m, function);
                push_str(&mut m, "` has invalid syntax at ");
                push_u64(&mut m, *line as u64);
                push_str(&mut m, ":");
                push_u64(&mut m, *column as u64);
                push_str(&mut m, ": ");
                push_string(&mut m, message);
                m
            },
        }
    }
}

/// The line and column of token `pos`, or of the last token when `pos` is past the end.
fn position_of(toks: &Vec<Token>, pos: usize) -> (r: (usize, usize))
    ensures
        pos < toks@.len() ==> r == (toks@[pos as int].line, toks@[pos as int].column),
        pos >= toks@.len() && toks@.len() > 0 ==> r == (toks@.last().line, toks@.last().column),
        toks@.len() == 0 ==> r == (1usize, 1usize),
{
    if pos < toks.len() {
        (toks[pos].line, toks[pos].column)
    } else if toks.len() > 0 {
        let last = toks.len() - 1;
        (toks[last].line, toks[last].column)
    } else {
        (1, 1)
    }
}

/// `message` followed by ` at LINE:COLUMN`.
fn located(message: &String, line: usize, column: usize) -> (r: String)
    ensures
        r@ == "syntax error at "@ + crate::text::decimal(line as nat) + ":"@ + crate::text::decimal(column as nat) + ": "@
            + message@,
{
    let mut s = str_to_string("syntax error at ");
    append_str(&mut s, &decimal_string(line));
    append_str(&mut s, &str_to_string(":"));
    append_str(&mut s, &decimal_string(column));
    append_str(&mut s, &str_to_string(": "));
    append_str(&mut s, message);
    s
}

fn append_str(s: &mut String, t: &String)
    ensures
        final(s)@ == old(s)@ + t@,
{
    let chars = crate::text::chars_of(t.as_str());
    let mut i: usize = 0;
    let ghost start = s@;
    while i < chars.len()
        invariant
            i <= chars@.len(),
            chars@ == t@,
            s@ == start + chars@.take(i as int),
        decreases chars.len() - i,
    {
        crate::text::push_char(s, chars[i]);
        assert(start + chars@.take(i as int) + seq![chars@[i as int]] =~= start + chars@.take(i + 1));
        i += 1;
    }
    assert(chars@.take(i as int) =~= chars@);
}

/// A token list with the token values `vs`.
pub open spec fn tokens_of(vs: Seq<TokenV>) -> Seq<Token> {
    choose|t: Seq<Token>| token_views(t) == vs
}

/// The text of a syntax error with message `msg` at token `pos` of `vs`
/// (at the last token past the end, and at 1:1 when there is none).
pub open spec fn error_at(vs: Seq<TokenV>, pos: int, msg: Seq<char>) -> Seq<char> {
    let line = if 0 <= pos < vs.len() {
        vs[pos].line
    } else if vs.len() > 0 {
        vs.last().line
    } else {
        1
    };
    let column = if 0 <= pos < vs.len() {
        vs[pos].column
    } else if vs.len() > 0 {
        vs.last().column
    } else {
        1
    };
    "syntax error at "@ + decimal(line as nat) + ":"@ + decimal(column as nat) + ": "@ + msg
}

/// The expression that `text` makes up whole, as a value, or nothing when it
/// does not lex or its tokens do not read as one expression.
pub open spec fn expr_outcome(text: Seq<char>) -> Option<ExprV> {
    match lexed(text) {
        Err(_) => None,
        Ok(vs) => match grammar_ternary(tokens_of(vs), 0) {
            Ok((v, k)) => if k == vs.len() {
                Some(v)
            } else {
                None
            },
            Err(_) => None,
        },
    }
}

/// `text` is the expression `e`, written whole.
pub open spec fn parses_to(text: Seq<char>, e: Expr) -> bool {
    expr_outcome(text) == Some(expr_view(e))
}

/// An annotation expression: the whole of `input` as one expression, or the
/// located message of the first lexical or syntax error.
pub fn parse_expr(input: &str) -> (r: Result<Expr, String>)
    ensures
        r matches Ok(e) ==> expr_wf(e),
        r matches Ok(e) ==> parses_to(input@, e),
        r is Ok <==> expr_outcome(input@) is Some,
        lexed(input@) matches Ok(vs) ==> match grammar_ternary(tokens_of(vs), 0) {
            Ok((v, k)) => k != vs.len() ==> (r matches Err(s) && s@ == error_at(
                vs,
                k,
                "unexpected input after the expression"@,
            )),
            Err((pos, msg)) => r matches Err(s) && s@ == error_at(vs, pos, msg),
        },
        lexed(input@) matches Err((line, column, message)) ==> (r matches Err(s) && s@ == "syntax error at "@ + decimal(
            line as nat,
        ) + ":"@ + decimal(column as nat) + ": "@ + message),
{
    let toks = match tokenize(input) {
        Ok(t) => t,
        Err(e) => {
            return Err(located(&e.message, e.line, e.column));
        },
    };
    proof {
        let vs = token_views(toks@);
        assert(token_views(tokens_of(vs)) == vs);
        lemma_grammar_by_views(tokens_of(vs), toks@);
        assert(vs.len() == toks@.len());
        assert(forall|i: int| 0 <= i < vs.len() ==> #[trigger] vs[i] == token_view(toks@[i]));
    }
    match parse_ternary(&toks, 0) {
        Ok((e, q)) => {
            if q == toks.len() {
                assert(grammar_ternary(toks@, 0) == Outcome::<ExprV>::Ok((expr_view(e), toks@.len() as int)));
                Ok(e)
            } else {
                let (line, column) = position_of(&toks, q);
                Err(located(&str_to_string("unexpected input after the expression"), line, column))
            }
        },
        Err(err) => {
            let (line, column) = position_of(&toks, err.pos);
            Err(located(&err.message, line, column))
        },
    }
}

/// What the parameter binding `my (...) = @_;` or `my $a = @_;` at the
/// start of a body parses to.
pub open spec fn binding_grammar(toks: Seq<Token>) -> Outcome<Seq<Seq<char>>> {
    let message = "expected the parameter binding `my (...) = @_;`"@;
    if !word_at(toks, 0, "my"@) {
        Err((0, message))
    } else {
        let head: Outcome<Seq<Seq<char>>> = if sym_at(toks, 1, Sym::LParen) {
            var_list_grammar(toks, 1)
        } else if scalar_tok(toks, 1) {
            Ok((seq![scalar_name(toks, 1)], 2))
        } else {
            Err((1, message))
        };
        match head {
            Err(e) => Err(e),
            Ok((names, q)) => if !sym_at(toks, q, Sym::Assign) {
                Err((q, "expected `= @_`"@))
            } else if !(q + 1 < toks.len() && (toks[q + 1].tok matches Tok::ArrayName(n) && n@ == "_"@)) {
                Err((q + 1, "expected `@_`"@))
            } else if !sym_at(toks, q + 2, Sym::Semi) {
                Err((q + 2, "expected `;`"@))
            } else {
                Ok((names, q + 3))
            },
        }
    }
}

/// The parameter binding `my ($a, $b) = @_;` (or `my $a = @_;`) at the start of a body.
fn parse_parameter_binding(toks: &Vec<Token>) -> (r: Parsed<Vec<String>>)
    ensures
        r matches Ok((_, q)) ==> q <= toks.len(),
        match binding_grammar(toks@) {
            Ok((names, q)) => r matches Ok((v, q2)) && q2 == q && v@.map_values(|n: String| n@) == names,
            Err((pos, msg)) => r matches Err(e) && e.pos == pos && e.message@ == msg,
        },
{
    if !is_word(toks, 0, "my") {
        return fail(0, "expected the parameter binding `my (...) = @_;`");
    }
    let (params, q) = if is_sym(toks, 1, Sym::LParen) {
        parse_var_list(toks, 1)?
    } else {
        match scalar_at(toks, 1) {
            Some(n) => {
                let mut v: Vec<String> = Vec::new();
                v.push(n);
                assert(v@.map_values(|x: String| x@) =~= seq![n@]);
                (v, 2)
            },
            None => {
                return fail(1, "expected the parameter binding `my (...) = @_;`");
            },
        }
    };
    let q1 = expect_sym(toks, q, Sym::Assign, "expected `= @_`")?;
    let underscore = if q1 < toks.len() {
        match &toks[q1].tok {
            Tok::ArrayName(n) => {
                let u = str_to_string("_");
                string_eq(n, &u)
            },
            _ => false,
        }
    } else {
        false
    };
    if !underscore {
        return fail(q1, "expected `@_`");
    }
    let q2 = expect_sym(toks, q1 + 1, Sym::Semi, "expected `;`")?;
    Ok((params, q2))
}

/// The AST of an extracted function, with loops unrolled `max_loop_unroll` times.
pub fn parse_function_ast_with_limits(function: &crate::extractor::ExtractedFunction, max_loop_unroll: usize) -> (r: Result<
    FunctionAst,
    ParseError,
>)
    ensures
        match r {
            Ok(ast) => ast.name@ == function.name@ && stmts_wf(ast.body@),
            Err(ParseError::InvalidSyntax { function: f, .. }) => f@ == function.name@,
        },
        lexed(function.body@) matches Err((l, c, m)) ==> (r matches Err(ParseError::InvalidSyntax { line, column, message, .. })
            && line == l && column == c && message@ == m),
{
    let toks = match tokenize(function.body.as_str()) {
        Ok(t) => t,
        Err(e) => {
            return Err(
                ParseError::InvalidSyntax {
                    function: copy_string(&function.name),
                    line: e.line,
                    column: e.column,
                    message: e.message,
                },
            );
        },
    };
    let mut body: Vec<Stmt> = Vec::new();
    let result = match parse_parameter_binding(&toks) {
        Ok((params, q0)) => {
            let mut q = q0;
            let mut failure: Option<SyntaxError> = None;
            while q < toks.len()
                invariant
                    q <= toks.len(),
                    stmts_wf(body@),
                decreases toks.len() - q,
            {
                match parse_stmt(&toks, q, max_loop_unroll) {
                    Ok((stmts, q2)) => {
                        extend_stmts(&mut body, stmts);
                        q = q2;
                    },
                    Err(e) => {
                        failure = Some(e);
                        break;
                    },
                }
            }
            match failure {
                None => Ok(params),
                Some(e) => Err(e),
            }
        },
        Err(e) => Err(e),
    };
    match result {
        Ok(params) => Ok(FunctionAst { name: copy_string(&function.name), params, body }),
        Err(e) => {
            let (line, column) = position_of(&toks, e.pos);
            Err(ParseError::InvalidSyntax { function: copy_string(&function.name), line, column, message: e.message })
        },
    }
}

/// The AST of an extracted function, with the default loop unrolling bound.
pub fn parse_function_ast(function: &crate::extractor::ExtractedFunction) -> (r: Result<FunctionAst, ParseError>)
    ensures
        match r {
            Ok(ast) => ast.name@ == function.name@ && stmts_wf(ast.body@),
            Err(ParseError::InvalidSyntax { function: f, .. }) => f@ == function.name@,
        },
{
    parse_function_ast_with_limits(function, crate::limits::DEFAULT_MAX_LOOP_UNROLL)
}

} // verus!
