//! The SMT-LIB2 text of symbolic terms: each term is written over 64-bit
//! vectors, strings and arrays, together with the constants it declares and
//! the facts that pin down the auxiliary constants it introduces.

use vstd::prelude::*;

use crate::symexec::{ArrayIntExpr, ArrayStrExpr, BoolExpr, CmpOp, HashIntExpr, HashStrExpr, IntExpr, StrExpr};
use crate::text::{chars_of, decimal, push_char, push_str, push_string, push_u64, str_to_string, string_eq};

verus! {

/// What writing one term contributes: its text, the fresh-symbol counter
/// afterwards, the `(assert ..)` lines of its facts, and the constants it
/// declares (name and sort), in order.
pub struct Piece {
    pub term: Seq<char>,
    pub after: nat,
    pub facts: Seq<char>,
    pub decls: Seq<(Seq<char>, Seq<char>)>,
}

/// The state gathered while writing terms: the declarations written so far,
/// the names they declare, the fact lines, and the fresh-symbol counter.
pub struct Encoder {
    pub decls: String,
    pub declared: Vec<String>,
    pub facts: String,
    pub fresh: usize,
}

impl Encoder {
    /// The names declared so far.
    pub open spec fn names(&self) -> Seq<Seq<char>> {
        self.declared@.map_values(|s: String| s@)
    }
}

/// `(declare-const |name| sort)` and a line break.
pub open spec fn decl_line(name: Seq<char>, sort: Seq<char>) -> Seq<char> {
    "(declare-const |"@ + name + "| "@ + sort + ")\n"@
}

/// Declares `req.0` of sort `req.1` unless it is declared already.
pub open spec fn declare_one(st: (Seq<Seq<char>>, Seq<char>), req: (Seq<char>, Seq<char>)) -> (Seq<Seq<char>>, Seq<char>) {
    if st.0.contains(req.0) {
        st
    } else {
        (st.0.push(req.0), st.1 + decl_line(req.0, req.1))
    }
}

/// The declarations of `reqs`, in order, each at most once.
pub open spec fn declare_all(st: (Seq<Seq<char>>, Seq<char>), reqs: Seq<(Seq<char>, Seq<char>)>) -> (
    Seq<Seq<char>>,
    Seq<char>,
)
    decreases reqs.len(),
{
    if reqs.len() == 0 {
        st
    } else {
        declare_one(declare_all(st, reqs.drop_last()), reqs.last())
    }
}

/// Declaring `a` and then `b` is declaring `a + b`.
pub proof fn lemma_declare_all_concat(
    st: (Seq<Seq<char>>, Seq<char>),
    a: Seq<(Seq<char>, Seq<char>)>,
    b: Seq<(Seq<char>, Seq<char>)>,
)
    ensures
        declare_all(st, a + b) == declare_all(declare_all(st, a), b),
    decreases b.len(),
{
    if b.len() == 0 {
        assert(a + b =~= a);
    } else {
        lemma_declare_all_concat(st, a, b.drop_last());
        assert((a + b).drop_last() =~= a + b.drop_last());
        assert((a + b).last() == b.last());
    }
}

/// Declaring one request.
pub proof fn lemma_declare_single(st: (Seq<Seq<char>>, Seq<char>), req: (Seq<char>, Seq<char>))
    ensures
        declare_all(st, seq![req]) == declare_one(st, req),
{
    let one = seq![req];
    assert(one.drop_last() =~= Seq::<(Seq<char>, Seq<char>)>::empty());
    assert(declare_all(st, one.drop_last()) == st);
    assert(one.last() == req);
}

/// Declaring keeps every name that was declared, declares every name
/// that is asked for, and declares no name twice.
pub proof fn lemma_declarations_complete(st: (Seq<Seq<char>>, Seq<char>), reqs: Seq<(Seq<char>, Seq<char>)>)
    requires
        st.0.no_duplicates(),
    ensures
        declare_all(st, reqs).0.no_duplicates(),
        forall|x: Seq<char>| st.0.contains(x) ==> #[trigger] declare_all(st, reqs).0.contains(x),
        forall|i: int| 0 <= i < reqs.len() ==> declare_all(st, reqs).0.contains(#[trigger] reqs[i].0),
    decreases reqs.len(),
{
    if reqs.len() > 0 {
        let front = reqs.drop_last();
        lemma_declarations_complete(st, front);
        let mid = declare_all(st, front);
        let last = reqs.last();
        assert(declare_all(st, reqs) == declare_one(mid, last));
        if !mid.0.contains(last.0) {
            let grown = mid.0.push(last.0);
            assert forall|a: int, b: int| 0 <= a < b < grown.len() implies grown[a] != grown[b] by {
                if b == grown.len() - 1 {
                    assert(mid.0[a] == grown[a]);
                }
            }
            assert forall|x: Seq<char>| mid.0.contains(x) implies grown.contains(x) by {
                let k = choose|k: int| 0 <= k < mid.0.len() && mid.0[k] == x;
                assert(grown[k] == x);
            }
            assert(grown[grown.len() - 1] == last.0);
        }
        assert forall|i: int| 0 <= i < reqs.len() implies declare_all(st, reqs).0.contains(#[trigger] reqs[i].0) by {
            if i < reqs.len() - 1 {
                assert(front[i] == reqs[i]);
            }
        }
    }
}

/// `before` becomes `after` by the effects of `p`: the counter, the facts
/// and the declarations.
pub open spec fn encodes(before: Encoder, after: Encoder, p: Piece) -> bool {
    &&& after.fresh == p.after
    &&& after.facts@ == before.facts@ + p.facts
    &&& (after.names(), after.decls@) == declare_all((before.names(), before.decls@), p.decls)
}

/// A term with no effects.
pub open spec fn leaf(term: Seq<char>, n: nat) -> Piece {
    Piece { term, after: n, facts: Seq::empty(), decls: Seq::empty() }
}

/// `p` between `pre` and `post`.
pub open spec fn wrap(pre: Seq<char>, p: Piece, post: Seq<char>) -> Piece {
    Piece { term: pre + p.term + post, after: p.after, facts: p.facts, decls: p.decls }
}

/// `a`, then `mid`, then `b` (written after `a`).
pub open spec fn join(a: Piece, mid: Seq<char>, b: Piece) -> Piece {
    Piece { term: a.term + mid + b.term, after: b.after, facts: a.facts + b.facts, decls: a.decls + b.decls }
}

/// The effects of `a` and then of `b`, with the text `term`.
pub open spec fn effects2(term: Seq<char>, a: Piece, b: Piece) -> Piece {
    Piece { term, after: b.after, facts: a.facts + b.facts, decls: a.decls + b.decls }
}

pub proof fn lemma_encodes_refl(e: Encoder, term: Seq<char>)
    ensures
        encodes(e, e, leaf(term, e.fresh as nat)),
{
    assert(e.facts@ + Seq::<char>::empty() =~= e.facts@);
}

/// Effects compose.
pub proof fn lemma_encodes_chain(e0: Encoder, e1: Encoder, e2: Encoder, a: Piece, b: Piece, term: Seq<char>)
    requires
        encodes(e0, e1, a),
        encodes(e1, e2, b),
    ensures
        encodes(e0, e2, effects2(term, a, b)),
{
    assert(e2.facts@ =~= e0.facts@ + (a.facts + b.facts));
    lemma_declare_all_concat((e0.names(), e0.decls@), a.decls, b.decls);
}

/// The counter after one fresh symbol.
pub open spec fn bump(n: nat) -> nat {
    if n < usize::MAX {
        n + 1
    } else {
        n
    }
}

/// `|prefix name|`
pub open spec fn symbol(prefix: Seq<char>, name: Seq<char>) -> Seq<char> {
    "|"@ + prefix + name + "|"@
}

/// The constant `prefix name` of sort `sort`.
pub open spec fn var_piece(prefix: Seq<char>, name: Seq<char>, sort: Seq<char>, n: nat) -> Piece {
    Piece { term: symbol(prefix, name), after: n, facts: Seq::empty(), decls: seq![(prefix + name, sort)] }
}

/// The fresh constant numbered `n`, with the name stem `stem`.
pub open spec fn fresh_piece(stem: Seq<char>, sort: Seq<char>, n: nat) -> Piece {
    Piece {
        term: symbol("f:"@, stem + decimal(n)),
        after: bump(n),
        facts: Seq::empty(),
        decls: seq![("f:"@ + (stem + decimal(n)), sort)],
    }
}

/// `(assert fact)` and a line break.
pub open spec fn assert_line(fact: Seq<char>) -> Seq<char> {
    "(assert "@ + fact + ")\n"@
}

/// The signed integer value of the 64-bit vector named `v`.
pub open spec fn signed(v: Seq<char>) -> Seq<char> {
    "(ite (bvslt "@ + v + " (_ bv0 64)) (- (bv2nat "@ + v + ") 18446744073709551616) (bv2nat "@ + v + "))"@
}

/// `(op a b)`
pub open spec fn binop_text(op: Seq<char>, a: Seq<char>, b: Seq<char>) -> Seq<char> {
    "("@ + op + " "@ + a + " "@ + b + ")"@
}

/// The 64-bit vector literal of `v` (two's complement).
pub open spec fn bv_literal(v: i64) -> Seq<char> {
    "(_ bv"@ + decimal((v as u64) as nat) + " 64)"@
}

/// The integer literal `v`.
pub open spec fn int_literal(v: i64) -> Seq<char> {
    if v >= 0 {
        decimal(v as nat)
    } else if v == i64::MIN {
        "(- 9223372036854775808)"@
    } else {
        "(- "@ + decimal((-v) as nat) + ")"@
    }
}

/// The hexadecimal digit of `d` (below sixteen).
pub open spec fn hex_digit_char(d: nat) -> char {
    if d < 10 {
        crate::text::digit_char(d)
    } else if d == 10 {
        'a'
    } else if d == 11 {
        'b'
    } else if d == 12 {
        'c'
    } else if d == 13 {
        'd'
    } else if d == 14 {
        'e'
    } else {
        'f'
    }
}

/// The hexadecimal numeral of `v`, without leading zeros.
pub open spec fn hex(v: nat) -> Seq<char>
    decreases v,
{
    if v < 16 {
        seq![hex_digit_char(v)]
    } else {
        hex(v / 16).push(hex_digit_char(v % 16))
    }
}

/// One character inside a string literal: a quote is doubled, printable
/// ASCII but `\` stands for itself, and everything else is `\u{hex}`.
pub open spec fn escaped(c: char) -> Seq<char> {
    if c == '"' {
        "\"\""@
    } else if ' ' <= c && c <= '~' && c != '\\' {
        seq![c]
    } else {
        "\\u{"@ + hex(c as u32 as nat) + "}"@
    }
}

/// The characters of `s`, escaped.
pub open spec fn escape_all(s: Seq<char>) -> Seq<char>
    decreases s.len(),
{
    if s.len() == 0 {
        Seq::empty()
    } else {
        escape_all(s.drop_last()) + escaped(s.last())
    }
}

/// The string literal of `s`.
pub open spec fn string_literal(s: Seq<char>) -> Seq<char> {
    "\""@ + escape_all(s) + "\""@
}

/// `k` copies of `s`.
pub open spec fn repeat(s: Seq<char>, k: nat) -> Seq<char>
    decreases k,
{
    if k == 0 {
        Seq::empty()
    } else {
        repeat(s, (k - 1) as nat) + s
    }
}

pub fn new_encoder() -> (enc: Encoder)
    ensures
        enc.decls@ == Seq::<char>::empty(),
        enc.names() == Seq::<Seq<char>>::empty(),
        enc.facts@ == Seq::<char>::empty(),
        enc.fresh == 0,
{
    let enc = Encoder { decls: String::new(), declared: Vec::new(), facts: String::new(), fresh: 0 };
    assert(enc.names() =~= Seq::<Seq<char>>::empty());
    enc
}

fn w(out: &mut String, s: &str)
    ensures
        final(out)@ == old(out)@ + s@,
{
    push_str(out, s);
}

/// Appends `|prefix name|`.
pub(crate) fn push_symbol(out: &mut String, prefix: &str, name: &String)
    ensures
        final(out)@ == old(out)@ + symbol(prefix@, name@),
{
    push_char(out, '|');
    push_str(out, prefix);
    push_string(out, name);
    push_char(out, '|');
    proof {
        reveal_strlit("|");
    }
    assert(final(out)@ =~= old(out)@ + symbol(prefix@, name@));
}

/// Declares the constant `prefix name` of sort `sort`, once.
pub(crate) fn declare(enc: &mut Encoder, prefix: &str, name: &String, sort: &str)
    ensures
        final(enc).fresh == old(enc).fresh,
        final(enc).facts@ == old(enc).facts@,
        (final(enc).names(), final(enc).decls@) == declare_one(
            (old(enc).names(), old(enc).decls@),
            (prefix@ + name@, sort@),
        ),
{
    let mut full = str_to_string(prefix);
    push_string(&mut full, name);
    let mut i: usize = 0;
    while i < enc.declared.len()
        invariant
            i <= enc.declared@.len(),
            full@ == prefix@ + name@,
            forall|k: int| 0 <= k < i ==> enc.names()[k] != full@,
        decreases enc.declared.len() - i,
    {
        if string_eq(&enc.declared[i], &full) {
            assert(enc.names()[i as int] == full@);
            return;
        }
        i += 1;
    }
    assert(!enc.names().contains(full@));
    let ghost names0 = enc.names();
    let ghost decls0 = enc.decls@;
    w(&mut enc.decls, "(declare-const |");
    push_string(&mut enc.decls, &full);
    w(&mut enc.decls, "| ");
    w(&mut enc.decls, sort);
    w(&mut enc.decls, ")\n");
    enc.declared.push(full);
    assert(enc.names() =~= names0.push(prefix@ + name@));
    assert(enc.decls@ =~= decls0 + decl_line(prefix@ + name@, sort@));
}

/// A fresh constant of sort `sort`, declared; its symbol is returned.
fn fresh_symbol(enc: &mut Encoder, stem: &str, sort: &str) -> (sym: String)
    ensures
        sym@ == fresh_piece(stem@, sort@, old(enc).fresh as nat).term,
        encodes(*old(enc), *final(enc), fresh_piece(stem@, sort@, old(enc).fresh as nat)),
{
    let ghost n = enc.fresh as nat;
    let mut name = str_to_string(stem);
    push_u64(&mut name, enc.fresh as u64);
    if enc.fresh < usize::MAX {
        enc.fresh = enc.fresh + 1;
    }
    let ghost mid = *enc;
    declare(enc, "f:", &name, sort);
    let mut sym = String::new();
    push_symbol(&mut sym, "f:", &name);
    proof {
        let p = fresh_piece(stem@, sort@, n);
        assert(name@ == stem@ + decimal(n));
        assert(sym@ =~= p.term);
        lemma_declare_single((old(enc).names(), old(enc).decls@), p.decls[0]);
        assert(p.decls =~= seq![p.decls[0]]);
        assert(enc.facts@ =~= old(enc).facts@ + p.facts);
    }
    sym
}

/// Appends the 64-bit vector literal of `v`.
fn push_bv(out: &mut String, v: i64)
    ensures
        final(out)@ == old(out)@ + bv_literal(v),
{
    w(out, "(_ bv");
    push_u64(out, v as u64);
    w(out, " 64)");
    assert(final(out)@ =~= old(out)@ + bv_literal(v));
}

/// Appends the integer literal `v`.
pub(crate) fn push_int(out: &mut String, v: i64)
    ensures
        final(out)@ == old(out)@ + int_literal(v),
{
    if v >= 0 {
        push_u64(out, v as u64);
    } else if v == i64::MIN {
        w(out, "(- 9223372036854775808)");
    } else {
        w(out, "(- ");
        push_u64(out, (-v) as u64);
        w(out, ")");
        assert(final(out)@ =~= old(out)@ + int_literal(v));
    }
}

fn hex_digit(d: u32) -> (c: char)
    requires
        d < 16,
    ensures
        c == hex_digit_char(d as nat),
{
    if d < 10 {
        if d == 0 { '0' } else if d == 1 { '1' } else if d == 2 { '2' } else if d == 3 { '3' } else if d == 4 { '4' } else if d
            == 5 { '5' } else if d == 6 { '6' } else if d == 7 { '7' } else if d == 8 { '8' } else { '9' }
    } else {
        if d == 10 { 'a' } else if d == 11 { 'b' } else if d == 12 { 'c' } else if d == 13 { 'd' } else if d == 14 { 'e' } else { 'f' }
    }
}

/// Appends the hexadecimal numeral of `v`.
fn push_hex(out: &mut String, v: u32)
    ensures
        final(out)@ == old(out)@ + hex(v as nat),
    decreases v,
{
    if v >= 16 {
        push_hex(out, v / 16);
    }
    let ghost before = out@;
    push_char(out, hex_digit(v % 16));
}

/// Appends the string literal of the characters of `s`.
fn push_string_literal(out: &mut String, s: &String)
    ensures
        final(out)@ == old(out)@ + string_literal(s@),
{
    let chars = chars_of(s.as_str());
    push_char(out, '"');
    let ghost start = out@;
    let mut i: usize = 0;
    while i < chars.len()
        invariant
            i <= chars@.len(),
            chars@ == s@,
            out@ == start + escape_all(chars@.take(i as int)),
        decreases chars.len() - i,
    {
        let c = chars[i];
        let ghost before = out@;
        if c == '"' {
            w(out, "\"\"");
        } else if ' ' <= c && c <= '~' && c != '\\' {
            push_char(out, c);
            assert(out@ =~= before + seq![c]);
        } else {
            w(out, "\\u{");
            push_hex(out, c as u32);
            push_char(out, '}');
            proof {
                reveal_strlit("}");
            }
            assert(out@ =~= before + ("\\u{"@ + hex(c as u32 as nat) + "}"@));
        }
        assert(chars@.take(i + 1).drop_last() =~= chars@.take(i as int));
        assert(out@ =~= start + escape_all(chars@.take(i + 1)));
        i += 1;
    }
    assert(chars@.take(i as int) =~= s@);
    push_char(out, '"');
    proof {
        reveal_strlit("\"");
    }
    assert(final(out)@ =~= old(out)@ + string_literal(s@));
}

/// Appends `k` copies of `s`.
fn push_repeat(out: &mut String, s: &str, k: usize)
    ensures
        final(out)@ == old(out)@ + repeat(s@, k as nat),
{
    let ghost start = out@;
    let mut i: usize = 0;
    while i < k
        invariant
            i <= k,
            out@ == start + repeat(s@, i as nat),
        decreases k - i,
    {
        w(out, s);
        assert(out@ =~= start + repeat(s@, (i + 1) as nat));
        i += 1;
    }
    assert(start + repeat(s@, 0) =~= start);
}

} // verus!

verus! {

/// The sort of 64-bit vectors.
pub open spec fn bv_sort() -> Seq<char> {
    "(_ BitVec 64)"@
}

/// `(op a b)` of two terms, with the effects of both.
pub open spec fn bin(op: Seq<char>, a: Piece, b: Piece) -> Piece {
    effects2(binop_text(op, a.term, b.term), a, b)
}

/// `(ite (pred a b) (_ bv1 64) (_ bv0 64))` of two string terms.
pub open spec fn flag(pred: Seq<char>, a: Piece, b: Piece) -> Piece {
    effects2("(ite "@ + binop_text(pred, a.term, b.term) + " (_ bv1 64) (_ bv0 64))"@, a, b)
}

/// The signed integer value of a vector term.
pub open spec fn int_value(p: Piece) -> Piece {
    wrap("(let ((sv "@, p, ")) (ite (bvslt sv (_ bv0 64)) (- (bv2nat sv) 18446744073709551616) (bv2nat sv)))"@)
}

/// A term with no text that adds the fact lines `lines`.
pub open spec fn fact_piece(lines: Seq<char>, n: nat) -> Piece {
    Piece { term: Seq::empty(), after: n, facts: lines, decls: Seq::empty() }
}

/// The fact that the fresh vector `sym` has the signed value `value`, and,
/// where `nonneg`, that it is not negative.
pub open spec fn value_facts(sym: Seq<char>, value: Seq<char>, nonneg: bool) -> Seq<char> {
    assert_line(
        "(= (let ((sv "@ + sym + ")) (ite (bvslt sv (_ bv0 64)) (- (bv2nat sv) 18446744073709551616) (bv2nat sv))) "@ + value
            + ")"@,
    ) + if nonneg {
        assert_line("(bvsge "@ + sym + " (_ bv0 64))"@)
    } else {
        Seq::empty()
    }
}

/// A fresh vector whose signed value is the integer term `value` (and which
/// is not negative when `nonneg`), pinned down by facts.
pub open spec fn via_fact(value: Piece, nonneg: bool) -> Piece {
    let f = fresh_piece("i2bv_"@, bv_sort(), value.after);
    effects2(f.term, value, effects2(f.term, f, fact_piece(value_facts(f.term, value.term, nonneg), f.after)))
}

/// `(and a b)` of two side conditions.
pub open spec fn both(a: Piece, b: Piece) -> Piece {
    effects2("(and "@ + a.term + " "@ + b.term + ")"@, a, b)
}

/// `(and a b c)` of three side conditions.
pub open spec fn all3(a: Piece, b: Piece, c: Piece) -> Piece {
    effects2("(and "@ + a.term + " "@ + b.term + " "@ + c.term + ")"@, effects2(Seq::empty(), a, b), c)
}

/// The side conditions of a choice with condition `c` (its side conditions
/// `sc`) between branches with side conditions `st` and `sf`.
pub open spec fn guarded(sc: Piece, st: Piece, sf: Piece, c: Piece) -> Piece {
    effects2(
        "(let ((gc "@ + c.term + ")) (and "@ + sc.term + " (or (not gc) "@ + st.term + ") (or gc "@ + sf.term + ")))"@,
        effects2(Seq::empty(), effects2(Seq::empty(), sc, st), sf),
        c,
    )
}

/// SMT-LIB's signed bit-vector comparisons and equality, on the signed
/// values of the vectors.
pub open spec fn smt_signed_holds(name: Seq<char>, x: int, y: int) -> bool {
    if name == "bvslt"@ {
        x < y
    } else if name == "bvsle"@ {
        x <= y
    } else if name == "bvsgt"@ {
        x > y
    } else if name == "bvsge"@ {
        x >= y
    } else if name == "="@ {
        x == y
    } else {
        false
    }
}

/// SMT-LIB's string order (lexicographic, by character) and equality.
pub open spec fn smt_str_holds(name: Seq<char>, a: Seq<char>, b: Seq<char>) -> bool {
    if name == "str.<"@ {
        crate::text::seq_less(a, b)
    } else if name == "str.<="@ {
        crate::text::seq_less(a, b) || a == b
    } else if name == "="@ {
        a == b
    } else {
        false
    }
}

/// `(not t)` when `negate`, else `t`.
pub open spec fn maybe_not(negate: bool, t: Seq<char>) -> Seq<char> {
    if negate {
        "(not "@ + t + ")"@
    } else {
        t
    }
}

/// The encoding of an integer comparison of `l` and `r`.
pub open spec fn int_cmp_encoding_means(op: CmpOp, l: IntExpr, r: IntExpr, n: nat, name: Seq<char>, negate: bool) -> bool {
    let a = int_piece(l, n);
    let b = int_piece(r, a.after);
    &&& bool_piece(BoolExpr::IntCmp(op, Box::new(l), Box::new(r)), n).term == maybe_not(negate, binop_text(name, a.term, b.term))
    &&& forall|x: int, y: int| (smt_signed_holds(name, x, y) != negate) == crate::symexec::int_cmp_holds(op, x, y)
}

/// Law: an integer comparison is encoded as an SMT-LIB signed comparison
/// (perhaps negated) of the operands' terms, in order, that holds exactly
/// when the comparison holds of their values.
pub proof fn law_integer_comparison_encoding(op: CmpOp, l: IntExpr, r: IntExpr, n: nat)
    ensures
        exists|name: Seq<char>, negate: bool| #[trigger] int_cmp_encoding_means(op, l, r, n, name, negate),
{
    reveal_strlit("bvslt");
    reveal_strlit("bvsle");
    reveal_strlit("bvsgt");
    reveal_strlit("bvsge");
    reveal_strlit("=");
    let name = int_cmp_name(op);
    let a = int_piece(l, n);
    let b = int_piece(r, a.after);
    assert(bool_piece(BoolExpr::IntCmp(op, Box::new(l), Box::new(r)), n).term == maybe_not(
        op == CmpOp::Ne,
        binop_text(name, a.term, b.term),
    ));
    assert("bvslt"@ != "bvsle"@ && "bvslt"@ != "bvsgt"@ && "bvslt"@ != "bvsge"@ && "bvsle"@ != "bvsgt"@ && "bvsle"@
        != "bvsge"@ && "bvsgt"@ != "bvsge"@) by {
        assert("bvslt"@[4] != "bvsle"@[4]);
        assert("bvslt"@[3] != "bvsgt"@[3]);
        assert("bvslt"@[3] != "bvsge"@[3]);
        assert("bvsle"@[3] != "bvsgt"@[3]);
        assert("bvsle"@[3] != "bvsge"@[3]);
        assert("bvsgt"@[4] != "bvsge"@[4]);
    }
    assert("="@.len() == 1 && "bvslt"@.len() == 5 && "bvsle"@.len() == 5 && "bvsgt"@.len() == 5 && "bvsge"@.len() == 5);
    assert(forall|x: int, y: int| (smt_signed_holds(name, x, y) != (op == CmpOp::Ne)) == crate::symexec::int_cmp_holds(op, x, y));
    assert(int_cmp_encoding_means(op, l, r, n, name, op == CmpOp::Ne));
}

/// The encoding of a string comparison of `l` and `r`, with the operands
/// swapped when `swap`.
pub open spec fn str_cmp_encoding_means(
    op: CmpOp,
    l: StrExpr,
    r: StrExpr,
    n: nat,
    name: Seq<char>,
    negate: bool,
    swap: bool,
) -> bool {
    let a = str_piece(if swap { r } else { l }, n);
    let b = str_piece(if swap { l } else { r }, a.after);
    &&& bool_piece(BoolExpr::StrCmp(op, Box::new(l), Box::new(r)), n).term == maybe_not(negate, binop_text(name, a.term, b.term))
    &&& forall|x: Seq<char>, y: Seq<char>|
        (smt_str_holds(name, if swap { y } else { x }, if swap { x } else { y }) != negate) == crate::symexec::str_cmp_holds(
            op,
            x,
            y,
        )
}

/// Law: a string comparison is encoded as an SMT-LIB string comparison
/// (perhaps negated, perhaps with the operands swapped) that holds exactly
/// when the comparison holds of the strings.
pub proof fn law_string_comparison_encoding(op: CmpOp, l: StrExpr, r: StrExpr, n: nat)
    ensures
        exists|name: Seq<char>, negate: bool, swap: bool| #[trigger] str_cmp_encoding_means(op, l, r, n, name, negate, swap),
{
    reveal_strlit("str.<");
    reveal_strlit("str.<=");
    reveal_strlit("=");
    let swap = op == CmpOp::Gt || op == CmpOp::Ge;
    let a = str_piece(if swap { r } else { l }, n);
    let b = str_piece(if swap { l } else { r }, a.after);
    assert(("("@ + str_cmp_name(op) + " "@) + (a.term + " "@ + b.term) + ")"@ =~= binop_text(str_cmp_name(op), a.term, b.term));
    assert(str_cmp_encoding_means(op, l, r, n, str_cmp_name(op), op == CmpOp::Ne, swap));
}

/// The encoding of `abs(v)`: `v`'s term bound to `av`, then `av` where the
/// test `test` of `av` against zero holds and its negation elsewhere.
pub open spec fn abs_encoding_means(v: IntExpr, n: nat, test: Seq<char>) -> bool {
    &&& int_piece(IntExpr::Abs(Box::new(v)), n).term == "(let ((av "@ + int_piece(v, n).term + ")) (ite ("@ + test
        + " av (_ bv0 64)) av (bvneg av)))"@
    &&& forall|x: int| (if smt_signed_holds(test, x, 0) { x } else { -x }) == (if x < 0 { -x } else { x })
}

/// Law: `abs(v)` is encoded as a choice between `v`'s value and its
/// negation that gives the absolute value: the value itself when it is
/// not negative, its negation when it is.
pub proof fn law_abs_encoding(v: IntExpr, n: nat)
    ensures
        exists|test: Seq<char>| #[trigger] abs_encoding_means(v, n, test),
{
    reveal_strlit("bvslt");
    reveal_strlit("bvsle");
    reveal_strlit("bvsgt");
    reveal_strlit("bvsge");
    reveal_strlit("=");
    let t = int_piece(v, n).term;
    assert("(let ((av "@ + t + ")) (ite (bvsge av (_ bv0 64)) av (bvneg av)))"@ =~= "(let ((av "@ + t + ")) (ite ("@
        + "bvsge"@ + " av (_ bv0 64)) av (bvneg av)))"@) by {
        reveal_strlit("(let ((av ");
        reveal_strlit(")) (ite (bvsge av (_ bv0 64)) av (bvneg av)))");
        reveal_strlit(")) (ite (");
        reveal_strlit(" av (_ bv0 64)) av (bvneg av)))");
    }
    assert("bvsge"@ != "bvslt"@ && "bvsge"@ != "bvsle"@ && "bvsge"@ != "bvsgt"@) by {
        assert("bvslt"@[3] != "bvsge"@[3]);
        assert("bvsle"@[3] != "bvsge"@[3]);
        assert("bvsgt"@[4] != "bvsge"@[4]);
    }
    assert(forall|x: int| smt_signed_holds("bvsge"@, x, 0) == (x >= 0));
    assert(int_piece(IntExpr::Abs(Box::new(v)), n).term == "(let ((av "@ + t + ")) (ite (bvsge av (_ bv0 64)) av (bvneg av)))"@);
    assert(abs_encoding_means(v, n, "bvsge"@));
}

/// The value of SMT-LIB's bit-vector addition, subtraction and
/// multiplication on the operands' values, before wrapping to 64 bits.
pub open spec fn smt_arith_value(name: Seq<char>, x: int, y: int) -> Option<int> {
    if name == "bvadd"@ {
        Some(x + y)
    } else if name == "bvsub"@ {
        Some(x - y)
    } else if name == "bvmul"@ {
        Some(x * y)
    } else {
        None
    }
}

/// The encoding of `e`, an addition, subtraction or multiplication of `l`
/// and `r`, applies the SMT-LIB operation `name` to their terms in order.
pub open spec fn arith_encoding_means(e: IntExpr, l: IntExpr, r: IntExpr, n: nat, name: Seq<char>) -> bool {
    let a = int_piece(l, n);
    let b = int_piece(r, a.after);
    &&& int_piece(e, n).term == binop_text(name, a.term, b.term)
    &&& forall|x: int, y: int| smt_arith_value(name, x, y) == crate::symexec::int_top_value(e, x, y)
}

/// Law: `+`, `-` and `*` on integer terms are encoded as the SMT-LIB
/// operation with the same value on the operands' values, in order.
pub proof fn law_arithmetic_encoding(e: IntExpr, l: IntExpr, r: IntExpr, n: nat)
    requires
        e == IntExpr::Add(Box::new(l), Box::new(r)) || e == IntExpr::Sub(Box::new(l), Box::new(r)) || e == IntExpr::Mul(
            Box::new(l),
            Box::new(r),
        ),
    ensures
        exists|name: Seq<char>| #[trigger] arith_encoding_means(e, l, r, n, name),
{
    reveal_strlit("bvadd");
    reveal_strlit("bvsub");
    reveal_strlit("bvmul");
    assert("bvadd"@[2] != "bvsub"@[2]);
    assert("bvadd"@[2] != "bvmul"@[2]);
    assert("bvsub"@[2] != "bvmul"@[2]);
    match e {
        IntExpr::Add(_, _) => assert(arith_encoding_means(e, l, r, n, "bvadd"@)),
        IntExpr::Sub(_, _) => assert(arith_encoding_means(e, l, r, n, "bvsub"@)),
        _ => assert(arith_encoding_means(e, l, r, n, "bvmul"@)),
    }
}

/// SMT-LIB's boolean connectives `and` and `or` on the operands' truth values.
pub open spec fn smt_connective_holds(name: Seq<char>, p: bool, q: bool) -> bool {
    if name == "and"@ {
        p && q
    } else if name == "or"@ {
        p || q
    } else {
        false
    }
}

/// What a conjunction or disjunction of conditions means.
pub open spec fn connective_holds(e: BoolExpr, p: bool, q: bool) -> bool {
    match e {
        BoolExpr::And(_, _) => p && q,
        BoolExpr::Or(_, _) => p || q,
        _ => false,
    }
}

/// The encoding of `e`, a conjunction or disjunction of `l` and `r`, applies
/// the SMT-LIB connective `name` to their terms in order.
pub open spec fn connective_encoding_means(e: BoolExpr, l: BoolExpr, r: BoolExpr, n: nat, name: Seq<char>) -> bool {
    let a = bool_piece(l, n);
    let b = bool_piece(r, a.after);
    &&& bool_piece(e, n).term == binop_text(name, a.term, b.term)
    &&& forall|p: bool, q: bool| smt_connective_holds(name, p, q) == connective_holds(e, p, q)
}

/// Law: `and` and `or` of conditions are encoded as the SMT-LIB connective
/// with the same truth table, on the operands' terms in order; `not` as
/// SMT-LIB's negation of its operand's term.
pub proof fn law_connective_encoding(e: BoolExpr, l: BoolExpr, r: BoolExpr, n: nat)
    requires
        e == BoolExpr::And(Box::new(l), Box::new(r)) || e == BoolExpr::Or(Box::new(l), Box::new(r)),
    ensures
        exists|name: Seq<char>| #[trigger] connective_encoding_means(e, l, r, n, name),
        bool_piece(BoolExpr::Not(Box::new(l)), n).term == "(not "@ + bool_piece(l, n).term + ")"@,
{
    reveal_strlit("and");
    reveal_strlit("or");
    let a = bool_piece(l, n);
    let b = bool_piece(r, a.after);
    if e is And {
        assert("(and "@ + (a.term + " "@ + b.term) + ")"@ =~= binop_text("and"@, a.term, b.term)) by {
            reveal_strlit("(and ");
            reveal_strlit("(");
            reveal_strlit(" ");
            reveal_strlit(")");
        }
        assert(connective_encoding_means(e, l, r, n, "and"@));
    } else {
        assert("(or "@ + (a.term + " "@ + b.term) + ")"@ =~= binop_text("or"@, a.term, b.term)) by {
            reveal_strlit("(or ");
            reveal_strlit("(");
            reveal_strlit(" ");
            reveal_strlit(")");
        }
        assert(connective_encoding_means(e, l, r, n, "or"@));
    }
}

/// Law: a concatenation is encoded as SMT-LIB's `str.++` of the operands'
/// terms, left before right.
pub proof fn law_concat_encoding(l: StrExpr, r: StrExpr, n: nat)
    ensures
        str_piece(StrExpr::Concat(Box::new(l), Box::new(r)), n).term == binop_text(
            "str.++"@,
            str_piece(l, n).term,
            str_piece(r, str_piece(l, n).after).term,
        ),
{
    let a = str_piece(l, n);
    let b = str_piece(r, a.after);
    assert("(str.++ "@ + (a.term + " "@ + b.term) + ")"@ =~= binop_text("str.++"@, a.term, b.term)) by {
        reveal_strlit("(str.++ ");
        reveal_strlit("str.++");
        reveal_strlit("(");
        reveal_strlit(" ");
        reveal_strlit(")");
    }
}

/// The name of the vector comparison for `op`.
pub open spec fn int_cmp_name(op: CmpOp) -> Seq<char> {
    match op {
        CmpOp::Lt => "bvslt"@,
        CmpOp::Le => "bvsle"@,
        CmpOp::Gt => "bvsgt"@,
        CmpOp::Ge => "bvsge"@,
        CmpOp::Eq | CmpOp::Ne => "="@,
    }
}

/// The name of the string comparison for `op` (with its operands swapped
/// for `>` and `>=`).
pub open spec fn str_cmp_name(op: CmpOp) -> Seq<char> {
    match op {
        CmpOp::Lt | CmpOp::Gt => "str.<"@,
        CmpOp::Le | CmpOp::Ge => "str.<="@,
        CmpOp::Eq | CmpOp::Ne => "="@,
    }
}

/// `(not t)` where `negate`, else `t`.
pub open spec fn negated_if(negate: bool, p: Piece) -> Piece {
    if negate {
        wrap("(not "@, p, ")"@)
    } else {
        p
    }
}

/// The text after the operands of a shift.
pub open spec fn shift_tail(left: bool) -> Seq<char> {
    if left {
        ")) (let ((sa (ite (bvsge sr (_ bv0 64)) sr (bvneg sr)))) (ite (bvsge sa (_ bv64 64)) (_ bv0 64) (ite (bvsge sr (_ bv0 64)) (bvshl sl sa) (bvlshr sl sa)))))"@
    } else {
        ")) (let ((sa (ite (bvsge sr (_ bv0 64)) sr (bvneg sr)))) (ite (bvsge sa (_ bv64 64)) (_ bv0 64) (ite (bvsge sr (_ bv0 64)) (bvlshr sl sa) (bvshl sl sa)))))"@
    }
}

/// The vector term of an integer expression, from the counter `n`.
pub open spec fn int_piece(e: IntExpr, n: nat) -> Piece
    decreases e, 0nat,
{
    match e {
        IntExpr::Const(v) => leaf(bv_literal(v), n),
        IntExpr::Var(name) => var_piece("i:"@, name@, bv_sort(), n),
        IntExpr::Add(l, r) => { let a = int_piece(*l, n); bin("bvadd"@, a, int_piece(*r, a.after)) },
        IntExpr::Sub(l, r) => { let a = int_piece(*l, n); bin("bvsub"@, a, int_piece(*r, a.after)) },
        IntExpr::Mul(l, r) => { let a = int_piece(*l, n); bin("bvmul"@, a, int_piece(*r, a.after)) },
        IntExpr::Div(l, r) => { let a = int_piece(*l, n); bin("bvsdiv"@, a, int_piece(*r, a.after)) },
        IntExpr::Mod(l, r) => { let a = int_piece(*l, n); bin("bvsmod"@, a, int_piece(*r, a.after)) },
        IntExpr::BitAnd(l, r) => { let a = int_piece(*l, n); bin("bvand"@, a, int_piece(*r, a.after)) },
        IntExpr::BitOr(l, r) => { let a = int_piece(*l, n); bin("bvor"@, a, int_piece(*r, a.after)) },
        IntExpr::BitXor(l, r) => { let a = int_piece(*l, n); bin("bvxor"@, a, int_piece(*r, a.after)) },
        IntExpr::Pow(l, r) => {
            let a = int_piece(*l, n);
            let b = int_piece(*r, a.after);
            effects2(
                "(let ((pl "@ + a.term + ") (pr "@ + b.term
                    + ")) (ite (= pr (_ bv0 64)) (_ bv1 64) (let ((pp (^ (to_real (ite (bvslt pl (_ bv0 64)) (- (bv2nat pl) 18446744073709551616) (bv2nat pl))) (to_real (ite (bvslt pr (_ bv0 64)) (- (bv2nat pr) 18446744073709551616) (bv2nat pr)))))) ((_ int2bv 64) (ite (>= pp 0.0) (to_int pp) (- (to_int (- pp))))))))"@,
                a,
                b,
            )
        },
        IntExpr::Shl(l, r) => {
            let a = int_piece(*l, n);
            let b = int_piece(*r, a.after);
            effects2("(let ((sl "@ + a.term + ") (sr "@ + b.term + shift_tail(true), a, b)
        },
        IntExpr::Shr(l, r) => {
            let a = int_piece(*l, n);
            let b = int_piece(*r, a.after);
            effects2("(let ((sl "@ + a.term + ") (sr "@ + b.term + shift_tail(false), a, b)
        },
        IntExpr::BitNot(v) => wrap("(bvnot "@, int_piece(*v, n), ")"@),
        IntExpr::Abs(v) => wrap("(let ((av "@, int_piece(*v, n), ")) (ite (bvsge av (_ bv0 64)) av (bvneg av)))"@),
        IntExpr::Ord(s) => via_fact(
            wrap("(let ((os "@, str_piece(*s, n), ")) (ite (= (str.len os) 0) 0 (str.to_code (str.at os 0))))"@),
            true,
        ),
        IntExpr::StrToInt(s) => {
            let fb = fresh_piece("strtoint_fallback_"@, "Int"@, n);
            let v = str_piece(*s, fb.after);
            via_fact(
                effects2(
                    "(let ((ts "@ + v.term
                        + ")) (let ((tt (str.substr ts 1 (str.len ts)))) (ite (str.prefixof \"-\" ts) (ite (= (str.to_int tt) (- 1)) (ite (= (str.len tt) 0) 0 "@
                        + fb.term + ") (- (str.to_int tt))) (ite (= (str.to_int ts) (- 1)) (ite (= (str.len ts) 0) 0 "@
                        + fb.term + ") (str.to_int ts)))))"@,
                    fb,
                    v,
                ),
                false,
            )
        },
        IntExpr::Contains(h, x) => { let a = str_piece(*h, n); flag("str.contains"@, a, str_piece(*x, a.after)) },
        IntExpr::StartsWith(s, x) => { let a = str_piece(*x, n); flag("str.prefixof"@, a, str_piece(*s, a.after)) },
        IntExpr::EndsWith(s, x) => { let a = str_piece(*x, n); flag("str.suffixof"@, a, str_piece(*s, a.after)) },
        IntExpr::Chomp(s) => wrap("(ite (str.suffixof \"\\u{a}\" "@, str_piece(*s, n), ") (_ bv1 64) (_ bv0 64))"@),
        IntExpr::Ite(c, t, f) => {
            let a = bool_piece(*c, n);
            let b = int_piece(*t, a.after);
            wrap("(ite "@, join(join(a, " "@, b), " "@, int_piece(*f, b.after)), ")"@)
        },
        IntExpr::Length(s) => via_fact(wrap("(str.len "@, str_piece(*s, n), ")"@), true),
        IntExpr::Index(h, x, start) => {
            let a = str_piece(*h, n);
            let b = str_piece(*x, a.after);
            let c = int_value(int_piece(*start, b.after));
            via_fact(
                wrap(
                    "(let ((ih "@,
                    join(join(a, ") (in "@, b), ") (is "@, c),
                    ")) (let ((ic (ite (>= is 0) is 0))) (ite (= (str.len in) 0) (ite (<= ic (str.len ih)) ic (str.len ih)) (str.indexof ih in ic))))"@,
                ),
                false,
            )
        },
        IntExpr::ArraySelect(a, i) => {
            let x = array_int_piece(*a, n);
            wrap("(select "@, join(x, " "@, int_piece(*i, x.after)), ")"@)
        },
        IntExpr::HashSelect(h, k) => {
            let x = hash_int_piece(*h, n);
            wrap("(select "@, join(x, " "@, str_piece(*k, x.after)), ")"@)
        },
    }
}

/// The string term of a string expression, from the counter `n`.
pub open spec fn str_piece(e: StrExpr, n: nat) -> Piece
    decreases e, 0nat,
{
    match e {
        StrExpr::Const(s) => leaf(string_literal(s@), n),
        StrExpr::Var(name) => var_piece("s:"@, name@, "String"@, n),
        StrExpr::Concat(a, b) => { let x = str_piece(*a, n); wrap("(str.++ "@, join(x, " "@, str_piece(*b, x.after)), ")"@) },
        StrExpr::Substr(v, start, len) => {
            let x = str_piece(*v, n);
            let y = int_value(int_piece(*start, x.after));
            wrap(
                "(let ((uv "@,
                join(join(x, ") (us "@, y), ") (ul "@, int_value(int_piece(*len, y.after))),
                ")) (str.substr uv (ite (>= us 0) us (+ (str.len uv) us)) ul))"@,
            )
        },
        StrExpr::Chr(v) => wrap(
            "(let ((cv "@,
            int_value(int_piece(*v, n)),
            ")) (str.from_code (ite (and (>= cv 0) (<= cv 2147483647)) cv 65533)))"@,
        ),
        StrExpr::FromInt(v) => wrap(
            "(let ((fv "@,
            int_value(int_piece(*v, n)),
            ")) (ite (>= fv 0) (str.from_int fv) (str.++ \"-\" (str.from_int (- fv)))))"@,
        ),
        StrExpr::Reverse(v) => {
            let f = fresh_piece("reverse_"@, "String"@, n);
            let x = str_piece(*v, f.after);
            effects2(
                f.term,
                effects2(Seq::empty(), f, x),
                fact_piece(assert_line("(= (str.len "@ + f.term + ") (str.len "@ + x.term + "))"@), x.after),
            )
        },
        StrExpr::Replace(s, from, to) => {
            let x = str_piece(*s, n);
            let y = str_piece(*from, x.after);
            wrap(
                "(let ((rs "@,
                join(join(x, ") (rf "@, y), ") (rt "@, str_piece(*to, y.after)),
                ") (ph \""@ + repeat("\\u{f8ff}"@, 33) + "\")) "@ + repeat("(str.replace "@, 128) + "rs"@ + repeat(
                    " rf ph)"@,
                    64,
                ) + repeat(" ph rt)"@, 64) + ")"@,
            )
        },
        StrExpr::CharAt(s, i) => {
            let x = str_piece(*s, n);
            wrap(
                "(let ((cs "@,
                join(x, ") (ci "@, int_value(int_piece(*i, x.after))),
                ")) (str.at cs (ite (>= ci 0) ci (+ (str.len cs) ci))))"@,
            )
        },
        StrExpr::Ite(c, t, f) => {
            let a = bool_piece(*c, n);
            let b = str_piece(*t, a.after);
            wrap("(ite "@, join(join(a, " "@, b), " "@, str_piece(*f, b.after)), ")"@)
        },
        StrExpr::ArraySelect(a, i) => {
            let x = array_str_piece(*a, n);
            wrap("(select "@, join(x, " "@, int_piece(*i, x.after)), ")"@)
        },
        StrExpr::HashSelect(h, k) => {
            let x = hash_str_piece(*h, n);
            wrap("(select "@, join(x, " "@, str_piece(*k, x.after)), ")"@)
        },
    }
}

/// `(store a i v)`
pub open spec fn store(a: Piece, i: Piece, v: Piece) -> Piece {
    wrap("(store "@, join(join(a, " "@, i), " "@, v), ")"@)
}

pub open spec fn array_int_piece(e: ArrayIntExpr, n: nat) -> Piece
    decreases e, 0nat,
{
    match e {
        ArrayIntExpr::Var(name) => var_piece("ai:"@, name@, "(Array (_ BitVec 64) (_ BitVec 64))"@, n),
        ArrayIntExpr::Store(a, i, v) => {
            let x = array_int_piece(*a, n);
            let y = int_piece(*i, x.after);
            store(x, y, int_piece(*v, y.after))
        },
    }
}

pub open spec fn array_str_piece(e: ArrayStrExpr, n: nat) -> Piece
    decreases e, 0nat,
{
    match e {
        ArrayStrExpr::Var(name) => var_piece("as:"@, name@, "(Array (_ BitVec 64) String)"@, n),
        ArrayStrExpr::Store(a, i, v) => {
            let x = array_str_piece(*a, n);
            let y = int_piece(*i, x.after);
            store(x, y, str_piece(*v, y.after))
        },
    }
}

pub open spec fn hash_int_piece(e: HashIntExpr, n: nat) -> Piece
    decreases e, 0nat,
{
    match e {
        HashIntExpr::Var(name) => var_piece("hi:"@, name@, "(Array String (_ BitVec 64))"@, n),
        HashIntExpr::Store(h, k, v) => {
            let x = hash_int_piece(*h, n);
            let y = str_piece(*k, x.after);
            store(x, y, int_piece(*v, y.after))
        },
    }
}

pub open spec fn hash_str_piece(e: HashStrExpr, n: nat) -> Piece
    decreases e, 0nat,
{
    match e {
        HashStrExpr::Var(name) => var_piece("hs:"@, name@, "(Array String String)"@, n),
        HashStrExpr::Store(h, k, v) => {
            let x = hash_str_piece(*h, n);
            let y = str_piece(*k, x.after);
            store(x, y, str_piece(*v, y.after))
        },
    }
}

/// The Boolean term of a condition, from the counter `n`.
pub open spec fn bool_piece(e: BoolExpr, n: nat) -> Piece
    decreases e, 0nat,
{
    match e {
        BoolExpr::Const(b) => leaf(if b { "true"@ } else { "false"@ }, n),
        BoolExpr::Not(x) => wrap("(not "@, bool_piece(*x, n), ")"@),
        BoolExpr::And(a, b) => { let x = bool_piece(*a, n); wrap("(and "@, join(x, " "@, bool_piece(*b, x.after)), ")"@) },
        BoolExpr::Or(a, b) => { let x = bool_piece(*a, n); wrap("(or "@, join(x, " "@, bool_piece(*b, x.after)), ")"@) },
        BoolExpr::Overflow(exprs) => if exprs@.len() == 0 {
            leaf("false"@, n)
        } else {
            wrap("(not (and true"@, overflow_all(exprs@, n), "))"@)
        },
        BoolExpr::IntCmp(op, l, r) => {
            let a = int_piece(*l, n);
            negated_if(op == CmpOp::Ne, bin(int_cmp_name(op), a, int_piece(*r, a.after)))
        },
        BoolExpr::StrEq(a, b) => { let x = str_piece(*a, n); wrap("(= "@, join(x, " "@, str_piece(*b, x.after)), ")"@) },
        BoolExpr::StrCmp(op, a, b) => {
            let swapped = op == CmpOp::Gt || op == CmpOp::Ge;
            let x = if swapped { str_piece(*b, n) } else { str_piece(*a, n) };
            let y = if swapped { str_piece(*a, x.after) } else { str_piece(*b, x.after) };
            negated_if(op == CmpOp::Ne, wrap("("@ + str_cmp_name(op) + " "@, join(x, " "@, y), ")"@))
        },
    }
}

/// The no-overflow conditions of `exprs`, each after a space.
pub open spec fn overflow_all(exprs: Seq<IntExpr>, n: nat) -> Piece
    decreases exprs, 1nat,
{
    if exprs.len() == 0 {
        leaf(Seq::empty(), n)
    } else {
        let front = exprs.subrange(0, exprs.len() - 1);
        let a = overflow_all(front, n);
        join(a, " "@, safety_int_piece(exprs[exprs.len() - 1], true, a.after))
    }
}

/// The side conditions of an integer expression: that its operations are
/// defined, or (`overflow`) that they stay within 64 bits.
pub open spec fn safety_int_piece(e: IntExpr, overflow: bool, n: nat) -> Piece
    decreases e, 0nat,
{
    match e {
        IntExpr::Const(_) | IntExpr::Var(_) => leaf("true"@, n),
        IntExpr::Add(l, r) | IntExpr::Sub(l, r) | IntExpr::Mul(l, r) => {
            let a = safety_int_piece(*l, overflow, n);
            let b = safety_int_piece(*r, overflow, a.after);
            if !overflow {
                both(a, b)
            } else {
                let x = int_piece(*l, b.after);
                let y = int_piece(*r, x.after);
                let (ext, max, min, op) = match e {
                    IntExpr::Add(_, _) => ("1"@, "(_ bv9223372036854775807 65)"@, "(_ bv27670116110564327424 65)"@, "bvadd"@),
                    IntExpr::Sub(_, _) => ("1"@, "(_ bv9223372036854775807 65)"@, "(_ bv27670116110564327424 65)"@, "bvsub"@),
                    _ => (
                        "64"@,
                        "(_ bv9223372036854775807 128)"@,
                        "(_ bv340282366920938463454151235394913435648 128)"@,
                        "bvmul"@,
                    ),
                };
                effects2(
                    "(and "@ + a.term + " "@ + b.term + " (let ((ow ("@ + op + " ((_ sign_extend "@ + ext + ") "@ + x.term
                        + ") ((_ sign_extend "@ + ext + ") "@ + y.term + ")))) (and (bvsle ow "@ + max + ") (bvsge ow "@ + min
                        + "))))"@,
                    effects2(Seq::empty(), effects2(Seq::empty(), a, b), x),
                    y,
                )
            }
        },
        IntExpr::BitAnd(l, r) | IntExpr::BitOr(l, r) | IntExpr::BitXor(l, r) => {
            let a = safety_int_piece(*l, overflow, n);
            both(a, safety_int_piece(*r, overflow, a.after))
        },
        IntExpr::Shl(l, r) | IntExpr::Shr(l, r) => {
            let a = safety_int_piece(*l, overflow, n);
            let b = safety_int_piece(*r, overflow, a.after);
            if overflow {
                both(a, b)
            } else {
                let x = int_piece(*l, b.after);
                effects2(
                    "(and "@ + a.term + " "@ + b.term + " (bvsge "@ + x.term + " (_ bv0 64)))"@,
                    effects2(Seq::empty(), a, b),
                    x,
                )
            }
        },
        IntExpr::Pow(l, r) => {
            let a = safety_int_piece(*l, overflow, n);
            let b = safety_int_piece(*r, overflow, a.after);
            if overflow {
                both(a, b)
            } else {
                let x = int_piece(*l, b.after);
                let y = int_piece(*r, x.after);
                effects2(
                    "(and "@ + a.term + " "@ + b.term + " (let ((pl "@ + x.term + ") (pr "@ + y.term
                        + ")) (and (bvsge pr (_ bv0 64)) (let ((pp (^ (to_real (ite (bvslt pl (_ bv0 64)) (- (bv2nat pl) 18446744073709551616) (bv2nat pl))) (to_real (ite (bvslt pr (_ bv0 64)) (- (bv2nat pr) 18446744073709551616) (bv2nat pr)))))) (and (>= pp (to_real (- 9223372036854775808))) (<= pp (to_real 9223372036854775807)))))))"@,
                    effects2(Seq::empty(), effects2(Seq::empty(), a, b), x),
                    y,
                )
            }
        },
        IntExpr::Div(l, r) | IntExpr::Mod(l, r) => {
            let a = safety_int_piece(*l, overflow, n);
            let b = safety_int_piece(*r, overflow, a.after);
            if overflow && !(e is Div) {
                both(a, b)
            } else if overflow {
                let x = int_piece(*l, b.after);
                let y = int_piece(*r, x.after);
                effects2(
                    "(and "@ + a.term + " "@ + b.term + " (not (and (= "@ + x.term + " (_ bv9223372036854775808 64)) (= "@
                        + y.term + " (_ bv18446744073709551615 64)))))"@,
                    effects2(Seq::empty(), effects2(Seq::empty(), a, b), x),
                    y,
                )
            } else {
                let y = int_piece(*r, b.after);
                effects2(
                    "(and "@ + a.term + " "@ + b.term + " (not (= "@ + y.term + " (_ bv0 64))))"@,
                    effects2(Seq::empty(), a, b),
                    y,
                )
            }
        },
        IntExpr::BitNot(v) => safety_int_piece(*v, overflow, n),
        IntExpr::Abs(v) => if overflow {
            let a = safety_int_piece(*v, overflow, n);
            let x = int_piece(*v, a.after);
            effects2("(and "@ + a.term + " (not (= "@ + x.term + " (_ bv9223372036854775808 64))))"@, a, x)
        } else {
            safety_int_piece(*v, overflow, n)
        },
        IntExpr::StrToInt(s) | IntExpr::Ord(s) | IntExpr::Chomp(s) | IntExpr::Length(s) => safety_str_piece(*s, overflow, n),
        IntExpr::Contains(a, b) | IntExpr::StartsWith(a, b) | IntExpr::EndsWith(a, b) => {
            let x = safety_str_piece(*a, overflow, n);
            both(x, safety_str_piece(*b, overflow, x.after))
        },
        IntExpr::Ite(c, t, f) => {
            let sc = safety_bool_piece(*c, overflow, n);
            let st = safety_int_piece(*t, overflow, sc.after);
            let sf = safety_int_piece(*f, overflow, st.after);
            guarded(sc, st, sf, bool_piece(*c, sf.after))
        },
        IntExpr::Index(h, x, start) => {
            let a = safety_str_piece(*h, overflow, n);
            let b = safety_str_piece(*x, overflow, a.after);
            all3(a, b, safety_int_piece(*start, overflow, b.after))
        },
        IntExpr::ArraySelect(a, i) => {
            let x = safety_array_int_piece(*a, overflow, n);
            both(x, safety_int_piece(*i, overflow, x.after))
        },
        IntExpr::HashSelect(h, k) => {
            let x = safety_hash_int_piece(*h, overflow, n);
            both(x, safety_str_piece(*k, overflow, x.after))
        },
    }
}

/// The side conditions of a string expression.
pub open spec fn safety_str_piece(e: StrExpr, overflow: bool, n: nat) -> Piece
    decreases e, 0nat,
{
    match e {
        StrExpr::Const(_) | StrExpr::Var(_) => leaf("true"@, n),
        StrExpr::Concat(a, b) => {
            let x = safety_str_piece(*a, overflow, n);
            both(x, safety_str_piece(*b, overflow, x.after))
        },
        StrExpr::Substr(v, s, l) => {
            let x = safety_str_piece(*v, overflow, n);
            let y = safety_int_piece(*s, overflow, x.after);
            all3(x, y, safety_int_piece(*l, overflow, y.after))
        },
        StrExpr::Chr(v) | StrExpr::FromInt(v) => safety_int_piece(*v, overflow, n),
        StrExpr::Reverse(v) => safety_str_piece(*v, overflow, n),
        StrExpr::Replace(s, from, to) => {
            let x = safety_str_piece(*s, overflow, n);
            let y = safety_str_piece(*from, overflow, x.after);
            let z = safety_str_piece(*to, overflow, y.after);
            if overflow {
                all3(x, y, z)
            } else {
                let u = str_piece(*from, z.after);
                effects2(
                    "(and "@ + x.term + " "@ + y.term + " "@ + z.term + " (>= (str.len "@ + u.term + ") 1))"@,
                    effects2(Seq::empty(), effects2(Seq::empty(), x, y), z),
                    u,
                )
            }
        },
        StrExpr::CharAt(s, i) => {
            let x = safety_str_piece(*s, overflow, n);
            both(x, safety_int_piece(*i, overflow, x.after))
        },
        StrExpr::Ite(c, t, f) => {
            let sc = safety_bool_piece(*c, overflow, n);
            let st = safety_str_piece(*t, overflow, sc.after);
            let sf = safety_str_piece(*f, overflow, st.after);
            guarded(sc, st, sf, bool_piece(*c, sf.after))
        },
        StrExpr::ArraySelect(a, i) => {
            let x = safety_array_str_piece(*a, overflow, n);
            both(x, safety_int_piece(*i, overflow, x.after))
        },
        StrExpr::HashSelect(h, k) => {
            let x = safety_hash_str_piece(*h, overflow, n);
            both(x, safety_str_piece(*k, overflow, x.after))
        },
    }
}

pub open spec fn safety_array_int_piece(e: ArrayIntExpr, overflow: bool, n: nat) -> Piece
    decreases e, 0nat,
{
    match e {
        ArrayIntExpr::Var(_) => leaf("true"@, n),
        ArrayIntExpr::Store(a, i, v) => {
            let x = safety_array_int_piece(*a, overflow, n);
            let y = safety_int_piece(*i, overflow, x.after);
            all3(x, y, safety_int_piece(*v, overflow, y.after))
        },
    }
}

pub open spec fn safety_array_str_piece(e: ArrayStrExpr, overflow: bool, n: nat) -> Piece
    decreases e, 0nat,
{
    match e {
        ArrayStrExpr::Var(_) => leaf("true"@, n),
        ArrayStrExpr::Store(a, i, v) => {
            let x = safety_array_str_piece(*a, overflow, n);
            let y = safety_int_piece(*i, overflow, x.after);
            all3(x, y, safety_str_piece(*v, overflow, y.after))
        },
    }
}

pub open spec fn safety_hash_int_piece(e: HashIntExpr, overflow: bool, n: nat) -> Piece
    decreases e, 0nat,
{
    match e {
        HashIntExpr::Var(_) => leaf("true"@, n),
        HashIntExpr::Store(h, k, v) => {
            let x = safety_hash_int_piece(*h, overflow, n);
            let y = safety_str_piece(*k, overflow, x.after);
            all3(x, y, safety_int_piece(*v, overflow, y.after))
        },
    }
}

pub open spec fn safety_hash_str_piece(e: HashStrExpr, overflow: bool, n: nat) -> Piece
    decreases e, 0nat,
{
    match e {
        HashStrExpr::Var(_) => leaf("true"@, n),
        HashStrExpr::Store(h, k, v) => {
            let x = safety_hash_str_piece(*h, overflow, n);
            let y = safety_str_piece(*k, overflow, x.after);
            all3(x, y, safety_str_piece(*v, overflow, y.after))
        },
    }
}

/// The side conditions of a condition.
pub open spec fn safety_bool_piece(e: BoolExpr, overflow: bool, n: nat) -> Piece
    decreases e, 0nat,
{
    match e {
        BoolExpr::Const(_) | BoolExpr::Overflow(_) => leaf("true"@, n),
        BoolExpr::Not(x) => safety_bool_piece(*x, overflow, n),
        BoolExpr::And(a, b) | BoolExpr::Or(a, b) => {
            let x = safety_bool_piece(*a, overflow, n);
            both(x, safety_bool_piece(*b, overflow, x.after))
        },
        BoolExpr::IntCmp(_, a, b) => {
            let x = safety_int_piece(*a, overflow, n);
            both(x, safety_int_piece(*b, overflow, x.after))
        },
        BoolExpr::StrEq(a, b) | BoolExpr::StrCmp(_, a, b) => {
            let x = safety_str_piece(*a, overflow, n);
            both(x, safety_str_piece(*b, overflow, x.after))
        },
    }
}

} // verus!

verus! {

/// `p0 a p1`
fn text1(p0: &str, a: &String, p1: &str) -> (r: String)
    ensures
        r@ == p0@ + a@ + p1@,
{
    let mut t = str_to_string(p0);
    push_string(&mut t, a);
    push_str(&mut t, p1);
    t
}

/// `p0 a p1 b p2`
fn text2(p0: &str, a: &String, p1: &str, b: &String, p2: &str) -> (r: String)
    ensures
        r@ == p0@ + a@ + p1@ + b@ + p2@,
{
    let mut t = text1(p0, a, p1);
    push_string(&mut t, b);
    push_str(&mut t, p2);
    t
}

/// `p0 a p1 b p2 c p3`
fn text3(p0: &str, a: &String, p1: &str, b: &String, p2: &str, c: &String, p3: &str) -> (r: String)
    ensures
        r@ == p0@ + a@ + p1@ + b@ + p2@ + c@ + p3@,
{
    let mut t = text2(p0, a, p1, b, p2);
    push_string(&mut t, c);
    push_str(&mut t, p3);
    t
}

/// `p0 a p1 b p2 c p3 d p4`
fn text4(p0: &str, a: &String, p1: &str, b: &String, p2: &str, c: &String, p3: &str, d: &String, p4: &str) -> (r: String)
    ensures
        r@ == p0@ + a@ + p1@ + b@ + p2@ + c@ + p3@ + d@ + p4@,
{
    let mut t = text3(p0, a, p1, b, p2, c, p3);
    push_string(&mut t, d);
    push_str(&mut t, p4);
    t
}

/// The constant `prefix name` of sort `sort`, declared.
fn var_text(enc: &mut Encoder, prefix: &str, name: &String, sort: &str) -> (r: String)
    ensures
        r@ == var_piece(prefix@, name@, sort@, old(enc).fresh as nat).term,
        encodes(*old(enc), *final(enc), var_piece(prefix@, name@, sort@, old(enc).fresh as nat)),
{
    declare(enc, prefix, name, sort);
    let mut t = String::new();
    push_symbol(&mut t, prefix, name);
    proof {
        let p = var_piece(prefix@, name@, sort@, old(enc).fresh as nat);
        lemma_declare_single((old(enc).names(), old(enc).decls@), p.decls[0]);
        assert(p.decls =~= seq![p.decls[0]]);
        assert(enc.facts@ =~= old(enc).facts@ + p.facts);
        assert(t@ =~= p.term);
    }
    t
}

/// Adds the fact lines `lines`.
fn add_facts(enc: &mut Encoder, lines: &String)
    ensures
        encodes(*old(enc), *final(enc), fact_piece(lines@, old(enc).fresh as nat)),
{
    push_string(&mut enc.facts, lines);
    proof {
        assert(declare_all((enc.names(), enc.decls@), Seq::<(Seq<char>, Seq<char>)>::empty()) == (enc.names(), enc.decls@));
    }
}

/// `(assert fact)` and a line break.
fn assert_text(fact: &String) -> (r: String)
    ensures
        r@ == assert_line(fact@),
{
    text1("(assert ", fact, ")\n")
}

/// A fresh vector whose signed value is the integer term `value`, pinned
/// down by facts.
fn via_side_fact(enc: &mut Encoder, value: &String, nonneg: bool) -> (r: String)
    ensures
        r@ == fresh_piece("i2bv_"@, bv_sort(), old(enc).fresh as nat).term,
        encodes(
            *old(enc),
            *final(enc),
            ({
                let f = fresh_piece("i2bv_"@, bv_sort(), old(enc).fresh as nat);
                effects2(f.term, f, fact_piece(value_facts(f.term, value@, nonneg), f.after))
            }),
        ),
{
    let ghost e0 = *enc;
    let sym = fresh_symbol(enc, "i2bv_", "(_ BitVec 64)");
    let ghost e1 = *enc;
    let mut lines = assert_text(
        &text2(
            "(= (let ((sv ",
            &sym,
            ")) (ite (bvslt sv (_ bv0 64)) (- (bv2nat sv) 18446744073709551616) (bv2nat sv))) ",
            value,
            ")",
        ),
    );
    if nonneg {
        push_string(&mut lines, &assert_text(&text1("(bvsge ", &sym, " (_ bv0 64))")));
    } else {
        proof {
            assert(lines@ + Seq::<char>::empty() =~= lines@);
        }
    }
    add_facts(enc, &lines);
    proof {
        let f = fresh_piece("i2bv_"@, bv_sort(), e0.fresh as nat);
        lemma_encodes_chain(e0, e1, *enc, f, fact_piece(value_facts(f.term, value@, nonneg), f.after), f.term);
    }
    sym
}

/// The signed integer value of the vector term `t`.
fn int_value_text(t: &String) -> (r: String)
    ensures
        r@ == int_value(leaf(t@, 0)).term,
{
    text1("(let ((sv ", t, ")) (ite (bvslt sv (_ bv0 64)) (- (bv2nat sv) 18446744073709551616) (bv2nat sv)))")
}

/// The 64-bit vector literal of `v`.
fn bv_text(v: i64) -> (r: String)
    ensures
        r@ == bv_literal(v),
{
    let mut t = String::new();
    push_bv(&mut t, v);
    t
}

/// The vector term of an integer expression, declaring its constants and
/// adding the facts of its auxiliary constants.
pub fn int_text(enc: &mut Encoder, e: &IntExpr) -> (r: String)
    ensures
        r@ == int_piece(*e, old(enc).fresh as nat).term,
        encodes(*old(enc), *final(enc), int_piece(*e, old(enc).fresh as nat)),
    decreases e,
{
    let ghost e0 = *enc;
    match e {
        IntExpr::Const(v) => {
            proof {
                lemma_encodes_refl(e0, bv_literal(*v));
            }
            bv_text(*v)
        },
        IntExpr::Var(name) => var_text(enc, "i:", name, "(_ BitVec 64)"),
        IntExpr::Add(l, r) | IntExpr::Sub(l, r) | IntExpr::Mul(l, r) | IntExpr::Div(l, r) | IntExpr::Mod(l, r)
        | IntExpr::BitAnd(l, r) | IntExpr::BitOr(l, r) | IntExpr::BitXor(l, r) | IntExpr::Pow(l, r) | IntExpr::Shl(l, r)
        | IntExpr::Shr(l, r) => {
            let a = int_text(enc, l);
            let ghost e1 = *enc;
            let b = int_text(enc, r);
            proof {
                lemma_encodes_chain(e0, e1, *enc, int_piece(**l, e0.fresh as nat), int_piece(**r, e1.fresh as nat), Seq::empty());
            }
            match e {
                IntExpr::Pow(_, _) => text2(
                    "(let ((pl ",
                    &a,
                    ") (pr ",
                    &b,
                    ")) (ite (= pr (_ bv0 64)) (_ bv1 64) (let ((pp (^ (to_real (ite (bvslt pl (_ bv0 64)) (- (bv2nat pl) 18446744073709551616) (bv2nat pl))) (to_real (ite (bvslt pr (_ bv0 64)) (- (bv2nat pr) 18446744073709551616) (bv2nat pr)))))) ((_ int2bv 64) (ite (>= pp 0.0) (to_int pp) (- (to_int (- pp))))))))",
                ),
                IntExpr::Shl(_, _) => text2(
                    "(let ((sl ",
                    &a,
                    ") (sr ",
                    &b,
                    ")) (let ((sa (ite (bvsge sr (_ bv0 64)) sr (bvneg sr)))) (ite (bvsge sa (_ bv64 64)) (_ bv0 64) (ite (bvsge sr (_ bv0 64)) (bvshl sl sa) (bvlshr sl sa)))))",
                ),
                IntExpr::Shr(_, _) => text2(
                    "(let ((sl ",
                    &a,
                    ") (sr ",
                    &b,
                    ")) (let ((sa (ite (bvsge sr (_ bv0 64)) sr (bvneg sr)))) (ite (bvsge sa (_ bv64 64)) (_ bv0 64) (ite (bvsge sr (_ bv0 64)) (bvlshr sl sa) (bvshl sl sa)))))",
                ),
                _ => {
                    let op: &str = match e {
                        IntExpr::Add(_, _) => "bvadd",
                        IntExpr::Sub(_, _) => "bvsub",
                        IntExpr::Mul(_, _) => "bvmul",
                        IntExpr::Div(_, _) => "bvsdiv",
                        IntExpr::Mod(_, _) => "bvsmod",
                        IntExpr::BitAnd(_, _) => "bvand",
                        IntExpr::BitOr(_, _) => "bvor",
                        _ => "bvxor",
                    };
                    text3("(", &str_to_string(op), " ", &a, " ", &b, ")")
                },
            }
        },
        IntExpr::BitNot(v) => {
            let a = int_text(enc, v);
            text1("(bvnot ", &a, ")")
        },
        IntExpr::Abs(v) => {
            let a = int_text(enc, v);
            text1("(let ((av ", &a, ")) (ite (bvsge av (_ bv0 64)) av (bvneg av)))")
        },
        IntExpr::Ord(x) | IntExpr::Length(x) => {
            let a = str_text(enc, x);
            let ghost e1 = *enc;
            let (value, nonneg) = match e {
                IntExpr::Ord(_) => (text1("(let ((os ", &a, ")) (ite (= (str.len os) 0) 0 (str.to_code (str.at os 0))))"), true),
                _ => (text1("(str.len ", &a, ")"), true),
            };
            let sym = via_side_fact(enc, &value, nonneg);
            proof {
                let vp = match e {
                    IntExpr::Ord(_) => wrap(
                        "(let ((os "@,
                        str_piece(**x, e0.fresh as nat),
                        ")) (ite (= (str.len os) 0) 0 (str.to_code (str.at os 0))))"@,
                    ),
                    _ => wrap("(str.len "@, str_piece(**x, e0.fresh as nat), ")"@),
                };
                assert(value@ =~= vp.term);
                let f = fresh_piece("i2bv_"@, bv_sort(), e1.fresh as nat);
                lemma_encodes_chain(
                    e0,
                    e1,
                    *enc,
                    vp,
                    effects2(f.term, f, fact_piece(value_facts(f.term, value@, nonneg), f.after)),
                    f.term,
                );
            }
            sym
        },
        IntExpr::StrToInt(x) => {
            let fallback = fresh_symbol(enc, "strtoint_fallback_", "Int");
            let ghost e1 = *enc;
            let a = str_text(enc, x);
            let ghost e2 = *enc;
            let value = text3(
                "(let ((ts ",
                &a,
                ")) (let ((tt (str.substr ts 1 (str.len ts)))) (ite (str.prefixof \"-\" ts) (ite (= (str.to_int tt) (- 1)) (ite (= (str.len tt) 0) 0 ",
                &fallback,
                ") (- (str.to_int tt))) (ite (= (str.to_int ts) (- 1)) (ite (= (str.len ts) 0) 0 ",
                &fallback,
                ") (str.to_int ts)))))",
            );
            let sym = via_side_fact(enc, &value, false);
            proof {
                let fb = fresh_piece("strtoint_fallback_"@, "Int"@, e0.fresh as nat);
                let v = str_piece(**x, e1.fresh as nat);
                lemma_encodes_chain(e0, e1, e2, fb, v, value@);
                let f = fresh_piece("i2bv_"@, bv_sort(), e2.fresh as nat);
                lemma_encodes_chain(
                    e0,
                    e2,
                    *enc,
                    effects2(value@, fb, v),
                    effects2(f.term, f, fact_piece(value_facts(f.term, value@, false), f.after)),
                    f.term,
                );
            }
            sym
        },
        IntExpr::Contains(p, q) | IntExpr::StartsWith(q, p) | IntExpr::EndsWith(q, p) => {
            let a = str_text(enc, p);
            let ghost e1 = *enc;
            let b = str_text(enc, q);
            proof {
                lemma_encodes_chain(e0, e1, *enc, str_piece(**p, e0.fresh as nat), str_piece(**q, e1.fresh as nat), Seq::empty());
            }
            let pred: &str = match e {
                IntExpr::Contains(_, _) => "str.contains",
                IntExpr::StartsWith(_, _) => "str.prefixof",
                _ => "str.suffixof",
            };
            text1("(ite ", &text3("(", &str_to_string(pred), " ", &a, " ", &b, ")"), " (_ bv1 64) (_ bv0 64))")
        },
        IntExpr::Chomp(x) => {
            let a = str_text(enc, x);
            text1("(ite (str.suffixof \"\\u{a}\" ", &a, ") (_ bv1 64) (_ bv0 64))")
        },
        IntExpr::Ite(c, t, f) => {
            let a = bool_text(enc, c);
            let ghost e1 = *enc;
            let b = int_text(enc, t);
            let ghost e2 = *enc;
            let d = int_text(enc, f);
            proof {
                let pa = bool_piece(**c, e0.fresh as nat);
                let pb = int_piece(**t, e1.fresh as nat);
                lemma_encodes_chain(e0, e1, e2, pa, pb, Seq::empty());
                lemma_encodes_chain(e0, e2, *enc, effects2(Seq::empty(), pa, pb), int_piece(**f, e2.fresh as nat), Seq::empty());
            }
            text3("(ite ", &a, " ", &b, " ", &d, ")")
        },
        IntExpr::Index(h, x, start) => {
            let a = str_text(enc, h);
            let ghost e1 = *enc;
            let b = str_text(enc, x);
            let ghost e2 = *enc;
            let c = int_text(enc, start);
            let ghost e3 = *enc;
            let value = text3(
                "(let ((ih ",
                &a,
                ") (in ",
                &b,
                ") (is ",
                &int_value_text(&c),
                ")) (let ((ic (ite (>= is 0) is 0))) (ite (= (str.len in) 0) (ite (<= ic (str.len ih)) ic (str.len ih)) (str.indexof ih in ic))))",
            );
            let sym = via_side_fact(enc, &value, false);
            proof {
                let pa = str_piece(**h, e0.fresh as nat);
                let pb = str_piece(**x, e1.fresh as nat);
                let pc = int_piece(**start, e2.fresh as nat);
                lemma_encodes_chain(e0, e1, e2, pa, pb, Seq::empty());
                lemma_encodes_chain(e0, e2, e3, effects2(Seq::empty(), pa, pb), pc, Seq::empty());
                assert(value@ =~= wrap(
                    "(let ((ih "@,
                    join(join(pa, ") (in "@, pb), ") (is "@, int_value(pc)),
                    ")) (let ((ic (ite (>= is 0) is 0))) (ite (= (str.len in) 0) (ite (<= ic (str.len ih)) ic (str.len ih)) (str.indexof ih in ic))))"@,
                ).term);
                let f = fresh_piece("i2bv_"@, bv_sort(), e3.fresh as nat);
                lemma_encodes_chain(
                    e0,
                    e3,
                    *enc,
                    effects2(value@, effects2(Seq::empty(), pa, pb), pc),
                    effects2(f.term, f, fact_piece(value_facts(f.term, value@, false), f.after)),
                    f.term,
                );
            }
            sym
        },
        IntExpr::ArraySelect(a, i) => {
            let x = array_int_text(enc, a);
            let ghost e1 = *enc;
            let y = int_text(enc, i);
            proof {
                lemma_encodes_chain(e0, e1, *enc, array_int_piece(**a, e0.fresh as nat), int_piece(**i, e1.fresh as nat), Seq::empty());
            }
            text2("(select ", &x, " ", &y, ")")
        },
        IntExpr::HashSelect(h, k) => {
            let x = hash_int_text(enc, h);
            let ghost e1 = *enc;
            let y = str_text(enc, k);
            proof {
                lemma_encodes_chain(e0, e1, *enc, hash_int_piece(**h, e0.fresh as nat), str_piece(**k, e1.fresh as nat), Seq::empty());
            }
            text2("(select ", &x, " ", &y, ")")
        },
    }
}


/// The text of a string replacement of `x`'s occurrences of `y` by `z`.
fn replace_text(x: &String, y: &String, z: &String) -> (r: String)
    ensures
        r@ == "(let ((rs "@ + x@ + ") (rf "@ + y@ + ") (rt "@ + z@ + ") (ph \""@ + repeat("\\u{f8ff}"@, 33) + "\")) "@
            + repeat("(str.replace "@, 128) + "rs"@ + repeat(" rf ph)"@, 64) + repeat(" ph rt)"@, 64) + ")"@,
{
    let mut t = text3("(let ((rs ", x, ") (rf ", y, ") (rt ", z, ") (ph \"");
    push_repeat(&mut t, "\\u{f8ff}", 33);
    w(&mut t, "\")) ");
    push_repeat(&mut t, "(str.replace ", 128);
    w(&mut t, "rs");
    push_repeat(&mut t, " rf ph)", 64);
    push_repeat(&mut t, " ph rt)", 64);
    w(&mut t, ")");
    t
}

/// The string term of a string expression, declaring its constants and
/// adding the facts of its auxiliary constants.
#[verifier::rlimit(40)]
pub fn str_text(enc: &mut Encoder, e: &StrExpr) -> (r: String)
    ensures
        r@ == str_piece(*e, old(enc).fresh as nat).term,
        encodes(*old(enc), *final(enc), str_piece(*e, old(enc).fresh as nat)),
    decreases e,
{
    let ghost e0 = *enc;
    match e {
        StrExpr::Const(s) => {
            proof {
                lemma_encodes_refl(e0, string_literal(s@));
            }
            let mut t = String::new();
            push_string_literal(&mut t, s);
            t
        },
        StrExpr::Var(name) => var_text(enc, "s:", name, "String"),
        StrExpr::Concat(a, b) => {
            let x = str_text(enc, a);
            let ghost e1 = *enc;
            let y = str_text(enc, b);
            proof {
                lemma_encodes_chain(e0, e1, *enc, str_piece(**a, e0.fresh as nat), str_piece(**b, e1.fresh as nat), Seq::empty());
            }
            text2("(str.++ ", &x, " ", &y, ")")
        },
        StrExpr::Substr(v, start, len) => {
            let x = str_text(enc, v);
            let ghost e1 = *enc;
            let y = int_text(enc, start);
            let ghost e2 = *enc;
            let z = int_text(enc, len);
            proof {
                let px = str_piece(**v, e0.fresh as nat);
                let py = int_piece(**start, e1.fresh as nat);
                lemma_encodes_chain(e0, e1, e2, px, py, Seq::empty());
                lemma_encodes_chain(e0, e2, *enc, effects2(Seq::empty(), px, py), int_piece(**len, e2.fresh as nat), Seq::empty());
            }
            text3(
                "(let ((uv ",
                &x,
                ") (us ",
                &int_value_text(&y),
                ") (ul ",
                &int_value_text(&z),
                ")) (str.substr uv (ite (>= us 0) us (+ (str.len uv) us)) ul))",
            )
        },
        StrExpr::Chr(v) => {
            let y = int_text(enc, v);
            text1(
                "(let ((cv ",
                &int_value_text(&y),
                ")) (str.from_code (ite (and (>= cv 0) (<= cv 2147483647)) cv 65533)))",
            )
        },
        StrExpr::FromInt(v) => {
            let y = int_text(enc, v);
            text1(
                "(let ((fv ",
                &int_value_text(&y),
                ")) (ite (>= fv 0) (str.from_int fv) (str.++ \"-\" (str.from_int (- fv)))))",
            )
        },
        StrExpr::Reverse(v) => {
            let sym = fresh_symbol(enc, "reverse_", "String");
            let ghost e1 = *enc;
            let x = str_text(enc, v);
            let ghost e2 = *enc;
            let line = assert_text(&text2("(= (str.len ", &sym, ") (str.len ", &x, "))"));
            add_facts(enc, &line);
            proof {
                let f = fresh_piece("reverse_"@, "String"@, e0.fresh as nat);
                let px = str_piece(**v, e1.fresh as nat);
                lemma_encodes_chain(e0, e1, e2, f, px, Seq::empty());
                lemma_encodes_chain(e0, e2, *enc, effects2(Seq::empty(), f, px), fact_piece(line@, e2.fresh as nat), f.term);
            }
            sym
        },
        StrExpr::Replace(s, from, to) => {
            let x = str_text(enc, s);
            let ghost e1 = *enc;
            let y = str_text(enc, from);
            let ghost e2 = *enc;
            let z = str_text(enc, to);
            proof {
                let px = str_piece(**s, e0.fresh as nat);
                let py = str_piece(**from, e1.fresh as nat);
                lemma_encodes_chain(e0, e1, e2, px, py, Seq::empty());
                lemma_encodes_chain(e0, e2, *enc, effects2(Seq::empty(), px, py), str_piece(**to, e2.fresh as nat), Seq::empty());
            }
            replace_text(&x, &y, &z)
        },
        StrExpr::CharAt(s, i) => {
            let x = str_text(enc, s);
            let ghost e1 = *enc;
            let y = int_text(enc, i);
            proof {
                lemma_encodes_chain(e0, e1, *enc, str_piece(**s, e0.fresh as nat), int_piece(**i, e1.fresh as nat), Seq::empty());
            }
            text2(
                "(let ((cs ",
                &x,
                ") (ci ",
                &int_value_text(&y),
                ")) (str.at cs (ite (>= ci 0) ci (+ (str.len cs) ci))))",
            )
        },
        StrExpr::Ite(c, t, f) => {
            let a = bool_text(enc, c);
            let ghost e1 = *enc;
            let b = str_text(enc, t);
            let ghost e2 = *enc;
            let d = str_text(enc, f);
            proof {
                let pa = bool_piece(**c, e0.fresh as nat);
                let pb = str_piece(**t, e1.fresh as nat);
                lemma_encodes_chain(e0, e1, e2, pa, pb, Seq::empty());
                lemma_encodes_chain(e0, e2, *enc, effects2(Seq::empty(), pa, pb), str_piece(**f, e2.fresh as nat), Seq::empty());
            }
            text3("(ite ", &a, " ", &b, " ", &d, ")")
        },
        StrExpr::ArraySelect(a, i) => {
            let x = array_str_text(enc, a);
            let ghost e1 = *enc;
            let y = int_text(enc, i);
            proof {
                lemma_encodes_chain(e0, e1, *enc, array_str_piece(**a, e0.fresh as nat), int_piece(**i, e1.fresh as nat), Seq::empty());
            }
            text2("(select ", &x, " ", &y, ")")
        },
        StrExpr::HashSelect(h, k) => {
            let x = hash_str_text(enc, h);
            let ghost e1 = *enc;
            let y = str_text(enc, k);
            proof {
                lemma_encodes_chain(e0, e1, *enc, hash_str_piece(**h, e0.fresh as nat), str_piece(**k, e1.fresh as nat), Seq::empty());
            }
            text2("(select ", &x, " ", &y, ")")
        },
    }
}

/// The array term of an integer array.
pub fn array_int_text(enc: &mut Encoder, e: &ArrayIntExpr) -> (r: String)
    ensures
        r@ == array_int_piece(*e, old(enc).fresh as nat).term,
        encodes(*old(enc), *final(enc), array_int_piece(*e, old(enc).fresh as nat)),
    decreases e,
{
    let ghost e0 = *enc;
    match e {
        ArrayIntExpr::Var(name) => var_text(enc, "ai:", name, "(Array (_ BitVec 64) (_ BitVec 64))"),
        ArrayIntExpr::Store(a, i, v) => {
            let x = array_int_text(enc, a);
            let ghost e1 = *enc;
            let y = int_text(enc, i);
            let ghost e2 = *enc;
            let z = int_text(enc, v);
            proof {
                let px = array_int_piece(**a, e0.fresh as nat);
                let py = int_piece(**i, e1.fresh as nat);
                lemma_encodes_chain(e0, e1, e2, px, py, Seq::empty());
                lemma_encodes_chain(e0, e2, *enc, effects2(Seq::empty(), px, py), int_piece(**v, e2.fresh as nat), Seq::empty());
            }
            text3("(store ", &x, " ", &y, " ", &z, ")")
        },
    }
}

/// The array term of a string array.
pub fn array_str_text(enc: &mut Encoder, e: &ArrayStrExpr) -> (r: String)
    ensures
        r@ == array_str_piece(*e, old(enc).fresh as nat).term,
        encodes(*old(enc), *final(enc), array_str_piece(*e, old(enc).fresh as nat)),
    decreases e,
{
    let ghost e0 = *enc;
    match e {
        ArrayStrExpr::Var(name) => var_text(enc, "as:", name, "(Array (_ BitVec 64) String)"),
        ArrayStrExpr::Store(a, i, v) => {
            let x = array_str_text(enc, a);
            let ghost e1 = *enc;
            let y = int_text(enc, i);
            let ghost e2 = *enc;
            let z = str_text(enc, v);
            proof {
                let px = array_str_piece(**a, e0.fresh as nat);
                let py = int_piece(**i, e1.fresh as nat);
                lemma_encodes_chain(e0, e1, e2, px, py, Seq::empty());
                lemma_encodes_chain(e0, e2, *enc, effects2(Seq::empty(), px, py), str_piece(**v, e2.fresh as nat), Seq::empty());
            }
            text3("(store ", &x, " ", &y, " ", &z, ")")
        },
    }
}

/// The array term of a hash of integers.
pub fn hash_int_text(enc: &mut Encoder, e: &HashIntExpr) -> (r: String)
    ensures
        r@ == hash_int_piece(*e, old(enc).fresh as nat).term,
        encodes(*old(enc), *final(enc), hash_int_piece(*e, old(enc).fresh as nat)),
    decreases e,
{
    let ghost e0 = *enc;
    match e {
        HashIntExpr::Var(name) => var_text(enc, "hi:", name, "(Array String (_ BitVec 64))"),
        HashIntExpr::Store(h, k, v) => {
            let x = hash_int_text(enc, h);
            let ghost e1 = *enc;
            let y = str_text(enc, k);
            let ghost e2 = *enc;
            let z = int_text(enc, v);
            proof {
                let px = hash_int_piece(**h, e0.fresh as nat);
                let py = str_piece(**k, e1.fresh as nat);
                lemma_encodes_chain(e0, e1, e2, px, py, Seq::empty());
                lemma_encodes_chain(e0, e2, *enc, effects2(Seq::empty(), px, py), int_piece(**v, e2.fresh as nat), Seq::empty());
            }
            text3("(store ", &x, " ", &y, " ", &z, ")")
        },
    }
}

/// The array term of a hash of strings.
pub fn hash_str_text(enc: &mut Encoder, e: &HashStrExpr) -> (r: String)
    ensures
        r@ == hash_str_piece(*e, old(enc).fresh as nat).term,
        encodes(*old(enc), *final(enc), hash_str_piece(*e, old(enc).fresh as nat)),
    decreases e,
{
    let ghost e0 = *enc;
    match e {
        HashStrExpr::Var(name) => var_text(enc, "hs:", name, "(Array String String)"),
        HashStrExpr::Store(h, k, v) => {
            let x = hash_str_text(enc, h);
            let ghost e1 = *enc;
            let y = str_text(enc, k);
            let ghost e2 = *enc;
            let z = str_text(enc, v);
            proof {
                let px = hash_str_piece(**h, e0.fresh as nat);
                let py = str_piece(**k, e1.fresh as nat);
                lemma_encodes_chain(e0, e1, e2, px, py, Seq::empty());
                lemma_encodes_chain(e0, e2, *enc, effects2(Seq::empty(), px, py), str_piece(**v, e2.fresh as nat), Seq::empty());
            }
            text3("(store ", &x, " ", &y, " ", &z, ")")
        },
    }
}

/// The Boolean term of a condition.
pub fn bool_text(enc: &mut Encoder, e: &BoolExpr) -> (r: String)
    ensures
        r@ == bool_piece(*e, old(enc).fresh as nat).term,
        encodes(*old(enc), *final(enc), bool_piece(*e, old(enc).fresh as nat)),
    decreases e,
{
    let ghost e0 = *enc;
    match e {
        BoolExpr::Const(b) => {
            proof {
                lemma_encodes_refl(e0, if *b { "true"@ } else { "false"@ });
            }
            str_to_string(if *b { "true" } else { "false" })
        },
        BoolExpr::Not(x) => {
            let a = bool_text(enc, x);
            text1("(not ", &a, ")")
        },
        BoolExpr::And(a, b) | BoolExpr::Or(a, b) => {
            let x = bool_text(enc, a);
            let ghost e1 = *enc;
            let y = bool_text(enc, b);
            proof {
                lemma_encodes_chain(e0, e1, *enc, bool_piece(**a, e0.fresh as nat), bool_piece(**b, e1.fresh as nat), Seq::empty());
            }
            let op: &str = match e {
                BoolExpr::And(_, _) => "(and ",
                _ => "(or ",
            };
            text2(op, &x, " ", &y, ")")
        },
        BoolExpr::Overflow(exprs) => {
            if exprs.len() == 0 {
                proof {
                    lemma_encodes_refl(e0, "false"@);
                }
                return str_to_string("false");
            }
            let ghost n0 = e0.fresh as nat;
            let mut t = str_to_string("(not (and true");
            proof {
                lemma_encodes_refl(e0, Seq::empty());
                assert(exprs@.subrange(0, 0) =~= Seq::<IntExpr>::empty());
                assert(t@ =~= "(not (and true"@ + overflow_all(exprs@.subrange(0, 0), n0).term);
            }
            let mut i: usize = 0;
            while i < exprs.len()
                invariant
                    i <= exprs@.len(),
                    *e == BoolExpr::Overflow(*exprs),
                    n0 == e0.fresh as nat,
                    t@ == "(not (and true"@ + overflow_all(exprs@.subrange(0, i as int), n0).term,
                    encodes(e0, *enc, overflow_all(exprs@.subrange(0, i as int), n0)),
                decreases exprs.len() - i,
            {
                proof {
                    assert(decreases_to!(*e => (*e)->Overflow_0));
                    assert(decreases_to!(*exprs => exprs@[i as int]));
                }
                let ghost ei = *enc;
                let ghost before = overflow_all(exprs@.subrange(0, i as int), n0);
                let s = safety_int_text(enc, &exprs[i], true);
                proof {
                    let sub = exprs@.subrange(0, i + 1);
                    assert(sub.subrange(0, sub.len() - 1) =~= exprs@.subrange(0, i as int));
                    assert(sub[sub.len() - 1] == exprs@[i as int]);
                    lemma_encodes_chain(e0, ei, *enc, before, safety_int_piece(exprs@[i as int], true, ei.fresh as nat), Seq::empty());
                }
                w(&mut t, " ");
                push_string(&mut t, &s);
                i += 1;
            }
            assert(exprs@.subrange(0, i as int) =~= exprs@);
            w(&mut t, "))");
            t
        },
        BoolExpr::IntCmp(op, l, r) => {
            let a = int_text(enc, l);
            let ghost e1 = *enc;
            let b = int_text(enc, r);
            proof {
                lemma_encodes_chain(e0, e1, *enc, int_piece(**l, e0.fresh as nat), int_piece(**r, e1.fresh as nat), Seq::empty());
            }
            let name: &str = match op {
                CmpOp::Lt => "bvslt",
                CmpOp::Le => "bvsle",
                CmpOp::Gt => "bvsgt",
                CmpOp::Ge => "bvsge",
                CmpOp::Eq | CmpOp::Ne => "=",
            };
            let t = text3("(", &str_to_string(name), " ", &a, " ", &b, ")");
            if *op == CmpOp::Ne {
                text1("(not ", &t, ")")
            } else {
                t
            }
        },
        BoolExpr::StrEq(a, b) => {
            let x = str_text(enc, a);
            let ghost e1 = *enc;
            let y = str_text(enc, b);
            proof {
                lemma_encodes_chain(e0, e1, *enc, str_piece(**a, e0.fresh as nat), str_piece(**b, e1.fresh as nat), Seq::empty());
            }
            text2("(= ", &x, " ", &y, ")")
        },
        BoolExpr::StrCmp(op, a, b) => {
            let swapped = *op == CmpOp::Gt || *op == CmpOp::Ge;
            let (first, second) = if swapped {
                (b, a)
            } else {
                (a, b)
            };
            let x = str_text(enc, first);
            let ghost e1 = *enc;
            let y = str_text(enc, second);
            proof {
                lemma_encodes_chain(e0, e1, *enc, str_piece(**first, e0.fresh as nat), str_piece(**second, e1.fresh as nat), Seq::empty());
            }
            let name: &str = match op {
                CmpOp::Lt | CmpOp::Gt => "str.<",
                CmpOp::Le | CmpOp::Ge => "str.<=",
                CmpOp::Eq | CmpOp::Ne => "=",
            };
            let t = text3("(", &str_to_string(name), " ", &x, " ", &y, ")");
            if *op == CmpOp::Ne {
                text1("(not ", &t, ")")
            } else {
                t
            }
        },
    }
}


/// `(and a b)`
fn both_text(a: &String, b: &String) -> (r: String)
    ensures
        r@ == "(and "@ + a@ + " "@ + b@ + ")"@,
{
    text2("(and ", a, " ", b, ")")
}

/// The side conditions of an integer expression: that its operations are
/// defined, or (`overflow`) that they stay within 64 bits.
pub fn safety_int_text(enc: &mut Encoder, e: &IntExpr, overflow: bool) -> (r: String)
    ensures
        r@ == safety_int_piece(*e, overflow, old(enc).fresh as nat).term,
        encodes(*old(enc), *final(enc), safety_int_piece(*e, overflow, old(enc).fresh as nat)),
    decreases e,
{
    let ghost e0 = *enc;
    match e {
        IntExpr::Const(_) | IntExpr::Var(_) => {
            proof {
                lemma_encodes_refl(e0, "true"@);
            }
            str_to_string("true")
        },
        IntExpr::Add(l, r) | IntExpr::Sub(l, r) | IntExpr::Mul(l, r) | IntExpr::BitAnd(l, r) | IntExpr::BitOr(l, r)
        | IntExpr::BitXor(l, r) | IntExpr::Shl(l, r) | IntExpr::Shr(l, r) | IntExpr::Pow(l, r) | IntExpr::Div(l, r)
        | IntExpr::Mod(l, r) => {
            let a = safety_int_text(enc, l, overflow);
            let ghost e1 = *enc;
            let b = safety_int_text(enc, r, overflow);
            let ghost e2 = *enc;
            let ghost pa = safety_int_piece(**l, overflow, e0.fresh as nat);
            let ghost pb = safety_int_piece(**r, overflow, e1.fresh as nat);
            proof {
                lemma_encodes_chain(e0, e1, e2, pa, pb, Seq::empty());
            }
            let arith = match e {
                IntExpr::Add(_, _) | IntExpr::Sub(_, _) | IntExpr::Mul(_, _) => true,
                _ => false,
            };
            let shift = match e {
                IntExpr::Shl(_, _) | IntExpr::Shr(_, _) => true,
                _ => false,
            };
            let bits = match e {
                IntExpr::BitAnd(_, _) | IntExpr::BitOr(_, _) | IntExpr::BitXor(_, _) => true,
                _ => false,
            };
            let is_pow = match e {
                IntExpr::Pow(_, _) => true,
                _ => false,
            };
            let is_div = match e {
                IntExpr::Div(_, _) => true,
                _ => false,
            };
            if bits || (overflow && !arith && !is_div) || (!overflow && arith) {
                both_text(&a, &b)
            } else if shift {
                let x = int_text(enc, l);
                proof {
                    lemma_encodes_chain(e0, e2, *enc, effects2(Seq::empty(), pa, pb), int_piece(**l, e2.fresh as nat), Seq::empty());
                }
                text3("(and ", &a, " ", &b, " (bvsge ", &x, " (_ bv0 64)))")
            } else if !overflow && !is_pow && !arith {
                let y = int_text(enc, r);
                proof {
                    lemma_encodes_chain(e0, e2, *enc, effects2(Seq::empty(), pa, pb), int_piece(**r, e2.fresh as nat), Seq::empty());
                }
                text3("(and ", &a, " ", &b, " (not (= ", &y, " (_ bv0 64))))")
            } else {
                let x = int_text(enc, l);
                let ghost e3 = *enc;
                let y = int_text(enc, r);
                proof {
                    let px = int_piece(**l, e2.fresh as nat);
                    lemma_encodes_chain(e0, e2, e3, effects2(Seq::empty(), pa, pb), px, Seq::empty());
                    lemma_encodes_chain(
                        e0,
                        e3,
                        *enc,
                        effects2(Seq::empty(), effects2(Seq::empty(), pa, pb), px),
                        int_piece(**r, e3.fresh as nat),
                        Seq::empty(),
                    );
                }
                if is_pow {
                    text4(
                        "(and ",
                        &a,
                        " ",
                        &b,
                        " (let ((pl ",
                        &x,
                        ") (pr ",
                        &y,
                        ")) (and (bvsge pr (_ bv0 64)) (let ((pp (^ (to_real (ite (bvslt pl (_ bv0 64)) (- (bv2nat pl) 18446744073709551616) (bv2nat pl))) (to_real (ite (bvslt pr (_ bv0 64)) (- (bv2nat pr) 18446744073709551616) (bv2nat pr)))))) (and (>= pp (to_real (- 9223372036854775808))) (<= pp (to_real 9223372036854775807)))))))",
                    )
                } else if is_div {
                    text4(
                        "(and ",
                        &a,
                        " ",
                        &b,
                        " (not (and (= ",
                        &x,
                        " (_ bv9223372036854775808 64)) (= ",
                        &y,
                        " (_ bv18446744073709551615 64)))))",
                    )
                } else {
                    let (ext, max, min, op) = match e {
                        IntExpr::Add(_, _) => ("1", "(_ bv9223372036854775807 65)", "(_ bv27670116110564327424 65)", "bvadd"),
                        IntExpr::Sub(_, _) => ("1", "(_ bv9223372036854775807 65)", "(_ bv27670116110564327424 65)", "bvsub"),
                        _ => (
                            "64",
                            "(_ bv9223372036854775807 128)",
                            "(_ bv340282366920938463454151235394913435648 128)",
                            "bvmul",
                        ),
                    };
                    let mut t = text2("(and ", &a, " ", &b, " (let ((ow (");
                    w(&mut t, op);
                    w(&mut t, " ((_ sign_extend ");
                    w(&mut t, ext);
                    w(&mut t, ") ");
                    push_string(&mut t, &x);
                    w(&mut t, ") ((_ sign_extend ");
                    w(&mut t, ext);
                    w(&mut t, ") ");
                    push_string(&mut t, &y);
                    w(&mut t, ")))) (and (bvsle ow ");
                    w(&mut t, max);
                    w(&mut t, ") (bvsge ow ");
                    w(&mut t, min);
                    w(&mut t, "))))");
                    t
                }
            }
        },
        IntExpr::BitNot(v) => safety_int_text(enc, v, overflow),
        IntExpr::Abs(v) => {
            if overflow {
                let a = safety_int_text(enc, v, overflow);
                let ghost e1 = *enc;
                let x = int_text(enc, v);
                proof {
                    lemma_encodes_chain(
                        e0,
                        e1,
                        *enc,
                        safety_int_piece(**v, overflow, e0.fresh as nat),
                        int_piece(**v, e1.fresh as nat),
                        Seq::empty(),
                    );
                }
                text2("(and ", &a, " (not (= ", &x, " (_ bv9223372036854775808 64))))")
            } else {
                safety_int_text(enc, v, overflow)
            }
        },
        IntExpr::StrToInt(s) | IntExpr::Ord(s) | IntExpr::Chomp(s) | IntExpr::Length(s) => safety_str_text(enc, s, overflow),
        IntExpr::Contains(a, b) | IntExpr::StartsWith(a, b) | IntExpr::EndsWith(a, b) => {
            let x = safety_str_text(enc, a, overflow);
            let ghost e1 = *enc;
            let y = safety_str_text(enc, b, overflow);
            proof {
                lemma_encodes_chain(
                    e0,
                    e1,
                    *enc,
                    safety_str_piece(**a, overflow, e0.fresh as nat),
                    safety_str_piece(**b, overflow, e1.fresh as nat),
                    Seq::empty(),
                );
            }
            both_text(&x, &y)
        },
        IntExpr::Ite(c, t, f) => {
            let sc = safety_bool_text(enc, c, overflow);
            let ghost e1 = *enc;
            let st = safety_int_text(enc, t, overflow);
            let ghost e2 = *enc;
            let sf = safety_int_text(enc, f, overflow);
            let ghost e3 = *enc;
            let ct = bool_text(enc, c);
            proof {
                let p1 = safety_bool_piece(**c, overflow, e0.fresh as nat);
                let p2 = safety_int_piece(**t, overflow, e1.fresh as nat);
                let p3 = safety_int_piece(**f, overflow, e2.fresh as nat);
                lemma_encodes_chain(e0, e1, e2, p1, p2, Seq::empty());
                lemma_encodes_chain(e0, e2, e3, effects2(Seq::empty(), p1, p2), p3, Seq::empty());
                lemma_encodes_chain(
                    e0,
                    e3,
                    *enc,
                    effects2(Seq::empty(), effects2(Seq::empty(), p1, p2), p3),
                    bool_piece(**c, e3.fresh as nat),
                    Seq::empty(),
                );
            }
            text4("(let ((gc ", &ct, ")) (and ", &sc, " (or (not gc) ", &st, ") (or gc ", &sf, ")))")
        },
        IntExpr::Index(h, x, start) => {
            let a = safety_str_text(enc, h, overflow);
            let ghost e1 = *enc;
            let b = safety_str_text(enc, x, overflow);
            let ghost e2 = *enc;
            let c = safety_int_text(enc, start, overflow);
            proof {
                let pa = safety_str_piece(**h, overflow, e0.fresh as nat);
                let pb = safety_str_piece(**x, overflow, e1.fresh as nat);
                lemma_encodes_chain(e0, e1, e2, pa, pb, Seq::empty());
                lemma_encodes_chain(
                    e0,
                    e2,
                    *enc,
                    effects2(Seq::empty(), pa, pb),
                    safety_int_piece(**start, overflow, e2.fresh as nat),
                    Seq::empty(),
                );
            }
            text3("(and ", &a, " ", &b, " ", &c, ")")
        },
        IntExpr::ArraySelect(a, i) => {
            let x = safety_array_int_text(enc, a, overflow);
            let ghost e1 = *enc;
            let y = safety_int_text(enc, i, overflow);
            proof {
                lemma_encodes_chain(
                    e0,
                    e1,
                    *enc,
                    safety_array_int_piece(**a, overflow, e0.fresh as nat),
                    safety_int_piece(**i, overflow, e1.fresh as nat),
                    Seq::empty(),
                );
            }
            both_text(&x, &y)
        },
        IntExpr::HashSelect(h, k) => {
            let x = safety_hash_int_text(enc, h, overflow);
            let ghost e1 = *enc;
            let y = safety_str_text(enc, k, overflow);
            proof {
                lemma_encodes_chain(
                    e0,
                    e1,
                    *enc,
                    safety_hash_int_piece(**h, overflow, e0.fresh as nat),
                    safety_str_piece(**k, overflow, e1.fresh as nat),
                    Seq::empty(),
                );
            }
            both_text(&x, &y)
        },
    }
}

/// The side conditions of a string expression.
pub fn safety_str_text(enc: &mut Encoder, e: &StrExpr, overflow: bool) -> (r: String)
    ensures
        r@ == safety_str_piece(*e, overflow, old(enc).fresh as nat).term,
        encodes(*old(enc), *final(enc), safety_str_piece(*e, overflow, old(enc).fresh as nat)),
    decreases e,
{
    let ghost e0 = *enc;
    match e {
        StrExpr::Const(_) | StrExpr::Var(_) => {
            proof {
                lemma_encodes_refl(e0, "true"@);
            }
            str_to_string("true")
        },
        StrExpr::Concat(a, b) => {
            let x = safety_str_text(enc, a, overflow);
            let ghost e1 = *enc;
            let y = safety_str_text(enc, b, overflow);
            proof {
                lemma_encodes_chain(
                    e0,
                    e1,
                    *enc,
                    safety_str_piece(**a, overflow, e0.fresh as nat),
                    safety_str_piece(**b, overflow, e1.fresh as nat),
                    Seq::empty(),
                );
            }
            both_text(&x, &y)
        },
        StrExpr::Substr(v, st, l) => {
            let x = safety_str_text(enc, v, overflow);
            let ghost e1 = *enc;
            let y = safety_int_text(enc, st, overflow);
            let ghost e2 = *enc;
            let z = safety_int_text(enc, l, overflow);
            proof {
                let px = safety_str_piece(**v, overflow, e0.fresh as nat);
                let py = safety_int_piece(**st, overflow, e1.fresh as nat);
                lemma_encodes_chain(e0, e1, e2, px, py, Seq::empty());
                lemma_encodes_chain(
                    e0,
                    e2,
                    *enc,
                    effects2(Seq::empty(), px, py),
                    safety_int_piece(**l, overflow, e2.fresh as nat),
                    Seq::empty(),
                );
            }
            text3("(and ", &x, " ", &y, " ", &z, ")")
        },
        StrExpr::Chr(v) | StrExpr::FromInt(v) => safety_int_text(enc, v, overflow),
        StrExpr::Reverse(v) => safety_str_text(enc, v, overflow),
        StrExpr::Replace(s, from, to) => {
            let x = safety_str_text(enc, s, overflow);
            let ghost e1 = *enc;
            let y = safety_str_text(enc, from, overflow);
            let ghost e2 = *enc;
            let z = safety_str_text(enc, to, overflow);
            let ghost e3 = *enc;
            let ghost px = safety_str_piece(**s, overflow, e0.fresh as nat);
            let ghost py = safety_str_piece(**from, overflow, e1.fresh as nat);
            let ghost pz = safety_str_piece(**to, overflow, e2.fresh as nat);
            proof {
                lemma_encodes_chain(e0, e1, e2, px, py, Seq::empty());
                lemma_encodes_chain(e0, e2, e3, effects2(Seq::empty(), px, py), pz, Seq::empty());
            }
            if overflow {
                text3("(and ", &x, " ", &y, " ", &z, ")")
            } else {
                let u = str_text(enc, from);
                proof {
                    lemma_encodes_chain(
                        e0,
                        e3,
                        *enc,
                        effects2(Seq::empty(), effects2(Seq::empty(), px, py), pz),
                        str_piece(**from, e3.fresh as nat),
                        Seq::empty(),
                    );
                }
                text4("(and ", &x, " ", &y, " ", &z, " (>= (str.len ", &u, ") 1))")
            }
        },
        StrExpr::CharAt(s, i) => {
            let x = safety_str_text(enc, s, overflow);
            let ghost e1 = *enc;
            let y = safety_int_text(enc, i, overflow);
            proof {
                lemma_encodes_chain(
                    e0,
                    e1,
                    *enc,
                    safety_str_piece(**s, overflow, e0.fresh as nat),
                    safety_int_piece(**i, overflow, e1.fresh as nat),
                    Seq::empty(),
                );
            }
            both_text(&x, &y)
        },
        StrExpr::Ite(c, t, f) => {
            let sc = safety_bool_text(enc, c, overflow);
            let ghost e1 = *enc;
            let st = safety_str_text(enc, t, overflow);
            let ghost e2 = *enc;
            let sf = safety_str_text(enc, f, overflow);
            let ghost e3 = *enc;
            let ct = bool_text(enc, c);
            proof {
                let p1 = safety_bool_piece(**c, overflow, e0.fresh as nat);
                let p2 = safety_str_piece(**t, overflow, e1.fresh as nat);
                let p3 = safety_str_piece(**f, overflow, e2.fresh as nat);
                lemma_encodes_chain(e0, e1, e2, p1, p2, Seq::empty());
                lemma_encodes_chain(e0, e2, e3, effects2(Seq::empty(), p1, p2), p3, Seq::empty());
                lemma_encodes_chain(
                    e0,
                    e3,
                    *enc,
                    effects2(Seq::empty(), effects2(Seq::empty(), p1, p2), p3),
                    bool_piece(**c, e3.fresh as nat),
                    Seq::empty(),
                );
            }
            text4("(let ((gc ", &ct, ")) (and ", &sc, " (or (not gc) ", &st, ") (or gc ", &sf, ")))")
        },
        StrExpr::ArraySelect(a, i) => {
            let x = safety_array_str_text(enc, a, overflow);
            let ghost e1 = *enc;
            let y = safety_int_text(enc, i, overflow);
            proof {
                lemma_encodes_chain(
                    e0,
                    e1,
                    *enc,
                    safety_array_str_piece(**a, overflow, e0.fresh as nat),
                    safety_int_piece(**i, overflow, e1.fresh as nat),
                    Seq::empty(),
                );
            }
            both_text(&x, &y)
        },
        StrExpr::HashSelect(h, k) => {
            let x = safety_hash_str_text(enc, h, overflow);
            let ghost e1 = *enc;
            let y = safety_str_text(enc, k, overflow);
            proof {
                lemma_encodes_chain(
                    e0,
                    e1,
                    *enc,
                    safety_hash_str_piece(**h, overflow, e0.fresh as nat),
                    safety_str_piece(**k, overflow, e1.fresh as nat),
                    Seq::empty(),
                );
            }
            both_text(&x, &y)
        },
    }
}

pub fn safety_array_int_text(enc: &mut Encoder, e: &ArrayIntExpr, overflow: bool) -> (r: String)
    ensures
        r@ == safety_array_int_piece(*e, overflow, old(enc).fresh as nat).term,
        encodes(*old(enc), *final(enc), safety_array_int_piece(*e, overflow, old(enc).fresh as nat)),
    decreases e,
{
    let ghost e0 = *enc;
    match e {
        ArrayIntExpr::Var(_) => {
            proof {
                lemma_encodes_refl(e0, "true"@);
            }
            str_to_string("true")
        },
        ArrayIntExpr::Store(a, i, v) => {
            let x = safety_array_int_text(enc, a, overflow);
            let ghost e1 = *enc;
            let y = safety_int_text(enc, i, overflow);
            let ghost e2 = *enc;
            let z = safety_int_text(enc, v, overflow);
            proof {
                let px = safety_array_int_piece(**a, overflow, e0.fresh as nat);
                let py = safety_int_piece(**i, overflow, e1.fresh as nat);
                lemma_encodes_chain(e0, e1, e2, px, py, Seq::empty());
                lemma_encodes_chain(
                    e0,
                    e2,
                    *enc,
                    effects2(Seq::empty(), px, py),
                    safety_int_piece(**v, overflow, e2.fresh as nat),
                    Seq::empty(),
                );
            }
            text3("(and ", &x, " ", &y, " ", &z, ")")
        },
    }
}

pub fn safety_array_str_text(enc: &mut Encoder, e: &ArrayStrExpr, overflow: bool) -> (r: String)
    ensures
        r@ == safety_array_str_piece(*e, overflow, old(enc).fresh as nat).term,
        encodes(*old(enc), *final(enc), safety_array_str_piece(*e, overflow, old(enc).fresh as nat)),
    decreases e,
{
    let ghost e0 = *enc;
    match e {
        ArrayStrExpr::Var(_) => {
            proof {
                lemma_encodes_refl(e0, "true"@);
            }
            str_to_string("true")
        },
        ArrayStrExpr::Store(a, i, v) => {
            let x = safety_array_str_text(enc, a, overflow);
            let ghost e1 = *enc;
            let y = safety_int_text(enc, i, overflow);
            let ghost e2 = *enc;
            let z = safety_str_text(enc, v, overflow);
            proof {
                let px = safety_array_str_piece(**a, overflow, e0.fresh as nat);
                let py = safety_int_piece(**i, overflow, e1.fresh as nat);
                lemma_encodes_chain(e0, e1, e2, px, py, Seq::empty());
                lemma_encodes_chain(
                    e0,
                    e2,
                    *enc,
                    effects2(Seq::empty(), px, py),
                    safety_str_piece(**v, overflow, e2.fresh as nat),
                    Seq::empty(),
                );
            }
            text3("(and ", &x, " ", &y, " ", &z, ")")
        },
    }
}

pub fn safety_hash_int_text(enc: &mut Encoder, e: &HashIntExpr, overflow: bool) -> (r: String)
    ensures
        r@ == safety_hash_int_piece(*e, overflow, old(enc).fresh as nat).term,
        encodes(*old(enc), *final(enc), safety_hash_int_piece(*e, overflow, old(enc).fresh as nat)),
    decreases e,
{
    let ghost e0 = *enc;
    match e {
        HashIntExpr::Var(_) => {
            proof {
                lemma_encodes_refl(e0, "true"@);
            }
            str_to_string("true")
        },
        HashIntExpr::Store(h, k, v) => {
            let x = safety_hash_int_text(enc, h, overflow);
            let ghost e1 = *enc;
            let y = safety_str_text(enc, k, overflow);
            let ghost e2 = *enc;
            let z = safety_int_text(enc, v, overflow);
            proof {
                let px = safety_hash_int_piece(**h, overflow, e0.fresh as nat);
                let py = safety_str_piece(**k, overflow, e1.fresh as nat);
                lemma_encodes_chain(e0, e1, e2, px, py, Seq::empty());
                lemma_encodes_chain(
                    e0,
                    e2,
                    *enc,
                    effects2(Seq::empty(), px, py),
                    safety_int_piece(**v, overflow, e2.fresh as nat),
                    Seq::empty(),
                );
            }
            text3("(and ", &x, " ", &y, " ", &z, ")")
        },
    }
}

pub fn safety_hash_str_text(enc: &mut Encoder, e: &HashStrExpr, overflow: bool) -> (r: String)
    ensures
        r@ == safety_hash_str_piece(*e, overflow, old(enc).fresh as nat).term,
        encodes(*old(enc), *final(enc), safety_hash_str_piece(*e, overflow, old(enc).fresh as nat)),
    decreases e,
{
    let ghost e0 = *enc;
    match e {
        HashStrExpr::Var(_) => {
            proof {
                lemma_encodes_refl(e0, "true"@);
            }
            str_to_string("true")
        },
        HashStrExpr::Store(h, k, v) => {
            let x = safety_hash_str_text(enc, h, overflow);
            let ghost e1 = *enc;
            let y = safety_str_text(enc, k, overflow);
            let ghost e2 = *enc;
            let z = safety_str_text(enc, v, overflow);
            proof {
                let px = safety_hash_str_piece(**h, overflow, e0.fresh as nat);
                let py = safety_str_piece(**k, overflow, e1.fresh as nat);
                lemma_encodes_chain(e0, e1, e2, px, py, Seq::empty());
                lemma_encodes_chain(
                    e0,
                    e2,
                    *enc,
                    effects2(Seq::empty(), px, py),
                    safety_str_piece(**v, overflow, e2.fresh as nat),
                    Seq::empty(),
                );
            }
            text3("(and ", &x, " ", &y, " ", &z, ")")
        },
    }
}

/// The side conditions of a condition.
pub fn safety_bool_text(enc: &mut Encoder, e: &BoolExpr, overflow: bool) -> (r: String)
    ensures
        r@ == safety_bool_piece(*e, overflow, old(enc).fresh as nat).term,
        encodes(*old(enc), *final(enc), safety_bool_piece(*e, overflow, old(enc).fresh as nat)),
    decreases e,
{
    let ghost e0 = *enc;
    match e {
        BoolExpr::Const(_) | BoolExpr::Overflow(_) => {
            proof {
                lemma_encodes_refl(e0, "true"@);
            }
            str_to_string("true")
        },
        BoolExpr::Not(x) => safety_bool_text(enc, x, overflow),
        BoolExpr::And(a, b) | BoolExpr::Or(a, b) => {
            let x = safety_bool_text(enc, a, overflow);
            let ghost e1 = *enc;
            let y = safety_bool_text(enc, b, overflow);
            proof {
                lemma_encodes_chain(
                    e0,
                    e1,
                    *enc,
                    safety_bool_piece(**a, overflow, e0.fresh as nat),
                    safety_bool_piece(**b, overflow, e1.fresh as nat),
                    Seq::empty(),
                );
            }
            both_text(&x, &y)
        },
        BoolExpr::IntCmp(_, a, b) => {
            let x = safety_int_text(enc, a, overflow);
            let ghost e1 = *enc;
            let y = safety_int_text(enc, b, overflow);
            proof {
                lemma_encodes_chain(
                    e0,
                    e1,
                    *enc,
                    safety_int_piece(**a, overflow, e0.fresh as nat),
                    safety_int_piece(**b, overflow, e1.fresh as nat),
                    Seq::empty(),
                );
            }
            both_text(&x, &y)
        },
        BoolExpr::StrEq(a, b) | BoolExpr::StrCmp(_, a, b) => {
            let x = safety_str_text(enc, a, overflow);
            let ghost e1 = *enc;
            let y = safety_str_text(enc, b, overflow);
            proof {
                lemma_encodes_chain(
                    e0,
                    e1,
                    *enc,
                    safety_str_piece(**a, overflow, e0.fresh as nat),
                    safety_str_piece(**b, overflow, e1.fresh as nat),
                    Seq::empty(),
                );
            }
            both_text(&x, &y)
        },
    }
}

} // verus!
