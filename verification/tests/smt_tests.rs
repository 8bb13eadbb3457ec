use perlchecker::ast::Type;
use perlchecker::smt::{find_model, is_satisfiable, ModelVar, MAX_STR_LEN};
use perlchecker::symexec::{ArrayIntExpr, BoolExpr, CmpOp, IntExpr, ModelValue, StrExpr};

#[test]
fn detects_unsatisfiable_constraint() {
    let condition = BoolExpr::And(
        Box::new(BoolExpr::IntCmp(
            CmpOp::Gt,
            Box::new(IntExpr::Var("x".to_string())),
            Box::new(IntExpr::Const(0)),
        )),
        Box::new(BoolExpr::IntCmp(
            CmpOp::Le,
            Box::new(IntExpr::Var("x".to_string())),
            Box::new(IntExpr::Const(0)),
        )),
    );

    assert!(!is_satisfiable("foo", &condition).unwrap());
}

#[test]
fn finds_string_model_with_bound() {
    let condition = BoolExpr::StrEq(
        Box::new(StrExpr::Var("x".to_string())),
        Box::new(StrExpr::Const("hello".to_string())),
    );

    let model = find_model(
        "foo",
        &condition,
        &vec![ModelVar {
            name: "x".to_string(),
            ty: Type::Str,
        }],
    )
    .unwrap()
    .unwrap();

    assert_eq!(model.get(&"x".to_string()), Some(&ModelValue::Str("hello".to_string())));
    assert!("hello".len() as i64 <= MAX_STR_LEN);
}

#[test]
fn supports_indexof_semantics() {
    let condition = BoolExpr::IntCmp(
        CmpOp::Eq,
        Box::new(IntExpr::Index(
            Box::new(StrExpr::Const("hello".to_string())),
            Box::new(StrExpr::Const("ll".to_string())),
            Box::new(IntExpr::Const(0)),
        )),
        Box::new(IntExpr::Const(2)),
    );

    assert!(is_satisfiable("foo", &condition).unwrap());
}

#[test]
fn array_store_select_identity() {
    // store(arr, i, v)[i] == v should always hold (theory of arrays)
    let stored = ArrayIntExpr::Store(
        Box::new(ArrayIntExpr::Var("arr".to_string())),
        Box::new(IntExpr::Var("i".to_string())),
        Box::new(IntExpr::Var("v".to_string())),
    );
    let selected = IntExpr::ArraySelect(Box::new(stored), Box::new(IntExpr::Var("i".to_string())));
    // NOT(selected == v) should be UNSAT
    let negation = BoolExpr::IntCmp(
        CmpOp::Ne,
        Box::new(selected),
        Box::new(IntExpr::Var("v".to_string())),
    );
    assert!(!is_satisfiable("foo", &negation).unwrap(), "array store-then-select should be identity");
}

#[test]
fn prunes_division_by_zero_via_safety_constraints() {
    let condition = BoolExpr::IntCmp(
        CmpOp::Eq,
        Box::new(IntExpr::Div(
            Box::new(IntExpr::Const(4)),
            Box::new(IntExpr::Const(0)),
        )),
        Box::new(IntExpr::Const(0)),
    );

    assert!(!is_satisfiable("foo", &condition).unwrap());
}

#[test]
fn supports_modulo_semantics() {
    let condition = BoolExpr::IntCmp(
        CmpOp::Eq,
        Box::new(IntExpr::Mod(
            Box::new(IntExpr::Const(7)),
            Box::new(IntExpr::Const(3)),
        )),
        Box::new(IntExpr::Const(1)),
    );

    assert!(is_satisfiable("foo", &condition).unwrap());
}

#[test]
fn perl_modulo_matches_all_sign_combinations() {
    // Verify bvsmod matches Perl's % for all sign combinations
    let cases: &[(i64, i64, i64)] = &[
        // (a, b, expected_perl_mod)
        (7, 3, 1),
        (-7, 3, 2),
        (7, -3, -2),
        (-7, -3, -1),
        (10, 3, 1),
        (-10, 3, 2),
        (10, -3, -2),
        (-10, -3, -1),
        (1, 5, 1),
        (-1, 5, 4),
        (1, -5, -4),
        (-1, -5, -1),
    ];

    for &(a, b, perl_expected) in cases {
        let condition = BoolExpr::IntCmp(
            CmpOp::Eq,
            Box::new(IntExpr::Mod(
                Box::new(IntExpr::Const(a)),
                Box::new(IntExpr::Const(b)),
            )),
            Box::new(IntExpr::Const(perl_expected)),
        );
        assert!(
            is_satisfiable("foo", &condition).unwrap(),
            "bvsmod({}, {}) should equal {} (Perl's %)",
            a,
            b,
            perl_expected
        );
    }
}

#[test]
fn strtoint_pure_digits_correct() {
    // int("42") == 42 should be satisfiable
    let condition = BoolExpr::IntCmp(
        CmpOp::Eq,
        Box::new(IntExpr::StrToInt(Box::new(StrExpr::Const("42".to_string())))),
        Box::new(IntExpr::Const(42)),
    );
    assert!(is_satisfiable("foo", &condition).unwrap());
}

#[test]
fn strtoint_negative_correct() {
    // int("-7") == -7 should be satisfiable
    let condition = BoolExpr::IntCmp(
        CmpOp::Eq,
        Box::new(IntExpr::StrToInt(Box::new(StrExpr::Const("-7".to_string())))),
        Box::new(IntExpr::Const(-7)),
    );
    assert!(is_satisfiable("foo", &condition).unwrap());
}

#[test]
fn strtoint_empty_returns_zero() {
    // int("") == 0 should be satisfiable
    let condition = BoolExpr::IntCmp(
        CmpOp::Eq,
        Box::new(IntExpr::StrToInt(Box::new(StrExpr::Const("".to_string())))),
        Box::new(IntExpr::Const(0)),
    );
    assert!(is_satisfiable("foo", &condition).unwrap());
}

#[test]
fn strtoint_bare_minus_returns_zero() {
    // int("-") == 0 should be satisfiable
    let condition = BoolExpr::IntCmp(
        CmpOp::Eq,
        Box::new(IntExpr::StrToInt(Box::new(StrExpr::Const("-".to_string())))),
        Box::new(IntExpr::Const(0)),
    );
    assert!(is_satisfiable("foo", &condition).unwrap());
}

#[test]
fn strtoint_whitespace_not_falsely_zero() {
    // int("  42") == 0 should NOT be provably true.
    // The encoding uses an unconstrained fallback for non-pure-digit strings,
    // so int("  42") != 0 is satisfiable (the fallback could be non-zero).
    let not_zero = BoolExpr::IntCmp(
        CmpOp::Ne,
        Box::new(IntExpr::StrToInt(Box::new(StrExpr::Const("  42".to_string())))),
        Box::new(IntExpr::Const(0)),
    );
    assert!(is_satisfiable("foo", &not_zero).unwrap(),
        "int(\"  42\") != 0 should be satisfiable (old bug: encoding falsely forced 0)");
}

#[test]
fn strtoint_trailing_chars_not_falsely_zero() {
    // int("42abc") != 0 should be satisfiable
    let not_zero = BoolExpr::IntCmp(
        CmpOp::Ne,
        Box::new(IntExpr::StrToInt(Box::new(StrExpr::Const("42abc".to_string())))),
        Box::new(IntExpr::Const(0)),
    );
    assert!(is_satisfiable("foo", &not_zero).unwrap(),
        "int(\"42abc\") != 0 should be satisfiable (old bug: encoding falsely forced 0)");
}

#[test]
fn strtoint_decimal_not_falsely_zero() {
    // int("3.14") != 0 should be satisfiable
    let not_zero = BoolExpr::IntCmp(
        CmpOp::Ne,
        Box::new(IntExpr::StrToInt(Box::new(StrExpr::Const("3.14".to_string())))),
        Box::new(IntExpr::Const(0)),
    );
    assert!(is_satisfiable("foo", &not_zero).unwrap(),
        "int(\"3.14\") != 0 should be satisfiable (old bug: encoding falsely forced 0)");
}

#[test]
fn strtoint_neg_whitespace_not_falsely_zero() {
    // int(" -42") != 0 should be satisfiable
    let not_zero = BoolExpr::IntCmp(
        CmpOp::Ne,
        Box::new(IntExpr::StrToInt(Box::new(StrExpr::Const(" -42".to_string())))),
        Box::new(IntExpr::Const(0)),
    );
    assert!(is_satisfiable("foo", &not_zero).unwrap(),
        "int(\" -42\") != 0 should be satisfiable (old bug: encoding falsely forced 0)");
}

#[test]
fn replace_empty_pattern_pruned() {
    // replace("abc", "", "x") should be pruned by safety constraints
    // because the pattern is empty.
    let condition = BoolExpr::StrEq(
        Box::new(StrExpr::Replace(
            Box::new(StrExpr::Const("abc".to_string())),
            Box::new(StrExpr::Const("".to_string())),
            Box::new(StrExpr::Const("x".to_string())),
        )),
        Box::new(StrExpr::Const("abc".to_string())),
    );
    assert!(!is_satisfiable("foo", &condition).unwrap(),
        "replace with empty pattern should be pruned by safety constraints");
}

#[test]
fn replace_nonempty_pattern_works() {
    // replace("abc", "b", "x") == "axc" should be satisfiable
    let condition = BoolExpr::StrEq(
        Box::new(StrExpr::Replace(
            Box::new(StrExpr::Const("abc".to_string())),
            Box::new(StrExpr::Const("b".to_string())),
            Box::new(StrExpr::Const("x".to_string())),
        )),
        Box::new(StrExpr::Const("axc".to_string())),
    );
    assert!(is_satisfiable("foo", &condition).unwrap());
}
