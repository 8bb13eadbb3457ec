use perlchecker::assoc::NameMap;
use perlchecker::ast::{BinaryOp, Expr, FunctionAst, Stmt, Type, TypeCheckError};
use perlchecker::extractor::{ExtractedFunction, ExtractorError};
use perlchecker::ir::{build_cfg, lower_to_ssa, IrError, Terminator};
use perlchecker::limits::Limits;
use perlchecker::lowering::{lower_do_while, lower_foreach, lower_while};
use perlchecker::parser::{parse_expr, parse_function_ast};
use perlchecker::smt::{build_query, encode_overflow_safety, SmtError};
use perlchecker::symexec::{
    verdict, ModelValue, PathOutcome,
    collect_called_functions, eval_binary, eval_expr, prepare_program, symbolic_value, verify_extracted_function,
    well_defined_result_condition, BoolExpr, CmpOp, IntExpr, StrExpr, SymExecError, SymValue, VerificationResult,
};
use perlchecker::text::push_u64;
use perlchecker::PerlcheckerError;

fn extracted(name: &str, annotations: &[&str], body: &str) -> ExtractedFunction {
    ExtractedFunction {
        name: name.to_string(),
        annotations: annotations.iter().map(|a| a.to_string()).collect(),
        body: body.to_string(),
        start_line: 1,
    }
}

#[test]
fn cfg_edges_lead_forward_to_blocks_of_matching_arity() {
    let function = extracted(
        "foo",
        &[],
        "\n    my ($x, $y) = @_;\n    my $z = 0;\n    if ($x > 0) {\n        $z = 1;\n        if ($y > 0) { $z = 2; } else { $z = 3; }\n    } else {\n        $z = 4;\n    }\n    return $z;\n",
    );
    let ast = parse_function_ast(&function).unwrap();
    let ssa = lower_to_ssa(&ast).unwrap();
    let cfg = build_cfg(&ssa);
    assert_eq!(cfg.entry, 0);
    assert!(cfg.blocks.len() >= 5);
    for (i, block) in cfg.blocks.iter().enumerate() {
        assert_eq!(block.id, i);
        match &block.terminator {
            Terminator::Goto { target, args } => {
                assert!(i < *target && *target < cfg.blocks.len());
                assert_eq!(args.len(), cfg.blocks[*target].params.len());
            }
            Terminator::Branch { then_target, else_target, .. } => {
                assert!(i < *then_target && *then_target < cfg.blocks.len());
                assert!(i < *else_target && *else_target < cfg.blocks.len());
                assert_ne!(then_target, else_target);
            }
            _ => {}
        }
    }
}

#[test]
fn well_typed_annotation_evaluates_to_its_type() {
    let mut env = NameMap::new();
    env.insert("x".to_string(), symbolic_value("x", Type::Int));
    env.insert("s".to_string(), symbolic_value("s", Type::Str));
    let cond = parse_expr("$x + length($s) > 0 && $s eq \"a\"").unwrap();
    assert!(matches!(eval_expr("f", &cond, &env), Ok(SymValue::Bool(_))));
    let text = parse_expr("$s . $x").unwrap();
    assert!(matches!(eval_expr("f", &text, &env), Ok(SymValue::Str(_))));
    let ill = parse_expr("$x && $s").unwrap();
    assert!(matches!(eval_expr("f", &ill, &env), Err(SymExecError::TypeMismatch { .. })));
    let missing = parse_expr("$y + 1").unwrap();
    assert!(matches!(eval_expr("f", &missing, &env), Err(SymExecError::MissingSymbol { .. })));
}

#[test]
fn spaceship_evaluates_to_an_integer() {
    let l = SymValue::Int(IntExpr::Const(1));
    let r = SymValue::Int(IntExpr::Const(2));
    assert!(matches!(eval_binary("f", BinaryOp::Spaceship, l, r), Ok(SymValue::Int(IntExpr::Ite(_, _, _)))));
    let l = SymValue::Int(IntExpr::Const(1));
    let r = SymValue::Int(IntExpr::Const(2));
    assert!(matches!(eval_binary("f", BinaryOp::StrEq, l, r), Err(SymExecError::TypeMismatch { .. })));
}

#[test]
fn defined_result_condition_compares_result_with_itself() {
    let c = well_defined_result_condition(&SymValue::Int(IntExpr::Var("r".to_string())));
    assert!(matches!(c, BoolExpr::IntCmp(CmpOp::Eq, _, _)));
    let c = well_defined_result_condition(&symbolic_value("a", Type::ArrayInt));
    assert_eq!(c, BoolExpr::Const(true));
}

#[test]
fn called_functions_are_listed_once_in_name_order() {
    let function = FunctionAst {
        name: "main".to_string(),
        params: vec!["x".to_string()],
        body: vec![
            Stmt::Assign {
                name: "a".to_string(),
                declaration: true,
                expr: Expr::Call { function: "g".to_string(), args: vec![Expr::Variable("x".to_string())] },
            },
            Stmt::Return(Expr::Binary {
                left: Box::new(Expr::Call { function: "f".to_string(), args: vec![] }),
                op: BinaryOp::Add,
                right: Box::new(Expr::Call { function: "g".to_string(), args: vec![] }),
            }),
        ],
    };
    assert_eq!(collect_called_functions(&function), vec!["f".to_string(), "g".to_string()]);
}

#[test]
fn lookup_after_insert_gives_the_inserted_value() {
    let mut m: NameMap<String> = NameMap::new();
    m.insert("k".to_string(), "one".to_string());
    m.insert("j".to_string(), "two".to_string());
    m.insert("k".to_string(), "three".to_string());
    assert_eq!(m.get(&"k".to_string()), Some(&"three".to_string()));
    assert_eq!(m.get(&"j".to_string()), Some(&"two".to_string()));
    assert_eq!(m.get(&"z".to_string()), None);
    assert_eq!(m.keys(), vec!["k".to_string(), "j".to_string()]);
}

#[test]
fn overflow_safety_of_a_constant_is_true() {
    assert_eq!(encode_overflow_safety(&BoolExpr::Const(true)), "true");
    let sum = BoolExpr::IntCmp(
        CmpOp::Gt,
        Box::new(IntExpr::Add(Box::new(IntExpr::Var("x".to_string())), Box::new(IntExpr::Const(1)))),
        Box::new(IntExpr::Const(0)),
    );
    assert_eq!(
        encode_overflow_safety(&sum),
        "(and (and true true (let ((ow (bvadd ((_ sign_extend 1) |i:x|) ((_ sign_extend 1) (_ bv1 64))))) (and (bvsle ow (_ bv9223372036854775807 65)) (bvsge ow (_ bv27670116110564327424 65))))) true)"
    );
}

#[test]
fn decimal_numerals_are_appended() {
    let mut s = "n=".to_string();
    push_u64(&mut s, 0);
    push_u64(&mut s, 1234);
    assert_eq!(s, "n=01234");
}

#[test]
fn unknown_callee_is_rejected_by_type_checking() {
    let functions = vec![extracted(
        "caller",
        &["# sig: (Int) -> Int", "# post: $result == $x"],
        "\n    my ($x) = @_;\n    return missing($x);\n",
    )];
    match prepare_program(&functions, Limits::default()) {
        Err(PerlcheckerError::TypeCheck(TypeCheckError::UndeclaredVariable { function, variable })) => {
            assert_eq!(function, "caller");
            assert_eq!(variable, "missing");
        }
        _ => panic!("expected an unknown callee"),
    }
}

#[test]
fn mutual_recursion_is_rejected() {
    let functions = vec![
        extracted("a", &["# sig: (Int) -> Int", "# post: $result == $x"], "\n    my ($x) = @_;\n    return b($x);\n"),
        extracted("b", &["# sig: (Int) -> Int", "# post: $result == $x"], "\n    my ($x) = @_;\n    return a($x);\n"),
    ];
    match prepare_program(&functions, Limits::default()) {
        Err(e) => assert_eq!(e.message(), "recursive call graph detected involving `a`"),
        Ok(_) => panic!("expected recursion to be detected"),
    }
}

#[test]
fn prepared_program_keeps_file_order() {
    let functions = vec![
        extracted("zeta", &["# sig: (Int) -> Int", "# post: $result == $x"], "\n    my ($x) = @_;\n    return $x;\n"),
        extracted("alpha", &["# sig: (Int) -> Int", "# post: $result == $x"], "\n    my ($x) = @_;\n    return zeta($x);\n"),
    ];
    let program = prepare_program(&functions, Limits::default()).unwrap();
    assert_eq!(program.order, vec!["zeta".to_string(), "alpha".to_string()]);
    assert!(program.cfgs.get(&"alpha".to_string()).is_some());
}

#[test]
fn counterexample_names_the_function_and_its_inputs() {
    let function = extracted(
        "inc",
        &["# sig: (Int) -> Int", "# post: $result > $x + 1"],
        "\n    my ($x) = @_;\n    return $x + 1;\n",
    );
    match verify_extracted_function(&function).unwrap() {
        VerificationResult::Counterexample(c) => {
            assert_eq!(c.function, "inc");
            assert!(c.assignments.get(&"x".to_string()).is_some());
        }
        VerificationResult::Verified { .. } => panic!("expected a counterexample"),
    }
}

#[test]
fn error_messages_read_as_reports() {
    let e = SymExecError::PathLimitExceeded { function: "f".to_string(), max_paths: 7 };
    assert_eq!(e.message(), "function `f` exceeded the maximum number of symbolic paths (7)");
    let e = SymExecError::MissingBlock { function: "f".to_string(), block_id: 12 };
    assert_eq!(e.message(), "CFG references missing block 12 in function `f`");
    let e = ExtractorError::MissingSub { line: 3 };
    assert_eq!(e.message(), "annotation block at line 3 must be followed immediately by `sub NAME {`");
    let e = TypeCheckError::UndeclaredVariable { function: "f".to_string(), variable: "y".to_string() };
    assert_eq!(e.message(), "function `f` references undeclared variable `$y`");
    let e = IrError::UnknownVariable { function: "f".to_string(), variable: "v".to_string() };
    assert_eq!(e.message(), "function `f` references unsupported variable `v` during SSA lowering");
    let e = PerlcheckerError::Smt(SmtError::Unknown { function: "f".to_string(), reason: "timeout".to_string() });
    assert_eq!(e.message(), "solver returned unknown for function `f`: timeout");
    assert_eq!(PerlcheckerError::VerificationFailed.message(), "verification failed");
}

#[test]
fn reachable_last_outside_a_loop_is_an_ir_error() {
    let function = FunctionAst { name: "f".to_string(), params: vec![], body: vec![Stmt::Last] };
    assert!(matches!(lower_to_ssa(&function), Err(IrError::UnknownVariable { .. })));
}

fn exits_remain(stmts: &[Stmt]) -> bool {
    stmts.iter().any(|s| match s {
        Stmt::Last | Stmt::Next => true,
        Stmt::If { then_branch, else_branch, .. } => exits_remain(then_branch) || exits_remain(else_branch),
        _ => false,
    })
}

#[test]
fn loop_lowering_leaves_no_last_or_next() {
    let condition = Expr::Binary {
        left: Box::new(Expr::Variable("i".to_string())),
        op: BinaryOp::Lt,
        right: Box::new(Expr::Int(10)),
    };
    let body = vec![
        Stmt::If {
            condition: Expr::Binary {
                left: Box::new(Expr::Variable("i".to_string())),
                op: BinaryOp::Eq,
                right: Box::new(Expr::Int(3)),
            },
            then_branch: vec![Stmt::Last],
            else_branch: vec![Stmt::Next],
        },
        Stmt::Assign {
            name: "i".to_string(),
            expr: Expr::Binary {
                left: Box::new(Expr::Variable("i".to_string())),
                op: BinaryOp::Add,
                right: Box::new(Expr::Int(1)),
            },
            declaration: false,
        },
    ];
    assert!(exits_remain(&body));
    let lowered = lower_while(&condition, &body, 4);
    assert!(!lowered.is_empty());
    assert!(!exits_remain(&lowered));
    assert!(!exits_remain(&lower_do_while(&condition, &body, 4)));
    assert!(!exits_remain(&lower_foreach(&"x".to_string(), &"a".to_string(), &body, 4)));
}

#[test]
fn query_script_for_an_integer_comparison() {
    let c = BoolExpr::IntCmp(CmpOp::Lt, Box::new(IntExpr::Var("x".to_string())), Box::new(IntExpr::Const(5)));
    assert_eq!(
        build_query(&c),
        "(declare-const |i:x| (_ BitVec 64))\n(assert (and true true))\n(assert (bvslt |i:x| (_ bv5 64)))\n"
    );
}

#[test]
fn query_script_bounds_string_variables_and_pins_lengths() {
    let s = || Box::new(StrExpr::Var("s".to_string()));
    let c = BoolExpr::And(
        Box::new(BoolExpr::IntCmp(CmpOp::Le, Box::new(IntExpr::Length(s())), Box::new(IntExpr::Const(40)))),
        Box::new(BoolExpr::StrEq(s(), Box::new(StrExpr::Const("ab".to_string())))),
    );
    let expected = [
        "(declare-const |s:s| String)\n",
        "(declare-const |f:i2bv_0| (_ BitVec 64))\n",
        "(assert (<= (str.len |s:s|) 40))\n",
        "(assert (and (and true true) (and true true)))\n",
        "(assert (and (bvsle |f:i2bv_0| (_ bv40 64)) (= |s:s| \"ab\")))\n",
        "(assert (= (let ((sv |f:i2bv_0|)) (ite (bvslt sv (_ bv0 64)) (- (bv2nat sv) 18446744073709551616) (bv2nat sv))) (str.len |s:s|)))\n",
        "(assert (bvsge |f:i2bv_0| (_ bv0 64)))\n",
    ]
    .concat();
    assert_eq!(build_query(&c), expected);
    let short = BoolExpr::StrEq(s(), Box::new(StrExpr::Const("ab".to_string())));
    assert_eq!(
        build_query(&short),
        "(declare-const |s:s| String)\n(assert (<= (str.len |s:s|) 32))\n(assert (and true true))\n(assert (= |s:s| \"ab\"))\n"
    );
}

fn one_assignment(name: &str, value: i64) -> NameMap<ModelValue> {
    let mut m = NameMap::new();
    m.insert(name.to_string(), ModelValue::Int(value));
    m
}

#[test]
fn verdict_reports_the_first_failing_path() {
    let f = "f".to_string();
    let outcomes = vec![
        PathOutcome::Undefined,
        PathOutcome::Holds,
        PathOutcome::Fails(one_assignment("x", 1)),
        PathOutcome::Fails(one_assignment("x", 2)),
    ];
    match verdict(&f, outcomes) {
        Ok(VerificationResult::Counterexample(c)) => {
            assert_eq!(c.function, "f");
            assert!(matches!(c.assignments.get(&"x".to_string()), Some(ModelValue::Int(1))));
        },
        other => panic!("unexpected verdict {:?}", other),
    }
}

#[test]
fn verdict_without_failures() {
    let f = "f".to_string();
    assert!(matches!(verdict(&f, vec![]), Ok(VerificationResult::Verified { .. })));
    assert!(matches!(verdict(&f, vec![PathOutcome::Undefined, PathOutcome::Holds]), Ok(VerificationResult::Verified { .. })));
    assert!(matches!(
        verdict(&f, vec![PathOutcome::Undefined, PathOutcome::Undefined]),
        Err(SymExecError::NoValidPaths { .. })
    ));
}

#[test]
fn extractor_reports_text_after_the_opening_brace() {
    let source = "# sig: (Int) -> Int\n# post: $result >= 0\nsub foo { return 1;\n}\n";
    let error = perlchecker::extractor::extract_annotated_functions(source).unwrap_err();
    assert_eq!(
        error,
        perlchecker::extractor::ExtractorError::InvalidSubHeader {
            line: 3,
            header: "sub foo { return 1;".to_string(),
        }
    );
}

#[test]
fn extractor_strips_carriage_returns_and_resumes_after_the_body() {
    let source = "# sig: (Int) -> Int\r\n# post: $result >= 0\r\nsub foo {\r\n  return 1;\r\n}\r\n# sig: (Int) -> Int\r\nsub bar {\r\n}\r\n";
    let functions = perlchecker::extractor::extract_annotated_functions(source).unwrap();
    assert_eq!(functions.len(), 2);
    assert_eq!(functions[0].annotations, vec!["# sig: (Int) -> Int".to_string(), "# post: $result >= 0".to_string()]);
    assert_eq!(functions[0].body, "\r\n  return 1;\r\n".to_string());
    assert_eq!(functions[0].start_line, 3);
    assert_eq!(functions[1].name, "bar".to_string());
    assert_eq!(functions[1].start_line, 7);
}

#[test]
fn branches_that_disagree_on_a_type_are_rejected() {
    let function = perlchecker::extractor::ExtractedFunction {
        name: "foo".to_string(),
        annotations: vec!["# sig: (Int) -> Int".to_string(), "# post: $result >= 0".to_string()],
        body: "\n    my ($x) = @_;\n    my $y;\n    if ($x > 0) {\n        $y = 1;\n    } else {\n        $y = \"a\";\n    }\n    return 0;\n"
            .to_string(),
        start_line: 1,
    };
    let spec = perlchecker::annotations::parse_function_spec(&function).unwrap();
    let ast = perlchecker::parser::parse_function_ast(&function).unwrap();
    assert!(perlchecker::ast::type_check_function(&spec, &ast).is_err());
}

#[test]
fn a_fact_from_the_condition_makes_substr_safe_in_the_branch() {
    let function = perlchecker::extractor::ExtractedFunction {
        name: "foo".to_string(),
        annotations: vec!["# sig: (Str, Int) -> Str".to_string(), "# post: 1 == 1".to_string()],
        body: "\n    my ($s, $i) = @_;\n    if ($i >= 0 && $i <= length($s)) {\n        return substr($s, $i, 0);\n    }\n    return \"\";\n"
            .to_string(),
        start_line: 1,
    };
    let spec = perlchecker::annotations::parse_function_spec(&function).unwrap();
    let ast = perlchecker::parser::parse_function_ast(&function).unwrap();
    assert!(perlchecker::ast::type_check_function(&spec, &ast).is_ok());
}

#[test]
fn a_missing_precondition_defaults_to_true() {
    let function = perlchecker::extractor::ExtractedFunction {
        name: "foo".to_string(),
        annotations: vec!["  # sig: (I64) -> I64".to_string(), "# post: $result == $x".to_string()],
        body: "\n    my ($x) = @_;\n    return $x;\n".to_string(),
        start_line: 1,
    };
    let spec = perlchecker::annotations::parse_function_spec(&function).unwrap();
    assert!(matches!(spec.pre, perlchecker::ast::Expr::Bool(true)));
}

#[test]
fn a_second_postcondition_is_rejected() {
    let function = perlchecker::extractor::ExtractedFunction {
        name: "foo".to_string(),
        annotations: vec![
            "# sig: (I64) -> I64".to_string(),
            "# post: $result == $x".to_string(),
            "# pos: $result >= $x".to_string(),
        ],
        body: "\n    my ($x) = @_;\n    return $x;\n".to_string(),
        start_line: 1,
    };
    assert!(perlchecker::annotations::parse_function_spec(&function).is_err());
}

#[test]
fn parameters_come_from_the_first_non_blank_line() {
    let function = perlchecker::extractor::ExtractedFunction {
        name: "foo".to_string(),
        annotations: vec!["# sig: (Int, Int) -> Int".to_string(), "# post: $result == $x + $y".to_string()],
        body: "\n   \n    my ( $x ,$y ) = @_;\n    return $x + $y;\n".to_string(),
        start_line: 1,
    };
    let spec = perlchecker::annotations::parse_function_spec(&function).unwrap();
    assert_eq!(spec.arg_types.len(), 2);
}

#[test]
fn a_body_that_does_not_start_with_a_binding_is_rejected() {
    let function = perlchecker::extractor::ExtractedFunction {
        name: "foo".to_string(),
        annotations: vec!["# sig: (Int) -> Int".to_string(), "# post: $result == 1".to_string()],
        body: "\n    return 1;\n    my ($x) = @_;\n".to_string(),
        start_line: 1,
    };
    let error = perlchecker::annotations::parse_function_spec(&function).unwrap_err();
    assert_eq!(
        error,
        perlchecker::annotations::AnnotationError::InvalidParameterBinding { function: "foo".to_string() }
    );
}

#[test]
fn a_loop_without_iterations_only_reaches_its_bound() {
    let condition = Expr::Bool(true);
    let body: Vec<Stmt> = vec![Stmt::Return(Expr::Int(1))];
    let lowered = lower_while(&condition, &body, 0);
    assert_eq!(lowered.len(), 1);
    match &lowered[0] {
        Stmt::If { condition, then_branch, else_branch } => {
            assert!(matches!(condition, Expr::Bool(true)));
            assert_eq!(then_branch.len(), 1);
            assert!(matches!(then_branch[0], Stmt::LoopBoundExceeded));
            assert!(else_branch.is_empty());
        },
        _ => panic!("expected an if"),
    }
}

#[test]
fn a_loop_with_last_declares_its_flag_first() {
    let condition = Expr::Bool(true);
    let body: Vec<Stmt> = vec![Stmt::Last];
    let lowered = lower_while(&condition, &body, 1);
    assert_eq!(lowered.len(), 2);
    match &lowered[0] {
        Stmt::Assign { name, expr, declaration } => {
            assert_eq!(name, "__broke");
            assert!(matches!(expr, Expr::Int(0)));
            assert!(*declaration);
        },
        _ => panic!("expected the flag declaration"),
    }
}

#[test]
fn signatures_accept_i64_collections() {
    let function = ExtractedFunction {
        name: "foo".to_string(),
        annotations: vec!["# sig: (Array<I64>, Hash<Str, I64>) -> I64".to_string(), "# post: $result == 0".to_string()],
        body: "\n    my ($a, $h) = @_;\n    return 0;\n".to_string(),
        start_line: 1,
    };
    let spec = perlchecker::annotations::parse_function_spec(&function).unwrap();
    assert_eq!(spec.arg_types, vec![Type::ArrayInt, Type::HashInt]);
    assert_eq!(spec.ret_type, Type::Int);
}

#[test]
fn default_solver_timeout_is_five_seconds() {
    let limits = Limits::default();
    assert_eq!(limits.solver_timeout_ms, 5000);
    assert_eq!(limits.max_loop_unroll, 9);
    assert_eq!(limits.max_paths, 1024);
}

#[test]
fn unsupported_escape_names_the_escape() {
    let err = parse_expr(r#""a\qb""#).unwrap_err();
    assert!(err.ends_with(r"unsupported escape sequence: \q"), "{err}");
}

#[test]
fn unterminated_string_reports_the_literal() {
    let err = parse_expr(r#""ab"#).unwrap_err();
    assert!(err.ends_with(r#"invalid string literal: "ab"#), "{err}");
}

#[test]
fn string_escapes_keep_their_meaning() {
    assert_eq!(parse_expr(r#""a\tb""#).unwrap(), Expr::String("a\tb".to_string()));
    assert_eq!(parse_expr(r"'a\nb'").unwrap(), Expr::String(r"a\nb".to_string()));
    assert_eq!(parse_expr(r"'it\'s'").unwrap(), Expr::String("it's".to_string()));
}

#[test]
fn model_variable_with_nul_in_its_name_is_an_invalid_query() {
    let variables = vec![perlchecker::smt::ModelVar { name: "a\0b".to_string(), ty: Type::Int }];
    let r = perlchecker::smt::find_model("foo", &BoolExpr::Const(true), &variables);
    match r {
        Err(SmtError::Unknown { function, reason }) => {
            assert_eq!(function, "foo");
            assert_eq!(reason, "invalid query");
        },
        other => panic!("unexpected {other:?}"),
    }
}

#[test]
fn addition_evaluates_to_a_sum_of_the_operands() {
    let left = SymValue::Int(IntExpr::Var("x".to_string()));
    let right = SymValue::Int(IntExpr::Const(2));
    let v = eval_binary("f", BinaryOp::Add, left, right).unwrap();
    assert_eq!(
        v,
        SymValue::Int(IntExpr::Add(Box::new(IntExpr::Var("x".to_string())), Box::new(IntExpr::Const(2))))
    );
}
