use std::collections::BTreeSet;

use perlchecker::ast::{BinaryOp, Expr, FunctionAst, Stmt};
use perlchecker::extractor::ExtractedFunction;
use perlchecker::ir::{build_cfg, lower_to_ssa, BlockStmt, SsaExpr, SsaStmt, Terminator};
use perlchecker::parser::parse_function_ast;

fn visit(stmts: &[SsaStmt], names: &mut BTreeSet<String>) {
    for stmt in stmts {
        match stmt {
            SsaStmt::Assign(name, _) => {
                assert!(names.insert(name.clone()));
            }
            SsaStmt::CallAssign { name, .. } => {
                assert!(names.insert(name.clone()));
            }
            SsaStmt::If {
                then_branch,
                else_branch,
                merges,
                ..
            } => {
                visit(then_branch, names);
                visit(else_branch, names);
                for merge in merges {
                    assert!(names.insert(merge.result_name.clone()));
                }
            }
            SsaStmt::Return(_) => {}
            SsaStmt::LoopBoundExceeded => {}
            SsaStmt::Die => {}
            SsaStmt::Unreachable => {}
            SsaStmt::InvariantInitFailed => {}
            SsaStmt::InvariantPreservationFailed => {}
            SsaStmt::AssertFailed => {}
        }
    }
}

    #[test]
    fn ssa_has_unique_assignment_targets() {
        let function = FunctionAst {
            name: "foo".to_string(),
            params: vec!["x".to_string()],
            body: vec![
                Stmt::Assign {
                    name: "x".to_string(),
                    declaration: false,
                    expr: Expr::Binary {
                        left: Box::new(Expr::Variable("x".to_string())),
                        op: BinaryOp::Add,
                        right: Box::new(Expr::Int(1)),
                    },
                },
                Stmt::Assign {
                    name: "x".to_string(),
                    declaration: false,
                    expr: Expr::Binary {
                        left: Box::new(Expr::Variable("x".to_string())),
                        op: BinaryOp::Mul,
                        right: Box::new(Expr::Int(2)),
                    },
                },
                Stmt::Return(Expr::Variable("x".to_string())),
            ],
        };

        let ssa = lower_to_ssa(&function).unwrap();
        let mut names = BTreeSet::new();

        visit(&ssa.body, &mut names);
    }

    #[test]
    fn ssa_versions_reassigned_variables() {
        let function = FunctionAst {
            name: "foo".to_string(),
            params: vec!["x".to_string()],
            body: vec![
                Stmt::Assign {
                    name: "x".to_string(),
                    declaration: false,
                    expr: Expr::Int(1),
                },
                Stmt::Assign {
                    name: "x".to_string(),
                    declaration: false,
                    expr: Expr::Int(2),
                },
                Stmt::Return(Expr::Variable("x".to_string())),
            ],
        };

        let ssa = lower_to_ssa(&function).unwrap();
        assert_eq!(ssa.params[0].ssa_name, "x__0");
        match &ssa.body[0] {
            SsaStmt::Assign(name, _) => assert_eq!(name, "x__1"),
            _ => panic!("expected assignment"),
        }
        match &ssa.body[1] {
            SsaStmt::Assign(name, _) => assert_eq!(name, "x__2"),
            _ => panic!("expected assignment"),
        }
    }

    #[test]
    fn cfg_contains_branch_and_merge_block() {
        let extracted = ExtractedFunction {
            name: "foo".to_string(),
            annotations: Vec::new(),
            body: r#"
    my ($x) = @_;
    if ($x > 0) {
        my $y = $x + 1;
        return $y;
    } else {
        my $y = $x - 1;
    }
    return $x;
"#
            .to_string(),
            start_line: 1,
        };

        let ast = parse_function_ast(&extracted).unwrap();
        let ssa = lower_to_ssa(&ast).unwrap();
        let cfg = build_cfg(&ssa);

        assert!(
            cfg.blocks
                .iter()
                .any(|block| matches!(block.terminator, Terminator::Branch { .. }))
        );
        assert!(cfg.blocks.iter().any(|block| !block.params.is_empty()));
    }

    #[test]
    fn cfg_preserves_straight_line_assignments() {
        let function = FunctionAst {
            name: "foo".to_string(),
            params: vec!["x".to_string()],
            body: vec![
                Stmt::Declare {
                    name: "y".to_string(),
                },
                Stmt::Assign {
                    name: "y".to_string(),
                    declaration: true,
                    expr: Expr::Variable("x".to_string()),
                },
                Stmt::Return(Expr::Variable("y".to_string())),
            ],
        };

        let ssa = lower_to_ssa(&function).unwrap();
        let cfg = build_cfg(&ssa);

        assert!(matches!(cfg.blocks[0].stmts[0], BlockStmt::Assign(_, _)));
        assert!(matches!(cfg.blocks[0].terminator, Terminator::Return(_)));
    }

    #[test]
    fn bare_declaration_does_not_create_ssa_assignment() {
        let function = FunctionAst {
            name: "foo".to_string(),
            params: vec!["x".to_string()],
            body: vec![
                Stmt::Declare {
                    name: "y".to_string(),
                },
                Stmt::Assign {
                    name: "y".to_string(),
                    declaration: false,
                    expr: Expr::Variable("x".to_string()),
                },
                Stmt::Return(Expr::Variable("y".to_string())),
            ],
        };

        let ssa = lower_to_ssa(&function).unwrap();
        // 4 statements: y__defined=0 (from Declare), y=x (Assign),
        // y__defined=1 (Assign companion), return y
        assert_eq!(ssa.body.len(), 4);
        assert!(matches!(ssa.body[0], SsaStmt::Assign(_, _)));
        // First statement is the definedness companion init (y__defined = 0)
        assert!(matches!(&ssa.body[0], SsaStmt::Assign(name, SsaExpr::Int(0)) if name.starts_with("y__defined")));
        // Second statement is the actual assignment (y = x)
        assert!(matches!(&ssa.body[1], SsaStmt::Assign(name, _) if name.starts_with("y__")));
        // Third statement is the definedness companion update (y__defined = 1)
        assert!(matches!(&ssa.body[2], SsaStmt::Assign(name, SsaExpr::Int(1)) if name.starts_with("y__defined")));
    }

    #[test]
    fn call_in_binary_expression_is_lifted() {
        let function = FunctionAst {
            name: "foo".to_string(),
            params: vec!["x".to_string()],
            body: vec![
                Stmt::Assign {
                    name: "z".to_string(),
                    declaration: true,
                    expr: Expr::Binary {
                        left: Box::new(Expr::Call {
                            function: "inc".to_string(),
                            args: vec![Expr::Variable("x".to_string())],
                        }),
                        op: BinaryOp::Add,
                        right: Box::new(Expr::Int(1)),
                    },
                },
                Stmt::Return(Expr::Variable("z".to_string())),
            ],
        };

        let ssa = lower_to_ssa(&function).unwrap();
        assert!(matches!(ssa.body[0], SsaStmt::CallAssign { ref callee, .. } if callee == "inc"));
        assert!(matches!(ssa.body[1], SsaStmt::Assign(_, SsaExpr::Binary { .. })));
    }

    #[test]
    fn nested_calls_in_arguments_are_lifted_in_order() {
        let function = FunctionAst {
            name: "foo".to_string(),
            params: vec!["x".to_string()],
            body: vec![Stmt::Return(Expr::Call {
                function: "outer".to_string(),
                args: vec![Expr::Call {
                    function: "inner".to_string(),
                    args: vec![Expr::Variable("x".to_string())],
                }],
            })],
        };

        let ssa = lower_to_ssa(&function).unwrap();
        assert!(matches!(ssa.body[0], SsaStmt::CallAssign { ref callee, .. } if callee == "inner"));
        assert!(matches!(ssa.body[1], SsaStmt::CallAssign { ref callee, .. } if callee == "outer"));
    }

    #[test]
    fn call_in_condition_is_lifted_before_if() {
        let function = FunctionAst {
            name: "foo".to_string(),
            params: vec!["x".to_string()],
            body: vec![
                Stmt::If {
                    condition: Expr::Binary {
                        left: Box::new(Expr::Call {
                            function: "check".to_string(),
                            args: vec![Expr::Variable("x".to_string())],
                        }),
                        op: BinaryOp::Gt,
                        right: Box::new(Expr::Int(0)),
                    },
                    then_branch: vec![Stmt::Return(Expr::Int(1))],
                    else_branch: vec![Stmt::Return(Expr::Int(0))],
                },
            ],
        };

        let ssa = lower_to_ssa(&function).unwrap();
        assert!(matches!(ssa.body[0], SsaStmt::CallAssign { ref callee, .. } if callee == "check"));
        assert!(matches!(ssa.body[1], SsaStmt::If { .. }));
    }

    #[test]
    fn multiple_calls_in_expression_are_lifted() {
        let function = FunctionAst {
            name: "foo".to_string(),
            params: vec!["x".to_string(), "y".to_string()],
            body: vec![
                Stmt::Assign {
                    name: "z".to_string(),
                    declaration: true,
                    expr: Expr::Binary {
                        left: Box::new(Expr::Call {
                            function: "f".to_string(),
                            args: vec![Expr::Variable("x".to_string())],
                        }),
                        op: BinaryOp::Add,
                        right: Box::new(Expr::Call {
                            function: "g".to_string(),
                            args: vec![Expr::Variable("y".to_string())],
                        }),
                    },
                },
                Stmt::Return(Expr::Variable("z".to_string())),
            ],
        };

        let ssa = lower_to_ssa(&function).unwrap();
        assert!(matches!(ssa.body[0], SsaStmt::CallAssign { ref callee, .. } if callee == "f"));
        assert!(matches!(ssa.body[1], SsaStmt::CallAssign { ref callee, .. } if callee == "g"));
        assert!(matches!(ssa.body[2], SsaStmt::Assign(_, SsaExpr::Binary { .. })));
    }
