use perlchecker::ast::{AccessKind, BinaryOp, Builtin, Expr, FunctionAst, Stmt};
use perlchecker::extractor::ExtractedFunction;
use perlchecker::parser::{parse_expr, parse_function_ast};

    #[test]
    fn parses_valid_program_into_function_ast() {
        let function = ExtractedFunction {
            name: "foo".to_string(),
            annotations: Vec::new(),
            body: r#"
    my ($x, $y) = @_;
    my $z = $x + $y;
    if ($z > 0) {
        return $z;
    } else {
        return $x;
    }
"#
            .to_string(),
            start_line: 1,
        };

        let ast = parse_function_ast(&function).unwrap();

        assert_eq!(
            ast,
            FunctionAst {
                name: "foo".to_string(),
                params: vec!["x".to_string(), "y".to_string()],
                body: vec![
                    Stmt::Assign {
                        name: "z".to_string(),
                        declaration: true,
                        expr: Expr::Binary {
                            left: Box::new(Expr::Variable("x".to_string())),
                            op: BinaryOp::Add,
                            right: Box::new(Expr::Variable("y".to_string())),
                        },
                    },
                    Stmt::If {
                        condition: Expr::Binary {
                            left: Box::new(Expr::Variable("z".to_string())),
                            op: BinaryOp::Gt,
                            right: Box::new(Expr::Int(0)),
                        },
                        then_branch: vec![Stmt::Return(Expr::Variable("z".to_string()))],
                        else_branch: vec![Stmt::Return(Expr::Variable("x".to_string()))],
                    },
                ],
            }
        );
    }

    #[test]
    fn parses_elsif_chain_as_nested_if() {
        let function = ExtractedFunction {
            name: "foo".to_string(),
            annotations: Vec::new(),
            body: r#"
    my ($x) = @_;
    if ($x < 0) {
        return 0;
    } elsif ($x == 0) {
        return 1;
    } else {
        return 2;
    }
"#
            .to_string(),
            start_line: 1,
        };

        let ast = parse_function_ast(&function).unwrap();

        assert!(matches!(
            &ast.body[0],
            Stmt::If {
                else_branch,
                ..
            } if matches!(&else_branch[0], Stmt::If { .. })
        ));
    }

    #[test]
    fn parses_string_builtins_and_concat() {
        let expr = parse_expr(r#"substr($x . "!", 0, length($y)) eq $y"#).unwrap();
        assert!(matches!(
            expr,
            Expr::Binary {
                op: BinaryOp::StrEq,
                ..
            }
        ));
    }

    #[test]
    fn parses_string_literal_and_builtin_calls() {
        let expr = parse_expr(r#"index("hello", "he")"#).unwrap();
        assert_eq!(
            expr,
            Expr::Builtin {
                function: Builtin::Index,
                args: vec![
                    Expr::String("hello".to_string()),
                    Expr::String("he".to_string())
                ],
            }
        );
    }

    #[test]
    fn parses_modulo_with_multiplicative_precedence() {
        let expr = parse_expr("$x + $y % 2").unwrap();
        assert!(matches!(
            expr,
            Expr::Binary {
                op: BinaryOp::Add,
                right,
                ..
            } if matches!(
                right.as_ref(),
                Expr::Binary {
                    op: BinaryOp::Mod,
                    ..
                }
            )
        ));
    }

    #[test]
    fn parses_array_and_hash_access_forms() {
        let array_expr = parse_expr("$arr[i]").unwrap();
        assert!(matches!(
            array_expr,
            Expr::Access {
                kind: AccessKind::Array,
                collection,
                ..
            } if collection == "arr"
        ));

        let hash_expr = parse_expr(r#"$h{$k}"#).unwrap();
        assert!(matches!(
            hash_expr,
            Expr::Access {
                kind: AccessKind::Hash,
                collection,
                ..
            } if collection == "h"
        ));
    }

    #[test]
    fn parses_function_calls() {
        let expr = parse_expr("foo($x, 1)").unwrap();
        assert!(matches!(
            expr,
            Expr::Call { function, args } if function == "foo" && args.len() == 2
        ));
    }

    #[test]
    fn lowers_while_and_for_into_conditionals() {
        let function = ExtractedFunction {
            name: "foo".to_string(),
            annotations: Vec::new(),
            body: r#"
    my ($x) = @_;
    my $i;
    while ($x > 0) {
        $x = $x - 1;
    }
    for ($i = 0; $i < 2; $i = $i + 1) {
        $x = $x + 1;
    }
    return $x;
"#
            .to_string(),
            start_line: 1,
        };

        let ast = parse_function_ast(&function).unwrap();
        assert!(matches!(ast.body[1], Stmt::If { .. }));
        assert!(matches!(ast.body[3], Stmt::If { .. }));
    }

    #[test]
    fn rejects_else_if_alias() {
        let function = ExtractedFunction {
            name: "foo".to_string(),
            annotations: Vec::new(),
            body: r#"
    my ($x) = @_;
    if ($x < 0) {
        return 0;
    } else if ($x == 0) {
        return 1;
    }
"#
            .to_string(),
            start_line: 1,
        };

        assert!(parse_function_ast(&function).is_err());
    }

    #[test]
    fn parses_scalar_call() {
        let function = ExtractedFunction {
            name: "test_scalar".to_string(),
            annotations: Vec::new(),
            body: r#"
    my ($arr) = @_;
    my $len = scalar(@arr);
    return $len;
"#
            .to_string(),
            start_line: 1,
        };

        let ast = parse_function_ast(&function).unwrap();
        assert_eq!(ast.name, "test_scalar");
        assert_eq!(ast.params, vec!["arr"]);
        // Check that we have some statements (assignment and return)
        assert!(ast.body.len() >= 2);
    }
