use perlchecker::annotations::parse_function_spec;
use perlchecker::ast::type_check_function;
use perlchecker::extractor::ExtractedFunction;
use perlchecker::ir::{build_cfg, lower_to_ssa};
use perlchecker::limits::Limits;
use perlchecker::parser::parse_function_ast;
use perlchecker::symexec::{
    execute_cfg, prepare_program, verify_cfg, verify_extracted_function, verify_extracted_functions, VerificationResult,
};

    #[test]
    fn counterexample_reports_int_inputs() {
        let function = ExtractedFunction {
            name: "foo".to_string(),
            annotations: vec![
                "# sig: (Int) -> Int".to_string(),
                "# post: $result > $x".to_string(),
            ],
            body: "\n    my ($x) = @_;\n    return $x;\n".to_string(),
            start_line: 1,
        };

        let result = verify_extracted_function(&function).unwrap();
        assert!(matches!(result, VerificationResult::Counterexample(_)));
    }

    #[test]
    fn verifies_string_concat_property() {
        let function = ExtractedFunction {
            name: "foo".to_string(),
            annotations: vec![
                "# sig: (Str, Str) -> Str".to_string(),
                "# post: length($result) == length($x) + length($y)".to_string(),
            ],
            body: "\n    my ($x, $y) = @_;\n    return $x . $y;\n".to_string(),
            start_line: 1,
        };

        let result = verify_extracted_function(&function).unwrap();
        assert!(matches!(result, VerificationResult::Verified { .. }));
    }

    #[test]
    fn verifies_bounded_substring_property() {
        let function = ExtractedFunction {
            name: "foo".to_string(),
            annotations: vec![
                "# sig: (Str) -> Str".to_string(),
                "# post: $result eq substr($x, 0, length($x))".to_string(),
            ],
            body: "\n    my ($x) = @_;\n    return substr($x, 0, length($x));\n".to_string(),
            start_line: 1,
        };

        let result = verify_extracted_function(&function).unwrap();
        assert!(matches!(result, VerificationResult::Verified { .. }));
    }

    #[test]
    fn discards_division_by_zero_paths() {
        let function = ExtractedFunction {
            name: "foo".to_string(),
            annotations: vec![
                "# sig: (Int, Int) -> Int".to_string(),
                "# post: $result == 1".to_string(),
            ],
            body: "\n    my ($x, $y) = @_;\n    if ($y == 0) {\n        return $x / $y;\n    }\n    return 1;\n".to_string(),
            start_line: 1,
        };

        let result = verify_extracted_function(&function).unwrap();
        assert!(matches!(result, VerificationResult::Verified { .. }));
    }

    #[test]
    fn verifies_array_store_then_read() {
        let function = ExtractedFunction {
            name: "foo".to_string(),
            annotations: vec![
                "# sig: (Array<Int>, Int, Int) -> Int".to_string(),
                "# post: $result == $v".to_string(),
            ],
            body: "\n    my ($arr, $i, $v) = @_;\n    $arr[$i] = $v;\n    return $arr[$i];\n".to_string(),
            start_line: 1,
        };

        let result = verify_extracted_function(&function).unwrap();
        assert!(matches!(result, VerificationResult::Verified { .. }));
    }

    #[test]
    fn verifies_hash_store_then_read() {
        let function = ExtractedFunction {
            name: "foo".to_string(),
            annotations: vec![
                "# sig: (Hash<Str, Str>, Str, Str) -> Str".to_string(),
                "# post: $result eq $v".to_string(),
            ],
            body: "\n    my ($h, $k, $v) = @_;\n    $h{$k} = $v;\n    return $h{$k};\n".to_string(),
            start_line: 1,
        };

        let result = verify_extracted_function(&function).unwrap();
        assert!(matches!(result, VerificationResult::Verified { .. }));
    }

    #[test]
    fn verifies_intra_file_function_calls() {
        let functions = vec![
            ExtractedFunction {
                name: "inc".to_string(),
                annotations: vec![
                    "# sig: (Int) -> Int".to_string(),
                    "# post: $result == $x + 1".to_string(),
                ],
                body: "\n    my ($x) = @_;\n    return $x + 1;\n".to_string(),
                start_line: 1,
            },
            ExtractedFunction {
                name: "use_inc".to_string(),
                annotations: vec![
                    "# sig: (Int) -> Int".to_string(),
                    "# post: $result == $x + 1".to_string(),
                ],
                body: "\n    my ($x) = @_;\n    return inc($x);\n".to_string(),
                start_line: 6,
            },
        ];

        let results = verify_extracted_functions(&functions, Limits::default()).unwrap();
        assert_eq!(results.len(), 2);
        assert!(matches!(results[0], VerificationResult::Verified { .. }));
        assert!(matches!(results[1], VerificationResult::Verified { .. }));
    }

    #[test]
    fn rejects_recursive_call_graphs() {
        let functions = vec![ExtractedFunction {
            name: "loop".to_string(),
            annotations: vec![
                "# sig: (Int) -> Int".to_string(),
                "# post: $result >= $x".to_string(),
            ],
            body: "\n    my ($x) = @_;\n    return loop($x);\n".to_string(),
            start_line: 1,
        }];

        let error = verify_extracted_functions(&functions, Limits::default()).unwrap_err();
        assert!(error.message().contains("recursive call graph"));
    }

    #[test]
    fn verifies_bounded_while_loop() {
        let function = ExtractedFunction {
            name: "countdown".to_string(),
            annotations: vec![
                "# sig: (Int) -> Int".to_string(),
                "# pre: $x >= 0 && $x <= 5".to_string(),
                "# post: $result == 0".to_string(),
            ],
            body: "\n    my ($x) = @_;\n    while ($x > 0) {\n        $x = $x - 1;\n    }\n    return $x;\n".to_string(),
            start_line: 1,
        };

        let result = verify_extracted_function(&function).unwrap();
        assert!(matches!(result, VerificationResult::Verified { .. }));
    }

    #[test]
    fn rejects_feasible_loop_bound_exhaustion() {
        let function = ExtractedFunction {
            name: "spin".to_string(),
            annotations: vec![
                "# sig: (Int) -> Int".to_string(),
                "# post: $result == 0".to_string(),
            ],
            body: "\n    my ($x) = @_;\n    while ($x >= 0) {\n        $x = $x + 1;\n    }\n    return 0;\n".to_string(),
            start_line: 1,
        };

        let error = verify_extracted_function(&function).unwrap_err();
        assert!(error.message().contains("loop unroll bound"));
    }

    #[test]
    fn rejects_path_explosion_beyond_limit() {
        let function = ExtractedFunction {
            name: "too_many_paths".to_string(),
            annotations: vec![
                "# sig: (Int, Int, Int, Int, Int, Int, Int, Int, Int, Int, Int) -> Int"
                    .to_string(),
                "# post: $result >= 0".to_string(),
            ],
            body: "\n    my ($a, $b, $c, $d, $e, $f, $g, $h, $i, $j, $k) = @_;\n    my $x = 0;\n    if ($a > 0) { $x = $x + 1; } else { $x = $x + 1; }\n    if ($b > 0) { $x = $x + 1; } else { $x = $x + 1; }\n    if ($c > 0) { $x = $x + 1; } else { $x = $x + 1; }\n    if ($d > 0) { $x = $x + 1; } else { $x = $x + 1; }\n    if ($e > 0) { $x = $x + 1; } else { $x = $x + 1; }\n    if ($f > 0) { $x = $x + 1; } else { $x = $x + 1; }\n    if ($g > 0) { $x = $x + 1; } else { $x = $x + 1; }\n    if ($h > 0) { $x = $x + 1; } else { $x = $x + 1; }\n    if ($i > 0) { $x = $x + 1; } else { $x = $x + 1; }\n    if ($j > 0) { $x = $x + 1; } else { $x = $x + 1; }\n    if ($k > 0) { $x = $x + 1; } else { $x = $x + 1; }\n    return $x;\n".to_string(),
            start_line: 1,
        };

        let error = verify_extracted_function(&function).unwrap_err();
        assert!(error.message().contains("maximum number of symbolic paths"));
    }

    #[test]
    fn execution_splits_branches_deterministically() {
        let function = ExtractedFunction {
            name: "foo".to_string(),
            annotations: vec![
                "# sig: (Int) -> Int".to_string(),
                "# post: $result >= 0".to_string(),
            ],
            body: "\n    my ($x) = @_;\n    if ($x > 0) {\n        return $x;\n    }\n    return 0 - $x;\n".to_string(),
            start_line: 1,
        };

        let spec = parse_function_spec(&function).unwrap();
        let ast = parse_function_ast(&function).unwrap();
        type_check_function(&spec, &ast).unwrap();
        let ssa = lower_to_ssa(&ast).unwrap();
        let cfg = build_cfg(&ssa);
        let program = prepare_program(&vec![function.duplicate()], Limits::default()).unwrap();
        let states = execute_cfg(&program, &spec, &cfg).unwrap();

        assert_eq!(states.len(), 2);
        assert!(matches!(
            verify_cfg(&program, &spec, &cfg).unwrap(),
            VerificationResult::Verified { .. }
        ));
    }

    #[test]
    fn verifies_die_unreachable_guarded_by_precondition() {
        let function = ExtractedFunction {
            name: "guarded_positive".to_string(),
            annotations: vec![
                "# sig: (Int) -> Int".to_string(),
                "# pre: $x >= 1 && $x <= 100".to_string(),
                "# post: $result >= 1".to_string(),
            ],
            body: "\n    my ($x) = @_;\n    if ($x <= 0) {\n        die \"must be positive\";\n    }\n    return $x;\n".to_string(),
            start_line: 1,
        };

        let result = verify_extracted_function(&function).unwrap();
        assert!(matches!(result, VerificationResult::Verified { .. }));
    }

    #[test]
    fn rejects_reachable_die_statement() {
        let function = ExtractedFunction {
            name: "die_is_reachable".to_string(),
            annotations: vec![
                "# sig: (Int) -> Int".to_string(),
                "# pre: $x >= 0 && $x <= 10".to_string(),
                "# post: $result >= 0".to_string(),
            ],
            body: "\n    my ($x) = @_;\n    if ($x == 0) {\n        die \"zero!\";\n    }\n    return $x;\n".to_string(),
            start_line: 1,
        };

        let error = verify_extracted_function(&function).unwrap_err();
        assert!(error.message().contains("die"));
    }
