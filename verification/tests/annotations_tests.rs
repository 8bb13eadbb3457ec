use perlchecker::annotations::{parse_extern_line, parse_function_spec, AnnotationError};
use perlchecker::ast::{BinaryOp, Builtin, Expr, Type};
use perlchecker::extractor::ExtractedFunction;

#[test]
fn parses_extern_with_postcondition_only() {
    let ext = parse_extern_line("# extern: abs_val (Int) -> Int post: $result >= 0").unwrap();
    assert_eq!(ext.name, "abs_val");
    assert_eq!(ext.param_types, vec![Type::Int]);
    assert_eq!(ext.return_type, Type::Int);
    assert_eq!(ext.precondition, Expr::Bool(true));
    assert_eq!(
        ext.postcondition,
        Expr::Binary {
            left: Box::new(Expr::Variable("result".to_string())),
            op: BinaryOp::Ge,
            right: Box::new(Expr::Int(0)),
        }
    );
}

#[test]
fn parses_extern_with_pre_and_post() {
    let ext = parse_extern_line(
        "# extern: clamp (Int, Int, Int) -> Int pre: $b <= $c post: $result >= $b && $result <= $c",
    )
    .unwrap();
    assert_eq!(ext.name, "clamp");
    assert_eq!(ext.param_types, vec![Type::Int, Type::Int, Type::Int]);
    assert_eq!(ext.return_type, Type::Int);
    // precondition: $b <= $c
    assert!(ext.precondition != Expr::Bool(true));
    // postcondition: $result >= $b && $result <= $c
    assert!(ext.postcondition != Expr::Bool(true));
}

#[test]
fn parses_extern_with_no_conditions() {
    let ext = parse_extern_line("# extern: noop (Int) -> Int").unwrap();
    assert_eq!(ext.name, "noop");
    assert_eq!(ext.param_types, vec![Type::Int]);
    assert_eq!(ext.return_type, Type::Int);
    assert_eq!(ext.precondition, Expr::Bool(true));
    assert_eq!(ext.postcondition, Expr::Bool(true));
}

#[test]
fn rejects_extern_with_missing_arrow() {
    let err = parse_extern_line("# extern: bad (Int) Int").unwrap_err();
    assert!(matches!(err, AnnotationError::InvalidExternDeclaration { .. }));
}

#[test]
fn parses_valid_function_spec() {
    let function = ExtractedFunction {
        name: "foo".to_string(),
        annotations: vec![
            "# sig: (Int, Int) -> Int".to_string(),
            "# pre: $x > 0 && $y > 0".to_string(),
            "# pos: $result > $x + $y * 2".to_string(),
        ],
        body: "\n    my ($x, $y) = @_;\n    return $x + $y;\n".to_string(),
        start_line: 4,
    };

    let spec = parse_function_spec(&function).unwrap();

    assert_eq!(spec.name, "foo");
    assert_eq!(spec.arg_types, vec![Type::Int, Type::Int]);
    assert_eq!(spec.ret_type, Type::Int);
    assert_eq!(
        spec.post,
        Expr::Binary {
            left: Box::new(Expr::Variable("result".to_string())),
            op: BinaryOp::Gt,
            right: Box::new(Expr::Binary {
                left: Box::new(Expr::Variable("x".to_string())),
                op: BinaryOp::Add,
                right: Box::new(Expr::Binary {
                    left: Box::new(Expr::Variable("y".to_string())),
                    op: BinaryOp::Mul,
                    right: Box::new(Expr::Int(2)),
                }),
            }),
        }
    );
}

#[test]
fn parses_string_signature_and_postcondition() {
    let function = ExtractedFunction {
        name: "foo".to_string(),
        annotations: vec![
            "# sig: (Str) -> Str".to_string(),
            "# post: length($result) == length($x)".to_string(),
        ],
        body: "\n    my ($x) = @_;\n    return $x;\n".to_string(),
        start_line: 1,
    };

    let spec = parse_function_spec(&function).unwrap();

    assert_eq!(spec.arg_types, vec![Type::Str]);
    assert_eq!(spec.ret_type, Type::Str);
    assert_eq!(
        spec.post,
        Expr::Binary {
            left: Box::new(Expr::Builtin {
                function: Builtin::Length,
                args: vec![Expr::Variable("result".to_string())],
            }),
            op: BinaryOp::Eq,
            right: Box::new(Expr::Builtin {
                function: Builtin::Length,
                args: vec![Expr::Variable("x".to_string())],
            }),
        }
    );
}

#[test]
fn rejects_invalid_signature_format() {
    let function = ExtractedFunction {
        name: "foo".to_string(),
        annotations: vec![
            "# sig: Int, Int -> Int".to_string(),
            "# post: $result > 0".to_string(),
        ],
        body: "\n    my ($x, $y) = @_;\n    return $x + $y;\n".to_string(),
        start_line: 1,
    };

    let error = parse_function_spec(&function).unwrap_err();

    assert_eq!(
        error,
        AnnotationError::InvalidSignature {
            function: "foo".to_string(),
            signature: "Int, Int -> Int".to_string(),
        }
    );
}

#[test]
fn rejects_missing_variables() {
    let function = ExtractedFunction {
        name: "foo".to_string(),
        annotations: vec![
            "# sig: (Int) -> Int".to_string(),
            "# pre: $z > 0".to_string(),
            "# post: $result > $x".to_string(),
        ],
        body: "\n    my ($x) = @_;\n    return $x;\n".to_string(),
        start_line: 1,
    };

    let error = parse_function_spec(&function).unwrap_err();

    assert_eq!(
        error,
        AnnotationError::MissingVariable {
            function: "foo".to_string(),
            variable: "z".to_string(),
        }
    );
}

#[test]
fn defaults_missing_precondition_to_true() {
    let function = ExtractedFunction {
        name: "foo".to_string(),
        annotations: vec![
            "# sig: (Int) -> Int".to_string(),
            "# post: $result >= $x".to_string(),
        ],
        body: "\n    my ($x) = @_;\n    return $x;\n".to_string(),
        start_line: 1,
    };

    let spec = parse_function_spec(&function).unwrap();

    assert_eq!(spec.pre, Expr::Bool(true));
}
