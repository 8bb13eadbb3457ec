use perlchecker::annotations::parse_function_spec;
use perlchecker::ast::{type_check_function, TypeCheckError};
use perlchecker::extractor::ExtractedFunction;
use perlchecker::parser::parse_function_ast;

#[test]
fn detects_undeclared_variables() {
    let function = ExtractedFunction {
        name: "foo".to_string(),
        annotations: vec![
            "# sig: (Int) -> Int".to_string(),
            "# post: $result > $x".to_string(),
        ],
        body: "\n    my ($x) = @_;\n    return $y;\n".to_string(),
        start_line: 1,
    };

    let spec = parse_function_spec(&function).unwrap();
    let ast = parse_function_ast(&function).unwrap();
    let error = type_check_function(&spec, &ast).unwrap_err();

    assert_eq!(
        error,
        TypeCheckError::UndeclaredVariable {
            function: "foo".to_string(),
            variable: "y".to_string(),
        }
    );
}

#[test]
fn detects_uninitialized_variables() {
    let function = ExtractedFunction {
        name: "foo".to_string(),
        annotations: vec![
            "# sig: (Int) -> Int".to_string(),
            "# post: $result >= $x".to_string(),
        ],
        body: "\n    my ($x) = @_;\n    my $y;\n    return $y;\n".to_string(),
        start_line: 1,
    };

    let spec = parse_function_spec(&function).unwrap();
    let ast = parse_function_ast(&function).unwrap();
    let error = type_check_function(&spec, &ast).unwrap_err();

    assert_eq!(
        error,
        TypeCheckError::UninitializedVariable {
            function: "foo".to_string(),
            variable: "y".to_string(),
        }
    );
}

#[test]
fn allows_declared_then_assigned_strings() {
    let function = ExtractedFunction {
        name: "foo".to_string(),
        annotations: vec![
            "# sig: (Str) -> Str".to_string(),
            "# post: $result eq $x".to_string(),
        ],
        body: "\n    my ($x) = @_;\n    my $y;\n    $y = $x;\n    return $y;\n".to_string(),
        start_line: 1,
    };

    let spec = parse_function_spec(&function).unwrap();
    let ast = parse_function_ast(&function).unwrap();

    type_check_function(&spec, &ast).unwrap();
}

#[test]
fn rejects_string_and_int_mixing() {
    let function = ExtractedFunction {
        name: "foo".to_string(),
        annotations: vec![
            "# sig: (Str) -> Int".to_string(),
            "# post: $result >= 0".to_string(),
        ],
        body: "\n    my ($x) = @_;\n    return $x + 1;\n".to_string(),
        start_line: 1,
    };

    let spec = parse_function_spec(&function).unwrap();
    let ast = parse_function_ast(&function).unwrap();
    let error = type_check_function(&spec, &ast).unwrap_err();

    assert_eq!(
        error,
        TypeCheckError::TypeMismatch {
            function: "foo".to_string(),
            context: "arithmetic operand",
            expected: "Int",
            found: "Str",
        }
    );
}

#[test]
fn accepts_division_without_static_nonzero_proof() {
    let function = ExtractedFunction {
        name: "foo".to_string(),
        annotations: vec![
            "# sig: (Int, Int) -> Int".to_string(),
            "# post: $result == $x".to_string(),
        ],
        body: "\n    my ($x, $y) = @_;\n    return $x / $y;\n".to_string(),
        start_line: 1,
    };

    let spec = parse_function_spec(&function).unwrap();
    let ast = parse_function_ast(&function).unwrap();
    type_check_function(&spec, &ast).unwrap();
}

#[test]
fn accepts_modulo_without_static_nonzero_proof() {
    let function = ExtractedFunction {
        name: "foo".to_string(),
        annotations: vec![
            "# sig: (Int, Int) -> Int".to_string(),
            "# post: $result == $x % $y".to_string(),
        ],
        body: "\n    my ($x, $y) = @_;\n    return $x % $y;\n".to_string(),
        start_line: 1,
    };

    let spec = parse_function_spec(&function).unwrap();
    let ast = parse_function_ast(&function).unwrap();
    type_check_function(&spec, &ast).unwrap();
}

#[test]
fn accepts_safe_substring() {
    let function = ExtractedFunction {
        name: "foo".to_string(),
        annotations: vec![
            "# sig: (Str) -> Str".to_string(),
            "# post: $result eq substr($x, 0, length($x))".to_string(),
        ],
        body: "\n    my ($x) = @_;\n    return substr($x, 0, length($x));\n".to_string(),
        start_line: 1,
    };

    let spec = parse_function_spec(&function).unwrap();
    let ast = parse_function_ast(&function).unwrap();

    type_check_function(&spec, &ast).unwrap();
}

#[test]
fn rejects_negative_substring_start() {
    let function = ExtractedFunction {
        name: "foo".to_string(),
        annotations: vec![
            "# sig: (Str) -> Str".to_string(),
            "# post: $result eq $x".to_string(),
        ],
        body: "\n    my ($x) = @_;\n    return substr($x, -1, 1);\n".to_string(),
        start_line: 1,
    };

    let spec = parse_function_spec(&function).unwrap();
    let ast = parse_function_ast(&function).unwrap();
    let error = type_check_function(&spec, &ast).unwrap_err();

    assert_eq!(
        error,
        TypeCheckError::NegativeSubstringArgument {
            function: "foo".to_string(),
            argument: "start",
        }
    );
}

#[test]
fn accepts_array_read_and_write_types() {
    let function = ExtractedFunction {
        name: "foo".to_string(),
        annotations: vec![
            "# sig: (Array<Int>, Int, Int) -> Int".to_string(),
            "# post: $result == $v".to_string(),
        ],
        body: "\n    my ($arr, $i, $v) = @_;\n    $arr[$i] = $v;\n    return $arr[$i];\n".to_string(),
        start_line: 1,
    };

    let spec = parse_function_spec(&function).unwrap();
    let ast = parse_function_ast(&function).unwrap();
    type_check_function(&spec, &ast).unwrap();
}

#[test]
fn rejects_hash_access_with_non_string_key() {
    let function = ExtractedFunction {
        name: "foo".to_string(),
        annotations: vec![
            "# sig: (Hash<Str, Int>, Int) -> Int".to_string(),
            "# post: $result >= 0".to_string(),
        ],
        body: "\n    my ($h, $k) = @_;\n    return $h{$k};\n".to_string(),
        start_line: 1,
    };

    let spec = parse_function_spec(&function).unwrap();
    let ast = parse_function_ast(&function).unwrap();
    let error = type_check_function(&spec, &ast).unwrap_err();

    assert_eq!(
        error,
        TypeCheckError::TypeMismatch {
            function: "foo".to_string(),
            context: "hash key",
            expected: "Str",
            found: "Int",
        }
    );
}
