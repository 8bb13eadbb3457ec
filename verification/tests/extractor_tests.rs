use perlchecker::extractor::{extract_annotated_functions, ExtractedFunction, ExtractorError};

    #[test]
    fn extracts_multiple_annotated_functions() {
        let source = r#"
sub plain {
    return 0;
}

# sig: (Int) -> Int
# post: $result >= $x
sub foo {
    my ($x) = @_;
    if ($x > 0) {
        return $x;
    }

    return 0;
}

# sig: (Int, Int) -> Int
# post: $result >= $x
sub bar {
    my ($x, $y) = @_;
    return $x + $y;
}
"#;

        let extracted = extract_annotated_functions(source).unwrap();

        assert_eq!(
            extracted,
            vec![
                ExtractedFunction {
                    name: "foo".to_string(),
                    annotations: vec![
                        "# sig: (Int) -> Int".to_string(),
                        "# post: $result >= $x".to_string(),
                    ],
                    body: "\n    my ($x) = @_;\n    if ($x > 0) {\n        return $x;\n    }\n\n    return 0;\n".to_string(),
                    start_line: 8,
                },
                ExtractedFunction {
                    name: "bar".to_string(),
                    annotations: vec![
                        "# sig: (Int, Int) -> Int".to_string(),
                        "# post: $result >= $x".to_string(),
                    ],
                    body: "\n    my ($x, $y) = @_;\n    return $x + $y;\n".to_string(),
                    start_line: 19,
                },
            ]
        );
    }

    #[test]
    fn rejects_annotation_block_without_immediate_sub() {
        let source = r#"
# sig: (Int) -> Int
# post: $result > 0

sub foo {
    return 1;
}
"#;

        let error = extract_annotated_functions(source).unwrap_err();

        assert_eq!(
            error,
            ExtractorError::InvalidSubHeader {
                line: 4,
                header: "".to_string()
            }
        );
    }

    #[test]
    fn rejects_unmatched_braces() {
        let source = r#"
# sig: (Int) -> Int
# post: $result >= $x
sub foo {
    if ($x > 0) {
        return $x;
}
"#;

        let error = extract_annotated_functions(source).unwrap_err();

        assert_eq!(
            error,
            ExtractorError::UnmatchedBraces {
                function: "foo".to_string(),
                line: 4,
            }
        );
    }

    
#[test]
fn counts_generated_annotated_functions() {
    for count in 0usize..20 {
        let source = (0..count)
            .map(|index| {
                format!(
                    "# sig: (Int) -> Int\n# post: $result >= $x\nsub f{index} {{\n    my ($x) = @_;\n    return $x;\n}}\n"
                )
            })
            .collect::<String>();
        let extracted = extract_annotated_functions(&source).unwrap();
        assert_eq!(extracted.len(), count);
    }
}
