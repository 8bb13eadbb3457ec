use perlchecker::v1_language_subset;

#[test]
fn phase_zero_locks_the_v1_subset() {
    let subset = v1_language_subset();
    assert_eq!(subset.supported_types, ["Int", "Str"]);
    assert!(subset.supported_control_flow.contains(&"if"));
    assert!(subset.supported_expressions.contains(&"length"));
    assert!(subset.forbidden_features.contains(&"regex"));
}
