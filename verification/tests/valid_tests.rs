use schema_rename::valid::Valid;

#[test]
fn succeed_holds_the_value() {
    let v: Valid<u32, String> = Valid::succeed(7);
    assert!(v.is_success());
    assert_eq!(v.to_result().ok(), Some(7));
}

#[test]
fn fail_holds_exactly_one_error() {
    let v: Valid<u32, String> = Valid::fail("boom".to_string());
    assert!(!v.is_success());
    assert_eq!(v.to_result().err(), Some(vec!["boom".to_string()]));
}

#[test]
fn map_applies_on_success_and_keeps_errors() {
    let v: Valid<u32, String> = Valid::succeed(20);
    assert_eq!(v.map(|x| x + 1).to_result().ok(), Some(21));

    let f: Valid<u32, String> = Valid::fail("kept".to_string());
    assert_eq!(
        f.map(|x| x + 1).to_result().err(),
        Some(vec!["kept".to_string()])
    );
}

#[test]
fn combine_concatenates_errors_left_before_right() {
    let a: Valid<u32, String> = Valid::fail("first".to_string());
    let b: Valid<u8, String> = Valid::fail("second".to_string());
    assert_eq!(
        a.combine(b).to_result().err(),
        Some(vec!["first".to_string(), "second".to_string()])
    );

    let ok_a: Valid<u32, String> = Valid::succeed(1);
    let ok_b: Valid<u8, String> = Valid::succeed(2);
    assert_eq!(ok_a.combine(ok_b).to_result().ok(), Some((1, 2)));

    let ok: Valid<u32, String> = Valid::succeed(1);
    let bad: Valid<u8, String> = Valid::fail("only".to_string());
    assert_eq!(
        ok.combine(bad).to_result().err(),
        Some(vec!["only".to_string()])
    );
}

#[test]
fn all_of_collects_every_failure_without_short_circuit() {
    let outcomes: Vec<Valid<u32, String>> = vec![
        Valid::fail("one".to_string()),
        Valid::succeed(10),
        Valid::fail("two".to_string()),
        Valid::succeed(11),
    ];
    assert_eq!(
        Valid::all_of(outcomes).to_result().err(),
        Some(vec!["one".to_string(), "two".to_string()])
    );
}

#[test]
fn all_of_succeeds_with_every_value_in_order() {
    let outcomes: Vec<Valid<u32, String>> =
        vec![Valid::succeed(1), Valid::succeed(2), Valid::succeed(3)];
    assert_eq!(Valid::all_of(outcomes).to_result().ok(), Some(vec![1, 2, 3]));
}

#[test]
fn all_of_on_no_outcomes_succeeds_empty() {
    let outcomes: Vec<Valid<u32, String>> = Vec::new();
    assert_eq!(Valid::all_of(outcomes).to_result().ok(), Some(Vec::new()));
}
