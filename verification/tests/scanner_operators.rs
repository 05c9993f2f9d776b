use hiwkhao::run_scanner;
// Positive integers

#[test]
fn operators_positive_addition() {
    let input = "1 + 2";
    let expected_output = vec!["1/INT +/+ 2/INT"];
    let output = run_scanner(input);
    assert_eq!(output, expected_output);
}

#[test]
fn operators_positive_subtraction() {
    let input = "1 - 2";
    let expected_output = vec!["1/INT -/- 2/INT"];
    let output = run_scanner(input);
    assert_eq!(output, expected_output);
}

#[test]
fn operators_positive_multiplication() {
    let input = "1 * 2";
    let expected_output = vec!["1/INT */* 2/INT"];
    let output = run_scanner(input);
    assert_eq!(output, expected_output);
}

#[test]
fn operators_positive_division() {
    let input = "1 / 2";
    let expected_output = vec!["1/INT /// 2/INT"];
    let output = run_scanner(input);
    assert_eq!(output, expected_output);
}

#[test]
fn positive_division_float() {
    let input = "1.0 / 2.0";
    let expected_output = vec!["1.0/REAL /// 2.0/REAL"];
    let output = run_scanner(input);
    assert_eq!(output, expected_output);
}

#[test]
fn operators_positive_division_integers() {
    let input = "1 // 2";
    let expected_output = vec!["1/INT ///// 2/INT"];
    let output = run_scanner(input);
    assert_eq!(output, expected_output);
}

#[test]
fn operators_positive_exponent() {
    let input = "1 ^ 2";
    let expected_output = vec!["1/INT ^/POW 2/INT"];
    let output = run_scanner(input);
    assert_eq!(output, expected_output);
}

#[test]
fn operators_positive_exponent_float() {
    let input = "1.0 ^ 2.0";
    let expected_output = vec!["1.0/REAL ^/POW 2.0/REAL"];
    let output = run_scanner(input);
    assert_eq!(output, expected_output);
}

#[test]
fn operators_positive_greater_than() {
    let input = "1 > 2";
    let expected_output = vec!["1/INT >/> 2/INT"];
    let output = run_scanner(input);
    assert_eq!(output, expected_output);
}

#[test]
fn positive_greater_than_or_equal() {
    let input = "1 >= 2";
    let expected_output = vec!["1/INT >=/>= 2/INT"];
    let output = run_scanner(input);
    assert_eq!(output, expected_output);
}

#[test]
fn operators_positive_less_than() {
    let input = "1 < 2";
    let expected_output = vec!["1/INT </< 2/INT"];
    let output = run_scanner(input);
    assert_eq!(output, expected_output);
}

#[test]
fn positive_less_than_or_equal() {
    let input = "1 <= 2";
    let expected_output = vec!["1/INT <=/<= 2/INT"];
    let output = run_scanner(input);
    assert_eq!(output, expected_output);
}

#[test]
fn positive_equal() {
    let input = "1 == 2";
    let expected_output = vec!["1/INT ==/== 2/INT"];
    let output = run_scanner(input);
    assert_eq!(output, expected_output);
}

#[test]
fn positive_not_equal() {
    let input = "1 != 2";
    let expected_output = vec!["1/INT !=/!= 2/INT"];
    let output = run_scanner(input);
    assert_eq!(output, expected_output);
}

#[test]
fn positive_parentheses() {
    let input = "(1 + 2)";
    let expected_output = vec!["(/LPAREN 1/INT +/+ 2/INT )/RPAREN"];
    let output = run_scanner(input);
    assert_eq!(output, expected_output);
}

#[test]
fn positive_assignment() {
    let input = "a = 1";
    let expected_output = vec!["a/VAR =/= 1/INT"];
    let output = run_scanner(input);
    assert_eq!(output, expected_output);
}


