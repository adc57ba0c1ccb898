use calculator::eval::{evaluate, EvalError, EvaluationResult};
use calculator::value::Num;
use calculator::vars::{VarTable, Variable};

fn num(x: f64) -> Num {
    Num { bits: x.to_bits() }
}

#[test]
fn test_evaluate_with_spaces() {
    let mut variables = VarTable(vec![]);
    let result = evaluate("5 + 3", &mut variables);
    assert_eq!(result, vec![EvaluationResult::Number(num(8.0))]);
}

#[test]
fn test_evaluate_without_spaces() {
    let mut variables = VarTable(vec![]);
    let result = evaluate("5+3", &mut variables);
    assert_eq!(result, vec![EvaluationResult::Number(num(8.0))]);
}

#[test]
fn test_evaluate_with_multiple_spaces() {
    let mut variables = VarTable(vec![]);
    let result = evaluate("5   +   3", &mut variables);
    assert_eq!(result, vec![EvaluationResult::Number(num(8.0))]);
}

#[test]
fn test_evaluate_with_invalid_expression() {
    let mut variables = VarTable(vec![]);
    let result = evaluate("5 + * 3", &mut variables);
    assert!(matches!(result[0], EvaluationResult::Error(_)),)
}

#[test]
fn test_evaluate_with_variable() {
    let mut variables = VarTable(vec![Variable { label: "x".to_string(), value: num(5.0) }]);
    let result = evaluate("x + 3", &mut variables);
    assert_eq!(result, vec![EvaluationResult::Number(num(8.0))]);
}

#[test]
fn test_evaluate_with_undefined_variable() {
    let mut variables = VarTable(vec![]);
    let result = evaluate("x + 3", &mut variables);
    for r in result.iter() {
        assert!(
            matches!(r, EvaluationResult::Error(_)),
            "Result should be an error for expression 'x + 3' when x is undefined, but was {:?}",
            r
        )
    }
}

#[test]
fn test_evaluate_with_assignment() {
    let mut variables = VarTable(vec![]);
    let result = evaluate("let x = 5", &mut variables);
    assert_eq!(
        result,
        vec![EvaluationResult::Number(num(5.0))],
        "Result should be 5 for expression 'let x = 5'"
    );
    assert_eq!(
        variables.retrieve(&"x".to_string()),
        Some(num(5.0)),
        "Variable x should be 5 after assignment"
    );
}

#[test]
fn test_evaluate_with_invalid_assignment() {
    let mut variables = VarTable(vec![]);
    let result = evaluate("let 5 = x", &mut variables);
    for r in result.iter() {
        assert!(
            matches!(r, EvaluationResult::Error(_)),
            "Result should be an error for expression 'let 5 = x'"
        )
    }
}

#[test]
fn test_evaluate_with_multiple_operations() {
    let mut variables = VarTable(vec![]);
    let result = evaluate("5 + 3 * 2", &mut variables);
    assert_eq!(result, vec![EvaluationResult::Number(num(11.0))]);
}

#[test]
fn test_evaluate_with_parentheses() {
    let mut variables = VarTable(vec![]);
    let result = evaluate("(5 + 3) * 2", &mut variables);
    assert_eq!(result, vec![EvaluationResult::Number(num(16.0))]);
}

#[test]
fn test_evaluate_with_unbalanced_parentheses() {
    let mut variables = VarTable(vec![]);
    let result = evaluate("(5 + 3 * 2", &mut variables);
    assert_eq!(result.len(), 1, "Result should contain only one element");
    assert!(
        matches!(result[0], EvaluationResult::Error(_)),
        "Result should be an error for expression '(5 + 3 * 2'"
    )
}

#[test]
fn test_evaluate_empty_input() {
    let mut variables = VarTable(vec![]);
    let result = evaluate("", &mut variables);
    assert_eq!(result, Vec::new(), "Result should be an empty vector for empty input");
}

#[test]
fn test_evaluate_with_negative_numbers() {
    let mut variables = VarTable(vec![]);
    let result = evaluate("-5 + 3", &mut variables);
    assert_eq!(
        result,
        vec![EvaluationResult::Number(num(-2.0))],
        "Negative number calculation should work"
    );
}

#[test]
fn test_evaluate_with_decimal_numbers() {
    let mut variables = VarTable(vec![]);
    let result = evaluate("2.5 * 4", &mut variables);
    assert_eq!(
        result,
        vec![EvaluationResult::Number(num(10.0))],
        "Decimal number calculation should work"
    );
}

#[test]
fn test_evaluate_with_complex_expression() {
    let mut variables = VarTable(vec![Variable { label: "y".to_string(), value: num(2.0) }]);
    let result = evaluate("3 * (2 + y) / 2", &mut variables);
    assert_eq!(
        result,
        vec![EvaluationResult::Number(num(6.0))],
        "Complex expression with variable should be evaluated correctly"
    );
}

#[test]
fn test_evaluate_with_mixed_operations() {
    let mut variables = VarTable(vec![]);
    let result = evaluate("2 + 3 * 4 - 5 / 2", &mut variables);
    assert_eq!(
        result,
        vec![EvaluationResult::Number(num(11.5))],
        "Expression with mixed operations should be evaluated correctly"
    );
}

#[test]
fn test_evaluate_with_whitespace_input() {
    let mut variables = VarTable(vec![]);
    let result = evaluate("    ", &mut variables);
    assert_eq!(
        result,
        Vec::new(),
        "Result should be an empty vector for input with only whitespace"
    );
}

#[test]
fn test_evaluate_with_trailing_semicolon() {
    let mut variables = VarTable(vec![]);
    let result = evaluate("5 + 3;", &mut variables);
    assert_eq!(
        result,
        vec![EvaluationResult::Number(num(8.0))],
        "Trailing semicolon should be ignored"
    );
}

#[test]
fn test_evaluate_with_multiple_semicolons() {
    let mut variables = VarTable(vec![]);
    let result = evaluate("5 + 3 ;; 2 * 4", &mut variables);
    assert_eq!(
        result,
        vec![EvaluationResult::Number(num(8.0)), EvaluationResult::Number(num(8.0))],
        "Multiple consecutive semicolons should be handled correctly"
    );
}

#[test]
fn test_evaluate_with_let_and_variable() {
    let mut variables = VarTable(vec![]);
    let result = evaluate("let x = 5; x + 3", &mut variables);
    assert_eq!(
        result,
        vec![EvaluationResult::Number(num(5.0)), EvaluationResult::Number(num(8.0))],
        "Let and variable should be handled correctly"
    );
}

#[test]
fn test_evaluate_with_let_and_variable_and_undefined_variable() {
    let mut variables = VarTable(vec![]);
    let result = evaluate("let x = 5; x + y", &mut variables);
    // result should be exactly [Number(5.0), Error(_)]
    assert_eq!(result.len(), 2, "Result should contain exactly two elements");
    assert_eq!(result[0], EvaluationResult::Number(num(5.0)));
    assert!(matches!(result[1], EvaluationResult::Error(_)));
}

#[test]
fn test_evaluate_with_let_and_already_defined_variable() {
    let mut variables = VarTable(vec![Variable { label: "x".to_string(), value: num(5.0) }]);
    let result = evaluate("let x = 10; x + 3", &mut variables);
    assert_eq!(result.len(), 2, "Result should contain exactly two elements");
    assert!(
        matches!(result[0], EvaluationResult::Error(_)),
        "Result should be an error for expression 'let x = 10; x + 3'"
    );
    assert_eq!(
        result[1],
        EvaluationResult::Number(num(8.0)),
        "Result should be 8 for expression 'let x = 10; x + 3' when x is already defined as 5"
    );
}

#[test]
fn test_evaluate_with_multiple_statements() {
    let mut variables = VarTable(vec![]);
    let result = evaluate("let x = 5; x + 3; x * 2", &mut variables);
    assert_eq!(
        result,
        vec![
            EvaluationResult::Number(num(5.0)),
            EvaluationResult::Number(num(8.0)),
            EvaluationResult::Number(num(10.0)),
        ],
        "Multiple statements should be evaluated correctly"
    );
}

#[test]
fn test_evaluate_with_multiple_statements_and_undefined_variable() {
    let mut variables = VarTable(vec![]);
    let result = evaluate("let x = 5; x + 3; x * y", &mut variables);

    assert_eq!(result.len(), 3, "Result should contain exactly three elements");
    assert_eq!(result[0], EvaluationResult::Number(num(5.0)));
    assert_eq!(result[1], EvaluationResult::Number(num(8.0)));
    assert!(matches!(result[2], EvaluationResult::Error(_)));
}

#[test]
fn test_evaluate_assign_use_change_use() {
    let mut variables = VarTable(vec![]);
    let result = evaluate("let x = 5; x/-10; x = 10; x + 3", &mut variables);
    assert_eq!(
        result,
        vec![
            EvaluationResult::Number(num(5.0)),
            EvaluationResult::Number(num(-0.5)),
            EvaluationResult::Number(num(10.0)),
            EvaluationResult::Number(num(13.0)),
        ],
        "Assign, use, change, use should be evaluated correctly"
    );
}

#[test]
fn test_let_then_bare_reference() {
    let mut variables = VarTable(vec![]);
    let result = evaluate("let x = 5; x", &mut variables);
    assert_eq!(
        result,
        vec![EvaluationResult::Number(num(5.0)), EvaluationResult::Number(num(5.0))]
    );
}

#[test]
fn test_assign_before_let_is_error() {
    let mut variables = VarTable(vec![]);
    let result = evaluate("x = 5", &mut variables);
    assert_eq!(result.len(), 1);
    match &result[0] {
        EvaluationResult::Error(issue) => {
            assert_eq!(issue.cause, EvalError::AssignUndefined("x".to_string()));
        }
        other => panic!("expected an error outcome, got {:?}", other),
    }
    assert_eq!(variables.retrieve(&"x".to_string()), None);
}

#[test]
fn test_missing_assign_after_let_is_error() {
    let mut variables = VarTable(vec![]);
    let result = evaluate("let x 5", &mut variables);
    assert_eq!(result.len(), 1);
    match &result[0] {
        EvaluationResult::Error(issue) => {
            assert_eq!(issue.cause, EvalError::ExpectedAssign("x".to_string()));
        }
        other => panic!("expected an error outcome, got {:?}", other),
    }
}

#[test]
fn test_unbalanced_parenthesis_cause() {
    let mut variables = VarTable(vec![]);
    let result = evaluate("(5 + 3", &mut variables);
    assert_eq!(result.len(), 1);
    match &result[0] {
        EvaluationResult::Error(issue) => {
            assert_eq!(issue.cause, EvalError::ExpectedClosingParen);
        }
        other => panic!("expected an error outcome, got {:?}", other),
    }
}

#[test]
fn test_invalid_symbol_recovers_at_boundary() {
    let mut variables = VarTable(vec![]);
    let result = evaluate("@; 2+2", &mut variables);
    assert_eq!(result.len(), 2);
    assert!(matches!(result[0], EvaluationResult::Error(_)));
    assert_eq!(result[1], EvaluationResult::Number(num(4.0)));
}

#[test]
fn test_invalid_number_is_error() {
    let mut variables = VarTable(vec![]);
    let result = evaluate("1.2.3", &mut variables);
    assert_eq!(result.len(), 1);
    assert!(matches!(result[0], EvaluationResult::Error(_)));
}

#[test]
fn test_scientific_notation_value() {
    let mut variables = VarTable(vec![]);
    let result = evaluate("1.23e-4", &mut variables);
    assert_eq!(result, vec![EvaluationResult::Number(num(1.23e-4))]);
}

#[test]
fn test_division_by_zero_is_infinite() {
    let mut variables = VarTable(vec![]);
    let result = evaluate("1 / 0", &mut variables);
    assert_eq!(result, vec![EvaluationResult::Number(num(f64::INFINITY))]);
}

#[test]
fn test_double_unary_minus() {
    let mut variables = VarTable(vec![]);
    let result = evaluate("--5", &mut variables);
    assert_eq!(result, vec![EvaluationResult::Number(num(5.0))]);
}

#[test]
fn test_quit_alone() {
    let mut variables = VarTable(vec![]);
    let result = evaluate("q", &mut variables);
    assert_eq!(result, vec![EvaluationResult::Quit]);
}

#[test]
fn test_quit_after_statement() {
    let mut variables = VarTable(vec![]);
    let result = evaluate("5; q", &mut variables);
    assert_eq!(result, vec![EvaluationResult::Number(num(5.0)), EvaluationResult::Quit]);
}

#[test]
fn test_name_starting_with_q_is_quit() {
    // The lexer treats `q` as the quit command the moment it is read, so an
    // identifier starting with `q` never forms: `q2` is quit, then 2.
    let mut variables = VarTable(vec![]);
    let result = evaluate("q2", &mut variables);
    assert_eq!(result, vec![EvaluationResult::Quit, EvaluationResult::Number(num(2.0))]);
}

#[test]
fn test_store_overwrites_in_place() {
    let mut variables = VarTable(vec![]);
    variables.store(&"a".to_string(), num(1.0));
    variables.store(&"b".to_string(), num(2.0));
    variables.store(&"a".to_string(), num(3.0));
    assert_eq!(variables.0.len(), 2);
    assert_eq!(variables.0[0].label, "a".to_string());
    assert_eq!(variables.0[0].value, num(3.0));
    assert_eq!(variables.0[1].label, "b".to_string());
    assert!(variables.contains(&"a".to_string()));
    assert!(!variables.contains(&"c".to_string()));
    assert_eq!(variables.retrieve(&"b".to_string()), Some(num(2.0)));
}
