use postfix_calc::evaluator::evaluate;
use postfix_calc::helpers::get_op_value;
use postfix_calc::helpers::is_operator;
use postfix_calc::shunting_yard::convert_postfix;
use postfix_calc::shunting_yard::try_convert_postfix;
use postfix_calc::tokenizer::parse_input;
use postfix_calc::tokenizer::Element;

fn parse_f64(v: Vec<char>) -> f64 {
    v.into_iter().collect::<String>().parse().expect("Error parsing to int")
}

fn apply_f64(op: char, a: f64, b: f64) -> f64 {
    match op {
        '*' => a * b,
        '/' => a / b,
        '+' => a + b,
        '-' => a - b,
        '^' => a.powf(b),
        _ => 0.,
    }
}

#[test]
fn test_is_operator_classifies_each_character() {
    for ch in ['+', '-', '*', '/', '^', '(', ')'] {
        assert!(is_operator(ch));
    }
    for ch in ['0', '9', '.', ' ', 'a', '%', '='] {
        assert!(!is_operator(ch));
    }
}

#[test]
fn test_get_op_value_table() {
    assert_eq!(get_op_value('^'), (5, true));
    assert_eq!(get_op_value('*'), (3, false));
    assert_eq!(get_op_value('/'), (3, false));
    assert_eq!(get_op_value('+'), (1, false));
    assert_eq!(get_op_value('-'), (1, false));
    assert_eq!(get_op_value('('), (-1, false));
    assert_eq!(get_op_value('%'), (-1, false));
}

#[test]
fn test_tokenize_empty_text() {
    let result = parse_input("".to_string(), parse_f64);
    assert_eq!(result, Vec::<Element<f64>>::new());
}

#[test]
fn test_tokenize_splits_literals_at_spaces() {
    let result = parse_input("10 0".to_string(), parse_f64);
    assert_eq!(result, vec![Element::Number(10.0), Element::Number(0.0)]);
}

#[test]
fn test_tokenize_skips_unknown_characters() {
    let result = parse_input("1a2".to_string(), parse_f64);
    assert_eq!(result, vec![Element::Number(1.0), Element::Number(2.0)]);
}

#[test]
fn test_tokenize_reads_decimal_literals() {
    let result = parse_input("3.25+4.333".to_string(), parse_f64);
    let expected = vec![
        Element::Number(3.25),
        Element::Operator('+'),
        Element::Number(4.333),
    ];
    assert_eq!(result, expected);
}

#[test]
fn test_evaluate_empty_sequence_defaults_to_zero() {
    let result = evaluate(Vec::<Element<f64>>::new(), 0., apply_f64);
    assert_eq!(result, 0.0);
}

#[test]
fn test_evaluate_missing_operands_default_to_zero() {
    // A lone operator pops nothing: both operands fall back to 0.0.
    let result = evaluate(vec![Element::<f64>::Operator('+')], 0., apply_f64);
    assert_eq!(result, 0.0);
    // One operand present: the left one falls back to 0.0, so 0 - 5 = -5.
    let result = evaluate(
        vec![Element::Number(5.), Element::Operator('-')],
        0.,
        apply_f64,
    );
    assert_eq!(result, -5.0);
}

#[test]
fn test_evaluate_unknown_operator_yields_zero() {
    let result = evaluate(
        vec![Element::Number(1.), Element::Number(2.), Element::Operator('%')],
        0.,
        apply_f64,
    );
    assert_eq!(result, 0.0);
}

#[test]
fn test_unmatched_closing_paren_is_ignored() {
    // "1 + 2)" — the ')' finds no '(' and silently stops popping.
    let infix = parse_input("1 + 2)".to_string(), parse_f64);
    let postfix = convert_postfix(infix, -1.);
    let result = evaluate(postfix, 0., apply_f64);
    assert_eq!(result, 3.0);
}

#[test]
fn test_trailing_unary_minus_is_refused() {
    // A unary minus with nothing after it is the one run the converter
    // cannot finish.
    assert!(try_convert_postfix(vec![Element::<f64>::Operator('-')], -1.).is_none());
    let infix = vec![Element::<f64>::Operator('('), Element::Operator('-')];
    assert!(try_convert_postfix(infix, -1.).is_none());
    // A binary minus at the end is fine: "5 -" just flushes the stack.
    let infix = vec![Element::Number(5.), Element::Operator('-')];
    assert_eq!(
        try_convert_postfix(infix, -1.),
        Some(vec![Element::Number(5.), Element::Operator('-')])
    );
}

#[test]
fn test_double_unary_minus_rewrites_each_sign() {
    // "--3": the first '-' sees an operator next, the second consumes the 3.
    let infix = parse_input("--3".to_string(), parse_f64);
    let postfix = convert_postfix(infix, -1.);
    let expected = vec![
        Element::Number(-1.),
        Element::Operator('*'),
        Element::Number(3.),
        Element::Number(-1.),
        Element::Operator('*'),
    ];
    assert_eq!(postfix, expected);
}

#[test]
fn test_left_associative_chain_groups_left() {
    // 10 - 4 - 3 = (10 - 4) - 3 = 3
    let infix = parse_input("10 - 4 - 3".to_string(), parse_f64);
    let postfix = convert_postfix(infix, -1.);
    let result = evaluate(postfix, 0., apply_f64);
    assert_eq!(result, 3.0);
}

#[test]
fn test_division_precedence_over_subtraction() {
    // 56 - 78 / 9 = 56 - 8.666... ≈ 47.33
    let infix = parse_input("56 - 78 / 9".to_string(), parse_f64);
    let postfix = convert_postfix(infix, -1.);
    let result = evaluate(postfix, 0., apply_f64);
    assert!((result - 47.3333333).abs() <= 0.01);
}

#[test]
fn test_round_trip_matches_conventional_arithmetic() {
    // 1 + 2 * 3 - 4 / 2 = 1 + 6 - 2 = 5, read with conventional precedence.
    let infix = parse_input("1 + 2 * 3 - 4 / 2".to_string(), parse_f64);
    let postfix = convert_postfix(infix, -1.);
    let result = evaluate(postfix, 0., apply_f64);
    assert_eq!(result, 5.0);
}

#[test]
fn test_scenario_thirteen_tokens_and_value() {
    let tokens = parse_input("100 + 2 / (5*34*2 +7)".to_string(), parse_f64);
    assert_eq!(tokens.len(), 13);
    assert_eq!(tokens[12], Element::Operator(')'));
    let postfix = convert_postfix(tokens, -1.);
    let result = evaluate(postfix, 0., apply_f64);
    // 100 + 2 / 347 = 100.00576...
    assert!((result - 100.00576).abs() <= 0.01);
}

#[test]
fn test_scenario_full_pipeline_from_text() {
    let tokens = parse_input("12 + 34 * (56 - 78 / 9)".to_string(), parse_f64);
    let postfix = convert_postfix(tokens, -1.);
    let result = evaluate(postfix, 0., apply_f64);
    assert!((result - 1621.33).abs() <= 0.01);
}
