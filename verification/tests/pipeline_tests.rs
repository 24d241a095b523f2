use postfix_calc::evaluator::evaluate;
use postfix_calc::shunting_yard::convert_postfix;
use postfix_calc::tokenizer::parse_input;
use postfix_calc::tokenizer::Element;

fn parse_f64(v: Vec<char>) -> f64 {
    v.into_iter().collect::<String>().parse().expect("Error parsing to int")
}

fn apply_f64(op: char, a: f64, b: f64) -> f64 {
    match op {
        '*' => a * b,
        '/' => a / b,
        '+' => a + b,
        '-' => a - b,
        '^' => a.powf(b),
        _ => 0.,
    }
}

#[test]
fn test_parse_input() {
    let input = "100 + 2 / (5*34*2 +7)".to_string();
    let result = parse_input(input, parse_f64);
    let expected = vec![
        Element::Number(100.),
        Element::Operator('+'),
        Element::Number(2.),
        Element::Operator('/'),
        Element::Operator('('),
        Element::Number(5.),
        Element::Operator('*'),
        Element::Number(34.),
        Element::Operator('*'),
        Element::Number(2.),
        Element::Operator('+'),
        Element::Number(7.),
        Element::Operator(')'),
    ];
    assert_eq!(result, expected);
}

#[test]
fn test_space_between_digits() {
    let input = "10 0 + 2 * 5+3".to_string();
    let result = parse_input(input, parse_f64);
    let expected = vec![
        Element::Number(10.),
        Element::Number(0.),
        Element::Operator('+'),
        Element::Number(2.),
        Element::Operator('*'),
        Element::Number(5.),
        Element::Operator('+'),
        Element::Number(3.),
    ];
    assert_eq!(result, expected);
}

#[test]
fn test_two_operands() {
    let input = "100 * 5".to_string();
    let result = parse_input(input, parse_f64);
    let expected = vec![
        Element::Number(100.),
        Element::Operator('*'),
        Element::Number(5.),
    ];
    assert_eq!(result, expected);
}

#[test]
fn test_simple_addition() {
    let infix = vec![
        Element::Number(3.),
        Element::Operator('+'),
        Element::Number(4.),
    ];
    let result = convert_postfix(infix, -1.);
    let expected = vec![
        Element::Number(3.),
        Element::Number(4.),
        Element::Operator('+'),
    ];
    assert_eq!(result, expected);
}

#[test]
fn test_addition_and_multiplication() {
    let infix = vec![
        Element::Number(3.),
        Element::Operator('+'),
        Element::Number(4.),
        Element::Operator('*'),
        Element::Number(5.),
    ];
    let result = convert_postfix(infix, -1.);
    let expected = vec![
        Element::Number(3.),
        Element::Number(4.),
        Element::Number(5.),
        Element::Operator('*'),
        Element::Operator('+'),
    ];
    assert_eq!(result, expected);
}

#[test]
fn test_with_parentheses() {
    let infix = vec![
        Element::Number(3.),
        Element::Operator('+'),
        Element::Operator('('),
        Element::Number(4.),
        Element::Operator('*'),
        Element::Number(5.),
        Element::Operator(')'),
    ];
    let result = convert_postfix(infix, -1.);
    let expected = vec![
        Element::Number(3.),
        Element::Number(4.),
        Element::Number(5.),
        Element::Operator('*'),
        Element::Operator('+'),
    ];
    assert_eq!(result, expected);
}

#[test]
fn test_complex_expression() {
    let infix = vec![
        Element::Number(12.),
        Element::Operator('+'),
        Element::Number(34.),
        Element::Operator('*'),
        Element::Operator('('),
        Element::Number(56.),
        Element::Operator('-'),
        Element::Number(78.),
        Element::Operator('/'),
        Element::Number(9.),
        Element::Operator(')'),
    ];
    let result = convert_postfix(infix, -1.);
    let expected = vec![
        Element::Number(12.),
        Element::Number(34.),
        Element::Number(56.),
        Element::Number(78.),
        Element::Number(9.),
        Element::Operator('/'),
        Element::Operator('-'),
        Element::Operator('*'),
        Element::Operator('+'),
    ];
    assert_eq!(result, expected);
}

#[test]
fn test_single_operator() {
    let infix = vec![
        Element::Number(5.),
        Element::Operator('-'),
        Element::Number(2.),
    ];
    let result = convert_postfix(infix, -1.);
    let expected = vec![
        Element::Number(5.),
        Element::Number(2.),
        Element::Operator('-'),
    ];
    assert_eq!(result, expected);
}

#[test]
fn test_only_numbers() {
    let infix = vec![Element::Number(42.)];
    let result = convert_postfix(infix, -1.);
    let expected = vec![Element::Number(42.)];
    assert_eq!(result, expected);
}

#[test]
fn test_empty_input() {
    let infix: Vec<Element<f64>> = Vec::new();
    let result = convert_postfix(infix, -1.);
    let expected: Vec<Element<f64>> = Vec::new();
    assert_eq!(result, expected);
}

#[test]
fn test_evaluate_simple_operation() {
    let infix = vec![
        Element::Number(3.),
        Element::Operator('+'),
        Element::Number(4.),
        Element::Operator('*'),
        Element::Number(5.),
    ];
    let postfix = convert_postfix(infix, -1.);
    let result = evaluate(postfix, 0., apply_f64);
    let expected = 23.;
    assert!((result - expected).abs() <= 0.01);
}

#[test]
fn test_evaluate_complex_operation() {
    // 12 + 34 * (56 - 78 / 9)
    let infix = vec![
        Element::Number(12.),
        Element::Operator('+'),
        Element::Number(34.),
        Element::Operator('*'),
        Element::Operator('('),
        Element::Number(56.),
        Element::Operator('-'),
        Element::Number(78.),
        Element::Operator('/'),
        Element::Number(9.),
        Element::Operator(')'),
    ];
    let postfix = convert_postfix(infix, -1.);
    let result = evaluate(postfix, 0., apply_f64);
    let expected = 1621.33;
    assert!((result - expected).abs() <= 0.01);
}

#[test]
fn test_evaluate_simple_operation_float() {
    let infix = vec![
        Element::Number(3.25),
        Element::Operator('+'),
        Element::Number(4.333),
        Element::Operator('*'),
        Element::Number(5.),
    ];
    let postfix = convert_postfix(infix, -1.);
    let result = evaluate(postfix, 0., apply_f64);
    let expected = 24.915;
    assert!((result - expected).abs() <= 0.01);
}

#[test]
fn test_evaluate_complex_operation_float() {
    // 12.5 + 34 * (56.33 - 78.91 / 9.005)
    let infix = vec![
        Element::Number(12.5),
        Element::Operator('+'),
        Element::Number(34.),
        Element::Operator('*'),
        Element::Operator('('),
        Element::Number(56.33),
        Element::Operator('-'),
        Element::Number(78.91),
        Element::Operator('/'),
        Element::Number(9.005),
        Element::Operator(')'),
    ];
    let postfix = convert_postfix(infix, -1.);
    let result = evaluate(postfix, 0., apply_f64);
    let expected = 1629.78107717934;
    assert!((result - expected).abs() <= 0.01);
}

#[test]
fn test_unary_minus_with_multiplication() {
    let input = "3 * -4".to_string(); // Using parse_input
    let infix = parse_input(input, parse_f64);
    let postfix = convert_postfix(infix, -1.);
    let result = evaluate(postfix, 0., apply_f64);
    let expected = -12.;
    assert_eq!(result, expected);
}

#[test]
fn test_unary_minus_in_expression() {
    let input = "5 + (-3 * 4)".to_string(); // Using parse_input
    let infix = parse_input(input, parse_f64);
    let postfix = convert_postfix(infix, -1.);
    let result = evaluate(postfix, 0., apply_f64);
    let expected = -7.;
    assert_eq!(result, expected);
}

#[test]
fn test_evaluate_unary_minus_simple() {
    let input = "-3 + 4".to_string(); // Using parse_input
    let infix = parse_input(input, parse_f64);
    let postfix = convert_postfix(infix, -1.);
    let result = evaluate(postfix, 0., apply_f64);
    let expected = 1.; // -3 + 4 = 1
    assert_eq!(result, expected);
}

#[test]
fn test_evaluate_unary_minus_with_multiplication() {
    let input = "3 * -4".to_string(); // Using parse_input
    let infix = parse_input(input, parse_f64);
    let postfix = convert_postfix(infix, -1.);
    let result = evaluate(postfix, 0., apply_f64);
    let expected = -12.; // 3 * -4 = -12
    assert!((result - expected).abs() <= 0.01);
}

#[test]
fn test_evaluate_unary_minus_in_expression() {
    let input = "5 + (-3 * 4)".to_string(); // Using parse_input
    let infix = parse_input(input, parse_f64);
    let postfix = convert_postfix(infix, -1.);
    let result = evaluate(postfix, 0., apply_f64);
    let expected = -7.; // 5 + (-3 * 4) = -7
    assert!((result - expected).abs() <= 0.01);
}

#[test]
fn test_evaluate_simple_exponentiation() {
    // 2 ^ 3 = 8
    let infix = parse_input("2 ^ 3".to_string(), parse_f64);
    let postfix = convert_postfix(infix, -1.);
    let result = evaluate(postfix, 0., apply_f64);
    let expected = 8.0;
    assert_eq!(result, expected);
}

#[test]
fn test_evaluate_exponent_with_unary_minus() {
    // -2 ^ 3 = -8
    let infix = parse_input("-2 ^ 3".to_string(), parse_f64);
    let postfix = convert_postfix(infix, -1.);
    let result = evaluate(postfix, 0., apply_f64);
    let expected = -8.0;
    assert_eq!(result, expected);
}

#[test]
fn test_evaluate_complex_expression_with_exponents() {
    // 2 + 3 ^ 2 * 2 = 20
    let infix = parse_input("2 + 3 ^ 2 * 2".to_string(), parse_f64);
    let postfix = convert_postfix(infix, -1.);
    let result = evaluate(postfix, 0., apply_f64);
    let expected = 20.0;
    assert_eq!(result, expected);
}

#[test]
fn test_evaluate_expression_with_parentheses_and_exponents() {
    // (2 + 3) ^ 2 = 25
    let infix = parse_input("(2 + 3) ^ 2".to_string(), parse_f64);
    let postfix = convert_postfix(infix, -1.);
    let result = evaluate(postfix, 0., apply_f64);
    let expected = 25.0;
    assert_eq!(result, expected);
}

#[test]
fn test_evaluate_expression_with_multiple_exponents() {
    // 2 ^ 3 ^ 2 = 512
    let infix = parse_input("2 ^ 3 ^ 2".to_string(), parse_f64);
    let postfix = convert_postfix(infix, -1.);
    let result = evaluate(postfix, 0., apply_f64);
    let expected = 512.0;
    assert_eq!(result, expected);
}
