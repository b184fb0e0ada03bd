use rust_calculator::evaluation::EvaluationError;
use rust_calculator::grammar::{Expected, SyntaxError};
use rust_calculator::syntax::Operator;
use rust_calculator::CalculationError;

fn convert(text: &[u8]) -> u64 {
    let number: f64 = std::str::from_utf8(text).unwrap().parse().unwrap();
    number.to_bits()
}

fn apply(op: Operator, lhs: u64, rhs: u64) -> u64 {
    let (lhs, rhs) = (f64::from_bits(lhs), f64::from_bits(rhs));
    let result = match op {
        Operator::Add => lhs + rhs,
        Operator::Subtract => lhs - rhs,
        Operator::Multiply => lhs * rhs,
        Operator::Divide => lhs / rhs,
        Operator::Power => lhs.powf(rhs),
    };
    result.to_bits()
}

/// The library's `calculate` with the machine's own binary64 arithmetic.
fn calculate(input: String) -> Result<f64, CalculationError> {
    rust_calculator::calculate(input, convert, apply).map(f64::from_bits)
}

fn syntax_error(position: usize, expected: Expected) -> Result<f64, CalculationError> {
    Err(CalculationError::Syntax(SyntaxError { position, expected }))
}

fn division_by_zero() -> Result<f64, CalculationError> {
    Err(CalculationError::Evaluation(EvaluationError::DivisionByZero))
}

#[test]
fn test_basic_operations() {
    assert_eq!(calculate("2+2".to_string()).unwrap(), 4.0);
    assert_eq!(calculate("4-2".to_string()).unwrap(), 2.0);
    assert_eq!(calculate("3*4".to_string()).unwrap(), 12.0);
    assert_eq!(calculate("8/2".to_string()).unwrap(), 4.0);
    assert_eq!(calculate("2^3".to_string()).unwrap(), 8.0);
}

#[test]
fn test_complex_expressions() {
    assert_eq!(calculate("2+3*4".to_string()).unwrap(), 14.0);
    assert_eq!(calculate("(2+3)*4".to_string()).unwrap(), 20.0);
    assert_eq!(calculate("2^3+4".to_string()).unwrap(), 12.0);
}

#[test]
fn chained_operators_associate_to_the_left() {
    assert_eq!(calculate("8-3-2".to_string()).unwrap(), 3.0);
    assert_eq!(calculate("16/4/2".to_string()).unwrap(), 2.0);
}

#[test]
fn chained_powers_associate_to_the_left() {
    assert_eq!(calculate("2^3^2".to_string()).unwrap(), 64.0);
    assert_eq!(calculate("2^(3^2)".to_string()).unwrap(), 512.0);
}

#[test]
fn power_binds_tighter_than_product_and_sum() {
    assert_eq!(calculate("2*3^2".to_string()).unwrap(), 18.0);
    assert_eq!(calculate("1+2*3^2-4".to_string()).unwrap(), 15.0);
    assert_eq!(calculate("2^0.5".to_string()).unwrap(), 2.0_f64.powf(0.5));
    assert_eq!(calculate("2^-1".to_string()).unwrap(), 0.5);
}

#[test]
fn division_by_zero_is_an_evaluation_error() {
    assert_eq!(calculate("5/0".to_string()), division_by_zero());
    assert_eq!(calculate("5/-0".to_string()), division_by_zero());
    assert_eq!(calculate("5/0.0".to_string()), division_by_zero());
    assert_eq!(calculate("1+2/(3-3)".to_string()), division_by_zero());
    assert_eq!(calculate("5/0+(".to_string()), syntax_error(5, Expected::Operand));
}

#[test]
fn zero_may_be_divided_and_multiplied() {
    assert_eq!(calculate("0/5".to_string()).unwrap(), 0.0);
    assert_eq!(calculate("5*0".to_string()).unwrap(), 0.0);
    assert_eq!(calculate("5/0.5".to_string()).unwrap(), 10.0);
}

#[test]
fn malformed_input_is_a_syntax_error() {
    assert_eq!(calculate("".to_string()), syntax_error(0, Expected::Operand));
    assert_eq!(calculate("2+".to_string()), syntax_error(2, Expected::Operand));
    assert_eq!(calculate("(2+3".to_string()), syntax_error(4, Expected::ClosingParenthesis));
    assert_eq!(calculate("2++2".to_string()), syntax_error(2, Expected::Operand));
    assert_eq!(calculate("a+2".to_string()), syntax_error(0, Expected::Operand));
}

#[test]
fn trailing_text_is_a_syntax_error() {
    assert_eq!(calculate("2 3".to_string()), syntax_error(2, Expected::EndOfInput));
    assert_eq!(calculate("(2+3))".to_string()), syntax_error(5, Expected::EndOfInput));
    assert_eq!(calculate("2+3=".to_string()), syntax_error(3, Expected::EndOfInput));
}

#[test]
fn malformed_numerals_are_syntax_errors() {
    assert_eq!(calculate("2.".to_string()), syntax_error(1, Expected::EndOfInput));
    assert_eq!(calculate(".5".to_string()), syntax_error(0, Expected::Operand));
    assert_eq!(calculate("1.5.2".to_string()), syntax_error(3, Expected::EndOfInput));
    assert_eq!(calculate("1 .5".to_string()), syntax_error(2, Expected::EndOfInput));
    assert_eq!(calculate("1e3".to_string()), syntax_error(1, Expected::EndOfInput));
}

#[test]
fn minus_is_a_sign_only_directly_before_digits() {
    assert_eq!(calculate("-5+3".to_string()).unwrap(), -2.0);
    assert_eq!(calculate("-2^2".to_string()).unwrap(), 4.0);
    assert_eq!(calculate("3-(-5)".to_string()).unwrap(), 8.0);
    assert_eq!(calculate("3--5".to_string()).unwrap(), 8.0);
    assert_eq!(calculate("3 - -5".to_string()).unwrap(), 8.0);
    assert_eq!(calculate("3 -5".to_string()).unwrap(), -2.0);
    assert_eq!(calculate("-(2+3)".to_string()), syntax_error(0, Expected::Operand));
    assert_eq!(calculate("- 5".to_string()), syntax_error(0, Expected::Operand));
    assert_eq!(calculate("3 - - 5".to_string()), syntax_error(4, Expected::Operand));
}

#[test]
fn whitespace_between_tokens_is_ignored() {
    assert_eq!(calculate("  2 +\t3 *\n( 4 - 1 )\r\n".to_string()).unwrap(), 11.0);
    assert_eq!(calculate(" 7 ".to_string()).unwrap(), 7.0);
    assert_eq!(calculate("   ".to_string()), syntax_error(3, Expected::Operand));
    assert_eq!(calculate("1 2.5".to_string()), syntax_error(2, Expected::EndOfInput));
}

#[test]
fn text_outside_ascii_is_a_syntax_error() {
    assert_eq!(calculate("2+\u{e9}".to_string()), syntax_error(2, Expected::Operand));
    assert_eq!(calculate("2\u{a0}+ 3".to_string()), syntax_error(1, Expected::EndOfInput));
    assert_eq!(calculate("\u{661}".to_string()), syntax_error(0, Expected::Operand));
}

#[test]
fn numerals_with_fractions_are_converted_whole() {
    assert_eq!(calculate("1.5+2.25".to_string()).unwrap(), 3.75);
    assert_eq!(calculate("-0.5*4".to_string()).unwrap(), -2.0);
    assert_eq!(calculate("007".to_string()).unwrap(), 7.0);
    assert_eq!(calculate("0.1+0.2".to_string()).unwrap(), 0.1 + 0.2);
}

#[test]
fn nested_parentheses_are_evaluated_inside_out() {
    assert_eq!(calculate("((2))".to_string()).unwrap(), 2.0);
    assert_eq!(calculate("2*(3+(4-1)*2)".to_string()).unwrap(), 18.0);
    assert_eq!(calculate("(1+2)*(3+4)".to_string()).unwrap(), 21.0);
    assert_eq!(calculate("()".to_string()), syntax_error(1, Expected::Operand));
    assert_eq!(calculate("(2".to_string()), syntax_error(2, Expected::ClosingParenthesis));
}

/// The reading that a pocket calculator with precedence makes of a number
/// followed by operators and numbers.
fn scan(first: f64, items: &[(char, f64)]) -> f64 {
    let mut sum: Option<(f64, char)> = None;
    let mut product = first;
    for &(op, number) in items {
        match op {
            '*' => product *= number,
            '/' => product /= number,
            _ => {
                let closed = match sum {
                    None => product,
                    Some((so_far, '+')) => so_far + product,
                    Some((so_far, _)) => so_far - product,
                };
                sum = Some((closed, op));
                product = number;
            }
        }
    }
    match sum {
        None => product,
        Some((so_far, '+')) => so_far + product,
        Some((so_far, _)) => so_far - product,
    }
}

#[test]
fn flat_expressions_have_their_standard_value() {
    let items = [('+', 2.0), ('*', 3.0), ('-', 8.0), ('/', 4.0), ('/', 2.0), ('+', 7.0)];
    assert_eq!(scan(1.0, &items), 13.0);
    assert_eq!(calculate("1+2*3-8/4/2+7".to_string()).unwrap().to_bits(), 13.0_f64.to_bits());
    let items = [('/', 3.0), ('*', 3.0), ('-', 1.0), ('/', 7.0)];
    assert_eq!(
        calculate("10 / 3 * 3 - 1 / 7".to_string()).unwrap().to_bits(),
        scan(10.0, &items).to_bits()
    );
    assert_eq!(calculate("42".to_string()).unwrap(), 42.0);
}

#[test]
fn evaluating_twice_gives_identical_bits() {
    for input in ["0.1+0.2", "2^0.5*3-1/3", "(1.5-2)^3/7", "5/0", "2+"] {
        let first = calculate(input.to_string()).map(f64::to_bits);
        let second = calculate(input.to_string()).map(f64::to_bits);
        assert_eq!(first, second);
    }
}

#[test]
fn the_host_is_never_asked_to_divide_by_zero() {
    fn strict(op: Operator, lhs: u64, rhs: u64) -> u64 {
        assert!(!(op == Operator::Divide && f64::from_bits(rhs) == 0.0));
        apply(op, lhs, rhs)
    }
    for input in ["5/0", "1/(2-2)", "0/0", "1/-0", "(3/0)*2", "1/0/0"] {
        let result = rust_calculator::calculate(input.to_string(), convert, strict);
        assert_eq!(result, Err(CalculationError::Evaluation(EvaluationError::DivisionByZero)));
    }
}

#[test]
fn the_host_converts_only_decimal_numerals() {
    fn strict(text: &[u8]) -> u64 {
        let digits = text.strip_prefix(b"-").unwrap_or(text);
        let mut parts = digits.split(|byte| *byte == b'.');
        let whole = parts.next().unwrap();
        assert!(!whole.is_empty() && whole.iter().all(u8::is_ascii_digit));
        if let Some(fraction) = parts.next() {
            assert!(!fraction.is_empty() && fraction.iter().all(u8::is_ascii_digit));
        }
        assert!(parts.next().is_none());
        convert(text)
    }
    let result = rust_calculator::calculate(" -12.50 * (3 - 0.25) ^ 2 / 7".to_string(), strict, apply);
    assert_eq!(result.map(f64::from_bits), Ok(-12.5 * (3.0_f64 - 0.25).powf(2.0) / 7.0));
}

/// An expression as it is meant, before it is written down.
enum Meant {
    Number(&'static str),
    Operation(char, Box<Meant>, Box<Meant>),
}

/// A small generator of reproducible choices.
struct Choices(u64);

impl Choices {
    fn below(&mut self, bound: u64) -> u64 {
        self.0 = self.0.wrapping_mul(6364136223846793005).wrapping_add(1442695040888963407);
        (self.0 >> 33) % bound
    }
}

fn binds(op: char) -> u8 {
    match op {
        '+' | '-' => 0,
        '*' | '/' => 1,
        _ => 2,
    }
}

fn invent(choices: &mut Choices, depth: u32) -> Meant {
    const NUMBERS: [&str; 9] = ["0", "1", "2", "3.5", "-4", "10", "0.25", "-0", "007.50"];
    const OPERATORS: [char; 5] = ['+', '-', '*', '/', '^'];
    if depth == 0 || choices.below(4) == 0 {
        Meant::Number(NUMBERS[choices.below(9) as usize])
    } else {
        let op = OPERATORS[choices.below(5) as usize];
        let lhs = invent(choices, depth - 1);
        let rhs = invent(choices, depth - 1);
        Meant::Operation(op, Box::new(lhs), Box::new(rhs))
    }
}

fn gap(choices: &mut Choices, text: &mut String) {
    const GAPS: [&str; 5] = ["", "", " ", "\t", " \r\n "];
    text.push_str(GAPS[choices.below(5) as usize]);
}

/// Writes `meant` where an operand that binds at least as tightly as `least`
/// is called for, with parentheses where the grammar would read it
/// otherwise, and sometimes where it would not.
fn write(meant: &Meant, least: u8, choices: &mut Choices, text: &mut String) {
    match meant {
        Meant::Number(numeral) if choices.below(8) > 0 => text.push_str(numeral),
        Meant::Operation(op, lhs, rhs) if binds(*op) >= least && choices.below(8) > 0 => {
            write(lhs, binds(*op), choices, text);
            gap(choices, text);
            text.push(*op);
            gap(choices, text);
            write(rhs, binds(*op) + 1, choices, text);
        }
        _ => {
            text.push('(');
            gap(choices, text);
            write(meant, 0, choices, text);
            gap(choices, text);
            text.push(')');
        }
    }
}

fn worth(meant: &Meant) -> Result<f64, CalculationError> {
    match meant {
        Meant::Number(numeral) => Ok(numeral.parse().unwrap()),
        Meant::Operation(op, lhs, rhs) => {
            let lhs = worth(lhs)?;
            let rhs = worth(rhs)?;
            match op {
                '+' => Ok(lhs + rhs),
                '-' => Ok(lhs - rhs),
                '*' => Ok(lhs * rhs),
                '/' if rhs == 0.0 => division_by_zero(),
                '/' => Ok(lhs / rhs),
                _ => Ok(lhs.powf(rhs)),
            }
        }
    }
}

#[test]
fn written_expressions_have_the_value_that_was_meant() {
    let mut choices = Choices(2024);
    let mut failed = 0;
    for _ in 0..2000 {
        let meant = invent(&mut choices, 4);
        let mut text = String::new();
        gap(&mut choices, &mut text);
        write(&meant, 0, &mut choices, &mut text);
        gap(&mut choices, &mut text);
        let expected = worth(&meant).map(f64::to_bits);
        if expected.is_err() {
            failed += 1;
        }
        assert_eq!(calculate(text.clone()).map(f64::to_bits), expected, "{:?}", text);
    }
    assert!(failed > 0 && failed < 2000);
}

#[test]
fn a_long_chain_is_evaluated() {
    let mut text = String::from("0");
    for _ in 0..100_000 {
        text.push_str("+1");
    }
    assert_eq!(calculate(text).unwrap(), 100_000.0);
}

#[test]
fn a_long_chain_of_products_is_evaluated() {
    let mut text = String::from("1");
    for _ in 0..200_000 {
        text.push_str(" * 1 / 1");
    }
    text.push_str(" + 2");
    assert_eq!(calculate(text).unwrap(), 3.0);
}

#[test]
fn deeply_nested_parentheses_are_evaluated() {
    let depth = 200;
    let text = format!("{}7{}", "(".repeat(depth), ")".repeat(depth));
    assert_eq!(calculate(text).unwrap(), 7.0);
    let text = format!("{}7{}", "(1+".repeat(depth), ")".repeat(depth));
    assert_eq!(calculate(text).unwrap(), 207.0);
    let text = format!("{}7{}", "(".repeat(depth), ")".repeat(depth - 1));
    assert_eq!(calculate(text), syntax_error(2 * depth, Expected::ClosingParenthesis));
}
