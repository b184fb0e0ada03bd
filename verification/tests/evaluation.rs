use rust_calculator::evaluation::{zero, Evaluation, EvaluationError, Request};
use rust_calculator::parser::CalculatorParser;
use rust_calculator::syntax::{Operator, Span};

fn begin(input: &str) -> Evaluation {
    Evaluation::start(&CalculatorParser::parse(input).unwrap())
}

fn convert(start: usize, end: usize) -> Request {
    Request::Convert(Span { start, end })
}

#[test]
fn operands_are_asked_for_before_their_operator() {
    let mut evaluation = begin("2+3*4");
    assert_eq!(evaluation.request(), convert(0, 1));
    evaluation = evaluation.supply(2);
    assert_eq!(evaluation.request(), convert(2, 3));
    evaluation = evaluation.supply(3);
    assert_eq!(evaluation.request(), convert(4, 5));
    evaluation = evaluation.supply(4);
    assert_eq!(evaluation.request(), Request::Apply { op: Operator::Multiply, lhs: 3, rhs: 4 });
    evaluation = evaluation.supply(12);
    assert_eq!(evaluation.request(), Request::Apply { op: Operator::Add, lhs: 2, rhs: 12 });
    evaluation = evaluation.supply(14);
    assert_eq!(evaluation.request(), Request::Finished(14));
}

#[test]
fn a_chain_is_reduced_from_the_left() {
    let mut evaluation = begin("8-3-2");
    evaluation = evaluation.supply(8).supply(3);
    assert_eq!(evaluation.request(), Request::Apply { op: Operator::Subtract, lhs: 8, rhs: 3 });
    evaluation = evaluation.supply(5);
    assert_eq!(evaluation.request(), convert(4, 5));
    evaluation = evaluation.supply(2);
    assert_eq!(evaluation.request(), Request::Apply { op: Operator::Subtract, lhs: 5, rhs: 2 });
    assert_eq!(evaluation.supply(3).request(), Request::Finished(3));
}

#[test]
fn a_group_is_reduced_before_it_is_used() {
    let mut evaluation = begin("(2+3)*4");
    evaluation = evaluation.supply(20).supply(30);
    assert_eq!(evaluation.request(), Request::Apply { op: Operator::Add, lhs: 20, rhs: 30 });
    evaluation = evaluation.supply(50);
    assert_eq!(evaluation.request(), convert(6, 7));
    evaluation = evaluation.supply(40);
    assert_eq!(evaluation.request(), Request::Apply { op: Operator::Multiply, lhs: 50, rhs: 40 });
}

#[test]
fn a_zero_divisor_fails_the_evaluation() {
    let failed = Request::Failed(EvaluationError::DivisionByZero);
    let positive = 0.0_f64.to_bits();
    let negative = (-0.0_f64).to_bits();
    assert_eq!(begin("5/0").supply(5.0_f64.to_bits()).supply(positive).request(), failed);
    assert_eq!(begin("5/0").supply(5.0_f64.to_bits()).supply(negative).request(), failed);
    let smallest = f64::from_bits(1).to_bits();
    assert_eq!(
        begin("5/0").supply(7).supply(smallest).request(),
        Request::Apply { op: Operator::Divide, lhs: 7, rhs: smallest }
    );
    assert_eq!(
        begin("5*0").supply(7).supply(positive).request(),
        Request::Apply { op: Operator::Multiply, lhs: 7, rhs: positive }
    );
}

#[test]
fn an_evaluation_that_ended_stays_as_it_is() {
    let finished = begin("7").supply(70);
    assert_eq!(finished.request(), Request::Finished(70));
    let finished = finished.supply(1).supply(2);
    assert_eq!(finished.request(), Request::Finished(70));
    let failed = begin("1/0").supply(1).supply(0);
    assert_eq!(failed.request(), Request::Failed(EvaluationError::DivisionByZero));
    let failed = failed.supply(9);
    assert_eq!(failed.request(), Request::Failed(EvaluationError::DivisionByZero));
}

#[test]
fn only_the_two_zeros_are_zero() {
    assert!(zero(0.0_f64.to_bits()));
    assert!(zero((-0.0_f64).to_bits()));
    assert!(!zero(f64::MIN_POSITIVE.to_bits()));
    assert!(!zero(1));
    assert!(!zero(f64::NAN.to_bits()));
    assert!(!zero(1.0_f64.to_bits()));
}
