use pop_types::constant_expressions::{
    evaluate_constant, resolve_field_default, ConstantExpression, ConstantOutcome, FloatRequest,
};
use pop_types::constants::{BinaryOperator, ConstantFailure, FieldDefault, UnaryOperator};
use pop_types::{FloatKind, FloatValue, IntegerKind, NumericError, TypeArena, TypeId};

const NIL: TypeId = TypeId(0);
const BOOLEAN: TypeId = TypeId(1);
const INT8: TypeId = TypeId(2);
const INT32: TypeId = TypeId(4);
const INT: TypeId = TypeId(5);
const FLOAT64: TypeId = TypeId(11);
const STRING: TypeId = TypeId(12);

const ONE_AND_A_HALF: u64 = 0x3FF8_0000_0000_0000;
const TWO_AND_A_HALF: u64 = 0x4004_0000_0000_0000;
const FOUR: u64 = 0x4010_0000_0000_0000;

fn number(text: &str) -> ConstantExpression {
    ConstantExpression::Number(text.to_string())
}

fn negated(operand: ConstantExpression) -> ConstantExpression {
    ConstantExpression::Unary {
        operator: UnaryOperator::Negate,
        operand: Box::new(operand),
    }
}

fn binary(operator: BinaryOperator, left: ConstantExpression, right: ConstantExpression) -> ConstantExpression {
    ConstantExpression::Binary {
        operator,
        left: Box::new(left),
        right: Box::new(right),
    }
}

fn integer_outcome(outcome: &ConstantOutcome) -> Option<(i128, IntegerKind, TypeId)> {
    match outcome {
        ConstantOutcome::Value {
            value: FieldDefault::Integer(v),
            type_id,
        } => Some((v.signed().map(i128::from)?, v.kind(), *type_id)),
        _ => None,
    }
}

#[test]
fn number_literals_take_the_expected_numeric_type() {
    let arena = TypeArena::new();
    let r = evaluate_constant(&arena, &number("42"), Some(INT32), &[]);
    assert_eq!(integer_outcome(&r), Some((42, IntegerKind::Int32, INT32)));
    let r = evaluate_constant(&arena, &number("42"), None, &[]);
    assert_eq!(integer_outcome(&r), Some((42, IntegerKind::Int64, INT)));
    let r = evaluate_constant(&arena, &number("128"), Some(INT8), &[]);
    assert!(matches!(
        r,
        ConstantOutcome::Failed(ConstantFailure::Numeric(NumericError::OutOfRange))
    ));
    let r = evaluate_constant(&arena, &number("4x"), Some(INT8), &[]);
    assert!(matches!(
        r,
        ConstantOutcome::Failed(ConstantFailure::Numeric(NumericError::InvalidLiteral))
    ));
    let r = evaluate_constant(&arena, &number("1"), Some(STRING), &[]);
    assert!(matches!(r, ConstantOutcome::Failed(ConstantFailure::NoNumericType)));
}

#[test]
fn a_negated_literal_is_read_as_one_literal() {
    let arena = TypeArena::new();
    let r = evaluate_constant(&arena, &negated(number("128")), Some(INT8), &[]);
    assert_eq!(integer_outcome(&r), Some((-128, IntegerKind::Int8, INT8)));
    let r = evaluate_constant(&arena, &negated(negated(number("128"))), Some(INT8), &[]);
    assert!(matches!(
        r,
        ConstantOutcome::Failed(ConstantFailure::Numeric(NumericError::Overflow))
    ));
    let r = evaluate_constant(&arena, &negated(negated(number("5"))), Some(INT32), &[]);
    assert_eq!(integer_outcome(&r), Some((5, IntegerKind::Int32, INT32)));
}

#[test]
fn plain_literals_have_their_own_types() {
    let arena = TypeArena::new();
    match evaluate_constant(&arena, &ConstantExpression::String("hi".to_string()), None, &[]) {
        ConstantOutcome::Value {
            value: FieldDefault::String(text),
            type_id,
        } => {
            assert_eq!(text, "hi");
            assert_eq!(type_id, STRING);
        }
        other => panic!("unexpected {other:?}"),
    }
    assert!(matches!(
        evaluate_constant(&arena, &ConstantExpression::Boolean(true), None, &[]),
        ConstantOutcome::Value { value: FieldDefault::Boolean(true), type_id: BOOLEAN }
    ));
    assert!(matches!(
        evaluate_constant(&arena, &ConstantExpression::Nil, None, &[]),
        ConstantOutcome::Value { value: FieldDefault::Nil, type_id: NIL }
    ));
    assert!(matches!(
        evaluate_constant(&arena, &ConstantExpression::Other, None, &[]),
        ConstantOutcome::Failed(ConstantFailure::Ineligible)
    ));
    let not = ConstantExpression::Unary {
        operator: UnaryOperator::Not,
        operand: Box::new(ConstantExpression::Boolean(true)),
    };
    assert!(matches!(
        evaluate_constant(&arena, &not, None, &[]),
        ConstantOutcome::Value { value: FieldDefault::Boolean(false), type_id: BOOLEAN }
    ));
}

#[test]
fn binary_operations_evaluate_both_operands() {
    let arena = TypeArena::new();
    let sum = binary(BinaryOperator::Add, number("40"), number("2"));
    let r = evaluate_constant(&arena, &sum, Some(INT32), &[]);
    assert_eq!(integer_outcome(&r), Some((42, IntegerKind::Int32, INT32)));
    let mixed = binary(
        BinaryOperator::Equal,
        ConstantExpression::String("a".to_string()),
        ConstantExpression::Boolean(true),
    );
    assert!(matches!(
        evaluate_constant(&arena, &mixed, None, &[]),
        ConstantOutcome::Failed(ConstantFailure::OperandTypeMismatch { left: STRING, right: BOOLEAN })
    ));
    let failing_left = binary(BinaryOperator::Add, ConstantExpression::Other, number("x"));
    assert!(matches!(
        evaluate_constant(&arena, &failing_left, Some(INT32), &[]),
        ConstantOutcome::Failed(ConstantFailure::Ineligible)
    ));
    let equal = binary(BinaryOperator::Equal, number("3"), number("3"));
    assert!(matches!(
        evaluate_constant(&arena, &equal, Some(INT32), &[]),
        ConstantOutcome::Value { value: FieldDefault::Boolean(true), type_id: BOOLEAN }
    ));
}

#[test]
fn float_work_is_asked_of_the_host_in_order() {
    let arena = TypeArena::new();
    let literal = number("1.5");
    match evaluate_constant(&arena, &literal, Some(FLOAT64), &[]) {
        ConstantOutcome::NeedsHost(FloatRequest::Parse { text, kind }) => {
            assert_eq!(text, "1.5");
            assert_eq!(kind, FloatKind::Float64);
        }
        other => panic!("unexpected {other:?}"),
    }
    let answers = [Ok(FloatValue::Float64(ONE_AND_A_HALF))];
    assert!(matches!(
        evaluate_constant(&arena, &literal, Some(FLOAT64), &answers),
        ConstantOutcome::Value { value: FieldDefault::Float(FloatValue::Float64(ONE_AND_A_HALF)), type_id: FLOAT64 }
    ));
    let failed = [Err(NumericError::InvalidLiteral)];
    assert!(matches!(
        evaluate_constant(&arena, &literal, Some(FLOAT64), &failed),
        ConstantOutcome::Failed(ConstantFailure::Numeric(NumericError::InvalidLiteral))
    ));

    let sum = binary(BinaryOperator::Add, number("1.5"), number("2.5"));
    let mut answers = vec![Ok(FloatValue::Float64(ONE_AND_A_HALF))];
    match evaluate_constant(&arena, &sum, Some(FLOAT64), &answers) {
        ConstantOutcome::NeedsHost(FloatRequest::Parse { text, .. }) => assert_eq!(text, "2.5"),
        other => panic!("unexpected {other:?}"),
    }
    answers.push(Ok(FloatValue::Float64(TWO_AND_A_HALF)));
    match evaluate_constant(&arena, &sum, Some(FLOAT64), &answers) {
        ConstantOutcome::NeedsHost(FloatRequest::Arithmetic { operator, left, right }) => {
            assert_eq!(operator, BinaryOperator::Add);
            assert_eq!(left, FloatValue::Float64(ONE_AND_A_HALF));
            assert_eq!(right, FloatValue::Float64(TWO_AND_A_HALF));
        }
        other => panic!("unexpected {other:?}"),
    }
    answers.push(Ok(FloatValue::Float64(FOUR)));
    assert!(matches!(
        evaluate_constant(&arena, &sum, Some(FLOAT64), &answers),
        ConstantOutcome::Value { value: FieldDefault::Float(FloatValue::Float64(FOUR)), type_id: FLOAT64 }
    ));
    let negative = negated(number("1.5"));
    match evaluate_constant(&arena, &negative, Some(FLOAT64), &[]) {
        ConstantOutcome::NeedsHost(FloatRequest::Parse { text, .. }) => assert_eq!(text, "-1.5"),
        other => panic!("unexpected {other:?}"),
    }
}

#[test]
fn field_defaults_must_fit_the_field() {
    let mut arena = TypeArena::new();
    let optional = arena.optional(INT32).unwrap();
    let r = resolve_field_default(&arena, optional, &number("4"), &[]);
    assert_eq!(integer_outcome(&r), Some((4, IntegerKind::Int32, INT32)));
    assert!(matches!(
        resolve_field_default(&arena, optional, &ConstantExpression::Nil, &[]),
        ConstantOutcome::Value { value: FieldDefault::Nil, type_id: NIL }
    ));
    assert!(matches!(
        resolve_field_default(&arena, STRING, &ConstantExpression::Boolean(false), &[]),
        ConstantOutcome::Failed(ConstantFailure::FieldTypeMismatch { expected: STRING, found: BOOLEAN })
    ));
    let r = resolve_field_default(&arena, INT8, &negated(number("7")), &[]);
    assert_eq!(integer_outcome(&r), Some((-7, IntegerKind::Int8, INT8)));
    assert!(matches!(
        resolve_field_default(&arena, INT8, &ConstantExpression::Other, &[]),
        ConstantOutcome::Failed(ConstantFailure::Ineligible)
    ));
}

#[test]
fn answers_beyond_those_used_change_nothing() {
    let arena = TypeArena::new();
    let sum = binary(BinaryOperator::Add, number("1.5"), number("2.5"));
    let answers = vec![
        Ok(FloatValue::Float64(ONE_AND_A_HALF)),
        Ok(FloatValue::Float64(TWO_AND_A_HALF)),
        Ok(FloatValue::Float64(FOUR)),
        Err(NumericError::Overflow),
    ];
    assert!(matches!(
        evaluate_constant(&arena, &sum, Some(FLOAT64), &answers),
        ConstantOutcome::Value { value: FieldDefault::Float(FloatValue::Float64(FOUR)), type_id: FLOAT64 }
    ));
    let r = evaluate_constant(&arena, &number("42"), Some(INT32), &answers);
    assert_eq!(integer_outcome(&r), Some((42, IntegerKind::Int32, INT32)));
}
