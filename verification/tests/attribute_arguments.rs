use pop_types::attribute_arguments::{
    attribute_argument_slots, bind_attribute_arguments, resolve_attribute_constant,
    resolve_attribute_use_with_evaluator, AttributeArgumentError, AttributeArgumentSlot,
    AttributeArgumentSyntax, AttributeConstantFailure, AttributeConstantOutcome,
    AttributeParameterDefinition,
};
use pop_types::attributes::{AttributeConstant, AttributeDefinitions};
use pop_types::constant_expressions::{ConstantExpression, FloatRequest};
use pop_types::constants::{AttributeParameterId, BinaryOperator, UnaryOperator};
use pop_types::ids::{AttributeId, SourceSpan, SymbolId};
use pop_types::{FloatKind, FloatValue, IntegerKind, IntegerValue, NumericError, SemanticType, TypeArena, TypeId};

const NIL: TypeId = TypeId(0);
const BOOLEAN: TypeId = TypeId(1);
const INT8: TypeId = TypeId(2);
const INT32: TypeId = TypeId(4);
const FLOAT64: TypeId = TypeId(11);
const STRING: TypeId = TypeId(12);

fn span(start: u32) -> SourceSpan {
    SourceSpan { start, end: start + 1 }
}

fn number(text: &str) -> ConstantExpression {
    ConstantExpression::Number(text.to_string())
}

fn text(literal: &str) -> ConstantExpression {
    ConstantExpression::String(literal.to_string())
}

fn integer_of(outcome: &AttributeConstantOutcome) -> Option<(i64, IntegerKind)> {
    match outcome {
        AttributeConstantOutcome::Value(AttributeConstant::Integer(v)) => Some((v.signed()?, v.kind())),
        _ => None,
    }
}

fn string_of(outcome: &AttributeConstantOutcome) -> Option<String> {
    match outcome {
        AttributeConstantOutcome::Value(AttributeConstant::String(s)) => Some(s.clone()),
        _ => None,
    }
}

#[test]
fn attribute_constants_take_the_parameter_type() {
    let arena = TypeArena::new();
    assert_eq!(
        integer_of(&resolve_attribute_constant(&arena, &number("7"), INT32, &[])),
        Some((7, IntegerKind::Int32))
    );
    let negative = ConstantExpression::Unary {
        operator: UnaryOperator::Negate,
        operand: Box::new(number("128")),
    };
    assert_eq!(
        integer_of(&resolve_attribute_constant(&arena, &negative, INT8, &[])),
        Some((-128, IntegerKind::Int8))
    );
    assert!(matches!(
        resolve_attribute_constant(&arena, &number("300"), INT8, &[]),
        AttributeConstantOutcome::Failed(AttributeConstantFailure::InvalidNumber(NumericError::OutOfRange))
    ));
    assert!(matches!(
        resolve_attribute_constant(&arena, &number("3x"), INT8, &[]),
        AttributeConstantOutcome::Failed(AttributeConstantFailure::InvalidNumber(NumericError::InvalidLiteral))
    ));
    assert!(matches!(
        resolve_attribute_constant(&arena, &number("3"), STRING, &[]),
        AttributeConstantOutcome::Failed(AttributeConstantFailure::TypeMismatch)
    ));
    assert!(matches!(
        resolve_attribute_constant(&arena, &ConstantExpression::Boolean(true), BOOLEAN, &[]),
        AttributeConstantOutcome::Value(AttributeConstant::Boolean(true))
    ));
    assert!(matches!(
        resolve_attribute_constant(&arena, &ConstantExpression::Nil, NIL, &[]),
        AttributeConstantOutcome::Value(AttributeConstant::Nil)
    ));
    assert!(matches!(
        resolve_attribute_constant(&arena, &ConstantExpression::Nil, INT32, &[]),
        AttributeConstantOutcome::Failed(AttributeConstantFailure::TypeMismatch)
    ));
    let sum = ConstantExpression::Binary {
        operator: BinaryOperator::Add,
        left: Box::new(number("1")),
        right: Box::new(number("2")),
    };
    assert!(matches!(
        resolve_attribute_constant(&arena, &sum, INT32, &[]),
        AttributeConstantOutcome::Failed(AttributeConstantFailure::TypeMismatch)
    ));
}

#[test]
fn attribute_strings_lose_their_quotes() {
    let arena = TypeArena::new();
    assert_eq!(string_of(&resolve_attribute_constant(&arena, &text("\"hi\""), STRING, &[])), Some("hi".to_string()));
    assert_eq!(string_of(&resolve_attribute_constant(&arena, &text("\"\""), STRING, &[])), Some(String::new()));
    assert_eq!(string_of(&resolve_attribute_constant(&arena, &text("x"), STRING, &[])), Some(String::new()));
    assert_eq!(string_of(&resolve_attribute_constant(&arena, &text("\"é\""), STRING, &[])), Some("é".to_string()));
    assert_eq!(string_of(&resolve_attribute_constant(&arena, &text("é\"x\""), STRING, &[])), Some(String::new()));
    assert!(matches!(
        resolve_attribute_constant(&arena, &text("\"a\""), INT32, &[]),
        AttributeConstantOutcome::Failed(AttributeConstantFailure::TypeMismatch)
    ));
}

#[test]
fn attribute_tuples_resolve_element_by_element() {
    let mut arena = TypeArena::new();
    let pair = arena.intern(SemanticType::Tuple(vec![INT32, STRING])).unwrap();
    let tuple = ConstantExpression::Tuple(vec![number("1"), text("\"a\"")]);
    match resolve_attribute_constant(&arena, &tuple, pair, &[]) {
        AttributeConstantOutcome::Value(AttributeConstant::Tuple(values)) => {
            assert_eq!(values.len(), 2);
            assert!(matches!(&values[0], AttributeConstant::Integer(v) if v.signed() == Some(1)));
            assert!(matches!(&values[1], AttributeConstant::String(s) if s == "a"));
        }
        other => panic!("unexpected {other:?}"),
    }
    let short = ConstantExpression::Tuple(vec![number("1")]);
    assert!(matches!(
        resolve_attribute_constant(&arena, &short, pair, &[]),
        AttributeConstantOutcome::Failed(AttributeConstantFailure::TypeMismatch)
    ));
    let failing = ConstantExpression::Tuple(vec![number("99999999999"), text("\"a\"")]);
    assert!(matches!(
        resolve_attribute_constant(&arena, &failing, pair, &[]),
        AttributeConstantOutcome::Failed(AttributeConstantFailure::InvalidNumber(NumericError::OutOfRange))
    ));
    assert!(matches!(
        resolve_attribute_constant(&arena, &tuple, INT32, &[]),
        AttributeConstantOutcome::Failed(AttributeConstantFailure::TypeMismatch)
    ));
}

#[test]
fn float_attribute_constants_are_parsed_by_the_host() {
    let arena = TypeArena::new();
    match resolve_attribute_constant(&arena, &number("2.5"), FLOAT64, &[]) {
        AttributeConstantOutcome::NeedsHost(FloatRequest::Parse { text, kind }) => {
            assert_eq!(text, "2.5");
            assert_eq!(kind, FloatKind::Float64);
        }
        other => panic!("unexpected {other:?}"),
    }
    let answer = [Ok(FloatValue::Float64(0x4004_0000_0000_0000))];
    assert!(matches!(
        resolve_attribute_constant(&arena, &number("2.5"), FLOAT64, &answer),
        AttributeConstantOutcome::Value(AttributeConstant::Float(FloatValue::Float64(0x4004_0000_0000_0000)))
    ));
    let refused = [Err(NumericError::InvalidLiteral)];
    assert!(matches!(
        resolve_attribute_constant(&arena, &number("2.5"), FLOAT64, &refused),
        AttributeConstantOutcome::Failed(AttributeConstantFailure::InvalidNumber(NumericError::InvalidLiteral))
    ));
}

fn parameter(index: u32, name: &str, parameter_type: TypeId, default: Option<AttributeConstant>) -> AttributeParameterDefinition {
    AttributeParameterDefinition::new(AttributeParameterId(index), name.to_string(), parameter_type, default, span(100 + index))
}

fn parameters() -> Vec<AttributeParameterDefinition> {
    vec![
        parameter(0, "size", INT32, None),
        parameter(1, "label", STRING, Some(AttributeConstant::String("x".to_string()))),
        parameter(2, "enabled", BOOLEAN, None),
    ]
}

fn argument(name: Option<&str>, value: ConstantExpression, at: u32) -> AttributeArgumentSyntax {
    AttributeArgumentSyntax { name: name.map(str::to_string), value, span: span(at) }
}

fn int32(value: &str) -> Option<AttributeConstant> {
    Some(AttributeConstant::Integer(IntegerValue::parse_decimal(value, IntegerKind::Int32).unwrap()))
}

#[test]
fn arguments_supply_parameters_by_position_or_name() {
    let parameters = parameters();
    let arguments = vec![
        argument(None, number("1"), 0),
        argument(Some("enabled"), ConstantExpression::Boolean(true), 1),
        argument(Some("colour"), ConstantExpression::Nil, 2),
        argument(None, text("\"a\""), 3),
        argument(None, number("2"), 4),
        argument(None, number("3"), 5),
    ];
    assert_eq!(
        attribute_argument_slots(&parameters, &arguments),
        vec![
            AttributeArgumentSlot::Parameter(0),
            AttributeArgumentSlot::Parameter(2),
            AttributeArgumentSlot::UnknownName,
            AttributeArgumentSlot::Parameter(1),
            AttributeArgumentSlot::Parameter(2),
            AttributeArgumentSlot::Extra,
        ]
    );
}

#[test]
fn binding_fills_defaults_in_parameter_order() {
    let arena = TypeArena::new();
    let parameters = parameters();
    let arguments = vec![
        argument(Some("enabled"), ConstantExpression::Boolean(true), 7),
        argument(None, number("5"), 3),
    ];
    let evaluations = vec![Some(AttributeConstant::Boolean(true)), int32("5")];
    let bound = bind_attribute_arguments(&arena, &parameters, &arguments, &evaluations).unwrap();
    assert_eq!(bound.len(), 3);
    assert_eq!(bound[0].name(), "size");
    assert!(matches!(bound[0].value(), AttributeConstant::Integer(v) if v.signed() == Some(5)));
    assert_eq!(bound[0].origin(), span(3));
    assert!(!bound[0].is_defaulted());
    assert_eq!(bound[1].name(), "label");
    assert!(matches!(bound[1].value(), AttributeConstant::String(s) if s == "x"));
    assert_eq!(bound[1].origin(), span(101));
    assert!(bound[1].is_defaulted());
    assert_eq!(bound[2].name(), "enabled");
    assert_eq!(bound[2].value_type(), BOOLEAN);
    assert_eq!(bound[2].origin(), span(7));

    let mut definitions = AttributeDefinitions::new();
    definitions.define(AttributeId(4), SymbolId(40), parameters.clone(), span(90));
    let definition = definitions.attribute_definition(SymbolId(40)).unwrap();
    assert_eq!(definition.parameters().len(), 3);
    assert_eq!(definition.parameters()[1].name(), "label");
    let resolved =
        resolve_attribute_use_with_evaluator(&arena, definition, &arguments, &evaluations, span(1)).unwrap();
    assert_eq!(resolved.attribute(), AttributeId(4));
    assert_eq!(resolved.definition(), SymbolId(40));
    assert_eq!(resolved.span(), span(1));
    assert_eq!(resolved.arguments().len(), 3);
}

#[test]
fn binding_reports_every_error() {
    let arena = TypeArena::new();
    let parameters = parameters();
    let arguments = vec![
        argument(None, number("5"), 0),
        argument(Some("size"), number("6"), 1),
        argument(Some("colour"), ConstantExpression::Nil, 2),
        argument(Some("label"), number("1"), 3),
    ];
    let evaluations = vec![int32("5"), int32("6"), None, int32("1")];
    assert_eq!(
        bind_attribute_arguments(&arena, &parameters, &arguments, &evaluations).unwrap_err(),
        vec![
            AttributeArgumentError::DuplicateArgument { argument: 1, parameter: 0 },
            AttributeArgumentError::UnknownArgument { argument: 2 },
            AttributeArgumentError::ArgumentTypeMismatch { argument: 3, parameter: 1 },
            AttributeArgumentError::MissingArgument { parameter: 2 },
        ]
    );
    let arguments = vec![
        argument(None, number("x"), 0),
        argument(None, text("\"a\""), 1),
        argument(None, ConstantExpression::Boolean(false), 2),
        argument(None, number("9"), 3),
    ];
    let evaluations = vec![None, Some(AttributeConstant::String("a".to_string())), Some(AttributeConstant::Boolean(false)), int32("9")];
    assert_eq!(
        bind_attribute_arguments(&arena, &parameters, &arguments, &evaluations).unwrap_err(),
        vec![
            AttributeArgumentError::InvalidArgument { argument: 0, parameter: 0 },
            AttributeArgumentError::ExtraArgument { argument: 3 },
        ]
    );
    let none: Vec<AttributeArgumentSyntax> = Vec::new();
    assert_eq!(
        bind_attribute_arguments(&arena, &parameters, &none, &[]).unwrap_err(),
        vec![
            AttributeArgumentError::MissingArgument { parameter: 0 },
            AttributeArgumentError::MissingArgument { parameter: 2 },
        ]
    );
}

#[test]
fn attribute_resolution_ignores_answers_it_does_not_use() {
    let arena = TypeArena::new();
    let answers = [Ok(FloatValue::Float64(0x4004_0000_0000_0000)), Err(NumericError::Overflow)];
    assert!(matches!(
        resolve_attribute_constant(&arena, &number("2.5"), FLOAT64, &answers),
        AttributeConstantOutcome::Value(AttributeConstant::Float(FloatValue::Float64(0x4004_0000_0000_0000)))
    ));
    assert_eq!(
        integer_of(&resolve_attribute_constant(&arena, &number("7"), INT32, &answers)),
        Some((7, IntegerKind::Int32))
    );
}
