use pop_types::attributes::{
    AttributeAttachmentError, AttributeAttachmentSet, AttributeConstant, AttributeContractError,
    AttributeDefinitions, AttributeQuerySubject,
    AttributeTarget, AttributeUsage, AttributeValidator, ResolvedAttribute,
    ResolvedAttributeArgument,
};
use pop_types::attribute_queries::{
    AttributeQueryError, AttributeQueryIndex, AttributeQueryIndexError, AttributeQueryValue,
    ResolutionFacts,
};
use pop_types::constants::{
    attribute_constant_matches_type, binary_text, default_kind, default_name,
    evaluate_binary_values, evaluate_unary_value, field_default_matches_type, is_numeric,
    numeric_type_for_expected, unary_text, AttributeParameterId, BinaryOperator,
    ConstantEvaluation, ConstantFailure, DefaultKind, FieldDefault, UnaryOperator,
};
use pop_types::actors::{actor_message_safety, ActorMessageSafety, ActorMessageUnsafeKind};
use pop_types::ids::{AttributeId, FunctionId, ModuleId, SourceSpan, SymbolId};
use pop_types::{
    BuiltinTypeId, FloatValue, IntegerKind, IntegerValue, NumericError, SemanticType, TypeArena,
    TypeId,
};

const BOOLEAN: TypeId = TypeId(1);
const INT8: TypeId = TypeId(2);
const INT32: TypeId = TypeId(4);
const FLOAT64: TypeId = TypeId(11);
const STRING: TypeId = TypeId(12);

fn span(start: u32) -> SourceSpan {
    SourceSpan {
        start,
        end: start + 1,
    }
}

fn integer(text: &str, kind: IntegerKind) -> FieldDefault {
    FieldDefault::Integer(IntegerValue::parse_decimal(text, kind).unwrap())
}

fn use_of(attribute: u32, at: u32) -> ResolvedAttribute {
    ResolvedAttribute::new(AttributeId(attribute), SymbolId(attribute), vec![], span(at))
}

#[test]
fn attribute_usage_sorts_and_deduplicates_targets() {
    let usage = AttributeUsage::new(
        vec![
            AttributeTarget::Method,
            AttributeTarget::Function,
            AttributeTarget::Method,
        ],
        true,
    );
    assert_eq!(
        usage.targets(),
        &[AttributeTarget::Function, AttributeTarget::Method]
    );
    assert!(usage.allows(AttributeTarget::Method));
    assert!(!usage.allows(AttributeTarget::Record));
    assert!(usage.is_repeatable());
    let default = AttributeUsage::default();
    assert_eq!(default.targets(), &[AttributeTarget::Namespace]);
    assert!(!default.is_repeatable());
    let all = AttributeTarget::all();
    assert_eq!(all.len(), 13);
    assert_eq!(all[0], AttributeTarget::Namespace);
    assert_eq!(all[12], AttributeTarget::Method);
}

#[test]
fn attribute_definitions_accept_one_usage_and_one_validator() {
    let mut definitions = AttributeDefinitions::new();
    definitions.define(AttributeId(1), SymbolId(10), vec![], span(0));
    let definition = definitions.attribute_definition(SymbolId(10)).unwrap();
    assert_eq!(definition.attribute(), AttributeId(1));
    assert!(!definition.has_explicit_usage());
    assert!(definition.validator().is_none());
    assert_eq!(
        definitions.install_attribute_usage(
            SymbolId(10),
            AttributeUsage::new(vec![AttributeTarget::Function], false)
        ),
        Ok(())
    );
    assert_eq!(
        definitions.install_attribute_usage(SymbolId(10), AttributeUsage::default()),
        Err(AttributeContractError::UsageAlreadySpecified {
            definition: SymbolId(10)
        })
    );
    assert_eq!(
        definitions.install_attribute_usage(SymbolId(11), AttributeUsage::default()),
        Err(AttributeContractError::UnknownDefinition {
            definition: SymbolId(11)
        })
    );
    let validator = AttributeValidator::new(FunctionId(5));
    assert_eq!(validator.function(), FunctionId(5));
    assert_eq!(definitions.install_attribute_validator(SymbolId(10), validator), Ok(()));
    assert_eq!(
        definitions.install_attribute_validator(SymbolId(10), AttributeValidator::new(FunctionId(6))),
        Err(AttributeContractError::ValidatorAlreadySpecified {
            definition: SymbolId(10),
            original: FunctionId(5),
        })
    );
    let definition = definitions.attribute_definition(SymbolId(10)).unwrap();
    assert!(definition.has_explicit_usage());
    assert!(definition.usage().allows(AttributeTarget::Function));
    assert_eq!(definition.validator().map(AttributeValidator::function), Some(FunctionId(5)));
    assert!(definitions.attribute_definition(SymbolId(99)).is_none());
}

#[test]
fn attachments_are_checked_for_target_and_repetition() {
    let mut definitions = AttributeDefinitions::new();
    definitions.define(AttributeId(1), SymbolId(1), vec![], span(0));
    definitions.define(AttributeId(2), SymbolId(2), vec![], span(0));
    definitions
        .install_attribute_usage(
            SymbolId(1),
            AttributeUsage::new(vec![AttributeTarget::Function], false),
        )
        .unwrap();
    definitions
        .install_attribute_usage(
            SymbolId(2),
            AttributeUsage::new(vec![AttributeTarget::Function], true),
        )
        .unwrap();
    let accepted = definitions.validate_attribute_attachments(
        AttributeTarget::Function,
        vec![use_of(1, 10), use_of(2, 20), use_of(2, 30)],
    );
    assert!(accepted.errors().is_empty());
    let set = accepted.attachment_set().unwrap();
    assert_eq!(set.attachments().len(), 3);
    assert_eq!(set.attributes(AttributeId(2)).len(), 2);
    assert_eq!(set.attributes(AttributeId(2))[1].span(), span(30));
    let refused = definitions.validate_attribute_attachments(
        AttributeTarget::Function,
        vec![use_of(1, 10), use_of(3, 15), use_of(1, 20)],
    );
    assert!(refused.attachment_set().is_none());
    assert_eq!(
        refused.errors(),
        &[
            AttributeAttachmentError::UnknownAttribute {
                attribute: AttributeId(3),
                span: span(15),
            },
            AttributeAttachmentError::NonRepeatableDuplicate {
                attribute: AttributeId(1),
                first: span(10),
                duplicate: span(20),
            },
        ]
    );
    let wrong = definitions
        .validate_attribute_attachments(AttributeTarget::Record, vec![use_of(2, 5)]);
    assert_eq!(
        wrong.errors(),
        &[AttributeAttachmentError::WrongTarget {
            attribute: AttributeId(2),
            target: AttributeTarget::Record,
            span: span(5),
        }]
    );
}

#[test]
fn resolved_arguments_keep_their_values() {
    let argument = ResolvedAttributeArgument::new(
        "limit".to_string(),
        AttributeConstant::Boolean(true),
        BOOLEAN,
        span(3),
        true,
    );
    assert_eq!(argument.name(), "limit");
    assert!(matches!(argument.value(), AttributeConstant::Boolean(true)));
    assert_eq!(argument.value_type(), BOOLEAN);
    assert_eq!(argument.origin(), span(3));
    assert!(argument.is_defaulted());
    let attribute = ResolvedAttribute::new(AttributeId(4), SymbolId(8), vec![argument], span(1));
    assert_eq!(attribute.attribute(), AttributeId(4));
    assert_eq!(attribute.definition(), SymbolId(8));
    assert_eq!(attribute.arguments().len(), 1);
}

#[test]
fn constants_match_their_declared_types() {
    let mut arena = TypeArena::new();
    let optional = arena.optional(INT32).unwrap();
    let pair = arena.intern(SemanticType::Tuple(vec![INT32, STRING])).unwrap();
    assert!(field_default_matches_type(&arena, &integer("4", IntegerKind::Int32), INT32));
    assert!(!field_default_matches_type(&arena, &integer("4", IntegerKind::Int8), INT32));
    assert!(field_default_matches_type(&arena, &FieldDefault::Nil, optional));
    assert!(field_default_matches_type(&arena, &integer("4", IntegerKind::Int32), optional));
    assert!(!field_default_matches_type(&arena, &FieldDefault::Nil, INT32));
    assert!(field_default_matches_type(
        &arena,
        &FieldDefault::String("x".to_string()),
        STRING
    ));
    assert!(attribute_constant_matches_type(
        &arena,
        &AttributeConstant::Tuple(vec![
            AttributeConstant::Integer(IntegerValue::parse_decimal("1", IntegerKind::Int32).unwrap()),
            AttributeConstant::String("a".to_string()),
        ]),
        pair
    ));
    assert!(!attribute_constant_matches_type(
        &arena,
        &AttributeConstant::Tuple(vec![AttributeConstant::Nil]),
        pair
    ));
    assert!(is_numeric(&arena, FLOAT64));
    assert!(!is_numeric(&arena, STRING));
    assert_eq!(numeric_type_for_expected(&arena, INT8), Some(INT8));
    assert_eq!(numeric_type_for_expected(&arena, optional), Some(INT32));
    assert_eq!(numeric_type_for_expected(&arena, STRING), None);
}

#[test]
fn integer_operators_are_evaluated_exactly() {
    let arena = TypeArena::new();
    let sum = evaluate_binary_values(
        &arena,
        BinaryOperator::Add,
        INT32,
        integer("40", IntegerKind::Int32),
        integer("2", IntegerKind::Int32),
    );
    match sum {
        ConstantEvaluation::Value {
            value: FieldDefault::Integer(value),
            type_id,
        } => {
            assert_eq!(value.signed(), Some(42));
            assert_eq!(type_id, INT32);
        }
        other => panic!("unexpected {other:?}"),
    }
    assert!(matches!(
        evaluate_binary_values(
            &arena,
            BinaryOperator::Add,
            INT8,
            integer("100", IntegerKind::Int8),
            integer("100", IntegerKind::Int8),
        ),
        ConstantEvaluation::Failed(ConstantFailure::Numeric(NumericError::Overflow))
    ));
    assert!(matches!(
        evaluate_binary_values(
            &arena,
            BinaryOperator::Divide,
            INT32,
            integer("1", IntegerKind::Int32),
            integer("0", IntegerKind::Int32),
        ),
        ConstantEvaluation::Failed(ConstantFailure::Numeric(NumericError::DivisionByZero))
    ));
    assert!(matches!(
        evaluate_binary_values(
            &arena,
            BinaryOperator::LessThan,
            INT32,
            integer("1", IntegerKind::Int32),
            integer("2", IntegerKind::Int32),
        ),
        ConstantEvaluation::Value {
            value: FieldDefault::Boolean(true),
            type_id: BOOLEAN,
        }
    ));
    assert!(matches!(
        evaluate_binary_values(
            &arena,
            BinaryOperator::GreaterThan,
            INT32,
            integer("1", IntegerKind::Int32),
            integer("2", IntegerKind::Int8),
        ),
        ConstantEvaluation::Failed(ConstantFailure::Unordered)
    ));
}

#[test]
fn boolean_equality_and_invalid_operators() {
    let arena = TypeArena::new();
    assert!(matches!(
        evaluate_binary_values(
            &arena,
            BinaryOperator::And,
            BOOLEAN,
            FieldDefault::Boolean(true),
            FieldDefault::Boolean(false),
        ),
        ConstantEvaluation::Value {
            value: FieldDefault::Boolean(false),
            ..
        }
    ));
    assert!(matches!(
        evaluate_binary_values(
            &arena,
            BinaryOperator::Equal,
            STRING,
            FieldDefault::String("a".to_string()),
            FieldDefault::String("a".to_string()),
        ),
        ConstantEvaluation::Value {
            value: FieldDefault::Boolean(true),
            ..
        }
    ));
    assert!(matches!(
        evaluate_binary_values(
            &arena,
            BinaryOperator::NotEqual,
            STRING,
            FieldDefault::Nil,
            FieldDefault::String("a".to_string()),
        ),
        ConstantEvaluation::Value {
            value: FieldDefault::Boolean(true),
            ..
        }
    ));
    assert!(matches!(
        evaluate_binary_values(
            &arena,
            BinaryOperator::Add,
            STRING,
            FieldDefault::String("a".to_string()),
            FieldDefault::String("b".to_string()),
        ),
        ConstantEvaluation::Failed(ConstantFailure::InvalidBinaryOperator {
            operator: BinaryOperator::Add,
            left: DefaultKind::String,
            right: DefaultKind::String,
        })
    ));
    let one = FloatValue::Float64(1.0f64.to_bits());
    assert!(matches!(
        evaluate_binary_values(
            &arena,
            BinaryOperator::Equal,
            FLOAT64,
            FieldDefault::Float(one),
            FieldDefault::Float(one),
        ),
        ConstantEvaluation::Failed(ConstantFailure::InvalidBinaryOperator { .. })
    ));
    assert!(matches!(
        evaluate_binary_values(
            &arena,
            BinaryOperator::Add,
            FLOAT64,
            FieldDefault::Float(one),
            FieldDefault::Float(one),
        ),
        ConstantEvaluation::FloatArithmetic {
            operator: BinaryOperator::Add,
            ..
        }
    ));
    assert!(matches!(
        evaluate_binary_values(
            &arena,
            BinaryOperator::Multiply,
            FLOAT64,
            FieldDefault::Float(one),
            FieldDefault::Float(FloatValue::Float32(1.0f32.to_bits())),
        ),
        ConstantEvaluation::Failed(ConstantFailure::Numeric(NumericError::KindMismatch))
    ));
    assert!(matches!(
        evaluate_binary_values(
            &arena,
            BinaryOperator::LessThan,
            FLOAT64,
            FieldDefault::Float(one),
            FieldDefault::Float(FloatValue::Float64(f64::NAN.to_bits())),
        ),
        ConstantEvaluation::Value {
            value: FieldDefault::Boolean(false),
            ..
        }
    ));
}

#[test]
fn unary_operators_negate_and_invert() {
    let arena = TypeArena::new();
    match evaluate_unary_value(&arena, UnaryOperator::Negate, INT32, integer("5", IntegerKind::Int32)) {
        ConstantEvaluation::Value {
            value: FieldDefault::Integer(value),
            ..
        } => assert_eq!(value.signed(), Some(-5)),
        other => panic!("unexpected {other:?}"),
    }
    assert!(matches!(
        evaluate_unary_value(&arena, UnaryOperator::Not, BOOLEAN, FieldDefault::Boolean(false)),
        ConstantEvaluation::Value {
            value: FieldDefault::Boolean(true),
            type_id: BOOLEAN,
        }
    ));
    match evaluate_unary_value(
        &arena,
        UnaryOperator::Negate,
        FLOAT64,
        FieldDefault::Float(FloatValue::Float64(2.0f64.to_bits())),
    ) {
        ConstantEvaluation::Value {
            value: FieldDefault::Float(value),
            ..
        } => assert_eq!(value, FloatValue::Float64((-2.0f64).to_bits())),
        other => panic!("unexpected {other:?}"),
    }
    assert!(matches!(
        evaluate_unary_value(&arena, UnaryOperator::Not, STRING, FieldDefault::String("x".to_string())),
        ConstantEvaluation::Failed(ConstantFailure::InvalidUnaryOperator {
            operator: UnaryOperator::Not,
            operand: DefaultKind::String,
        })
    ));
    assert!(matches!(
        evaluate_unary_value(&arena, UnaryOperator::Negate, INT8, integer("-128", IntegerKind::Int8)),
        ConstantEvaluation::Failed(ConstantFailure::Numeric(NumericError::Overflow))
    ));
}

#[test]
fn operator_and_default_spellings() {
    assert_eq!(unary_text(UnaryOperator::Not), "not");
    assert_eq!(unary_text(UnaryOperator::Negate), "-");
    assert_eq!(binary_text(BinaryOperator::NotEqual), "~=");
    assert_eq!(binary_text(BinaryOperator::Remainder), "%");
    assert_eq!(default_name(&FieldDefault::Nil), "nil");
    assert_eq!(default_name(&integer("1", IntegerKind::Int8)), "integer");
    assert_eq!(default_kind(&FieldDefault::Boolean(true)), DefaultKind::Boolean);
    assert_eq!(AttributeParameterId::from_raw(3).raw(), 3);
}

#[test]
fn actor_messages_must_not_carry_unsafe_types() {
    let mut arena = TypeArena::new();
    let array = arena.intern(SemanticType::Array(INT32)).unwrap();
    let pair = arena.intern(SemanticType::Tuple(vec![INT32, STRING])).unwrap();
    let nested = arena.intern(SemanticType::Tuple(vec![pair, array])).unwrap();
    let optional = arena.optional(pair).unwrap();
    let check = |arena: &TypeArena, payloads: &[(TypeId, Vec<TypeId>)], id: TypeId| {
        actor_message_safety(arena, payloads, BuiltinTypeId(300), BuiltinTypeId(301), id)
    };
    assert_eq!(check(&arena, &[], INT32), ActorMessageSafety::Safe);
    assert_eq!(check(&arena, &[], optional), ActorMessageSafety::Safe);
    assert_eq!(
        check(&arena, &[], nested),
        ActorMessageSafety::Unsafe {
            type_id: array,
            kind: ActorMessageUnsafeKind::MutableCollection,
        }
    );
    assert_eq!(
        check(&arena, &[], TypeId(999)),
        ActorMessageSafety::Unsafe {
            type_id: TypeId(999),
            kind: ActorMessageUnsafeKind::UnknownType,
        }
    );
}

#[test]
fn actor_safety_reports_the_first_unsafe_type_in_order() {
    let mut arena = TypeArena::new();
    let array = arena.intern(SemanticType::Array(INT32)).unwrap();
    let parameter = arena
        .intern(SemanticType::TypeParameter(pop_types::ids::ParameterId(0)))
        .unwrap();
    let inner = arena.intern(SemanticType::Tuple(vec![INT32, parameter])).unwrap();
    let outer = arena.intern(SemanticType::Tuple(vec![inner, array])).unwrap();
    let swapped = arena.intern(SemanticType::Tuple(vec![array, inner])).unwrap();
    let check = |id: TypeId| actor_message_safety(&arena, &[], BuiltinTypeId(300), BuiltinTypeId(301), id);
    assert_eq!(
        check(outer),
        ActorMessageSafety::Unsafe {
            type_id: parameter,
            kind: ActorMessageUnsafeKind::TypeParameter,
        }
    );
    assert_eq!(
        check(swapped),
        ActorMessageSafety::Unsafe {
            type_id: array,
            kind: ActorMessageUnsafeKind::MutableCollection,
        }
    );
}

#[test]
fn recursive_tagged_unions_are_checked_through_their_cases() {
    let mut arena = TypeArena::new();
    let list = arena
        .intern(SemanticType::TaggedUnion {
            definition: SymbolId(1),
            source: SymbolId(1),
            arguments: vec![],
        })
        .unwrap();
    let callback = arena
        .intern(SemanticType::Function {
            is_async: false,
            parameters: vec![],
            results: vec![],
            effects: pop_types::EffectSummary::empty(),
            lifetime_summary: pop_types::CallableLifetimeSummary::non_retaining(0, 0),
        })
        .unwrap();
    let reference = arena
        .intern(SemanticType::Builtin {
            definition: BuiltinTypeId(300),
            arguments: vec![list],
        })
        .unwrap();
    let other = arena
        .intern(SemanticType::Builtin {
            definition: BuiltinTypeId(5),
            arguments: vec![],
        })
        .unwrap();
    let safe_cases = vec![(list, vec![STRING, list])];
    let unsafe_cases = vec![(list, vec![list, callback])];
    let check = |payloads: &[(TypeId, Vec<TypeId>)], id: TypeId| {
        actor_message_safety(&arena, payloads, BuiltinTypeId(300), BuiltinTypeId(301), id)
    };
    assert_eq!(check(&safe_cases, list), ActorMessageSafety::Safe);
    assert_eq!(check(&safe_cases, reference), ActorMessageSafety::Safe);
    assert_eq!(
        check(&unsafe_cases, reference),
        ActorMessageSafety::Unsafe {
            type_id: callback,
            kind: ActorMessageUnsafeKind::Callable,
        }
    );
    assert_eq!(
        check(&[], list),
        ActorMessageSafety::Unsafe {
            type_id: list,
            kind: ActorMessageUnsafeKind::UnknownType,
        }
    );
    assert_eq!(
        check(&[], other),
        ActorMessageSafety::Unsafe {
            type_id: other,
            kind: ActorMessageUnsafeKind::Builtin,
        }
    );
}

#[test]
fn actor_message_safety_names_the_unsafe_part() {
    let safety = ActorMessageSafety::Unsafe {
        type_id: TypeId(20),
        kind: ActorMessageUnsafeKind::Callable,
    };
    assert_ne!(safety, ActorMessageSafety::Safe);
}

fn query_index() -> AttributeQueryIndex {
    let mut definitions = AttributeDefinitions::new();
    definitions.define(AttributeId(1), SymbolId(10), vec![], span(0));
    definitions.define(AttributeId(2), SymbolId(20), vec![], span(0));
    definitions.define(AttributeId(3), SymbolId(30), vec![], span(0));
    definitions
        .install_attribute_usage(
            SymbolId(20),
            AttributeUsage::new(vec![AttributeTarget::Namespace], true),
        )
        .unwrap();
    let facts = ResolutionFacts::new(
        vec![ModuleId(1), ModuleId(2)],
        vec![SymbolId(10), SymbolId(20), SymbolId(30), SymbolId(40), SymbolId(50)],
        vec![
            (SymbolId(10), ModuleId(1)),
            (SymbolId(20), ModuleId(1)),
            (SymbolId(40), ModuleId(1)),
            (SymbolId(10), ModuleId(2)),
            (SymbolId(20), ModuleId(2)),
        ],
    );
    definitions.attribute_query_index(facts)
}

fn accepted(
    definitions: &AttributeDefinitions,
    attachments: Vec<ResolvedAttribute>,
) -> AttributeAttachmentSet {
    definitions
        .validate_attribute_attachments(AttributeTarget::Namespace, attachments)
        .into_attachment_set()
        .expect("accepted attachments")
}

fn query_definitions() -> AttributeDefinitions {
    let mut definitions = AttributeDefinitions::new();
    definitions.define(AttributeId(1), SymbolId(10), vec![], span(0));
    definitions.define(AttributeId(2), SymbolId(20), vec![], span(0));
    definitions.define(AttributeId(3), SymbolId(30), vec![], span(0));
    definitions
        .install_attribute_usage(
            SymbolId(20),
            AttributeUsage::new(vec![AttributeTarget::Namespace], true),
        )
        .unwrap();
    definitions
}

#[test]
fn attribute_queries_answer_by_repeatability() {
    let definitions = query_definitions();
    let mut index = query_index();
    let attachments = accepted(&definitions, vec![use_of(1, 1), use_of(2, 2), use_of(2, 3)]);
    assert_eq!(index.insert_symbol(SymbolId(40), attachments), Ok(()));
    let subject = AttributeQuerySubject::Symbol(SymbolId(40));
    assert_eq!(index.has_attribute(ModuleId(1), subject, AttributeId(1)), Ok(true));
    match index.attribute(ModuleId(1), subject, AttributeId(2)).unwrap() {
        AttributeQueryValue::ImmutableSequence(all) => {
            assert_eq!(all.len(), 2);
            assert_eq!(all[1].span(), span(3));
        }
        other => panic!("unexpected {other:?}"),
    }
    match index.attribute(ModuleId(1), subject, AttributeId(1)).unwrap() {
        AttributeQueryValue::Optional(Some(one)) => assert_eq!(one.span(), span(1)),
        other => panic!("unexpected {other:?}"),
    }
    assert_eq!(
        index.insert_symbol(SymbolId(40), accepted(&definitions, vec![])),
        Err(AttributeQueryIndexError::DuplicateSubject { subject })
    );
    assert_eq!(
        index.insert_type(TypeId(9), SymbolId(99), accepted(&definitions, vec![])),
        Err(AttributeQueryIndexError::MissingVisibilityDefinition { definition: SymbolId(99) })
    );
    assert_eq!(
        index.insert_type(TypeId(9), SymbolId(50), accepted(&definitions, vec![])),
        Ok(())
    );
    let typed = AttributeQuerySubject::Type(TypeId(9));
    assert_eq!(
        index.has_attribute(ModuleId(2), subject, AttributeId(1)),
        Err(AttributeQueryError::InaccessibleSubject {
            subject,
            definition: SymbolId(40),
        })
    );
    assert_eq!(
        index.has_attribute(ModuleId(1), typed, AttributeId(1)),
        Err(AttributeQueryError::InaccessibleSubject {
            subject: typed,
            definition: SymbolId(50),
        })
    );
}

#[test]
fn attribute_queries_check_access_in_order() {
    let index = query_index();
    let subject = AttributeQuerySubject::Symbol(SymbolId(40));
    assert_eq!(
        index.has_attribute(ModuleId(7), subject, AttributeId(9)),
        Err(AttributeQueryError::UnknownModule { module: ModuleId(7) })
    );
    assert_eq!(
        index.has_attribute(ModuleId(1), subject, AttributeId(9)),
        Err(AttributeQueryError::UnknownAttribute { attribute: AttributeId(9) })
    );
    assert_eq!(
        index.has_attribute(ModuleId(1), subject, AttributeId(3)),
        Err(AttributeQueryError::InaccessibleAttribute {
            attribute: AttributeId(3),
            definition: SymbolId(30),
        })
    );
    assert_eq!(
        index.has_attribute(ModuleId(1), subject, AttributeId(1)),
        Err(AttributeQueryError::UnknownSubject { subject })
    );
}
