use pop_types::arena::TypeArenaSnapshotError;
use pop_types::ids::{ClassId, ParameterId};
use pop_types::lifetime::CallableLifetimeSummary;
use pop_types::specializations::{ClassSpecializations, TypeSubstitutions};
use pop_types::{
    BuiltinTypeId, EffectSummary, IntegerKind, PrimitiveType, SemanticType, TypeArena,
    TypeArenaError, TypeId, ViewKind,
};

const NIL: TypeId = TypeId(0);
const BOOLEAN: TypeId = TypeId(1);
const INT32: TypeId = TypeId(4);
const INT64: TypeId = TypeId(5);
const FLOAT64: TypeId = TypeId(11);
const STRING: TypeId = TypeId(12);
const NEVER: TypeId = TypeId(13);

fn union_members(arena: &TypeArena, id: TypeId) -> Vec<TypeId> {
    match arena.get(id) {
        Some(SemanticType::Union(members)) => members.clone(),
        other => panic!("expected a union, found {other:?}"),
    }
}

#[test]
fn new_arena_interns_every_primitive_once() {
    let arena = TypeArena::new();
    assert_eq!(arena.len(), 14);
    assert!(!arena.is_empty());
    assert_eq!(arena.source_type("nil"), Some(NIL));
    assert_eq!(arena.source_type("Int"), Some(INT64));
    assert_eq!(arena.source_type("Int64"), Some(INT64));
    assert_eq!(arena.source_type("Float"), Some(FLOAT64));
    assert_eq!(arena.source_type("Never"), Some(NEVER));
    assert_eq!(arena.source_type("Int128"), None);
    assert!(matches!(
        arena.get(INT32),
        Some(SemanticType::Primitive(PrimitiveType::Integer(IntegerKind::Int32)))
    ));
    assert_eq!(
        arena.find(&SemanticType::Primitive(PrimitiveType::String)),
        Some(STRING)
    );
    assert!(arena.get(TypeId(14)).is_none());
    assert_eq!(TypeArena::default().len(), 14);
}

#[test]
fn intern_returns_the_existing_identity() {
    let mut arena = TypeArena::new();
    let array = arena.intern(SemanticType::Array(INT32)).unwrap();
    assert_eq!(array, TypeId(14));
    assert_eq!(arena.intern(SemanticType::Array(INT32)), Ok(array));
    assert_eq!(arena.len(), 15);
    let table = arena
        .intern(SemanticType::Table {
            key: STRING,
            value: array,
        })
        .unwrap();
    assert_eq!(table, TypeId(15));
    assert_eq!(arena.find(&SemanticType::Array(INT32)), Some(array));
}

#[test]
fn interning_a_copy_again_changes_nothing() {
    let mut arena = TypeArena::new();
    let record = SemanticType::Record(vec![
        ("y".to_string(), STRING),
        ("x".to_string(), INT32),
    ]);
    let first = arena.intern(record.clone()).unwrap();
    let count = arena.len();
    assert_eq!(arena.intern(record.clone()), Ok(first));
    assert_eq!(arena.len(), count);
    let union = SemanticType::Union(vec![STRING, INT32, STRING]);
    let joined = arena.intern(union.clone()).unwrap();
    let count = arena.len();
    assert_eq!(arena.intern(union), Ok(joined));
    assert_eq!(arena.len(), count);
    let copy = arena.clone();
    assert_eq!(copy.len(), arena.len());
    assert_eq!(copy.find(&SemanticType::Union(vec![INT32, STRING])), Some(joined));
}

#[test]
fn intern_rejects_unknown_identities() {
    let mut arena = TypeArena::new();
    assert_eq!(
        arena.intern(SemanticType::Tuple(vec![INT32, TypeId(99), TypeId(40)])),
        Err(TypeArenaError::UnknownTypeId(TypeId(99)))
    );
    assert_eq!(arena.len(), 14);
    assert_eq!(
        arena.register_class_specialization(ClassId(1), vec![INT32], TypeId(77)),
        Err(TypeArenaError::UnknownTypeId(TypeId(77)))
    );
}

#[test]
fn record_fields_are_ordered_by_name() {
    let mut arena = TypeArena::new();
    let first = arena
        .intern(SemanticType::Record(vec![
            ("name".to_string(), STRING),
            ("age".to_string(), INT32),
        ]))
        .unwrap();
    let second = arena
        .intern(SemanticType::Record(vec![
            ("age".to_string(), INT32),
            ("name".to_string(), STRING),
        ]))
        .unwrap();
    assert_eq!(first, second);
    match arena.get(first) {
        Some(SemanticType::Record(fields)) => {
            let names: Vec<&str> = fields.iter().map(|(name, _)| name.as_str()).collect();
            assert_eq!(names, vec!["age", "name"]);
        }
        other => panic!("expected a record, found {other:?}"),
    }
}

#[test]
fn unions_are_flattened_sorted_and_deduplicated() {
    let mut arena = TypeArena::new();
    let a = arena.union(vec![STRING, INT32, STRING]).unwrap();
    assert_eq!(union_members(&arena, a), vec![INT32, STRING]);
    let b = arena.union(vec![INT32, STRING]).unwrap();
    assert_eq!(a, b);
    let nested = arena.union(vec![a, BOOLEAN, NEVER]).unwrap();
    assert_eq!(union_members(&arena, nested), vec![BOOLEAN, INT32, STRING]);
    assert_eq!(arena.union(vec![INT32, NEVER]), Ok(INT32));
    assert_eq!(arena.union(vec![]), Ok(NEVER));
    assert_eq!(arena.union(vec![NEVER, NEVER]), Ok(NEVER));
    assert_eq!(
        arena.union(vec![TypeId(50), TypeId(60)]),
        Err(TypeArenaError::UnknownTypeId(TypeId(60)))
    );
    assert_eq!(arena.intern(SemanticType::Union(vec![STRING, INT32])), Ok(a));
}

#[test]
fn optional_is_a_union_with_nil() {
    let mut arena = TypeArena::new();
    let optional = arena.optional(INT32).unwrap();
    assert_eq!(union_members(&arena, optional), vec![NIL, INT32]);
    assert_eq!(arena.optional(optional), Ok(optional));
    assert_eq!(arena.optional(NIL), Ok(NIL));
    assert_eq!(arena.intern(SemanticType::Optional(INT32)), Ok(optional));
    assert_eq!(
        arena.optional(TypeId(70)),
        Err(TypeArenaError::UnknownTypeId(TypeId(70)))
    );
}

#[test]
fn views_and_type_parameters_are_found_at_any_depth() {
    let mut arena = TypeArena::new();
    let bytes = arena
        .intern(SemanticType::Builtin {
            definition: BuiltinTypeId(122),
            arguments: vec![],
        })
        .unwrap();
    let text = arena
        .intern(SemanticType::Builtin {
            definition: BuiltinTypeId(123),
            arguments: vec![],
        })
        .unwrap();
    assert_eq!(arena.view_kind(bytes), Some(ViewKind::Bytes));
    assert_eq!(arena.view_kind(text), Some(ViewKind::Text));
    assert_eq!(arena.view_kind(INT32), None);
    let array = arena.intern(SemanticType::Array(text)).unwrap();
    let tuple = arena.intern(SemanticType::Tuple(vec![INT32, array])).unwrap();
    assert!(arena.contains_view(tuple));
    assert!(!arena.contains_view(INT32));
    let parameter = arena
        .intern(SemanticType::TypeParameter(ParameterId(0)))
        .unwrap();
    let optional = arena.optional(parameter).unwrap();
    assert!(arena.contains_type_parameter(optional));
    assert!(!arena.contains_type_parameter(tuple));
    assert!(!arena.contains_type_parameter(TypeId(900)));
    assert_eq!(ViewKind::Bytes.type_definition(), BuiltinTypeId(122));
}

#[test]
fn compile_time_attribute_types_are_not_lowered() {
    let mut arena = TypeArena::new();
    let attribute = arena
        .intern(SemanticType::Attribute {
            attribute: pop_types::ids::AttributeId(3),
            parameters: vec![INT32],
        })
        .unwrap();
    assert!(!arena.is_valid_hir_type(attribute));
    assert!(arena.is_valid_compile_time_type(attribute));
    assert!(arena.is_valid_hir_type(INT32));
    assert!(!arena.is_valid_hir_type(TypeId(500)));
}

#[test]
fn substitution_reuses_existing_types() {
    let mut arena = TypeArena::new();
    let parameter = arena
        .intern(SemanticType::TypeParameter(ParameterId(7)))
        .unwrap();
    let generic = arena.intern(SemanticType::Array(parameter)).unwrap();
    let concrete = arena.intern(SemanticType::Array(INT32)).unwrap();
    let mut substitutions = TypeSubstitutions::new();
    substitutions.insert(ParameterId(7), INT32);
    assert_eq!(substitutions.get(ParameterId(7)), Some(INT32));
    assert_eq!(arena.substitute_existing(generic, &substitutions), Some(concrete));
    assert_eq!(arena.substitute_existing(INT32, &substitutions), Some(INT32));
    let mut other = TypeSubstitutions::new();
    other.insert(ParameterId(7), STRING);
    assert_eq!(arena.substitute_existing(generic, &other), None);
    assert_eq!(arena.substitute_existing(parameter, &TypeSubstitutions::new()), None);
}

#[test]
fn class_substitution_follows_registered_specializations() {
    let mut arena = TypeArena::new();
    let parameter = arena
        .intern(SemanticType::TypeParameter(ParameterId(1)))
        .unwrap();
    let template = arena
        .intern(SemanticType::Class {
            class: ClassId(4),
            arguments: vec![parameter],
        })
        .unwrap();
    let instance = arena
        .intern(SemanticType::Class {
            class: ClassId(5),
            arguments: vec![],
        })
        .unwrap();
    assert_eq!(
        arena.register_class_specialization(ClassId(4), vec![INT32], instance),
        Ok(())
    );
    assert_eq!(
        arena.class_specializations().len(),
        1
    );
    let mut substitutions = TypeSubstitutions::new();
    substitutions.insert(ParameterId(1), INT32);
    assert_eq!(arena.substitute_existing(template, &substitutions), Some(instance));
    let mut classes = ClassSpecializations::new();
    assert_eq!(
        arena.substitute_existing_with_classes(template, &substitutions, &classes),
        None
    );
    classes.insert(ClassId(4), vec![INT32], instance);
    assert_eq!(classes.get(ClassId(4), &[INT32]), Some(instance));
    assert_eq!(classes.first_class_of_instance(instance), Some(ClassId(4)));
    assert_eq!(
        arena.substitute_existing_with_classes(template, &substitutions, &classes),
        Some(instance)
    );
}

#[test]
fn snapshot_round_trip_restores_the_arena() {
    let mut arena = TypeArena::new();
    let array = arena.intern(SemanticType::Array(STRING)).unwrap();
    let function = arena
        .intern(SemanticType::Function {
            is_async: false,
            parameters: vec![array],
            results: vec![INT32],
            effects: EffectSummary::empty(),
            lifetime_summary: CallableLifetimeSummary::non_retaining(1, 1),
        })
        .unwrap();
    let class = arena
        .intern(SemanticType::Class {
            class: ClassId(2),
            arguments: vec![],
        })
        .unwrap();
    arena
        .register_class_specialization(ClassId(9), vec![INT32], class)
        .unwrap();
    let (types, specializations) = arena.to_snapshot();
    let restored = TypeArena::from_snapshot(types, specializations).unwrap();
    assert_eq!(restored.len(), arena.len());
    assert_eq!(
        restored.find(&SemanticType::Array(STRING)),
        Some(array)
    );
    assert!(matches!(
        restored.get(function),
        Some(SemanticType::Function { is_async: false, .. })
    ));
    assert_eq!(restored.class_specializations().len(), 1);
}

#[test]
fn snapshot_refusals_name_the_broken_invariant() {
    let (mut types, _) = TypeArena::new().to_snapshot();
    types.truncate(5);
    assert_eq!(
        TypeArena::from_snapshot(types, vec![]).err(),
        Some(TypeArenaSnapshotError::InvalidPrimitivePrefix)
    );
    let (mut types, _) = TypeArena::new().to_snapshot();
    types.push(SemanticType::Array(TypeId(20)));
    assert_eq!(
        TypeArena::from_snapshot(types, vec![]).err(),
        Some(TypeArenaSnapshotError::InvalidTypeDependency)
    );
    let (mut types, _) = TypeArena::new().to_snapshot();
    types.push(SemanticType::Array(INT32));
    types.push(SemanticType::Array(INT32));
    assert_eq!(
        TypeArena::from_snapshot(types, vec![]).err(),
        Some(TypeArenaSnapshotError::NoncanonicalTypeArena)
    );
    let (types, _) = TypeArena::new().to_snapshot();
    assert_eq!(
        TypeArena::from_snapshot(types, vec![(ClassId(1), vec![], TypeId(30))]).err(),
        Some(TypeArenaSnapshotError::InvalidClassSpecialization)
    );
    assert_eq!(
        TypeArenaSnapshotError::NoncanonicalTypeArena.message(),
        "noncanonical type arena"
    );
}

#[test]
fn stored_unions_are_normalized_on_restore() {
    let (mut types, _) = TypeArena::new().to_snapshot();
    types.push(SemanticType::Union(vec![STRING, INT32]));
    let restored = TypeArena::from_snapshot(types, vec![]).unwrap();
    assert_eq!(union_members(&restored, TypeId(14)), vec![INT32, STRING]);
}

#[test]
fn the_present_part_of_an_optional_leaves_out_nil() {
    let mut arena = TypeArena::new();
    let int32 = TypeId(4);
    let string = TypeId(12);
    let optional = arena.optional(int32).unwrap();
    assert_eq!(arena.optional_inner(optional), Some(int32));
    let either = arena.union(vec![int32, string]).unwrap();
    let optional_either = arena.union(vec![int32, string, TypeId(0)]).unwrap();
    assert_eq!(arena.optional_inner(optional_either), Some(either));
    assert_eq!(arena.optional_inner(either), None);
    assert_eq!(arena.optional_inner(int32), None);
    assert_eq!(arena.optional_inner(TypeId(9999)), None);
}
