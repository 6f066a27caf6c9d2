use pop_types::ids::{ClassId, SymbolId};
use pop_types::operators::{
    equality_comparable, is_integer, is_negatable_numeric, numeric_target, supports_default_equality,
    NumericTarget,
};
use pop_types::{FloatKind, IntegerKind, SemanticType, TypeArena, TypeId};

const NIL: TypeId = TypeId(0);
const BOOLEAN: TypeId = TypeId(1);
const INT32: TypeId = TypeId(4);
const UINT8: TypeId = TypeId(6);
const FLOAT32: TypeId = TypeId(10);
const STRING: TypeId = TypeId(12);
const NEVER: TypeId = TypeId(13);

#[test]
fn numeric_targets_follow_the_primitive() {
    let arena = TypeArena::new();
    assert_eq!(numeric_target(&arena, INT32), Some(NumericTarget::Integer(IntegerKind::Int32)));
    assert_eq!(numeric_target(&arena, FLOAT32), Some(NumericTarget::Float(FloatKind::Float32)));
    assert_eq!(numeric_target(&arena, STRING), None);
    assert!(is_integer(&arena, UINT8));
    assert!(!is_integer(&arena, FLOAT32));
    assert!(is_negatable_numeric(&arena, INT32));
    assert!(is_negatable_numeric(&arena, FLOAT32));
    assert!(!is_negatable_numeric(&arena, UINT8));
    assert!(!is_negatable_numeric(&arena, BOOLEAN));
}

#[test]
fn default_equality_covers_plain_values_and_their_compositions() {
    let mut arena = TypeArena::new();
    let pair = arena.intern(SemanticType::Tuple(vec![INT32, STRING])).unwrap();
    let with_float = arena.intern(SemanticType::Tuple(vec![INT32, FLOAT32])).unwrap();
    let record = arena
        .intern(SemanticType::Record(vec![("b".to_string(), BOOLEAN), ("a".to_string(), pair)]))
        .unwrap();
    let class = arena.intern(SemanticType::Class { class: ClassId(1), arguments: vec![] }).unwrap();
    let enumeration = arena.intern(SemanticType::Enum { definition: SymbolId(3) }).unwrap();
    let array = arena.intern(SemanticType::Array(INT32)).unwrap();
    let optional = arena.optional(INT32).unwrap();
    assert!(supports_default_equality(&arena, NIL));
    assert!(supports_default_equality(&arena, STRING));
    assert!(!supports_default_equality(&arena, FLOAT32));
    assert!(!supports_default_equality(&arena, NEVER));
    assert!(supports_default_equality(&arena, pair));
    assert!(!supports_default_equality(&arena, with_float));
    assert!(supports_default_equality(&arena, record));
    assert!(supports_default_equality(&arena, class));
    assert!(supports_default_equality(&arena, enumeration));
    assert!(!supports_default_equality(&arena, array));
    assert!(supports_default_equality(&arena, optional));
    assert!(!supports_default_equality(&arena, TypeId(9999)));
}

#[test]
fn equality_needs_one_type_or_nil_against_an_optional() {
    let mut arena = TypeArena::new();
    let optional = arena.optional(INT32).unwrap();
    let either = arena.union(vec![INT32, STRING]).unwrap();
    assert!(equality_comparable(&arena, INT32, INT32));
    assert!(!equality_comparable(&arena, FLOAT32, FLOAT32));
    assert!(!equality_comparable(&arena, INT32, STRING));
    assert!(equality_comparable(&arena, NIL, optional));
    assert!(equality_comparable(&arena, optional, NIL));
    assert!(!equality_comparable(&arena, NIL, either));
    assert!(!equality_comparable(&arena, NIL, INT32));
    assert!(equality_comparable(&arena, optional, optional));
}
