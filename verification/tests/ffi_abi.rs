use pop_types::ffi_abi::{
    ffi_c_layout_is_valid, ffi_foreign_abi_type_is_valid, ffi_handle_payload_is_valid, FfiRecordLayout,
};
use pop_types::ids::OpaqueId;
use pop_types::{BuiltinTypeId, CallableLifetimeSummary, EffectSummary, SemanticType, TypeArena, TypeId};

const INT32: TypeId = TypeId(4);
const FLOAT64: TypeId = TypeId(11);
const STRING: TypeId = TypeId(12);
const BOOLEAN: TypeId = TypeId(1);

fn builtin(arena: &mut TypeArena, definition: u32, arguments: Vec<TypeId>) -> TypeId {
    arena
        .intern(SemanticType::Builtin { definition: BuiltinTypeId(definition), arguments })
        .unwrap()
}

fn function(arena: &mut TypeArena, is_async: bool, parameters: Vec<TypeId>, results: Vec<TypeId>) -> TypeId {
    let (p, r) = (parameters.len(), results.len());
    arena
        .intern(SemanticType::Function {
            is_async,
            parameters,
            results,
            effects: EffectSummary::empty(),
            lifetime_summary: CallableLifetimeSummary::non_retaining(p, r),
        })
        .unwrap()
}

#[test]
fn scalars_pointers_and_functions_cross_when_their_parts_do() {
    let mut arena = TypeArena::new();
    let opaque = arena.intern(SemanticType::Opaque(OpaqueId(1))).unwrap();
    let c_int = builtin(&mut arena, 212, vec![]);
    let context = builtin(&mut arena, 223, vec![]);
    let pointer_to_opaque = builtin(&mut arena, 200, vec![opaque]);
    let pointer_to_int = builtin(&mut arena, 205, vec![INT32]);
    let pointer_to_string = builtin(&mut arena, 200, vec![STRING]);
    let signature = function(&mut arena, false, vec![INT32, pointer_to_opaque], vec![FLOAT64]);
    let async_signature = function(&mut arena, true, vec![INT32], vec![]);
    let bad_signature = function(&mut arena, false, vec![STRING], vec![]);
    let function_pointer = builtin(&mut arena, 202, vec![signature]);
    let async_pointer = builtin(&mut arena, 202, vec![async_signature]);
    let bad_pointer = builtin(&mut arena, 203, vec![bad_signature]);
    let handle = builtin(&mut arena, 204, vec![STRING]);
    let bad_handle = builtin(&mut arena, 204, vec![c_int]);
    let none: Vec<FfiRecordLayout> = Vec::new();
    for valid in [INT32, FLOAT64, c_int, context, pointer_to_opaque, pointer_to_int, function_pointer, handle] {
        assert!(ffi_foreign_abi_type_is_valid(&arena, &none, valid), "{valid:?}");
    }
    for invalid in [STRING, BOOLEAN, opaque, pointer_to_string, async_pointer, bad_pointer, bad_handle, TypeId(9999)] {
        assert!(!ffi_foreign_abi_type_is_valid(&arena, &none, invalid), "{invalid:?}");
    }
}

#[test]
fn handles_carry_managed_payloads() {
    let mut arena = TypeArena::new();
    let pair = arena.intern(SemanticType::Tuple(vec![INT32, STRING])).unwrap();
    let list = builtin(&mut arena, 10, vec![INT32]);
    let c_int = builtin(&mut arena, 212, vec![]);
    let null_error = builtin(&mut arena, 208, vec![]);
    assert!(ffi_handle_payload_is_valid(&arena, STRING));
    assert!(ffi_handle_payload_is_valid(&arena, pair));
    assert!(ffi_handle_payload_is_valid(&arena, list));
    assert!(!ffi_handle_payload_is_valid(&arena, c_int));
    assert!(!ffi_handle_payload_is_valid(&arena, null_error));
    assert!(!ffi_handle_payload_is_valid(&arena, INT32));
}

#[test]
fn c_layout_records_need_marked_defaultless_valid_fields() {
    let mut arena = TypeArena::new();
    let point = arena
        .intern(SemanticType::Record(vec![("x".to_string(), INT32), ("y".to_string(), FLOAT64)]))
        .unwrap();
    let named = arena.intern(SemanticType::Record(vec![("name".to_string(), STRING)])).unwrap();
    let holder = arena.intern(SemanticType::Record(vec![("p".to_string(), point)])).unwrap();
    let records = vec![
        FfiRecordLayout { type_id: point, c_layout: true, fields: vec![(INT32, false), (FLOAT64, false)] },
        FfiRecordLayout { type_id: named, c_layout: true, fields: vec![(STRING, false)] },
        FfiRecordLayout { type_id: holder, c_layout: true, fields: vec![(point, false)] },
    ];
    assert!(ffi_foreign_abi_type_is_valid(&arena, &records, point));
    assert!(ffi_foreign_abi_type_is_valid(&arena, &records, holder));
    assert!(!ffi_foreign_abi_type_is_valid(&arena, &records, named));
    assert!(ffi_c_layout_is_valid(&arena, &records, 0));
    assert!(!ffi_c_layout_is_valid(&arena, &records, 1));
    assert!(!ffi_c_layout_is_valid(&arena, &records, 3));

    let unmarked = vec![FfiRecordLayout { type_id: point, c_layout: false, fields: vec![(INT32, false)] }];
    assert!(!ffi_foreign_abi_type_is_valid(&arena, &unmarked, point));
    let defaulted = vec![FfiRecordLayout { type_id: point, c_layout: true, fields: vec![(INT32, true)] }];
    assert!(!ffi_foreign_abi_type_is_valid(&arena, &defaulted, point));
    let empty = vec![FfiRecordLayout { type_id: point, c_layout: true, fields: vec![] }];
    assert!(!ffi_foreign_abi_type_is_valid(&arena, &empty, point));
    let cyclic = vec![FfiRecordLayout { type_id: holder, c_layout: true, fields: vec![(holder, false)] }];
    assert!(!ffi_foreign_abi_type_is_valid(&arena, &cyclic, holder));
    assert!(!ffi_foreign_abi_type_is_valid(&arena, &[], point));
}
