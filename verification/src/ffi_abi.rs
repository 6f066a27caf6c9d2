//! Which types may cross the foreign-function boundary directly: numeric
//! primitives, the closed FFI integer types, pointers to opaque or valid
//! types, synchronous function pointers over valid types, handles over
//! managed payloads, and trusted C-layout records whose fields are all
//! valid. A record that reaches itself through its fields is not valid.
use vstd::prelude::*;

use crate::arena::TypeArena;
use crate::bootstrap::{is_ffi_abi_builtin_type, is_ffi_function_type_constructor, is_ffi_integer_abi_builtin_type,
    is_ffi_pointer_type_constructor, ffi_abi_identity};
use crate::ids::TypeId;
use crate::kinds::PrimitiveType;
use crate::semantic::{SemanticType, SemanticTypeView};

verus! {

/// What the boundary check reads of one record declaration: its type,
/// whether it is marked as a C-layout record, and each field's type with
/// whether the field has a default (given or still pending).
#[derive(Debug)]
pub struct FfiRecordLayout {
    pub type_id: TypeId,
    pub c_layout: bool,
    pub fields: Vec<(TypeId, bool)>,
}

/// The first record declaration from the `k`-th on whose type is `t`.
pub open spec fn record_index_from(records: Seq<FfiRecordLayout>, t: TypeId, k: nat) -> Option<nat>
    decreases records.len() - k,
{
    if k >= records.len() {
        None
    } else if records[k as int].type_id == t {
        Some(k)
    } else {
        record_index_from(records, t, k + 1)
    }
}

/// The number of record declarations whose type is not on `path`.
pub open spec fn unvisited(records: Seq<FfiRecordLayout>, path: Seq<TypeId>) -> nat
    decreases records.len(),
{
    if records.len() == 0 {
        0
    } else {
        unvisited(records.drop_last(), path) + if path.contains(records.last().type_id) {
            0nat
        } else {
            1nat
        }
    }
}

proof fn lemma_record_index_in_range(records: Seq<FfiRecordLayout>, t: TypeId, k: nat)
    ensures
        record_index_from(records, t, k) matches Some(i) ==> k <= i < records.len() && records[i as int].type_id == t,
    decreases records.len() - k,
{
    if k < records.len() && records[k as int].type_id != t {
        lemma_record_index_in_range(records, t, k + 1);
    }
}

pub proof fn lemma_unvisited_monotone(records: Seq<FfiRecordLayout>, path: Seq<TypeId>, x: TypeId)
    ensures
        unvisited(records, path.push(x)) <= unvisited(records, path),
    decreases records.len(),
{
    if records.len() > 0 {
        lemma_unvisited_monotone(records.drop_last(), path, x);
        if path.contains(records.last().type_id) {
            let w = choose|w: int| 0 <= w < path.len() && path[w] == records.last().type_id;
            assert(path.push(x)[w] == records.last().type_id);
        }
    }
}

pub proof fn lemma_unvisited_shrinks(records: Seq<FfiRecordLayout>, path: Seq<TypeId>, i: int)
    requires
        0 <= i < records.len(),
        !path.contains(records[i].type_id),
    ensures
        unvisited(records, path.push(records[i].type_id)) < unvisited(records, path),
    decreases records.len(),
{
    let x = records[i].type_id;
    assert(path.push(x)[path.len() as int] == x);
    if i == records.len() - 1 {
        lemma_unvisited_monotone(records.drop_last(), path, x);
    } else {
        assert(records.drop_last()[i] == records[i]);
        lemma_unvisited_shrinks(records.drop_last(), path, i);
        if path.contains(records.last().type_id) {
            let w = choose|w: int| 0 <= w < path.len() && path[w] == records.last().type_id;
            assert(path.push(x)[w] == records.last().type_id);
        }
    }
}

/// Whether a handle may carry a payload of type `payload`: a managed value
/// (string, tuple, array, table, class, interface, function or error
/// union), or a built-in type that is neither an FFI ABI type nor one of
/// the FFI error types.
pub open spec fn handle_payload_valid(types: Seq<SemanticTypeView>, payload: TypeId) -> bool {
    (payload.0 as int) < types.len() && match types[payload.0 as int] {
        SemanticTypeView::Primitive(p) => p is String,
        SemanticTypeView::Tuple(_) | SemanticTypeView::Array(_) | SemanticTypeView::Table { .. }
        | SemanticTypeView::Class { .. } | SemanticTypeView::Interface { .. } | SemanticTypeView::Function { .. }
        | SemanticTypeView::ErrorUnion { .. } => true,
        SemanticTypeView::Builtin { definition, .. } => !ffi_abi_identity(definition.0) && definition.0 != 208
            && definition.0 != 209,
        _ => false,
    }
}

/// Whether the `i`-th record declaration is a valid C-layout record when
/// the records on `path` are being checked: marked, with at least one
/// field, not on the path, and every field without a default and of a
/// valid type.
pub open spec fn layout_valid(
    types: Seq<SemanticTypeView>,
    records: Seq<FfiRecordLayout>,
    i: int,
    path: Seq<TypeId>,
) -> bool
    decreases unvisited(records, path), 0nat,
{
    if 0 <= i < records.len() && records[i].c_layout && records[i].fields@.len() > 0 && !path.contains(
        records[i].type_id,
    ) {
        proof {
            lemma_unvisited_shrinks(records, path, i);
        }
        forall|k: int|
            0 <= k < records[i].fields@.len() ==> !(#[trigger] records[i].fields@[k]).1 && abi_valid(
                types,
                records,
                records[i].fields@[k].0,
                path.push(records[i].type_id),
            )
    } else {
        false
    }
}

/// Whether values of `t` may cross the boundary directly, the records on
/// `path` being under check.
pub open spec fn abi_valid(
    types: Seq<SemanticTypeView>,
    records: Seq<FfiRecordLayout>,
    t: TypeId,
    path: Seq<TypeId>,
) -> bool
    decreases unvisited(records, path), t.0 + 1,
{
    if (t.0 as int) >= types.len() {
        false
    } else {
        match types[t.0 as int] {
            SemanticTypeView::Primitive(p) => p is Integer || p is Float32 || p is Float64,
            SemanticTypeView::Builtin { definition, arguments } => if 210 <= definition.0 <= 222 || definition.0
                == 223 {
                arguments.len() == 0
            } else if definition.0 == 200 || definition.0 == 201 || definition.0 == 205 || definition.0 == 206 {
                &&& arguments.len() == 1
                &&& arguments[0].0 < t.0
                &&& ((arguments[0].0 as int) < types.len() && types[arguments[0].0 as int] is Opaque) || abi_valid(
                    types,
                    records,
                    arguments[0],
                    path,
                )
            } else if definition.0 == 202 || definition.0 == 203 {
                &&& arguments.len() == 1
                &&& arguments[0].0 < t.0
                &&& (arguments[0].0 as int) < types.len()
                &&& types[arguments[0].0 as int] matches SemanticTypeView::Function { is_async, parameters, results, .. }
                    && !is_async && forall|k: int|
                    0 <= k < (parameters + results).len() ==> (#[trigger] (parameters + results)[k]).0 < t.0
                        && abi_valid(types, records, (parameters + results)[k], path)
            } else if definition.0 == 204 {
                arguments.len() == 1 && handle_payload_valid(types, arguments[0])
            } else {
                false
            },
            SemanticTypeView::Record(_) => match record_index_from(records, t, 0) {
                Some(i) => layout_valid(types, records, i as int, path),
                None => false,
            },
            _ => false,
        }
    }
}

/// Whether a handle may carry a payload of type `payload`.
pub fn ffi_handle_payload_is_valid(arena: &TypeArena, payload: TypeId) -> (r: bool)
    ensures
        r == handle_payload_valid(arena.types(), payload),
{
    match arena.get(payload) {
        Some(SemanticType::Primitive(PrimitiveType::String)) => true,
        Some(SemanticType::Tuple(_)) | Some(SemanticType::Array(_)) | Some(SemanticType::Table { .. }) | Some(
            SemanticType::Class { .. },
        ) | Some(SemanticType::Interface { .. }) | Some(SemanticType::Function { .. }) | Some(
            SemanticType::ErrorUnion { .. },
        ) => true,
        Some(SemanticType::Builtin { definition, .. }) => !is_ffi_abi_builtin_type(*definition) && definition.0 != 208
            && definition.0 != 209,
        _ => false,
    }
}

fn find_record(records: &[FfiRecordLayout], t: TypeId) -> (r: Option<usize>)
    ensures
        match r {
            Some(k) => record_index_from(records@, t, 0) == Some(k as nat),
            None => record_index_from(records@, t, 0) is None,
        },
{
    let mut k: usize = 0;
    while k < records.len()
        invariant
            k <= records@.len(),
            record_index_from(records@, t, 0) == record_index_from(records@, t, k as nat),
        decreases records.len() - k,
    {
        if records[k].type_id == t {
            return Some(k);
        }
        k = k + 1;
    }
    None
}

fn on_path(path: &Vec<TypeId>, t: TypeId) -> (r: bool)
    ensures
        r == path@.contains(t),
{
    let mut k: usize = 0;
    while k < path.len()
        invariant
            k <= path@.len(),
            forall|j: int| 0 <= j < k ==> path@[j] != t,
        decreases path.len() - k,
    {
        if path[k] == t {
            assert(path@[k as int] == t);
            return true;
        }
        k = k + 1;
    }
    false
}

#[verifier::loop_isolation(false)]
fn layout_is_valid(arena: &TypeArena, records: &[FfiRecordLayout], i: usize, path: Vec<TypeId>) -> (r: (
    bool,
    Vec<TypeId>,
))
    requires
        i < records@.len(),
    ensures
        r.1@ == path@,
        r.0 == layout_valid(arena.types(), records@, i as int, path@),
    decreases unvisited(records@, path@), 0nat,
{
    proof {
        use_type_invariant(arena);
    }
    let record = &records[i];
    if !record.c_layout || record.fields.len() == 0 || on_path(&path, record.type_id) {
        return (false, path);
    }
    let ghost start = path@;
    proof {
        lemma_unvisited_shrinks(records@, path@, i as int);
    }
    let mut path = path;
    path.push(record.type_id);
    let mut k: usize = 0;
    while k < record.fields.len()
        invariant
            arena.well_formed(),
            i < records@.len(),
            *record == records@[i as int],
            k <= record.fields@.len(),
            path@ == start.push(record.type_id),
            unvisited(records@, path@) < unvisited(records@, start),
            forall|j: int|
                0 <= j < k ==> !(#[trigger] record.fields@[j]).1 && abi_valid(
                    arena.types(),
                    records@,
                    record.fields@[j].0,
                    path@,
                ),
        decreases record.fields.len() - k,
    {
        let (field_type, has_default) = record.fields[k];
        if has_default {
            path.pop();
            proof {
                assert(path@ =~= start);
            }
            return (false, path);
        }
        let (valid, returned) = abi_type_is_valid(arena, records, field_type, path);
        path = returned;
        if !valid {
            path.pop();
            proof {
                assert(path@ =~= start);
            }
            return (false, path);
        }
        k = k + 1;
    }
    path.pop();
    proof {
        assert(path@ =~= start);
    }
    (true, path)
}

#[verifier::loop_isolation(false)]
fn abi_type_is_valid(arena: &TypeArena, records: &[FfiRecordLayout], t: TypeId, path: Vec<TypeId>) -> (r: (
    bool,
    Vec<TypeId>,
))
    ensures
        r.1@ == path@,
        r.0 == abi_valid(arena.types(), records@, t, path@),
    decreases unvisited(records@, path@), t.0 + 1,
{
    proof {
        use_type_invariant(arena);
    }
    match arena.get(t) {
        Some(SemanticType::Primitive(p)) => (
            match p {
                PrimitiveType::Integer(_) | PrimitiveType::Float32 | PrimitiveType::Float64 => true,
                _ => false,
            },
            path,
        ),
        Some(SemanticType::Builtin { definition, arguments }) => {
            if is_ffi_integer_abi_builtin_type(*definition) || definition.0 == 223 {
                (arguments.len() == 0, path)
            } else if is_ffi_pointer_type_constructor(*definition) {
                if arguments.len() != 1 {
                    return (false, path);
                }
                let element = arguments[0];
                proof {
                    arena.lemma_refers_to_earlier(t.0 as int, 0);
                }
                match arena.get(element) {
                    Some(SemanticType::Opaque(_)) => (true, path),
                    _ => abi_type_is_valid(arena, records, element, path),
                }
            } else if is_ffi_function_type_constructor(*definition) {
                if arguments.len() != 1 {
                    return (false, path);
                }
                let signature = arguments[0];
                proof {
                    arena.lemma_refers_to_earlier(t.0 as int, 0);
                }
                match arena.get(signature) {
                    Some(SemanticType::Function { is_async, parameters, results, .. }) => {
                        if *is_async {
                            return (false, path);
                        }
                        let ghost all = parameters@ + results@;
                        let ghost start = path@;
                        let mut path = path;
                        let mut k: usize = 0;
                        while k < parameters.len()
                            invariant
                                k <= parameters@.len(),
                                path@ == start,
                                forall|j: int|
                                    0 <= j < k ==> (#[trigger] parameters@[j]).0 < t.0 && abi_valid(
                                        arena.types(),
                                        records@,
                                        parameters@[j],
                                        path@,
                                    ),
                            decreases parameters.len() - k,
                        {
                            proof {
                                arena.lemma_refers_to_earlier(signature.0 as int, k as int);
                            }
                            let (valid, returned) = abi_type_is_valid(arena, records, parameters[k], path);
                            path = returned;
                            if !valid {
                                proof {
                                    assert(all[k as int] == parameters@[k as int]);
                                }
                                return (false, path);
                            }
                            k = k + 1;
                        }
                        let mut k: usize = 0;
                        while k < results.len()
                            invariant
                                k <= results@.len(),
                                path@ == start,
                                forall|j: int|
                                    0 <= j < parameters@.len() ==> (#[trigger] parameters@[j]).0 < t.0 && abi_valid(
                                        arena.types(),
                                        records@,
                                        parameters@[j],
                                        path@,
                                    ),
                                forall|j: int|
                                    0 <= j < k ==> (#[trigger] results@[j]).0 < t.0 && abi_valid(
                                        arena.types(),
                                        records@,
                                        results@[j],
                                        path@,
                                    ),
                            decreases results.len() - k,
                        {
                            proof {
                                arena.lemma_refers_to_earlier(signature.0 as int, parameters@.len() + k);
                                assert((parameters@ + results@)[parameters@.len() + k] == results@[k as int]);
                            }
                            let (valid, returned) = abi_type_is_valid(arena, records, results[k], path);
                            path = returned;
                            if !valid {
                                proof {
                                    assert(all[parameters@.len() + k] == results@[k as int]);
                                }
                                return (false, path);
                            }
                            k = k + 1;
                        }
                        proof {
                            assert forall|j: int| 0 <= j < all.len() implies (#[trigger] all[j]).0 < t.0 && abi_valid(
                                arena.types(),
                                records@,
                                all[j],
                                path@,
                            ) by {
                                if j < parameters@.len() {
                                    assert(all[j] == parameters@[j]);
                                } else {
                                    assert(all[j] == results@[j - parameters@.len()]);
                                }
                            }
                        }
                        (true, path)
                    },
                    _ => (false, path),
                }
            } else if definition.0 == 204 {
                if arguments.len() != 1 {
                    return (false, path);
                }
                (ffi_handle_payload_is_valid(arena, arguments[0]), path)
            } else {
                (false, path)
            }
        },
        Some(SemanticType::Record(_)) => match find_record(records, t) {
            Some(i) => {
                proof {
                    lemma_record_index_in_range(records@, t, 0);
                }
                layout_is_valid(arena, records, i, path)
            },
            None => (false, path),
        },
        _ => (false, path),
    }
}

/// Whether values of `type_id` may cross the foreign-function boundary
/// directly; `records` are the record declarations, each found by its type.
pub fn ffi_foreign_abi_type_is_valid(arena: &TypeArena, records: &[FfiRecordLayout], type_id: TypeId) -> (r: bool)
    ensures
        r == abi_valid(arena.types(), records@, type_id, Seq::empty()),
{
    proof {
        use_type_invariant(arena);
    }
    let (r, _) = abi_type_is_valid(arena, records, type_id, Vec::new());
    r
}

/// Whether the `record`-th declaration is a valid C-layout record; there
/// is none past the last declaration.
pub fn ffi_c_layout_is_valid(arena: &TypeArena, records: &[FfiRecordLayout], record: usize) -> (r: bool)
    ensures
        r == layout_valid(arena.types(), records@, record as int, Seq::empty()),
        record >= records@.len() ==> !r,
{
    proof {
        use_type_invariant(arena);
    }
    if record >= records.len() {
        return false;
    }
    let (r, _) = layout_is_valid(arena, records, record, Vec::new());
    r
}

} // verus!
