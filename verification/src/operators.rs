//! Type-level rules of operator checking: which types are numeric, which
//! can be negated, and which can be compared with `==`.
use vstd::prelude::*;

use crate::arena::{nil_type_id, TypeArena};
use crate::ids::TypeId;
use crate::kinds::{IntegerKind, PrimitiveType};
use crate::numeric::FloatKind;
use crate::semantic::{SemanticType, SemanticTypeView};

verus! {

/// The machine representation of a numeric type.
#[derive(Clone, Copy, Debug, PartialEq, Eq, Structural)]
pub enum NumericTarget {
    Integer(IntegerKind),
    Float(FloatKind),
}

/// The numeric representation of `type_id`, when it is a numeric primitive.
pub open spec fn numeric_target_of(types: Seq<SemanticTypeView>, type_id: TypeId) -> Option<NumericTarget> {
    if (type_id.0 as int) < types.len() {
        match types[type_id.0 as int] {
            SemanticTypeView::Primitive(PrimitiveType::Integer(kind)) => Some(NumericTarget::Integer(kind)),
            SemanticTypeView::Primitive(PrimitiveType::Float32) => Some(NumericTarget::Float(FloatKind::Float32)),
            SemanticTypeView::Primitive(PrimitiveType::Float64) => Some(NumericTarget::Float(FloatKind::Float64)),
            _ => None,
        }
    } else {
        None
    }
}

/// The numeric representation of `type_id`, when it is a numeric primitive.
pub fn numeric_target(arena: &TypeArena, type_id: TypeId) -> (r: Option<NumericTarget>)
    ensures
        r == numeric_target_of(arena.types(), type_id),
{
    match arena.get(type_id) {
        Some(SemanticType::Primitive(PrimitiveType::Integer(kind))) => Some(NumericTarget::Integer(*kind)),
        Some(SemanticType::Primitive(PrimitiveType::Float32)) => Some(NumericTarget::Float(FloatKind::Float32)),
        Some(SemanticType::Primitive(PrimitiveType::Float64)) => Some(NumericTarget::Float(FloatKind::Float64)),
        _ => None,
    }
}

/// Whether `type_id` is an integer primitive.
pub fn is_integer(arena: &TypeArena, type_id: TypeId) -> (r: bool)
    ensures
        r == (numeric_target_of(arena.types(), type_id) matches Some(NumericTarget::Integer(_))),
{
    match numeric_target(arena, type_id) {
        Some(NumericTarget::Integer(_)) => true,
        _ => false,
    }
}

/// Whether unary minus applies to `type_id`: a signed integer or a float.
pub fn is_negatable_numeric(arena: &TypeArena, type_id: TypeId) -> (r: bool)
    ensures
        r == match numeric_target_of(arena.types(), type_id) {
            Some(NumericTarget::Integer(kind)) => kind.signed_kind(),
            Some(NumericTarget::Float(_)) => true,
            None => false,
        },
{
    match numeric_target(arena, type_id) {
        Some(NumericTarget::Integer(kind)) => kind.is_signed(),
        Some(NumericTarget::Float(_)) => true,
        None => false,
    }
}

/// Whether values of the type at `t` can be compared with the built-in
/// `==`: `nil`, Booleans, integers and strings, classes and enums, and
/// tuples, unions and records whose parts all can.
pub open spec fn default_equality(types: Seq<SemanticTypeView>, t: int) -> bool
    decreases t,
{
    if 0 <= t < types.len() {
        match types[t] {
            SemanticTypeView::Primitive(p) => p is Nil || p is Boolean || p is Integer || p is String,
            SemanticTypeView::Class { .. } | SemanticTypeView::Enum { .. } => true,
            SemanticTypeView::Tuple(elements) => forall|k: int|
                0 <= k < elements.len() ==> (#[trigger] elements[k]).0 < t && default_equality(types, elements[k].0 as int),
            SemanticTypeView::Union(elements) => forall|k: int|
                0 <= k < elements.len() ==> (#[trigger] elements[k]).0 < t && default_equality(types, elements[k].0 as int),
            SemanticTypeView::Record(fields) => forall|k: int|
                0 <= k < fields.len() ==> (#[trigger] fields[k]).1.0 < t && default_equality(types, fields[k].1.0 as int),
            _ => false,
        }
    } else {
        false
    }
}

fn all_support_default_equality(arena: &TypeArena, owner: TypeId, elements: &[TypeId]) -> (r: bool)
    requires
        (owner.0 as int) < arena.types().len(),
        arena.types()[owner.0 as int] == SemanticTypeView::Tuple(elements@) || arena.types()[owner.0 as int]
            == SemanticTypeView::Union(elements@),
    ensures
        r == default_equality(arena.types(), owner.0 as int),
    decreases owner.0, 0nat,
{
    proof {
        use_type_invariant(arena);
    }
    let ghost tv = arena.types();
    let mut i: usize = 0;
    while i < elements.len()
        invariant
            i <= elements@.len(),
            arena.well_formed(),
            tv == arena.types(),
            (owner.0 as int) < tv.len(),
            tv[owner.0 as int] == SemanticTypeView::Tuple(elements@) || tv[owner.0 as int] == SemanticTypeView::Union(
                elements@,
            ),
            forall|k: int|
                0 <= k < i ==> (#[trigger] elements@[k]).0 < owner.0 && default_equality(tv, elements@[k].0 as int),
        decreases elements.len() - i,
    {
        proof {
            arena.lemma_refers_to_earlier(owner.0 as int, i as int);
        }
        if !supports_default_equality(arena, elements[i]) {
            return false;
        }
        i = i + 1;
    }
    true
}

/// Whether values of `type_id` can be compared with the built-in `==`.
pub fn supports_default_equality(arena: &TypeArena, type_id: TypeId) -> (r: bool)
    ensures
        r == default_equality(arena.types(), type_id.0 as int),
    decreases type_id.0, 1nat,
{
    proof {
        use_type_invariant(arena);
    }
    let ghost tv = arena.types();
    match arena.get(type_id) {
        Some(SemanticType::Primitive(p)) => {
            match p {
                PrimitiveType::Nil | PrimitiveType::Boolean | PrimitiveType::Integer(_) | PrimitiveType::String => true,
                _ => false,
            }
        },
        Some(SemanticType::Class { .. }) | Some(SemanticType::Enum { .. }) => true,
        Some(SemanticType::Tuple(elements)) | Some(SemanticType::Union(elements)) => all_support_default_equality(
            arena,
            type_id,
            elements.as_slice(),
        ),
        Some(SemanticType::Record(fields)) => {
            let mut i: usize = 0;
            while i < fields.len()
                invariant
                    i <= fields@.len(),
                    arena.well_formed(),
                    tv == arena.types(),
                    (type_id.0 as int) < tv.len(),
                    tv[type_id.0 as int] == SemanticTypeView::Record(crate::semantic::field_views(fields@)),
                    forall|k: int|
                        0 <= k < i ==> (#[trigger] fields@[k]).1.0 < type_id.0 && default_equality(
                            tv,
                            fields@[k].1.0 as int,
                        ),
                decreases fields.len() - i,
            {
                proof {
                    arena.lemma_refers_to_earlier(type_id.0 as int, i as int);
                    assert(crate::semantic::referenced_type_ids(tv[type_id.0 as int])[i as int] == fields@[i as int].1);
                }
                if !supports_default_equality(arena, fields[i].1) {
                    proof {
                        assert(crate::semantic::field_views(fields@)[i as int].1 == fields@[i as int].1);
                    }
                    return false;
                }
                i = i + 1;
            }
            proof {
                assert forall|k: int| 0 <= k < fields@.len() implies (#[trigger] crate::semantic::field_views(fields@)[k]).1.0
                    < type_id.0 && default_equality(tv, crate::semantic::field_views(fields@)[k].1.0 as int) by {
                    assert(crate::semantic::field_views(fields@)[k].1 == fields@[k].1);
                }
            }
            true
        },
        _ => false,
    }
}

/// Whether `left == right` type-checks: two equal types that support the
/// built-in `==`, or `nil` against an optional type (a union with `nil`).
pub open spec fn comparable_for_equality(types: Seq<SemanticTypeView>, left: TypeId, right: TypeId) -> bool {
    if left == right {
        default_equality(types, left.0 as int)
    } else {
        let optional = if left == nil_type_id() {
            Some(right)
        } else if right == nil_type_id() {
            Some(left)
        } else {
            None
        };
        optional matches Some(o) && (o.0 as int) < types.len() && (types[o.0 as int] matches SemanticTypeView::Union(
            members,
        ) && members.contains(nil_type_id()))
    }
}

/// Whether `left == right` type-checks.
#[verifier::loop_isolation(false)]
pub fn equality_comparable(arena: &TypeArena, left: TypeId, right: TypeId) -> (r: bool)
    ensures
        r == comparable_for_equality(arena.types(), left, right),
{
    proof {
        use_type_invariant(arena);
    }
    if left == right {
        return supports_default_equality(arena, left);
    }
    let optional = if left == TypeId(0) {
        right
    } else if right == TypeId(0) {
        left
    } else {
        return false;
    };
    match arena.get(optional) {
        Some(SemanticType::Union(members)) => {
            let mut i: usize = 0;
            while i < members.len()
                invariant
                    i <= members@.len(),
                    forall|k: int| 0 <= k < i ==> members@[k] != nil_type_id(),
                decreases members.len() - i,
            {
                if members[i] == TypeId(0) {
                    assert(members@[i as int] == nil_type_id());
                    return true;
                }
                i = i + 1;
            }
            false
        },
        _ => false,
    }
}

/// A float type does not support the built-in `==`.
pub proof fn law_floats_have_no_default_equality(types: Seq<SemanticTypeView>, t: int)
    requires
        0 <= t < types.len(),
        types[t] == SemanticTypeView::Primitive(PrimitiveType::Float32) || types[t]
            == SemanticTypeView::Primitive(PrimitiveType::Float64),
    ensures
        !default_equality(types, t),
{
}

/// In a well-formed arena, a record type supports the built-in `==` exactly
/// when every one of its field types does; so a record with a float field
/// does not.
pub proof fn law_record_equality_follows_its_fields(types: Seq<SemanticTypeView>, t: int)
    requires
        crate::arena::arena_types_wf(types),
        0 <= t < types.len(),
        types[t] is Record,
    ensures
        default_equality(types, t) <==> forall|k: int|
            0 <= k < types[t]->Record_0.len() ==> default_equality(
                types,
                #[trigger] types[t]->Record_0[k].1.0 as int,
            ),
        (exists|k: int|
            0 <= k < types[t]->Record_0.len() && (types[#[trigger] types[t]->Record_0[k].1.0 as int]
                == SemanticTypeView::Primitive(PrimitiveType::Float32) || types[types[t]->Record_0[k].1.0 as int]
                == SemanticTypeView::Primitive(PrimitiveType::Float64))) ==> !default_equality(types, t),
{
    let fields = types[t]->Record_0;
    assert(crate::arena::references_earlier(types, t));
    assert forall|k: int| 0 <= k < fields.len() implies (#[trigger] fields[k]).1.0 < t by {
        assert(crate::semantic::referenced_type_ids(types[t])[k] == fields[k].1);
    }
    if exists|k: int|
        0 <= k < fields.len() && (types[#[trigger] fields[k].1.0 as int] == SemanticTypeView::Primitive(
            PrimitiveType::Float32,
        ) || types[fields[k].1.0 as int] == SemanticTypeView::Primitive(PrimitiveType::Float64)) {
        let k = choose|k: int|
            0 <= k < fields.len() && (types[#[trigger] fields[k].1.0 as int] == SemanticTypeView::Primitive(
                PrimitiveType::Float32,
            ) || types[fields[k].1.0 as int] == SemanticTypeView::Primitive(PrimitiveType::Float64));
        assert(!default_equality(types, fields[k].1.0 as int));
    }
}

/// In a well-formed arena, a tuple or union type supports the built-in `==`
/// exactly when every one of its member types does.
pub proof fn law_tuple_and_union_equality_follows_members(types: Seq<SemanticTypeView>, t: int)
    requires
        crate::arena::arena_types_wf(types),
        0 <= t < types.len(),
        types[t] is Tuple || types[t] is Union,
    ensures
        default_equality(types, t) <==> forall|k: int|
            0 <= k < crate::semantic::referenced_type_ids(types[t]).len() ==> default_equality(
                types,
                #[trigger] crate::semantic::referenced_type_ids(types[t])[k].0 as int,
            ),
{
    assert(crate::arena::references_earlier(types, t));
}

} // verus!
