//! The type arena: every semantic type interned once, referenced by identity.
use vstd::prelude::*;

use crate::id_sets::{
    find_first_unknown, find_last_unknown, first_unknown, insert_sorted_id, last_unknown,
    lemma_ascending_ids_unique, lemma_first_unknown_none, lemma_last_unknown_none,
    strictly_ascending_ids,
};
use crate::ids::{ClassId, TypeId};
use crate::kinds::{primitive_for_source_name, IntegerKind, PrimitiveType};
use crate::order::{char_seq_lt, lemma_char_seq_lt_asymmetric, lemma_char_seq_lt_transitive, str_lt};
use crate::specializations::{class_key_lt, entry_key, lemma_class_lookup_absent, lemma_class_lookup_index, class_lookup, keys_ascending, ClassSpecializations, TypeSubstitutions};
use crate::substitution::substituted;
use crate::semantic::{
    copy_type_ids, field_views, referenced_type_ids, referenced_types, SemanticType,
    SemanticTypeView,
};
use crate::views::ViewKind;

verus! {

/// Why an arena operation was rejected.
#[derive(Clone, Copy, Debug, PartialEq, Eq, Structural)]
pub enum TypeArenaError {
    UnknownTypeId(TypeId),
}

/// The distinct primitive types, in the order a new arena interns them.
pub open spec fn canonical_primitives() -> Seq<PrimitiveType> {
    seq![
        PrimitiveType::Nil,
        PrimitiveType::Boolean,
        PrimitiveType::Integer(IntegerKind::Int8),
        PrimitiveType::Integer(IntegerKind::Int16),
        PrimitiveType::Integer(IntegerKind::Int32),
        PrimitiveType::Integer(IntegerKind::Int64),
        PrimitiveType::Integer(IntegerKind::UInt8),
        PrimitiveType::Integer(IntegerKind::UInt16),
        PrimitiveType::Integer(IntegerKind::UInt32),
        PrimitiveType::Integer(IntegerKind::UInt64),
        PrimitiveType::Float32,
        PrimitiveType::Float64,
        PrimitiveType::String,
        PrimitiveType::Never,
    ]
}

/// Identity of `nil` in every arena.
pub open spec fn nil_type_id() -> TypeId {
    TypeId(0)
}

/// The members other than `nil`, in order.
pub open spec fn without_nil(members: Seq<TypeId>) -> Seq<TypeId>
    decreases members.len(),
{
    if members.len() == 0 {
        members
    } else if members.last() == nil_type_id() {
        without_nil(members.drop_last())
    } else {
        without_nil(members.drop_last()).push(members.last())
    }
}

/// Identity of `Never` in every arena.
pub open spec fn never_type_id() -> TypeId {
    TypeId(13)
}

/// Every type referenced by entry `i` was interned before it.
pub open spec fn references_earlier(types: Seq<SemanticTypeView>, i: int) -> bool {
    forall|k: int|
        0 <= k < referenced_type_ids(types[i]).len() ==> (#[trigger] referenced_type_ids(
            types[i],
        )[k]).0 < i
}

/// Union members: sorted identities, at least two, none `Never` and none
/// itself a union.
pub open spec fn union_members_normalized(types: Seq<SemanticTypeView>, members: Seq<TypeId>) -> bool {
    &&& members.len() >= 2
    &&& strictly_ascending_ids(members)
    &&& forall|a: int|
        0 <= a < members.len() ==> (#[trigger] members[a]) != never_type_id() && !(
        types[members[a].0 as int] is Union)
}

/// Entry `i`, if it is a union, has normalized members.
pub open spec fn union_normalized(types: Seq<SemanticTypeView>, i: int) -> bool {
    types[i] matches SemanticTypeView::Union(members) ==> union_members_normalized(types, members)
}

/// The arena's structural invariant.
pub open spec fn arena_types_wf(types: Seq<SemanticTypeView>) -> bool {
    &&& 14 <= types.len() <= 0x1_0000_0000
    &&& forall|k: int|
        0 <= k < 14 ==> #[trigger] types[k] == SemanticTypeView::Primitive(canonical_primitives()[k])
    &&& forall|i: int, j: int| 0 <= i < j < types.len() ==> #[trigger] types[i] != #[trigger] types[j]
    &&& forall|i: int| 0 <= i < types.len() ==> #[trigger] references_earlier(types, i)
    &&& forall|i: int| 0 <= i < types.len() ==> #[trigger] union_normalized(types, i)
    &&& forall|i: int| 0 <= i < types.len() ==> #[trigger] canonical_entry(types[i])
}

/// An entry in canonical form: never an optional (optionals are unions with
/// `nil`), and a record's fields ordered by name.
pub open spec fn canonical_entry(t: SemanticTypeView) -> bool {
    &&& !(t is Optional)
    &&& (t matches SemanticTypeView::Record(fields) ==> fields_sorted_by_name(fields) == fields)
}

/// Every type `t` refers to is interned, and a union's members are normalized.
pub open spec fn admissible(types: Seq<SemanticTypeView>, t: SemanticTypeView) -> bool {
    &&& forall|k: int|
        0 <= k < referenced_type_ids(t).len() ==> (#[trigger] referenced_type_ids(t)[k]).0
            < types.len()
    &&& (t matches SemanticTypeView::Union(members) ==> union_members_normalized(types, members))
    &&& canonical_entry(t)
}

/// An operation returned an existing identity and left the table's size,
/// or appended one entry and returned its identity.
pub open spec fn grew_by_at_most_one(before: nat, after: nat, id: TypeId) -> bool {
    (after == before && id.0 < before) || (after == before + 1 && id.0 == before)
}

/// The identity under which `t` is interned in `types`, if it is.
pub open spec fn type_lookup(types: Seq<SemanticTypeView>, t: SemanticTypeView) -> Option<TypeId> {
    if types.contains(t) {
        Some(TypeId((choose|i: int| 0 <= i < types.len() && types[i] == t) as u32))
    } else {
        None
    }
}

/// The table after interning `t`, and the identity `t` has there: the
/// existing entry if `t` is present, else a new last entry.
pub open spec fn interned(types: Seq<SemanticTypeView>, t: SemanticTypeView) -> (
    Seq<SemanticTypeView>,
    TypeId,
) {
    if types.contains(t) {
        (types, TypeId((choose|i: int| 0 <= i < types.len() && types[i] == t) as u32))
    } else {
        (types.push(t), TypeId(types.len() as u32))
    }
}

/// What member `m` adds to a union: the members of `m` if it is a union,
/// nothing if it is `Never`, else `m` itself.
pub open spec fn contributes(types: Seq<SemanticTypeView>, m: TypeId, t: TypeId) -> bool {
    match types[m.0 as int] {
        SemanticTypeView::Union(nested) => nested.contains(t),
        _ => m == t && m != never_type_id(),
    }
}

/// Whether `t` belongs to the flattened union of `members`.
pub open spec fn flattened_member(types: Seq<SemanticTypeView>, members: Seq<TypeId>, t: TypeId) -> bool {
    exists|k: int| 0 <= k < members.len() && #[trigger] contributes(types, members[k], t)
}

/// The flattened members of a union, sorted by identity without duplicates.
pub open spec fn normalized_union_members(types: Seq<SemanticTypeView>, members: Seq<TypeId>) -> Seq<TypeId> {
    choose|ms: Seq<TypeId>|
        strictly_ascending_ids(ms) && forall|t: TypeId| #[trigger] ms.contains(t) <==> flattened_member(types, members, t)
}

/// The table after forming the union of `members`, and the union's identity:
/// `Never` when nothing remains, the one remaining member alone, else the
/// interned union of the normalized members.
pub open spec fn union_outcome(types: Seq<SemanticTypeView>, members: Seq<TypeId>) -> (
    Seq<SemanticTypeView>,
    TypeId,
) {
    let ms = normalized_union_members(types, members);
    if ms.len() == 0 {
        (types, never_type_id())
    } else if ms.len() == 1 {
        (types, ms[0])
    } else {
        interned(types, SemanticTypeView::Union(ms))
    }
}

/// Where a field named `name` goes among already ordered fields: after every
/// field whose name is not greater.
pub open spec fn name_insert_position(s: Seq<(Seq<char>, TypeId)>, name: Seq<char>) -> nat
    decreases s.len(),
{
    if s.len() == 0 {
        0
    } else if char_seq_lt(name, s[0].0) {
        0
    } else {
        1 + name_insert_position(s.drop_first(), name)
    }
}

/// Record fields stably ordered by name.
pub open spec fn fields_sorted_by_name(s: Seq<(Seq<char>, TypeId)>) -> Seq<(Seq<char>, TypeId)>
    decreases s.len(),
{
    if s.len() == 0 {
        s
    } else {
        let t = fields_sorted_by_name(s.drop_last());
        t.insert(name_insert_position(t, s.last().0) as int, s.last())
    }
}

/// What interning `t` gives: the unknown identity it refers to, or the table
/// afterwards and the identity of the canonical form of `t`. Unions and
/// optionals are normalized, record fields ordered by name.
pub open spec fn intern_outcome(types: Seq<SemanticTypeView>, t: SemanticTypeView) -> Result<
    (Seq<SemanticTypeView>, TypeId),
    TypeArenaError,
> {
    match t {
        SemanticTypeView::Union(members) => match last_unknown(types.len() as int, members) {
            Some(bad) => Err(TypeArenaError::UnknownTypeId(bad)),
            None => Ok(union_outcome(types, members)),
        },
        SemanticTypeView::Optional(inner) => match last_unknown(
            types.len() as int,
            seq![inner, nil_type_id()],
        ) {
            Some(bad) => Err(TypeArenaError::UnknownTypeId(bad)),
            None => Ok(union_outcome(types, seq![inner, nil_type_id()])),
        },
        SemanticTypeView::Record(fields) => match first_unknown(
            types.len() as int,
            referenced_type_ids(t),
        ) {
            Some(bad) => Err(TypeArenaError::UnknownTypeId(bad)),
            None => Ok(interned(types, SemanticTypeView::Record(fields_sorted_by_name(fields)))),
        },
        _ => match first_unknown(types.len() as int, referenced_type_ids(t)) {
            Some(bad) => Err(TypeArenaError::UnknownTypeId(bad)),
            None => Ok(interned(types, t)),
        },
    }
}

/// Interning `t` adds no new type: it fails, or every type it needs is
/// already there.
pub open spec fn adds_no_type(types: Seq<SemanticTypeView>, t: SemanticTypeView) -> bool {
    match intern_outcome(types, t) {
        Ok((after, _)) => after.len() == types.len(),
        Err(_) => true,
    }
}

proof fn lemma_push_keeps_wf(types: Seq<SemanticTypeView>, t: SemanticTypeView)
    requires
        arena_types_wf(types),
        admissible(types, t),
        !types.contains(t),
        types.len() < 0x1_0000_0000,
    ensures
        arena_types_wf(types.push(t)),
{
    let n = types.len() as int;
    let next = types.push(t);
    assert forall|k: int| 0 <= k < 14 implies #[trigger] next[k] == SemanticTypeView::Primitive(
        canonical_primitives()[k],
    ) by {
        assert(next[k] == types[k]);
    }
    assert forall|i: int, j: int| 0 <= i < j < next.len() implies #[trigger] next[i] != #[trigger] next[j] by {
        if j < n {
            assert(next[i] == types[i] && next[j] == types[j]);
        } else {
            assert(next[i] == types[i]);
            if types[i] == t {
                assert(types.contains(t));
            }
        }
    }
    assert forall|i: int| 0 <= i < next.len() implies #[trigger] references_earlier(next, i) by {
        if i < n {
            assert(next[i] == types[i]);
            assert(references_earlier(types, i));
        } else {
            assert(next[i] == t);
        }
    }
    assert forall|i: int| 0 <= i < next.len() implies #[trigger] canonical_entry(next[i]) by {
        if i < n {
            assert(next[i] == types[i]);
        }
    }
    assert forall|i: int| 0 <= i < next.len() implies #[trigger] union_normalized(next, i) by {
        if i < n {
            assert(next[i] == types[i]);
            assert(union_normalized(types, i));
            assert(references_earlier(types, i));
            if let SemanticTypeView::Union(members) = types[i] {
                assert forall|a: int| 0 <= a < members.len() implies (#[trigger] members[a])
                    != never_type_id() && !(next[members[a].0 as int] is Union) by {
                    assert(referenced_type_ids(types[i])[a] == members[a]);
                    assert(next[members[a].0 as int] == types[members[a].0 as int]);
                }
            }
        } else {
            assert(next[i] == t);
            if let SemanticTypeView::Union(members) = t {
                assert forall|a: int| 0 <= a < members.len() implies (#[trigger] members[a])
                    != never_type_id() && !(next[members[a].0 as int] is Union) by {
                    assert(referenced_type_ids(t)[a] == members[a]);
                    assert(next[members[a].0 as int] == types[members[a].0 as int]);
                }
            }
        }
    }
}

proof fn lemma_name_insert_position(s: Seq<(Seq<char>, TypeId)>, name: Seq<char>, p: int)
    requires
        0 <= p <= s.len(),
        forall|k: int| 0 <= k < p ==> !char_seq_lt(name, (#[trigger] s[k]).0),
        p < s.len() ==> char_seq_lt(name, s[p].0),
    ensures
        name_insert_position(s, name) == p,
    decreases s.len(),
{
    if s.len() > 0 && p > 0 {
        assert forall|k: int| 0 <= k < p - 1 implies !char_seq_lt(name, (#[trigger] s.drop_first()[k]).0) by {
            assert(s.drop_first()[k] == s[k + 1]);
        }
        if p - 1 < s.len() - 1 {
            assert(s.drop_first()[p - 1] == s[p]);
        }
        lemma_name_insert_position(s.drop_first(), name, p - 1);
    }
}

/// Field names never decrease along the list.
pub open spec fn names_nondecreasing(s: Seq<(Seq<char>, TypeId)>) -> bool {
    forall|i: int, j: int| 0 <= i < j < s.len() ==> !char_seq_lt((#[trigger] s[j]).0, (#[trigger] s[i]).0)
}

proof fn lemma_name_insert_position_facts(s: Seq<(Seq<char>, TypeId)>, name: Seq<char>)
    ensures
        name_insert_position(s, name) <= s.len(),
        forall|k: int| 0 <= k < name_insert_position(s, name) ==> !char_seq_lt(name, (#[trigger] s[k]).0),
        name_insert_position(s, name) < s.len() ==> char_seq_lt(name, s[name_insert_position(s, name) as int].0),
    decreases s.len(),
{
    if s.len() > 0 && !char_seq_lt(name, s[0].0) {
        lemma_name_insert_position_facts(s.drop_first(), name);
        assert forall|k: int| 0 <= k < name_insert_position(s, name) implies !char_seq_lt(name, (#[trigger] s[k]).0) by {
            if k > 0 {
                assert(s[k] == s.drop_first()[k - 1]);
            }
        }
        if name_insert_position(s, name) < s.len() {
            assert(s[name_insert_position(s, name) as int] == s.drop_first()[name_insert_position(s.drop_first(), name) as int]);
        }
    }
}

/// Ordering fields that are already in name order changes nothing.
proof fn lemma_sorted_fields_fixed(s: Seq<(Seq<char>, TypeId)>)
    requires
        names_nondecreasing(s),
    ensures
        fields_sorted_by_name(s) == s,
    decreases s.len(),
{
    if s.len() > 0 {
        let d = s.drop_last();
        assert forall|i: int, j: int| 0 <= i < j < d.len() implies !char_seq_lt((#[trigger] d[j]).0, (#[trigger] d[i]).0) by {
            assert(d[i] == s[i] && d[j] == s[j]);
        }
        lemma_sorted_fields_fixed(d);
        assert forall|k: int| 0 <= k < d.len() implies !char_seq_lt(s.last().0, (#[trigger] d[k]).0) by {
            assert(d[k] == s[k]);
            assert(s.last() == s[s.len() - 1]);
        }
        lemma_name_insert_position(d, s.last().0, d.len() as int);
        assert(d.insert(d.len() as int, s.last()) =~= s);
    }
}

/// Ordering by name yields fields in name order.
proof fn lemma_sorted_fields_ordered(s: Seq<(Seq<char>, TypeId)>)
    ensures
        names_nondecreasing(fields_sorted_by_name(s)),
    decreases s.len(),
{
    if s.len() > 0 {
        let d = s.drop_last();
        lemma_sorted_fields_ordered(d);
        let t = fields_sorted_by_name(d);
        let x = s.last();
        lemma_name_insert_position_facts(t, x.0);
        let p = name_insert_position(t, x.0) as int;
        let r = t.insert(p, x);
        assert forall|i: int, j: int| 0 <= i < j < r.len() implies !char_seq_lt((#[trigger] r[j]).0, (#[trigger] r[i]).0) by {
            if j < p {
                assert(r[i] == t[i] && r[j] == t[j]);
            } else if j == p {
                assert(r[i] == t[i]);
                assert(r[j] == x);
            } else if i < p {
                assert(r[i] == t[i] && r[j] == t[j - 1]);
            } else if i == p {
                assert(r[i] == x && r[j] == t[j - 1]);
                if char_seq_lt(t[j - 1].0, x.0) {
                    if j - 1 > p {
                        assert(!char_seq_lt(t[j - 1].0, t[p].0));
                        lemma_char_seq_lt_transitive(t[j - 1].0, x.0, t[p].0);
                    } else {
                        lemma_char_seq_lt_asymmetric(x.0, t[p].0);
                    }
                }
            } else {
                assert(r[i] == t[i - 1] && r[j] == t[j - 1]);
            }
        }
    }
}

/// Ordering fields by name twice is ordering them once.
pub proof fn lemma_sorted_fields_idempotent(s: Seq<(Seq<char>, TypeId)>)
    ensures
        fields_sorted_by_name(fields_sorted_by_name(s)) == fields_sorted_by_name(s),
{
    lemma_sorted_fields_ordered(s);
    lemma_sorted_fields_fixed(fields_sorted_by_name(s));
}

/// Sorting keeps the fields: every sorted field is an input field.
proof fn lemma_sorted_fields_from_input(s: Seq<(Seq<char>, TypeId)>)
    ensures
        fields_sorted_by_name(s).len() == s.len(),
        forall|k: int| 0 <= k < s.len() ==> s.contains(#[trigger] fields_sorted_by_name(s)[k]),
    decreases s.len(),
{
    if s.len() > 0 {
        let d = s.drop_last();
        lemma_sorted_fields_from_input(d);
        let t = fields_sorted_by_name(d);
        let p = name_insert_position(t, s.last().0) as int;
        assert(p <= t.len()) by {
            lemma_name_insert_position_bound(t, s.last().0);
        }
        let r = t.insert(p, s.last());
        assert forall|k: int| 0 <= k < s.len() implies s.contains(#[trigger] r[k]) by {
            if k < p {
                assert(d.contains(t[k]));
                let m = choose|m: int| 0 <= m < d.len() && d[m] == t[k];
                assert(s[m] == r[k]);
            } else if k == p {
                assert(s[s.len() - 1] == r[k]);
            } else {
                assert(r[k] == t[k - 1]);
                assert(d.contains(t[k - 1]));
                let m = choose|m: int| 0 <= m < d.len() && d[m] == t[k - 1];
                assert(s[m] == r[k]);
            }
        }
    }
}

proof fn lemma_name_insert_position_bound(s: Seq<(Seq<char>, TypeId)>, name: Seq<char>)
    ensures
        name_insert_position(s, name) <= s.len(),
    decreases s.len(),
{
    if s.len() > 0 {
        lemma_name_insert_position_bound(s.drop_first(), name);
    }
}

/// The fields stably ordered by name.
fn sort_fields_by_name(fields: Vec<(String, TypeId)>) -> (r: Vec<(String, TypeId)>)
    ensures
        field_views(r@) == fields_sorted_by_name(field_views(fields@)),
{
    let mut sorted: Vec<(String, TypeId)> = Vec::new();
    let mut pending = fields;
    let ghost input = field_views(pending@);
    let mut taken: usize = 0;
    let n = pending.len();
    assert(field_views(sorted@) =~= fields_sorted_by_name(input.take(0)));
    while taken < n
        invariant
            n == input.len(),
            taken <= n,
            pending@.len() == n - taken,
            forall|k: int|
                0 <= k < pending@.len() ==> (#[trigger] field_views(pending@)[k]) == input[taken + k],
            field_views(sorted@) == fields_sorted_by_name(input.take(taken as int)),
        decreases n - taken,
    {
        let ghost pending_before = field_views(pending@);
        let field = pending.remove(0);
        proof {
            assert(pending_before[0] == input[taken as int]);
            assert forall|k: int| 0 <= k < pending@.len() implies (#[trigger] field_views(pending@)[k])
                == input[taken + 1 + k] by {
                assert(field_views(pending@)[k] == pending_before[k + 1]);
            }
        }
        let ghost before = field_views(sorted@);
        let mut pos: usize = 0;
        while pos < sorted.len()
            invariant
                pos <= sorted@.len(),
                before == field_views(sorted@),
                forall|k: int| 0 <= k < pos ==> !char_seq_lt(field.0@, (#[trigger] before[k]).0),
            ensures
                pos <= sorted@.len(),
                forall|k: int| 0 <= k < pos ==> !char_seq_lt(field.0@, (#[trigger] before[k]).0),
                pos < sorted@.len() ==> char_seq_lt(field.0@, before[pos as int].0),
            decreases sorted.len() - pos,
        {
            assert(before[pos as int].0 == sorted@[pos as int].0@);
            if str_lt(field.0.as_str(), sorted[pos].0.as_str()) {
                break;
            }
            pos = pos + 1;
        }
        proof {
            lemma_name_insert_position(before, field.0@, pos as int);
            let next = input.take(taken + 1);
            assert(next.drop_last() =~= input.take(taken as int));
            assert(next.last() == input[taken as int]);
        }
        let ghost fv = (field.0@, field.1);
        sorted.insert(pos, field);
        proof {
            assert(field_views(sorted@) =~= before.insert(pos as int, fv));
        }
        taken = taken + 1;
    }
    proof {
        assert(input.take(n as int) =~= input);
    }
    sorted
}

/// Whether the type `id` is, or refers at any depth to, a type parameter.
pub open spec fn reaches_type_parameter(types: Seq<SemanticTypeView>, id: int) -> bool
    decreases id,
{
    if 0 <= id < types.len() {
        match types[id] {
            SemanticTypeView::TypeParameter(_) => true,
            t => exists|k: int|
                0 <= k < referenced_type_ids(t).len() && 0 <= (
                #[trigger] referenced_type_ids(t)[k]).0 < id && reaches_type_parameter(
                    types,
                    referenced_type_ids(t)[k].0 as int,
                ),
        }
    } else {
        false
    }
}

/// Whether the type `id` is, or refers at any depth to, one of the two view types.
pub open spec fn reaches_view(types: Seq<SemanticTypeView>, id: int) -> bool
    decreases id,
{
    if 0 <= id < types.len() {
        is_view_type(types[id], 122) || is_view_type(types[id], 123) || exists|k: int|
            0 <= k < referenced_type_ids(types[id]).len() && 0 <= (
            #[trigger] referenced_type_ids(types[id])[k]).0 < id && reaches_view(
                types,
                referenced_type_ids(types[id])[k].0 as int,
            )
    } else {
        false
    }
}

/// Why a stored arena snapshot was refused.
#[derive(Clone, Copy, Debug, PartialEq, Eq, Structural)]
pub enum TypeArenaSnapshotError {
    /// The stored types do not start with the primitive types in schema order.
    InvalidPrimitivePrefix,
    /// A stored type refers to an identity not stored before it.
    InvalidTypeDependency,
    /// A stored type does not intern to its own position.
    NoncanonicalTypeArena,
    /// A stored specialization names an identity that is not stored.
    InvalidClassSpecialization,
}

impl TypeArenaSnapshotError {
    /// The message a decoder reports for this refusal.
    pub fn message(&self) -> (r: &'static str)
        ensures
            r@ == match self {
                TypeArenaSnapshotError::InvalidPrimitivePrefix => "invalid primitive type prefix"@,
                TypeArenaSnapshotError::InvalidTypeDependency => "invalid type dependency"@,
                TypeArenaSnapshotError::NoncanonicalTypeArena => "noncanonical type arena"@,
                TypeArenaSnapshotError::InvalidClassSpecialization => "invalid class specialization"@,
            },
    {
        match self {
            TypeArenaSnapshotError::InvalidPrimitivePrefix => "invalid primitive type prefix",
            TypeArenaSnapshotError::InvalidTypeDependency => "invalid type dependency",
            TypeArenaSnapshotError::NoncanonicalTypeArena => "noncanonical type arena",
            TypeArenaSnapshotError::InvalidClassSpecialization => "invalid class specialization",
        }
    }
}

/// The table of a fresh arena.
pub open spec fn primitive_table() -> Seq<SemanticTypeView> {
    canonical_primitives().map_values(|p: PrimitiveType| SemanticTypeView::Primitive(p))
}

/// Interning the stored types `rest` one by one onto `types`, each of which
/// must land at its own position.
pub open spec fn replay_types(types: Seq<SemanticTypeView>, rest: Seq<SemanticTypeView>) -> Result<
    Seq<SemanticTypeView>,
    TypeArenaSnapshotError,
>
    decreases rest.len(),
{
    if rest.len() == 0 {
        Ok(types)
    } else {
        match intern_outcome(types, rest[0]) {
            Err(_) => Err(TypeArenaSnapshotError::InvalidTypeDependency),
            Ok((next, id)) => if id.0 == types.len() {
                replay_types(next, rest.drop_first())
            } else {
                Err(TypeArenaSnapshotError::NoncanonicalTypeArena)
            },
        }
    }
}

/// The table a stored type list restores, or why it is refused.
pub open spec fn snapshot_types(stored: Seq<SemanticTypeView>) -> Result<
    Seq<SemanticTypeView>,
    TypeArenaSnapshotError,
> {
    if stored.len() >= 14 && stored.take(14) == primitive_table() {
        replay_types(primitive_table(), stored.skip(14))
    } else {
        Err(TypeArenaSnapshotError::InvalidPrimitivePrefix)
    }
}

/// A stored specialization names an identity not below `count`.
pub open spec fn entry_unknown(count: int, e: (ClassId, Seq<TypeId>, TypeId)) -> bool {
    first_unknown(count, e.1.push(e.2)) is Some
}

/// The concrete type of the last stored entry for `class` and `arguments`.
pub open spec fn last_lookup(entries: Seq<(ClassId, Seq<TypeId>, TypeId)>, class: ClassId, arguments: Seq<TypeId>) -> Option<TypeId>
    decreases entries.len(),
{
    if entries.len() == 0 {
        None
    } else if entries.last().0 == class && entries.last().1 == arguments {
        Some(entries.last().2)
    } else {
        last_lookup(entries.drop_last(), class, arguments)
    }
}

/// What restoring an arena from stored types and specialization entries
/// gives: the refusal, or an arena with the restored table whose
/// specialization lookups are those of the last entry for each key.
pub open spec fn restores(
    stored: Seq<SemanticTypeView>,
    entries: Seq<(ClassId, Seq<TypeId>, TypeId)>,
    r: Result<TypeArena, TypeArenaSnapshotError>,
) -> bool {
    match snapshot_types(stored) {
        Err(e) => r == Err::<TypeArena, TypeArenaSnapshotError>(e),
        Ok(tv) => if exists|i: int| 0 <= i < entries.len() && #[trigger] entry_unknown(tv.len() as int, entries[i]) {
            r == Err::<TypeArena, TypeArenaSnapshotError>(TypeArenaSnapshotError::InvalidClassSpecialization)
        } else {
            r matches Ok(a) && a.well_formed() && a.types() == tv && keys_ascending(a.specializations())
                && forall|c: ClassId, args: Seq<TypeId>| #[trigger] class_lookup(a.specializations(), c, args)
                == last_lookup(entries, c, args)
        },
    }
}

/// The abstract content of stored specialization entries.
pub open spec fn entry_views(v: Seq<(ClassId, Vec<TypeId>, TypeId)>) -> Seq<(ClassId, Seq<TypeId>, TypeId)> {
    v.map_values(|e: (ClassId, Vec<TypeId>, TypeId)| (e.0, e.1@, e.2))
}

/// Interning entry `k` of a well-formed table onto the entries before it
/// puts it back at position `k`.
proof fn lemma_reintern_entry(types: Seq<SemanticTypeView>, k: int)
    requires
        arena_types_wf(types),
        14 <= k < types.len(),
    ensures
        intern_outcome(types.take(k), types[k]) == Ok::<(Seq<SemanticTypeView>, TypeId), TypeArenaError>(
            (types.take(k + 1), TypeId(k as u32)),
        ),
{
    let before = types.take(k);
    let t = types[k];
    assert(references_earlier(types, k));
    assert(canonical_entry(t));
    assert(union_normalized(types, k));
    if before.contains(t) {
        let j = choose|j: int| 0 <= j < before.len() && before[j] == t;
        assert(types[j] != types[k]);
    }
    assert(before.push(t) =~= types.take(k + 1));
    let refs = referenced_type_ids(t);
    assert forall|a: int| 0 <= a < refs.len() implies (#[trigger] refs[a]).0 < k by {
    }
    match t {
        SemanticTypeView::Union(ms) => {
            assert(refs == ms);
            lemma_last_unknown_none(k, ms);
            assert forall|x: TypeId| #[trigger] ms.contains(x) <==> flattened_member(before, ms, x) by {
                if ms.contains(x) {
                    let a = choose|a: int| 0 <= a < ms.len() && ms[a] == x;
                    assert(before[ms[a].0 as int] == types[ms[a].0 as int]);
                    assert(contributes(before, ms[a], x));
                }
                if flattened_member(before, ms, x) {
                    let a = choose|a: int| 0 <= a < ms.len() && #[trigger] contributes(before, ms[a], x);
                    assert(before[ms[a].0 as int] == types[ms[a].0 as int]);
                    assert(ms[a] == x);
                }
            }
            let chosen = normalized_union_members(before, ms);
            lemma_ascending_ids_unique(ms, chosen);
        },
        SemanticTypeView::Record(fields) => {
            lemma_first_unknown_none(k, refs);
        },
        _ => {
            lemma_first_unknown_none(k, refs);
        },
    }
}

/// Replaying the entries of a well-formed table from position `k` on
/// restores the whole table.
proof fn lemma_replay_from(types: Seq<SemanticTypeView>, k: int)
    requires
        arena_types_wf(types),
        14 <= k <= types.len(),
    ensures
        replay_types(types.take(k), types.skip(k)) == Ok::<Seq<SemanticTypeView>, TypeArenaSnapshotError>(types),
    decreases types.len() - k,
{
    if k == types.len() {
        assert(types.take(k) =~= types);
        assert(types.skip(k).len() == 0);
    } else {
        lemma_reintern_entry(types, k);
        let rest = types.skip(k);
        assert(rest[0] == types[k]);
        assert(rest.drop_first() =~= types.skip(k + 1));
        lemma_replay_from(types, k + 1);
    }
}

/// The last entry for a key of a table in key order is its only entry.
proof fn lemma_last_lookup_ordered(s: Seq<(ClassId, Seq<TypeId>, TypeId)>, c: ClassId, a: Seq<TypeId>)
    requires
        keys_ascending(s),
    ensures
        last_lookup(s, c, a) == class_lookup(s, c, a),
    decreases s.len(),
{
    if s.len() > 0 {
        let d = s.drop_last();
        assert forall|i: int, j: int| 0 <= i < j < d.len() implies class_key_lt(
            entry_key(#[trigger] d[i]),
            entry_key(#[trigger] d[j]),
        ) by {
            assert(d[i] == s[i] && d[j] == s[j]);
        }
        lemma_last_lookup_ordered(d, c, a);
        let n = s.len() - 1;
        if s.last().0 == c && s.last().1 == a {
            assert(s[n] == s.last());
            lemma_class_lookup_index(s, n);
        } else if exists|i: int| 0 <= i < d.len() && d[i].0 == c && d[i].1 == a {
            let i = choose|i: int| 0 <= i < d.len() && d[i].0 == c && d[i].1 == a;
            assert(d[i] == s[i]);
            lemma_class_lookup_index(d, i);
            lemma_class_lookup_index(s, i);
        } else {
            lemma_class_lookup_absent(d, c, a);
            assert forall|i: int| 0 <= i < s.len() implies !((#[trigger] s[i]).0 == c && s[i].1 == a) by {
                if i < n {
                    assert(d[i] == s[i]);
                }
            }
            lemma_class_lookup_absent(s, c, a);
        }
    }
}

/// Storing a well-formed arena and restoring what was stored gives back an
/// arena with the same types under the same identities and the same
/// specialization for every key.
pub proof fn lemma_snapshot_round_trip(arena: &TypeArena, r: Result<TypeArena, TypeArenaSnapshotError>)
    requires
        arena.well_formed(),
        restores(arena.types(), arena.specializations(), r),
    ensures
        r matches Ok(restored) && restored.types() == arena.types() && forall|c: ClassId, args: Seq<TypeId>|
            #[trigger] class_lookup(restored.specializations(), c, args) == class_lookup(
                arena.specializations(),
                c,
                args,
            ),
{
    let types = arena.types();
    arena.lemma_identity_range();
    assert(types.take(14) =~= primitive_table()) by {
        assert forall|k: int| 0 <= k < 14 implies types.take(14)[k] == primitive_table()[k] by {
            arena.lemma_primitives_first(k);
        }
    }
    lemma_replay_from(types, 14);
    arena.lemma_specializations_known();
    let sp = arena.specializations();
    assert forall|c: ClassId, args: Seq<TypeId>| #[trigger] last_lookup(sp, c, args) == class_lookup(sp, c, args) by {
        lemma_last_lookup_ordered(sp, c, args);
    }
}

/// The interned semantic types of a compilation, plus the concrete types
/// selected for generic class specializations.
#[derive(Debug)]
pub struct TypeArena {
    types: Vec<SemanticType>,
    class_specializations: ClassSpecializations,
}

/// The views of the arena's entries.
pub open spec fn type_views(v: Seq<SemanticType>) -> Seq<SemanticTypeView> {
    v.map_values(|t: SemanticType| t@)
}

/// Every identity a specialization entry names is below `count`.
pub open spec fn specializations_within(s: Seq<(ClassId, Seq<TypeId>, TypeId)>, count: int) -> bool {
    forall|i: int|
        0 <= i < s.len() ==> {
            &&& (#[trigger] s[i]).2.0 < count
            &&& forall|k: int| 0 <= k < s[i].1.len() ==> (#[trigger] s[i].1[k]).0 < count
        }
}

/// Whether a built-in type is the argument-free view type `definition`.
pub open spec fn is_view_type(t: SemanticTypeView, definition: u32) -> bool {
    t matches SemanticTypeView::Builtin { definition: d, arguments } && d.0 == definition
        && arguments.len() == 0
}

impl TypeArena {
    /// The arena invariant: a canonical, acyclic table of distinct types,
    /// and specializations that name interned types only. Every arena keeps
    /// it; a holder of an arena learns it from `use_type_invariant`.
    #[verifier::type_invariant]
    pub closed spec fn well_formed(&self) -> bool {
        &&& arena_types_wf(type_views(self.types@))
        &&& specializations_within(self.class_specializations@, self.types@.len() as int)
        &&& keys_ascending(self.class_specializations@)
    }

    /// The interned types, by identity.
    pub closed spec fn types(&self) -> Seq<SemanticTypeView> {
        type_views(self.types@)
    }

    /// The recorded class specializations.
    pub closed spec fn specializations(&self) -> Seq<(ClassId, Seq<TypeId>, TypeId)> {
        self.class_specializations@
    }

    /// Number of interned types.
    pub open spec fn type_count(&self) -> nat {
        self.types().len()
    }

    /// Whether `id` names an interned type.
    pub open spec fn has_type(&self, id: TypeId) -> bool {
        (id.0 as int) < self.type_count()
    }

    /// A fresh arena holding every primitive type, in schema order.
    pub fn new() -> (r: Self)
        ensures
            r.types() == canonical_primitives().map_values(|p: PrimitiveType| SemanticTypeView::Primitive(p)),
            r.specializations() == Seq::<(ClassId, Seq<TypeId>, TypeId)>::empty(),
            r.well_formed(),
    {
        let mut types: Vec<SemanticType> = Vec::new();
        types.push(SemanticType::Primitive(PrimitiveType::Nil));
        types.push(SemanticType::Primitive(PrimitiveType::Boolean));
        types.push(SemanticType::Primitive(PrimitiveType::Integer(IntegerKind::Int8)));
        types.push(SemanticType::Primitive(PrimitiveType::Integer(IntegerKind::Int16)));
        types.push(SemanticType::Primitive(PrimitiveType::Integer(IntegerKind::Int32)));
        types.push(SemanticType::Primitive(PrimitiveType::Integer(IntegerKind::Int64)));
        types.push(SemanticType::Primitive(PrimitiveType::Integer(IntegerKind::UInt8)));
        types.push(SemanticType::Primitive(PrimitiveType::Integer(IntegerKind::UInt16)));
        types.push(SemanticType::Primitive(PrimitiveType::Integer(IntegerKind::UInt32)));
        types.push(SemanticType::Primitive(PrimitiveType::Integer(IntegerKind::UInt64)));
        types.push(SemanticType::Primitive(PrimitiveType::Float32));
        types.push(SemanticType::Primitive(PrimitiveType::Float64));
        types.push(SemanticType::Primitive(PrimitiveType::String));
        types.push(SemanticType::Primitive(PrimitiveType::Never));
        let ghost expected = canonical_primitives().map_values(
            |p: PrimitiveType| SemanticTypeView::Primitive(p),
        );
        proof {
            assert(type_views(types@) =~= expected);
            let tv = type_views(types@);
            assert forall|i: int, j: int| 0 <= i < j < tv.len() implies #[trigger] tv[i] != #[trigger] tv[j] by {
                assert(canonical_primitives()[i] != canonical_primitives()[j]);
            }
            assert forall|i: int| 0 <= i < tv.len() implies #[trigger] references_earlier(tv, i) by {
                assert(referenced_type_ids(tv[i]) =~= Seq::<TypeId>::empty());
            }
            assert forall|i: int| 0 <= i < tv.len() implies #[trigger] union_normalized(tv, i) by {
            }
        }
        TypeArena { types, class_specializations: ClassSpecializations::new() }
    }

    /// Each type is interned once: equal entries have the same identity.
    pub proof fn lemma_interned_once(&self, i: int, j: int)
        requires
            self.well_formed(),
            0 <= i < self.type_count(),
            0 <= j < self.type_count(),
            self.types()[i] == self.types()[j],
        ensures
            i == j,
    {
        let tv = self.types();
        if i < j {
            assert(tv[i] != tv[j]);
        } else if j < i {
            assert(tv[j] != tv[i]);
        }
    }

    /// A type refers only to types interned before it.
    pub proof fn lemma_refers_to_earlier(&self, id: int, k: int)
        requires
            self.well_formed(),
            0 <= id < self.type_count(),
            0 <= k < referenced_type_ids(self.types()[id]).len(),
        ensures
            referenced_type_ids(self.types()[id])[k].0 < id,
    {
        assert(references_earlier(self.types(), id));
    }

    /// Every identity fits the 32-bit range and the primitives are present.
    pub proof fn lemma_identity_range(&self)
        requires
            self.well_formed(),
        ensures
            14 <= self.type_count() <= 0x1_0000_0000,
    {
    }

    /// Specializations are in key order and name interned types only.
    pub proof fn lemma_specializations_known(&self)
        requires
            self.well_formed(),
        ensures
            keys_ascending(self.specializations()),
            forall|i: int|
                0 <= i < self.specializations().len() ==> !#[trigger] entry_unknown(
                    self.type_count() as int,
                    self.specializations()[i],
                ),
    {
        let sp = self.specializations();
        assert forall|i: int| 0 <= i < sp.len() implies !#[trigger] entry_unknown(self.type_count() as int, sp[i]) by {
            let ids = sp[i].1.push(sp[i].2);
            assert forall|k: int| 0 <= k < ids.len() implies (#[trigger] ids[k]).0 < self.type_count() by {
                if k < sp[i].1.len() {
                    assert(ids[k] == sp[i].1[k]);
                }
            }
            lemma_first_unknown_none(self.type_count() as int, ids);
        }
    }

    /// The first entries are the primitive types, in schema order.
    pub proof fn lemma_primitives_first(&self, k: int)
        requires
            self.well_formed(),
            0 <= k < 14,
        ensures
            self.types()[k] == SemanticTypeView::Primitive(canonical_primitives()[k]),
    {
    }

    /// The interned type `id`, if any.
    pub fn get(&self, id: TypeId) -> (r: Option<&SemanticType>)
        ensures
            r is Some <==> self.has_type(id),
            r matches Some(t) ==> t@ == self.types()[id.0 as int],
    {
        if (id.0 as usize) < self.types.len() {
            Some(&self.types[id.0 as usize])
        } else {
            None
        }
    }

    /// The identity under which `semantic` is interned, if it is.
    pub fn find(&self, semantic: &SemanticType) -> (r: Option<TypeId>)
        ensures
            r == type_lookup(self.types(), semantic@),
            r is Some <==> self.types().contains(semantic@),
            r matches Some(id) ==> self.has_type(id) && self.types()[id.0 as int] == semantic@,
    {
        proof {
            use_type_invariant(self);
        }
        let mut i: usize = 0;
        while i < self.types.len()
            invariant
                i <= self.types@.len(),
                self.well_formed(),
                forall|k: int| 0 <= k < i ==> type_views(self.types@)[k] != semantic@,
            decreases self.types.len() - i,
        {
            if self.types[i].same_as(semantic) {
                proof {
                    let tv = self.types();
                    assert(tv[i as int] == semantic@);
                    let c = choose|c: int| 0 <= c < tv.len() && tv[c] == semantic@;
                    self.lemma_interned_once(c, i as int);
                }
                return Some(TypeId(i as u32));
            }
            assert(type_views(self.types@)[i as int] == self.types@[i as int]@);
            i = i + 1;
        }
        proof {
            if self.types().contains(semantic@) {
                let k = choose|k: int| 0 <= k < self.types().len() && self.types()[k] == semantic@;
                assert(type_views(self.types@)[k] != semantic@);
            }
        }
        None
    }

    pub fn len(&self) -> (r: usize)
        ensures
            r == self.type_count(),
    {
        self.types.len()
    }

    /// Never true: every arena holds the primitive types.
    pub fn is_empty(&self) -> (r: bool)
        ensures
            r == (self.type_count() == 0),
            !r,
    {
        proof {
            use_type_invariant(self);
        }
        self.types.len() == 0
    }

    /// The primitive type a source spelling names, as an arena identity.
    pub fn source_type(&self, name: &str) -> (r: Option<TypeId>)
        ensures
            r is Some <==> primitive_for_source_name(name@) is Some,
            r matches Some(id) ==> self.has_type(id) && self.types()[id.0 as int]
                == SemanticTypeView::Primitive(primitive_for_source_name(name@)->0),
    {
        proof {
            use_type_invariant(self);
        }
        match PrimitiveType::from_source_name(name) {
            Some(p) => {
                let probe = SemanticType::Primitive(p);
                let found = self.find(&probe);
                proof {
                    let k: int = choose|k: int| 0 <= k < 14 && canonical_primitives()[k] == p;
                    assert(self.types()[k] == SemanticTypeView::Primitive(canonical_primitives()[k]));
                    assert(self.types().contains(probe@));
                }
                found
            },
            None => None,
        }
    }

    /// Which view family `type_id` is, if it is one of the two view types.
    pub fn view_kind(&self, type_id: TypeId) -> (r: Option<ViewKind>)
        ensures
            r == (if self.has_type(type_id) && is_view_type(self.types()[type_id.0 as int], 122) {
                Some(ViewKind::Bytes)
            } else if self.has_type(type_id) && is_view_type(self.types()[type_id.0 as int], 123) {
                Some(ViewKind::Text)
            } else {
                None
            }),
    {
        match self.get(type_id) {
            Some(SemanticType::Builtin { definition, arguments }) => {
                if arguments.len() == 0 {
                    if definition.0 == 122 {
                        Some(ViewKind::Bytes)
                    } else if definition.0 == 123 {
                        Some(ViewKind::Text)
                    } else {
                        None
                    }
                } else {
                    None
                }
            },
            _ => None,
        }
    }

    /// Whether `id` names a type that lowered code may use.
    pub fn is_valid_hir_type(&self, id: TypeId) -> (r: bool)
        ensures
            r == (self.has_type(id) && !(self.types()[id.0 as int] is Attribute
                || self.types()[id.0 as int] is Error)),
    {
        match self.get(id) {
            Some(t) => t.is_valid_hir_type(),
            None => false,
        }
    }

    /// Whether `id` names a type that compile-time code may use.
    pub fn is_valid_compile_time_type(&self, id: TypeId) -> (r: bool)
        ensures
            r == (self.has_type(id) && !(self.types()[id.0 as int] is Error)),
    {
        match self.get(id) {
            Some(t) => t.is_valid_compile_time_type(),
            None => false,
        }
    }

    /// Whether `type_id` is, or refers at any depth to, a type parameter.
    pub fn contains_type_parameter(&self, type_id: TypeId) -> (r: bool)
        ensures
            r == reaches_type_parameter(self.types(), type_id.0 as int),
        decreases type_id.0,
    {
        proof {
            use_type_invariant(self);
        }
        match self.get(type_id) {
            Some(SemanticType::TypeParameter(_)) => true,
            Some(semantic) => {
                let ghost tv = self.types();
                let ids = referenced_types(semantic);
                proof {
                    assert(references_earlier(tv, type_id.0 as int));
                }
                let mut i: usize = 0;
                while i < ids.len()
                    invariant
                        i <= ids@.len(),
                        ids@ == referenced_type_ids(tv[type_id.0 as int]),
                        tv == self.types(),
                        self.well_formed(),
                        0 <= type_id.0 < tv.len(),
                        references_earlier(tv, type_id.0 as int),
                        forall|k: int| 0 <= k < i ==> !reaches_type_parameter(tv, (#[trigger] ids@[k]).0 as int),
                    decreases ids.len() - i,
                {
                    if self.contains_type_parameter(ids[i]) {
                        return true;
                    }
                    i = i + 1;
                }
                false
            },
            None => false,
        }
    }

    /// Whether `type_id` is, or refers at any depth to, a view type.
    pub fn contains_view(&self, type_id: TypeId) -> (r: bool)
        ensures
            r == reaches_view(self.types(), type_id.0 as int),
        decreases type_id.0,
    {
        proof {
            use_type_invariant(self);
        }
        if self.view_kind(type_id).is_some() {
            return true;
        }
        match self.get(type_id) {
            Some(semantic) => {
                let ghost tv = self.types();
                let ids = referenced_types(semantic);
                proof {
                    assert(references_earlier(tv, type_id.0 as int));
                }
                let mut i: usize = 0;
                while i < ids.len()
                    invariant
                        i <= ids@.len(),
                        ids@ == referenced_type_ids(tv[type_id.0 as int]),
                        tv == self.types(),
                        self.well_formed(),
                        0 <= type_id.0 < tv.len(),
                        references_earlier(tv, type_id.0 as int),
                        forall|k: int| 0 <= k < i ==> !reaches_view(tv, (#[trigger] ids@[k]).0 as int),
                    decreases ids.len() - i,
                {
                    if self.contains_view(ids[i]) {
                        return true;
                    }
                    i = i + 1;
                }
                false
            },
            None => false,
        }
    }

    /// The existing type that `type_id` becomes when each type parameter is
    /// replaced by its substitute, using the arena's own specializations.
    pub fn substitute_existing(&self, type_id: TypeId, substitutions: &TypeSubstitutions) -> (r: Option<
        TypeId,
    >)
        ensures
            r == substituted(self.types(), type_id.0 as int, substitutions@, self.specializations()),
    {
        proof {
            use_type_invariant(self);
        }
        self.substitute_existing_with_classes(type_id, substitutions, &self.class_specializations)
    }

    /// Records the concrete nominal type selected for one generic class
    /// template and canonical argument list, after checking every identity.
    pub fn register_class_specialization(
        &mut self,
        source: ClassId,
        arguments: Vec<TypeId>,
        concrete: TypeId,
    ) -> (r: Result<(), TypeArenaError>)
        ensures
            final(self).well_formed(),
            final(self).types() == old(self).types(),
            match first_unknown(old(self).type_count() as int, arguments@.push(concrete)) {
                Some(bad) => r == Err::<(), TypeArenaError>(TypeArenaError::UnknownTypeId(bad))
                    && final(self).specializations() == old(self).specializations(),
                None => r == Ok::<(), TypeArenaError>(()) && keys_ascending(final(self).specializations())
                    && forall|c: ClassId, a: Seq<TypeId>| #[trigger] class_lookup(final(self).specializations(), c, a)
                    == if c == source && a == arguments@ {
                    Some(concrete)
                } else {
                    class_lookup(old(self).specializations(), c, a)
                },
            },
    {
        proof {
            use_type_invariant(&*self);
        }
        let mut ids = copy_type_ids(arguments.as_slice());
        ids.push(concrete);
        if let Err(e) = self.validate_ids(ids.as_slice()) {
            return Err(e);
        }
        proof {
            lemma_first_unknown_none(self.type_count() as int, ids@);
        }
        let ghost before = self.specializations();
        let ghost n = self.type_count() as int;
        let ghost args = arguments@;
        assert(ids@ =~= args.push(concrete));
        proof {
            use_type_invariant(&*self);
        }
        let mut table = ClassSpecializations::new();
        std::mem::swap(&mut table, &mut self.class_specializations);
        table.insert(source, arguments, concrete);
        proof {
            let after = table@;
            assert forall|i: int| 0 <= i < after.len() implies {
                &&& (#[trigger] after[i]).2.0 < n
                &&& forall|k: int| 0 <= k < after[i].1.len() ==> (#[trigger] after[i].1[k]).0 < n
            } by {
                if after[i] == (source, args, concrete) {
                    assert(ids@[ids@.len() - 1] == concrete);
                    assert forall|k: int| 0 <= k < after[i].1.len() implies (#[trigger] after[i].1[k]).0 < n by {
                        assert(ids@[k] == after[i].1[k]);
                    }
                } else {
                    assert(before.contains(after[i]));
                    let j = choose|j: int| 0 <= j < before.len() && before[j] == after[i];
                    assert(before[j] == after[i]);
                }
            }
        }
        self.class_specializations = table;
        Ok(())
    }

    /// The recorded specializations in key order: class, arguments, concrete type.
    pub fn class_specializations(&self) -> (r: Vec<(ClassId, Vec<TypeId>, TypeId)>)
        ensures
            keys_ascending(self.specializations()),
            r@.len() == self.specializations().len(),
            forall|i: int|
                0 <= i < r@.len() ==> (#[trigger] r@[i]).0 == self.specializations()[i].0 && r@[i].1@
                    == self.specializations()[i].1 && r@[i].2 == self.specializations()[i].2,
    {
        self.class_specializations.entries()
    }

    /// The stored form of the arena: its types by identity, and its class
    /// specializations in key order.
    pub fn to_snapshot(&self) -> (r: (Vec<SemanticType>, Vec<(ClassId, Vec<TypeId>, TypeId)>))
        ensures
            type_views(r.0@) == self.types(),
            entry_views(r.1@) == self.specializations(),
    {
        let mut out: Vec<SemanticType> = Vec::new();
        let mut i: usize = 0;
        while i < self.types.len()
            invariant
                i <= self.types@.len(),
                type_views(out@) == type_views(self.types@).take(i as int),
            decreases self.types.len() - i,
        {
            let ghost before = out@;
            let copy = self.types[i].duplicate();
            out.push(copy);
            proof {
                assert(type_views(out@) =~= type_views(before).push(self.types@[i as int]@));
            }
            i = i + 1;
            assert(type_views(out@) =~= type_views(self.types@).take(i as int));
        }
        assert(type_views(self.types@).take(i as int) =~= type_views(self.types@));
        let entries = self.class_specializations();
        assert(entry_views(entries@) =~= self.specializations());
        (out, entries)
    }

    /// Restores an arena from its stored form: the primitive types must come
    /// first, every further type must intern to its own position, and every
    /// specialization must name stored types.
    pub fn from_snapshot(
        types: Vec<SemanticType>,
        class_specializations: Vec<(ClassId, Vec<TypeId>, TypeId)>,
    ) -> (r: Result<Self, TypeArenaSnapshotError>)
        requires
            types@.len() <= 0x1_0000_0000,
        ensures
            restores(type_views(types@), entry_views(class_specializations@), r),
    {
        let ghost stored = type_views(types@);
        let mut arena = TypeArena::new();
        if types.len() < 14 {
            return Err(TypeArenaSnapshotError::InvalidPrimitivePrefix);
        }
        let mut k: usize = 0;
        while k < 14
            invariant
                k <= 14,
                types@.len() >= 14,
                stored == type_views(types@),
                arena.types() == primitive_table(),
                arena.types@.len() == 14,
                forall|j: int| 0 <= j < k ==> stored[j] == primitive_table()[j],
            decreases 14 - k,
        {
            proof {
                assert(stored[k as int] == types@[k as int]@);
                assert(arena.types()[k as int] == arena.types@[k as int]@);
            }
            if !types[k].same_as(&arena.types[k]) {
                proof {
                    assert(stored.take(14)[k as int] != primitive_table()[k as int]);
                }
                return Err(TypeArenaSnapshotError::InvalidPrimitivePrefix);
            }
            k = k + 1;
        }
        proof {
            assert(stored.take(14) =~= primitive_table());
        }
        let mut raw: usize = 14;
        while raw < types.len()
            invariant
                14 <= raw <= types@.len(),
                types@.len() <= 0x1_0000_0000,
                stored == type_views(types@),
                stored.len() >= 14 && stored.take(14) == primitive_table(),
                arena.well_formed(),
                arena.type_count() == raw,
                arena.specializations() == Seq::<(ClassId, Seq<TypeId>, TypeId)>::empty(),
                snapshot_types(stored) == replay_types(arena.types(), stored.skip(raw as int)),
            decreases types.len() - raw,
        {
            let ghost before = arena.types();
            let ghost rest = stored.skip(raw as int);
            proof {
                assert(rest[0] == stored[raw as int]);
                assert(rest.drop_first() =~= stored.skip(raw + 1));
            }
            let semantic = types[raw].duplicate();
            match arena.intern(semantic) {
                Err(_) => {
                    return Err(TypeArenaSnapshotError::InvalidTypeDependency);
                },
                Ok(id) => {
                    if id.0 as usize != raw {
                        return Err(TypeArenaSnapshotError::NoncanonicalTypeArena);
                    }
                },
            }
            raw = raw + 1;
        }
        proof {
            assert(stored.skip(raw as int).len() == 0);
        }
        let ghost tv = arena.types();
        let ghost entries = entry_views(class_specializations@);
        let mut i: usize = 0;
        while i < class_specializations.len()
            invariant
                i <= class_specializations@.len(),
                snapshot_types(stored) == Ok::<Seq<SemanticTypeView>, TypeArenaSnapshotError>(tv),
                stored == type_views(types@),
                entries == entry_views(class_specializations@),
                arena.well_formed(),
                arena.types() == tv,
                keys_ascending(arena.specializations()),
                forall|j: int| 0 <= j < i ==> !#[trigger] entry_unknown(tv.len() as int, entries[j]),
                forall|c: ClassId, args: Seq<TypeId>| #[trigger] class_lookup(arena.specializations(), c, args)
                    == last_lookup(entries.take(i as int), c, args),
            decreases class_specializations.len() - i,
        {
            let entry = &class_specializations[i];
            let arguments = copy_type_ids(entry.1.as_slice());
            let ghost e = entries[i as int];
            proof {
                assert(e == (entry.0, entry.1@, entry.2));
                assert(arguments@.push(entry.2) == e.1.push(e.2));
            }
            match arena.register_class_specialization(entry.0, arguments, entry.2) {
                Err(_) => {
                    proof {
                        assert(entry_unknown(tv.len() as int, entries[i as int]));
                        assert(snapshot_types(stored)->Ok_0 == tv);
                        assert(entry_unknown(snapshot_types(stored)->Ok_0.len() as int, entries[i as int]));
                        assert(restores(
                            stored,
                            entries,
                            Err::<TypeArena, TypeArenaSnapshotError>(TypeArenaSnapshotError::InvalidClassSpecialization),
                        ));
                    }
                    return Err(TypeArenaSnapshotError::InvalidClassSpecialization);
                },
                Ok(()) => {},
            }
            proof {
                let next = entries.take(i + 1);
                assert(next.drop_last() =~= entries.take(i as int));
                assert(next.last() == e);
            }
            i = i + 1;
        }
        proof {
            assert(entries.take(i as int) =~= entries);
        }
        Ok(arena)
    }

    /// Interns `semantic` as it stands: the existing identity if it is
    /// present, else a new one.
    fn intern_canonical(&mut self, semantic: SemanticType) -> (r: TypeId)
        requires
            admissible(old(self).types(), semantic@),
            old(self).type_count() < 0x1_0000_0000 || old(self).types().contains(semantic@),
        ensures
            grew_by_at_most_one(old(self).type_count(), final(self).type_count(), r),
            final(self).well_formed(),
            (final(self).types(), r) == interned(old(self).types(), semantic@),
            final(self).specializations() == old(self).specializations(),
    {
        proof {
            use_type_invariant(&*self);
        }
        match self.find(&semantic) {
            Some(id) => {
                proof {
                    let tv = self.types();
                    let c = choose|i: int| 0 <= i < tv.len() && tv[i] == semantic@;
                    if c != id.0 as int {
                        if c < id.0 as int {
                            assert(tv[c] != tv[id.0 as int]);
                        } else {
                            assert(tv[id.0 as int] != tv[c]);
                        }
                    }
                }
                id
            },
            None => {
                let ghost before = self.types();
                let ghost specializations = self.specializations();
                let n = self.types.len();
                let ghost t = semantic@;
                let mut taken = TypeArena::new();
                std::mem::swap(&mut taken, self);
                let TypeArena { mut types, class_specializations } = taken;
                types.push(semantic);
                proof {
                    assert(type_views(types@) =~= before.push(t));
                    lemma_push_keeps_wf(before, t);
                }
                *self = TypeArena { types, class_specializations };
                TypeId(n as u32)
            },
        }
    }

    /// Interns a semantic type after checking every identity it refers to.
    /// Unions and optionals are normalized; record fields are ordered by name.
    pub fn intern(&mut self, semantic: SemanticType) -> (r: Result<TypeId, TypeArenaError>)
        requires
            old(self).type_count() < 0x1_0000_0000 || adds_no_type(old(self).types(), semantic@),
        ensures
            r matches Ok(id) ==> grew_by_at_most_one(old(self).type_count(), final(self).type_count(), id),
            final(self).well_formed(),
            final(self).specializations() == old(self).specializations(),
            match intern_outcome(old(self).types(), semantic@) {
                Ok((types, id)) => r == Ok::<TypeId, TypeArenaError>(id) && final(self).types() == types,
                Err(e) => r == Err::<TypeId, TypeArenaError>(e) && final(self).types() == old(self).types(),
            },
    {
        proof {
            use_type_invariant(&*self);
        }
        match semantic {
            SemanticType::Union(members) => self.union(members),
            SemanticType::Optional(inner) => self.optional(inner),
            semantic => {
                let ids = referenced_types(&semantic);
                match self.validate_ids(ids.as_slice()) {
                    Err(e) => Err(e),
                    Ok(()) => {
                        proof {
                            lemma_first_unknown_none(self.type_count() as int, ids@);
                        }
                        match semantic {
                            SemanticType::Record(fields) => {
                                let ghost fv = field_views(fields@);
                                let sorted = sort_fields_by_name(fields);
                                proof {
                                    lemma_sorted_fields_from_input(fv);
                                    lemma_sorted_fields_idempotent(fv);
                                    let t = SemanticTypeView::Record(field_views(sorted@));
                                    assert forall|k: int| 0 <= k < referenced_type_ids(t).len() implies (
                                    #[trigger] referenced_type_ids(t)[k]).0 < self.type_count() by {
                                        let f = field_views(sorted@)[k];
                                        assert(fv.contains(f));
                                        let m = choose|m: int| 0 <= m < fv.len() && fv[m] == f;
                                        assert(ids@[m] == fv[m].1);
                                    }
                                }
                                Ok(self.intern_canonical(SemanticType::Record(sorted)))
                            },
                            semantic => Ok(self.intern_canonical(semantic)),
                        }
                    },
                }
            },
        }
    }

    /// The normalized union of `members`: nested unions are flattened, `Never`
    /// is dropped, and the rest is sorted without duplicates. No member left
    /// gives `Never`, one member gives that member.
    pub fn union(&mut self, members: Vec<TypeId>) -> (r: Result<TypeId, TypeArenaError>)
        requires
            old(self).type_count() < 0x1_0000_0000 || adds_no_type(
                old(self).types(),
                SemanticTypeView::Union(members@),
            ),
        ensures
            r matches Ok(id) ==> grew_by_at_most_one(old(self).type_count(), final(self).type_count(), id),
            final(self).well_formed(),
            final(self).specializations() == old(self).specializations(),
            match last_unknown(old(self).type_count() as int, members@) {
                Some(bad) => r == Err::<TypeId, TypeArenaError>(TypeArenaError::UnknownTypeId(bad))
                    && final(self).types() == old(self).types(),
                None => r == Ok::<TypeId, TypeArenaError>(union_outcome(old(self).types(), members@).1)
                    && final(self).types() == union_outcome(old(self).types(), members@).0,
            },
    {
        proof {
            use_type_invariant(&*self);
        }
        if let Some(bad) = find_last_unknown(self.types.len(), members.as_slice()) {
            return Err(TypeArenaError::UnknownTypeId(bad));
        }
        let ghost tv = self.types();
        proof {
            lemma_last_unknown_none(self.type_count() as int, members@);
        }
        let mut ms: Vec<TypeId> = Vec::new();
        let mut i: usize = 0;
        while i < members.len()
            invariant
                i <= members@.len(),
                tv == self.types(),
                self.well_formed(),
                forall|k: int| 0 <= k < members@.len() ==> (#[trigger] members@[k]).0 < tv.len(),
                strictly_ascending_ids(ms@),
                forall|t: TypeId| #[trigger] ms@.contains(t) <==> exists|k: int|
                    0 <= k < i && #[trigger] contributes(tv, members@[k], t),
                forall|a: int|
                    0 <= a < ms@.len() ==> (#[trigger] ms@[a]).0 < tv.len() && ms@[a] != never_type_id()
                        && !(tv[ms@[a].0 as int] is Union),
            decreases members.len() - i,
        {
            let m = members[i];
            let ghost ms_before = ms@;
            if m.0 != 13 {
                match &self.types[m.0 as usize] {
                    SemanticType::Union(nested) => {
                        proof {
                            assert(tv[m.0 as int] == SemanticTypeView::Union(nested@));
                            assert(union_normalized(tv, m.0 as int));
                            assert(references_earlier(tv, m.0 as int));
                        }
                        let mut j: usize = 0;
                        while j < nested.len()
                            invariant
                                j <= nested@.len(),
                                tv[m.0 as int] == SemanticTypeView::Union(nested@),
                                union_members_normalized(tv, nested@),
                                references_earlier(tv, m.0 as int),
                                0 <= m.0 < tv.len(),
                                strictly_ascending_ids(ms@),
                                forall|t: TypeId| #[trigger] ms@.contains(t) <==> (ms_before.contains(t) || exists|q: int|
                                    0 <= q < j && nested@[q] == t),
                                forall|a: int|
                                    0 <= a < ms@.len() ==> (#[trigger] ms@[a]).0 < tv.len() && ms@[a] != never_type_id()
                                        && !(tv[ms@[a].0 as int] is Union),
                            decreases nested.len() - j,
                        {
                            let x = nested[j];
                            let ghost prev = ms@;
                            proof {
                                assert(referenced_type_ids(tv[m.0 as int])[j as int] == x);
                            }
                            insert_sorted_id(&mut ms, x);
                            proof {
                                assert forall|a: int| 0 <= a < ms@.len() implies (#[trigger] ms@[a]).0 < tv.len() && ms@[a] != never_type_id()
                                    && !(tv[ms@[a].0 as int] is Union) by {
                                    assert(ms@.contains(ms@[a]));
                                    if ms@[a] != x {
                                        assert(prev.contains(ms@[a]));
                                        let b = choose|b: int| 0 <= b < prev.len() && prev[b] == ms@[a];
                                        assert(prev[b] == ms@[a]);
                                    }
                                }
                                assert forall|t: TypeId| #[trigger] ms@.contains(t) <==> (ms_before.contains(t) || exists|q: int|
                                    0 <= q < j + 1 && nested@[q] == t) by {
                                    if exists|q: int| 0 <= q < j + 1 && nested@[q] == t {
                                        let q = choose|q: int| 0 <= q < j + 1 && nested@[q] == t;
                                        if q < j {
                                            assert(prev.contains(t));
                                        }
                                    }
                                    if prev.contains(t) && !ms_before.contains(t) {
                                        assert(exists|q: int| 0 <= q < j && nested@[q] == t);
                                        let q = choose|q: int| 0 <= q < j && nested@[q] == t;
                                        assert(0 <= q < j + 1 && nested@[q] == t);
                                    }
                                }
                            }
                            j = j + 1;
                        }
                        proof {
                            assert forall|t: TypeId| #[trigger] ms@.contains(t) <==> exists|k: int|
                                0 <= k < i + 1 && #[trigger] contributes(tv, members@[k], t) by {
                                if ms@.contains(t) && !ms_before.contains(t) {
                                    let q = choose|q: int| 0 <= q < j && nested@[q] == t;
                                    assert(nested@.contains(t));
                                    assert(contributes(tv, members@[i as int], t));
                                }
                                if exists|k: int| 0 <= k < i + 1 && #[trigger] contributes(tv, members@[k], t) {
                                    let k = choose|k: int| 0 <= k < i + 1 && #[trigger] contributes(tv, members@[k], t);
                                    if k == i {
                                        assert(nested@.contains(t));
                                        let q = choose|q: int| 0 <= q < nested@.len() && nested@[q] == t;
                                        assert(0 <= q < j && nested@[q] == t);
                                    } else {
                                        assert(ms_before.contains(t));
                                    }
                                }
                            }
                        }
                    },
                    _ => {
                        proof {
                            assert(!(tv[m.0 as int] is Union));
                        }
                        insert_sorted_id(&mut ms, m);
                        proof {
                            assert forall|a: int| 0 <= a < ms@.len() implies (#[trigger] ms@[a]).0 < tv.len() && ms@[a] != never_type_id()
                                && !(tv[ms@[a].0 as int] is Union) by {
                                assert(ms@.contains(ms@[a]));
                                if ms@[a] != m {
                                    assert(ms_before.contains(ms@[a]));
                                    let b = choose|b: int| 0 <= b < ms_before.len() && ms_before[b] == ms@[a];
                                    assert(ms_before[b] == ms@[a]);
                                }
                            }
                            assert forall|t: TypeId| #[trigger] ms@.contains(t) <==> exists|k: int|
                                0 <= k < i + 1 && #[trigger] contributes(tv, members@[k], t) by {
                                if t == m {
                                    assert(contributes(tv, members@[i as int], t));
                                }
                                if exists|k: int| 0 <= k < i + 1 && #[trigger] contributes(tv, members@[k], t) {
                                    let k = choose|k: int| 0 <= k < i + 1 && #[trigger] contributes(tv, members@[k], t);
                                    if k < i {
                                        assert(ms_before.contains(t));
                                    }
                                }
                            }
                        }
                    },
                }
            } else {
                proof {
                    assert(tv[13] == SemanticTypeView::Primitive(canonical_primitives()[13]));
                    assert forall|t: TypeId| #[trigger] ms@.contains(t) <==> exists|k: int|
                        0 <= k < i + 1 && #[trigger] contributes(tv, members@[k], t) by {
                        if exists|k: int| 0 <= k < i + 1 && #[trigger] contributes(tv, members@[k], t) {
                            let k = choose|k: int| 0 <= k < i + 1 && #[trigger] contributes(tv, members@[k], t);
                            if k == i {
                                assert(!contributes(tv, members@[i as int], t));
                            }
                        }
                    }
                }
            }
            i = i + 1;
        }
        proof {
            assert forall|t: TypeId| #[trigger] ms@.contains(t) <==> flattened_member(tv, members@, t) by {
            }
            let chosen = normalized_union_members(tv, members@);
            lemma_ascending_ids_unique(ms@, chosen);
        }
        if ms.len() == 0 {
            Ok(TypeId(13))
        } else if ms.len() == 1 {
            Ok(ms[0])
        } else {
            proof {
                let t = SemanticTypeView::Union(ms@);
                assert forall|k: int| 0 <= k < referenced_type_ids(t).len() implies (
                #[trigger] referenced_type_ids(t)[k]).0 < tv.len() by {
                    assert(referenced_type_ids(t)[k] == ms@[k]);
                }
            }
            Ok(self.intern_canonical(SemanticType::Union(ms)))
        }
    }

    /// `inner | nil`, normalized as a union.
    pub fn optional(&mut self, inner: TypeId) -> (r: Result<TypeId, TypeArenaError>)
        requires
            old(self).type_count() < 0x1_0000_0000 || adds_no_type(old(self).types(), SemanticTypeView::Optional(inner)),
        ensures
            r matches Ok(id) ==> grew_by_at_most_one(old(self).type_count(), final(self).type_count(), id),
            final(self).well_formed(),
            final(self).specializations() == old(self).specializations(),
            match last_unknown(old(self).type_count() as int, seq![inner, nil_type_id()]) {
                Some(bad) => r == Err::<TypeId, TypeArenaError>(TypeArenaError::UnknownTypeId(bad))
                    && final(self).types() == old(self).types(),
                None => r == Ok::<TypeId, TypeArenaError>(union_outcome(old(self).types(), seq![inner, nil_type_id()]).1)
                    && final(self).types() == union_outcome(old(self).types(), seq![inner, nil_type_id()]).0,
            },
    {
        proof {
            use_type_invariant(&*self);
        }
        let mut members: Vec<TypeId> = Vec::new();
        members.push(inner);
        members.push(TypeId(0));
        assert(members@ =~= seq![inner, nil_type_id()]);
        self.union(members)
    }

    /// The present part of the optional type `type_id`: when it is a union
    /// that holds `nil`, its other members; one member is that member,
    /// several are their union, and none is no type. Any other type has no
    /// present part.
    pub fn optional_inner(&mut self, type_id: TypeId) -> (r: Option<TypeId>)
        requires
            old(self).type_count() < 0x1_0000_0000 || ({
                let tv = old(self).types();
                (type_id.0 as int) < tv.len() && tv[type_id.0 as int] is Union
                    && tv[type_id.0 as int]->Union_0.contains(nil_type_id()) ==> adds_no_type(
                    tv,
                    SemanticTypeView::Union(without_nil(tv[type_id.0 as int]->Union_0)),
                )
            }),
        ensures
            final(self).well_formed(),
            final(self).specializations() == old(self).specializations(),
            ({
                let tv = old(self).types();
                if (type_id.0 as int) < tv.len() && tv[type_id.0 as int] is Union
                    && tv[type_id.0 as int]->Union_0.contains(nil_type_id()) {
                    let present = without_nil(tv[type_id.0 as int]->Union_0);
                    if present.len() == 0 {
                        r is None && final(self).types() == tv
                    } else if present.len() == 1 {
                        r == Some(present[0]) && final(self).types() == tv
                    } else {
                        r == Some(union_outcome(tv, present).1) && final(self).types() == union_outcome(tv, present).0
                    }
                } else {
                    r is None && final(self).types() == tv
                }
            }),
    {
        proof {
            use_type_invariant(&*self);
        }
        let ghost tv = self.types();
        let mut present: Vec<TypeId> = Vec::new();
        let mut has_nil = false;
        match self.get(type_id) {
            Some(SemanticType::Union(members)) => {
                let mut i: usize = 0;
                while i < members.len()
                    invariant
                        i <= members@.len(),
                        self.well_formed(),
                        tv == self.types(),
                        (type_id.0 as int) < tv.len(),
                        tv[type_id.0 as int] == SemanticTypeView::Union(members@),
                        present@ == without_nil(members@.take(i as int)),
                        has_nil == members@.take(i as int).contains(nil_type_id()),
                        forall|k: int| 0 <= k < present@.len() ==> (#[trigger] present@[k]).0 < type_id.0,
                    decreases members.len() - i,
                {
                    proof {
                        self.lemma_refers_to_earlier(type_id.0 as int, i as int);
                        assert(members@.take(i as int + 1).drop_last() =~= members@.take(i as int));
                        assert(members@.take(i as int + 1).last() == members@[i as int]);
                        if has_nil {
                            let w = choose|w: int| 0 <= w < i && members@.take(i as int)[w] == nil_type_id();
                            assert(members@.take(i as int + 1)[w] == nil_type_id());
                        }
                        if members@[i as int] == nil_type_id() {
                            assert(members@.take(i as int + 1)[i as int] == nil_type_id());
                        } else if !has_nil {
                            assert forall|w: int| 0 <= w < i + 1 implies #[trigger] members@.take(i as int + 1)[w] != nil_type_id() by {
                                if w < i {
                                    assert(members@.take(i as int + 1)[w] == members@.take(i as int)[w]);
                                }
                            }
                        }
                    }
                    if members[i] == TypeId(0) {
                        has_nil = true;
                    } else {
                        present.push(members[i]);
                    }
                    i = i + 1;
                }
                proof {
                    assert(members@.take(members@.len() as int) =~= members@);
                }
            },
            _ => {},
        }
        if !has_nil {
            return None;
        }
        if present.len() == 0 {
            None
        } else if present.len() == 1 {
            Some(present[0])
        } else {
            proof {
                lemma_last_unknown_none(self.type_count() as int, present@);
            }
            match self.union(present) {
                Ok(id) => Some(id),
                Err(_) => None,
            }
        }
    }

    /// The first identity of `ids` that names no interned type, if any.
    fn validate_ids(&self, ids: &[TypeId]) -> (r: Result<(), TypeArenaError>)
        ensures
            r == match first_unknown(self.type_count() as int, ids@) {
                Some(bad) => Err::<(), TypeArenaError>(TypeArenaError::UnknownTypeId(bad)),
                None => Ok(()),
            },
    {
        match find_first_unknown(self.types.len(), ids) {
            Some(bad) => Err(TypeArenaError::UnknownTypeId(bad)),
            None => Ok(()),
        }
    }
}

} // verus!

verus! {

impl Default for TypeArena {
    /// A fresh arena holding every primitive type.
    fn default() -> (r: Self)
        ensures
            r.types() == primitive_table(),
            r.specializations() == Seq::<(ClassId, Seq<TypeId>, TypeId)>::empty(),
            r.well_formed(),
    {
        TypeArena::new()
    }
}

impl Clone for TypeArena {
    fn clone(&self) -> (r: Self)
        ensures
            r.types() == self.types(),
            r.specializations() == self.specializations(),
            self.well_formed() ==> r.well_formed(),
    {
        proof {
            use_type_invariant(self);
        }
        let mut types: Vec<SemanticType> = Vec::new();
        let mut i: usize = 0;
        while i < self.types.len()
            invariant
                i <= self.types@.len(),
                types@.len() == i,
                forall|k: int| 0 <= k < i ==> (#[trigger] types@[k])@ == self.types@[k]@,
            decreases self.types.len() - i,
        {
            types.push(self.types[i].clone());
            i = i + 1;
        }
        assert(type_views(types@) =~= type_views(self.types@));
        TypeArena { types, class_specializations: self.class_specializations.clone() }
    }
}

} // verus!
