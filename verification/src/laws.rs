//! Properties that relate several operations of the library.
use vstd::prelude::*;

use crate::arena::{
    arena_types_wf, contributes, flattened_member, intern_outcome, interned, nil_type_id,
    normalized_union_members, union_outcome,
};
use crate::id_sets::{
    lemma_ascending_ids_unique, lemma_first_unknown_none, lemma_last_unknown_none,
    strictly_ascending_ids,
};
use crate::ids::TypeId;
use crate::inference::{InferenceContext, InferenceError, InferenceType, InferenceVariableId};
use crate::semantic::{referenced_type_ids, SemanticTypeView};

verus! {

/// The identities below `n` that belong to the flattened union of
/// `members`, in ascending order.
spec fn flattened_below(types: Seq<SemanticTypeView>, members: Seq<TypeId>, n: nat) -> Seq<TypeId>
    decreases n,
{
    if n == 0 {
        Seq::empty()
    } else {
        let rest = flattened_below(types, members, (n - 1) as nat);
        if flattened_member(types, members, TypeId((n - 1) as u32)) {
            rest.push(TypeId((n - 1) as u32))
        } else {
            rest
        }
    }
}

proof fn lemma_flattened_below(types: Seq<SemanticTypeView>, members: Seq<TypeId>, n: nat)
    requires
        n <= 0x1_0000_0000,
    ensures
        strictly_ascending_ids(flattened_below(types, members, n)),
        forall|k: int| 0 <= k < flattened_below(types, members, n).len() ==> (#[trigger] flattened_below(types, members, n)[k]).0 < n,
        forall|t: TypeId| #[trigger] flattened_below(types, members, n).contains(t) <==> (t.0 < n
            && flattened_member(types, members, t)),
    decreases n,
{
    if n > 0 {
        let m = (n - 1) as nat;
        lemma_flattened_below(types, members, m);
        let rest = flattened_below(types, members, m);
        let id = TypeId(m as u32);
        assert(id.0 == m);
        if flattened_member(types, members, id) {
            let s = rest.push(id);
            assert forall|t: TypeId| #[trigger] s.contains(t) <==> (t.0 < n && flattened_member(types, members, t)) by {
                if s.contains(t) {
                    let k = choose|k: int| 0 <= k < s.len() && s[k] == t;
                    if k < rest.len() {
                        assert(rest[k] == t);
                        assert(rest.contains(t));
                    }
                }
                if t.0 < n && flattened_member(types, members, t) {
                    if t.0 < m {
                        assert(rest.contains(t));
                        let k = choose|k: int| 0 <= k < rest.len() && rest[k] == t;
                        assert(s[k] == t);
                    } else {
                        assert(t == id);
                        assert(s[rest.len() as int] == t);
                    }
                }
            }
        }
    }
}

/// The normalized members of a union are the flattened members, sorted
/// without duplicates.
proof fn lemma_normalized_members(types: Seq<SemanticTypeView>, members: Seq<TypeId>)
    ensures
        strictly_ascending_ids(normalized_union_members(types, members)),
        forall|t: TypeId| #[trigger] normalized_union_members(types, members).contains(t)
            <==> flattened_member(types, members, t),
{
    let w = flattened_below(types, members, 0x1_0000_0000);
    lemma_flattened_below(types, members, 0x1_0000_0000);
    assert forall|t: TypeId| #[trigger] w.contains(t) <==> flattened_member(types, members, t) by {
    }
    assert(strictly_ascending_ids(w) && forall|t: TypeId| #[trigger] w.contains(t) <==> flattened_member(types, members, t));
}

/// Two member lists with the same flattened members normalize alike.
proof fn lemma_normalized_same(
    types_a: Seq<SemanticTypeView>,
    a: Seq<TypeId>,
    types_b: Seq<SemanticTypeView>,
    b: Seq<TypeId>,
)
    requires
        forall|t: TypeId| flattened_member(types_a, a, t) <==> flattened_member(types_b, b, t),
    ensures
        normalized_union_members(types_a, a) == normalized_union_members(types_b, b),
{
    lemma_normalized_members(types_a, a);
    lemma_normalized_members(types_b, b);
    let x = normalized_union_members(types_a, a);
    let y = normalized_union_members(types_b, b);
    assert forall|t: TypeId| x.contains(t) <==> y.contains(t) by {
        assert(x.contains(t) <==> flattened_member(types_a, a, t));
        assert(y.contains(t) <==> flattened_member(types_b, b, t));
    }
    lemma_ascending_ids_unique(x, y);
}

/// Interning a type again into the table that interning it gave changes
/// nothing and gives the same identity.
proof fn lemma_interned_again(types: Seq<SemanticTypeView>, t: SemanticTypeView)
    ensures
        interned(interned(types, t).0, t) == interned(types, t),
{
    if !types.contains(t) {
        let next = types.push(t);
        assert(next[types.len() as int] == t);
        assert(next.contains(t));
        let i = choose|i: int| 0 <= i < next.len() && next[i] == t;
        if i < types.len() {
            assert(types[i] == t);
            assert(types.contains(t));
        }
        assert(i == types.len());
    }
}

/// Flattening reads only entries below the table length, which a larger
/// table with the same prefix keeps.
proof fn lemma_flattened_prefix(
    types: Seq<SemanticTypeView>,
    next: Seq<SemanticTypeView>,
    members: Seq<TypeId>,
)
    requires
        types.len() <= next.len(),
        forall|k: int| 0 <= k < types.len() ==> #[trigger] next[k] == types[k],
        forall|k: int| 0 <= k < members.len() ==> (#[trigger] members[k]).0 < types.len(),
    ensures
        forall|t: TypeId| flattened_member(next, members, t) <==> flattened_member(types, members, t),
{
    assert forall|t: TypeId| flattened_member(next, members, t) <==> flattened_member(types, members, t) by {
        if flattened_member(next, members, t) {
            let k = choose|k: int| 0 <= k < members.len() && #[trigger] contributes(next, members[k], t);
            assert(next[members[k].0 as int] == types[members[k].0 as int]);
            assert(contributes(types, members[k], t));
        }
        if flattened_member(types, members, t) {
            let k = choose|k: int| 0 <= k < members.len() && #[trigger] contributes(types, members[k], t);
            assert(next[members[k].0 as int] == types[members[k].0 as int]);
            assert(contributes(next, members[k], t));
        }
    }
}

/// Forming a union again, in the table the first union gave, changes
/// nothing and gives the same identity.
proof fn lemma_union_again(types: Seq<SemanticTypeView>, members: Seq<TypeId>)
    requires
        forall|k: int| 0 <= k < members.len() ==> (#[trigger] members[k]).0 < types.len(),
    ensures
        union_outcome(union_outcome(types, members).0, members) == union_outcome(types, members),
{
    let next = union_outcome(types, members).0;
    let ms = normalized_union_members(types, members);
    assert(types.len() <= next.len());
    assert forall|k: int| 0 <= k < types.len() implies #[trigger] next[k] == types[k] by {
    }
    lemma_flattened_prefix(types, next, members);
    lemma_normalized_same(next, members, types, members);
    if ms.len() >= 2 {
        lemma_interned_again(types, SemanticTypeView::Union(ms));
    }
}

/// Interning is idempotent: interning a type into the table that interning
/// it produced leaves the table as it is and gives the same identity, so the
/// second interning adds no type and needs no room in a full arena.
pub proof fn law_intern_idempotent(types: Seq<SemanticTypeView>, t: SemanticTypeView)
    requires
        intern_outcome(types, t) is Ok,
    ensures
        intern_outcome(intern_outcome(types, t)->Ok_0.0, t) == intern_outcome(types, t),
        crate::arena::adds_no_type(intern_outcome(types, t)->Ok_0.0, t),
{
    let (next, id) = intern_outcome(types, t)->Ok_0;
    match t {
        SemanticTypeView::Union(members) => {
            lemma_last_unknown_none(types.len() as int, members);
            lemma_last_unknown_none(next.len() as int, members);
            lemma_union_again(types, members);
            assert(union_outcome(types, members).0.len() >= types.len());
        },
        SemanticTypeView::Optional(inner) => {
            let members = seq![inner, nil_type_id()];
            lemma_last_unknown_none(types.len() as int, members);
            lemma_last_unknown_none(next.len() as int, members);
            lemma_union_again(types, members);
        },
        SemanticTypeView::Record(fields) => {
            lemma_first_unknown_none(types.len() as int, referenced_type_ids(t));
            lemma_first_unknown_none(next.len() as int, referenced_type_ids(t));
            lemma_interned_again(types, SemanticTypeView::Record(crate::arena::fields_sorted_by_name(fields)));
        },
        _ => {
            lemma_first_unknown_none(types.len() as int, referenced_type_ids(t));
            lemma_first_unknown_none(next.len() as int, referenced_type_ids(t));
            lemma_interned_again(types, t);
        },
    }
}

/// A union does not depend on the order of its members or on repeated
/// members: two member lists with the same members give the same union.
pub proof fn law_union_ignores_order_and_repetition(
    types: Seq<SemanticTypeView>,
    a: Seq<TypeId>,
    b: Seq<TypeId>,
)
    requires
        forall|t: TypeId| a.contains(t) <==> b.contains(t),
    ensures
        union_outcome(types, a) == union_outcome(types, b),
{
    assert forall|t: TypeId| flattened_member(types, a, t) <==> flattened_member(types, b, t) by {
        if flattened_member(types, a, t) {
            let k = choose|k: int| 0 <= k < a.len() && #[trigger] contributes(types, a[k], t);
            assert(a.contains(a[k]));
            let j = choose|j: int| 0 <= j < b.len() && b[j] == a[k];
            assert(contributes(types, b[j], t));
        }
        if flattened_member(types, b, t) {
            let k = choose|k: int| 0 <= k < b.len() && #[trigger] contributes(types, b[k], t);
            assert(b.contains(b[k]));
            let j = choose|j: int| 0 <= j < a.len() && a[j] == b[k];
            assert(contributes(types, a[j], t));
        }
    }
    lemma_normalized_same(types, a, types, b);
}

/// Making an optional type optional again gives the same type.
pub proof fn law_optional_idempotent(types: Seq<SemanticTypeView>, inner: TypeId)
    requires
        arena_types_wf(types),
        types.len() < 0x1_0000_0000,
        inner.0 < types.len(),
    ensures
        ({
            let (next, id) = union_outcome(types, seq![inner, nil_type_id()]);
            union_outcome(next, seq![id, nil_type_id()]) == (next, id)
        }),
{
    let members = seq![inner, nil_type_id()];
    let (next, id) = union_outcome(types, members);
    let ms = normalized_union_members(types, members);
    lemma_normalized_members(types, members);
    assert(types[0] == SemanticTypeView::Primitive(crate::arena::canonical_primitives()[0]));
    assert(contributes(types, members[1], nil_type_id()));
    assert(flattened_member(types, members, nil_type_id()));
    assert(ms.contains(nil_type_id()));
    let again = seq![id, nil_type_id()];
    if ms.len() == 1 {
        assert(ms[0] == nil_type_id());
        assert forall|t: TypeId| flattened_member(next, again, t) <==> flattened_member(types, members, t) by {
            if flattened_member(types, members, t) {
                assert(ms.contains(t));
                assert(t == nil_type_id());
                assert(contributes(next, again[1], t));
            }
            if flattened_member(next, again, t) {
                let k = choose|k: int| 0 <= k < again.len() && #[trigger] contributes(next, again[k], t);
                assert(again[k] == nil_type_id());
                assert(t == nil_type_id());
            }
        }
        lemma_normalized_same(next, again, types, members);
    } else {
        let u = SemanticTypeView::Union(ms);
        assert(next == interned(types, u).0);
        assert(id == interned(types, u).1);
        if types.contains(u) {
            let i = choose|i: int| 0 <= i < types.len() && types[i] == u;
            assert(id.0 == i);
            assert(next[id.0 as int] == u);
        } else {
            assert(next[id.0 as int] == u);
        }
        assert(next[0] == types[0]);
        assert forall|t: TypeId| flattened_member(next, again, t) <==> flattened_member(types, members, t) by {
            if flattened_member(types, members, t) {
                assert(ms.contains(t));
                assert(contributes(next, again[0], t));
            }
            if flattened_member(next, again, t) {
                let k = choose|k: int| 0 <= k < again.len() && #[trigger] contributes(next, again[k], t);
                if k == 0 {
                    assert(ms.contains(t));
                } else {
                    assert(t == nil_type_id());
                }
            }
        }
        lemma_normalized_same(next, again, types, members);
        lemma_interned_again(types, u);
    }
}

/// A variable that was successfully constrained to a known type resolves to
/// that type afterwards.
pub proof fn law_constrained_variable_resolves(
    before: InferenceContext,
    after: InferenceContext,
    v: InferenceVariableId,
    t: TypeId,
    r: Result<(), InferenceError>,
)
    requires
        before.bind_outcome(&after, v, t, r),
        r is Ok,
    ensures
        v.index() < after.variable_count(),
        after.binding_of(v.index()) == Some(t),
{
}

/// Two variables that were successfully unified share one class, and so
/// resolve to the same type, or both stay unsolved.
pub proof fn law_unified_variables_resolve_alike(
    before: InferenceContext,
    after: InferenceContext,
    a: InferenceVariableId,
    b: InferenceVariableId,
    r: Result<(), InferenceError>,
)
    requires
        before.unify_outcome(&after, a, b, r),
        r is Ok,
    ensures
        a.index() < after.variable_count(),
        b.index() < after.variable_count(),
        after.class_of(a.index()) == after.class_of(b.index()),
        after.binding_of(a.index()) == after.binding_of(b.index()),
{
}

/// A successful constraint never changes what an already solved variable
/// resolves to.
pub proof fn law_solved_variables_stay_solved(
    before: InferenceContext,
    after: InferenceContext,
    left: InferenceType,
    right: InferenceType,
    r: Result<(), InferenceError>,
    x: nat,
)
    requires
        match (left, right) {
            (InferenceType::Known(_), InferenceType::Known(_)) => after.cells() == before.cells(),
            (InferenceType::Variable(v), InferenceType::Known(t))
            | (InferenceType::Known(t), InferenceType::Variable(v)) => before.bind_outcome(&after, v, t, r),
            (InferenceType::Variable(p), InferenceType::Variable(q)) => before.unify_outcome(&after, p, q, r),
        },
        r is Ok,
        x < before.variable_count(),
        before.binding_of(x) is Some,
    ensures
        x < after.variable_count(),
        after.binding_of(x) == before.binding_of(x),
{
    match (left, right) {
        (InferenceType::Known(_), InferenceType::Known(_)) => {
        },
        (InferenceType::Variable(v), InferenceType::Known(t))
        | (InferenceType::Known(t), InferenceType::Variable(v)) => {
            if before.binding_of(v.index()) is None {
                assert(before.class_of(x) != before.class_of(v.index()));
                assert(after.class_of(x) == before.class_of(x));
                assert(after.binding_of(x) == before.binding_of(x));
            } else {
                assert(after.binding_of(x) == before.binding_of(x));
            }
        },
        (InferenceType::Variable(p), InferenceType::Variable(q)) => {
            assert(after.binding_of(x) == before.binding_of(x));
        },
    }
}

/// On any context: constraining a variable whose class is bound to `t`
/// to another type `u` is refused as a conflict between `t` and `u`, and
/// changes nothing, so every variable resolves as before.
pub proof fn law_conflicting_binding_changes_nothing(
    before: InferenceContext,
    after: InferenceContext,
    v: InferenceVariableId,
    t: TypeId,
    u: TypeId,
    r: Result<(), InferenceError>,
)
    requires
        v.index() < before.variable_count(),
        before.binding_of(v.index()) == Some(t),
        t != u,
        before.bind_outcome(&after, v, u, r),
    ensures
        r == Err::<(), InferenceError>(InferenceError::Conflict { expected: t, found: u }),
        after.cells() == before.cells(),
{
}

/// On any context: unifying an unbound variable `w` with a variable `v`
/// bound to `t` leaves `w` bound to `t`, and `v` still bound to `t`.
pub proof fn law_unification_shares_the_binding(
    before: InferenceContext,
    after: InferenceContext,
    w: InferenceVariableId,
    v: InferenceVariableId,
    t: TypeId,
    r: Result<(), InferenceError>,
)
    requires
        w.index() < before.variable_count(),
        v.index() < before.variable_count(),
        before.binding_of(v.index()) == Some(t),
        before.binding_of(w.index()) is None,
        before.unify_outcome(&after, w, v, r),
    ensures
        r is Ok,
        after.binding_of(w.index()) == Some(t),
        after.binding_of(v.index()) == Some(t),
{
}

} // verus!

