//! Whether a type's values may be sent between actors.
//!
//! A type is safe when no type reachable from it is unsafe. A tagged union
//! reaches the parameter types of its cases, which the declaration resolver
//! supplies as a table; the two actor-handle built-in constructors reach
//! their arguments.
use vstd::prelude::*;

use crate::arena::TypeArena;
use crate::ids::{BuiltinTypeId, TypeId};
use crate::semantic::{referenced_type_ids, referenced_types, SemanticType, SemanticTypeView};

verus! {

/// Why a type's values may not cross an actor boundary.
#[derive(Clone, Copy, Debug, PartialEq, Eq, Structural)]
pub enum ActorMessageUnsafeKind {
    UnknownType,
    MutableCollection,
    Callable,
    Class,
    Interface,
    Attribute,
    Builtin,
    TypeParameter,
    Opaque,
    ErrorUnion,
    CompilerError,
}

/// Whether a type's values may be sent as actor messages, and if not, the
/// first offending type found.
#[derive(Clone, Copy, Debug, PartialEq, Eq, Structural)]
pub enum ActorMessageSafety {
    Safe,
    Unsafe { type_id: TypeId, kind: ActorMessageUnsafeKind },
}

/// What the safety check reads: the arena's types, each tagged union's case
/// parameter types, and the two actor-handle built-in constructors.
pub struct ActorTypeGraph {
    pub types: Seq<SemanticTypeView>,
    pub payloads: Seq<(TypeId, Seq<TypeId>)>,
    pub reference: BuiltinTypeId,
    pub reply: BuiltinTypeId,
}

/// The case parameter types of the first payload entry for `t`, if any.
pub open spec fn payload_of(payloads: Seq<(TypeId, Seq<TypeId>)>, t: TypeId) -> Option<Seq<TypeId>>
    decreases payloads.len(),
{
    if payloads.len() == 0 {
        None
    } else if payloads[0].0 == t {
        Some(payloads[0].1)
    } else {
        payload_of(payloads.drop_first(), t)
    }
}

/// The payload table as plain sequences.
pub open spec fn payload_views(v: Seq<(TypeId, Vec<TypeId>)>) -> Seq<(TypeId, Seq<TypeId>)> {
    v.map_values(|e: (TypeId, Vec<TypeId>)| (e.0, e.1@))
}

/// One step of the check: why `t` itself is unsafe, or the types its values
/// carry.
pub open spec fn actor_step(g: ActorTypeGraph, t: TypeId) -> Result<Seq<TypeId>, ActorMessageUnsafeKind> {
    if t.0 >= g.types.len() {
        Err(ActorMessageUnsafeKind::UnknownType)
    } else {
        let semantic = g.types[t.0 as int];
        match semantic {
            SemanticTypeView::Primitive(_) | SemanticTypeView::Enum { .. } => Ok(Seq::empty()),
            SemanticTypeView::Tuple(_) | SemanticTypeView::Union(_) | SemanticTypeView::Record(_)
            | SemanticTypeView::Optional(_) => Ok(referenced_type_ids(semantic)),
            SemanticTypeView::TaggedUnion { .. } => match payload_of(g.payloads, t) {
                Some(parameters) => Ok(parameters),
                None => Err(ActorMessageUnsafeKind::UnknownType),
            },
            SemanticTypeView::Array(_) | SemanticTypeView::Table { .. } => Err(
                ActorMessageUnsafeKind::MutableCollection,
            ),
            SemanticTypeView::Function { .. } => Err(ActorMessageUnsafeKind::Callable),
            SemanticTypeView::Class { .. } => Err(ActorMessageUnsafeKind::Class),
            SemanticTypeView::Interface { .. } => Err(ActorMessageUnsafeKind::Interface),
            SemanticTypeView::Attribute { .. } => Err(ActorMessageUnsafeKind::Attribute),
            SemanticTypeView::Builtin { definition, .. } => if definition == g.reference
                || definition == g.reply {
                Ok(referenced_type_ids(semantic))
            } else {
                Err(ActorMessageUnsafeKind::Builtin)
            },
            SemanticTypeView::TypeParameter(_) => Err(ActorMessageUnsafeKind::TypeParameter),
            SemanticTypeView::Opaque(_) => Err(ActorMessageUnsafeKind::Opaque),
            SemanticTypeView::ErrorUnion { .. } => Err(ActorMessageUnsafeKind::ErrorUnion),
            SemanticTypeView::Error => Err(ActorMessageUnsafeKind::CompilerError),
        }
    }
}

/// `to` is carried by the values of `from`.
pub open spec fn actor_edge(g: ActorTypeGraph, from: TypeId, to: TypeId) -> bool {
    actor_step(g, from) matches Ok(carried) && carried.contains(to)
}

/// Each type of `path` carries the next one.
pub open spec fn actor_path(g: ActorTypeGraph, path: Seq<TypeId>) -> bool {
    &&& path.len() >= 1
    &&& forall|i: int| 0 <= i < path.len() - 1 ==> #[trigger] actor_edge(g, path[i], path[i + 1])
}

/// A chain of carried types leads from `from` to `to`.
pub open spec fn actor_reachable(g: ActorTypeGraph, from: TypeId, to: TypeId) -> bool {
    exists|path: Seq<TypeId>| #[trigger] actor_path(g, path) && path[0] == from && path.last() == to
}

proof fn lemma_reachable_self(g: ActorTypeGraph, t: TypeId)
    ensures
        actor_reachable(g, t, t),
{
    let path = seq![t];
    assert(actor_path(g, path));
}

proof fn lemma_reachable_prepend(g: ActorTypeGraph, t: TypeId, c: TypeId, u: TypeId)
    requires
        actor_edge(g, t, c),
        actor_reachable(g, c, u),
    ensures
        actor_reachable(g, t, u),
{
    let path = choose|path: Seq<TypeId>| #[trigger] actor_path(g, path) && path[0] == c && path.last() == u;
    let longer = seq![t] + path;
    assert forall|i: int| 0 <= i < longer.len() - 1 implies #[trigger] actor_edge(g, longer[i], longer[i + 1]) by {
        if i > 0 {
            let j = i - 1;
            assert(longer[i] == path[j]);
            assert(longer[i + 1] == path[j + 1]);
            assert(actor_edge(g, path[j], path[j + 1]));
        }
    }
    assert(actor_path(g, longer));
    assert(longer.last() == u);
}

/// The types marked in a flag table indexed by raw identity.
pub open spec fn marked(flags: Seq<bool>, t: TypeId) -> bool {
    (t.0 as int) < flags.len() && flags[t.0 as int]
}

/// Every proven type is safe itself and carries only proven types or types
/// still being visited.
pub open spec fn proven_closed(g: ActorTypeGraph, proven: Seq<bool>, visiting: Seq<bool>) -> bool {
    forall|x: TypeId| #[trigger] marked(proven, x) ==> (actor_step(g, x) is Ok && forall|c: TypeId|
        #[trigger] actor_edge(g, x, c) ==> marked(proven, c) || marked(visiting, c))
}

/// Number of unmarked entries.
pub open spec fn unmarked_count(flags: Seq<bool>) -> nat
    decreases flags.len(),
{
    if flags.len() == 0 {
        0
    } else {
        unmarked_count(flags.drop_last()) + if flags.last() {
            0nat
        } else {
            1nat
        }
    }
}

/// Marking an unmarked entry leaves one fewer unmarked.
pub proof fn lemma_mark_decreases(flags: Seq<bool>, i: int)
    requires
        0 <= i < flags.len(),
        !flags[i],
    ensures
        unmarked_count(flags.update(i, true)) + 1 == unmarked_count(flags),
    decreases flags.len(),
{
    let next = flags.update(i, true);
    if i == flags.len() - 1 {
        assert(next.drop_last() =~= flags.drop_last());
    } else {
        lemma_mark_decreases(flags.drop_last(), i);
        assert(next.drop_last() =~= flags.drop_last().update(i, true));
    }
}

/// The depth-first check as it runs from `t` while the types marked in
/// `visiting` are on the current path: a type on the path counts as safe (a
/// cycle carries nothing new), an unsafe type is reported, and otherwise the
/// carried types are checked in order with `t` added to the path.
pub open spec fn first_unsafe(g: ActorTypeGraph, visiting: Seq<bool>, t: TypeId) -> ActorMessageSafety
    decreases unmarked_count(visiting), 0nat,
{
    if marked(visiting, t) {
        ActorMessageSafety::Safe
    } else {
        match actor_step(g, t) {
            Err(kind) => ActorMessageSafety::Unsafe { type_id: t, kind },
            Ok(carried) => if (t.0 as int) < visiting.len() {
                proof {
                    lemma_mark_decreases(visiting, t.0 as int);
                }
                first_unsafe_in(g, visiting.update(t.0 as int, true), carried)
            } else {
                ActorMessageSafety::Safe
            },
        }
    }
}

/// The first report of [`first_unsafe`] over `ts` in order, or safe.
pub open spec fn first_unsafe_in(g: ActorTypeGraph, visiting: Seq<bool>, ts: Seq<TypeId>) -> ActorMessageSafety
    decreases unmarked_count(visiting), ts.len(),
{
    if ts.len() == 0 {
        ActorMessageSafety::Safe
    } else {
        match first_unsafe(g, visiting, ts[0]) {
            ActorMessageSafety::Safe => first_unsafe_in(g, visiting, ts.drop_first()),
            found => found,
        }
    }
}

/// From a proven type, or one on the path, the check reports nothing.
proof fn lemma_proven_safe(g: ActorTypeGraph, proven: Seq<bool>, visiting: Seq<bool>, p: TypeId)
    requires
        proven_closed(g, proven, visiting),
        proven.len() == visiting.len(),
        marked(proven, p) || marked(visiting, p),
    ensures
        first_unsafe(g, visiting, p) is Safe,
    decreases unmarked_count(visiting), 0nat,
{
    if !marked(visiting, p) {
        let carried = actor_step(g, p)->Ok_0;
        let next = visiting.update(p.0 as int, true);
        lemma_mark_decreases(visiting, p.0 as int);
        assert forall|x: TypeId| #[trigger] marked(proven, x) implies (actor_step(g, x) is Ok && forall|c: TypeId|
            #[trigger] actor_edge(g, x, c) ==> marked(proven, c) || marked(next, c)) by {
            assert forall|c: TypeId| #[trigger] actor_edge(g, x, c) implies marked(proven, c) || marked(next, c) by {
                if marked(visiting, c) {
                    assert(next[c.0 as int]);
                }
            }
        }
        assert forall|i: int| 0 <= i < carried.len() implies marked(proven, #[trigger] carried[i]) || marked(next, carried[i]) by {
            assert(actor_edge(g, p, carried[i]));
            if marked(visiting, carried[i]) {
                assert(next[carried[i].0 as int]);
            }
        }
        lemma_proven_safe_in(g, proven, next, carried);
    }
}

/// Over types each proven or on the path, the check reports nothing.
proof fn lemma_proven_safe_in(g: ActorTypeGraph, proven: Seq<bool>, visiting: Seq<bool>, ts: Seq<TypeId>)
    requires
        proven_closed(g, proven, visiting),
        proven.len() == visiting.len(),
        forall|i: int| 0 <= i < ts.len() ==> marked(proven, #[trigger] ts[i]) || marked(visiting, ts[i]),
    ensures
        first_unsafe_in(g, visiting, ts) is Safe,
    decreases unmarked_count(visiting), ts.len(),
{
    if ts.len() > 0 {
        lemma_proven_safe(g, proven, visiting, ts[0]);
        assert forall|i: int| 0 <= i < ts.drop_first().len() implies marked(proven, #[trigger] ts.drop_first()[i])
            || marked(visiting, ts.drop_first()[i]) by {
            assert(ts.drop_first()[i] == ts[i + 1]);
        }
        lemma_proven_safe_in(g, proven, visiting, ts.drop_first());
    }
}

impl ActorTypeGraph {
    pub open spec fn of(
        arena: &TypeArena,
        payloads: Seq<(TypeId, Vec<TypeId>)>,
        reference: BuiltinTypeId,
        reply: BuiltinTypeId,
    ) -> ActorTypeGraph {
        ActorTypeGraph { types: arena.types(), payloads: payload_views(payloads), reference, reply }
    }
}

fn find_payload(payloads: &[(TypeId, Vec<TypeId>)], t: TypeId) -> (r: Option<Vec<TypeId>>)
    ensures
        match payload_of(payload_views(payloads@), t) {
            Some(s) => r matches Some(v) && v@ == s,
            None => r is None,
        },
{
    let ghost all = payload_views(payloads@);
    let mut i: usize = 0;
    assert(all.skip(0) =~= all);
    while i < payloads.len()
        invariant
            i <= payloads@.len(),
            all == payload_views(payloads@),
            payload_of(all, t) == payload_of(all.skip(i as int), t),
        decreases payloads.len() - i,
    {
        assert(all.skip(i as int)[0] == (payloads@[i as int].0, payloads@[i as int].1@));
        if payloads[i].0 == t {
            let mut copy: Vec<TypeId> = Vec::new();
            let mut k: usize = 0;
            while k < payloads[i].1.len()
                invariant
                    i < payloads@.len(),
                    k <= payloads@[i as int].1@.len(),
                    copy@ == payloads@[i as int].1@.take(k as int),
                decreases payloads@[i as int].1@.len() - k,
            {
                copy.push(payloads[i].1[k]);
                k = k + 1;
                assert(copy@ =~= payloads@[i as int].1@.take(k as int));
            }
            assert(payloads@[i as int].1@.take(k as int) =~= payloads@[i as int].1@);
            return Some(copy);
        }
        assert(all.skip(i as int).drop_first() =~= all.skip(i + 1));
        i = i + 1;
    }
    None
}

/// One step of the check, computed.
fn actor_children(
    arena: &TypeArena,
    payloads: &[(TypeId, Vec<TypeId>)],
    reference: BuiltinTypeId,
    reply: BuiltinTypeId,
    t: TypeId,
) -> (r: Result<Vec<TypeId>, ActorMessageUnsafeKind>)
    ensures
        match actor_step(ActorTypeGraph::of(arena, payloads@, reference, reply), t) {
            Ok(s) => r matches Ok(v) && v@ == s,
            Err(k) => r == Err::<Vec<TypeId>, ActorMessageUnsafeKind>(k),
        },
{
    match arena.get(t) {
        None => Err(ActorMessageUnsafeKind::UnknownType),
        Some(semantic) => match semantic {
            SemanticType::Primitive(_) | SemanticType::Enum { .. } => Ok(Vec::new()),
            SemanticType::Tuple(_) | SemanticType::Union(_) | SemanticType::Record(_)
            | SemanticType::Optional(_) => Ok(referenced_types(semantic)),
            SemanticType::TaggedUnion { .. } => match find_payload(payloads, t) {
                Some(parameters) => Ok(parameters),
                None => Err(ActorMessageUnsafeKind::UnknownType),
            },
            SemanticType::Array(_) | SemanticType::Table { .. } => Err(
                ActorMessageUnsafeKind::MutableCollection,
            ),
            SemanticType::Function { .. } => Err(ActorMessageUnsafeKind::Callable),
            SemanticType::Class { .. } => Err(ActorMessageUnsafeKind::Class),
            SemanticType::Interface { .. } => Err(ActorMessageUnsafeKind::Interface),
            SemanticType::Attribute { .. } => Err(ActorMessageUnsafeKind::Attribute),
            SemanticType::Builtin { definition, .. } => {
                if *definition == reference || *definition == reply {
                    Ok(referenced_types(semantic))
                } else {
                    Err(ActorMessageUnsafeKind::Builtin)
                }
            },
            SemanticType::TypeParameter(_) => Err(ActorMessageUnsafeKind::TypeParameter),
            SemanticType::Opaque(_) => Err(ActorMessageUnsafeKind::Opaque),
            SemanticType::ErrorUnion { .. } => Err(ActorMessageUnsafeKind::ErrorUnion),
            SemanticType::Error => Err(ActorMessageUnsafeKind::CompilerError),
        },
    }
}

/// Along a path from a proven type, when nothing is being visited, every
/// type is proven.
proof fn lemma_closed_path(g: ActorTypeGraph, proven: Seq<bool>, visiting: Seq<bool>, path: Seq<TypeId>, i: int)
    requires
        proven_closed(g, proven, visiting),
        forall|x: TypeId| !#[trigger] marked(visiting, x),
        actor_path(g, path),
        marked(proven, path[0]),
        0 <= i < path.len(),
    ensures
        marked(proven, path[i]),
    decreases i,
{
    if i > 0 {
        lemma_closed_path(g, proven, visiting, path, i - 1);
        let j = i - 1;
        assert(actor_edge(g, path[j], path[j + 1]));
        assert(marked(proven, path[j]));
        assert(marked(proven, path[j + 1]) || marked(visiting, path[j + 1]));
    }
}

/// Depth-first check of `t`: types being visited count as safe (a cycle
/// carries nothing new), proven types are skipped, and the first unsafe
/// type found is reported.
fn check_safety(
    arena: &TypeArena,
    payloads: &[(TypeId, Vec<TypeId>)],
    reference: BuiltinTypeId,
    reply: BuiltinTypeId,
    t: TypeId,
    visiting: &mut Vec<bool>,
    proven: &mut Vec<bool>,
) -> (r: ActorMessageSafety)
    requires
        old(visiting)@.len() == arena.types().len(),
        old(proven)@.len() == arena.types().len(),
        proven_closed(ActorTypeGraph::of(arena, payloads@, reference, reply), old(proven)@, old(visiting)@),
    ensures
        final(visiting)@ == old(visiting)@,
        final(proven)@.len() == old(proven)@.len(),
        forall|x: TypeId| #[trigger] marked(old(proven)@, x) ==> marked(final(proven)@, x),
        r is Safe ==> proven_closed(ActorTypeGraph::of(arena, payloads@, reference, reply), final(proven)@, old(visiting)@)
            && (marked(final(proven)@, t) || marked(old(visiting)@, t)),
        r matches ActorMessageSafety::Unsafe { type_id, kind } ==> actor_reachable(
            ActorTypeGraph::of(arena, payloads@, reference, reply),
            t,
            type_id,
        ) && actor_step(ActorTypeGraph::of(arena, payloads@, reference, reply), type_id) == Err::<Seq<TypeId>, ActorMessageUnsafeKind>(kind),
        r == first_unsafe(ActorTypeGraph::of(arena, payloads@, reference, reply), old(visiting)@, t),
    decreases unmarked_count(old(visiting)@),
{
    let ghost g = ActorTypeGraph::of(arena, payloads@, reference, reply);
    let ghost start_visiting = visiting@;
    let ghost start_proven = proven@;
    let index = t.0 as usize;
    if index < visiting.len() {
        if proven[index] || visiting[index] {
            proof {
                lemma_proven_safe(g, start_proven, start_visiting, t);
            }
            return ActorMessageSafety::Safe;
        }
    }
    match actor_children(arena, payloads, reference, reply, t) {
        Err(kind) => {
            proof {
                lemma_reachable_self(g, t);
            }
            ActorMessageSafety::Unsafe { type_id: t, kind }
        },
        Ok(children) => {
            visiting.set(index, true);
            let ghost marked_visiting = visiting@;
            proof {
                lemma_mark_decreases(start_visiting, index as int);
                assert(marked_visiting == start_visiting.update(index as int, true));
                assert forall|x: TypeId| #[trigger] marked(start_proven, x) implies (actor_step(g, x) is Ok && forall|c: TypeId|
                    #[trigger] actor_edge(g, x, c) ==> marked(start_proven, c) || marked(marked_visiting, c)) by {
                    assert forall|c: TypeId| #[trigger] actor_edge(g, x, c) implies marked(start_proven, c) || marked(marked_visiting, c) by {
                        if marked(start_visiting, c) {
                            assert(marked_visiting[c.0 as int]);
                        }
                    }
                }
            }
            let mut i: usize = 0;
            assert(children@.skip(0) =~= children@);
            while i < children.len()
                invariant
                    g == ActorTypeGraph::of(arena, payloads@, reference, reply),
                    start_visiting == old(visiting)@,
                    start_proven == old(proven)@,
                    actor_step(g, t) == Ok::<Seq<TypeId>, ActorMessageUnsafeKind>(children@),
                    index == t.0,
                    index < start_visiting.len(),
                    !start_visiting[index as int],
                    start_visiting.len() == arena.types().len(),
                    marked_visiting == start_visiting.update(index as int, true),
                    unmarked_count(marked_visiting) < unmarked_count(start_visiting),
                    visiting@ == marked_visiting,
                    i <= children@.len(),
                    proven@.len() == start_proven.len(),
                    start_proven.len() == arena.types().len(),
                    forall|x: TypeId| #[trigger] marked(start_proven, x) ==> marked(proven@, x),
                    proven_closed(g, proven@, marked_visiting),
                    forall|j: int| 0 <= j < i ==> marked(proven@, #[trigger] children@[j]) || marked(marked_visiting, children@[j]),
                    first_unsafe(g, start_visiting, t) == first_unsafe_in(g, marked_visiting, children@.skip(i as int)),
                decreases children.len() - i,
            {
                let c = children[i];
                let ghost before = proven@;
                let r = check_safety(arena, payloads, reference, reply, c, visiting, proven);
                match r {
                    ActorMessageSafety::Unsafe { type_id, kind } => {
                        visiting.set(index, false);
                        proof {
                            assert(children@.skip(i as int)[0] == c);
                            assert(visiting@ =~= start_visiting);
                            assert(children@[i as int] == c);
                            assert(actor_edge(g, t, c));
                            lemma_reachable_prepend(g, t, c, type_id);
                        }
                        return ActorMessageSafety::Unsafe { type_id, kind };
                    },
                    ActorMessageSafety::Safe => {},
                }
                proof {
                    assert(children@.skip(i as int)[0] == c);
                    assert(children@.skip(i as int).drop_first() =~= children@.skip(i + 1));
                    assert forall|j: int| 0 <= j < i + 1 implies marked(proven@, #[trigger] children@[j]) || marked(marked_visiting, children@[j]) by {
                        if j < i {
                            if marked(before, children@[j]) {
                                assert(marked(proven@, children@[j]));
                            }
                        }
                    }
                }
                i = i + 1;
            }
            assert(children@.skip(i as int) =~= Seq::<TypeId>::empty());
            visiting.set(index, false);
            let ghost last = proven@;
            proven.set(index, true);
            proof {
                assert(visiting@ =~= start_visiting);
                assert(marked(proven@, t));
                assert forall|x: TypeId| #[trigger] marked(start_proven, x) implies marked(proven@, x) by {
                    assert(marked(last, x));
                }
                assert forall|x: TypeId| #[trigger] marked(proven@, x) implies (actor_step(g, x) is Ok && forall|c: TypeId|
                    #[trigger] actor_edge(g, x, c) ==> marked(proven@, c) || marked(start_visiting, c)) by {
                    if x == t {
                        assert forall|c: TypeId| #[trigger] actor_edge(g, x, c) implies marked(proven@, c) || marked(start_visiting, c) by {
                            let j = choose|j: int| 0 <= j < children@.len() && children@[j] == c;
                            assert(marked(last, children@[j]) || marked(marked_visiting, children@[j]));
                            if marked(last, c) {
                                assert(marked(proven@, c));
                            } else if c != t {
                                assert(marked(start_visiting, c));
                            }
                        }
                    } else {
                        assert(marked(last, x));
                        assert forall|c: TypeId| #[trigger] actor_edge(g, x, c) implies marked(proven@, c) || marked(start_visiting, c) by {
                            if marked(last, c) {
                                assert(marked(proven@, c));
                            } else if c != t {
                                assert(marked(start_visiting, c));
                            }
                        }
                    }
                }
            }
            ActorMessageSafety::Safe
        },
    }
}

fn unmarked_flags(n: usize) -> (r: Vec<bool>)
    ensures
        r@.len() == n,
        r@ == Seq::new(n as nat, |i: int| false),
        forall|x: TypeId| !#[trigger] marked(r@, x),
{
    let mut flags: Vec<bool> = Vec::new();
    let mut i: usize = 0;
    while i < n
        invariant
            i <= n,
            flags@.len() == i,
            forall|k: int| 0 <= k < i ==> !#[trigger] flags@[k],
        decreases n - i,
    {
        flags.push(false);
        i = i + 1;
    }
    assert(flags@ =~= Seq::new(n as nat, |i: int| false));
    flags
}

/// Whether values of `type_id` may be sent as actor messages: safe exactly
/// when no type its values carry, at any depth, is unsafe; otherwise the
/// first unsafe type that a depth-first walk of the carried types, in order,
/// meets, with why it is unsafe.
///
/// `tagged_union_payloads` lists, for each tagged-union type, the parameter
/// types of all its cases; `actor_reference` and `actor_reply` are the
/// built-in constructors whose arguments an actor handle carries.
pub fn actor_message_safety(
    arena: &TypeArena,
    tagged_union_payloads: &[(TypeId, Vec<TypeId>)],
    actor_reference: BuiltinTypeId,
    actor_reply: BuiltinTypeId,
    type_id: TypeId,
) -> (r: ActorMessageSafety)
    ensures
        (r is Safe) <==> forall|u: TypeId| actor_reachable(
            ActorTypeGraph::of(arena, tagged_union_payloads@, actor_reference, actor_reply),
            type_id,
            u,
        ) ==> actor_step(ActorTypeGraph::of(arena, tagged_union_payloads@, actor_reference, actor_reply), u) is Ok,
        r matches ActorMessageSafety::Unsafe { type_id: u, kind } ==> actor_reachable(
            ActorTypeGraph::of(arena, tagged_union_payloads@, actor_reference, actor_reply),
            type_id,
            u,
        ) && actor_step(ActorTypeGraph::of(arena, tagged_union_payloads@, actor_reference, actor_reply), u)
            == Err::<Seq<TypeId>, ActorMessageUnsafeKind>(kind),
        r == first_unsafe(
            ActorTypeGraph::of(arena, tagged_union_payloads@, actor_reference, actor_reply),
            Seq::new(arena.types().len(), |i: int| false),
            type_id,
        ),
{
    let ghost g = ActorTypeGraph::of(arena, tagged_union_payloads@, actor_reference, actor_reply);
    let n = arena.len();
    let mut visiting = unmarked_flags(n);
    let mut proven = unmarked_flags(n);
    let r = check_safety(
        arena,
        tagged_union_payloads,
        actor_reference,
        actor_reply,
        type_id,
        &mut visiting,
        &mut proven,
    );
    proof {
        assert(visiting@ =~= Seq::new(arena.types().len(), |i: int| false));
        if r is Safe {
            assert forall|u: TypeId| actor_reachable(g, type_id, u) implies actor_step(g, u) is Ok by {
                let path = choose|path: Seq<TypeId>| #[trigger] actor_path(g, path) && path[0] == type_id && path.last() == u;
                lemma_closed_path(g, proven@, visiting@, path, path.len() - 1);
            }
        }
    }
    r
}

/// A class type is never safe to send as an actor message: checking it
/// reports the class itself with kind `Class`, and a type whose values
/// carry a class, at any depth, is not safe.
pub proof fn law_classes_are_never_sendable(g: ActorTypeGraph, t: TypeId, c: TypeId)
    requires
        actor_reachable(g, t, c),
        (c.0 as int) < g.types.len(),
        g.types[c.0 as int] is Class,
    ensures
        actor_step(g, c) == Err::<Seq<TypeId>, ActorMessageUnsafeKind>(ActorMessageUnsafeKind::Class),
        first_unsafe(g, Seq::new(g.types.len(), |i: int| false), c) == (ActorMessageSafety::Unsafe {
            type_id: c,
            kind: ActorMessageUnsafeKind::Class,
        }),
        !(forall|u: TypeId| actor_reachable(g, t, u) ==> actor_step(g, u) is Ok),
{
    assert(!marked(Seq::new(g.types.len(), |i: int| false), c));
}

/// Values that carry, at any depth, a mutable collection, a callable, a
/// class, an interface, an attribute, a type parameter, an opaque type, an
/// error union or the compiler's error type are never safe to send.
pub proof fn law_unsendable_types_make_carriers_unsafe(g: ActorTypeGraph, t: TypeId, c: TypeId)
    requires
        actor_reachable(g, t, c),
        (c.0 as int) < g.types.len(),
        ({
            let v = g.types[c.0 as int];
            v is Array || v is Table || v is Function || v is Class || v is Interface || v is Attribute
                || v is TypeParameter || v is Opaque || v is ErrorUnion || v is Error
        }),
    ensures
        actor_step(g, c) is Err,
        !(forall|u: TypeId| actor_reachable(g, t, u) ==> actor_step(g, u) is Ok),
{
}

} // verus!
