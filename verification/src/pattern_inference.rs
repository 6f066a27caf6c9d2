//! Inference of generic type arguments: a parameter type written with type
//! parameters is matched against the type of an actual argument, and each
//! parameter met is bound to the part of the actual type in its place.
//!
//! Besides the arena, matching reads what the declaration resolver knows of
//! classes and interfaces, handed in as plain tables: the source definition
//! of each class and interface instance, the interface types that each
//! class type implements, and the interface of each interface type.
use vstd::prelude::*;

use crate::arena::TypeArena;
use crate::bootstrap::BootstrapIterationProtocol;
use crate::ids::{ClassId, InterfaceId, ParameterId, SymbolId, TypeId};
use crate::nominal_bounds::{iteration_item, iteration_item_type};
use crate::semantic::{field_views, SemanticType, SemanticTypeView};
use crate::specializations::TypeSubstitutions;

verus! {

/// The first value that `table` gives `key`, if any.
pub open spec fn first_value<K, V>(table: Seq<(K, V)>, key: K) -> Option<V>
    decreases table.len(),
{
    if table.len() == 0 {
        None
    } else if table[0].0 == key {
        Some(table[0].1)
    } else {
        first_value(table.drop_first(), key)
    }
}

/// What matching reads of the resolved declarations.
pub struct PatternFactsView {
    /// The iteration protocol of the bootstrap schema, if it has one.
    pub iteration: Option<BootstrapIterationProtocol>,
    /// The source definition of each class instance.
    pub class_sources: Seq<(ClassId, SymbolId)>,
    /// The source definition of each interface instance.
    pub interface_sources: Seq<(InterfaceId, SymbolId)>,
    /// The interface types that each class type implements, in order.
    pub class_implementations: Seq<(TypeId, Seq<TypeId>)>,
    /// The interface that each interface type names.
    pub interface_types: Seq<(TypeId, InterfaceId)>,
}

/// Both sources are known and they are the same definition.
pub open spec fn same_known_source(a: Option<SymbolId>, b: Option<SymbolId>) -> bool {
    a is Some && a == b
}

/// The first of `implemented` that names an interface whose source is
/// `target` (an unknown source matches an unknown one).
pub open spec fn first_implementation(
    f: PatternFactsView,
    implemented: Seq<TypeId>,
    target: Option<SymbolId>,
) -> Option<TypeId>
    decreases implemented.len(),
{
    if implemented.len() == 0 {
        None
    } else if (first_value(f.interface_types, implemented[0]) matches Some(i) && first_value(
        f.interface_sources,
        i,
    ) == target) {
        Some(implemented[0])
    } else {
        first_implementation(f, implemented.drop_first(), target)
    }
}

/// The state that matching threads: whether it still holds, the arena's
/// types (iterating a table interns the tuple of its key and value), and
/// the parameters bound so far.
pub type PatternState = (bool, Seq<SemanticTypeView>, Map<ParameterId, TypeId>);

/// Matching `pattern` against `actual`, from the arena `types` and the
/// bindings `subs`. A type parameter binds to the actual type, or must agree
/// with its binding; an iterable pattern matches the item type of an
/// iterable actual; an interface pattern matches a class through the
/// class's implementation of that interface; otherwise the two types must
/// have the same shape, and their parts are matched in order, stopping at
/// the first that fails with what was bound until then. `via_class` marks
/// the comparison with a class's implemented interface, which does not look
/// through a class again. A pattern refers only to earlier types in a
/// well-formed arena; a part that does not fails the match.
pub open spec fn pattern_match(
    types: Seq<SemanticTypeView>,
    f: PatternFactsView,
    pattern: TypeId,
    actual: TypeId,
    subs: Map<ParameterId, TypeId>,
    via_class: bool,
) -> PatternState
    decreases pattern.0 as int, if via_class {
        1int
    } else {
        2int
    }, 0int,
{
    if pattern == actual {
        (true, types, subs)
    } else if pattern.0 as int >= types.len() {
        (false, types, subs)
    } else {
        let pt = types[pattern.0 as int];
        if pt is TypeParameter {
            let parameter = pt->TypeParameter_0;
            if subs.contains_key(parameter) {
                (subs[parameter] == actual, types, subs)
            } else {
                (true, types, subs.insert(parameter, actual))
            }
        } else if actual.0 as int >= types.len() {
            (false, types, subs)
        } else if pt is Builtin && f.iteration is Some && pt->Builtin_definition == f.iteration->0@.1
            && pt->Builtin_arguments.len() == 1 && iteration_item(types, f.iteration, actual).1 is Some {
            let element = pt->Builtin_arguments[0];
            let after = iteration_item(types, f.iteration, actual);
            if element.0 < pattern.0 {
                pattern_match(after.0, f, element, after.1->0, subs, false)
            } else {
                (false, after.0, subs)
            }
        } else {
            let at = types[actual.0 as int];
            match (pt, at) {
                (SemanticTypeView::Primitive(l), SemanticTypeView::Primitive(r)) => (l == r, types, subs),
                (SemanticTypeView::Tuple(l), SemanticTypeView::Tuple(r)) => pattern_list(types, f, pattern, l, r, subs),
                (SemanticTypeView::Union(l), SemanticTypeView::Union(r)) => pattern_list(types, f, pattern, l, r, subs),
                (
                    SemanticTypeView::Function { is_async: la, parameters: lp, results: lr, effects: le, .. },
                    SemanticTypeView::Function { is_async: ra, parameters: rp, results: rr, effects: re, .. },
                ) => if la == ra && le == re {
                    let first = pattern_list(types, f, pattern, lp, rp, subs);
                    if first.0 {
                        pattern_list(first.1, f, pattern, lr, rr, first.2)
                    } else {
                        first
                    }
                } else {
                    (false, types, subs)
                },
                (SemanticTypeView::Array(l), SemanticTypeView::Array(r)) => if l.0 < pattern.0 {
                    pattern_match(types, f, l, r, subs, false)
                } else {
                    (false, types, subs)
                },
                (SemanticTypeView::Optional(l), SemanticTypeView::Optional(r)) => if l.0 < pattern.0 {
                    pattern_match(types, f, l, r, subs, false)
                } else {
                    (false, types, subs)
                },
                (SemanticTypeView::Table { key: lk, value: lv }, SemanticTypeView::Table { key: rk, value: rv }) =>
                    if lk.0 < pattern.0 && lv.0 < pattern.0 {
                    let first = pattern_match(types, f, lk, rk, subs, false);
                    if first.0 {
                        pattern_match(first.1, f, lv, rv, first.2, false)
                    } else {
                        first
                    }
                } else {
                    (false, types, subs)
                },
                (
                    SemanticTypeView::Class { class: lc, arguments: la },
                    SemanticTypeView::Class { class: rc, arguments: ra },
                ) => if lc == rc || same_known_source(first_value(f.class_sources, lc), first_value(f.class_sources, rc)) {
                    pattern_list(types, f, pattern, la, ra, subs)
                } else {
                    (false, types, subs)
                },
                (
                    SemanticTypeView::Interface { interface: li, arguments: la },
                    SemanticTypeView::Interface { interface: ri, arguments: ra },
                ) => if li == ri || same_known_source(
                    first_value(f.interface_sources, li),
                    first_value(f.interface_sources, ri),
                ) {
                    pattern_list(types, f, pattern, la, ra, subs)
                } else {
                    (false, types, subs)
                },
                (SemanticTypeView::Interface { interface: li, .. }, SemanticTypeView::Class { .. }) => if via_class {
                    (false, types, subs)
                } else {
                    match first_value(f.class_implementations, actual) {
                        None => (false, types, subs),
                        Some(implemented) => match first_implementation(
                            f,
                            implemented,
                            first_value(f.interface_sources, li),
                        ) {
                            None => (false, types, subs),
                            Some(interface_type) => pattern_match(types, f, pattern, interface_type, subs, true),
                        },
                    }
                },
                (
                    SemanticTypeView::Builtin { definition: ld, arguments: la },
                    SemanticTypeView::Builtin { definition: rd, arguments: ra },
                ) => if ld == rd {
                    pattern_list(types, f, pattern, la, ra, subs)
                } else {
                    (false, types, subs)
                },
                (
                    SemanticTypeView::TaggedUnion { source: ls, arguments: la, .. },
                    SemanticTypeView::TaggedUnion { source: rs, arguments: ra, .. },
                ) => if ls == rs {
                    pattern_list(types, f, pattern, la, ra, subs)
                } else {
                    (false, types, subs)
                },
                (
                    SemanticTypeView::ErrorUnion { source: ls, arguments: la, .. },
                    SemanticTypeView::ErrorUnion { source: rs, arguments: ra, .. },
                ) => if ls == rs {
                    pattern_list(types, f, pattern, la, ra, subs)
                } else {
                    (false, types, subs)
                },
                (SemanticTypeView::Record(lf), SemanticTypeView::Record(rf)) => if lf.len() == rf.len() {
                    pattern_fields(types, f, pattern, lf, rf, subs)
                } else {
                    (false, types, subs)
                },
                (SemanticTypeView::Enum { definition: l }, SemanticTypeView::Enum { definition: r }) => (
                    l == r,
                    types,
                    subs,
                ),
                (SemanticTypeView::Opaque(l), SemanticTypeView::Opaque(r)) => (l == r, types, subs),
                (SemanticTypeView::Error, SemanticTypeView::Error) => (true, types, subs),
                _ => (false, types, subs),
            }
        }
    }
}

/// Matching two lists of equal length pairwise, in order, stopping at the
/// first pair that fails; lists of different lengths do not match. Every
/// pattern is a part of `parent`.
pub open spec fn pattern_list(
    types: Seq<SemanticTypeView>,
    f: PatternFactsView,
    parent: TypeId,
    patterns: Seq<TypeId>,
    actuals: Seq<TypeId>,
    subs: Map<ParameterId, TypeId>,
) -> PatternState
    decreases parent.0 as int, 0int, patterns.len(),
{
    if patterns.len() != actuals.len() {
        (false, types, subs)
    } else if patterns.len() == 0 {
        (true, types, subs)
    } else if patterns[0].0 < parent.0 {
        let first = pattern_match(types, f, patterns[0], actuals[0], subs, false);
        if first.0 {
            pattern_list(first.1, f, parent, patterns.drop_first(), actuals.drop_first(), first.2)
        } else {
            first
        }
    } else {
        (false, types, subs)
    }
}

/// Matching record fields pairwise, in order: each pair must have one name
/// and matching types.
pub open spec fn pattern_fields(
    types: Seq<SemanticTypeView>,
    f: PatternFactsView,
    parent: TypeId,
    patterns: Seq<(Seq<char>, TypeId)>,
    actuals: Seq<(Seq<char>, TypeId)>,
    subs: Map<ParameterId, TypeId>,
) -> PatternState
    decreases parent.0 as int, 0int, patterns.len(),
{
    if patterns.len() == 0 || actuals.len() == 0 {
        (true, types, subs)
    } else if patterns[0].0 != actuals[0].0 {
        (false, types, subs)
    } else if patterns[0].1.0 < parent.0 {
        let first = pattern_match(types, f, patterns[0].1, actuals[0].1, subs, false);
        if first.0 {
            pattern_fields(first.1, f, parent, patterns.drop_first(), actuals.drop_first(), first.2)
        } else {
            first
        }
    } else {
        (false, types, subs)
    }
}

proof fn lemma_iteration_item_grows(
    types: Seq<SemanticTypeView>,
    iteration: Option<BootstrapIterationProtocol>,
    iterated: TypeId,
)
    ensures
        iteration_item(types, iteration, iterated).0.len() >= types.len(),
        iteration_item(types, iteration, iterated).1 is None ==> iteration_item(types, iteration, iterated).0
            == types,
{
}

proof fn lemma_submap_refl(m: Map<ParameterId, TypeId>)
    ensures
        m.submap_of(m),
{
}

proof fn lemma_submap_insert(m: Map<ParameterId, TypeId>, p: ParameterId, t: TypeId)
    requires
        !m.contains_key(p),
    ensures
        m.submap_of(m.insert(p, t)),
{
}

proof fn lemma_submap_trans(a: Map<ParameterId, TypeId>, b: Map<ParameterId, TypeId>, c: Map<ParameterId, TypeId>)
    requires
        a.submap_of(b),
        b.submap_of(c),
    ensures
        a.submap_of(c),
{
    assert forall|k: ParameterId| #[trigger] a.dom().contains(k) implies c.dom().contains(k) && a[k] == c[k] by {
        assert(b.dom().contains(k));
    }
}

/// Matching only appends to the arena and only adds bindings.
proof fn lemma_pattern_grows(
    types: Seq<SemanticTypeView>,
    f: PatternFactsView,
    pattern: TypeId,
    actual: TypeId,
    subs: Map<ParameterId, TypeId>,
    via_class: bool,
)
    ensures
        pattern_match(types, f, pattern, actual, subs, via_class).1.len() >= types.len(),
        subs.submap_of(pattern_match(types, f, pattern, actual, subs, via_class).2),
    decreases pattern.0 as int, if via_class {
        1int
    } else {
        2int
    }, 0int,
{
    lemma_submap_refl(subs);
    if pattern == actual || pattern.0 as int >= types.len() {
    } else {
        let pt = types[pattern.0 as int];
        if pt is TypeParameter {
            if !subs.contains_key(pt->TypeParameter_0) {
                lemma_submap_insert(subs, pt->TypeParameter_0, actual);
            }
        } else if actual.0 as int >= types.len() {
        } else if pt is Builtin && f.iteration is Some && pt->Builtin_definition == f.iteration->0@.1
            && pt->Builtin_arguments.len() == 1 && iteration_item(types, f.iteration, actual).1 is Some {
            let element = pt->Builtin_arguments[0];
            let after = iteration_item(types, f.iteration, actual);
            lemma_iteration_item_grows(types, f.iteration, actual);
            if element.0 < pattern.0 {
                lemma_pattern_grows(after.0, f, element, after.1->0, subs, false);
            }
        } else {
            let at = types[actual.0 as int];
            match (pt, at) {
                (SemanticTypeView::Tuple(l), SemanticTypeView::Tuple(r)) => lemma_list_grows(types, f, pattern, l, r, subs),
                (SemanticTypeView::Union(l), SemanticTypeView::Union(r)) => lemma_list_grows(types, f, pattern, l, r, subs),
                (
                    SemanticTypeView::Function { is_async: la, parameters: lp, results: lr, effects: le, .. },
                    SemanticTypeView::Function { is_async: ra, parameters: rp, results: rr, effects: re, .. },
                ) => if la == ra && le == re {
                    let first = pattern_list(types, f, pattern, lp, rp, subs);
                    lemma_list_grows(types, f, pattern, lp, rp, subs);
                    if first.0 {
                        lemma_list_grows(first.1, f, pattern, lr, rr, first.2);
                        lemma_submap_trans(subs, first.2, pattern_list(first.1, f, pattern, lr, rr, first.2).2);
                    }
                },
                (SemanticTypeView::Array(l), SemanticTypeView::Array(r)) => if l.0 < pattern.0 {
                    lemma_pattern_grows(types, f, l, r, subs, false);
                },
                (SemanticTypeView::Optional(l), SemanticTypeView::Optional(r)) => if l.0 < pattern.0 {
                    lemma_pattern_grows(types, f, l, r, subs, false);
                },
                (SemanticTypeView::Table { key: lk, value: lv }, SemanticTypeView::Table { key: rk, value: rv }) =>
                    if lk.0 < pattern.0 && lv.0 < pattern.0 {
                    let first = pattern_match(types, f, lk, rk, subs, false);
                    lemma_pattern_grows(types, f, lk, rk, subs, false);
                    if first.0 {
                        lemma_pattern_grows(first.1, f, lv, rv, first.2, false);
                        lemma_submap_trans(subs, first.2, pattern_match(first.1, f, lv, rv, first.2, false).2);
                    }
                },
                (SemanticTypeView::Class { arguments: la, .. }, SemanticTypeView::Class { arguments: ra, .. }) =>
                    lemma_list_grows(types, f, pattern, la, ra, subs),
                (
                    SemanticTypeView::Interface { arguments: la, .. },
                    SemanticTypeView::Interface { arguments: ra, .. },
                ) => lemma_list_grows(types, f, pattern, la, ra, subs),
                (SemanticTypeView::Interface { interface: li, .. }, SemanticTypeView::Class { .. }) => if !via_class {
                    match first_value(f.class_implementations, actual) {
                        None => {},
                        Some(implemented) => match first_implementation(
                            f,
                            implemented,
                            first_value(f.interface_sources, li),
                        ) {
                            None => {},
                            Some(interface_type) => lemma_pattern_grows(types, f, pattern, interface_type, subs, true),
                        },
                    }
                },
                (SemanticTypeView::Builtin { arguments: la, .. }, SemanticTypeView::Builtin { arguments: ra, .. }) =>
                    lemma_list_grows(types, f, pattern, la, ra, subs),
                (
                    SemanticTypeView::TaggedUnion { arguments: la, .. },
                    SemanticTypeView::TaggedUnion { arguments: ra, .. },
                ) => lemma_list_grows(types, f, pattern, la, ra, subs),
                (
                    SemanticTypeView::ErrorUnion { arguments: la, .. },
                    SemanticTypeView::ErrorUnion { arguments: ra, .. },
                ) => lemma_list_grows(types, f, pattern, la, ra, subs),
                (SemanticTypeView::Record(lf), SemanticTypeView::Record(rf)) => lemma_fields_grows(
                    types,
                    f,
                    pattern,
                    lf,
                    rf,
                    subs,
                ),
                _ => {},
            }
        }
    }
}

/// Matching never changes or drops a binding: whatever the outcome, every
/// parameter bound before keeps its type, and the arena does not shrink.
pub proof fn law_matching_keeps_bindings(
    types: Seq<SemanticTypeView>,
    f: PatternFactsView,
    pattern: TypeId,
    actual: TypeId,
    subs: Map<ParameterId, TypeId>,
)
    ensures
        subs.submap_of(pattern_match(types, f, pattern, actual, subs, false).2),
        pattern_match(types, f, pattern, actual, subs, false).1.len() >= types.len(),
{
    lemma_pattern_grows(types, f, pattern, actual, subs, false);
}

proof fn lemma_list_grows(
    types: Seq<SemanticTypeView>,
    f: PatternFactsView,
    parent: TypeId,
    patterns: Seq<TypeId>,
    actuals: Seq<TypeId>,
    subs: Map<ParameterId, TypeId>,
)
    ensures
        pattern_list(types, f, parent, patterns, actuals, subs).1.len() >= types.len(),
        subs.submap_of(pattern_list(types, f, parent, patterns, actuals, subs).2),
    decreases parent.0 as int, 0int, patterns.len(),
{
    lemma_submap_refl(subs);
    if patterns.len() == actuals.len() && patterns.len() > 0 && patterns[0].0 < parent.0 {
        let first = pattern_match(types, f, patterns[0], actuals[0], subs, false);
        lemma_pattern_grows(types, f, patterns[0], actuals[0], subs, false);
        if first.0 {
            lemma_list_grows(first.1, f, parent, patterns.drop_first(), actuals.drop_first(), first.2);
            lemma_submap_trans(
                subs,
                first.2,
                pattern_list(first.1, f, parent, patterns.drop_first(), actuals.drop_first(), first.2).2,
            );
        }
    }
}

proof fn lemma_fields_grows(
    types: Seq<SemanticTypeView>,
    f: PatternFactsView,
    parent: TypeId,
    patterns: Seq<(Seq<char>, TypeId)>,
    actuals: Seq<(Seq<char>, TypeId)>,
    subs: Map<ParameterId, TypeId>,
)
    ensures
        pattern_fields(types, f, parent, patterns, actuals, subs).1.len() >= types.len(),
        subs.submap_of(pattern_fields(types, f, parent, patterns, actuals, subs).2),
    decreases parent.0 as int, 0int, patterns.len(),
{
    lemma_submap_refl(subs);
    if patterns.len() > 0 && actuals.len() > 0 && patterns[0].0 == actuals[0].0 && patterns[0].1.0 < parent.0 {
        let first = pattern_match(types, f, patterns[0].1, actuals[0].1, subs, false);
        lemma_pattern_grows(types, f, patterns[0].1, actuals[0].1, subs, false);
        if first.0 {
            lemma_fields_grows(first.1, f, parent, patterns.drop_first(), actuals.drop_first(), first.2);
            lemma_submap_trans(
                subs,
                first.2,
                pattern_fields(first.1, f, parent, patterns.drop_first(), actuals.drop_first(), first.2).2,
            );
        }
    }
}

/// What matching reads of the resolved declarations, as tables.
#[derive(Debug)]
pub struct PatternFacts {
    iteration: Option<BootstrapIterationProtocol>,
    class_sources: Vec<(ClassId, SymbolId)>,
    interface_sources: Vec<(InterfaceId, SymbolId)>,
    class_implementations: Vec<(TypeId, Vec<TypeId>)>,
    interface_types: Vec<(TypeId, InterfaceId)>,
}

/// The implementation table as plain sequences.
pub open spec fn implementation_views(v: Seq<(TypeId, Vec<TypeId>)>) -> Seq<(TypeId, Seq<TypeId>)> {
    v.map_values(|e: (TypeId, Vec<TypeId>)| (e.0, e.1@))
}

fn same_known_source_exec(a: Option<SymbolId>, b: Option<SymbolId>) -> (r: bool)
    ensures
        r == same_known_source(a, b),
{
    match (a, b) {
        (Some(x), Some(y)) => x == y,
        _ => false,
    }
}

impl PatternFacts {
    pub closed spec fn view(&self) -> PatternFactsView {
        PatternFactsView {
            iteration: self.iteration,
            class_sources: self.class_sources@,
            interface_sources: self.interface_sources@,
            class_implementations: implementation_views(self.class_implementations@),
            interface_types: self.interface_types@,
        }
    }

    /// Facts from the schema's iteration protocol and the resolver's tables.
    pub fn new(
        iteration: Option<BootstrapIterationProtocol>,
        class_sources: Vec<(ClassId, SymbolId)>,
        interface_sources: Vec<(InterfaceId, SymbolId)>,
        class_implementations: Vec<(TypeId, Vec<TypeId>)>,
        interface_types: Vec<(TypeId, InterfaceId)>,
    ) -> (r: Self)
        ensures
            r@ == (PatternFactsView {
                iteration,
                class_sources: class_sources@,
                interface_sources: interface_sources@,
                class_implementations: implementation_views(class_implementations@),
                interface_types: interface_types@,
            }),
    {
        PatternFacts { iteration, class_sources, interface_sources, class_implementations, interface_types }
    }

    fn class_source(&self, class: ClassId) -> (r: Option<SymbolId>)
        ensures
            r == first_value(self@.class_sources, class),
    {
        let ghost all = self@.class_sources;
        let mut i: usize = 0;
        assert(all.skip(0) =~= all);
        while i < self.class_sources.len()
            invariant
                i <= all.len(),
                all == self.class_sources@,
                first_value(all, class) == first_value(all.skip(i as int), class),
            decreases self.class_sources.len() - i,
        {
            assert(all.skip(i as int)[0] == all[i as int]);
            if self.class_sources[i].0 == class {
                return Some(self.class_sources[i].1);
            }
            assert(all.skip(i as int).drop_first() =~= all.skip(i + 1));
            i = i + 1;
        }
        None
    }

    fn interface_source(&self, interface: InterfaceId) -> (r: Option<SymbolId>)
        ensures
            r == first_value(self@.interface_sources, interface),
    {
        let ghost all = self@.interface_sources;
        let mut i: usize = 0;
        assert(all.skip(0) =~= all);
        while i < self.interface_sources.len()
            invariant
                i <= all.len(),
                all == self.interface_sources@,
                first_value(all, interface) == first_value(all.skip(i as int), interface),
            decreases self.interface_sources.len() - i,
        {
            assert(all.skip(i as int)[0] == all[i as int]);
            if self.interface_sources[i].0 == interface {
                return Some(self.interface_sources[i].1);
            }
            assert(all.skip(i as int).drop_first() =~= all.skip(i + 1));
            i = i + 1;
        }
        None
    }

    fn interface_of_type(&self, type_id: TypeId) -> (r: Option<InterfaceId>)
        ensures
            r == first_value(self@.interface_types, type_id),
    {
        let ghost all = self@.interface_types;
        let mut i: usize = 0;
        assert(all.skip(0) =~= all);
        while i < self.interface_types.len()
            invariant
                i <= all.len(),
                all == self.interface_types@,
                first_value(all, type_id) == first_value(all.skip(i as int), type_id),
            decreases self.interface_types.len() - i,
        {
            assert(all.skip(i as int)[0] == all[i as int]);
            if self.interface_types[i].0 == type_id {
                return Some(self.interface_types[i].1);
            }
            assert(all.skip(i as int).drop_first() =~= all.skip(i + 1));
            i = i + 1;
        }
        None
    }

    fn implementations_of(&self, type_id: TypeId) -> (r: Option<&Vec<TypeId>>)
        ensures
            match first_value(self@.class_implementations, type_id) {
                Some(s) => r matches Some(v) && v@ == s,
                None => r is None,
            },
    {
        let ghost all = self@.class_implementations;
        let mut i: usize = 0;
        assert(all.skip(0) =~= all);
        while i < self.class_implementations.len()
            invariant
                i <= all.len(),
                all == implementation_views(self.class_implementations@),
                first_value(all, type_id) == first_value(all.skip(i as int), type_id),
            decreases self.class_implementations.len() - i,
        {
            assert(all.skip(i as int)[0] == all[i as int]);
            if self.class_implementations[i].0 == type_id {
                return Some(&self.class_implementations[i].1);
            }
            assert(all.skip(i as int).drop_first() =~= all.skip(i + 1));
            i = i + 1;
        }
        None
    }

    fn find_implementation(&self, implemented: &Vec<TypeId>, target: Option<SymbolId>) -> (r: Option<TypeId>)
        ensures
            r == first_implementation(self@, implemented@, target),
    {
        let ghost all = implemented@;
        let mut i: usize = 0;
        assert(all.skip(0) =~= all);
        while i < implemented.len()
            invariant
                i <= all.len(),
                all == implemented@,
                first_implementation(self@, all, target) == first_implementation(self@, all.skip(i as int), target),
            decreases implemented.len() - i,
        {
            assert(all.skip(i as int)[0] == all[i as int]);
            let candidate = implemented[i];
            match self.interface_of_type(candidate) {
                Some(interface) => {
                    let source = self.interface_source(interface);
                    let same = match (source, target) {
                        (Some(x), Some(y)) => x == y,
                        (None, None) => true,
                        _ => false,
                    };
                    if same {
                        return Some(candidate);
                    }
                },
                None => {},
            }
            assert(all.skip(i as int).drop_first() =~= all.skip(i + 1));
            i = i + 1;
        }
        None
    }
}

fn match_pattern(
    arena: &mut TypeArena,
    facts: &PatternFacts,
    pattern: TypeId,
    actual: TypeId,
    subs: &mut TypeSubstitutions,
    via_class: bool,
) -> (r: bool)
    requires
        pattern_match(old(arena).types(), facts@, pattern, actual, old(subs)@, via_class).1.len() <= 0x1_0000_0000,
    ensures
        (r, final(arena).types(), final(subs)@) == pattern_match(
            old(arena).types(),
            facts@,
            pattern,
            actual,
            old(subs)@,
            via_class,
        ),
        final(arena).specializations() == old(arena).specializations(),
    decreases pattern.0 as int, if via_class {
        1int
    } else {
        2int
    }, 0int,
{
    proof {
        use_type_invariant(&*arena);
    }
    let ghost types = arena.types();
    let ghost f = facts@;
    let ghost start = subs@;
    let ghost outcome = pattern_match(types, f, pattern, actual, start, via_class);
    if pattern == actual {
        return true;
    }
    let pt = match arena.get(pattern) {
        None => {
            return false;
        },
        Some(t) => t.clone(),
    };
    if let SemanticType::TypeParameter(parameter) = pt {
        match subs.get(parameter) {
            Some(known) => {
                return known == actual;
            },
            None => {
                subs.insert(parameter, actual);
                return true;
            },
        }
    }
    let at = match arena.get(actual) {
        None => {
            return false;
        },
        Some(t) => t.clone(),
    };
    if let SemanticType::Builtin { definition, arguments } = &pt {
        if let Some(protocol) = facts.iteration {
            if *definition == protocol.iterable() && arguments.len() == 1 {
                let element = arguments[0];
                let ghost after = iteration_item(types, f.iteration, actual);
                proof {
                    assert(pt@ == types[pattern.0 as int]);
                    assert(f.iteration == Some(protocol));
                    assert(element == pt@->Builtin_arguments[0]);
                    arena.lemma_identity_range();
                    lemma_iteration_item_grows(types, f.iteration, actual);
                    if after.1 is Some && element.0 < pattern.0 {
                        lemma_pattern_grows(after.0, f, element, after.1->0, start, false);
                    }
                }
                let item = iteration_item_type(arena, facts.iteration, actual);
                match item {
                    Some(item) => {
                        if element.0 < pattern.0 {
                            return match_pattern(arena, facts, element, item, subs, false);
                        }
                        return false;
                    },
                    None => {},
                }
            }
        }
    }
    assert(arena.types() == types);
    match (&pt, &at) {
        (SemanticType::Primitive(l), SemanticType::Primitive(r)) => *l == *r,
        (SemanticType::Tuple(l), SemanticType::Tuple(r)) => match_list(arena, facts, pattern, l, r, subs),
        (SemanticType::Union(l), SemanticType::Union(r)) => match_list(arena, facts, pattern, l, r, subs),
        (
            SemanticType::Function { is_async: la, parameters: lp, results: lr, effects: le, .. },
            SemanticType::Function { is_async: ra, parameters: rp, results: rr, effects: re, .. },
        ) => {
            if *la == *ra && *le == *re {
                let ghost first = pattern_list(types, f, pattern, lp@, rp@, start);
                proof {
                    if first.0 {
                        lemma_list_grows(first.1, f, pattern, lr@, rr@, first.2);
                    }
                }
                if !match_list(arena, facts, pattern, lp, rp, subs) {
                    return false;
                }
                match_list(arena, facts, pattern, lr, rr, subs)
            } else {
                false
            }
        },
        (SemanticType::Array(l), SemanticType::Array(r)) => {
            if l.0 < pattern.0 {
                match_pattern(arena, facts, *l, *r, subs, false)
            } else {
                false
            }
        },
        (SemanticType::Optional(l), SemanticType::Optional(r)) => {
            if l.0 < pattern.0 {
                match_pattern(arena, facts, *l, *r, subs, false)
            } else {
                false
            }
        },
        (SemanticType::Table { key: lk, value: lv }, SemanticType::Table { key: rk, value: rv }) => {
            if lk.0 < pattern.0 && lv.0 < pattern.0 {
                let ghost first = pattern_match(types, f, *lk, *rk, start, false);
                proof {
                    if first.0 {
                        lemma_pattern_grows(first.1, f, *lv, *rv, first.2, false);
                    }
                }
                if !match_pattern(arena, facts, *lk, *rk, subs, false) {
                    return false;
                }
                match_pattern(arena, facts, *lv, *rv, subs, false)
            } else {
                false
            }
        },
        (SemanticType::Class { class: lc, arguments: la }, SemanticType::Class { class: rc, arguments: ra }) => {
            if *lc == *rc || same_known_source_exec(facts.class_source(*lc), facts.class_source(*rc)) {
                match_list(arena, facts, pattern, la, ra, subs)
            } else {
                false
            }
        },
        (
            SemanticType::Interface { interface: li, arguments: la },
            SemanticType::Interface { interface: ri, arguments: ra },
        ) => {
            if *li == *ri || same_known_source_exec(facts.interface_source(*li), facts.interface_source(*ri)) {
                match_list(arena, facts, pattern, la, ra, subs)
            } else {
                false
            }
        },
        (SemanticType::Interface { interface: li, .. }, SemanticType::Class { .. }) => {
            if via_class {
                return false;
            }
            match facts.implementations_of(actual) {
                None => false,
                Some(implemented) => match facts.find_implementation(implemented, facts.interface_source(*li)) {
                    None => false,
                    Some(interface_type) => match_pattern(arena, facts, pattern, interface_type, subs, true),
                },
            }
        },
        (
            SemanticType::Builtin { definition: ld, arguments: la },
            SemanticType::Builtin { definition: rd, arguments: ra },
        ) => {
            if *ld == *rd {
                match_list(arena, facts, pattern, la, ra, subs)
            } else {
                false
            }
        },
        (
            SemanticType::TaggedUnion { source: ls, arguments: la, .. },
            SemanticType::TaggedUnion { source: rs, arguments: ra, .. },
        ) => {
            if *ls == *rs {
                match_list(arena, facts, pattern, la, ra, subs)
            } else {
                false
            }
        },
        (
            SemanticType::ErrorUnion { source: ls, arguments: la, .. },
            SemanticType::ErrorUnion { source: rs, arguments: ra, .. },
        ) => {
            if *ls == *rs {
                match_list(arena, facts, pattern, la, ra, subs)
            } else {
                false
            }
        },
        (SemanticType::Record(lf), SemanticType::Record(rf)) => {
            if lf.len() == rf.len() {
                match_fields(arena, facts, pattern, lf, rf, subs)
            } else {
                false
            }
        },
        (SemanticType::Enum { definition: l }, SemanticType::Enum { definition: r }) => *l == *r,
        (SemanticType::Opaque(l), SemanticType::Opaque(r)) => *l == *r,
        (SemanticType::Error, SemanticType::Error) => true,
        _ => false,
    }
}

fn match_list(
    arena: &mut TypeArena,
    facts: &PatternFacts,
    parent: TypeId,
    patterns: &Vec<TypeId>,
    actuals: &Vec<TypeId>,
    subs: &mut TypeSubstitutions,
) -> (r: bool)
    requires
        pattern_list(old(arena).types(), facts@, parent, patterns@, actuals@, old(subs)@).1.len() <= 0x1_0000_0000,
    ensures
        (r, final(arena).types(), final(subs)@) == pattern_list(
            old(arena).types(),
            facts@,
            parent,
            patterns@,
            actuals@,
            old(subs)@,
        ),
        final(arena).specializations() == old(arena).specializations(),
    decreases parent.0 as int, 0int, patterns@.len(),
{
    let ghost f = facts@;
    let ghost outcome = pattern_list(arena.types(), f, parent, patterns@, actuals@, subs@);
    let ghost specializations = arena.specializations();
    if patterns.len() != actuals.len() {
        return false;
    }
    let mut i: usize = 0;
    assert(patterns@.skip(0) =~= patterns@);
    assert(actuals@.skip(0) =~= actuals@);
    while i < patterns.len()
        invariant
            i <= patterns@.len(),
            patterns@.len() == actuals@.len(),
            f == facts@,
            outcome.1.len() <= 0x1_0000_0000,
            outcome == pattern_list(arena.types(), f, parent, patterns@.skip(i as int), actuals@.skip(i as int), subs@),
            outcome == pattern_list(old(arena).types(), f, parent, patterns@, actuals@, old(subs)@),
            arena.specializations() == specializations,
            specializations == old(arena).specializations(),
        decreases patterns.len() - i,
    {
        let ghost ps = patterns@.skip(i as int);
        let ghost qs = actuals@.skip(i as int);
        assert(ps[0] == patterns@[i as int]);
        assert(qs[0] == actuals@[i as int]);
        assert(ps.drop_first() =~= patterns@.skip(i + 1));
        assert(qs.drop_first() =~= actuals@.skip(i + 1));
        if patterns[i].0 >= parent.0 {
            return false;
        }
        let ghost first = pattern_match(arena.types(), f, ps[0], qs[0], subs@, false);
        proof {
            if first.0 {
                lemma_list_grows(first.1, f, parent, ps.drop_first(), qs.drop_first(), first.2);
            }
        }
        if !match_pattern(arena, facts, patterns[i], actuals[i], subs, false) {
            return false;
        }
        i = i + 1;
    }
    assert(patterns@.skip(i as int).len() == 0);
    true
}

fn match_fields(
    arena: &mut TypeArena,
    facts: &PatternFacts,
    parent: TypeId,
    patterns: &Vec<(String, TypeId)>,
    actuals: &Vec<(String, TypeId)>,
    subs: &mut TypeSubstitutions,
) -> (r: bool)
    requires
        patterns@.len() == actuals@.len(),
        pattern_fields(
            old(arena).types(),
            facts@,
            parent,
            field_views(patterns@),
            field_views(actuals@),
            old(subs)@,
        ).1.len() <= 0x1_0000_0000,
    ensures
        (r, final(arena).types(), final(subs)@) == pattern_fields(
            old(arena).types(),
            facts@,
            parent,
            field_views(patterns@),
            field_views(actuals@),
            old(subs)@,
        ),
        final(arena).specializations() == old(arena).specializations(),
    decreases parent.0 as int, 0int, patterns@.len(),
{
    let ghost f = facts@;
    let ghost lv = field_views(patterns@);
    let ghost rv = field_views(actuals@);
    let ghost outcome = pattern_fields(arena.types(), f, parent, lv, rv, subs@);
    let ghost specializations = arena.specializations();
    let mut i: usize = 0;
    assert(lv.skip(0) =~= lv);
    assert(rv.skip(0) =~= rv);
    while i < patterns.len()
        invariant
            i <= patterns@.len(),
            patterns@.len() == actuals@.len(),
            lv == field_views(patterns@),
            rv == field_views(actuals@),
            f == facts@,
            outcome.1.len() <= 0x1_0000_0000,
            outcome == pattern_fields(arena.types(), f, parent, lv.skip(i as int), rv.skip(i as int), subs@),
            outcome == pattern_fields(old(arena).types(), f, parent, lv, rv, old(subs)@),
            arena.specializations() == specializations,
            specializations == old(arena).specializations(),
        decreases patterns.len() - i,
    {
        let ghost ps = lv.skip(i as int);
        let ghost qs = rv.skip(i as int);
        assert(ps[0] == (patterns@[i as int].0@, patterns@[i as int].1));
        assert(qs[0] == (actuals@[i as int].0@, actuals@[i as int].1));
        assert(ps.drop_first() =~= lv.skip(i + 1));
        assert(qs.drop_first() =~= rv.skip(i + 1));
        if !crate::text::str_eq(patterns[i].0.as_str(), actuals[i].0.as_str()) {
            return false;
        }
        if patterns[i].1.0 >= parent.0 {
            return false;
        }
        let ghost first = pattern_match(arena.types(), f, ps[0].1, qs[0].1, subs@, false);
        proof {
            if first.0 {
                lemma_fields_grows(first.1, f, parent, ps.drop_first(), qs.drop_first(), first.2);
            }
        }
        if !match_pattern(arena, facts, patterns[i].1, actuals[i].1, subs, false) {
            return false;
        }
        i = i + 1;
    }
    assert(lv.skip(i as int).len() == 0);
    true
}

/// Matches the parameter type `pattern` against the argument type `actual`,
/// binding the type parameters met in `substitutions`: the outcome, the
/// arena (iterating a table interns the tuple of its key and value) and
/// the bindings are exactly those of [`pattern_match`], including the
/// bindings made before a part failed. The arena must have room for the
/// types that matching interns.
pub fn infer_type_pattern(
    arena: &mut TypeArena,
    facts: &PatternFacts,
    pattern: TypeId,
    actual: TypeId,
    substitutions: &mut TypeSubstitutions,
) -> (r: bool)
    requires
        pattern_match(old(arena).types(), facts@, pattern, actual, old(substitutions)@, false).1.len()
            <= 0x1_0000_0000,
    ensures
        (r, final(arena).types(), final(substitutions)@) == pattern_match(
            old(arena).types(),
            facts@,
            pattern,
            actual,
            old(substitutions)@,
            false,
        ),
        final(arena).specializations() == old(arena).specializations(),
{
    match_pattern(arena, facts, pattern, actual, substitutions, false)
}

/// The parameter of a type-parameter entry.
pub open spec fn parameter_at(types: Seq<SemanticTypeView>, t: TypeId) -> ParameterId {
    types[t.0 as int]->TypeParameter_0
}

/// Each pattern either is its actual type or is a type parameter not bound
/// in `subs`, and the parameters so placed are distinct.
pub open spec fn binds_fresh_parameters(
    types: Seq<SemanticTypeView>,
    patterns: Seq<TypeId>,
    actuals: Seq<TypeId>,
    subs: Map<ParameterId, TypeId>,
) -> bool {
    &&& forall|i: int|
        0 <= i < patterns.len() ==> #[trigger] patterns[i] == actuals[i] || (types[patterns[i].0 as int] is TypeParameter
            && !subs.contains_key(parameter_at(types, patterns[i])))
    &&& forall|i: int, j: int|
        0 <= i < j < patterns.len() && patterns[i] != actuals[i] && patterns[j] != actuals[j] ==> parameter_at(
            types,
            #[trigger] patterns[i],
        ) != parameter_at(types, #[trigger] patterns[j])
}

proof fn lemma_list_binds(
    types: Seq<SemanticTypeView>,
    f: PatternFactsView,
    parent: TypeId,
    patterns: Seq<TypeId>,
    actuals: Seq<TypeId>,
    subs: Map<ParameterId, TypeId>,
)
    requires
        patterns.len() == actuals.len(),
        forall|i: int| 0 <= i < patterns.len() ==> (#[trigger] patterns[i]).0 < parent.0 && (patterns[i].0 as int)
            < types.len(),
        binds_fresh_parameters(types, patterns, actuals, subs),
    ensures
        pattern_list(types, f, parent, patterns, actuals, subs).0,
        pattern_list(types, f, parent, patterns, actuals, subs).1 == types,
        subs.submap_of(pattern_list(types, f, parent, patterns, actuals, subs).2),
        forall|i: int|
            0 <= i < patterns.len() && #[trigger] patterns[i] != actuals[i] ==> pattern_list(
                types,
                f,
                parent,
                patterns,
                actuals,
                subs,
            ).2.contains_key(parameter_at(types, patterns[i])) && pattern_list(types, f, parent, patterns, actuals, subs).2[parameter_at(types, patterns[i])]
                == actuals[i],
    decreases patterns.len(),
{
    lemma_submap_refl(subs);
    if patterns.len() > 0 {
        let first = pattern_match(types, f, patterns[0], actuals[0], subs, false);
        let next = if patterns[0] == actuals[0] {
            subs
        } else {
            subs.insert(parameter_at(types, patterns[0]), actuals[0])
        };
        assert(patterns[0] == actuals[0] || types[patterns[0].0 as int] is TypeParameter);
        assert(first == (true, types, next));
        if patterns[0] != actuals[0] {
            lemma_submap_insert(subs, parameter_at(types, patterns[0]), actuals[0]);
        }
        let ps = patterns.drop_first();
        let qs = actuals.drop_first();
        assert forall|i: int| 0 <= i < ps.len() implies #[trigger] ps[i] == qs[i] || (types[ps[i].0 as int] is TypeParameter
            && !next.contains_key(parameter_at(types, ps[i]))) by {
            assert(ps[i] == patterns[i + 1] && qs[i] == actuals[i + 1]);
            if ps[i] != qs[i] && patterns[0] != actuals[0] {
                assert(parameter_at(types, patterns[0]) != parameter_at(types, patterns[i + 1]));
            }
        }
        assert forall|i: int, j: int|
            0 <= i < j < ps.len() && ps[i] != qs[i] && ps[j] != qs[j] implies parameter_at(
                types,
                #[trigger] ps[i],
            ) != parameter_at(types, #[trigger] ps[j]) by {
            assert(ps[i] == patterns[i + 1] && qs[i] == actuals[i + 1]);
            assert(ps[j] == patterns[j + 1] && qs[j] == actuals[j + 1]);
            assert(parameter_at(types, patterns[i + 1]) != parameter_at(types, patterns[j + 1]));
        }
        assert forall|i: int| 0 <= i < ps.len() implies (#[trigger] ps[i]).0 < parent.0 && (ps[i].0 as int)
            < types.len() by {
            assert(ps[i] == patterns[i + 1]);
        }
        lemma_list_binds(types, f, parent, ps, qs, next);
        let out = pattern_list(types, f, parent, patterns, actuals, subs);
        assert(out == pattern_list(types, f, parent, ps, qs, next));
        lemma_submap_trans(subs, next, out.2);
        assert forall|i: int|
            0 <= i < patterns.len() && #[trigger] patterns[i] != actuals[i] implies out.2.contains_key(
                parameter_at(types, patterns[i]),
            ) && out.2[parameter_at(types, patterns[i])] == actuals[i] by {
            if i == 0 {
                assert(next.contains_key(parameter_at(types, patterns[0])));
            } else {
                assert(ps[i - 1] == patterns[i] && qs[i - 1] == actuals[i]);
            }
        }
    }
}

/// Unions are matched member by member: in a well-formed arena, a union
/// pattern against a union of the same length whose members are each the
/// actual member in its place or a type parameter not yet bound succeeds,
/// interns nothing, keeps every earlier binding, and binds each such
/// parameter to the actual member in its place. So `{nil, T}` against
/// `{nil, Int32}` succeeds with `T` bound to `Int32`.
pub proof fn law_unions_match_member_by_member(
    types: Seq<SemanticTypeView>,
    f: PatternFactsView,
    pattern: TypeId,
    actual: TypeId,
    subs: Map<ParameterId, TypeId>,
)
    requires
        crate::arena::arena_types_wf(types),
        pattern != actual,
        (pattern.0 as int) < types.len(),
        (actual.0 as int) < types.len(),
        types[pattern.0 as int] is Union,
        types[actual.0 as int] is Union,
        types[pattern.0 as int]->Union_0.len() == types[actual.0 as int]->Union_0.len(),
        forall|i: int|
            0 <= i < types[pattern.0 as int]->Union_0.len() ==> #[trigger] types[pattern.0 as int]->Union_0[i]
                == types[actual.0 as int]->Union_0[i] || (types[types[pattern.0 as int]->Union_0[i].0 as int] is TypeParameter
                && !subs.contains_key(parameter_at(types, types[pattern.0 as int]->Union_0[i]))),
    ensures
        pattern_match(types, f, pattern, actual, subs, false).0,
        pattern_match(types, f, pattern, actual, subs, false).1 == types,
        subs.submap_of(pattern_match(types, f, pattern, actual, subs, false).2),
        forall|i: int|
            0 <= i < types[pattern.0 as int]->Union_0.len() && #[trigger] types[pattern.0 as int]->Union_0[i]
                != types[actual.0 as int]->Union_0[i] ==> pattern_match(types, f, pattern, actual, subs, false).2.contains_key(
                parameter_at(types, types[pattern.0 as int]->Union_0[i]),
            ) && pattern_match(types, f, pattern, actual, subs, false).2[parameter_at(
                types,
                types[pattern.0 as int]->Union_0[i],
            )] == types[actual.0 as int]->Union_0[i],
{
    let l = types[pattern.0 as int]->Union_0;
    let r = types[actual.0 as int]->Union_0;
    assert(crate::arena::references_earlier(types, pattern.0 as int));
    assert(crate::arena::union_normalized(types, pattern.0 as int));
    assert forall|i: int| 0 <= i < l.len() implies (#[trigger] l[i]).0 < pattern.0 && (l[i].0 as int) < types.len() by {
        assert(crate::semantic::referenced_type_ids(types[pattern.0 as int])[i] == l[i]);
    }
    assert forall|i: int, j: int|
        0 <= i < j < l.len() && l[i] != r[i] && l[j] != r[j] implies parameter_at(types, #[trigger] l[i])
            != parameter_at(types, #[trigger] l[j]) by {
        assert(l[i].0 < l[j].0);
        assert(types[l[i].0 as int] != types[l[j].0 as int]);
        assert(l[i] == r[i] || types[l[i].0 as int] is TypeParameter);
        assert(l[j] == r[j] || types[l[j].0 as int] is TypeParameter);
    }
    lemma_list_binds(types, f, pattern, l, r, subs);
}

} // verus!
