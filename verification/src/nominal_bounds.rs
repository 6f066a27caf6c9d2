//! Whether a type satisfies a nominal interface bound of a generic
//! parameter.
//!
//! A class satisfies the interfaces it declares; the built-in iteration
//! protocol is satisfied structurally by arrays, lists, iterables and
//! iterators, and by a class that implements the iterator with the bound's
//! element type.
use vstd::prelude::*;

use crate::arena::{intern_outcome, TypeArena};
use crate::bootstrap::BootstrapIterationProtocol;
use crate::ids::{BuiltinTypeId, TypeId};
use crate::semantic::{type_ids_eq, SemanticType, SemanticTypeView};

verus! {

/// The element arguments of the built-in type `type_id`, when it is one.
pub open spec fn builtin_arguments(types: Seq<SemanticTypeView>, type_id: TypeId) -> Option<Seq<TypeId>> {
    if (type_id.0 as int) < types.len() && types[type_id.0 as int] is Builtin {
        Some(types[type_id.0 as int]->Builtin_arguments)
    } else {
        None
    }
}

/// Whether one built-in interface that a class implements, as (interface,
/// interface type), satisfies the built-in bound `bound` with definition
/// `definition` and arguments `arguments`: it is the bound itself, or the
/// bound is the iterable and the class implements the iterator with the
/// same arguments.
pub open spec fn builtin_implementation_satisfies(
    types: Seq<SemanticTypeView>,
    iteration: Option<BootstrapIterationProtocol>,
    definition: BuiltinTypeId,
    arguments: Seq<TypeId>,
    bound: TypeId,
    implementation: (BuiltinTypeId, TypeId),
) -> bool {
    ||| implementation.1 == bound
    ||| iteration matches Some(p) && definition == p@.1 && implementation.0 == p@.2 && builtin_arguments(
        types,
        implementation.1,
    ) == Some(arguments)
}

/// Whether one of a class's built-in interfaces satisfies the built-in
/// bound `bound`.
pub open spec fn some_builtin_implementation_satisfies(
    types: Seq<SemanticTypeView>,
    iteration: Option<BootstrapIterationProtocol>,
    definition: BuiltinTypeId,
    arguments: Seq<TypeId>,
    bound: TypeId,
    builtins: Seq<(BuiltinTypeId, TypeId)>,
) -> bool {
    exists|i: int|
        0 <= i < builtins.len() && #[trigger] builtin_implementation_satisfies(
            types,
            iteration,
            definition,
            arguments,
            bound,
            builtins[i],
        )
}

/// Whether `actual` satisfies the nominal bound `bound`. `implemented`
/// holds what the class of `actual` declares, when `actual` is a defined
/// class: the types of its interfaces and its built-in interfaces as
/// (interface, interface type).
pub open spec fn satisfies_nominal_bound(
    types: Seq<SemanticTypeView>,
    iteration: Option<BootstrapIterationProtocol>,
    implemented: Option<(Seq<TypeId>, Seq<(BuiltinTypeId, TypeId)>)>,
    actual: TypeId,
    bound: TypeId,
) -> bool {
    if actual == bound {
        true
    } else if !((actual.0 as int) < types.len() && (bound.0 as int) < types.len()) {
        false
    } else {
        match (types[actual.0 as int], types[bound.0 as int]) {
            (SemanticTypeView::Class { .. }, SemanticTypeView::Interface { .. }) => implemented matches Some(
                (interfaces, _),
            ) && interfaces.contains(bound),
            (SemanticTypeView::Class { .. }, SemanticTypeView::Builtin { definition, arguments }) => implemented matches Some(
                (_, builtins),
            ) && some_builtin_implementation_satisfies(types, iteration, definition, arguments, bound, builtins),
            (SemanticTypeView::Array(element), SemanticTypeView::Builtin { definition, arguments }) => iteration matches Some(
                p,
            ) && definition == p@.1 && arguments == seq![element],
            (
                SemanticTypeView::Builtin { definition: actual_definition, arguments: actual_arguments },
                SemanticTypeView::Builtin { definition: bound_definition, arguments: bound_arguments },
            ) => iteration matches Some(p) && actual_arguments == bound_arguments && ((bound_definition == p@.1 && (
            actual_definition == p@.3 || actual_definition == p@.1 || actual_definition == p@.2)) || (bound_definition
                == p@.2 && actual_definition == p@.2)),
            _ => false,
        }
    }
}

fn builtin_implementation_matches(
    arena: &TypeArena,
    iteration: Option<BootstrapIterationProtocol>,
    definition: BuiltinTypeId,
    arguments: &[TypeId],
    bound: TypeId,
    implementation: (BuiltinTypeId, TypeId),
) -> (r: bool)
    ensures
        r == builtin_implementation_satisfies(arena.types(), iteration, definition, arguments@, bound, implementation),
{
    if implementation.1 == bound {
        return true;
    }
    match iteration {
        Some(p) => {
            if definition == p.iterable() && implementation.0 == p.iterator() {
                match arena.get(implementation.1) {
                    Some(SemanticType::Builtin { arguments: implemented, .. }) => type_ids_eq(
                        implemented.as_slice(),
                        arguments,
                    ),
                    _ => false,
                }
            } else {
                false
            }
        },
        None => false,
    }
}

/// Whether `actual` satisfies the nominal bound `bound`; `implemented` is
/// what the class of `actual` declares, when `actual` is a defined class.
#[verifier::loop_isolation(false)]
pub fn type_satisfies_nominal_bound(
    arena: &TypeArena,
    iteration: Option<BootstrapIterationProtocol>,
    implemented: Option<(&[TypeId], &[(BuiltinTypeId, TypeId)])>,
    actual: TypeId,
    bound: TypeId,
) -> (r: bool)
    ensures
        r == satisfies_nominal_bound(
            arena.types(),
            iteration,
            match implemented {
                Some((interfaces, builtins)) => Some((interfaces@, builtins@)),
                None => None,
            },
            actual,
            bound,
        ),
{
    if actual == bound {
        return true;
    }
    match (arena.get(actual), arena.get(bound)) {
        (Some(SemanticType::Class { .. }), Some(SemanticType::Interface { .. })) => match implemented {
            Some((interfaces, _)) => {
                let mut i: usize = 0;
                while i < interfaces.len()
                    invariant
                        i <= interfaces@.len(),
                        forall|k: int| 0 <= k < i ==> interfaces@[k] != bound,
                    decreases interfaces.len() - i,
                {
                    if interfaces[i] == bound {
                        assert(interfaces@[i as int] == bound);
                        return true;
                    }
                    i = i + 1;
                }
                false
            },
            None => false,
        },
        (Some(SemanticType::Class { .. }), Some(SemanticType::Builtin { definition, arguments })) => match implemented {
            Some((_, builtins)) => {
                let mut i: usize = 0;
                while i < builtins.len()
                    invariant
                        i <= builtins@.len(),
                        forall|k: int|
                            0 <= k < i ==> !#[trigger] builtin_implementation_satisfies(
                                arena.types(),
                                iteration,
                                *definition,
                                arguments@,
                                bound,
                                builtins@[k],
                            ),
                    decreases builtins.len() - i,
                {
                    if builtin_implementation_matches(arena, iteration, *definition, arguments.as_slice(), bound, builtins[i]) {
                        assert(builtin_implementation_satisfies(
                            arena.types(),
                            iteration,
                            *definition,
                            arguments@,
                            bound,
                            builtins@[i as int],
                        ));
                        return true;
                    }
                    i = i + 1;
                }
                false
            },
            None => false,
        },
        (Some(SemanticType::Array(element)), Some(SemanticType::Builtin { definition, arguments })) => match iteration {
            Some(p) => {
                let same = arguments.len() == 1 && arguments[0] == *element;
                proof {
                    if same {
                        assert(arguments@ =~= seq![*element]);
                    }
                }
                *definition == p.iterable() && same
            },
            None => false,
        },
        (
            Some(SemanticType::Builtin { definition: actual_definition, arguments: actual_arguments }),
            Some(SemanticType::Builtin { definition: bound_definition, arguments: bound_arguments }),
        ) => match iteration {
            Some(p) => {
                type_ids_eq(actual_arguments.as_slice(), bound_arguments.as_slice()) && ((*bound_definition
                    == p.iterable() && (*actual_definition == p.list() || *actual_definition == p.iterable()
                    || *actual_definition == p.iterator())) || (*bound_definition == p.iterator()
                    && *actual_definition == p.iterator()))
            },
            None => false,
        },
        _ => false,
    }
}

/// Whether `source` is a class converted to a built-in interface type
/// `target` that it satisfies.
pub fn is_class_to_builtin_interface_upcast(
    arena: &TypeArena,
    iteration: Option<BootstrapIterationProtocol>,
    implemented: Option<(&[TypeId], &[(BuiltinTypeId, TypeId)])>,
    source: TypeId,
    target: TypeId,
) -> (r: bool)
    ensures
        r == ((source.0 as int) < arena.types().len() && arena.types()[source.0 as int] is Class && (target.0 as int)
            < arena.types().len() && arena.types()[target.0 as int] is Builtin && satisfies_nominal_bound(
            arena.types(),
            iteration,
            match implemented {
                Some((interfaces, builtins)) => Some((interfaces@, builtins@)),
                None => None,
            },
            source,
            target,
        )),
{
    match (arena.get(source), arena.get(target)) {
        (Some(SemanticType::Class { .. }), Some(SemanticType::Builtin { .. })) => type_satisfies_nominal_bound(
            arena,
            iteration,
            implemented,
            source,
            target,
        ),
        _ => false,
    }
}

/// What iterating a value of `iterated` yields, and the arena after: an
/// array's elements, a table's (key, value) tuples (interned), and the
/// element of a list, iterable or iterator. Without the iteration protocol
/// nothing is iterable.
pub open spec fn iteration_item(
    types: Seq<SemanticTypeView>,
    iteration: Option<BootstrapIterationProtocol>,
    iterated: TypeId,
) -> (Seq<SemanticTypeView>, Option<TypeId>) {
    if iteration is None || !((iterated.0 as int) < types.len()) {
        (types, None)
    } else {
        let p = iteration->0;
        match types[iterated.0 as int] {
            SemanticTypeView::Array(element) => (types, Some(element)),
            SemanticTypeView::Table { key, value } => match intern_outcome(types, SemanticTypeView::Tuple(seq![key, value])) {
                Ok((after, id)) => (after, Some(id)),
                Err(_) => (types, None),
            },
            SemanticTypeView::Builtin { definition, arguments } => if arguments.len() == 1 && (definition == p@.3
                || definition == p@.1 || definition == p@.2) {
                (types, Some(arguments[0]))
            } else {
                (types, None)
            },
            _ => (types, None),
        }
    }
}

/// The type of the items that iterating a value of `iterated` yields.
pub fn iteration_item_type(
    arena: &mut TypeArena,
    iteration: Option<BootstrapIterationProtocol>,
    iterated: TypeId,
) -> (r: Option<TypeId>)
    requires
        old(arena).type_count() < 0x1_0000_0000 || iteration_item(old(arena).types(), iteration, iterated).0.len()
            <= 0x1_0000_0000,
    ensures
        final(arena).well_formed(),
        final(arena).specializations() == old(arena).specializations(),
        (final(arena).types(), r) == iteration_item(old(arena).types(), iteration, iterated),
{
    proof {
        use_type_invariant(&*arena);
    }
    let p = match iteration {
        Some(p) => p,
        None => {
            return None;
        },
    };
    let (key, value) = match arena.get(iterated) {
        Some(SemanticType::Array(element)) => {
            return Some(*element);
        },
        Some(SemanticType::Table { key, value }) => (*key, *value),
        Some(SemanticType::Builtin { definition, arguments }) => {
            if arguments.len() == 1 && (*definition == p.list() || *definition == p.iterable()
                || *definition == p.iterator()) {
                return Some(arguments[0]);
            }
            return None;
        },
        _ => {
            return None;
        },
    };
    let mut pair: Vec<TypeId> = Vec::new();
    pair.push(key);
    pair.push(value);
    proof {
        assert(pair@ =~= seq![key, value]);
    }
    match arena.intern(SemanticType::Tuple(pair)) {
        Ok(id) => Some(id),
        Err(_) => None,
    }
}

} // verus!
