//! Substituting generic parameters inside interned types, without interning
//! anything new.
use vstd::prelude::*;

use crate::arena::{type_lookup, TypeArena};
use crate::ids::{ClassId, ParameterId, SymbolId, TypeId};
use crate::semantic::{
    copy_type_ids, field_views, referenced_type_ids, referenced_types, type_ids_eq, SemanticType,
    SemanticTypeView,
};
use crate::specializations::{
    class_lookup, first_class_of_instance, ClassSpecializations, TypeSubstitutions,
};

verus! {

/// `t` with the types it refers to replaced, in order, by `args`.
pub open spec fn rebuilt(t: SemanticTypeView, args: Seq<TypeId>) -> SemanticTypeView {
    match t {
        SemanticTypeView::Tuple(_) => SemanticTypeView::Tuple(args),
        SemanticTypeView::Function { is_async, parameters, effects, lifetime_summary, .. } =>
            SemanticTypeView::Function {
            is_async,
            parameters: args.take(parameters.len() as int),
            results: args.skip(parameters.len() as int),
            effects,
            lifetime_summary,
        },
        SemanticTypeView::Record(fields) => SemanticTypeView::Record(
            Seq::new(fields.len(), |k: int| (fields[k].0, args[k])),
        ),
        SemanticTypeView::TaggedUnion { definition, source, .. } => SemanticTypeView::TaggedUnion {
            definition,
            source,
            arguments: args,
        },
        SemanticTypeView::ErrorUnion { definition, source, .. } => SemanticTypeView::ErrorUnion {
            definition,
            source,
            arguments: args,
        },
        SemanticTypeView::Array(_) => SemanticTypeView::Array(args[0]),
        SemanticTypeView::Table { .. } => SemanticTypeView::Table { key: args[0], value: args[1] },
        SemanticTypeView::Class { class, .. } => SemanticTypeView::Class { class, arguments: args },
        SemanticTypeView::Interface { interface, .. } => SemanticTypeView::Interface {
            interface,
            arguments: args,
        },
        SemanticTypeView::Attribute { attribute, .. } => SemanticTypeView::Attribute {
            attribute,
            parameters: args,
        },
        SemanticTypeView::Builtin { definition, .. } => SemanticTypeView::Builtin {
            definition,
            arguments: args,
        },
        SemanticTypeView::Union(_) => SemanticTypeView::Union(args),
        SemanticTypeView::Optional(_) => SemanticTypeView::Optional(args[0]),
        other => other,
    }
}

/// Entry `i` is a tagged union over `source` with arguments `args`.
pub open spec fn tagged_candidate(
    types: Seq<SemanticTypeView>,
    i: int,
    source: SymbolId,
    args: Seq<TypeId>,
) -> bool {
    0 <= i < types.len() && (types[i] matches SemanticTypeView::TaggedUnion {
        source: s,
        arguments: a,
        ..
    } && s == source && a == args)
}

/// The definition of a tagged union entry.
pub open spec fn tagged_definition(t: SemanticTypeView) -> u32 {
    match t {
        SemanticTypeView::TaggedUnion { definition, .. } => definition.0,
        _ => 0,
    }
}

/// The tagged union over `source` with arguments `args` whose definition
/// orders first, if there is one.
pub open spec fn tagged_union_instance(
    types: Seq<SemanticTypeView>,
    source: SymbolId,
    args: Seq<TypeId>,
) -> Option<TypeId> {
    if exists|i: int| tagged_candidate(types, i, source, args) {
        Some(
            TypeId(
                (choose|i: int|
                    tagged_candidate(types, i, source, args) && forall|j: int|
                        #[trigger] tagged_candidate(types, j, source, args) ==> tagged_definition(types[i])
                            <= tagged_definition(types[j])) as u32,
            ),
        )
    } else {
        None
    }
}

/// Entry `i` is an error union over `source` with arguments `args`.
pub open spec fn error_candidate(
    types: Seq<SemanticTypeView>,
    i: int,
    source: SymbolId,
    args: Seq<TypeId>,
) -> bool {
    0 <= i < types.len() && (types[i] matches SemanticTypeView::ErrorUnion {
        source: s,
        arguments: a,
        ..
    } && s == source && a == args)
}

/// The definition of an error union entry.
pub open spec fn error_definition(t: SemanticTypeView) -> u32 {
    match t {
        SemanticTypeView::ErrorUnion { definition, .. } => definition.0,
        _ => 0,
    }
}

/// The error union over `source` with arguments `args` whose definition
/// orders first, if there is one.
pub open spec fn error_union_instance(
    types: Seq<SemanticTypeView>,
    source: SymbolId,
    args: Seq<TypeId>,
) -> Option<TypeId> {
    if exists|i: int| error_candidate(types, i, source, args) {
        Some(
            TypeId(
                (choose|i: int|
                    error_candidate(types, i, source, args) && forall|j: int|
                        #[trigger] error_candidate(types, j, source, args) ==> error_definition(types[i])
                            <= error_definition(types[j])) as u32,
            ),
        )
    } else {
        None
    }
}

/// The existing type that entry `t` (identity `id`) becomes once the types
/// it refers to are replaced by `args`: a generic tagged or error union
/// resolves to an interned instance of the same family, a class to a
/// recorded specialization, anything else to the interned rebuilt type.
pub open spec fn instance_of(
    types: Seq<SemanticTypeView>,
    t: SemanticTypeView,
    id: TypeId,
    args: Seq<TypeId>,
    c: Seq<(ClassId, Seq<TypeId>, TypeId)>,
) -> Option<TypeId> {
    match t {
        SemanticTypeView::TaggedUnion { source, .. } => tagged_union_instance(types, source, args),
        SemanticTypeView::ErrorUnion { source, .. } => match type_lookup(types, rebuilt(t, args)) {
            Some(x) => Some(x),
            None => error_union_instance(types, source, args),
        },
        SemanticTypeView::Class { class, .. } => match class_lookup(c, class, args) {
            Some(x) => Some(x),
            None => {
                let template = first_class_of_instance(c, id);
                if template is Some && class_lookup(c, template->0, args) is Some {
                    class_lookup(c, template->0, args)
                } else {
                    type_lookup(types, rebuilt(t, args))
                }
            },
        },
        _ => type_lookup(types, rebuilt(t, args)),
    }
}

/// The existing type that type `id` becomes when every type parameter `p`
/// in it is replaced by `s[p]`; `None` where a parameter has no
/// substitute or the result is not interned.
pub open spec fn substituted(
    types: Seq<SemanticTypeView>,
    id: int,
    s: Map<ParameterId, TypeId>,
    c: Seq<(ClassId, Seq<TypeId>, TypeId)>,
) -> Option<TypeId>
    decreases id + 1, 0int,
{
    if 0 <= id < types.len() {
        let t = types[id];
        match t {
            SemanticTypeView::TypeParameter(p) => if s.contains_key(p) {
                Some(s[p])
            } else {
                None
            },
            SemanticTypeView::Primitive(_) | SemanticTypeView::Enum { .. }
            | SemanticTypeView::Opaque(_) | SemanticTypeView::Error => Some(TypeId(id as u32)),
            _ => match substituted_all(types, referenced_type_ids(t), id, s, c) {
                None => None,
                Some(args) => instance_of(types, t, TypeId(id as u32), args, c),
            },
        }
    } else {
        None
    }
}

/// Each identity of `ids`, all below `bound`, substituted; `None` if any fails.
pub open spec fn substituted_all(
    types: Seq<SemanticTypeView>,
    ids: Seq<TypeId>,
    bound: int,
    s: Map<ParameterId, TypeId>,
    c: Seq<(ClassId, Seq<TypeId>, TypeId)>,
) -> Option<Seq<TypeId>>
    decreases bound, ids.len() as int,
{
    if ids.len() == 0 {
        Some(Seq::empty())
    } else if ids[0].0 < bound {
        match substituted(types, ids[0].0 as int, s, c) {
            None => None,
            Some(x) => match substituted_all(types, ids.drop_first(), bound, s, c) {
                None => None,
                Some(rest) => Some(seq![x] + rest),
            },
        }
    } else {
        None
    }
}

/// A successful substitution keeps the length of the list.
pub proof fn lemma_substituted_all_len(
    types: Seq<SemanticTypeView>,
    ids: Seq<TypeId>,
    bound: int,
    s: Map<ParameterId, TypeId>,
    c: Seq<(ClassId, Seq<TypeId>, TypeId)>,
)
    ensures
        substituted_all(types, ids, bound, s, c) matches Some(a) ==> a.len() == ids.len(),
    decreases ids.len(),
{
    if ids.len() > 0 {
        lemma_substituted_all_len(types, ids.drop_first(), bound, s, c);
    }
}

/// `args` followed by `rest`, if there is a rest.
pub open spec fn prefixed(args: Seq<TypeId>, rest: Option<Seq<TypeId>>) -> Option<Seq<TypeId>> {
    match rest {
        Some(r) => Some(args + r),
        None => None,
    }
}

/// `semantic` with the types it refers to replaced, in order, by `args`.
fn rebuild(semantic: &SemanticType, args: Vec<TypeId>) -> (r: SemanticType)
    requires
        args@.len() == referenced_type_ids(semantic@).len(),
    ensures
        r@ == rebuilt(semantic@, args@),
{
    match semantic {
        SemanticType::Tuple(_) => SemanticType::Tuple(args),
        SemanticType::Function { is_async, parameters, effects, lifetime_summary, .. } => {
            let p = parameters.len();
            let mut ps: Vec<TypeId> = Vec::new();
            let mut rs: Vec<TypeId> = Vec::new();
            let mut i: usize = 0;
            while i < args.len()
                invariant
                    i <= args@.len(),
                    p <= args@.len(),
                    i <= p ==> ps@ == args@.take(i as int) && rs@.len() == 0,
                    i > p ==> ps@ == args@.take(p as int) && rs@ == args@.subrange(p as int, i as int),
                decreases args.len() - i,
            {
                if i < p {
                    ps.push(args[i]);
                } else {
                    rs.push(args[i]);
                }
                i = i + 1;
                proof {
                    if i <= p {
                        assert(ps@ =~= args@.take(i as int));
                    } else {
                        assert(ps@ =~= args@.take(p as int));
                        assert(rs@ =~= args@.subrange(p as int, i as int));
                    }
                }
            }
            proof {
                if args@.len() <= p {
                    assert(rs@ =~= args@.skip(p as int));
                } else {
                    assert(rs@ =~= args@.skip(p as int));
                }
            }
            SemanticType::Function {
                is_async: *is_async,
                parameters: ps,
                results: rs,
                effects: *effects,
                lifetime_summary: lifetime_summary.duplicate(),
            }
        },
        SemanticType::Record(fields) => {
            let mut out: Vec<(String, TypeId)> = Vec::new();
            let mut i: usize = 0;
            let ghost fv = field_views(fields@);
            while i < fields.len()
                invariant
                    i <= fields@.len(),
                    fv == field_views(fields@),
                    args@.len() == fields@.len(),
                    field_views(out@) == Seq::new(i as nat, |k: int| (fv[k].0, args@[k])),
                decreases fields.len() - i,
            {
                let name = fields[i].0.clone();
                let ghost before = out@;
                out.push((name, args[i]));
                proof {
                    assert(name@ == fv[i as int].0);
                    assert(out@ == before.push((name, args@[i as int])));
                    assert(field_views(out@) =~= field_views(before).push((name@, args@[i as int])));
                    assert(field_views(out@) =~= Seq::new((i + 1) as nat, |k: int| (fv[k].0, args@[k])));
                }
                i = i + 1;
            }
            SemanticType::Record(out)
        },
        SemanticType::TaggedUnion { definition, source, .. } => SemanticType::TaggedUnion {
            definition: *definition,
            source: *source,
            arguments: args,
        },
        SemanticType::ErrorUnion { definition, source, .. } => SemanticType::ErrorUnion {
            definition: *definition,
            source: *source,
            arguments: args,
        },
        SemanticType::Array(_) => SemanticType::Array(args[0]),
        SemanticType::Table { .. } => SemanticType::Table { key: args[0], value: args[1] },
        SemanticType::Class { class, .. } => SemanticType::Class { class: *class, arguments: args },
        SemanticType::Interface { interface, .. } => SemanticType::Interface {
            interface: *interface,
            arguments: args,
        },
        SemanticType::Attribute { attribute, .. } => SemanticType::Attribute {
            attribute: *attribute,
            parameters: args,
        },
        SemanticType::Builtin { definition, .. } => SemanticType::Builtin {
            definition: *definition,
            arguments: args,
        },
        SemanticType::Union(_) => SemanticType::Union(args),
        SemanticType::Optional(_) => SemanticType::Optional(args[0]),
        _ => semantic.duplicate(),
    }
}

impl TypeArena {
    /// The interned tagged union over `source` with these arguments whose
    /// definition orders first, if any.
    fn tagged_union_instance(&self, source: SymbolId, arguments: &[TypeId]) -> (r: Option<TypeId>)
        ensures
            r == tagged_union_instance(self.types(), source, arguments@),
    {
        proof {
            use_type_invariant(self);
        }
        let ghost tv = self.types();
        let n = self.len();
        let mut best: Option<(u32, u32)> = None;
        let mut i: usize = 0;
        proof {
            self.lemma_identity_range();
        }
        while i < n
            invariant
                i <= n,
                n == tv.len(),
                tv == self.types(),
                self.well_formed(),
                tv.len() <= 0x1_0000_0000,
                best matches Some((b, d)) ==> tagged_candidate(tv, b as int, source, arguments@)
                    && tagged_definition(tv[b as int]) == d && forall|j: int|
                    0 <= j < i && #[trigger] tagged_candidate(tv, j, source, arguments@) ==> d
                        <= tagged_definition(tv[j]),
                best is None ==> forall|j: int| 0 <= j < i ==> !#[trigger] tagged_candidate(tv, j, source, arguments@),
            decreases n - i,
        {
            proof {
                self.lemma_identity_range();
            }
            let here = TypeId(i as u32);
            if let Some(SemanticType::TaggedUnion { definition, source: s, arguments: a }) = self.get(here) {
                if *s == source && type_ids_eq(a.as_slice(), arguments) {
                    let better = match best {
                        None => true,
                        Some((_, d)) => definition.0 < d,
                    };
                    if better {
                        best = Some((i as u32, definition.0));
                    }
                }
            }
            i = i + 1;
        }
        match best {
            None => None,
            Some((b, d)) => {
                proof {
                    let c = choose|c: int|
                        tagged_candidate(tv, c, source, arguments@) && forall|j: int|
                            #[trigger] tagged_candidate(tv, j, source, arguments@) ==> tagged_definition(tv[c])
                                <= tagged_definition(tv[j]);
                    assert(tagged_definition(tv[c]) <= tagged_definition(tv[b as int]));
                    assert(tv[c] == tv[b as int]);
                    self.lemma_interned_once(c, b as int);
                }
                Some(TypeId(b))
            },
        }
    }

    /// The interned error union over `source` with these arguments whose
    /// definition orders first, if any.
    fn error_union_instance(&self, source: SymbolId, arguments: &[TypeId]) -> (r: Option<TypeId>)
        ensures
            r == error_union_instance(self.types(), source, arguments@),
    {
        proof {
            use_type_invariant(self);
        }
        let ghost tv = self.types();
        let n = self.len();
        let mut best: Option<(u32, u32)> = None;
        let mut i: usize = 0;
        proof {
            self.lemma_identity_range();
        }
        while i < n
            invariant
                i <= n,
                n == tv.len(),
                tv == self.types(),
                self.well_formed(),
                tv.len() <= 0x1_0000_0000,
                best matches Some((b, d)) ==> error_candidate(tv, b as int, source, arguments@)
                    && error_definition(tv[b as int]) == d && forall|j: int|
                    0 <= j < i && #[trigger] error_candidate(tv, j, source, arguments@) ==> d
                        <= error_definition(tv[j]),
                best is None ==> forall|j: int| 0 <= j < i ==> !#[trigger] error_candidate(tv, j, source, arguments@),
            decreases n - i,
        {
            proof {
                self.lemma_identity_range();
            }
            let here = TypeId(i as u32);
            if let Some(SemanticType::ErrorUnion { definition, source: s, arguments: a }) = self.get(here) {
                if *s == source && type_ids_eq(a.as_slice(), arguments) {
                    let better = match best {
                        None => true,
                        Some((_, d)) => definition.0 < d,
                    };
                    if better {
                        best = Some((i as u32, definition.0));
                    }
                }
            }
            i = i + 1;
        }
        match best {
            None => None,
            Some((b, d)) => {
                proof {
                    let c = choose|c: int|
                        error_candidate(tv, c, source, arguments@) && forall|j: int|
                            #[trigger] error_candidate(tv, j, source, arguments@) ==> error_definition(tv[c])
                                <= error_definition(tv[j]);
                    assert(error_definition(tv[c]) <= error_definition(tv[b as int]));
                    assert(tv[c] == tv[b as int]);
                    self.lemma_interned_once(c, b as int);
                }
                Some(TypeId(b))
            },
        }
    }

    /// The existing type that `type_id` becomes when each type parameter is
    /// replaced by its substitute, with `class_types` giving the concrete
    /// types of class specializations. Nothing is interned: `None` where a
    /// parameter has no substitute or the result does not exist yet.
    pub fn substitute_existing_with_classes(
        &self,
        type_id: TypeId,
        substitutions: &TypeSubstitutions,
        class_types: &ClassSpecializations,
    ) -> (r: Option<TypeId>)
        ensures
            r == substituted(self.types(), type_id.0 as int, substitutions@, class_types@),
        decreases type_id.0,
    {
        proof {
            use_type_invariant(self);
        }
        let semantic = match self.get(type_id) {
            Some(s) => s,
            None => return None,
        };
        match semantic {
            SemanticType::TypeParameter(p) => return substitutions.get(*p),
            SemanticType::Primitive(_) | SemanticType::Enum { .. } | SemanticType::Opaque(_)
            | SemanticType::Error => return Some(type_id),
            _ => {},
        }
        let ghost tv = self.types();
        let ghost bound = type_id.0 as int;
        let ids = referenced_types(semantic);
        let mut args: Vec<TypeId> = Vec::new();
        let mut i: usize = 0;
        assert(ids@.skip(0) =~= ids@);
        assert(args@ + ids@ =~= ids@);
        while i < ids.len()
            invariant
                i <= ids@.len(),
                tv == self.types(),
                self.well_formed(),
                0 <= bound < tv.len(),
                bound == type_id.0,
                ids@ == referenced_type_ids(tv[bound]),
                substituted_all(tv, ids@, bound, substitutions@, class_types@) == prefixed(
                    args@,
                    substituted_all(tv, ids@.skip(i as int), bound, substitutions@, class_types@),
                ),
            decreases ids.len() - i,
        {
            proof {
                self.lemma_refers_to_earlier(bound, i as int);
            }
            let next = self.substitute_existing_with_classes(ids[i], substitutions, class_types);
            let ghost sk = ids@.skip(i as int);
            proof {
                assert(sk[0] == ids@[i as int]);
                assert(sk.drop_first() =~= ids@.skip(i + 1));
            }
            match next {
                None => {
                    return None;
                },
                Some(x) => {
                    let ghost before = args@;
                    args.push(x);
                    proof {
                        let tail = substituted_all(tv, ids@.skip(i + 1), bound, substitutions@, class_types@);
                        if let Some(rest) = tail {
                            assert(before + (seq![x] + rest) =~= args@ + rest);
                        }
                    }
                },
            }
            i = i + 1;
        }
        proof {
            assert(ids@.skip(i as int) =~= Seq::<TypeId>::empty());
            assert(args@ + Seq::<TypeId>::empty() =~= args@);
            lemma_substituted_all_len(tv, ids@, bound, substitutions@, class_types@);
        }
        match semantic {
            SemanticType::TaggedUnion { source, .. } => self.tagged_union_instance(*source, args.as_slice()),
            SemanticType::ErrorUnion { source, .. } => {
                let copied = copy_type_ids(args.as_slice());
                let candidate = rebuild(semantic, copied);
                match self.find(&candidate) {
                    Some(x) => Some(x),
                    None => self.error_union_instance(*source, args.as_slice()),
                }
            },
            SemanticType::Class { class, .. } => {
                if let Some(concrete) = class_types.get(*class, args.as_slice()) {
                    return Some(concrete);
                }
                if let Some(template) = class_types.first_class_of_instance(type_id) {
                    if let Some(concrete) = class_types.get(template, args.as_slice()) {
                        return Some(concrete);
                    }
                }
                self.find(&rebuild(semantic, args))
            },
            _ => self.find(&rebuild(semantic, args)),
        }
    }
}

} // verus!
