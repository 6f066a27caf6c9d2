//! The semantic type model: one closed description per interned type.
use vstd::prelude::*;

use crate::effects::EffectSummary;
use crate::ids::{
    AttributeId, BuiltinTypeId, ClassId, ErrorId, InterfaceId, OpaqueId, ParameterId, SymbolId,
    TypeId,
};
use crate::kinds::PrimitiveType;
use crate::lifetime::{CallableLifetimeSummary, ParameterRetention, ResultProvenance};

verus! {

/// One semantic type. Nested types are referenced by arena identity.
#[derive(Debug)]
pub enum SemanticType {
    Primitive(PrimitiveType),
    Tuple(Vec<TypeId>),
    Function {
        is_async: bool,
        parameters: Vec<TypeId>,
        results: Vec<TypeId>,
        effects: EffectSummary,
        lifetime_summary: CallableLifetimeSummary,
    },
    Record(Vec<(String, TypeId)>),
    TaggedUnion { definition: SymbolId, source: SymbolId, arguments: Vec<TypeId> },
    ErrorUnion { definition: ErrorId, source: SymbolId, arguments: Vec<TypeId> },
    Enum { definition: SymbolId },
    Array(TypeId),
    Table { key: TypeId, value: TypeId },
    Class { class: ClassId, arguments: Vec<TypeId> },
    Interface { interface: InterfaceId, arguments: Vec<TypeId> },
    /// A nominal compile-time-only user-defined attribute value.
    Attribute { attribute: AttributeId, parameters: Vec<TypeId> },
    Builtin { definition: BuiltinTypeId, arguments: Vec<TypeId> },
    Union(Vec<TypeId>),
    Optional(TypeId),
    TypeParameter(ParameterId),
    Opaque(OpaqueId),
    Error,
}

/// The abstract content of a semantic type.
pub enum SemanticTypeView {
    Primitive(PrimitiveType),
    Tuple(Seq<TypeId>),
    Function {
        is_async: bool,
        parameters: Seq<TypeId>,
        results: Seq<TypeId>,
        effects: EffectSummary,
        lifetime_summary: (u16, Seq<ParameterRetention>, Seq<ResultProvenance>),
    },
    Record(Seq<(Seq<char>, TypeId)>),
    TaggedUnion { definition: SymbolId, source: SymbolId, arguments: Seq<TypeId> },
    ErrorUnion { definition: ErrorId, source: SymbolId, arguments: Seq<TypeId> },
    Enum { definition: SymbolId },
    Array(TypeId),
    Table { key: TypeId, value: TypeId },
    Class { class: ClassId, arguments: Seq<TypeId> },
    Interface { interface: InterfaceId, arguments: Seq<TypeId> },
    Attribute { attribute: AttributeId, parameters: Seq<TypeId> },
    Builtin { definition: BuiltinTypeId, arguments: Seq<TypeId> },
    Union(Seq<TypeId>),
    Optional(TypeId),
    TypeParameter(ParameterId),
    Opaque(OpaqueId),
    Error,
}

/// The character contents of record fields.
pub open spec fn field_views(fields: Seq<(String, TypeId)>) -> Seq<(Seq<char>, TypeId)> {
    fields.map_values(|f: (String, TypeId)| (f.0@, f.1))
}

impl View for SemanticType {
    type V = SemanticTypeView;

    open spec fn view(&self) -> SemanticTypeView {
        match self {
            SemanticType::Primitive(p) => SemanticTypeView::Primitive(*p),
            SemanticType::Tuple(v) => SemanticTypeView::Tuple(v@),
            SemanticType::Function { is_async, parameters, results, effects, lifetime_summary } =>
                SemanticTypeView::Function {
                is_async: *is_async,
                parameters: parameters@,
                results: results@,
                effects: *effects,
                lifetime_summary: lifetime_summary@,
            },
            SemanticType::Record(fields) => SemanticTypeView::Record(field_views(fields@)),
            SemanticType::TaggedUnion { definition, source, arguments } =>
                SemanticTypeView::TaggedUnion {
                definition: *definition,
                source: *source,
                arguments: arguments@,
            },
            SemanticType::ErrorUnion { definition, source, arguments } =>
                SemanticTypeView::ErrorUnion {
                definition: *definition,
                source: *source,
                arguments: arguments@,
            },
            SemanticType::Enum { definition } => SemanticTypeView::Enum { definition: *definition },
            SemanticType::Array(e) => SemanticTypeView::Array(*e),
            SemanticType::Table { key, value } => SemanticTypeView::Table { key: *key, value: *value },
            SemanticType::Class { class, arguments } => SemanticTypeView::Class {
                class: *class,
                arguments: arguments@,
            },
            SemanticType::Interface { interface, arguments } => SemanticTypeView::Interface {
                interface: *interface,
                arguments: arguments@,
            },
            SemanticType::Attribute { attribute, parameters } => SemanticTypeView::Attribute {
                attribute: *attribute,
                parameters: parameters@,
            },
            SemanticType::Builtin { definition, arguments } => SemanticTypeView::Builtin {
                definition: *definition,
                arguments: arguments@,
            },
            SemanticType::Union(v) => SemanticTypeView::Union(v@),
            SemanticType::Optional(e) => SemanticTypeView::Optional(*e),
            SemanticType::TypeParameter(p) => SemanticTypeView::TypeParameter(*p),
            SemanticType::Opaque(o) => SemanticTypeView::Opaque(*o),
            SemanticType::Error => SemanticTypeView::Error,
        }
    }
}

/// The types a semantic type refers to, in order.
pub open spec fn referenced_type_ids(t: SemanticTypeView) -> Seq<TypeId> {
    match t {
        SemanticTypeView::Primitive(_) | SemanticTypeView::Enum { .. }
        | SemanticTypeView::TypeParameter(_) | SemanticTypeView::Opaque(_)
        | SemanticTypeView::Error => Seq::empty(),
        SemanticTypeView::TaggedUnion { arguments, .. } => arguments,
        SemanticTypeView::ErrorUnion { arguments, .. } => arguments,
        SemanticTypeView::Tuple(elements) => elements,
        SemanticTypeView::Union(elements) => elements,
        SemanticTypeView::Attribute { parameters, .. } => parameters,
        SemanticTypeView::Function { parameters, results, .. } => parameters + results,
        SemanticTypeView::Record(fields) => fields.map_values(|f: (Seq<char>, TypeId)| f.1),
        SemanticTypeView::Array(e) => seq![e],
        SemanticTypeView::Optional(e) => seq![e],
        SemanticTypeView::Table { key, value } => seq![key, value],
        SemanticTypeView::Class { arguments, .. } => arguments,
        SemanticTypeView::Interface { arguments, .. } => arguments,
        SemanticTypeView::Builtin { arguments, .. } => arguments,
    }
}

/// Whether two identity lists are equal.
pub fn type_ids_eq(a: &[TypeId], b: &[TypeId]) -> (r: bool)
    ensures
        r == (a@ == b@),
{
    if a.len() != b.len() {
        return false;
    }
    let mut i: usize = 0;
    while i < a.len()
        invariant
            a@.len() == b@.len(),
            i <= a@.len(),
            forall|k: int| 0 <= k < i ==> a@[k] == b@[k],
        decreases a.len() - i,
    {
        if a[i] != b[i] {
            return false;
        }
        i = i + 1;
    }
    assert(a@ =~= b@);
    true
}

/// A copy of an identity list.
pub fn copy_type_ids(a: &[TypeId]) -> (r: Vec<TypeId>)
    ensures
        r@ == a@,
{
    let mut out: Vec<TypeId> = Vec::new();
    let mut i: usize = 0;
    while i < a.len()
        invariant
            i <= a@.len(),
            out@ == a@.take(i as int),
        decreases a.len() - i,
    {
        out.push(a[i]);
        i = i + 1;
        assert(out@ =~= a@.take(i as int));
    }
    assert(a@.take(i as int) =~= a@);
    out
}

fn fields_eq(a: &Vec<(String, TypeId)>, b: &Vec<(String, TypeId)>) -> (r: bool)
    ensures
        r == (field_views(a@) == field_views(b@)),
{
    if a.len() != b.len() {
        assert(field_views(a@).len() != field_views(b@).len());
        return false;
    }
    let mut i: usize = 0;
    while i < a.len()
        invariant
            a@.len() == b@.len(),
            i <= a@.len(),
            forall|k: int| 0 <= k < i ==> field_views(a@)[k] == field_views(b@)[k],
        decreases a.len() - i,
    {
        if !(crate::text::str_eq(a[i].0.as_str(), b[i].0.as_str()) && a[i].1 == b[i].1) {
            assert(field_views(a@)[i as int] != field_views(b@)[i as int]);
            return false;
        }
        i = i + 1;
    }
    assert(field_views(a@) =~= field_views(b@));
    true
}

/// A copy of record fields.
pub fn copy_fields(a: &Vec<(String, TypeId)>) -> (r: Vec<(String, TypeId)>)
    ensures
        field_views(r@) == field_views(a@),
{
    let mut out: Vec<(String, TypeId)> = Vec::new();
    let mut i: usize = 0;
    while i < a.len()
        invariant
            i <= a@.len(),
            field_views(out@) == field_views(a@.take(i as int)),
        decreases a.len() - i,
    {
        let name = a[i].0.clone();
        let ghost before = out@;
        out.push((name, a[i].1));
        proof {
            assert(out@ == before.push((name, a@[i as int].1)));
            assert(a@.take(i + 1) =~= a@.take(i as int).push(a@[i as int]));
            assert(field_views(out@) =~= field_views(before).push((name@, a@[i as int].1)));
            assert(field_views(a@.take(i + 1)) =~= field_views(a@.take(i as int)).push(
                (a@[i as int].0@, a@[i as int].1),
            ));
        }
        i = i + 1;
    }
    assert(a@.take(i as int) =~= a@);
    out
}

impl Clone for SemanticType {
    fn clone(&self) -> (r: Self)
        ensures
            r@ == self@,
    {
        match self {
            SemanticType::Primitive(p) => SemanticType::Primitive(*p),
            SemanticType::Tuple(v) => SemanticType::Tuple(copy_type_ids(v.as_slice())),
            SemanticType::Function { is_async, parameters, results, effects, lifetime_summary } =>
                SemanticType::Function {
                is_async: *is_async,
                parameters: copy_type_ids(parameters.as_slice()),
                results: copy_type_ids(results.as_slice()),
                effects: *effects,
                lifetime_summary: lifetime_summary.clone(),
            },
            SemanticType::Record(fields) => SemanticType::Record(copy_fields(fields)),
            SemanticType::TaggedUnion { definition, source, arguments } => SemanticType::TaggedUnion {
                definition: *definition,
                source: *source,
                arguments: copy_type_ids(arguments.as_slice()),
            },
            SemanticType::ErrorUnion { definition, source, arguments } => SemanticType::ErrorUnion {
                definition: *definition,
                source: *source,
                arguments: copy_type_ids(arguments.as_slice()),
            },
            SemanticType::Enum { definition } => SemanticType::Enum { definition: *definition },
            SemanticType::Array(e) => SemanticType::Array(*e),
            SemanticType::Table { key, value } => SemanticType::Table { key: *key, value: *value },
            SemanticType::Class { class, arguments } => SemanticType::Class {
                class: *class,
                arguments: copy_type_ids(arguments.as_slice()),
            },
            SemanticType::Interface { interface, arguments } => SemanticType::Interface {
                interface: *interface,
                arguments: copy_type_ids(arguments.as_slice()),
            },
            SemanticType::Attribute { attribute, parameters } => SemanticType::Attribute {
                attribute: *attribute,
                parameters: copy_type_ids(parameters.as_slice()),
            },
            SemanticType::Builtin { definition, arguments } => SemanticType::Builtin {
                definition: *definition,
                arguments: copy_type_ids(arguments.as_slice()),
            },
            SemanticType::Union(v) => SemanticType::Union(copy_type_ids(v.as_slice())),
            SemanticType::Optional(e) => SemanticType::Optional(*e),
            SemanticType::TypeParameter(p) => SemanticType::TypeParameter(*p),
            SemanticType::Opaque(o) => SemanticType::Opaque(*o),
            SemanticType::Error => SemanticType::Error,
        }
    }
}

impl SemanticType {
    /// Whether two semantic types describe the same type.
    pub fn same_as(&self, other: &Self) -> (r: bool)
        ensures
            r == (self@ == other@),
    {
        match (self, other) {
            (SemanticType::Primitive(a), SemanticType::Primitive(b)) => *a == *b,
            (SemanticType::Tuple(a), SemanticType::Tuple(b)) => type_ids_eq(a.as_slice(), b.as_slice()),
            (
                SemanticType::Function {
                    is_async: a1,
                    parameters: p1,
                    results: r1,
                    effects: e1,
                    lifetime_summary: l1,
                },
                SemanticType::Function {
                    is_async: a2,
                    parameters: p2,
                    results: r2,
                    effects: e2,
                    lifetime_summary: l2,
                },
            ) => {
                let same_effects = e1.bits() == e2.bits();
                proof {
                    if same_effects {
                        e1.lemma_mask_determines(*e2);
                    }
                }
                *a1 == *a2 && type_ids_eq(p1.as_slice(), p2.as_slice()) && type_ids_eq(
                    r1.as_slice(),
                    r2.as_slice(),
                ) && same_effects && l1.same_facts(l2)
            },
            (SemanticType::Record(a), SemanticType::Record(b)) => fields_eq(a, b),
            (
                SemanticType::TaggedUnion { definition: d1, source: s1, arguments: a1 },
                SemanticType::TaggedUnion { definition: d2, source: s2, arguments: a2 },
            ) => *d1 == *d2 && *s1 == *s2 && type_ids_eq(a1.as_slice(), a2.as_slice()),
            (
                SemanticType::ErrorUnion { definition: d1, source: s1, arguments: a1 },
                SemanticType::ErrorUnion { definition: d2, source: s2, arguments: a2 },
            ) => *d1 == *d2 && *s1 == *s2 && type_ids_eq(a1.as_slice(), a2.as_slice()),
            (SemanticType::Enum { definition: a }, SemanticType::Enum { definition: b }) => *a == *b,
            (SemanticType::Array(a), SemanticType::Array(b)) => *a == *b,
            (SemanticType::Table { key: k1, value: v1 }, SemanticType::Table { key: k2, value: v2 }) =>
                *k1 == *k2 && *v1 == *v2,
            (
                SemanticType::Class { class: c1, arguments: a1 },
                SemanticType::Class { class: c2, arguments: a2 },
            ) => *c1 == *c2 && type_ids_eq(a1.as_slice(), a2.as_slice()),
            (
                SemanticType::Interface { interface: c1, arguments: a1 },
                SemanticType::Interface { interface: c2, arguments: a2 },
            ) => *c1 == *c2 && type_ids_eq(a1.as_slice(), a2.as_slice()),
            (
                SemanticType::Attribute { attribute: c1, parameters: a1 },
                SemanticType::Attribute { attribute: c2, parameters: a2 },
            ) => *c1 == *c2 && type_ids_eq(a1.as_slice(), a2.as_slice()),
            (
                SemanticType::Builtin { definition: c1, arguments: a1 },
                SemanticType::Builtin { definition: c2, arguments: a2 },
            ) => *c1 == *c2 && type_ids_eq(a1.as_slice(), a2.as_slice()),
            (SemanticType::Union(a), SemanticType::Union(b)) => type_ids_eq(a.as_slice(), b.as_slice()),
            (SemanticType::Optional(a), SemanticType::Optional(b)) => *a == *b,
            (SemanticType::TypeParameter(a), SemanticType::TypeParameter(b)) => *a == *b,
            (SemanticType::Opaque(a), SemanticType::Opaque(b)) => *a == *b,
            (SemanticType::Error, SemanticType::Error) => true,
            _ => false,
        }
    }

    /// A copy describing the same type.
    pub fn duplicate(&self) -> (r: Self)
        ensures
            r@ == self@,
    {
        match self {
            SemanticType::Primitive(p) => SemanticType::Primitive(*p),
            SemanticType::Tuple(v) => SemanticType::Tuple(copy_type_ids(v.as_slice())),
            SemanticType::Function { is_async, parameters, results, effects, lifetime_summary } =>
                SemanticType::Function {
                is_async: *is_async,
                parameters: copy_type_ids(parameters.as_slice()),
                results: copy_type_ids(results.as_slice()),
                effects: *effects,
                lifetime_summary: lifetime_summary.duplicate(),
            },
            SemanticType::Record(fields) => SemanticType::Record(copy_fields(fields)),
            SemanticType::TaggedUnion { definition, source, arguments } => SemanticType::TaggedUnion {
                definition: *definition,
                source: *source,
                arguments: copy_type_ids(arguments.as_slice()),
            },
            SemanticType::ErrorUnion { definition, source, arguments } => SemanticType::ErrorUnion {
                definition: *definition,
                source: *source,
                arguments: copy_type_ids(arguments.as_slice()),
            },
            SemanticType::Enum { definition } => SemanticType::Enum { definition: *definition },
            SemanticType::Array(e) => SemanticType::Array(*e),
            SemanticType::Table { key, value } => SemanticType::Table { key: *key, value: *value },
            SemanticType::Class { class, arguments } => SemanticType::Class {
                class: *class,
                arguments: copy_type_ids(arguments.as_slice()),
            },
            SemanticType::Interface { interface, arguments } => SemanticType::Interface {
                interface: *interface,
                arguments: copy_type_ids(arguments.as_slice()),
            },
            SemanticType::Attribute { attribute, parameters } => SemanticType::Attribute {
                attribute: *attribute,
                parameters: copy_type_ids(parameters.as_slice()),
            },
            SemanticType::Builtin { definition, arguments } => SemanticType::Builtin {
                definition: *definition,
                arguments: copy_type_ids(arguments.as_slice()),
            },
            SemanticType::Union(v) => SemanticType::Union(copy_type_ids(v.as_slice())),
            SemanticType::Optional(e) => SemanticType::Optional(*e),
            SemanticType::TypeParameter(p) => SemanticType::TypeParameter(*p),
            SemanticType::Opaque(o) => SemanticType::Opaque(*o),
            SemanticType::Error => SemanticType::Error,
        }
    }

    /// Attribute values and the error type are not valid in lowered code.
    pub fn is_valid_hir_type(&self) -> (r: bool)
        ensures
            r == !(self@ is Attribute || self@ is Error),
    {
        match self {
            SemanticType::Attribute { .. } | SemanticType::Error => false,
            _ => true,
        }
    }

    /// Only the error type is invalid at compile time.
    pub fn is_valid_compile_time_type(&self) -> (r: bool)
        ensures
            r == !(self@ is Error),
    {
        match self {
            SemanticType::Error => false,
            _ => true,
        }
    }
}

/// The identities a semantic type refers to, in order.
pub fn referenced_types(semantic: &SemanticType) -> (r: Vec<TypeId>)
    ensures
        r@ == referenced_type_ids(semantic@),
{
    match semantic {
        SemanticType::Primitive(_) | SemanticType::Enum { .. } | SemanticType::TypeParameter(_)
        | SemanticType::Opaque(_) | SemanticType::Error => Vec::new(),
        SemanticType::TaggedUnion { arguments, .. } => copy_type_ids(arguments.as_slice()),
        SemanticType::ErrorUnion { arguments, .. } => copy_type_ids(arguments.as_slice()),
        SemanticType::Tuple(elements) => copy_type_ids(elements.as_slice()),
        SemanticType::Union(elements) => copy_type_ids(elements.as_slice()),
        SemanticType::Attribute { parameters, .. } => copy_type_ids(parameters.as_slice()),
        SemanticType::Function { parameters, results, .. } => {
            let mut out = copy_type_ids(parameters.as_slice());
            let mut i: usize = 0;
            while i < results.len()
                invariant
                    i <= results@.len(),
                    out@ == parameters@ + results@.take(i as int),
                decreases results.len() - i,
            {
                out.push(results[i]);
                i = i + 1;
                assert(out@ =~= parameters@ + results@.take(i as int));
            }
            assert(results@.take(i as int) =~= results@);
            out
        },
        SemanticType::Record(fields) => {
            let mut out: Vec<TypeId> = Vec::new();
            let mut i: usize = 0;
            while i < fields.len()
                invariant
                    i <= fields@.len(),
                    out@ == field_views(fields@).take(i as int).map_values(
                        |f: (Seq<char>, TypeId)| f.1,
                    ),
                decreases fields.len() - i,
            {
                out.push(fields[i].1);
                i = i + 1;
                assert(out@ =~= field_views(fields@).take(i as int).map_values(
                    |f: (Seq<char>, TypeId)| f.1,
                ));
            }
            assert(field_views(fields@).take(i as int) =~= field_views(fields@));
            out
        },
        SemanticType::Array(e) => {
            let mut out: Vec<TypeId> = Vec::new();
            out.push(*e);
            out
        },
        SemanticType::Optional(e) => {
            let mut out: Vec<TypeId> = Vec::new();
            out.push(*e);
            out
        },
        SemanticType::Table { key, value } => {
            let mut out: Vec<TypeId> = Vec::new();
            out.push(*key);
            out.push(*value);
            out
        },
        SemanticType::Class { arguments, .. } => copy_type_ids(arguments.as_slice()),
        SemanticType::Interface { arguments, .. } => copy_type_ids(arguments.as_slice()),
        SemanticType::Builtin { arguments, .. } => copy_type_ids(arguments.as_slice()),
    }
}

} // verus!
