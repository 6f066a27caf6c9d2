//! Closed structural type identities and their stable text descriptors.
//!
//! Unlike a [`crate::TypeId`], every component of a canonical identity is
//! stable across independent compilation, so its descriptor can name a
//! nominal type at run time across Bubbles.
use vstd::prelude::*;
use vstd::string::*;

use crate::effects::EffectSummary;
use crate::ids::{BuiltinTypeId, SymbolIdentity};
use crate::kinds::{IntegerKind, PrimitiveType};
use crate::lifetime::{CallableLifetimeSummary, ParameterRetention, ResultProvenance};

verus! {

/// Closed structural identity used by runtime nominal descriptors across Bubbles.
#[derive(Debug, PartialEq, Eq, Hash, PartialOrd, Ord)]
pub enum CanonicalTypeIdentity {
    Primitive(PrimitiveType),
    Record(SymbolIdentity),
    Class(CanonicalNominalIdentity),
    Interface(CanonicalNominalIdentity),
    Tuple(Vec<CanonicalTypeIdentity>),
    Function {
        is_async: bool,
        parameters: Vec<CanonicalTypeIdentity>,
        results: Vec<CanonicalTypeIdentity>,
        effects: EffectSummary,
        lifetime_summary: CallableLifetimeSummary,
    },
    Array(Box<CanonicalTypeIdentity>),
    Table { key: Box<CanonicalTypeIdentity>, value: Box<CanonicalTypeIdentity> },
    Optional(Box<CanonicalTypeIdentity>),
    Builtin { definition: BuiltinTypeId, arguments: Vec<CanonicalTypeIdentity> },
    Union(Vec<CanonicalTypeIdentity>),
}

/// Exact stable nominal definition plus its fully applied canonical arguments.
#[derive(Debug, PartialEq, Eq, Hash, PartialOrd, Ord)]
pub struct CanonicalNominalIdentity {
    pub definition: SymbolIdentity,
    pub arguments: Vec<CanonicalTypeIdentity>,
}

/// The text of one decimal digit.
pub open spec fn digit_text(d: nat) -> Seq<char> {
    if d == 0 {
        "0"@
    } else if d == 1 {
        "1"@
    } else if d == 2 {
        "2"@
    } else if d == 3 {
        "3"@
    } else if d == 4 {
        "4"@
    } else if d == 5 {
        "5"@
    } else if d == 6 {
        "6"@
    } else if d == 7 {
        "7"@
    } else if d == 8 {
        "8"@
    } else {
        "9"@
    }
}

/// The shortest decimal spelling of `n`.
pub open spec fn decimal_text(n: nat) -> Seq<char>
    decreases n,
{
    if n < 10 {
        digit_text(n)
    } else {
        decimal_text(n / 10) + digit_text(n % 10)
    }
}

fn digit_str(d: u64) -> (r: &'static str)
    requires
        d < 10,
    ensures
        r@ == digit_text(d as nat),
{
    if d == 0 {
        "0"
    } else if d == 1 {
        "1"
    } else if d == 2 {
        "2"
    } else if d == 3 {
        "3"
    } else if d == 4 {
        "4"
    } else if d == 5 {
        "5"
    } else if d == 6 {
        "6"
    } else if d == 7 {
        "7"
    } else if d == 8 {
        "8"
    } else {
        "9"
    }
}

/// Appends the decimal spelling of `n`.
pub(crate) fn push_decimal(out: &mut String, n: u64)
    ensures
        final(out)@ == old(out)@ + decimal_text(n as nat),
    decreases n,
{
    if n >= 10 {
        push_decimal(out, n / 10);
    }
    out.append(digit_str(n % 10));
    proof {
        assert(final(out)@ =~= old(out)@ + decimal_text(n as nat));
    }
}

/// The `Debug` spelling of an integer kind.
pub open spec fn integer_kind_text(kind: IntegerKind) -> Seq<char> {
    match kind {
        IntegerKind::Int8 => "Int8"@,
        IntegerKind::Int16 => "Int16"@,
        IntegerKind::Int32 => "Int32"@,
        IntegerKind::Int64 => "Int64"@,
        IntegerKind::UInt8 => "UInt8"@,
        IntegerKind::UInt16 => "UInt16"@,
        IntegerKind::UInt32 => "UInt32"@,
        IntegerKind::UInt64 => "UInt64"@,
    }
}

/// The `Debug` spelling of a primitive type.
pub open spec fn primitive_text(primitive: PrimitiveType) -> Seq<char> {
    match primitive {
        PrimitiveType::Nil => "Nil"@,
        PrimitiveType::Boolean => "Boolean"@,
        PrimitiveType::Integer(kind) => "Integer("@ + integer_kind_text(kind) + ")"@,
        PrimitiveType::Float32 => "Float32"@,
        PrimitiveType::Float64 => "Float64"@,
        PrimitiveType::String => "String"@,
        PrimitiveType::Never => "Never"@,
    }
}

/// `b<bubble>:s<symbol>`, the spelling of a stable declaration identity.
pub open spec fn identity_text(identity: SymbolIdentity) -> Seq<char> {
    "b"@ + decimal_text(identity.bubble.0 as nat) + ":s"@ + decimal_text(identity.symbol.0 as nat)
}

/// The code of one parameter retention fact.
pub open spec fn retention_text(retention: ParameterRetention) -> Seq<char> {
    match retention {
        ParameterRetention::DoesNotRetain => "D"@,
        ParameterRetention::MayRetain => "M"@,
        ParameterRetention::StoresInto(target) => "S"@ + decimal_text(target as nat),
        ParameterRetention::Captures => "C"@,
        ParameterRetention::Publishes => "P"@,
    }
}

/// The code of one result provenance fact.
pub open spec fn provenance_text(provenance: ResultProvenance) -> Seq<char> {
    match provenance {
        ResultProvenance::Independent => "I"@,
        ResultProvenance::ReturnsAlias(source) => "R"@ + decimal_text(source as nat),
        ResultProvenance::MayAlias => "M"@,
    }
}

/// The retention codes separated by commas.
pub open spec fn retention_list_text(facts: Seq<ParameterRetention>) -> Seq<char>
    decreases facts.len(),
{
    if facts.len() == 0 {
        Seq::empty()
    } else if facts.len() == 1 {
        retention_text(facts[0])
    } else {
        retention_list_text(facts.drop_last()) + ","@ + retention_text(facts.last())
    }
}

/// The provenance codes separated by commas.
pub open spec fn provenance_list_text(facts: Seq<ResultProvenance>) -> Seq<char>
    decreases facts.len(),
{
    if facts.len() == 0 {
        Seq::empty()
    } else if facts.len() == 1 {
        provenance_text(facts[0])
    } else {
        provenance_list_text(facts.drop_last()) + ","@ + provenance_text(facts.last())
    }
}

/// `L<version>:[<retention>]:[<provenance>]`, the spelling of a lifetime summary.
pub open spec fn lifetime_text(summary: CallableLifetimeSummary) -> Seq<char> {
    "L"@ + decimal_text(summary@.0 as nat) + ":["@ + retention_list_text(summary@.1) + "]:["@
        + provenance_list_text(summary@.2)
}

/// The descriptor of one canonical type identity.
pub open spec fn type_descriptor(identity: CanonicalTypeIdentity) -> Seq<char>
    decreases identity,
{
    match identity {
        CanonicalTypeIdentity::Primitive(primitive) => "P("@ + primitive_text(primitive) + ")"@,
        CanonicalTypeIdentity::Record(symbol) => "R("@ + identity_text(symbol) + ")"@,
        CanonicalTypeIdentity::Class(nominal) => "C("@ + nominal_descriptor(nominal) + ")"@,
        CanonicalTypeIdentity::Interface(nominal) => "I("@ + nominal_descriptor(nominal) + ")"@,
        CanonicalTypeIdentity::Tuple(elements) => "T["@ + list_descriptor(elements@) + "]"@,
        CanonicalTypeIdentity::Function {
            is_async,
            parameters,
            results,
            effects,
            lifetime_summary,
        } => "F("@ + (if is_async {
            "1"@
        } else {
            "0"@
        }) + ";["@ + list_descriptor(parameters@) + "];["@ + list_descriptor(results@) + "];E"@
            + decimal_text(effects.mask() as nat) + ";"@ + lifetime_text(lifetime_summary) + "])"@,
        CanonicalTypeIdentity::Array(element) => "A("@ + type_descriptor(*element) + ")"@,
        CanonicalTypeIdentity::Table { key, value } => "M("@ + type_descriptor(*key) + ";"@
            + type_descriptor(*value) + ")"@,
        CanonicalTypeIdentity::Optional(element) => "O("@ + type_descriptor(*element) + ")"@,
        CanonicalTypeIdentity::Builtin { definition, arguments } => "B"@ + decimal_text(
            definition.0 as nat,
        ) + "["@ + list_descriptor(arguments@) + "]"@,
        CanonicalTypeIdentity::Union(elements) => "U["@ + list_descriptor(elements@) + "]"@,
    }
}

/// The descriptors of `identities` separated by commas.
pub open spec fn list_descriptor(identities: Seq<CanonicalTypeIdentity>) -> Seq<char>
    decreases identities,
{
    if identities.len() == 0 {
        Seq::empty()
    } else if identities.len() == 1 {
        type_descriptor(identities[0])
    } else {
        list_descriptor(identities.drop_last()) + ","@ + type_descriptor(identities.last())
    }
}

/// `b<bubble>:s<symbol>[<arguments>]`, the descriptor of a nominal identity.
pub open spec fn nominal_descriptor(nominal: CanonicalNominalIdentity) -> Seq<char>
    decreases nominal,
{
    identity_text(nominal.definition) + "["@ + list_descriptor(nominal.arguments@) + "]"@
}

fn push_integer_kind(out: &mut String, kind: IntegerKind)
    ensures
        final(out)@ == old(out)@ + integer_kind_text(kind),
{
    let text = match kind {
        IntegerKind::Int8 => "Int8",
        IntegerKind::Int16 => "Int16",
        IntegerKind::Int32 => "Int32",
        IntegerKind::Int64 => "Int64",
        IntegerKind::UInt8 => "UInt8",
        IntegerKind::UInt16 => "UInt16",
        IntegerKind::UInt32 => "UInt32",
        IntegerKind::UInt64 => "UInt64",
    };
    out.append(text);
}

fn push_primitive(out: &mut String, primitive: PrimitiveType)
    ensures
        final(out)@ == old(out)@ + primitive_text(primitive),
{
    match primitive {
        PrimitiveType::Nil => out.append("Nil"),
        PrimitiveType::Boolean => out.append("Boolean"),
        PrimitiveType::Integer(kind) => {
            out.append("Integer(");
            push_integer_kind(out, kind);
            out.append(")");
        },
        PrimitiveType::Float32 => out.append("Float32"),
        PrimitiveType::Float64 => out.append("Float64"),
        PrimitiveType::String => out.append("String"),
        PrimitiveType::Never => out.append("Never"),
    }
    proof {
        assert(final(out)@ =~= old(out)@ + primitive_text(primitive));
    }
}

fn push_identity(out: &mut String, identity: SymbolIdentity)
    ensures
        final(out)@ == old(out)@ + identity_text(identity),
{
    out.append("b");
    push_decimal(out, identity.bubble.0 as u64);
    out.append(":s");
    push_decimal(out, identity.symbol.0 as u64);
    proof {
        assert(final(out)@ =~= old(out)@ + identity_text(identity));
    }
}

fn push_retention(out: &mut String, retention: ParameterRetention)
    ensures
        final(out)@ == old(out)@ + retention_text(retention),
{
    match retention {
        ParameterRetention::DoesNotRetain => out.append("D"),
        ParameterRetention::MayRetain => out.append("M"),
        ParameterRetention::StoresInto(target) => {
            out.append("S");
            push_decimal(out, target as u64);
        },
        ParameterRetention::Captures => out.append("C"),
        ParameterRetention::Publishes => out.append("P"),
    }
    proof {
        assert(final(out)@ =~= old(out)@ + retention_text(retention));
    }
}

fn push_provenance(out: &mut String, provenance: ResultProvenance)
    ensures
        final(out)@ == old(out)@ + provenance_text(provenance),
{
    match provenance {
        ResultProvenance::Independent => out.append("I"),
        ResultProvenance::ReturnsAlias(source) => {
            out.append("R");
            push_decimal(out, source as u64);
        },
        ResultProvenance::MayAlias => out.append("M"),
    }
    proof {
        assert(final(out)@ =~= old(out)@ + provenance_text(provenance));
    }
}

fn push_retention_list(out: &mut String, facts: &[ParameterRetention])
    ensures
        final(out)@ == old(out)@ + retention_list_text(facts@),
{
    let ghost start = out@;
    let mut i: usize = 0;
    while i < facts.len()
        invariant
            i <= facts@.len(),
            out@ == start + retention_list_text(facts@.subrange(0, i as int)),
        decreases facts.len() - i,
    {
        if i != 0 {
            out.append(",");
        }
        push_retention(out, facts[i]);
        proof {
            let next = facts@.subrange(0, i + 1);
            assert(next.drop_last() =~= facts@.subrange(0, i as int));
            assert(next.last() == facts@[i as int]);
            if i == 0 {
                assert(facts@.subrange(0, 0) =~= Seq::<ParameterRetention>::empty());
                assert(out@ =~= start + retention_list_text(next));
            } else {
                assert(out@ =~= start + retention_list_text(next));
            }
        }
        i = i + 1;
    }
    proof {
        assert(facts@.subrange(0, facts@.len() as int) =~= facts@);
    }
}

fn push_provenance_list(out: &mut String, facts: &[ResultProvenance])
    ensures
        final(out)@ == old(out)@ + provenance_list_text(facts@),
{
    let ghost start = out@;
    let mut i: usize = 0;
    while i < facts.len()
        invariant
            i <= facts@.len(),
            out@ == start + provenance_list_text(facts@.subrange(0, i as int)),
        decreases facts.len() - i,
    {
        if i != 0 {
            out.append(",");
        }
        push_provenance(out, facts[i]);
        proof {
            let next = facts@.subrange(0, i + 1);
            assert(next.drop_last() =~= facts@.subrange(0, i as int));
            assert(next.last() == facts@[i as int]);
            if i == 0 {
                assert(facts@.subrange(0, 0) =~= Seq::<ResultProvenance>::empty());
            }
            assert(out@ =~= start + provenance_list_text(next));
        }
        i = i + 1;
    }
    proof {
        assert(facts@.subrange(0, facts@.len() as int) =~= facts@);
    }
}

fn push_lifetime(out: &mut String, summary: &CallableLifetimeSummary)
    ensures
        final(out)@ == old(out)@ + lifetime_text(*summary),
{
    out.append("L");
    push_decimal(out, summary.proof_version() as u64);
    out.append(":[");
    push_retention_list(out, summary.parameter_retention());
    out.append("]:[");
    push_provenance_list(out, summary.result_provenance());
    proof {
        assert(final(out)@ =~= old(out)@ + lifetime_text(*summary));
    }
}

fn push_type(out: &mut String, identity: &CanonicalTypeIdentity)
    ensures
        final(out)@ == old(out)@ + type_descriptor(*identity),
    decreases identity,
{
    match identity {
        CanonicalTypeIdentity::Primitive(primitive) => {
            out.append("P(");
            push_primitive(out, *primitive);
            out.append(")");
        },
        CanonicalTypeIdentity::Record(symbol) => {
            out.append("R(");
            push_identity(out, *symbol);
            out.append(")");
        },
        CanonicalTypeIdentity::Class(nominal) => {
            out.append("C(");
            push_nominal(out, nominal);
            out.append(")");
        },
        CanonicalTypeIdentity::Interface(nominal) => {
            out.append("I(");
            push_nominal(out, nominal);
            out.append(")");
        },
        CanonicalTypeIdentity::Tuple(elements) => {
            out.append("T[");
            push_list(out, elements);
            out.append("]");
        },
        CanonicalTypeIdentity::Function {
            is_async,
            parameters,
            results,
            effects,
            lifetime_summary,
        } => {
            out.append("F(");
            if *is_async {
                out.append("1");
            } else {
                out.append("0");
            }
            out.append(";[");
            push_list(out, parameters);
            out.append("];[");
            push_list(out, results);
            out.append("];E");
            push_decimal(out, effects.bits() as u64);
            out.append(";");
            push_lifetime(out, lifetime_summary);
            out.append("])");
        },
        CanonicalTypeIdentity::Array(element) => {
            out.append("A(");
            push_type(out, element);
            out.append(")");
        },
        CanonicalTypeIdentity::Table { key, value } => {
            out.append("M(");
            push_type(out, key);
            out.append(";");
            push_type(out, value);
            out.append(")");
        },
        CanonicalTypeIdentity::Optional(element) => {
            out.append("O(");
            push_type(out, element);
            out.append(")");
        },
        CanonicalTypeIdentity::Builtin { definition, arguments } => {
            out.append("B");
            push_decimal(out, definition.0 as u64);
            out.append("[");
            push_list(out, arguments);
            out.append("]");
        },
        CanonicalTypeIdentity::Union(elements) => {
            out.append("U[");
            push_list(out, elements);
            out.append("]");
        },
    }
    proof {
        assert(final(out)@ =~= old(out)@ + type_descriptor(*identity));
    }
}

fn push_list(out: &mut String, identities: &Vec<CanonicalTypeIdentity>)
    ensures
        final(out)@ == old(out)@ + list_descriptor(identities@),
    decreases identities,
{
    let ghost start = out@;
    let mut i: usize = 0;
    while i < identities.len()
        invariant
            i <= identities@.len(),
            out@ == start + list_descriptor(identities@.subrange(0, i as int)),
        decreases identities.len() - i,
    {
        if i != 0 {
            out.append(",");
        }
        proof {
            assert(decreases_to!(identities => identities@[i as int]));
        }
        push_type(out, &identities[i]);
        proof {
            let next = identities@.subrange(0, i + 1);
            assert(next.drop_last() =~= identities@.subrange(0, i as int));
            assert(next.last() == identities@[i as int]);
            if i == 0 {
                assert(identities@.subrange(0, 0) =~= Seq::<CanonicalTypeIdentity>::empty());
            }
            assert(out@ =~= start + list_descriptor(next));
        }
        i = i + 1;
    }
    proof {
        assert(identities@.subrange(0, identities@.len() as int) =~= identities@);
    }
}

fn push_nominal(out: &mut String, nominal: &CanonicalNominalIdentity)
    ensures
        final(out)@ == old(out)@ + nominal_descriptor(*nominal),
    decreases nominal,
{
    push_identity(out, nominal.definition);
    out.append("[");
    push_list(out, &nominal.arguments);
    out.append("]");
    proof {
        assert(final(out)@ =~= old(out)@ + nominal_descriptor(*nominal));
    }
}

impl CanonicalNominalIdentity {
    pub fn new(definition: SymbolIdentity, arguments: Vec<CanonicalTypeIdentity>) -> (r: Self)
        ensures
            r.definition == definition,
            r.arguments@ == arguments@,
    {
        CanonicalNominalIdentity { definition, arguments }
    }

    pub fn definition(&self) -> (r: SymbolIdentity)
        ensures
            r == self.definition,
    {
        self.definition
    }

    pub fn arguments(&self) -> (r: &[CanonicalTypeIdentity])
        ensures
            r@ == self.arguments@,
    {
        self.arguments.as_slice()
    }

    /// `b<bubble>:s<symbol>[<arguments>]`: the definition's stable identity
    /// followed by the comma-separated descriptors of its arguments.
    pub fn descriptor(&self) -> (r: String)
        ensures
            r@ == nominal_descriptor(*self),
    {
        let mut out = String::new();
        push_nominal(&mut out, self);
        proof {
            assert(out@ =~= nominal_descriptor(*self));
        }
        out
    }
}

impl CanonicalTypeIdentity {
    /// The stable text descriptor of the identity.
    pub fn descriptor(&self) -> (r: String)
        ensures
            r@ == type_descriptor(*self),
    {
        let mut out = String::new();
        push_type(&mut out, self);
        proof {
            assert(out@ =~= type_descriptor(*self));
        }
        out
    }
}

} // verus!
