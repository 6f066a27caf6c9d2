//! Canonical descriptors identify their types: two identities with the same
//! descriptor have the same structure.
use vstd::prelude::*;

use crate::canonical::{
    lifetime_text, provenance_list_text, provenance_text, retention_list_text, retention_text, decimal_text, digit_text, identity_text, integer_kind_text, list_descriptor, nominal_descriptor,
    primitive_text, type_descriptor, CanonicalNominalIdentity, CanonicalTypeIdentity,
};
use crate::ids::{BuiltinTypeId, SymbolIdentity};
use crate::lifetime::{CallableLifetimeSummary, ParameterRetention, ResultProvenance};
use crate::kinds::{IntegerKind, PrimitiveType};
use crate::tsv::{decimal_value, is_digit};

verus! {

/// Splitting a concatenation at the length of its first part.
proof fn lemma_split(x: Seq<char>, s: Seq<char>)
    ensures
        (x + s).take(x.len() as int) == x,
        (x + s).skip(x.len() as int) == s,
{
    assert((x + s).take(x.len() as int) =~= x);
    assert((x + s).skip(x.len() as int) =~= s);
}

/// Two concatenations with first parts of one length split alike.
proof fn lemma_same_split(x: Seq<char>, s: Seq<char>, y: Seq<char>, t: Seq<char>)
    requires
        x + s == y + t,
        x.len() == y.len(),
    ensures
        x == y,
        s == t,
{
    lemma_split(x, s);
    lemma_split(y, t);
}

/// Regrouping concatenations.
proof fn lemma_assoc(a: Seq<char>, b: Seq<char>, c: Seq<char>)
    ensures
        (a + b) + c == a + (b + c),
{
    assert((a + b) + c =~= a + (b + c));
}

proof fn lemma_digit(d: nat)
    requires
        d < 10,
    ensures
        digit_text(d).len() == 1,
        is_digit(digit_text(d)[0]),
        digit_text(d)[0] as int - '0' as int == d,
{
    reveal_strlit("0");
    reveal_strlit("1");
    reveal_strlit("2");
    reveal_strlit("3");
    reveal_strlit("4");
    reveal_strlit("5");
    reveal_strlit("6");
    reveal_strlit("7");
    reveal_strlit("8");
    reveal_strlit("9");
}

/// A decimal spelling is one or more digits and reads back as its number.
pub(crate) proof fn lemma_decimal(n: nat)
    ensures
        decimal_text(n).len() >= 1,
        forall|k: int| 0 <= k < decimal_text(n).len() ==> is_digit(#[trigger] decimal_text(n)[k]),
        decimal_value(decimal_text(n)) == n,
    decreases n,
{
    if n < 10 {
        lemma_digit(n);
        let x = decimal_text(n);
        assert(x.drop_last() =~= Seq::<char>::empty());
        assert(decimal_value(x.drop_last()) == 0);
        assert(x.last() == x[0]);
        assert(decimal_value(x) == decimal_value(x.drop_last()) * 10 + ((x.last() as int) - ('0' as int)) as nat);
    } else {
        lemma_decimal(n / 10);
        lemma_digit(n % 10);
        let x = decimal_text(n / 10);
        let d = digit_text(n % 10);
        assert(decimal_text(n) == x + d);
        assert((x + d).drop_last() =~= x);
        assert((x + d).last() == d[0]);
        assert forall|k: int| 0 <= k < (x + d).len() implies is_digit(#[trigger] (x + d)[k]) by {
            if k < x.len() {
                assert((x + d)[k] == x[k]);
            } else {
                assert((x + d)[k] == d[0]);
            }
        }
        assert(decimal_value(x + d) == decimal_value((x + d).drop_last()) * 10 + (((x + d).last() as int) - ('0' as int)) as nat);
        assert(n == (n / 10) * 10 + n % 10) by (nonlinear_arith);
    }
}

/// A decimal followed by something that does not start with a digit is
/// read back unambiguously.
proof fn lemma_decimal_prefix(n: nat, s: Seq<char>, m: nat, t: Seq<char>)
    requires
        decimal_text(n) + s == decimal_text(m) + t,
        s.len() > 0 ==> !is_digit(s[0]),
        t.len() > 0 ==> !is_digit(t[0]),
    ensures
        n == m,
        s == t,
{
    let x = decimal_text(n);
    let y = decimal_text(m);
    lemma_decimal(n);
    lemma_decimal(m);
    if x.len() < y.len() {
        let k = x.len() as int;
        assert((y + t)[k] == y[k]);
        assert(is_digit(y[k]));
        if s.len() > 0 {
            assert((x + s)[k] == s[0]);
        } else {
            assert((x + s).len() < (y + t).len());
        }
    } else if y.len() < x.len() {
        let k = y.len() as int;
        assert((x + s)[k] == x[k]);
        assert(is_digit(x[k]));
        if t.len() > 0 {
            assert((y + t)[k] == t[0]);
        } else {
            assert((y + t).len() < (x + s).len());
        }
    }
    lemma_same_split(x, s, y, t);
}

/// The primitive whose spelling begins `s`, read from a few positions.
spec fn primitive_at(s: Seq<char>) -> PrimitiveType {
    if s[0] == 'N' {
        if s[1] == 'i' {
            PrimitiveType::Nil
        } else {
            PrimitiveType::Never
        }
    } else if s[0] == 'B' {
        PrimitiveType::Boolean
    } else if s[0] == 'S' {
        PrimitiveType::String
    } else if s[0] == 'F' {
        if s[5] == '3' {
            PrimitiveType::Float32
        } else {
            PrimitiveType::Float64
        }
    } else {
        let digit = if s[8] == 'I' {
            s[11]
        } else {
            s[12]
        };
        let signed = s[8] == 'I';
        PrimitiveType::Integer(
            if digit == '8' {
                if signed {
                    IntegerKind::Int8
                } else {
                    IntegerKind::UInt8
                }
            } else if digit == '1' {
                if signed {
                    IntegerKind::Int16
                } else {
                    IntegerKind::UInt16
                }
            } else if digit == '3' {
                if signed {
                    IntegerKind::Int32
                } else {
                    IntegerKind::UInt32
                }
            } else if signed {
                IntegerKind::Int64
            } else {
                IntegerKind::UInt64
            },
        )
    }
}

proof fn lemma_primitive_at(p: PrimitiveType, s: Seq<char>)
    ensures
        primitive_at(primitive_text(p) + s) == p,
{
    reveal_strlit("Nil");
    reveal_strlit("Boolean");
    reveal_strlit("Integer(");
    reveal_strlit(")");
    reveal_strlit("Float32");
    reveal_strlit("Float64");
    reveal_strlit("String");
    reveal_strlit("Never");
    reveal_strlit("Int8");
    reveal_strlit("Int16");
    reveal_strlit("Int32");
    reveal_strlit("Int64");
    reveal_strlit("UInt8");
    reveal_strlit("UInt16");
    reveal_strlit("UInt32");
    reveal_strlit("UInt64");
    let x = primitive_text(p);
    assert forall|i: int| 0 <= i < x.len() implies (x + s)[i] == x[i] by {
    }
    match p {
        PrimitiveType::Integer(k) => {
            let head = "Integer("@;
            let kind = integer_kind_text(k);
            assert(x == head + kind + ")"@);
            assert forall|i: int| 0 <= i < kind.len() implies x[8 + i] == kind[i] by {
                assert((head + kind)[8 + i] == kind[i]);
            }
            assert(x[0] == 'I');
        },
        _ => {},
    }
}

/// A primitive spelling is read back unambiguously, whatever follows it.
proof fn lemma_primitive_prefix(p: PrimitiveType, s: Seq<char>, q: PrimitiveType, t: Seq<char>)
    requires
        primitive_text(p) + s == primitive_text(q) + t,
    ensures
        p == q,
        s == t,
{
    lemma_primitive_at(p, s);
    lemma_primitive_at(q, t);
    lemma_same_split(primitive_text(p), s, primitive_text(q), t);
}

/// Stripping a common prefix.
proof fn lemma_strip(p: Seq<char>, x: Seq<char>, y: Seq<char>)
    requires
        p + x == p + y,
    ensures
        x == y,
{
    lemma_same_split(p, x, p, y);
}

/// A stable declaration identity followed by a non-digit is read back
/// unambiguously.
proof fn lemma_identity_prefix(a: SymbolIdentity, s: Seq<char>, b: SymbolIdentity, t: Seq<char>)
    requires
        identity_text(a) + s == identity_text(b) + t,
        s.len() > 0 && !is_digit(s[0]),
        t.len() > 0 && !is_digit(t[0]),
    ensures
        a == b,
        s == t,
{
    reveal_strlit("b");
    reveal_strlit(":s");
    let colon = ":s"@;
    let x1 = decimal_text(a.bubble.0 as nat);
    let x2 = decimal_text(a.symbol.0 as nat);
    let y1 = decimal_text(b.bubble.0 as nat);
    let y2 = decimal_text(b.symbol.0 as nat);
    assert(identity_text(a) + s == "b"@ + (x1 + (colon + (x2 + s)))) by {
        assert(identity_text(a) + s =~= "b"@ + (x1 + (colon + (x2 + s))));
    }
    assert(identity_text(b) + t == "b"@ + (y1 + (colon + (y2 + t)))) by {
        assert(identity_text(b) + t =~= "b"@ + (y1 + (colon + (y2 + t))));
    }
    lemma_strip("b"@, x1 + (colon + (x2 + s)), y1 + (colon + (y2 + t)));
    assert((colon + (x2 + s))[0] == ':');
    assert((colon + (y2 + t))[0] == ':');
    lemma_decimal_prefix(a.bubble.0 as nat, colon + (x2 + s), b.bubble.0 as nat, colon + (y2 + t));
    lemma_strip(colon, x2 + s, y2 + t);
    lemma_decimal_prefix(a.symbol.0 as nat, s, b.symbol.0 as nat, t);
}

/// The structure of a canonical identity, with plain sequences.
pub enum IdentityShape {
    Primitive(PrimitiveType),
    Record(SymbolIdentity),
    Class(SymbolIdentity, Seq<IdentityShape>),
    Interface(SymbolIdentity, Seq<IdentityShape>),
    Tuple(Seq<IdentityShape>),
    Function {
        is_async: bool,
        parameters: Seq<IdentityShape>,
        results: Seq<IdentityShape>,
        effects: u16,
        lifetime: (u16, Seq<ParameterRetention>, Seq<ResultProvenance>),
    },
    Array(Box<IdentityShape>),
    Table(Box<IdentityShape>, Box<IdentityShape>),
    Optional(Box<IdentityShape>),
    Builtin(BuiltinTypeId, Seq<IdentityShape>),
    Union(Seq<IdentityShape>),
}

/// The structure of an identity.
pub open spec fn shape(identity: CanonicalTypeIdentity) -> IdentityShape
    decreases identity,
{
    match identity {
        CanonicalTypeIdentity::Primitive(p) => IdentityShape::Primitive(p),
        CanonicalTypeIdentity::Record(symbol) => IdentityShape::Record(symbol),
        CanonicalTypeIdentity::Class(nominal) => IdentityShape::Class(nominal.definition, nominal_shapes(nominal)),
        CanonicalTypeIdentity::Interface(nominal) => IdentityShape::Interface(
            nominal.definition,
            nominal_shapes(nominal),
        ),
        CanonicalTypeIdentity::Tuple(elements) => IdentityShape::Tuple(shapes(elements@)),
        CanonicalTypeIdentity::Function { is_async, parameters, results, effects, lifetime_summary } =>
            IdentityShape::Function {
            is_async,
            parameters: shapes(parameters@),
            results: shapes(results@),
            effects: effects.mask(),
            lifetime: lifetime_summary@,
        },
        CanonicalTypeIdentity::Array(element) => IdentityShape::Array(Box::new(shape(*element))),
        CanonicalTypeIdentity::Table { key, value } => IdentityShape::Table(
            Box::new(shape(*key)),
            Box::new(shape(*value)),
        ),
        CanonicalTypeIdentity::Optional(element) => IdentityShape::Optional(Box::new(shape(*element))),
        CanonicalTypeIdentity::Builtin { definition, arguments } => IdentityShape::Builtin(
            definition,
            shapes(arguments@),
        ),
        CanonicalTypeIdentity::Union(elements) => IdentityShape::Union(shapes(elements@)),
    }
}

/// The structures of a list of identities.
pub open spec fn shapes(identities: Seq<CanonicalTypeIdentity>) -> Seq<IdentityShape>
    decreases identities,
{
    if identities.len() == 0 {
        Seq::empty()
    } else {
        shapes(identities.drop_last()).push(shape(identities.last()))
    }
}

/// The structures of a nominal identity's arguments.
pub open spec fn nominal_shapes(nominal: CanonicalNominalIdentity) -> Seq<IdentityShape>
    decreases nominal,
{
    shapes(nominal.arguments@)
}

/// A non-empty list reads as its first descriptor, then a comma and the
/// rest when there is more.
proof fn lemma_list_cons(xs: Seq<CanonicalTypeIdentity>)
    requires
        xs.len() >= 1,
    ensures
        list_descriptor(xs) == type_descriptor(xs[0]) + if xs.len() == 1 {
            Seq::<char>::empty()
        } else {
            ","@ + list_descriptor(xs.drop_first())
        },
        shapes(xs) == seq![shape(xs[0])] + shapes(xs.drop_first()),
    decreases xs.len(),
{
    if xs.len() == 1 {
        assert(xs.drop_last() =~= Seq::<CanonicalTypeIdentity>::empty());
        assert(xs.drop_first() =~= Seq::<CanonicalTypeIdentity>::empty());
        assert(type_descriptor(xs[0]) + Seq::<char>::empty() =~= type_descriptor(xs[0]));
        assert(shapes(xs) =~= seq![shape(xs[0])] + shapes(xs.drop_first()));
    } else {
        let init = xs.drop_last();
        let rest = xs.drop_first();
        assert(init[0] == xs[0]);
        assert(rest.drop_last() =~= init.drop_first());
        assert(rest.last() == xs.last());
        lemma_list_cons(init);
        if xs.len() == 2 {
            assert(rest.len() == 1);
            assert(rest.drop_last() =~= Seq::<CanonicalTypeIdentity>::empty());
            assert(list_descriptor(rest) == type_descriptor(rest[0]));
            assert(list_descriptor(xs) =~= type_descriptor(xs[0]) + (","@ + list_descriptor(rest)));
            assert(shapes(rest) =~= seq![shape(xs.last())]);
            assert(shapes(xs) =~= seq![shape(xs[0])] + shapes(rest));
        } else {
            assert(list_descriptor(rest) == list_descriptor(init.drop_first()) + ","@ + type_descriptor(xs.last()));
            assert(list_descriptor(xs) =~= type_descriptor(xs[0]) + (","@ + list_descriptor(rest)));
            assert(shapes(rest) == shapes(init.drop_first()).push(shape(xs.last())));
            assert(shapes(xs) =~= seq![shape(xs[0])] + shapes(rest));
        }
    }
}

/// The first character of a descriptor names the kind of identity.
pub open spec fn tag(identity: CanonicalTypeIdentity) -> char {
    match identity {
        CanonicalTypeIdentity::Primitive(_) => 'P',
        CanonicalTypeIdentity::Record(_) => 'R',
        CanonicalTypeIdentity::Class(_) => 'C',
        CanonicalTypeIdentity::Interface(_) => 'I',
        CanonicalTypeIdentity::Tuple(_) => 'T',
        CanonicalTypeIdentity::Function { .. } => 'F',
        CanonicalTypeIdentity::Array(_) => 'A',
        CanonicalTypeIdentity::Table { .. } => 'M',
        CanonicalTypeIdentity::Optional(_) => 'O',
        CanonicalTypeIdentity::Builtin { .. } => 'B',
        CanonicalTypeIdentity::Union(_) => 'U',
    }
}

proof fn lemma_tag(identity: CanonicalTypeIdentity)
    ensures
        type_descriptor(identity).len() >= 1,
        type_descriptor(identity)[0] == tag(identity),
{
    reveal_strlit("P(");
    reveal_strlit("R(");
    reveal_strlit("C(");
    reveal_strlit("I(");
    reveal_strlit("T[");
    reveal_strlit("F(");
    reveal_strlit("A(");
    reveal_strlit("M(");
    reveal_strlit("O(");
    reveal_strlit("B");
    reveal_strlit("U[");
}

/// A character that may follow a code inside a list.
spec fn ends_code(s: Seq<char>) -> bool {
    s.len() > 0 && (s[0] == ',' || s[0] == ']')
}

proof fn lemma_retention_prefix(a: ParameterRetention, s: Seq<char>, b: ParameterRetention, t: Seq<char>)
    requires
        retention_text(a) + s == retention_text(b) + t,
        ends_code(s),
        ends_code(t),
    ensures
        a == b,
        s == t,
{
    reveal_strlit("D");
    reveal_strlit("M");
    reveal_strlit("S");
    reveal_strlit("C");
    reveal_strlit("P");
    assert((retention_text(a) + s)[0] == retention_text(a)[0]);
    assert((retention_text(b) + t)[0] == retention_text(b)[0]);
    match (a, b) {
        (ParameterRetention::StoresInto(x), ParameterRetention::StoresInto(y)) => {
            assert(retention_text(a) + s =~= "S"@ + (decimal_text(x as nat) + s));
            assert(retention_text(b) + t =~= "S"@ + (decimal_text(y as nat) + t));
            lemma_strip("S"@, decimal_text(x as nat) + s, decimal_text(y as nat) + t);
            lemma_decimal_prefix(x as nat, s, y as nat, t);
        },
        (ParameterRetention::StoresInto(_), _) | (_, ParameterRetention::StoresInto(_)) => {},
        _ => {
            assert(retention_text(a).len() == 1 && retention_text(b).len() == 1);
            lemma_same_split(retention_text(a), s, retention_text(b), t);
        },
    }
}

proof fn lemma_provenance_prefix(a: ResultProvenance, s: Seq<char>, b: ResultProvenance, t: Seq<char>)
    requires
        provenance_text(a) + s == provenance_text(b) + t,
        ends_code(s),
        ends_code(t),
    ensures
        a == b,
        s == t,
{
    reveal_strlit("I");
    reveal_strlit("R");
    reveal_strlit("M");
    assert((provenance_text(a) + s)[0] == provenance_text(a)[0]);
    assert((provenance_text(b) + t)[0] == provenance_text(b)[0]);
    match (a, b) {
        (ResultProvenance::ReturnsAlias(x), ResultProvenance::ReturnsAlias(y)) => {
            assert(provenance_text(a) + s =~= "R"@ + (decimal_text(x as nat) + s));
            assert(provenance_text(b) + t =~= "R"@ + (decimal_text(y as nat) + t));
            lemma_strip("R"@, decimal_text(x as nat) + s, decimal_text(y as nat) + t);
            lemma_decimal_prefix(x as nat, s, y as nat, t);
        },
        (ResultProvenance::ReturnsAlias(_), _) | (_, ResultProvenance::ReturnsAlias(_)) => {},
        _ => {
            assert(provenance_text(a).len() == 1 && provenance_text(b).len() == 1);
            lemma_same_split(provenance_text(a), s, provenance_text(b), t);
        },
    }
}

proof fn lemma_retention_cons(xs: Seq<ParameterRetention>)
    requires
        xs.len() >= 1,
    ensures
        retention_list_text(xs) == retention_text(xs[0]) + if xs.len() == 1 {
            Seq::<char>::empty()
        } else {
            ","@ + retention_list_text(xs.drop_first())
        },
    decreases xs.len(),
{
    if xs.len() == 1 {
        assert(retention_text(xs[0]) + Seq::<char>::empty() =~= retention_text(xs[0]));
    } else {
        let init = xs.drop_last();
        let rest = xs.drop_first();
        assert(init[0] == xs[0]);
        assert(rest.drop_last() =~= init.drop_first());
        assert(rest.last() == xs.last());
        lemma_retention_cons(init);
        if xs.len() == 2 {
            assert(retention_list_text(rest) == retention_text(rest[0]));
        }
        assert(retention_list_text(xs) =~= retention_text(xs[0]) + (","@ + retention_list_text(rest)));
    }
}

proof fn lemma_provenance_cons(xs: Seq<ResultProvenance>)
    requires
        xs.len() >= 1,
    ensures
        provenance_list_text(xs) == provenance_text(xs[0]) + if xs.len() == 1 {
            Seq::<char>::empty()
        } else {
            ","@ + provenance_list_text(xs.drop_first())
        },
    decreases xs.len(),
{
    if xs.len() == 1 {
        assert(provenance_text(xs[0]) + Seq::<char>::empty() =~= provenance_text(xs[0]));
    } else {
        let init = xs.drop_last();
        let rest = xs.drop_first();
        assert(init[0] == xs[0]);
        assert(rest.drop_last() =~= init.drop_first());
        assert(rest.last() == xs.last());
        lemma_provenance_cons(init);
        if xs.len() == 2 {
            assert(provenance_list_text(rest) == provenance_text(rest[0]));
        }
        assert(provenance_list_text(xs) =~= provenance_text(xs[0]) + (","@ + provenance_list_text(rest)));
    }
}

proof fn lemma_retention_list_prefix(xs: Seq<ParameterRetention>, s: Seq<char>, ys: Seq<ParameterRetention>, t: Seq<char>)
    requires
        retention_list_text(xs) + s == retention_list_text(ys) + t,
        s.len() > 0 && s[0] == ']',
        t.len() > 0 && t[0] == ']',
    ensures
        xs == ys,
        s == t,
    decreases xs.len(),
{
    reveal_strlit(",");
    reveal_strlit("D");
    reveal_strlit("M");
    reveal_strlit("S");
    reveal_strlit("C");
    reveal_strlit("P");
    if xs.len() > 0 {
        lemma_retention_cons(xs);
        assert(retention_text(xs[0]).len() >= 1 && retention_text(xs[0])[0] != ']');
    }
    if ys.len() > 0 {
        lemma_retention_cons(ys);
        assert(retention_text(ys[0]).len() >= 1 && retention_text(ys[0])[0] != ']');
    }
    if xs.len() == 0 && ys.len() == 0 {
        assert(retention_list_text(xs) == Seq::<char>::empty());
        assert(retention_list_text(ys) == Seq::<char>::empty());
        assert(s =~= Seq::<char>::empty() + s);
        assert(t =~= Seq::<char>::empty() + t);
        assert(xs =~= ys);
    } else if xs.len() == 0 {
        assert(Seq::<char>::empty() + s =~= s);
        assert((retention_list_text(ys) + t)[0] == retention_text(ys[0])[0]);
    } else if ys.len() == 0 {
        assert(Seq::<char>::empty() + t =~= t);
        assert((retention_list_text(xs) + s)[0] == retention_text(xs[0])[0]);
    } else {
        let rx = if xs.len() == 1 {
            Seq::<char>::empty()
        } else {
            ","@ + retention_list_text(xs.drop_first())
        };
        let ry = if ys.len() == 1 {
            Seq::<char>::empty()
        } else {
            ","@ + retention_list_text(ys.drop_first())
        };
        lemma_assoc(retention_text(xs[0]), rx, s);
        lemma_assoc(retention_text(ys[0]), ry, t);
        assert((rx + s).len() > 0 && ((rx + s)[0] == ',' || (rx + s)[0] == ']'));
        assert((ry + t).len() > 0 && ((ry + t)[0] == ',' || (ry + t)[0] == ']'));
        lemma_retention_prefix(xs[0], rx + s, ys[0], ry + t);
        if xs.len() == 1 {
            assert(rx + s =~= s);
            if ys.len() > 1 {
                assert((ry + t)[0] == ',');
            }
            assert(ry + t =~= t);
            assert(xs =~= ys);
        } else {
            assert((rx + s)[0] == ',');
            if ys.len() == 1 {
                assert(ry + t =~= t);
            }
            lemma_assoc(","@, retention_list_text(xs.drop_first()), s);
            lemma_assoc(","@, retention_list_text(ys.drop_first()), t);
            lemma_strip(","@, retention_list_text(xs.drop_first()) + s, retention_list_text(ys.drop_first()) + t);
            lemma_retention_list_prefix(xs.drop_first(), s, ys.drop_first(), t);
            assert(xs =~= seq![xs[0]] + xs.drop_first());
            assert(ys =~= seq![ys[0]] + ys.drop_first());
        }
    }
}

proof fn lemma_provenance_list_prefix(xs: Seq<ResultProvenance>, s: Seq<char>, ys: Seq<ResultProvenance>, t: Seq<char>)
    requires
        provenance_list_text(xs) + s == provenance_list_text(ys) + t,
        s.len() > 0 && s[0] == ']',
        t.len() > 0 && t[0] == ']',
    ensures
        xs == ys,
        s == t,
    decreases xs.len(),
{
    reveal_strlit(",");
    reveal_strlit("I");
    reveal_strlit("R");
    reveal_strlit("M");
    if xs.len() > 0 {
        lemma_provenance_cons(xs);
        assert(provenance_text(xs[0]).len() >= 1 && provenance_text(xs[0])[0] != ']');
    }
    if ys.len() > 0 {
        lemma_provenance_cons(ys);
        assert(provenance_text(ys[0]).len() >= 1 && provenance_text(ys[0])[0] != ']');
    }
    if xs.len() == 0 && ys.len() == 0 {
        assert(provenance_list_text(xs) == Seq::<char>::empty());
        assert(provenance_list_text(ys) == Seq::<char>::empty());
        assert(s =~= Seq::<char>::empty() + s);
        assert(t =~= Seq::<char>::empty() + t);
        assert(xs =~= ys);
    } else if xs.len() == 0 {
        assert(Seq::<char>::empty() + s =~= s);
        assert((provenance_list_text(ys) + t)[0] == provenance_text(ys[0])[0]);
    } else if ys.len() == 0 {
        assert(Seq::<char>::empty() + t =~= t);
        assert((provenance_list_text(xs) + s)[0] == provenance_text(xs[0])[0]);
    } else {
        let rx = if xs.len() == 1 {
            Seq::<char>::empty()
        } else {
            ","@ + provenance_list_text(xs.drop_first())
        };
        let ry = if ys.len() == 1 {
            Seq::<char>::empty()
        } else {
            ","@ + provenance_list_text(ys.drop_first())
        };
        lemma_assoc(provenance_text(xs[0]), rx, s);
        lemma_assoc(provenance_text(ys[0]), ry, t);
        assert((rx + s).len() > 0 && ((rx + s)[0] == ',' || (rx + s)[0] == ']'));
        assert((ry + t).len() > 0 && ((ry + t)[0] == ',' || (ry + t)[0] == ']'));
        lemma_provenance_prefix(xs[0], rx + s, ys[0], ry + t);
        if xs.len() == 1 {
            assert(rx + s =~= s);
            if ys.len() > 1 {
                assert((ry + t)[0] == ',');
            }
            assert(ry + t =~= t);
            assert(xs =~= ys);
        } else {
            assert((rx + s)[0] == ',');
            if ys.len() == 1 {
                assert(ry + t =~= t);
            }
            lemma_assoc(","@, provenance_list_text(xs.drop_first()), s);
            lemma_assoc(","@, provenance_list_text(ys.drop_first()), t);
            lemma_strip(","@, provenance_list_text(xs.drop_first()) + s, provenance_list_text(ys.drop_first()) + t);
            lemma_provenance_list_prefix(xs.drop_first(), s, ys.drop_first(), t);
            assert(xs =~= seq![xs[0]] + xs.drop_first());
            assert(ys =~= seq![ys[0]] + ys.drop_first());
        }
    }
}

proof fn lemma_lifetime_prefix(a: CallableLifetimeSummary, s: Seq<char>, b: CallableLifetimeSummary, t: Seq<char>)
    requires
        lifetime_text(a) + s == lifetime_text(b) + t,
        s.len() > 0 && s[0] == ']',
        t.len() > 0 && t[0] == ']',
    ensures
        a@ == b@,
        s == t,
{
    reveal_strlit("L");
    reveal_strlit(":[");
    reveal_strlit("]:[");
    let l = "L"@;
    let open = ":["@;
    let mid = "]:["@;
    assert(lifetime_text(a) + s =~= l + (decimal_text(a@.0 as nat) + (open + (retention_list_text(a@.1) + (mid + (provenance_list_text(a@.2) + s))))));
    assert(lifetime_text(b) + t =~= l + (decimal_text(b@.0 as nat) + (open + (retention_list_text(b@.1) + (mid + (provenance_list_text(b@.2) + t))))));
    lemma_strip(l, decimal_text(a@.0 as nat) + (open + (retention_list_text(a@.1) + (mid + (provenance_list_text(a@.2) + s)))), decimal_text(b@.0 as nat) + (open + (retention_list_text(b@.1) + (mid + (provenance_list_text(b@.2) + t)))));
    lemma_decimal_prefix(a@.0 as nat, open + (retention_list_text(a@.1) + (mid + (provenance_list_text(a@.2) + s))), b@.0 as nat, open + (retention_list_text(b@.1) + (mid + (provenance_list_text(b@.2) + t))));
    lemma_strip(open, retention_list_text(a@.1) + (mid + (provenance_list_text(a@.2) + s)), retention_list_text(b@.1) + (mid + (provenance_list_text(b@.2) + t)));
    lemma_retention_list_prefix(a@.1, mid + (provenance_list_text(a@.2) + s), b@.1, mid + (provenance_list_text(b@.2) + t));
    lemma_strip(mid, provenance_list_text(a@.2) + s, provenance_list_text(b@.2) + t);
    lemma_provenance_list_prefix(a@.2, s, b@.2, t);
}

/// Descriptors are prefix-free: when one descriptor followed by `s` is
/// another followed by `t`, the identities have one structure and `s` is
/// `t`.
proof fn lemma_type_prefix(a: CanonicalTypeIdentity, s: Seq<char>, b: CanonicalTypeIdentity, t: Seq<char>)
    requires
        type_descriptor(a) + s == type_descriptor(b) + t,
    ensures
        shape(a) == shape(b),
        s == t,
    decreases a, 1nat,
{
    lemma_tag(a);
    lemma_tag(b);
    assert((type_descriptor(a) + s)[0] == tag(a));
    assert((type_descriptor(b) + t)[0] == tag(b));
    reveal_strlit("P(");
    reveal_strlit("R(");
    reveal_strlit("C(");
    reveal_strlit("I(");
    reveal_strlit("T[");
    reveal_strlit("F(");
    reveal_strlit("A(");
    reveal_strlit("M(");
    reveal_strlit("O(");
    reveal_strlit("B");
    reveal_strlit("U[");
    reveal_strlit(")");
    reveal_strlit("[");
    reveal_strlit("]");
    reveal_strlit(";");
    let close = ")"@;
    let open = "["@;
    let shut = "]"@;
    match (a, b) {
        (CanonicalTypeIdentity::Primitive(p), CanonicalTypeIdentity::Primitive(q)) => {
            assert(type_descriptor(a) + s =~= "P("@ + (primitive_text(p) + (close + s)));
            assert(type_descriptor(b) + t =~= "P("@ + (primitive_text(q) + (close + t)));
            lemma_strip("P("@, primitive_text(p) + (close + s), primitive_text(q) + (close + t));
            lemma_primitive_prefix(p, close + s, q, close + t);
            lemma_strip(close, s, t);
        },
        (CanonicalTypeIdentity::Record(x), CanonicalTypeIdentity::Record(y)) => {
            assert(type_descriptor(a) + s =~= "R("@ + (identity_text(x) + (close + s)));
            assert(type_descriptor(b) + t =~= "R("@ + (identity_text(y) + (close + t)));
            lemma_strip("R("@, identity_text(x) + (close + s), identity_text(y) + (close + t));
            assert((close + s)[0] == ')' && (close + t)[0] == ')');
            lemma_identity_prefix(x, close + s, y, close + t);
            lemma_strip(close, s, t);
        },
(CanonicalTypeIdentity::Class(n), CanonicalTypeIdentity::Class(m)) => {
            lemma_class_prefix(a, s, b, t);
        },
(CanonicalTypeIdentity::Interface(n), CanonicalTypeIdentity::Interface(m)) => {
            lemma_interface_prefix(a, s, b, t);
        },
        (CanonicalTypeIdentity::Tuple(xs), CanonicalTypeIdentity::Tuple(ys)) => {
            assert(type_descriptor(a) + s =~= "T["@ + (list_descriptor(xs@) + (shut + s)));
            assert(type_descriptor(b) + t =~= "T["@ + (list_descriptor(ys@) + (shut + t)));
            lemma_strip("T["@, list_descriptor(xs@) + (shut + s), list_descriptor(ys@) + (shut + t));
            lemma_list_prefix(xs@, shut + s, ys@, shut + t);
            lemma_strip(shut, s, t);
        },
        (CanonicalTypeIdentity::Union(xs), CanonicalTypeIdentity::Union(ys)) => {
            assert(type_descriptor(a) + s =~= "U["@ + (list_descriptor(xs@) + (shut + s)));
            assert(type_descriptor(b) + t =~= "U["@ + (list_descriptor(ys@) + (shut + t)));
            lemma_strip("U["@, list_descriptor(xs@) + (shut + s), list_descriptor(ys@) + (shut + t));
            lemma_list_prefix(xs@, shut + s, ys@, shut + t);
            lemma_strip(shut, s, t);
        },
(
            CanonicalTypeIdentity::Builtin { definition: d, arguments: xs },
            CanonicalTypeIdentity::Builtin { definition: e, arguments: ys },
        ) => {
            lemma_builtin_prefix(a, s, b, t);
        },
        (CanonicalTypeIdentity::Array(x), CanonicalTypeIdentity::Array(y)) => {
            assert(type_descriptor(a) + s =~= "A("@ + (type_descriptor(*x) + (close + s)));
            assert(type_descriptor(b) + t =~= "A("@ + (type_descriptor(*y) + (close + t)));
            lemma_strip("A("@, type_descriptor(*x) + (close + s), type_descriptor(*y) + (close + t));
            lemma_type_prefix(*x, close + s, *y, close + t);
            lemma_strip(close, s, t);
        },
        (CanonicalTypeIdentity::Optional(x), CanonicalTypeIdentity::Optional(y)) => {
            assert(type_descriptor(a) + s =~= "O("@ + (type_descriptor(*x) + (close + s)));
            assert(type_descriptor(b) + t =~= "O("@ + (type_descriptor(*y) + (close + t)));
            lemma_strip("O("@, type_descriptor(*x) + (close + s), type_descriptor(*y) + (close + t));
            lemma_type_prefix(*x, close + s, *y, close + t);
            lemma_strip(close, s, t);
        },
(
            CanonicalTypeIdentity::Table { key: k1, value: v1 },
            CanonicalTypeIdentity::Table { key: k2, value: v2 },
        ) => {
            lemma_table_prefix(a, s, b, t);
        },
(
            CanonicalTypeIdentity::Function {
                is_async: x_async,
                parameters: xp,
                results: xr,
                effects: xe,
                lifetime_summary: xl,
            },
            CanonicalTypeIdentity::Function {
                is_async: y_async,
                parameters: yp,
                results: yr,
                effects: ye,
                lifetime_summary: yl,
            },
        ) => {
            lemma_function_prefix(a, s, b, t);
        },
        _ => {},
    }
}


proof fn lemma_class_prefix(a: CanonicalTypeIdentity, s: Seq<char>, b: CanonicalTypeIdentity, t: Seq<char>)
    requires
        type_descriptor(a) + s == type_descriptor(b) + t,
        a is Class,
        b is Class,
    ensures
        shape(a) == shape(b),
        s == t,
    decreases a, 0nat,
{
    reveal_strlit("P(");
    reveal_strlit("R(");
    reveal_strlit("C(");
    reveal_strlit("I(");
    reveal_strlit("T[");
    reveal_strlit("F(");
    reveal_strlit("A(");
    reveal_strlit("M(");
    reveal_strlit("O(");
    reveal_strlit("B");
    reveal_strlit("U[");
    reveal_strlit(")");
    reveal_strlit("[");
    reveal_strlit("]");
    reveal_strlit(";");
    let close = ")"@;
    let open = "["@;
    let shut = "]"@;
    match (a, b) {
        (CanonicalTypeIdentity::Class(n), CanonicalTypeIdentity::Class(m)) => {
            let xs = n.arguments@;
            let ys = m.arguments@;
            assert(nominal_shapes(n) == shapes(xs));
            assert(nominal_shapes(m) == shapes(ys));
            assert(nominal_descriptor(n) == identity_text(n.definition) + open + list_descriptor(xs) + shut);
            assert(nominal_descriptor(m) == identity_text(m.definition) + open + list_descriptor(ys) + shut);
            assert(type_descriptor(a) == "C("@ + nominal_descriptor(n) + close);
            assert(type_descriptor(b) == "C("@ + nominal_descriptor(m) + close);
            assert(type_descriptor(a) + s =~= "C("@ + (identity_text(n.definition) + (open + (list_descriptor(xs) + (shut + (close + s))))));
            assert(type_descriptor(b) + t =~= "C("@ + (identity_text(m.definition) + (open + (list_descriptor(ys) + (shut + (close + t))))));
            lemma_strip("C("@, identity_text(n.definition) + (open + (list_descriptor(xs) + (shut + (close + s)))), identity_text(m.definition) + (open + (list_descriptor(ys) + (shut + (close + t)))));
            lemma_identity_prefix(n.definition, open + (list_descriptor(xs) + (shut + (close + s))), m.definition, open + (list_descriptor(ys) + (shut + (close + t))));
            lemma_strip(open, list_descriptor(xs) + (shut + (close + s)), list_descriptor(ys) + (shut + (close + t)));
            lemma_list_prefix(xs, shut + (close + s), ys, shut + (close + t));
            lemma_strip(shut, close + s, close + t);
            lemma_strip(close, s, t);
        },
        _ => {},
    }
}

proof fn lemma_interface_prefix(a: CanonicalTypeIdentity, s: Seq<char>, b: CanonicalTypeIdentity, t: Seq<char>)
    requires
        type_descriptor(a) + s == type_descriptor(b) + t,
        a is Interface,
        b is Interface,
    ensures
        shape(a) == shape(b),
        s == t,
    decreases a, 0nat,
{
    reveal_strlit("P(");
    reveal_strlit("R(");
    reveal_strlit("C(");
    reveal_strlit("I(");
    reveal_strlit("T[");
    reveal_strlit("F(");
    reveal_strlit("A(");
    reveal_strlit("M(");
    reveal_strlit("O(");
    reveal_strlit("B");
    reveal_strlit("U[");
    reveal_strlit(")");
    reveal_strlit("[");
    reveal_strlit("]");
    reveal_strlit(";");
    let close = ")"@;
    let open = "["@;
    let shut = "]"@;
    match (a, b) {
        (CanonicalTypeIdentity::Interface(n), CanonicalTypeIdentity::Interface(m)) => {
            let xs = n.arguments@;
            let ys = m.arguments@;
            assert(nominal_shapes(n) == shapes(xs));
            assert(nominal_shapes(m) == shapes(ys));
            assert(nominal_descriptor(n) == identity_text(n.definition) + open + list_descriptor(xs) + shut);
            assert(nominal_descriptor(m) == identity_text(m.definition) + open + list_descriptor(ys) + shut);
            assert(type_descriptor(a) == "I("@ + nominal_descriptor(n) + close);
            assert(type_descriptor(b) == "I("@ + nominal_descriptor(m) + close);
            assert(type_descriptor(a) + s =~= "I("@ + (identity_text(n.definition) + (open + (list_descriptor(xs) + (shut + (close + s))))));
            assert(type_descriptor(b) + t =~= "I("@ + (identity_text(m.definition) + (open + (list_descriptor(ys) + (shut + (close + t))))));
            lemma_strip("I("@, identity_text(n.definition) + (open + (list_descriptor(xs) + (shut + (close + s)))), identity_text(m.definition) + (open + (list_descriptor(ys) + (shut + (close + t)))));
            lemma_identity_prefix(n.definition, open + (list_descriptor(xs) + (shut + (close + s))), m.definition, open + (list_descriptor(ys) + (shut + (close + t))));
            lemma_strip(open, list_descriptor(xs) + (shut + (close + s)), list_descriptor(ys) + (shut + (close + t)));
            lemma_list_prefix(xs, shut + (close + s), ys, shut + (close + t));
            lemma_strip(shut, close + s, close + t);
            lemma_strip(close, s, t);
        },
        _ => {},
    }
}

proof fn lemma_builtin_prefix(a: CanonicalTypeIdentity, s: Seq<char>, b: CanonicalTypeIdentity, t: Seq<char>)
    requires
        type_descriptor(a) + s == type_descriptor(b) + t,
        a is Builtin,
        b is Builtin,
    ensures
        shape(a) == shape(b),
        s == t,
    decreases a, 0nat,
{
    reveal_strlit("P(");
    reveal_strlit("R(");
    reveal_strlit("C(");
    reveal_strlit("I(");
    reveal_strlit("T[");
    reveal_strlit("F(");
    reveal_strlit("A(");
    reveal_strlit("M(");
    reveal_strlit("O(");
    reveal_strlit("B");
    reveal_strlit("U[");
    reveal_strlit(")");
    reveal_strlit("[");
    reveal_strlit("]");
    reveal_strlit(";");
    let close = ")"@;
    let open = "["@;
    let shut = "]"@;
    match (a, b) {
        (
            CanonicalTypeIdentity::Builtin { definition: d, arguments: xs },
            CanonicalTypeIdentity::Builtin { definition: e, arguments: ys },
        ) => {
            assert(type_descriptor(a) + s =~= "B"@ + (decimal_text(d.0 as nat) + (open + (list_descriptor(xs@) + (shut + s)))));
            assert(type_descriptor(b) + t =~= "B"@ + (decimal_text(e.0 as nat) + (open + (list_descriptor(ys@) + (shut + t)))));
            lemma_strip("B"@, decimal_text(d.0 as nat) + (open + (list_descriptor(xs@) + (shut + s))), decimal_text(e.0 as nat) + (open + (list_descriptor(ys@) + (shut + t))));
            lemma_decimal_prefix(d.0 as nat, open + (list_descriptor(xs@) + (shut + s)), e.0 as nat, open + (list_descriptor(ys@) + (shut + t)));
            lemma_strip(open, list_descriptor(xs@) + (shut + s), list_descriptor(ys@) + (shut + t));
            lemma_list_prefix(xs@, shut + s, ys@, shut + t);
            lemma_strip(shut, s, t);
        },
        _ => {},
    }
}

proof fn lemma_table_prefix(a: CanonicalTypeIdentity, s: Seq<char>, b: CanonicalTypeIdentity, t: Seq<char>)
    requires
        type_descriptor(a) + s == type_descriptor(b) + t,
        a is Table,
        b is Table,
    ensures
        shape(a) == shape(b),
        s == t,
    decreases a, 0nat,
{
    reveal_strlit("P(");
    reveal_strlit("R(");
    reveal_strlit("C(");
    reveal_strlit("I(");
    reveal_strlit("T[");
    reveal_strlit("F(");
    reveal_strlit("A(");
    reveal_strlit("M(");
    reveal_strlit("O(");
    reveal_strlit("B");
    reveal_strlit("U[");
    reveal_strlit(")");
    reveal_strlit("[");
    reveal_strlit("]");
    reveal_strlit(";");
    let close = ")"@;
    let open = "["@;
    let shut = "]"@;
    match (a, b) {
        (
            CanonicalTypeIdentity::Table { key: k1, value: v1 },
            CanonicalTypeIdentity::Table { key: k2, value: v2 },
        ) => {
            let semi = ";"@;
            assert(type_descriptor(a) + s =~= "M("@ + (type_descriptor(*k1) + (semi + (type_descriptor(*v1) + (close + s)))));
            assert(type_descriptor(b) + t =~= "M("@ + (type_descriptor(*k2) + (semi + (type_descriptor(*v2) + (close + t)))));
            lemma_strip("M("@, type_descriptor(*k1) + (semi + (type_descriptor(*v1) + (close + s))), type_descriptor(*k2) + (semi + (type_descriptor(*v2) + (close + t))));
            lemma_type_prefix(*k1, semi + (type_descriptor(*v1) + (close + s)), *k2, semi + (type_descriptor(*v2) + (close + t)));
            lemma_strip(semi, type_descriptor(*v1) + (close + s), type_descriptor(*v2) + (close + t));
            lemma_type_prefix(*v1, close + s, *v2, close + t);
            lemma_strip(close, s, t);
        },
        _ => {},
    }
}


/// The pieces joined from the left, as the descriptor definitions build them.
spec fn joined(pieces: Seq<Seq<char>>) -> Seq<char>
    decreases pieces.len(),
{
    if pieces.len() == 0 {
        Seq::empty()
    } else {
        joined(pieces.drop_last()) + pieces.last()
    }
}

/// The pieces joined from the right onto `rest`.
spec fn joined_onto(pieces: Seq<Seq<char>>, rest: Seq<char>) -> Seq<char>
    decreases pieces.len(),
{
    if pieces.len() == 0 {
        rest
    } else {
        pieces[0] + joined_onto(pieces.drop_first(), rest)
    }
}

proof fn lemma_joined(pieces: Seq<Seq<char>>, rest: Seq<char>)
    ensures
        joined(pieces) + rest == joined_onto(pieces, rest),
    decreases pieces.len(),
{
    if pieces.len() == 0 {
        assert(Seq::<char>::empty() + rest =~= rest);
    } else {
        let init = pieces.drop_last();
        lemma_joined(init, pieces.last() + rest);
        lemma_assoc(joined(init), pieces.last(), rest);
        lemma_joined_onto_push(init, pieces.last(), rest);
        assert(init.push(pieces.last()) =~= pieces);
    }
}

proof fn lemma_joined_onto_push(pieces: Seq<Seq<char>>, last: Seq<char>, rest: Seq<char>)
    ensures
        joined_onto(pieces.push(last), rest) == joined_onto(pieces, last + rest),
    decreases pieces.len(),
{
    if pieces.len() == 0 {
        let single = pieces.push(last);
        assert(single.drop_first() =~= Seq::<Seq<char>>::empty());
        assert(single[0] == last);
        assert(joined_onto(single.drop_first(), rest) == rest);
        assert(joined_onto(pieces, last + rest) == last + rest);
    } else {
        assert(pieces.push(last).drop_first() =~= pieces.drop_first().push(last));
        assert(pieces.push(last)[0] == pieces[0]);
        lemma_joined_onto_push(pieces.drop_first(), last, rest);
    }
}

proof fn lemma_function_tail(
    xe: crate::effects::EffectSummary,
    xl: CallableLifetimeSummary,
    s: Seq<char>,
    ye: crate::effects::EffectSummary,
    yl: CallableLifetimeSummary,
    t: Seq<char>,
)
    requires
        "];E"@ + (decimal_text(xe.mask() as nat) + (";"@ + (lifetime_text(xl) + ("])"@ + s)))) == "];E"@ + (
        decimal_text(ye.mask() as nat) + (";"@ + (lifetime_text(yl) + ("])"@ + t)))),
    ensures
        xe.mask() == ye.mask(),
        xl@ == yl@,
        s == t,
{
    reveal_strlit(";");
    reveal_strlit("])");
    let semi = ";"@;
    let end = "])"@;
    lemma_strip("];E"@, decimal_text(xe.mask() as nat) + (semi + (lifetime_text(xl) + (end + s))), decimal_text(ye.mask() as nat) + (semi + (lifetime_text(yl) + (end + t))));
    lemma_decimal_prefix(xe.mask() as nat, semi + (lifetime_text(xl) + (end + s)), ye.mask() as nat, semi + (lifetime_text(yl) + (end + t)));
    lemma_strip(semi, lifetime_text(xl) + (end + s), lifetime_text(yl) + (end + t));
    lemma_lifetime_prefix(xl, end + s, yl, end + t);
    lemma_strip(end, s, t);
}

#[verifier::rlimit(40)]
proof fn lemma_function_prefix(a: CanonicalTypeIdentity, s: Seq<char>, b: CanonicalTypeIdentity, t: Seq<char>)
    requires
        type_descriptor(a) + s == type_descriptor(b) + t,
        a is Function,
        b is Function,
    ensures
        shape(a) == shape(b),
        s == t,
    decreases a, 0nat,
{
    reveal_strlit("F(");
    reveal_strlit("1");
    reveal_strlit("0");
    reveal_strlit(";[");
    reveal_strlit("];[");
    reveal_strlit("];E");
    match (a, b) {
        (
            CanonicalTypeIdentity::Function {
                is_async: x_async,
                parameters: xp,
                results: xr,
                effects: xe,
                lifetime_summary: xl,
            },
            CanonicalTypeIdentity::Function {
                is_async: y_async,
                parameters: yp,
                results: yr,
                effects: ye,
                lifetime_summary: yl,
            },
        ) => {
            let xb = if x_async { "1"@ } else { "0"@ };
            let yb = if y_async { "1"@ } else { "0"@ };
            let start = ";["@;
            let between = "];["@;
            let tx = "];E"@ + (decimal_text(xe.mask() as nat) + (";"@ + (lifetime_text(xl) + ("])"@ + s))));
            let ty = "];E"@ + (decimal_text(ye.mask() as nat) + (";"@ + (lifetime_text(yl) + ("])"@ + t))));
            let e = "];E"@;
            let semi = ";"@;
            let end = "])"@;
            let xs_pieces = seq!["F("@, xb, start, list_descriptor(xp@), between, list_descriptor(xr@), e, decimal_text(xe.mask() as nat), semi, lifetime_text(xl), end];
            let ys_pieces = seq!["F("@, yb, start, list_descriptor(yp@), between, list_descriptor(yr@), e, decimal_text(ye.mask() as nat), semi, lifetime_text(yl), end];
            reveal_with_fuel(joined, 12);
            reveal_with_fuel(joined_onto, 12);
            assert(joined(xs_pieces) == type_descriptor(a));
            assert(joined(ys_pieces) == type_descriptor(b));
            lemma_joined(xs_pieces, s);
            lemma_joined(ys_pieces, t);
            assert(type_descriptor(a) + s == "F("@ + (xb + (start + (list_descriptor(xp@) + (between + (list_descriptor(xr@) + tx))))));
            assert(type_descriptor(b) + t == "F("@ + (yb + (start + (list_descriptor(yp@) + (between + (list_descriptor(yr@) + ty))))));
            let x_rest = start + (list_descriptor(xp@) + (between + (list_descriptor(xr@) + tx)));
            let y_rest = start + (list_descriptor(yp@) + (between + (list_descriptor(yr@) + ty)));
            lemma_strip("F("@, xb + x_rest, yb + y_rest);
            assert((xb + x_rest)[0] == xb[0]);
            assert((yb + y_rest)[0] == yb[0]);
            assert(x_async == y_async);
            lemma_strip(xb, x_rest, y_rest);
            lemma_strip(start, list_descriptor(xp@) + (between + (list_descriptor(xr@) + tx)), list_descriptor(yp@) + (between + (list_descriptor(yr@) + ty)));
            lemma_list_prefix(xp@, between + (list_descriptor(xr@) + tx), yp@, between + (list_descriptor(yr@) + ty));
            lemma_strip(between, list_descriptor(xr@) + tx, list_descriptor(yr@) + ty);
            lemma_list_prefix(xr@, tx, yr@, ty);
            lemma_function_tail(xe, xl, s, ye, yl, t);
        },
        _ => {},
    }
}

/// Lists of descriptors followed by a closing bracket are read back
/// unambiguously.
proof fn lemma_list_prefix(xs: Seq<CanonicalTypeIdentity>, s: Seq<char>, ys: Seq<CanonicalTypeIdentity>, t: Seq<char>)
    requires
        list_descriptor(xs) + s == list_descriptor(ys) + t,
        s.len() > 0 && s[0] == ']',
        t.len() > 0 && t[0] == ']',
    ensures
        shapes(xs) == shapes(ys),
        s == t,
    decreases xs, 1nat,
{
    reveal_strlit(",");
    if xs.len() > 0 {
        lemma_list_cons(xs);
        lemma_tag(xs[0]);
    }
    if ys.len() > 0 {
        lemma_list_cons(ys);
        lemma_tag(ys[0]);
    }
    if xs.len() == 0 && ys.len() == 0 {
        assert(s =~= Seq::<char>::empty() + s);
        assert(t =~= Seq::<char>::empty() + t);
    } else if xs.len() == 0 {
        assert(Seq::<char>::empty() + s =~= s);
        assert((list_descriptor(ys) + t)[0] == type_descriptor(ys[0])[0]);
    } else if ys.len() == 0 {
        assert(Seq::<char>::empty() + t =~= t);
        assert((list_descriptor(xs) + s)[0] == type_descriptor(xs[0])[0]);
    } else {
        let rx = if xs.len() == 1 {
            Seq::<char>::empty()
        } else {
            ","@ + list_descriptor(xs.drop_first())
        };
        let ry = if ys.len() == 1 {
            Seq::<char>::empty()
        } else {
            ","@ + list_descriptor(ys.drop_first())
        };
        lemma_assoc(type_descriptor(xs[0]), rx, s);
        lemma_assoc(type_descriptor(ys[0]), ry, t);
        lemma_type_prefix(xs[0], rx + s, ys[0], ry + t);
        if xs.len() == 1 {
            assert(rx + s =~= s);
            if ys.len() > 1 {
                assert((ry + t)[0] == ',');
            }
            assert(ry + t =~= t);
            assert(shapes(xs.drop_first()) =~= Seq::<crate::descriptors::IdentityShape>::empty());
            assert(shapes(ys.drop_first()) =~= Seq::<crate::descriptors::IdentityShape>::empty());
        } else {
            assert((rx + s)[0] == ',');
            if ys.len() == 1 {
                assert(ry + t =~= t);
            }
            lemma_assoc(","@, list_descriptor(xs.drop_first()), s);
            lemma_assoc(","@, list_descriptor(ys.drop_first()), t);
            lemma_strip(","@, list_descriptor(xs.drop_first()) + s, list_descriptor(ys.drop_first()) + t);
            lemma_list_prefix(xs.drop_first(), s, ys.drop_first(), t);
        }
    }
}

/// Two identities with one descriptor have one structure.
pub proof fn law_descriptor_identifies_type(a: CanonicalTypeIdentity, b: CanonicalTypeIdentity)
    requires
        type_descriptor(a) == type_descriptor(b),
    ensures
        shape(a) == shape(b),
{
    assert(type_descriptor(a) + Seq::<char>::empty() =~= type_descriptor(b) + Seq::<char>::empty());
    lemma_type_prefix(a, Seq::<char>::empty(), b, Seq::<char>::empty());
}

/// Two nominal identities with one descriptor have one definition and
/// arguments of one structure.
pub proof fn law_nominal_descriptor_identifies_type(a: CanonicalNominalIdentity, b: CanonicalNominalIdentity)
    requires
        nominal_descriptor(a) == nominal_descriptor(b),
    ensures
        a.definition == b.definition,
        nominal_shapes(a) == nominal_shapes(b),
{
    let x = CanonicalTypeIdentity::Class(a);
    let y = CanonicalTypeIdentity::Class(b);
    assert(type_descriptor(x) == type_descriptor(y));
    law_descriptor_identifies_type(x, y);
}

fn copy_identity(identity: &CanonicalTypeIdentity) -> (r: CanonicalTypeIdentity)
    ensures
        shape(r) == shape(*identity),
    decreases identity,
{
    match identity {
        CanonicalTypeIdentity::Primitive(p) => CanonicalTypeIdentity::Primitive(*p),
        CanonicalTypeIdentity::Record(symbol) => CanonicalTypeIdentity::Record(*symbol),
        CanonicalTypeIdentity::Class(nominal) => CanonicalTypeIdentity::Class(copy_nominal(nominal)),
        CanonicalTypeIdentity::Interface(nominal) => CanonicalTypeIdentity::Interface(copy_nominal(nominal)),
        CanonicalTypeIdentity::Tuple(elements) => CanonicalTypeIdentity::Tuple(copy_identities(elements)),
        CanonicalTypeIdentity::Function { is_async, parameters, results, effects, lifetime_summary } => {
            CanonicalTypeIdentity::Function {
                is_async: *is_async,
                parameters: copy_identities(parameters),
                results: copy_identities(results),
                effects: *effects,
                lifetime_summary: lifetime_summary.clone(),
            }
        },
        CanonicalTypeIdentity::Array(element) => CanonicalTypeIdentity::Array(Box::new(copy_identity(element))),
        CanonicalTypeIdentity::Table { key, value } => CanonicalTypeIdentity::Table {
            key: Box::new(copy_identity(key)),
            value: Box::new(copy_identity(value)),
        },
        CanonicalTypeIdentity::Optional(element) => CanonicalTypeIdentity::Optional(
            Box::new(copy_identity(element)),
        ),
        CanonicalTypeIdentity::Builtin { definition, arguments } => CanonicalTypeIdentity::Builtin {
            definition: *definition,
            arguments: copy_identities(arguments),
        },
        CanonicalTypeIdentity::Union(elements) => CanonicalTypeIdentity::Union(copy_identities(elements)),
    }
}

fn copy_identities(identities: &Vec<CanonicalTypeIdentity>) -> (r: Vec<CanonicalTypeIdentity>)
    ensures
        shapes(r@) == shapes(identities@),
    decreases identities,
{
    let mut out: Vec<CanonicalTypeIdentity> = Vec::new();
    let mut i: usize = 0;
    assert(identities@.subrange(0, 0) =~= out@);
    while i < identities.len()
        invariant
            i <= identities@.len(),
            shapes(out@) == shapes(identities@.subrange(0, i as int)),
        decreases identities.len() - i,
    {
        proof {
            assert(decreases_to!(identities => identities@[i as int]));
        }
        let ghost before = out@;
        out.push(copy_identity(&identities[i]));
        proof {
            let next = identities@.subrange(0, i + 1);
            assert(next.drop_last() =~= identities@.subrange(0, i as int));
            assert(out@.drop_last() =~= before);
            assert(shapes(out@) == shapes(next));
        }
        i = i + 1;
    }
    assert(identities@.subrange(0, identities@.len() as int) =~= identities@);
    out
}

fn copy_nominal(nominal: &CanonicalNominalIdentity) -> (r: CanonicalNominalIdentity)
    ensures
        r.definition == nominal.definition,
        nominal_shapes(r) == nominal_shapes(*nominal),
    decreases nominal,
{
    CanonicalNominalIdentity { definition: nominal.definition, arguments: copy_identities(&nominal.arguments) }
}

impl Clone for CanonicalTypeIdentity {
    fn clone(&self) -> (r: Self)
        ensures
            shape(r) == shape(*self),
    {
        copy_identity(self)
    }
}

impl Clone for CanonicalNominalIdentity {
    fn clone(&self) -> (r: Self)
        ensures
            r.definition == self.definition,
            nominal_shapes(r) == nominal_shapes(*self),
    {
        copy_nominal(self)
    }
}

} // verus!
