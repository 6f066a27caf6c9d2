//! Typed constants: field defaults, the operators they can be combined
//! with, and which constants a type admits.
use vstd::prelude::*;

use std::cmp::Ordering;

use crate::arena::TypeArena;
use crate::attributes::AttributeConstant;
use crate::ids::{FieldId, SymbolId, TypeId};
use crate::kinds::{first_schema_match, primitive_for_source_name, primitive_schema, IntegerKind, PrimitiveType};
use crate::numeric::{truncating_div, truncating_rem, FloatKind, FloatValue, IntegerValue, NumericError};
use crate::numeric_order::{float_partial_ordering, int_ordering};
use crate::semantic::{SemanticType, SemanticTypeView};
use crate::text::str_eq;

verus! {

/// A typed immutable field default retained by semantic analysis.
#[derive(Debug)]
pub enum FieldDefault {
    Nil,
    Boolean(bool),
    Integer(IntegerValue),
    Float(FloatValue),
    String(String),
}

/// Binary operators of constant expressions.
#[derive(Clone, Copy, Debug, PartialEq, Eq, Structural)]
pub enum BinaryOperator {
    Or,
    And,
    Equal,
    NotEqual,
    LessThan,
    GreaterThan,
    Add,
    Subtract,
    Multiply,
    Divide,
    Remainder,
}

/// Unary operators of constant expressions.
#[derive(Clone, Copy, Debug, PartialEq, Eq, Structural)]
pub enum UnaryOperator {
    Not,
    Negate,
}

/// The source spelling of a unary operator.
pub fn unary_text(operator: UnaryOperator) -> (r: &'static str)
    ensures
        r@ == match operator {
            UnaryOperator::Not => "not"@,
            UnaryOperator::Negate => "-"@,
        },
{
    match operator {
        UnaryOperator::Not => "not",
        UnaryOperator::Negate => "-",
    }
}

/// The source spelling of a binary operator.
pub fn binary_text(operator: BinaryOperator) -> (r: &'static str)
    ensures
        r@ == binary_spelling(operator),
{
    match operator {
        BinaryOperator::Or => "or",
        BinaryOperator::And => "and",
        BinaryOperator::Equal => "==",
        BinaryOperator::NotEqual => "~=",
        BinaryOperator::LessThan => "<",
        BinaryOperator::GreaterThan => ">",
        BinaryOperator::Add => "+",
        BinaryOperator::Subtract => "-",
        BinaryOperator::Multiply => "*",
        BinaryOperator::Divide => "/",
        BinaryOperator::Remainder => "%",
    }
}

/// The source spelling of a binary operator.
pub open spec fn binary_spelling(operator: BinaryOperator) -> Seq<char> {
    match operator {
        BinaryOperator::Or => "or"@,
        BinaryOperator::And => "and"@,
        BinaryOperator::Equal => "=="@,
        BinaryOperator::NotEqual => "~="@,
        BinaryOperator::LessThan => "<"@,
        BinaryOperator::GreaterThan => ">"@,
        BinaryOperator::Add => "+"@,
        BinaryOperator::Subtract => "-"@,
        BinaryOperator::Multiply => "*"@,
        BinaryOperator::Divide => "/"@,
        BinaryOperator::Remainder => "%"@,
    }
}

/// The name of a default's kind of value in diagnostics.
pub open spec fn default_kind_name(value: FieldDefault) -> Seq<char> {
    match value {
        FieldDefault::Nil => "nil"@,
        FieldDefault::Boolean(_) => "Boolean"@,
        FieldDefault::Integer(_) => "integer"@,
        FieldDefault::Float(_) => "float"@,
        FieldDefault::String(_) => "String"@,
    }
}

/// The name of a default's kind of value in diagnostics.
pub fn default_name(value: &FieldDefault) -> (r: &'static str)
    ensures
        r@ == default_kind_name(*value),
{
    match value {
        FieldDefault::Nil => "nil",
        FieldDefault::Boolean(_) => "Boolean",
        FieldDefault::Integer(_) => "integer",
        FieldDefault::Float(_) => "float",
        FieldDefault::String(_) => "String",
    }
}

/// Whether the type is an integer or floating-point primitive.
pub open spec fn numeric_type(types: Seq<SemanticTypeView>, id: TypeId) -> bool {
    (id.0 as int) < types.len() && (types[id.0 as int] matches SemanticTypeView::Primitive(p) && (p is Integer
        || p is Float32 || p is Float64))
}

/// Whether `type_id` names a numeric primitive.
pub fn is_numeric(arena: &TypeArena, type_id: TypeId) -> (r: bool)
    ensures
        r == numeric_type(arena.types(), type_id),
{
    match arena.get(type_id) {
        Some(SemanticType::Primitive(p)) => match p {
            PrimitiveType::Integer(_) | PrimitiveType::Float32 | PrimitiveType::Float64 => true,
            _ => false,
        },
        _ => false,
    }
}

/// The numeric members of a union, in order.
pub open spec fn numeric_members(types: Seq<SemanticTypeView>, members: Seq<TypeId>) -> Seq<TypeId>
    decreases members.len(),
{
    if members.len() == 0 {
        Seq::empty()
    } else {
        let rest = numeric_members(types, members.drop_last());
        if numeric_type(types, members.last()) {
            rest.push(members.last())
        } else {
            rest
        }
    }
}

/// The numeric type a literal takes where `expected` is expected: the type
/// itself when numeric, else the one numeric member of a union.
pub open spec fn numeric_hint(types: Seq<SemanticTypeView>, expected: TypeId) -> Option<TypeId> {
    if numeric_type(types, expected) {
        Some(expected)
    } else if (expected.0 as int) < types.len() && types[expected.0 as int] is Union {
        let numerics = numeric_members(types, types[expected.0 as int]->Union_0);
        if numerics.len() == 1 {
            Some(numerics[0])
        } else {
            None
        }
    } else {
        None
    }
}

/// The numeric type a literal takes where `expected` is expected.
pub fn numeric_type_for_expected(arena: &TypeArena, expected: TypeId) -> (r: Option<TypeId>)
    ensures
        r == numeric_hint(arena.types(), expected),
{
    if is_numeric(arena, expected) {
        return Some(expected);
    }
    match arena.get(expected) {
        Some(SemanticType::Union(members)) => {
            let ghost tv = arena.types();
            let mut count: usize = 0;
            let mut first: Option<TypeId> = None;
            let mut i: usize = 0;
            while i < members.len()
                invariant
                    i <= members@.len(),
                    tv == arena.types(),
                    count == numeric_members(tv, members@.take(i as int)).len(),
                    count <= i,
                    count > 0 ==> first == Some(numeric_members(tv, members@.take(i as int))[0]),
                    count == 0 ==> first is None,
                decreases members.len() - i,
            {
                let m = members[i];
                proof {
                    assert(members@.take(i + 1).drop_last() =~= members@.take(i as int));
                    assert(members@.take(i + 1).last() == m);
                }
                if is_numeric(arena, m) {
                    if count == 0 {
                        first = Some(m);
                    }
                    count = count + 1;
                }
                i = i + 1;
            }
            assert(members@.take(i as int) =~= members@);
            if count == 1 {
                first
            } else {
                None
            }
        },
        _ => None,
    }
}

/// Whether a field default is a value of type `expected`: a member of a
/// union, `nil` or the inner type of an optional, or the matching primitive.
pub open spec fn default_fits(types: Seq<SemanticTypeView>, value: FieldDefault, expected: int) -> bool
    decreases expected,
{
    if 0 <= expected < types.len() {
        match types[expected] {
            SemanticTypeView::Union(members) => exists|k: int|
                0 <= k < members.len() && (#[trigger] members[k]).0 < expected && default_fits(
                    types,
                    value,
                    members[k].0 as int,
                ),
            SemanticTypeView::Optional(inner) => value is Nil || (inner.0 < expected && default_fits(
                types,
                value,
                inner.0 as int,
            )),
            SemanticTypeView::Primitive(p) => default_fits_primitive(value, p),
            _ => false,
        }
    } else {
        false
    }
}

/// Whether a field default is a value of the primitive type `p`.
pub open spec fn default_fits_primitive(value: FieldDefault, p: PrimitiveType) -> bool {
    match (value, p) {
        (FieldDefault::Nil, PrimitiveType::Nil) => true,
        (FieldDefault::Boolean(_), PrimitiveType::Boolean) => true,
        (FieldDefault::String(_), PrimitiveType::String) => true,
        (FieldDefault::Integer(v), PrimitiveType::Integer(kind)) => v.integer_kind() == kind,
        (FieldDefault::Float(v), PrimitiveType::Float32) => v.float_kind() == FloatKind::Float32,
        (FieldDefault::Float(v), PrimitiveType::Float64) => v.float_kind() == FloatKind::Float64,
        _ => false,
    }
}

fn fits_primitive(value: &FieldDefault, p: PrimitiveType) -> (r: bool)
    ensures
        r == default_fits_primitive(*value, p),
{
    match (value, p) {
        (FieldDefault::Nil, PrimitiveType::Nil) => true,
        (FieldDefault::Boolean(_), PrimitiveType::Boolean) => true,
        (FieldDefault::String(_), PrimitiveType::String) => true,
        (FieldDefault::Integer(v), PrimitiveType::Integer(kind)) => v.kind() == kind,
        (FieldDefault::Float(v), PrimitiveType::Float32) => v.kind() == FloatKind::Float32,
        (FieldDefault::Float(v), PrimitiveType::Float64) => v.kind() == FloatKind::Float64,
        _ => false,
    }
}

/// Whether a field default is a value of type `expected`.
pub fn field_default_matches_type(arena: &TypeArena, value: &FieldDefault, expected: TypeId) -> (r: bool)
    ensures
        r == default_fits(arena.types(), *value, expected.0 as int),
    decreases expected.0,
{
    proof {
        use_type_invariant(arena);
    }
    let ghost tv = arena.types();
    match arena.get(expected) {
        Some(SemanticType::Union(members)) => {
            let mut i: usize = 0;
            while i < members.len()
                invariant
                    i <= members@.len(),
                    tv == arena.types(),
                    arena.well_formed(),
                    0 <= expected.0 < tv.len(),
                    tv[expected.0 as int] == SemanticTypeView::Union(members@),
                    forall|k: int| 0 <= k < i ==> !default_fits(tv, *value, (#[trigger] members@[k]).0 as int),
                decreases members.len() - i,
            {
                proof {
                    arena.lemma_refers_to_earlier(expected.0 as int, i as int);
                }
                if field_default_matches_type(arena, value, members[i]) {
                    return true;
                }
                i = i + 1;
            }
            false
        },
        Some(SemanticType::Optional(inner)) => {
            if let FieldDefault::Nil = value {
                return true;
            }
            proof {
                arena.lemma_refers_to_earlier(expected.0 as int, 0);
            }
            field_default_matches_type(arena, value, *inner)
        },
        Some(SemanticType::Primitive(p)) => fits_primitive(value, *p),
        _ => false,
    }
}

/// Whether an attribute constant is a value of type `expected`: a member of
/// a union, `nil` or the inner type of an optional, a tuple element by
/// element, or the matching primitive.
pub open spec fn constant_fits(types: Seq<SemanticTypeView>, value: AttributeConstant, expected: int) -> bool
    decreases expected,
{
    if 0 <= expected < types.len() {
        match types[expected] {
            SemanticTypeView::Union(members) => exists|k: int|
                0 <= k < members.len() && (#[trigger] members[k]).0 < expected && constant_fits(
                    types,
                    value,
                    members[k].0 as int,
                ),
            SemanticTypeView::Optional(inner) => value is Nil || (inner.0 < expected && constant_fits(
                types,
                value,
                inner.0 as int,
            )),
            SemanticTypeView::Tuple(elements) => match value {
                AttributeConstant::Tuple(values) => values@.len() == elements.len() && forall|k: int|
                    0 <= k < elements.len() ==> (#[trigger] elements[k]).0 < expected && constant_fits(
                        types,
                        values@[k],
                        elements[k].0 as int,
                    ),
                _ => false,
            },
            SemanticTypeView::Primitive(p) => constant_fits_primitive(value, p),
            _ => false,
        }
    } else {
        false
    }
}

/// Whether an attribute constant is a value of the primitive type `p`.
pub open spec fn constant_fits_primitive(value: AttributeConstant, p: PrimitiveType) -> bool {
    match (value, p) {
        (AttributeConstant::Nil, PrimitiveType::Nil) => true,
        (AttributeConstant::Boolean(_), PrimitiveType::Boolean) => true,
        (AttributeConstant::String(_), PrimitiveType::String) => true,
        (AttributeConstant::Integer(v), PrimitiveType::Integer(kind)) => v.integer_kind() == kind,
        (AttributeConstant::Float(v), PrimitiveType::Float32) => v.float_kind() == FloatKind::Float32,
        (AttributeConstant::Float(v), PrimitiveType::Float64) => v.float_kind() == FloatKind::Float64,
        _ => false,
    }
}

fn constant_fits_primitive_exec(value: &AttributeConstant, p: PrimitiveType) -> (r: bool)
    ensures
        r == constant_fits_primitive(*value, p),
{
    match (value, p) {
        (AttributeConstant::Nil, PrimitiveType::Nil) => true,
        (AttributeConstant::Boolean(_), PrimitiveType::Boolean) => true,
        (AttributeConstant::String(_), PrimitiveType::String) => true,
        (AttributeConstant::Integer(v), PrimitiveType::Integer(kind)) => v.kind() == kind,
        (AttributeConstant::Float(v), PrimitiveType::Float32) => v.kind() == FloatKind::Float32,
        (AttributeConstant::Float(v), PrimitiveType::Float64) => v.kind() == FloatKind::Float64,
        _ => false,
    }
}

/// Whether an attribute constant is a value of type `expected`.
pub fn attribute_constant_matches_type(arena: &TypeArena, value: &AttributeConstant, expected: TypeId) -> (r:
    bool)
    ensures
        r == constant_fits(arena.types(), *value, expected.0 as int),
    decreases expected.0,
{
    proof {
        use_type_invariant(arena);
    }
    let ghost tv = arena.types();
    match arena.get(expected) {
        Some(SemanticType::Union(members)) => {
            let mut i: usize = 0;
            while i < members.len()
                invariant
                    i <= members@.len(),
                    tv == arena.types(),
                    arena.well_formed(),
                    0 <= expected.0 < tv.len(),
                    tv[expected.0 as int] == SemanticTypeView::Union(members@),
                    forall|k: int| 0 <= k < i ==> !constant_fits(tv, *value, (#[trigger] members@[k]).0 as int),
                decreases members.len() - i,
            {
                proof {
                    arena.lemma_refers_to_earlier(expected.0 as int, i as int);
                }
                if attribute_constant_matches_type(arena, value, members[i]) {
                    return true;
                }
                i = i + 1;
            }
            false
        },
        Some(SemanticType::Optional(inner)) => {
            if let AttributeConstant::Nil = value {
                return true;
            }
            proof {
                arena.lemma_refers_to_earlier(expected.0 as int, 0);
            }
            attribute_constant_matches_type(arena, value, *inner)
        },
        Some(SemanticType::Tuple(element_types)) => {
            let values = match value {
                AttributeConstant::Tuple(values) => values,
                _ => {
                    return false;
                },
            };
            if values.len() != element_types.len() {
                return false;
            }
            let mut i: usize = 0;
            while i < element_types.len()
                invariant
                    i <= element_types@.len(),
                    values@.len() == element_types@.len(),
                    *value == AttributeConstant::Tuple(*values),
                    tv == arena.types(),
                    arena.well_formed(),
                    0 <= expected.0 < tv.len(),
                    tv[expected.0 as int] == SemanticTypeView::Tuple(element_types@),
                    forall|k: int|
                        0 <= k < i ==> (#[trigger] element_types@[k]).0 < expected.0 && constant_fits(
                            tv,
                            values@[k],
                            element_types@[k].0 as int,
                        ),
                decreases element_types.len() - i,
            {
                proof {
                    arena.lemma_refers_to_earlier(expected.0 as int, i as int);
                }
                if !attribute_constant_matches_type(arena, &values[i], element_types[i]) {
                    return false;
                }
                i = i + 1;
            }
            true
        },
        Some(SemanticType::Primitive(p)) => constant_fits_primitive_exec(value, *p),
        _ => false,
    }
}

} // verus!

verus! {

/// Why a constant expression has no value.
#[derive(Clone, Copy, Debug, PartialEq, Eq, Structural)]
pub enum ConstantFailure {
    /// Checked arithmetic failed.
    Numeric(NumericError),
    /// The operator does not apply to operands of these kinds.
    InvalidBinaryOperator { operator: BinaryOperator, left: DefaultKind, right: DefaultKind },
    /// The operator does not apply to an operand of this kind.
    InvalidUnaryOperator { operator: UnaryOperator, operand: DefaultKind },
    /// The operands cannot be ordered; no diagnostic is owed.
    Unordered,
    /// The expression is not a constant expression.
    Ineligible,
    /// The two operands of a binary operation have different types.
    OperandTypeMismatch { left: TypeId, right: TypeId },
    /// A number literal where no numeric type is expected; no diagnostic is owed.
    NoNumericType,
    /// The value's type is not assignable to the field's type.
    FieldTypeMismatch { expected: TypeId, found: TypeId },
}

/// The outcome of evaluating one constant operation.
#[derive(Debug)]
pub enum ConstantEvaluation {
    /// The value and its type.
    Value { value: FieldDefault, type_id: TypeId },
    Failed(ConstantFailure),
    /// Floating-point arithmetic, which the host performs on these operands,
    /// both of one format.
    FloatArithmetic { operator: BinaryOperator, left: FloatValue, right: FloatValue },
}

/// The identity of `Boolean` in every arena.
pub open spec fn boolean_type_id() -> TypeId {
    TypeId(1)
}

/// `r` is the Boolean constant `b`.
pub open spec fn is_boolean_result(r: ConstantEvaluation, b: bool) -> bool {
    r matches ConstantEvaluation::Value { value: FieldDefault::Boolean(x), type_id } && x == b && type_id
        == boolean_type_id()
}

/// `r` is the integer outcome `outcome` of type `type_id`.
pub open spec fn is_integer_result(r: ConstantEvaluation, outcome: Result<(IntegerKind, int), NumericError>, type_id: TypeId) -> bool {
    match outcome {
        Ok((kind, x)) => r matches ConstantEvaluation::Value { value: FieldDefault::Integer(v), type_id: t } && v.integer_kind()
            == kind && v.value() == x && t == type_id,
        Err(e) => r == ConstantEvaluation::Failed(ConstantFailure::Numeric(e)),
    }
}

/// The value `x` in kind `kind` when it fits, else `failure`.
pub open spec fn integer_result(kind: IntegerKind, x: int, failure: NumericError) -> Result<(IntegerKind, int), NumericError> {
    if kind.holds(x) {
        Ok((kind, x))
    } else {
        Err(failure)
    }
}

/// Checked integer arithmetic in the operands' common kind.
pub open spec fn integer_arithmetic(operator: BinaryOperator, a: IntegerValue, b: IntegerValue) -> Result<
    (IntegerKind, int),
    NumericError,
> {
    let kind = a.integer_kind();
    if kind != b.integer_kind() {
        Err(NumericError::KindMismatch)
    } else {
        match operator {
            BinaryOperator::Add => integer_result(kind, a.value() + b.value(), NumericError::Overflow),
            BinaryOperator::Subtract => integer_result(kind, a.value() - b.value(), NumericError::Overflow),
            BinaryOperator::Multiply => integer_result(kind, a.value() * b.value(), NumericError::Overflow),
            BinaryOperator::Divide => if b.value() == 0 {
                Err(NumericError::DivisionByZero)
            } else {
                integer_result(kind, truncating_div(a.value(), b.value()), NumericError::Overflow)
            },
            _ => if b.value() == 0 {
                Err(NumericError::DivisionByZero)
            } else {
                integer_result(kind, truncating_rem(a.value(), b.value()), NumericError::Overflow)
            },
        }
    }
}

/// The arithmetic operators.
pub open spec fn is_arithmetic(operator: BinaryOperator) -> bool {
    operator is Add || operator is Subtract || operator is Multiply || operator is Divide || operator is Remainder
}

/// Whether two non-float defaults are equal.
pub open spec fn defaults_equal(a: FieldDefault, b: FieldDefault) -> bool {
    match (a, b) {
        (FieldDefault::Nil, FieldDefault::Nil) => true,
        (FieldDefault::Boolean(x), FieldDefault::Boolean(y)) => x == y,
        (FieldDefault::Integer(x), FieldDefault::Integer(y)) => x.integer_kind() == y.integer_kind() && x.value()
            == y.value(),
        (FieldDefault::String(x), FieldDefault::String(y)) => x@ == y@,
        _ => false,
    }
}

/// What evaluating `left operator right` gives for operands of type
/// `operand_type`: checked integer arithmetic; float arithmetic left to
/// the host; integer and float ordering; Boolean connectives; equality of
/// non-float values; otherwise an invalid operator.
pub open spec fn binary_evaluation(
    operator: BinaryOperator,
    operand_type: TypeId,
    left: FieldDefault,
    right: FieldDefault,
    r: ConstantEvaluation,
) -> bool {
    match (left, right) {
        (FieldDefault::Integer(a), FieldDefault::Integer(b)) if is_arithmetic(operator) => is_integer_result(
            r,
            integer_arithmetic(operator, a, b),
            operand_type,
        ),
        (FieldDefault::Float(a), FieldDefault::Float(b)) if is_arithmetic(operator) && !(operator is Remainder) =>
            if a.float_kind() != b.float_kind() {
            r == ConstantEvaluation::Failed(ConstantFailure::Numeric(NumericError::KindMismatch))
        } else {
            r == ConstantEvaluation::FloatArithmetic { operator, left: a, right: b }
        },
        (FieldDefault::Integer(a), FieldDefault::Integer(b)) if operator is LessThan || operator is GreaterThan =>
            if a.integer_kind() != b.integer_kind() {
            r == ConstantEvaluation::Failed(ConstantFailure::Unordered)
        } else {
            is_boolean_result(
                r,
                int_ordering(a.value(), b.value()) == if operator is LessThan {
                    Ordering::Less
                } else {
                    Ordering::Greater
                },
            )
        },
        (FieldDefault::Float(a), FieldDefault::Float(b)) if operator is LessThan || operator is GreaterThan =>
            if a.float_kind() != b.float_kind() {
            r == ConstantEvaluation::Failed(ConstantFailure::Unordered)
        } else {
            is_boolean_result(
                r,
                float_partial_ordering(a.float_kind(), a.raw_bits(), b.raw_bits()) == Some(
                    if operator is LessThan {
                        Ordering::Less
                    } else {
                        Ordering::Greater
                    },
                ),
            )
        },
        (FieldDefault::Boolean(a), FieldDefault::Boolean(b)) if operator is And => is_boolean_result(r, a && b),
        (FieldDefault::Boolean(a), FieldDefault::Boolean(b)) if operator is Or => is_boolean_result(r, a || b),
        _ => if (operator is Equal || operator is NotEqual) && !(left is Float) && !(right is Float) {
            is_boolean_result(r, defaults_equal(left, right) == (operator is Equal))
        } else {
            r == ConstantEvaluation::Failed(
                ConstantFailure::InvalidBinaryOperator {
                    operator,
                    left: kind_of_default(left),
                    right: kind_of_default(right),
                },
            )
        },
    }
}

/// The kinds of value a default can hold.
#[derive(Clone, Copy, Debug, PartialEq, Eq, Structural)]
pub enum DefaultKind {
    Nil,
    Boolean,
    Integer,
    Float,
    String,
}

/// The kind of value a default holds.
pub open spec fn kind_of_default(value: FieldDefault) -> DefaultKind {
    match value {
        FieldDefault::Nil => DefaultKind::Nil,
        FieldDefault::Boolean(_) => DefaultKind::Boolean,
        FieldDefault::Integer(_) => DefaultKind::Integer,
        FieldDefault::Float(_) => DefaultKind::Float,
        FieldDefault::String(_) => DefaultKind::String,
    }
}

/// The kind of value a default holds.
pub fn default_kind(value: &FieldDefault) -> (r: DefaultKind)
    ensures
        r == kind_of_default(*value),
{
    match value {
        FieldDefault::Nil => DefaultKind::Nil,
        FieldDefault::Boolean(_) => DefaultKind::Boolean,
        FieldDefault::Integer(_) => DefaultKind::Integer,
        FieldDefault::Float(_) => DefaultKind::Float,
        FieldDefault::String(_) => DefaultKind::String,
    }
}

proof fn lemma_boolean_spelling()
    ensures
        primitive_for_source_name("Boolean"@) == Some(PrimitiveType::Boolean),
{
    reveal_strlit("nil");
    reveal_strlit("Boolean");
    assert("nil"@ != "Boolean"@) by {
        assert("nil"@[0] != "Boolean"@[0]);
    }
    assert(first_schema_match("Boolean"@, 1));
    let c = choose|i: int| first_schema_match("Boolean"@, i);
    if c > 1 {
        assert(primitive_schema()[1].0 == "Boolean"@);
    }
}

fn boolean_constant(arena: &TypeArena, value: bool) -> (r: ConstantEvaluation)
    ensures
        is_boolean_result(r, value),
{
    proof {
        use_type_invariant(arena);
    }
    proof {
        arena.lemma_identity_range();
        arena.lemma_primitives_first(1);
        lemma_boolean_spelling();
    }
    match arena.source_type("Boolean") {
        Some(type_id) => {
            proof {
                if type_id.0 != 1 {
                    arena.lemma_interned_once(type_id.0 as int, 1);
                }
            }
            ConstantEvaluation::Value { value: FieldDefault::Boolean(value), type_id }
        },
        None => ConstantEvaluation::Failed(ConstantFailure::Unordered),
    }
}

fn integer_evaluation(outcome: Result<IntegerValue, NumericError>, type_id: TypeId) -> (r: ConstantEvaluation)
    ensures
        match outcome {
            Ok(v) => r == ConstantEvaluation::Value { value: FieldDefault::Integer(v), type_id },
            Err(e) => r == ConstantEvaluation::Failed(ConstantFailure::Numeric(e)),
        },
{
    match outcome {
        Ok(v) => ConstantEvaluation::Value { value: FieldDefault::Integer(v), type_id },
        Err(e) => ConstantEvaluation::Failed(ConstantFailure::Numeric(e)),
    }
}

fn integers_equal(a: IntegerValue, b: IntegerValue) -> (r: bool)
    ensures
        r == (a.integer_kind() == b.integer_kind() && a.value() == b.value()),
{
    match a.compare(b) {
        Ok(Ordering::Equal) => true,
        Ok(Ordering::Less) => false,
        Ok(Ordering::Greater) => false,
        Err(_) => false,
    }
}

fn defaults_equal_exec(a: &FieldDefault, b: &FieldDefault) -> (r: bool)
    ensures
        r == defaults_equal(*a, *b),
{
    match (a, b) {
        (FieldDefault::Nil, FieldDefault::Nil) => true,
        (FieldDefault::Boolean(x), FieldDefault::Boolean(y)) => *x == *y,
        (FieldDefault::Integer(x), FieldDefault::Integer(y)) => integers_equal(*x, *y),
        (FieldDefault::String(x), FieldDefault::String(y)) => str_eq(x.as_str(), y.as_str()),
        _ => false,
    }
}

/// The Boolean that an evaluation gives, when it gives one of type `Boolean`.
pub open spec fn boolean_value(r: ConstantEvaluation) -> Option<bool> {
    match r {
        ConstantEvaluation::Value { value: FieldDefault::Boolean(x), type_id } => if type_id == boolean_type_id() {
            Some(x)
        } else {
            None
        },
        _ => None,
    }
}

/// The Boolean connectives: for any two Boolean operands, `or` gives a
/// Boolean that is true exactly when either operand is, `and` one that is
/// true exactly when both are, and the two are related by De Morgan's law
/// through negated operands.
pub proof fn law_boolean_connectives(
    operand_type: TypeId,
    a: bool,
    b: bool,
    either: ConstantEvaluation,
    both: ConstantEvaluation,
    neither_negated: ConstantEvaluation,
)
    requires
        binary_evaluation(BinaryOperator::Or, operand_type, FieldDefault::Boolean(a), FieldDefault::Boolean(b), either),
        binary_evaluation(BinaryOperator::And, operand_type, FieldDefault::Boolean(a), FieldDefault::Boolean(b), both),
        binary_evaluation(
            BinaryOperator::And,
            operand_type,
            FieldDefault::Boolean(!a),
            FieldDefault::Boolean(!b),
            neither_negated,
        ),
    ensures
        boolean_value(either) == Some(a || b),
        boolean_value(both) == Some(a && b),
        a ==> boolean_value(either) == Some(true),
        !a ==> boolean_value(both) == Some(false),
        boolean_value(either) == Some(!boolean_value(neither_negated)->0),
{
}

/// Evaluates `left operator right` for operands of type `operand_type`.
pub fn evaluate_binary_values(
    arena: &TypeArena,
    operator: BinaryOperator,
    operand_type: TypeId,
    left: FieldDefault,
    right: FieldDefault,
) -> (r: ConstantEvaluation)
    ensures
        binary_evaluation(operator, operand_type, left, right, r),
{
    proof {
        use_type_invariant(arena);
    }
    match (&left, &right) {
        (FieldDefault::Integer(a), FieldDefault::Integer(b)) => {
            let (a, b) = (*a, *b);
            match operator {
                BinaryOperator::Add => return integer_evaluation(a.checked_add(b), operand_type),
                BinaryOperator::Subtract => return integer_evaluation(a.checked_subtract(b), operand_type),
                BinaryOperator::Multiply => return integer_evaluation(a.checked_multiply(b), operand_type),
                BinaryOperator::Divide => return integer_evaluation(a.checked_divide(b), operand_type),
                BinaryOperator::Remainder => return integer_evaluation(a.checked_remainder(b), operand_type),
                BinaryOperator::LessThan => {
                    return match a.compare(b) {
                        Ok(Ordering::Less) => boolean_constant(arena, true),
                        Ok(Ordering::Equal) => boolean_constant(arena, false),
                        Ok(Ordering::Greater) => boolean_constant(arena, false),
                        Err(_) => ConstantEvaluation::Failed(ConstantFailure::Unordered),
                    };
                },
                BinaryOperator::GreaterThan => {
                    return match a.compare(b) {
                        Ok(Ordering::Greater) => boolean_constant(arena, true),
                        Ok(Ordering::Equal) => boolean_constant(arena, false),
                        Ok(Ordering::Less) => boolean_constant(arena, false),
                        Err(_) => ConstantEvaluation::Failed(ConstantFailure::Unordered),
                    };
                },
                _ => {},
            }
        },
        (FieldDefault::Float(a), FieldDefault::Float(b)) => {
            let (a, b) = (*a, *b);
            match operator {
                BinaryOperator::Add | BinaryOperator::Subtract | BinaryOperator::Multiply
                | BinaryOperator::Divide => {
                    let same_format = match (a, b) {
                        (FloatValue::Float32(_), FloatValue::Float32(_)) => true,
                        (FloatValue::Float64(_), FloatValue::Float64(_)) => true,
                        _ => false,
                    };
                    if !same_format {
                        return ConstantEvaluation::Failed(ConstantFailure::Numeric(NumericError::KindMismatch));
                    }
                    return ConstantEvaluation::FloatArithmetic { operator, left: a, right: b };
                },
                BinaryOperator::LessThan => {
                    return match a.partial_compare(b) {
                        Ok(Some(Ordering::Less)) => boolean_constant(arena, true),
                        Ok(Some(Ordering::Equal)) => boolean_constant(arena, false),
                        Ok(Some(Ordering::Greater)) => boolean_constant(arena, false),
                        Ok(None) => boolean_constant(arena, false),
                        Err(_) => ConstantEvaluation::Failed(ConstantFailure::Unordered),
                    };
                },
                BinaryOperator::GreaterThan => {
                    return match a.partial_compare(b) {
                        Ok(Some(Ordering::Greater)) => boolean_constant(arena, true),
                        Ok(Some(Ordering::Equal)) => boolean_constant(arena, false),
                        Ok(Some(Ordering::Less)) => boolean_constant(arena, false),
                        Ok(None) => boolean_constant(arena, false),
                        Err(_) => ConstantEvaluation::Failed(ConstantFailure::Unordered),
                    };
                },
                _ => {},
            }
        },
        (FieldDefault::Boolean(a), FieldDefault::Boolean(b)) => {
            match operator {
                BinaryOperator::And => {
                    return boolean_constant(arena, *a && *b);
                },
                BinaryOperator::Or => {
                    return boolean_constant(arena, *a || *b);
                },
                _ => {},
            }
        },
        _ => {},
    }
    let left_float = match &left {
        FieldDefault::Float(_) => true,
        _ => false,
    };
    let right_float = match &right {
        FieldDefault::Float(_) => true,
        _ => false,
    };
    if (operator == BinaryOperator::Equal || operator == BinaryOperator::NotEqual) && !left_float && !right_float {
        let same = defaults_equal_exec(&left, &right);
        return boolean_constant(arena, same == (operator == BinaryOperator::Equal));
    }
    ConstantEvaluation::Failed(
        ConstantFailure::InvalidBinaryOperator {
            operator,
            left: default_kind(&left),
            right: default_kind(&right),
        },
    )
}

/// What evaluating `operator operand` gives for an operand of type
/// `operand_type`: checked integer negation, float negation, Boolean
/// negation, otherwise an invalid operator.
pub open spec fn unary_evaluation(
    operator: UnaryOperator,
    operand_type: TypeId,
    operand: FieldDefault,
    r: ConstantEvaluation,
) -> bool {
    match (operator, operand) {
        (UnaryOperator::Negate, FieldDefault::Integer(v)) => is_integer_result(
            r,
            if v.integer_kind().signed_kind() {
                integer_result(v.integer_kind(), -v.value(), NumericError::Overflow)
            } else {
                Err(NumericError::KindMismatch)
            },
            operand_type,
        ),
        (UnaryOperator::Negate, FieldDefault::Float(v)) => r matches ConstantEvaluation::Value {
            value: FieldDefault::Float(n),
            type_id,
        } && type_id == operand_type && n.float_kind() == v.float_kind() && n.raw_bits() == if v.raw_bits()
            >= crate::numeric::float_sign_bit(v.float_kind()) {
            v.raw_bits() - crate::numeric::float_sign_bit(v.float_kind())
        } else {
            v.raw_bits() + crate::numeric::float_sign_bit(v.float_kind())
        },
        (UnaryOperator::Not, FieldDefault::Boolean(b)) => is_boolean_result(r, !b),
        _ => r == ConstantEvaluation::Failed(
            ConstantFailure::InvalidUnaryOperator { operator, operand: kind_of_default(operand) },
        ),
    }
}

/// Evaluates `operator operand` for an operand of type `operand_type`.
pub fn evaluate_unary_value(arena: &TypeArena, operator: UnaryOperator, operand_type: TypeId, operand: FieldDefault) -> (r:
    ConstantEvaluation)
    ensures
        unary_evaluation(operator, operand_type, operand, r),
{
    proof {
        use_type_invariant(arena);
    }
    match (operator, &operand) {
        (UnaryOperator::Negate, FieldDefault::Integer(v)) => integer_evaluation(v.checked_negate(), operand_type),
        (UnaryOperator::Negate, FieldDefault::Float(v)) => ConstantEvaluation::Value {
            value: FieldDefault::Float(v.negate()),
            type_id: operand_type,
        },
        (UnaryOperator::Not, FieldDefault::Boolean(b)) => boolean_constant(arena, !*b),
        _ => ConstantEvaluation::Failed(
            ConstantFailure::InvalidUnaryOperator { operator, operand: default_kind(&operand) },
        ),
    }
}

} // verus!

verus! {

/// Identity of one parameter of an attribute, by position.
#[derive(Clone, Copy, Debug, PartialEq, Eq, Structural, Hash, PartialOrd, Ord)]
pub struct AttributeParameterId(pub u32);

impl AttributeParameterId {
    pub fn from_raw(raw: u32) -> (r: Self)
        ensures
            r.0 == raw,
    {
        AttributeParameterId(raw)
    }

    pub fn raw(self) -> (r: u32)
        ensures
            r == self.0,
    {
        self.0
    }
}

/// A declaration slot whose constant value is required.
#[derive(Clone, Copy, Debug, PartialEq, Eq, Structural)]
pub enum RequiredConstantTarget {
    AttributeParameter { definition: SymbolId, parameter: AttributeParameterId },
    RecordField { definition: SymbolId, field: FieldId },
    ClassField { definition: SymbolId, field: FieldId },
}

/// Why a required constant could not be installed.
#[derive(Clone, Copy, Debug, PartialEq, Eq, Structural)]
pub enum RequiredConstantError {
    UnknownTarget(RequiredConstantTarget),
    NoPendingDefault(RequiredConstantTarget),
    TypeMismatch { target: RequiredConstantTarget, expected: TypeId },
}

impl Clone for FieldDefault {
    fn clone(&self) -> (r: Self)
        ensures
            r == *self,
    {
        match self {
            FieldDefault::Nil => FieldDefault::Nil,
            FieldDefault::Boolean(b) => FieldDefault::Boolean(*b),
            FieldDefault::Integer(v) => FieldDefault::Integer(*v),
            FieldDefault::Float(v) => FieldDefault::Float(*v),
            FieldDefault::String(s) => FieldDefault::String(s.clone()),
        }
    }
}

} // verus!
