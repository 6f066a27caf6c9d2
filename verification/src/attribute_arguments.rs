//! The arguments of an attribute use: each argument's constant, resolved
//! against the type of the parameter it supplies, and the binding of
//! arguments to parameters with their defaults.
//!
//! Number literals of a float parameter are parsed by the host, as for
//! field defaults: resolving stops with the request, and is run again with
//! the host's answers so far.
use vstd::prelude::*;
use vstd::string::*;

use crate::arena::TypeArena;
use crate::attributes::AttributeConstant;
use crate::constant_expressions::{ConstantExpression, FloatRequest};
use crate::attributes::{AttributeDefinition, ResolvedAttribute, ResolvedAttributeArgument};
use crate::constants::{attribute_constant_matches_type, constant_fits, AttributeParameterId, BinaryOperator, UnaryOperator};
use crate::ids::{SourceSpan, TypeId};
use crate::kinds::{IntegerKind, PrimitiveType};
use crate::numeric::{
    decimal_literal_fits, decimal_literal_value, decimal_literal_well_formed, FloatKind, FloatValue,
    IntegerValue, NumericError,
};
use crate::semantic::{SemanticType, SemanticTypeView};
use crate::text::str_eq;

verus! {

/// The value of an attribute constant, as contracts read it.
pub enum ConstantView {
    Nil,
    Boolean(bool),
    Integer(IntegerKind, int),
    Float(FloatValue),
    String(Seq<char>),
    Tuple(Seq<ConstantView>),
}

/// The value of an attribute constant.
pub open spec fn constant_view(c: AttributeConstant) -> ConstantView
    decreases c,
{
    match c {
        AttributeConstant::Nil => ConstantView::Nil,
        AttributeConstant::Boolean(b) => ConstantView::Boolean(b),
        AttributeConstant::Integer(v) => ConstantView::Integer(v.integer_kind(), v.value()),
        AttributeConstant::Float(v) => ConstantView::Float(v),
        AttributeConstant::String(s) => ConstantView::String(s@),
        AttributeConstant::Tuple(values) => ConstantView::Tuple(constant_views(values@)),
    }
}

/// The values of a sequence of attribute constants.
pub open spec fn constant_views(s: Seq<AttributeConstant>) -> Seq<ConstantView>
    decreases s,
{
    if s.len() == 0 {
        Seq::empty()
    } else {
        constant_views(s.drop_last()).push(constant_view(s.last()))
    }
}

/// Why an attribute constant could not be resolved.
#[derive(Clone, Copy, Debug, PartialEq, Eq, Structural)]
pub enum AttributeConstantFailure {
    /// The expression is not a constant of the expected type.
    TypeMismatch,
    /// A number literal that is malformed or does not fit the expected type.
    InvalidNumber(NumericError),
}

/// The outcome of resolving an attribute argument's constant.
#[derive(Debug)]
pub enum AttributeConstantOutcome {
    Value(AttributeConstant),
    Failed(AttributeConstantFailure),
    /// The host's answer to this request is needed to go on.
    NeedsHost(FloatRequest),
}

/// A float request, as contracts read it.
pub enum HostRequestView {
    Parse(Seq<char>, FloatKind),
    Arithmetic(BinaryOperator, FloatValue, FloatValue),
}

/// A resolution outcome, as contracts read it.
pub enum ResolutionView {
    Value(ConstantView),
    Failed(AttributeConstantFailure),
    NeedsHost(HostRequestView),
}

/// What an outcome holds.
pub open spec fn outcome_view(o: AttributeConstantOutcome) -> ResolutionView {
    match o {
        AttributeConstantOutcome::Value(c) => ResolutionView::Value(constant_view(c)),
        AttributeConstantOutcome::Failed(f) => ResolutionView::Failed(f),
        AttributeConstantOutcome::NeedsHost(FloatRequest::Parse { text, kind }) => ResolutionView::NeedsHost(
            HostRequestView::Parse(text@, kind),
        ),
        AttributeConstantOutcome::NeedsHost(FloatRequest::Arithmetic { operator, left, right }) =>
            ResolutionView::NeedsHost(HostRequestView::Arithmetic(operator, left, right)),
    }
}

/// A string literal without its enclosing quotes: the characters between
/// the first and the last, when there are two or more and both ends are
/// ASCII; otherwise nothing.
pub open spec fn unquoted(s: Seq<char>) -> Seq<char> {
    if s.len() >= 2 && (s[0] as u32) < 128 && (s.last() as u32) < 128 {
        s.subrange(1, s.len() - 1)
    } else {
        Seq::empty()
    }
}

/// Whether `expected` is the primitive type `p`.
pub open spec fn is_primitive_type(types: Seq<SemanticTypeView>, expected: TypeId, p: PrimitiveType) -> bool {
    (expected.0 as int) < types.len() && types[expected.0 as int] == SemanticTypeView::Primitive(p)
}

/// Parsing `text` in the format `kind` on the host: its next answer, or
/// the request for it.
pub open spec fn host_parse_resolution(
    answers: Seq<Result<FloatValue, NumericError>>,
    used: nat,
    text: Seq<char>,
    kind: FloatKind,
) -> (ResolutionView, nat) {
    if used < answers.len() {
        match answers[used as int] {
            Ok(v) => (ResolutionView::Value(ConstantView::Float(v)), used + 1),
            Err(e) => (ResolutionView::Failed(AttributeConstantFailure::InvalidNumber(e)), used + 1),
        }
    } else {
        (ResolutionView::NeedsHost(HostRequestView::Parse(text, kind)), used)
    }
}

/// A number literal as a constant of the numeric type `expected`.
pub open spec fn numeric_resolution(
    types: Seq<SemanticTypeView>,
    text: Seq<char>,
    expected: TypeId,
    answers: Seq<Result<FloatValue, NumericError>>,
    used: nat,
) -> (ResolutionView, nat) {
    let mismatch = (ResolutionView::Failed(AttributeConstantFailure::TypeMismatch), used);
    if (expected.0 as int) < types.len() && types[expected.0 as int] is Primitive {
        match types[expected.0 as int]->Primitive_0 {
            PrimitiveType::Integer(kind) => (
                if !decimal_literal_well_formed(text) {
                    ResolutionView::Failed(AttributeConstantFailure::InvalidNumber(NumericError::InvalidLiteral))
                } else if !decimal_literal_fits(text, kind) {
                    ResolutionView::Failed(AttributeConstantFailure::InvalidNumber(NumericError::OutOfRange))
                } else {
                    ResolutionView::Value(ConstantView::Integer(kind, decimal_literal_value(text)))
                },
                used,
            ),
            PrimitiveType::Float32 => host_parse_resolution(answers, used, text, FloatKind::Float32),
            PrimitiveType::Float64 => host_parse_resolution(answers, used, text, FloatKind::Float64),
            _ => mismatch,
        }
    } else {
        mismatch
    }
}

/// What resolving `e` as a constant of type `expected` gives, having used
/// `used` of the host's answers: the outcome and how many answers were used
/// afterwards. Number literals (a negated one read as one literal) take
/// the numeric type; strings, Booleans and `nil` need their primitive
/// type; a tuple needs a tuple type of its length and resolves element by
/// element, stopping at the first element that does not resolve; anything
/// else is a mismatch.
pub open spec fn constant_resolution(
    types: Seq<SemanticTypeView>,
    e: ConstantExpression,
    expected: TypeId,
    answers: Seq<Result<FloatValue, NumericError>>,
    used: nat,
) -> (ResolutionView, nat)
    decreases expected.0, 1nat, 0nat,
{
    let mismatch = (ResolutionView::Failed(AttributeConstantFailure::TypeMismatch), used);
    match e {
        ConstantExpression::Number(text) => numeric_resolution(types, text@, expected, answers, used),
        ConstantExpression::Unary { operator, operand } => if operator is Negate && *operand is Number {
            numeric_resolution(types, "-"@ + operand->Number_0@, expected, answers, used)
        } else {
            mismatch
        },
        ConstantExpression::String(text) => if is_primitive_type(types, expected, PrimitiveType::String) {
            (ResolutionView::Value(ConstantView::String(unquoted(text@))), used)
        } else {
            mismatch
        },
        ConstantExpression::Boolean(b) => if is_primitive_type(types, expected, PrimitiveType::Boolean) {
            (ResolutionView::Value(ConstantView::Boolean(b)), used)
        } else {
            mismatch
        },
        ConstantExpression::Nil => if is_primitive_type(types, expected, PrimitiveType::Nil) {
            (ResolutionView::Value(ConstantView::Nil), used)
        } else {
            mismatch
        },
        ConstantExpression::Tuple(elements) => if (expected.0 as int) < types.len() && types[expected.0 as int] is Tuple
            && types[expected.0 as int]->Tuple_0.len() == elements@.len() {
            elements_resolution(
                types,
                elements@,
                types[expected.0 as int]->Tuple_0,
                expected,
                answers,
                used,
                0,
                Seq::empty(),
            )
        } else {
            mismatch
        },
        _ => mismatch,
    }
}

/// Resolving the elements of a tuple from the `k`-th on, the earlier ones
/// having given `values`.
pub open spec fn elements_resolution(
    types: Seq<SemanticTypeView>,
    elements: Seq<ConstantExpression>,
    element_types: Seq<TypeId>,
    expected: TypeId,
    answers: Seq<Result<FloatValue, NumericError>>,
    used: nat,
    k: nat,
    values: Seq<ConstantView>,
) -> (ResolutionView, nat)
    decreases expected.0, 0nat, elements.len() - k,
{
    if k >= elements.len() || k >= element_types.len() {
        (ResolutionView::Value(ConstantView::Tuple(values)), used)
    } else if element_types[k as int].0 < expected.0 {
        let (r, m) = constant_resolution(types, elements[k as int], element_types[k as int], answers, used);
        match r {
            ResolutionView::Value(v) => elements_resolution(
                types,
                elements,
                element_types,
                expected,
                answers,
                m,
                k + 1,
                values.push(v),
            ),
            _ => (r, m),
        }
    } else {
        (ResolutionView::Failed(AttributeConstantFailure::TypeMismatch), used)
    }
}

/// Host answers beyond those a resolution uses do not change it: a
/// resolution that asks the host nothing more gives the same outcome, with
/// the same answers used, when more answers follow; one that asks has used
/// every answer given.
pub proof fn law_resolution_ignores_later_answers(
    types: Seq<SemanticTypeView>,
    e: ConstantExpression,
    expected: TypeId,
    answers: Seq<Result<FloatValue, NumericError>>,
    more: Seq<Result<FloatValue, NumericError>>,
    used: nat,
)
    requires
        used <= answers.len(),
    ensures
        used <= constant_resolution(types, e, expected, answers, used).1 <= answers.len(),
        constant_resolution(types, e, expected, answers, used).0 is NeedsHost ==> constant_resolution(
            types,
            e,
            expected,
            answers,
            used,
        ).1 == answers.len(),
        !(constant_resolution(types, e, expected, answers, used).0 is NeedsHost) ==> constant_resolution(
            types,
            e,
            expected,
            answers + more,
            used,
        ) == constant_resolution(types, e, expected, answers, used),
    decreases expected.0, 1nat, 0nat,
{
    match e {
        ConstantExpression::Number(text) => lemma_numeric_ignores_later_answers(types, text@, expected, answers, more, used),
        ConstantExpression::Unary { operator, operand } => if operator is Negate && *operand is Number {
            lemma_numeric_ignores_later_answers(types, "-"@ + operand->Number_0@, expected, answers, more, used);
        },
        ConstantExpression::Tuple(elements) => {
            if (expected.0 as int) < types.len() && types[expected.0 as int] is Tuple
                && types[expected.0 as int]->Tuple_0.len() == elements@.len() {
                lemma_elements_ignore_later_answers(
                    types,
                    elements@,
                    types[expected.0 as int]->Tuple_0,
                    expected,
                    answers,
                    more,
                    used,
                    0,
                    Seq::empty(),
                );
            }
        },
        _ => {},
    }
}

proof fn lemma_numeric_ignores_later_answers(
    types: Seq<SemanticTypeView>,
    text: Seq<char>,
    expected: TypeId,
    answers: Seq<Result<FloatValue, NumericError>>,
    more: Seq<Result<FloatValue, NumericError>>,
    used: nat,
)
    requires
        used <= answers.len(),
    ensures
        used <= numeric_resolution(types, text, expected, answers, used).1 <= answers.len(),
        numeric_resolution(types, text, expected, answers, used).0 is NeedsHost ==> numeric_resolution(
            types,
            text,
            expected,
            answers,
            used,
        ).1 == answers.len(),
        !(numeric_resolution(types, text, expected, answers, used).0 is NeedsHost) ==> numeric_resolution(
            types,
            text,
            expected,
            answers + more,
            used,
        ) == numeric_resolution(types, text, expected, answers, used),
{
    if used < answers.len() {
        assert((answers + more)[used as int] == answers[used as int]);
    }
}

proof fn lemma_elements_ignore_later_answers(
    types: Seq<SemanticTypeView>,
    elements: Seq<ConstantExpression>,
    element_types: Seq<TypeId>,
    expected: TypeId,
    answers: Seq<Result<FloatValue, NumericError>>,
    more: Seq<Result<FloatValue, NumericError>>,
    used: nat,
    k: nat,
    values: Seq<ConstantView>,
)
    requires
        used <= answers.len(),
    ensures
        used <= elements_resolution(types, elements, element_types, expected, answers, used, k, values).1
            <= answers.len(),
        elements_resolution(types, elements, element_types, expected, answers, used, k, values).0 is NeedsHost
            ==> elements_resolution(types, elements, element_types, expected, answers, used, k, values).1
            == answers.len(),
        !(elements_resolution(types, elements, element_types, expected, answers, used, k, values).0 is NeedsHost)
            ==> elements_resolution(types, elements, element_types, expected, answers + more, used, k, values)
            == elements_resolution(types, elements, element_types, expected, answers, used, k, values),
    decreases expected.0, 0nat, elements.len() - k,
{
    if k < elements.len() && k < element_types.len() && element_types[k as int].0 < expected.0 {
        law_resolution_ignores_later_answers(types, elements[k as int], element_types[k as int], answers, more, used);
        let (r, m) = constant_resolution(types, elements[k as int], element_types[k as int], answers, used);
        if r is Value {
            lemma_elements_ignore_later_answers(
                types,
                elements,
                element_types,
                expected,
                answers,
                more,
                m,
                k + 1,
                values.push(r->Value_0),
            );
        }
    }
}

fn unquote(value: &str) -> (r: String)
    ensures
        r@ == unquoted(value@),
{
    let n = value.unicode_len();
    if n >= 2 && (value.get_char(0) as u32) < 128 && (value.get_char(n - 1) as u32) < 128 {
        String::from_str(value.substring_char(1, n - 1))
    } else {
        String::new()
    }
}

fn resolve_numeric(
    arena: &TypeArena,
    text: &str,
    expected: TypeId,
    answers: &[Result<FloatValue, NumericError>],
    used: usize,
) -> (r: (AttributeConstantOutcome, usize))
    requires
        used <= answers@.len(),
    ensures
        (outcome_view(r.0), r.1 as nat) == numeric_resolution(arena.types(), text@, expected, answers@, used as nat),
        used <= r.1 <= answers@.len(),
{
    let kind = match arena.get(expected) {
        Some(SemanticType::Primitive(PrimitiveType::Integer(kind))) => {
            return match IntegerValue::parse_decimal(text, *kind) {
                Ok(v) => (AttributeConstantOutcome::Value(AttributeConstant::Integer(v)), used),
                Err(e) => (AttributeConstantOutcome::Failed(AttributeConstantFailure::InvalidNumber(e)), used),
            };
        },
        Some(SemanticType::Primitive(PrimitiveType::Float32)) => FloatKind::Float32,
        Some(SemanticType::Primitive(PrimitiveType::Float64)) => FloatKind::Float64,
        _ => {
            return (AttributeConstantOutcome::Failed(AttributeConstantFailure::TypeMismatch), used);
        },
    };
    if used < answers.len() {
        match answers[used] {
            Ok(v) => (AttributeConstantOutcome::Value(AttributeConstant::Float(v)), used + 1),
            Err(e) => (AttributeConstantOutcome::Failed(AttributeConstantFailure::InvalidNumber(e)), used + 1),
        }
    } else {
        (AttributeConstantOutcome::NeedsHost(FloatRequest::Parse { text: String::from_str(text), kind }), used)
    }
}

fn primitive_is(arena: &TypeArena, expected: TypeId, p: PrimitiveType) -> (r: bool)
    ensures
        r == is_primitive_type(arena.types(), expected, p),
{
    match arena.get(expected) {
        Some(SemanticType::Primitive(q)) => *q == p,
        _ => false,
    }
}

fn resolve_constant(
    arena: &TypeArena,
    expression: &ConstantExpression,
    expected: TypeId,
    answers: &[Result<FloatValue, NumericError>],
    used: usize,
) -> (r: (AttributeConstantOutcome, usize))
    requires
        used <= answers@.len(),
    ensures
        (outcome_view(r.0), r.1 as nat) == constant_resolution(arena.types(), *expression, expected, answers@, used as nat),
        used <= r.1 <= answers@.len(),
    decreases expected.0,
{
    proof {
        use_type_invariant(arena);
    }
    let mismatch = (AttributeConstantOutcome::Failed(AttributeConstantFailure::TypeMismatch), used);
    match expression {
        ConstantExpression::Number(text) => resolve_numeric(arena, text.as_str(), expected, answers, used),
        ConstantExpression::Unary { operator, operand } => match &**operand {
            ConstantExpression::Number(text) if *operator == UnaryOperator::Negate => {
                let mut spelled = String::from_str("-");
                spelled.append(text.as_str());
                resolve_numeric(arena, spelled.as_str(), expected, answers, used)
            },
            _ => mismatch,
        },
        ConstantExpression::String(text) => if primitive_is(arena, expected, PrimitiveType::String) {
            (AttributeConstantOutcome::Value(AttributeConstant::String(unquote(text.as_str()))), used)
        } else {
            mismatch
        },
        ConstantExpression::Boolean(b) => if primitive_is(arena, expected, PrimitiveType::Boolean) {
            (AttributeConstantOutcome::Value(AttributeConstant::Boolean(*b)), used)
        } else {
            mismatch
        },
        ConstantExpression::Nil => if primitive_is(arena, expected, PrimitiveType::Nil) {
            (AttributeConstantOutcome::Value(AttributeConstant::Nil), used)
        } else {
            mismatch
        },
        ConstantExpression::Tuple(elements) => {
            let element_types = match arena.get(expected) {
                Some(SemanticType::Tuple(element_types)) => element_types,
                _ => {
                    return mismatch;
                },
            };
            if element_types.len() != elements.len() {
                return mismatch;
            }
            let ghost types = arena.types();
            let ghost start = elements_resolution(
                types,
                elements@,
                element_types@,
                expected,
                answers@,
                used as nat,
                0,
                Seq::empty(),
            );
            let mut values: Vec<AttributeConstant> = Vec::new();
            let mut m: usize = used;
            let mut k: usize = 0;
            proof {
                assert(constant_views(values@) =~= Seq::<ConstantView>::empty());
            }
            while k < elements.len()
                invariant
                    types == arena.types(),
                    arena.well_formed(),
                    0 <= expected.0 < types.len(),
                    types[expected.0 as int] == SemanticTypeView::Tuple(element_types@),
                    element_types@.len() == elements@.len(),
                    k <= elements@.len(),
                    used <= m <= answers@.len(),
                    constant_resolution(types, *expression, expected, answers@, used as nat) == start,
                    start == elements_resolution(
                        types,
                        elements@,
                        element_types@,
                        expected,
                        answers@,
                        m as nat,
                        k as nat,
                        constant_views(values@),
                    ),
                decreases elements.len() - k,
            {
                proof {
                    arena.lemma_refers_to_earlier(expected.0 as int, k as int);
                }
                let (r, after) = resolve_constant(arena, &elements[k], element_types[k], answers, m);
                let ghost resolved = r;
                proof {
                    assert(element_types@[k as int].0 < expected.0);
                    assert(elements_resolution(
                        types,
                        elements@,
                        element_types@,
                        expected,
                        answers@,
                        m as nat,
                        k as nat,
                        constant_views(values@),
                    ) == match outcome_view(resolved) {
                        ResolutionView::Value(v) => elements_resolution(
                            types,
                            elements@,
                            element_types@,
                            expected,
                            answers@,
                            after as nat,
                            k as nat + 1,
                            constant_views(values@).push(v),
                        ),
                        _ => (outcome_view(resolved), after as nat),
                    });
                }
                match r {
                    AttributeConstantOutcome::Value(c) => {
                        let ghost before = values@;
                        values.push(c);
                        proof {
                            assert(values@.drop_last() =~= before);
                        }
                        m = after;
                        k = k + 1;
                    },
                    other => {
                        return (other, after);
                    },
                }
            }
            (AttributeConstantOutcome::Value(AttributeConstant::Tuple(values)), m)
        },
        _ => mismatch,
    }
}

/// Resolves an attribute argument's constant as a value of the parameter
/// type `expected`, given the host's answers to its float requests so far.
pub fn resolve_attribute_constant(
    arena: &TypeArena,
    expression: &ConstantExpression,
    expected: TypeId,
    host_answers: &[Result<FloatValue, NumericError>],
) -> (r: AttributeConstantOutcome)
    ensures
        outcome_view(r) == constant_resolution(arena.types(), *expression, expected, host_answers@, 0).0,
{
    proof {
        use_type_invariant(arena);
    }
    let (r, _) = resolve_constant(arena, expression, expected, host_answers, 0);
    r
}

/// One parameter of an attribute definition.
#[derive(Debug)]
pub struct AttributeParameterDefinition {
    parameter: AttributeParameterId,
    name: String,
    parameter_type: TypeId,
    default_value: Option<AttributeConstant>,
    span: SourceSpan,
}

impl AttributeParameterDefinition {
    /// (parameter, name, parameter type, span).
    pub closed spec fn view(&self) -> (AttributeParameterId, Seq<char>, TypeId, SourceSpan) {
        (self.parameter, self.name@, self.parameter_type, self.span)
    }

    /// The default value, when the parameter has one.
    pub closed spec fn spec_default(&self) -> Option<AttributeConstant> {
        self.default_value
    }

    pub fn new(
        parameter: AttributeParameterId,
        name: String,
        parameter_type: TypeId,
        default_value: Option<AttributeConstant>,
        span: SourceSpan,
    ) -> (r: Self)
        ensures
            r@ == (parameter, name@, parameter_type, span),
            r.spec_default() == default_value,
    {
        AttributeParameterDefinition { parameter, name, parameter_type, default_value, span }
    }

    pub fn parameter(&self) -> (r: AttributeParameterId)
        ensures
            r == self@.0,
    {
        self.parameter
    }

    pub fn name(&self) -> (r: &str)
        ensures
            r@ == self@.1,
    {
        self.name.as_str()
    }

    pub fn parameter_type(&self) -> (r: TypeId)
        ensures
            r == self@.2,
    {
        self.parameter_type
    }

    pub fn default_value(&self) -> (r: Option<&AttributeConstant>)
        ensures
            match self.spec_default() {
                Some(d) => r == Some(&d),
                None => r is None,
            },
    {
        match &self.default_value {
            Some(d) => Some(d),
            None => None,
        }
    }

    pub fn span(&self) -> (r: SourceSpan)
        ensures
            r == self@.3,
    {
        self.span
    }
}

/// One argument of an attribute use, as written: its name when it is
/// named, its value and where it stands.
#[derive(Debug)]
pub struct AttributeArgumentSyntax {
    pub name: Option<String>,
    pub value: ConstantExpression,
    pub span: SourceSpan,
}

/// Which parameter an argument supplies.
#[derive(Clone, Copy, Debug, PartialEq, Eq, Structural)]
pub enum AttributeArgumentSlot {
    Parameter(usize),
    /// A named argument whose name no parameter has.
    UnknownName,
    /// A positional argument past the last parameter.
    Extra,
}

/// What is wrong with the arguments of an attribute use; arguments and
/// parameters are given by their positions.
#[derive(Clone, Copy, Debug, PartialEq, Eq, Structural)]
pub enum AttributeArgumentError {
    /// A named argument that names no parameter.
    UnknownArgument { argument: usize },
    /// A positional argument past the last parameter.
    ExtraArgument { argument: usize },
    /// An argument for a parameter that an earlier argument supplied.
    DuplicateArgument { argument: usize, parameter: usize },
    /// The argument's constant could not be resolved.
    InvalidArgument { argument: usize, parameter: usize },
    /// The argument's value is not of the parameter's type.
    ArgumentTypeMismatch { argument: usize, parameter: usize },
    /// A parameter without a default that no argument supplies.
    MissingArgument { parameter: usize },
}

/// The first parameter from the `k`-th on named `name`.
pub open spec fn name_position(parameters: Seq<AttributeParameterDefinition>, name: Seq<char>, k: nat) -> Option<nat>
    decreases parameters.len() - k,
{
    if k >= parameters.len() {
        None
    } else if parameters[k as int]@.1 == name {
        Some(k)
    } else {
        name_position(parameters, name, k + 1)
    }
}

/// The number of positional arguments among the first `i`.
pub open spec fn positional_before(arguments: Seq<AttributeArgumentSyntax>, i: int) -> nat
    decreases i,
{
    if i <= 0 {
        0
    } else {
        positional_before(arguments, i - 1) + if arguments[i - 1].name is None {
            1nat
        } else {
            0nat
        }
    }
}

/// Which parameter the `i`-th argument supplies: the first one of its name
/// when it is named, else the next one in order.
pub open spec fn slot_of(
    parameters: Seq<AttributeParameterDefinition>,
    arguments: Seq<AttributeArgumentSyntax>,
    i: int,
) -> AttributeArgumentSlot {
    match arguments[i].name {
        Some(name) => match name_position(parameters, name@, 0) {
            Some(k) => AttributeArgumentSlot::Parameter(k as usize),
            None => AttributeArgumentSlot::UnknownName,
        },
        None => if positional_before(arguments, i) < parameters.len() {
            AttributeArgumentSlot::Parameter(positional_before(arguments, i) as usize)
        } else {
            AttributeArgumentSlot::Extra
        },
    }
}

/// After the first `n` arguments: which argument supplied each parameter,
/// which parameters got an invalid argument, and the errors so far. An
/// argument for a parameter already supplied is a duplicate; otherwise its
/// evaluation supplies the parameter when it is a value of the parameter's
/// type.
pub open spec fn binding_after(
    types: Seq<SemanticTypeView>,
    parameters: Seq<AttributeParameterDefinition>,
    arguments: Seq<AttributeArgumentSyntax>,
    evaluations: Seq<Option<AttributeConstant>>,
    n: int,
) -> (Seq<Option<usize>>, Seq<bool>, Seq<AttributeArgumentError>)
    decreases n,
{
    if n <= 0 {
        (Seq::new(parameters.len(), |k: int| None), Seq::new(parameters.len(), |k: int| false), Seq::empty())
    } else {
        let (supplied, invalid, errors) = binding_after(types, parameters, arguments, evaluations, n - 1);
        let i = (n - 1) as usize;
        match slot_of(parameters, arguments, n - 1) {
            AttributeArgumentSlot::UnknownName => (
                supplied,
                invalid,
                errors.push(AttributeArgumentError::UnknownArgument { argument: i }),
            ),
            AttributeArgumentSlot::Extra => (
                supplied,
                invalid,
                errors.push(AttributeArgumentError::ExtraArgument { argument: i }),
            ),
            AttributeArgumentSlot::Parameter(k) => if supplied[k as int] is Some {
                (supplied, invalid, errors.push(AttributeArgumentError::DuplicateArgument { argument: i, parameter: k }))
            } else {
                match evaluations[n - 1] {
                    Some(v) => if constant_fits(types, v, parameters[k as int]@.2.0 as int) {
                        (supplied.update(k as int, Some(i)), invalid, errors)
                    } else {
                        (
                            supplied,
                            invalid.update(k as int, true),
                            errors.push(AttributeArgumentError::ArgumentTypeMismatch { argument: i, parameter: k }),
                        )
                    },
                    None => (
                        supplied,
                        invalid.update(k as int, true),
                        errors.push(AttributeArgumentError::InvalidArgument { argument: i, parameter: k }),
                    ),
                }
            },
        }
    }
}

/// A resolved argument: (name, value type, origin, defaulted, value).
pub open spec fn argument_view(a: ResolvedAttributeArgument) -> (Seq<char>, TypeId, SourceSpan, bool, ConstantView) {
    (a@.0, a@.1, a@.2, a@.3, constant_view(*a.spec_value()))
}

/// The resolved arguments of the first `k` parameters, in parameter order,
/// and the errors: a supplied parameter takes its argument's value and
/// span; one left out takes its default and its own span, or is missing;
/// one with an invalid argument is left out.
pub open spec fn assembled(
    parameters: Seq<AttributeParameterDefinition>,
    arguments: Seq<AttributeArgumentSyntax>,
    evaluations: Seq<Option<AttributeConstant>>,
    supplied: Seq<Option<usize>>,
    invalid: Seq<bool>,
    errors: Seq<AttributeArgumentError>,
    k: int,
) -> (Seq<(Seq<char>, TypeId, SourceSpan, bool, ConstantView)>, Seq<AttributeArgumentError>)
    decreases k,
{
    if k <= 0 {
        (Seq::empty(), errors)
    } else {
        let (views, errs) = assembled(parameters, arguments, evaluations, supplied, invalid, errors, k - 1);
        let p = parameters[k - 1];
        match supplied[k - 1] {
            Some(i) => (
                views.push((p@.1, p@.2, arguments[i as int].span, false, constant_view(evaluations[i as int]->0))),
                errs,
            ),
            None => if invalid[k - 1] {
                (views, errs)
            } else {
                match p.spec_default() {
                    Some(d) => (views.push((p@.1, p@.2, p@.3, true, constant_view(d))), errs),
                    None => (views, errs.push(AttributeArgumentError::MissingArgument { parameter: (k - 1) as usize })),
                }
            },
        }
    }
}

/// The outcome of binding: the resolved arguments, or the errors in the
/// order they were found.
pub open spec fn binding(
    types: Seq<SemanticTypeView>,
    parameters: Seq<AttributeParameterDefinition>,
    arguments: Seq<AttributeArgumentSyntax>,
    evaluations: Seq<Option<AttributeConstant>>,
) -> (Seq<(Seq<char>, TypeId, SourceSpan, bool, ConstantView)>, Seq<AttributeArgumentError>) {
    let (supplied, invalid, errors) = binding_after(types, parameters, arguments, evaluations, arguments.len() as int);
    assembled(parameters, arguments, evaluations, supplied, invalid, errors, parameters.len() as int)
}

impl Clone for AttributeConstant {
    fn clone(&self) -> (r: Self)
        ensures
            constant_view(r) == constant_view(*self),
    {
        copy_constant(self)
    }
}

fn copy_constant(c: &AttributeConstant) -> (r: AttributeConstant)
    ensures
        constant_view(r) == constant_view(*c),
    decreases c,
{
    match c {
        AttributeConstant::Nil => AttributeConstant::Nil,
        AttributeConstant::Boolean(b) => AttributeConstant::Boolean(*b),
        AttributeConstant::Integer(v) => AttributeConstant::Integer(*v),
        AttributeConstant::Float(v) => AttributeConstant::Float(*v),
        AttributeConstant::String(s) => AttributeConstant::String(String::from_str(s.as_str())),
        AttributeConstant::Tuple(values) => {
            let mut copied: Vec<AttributeConstant> = Vec::new();
            let mut i: usize = 0;
            while i < values.len()
                invariant
                    i <= values@.len(),
                    *c == AttributeConstant::Tuple(*values),
                    constant_views(copied@) == constant_views(values@.take(i as int)),
                decreases values.len() - i,
            {
                proof {
                    let ghost vs = (*c)->Tuple_0;
                    assert(decreases_to!(*c => (*c)->Tuple_0));
                    assert(decreases_to!(vs => vs@));
                    assert(decreases_to!(vs@ => vs@[i as int]));
                    assert(decreases_to!(*c => values@[i as int]));
                }
                let x = copy_constant(&values[i]);
                let ghost before = copied@;
                copied.push(x);
                proof {
                    assert(copied@.drop_last() =~= before);
                    assert(values@.take(i as int + 1).drop_last() =~= values@.take(i as int));
                }
                i = i + 1;
            }
            proof {
                assert(values@.take(values@.len() as int) =~= values@);
            }
            AttributeConstant::Tuple(copied)
        },
    }
}

fn named_slot(parameters: &[AttributeParameterDefinition], name: &str) -> (r: AttributeArgumentSlot)
    ensures
        r == match name_position(parameters@, name@, 0) {
            Some(k) => AttributeArgumentSlot::Parameter(k as usize),
            None => AttributeArgumentSlot::UnknownName,
        },
{
    let mut k: usize = 0;
    while k < parameters.len()
        invariant
            k <= parameters@.len(),
            name_position(parameters@, name@, 0) == name_position(parameters@, name@, k as nat),
        decreases parameters.len() - k,
    {
        if str_eq(parameters[k].name.as_str(), name) {
            return AttributeArgumentSlot::Parameter(k);
        }
        k = k + 1;
    }
    AttributeArgumentSlot::UnknownName
}

/// Which parameter each argument supplies: a named one the first parameter
/// of its name, a positional one the next parameter in order.
pub fn attribute_argument_slots(
    parameters: &[AttributeParameterDefinition],
    arguments: &[AttributeArgumentSyntax],
) -> (r: Vec<AttributeArgumentSlot>)
    ensures
        r@.len() == arguments@.len(),
        forall|i: int| 0 <= i < arguments@.len() ==> r@[i] == slot_of(parameters@, arguments@, i),
{
    let mut slots: Vec<AttributeArgumentSlot> = Vec::new();
    let mut positional: usize = 0;
    let mut i: usize = 0;
    while i < arguments.len()
        invariant
            i <= arguments@.len(),
            slots@.len() == i,
            positional == positional_before(arguments@, i as int),
            positional <= i,
            forall|j: int| 0 <= j < i ==> slots@[j] == slot_of(parameters@, arguments@, j),
        decreases arguments.len() - i,
    {
        let slot = match &arguments[i].name {
            Some(name) => named_slot(parameters, name.as_str()),
            None => {
                if positional < parameters.len() {
                    AttributeArgumentSlot::Parameter(positional)
                } else {
                    AttributeArgumentSlot::Extra
                }
            },
        };
        if arguments[i].name.is_none() {
            positional = positional + 1;
        }
        slots.push(slot);
        i = i + 1;
    }
    slots
}

/// The resolved arguments' views.
pub open spec fn argument_views(v: Seq<ResolvedAttributeArgument>) -> Seq<(Seq<char>, TypeId, SourceSpan, bool, ConstantView)> {
    v.map_values(|a: ResolvedAttributeArgument| argument_view(a))
}

proof fn lemma_name_position_in_range(parameters: Seq<AttributeParameterDefinition>, name: Seq<char>, k: nat)
    ensures
        name_position(parameters, name, k) matches Some(j) ==> k <= j < parameters.len(),
    decreases parameters.len() - k,
{
    if k < parameters.len() && parameters[k as int]@.1 != name {
        lemma_name_position_in_range(parameters, name, k + 1);
    }
}

/// Binds the arguments of an attribute use to the parameters of its
/// definition. `evaluations` holds, for each argument, its constant
/// resolved against the type of the parameter it supplies, or `None` where
/// that failed (what it is for an argument that supplies no parameter does
/// not matter). The outcome is the resolved arguments in parameter order,
/// or every error found.
pub fn bind_attribute_arguments(
    arena: &TypeArena,
    parameters: &[AttributeParameterDefinition],
    arguments: &[AttributeArgumentSyntax],
    evaluations: &[Option<AttributeConstant>],
) -> (r: Result<Vec<ResolvedAttributeArgument>, Vec<AttributeArgumentError>>)
    requires
        evaluations@.len() == arguments@.len(),
    ensures
        match r {
            Ok(v) => binding(arena.types(), parameters@, arguments@, evaluations@).1.len() == 0 && argument_views(v@)
                == binding(arena.types(), parameters@, arguments@, evaluations@).0,
            Err(e) => binding(arena.types(), parameters@, arguments@, evaluations@).1.len() > 0 && e@ == binding(
                arena.types(),
                parameters@,
                arguments@,
                evaluations@,
            ).1,
        },
{
    proof {
        use_type_invariant(arena);
    }
    let ghost types = arena.types();
    let slots = attribute_argument_slots(parameters, arguments);
    let mut supplied: Vec<Option<usize>> = Vec::new();
    let mut invalid: Vec<bool> = Vec::new();
    let mut k: usize = 0;
    while k < parameters.len()
        invariant
            k <= parameters@.len(),
            supplied@ =~= Seq::new(k as nat, |j: int| None::<usize>),
            invalid@ =~= Seq::new(k as nat, |j: int| false),
        decreases parameters.len() - k,
    {
        supplied.push(None);
        invalid.push(false);
        k = k + 1;
    }
    let mut errors: Vec<AttributeArgumentError> = Vec::new();
    let mut i: usize = 0;
    while i < arguments.len()
        invariant
            types == arena.types(),
            arena.well_formed(),
            i <= arguments@.len(),
            evaluations@.len() == arguments@.len(),
            slots@.len() == arguments@.len(),
            forall|j: int| 0 <= j < arguments@.len() ==> slots@[j] == slot_of(parameters@, arguments@, j),
            (supplied@, invalid@, errors@) == binding_after(types, parameters@, arguments@, evaluations@, i as int),
            supplied@.len() == parameters@.len(),
            invalid@.len() == parameters@.len(),
            forall|q: int|
                0 <= q < parameters@.len() ==> (#[trigger] supplied@[q] matches Some(a) ==> a < i
                    && evaluations@[a as int] is Some),
        decreases arguments.len() - i,
    {
        proof {
            if arguments@[i as int].name is Some {
                lemma_name_position_in_range(parameters@, arguments@[i as int].name->0@, 0);
            }
        }
        match slots[i] {
            AttributeArgumentSlot::UnknownName => {
                errors.push(AttributeArgumentError::UnknownArgument { argument: i });
            },
            AttributeArgumentSlot::Extra => {
                errors.push(AttributeArgumentError::ExtraArgument { argument: i });
            },
            AttributeArgumentSlot::Parameter(k) => {
                if supplied[k].is_some() {
                    errors.push(AttributeArgumentError::DuplicateArgument { argument: i, parameter: k });
                } else {
                    match &evaluations[i] {
                        Some(v) => {
                            if attribute_constant_matches_type(arena, v, parameters[k].parameter_type) {
                                supplied.set(k, Some(i));
                            } else {
                                invalid.set(k, true);
                                errors.push(AttributeArgumentError::ArgumentTypeMismatch { argument: i, parameter: k });
                            }
                        },
                        None => {
                            invalid.set(k, true);
                            errors.push(AttributeArgumentError::InvalidArgument { argument: i, parameter: k });
                        },
                    }
                }
            },
        }
        i = i + 1;
    }
    let ghost bound_errors = errors@;
    let mut resolved: Vec<ResolvedAttributeArgument> = Vec::new();
    let mut k: usize = 0;
    while k < parameters.len()
        invariant
            k <= parameters@.len(),
            supplied@.len() == parameters@.len(),
            invalid@.len() == parameters@.len(),
            evaluations@.len() == arguments@.len(),
            forall|q: int|
                0 <= q < parameters@.len() ==> (#[trigger] supplied@[q] matches Some(a) ==> a < arguments@.len()
                    && evaluations@[a as int] is Some),
            (argument_views(resolved@), errors@) == assembled(
                parameters@,
                arguments@,
                evaluations@,
                supplied@,
                invalid@,
                bound_errors,
                k as int,
            ),
        decreases parameters.len() - k,
    {
        let ghost before = resolved@;
        let parameter = &parameters[k];
        match supplied[k] {
            Some(i) => {
                let value = match &evaluations[i] {
                    Some(v) => copy_constant(v),
                    None => AttributeConstant::Nil,
                };
                resolved.push(
                    ResolvedAttributeArgument::new(
                        String::from_str(parameter.name.as_str()),
                        value,
                        parameter.parameter_type,
                        arguments[i].span,
                        false,
                    ),
                );
            },
            None => {
                if !invalid[k] {
                    match &parameter.default_value {
                        Some(d) => {
                            resolved.push(
                                ResolvedAttributeArgument::new(
                                    String::from_str(parameter.name.as_str()),
                                    copy_constant(d),
                                    parameter.parameter_type,
                                    parameter.span,
                                    true,
                                ),
                            );
                        },
                        None => {
                            errors.push(AttributeArgumentError::MissingArgument { parameter: k });
                        },
                    }
                }
            },
        }
        proof {
            assert(argument_views(resolved@).len() == resolved@.len());
            if resolved@.len() > before.len() {
                assert(argument_views(resolved@) =~= argument_views(before).push(argument_view(resolved@.last())));
            } else {
                assert(argument_views(resolved@) =~= argument_views(before));
            }
        }
        k = k + 1;
    }
    if errors.len() == 0 {
        Ok(resolved)
    } else {
        Err(errors)
    }
}

/// Resolves one use of the attribute `definition` written at `span`, given
/// each argument's constant as an evaluator gave it against the type of the
/// parameter it supplies (`None` where the evaluator failed). The use is
/// resolved exactly when binding finds no error.
pub fn resolve_attribute_use_with_evaluator(
    arena: &TypeArena,
    definition: &AttributeDefinition,
    arguments: &[AttributeArgumentSyntax],
    evaluations: &[Option<AttributeConstant>],
    span: SourceSpan,
) -> (r: Result<ResolvedAttribute, Vec<AttributeArgumentError>>)
    requires
        evaluations@.len() == arguments@.len(),
    ensures
        match r {
            Ok(a) => {
                &&& binding(arena.types(), definition.spec_parameters(), arguments@, evaluations@).1.len() == 0
                &&& a@ == (definition@.attribute, definition@.symbol, span)
                &&& argument_views(a.spec_arguments()) == binding(arena.types(), definition.spec_parameters(), arguments@, evaluations@).0
            },
            Err(e) => binding(arena.types(), definition.spec_parameters(), arguments@, evaluations@).1.len() > 0 && e@ == binding(
                arena.types(),
                definition.spec_parameters(),
                arguments@,
                evaluations@,
            ).1,
        },
{
    proof {
        use_type_invariant(arena);
    }
    match bind_attribute_arguments(arena, definition.parameters(), arguments, evaluations) {
        Ok(bound) => Ok(ResolvedAttribute::new(definition.attribute(), definition.symbol(), bound, span)),
        Err(errors) => Err(errors),
    }
}

impl Clone for AttributeParameterDefinition {
    fn clone(&self) -> (r: Self)
        ensures
            r@ == self@,
            match (r.spec_default(), self.spec_default()) {
                (Some(a), Some(b)) => constant_view(a) == constant_view(b),
                (None, None) => true,
                _ => false,
            },
    {
        AttributeParameterDefinition {
            parameter: self.parameter,
            name: String::from_str(self.name.as_str()),
            parameter_type: self.parameter_type,
            default_value: match &self.default_value {
                Some(d) => Some(d.clone()),
                None => None,
            },
            span: self.span,
        }
    }
}

proof fn lemma_name_position_bound(parameters: Seq<AttributeParameterDefinition>, name: Seq<char>, k: nat)
    ensures
        name_position(parameters, name, k) matches Some(j) ==> k <= j < parameters.len(),
    decreases parameters.len() - k,
{
    if k < parameters.len() && parameters[k as int]@.1 != name {
        lemma_name_position_bound(parameters, name, k + 1);
    }
}

proof fn lemma_slot_bound(parameters: Seq<AttributeParameterDefinition>, arguments: Seq<AttributeArgumentSyntax>, i: int)
    requires
        parameters.len() <= usize::MAX,
    ensures
        slot_of(parameters, arguments, i) matches AttributeArgumentSlot::Parameter(k) ==> k < parameters.len(),
{
    if let Some(name) = arguments[i].name {
        lemma_name_position_bound(parameters, name@, 0);
    }
}

/// What binding the first `n` arguments keeps: a supplied parameter names
/// an earlier argument whose slot it is and which has a value; an invalid
/// one comes with an error; and without errors every argument so far
/// supplies the parameter of its slot.
proof fn lemma_binding_after(
    types: Seq<SemanticTypeView>,
    parameters: Seq<AttributeParameterDefinition>,
    arguments: Seq<AttributeArgumentSyntax>,
    evaluations: Seq<Option<AttributeConstant>>,
    n: int,
)
    requires
        0 <= n <= arguments.len(),
        evaluations.len() == arguments.len(),
        parameters.len() <= usize::MAX,
        arguments.len() <= usize::MAX,
    ensures
        binding_after(types, parameters, arguments, evaluations, n).0.len() == parameters.len(),
        binding_after(types, parameters, arguments, evaluations, n).1.len() == parameters.len(),
        forall|k: int|
            0 <= k < parameters.len() && (#[trigger] binding_after(types, parameters, arguments, evaluations, n).0[k]) is Some
                ==> (binding_after(types, parameters, arguments, evaluations, n).0[k]->0 as int) < n && slot_of(
                parameters,
                arguments,
                binding_after(types, parameters, arguments, evaluations, n).0[k]->0 as int,
            ) == AttributeArgumentSlot::Parameter(k as usize) && evaluations[binding_after(
                types,
                parameters,
                arguments,
                evaluations,
                n,
            ).0[k]->0 as int] is Some,
        forall|k: int|
            0 <= k < parameters.len() && #[trigger] binding_after(types, parameters, arguments, evaluations, n).1[k]
                ==> binding_after(types, parameters, arguments, evaluations, n).2.len() > 0,
        binding_after(types, parameters, arguments, evaluations, n).2.len() == 0 ==> forall|i: int|
            0 <= i < n ==> (#[trigger] slot_of(parameters, arguments, i) matches AttributeArgumentSlot::Parameter(k)
                && binding_after(types, parameters, arguments, evaluations, n).0[k as int] == Some(i as usize)),
    decreases n,
{
    if n > 0 {
        lemma_binding_after(types, parameters, arguments, evaluations, n - 1);
        lemma_slot_bound(parameters, arguments, n - 1);
        let (supplied, invalid, errors) = binding_after(types, parameters, arguments, evaluations, n - 1);
        let out = binding_after(types, parameters, arguments, evaluations, n);
        assert(out.2.len() >= errors.len());
        if out.2.len() == 0 {
            assert forall|i: int| 0 <= i < n implies (#[trigger] slot_of(parameters, arguments, i) matches AttributeArgumentSlot::Parameter(k)
                && out.0[k as int] == Some(i as usize)) by {
                if i < n - 1 {
                    assert(slot_of(parameters, arguments, i) matches AttributeArgumentSlot::Parameter(k) && supplied[k as int] == Some(i as usize));
                    lemma_slot_bound(parameters, arguments, i);
                }
            }
        }
    }
}

/// Assembling the first `k` parameters: errors only grow, and without
/// errors each parameter takes its argument's value and span, or, when no
/// argument supplied it, its default and its own span.
proof fn lemma_assembled(
    parameters: Seq<AttributeParameterDefinition>,
    arguments: Seq<AttributeArgumentSyntax>,
    evaluations: Seq<Option<AttributeConstant>>,
    supplied: Seq<Option<usize>>,
    invalid: Seq<bool>,
    errors: Seq<AttributeArgumentError>,
    k: int,
)
    requires
        0 <= k <= parameters.len(),
        supplied.len() == parameters.len(),
        invalid.len() == parameters.len(),
        forall|j: int| 0 <= j < parameters.len() && #[trigger] invalid[j] ==> errors.len() > 0,
    ensures
        assembled(parameters, arguments, evaluations, supplied, invalid, errors, k).1.len() >= errors.len(),
        assembled(parameters, arguments, evaluations, supplied, invalid, errors, k).1.len() == 0 ==> {
            let views = assembled(parameters, arguments, evaluations, supplied, invalid, errors, k).0;
            &&& views.len() == k
            &&& forall|j: int|
                0 <= j < k ==> match #[trigger] supplied[j] {
                    Some(i) => views[j] == (
                        parameters[j]@.1,
                        parameters[j]@.2,
                        arguments[i as int].span,
                        false,
                        constant_view(evaluations[i as int]->0),
                    ),
                    None => !invalid[j] && parameters[j].spec_default() is Some && views[j] == (
                        parameters[j]@.1,
                        parameters[j]@.2,
                        parameters[j]@.3,
                        true,
                        constant_view(parameters[j].spec_default()->0),
                    ),
                }
        },
    decreases k,
{
    if k > 0 {
        lemma_assembled(parameters, arguments, evaluations, supplied, invalid, errors, k - 1);
        let (views, errs) = assembled(parameters, arguments, evaluations, supplied, invalid, errors, k - 1);
        let out = assembled(parameters, arguments, evaluations, supplied, invalid, errors, k);
        if out.1.len() == 0 {
            assert(errs.len() == 0);
            if supplied[k - 1] is None {
                assert(!invalid[k - 1]);
            }
            assert(out.0 == views.push(out.0[k - 1]));
            assert forall|j: int| 0 <= j < k implies match #[trigger] supplied[j] {
                Some(i) => out.0[j] == (
                    parameters[j]@.1,
                    parameters[j]@.2,
                    arguments[i as int].span,
                    false,
                    constant_view(evaluations[i as int]->0),
                ),
                None => !invalid[j] && parameters[j].spec_default() is Some && out.0[j] == (
                    parameters[j]@.1,
                    parameters[j]@.2,
                    parameters[j]@.3,
                    true,
                    constant_view(parameters[j].spec_default()->0),
                ),
            } by {
                if j < k - 1 {
                    assert(out.0[j] == views[j]);
                }
            }
        }
    }
}

/// A parameter that an argument supplies is bound to that argument: when
/// binding succeeds, the parameter in the argument's slot takes the
/// argument's evaluated value and span and is not defaulted, whether or not
/// it declares a default.
pub proof fn law_supplied_parameter_takes_its_argument(
    types: Seq<SemanticTypeView>,
    parameters: Seq<AttributeParameterDefinition>,
    arguments: Seq<AttributeArgumentSyntax>,
    evaluations: Seq<Option<AttributeConstant>>,
    i: int,
    k: int,
)
    requires
        evaluations.len() == arguments.len(),
        parameters.len() <= usize::MAX,
        arguments.len() <= usize::MAX,
        binding(types, parameters, arguments, evaluations).1.len() == 0,
        0 <= i < arguments.len(),
        0 <= k < parameters.len(),
        slot_of(parameters, arguments, i) == AttributeArgumentSlot::Parameter(k as usize),
    ensures
        evaluations[i] is Some,
        binding(types, parameters, arguments, evaluations).0.len() == parameters.len(),
        binding(types, parameters, arguments, evaluations).0[k] == (
            parameters[k]@.1,
            parameters[k]@.2,
            arguments[i].span,
            false,
            constant_view(evaluations[i]->0),
        ),
{
    let n = arguments.len() as int;
    lemma_binding_after(types, parameters, arguments, evaluations, n);
    let (supplied, invalid, errors) = binding_after(types, parameters, arguments, evaluations, n);
    assert forall|j: int| 0 <= j < parameters.len() && #[trigger] invalid[j] implies errors.len() > 0 by {
    }
    lemma_assembled(parameters, arguments, evaluations, supplied, invalid, errors, parameters.len() as int);
    assert(slot_of(parameters, arguments, i) matches AttributeArgumentSlot::Parameter(q) && supplied[q as int] == Some(i as usize));
    assert(supplied[k] == Some(i as usize));
}

/// A parameter that no argument supplies takes its default: when binding
/// succeeds, such a parameter has a default, and is bound to it with its
/// own span, marked as defaulted.
pub proof fn law_unsupplied_parameter_takes_its_default(
    types: Seq<SemanticTypeView>,
    parameters: Seq<AttributeParameterDefinition>,
    arguments: Seq<AttributeArgumentSyntax>,
    evaluations: Seq<Option<AttributeConstant>>,
    k: int,
)
    requires
        evaluations.len() == arguments.len(),
        parameters.len() <= usize::MAX,
        arguments.len() <= usize::MAX,
        binding(types, parameters, arguments, evaluations).1.len() == 0,
        0 <= k < parameters.len(),
        forall|i: int| 0 <= i < arguments.len() ==> #[trigger] slot_of(parameters, arguments, i)
            != AttributeArgumentSlot::Parameter(k as usize),
    ensures
        parameters[k].spec_default() is Some,
        binding(types, parameters, arguments, evaluations).0.len() == parameters.len(),
        binding(types, parameters, arguments, evaluations).0[k] == (
            parameters[k]@.1,
            parameters[k]@.2,
            parameters[k]@.3,
            true,
            constant_view(parameters[k].spec_default()->0),
        ),
{
    let n = arguments.len() as int;
    lemma_binding_after(types, parameters, arguments, evaluations, n);
    let (supplied, invalid, errors) = binding_after(types, parameters, arguments, evaluations, n);
    assert forall|j: int| 0 <= j < parameters.len() && #[trigger] invalid[j] implies errors.len() > 0 by {
    }
    lemma_assembled(parameters, arguments, evaluations, supplied, invalid, errors, parameters.len() as int);
    if supplied[k] is Some {
        let i = supplied[k]->0 as int;
        assert(slot_of(parameters, arguments, i) == AttributeArgumentSlot::Parameter(k as usize));
    }
}

} // verus!
