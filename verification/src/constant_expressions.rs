//! Evaluation of constant expressions: field defaults and required
//! constants.
//!
//! IEEE floating-point parsing and arithmetic are performed by the host. The
//! evaluator takes the host's answers to its earlier requests, in order;
//! when it needs one more, it stops and names the request. The host answers
//! it and evaluates again with the longer list of answers.
use vstd::prelude::*;
use vstd::string::*;

use crate::arena::TypeArena;
use crate::constants::{
    binary_evaluation, evaluate_binary_values, evaluate_unary_value, numeric_type_for_expected,
    numeric_hint, unary_evaluation, BinaryOperator, ConstantEvaluation, ConstantFailure,
    FieldDefault, UnaryOperator,
};
use crate::ids::TypeId;
use crate::kinds::{IntegerKind, PrimitiveType};
use crate::numeric::{
    decimal_literal_fits, decimal_literal_value, decimal_literal_well_formed, FloatKind, FloatValue,
    IntegerValue, NumericError,
};
use crate::semantic::{SemanticType, SemanticTypeView};

verus! {

/// What the evaluator reads of a constant expression's syntax.
#[derive(Debug)]
pub enum ConstantExpression {
    /// A number literal, as written.
    Number(String),
    String(String),
    Boolean(bool),
    Nil,
    Unary { operator: UnaryOperator, operand: Box<ConstantExpression> },
    Binary { operator: BinaryOperator, left: Box<ConstantExpression>, right: Box<ConstantExpression> },
    /// A tuple of expressions.
    Tuple(Vec<ConstantExpression>),
    /// Any other expression: a name, a call, a construction, a collection.
    Other,
}

/// Floating-point work the host performs.
#[derive(Debug)]
pub enum FloatRequest {
    /// Parse a number literal into the format.
    Parse { text: String, kind: FloatKind },
    /// Apply an arithmetic operator to two values of one format.
    Arithmetic { operator: BinaryOperator, left: FloatValue, right: FloatValue },
}

/// The outcome of evaluating a constant expression.
#[derive(Debug)]
pub enum ConstantOutcome {
    Value { value: FieldDefault, type_id: TypeId },
    Failed(ConstantFailure),
    /// The host's answer to this request is needed to go on.
    NeedsHost(FloatRequest),
}

/// The identity of `Int`, which is `Int64`, in every arena.
pub open spec fn int_type_id() -> TypeId {
    TypeId(5)
}

/// The outcome of using the host's next answer, when there is one.
pub open spec fn host_answer(
    answers: Seq<Result<FloatValue, NumericError>>,
    used: nat,
    type_id: TypeId,
    out: ConstantOutcome,
    after: nat,
) -> bool {
    &&& used < answers.len()
    &&& after == used + 1
    &&& match answers[used as int] {
        Ok(v) => out == ConstantOutcome::Value { value: FieldDefault::Float(v), type_id },
        Err(e) => out == ConstantOutcome::Failed(ConstantFailure::Numeric(e)),
    }
}

/// Parsing `text` in the format `kind` on the host: its next answer, or
/// the request for it.
pub open spec fn host_parse(
    answers: Seq<Result<FloatValue, NumericError>>,
    used: nat,
    type_id: TypeId,
    text: Seq<char>,
    kind: FloatKind,
    out: ConstantOutcome,
    after: nat,
) -> bool {
    if used < answers.len() {
        host_answer(answers, used, type_id, out, after)
    } else {
        &&& after == used
        &&& out matches ConstantOutcome::NeedsHost(FloatRequest::Parse { text: t, kind: k }) && t@ == text && k == kind
    }
}

/// Float arithmetic on the host: its next answer, or the request for it.
pub open spec fn host_arithmetic(
    answers: Seq<Result<FloatValue, NumericError>>,
    used: nat,
    type_id: TypeId,
    operator: BinaryOperator,
    left: FloatValue,
    right: FloatValue,
    out: ConstantOutcome,
    after: nat,
) -> bool {
    if used < answers.len() {
        host_answer(answers, used, type_id, out, after)
    } else {
        after == used && out == ConstantOutcome::NeedsHost(FloatRequest::Arithmetic { operator, left, right })
    }
}

/// The outcome of an integer literal of `kind`.
pub open spec fn integer_literal_outcome(text: Seq<char>, kind: IntegerKind, type_id: TypeId, out: ConstantOutcome) -> bool {
    if !decimal_literal_well_formed(text) {
        out == ConstantOutcome::Failed(ConstantFailure::Numeric(NumericError::InvalidLiteral))
    } else if !decimal_literal_fits(text, kind) {
        out == ConstantOutcome::Failed(ConstantFailure::Numeric(NumericError::OutOfRange))
    } else {
        out matches ConstantOutcome::Value { value: FieldDefault::Integer(v), type_id: t } && v.integer_kind()
            == kind && v.value() == decimal_literal_value(text) && t == type_id
    }
}

/// The outcome of a number literal: it takes the expected numeric type, or
/// `Int` when none is expected.
pub open spec fn number_evaluates(
    types: Seq<SemanticTypeView>,
    text: Seq<char>,
    hint: Option<TypeId>,
    answers: Seq<Result<FloatValue, NumericError>>,
    used: nat,
    out: ConstantOutcome,
    after: nat,
) -> bool {
    let type_id = match hint {
        Some(t) => t,
        None => int_type_id(),
    };
    if (type_id.0 as int) < types.len() && types[type_id.0 as int] is Primitive {
        match types[type_id.0 as int]->Primitive_0 {
            PrimitiveType::Integer(kind) => after == used && integer_literal_outcome(text, kind, type_id, out),
            PrimitiveType::Float32 => host_parse(answers, used, type_id, text, FloatKind::Float32, out, after),
            PrimitiveType::Float64 => host_parse(answers, used, type_id, text, FloatKind::Float64, out, after),
            _ => after == used && out == ConstantOutcome::Failed(ConstantFailure::NoNumericType),
        }
    } else {
        after == used && out == ConstantOutcome::Failed(ConstantFailure::NoNumericType)
    }
}

/// The hint the operands of a binary operation get: the expected numeric
/// type for arithmetic and ordering, none otherwise.
pub open spec fn operand_hint(operator: BinaryOperator, hint: Option<TypeId>) -> Option<TypeId> {
    if operator is Add || operator is Subtract || operator is Multiply || operator is Divide
        || operator is Remainder || operator is LessThan || operator is GreaterThan {
        hint
    } else {
        None
    }
}

/// The outcome of one operator evaluation, with float arithmetic answered
/// by the host.
pub open spec fn evaluation_step(
    evaluation: ConstantEvaluation,
    type_id: TypeId,
    answers: Seq<Result<FloatValue, NumericError>>,
    used: nat,
    out: ConstantOutcome,
    after: nat,
) -> bool {
    match evaluation {
        ConstantEvaluation::Value { value, type_id: t } => after == used && out == ConstantOutcome::Value {
            value,
            type_id: t,
        },
        ConstantEvaluation::Failed(f) => after == used && out == ConstantOutcome::Failed(f),
        ConstantEvaluation::FloatArithmetic { operator, left, right } => host_arithmetic(
            answers,
            used,
            type_id,
            operator,
            left,
            right,
            out,
            after,
        ),
    }
}


/// How a unary operation goes on from its operand's outcome `inner`, with
/// `mid` answers used: a value is operated on, anything else passes through.
pub open spec fn unary_continuation(
    operator: UnaryOperator,
    answers: Seq<Result<FloatValue, NumericError>>,
    inner: ConstantOutcome,
    mid: nat,
    out: ConstantOutcome,
    after: nat,
) -> bool {
    match inner {
        ConstantOutcome::Value { value, type_id } => exists|evaluation: ConstantEvaluation|
            #[trigger] unary_evaluation(operator, type_id, value, evaluation) && evaluation_step(
                evaluation,
                type_id,
                answers,
                mid,
                out,
                after,
            ),
        _ => out == inner && after == mid,
    }
}

/// What evaluating `operator operand` gives; a negated number literal is
/// read as one literal.
pub open spec fn unary_evaluates(
    types: Seq<SemanticTypeView>,
    e: ConstantExpression,
    hint: Option<TypeId>,
    answers: Seq<Result<FloatValue, NumericError>>,
    used: nat,
    out: ConstantOutcome,
    after: nat,
) -> bool
    decreases e, 1nat,
{
    match e {
        ConstantExpression::Unary { operator, operand } => if operator is Negate && *operand is Number {
            number_evaluates(types, "-"@ + operand->Number_0@, hint, answers, used, out, after)
        } else {
            exists|inner: ConstantOutcome, mid: nat|
                evaluates(types, *operand, hint, answers, used, inner, mid) && #[trigger] unary_continuation(
                    operator,
                    answers,
                    inner,
                    mid,
                    out,
                    after,
                )
        },
        _ => false,
    }
}

/// How a binary operation goes on from its left operand's outcome `lo`
/// (with `m1` answers used) and, after a left value, its right operand's
/// outcome `ro` (with `m2` used): values of one type are operated on,
/// values of two types are a mismatch, anything else passes through.
pub open spec fn binary_continuation(
    operator: BinaryOperator,
    answers: Seq<Result<FloatValue, NumericError>>,
    lo: ConstantOutcome,
    m1: nat,
    ro: ConstantOutcome,
    m2: nat,
    out: ConstantOutcome,
    after: nat,
) -> bool {
    match lo {
        ConstantOutcome::Value { value: lv, type_id: lt } => match ro {
            ConstantOutcome::Value { value: rv, type_id: rt } => if lt != rt {
                after == m2 && out == ConstantOutcome::Failed(ConstantFailure::OperandTypeMismatch { left: lt, right: rt })
            } else {
                exists|evaluation: ConstantEvaluation|
                    #[trigger] binary_evaluation(operator, lt, lv, rv, evaluation) && evaluation_step(
                        evaluation,
                        lt,
                        answers,
                        m2,
                        out,
                        after,
                    )
            },
            _ => out == ro && after == m2,
        },
        _ => out == lo && after == m1,
    }
}

/// What evaluating `left operator right` gives: both operands with the
/// operand hint, left first; the right one only after a left value.
pub open spec fn binary_evaluates(
    types: Seq<SemanticTypeView>,
    e: ConstantExpression,
    hint: Option<TypeId>,
    answers: Seq<Result<FloatValue, NumericError>>,
    used: nat,
    out: ConstantOutcome,
    after: nat,
) -> bool
    decreases e, 1nat,
{
    match e {
        ConstantExpression::Binary { operator, left, right } => {
            let h = operand_hint(operator, hint);
            exists|lo: ConstantOutcome, m1: nat, ro: ConstantOutcome, m2: nat|
                {
                    &&& evaluates(types, *left, h, answers, used, lo, m1)
                    &&& (lo is Value ==> evaluates(types, *right, h, answers, m1, ro, m2))
                    &&& #[trigger] binary_continuation(operator, answers, lo, m1, ro, m2, out, after)
                }
        },
        _ => false,
    }
}

/// What evaluating `e` with the expected numeric type `hint` gives, having
/// used `used` of the host's answers: the outcome and how many answers were
/// used afterwards. Operands are evaluated left to right and the first
/// failure or host request ends the evaluation.
pub open spec fn evaluates(
    types: Seq<SemanticTypeView>,
    e: ConstantExpression,
    hint: Option<TypeId>,
    answers: Seq<Result<FloatValue, NumericError>>,
    used: nat,
    out: ConstantOutcome,
    after: nat,
) -> bool
    decreases e, 2nat,
{
    match e {
        ConstantExpression::Number(text) => number_evaluates(types, text@, hint, answers, used, out, after),
        ConstantExpression::String(text) => {
            &&& after == used
            &&& out matches ConstantOutcome::Value { value: FieldDefault::String(v), type_id } && v@ == text@ && type_id == TypeId(12)
        },
        ConstantExpression::Boolean(b) => after == used && out == ConstantOutcome::Value {
            value: FieldDefault::Boolean(b),
            type_id: TypeId(1),
        },
        ConstantExpression::Nil => after == used && out == ConstantOutcome::Value {
            value: FieldDefault::Nil,
            type_id: TypeId(0),
        },
        ConstantExpression::Other | ConstantExpression::Tuple(_) => after == used && out == ConstantOutcome::Failed(
            ConstantFailure::Ineligible,
        ),
        ConstantExpression::Unary { .. } => unary_evaluates(
            types,
            e,
            hint,
            answers,
            used,
            out,
            after,
        ),
        ConstantExpression::Binary { .. } => binary_evaluates(
            types,
            e,
            hint,
            answers,
            used,
            out,
            after,
        ),
    }
}

/// The host's answer to a request, when it is among the answers given, is
/// the same answer when more follow.
proof fn lemma_host_answer_ignores_later_answers(
    answers: Seq<Result<FloatValue, NumericError>>,
    more: Seq<Result<FloatValue, NumericError>>,
    used: nat,
)
    requires
        used < answers.len(),
    ensures
        (answers + more)[used as int] == answers[used as int],
{
}

proof fn lemma_number_ignores_later_answers(
    types: Seq<SemanticTypeView>,
    text: Seq<char>,
    hint: Option<TypeId>,
    answers: Seq<Result<FloatValue, NumericError>>,
    more: Seq<Result<FloatValue, NumericError>>,
    used: nat,
    out: ConstantOutcome,
    after: nat,
)
    requires
        used <= answers.len(),
        number_evaluates(types, text, hint, answers, used, out, after),
    ensures
        used <= after <= answers.len(),
        out is NeedsHost ==> after == answers.len(),
        !(out is NeedsHost) ==> number_evaluates(types, text, hint, answers + more, used, out, after),
{
    if used < answers.len() {
        lemma_host_answer_ignores_later_answers(answers, more, used);
    }
}

proof fn lemma_step_ignores_later_answers(
    evaluation: ConstantEvaluation,
    type_id: TypeId,
    answers: Seq<Result<FloatValue, NumericError>>,
    more: Seq<Result<FloatValue, NumericError>>,
    used: nat,
    out: ConstantOutcome,
    after: nat,
)
    requires
        used <= answers.len(),
        evaluation_step(evaluation, type_id, answers, used, out, after),
    ensures
        used <= after <= answers.len(),
        out is NeedsHost ==> after == answers.len(),
        !(out is NeedsHost) ==> evaluation_step(evaluation, type_id, answers + more, used, out, after),
{
    if used < answers.len() {
        lemma_host_answer_ignores_later_answers(answers, more, used);
    }
}

/// Host answers beyond those an evaluation uses do not change it: an
/// evaluation that asks the host nothing more gives the same outcome, with
/// the same answers used, when more answers follow; one that asks has used
/// every answer given.
pub proof fn law_evaluation_ignores_later_answers(
    types: Seq<SemanticTypeView>,
    e: ConstantExpression,
    hint: Option<TypeId>,
    answers: Seq<Result<FloatValue, NumericError>>,
    more: Seq<Result<FloatValue, NumericError>>,
    used: nat,
    out: ConstantOutcome,
    after: nat,
)
    requires
        used <= answers.len(),
        evaluates(types, e, hint, answers, used, out, after),
    ensures
        used <= after <= answers.len(),
        out is NeedsHost ==> after == answers.len(),
        !(out is NeedsHost) ==> evaluates(types, e, hint, answers + more, used, out, after),
    decreases e,
{
    match e {
        ConstantExpression::Number(text) => {
            lemma_number_ignores_later_answers(types, text@, hint, answers, more, used, out, after);
        },
        ConstantExpression::Unary { operator, operand } => {
            if operator is Negate && *operand is Number {
                lemma_number_ignores_later_answers(
                    types,
                    "-"@ + operand->Number_0@,
                    hint,
                    answers,
                    more,
                    used,
                    out,
                    after,
                );
            } else {
                let (inner, mid) = choose|inner: ConstantOutcome, mid: nat|
                    evaluates(types, *operand, hint, answers, used, inner, mid) && #[trigger] unary_continuation(
                        operator,
                        answers,
                        inner,
                        mid,
                        out,
                        after,
                    );
                law_evaluation_ignores_later_answers(types, *operand, hint, answers, more, used, inner, mid);
                match inner {
                    ConstantOutcome::Value { value, type_id } => {
                        let evaluation = choose|evaluation: ConstantEvaluation|
                            #[trigger] unary_evaluation(operator, type_id, value, evaluation) && evaluation_step(
                                evaluation,
                                type_id,
                                answers,
                                mid,
                                out,
                                after,
                            );
                        lemma_step_ignores_later_answers(evaluation, type_id, answers, more, mid, out, after);
                    },
                    _ => {},
                }
                if !(out is NeedsHost) {
                    assert(unary_continuation(operator, answers + more, inner, mid, out, after));
                }
            }
        },
        ConstantExpression::Binary { operator, left, right } => {
            let h = operand_hint(operator, hint);
            let (lo, m1, ro, m2) = choose|lo: ConstantOutcome, m1: nat, ro: ConstantOutcome, m2: nat|
                {
                    &&& evaluates(types, *left, h, answers, used, lo, m1)
                    &&& (lo is Value ==> evaluates(types, *right, h, answers, m1, ro, m2))
                    &&& #[trigger] binary_continuation(operator, answers, lo, m1, ro, m2, out, after)
                };
            law_evaluation_ignores_later_answers(types, *left, h, answers, more, used, lo, m1);
            if lo is Value {
                law_evaluation_ignores_later_answers(types, *right, h, answers, more, m1, ro, m2);
                match (lo, ro) {
                    (
                        ConstantOutcome::Value { value: lv, type_id: lt },
                        ConstantOutcome::Value { value: rv, type_id: rt },
                    ) => {
                        if lt == rt {
                            let evaluation = choose|evaluation: ConstantEvaluation|
                                #[trigger] binary_evaluation(operator, lt, lv, rv, evaluation) && evaluation_step(
                                    evaluation,
                                    lt,
                                    answers,
                                    m2,
                                    out,
                                    after,
                                );
                            lemma_step_ignores_later_answers(evaluation, lt, answers, more, m2, out, after);
                        }
                    },
                    _ => {},
                }
            }
            if !(out is NeedsHost) {
                assert(binary_continuation(operator, answers + more, lo, m1, ro, m2, out, after));
            }
        },
        _ => {},
    }
}

fn host_answer_of(answers: &[Result<FloatValue, NumericError>], used: usize, type_id: TypeId) -> (r: ConstantOutcome)
    requires
        used < answers@.len(),
    ensures
        host_answer(answers@, used as nat, type_id, r, used as nat + 1),
{
    match answers[used] {
        Ok(v) => ConstantOutcome::Value { value: FieldDefault::Float(v), type_id },
        Err(e) => ConstantOutcome::Failed(ConstantFailure::Numeric(e)),
    }
}

fn evaluate_number(
    arena: &TypeArena,
    text: &str,
    hint: Option<TypeId>,
    answers: &[Result<FloatValue, NumericError>],
    used: usize,
) -> (r: (ConstantOutcome, usize))
    requires
        used <= answers@.len(),
    ensures
        number_evaluates(arena.types(), text@, hint, answers@, used as nat, r.0, r.1 as nat),
        used <= r.1 <= answers@.len(),
{
    let type_id = match hint {
        Some(t) => t,
        None => TypeId(5),
    };
    match arena.get(type_id) {
        Some(SemanticType::Primitive(PrimitiveType::Integer(kind))) => {
            match IntegerValue::parse_decimal(text, *kind) {
                Ok(v) => (ConstantOutcome::Value { value: FieldDefault::Integer(v), type_id }, used),
                Err(e) => (ConstantOutcome::Failed(ConstantFailure::Numeric(e)), used),
            }
        },
        Some(SemanticType::Primitive(PrimitiveType::Float32)) => {
            if used < answers.len() {
                (host_answer_of(answers, used, type_id), used + 1)
            } else {
                (
                    ConstantOutcome::NeedsHost(
                        FloatRequest::Parse { text: String::from_str(text), kind: FloatKind::Float32 },
                    ),
                    used,
                )
            }
        },
        Some(SemanticType::Primitive(PrimitiveType::Float64)) => {
            if used < answers.len() {
                (host_answer_of(answers, used, type_id), used + 1)
            } else {
                (
                    ConstantOutcome::NeedsHost(
                        FloatRequest::Parse { text: String::from_str(text), kind: FloatKind::Float64 },
                    ),
                    used,
                )
            }
        },
        _ => (ConstantOutcome::Failed(ConstantFailure::NoNumericType), used),
    }
}

fn evaluation_outcome(
    evaluation: ConstantEvaluation,
    type_id: TypeId,
    answers: &[Result<FloatValue, NumericError>],
    used: usize,
) -> (r: (ConstantOutcome, usize))
    requires
        used <= answers@.len(),
    ensures
        evaluation_step(evaluation, type_id, answers@, used as nat, r.0, r.1 as nat),
        used <= r.1 <= answers@.len(),
{
    match evaluation {
        ConstantEvaluation::Value { value, type_id: t } => (ConstantOutcome::Value { value, type_id: t }, used),
        ConstantEvaluation::Failed(f) => (ConstantOutcome::Failed(f), used),
        ConstantEvaluation::FloatArithmetic { operator, left, right } => {
            if used < answers.len() {
                (host_answer_of(answers, used, type_id), used + 1)
            } else {
                (ConstantOutcome::NeedsHost(FloatRequest::Arithmetic { operator, left, right }), used)
            }
        },
    }
}

/// A number literal evaluates as its literal does.
proof fn lemma_number_evaluates(
    types: Seq<SemanticTypeView>,
    e: ConstantExpression,
    hint: Option<TypeId>,
    answers: Seq<Result<FloatValue, NumericError>>,
    used: nat,
    out: ConstantOutcome,
    after: nat,
)
    requires
        e is Number,
        number_evaluates(types, e->Number_0@, hint, answers, used, out, after),
    ensures
        evaluates(types, e, hint, answers, used, out, after),
{
}

/// A negated number literal evaluates as the literal with its minus sign.
proof fn lemma_negated_number_evaluates(
    types: Seq<SemanticTypeView>,
    e: ConstantExpression,
    hint: Option<TypeId>,
    answers: Seq<Result<FloatValue, NumericError>>,
    used: nat,
    out: ConstantOutcome,
    after: nat,
)
    requires
        e matches ConstantExpression::Unary { operator: UnaryOperator::Negate, operand } && (*operand is Number)
            && number_evaluates(types, "-"@ + operand->Number_0@, hint, answers, used, out, after),
    ensures
        evaluates(types, e, hint, answers, used, out, after),
{
}

/// A unary operation other than a negated literal evaluates through its
/// operand's outcome.
proof fn lemma_unary_evaluates(
    types: Seq<SemanticTypeView>,
    e: ConstantExpression,
    hint: Option<TypeId>,
    answers: Seq<Result<FloatValue, NumericError>>,
    used: nat,
    out: ConstantOutcome,
    after: nat,
    inner: ConstantOutcome,
    mid: nat,
    evaluation: ConstantEvaluation,
)
    requires
        e is Unary,
        !(e->Unary_operator is Negate && *e->Unary_operand is Number),
        evaluates(types, *e->Unary_operand, hint, answers, used, inner, mid),
        match inner {
            ConstantOutcome::Value { value, type_id } => unary_evaluation(e->Unary_operator, type_id, value, evaluation)
                && evaluation_step(evaluation, type_id, answers, mid, out, after),
            _ => out == inner && after == mid,
        },
    ensures
        evaluates(types, e, hint, answers, used, out, after),
{
    assert(unary_continuation(e->Unary_operator, answers, inner, mid, out, after));
}

/// A binary operation evaluates through its operands' outcomes, left first.
proof fn lemma_binary_evaluates(
    types: Seq<SemanticTypeView>,
    e: ConstantExpression,
    hint: Option<TypeId>,
    answers: Seq<Result<FloatValue, NumericError>>,
    used: nat,
    out: ConstantOutcome,
    after: nat,
    lo: ConstantOutcome,
    m1: nat,
    ro: ConstantOutcome,
    m2: nat,
    evaluation: ConstantEvaluation,
)
    requires
        e is Binary,
        evaluates(types, *e->Binary_left, operand_hint(e->Binary_operator, hint), answers, used, lo, m1),
        lo is Value ==> evaluates(types, *e->Binary_right, operand_hint(e->Binary_operator, hint), answers, m1, ro, m2),
        match lo {
            ConstantOutcome::Value { value: lv, type_id: lt } => match ro {
                ConstantOutcome::Value { value: rv, type_id: rt } => if lt != rt {
                    after == m2 && out == ConstantOutcome::Failed(ConstantFailure::OperandTypeMismatch { left: lt, right: rt })
                } else {
                    binary_evaluation(e->Binary_operator, lt, lv, rv, evaluation) && evaluation_step(
                        evaluation,
                        lt,
                        answers,
                        m2,
                        out,
                        after,
                    )
                },
                _ => out == ro && after == m2,
            },
            _ => out == lo && after == m1,
        },
    ensures
        evaluates(types, e, hint, answers, used, out, after),
{
    assert(binary_continuation(e->Binary_operator, answers, lo, m1, ro, m2, out, after));
}

fn evaluate_literal(
    arena: &TypeArena,
    expression: &ConstantExpression,
    hint: Option<TypeId>,
    answers: &[Result<FloatValue, NumericError>],
    used: usize,
) -> (r: (ConstantOutcome, usize))
    requires
        expression is Number,
        used <= answers@.len(),
    ensures
        number_evaluates(arena.types(), expression->Number_0@, hint, answers@, used as nat, r.0, r.1 as nat),
        used <= r.1 <= answers@.len(),
{
    match expression {
        ConstantExpression::Number(text) => evaluate_number(arena, text.as_str(), hint, answers, used),
        _ => (ConstantOutcome::Failed(ConstantFailure::Ineligible), used),
    }
}

#[verifier::spinoff_prover]
fn evaluate(
    arena: &TypeArena,
    expression: &ConstantExpression,
    hint: Option<TypeId>,
    answers: &[Result<FloatValue, NumericError>],
    used: usize,
) -> (r: (ConstantOutcome, usize))
    requires
        used <= answers@.len(),
    ensures
        evaluates(arena.types(), *expression, hint, answers@, used as nat, r.0, r.1 as nat),
        used <= r.1 <= answers@.len(),
    decreases expression,
{
    proof {
        use_type_invariant(arena);
    }
    match expression {
        ConstantExpression::Number(_) => {
            let r = evaluate_literal(arena, expression, hint, answers, used);
            proof {
                lemma_number_evaluates(arena.types(), *expression, hint, answers@, used as nat, r.0, r.1 as nat);
            }
            r
        },
        ConstantExpression::String(text) => (
            ConstantOutcome::Value { value: FieldDefault::String(text.clone()), type_id: TypeId(12) },
            used,
        ),
        ConstantExpression::Boolean(b) => (
            ConstantOutcome::Value { value: FieldDefault::Boolean(*b), type_id: TypeId(1) },
            used,
        ),
        ConstantExpression::Nil => (ConstantOutcome::Value { value: FieldDefault::Nil, type_id: TypeId(0) }, used),
        ConstantExpression::Other | ConstantExpression::Tuple(_) => (
            ConstantOutcome::Failed(ConstantFailure::Ineligible),
            used,
        ),
        ConstantExpression::Unary { operator, operand } => {
            match &**operand {
                ConstantExpression::Number(text) if *operator == UnaryOperator::Negate => {
                    let mut spelled = String::from_str("-");
                    spelled.append(text.as_str());
                    let r = evaluate_number(arena, spelled.as_str(), hint, answers, used);
                    proof {
                        lemma_negated_number_evaluates(arena.types(), *expression, hint, answers@, used as nat, r.0, r.1 as nat);
                    }
                    r
                },
                _ => {
                    let (inner, mid) = evaluate(arena, operand, hint, answers, used);
                    let ghost inner_view = inner;
                    match inner {
                        ConstantOutcome::Value { value, type_id } => {
                            let evaluation = evaluate_unary_value(arena, *operator, type_id, value);
                            let ghost evaluated = evaluation;
                            let r = evaluation_outcome(evaluation, type_id, answers, mid);
                            proof {
                                lemma_unary_evaluates(arena.types(), *expression, hint, answers@, used as nat, r.0, r.1 as nat,
                                    inner_view, mid as nat, evaluated);
                            }
                            r
                        },
                        other => {
                            proof {
                                lemma_unary_evaluates(arena.types(), *expression, hint, answers@, used as nat, other, mid as nat,
                                    inner_view, mid as nat, ConstantEvaluation::Failed(ConstantFailure::Ineligible));
                            }
                            (other, mid)
                        },
                    }
                },
            }
        },
        ConstantExpression::Binary { operator, left, right } => {
            let h = match operator {
                BinaryOperator::Add | BinaryOperator::Subtract | BinaryOperator::Multiply | BinaryOperator::Divide
                | BinaryOperator::Remainder | BinaryOperator::LessThan | BinaryOperator::GreaterThan => hint,
                _ => None,
            };
            assert(h == operand_hint(*operator, hint));
            let (lo, m1) = evaluate(arena, left, h, answers, used);
            let ghost lo_view = lo;
            let ghost unused = ConstantEvaluation::Failed(ConstantFailure::Ineligible);
            match lo {
                ConstantOutcome::Value { value: lv, type_id: lt } => {
                    let (ro, m2) = evaluate(arena, right, h, answers, m1);
                    let ghost ro_view = ro;
                    match ro {
                        ConstantOutcome::Value { value: rv, type_id: rt } => {
                            if lt != rt {
                                let r = (
                                    ConstantOutcome::Failed(
                                        ConstantFailure::OperandTypeMismatch { left: lt, right: rt },
                                    ),
                                    m2,
                                );
                                proof {
                                    lemma_binary_evaluates(arena.types(), *expression, hint, answers@, used as nat, r.0, r.1 as nat,
                                        lo_view, m1 as nat, ro_view, m2 as nat, unused);
                                }
                                r
                            } else {
                                let evaluation = evaluate_binary_values(arena, *operator, lt, lv, rv);
                                let ghost evaluated = evaluation;
                                let r = evaluation_outcome(evaluation, lt, answers, m2);
                                proof {
                                    lemma_binary_evaluates(arena.types(), *expression, hint, answers@, used as nat, r.0, r.1 as nat,
                                        lo_view, m1 as nat, ro_view, m2 as nat, evaluated);
                                }
                                r
                            }
                        },
                        other => {
                            proof {
                                lemma_binary_evaluates(arena.types(), *expression, hint, answers@, used as nat, other, m2 as nat,
                                    lo_view, m1 as nat, ro_view, m2 as nat, unused);
                            }
                            (other, m2)
                        },
                    }
                },
                other => {
                    proof {
                        lemma_binary_evaluates(arena.types(), *expression, hint, answers@, used as nat, other, m1 as nat,
                            lo_view, m1 as nat, lo_view, m1 as nat, unused);
                    }
                    (other, m1)
                },
            }
        },
    }
}

/// Evaluates a constant expression where the numeric type `numeric_hint`
/// is expected, given the host's answers to the evaluation's float requests
/// so far.
pub fn evaluate_constant(
    arena: &TypeArena,
    expression: &ConstantExpression,
    numeric_hint: Option<TypeId>,
    host_answers: &[Result<FloatValue, NumericError>],
) -> (r: ConstantOutcome)
    ensures
        exists|after: nat| evaluates(arena.types(), *expression, numeric_hint, host_answers@, 0, r, after),
{
    proof {
        use_type_invariant(arena);
    }
    let (r, after) = evaluate(arena, expression, numeric_hint, host_answers, 0);
    r
}

/// Whether a value of `found` may initialize a field of `expected`: the
/// same type, or a member of the field's union.
pub open spec fn assignable(types: Seq<SemanticTypeView>, expected: TypeId, found: TypeId) -> bool {
    ||| expected == found
    ||| (expected.0 as int) < types.len() && (types[expected.0 as int] matches SemanticTypeView::Union(members)
        && members.contains(found))
}

/// What resolving a field default gives: the evaluated value, when its
/// type fits the field, else a type mismatch; failures and host requests
/// pass through.
pub open spec fn field_default_outcome(
    types: Seq<SemanticTypeView>,
    field_type: TypeId,
    evaluated: ConstantOutcome,
    r: ConstantOutcome,
) -> bool {
    match evaluated {
        ConstantOutcome::Value { value, type_id } => if assignable(types, field_type, type_id) {
            r == evaluated
        } else {
            r == ConstantOutcome::Failed(ConstantFailure::FieldTypeMismatch { expected: field_type, found: type_id })
        },
        _ => r == evaluated,
    }
}

/// Resolves the default of a field of type `field_type`: the expression is
/// evaluated where the field's numeric type is expected, and its value must
/// fit the field.
pub fn resolve_field_default(
    arena: &TypeArena,
    field_type: TypeId,
    expression: &ConstantExpression,
    host_answers: &[Result<FloatValue, NumericError>],
) -> (r: ConstantOutcome)
    ensures
        exists|evaluated: ConstantOutcome, after: nat|
            #[trigger] evaluates(arena.types(), *expression, numeric_hint(arena.types(), field_type), host_answers@, 0, evaluated, after)
                && field_default_outcome(arena.types(), field_type, evaluated, r),
{
    proof {
        use_type_invariant(arena);
    }
    let hint = numeric_type_for_expected(arena, field_type);
    let (evaluated, after) = evaluate(arena, expression, hint, host_answers, 0);
    let ghost evaluated_view = evaluated;
    proof {
        assert(evaluates(arena.types(), *expression, numeric_hint(arena.types(), field_type), host_answers@, 0, evaluated_view, after as nat));
    }
    match evaluated {
        ConstantOutcome::Value { value, type_id } => {
            let fits = if field_type == type_id {
                true
            } else {
                match arena.get(field_type) {
                    Some(SemanticType::Union(members)) => contains_type(members.as_slice(), type_id),
                    _ => false,
                }
            };
            if fits {
                ConstantOutcome::Value { value, type_id }
            } else {
                ConstantOutcome::Failed(ConstantFailure::FieldTypeMismatch { expected: field_type, found: type_id })
            }
        },
        other => other,
    }
}

fn contains_type(s: &[TypeId], t: TypeId) -> (r: bool)
    ensures
        r == s@.contains(t),
{
    let mut i: usize = 0;
    while i < s.len()
        invariant
            i <= s@.len(),
            forall|k: int| 0 <= k < i ==> s@[k] != t,
        decreases s.len() - i,
    {
        if s[i] == t {
            return true;
        }
        i = i + 1;
    }
    false
}

} // verus!
