//! Static types, constraints, inference, and normalization of the Pop
//! language semantic model.
use vstd::prelude::*;

pub mod ids;
pub mod text;
pub mod order;
pub mod kinds;
pub mod numeric;
pub mod numeric_order;
pub mod effects;
pub mod lifetime;
pub mod ffi;
pub mod classes;
pub mod inference;
pub mod semantic;
pub mod views;
pub mod id_sets;
pub mod specializations;
pub mod tsv;
pub mod bootstrap;
pub mod attributes;
pub mod attribute_queries;
pub mod attribute_arguments;
pub mod arena;
pub mod constants;
pub mod constant_expressions;
pub mod actors;
pub mod substitution;
pub mod canonical;
pub mod laws;
pub mod descriptors;
pub mod nominal_bounds;
pub mod match_arms;
pub mod operators;
pub mod ffi_abi;
pub mod pattern_inference;

pub use ids::{
    AttributeId, BubbleId, BuiltinTypeId, ClassId, EnumCaseId, ErrorId, FunctionId, InterfaceId,
    IterationCaseId, IterationProtocolMethodId, OpaqueId, ParameterId, SourceSpan, StandardFunctionId,
    SymbolId, SymbolIdentity, TypeId,
};
pub use kinds::{IntegerKind, IntegerOverflow, PrimitiveSchemaEntry, PrimitiveType};
pub use numeric::{FloatKind, FloatValue, IntegerValue, NumericError};
pub use effects::{Effect, EffectSummary};
pub use lifetime::{
    CallableLifetimeSummary, ParameterRetention, ResultProvenance, CALLABLE_LIFETIME_PROOF_VERSION,
};
pub use ffi::{
    FfiCallbackAbi, FfiCallbackBindingContract, FfiCallbackConcurrency, FfiCallbackLifetime,
    FfiCallbackPairContract, FfiCallbackPanicPolicy, FfiCallbackReentrancy, FfiCallbackThreadPolicy,
    ForeignAbi, ForeignFunctionDeclaration,
};
pub use classes::{ClassContract, ClassExtensibility, ClassMethodDispatch};
pub use inference::{InferenceContext, InferenceError, InferenceType, InferenceVariableId};
pub use semantic::SemanticType;
pub use views::{ViewBorrow, ViewKind, ViewLenderProvenance};
pub use canonical::{CanonicalNominalIdentity, CanonicalTypeIdentity};
pub use arena::{TypeArena, TypeArenaError};

verus! {
} // verus!
