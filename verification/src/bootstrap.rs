//! The trusted bootstrap vocabulary: primitive, type, intrinsic, attribute
//! and standard-function entries, and the stable identities the compiler
//! relies on.
use vstd::prelude::*;

use crate::effects::{Effect, EffectSummary};
use crate::kinds::{primitive_schema, PrimitiveType};
use crate::text::str_eq;
use crate::tsv::{
    chars_of, first_index_of, lemma_first_index_from, parse_unsigned, split_lines, split_on,
    split_text, text_lines, unsigned_value,
};
use crate::ids::{
    AttributeId, BuiltinTypeId, EnumCaseId, IterationCaseId, IterationProtocolMethodId,
    StandardFunctionId,
};

verus! {

/// Identity of one compiler-known attribute, distinct from every user attribute.
#[derive(Clone, Copy, Debug, PartialEq, Eq, Structural, Hash, PartialOrd, Ord)]
pub struct CompilerAttributeId(pub u32);

impl CompilerAttributeId {
    pub fn raw(self) -> (r: u32)
        ensures
            r == self.0,
    {
        self.0
    }
}

/// An attribute, compiler-known or declared by a user.
#[derive(Clone, Copy, Debug, PartialEq, Eq, Structural, Hash, PartialOrd, Ord)]
pub enum AttributeIdentity {
    Compiler(CompilerAttributeId),
    User(AttributeId),
}

impl From<AttributeId> for AttributeIdentity {
    fn from(attribute: AttributeId) -> (r: Self) {
        AttributeIdentity::User(attribute)
    }
}

impl vstd::std_specs::convert::FromSpecImpl<AttributeId> for AttributeIdentity {
    open spec fn obeys_from_spec() -> bool {
        true
    }

    open spec fn from_spec(attribute: AttributeId) -> Self {
        AttributeIdentity::User(attribute)
    }
}

/// What a compiler-known attribute means to the compiler.
#[derive(Clone, Copy, Debug, PartialEq, Eq, Structural, Hash, PartialOrd, Ord)]
pub enum CompilerAttributeRole {
    CompileTime,
    AttributeUsage,
    AttributeValidator,
    RetainMetadata,
    FfiLink,
    FfiForeign,
    FfiNonblocking,
    FfiCLayout,
}

/// Where a compiler-known attribute may be attached.
#[derive(Clone, Copy, Debug, PartialEq, Eq, Structural, Hash, PartialOrd, Ord)]
pub enum CompilerAttributeTarget {
    Function,
    Attribute,
    Namespace,
    Record,
    DataType,
}

/// The kind of value a bootstrap type constructor builds.
#[derive(Clone, Copy, Debug, PartialEq, Eq, Structural)]
pub enum BootstrapTypeRole {
    Array,
    Table,
    Nominal,
    Interface,
    View,
}

/// One standard-library function known to the compiler.
#[derive(Debug)]
pub struct BootstrapStandardFunctionEntry {
    id: StandardFunctionId,
    source_name: &'static str,
    owner_bubble: &'static str,
    parameter_types: Vec<&'static str>,
    result_types: Vec<&'static str>,
    effects: Vec<&'static str>,
    prelude: bool,
}

/// The content of a standard-function entry.
pub struct StandardFunctionView {
    pub id: StandardFunctionId,
    pub source_name: Seq<char>,
    pub owner_bubble: Seq<char>,
    pub parameter_types: Seq<Seq<char>>,
    pub result_types: Seq<Seq<char>>,
    pub effects: Seq<Seq<char>>,
    pub prelude: bool,
}

/// The character contents of a list of names.
pub open spec fn name_views(v: Seq<&'static str>) -> Seq<Seq<char>> {
    v.map_values(|s: &'static str| s@)
}

impl BootstrapStandardFunctionEntry {
    pub closed spec fn view(&self) -> StandardFunctionView {
        StandardFunctionView {
            id: self.id,
            source_name: self.source_name@,
            owner_bubble: self.owner_bubble@,
            parameter_types: name_views(self.parameter_types@),
            result_types: name_views(self.result_types@),
            effects: name_views(self.effects@),
            prelude: self.prelude,
        }
    }

    pub fn id(&self) -> (r: StandardFunctionId)
        ensures
            r == self@.id,
    {
        self.id
    }

    pub fn source_name(&self) -> (r: &'static str)
        ensures
            r@ == self@.source_name,
    {
        self.source_name
    }

    pub fn parameter_types(&self) -> (r: &[&'static str])
        ensures
            name_views(r@) == self@.parameter_types,
    {
        self.parameter_types.as_slice()
    }

    pub fn result_types(&self) -> (r: &[&'static str])
        ensures
            name_views(r@) == self@.result_types,
    {
        self.result_types.as_slice()
    }

    pub fn effects(&self) -> (r: &[&'static str])
        ensures
            name_views(r@) == self@.effects,
    {
        self.effects.as_slice()
    }

    pub fn owner_bubble(&self) -> (r: &'static str)
        ensures
            r@ == self@.owner_bubble,
    {
        self.owner_bubble
    }

    pub fn is_in_prelude(&self) -> (r: bool)
        ensures
            r == self@.prelude,
    {
        self.prelude
    }
}

/// One compiler-known attribute.
#[derive(Clone, Copy, Debug)]
pub struct BootstrapCompilerAttributeEntry {
    id: CompilerAttributeId,
    source_name: &'static str,
    owner_bubble: &'static str,
    argument_count: u16,
    target: CompilerAttributeTarget,
    role: CompilerAttributeRole,
    prelude: bool,
}

/// The content of a compiler-attribute entry.
pub struct CompilerAttributeView {
    pub id: CompilerAttributeId,
    pub source_name: Seq<char>,
    pub owner_bubble: Seq<char>,
    pub argument_count: u16,
    pub target: CompilerAttributeTarget,
    pub role: CompilerAttributeRole,
    pub prelude: bool,
}

impl BootstrapCompilerAttributeEntry {
    pub closed spec fn view(self) -> CompilerAttributeView {
        CompilerAttributeView {
            id: self.id,
            source_name: self.source_name@,
            owner_bubble: self.owner_bubble@,
            argument_count: self.argument_count,
            target: self.target,
            role: self.role,
            prelude: self.prelude,
        }
    }

    pub fn id(self) -> (r: CompilerAttributeId)
        ensures
            r == self@.id,
    {
        self.id
    }

    /// The attribute's identity among all attributes.
    pub fn identity(self) -> (r: AttributeIdentity)
        ensures
            r == AttributeIdentity::Compiler(self@.id),
    {
        AttributeIdentity::Compiler(self.id)
    }

    pub fn source_name(self) -> (r: &'static str)
        ensures
            r@ == self@.source_name,
    {
        self.source_name
    }

    pub fn owner_bubble(self) -> (r: &'static str)
        ensures
            r@ == self@.owner_bubble,
    {
        self.owner_bubble
    }

    pub fn argument_count(self) -> (r: u16)
        ensures
            r == self@.argument_count,
    {
        self.argument_count
    }

    pub fn target(self) -> (r: CompilerAttributeTarget)
        ensures
            r == self@.target,
    {
        self.target
    }

    pub fn role(self) -> (r: CompilerAttributeRole)
        ensures
            r == self@.role,
    {
        self.role
    }

    pub fn is_in_prelude(self) -> (r: bool)
        ensures
            r == self@.prelude,
    {
        self.prelude
    }
}

/// One primitive's metadata.
#[derive(Clone, Copy, Debug)]
pub struct BootstrapPrimitiveEntry {
    source_name: &'static str,
    canonical_name: &'static str,
    runtime_role: &'static str,
}

impl BootstrapPrimitiveEntry {
    /// (source name, canonical name, runtime role).
    pub closed spec fn view(self) -> (Seq<char>, Seq<char>, Seq<char>) {
        (self.source_name@, self.canonical_name@, self.runtime_role@)
    }

    pub fn source_name(self) -> (r: &'static str)
        ensures
            r@ == self@.0,
    {
        self.source_name
    }

    pub fn canonical_name(self) -> (r: &'static str)
        ensures
            r@ == self@.1,
    {
        self.canonical_name
    }

    pub fn runtime_role(self) -> (r: &'static str)
        ensures
            r@ == self@.2,
    {
        self.runtime_role
    }
}

/// One compiler intrinsic.
#[derive(Debug)]
pub struct BootstrapIntrinsicEntry {
    intrinsic_id: &'static str,
    owner: &'static str,
    signature: &'static str,
    lowering_kind: &'static str,
    required_capabilities: Vec<&'static str>,
}

/// The content of an intrinsic entry.
pub struct IntrinsicView {
    pub intrinsic_id: Seq<char>,
    pub owner: Seq<char>,
    pub signature: Seq<char>,
    pub lowering_kind: Seq<char>,
    pub required_capabilities: Seq<Seq<char>>,
}

impl BootstrapIntrinsicEntry {
    pub closed spec fn view(&self) -> IntrinsicView {
        IntrinsicView {
            intrinsic_id: self.intrinsic_id@,
            owner: self.owner@,
            signature: self.signature@,
            lowering_kind: self.lowering_kind@,
            required_capabilities: name_views(self.required_capabilities@),
        }
    }

    pub fn intrinsic_id(&self) -> (r: &'static str)
        ensures
            r@ == self@.intrinsic_id,
    {
        self.intrinsic_id
    }

    pub fn owner(&self) -> (r: &'static str)
        ensures
            r@ == self@.owner,
    {
        self.owner
    }

    pub fn signature(&self) -> (r: &'static str)
        ensures
            r@ == self@.signature,
    {
        self.signature
    }

    pub fn lowering_kind(&self) -> (r: &'static str)
        ensures
            r@ == self@.lowering_kind,
    {
        self.lowering_kind
    }

    pub fn required_capabilities(&self) -> (r: &[&'static str])
        ensures
            name_views(r@) == self@.required_capabilities,
    {
        self.required_capabilities.as_slice()
    }
}

/// One bootstrap type constructor.
#[derive(Clone, Copy, Debug)]
pub struct BootstrapTypeEntry {
    id: BuiltinTypeId,
    source_name: &'static str,
    owner_bubble: &'static str,
    arity: u16,
    role: BootstrapTypeRole,
    prelude: bool,
}

/// The content of a type entry.
pub struct TypeEntryView {
    pub id: BuiltinTypeId,
    pub source_name: Seq<char>,
    pub owner_bubble: Seq<char>,
    pub arity: u16,
    pub role: BootstrapTypeRole,
    pub prelude: bool,
}

impl BootstrapTypeEntry {
    pub closed spec fn view(self) -> TypeEntryView {
        TypeEntryView {
            id: self.id,
            source_name: self.source_name@,
            owner_bubble: self.owner_bubble@,
            arity: self.arity,
            role: self.role,
            prelude: self.prelude,
        }
    }

    pub fn id(self) -> (r: BuiltinTypeId)
        ensures
            r == self@.id,
    {
        self.id
    }

    pub fn source_name(self) -> (r: &'static str)
        ensures
            r@ == self@.source_name,
    {
        self.source_name
    }

    pub fn owner_bubble(self) -> (r: &'static str)
        ensures
            r@ == self@.owner_bubble,
    {
        self.owner_bubble
    }

    pub fn arity(self) -> (r: u16)
        ensures
            r == self@.arity,
    {
        self.arity
    }

    pub fn role(self) -> (r: BootstrapTypeRole)
        ensures
            r == self@.role,
    {
        self.role
    }

    pub fn is_in_prelude(self) -> (r: bool)
        ensures
            r == self@.prelude,
    {
        self.prelude
    }
}

/// The five types of the iteration protocol.
#[derive(Clone, Copy, Debug, PartialEq, Eq, Structural)]
pub struct BootstrapIterationProtocol {
    iteration: BuiltinTypeId,
    iterable: BuiltinTypeId,
    iterator: BuiltinTypeId,
    list: BuiltinTypeId,
    range: BuiltinTypeId,
}

/// The effects a member of the iteration protocol may have at most.
pub open spec fn iteration_method_effects(
    iterable: BuiltinTypeId,
    iterator: BuiltinTypeId,
    interface: BuiltinTypeId,
    method: IterationProtocolMethodId,
) -> Option<Set<Effect>> {
    if method.0 == 0 && (interface.0 == iterable.0 || interface.0 == iterator.0) {
        Some(Set::empty())
    } else if interface.0 == iterator.0 && method.0 == 1 {
        Some(set![Effect::WritesManagedReference, Effect::MayTrap, Effect::GcSafePoint])
    } else {
        None
    }
}

impl BootstrapIterationProtocol {
    /// (iteration, iterable, iterator, list, range).
    pub closed spec fn view(self) -> (BuiltinTypeId, BuiltinTypeId, BuiltinTypeId, BuiltinTypeId, BuiltinTypeId) {
        (self.iteration, self.iterable, self.iterator, self.list, self.range)
    }

    pub fn iteration(self) -> (r: BuiltinTypeId)
        ensures
            r == self@.0,
    {
        self.iteration
    }

    pub fn iterable(self) -> (r: BuiltinTypeId)
        ensures
            r == self@.1,
    {
        self.iterable
    }

    pub fn iterator(self) -> (r: BuiltinTypeId)
        ensures
            r == self@.2,
    {
        self.iterator
    }

    pub fn list(self) -> (r: BuiltinTypeId)
        ensures
            r == self@.3,
    {
        self.list
    }

    pub fn range(self) -> (r: BuiltinTypeId)
        ensures
            r == self@.4,
    {
        self.range
    }

    pub fn item_case(self) -> (r: IterationCaseId)
        ensures
            r.0 == 0,
    {
        IterationCaseId(0)
    }

    pub fn end_case(self) -> (r: IterationCaseId)
        ensures
            r.0 == 1,
    {
        IterationCaseId(1)
    }

    pub fn iterator_method(self) -> (r: IterationProtocolMethodId)
        ensures
            r.0 == 0,
    {
        IterationProtocolMethodId(0)
    }

    pub fn next_method(self) -> (r: IterationProtocolMethodId)
        ensures
            r.0 == 1,
    {
        IterationProtocolMethodId(1)
    }

    /// The closed upper bound on the effects of one exact protocol member:
    /// none for `iterator()` on either interface, and managed writes, traps
    /// and safe points for `next()` on the iterator. Implementations may have
    /// fewer, never more.
    pub fn method_effects(self, interface: BuiltinTypeId, method: IterationProtocolMethodId) -> (r:
        Option<EffectSummary>)
        ensures
            match iteration_method_effects(self@.1, self@.2, interface, method) {
                Some(s) => r matches Some(e) && e@ == s,
                None => r is None,
            },
    {
        if method.0 == 0 && (interface.0 == self.iterable.0 || interface.0 == self.iterator.0) {
            Some(EffectSummary::empty())
        } else if interface.0 == self.iterator.0 && method.0 == 1 {
            let r = EffectSummary::empty().with(Effect::WritesManagedReference).with(
                Effect::MayTrap,
            ).with(Effect::GcSafePoint);
            proof {
                assert(r@ =~= set![Effect::WritesManagedReference, Effect::MayTrap, Effect::GcSafePoint]);
            }
            Some(r)
        } else {
            None
        }
    }
}

/// Whether an identity belongs to the closed FFI ABI vocabulary: scalar
/// native representations, never managed-reference tokens.
pub open spec fn ffi_abi_identity(raw: u32) -> bool {
    (200 <= raw <= 206) || (210 <= raw <= 223)
}

/// Whether an identity is one of the closed FFI ABI types.
pub fn is_ffi_abi_builtin_type(id: BuiltinTypeId) -> (r: bool)
    ensures
        r == ffi_abi_identity(id.0),
{
    (200 <= id.0 && id.0 <= 206) || (210 <= id.0 && id.0 <= 223)
}

/// Whether an identity is one of the closed C integer ABI scalars.
pub fn is_ffi_integer_abi_builtin_type(id: BuiltinTypeId) -> (r: bool)
    ensures
        r == (210 <= id.0 <= 222),
{
    210 <= id.0 && id.0 <= 222
}

/// The C integer types of the FFI vocabulary.
#[derive(Clone, Copy, Debug, PartialEq, Eq, Structural)]
pub enum FfiCIntegerKind {
    Char,
    SignedChar,
    UnsignedChar,
    Short,
    UnsignedShort,
    Int,
    UnsignedInt,
    Long,
    UnsignedLong,
    LongLong,
    UnsignedLongLong,
    Size,
    PointerDifference,
}

/// The C integer kinds in identity order, from identity 210 on.
pub open spec fn ffi_c_integer_kinds() -> Seq<FfiCIntegerKind> {
    seq![
        FfiCIntegerKind::Char,
        FfiCIntegerKind::SignedChar,
        FfiCIntegerKind::UnsignedChar,
        FfiCIntegerKind::Short,
        FfiCIntegerKind::UnsignedShort,
        FfiCIntegerKind::Int,
        FfiCIntegerKind::UnsignedInt,
        FfiCIntegerKind::Long,
        FfiCIntegerKind::UnsignedLong,
        FfiCIntegerKind::LongLong,
        FfiCIntegerKind::UnsignedLongLong,
        FfiCIntegerKind::Size,
        FfiCIntegerKind::PointerDifference,
    ]
}

/// The C integer kind of its stable identity.
pub fn ffi_c_integer_kind(id: BuiltinTypeId) -> (r: Option<FfiCIntegerKind>)
    ensures
        r == if 210 <= id.0 <= 222 {
            Some(ffi_c_integer_kinds()[id.0 - 210])
        } else {
            None
        },
{
    match id.0 {
        210 => Some(FfiCIntegerKind::Char),
        211 => Some(FfiCIntegerKind::SignedChar),
        212 => Some(FfiCIntegerKind::UnsignedChar),
        213 => Some(FfiCIntegerKind::Short),
        214 => Some(FfiCIntegerKind::UnsignedShort),
        215 => Some(FfiCIntegerKind::Int),
        216 => Some(FfiCIntegerKind::UnsignedInt),
        217 => Some(FfiCIntegerKind::Long),
        218 => Some(FfiCIntegerKind::UnsignedLong),
        219 => Some(FfiCIntegerKind::LongLong),
        220 => Some(FfiCIntegerKind::UnsignedLongLong),
        221 => Some(FfiCIntegerKind::Size),
        222 => Some(FfiCIntegerKind::PointerDifference),
        _ => None,
    }
}

/// Whether an identity is a mutable or read-only FFI pointer constructor,
/// optional forms included.
pub fn is_ffi_pointer_type_constructor(id: BuiltinTypeId) -> (r: bool)
    ensures
        r == (id.0 == 200 || id.0 == 201 || id.0 == 205 || id.0 == 206),
{
    id.0 == 200 || id.0 == 201 || id.0 == 205 || id.0 == 206
}

/// Whether an identity is an FFI function-pointer constructor, optional
/// form included.
pub fn is_ffi_function_type_constructor(id: BuiltinTypeId) -> (r: bool)
    ensures
        r == (id.0 == 202 || id.0 == 203),
{
    id.0 == 202 || id.0 == 203
}

/// Raw bootstrap identities of the trusted type constructors.
///
/// `Ffi.Handle<T>`.
pub const FFI_HANDLE_TYPE_ID: u32 = 204;
/// `Ffi.Function<TSignature>`.
pub const FFI_FUNCTION_TYPE_ID: u32 = 202;
/// `Ffi.Pointer<T>`.
pub const FFI_POINTER_TYPE_ID: u32 = 200;
/// `Ffi.OptionalPointer<T>`.
pub const FFI_OPTIONAL_POINTER_TYPE_ID: u32 = 201;
/// `Ffi.ReadOnlyPointer<T>`.
pub const FFI_READ_ONLY_POINTER_TYPE_ID: u32 = 205;
/// `Ffi.OptionalReadOnlyPointer<T>`.
pub const FFI_OPTIONAL_READ_ONLY_POINTER_TYPE_ID: u32 = 206;
/// `Ffi.Buffer<T>`.
pub const FFI_BUFFER_TYPE_ID: u32 = 207;
/// `Ffi.NullPointerError`.
pub const FFI_NULL_POINTER_ERROR_TYPE_ID: u32 = 208;
/// `Ffi.AllocationError`.
pub const FFI_ALLOCATION_ERROR_TYPE_ID: u32 = 209;
/// The opaque `Ffi.CallbackContext`.
pub const FFI_CALLBACK_CONTEXT_TYPE_ID: u32 = 223;
/// `Ffi.RegisteredCallback<TSignature>`.
pub const FFI_REGISTERED_CALLBACK_TYPE_ID: u32 = 224;
/// The closed `Ffi.CallbackThread` enum.
pub const FFI_CALLBACK_THREAD_TYPE_ID: u32 = 225;
/// `Ffi.CallbackOpenError`.
pub const FFI_CALLBACK_OPEN_ERROR_TYPE_ID: u32 = 226;
/// `Ffi.CallbackInUseError`.
pub const FFI_CALLBACK_IN_USE_ERROR_TYPE_ID: u32 = 227;
/// `Ffi.CallbackClosedError`.
pub const FFI_CALLBACK_CLOSED_ERROR_TYPE_ID: u32 = 228;
/// The owning `Bytes` value kind.
pub const BYTES_TYPE_ID: u32 = 0;
/// The non-owning `Bytes.View` value kind.
pub const BYTES_VIEW_TYPE_ID: u32 = 122;
/// The non-owning `Text.View` value kind.
pub const TEXT_VIEW_TYPE_ID: u32 = 123;
/// The sealed `Codec.Error` value kind.
pub const CODEC_ERROR_TYPE_ID: u32 = 121;

/// Why a codec operation failed.
#[derive(Clone, Copy, Debug, PartialEq, Eq, Structural, Hash, PartialOrd, Ord)]
pub enum CodecErrorReason {
    MalformedInput,
    LimitExceeded,
    CapabilityFailure,
}

/// The protocol status of each reason, in declaration order from 1.
pub open spec fn codec_status(reason: CodecErrorReason) -> u8 {
    match reason {
        CodecErrorReason::MalformedInput => 1,
        CodecErrorReason::LimitExceeded => 2,
        CodecErrorReason::CapabilityFailure => 3,
    }
}

impl CodecErrorReason {
    /// The enum case of the reason: its declaration position.
    pub fn case(self) -> (r: EnumCaseId)
        ensures
            r.0 == codec_status(self) - 1,
    {
        match self {
            CodecErrorReason::MalformedInput => EnumCaseId(0),
            CodecErrorReason::LimitExceeded => EnumCaseId(1),
            CodecErrorReason::CapabilityFailure => EnumCaseId(2),
        }
    }

    pub fn source_name(self) -> (r: &'static str)
        ensures
            r@ == match self {
                CodecErrorReason::MalformedInput => "MalformedInput"@,
                CodecErrorReason::LimitExceeded => "LimitExceeded"@,
                CodecErrorReason::CapabilityFailure => "CapabilityFailure"@,
            },
    {
        match self {
            CodecErrorReason::MalformedInput => "MalformedInput",
            CodecErrorReason::LimitExceeded => "LimitExceeded",
            CodecErrorReason::CapabilityFailure => "CapabilityFailure",
        }
    }

    pub fn protocol_status(self) -> (r: u8)
        ensures
            r == codec_status(self),
    {
        match self {
            CodecErrorReason::MalformedInput => 1,
            CodecErrorReason::LimitExceeded => 2,
            CodecErrorReason::CapabilityFailure => 3,
        }
    }

    /// The reason with this protocol status, if any.
    pub fn from_protocol_status(status: u8) -> (r: Option<Self>)
        ensures
            r matches Some(reason) ==> codec_status(reason) == status,
            r is None <==> !(1 <= status <= 3),
    {
        match status {
            1 => Some(CodecErrorReason::MalformedInput),
            2 => Some(CodecErrorReason::LimitExceeded),
            3 => Some(CodecErrorReason::CapabilityFailure),
            _ => None,
        }
    }
}

/// A reason's protocol status reads back as the same reason, and every
/// status that names a reason is the status of that reason.
pub proof fn lemma_codec_status_round_trip(reason: CodecErrorReason, status: u8)
    ensures
        1 <= codec_status(reason) <= 3,
        (1 <= status <= 3) ==> exists|r: CodecErrorReason| codec_status(r) == status,
        forall|a: CodecErrorReason, b: CodecErrorReason| codec_status(a) == codec_status(b) ==> a == b,
{
    if status == 1 {
        assert(codec_status(CodecErrorReason::MalformedInput) == status);
    } else if status == 2 {
        assert(codec_status(CodecErrorReason::LimitExceeded) == status);
    } else if status == 3 {
        assert(codec_status(CodecErrorReason::CapabilityFailure) == status);
    }
}

/// The sealed codec error type of the bootstrap vocabulary.
#[derive(Clone, Copy, Debug, PartialEq, Eq, Structural)]
pub struct BootstrapCodecErrorProtocol {
    error: BuiltinTypeId,
}

impl BootstrapCodecErrorProtocol {
    pub closed spec fn view(self) -> BuiltinTypeId {
        self.error
    }

    pub fn error(self) -> (r: BuiltinTypeId)
        ensures
            r == self@,
    {
        self.error
    }

    pub fn malformed_input_case(self) -> (r: EnumCaseId)
        ensures
            r.0 == 0,
    {
        CodecErrorReason::MalformedInput.case()
    }

    pub fn limit_exceeded_case(self) -> (r: EnumCaseId)
        ensures
            r.0 == 1,
    {
        CodecErrorReason::LimitExceeded.case()
    }

    pub fn capability_failure_case(self) -> (r: EnumCaseId)
        ensures
            r.0 == 2,
    {
        CodecErrorReason::CapabilityFailure.case()
    }
}

} // verus!

verus! {

/// Why a bootstrap document was refused: the document, the line, the reason.
#[derive(Clone, Copy, Debug)]
pub struct BootstrapSchemaError {
    document: &'static str,
    line: usize,
    reason: &'static str,
}

impl BootstrapSchemaError {
    /// (document, line, reason).
    pub closed spec fn view(self) -> (Seq<char>, int, Seq<char>) {
        (self.document@, self.line as int, self.reason@)
    }

    pub fn document(self) -> (r: &'static str)
        ensures
            r@ == self@.0,
    {
        self.document
    }

    pub fn line(self) -> (r: usize)
        ensures
            r == self@.1,
    {
        self.line
    }

    pub fn reason(self) -> (r: &'static str)
        ensures
            r@ == self@.2,
    {
        self.reason
    }
}

fn error(document: &'static str, line: usize, reason: &'static str) -> (r: BootstrapSchemaError)
    ensures
        r@ == (document@, line as int, reason@),
{
    BootstrapSchemaError { document, line, reason }
}

/// The schema version a document's first line declares: `schemaVersion`, a
/// tab, and an unsigned 32-bit number; or why it does not.
pub open spec fn version_outcome(lines: Seq<Seq<char>>) -> Result<u32, Seq<char>> {
    if lines.len() == 0 {
        Err("missing schema version"@)
    } else {
        match first_index_of(lines[0], '\t') {
            None => Err("missing schema version"@),
            Some(i) => if lines[0].take(i) != "schemaVersion"@ {
                Err("unexpected version key"@)
            } else {
                match unsigned_value(lines[0].skip(i + 1), 0xffff_ffff) {
                    Some(v) => Ok(v as u32),
                    None => Err("invalid schema version"@),
                }
            },
        }
    }
}

/// Reading the data lines of a document, the first numbered `first`: empty
/// lines are skipped, each other line is split at tabs and read by `row`;
/// the first refused line gives its number and reason.
pub open spec fn parse_rows<T>(
    lines: Seq<Seq<char>>,
    first: int,
    row: spec_fn(Seq<Seq<char>>) -> Result<T, Seq<char>>,
) -> Result<Seq<T>, (int, Seq<char>)>
    decreases lines.len(),
{
    if lines.len() == 0 {
        Ok(Seq::empty())
    } else if lines[0].len() == 0 {
        parse_rows(lines.drop_first(), first + 1, row)
    } else {
        match row(split_on(lines[0], '\t')) {
            Err(reason) => Err((first, reason)),
            Ok(e) => match parse_rows(lines.drop_first(), first + 1, row) {
                Err(x) => Err(x),
                Ok(rest) => Ok(seq![e] + rest),
            },
        }
    }
}

/// Reading a whole document: version line, the exact header line, then rows.
pub open spec fn parse_document<T>(
    text: Seq<char>,
    header: Seq<char>,
    row: spec_fn(Seq<Seq<char>>) -> Result<T, Seq<char>>,
) -> Result<(u32, Seq<T>), (int, Seq<char>)> {
    let lines = text_lines(text);
    match version_outcome(lines) {
        Err(reason) => Err((1, reason)),
        Ok(v) => if lines.len() > 1 && lines[1] == header {
            match parse_rows(lines.skip(2), 3, row) {
                Err(x) => Err(x),
                Ok(es) => Ok((v, es)),
            }
        } else {
            Err((2, "unexpected header"@))
        },
    }
}

/// The character contents of a list of fields.
pub open spec fn field_texts(v: Seq<&'static str>) -> Seq<Seq<char>> {
    v.map_values(|s: &'static str| s@)
}

/// One kind of entry read from a row of a bootstrap document.
pub trait SchemaRow: Sized {
    type Content;

    /// The content of an entry.
    spec fn content(&self) -> Self::Content;

    /// What reading a row of fields gives: the content, or the reason it is refused.
    spec fn row_outcome(fields: Seq<Seq<char>>) -> Result<Self::Content, Seq<char>>;

    /// Reads one row of fields.
    fn read_row(fields: &Vec<&'static str>) -> (r: Result<Self, &'static str>)
        ensures
            match Self::row_outcome(field_texts(fields@)) {
                Ok(c) => r matches Ok(e) && e.content() == c,
                Err(reason) => r matches Err(x) && x@ == reason,
            },
    ;
}

/// Reading a row as entry kind `T` does.
pub open spec fn row_reader<T: SchemaRow>() -> spec_fn(Seq<Seq<char>>) -> Result<T::Content, Seq<char>> {
    |f: Seq<Seq<char>>| T::row_outcome(f)
}

/// The contents of a list of entries.
pub open spec fn contents<T: SchemaRow>(v: Seq<T>) -> Seq<T::Content> {
    v.map_values(|e: T| e.content())
}

/// Reads the first line of a document as its schema version.
fn read_version(lines: &Vec<&'static str>) -> (r: Result<u32, &'static str>)
    ensures
        match version_outcome(field_texts(lines@)) {
            Ok(v) => r == Ok::<u32, &'static str>(v),
            Err(reason) => r matches Err(x) && x@ == reason,
        },
{
    if lines.len() == 0 {
        return Err("missing schema version");
    }
    let line = lines[0];
    let chars = chars_of(line);
    let mut i: usize = 0;
    while i < chars.len()
        invariant
            i <= chars@.len(),
            chars@ == line@,
            forall|k: int| 0 <= k < i ==> chars@[k] != '\t',
        ensures
            i <= chars@.len(),
            forall|k: int| 0 <= k < i ==> chars@[k] != '\t',
            i < chars@.len() ==> chars@[i as int] == '\t',
        decreases chars.len() - i,
    {
        if chars[i] == '\t' {
            break;
        }
        i = i + 1;
    }
    proof {
        assert(i < chars@.len() ==> chars@[i as int] == '\t');
        assert(field_texts(lines@)[0] == line@);
        lemma_first_index_from(line@, '\t', i as int);
    }
    if i == chars.len() {
        return Err("missing schema version");
    }
    let key = line.substring_char(0, i);
    if !str_eq(key, "schemaVersion") {
        return Err("unexpected version key");
    }
    let value = line.substring_char(i + 1, chars.len());
    match parse_unsigned(value, 0xffff_ffff) {
        Some(v) => Ok(v as u32),
        None => Err("invalid schema version"),
    }
}

/// Reads a bootstrap document: its version and its entries.
pub fn read_document<T: SchemaRow>(document: &'static str, text: &'static str, header: &'static str) -> (r:
    Result<(u32, Vec<T>), BootstrapSchemaError>)
    ensures
        match parse_document(text@, header@, row_reader::<T>()) {
            Ok((v, es)) => r matches Ok((version, entries)) && version == v && contents(entries@) == es,
            Err((line, reason)) => r matches Err(e) && e@ == (document@, line, reason),
        },
{
    let lines = split_lines(text);
    let ghost all = text_lines(text@);
    proof {
        assert(field_texts(lines@) =~= all);
    }
    let version = match read_version(&lines) {
        Ok(v) => v,
        Err(reason) => {
            return Err(error(document, 1, reason));
        },
    };
    if !(lines.len() > 1 && str_eq(lines[1], header)) {
        proof {
            if lines@.len() > 1 {
                assert(all[1] == lines@[1]@);
            }
        }
        return Err(error(document, 2, "unexpected header"));
    }
    proof {
        assert(all[1] == lines@[1]@);
    }
    let mut entries: Vec<T> = Vec::new();
    let mut index: usize = 2;
    assert(all.skip(2) =~= all.skip(index as int));
    while index < lines.len()
        invariant
            2 <= index <= lines@.len(),
            all == field_texts(lines@),
            all == text_lines(text@),
            version_outcome(all) == Ok::<u32, Seq<char>>(version),
            all.len() > 1 && all[1] == header@,
            lines@.len() == all.len(),
            parse_rows(all.skip(2), 3, row_reader::<T>()) == match parse_rows(all.skip(index as int), index + 1, row_reader::<T>()) {
                Ok(rest) => Ok(contents(entries@) + rest),
                Err(x) => Err(x),
            },
        decreases lines.len() - index,
    {
        let line = lines[index];
        let ghost rest = all.skip(index as int);
        proof {
            assert(rest[0] == line@);
            assert(rest.drop_first() =~= all.skip(index + 1));
        }
        if line.unicode_len() == 0 {
            index = index + 1;
        } else {
            let fields = split_text(line, '\t');
            proof {
                assert(field_texts(fields@) =~= split_on(line@, '\t'));
            }
            proof {
                assert(row_reader::<T>()(split_on(line@, '\t')) == T::row_outcome(split_on(line@, '\t')));
            }
            match T::read_row(&fields) {
                Err(reason) => {
                    proof {
                        assert(rest[0].len() != 0);
                    }
                    return Err(error(document, index + 1, reason));
                },
                Ok(entry) => {
                    let ghost before = contents(entries@);
                    entries.push(entry);
                    proof {
                        assert(contents(entries@) =~= before.push(entry.content()));
                        match parse_rows(all.skip(index + 1), index + 2, row_reader::<T>()) {
                            Ok(tail) => {
                                assert(before + (seq![entry.content()] + tail) =~= contents(entries@) + tail);
                            },
                            Err(_) => {},
                        }
                    }
                    index = index + 1;
                },
            }
        }
    }
    proof {
        assert(all.skip(index as int).len() == 0);
        assert(contents(entries@) + Seq::<T::Content>::empty() =~= contents(entries@));
    }
    Ok((version, entries))
}

} // verus!

verus! {

/// The flag a field spells: `true` or `false`.
pub open spec fn flag_named(s: Seq<char>) -> Option<bool> {
    if s == "true"@ {
        Some(true)
    } else if s == "false"@ {
        Some(false)
    } else {
        None
    }
}

fn read_flag(s: &str) -> (r: Option<bool>)
    ensures
        r == flag_named(s@),
{
    if str_eq(s, "true") {
        Some(true)
    } else if str_eq(s, "false") {
        Some(false)
    } else {
        None
    }
}

/// The type role a field spells.
pub open spec fn role_named(s: Seq<char>) -> Option<BootstrapTypeRole> {
    if s == "Array"@ {
        Some(BootstrapTypeRole::Array)
    } else if s == "Table"@ {
        Some(BootstrapTypeRole::Table)
    } else if s == "Nominal"@ {
        Some(BootstrapTypeRole::Nominal)
    } else if s == "Interface"@ {
        Some(BootstrapTypeRole::Interface)
    } else if s == "View"@ {
        Some(BootstrapTypeRole::View)
    } else {
        None
    }
}

fn read_role(s: &str) -> (r: Option<BootstrapTypeRole>)
    ensures
        r == role_named(s@),
{
    if str_eq(s, "Array") {
        Some(BootstrapTypeRole::Array)
    } else if str_eq(s, "Table") {
        Some(BootstrapTypeRole::Table)
    } else if str_eq(s, "Nominal") {
        Some(BootstrapTypeRole::Nominal)
    } else if str_eq(s, "Interface") {
        Some(BootstrapTypeRole::Interface)
    } else if str_eq(s, "View") {
        Some(BootstrapTypeRole::View)
    } else {
        None
    }
}

/// The attachment target a field spells.
pub open spec fn target_named(s: Seq<char>) -> Option<CompilerAttributeTarget> {
    if s == "Function"@ {
        Some(CompilerAttributeTarget::Function)
    } else if s == "Attribute"@ {
        Some(CompilerAttributeTarget::Attribute)
    } else if s == "Namespace"@ {
        Some(CompilerAttributeTarget::Namespace)
    } else if s == "Record"@ {
        Some(CompilerAttributeTarget::Record)
    } else if s == "DataType"@ {
        Some(CompilerAttributeTarget::DataType)
    } else {
        None
    }
}

fn read_target(s: &str) -> (r: Option<CompilerAttributeTarget>)
    ensures
        r == target_named(s@),
{
    if str_eq(s, "Function") {
        Some(CompilerAttributeTarget::Function)
    } else if str_eq(s, "Attribute") {
        Some(CompilerAttributeTarget::Attribute)
    } else if str_eq(s, "Namespace") {
        Some(CompilerAttributeTarget::Namespace)
    } else if str_eq(s, "Record") {
        Some(CompilerAttributeTarget::Record)
    } else if str_eq(s, "DataType") {
        Some(CompilerAttributeTarget::DataType)
    } else {
        None
    }
}

/// The semantic role a field spells.
pub open spec fn semantic_role_named(s: Seq<char>) -> Option<CompilerAttributeRole> {
    if s == "CompileTime"@ {
        Some(CompilerAttributeRole::CompileTime)
    } else if s == "AttributeUsage"@ {
        Some(CompilerAttributeRole::AttributeUsage)
    } else if s == "AttributeValidator"@ {
        Some(CompilerAttributeRole::AttributeValidator)
    } else if s == "RetainMetadata"@ {
        Some(CompilerAttributeRole::RetainMetadata)
    } else if s == "FfiLink"@ {
        Some(CompilerAttributeRole::FfiLink)
    } else if s == "FfiForeign"@ {
        Some(CompilerAttributeRole::FfiForeign)
    } else if s == "FfiNonblocking"@ {
        Some(CompilerAttributeRole::FfiNonblocking)
    } else if s == "FfiCLayout"@ {
        Some(CompilerAttributeRole::FfiCLayout)
    } else {
        None
    }
}

fn read_semantic_role(s: &str) -> (r: Option<CompilerAttributeRole>)
    ensures
        r == semantic_role_named(s@),
{
    if str_eq(s, "CompileTime") {
        Some(CompilerAttributeRole::CompileTime)
    } else if str_eq(s, "AttributeUsage") {
        Some(CompilerAttributeRole::AttributeUsage)
    } else if str_eq(s, "AttributeValidator") {
        Some(CompilerAttributeRole::AttributeValidator)
    } else if str_eq(s, "RetainMetadata") {
        Some(CompilerAttributeRole::RetainMetadata)
    } else if str_eq(s, "FfiLink") {
        Some(CompilerAttributeRole::FfiLink)
    } else if str_eq(s, "FfiForeign") {
        Some(CompilerAttributeRole::FfiForeign)
    } else if str_eq(s, "FfiNonblocking") {
        Some(CompilerAttributeRole::FfiNonblocking)
    } else if str_eq(s, "FfiCLayout") {
        Some(CompilerAttributeRole::FfiCLayout)
    } else {
        None
    }
}

/// A comma-separated list field, `-` standing for the empty list.
pub open spec fn schema_list(s: Seq<char>) -> Seq<Seq<char>> {
    if s == "-"@ {
        Seq::empty()
    } else {
        split_on(s, ',')
    }
}

fn read_schema_list(s: &'static str) -> (r: Vec<&'static str>)
    ensures
        field_texts(r@) == schema_list(s@),
{
    if str_eq(s, "-") {
        let r: Vec<&'static str> = Vec::new();
        assert(field_texts(r@) =~= Seq::<Seq<char>>::empty());
        r
    } else {
        let r = split_text(s, ',');
        assert(field_texts(r@) =~= split_on(s@, ','));
        r
    }
}

impl SchemaRow for BootstrapTypeEntry {
    type Content = TypeEntryView;

    open spec fn content(&self) -> TypeEntryView {
        self@
    }

    open spec fn row_outcome(f: Seq<Seq<char>>) -> Result<TypeEntryView, Seq<char>> {
        if f.len() != 6 {
            Err("expected six fields"@)
        } else {
            match unsigned_value(f[0], 0xffff_ffff) {
                None => Err("invalid type ID"@),
                Some(id) => match unsigned_value(f[3], 0xffff) {
                    None => Err("invalid type arity"@),
                    Some(arity) => match role_named(f[4]) {
                        None => Err("invalid type role"@),
                        Some(role) => match flag_named(f[5]) {
                            None => Err("invalid prelude flag"@),
                            Some(prelude) => Ok(
                                TypeEntryView {
                                    id: BuiltinTypeId(id as u32),
                                    source_name: f[1],
                                    owner_bubble: f[2],
                                    arity: arity as u16,
                                    role,
                                    prelude,
                                },
                            ),
                        },
                    },
                },
            }
        }
    }

    fn read_row(fields: &Vec<&'static str>) -> (r: Result<Self, &'static str>) {
        if fields.len() != 6 {
            return Err("expected six fields");
        }
        let id = match parse_unsigned(fields[0], 0xffff_ffff) {
            Some(v) => v as u32,
            None => {
                return Err("invalid type ID");
            },
        };
        let arity = match parse_unsigned(fields[3], 0xffff) {
            Some(v) => v as u16,
            None => {
                return Err("invalid type arity");
            },
        };
        let role = match read_role(fields[4]) {
            Some(r) => r,
            None => {
                return Err("invalid type role");
            },
        };
        let prelude = match read_flag(fields[5]) {
            Some(p) => p,
            None => {
                return Err("invalid prelude flag");
            },
        };
        Ok(
            BootstrapTypeEntry {
                id: BuiltinTypeId(id),
                source_name: fields[1],
                owner_bubble: fields[2],
                arity,
                role,
                prelude,
            },
        )
    }
}

impl SchemaRow for BootstrapCompilerAttributeEntry {
    type Content = CompilerAttributeView;

    open spec fn content(&self) -> CompilerAttributeView {
        self@
    }

    open spec fn row_outcome(f: Seq<Seq<char>>) -> Result<CompilerAttributeView, Seq<char>> {
        if f.len() != 7 {
            Err("expected seven fields"@)
        } else {
            match unsigned_value(f[0], 0xffff_ffff) {
                None => Err("invalid attribute ID"@),
                Some(id) => match unsigned_value(f[3], 0xffff) {
                    None => Err("invalid argument count"@),
                    Some(count) => match target_named(f[4]) {
                        None => Err("invalid attachment target"@),
                        Some(target) => match semantic_role_named(f[5]) {
                            None => Err("invalid semantic role"@),
                            Some(role) => match flag_named(f[6]) {
                                None => Err("invalid prelude flag"@),
                                Some(prelude) => Ok(
                                    CompilerAttributeView {
                                        id: CompilerAttributeId(id as u32),
                                        source_name: f[1],
                                        owner_bubble: f[2],
                                        argument_count: count as u16,
                                        target,
                                        role,
                                        prelude,
                                    },
                                ),
                            },
                        },
                    },
                },
            }
        }
    }

    fn read_row(fields: &Vec<&'static str>) -> (r: Result<Self, &'static str>) {
        if fields.len() != 7 {
            return Err("expected seven fields");
        }
        let id = match parse_unsigned(fields[0], 0xffff_ffff) {
            Some(v) => v as u32,
            None => {
                return Err("invalid attribute ID");
            },
        };
        let argument_count = match parse_unsigned(fields[3], 0xffff) {
            Some(v) => v as u16,
            None => {
                return Err("invalid argument count");
            },
        };
        let target = match read_target(fields[4]) {
            Some(t) => t,
            None => {
                return Err("invalid attachment target");
            },
        };
        let role = match read_semantic_role(fields[5]) {
            Some(r) => r,
            None => {
                return Err("invalid semantic role");
            },
        };
        let prelude = match read_flag(fields[6]) {
            Some(p) => p,
            None => {
                return Err("invalid prelude flag");
            },
        };
        Ok(
            BootstrapCompilerAttributeEntry {
                id: CompilerAttributeId(id),
                source_name: fields[1],
                owner_bubble: fields[2],
                argument_count,
                target,
                role,
                prelude,
            },
        )
    }
}

impl SchemaRow for BootstrapStandardFunctionEntry {
    type Content = StandardFunctionView;

    open spec fn content(&self) -> StandardFunctionView {
        self@
    }

    open spec fn row_outcome(f: Seq<Seq<char>>) -> Result<StandardFunctionView, Seq<char>> {
        if f.len() != 7 {
            Err("expected seven fields"@)
        } else {
            match unsigned_value(f[0], 0xffff_ffff) {
                None => Err("invalid function ID"@),
                Some(id) => match flag_named(f[6]) {
                    None => Err("invalid prelude flag"@),
                    Some(prelude) => Ok(
                        StandardFunctionView {
                            id: StandardFunctionId(id as u32),
                            source_name: f[1],
                            owner_bubble: f[2],
                            parameter_types: schema_list(f[3]),
                            result_types: schema_list(f[4]),
                            effects: schema_list(f[5]),
                            prelude,
                        },
                    ),
                },
            }
        }
    }

    fn read_row(fields: &Vec<&'static str>) -> (r: Result<Self, &'static str>) {
        if fields.len() != 7 {
            return Err("expected seven fields");
        }
        let id = match parse_unsigned(fields[0], 0xffff_ffff) {
            Some(v) => v as u32,
            None => {
                return Err("invalid function ID");
            },
        };
        let parameter_types = read_schema_list(fields[3]);
        let result_types = read_schema_list(fields[4]);
        let effects = read_schema_list(fields[5]);
        let prelude = match read_flag(fields[6]) {
            Some(p) => p,
            None => {
                return Err("invalid prelude flag");
            },
        };
        Ok(
            BootstrapStandardFunctionEntry {
                id: StandardFunctionId(id),
                source_name: fields[1],
                owner_bubble: fields[2],
                parameter_types,
                result_types,
                effects,
                prelude,
            },
        )
    }
}

impl SchemaRow for BootstrapPrimitiveEntry {
    type Content = (Seq<char>, Seq<char>, Seq<char>);

    open spec fn content(&self) -> (Seq<char>, Seq<char>, Seq<char>) {
        self@
    }

    open spec fn row_outcome(f: Seq<Seq<char>>) -> Result<(Seq<char>, Seq<char>, Seq<char>), Seq<char>> {
        if f.len() != 3 {
            Err("expected three fields"@)
        } else {
            Ok((f[0], f[1], f[2]))
        }
    }

    fn read_row(fields: &Vec<&'static str>) -> (r: Result<Self, &'static str>) {
        if fields.len() != 3 {
            return Err("expected three fields");
        }
        Ok(
            BootstrapPrimitiveEntry {
                source_name: fields[0],
                canonical_name: fields[1],
                runtime_role: fields[2],
            },
        )
    }
}

impl SchemaRow for BootstrapIntrinsicEntry {
    type Content = IntrinsicView;

    open spec fn content(&self) -> IntrinsicView {
        self@
    }

    open spec fn row_outcome(f: Seq<Seq<char>>) -> Result<IntrinsicView, Seq<char>> {
        if f.len() != 5 {
            Err("expected five fields"@)
        } else {
            Ok(
                IntrinsicView {
                    intrinsic_id: f[0],
                    owner: f[1],
                    signature: f[2],
                    lowering_kind: f[3],
                    required_capabilities: schema_list(f[4]),
                },
            )
        }
    }

    fn read_row(fields: &Vec<&'static str>) -> (r: Result<Self, &'static str>) {
        if fields.len() != 5 {
            return Err("expected five fields");
        }
        Ok(
            BootstrapIntrinsicEntry {
                intrinsic_id: fields[0],
                owner: fields[1],
                signature: fields[2],
                lowering_kind: fields[3],
                required_capabilities: read_schema_list(fields[4]),
            },
        )
    }
}

} // verus!

verus! {

/// Header of a type document.
pub open spec fn type_header() -> Seq<char> {
    "typeId\tsourceName\townerBubble\tarity\trole\tprelude"@
}

/// Header of a compiler-attribute document.
pub open spec fn compiler_attribute_header() -> Seq<char> {
    "attributeId\tsourceName\townerBubble\targumentCount\ttarget\tsemanticRole\tprelude"@
}

/// Header of the standard-function document.
pub open spec fn standard_function_header() -> Seq<char> {
    "functionId\tsourceName\townerBubble\tparameterTypes\tresultTypes\teffects\tprelude"@
}

/// Header of the primitive document.
pub open spec fn primitive_header() -> Seq<char> {
    "sourceName\tcanonicalName\truntimeRole"@
}

/// Header of the intrinsic document.
pub open spec fn intrinsic_header() -> Seq<char> {
    "intrinsicId\towner\tsignature\tloweringKind\trequiredCapabilities"@
}

/// What reading a document as entry kind `T` gives, errors named after `document`.
pub open spec fn document_outcome<T: SchemaRow>(
    document: Seq<char>,
    text: Seq<char>,
    header: Seq<char>,
    r: Result<(u32, Vec<T>), BootstrapSchemaError>,
) -> bool {
    match parse_document(text, header, row_reader::<T>()) {
        Ok((v, es)) => r matches Ok((version, entries)) && version == v && contents(entries@) == es,
        Err((line, reason)) => r matches Err(e) && e@ == (document, line, reason),
    }
}

/// Reads a type document.
pub fn parse_types(document: &'static str, text: &'static str) -> (r: Result<
    (u32, Vec<BootstrapTypeEntry>),
    BootstrapSchemaError,
>)
    ensures
        document_outcome(document@, text@, type_header(), r),
{
    read_document(document, text, "typeId\tsourceName\townerBubble\tarity\trole\tprelude")
}

/// Reads a compiler-attribute document.
pub fn parse_compiler_attributes(document: &'static str, text: &'static str) -> (r: Result<
    (u32, Vec<BootstrapCompilerAttributeEntry>),
    BootstrapSchemaError,
>)
    ensures
        document_outcome(document@, text@, compiler_attribute_header(), r),
{
    read_document(
        document,
        text,
        "attributeId\tsourceName\townerBubble\targumentCount\ttarget\tsemanticRole\tprelude",
    )
}

/// Reads the standard-function document.
pub fn parse_standard_functions(text: &'static str) -> (r: Result<
    (u32, Vec<BootstrapStandardFunctionEntry>),
    BootstrapSchemaError,
>)
    ensures
        document_outcome("standard function"@, text@, standard_function_header(), r),
{
    read_document(
        "standard function",
        text,
        "functionId\tsourceName\townerBubble\tparameterTypes\tresultTypes\teffects\tprelude",
    )
}

/// Reads the primitive document.
pub fn parse_primitives(text: &'static str) -> (r: Result<
    (u32, Vec<BootstrapPrimitiveEntry>),
    BootstrapSchemaError,
>)
    ensures
        document_outcome("primitive"@, text@, primitive_header(), r),
{
    read_document("primitive", text, "sourceName\tcanonicalName\truntimeRole")
}

/// Reads the intrinsic document.
pub fn parse_intrinsics(text: &'static str) -> (r: Result<
    (u32, Vec<BootstrapIntrinsicEntry>),
    BootstrapSchemaError,
>)
    ensures
        document_outcome("intrinsic"@, text@, intrinsic_header(), r),
{
    read_document(
        "intrinsic",
        text,
        "intrinsicId\towner\tsignature\tloweringKind\trequiredCapabilities",
    )
}

} // verus!

verus! {

/// Some value occurs twice.
pub open spec fn has_duplicate<T>(s: Seq<T>) -> bool {
    exists|i: int, j: int| #![trigger s[i], s[j]] 0 <= i < j < s.len() && s[i] == s[j]
}

/// Whether some value of `v` occurs twice.
fn has_duplicate_raw(v: &Vec<u32>) -> (r: bool)
    ensures
        r == has_duplicate(v@),
{
    let mut i: usize = 0;
    while i < v.len()
        invariant
            i <= v@.len(),
            forall|a: int, b: int| #![trigger v@[a], v@[b]] 0 <= a < i && a < b < v@.len() ==> v@[a] != v@[b],
        decreases v.len() - i,
    {
        let mut j: usize = i + 1;
        while j < v.len()
            invariant
                i < v@.len(),
                i + 1 <= j <= v@.len(),
                forall|a: int, b: int| #![trigger v@[a], v@[b]] 0 <= a < i && a < b < v@.len() ==> v@[a] != v@[b],
                forall|b: int| i < b < j ==> v@[i as int] != #[trigger] v@[b],
            decreases v.len() - j,
        {
            if v[i] == v[j] {
                return true;
            }
            j = j + 1;
        }
        i = i + 1;
    }
    false
}

/// Whether some name of `v` occurs twice.
fn has_duplicate_name(v: &Vec<&'static str>) -> (r: bool)
    ensures
        r == has_duplicate(field_texts(v@)),
{
    let ghost t = field_texts(v@);
    let mut i: usize = 0;
    while i < v.len()
        invariant
            i <= v@.len(),
            t == field_texts(v@),
            forall|a: int, b: int| #![trigger t[a], t[b]] 0 <= a < i && a < b < t.len() ==> t[a] != t[b],
        decreases v.len() - i,
    {
        let mut j: usize = i + 1;
        while j < v.len()
            invariant
                i < v@.len(),
                i + 1 <= j <= v@.len(),
                t == field_texts(v@),
                forall|a: int, b: int| #![trigger t[a], t[b]] 0 <= a < i && a < b < t.len() ==> t[a] != t[b],
                forall|b: int| i < b < j ==> t[i as int] != #[trigger] t[b],
            decreases v.len() - j,
        {
            if str_eq(v[i], v[j]) {
                assert(t[i as int] == t[j as int]);
                return true;
            }
            j = j + 1;
        }
        i = i + 1;
    }
    false
}

/// Whether some role of `v` occurs twice.
fn has_duplicate_role(v: &Vec<CompilerAttributeRole>) -> (r: bool)
    ensures
        r == has_duplicate(v@),
{
    let mut i: usize = 0;
    while i < v.len()
        invariant
            i <= v@.len(),
            forall|a: int, b: int| #![trigger v@[a], v@[b]] 0 <= a < i && a < b < v@.len() ==> v@[a] != v@[b],
        decreases v.len() - i,
    {
        let mut j: usize = i + 1;
        while j < v.len()
            invariant
                i < v@.len(),
                i + 1 <= j <= v@.len(),
                forall|a: int, b: int| #![trigger v@[a], v@[b]] 0 <= a < i && a < b < v@.len() ==> v@[a] != v@[b],
                forall|b: int| i < b < j ==> v@[i as int] != #[trigger] v@[b],
            decreases v.len() - j,
        {
            if v[i] == v[j] {
                return true;
            }
            j = j + 1;
        }
        i = i + 1;
    }
    false
}

/// Whether `s` begins with `prefix`.
fn starts_with(s: &str, prefix: &str) -> (r: bool)
    ensures
        r == (prefix@.len() <= s@.len() && s@.take(prefix@.len() as int) == prefix@),
{
    let n = s.unicode_len();
    let m = prefix.unicode_len();
    if m > n {
        return false;
    }
    let mut i: usize = 0;
    while i < m
        invariant
            n == s@.len(),
            m == prefix@.len(),
            m <= n,
            i <= m,
            forall|k: int| 0 <= k < i ==> s@[k] == prefix@[k],
        decreases m - i,
    {
        if s.get_char(i) != prefix.get_char(i) {
            assert(s@.take(m as int)[i as int] != prefix@[i as int]);
            return false;
        }
        i = i + 1;
    }
    assert(s@.take(m as int) =~= prefix@);
    true
}

/// The contents of a list of type entries.
pub open spec fn type_views(v: Seq<BootstrapTypeEntry>) -> Seq<TypeEntryView> {
    v.map_values(|e: BootstrapTypeEntry| e@)
}

/// The raw identities of type entries.
pub open spec fn type_id_keys(es: Seq<TypeEntryView>) -> Seq<u32> {
    es.map_values(|e: TypeEntryView| e.id.0)
}

/// The source names of type entries.
pub open spec fn type_name_keys(es: Seq<TypeEntryView>) -> Seq<Seq<char>> {
    es.map_values(|e: TypeEntryView| e.source_name)
}

/// The trusted FFI type constructors: identity, source name, arity.
pub open spec fn ffi_type_contracts() -> Seq<(u32, Seq<char>, u16)> {
    seq![
        (200, "Ffi.Pointer"@, 1),
        (201, "Ffi.OptionalPointer"@, 1),
        (202, "Ffi.Function"@, 1),
        (203, "Ffi.OptionalFunction"@, 1),
        (204, "Ffi.Handle"@, 1),
        (205, "Ffi.ReadOnlyPointer"@, 1),
        (206, "Ffi.OptionalReadOnlyPointer"@, 1),
        (207, "Ffi.Buffer"@, 1),
        (208, "Ffi.NullPointerError"@, 0),
        (209, "Ffi.AllocationError"@, 0),
        (210, "Ffi.C.Char"@, 0),
        (211, "Ffi.C.SignedChar"@, 0),
        (212, "Ffi.C.UnsignedChar"@, 0),
        (213, "Ffi.C.Short"@, 0),
        (214, "Ffi.C.UnsignedShort"@, 0),
        (215, "Ffi.C.Int"@, 0),
        (216, "Ffi.C.UnsignedInt"@, 0),
        (217, "Ffi.C.Long"@, 0),
        (218, "Ffi.C.UnsignedLong"@, 0),
        (219, "Ffi.C.LongLong"@, 0),
        (220, "Ffi.C.UnsignedLongLong"@, 0),
        (221, "Ffi.C.Size"@, 0),
        (222, "Ffi.C.PointerDifference"@, 0),
        (223, "Ffi.CallbackContext"@, 0),
        (224, "Ffi.RegisteredCallback"@, 1),
        (225, "Ffi.CallbackThread"@, 0),
        (226, "Ffi.CallbackOpenError"@, 0),
        (227, "Ffi.CallbackInUseError"@, 0),
        (228, "Ffi.CallbackClosedError"@, 0),
    ]
}

fn ffi_type_contract_table() -> (r: Vec<(u32, &'static str, u16)>)
    ensures
        r@.len() == ffi_type_contracts().len(),
        forall|k: int|
            0 <= k < r@.len() ==> ((#[trigger] r@[k]).0, r@[k].1@, r@[k].2) == ffi_type_contracts()[k],
{
    let mut v: Vec<(u32, &'static str, u16)> = Vec::new();
    v.push((200, "Ffi.Pointer", 1));
    v.push((201, "Ffi.OptionalPointer", 1));
    v.push((202, "Ffi.Function", 1));
    v.push((203, "Ffi.OptionalFunction", 1));
    v.push((204, "Ffi.Handle", 1));
    v.push((205, "Ffi.ReadOnlyPointer", 1));
    v.push((206, "Ffi.OptionalReadOnlyPointer", 1));
    v.push((207, "Ffi.Buffer", 1));
    v.push((208, "Ffi.NullPointerError", 0));
    v.push((209, "Ffi.AllocationError", 0));
    v.push((210, "Ffi.C.Char", 0));
    v.push((211, "Ffi.C.SignedChar", 0));
    v.push((212, "Ffi.C.UnsignedChar", 0));
    v.push((213, "Ffi.C.Short", 0));
    v.push((214, "Ffi.C.UnsignedShort", 0));
    v.push((215, "Ffi.C.Int", 0));
    v.push((216, "Ffi.C.UnsignedInt", 0));
    v.push((217, "Ffi.C.Long", 0));
    v.push((218, "Ffi.C.UnsignedLong", 0));
    v.push((219, "Ffi.C.LongLong", 0));
    v.push((220, "Ffi.C.UnsignedLongLong", 0));
    v.push((221, "Ffi.C.Size", 0));
    v.push((222, "Ffi.C.PointerDifference", 0));
    v.push((223, "Ffi.CallbackContext", 0));
    v.push((224, "Ffi.RegisteredCallback", 1));
    v.push((225, "Ffi.CallbackThread", 0));
    v.push((226, "Ffi.CallbackOpenError", 0));
    v.push((227, "Ffi.CallbackInUseError", 0));
    v.push((228, "Ffi.CallbackClosedError", 0));
    v
}

/// The first entry with this owner and source name, if any.
pub open spec fn first_owned_named(es: Seq<TypeEntryView>, owner: Seq<char>, name: Seq<char>) -> Option<TypeEntryView>
    decreases es.len(),
{
    if es.len() == 0 {
        None
    } else if es[0].owner_bubble == owner && es[0].source_name == name {
        Some(es[0])
    } else {
        first_owned_named(es.drop_first(), owner, name)
    }
}

/// The first entry with this source name, if any.
pub open spec fn first_named(es: Seq<TypeEntryView>, name: Seq<char>) -> Option<TypeEntryView>
    decreases es.len(),
{
    if es.len() == 0 {
        None
    } else if es[0].source_name == name {
        Some(es[0])
    } else {
        first_named(es.drop_first(), name)
    }
}

/// How many entries have this owner.
pub open spec fn count_owned(es: Seq<TypeEntryView>, owner: Seq<char>) -> nat
    decreases es.len(),
{
    if es.len() == 0 {
        0
    } else {
        count_owned(es.drop_last(), owner) + if es.last().owner_bubble == owner {
            1nat
        } else {
            0nat
        }
    }
}

/// The first FFI contract the entries break, as a reason.
pub open spec fn ffi_contract_failure(es: Seq<TypeEntryView>, contracts: Seq<(u32, Seq<char>, u16)>) -> Option<Seq<char>>
    decreases contracts.len(),
{
    if contracts.len() == 0 {
        None
    } else {
        match first_owned_named(es, "Pop.Ffi"@, contracts[0].1) {
            None => Some("missing required FFI type"@),
            Some(e) => if e.id.0 != contracts[0].0 || e.arity != contracts[0].2 || e.role
                != BootstrapTypeRole::Nominal || e.prelude {
                Some("invalid trusted FFI type contract"@)
            } else {
                ffi_contract_failure(es, contracts.drop_first())
            },
        }
    }
}

/// The first view contract the entries break, as a reason.
pub open spec fn view_contract_failure(es: Seq<TypeEntryView>, views: Seq<(u32, Seq<char>)>) -> Option<Seq<char>>
    decreases views.len(),
{
    if views.len() == 0 {
        None
    } else {
        match first_named(es, views[0].1) {
            None => Some("missing required view type"@),
            Some(e) => if e.id.0 != views[0].0 || e.owner_bubble != "Pop.Standard"@ || e.arity != 0
                || e.role != BootstrapTypeRole::View || e.prelude {
                Some("invalid trusted view type contract"@)
            } else {
                view_contract_failure(es, views.drop_first())
            },
        }
    }
}

/// The owners a foundational type may have.
pub open spec fn foundational_owner(owner: Seq<char>) -> bool {
    owner == "Pop.Internal"@ || owner == "Pop.Standard"@ || owner == "Pop.Ffi"@
}

/// What validating the combined type entries finds first: the document
/// and reason of the refusal, if any.
pub open spec fn types_failure(es: Seq<TypeEntryView>) -> Option<(Seq<char>, Seq<char>)> {
    if has_duplicate(type_id_keys(es)) {
        Some(("type"@, "duplicate type ID"@))
    } else if has_duplicate(type_name_keys(es)) {
        Some(("type"@, "duplicate source type name"@))
    } else if exists|i: int|
        0 <= i < es.len() && (!foundational_owner(#[trigger] es[i].owner_bubble) || es[i].source_name.len()
            == 0) {
        Some(("type"@, "invalid foundational type contract"@))
    } else if count_owned(es, "Pop.Ffi"@) != ffi_type_contracts().len() {
        Some(("FFI type"@, "unexpected FFI type set"@))
    } else {
        match ffi_contract_failure(es, ffi_type_contracts()) {
            Some(reason) => Some(("FFI type"@, reason)),
            None => match view_contract_failure(es, seq![(122u32, "Bytes.View"@), (123u32, "Text.View"@)]) {
                Some(reason) => Some(("standard type"@, reason)),
                None => None,
            },
        }
    }
}

fn find_owned_named(entries: &[BootstrapTypeEntry], owner: &str, name: &str) -> (r: Option<BootstrapTypeEntry>)
    ensures
        match first_owned_named(type_views(entries@), owner@, name@) {
            None => r is None,
            Some(v) => r matches Some(e) && e@ == v,
        },
{
    let ghost es = type_views(entries@);
    let mut i: usize = 0;
    assert(es.skip(0) =~= es);
    while i < entries.len()
        invariant
            i <= entries@.len(),
            es == type_views(entries@),
            first_owned_named(es, owner@, name@) == first_owned_named(es.skip(i as int), owner@, name@),
        decreases entries.len() - i,
    {
        let e = entries[i];
        assert(es.skip(i as int)[0] == e@);
        if str_eq(e.owner_bubble, owner) && str_eq(e.source_name, name) {
            return Some(e);
        }
        assert(es.skip(i as int).drop_first() =~= es.skip(i + 1));
        i = i + 1;
    }
    None
}

fn find_named(entries: &[BootstrapTypeEntry], name: &str) -> (r: Option<BootstrapTypeEntry>)
    ensures
        match first_named(type_views(entries@), name@) {
            None => r is None,
            Some(v) => r matches Some(e) && e@ == v,
        },
{
    let ghost es = type_views(entries@);
    let mut i: usize = 0;
    assert(es.skip(0) =~= es);
    while i < entries.len()
        invariant
            i <= entries@.len(),
            es == type_views(entries@),
            first_named(es, name@) == first_named(es.skip(i as int), name@),
        decreases entries.len() - i,
    {
        let e = entries[i];
        assert(es.skip(i as int)[0] == e@);
        if str_eq(e.source_name, name) {
            return Some(e);
        }
        assert(es.skip(i as int).drop_first() =~= es.skip(i + 1));
        i = i + 1;
    }
    None
}

fn type_keys(entries: &[BootstrapTypeEntry]) -> (r: (Vec<u32>, Vec<&'static str>))
    ensures
        r.0@ == type_id_keys(type_views(entries@)),
        field_texts(r.1@) == type_name_keys(type_views(entries@)),
{
    let ghost es = type_views(entries@);
    let mut ids: Vec<u32> = Vec::new();
    let mut names: Vec<&'static str> = Vec::new();
    let mut i: usize = 0;
    while i < entries.len()
        invariant
            i <= entries@.len(),
            es == type_views(entries@),
            ids@ == type_id_keys(es.take(i as int)),
            field_texts(names@) == type_name_keys(es.take(i as int)),
        decreases entries.len() - i,
    {
        let e = entries[i];
        proof {
            assert(es[i as int] == e@);
            assert(es.take(i + 1) =~= es.take(i as int).push(e@));
        }
        let ghost names_before = names@;
        ids.push(e.id.0);
        names.push(e.source_name);
        proof {
            assert(field_texts(names@) =~= field_texts(names_before).push(e.source_name@));
            assert(ids@ =~= type_id_keys(es.take(i + 1)));
            assert(field_texts(names@) =~= type_name_keys(es.take(i + 1)));
        }
        i = i + 1;
    }
    assert(es.take(i as int) =~= es);
    (ids, names)
}

fn has_foundational_failure(entries: &[BootstrapTypeEntry]) -> (r: bool)
    ensures
        r == exists|i: int|
            0 <= i < entries@.len() && (!foundational_owner(#[trigger] type_views(entries@)[i].owner_bubble)
                || type_views(entries@)[i].source_name.len() == 0),
{
    let ghost es = type_views(entries@);
    let mut i: usize = 0;
    while i < entries.len()
        invariant
            i <= entries@.len(),
            es == type_views(entries@),
            forall|k: int| 0 <= k < i ==> foundational_owner(#[trigger] es[k].owner_bubble) && es[k].source_name.len() != 0,
        decreases entries.len() - i,
    {
        let e = entries[i];
        assert(es[i as int] == e@);
        let internal = str_eq(e.owner_bubble, "Pop.Internal");
        let standard = str_eq(e.owner_bubble, "Pop.Standard");
        let ffi = str_eq(e.owner_bubble, "Pop.Ffi");
        let empty = e.source_name.unicode_len() == 0;
        assert(foundational_owner(es[i as int].owner_bubble) == (internal || standard || ffi));
        assert(empty == (es[i as int].source_name.len() == 0));
        if !(internal || standard || ffi) || empty {
            assert(!foundational_owner(type_views(entries@)[i as int].owner_bubble)
                || type_views(entries@)[i as int].source_name.len() == 0);
            return true;
        }
        i = i + 1;
    }
    false
}

fn count_ffi_types(entries: &[BootstrapTypeEntry]) -> (r: usize)
    ensures
        r == count_owned(type_views(entries@), "Pop.Ffi"@),
{
    let ghost es = type_views(entries@);
    let mut count: usize = 0;
    let mut i: usize = 0;
    while i < entries.len()
        invariant
            i <= entries@.len(),
            es == type_views(entries@),
            count == count_owned(es.take(i as int), "Pop.Ffi"@),
            count <= i,
        decreases entries.len() - i,
    {
        proof {
            assert(es.take(i + 1).drop_last() =~= es.take(i as int));
            assert(es.take(i + 1).last() == entries@[i as int]@);
        }
        if str_eq(entries[i].owner_bubble, "Pop.Ffi") {
            count = count + 1;
        }
        i = i + 1;
    }
    assert(es.take(i as int) =~= es);
    count
}

fn ffi_contract_problem(entries: &[BootstrapTypeEntry]) -> (r: Option<&'static str>)
    ensures
        match ffi_contract_failure(type_views(entries@), ffi_type_contracts()) {
            Some(reason) => r matches Some(x) && x@ == reason,
            None => r is None,
        },
{
    let ghost es = type_views(entries@);
    let contracts = ffi_type_contract_table();
    let mut c: usize = 0;
    assert(ffi_type_contracts().skip(0) =~= ffi_type_contracts());
    while c < contracts.len()
        invariant
            c <= contracts@.len(),
            contracts@.len() == ffi_type_contracts().len(),
            forall|k: int|
                0 <= k < contracts@.len() ==> ((#[trigger] contracts@[k]).0, contracts@[k].1@, contracts@[k].2)
                    == ffi_type_contracts()[k],
            es == type_views(entries@),
            ffi_contract_failure(es, ffi_type_contracts()) == ffi_contract_failure(
                es,
                ffi_type_contracts().skip(c as int),
            ),
        decreases contracts.len() - c,
    {
        let (id, name, arity) = contracts[c];
        proof {
            assert(ffi_type_contracts().skip(c as int)[0] == ffi_type_contracts()[c as int]);
            assert(ffi_type_contracts().skip(c as int).drop_first() =~= ffi_type_contracts().skip(c + 1));
        }
        match find_owned_named(entries, "Pop.Ffi", name) {
            None => {
                return Some("missing required FFI type");
            },
            Some(e) => {
                if e.id.0 != id || e.arity != arity || e.role != BootstrapTypeRole::Nominal || e.prelude {
                    return Some("invalid trusted FFI type contract");
                }
            },
        }
        c = c + 1;
    }
    assert(ffi_type_contracts().skip(c as int).len() == 0);
    None
}

fn view_contract_problem(entries: &[BootstrapTypeEntry]) -> (r: Option<&'static str>)
    ensures
        match view_contract_failure(type_views(entries@), seq![(122u32, "Bytes.View"@), (123u32, "Text.View"@)]) {
            Some(reason) => r matches Some(x) && x@ == reason,
            None => r is None,
        },
{
    let ghost views = seq![(122u32, "Bytes.View"@), (123u32, "Text.View"@)];
    proof {
        assert(views.drop_first() =~= seq![(123u32, "Text.View"@)]);
        assert(views.drop_first().drop_first() =~= Seq::<(u32, Seq<char>)>::empty());
    }
    match find_named(entries, "Bytes.View") {
        None => {
            return Some("missing required view type");
        },
        Some(e) => {
            if e.id.0 != 122 || !str_eq(e.owner_bubble, "Pop.Standard") || e.arity != 0 || e.role
                != BootstrapTypeRole::View || e.prelude {
                return Some("invalid trusted view type contract");
            }
        },
    }
    proof {
        let es = type_views(entries@);
        assert(view_contract_failure(es, views) == view_contract_failure(es, views.drop_first()));
        assert(view_contract_failure(es, views.drop_first().drop_first()) is None);
    }
    match find_named(entries, "Text.View") {
        None => Some("missing required view type"),
        Some(e) => {
            if e.id.0 != 123 || !str_eq(e.owner_bubble, "Pop.Standard") || e.arity != 0 || e.role
                != BootstrapTypeRole::View || e.prelude {
                Some("invalid trusted view type contract")
            } else {
                None
            }
        },
    }
}

/// Checks the combined type entries: distinct identities and names, known
/// owners, exactly the trusted FFI constructors, and the two view types.
pub fn validate_types(entries: &[BootstrapTypeEntry]) -> (r: Result<(), BootstrapSchemaError>)
    ensures
        match types_failure(type_views(entries@)) {
            Some((document, reason)) => r matches Err(e) && e@ == (document, 2int, reason),
            None => r is Ok,
        },
{
    let (ids, names) = type_keys(entries);
    if has_duplicate_raw(&ids) {
        return Err(error("type", 2, "duplicate type ID"));
    }
    if has_duplicate_name(&names) {
        return Err(error("type", 2, "duplicate source type name"));
    }
    if has_foundational_failure(entries) {
        return Err(error("type", 2, "invalid foundational type contract"));
    }
    if count_ffi_types(entries) != 29 {
        return Err(error("FFI type", 2, "unexpected FFI type set"));
    }
    if let Some(reason) = ffi_contract_problem(entries) {
        return Err(error("FFI type", 2, reason));
    }
    if let Some(reason) = view_contract_problem(entries) {
        return Err(error("standard type", 2, reason));
    }
    Ok(())
}

} // verus!

verus! {

/// The contents of primitive entries.
pub open spec fn primitive_views(v: Seq<BootstrapPrimitiveEntry>) -> Seq<(Seq<char>, Seq<char>, Seq<char>)> {
    v.map_values(|e: BootstrapPrimitiveEntry| e@)
}

/// Entry `i` names the same primitive, with the same canonical name, as the
/// semantic schema.
pub open spec fn primitive_matches(es: Seq<(Seq<char>, Seq<char>, Seq<char>)>, i: int) -> bool {
    es[i].0 == primitive_schema()[i].0 && es[i].1 == primitive_schema()[i].1
}

/// What validating primitive metadata against the semantic schema finds
/// first: the line and reason of the refusal, if any.
pub open spec fn primitives_failure(es: Seq<(Seq<char>, Seq<char>, Seq<char>)>) -> Option<(int, Seq<char>)> {
    if es.len() != primitive_schema().len() {
        Some((2, "semantic entry count differs"@))
    } else if exists|i: int| 0 <= i < es.len() && !#[trigger] primitive_matches(es, i) {
        let i = choose|i: int|
            0 <= i < es.len() && !#[trigger] primitive_matches(es, i) && forall|j: int|
                0 <= j < i ==> primitive_matches(es, j);
        Some((i + 3, "semantic primitive identity differs"@))
    } else {
        None
    }
}

/// Checks primitive metadata against the semantic primitive schema, entry by entry.
pub fn validate_primitives(entries: &[BootstrapPrimitiveEntry]) -> (r: Result<(), BootstrapSchemaError>)
    ensures
        match primitives_failure(primitive_views(entries@)) {
            Some((line, reason)) => r matches Err(e) && e@ == ("primitive"@, line, reason),
            None => r is Ok,
        },
{
    let ghost es = primitive_views(entries@);
    let semantic = PrimitiveType::source_schema();
    if entries.len() != semantic.len() {
        return Err(error("primitive", 2, "semantic entry count differs"));
    }
    let mut i: usize = 0;
    while i < entries.len()
        invariant
            i <= entries@.len(),
            es == primitive_views(entries@),
            es.len() == primitive_schema().len(),
            semantic@.len() == primitive_schema().len(),
            forall|k: int| 0 <= k < semantic@.len() ==> #[trigger] semantic@[k]@ == primitive_schema()[k],
            forall|j: int| 0 <= j < i ==> primitive_matches(es, j),
        decreases entries.len() - i,
    {
        let metadata = entries[i];
        let expected = semantic[i];
        assert(es[i as int] == metadata@);
        assert(expected@ == primitive_schema()[i as int]);
        if !str_eq(metadata.source_name, expected.source_name()) || !str_eq(
            metadata.canonical_name,
            expected.canonical_name(),
        ) {
            proof {
                assert(!primitive_matches(es, i as int));
                let c = choose|c: int|
                    0 <= c < es.len() && !#[trigger] primitive_matches(es, c) && forall|j: int|
                        0 <= j < c ==> primitive_matches(es, j);
                if c < i {
                } else if c > i {
                    assert(primitive_matches(es, i as int));
                }
            }
            return Err(error("primitive", i + 3, "semantic primitive identity differs"));
        }
        i = i + 1;
    }
    Ok(())
}

/// The contents of intrinsic entries.
pub open spec fn intrinsic_views(v: Seq<BootstrapIntrinsicEntry>) -> Seq<IntrinsicView> {
    v.map_values(|e: BootstrapIntrinsicEntry| e@)
}

/// The identifiers of intrinsic entries.
pub open spec fn intrinsic_id_keys(es: Seq<IntrinsicView>) -> Seq<Seq<char>> {
    es.map_values(|e: IntrinsicView| e.intrinsic_id)
}

/// An intrinsic has an owner inside `Pop.Internal.`, a signature and a
/// lowering kind.
pub open spec fn intrinsic_contract_ok(e: IntrinsicView) -> bool {
    &&& e.owner.len() != 0
    &&& e.signature.len() != 0
    &&& e.lowering_kind.len() != 0
    &&& "Pop.Internal."@.len() <= e.owner.len()
    &&& e.owner.take("Pop.Internal."@.len() as int) == "Pop.Internal."@
}

/// What validating intrinsics finds first, as a reason.
pub open spec fn intrinsics_failure(es: Seq<IntrinsicView>) -> Option<Seq<char>> {
    if has_duplicate(intrinsic_id_keys(es)) {
        Some("duplicate intrinsic ID"@)
    } else if exists|i: int| 0 <= i < es.len() && !intrinsic_contract_ok(#[trigger] es[i]) {
        Some("invalid intrinsic contract"@)
    } else {
        None
    }
}

/// Checks intrinsics: distinct identifiers and complete `Pop.Internal.` contracts.
pub fn validate_intrinsics(entries: &[BootstrapIntrinsicEntry]) -> (r: Result<(), BootstrapSchemaError>)
    ensures
        match intrinsics_failure(intrinsic_views(entries@)) {
            Some(reason) => r matches Err(e) && e@ == ("intrinsic"@, 2int, reason),
            None => r is Ok,
        },
{
    let ghost es = intrinsic_views(entries@);
    let mut ids: Vec<&'static str> = Vec::new();
    let mut i: usize = 0;
    while i < entries.len()
        invariant
            i <= entries@.len(),
            es == intrinsic_views(entries@),
            field_texts(ids@) == intrinsic_id_keys(es.take(i as int)),
        decreases entries.len() - i,
    {
        let ghost before = ids@;
        ids.push(entries[i].intrinsic_id);
        proof {
            assert(es[i as int] == entries@[i as int]@);
            assert(es.take(i + 1) =~= es.take(i as int).push(es[i as int]));
            assert(field_texts(ids@) =~= field_texts(before).push(entries@[i as int].intrinsic_id@));
            assert(field_texts(ids@) =~= intrinsic_id_keys(es.take(i + 1)));
        }
        i = i + 1;
    }
    assert(es.take(i as int) =~= es);
    if has_duplicate_name(&ids) {
        return Err(error("intrinsic", 2, "duplicate intrinsic ID"));
    }
    let mut i: usize = 0;
    while i < entries.len()
        invariant
            i <= entries@.len(),
            es == intrinsic_views(entries@),
            !has_duplicate(intrinsic_id_keys(es)),
            forall|k: int| 0 <= k < i ==> intrinsic_contract_ok(#[trigger] es[k]),
        decreases entries.len() - i,
    {
        let e = &entries[i];
        assert(es[i as int] == e@);
        let ok = e.owner.unicode_len() != 0 && e.signature.unicode_len() != 0
            && e.lowering_kind.unicode_len() != 0 && starts_with(e.owner, "Pop.Internal.");
        if !ok {
            assert(!intrinsic_contract_ok(es[i as int]));
            return Err(error("intrinsic", 2, "invalid intrinsic contract"));
        }
        i = i + 1;
    }
    Ok(())
}

/// The contents of compiler-attribute entries.
pub open spec fn attribute_views(v: Seq<BootstrapCompilerAttributeEntry>) -> Seq<CompilerAttributeView> {
    v.map_values(|e: BootstrapCompilerAttributeEntry| e@)
}

/// The raw identities of compiler-attribute entries.
pub open spec fn attribute_id_keys(es: Seq<CompilerAttributeView>) -> Seq<u32> {
    es.map_values(|e: CompilerAttributeView| e.id.0)
}

/// The source names of compiler-attribute entries.
pub open spec fn attribute_name_keys(es: Seq<CompilerAttributeView>) -> Seq<Seq<char>> {
    es.map_values(|e: CompilerAttributeView| e.source_name)
}

/// The roles of compiler-attribute entries.
pub open spec fn attribute_role_keys(es: Seq<CompilerAttributeView>) -> Seq<CompilerAttributeRole> {
    es.map_values(|e: CompilerAttributeView| e.role)
}

/// The trusted compiler attributes, one per role, in checking order.
pub open spec fn expected_compiler_attributes() -> Seq<CompilerAttributeView> {
    seq![
        CompilerAttributeView { role: CompilerAttributeRole::CompileTime, id: CompilerAttributeId(0), source_name: "CompileTime"@, owner_bubble: "Pop.Standard"@, argument_count: 0, target: CompilerAttributeTarget::Function, prelude: true },
        CompilerAttributeView { role: CompilerAttributeRole::AttributeUsage, id: CompilerAttributeId(1), source_name: "AttributeUsage"@, owner_bubble: "Pop.Standard"@, argument_count: 2, target: CompilerAttributeTarget::Attribute, prelude: true },
        CompilerAttributeView { role: CompilerAttributeRole::AttributeValidator, id: CompilerAttributeId(2), source_name: "AttributeValidator"@, owner_bubble: "Pop.Standard"@, argument_count: 1, target: CompilerAttributeTarget::Attribute, prelude: true },
        CompilerAttributeView { role: CompilerAttributeRole::RetainMetadata, id: CompilerAttributeId(3), source_name: "RetainMetadata"@, owner_bubble: "Pop.Standard"@, argument_count: 2, target: CompilerAttributeTarget::DataType, prelude: true },
        CompilerAttributeView { role: CompilerAttributeRole::FfiLink, id: CompilerAttributeId(100), source_name: "Ffi.Link"@, owner_bubble: "Pop.Ffi"@, argument_count: 1, target: CompilerAttributeTarget::Namespace, prelude: false },
        CompilerAttributeView { role: CompilerAttributeRole::FfiForeign, id: CompilerAttributeId(101), source_name: "Ffi.Foreign"@, owner_bubble: "Pop.Ffi"@, argument_count: 2, target: CompilerAttributeTarget::Function, prelude: false },
        CompilerAttributeView { role: CompilerAttributeRole::FfiNonblocking, id: CompilerAttributeId(102), source_name: "Ffi.Nonblocking"@, owner_bubble: "Pop.Ffi"@, argument_count: 0, target: CompilerAttributeTarget::Function, prelude: false },
        CompilerAttributeView { role: CompilerAttributeRole::FfiCLayout, id: CompilerAttributeId(103), source_name: "Ffi.C.Layout"@, owner_bubble: "Pop.Ffi"@, argument_count: 0, target: CompilerAttributeTarget::Record, prelude: false },
    ]
}

/// The first entry with this role, if any.
pub open spec fn first_with_role(es: Seq<CompilerAttributeView>, role: CompilerAttributeRole) -> Option<CompilerAttributeView>
    decreases es.len(),
{
    if es.len() == 0 {
        None
    } else if es[0].role == role {
        Some(es[0])
    } else {
        first_with_role(es.drop_first(), role)
    }
}

/// The first expected attribute the entries break, as a reason.
pub open spec fn attribute_contract_failure(es: Seq<CompilerAttributeView>, expected: Seq<CompilerAttributeView>) -> Option<Seq<char>>
    decreases expected.len(),
{
    if expected.len() == 0 {
        None
    } else {
        match first_with_role(es, expected[0].role) {
            None => Some("missing required compiler attribute role"@),
            Some(e) => if e != expected[0] {
                Some("invalid trusted compiler attribute contract"@)
            } else {
                attribute_contract_failure(es, expected.drop_first())
            },
        }
    }
}

/// What validating the combined compiler attributes finds first, as a reason.
pub open spec fn compiler_attributes_failure(es: Seq<CompilerAttributeView>) -> Option<Seq<char>> {
    if es.len() != 8 {
        Some("unexpected compiler attribute set"@)
    } else if has_duplicate(attribute_id_keys(es)) {
        Some("duplicate compiler attribute ID"@)
    } else if has_duplicate(attribute_name_keys(es)) {
        Some("duplicate compiler attribute name"@)
    } else if has_duplicate(attribute_role_keys(es)) {
        Some("duplicate compiler attribute role"@)
    } else {
        attribute_contract_failure(es, expected_compiler_attributes())
    }
}

fn expected_attribute(
    role: CompilerAttributeRole,
    id: u32,
    source_name: &'static str,
    owner_bubble: &'static str,
    argument_count: u16,
    target: CompilerAttributeTarget,
    prelude: bool,
) -> (r: BootstrapCompilerAttributeEntry)
    ensures
        r@ == (CompilerAttributeView {
            role,
            id: CompilerAttributeId(id),
            source_name: source_name@,
            owner_bubble: owner_bubble@,
            argument_count,
            target,
            prelude,
        }),
{
    BootstrapCompilerAttributeEntry {
        id: CompilerAttributeId(id),
        source_name,
        owner_bubble,
        argument_count,
        target,
        role,
        prelude,
    }
}

fn expected_attribute_table() -> (r: Vec<BootstrapCompilerAttributeEntry>)
    ensures
        attribute_views(r@) == expected_compiler_attributes(),
{
    let mut v: Vec<BootstrapCompilerAttributeEntry> = Vec::new();
    v.push(expected_attribute(CompilerAttributeRole::CompileTime, 0, "CompileTime", "Pop.Standard", 0, CompilerAttributeTarget::Function, true));
    v.push(expected_attribute(CompilerAttributeRole::AttributeUsage, 1, "AttributeUsage", "Pop.Standard", 2, CompilerAttributeTarget::Attribute, true));
    v.push(expected_attribute(CompilerAttributeRole::AttributeValidator, 2, "AttributeValidator", "Pop.Standard", 1, CompilerAttributeTarget::Attribute, true));
    v.push(expected_attribute(CompilerAttributeRole::RetainMetadata, 3, "RetainMetadata", "Pop.Standard", 2, CompilerAttributeTarget::DataType, true));
    v.push(expected_attribute(CompilerAttributeRole::FfiLink, 100, "Ffi.Link", "Pop.Ffi", 1, CompilerAttributeTarget::Namespace, false));
    v.push(expected_attribute(CompilerAttributeRole::FfiForeign, 101, "Ffi.Foreign", "Pop.Ffi", 2, CompilerAttributeTarget::Function, false));
    v.push(expected_attribute(CompilerAttributeRole::FfiNonblocking, 102, "Ffi.Nonblocking", "Pop.Ffi", 0, CompilerAttributeTarget::Function, false));
    v.push(expected_attribute(CompilerAttributeRole::FfiCLayout, 103, "Ffi.C.Layout", "Pop.Ffi", 0, CompilerAttributeTarget::Record, false));
    assert(attribute_views(v@) =~= expected_compiler_attributes());
    v
}

fn find_role(entries: &[BootstrapCompilerAttributeEntry], role: CompilerAttributeRole) -> (r: Option<BootstrapCompilerAttributeEntry>)
    ensures
        match first_with_role(attribute_views(entries@), role) {
            None => r is None,
            Some(v) => r matches Some(e) && e@ == v,
        },
{
    let ghost es = attribute_views(entries@);
    let mut i: usize = 0;
    assert(es.skip(0) =~= es);
    while i < entries.len()
        invariant
            i <= entries@.len(),
            es == attribute_views(entries@),
            first_with_role(es, role) == first_with_role(es.skip(i as int), role),
        decreases entries.len() - i,
    {
        let e = entries[i];
        assert(es.skip(i as int)[0] == e@);
        if e.role == role {
            return Some(e);
        }
        assert(es.skip(i as int).drop_first() =~= es.skip(i + 1));
        i = i + 1;
    }
    None
}

fn attribute_contract_problem(entries: &[BootstrapCompilerAttributeEntry]) -> (r: Option<&'static str>)
    ensures
        match attribute_contract_failure(attribute_views(entries@), expected_compiler_attributes()) {
            Some(reason) => r matches Some(x) && x@ == reason,
            None => r is None,
        },
{
    let ghost es = attribute_views(entries@);
    let expected = expected_attribute_table();
    let ghost ex = expected_compiler_attributes();
    let mut c: usize = 0;
    assert(ex.skip(0) =~= ex);
    while c < expected.len()
        invariant
            c <= expected@.len(),
            attribute_views(expected@) == ex,
            ex == expected_compiler_attributes(),
            es == attribute_views(entries@),
            attribute_contract_failure(es, ex) == attribute_contract_failure(es, ex.skip(c as int)),
        decreases expected.len() - c,
    {
        let want = expected[c];
        proof {
            assert(ex[c as int] == want@);
            assert(ex.skip(c as int)[0] == ex[c as int]);
            assert(ex.skip(c as int).drop_first() =~= ex.skip(c + 1));
        }
        match find_role(entries, want.role) {
            None => {
                return Some("missing required compiler attribute role");
            },
            Some(e) => {
                if e.id.0 != want.id.0 || !str_eq(e.source_name, want.source_name) || !str_eq(
                    e.owner_bubble,
                    want.owner_bubble,
                ) || e.argument_count != want.argument_count || e.target != want.target || e.prelude
                    != want.prelude || e.role != want.role {
                    return Some("invalid trusted compiler attribute contract");
                }
                assert(e@ == want@);
            },
        }
        c = c + 1;
    }
    assert(ex.skip(c as int).len() == 0);
    None
}

/// Checks the combined compiler attributes: exactly eight, distinct
/// identities, names and roles, each matching its trusted contract.
pub fn validate_compiler_attributes(entries: &[BootstrapCompilerAttributeEntry]) -> (r: Result<
    (),
    BootstrapSchemaError,
>)
    ensures
        match compiler_attributes_failure(attribute_views(entries@)) {
            Some(reason) => r matches Err(e) && e@ == ("compiler attribute"@, 2int, reason),
            None => r is Ok,
        },
{
    let ghost es = attribute_views(entries@);
    if entries.len() != 8 {
        return Err(error("compiler attribute", 2, "unexpected compiler attribute set"));
    }
    let mut ids: Vec<u32> = Vec::new();
    let mut names: Vec<&'static str> = Vec::new();
    let mut roles: Vec<CompilerAttributeRole> = Vec::new();
    let mut i: usize = 0;
    while i < entries.len()
        invariant
            i <= entries@.len(),
            es == attribute_views(entries@),
            ids@ == attribute_id_keys(es.take(i as int)),
            field_texts(names@) == attribute_name_keys(es.take(i as int)),
            roles@ == attribute_role_keys(es.take(i as int)),
        decreases entries.len() - i,
    {
        let e = entries[i];
        let ghost names_before = names@;
        ids.push(e.id.0);
        names.push(e.source_name);
        roles.push(e.role);
        proof {
            assert(es[i as int] == e@);
            assert(es.take(i + 1) =~= es.take(i as int).push(e@));
            assert(field_texts(names@) =~= field_texts(names_before).push(e.source_name@));
            assert(ids@ =~= attribute_id_keys(es.take(i + 1)));
            assert(field_texts(names@) =~= attribute_name_keys(es.take(i + 1)));
            assert(roles@ =~= attribute_role_keys(es.take(i + 1)));
        }
        i = i + 1;
    }
    assert(es.take(i as int) =~= es);
    if has_duplicate_raw(&ids) {
        return Err(error("compiler attribute", 2, "duplicate compiler attribute ID"));
    }
    if has_duplicate_name(&names) {
        return Err(error("compiler attribute", 2, "duplicate compiler attribute name"));
    }
    if has_duplicate_role(&roles) {
        return Err(error("compiler attribute", 2, "duplicate compiler attribute role"));
    }
    match attribute_contract_problem(entries) {
        Some(reason) => Err(error("compiler attribute", 2, reason)),
        None => Ok(()),
    }
}

/// The contents of standard-function entries.
pub open spec fn function_views(v: Seq<BootstrapStandardFunctionEntry>) -> Seq<StandardFunctionView> {
    v.map_values(|e: BootstrapStandardFunctionEntry| e@)
}

/// Entry `index` is the trusted `print` overload taking `parameter`.
pub open spec fn print_contract_ok(e: StandardFunctionView, index: int, parameter: Seq<char>) -> bool {
    &&& e.id.0 == index
    &&& e.source_name == "print"@
    &&& e.owner_bubble == "Pop.Standard"@
    &&& e.parameter_types == seq![parameter]
    &&& e.result_types.len() == 0
    &&& e.effects == seq!["AmbientIo"@]
    &&& e.prelude
}

/// What validating the standard functions finds first: line and reason.
pub open spec fn standard_functions_failure(es: Seq<StandardFunctionView>) -> Option<(int, Seq<char>)> {
    if es.len() != 2 {
        Some((2, "bootstrap requires exactly two standard functions"@))
    } else if !print_contract_ok(es[0], 0, "Int"@) {
        Some((3, "invalid trusted print contract"@))
    } else if !print_contract_ok(es[1], 1, "String"@) {
        Some((4, "invalid trusted print contract"@))
    } else {
        None
    }
}

fn print_contract_holds(e: &BootstrapStandardFunctionEntry, index: u32, parameter: &'static str) -> (r: bool)
    ensures
        r == print_contract_ok(e@, index as int, parameter@),
{
    let v = Ghost(e@);
    let params_ok = e.parameter_types.len() == 1 && str_eq(e.parameter_types[0], parameter);
    proof {
        if e.parameter_types@.len() == 1 {
            assert(name_views(e.parameter_types@) =~= seq![e.parameter_types@[0]@]);
            if !params_ok {
                assert(v@.parameter_types[0] != seq![parameter@][0]);
            }
        } else {
            assert(v@.parameter_types.len() != 1);
        }
        assert(params_ok == (v@.parameter_types == seq![parameter@]));
    }
    let effects_ok = e.effects.len() == 1 && str_eq(e.effects[0], "AmbientIo");
    proof {
        if e.effects@.len() == 1 {
            assert(name_views(e.effects@) =~= seq![e.effects@[0]@]);
            if !effects_ok {
                assert(v@.effects[0] != seq!["AmbientIo"@][0]);
            }
        } else {
            assert(v@.effects.len() != 1);
        }
        assert(effects_ok == (v@.effects == seq!["AmbientIo"@]));
    }
    let results_ok = e.result_types.len() == 0;
    assert(results_ok == (v@.result_types.len() == 0));
    e.id.0 == index && str_eq(e.source_name, "print") && str_eq(e.owner_bubble, "Pop.Standard")
        && params_ok && results_ok && effects_ok && e.prelude
}

/// Checks the standard functions: exactly the two trusted `print` overloads.
pub fn validate_standard_functions(entries: &[BootstrapStandardFunctionEntry]) -> (r: Result<
    (),
    BootstrapSchemaError,
>)
    ensures
        match standard_functions_failure(function_views(entries@)) {
            Some((line, reason)) => r matches Err(e) && e@ == ("standard function"@, line, reason),
            None => r is Ok,
        },
{
    if entries.len() != 2 {
        return Err(error("standard function", 2, "bootstrap requires exactly two standard functions"));
    }
    assert(function_views(entries@)[0] == entries@[0]@);
    assert(function_views(entries@)[1] == entries@[1]@);
    if !print_contract_holds(&entries[0], 0, "Int") {
        return Err(error("standard function", 3, "invalid trusted print contract"));
    }
    if !print_contract_holds(&entries[1], 1, "String") {
        return Err(error("standard function", 4, "invalid trusted print contract"));
    }
    Ok(())
}

} // verus!

verus! {

/// The validated bootstrap vocabulary.
#[derive(Debug)]
pub struct BootstrapSchema {
    version: u32,
    primitives: Vec<BootstrapPrimitiveEntry>,
    types: Vec<BootstrapTypeEntry>,
    intrinsics: Vec<BootstrapIntrinsicEntry>,
    compiler_attributes: Vec<BootstrapCompilerAttributeEntry>,
    standard_functions: Vec<BootstrapStandardFunctionEntry>,
}

/// The content of a bootstrap schema.
pub struct BootstrapSchemaView {
    pub version: u32,
    pub primitives: Seq<(Seq<char>, Seq<char>, Seq<char>)>,
    pub types: Seq<TypeEntryView>,
    pub intrinsics: Seq<IntrinsicView>,
    pub compiler_attributes: Seq<CompilerAttributeView>,
    pub standard_functions: Seq<StandardFunctionView>,
}

/// The first compiler attribute with this source name, if any.
pub open spec fn first_attribute_named(es: Seq<CompilerAttributeView>, name: Seq<char>) -> Option<CompilerAttributeView>
    decreases es.len(),
{
    if es.len() == 0 {
        None
    } else if es[0].source_name == name {
        Some(es[0])
    } else {
        first_attribute_named(es.drop_first(), name)
    }
}

/// The first compiler attribute with this identity, if any.
pub open spec fn first_attribute_with_id(es: Seq<CompilerAttributeView>, id: CompilerAttributeId) -> Option<CompilerAttributeView>
    decreases es.len(),
{
    if es.len() == 0 {
        None
    } else if es[0].id == id {
        Some(es[0])
    } else {
        first_attribute_with_id(es.drop_first(), id)
    }
}

/// The first type entry with this identity, if any.
pub open spec fn first_type_with_id(es: Seq<TypeEntryView>, id: BuiltinTypeId) -> Option<TypeEntryView>
    decreases es.len(),
{
    if es.len() == 0 {
        None
    } else if es[0].id == id {
        Some(es[0])
    } else {
        first_type_with_id(es.drop_first(), id)
    }
}

/// The iteration protocol the types declare, if they declare it in full:
/// `Iteration`, `List` and `Range` nominal, `Iterable` and `Iterator`
/// interfaces, each of arity one.
pub open spec fn iteration_protocol_of(types: Seq<TypeEntryView>) -> Option<
    (BuiltinTypeId, BuiltinTypeId, BuiltinTypeId, BuiltinTypeId, BuiltinTypeId),
> {
    match (
        first_named(types, "Iteration"@),
        first_named(types, "Iterable"@),
        first_named(types, "Iterator"@),
        first_named(types, "List"@),
        first_named(types, "Range"@),
    ) {
        (Some(iteration), Some(iterable), Some(iterator), Some(list), Some(range)) => if iteration.arity
            == 1 && iteration.role == BootstrapTypeRole::Nominal && iterable.arity == 1 && iterable.role
            == BootstrapTypeRole::Interface && iterator.arity == 1 && iterator.role
            == BootstrapTypeRole::Interface && list.arity == 1 && list.role == BootstrapTypeRole::Nominal
            && range.arity == 1 && range.role == BootstrapTypeRole::Nominal {
            Some((iteration.id, iterable.id, iterator.id, list.id, range.id))
        } else {
            None
        },
        _ => None,
    }
}

/// The codec error type the types declare, if it has its trusted shape.
pub open spec fn codec_error_of(types: Seq<TypeEntryView>) -> Option<BuiltinTypeId> {
    match first_named(types, "Codec.Error"@) {
        Some(e) => if e.id.0 == 121 && e.owner_bubble == "Pop.Standard"@ && e.arity == 0 && e.role
            == BootstrapTypeRole::Nominal && !e.prelude {
            Some(e.id)
        } else {
            None
        },
        None => None,
    }
}

/// The prelude functions with this source name, in order.
pub open spec fn prelude_functions_named(es: Seq<StandardFunctionView>, name: Seq<char>) -> Seq<StandardFunctionView>
    decreases es.len(),
{
    if es.len() == 0 {
        Seq::empty()
    } else {
        let rest = prelude_functions_named(es.drop_last(), name);
        if es.last().prelude && es.last().source_name == name {
            rest.push(es.last())
        } else {
            rest
        }
    }
}

impl BootstrapSchema {
    pub closed spec fn view(&self) -> BootstrapSchemaView {
        BootstrapSchemaView {
            version: self.version,
            primitives: primitive_views(self.primitives@),
            types: type_views(self.types@),
            intrinsics: intrinsic_views(self.intrinsics@),
            compiler_attributes: attribute_views(self.compiler_attributes@),
            standard_functions: function_views(self.standard_functions@),
        }
    }

    pub fn version(&self) -> (r: u32)
        ensures
            r == self@.version,
    {
        self.version
    }

    pub fn primitives(&self) -> (r: &[BootstrapPrimitiveEntry])
        ensures
            primitive_views(r@) == self@.primitives,
    {
        self.primitives.as_slice()
    }

    pub fn types(&self) -> (r: &[BootstrapTypeEntry])
        ensures
            type_views(r@) == self@.types,
    {
        self.types.as_slice()
    }

    pub fn intrinsics(&self) -> (r: &[BootstrapIntrinsicEntry])
        ensures
            intrinsic_views(r@) == self@.intrinsics,
    {
        self.intrinsics.as_slice()
    }

    pub fn compiler_attributes(&self) -> (r: &[BootstrapCompilerAttributeEntry])
        ensures
            attribute_views(r@) == self@.compiler_attributes,
    {
        self.compiler_attributes.as_slice()
    }

    pub fn standard_functions(&self) -> (r: &[BootstrapStandardFunctionEntry])
        ensures
            function_views(r@) == self@.standard_functions,
    {
        self.standard_functions.as_slice()
    }

    /// The first type with this source name.
    pub fn type_by_source_name(&self, name: &str) -> (r: Option<BootstrapTypeEntry>)
        ensures
            match first_named(self@.types, name@) {
                None => r is None,
                Some(v) => r matches Some(e) && e@ == v,
            },
    {
        find_named(self.types.as_slice(), name)
    }

    /// The first type with this identity.
    pub fn type_by_id(&self, id: BuiltinTypeId) -> (r: Option<BootstrapTypeEntry>)
        ensures
            match first_type_with_id(self@.types, id) {
                None => r is None,
                Some(v) => r matches Some(e) && e@ == v,
            },
    {
        let ghost es = self@.types;
        let mut i: usize = 0;
        assert(es.skip(0) =~= es);
        while i < self.types.len()
            invariant
                i <= self.types@.len(),
                es == type_views(self.types@),
                first_type_with_id(es, id) == first_type_with_id(es.skip(i as int), id),
            decreases self.types.len() - i,
        {
            let e = self.types[i];
            assert(es.skip(i as int)[0] == e@);
            if e.id == id {
                return Some(e);
            }
            assert(es.skip(i as int).drop_first() =~= es.skip(i + 1));
            i = i + 1;
        }
        None
    }

    /// The iteration protocol, when the five types are present with their
    /// trusted roles and arities.
    pub fn iteration_protocol(&self) -> (r: Option<BootstrapIterationProtocol>)
        ensures
            match iteration_protocol_of(self@.types) {
                None => r is None,
                Some(ids) => r matches Some(p) && p@ == ids,
            },
    {
        let iteration = match self.type_by_source_name("Iteration") {
            Some(e) => e,
            None => {
                return None;
            },
        };
        let iterable = match self.type_by_source_name("Iterable") {
            Some(e) => e,
            None => {
                return None;
            },
        };
        let iterator = match self.type_by_source_name("Iterator") {
            Some(e) => e,
            None => {
                return None;
            },
        };
        let list = match self.type_by_source_name("List") {
            Some(e) => e,
            None => {
                return None;
            },
        };
        let range = match self.type_by_source_name("Range") {
            Some(e) => e,
            None => {
                return None;
            },
        };
        if iteration.arity == 1 && iteration.role == BootstrapTypeRole::Nominal && iterable.arity == 1
            && iterable.role == BootstrapTypeRole::Interface && iterator.arity == 1 && iterator.role
            == BootstrapTypeRole::Interface && list.arity == 1 && list.role == BootstrapTypeRole::Nominal
            && range.arity == 1 && range.role == BootstrapTypeRole::Nominal {
            Some(
                BootstrapIterationProtocol {
                    iteration: iteration.id,
                    iterable: iterable.id,
                    iterator: iterator.id,
                    list: list.id,
                    range: range.id,
                },
            )
        } else {
            None
        }
    }

    /// The codec error protocol, when `Codec.Error` has its trusted shape.
    pub fn codec_error_protocol(&self) -> (r: Option<BootstrapCodecErrorProtocol>)
        ensures
            match codec_error_of(self@.types) {
                None => r is None,
                Some(id) => r matches Some(p) && p@ == id,
            },
    {
        match self.type_by_source_name("Codec.Error") {
            None => None,
            Some(error) => {
                if error.id.0 == 121 && str_eq(error.owner_bubble, "Pop.Standard") && error.arity == 0
                    && error.role == BootstrapTypeRole::Nominal && !error.prelude {
                    Some(BootstrapCodecErrorProtocol { error: error.id })
                } else {
                    None
                }
            },
        }
    }

    /// The prelude standard functions with this source name, in order.
    pub fn standard_functions_by_source_name(&self, name: &str) -> (r: Vec<&BootstrapStandardFunctionEntry>)
        ensures
            r@.len() == prelude_functions_named(self@.standard_functions, name@).len(),
            forall|k: int|
                0 <= k < r@.len() ==> (#[trigger] r@[k])@ == prelude_functions_named(
                    self@.standard_functions,
                    name@,
                )[k],
    {
        let ghost es = self@.standard_functions;
        let mut out: Vec<&BootstrapStandardFunctionEntry> = Vec::new();
        let mut i: usize = 0;
        while i < self.standard_functions.len()
            invariant
                i <= self.standard_functions@.len(),
                es == function_views(self.standard_functions@),
                out@.len() == prelude_functions_named(es.take(i as int), name@).len(),
                forall|k: int|
                    0 <= k < out@.len() ==> (#[trigger] out@[k])@ == prelude_functions_named(
                        es.take(i as int),
                        name@,
                    )[k],
            decreases self.standard_functions.len() - i,
        {
            let e = &self.standard_functions[i];
            proof {
                assert(es.take(i + 1).drop_last() =~= es.take(i as int));
                assert(es.take(i + 1).last() == e@);
            }
            if e.prelude && str_eq(e.source_name, name) {
                out.push(e);
            }
            i = i + 1;
        }
        assert(es.take(i as int) =~= es);
        out
    }

    /// A trusted prelude compiler-attribute candidate by source name. Its
    /// identity is distinct from every user attribute; callers still apply
    /// declaration and prelude priority before choosing it.
    pub fn compiler_attribute_by_source_name(&self, name: &str) -> (r: Option<BootstrapCompilerAttributeEntry>)
        ensures
            match first_attribute_named(self@.compiler_attributes, name@) {
                None => r is None,
                Some(v) => r matches Some(e) && e@ == v,
            },
    {
        let ghost es = self@.compiler_attributes;
        let mut i: usize = 0;
        assert(es.skip(0) =~= es);
        while i < self.compiler_attributes.len()
            invariant
                i <= self.compiler_attributes@.len(),
                es == attribute_views(self.compiler_attributes@),
                first_attribute_named(es, name@) == first_attribute_named(es.skip(i as int), name@),
            decreases self.compiler_attributes.len() - i,
        {
            let e = self.compiler_attributes[i];
            assert(es.skip(i as int)[0] == e@);
            if str_eq(e.source_name, name) {
                return Some(e);
            }
            assert(es.skip(i as int).drop_first() =~= es.skip(i + 1));
            i = i + 1;
        }
        None
    }

    /// The first compiler attribute with this role.
    pub fn compiler_attribute_by_role(&self, role: CompilerAttributeRole) -> (r: Option<
        BootstrapCompilerAttributeEntry,
    >)
        ensures
            match first_with_role(self@.compiler_attributes, role) {
                None => r is None,
                Some(v) => r matches Some(e) && e@ == v,
            },
    {
        find_role(self.compiler_attributes.as_slice(), role)
    }

    /// The compiler attribute an identity names; none for user attributes.
    pub fn compiler_attribute(&self, identity: AttributeIdentity) -> (r: Option<BootstrapCompilerAttributeEntry>)
        ensures
            match identity {
                AttributeIdentity::User(_) => r is None,
                AttributeIdentity::Compiler(id) => match first_attribute_with_id(self@.compiler_attributes, id) {
                    None => r is None,
                    Some(v) => r matches Some(e) && e@ == v,
                },
            },
    {
        let id = match identity {
            AttributeIdentity::Compiler(id) => id,
            AttributeIdentity::User(_) => {
                return None;
            },
        };
        let ghost es = self@.compiler_attributes;
        let mut i: usize = 0;
        assert(es.skip(0) =~= es);
        while i < self.compiler_attributes.len()
            invariant
                i <= self.compiler_attributes@.len(),
                identity == AttributeIdentity::Compiler(id),
                es == attribute_views(self.compiler_attributes@),
                first_attribute_with_id(es, id) == first_attribute_with_id(es.skip(i as int), id),
            decreases self.compiler_attributes.len() - i,
        {
            let e = self.compiler_attributes[i];
            assert(es.skip(i as int)[0] == e@);
            if e.id == id {
                return Some(e);
            }
            assert(es.skip(i as int).drop_first() =~= es.skip(i + 1));
            i = i + 1;
        }
        None
    }

    /// The role of the compiler attribute an identity names.
    pub fn compiler_attribute_role(&self, identity: AttributeIdentity) -> (r: Option<CompilerAttributeRole>)
        ensures
            match identity {
                AttributeIdentity::User(_) => r is None,
                AttributeIdentity::Compiler(id) => match first_attribute_with_id(self@.compiler_attributes, id) {
                    None => r is None,
                    Some(v) => r == Some(v.role),
                },
            },
    {
        match self.compiler_attribute(identity) {
            Some(entry) => Some(entry.role),
            None => None,
        }
    }
}

/// The bootstrap documents: primitive, intrinsic, three type documents,
/// two compiler-attribute documents and the standard-function document.
#[derive(Clone, Copy, Debug)]
pub struct BootstrapDocuments {
    pub primitives: &'static str,
    pub intrinsics: &'static str,
    pub internal_types: &'static str,
    pub standard_types: &'static str,
    pub ffi_types: &'static str,
    pub standard_compiler_attributes: &'static str,
    pub ffi_compiler_attributes: &'static str,
    pub standard_functions: &'static str,
}

/// A refusal as (document, line, reason).
pub open spec fn refusal(document: Seq<char>, e: (int, Seq<char>)) -> (Seq<char>, int, Seq<char>) {
    (document, e.0, e.1)
}

/// The cross-checks of the combined entries, in order, once every document
/// has been read: matching versions, then the primitive, type, intrinsic,
/// compiler-attribute and standard-function checks.
pub open spec fn combined_outcome(
    versions: Seq<u32>,
    view: BootstrapSchemaView,
) -> Result<BootstrapSchemaView, (Seq<char>, int, Seq<char>)> {
    if exists|k: int| 0 <= k < versions.len() && #[trigger] versions[k] != view.version {
        Err(("combined"@, 1, "schema versions disagree"@))
    } else {
        match primitives_failure(view.primitives) {
            Some(x) => Err(refusal("primitive"@, x)),
            None => match types_failure(view.types) {
                Some((document, reason)) => Err((document, 2, reason)),
                None => match intrinsics_failure(view.intrinsics) {
                    Some(reason) => Err(("intrinsic"@, 2, reason)),
                    None => match compiler_attributes_failure(view.compiler_attributes) {
                        Some(reason) => Err(("compiler attribute"@, 2, reason)),
                        None => match standard_functions_failure(view.standard_functions) {
                            Some(x) => Err(refusal("standard function"@, x)),
                            None => Ok(view),
                        },
                    },
                },
            },
        }
    }
}

/// Reading all bootstrap documents, in the order primitive, intrinsic,
/// internal, standard and FFI types, standard and FFI compiler attributes,
/// standard functions: the other documents' versions and the combined
/// entries, or the first refusal.
pub open spec fn documents_read(d: BootstrapDocuments) -> Result<(Seq<u32>, BootstrapSchemaView), (Seq<char>, int, Seq<char>)> {
    match parse_document(d.primitives@, primitive_header(), row_reader::<BootstrapPrimitiveEntry>()) {
        Err(x) => Err(refusal("primitive"@, x)),
        Ok((pv, prims)) => match parse_document(d.intrinsics@, intrinsic_header(), row_reader::<BootstrapIntrinsicEntry>()) {
            Err(x) => Err(refusal("intrinsic"@, x)),
            Ok((iv, intrinsics)) => match parse_document(d.internal_types@, type_header(), row_reader::<BootstrapTypeEntry>()) {
                Err(x) => Err(refusal("internal type"@, x)),
                Ok((tv1, t1)) => match parse_document(d.standard_types@, type_header(), row_reader::<BootstrapTypeEntry>()) {
                    Err(x) => Err(refusal("standard type"@, x)),
                    Ok((tv2, t2)) => match parse_document(d.ffi_types@, type_header(), row_reader::<BootstrapTypeEntry>()) {
                        Err(x) => Err(refusal("FFI type"@, x)),
                        Ok((tv3, t3)) => match parse_document(d.standard_compiler_attributes@, compiler_attribute_header(), row_reader::<BootstrapCompilerAttributeEntry>()) {
                            Err(x) => Err(refusal("standard compiler attribute"@, x)),
                            Ok((av1, a1)) => match parse_document(d.ffi_compiler_attributes@, compiler_attribute_header(), row_reader::<BootstrapCompilerAttributeEntry>()) {
                                Err(x) => Err(refusal("FFI compiler attribute"@, x)),
                                Ok((av2, a2)) => match parse_document(d.standard_functions@, standard_function_header(), row_reader::<BootstrapStandardFunctionEntry>()) {
                                    Err(x) => Err(refusal("standard function"@, x)),
                                    Ok((fv, fns)) => Ok((
                                        seq![iv, tv1, tv2, tv3, av1, av2, fv],
                                        BootstrapSchemaView {
                                            version: pv,
                                            primitives: prims,
                                            types: t1 + t2 + t3,
                                            intrinsics,
                                            compiler_attributes: a1 + a2,
                                            standard_functions: fns,
                                        },
                                    )),
                                },
                            },
                        },
                    },
                },
            },
        },
    }
}

/// Reading and cross-checking all bootstrap documents.
pub open spec fn schema_outcome(d: BootstrapDocuments) -> Result<BootstrapSchemaView, (Seq<char>, int, Seq<char>)> {
    match documents_read(d) {
        Err(x) => Err(x),
        Ok((versions, view)) => combined_outcome(versions, view),
    }
}

fn append_types(a: &mut Vec<BootstrapTypeEntry>, b: Vec<BootstrapTypeEntry>)
    ensures
        type_views(final(a)@) == type_views(old(a)@) + type_views(b@),
{
    let mut i: usize = 0;
    let ghost start = type_views(a@);
    while i < b.len()
        invariant
            i <= b@.len(),
            type_views(a@) == start + type_views(b@).take(i as int),
        decreases b.len() - i,
    {
        let ghost before = type_views(a@);
        a.push(b[i]);
        proof {
            assert(type_views(a@) =~= before.push(b@[i as int]@));
            assert(type_views(b@).take(i + 1) =~= type_views(b@).take(i as int).push(b@[i as int]@));
            assert(type_views(a@) =~= start + type_views(b@).take(i + 1));
        }
        i = i + 1;
    }
    assert(type_views(b@).take(i as int) =~= type_views(b@));
}

fn append_attributes(a: &mut Vec<BootstrapCompilerAttributeEntry>, b: Vec<BootstrapCompilerAttributeEntry>)
    ensures
        attribute_views(final(a)@) == attribute_views(old(a)@) + attribute_views(b@),
{
    let mut i: usize = 0;
    let ghost start = attribute_views(a@);
    while i < b.len()
        invariant
            i <= b@.len(),
            attribute_views(a@) == start + attribute_views(b@).take(i as int),
        decreases b.len() - i,
    {
        let ghost before = attribute_views(a@);
        a.push(b[i]);
        proof {
            assert(attribute_views(a@) =~= before.push(b@[i as int]@));
            assert(attribute_views(b@).take(i + 1) =~= attribute_views(b@).take(i as int).push(b@[i as int]@));
            assert(attribute_views(a@) =~= start + attribute_views(b@).take(i + 1));
        }
        i = i + 1;
    }
    assert(attribute_views(b@).take(i as int) =~= attribute_views(b@));
}

fn read_documents(documents: BootstrapDocuments) -> (r: Result<(Vec<u32>, BootstrapSchema), BootstrapSchemaError>)
    ensures
        match documents_read(documents) {
            Ok((versions, view)) => r matches Ok((vs, schema)) && vs@ == versions && schema@ == view,
            Err(refused) => r matches Err(e) && e@ == refused,
        },
{
    let (primitive_version, primitives) = match parse_primitives(documents.primitives) {
        Ok(x) => x,
        Err(e) => {
            return Err(e);
        },
    };
    let (intrinsic_version, intrinsics) = match parse_intrinsics(documents.intrinsics) {
        Ok(x) => x,
        Err(e) => {
            return Err(e);
        },
    };
    let (internal_type_version, mut types) = match parse_types("internal type", documents.internal_types) {
        Ok(x) => x,
        Err(e) => {
            return Err(e);
        },
    };
    let (standard_type_version, standard_types) = match parse_types("standard type", documents.standard_types) {
        Ok(x) => x,
        Err(e) => {
            return Err(e);
        },
    };
    let (ffi_type_version, ffi_types) = match parse_types("FFI type", documents.ffi_types) {
        Ok(x) => x,
        Err(e) => {
            return Err(e);
        },
    };
    let (standard_attribute_version, mut compiler_attributes) = match parse_compiler_attributes(
        "standard compiler attribute",
        documents.standard_compiler_attributes,
    ) {
        Ok(x) => x,
        Err(e) => {
            return Err(e);
        },
    };
    let (ffi_attribute_version, ffi_attributes) = match parse_compiler_attributes(
        "FFI compiler attribute",
        documents.ffi_compiler_attributes,
    ) {
        Ok(x) => x,
        Err(e) => {
            return Err(e);
        },
    };
    let (standard_function_version, standard_functions) = match parse_standard_functions(
        documents.standard_functions,
    ) {
        Ok(x) => x,
        Err(e) => {
            return Err(e);
        },
    };
    proof {
        assert(contents(types@) == type_views(types@));
        assert(contents(standard_types@) == type_views(standard_types@));
        assert(contents(ffi_types@) == type_views(ffi_types@));
        assert(contents(compiler_attributes@) == attribute_views(compiler_attributes@));
        assert(contents(ffi_attributes@) == attribute_views(ffi_attributes@));
        assert(contents(primitives@) == primitive_views(primitives@));
        assert(contents(intrinsics@) == intrinsic_views(intrinsics@));
        assert(contents(standard_functions@) == function_views(standard_functions@));
    }
    append_types(&mut types, standard_types);
    append_types(&mut types, ffi_types);
    append_attributes(&mut compiler_attributes, ffi_attributes);
    let mut versions: Vec<u32> = Vec::new();
    versions.push(intrinsic_version);
    versions.push(internal_type_version);
    versions.push(standard_type_version);
    versions.push(ffi_type_version);
    versions.push(standard_attribute_version);
    versions.push(ffi_attribute_version);
    versions.push(standard_function_version);
    assert(versions@ =~= seq![
        intrinsic_version,
        internal_type_version,
        standard_type_version,
        ffi_type_version,
        standard_attribute_version,
        ffi_attribute_version,
        standard_function_version,
    ]);
    let schema = BootstrapSchema {
        version: primitive_version,
        primitives,
        types,
        intrinsics,
        compiler_attributes,
        standard_functions,
    };
    Ok((versions, schema))
}

fn check_combined(versions: &Vec<u32>, schema: BootstrapSchema) -> (r: Result<BootstrapSchema, BootstrapSchemaError>)
    ensures
        match combined_outcome(versions@, schema@) {
            Ok(view) => r matches Ok(s) && s@ == view,
            Err(refused) => r matches Err(e) && e@ == refused,
        },
{
    let mut k: usize = 0;
    while k < versions.len()
        invariant
            k <= versions@.len(),
            forall|j: int| 0 <= j < k ==> versions@[j] == schema@.version,
        decreases versions.len() - k,
    {
        if versions[k] != schema.version {
            return Err(error("combined", 1, "schema versions disagree"));
        }
        k = k + 1;
    }
    if let Err(e) = validate_primitives(schema.primitives.as_slice()) {
        return Err(e);
    }
    if let Err(e) = validate_types(schema.types.as_slice()) {
        return Err(e);
    }
    if let Err(e) = validate_intrinsics(schema.intrinsics.as_slice()) {
        return Err(e);
    }
    if let Err(e) = validate_compiler_attributes(schema.compiler_attributes.as_slice()) {
        return Err(e);
    }
    if let Err(e) = validate_standard_functions(schema.standard_functions.as_slice()) {
        return Err(e);
    }
    Ok(schema)
}

/// Reads and cross-validates the bootstrap documents: every document must
/// parse, the versions must agree, identifiers must not repeat, and
/// primitive metadata must follow the semantic type contract.
pub fn bootstrap_schema(documents: BootstrapDocuments) -> (r: Result<BootstrapSchema, BootstrapSchemaError>)
    ensures
        match schema_outcome(documents) {
            Ok(view) => r matches Ok(schema) && schema@ == view,
            Err(refused) => r matches Err(e) && e@ == refused,
        },
{
    match read_documents(documents) {
        Err(e) => Err(e),
        Ok((versions, schema)) => check_combined(&versions, schema),
    }
}

impl Clone for BootstrapStandardFunctionEntry {
    fn clone(&self) -> (r: Self)
        ensures
            r@ == self@,
    {
        BootstrapStandardFunctionEntry {
            id: self.id,
            source_name: self.source_name,
            owner_bubble: self.owner_bubble,
            parameter_types: crate::ids::copy_vec(&self.parameter_types),
            result_types: crate::ids::copy_vec(&self.result_types),
            effects: crate::ids::copy_vec(&self.effects),
            prelude: self.prelude,
        }
    }
}

impl Clone for BootstrapIntrinsicEntry {
    fn clone(&self) -> (r: Self)
        ensures
            r@ == self@,
    {
        BootstrapIntrinsicEntry {
            intrinsic_id: self.intrinsic_id,
            owner: self.owner,
            signature: self.signature,
            lowering_kind: self.lowering_kind,
            required_capabilities: crate::ids::copy_vec(&self.required_capabilities),
        }
    }
}

impl Clone for BootstrapSchema {
    fn clone(&self) -> (r: Self)
        ensures
            r@ == self@,
    {
        let mut intrinsics: Vec<BootstrapIntrinsicEntry> = Vec::new();
        let mut i: usize = 0;
        while i < self.intrinsics.len()
            invariant
                i <= self.intrinsics@.len(),
                intrinsics@.len() == i,
                forall|k: int| 0 <= k < i ==> (#[trigger] intrinsics@[k])@ == self.intrinsics@[k]@,
            decreases self.intrinsics.len() - i,
        {
            intrinsics.push(self.intrinsics[i].clone());
            i = i + 1;
        }
        assert(intrinsic_views(intrinsics@) =~= intrinsic_views(self.intrinsics@));
        let mut standard_functions: Vec<BootstrapStandardFunctionEntry> = Vec::new();
        let mut j: usize = 0;
        while j < self.standard_functions.len()
            invariant
                j <= self.standard_functions@.len(),
                standard_functions@.len() == j,
                forall|k: int| 0 <= k < j ==> (#[trigger] standard_functions@[k])@ == self.standard_functions@[k]@,
            decreases self.standard_functions.len() - j,
        {
            standard_functions.push(self.standard_functions[j].clone());
            j = j + 1;
        }
        assert(function_views(standard_functions@) =~= function_views(self.standard_functions@));
        BootstrapSchema {
            version: self.version,
            primitives: crate::ids::copy_vec(&self.primitives),
            types: crate::ids::copy_vec(&self.types),
            intrinsics,
            compiler_attributes: crate::ids::copy_vec(&self.compiler_attributes),
            standard_functions,
        }
    }
}

} // verus!
