use pop_types::bootstrap::{
    bootstrap_schema, ffi_c_integer_kind, is_ffi_abi_builtin_type, is_ffi_function_type_constructor,
    is_ffi_integer_abi_builtin_type, is_ffi_pointer_type_constructor, parse_compiler_attributes,
    parse_intrinsics, parse_primitives, parse_standard_functions, parse_types, validate_intrinsics,
    validate_primitives, validate_standard_functions, validate_types, AttributeIdentity,
    BootstrapDocuments, BootstrapTypeRole, CodecErrorReason, CompilerAttributeId,
    CompilerAttributeRole, CompilerAttributeTarget, FfiCIntegerKind,
};
use pop_types::ids::{AttributeId, ClassId, InterfaceId, IterationProtocolMethodId, ParameterId, SymbolId};
use pop_types::pattern_inference::{infer_type_pattern, PatternFacts};
use pop_types::specializations::TypeSubstitutions;
use pop_types::nominal_bounds::{
    is_class_to_builtin_interface_upcast, iteration_item_type, type_satisfies_nominal_bound,
};
use pop_types::{BuiltinTypeId, Effect, SemanticType, TypeArena, TypeId};

const PRIMITIVES: &str = "schemaVersion\t3
sourceName\tcanonicalName\truntimeRole
nil\tnil\tnil
Boolean\tBoolean\tboolean
Int8\tInt8\ti8
Int16\tInt16\ti16
Int32\tInt32\ti32
Int64\tInt64\ti64
UInt8\tUInt8\tu8
UInt16\tUInt16\tu16
UInt32\tUInt32\tu32
UInt64\tUInt64\tu64
Int\tInt64\ti64
Float32\tFloat32\tf32
Float64\tFloat64\tf64
Float\tFloat64\tf64
Byte\tUInt8\tu8
String\tString\tstring
Never\tNever\tnever
";

const INTRINSICS: &str = "schemaVersion\t3
intrinsicId\towner\tsignature\tloweringKind\trequiredCapabilities
text.length\tPop.Internal.Text\t(String) -> Int\tcall\t-
io.print\tPop.Internal.Io\t(String) -> nil\tcall\tstdout,locale
";

const INTERNAL_TYPES: &str = "schemaVersion\t3
typeId\tsourceName\townerBubble\tarity\trole\tprelude
1\tIteration\tPop.Internal\t1\tNominal\tfalse
2\tIterable\tPop.Internal\t1\tInterface\tfalse
3\tIterator\tPop.Internal\t1\tInterface\tfalse
";

const STANDARD_TYPES: &str = "schemaVersion\t3
typeId\tsourceName\townerBubble\tarity\trole\tprelude
10\tList\tPop.Standard\t1\tNominal\ttrue
11\tRange\tPop.Standard\t1\tNominal\ttrue

121\tCodec.Error\tPop.Standard\t0\tNominal\tfalse
122\tBytes.View\tPop.Standard\t0\tView\tfalse
123\tText.View\tPop.Standard\t0\tView\tfalse
";

const FFI_TYPES: &str = "schemaVersion\t3
typeId\tsourceName\townerBubble\tarity\trole\tprelude
200\tFfi.Pointer\tPop.Ffi\t1\tNominal\tfalse
201\tFfi.OptionalPointer\tPop.Ffi\t1\tNominal\tfalse
202\tFfi.Function\tPop.Ffi\t1\tNominal\tfalse
203\tFfi.OptionalFunction\tPop.Ffi\t1\tNominal\tfalse
204\tFfi.Handle\tPop.Ffi\t1\tNominal\tfalse
205\tFfi.ReadOnlyPointer\tPop.Ffi\t1\tNominal\tfalse
206\tFfi.OptionalReadOnlyPointer\tPop.Ffi\t1\tNominal\tfalse
207\tFfi.Buffer\tPop.Ffi\t1\tNominal\tfalse
208\tFfi.NullPointerError\tPop.Ffi\t0\tNominal\tfalse
209\tFfi.AllocationError\tPop.Ffi\t0\tNominal\tfalse
210\tFfi.C.Char\tPop.Ffi\t0\tNominal\tfalse
211\tFfi.C.SignedChar\tPop.Ffi\t0\tNominal\tfalse
212\tFfi.C.UnsignedChar\tPop.Ffi\t0\tNominal\tfalse
213\tFfi.C.Short\tPop.Ffi\t0\tNominal\tfalse
214\tFfi.C.UnsignedShort\tPop.Ffi\t0\tNominal\tfalse
215\tFfi.C.Int\tPop.Ffi\t0\tNominal\tfalse
216\tFfi.C.UnsignedInt\tPop.Ffi\t0\tNominal\tfalse
217\tFfi.C.Long\tPop.Ffi\t0\tNominal\tfalse
218\tFfi.C.UnsignedLong\tPop.Ffi\t0\tNominal\tfalse
219\tFfi.C.LongLong\tPop.Ffi\t0\tNominal\tfalse
220\tFfi.C.UnsignedLongLong\tPop.Ffi\t0\tNominal\tfalse
221\tFfi.C.Size\tPop.Ffi\t0\tNominal\tfalse
222\tFfi.C.PointerDifference\tPop.Ffi\t0\tNominal\tfalse
223\tFfi.CallbackContext\tPop.Ffi\t0\tNominal\tfalse
224\tFfi.RegisteredCallback\tPop.Ffi\t1\tNominal\tfalse
225\tFfi.CallbackThread\tPop.Ffi\t0\tNominal\tfalse
226\tFfi.CallbackOpenError\tPop.Ffi\t0\tNominal\tfalse
227\tFfi.CallbackInUseError\tPop.Ffi\t0\tNominal\tfalse
228\tFfi.CallbackClosedError\tPop.Ffi\t0\tNominal\tfalse
";

const STANDARD_ATTRIBUTES: &str = "schemaVersion\t3
attributeId\tsourceName\townerBubble\targumentCount\ttarget\tsemanticRole\tprelude
0\tCompileTime\tPop.Standard\t0\tFunction\tCompileTime\ttrue
1\tAttributeUsage\tPop.Standard\t2\tAttribute\tAttributeUsage\ttrue
2\tAttributeValidator\tPop.Standard\t1\tAttribute\tAttributeValidator\ttrue
3\tRetainMetadata\tPop.Standard\t2\tDataType\tRetainMetadata\ttrue
";

const FFI_ATTRIBUTES: &str = "schemaVersion\t3
attributeId\tsourceName\townerBubble\targumentCount\ttarget\tsemanticRole\tprelude
100\tFfi.Link\tPop.Ffi\t1\tNamespace\tFfiLink\tfalse
101\tFfi.Foreign\tPop.Ffi\t2\tFunction\tFfiForeign\tfalse
102\tFfi.Nonblocking\tPop.Ffi\t0\tFunction\tFfiNonblocking\tfalse
103\tFfi.C.Layout\tPop.Ffi\t0\tRecord\tFfiCLayout\tfalse
";

const FUNCTIONS: &str = "schemaVersion\t3
functionId\tsourceName\townerBubble\tparameterTypes\tresultTypes\teffects\tprelude
0\tprint\tPop.Standard\tInt\t-\tAmbientIo\ttrue
1\tprint\tPop.Standard\tString\t-\tAmbientIo\ttrue
";

fn documents() -> BootstrapDocuments {
    BootstrapDocuments {
        primitives: PRIMITIVES,
        intrinsics: INTRINSICS,
        internal_types: INTERNAL_TYPES,
        standard_types: STANDARD_TYPES,
        ffi_types: FFI_TYPES,
        standard_compiler_attributes: STANDARD_ATTRIBUTES,
        ffi_compiler_attributes: FFI_ATTRIBUTES,
        standard_functions: FUNCTIONS,
    }
}

#[test]
fn a_consistent_document_set_gives_the_schema() {
    let schema = bootstrap_schema(documents()).expect("valid bootstrap documents");
    assert_eq!(schema.version(), 3);
    assert_eq!(schema.primitives().len(), 17);
    assert_eq!(schema.types().len(), 3 + 5 + 29);
    assert_eq!(schema.intrinsics().len(), 2);
    assert_eq!(schema.compiler_attributes().len(), 8);
    assert_eq!(schema.standard_functions().len(), 2);
    let list = schema.type_by_source_name("List").unwrap();
    assert_eq!(list.id(), BuiltinTypeId(10));
    assert_eq!(list.arity(), 1);
    assert_eq!(list.role(), BootstrapTypeRole::Nominal);
    assert!(list.is_in_prelude());
    assert_eq!(schema.type_by_id(BuiltinTypeId(123)).unwrap().source_name(), "Text.View");
    assert!(schema.type_by_id(BuiltinTypeId(999)).is_none());
    assert!(schema.type_by_source_name("Missing").is_none());
}

#[test]
fn the_schema_exposes_the_iteration_and_codec_protocols() {
    let schema = bootstrap_schema(documents()).unwrap();
    let protocol = schema.iteration_protocol().expect("iteration protocol");
    assert_eq!(protocol.iteration(), BuiltinTypeId(1));
    assert_eq!(protocol.iterable(), BuiltinTypeId(2));
    assert_eq!(protocol.iterator(), BuiltinTypeId(3));
    assert_eq!(protocol.list(), BuiltinTypeId(10));
    assert_eq!(protocol.range(), BuiltinTypeId(11));
    let next = protocol
        .method_effects(BuiltinTypeId(3), IterationProtocolMethodId(1))
        .unwrap();
    assert!(next.contains(Effect::MayTrap));
    assert!(next.contains(Effect::GcSafePoint));
    assert!(!next.contains(Effect::Allocates));
    assert_eq!(
        protocol
            .method_effects(BuiltinTypeId(2), IterationProtocolMethodId(0))
            .map(|effects| effects.bits()),
        Some(0)
    );
    assert!(protocol
        .method_effects(BuiltinTypeId(2), IterationProtocolMethodId(1))
        .is_none());
    let codec = schema.codec_error_protocol().expect("codec protocol");
    assert_eq!(codec.error(), BuiltinTypeId(121));
    assert_eq!(codec.limit_exceeded_case().0, 1);
}

#[test]
fn the_schema_looks_up_compiler_attributes_and_functions() {
    let schema = bootstrap_schema(documents()).unwrap();
    let usage = schema.compiler_attribute_by_source_name("AttributeUsage").unwrap();
    assert_eq!(usage.id(), CompilerAttributeId(1));
    assert_eq!(usage.argument_count(), 2);
    assert_eq!(usage.target(), CompilerAttributeTarget::Attribute);
    assert_eq!(usage.role(), CompilerAttributeRole::AttributeUsage);
    let link = schema
        .compiler_attribute_by_role(CompilerAttributeRole::FfiLink)
        .unwrap();
    assert_eq!(link.source_name(), "Ffi.Link");
    assert_eq!(link.owner_bubble(), "Pop.Ffi");
    assert!(!link.is_in_prelude());
    assert_eq!(
        schema.compiler_attribute_role(AttributeIdentity::Compiler(CompilerAttributeId(103))),
        Some(CompilerAttributeRole::FfiCLayout)
    );
    assert_eq!(
        schema.compiler_attribute_role(AttributeIdentity::User(AttributeId(103))),
        None
    );
    let prints = schema.standard_functions_by_source_name("print");
    assert_eq!(prints.len(), 2);
    assert_eq!(prints[0].parameter_types(), &["Int"]);
    assert_eq!(prints[1].parameter_types(), &["String"]);
    assert!(prints[1].result_types().is_empty());
    assert_eq!(prints[1].effects(), &["AmbientIo"]);
    assert!(schema.standard_functions_by_source_name("println").is_empty());
}

#[test]
fn documents_must_agree_on_the_schema_version() {
    let mut documents = documents();
    documents.ffi_types = "schemaVersion\t4\ntypeId\tsourceName\townerBubble\tarity\trole\tprelude\n";
    let error = bootstrap_schema(documents).unwrap_err();
    assert_eq!(error.document(), "combined");
    assert_eq!(error.line(), 1);
    assert_eq!(error.reason(), "schema versions disagree");
}

#[test]
fn malformed_version_lines_are_refused() {
    let missing = parse_types("internal type", "").unwrap_err();
    assert_eq!((missing.document(), missing.line(), missing.reason()), ("internal type", 1, "missing schema version"));
    let key = parse_types("internal type", "version\t3\n").unwrap_err();
    assert_eq!(key.reason(), "unexpected version key");
    let number = parse_primitives("schemaVersion\tthree\n").unwrap_err();
    assert_eq!((number.document(), number.reason()), ("primitive", "invalid schema version"));
    let header = parse_intrinsics("schemaVersion\t1\nintrinsicId\towner\n").unwrap_err();
    assert_eq!((header.line(), header.reason()), (2, "unexpected header"));
}

#[test]
fn malformed_rows_name_their_line() {
    let text = "schemaVersion\t1\ntypeId\tsourceName\townerBubble\tarity\trole\tprelude\n\n5\tX\tPop.Standard\t0\tNominal\n";
    let error = parse_types("standard type", text).unwrap_err();
    assert_eq!((error.line(), error.reason()), (4, "expected six fields"));
    let role = parse_types(
        "standard type",
        "schemaVersion\t1\ntypeId\tsourceName\townerBubble\tarity\trole\tprelude\n5\tX\tPop.Standard\t0\tRecord\tfalse\n",
    )
    .unwrap_err();
    assert_eq!(role.reason(), "invalid type role");
    let arity = parse_types(
        "standard type",
        "schemaVersion\t1\ntypeId\tsourceName\townerBubble\tarity\trole\tprelude\n5\tX\tPop.Standard\t70000\tNominal\tfalse\n",
    )
    .unwrap_err();
    assert_eq!(arity.reason(), "invalid type arity");
    let prelude = parse_standard_functions(
        "schemaVersion\t1\nfunctionId\tsourceName\townerBubble\tparameterTypes\tresultTypes\teffects\tprelude\n0\tprint\tPop.Standard\tInt\t-\t-\tyes\n",
    )
    .unwrap_err();
    assert_eq!((prelude.line(), prelude.reason()), (3, "invalid prelude flag"));
    let target = parse_compiler_attributes(
        "compiler attribute",
        "schemaVersion\t1\nattributeId\tsourceName\townerBubble\targumentCount\ttarget\tsemanticRole\tprelude\n0\tA\tPop.Standard\t0\tEverywhere\tCompileTime\ttrue\n",
    )
    .unwrap_err();
    assert_eq!(target.reason(), "invalid attachment target");
}

#[test]
fn parsed_rows_keep_their_fields() {
    let (version, entries) = parse_intrinsics(INTRINSICS).unwrap();
    assert_eq!(version, 3);
    assert_eq!(entries[1].intrinsic_id(), "io.print");
    assert_eq!(entries[1].owner(), "Pop.Internal.Io");
    assert_eq!(entries[1].signature(), "(String) -> nil");
    assert_eq!(entries[1].lowering_kind(), "call");
    assert_eq!(entries[1].required_capabilities(), &["stdout", "locale"]);
    assert!(entries[0].required_capabilities().is_empty());
    let (_, primitives) = parse_primitives(PRIMITIVES).unwrap();
    assert_eq!(primitives[10].source_name(), "Int");
    assert_eq!(primitives[10].canonical_name(), "Int64");
    assert_eq!(primitives[10].runtime_role(), "i64");
}

#[test]
fn validators_enforce_the_trusted_contracts() {
    let (_, primitives) = parse_primitives(PRIMITIVES).unwrap();
    assert!(validate_primitives(&primitives).is_ok());
    assert_eq!(
        validate_primitives(&primitives[..16]).unwrap_err().reason(),
        "semantic entry count differs"
    );
    let (_, intrinsics) = parse_intrinsics(
        "schemaVersion\t1\nintrinsicId\towner\tsignature\tloweringKind\trequiredCapabilities\nx\tPop.Internal.A\ts\tk\t-\nx\tPop.Internal.B\ts\tk\t-\n",
    )
    .unwrap();
    assert_eq!(
        validate_intrinsics(&intrinsics).unwrap_err().reason(),
        "duplicate intrinsic ID"
    );
    let (_, outside) = parse_intrinsics(
        "schemaVersion\t1\nintrinsicId\towner\tsignature\tloweringKind\trequiredCapabilities\nx\tPop.Standard\ts\tk\t-\n",
    )
    .unwrap();
    assert_eq!(
        validate_intrinsics(&outside).unwrap_err().reason(),
        "invalid intrinsic contract"
    );
    let (_, mut types) = parse_types("FFI type", FFI_TYPES).unwrap();
    assert_eq!(
        validate_types(&types).unwrap_err().reason(),
        "missing required view type"
    );
    let (_, views) = parse_types("standard type", STANDARD_TYPES).unwrap();
    types.extend(views);
    assert!(validate_types(&types).is_ok());
    types.pop();
    assert_eq!(
        validate_types(&types).unwrap_err().reason(),
        "missing required view type"
    );
    let (_, functions) = parse_standard_functions(FUNCTIONS).unwrap();
    assert!(validate_standard_functions(&functions).is_ok());
    let only_one = validate_standard_functions(&functions[..1]).unwrap_err();
    assert_eq!(only_one.reason(), "bootstrap requires exactly two standard functions");
}

#[test]
fn compiler_attribute_contracts_are_checked() {
    let mut documents = documents();
    documents.ffi_compiler_attributes = "schemaVersion\t3
attributeId\tsourceName\townerBubble\targumentCount\ttarget\tsemanticRole\tprelude
100\tFfi.Link\tPop.Ffi\t1\tNamespace\tFfiLink\tfalse
101\tFfi.Foreign\tPop.Ffi\t2\tFunction\tFfiForeign\tfalse
102\tFfi.Nonblocking\tPop.Ffi\t0\tFunction\tFfiNonblocking\tfalse
103\tFfi.C.Layout\tPop.Ffi\t1\tRecord\tFfiCLayout\tfalse
";
    let error = bootstrap_schema(documents).unwrap_err();
    assert_eq!(error.reason(), "invalid trusted compiler attribute contract");
    let mut documents = self::documents();
    documents.ffi_compiler_attributes = "schemaVersion\t3
attributeId\tsourceName\townerBubble\targumentCount\ttarget\tsemanticRole\tprelude
100\tFfi.Link\tPop.Ffi\t1\tNamespace\tFfiLink\tfalse
";
    let error = bootstrap_schema(documents).unwrap_err();
    assert_eq!(error.reason(), "unexpected compiler attribute set");
}

#[test]
fn ffi_identities_have_their_abi_classification() {
    assert!(is_ffi_abi_builtin_type(BuiltinTypeId(200)));
    assert!(is_ffi_abi_builtin_type(BuiltinTypeId(215)));
    assert!(!is_ffi_abi_builtin_type(BuiltinTypeId(207)));
    assert!(is_ffi_integer_abi_builtin_type(BuiltinTypeId(222)));
    assert!(!is_ffi_integer_abi_builtin_type(BuiltinTypeId(204)));
    assert_eq!(ffi_c_integer_kind(BuiltinTypeId(215)), Some(FfiCIntegerKind::Int));
    assert_eq!(ffi_c_integer_kind(BuiltinTypeId(221)), Some(FfiCIntegerKind::Size));
    assert_eq!(ffi_c_integer_kind(BuiltinTypeId(200)), None);
    assert!(is_ffi_pointer_type_constructor(BuiltinTypeId(205)));
    assert!(!is_ffi_pointer_type_constructor(BuiltinTypeId(202)));
    assert!(is_ffi_function_type_constructor(BuiltinTypeId(203)));
}

#[test]
fn codec_reasons_round_trip_through_their_status() {
    for reason in [
        CodecErrorReason::MalformedInput,
        CodecErrorReason::LimitExceeded,
        CodecErrorReason::CapabilityFailure,
    ] {
        assert_eq!(
            CodecErrorReason::from_protocol_status(reason.protocol_status()),
            Some(reason)
        );
        assert_eq!(u32::from(reason.protocol_status()), reason.case().0 + 1);
    }
    assert_eq!(CodecErrorReason::from_protocol_status(0), None);
    assert_eq!(CodecErrorReason::from_protocol_status(4), None);
    assert_eq!(CodecErrorReason::LimitExceeded.source_name(), "LimitExceeded");
}

#[test]
fn nominal_bounds_follow_declarations_and_the_iteration_protocol() {
    let schema = bootstrap_schema(documents()).unwrap();
    let protocol = schema.iteration_protocol();
    let int32 = TypeId(4);
    let string = TypeId(12);
    let mut arena = TypeArena::new();
    let class = arena
        .intern(SemanticType::Class { class: ClassId(0), arguments: vec![] })
        .unwrap();
    let interface = arena
        .intern(SemanticType::Interface { interface: InterfaceId(0), arguments: vec![] })
        .unwrap();
    let other_interface = arena
        .intern(SemanticType::Interface { interface: InterfaceId(1), arguments: vec![] })
        .unwrap();
    let builtin = |arena: &mut TypeArena, definition: u32, element: TypeId| {
        arena
            .intern(SemanticType::Builtin {
                definition: BuiltinTypeId(definition),
                arguments: vec![element],
            })
            .unwrap()
    };
    let iterable_int = builtin(&mut arena, 2, int32);
    let iterator_int = builtin(&mut arena, 3, int32);
    let iterator_string = builtin(&mut arena, 3, string);
    let list_int = builtin(&mut arena, 10, int32);
    let range_int = builtin(&mut arena, 11, int32);
    let array_int = arena.intern(SemanticType::Array(int32)).unwrap();

    let interfaces = [interface];
    let builtins = [(BuiltinTypeId(3), iterator_int)];
    let declared = Some((&interfaces[..], &builtins[..]));

    assert!(type_satisfies_nominal_bound(&arena, protocol, None, int32, int32));
    assert!(type_satisfies_nominal_bound(&arena, protocol, declared, class, interface));
    assert!(!type_satisfies_nominal_bound(&arena, protocol, declared, class, other_interface));
    assert!(!type_satisfies_nominal_bound(&arena, protocol, None, class, interface));
    assert!(type_satisfies_nominal_bound(&arena, protocol, declared, class, iterator_int));
    assert!(type_satisfies_nominal_bound(&arena, protocol, declared, class, iterable_int));
    assert!(!type_satisfies_nominal_bound(&arena, None, declared, class, iterable_int));
    assert!(!type_satisfies_nominal_bound(&arena, protocol, declared, class, iterator_string));
    assert!(type_satisfies_nominal_bound(&arena, protocol, None, array_int, iterable_int));
    assert!(!type_satisfies_nominal_bound(&arena, protocol, None, array_int, iterator_int));
    assert!(type_satisfies_nominal_bound(&arena, protocol, None, list_int, iterable_int));
    assert!(type_satisfies_nominal_bound(&arena, protocol, None, iterator_int, iterable_int));
    assert!(!type_satisfies_nominal_bound(&arena, protocol, None, range_int, iterable_int));
    assert!(!type_satisfies_nominal_bound(&arena, protocol, None, list_int, iterator_int));
    assert!(!type_satisfies_nominal_bound(&arena, protocol, None, string, interface));

    assert!(is_class_to_builtin_interface_upcast(&arena, protocol, declared, class, iterable_int));
    assert!(!is_class_to_builtin_interface_upcast(&arena, protocol, declared, class, interface));
    assert!(!is_class_to_builtin_interface_upcast(&arena, protocol, None, list_int, iterable_int));
}

#[test]
fn iteration_yields_elements_entries_and_protocol_items() {
    let schema = bootstrap_schema(documents()).unwrap();
    let protocol = schema.iteration_protocol();
    let int32 = TypeId(4);
    let string = TypeId(12);
    let mut arena = TypeArena::new();
    let array = arena.intern(SemanticType::Array(string)).unwrap();
    let table = arena.intern(SemanticType::Table { key: string, value: int32 }).unwrap();
    let list = arena
        .intern(SemanticType::Builtin { definition: BuiltinTypeId(10), arguments: vec![int32] })
        .unwrap();
    let range = arena
        .intern(SemanticType::Builtin { definition: BuiltinTypeId(11), arguments: vec![int32] })
        .unwrap();
    assert_eq!(iteration_item_type(&mut arena, protocol, array), Some(string));
    let entry = iteration_item_type(&mut arena, protocol, table).unwrap();
    assert!(matches!(arena.get(entry), Some(SemanticType::Tuple(members)) if *members == vec![string, int32]));
    assert_eq!(iteration_item_type(&mut arena, protocol, list), Some(int32));
    assert_eq!(iteration_item_type(&mut arena, protocol, range), None);
    assert_eq!(iteration_item_type(&mut arena, protocol, int32), None);
    assert_eq!(iteration_item_type(&mut arena, None, array), None);
}

#[test]
fn type_patterns_bind_parameters_through_structure_and_iteration() {
    let schema = bootstrap_schema(documents()).unwrap();
    let facts = PatternFacts::new(schema.iteration_protocol(), vec![], vec![], vec![], vec![]);
    let int32 = TypeId(4);
    let string = TypeId(12);
    let mut arena = TypeArena::new();
    let t = arena.intern(SemanticType::TypeParameter(ParameterId(0))).unwrap();
    let u = arena.intern(SemanticType::TypeParameter(ParameterId(1))).unwrap();
    let array_t = arena.intern(SemanticType::Array(t)).unwrap();
    let table_tu = arena.intern(SemanticType::Table { key: t, value: u }).unwrap();
    let array_int = arena.intern(SemanticType::Array(int32)).unwrap();
    let table = arena.intern(SemanticType::Table { key: string, value: int32 }).unwrap();

    let mut subs = TypeSubstitutions::new();
    assert!(infer_type_pattern(&mut arena, &facts, array_t, array_int, &mut subs));
    assert_eq!(subs.get(ParameterId(0)), Some(int32));
    assert!(infer_type_pattern(&mut arena, &facts, table_tu, table, &mut subs) == false);
    assert_eq!(subs.get(ParameterId(1)), None);

    let mut subs = TypeSubstitutions::new();
    assert!(infer_type_pattern(&mut arena, &facts, table_tu, table, &mut subs));
    assert_eq!(subs.get(ParameterId(0)), Some(string));
    assert_eq!(subs.get(ParameterId(1)), Some(int32));

    // An iterable pattern matches a table through its entries, interning
    // the entry tuple.
    let iterable_t = arena
        .intern(SemanticType::Builtin { definition: BuiltinTypeId(2), arguments: vec![t] })
        .unwrap();
    let count = arena.len();
    let mut subs = TypeSubstitutions::new();
    assert!(infer_type_pattern(&mut arena, &facts, iterable_t, table, &mut subs));
    assert_eq!(arena.len(), count + 1);
    let entry = subs.get(ParameterId(0)).unwrap();
    assert!(matches!(arena.get(entry), Some(SemanticType::Tuple(members)) if *members == vec![string, int32]));
    let mut subs = TypeSubstitutions::new();
    assert!(infer_type_pattern(&mut arena, &facts, iterable_t, array_int, &mut subs));
    assert_eq!(subs.get(ParameterId(0)), Some(int32));

    // Records match field by field, names included.
    let record_t = arena
        .intern(SemanticType::Record(vec![("a".to_string(), t), ("b".to_string(), string)]))
        .unwrap();
    let record_int = arena
        .intern(SemanticType::Record(vec![("a".to_string(), int32), ("b".to_string(), string)]))
        .unwrap();
    let record_other = arena
        .intern(SemanticType::Record(vec![("a".to_string(), int32), ("c".to_string(), string)]))
        .unwrap();
    let mut subs = TypeSubstitutions::new();
    assert!(infer_type_pattern(&mut arena, &facts, record_t, record_int, &mut subs));
    assert_eq!(subs.get(ParameterId(0)), Some(int32));
    let mut subs = TypeSubstitutions::new();
    assert!(!infer_type_pattern(&mut arena, &facts, record_t, record_other, &mut subs));
    assert!(!infer_type_pattern(&mut arena, &facts, array_t, int32, &mut subs));
    // A failed match keeps what it bound before the failing part.
    let pair_t = arena.intern(SemanticType::Tuple(vec![t, t])).unwrap();
    let mixed = arena.intern(SemanticType::Tuple(vec![int32, string])).unwrap();
    let mut subs = TypeSubstitutions::new();
    assert!(!infer_type_pattern(&mut arena, &facts, pair_t, mixed, &mut subs));
    assert_eq!(subs.get(ParameterId(0)), Some(int32));
    assert!(!infer_type_pattern(&mut arena, &facts, array_t, TypeId(9999), &mut subs));
}

#[test]
fn interface_patterns_match_classes_through_their_implementations() {
    let int32 = TypeId(4);
    let mut arena = TypeArena::new();
    let t = arena.intern(SemanticType::TypeParameter(ParameterId(0))).unwrap();
    let pattern = arena
        .intern(SemanticType::Interface { interface: InterfaceId(1), arguments: vec![t] })
        .unwrap();
    let implemented = arena
        .intern(SemanticType::Interface { interface: InterfaceId(2), arguments: vec![int32] })
        .unwrap();
    let class = arena
        .intern(SemanticType::Class { class: ClassId(7), arguments: vec![] })
        .unwrap();
    let facts = PatternFacts::new(
        None,
        vec![],
        vec![(InterfaceId(1), SymbolId(50)), (InterfaceId(2), SymbolId(50))],
        vec![(class, vec![implemented])],
        vec![(implemented, InterfaceId(2))],
    );
    let mut subs = TypeSubstitutions::new();
    assert!(infer_type_pattern(&mut arena, &facts, pattern, class, &mut subs));
    assert_eq!(subs.get(ParameterId(0)), Some(int32));
    let unrelated = PatternFacts::new(
        None,
        vec![],
        vec![(InterfaceId(1), SymbolId(50)), (InterfaceId(2), SymbolId(51))],
        vec![(class, vec![implemented])],
        vec![(implemented, InterfaceId(2))],
    );
    let mut subs = TypeSubstitutions::new();
    assert!(!infer_type_pattern(&mut arena, &unrelated, pattern, class, &mut subs));
    assert_eq!(subs.get(ParameterId(0)), None);
}
