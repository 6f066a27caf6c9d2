use std::cmp::Ordering;

use pop_types::canonical::{CanonicalNominalIdentity, CanonicalTypeIdentity};
use pop_types::ids::{AllocationSiteId, BubbleId, BuiltinTypeId, LifetimeId, SymbolId, SymbolIdentity};
use pop_types::lifetime::{CallableLifetimeSummary, ParameterRetention, ResultProvenance};
use pop_types::views::{type_is_view_lender, view_constant_fingerprint, ViewBorrow, ViewLenderProvenance};
use pop_types::ffi::{is_ffi_pointer_operation, is_ffi_unsafe_operation};
use pop_types::match_arms::missing_match_arms;
use pop_types::{
    Effect, EffectSummary, FloatKind, FloatValue, IntegerKind, IntegerOverflow, IntegerValue,
    NumericError, PrimitiveType, CALLABLE_LIFETIME_PROOF_VERSION,
};

fn integer(text: &str, kind: IntegerKind) -> IntegerValue {
    IntegerValue::parse_decimal(text, kind).expect("valid literal")
}

#[test]
fn integer_kinds_report_width_sign_and_overflow() {
    assert_eq!(IntegerKind::Int8.bit_width(), 8);
    assert_eq!(IntegerKind::UInt64.bit_width(), 64);
    assert!(IntegerKind::Int32.is_signed());
    assert!(!IntegerKind::UInt16.is_signed());
    assert_eq!(IntegerKind::Int64.default_overflow(), IntegerOverflow::Trap);
}

#[test]
fn primitive_source_names_resolve_aliases() {
    assert_eq!(
        PrimitiveType::from_source_name("Int"),
        Some(PrimitiveType::Integer(IntegerKind::Int64))
    );
    assert_eq!(
        PrimitiveType::from_source_name("Byte"),
        Some(PrimitiveType::Integer(IntegerKind::UInt8))
    );
    assert_eq!(PrimitiveType::from_source_name("Float"), Some(PrimitiveType::Float64));
    assert_eq!(PrimitiveType::from_source_name("nil"), Some(PrimitiveType::Nil));
    assert_eq!(PrimitiveType::from_source_name("Nil"), None);
    assert_eq!(PrimitiveType::from_source_name("Int128"), None);
    let schema = PrimitiveType::source_schema();
    assert_eq!(schema.len(), 17);
    let aliases: Vec<&str> = schema
        .iter()
        .filter(|entry| entry.is_alias())
        .map(|entry| entry.source_name())
        .collect();
    assert_eq!(aliases, vec!["Int", "Float", "Byte"]);
}

#[test]
fn parse_decimal_accepts_separators_and_signs() {
    let value = integer("1_000", IntegerKind::Int32);
    assert_eq!(value.signed(), Some(1000));
    assert_eq!(value.unsigned(), None);
    assert_eq!(value.kind(), IntegerKind::Int32);
    let negative = integer("-128", IntegerKind::Int8);
    assert_eq!(negative.signed(), Some(-128));
    assert_eq!(negative.bits(), 0x80);
    let max = integer("18446744073709551615", IntegerKind::UInt64);
    assert_eq!(max.unsigned(), Some(u64::MAX));
    assert_eq!(max.bits(), u64::MAX);
}

#[test]
fn parse_decimal_rejects_malformed_and_out_of_range() {
    assert_eq!(
        IntegerValue::parse_decimal("", IntegerKind::Int32),
        Err(NumericError::InvalidLiteral)
    );
    assert_eq!(
        IntegerValue::parse_decimal("12a", IntegerKind::Int32),
        Err(NumericError::InvalidLiteral)
    );
    assert_eq!(
        IntegerValue::parse_decimal("-", IntegerKind::Int32),
        Err(NumericError::InvalidLiteral)
    );
    assert_eq!(
        IntegerValue::parse_decimal("128", IntegerKind::Int8),
        Err(NumericError::OutOfRange)
    );
    assert_eq!(
        IntegerValue::parse_decimal("-129", IntegerKind::Int8),
        Err(NumericError::OutOfRange)
    );
    assert_eq!(
        IntegerValue::parse_decimal("-1", IntegerKind::UInt8),
        Err(NumericError::OutOfRange)
    );
    assert_eq!(
        IntegerValue::parse_decimal("99999999999999999999999999999999999999999", IntegerKind::UInt64),
        Err(NumericError::OutOfRange)
    );
}

#[test]
fn checked_arithmetic_is_exact_or_fails() {
    let a = integer("100", IntegerKind::Int8);
    let b = integer("27", IntegerKind::Int8);
    assert_eq!(a.checked_add(b).unwrap().signed(), Some(127));
    assert_eq!(a.checked_add(integer("28", IntegerKind::Int8)), Err(NumericError::Overflow));
    assert_eq!(a.checked_subtract(b).unwrap().signed(), Some(73));
    assert_eq!(
        integer("-100", IntegerKind::Int8).checked_subtract(integer("29", IntegerKind::Int8)),
        Err(NumericError::Overflow)
    );
    assert_eq!(
        integer("16", IntegerKind::UInt8).checked_multiply(integer("16", IntegerKind::UInt8)),
        Err(NumericError::Overflow)
    );
    assert_eq!(
        integer("15", IntegerKind::UInt8).checked_multiply(integer("17", IntegerKind::UInt8)).unwrap().unsigned(),
        Some(255)
    );
    assert_eq!(a.checked_add(integer("1", IntegerKind::Int16)), Err(NumericError::KindMismatch));
}

#[test]
fn division_truncates_toward_zero() {
    let seven = integer("-7", IntegerKind::Int32);
    let two = integer("2", IntegerKind::Int32);
    assert_eq!(seven.checked_divide(two).unwrap().signed(), Some(-3));
    assert_eq!(seven.checked_remainder(two).unwrap().signed(), Some(-1));
    assert_eq!(
        seven.checked_divide(integer("0", IntegerKind::Int32)),
        Err(NumericError::DivisionByZero)
    );
    assert_eq!(
        seven.checked_remainder(integer("0", IntegerKind::Int32)),
        Err(NumericError::DivisionByZero)
    );
    let min = integer("-2147483648", IntegerKind::Int32);
    let minus_one = integer("-1", IntegerKind::Int32);
    assert_eq!(min.checked_divide(minus_one), Err(NumericError::Overflow));
    assert_eq!(min.checked_negate(), Err(NumericError::Overflow));
    assert_eq!(two.checked_negate().unwrap().signed(), Some(-2));
    assert_eq!(integer("0", IntegerKind::UInt32).checked_negate(), Err(NumericError::KindMismatch));
}

#[test]
fn integer_comparison_requires_one_kind() {
    let a = integer("-5", IntegerKind::Int64);
    let b = integer("3", IntegerKind::Int64);
    assert_eq!(a.compare(b), Ok(Ordering::Less));
    assert_eq!(b.compare(a), Ok(Ordering::Greater));
    assert_eq!(a.compare(a), Ok(Ordering::Equal));
    assert_eq!(a.compare(integer("3", IntegerKind::UInt64)), Err(NumericError::KindMismatch));
}

#[test]
fn float_negate_flips_only_the_sign_bit() {
    let value = FloatValue::Float64(1.5f64.to_bits());
    let negated = value.negate();
    assert_eq!(negated, FloatValue::Float64((-1.5f64).to_bits()));
    assert_eq!(negated.negate(), value);
    assert_eq!(FloatValue::Float32(0).negate(), FloatValue::Float32(0x8000_0000));
    assert_eq!(value.kind(), FloatKind::Float64);
    assert_eq!(FloatValue::Float32(2.0f32.to_bits()).bits(), u64::from(2.0f32.to_bits()));
}

#[test]
fn float_partial_compare_follows_ieee() {
    let one = FloatValue::Float64(1.0f64.to_bits());
    let two = FloatValue::Float64(2.0f64.to_bits());
    let nan = FloatValue::Float64(f64::NAN.to_bits());
    let zero = FloatValue::Float64(0.0f64.to_bits());
    let negative_zero = FloatValue::Float64((-0.0f64).to_bits());
    let negative = FloatValue::Float64((-3.0f64).to_bits());
    assert_eq!(one.partial_compare(two), Ok(Some(Ordering::Less)));
    assert_eq!(two.partial_compare(one), Ok(Some(Ordering::Greater)));
    assert_eq!(one.partial_compare(nan), Ok(None));
    assert_eq!(zero.partial_compare(negative_zero), Ok(Some(Ordering::Equal)));
    assert_eq!(negative.partial_compare(one), Ok(Some(Ordering::Less)));
    assert_eq!(
        negative.partial_compare(FloatValue::Float64((-4.0f64).to_bits())),
        Ok(Some(Ordering::Greater))
    );
    assert_eq!(
        one.partial_compare(FloatValue::Float32(1.0f32.to_bits())),
        Err(NumericError::KindMismatch)
    );
}

#[test]
fn effect_summaries_behave_as_sets() {
    let empty = EffectSummary::empty();
    assert_eq!(empty.bits(), 0);
    assert_eq!(EffectSummary::default(), empty);
    let a = empty.with(Effect::Allocates).with(Effect::MayTrap);
    assert!(a.contains(Effect::Allocates));
    assert!(a.contains(Effect::MayTrap));
    assert!(!a.contains(Effect::Suspends));
    assert_eq!(a.bits(), 0b1001);
    let b = empty.with(Effect::Suspends);
    let both = a.union(b);
    assert!(a.is_subset_of(both));
    assert!(b.is_subset_of(both));
    assert!(!both.is_subset_of(a));
    assert_eq!(both.union(both), both);
    assert_eq!(a.union(b), b.union(a));
    assert_eq!(Effect::Roots.bit(), 1 << 12);
    assert_eq!(EffectSummary::from_bits(0x1fff).map(EffectSummary::bits), Some(0x1fff));
    assert_eq!(EffectSummary::from_bits(0x2000), None);
}

#[test]
fn lifetime_summaries_are_canonical_by_construction() {
    let conservative = CallableLifetimeSummary::conservative(2, 1);
    assert_eq!(conservative.proof_version(), CALLABLE_LIFETIME_PROOF_VERSION);
    assert_eq!(
        conservative.parameter_retention(),
        &[ParameterRetention::MayRetain, ParameterRetention::MayRetain]
    );
    assert_eq!(conservative.result_provenance(), &[ResultProvenance::MayAlias]);
    assert!(conservative.is_canonical_for(2, 1));
    assert!(!conservative.is_canonical_for(1, 1));
    let fresh = CallableLifetimeSummary::non_retaining(1, 2).with_result_alias(1, 0);
    assert_eq!(
        fresh.result_provenance(),
        &[ResultProvenance::Independent, ResultProvenance::ReturnsAlias(0)]
    );
    let unchanged = fresh.duplicate().with_result_alias(5, 0);
    assert!(unchanged.same_facts(&fresh));
    let stored = fresh.with_parameter_retention(0, ParameterRetention::StoresInto(0));
    assert_eq!(stored.parameter_retention(), &[ParameterRetention::StoresInto(0)]);
}

#[test]
fn lifetime_from_parts_rejects_dangling_indices() {
    assert!(CallableLifetimeSummary::from_parts(
        CALLABLE_LIFETIME_PROOF_VERSION,
        vec![ParameterRetention::StoresInto(1), ParameterRetention::Captures],
        vec![ResultProvenance::ReturnsAlias(0)],
    )
    .is_some());
    assert!(CallableLifetimeSummary::from_parts(
        CALLABLE_LIFETIME_PROOF_VERSION,
        vec![ParameterRetention::StoresInto(1)],
        vec![],
    )
    .is_none());
    assert!(CallableLifetimeSummary::from_parts(
        CALLABLE_LIFETIME_PROOF_VERSION,
        vec![],
        vec![ResultProvenance::ReturnsAlias(0)],
    )
    .is_none());
    assert!(CallableLifetimeSummary::from_parts(2, vec![], vec![]).is_none());
}

fn identity(bubble: u32, symbol: u32) -> SymbolIdentity {
    SymbolIdentity {
        bubble: BubbleId(bubble),
        symbol: SymbolId(symbol),
    }
}

#[test]
fn canonical_descriptors_spell_every_component() {
    let int64 = CanonicalTypeIdentity::Primitive(PrimitiveType::Integer(IntegerKind::Int64));
    assert_eq!(int64.descriptor(), "P(Integer(Int64))");
    assert_eq!(
        CanonicalTypeIdentity::Record(identity(3, 140)).descriptor(),
        "R(b3:s140)"
    );
    let nominal = CanonicalNominalIdentity::new(
        identity(0, 7),
        vec![
            CanonicalTypeIdentity::Primitive(PrimitiveType::String),
            CanonicalTypeIdentity::Optional(Box::new(CanonicalTypeIdentity::Primitive(
                PrimitiveType::Boolean,
            ))),
        ],
    );
    assert_eq!(nominal.descriptor(), "b0:s7[P(String),O(P(Boolean))]");
    assert_eq!(nominal.definition(), identity(0, 7));
    assert_eq!(nominal.arguments().len(), 2);
    assert_eq!(
        CanonicalTypeIdentity::Class(nominal).descriptor(),
        "C(b0:s7[P(String),O(P(Boolean))])"
    );
    let table = CanonicalTypeIdentity::Table {
        key: Box::new(CanonicalTypeIdentity::Primitive(PrimitiveType::String)),
        value: Box::new(CanonicalTypeIdentity::Array(Box::new(
            CanonicalTypeIdentity::Primitive(PrimitiveType::Float64),
        ))),
    };
    assert_eq!(table.descriptor(), "M(P(String);A(P(Float64)))");
    assert_eq!(CanonicalTypeIdentity::Tuple(vec![]).descriptor(), "T[]");
    assert_eq!(
        CanonicalTypeIdentity::Union(vec![
            CanonicalTypeIdentity::Primitive(PrimitiveType::Nil),
            CanonicalTypeIdentity::Primitive(PrimitiveType::Never),
        ])
        .descriptor(),
        "U[P(Nil),P(Never)]"
    );
    assert_eq!(
        CanonicalTypeIdentity::Builtin {
            definition: BuiltinTypeId(122),
            arguments: vec![],
        }
        .descriptor(),
        "B122[]"
    );
}

#[test]
fn canonical_function_descriptor_carries_effects_and_lifetimes() {
    let summary = CallableLifetimeSummary::non_retaining(2, 1)
        .with_parameter_retention(1, ParameterRetention::StoresInto(0))
        .with_result_alias(0, 1);
    let function = CanonicalTypeIdentity::Function {
        is_async: true,
        parameters: vec![
            CanonicalTypeIdentity::Primitive(PrimitiveType::Integer(IntegerKind::UInt8)),
            CanonicalTypeIdentity::Primitive(PrimitiveType::Float32),
        ],
        results: vec![CanonicalTypeIdentity::Primitive(PrimitiveType::Boolean)],
        effects: EffectSummary::empty().with(Effect::Allocates).with(Effect::Suspends),
        lifetime_summary: summary,
    };
    assert_eq!(
        function.descriptor(),
        "F(1;[P(Integer(UInt8)),P(Float32)];[P(Boolean)];E33;L1:[D,S0]:[R1])"
    );
}

#[test]
fn view_borrows_keep_lender_and_lifetime() {
    let lender = ViewLenderProvenance::Allocation {
        site: AllocationSiteId(4),
    };
    let borrow = ViewBorrow::new(lender, LifetimeId(9));
    assert_eq!(borrow.lender(), lender);
    assert_eq!(borrow.lifetime(), LifetimeId(9));
    let constant = ViewLenderProvenance::Constant {
        fingerprint: [7; 32],
    };
    assert_ne!(constant, ViewLenderProvenance::Parameter { index: 0 });
}

#[test]
fn distinct_identities_have_distinct_descriptors() {
    let int8 = || CanonicalTypeIdentity::Primitive(PrimitiveType::Integer(IntegerKind::Int8));
    let candidates = vec![
        CanonicalTypeIdentity::Tuple(vec![]),
        CanonicalTypeIdentity::Tuple(vec![int8()]),
        CanonicalTypeIdentity::Tuple(vec![CanonicalTypeIdentity::Tuple(vec![])]),
        CanonicalTypeIdentity::Tuple(vec![CanonicalTypeIdentity::Tuple(vec![]), int8()]),
        CanonicalTypeIdentity::Union(vec![int8()]),
        CanonicalTypeIdentity::Record(identity(1, 23)),
        CanonicalTypeIdentity::Record(identity(12, 3)),
        CanonicalTypeIdentity::Builtin {
            definition: BuiltinTypeId(1),
            arguments: vec![],
        },
        CanonicalTypeIdentity::Builtin {
            definition: BuiltinTypeId(12),
            arguments: vec![],
        },
        CanonicalTypeIdentity::Optional(Box::new(int8())),
        CanonicalTypeIdentity::Array(Box::new(int8())),
    ];
    let descriptors: Vec<String> = candidates.iter().map(CanonicalTypeIdentity::descriptor).collect();
    for (i, a) in descriptors.iter().enumerate() {
        for b in &descriptors[i + 1..] {
            assert_ne!(a, b);
        }
    }
    assert_eq!(int8().descriptor(), int8().descriptor());
}

#[test]
fn view_constant_fingerprints_are_four_fnv_hashes() {
    assert_eq!(
        view_constant_fingerprint(b""),
        [
            203, 242, 156, 228, 132, 34, 35, 37, 203, 242, 156, 228, 132, 34, 35, 36, 203, 242,
            156, 228, 132, 34, 35, 39, 203, 242, 156, 228, 132, 34, 35, 38
        ]
    );
    assert_eq!(
        view_constant_fingerprint(b"a"),
        [
            175, 99, 220, 76, 134, 1, 236, 140, 175, 99, 221, 76, 134, 1, 238, 63, 175, 99, 222,
            76, 134, 1, 239, 242, 175, 99, 223, 76, 134, 1, 241, 165
        ]
    );
    assert_ne!(view_constant_fingerprint(b"ab"), view_constant_fingerprint(b"ba"));
}

fn path(parts: &[&str]) -> Vec<String> {
    parts.iter().map(|part| part.to_string()).collect()
}

#[test]
fn ffi_operation_paths_are_recognised_exactly() {
    assert!(is_ffi_pointer_operation(&path(&["Ffi", "OptionalPointer", "fromPointer"])));
    assert!(is_ffi_pointer_operation(&path(&["Ffi", "OptionalReadOnlyPointer", "require"])));
    assert!(is_ffi_pointer_operation(&path(&["Ffi", "Pointer", "readOnly"])));
    assert!(!is_ffi_pointer_operation(&path(&["Ffi", "Pointer", "isPresent"])));
    assert!(!is_ffi_pointer_operation(&path(&["Ffi", "OptionalPointer"])));
    assert!(!is_ffi_pointer_operation(&path(&["Std", "OptionalPointer", "require"])));
    assert!(is_ffi_unsafe_operation(&path(&["Ffi", "Unsafe", "advanceReadOnly"])));
    assert!(is_ffi_unsafe_operation(&path(&["Ffi", "Unsafe", "address"])));
    assert!(!is_ffi_unsafe_operation(&path(&["Ffi", "Unsafe", "free"])));
    assert!(!is_ffi_unsafe_operation(&path(&["Ffi", "Safe", "load"])));
    assert!(!is_ffi_unsafe_operation(&path(&["Ffi", "Unsafe", "load", "now"])));
}

#[test]
fn missing_match_arms_name_each_case_and_its_parameters() {
    let cases = vec![
        ("Circle".to_string(), vec!["radius".to_string()]),
        ("Empty".to_string(), vec![]),
        ("Rect".to_string(), vec!["width".to_string(), "height".to_string()]),
    ];
    assert_eq!(
        missing_match_arms("Shape", &cases),
        "when Shape.Circle(radius) then\nwhen Shape.Empty then\nwhen Shape.Rect(width, height) then\n"
    );
    assert_eq!(missing_match_arms("Shape", &[]), "");
}

#[test]
fn strings_and_bytes_lend_views() {
    let mut arena = pop_types::TypeArena::new();
    let string = pop_types::TypeId(12);
    let bytes_definition = BuiltinTypeId(122);
    let bytes = arena
        .intern(pop_types::SemanticType::Builtin { definition: bytes_definition, arguments: vec![] })
        .unwrap();
    let list = arena
        .intern(pop_types::SemanticType::Builtin { definition: BuiltinTypeId(10), arguments: vec![string] })
        .unwrap();
    assert!(type_is_view_lender(&arena, Some(bytes_definition), string));
    assert!(type_is_view_lender(&arena, Some(bytes_definition), bytes));
    assert!(!type_is_view_lender(&arena, None, bytes));
    assert!(!type_is_view_lender(&arena, Some(bytes_definition), list));
    assert!(!type_is_view_lender(&arena, Some(bytes_definition), pop_types::TypeId(4)));
}

#[test]
fn a_minus_signed_zero_fits_every_kind() {
    for kind in [IntegerKind::UInt8, IntegerKind::UInt64, IntegerKind::Int32] {
        for text in ["-0", "-00", "-_0"] {
            let v = IntegerValue::parse_decimal(text, kind).unwrap();
            assert_eq!(v.kind(), kind);
            assert_eq!(v.bits(), 0);
        }
    }
    assert_eq!(IntegerValue::parse_decimal("-1", IntegerKind::UInt8), Err(NumericError::OutOfRange));
    assert_eq!(IntegerValue::parse_decimal("-", IntegerKind::UInt8), Err(NumericError::InvalidLiteral));
}

#[test]
fn decimal_text_reads_back_as_the_same_value() {
    for (x, kind) in [
        (i64::MIN, IntegerKind::Int64),
        (i64::MAX, IntegerKind::Int64),
        (-128, IntegerKind::Int8),
        (127, IntegerKind::Int8),
        (-1, IntegerKind::Int16),
        (0, IntegerKind::Int32),
    ] {
        let v = IntegerValue::parse_decimal(&x.to_string(), kind).unwrap();
        assert_eq!(v.signed(), Some(x));
        assert_eq!(v.to_decimal_string(), x.to_string());
        assert_eq!(IntegerValue::parse_decimal(&v.to_decimal_string(), kind), Ok(v));
    }
    let max = IntegerValue::parse_decimal("18_446_744_073_709_551_615", IntegerKind::UInt64).unwrap();
    assert_eq!(max.to_decimal_string(), "18446744073709551615");
    assert_eq!(max.signed(), None);
    assert_eq!(
        IntegerValue::parse_decimal(&max.to_decimal_string(), IntegerKind::UInt64),
        Ok(max)
    );
    let zero = IntegerValue::parse_decimal("-0", IntegerKind::UInt8).unwrap();
    assert_eq!(zero.to_decimal_string(), "0");
}
