use pop_types::classes::ClassExtensibility;
use pop_types::id_sets::{find_first_unknown, find_last_unknown, insert_sorted_id, type_ids_lt};
use pop_types::ids::{ClassId, InterfaceId, ParameterId};
use pop_types::specializations::{ClassSpecializations, TypeSubstitutions};
use pop_types::tsv::{chars_of, parse_unsigned, split_lines, split_text};
use pop_types::{ClassContract, InferenceContext, InferenceError, InferenceType, TypeId};

#[test]
fn inference_binds_and_resolves_variables() {
    let mut context = InferenceContext::new();
    let a = context.new_variable();
    let b = context.new_variable();
    assert_eq!(a.raw(), 0);
    assert_eq!(b.raw(), 1);
    assert_eq!(context.resolve(a), Err(InferenceError::Unsolved(a)));
    assert_eq!(
        context.constrain_equal(InferenceType::Variable(a), InferenceType::Variable(b)),
        Ok(())
    );
    assert_eq!(
        context.constrain_equal(InferenceType::Known(TypeId(4)), InferenceType::Variable(b)),
        Ok(())
    );
    assert_eq!(context.resolve(a), Ok(TypeId(4)));
    assert_eq!(context.resolve(b), Ok(TypeId(4)));
}

#[test]
fn inference_reports_conflicts_in_constraint_order() {
    let mut context = InferenceContext::new();
    let a = context.new_variable();
    context
        .constrain_equal(InferenceType::Variable(a), InferenceType::Known(TypeId(4)))
        .unwrap();
    assert_eq!(
        context.constrain_equal(InferenceType::Variable(a), InferenceType::Known(TypeId(12))),
        Err(InferenceError::Conflict {
            expected: TypeId(4),
            found: TypeId(12),
        })
    );
    assert_eq!(
        context.constrain_equal(InferenceType::Known(TypeId(1)), InferenceType::Known(TypeId(1))),
        Ok(())
    );
    assert_eq!(
        context.constrain_equal(InferenceType::Known(TypeId(1)), InferenceType::Known(TypeId(2))),
        Err(InferenceError::Conflict {
            expected: TypeId(1),
            found: TypeId(2),
        })
    );
    let c = context.new_variable();
    context
        .constrain_equal(InferenceType::Variable(c), InferenceType::Known(TypeId(12)))
        .unwrap();
    assert_eq!(
        context.constrain_equal(InferenceType::Variable(a), InferenceType::Variable(c)),
        Err(InferenceError::Conflict {
            expected: TypeId(4),
            found: TypeId(12),
        })
    );
    assert_eq!(context.resolve(c), Ok(TypeId(12)));
}

#[test]
fn inference_rejects_variables_of_another_context() {
    let mut other = InferenceContext::new();
    other.new_variable();
    let foreign = other.new_variable();
    let mut context = InferenceContext::new();
    context.new_variable();
    assert_eq!(context.resolve(foreign), Err(InferenceError::UnknownVariable(foreign)));
    assert_eq!(
        context.constrain_equal(InferenceType::Variable(foreign), InferenceType::Known(TypeId(0))),
        Err(InferenceError::UnknownVariable(foreign))
    );
    let copy = context.clone();
    assert_eq!(copy.resolve(foreign), Err(InferenceError::UnknownVariable(foreign)));
}

#[test]
fn sorted_identity_lists_stay_sorted_and_unique() {
    let mut ids = vec![TypeId(2), TypeId(9)];
    insert_sorted_id(&mut ids, TypeId(5));
    insert_sorted_id(&mut ids, TypeId(9));
    insert_sorted_id(&mut ids, TypeId(0));
    insert_sorted_id(&mut ids, TypeId(11));
    assert_eq!(ids, vec![TypeId(0), TypeId(2), TypeId(5), TypeId(9), TypeId(11)]);
}

#[test]
fn unknown_identities_are_found_from_either_end() {
    let ids = [TypeId(1), TypeId(20), TypeId(3), TypeId(30)];
    assert_eq!(find_first_unknown(14, &ids), Some(TypeId(20)));
    assert_eq!(find_last_unknown(14, &ids), Some(TypeId(30)));
    assert_eq!(find_first_unknown(31, &ids), None);
    assert_eq!(find_last_unknown(31, &ids), None);
    assert_eq!(find_first_unknown(0, &[]), None);
}

#[test]
fn identity_lists_order_lexicographically() {
    let cases: [(&[TypeId], &[TypeId]); 6] = [
        (&[], &[]),
        (&[], &[TypeId(0)]),
        (&[TypeId(1)], &[TypeId(1), TypeId(0)]),
        (&[TypeId(2)], &[TypeId(1), TypeId(9)]),
        (&[TypeId(1), TypeId(3)], &[TypeId(1), TypeId(4)]),
        (&[TypeId(7)], &[TypeId(7)]),
    ];
    for (a, b) in cases {
        assert_eq!(type_ids_lt(a, b), a < b, "{a:?} < {b:?}");
        assert_eq!(type_ids_lt(b, a), b < a, "{b:?} < {a:?}");
    }
}

#[test]
fn class_specializations_keep_the_last_entry_per_key() {
    let mut table = ClassSpecializations::new();
    assert_eq!(table.len(), 0);
    table.insert(ClassId(3), vec![TypeId(4)], TypeId(20));
    table.insert(ClassId(1), vec![TypeId(5), TypeId(4)], TypeId(21));
    table.insert(ClassId(3), vec![TypeId(4)], TypeId(22));
    table.insert(ClassId(3), vec![], TypeId(23));
    assert_eq!(table.len(), 3);
    assert_eq!(table.get(ClassId(3), &[TypeId(4)]), Some(TypeId(22)));
    assert_eq!(table.get(ClassId(3), &[]), Some(TypeId(23)));
    assert_eq!(table.get(ClassId(1), &[TypeId(4)]), None);
    assert_eq!(table.first_class_of_instance(TypeId(21)), Some(ClassId(1)));
    assert_eq!(table.first_class_of_instance(TypeId(20)), None);
    let keys: Vec<(ClassId, Vec<TypeId>)> = table
        .entries()
        .into_iter()
        .map(|(class, arguments, _)| (class, arguments))
        .collect();
    assert_eq!(
        keys,
        vec![
            (ClassId(1), vec![TypeId(5), TypeId(4)]),
            (ClassId(3), vec![]),
            (ClassId(3), vec![TypeId(4)]),
        ]
    );
}

#[test]
fn type_substitutions_replace_earlier_bindings() {
    let mut substitutions = TypeSubstitutions::new();
    assert_eq!(substitutions.get(ParameterId(0)), None);
    substitutions.insert(ParameterId(0), TypeId(4));
    substitutions.insert(ParameterId(1), TypeId(5));
    substitutions.insert(ParameterId(0), TypeId(12));
    assert_eq!(substitutions.get(ParameterId(0)), Some(TypeId(12)));
    assert_eq!(substitutions.get(ParameterId(1)), Some(TypeId(5)));
    assert_eq!(substitutions.get(ParameterId(2)), None);
}

#[test]
fn class_contracts_start_sealed() {
    let contract = ClassContract::new(ClassId(2), Some(ClassId(1)), vec![InterfaceId(3), InterfaceId(1), InterfaceId(3)]);
    assert_eq!(contract.class(), ClassId(2));
    assert_eq!(contract.base(), Some(ClassId(1)));
    assert_eq!(contract.interfaces(), &[InterfaceId(1), InterfaceId(3)]);
    assert_eq!(contract.extensibility(), ClassExtensibility::Sealed);
    assert_eq!(contract.open().extensibility(), ClassExtensibility::Open);
}

#[test]
fn text_is_split_like_the_standard_library() {
    let text = "a\tb\t\tc";
    assert_eq!(split_text(text, '\t'), text.split('\t').collect::<Vec<_>>());
    assert_eq!(split_text("", '\t'), vec![""]);
    let document = "first\r\nsecond\n\nthird\n";
    assert_eq!(split_lines(document), document.lines().collect::<Vec<_>>());
    assert_eq!(split_lines(""), Vec::<&str>::new());
    assert_eq!(split_lines("only"), vec!["only"]);
    assert_eq!(chars_of("héllo"), vec!['h', 'é', 'l', 'l', 'o']);
}

#[test]
fn unsigned_numbers_are_read_like_the_standard_library() {
    assert_eq!(parse_unsigned("42", 100), Some(42));
    assert_eq!(parse_unsigned("+42", 100), Some(42));
    assert_eq!(parse_unsigned("007", 100), Some(7));
    assert_eq!(parse_unsigned("101", 100), None);
    assert_eq!(parse_unsigned("", 100), None);
    assert_eq!(parse_unsigned("+", 100), None);
    assert_eq!(parse_unsigned("-1", 100), None);
    assert_eq!(parse_unsigned("4 2", 100), None);
    assert_eq!(
        parse_unsigned("18446744073709551615", u64::MAX),
        Some(u64::MAX)
    );
    assert_eq!(parse_unsigned("18446744073709551616", u64::MAX), None);
    assert_eq!(parse_unsigned("65535", u64::from(u16::MAX)), Some(65535));
    assert_eq!(parse_unsigned("65536", u64::from(u16::MAX)), None);
}
