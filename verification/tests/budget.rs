use x509_path::{Budget, DuplicateExtensionsError, ValidationError};

#[test]
fn full_budget() {
    let budget = Budget::new();
    assert_eq!(budget.name_constraint_checks, 1_048_576);
    assert_eq!(budget.signature_checks, 128);
    assert_eq!(Budget::DEFAULT_NAME_CONSTRAINT_CHECK_LIMIT, 1 << 20);
    assert_eq!(Budget::DEFAULT_SIGNATURE_CHECK_LIMIT, 1 << 7);
}

#[test]
fn name_constraint_checks_run_out() {
    let mut budget = Budget { name_constraint_checks: 2, signature_checks: 5 };
    assert_eq!(budget.name_constraint_check(), Ok(()));
    assert_eq!(budget.name_constraint_check(), Ok(()));
    assert_eq!(budget, Budget { name_constraint_checks: 0, signature_checks: 5 });
    assert_eq!(
        budget.name_constraint_check(),
        Err(ValidationError::FatalError("Exceeded maximum name constraint check limit"))
    );
    assert_eq!(budget, Budget { name_constraint_checks: 0, signature_checks: 5 });
}

#[test]
fn signature_checks_run_out() {
    let mut budget = Budget { name_constraint_checks: 5, signature_checks: 1 };
    assert_eq!(budget.signature_check(), Ok(()));
    assert_eq!(
        budget.signature_check(),
        Err(ValidationError::FatalError("Exceeded maximum signature check limit"))
    );
    assert_eq!(budget, Budget { name_constraint_checks: 5, signature_checks: 0 });
}

#[test]
fn errors_convert() {
    let parse = || asn1::ParseError::new(asn1::ParseErrorKind::InvalidLength);
    assert_eq!(
        ValidationError::from(parse()),
        ValidationError::Malformed(std::sync::Arc::new(parse()))
    );
    let duplicate = DuplicateExtensionsError { oid: "2.5.29.17".to_string() };
    assert_eq!(
        ValidationError::from(duplicate.clone()),
        ValidationError::DuplicateExtension(duplicate)
    );
}

#[test]
fn exhausted_errors_do_not_nest() {
    let inner = || ValidationError::Other("inner".to_string());
    let wrapped = ValidationError::exhausted(Some(inner()));
    assert_eq!(wrapped, ValidationError::CandidatesExhausted(Box::new(inner())));
    let again = ValidationError::exhausted(Some(wrapped));
    assert_eq!(again, ValidationError::CandidatesExhausted(Box::new(inner())));
    assert_eq!(
        ValidationError::exhausted(None),
        ValidationError::CandidatesExhausted(Box::new(ValidationError::Other(
            "all candidates exhausted with no interior errors".to_string()
        )))
    );
}
