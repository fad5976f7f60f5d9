use zac::error::ZacError;

#[test]
fn every_code_round_trips() {
    for c in [
        "E001", "E002", "E003", "E004", "E005", "E006", "E007", "E008", "E009", "E010", "E011",
        "E012", "E013", "E014", "E015", "E016", "E017",
    ] {
        let err = ZacError::from_e_code(c).expect("known code");
        assert_eq!(err.code(), c);
    }
    assert!(ZacError::from_e_code("E999").is_none());
}

#[test]
fn identity_code_round_trips() {
    let err = ZacError::from_e_code("E018").expect("known code");
    assert_eq!(err.code(), "E018");
    assert!(matches!(err, ZacError::IdentityNotAllowed { .. }));
}

#[test]
fn io_error_reports_e000_and_malformed_codes_are_unknown() {
    assert_eq!(ZacError::Io("x".to_string()).code(), "E000");
    assert!(ZacError::from_e_code("E000").is_none());
    assert!(ZacError::from_e_code("E19").is_none());
    assert!(ZacError::from_e_code("X001").is_none());
    assert!(ZacError::from_e_code("E0010").is_none());
}
