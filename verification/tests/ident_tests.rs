use codegen::{make_valid_identifier, validate_identifier, Error, Id, IdentError};

#[test]
fn test_validate_ident() {
    assert!(validate_identifier("thisIsValid").is_ok());
    assert!(validate_identifier("_this_also_valid").is_ok());
    assert!(validate_identifier("_type").is_ok());
    assert!(validate_identifier("T343434234").is_ok());

    assert!(validate_identifier("_").is_err());
    assert!(validate_identifier("@").is_err());
    assert!(validate_identifier("contains space").is_err());
    assert!(validate_identifier("contains££££symbol").is_err());
    assert!(validate_identifier("type").is_err());
    assert!(validate_identifier("3_invalid").is_err());
}

#[test]
fn test_make_valid_identifier() {
    assert_eq!(make_valid_identifier("1234_abcd").unwrap(), "_abcd");
    assert_eq!(make_valid_identifier("$1234Abcd").unwrap(), "Abcd");
    assert!(make_valid_identifier("$@1234\\|./").is_err());
    assert!(make_valid_identifier("1234_").is_err());
    assert!(make_valid_identifier("").is_err());
    assert!(make_valid_identifier("_").is_err());
    assert_eq!(make_valid_identifier("type").unwrap(), "type_");
    assert_eq!(make_valid_identifier("this 123").unwrap(), "this123");
}

#[test]
fn test_valid_string_sanitizes_to_itself() {
    for s in ["thisIsValid", "_this_also_valid", "_type", "T343434234", "a1"] {
        assert!(validate_identifier(s).is_ok());
        assert_eq!(make_valid_identifier(s).unwrap(), s);
    }
}

#[test]
fn test_validate_error_reasons() {
    assert!(matches!(
        validate_identifier(""),
        Err(Error::InvalidIdentifier(IdentError::Empty))
    ));
    assert!(matches!(
        validate_identifier("_"),
        Err(Error::InvalidIdentifier(IdentError::Placeholder))
    ));
    assert!(matches!(
        validate_identifier("extern"),
        Err(Error::InvalidIdentifier(IdentError::ReservedWord))
    ));
    assert!(matches!(
        validate_identifier("3_invalid"),
        Err(Error::InvalidIdentifier(IdentError::InvalidChar(0)))
    ));
    assert!(matches!(
        validate_identifier("contains space"),
        Err(Error::InvalidIdentifier(IdentError::InvalidChar(8)))
    ));
    assert!(matches!(
        make_valid_identifier("$@1234\\|./"),
        Err(Error::InvalidIdentifier(IdentError::NotSanitizable))
    ));
}

#[test]
fn test_id_constructors() {
    let id = Id::new("MyStruct").unwrap();
    assert_eq!(id.as_str(), "MyStruct");
    assert!(Id::new("my struct").is_err());

    let repaired = Id::make_valid("1234_abcd").unwrap();
    assert_eq!(repaired.as_str(), "_abcd");
    assert!(Id::make_valid("1234_").is_err());
}
