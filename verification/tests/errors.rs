use clap_subopt_parser::diagnostic::error_class;
use clap_subopt_parser::{ErrorClass, SubOptError};

#[test]
fn message_of_unknown_key() {
    let e = SubOptError::UnknownKey("bogus".to_string());
    assert_eq!(e.message(), "Unknown key: bogus\n");
}

#[test]
fn message_of_missing_value() {
    let e = SubOptError::MissingValueForKey("source".to_string());
    assert_eq!(e.message(), "Missing value for key 'source'\n");
}

#[test]
fn message_of_custom() {
    let e = SubOptError::Custom("invalid digit found in string".to_string());
    assert_eq!(e.message(), "Custom error: invalid digit found in string\n");
}

#[test]
fn message_of_empty_payload() {
    assert_eq!(SubOptError::UnknownKey(String::new()).message(), "Unknown key: \n");
    assert_eq!(
        SubOptError::MissingValueForKey(String::new()).message(),
        "Missing value for key ''\n"
    );
    assert_eq!(SubOptError::Custom(String::new()).message(), "Custom error: \n");
}

#[test]
fn message_keeps_text_beyond_ascii() {
    let e = SubOptError::UnknownKey("ключ".to_string());
    assert_eq!(e.message(), "Unknown key: ключ\n");
}

#[test]
fn message_leaves_error_usable() {
    let e = SubOptError::Custom("boom".to_string());
    let first = e.message();
    let second = e.message();
    assert_eq!(first, second);
    assert!(matches!(e, SubOptError::Custom(ref s) if s == "boom"));
}

#[test]
fn class_of_each_variant() {
    assert_eq!(
        error_class(&SubOptError::UnknownKey("k".to_string())),
        ErrorClass::UnknownArgument
    );
    assert_eq!(
        error_class(&SubOptError::MissingValueForKey("k".to_string())),
        ErrorClass::EmptyValue
    );
    assert_eq!(error_class(&SubOptError::Custom("m".to_string())), ErrorClass::InvalidValue);
}

#[test]
fn clap_error_from_unknown_key() {
    let error = clap::Error::from(SubOptError::UnknownKey("bogus".to_string()));
    assert_eq!(error.kind(), clap::ErrorKind::UnknownArgument);
    assert_eq!(error.to_string(), "error: Unknown key: bogus\n");
}

#[test]
fn clap_error_from_missing_value() {
    let error = clap::Error::from(SubOptError::MissingValueForKey("source".to_string()));
    assert_eq!(error.kind(), clap::ErrorKind::EmptyValue);
    assert_eq!(error.to_string(), "error: Missing value for key 'source'\n");
}

#[test]
fn clap_error_from_custom() {
    let error = clap::Error::from(SubOptError::Custom("boom".to_string()));
    assert_eq!(error.kind(), clap::ErrorKind::InvalidValue);
    assert_eq!(error.to_string(), "error: Custom error: boom\n");
}

#[test]
fn clap_error_through_into() {
    let error: clap::Error = SubOptError::Custom("boom".to_string()).into();
    assert_eq!(error.kind(), clap::ErrorKind::InvalidValue);
}

fn fails_with_missing_offset() -> Result<(), clap::Error> {
    Err(SubOptError::MissingValueForKey("offset".to_string()))?;
    Ok(())
}

#[test]
fn clap_error_through_question_mark() {
    let error = fails_with_missing_offset().unwrap_err();
    assert_eq!(error.kind(), clap::ErrorKind::EmptyValue);
    assert_eq!(error.to_string(), "error: Missing value for key 'offset'\n");
}
