use fanorona::capture_type::CaptureType;

#[test]
fn capture_type_test_display() {
    assert_eq!("F", CaptureType::Approach.to_string());
    assert_eq!("B", CaptureType::Withdrawal.to_string());
}

#[test]
fn capture_type_test_try_from() {
    assert_eq!(CaptureType::Approach, CaptureType::try_from("f").unwrap());
    assert_eq!(CaptureType::Approach, CaptureType::try_from("F").unwrap());

    assert_eq!(CaptureType::Withdrawal, CaptureType::try_from("b").unwrap());
    assert_eq!(CaptureType::Withdrawal, CaptureType::try_from("B").unwrap());

    assert!(CaptureType::try_from("x").is_err());
    assert!(CaptureType::try_from("xyz").is_err());
    assert!(CaptureType::try_from("1").is_err());
    assert!(CaptureType::try_from("fb").is_err());
    assert!(CaptureType::try_from("BF").is_err());
}

#[test]
fn capture_type_parse_capture() {
    assert_eq!(CaptureType::parse_capture("F"), Some(CaptureType::Approach));
    assert_eq!(CaptureType::parse_capture("b"), Some(CaptureType::Withdrawal));
    assert_eq!(CaptureType::parse_capture(""), None);
}
