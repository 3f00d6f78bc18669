use brdocs::cpf_cnpj::{
    format_cnpj, format_cpf, format_cpf_cnpj, identify_cpf_cnpj, is_cpf_or_cnpj, validate_cnpj,
    validate_cpf, validate_cpf_cnpj, DocKind,
};
use brdocs::digits::extract_digits;

#[test]
fn test_cpf() {
    assert!(validate_cpf("50542983800"));
    assert!(!validate_cpf("11111111111"));
}

#[test]
fn test_cnpj() {
    assert!(validate_cnpj("60204424000108"));
    assert!(!validate_cnpj("11111111111111"));
}

#[test]
fn test_format() {
    assert_eq!(format_cpf("50542983800"), "505.429.838-00".to_string());
    assert_eq!(format_cnpj("60204424000108"), "60.204.424/0001-08".to_string());
}

#[test]
fn extract_digits_keeps_ascii_digits_in_order() {
    assert_eq!(extract_digits("a1-2.3/4 ٥"), "1234".to_string());
    assert_eq!(extract_digits(""), "".to_string());
}

#[test]
fn validate_ignores_punctuation() {
    assert!(validate_cpf("505.429.838-00"));
    assert!(validate_cnpj("60.204.424/0001-08"));
}

#[test]
fn check_digit_rule_for_remainders() {
    // first remainder 1 gives 0, second remainder 2 gives 9
    assert!(validate_cpf("12345678909"));
    assert!(!validate_cpf("12345678900"));
    assert!(!validate_cpf("12345678919"));
    assert!(!validate_cnpj("60204424000109"));
    assert!(!validate_cnpj("60204424000118"));
}

#[test]
fn wrong_lengths_are_rejected() {
    assert!(!validate_cpf("5054298380"));
    assert!(!validate_cpf("505429838000"));
    assert!(!validate_cnpj("6020442400010"));
    assert!(!validate_cpf_cnpj("1234"));
    assert!(!validate_cpf_cnpj(""));
    assert_eq!(identify_cpf_cnpj("123456789012"), None);
    assert_eq!(identify_cpf_cnpj("abc"), None);
}

#[test]
fn repeated_digits_are_rejected() {
    assert!(!validate_cpf("00000000000"));
    assert!(!validate_cnpj("22222222222222"));
    assert!(!validate_cpf_cnpj("99999999999"));
    assert_eq!(identify_cpf_cnpj("33333333333333"), None);
}

#[test]
fn classification_of_documents() {
    assert_eq!(identify_cpf_cnpj("505.429.838-00"), Some(DocKind::Cpf));
    assert_eq!(identify_cpf_cnpj("60204424000108"), Some(DocKind::Cnpj));
    assert!(validate_cpf_cnpj("50542983800"));
    assert!(validate_cpf_cnpj("60204424000108"));
    assert_eq!(is_cpf_or_cnpj("50542983800"), Some("CPF".to_string()));
    assert_eq!(is_cpf_or_cnpj("60.204.424/0001-08"), Some("CNPJ".to_string()));
    assert_eq!(is_cpf_or_cnpj("50542983801"), None);
    assert_eq!(DocKind::Cnpj.label(), "CNPJ".to_string());
}

#[test]
fn format_single_kind_checks_the_checksum() {
    assert_eq!(format_cpf("123"), "123".to_string());
    assert_eq!(format_cpf("12345678900"), "12345678900".to_string());
    assert_eq!(format_cpf("123.456.789-09"), "123.456.789-09".to_string());
    assert_eq!(format_cpf("12345678909"), "123.456.789-09".to_string());
    assert_eq!(format_cpf("11111111111"), "11111111111".to_string());
    assert_eq!(format_cnpj("1234"), "1234".to_string());
    assert_eq!(format_cnpj("60204424000109"), "60204424000109".to_string());
    assert_eq!(format_cnpj("60204424000108"), "60.204.424/0001-08".to_string());
}

#[test]
fn format_valid_documents() {
    assert_eq!(format_cpf_cnpj("cpf 12345678909"), "123.456.789-09".to_string());
    assert_eq!(format_cpf_cnpj("60204424000108"), "60.204.424/0001-08".to_string());
}

#[test]
fn format_leaves_invalid_input_unchanged() {
    assert_eq!(format_cpf_cnpj("12345678900"), "12345678900".to_string());
    assert_eq!(format_cpf_cnpj("60204424000109"), "60204424000109".to_string());
    assert_eq!(format_cpf_cnpj("11111111111"), "11111111111".to_string());
    assert_eq!(format_cpf_cnpj("no digits"), "no digits".to_string());
}

#[test]
fn format_is_idempotent() {
    let once = format_cpf_cnpj("50542983800");
    assert_eq!(format_cpf_cnpj(&once), once);
    let once = format_cpf_cnpj("60204424000108");
    assert_eq!(format_cpf_cnpj(&once), once);
    assert_eq!(format_cpf_cnpj("505.429.838-00"), "505.429.838-00".to_string());
}
