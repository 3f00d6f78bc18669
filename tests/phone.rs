use brdocs::phone::{format_phone, format_phone_expr, validate_phone, validate_phone_flexible_expr};

#[test]
fn strict_phone_validation() {
    assert!(validate_phone("+5516997184720"));
    assert!(validate_phone("+5511987654321"));
    assert!(validate_phone("+551687184720"));
    assert!(!validate_phone("5516997184720"));
    assert!(!validate_phone("+55169971847201"));
    assert!(!validate_phone("+55 16 99718-4720"));
    assert!(!validate_phone(""));
}

#[test]
fn flexible_phone_validation() {
    assert!(validate_phone_flexible_expr("(16) 99718-4720"));
    assert!(validate_phone_flexible_expr("016997184720"));
    assert!(validate_phone_flexible_expr("+55 16 8718-4720"));
    assert!(validate_phone_flexible_expr("55.16.99718.4720"));
    assert!(!validate_phone_flexible_expr("12345"));
    assert!(!validate_phone_flexible_expr("1687184720"));
    assert!(!validate_phone_flexible_expr("16/99718/4720"));
}

#[test]
fn format_phone_by_digit_count() {
    assert_eq!(format_phone("5516997184720"), "+55 (16) 99718-4720".to_string());
    assert_eq!(format_phone("16997184720"), "+55 (16) 99718-4720".to_string());
    assert_eq!(format_phone("016997184720"), "+55 (16) 99718-4720".to_string());
    assert_eq!(format_phone("123"), "123".to_string());
    assert_eq!(format_phone("4416997184720"), "4416997184720".to_string());
}

#[test]
fn format_phone_after_flexible_check() {
    assert_eq!(format_phone_expr("(16) 99718-4720"), "+55 (16) 99718-4720".to_string());
    assert_eq!(format_phone_expr("+55 16 99718-4720"), "+55 (16) 99718-4720".to_string());
    assert_eq!(format_phone_expr("+551687184720"), "+551687184720".to_string());
    assert_eq!(format_phone_expr("abc"), "abc".to_string());
}
