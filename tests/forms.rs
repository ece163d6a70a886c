use cinema::forms::{parse_i32, parse_reservation_ids, LoginForm, RegisterForm};

#[test]
fn parses_comma_separated_ids() {
    assert_eq!(parse_reservation_ids("1,2,3"), Some(vec![1, 2, 3]));
    assert_eq!(parse_reservation_ids("42"), Some(vec![42]));
    assert_eq!(parse_reservation_ids("-5,+7,007"), Some(vec![-5, 7, 7]));
    assert_eq!(parse_reservation_ids("-2147483648,2147483647"), Some(vec![i32::MIN, i32::MAX]));
}

#[test]
fn refuses_malformed_ids() {
    for text in ["", ",", "1,,2", "1,", "a", "1 ,2", "2147483648", "-2147483649", "-", "+", "1.5"] {
        assert_eq!(parse_reservation_ids(text), None, "{text:?}");
    }
}

#[test]
fn parse_i32_agrees_with_std() {
    for text in ["0", "-0", "+12", "99999999999", "12a", "", "-", "2147483647", "-2147483648", "00042"] {
        assert_eq!(parse_i32(text.as_bytes()), text.parse::<i32>().ok(), "{text:?}");
    }
}

fn register(email: &str, password: &str, confirmation: &str) -> RegisterForm {
    RegisterForm {
        email: email.to_string(),
        password: password.to_string(),
        password_confirmation: confirmation.to_string(),
    }
}

#[test]
fn register_form_rules() {
    assert!(register("ann@example.com", "longenough", "longenough").validate().is_ok());
    let e = register("not-an-email", "longenough", "longenough").validate().unwrap_err();
    assert!(e.email && !e.password && !e.password_confirmation);
    let e = register("ann@example.com", "short", "short").validate().unwrap_err();
    assert!(!e.email && e.password && !e.password_confirmation);
    let e = register("ann@example.com", "longenough", "different").validate().unwrap_err();
    assert!(!e.email && !e.password && e.password_confirmation);
    let e = register("", "", "x").validate().unwrap_err();
    assert!(e.email && e.password && e.password_confirmation);
}

#[test]
fn login_form_rules() {
    let ok = LoginForm { email: "ann@example.com".to_string(), password: "ééééééééé".to_string() };
    assert!(ok.validate().is_ok());
    let bad = LoginForm { email: "ann.example.com".to_string(), password: "1234567".to_string() };
    let e = bad.validate().unwrap_err();
    assert!(e.email && e.password && !e.password_confirmation);
}

#[test]
fn field_errors_take_the_email_verdict() {
    let f = register("whatever", "longenough", "longenough");
    let e = f.field_errors(true);
    assert!(!e.email && !e.password && !e.password_confirmation);
    let e = f.field_errors(false);
    assert!(e.email && !e.password && !e.password_confirmation);
    let l = LoginForm { email: "x".to_string(), password: "seven77".to_string() };
    let e = l.field_errors(true);
    assert!(!e.email && e.password && !e.password_confirmation);
}
