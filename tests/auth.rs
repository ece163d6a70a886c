use cinema::app_error::AppError;
use cinema::db::{Database, DbError};
use cinema::forms::{LoginForm, RegisterForm};
use cinema::handlers::auth::{check_login, handle_login, handle_register};
use cinema::models::User;

fn register_form(email: &str, password: &str) -> RegisterForm {
    RegisterForm {
        email: email.to_string(),
        password: password.to_string(),
        password_confirmation: password.to_string(),
    }
}

fn login_form(email: &str, password: &str) -> LoginForm {
    LoginForm { email: email.to_string(), password: password.to_string() }
}

#[test]
fn register_then_login() {
    let mut db = Database::new();
    let id = handle_register(&mut db, &register_form("ann@example.com", "correct horse")).unwrap();
    let user = handle_login(&db, &login_form("ann@example.com", "correct horse")).unwrap();
    assert_eq!(user.id, id);
    assert_eq!(user.email, "ann@example.com");
    assert_ne!(user.password, "correct horse");
}

#[test]
fn wrong_password_is_login_error() {
    let mut db = Database::new();
    handle_register(&mut db, &register_form("bo@example.com", "right one")).unwrap();
    assert!(matches!(
        handle_login(&db, &login_form("bo@example.com", "wrong one")),
        Err(AppError::UserLoginError)
    ));
}

#[test]
fn unknown_email_is_login_error() {
    let db = Database::new();
    assert!(matches!(
        handle_login(&db, &login_form("nobody@example.com", "whatever")),
        Err(AppError::UserLoginError)
    ));
}

#[test]
fn second_registration_of_email_fails() {
    let mut db = Database::new();
    handle_register(&mut db, &register_form("cy@example.com", "pw")).unwrap();
    assert!(matches!(
        handle_register(&mut db, &register_form("cy@example.com", "other")),
        Err(AppError::Database(DbError::UniqueViolation))
    ));
}

#[test]
fn login_outcome_from_lookup_and_check() {
    let u = User { id: 7, email: "d@example.com".to_string(), password: "h".to_string() };
    assert_eq!(check_login(Some(u.clone()), true).unwrap().id, 7);
    assert!(matches!(check_login(Some(u), false), Err(AppError::UserLoginError)));
    assert!(matches!(check_login(None, true), Err(AppError::UserLoginError)));
}
