use vstd::prelude::*;

use crate::app_error::AppError;
use crate::db::{committed_wf, create_user, email_taken, get_user_by_email, user_with_email, Database, DbError, DbView};
use crate::forms::{LoginForm, RegisterForm};
use crate::models::{NewUser, User};

verus! {

/// What bcrypt's check says of a password against a stored hash.
pub uninterp spec fn bcrypt_accepts(password: Seq<char>, hash: Seq<char>) -> bool;

/// Relies on `bcrypt::verify`: whether `password` hashes, under the salt and
/// cost that `hash` carries, to `hash`. A malformed hash is read as no match.
#[verifier::external_body]
fn verify_password(password: &String, hash: &String) -> (r: bool)
    ensures
        r == bcrypt_accepts(password@, hash@),
{
    bcrypt::verify(password.as_str(), hash.as_str()).unwrap_or(false)
}

/// Relies on `bcrypt::hash` at its default cost: a hash under a salt drawn
/// afresh from the system's random source; `None` where that fails.
#[verifier::external_body]
fn hash_password(password: &String) -> (r: Option<String>) {
    bcrypt::hash(password.as_str(), bcrypt::DEFAULT_COST).ok()
}

/// The outcome of a log-in, given the user found by email, if any, and
/// whether the password matched that user's hash.
pub fn check_login(found: Option<User>, password_matches: bool) -> (r: Result<User, AppError>)
    ensures
        match found {
            Some(u) => if password_matches {
                r == Ok::<User, AppError>(u)
            } else {
                r matches Err(AppError::UserLoginError)
            },
            None => r matches Err(AppError::UserLoginError),
        },
{
    match found {
        Some(u) => if password_matches {
            Ok(u)
        } else {
            Err(AppError::UserLoginError)
        },
        None => Err(AppError::UserLoginError),
    }
}

/// Logs in: the user with the form's email, where the form's password
/// matches the stored hash; else `UserLoginError`, which does not say which
/// of the two failed.
pub fn handle_login(conn: &Database, form: &LoginForm) -> (r: Result<User, AppError>)
    ensures
        match user_with_email(conn@.users, form.email@) {
            Some(u) => if bcrypt_accepts(form.password@, u.password@) {
                r == Ok::<User, AppError>(u)
            } else {
                r matches Err(AppError::UserLoginError)
            },
            None => r matches Err(AppError::UserLoginError),
        },
{
    let found = get_user_by_email(conn, &form.email);
    let matches = match &found {
        Some(u) => verify_password(&form.password, &u.password),
        None => false,
    };
    check_login(found, matches)
}

/// Signs up: stores the form's email with a fresh bcrypt hash of its
/// password and returns the new user's id. A taken email fails with
/// `Database(UniqueViolation)`; a failed hash with `UserRegisterError`,
/// leaving the store as it was.
pub fn handle_register(conn: &mut Database, form: &RegisterForm) -> (r: Result<i32, AppError>)
    requires
        committed_wf(old(conn)@),
    ensures
        committed_wf(final(conn)@),
        match r {
            Ok(id) => {
                &&& id == old(conn)@.next_user_id
                &&& final(conn)@.users.drop_last() == old(conn)@.users
                &&& final(conn)@.users.len() == old(conn)@.users.len() + 1
                &&& final(conn)@.users.last().id == id
                &&& final(conn)@.users.last().email@ == form.email@
                &&& final(conn)@ == DbView {
                    users: final(conn)@.users,
                    next_user_id: id + 1,
                    ..old(conn)@
                }
            },
            Err(AppError::Database(e)) => {
                &&& final(conn)@ == old(conn)@
                &&& e == if email_taken(old(conn)@.users, form.email@) {
                    DbError::UniqueViolation
                } else {
                    DbError::IdSpaceExhausted
                }
            },
            Err(AppError::UserRegisterError) => final(conn)@ == old(conn)@,
            Err(_) => false,
        },
{
    let hashed = match hash_password(&form.password) {
        Some(h) => h,
        None => return Err(AppError::UserRegisterError),
    };
    let new_user = NewUser { email: form.email.as_str(), password: hashed.as_str() };
    match create_user(conn, new_user) {
        Ok(id) => Ok(id),
        Err(e) => Err(AppError::Database(e)),
    }
}

} // verus!
