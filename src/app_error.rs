use vstd::prelude::*;

use crate::db::DbError;

verus! {

/// The failures a request can end in.
#[derive(Debug)]
pub enum AppError {
    NotFound,
    /// A page could not be rendered; the renderer's message.
    Render(String),
    Database(DbError),
    /// No connection to the store could be had; the pool's message.
    PoolError(String),
    BadRequest(String),
    UserLoginError,
    UserRegisterError,
    UnauthorizedError,
}

/// The HTTP status that answers each failure.
pub open spec fn status_of(e: AppError) -> u16 {
    match e {
        AppError::NotFound => 404,
        AppError::Render(_) => 500,
        AppError::Database(_) => 500,
        AppError::PoolError(_) => 500,
        AppError::BadRequest(_) => 400,
        AppError::UserLoginError => 418,
        AppError::UserRegisterError => 418,
        AppError::UnauthorizedError => 401,
    }
}

impl AppError {
    /// The HTTP status that answers this failure.
    pub fn status_code(&self) -> (r: u16)
        ensures
            r == status_of(*self),
    {
        match self {
            AppError::NotFound => 404,
            AppError::Render(_) => 500,
            AppError::Database(_) => 500,
            AppError::PoolError(_) => 500,
            AppError::BadRequest(_) => 400,
            AppError::UserLoginError => 418,
            AppError::UserRegisterError => 418,
            AppError::UnauthorizedError => 401,
        }
    }
}

} // verus!
