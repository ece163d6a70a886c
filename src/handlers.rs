use vstd::prelude::*;

use crate::models::User;
use crate::templates_structs::IndexTemplate;

pub mod auth;
pub mod movies;
pub mod reservations;

verus! {

/// The home page for the signed-in user, if any.
pub fn index_handler(user_option: Option<User>) -> (r: IndexTemplate)
    ensures
        r.user_option == user_option,
{
    IndexTemplate { user_option }
}

} // verus!
