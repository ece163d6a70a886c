use vstd::prelude::*;

use crate::app_error::AppError;
use crate::db::{get_all_movies, get_movie_by_id, Database};
use crate::table::find_row;
use crate::templates_structs::{MovieTemplate, MoviesTemplate};

verus! {

/// The list of every movie, in table order.
pub fn movies_handler(conn: &Database) -> (r: MoviesTemplate)
    ensures
        r.movies@ == conn@.movies,
{
    MoviesTemplate { movies: get_all_movies(conn) }
}

/// The page of movie `movie_id`, or `NotFound`.
pub fn movie_handler(conn: &Database, movie_id: i32) -> (r: Result<MovieTemplate, AppError>)
    ensures
        match find_row(conn@.movies, movie_id) {
            Some(m) => r matches Ok(t) && t.movie == m,
            None => r matches Err(AppError::NotFound),
        },
{
    match get_movie_by_id(conn, movie_id) {
        Ok(movie) => Ok(MovieTemplate { movie }),
        Err(_) => Err(AppError::NotFound),
    }
}

} // verus!
