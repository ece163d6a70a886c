use vstd::prelude::*;

use crate::models::{Movie, Reservation, ReservationDetail, ScheduleDisplayInfo, User};

verus! {

/// What the home page shows: the signed-in user, if any.
pub struct IndexTemplate {
    pub user_option: Option<User>,
}

/// What the reservation list shows, with an error to report, if any.
pub struct ReservationsListTemplate {
    pub reservations: Vec<ReservationDetail>,
    pub error_message: Option<String>,
}

/// What the reservation form shows: the reservation being edited, if any,
/// and every schedule with its free seats.
pub struct ReservationFormTemplate {
    pub reservation: Option<Reservation>,
    pub schedules: Vec<ScheduleDisplayInfo>,
}

/// What the error page shows.
pub struct ErrorTemplate {
    pub error_message: String,
    pub debug_info: String,
}

/// What the movie list shows.
pub struct MoviesTemplate {
    pub movies: Vec<Movie>,
}

/// What a movie's page shows.
pub struct MovieTemplate {
    pub movie: Movie,
}

} // verus!
