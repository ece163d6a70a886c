use vstd::prelude::*;

verus! {

/// A registered user; `password` holds the bcrypt hash, never the clear text.
#[derive(Debug)]
pub struct User {
    pub id: i32,
    pub email: String,
    pub password: String,
}

impl Clone for User {
    fn clone(&self) -> (r: Self)
        ensures
            r == *self,
    {
        User { id: self.id, email: self.email.clone(), password: self.password.clone() }
    }
}

/// The fields of a user row before the store has given it an id.
pub struct NewUser<'a> {
    pub email: &'a str,
    pub password: &'a str,
}

#[derive(Debug)]
pub struct Movie {
    pub id: i32,
    pub title: String,
    pub year: i32,
    pub director: String,
    pub poster: String,
}

impl Clone for Movie {
    fn clone(&self) -> (r: Self)
        ensures
            r == *self,
    {
        Movie {
            id: self.id,
            title: self.title.clone(),
            year: self.year,
            director: self.director.clone(),
            poster: self.poster.clone(),
        }
    }
}

/// The fields of a movie row before the store has given it an id.
pub struct NewMovie<'a> {
    pub title: &'a str,
    pub year: i32,
    pub director: &'a str,
    pub poster: &'a str,
}

/// A screening room; `capacity` bounds the reservations of each of its schedules.
#[derive(Debug)]
pub struct Room {
    pub id: i32,
    pub capacity: i32,
    pub label: String,
}

impl Clone for Room {
    fn clone(&self) -> (r: Self)
        ensures
            r == *self,
    {
        Room { id: self.id, capacity: self.capacity, label: self.label.clone() }
    }
}

/// One screening of a movie in a room. `date` counts seconds from
/// 1970-01-01 00:00:00 on the cinema's own (naive) clock.
#[derive(Debug, Clone, Copy, PartialEq, Eq, Structural)]
pub struct Schedule {
    pub id: i32,
    pub movie_id: i32,
    pub room_id: i32,
    pub date: i64,
}

/// One seat held by one user for one schedule.
#[derive(Debug, Clone, Copy, PartialEq, Eq, Structural)]
pub struct Reservation {
    pub id: i32,
    pub user_id: i32,
    pub schedule_id: i32,
}

#[derive(Debug, Clone, Copy, PartialEq, Eq, Structural)]
pub struct NewReservation {
    pub user_id: i32,
    pub schedule_id: i32,
}

/// A partial update of a reservation: only the fields that are `Some` change.
#[derive(Debug, Clone, Copy, PartialEq, Eq, Structural)]
pub struct ReservationChangeset {
    pub user_id: Option<i32>,
    pub schedule_id: Option<i32>,
}

/// A reservation joined with its user, movie, room and schedule, for display.
#[derive(Debug)]
pub struct ReservationDetail {
    pub reservation_id: i32,
    pub user_email: String,
    pub movie_title: String,
    pub room_label: String,
    pub schedule_date: i64,
}

/// A schedule with its movie, its room and the seats still free in it.
#[derive(Debug)]
pub struct ScheduleDisplayInfo {
    pub schedule: Schedule,
    pub movie: Movie,
    pub room: Room,
    pub available_seats: i32,
}

} // verus!
