use cinema::app_error::AppError;
use cinema::db::{create_movie, create_room, create_schedule, create_user, Database, DbError};
use cinema::forms::{BulkDeleteFormData, CreateReservationForm, UpdateReservationForm};
use cinema::handlers::index_handler;
use cinema::handlers::movies::{movie_handler, movies_handler};
use cinema::handlers::reservations::{
    create_reservation, delete_multiple_reservations, delete_reservation, list_reservations,
    show_create_reservation_form, show_update_reservation_form, update_reservation,
};
use cinema::models::{NewMovie, NewUser, User};

fn account(db: &mut Database, email: &str) -> User {
    let id = create_user(db, NewUser { email, password: "hash" }).unwrap();
    User { id, email: email.to_string(), password: "hash".to_string() }
}

fn screening(db: &mut Database, capacity: i32) -> i32 {
    let movie = create_movie(
        db,
        NewMovie { title: "Alien", year: 1979, director: "Ridley Scott", poster: "alien.png" },
    )
    .unwrap();
    let room = create_room(db, capacity, "Main").unwrap();
    create_schedule(db, movie, room, 0).unwrap()
}

fn bulk(ids: &str) -> BulkDeleteFormData {
    BulkDeleteFormData { reservation_ids: ids.to_string() }
}

#[test]
fn deleting_someone_elses_reservation_is_refused() {
    let mut db = Database::new();
    let a = account(&mut db, "a@example.com");
    let b = account(&mut db, "b@example.com");
    let s = screening(&mut db, 3);
    let theirs = create_reservation(&mut db, &b, CreateReservationForm { schedule_id: s }).unwrap();
    assert_eq!(delete_reservation(&mut db, &a, theirs), Err(DbError::Unauthorized));
    assert_eq!(list_reservations(&db, &b, None).reservations.len(), 1);
    assert_eq!(delete_reservation(&mut db, &b, theirs), Ok(1));
    assert!(list_reservations(&db, &b, None).reservations.is_empty());
}

#[test]
fn deleting_an_absent_reservation_is_refused() {
    let mut db = Database::new();
    let a = account(&mut db, "a@example.com");
    assert_eq!(delete_reservation(&mut db, &a, 5), Err(DbError::Unauthorized));
}

#[test]
fn bulk_delete_of_mixed_list_deletes_nothing() {
    let mut db = Database::new();
    let a = account(&mut db, "a@example.com");
    let b = account(&mut db, "b@example.com");
    let s1 = screening(&mut db, 3);
    let s2 = screening(&mut db, 3);
    let a1 = create_reservation(&mut db, &a, CreateReservationForm { schedule_id: s1 }).unwrap();
    let b1 = create_reservation(&mut db, &b, CreateReservationForm { schedule_id: s1 }).unwrap();
    let a2 = create_reservation(&mut db, &a, CreateReservationForm { schedule_id: s2 }).unwrap();
    let r = delete_multiple_reservations(&mut db, &a, &bulk(&format!("{a1},{b1}")));
    assert!(matches!(r, Err(AppError::UnauthorizedError)));
    assert_eq!(list_reservations(&db, &a, None).reservations.len(), 2);
    assert_eq!(list_reservations(&db, &b, None).reservations.len(), 1);
    let r = delete_multiple_reservations(&mut db, &a, &bulk(&format!("{a1},{a2}")));
    assert!(matches!(r, Ok(2)));
    assert!(list_reservations(&db, &a, None).reservations.is_empty());
}

#[test]
fn bulk_delete_rejects_malformed_lists() {
    let mut db = Database::new();
    let a = account(&mut db, "a@example.com");
    let s = screening(&mut db, 3);
    create_reservation(&mut db, &a, CreateReservationForm { schedule_id: s }).unwrap();
    for text in ["", "1,", "x", "1;2", " 1"] {
        match delete_multiple_reservations(&mut db, &a, &bulk(text)) {
            Err(AppError::BadRequest(m)) => assert_eq!(m, "Invalid reservation ID format."),
            other => panic!("{text:?} gave {other:?}"),
        }
    }
    assert_eq!(list_reservations(&db, &a, None).reservations.len(), 1);
}

#[test]
fn update_handler_reassigns_to_acting_user() {
    let mut db = Database::new();
    let a = account(&mut db, "a@example.com");
    let s1 = screening(&mut db, 1);
    let s2 = screening(&mut db, 1);
    let id = create_reservation(&mut db, &a, CreateReservationForm { schedule_id: s1 }).unwrap();
    let row = update_reservation(&mut db, &a, id, UpdateReservationForm { schedule_id: s2 }).unwrap();
    assert_eq!((row.user_id, row.schedule_id), (a.id, s2));
    assert_eq!(
        update_reservation(&mut db, &a, id + 10, UpdateReservationForm { schedule_id: s1 }),
        Err(DbError::NotFound)
    );
}

#[test]
fn forms_show_free_seats() {
    let mut db = Database::new();
    let a = account(&mut db, "a@example.com");
    let b = account(&mut db, "b@example.com");
    let s1 = screening(&mut db, 3);
    let s2 = screening(&mut db, 2);
    let id = create_reservation(&mut db, &a, CreateReservationForm { schedule_id: s1 }).unwrap();
    create_reservation(&mut db, &b, CreateReservationForm { schedule_id: s1 }).unwrap();
    let form = show_create_reservation_form(&db);
    assert!(form.reservation.is_none());
    let seats: Vec<(i32, i32)> =
        form.schedules.iter().map(|i| (i.schedule.id, i.available_seats)).collect();
    assert_eq!(seats, vec![(s1, 1), (s2, 2)]);
    let edit = show_update_reservation_form(&db, id).unwrap();
    assert_eq!(edit.reservation.unwrap().id, id);
    let seats: Vec<i32> = edit.schedules.iter().map(|i| i.available_seats).collect();
    assert_eq!(seats, vec![2, 2]);
    assert_eq!(edit.schedules[0].movie.title, "Alien");
    assert_eq!(edit.schedules[0].room.label, "Main");
    assert!(matches!(show_update_reservation_form(&db, 99), Err(AppError::NotFound)));
}

#[test]
fn list_carries_error_message() {
    let db = Database::new();
    let u = User { id: 1, email: "x@example.com".to_string(), password: String::new() };
    let page = list_reservations(&db, &u, Some("seats gone".to_string()));
    assert_eq!(page.error_message.as_deref(), Some("seats gone"));
    assert!(page.reservations.is_empty());
}

#[test]
fn movie_pages() {
    let mut db = Database::new();
    screening(&mut db, 1);
    let list = movies_handler(&db);
    assert_eq!(list.movies.len(), 1);
    assert_eq!(list.movies[0].poster, "alien.png");
    assert_eq!(movie_handler(&db, list.movies[0].id).unwrap().movie.year, 1979);
    assert!(matches!(movie_handler(&db, 50), Err(AppError::NotFound)));
}

#[test]
fn index_shows_user() {
    assert!(index_handler(None).user_option.is_none());
    let u = User { id: 3, email: "z@example.com".to_string(), password: String::new() };
    assert_eq!(index_handler(Some(u)).user_option.unwrap().id, 3);
}

#[test]
fn status_codes() {
    assert_eq!(AppError::NotFound.status_code(), 404);
    assert_eq!(AppError::Render("x".to_string()).status_code(), 500);
    assert_eq!(AppError::Database(DbError::NotFound).status_code(), 500);
    assert_eq!(AppError::PoolError("x".to_string()).status_code(), 500);
    assert_eq!(AppError::BadRequest("x".to_string()).status_code(), 400);
    assert_eq!(AppError::UserLoginError.status_code(), 418);
    assert_eq!(AppError::UserRegisterError.status_code(), 418);
    assert_eq!(AppError::UnauthorizedError.status_code(), 401);
}
