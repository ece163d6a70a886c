use cinema::db::{
    check_if_capacity_exceeded, check_if_users_reservation, create_movie, create_reservation,
    create_room, create_schedule, create_user, delete_multiple_reservations, delete_reservation,
    get_reservation_by_id, get_reservations_by_user_id, get_reservations_count_for_schedule,
    get_reservations_with_details, get_schedules_with_details, update_reservation, Database,
    DbError,
};
use cinema::models::{NewMovie, NewReservation, NewUser, ReservationChangeset};

fn user(db: &mut Database, email: &str) -> i32 {
    create_user(db, NewUser { email, password: "hash" }).unwrap()
}

fn screening(db: &mut Database, capacity: i32) -> i32 {
    let movie = create_movie(
        db,
        NewMovie { title: "Inception", year: 2010, director: "Christopher Nolan", poster: "" },
    )
    .unwrap();
    let room = create_room(db, capacity, "A").unwrap();
    create_schedule(db, movie, room, 1_700_000_000).unwrap()
}

fn book(db: &mut Database, user_id: i32, schedule_id: i32) -> Result<i32, DbError> {
    create_reservation(db, NewReservation { user_id, schedule_id })
}

#[test]
fn create_returns_new_row_id() {
    let mut db = Database::new();
    let u = user(&mut db, "a@example.com");
    let s = screening(&mut db, 5);
    let id = book(&mut db, u, s).unwrap();
    let row = get_reservation_by_id(&db, id).unwrap();
    assert_eq!((row.id, row.user_id, row.schedule_id), (id, u, s));
    let other = user(&mut db, "b@example.com");
    assert_eq!(book(&mut db, other, s), Ok(id + 1));
}

#[test]
fn duplicate_create_is_unique_violation_and_leaves_one_row() {
    let mut db = Database::new();
    let u = user(&mut db, "a@example.com");
    let s = screening(&mut db, 5);
    assert!(book(&mut db, u, s).is_ok());
    assert_eq!(book(&mut db, u, s), Err(DbError::UniqueViolation));
    assert_eq!(get_reservations_by_user_id(&db, u).len(), 1);
    assert_eq!(get_reservations_count_for_schedule(&db, s), 1);
}

#[test]
fn capacity_one_admits_one_and_rolls_back_the_second() {
    let mut db = Database::new();
    let a = user(&mut db, "a@example.com");
    let b = user(&mut db, "b@example.com");
    let s = screening(&mut db, 1);
    assert!(book(&mut db, a, s).is_ok());
    assert_eq!(book(&mut db, b, s), Err(DbError::CapacityExceeded));
    assert_eq!(get_reservations_count_for_schedule(&db, s), 1);
    assert!(get_reservations_by_user_id(&db, b).is_empty());
    assert!(!check_if_capacity_exceeded(&db, s));
}

#[test]
fn count_equal_to_capacity_is_not_exceeded() {
    let mut db = Database::new();
    let a = user(&mut db, "a@example.com");
    let b = user(&mut db, "b@example.com");
    let s = screening(&mut db, 2);
    book(&mut db, a, s).unwrap();
    book(&mut db, b, s).unwrap();
    assert_eq!(get_reservations_count_for_schedule(&db, s), 2);
    assert!(!check_if_capacity_exceeded(&db, s));
}

#[test]
fn absent_schedule_is_never_exceeded() {
    let db = Database::new();
    assert!(!check_if_capacity_exceeded(&db, 42));
    assert_eq!(get_reservations_count_for_schedule(&db, 42), 0);
}

#[test]
fn many_creates_fill_exactly_to_capacity() {
    let mut db = Database::new();
    let s = screening(&mut db, 3);
    let mut ok = 0;
    let mut full = 0;
    for k in 0..7 {
        let u = user(&mut db, &format!("u{k}@example.com"));
        match book(&mut db, u, s) {
            Ok(_) => ok += 1,
            Err(DbError::CapacityExceeded) => full += 1,
            Err(e) => panic!("unexpected {e:?}"),
        }
    }
    assert_eq!((ok, full), (3, 4));
    assert_eq!(get_reservations_count_for_schedule(&db, s), 3);
}

#[test]
fn counts_never_pass_capacity_over_mixed_writes() {
    let mut db = Database::new();
    let s1 = screening(&mut db, 2);
    let s2 = screening(&mut db, 1);
    let users: Vec<i32> = (0..4).map(|k| user(&mut db, &format!("m{k}@example.com"))).collect();
    let mut ids = Vec::new();
    for &u in &users {
        if let Ok(id) = book(&mut db, u, s1) {
            ids.push(id);
        }
        let _ = book(&mut db, u, s2);
    }
    for &id in &ids {
        let _ = update_reservation(
            &mut db,
            id,
            ReservationChangeset { user_id: None, schedule_id: Some(s2) },
        );
    }
    assert!(get_reservations_count_for_schedule(&db, s1) <= 2);
    assert!(get_reservations_count_for_schedule(&db, s2) <= 1);
    assert_eq!(ids.len(), 2);
}

#[test]
fn create_with_missing_references_is_not_found() {
    let mut db = Database::new();
    let u = user(&mut db, "a@example.com");
    let s = screening(&mut db, 2);
    assert_eq!(book(&mut db, u, s + 100), Err(DbError::NotFound));
    assert_eq!(book(&mut db, u + 100, s), Err(DbError::NotFound));
    assert_eq!(get_reservations_count_for_schedule(&db, s), 0);
}

#[test]
fn room_without_seats_is_check_violation() {
    let mut db = Database::new();
    assert_eq!(create_room(&mut db, 0, "broken"), Err(DbError::CheckViolation));
    assert_eq!(create_room(&mut db, -3, "broken"), Err(DbError::CheckViolation));
    assert_eq!(create_room(&mut db, 1, "fine"), Ok(1));
}

#[test]
fn schedule_needs_movie_and_room() {
    let mut db = Database::new();
    let room = create_room(&mut db, 4, "B").unwrap();
    assert_eq!(create_schedule(&mut db, 9, room, 0), Err(DbError::NotFound));
    assert!(get_schedules_with_details(&db).is_empty());
}

#[test]
fn duplicate_email_is_unique_violation() {
    let mut db = Database::new();
    user(&mut db, "a@example.com");
    assert_eq!(
        create_user(&mut db, NewUser { email: "a@example.com", password: "x" }),
        Err(DbError::UniqueViolation)
    );
}

#[test]
fn update_to_full_schedule_keeps_current_schedule() {
    let mut db = Database::new();
    let a = user(&mut db, "a@example.com");
    let b = user(&mut db, "b@example.com");
    let full = screening(&mut db, 1);
    let other = screening(&mut db, 5);
    book(&mut db, a, full).unwrap();
    let mine = book(&mut db, b, other).unwrap();
    let r = update_reservation(
        &mut db,
        mine,
        ReservationChangeset { user_id: None, schedule_id: Some(full) },
    );
    assert_eq!(r, Err(DbError::CapacityExceeded));
    assert_eq!(get_reservation_by_id(&db, mine).unwrap().schedule_id, other);
    assert_eq!(get_reservations_count_for_schedule(&db, full), 1);
}

#[test]
fn update_moves_reservation_and_returns_new_row() {
    let mut db = Database::new();
    let a = user(&mut db, "a@example.com");
    let b = user(&mut db, "b@example.com");
    let s1 = screening(&mut db, 2);
    let s2 = screening(&mut db, 2);
    let id = book(&mut db, a, s1).unwrap();
    let row = update_reservation(
        &mut db,
        id,
        ReservationChangeset { user_id: Some(b), schedule_id: Some(s2) },
    )
    .unwrap();
    assert_eq!((row.id, row.user_id, row.schedule_id), (id, b, s2));
    assert_eq!(get_reservations_count_for_schedule(&db, s1), 0);
    assert_eq!(get_reservations_count_for_schedule(&db, s2), 1);
    let same = update_reservation(&mut db, id, ReservationChangeset { user_id: None, schedule_id: None })
        .unwrap();
    assert_eq!(same, row);
}

#[test]
fn update_errors() {
    let mut db = Database::new();
    let a = user(&mut db, "a@example.com");
    let b = user(&mut db, "b@example.com");
    let s1 = screening(&mut db, 2);
    let s2 = screening(&mut db, 2);
    let ra = book(&mut db, a, s1).unwrap();
    book(&mut db, b, s2).unwrap();
    let none = ReservationChangeset { user_id: None, schedule_id: Some(s2) };
    assert_eq!(update_reservation(&mut db, 999, none), Err(DbError::NotFound));
    let missing = ReservationChangeset { user_id: None, schedule_id: Some(777) };
    assert_eq!(update_reservation(&mut db, ra, missing), Err(DbError::NotFound));
    let clash = ReservationChangeset { user_id: Some(b), schedule_id: Some(s2) };
    assert_eq!(update_reservation(&mut db, ra, clash), Err(DbError::UniqueViolation));
    assert_eq!(get_reservation_by_id(&db, ra).unwrap().schedule_id, s1);
}

#[test]
fn ownership_check_is_all_or_nothing() {
    let mut db = Database::new();
    let a = user(&mut db, "a@example.com");
    let b = user(&mut db, "b@example.com");
    let s1 = screening(&mut db, 3);
    let s2 = screening(&mut db, 3);
    let a1 = book(&mut db, a, s1).unwrap();
    let a2 = book(&mut db, a, s2).unwrap();
    let b1 = book(&mut db, b, s1).unwrap();
    assert!(check_if_users_reservation(&db, &vec![a1, a2], a));
    assert!(!check_if_users_reservation(&db, &vec![a1, b1], a));
    assert!(!check_if_users_reservation(&db, &vec![a1, 999], a));
    assert!(!check_if_users_reservation(&db, &vec![a1, a1], a));
    assert!(check_if_users_reservation(&db, &vec![], a));
}

#[test]
fn deletes_count_rows_and_ignore_absent_ids() {
    let mut db = Database::new();
    let a = user(&mut db, "a@example.com");
    let s1 = screening(&mut db, 3);
    let s2 = screening(&mut db, 3);
    let r1 = book(&mut db, a, s1).unwrap();
    let r2 = book(&mut db, a, s2).unwrap();
    assert_eq!(delete_reservation(&mut db, 999), 0);
    assert_eq!(delete_multiple_reservations(&mut db, &vec![r1, r2, 999]), 2);
    assert!(get_reservations_by_user_id(&db, a).is_empty());
    assert_eq!(delete_reservation(&mut db, r1), 0);
}

#[test]
fn details_join_user_movie_room_and_date() {
    let mut db = Database::new();
    let a = user(&mut db, "a@example.com");
    let s = screening(&mut db, 3);
    let id = book(&mut db, a, s).unwrap();
    let details = get_reservations_with_details(&db, a);
    assert_eq!(details.len(), 1);
    let d = &details[0];
    assert_eq!(d.reservation_id, id);
    assert_eq!(d.user_email, "a@example.com");
    assert_eq!(d.movie_title, "Inception");
    assert_eq!(d.room_label, "A");
    assert_eq!(d.schedule_date, 1_700_000_000);
    let joined = get_schedules_with_details(&db);
    assert_eq!(joined.len(), 1);
    assert_eq!(joined[0].0.id, s);
    assert_eq!(joined[0].1.director, "Christopher Nolan");
    assert_eq!(joined[0].2.capacity, 3);
}
