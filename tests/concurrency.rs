use std::sync::{Arc, Mutex};

use cinema::db::{
    create_movie, create_reservation, create_room, create_schedule, create_user,
    get_reservations_count_for_schedule, Database, DbError,
};
use cinema::models::{NewMovie, NewReservation, NewUser};

#[test]
fn concurrent_creates_stop_at_capacity() {
    let mut db = Database::new();
    let movie = create_movie(
        &mut db,
        NewMovie { title: "Heat", year: 1995, director: "Michael Mann", poster: "" },
    )
    .unwrap();
    let room = create_room(&mut db, 4, "Small").unwrap();
    let schedule = create_schedule(&mut db, movie, room, 0).unwrap();
    let users: Vec<i32> = (0..32)
        .map(|k| create_user(&mut db, NewUser { email: &format!("c{k}@example.com"), password: "h" }).unwrap())
        .collect();
    let store = Arc::new(Mutex::new(db));
    let runtime = tokio::runtime::Builder::new_multi_thread().worker_threads(8).build().unwrap();
    let outcomes: Vec<Result<i32, DbError>> = runtime.block_on(async {
        let tasks: Vec<_> = users
            .iter()
            .map(|&user_id| {
                let store = Arc::clone(&store);
                tokio::spawn(async move {
                    let mut db = store.lock().unwrap();
                    create_reservation(&mut db, NewReservation { user_id, schedule_id: schedule })
                })
            })
            .collect();
        let mut out = Vec::new();
        for t in tasks {
            out.push(t.await.unwrap());
        }
        out
    });
    let ok = outcomes.iter().filter(|r| r.is_ok()).count();
    let full = outcomes.iter().filter(|r| **r == Err(DbError::CapacityExceeded)).count();
    assert_eq!((ok, full), (4, 28));
    assert_eq!(get_reservations_count_for_schedule(&store.lock().unwrap(), schedule), 4);
}
