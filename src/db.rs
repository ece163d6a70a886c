use vstd::prelude::*;

use crate::table::{
    count_for, find_row, index_of, keys_fresh_below, lemma_count_for_push,
    lemma_count_for_update, lemma_count_zero_without, lemma_find_row_at, lemma_find_row_push,
    lemma_find_row_some, lemma_found_key_below, Keyed,
};
use crate::models::{
    Movie, NewMovie, NewReservation, NewUser, Reservation, ReservationChangeset,
    ReservationDetail, Room, Schedule, User,
};

verus! {

broadcast use {lemma_find_row_push, lemma_count_for_push};

/// The outcomes of the store that callers are meant to tell apart.
#[derive(Debug, Clone, Copy, PartialEq, Eq, Structural)]
pub enum DbError {
    /// A referenced row (reservation, user, movie, room or schedule) is absent.
    NotFound,
    /// The write would give a user a second reservation for one schedule,
    /// or a second account for one email.
    UniqueViolation,
    /// The write would put more reservations on a schedule than its room has seats.
    CapacityExceeded,
    /// The acting user does not own every reservation named.
    Unauthorized,
    /// A value breaks a rule of the schema (a room without seats).
    CheckViolation,
    /// The table has handed out every id that an `i32` holds.
    IdSpaceExhausted,
}

/// The state of the store as plain sequences of rows and the next id of each table.
pub struct DbView {
    pub users: Seq<User>,
    pub movies: Seq<Movie>,
    pub rooms: Seq<Room>,
    pub schedules: Seq<Schedule>,
    pub reservations: Seq<Reservation>,
    pub next_user_id: int,
    pub next_movie_id: int,
    pub next_room_id: int,
    pub next_schedule_id: int,
    pub next_reservation_id: int,
}

/// The seats of the room that schedule `sid` is shown in, if both exist.
pub open spec fn schedule_capacity(v: DbView, sid: i32) -> Option<int> {
    match find_row(v.schedules, sid) {
        Some(s) => match find_row(v.rooms, s.room_id) {
            Some(r) => Some(r.capacity as int),
            None => None,
        },
        None => None,
    }
}

/// Schedule `sid` holds strictly more reservations than its room has seats.
/// An absent schedule holds none, so it is never exceeded.
pub open spec fn capacity_exceeded(v: DbView, sid: i32) -> bool {
    match schedule_capacity(v, sid) {
        Some(c) => count_for(v.reservations, sid) > c,
        None => false,
    }
}

/// Some reservation pairs user `uid` with schedule `sid`.
pub open spec fn has_pair(rs: Seq<Reservation>, uid: i32, sid: i32) -> bool {
    exists|i: int| 0 <= i < rs.len() && #[trigger] rs[i].user_id == uid && rs[i].schedule_id == sid
}

/// The rules that hold of the tables at every moment, inside a transaction too.
pub open spec fn tables_wf(v: DbView) -> bool {
    &&& 1 <= v.next_user_id <= i32::MAX
    &&& 1 <= v.next_movie_id <= i32::MAX
    &&& 1 <= v.next_room_id <= i32::MAX
    &&& 1 <= v.next_schedule_id <= i32::MAX
    &&& 1 <= v.next_reservation_id <= i32::MAX
    &&& keys_fresh_below(v.users, v.next_user_id)
    &&& keys_fresh_below(v.movies, v.next_movie_id)
    &&& keys_fresh_below(v.rooms, v.next_room_id)
    &&& keys_fresh_below(v.schedules, v.next_schedule_id)
    &&& keys_fresh_below(v.reservations, v.next_reservation_id)
    &&& forall|i: int, j: int|
        0 <= i < v.users.len() && 0 <= j < v.users.len() && #[trigger] v.users[i].email@
            == #[trigger] v.users[j].email@ ==> i == j
    &&& forall|i: int| 0 <= i < v.rooms.len() ==> #[trigger] v.rooms[i].capacity > 0
    &&& forall|i: int|
        0 <= i < v.schedules.len() ==> find_row(v.movies, (#[trigger] v.schedules[i]).movie_id) is Some
            && find_row(v.rooms, v.schedules[i].room_id) is Some
    &&& forall|i: int|
        0 <= i < v.reservations.len() ==> find_row(v.users, (#[trigger] v.reservations[i]).user_id) is Some
            && find_row(v.schedules, v.reservations[i].schedule_id) is Some
    &&& forall|i: int, j: int|
        0 <= i < v.reservations.len() && 0 <= j < v.reservations.len()
            && #[trigger] v.reservations[i].user_id == #[trigger] v.reservations[j].user_id
            && v.reservations[i].schedule_id == v.reservations[j].schedule_id ==> i == j
}

/// The rules that hold after every commit: those of the tables, and no
/// schedule holds more reservations than its room has seats.
pub open spec fn committed_wf(v: DbView) -> bool {
    &&& tables_wf(v)
    &&& forall|i: int|
        0 <= i < v.schedules.len() ==> !capacity_exceeded(v, #[trigger] v.schedules[i].id)
}

/// Some user has signed up with `email`.
pub open spec fn email_taken(users: Seq<User>, email: Seq<char>) -> bool {
    exists|i: int| 0 <= i < users.len() && #[trigger] users[i].email@ == email
}

/// `v` with `row` added to the reservations and the next reservation id moved past it.
pub open spec fn with_reservation(v: DbView, row: Reservation) -> DbView {
    DbView { reservations: v.reservations.push(row), next_reservation_id: v.next_reservation_id + 1, ..v }
}

/// What creating reservation `n` yields: the errors in the order in which the
/// store meets them (the row's references, its uniqueness, a free id, the
/// room's seats), else the id of the new row.
pub open spec fn create_result(v: DbView, n: NewReservation) -> Result<i32, DbError> {
    if find_row(v.users, n.user_id) is None || find_row(v.schedules, n.schedule_id) is None {
        Err(DbError::NotFound)
    } else if has_pair(v.reservations, n.user_id, n.schedule_id) {
        Err(DbError::UniqueViolation)
    } else if v.next_reservation_id >= i32::MAX {
        Err(DbError::IdSpaceExhausted)
    } else if count_for(v.reservations, n.schedule_id) + 1 > schedule_capacity(v, n.schedule_id)->0 {
        Err(DbError::CapacityExceeded)
    } else {
        Ok(v.next_reservation_id as i32)
    }
}

/// The store after creating reservation `n`: one row more on success, else unchanged.
pub open spec fn create_state(v: DbView, n: NewReservation) -> DbView {
    match create_result(v, n) {
        Ok(id) => with_reservation(v, Reservation { id, user_id: n.user_id, schedule_id: n.schedule_id }),
        Err(_) => v,
    }
}

/// The row that changeset `c` makes of `row`: each field that `c` holds
/// replaces the row's own.
pub open spec fn changed_row(row: Reservation, c: ReservationChangeset) -> Reservation {
    Reservation {
        id: row.id,
        user_id: match c.user_id {
            Some(u) => u,
            None => row.user_id,
        },
        schedule_id: match c.schedule_id {
            Some(s) => s,
            None => row.schedule_id,
        },
    }
}

/// Some reservation other than `id` pairs user `uid` with schedule `sid`.
pub open spec fn has_other_pair(rs: Seq<Reservation>, id: i32, uid: i32, sid: i32) -> bool {
    exists|i: int|
        0 <= i < rs.len() && #[trigger] rs[i].user_id == uid && rs[i].schedule_id == sid && rs[i].id
            != id
}

/// What applying changeset `c` to reservation `id` yields: the errors in the
/// order in which the store meets them, else the updated row. Moving a
/// reservation to another schedule must find a free seat there.
pub open spec fn update_result(v: DbView, id: i32, c: ReservationChangeset) -> Result<Reservation, DbError> {
    match find_row(v.reservations, id) {
        None => Err(DbError::NotFound),
        Some(row) => {
            let new = changed_row(row, c);
            if find_row(v.users, new.user_id) is None || find_row(v.schedules, new.schedule_id) is None {
                Err(DbError::NotFound)
            } else if has_other_pair(v.reservations, id, new.user_id, new.schedule_id) {
                Err(DbError::UniqueViolation)
            } else if new.schedule_id != row.schedule_id && count_for(v.reservations, new.schedule_id)
                + 1 > schedule_capacity(v, new.schedule_id)->0 {
                Err(DbError::CapacityExceeded)
            } else {
                Ok(new)
            }
        },
    }
}

/// The store after applying changeset `c` to reservation `id`: the row
/// replaced on success, else unchanged.
pub open spec fn update_state(v: DbView, id: i32, c: ReservationChangeset) -> DbView {
    match update_result(v, id, c) {
        Ok(new) => DbView {
            reservations: v.reservations.map_values(
                |r: Reservation|
                    if r.id == id {
                        new
                    } else {
                        r
                    },
            ),
            ..v
        },
        Err(_) => v,
    }
}

/// The reservations left after deleting every row whose id is in `ids`, in their order.
pub open spec fn without_ids(rs: Seq<Reservation>, ids: Seq<i32>) -> Seq<Reservation>
    decreases rs.len(),
{
    if rs.len() == 0 {
        rs
    } else {
        let rest = without_ids(rs.drop_last(), ids);
        if ids.contains(rs.last().id) {
            rest
        } else {
            rest.push(rs.last())
        }
    }
}

/// Reservation `id` exists and belongs to user `uid`.
pub open spec fn owns(rs: Seq<Reservation>, id: i32, uid: i32) -> bool {
    match find_row(rs, id) {
        Some(r) => r.user_id == uid,
        None => false,
    }
}

/// How many reservations of user `uid` have their id in `ids`.
pub open spec fn owned_count(rs: Seq<Reservation>, ids: Seq<i32>, uid: i32) -> nat
    decreases rs.len(),
{
    if rs.len() == 0 {
        0
    } else {
        owned_count(rs.drop_last(), ids, uid) + if ids.contains(rs.last().id) && rs.last().user_id
            == uid {
            1nat
        } else {
            0nat
        }
    }
}

/// Every id in `ids` names a reservation of user `uid`, and the rows that
/// match are as many as the ids asked for: an absent id, or an id named
/// twice, makes this false.
pub open spec fn all_owned_by(rs: Seq<Reservation>, ids: Seq<i32>, uid: i32) -> bool {
    &&& forall|k: int| 0 <= k < ids.len() ==> owns(rs, #[trigger] ids[k], uid)
    &&& owned_count(rs, ids, uid) == ids.len()
}

/// The reservations of user `uid`, in table order.
pub open spec fn rows_of_user(rs: Seq<Reservation>, uid: i32) -> Seq<Reservation>
    decreases rs.len(),
{
    if rs.len() == 0 {
        rs
    } else {
        let rest = rows_of_user(rs.drop_last(), uid);
        if rs.last().user_id == uid {
            rest.push(rs.last())
        } else {
            rest
        }
    }
}

/// `v` with the reservations whose id is in `ids` deleted.
pub open spec fn without_reservations(v: DbView, ids: Seq<i32>) -> DbView {
    DbView { reservations: without_ids(v.reservations, ids), ..v }
}

/// Detail `d` shows reservation `row` joined with its user, schedule, movie and room.
pub open spec fn shows(v: DbView, row: Reservation, d: ReservationDetail) -> bool {
    let s = find_row(v.schedules, row.schedule_id)->0;
    &&& d.reservation_id == row.id
    &&& d.user_email@ == find_row(v.users, row.user_id)->0.email@
    &&& d.movie_title@ == find_row(v.movies, s.movie_id)->0.title@
    &&& d.room_label@ == find_row(v.rooms, s.room_id)->0.label@
    &&& d.schedule_date == s.date
}

/// Deleting rows keeps the rules of the tables and frees seats, never takes any.
pub proof fn lemma_without_ids(rs: Seq<Reservation>, ids: Seq<i32>, next: int)
    requires
        keys_fresh_below(rs, next),
        forall|i: int, j: int|
            0 <= i < rs.len() && 0 <= j < rs.len() && #[trigger] rs[i].user_id == #[trigger] rs[j].user_id
                && rs[i].schedule_id == rs[j].schedule_id ==> i == j,
    ensures
        without_ids(rs, ids).len() <= rs.len(),
        forall|m: int| 0 <= m < without_ids(rs, ids).len() ==> rs.contains(#[trigger] without_ids(rs, ids)[m]),
        keys_fresh_below(without_ids(rs, ids), next),
        forall|i: int, j: int|
            0 <= i < without_ids(rs, ids).len() && 0 <= j < without_ids(rs, ids).len()
                && #[trigger] without_ids(rs, ids)[i].user_id == #[trigger] without_ids(rs, ids)[j].user_id
                && without_ids(rs, ids)[i].schedule_id == without_ids(rs, ids)[j].schedule_id ==> i == j,
        forall|sid: i32| #[trigger] count_for(without_ids(rs, ids), sid) <= count_for(rs, sid),
    decreases rs.len(),
{
    if rs.len() > 0 {
        let d = rs.drop_last();
        let x = rs.last();
        assert forall|i: int, j: int|
            0 <= i < d.len() && 0 <= j < d.len() && #[trigger] d[i].user_id == #[trigger] d[j].user_id
                && d[i].schedule_id == d[j].schedule_id implies i == j by {
            assert(rs[i].user_id == rs[j].user_id);
        }
        assert forall|i: int, j: int|
            0 <= i < d.len() && 0 <= j < d.len() && #[trigger] d[i].key() == #[trigger] d[j].key() implies i == j by {
            assert(rs[i].key() == rs[j].key());
        }
        lemma_without_ids(d, ids, next);
        let rest = without_ids(d, ids);
        let w = without_ids(rs, ids);
        assert forall|m: int| 0 <= m < rest.len() implies #[trigger] rest[m].key() != x.key()
            && !(rest[m].user_id == x.user_id && rest[m].schedule_id == x.schedule_id) by {
            assert(d.contains(rest[m]));
            let j = choose|j: int| 0 <= j < d.len() && d[j] == rest[m];
            assert(rs[j] == rest[m]);
            assert(rs[j].key() != rs[rs.len() - 1].key());
            assert(rs[j].user_id != rs[rs.len() - 1].user_id || rs[j].schedule_id != rs[rs.len() - 1].schedule_id);
        }
        assert forall|m: int| 0 <= m < w.len() implies rs.contains(#[trigger] w[m]) by {
            if m < rest.len() {
                assert(d.contains(rest[m]));
                let j = choose|j: int| 0 <= j < d.len() && d[j] == rest[m];
                assert(rs[j] == w[m]);
            } else {
                assert(rs[rs.len() - 1] == w[m]);
            }
        }
        assert forall|i: int| 0 <= i < w.len() implies 1 <= #[trigger] w[i].key() < next by {
            assert(rs.contains(w[i]));
        }
        assert forall|i: int, j: int|
            0 <= i < w.len() && 0 <= j < w.len() && #[trigger] w[i].key() == #[trigger] w[j].key() implies i == j by {
            if i < rest.len() && j < rest.len() {
                assert(rest[i].key() == rest[j].key());
            } else if i < rest.len() {
                assert(rest[i].key() != x.key());
            } else if j < rest.len() {
                assert(rest[j].key() != x.key());
            }
        }
        assert forall|i: int, j: int|
            0 <= i < w.len() && 0 <= j < w.len() && #[trigger] w[i].user_id == #[trigger] w[j].user_id
                && w[i].schedule_id == w[j].schedule_id implies i == j by {
            if i < rest.len() && j < rest.len() {
                assert(rest[i].user_id == rest[j].user_id);
            } else if i < rest.len() {
                assert(rest[i].user_id == x.user_id);
            } else if j < rest.len() {
                assert(rest[j].user_id == x.user_id);
            }
        }
        assert forall|sid: i32| #[trigger] count_for(w, sid) <= count_for(rs, sid) by {
            assert(count_for(rest, sid) <= count_for(d, sid));
        }
    }
}

/// The user who signed up with `email`; the last one if several had.
pub open spec fn user_with_email(users: Seq<User>, email: Seq<char>) -> Option<User>
    decreases users.len(),
{
    if users.len() == 0 {
        None
    } else if users.last().email@ == email {
        Some(users.last())
    } else {
        user_with_email(users.drop_last(), email)
    }
}

/// The store: the tables of the schema, held in memory.
///
/// Every mutation takes `&mut Database`, so one transaction runs at a time
/// on a given store; a server shares it behind a lock. The check that a
/// reservation fits and the insert it guards can therefore never interleave
/// with another transaction's.
pub struct Database {
    users: Vec<User>,
    movies: Vec<Movie>,
    rooms: Vec<Room>,
    schedules: Vec<Schedule>,
    reservations: Vec<Reservation>,
    next_user_id: i32,
    next_movie_id: i32,
    next_room_id: i32,
    next_schedule_id: i32,
    next_reservation_id: i32,
}

impl View for Database {
    type V = DbView;

    closed spec fn view(&self) -> DbView {
        DbView {
            users: self.users@,
            movies: self.movies@,
            rooms: self.rooms@,
            schedules: self.schedules@,
            reservations: self.reservations@,
            next_user_id: self.next_user_id as int,
            next_movie_id: self.next_movie_id as int,
            next_room_id: self.next_room_id as int,
            next_schedule_id: self.next_schedule_id as int,
            next_reservation_id: self.next_reservation_id as int,
        }
    }
}

impl Database {
    /// An empty store whose tables hand out ids from 1.
    pub fn new() -> (r: Database)
        ensures
            r@.users.len() == 0,
            r@.movies.len() == 0,
            r@.rooms.len() == 0,
            r@.schedules.len() == 0,
            r@.reservations.len() == 0,
            r@.next_user_id == 1,
            r@.next_movie_id == 1,
            r@.next_room_id == 1,
            r@.next_schedule_id == 1,
            r@.next_reservation_id == 1,
            committed_wf(r@),
    {
        Database {
            users: Vec::new(),
            movies: Vec::new(),
            rooms: Vec::new(),
            schedules: Vec::new(),
            reservations: Vec::new(),
            next_user_id: 1,
            next_movie_id: 1,
            next_room_id: 1,
            next_schedule_id: 1,
            next_reservation_id: 1,
        }
    }
}

/// Whether schedule `schedule_id` holds strictly more reservations than its
/// room has seats; `false` for an absent schedule. A count equal to the
/// capacity is not exceeded.
pub fn check_if_capacity_exceeded(conn: &Database, schedule_id: i32) -> (r: bool)
    requires
        tables_wf(conn@),
    ensures
        r == capacity_exceeded(conn@, schedule_id),
{
    let si = index_of(&conn.schedules, schedule_id);
    match si {
        None => false,
        Some(si) => {
            let ri = index_of(&conn.rooms, conn.schedules[si].room_id);
            match ri {
                None => false,
                Some(ri) => {
                    let count = count_reservations(&conn.reservations, schedule_id);
                    let capacity = conn.rooms[ri].capacity;
                    count > capacity as usize
                },
            }
        },
    }
}

fn count_reservations(rs: &Vec<Reservation>, sid: i32) -> (r: usize)
    ensures
        r == count_for(rs@, sid),
{
    let mut n: usize = 0;
    let mut i: usize = 0;
    while i < rs.len()
        invariant
            i <= rs@.len(),
            n == count_for(rs@.subrange(0, i as int), sid),
            n <= i,
        decreases rs@.len() - i,
    {
        assert(rs@.subrange(0, i + 1) =~= rs@.subrange(0, i as int).push(rs@[i as int]));
        if rs[i].schedule_id == sid {
            n = n + 1;
        }
        i = i + 1;
    }
    assert(rs@.subrange(0, i as int) =~= rs@);
    n
}

/// Adds a user. Fails with `UniqueViolation` where the email is taken.
pub fn create_user(conn: &mut Database, new_user: NewUser) -> (r: Result<i32, DbError>)
    requires
        committed_wf(old(conn)@),
    ensures
        committed_wf(final(conn)@),
        r is Ok <==> !email_taken(old(conn)@.users, new_user.email@) && old(conn)@.next_user_id
            < i32::MAX,
        match r {
            Ok(id) => {
                &&& id == old(conn)@.next_user_id
                &&& final(conn)@.users.len() == old(conn)@.users.len() + 1
                &&& final(conn)@.users.drop_last() == old(conn)@.users
                &&& final(conn)@.users.last().id == id
                &&& final(conn)@.users.last().email@ == new_user.email@
                &&& final(conn)@.users.last().password@ == new_user.password@
                &&& final(conn)@ == DbView {
                    users: final(conn)@.users,
                    next_user_id: id + 1,
                    ..old(conn)@
                }
            },
            Err(e) => {
                &&& final(conn)@ == old(conn)@
                &&& e == if email_taken(old(conn)@.users, new_user.email@) {
                    DbError::UniqueViolation
                } else {
                    DbError::IdSpaceExhausted
                }
            },
        },
{
    let email = new_user.email.to_owned();
    let mut i: usize = 0;
    while i < conn.users.len()
        invariant
            i <= conn@.users.len(),
            conn@ == old(conn)@,
            committed_wf(conn@),
            email@ == new_user.email@,
            forall|j: int| 0 <= j < i ==> #[trigger] conn@.users[j].email@ != email@,
        decreases conn@.users.len() - i,
    {
        if conn.users[i].email == email {
            assert(conn@.users[i as int].email@ == new_user.email@);
            return Err(DbError::UniqueViolation);
        }
        i = i + 1;
    }
    if conn.next_user_id == i32::MAX {
        return Err(DbError::IdSpaceExhausted);
    }
    let id = conn.next_user_id;
    let user = User { id, email, password: new_user.password.to_owned() };
    conn.users.push(user);
    conn.next_user_id = id + 1;
    proof {
        assert(conn@.users.drop_last() =~= old(conn)@.users);
        assert forall|i: int| 0 <= i < conn@.schedules.len() implies !capacity_exceeded(
            conn@,
            #[trigger] conn@.schedules[i].id,
        ) by {
            assert(!capacity_exceeded(old(conn)@, old(conn)@.schedules[i].id));
        }
        assert forall|i: int| 0 <= i < conn@.reservations.len() implies find_row(
            conn@.users,
            #[trigger] conn@.reservations[i].user_id,
        ) is Some by {
            assert(find_row(old(conn)@.users, conn@.reservations[i].user_id) is Some);
        }
    }
    Ok(id)
}

/// Adds a movie and returns its id.
pub fn create_movie(conn: &mut Database, new_movie: NewMovie) -> (r: Result<i32, DbError>)
    requires
        committed_wf(old(conn)@),
    ensures
        committed_wf(final(conn)@),
        r is Ok <==> old(conn)@.next_movie_id < i32::MAX,
        match r {
            Ok(id) => {
                &&& id == old(conn)@.next_movie_id
                &&& final(conn)@.movies.len() == old(conn)@.movies.len() + 1
                &&& final(conn)@.movies.drop_last() == old(conn)@.movies
                &&& final(conn)@.movies.last().id == id
                &&& final(conn)@.movies.last().title@ == new_movie.title@
                &&& final(conn)@.movies.last().year == new_movie.year
                &&& final(conn)@.movies.last().director@ == new_movie.director@
                &&& final(conn)@.movies.last().poster@ == new_movie.poster@
                &&& final(conn)@ == DbView {
                    movies: final(conn)@.movies,
                    next_movie_id: id + 1,
                    ..old(conn)@
                }
            },
            Err(e) => final(conn)@ == old(conn)@ && e == DbError::IdSpaceExhausted,
        },
{
    if conn.next_movie_id == i32::MAX {
        return Err(DbError::IdSpaceExhausted);
    }
    let id = conn.next_movie_id;
    let movie = Movie {
        id,
        title: new_movie.title.to_owned(),
        year: new_movie.year,
        director: new_movie.director.to_owned(),
        poster: new_movie.poster.to_owned(),
    };
    conn.movies.push(movie);
    conn.next_movie_id = id + 1;
    proof {
        assert(conn@.movies.drop_last() =~= old(conn)@.movies);
        assert forall|i: int| 0 <= i < conn@.schedules.len() implies !capacity_exceeded(
            conn@,
            #[trigger] conn@.schedules[i].id,
        ) by {
            assert(!capacity_exceeded(old(conn)@, old(conn)@.schedules[i].id));
        }
        assert forall|i: int| 0 <= i < conn@.schedules.len() implies find_row(
            conn@.movies,
            #[trigger] conn@.schedules[i].movie_id,
        ) is Some by {
            assert(find_row(old(conn)@.movies, conn@.schedules[i].movie_id) is Some);
        }
    }
    Ok(id)
}

/// Adds a room with `capacity` seats. A room must have at least one seat.
pub fn create_room(conn: &mut Database, capacity: i32, label: &str) -> (r: Result<i32, DbError>)
    requires
        committed_wf(old(conn)@),
    ensures
        committed_wf(final(conn)@),
        r is Ok <==> capacity > 0 && old(conn)@.next_room_id < i32::MAX,
        match r {
            Ok(id) => {
                &&& id == old(conn)@.next_room_id
                &&& final(conn)@.rooms.len() == old(conn)@.rooms.len() + 1
                &&& final(conn)@.rooms.drop_last() == old(conn)@.rooms
                &&& final(conn)@.rooms.last().id == id
                &&& final(conn)@.rooms.last().capacity == capacity
                &&& final(conn)@.rooms.last().label@ == label@
                &&& final(conn)@ == DbView {
                    rooms: final(conn)@.rooms,
                    next_room_id: id + 1,
                    ..old(conn)@
                }
            },
            Err(e) => {
                &&& final(conn)@ == old(conn)@
                &&& e == if capacity <= 0 {
                    DbError::CheckViolation
                } else {
                    DbError::IdSpaceExhausted
                }
            },
        },
{
    if capacity <= 0 {
        return Err(DbError::CheckViolation);
    }
    if conn.next_room_id == i32::MAX {
        return Err(DbError::IdSpaceExhausted);
    }
    let id = conn.next_room_id;
    conn.rooms.push(Room { id, capacity, label: label.to_owned() });
    conn.next_room_id = id + 1;
    proof {
        assert(conn@.rooms.drop_last() =~= old(conn)@.rooms);
        assert forall|i: int| 0 <= i < conn@.schedules.len() implies find_row(
            conn@.rooms,
            #[trigger] conn@.schedules[i].room_id,
        ) is Some && !capacity_exceeded(conn@, conn@.schedules[i].id) by {
            let sc = old(conn)@.schedules[i];
            assert(find_row(old(conn)@.movies, sc.movie_id) is Some);
            lemma_found_key_below(old(conn)@.rooms, sc.room_id, old(conn)@.next_room_id);
            lemma_find_row_at(old(conn)@.schedules, i);
            assert(!capacity_exceeded(old(conn)@, sc.id));
        }
    }
    Ok(id)
}

/// Adds a screening of movie `movie_id` in room `room_id`.
pub fn create_schedule(conn: &mut Database, movie_id: i32, room_id: i32, date: i64) -> (r: Result<
    i32,
    DbError,
>)
    requires
        committed_wf(old(conn)@),
    ensures
        committed_wf(final(conn)@),
        r is Ok <==> find_row(old(conn)@.movies, movie_id) is Some && find_row(
            old(conn)@.rooms,
            room_id,
        ) is Some && old(conn)@.next_schedule_id < i32::MAX,
        match r {
            Ok(id) => {
                &&& id == old(conn)@.next_schedule_id
                &&& final(conn)@ == DbView {
                    schedules: old(conn)@.schedules.push(
                        Schedule { id, movie_id, room_id, date },
                    ),
                    next_schedule_id: id + 1,
                    ..old(conn)@
                }
            },
            Err(e) => {
                &&& final(conn)@ == old(conn)@
                &&& e == if find_row(old(conn)@.movies, movie_id) is None || find_row(
                    old(conn)@.rooms,
                    room_id,
                ) is None {
                    DbError::NotFound
                } else {
                    DbError::IdSpaceExhausted
                }
            },
        },
{
    if index_of(&conn.movies, movie_id).is_none() || index_of(&conn.rooms, room_id).is_none() {
        return Err(DbError::NotFound);
    }
    if conn.next_schedule_id == i32::MAX {
        return Err(DbError::IdSpaceExhausted);
    }
    let id = conn.next_schedule_id;
    conn.schedules.push(Schedule { id, movie_id, room_id, date });
    conn.next_schedule_id = id + 1;
    proof {
        assert forall|i: int| 0 <= i < conn@.schedules.len() implies !capacity_exceeded(
            conn@,
            #[trigger] conn@.schedules[i].id,
        ) by {
            if i < old(conn)@.schedules.len() {
                lemma_find_row_at(old(conn)@.schedules, i);
                lemma_found_key_below(old(conn)@.schedules, old(conn)@.schedules[i].id, id as int);
                assert(!capacity_exceeded(old(conn)@, old(conn)@.schedules[i].id));
            } else {
                assert forall|k: int| 0 <= k < conn@.reservations.len() implies #[trigger] conn@.reservations[k].schedule_id != id by {
                    let rk = conn@.reservations[k];
                    assert(find_row(old(conn)@.users, rk.user_id) is Some);
                    lemma_found_key_below(old(conn)@.schedules, rk.schedule_id, old(conn)@.next_schedule_id);
                }
                lemma_count_zero_without(conn@.reservations, id);
            }
        }
        assert forall|i: int| 0 <= i < conn@.reservations.len() implies find_row(
            conn@.schedules,
            #[trigger] conn@.reservations[i].schedule_id,
        ) is Some by {
            let rk = old(conn)@.reservations[i];
            assert(find_row(old(conn)@.schedules, rk.schedule_id) is Some);
            lemma_found_key_below(old(conn)@.schedules, rk.schedule_id, id as int);
        }
    }
    Ok(id)
}

/// The index of a reservation that pairs user `uid` with schedule `sid`.
fn pair_index(rs: &Vec<Reservation>, uid: i32, sid: i32) -> (r: Option<usize>)
    ensures
        match r {
            Some(k) => k < rs@.len() && rs@[k as int].user_id == uid && rs@[k as int].schedule_id
                == sid,
            None => !has_pair(rs@, uid, sid),
        },
{
    let mut i: usize = 0;
    while i < rs.len()
        invariant
            i <= rs@.len(),
            forall|j: int|
                0 <= j < i ==> !(#[trigger] rs@[j].user_id == uid && rs@[j].schedule_id == sid),
        decreases rs@.len() - i,
    {
        if rs[i].user_id == uid && rs[i].schedule_id == sid {
            return Some(i);
        }
        i = i + 1;
    }
    None
}

/// The facts about a schedule that `find_row` finds in a well-formed store.
proof fn lemma_schedule_has_room(v: DbView, sid: i32)
    requires
        tables_wf(v),
        find_row(v.schedules, sid) is Some,
    ensures
        schedule_capacity(v, sid) is Some,
        schedule_capacity(v, sid)->0 > 0,
{
    lemma_find_row_some(v.schedules, sid);
    let i = choose|i: int| 0 <= i < v.schedules.len() && v.schedules[i] == find_row(v.schedules, sid)->0;
    assert(find_row(v.rooms, v.schedules[i].room_id) is Some);
    lemma_find_row_some(v.rooms, v.schedules[i].room_id);
    let j = choose|j: int| 0 <= j < v.rooms.len() && v.rooms[j] == find_row(v.rooms, v.schedules[i].room_id)->0;
    assert(v.rooms[j].capacity > 0);
}

/// In a committed store no schedule, present or not, holds more reservations
/// than an `i32` counts.
pub proof fn lemma_count_bounded(v: DbView, sid: i32)
    requires
        committed_wf(v),
    ensures
        count_for(v.reservations, sid) <= i32::MAX,
        find_row(v.schedules, sid) is None ==> count_for(v.reservations, sid) == 0,
{
    if find_row(v.schedules, sid) is Some {
        lemma_find_row_some(v.schedules, sid);
        let i = choose|i: int| 0 <= i < v.schedules.len() && #[trigger] v.schedules[i].key() == sid;
        assert(!capacity_exceeded(v, v.schedules[i].id));
        lemma_schedule_has_room(v, sid);
    } else {
        assert forall|k: int| 0 <= k < v.reservations.len() implies #[trigger] v.reservations[k].schedule_id != sid by {
            assert(find_row(v.schedules, v.reservations[k].schedule_id) is Some);
        }
        lemma_count_zero_without(v.reservations, sid);
    }
}

/// Creates a reservation in one transaction: the row is inserted, then the
/// capacity of its schedule is checked, and an overflow undoes the insert.
/// On success the new row's id is returned.
pub fn create_reservation(conn: &mut Database, new_reservation: NewReservation) -> (r: Result<i32, DbError>)
    requires
        committed_wf(old(conn)@),
    ensures
        committed_wf(final(conn)@),
        r == create_result(old(conn)@, new_reservation),
        final(conn)@ == create_state(old(conn)@, new_reservation),
{
    let n = new_reservation;
    if index_of(&conn.users, n.user_id).is_none() || index_of(&conn.schedules, n.schedule_id).is_none() {
        return Err(DbError::NotFound);
    }
    if pair_index(&conn.reservations, n.user_id, n.schedule_id).is_some() {
        return Err(DbError::UniqueViolation);
    }
    if conn.next_reservation_id == i32::MAX {
        return Err(DbError::IdSpaceExhausted);
    }
    let id = conn.next_reservation_id;
    let row = Reservation { id, user_id: n.user_id, schedule_id: n.schedule_id };
    proof {
        lemma_schedule_has_room(old(conn)@, n.schedule_id);
    }
    conn.next_reservation_id = id + 1;
    conn.reservations.push(row);
    assert(conn@ == with_reservation(old(conn)@, row));
    if check_if_capacity_exceeded(conn, n.schedule_id) {
        conn.reservations.pop();
        conn.next_reservation_id = id;
        assert(conn@.reservations =~= old(conn)@.reservations);
        return Err(DbError::CapacityExceeded);
    }
    proof {
        let v = conn@;
        let o = old(conn)@;
        assert forall|i: int| 0 <= i < v.schedules.len() implies !capacity_exceeded(
            v,
            #[trigger] v.schedules[i].id,
        ) by {
            assert(!capacity_exceeded(o, o.schedules[i].id));
        }
    }
    Ok(id)
}

/// Applies changeset `c` to reservation `reservation_id` in one transaction.
/// Where the changeset names a schedule, that schedule's capacity is checked
/// after the write, and an overflow undoes the whole update. On success the
/// updated row is returned.
pub fn update_reservation(conn: &mut Database, reservation_id: i32, changeset: ReservationChangeset) -> (r:
    Result<Reservation, DbError>)
    requires
        committed_wf(old(conn)@),
    ensures
        committed_wf(final(conn)@),
        r == update_result(old(conn)@, reservation_id, changeset),
        final(conn)@ == update_state(old(conn)@, reservation_id, changeset),
{
    let k = match index_of(&conn.reservations, reservation_id) {
        None => return Err(DbError::NotFound),
        Some(k) => k,
    };
    let row = conn.reservations[k];
    let new_row = Reservation {
        id: row.id,
        user_id: match changeset.user_id {
            Some(u) => u,
            None => row.user_id,
        },
        schedule_id: match changeset.schedule_id {
            Some(s) => s,
            None => row.schedule_id,
        },
    };
    if index_of(&conn.users, new_row.user_id).is_none() || index_of(&conn.schedules, new_row.schedule_id).is_none() {
        return Err(DbError::NotFound);
    }
    let ghost o = old(conn)@;
    proof {
        assert(o.reservations[k as int].id == reservation_id);
        assert forall|i: int| 0 <= i < o.reservations.len() && #[trigger] o.reservations[i].id == reservation_id implies i == k by {
            assert(o.reservations[i].key() == o.reservations[k as int].key());
        }
    }
    match pair_index(&conn.reservations, new_row.user_id, new_row.schedule_id) {
        Some(j) => {
            if conn.reservations[j].id != reservation_id {
                return Err(DbError::UniqueViolation);
            }
        },
        None => {},
    }
    assert(!has_other_pair(o.reservations, reservation_id, new_row.user_id, new_row.schedule_id));
    proof {
        lemma_schedule_has_room(o, new_row.schedule_id);
        assert forall|sid: i32| #[trigger] count_for(o.reservations.update(k as int, new_row), sid) + (if row.schedule_id == sid {
            1int
        } else {
            0int
        }) == count_for(o.reservations, sid) + (if new_row.schedule_id == sid {
            1int
        } else {
            0int
        }) by {
            lemma_count_for_update(o.reservations, k as int, new_row, sid);
        }
    }
    conn.reservations.set(k, new_row);
    assert(conn@.reservations == o.reservations.update(k as int, new_row));
    if changeset.schedule_id.is_some() && check_if_capacity_exceeded(conn, new_row.schedule_id) {
        conn.reservations.set(k, row);
        assert(conn@.reservations =~= o.reservations);
        return Err(DbError::CapacityExceeded);
    }
    proof {
        let v = conn@;
        assert(v.reservations =~= o.reservations.map_values(
            |r: Reservation|
                if r.id == reservation_id {
                    new_row
                } else {
                    r
                },
        ));
        assert forall|i: int| 0 <= i < v.schedules.len() implies !capacity_exceeded(
            v,
            #[trigger] v.schedules[i].id,
        ) by {
            assert(!capacity_exceeded(o, o.schedules[i].id));
        }
    }
    Ok(new_row)
}

/// Whether `ids` holds `x`.
fn contains_id(ids: &Vec<i32>, x: i32) -> (r: bool)
    ensures
        r == ids@.contains(x),
{
    let mut i: usize = 0;
    while i < ids.len()
        invariant
            i <= ids@.len(),
            forall|j: int| 0 <= j < i ==> #[trigger] ids@[j] != x,
        decreases ids@.len() - i,
    {
        if ids[i] == x {
            assert(ids@[i as int] == x);
            return true;
        }
        i = i + 1;
    }
    false
}

/// Deletes every reservation whose id is in `res_ids` and returns how many
/// rows went. Ids that name no row are no error. Ownership is the caller's
/// to check beforehand.
pub fn delete_multiple_reservations(conn: &mut Database, res_ids: &Vec<i32>) -> (r: usize)
    requires
        committed_wf(old(conn)@),
    ensures
        committed_wf(final(conn)@),
        final(conn)@ == without_reservations(old(conn)@, res_ids@),
        r == old(conn)@.reservations.len() - final(conn)@.reservations.len(),
{
    let ghost o = old(conn)@;
    let mut kept: Vec<Reservation> = Vec::new();
    let mut i: usize = 0;
    while i < conn.reservations.len()
        invariant
            conn@ == o,
            i <= o.reservations.len(),
            kept@ == without_ids(o.reservations.subrange(0, i as int), res_ids@),
        decreases o.reservations.len() - i,
    {
        assert(o.reservations.subrange(0, i + 1).drop_last() =~= o.reservations.subrange(0, i as int));
        let row = conn.reservations[i];
        if !contains_id(res_ids, row.id) {
            kept.push(row);
        }
        i = i + 1;
    }
    assert(o.reservations.subrange(0, i as int) =~= o.reservations);
    proof {
        lemma_without_ids(o.reservations, res_ids@, o.next_reservation_id);
    }
    let removed = conn.reservations.len() - kept.len();
    conn.reservations = kept;
    proof {
        let v = conn@;
        assert forall|i: int| 0 <= i < v.reservations.len() implies find_row(
            v.users,
            (#[trigger] v.reservations[i]).user_id,
        ) is Some && find_row(v.schedules, v.reservations[i].schedule_id) is Some by {
            assert(o.reservations.contains(v.reservations[i]));
        }
        assert forall|i: int| 0 <= i < v.schedules.len() implies !capacity_exceeded(
            v,
            #[trigger] v.schedules[i].id,
        ) by {
            assert(!capacity_exceeded(o, o.schedules[i].id));
            assert(count_for(v.reservations, v.schedules[i].id) <= count_for(o.reservations, v.schedules[i].id));
        }
    }
    removed
}

/// Deletes reservation `res_id`, if it exists, and returns how many rows went.
pub fn delete_reservation(conn: &mut Database, res_id: i32) -> (r: usize)
    requires
        committed_wf(old(conn)@),
    ensures
        committed_wf(final(conn)@),
        final(conn)@ == without_reservations(old(conn)@, seq![res_id]),
        r == old(conn)@.reservations.len() - final(conn)@.reservations.len(),
{
    let ids: Vec<i32> = vec![res_id];
    assert(ids@ =~= seq![res_id]);
    delete_multiple_reservations(conn, &ids)
}

/// Whether every id in `res_ids` names a reservation of user `user_id_value`,
/// the rows that match being as many as the ids. Deletes are refused unless it holds.
pub fn check_if_users_reservation(conn: &Database, res_ids: &Vec<i32>, user_id_value: i32) -> (r: bool)
    requires
        tables_wf(conn@),
    ensures
        r == all_owned_by(conn@.reservations, res_ids@, user_id_value),
{
    let rs = &conn.reservations;
    let mut n: usize = 0;
    let mut i: usize = 0;
    while i < rs.len()
        invariant
            i <= rs@.len(),
            n == owned_count(rs@.subrange(0, i as int), res_ids@, user_id_value),
            n <= i,
        decreases rs@.len() - i,
    {
        assert(rs@.subrange(0, i + 1).drop_last() =~= rs@.subrange(0, i as int));
        if rs[i].user_id == user_id_value && contains_id(res_ids, rs[i].id) {
            n = n + 1;
        }
        i = i + 1;
    }
    assert(rs@.subrange(0, i as int) =~= rs@);
    if n != res_ids.len() {
        return false;
    }
    let mut k: usize = 0;
    while k < res_ids.len()
        invariant
            k <= res_ids@.len(),
            rs@ == conn@.reservations,
            forall|j: int| 0 <= j < k ==> owns(rs@, #[trigger] res_ids@[j], user_id_value),
        decreases res_ids@.len() - k,
    {
        match index_of(rs, res_ids[k]) {
            None => {
                assert(!owns(rs@, res_ids@[k as int], user_id_value));
                return false;
            },
            Some(at) => {
                if rs[at].user_id != user_id_value {
                    assert(!owns(rs@, res_ids@[k as int], user_id_value));
                    return false;
                }
            },
        }
        k = k + 1;
    }
    true
}

/// The movie and the room of a schedule that `find_row` finds exist.
proof fn lemma_schedule_refs(v: DbView, sid: i32)
    requires
        tables_wf(v),
        find_row(v.schedules, sid) is Some,
    ensures
        find_row(v.movies, find_row(v.schedules, sid)->0.movie_id) is Some,
        find_row(v.rooms, find_row(v.schedules, sid)->0.room_id) is Some,
{
    lemma_find_row_some(v.schedules, sid);
    let i = choose|i: int| 0 <= i < v.schedules.len() && v.schedules[i] == find_row(v.schedules, sid)->0;
    assert(find_row(v.movies, v.schedules[i].movie_id) is Some);
}

/// Every schedule joined with its movie and its room, in table order.
pub fn get_schedules_with_details(conn: &Database) -> (r: Vec<(Schedule, Movie, Room)>)
    requires
        tables_wf(conn@),
    ensures
        r@.len() == conn@.schedules.len(),
        forall|i: int|
            0 <= i < r@.len() ==> (#[trigger] r@[i]).0 == conn@.schedules[i] && find_row(
                conn@.movies,
                conn@.schedules[i].movie_id,
            ) == Some(r@[i].1) && find_row(conn@.rooms, conn@.schedules[i].room_id) == Some(
                r@[i].2,
            ),
{
    let mut out: Vec<(Schedule, Movie, Room)> = Vec::new();
    let mut i: usize = 0;
    while i < conn.schedules.len()
        invariant
            tables_wf(conn@),
            i <= conn@.schedules.len(),
            out@.len() == i,
            forall|j: int|
                0 <= j < i ==> (#[trigger] out@[j]).0 == conn@.schedules[j] && find_row(
                    conn@.movies,
                    conn@.schedules[j].movie_id,
                ) == Some(out@[j].1) && find_row(conn@.rooms, conn@.schedules[j].room_id) == Some(
                    out@[j].2,
                ),
        decreases conn@.schedules.len() - i,
    {
        let s = conn.schedules[i];
        assert(find_row(conn@.movies, conn@.schedules[i as int].movie_id) is Some);
        let m = index_of(&conn.movies, s.movie_id).unwrap();
        let r = index_of(&conn.rooms, s.room_id).unwrap();
        out.push((s, conn.movies[m].clone(), conn.rooms[r].clone()));
        i = i + 1;
    }
    out
}

/// The reservations of user `user_id`, each joined with the user's email,
/// the movie's title, the room's label and the schedule's date.
pub fn get_reservations_with_details(conn: &Database, user_id: i32) -> (r: Vec<ReservationDetail>)
    requires
        tables_wf(conn@),
    ensures
        r@.len() == rows_of_user(conn@.reservations, user_id).len(),
        forall|i: int|
            0 <= i < r@.len() ==> shows(conn@, rows_of_user(conn@.reservations, user_id)[i], #[trigger] r@[i]),
{
    let ghost v = conn@;
    let rs = &conn.reservations;
    let mut out: Vec<ReservationDetail> = Vec::new();
    let mut i: usize = 0;
    while i < rs.len()
        invariant
            tables_wf(v),
            v == conn@,
            rs@ == v.reservations,
            i <= rs@.len(),
            out@.len() == rows_of_user(rs@.subrange(0, i as int), user_id).len(),
            forall|m: int|
                0 <= m < out@.len() ==> shows(v, rows_of_user(rs@.subrange(0, i as int), user_id)[m], #[trigger] out@[m]),
        decreases rs@.len() - i,
    {
        assert(rs@.subrange(0, i + 1).drop_last() =~= rs@.subrange(0, i as int));
        let row = rs[i];
        if row.user_id == user_id {
            assert(find_row(v.users, v.reservations[i as int].user_id) is Some);
            proof {
                lemma_schedule_refs(v, row.schedule_id);
            }
            let u = index_of(&conn.users, row.user_id).unwrap();
            let s = index_of(&conn.schedules, row.schedule_id).unwrap();
            let sched = conn.schedules[s];
            let m = index_of(&conn.movies, sched.movie_id).unwrap();
            let ro = index_of(&conn.rooms, sched.room_id).unwrap();
            let d = ReservationDetail {
                reservation_id: row.id,
                user_email: conn.users[u].email.clone(),
                movie_title: conn.movies[m].title.clone(),
                room_label: conn.rooms[ro].label.clone(),
                schedule_date: sched.date,
            };
            out.push(d);
        }
        i = i + 1;
    }
    assert(rs@.subrange(0, i as int) =~= rs@);
    out
}

/// The user who signed up with `email`, if any.
pub fn get_user_by_email(conn: &Database, email: &String) -> (r: Option<User>)
    ensures
        r == user_with_email(conn@.users, email@),
{
    let us = &conn.users;
    let mut i: usize = us.len();
    assert(us@.subrange(0, i as int) =~= us@);
    while i > 0
        invariant
            i <= us@.len(),
            us@ == conn@.users,
            user_with_email(us@, email@) == user_with_email(us@.subrange(0, i as int), email@),
        decreases i,
    {
        assert(us@.subrange(0, i as int).drop_last() =~= us@.subrange(0, i - 1));
        if us[i - 1].email == *email {
            assert(us@.subrange(0, i as int).last() == us@[i - 1]);
            return Some(us[i - 1].clone());
        }
        i = i - 1;
    }
    None
}

/// A schedule of a committed store holds no more reservations than its room has seats.
pub proof fn lemma_count_within_capacity(v: DbView, i: int)
    requires
        committed_wf(v),
        0 <= i < v.schedules.len(),
    ensures
        find_row(v.rooms, v.schedules[i].room_id) is Some,
        count_for(v.reservations, v.schedules[i].id) <= find_row(v.rooms, v.schedules[i].room_id)->0.capacity,
        find_row(v.rooms, v.schedules[i].room_id)->0.capacity > 0,
{
    lemma_find_row_at(v.schedules, i);
    assert(!capacity_exceeded(v, v.schedules[i].id));
    lemma_schedule_has_room(v, v.schedules[i].id);
}

/// Reservation `res_id`, or `NotFound`.
pub fn get_reservation_by_id(conn: &Database, res_id: i32) -> (r: Result<Reservation, DbError>)
    ensures
        r == match find_row(conn@.reservations, res_id) {
            Some(row) => Ok(row),
            None => Err(DbError::NotFound),
        },
{
    match index_of(&conn.reservations, res_id) {
        Some(k) => Ok(conn.reservations[k]),
        None => Err(DbError::NotFound),
    }
}

/// Movie `movie_id`, or `NotFound`.
pub fn get_movie_by_id(conn: &Database, movie_id: i32) -> (r: Result<Movie, DbError>)
    ensures
        r == match find_row(conn@.movies, movie_id) {
            Some(m) => Ok(m),
            None => Err(DbError::NotFound),
        },
{
    match index_of(&conn.movies, movie_id) {
        Some(k) => Ok(conn.movies[k].clone()),
        None => Err(DbError::NotFound),
    }
}

/// Every movie, in table order.
pub fn get_all_movies(conn: &Database) -> (r: Vec<Movie>)
    ensures
        r@ == conn@.movies,
{
    let mut out: Vec<Movie> = Vec::new();
    let mut i: usize = 0;
    while i < conn.movies.len()
        invariant
            i <= conn@.movies.len(),
            out@ == conn@.movies.subrange(0, i as int),
        decreases conn@.movies.len() - i,
    {
        out.push(conn.movies[i].clone());
        i = i + 1;
        assert(out@ =~= conn@.movies.subrange(0, i as int));
    }
    assert(out@ =~= conn@.movies);
    out
}

/// The reservations of user `user_id_param`, in table order.
pub fn get_reservations_by_user_id(conn: &Database, user_id_param: i32) -> (r: Vec<Reservation>)
    ensures
        r@ == rows_of_user(conn@.reservations, user_id_param),
{
    let rs = &conn.reservations;
    let mut out: Vec<Reservation> = Vec::new();
    let mut i: usize = 0;
    while i < rs.len()
        invariant
            i <= rs@.len(),
            out@ == rows_of_user(rs@.subrange(0, i as int), user_id_param),
        decreases rs@.len() - i,
    {
        assert(rs@.subrange(0, i + 1).drop_last() =~= rs@.subrange(0, i as int));
        if rs[i].user_id == user_id_param {
            out.push(rs[i]);
        }
        i = i + 1;
    }
    assert(rs@.subrange(0, i as int) =~= rs@);
    out
}

/// How many reservations schedule `schedule_id_param` holds.
pub fn get_reservations_count_for_schedule(conn: &Database, schedule_id_param: i32) -> (r: i64)
    requires
        committed_wf(conn@),
    ensures
        r == count_for(conn@.reservations, schedule_id_param),
{
    proof {
        lemma_count_bounded(conn@, schedule_id_param);
    }
    count_reservations(&conn.reservations, schedule_id_param) as i64
}

} // verus!
