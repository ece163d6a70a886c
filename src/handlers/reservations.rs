use vstd::prelude::*;
use vstd::utf8::encode_utf8;

use crate::app_error::AppError;
use crate::db::{
    all_owned_by, check_if_users_reservation, committed_wf, create_result, create_state,
    get_reservation_by_id, get_reservations_count_for_schedule, get_reservations_with_details,
    get_schedules_with_details, lemma_count_within_capacity, rows_of_user, shows, tables_wf,
    update_result, update_state, without_reservations, Database, DbError, DbView,
};
use crate::db;
use crate::forms::{
    comma_pieces, parse_all, parse_reservation_ids, BulkDeleteFormData, CreateReservationForm,
    UpdateReservationForm,
};
use crate::models::{NewReservation, Reservation, ReservationChangeset, Schedule, ScheduleDisplayInfo, User};
use crate::table::{count_for, find_row, lemma_count_positive, lemma_find_row_some};
use crate::templates_structs::{ReservationFormTemplate, ReservationsListTemplate};

verus! {

/// The message of a bulk delete whose id list does not parse.
pub const INVALID_ID_FORMAT: &'static str = "Invalid reservation ID format.";

/// The message of a bulk delete that names no reservation.
pub const NOTHING_SELECTED: &'static str = "No reservations selected for deletion.";

/// The seats still free on schedule `s`. While reservation `editing` is
/// being moved, its own seat counts as free.
pub open spec fn seats_left(v: DbView, s: Schedule, editing: Option<Reservation>) -> int {
    let held = count_for(v.reservations, s.id) as int;
    let own = match editing {
        Some(e) => e.schedule_id == s.id,
        None => false,
    };
    find_row(v.rooms, s.room_id)->0.capacity - (if own {
        held - 1
    } else {
        held
    })
}

/// `infos` shows every schedule of `v`, in table order, with its movie, its
/// room and its free seats.
pub open spec fn displays(v: DbView, infos: Seq<ScheduleDisplayInfo>, editing: Option<Reservation>) -> bool {
    &&& infos.len() == v.schedules.len()
    &&& forall|i: int|
        0 <= i < infos.len() ==> {
            &&& (#[trigger] infos[i]).schedule == v.schedules[i]
            &&& find_row(v.movies, v.schedules[i].movie_id) == Some(infos[i].movie)
            &&& find_row(v.rooms, v.schedules[i].room_id) == Some(infos[i].room)
            &&& infos[i].available_seats == seats_left(v, v.schedules[i], editing)
        }
}

fn schedule_display_infos(conn: &Database, editing: Option<Reservation>) -> (r: Vec<ScheduleDisplayInfo>)
    requires
        committed_wf(conn@),
        editing matches Some(e) ==> find_row(conn@.reservations, e.id) == Some(e),
    ensures
        displays(conn@, r@, editing),
{
    let details = get_schedules_with_details(conn);
    let mut out: Vec<ScheduleDisplayInfo> = Vec::new();
    let mut i: usize = 0;
    while i < details.len()
        invariant
            committed_wf(conn@),
            editing matches Some(e) ==> find_row(conn@.reservations, e.id) == Some(e),
            details@.len() == conn@.schedules.len(),
            forall|j: int|
                0 <= j < details@.len() ==> (#[trigger] details@[j]).0 == conn@.schedules[j] && find_row(
                    conn@.movies,
                    conn@.schedules[j].movie_id,
                ) == Some(details@[j].1) && find_row(conn@.rooms, conn@.schedules[j].room_id) == Some(
                    details@[j].2,
                ),
            i <= details@.len(),
            out@.len() == i,
            forall|j: int|
                0 <= j < i ==> {
                    &&& (#[trigger] out@[j]).schedule == conn@.schedules[j]
                    &&& find_row(conn@.movies, conn@.schedules[j].movie_id) == Some(out@[j].movie)
                    &&& find_row(conn@.rooms, conn@.schedules[j].room_id) == Some(out@[j].room)
                    &&& out@[j].available_seats == seats_left(conn@, conn@.schedules[j], editing)
                },
        decreases details@.len() - i,
    {
        let s = details[i].0;
        assert(details@[i as int].0 == conn@.schedules[i as int]);
        let count = get_reservations_count_for_schedule(conn, s.id);
        let own = match editing {
            Some(e) => e.schedule_id == s.id,
            None => false,
        };
        proof {
            lemma_count_within_capacity(conn@, i as int);
            if let Some(e) = editing {
                if own {
                    lemma_find_row_some(conn@.reservations, e.id);
                    let k = choose|k: int| 0 <= k < conn@.reservations.len() && conn@.reservations[k] == e;
                    lemma_count_positive(conn@.reservations, k);
                }
            }
        }
        let held: i64 = if own {
            count - 1
        } else {
            count
        };
        let capacity = details[i].2.capacity;
        let available = capacity - held as i32;
        out.push(
            ScheduleDisplayInfo {
                schedule: s,
                movie: details[i].1.clone(),
                room: details[i].2.clone(),
                available_seats: available,
            },
        );
        i = i + 1;
    }
    out
}

/// The reservation list of `user`, with `error_message` to report.
pub fn list_reservations(conn: &Database, user: &User, error_message: Option<String>) -> (r: ReservationsListTemplate)
    requires
        tables_wf(conn@),
    ensures
        r.error_message == error_message,
        r.reservations@.len() == rows_of_user(conn@.reservations, user.id).len(),
        forall|i: int|
            0 <= i < r.reservations@.len() ==> shows(
                conn@,
                rows_of_user(conn@.reservations, user.id)[i],
                #[trigger] r.reservations@[i],
            ),
{
    ReservationsListTemplate { reservations: get_reservations_with_details(conn, user.id), error_message }
}

/// The form that creates a reservation: every schedule with its free seats.
pub fn show_create_reservation_form(conn: &Database) -> (r: ReservationFormTemplate)
    requires
        committed_wf(conn@),
    ensures
        r.reservation is None,
        displays(conn@, r.schedules@, None),
{
    ReservationFormTemplate { reservation: None, schedules: schedule_display_infos(conn, None) }
}

/// The form that moves reservation `id`: the reservation, and every
/// schedule with its free seats, the reservation's own seat counted as free.
pub fn show_update_reservation_form(conn: &Database, id: i32) -> (r: Result<ReservationFormTemplate, AppError>)
    requires
        committed_wf(conn@),
    ensures
        match find_row(conn@.reservations, id) {
            Some(row) => r matches Ok(t) && t.reservation == Some(row) && displays(conn@, t.schedules@, Some(row)),
            None => r matches Err(AppError::NotFound),
        },
{
    proof {
        lemma_find_row_some(conn@.reservations, id);
    }
    match get_reservation_by_id(conn, id) {
        Ok(row) => Ok(
            ReservationFormTemplate {
                reservation: Some(row),
                schedules: schedule_display_infos(conn, Some(row)),
            },
        ),
        Err(_) => Err(AppError::NotFound),
    }
}

/// Books the schedule picked on `form` for `user`.
pub fn create_reservation(conn: &mut Database, user: &User, form: CreateReservationForm) -> (r: Result<i32, DbError>)
    requires
        committed_wf(old(conn)@),
    ensures
        committed_wf(final(conn)@),
        r == create_result(old(conn)@, NewReservation { user_id: user.id, schedule_id: form.schedule_id }),
        final(conn)@ == create_state(old(conn)@, NewReservation { user_id: user.id, schedule_id: form.schedule_id }),
{
    db::create_reservation(conn, NewReservation { user_id: user.id, schedule_id: form.schedule_id })
}

/// Moves reservation `id` to the schedule picked on `form`, and makes it `user`'s.
pub fn update_reservation(conn: &mut Database, user: &User, id: i32, form: UpdateReservationForm) -> (r: Result<Reservation, DbError>)
    requires
        committed_wf(old(conn)@),
    ensures
        committed_wf(final(conn)@),
        r == update_result(old(conn)@, id, ReservationChangeset { user_id: Some(user.id), schedule_id: Some(form.schedule_id) }),
        final(conn)@ == update_state(old(conn)@, id, ReservationChangeset { user_id: Some(user.id), schedule_id: Some(form.schedule_id) }),
{
    db::update_reservation(conn, id, ReservationChangeset { user_id: Some(user.id), schedule_id: Some(form.schedule_id) })
}

/// Deletes reservation `id` if it is `user`'s; else refuses with
/// `Unauthorized` and deletes nothing.
pub fn delete_reservation(conn: &mut Database, user: &User, id: i32) -> (r: Result<usize, DbError>)
    requires
        committed_wf(old(conn)@),
    ensures
        committed_wf(final(conn)@),
        if all_owned_by(old(conn)@.reservations, seq![id], user.id) {
            &&& final(conn)@ == without_reservations(old(conn)@, seq![id])
            &&& r == Ok::<usize, DbError>((old(conn)@.reservations.len() - final(conn)@.reservations.len()) as usize)
        } else {
            &&& final(conn)@ == old(conn)@
            &&& r == Err::<usize, DbError>(DbError::Unauthorized)
        },
{
    let ids: Vec<i32> = vec![id];
    assert(ids@ =~= seq![id]);
    if !check_if_users_reservation(conn, &ids, user.id) {
        return Err(DbError::Unauthorized);
    }
    Ok(db::delete_reservation(conn, id))
}

/// Deletes the reservations listed on `form`, all or none: a list that does
/// not parse, or names none, is a bad request; one that names a reservation
/// that is not `user`'s is refused. Nothing is deleted unless every id passes.
pub fn delete_multiple_reservations(conn: &mut Database, user: &User, form: &BulkDeleteFormData) -> (r: Result<usize, AppError>)
    requires
        committed_wf(old(conn)@),
    ensures
        committed_wf(final(conn)@),
        match parse_all(comma_pieces(encode_utf8(form.reservation_ids@))) {
            None => final(conn)@ == old(conn)@ && (r matches Err(AppError::BadRequest(m)) && m@ == INVALID_ID_FORMAT@),
            Some(ids) => if ids.len() == 0 {
                final(conn)@ == old(conn)@ && (r matches Err(AppError::BadRequest(m)) && m@ == NOTHING_SELECTED@)
            } else if !all_owned_by(old(conn)@.reservations, ids, user.id) {
                final(conn)@ == old(conn)@ && (r matches Err(AppError::UnauthorizedError))
            } else {
                &&& final(conn)@ == without_reservations(old(conn)@, ids)
                &&& r == Ok::<usize, AppError>((old(conn)@.reservations.len() - final(conn)@.reservations.len()) as usize)
            },
        },
{
    let ids = match parse_reservation_ids(form.reservation_ids.as_str()) {
        Some(ids) => ids,
        None => return Err(AppError::BadRequest(INVALID_ID_FORMAT.to_owned())),
    };
    if ids.len() == 0 {
        return Err(AppError::BadRequest(NOTHING_SELECTED.to_owned()));
    }
    if !check_if_users_reservation(conn, &ids, user.id) {
        return Err(AppError::UnauthorizedError);
    }
    Ok(db::delete_multiple_reservations(conn, &ids))
}

} // verus!
