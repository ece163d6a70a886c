use vstd::prelude::*;

use crate::db::{
    DbError, DbView, capacity_exceeded, changed_row, committed_wf, create_result, create_state,
    has_other_pair, has_pair, schedule_capacity, update_result, update_state, with_reservation,
};
use crate::models::{NewReservation, Reservation, ReservationChangeset};
use crate::table::{
    count_for, find_row, lemma_count_for_push, lemma_count_for_update, lemma_find_row_at,
    lemma_find_row_push, lemma_find_row_some, Keyed,
};

verus! {

broadcast use {lemma_find_row_push, lemma_count_for_push};

/// A committed write to the reservations.
pub enum Mutation {
    Create(NewReservation),
    Update(i32, ReservationChangeset),
}

/// The store after mutation `m`, committed or rolled back.
pub open spec fn apply(v: DbView, m: Mutation) -> DbView {
    match m {
        Mutation::Create(n) => create_state(v, n),
        Mutation::Update(id, c) => update_state(v, id, c),
    }
}

/// The store after the mutations `ms`, one after the other.
pub open spec fn apply_all(v: DbView, ms: Seq<Mutation>) -> DbView
    decreases ms.len(),
{
    if ms.len() == 0 {
        v
    } else {
        apply(apply_all(v, ms.drop_last()), ms.last())
    }
}

proof fn lemma_room_of(v: DbView, sid: i32)
    requires
        committed_wf(v),
        find_row(v.schedules, sid) is Some,
    ensures
        schedule_capacity(v, sid) is Some,
        count_for(v.reservations, sid) <= schedule_capacity(v, sid)->0,
{
    lemma_find_row_some(v.schedules, sid);
    let i = choose|i: int| 0 <= i < v.schedules.len() && #[trigger] v.schedules[i].key() == sid;
    assert(!capacity_exceeded(v, v.schedules[i].id));
    let j = choose|j: int| 0 <= j < v.schedules.len() && v.schedules[j] == find_row(v.schedules, sid)->0;
    assert(find_row(v.rooms, v.schedules[j].room_id) is Some);
}

/// Creating a reservation, whether it commits or rolls back, keeps every
/// rule of a committed store.
pub proof fn lemma_create_keeps_rules(v: DbView, n: NewReservation)
    requires
        committed_wf(v),
    ensures
        committed_wf(create_state(v, n)),
{
    if let Ok(id) = create_result(v, n) {
        let row = Reservation { id, user_id: n.user_id, schedule_id: n.schedule_id };
        let w = with_reservation(v, row);
        lemma_room_of(v, n.schedule_id);
        assert forall|i: int| 0 <= i < w.schedules.len() implies !capacity_exceeded(
            w,
            #[trigger] w.schedules[i].id,
        ) by {
            assert(!capacity_exceeded(v, v.schedules[i].id));
        }
    }
}

/// Updating a reservation, whether it commits or rolls back, keeps every
/// rule of a committed store.
pub proof fn lemma_update_keeps_rules(v: DbView, id: i32, c: ReservationChangeset)
    requires
        committed_wf(v),
    ensures
        committed_wf(update_state(v, id, c)),
{
    if let Ok(new) = update_result(v, id, c) {
        let rs = v.reservations;
        let row = find_row(rs, id)->0;
        lemma_find_row_some(rs, id);
        let k = choose|k: int| 0 <= k < rs.len() && rs[k] == row;
        assert forall|i: int| 0 <= i < rs.len() && #[trigger] rs[i].id == id implies i == k by {
            assert(rs[i].key() == rs[k].key());
        }
        let w = update_state(v, id, c);
        assert(w.reservations =~= rs.update(k, new));
        lemma_room_of(v, new.schedule_id);
        assert forall|i: int| 0 <= i < w.schedules.len() implies !capacity_exceeded(
            w,
            #[trigger] w.schedules[i].id,
        ) by {
            let sid = w.schedules[i].id;
            assert(!capacity_exceeded(v, v.schedules[i].id));
            lemma_count_for_update(rs, k, new, sid);
        }
        assert forall|i: int, j: int|
            0 <= i < w.reservations.len() && 0 <= j < w.reservations.len()
                && #[trigger] w.reservations[i].user_id == #[trigger] w.reservations[j].user_id
                && w.reservations[i].schedule_id == w.reservations[j].schedule_id implies i == j by {
            if i != k && j != k {
                assert(rs[i].user_id == rs[j].user_id);
            }
        }
        assert forall|i: int, j: int|
            0 <= i < w.reservations.len() && 0 <= j < w.reservations.len()
                && #[trigger] w.reservations[i].key() == #[trigger] w.reservations[j].key() implies i == j by {
            assert(rs[i].key() == rs[j].key());
        }
        assert forall|i: int| 0 <= i < w.reservations.len() implies 1 <= #[trigger] w.reservations[i].key() < w.next_reservation_id by {
            assert(1 <= rs[i].key() < v.next_reservation_id);
        }
        assert forall|i: int| 0 <= i < w.reservations.len() implies find_row(w.users, (#[trigger] w.reservations[i]).user_id) is Some
            && find_row(w.schedules, w.reservations[i].schedule_id) is Some by {
            assert(find_row(v.users, (rs[i]).user_id) is Some);
        }
    }
}

/// After any sequence of committed creates and updates, no schedule holds
/// more reservations than its room has seats.
pub proof fn lemma_capacity_holds_after_commits(v: DbView, ms: Seq<Mutation>)
    requires
        committed_wf(v),
    ensures
        committed_wf(apply_all(v, ms)),
        forall|i: int|
            0 <= i < apply_all(v, ms).schedules.len() ==> count_for(
                apply_all(v, ms).reservations,
                #[trigger] apply_all(v, ms).schedules[i].id,
            ) <= schedule_capacity(apply_all(v, ms), apply_all(v, ms).schedules[i].id)->0,
    decreases ms.len(),
{
    if ms.len() > 0 {
        lemma_capacity_holds_after_commits(v, ms.drop_last());
        let u = apply_all(v, ms.drop_last());
        match ms.last() {
            Mutation::Create(n) => lemma_create_keeps_rules(u, n),
            Mutation::Update(id, c) => lemma_update_keeps_rules(u, id, c),
        }
    }
    let w = apply_all(v, ms);
    assert forall|i: int| 0 <= i < w.schedules.len() implies count_for(
        w.reservations,
        #[trigger] w.schedules[i].id,
    ) <= schedule_capacity(w, w.schedules[i].id)->0 by {
        lemma_find_row_at(w.schedules, i);
        lemma_room_of(w, w.schedules[i].id);
    }
}

/// Creating the same reservation twice: the second attempt fails with
/// `UniqueViolation` and changes nothing, and exactly one row pairs the user
/// with the schedule.
pub proof fn lemma_second_create_is_duplicate(v: DbView, n: NewReservation)
    requires
        committed_wf(v),
        create_result(v, n) is Ok,
    ensures
        create_result(create_state(v, n), n) == Err::<i32, DbError>(DbError::UniqueViolation),
        create_state(create_state(v, n), n) == create_state(v, n),
        has_pair(create_state(v, n).reservations, n.user_id, n.schedule_id),
        forall|i: int|
            0 <= i < create_state(v, n).reservations.len() && #[trigger] create_state(
                v,
                n,
            ).reservations[i].user_id == n.user_id && create_state(v, n).reservations[i].schedule_id
                == n.schedule_id ==> i == create_state(v, n).reservations.len() - 1,
{
    let w = create_state(v, n);
    let last = w.reservations.len() - 1;
    assert(w.reservations[last].user_id == n.user_id);
    assert forall|i: int|
        0 <= i < w.reservations.len() && #[trigger] w.reservations[i].user_id == n.user_id
            && w.reservations[i].schedule_id == n.schedule_id implies i == last by {
        if i < last {
            assert(v.reservations[i].user_id == n.user_id);
        }
    }
}

/// A create on a schedule whose room is full fails with `CapacityExceeded`,
/// where nothing else stops it first, and leaves the store as it was.
pub proof fn lemma_full_schedule_rejects_create(v: DbView, n: NewReservation)
    requires
        committed_wf(v),
        schedule_capacity(v, n.schedule_id) is Some,
        count_for(v.reservations, n.schedule_id) >= schedule_capacity(v, n.schedule_id)->0,
    ensures
        create_result(v, n) is Err,
        create_state(v, n) == v,
        find_row(v.users, n.user_id) is Some && !has_pair(v.reservations, n.user_id, n.schedule_id)
            && v.next_reservation_id < i32::MAX ==> create_result(v, n) == Err::<i32, DbError>(
            DbError::CapacityExceeded,
        ),
{
}

/// Moving a reservation to another schedule whose room is full fails and
/// leaves the store as it was, so the reservation keeps its schedule. Where
/// nothing else stops it first, the error is `CapacityExceeded`.
pub proof fn lemma_full_schedule_rejects_move(v: DbView, id: i32, c: ReservationChangeset)
    requires
        committed_wf(v),
        find_row(v.reservations, id) is Some,
        changed_row(find_row(v.reservations, id)->0, c).schedule_id != find_row(v.reservations, id)->0.schedule_id,
        schedule_capacity(v, changed_row(find_row(v.reservations, id)->0, c).schedule_id) is Some,
        count_for(v.reservations, changed_row(find_row(v.reservations, id)->0, c).schedule_id)
            >= schedule_capacity(v, changed_row(find_row(v.reservations, id)->0, c).schedule_id)->0,
    ensures
        update_result(v, id, c) is Err,
        update_state(v, id, c) == v,
        find_row(update_state(v, id, c).reservations, id)->0.schedule_id == find_row(v.reservations, id)->0.schedule_id,
        ({
            let new = changed_row(find_row(v.reservations, id)->0, c);
            find_row(v.users, new.user_id) is Some && !has_other_pair(v.reservations, id, new.user_id, new.schedule_id)
                ==> update_result(v, id, c) == Err::<Reservation, DbError>(DbError::CapacityExceeded)
        }),
{
}

/// The store after the create attempts `ns`, one after the other.
pub open spec fn apply_creates(v: DbView, ns: Seq<NewReservation>) -> DbView
    decreases ns.len(),
{
    if ns.len() == 0 {
        v
    } else {
        create_state(apply_creates(v, ns.drop_last()), ns.last())
    }
}

/// Create attempts by distinct users on one schedule, whose room has `K`
/// seats and which held `c` reservations, leave exactly `min(c + N, K)`
/// reservations on it: the attempts beyond the seats all fail, none of the
/// others does.
pub proof fn lemma_creates_fill_to_capacity(v: DbView, ns: Seq<NewReservation>, sid: i32)
    requires
        committed_wf(v),
        find_row(v.schedules, sid) is Some,
        forall|k: int|
            0 <= k < ns.len() ==> (#[trigger] ns[k]).schedule_id == sid && find_row(v.users, ns[k].user_id) is Some
                && !has_pair(v.reservations, ns[k].user_id, sid),
        forall|k: int, l: int|
            0 <= k < ns.len() && 0 <= l < ns.len() && (#[trigger] ns[k]).user_id == (#[trigger] ns[l]).user_id
                ==> k == l,
        v.next_reservation_id + ns.len() < i32::MAX,
    ensures
        count_for(apply_creates(v, ns).reservations, sid) == (if count_for(v.reservations, sid) + ns.len()
            <= schedule_capacity(v, sid)->0 {
            count_for(v.reservations, sid) + ns.len() as int
        } else {
            schedule_capacity(v, sid)->0
        }),
        committed_wf(apply_creates(v, ns)),
        apply_creates(v, ns).users == v.users,
        apply_creates(v, ns).schedules == v.schedules,
        apply_creates(v, ns).rooms == v.rooms,
        v.next_reservation_id <= apply_creates(v, ns).next_reservation_id <= v.next_reservation_id + ns.len(),
        forall|u: i32|
            #[trigger] has_pair(apply_creates(v, ns).reservations, u, sid) ==> has_pair(v.reservations, u, sid)
                || exists|k: int| 0 <= k < ns.len() && (#[trigger] ns[k]).user_id == u,
    decreases ns.len(),
{
    lemma_room_of(v, sid);
    if ns.len() > 0 {
        let d = ns.drop_last();
        let x = ns.last();
        assert forall|k: int| 0 <= k < d.len() implies (#[trigger] d[k]).schedule_id == sid && find_row(v.users, d[k].user_id) is Some
            && !has_pair(v.reservations, d[k].user_id, sid) by {
            assert(d[k] == ns[k]);
        }
        assert forall|k: int, l: int|
            0 <= k < d.len() && 0 <= l < d.len() && (#[trigger] d[k]).user_id == (#[trigger] d[l]).user_id implies k == l by {
            assert(d[k] == ns[k] && d[l] == ns[l]);
        }
        lemma_creates_fill_to_capacity(v, d, sid);
        let u = apply_creates(v, d);
        let w = apply_creates(v, ns);
        lemma_create_keeps_rules(u, x);
        assert(ns[ns.len() - 1] == x);
        if has_pair(u.reservations, x.user_id, sid) {
            if !has_pair(v.reservations, x.user_id, sid) {
                let k = choose|k: int| 0 <= k < d.len() && (#[trigger] d[k]).user_id == x.user_id;
                assert(d[k] == ns[k]);
            }
        }
        assert(!has_pair(u.reservations, x.user_id, sid));
        lemma_room_of(u, sid);
        assert forall|uu: i32| #[trigger] has_pair(w.reservations, uu, sid) implies has_pair(v.reservations, uu, sid)
            || exists|k: int| 0 <= k < ns.len() && (#[trigger] ns[k]).user_id == uu by {
            if !has_pair(u.reservations, uu, sid) {
                if create_result(u, x) is Ok {
                    let i = choose|i: int| 0 <= i < w.reservations.len() && #[trigger] w.reservations[i].user_id == uu
                        && w.reservations[i].schedule_id == sid;
                    if i < u.reservations.len() {
                        assert(u.reservations[i].user_id == uu);
                    }
                    assert(ns[ns.len() - 1].user_id == uu);
                }
            } else if !has_pair(v.reservations, uu, sid) {
                let k = choose|k: int| 0 <= k < d.len() && (#[trigger] d[k]).user_id == uu;
                assert(ns[k] == d[k]);
            }
        }
    }
}

} // verus!
