use vstd::prelude::*;

use crate::models::{Movie, Reservation, Room, Schedule, User};

verus! {

/// A row with an integer primary key.
pub trait Keyed {
    spec fn key(&self) -> i32;

    fn get_key(&self) -> (r: i32)
        ensures
            r == self.key(),
    ;
}

impl Keyed for User {
    open spec fn key(&self) -> i32 {
        self.id
    }

    fn get_key(&self) -> (r: i32) {
        self.id
    }
}

impl Keyed for Movie {
    open spec fn key(&self) -> i32 {
        self.id
    }

    fn get_key(&self) -> (r: i32) {
        self.id
    }
}

impl Keyed for Room {
    open spec fn key(&self) -> i32 {
        self.id
    }

    fn get_key(&self) -> (r: i32) {
        self.id
    }
}

impl Keyed for Schedule {
    open spec fn key(&self) -> i32 {
        self.id
    }

    fn get_key(&self) -> (r: i32) {
        self.id
    }
}

impl Keyed for Reservation {
    open spec fn key(&self) -> i32 {
        self.id
    }

    fn get_key(&self) -> (r: i32) {
        self.id
    }
}

/// The row with key `k`; the last one if several had it.
pub open spec fn find_row<T: Keyed>(s: Seq<T>, k: i32) -> Option<T>
    decreases s.len(),
{
    if s.len() == 0 {
        None
    } else if s.last().key() == k {
        Some(s.last())
    } else {
        find_row(s.drop_last(), k)
    }
}

pub broadcast proof fn lemma_find_row_push<T: Keyed>(s: Seq<T>, x: T, k: i32)
    ensures
        #[trigger] find_row(s.push(x), k) == (if x.key() == k {
            Some(x)
        } else {
            find_row(s, k)
        }),
{
    assert(s.push(x).drop_last() =~= s);
}

/// The keys of `s` are distinct and all lie in `1 .. next`.
pub open spec fn keys_fresh_below<T: Keyed>(s: Seq<T>, next: int) -> bool {
    &&& forall|i: int| 0 <= i < s.len() ==> 1 <= #[trigger] s[i].key() < next
    &&& forall|i: int, j: int|
        0 <= i < s.len() && 0 <= j < s.len() && #[trigger] s[i].key() == #[trigger] s[j].key()
            ==> i == j
}

/// Under distinct keys, the row that `find_row` gives is the one at its index.
pub proof fn lemma_find_row_at<T: Keyed>(s: Seq<T>, i: int)
    requires
        0 <= i < s.len(),
        forall|a: int, b: int|
            0 <= a < s.len() && 0 <= b < s.len() && #[trigger] s[a].key() == #[trigger] s[b].key()
                ==> a == b,
    ensures
        find_row(s, s[i].key()) == Some(s[i]),
    decreases s.len(),
{
    if i != s.len() - 1 {
        lemma_find_row_at(s.drop_last(), i);
    }
}

/// `find_row` finds a row exactly when some row has the key.
pub proof fn lemma_find_row_some<T: Keyed>(s: Seq<T>, k: i32)
    ensures
        find_row(s, k) is Some <==> exists|i: int| 0 <= i < s.len() && #[trigger] s[i].key() == k,
        find_row(s, k) is Some ==> find_row(s, k)->0.key() == k
            && exists|i: int| 0 <= i < s.len() && s[i] == find_row(s, k)->0,
    decreases s.len(),
{
    if s.len() > 0 {
        lemma_find_row_some(s.drop_last(), k);
        if find_row(s.drop_last(), k) is Some {
            let i = choose|i: int| 0 <= i < s.len() - 1 && s.drop_last()[i] == find_row(s.drop_last(), k)->0;
            assert(s[i] == s.drop_last()[i]);
        }
        if exists|i: int| 0 <= i < s.len() && #[trigger] s[i].key() == k {
            let i = choose|i: int| 0 <= i < s.len() && #[trigger] s[i].key() == k;
            if i < s.len() - 1 {
                assert(s.drop_last()[i].key() == k);
            }
        }
    }
}

/// The index of the row with key `k`, searching from the end.
pub fn index_of<T: Keyed>(v: &Vec<T>, k: i32) -> (r: Option<usize>)
    ensures
        match r {
            Some(i) => i < v@.len() && find_row(v@, k) == Some(v@[i as int]) && v@[i as int].key() == k,
            None => find_row(v@, k) is None,
        },
{
    let mut i: usize = v.len();
    assert(v@.subrange(0, i as int) =~= v@);
    while i > 0
        invariant
            i <= v@.len(),
            find_row(v@, k) == find_row(v@.subrange(0, i as int), k),
        decreases i,
    {
        assert(v@.subrange(0, i as int).drop_last() =~= v@.subrange(0, i - 1));
        if v[i - 1].get_key() == k {
            return Some(i - 1);
        }
        i = i - 1;
    }
    None
}

/// How many reservations hold a seat of schedule `sid`.
pub open spec fn count_for(rs: Seq<Reservation>, sid: i32) -> nat
    decreases rs.len(),
{
    if rs.len() == 0 {
        0
    } else {
        count_for(rs.drop_last(), sid) + if rs.last().schedule_id == sid {
            1nat
        } else {
            0nat
        }
    }
}

pub broadcast proof fn lemma_count_for_push(rs: Seq<Reservation>, x: Reservation, sid: i32)
    ensures
        #[trigger] count_for(rs.push(x), sid) == count_for(rs, sid) + if x.schedule_id == sid {
            1nat
        } else {
            0nat
        },
{
    assert(rs.push(x).drop_last() =~= rs);
}

/// A key that `find_row` finds lies below the next id of its table.
pub proof fn lemma_found_key_below<T: Keyed>(s: Seq<T>, k: i32, next: int)
    requires
        keys_fresh_below(s, next),
        find_row(s, k) is Some,
    ensures
        1 <= k < next,
{
    lemma_find_row_some(s, k);
    let i = choose|i: int| 0 <= i < s.len() && #[trigger] s[i].key() == k;
}

/// Replacing one row moves at most one seat between two schedules.
pub proof fn lemma_count_for_update(rs: Seq<Reservation>, k: int, x: Reservation, sid: i32)
    requires
        0 <= k < rs.len(),
    ensures
        count_for(rs.update(k, x), sid) + (if rs[k].schedule_id == sid {
            1int
        } else {
            0int
        }) == count_for(rs, sid) + (if x.schedule_id == sid {
            1int
        } else {
            0int
        }),
    decreases rs.len(),
{
    if k == rs.len() - 1 {
        assert(rs.update(k, x).drop_last() =~= rs.drop_last());
    } else {
        lemma_count_for_update(rs.drop_last(), k, x, sid);
        assert(rs.update(k, x).drop_last() =~= rs.drop_last().update(k, x));
    }
}

/// A schedule that some reservation names holds at least one.
pub proof fn lemma_count_positive(rs: Seq<Reservation>, k: int)
    requires
        0 <= k < rs.len(),
    ensures
        count_for(rs, rs[k].schedule_id) >= 1,
    decreases rs.len(),
{
    if k < rs.len() - 1 {
        lemma_count_positive(rs.drop_last(), k);
    }
}

/// A schedule that no reservation names holds none.
pub proof fn lemma_count_zero_without(rs: Seq<Reservation>, sid: i32)
    requires
        forall|i: int| 0 <= i < rs.len() ==> #[trigger] rs[i].schedule_id != sid,
    ensures
        count_for(rs, sid) == 0,
    decreases rs.len(),
{
    if rs.len() > 0 {
        assert(rs.last().schedule_id != sid);
        lemma_count_zero_without(rs.drop_last(), sid);
    }
}

} // verus!
