use vstd::prelude::*;
use vstd::string::{StrSliceExecFns, StringSliceAdditionalSpecFns};

verus! {

/// The fields of the sign-up form.
pub struct RegisterForm {
    pub email: String,
    pub password: String,
    pub password_confirmation: String,
}

/// The fields of the log-in form.
pub struct LoginForm {
    pub email: String,
    pub password: String,
}

/// The schedule picked on the form that creates a reservation.
#[derive(Debug, Clone, Copy, PartialEq, Eq, Structural)]
pub struct CreateReservationForm {
    pub schedule_id: i32,
}

/// The schedule picked on the form that moves a reservation.
#[derive(Debug, Clone, Copy, PartialEq, Eq, Structural)]
pub struct UpdateReservationForm {
    pub schedule_id: i32,
}

/// The ids of the reservations to delete, as the form sends them: decimal
/// integers separated by commas.
#[derive(Debug)]
pub struct BulkDeleteFormData {
    pub reservation_ids: String,
}

/// Which fields of a form break their rule.
#[derive(Debug, Clone, Copy, PartialEq, Eq, Structural)]
pub struct FieldErrors {
    pub email: bool,
    pub password: bool,
    pub password_confirmation: bool,
}

/// What validator's email check says of `s`.
pub uninterp spec fn email_valid(s: Seq<char>) -> bool;

/// Relies on validator's `ValidateEmail::validate_email` on a `String`: the
/// HTML5 address check, which refuses an empty text and one without `@`.
#[verifier::external_body]
fn validate_email_address(s: &String) -> (r: bool)
    ensures
        r == email_valid(s@),
        s@.len() == 0 ==> !r,
        !s@.contains('@') ==> !r,
{
    validator::ValidateEmail::validate_email(s)
}

/// The shortest password accepted, in characters.
pub const MIN_PASSWORD_LEN: usize = 8;

/// The rules of the sign-up form: a valid email address, a password of at
/// least eight characters, and a confirmation equal to the password.
pub open spec fn register_errors(f: RegisterForm) -> FieldErrors {
    FieldErrors {
        email: !email_valid(f.email@),
        password: f.password@.len() < MIN_PASSWORD_LEN,
        password_confirmation: f.password_confirmation@ != f.password@,
    }
}

/// The rules of the log-in form: a valid email address and a password of at
/// least eight characters.
pub open spec fn login_errors(f: LoginForm) -> FieldErrors {
    FieldErrors {
        email: !email_valid(f.email@),
        password: f.password@.len() < MIN_PASSWORD_LEN,
        password_confirmation: false,
    }
}

fn char_count(s: &String) -> (r: usize)
    ensures
        r == s@.len(),
{
    s.as_str().unicode_len()
}

impl RegisterForm {
    /// Which fields break their rule, given whether the email is a valid address.
    pub fn field_errors(&self, email_is_valid: bool) -> (r: FieldErrors)
        ensures
            r == (FieldErrors {
                email: !email_is_valid,
                password: self.password@.len() < MIN_PASSWORD_LEN,
                password_confirmation: self.password_confirmation@ != self.password@,
            }),
    {
        FieldErrors {
            email: !email_is_valid,
            password: char_count(&self.password) < MIN_PASSWORD_LEN,
            password_confirmation: self.password_confirmation != self.password,
        }
    }

    /// `Ok` where every field keeps its rule, else which fields break theirs.
    pub fn validate(&self) -> (r: Result<(), FieldErrors>)
        ensures
            r is Ok <==> register_errors(*self) == (FieldErrors {
                email: false,
                password: false,
                password_confirmation: false,
            }),
            r matches Err(e) ==> e == register_errors(*self),
    {
        let errors = self.field_errors(validate_email_address(&self.email));
        if errors.email || errors.password || errors.password_confirmation {
            Err(errors)
        } else {
            Ok(())
        }
    }
}

impl LoginForm {
    /// Which fields break their rule, given whether the email is a valid address.
    pub fn field_errors(&self, email_is_valid: bool) -> (r: FieldErrors)
        ensures
            r == (FieldErrors {
                email: !email_is_valid,
                password: self.password@.len() < MIN_PASSWORD_LEN,
                password_confirmation: false,
            }),
    {
        FieldErrors {
            email: !email_is_valid,
            password: char_count(&self.password) < MIN_PASSWORD_LEN,
            password_confirmation: false,
        }
    }

    /// `Ok` where every field keeps its rule, else which fields break theirs.
    pub fn validate(&self) -> (r: Result<(), FieldErrors>)
        ensures
            r is Ok <==> login_errors(*self) == (FieldErrors {
                email: false,
                password: false,
                password_confirmation: false,
            }),
            r matches Err(e) ==> e == login_errors(*self),
    {
        let errors = self.field_errors(validate_email_address(&self.email));
        if errors.email || errors.password {
            Err(errors)
        } else {
            Ok(())
        }
    }
}

pub open spec fn is_digit(c: u8) -> bool {
    48 <= c <= 57
}

/// The value of a run of decimal digits.
pub open spec fn digits_value(ds: Seq<u8>) -> int
    decreases ds.len(),
{
    if ds.len() == 0 {
        0
    } else {
        digits_value(ds.drop_last()) * 10 + (ds.last() - 48)
    }
}

/// Every byte of `ds` is a decimal digit.
pub open spec fn all_digits(ds: Seq<u8>) -> bool {
    forall|i: int| 0 <= i < ds.len() ==> is_digit(#[trigger] ds[i])
}

/// `b` starts with a `+` or a `-`.
pub open spec fn has_sign(b: Seq<u8>) -> bool {
    b.len() > 0 && (b[0] == 45 || b[0] == 43)
}

/// The bytes of `b` after its sign, if any.
pub open spec fn unsigned_part(b: Seq<u8>) -> Seq<u8> {
    if has_sign(b) {
        b.subrange(1, b.len() as int)
    } else {
        b
    }
}

/// The value that `b` writes, sign included.
pub open spec fn signed_value(b: Seq<u8>) -> int {
    if has_sign(b) && b[0] == 45 {
        -digits_value(unsigned_part(b))
    } else {
        digits_value(unsigned_part(b))
    }
}

/// The `i32` that `b` writes: an optional `+` or `-`, then one or more
/// decimal digits, nothing else, and a value in range.
pub open spec fn parse_i32_spec(b: Seq<u8>) -> Option<i32> {
    if unsigned_part(b).len() == 0 || !all_digits(unsigned_part(b)) {
        None
    } else if i32::MIN <= signed_value(b) <= i32::MAX {
        Some(signed_value(b) as i32)
    } else {
        None
    }
}

/// The pieces of `b` between commas, as `str::split(',')` cuts them: one
/// more than there are commas, empty pieces included.
pub open spec fn comma_pieces(b: Seq<u8>) -> Seq<Seq<u8>>
    decreases b.len(),
{
    if b.len() == 0 {
        seq![Seq::empty()]
    } else {
        let ps = comma_pieces(b.drop_last());
        if b.last() == 44 {
            ps.push(Seq::empty())
        } else {
            ps.update(ps.len() - 1, ps.last().push(b.last()))
        }
    }
}

/// Every piece read as an `i32`, or `None` where one is not.
pub open spec fn parse_all(ps: Seq<Seq<u8>>) -> Option<Seq<i32>>
    decreases ps.len(),
{
    if ps.len() == 0 {
        Some(Seq::empty())
    } else {
        match (parse_all(ps.drop_last()), parse_i32_spec(ps.last())) {
            (Some(xs), Some(x)) => Some(xs.push(x)),
            _ => None,
        }
    }
}

proof fn lemma_comma_pieces_nonempty(b: Seq<u8>)
    ensures
        comma_pieces(b).len() >= 1,
    decreases b.len(),
{
    if b.len() > 0 {
        lemma_comma_pieces_nonempty(b.drop_last());
    }
}

proof fn lemma_digits_value_grows(ds: Seq<u8>, k: int)
    requires
        0 <= k <= ds.len(),
        all_digits(ds),
    ensures
        0 <= digits_value(ds.subrange(0, k)) <= digits_value(ds),
    decreases ds.len(),
{
    if k < ds.len() {
        assert(ds.drop_last().subrange(0, k) =~= ds.subrange(0, k));
        lemma_digits_value_grows(ds.drop_last(), k);
    } else {
        assert(ds.subrange(0, k) =~= ds);
        lemma_digits_nonneg(ds);
    }
}

proof fn lemma_digits_nonneg(ds: Seq<u8>)
    requires
        all_digits(ds),
    ensures
        0 <= digits_value(ds),
    decreases ds.len(),
{
    if ds.len() > 0 {
        lemma_digits_nonneg(ds.drop_last());
    }
}

proof fn lemma_pieces_prefix(b: Seq<u8>, i: int, j: int)
    requires
        0 <= i <= j <= b.len(),
    ensures
        comma_pieces(b.subrange(0, i)).len() <= comma_pieces(b.subrange(0, j)).len(),
        forall|k: int|
            0 <= k < comma_pieces(b.subrange(0, i)).len() - 1 ==> #[trigger] comma_pieces(b.subrange(0, j))[k]
                == comma_pieces(b.subrange(0, i))[k],
    decreases j - i,
{
    if j > i {
        lemma_pieces_prefix(b, i, j - 1);
        assert(b.subrange(0, j).drop_last() =~= b.subrange(0, j - 1));
        lemma_comma_pieces_nonempty(b.subrange(0, j - 1));
    }
}

proof fn lemma_parse_all_prefix(q: Seq<Seq<u8>>, m: int)
    requires
        0 <= m <= q.len(),
        parse_all(q.subrange(0, m)) is None,
    ensures
        parse_all(q) is None,
    decreases q.len(),
{
    if m < q.len() {
        assert(q.drop_last().subrange(0, m) =~= q.subrange(0, m));
        lemma_parse_all_prefix(q.drop_last(), m);
    } else {
        assert(q.subrange(0, m) =~= q);
    }
}

/// Reads one `i32` written in decimal, as `str::parse::<i32>` does.
pub fn parse_i32(b: &[u8]) -> (r: Option<i32>)
    ensures
        r == parse_i32_spec(b@),
{
    let n = b.len();
    let signed = n > 0 && (b[0] == 45u8 || b[0] == 43u8);
    let negative = signed && b[0] == 45u8;
    let start: usize = if signed {
        1
    } else {
        0
    };
    let ghost ds = if signed {
        b@.subrange(1, n as int)
    } else {
        b@
    };
    assert(b@.subrange(0, n as int) =~= b@);
    if start == n {
        return None;
    }
    let mut acc: i64 = 0;
    let mut i: usize = start;
    while i < n
        invariant
            start <= i <= n,
            n == b@.len(),
            signed == has_sign(b@),
            negative == (signed && b@[0] == 45),
            start == (if signed {
                1usize
            } else {
                0usize
            }),
            ds == unsigned_part(b@),
            ds == b@.subrange(start as int, n as int),
            forall|j: int| 0 <= j < i - start ==> is_digit(#[trigger] ds[j]),
            acc == digits_value(ds.subrange(0, i - start)),
            0 <= acc <= 0x8000_0000,
        decreases n - i,
    {
        let c = b[i];
        assert(ds[i - start] == c);
        if c < 48u8 || c > 57u8 {
            assert(!is_digit(ds[i - start]));
            return None;
        }
        assert(ds.subrange(0, i + 1 - start).drop_last() =~= ds.subrange(0, i - start));
        assert(ds.subrange(0, i + 1 - start).last() == c);
        acc = acc * 10 + (c - 48u8) as i64;
        if acc > 0x8000_0000 {
            proof {
                let k = i + 1 - start;
                if all_digits(ds) {
                    lemma_digits_value_grows(ds, k);
                }
            }
            return None;
        }
        i = i + 1;
    }
    assert(ds.subrange(0, n - start) =~= ds);
    if negative {
        Some((-acc) as i32)
    } else if acc > 0x7fff_ffff {
        None
    } else {
        Some(acc as i32)
    }
}

/// The ids of a comma-separated list, or `None` where a piece is not an `i32`.
pub fn parse_reservation_ids(s: &str) -> (r: Option<Vec<i32>>)
    ensures
        match r {
            Some(ids) => parse_all(comma_pieces(s.spec_bytes())) == Some(ids@),
            None => parse_all(comma_pieces(s.spec_bytes())) is None,
        },
{
    let b = s.as_bytes();
    let n = b.len();
    let mut out: Vec<i32> = Vec::new();
    let mut start: usize = 0;
    let mut i: usize = 0;
    let ghost mut done: Seq<Seq<u8>> = Seq::empty();
    assert(b@.subrange(0, 0) =~= Seq::<u8>::empty());
    while i < n
        invariant
            n == b@.len(),
            b@ == s.spec_bytes(),
            start <= i <= n,
            comma_pieces(b@.subrange(0, i as int)) == done.push(b@.subrange(start as int, i as int)),
            parse_all(done) == Some(out@),
        decreases n - i,
    {
        assert(b@.subrange(0, i + 1).drop_last() =~= b@.subrange(0, i as int));
        assert(b@.subrange(0, i + 1).last() == b@[i as int]);
        if b[i] == 44u8 {
            let piece = parse_i32(&b[start..i]);
            match piece {
                None => {
                    proof {
                        let piece_seq = b@.subrange(start as int, i as int);
                        let p = comma_pieces(b@.subrange(0, i + 1));
                        assert(p == done.push(piece_seq).push(Seq::empty()));
                        lemma_pieces_prefix(b@, i + 1, n as int);
                        assert(b@.subrange(0, n as int) =~= b@);
                        let q = comma_pieces(b@);
                        assert(q.subrange(0, done.len() as int + 1) =~= done.push(piece_seq));
                        assert(done.push(piece_seq).drop_last() =~= done);
                        lemma_parse_all_prefix(q, done.len() as int + 1);
                    }
                    return None;
                },
                Some(x) => {
                    out.push(x);
                },
            }
            proof {
                assert(done.push(b@.subrange(start as int, i as int)).drop_last() =~= done);
                done = done.push(b@.subrange(start as int, i as int));
            }
            start = i + 1;
            assert(b@.subrange(start as int, start as int) =~= Seq::<u8>::empty());
        } else {
            assert(b@.subrange(start as int, i + 1) =~= b@.subrange(start as int, i as int).push(b@[i as int]));
            assert(done.push(b@.subrange(start as int, i as int)).update(done.len() as int, b@.subrange(start as int, i + 1)) =~= done.push(b@.subrange(start as int, i + 1)));
        }
        i = i + 1;
    }
    assert(b@.subrange(0, n as int) =~= b@);
    assert(done.push(b@.subrange(start as int, n as int)).drop_last() =~= done);
    match parse_i32(&b[start..n]) {
        None => None,
        Some(x) => {
            out.push(x);
            Some(out)
        },
    }
}

} // verus!
