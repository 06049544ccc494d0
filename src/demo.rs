use vstd::prelude::*;
use crate::tracker::{depth, Perms, Tracker, Violation};
use crate::value::Value;

verus! {

/// Relies on i32::abs: the absolute value, which overflows on i32::MIN.
pub assume_specification[ i32::abs ](x: i32) -> (r: i32)
    requires
        x != i32::MIN,
    ensures
        r as int == if x < 0 {
            -(x as int)
        } else {
            x as int
        },
;

/// Relies on String::len: the length of the text in bytes, that is of its
/// UTF-8 encoding.
pub assume_specification[ String::len ](s: &String) -> (r: usize)
    ensures
        r as int == vstd::utf8::encode_utf8(s@).len(),
;

/// The integer a cell value holds.
fn int_of(v: Value) -> (r: i32)
    requires
        v is Int,
    ensures
        v == Value::Int(r),
{
    match v {
        Value::Int(n) => n,
        Value::Text(_) => vstd::pervasive::unreached(),
    }
}

/// The text a cell value holds.
fn text_of(v: Value) -> (r: String)
    requires
        v is Text,
    ensures
        v == Value::Text(r),
{
    match v {
        Value::Text(s) => s,
        Value::Int(_) => vstd::pervasive::unreached(),
    }
}

/// Reads an owner holding 1 (`a`), adds one to its value, reads it through
/// a reference to the owner (`b`, two dereferences) and through a reference
/// to the value (one dereference), and adds one to that copy (`c`).
pub fn dereference() -> (r: (i32, i32, i32))
    ensures
        r == (1i32, 2i32, 3i32),
{
    let mut t = Tracker::new();
    let x = t.allocate(Value::Int(1));
    let a = int_of(t.read(x).unwrap());
    t.write(x, Value::Int(a + 1)).unwrap();
    let r1 = t.borrow(x, false, true).unwrap();
    let b = int_of(t.read(r1).unwrap());
    let r2 = t.borrow(x, false, false).unwrap();
    let mut c = int_of(t.read(r2).unwrap());
    c += 1;
    (a, b, c)
}

/// What `implicit` computes: absolute values of the box `x` holding -1,
/// reached explicitly and implicitly, directly (`x_abs*`) and through the
/// reference `r = &x` (`r_abs*`); the length of the text `s` holding
/// "Hello", reached explicitly and implicitly; and what `*x`, `**r` and `s`
/// hold afterwards.
pub struct Projections {
    pub x_abs1: i32,
    pub x_abs2: i32,
    pub r_abs1: i32,
    pub r_abs2: i32,
    pub s_len1: usize,
    pub s_len2: usize,
    pub x: i32,
    pub through_r: i32,
    pub s: String,
}

/// Dereferences that the context inserts give what explicit ones give:
/// through a box, through a reference to a box, and for a text's length.
/// None of them changes what it reads.
pub fn implicit() -> (r: Projections)
    ensures
        r.x_abs1 == r.x_abs2 == 1,
        r.r_abs1 == r.r_abs2 == 1,
        r.s_len1 == r.s_len2 == 5,
        r.x == -1,
        r.through_r == -1,
        r.s@ == "Hello"@,
{
    let x: Box<i32> = Box::new(-1);
    let x_abs1 = i32::abs(*x);
    let x_abs2 = x.abs();

    let r: &Box<i32> = &x;
    let r_abs1 = i32::abs(**r);
    let r_abs2 = r.abs();
    let through_r = **r;

    let s: String = "Hello".to_owned();
    let s_len1 = str::len(s.as_str());
    let s_len2 = s.len();
    proof {
        reveal_strlit("Hello");
        vstd::utf8::is_ascii_chars_encode_utf8(s@);
    }
    Projections { x_abs1, x_abs2, r_abs1, r_abs2, s_len1, s_len2, x: *x, through_r, s }
}

/// A mutable reference `r` to an owner `x` holding 1 takes two dereferences
/// to the value and adds one to it. Returns the value then read through
/// `r` (2), `r`'s depth, the permissions of `r` and of `x` while `r` is
/// live, what a shared loan from `x` and a loan through `r` give meanwhile,
/// and `x`'s permissions once `r`'s lifetime has ended.
pub fn mutable_reference() -> (r: (i32, usize, Perms, Perms, Result<usize, Violation>, Result<
    usize,
    Violation,
>, Perms))
    ensures
        r.0 == 2,
        r.1 == 2,
        r.2 == (Perms { read: true, write: true, own: false }),
        r.3 == (Perms { read: false, write: false, own: false }),
        r.4 == Err::<usize, Violation>(Violation::ReadSuspended),
        r.5 == Err::<usize, Violation>(Violation::Exclusive),
        r.6 == (Perms { read: true, write: true, own: true }),
{
    let mut t = Tracker::new();
    let x = t.allocate(Value::Int(1));
    let r = t.borrow(x, true, true).unwrap();
    assert(depth(t.accs(), x as int) == 1);
    assert(depth(t.accs(), r as int) == 2);
    let (_cell, steps) = t.resolve(r);
    let n = int_of(t.read(r).unwrap());
    t.write(r, Value::Int(n + 1)).unwrap();
    let value = int_of(t.read(r).unwrap());
    let perms_r = t.permissions(r);
    assert(t.is_loan_from(r as int, x as int));
    let perms_x = t.permissions(x);
    let shared = t.borrow(x, false, true);
    let through = t.borrow(r, false, false);
    t.release(r).unwrap();
    let perms_after = t.permissions(x);
    (value, steps, perms_r, perms_x, shared, through, perms_after)
}

/// A copy `z` read through a shared reference `y` to an owner `x` holding 1
/// can be changed freely. Returns `z` after adding one (2), the value read
/// through `y` (1), `y`'s depth (2), what `x` reads afterwards (1), and the
/// permissions of `x` and `y` while `y` is live.
pub fn permission_checks() -> (r: (i32, i32, usize, i32, Perms, Perms))
    ensures
        r.0 == 2,
        r.1 == 1,
        r.2 == 2,
        r.3 == 1,
        r.4 == (Perms { read: true, write: false, own: false }),
        r.5 == (Perms { read: true, write: false, own: false }),
{
    let mut t = Tracker::new();
    let x = t.allocate(Value::Int(1));
    let y = t.borrow(x, false, true).unwrap();
    assert(depth(t.accs(), x as int) == 1);
    assert(depth(t.accs(), y as int) == 2);
    let (_cell, steps) = t.resolve(y);
    let read = int_of(t.read(y).unwrap());
    let mut z = read;
    z += 1;
    let after = int_of(t.read(x).unwrap());
    assert(t.is_loan_from(y as int, x as int));
    let perms_x = t.permissions(x);
    let perms_y = t.permissions(y);
    (z, read, steps, after, perms_x, perms_y)
}

/// While a shared reference `y` to `x` is live, appending to `x` is
/// rejected. Returns that rejection, what `x` and `y` read ("Hello" both),
/// and their permissions, Read alone for both.
pub fn borrow_checker() -> (r: (Result<(), Violation>, String, String, Perms, Perms))
    ensures
        r.0 == Err::<(), Violation>(Violation::WriteSuspended),
        r.1@ == "Hello"@,
        r.2@ == "Hello"@,
        r.3 == (Perms { read: true, write: false, own: false }),
        r.4 == (Perms { read: true, write: false, own: false }),
{
    let mut t = Tracker::new();
    let x = t.allocate(Value::Text("Hello".to_owned()));
    let y = t.borrow(x, false, true).unwrap();
    assert(t.is_loan_from(y as int, x as int));
    assert(!t.lent_mutably(x as int));
    let longer = t.read(x).unwrap().appended(" world");
    let attempt = t.write(x, longer);
    let through_x = text_of(t.read(x).unwrap());
    let through_y = text_of(t.read(y).unwrap());
    assert(t.is_loan_from(y as int, x as int));
    let perms_x = t.permissions(x);
    let perms_y = t.permissions(y);
    (attempt, through_x, through_y, perms_x, perms_y)
}

/// Appends " world" through a mutable reference `y` to `x` holding "Hello".
/// Returns what `x` reads once `y`'s lifetime has ended ("Hello world"),
/// `y`'s permissions while live (Read and Write, no Own), what a mutable
/// loan of `y`'s own slot gives (refused), and `x`'s permissions after `y`
/// ends (all three).
pub fn mutable_ref() -> (r: (String, Perms, Result<usize, Violation>, Perms))
    ensures
        r.0@ == "Hello world"@,
        r.1 == (Perms { read: true, write: true, own: false }),
        r.2 == Err::<usize, Violation>(Violation::SlotReadOnly),
        r.3 == (Perms { read: true, write: true, own: true }),
{
    let mut t = Tracker::new();
    let x = t.allocate(Value::Text("Hello".to_owned()));
    let y = t.borrow(x, true, true).unwrap();
    let perms_y = t.permissions(y);
    let slot = t.borrow(y, true, true);
    let longer = t.read(y).unwrap().appended(" world");
    t.write(y, longer).unwrap();
    t.release(y).unwrap();
    let perms_x = t.permissions(x);
    proof {
        reveal_strlit("Hello");
        reveal_strlit(" world");
        reveal_strlit("Hello world");
        assert("Hello"@ + " world"@ =~= "Hello world"@);
    }
    (text_of(t.read(x).unwrap()), perms_y, slot, perms_x)
}

} // verus!
