use ownership::demo::{borrow_checker, dereference, implicit, mutable_ref, mutable_reference, permission_checks};
use ownership::tracker::{Perms, Violation};
use ownership::value::Value;

#[test]
fn appended_extends_text() {
    let v = Value::Text("ab".to_string()).appended("cd");
    assert_eq!(v, Value::Text("abcd".to_string()));
    let e = Value::Text(String::new()).appended("");
    assert_eq!(e, Value::Text(String::new()));
}

#[test]
fn duplicate_is_equal() {
    let v = Value::Text("Hello".to_string());
    assert_eq!(v.duplicate(), v);
    assert_eq!(Value::Int(-3).duplicate(), Value::Int(-3));
}

#[test]
fn implicit_agrees() {
    let p = implicit();
    assert_eq!((p.x_abs1, p.x_abs2), (1, 1));
    assert_eq!((p.r_abs1, p.r_abs2), (1, 1));
    assert_eq!((p.s_len1, p.s_len2), (5, 5));
    assert_eq!((p.x, p.through_r), (-1, -1));
    assert_eq!(p.s, "Hello");
}

#[test]
fn mutable_reference_gives_two() {
    let (value, depth, perms_r, perms_x, shared, through, after) = mutable_reference();
    assert_eq!(value, 2);
    assert_eq!(depth, 2);
    assert_eq!(perms_r, Perms { read: true, write: true, own: false });
    assert_eq!(perms_x, Perms { read: false, write: false, own: false });
    assert_eq!(shared, Err(Violation::ReadSuspended));
    assert_eq!(through, Err(Violation::Exclusive));
    assert_eq!(after, Perms { read: true, write: true, own: true });
}

#[test]
fn permission_checks_gives_two() {
    let (z, read, depth, after, perms_x, perms_y) = permission_checks();
    assert_eq!((z, read, depth, after), (2, 1, 2, 1));
    assert_eq!(perms_x, Perms { read: true, write: false, own: false });
    assert_eq!(perms_y, Perms { read: true, write: false, own: false });
}

#[test]
fn borrow_checker_rejects_append() {
    let (attempt, x, y, perms_x, perms_y) = borrow_checker();
    assert_eq!(attempt, Err(Violation::WriteSuspended));
    assert_eq!(x, "Hello");
    assert_eq!(y, "Hello");
    assert_eq!(perms_x, Perms { read: true, write: false, own: false });
    assert_eq!(perms_y, Perms { read: true, write: false, own: false });
}

#[test]
fn mutable_ref_appends() {
    let (text, perms_y, slot, perms_x) = mutable_ref();
    assert_eq!(text, "Hello world");
    assert_eq!(perms_y, Perms { read: true, write: true, own: false });
    assert_eq!(slot, Err(Violation::SlotReadOnly));
    assert_eq!(perms_x, Perms { read: true, write: true, own: true });
}

#[test]
fn dereference_reads_one_two_three() {
    assert_eq!(dereference(), (1, 2, 3));
}
