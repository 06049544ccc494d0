use ownership::tracker::{Kind, Perms, Tracker, Violation};
use ownership::value::Value;

fn text(s: &str) -> Value {
    Value::Text(s.to_string())
}

#[test]
fn shared_loan_blocks_owner_write() {
    let mut t = Tracker::new();
    let x = t.allocate(text("Hello"));
    let y = t.borrow(x, false, true).unwrap();
    assert_eq!(t.write(x, text("Hello world")), Err(Violation::WriteSuspended));
    assert_eq!(t.read(x), Ok(text("Hello")));
    assert_eq!(t.read(y), Ok(text("Hello")));
    assert_eq!(t.permissions(x), Perms { read: true, write: false, own: false });
    assert_eq!(t.permissions(y), Perms { read: true, write: false, own: false });
}

#[test]
fn increments_through_mutable_reference() {
    let mut t = Tracker::new();
    let x = t.allocate(Value::Int(1));
    let y = t.borrow(x, true, true).unwrap();
    assert_eq!(t.read(x), Err(Violation::ReadSuspended));
    for _ in 0..2 {
        let n = match t.read(y) {
            Ok(Value::Int(n)) => n,
            other => panic!("unexpected {:?}", other),
        };
        t.write(y, Value::Int(n + 1)).unwrap();
    }
    t.release(y).unwrap();
    assert_eq!(t.read(x), Ok(Value::Int(3)));
    assert_eq!(t.permissions(x), Perms { read: true, write: true, own: true });
}

#[test]
fn appends_through_mutable_reference() {
    let mut t = Tracker::new();
    let s = t.allocate(text("Hello"));
    let r = t.borrow(s, true, true).unwrap();
    let longer = t.read(r).unwrap().appended(" world");
    t.write(r, longer).unwrap();
    t.release(r).unwrap();
    assert_eq!(t.read(s), Ok(text("Hello world")));
}

#[test]
fn explicit_and_implicit_projection_agree() {
    let mut t = Tracker::new();
    let x = t.allocate(Value::Int(-1));
    let r = t.borrow(x, false, true).unwrap();
    assert_eq!(t.resolve(x), (0, 1));
    assert_eq!(t.resolve(r), (0, 2));
    let through_x = match t.read(x) {
        Ok(Value::Int(n)) => n.abs(),
        other => panic!("unexpected {:?}", other),
    };
    let through_r = match t.read(r) {
        Ok(Value::Int(n)) => n.abs(),
        other => panic!("unexpected {:?}", other),
    };
    assert_eq!(through_x, 1);
    assert_eq!(through_x, through_r);
}

#[test]
fn mutable_loan_excludes_other_loans() {
    let mut t = Tracker::new();
    let x = t.allocate(Value::Int(5));
    let m = t.borrow(x, true, true).unwrap();
    assert_eq!(t.borrow(x, false, true), Err(Violation::ReadSuspended));
    assert_eq!(t.borrow(x, true, false), Err(Violation::ReadSuspended));
    t.release(m).unwrap();
    let a = t.borrow(x, false, true).unwrap();
    let b = t.borrow(x, false, false).unwrap();
    assert_ne!(a, b);
    assert_eq!(t.borrow(x, true, true), Err(Violation::WriteSuspended));
    assert_eq!(t.read(a), Ok(Value::Int(5)));
    assert_eq!(t.read(b), Ok(Value::Int(5)));
}

#[test]
fn read_after_write_through_same_and_other_accessor() {
    let mut t = Tracker::new();
    let x = t.allocate(Value::Int(0));
    let m = t.borrow(x, true, false).unwrap();
    assert_eq!(t.write(m, Value::Int(42)), Ok(()));
    assert_eq!(t.read(m), Ok(Value::Int(42)));
    t.release(m).unwrap();
    assert_eq!(t.read(x), Ok(Value::Int(42)));
    assert_eq!(t.write(x, Value::Int(-7)), Ok(()));
    assert_eq!(t.read(x), Ok(Value::Int(-7)));
}

#[test]
fn chain_depth_counts_levels() {
    let mut t = Tracker::new();
    let x = t.allocate(Value::Int(1));
    let r1 = t.borrow(x, false, true).unwrap();
    let r2 = t.borrow(r1, false, true).unwrap();
    let r3 = t.borrow(r2, false, true).unwrap();
    assert_eq!(t.resolve(x).1, 1);
    assert_eq!(t.resolve(r1).1, 2);
    assert_eq!(t.resolve(r2).1, 3);
    assert_eq!(t.resolve(r3).1, 4);
    assert_eq!(t.read(r3), Ok(Value::Int(1)));
    assert_eq!(t.write(r3, Value::Int(9)), Err(Violation::ReadOnly));
    assert_eq!(t.write(x, Value::Int(9)), Err(Violation::WriteSuspended));
    let p = t.borrow(r2, false, false).unwrap();
    assert_eq!(t.resolve(p).1, 1);
    assert_eq!(t.accessor(p).kind, Kind::Shared);
    assert_eq!(t.accessor(p).cell, 0);
    for a in [p, r3, r2, r1] {
        t.release(a).unwrap();
    }
    let m = t.borrow(x, true, true).unwrap();
    assert_eq!(t.resolve(m).1, 2);
    assert_eq!(t.write(m, Value::Int(10)), Ok(()));
    t.release(m).unwrap();
    assert_eq!(t.read(x), Ok(Value::Int(10)));
}

#[test]
fn mutable_reference_is_alone_on_its_cell() {
    let mut t = Tracker::new();
    let x = t.allocate(Value::Int(1));
    let m = t.borrow(x, true, true).unwrap();
    assert_eq!(t.borrow(m, false, false), Err(Violation::Exclusive));
    assert_eq!(t.borrow(m, true, false), Err(Violation::Exclusive));
    assert_eq!(t.borrow(m, false, true), Err(Violation::Exclusive));
    assert_eq!(t.borrow(m, true, true), Err(Violation::SlotReadOnly));
    assert_eq!(t.borrow(x, false, false), Err(Violation::ReadSuspended));
    assert_eq!(t.accessor_count(), 2);
}

#[test]
fn shared_innermost_reference_blocks_writes() {
    let mut t = Tracker::new();
    let x = t.allocate(Value::Int(1));
    let s = t.borrow(x, false, true).unwrap();
    assert_eq!(t.borrow(s, true, true), Err(Violation::ReadOnly));
    assert_eq!(t.write(s, Value::Int(2)), Err(Violation::ReadOnly));
    let ss = t.borrow(s, false, true).unwrap();
    assert_eq!(t.resolve(ss).1, 3);
    assert_eq!(t.write(ss, Value::Int(2)), Err(Violation::ReadOnly));
    assert_eq!(t.read(ss), Ok(Value::Int(1)));
}

#[test]
fn each_violation_has_a_cause() {
    let mut t = Tracker::new();
    assert_eq!(t.read(0), Err(Violation::Unknown));
    assert_eq!(t.check_access(3, true), Err(Violation::Unknown));
    let x = t.allocate(Value::Int(1));
    let y = t.borrow(x, true, true).unwrap();
    assert_eq!(t.release(x), Err(Violation::StillBorrowed));
    assert_eq!(t.move_owner(x), Err(Violation::ReadSuspended));
    assert_eq!(t.move_owner(y), Err(Violation::NotOwner));
    assert_eq!(t.borrow(y, false, true), Err(Violation::Exclusive));
    assert_eq!(t.borrow(y, true, true), Err(Violation::SlotReadOnly));
    t.release(y).unwrap();
    let s = t.borrow(x, false, true).unwrap();
    let z = t.borrow(s, false, true).unwrap();
    assert_eq!(t.write(x, Value::Int(2)), Err(Violation::WriteSuspended));
    assert_eq!(t.write(z, Value::Int(2)), Err(Violation::ReadOnly));
    assert_eq!(t.release(s), Err(Violation::StillBorrowed));
    assert_eq!(t.release(z), Ok(()));
    assert_eq!(t.read(z), Err(Violation::Released));
    assert_eq!(t.release(z), Err(Violation::Released));
    assert_eq!(t.release(9), Err(Violation::Unknown));
}

#[test]
fn ownership_moves_and_drops() {
    let mut t = Tracker::new();
    let x = t.allocate(text("moved"));
    let z = t.move_owner(x).unwrap();
    assert_ne!(x, z);
    assert_eq!(t.read(x), Err(Violation::Released));
    assert_eq!(t.read(z), Ok(text("moved")));
    assert_eq!(t.permissions(z), Perms { read: true, write: true, own: true });
    assert_eq!(t.permissions(x), Perms { read: false, write: false, own: false });
    assert_eq!(t.accessor(z).kind, Kind::Owner);
    assert_eq!(t.release(z), Ok(()));
    assert_eq!(t.read(z), Err(Violation::Released));
    assert_eq!(t.accessor_count(), 2);
}

#[test]
fn cells_stay_apart() {
    let mut t = Tracker::new();
    let a = t.allocate(Value::Int(1));
    let b = t.allocate(text("two"));
    let ra = t.borrow(a, true, true).unwrap();
    t.write(ra, Value::Int(10)).unwrap();
    assert_eq!(t.read(b), Ok(text("two")));
    assert_eq!(t.resolve(b), (1, 1));
    t.release(ra).unwrap();
    assert_eq!(t.read(a), Ok(Value::Int(10)));
}
