use vstd::prelude::*;
use crate::tracker::{depth, innermost, Kind, Tracker, Violation};
use crate::value::Value;

verus! {

/// Any two distinct live loans taken from the same binding or reference are
/// both shared: a lender has one live mutable loan, or shared ones only,
/// never both kinds at once.
pub proof fn lemma_loans_exclusive(t: Tracker, a: int, i: int, j: int)
    requires
        t.wf(),
        i != j,
        t.is_loan_from(i, a),
        t.is_loan_from(j, a),
    ensures
        t.accs()[i].kind == Kind::Shared,
        t.accs()[j].kind == Kind::Shared,
{
}

/// Any two distinct live references to the same cell are both shared: a
/// cell has one live mutable reference and no other, or shared ones only,
/// never both kinds at once.
pub proof fn lemma_cell_exclusive(t: Tracker, c: int, i: int, j: int)
    requires
        t.wf(),
        i != j,
        t.is_ref_of(i, c),
        t.is_ref_of(j, c),
    ensures
        t.accs()[i].kind == Kind::Shared,
        t.accs()[j].kind == Kind::Shared,
{
}

/// A write through accessor `a` followed by a read gives the written value,
/// read through `a` itself or through any other accessor of the same cell
/// that holds Read afterwards.
pub proof fn lemma_read_after_write(t: Tracker, post: Tracker, a: int, b: int, v: Value)
    requires
        t.wf(),
        t.denial(a, true) is None,
        t.wrote(a, v, post),
    ensures
        post.read_outcome(a) == Ok::<Value, Violation>(v),
        post.denial(b, false) is None && 0 <= b < post.accs().len() && post.accs()[b].cell
            == t.accs()[a].cell ==> post.read_outcome(b) == Ok::<Value, Violation>(v),
{
    assert(t.shaped(a));
    assert forall|i: int, c: int| #[trigger] post.is_loan_from(i, c) == t.is_loan_from(i, c) by {}
    assert(post.denial(a, false) == t.denial(a, false));
}

/// An accessor's chain takes one dereference per level: one for an owner or
/// a reference to a value, one more than its lender for a reference to the
/// lender itself. When the reference nearest to the value is shared, no
/// write goes through the chain, whatever the outer references are. The
/// model follows Rust here: a write also needs the accessor written through
/// to hold Write itself, so a shared reference never writes, whatever lies
/// under it.
pub proof fn lemma_chain(t: Tracker, a: int)
    requires
        t.wf(),
        0 <= a < t.accs().len(),
    ensures
        depth(t.accs(), a) >= 1,
        t.accs()[a].kind != Kind::Owner && t.accs()[a].to_slot ==> depth(t.accs(), a) == depth(
            t.accs(),
            t.accs()[a].lender as int,
        ) + 1,
        !(t.accs()[a].kind != Kind::Owner && t.accs()[a].to_slot) ==> depth(t.accs(), a) == 1,
        innermost(t.accs(), a) == Kind::Shared ==> t.denial(a, true) is Some,
        t.denial(a, true) is None ==> innermost(t.accs(), a) != Kind::Shared,
{
    assert(t.shaped(a));
}

/// A cell has at most one live owning binding: ownership moves, it is never
/// duplicated.
pub proof fn lemma_single_owner(t: Tracker, c: int, i: int, j: int)
    requires
        t.wf(),
        t.is_owner_of(i, c),
        t.is_owner_of(j, c),
    ensures
        i == j,
{
}

/// However many levels of indirection separate two accessors from one cell,
/// reading through either, where both hold Read, gives the same value.
pub proof fn lemma_projection_agrees(t: Tracker, a: int, b: int)
    requires
        t.wf(),
        t.denial(a, false) is None,
        t.denial(b, false) is None,
        t.accs()[a].cell == t.accs()[b].cell,
    ensures
        t.read_outcome(a) == t.read_outcome(b),
        t.read_outcome(a) is Ok,
{
}

} // verus!
