use vstd::prelude::*;
use crate::value::Value;

verus! {

/// How an accessor holds its cell: as the owning binding, or as a
/// shared (read-only) or mutable (exclusive) reference.
#[derive(Clone, Copy, PartialEq, Eq, Structural, Debug)]
pub enum Kind {
    Owner,
    Shared,
    Mutable,
}

/// Why an access, a borrow or the end of a lifetime is rejected.
#[derive(Clone, Copy, PartialEq, Eq, Structural, Debug)]
pub enum Violation {
    /// No accessor has this identity.
    Unknown,
    /// The accessor's lifetime has ended.
    Released,
    /// A live mutable loan taken from the accessor suspends its Read.
    ReadSuspended,
    /// A shared reference never has Write.
    ReadOnly,
    /// A live loan taken from the accessor suspends its Write.
    WriteSuspended,
    /// A lifetime cannot end while loans taken from it are live.
    StillBorrowed,
    /// Only an owning binding can hand its cell on.
    NotOwner,
    /// A reference's own slot never has Write: it cannot be borrowed
    /// mutably, though its target can.
    SlotReadOnly,
    /// A live mutable reference is the only reference to its cell: no
    /// other one is taken through it.
    Exclusive,
}

/// The permissions an accessor currently holds.
#[derive(Clone, Copy, PartialEq, Eq, Structural, Debug)]
pub struct Perms {
    pub read: bool,
    pub write: bool,
    pub own: bool,
}

/// An owning binding or a reference. A reference is taken from a
/// `lender`: it denotes the lender's own slot (`to_slot`, one more level
/// of indirection) or the value the lender reaches (one level).
#[derive(Clone, Copy, PartialEq, Eq, Structural, Debug)]
pub struct Accessor {
    pub kind: Kind,
    pub cell: usize,
    pub lender: usize,
    pub to_slot: bool,
    pub live: bool,
}

/// Number of dereferences that take accessor `i` to its cell's value.
pub open spec fn depth(s: Seq<Accessor>, i: int) -> nat
    decreases i,
{
    if 0 <= i < s.len() {
        let x = s[i];
        if x.kind != Kind::Owner && x.to_slot && 0 <= x.lender < i {
            depth(s, x.lender as int) + 1
        } else {
            1
        }
    } else {
        0
    }
}

/// Kind of the reference nearest to the value on accessor `i`'s chain
/// (`Owner` when the chain holds no reference).
pub open spec fn innermost(s: Seq<Accessor>, i: int) -> Kind
    decreases i,
{
    if 0 <= i < s.len() {
        let x = s[i];
        if x.kind != Kind::Owner && x.to_slot && 0 <= x.lender < i && s[x.lender as int].kind
            != Kind::Owner {
            innermost(s, x.lender as int)
        } else {
            x.kind
        }
    } else {
        Kind::Owner
    }
}

/// Two accessor sequences that agree on the shape of every accessor up to
/// `i` give `i` the same depth and innermost reference.
proof fn lemma_chain_frame(s: Seq<Accessor>, u: Seq<Accessor>, i: int)
    requires
        0 <= i < s.len(),
        i < u.len(),
        forall|j: int|
            0 <= j <= i ==> s[j].kind == u[j].kind && s[j].lender == u[j].lender && s[j].to_slot
                == u[j].to_slot,
    ensures
        depth(s, i) == depth(u, i),
        innermost(s, i) == innermost(u, i),
    decreases i,
{
    let x = s[i];
    if x.kind != Kind::Owner && x.to_slot && 0 <= x.lender < i {
        lemma_chain_frame(s, u, x.lender as int);
    }
}

/// A chain is never longer than the accessors below it.
proof fn lemma_depth_bound(s: Seq<Accessor>, i: int)
    requires
        0 <= i < s.len(),
    ensures
        1 <= depth(s, i) <= i + 1,
    decreases i,
{
    let x = s[i];
    if x.kind != Kind::Owner && x.to_slot && 0 <= x.lender < i {
        lemma_depth_bound(s, x.lender as int);
    }
}

/// A live reference goes back, through live lenders, to a live owning
/// binding of its cell, which therefore has a live loan.
proof fn lemma_rooted(t: &Tracker, j: int)
    requires
        t.wf(),
        0 <= j < t.accs().len(),
        t.is_ref_of(j, t.accs()[j].cell as int),
    ensures
        exists|o: int| t.is_owner_of(o, t.accs()[j].cell as int) && t.lent(o),
    decreases j,
{
    let c = t.accs()[j].cell as int;
    assert(t.shaped(j));
    let l = t.accs()[j].lender as int;
    assert(t.shaped(l));
    if t.accs()[l].kind == Kind::Owner {
        assert(t.is_loan_from(j, l));
        assert(t.is_owner_of(l, c) && t.lent(l));
    } else {
        assert(t.is_ref_of(l, c));
        lemma_rooted(t, l);
    }
}

/// A change that declares no reference, changes no accessor's shape and
/// only ends lifetimes keeps both exclusivity rules.
proof fn lemma_loans_kept(pre: &Tracker, post: &Tracker)
    requires
        pre.wf(),
        pre.accs().len() <= post.accs().len(),
        forall|i: int|
            0 <= i < pre.accs().len() ==> {
                let (x, y) = (pre.accs()[i], #[trigger] post.accs()[i]);
                y.kind == x.kind && y.lender == x.lender && y.cell == x.cell && (y.live
                    ==> x.live)
            },
        forall|i: int|
            pre.accs().len() <= i < post.accs().len() ==> #[trigger] post.accs()[i].kind
                == Kind::Owner,
    ensures
        post.exclusive(),
        post.cell_exclusive(),
{
    assert forall|b: int, i: int, j: int|
        #![trigger post.is_loan_from(i, b), post.is_loan_from(j, b)]
        i != j && post.is_loan_from(i, b) && post.is_loan_from(j, b)
        implies post.accs()[i].kind == Kind::Shared by {
        assert(pre.is_loan_from(i, b) && pre.is_loan_from(j, b));
    }
    assert forall|c: int, i: int, j: int|
        #![trigger post.is_ref_of(i, c), post.is_ref_of(j, c)]
        i != j && post.is_ref_of(i, c) && post.is_ref_of(j, c)
        implies post.accs()[i].kind == Kind::Shared by {
        assert(pre.is_ref_of(i, c) && pre.is_ref_of(j, c));
    }
}

/// A change that declares no owning binding, changes no accessor's shape
/// and only ends lifetimes keeps each cell's owner single.
proof fn lemma_owners_kept(pre: &Tracker, post: &Tracker)
    requires
        pre.wf(),
        pre.accs().len() <= post.accs().len(),
        forall|i: int|
            0 <= i < pre.accs().len() ==> {
                let (x, y) = (pre.accs()[i], #[trigger] post.accs()[i]);
                y.kind == x.kind && y.cell == x.cell && (y.live ==> x.live)
            },
        forall|i: int|
            pre.accs().len() <= i < post.accs().len() ==> #[trigger] post.accs()[i].kind
                != Kind::Owner,
    ensures
        post.single_owner(),
{
    assert forall|c: int, i: int, j: int|
        #![trigger post.is_owner_of(i, c), post.is_owner_of(j, c)]
        post.is_owner_of(i, c) && post.is_owner_of(j, c) implies i == j by {
        assert(pre.is_owner_of(i, c) && pre.is_owner_of(j, c));
    }
}

/// An arena of cells and the accessors that hold them.
pub struct Tracker {
    cells: Vec<Value>,
    accessors: Vec<Accessor>,
}

impl Tracker {
    /// The values of the cells, by identity.
    pub closed spec fn cells(&self) -> Seq<Value> {
        self.cells@
    }

    /// The accessors, by identity.
    pub closed spec fn accs(&self) -> Seq<Accessor> {
        self.accessors@
    }

    /// Accessor `i` is a live loan taken from accessor `a`.
    pub open spec fn is_loan_from(&self, i: int, a: int) -> bool {
        0 <= i < self.accs().len() && self.accs()[i].live && self.accs()[i].kind != Kind::Owner
            && self.accs()[i].lender == a
    }

    /// Some live loan is taken from accessor `a`.
    pub open spec fn lent(&self, a: int) -> bool {
        exists|i: int| self.is_loan_from(i, a)
    }

    /// Some live mutable loan is taken from accessor `a`.
    pub open spec fn lent_mutably(&self, a: int) -> bool {
        exists|i: int| self.is_loan_from(i, a) && self.accs()[i].kind == Kind::Mutable
    }

    /// Why reading (or, with `write`, writing) through accessor `a` is
    /// rejected; `None` when it is permitted.
    pub open spec fn denial(&self, a: int, write: bool) -> Option<Violation> {
        if !(0 <= a < self.accs().len()) {
            Some(Violation::Unknown)
        } else if !self.accs()[a].live {
            Some(Violation::Released)
        } else if self.lent_mutably(a) {
            Some(Violation::ReadSuspended)
        } else if write && self.accs()[a].kind == Kind::Shared {
            Some(Violation::ReadOnly)
        } else if write && self.lent(a) {
            Some(Violation::WriteSuspended)
        } else {
            None
        }
    }

    /// The permission set of accessor `a`.
    pub open spec fn perms(&self, a: int) -> Perms {
        Perms {
            read: self.denial(a, false) is None,
            write: self.denial(a, true) is None,
            own: self.denial(a, true) is None && self.accs()[a].kind == Kind::Owner,
        }
    }

    /// Why taking a loan from `from` is rejected: a shared one needs Read, a
    /// mutable one Read and Write, a mutable one of the slot itself needs
    /// `from` to be an owning binding, and none is taken from a mutable
    /// reference, which stays the only reference to its cell.
    pub open spec fn borrow_denial(&self, from: int, mutable: bool, to_slot: bool) -> Option<
        Violation,
    > {
        match self.denial(from, mutable) {
            Some(e) => Some(e),
            None => if mutable && to_slot && self.accs()[from].kind != Kind::Owner {
                Some(Violation::SlotReadOnly)
            } else if self.accs()[from].kind == Kind::Mutable {
                Some(Violation::Exclusive)
            } else {
                None
            },
        }
    }

    /// Why ending accessor `a`'s lifetime is rejected.
    pub open spec fn release_denial(&self, a: int) -> Option<Violation> {
        if !(0 <= a < self.accs().len()) {
            Some(Violation::Unknown)
        } else if !self.accs()[a].live {
            Some(Violation::Released)
        } else if self.lent(a) {
            Some(Violation::StillBorrowed)
        } else {
            None
        }
    }

    /// What a read through accessor `a` gives.
    pub open spec fn read_outcome(&self, a: int) -> Result<Value, Violation> {
        match self.denial(a, false) {
            Some(e) => Err(e),
            None => Ok(self.cells()[self.accs()[a].cell as int]),
        }
    }

    /// `post` is this tracker after `v` was written through accessor `a`.
    pub open spec fn wrote(&self, a: int, v: Value, post: Tracker) -> bool {
        post.accs() == self.accs() && post.cells() == self.cells().update(
            self.accs()[a].cell as int,
            v,
        )
    }

    /// The accessor that a new loan from `a` would be.
    pub open spec fn loan(&self, a: int, mutable: bool, to_slot: bool) -> Accessor {
        Accessor {
            kind: if mutable {
                Kind::Mutable
            } else {
                Kind::Shared
            },
            cell: self.accs()[a].cell,
            lender: a as usize,
            to_slot,
            live: true,
        }
    }

    /// Shape of every accessor: an owner is its own lender and holds a cell
    /// of the arena; a reference comes after its lender, reaches the same
    /// cell, and does not outlive it.
    pub open spec fn shaped(&self, i: int) -> bool {
        let x = self.accs()[i];
        &&& x.cell < self.cells().len()
        &&& x.kind == Kind::Owner ==> x.lender == i && !x.to_slot
        &&& x.kind != Kind::Owner ==> {
            &&& x.lender < i
            &&& self.accs()[x.lender as int].cell == x.cell
            &&& x.live ==> self.accs()[x.lender as int].live
        }
        &&& x.kind == Kind::Mutable ==> innermost(self.accs(), i) == Kind::Mutable
            && self.accs()[x.lender as int].kind == Kind::Owner
    }

    /// Live loans from one lender are a single mutable one or shared ones.
    pub open spec fn exclusive(&self) -> bool {
        forall|a: int, i: int, j: int|
            #![trigger self.is_loan_from(i, a), self.is_loan_from(j, a)]
            i != j && self.is_loan_from(i, a) && self.is_loan_from(j, a)
                ==> self.accs()[i].kind == Kind::Shared
    }

    /// Accessor `i` is a live reference to cell `c`.
    pub open spec fn is_ref_of(&self, i: int, c: int) -> bool {
        0 <= i < self.accs().len() && self.accs()[i].live && self.accs()[i].kind != Kind::Owner
            && self.accs()[i].cell == c
    }

    /// Live references to one cell are a single mutable one or shared ones.
    pub open spec fn cell_exclusive(&self) -> bool {
        forall|c: int, i: int, j: int|
            #![trigger self.is_ref_of(i, c), self.is_ref_of(j, c)]
            i != j && self.is_ref_of(i, c) && self.is_ref_of(j, c) ==> self.accs()[i].kind
                == Kind::Shared
    }

    /// Accessor `i` is the live owning binding of cell `c`.
    pub open spec fn is_owner_of(&self, i: int, c: int) -> bool {
        0 <= i < self.accs().len() && self.accs()[i].live && self.accs()[i].kind == Kind::Owner
            && self.accs()[i].cell == c
    }

    /// No cell has two live owning bindings.
    pub open spec fn single_owner(&self) -> bool {
        forall|c: int, i: int, j: int|
            #![trigger self.is_owner_of(i, c), self.is_owner_of(j, c)]
            self.is_owner_of(i, c) && self.is_owner_of(j, c) ==> i == j
    }

    /// Why moving ownership out of accessor `a` is rejected: it needs Own.
    pub open spec fn move_denial(&self, a: int) -> Option<Violation> {
        match self.denial(a, true) {
            Some(e) => Some(e),
            None => if self.accs()[a].kind != Kind::Owner {
                Some(Violation::NotOwner)
            } else {
                None
            },
        }
    }

    /// The tracker's invariant, which every operation keeps.
    pub open spec fn wf(&self) -> bool {
        &&& forall|i: int| 0 <= i < self.accs().len() ==> #[trigger] self.shaped(i)
        &&& self.exclusive()
        &&& self.cell_exclusive()
        &&& self.single_owner()
    }
    /// An empty arena.
    pub fn new() -> (r: Tracker)
        ensures
            r.wf(),
            r.cells() == Seq::<Value>::empty(),
            r.accs() == Seq::<Accessor>::empty(),
    {
        Tracker { cells: Vec::new(), accessors: Vec::new() }
    }

    /// How many accessors were ever declared.
    pub fn accessor_count(&self) -> (r: usize)
        ensures
            r == self.accs().len(),
    {
        self.accessors.len()
    }

    /// Whether a live loan (only mutable ones, with `mutable_only`) is
    /// taken from accessor `a`.
    fn has_loan(&self, a: usize, mutable_only: bool) -> (r: bool)
        ensures
            r == if mutable_only {
                self.lent_mutably(a as int)
            } else {
                self.lent(a as int)
            },
    {
        let mut i: usize = 0;
        while i < self.accessors.len()
            invariant
                0 <= i <= self.accs().len(),
                forall|j: int|
                    0 <= j < i ==> !(#[trigger] self.is_loan_from(j, a as int) && (!mutable_only
                        || self.accs()[j].kind == Kind::Mutable)),
            decreases self.accs().len() - i,
        {
            let x = self.accessors[i];
            let counts = match x.kind {
                Kind::Owner => false,
                Kind::Shared => !mutable_only,
                Kind::Mutable => true,
            };
            if x.live && counts && x.lender == a {
                assert(self.is_loan_from(i as int, a as int));
                return true;
            }
            i += 1;
        }
        false
    }

    /// Checks that accessor `a` may be read through (or, with `write`,
    /// written through).
    pub fn check_access(&self, a: usize, write: bool) -> (r: Result<(), Violation>)
        ensures
            r == match self.denial(a as int, write) {
                Some(e) => Err(e),
                None => Ok::<(), Violation>(()),
            },
    {
        if a >= self.accessors.len() {
            return Err(Violation::Unknown);
        }
        let x = self.accessors[a];
        if !x.live {
            return Err(Violation::Released);
        }
        if self.has_loan(a, true) {
            return Err(Violation::ReadSuspended);
        }
        if write {
            if let Kind::Shared = x.kind {
                return Err(Violation::ReadOnly);
            }
            if self.has_loan(a, false) {
                return Err(Violation::WriteSuspended);
            }
        }
        Ok(())
    }

    /// The permissions accessor `a` holds now.
    pub fn permissions(&self, a: usize) -> (r: Perms)
        ensures
            r == self.perms(a as int),
    {
        let read = self.check_access(a, false).is_ok();
        let write = self.check_access(a, true).is_ok();
        let own = write && match self.accessors[a].kind {
            Kind::Owner => true,
            _ => false,
        };
        Perms { read, write, own }
    }

    /// Follows accessor `a`'s chain to its cell: the cell's identity and the
    /// number of dereferences taken.
    pub fn resolve(&self, a: usize) -> (r: (usize, usize))
        requires
            self.wf(),
            a < self.accs().len(),
        ensures
            r.0 == self.accs()[a as int].cell,
            r.1 == depth(self.accs(), a as int),
    {
        proof {
            lemma_depth_bound(self.accs(), a as int);
        }
        let n: usize = self.accessors.len();
        let mut cur: usize = a;
        let mut steps: usize = 1;
        loop
            invariant
                self.wf(),
                a < n == self.accs().len(),
                cur < self.accs().len(),
                self.accs()[cur as int].cell == self.accs()[a as int].cell,
                steps + depth(self.accs(), cur as int) == depth(self.accs(), a as int) + 1,
                depth(self.accs(), a as int) <= a + 1,
            decreases cur,
        {
            let x = self.accessors[cur];
            proof {
                assert(self.shaped(cur as int));
            }
            let deeper = match x.kind {
                Kind::Owner => false,
                _ => x.to_slot,
            };
            if !deeper {
                return (x.cell, steps);
            }
            proof {
                lemma_depth_bound(self.accs(), x.lender as int);
                assert(depth(self.accs(), cur as int) == depth(self.accs(), x.lender as int) + 1);
            }
            cur = x.lender;
            steps += 1;
        }
    }

    /// Reads the value of accessor `a`'s cell, through the implicit
    /// projection, where `a` holds Read.
    pub fn read(&self, a: usize) -> (r: Result<Value, Violation>)
        requires
            self.wf(),
        ensures
            r == self.read_outcome(a as int),
    {
        match self.check_access(a, false) {
            Err(e) => Err(e),
            Ok(()) => {
                let (c, _steps) = self.resolve(a);
                proof {
                    assert(self.shaped(a as int));
                }
                Ok(self.cells[c].duplicate())
            },
        }
    }
    /// Allocates a cell holding `v` and declares its owning binding, which
    /// holds Read, Write and Own. Returns the owner's identity.
    pub fn allocate(&mut self, v: Value) -> (id: usize)
        requires
            old(self).wf(),
            old(self).accs().len() < usize::MAX,
            old(self).cells().len() < usize::MAX,
        ensures
            final(self).wf(),
            id == old(self).accs().len(),
            final(self).cells() == old(self).cells().push(v),
            final(self).accs() == old(self).accs().push(
                Accessor {
                    kind: Kind::Owner,
                    cell: old(self).cells().len() as usize,
                    lender: id,
                    to_slot: false,
                    live: true,
                },
            ),
    {
        let ghost pre = *self;
        let id = self.accessors.len();
        let cell = self.cells.len();
        self.cells.push(v);
        self.accessors.push(Accessor { kind: Kind::Owner, cell, lender: id, to_slot: false, live: true });
        proof {
            assert forall|i: int| 0 <= i < self.accs().len() implies #[trigger] self.shaped(i) by {
                if i < id {
                    assert(pre.shaped(i));
                    lemma_chain_frame(pre.accs(), self.accs(), i);
                }
            }
            lemma_loans_kept(&pre, self);
            assert forall|c: int, i: int, j: int|
                #![trigger self.is_owner_of(i, c), self.is_owner_of(j, c)]
                self.is_owner_of(i, c) && self.is_owner_of(j, c) implies i == j by {
                if i < id {
                    assert(pre.shaped(i));
                }
                if j < id {
                    assert(pre.shaped(j));
                }
                if i < id && j < id {
                    assert(pre.is_owner_of(i, c) && pre.is_owner_of(j, c));
                }
            }
        }
        id
    }

    /// Takes a reference from accessor `from`: a mutable one where `from`
    /// holds Read and Write, a shared one where it holds Read. With
    /// `to_slot` the reference denotes `from` itself (only an owner's slot
    /// can be borrowed mutably), else the value it reaches. No loan is taken
    /// from a mutable reference, which stays alone on its cell. Returns the
    /// new reference's identity.
    pub fn borrow(&mut self, from: usize, mutable: bool, to_slot: bool) -> (r: Result<
        usize,
        Violation,
    >)
        requires
            old(self).wf(),
            old(self).accs().len() < usize::MAX,
        ensures
            final(self).wf(),
            final(self).cells() == old(self).cells(),
            match old(self).borrow_denial(from as int, mutable, to_slot) {
                Some(e) => r == Err::<usize, Violation>(e) && final(self).accs() == old(self).accs(),
                None => r == Ok::<usize, Violation>(old(self).accs().len() as usize)
                    && final(self).accs() == old(self).accs().push(
                    old(self).loan(from as int, mutable, to_slot),
                ),
            },
    {
        if let Err(e) = self.check_access(from, mutable) {
            return Err(e);
        }
        if mutable && to_slot {
            match self.accessors[from].kind {
                Kind::Owner => {},
                _ => {
                    return Err(Violation::SlotReadOnly);
                },
            }
        }
        if let Kind::Mutable = self.accessors[from].kind {
            return Err(Violation::Exclusive);
        }
        let ghost pre = *self;
        let id = self.accessors.len();
        let kind = if mutable {
            Kind::Mutable
        } else {
            Kind::Shared
        };
        let cell = self.accessors[from].cell;
        self.accessors.push(Accessor { kind, cell, lender: from, to_slot, live: true });
        proof {
            assert(pre.shaped(from as int));
            assert forall|i: int| 0 <= i < self.accs().len() implies #[trigger] self.shaped(i) by {
                if i < id {
                    assert(pre.shaped(i));
                    lemma_chain_frame(pre.accs(), self.accs(), i);
                } else {
                    lemma_chain_frame(pre.accs(), self.accs(), from as int);
                }
            }
            assert forall|a: int, i: int, j: int|
                #![trigger self.is_loan_from(i, a), self.is_loan_from(j, a)]
                i != j && self.is_loan_from(i, a) && self.is_loan_from(j, a)
                implies self.accs()[i].kind == Kind::Shared by {
                if i < id && j < id {
                    assert(pre.is_loan_from(i, a) && pre.is_loan_from(j, a));
                } else if i < id {
                    assert(pre.is_loan_from(i, a));
                } else {
                    assert(pre.is_loan_from(j, a));
                }
            }
            assert forall|c: int, i: int, j: int|
                #![trigger self.is_ref_of(i, c), self.is_ref_of(j, c)]
                i != j && self.is_ref_of(i, c) && self.is_ref_of(j, c)
                implies self.accs()[i].kind == Kind::Shared by {
                if i < id && j < id {
                    assert(pre.is_ref_of(i, c) && pre.is_ref_of(j, c));
                } else {
                    let m = if i < id { i } else { j };
                    assert(pre.is_ref_of(m, c));
                    assert(pre.shaped(m));
                    if mutable {
                        lemma_rooted(&pre, m);
                        let o = choose|o: int| pre.is_owner_of(o, c) && pre.lent(o);
                        assert(pre.is_owner_of(from as int, c));
                        assert(o == from);
                    } else if pre.accs()[m].kind == Kind::Mutable {
                        let lm = pre.accs()[m].lender as int;
                        assert(pre.is_loan_from(m, lm));
                        if pre.accs()[from as int].kind == Kind::Owner {
                            assert(pre.is_owner_of(from as int, c));
                            assert(pre.is_owner_of(lm, c));
                            assert(pre.lent_mutably(from as int));
                        } else {
                            assert(pre.is_ref_of(from as int, c));
                        }
                    }
                }
            }
            lemma_owners_kept(&pre, self);
        }
        Ok(id)
    }

    /// Replaces the value of accessor `a`'s cell by `v`, where `a` holds
    /// Write. Every accessor of that cell sees the new value.
    pub fn write(&mut self, a: usize, v: Value) -> (r: Result<(), Violation>)
        requires
            old(self).wf(),
        ensures
            final(self).wf(),
            match old(self).denial(a as int, true) {
                Some(e) => r == Err::<(), Violation>(e) && final(self).cells() == old(self).cells()
                    && final(self).accs() == old(self).accs(),
                None => r == Ok::<(), Violation>(()) && old(self).wrote(a as int, v, *final(self)),
            },
    {
        if let Err(e) = self.check_access(a, true) {
            return Err(e);
        }
        let ghost pre = *self;
        let (c, _steps) = self.resolve(a);
        proof {
            assert(pre.shaped(a as int));
        }
        self.cells.set(c, v);
        proof {
            assert forall|i: int| 0 <= i < self.accs().len() implies #[trigger] self.shaped(i) by {
                assert(pre.shaped(i));
            }
            lemma_loans_kept(&pre, self);
            lemma_owners_kept(&pre, self);
        }
        Ok(())
    }

    /// Ends accessor `a`'s lifetime, where no loan taken from it is live:
    /// the permissions its loans suspended are back with its lender, and an
    /// owner's cell is dropped.
    pub fn release(&mut self, a: usize) -> (r: Result<(), Violation>)
        requires
            old(self).wf(),
        ensures
            final(self).wf(),
            final(self).cells() == old(self).cells(),
            match old(self).release_denial(a as int) {
                Some(e) => r == Err::<(), Violation>(e) && final(self).accs() == old(self).accs(),
                None => r == Ok::<(), Violation>(()) && final(self).accs() == old(self).accs().update(
                    a as int,
                    Accessor { live: false, ..old(self).accs()[a as int] },
                ),
            },
    {
        if a >= self.accessors.len() {
            return Err(Violation::Unknown);
        }
        let mut x = self.accessors[a];
        if !x.live {
            return Err(Violation::Released);
        }
        if self.has_loan(a, false) {
            return Err(Violation::StillBorrowed);
        }
        let ghost pre = *self;
        x.live = false;
        self.accessors.set(a, x);
        proof {
            assert forall|i: int| 0 <= i < self.accs().len() implies #[trigger] self.shaped(i) by {
                assert(pre.shaped(i));
                lemma_chain_frame(pre.accs(), self.accs(), i);
                if self.accs()[i].kind != Kind::Owner && self.accs()[i].live {
                    assert(!pre.is_loan_from(i, a as int));
                }
            }
            lemma_loans_kept(&pre, self);
            lemma_owners_kept(&pre, self);
        }
        Ok(())
    }
    /// The accessor with identity `a`.
    pub fn accessor(&self, a: usize) -> (r: Accessor)
        requires
            a < self.accs().len(),
        ensures
            r == self.accs()[a as int],
    {
        self.accessors[a]
    }

    /// Moves ownership of its cell out of owning binding `a`, where `a`
    /// holds Own, into a new owning binding: `a`'s lifetime ends and the
    /// cell keeps one owner. Returns the new owner's identity.
    pub fn move_owner(&mut self, a: usize) -> (r: Result<usize, Violation>)
        requires
            old(self).wf(),
            old(self).accs().len() < usize::MAX,
        ensures
            final(self).wf(),
            final(self).cells() == old(self).cells(),
            match old(self).move_denial(a as int) {
                Some(e) => r == Err::<usize, Violation>(e) && final(self).accs() == old(self).accs(),
                None => r == Ok::<usize, Violation>(old(self).accs().len() as usize)
                    && final(self).accs() == old(self).accs().update(
                    a as int,
                    Accessor { live: false, ..old(self).accs()[a as int] },
                ).push(
                    Accessor {
                        kind: Kind::Owner,
                        cell: old(self).accs()[a as int].cell,
                        lender: old(self).accs().len() as usize,
                        to_slot: false,
                        live: true,
                    },
                ),
            },
    {
        if let Err(e) = self.check_access(a, true) {
            return Err(e);
        }
        let mut x = self.accessors[a];
        match x.kind {
            Kind::Owner => {},
            _ => {
                return Err(Violation::NotOwner);
            },
        }
        let ghost pre = *self;
        let id = self.accessors.len();
        x.live = false;
        self.accessors.set(a, x);
        self.accessors.push(
            Accessor { kind: Kind::Owner, cell: x.cell, lender: id, to_slot: false, live: true },
        );
        proof {
            assert forall|i: int| 0 <= i < self.accs().len() implies #[trigger] self.shaped(i) by {
                if i < id {
                    assert(pre.shaped(i));
                    lemma_chain_frame(pre.accs(), self.accs(), i);
                    if self.accs()[i].kind != Kind::Owner && self.accs()[i].live {
                        assert(!pre.is_loan_from(i, a as int));
                    }
                } else {
                    assert(pre.shaped(a as int));
                }
            }
            lemma_loans_kept(&pre, self);
            assert forall|c: int, i: int, j: int|
                #![trigger self.is_owner_of(i, c), self.is_owner_of(j, c)]
                self.is_owner_of(i, c) && self.is_owner_of(j, c) implies i == j by {
                if i < id && j < id {
                    assert(pre.is_owner_of(i, c) && pre.is_owner_of(j, c));
                } else if i < id {
                    assert(pre.is_owner_of(i, c) && pre.is_owner_of(a as int, c));
                } else if j < id {
                    assert(pre.is_owner_of(j, c) && pre.is_owner_of(a as int, c));
                }
            }
        }
        Ok(id)
    }
}

} // verus!
