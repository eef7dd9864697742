//! The client registry: a fixed-capacity table of slots shared by every
//! session. Each slot holds an optional display name and an optional
//! connection handle for the transport the session owns.
//!
//! A slot is *occupied* while it holds a connection handle, and *registered*
//! once it also holds a name. Well-formedness ([`Registry::wf`]) states the
//! central invariant: a name never outlives its connection. Every operation
//! touches only the slot it is given, so sessions serialized on the registry
//! cannot corrupt each other's slots.
//!
//! Connection handles are opaque `u64` tokens chosen by the transport layer;
//! the registry only stores and returns them.

use vstd::prelude::*;

use crate::MAX_NAME_LEN;

verus! {

/// Returned by [`Registry::allocate`] when every slot is occupied.
#[derive(Debug)]
pub struct RegistryFull;

/// A display name truncated and zero-padded to exactly [`MAX_NAME_LEN`] bytes.
pub open spec fn pad_name(n: Seq<u8>) -> Seq<u8> {
    Seq::new(MAX_NAME_LEN as nat, |i: int| if i < n.len() { n[i] } else { 0u8 })
}

/// Truncates and zero-pads a requested name to [`MAX_NAME_LEN`] bytes.
pub fn padded_name(n: &[u8]) -> (r: Vec<u8>)
    ensures
        r@ == pad_name(n@),
{
    let mut v: Vec<u8> = Vec::new();
    let mut i: usize = 0;
    while i < MAX_NAME_LEN
        invariant
            i <= MAX_NAME_LEN,
            v@.len() == i,
            forall|j: int| 0 <= j < i ==> v@[j] == (if j < n@.len() {
                n@[j]
            } else {
                0u8
            }),
        decreases MAX_NAME_LEN - i,
    {
        if i < n.len() {
            v.push(n[i]);
        } else {
            v.push(0u8);
        }
        i = i + 1;
    }
    proof {
        assert(v@ =~= pad_name(n@));
    }
    v
}

/// The lowest unoccupied slot index at or after `i`, or `None` if every
/// slot from `i` on holds a connection.
pub open spec fn first_free_from(conns: Seq<Option<u64>>, i: int) -> Option<int>
    decreases conns.len() - i,
{
    if 0 <= i < conns.len() {
        if conns[i] is None {
            Some(i)
        } else {
            first_free_from(conns, i + 1)
        }
    } else {
        None
    }
}

/// The lowest unoccupied slot index, or `None` when the table is full.
pub open spec fn first_free(conns: Seq<Option<u64>>) -> Option<int> {
    first_free_from(conns, 0)
}

/// If every slot in `[i, m)` is occupied and slot `m` is free, then `m` is
/// the first free slot at or after `i`. With `allocate`'s contract this is
/// the first-fit law: when slots `0..k` are occupied and slot `k` is free,
/// the next allocation returns `k`.
pub proof fn lemma_first_free_found(conns: Seq<Option<u64>>, i: int, m: int)
    requires
        0 <= i <= m < conns.len(),
        forall|j: int| i <= j < m ==> (#[trigger] conns[j]) is Some,
        conns[m] is None,
    ensures
        first_free_from(conns, i) == Some(m),
    decreases m - i,
{
    if i < m {
        lemma_first_free_found(conns, i + 1, m);
    }
}

/// If every slot at or after `i` is occupied there is no free slot there.
/// With `allocate`'s contract: a full table refuses the next allocation.
pub proof fn lemma_first_free_none(conns: Seq<Option<u64>>, i: int)
    requires
        0 <= i <= conns.len(),
        forall|j: int| i <= j < conns.len() ==> (#[trigger] conns[j]) is Some,
    ensures
        first_free_from(conns, i) is None,
    decreases conns.len() - i,
{
    if i < conns.len() {
        lemma_first_free_none(conns, i + 1);
    }
}

/// A slot that has just been released is allocatable again: once slot `i`
/// is free, the first free slot exists and is no higher than `i`.
pub proof fn lemma_free_slot_allocatable(conns: Seq<Option<u64>>, i: int)
    requires
        0 <= i < conns.len(),
        conns[i] is None,
    ensures
        first_free(conns) matches Some(k) && k <= i,
    decreases conns.len(),
{
    lemma_first_free_from_bounded(conns, 0, i);
}

/// Helper for [`lemma_free_slot_allocatable`]: scanning from `j` at or
/// below a free slot `i` finds a free slot no higher than `i`.
proof fn lemma_first_free_from_bounded(conns: Seq<Option<u64>>, j: int, i: int)
    requires
        0 <= j <= i < conns.len(),
        conns[i] is None,
    ensures
        first_free_from(conns, j) matches Some(k) && k <= i,
    decreases i - j,
{
    if conns[j] is Some {
        lemma_first_free_from_bounded(conns, j + 1, i);
    }
}

/// The `(index, name)` pairs of every registered slot at or after `i`, in
/// slot-index order: the consistent snapshot WHO and broadcast iterate.
pub open spec fn entries_from(names: Seq<Option<Seq<u8>>>, i: int) -> Seq<(int, Seq<u8>)>
    decreases names.len() - i,
{
    if 0 <= i < names.len() {
        let rest = entries_from(names, i + 1);
        if names[i] is Some {
            seq![(i, names[i]->0)] + rest
        } else {
            rest
        }
    } else {
        Seq::empty()
    }
}

/// The fixed-capacity table of client slots.
///
/// The two columns are indexed in parallel: `names[i]` is present iff a
/// client has joined at slot `i`, `conns[i]` is present iff slot `i` is
/// occupied by a live connection.
pub struct Registry {
    names: Vec<Option<Vec<u8>>>,
    conns: Vec<Option<u64>>,
}

impl Registry {
    /// The name column as a mathematical sequence.
    pub closed spec fn names_model(&self) -> Seq<Option<Seq<u8>>> {
        Seq::new(
            self.names@.len(),
            |i: int|
                if self.names@[i] is Some {
                    Some(self.names@[i]->0@)
                } else {
                    None
                },
        )
    }

    /// The connection column as a mathematical sequence.
    pub closed spec fn conns_model(&self) -> Seq<Option<u64>> {
        self.conns@
    }

    /// Number of slots; fixed at construction.
    pub open spec fn slot_count(&self) -> int {
        self.names_model().len() as int
    }

    /// The registered name at slot `i`, if any.
    pub open spec fn name_at(&self, i: int) -> Option<Seq<u8>> {
        self.names_model()[i]
    }

    /// The connection handle at slot `i`, if any.
    pub open spec fn conn_at(&self, i: int) -> Option<u64> {
        self.conns_model()[i]
    }

    /// Well-formedness: the two columns have equal length, a name is never
    /// present without a connection, and every stored name is exactly
    /// [`MAX_NAME_LEN`] bytes.
    pub open spec fn wf(&self) -> bool {
        &&& self.conns_model().len() == self.names_model().len()
        &&& forall|i: int|
            0 <= i < self.slot_count() ==> ((#[trigger] self.name_at(i)) is Some
                ==> self.conn_at(i) is Some && self.name_at(i)->0.len() == MAX_NAME_LEN)
    }

    /// Invariant I1, on the record: in a well-formed registry a registered
    /// slot always still holds its connection.
    pub proof fn lemma_name_implies_conn(&self, i: int)
        requires
            self.wf(),
            0 <= i < self.slot_count(),
            self.name_at(i) is Some,
        ensures
            self.conn_at(i) is Some,
    {
    }

    /// A fresh registry with `capacity` slots, all unoccupied.
    pub fn new(capacity: usize) -> (r: Registry)
        ensures
            r.wf(),
            r.slot_count() == capacity,
            forall|i: int| 0 <= i < capacity ==> r.name_at(i) is None,
            forall|i: int| 0 <= i < capacity ==> r.conn_at(i) is None,
    {
        let mut names: Vec<Option<Vec<u8>>> = Vec::new();
        let mut conns: Vec<Option<u64>> = Vec::new();
        let mut i: usize = 0;
        while i < capacity
            invariant
                i <= capacity,
                names@.len() == i,
                conns@.len() == i,
                forall|j: int| 0 <= j < i ==> (#[trigger] names@[j]) is None,
                forall|j: int| 0 <= j < i ==> (#[trigger] conns@[j]) is None,
            decreases capacity - i,
        {
            names.push(None);
            conns.push(None);
            i = i + 1;
        }
        Registry { names, conns }
    }

    /// Number of slots.
    pub fn capacity(&self) -> (r: usize)
        ensures
            r == self.slot_count(),
    {
        self.names.len()
    }

    /// Claims the lowest unoccupied slot for a new connection (first-fit,
    /// lowest index wins) and returns its index; fails with [`RegistryFull`]
    /// if and only if every slot is occupied. No other slot changes.
    pub fn allocate(&mut self, conn: u64) -> (r: Result<usize, RegistryFull>)
        requires
            old(self).wf(),
        ensures
            final(self).wf(),
            final(self).slot_count() == old(self).slot_count(),
            (r is Err <==> first_free(old(self).conns_model()) is None),
            (r is Err ==> forall|j: int|
                0 <= j < old(self).slot_count() ==> (#[trigger] old(self).conn_at(j)) is Some),
            (r is Err ==> final(self).names_model() == old(self).names_model()
                && final(self).conns_model() == old(self).conns_model()),
            (r matches Ok(k) ==> {
                &&& first_free(old(self).conns_model()) == Some(k as int)
                &&& k < old(self).slot_count()
                &&& old(self).conn_at(k as int) is None
                &&& old(self).name_at(k as int) is None
                &&& forall|j: int| 0 <= j < k ==> (#[trigger] old(self).conn_at(j)) is Some
                &&& final(self).conns_model() == old(self).conns_model().update(
                    k as int,
                    Some(conn),
                )
                &&& final(self).names_model() == old(self).names_model()
            }),
    {
        let n: usize = self.conns.len();
        let mut i: usize = 0;
        while i < n
            invariant
                i <= n,
                n == self.conns@.len(),
                *self == *old(self),
                old(self).wf(),
                forall|j: int| 0 <= j < i ==> (#[trigger] self.conns@[j]) is Some,
            decreases n - i,
        {
            if self.conns[i].is_none() {
                proof {
                    lemma_first_free_found(self.conns@, 0, i as int);
                }
                self.conns[i] = Some(conn);
                proof {
                    assert(self.conns_model() =~= old(self).conns_model().update(
                        i as int,
                        Some(conn),
                    ));
                    assert(self.names_model() =~= old(self).names_model());
                    assert forall|j: int|
                        0 <= j < self.slot_count() && (#[trigger] self.name_at(j)) is Some implies
                        self.conn_at(j) is Some && self.name_at(j)->0.len() == MAX_NAME_LEN by {
                        assert(old(self).name_at(j) is Some);
                    }
                }
                return Ok(i);
            }
            i = i + 1;
        }
        proof {
            lemma_first_free_none(self.conns@, 0);
        }
        Err(RegistryFull)
    }

    /// The registered name at a slot, or `None` if the slot is unregistered
    /// or unoccupied. A consistent snapshot: the returned copy cannot be
    /// torn by later registry updates.
    pub fn lookup_name(&self, index: usize) -> (r: Option<Vec<u8>>)
        requires
            index < self.slot_count(),
        ensures
            (r is Some <==> self.name_at(index as int) is Some),
            (r matches Some(v) ==> v@ == self.name_at(index as int)->0),
    {
        match &self.names[index] {
            Some(v) => Some(clone_bytes(v)),
            None => None,
        }
    }

    /// Whether the client at `index` has registered a name.
    pub fn is_registered(&self, index: usize) -> (r: bool)
        requires
            index < self.slot_count(),
        ensures
            r == (self.name_at(index as int) is Some),
    {
        self.names[index].is_some()
    }

    /// Whether slot `index` is occupied by a live connection.
    pub fn has_conn(&self, index: usize) -> (r: bool)
        requires
            self.wf(),
            index < self.slot_count(),
        ensures
            r == (self.conn_at(index as int) is Some),
    {
        self.conns[index].is_some()
    }

    /// The connection handle at slot `index`, if any.
    pub fn conn(&self, index: usize) -> (r: Option<u64>)
        requires
            self.wf(),
            index < self.slot_count(),
        ensures
            r == self.conn_at(index as int),
    {
        self.conns[index]
    }

    /// Registers a (truncated, zero-padded) name at an occupied,
    /// as-yet-unregistered slot. Preventing an overwrite of an
    /// already-registered slot is the caller's responsibility, as is
    /// never addressing an unoccupied slot. No other slot changes.
    pub fn set_name(&mut self, index: usize, name: &[u8])
        requires
            old(self).wf(),
            index < old(self).slot_count(),
            old(self).conn_at(index as int) is Some,
            old(self).name_at(index as int) is None,
        ensures
            final(self).wf(),
            final(self).names_model() == old(self).names_model().update(
                index as int,
                Some(pad_name(name@)),
            ),
            final(self).conns_model() == old(self).conns_model(),
    {
        let padded = padded_name(name);
        self.names[index] = Some(padded);
        proof {
            assert(self.names_model() =~= old(self).names_model().update(
                index as int,
                Some(pad_name(name@)),
            ));
            assert forall|j: int|
                0 <= j < self.slot_count() && (#[trigger] self.name_at(j)) is Some implies self.conn_at(
                    j,
                ) is Some && self.name_at(j)->0.len() == MAX_NAME_LEN by {
                if j != index {
                    assert(old(self).name_at(j) is Some);
                }
            }
        }
    }

    /// Clears both fields of a slot, making it available for reuse, and
    /// returns the connection handle that must now be closed, if the slot
    /// still held one. Idempotent: releasing an already-released slot
    /// changes nothing and returns `None`. No other slot changes.
    pub fn release(&mut self, index: usize) -> (r: Option<u64>)
        requires
            old(self).wf(),
            index < old(self).slot_count(),
        ensures
            final(self).wf(),
            r == old(self).conn_at(index as int),
            final(self).names_model() == old(self).names_model().update(index as int, None),
            final(self).conns_model() == old(self).conns_model().update(index as int, None),
    {
        let conn = self.conns[index];
        self.names[index] = None;
        self.conns[index] = None;
        proof {
            assert(self.names_model() =~= old(self).names_model().update(index as int, None));
            assert(self.conns_model() =~= old(self).conns_model().update(index as int, None));
            assert forall|j: int|
                0 <= j < self.slot_count() && (#[trigger] self.name_at(j)) is Some implies self.conn_at(
                    j,
                ) is Some && self.name_at(j)->0.len() == MAX_NAME_LEN by {
                assert(old(self).name_at(j) is Some);
            }
        }
        conn
    }

    /// A snapshot of every registered slot's `(index, name)` pair, in
    /// slot-index order, taken at one consistent point in time.
    pub fn registered_entries(&self) -> (r: Vec<(usize, Vec<u8>)>)
        ensures
            r@.map_values(|e: (usize, Vec<u8>)| (e.0 as int, e.1@)) == entries_from(
                self.names_model(),
                0,
            ),
    {
        let n: usize = self.names.len();
        let mut out: Vec<(usize, Vec<u8>)> = Vec::new();
        let mut i: usize = 0;
        while i < n
            invariant
                i <= n,
                n == self.names_model().len(),
                out@.map_values(|e: (usize, Vec<u8>)| (e.0 as int, e.1@)) + entries_from(
                    self.names_model(),
                    i as int,
                ) == entries_from(self.names_model(), 0),
            decreases n - i,
        {
            let ghost pre = out@.map_values(|e: (usize, Vec<u8>)| (e.0 as int, e.1@));
            match &self.names[i] {
                Some(v) => {
                    let entry = (i, clone_bytes(v));
                    out.push(entry);
                    proof {
                        assert(out@.map_values(|e: (usize, Vec<u8>)| (e.0 as int, e.1@)) =~= pre
                            + seq![(i as int, self.names_model()[i as int]->0)]);
                        assert(pre + seq![(i as int, self.names_model()[i as int]->0)]
                            + entries_from(self.names_model(), i + 1) =~= pre + entries_from(
                            self.names_model(),
                            i as int,
                        ));
                    }
                },
                None => {},
            }
            i = i + 1;
        }
        out
    }
}

/// An owned copy of a byte vector.
fn clone_bytes(v: &Vec<u8>) -> (r: Vec<u8>)
    ensures
        r@ == v@,
{
    vstd::slice::slice_to_vec(v.as_slice())
}

} // verus!
