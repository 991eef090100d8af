//! The pending-name table: names of streams that wait to be created.
//!
//! Every name whose create request is in flight occupies one slot of a table
//! of fixed size. The slot's index is small enough to travel in one byte of
//! the correlation token.
use vstd::prelude::*;

verus! {

/// The most slots that a pending-name table can have. A slot's index has to
/// fit in one byte of the token, and its mark in one bit of a `u64`.
pub const MAX_PENDING: usize = 64;

/// Why a stream could not be requested.
#[derive(Clone, Copy, Debug, PartialEq, Eq)]
pub enum CreateStreamErr {
    /// The name already waits in the pending-name table.
    DuplicateName,
    /// Every slot of the pending-name table is taken.
    ReservationLimitExceeded,
}

/// A table of `capacity` slots is well formed when its occupied slots lie
/// below the capacity and no two of them hold the same name.
pub open spec fn pending_wf(pending: Map<int, Seq<u8>>, capacity: nat) -> bool {
    &&& capacity <= MAX_PENDING
    &&& forall|i: int| pending.dom().contains(i) ==> 0 <= i < capacity
    &&& forall|i: int, j: int|
        pending.dom().contains(i) && pending.dom().contains(j) && pending[i] == pending[j] ==> i
            == j
}

/// Some occupied slot holds `name`.
pub open spec fn holds_name(pending: Map<int, Seq<u8>>, name: Seq<u8>) -> bool {
    exists|i: int| pending.dom().contains(i) && #[trigger] pending[i] == name
}

/// None of the `capacity` slots is free.
pub open spec fn is_full(pending: Map<int, Seq<u8>>, capacity: nat) -> bool {
    forall|i: int| 0 <= i < capacity ==> pending.dom().contains(i)
}

/// Slot `i` is free and every slot below it is taken.
pub open spec fn is_lowest_free(pending: Map<int, Seq<u8>>, i: int, capacity: nat) -> bool {
    &&& 0 <= i < capacity
    &&& !pending.dom().contains(i)
    &&& forall|j: int| 0 <= j < i ==> pending.dom().contains(j)
}

/// What a reservation of `name` answers: the lowest free slot, unless the
/// name is already pending or no slot is free. The duplicate check comes
/// first.
pub open spec fn reserve_outcome(
    pending: Map<int, Seq<u8>>,
    name: Seq<u8>,
    capacity: nat,
) -> Result<u8, CreateStreamErr> {
    if holds_name(pending, name) {
        Err(CreateStreamErr::DuplicateName)
    } else if is_full(pending, capacity) {
        Err(CreateStreamErr::ReservationLimitExceeded)
    } else {
        Ok((choose|i: int| is_lowest_free(pending, i, capacity)) as u8)
    }
}

/// The table after a reservation of `name`: it gains the name at the slot
/// that was handed out, and is unchanged where the reservation failed.
pub open spec fn after_reserve(pending: Map<int, Seq<u8>>, name: Seq<u8>, capacity: nat) -> Map<
    int,
    Seq<u8>,
> {
    match reserve_outcome(pending, name, capacity) {
        Ok(idx) => pending.insert(idx as int, name),
        Err(_) => pending,
    }
}

/// Bit `i` of `mask` is set.
spec fn bit_set(mask: u64, i: u64) -> bool {
    (mask >> i) & 1u64 == 1u64
}

/// Slot `i` is marked as occupied in `mask`.
spec fn slot_taken(mask: u64, i: int) -> bool {
    0 <= i < MAX_PENDING && bit_set(mask, i as u64)
}

proof fn lemma_bit_after_set(mask: u64, i: u64, j: u64)
    requires
        i < 64,
        j < 64,
    ensures
        bit_set(mask | (1u64 << i), j) == (j == i || bit_set(mask, j)),
{
    assert(i < 64 && j < 64 ==> ((((mask | (1u64 << i)) >> j) & 1u64 == 1u64) == (j == i || (mask
        >> j) & 1u64 == 1u64))) by (bit_vector);
}

proof fn lemma_bit_after_clear(mask: u64, i: u64, j: u64)
    requires
        i < 64,
        j < 64,
    ensures
        bit_set(mask & !(1u64 << i), j) == (j != i && bit_set(mask, j)),
{
    assert(i < 64 && j < 64 ==> ((((mask & !(1u64 << i)) >> j) & 1u64 == 1u64) == (j != i && (
    mask >> j) & 1u64 == 1u64))) by (bit_vector);
}

proof fn lemma_bit_of_complement(mask: u64, j: u64)
    requires
        j < 64,
    ensures
        (((!mask) >> j) & 1u64 == 1u64) == !bit_set(mask, j),
        (((!mask) >> j) & 1u64 == 0u64) == bit_set(mask, j),
{
    assert(j < 64 ==> ((((!mask) >> j) & 1u64 == 1u64) == !((mask >> j) & 1u64 == 1u64)))
        by (bit_vector);
    assert(j < 64 ==> ((((!mask) >> j) & 1u64 == 0u64) == ((mask >> j) & 1u64 == 1u64)))
        by (bit_vector);
}

proof fn lemma_no_bit_set(j: u64)
    requires
        j < 64,
    ensures
        !bit_set(0u64, j),
{
    assert(j < 64 ==> (0u64 >> j) & 1u64 == 0u64) by (bit_vector);
}

/// The lowest free slot of a table is unique.
pub proof fn lemma_lowest_free_unique(pending: Map<int, Seq<u8>>, i: int, j: int, capacity: nat)
    requires
        is_lowest_free(pending, i, capacity),
        is_lowest_free(pending, j, capacity),
    ensures
        i == j,
{
    if i < j {
        assert(pending.dom().contains(i));
    } else if j < i {
        assert(pending.dom().contains(j));
    }
}

/// Whether two byte strings have the same contents.
pub fn same_bytes(a: &[u8], b: &[u8]) -> (same: bool)
    ensures
        same == (a@ == b@),
{
    if a.len() != b.len() {
        return false;
    }
    let mut k: usize = 0;
    while k < a.len()
        invariant
            a@.len() == b@.len(),
            k <= a@.len(),
            forall|m: int| 0 <= m < k ==> a@[m] == b@[m],
        decreases a@.len() - k,
    {
        if a[k] != b[k] {
            return false;
        }
        k += 1;
    }
    assert(a@ =~= b@);
    true
}

/// Streams that are waiting to be created.
pub struct RequestedStreamNames<'a> {
    /// A table, so that each name has a small address that fits in a `u8`.
    names: [&'a [u8]; MAX_PENDING],
    /// Bitmask where 1 = occupied, 0 = available. Lets a name leave the
    /// middle of the table without moving the others.
    used_slots: u64,
    /// How many of the slots are in use: those below this number.
    capacity: usize,
}

impl<'a> RequestedStreamNames<'a> {
    /// The occupied slots and the name that each of them holds.
    pub closed spec fn pending(&self) -> Map<int, Seq<u8>> {
        Map::new(
            |i: int| slot_taken(self.used_slots, i),
            |i: int| self.names[i]@,
        )
    }

    /// The number of slots.
    pub closed spec fn capacity(&self) -> nat {
        self.capacity as nat
    }

    /// The occupied slots lie below the capacity, and no two of them hold
    /// the same name.
    pub closed spec fn wf(&self) -> bool {
        pending_wf(self.pending(), self.capacity())
    }

    /// A well-formed table meets `pending_wf`.
    pub proof fn lemma_wf(&self)
        requires
            self.wf(),
        ensures
            pending_wf(self.pending(), self.capacity()),
    {
    }

    /// An empty table with the most slots that a table can have.
    pub fn new() -> (table: Self)
        ensures
            table.wf(),
            table.capacity() == MAX_PENDING,
            table.pending() == Map::<int, Seq<u8>>::empty(),
    {
        Self::with_capacity(MAX_PENDING)
    }

    /// An empty table with `capacity` slots.
    pub fn with_capacity(capacity: usize) -> (table: Self)
        requires
            capacity <= MAX_PENDING,
        ensures
            table.wf(),
            table.capacity() == capacity,
            table.pending() == Map::<int, Seq<u8>>::empty(),
    {
        let empty: &'a [u8] = &[];
        let table = RequestedStreamNames { names: [empty; MAX_PENDING], used_slots: 0, capacity };
        proof {
            assert forall|i: int| !slot_taken(0u64, i) by {
                if 0 <= i < 64 {
                    lemma_no_bit_set(i as u64);
                }
            }
            assert(table.pending() =~= Map::<int, Seq<u8>>::empty());
        }
        table
    }

    /// The name in slot `index`, if the slot is occupied.
    pub fn get(&self, index: u8) -> (name: Option<&'a [u8]>)
        ensures
            name is Some == self.pending().dom().contains(index as int),
            name matches Some(n) ==> n@ == self.pending()[index as int],
    {
        if (index as usize) < MAX_PENDING && (self.used_slots >> (index as u64)) & 1u64 == 1u64 {
            Some(self.names[index as usize])
        } else {
            None
        }
    }

    /// Whether `name` waits in some slot.
    pub fn contains(&self, name: &[u8]) -> (found: bool)
        ensures
            found == holds_name(self.pending(), name@),
    {
        let mut i: usize = 0;
        while i < MAX_PENDING
            invariant
                i <= MAX_PENDING,
                forall|j: int|
                    0 <= j < i && self.pending().dom().contains(j) ==> self.pending()[j] != name@,
            decreases MAX_PENDING - i,
        {
            if (self.used_slots >> (i as u64)) & 1u64 == 1u64 && same_bytes(self.names[i], name) {
                assert(self.pending().dom().contains(i as int) && self.pending()[i as int]
                    == name@);
                return true;
            }
            i += 1;
        }
        false
    }

    /// Reserves the lowest free slot for `name` and returns its index. A
    /// name that is already pending is refused, and so is any name while the
    /// table is full; a refusal changes nothing.
    pub fn add(&mut self, name: &'a [u8]) -> (r: Result<u8, CreateStreamErr>)
        requires
            old(self).wf(),
        ensures
            final(self).wf(),
            final(self).capacity() == old(self).capacity(),
            r == reserve_outcome(old(self).pending(), name@, old(self).capacity()),
            final(self).pending() == after_reserve(
                old(self).pending(),
                name@,
                old(self).capacity(),
            ),
            r matches Ok(idx) ==> is_lowest_free(
                old(self).pending(),
                idx as int,
                old(self).capacity(),
            ),
            r is Err ==> *final(self) == *old(self),
    {
        if self.contains(name) {
            return Err(CreateStreamErr::DuplicateName);
        }
        // Find the first free slot. It is of no use beyond the capacity.
        let free: u32 = (!self.used_slots).trailing_zeros();
        proof {
            vstd::std_specs::bits::axiom_u64_trailing_zeros(!self.used_slots);
            assert forall|j: int| 0 <= j < free && j < 64 implies self.pending().dom().contains(
                j,
            ) by {
                lemma_bit_of_complement(self.used_slots, j as u64);
            }
        }
        if free as usize >= self.capacity {
            return Err(CreateStreamErr::ReservationLimitExceeded);
        }
        let idx: u8 = free as u8;
        proof {
            let p = self.pending();
            lemma_bit_of_complement(self.used_slots, idx as u64);
            assert(is_lowest_free(p, idx as int, self.capacity()));
            let c = choose|i: int| is_lowest_free(p, i, self.capacity());
            lemma_lowest_free_unique(p, idx as int, c, self.capacity());
        }
        // Mark the slot as used.
        let ghost before = *self;
        self.used_slots = self.used_slots | (1u64 << (idx as u64));
        self.names[idx as usize] = name;
        proof {
            assert forall|j: int| slot_taken(self.used_slots, j) == (j == idx || slot_taken(
                before.used_slots,
                j,
            )) by {
                if 0 <= j < 64 {
                    lemma_bit_after_set(before.used_slots, idx as u64, j as u64);
                }
            }
            assert(self.pending() =~= before.pending().insert(idx as int, name@));
        }
        Ok(idx)
    }

    /// Frees slot `index` and returns the name that it held. The slot can be
    /// handed out again at once.
    pub fn remove(&mut self, index: u8) -> (name: &'a [u8])
        requires
            old(self).wf(),
            old(self).pending().dom().contains(index as int),
        ensures
            final(self).wf(),
            final(self).capacity() == old(self).capacity(),
            name@ == old(self).pending()[index as int],
            final(self).pending() == old(self).pending().remove(index as int),
    {
        let ghost before = *self;
        let empty: &'a [u8] = &[];
        let name: &'a [u8] = self.names[index as usize];
        self.used_slots = self.used_slots & !(1u64 << (index as u64));
        self.names[index as usize] = empty;
        proof {
            assert forall|j: int| slot_taken(self.used_slots, j) == (j != index && slot_taken(
                before.used_slots,
                j,
            )) by {
                if 0 <= j < 64 {
                    lemma_bit_after_clear(before.used_slots, index as u64, j as u64);
                }
            }
            assert(self.pending() =~= before.pending().remove(index as int));
        }
        name
    }
}

} // verus!
