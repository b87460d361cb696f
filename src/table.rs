//! The table of live connections: a fixed-capacity slab whose slot indices
//! are the connections' handles. A freed slot may be handed out again by the
//! next insertion.

use slab::Slab;
use vstd::prelude::*;

use crate::connection::Connection;

verus! {

#[verifier::external_type_specification]
#[verifier::external_body]
#[verifier::reject_recursive_types(T)]
#[verifier::reject_recursive_types(I)]
pub struct ExSlab<T, I>(Slab<T, I>);

/// The filled slots of a slab of connections, by index.
pub uninterp spec fn slots(s: Slab<Connection, usize>) -> Map<usize, Connection>;

/// The number of slots that a slab of connections was made with.
pub uninterp spec fn slot_count(s: Slab<Connection, usize>) -> nat;

/// Every filled slot lies below the slot count.
pub open spec fn slots_in_range(s: Slab<Connection, usize>) -> bool {
    &&& slots(s).dom().finite()
    &&& forall|k: usize| #[trigger] slots(s).contains_key(k) ==> k < slot_count(s)
}

/// Relies on slab's `Slab::with_capacity`: a slab with `capacity` slots, all
/// free. (It computes `capacity + 1`, hence the bound.)
#[verifier::external_body]
pub(crate) fn table_with_capacity(capacity: usize) -> (r: Slab<Connection, usize>)
    requires
        capacity < usize::MAX,
    ensures
        slots(r).dom() == Set::<usize>::empty(),
        slot_count(r) == capacity,
{
    Slab::with_capacity(capacity)
}

/// Relies on slab's `Slab::insert`: the value goes into a free slot, whose
/// index comes back; when no slot is free the value comes back instead.
#[verifier::external_body]
pub(crate) fn table_insert(s: &mut Slab<Connection, usize>, c: Connection) -> (r: Result<usize, Connection>)
    requires
        slots_in_range(*old(s)),
    ensures
        slot_count(*final(s)) == slot_count(*old(s)),
        slots_in_range(*final(s)),
        r is Ok <==> slots(*old(s)).dom().len() < slot_count(*old(s)),
        r matches Ok(i) ==> !slots(*old(s)).contains_key(i) && slots(*final(s)) == slots(
            *old(s),
        ).insert(i, c),
        r matches Err(v) ==> v == c && slots(*final(s)) == slots(*old(s)),
{
    s.insert(c)
}

/// Relies on slab's `Slab::get`: the value in slot `i`, if that slot is filled.
#[verifier::external_body]
pub(crate) fn table_get(s: &Slab<Connection, usize>, i: usize) -> (r: Option<&Connection>)
    ensures
        r is Some <==> slots(*s).contains_key(i),
        r matches Some(c) ==> *c == slots(*s)[i],
{
    s.get(i)
}

/// Relies on slab's `IndexMut` for `Slab` (which goes through `Slab::get_mut`):
/// the value in a filled slot, to change in place.
#[verifier::external_body]
pub(crate) fn table_get_mut(s: &mut Slab<Connection, usize>, i: usize) -> (r: &mut Connection)
    requires
        slots(*old(s)).contains_key(i),
    ensures
        *r == slots(*old(s))[i],
        slots(*final(s)) == slots(*old(s)).insert(i, *final(r)),
        slot_count(*final(s)) == slot_count(*old(s)),
{
    &mut s[i]
}

/// Relies on slab's `Slab::remove`: slot `i` is freed and its value comes
/// back; a free or out-of-range slot gives nothing.
#[verifier::external_body]
pub(crate) fn table_remove(s: &mut Slab<Connection, usize>, i: usize) -> (r: Option<Connection>)
    ensures
        r is Some <==> slots(*old(s)).contains_key(i),
        r matches Some(c) ==> c == slots(*old(s))[i],
        slots(*final(s)) == slots(*old(s)).remove(i),
        slot_count(*final(s)) == slot_count(*old(s)),
{
    s.remove(i)
}

} // verus!
