//! The slab of the `slab` crate that holds the dispatcher's entries, as a
//! map from index to entry.
//!
//! Nothing in this file is proved: each function makes one call into the
//! slab, and its contract states what the slab's source shows of that call.

use crate::net::Evented;
use vstd::prelude::*;

verus! {

/// A slab of socket entries, indexed by `usize`.
#[verifier::external_body]
pub struct Table {
    slab: slab::Slab<Evented, usize>,
}

/// The entries that the slab holds, each under its index.
pub uninterp spec fn table_view(table: Table) -> Map<usize, Evented>;

/// The number of entries that the slab was made for.
pub uninterp spec fn table_limit(table: Table) -> nat;

/// The map of a slab without entries.
pub open spec fn no_entries() -> Map<usize, Evented> {
    Map::empty()
}

/// `Slab::new`: an empty slab with room for `capacity` entries. The crate
/// adds one to the capacity, which overflows at `usize::MAX`.
#[verifier::external_body]
pub(crate) fn table_new(capacity: usize) -> (made: Table)
    requires
        capacity < usize::MAX,
    ensures
        table_view(made) == no_entries(),
        table_limit(made) == capacity,
{
    Table { slab: slab::Slab::new(capacity) }
}

/// `Slab::insert`: puts `entry` into a free slot and gives the slot's index,
/// which no entry had; the other entries stay. A slab that holds as many
/// entries as it was made for gives the entry back instead.
#[verifier::external_body]
pub(crate) fn table_insert(table: &mut Table, entry: Evented) -> (put: Result<usize, Evented>)
    ensures
        table_limit(*final(table)) == table_limit(*old(table)),
        put is Ok <==> table_view(*old(table)).dom().len() < table_limit(*old(table)),
        match put {
            Ok(idx) => {
                &&& idx < table_limit(*old(table))
                &&& !table_view(*old(table)).dom().contains(idx)
                &&& table_view(*final(table)) == table_view(*old(table)).insert(idx, entry)
            },
            Err(back) => back == entry && table_view(*final(table)) == table_view(*old(table)),
        },
    no_unwind
{
    table.slab.insert(entry)
}

/// `Slab::remove`: takes the entry at `idx` out; the other entries stay. The
/// slab overwrites the slot before it looks at it, which spoils its list of
/// free slots where the slot is vacant: there is to be an entry at `idx`.
#[verifier::external_body]
pub(crate) fn table_remove(table: &mut Table, idx: usize) -> (taken: Option<Evented>)
    requires
        idx < table_limit(*old(table)),
        table_view(*old(table)).dom().contains(idx),
    ensures
        table_limit(*final(table)) == table_limit(*old(table)),
        table_view(*final(table)) == table_view(*old(table)).remove(idx),
        taken == Some(table_view(*old(table))[idx]),
    no_unwind
{
    table.slab.remove(idx)
}

/// `Slab::get`: the entry at `idx`, if there is one. The index is to lie
/// within what the slab was made for.
#[verifier::external_body]
pub(crate) fn table_get(table: &Table, idx: usize) -> (found: Option<&Evented>)
    requires
        idx < table_limit(*table),
    ensures
        match found {
            Some(entry) => table_view(*table).dom().contains(idx) && *entry == table_view(
                *table,
            )[idx],
            None => !table_view(*table).dom().contains(idx),
        },
{
    table.slab.get(idx)
}

/// `Slab::get_mut`: the entry at `idx`, to be changed in place, if there is
/// one; the other entries stay. The index is to lie within what the slab was
/// made for.
#[verifier::external_body]
pub(crate) fn table_get_mut(table: &mut Table, idx: usize) -> (found: Option<&mut Evented>)
    requires
        idx < table_limit(*old(table)),
    ensures
        table_limit(*final(table)) == table_limit(*old(table)),
        match found {
            Some(entry) => {
                &&& table_view(*old(table)).dom().contains(idx)
                &&& *entry == table_view(*old(table))[idx]
                &&& table_view(*final(table)) == table_view(*old(table)).insert(
                    idx,
                    *final(entry),
                )
            },
            None => {
                &&& !table_view(*old(table)).dom().contains(idx)
                &&& table_view(*final(table)) == table_view(*old(table))
            },
        },
    no_unwind
{
    table.slab.get_mut(idx)
}

} // verus!
