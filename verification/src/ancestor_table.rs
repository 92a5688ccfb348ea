//! The jump table of a version: a short vector of versions, held inline.
use smallvec::SmallVec;
use vstd::prelude::*;

verus! {

/// The versions that a node can jump to, kept in a `smallvec::SmallVec` of 16 inline slots.
#[verifier::external_body]
#[derive(Debug)]
pub struct AncestorTable {
    ids: SmallVec<[u64; 16]>,
}

/// The versions that a jump table holds, nearest first.
pub uninterp spec fn table_ids(table: AncestorTable) -> Seq<u64>;

/// `SmallVec::new`: the vector is empty.
#[verifier::external_body]
pub(crate) fn new_table() -> (table: AncestorTable)
    ensures
        table_ids(table) == Seq::<u64>::empty(),
{
    AncestorTable { ids: SmallVec::new() }
}

/// `SmallVec::push`: the value is appended to the vector.
#[verifier::external_body]
pub(crate) fn push_id(table: &mut AncestorTable, id: u64)
    ensures
        table_ids(*final(table)) == table_ids(*old(table)).push(id),
{
    table.ids.push(id)
}

/// `SmallVec::len`: the number of values in the vector.
#[verifier::external_body]
pub(crate) fn table_len(table: &AncestorTable) -> (len: usize)
    ensures
        len == table_ids(*table).len(),
{
    table.ids.len()
}

/// Indexing of a `SmallVec`: the value at a position.
#[verifier::external_body]
pub(crate) fn table_id(table: &AncestorTable, index: usize) -> (id: u64)
    requires
        index < table_ids(*table).len(),
    ensures
        id == table_ids(*table)[index as int],
{
    table.ids[index]
}

impl AncestorTable {
    /// A table without jumps.
    pub fn new() -> (table: AncestorTable)
        ensures
            table_ids(table) == Seq::<u64>::empty(),
    {
        new_table()
    }

    /// The version that jump `k` leads to, if the table reaches that far.
    pub fn get(&self, k: usize) -> (id: Option<u64>)
        ensures
            id == (if k < table_ids(*self).len() {
                Some(table_ids(*self)[k as int])
            } else {
                None
            }),
    {
        if k < table_len(self) {
            Some(table_id(self, k))
        } else {
            None
        }
    }
}

} // verus!
