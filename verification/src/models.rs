use vstd::prelude::*;

verus! {

/// One row of the managed table: an id assigned by the store on creation
/// and a single mutable string column.
pub struct Item {
    pub id: i32,
    pub name: String,
}

/// The data for a row about to be inserted; the id is assigned by the store.
pub struct NewItem<'a> {
    pub name: &'a String,
}

/// The request body accepted by the create and update handlers:
/// a single string field.
pub struct SampleObject {
    pub name: String,
}

} // verus!
