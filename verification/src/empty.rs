//! A table with a schema but no data: a placeholder provider that can be
//! registered and described but never scanned.

use vstd::prelude::*;

use crate::error::BuzzError;
use crate::scanner::PhysicalPlan;
use crate::schema::Schema;

verus! {

/// A table with a schema but no data.
pub struct EmptyTable {
    pub schema: Schema,
}

impl EmptyTable {
    /// Initialize a new `EmptyTable` from a schema.
    pub fn new(schema: Schema) -> (r: Self)
        ensures
            r.schema@ == schema@,
    {
        Self { schema }
    }

    /// Returns the table's schema.
    pub fn get_schema(&self) -> (r: Schema)
        ensures
            r@ == self.schema@,
    {
        self.schema.clone()
    }

    /// An empty table cannot generate an execution plan: every scan is a
    /// plan error, whatever the projection and batch size.
    pub fn scan(&self, projection: Option<Vec<usize>>, batch_size: usize) -> (r: Result<
        PhysicalPlan,
        BuzzError,
    >)
        ensures
            r matches Err(e) && e matches BuzzError::Plan(_),
    {
        let _ = projection;
        let _ = batch_size;
        Err(BuzzError::Plan("Empty table cannot generate an execution plan".to_owned()))
    }
}

} // verus!
