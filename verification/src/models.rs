//! Plain data carried between the tiers: object descriptions, record
//! batches, and the control actions of the scanner/combiner RPC surface.

use vstd::prelude::*;

use crate::schema::{Schema, SchemaV};

verus! {

/// One immutable object of the store: its key and its byte length.
pub struct SizedFile {
    pub key: String,
    pub length: u64,
}

/// Mathematical image of a `SizedFile`.
pub struct SizedFileV {
    pub key: Seq<char>,
    pub length: u64,
}

impl View for SizedFile {
    type V = SizedFileV;

    open spec fn view(&self) -> SizedFileV {
        SizedFileV { key: self.key@, length: self.length }
    }
}

impl Clone for SizedFile {
    fn clone(&self) -> (r: Self)
        ensures
            r@ == self@,
    {
        SizedFile { key: self.key.clone(), length: self.length }
    }
}

/// One columnar record batch. The row payload is opaque to the fabric: it is
/// moved, counted and concatenated, never inspected.
pub struct RecordBatch {
    pub schema: Schema,
    pub num_rows: usize,
    pub payload: Vec<u64>,
}

/// Mathematical image of a `RecordBatch`.
pub struct RecordBatchV {
    pub schema: SchemaV,
    pub num_rows: usize,
    pub payload: Seq<u64>,
}

impl View for RecordBatch {
    type V = RecordBatchV;

    open spec fn view(&self) -> RecordBatchV {
        RecordBatchV { schema: self.schema@, num_rows: self.num_rows, payload: self.payload@ }
    }
}

impl Clone for RecordBatch {
    fn clone(&self) -> (r: Self)
        ensures
            r@ == self@,
    {
        let mut payload: Vec<u64> = Vec::new();
        let mut i: usize = 0;
        while i < self.payload.len()
            invariant
                0 <= i <= self.payload.len(),
                payload@ == self.payload@.take(i as int),
            decreases self.payload.len() - i,
        {
            payload.push(self.payload[i]);
            proof {
                assert(payload@ =~= self.payload@.take(i + 1));
            }
            i += 1;
        }
        proof {
            assert(self.payload@.take(self.payload@.len() as int) =~= self.payload@);
        }
        RecordBatch { schema: self.schema.clone(), num_rows: self.num_rows, payload }
    }
}

/// The row payloads of a batch sequence, concatenated in order.
pub open spec fn concat_payloads(s: Seq<RecordBatchV>) -> Seq<u64>
    decreases s.len(),
{
    if s.len() == 0 {
        Seq::empty()
    } else {
        concat_payloads(s.drop_last()) + s.last().payload
    }
}

/// The total row count of a batch sequence.
pub open spec fn total_rows(s: Seq<RecordBatchV>) -> int
    decreases s.len(),
{
    if s.len() == 0 {
        0
    } else {
        total_rows(s.drop_last()) + s.last().num_rows
    }
}

/// The FAIL control action a scanner sends to its combiner when any step of
/// its work errs, instead of an upload.
pub struct Fail {
    pub query_id: String,
    pub reason: String,
}

/// Mathematical image of a `Fail`.
pub struct FailV {
    pub query_id: Seq<char>,
    pub reason: Seq<char>,
}

impl View for Fail {
    type V = FailV;

    open spec fn view(&self) -> FailV {
        FailV { query_id: self.query_id@, reason: self.reason@ }
    }
}

impl Clone for Fail {
    fn clone(&self) -> (r: Self)
        ensures
            r@ == self@,
    {
        Fail { query_id: self.query_id.clone(), reason: self.reason.clone() }
    }
}

/// The control-plane action kinds of the RPC surface.
#[derive(Clone, Copy, PartialEq, Eq, Structural, Debug)]
pub enum ActionType {
    Fail,
    HealthCheck,
    Unknown,
}

/// Which action kind a wire-level action name denotes.
pub open spec fn spec_action_type(name: Seq<char>) -> ActionType {
    if name == "Fail"@ {
        ActionType::Fail
    } else if name == "HealthCheck"@ {
        ActionType::HealthCheck
    } else {
        ActionType::Unknown
    }
}

impl ActionType {
    /// Decodes a wire-level action name; every unknown name maps to
    /// `Unknown`.
    pub fn from_string(name: &String) -> (r: ActionType)
        ensures
            r == spec_action_type(name@),
    {
        let fail_name: String = "Fail".to_owned();
        let health_name: String = "HealthCheck".to_owned();
        if *name == fail_name {
            ActionType::Fail
        } else if *name == health_name {
            ActionType::HealthCheck
        } else {
            ActionType::Unknown
        }
    }
}

} // verus!
