//! Identity of a spawned unit of work.

use vstd::prelude::*;

use crate::time::UnixTime;

verus! {

/// Unique identity of a job. The 128-bit value alone decides equality;
/// the order-time stamp is informational and serves chronological
/// display. Created exactly once at job submission, never recycled.
#[derive(Clone, Copy, Debug)]
pub struct JobId {
    pub order_time: UnixTime,
    pub uuidv4: u128,
}

impl JobId {
    /// A fresh identity: a random 128-bit value stamped with the
    /// current clock reading.
    pub fn new() -> JobId {
        JobId { order_time: UnixTime::now(), uuidv4: fresh_uuid_value() }
    }
}

impl PartialEq for JobId {
    fn eq(&self, other: &JobId) -> (r: bool) {
        self.uuidv4 == other.uuidv4
    }
}

impl vstd::std_specs::cmp::PartialEqSpecImpl for JobId {
    open spec fn obeys_eq_spec() -> bool {
        true
    }

    open spec fn eq_spec(&self, other: &JobId) -> bool {
        self.uuidv4 == other.uuidv4
    }
}

impl Eq for JobId {}

impl Default for JobId {
    fn default() -> JobId {
        JobId::new()
    }
}

/// Relies on uuid::Uuid::new_v4: a random (version 4) identifier,
/// handed back as its 128-bit value. Nothing can be promised of a
/// random draw.
#[verifier::external_body]
pub(crate) fn fresh_uuid_value() -> u128 {
    uuid::Uuid::new_v4().as_u128()
}

} // verus!
