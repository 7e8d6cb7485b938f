//! Locks.
use crate::entity::{Entity, EntityModel};
use crate::text::reads;
use vstd::prelude::*;

verus! {

/// What a lock's tile shows.
#[derive(Debug, PartialEq, Eq)]
pub struct LockVM {
    pub state: String,
    pub is_locked: bool,
}

/// A lock that is locking counts as locked already.
pub open spec fn locked(e: EntityModel) -> bool {
    e.state == "locked"@ || e.state == "locking"@
}

impl LockVM {
    /// Reads the lock's state.
    pub fn from_entity(entity: &Entity) -> (r: LockVM)
        ensures
            r.state@ == entity@.state,
            r.is_locked == locked(entity@),
            r.state@ == entity.state@,
            r.is_locked <==> (entity.state@ == "locked"@ || entity.state@ == "locking"@),
    {
        LockVM {
            state: entity.state.clone(),
            is_locked: reads(&entity.state, "locked") || reads(&entity.state, "locking"),
        }
    }
}

} // verus!
