//! Readings of power and charge.
use crate::entity::{Entity, EntityModel};
use crate::number::Real32;
use vstd::prelude::*;

verus! {

/// The number that a sensor's state gives, where it is finite in single precision.
pub open spec fn state_reading(e: EntityModel) -> Option<Real32> {
    match e.state_number {
        Some(n) => if n.finite() && n.narrowed().finite() && !e.out_of_reach() {
            Some(n.narrowed())
        } else {
            None
        },
        None => None,
    }
}

/// The charge that a sensor's state gives, where it is between 0 and 100 percent.
pub open spec fn state_charge(e: EntityModel) -> Option<Real32> {
    match e.state_number {
        Some(n) => if n.within_percent() {
            state_reading(e)
        } else {
            None
        },
        None => None,
    }
}

/// Readings for the lanes of a power-flow tile.
pub struct PowerFlowVM;

impl PowerFlowVM {
    /// A flow in watts. The sign tells its direction.
    pub fn read_power_watts(entity: &Entity) -> (r: Option<Real32>)
        ensures
            r == state_reading(entity@),
    {
        match entity.state_number {
            Some(n) => if n.is_finite() && !entity.is_out_of_reach() {
                let v: Real32 = n.narrow();
                if v.is_finite() {
                    Some(v)
                } else {
                    None
                }
            } else {
                None
            },
            None => None,
        }
    }

    /// A state of charge in percent. A number outside 0..=100 is no charge.
    pub fn read_battery_pct(entity: &Entity) -> (r: Option<Real32>)
        ensures
            r == state_charge(entity@),
    {
        match entity.state_number {
            Some(n) => if n.to_percent().is_some() {
                Self::read_power_watts(entity)
            } else {
                None
            },
            None => None,
        }
    }
}

} // verus!
