//! UTechSmart mice with side-button grids.
use vstd::prelude::*;
use crate::drivers::registry::DriverKind;

pub mod venus;

pub use venus::VenusDriver;

verus! {

/// The drivers of this vendor.
pub fn registered_drivers() -> (r: Vec<DriverKind>)
    ensures
        r@ == seq![DriverKind::Venus],
{
    let d = VenusDriver;
    let mut r: Vec<DriverKind> = Vec::new();
    r.push(d.kind());
    r
}

} // verus!
