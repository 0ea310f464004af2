//! Logitech mice with extra buttons.
use vstd::prelude::*;
use crate::drivers::registry::DriverKind;

pub mod g502;

pub use g502::G502Driver;

verus! {

/// The drivers of this vendor.
pub fn registered_drivers() -> (r: Vec<DriverKind>)
    ensures
        r@ == seq![DriverKind::G502],
{
    let d = G502Driver;
    let mut r: Vec<DriverKind> = Vec::new();
    r.push(d.kind());
    r
}

} // verus!
