//! Corsair keyboards with G-keys.
use vstd::prelude::*;
use crate::drivers::registry::DriverKind;

pub mod gkeys;
mod k95;

pub use k95::CorsairK95Driver;

verus! {

/// The Corsair drivers.
pub fn registered_drivers() -> (r: Vec<DriverKind>)
    ensures
        r@ == seq![DriverKind::CorsairK95],
{
    let k95 = CorsairK95Driver;
    let mut r: Vec<DriverKind> = Vec::new();
    r.push(k95.kind());
    r
}

} // verus!
