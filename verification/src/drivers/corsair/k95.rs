//! The Corsair K95 RGB (vendor 0x1B1C, product 0x1B11).
use vstd::prelude::*;
use crate::drivers::registry::{DriverKind, SupplementalDriver};

verus! {

/// The driver of the Corsair K95 RGB's G-keys.
pub struct CorsairK95Driver;

impl CorsairK95Driver {
    /// The device kind this driver handles.
    pub fn kind(&self) -> (r: DriverKind)
        ensures
            r == DriverKind::CorsairK95,
    {
        DriverKind::CorsairK95
    }
}

impl SupplementalDriver for CorsairK95Driver {
    fn vendor_id(&self) -> (r: u32)
        ensures
            r == DriverKind::CorsairK95.vid(),
    {
        0x1B1C
    }

    fn product_id(&self) -> (r: u32)
        ensures
            r == DriverKind::CorsairK95.pid(),
    {
        0x1B11
    }
}

} // verus!
