//! Supplemental drivers for extra buttons that the kernel does not expose as
//! keys: the HID reports of each device are decoded into a button bitmask,
//! and changes of the mask become key presses and releases.
pub mod bits;
pub mod corsair;
pub mod logitech;
pub mod registry;
pub mod utechsmart;

pub use registry::{
    plan_drivers, start_supplemental_drivers, supplemental_drivers, unique_vendor_ids, DriverKind, DriverLaunch,
    DriverOutput, DriverSession, RawEvent, SupplementalDriver,
};
