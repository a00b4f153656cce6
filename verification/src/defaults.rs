//! Values that are used where nothing else is set.

use vstd::prelude::*;

verus! {

/// Firmware version that the ONVIF device reports.
pub const DEFAULT_FIRMWARE: &'static str = "4.73.112";

/// Serial number that the ONVIF device reports until a camera has said who it is.
pub const DEFAULT_SERIAL: &'static str = "000000000000";

/// Name that the controller gives itself.
pub const DEFAULT_CONTROLLER_NAME: &'static str = "UniFi Protect";

/// UUID that the controller gives itself.
pub const DEFAULT_CONTROLLER_UUID: &'static str = "716dd84e-a640-45d7-9c17-2b9b4b8a7000";

/// Version that the controller gives itself.
pub const DEFAULT_CONTROLLER_VERSION: &'static str = "7.1.77";

} // verus!
