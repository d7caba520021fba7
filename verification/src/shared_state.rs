//! Process-wide shared state: the last coolant temperature and pump speed
//! read from the device, and the current fan duty targets.
//!
//! Each field has exactly one writer role and many readers, and every read
//! is a point-in-time snapshot; no cross-field consistency is promised. The
//! process around the library provides the sharing itself.

use vstd::prelude::*;

verus! {

/// Shared state of the daemon, created once at startup with defaults and
/// alive for the process.
#[derive(Debug, Clone, Copy)]
pub struct SharedState {
    /// Coolant temperature in tenths of a degree.
    pub coolant_temp: u16,
    /// Pump speed in RPM.
    pub pump_speed: u16,
    /// Duty targets in percent; index 0 is the pump, 1 through 6 the fans.
    pub fan_targets: [u16; 7],
}

impl Default for SharedState {
    /// The startup defaults: coolant 31.2 degrees, pump 2268 RPM, all
    /// targets 50 percent.
    fn default() -> (r: Self)
        ensures
            r.coolant_temp == 312u16,
            r.pump_speed == 2268u16,
            forall|i: int| 0 <= i < 7 ==> r.fan_targets@[i] == 50u16,
    {
        SharedState { coolant_temp: 312, pump_speed: 2268, fan_targets: [50, 50, 50, 50, 50, 50, 50] }
    }
}

} // verus!
