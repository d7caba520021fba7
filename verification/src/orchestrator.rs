//! Decisions of the main event loop: what each periodic tick stores, and
//! when a fan-target change re-issues the full seven-value speed command.
//!
//! The loop itself — timers, channels, signals, and the device I/O they
//! trigger — lives with the process around the library; every decision it
//! takes on an event is a function here.

use vstd::prelude::*;

use crate::hid::{parse_speeds, parse_temp, spec_le16};
use crate::fan::Fan;
use crate::shared_state::SharedState;

verus! {

/// Store a coolant temperature read from the device, in tenths of a degree.
///
/// Callers that apply a correction to the raw reading store the corrected
/// value.
pub fn record_coolant_temp(state: &mut SharedState, temp: u16)
    ensures
        final(state).coolant_temp == temp,
        final(state).pump_speed == old(state).pump_speed,
        final(state).fan_targets == old(state).fan_targets,
{
    state.coolant_temp = temp;
}

/// Store a pump speed read from the device, in RPM.
pub fn record_pump_speed(state: &mut SharedState, speed: u16)
    ensures
        final(state).pump_speed == speed,
        final(state).coolant_temp == old(state).coolant_temp,
        final(state).fan_targets == old(state).fan_targets,
{
    state.pump_speed = speed;
}

/// One temperature tick: decode the temperature from the device response
/// and store it. Returns the stored value.
pub fn temp_tick(state: &mut SharedState, response: &[u8]) -> (r: u16)
    requires
        response@.len() >= 9,
    ensures
        r == spec_le16(response@[7], response@[8]),
        final(state).coolant_temp == r,
        final(state).pump_speed == old(state).pump_speed,
        final(state).fan_targets == old(state).fan_targets,
{
    let temp = parse_temp(response);
    state.coolant_temp = temp;
    temp
}

/// One speed tick: decode the seven speeds from the device response, store
/// the pump speed, and hand all seven back for the optional per-fan output
/// files.
pub fn speed_tick(state: &mut SharedState, response: &[u8]) -> (r: [u16; 7])
    requires
        response@.len() >= 20,
    ensures
        forall|i: int| 0 <= i < 7 ==> r@[i] == spec_le16(response@[6 + 2 * i], response@[7 + 2 * i]),
        final(state).pump_speed == r@[0],
        final(state).coolant_temp == old(state).coolant_temp,
        final(state).fan_targets == old(state).fan_targets,
{
    let speeds = parse_speeds(response);
    state.pump_speed = speeds[0];
    speeds
}

/// One fan-target change: if the new target differs from the stored one,
/// store it and hand back all seven targets for the full "set speeds"
/// device command — the device takes all seven on every update, never a
/// per-fan delta. An unchanged target issues nothing.
pub fn apply_fan_target(state: &mut SharedState, fan: Fan, speed: u16) -> (r: Option<[u16; 7]>)
    requires
        fan.wf(),
        fan.spec_index() < 7,
    ensures
        old(state).fan_targets@[fan.spec_index()] == speed ==> r is None && *final(state)
            == *old(state),
        old(state).fan_targets@[fan.spec_index()] != speed ==> (r matches Some(t)
            && final(state).fan_targets@ == old(state).fan_targets@.update(fan.spec_index(), speed)
            && t@ == final(state).fan_targets@ && final(state).coolant_temp == old(
            state,
        ).coolant_temp && final(state).pump_speed == old(state).pump_speed),
{
    let idx = fan.index() as usize;
    if state.fan_targets[idx] == speed {
        return None;
    }
    state.fan_targets[idx] = speed;
    let targets = state.fan_targets;
    proof {
        assert(state.fan_targets@ =~= old(state).fan_targets@.update(fan.spec_index(), speed));
    }
    Some(targets)
}

} // verus!
