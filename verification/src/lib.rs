//! Userspace control library for a liquid-cooling controller driven over
//! fixed-size HID reports, together with the control-plane wire protocol
//! (framed binary commands and a textual command grammar) that exposes it
//! to other processes over TCP and UDP.

pub mod atomic_changed;
pub mod codec;
pub mod codec_laws;
pub mod error;
pub mod pipe;
pub mod fan;
pub mod hid;
pub mod hid_command;
pub mod hwmon;
pub mod orchestrator;
pub mod pwm;
pub mod shared_state;
pub mod socket_command;
pub mod socket_response;
pub mod text;
