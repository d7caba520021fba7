//! PWM control values of sysfs fan interfaces: the enable modes of the
//! two supported vendors and the drive mode, each with its small-integer
//! sysfs encoding.

use vstd::prelude::*;

use crate::error::Error;

verus! {

#[derive(Debug, Clone, Copy, PartialEq, Eq, Structural)]
pub enum AmdGpuPwmEnable {
    Disabled,
    Manual,
    Automatic,
}

impl AmdGpuPwmEnable {
    /// The sysfs encoding of this mode.
    pub open spec fn spec_value(self) -> int {
        match self {
            AmdGpuPwmEnable::Disabled => 0,
            AmdGpuPwmEnable::Manual => 1,
            AmdGpuPwmEnable::Automatic => 2,
        }
    }

    pub fn to_u8(self) -> (r: u8)
        ensures
            r == self.spec_value(),
    {
        match self {
            AmdGpuPwmEnable::Disabled => 0,
            AmdGpuPwmEnable::Manual => 1,
            AmdGpuPwmEnable::Automatic => 2,
        }
    }

    /// Decode a sysfs value; exactly 0 through 2 are accepted.
    pub fn from_u8(value: u8) -> (r: Result<Self, Error>)
        ensures
            value <= 2 ==> (r matches Ok(m) && m.spec_value() == value),
            value > 2 ==> r == Err::<AmdGpuPwmEnable, Error>(Error::InvalidAmdGpuPwmEnable),
    {
        match value {
            0 => Ok(AmdGpuPwmEnable::Disabled),
            1 => Ok(AmdGpuPwmEnable::Manual),
            2 => Ok(AmdGpuPwmEnable::Automatic),
            _ => Err(Error::InvalidAmdGpuPwmEnable),
        }
    }
}

#[derive(Debug, Clone, Copy, PartialEq, Eq, Structural)]
pub enum MsiPwmEnable {
    Disabled,
    Manual,
    ThermalCruise,
    SpeedCruise,
    SmartFanIII,
    SmartFanIV,
}

impl MsiPwmEnable {
    /// The sysfs encoding of this mode.
    pub open spec fn spec_value(self) -> int {
        match self {
            MsiPwmEnable::Disabled => 0,
            MsiPwmEnable::Manual => 1,
            MsiPwmEnable::ThermalCruise => 2,
            MsiPwmEnable::SpeedCruise => 3,
            MsiPwmEnable::SmartFanIII => 4,
            MsiPwmEnable::SmartFanIV => 5,
        }
    }

    pub fn to_u8(self) -> (r: u8)
        ensures
            r == self.spec_value(),
    {
        match self {
            MsiPwmEnable::Disabled => 0,
            MsiPwmEnable::Manual => 1,
            MsiPwmEnable::ThermalCruise => 2,
            MsiPwmEnable::SpeedCruise => 3,
            MsiPwmEnable::SmartFanIII => 4,
            MsiPwmEnable::SmartFanIV => 5,
        }
    }

    /// Decode a sysfs value; exactly 0 through 5 are accepted.
    pub fn from_u8(value: u8) -> (r: Result<Self, Error>)
        ensures
            value <= 5 ==> (r matches Ok(m) && m.spec_value() == value),
            value > 5 ==> r == Err::<MsiPwmEnable, Error>(Error::InvalidMsiPwmEnable),
    {
        match value {
            0 => Ok(MsiPwmEnable::Disabled),
            1 => Ok(MsiPwmEnable::Manual),
            2 => Ok(MsiPwmEnable::ThermalCruise),
            3 => Ok(MsiPwmEnable::SpeedCruise),
            4 => Ok(MsiPwmEnable::SmartFanIII),
            5 => Ok(MsiPwmEnable::SmartFanIV),
            _ => Err(Error::InvalidMsiPwmEnable),
        }
    }
}

#[derive(Debug, Clone, Copy, PartialEq, Eq, Structural)]
pub enum PwmMode {
    DC,
    PWM,
}

impl PwmMode {
    /// The sysfs encoding of this drive mode.
    pub open spec fn spec_value(self) -> int {
        match self {
            PwmMode::DC => 0,
            PwmMode::PWM => 1,
        }
    }

    pub fn to_u8(self) -> (r: u8)
        ensures
            r == self.spec_value(),
    {
        match self {
            PwmMode::DC => 0,
            PwmMode::PWM => 1,
        }
    }

    /// Decode a sysfs value; exactly 0 and 1 are accepted.
    pub fn from_u8(value: u8) -> (r: Result<Self, Error>)
        ensures
            value <= 1 ==> (r matches Ok(m) && m.spec_value() == value),
            value > 1 ==> r == Err::<PwmMode, Error>(Error::InvalidPwmMode),
    {
        match value {
            0 => Ok(PwmMode::DC),
            1 => Ok(PwmMode::PWM),
            _ => Err(Error::InvalidPwmMode),
        }
    }
}

} // verus!
