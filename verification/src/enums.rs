//! Enumerated settings carried on the wire as small numeric codes.
//!
//! Each enumeration has an explicit bidirectional mapping between its
//! variants and the stable numeric code the firmware uses; decoding an
//! out-of-range code is an error, never a silent default.

use vstd::prelude::*;

use crate::numeric::WireNumber;

verus! {

/// The LED effect modes a keyboard can display.
#[derive(Debug, Copy, Clone, PartialEq, Eq, Structural)]
pub enum LedMode {
    /// The default mode: LEDs show the color of the active layer.
    Static,
    /// Rainbow effect.
    Rainbow,
    /// Cycle colors.
    Cycle,
    /// LEDs light up when pressed and cycle colors back to off.
    Stalker,
    /// All LEDs red.
    Red,
    /// All LEDs green.
    Green,
    /// All LEDs blue.
    Blue,
    /// All LEDs white.
    White,
    /// All LEDs off.
    Off,
    /// The inner three LEDs on both sides green, the rest off.
    Debug,
    /// Emulates the bluetooth connect sequence.
    Bluetooth,
}

/// The wireless radio power modes.
#[derive(Debug, Copy, Clone, PartialEq, Eq, Structural)]
pub enum WirelessPowerMode {
    /// Longest battery life, shortest range.
    Low,
    /// Balanced battery life and range.
    Medium,
    /// Shortest battery life, longest range.
    High,
}

/// One half of a split keyboard.
#[derive(Debug, Copy, Clone, PartialEq, Eq, Structural)]
pub enum Side {
    Right,
    Left,
}

impl LedMode {
    /// The numeric code this mode has on the wire.
    pub open spec fn spec_wire_code(self) -> nat {
        match self {
            LedMode::Static => 0,
            LedMode::Rainbow => 1,
            LedMode::Cycle => 2,
            LedMode::Stalker => 3,
            LedMode::Red => 4,
            LedMode::Green => 5,
            LedMode::Blue => 6,
            LedMode::White => 7,
            LedMode::Off => 8,
            LedMode::Debug => 9,
            LedMode::Bluetooth => 10,
        }
    }

    /// The mode a wire code denotes, if any.
    pub open spec fn spec_from_wire_code(code: nat) -> Option<LedMode> {
        if code == 0 {
            Some(LedMode::Static)
        } else if code == 1 {
            Some(LedMode::Rainbow)
        } else if code == 2 {
            Some(LedMode::Cycle)
        } else if code == 3 {
            Some(LedMode::Stalker)
        } else if code == 4 {
            Some(LedMode::Red)
        } else if code == 5 {
            Some(LedMode::Green)
        } else if code == 6 {
            Some(LedMode::Blue)
        } else if code == 7 {
            Some(LedMode::White)
        } else if code == 8 {
            Some(LedMode::Off)
        } else if code == 9 {
            Some(LedMode::Debug)
        } else if code == 10 {
            Some(LedMode::Bluetooth)
        } else {
            None
        }
    }

    pub fn wire_code(self) -> (code: u8)
        ensures
            code as nat == self.spec_wire_code(),
    {
        match self {
            LedMode::Static => 0,
            LedMode::Rainbow => 1,
            LedMode::Cycle => 2,
            LedMode::Stalker => 3,
            LedMode::Red => 4,
            LedMode::Green => 5,
            LedMode::Blue => 6,
            LedMode::White => 7,
            LedMode::Off => 8,
            LedMode::Debug => 9,
            LedMode::Bluetooth => 10,
        }
    }

    pub fn from_wire_code(code: u8) -> (r: Option<LedMode>)
        ensures
            r == LedMode::spec_from_wire_code(code as nat),
    {
        if code == 0 {
            Some(LedMode::Static)
        } else if code == 1 {
            Some(LedMode::Rainbow)
        } else if code == 2 {
            Some(LedMode::Cycle)
        } else if code == 3 {
            Some(LedMode::Stalker)
        } else if code == 4 {
            Some(LedMode::Red)
        } else if code == 5 {
            Some(LedMode::Green)
        } else if code == 6 {
            Some(LedMode::Blue)
        } else if code == 7 {
            Some(LedMode::White)
        } else if code == 8 {
            Some(LedMode::Off)
        } else if code == 9 {
            Some(LedMode::Debug)
        } else if code == 10 {
            Some(LedMode::Bluetooth)
        } else {
            None
        }
    }
}

impl WirelessPowerMode {
    /// The numeric code this power mode has on the wire.
    pub open spec fn spec_wire_code(self) -> nat {
        match self {
            WirelessPowerMode::Low => 0,
            WirelessPowerMode::Medium => 1,
            WirelessPowerMode::High => 2,
        }
    }

    /// The power mode a wire code denotes, if any.
    pub open spec fn spec_from_wire_code(code: nat) -> Option<WirelessPowerMode> {
        if code == 0 {
            Some(WirelessPowerMode::Low)
        } else if code == 1 {
            Some(WirelessPowerMode::Medium)
        } else if code == 2 {
            Some(WirelessPowerMode::High)
        } else {
            None
        }
    }

    pub fn wire_code(self) -> (code: u8)
        ensures
            code as nat == self.spec_wire_code(),
    {
        match self {
            WirelessPowerMode::Low => 0,
            WirelessPowerMode::Medium => 1,
            WirelessPowerMode::High => 2,
        }
    }

    pub fn from_wire_code(code: u8) -> (r: Option<WirelessPowerMode>)
        ensures
            r == WirelessPowerMode::spec_from_wire_code(code as nat),
    {
        if code == 0 {
            Some(WirelessPowerMode::Low)
        } else if code == 1 {
            Some(WirelessPowerMode::Medium)
        } else if code == 2 {
            Some(WirelessPowerMode::High)
        } else {
            None
        }
    }
}

impl Side {
    /// The numeric code this side has on the wire.
    pub open spec fn spec_wire_code(self) -> nat {
        match self {
            Side::Right => 0,
            Side::Left => 1,
        }
    }

    pub fn wire_code(self) -> (code: u8)
        ensures
            code as nat == self.spec_wire_code(),
    {
        match self {
            Side::Right => 0,
            Side::Left => 1,
        }
    }
}

impl WireNumber for LedMode {
    open spec fn as_natural(self) -> nat {
        self.spec_wire_code()
    }

    open spec fn max_natural() -> nat {
        10
    }

    proof fn lemma_within_range(self) {
    }

    fn max_wire() -> u64 {
        10
    }

    fn from_wire(n: u64) -> LedMode {
        let m = LedMode::from_wire_code(n as u8);
        match m {
            Some(mode) => mode,
            None => LedMode::Static,
        }
    }

    fn to_wire(self) -> u64 {
        self.wire_code() as u64
    }
}

impl WireNumber for WirelessPowerMode {
    open spec fn as_natural(self) -> nat {
        self.spec_wire_code()
    }

    open spec fn max_natural() -> nat {
        2
    }

    proof fn lemma_within_range(self) {
    }

    fn max_wire() -> u64 {
        2
    }

    fn from_wire(n: u64) -> WirelessPowerMode {
        let m = WirelessPowerMode::from_wire_code(n as u8);
        match m {
            Some(mode) => mode,
            None => WirelessPowerMode::Low,
        }
    }

    fn to_wire(self) -> u64 {
        self.wire_code() as u64
    }
}

/// Every LED mode's wire code decodes back to the same mode.
pub proof fn lemma_led_mode_codes_round_trip(mode: LedMode)
    ensures
        LedMode::spec_from_wire_code(mode.spec_wire_code()) == Some(mode),
{
}

/// Every wireless power mode's wire code decodes back to the same mode.
pub proof fn lemma_wireless_power_mode_codes_round_trip(mode: WirelessPowerMode)
    ensures
        WirelessPowerMode::spec_from_wire_code(mode.spec_wire_code()) == Some(mode),
{
}

} // verus!
