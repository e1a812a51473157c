//! The sensor's register map and the named values written into it.
use vstd::prelude::*;

verus! {

/// Default 7-bit bus address of the sensor.
pub const AS7343_I2CADDR_DEFAULT: u8 = 0x39;

/// Identity byte that the `ID` register (alternate bank) holds on this part.
pub const AS7343_CHIP_ID: u8 = 0x81;

/// Auto channel-multiplexer modes: how many channels one measurement covers.
pub const AS7343_AUTO_SMUX_6CHAN: u8 = 0;
pub const AS7343_AUTO_SMUX_12CHAN: u8 = 1;
pub const AS7343_AUTO_SMUX_18CHAN: u8 = 3;

/// Gain codes; code `g` stands for a gain of 2^(g-1), code 0 for 0.5.
pub const AS7343_GAIN_0_5X: u8 = 0;
pub const AS7343_GAIN_1X: u8 = 1;
pub const AS7343_GAIN_2X: u8 = 2;
pub const AS7343_GAIN_4X: u8 = 3;
pub const AS7343_GAIN_8X: u8 = 4;
pub const AS7343_GAIN_16X: u8 = 5;
pub const AS7343_GAIN_32X: u8 = 6;
pub const AS7343_GAIN_64X: u8 = 7;
pub const AS7343_GAIN_128X: u8 = 8;
pub const AS7343_GAIN_256X: u8 = 9;
pub const AS7343_GAIN_512X: u8 = 10;
pub const AS7343_GAIN_1024X: u8 = 11;
pub const AS7343_GAIN_2048X: u8 = 12;

/// LED drive strengths.
pub const AS7343_LED_STENGTH_4MA: u8 = 0;
pub const AS7343_LED_STENGTH_6MA: u8 = 1;
pub const AS7343_LED_STENGTH_8MA: u8 = 2;
pub const AS7343_LED_STENGTH_10MA: u8 = 3;
pub const AS7343_LED_STENGTH_12MA: u8 = 4;

/// Slot of each named channel in the array that a full read returns.
pub const AS7343_CHANNEL_450_FZ: usize = 0;
pub const AS7343_CHANNEL_555_FY: usize = 1;
pub const AS7343_CHANNEL_600_FXL: usize = 2;
pub const AS7343_CHANNEL_855_NIR: usize = 3;
pub const AS7343_CHANNEL_CLEAR_1: usize = 4;
pub const AS7343_CHANNEL_FD_1: usize = 5;
pub const AS7343_CHANNEL_425_F2: usize = 6;
pub const AS7343_CHANNEL_475_F3: usize = 7;
pub const AS7343_CHANNEL_515_F4: usize = 8;
pub const AS7343_CHANNEL_640_F6: usize = 9;
pub const AS7343_CHANNEL_CLEAR_0: usize = 10;
pub const AS7343_CHANNEL_FD_0: usize = 11;
pub const AS7343_CHANNEL_405_F1: usize = 12;
pub const AS7343_CHANNEL_550_F5: usize = 13;
pub const AS7343_CHANNEL_690_F7: usize = 14;
pub const AS7343_CHANNEL_745_F8: usize = 15;
pub const AS7343_CHANNEL_CLEAR: usize = 16;
pub const AS7343_CHANNEL_FD: usize = 17;

/// The named registers of the sensor. `Id` and `Led` sit in the alternate
/// bank; every other one in the default bank.
#[derive(Clone, Copy, Debug, PartialEq, Eq, Structural)]
pub enum Register {
    AuxId,
    RevId,
    Id,
    Cfg12,
    Enable,
    Atime,
    Wtime,
    SpThLowLsb,
    SpThLowMsb,
    SpThHighLsb,
    SpThHighMsb,
    Status2,
    Status3,
    Status,
    Astatus,
    Ch0DataLow,
    Status5,
    Status4,
    Cfg0,
    Cfg1,
    Cfg3,
    Cfg8,
    Cfg9,
    Cfg10,
    Led,
    Pers,
    Gpio,
    AstepLow,
    AstepHigh,
    Cfg20,
    AgcGainMax,
    AzConfig,
    FdCfg0,
    FdTime1,
    FdTime2,
    FdStatus,
    Cfg6,
    IntEnab,
    Control,
    FifoMap,
    FifoLvl,
    FdataLow,
    FdataHigh,
}

impl Register {
    /// Bus address of the register.
    pub open spec fn address(self) -> u8 {
        match self {
            Register::AuxId => 0x58,
            Register::RevId => 0x59,
            Register::Id => 0x5A,
            Register::Cfg12 => 0x66,
            Register::Enable => 0x80,
            Register::Atime => 0x81,
            Register::Wtime => 0x83,
            Register::SpThLowLsb => 0x84,
            Register::SpThLowMsb => 0x85,
            Register::SpThHighLsb => 0x86,
            Register::SpThHighMsb => 0x87,
            Register::Status2 => 0x90,
            Register::Status3 => 0x91,
            Register::Status => 0x93,
            Register::Astatus => 0x94,
            Register::Ch0DataLow => 0x95,
            Register::Status5 => 0xBB,
            Register::Status4 => 0xBC,
            Register::Cfg0 => 0xBF,
            Register::Cfg1 => 0xC6,
            Register::Cfg3 => 0xC7,
            Register::Cfg8 => 0xC9,
            Register::Cfg9 => 0xCA,
            Register::Cfg10 => 0x65,
            Register::Led => 0xCD,
            Register::Pers => 0xCF,
            Register::Gpio => 0x6B,
            Register::AstepLow => 0xD4,
            Register::AstepHigh => 0xD5,
            Register::Cfg20 => 0xD6,
            Register::AgcGainMax => 0xD7,
            Register::AzConfig => 0xDE,
            Register::FdCfg0 => 0xDF,
            Register::FdTime1 => 0xE0,
            Register::FdTime2 => 0xE2,
            Register::FdStatus => 0xE3,
            Register::Cfg6 => 0xF5,
            Register::IntEnab => 0xF9,
            Register::Control => 0xFA,
            Register::FifoMap => 0xFC,
            Register::FifoLvl => 0xFD,
            Register::FdataLow => 0xFE,
            Register::FdataHigh => 0xFF,
        }
    }

    /// Bus address of the register.
    pub fn addr(self) -> (r: u8)
        ensures
            r == self.address(),
    {
        match self {
            Register::AuxId => 0x58,
            Register::RevId => 0x59,
            Register::Id => 0x5A,
            Register::Cfg12 => 0x66,
            Register::Enable => 0x80,
            Register::Atime => 0x81,
            Register::Wtime => 0x83,
            Register::SpThLowLsb => 0x84,
            Register::SpThLowMsb => 0x85,
            Register::SpThHighLsb => 0x86,
            Register::SpThHighMsb => 0x87,
            Register::Status2 => 0x90,
            Register::Status3 => 0x91,
            Register::Status => 0x93,
            Register::Astatus => 0x94,
            Register::Ch0DataLow => 0x95,
            Register::Status5 => 0xBB,
            Register::Status4 => 0xBC,
            Register::Cfg0 => 0xBF,
            Register::Cfg1 => 0xC6,
            Register::Cfg3 => 0xC7,
            Register::Cfg8 => 0xC9,
            Register::Cfg9 => 0xCA,
            Register::Cfg10 => 0x65,
            Register::Led => 0xCD,
            Register::Pers => 0xCF,
            Register::Gpio => 0x6B,
            Register::AstepLow => 0xD4,
            Register::AstepHigh => 0xD5,
            Register::Cfg20 => 0xD6,
            Register::AgcGainMax => 0xD7,
            Register::AzConfig => 0xDE,
            Register::FdCfg0 => 0xDF,
            Register::FdTime1 => 0xE0,
            Register::FdTime2 => 0xE2,
            Register::FdStatus => 0xE3,
            Register::Cfg6 => 0xF5,
            Register::IntEnab => 0xF9,
            Register::Control => 0xFA,
            Register::FifoMap => 0xFC,
            Register::FifoLvl => 0xFD,
            Register::FdataLow => 0xFE,
            Register::FdataHigh => 0xFF,
        }
    }
}

/// Distinct registers have distinct addresses.
pub proof fn lemma_addresses_distinct(a: Register, b: Register)
    ensures
        a != b ==> a.address() != b.address(),
{
}

} // verus!
