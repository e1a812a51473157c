//! Bit fields of the sensor's registers: how a register value is read and how
//! one field is replaced while every other bit is kept.
use vstd::prelude::*;

verus! {

/// Bank-select bit of `CFG0`: set selects the alternate bank.
pub const BANK_SELECT_BIT: u8 = 0x10;

/// Power-enable bit of `ENABLE`.
pub const POWER_ENABLE_BIT: u8 = 0x01;

/// Spectral-measurement-enable bit of `ENABLE`.
pub const MEASUREMENT_ENABLE_BIT: u8 = 0x02;

/// Auto channel-multiplexer field of `CFG20` (bits 6:5).
pub const AUTO_SMUX_FIELD: u8 = 0x60;

/// Gain field of `CFG1` (bits 4:0).
///
/// The field is taken as five bits wide so that every gain code 0..=12 has an
/// encoding; a three-bit field would cut codes 8..=12 off. The width is to be
/// confirmed against the device's datasheet; codes above 12 are refused
/// whatever it is.
pub const GAIN_FIELD: u8 = 0x1F;

/// Data-ready bit of `STATUS2`.
pub const DATA_READY_BIT: u8 = 0x40;

/// Digital-saturation bit of `STATUS2`.
pub const DIGITAL_SATURATION_BIT: u8 = 0x10;

/// Analog-saturation bit of `STATUS2`.
pub const ANALOG_SATURATION_BIT: u8 = 0x08;

/// LED register: the bits set when the LED is switched on.
pub const LED_ON_BITS: u8 = 0xF0;

/// LED register: the bits that carry the drive strength.
pub const LED_STRENGTH_FIELD: u8 = 0x7F;

/// `CFG0` with the bank-select bit set to `low`.
pub open spec fn bank_value(reg: u8, low: bool) -> u8 {
    (reg & 0xEF) | (if low { 0x10u8 } else { 0u8 })
}

/// `ENABLE` with the power-enable bit set to `on`.
pub open spec fn power_value(reg: u8, on: bool) -> u8 {
    (reg & 0xFE) | (if on { 0x01u8 } else { 0u8 })
}

/// `ENABLE` with the spectral-measurement-enable bit set to `on`.
pub open spec fn measurement_value(reg: u8, on: bool) -> u8 {
    (reg & 0xFD) | (if on { 0x02u8 } else { 0u8 })
}

/// `CFG20` with the auto channel-multiplexer field set to the low two bits of `mode`.
pub open spec fn auto_smux_value(reg: u8, mode: u8) -> u8 {
    (reg & 0x9F) | ((mode & 0x03) << 5u8)
}

/// `CFG1` with the gain field set to `code`.
pub open spec fn gain_value_in(reg: u8, code: u8) -> u8 {
    (reg & 0xE0) | code
}

/// The gain code that `CFG1` holds.
pub open spec fn gain_field(reg: u8) -> u8 {
    reg & 0x1F
}

/// The value written to the LED register.
pub open spec fn led_value(enabled: bool, strength: u8) -> u8 {
    (if enabled { 0xF0u8 } else { 0u8 }) | (strength & 0x7F)
}

/// `STATUS2` with the digital-saturation bit cleared.
pub open spec fn digital_cleared(status: u8) -> u8 {
    status & 0xEF
}

/// `STATUS2` with the analog-saturation bit cleared.
pub open spec fn analog_cleared(status: u8) -> u8 {
    status & 0xF7
}

/// Whether `STATUS2` reports data ready.
pub open spec fn data_ready(status: u8) -> bool {
    status & 0x40 != 0
}

/// Whether `STATUS2` reports digital saturation.
pub open spec fn digital_saturated(status: u8) -> bool {
    status & 0x10 != 0
}

/// Whether `STATUS2` reports analog saturation.
pub open spec fn analog_saturated(status: u8) -> bool {
    status & 0x08 != 0
}

/// The 16-bit value of a little-endian byte pair.
pub open spec fn le_pair(low: u8, high: u8) -> u16 {
    (high as int * 256 + low as int) as u16
}

/// Sets the bank-select bit of a `CFG0` value; every other bit is kept.
pub fn with_bank(reg: u8, low: bool) -> (r: u8)
    ensures
        r == bank_value(reg, low),
        r & !BANK_SELECT_BIT == reg & !BANK_SELECT_BIT,
        (r & BANK_SELECT_BIT != 0) == low,
{
    let r = (reg & 0xEF) | (if low { 0x10u8 } else { 0u8 });
    assert(r & !0x10u8 == reg & !0x10u8 && ((r & 0x10u8 != 0) == low)) by (bit_vector)
        requires
            r == (reg & 0xEF) | (if low { 0x10u8 } else { 0u8 }),
    ;
    r
}

/// Sets the power-enable bit of an `ENABLE` value; every other bit is kept.
pub fn with_power(reg: u8, on: bool) -> (r: u8)
    ensures
        r == power_value(reg, on),
        r & !POWER_ENABLE_BIT == reg & !POWER_ENABLE_BIT,
        (r & POWER_ENABLE_BIT != 0) == on,
{
    let r = (reg & 0xFE) | (if on { 0x01u8 } else { 0u8 });
    assert(r & !0x01u8 == reg & !0x01u8 && ((r & 0x01u8 != 0) == on)) by (bit_vector)
        requires
            r == (reg & 0xFE) | (if on { 0x01u8 } else { 0u8 }),
    ;
    r
}

/// Sets the spectral-measurement-enable bit of an `ENABLE` value; every other
/// bit is kept.
pub fn with_measurement(reg: u8, on: bool) -> (r: u8)
    ensures
        r == measurement_value(reg, on),
        r & !MEASUREMENT_ENABLE_BIT == reg & !MEASUREMENT_ENABLE_BIT,
        (r & MEASUREMENT_ENABLE_BIT != 0) == on,
{
    let r = (reg & 0xFD) | (if on { 0x02u8 } else { 0u8 });
    assert(r & !0x02u8 == reg & !0x02u8 && ((r & 0x02u8 != 0) == on)) by (bit_vector)
        requires
            r == (reg & 0xFD) | (if on { 0x02u8 } else { 0u8 }),
    ;
    r
}

/// Sets the auto channel-multiplexer field of a `CFG20` value to the low two
/// bits of `mode`; every other bit is kept.
pub fn with_auto_smux(reg: u8, mode: u8) -> (r: u8)
    ensures
        r == auto_smux_value(reg, mode),
        r & !AUTO_SMUX_FIELD == reg & !AUTO_SMUX_FIELD,
        (r & AUTO_SMUX_FIELD) >> 5u8 == mode % 4,
{
    let r = (reg & 0x9F) | ((mode & 0x03) << 5u8);
    assert(r & !0x60u8 == reg & !0x60u8 && (r & 0x60u8) >> 5u8 == mode % 4) by (bit_vector)
        requires
            r == (reg & 0x9F) | ((mode & 0x03) << 5u8),
    ;
    r
}

/// Sets the gain field of a `CFG1` value to `code`; every other bit is kept.
pub fn with_gain(reg: u8, code: u8) -> (r: u8)
    requires
        code <= 12,
    ensures
        r == gain_value_in(reg, code),
        r & !GAIN_FIELD == reg & !GAIN_FIELD,
        gain_field(r) == code,
{
    let r = (reg & 0xE0) | code;
    assert(r & !0x1Fu8 == reg & !0x1Fu8 && r & 0x1F == code) by (bit_vector)
        requires
            r == (reg & 0xE0) | code,
            code <= 12,
    ;
    r
}

/// The gain code held in a `CFG1` value.
pub fn gain_code(reg: u8) -> (r: u8)
    ensures
        r == gain_field(reg),
        r < 32,
{
    assert(reg & 0x1F < 32) by (bit_vector);
    reg & 0x1F
}

/// The LED register value for the given switch and drive strength.
pub fn led_setting(enabled: bool, strength: u8) -> (r: u8)
    ensures
        r == led_value(enabled, strength),
        enabled ==> r & LED_ON_BITS == LED_ON_BITS,
        !enabled ==> r == strength & LED_STRENGTH_FIELD,
{
    let r = (if enabled { 0xF0u8 } else { 0u8 }) | (strength & 0x7F);
    assert((enabled ==> r & 0xF0u8 == 0xF0u8) && (!enabled ==> r == strength & 0x7Fu8))
        by (bit_vector)
        requires
            r == (if enabled { 0xF0u8 } else { 0u8 }) | (strength & 0x7F),
    ;
    r
}

/// `STATUS2` with the digital-saturation bit cleared.
pub fn clear_digital_saturation(status: u8) -> (r: u8)
    ensures
        r == digital_cleared(status),
        r & !DIGITAL_SATURATION_BIT == status & !DIGITAL_SATURATION_BIT,
        r & DIGITAL_SATURATION_BIT == 0,
{
    let r = status & 0xEF;
    assert(r & !0x10u8 == status & !0x10u8 && r & 0x10u8 == 0) by (bit_vector)
        requires
            r == status & 0xEF,
    ;
    r
}

/// `STATUS2` with the analog-saturation bit cleared.
pub fn clear_analog_saturation(status: u8) -> (r: u8)
    ensures
        r == analog_cleared(status),
        r & !ANALOG_SATURATION_BIT == status & !ANALOG_SATURATION_BIT,
        r & ANALOG_SATURATION_BIT == 0,
{
    let r = status & 0xF7;
    assert(r & !0x08u8 == status & !0x08u8 && r & 0x08u8 == 0) by (bit_vector)
        requires
            r == status & 0xF7,
    ;
    r
}

/// Clearing one saturation bit changes that bit alone, and leaves the other
/// saturation bit as it was.
pub proof fn lemma_clear_saturation_changes_one_bit(status: u8)
    ensures
        digital_cleared(status) ^ status == status & DIGITAL_SATURATION_BIT,
        analog_cleared(status) ^ status == status & ANALOG_SATURATION_BIT,
        analog_saturated(digital_cleared(status)) == analog_saturated(status),
        digital_saturated(analog_cleared(status)) == digital_saturated(status),
        !digital_saturated(digital_cleared(status)),
        !analog_saturated(analog_cleared(status)),
{
    assert((status & 0xEF) ^ status == status & 0x10u8) by (bit_vector);
    assert((status & 0xF7) ^ status == status & 0x08u8) by (bit_vector);
    assert(((status & 0xEF) & 0x08u8 != 0) == (status & 0x08u8 != 0)) by (bit_vector);
    assert(((status & 0xF7) & 0x10u8 != 0) == (status & 0x10u8 != 0)) by (bit_vector);
    assert((status & 0xEF) & 0x10u8 == 0) by (bit_vector);
    assert((status & 0xF7) & 0x08u8 == 0) by (bit_vector);
}

/// Whether a `STATUS2` value reports data ready.
pub fn is_ready(status: u8) -> (r: bool)
    ensures
        r == data_ready(status),
{
    status & 0x40 != 0
}

/// Whether a `STATUS2` value reports digital saturation.
pub fn is_digitally_saturated(status: u8) -> (r: bool)
    ensures
        r == digital_saturated(status),
{
    status & 0x10 != 0
}

/// Whether a `STATUS2` value reports analog saturation.
pub fn is_analog_saturated(status: u8) -> (r: bool)
    ensures
        r == analog_saturated(status),
{
    status & 0x08 != 0
}

/// Combines a little-endian byte pair: `(high << 8) + low`.
pub fn combine_le(low: u8, high: u8) -> (r: u16)
    ensures
        r == le_pair(low, high),
        r as int == high as int * 256 + low as int,
{
    let h = high as u16;
    let l = low as u16;
    assert(h << 8u16 == h * 256 && (h << 8u16) + l < 0x10000) by (bit_vector)
        requires
            h < 256,
            l < 256,
    ;
    (h << 8u16) + l
}

/// Splits a 16-bit value into its low and its high byte.
pub fn split_le(value: u16) -> (r: (u8, u8))
    ensures
        le_pair(r.0, r.1) == value,
        r.0 as int == value as int % 256,
        r.1 as int == value as int / 256,
{
    let low = (value & 0xFF) as u8;
    let high = (value >> 8u16) as u8;
    assert(value & 0xFF == value % 256 && value >> 8u16 == value / 256) by (bit_vector);
    (low, high)
}

} // verus!
