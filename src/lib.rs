//! Driver for an 18-channel spectral sensor on a two-wire register bus, with
//! the conversion of raw counts into calibrated irradiance.
pub mod registers;
pub mod fields;
pub mod channels;
pub mod calibration;
pub mod bus;
pub mod driver;
pub mod anemometer;
