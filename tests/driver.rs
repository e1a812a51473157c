use as7343::bus::{DelayMs, I2cBus, LoggedDelay};
use as7343::calibration::Fraction;
use as7343::driver::{As7343, Error};
use as7343::registers::{
    AS7343_AUTO_SMUX_18CHAN, AS7343_CHIP_ID, AS7343_GAIN_1024X, AS7343_I2CADDR_DEFAULT,
    AS7343_LED_STENGTH_12MA,
};

const ENABLE: u8 = 0x80;
const ATIME: u8 = 0x81;
const STATUS2: u8 = 0x90;
const CH0_DATA_L: u8 = 0x95;
const ID: u8 = 0x5A;
const CFG0: u8 = 0xBF;
const CFG1: u8 = 0xC6;
const LED: u8 = 0xCD;
const ASTEP_L: u8 = 0xD4;
const ASTEP_H: u8 = 0xD5;
const CFG20: u8 = 0xD6;

#[derive(Debug, PartialEq)]
struct Nack;

/// A register file behind a bus: two banks, with `ID` and `LED` reached
/// only while the bank-select bit of `CFG0` is set.
struct SimBus {
    address: u8,
    default_bank: [u8; 256],
    alternate_bank: [u8; 256],
    status_reads: usize,
    ready_on_read: Option<usize>,
    fail_write_to: Option<u8>,
    fail_read_from: Option<u8>,
    writes: Vec<(u8, u8)>,
    reads: Vec<u8>,
}

impl SimBus {
    fn new() -> SimBus {
        SimBus {
            address: AS7343_I2CADDR_DEFAULT,
            default_bank: [0; 256],
            alternate_bank: [0; 256],
            status_reads: 0,
            ready_on_read: None,
            fail_write_to: None,
            fail_read_from: None,
            writes: Vec::new(),
            reads: Vec::new(),
        }
    }

    fn alternate(&self, reg: u8) -> bool {
        self.default_bank[CFG0 as usize] & 0x10 != 0 && (reg == ID || reg == LED)
    }

    fn reg(&self, reg: u8) -> u8 {
        if self.alternate(reg) {
            self.alternate_bank[reg as usize]
        } else {
            self.default_bank[reg as usize]
        }
    }

    fn writes_to(&self, reg: u8) -> usize {
        self.writes.iter().filter(|w| w.0 == reg).count()
    }
}

impl I2cBus for SimBus {
    type Error = Nack;

    fn write(&mut self, address: u8, bytes: &[u8]) -> Result<(), Nack> {
        assert_eq!(address, self.address);
        assert_eq!(bytes.len(), 2);
        let (reg, value) = (bytes[0], bytes[1]);
        if self.fail_write_to == Some(reg) {
            return Err(Nack);
        }
        self.writes.push((reg, value));
        if self.alternate(reg) {
            self.alternate_bank[reg as usize] = value;
        } else {
            self.default_bank[reg as usize] = value;
        }
        Ok(())
    }

    fn write_read(&mut self, address: u8, bytes: &[u8], buffer: &mut [u8]) -> Result<(), Nack> {
        assert_eq!(address, self.address);
        let reg = bytes[0];
        self.reads.push(reg);
        if self.fail_read_from == Some(reg) {
            return Err(Nack);
        }
        if reg == STATUS2 {
            self.status_reads += 1;
            if self.ready_on_read == Some(self.status_reads) {
                self.default_bank[STATUS2 as usize] |= 0x40;
            }
        }
        for (i, b) in buffer.iter_mut().enumerate() {
            *b = self.reg(reg.wrapping_add(i as u8));
        }
        Ok(())
    }
}

struct CountingDelay {
    calls: usize,
    total_ms: u32,
}

impl DelayMs for CountingDelay {
    fn delay_ms(&mut self, ms: u32) {
        self.calls += 1;
        self.total_ms += ms;
    }
}

fn sensor(bus: SimBus) -> As7343<SimBus> {
    As7343::new(bus, AS7343_I2CADDR_DEFAULT)
}

fn value(f: Fraction) -> f64 {
    f.numerator as f64 / f.denominator as f64
}

#[test]
fn begin_with_expected_identity() {
    let mut bus = SimBus::new();
    bus.alternate_bank[ID as usize] = AS7343_CHIP_ID;
    bus.default_bank[CFG20 as usize] = 0x05;
    let mut s = sensor(bus);
    assert_eq!(s.begin(), Ok(true));
    let bus = s.destroy();
    assert_eq!(bus.default_bank[ENABLE as usize] & 0x01, 0x01);
    assert_eq!((bus.default_bank[CFG20 as usize] >> 5) & 0x03, AS7343_AUTO_SMUX_18CHAN);
    assert_eq!(bus.default_bank[CFG20 as usize] & 0x9F, 0x05);
    assert_eq!(bus.writes_to(ENABLE), 1);
    assert_eq!(bus.writes_to(CFG20), 1);
    assert_eq!(bus.default_bank[CFG0 as usize] & 0x10, 0);
}

#[test]
fn begin_with_wrong_identity() {
    let mut bus = SimBus::new();
    bus.alternate_bank[ID as usize] = 0x7F;
    let mut s = sensor(bus);
    assert_eq!(s.begin(), Ok(false));
    let bus = s.destroy();
    assert_eq!(bus.default_bank[ENABLE as usize] & 0x01, 0);
    assert_eq!(bus.writes_to(ENABLE), 0);
    assert_eq!(bus.writes_to(CFG20), 0);
    assert_eq!(bus.default_bank[CFG0 as usize] & 0x10, 0);
}

#[test]
fn begin_reports_bus_failure() {
    let mut bus = SimBus::new();
    bus.fail_read_from = Some(ID);
    let mut s = sensor(bus);
    assert_eq!(s.begin(), Err(Error::Bus(Nack)));
    let bus = s.destroy();
    assert_eq!(bus.default_bank[CFG0 as usize] & 0x10, 0);
}

#[test]
fn chip_id_read_restores_default_bank() {
    let mut bus = SimBus::new();
    bus.alternate_bank[ID as usize] = 0x81;
    bus.default_bank[CFG0 as usize] = 0x2B;
    let mut s = sensor(bus);
    assert_eq!(s.get_chip_id(), Ok(0x81));
    let bus = s.destroy();
    assert_eq!(bus.default_bank[CFG0 as usize], 0x2B);
}

#[test]
fn chip_id_read_failure_restores_default_bank() {
    let mut bus = SimBus::new();
    bus.fail_read_from = Some(ID);
    bus.default_bank[CFG0 as usize] = 0x2B;
    let mut s = sensor(bus);
    assert_eq!(s.get_chip_id(), Err(Error::Bus(Nack)));
    let bus = s.destroy();
    assert_eq!(bus.default_bank[CFG0 as usize], 0x2B);
    assert_eq!(bus.writes_to(CFG0), 2);
}

#[test]
fn led_write_restores_default_bank() {
    let mut s = sensor(SimBus::new());
    assert_eq!(s.enable_led(true, AS7343_LED_STENGTH_12MA), Ok(()));
    let bus = s.destroy();
    assert_eq!(bus.alternate_bank[LED as usize], 0xF4);
    assert_eq!(bus.default_bank[LED as usize], 0);
    assert_eq!(bus.default_bank[CFG0 as usize] & 0x10, 0);
}

#[test]
fn led_write_failure_restores_default_bank() {
    let mut bus = SimBus::new();
    bus.fail_write_to = Some(LED);
    let mut s = sensor(bus);
    assert_eq!(s.enable_led(true, AS7343_LED_STENGTH_12MA), Err(Error::Bus(Nack)));
    let bus = s.destroy();
    assert_eq!(bus.default_bank[CFG0 as usize] & 0x10, 0);
    assert_eq!(bus.writes_to(CFG0), 2);
}

#[test]
fn wait_for_data_times_out_after_exact_polls() {
    let mut s = sensor(SimBus::new());
    let mut delay = LoggedDelay::new(CountingDelay { calls: 0, total_ms: 0 });
    assert_eq!(s.wait_for_data(&mut delay, 5), Ok(false));
    assert_eq!(s.i2c.bus().status_reads, 5);
    assert_eq!(delay.delay().calls, 5);
    assert_eq!(delay.delay().total_ms, 5);
}

#[test]
fn wait_for_data_returns_at_ready_poll() {
    let mut bus = SimBus::new();
    bus.ready_on_read = Some(3);
    let mut s = sensor(bus);
    let mut delay = LoggedDelay::new(CountingDelay { calls: 0, total_ms: 0 });
    assert_eq!(s.wait_for_data(&mut delay, 10), Ok(true));
    assert_eq!(s.i2c.bus().status_reads, 3);
    assert_eq!(delay.delay().calls, 2);
}

#[test]
fn wait_for_data_ready_on_last_poll() {
    let mut bus = SimBus::new();
    bus.ready_on_read = Some(4);
    let mut s = sensor(bus);
    let mut delay = LoggedDelay::new(CountingDelay { calls: 0, total_ms: 0 });
    assert_eq!(s.wait_for_data(&mut delay, 4), Ok(true));
    assert_eq!(s.i2c.bus().status_reads, 4);
}

#[test]
fn wait_for_data_reports_bus_failure() {
    let mut bus = SimBus::new();
    bus.fail_read_from = Some(STATUS2);
    let mut s = sensor(bus);
    let mut delay = LoggedDelay::new(CountingDelay { calls: 0, total_ms: 0 });
    assert_eq!(s.wait_for_data(&mut delay, 3), Err(Error::Bus(Nack)));
    assert_eq!(delay.delay().calls, 0);
}

#[test]
fn clear_digital_saturation_on_device() {
    let mut bus = SimBus::new();
    bus.default_bank[STATUS2 as usize] = 0xFF;
    let mut s = sensor(bus);
    assert_eq!(s.get_digital_saturation(), Ok(true));
    assert_eq!(s.clear_digital_saturation_status(), Ok(()));
    assert_eq!(s.get_digital_saturation(), Ok(false));
    assert_eq!(s.get_analog_saturation(), Ok(true));
    assert_eq!(s.i2c.bus().default_bank[STATUS2 as usize], 0xEF);
}

#[test]
fn clear_analog_saturation_on_device() {
    let mut bus = SimBus::new();
    bus.default_bank[STATUS2 as usize] = 0x18;
    let mut s = sensor(bus);
    assert_eq!(s.get_analog_saturation(), Ok(true));
    assert_eq!(s.clear_analog_saturation_status(), Ok(()));
    assert_eq!(s.get_analog_saturation(), Ok(false));
    assert_eq!(s.get_digital_saturation(), Ok(true));
    assert_eq!(s.i2c.bus().default_bank[STATUS2 as usize], 0x10);
}

#[test]
fn data_ready_bit() {
    let mut bus = SimBus::new();
    bus.default_bank[STATUS2 as usize] = 0x40;
    let mut s = sensor(bus);
    assert_eq!(s.is_data_ready(), Ok(true));
    let mut bus = SimBus::new();
    bus.default_bank[STATUS2 as usize] = 0xBF;
    let mut s = sensor(bus);
    assert_eq!(s.is_data_ready(), Ok(false));
}

#[test]
fn integration_settings_round_trip() {
    let mut s = sensor(SimBus::new());
    assert_eq!(s.set_atime(100), Ok(()));
    assert_eq!(s.set_astep(999), Ok(()));
    assert_eq!(s.get_atime(), Ok(100));
    assert_eq!(s.get_astep(), Ok(999));
    assert_eq!(s.i2c.bus().writes, vec![(ATIME, 100), (ASTEP_L, 0xE7), (ASTEP_H, 0x03)]);
}

#[test]
fn astep_combines_bytes_by_addition() {
    let mut bus = SimBus::new();
    bus.default_bank[ASTEP_L as usize] = 0xE7;
    bus.default_bank[ASTEP_H as usize] = 0x03;
    let mut s = sensor(bus);
    assert_eq!(s.get_astep(), Ok(999));
}

#[test]
fn single_channel_combines_bytes_by_addition() {
    let mut bus = SimBus::new();
    bus.default_bank[(CH0_DATA_L + 2 * 5) as usize] = 0x34;
    bus.default_bank[(CH0_DATA_L + 2 * 5 + 1) as usize] = 0x12;
    let mut s = sensor(bus);
    assert_eq!(s.read_channel(5), Ok(0x1234));
    assert_eq!(s.read_channel(4), Ok(0));
}

#[test]
fn gain_round_trip_and_rejection() {
    let mut bus = SimBus::new();
    bus.default_bank[CFG1 as usize] = 0xA0;
    let mut s = sensor(bus);
    assert_eq!(s.set_gain(AS7343_GAIN_1024X), Ok(()));
    assert_eq!(s.get_gain(), Ok(AS7343_GAIN_1024X));
    assert_eq!(s.i2c.bus().default_bank[CFG1 as usize], 0xAB);
    assert_eq!(s.set_gain(12), Ok(()));
    assert_eq!(s.get_gain(), Ok(12));
    let writes = s.i2c.bus().writes.len();
    assert_eq!(s.set_gain(13), Err(Error::GainOutOfRange(13)));
    assert_eq!(s.i2c.bus().writes.len(), writes);
    assert_eq!(s.i2c.bus().default_bank[CFG1 as usize], 0xAC);
}

#[test]
fn invalid_gain_field_on_device() {
    let mut bus = SimBus::new();
    bus.default_bank[CFG1 as usize] = 0x14;
    let mut s = sensor(bus);
    assert_eq!(s.get_gain(), Err(Error::GainOutOfRange(20)));
}

#[test]
fn power_and_measurement_bits() {
    let mut bus = SimBus::new();
    bus.default_bank[ENABLE as usize] = 0x40;
    let mut s = sensor(bus);
    assert_eq!(s.power_enable(true), Ok(()));
    assert_eq!(s.enable_spectral_measurement(true), Ok(()));
    assert_eq!(s.i2c.bus().default_bank[ENABLE as usize], 0x43);
    assert_eq!(s.power_enable(false), Ok(()));
    assert_eq!(s.i2c.bus().default_bank[ENABLE as usize], 0x42);
    assert_eq!(s.enable_spectral_measurement(false), Ok(()));
    assert_eq!(s.i2c.bus().default_bank[ENABLE as usize], 0x40);
}

#[test]
fn write_failure_is_reported() {
    let mut bus = SimBus::new();
    bus.fail_write_to = Some(ENABLE);
    let mut s = sensor(bus);
    assert_eq!(s.power_enable(true), Err(Error::Bus(Nack)));
}

#[test]
fn read_all_channels_when_ready() {
    let mut bus = SimBus::new();
    for i in 0..36usize {
        bus.default_bank[CH0_DATA_L as usize + i] = (i as u8).wrapping_mul(7).wrapping_add(3);
    }
    bus.ready_on_read = Some(2);
    let mut s = sensor(bus);
    let mut delay = LoggedDelay::new(CountingDelay { calls: 0, total_ms: 0 });
    let counts = s.read_all_channels(&mut delay, 10).unwrap().unwrap();
    for i in 0..18usize {
        let low = (2 * i as u8).wrapping_mul(7).wrapping_add(3) as u16;
        let high = (2 * i as u8 + 1).wrapping_mul(7).wrapping_add(3) as u16;
        assert_eq!(counts[i], (high << 8) + low);
    }
    assert_eq!(s.i2c.bus().default_bank[ENABLE as usize] & 0x02, 0x02);
    assert_eq!(s.read_all(), Ok(counts));
}

#[test]
fn read_all_channels_times_out() {
    let mut s = sensor(SimBus::new());
    let mut delay = LoggedDelay::new(CountingDelay { calls: 0, total_ms: 0 });
    assert_eq!(s.read_all_channels(&mut delay, 3), Ok(None));
    assert_eq!(s.i2c.bus().status_reads, 3);
}

#[test]
fn reference_condition_reproduces_constant() {
    let mut s = sensor(SimBus::new());
    assert_eq!(s.set_gain(AS7343_GAIN_1024X), Ok(()));
    assert_eq!(s.set_atime(99), Ok(()));
    assert_eq!(s.set_astep(99), Ok(()));
    let f = s.raw_to_uwm2(5749, 5749, 27_800_000, AS7343_GAIN_1024X, 155).unwrap();
    assert_eq!(f.numerator, 155 * f.denominator);
    assert!((value(f) - 155.0).abs() < 1e-9);
}

#[test]
fn raw_to_uwm2_matches_formula() {
    let mut s = sensor(SimBus::new());
    assert_eq!(s.set_gain(8), Ok(()));
    assert_eq!(s.set_atime(100), Ok(()));
    assert_eq!(s.set_astep(999), Ok(()));
    let f = s.raw_to_uwm2(2000, 5749, 27_800_000, AS7343_GAIN_1024X, 155).unwrap();
    let expected = (2000.0 / (128.0 * 101.0 * 1000.0 * 2.78 / 1000.0)) / (5749.0 / (1024.0 * 27.8)) * 155.0;
    assert!((value(f) - expected).abs() < 1e-9 * expected);
}

#[test]
fn raw_to_uwm2_errors() {
    let mut s = sensor(SimBus::new());
    assert_eq!(s.raw_to_uwm2(1, 1, 1, 13, 1), Err(Error::GainOutOfRange(13)));
    assert_eq!(s.raw_to_uwm2(1, 0, 1, 0, 1), Err(Error::ZeroCalibrationCount));
    let mut bus = SimBus::new();
    bus.default_bank[CFG1 as usize] = 0x1F;
    let mut s = sensor(bus);
    assert_eq!(s.raw_to_uwm2(1, 1, 1, 0, 1), Err(Error::GainOutOfRange(31)));
    let mut bus = SimBus::new();
    bus.fail_read_from = Some(ATIME);
    let mut s = sensor(bus);
    assert_eq!(s.raw_to_uwm2(1, 1, 1, 0, 1), Err(Error::Bus(Nack)));
}

#[test]
fn basic_counts_from_device_state() {
    let mut s = sensor(SimBus::new());
    assert_eq!(s.set_gain(8), Ok(()));
    assert_eq!(s.set_atime(100), Ok(()));
    assert_eq!(s.set_astep(999), Ok(()));
    let writes = s.i2c.bus().writes.len();
    let f = s.raw_to_basic_counts(2000).unwrap();
    let expected = 2000.0 / (128.0 * 101.0 * 1000.0 * 2.78 / 1000.0);
    assert!((value(f) - expected).abs() < 1e-9 * expected);
    assert_eq!(s.i2c.bus().writes.len(), writes);
}

#[test]
fn basic_counts_at_longest_integration() {
    let mut bus = SimBus::new();
    bus.default_bank[ATIME as usize] = 255;
    bus.default_bank[ASTEP_L as usize] = 0xFF;
    bus.default_bank[ASTEP_H as usize] = 0xFF;
    bus.default_bank[CFG1 as usize] = 12;
    let mut s = sensor(bus);
    let f = s.raw_to_basic_counts(65535).unwrap();
    let expected = 65535.0 / (2048.0 * 256.0 * 65536.0 * 2.78 / 1000.0);
    assert!((value(f) - expected).abs() < 1e-9 * expected);
}

#[test]
fn new_keeps_bus_and_address() {
    let mut bus = SimBus::new();
    bus.default_bank[0x10] = 0x42;
    let s = As7343::new(bus, 0x29);
    assert_eq!(s.addr, 0x29);
    let bus = s.destroy();
    assert_eq!(bus.default_bank[0x10], 0x42);
}

#[test]
fn raw_to_uwm2_stops_at_first_failed_read() {
    let mut bus = SimBus::new();
    bus.fail_read_from = Some(ATIME);
    let mut s = sensor(bus);
    assert_eq!(s.raw_to_uwm2(1, 1, 1, 0, 1), Err(Error::Bus(Nack)));
    assert!(s.i2c.bus().writes.is_empty());
    assert_eq!(s.i2c.bus().reads, vec![CFG1, ATIME]);
}

#[test]
fn read_all_channels_failed_bulk_read_is_not_retried() {
    let mut bus = SimBus::new();
    bus.ready_on_read = Some(1);
    bus.fail_read_from = Some(CH0_DATA_L);
    let mut s = sensor(bus);
    let mut delay = LoggedDelay::new(CountingDelay { calls: 0, total_ms: 0 });
    assert_eq!(s.read_all_channels(&mut delay, 5), Err(Error::Bus(Nack)));
    assert_eq!(s.i2c.bus().reads.iter().filter(|r| **r == CH0_DATA_L).count(), 1);
    assert_eq!(*s.i2c.bus().reads.last().unwrap(), CH0_DATA_L);
}

#[test]
fn begin_failed_identity_writes_no_power() {
    let mut bus = SimBus::new();
    bus.fail_read_from = Some(ID);
    bus.alternate_bank[ID as usize] = AS7343_CHIP_ID;
    let mut s = sensor(bus);
    assert_eq!(s.begin(), Err(Error::Bus(Nack)));
    assert_eq!(s.i2c.bus().writes_to(ENABLE), 0);
    assert_eq!(s.i2c.bus().writes_to(CFG20), 0);
}
