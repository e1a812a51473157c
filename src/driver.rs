//! The sensor driver: register access, configuration, acquisition and status.
use vstd::prelude::*;
use crate::bus::{
    byte_of, ends_in_failed_bank_access, failed_read, failed_write, fails_from, is_byte_read,
    is_byte_read_at, is_failure, leaves_default_bank, lemma_push_keeps_bank,
    lemma_restore_leaves_default_bank, lemma_update_keeps_bank, lemma_updated_by_extends,
    one_ms_pauses, only_at, read_once, register_write, start_of, updated_by, wrote, writes_bank,
    DelayMs, I2cBus, LoggedBus, LoggedDelay, Transfer,
};
use crate::fields::{
    analog_cleared, analog_saturated, auto_smux_value, bank_value, clear_analog_saturation,
    clear_digital_saturation, data_ready, digital_cleared, digital_saturated, gain_code,
    gain_field, gain_value_in, is_analog_saturated, is_digitally_saturated, is_ready, le_pair,
    led_setting, led_value, measurement_value, power_value, combine_le, split_le, with_auto_smux,
    with_bank, with_gain, with_measurement, with_power,
};
use crate::registers::{Register, AS7343_AUTO_SMUX_18CHAN, AS7343_CHIP_ID};
use crate::channels::{channel_count, decode_channels};
use crate::calibration::{
    basic_counts, basic_counts_of, integration_ns, irradiance, irradiance_of, Fraction,
};

verus! {

/// What can go wrong in a driver operation.
#[derive(Debug, PartialEq, Eq)]
pub enum Error<E> {
    /// The bus reported a failed transfer.
    Bus(E),
    /// A gain code outside 0..=12: one asked for, or one read from the device.
    GainOutOfRange(u8),
    /// A calibration reference with a count of zero.
    ZeroCalibrationCount,
}

/// `after` is `before` followed by one stretch in the alternate bank of device
/// `dev` that went through: the bank selected, the one transfer `body`, the
/// default bank selected again.
pub open spec fn bank_stretch(before: Seq<Transfer>, after: Seq<Transfer>, dev: u8, body: Transfer) -> bool {
    let n = before.len() as int;
    &&& after.len() == n + 5
    &&& updated_by(before, after.take(n + 2), dev, Register::Cfg0, |v: u8| bank_value(v, true), true)
    &&& after[n + 2] == body
    &&& updated_by(after.take(n + 3), after, dev, Register::Cfg0, |v: u8| bank_value(v, false), true)
}

/// Poll `j` of `seg` read `STATUS2` of device `dev` and found no data ready.
pub open spec fn idle_poll(seg: Seq<Transfer>, dev: u8, j: int) -> bool {
    &&& is_byte_read(seg[j], dev, Register::Status2)
    &&& !data_ready(byte_of(seg[j]))
}

/// `seg` is `k` polls of device `dev` that found no data ready.
pub open spec fn idle_polls(seg: Seq<Transfer>, dev: u8, k: int) -> bool {
    &&& seg.len() == k
    &&& forall|j: int| 0 <= j < k ==> #[trigger] idle_poll(seg, dev, j)
}

/// `seg` is polls of device `dev` that found no data ready, then one that did.
pub open spec fn ready_after_polls(seg: Seq<Transfer>, dev: u8) -> bool {
    &&& seg.len() >= 1
    &&& idle_polls(seg.drop_last(), dev, seg.len() - 1)
    &&& is_byte_read(seg.last(), dev, Register::Status2)
    &&& data_ready(byte_of(seg.last()))
}

/// `seg` is polls of device `dev` that found no data ready, then one that failed.
pub open spec fn failed_after_polls(seg: Seq<Transfer>, dev: u8) -> bool {
    &&& seg.len() >= 1
    &&& idle_polls(seg.drop_last(), dev, seg.len() - 1)
    &&& seg.last() == failed_read(dev, Register::Status2, 1)
}

/// The registers read, in order, to learn the device's gain and integration time.
pub open spec fn timing_registers() -> Seq<Register> {
    seq![Register::Cfg1, Register::Atime, Register::AstepLow, Register::AstepHigh]
}

/// `seg` reads the registers `regs` of device `dev` one byte each, in order:
/// all of them when `done`; otherwise some of them, then a failed read of the
/// next one.
pub open spec fn read_in_order(seg: Seq<Transfer>, dev: u8, regs: Seq<Register>, done: bool) -> bool {
    if done {
        &&& seg.len() == regs.len()
        &&& forall|i: int| 0 <= i < seg.len() ==> #[trigger] is_byte_read(seg[i], dev, regs[i])
    } else {
        &&& 1 <= seg.len() <= regs.len()
        &&& forall|i: int| 0 <= i < seg.len() - 1 ==> #[trigger] is_byte_read(seg[i], dev, regs[i])
        &&& seg.last() == failed_read(dev, regs[seg.len() - 1], 1)
    }
}

/// The device's gain code, ATIME and ASTEP, as the timing reads `seg` found them.
pub open spec fn timing_of(seg: Seq<Transfer>) -> (u8, u8, u16) {
    (gain_field(byte_of(seg[0])), byte_of(seg[1]), le_pair(byte_of(seg[2]), byte_of(seg[3])))
}

/// Driver of one sensor on a bus.
pub struct As7343<B> {
    /// The bus the sensor sits on, with the record of its transfers.
    pub i2c: LoggedBus<B>,
    /// The sensor's 7-bit bus address.
    pub addr: u8,
}

impl<B: I2cBus> As7343<B> {
    /// Every transfer made on the sensor's bus, oldest first.
    pub open spec fn history(&self) -> Seq<Transfer> {
        self.i2c.log()
    }

    /// A driver for the sensor at `addr` on `i2c`, with no transfer made yet.
    pub fn new(i2c: B, addr: u8) -> (r: Self)
        ensures
            r.i2c.inner() == i2c,
            r.addr == addr,
            r.history() == Seq::<Transfer>::empty(),
    {
        As7343 { i2c: LoggedBus::new(i2c), addr }
    }

    /// Gives the bus back.
    pub fn destroy(self) -> (r: B)
        ensures
            r == self.i2c.inner(),
    {
        self.i2c.into_inner()
    }

    /// Reads one byte from the register at `address`.
    fn read_address(&mut self, address: u8) -> (r: Result<u8, Error<B::Error>>)
        ensures
            final(self).addr == old(self).addr,
            r matches Ok(v) ==> final(self).history() == old(self).history().push(
                Transfer::WriteRead { address: old(self).addr, bytes: seq![address], data: seq![v] },
            ),
            r matches Err(e) ==> e is Bus && final(self).history() == old(self).history().push(
                Transfer::WriteReadFailed { address: old(self).addr, bytes: seq![address], len: 1 },
            ),
            leaves_default_bank(final(self).history(), old(self).addr) == leaves_default_bank(
                old(self).history(),
                old(self).addr,
            ),
    {
        let out: [u8; 1] = [address];
        let mut buffer = [0u8; 1];
        assert(out@ =~= seq![address]);
        let done = self.i2c.write_read(self.addr, &out, &mut buffer);
        proof {
            lemma_push_keeps_bank(old(self).history(), self.history().last(), self.addr);
            assert(self.history() =~= old(self).history().push(self.history().last()));
        }
        match done {
            Ok(()) => {
                assert(buffer@ =~= seq![buffer[0]]);
                Ok(buffer[0])
            },
            Err(e) => Err(Error::Bus(e)),
        }
    }

    /// Reads one byte from `reg`.
    fn read_register(&mut self, reg: Register) -> (r: Result<u8, Error<B::Error>>)
        ensures
            final(self).addr == old(self).addr,
            r matches Ok(v) ==> final(self).history() == old(self).history().push(
                Transfer::WriteRead { address: old(self).addr, bytes: seq![reg.address()], data: seq![v] },
            ),
            r matches Err(e) ==> e is Bus && final(self).history() == old(self).history().push(
                failed_read(old(self).addr, reg, 1),
            ),
            leaves_default_bank(final(self).history(), old(self).addr) == leaves_default_bank(
                old(self).history(),
                old(self).addr,
            ),
    {
        self.read_address(reg.addr())
    }

    /// Reads the 36 channel-data bytes in one transfer, starting at the first
    /// channel-data register.
    fn read_channel_data(&mut self) -> (r: Result<[u8; 36], Error<B::Error>>)
        ensures
            final(self).addr == old(self).addr,
            r matches Ok(data) ==> final(self).history() == old(self).history().push(
                Transfer::WriteRead {
                    address: old(self).addr,
                    bytes: seq![Register::Ch0DataLow.address()],
                    data: data@,
                },
            ),
            r matches Err(e) ==> e is Bus && final(self).history() == old(self).history().push(
                failed_read(old(self).addr, Register::Ch0DataLow, 36),
            ),
            leaves_default_bank(final(self).history(), old(self).addr) == leaves_default_bank(
                old(self).history(),
                old(self).addr,
            ),
    {
        let out: [u8; 1] = [Register::Ch0DataLow.addr()];
        let mut buffer = [0u8; 36];
        assert(out@ =~= seq![Register::Ch0DataLow.address()]);
        let done = self.i2c.write_read(self.addr, &out, &mut buffer);
        proof {
            lemma_push_keeps_bank(old(self).history(), self.history().last(), self.addr);
            assert(self.history() =~= old(self).history().push(self.history().last()));
        }
        match done {
            Ok(()) => Ok(buffer),
            Err(e) => Err(Error::Bus(e)),
        }
    }

    /// Writes one byte to `reg`.
    fn write_register(&mut self, reg: Register, value: u8) -> (r: Result<(), Error<B::Error>>)
        ensures
            final(self).addr == old(self).addr,
            wrote(old(self).history(), final(self).history(), old(self).addr, reg, value, r is Ok),
            r matches Err(e) ==> e is Bus,
            reg != Register::Cfg0 ==> leaves_default_bank(final(self).history(), old(self).addr)
                == leaves_default_bank(old(self).history(), old(self).addr),
    {
        let bytes: [u8; 2] = [reg.addr(), value];
        assert(bytes@ =~= seq![reg.address(), value]);
        let done = self.i2c.write(self.addr, &bytes);
        proof {
            crate::registers::lemma_addresses_distinct(reg, Register::Cfg0);
            if reg != Register::Cfg0 {
                assert(!writes_bank(self.history().last(), self.addr));
                lemma_push_keeps_bank(old(self).history(), self.history().last(), self.addr);
                assert(self.history() =~= old(self).history().push(self.history().last()));
            }
        }
        match done {
            Ok(()) => Ok(()),
            Err(e) => Err(Error::Bus(e)),
        }
    }

    /// Selects the alternate register bank when `low`, the default one otherwise,
    /// by a read-modify-write of the bank-select bit of `CFG0`.
    fn set_bank(&mut self, low: bool) -> (r: Result<(), Error<B::Error>>)
        ensures
            final(self).addr == old(self).addr,
            updated_by(
                old(self).history(),
                final(self).history(),
                old(self).addr,
                Register::Cfg0,
                |v: u8| bank_value(v, low),
                r is Ok,
            ),
            r matches Err(e) ==> e is Bus,
    {
        let reg = self.read_register(Register::Cfg0);
        let reg = reg?;
        let value = with_bank(reg, low);
        let r = self.write_register(Register::Cfg0, value);
        assert(self.history().take(old(self).history().len() as int) =~= old(self).history());
        r
    }

    /// Switches the sensor's power on or off, by a read-modify-write of the
    /// power-enable bit of `ENABLE`.
    pub fn power_enable(&mut self, power: bool) -> (r: Result<(), Error<B::Error>>)
        ensures
            final(self).addr == old(self).addr,
            updated_by(
                old(self).history(),
                final(self).history(),
                old(self).addr,
                Register::Enable,
                |v: u8| power_value(v, power),
                r is Ok,
            ),
            r matches Err(e) ==> e is Bus,
            leaves_default_bank(final(self).history(), old(self).addr) == leaves_default_bank(
                old(self).history(),
                old(self).addr,
            ),
    {
        let reg = self.read_register(Register::Enable);
        let reg = reg?;
        let value = with_power(reg, power);
        let r = self.write_register(Register::Enable, value);
        assert(self.history().take(old(self).history().len() as int) =~= old(self).history());
        proof {
            lemma_update_keeps_bank(
                old(self).history(),
                self.history(),
                self.addr,
                Register::Enable,
                |v: u8| power_value(v, power),
                r is Ok,
            );
        }
        r
    }

    /// Sets how many channels a measurement covers (`AS7343_AUTO_SMUX_*`), by a
    /// read-modify-write of the two-bit field of `CFG20`; only the low two bits
    /// of `smux` count.
    pub fn set_auto_smux(&mut self, smux: u8) -> (r: Result<(), Error<B::Error>>)
        ensures
            final(self).addr == old(self).addr,
            updated_by(
                old(self).history(),
                final(self).history(),
                old(self).addr,
                Register::Cfg20,
                |v: u8| auto_smux_value(v, smux),
                r is Ok,
            ),
            r matches Err(e) ==> e is Bus,
            leaves_default_bank(final(self).history(), old(self).addr) == leaves_default_bank(
                old(self).history(),
                old(self).addr,
            ),
    {
        let reg = self.read_register(Register::Cfg20);
        let reg = reg?;
        let value = with_auto_smux(reg, smux);
        let r = self.write_register(Register::Cfg20, value);
        assert(self.history().take(old(self).history().len() as int) =~= old(self).history());
        proof {
            lemma_update_keeps_bank(
                old(self).history(),
                self.history(),
                self.addr,
                Register::Cfg20,
                |v: u8| auto_smux_value(v, smux),
                r is Ok,
            );
        }
        r
    }

    /// Clears the digital-saturation bit of `STATUS2` by a read-modify-write
    /// that keeps every other bit.
    pub fn clear_digital_saturation_status(&mut self) -> (r: Result<(), Error<B::Error>>)
        ensures
            final(self).addr == old(self).addr,
            updated_by(
                old(self).history(),
                final(self).history(),
                old(self).addr,
                Register::Status2,
                |v: u8| digital_cleared(v),
                r is Ok,
            ),
            r matches Err(e) ==> e is Bus,
            leaves_default_bank(final(self).history(), old(self).addr) == leaves_default_bank(
                old(self).history(),
                old(self).addr,
            ),
    {
        let reg = self.read_register(Register::Status2);
        let reg = reg?;
        let value = clear_digital_saturation(reg);
        let r = self.write_register(Register::Status2, value);
        assert(self.history().take(old(self).history().len() as int) =~= old(self).history());
        proof {
            lemma_update_keeps_bank(
                old(self).history(),
                self.history(),
                self.addr,
                Register::Status2,
                |v: u8| digital_cleared(v),
                r is Ok,
            );
        }
        r
    }

    /// Clears the analog-saturation bit of `STATUS2` by a read-modify-write
    /// that keeps every other bit.
    pub fn clear_analog_saturation_status(&mut self) -> (r: Result<(), Error<B::Error>>)
        ensures
            final(self).addr == old(self).addr,
            updated_by(
                old(self).history(),
                final(self).history(),
                old(self).addr,
                Register::Status2,
                |v: u8| analog_cleared(v),
                r is Ok,
            ),
            r matches Err(e) ==> e is Bus,
            leaves_default_bank(final(self).history(), old(self).addr) == leaves_default_bank(
                old(self).history(),
                old(self).addr,
            ),
    {
        let reg = self.read_register(Register::Status2);
        let reg = reg?;
        let value = clear_analog_saturation(reg);
        let r = self.write_register(Register::Status2, value);
        assert(self.history().take(old(self).history().len() as int) =~= old(self).history());
        proof {
            lemma_update_keeps_bank(
                old(self).history(),
                self.history(),
                self.addr,
                Register::Status2,
                |v: u8| analog_cleared(v),
                r is Ok,
            );
        }
        r
    }

    /// Starts (`enabled`) or stops spectral measurement, by a read-modify-write
    /// of the measurement-enable bit of `ENABLE`.
    pub fn enable_spectral_measurement(&mut self, enabled: bool) -> (r: Result<(), Error<B::Error>>)
        ensures
            final(self).addr == old(self).addr,
            updated_by(
                old(self).history(),
                final(self).history(),
                old(self).addr,
                Register::Enable,
                |v: u8| measurement_value(v, enabled),
                r is Ok,
            ),
            r matches Err(e) ==> e is Bus,
            leaves_default_bank(final(self).history(), old(self).addr) == leaves_default_bank(
                old(self).history(),
                old(self).addr,
            ),
    {
        let reg = self.read_register(Register::Enable);
        let reg = reg?;
        let value = with_measurement(reg, enabled);
        let r = self.write_register(Register::Enable, value);
        assert(self.history().take(old(self).history().len() as int) =~= old(self).history());
        proof {
            lemma_update_keeps_bank(
                old(self).history(),
                self.history(),
                self.addr,
                Register::Enable,
                |v: u8| measurement_value(v, enabled),
                r is Ok,
            );
        }
        r
    }

    /// Writes `ATIME`. The integration time is `(ATIME + 1) × (ASTEP + 1) × 2.78` µs.
    pub fn set_atime(&mut self, atime: u8) -> (r: Result<(), Error<B::Error>>)
        ensures
            final(self).addr == old(self).addr,
            wrote(old(self).history(), final(self).history(), old(self).addr, Register::Atime, atime, r is Ok),
            r matches Err(e) ==> e is Bus,
            leaves_default_bank(final(self).history(), old(self).addr) == leaves_default_bank(
                old(self).history(),
                old(self).addr,
            ),
    {
        self.write_register(Register::Atime, atime)
    }

    /// Writes `ASTEP`, in 2.78 µs steps: the low byte first, then the high one.
    pub fn set_astep(&mut self, step: u16) -> (r: Result<(), Error<B::Error>>)
        ensures
            final(self).addr == old(self).addr,
            ({
                let dev = old(self).addr;
                let h0 = old(self).history();
                let h1 = final(self).history();
                let low = (step as int % 256) as u8;
                let high = (step as int / 256) as u8;
                if r is Ok {
                    h1 == h0.push(register_write(dev, Register::AstepLow, low)).push(
                        register_write(dev, Register::AstepHigh, high),
                    )
                } else {
                    ||| wrote(h0, h1, dev, Register::AstepLow, low, false)
                    ||| h1 == h0.push(register_write(dev, Register::AstepLow, low)).push(
                        failed_write(dev, Register::AstepHigh, high),
                    )
                }
            }),
            r matches Err(e) ==> e is Bus,
            leaves_default_bank(final(self).history(), old(self).addr) == leaves_default_bank(
                old(self).history(),
                old(self).addr,
            ),
    {
        let (low, high) = split_le(step);
        self.write_register(Register::AstepLow, low)?;
        self.write_register(Register::AstepHigh, high)
    }

    /// Reads `ATIME`.
    pub fn get_atime(&mut self) -> (r: Result<u8, Error<B::Error>>)
        ensures
            final(self).addr == old(self).addr,
            read_once(old(self).history(), final(self).history(), old(self).addr, Register::Atime, r is Ok),
            r matches Ok(v) ==> v == byte_of(final(self).history().last()),
            r matches Err(e) ==> e is Bus,
            leaves_default_bank(final(self).history(), old(self).addr) == leaves_default_bank(
                old(self).history(),
                old(self).addr,
            ),
    {
        let r = self.read_register(Register::Atime);
        assert(r is Ok ==> self.history().drop_last() =~= old(self).history());
        r
    }

    /// Reads `ASTEP`: the low byte, then the high one, combined as
    /// `(high << 8) + low`.
    pub fn get_astep(&mut self) -> (r: Result<u16, Error<B::Error>>)
        ensures
            final(self).addr == old(self).addr,
            ({
                let dev = old(self).addr;
                let h0 = old(self).history();
                let h1 = final(self).history();
                let n = h0.len() as int;
                let seg = h1.skip(n);
                let regs = seq![Register::AstepLow, Register::AstepHigh];
                &&& h1.len() > n
                &&& h1.take(n) == h0
                &&& read_in_order(seg, dev, regs, r is Ok)
                &&& r matches Ok(v) ==> v == le_pair(byte_of(seg[0]), byte_of(seg[1]))
            }),
            r matches Err(e) ==> e is Bus,
            leaves_default_bank(final(self).history(), old(self).addr) == leaves_default_bank(
                old(self).history(),
                old(self).addr,
            ),
    {
        let ghost h0 = self.history();
        let ghost n = h0.len() as int;
        let ghost regs = seq![Register::AstepLow, Register::AstepHigh];
        let low = self.read_register(Register::AstepLow);
        proof {
            let seg = self.history().skip(n);
            assert(self.history().take(n) =~= h0);
            assert(seg.len() == 1 && seg[0] == self.history().last());
        }
        let low = low?;
        let ghost h_low = self.history();
        let high = self.read_register(Register::AstepHigh);
        proof {
            let h1 = self.history();
            let seg = h1.skip(n);
            assert(h1.take(n) =~= h0);
            assert(seg.len() == 2 && seg[0] == h_low.last() && seg[1] == h1.last());
            assert forall|i: int| 0 <= i < seg.len() - 1 implies #[trigger] is_byte_read(
                seg[i],
                self.addr,
                regs[i],
            ) by {}
            if high is Ok {
                assert forall|i: int| 0 <= i < seg.len() implies #[trigger] is_byte_read(
                    seg[i],
                    self.addr,
                    regs[i],
                ) by {}
            }
        }
        let high = high?;
        Ok(combine_le(low, high))
    }

    /// Sets the gain code, by a read-modify-write of the gain field of `CFG1`.
    /// A code outside 0..=12 is refused before any transfer.
    pub fn set_gain(&mut self, gain: u8) -> (r: Result<(), Error<B::Error>>)
        ensures
            final(self).addr == old(self).addr,
            gain > 12 <==> r == Err::<(), Error<B::Error>>(Error::GainOutOfRange(gain)),
            gain > 12 ==> final(self).history() == old(self).history(),
            gain <= 12 ==> updated_by(
                old(self).history(),
                final(self).history(),
                old(self).addr,
                Register::Cfg1,
                |v: u8| gain_value_in(v, gain),
                r is Ok,
            ),
            gain <= 12 ==> (r matches Err(e) ==> e is Bus),
            leaves_default_bank(final(self).history(), old(self).addr) == leaves_default_bank(
                old(self).history(),
                old(self).addr,
            ),
    {
        if gain > 12 {
            return Err(Error::GainOutOfRange(gain));
        }
        let reg = self.read_register(Register::Cfg1)?;
        let value = with_gain(reg, gain);
        let r = self.write_register(Register::Cfg1, value);
        assert(self.history().take(old(self).history().len() as int) =~= old(self).history());
        proof {
            lemma_update_keeps_bank(
                old(self).history(),
                self.history(),
                self.addr,
                Register::Cfg1,
                |v: u8| gain_value_in(v, gain),
                r is Ok,
            );
        }
        r
    }

    /// Reads the gain code from the gain field of `CFG1`; a field that holds
    /// no valid code is reported as `GainOutOfRange`.
    pub fn get_gain(&mut self) -> (r: Result<u8, Error<B::Error>>)
        ensures
            final(self).addr == old(self).addr,
            read_once(
                old(self).history(),
                final(self).history(),
                old(self).addr,
                Register::Cfg1,
                !(r matches Err(Error::Bus(_))),
            ),
            !(r matches Err(Error::Bus(_))) ==> ({
                let code = gain_field(byte_of(final(self).history().last()));
                if code <= 12 {
                    r == Ok::<u8, Error<B::Error>>(code)
                } else {
                    r == Err::<u8, Error<B::Error>>(Error::GainOutOfRange(code))
                }
            }),
            leaves_default_bank(final(self).history(), old(self).addr) == leaves_default_bank(
                old(self).history(),
                old(self).addr,
            ),
    {
        let reg = self.read_register(Register::Cfg1);
        assert(reg is Ok ==> self.history().drop_last() =~= old(self).history());
        let reg = reg?;
        let code = gain_code(reg);
        if code > 12 {
            Err(Error::GainOutOfRange(code))
        } else {
            Ok(code)
        }
    }

    /// Whether `STATUS2` reports data ready.
    pub fn is_data_ready(&mut self) -> (r: Result<bool, Error<B::Error>>)
        ensures
            final(self).addr == old(self).addr,
            read_once(old(self).history(), final(self).history(), old(self).addr, Register::Status2, r is Ok),
            r matches Ok(b) ==> b == data_ready(byte_of(final(self).history().last())),
            r matches Err(e) ==> e is Bus,
            leaves_default_bank(final(self).history(), old(self).addr) == leaves_default_bank(
                old(self).history(),
                old(self).addr,
            ),
    {
        let reg = self.read_register(Register::Status2);
        assert(reg is Ok ==> self.history().drop_last() =~= old(self).history());
        let reg = reg?;
        Ok(is_ready(reg))
    }

    /// Whether `STATUS2` reports digital saturation.
    pub fn get_digital_saturation(&mut self) -> (r: Result<bool, Error<B::Error>>)
        ensures
            final(self).addr == old(self).addr,
            read_once(old(self).history(), final(self).history(), old(self).addr, Register::Status2, r is Ok),
            r matches Ok(b) ==> b == digital_saturated(byte_of(final(self).history().last())),
            r matches Err(e) ==> e is Bus,
            leaves_default_bank(final(self).history(), old(self).addr) == leaves_default_bank(
                old(self).history(),
                old(self).addr,
            ),
    {
        let reg = self.read_register(Register::Status2);
        assert(reg is Ok ==> self.history().drop_last() =~= old(self).history());
        let reg = reg?;
        Ok(is_digitally_saturated(reg))
    }

    /// Whether `STATUS2` reports analog saturation.
    pub fn get_analog_saturation(&mut self) -> (r: Result<bool, Error<B::Error>>)
        ensures
            final(self).addr == old(self).addr,
            read_once(old(self).history(), final(self).history(), old(self).addr, Register::Status2, r is Ok),
            r matches Ok(b) ==> b == analog_saturated(byte_of(final(self).history().last())),
            r matches Err(e) ==> e is Bus,
            leaves_default_bank(final(self).history(), old(self).addr) == leaves_default_bank(
                old(self).history(),
                old(self).addr,
            ),
    {
        let reg = self.read_register(Register::Status2);
        assert(reg is Ok ==> self.history().drop_last() =~= old(self).history());
        let reg = reg?;
        Ok(is_analog_saturated(reg))
    }

    /// Ends a stretch in the alternate bank: selects the default bank again
    /// whatever `outcome` the stretch had. Returns `outcome`, or the bus error
    /// of the restore when the stretch succeeded and the restore did not.
    fn restore_bank<T>(&mut self, outcome: Result<T, Error<B::Error>>) -> (r: Result<
        T,
        Error<B::Error>,
    >)
        ensures
            final(self).addr == old(self).addr,
            updated_by(
                old(self).history(),
                final(self).history(),
                old(self).addr,
                Register::Cfg0,
                |v: u8| bank_value(v, false),
                final(self).history().last() is Write,
            ),
            final(self).history().last() is Write ==> r == outcome,
            final(self).history().last() is Write ==> leaves_default_bank(final(self).history(), old(self).addr),
            !(final(self).history().last() is Write) ==> {
                &&& ends_in_failed_bank_access(final(self).history(), old(self).addr)
                &&& r is Err
                &&& outcome is Err ==> r == outcome
                &&& outcome is Ok ==> r->Err_0 is Bus
            },
    {
        let done = self.set_bank(false);
        proof {
            lemma_updated_by_extends(
                old(self).history(),
                self.history(),
                self.addr,
                Register::Cfg0,
                |v: u8| bank_value(v, false),
                done is Ok,
            );
            lemma_restore_leaves_default_bank(old(self).history(), self.history(), self.addr, done is Ok);
        }
        match outcome {
            Ok(v) => match done {
                Ok(()) => Ok(v),
                Err(e) => Err(e),
            },
            Err(e) => Err(e),
        }
    }

    /// Reads the identity byte from `ID`, in the alternate bank. The default
    /// bank is selected again on every path, errors included.
    pub fn get_chip_id(&mut self) -> (r: Result<u8, Error<B::Error>>)
        ensures
            final(self).addr == old(self).addr,
            r matches Ok(id) ==> bank_stretch(
                old(self).history(),
                final(self).history(),
                old(self).addr,
                Transfer::WriteRead {
                    address: old(self).addr,
                    bytes: seq![Register::Id.address()],
                    data: seq![id],
                },
            ),
            r matches Err(e) ==> {
                &&& e is Bus
                &&& final(self).history().len() > old(self).history().len()
                &&& final(self).history().take(old(self).history().len() as int) == old(self).history()
                &&& only_at(final(self).history(), old(self).history().len() as int, Register::Cfg0, Register::Id)
                &&& fails_from(final(self).history(), old(self).history().len() as int)
            },
            r is Ok ==> leaves_default_bank(final(self).history(), old(self).addr),
            leaves_default_bank(final(self).history(), old(self).addr) || ends_in_failed_bank_access(
                final(self).history(),
                old(self).addr,
            ),
    {
        let ghost h0 = self.history();
        let ghost n = h0.len() as int;
        let selected = self.set_bank(true);
        let ghost h_sel = self.history();
        proof {
            lemma_updated_by_extends(h0, h_sel, self.addr, Register::Cfg0, |v: u8| bank_value(v, true), selected is Ok);
        }
        let outcome = match selected {
            Ok(()) => self.read_register(Register::Id),
            Err(e) => Err(e),
        };
        let ghost h_body = self.history();
        let r = self.restore_bank(outcome);
        proof {
            let h1 = self.history();
            let restored = h1.last() is Write;
            lemma_updated_by_extends(h_body, h1, self.addr, Register::Cfg0, |v: u8| bank_value(v, false), restored);
            assert(h_body.take(h_sel.len() as int) =~= h_sel);
            assert(h1.take(n) =~= h0);
            if r is Ok {
                assert(h1.take(n + 2) =~= h_sel);
                assert(h1.take(n + 3) =~= h_body);
                assert(h1[n + 2] == h_body[n + 2]);
                assert(h_body[n + 2] == h_body.last());
            } else {
                assert forall|i: int| n <= i < h1.len() implies #[trigger] start_of(h1[i])
                    == Register::Cfg0.address() || start_of(h1[i]) == Register::Id.address() by {
                    if i < h_sel.len() {
                        assert(h1[i] == h_sel[i]);
                    } else if i < h_body.len() {
                        assert(h1[i] == h_body[i]);
                        assert(h_body[i] == h_body.last());
                    }
                }
                if selected is Err {
                    assert(h1[h_sel.len() as int - 1] == h_sel.last());
                    assert(is_failure(h1[h_sel.len() as int - 1]));
                } else if outcome is Err {
                    assert(h1[h_body.len() as int - 1] == h_body.last());
                    assert(is_failure(h1[h_body.len() as int - 1]));
                } else {
                    assert(is_failure(h1[h1.len() as int - 1]));
                }
            }
        }
        r
    }

    /// Switches the LED on or off with the given drive strength, writing the
    /// LED register in the alternate bank. The default bank is selected again
    /// on every path, errors included.
    pub fn enable_led(&mut self, enabled: bool, strength: u8) -> (r: Result<(), Error<B::Error>>)
        ensures
            final(self).addr == old(self).addr,
            r is Ok ==> bank_stretch(
                old(self).history(),
                final(self).history(),
                old(self).addr,
                register_write(old(self).addr, Register::Led, led_value(enabled, strength)),
            ),
            r matches Err(e) ==> {
                &&& e is Bus
                &&& final(self).history().len() > old(self).history().len()
                &&& final(self).history().take(old(self).history().len() as int) == old(self).history()
                &&& only_at(final(self).history(), old(self).history().len() as int, Register::Cfg0, Register::Led)
                &&& fails_from(final(self).history(), old(self).history().len() as int)
            },
            r is Ok ==> leaves_default_bank(final(self).history(), old(self).addr),
            leaves_default_bank(final(self).history(), old(self).addr) || ends_in_failed_bank_access(
                final(self).history(),
                old(self).addr,
            ),
    {
        let ghost h0 = self.history();
        let ghost n = h0.len() as int;
        let selected = self.set_bank(true);
        let ghost h_sel = self.history();
        proof {
            lemma_updated_by_extends(h0, h_sel, self.addr, Register::Cfg0, |v: u8| bank_value(v, true), selected is Ok);
        }
        let outcome = match selected {
            Ok(()) => {
                let value = led_setting(enabled, strength);
                self.write_register(Register::Led, value)
            },
            Err(e) => Err(e),
        };
        let ghost h_body = self.history();
        let r = self.restore_bank(outcome);
        proof {
            let h1 = self.history();
            let restored = h1.last() is Write;
            lemma_updated_by_extends(h_body, h1, self.addr, Register::Cfg0, |v: u8| bank_value(v, false), restored);
            assert(h_body.take(h_sel.len() as int) =~= h_sel);
            assert(h1.take(n) =~= h0);
            if r is Ok {
                assert(h1.take(n + 2) =~= h_sel);
                assert(h1.take(n + 3) =~= h_body);
                assert(h1[n + 2] == h_body[n + 2]);
                assert(h_body[n + 2] == h_body.last());
            } else {
                assert forall|i: int| n <= i < h1.len() implies #[trigger] start_of(h1[i])
                    == Register::Cfg0.address() || start_of(h1[i]) == Register::Led.address() by {
                    if i < h_sel.len() {
                        assert(h1[i] == h_sel[i]);
                    } else if i < h_body.len() {
                        assert(h1[i] == h_body[i]);
                        assert(h_body[i] == h_body.last());
                    }
                }
                if selected is Err {
                    assert(h1[h_sel.len() as int - 1] == h_sel.last());
                    assert(is_failure(h1[h_sel.len() as int - 1]));
                } else if outcome is Err {
                    assert(h1[h_body.len() as int - 1] == h_body.last());
                    assert(is_failure(h1[h_body.len() as int - 1]));
                } else {
                    assert(is_failure(h1[h1.len() as int - 1]));
                }
            }
        }
        r
    }

    /// Brings the sensor up: reads its identity byte and, when it is the
    /// expected one, switches the power on and selects 18-channel measurement.
    /// `Ok(false)` when the identity differs; the power is then left alone.
    pub fn begin(&mut self) -> (r: Result<bool, Error<B::Error>>)
        ensures
            final(self).addr == old(self).addr,
            ({
                let dev = old(self).addr;
                let h0 = old(self).history();
                let h1 = final(self).history();
                let n = h0.len() as int;
                let identified = bank_stretch(
                    h0,
                    h1.take(n + 5),
                    dev,
                    Transfer::WriteRead {
                        address: dev,
                        bytes: seq![Register::Id.address()],
                        data: seq![AS7343_CHIP_ID],
                    },
                );
                let powered = updated_by(
                    h1.take(n + 5),
                    h1.take(n + 7),
                    dev,
                    Register::Enable,
                    |v: u8| power_value(v, true),
                    true,
                );
                &&& r == Ok::<bool, Error<B::Error>>(true) ==> {
                    &&& h1.len() == n + 9
                    &&& identified
                    &&& powered
                    &&& updated_by(
                        h1.take(n + 7),
                        h1,
                        dev,
                        Register::Cfg20,
                        |v: u8| auto_smux_value(v, AS7343_AUTO_SMUX_18CHAN),
                        true,
                    )
                }
                &&& r == Ok::<bool, Error<B::Error>>(false) ==> {
                    &&& is_byte_read(h1[n + 2], dev, Register::Id)
                    &&& byte_of(h1[n + 2]) != AS7343_CHIP_ID
                    &&& bank_stretch(h0, h1, dev, h1[n + 2])
                }
                &&& r is Err ==> {
                    &&& r->Err_0 is Bus
                    &&& h1.len() > n
                    &&& h1.take(n) == h0
                    &&& {
                        // the identity could not be read: nothing follows the stretch
                        ||| only_at(h1, n, Register::Cfg0, Register::Id) && fails_from(h1, n)
                        // the power could not be switched on
                        ||| h1.len() > n + 5 && identified && updated_by(
                            h1.take(n + 5),
                            h1,
                            dev,
                            Register::Enable,
                            |v: u8| power_value(v, true),
                            false,
                        )
                        // the channel mode could not be set
                        ||| h1.len() > n + 7 && identified && powered && updated_by(
                            h1.take(n + 7),
                            h1,
                            dev,
                            Register::Cfg20,
                            |v: u8| auto_smux_value(v, AS7343_AUTO_SMUX_18CHAN),
                            false,
                        )
                    }
                }
            }),
            r is Ok ==> leaves_default_bank(final(self).history(), old(self).addr),
            leaves_default_bank(final(self).history(), old(self).addr) || ends_in_failed_bank_access(
                final(self).history(),
                old(self).addr,
            ),
    {
        let ghost h0 = self.history();
        let ghost n = h0.len() as int;
        let id = self.get_chip_id()?;
        let ghost h_id = self.history();
        if id == AS7343_CHIP_ID {
            let powered = self.power_enable(true);
            let ghost h_pow = self.history();
            proof {
                lemma_updated_by_extends(h_id, h_pow, self.addr, Register::Enable, |v: u8| power_value(v, true), powered is Ok);
                lemma_update_keeps_bank(h_id, h_pow, self.addr, Register::Enable, |v: u8| power_value(v, true), powered is Ok);
                assert(h_pow.take(n + 5) =~= h_id);
                assert(h_pow.take(n) =~= h0);
            }
            powered?;
            let muxed = self.set_auto_smux(AS7343_AUTO_SMUX_18CHAN);
            proof {
                let h1 = self.history();
                lemma_updated_by_extends(
                    h_pow,
                    h1,
                    self.addr,
                    Register::Cfg20,
                    |v: u8| auto_smux_value(v, AS7343_AUTO_SMUX_18CHAN),
                    muxed is Ok,
                );
                lemma_update_keeps_bank(
                    h_pow,
                    h1,
                    self.addr,
                    Register::Cfg20,
                    |v: u8| auto_smux_value(v, AS7343_AUTO_SMUX_18CHAN),
                    muxed is Ok,
                );
                assert(h1.take(n) =~= h0);
                assert(h1.take(n + 5) =~= h_id);
                assert(h1.take(n + 7) =~= h_pow);
            }
            muxed?;
            Ok(true)
        } else {
            Ok(false)
        }
    }

    /// Polls the data-ready bit up to `wait_time` times, pausing 1 ms after
    /// each poll that finds no data. `Ok(true)` at the first poll that finds
    /// data ready, `Ok(false)` after `wait_time` polls that found none.
    /// To wait without bound, call it again for as long as it gives `Ok(false)`.
    pub fn wait_for_data<D: DelayMs>(&mut self, delay: &mut LoggedDelay<D>, wait_time: u32) -> (r: Result<
        bool,
        Error<B::Error>,
    >)
        requires
            wait_time > 0,
        ensures
            final(self).addr == old(self).addr,
            ({
                let dev = old(self).addr;
                let h0 = old(self).history();
                let h1 = final(self).history();
                let seg = h1.skip(h0.len() as int);
                let p0 = old(delay).pauses();
                let p1 = final(delay).pauses();
                &&& h1.len() >= h0.len()
                &&& h1.take(h0.len() as int) == h0
                &&& r == Ok::<bool, Error<B::Error>>(false) ==> {
                    &&& idle_polls(seg, dev, wait_time as int)
                    &&& p1 == p0 + one_ms_pauses(wait_time as nat)
                }
                &&& r == Ok::<bool, Error<B::Error>>(true) ==> {
                    &&& seg.len() <= wait_time
                    &&& ready_after_polls(seg, dev)
                    &&& p1 == p0 + one_ms_pauses((seg.len() - 1) as nat)
                }
                &&& r is Err ==> {
                    &&& r->Err_0 is Bus
                    &&& seg.len() <= wait_time
                    &&& failed_after_polls(seg, dev)
                    &&& p1 == p0 + one_ms_pauses((seg.len() - 1) as nat)
                }
            }),
            leaves_default_bank(final(self).history(), old(self).addr) == leaves_default_bank(
                old(self).history(),
                old(self).addr,
            ),
    {
        let ghost h0 = self.history();
        let ghost n = h0.len() as int;
        let ghost p0 = delay.pauses();
        let mut count: u32 = 0;
        proof {
            assert(self.history().skip(n) =~= Seq::<Transfer>::empty());
            assert(self.history().take(n) =~= h0);
            assert(delay.pauses() =~= p0 + one_ms_pauses(0));
        }
        while count < wait_time
            invariant
                self.addr == old(self).addr,
                h0 == old(self).history(),
                p0 == old(delay).pauses(),
                n == h0.len(),
                count <= wait_time,
                self.history().len() == n + count,
                self.history().take(n) == h0,
                idle_polls(self.history().skip(n), self.addr, count as int),
                delay.pauses() == p0 + one_ms_pauses(count as nat),
                leaves_default_bank(self.history(), self.addr) == leaves_default_bank(h0, self.addr),
            decreases wait_time - count,
        {
            let ghost before = self.history();
            let ready = self.is_data_ready();
            proof {
                let after = self.history();
                assert(after.take(n) =~= h0);
                assert(after.skip(n).drop_last() =~= before.skip(n));
                assert(after.skip(n).last() == after.last());
                assert forall|j: int| 0 <= j < count implies #[trigger] idle_poll(
                    after.skip(n).drop_last(),
                    self.addr,
                    j,
                ) by {
                    assert(idle_poll(before.skip(n), self.addr, j));
                }
            }
            match ready {
                Err(e) => {
                    return Err(e);
                },
                Ok(true) => {
                    return Ok(true);
                },
                Ok(false) => {},
            }
            delay.delay_ms(1);
            proof {
                let after = self.history();
                assert forall|j: int| 0 <= j < count + 1 implies #[trigger] idle_poll(
                    after.skip(n),
                    self.addr,
                    j,
                ) by {
                    if j < count {
                        assert(idle_poll(before.skip(n), self.addr, j));
                        assert(after.skip(n)[j] == before.skip(n)[j]);
                    } else {
                        assert(after.skip(n)[j] == after.last());
                    }
                }
                assert(delay.pauses() =~= p0 + one_ms_pauses(count as nat + 1));
            }
            count = count + 1;
        }
        Ok(false)
    }

    /// Reads the count of one channel (0..18) as two one-byte reads, low byte
    /// first, combined as `(high << 8) + low`.
    pub fn read_channel(&mut self, channel: u8) -> (r: Result<u16, Error<B::Error>>)
        requires
            channel < 18,
        ensures
            final(self).addr == old(self).addr,
            ({
                let dev = old(self).addr;
                let h0 = old(self).history();
                let h1 = final(self).history();
                let n = h0.len() as int;
                let low_address = (Register::Ch0DataLow.address() + 2 * channel) as u8;
                let high_address = (Register::Ch0DataLow.address() + 2 * channel + 1) as u8;
                &&& h1.take(n) == h0
                &&& r matches Ok(v) ==> {
                    &&& h1.len() == n + 2
                    &&& is_byte_read_at(h1[n], dev, low_address)
                    &&& is_byte_read_at(h1[n + 1], dev, high_address)
                    &&& v == le_pair(byte_of(h1[n]), byte_of(h1[n + 1]))
                }
                &&& r matches Err(e) ==> {
                    &&& e is Bus
                    &&& {
                        ||| h1 == h0.push(
                            Transfer::WriteReadFailed { address: dev, bytes: seq![low_address], len: 1 },
                        )
                        ||| {
                            &&& h1.len() == n + 2
                            &&& is_byte_read_at(h1[n], dev, low_address)
                            &&& h1[n + 1] == Transfer::WriteReadFailed {
                                address: dev,
                                bytes: seq![high_address],
                                len: 1,
                            }
                        }
                    }
                }
            }),
            leaves_default_bank(final(self).history(), old(self).addr) == leaves_default_bank(
                old(self).history(),
                old(self).addr,
            ),
    {
        let low_address = Register::Ch0DataLow.addr() + 2 * channel;
        let low = self.read_address(low_address);
        assert(self.history().take(old(self).history().len() as int) =~= old(self).history());
        let low = low?;
        let high = self.read_address(low_address + 1);
        assert(self.history().take(old(self).history().len() as int) =~= old(self).history());
        let high = high?;
        Ok(combine_le(low, high))
    }

    /// Reads all 18 channel counts in one transfer of 36 bytes, in slot order.
    /// Meant for when the data-ready bit has been seen set.
    pub fn read_all(&mut self) -> (r: Result<[u16; 18], Error<B::Error>>)
        ensures
            final(self).addr == old(self).addr,
            r matches Ok(counts) ==> {
                let t = final(self).history().last();
                &&& final(self).history().len() == old(self).history().len() + 1
                &&& final(self).history().drop_last() == old(self).history()
                &&& t is WriteRead
                &&& t->WriteRead_address == old(self).addr
                &&& t->WriteRead_bytes == seq![Register::Ch0DataLow.address()]
                &&& t->WriteRead_data.len() == 36
                &&& forall|i: int| 0 <= i < 18 ==> #[trigger] counts@[i] == channel_count(t->WriteRead_data, i)
            },
            r matches Err(e) ==> e is Bus && final(self).history() == old(self).history().push(
                failed_read(old(self).addr, Register::Ch0DataLow, 36),
            ),
            leaves_default_bank(final(self).history(), old(self).addr) == leaves_default_bank(
                old(self).history(),
                old(self).addr,
            ),
    {
        let data = self.read_channel_data();
        assert(self.history().drop_last() =~= old(self).history());
        let data = data?;
        Ok(decode_channels(&data))
    }

    /// Starts a measurement, waits for its data with up to `wait_time` polls,
    /// and reads all 18 channel counts. `Ok(None)` when no data came in time.
    pub fn read_all_channels<D: DelayMs>(&mut self, delay: &mut LoggedDelay<D>, wait_time: u32) -> (r: Result<
        Option<[u16; 18]>,
        Error<B::Error>,
    >)
        requires
            wait_time > 0,
        ensures
            final(self).addr == old(self).addr,
            ({
                let dev = old(self).addr;
                let h0 = old(self).history();
                let h1 = final(self).history();
                let n = h0.len() as int;
                let started = updated_by(
                    h0,
                    h1.take(n + 2),
                    dev,
                    Register::Enable,
                    |v: u8| measurement_value(v, true),
                    true,
                );
                let p0 = old(delay).pauses();
                let p1 = final(delay).pauses();
                &&& h1.len() > n
                &&& h1.take(n) == h0
                &&& r is Ok ==> h1.len() >= n + 2 && started
                &&& r == Ok::<Option<[u16; 18]>, Error<B::Error>>(None) ==> {
                    &&& idle_polls(h1.skip(n + 2), dev, wait_time as int)
                    &&& p1 == p0 + one_ms_pauses(wait_time as nat)
                }
                &&& r matches Ok(Some(counts)) ==> {
                    let polls = h1.skip(n + 2).drop_last();
                    let t = h1.last();
                    &&& h1.len() >= n + 4
                    &&& polls.len() <= wait_time
                    &&& ready_after_polls(polls, dev)
                    &&& p1 == p0 + one_ms_pauses((polls.len() - 1) as nat)
                    &&& t is WriteRead
                    &&& t->WriteRead_address == dev
                    &&& t->WriteRead_bytes == seq![Register::Ch0DataLow.address()]
                    &&& t->WriteRead_data.len() == 36
                    &&& forall|i: int| 0 <= i < 18 ==> #[trigger] counts@[i] == channel_count(t->WriteRead_data, i)
                }
                &&& r is Err ==> {
                    &&& r->Err_0 is Bus
                    &&& {
                        // the measurement could not be started
                        ||| updated_by(h0, h1, dev, Register::Enable, |v: u8| measurement_value(v, true), false)
                        // a poll failed
                        ||| h1.len() > n + 2 && started && failed_after_polls(h1.skip(n + 2), dev)
                        // the data was ready, and its one read failed
                        ||| {
                            &&& h1.len() >= n + 4
                            &&& started
                            &&& ready_after_polls(h1.skip(n + 2).drop_last(), dev)
                            &&& h1.last() == failed_read(dev, Register::Ch0DataLow, 36)
                        }
                    }
                }
            }),
            leaves_default_bank(final(self).history(), old(self).addr) == leaves_default_bank(
                old(self).history(),
                old(self).addr,
            ),
    {
        let ghost h0 = self.history();
        let ghost n = h0.len() as int;
        let started = self.enable_spectral_measurement(true);
        let ghost h_en = self.history();
        proof {
            lemma_updated_by_extends(h0, h_en, self.addr, Register::Enable, |v: u8| measurement_value(v, true), started is Ok);
        }
        started?;
        let ready = self.wait_for_data(delay, wait_time);
        let ghost h_wait = self.history();
        proof {
            assert(h_wait.take(n) =~= h0);
            assert(h_wait.take(n + 2) =~= h_en);
        }
        if !ready? {
            return Ok(None);
        }
        let counts = self.read_all();
        proof {
            let h1 = self.history();
            assert(h1.drop_last() =~= h_wait);
            assert(h1.take(n) =~= h0);
            assert(h1.take(n + 2) =~= h_en);
            assert(h1.skip(n + 2).drop_last() =~= h_wait.skip(n + 2));
        }
        let counts = counts?;
        Ok(Some(counts))
    }

    /// Reads the device's gain code, ATIME and ASTEP, in that order. A gain
    /// field that holds no valid code is reported as `GainOutOfRange`, and
    /// nothing more is read.
    fn read_timing(&mut self) -> (r: Result<(u8, u8, u16), Error<B::Error>>)
        ensures
            final(self).addr == old(self).addr,
            ({
                let dev = old(self).addr;
                let h0 = old(self).history();
                let h1 = final(self).history();
                let n = h0.len() as int;
                let seg = h1.skip(n);
                &&& h1.len() > n
                &&& h1.take(n) == h0
                &&& r matches Ok(timing) ==> {
                    &&& read_in_order(seg, dev, timing_registers(), true)
                    &&& timing == timing_of(seg)
                    &&& timing.0 <= 12
                }
                &&& r matches Err(Error::GainOutOfRange(code)) ==> {
                    &&& seg.len() == 1
                    &&& is_byte_read(seg[0], dev, Register::Cfg1)
                    &&& code == gain_field(byte_of(seg[0]))
                    &&& code > 12
                }
                &&& r matches Err(Error::Bus(_)) ==> read_in_order(seg, dev, timing_registers(), false)
                &&& !(r matches Err(Error::ZeroCalibrationCount))
            }),
            leaves_default_bank(final(self).history(), old(self).addr) == leaves_default_bank(
                old(self).history(),
                old(self).addr,
            ),
    {
        let ghost h0 = self.history();
        let ghost n = h0.len() as int;
        let ghost regs = timing_registers();
        let gain = self.read_register(Register::Cfg1);
        let ghost h_1 = self.history();
        proof {
            assert(h_1.take(n) =~= h0);
            assert(h_1.skip(n) =~= seq![h_1.last()]);
        }
        let gain = gain?;
        let code = gain_code(gain);
        if code > 12 {
            return Err(Error::GainOutOfRange(code));
        }
        let atime = self.read_register(Register::Atime);
        let ghost h_2 = self.history();
        proof {
            assert(h_2.take(n) =~= h0);
            assert(h_2.skip(n) =~= seq![h_1.last(), h_2.last()]);
            assert forall|i: int| 0 <= i < h_2.skip(n).len() - 1 implies #[trigger] is_byte_read(
                h_2.skip(n)[i],
                self.addr,
                regs[i],
            ) by {}
        }
        let atime = atime?;
        let low = self.read_register(Register::AstepLow);
        let ghost h_3 = self.history();
        proof {
            assert(h_3.take(n) =~= h0);
            assert(h_3.skip(n) =~= seq![h_1.last(), h_2.last(), h_3.last()]);
            assert forall|i: int| 0 <= i < h_3.skip(n).len() - 1 implies #[trigger] is_byte_read(
                h_3.skip(n)[i],
                self.addr,
                regs[i],
            ) by {}
        }
        let low = low?;
        let high = self.read_register(Register::AstepHigh);
        proof {
            let h1 = self.history();
            let seg = h1.skip(n);
            assert(h1.take(n) =~= h0);
            assert(seg =~= seq![h_1.last(), h_2.last(), h_3.last(), h1.last()]);
            assert forall|i: int| 0 <= i < seg.len() - 1 implies #[trigger] is_byte_read(
                seg[i],
                self.addr,
                regs[i],
            ) by {}
            if high is Ok {
                assert forall|i: int| 0 <= i < seg.len() implies #[trigger] is_byte_read(
                    seg[i],
                    self.addr,
                    regs[i],
                ) by {}
            }
        }
        let high = high?;
        Ok((code, atime, combine_le(low, high)))
    }

    /// Basic counts of the raw count `raw`, at the device's current gain and
    /// integration time (read back from the device):
    /// `raw / (gain_value(gain) × (ATIME + 1) × (ASTEP + 1) × 2.78 / 1000)`.
    pub fn raw_to_basic_counts(&mut self, raw: u16) -> (r: Result<Fraction, Error<B::Error>>)
        ensures
            final(self).addr == old(self).addr,
            ({
                let dev = old(self).addr;
                let h0 = old(self).history();
                let h1 = final(self).history();
                let n = h0.len() as int;
                let seg = h1.skip(n);
                &&& h1.len() > n
                &&& h1.take(n) == h0
                &&& r matches Ok(f) ==> {
                    let (gain, atime, astep) = timing_of(seg);
                    let v = basic_counts(raw as nat, gain, integration_ns(atime, astep));
                    &&& read_in_order(seg, dev, timing_registers(), true)
                    &&& gain <= 12
                    &&& f.numerator == v.0
                    &&& f.denominator == v.1
                    &&& f.denominator > 0
                }
                &&& r matches Err(Error::GainOutOfRange(code)) ==> {
                    &&& seg.len() == 1
                    &&& is_byte_read(seg[0], dev, Register::Cfg1)
                    &&& code == gain_field(byte_of(seg[0]))
                    &&& code > 12
                }
                &&& r matches Err(Error::Bus(_)) ==> read_in_order(seg, dev, timing_registers(), false)
                &&& !(r matches Err(Error::ZeroCalibrationCount))
            }),
            leaves_default_bank(final(self).history(), old(self).addr) == leaves_default_bank(
                old(self).history(),
                old(self).addr,
            ),
    {
        let (gain, atime, astep) = self.read_timing()?;
        match basic_counts_of(raw, gain, atime, astep) {
            Some(f) => Ok(f),
            None => Err(Error::GainOutOfRange(gain)),
        }
    }

    /// Irradiance of the raw count `reading_raw`, taken at the device's current
    /// gain and integration time (read back from the device), against the
    /// calibration reference `calibration_count` at `calibration_time_ns` and
    /// gain code `calibration_gain`, with irradiance constant `calibration_ee`.
    ///
    /// The result is in the units of `calibration_ee`: a constant with a
    /// fractional part is passed in a smaller unit (155.5 µW/m² as 155_500
    /// nW/m²), and the result comes in that unit. The reference is checked
    /// before any transfer: a gain code outside 0..=12 or a zero count is
    /// refused. Only reads are made.
    pub fn raw_to_uwm2(
        &mut self,
        reading_raw: u16,
        calibration_count: u16,
        calibration_time_ns: u32,
        calibration_gain: u8,
        calibration_ee: u32,
    ) -> (r: Result<Fraction, Error<B::Error>>)
        ensures
            final(self).addr == old(self).addr,
            calibration_gain > 12 ==> r == Err::<Fraction, Error<B::Error>>(
                Error::GainOutOfRange(calibration_gain),
            ) && final(self).history() == old(self).history(),
            calibration_gain <= 12 && calibration_count == 0 ==> r == Err::<
                Fraction,
                Error<B::Error>,
            >(Error::ZeroCalibrationCount) && final(self).history() == old(self).history(),
            ({
                let dev = old(self).addr;
                let h0 = old(self).history();
                let h1 = final(self).history();
                let n = h0.len() as int;
                let seg = h1.skip(n);
                calibration_gain <= 12 && calibration_count > 0 ==> {
                    &&& h1.len() > n
                    &&& h1.take(n) == h0
                    &&& r matches Ok(f) ==> {
                        let (gain, atime, astep) = timing_of(seg);
                        let v = irradiance_of(
                            reading_raw,
                            gain,
                            atime,
                            astep,
                            calibration_count,
                            calibration_time_ns,
                            calibration_gain,
                            calibration_ee,
                        );
                        &&& read_in_order(seg, dev, timing_registers(), true)
                        &&& f.numerator == v.0
                        &&& f.denominator == v.1
                        &&& f.denominator > 0
                    }
                    &&& r matches Err(Error::GainOutOfRange(code)) ==> {
                        &&& seg.len() == 1
                        &&& is_byte_read(seg[0], dev, Register::Cfg1)
                        &&& code == gain_field(byte_of(seg[0]))
                        &&& code > 12
                    }
                    &&& r matches Err(Error::Bus(_)) ==> read_in_order(seg, dev, timing_registers(), false)
                    &&& !(r matches Err(Error::ZeroCalibrationCount))
                }
            }),
            leaves_default_bank(final(self).history(), old(self).addr) == leaves_default_bank(
                old(self).history(),
                old(self).addr,
            ),
    {
        if calibration_gain > 12 {
            return Err(Error::GainOutOfRange(calibration_gain));
        }
        if calibration_count == 0 {
            return Err(Error::ZeroCalibrationCount);
        }
        let (gain, atime, astep) = self.read_timing()?;
        match irradiance(
            reading_raw,
            gain,
            atime,
            astep,
            calibration_count,
            calibration_time_ns,
            calibration_gain,
            calibration_ee,
        ) {
            Some(f) => Ok(f),
            None => Err(Error::ZeroCalibrationCount),
        }
    }
}

} // verus!
