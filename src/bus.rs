//! What the driver needs from the outside, a blocking two-wire bus and a
//! millisecond delay, and the record of the transfers and pauses made on them.
use vstd::prelude::*;
use crate::registers::Register;

verus! {

/// One transfer on the bus, as the bus carried it out.
pub ghost enum Transfer {
    /// `bytes` written to the device at `address`.
    Write { address: u8, bytes: Seq<u8> },
    /// A write of `bytes` to the device at `address` that the bus reported as failed.
    WriteFailed { address: u8, bytes: Seq<u8> },
    /// `bytes` written to the device at `address`, then `data` read back from it.
    WriteRead { address: u8, bytes: Seq<u8>, data: Seq<u8> },
    /// A write of `bytes` then a read of `len` bytes, at the device at
    /// `address`, that the bus reported as failed.
    WriteReadFailed { address: u8, bytes: Seq<u8>, len: nat },
}

/// A blocking two-wire bus that addresses devices by a 7-bit address.
///
/// Nothing is assumed of what a read returns or of when a transfer fails.
pub trait I2cBus {
    /// What a failed transfer reports.
    type Error;

    /// Writes `bytes` to the device at `address`.
    fn write(&mut self, address: u8, bytes: &[u8]) -> Result<(), Self::Error>;

    /// Writes `bytes` to the device at `address`, then reads `buffer.len()`
    /// bytes from it into `buffer`.
    fn write_read(&mut self, address: u8, bytes: &[u8], buffer: &mut [u8]) -> Result<
        (),
        Self::Error,
    >;
}

/// A blocking delay.
pub trait DelayMs {
    /// Blocks the caller for `ms` milliseconds.
    fn delay_ms(&mut self, ms: u32);
}

/// A bus together with the record of every transfer made on it.
///
/// The record is private to this module: it grows only here, by the transfer
/// that each method hands to the bus, as the bus reported it.
pub struct LoggedBus<B> {
    bus: B,
    log: Ghost<Seq<Transfer>>,
}

impl<B: I2cBus> LoggedBus<B> {
    /// Every transfer made through this value, oldest first.
    pub closed spec fn log(&self) -> Seq<Transfer> {
        self.log@
    }

    /// The bus inside.
    pub closed spec fn inner(&self) -> B {
        self.bus
    }

    /// `bus`, with no transfer made yet.
    pub fn new(bus: B) -> (r: Self)
        ensures
            r.log() == Seq::<Transfer>::empty(),
            r.inner() == bus,
    {
        LoggedBus { bus, log: Ghost(Seq::empty()) }
    }

    /// The bus inside, to look at.
    pub fn bus(&self) -> (r: &B)
        ensures
            *r == self.inner(),
    {
        &self.bus
    }

    /// Gives the bus back.
    pub fn into_inner(self) -> (r: B)
        ensures
            r == self.inner(),
    {
        self.bus
    }

    /// Writes `bytes` to the device at `address`.
    pub fn write(&mut self, address: u8, bytes: &[u8]) -> (r: Result<(), B::Error>)
        ensures
            r is Ok ==> final(self).log() == old(self).log().push(
                Transfer::Write { address, bytes: bytes@ },
            ),
            r is Err ==> final(self).log() == old(self).log().push(
                Transfer::WriteFailed { address, bytes: bytes@ },
            ),
    {
        let r = self.bus.write(address, bytes);
        if r.is_ok() {
            self.log = Ghost(self.log@.push(Transfer::Write { address, bytes: bytes@ }));
        } else {
            self.log = Ghost(self.log@.push(Transfer::WriteFailed { address, bytes: bytes@ }));
        }
        r
    }

    /// Writes `bytes` to the device at `address`, then reads `buffer.len()`
    /// bytes from it into `buffer`.
    pub fn write_read(&mut self, address: u8, bytes: &[u8], buffer: &mut [u8]) -> (r: Result<
        (),
        B::Error,
    >)
        ensures
            r is Ok ==> final(self).log() == old(self).log().push(
                Transfer::WriteRead { address, bytes: bytes@, data: final(buffer)@ },
            ),
            r is Err ==> final(self).log() == old(self).log().push(
                Transfer::WriteReadFailed { address, bytes: bytes@, len: old(buffer)@.len() },
            ),
    {
        let ghost len = buffer@.len();
        let r = self.bus.write_read(address, bytes, buffer);
        if r.is_ok() {
            self.log = Ghost(
                self.log@.push(Transfer::WriteRead { address, bytes: bytes@, data: buffer@ }),
            );
        } else {
            self.log = Ghost(
                self.log@.push(Transfer::WriteReadFailed { address, bytes: bytes@, len }),
            );
        }
        r
    }
}

/// A delay together with the record of every pause taken with it.
///
/// The record is private to this module: it grows only here, by the pause
/// that is handed to the delay.
pub struct LoggedDelay<D> {
    delay: D,
    pauses: Ghost<Seq<u32>>,
}

impl<D: DelayMs> LoggedDelay<D> {
    /// Every pause taken through this value, in milliseconds, oldest first.
    pub closed spec fn pauses(&self) -> Seq<u32> {
        self.pauses@
    }

    /// The delay inside.
    pub closed spec fn inner(&self) -> D {
        self.delay
    }

    /// `delay`, with no pause taken yet.
    pub fn new(delay: D) -> (r: Self)
        ensures
            r.pauses() == Seq::<u32>::empty(),
            r.inner() == delay,
    {
        LoggedDelay { delay, pauses: Ghost(Seq::empty()) }
    }

    /// The delay inside, to look at.
    pub fn delay(&self) -> (r: &D)
        ensures
            *r == self.inner(),
    {
        &self.delay
    }

    /// Blocks the caller for `ms` milliseconds.
    pub fn delay_ms(&mut self, ms: u32)
        ensures
            final(self).pauses() == old(self).pauses().push(ms),
    {
        self.delay.delay_ms(ms);
        self.pauses = Ghost(self.pauses@.push(ms));
    }
}

/// `n` pauses of 1 ms.
pub open spec fn one_ms_pauses(n: nat) -> Seq<u32> {
    Seq::new(n, |i: int| 1u32)
}

/// `t` is a one-byte read, at device `dev`, of the register at `address`.
pub open spec fn is_byte_read_at(t: Transfer, dev: u8, address: u8) -> bool {
    &&& t is WriteRead
    &&& t->WriteRead_address == dev
    &&& t->WriteRead_bytes == seq![address]
    &&& t->WriteRead_data.len() == 1
}

/// `t` is a one-byte read of `reg` at device `dev`.
pub open spec fn is_byte_read(t: Transfer, dev: u8, reg: Register) -> bool {
    is_byte_read_at(t, dev, reg.address())
}

/// The byte that a one-byte read returned.
pub open spec fn byte_of(t: Transfer) -> u8 {
    t->WriteRead_data[0]
}

/// A failed read of `len` bytes starting at `reg` of device `dev`.
pub open spec fn failed_read(dev: u8, reg: Register, len: nat) -> Transfer {
    Transfer::WriteReadFailed { address: dev, bytes: seq![reg.address()], len }
}

/// A write of `value` to `reg` of device `dev`.
pub open spec fn register_write(dev: u8, reg: Register, value: u8) -> Transfer {
    Transfer::Write { address: dev, bytes: seq![reg.address(), value] }
}

/// A failed write of `value` to `reg` of device `dev`.
pub open spec fn failed_write(dev: u8, reg: Register, value: u8) -> Transfer {
    Transfer::WriteFailed { address: dev, bytes: seq![reg.address(), value] }
}

/// `t` is a transfer that the bus reported as failed.
pub open spec fn is_failure(t: Transfer) -> bool {
    t is WriteFailed || t is WriteReadFailed
}

/// The register that a transfer starts at: its first byte written.
pub open spec fn start_of(t: Transfer) -> u8 {
    match t {
        Transfer::Write { bytes, .. } => bytes[0],
        Transfer::WriteFailed { bytes, .. } => bytes[0],
        Transfer::WriteRead { bytes, .. } => bytes[0],
        Transfer::WriteReadFailed { bytes, .. } => bytes[0],
    }
}

/// Every transfer of `h` from index `start` on starts at `a` or at `b`.
pub open spec fn only_at(h: Seq<Transfer>, start: int, a: Register, b: Register) -> bool {
    forall|i: int|
        start <= i < h.len() ==> #[trigger] start_of(h[i]) == a.address() || start_of(h[i])
            == b.address()
}

/// `after` is `before` followed by one read of `reg` at device `dev`: a
/// one-byte read when `done`, a failed one otherwise.
pub open spec fn read_once(
    before: Seq<Transfer>,
    after: Seq<Transfer>,
    dev: u8,
    reg: Register,
    done: bool,
) -> bool {
    if done {
        &&& after.len() == before.len() + 1
        &&& after.drop_last() == before
        &&& is_byte_read(after.last(), dev, reg)
    } else {
        after == before.push(failed_read(dev, reg, 1))
    }
}

/// `after` is `before` followed by one write of `value` to `reg` at device
/// `dev`, which went through when `done` and failed otherwise.
pub open spec fn wrote(
    before: Seq<Transfer>,
    after: Seq<Transfer>,
    dev: u8,
    reg: Register,
    value: u8,
    done: bool,
) -> bool {
    if done {
        after == before.push(register_write(dev, reg, value))
    } else {
        after == before.push(failed_write(dev, reg, value))
    }
}

/// `after` is `before` followed by the transfers of one read-modify-write of
/// `reg` at device `dev` that writes back `update` of the byte read: both done
/// when `done`; otherwise cut short by a failed read, or ended by a failed write.
pub open spec fn updated_by(
    before: Seq<Transfer>,
    after: Seq<Transfer>,
    dev: u8,
    reg: Register,
    update: spec_fn(u8) -> u8,
    done: bool,
) -> bool {
    let n = before.len() as int;
    if done {
        &&& after.len() == n + 2
        &&& after.take(n) == before
        &&& is_byte_read(after[n], dev, reg)
        &&& after[n + 1] == register_write(dev, reg, update(byte_of(after[n])))
    } else {
        ||| after == before.push(failed_read(dev, reg, 1))
        ||| {
            &&& after.len() == n + 2
            &&& after.take(n) == before
            &&& is_byte_read(after[n], dev, reg)
            &&& after[n + 1] == failed_write(dev, reg, update(byte_of(after[n])))
        }
    }
}

/// `t` writes, or tries to write, `CFG0` of device `dev`.
pub open spec fn writes_bank(t: Transfer, dev: u8) -> bool {
    ||| {
        &&& t is Write
        &&& t->Write_address == dev
        &&& t->Write_bytes.len() >= 2
        &&& t->Write_bytes[0] == Register::Cfg0.address()
    }
    ||| {
        &&& t is WriteFailed
        &&& t->WriteFailed_address == dev
        &&& t->WriteFailed_bytes.len() >= 2
        &&& t->WriteFailed_bytes[0] == Register::Cfg0.address()
    }
}

/// The last write to `CFG0` of device `dev` in `h`, as its value and whether
/// it went through.
pub open spec fn last_bank_write(h: Seq<Transfer>, dev: u8) -> Option<(u8, bool)>
    decreases h.len(),
{
    if h.len() == 0 {
        None
    } else if writes_bank(h.last(), dev) {
        match h.last() {
            Transfer::Write { bytes, .. } => Some((bytes[1], true)),
            Transfer::WriteFailed { bytes, .. } => Some((bytes[1], false)),
            _ => None,
        }
    } else {
        last_bank_write(h.drop_last(), dev)
    }
}

/// After `h` device `dev` has its default bank selected: the last write to
/// `CFG0`, if any, went through with the bank-select bit clear.
pub open spec fn leaves_default_bank(h: Seq<Transfer>, dev: u8) -> bool {
    match last_bank_write(h, dev) {
        None => true,
        Some((value, done)) => done && value & 0x10 == 0,
    }
}

/// `h` ends with a failed transfer on `CFG0` of device `dev`: the bank could
/// not be restored.
pub open spec fn ends_in_failed_bank_access(h: Seq<Transfer>, dev: u8) -> bool {
    &&& h.len() > 0
    &&& is_failure(h.last())
    &&& h.last() is WriteFailed ==> h.last()->WriteFailed_address == dev
    &&& h.last() is WriteReadFailed ==> h.last()->WriteReadFailed_address == dev
    &&& start_of(h.last()) == Register::Cfg0.address()
}

/// Some transfer of `h` from index `start` on failed.
pub open spec fn fails_from(h: Seq<Transfer>, start: int) -> bool {
    exists|i: int| start <= i < h.len() && #[trigger] is_failure(h[i])
}

/// A read-modify-write extends the history, and ends in a write that went
/// through exactly when it was done, in a failed transfer otherwise.
pub proof fn lemma_updated_by_extends(
    before: Seq<Transfer>,
    after: Seq<Transfer>,
    dev: u8,
    reg: Register,
    update: spec_fn(u8) -> u8,
    done: bool,
)
    requires
        updated_by(before, after, dev, reg, update, done),
    ensures
        after.len() > before.len(),
        after.take(before.len() as int) == before,
        done ==> after.last() is Write,
        !done ==> is_failure(after.last()),
        forall|i: int| before.len() <= i < after.len() ==> #[trigger] start_of(after[i]) == reg.address(),
{
    if !done && after == before.push(failed_read(dev, reg, 1)) {
        assert(after.take(before.len() as int) =~= before);
    }
}

/// A read-modify-write of `CFG0` that clears the bank-select bit leaves the
/// default bank selected when it is done, and otherwise ends in a failed
/// access to `CFG0`.
pub proof fn lemma_restore_leaves_default_bank(
    before: Seq<Transfer>,
    after: Seq<Transfer>,
    dev: u8,
    done: bool,
)
    requires
        updated_by(
            before,
            after,
            dev,
            Register::Cfg0,
            |v: u8| crate::fields::bank_value(v, false),
            done,
        ),
    ensures
        done ==> leaves_default_bank(after, dev),
        !done ==> ends_in_failed_bank_access(after, dev),
{
    lemma_updated_by_extends(
        before,
        after,
        dev,
        Register::Cfg0,
        |v: u8| crate::fields::bank_value(v, false),
        done,
    );
    if done {
        let v = byte_of(after[before.len() as int]);
        assert(((v & 0xEF) | 0u8) & 0x10 == 0) by (bit_vector);
        assert(after.last() == after[before.len() as int + 1]);
        assert(writes_bank(after.last(), dev));
    }
}

/// Transfers that do not write `CFG0` of device `dev` leave its bank as the
/// history before them left it.
pub proof fn lemma_bank_untouched(h: Seq<Transfer>, more: Seq<Transfer>, dev: u8)
    requires
        forall|i: int| 0 <= i < more.len() ==> !writes_bank(#[trigger] more[i], dev),
    ensures
        last_bank_write(h + more, dev) == last_bank_write(h, dev),
        leaves_default_bank(h + more, dev) == leaves_default_bank(h, dev),
    decreases more.len(),
{
    if more.len() == 0 {
        assert(h + more =~= h);
    } else {
        lemma_bank_untouched(h, more.drop_last(), dev);
        assert((h + more).drop_last() =~= h + more.drop_last());
        assert((h + more).last() == more[more.len() - 1]);
    }
}

/// A transfer that does not write `CFG0` of device `dev` leaves its bank as
/// the history before it left it.
pub proof fn lemma_push_keeps_bank(h: Seq<Transfer>, t: Transfer, dev: u8)
    requires
        !writes_bank(t, dev),
    ensures
        leaves_default_bank(h.push(t), dev) == leaves_default_bank(h, dev),
{
    assert(h.push(t).drop_last() =~= h);
}

/// A read-modify-write of a register other than `CFG0` leaves the bank as the
/// history before it left it.
pub proof fn lemma_update_keeps_bank(
    before: Seq<Transfer>,
    after: Seq<Transfer>,
    dev: u8,
    reg: Register,
    update: spec_fn(u8) -> u8,
    done: bool,
)
    requires
        updated_by(before, after, dev, reg, update, done),
        reg != Register::Cfg0,
    ensures
        leaves_default_bank(after, dev) == leaves_default_bank(before, dev),
{
    crate::registers::lemma_addresses_distinct(reg, Register::Cfg0);
    lemma_updated_by_extends(before, after, dev, reg, update, done);
    let more = after.skip(before.len() as int);
    assert(after =~= before + more);
    assert forall|i: int| 0 <= i < more.len() implies !writes_bank(#[trigger] more[i], dev) by {
        assert(more[i] == after[before.len() + i]);
    }
    lemma_bank_untouched(before, more, dev);
}

} // verus!
