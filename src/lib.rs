//! Driver for the MFRC522 contactless communication IC.
//!
//! The MFRC522 is a *Proximity Coupling Device* (PCD) and communicates with a
//! *Proximity Integrated Circuit Card* (PICC) using ISO/IEC 14443-A.
//! The driver talks to the chip's registers through an [`comm::Interface`],
//! and every operation is specified by the register transactions it
//! performs (see [`trace`]) and by what it makes of the values it reads.

pub mod comm;
pub mod error;
mod fifo;
pub mod picc;
pub mod protocol;
pub mod register;
pub mod trace;
mod util;

pub use fifo::FifoData;

use comm::{BusOp, Interface};
use core::marker::PhantomData;
use error::Error;
use register::{Command, Register, CRC_IRQ, FLUSH_BUFFER, POWER_DOWN, TIMER_IRQ};
use trace::{
    crc_end, crc_start, crc_trace, fifo_trace, reads_without, transceive_start, transceive_split,
    transceive_trace, CRC_POLL_LIMIT, IRQ_POLL_LIMIT, TRANSCEIVE_WAKE,
};
use vstd::prelude::*;

verus! {

broadcast use comm::lemma_prefix_trans, comm::lemma_clean_trans, comm::lemma_clean_before_failure;

/// A MIFARE authentication key.
pub type MifareKey = [u8; 6];

/// The UID of a PICC, with the SAK that completed its selection.
#[derive(Debug, PartialEq, Eq)]
pub enum Uid {
    /// Single sized UID, 4 bytes long
    Single(GenericUid<4>),
    /// Double sized UID, 7 bytes long
    Double(GenericUid<7>),
    /// Triple sized UID, 10 bytes long
    Triple(GenericUid<10>),
}

impl View for Uid {
    type V = Seq<u8>;

    open spec fn view(&self) -> Seq<u8> {
        match self {
            Uid::Single(u) => u@,
            Uid::Double(u) => u@,
            Uid::Triple(u) => u@,
        }
    }
}

impl Uid {
    /// The number of cascade levels beyond the first that the UID took.
    pub open spec fn cascade_level(&self) -> int {
        match self {
            Uid::Single(_) => 0,
            Uid::Double(_) => 1,
            Uid::Triple(_) => 2,
        }
    }

    /// The SAK byte that completed the selection.
    pub open spec fn sak_byte(&self) -> u8 {
        match self {
            Uid::Single(u) => u.sak_byte(),
            Uid::Double(u) => u.sak_byte(),
            Uid::Triple(u) => u.sak_byte(),
        }
    }

    /// The bytes of the UID.
    pub fn as_bytes(&self) -> (r: &[u8])
        ensures
            r@ == self@,
    {
        match self {
            Uid::Single(u) => u.as_bytes(),
            Uid::Double(u) => u.as_bytes(),
            Uid::Triple(u) => u.as_bytes(),
        }
    }
}

/// A UID takes four bytes, and three more for each cascade level beyond the first.
pub proof fn lemma_uid_size(uid: Uid)
    ensures
        uid@.len() == 4 + 3 * uid.cascade_level(),
{
    match uid {
        Uid::Single(u) => assert(u.bytes@.len() == 4),
        Uid::Double(u) => assert(u.bytes@.len() == 7),
        Uid::Triple(u) => assert(u.bytes@.len() == 10),
    }
}

/// A UID of `T` bytes with the SAK returned by the PICC.
#[derive(Debug, PartialEq, Eq)]
pub struct GenericUid<const T: usize> {
    /// The UID can have 4, 7 or 10 bytes.
    bytes: [u8; T],
    /// The SAK (Select acknowledge) byte returned from the PICC after successful selection.
    sak: picc::Sak,
}

impl<const T: usize> View for GenericUid<T> {
    type V = Seq<u8>;

    closed spec fn view(&self) -> Seq<u8> {
        self.bytes@
    }
}

impl<const T: usize> GenericUid<T> {
    /// The SAK byte returned after the selection.
    pub closed spec fn sak_byte(&self) -> u8 {
        self.sak.byte
    }

    pub fn new(bytes: [u8; T], sak_byte: u8) -> (r: Self)
        ensures
            r@ == bytes@,
            r.sak_byte() == sak_byte,
    {
        GenericUid { bytes, sak: picc::Sak::from(sak_byte) }
    }

    pub fn as_bytes(&self) -> (r: &[u8])
        ensures
            r@ == self@,
    {
        self.bytes.as_slice()
    }

    /// Whether the SAK announces a PICC compliant with ISO/IEC 14443-4.
    pub fn is_compliant(&self) -> (r: bool)
        ensures
            r == (self.sak_byte() & 0x20 != 0),
    {
        self.sak.is_compliant()
    }
}

/// Answer To reQuest type A
#[derive(Debug, PartialEq, Eq)]
pub struct AtqA {
    bytes: [u8; 2],
}

impl View for AtqA {
    type V = Seq<u8>;

    closed spec fn view(&self) -> Seq<u8> {
        self.bytes@
    }
}

/// Copies the bytes of `src` from index `from` on into `dst` at `at`.
fn append_bytes(dst: &mut [u8; 10], at: usize, src: &[u8; 4], from: usize)
    requires
        from <= 4,
        at + 4 - from <= 10,
    ensures
        final(dst)@.take(at + 4 - from) == old(dst)@.take(at as int) + src@.subrange(
            from as int,
            4,
        ),
{
    let mut i: usize = from;
    while i < 4
        invariant
            from <= i <= 4,
            at + 4 - from <= 10,
            dst@.take(at + i - from) == old(dst)@.take(at as int) + src@.subrange(from as int, i as int),
        decreases 4 - i,
    {
        let ghost prev = dst@;
        dst[at + i - from] = src[i];
        assert(dst@.take(at + i + 1 - from) =~= prev.take(at + i - from).push(src@[i as int]));
        assert(src@.subrange(from as int, i + 1) =~= src@.subrange(from as int, i as int).push(src@[i as int]));
        i += 1;
    }
}

/// Implemented by the different states of the MFRC522 driver.
///
/// This trait cannot be implemented outside of this crate.
pub trait State: util::Sealed {}

/// The MFRC522 driver starts in this state and needs to be initialized before it can be used.
pub struct Uninitialized(());

/// The MFRC522 driver is ready for use.
pub struct Initialized(());

impl State for Uninitialized {}

impl State for Initialized {}

impl util::Sealed for Uninitialized {}

impl util::Sealed for Initialized {}

/// MFRC522 driver
pub struct Mfrc522<COMM: Interface, S: State> {
    comm: COMM,
    state: PhantomData<S>,
    /// The register transactions completed so far, with the values read.
    ops: Ghost<Seq<BusOp>>,
    /// The error of the last transaction that failed on the bus, if any.
    failure: Ghost<Option<COMM::Error>>,
}

impl<COMM: Interface> Mfrc522<COMM, Uninitialized> {
    /// Create a new MFRC522 driver from the communication interface.
    pub fn new(comm: COMM) -> (r: Self)
        ensures
            r.bus_log() == Seq::<BusOp>::empty(),
            r.interface() == comm,
    {
        Mfrc522 { comm, state: PhantomData, ops: Ghost(Seq::empty()), failure: Ghost(None) }
    }
}

// The driver can transition to the `Initialized` state using this function
impl<E, COMM: Interface<Error = E>> Mfrc522<COMM, Uninitialized> {
    /// Initialize the MFRC522.
    ///
    /// This needs to be called before you can do any other operation.
    pub fn init(self) -> (r: Result<Mfrc522<COMM, Initialized>, Error<E>>)
        ensures
            r is Ok ==> self.bus_log().is_prefix_of(r->Ok_0.bus_log()) && exists|k: int|
                #[trigger] trace::init_split(added(self.bus_log(), r->Ok_0.bus_log()), k),
            r is Err ==> r->Err_0 is Comm || r->Err_0 is PollLimit,
    {
        let mut d = self;
        let ghost log0 = d.bus_log();
        let configured = d.configure();
        let ghost result = configured;
        match configured {
            Ok(()) => {},
            Err(e) => {
                return Err(e);
            },
        }
        let ready = Mfrc522 { comm: d.comm, state: PhantomData, ops: d.ops, failure: d.failure };
        proof {
            assert(trace::init_trace::<E>(added(log0, d.bus_log()), result));
            let k = choose|k: int| #[trigger] trace::init_split(added(log0, d.bus_log()), k);
            assert(ready.bus_log() == d.bus_log());
            assert(trace::init_split(added(log0, ready.bus_log()), k));
        }
        Ok(ready)
    }
}

impl<COMM: Interface, S: State> Mfrc522<COMM, S> {
    /// The register transactions that the driver completed on its
    /// interface, with the values it read.
    pub closed spec fn bus_log(&self) -> Seq<BusOp> {
        self.ops@
    }

    /// The error that the last failed transaction returned, if any.
    pub closed spec fn last_failure(&self) -> Option<COMM::Error> {
        self.failure@
    }

    /// The operation that started at log `before` failed on the bus with `x`:
    /// its last transaction is the one that failed, with that error; none
    /// failed before it, and none followed it.
    pub open spec fn failed_with(&self, before: Seq<BusOp>, x: COMM::Error) -> bool {
        &&& before.len() < self.bus_log().len()
        &&& self.bus_log().last() is Failed
        &&& comm::clean(before, self.bus_log().drop_last())
        &&& self.last_failure() == Some(x)
    }

    /// The communication interface that the driver owns.
    pub closed spec fn interface(&self) -> COMM {
        self.comm
    }

    /// Release the underlying communication channel
    pub fn release(self) -> (r: COMM)
        ensures
            r == self.interface(),
    {
        self.comm
    }
}

/// The result of a cascade level, with the UID bytes as a sequence.
pub open spec fn level_view<E>(r: Result<([u8; 4], u8), Error<E>>) -> Result<(Seq<u8>, u8), Error<E>> {
    match r {
        Ok((u, sak)) => Ok((u@, sak)),
        Err(e) => Err(e),
    }
}

/// The operations that an operation added to the bus log.
pub open spec fn added(before: Seq<BusOp>, after: Seq<BusOp>) -> Seq<BusOp> {
    after.skip(before.len() as int)
}

// The private functions are implemented for all states.
impl<E, COMM: Interface<Error = E>, S: State> Mfrc522<COMM, S> {
    fn read(&mut self, reg: Register) -> (r: Result<u8, Error<E>>)
        ensures
            old(self).bus_log().is_prefix_of(final(self).bus_log()),
            r matches Err(Error::Comm(x)) ==> final(self).failed_with(old(self).bus_log(), x),
            !(r matches Err(Error::Comm(_))) ==> comm::clean(old(self).bus_log(), final(self).bus_log()),
            r is Ok ==> final(self).bus_log() == old(self).bus_log().push(BusOp::Read(reg, r->Ok_0)),
            r is Err ==> r->Err_0 is Comm,
    {
        match self.comm.read(reg) {
            Ok(v) => {
                self.ops = Ghost(self.ops@.push(BusOp::Read(reg, v)));
                Ok(v)
            },
            Err(e) => {
                let ghost prev = self.ops@;
                self.ops = Ghost(self.ops@.push(BusOp::Failed(reg)));
                self.failure = Ghost(Some(e));
                assert(self.ops@.drop_last() =~= prev);
                Err(Error::Comm(e))
            },
        }
    }

    fn read_many(&mut self, reg: Register, buffer: &mut [u8]) -> (r: Result<(), Error<E>>)
        ensures
            final(buffer)@.len() == old(buffer)@.len(),
            old(self).bus_log().is_prefix_of(final(self).bus_log()),
            r matches Err(Error::Comm(x)) ==> final(self).failed_with(old(self).bus_log(), x),
            !(r matches Err(Error::Comm(_))) ==> comm::clean(old(self).bus_log(), final(self).bus_log()),
            r is Ok ==> final(self).bus_log() == old(self).bus_log().push(
                BusOp::ReadMany(reg, final(buffer)@),
            ),
            r is Err ==> r->Err_0 is Comm,
    {
        match self.comm.read_many(reg, buffer) {
            Ok(_) => {
                self.ops = Ghost(self.ops@.push(BusOp::ReadMany(reg, buffer@)));
                Ok(())
            },
            Err(e) => {
                let ghost prev = self.ops@;
                self.ops = Ghost(self.ops@.push(BusOp::Failed(reg)));
                self.failure = Ghost(Some(e));
                assert(self.ops@.drop_last() =~= prev);
                Err(Error::Comm(e))
            },
        }
    }

    fn write(&mut self, reg: Register, val: u8) -> (r: Result<(), Error<E>>)
        ensures
            old(self).bus_log().is_prefix_of(final(self).bus_log()),
            r matches Err(Error::Comm(x)) ==> final(self).failed_with(old(self).bus_log(), x),
            !(r matches Err(Error::Comm(_))) ==> comm::clean(old(self).bus_log(), final(self).bus_log()),
            r is Ok ==> final(self).bus_log() == old(self).bus_log().push(BusOp::Write(reg, val)),
            r is Err ==> r->Err_0 is Comm,
    {
        match self.comm.write(reg, val) {
            Ok(()) => {
                self.ops = Ghost(self.ops@.push(BusOp::Write(reg, val)));
                Ok(())
            },
            Err(e) => {
                let ghost prev = self.ops@;
                self.ops = Ghost(self.ops@.push(BusOp::Failed(reg)));
                self.failure = Ghost(Some(e));
                assert(self.ops@.drop_last() =~= prev);
                Err(Error::Comm(e))
            },
        }
    }

    fn write_many(&mut self, reg: Register, bytes: &[u8]) -> (r: Result<(), Error<E>>)
        ensures
            old(self).bus_log().is_prefix_of(final(self).bus_log()),
            r matches Err(Error::Comm(x)) ==> final(self).failed_with(old(self).bus_log(), x),
            !(r matches Err(Error::Comm(_))) ==> comm::clean(old(self).bus_log(), final(self).bus_log()),
            r is Ok ==> final(self).bus_log() == old(self).bus_log().push(
                BusOp::WriteMany(reg, bytes@),
            ),
            r is Err ==> r->Err_0 is Comm,
    {
        match self.comm.write_many(reg, bytes) {
            Ok(()) => {
                self.ops = Ghost(self.ops@.push(BusOp::WriteMany(reg, bytes@)));
                Ok(())
            },
            Err(e) => {
                let ghost prev = self.ops@;
                self.ops = Ghost(self.ops@.push(BusOp::Failed(reg)));
                self.failure = Ghost(Some(e));
                assert(self.ops@.drop_last() =~= prev);
                Err(Error::Comm(e))
            },
        }
    }

    /// Request to execute the given command
    fn command(&mut self, command: Command) -> (r: Result<(), Error<E>>)
        ensures
            old(self).bus_log().is_prefix_of(final(self).bus_log()),
            r matches Err(Error::Comm(x)) ==> final(self).failed_with(old(self).bus_log(), x),
            !(r matches Err(Error::Comm(_))) ==> comm::clean(old(self).bus_log(), final(self).bus_log()),
            r is Ok ==> final(self).bus_log() == old(self).bus_log().push(
                trace::command_op(command),
            ),
            r is Err ==> r->Err_0 is Comm,
    {
        self.write(Register::CommandReg, command.code())
    }

    /// Flush the internal FIFO buffer
    fn fifo_flush(&mut self) -> (r: Result<(), Error<E>>)
        ensures
            old(self).bus_log().is_prefix_of(final(self).bus_log()),
            r matches Err(Error::Comm(x)) ==> final(self).failed_with(old(self).bus_log(), x),
            !(r matches Err(Error::Comm(_))) ==> comm::clean(old(self).bus_log(), final(self).bus_log()),
            r is Ok ==> final(self).bus_log() == old(self).bus_log().push(trace::flush_op()),
            r is Err ==> r->Err_0 is Comm,
    {
        self.write(Register::FIFOLevelReg, FLUSH_BUFFER)
    }

    /// Computes the CRC_A of `data` on the chip's coprocessor, low byte first.
    pub fn calculate_crc(&mut self, data: &[u8]) -> (r: Result<[u8; 2], Error<E>>)
        ensures
            !(r matches Err(Error::Proprietary)),
            old(self).bus_log().is_prefix_of(final(self).bus_log()),
            r matches Err(Error::Comm(x)) ==> final(self).failed_with(old(self).bus_log(), x),
            !(r matches Err(Error::Comm(_))) ==> comm::clean(old(self).bus_log(), final(self).bus_log()),
            r is Err && r->Err_0 is Comm || crc_trace(
                data@,
                added(old(self).bus_log(), final(self).bus_log()),
                r,
            ),
    {
        let ghost log0 = self.bus_log();
        // stop any ongoing command
        self.command(Command::Idle)?;
        // clear the CRC_IRQ interrupt flag
        self.write(Register::DivIrqReg, CRC_IRQ)?;
        // flush FIFO buffer
        self.fifo_flush()?;
        // write data to transmit to the FIFO buffer
        self.write_many(Register::FIFODataReg, data)?;
        self.command(Command::CalcCRC)?;
        let ghost log1 = self.bus_log();
        assert(log1 == log0 + crc_start(data@));
        // Wait for the CRC calculation to complete.
        let ghost mut polls: Seq<BusOp> = Seq::empty();
        let mut i: usize = 0;
        while i < CRC_POLL_LIMIT
            invariant
                i <= CRC_POLL_LIMIT,
                log0.is_prefix_of(log1),
                log1 == log0 + crc_start(data@),
                self.bus_log() == log1 + polls,
                log0 == old(self).bus_log(),
                log0.is_prefix_of(self.bus_log()),
                polls.len() == i,
                reads_without(polls, Register::DivIrqReg, CRC_IRQ),
            decreases CRC_POLL_LIMIT - i,
        {
            let irq = self.read(Register::DivIrqReg)?;
            if irq & CRC_IRQ != 0 {
                self.command(Command::Idle)?;
                let lo = self.read(Register::CRCResultRegLow)?;
                let hi = self.read(Register::CRCResultRegHigh)?;
                let crc: [u8; 2] = [lo, hi];
                proof {
                    let t = added(log0, self.bus_log());
                    assert(t =~= crc_start(data@) + polls + seq![BusOp::Read(Register::DivIrqReg, irq)] + crc_end(crc));
                    assert(t.take(5) =~= crc_start(data@));
                    assert(t.subrange(5, t.len() - 4) =~= polls);
                    assert(t.skip(t.len() - 3) =~= crc_end(crc));
                }
                return Ok(crc);
            }
            proof {
                polls = polls.push(BusOp::Read(Register::DivIrqReg, irq));
            }
            i += 1;
        }
        proof {
            let t = added(log0, self.bus_log());
            assert(t =~= crc_start(data@) + polls);
            assert(t.take(5) =~= crc_start(data@));
            assert(t.skip(5) =~= polls);
        }
        Err(Error::Timeout)
    }

    /// Polls ComIrqReg until one of the bits of `wake` is set, the timer
    /// expires, or the poll limit is reached.
    fn wait_for_irq(&mut self, wake: u8) -> (r: Result<(), Error<E>>)
        ensures
            old(self).bus_log().is_prefix_of(final(self).bus_log()),
            r matches Err(Error::Comm(x)) ==> final(self).failed_with(old(self).bus_log(), x),
            !(r matches Err(Error::Comm(_))) ==> comm::clean(old(self).bus_log(), final(self).bus_log()),
            r is Err && r->Err_0 is Comm || r is Ok && trace::woke(
                added(old(self).bus_log(), final(self).bus_log()),
                wake,
            ) || r == Err::<(), Error<E>>(Error::Timeout) && trace::timer_expired(
                added(old(self).bus_log(), final(self).bus_log()),
                wake,
            ) || r == Err::<(), Error<E>>(Error::PollLimit) && trace::poll_limit_reached(
                added(old(self).bus_log(), final(self).bus_log()),
                wake,
            ),
    {
        let ghost log0 = self.bus_log();
        let ghost mut polls: Seq<BusOp> = Seq::empty();
        let mut i: usize = 0;
        while i < IRQ_POLL_LIMIT
            invariant
                i <= IRQ_POLL_LIMIT,
                log0 == old(self).bus_log(),
                log0.is_prefix_of(self.bus_log()),
                self.bus_log() == log0 + polls,
                polls.len() == i,
                reads_without(polls, Register::ComIrqReg, wake | TIMER_IRQ),
            decreases IRQ_POLL_LIMIT - i,
        {
            let irq = self.read(Register::ComIrqReg)?;
            let ghost op = BusOp::Read(Register::ComIrqReg, irq);
            assert(added(log0, self.bus_log()) =~= polls.push(op));
            assert(polls.push(op).drop_last() =~= polls);
            if irq & wake != 0 {
                return Ok(());
            } else if irq & TIMER_IRQ != 0 {
                return Err(Error::Timeout);
            }
            assert(irq & (wake | TIMER_IRQ) == 0) by (bit_vector)
                requires
                    irq & wake == 0,
                    irq & TIMER_IRQ == 0,
                    TIMER_IRQ == 1u8,
            ;
            proof {
                polls = polls.push(op);
            }
            i += 1;
        }
        assert(added(log0, self.bus_log()) =~= polls);
        Err(Error::PollLimit)
    }

    /// Reads ErrorReg and reports the error it holds, if any.
    fn check_error_register(&mut self) -> (r: Result<(), Error<E>>)
        ensures
            old(self).bus_log().is_prefix_of(final(self).bus_log()),
            r matches Err(Error::Comm(x)) ==> final(self).failed_with(old(self).bus_log(), x),
            !(r matches Err(Error::Comm(_))) ==> comm::clean(old(self).bus_log(), final(self).bus_log()),
            r is Err && r->Err_0 is Comm || {
                let t = added(old(self).bus_log(), final(self).bus_log());
                &&& t.len() == 1
                &&& trace::is_read_of(t[0], Register::ErrorReg)
                &&& r == protocol::spec_error_from_register::<E>(trace::read_value(t[0]))
            },
    {
        let err = self.read(Register::ErrorReg)?;
        assert(added(old(self).bus_log(), self.bus_log()) =~= seq![BusOp::Read(Register::ErrorReg, err)]);
        protocol::error_from_register(err)
    }

    /// Get the data from the internal FIFO buffer, into a buffer of `capacity` bytes.
    pub fn fifo_data(&mut self, capacity: usize) -> (r: Result<FifoData, Error<E>>)
        ensures
            !(r matches Err(Error::Proprietary)),
            old(self).bus_log().is_prefix_of(final(self).bus_log()),
            r matches Err(Error::Comm(x)) ==> final(self).failed_with(old(self).bus_log(), x),
            !(r matches Err(Error::Comm(_))) ==> comm::clean(old(self).bus_log(), final(self).bus_log()),
            r is Err && r->Err_0 is Comm || fifo_trace(
                capacity as nat,
                added(old(self).bus_log(), final(self).bus_log()),
                r,
            ),
            r is Ok ==> r->Ok_0.wf() && r->Ok_0.buffer@.len() == capacity,
            capacity == 0 ==> r is Ok && final(self).bus_log() == old(self).bus_log(),
    {
        let ghost log0 = self.bus_log();
        let mut buffer: Vec<u8> = vec![0u8; capacity];
        let mut valid_bytes: usize = 0;
        let mut valid_bits: usize = 0;
        if capacity > 0 {
            valid_bytes = self.read(Register::FIFOLevelReg)? as usize;
            let ghost t1 = added(log0, self.bus_log());
            assert(t1 =~= seq![BusOp::Read(Register::FIFOLevelReg, valid_bytes as u8)]);
            if valid_bytes > capacity {
                return Err(Error::NoRoom);
            }
            if valid_bytes > 0 {
                let mut received: Vec<u8> = vec![0u8; valid_bytes];
                self.read_many(Register::FIFODataReg, received.as_mut_slice())?;
                let ghost t2 = added(log0, self.bus_log());
                assert(t2 =~= t1.push(BusOp::ReadMany(Register::FIFODataReg, received@)));
                let mut i: usize = 0;
                while i < valid_bytes
                    invariant
                        i <= valid_bytes <= capacity,
                        received@.len() == valid_bytes,
                        buffer@.len() == capacity,
                        forall|j: int| 0 <= j < i ==> buffer@[j] == received@[j],
                        forall|j: int| i <= j < capacity ==> buffer@[j] == 0u8,
                    decreases valid_bytes - i,
                {
                    buffer.set(i, received[i]);
                    i += 1;
                }
                let control = self.read(Register::ControlReg)?;
                valid_bits = (control & 0x07) as usize;
                assert(control & 0x07 < 8) by (bit_vector);
                proof {
                    let t = added(log0, self.bus_log());
                    assert(t =~= t2.push(BusOp::Read(Register::ControlReg, control)));
                    assert(buffer@.take(valid_bytes as int) =~= received@);
                    assert(buffer@.skip(valid_bytes as int) =~= Seq::new((capacity - valid_bytes) as nat, |i: int| 0u8));
                }
            } else {
                assert(buffer@ =~= Seq::new(capacity as nat, |i: int| 0u8));
            }
        } else {
            assert(added(log0, self.bus_log()) =~= Seq::<BusOp>::empty());
        }
        Ok(FifoData { buffer, valid_bytes, valid_bits })
    }

    /// Transmits `tx` and receives the answer into a buffer of `capacity`
    /// bytes. Only `tx_last_bits` bits of the last byte are sent (0: all of
    /// them), and the first received bit is stored at bit position
    /// `rx_align_bits` of the first received byte.
    pub fn transceive(
        &mut self,
        tx_buffer: &[u8],
        tx_last_bits: u8,
        rx_align_bits: u8,
        capacity: usize,
    ) -> (r: Result<FifoData, Error<E>>)
        ensures
            !(r matches Err(Error::Proprietary)),
            old(self).bus_log().is_prefix_of(final(self).bus_log()),
            r matches Err(Error::Comm(x)) ==> final(self).failed_with(old(self).bus_log(), x),
            !(r matches Err(Error::Comm(_))) ==> comm::clean(old(self).bus_log(), final(self).bus_log()),
            r is Err && r->Err_0 is Comm || transceive_trace(
                tx_buffer@,
                tx_last_bits,
                rx_align_bits,
                capacity as nat,
                added(old(self).bus_log(), final(self).bus_log()),
                r,
            ),
            r is Ok ==> r->Ok_0.wf() && r->Ok_0.buffer@.len() == capacity,
    {
        let ghost log0 = self.bus_log();
        // stop any ongoing command
        self.command(Command::Idle)?;
        // clear all interrupt flags
        self.write(Register::ComIrqReg, 0x7f)?;
        // flush FIFO buffer
        self.fifo_flush()?;
        // write data to transmit to the FIFO buffer
        self.write_many(Register::FIFODataReg, tx_buffer)?;
        // signal command
        self.command(Command::Transceive)?;
        // configure short frame and start transmission
        let framing = protocol::bit_framing(tx_last_bits, rx_align_bits);
        self.write(Register::BitFramingReg, framing)?;
        let ghost log1 = self.bus_log();
        let ghost start = transceive_start(tx_buffer@, tx_last_bits, rx_align_bits);
        assert(added(log0, log1) =~= start);
        // wait for transmission + reception to complete
        let waited = self.wait_for_irq(TRANSCEIVE_WAKE);
        let ghost log2 = self.bus_log();
        let ghost n = log2.len() - log1.len();
        let ghost w = added(log1, log2);
        match waited {
            Ok(()) => {},
            Err(e) => {
                proof {
                    if e == Error::<E>::Timeout || e == Error::<E>::PollLimit {
                        let t = added(log0, log2);
                        assert(t =~= start + w);
                        assert(t.take(6) =~= start);
                        assert(t.skip(6) =~= w);
                        assert(transceive_split(tx_buffer@, tx_last_bits, rx_align_bits, capacity as nat, t, n, Err::<FifoData, Error<E>>(e)));
                    }
                }
                return Err(e);
            },
        }
        let checked = self.check_error_register();
        let ghost log3 = self.bus_log();
        match checked {
            Ok(()) => {},
            Err(e) => {
                proof {
                    if !(e is Comm) {
                        let t = added(log0, log3);
                        assert(t =~= start + w + added(log2, log3));
                        assert(t.take(6) =~= start);
                        assert(t.subrange(6, 6 + n) =~= w);
                        assert(t.skip(6 + n) =~= added(log2, log3));
                        assert(transceive_split(tx_buffer@, tx_last_bits, rx_align_bits, capacity as nat, t, n, Err::<FifoData, Error<E>>(e)));
                    }
                }
                return Err(e);
            },
        }
        let r = self.fifo_data(capacity);
        proof {
            let log4 = self.bus_log();
            if !(r is Err && r->Err_0 is Comm) {
                let t = added(log0, log4);
                let rest = added(log2, log4);
                assert(t =~= start + w + rest);
                assert(rest =~= added(log2, log3) + added(log3, log4));
                assert(rest.skip(1) =~= added(log3, log4));
                assert(t.take(6) =~= start);
                assert(t.subrange(6, 6 + n) =~= w);
                assert(t.skip(6 + n) =~= rest);
                assert(transceive_split(tx_buffer@, tx_last_bits, rx_align_bits, capacity as nat, t, n, r));
            }
        }
        r
    }

    /// Resets the chip and writes the settings that `init` establishes.
    fn configure(&mut self) -> (r: Result<(), Error<E>>)
        ensures
            old(self).bus_log().is_prefix_of(final(self).bus_log()),
            r matches Err(Error::Comm(x)) ==> final(self).failed_with(old(self).bus_log(), x),
            !(r matches Err(Error::Comm(_))) ==> comm::clean(old(self).bus_log(), final(self).bus_log()),
            r is Err && r->Err_0 is Comm || trace::init_trace(
                added(old(self).bus_log(), final(self).bus_log()),
                r,
            ),
    {
        let ghost log0 = self.bus_log();
        let reset = self.reset();
        let ghost reset_result = reset;
        match reset {
            Ok(()) => {},
            Err(e) => {
                return Err(e);
            },
        }
        let ghost log1 = self.bus_log();
        let ghost k = log1.len() - log0.len();
        self.write(Register::TxModeReg, 0x00)?;
        self.write(Register::RxModeReg, 0x00)?;
        // Reset ModWidthReg to default value
        self.write(Register::ModWidthReg, 0x26)?;
        // Configure the timer, so we can get a timeout if something goes wrong
        // when communicating with a PICC:
        // - Set timer to start automatically at the end of the transmission
        self.write(Register::TModeReg, 0x80)?;
        // - Configure the prescaler to determine the timer frequency:
        //   f_timer = 13.56 MHz / (2 * TPreScaler + 1)
        //   so for 40kHz frequency (25μs period), TPreScaler = 0x0A9
        self.write(Register::TPrescalerReg, 0xA9)?;
        // - Set the reload value to determine the timeout
        //   for a 25ms timeout, we need a value of 1000 = 0x3E8
        self.write(Register::TReloadRegHigh, 0x03)?;
        self.write(Register::TReloadRegLow, 0xE8)?;
        self.write(Register::TxASKReg, register::FORCE_100_ASK)?;
        // Set preset value of CRC coprocessor according to ISO 14443-3 part 6.2.4
        self.write(Register::ModeReg, (0x3f & (!0b11u8)) | 0b01)?;
        let ghost log2 = self.bus_log();
        // Enable antenna
        self.modify(Register::TxControlReg, 0x03, 0)?;
        proof {
            let t = added(log0, self.bus_log());
            assert((0x3fu8 & (!0b11u8)) | 0b01u8 == 0x3Du8) by (bit_vector);
            assert(t.take(k) =~= added(log0, log1));
            assert(added(log1, log2) =~= trace::init_settings());
            assert(t.subrange(k, k + 9) =~= trace::init_settings());
            assert(reset_result is Ok);
            assert(trace::reset_trace::<E>(added(log0, log1), reset_result));
            assert(trace::reset_trace::<()>(t.take(k), Ok(())));
            assert(trace::init_split(t, k));
        }
        Ok(())
    }

    /// Perform a software reset, then wait until the chip has left the
    /// power-down mode.
    fn reset(&mut self) -> (r: Result<(), Error<E>>)
        ensures
            old(self).bus_log().is_prefix_of(final(self).bus_log()),
            r matches Err(Error::Comm(x)) ==> final(self).failed_with(old(self).bus_log(), x),
            !(r matches Err(Error::Comm(_))) ==> comm::clean(old(self).bus_log(), final(self).bus_log()),
            r is Err && r->Err_0 is Comm || trace::reset_trace(
                added(old(self).bus_log(), final(self).bus_log()),
                r,
            ),
    {
        let ghost log0 = self.bus_log();
        self.command(Command::SoftReset)?;
        let ghost log1 = self.bus_log();
        let ghost mut polls: Seq<BusOp> = Seq::empty();
        let mut i: usize = 0;
        while i < IRQ_POLL_LIMIT
            invariant
                i <= IRQ_POLL_LIMIT,
                log0 == old(self).bus_log(),
                log0.is_prefix_of(self.bus_log()),
                log1 == log0.push(trace::command_op(Command::SoftReset)),
                self.bus_log() == log1 + polls,
                polls.len() == i,
                trace::reads_with(polls, Register::CommandReg, POWER_DOWN),
            decreases IRQ_POLL_LIMIT - i,
        {
            let v = self.read(Register::CommandReg)?;
            let ghost op = BusOp::Read(Register::CommandReg, v);
            let ghost t = added(log0, self.bus_log());
            assert(t =~= seq![trace::command_op(Command::SoftReset)] + polls.push(op));
            if v & POWER_DOWN == 0 {
                assert(t.subrange(1, t.len() - 1) =~= polls);
                return Ok(());
            }
            proof {
                polls = polls.push(op);
            }
            i += 1;
        }
        assert(added(log0, self.bus_log()).skip(1) =~= polls);
        Err(Error::PollLimit)
    }

    /// Sends the 7-bit frame `cmd` and expects a 2-byte ATQA.
    fn request(&mut self, cmd: u8) -> (r: Result<AtqA, Error<E>>)
        ensures
            old(self).bus_log().is_prefix_of(final(self).bus_log()),
            r matches Err(Error::Comm(x)) ==> final(self).failed_with(old(self).bus_log(), x),
            !(r matches Err(Error::Comm(_))) ==> comm::clean(old(self).bus_log(), final(self).bus_log()),
            r is Err && r->Err_0 is Comm || trace::request_trace(
                cmd,
                added(old(self).bus_log(), final(self).bus_log()),
                r,
            ),
    {
        let frame: [u8; 1] = [cmd];
        let f = self.transceive(frame.as_slice(), 7, 0, 2);
        let ghost fg = f;
        assert(frame@ =~= seq![cmd]);
        let r = match f {
            Ok(fifo_data) => {
                if fifo_data.valid_bytes != 2 || fifo_data.valid_bits != 0 {
                    Err(Error::IncompleteFrame)
                } else {
                    let atqa = AtqA { bytes: [fifo_data.buffer[0], fifo_data.buffer[1]] };
                    assert(atqa@ =~= fifo_data.buffer@);
                    Ok(atqa)
                }
            },
            Err(e) => Err(e),
        };
        assert(trace::request_outcome(fg, r));
        r
    }

    /// Reads `reg`, sets the bits of `set`, clears those of `clear` and
    /// writes it back, through the interface's read-modify-write.
    fn modify(&mut self, reg: Register, set: u8, clear: u8) -> (r: Result<(), Error<E>>)
        ensures
            old(self).bus_log().is_prefix_of(final(self).bus_log()),
            r matches Err(Error::Comm(x)) ==> final(self).failed_with(old(self).bus_log(), x),
            !(r matches Err(Error::Comm(_))) ==> comm::clean(old(self).bus_log(), final(self).bus_log()),
            r is Ok ==> final(self).bus_log() == old(self).bus_log().push(
                BusOp::Modify(reg, set, clear),
            ),
            r is Err ==> r->Err_0 is Comm,
    {
        match self.comm.rmw(reg, |b: u8| -> (v: u8) ensures v == (b & !clear) | set { (b & !clear) | set }) {
            Ok(()) => {
                self.ops = Ghost(self.ops@.push(BusOp::Modify(reg, set, clear)));
                Ok(())
            },
            Err(e) => {
                let ghost prev = self.ops@;
                self.ops = Ghost(self.ops@.push(BusOp::Failed(reg)));
                self.failure = Ghost(Some(e));
                assert(self.ops@.drop_last() =~= prev);
                Err(Error::Comm(e))
            },
        }
    }
}

} // verus!

verus! {

// The public functions can only be used after initializing
impl<E, COMM: Interface<Error = E>> Mfrc522<COMM, Initialized> {
    /// Sends a REQuest type A to nearby PICCs
    pub fn reqa(&mut self) -> (r: Result<AtqA, Error<E>>)
        ensures
            old(self).bus_log().is_prefix_of(final(self).bus_log()),
            r matches Err(Error::Comm(x)) ==> final(self).failed_with(old(self).bus_log(), x),
            !(r matches Err(Error::Comm(_))) ==> comm::clean(old(self).bus_log(), final(self).bus_log()),
            r is Err && r->Err_0 is Comm || trace::request_trace(
                0x26,
                added(old(self).bus_log(), final(self).bus_log()),
                r,
            ),
    {
        // NOTE REQA is a short frame (7 bits)
        self.request(picc::Command::ReqA.code())
    }

    /// Sends a Wake UP type A to nearby PICCs
    pub fn wupa(&mut self) -> (r: Result<AtqA, Error<E>>)
        ensures
            old(self).bus_log().is_prefix_of(final(self).bus_log()),
            r matches Err(Error::Comm(x)) ==> final(self).failed_with(old(self).bus_log(), x),
            !(r matches Err(Error::Comm(_))) ==> comm::clean(old(self).bus_log(), final(self).bus_log()),
            r is Err && r->Err_0 is Comm || trace::request_trace(
                0x52,
                added(old(self).bus_log(), final(self).bus_log()),
                r,
            ),
    {
        // NOTE WUPA is a short frame (7 bits)
        self.request(picc::Command::WupA.code())
    }

    /// Restores the transmission settings, then sends a REQA.
    pub fn new_card_present(&mut self) -> (r: Result<AtqA, Error<E>>)
        ensures
            old(self).bus_log().is_prefix_of(final(self).bus_log()),
            r matches Err(Error::Comm(x)) ==> final(self).failed_with(old(self).bus_log(), x),
            !(r matches Err(Error::Comm(_))) ==> comm::clean(old(self).bus_log(), final(self).bus_log()),
            r is Err && r->Err_0 is Comm || {
                let t = added(old(self).bus_log(), final(self).bus_log());
                &&& 3 <= t.len()
                &&& t.take(3) == trace::card_present_settings()
                &&& trace::request_trace(0x26, t.skip(3), r)
            },
    {
        let ghost log0 = self.bus_log();
        self.write(Register::TxModeReg, 0x00)?;
        self.write(Register::RxModeReg, 0x00)?;
        self.write(Register::ModWidthReg, 0x26)?;
        let ghost log1 = self.bus_log();
        let r = self.reqa();
        proof {
            let t = added(log0, self.bus_log());
            assert(added(log0, log1) =~= trace::card_present_settings());
            assert(log1 =~= self.bus_log().subrange(0, log1.len() as int));
            assert(t.take(3) =~= added(log0, log1));
            assert(t.skip(3) =~= added(log1, self.bus_log()));
        }
        r
    }

    /// Sends command to enter HALT state
    pub fn hlta(&mut self) -> (r: Result<(), Error<E>>)
        ensures
            old(self).bus_log().is_prefix_of(final(self).bus_log()),
            r matches Err(Error::Comm(x)) ==> final(self).failed_with(old(self).bus_log(), x),
            !(r matches Err(Error::Comm(_))) ==> comm::clean(old(self).bus_log(), final(self).bus_log()),
            r is Err && r->Err_0 is Comm || exists|
                k: int,
                c: Result<[u8; 2], Error<E>>,
                f: Result<FifoData, Error<E>>,
            | #[trigger] trace::hlta_split(added(old(self).bus_log(), final(self).bus_log()), k, c, f, r),
    {
        let ghost log0 = self.bus_log();
        let head: [u8; 2] = [picc::Command::HltA.code(), 0];
        assert(head@ =~= seq![0x50u8, 0u8]);
        let c = self.calculate_crc(head.as_slice());
        let ghost log1 = self.bus_log();
        let ghost cg = c;
        let ghost k = log1.len() - log0.len();
        let crc = match c {
            Ok(crc) => crc,
            Err(e) => {
                proof {
                    let t = added(log0, log1);
                    assert(t.take(k) =~= t);
                    assert(e is Comm || trace::hlta_split(t, k, cg, Err::<FifoData, Error<E>>(Error::Timeout), Err::<(), Error<E>>(e)));
                }
                return Err(e);
            },
        };
        let buffer: [u8; 4] = [head[0], head[1], crc[0], crc[1]];
        assert(buffer@ =~= seq![0x50u8, 0u8, crc@[0], crc@[1]]);
        // The standard says:
        //   If the PICC responds with any modulation during a period of 1 ms
        //   after the end of the frame containing the HLTA command,
        //   this response shall be interpreted as 'not acknowledge'.
        // So only a timeout is a success.
        let f = self.transceive(buffer.as_slice(), 0, 0, 0);
        let ghost fg = f;
        let r = protocol::hlta_outcome(f);
        proof {
            let t = added(log0, self.bus_log());
            assert(t.take(k) =~= added(log0, log1));
            assert(t.skip(k) =~= added(log1, self.bus_log()));
            assert(r is Err && r->Err_0 is Comm || trace::hlta_split(t, k, cg, fg, r));
        }
        r
    }

    /// Authenticates with key A for access to `block`, using the first
    /// four bytes of the UID. On success the chip's Crypto1 unit is active,
    /// and must be switched off with `stop_crypto1` after the session.
    pub fn mf_authenticate(&mut self, uid: &Uid, block: u8, key: &MifareKey) -> (r: Result<
        (),
        Error<E>,
    >)
        ensures
            old(self).bus_log().is_prefix_of(final(self).bus_log()),
            r matches Err(Error::Comm(x)) ==> final(self).failed_with(old(self).bus_log(), x),
            !(r matches Err(Error::Comm(_))) ==> comm::clean(old(self).bus_log(), final(self).bus_log()),
            r is Err && r->Err_0 is Comm || exists|n: int|
                #[trigger] trace::auth_split(
                    block,
                    key@,
                    uid@,
                    added(old(self).bus_log(), final(self).bus_log()),
                    n,
                    r,
                ),
    {
        let ghost log0 = self.bus_log();
        // stop any ongoing command
        self.command(Command::Idle)?;
        // clear all interrupt flags
        self.write(Register::ComIrqReg, 0x7f)?;
        // flush FIFO buffer
        self.fifo_flush()?;
        // clear bit framing
        self.write(Register::BitFramingReg, 0)?;
        let u = uid.as_bytes();
        proof {
            lemma_uid_size(*uid);
        }
        let tx_buffer: [u8; 12] = [
            picc::Command::MfAuthKeyA.code(),
            block,
            key[0],
            key[1],
            key[2],
            key[3],
            key[4],
            key[5],
            u[0],
            u[1],
            u[2],
            u[3],
        ];
        assert(tx_buffer@ =~= trace::auth_frame(block, key@, uid@));
        // write data to transmit to the FIFO buffer
        self.write_many(Register::FIFODataReg, tx_buffer.as_slice())?;
        // signal command
        self.command(Command::MFAuthent)?;
        let ghost log1 = self.bus_log();
        let ghost start = trace::auth_start(block, key@, uid@);
        assert(added(log0, log1) =~= start);
        let waited = self.wait_for_irq(trace::AUTHENTICATE_WAKE);
        let ghost log2 = self.bus_log();
        let ghost n = log2.len() - log1.len();
        let ghost w = added(log1, log2);
        match waited {
            Ok(()) => {},
            Err(e) => {
                proof {
                    if e == Error::<E>::Timeout || e == Error::<E>::PollLimit {
                        let t = added(log0, log2);
                        assert(t =~= start + w);
                        assert(t.take(6) =~= start);
                        assert(t.skip(6) =~= w);
                        assert(trace::auth_split(block, key@, uid@, t, n, Err::<(), Error<E>>(e)));
                    }
                }
                return Err(e);
            },
        }
        let r = self.check_error_register();
        proof {
            if !(r is Err && r->Err_0 is Comm) {
                let t = added(log0, self.bus_log());
                assert(t =~= start + w + added(log2, self.bus_log()));
                assert(t.take(6) =~= start);
                assert(t.subrange(6, 6 + n) =~= w);
                assert(trace::auth_split(block, key@, uid@, t, n, r));
            }
        }
        r
    }

    /// Reads the 16 bytes of `block`, checking the CRC of the answer.
    pub fn mf_read(&mut self, block: u8) -> (r: Result<[u8; 16], Error<E>>)
        ensures
            old(self).bus_log().is_prefix_of(final(self).bus_log()),
            r matches Err(Error::Comm(x)) ==> final(self).failed_with(old(self).bus_log(), x),
            !(r matches Err(Error::Comm(_))) ==> comm::clean(old(self).bus_log(), final(self).bus_log()),
            r is Err && r->Err_0 is Comm || exists|
                k1: int,
                c1: Result<[u8; 2], Error<E>>,
                k2: int,
                f: Result<FifoData, Error<E>>,
                c2: Result<[u8; 2], Error<E>>,
            |
                #[trigger] trace::mf_read_split(
                    block,
                    added(old(self).bus_log(), final(self).bus_log()),
                    k1,
                    c1,
                    k2,
                    f,
                    c2,
                    r,
                ),
    {
        let ghost log0 = self.bus_log();
        let head: [u8; 2] = [picc::Command::MfRead.code(), block];
        assert(head@ =~= seq![0x30u8, block]);
        let c1 = self.calculate_crc(head.as_slice());
        let ghost log1 = self.bus_log();
        let ghost c1g = c1;
        let ghost k1 = log1.len() - log0.len();
        let ghost no_fifo = Err::<FifoData, Error<E>>(Error::Timeout);
        let ghost no_crc = Err::<[u8; 2], Error<E>>(Error::Timeout);
        let crc = match c1 {
            Ok(crc) => crc,
            Err(e) => {
                proof {
                    let t = added(log0, log1);
                    assert(t.take(k1) =~= t);
                    assert(e is Comm || trace::mf_read_split(block, t, k1, c1g, k1, no_fifo, no_crc, Err::<[u8; 16], Error<E>>(e)));
                }
                return Err(e);
            },
        };
        let tx: [u8; 4] = [head[0], head[1], crc[0], crc[1]];
        assert(tx@ =~= seq![0x30u8, block, crc@[0], crc@[1]]);
        let f = self.transceive(tx.as_slice(), 0, 0, 18);
        let ghost log2 = self.bus_log();
        let ghost fg = f;
        let ghost k2 = log2.len() - log0.len();
        let rx = match f {
            Ok(rx) => rx,
            Err(e) => {
                proof {
                    let t = added(log0, log2);
                    assert(t.take(k1) =~= added(log0, log1));
                    assert(t.subrange(k1, k2) =~= added(log1, log2));
                    assert(e is Comm || trace::mf_read_split(block, t, k1, c1g, k2, fg, no_crc, Err::<[u8; 16], Error<E>>(e)));
                }
                return Err(e);
            },
        };
        if rx.valid_bytes != 18 || rx.valid_bits != 0 {
            proof {
                let t = added(log0, log2);
                assert(t.take(k1) =~= added(log0, log1));
                assert(t.subrange(k1, k2) =~= added(log1, log2));
                assert(trace::mf_read_split(block, t, k1, c1g, k2, fg, no_crc, Err::<[u8; 16], Error<E>>(Error::IncompleteFrame)));
            }
            return Err(Error::IncompleteFrame);
        }
        // verify CRC
        let data: [u8; 16] = [
            rx.buffer[0],
            rx.buffer[1],
            rx.buffer[2],
            rx.buffer[3],
            rx.buffer[4],
            rx.buffer[5],
            rx.buffer[6],
            rx.buffer[7],
            rx.buffer[8],
            rx.buffer[9],
            rx.buffer[10],
            rx.buffer[11],
            rx.buffer[12],
            rx.buffer[13],
            rx.buffer[14],
            rx.buffer[15],
        ];
        assert(data@ =~= rx.buffer@.take(16));
        let c2 = self.calculate_crc(data.as_slice());
        let ghost c2g = c2;
        let r = match c2 {
            Ok(crc) => {
                if crc[0] != rx.buffer[16] || crc[1] != rx.buffer[17] {
                    Err(Error::Crc)
                } else {
                    assert(crc@ =~= rx.buffer@.subrange(16, 18));
                    Ok(data)
                }
            },
            Err(e) => Err(e),
        };
        proof {
            let t = added(log0, self.bus_log());
            assert(t.take(k1) =~= added(log0, log1));
            assert(t.subrange(k1, k2) =~= added(log1, log2));
            assert(t.skip(k2) =~= added(log2, self.bus_log()));
            if c2g is Ok {
                let v = c2g->Ok_0;
                if v@ == rx.buffer@.subrange(16, 18) {
                    assert(v@[0] == rx.buffer@[16] && v@[1] == rx.buffer@[17]);
                }
            }
            assert(r is Err && r->Err_0 is Comm || trace::mf_read_split(block, t, k1, c1g, k2, fg, c2g, r));
        }
        r
    }

    /// Writes the 16 bytes of `data` to `block`: the write command, then the
    /// data, each of which the PICC must acknowledge.
    pub fn mf_write(&mut self, block: u8, data: [u8; 16]) -> (r: Result<(), Error<E>>)
        ensures
            old(self).bus_log().is_prefix_of(final(self).bus_log()),
            r matches Err(Error::Comm(x)) ==> final(self).failed_with(old(self).bus_log(), x),
            !(r matches Err(Error::Comm(_))) ==> comm::clean(old(self).bus_log(), final(self).bus_log()),
            r is Err && r->Err_0 is Comm || exists|
                k1: int,
                c1: Result<[u8; 2], Error<E>>,
                k2: int,
                f1: Result<FifoData, Error<E>>,
                k3: int,
                c2: Result<[u8; 2], Error<E>>,
                f2: Result<FifoData, Error<E>>,
            |
                #[trigger] trace::mf_write_split(
                    block,
                    data@,
                    added(old(self).bus_log(), final(self).bus_log()),
                    k1,
                    c1,
                    k2,
                    f1,
                    k3,
                    c2,
                    f2,
                    r,
                ),
    {
        let ghost log0 = self.bus_log();
        let ghost no_fifo = Err::<FifoData, Error<E>>(Error::Timeout);
        let ghost no_crc = Err::<[u8; 2], Error<E>>(Error::Timeout);
        let head: [u8; 2] = [picc::Command::MfWrite.code(), block];
        assert(head@ =~= seq![0xA0u8, block]);
        let c1 = self.calculate_crc(head.as_slice());
        let ghost log1 = self.bus_log();
        let ghost c1g = c1;
        let ghost k1 = log1.len() - log0.len();
        let crc = match c1 {
            Ok(crc) => crc,
            Err(e) => {
                proof {
                    let t = added(log0, log1);
                    assert(t.take(k1) =~= t);
                    assert(e is Comm || trace::mf_write_split(block, data@, t, k1, c1g, k1, no_fifo, k1, no_crc, no_fifo, Err::<(), Error<E>>(e)));
                }
                return Err(e);
            },
        };
        let cmd: [u8; 4] = [head[0], head[1], crc[0], crc[1]];
        assert(cmd@ =~= seq![0xA0u8, block, crc@[0], crc@[1]]);
        let f1 = self.transceive(cmd.as_slice(), 0, 0, 1);
        let ghost log2 = self.bus_log();
        let ghost f1g = f1;
        let ghost k2 = log2.len() - log0.len();
        proof {
            let t = added(log0, log2);
            assert(t.take(k1) =~= added(log0, log1));
            assert(t.subrange(k1, k2) =~= added(log1, log2));
        }
        let ack1 = match f1 {
            Ok(a) => a,
            Err(e) => {
                assert(e is Comm || trace::mf_write_split(block, data@, added(log0, log2), k1, c1g, k2, f1g, k2, no_crc, no_fifo, Err::<(), Error<E>>(e)));
                return Err(e);
            },
        };
        if !protocol::is_ack(&ack1) {
            assert(trace::mf_write_split(block, data@, added(log0, log2), k1, c1g, k2, f1g, k2, no_crc, no_fifo, Err::<(), Error<E>>(Error::Nak)));
            return Err(Error::Nak);
        }
        let c2 = self.calculate_crc(data.as_slice());
        let ghost log3 = self.bus_log();
        let ghost c2g = c2;
        let ghost k3 = log3.len() - log0.len();
        proof {
            let t = added(log0, log3);
            assert(t.take(k1) =~= added(log0, log1));
            assert(t.subrange(k1, k2) =~= added(log1, log2));
            assert(t.subrange(k2, k3) =~= added(log2, log3));
        }
        let crc = match c2 {
            Ok(crc) => crc,
            Err(e) => {
                assert(e is Comm || trace::mf_write_split(block, data@, added(log0, log3), k1, c1g, k2, f1g, k3, c2g, no_fifo, Err::<(), Error<E>>(e)));
                return Err(e);
            },
        };
        let mut tx: [u8; 18] = [0u8; 18];
        let mut i: usize = 0;
        while i < 16
            invariant
                i <= 16,
                forall|j: int| 0 <= j < i ==> tx@[j] == data@[j],
            decreases 16 - i,
        {
            tx[i] = data[i];
            i += 1;
        }
        tx[16] = crc[0];
        tx[17] = crc[1];
        assert(tx@ =~= data@ + crc@);
        let f2 = self.transceive(tx.as_slice(), 0, 0, 1);
        let ghost f2g = f2;
        let r = match f2 {
            Ok(a) => if protocol::is_ack(&a) {
                Ok(())
            } else {
                Err(Error::Nak)
            },
            Err(e) => Err(e),
        };
        proof {
            let t = added(log0, self.bus_log());
            assert(t.take(k1) =~= added(log0, log1));
            assert(t.subrange(k1, k2) =~= added(log1, log2));
            assert(t.subrange(k2, k3) =~= added(log2, log3));
            assert(t.skip(k3) =~= added(log3, self.bus_log()));
            assert(r is Err && r->Err_0 is Comm || trace::mf_write_split(block, data@, t, k1, c1g, k2, f1g, k3, c2g, f2g, r));
        }
        r
    }

    /// Returns the version reported by the MFRC522
    pub fn version(&mut self) -> (r: Result<u8, Error<E>>)
        ensures
            old(self).bus_log().is_prefix_of(final(self).bus_log()),
            r matches Err(Error::Comm(x)) ==> final(self).failed_with(old(self).bus_log(), x),
            !(r matches Err(Error::Comm(_))) ==> comm::clean(old(self).bus_log(), final(self).bus_log()),
            r is Ok ==> final(self).bus_log() == old(self).bus_log().push(
                BusOp::Read(Register::VersionReg, r->Ok_0),
            ),
            r is Err ==> r->Err_0 is Comm,
    {
        self.read(Register::VersionReg)
    }

    /// Switch off the MIFARE Crypto1 unit.
    /// Must be done after communication with an authenticated PICC
    pub fn stop_crypto1(&mut self) -> (r: Result<(), Error<E>>)
        ensures
            old(self).bus_log().is_prefix_of(final(self).bus_log()),
            r matches Err(Error::Comm(x)) ==> final(self).failed_with(old(self).bus_log(), x),
            !(r matches Err(Error::Comm(_))) ==> comm::clean(old(self).bus_log(), final(self).bus_log()),
            r is Ok ==> final(self).bus_log() == old(self).bus_log().push(
                BusOp::Modify(Register::Status2Reg, 0, 0x08),
            ),
            r is Err ==> r->Err_0 is Comm,
    {
        self.modify(Register::Status2Reg, 0, 0x08)
    }

    /// One anticollision round of a cascade level: sends the known bits
    /// and appends what arrives to `uid`. Returns whether every bit is now
    /// known; after a collision past the known bits, `known_bits` becomes its
    /// position and the colliding bit is resolved to 1.
    fn anticollision_round(&mut self, sel: u8, known_bits: &mut u8, uid: &mut [u8; 5]) -> (r: Result<
        bool,
        Error<E>,
    >)
        requires
            *old(known_bits) <= 32,
        ensures
            old(self).bus_log().is_prefix_of(final(self).bus_log()),
            r matches Err(Error::Comm(x)) ==> final(self).failed_with(old(self).bus_log(), x),
            !(r matches Err(Error::Comm(_))) ==> comm::clean(old(self).bus_log(), final(self).bus_log()),
            !(r matches Err(Error::Proprietary)),
            r == Ok::<bool, Error<E>>(false) ==> *old(known_bits) < *final(known_bits) <= 32,
            r is Err && r->Err_0 is Comm || trace::round_trace(
                sel,
                *old(known_bits),
                old(uid)@,
                added(old(self).bus_log(), final(self).bus_log()),
                trace::round_end(r, *final(known_bits), final(uid)@),
            ),
    {
        let ghost before = self.bus_log();
        let ghost uid0 = uid@;
        let ghost known0 = *known_bits;
        // Send the known bits only, and have the first received bit
        // stored right after them, so that the answer appends to `uid`.
        let tx_last_bits = *known_bits % 8;
        let frame = protocol::anticollision_frame(sel, *known_bits, uid);
        let f = self.transceive(frame.as_slice(), tx_last_bits, tx_last_bits, 5);
        let ghost fg = f;
        let ghost after_f = self.bus_log();
        let ghost k1 = after_f.len() - before.len();
        let ghost no_fifo = Err::<FifoData, Error<E>>(Error::Timeout);
        match f {
            Ok(fifo_data) => {
                let c = fifo_data.copy_bits_to(uid, *known_bits);
                let r = match c {
                    Ok(_) => Ok(true),
                    Err(e) => Err(e),
                };
                proof {
                    let tr = added(before, self.bus_log());
                    assert(tr.take(k1) =~= tr);
                    reveal(trace::round_trace);
                    assert(trace::round_split(sel, known0, uid0, tr, trace::round_end(r, *known_bits, uid@), k1, fg, no_fifo));
                }
                r
            },
            Err(Error::Collision) => {
                let coll_reg = self.read(Register::CollReg)?;
                let ghost after_c = self.bus_log();
                let progress = protocol::collision_progress(coll_reg, *known_bits);
                let coll_pos = match progress {
                    Ok(p) => p,
                    Err(e) => {
                        proof {
                            let tr = added(before, self.bus_log());
                            assert(tr.take(k1) =~= added(before, after_f));
                            reveal(trace::round_trace);
                            assert(trace::round_split(sel, known0, uid0, tr, trace::RoundEnd::<E>::Fail(e), k1, fg, no_fifo));
                        }
                        return Err(e);
                    },
                };
                let g = self.fifo_data(5);
                let ghost gg = g;
                let r = match g {
                    Ok(fifo_data) => {
                        match fifo_data.copy_bits_to(uid, *known_bits) {
                            Ok(_) => {
                                *known_bits = coll_pos;
                                protocol::mark_collision_bit(uid, *known_bits);
                                Ok(false)
                            },
                            Err(e) => Err(e),
                        }
                    },
                    Err(e) => Err(e),
                };
                proof {
                    if !(r is Err && r->Err_0 is Comm) {
                        let after_g = self.bus_log();
                        let tr = added(before, after_g);
                        assert(tr.take(k1) =~= added(before, after_f));
                        assert(after_c == after_g.subrange(0, after_c.len() as int));
                        assert(after_c[after_f.len() as int] == after_g[after_f.len() as int]);
                        assert(tr[k1] == BusOp::Read(Register::CollReg, coll_reg));
                        assert(tr.skip(k1 + 1) =~= added(after_c, after_g));
                        reveal(trace::round_trace);
                        assert(trace::round_split(sel, known0, uid0, tr, trace::round_end(r, *known_bits, uid@), k1, fg, gg));
                    }
                }
                r
            },
            Err(e) => {
                proof {
                    if !(e is Comm) {
                        let tr = added(before, self.bus_log());
                        assert(tr.take(k1) =~= tr);
                        reveal(trace::round_trace);
                        assert(trace::round_split(sel, known0, uid0, tr, trace::RoundEnd::<E>::Fail(e), k1, fg, no_fifo));
                    }
                }
                Err(e)
            },
        }
    }

    /// Runs one cascade level of the selection: resolves the four UID bytes
    /// of the level bit by bit, resolving collisions towards 1, then selects
    /// them and checks the SAK that the PICC answers.
    fn select_level(&mut self, sel: u8) -> (r: Result<([u8; 4], u8), Error<E>>)
        ensures
            old(self).bus_log().is_prefix_of(final(self).bus_log()),
            r matches Err(Error::Comm(x)) ==> final(self).failed_with(old(self).bus_log(), x),
            !(r matches Err(Error::Comm(_))) ==> comm::clean(old(self).bus_log(), final(self).bus_log()),
            !(r matches Err(Error::Proprietary)),
            r is Err && r->Err_0 is Comm || trace::level_trace::<E>(
                sel,
                added(old(self).bus_log(), final(self).bus_log()),
                level_view(r),
            ),
    {
        let ghost log0 = self.bus_log();
        let mut known_bits: u8 = 0;
        let mut uid: [u8; 5] = [0u8; 5];
        let ghost mut rounds: Seq<trace::Round<E>> = Seq::empty();
        assert(uid@ =~= Seq::new(5, |i: int| 0u8));
        loop
            invariant_except_break
                known_bits <= 32,
                log0 == old(self).bus_log(),
                log0.is_prefix_of(self.bus_log()),
                trace::rounds_chain(sel, added(log0, self.bus_log()), rounds),
                comm::clean(log0, self.bus_log()),
                rounds.len() == 0 ==> known_bits == 0 && uid@ == Seq::new(5, |i: int| 0u8)
                    && self.bus_log() == log0,
                rounds.len() > 0 ==> rounds.last().result == trace::RoundEnd::<E>::Next(
                    known_bits,
                    uid@,
                ) && rounds.last().end == added(log0, self.bus_log()).len(),
            ensures
                log0 == old(self).bus_log(),
                log0.is_prefix_of(self.bus_log()),
                rounds.len() >= 1,
                comm::clean(log0, self.bus_log()),
                trace::rounds_chain(sel, added(log0, self.bus_log()), rounds),
                rounds.last().result == trace::RoundEnd::<E>::Done(uid@),
                rounds.last().end == added(log0, self.bus_log()).len(),
            decreases 33 - known_bits,
        {
            let ghost before = self.bus_log();
            let ghost uid0 = uid@;
            let ghost known0 = known_bits;
            let round = self.anticollision_round(sel, &mut known_bits, &mut uid);
            proof {
                if !(round is Err && round->Err_0 is Comm) {
                    let t = added(log0, self.bus_log());
                    let start = before.len() - log0.len();
                    let rd = trace::Round {
                        known: known0,
                        uid: uid0,
                        start,
                        end: t.len() as int,
                        result: trace::round_end(round, known_bits, uid@),
                    };
                    assert(t.subrange(start, t.len() as int) =~= added(before, self.bus_log()));
                    trace::lemma_round_ok(sel, t, rd);
                    assert(added(log0, before) =~= t.subrange(0, start));
                    trace::lemma_rounds_push(sel, added(log0, before), t, rounds, rd);
                    rounds = rounds.push(rd);
                    if round is Err {
                        assert(trace::level_split(sel, t, rounds, Err::<(Seq<u8>, u8), Error<E>>(round->Err_0)));
                        reveal(trace::level_trace);
                    }
                }
            }
            match round {
                Ok(true) => {
                    break;
                },
                Ok(false) => {},
                Err(e) => {
                    return Err(e);
                },
            }
        }

        let ghost log1 = self.bus_log();
        let r = self.select_uid(sel, &uid);
        proof {
            if !(r is Err && r->Err_0 is Comm) {
                let t = added(log0, self.bus_log());
                assert(t.skip(rounds.last().end) =~= added(log1, self.bus_log()));
                assert(added(log0, log1) =~= t.subrange(0, added(log0, log1).len() as int));
                trace::lemma_rounds_extend(sel, added(log0, log1), t, rounds);
                assert(trace::level_split(sel, t, rounds, level_view(r)));
                reveal(trace::level_trace);
            }
        }
        r
    }

    /// Selects the UID bytes of a cascade level: sends the select frame
    /// with its BCC and CRC, and checks the CRC of the SAK that answers it.
    fn select_uid(&mut self, sel: u8, uid: &[u8; 5]) -> (r: Result<([u8; 4], u8), Error<E>>)
        ensures
            old(self).bus_log().is_prefix_of(final(self).bus_log()),
            r matches Err(Error::Comm(x)) ==> final(self).failed_with(old(self).bus_log(), x),
            !(r matches Err(Error::Comm(_))) ==> comm::clean(old(self).bus_log(), final(self).bus_log()),
            !(r matches Err(Error::Proprietary)),
            r is Err && r->Err_0 is Comm || trace::select_part::<E>(
                sel,
                uid@,
                added(old(self).bus_log(), final(self).bus_log()),
                level_view(r),
            ),
    {
        // send select: all 32 bits, the BCC and the CRC
        let ghost log1 = self.bus_log();
        let ghost u5 = uid@;
        let bcc = uid[0] ^ uid[1] ^ uid[2] ^ uid[3];
        let bytes: [u8; 4] = [uid[0], uid[1], uid[2], uid[3]];
        assert(bytes@ =~= u5.take(4));
        let head: [u8; 7] = [sel, 0x70, uid[0], uid[1], uid[2], uid[3], bcc];
        assert(head@ =~= trace::select_head(sel, bytes@));
        let c1 = self.calculate_crc(head.as_slice());
        let ghost c1g = c1;
        let ghost log2 = self.bus_log();
        let ghost mut log3 = log2;
        let ghost mut fg = Err::<FifoData, Error<E>>(Error::Timeout);
        let ghost mut c2g = Err::<[u8; 2], Error<E>>(Error::Timeout);
        let r: Result<([u8; 4], u8), Error<E>> = match c1 {
            Err(e) => Err(e),
            Ok(crc) => {
                let tx: [u8; 9] = [sel, 0x70, uid[0], uid[1], uid[2], uid[3], bcc, crc[0], crc[1]];
                assert(tx@ =~= trace::select_head(sel, bytes@) + crc@);
                let f = self.transceive(tx.as_slice(), 0, 0, 3);
                proof {
                    fg = f;
                    log3 = self.bus_log();
                }
                match f {
                    Err(e) => Err(e),
                    Ok(rx) => {
                        if rx.valid_bytes != 3 || rx.valid_bits != 0 {
                            Err(Error::IncompleteFrame)
                        } else {
                            let sak_only: [u8; 1] = [rx.buffer[0]];
                            assert(sak_only@ =~= seq![rx.buffer@[0]]);
                            let c2 = self.calculate_crc(sak_only.as_slice());
                            proof {
                                c2g = c2;
                            }
                            match c2 {
                                Err(e) => Err(e),
                                Ok(crc_verify) => {
                                    if rx.buffer[1] != crc_verify[0] || rx.buffer[2] != crc_verify[1] {
                                        Err(Error::Crc)
                                    } else {
                                        assert(crc_verify@ =~= rx.buffer@.subrange(1, 3));
                                        Ok((bytes, rx.buffer[0]))
                                    }
                                },
                            }
                        }
                    },
                }
            },
        };
        proof {
            if !(r is Err && r->Err_0 is Comm) {
                let ts = added(log1, self.bus_log());
                let k1 = log2.len() - log1.len();
                let k2 = log3.len() - log1.len();
                assert(ts.take(k1) =~= added(log1, log2));
                if c1g is Ok {
                    assert(ts.subrange(k1, k2) =~= added(log2, log3));
                    assert(ts.skip(k2) =~= added(log3, self.bus_log()));
                    if fg is Ok {
                        let d = fg->Ok_0;
                        if c2g is Ok && d.valid_bytes == 3 && d.valid_bits == 0 {
                            let v = c2g->Ok_0;
                            if v@ == d.buffer@.subrange(1, 3) {
                                assert(v@[0] == d.buffer@[1] && v@[1] == d.buffer@[2]);
                            }
                        }
                    }
                }
                assert(trace::select_split(sel, u5, ts, level_view(r), k1, c1g, k2, fg, c2g));
            }
        }
        r
    }

    /// Selects a PICC in the READY state, resolving bit collisions, over up
    /// to three cascade levels.
    pub fn select(&mut self, atqa: &AtqA) -> (r: Result<Uid, Error<E>>)
        ensures
            old(self).bus_log().is_prefix_of(final(self).bus_log()),
            r matches Err(Error::Comm(x)) ==> final(self).failed_with(old(self).bus_log(), x),
            !(r matches Err(Error::Comm(_))) ==> comm::clean(old(self).bus_log(), final(self).bus_log()),
            (r == Err::<Uid, Error<E>>(Error::Proprietary))
                == !protocol::spec_is_standard_anticollision(atqa@[0]),
            r is Err && r->Err_0 is Comm || trace::select_trace::<E>(
                atqa@[0],
                added(old(self).bus_log(), final(self).bus_log()),
                r,
            ),
            r is Ok ==> r->Ok_0@.len() == 4 + 3 * r->Ok_0.cascade_level(),
    {
        // check for proprietary anticollision
        if !protocol::is_standard_anticollision(atqa.bytes[0]) {
            assert(added(old(self).bus_log(), self.bus_log()).len() == 0);
            return Err(Error::Proprietary);
        }
        let ghost log0 = self.bus_log();
        // clear `ValuesAfterColl`
        self.modify(Register::CollReg, 0, 0x80)?;
        let ghost log1 = self.bus_log();

        let mut cascade_level: u8 = 0;
        let mut uid_bytes: [u8; 10] = [0u8; 10];
        let mut uid_idx: usize = 0;
        let mut last: ([u8; 4], u8);
        let ghost mut levels: Seq<trace::Level<E>> = Seq::empty();
        loop
            invariant_except_break
                cascade_level <= 2,
                uid_idx == 3 * cascade_level,
                levels.len() == cascade_level,
                protocol::spec_is_standard_anticollision(atqa@[0]),
                log0 == old(self).bus_log(),
                log1 == log0.push(BusOp::Modify(Register::CollReg, 0, 0x80)),
                log1.is_prefix_of(self.bus_log()),
                comm::clean(log0, self.bus_log()),
                trace::levels_chain(added(log1, self.bus_log()), levels),
                levels.len() > 0 ==> levels.last().end == added(log1, self.bus_log()).len(),
                levels.len() == 0 ==> self.bus_log() == log1,
                forall|i: int|
                    0 <= i < levels.len() ==> ((#[trigger] levels[i].result) matches Ok((_, sak))
                        && sak & 0x04 != 0),
                uid_bytes@.take(uid_idx as int) == trace::uid_of_levels(levels),
            ensures
                cascade_level <= 2,
                levels.len() == cascade_level + 1,
                log0 == old(self).bus_log(),
                log1 == log0.push(BusOp::Modify(Register::CollReg, 0, 0x80)),
                log1.is_prefix_of(self.bus_log()),
                comm::clean(log0, self.bus_log()),
                trace::levels_chain(added(log1, self.bus_log()), levels),
                levels.last().end == added(log1, self.bus_log()).len(),
                forall|i: int|
                    0 <= i < levels.len() - 1 ==> ((#[trigger] levels[i].result) matches Ok((_, sak))
                        && sak & 0x04 != 0),
                levels.last().result == Ok::<(Seq<u8>, u8), Error<E>>((last.0@, last.1)),
                last.1 & 0x04 == 0,
                uid_bytes@.take(3 * cascade_level + 4) == trace::uid_of_levels(levels.drop_last())
                    + last.0@,
            decreases 3 - cascade_level,
        {
            let sel = if cascade_level == 0 {
                picc::Command::SelCl1.code()
            } else if cascade_level == 1 {
                picc::Command::SelCl2.code()
            } else {
                picc::Command::SelCl3.code()
            };
            assert(sel == trace::sel_of_level(cascade_level as int));
            let ghost before = self.bus_log();
            let ghost done = levels;
            let level = self.select_level(sel);
            let ghost lg = level_view(level);
            proof {
                if !(level is Err && level->Err_0 is Comm) {
                    let after = self.bus_log();
                    let t = added(log1, after);
                    let l = trace::Level { start: before.len() - log1.len(), end: t.len() as int, result: lg };
                    assert(t.subrange(l.start, l.end) =~= added(before, after));
                    let t0 = added(log1, before);
                    assert(t0 =~= t.subrange(0, t0.len() as int));
                    trace::lemma_levels_push(t0, t, levels, l);
                    trace::lemma_uid_of_levels_push(levels, l);
                    levels = levels.push(l);
                    assert(levels.drop_last() =~= done);
                    if level is Err {
                        let r = Err::<Uid, Error<E>>(level->Err_0);
                        assert(trace::select_levels(added(log1, after), levels, r));
                        assert(added(log0, after).skip(1) =~= added(log1, after));
                        assert(log1 == after.subrange(0, log1.len() as int));
                        assert(added(log0, after)[0] == log1[log0.len() as int]);
                        assert(trace::select_trace::<E>(atqa@[0], added(log0, after), r));
                    }
                }
            }
            let (u, sak) = match level {
                Ok(v) => v,
                Err(e) => {
                    return Err(e);
                },
            };
            if !picc::Sak::from(sak).is_complete() {
                if cascade_level == 2 {
                    proof {
                        let after = self.bus_log();
                        let r = Err::<Uid, Error<E>>(Error::Protocol);
                        assert(trace::select_levels(added(log1, after), levels, r));
                        assert(added(log0, after).skip(1) =~= added(log1, after));
                        assert(log1 == after.subrange(0, log1.len() as int));
                        assert(added(log0, after)[0] == log1[log0.len() as int]);
                        assert(trace::select_trace::<E>(atqa@[0], added(log0, after), r));
                    }
                    // a UID has at most three cascade levels
                    return Err(Error::Protocol);
                }
                append_bytes(&mut uid_bytes, uid_idx, &u, 1);
                assert(u@.subrange(1, 4) =~= u@.skip(1));
                uid_idx += 3;
                cascade_level += 1;
            } else {
                append_bytes(&mut uid_bytes, uid_idx, &u, 0);
                assert(u@.subrange(0, 4) =~= u@);
                last = (u, sak);
                break;
            }
        }

        let sak_byte = last.1;
        let uid = if cascade_level == 0 {
            let bytes: [u8; 4] = [uid_bytes[0], uid_bytes[1], uid_bytes[2], uid_bytes[3]];
            assert(bytes@ =~= uid_bytes@.take(4));
            Uid::Single(GenericUid::new(bytes, sak_byte))
        } else if cascade_level == 1 {
            let bytes: [u8; 7] = [
                uid_bytes[0],
                uid_bytes[1],
                uid_bytes[2],
                uid_bytes[3],
                uid_bytes[4],
                uid_bytes[5],
                uid_bytes[6],
            ];
            assert(bytes@ =~= uid_bytes@.take(7));
            Uid::Double(GenericUid::new(bytes, sak_byte))
        } else {
            assert(uid_bytes@ =~= uid_bytes@.take(10));
            Uid::Triple(GenericUid::new(uid_bytes, sak_byte))
        };
        proof {
            lemma_uid_size(uid);
            let after = self.bus_log();
            let r = Ok::<Uid, Error<E>>(uid);
            assert(trace::select_levels(added(log1, after), levels, r));
            assert(added(log0, after).skip(1) =~= added(log1, after));
            assert(log1 == after.subrange(0, log1.len() as int));
            assert(added(log0, after)[0] == log1[log0.len() as int]);
            assert(trace::select_trace::<E>(atqa@[0], added(log0, after), r));
        }
        Ok(uid)
    }
}

} // verus!
