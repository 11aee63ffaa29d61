//! The register transactions that the driver's operations perform, as
//! predicates on the part of the bus log that an operation adds.

use crate::comm::BusOp;
use crate::error::Error;
use crate::fifo::FifoData;
use crate::protocol::{
    spec_anticollision_frame, spec_bit_framing, spec_collision_progress, spec_error_from_register,
    spec_hlta_outcome, spec_is_ack, spec_is_standard_anticollision,
};
use crate::{AtqA, Uid};
use crate::register::{
    Command, Register, CRC_IRQ, FLUSH_BUFFER, FORCE_100_ASK, POWER_DOWN, TIMER_IRQ,
};
use vstd::prelude::*;

verus! {

/// How many times the CRC coprocessor is polled before giving up.
pub const CRC_POLL_LIMIT: usize = 5000;

/// How many times an interrupt register is polled while the chip works on a
/// command. The chip's timer ends every exchange with a card within about
/// 25 ms, long before this many reads; the bound only protects against a
/// chip that stops answering.
pub const IRQ_POLL_LIMIT: usize = 100000;

/// ComIrqReg bits that end a transceive: RxIRq, ErrIRq or IdleIRq.
pub const TRANSCEIVE_WAKE: u8 = 0x32;

/// ComIrqReg bits that end an authentication: ErrIRq or IdleIRq.
pub const AUTHENTICATE_WAKE: u8 = 0x12;

/// Issuing a command: writing its code to CommandReg.
pub open spec fn command_op(c: Command) -> BusOp {
    BusOp::Write(Register::CommandReg, c.spec_code())
}

/// Flushing the FIFO buffer.
pub open spec fn flush_op() -> BusOp {
    BusOp::Write(Register::FIFOLevelReg, FLUSH_BUFFER)
}

/// Whether `op` is a read of `reg`.
pub open spec fn is_read_of(op: BusOp, reg: Register) -> bool {
    op matches BusOp::Read(r, _) && r == reg
}

/// The value that a read yielded.
pub open spec fn read_value(op: BusOp) -> u8 {
    match op {
        BusOp::Read(_, v) => v,
        _ => 0,
    }
}

/// Every operation is a read of `reg` whose value has none of the bits of `mask`.
pub open spec fn reads_without(ops: Seq<BusOp>, reg: Register, mask: u8) -> bool {
    forall|i: int|
        0 <= i < ops.len() ==> is_read_of(#[trigger] ops[i], reg) && read_value(ops[i]) & mask
            == 0
}

// ---------------------------------------------------------------- CRC

/// Start of a CRC calculation: cancel the running command, clear CRCIRq,
/// flush the FIFO, load `data` and start CalcCRC.
pub open spec fn crc_start(data: Seq<u8>) -> Seq<BusOp> {
    seq![
        command_op(Command::Idle),
        BusOp::Write(Register::DivIrqReg, CRC_IRQ),
        flush_op(),
        BusOp::WriteMany(Register::FIFODataReg, data),
        command_op(Command::CalcCRC),
    ]
}

/// End of a CRC calculation that yielded `crc`.
pub open spec fn crc_end(crc: [u8; 2]) -> Seq<BusOp> {
    seq![
        command_op(Command::Idle),
        BusOp::Read(Register::CRCResultRegLow, crc@[0]),
        BusOp::Read(Register::CRCResultRegHigh, crc@[1]),
    ]
}

/// `t` is the traffic of a CRC calculation over `data` that ended with `r`:
/// the start, then DivIrqReg polled until CRCIRq is set (at most 5000
/// times) and the result read low byte first, or a Timeout after 5000
/// polls without it.
pub open spec fn crc_trace<E>(data: Seq<u8>, t: Seq<BusOp>, r: Result<[u8; 2], Error<E>>) -> bool {
    match r {
        Ok(crc) => {
            &&& 9 <= t.len() <= 5008
            &&& t.take(5) == crc_start(data)
            &&& reads_without(t.subrange(5, t.len() - 4), Register::DivIrqReg, CRC_IRQ)
            &&& is_read_of(t[t.len() - 4], Register::DivIrqReg)
            &&& read_value(t[t.len() - 4]) & CRC_IRQ != 0
            &&& t.skip(t.len() - 3) == crc_end(crc)
        },
        Err(Error::Timeout) => {
            &&& t.len() == 5 + CRC_POLL_LIMIT
            &&& t.take(5) == crc_start(data)
            &&& reads_without(t.skip(5), Register::DivIrqReg, CRC_IRQ)
        },
        Err(_) => false,
    }
}

// ---------------------------------------------------------- waiting

/// `w` polls ComIrqReg until one of the bits of `wake` is set.
pub open spec fn woke(w: Seq<BusOp>, wake: u8) -> bool {
    &&& 1 <= w.len() <= IRQ_POLL_LIMIT
    &&& reads_without(w.drop_last(), Register::ComIrqReg, wake | TIMER_IRQ)
    &&& is_read_of(w.last(), Register::ComIrqReg)
    &&& read_value(w.last()) & wake != 0
}

/// `w` polls ComIrqReg until the timer expires before any bit of `wake`
/// is set.
pub open spec fn timer_expired(w: Seq<BusOp>, wake: u8) -> bool {
    &&& 1 <= w.len() <= IRQ_POLL_LIMIT
    &&& reads_without(w.drop_last(), Register::ComIrqReg, wake | TIMER_IRQ)
    &&& is_read_of(w.last(), Register::ComIrqReg)
    &&& read_value(w.last()) & wake == 0
    &&& read_value(w.last()) & TIMER_IRQ != 0
}

/// `w` polls ComIrqReg as often as the poll limit allows, and neither a bit
/// of `wake` nor the timer's is ever set.
pub open spec fn poll_limit_reached(w: Seq<BusOp>, wake: u8) -> bool {
    &&& w.len() == IRQ_POLL_LIMIT
    &&& reads_without(w, Register::ComIrqReg, wake | TIMER_IRQ)
}

// ------------------------------------------------------------- FIFO

/// `f` reads the FIFO into a buffer of `cap` bytes, with result `r`: the
/// FIFO level first; more bytes than `cap` is NoRoom; else the bytes and the
/// number of valid bits of the last one (ControlReg's low three bits).
pub open spec fn fifo_trace<E>(cap: nat, f: Seq<BusOp>, r: Result<FifoData, Error<E>>) -> bool {
    if cap == 0 {
        &&& f.len() == 0
        &&& r matches Ok(d) && d.buffer@.len() == 0 && d.valid_bytes == 0 && d.valid_bits == 0
    } else {
        &&& 1 <= f.len()
        &&& is_read_of(f[0], Register::FIFOLevelReg)
        &&& {
            let n = read_value(f[0]) as nat;
            if n > cap {
                f.len() == 1 && r == Err::<FifoData, Error<E>>(Error::NoRoom)
            } else if n == 0 {
                &&& f.len() == 1
                &&& r matches Ok(d) && d.buffer@ == Seq::new(cap, |i: int| 0u8) && d.valid_bytes
                    == 0 && d.valid_bits == 0
            } else {
                &&& f.len() == 3
                &&& f[1] matches BusOp::ReadMany(reg, bytes) && reg == Register::FIFODataReg
                    && bytes.len() == n
                &&& is_read_of(f[2], Register::ControlReg)
                &&& r matches Ok(d) && d.buffer@.take(n as int) == f[1]->ReadMany_1
                    && d.buffer@.skip(n as int) == Seq::new((cap - n) as nat, |i: int| 0u8)
                    && d.valid_bytes == n && d.valid_bits == (read_value(f[2]) & 7) as nat
            }
        }
    }
}

/// When the chip reports more bytes in the FIFO than the caller's buffer
/// holds, the read fails with NoRoom and no FIFO data is read.
pub proof fn lemma_fifo_overflow<E>(cap: nat, f: Seq<BusOp>, r: Result<FifoData, Error<E>>)
    requires
        fifo_trace(cap, f, r),
        cap > 0,
        read_value(f[0]) as nat > cap,
    ensures
        r == Err::<FifoData, Error<E>>(Error::NoRoom),
        f.len() == 1,
{
}

// ------------------------------------------------------- transceive

/// Start of a transceive: cancel the running command, clear all interrupt
/// flags, flush the FIFO, load `tx`, start Transceive and StartSend with the
/// given framing.
pub open spec fn transceive_start(tx: Seq<u8>, tx_last_bits: u8, rx_align_bits: u8) -> Seq<BusOp> {
    seq![
        command_op(Command::Idle),
        BusOp::Write(Register::ComIrqReg, 0x7f),
        flush_op(),
        BusOp::WriteMany(Register::FIFODataReg, tx),
        command_op(Command::Transceive),
        BusOp::Write(Register::BitFramingReg, spec_bit_framing(tx_last_bits, rx_align_bits)),
    ]
}

/// What follows the wait of a transceive that woke: ErrorReg is read, and an
/// error it reports is the result; else the FIFO is read.
pub open spec fn after_wake<E>(cap: nat, rest: Seq<BusOp>, r: Result<FifoData, Error<E>>) -> bool {
    &&& 1 <= rest.len()
    &&& is_read_of(rest[0], Register::ErrorReg)
    &&& match spec_error_from_register::<E>(read_value(rest[0])) {
        Err(e) => rest.len() == 1 && r == Err::<FifoData, Error<E>>(e),
        Ok(_) => fifo_trace(cap, rest.skip(1), r),
    }
}

/// `t` is the traffic of a transceive whose wait took `n` polls.
pub open spec fn transceive_split<E>(
    tx: Seq<u8>,
    tx_last_bits: u8,
    rx_align_bits: u8,
    cap: nat,
    t: Seq<BusOp>,
    n: int,
    r: Result<FifoData, Error<E>>,
) -> bool {
    &&& 0 <= n
    &&& 6 + n <= t.len()
    &&& t.take(6) == transceive_start(tx, tx_last_bits, rx_align_bits)
    &&& if r == Err::<FifoData, Error<E>>(Error::Timeout) {
        &&& t.len() == 6 + n
        &&& timer_expired(t.skip(6), TRANSCEIVE_WAKE)
    } else if r == Err::<FifoData, Error<E>>(Error::PollLimit) {
        &&& t.len() == 6 + n
        &&& poll_limit_reached(t.skip(6), TRANSCEIVE_WAKE)
    } else {
        &&& woke(t.subrange(6, 6 + n), TRANSCEIVE_WAKE)
        &&& after_wake(cap, t.skip(6 + n), r)
    }
}

/// `t` is the traffic of a transceive of `tx` into a buffer of `cap` bytes
/// that ended with `r`.
pub open spec fn transceive_trace<E>(
    tx: Seq<u8>,
    tx_last_bits: u8,
    rx_align_bits: u8,
    cap: nat,
    t: Seq<BusOp>,
    r: Result<FifoData, Error<E>>,
) -> bool {
    exists|n: int| transceive_split(tx, tx_last_bits, rx_align_bits, cap, t, n, r)
}

} // verus!

verus! {

// ------------------------------------------------------ operations

/// Whether every operation is a read of `reg` whose value has a bit of `mask`.
pub open spec fn reads_with(ops: Seq<BusOp>, reg: Register, mask: u8) -> bool {
    forall|i: int|
        0 <= i < ops.len() ==> is_read_of(#[trigger] ops[i], reg) && read_value(ops[i]) & mask
            != 0
}

/// `t` is the traffic of a soft reset that ended with `r`: SoftReset, then
/// CommandReg polled until its PowerDown bit clears, or PollLimit after the
/// poll limit.
pub open spec fn reset_trace<E>(t: Seq<BusOp>, r: Result<(), Error<E>>) -> bool {
    &&& 1 <= t.len()
    &&& t[0] == command_op(Command::SoftReset)
    &&& match r {
        Ok(_) => {
            &&& 2 <= t.len() <= 1 + IRQ_POLL_LIMIT
            &&& reads_with(t.subrange(1, t.len() - 1), Register::CommandReg, POWER_DOWN)
            &&& is_read_of(t.last(), Register::CommandReg)
            &&& read_value(t.last()) & POWER_DOWN == 0
        },
        Err(Error::PollLimit) => {
            &&& t.len() == 1 + IRQ_POLL_LIMIT
            &&& reads_with(t.skip(1), Register::CommandReg, POWER_DOWN)
        },
        Err(_) => false,
    }
}

/// The register settings that initialization writes after the reset: no
/// CRC in the transmission layer, the default modulation width, a timer of
/// about 25 ms started at the end of each transmission, 100 % ASK and the
/// CRC preset of ISO 14443-3 (6363h).
pub open spec fn init_settings() -> Seq<BusOp> {
    seq![
        BusOp::Write(Register::TxModeReg, 0x00),
        BusOp::Write(Register::RxModeReg, 0x00),
        BusOp::Write(Register::ModWidthReg, 0x26),
        BusOp::Write(Register::TModeReg, 0x80),
        BusOp::Write(Register::TPrescalerReg, 0xA9),
        BusOp::Write(Register::TReloadRegHigh, 0x03),
        BusOp::Write(Register::TReloadRegLow, 0xE8),
        BusOp::Write(Register::TxASKReg, FORCE_100_ASK),
        BusOp::Write(Register::ModeReg, 0x3D),
    ]
}

/// `t` is the traffic of an initialization whose reset took `k` operations:
/// the reset, the settings, and the antenna drivers switched on.
pub open spec fn init_split(t: Seq<BusOp>, k: int) -> bool {
    &&& 0 <= k
    &&& k + 10 == t.len()
    &&& reset_trace::<()>(t.take(k), Ok(()))
    &&& t.subrange(k, k + 9) == init_settings()
    &&& t[k + 9] == BusOp::Modify(Register::TxControlReg, 0x03, 0)
}

/// `t` is the traffic of an initialization that ended with `r`: a complete
/// one, or a reset that the chip never finished.
pub open spec fn init_trace<E>(t: Seq<BusOp>, r: Result<(), Error<E>>) -> bool {
    match r {
        Ok(_) => exists|k: int| #[trigger] init_split(t, k),
        Err(Error::PollLimit) => reset_trace::<E>(t, r),
        Err(_) => false,
    }
}

/// The settings written before a REQA that looks for a new card.
pub open spec fn card_present_settings() -> Seq<BusOp> {
    seq![
        BusOp::Write(Register::TxModeReg, 0x00),
        BusOp::Write(Register::RxModeReg, 0x00),
        BusOp::Write(Register::ModWidthReg, 0x26),
    ]
}

/// The ATQA that a reception `f` of REQA or WUPA gives: two whole bytes, or
/// IncompleteFrame; an error of the reception is passed on.
pub open spec fn request_outcome<E>(f: Result<FifoData, Error<E>>, r: Result<AtqA, Error<E>>) -> bool {
    match f {
        Ok(d) => if d.valid_bytes == 2 && d.valid_bits == 0 {
            r is Ok && r->Ok_0@ == d.buffer@
        } else {
            r == Err::<AtqA, Error<E>>(Error::IncompleteFrame)
        },
        Err(e) => r == Err::<AtqA, Error<E>>(e),
    }
}

/// `t` is the traffic of sending the short frame `cmd` (REQA or WUPA), with
/// result `r`.
pub open spec fn request_trace<E>(cmd: u8, t: Seq<BusOp>, r: Result<AtqA, Error<E>>) -> bool {
    exists|f: Result<FifoData, Error<E>>|
        transceive_trace(seq![cmd], 7, 0, 2, t, f) && #[trigger] request_outcome(f, r)
}

/// `t` is the traffic of a HLTA, whose CRC took `k` operations.
pub open spec fn hlta_split<E>(
    t: Seq<BusOp>,
    k: int,
    c: Result<[u8; 2], Error<E>>,
    f: Result<FifoData, Error<E>>,
    r: Result<(), Error<E>>,
) -> bool {
    &&& 0 <= k <= t.len()
    &&& crc_trace(seq![0x50u8, 0u8], t.take(k), c)
    &&& match c {
        Err(e) => k == t.len() && r == Err::<(), Error<E>>(e),
        Ok(crc) => {
            &&& transceive_trace(seq![0x50u8, 0u8, crc@[0], crc@[1]], 0, 0, 0, t.skip(k), f)
            &&& r == spec_hlta_outcome(f)
        },
    }
}

/// The frame that starts a MIFARE authentication with key A.
pub open spec fn auth_frame(block: u8, key: Seq<u8>, uid: Seq<u8>) -> Seq<u8> {
    seq![0x60u8, block] + key + uid.take(4)
}

/// Start of a MIFARE authentication.
pub open spec fn auth_start(block: u8, key: Seq<u8>, uid: Seq<u8>) -> Seq<BusOp> {
    seq![
        command_op(Command::Idle),
        BusOp::Write(Register::ComIrqReg, 0x7f),
        flush_op(),
        BusOp::Write(Register::BitFramingReg, 0),
        BusOp::WriteMany(Register::FIFODataReg, auth_frame(block, key, uid)),
        command_op(Command::MFAuthent),
    ]
}

/// `t` is the traffic of a MIFARE authentication whose wait took `n` polls.
pub open spec fn auth_split<E>(
    block: u8,
    key: Seq<u8>,
    uid: Seq<u8>,
    t: Seq<BusOp>,
    n: int,
    r: Result<(), Error<E>>,
) -> bool {
    &&& 0 <= n
    &&& 6 + n <= t.len()
    &&& t.take(6) == auth_start(block, key, uid)
    &&& if r == Err::<(), Error<E>>(Error::Timeout) {
        &&& t.len() == 6 + n
        &&& timer_expired(t.skip(6), AUTHENTICATE_WAKE)
    } else if r == Err::<(), Error<E>>(Error::PollLimit) {
        &&& t.len() == 6 + n
        &&& poll_limit_reached(t.skip(6), AUTHENTICATE_WAKE)
    } else {
        &&& woke(t.subrange(6, 6 + n), AUTHENTICATE_WAKE)
        &&& t.len() == 7 + n
        &&& is_read_of(t[6 + n], Register::ErrorReg)
        &&& r == spec_error_from_register::<E>(read_value(t[6 + n]))
    }
}

/// `t` is the traffic of reading a block, in three steps: the CRC of the
/// request, the request, answered by 18 whole bytes, and the CRC of the
/// first 16 of them, which must match the last two.
pub open spec fn mf_read_split<E>(
    block: u8,
    t: Seq<BusOp>,
    k1: int,
    c1: Result<[u8; 2], Error<E>>,
    k2: int,
    f: Result<FifoData, Error<E>>,
    c2: Result<[u8; 2], Error<E>>,
    r: Result<[u8; 16], Error<E>>,
) -> bool {
    &&& 0 <= k1 <= k2 <= t.len()
    &&& crc_trace(seq![0x30u8, block], t.take(k1), c1)
    &&& match c1 {
        Err(e) => k1 == t.len() && r == Err::<[u8; 16], Error<E>>(e),
        Ok(c) => {
            &&& transceive_trace(
                seq![0x30u8, block, c@[0], c@[1]],
                0,
                0,
                18,
                t.subrange(k1, k2),
                f,
            )
            &&& match f {
                Err(e) => k2 == t.len() && r == Err::<[u8; 16], Error<E>>(e),
                Ok(d) => if d.valid_bytes != 18 || d.valid_bits != 0 {
                    k2 == t.len() && r == Err::<[u8; 16], Error<E>>(Error::IncompleteFrame)
                } else {
                    &&& crc_trace(d.buffer@.take(16), t.skip(k2), c2)
                    &&& match c2 {
                        Err(e) => r == Err::<[u8; 16], Error<E>>(e),
                        Ok(v) => if v@ == d.buffer@.subrange(16, 18) {
                            r is Ok && r->Ok_0@ == d.buffer@.take(16)
                        } else {
                            r == Err::<[u8; 16], Error<E>>(Error::Crc)
                        },
                    }
                },
            }
        },
    }
}

/// `t` is the traffic of writing `data` to a block, in four steps: the CRC
/// of the command, the command, acknowledged; the CRC of the data, the data,
/// acknowledged.
pub open spec fn mf_write_split<E>(
    block: u8,
    data: Seq<u8>,
    t: Seq<BusOp>,
    k1: int,
    c1: Result<[u8; 2], Error<E>>,
    k2: int,
    f1: Result<FifoData, Error<E>>,
    k3: int,
    c2: Result<[u8; 2], Error<E>>,
    f2: Result<FifoData, Error<E>>,
    r: Result<(), Error<E>>,
) -> bool {
    &&& 0 <= k1 <= k2 <= k3 <= t.len()
    &&& crc_trace(seq![0xA0u8, block], t.take(k1), c1)
    &&& match c1 {
        Err(e) => k1 == t.len() && r == Err::<(), Error<E>>(e),
        Ok(c) => {
            &&& transceive_trace(seq![0xA0u8, block, c@[0], c@[1]], 0, 0, 1, t.subrange(k1, k2), f1)
            &&& match f1 {
                Err(e) => k2 == t.len() && r == Err::<(), Error<E>>(e),
                Ok(a1) => if !spec_is_ack(a1) {
                    k2 == t.len() && r == Err::<(), Error<E>>(Error::Nak)
                } else {
                    &&& crc_trace(data, t.subrange(k2, k3), c2)
                    &&& match c2 {
                        Err(e) => k3 == t.len() && r == Err::<(), Error<E>>(e),
                        Ok(c) => {
                            &&& transceive_trace(data + c@, 0, 0, 1, t.skip(k3), f2)
                            &&& match f2 {
                                Err(e) => r == Err::<(), Error<E>>(e),
                                Ok(a2) => if spec_is_ack(a2) {
                                    r == Ok::<(), Error<E>>(())
                                } else {
                                    r == Err::<(), Error<E>>(Error::Nak)
                                },
                            }
                        },
                    }
                },
            }
        },
    }
}

} // verus!

verus! {

// --------------------------------------------------------- selection

/// The UID bytes after the bits of a reception `d` were appended behind the
/// first `known` bits of `uid`, or None where they do not fit.
pub open spec fn appended(d: FifoData, uid: Seq<u8>, known: u8) -> Option<Seq<u8>> {
    if d.valid_bytes == 0 {
        Some(uid)
    } else if known / 8 >= uid.len() || d.bits_after(known) > 255 || known / 8 + d.valid_bytes
        > uid.len() {
        None
    } else {
        Some(d.merged(uid, known))
    }
}

/// The UID bytes with the bit at a collision at position `p` set to 1.
pub open spec fn with_collision_bit(uid: Seq<u8>, p: u8) -> Seq<u8> {
    uid.update((p - 1) / 8, uid[(p - 1) / 8] | (1u8 << ((p - 1) % 8) as u8))
}

/// How an anticollision round ended.
pub enum RoundEnd<E> {
    /// A collision past the known bits: the next round starts with this
    /// many known bits and these UID bytes.
    Next(u8, Seq<u8>),
    /// Every bit arrived: the UID bytes and BCC of the level.
    Done(Seq<u8>),
    /// The selection failed.
    Fail(Error<E>),
}

/// `t` is the traffic of an anticollision round that started with `known`
/// known bits in `uid`: the frame of the known bits is sent, with the first
/// received bit aligned behind them; a reception is appended to `uid`; a
/// Collision error reads CollReg and, if the collision lies past the known
/// bits, reads the FIFO, appends what arrived and resolves the colliding bit
/// to 1; any other outcome fails the selection.
pub open spec fn round_split<E>(
    sel: u8,
    known: u8,
    uid: Seq<u8>,
    t: Seq<BusOp>,
    end: RoundEnd<E>,
    k1: int,
    f: Result<FifoData, Error<E>>,
    g: Result<FifoData, Error<E>>,
) -> bool {
    &&& 0 <= k1 <= t.len()
    &&& transceive_trace(
        spec_anticollision_frame(sel, known, uid),
        known % 8,
        known % 8,
        5,
        t.take(k1),
        f,
    )
    &&& match f {
        Ok(d) => k1 == t.len() && match appended(d, uid, known) {
            None => end == RoundEnd::<E>::Fail(Error::NoRoom),
            Some(u) => end == RoundEnd::<E>::Done(u),
        },
        Err(Error::Collision) => {
            &&& k1 < t.len()
            &&& is_read_of(t[k1], Register::CollReg)
            &&& match spec_collision_progress::<E>(read_value(t[k1]), known) {
                Err(e) => t.len() == k1 + 1 && end == RoundEnd::<E>::Fail(e),
                Ok(p) => {
                    &&& fifo_trace(5, t.skip(k1 + 1), g)
                    &&& match g {
                        Err(e) => end == RoundEnd::<E>::Fail(e),
                        Ok(d) => match appended(d, uid, known) {
                            None => end == RoundEnd::<E>::Fail(Error::NoRoom),
                            Some(u) => end == RoundEnd::<E>::Next(p, with_collision_bit(u, p)),
                        },
                    }
                },
            }
        },
        Err(e) => k1 == t.len() && end == RoundEnd::<E>::Fail(e),
    }
}

/// One anticollision round, within the traffic `t` of its level.
pub struct Round<E> {
    pub known: u8,
    pub uid: Seq<u8>,
    pub start: int,
    pub end: int,
    pub result: RoundEnd<E>,
}

/// `t` is the traffic of an anticollision round that started with `known`
/// known bits in `uid` and ended as `end` says.
#[verifier::opaque]
pub open spec fn round_trace<E>(sel: u8, known: u8, uid: Seq<u8>, t: Seq<BusOp>, end: RoundEnd<E>) -> bool {
    exists|k1: int, f: Result<FifoData, Error<E>>, g: Result<FifoData, Error<E>>|
        #[trigger] round_split(sel, known, uid, t, end, k1, f, g)
}

/// How a round that returned `r` ended, with `known` known bits in `uid`
/// afterwards: `Ok(true)` when every bit arrived, `Ok(false)` after a
/// resolved collision.
pub open spec fn round_end<E>(r: Result<bool, Error<E>>, known: u8, uid: Seq<u8>) -> RoundEnd<E> {
    match r {
        Ok(true) => RoundEnd::Done(uid),
        Ok(false) => RoundEnd::Next(known, uid),
        Err(e) => RoundEnd::Fail(e),
    }
}

/// The round's traffic lies within `t` and is as `round_trace` says.
#[verifier::opaque]
pub open spec fn round_ok<E>(sel: u8, t: Seq<BusOp>, rd: Round<E>) -> bool {
    &&& 0 <= rd.start <= rd.end <= t.len()
    &&& round_trace(sel, rd.known, rd.uid, t.subrange(rd.start, rd.end), rd.result)
}

/// A round whose traffic lies within `t` as `round_trace` says is a round of `t`.
pub proof fn lemma_round_ok<E>(sel: u8, t: Seq<BusOp>, rd: Round<E>)
    requires
        0 <= rd.start <= rd.end <= t.len(),
        round_trace(sel, rd.known, rd.uid, t.subrange(rd.start, rd.end), rd.result),
    ensures
        round_ok(sel, t, rd),
{
    reveal(round_ok);
}

/// The rounds follow one another within `t`: the first starts at the
/// beginning with no known bits, and each starts where the previous ended
/// with the state that it handed on.
pub open spec fn rounds_chain<E>(sel: u8, t: Seq<BusOp>, rounds: Seq<Round<E>>) -> bool {
    &&& forall|i: int| 0 <= i < rounds.len() ==> round_ok(sel, t, #[trigger] rounds[i])
    &&& forall|i: int|
        0 < i < rounds.len() ==> rounds[i - 1].result == RoundEnd::<E>::Next(
            #[trigger] rounds[i].known,
            rounds[i].uid,
        ) && rounds[i - 1].end == rounds[i].start
    &&& rounds.len() > 0 ==> rounds[0].known == 0 && rounds[0].uid == Seq::new(5, |i: int| 0u8)
        && rounds[0].start == 0
}

/// `t` is the traffic of selecting the UID bytes `u` (four bytes and BCC)
/// at a cascade level: the CRC of the select frame, the frame, answered by
/// three whole bytes, and the CRC of the SAK, which must match the last
/// two; the result is the four UID bytes and the SAK.
pub open spec fn select_split<E>(
    sel: u8,
    u: Seq<u8>,
    t: Seq<BusOp>,
    r: Result<(Seq<u8>, u8), Error<E>>,
    k1: int,
    c1: Result<[u8; 2], Error<E>>,
    k2: int,
    f: Result<FifoData, Error<E>>,
    c2: Result<[u8; 2], Error<E>>,
) -> bool {
    let u4 = u.take(4);
    &&& 0 <= k1 <= k2 <= t.len()
    &&& crc_trace(select_head(sel, u4), t.take(k1), c1)
    &&& match c1 {
        Err(e) => k1 == t.len() && r == Err::<(Seq<u8>, u8), Error<E>>(e),
        Ok(c) => {
            &&& transceive_trace(select_head(sel, u4) + c@, 0, 0, 3, t.subrange(k1, k2), f)
            &&& match f {
                Err(e) => k2 == t.len() && r == Err::<(Seq<u8>, u8), Error<E>>(e),
                Ok(d) => if d.valid_bytes != 3 || d.valid_bits != 0 {
                    k2 == t.len() && r == Err::<(Seq<u8>, u8), Error<E>>(Error::IncompleteFrame)
                } else {
                    &&& crc_trace(seq![d.buffer@[0]], t.skip(k2), c2)
                    &&& match c2 {
                        Err(e) => r == Err::<(Seq<u8>, u8), Error<E>>(e),
                        Ok(v) => if v@ == d.buffer@.subrange(1, 3) {
                            r == Ok::<(Seq<u8>, u8), Error<E>>((u4, d.buffer@[0]))
                        } else {
                            r == Err::<(Seq<u8>, u8), Error<E>>(Error::Crc)
                        },
                    }
                },
            }
        },
    }
}

/// The select frame of a cascade level without its CRC: SEL, NVB 70h, the
/// four UID bytes of the level and their BCC.
pub open spec fn select_head(sel: u8, u: Seq<u8>) -> Seq<u8> {
    seq![sel, 0x70u8] + u + seq![(u[0] ^ u[1] ^ u[2] ^ u[3]) as u8]
}

/// `t` is the traffic of a cascade level with the given rounds, ending
/// with `r`.
pub open spec fn level_split<E>(
    sel: u8,
    t: Seq<BusOp>,
    rounds: Seq<Round<E>>,
    r: Result<(Seq<u8>, u8), Error<E>>,
) -> bool {
    &&& rounds.len() >= 1
    &&& rounds_chain(sel, t, rounds)
    &&& match rounds.last().result {
        RoundEnd::Next(_, _) => false,
        RoundEnd::Fail(e) => rounds.last().end == t.len() && r == Err::<(Seq<u8>, u8), Error<E>>(e),
        RoundEnd::Done(u) => select_part(sel, u, t.skip(rounds.last().end), r),
    }
}

/// `t` is the traffic of selecting the UID bytes `u`, ending with `r`.
pub open spec fn select_part<E>(sel: u8, u: Seq<u8>, t: Seq<BusOp>, r: Result<(Seq<u8>, u8), Error<E>>) -> bool {
    exists|
        k1: int,
        c1: Result<[u8; 2], Error<E>>,
        k2: int,
        f: Result<FifoData, Error<E>>,
        c2: Result<[u8; 2], Error<E>>,
    | #[trigger] select_split(sel, u, t, r, k1, c1, k2, f, c2)
}

/// `t` is the traffic of a cascade level with SEL `sel` that ended with
/// `r`: anticollision rounds until every UID bit is known, then the select
/// frame and the check of the SAK.
#[verifier::opaque]
pub open spec fn level_trace<E>(sel: u8, t: Seq<BusOp>, r: Result<(Seq<u8>, u8), Error<E>>) -> bool {
    exists|rounds: Seq<Round<E>>| #[trigger] level_split(sel, t, rounds, r)
}

/// A cascade level of a selection, within the traffic of the selection.
pub struct Level<E> {
    pub start: int,
    pub end: int,
    pub result: Result<(Seq<u8>, u8), Error<E>>,
}

/// The SEL command of cascade level `i` (from 0).
pub open spec fn sel_of_level(i: int) -> u8 {
    if i == 0 {
        0x93
    } else if i == 1 {
        0x95
    } else {
        0x97
    }
}

/// The levels follow one another from the start of `t`, each as
/// `level_trace` says for its SEL, and every one gave a SAK that says the UID
/// is not complete.
pub open spec fn levels_chain<E>(t: Seq<BusOp>, levels: Seq<Level<E>>) -> bool {
    &&& levels.len() <= 3
    &&& forall|i: int|
        0 <= i < levels.len() ==> {
            let l = #[trigger] levels[i];
            &&& 0 <= l.start <= l.end <= t.len()
            &&& level_trace(sel_of_level(i), t.subrange(l.start, l.end), l.result)
        }
    &&& forall|i: int| 0 < i < levels.len() ==> levels[i - 1].end == #[trigger] levels[i].start
    &&& levels.len() > 0 ==> levels[0].start == 0
}

/// The UID bytes that completed levels contribute: the last three bytes of
/// each, the first being the cascade tag.
pub open spec fn uid_of_levels<E>(levels: Seq<Level<E>>) -> Seq<u8>
    decreases levels.len(),
{
    if levels.len() == 0 {
        Seq::empty()
    } else {
        uid_of_levels(levels.drop_last()) + levels.last().result->Ok_0.0.skip(1)
    }
}

/// `t` is the traffic of the cascade levels of a selection that ended
/// with `r`: every level but the last gave a SAK saying the UID is not
/// complete; the last failed, or gave a SAK saying the UID is complete, and
/// then the UID is the levels' bytes without the cascade tags, or gave
/// another incomplete SAK at the third level.
pub open spec fn select_levels<E>(t: Seq<BusOp>, levels: Seq<Level<E>>, r: Result<Uid, Error<E>>) -> bool {
    &&& 1 <= levels.len()
    &&& levels_chain(t, levels)
    &&& levels.last().end == t.len()
    &&& forall|i: int|
        0 <= i < levels.len() - 1 ==> ((#[trigger] levels[i].result) matches Ok((_, sak)) && sak
            & 0x04 != 0)
    &&& match levels.last().result {
        Err(e) => r == Err::<Uid, Error<E>>(e),
        Ok((u, sak)) => if sak & 0x04 != 0 {
            levels.len() == 3 && r == Err::<Uid, Error<E>>(Error::Protocol)
        } else {
            &&& r is Ok
            &&& r->Ok_0.cascade_level() == levels.len() - 1
            &&& r->Ok_0.sak_byte() == sak
            &&& r->Ok_0@ == uid_of_levels(levels.drop_last()) + u
        },
    }
}

/// `t` is the traffic of a selection with ATQA first byte `atqa0` that
/// ended with `r`: a proprietary anticollision scheme is refused before any
/// traffic; else ValuesAfterColl is cleared and the cascade levels follow.
pub open spec fn select_trace<E>(atqa0: u8, t: Seq<BusOp>, r: Result<Uid, Error<E>>) -> bool {
    if !spec_is_standard_anticollision(atqa0) {
        t.len() == 0 && r == Err::<Uid, Error<E>>(Error::Proprietary)
    } else {
        &&& 1 <= t.len()
        &&& t[0] == BusOp::Modify(Register::CollReg, 0, 0x80)
        &&& exists|levels: Seq<Level<E>>| #[trigger] select_levels(t.skip(1), levels, r)
    }
}

/// Rounds found in a log stay where they are when the log grows.
pub proof fn lemma_rounds_extend<E>(sel: u8, t: Seq<BusOp>, t2: Seq<BusOp>, rounds: Seq<Round<E>>)
    requires
        t.is_prefix_of(t2),
        rounds_chain(sel, t, rounds),
    ensures
        rounds_chain(sel, t2, rounds),
{
    reveal(round_ok);
    assert forall|i: int| 0 <= i < rounds.len() implies round_ok(sel, t2, #[trigger] rounds[i]) by {
        let rd = rounds[i];
        assert(t2.subrange(rd.start, rd.end) =~= t.subrange(rd.start, rd.end));
    }
}

/// Levels found in a log stay where they are when the log grows.
pub proof fn lemma_levels_extend<E>(t: Seq<BusOp>, t2: Seq<BusOp>, levels: Seq<Level<E>>)
    requires
        t.is_prefix_of(t2),
        levels_chain(t, levels),
    ensures
        levels_chain(t2, levels),
{
    assert forall|i: int| 0 <= i < levels.len() implies {
        let l = #[trigger] levels[i];
        &&& 0 <= l.start <= l.end <= t2.len()
        &&& level_trace(sel_of_level(i), t2.subrange(l.start, l.end), l.result)
    } by {
        let l = levels[i];
        assert(t2.subrange(l.start, l.end) =~= t.subrange(l.start, l.end));
    }
}

/// Adding a completed level adds its last three bytes to the UID bytes.
pub proof fn lemma_uid_of_levels_push<E>(levels: Seq<Level<E>>, l: Level<E>)
    ensures
        uid_of_levels(levels.push(l)) == uid_of_levels(levels) + l.result->Ok_0.0.skip(1),
{
    assert(levels.push(l).drop_last() =~= levels);
}

/// A round that starts where the chain left off extends the chain.
pub proof fn lemma_rounds_push<E>(
    sel: u8,
    t0: Seq<BusOp>,
    t: Seq<BusOp>,
    rounds: Seq<Round<E>>,
    rd: Round<E>,
)
    requires
        t0.is_prefix_of(t),
        rounds_chain(sel, t0, rounds),
        rd.start == t0.len(),
        rounds.len() == 0 ==> rd.known == 0 && rd.uid == Seq::new(5, |i: int| 0u8) && rd.start
            == 0,
        rounds.len() > 0 ==> rounds.last().result == RoundEnd::<E>::Next(rd.known, rd.uid)
            && rounds.last().end == rd.start,
        round_ok(sel, t, rd),
    ensures
        rounds_chain(sel, t, rounds.push(rd)),
{
    lemma_rounds_extend(sel, t0, t, rounds);
    let rs = rounds.push(rd);
    assert forall|i: int| 0 <= i < rs.len() implies round_ok(sel, t, #[trigger] rs[i]) by {
        if i < rounds.len() {
            assert(rs[i] == rounds[i]);
        }
    }
    assert forall|i: int| 0 < i < rs.len() implies rs[i - 1].result == RoundEnd::<E>::Next(
        #[trigger] rs[i].known,
        rs[i].uid,
    ) && rs[i - 1].end == rs[i].start by {
        assert(rs[i - 1] == rounds[i - 1]);
        if i < rounds.len() {
            assert(rs[i] == rounds[i]);
        }
    }
}

/// A level that starts where the chain left off extends the chain.
pub proof fn lemma_levels_push<E>(t0: Seq<BusOp>, t: Seq<BusOp>, levels: Seq<Level<E>>, l: Level<E>)
    requires
        t0.is_prefix_of(t),
        levels_chain(t0, levels),
        levels.len() < 3,
        l.start == t0.len(),
        l.start <= l.end <= t.len(),
        levels.len() > 0 ==> levels.last().end == l.start,
        levels.len() == 0 ==> l.start == 0,
        level_trace(sel_of_level(levels.len() as int), t.subrange(l.start, l.end), l.result),
    ensures
        levels_chain(t, levels.push(l)),
{
    lemma_levels_extend(t0, t, levels);
    let ls = levels.push(l);
    assert forall|i: int| 0 <= i < ls.len() implies {
        let li = #[trigger] ls[i];
        &&& 0 <= li.start <= li.end <= t.len()
        &&& level_trace(sel_of_level(i), t.subrange(li.start, li.end), li.result)
    } by {
        if i < levels.len() {
            assert(ls[i] == levels[i]);
        }
    }
    assert forall|i: int| 0 < i < ls.len() implies ls[i - 1].end == #[trigger] ls[i].start by {
        assert(ls[i - 1] == levels[i - 1]);
        if i < levels.len() {
            assert(ls[i] == levels[i]);
        }
    }
}

} // verus!
