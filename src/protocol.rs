//! The decisions of the ISO 14443-A protocol engine, as functions on plain
//! values: what the chip's registers report, how frames are framed, and how
//! bit collisions are resolved.

use crate::error::Error;
use crate::fifo::FifoData;
use crate::register::{
    BUFFER_OVFL, COLL_ERR, CRC_ERR, PARITY_ERR, PROTOCOL_ERR, TEMP_ERR, WR_ERR,
};
use vstd::prelude::*;

verus! {

/// The outcome that a value of ErrorReg reports: the first error bit set in
/// the order Protocol, Parity, Crc, Collision, BufferOverflow, Overheating, Wr.
pub open spec fn spec_error_from_register<E>(err: u8) -> Result<(), Error<E>> {
    if err & PROTOCOL_ERR != 0 {
        Err(Error::Protocol)
    } else if err & PARITY_ERR != 0 {
        Err(Error::Parity)
    } else if err & CRC_ERR != 0 {
        Err(Error::Crc)
    } else if err & COLL_ERR != 0 {
        Err(Error::Collision)
    } else if err & BUFFER_OVFL != 0 {
        Err(Error::BufferOverflow)
    } else if err & TEMP_ERR != 0 {
        Err(Error::Overheating)
    } else if err & WR_ERR != 0 {
        Err(Error::Wr)
    } else {
        Ok(())
    }
}

/// Maps a value of ErrorReg to the error it reports, if any.
pub fn error_from_register<E>(err: u8) -> (r: Result<(), Error<E>>)
    ensures
        r == spec_error_from_register::<E>(err),
{
    if err & PROTOCOL_ERR != 0 {
        Err(Error::Protocol)
    } else if err & PARITY_ERR != 0 {
        Err(Error::Parity)
    } else if err & CRC_ERR != 0 {
        Err(Error::Crc)
    } else if err & COLL_ERR != 0 {
        Err(Error::Collision)
    } else if err & BUFFER_OVFL != 0 {
        Err(Error::BufferOverflow)
    } else if err & TEMP_ERR != 0 {
        Err(Error::Overheating)
    } else if err & WR_ERR != 0 {
        Err(Error::Wr)
    } else {
        Ok(())
    }
}

/// The ErrorReg bit of rank `k` in the priority order.
pub open spec fn error_bit_of_rank(k: int) -> u8 {
    if k == 0 {
        PROTOCOL_ERR
    } else if k == 1 {
        PARITY_ERR
    } else if k == 2 {
        CRC_ERR
    } else if k == 3 {
        COLL_ERR
    } else if k == 4 {
        BUFFER_OVFL
    } else if k == 5 {
        TEMP_ERR
    } else {
        WR_ERR
    }
}

/// The error reported for the ErrorReg bit of rank `k`.
pub open spec fn error_of_rank<E>(k: int) -> Error<E> {
    if k == 0 {
        Error::Protocol
    } else if k == 1 {
        Error::Parity
    } else if k == 2 {
        Error::Crc
    } else if k == 3 {
        Error::Collision
    } else if k == 4 {
        Error::BufferOverflow
    } else if k == 5 {
        Error::Overheating
    } else {
        Error::Wr
    }
}

/// Whatever error bits are set together, the error reported is the one of
/// the first set bit in the priority order; with no error bit set, none is.
pub proof fn lemma_error_priority<E>(err: u8, k: int)
    requires
        0 <= k < 7,
        err & error_bit_of_rank(k) != 0,
        forall|j: int| 0 <= j < k ==> err & #[trigger] error_bit_of_rank(j) == 0,
    ensures
        spec_error_from_register::<E>(err) == Err::<(), Error<E>>(error_of_rank::<E>(k)),
{
    if k > 0 {
        assert(err & error_bit_of_rank(0) == 0);
    }
    if k > 1 {
        assert(err & error_bit_of_rank(1) == 0);
    }
    if k > 2 {
        assert(err & error_bit_of_rank(2) == 0);
    }
    if k > 3 {
        assert(err & error_bit_of_rank(3) == 0);
    }
    if k > 4 {
        assert(err & error_bit_of_rank(4) == 0);
    }
    if k > 5 {
        assert(err & error_bit_of_rank(5) == 0);
    }
}

/// The BitFramingReg value that starts a transmission: StartSend, the
/// receive alignment in bits 4..6 and the number of bits to send of the last
/// byte in bits 0..2.
pub open spec fn spec_bit_framing(tx_last_bits: u8, rx_align_bits: u8) -> u8 {
    (0x80 + 16 * (rx_align_bits % 8) + tx_last_bits % 8) as u8
}

/// The BitFramingReg value that starts a transmission.
pub fn bit_framing(tx_last_bits: u8, rx_align_bits: u8) -> (r: u8)
    ensures
        r == spec_bit_framing(tx_last_bits, rx_align_bits),
{
    let r: u8 = (1 << 7) | ((rx_align_bits & 0b0111) << 4) | (tx_last_bits & 0b0111);
    assert(r == (0x80 + 16 * (rx_align_bits % 8) + tx_last_bits % 8) as u8) by (bit_vector)
        requires
            r == (1u8 << 7u8) | ((rx_align_bits & 7u8) << 4u8) | (tx_last_bits & 7u8),
    ;
    r
}

/// Whether the first ATQA byte announces the standard bit frame
/// anticollision: exactly one of its five low bits is set.
pub open spec fn spec_is_standard_anticollision(atqa0: u8) -> bool {
    let b = atqa0 & 0x1F;
    b == 1 || b == 2 || b == 4 || b == 8 || b == 16
}

/// Whether the first ATQA byte announces the standard bit frame anticollision.
pub fn is_standard_anticollision(atqa0: u8) -> (r: bool)
    ensures
        r == spec_is_standard_anticollision(atqa0),
{
    let b = atqa0 & 0x1F;
    b == 1 || b == 2 || b == 4 || b == 8 || b == 16
}

/// The bit position of a collision that CollReg reports: its low five bits,
/// where 0 stands for 32.
pub open spec fn spec_coll_pos(coll_reg: u8) -> u8 {
    if coll_reg & 0x1F == 0 {
        32
    } else {
        coll_reg & 0x1F
    }
}

/// The number of known UID bits after a collision that CollReg reports,
/// when `known_bits` were known before: the collision position, if CollReg
/// says it is valid and it lies past the known bits; else a Collision error.
pub open spec fn spec_collision_progress<E>(coll_reg: u8, known_bits: u8) -> Result<u8, Error<E>> {
    if coll_reg & 0x20 != 0 {
        Err(Error::Collision)
    } else if spec_coll_pos(coll_reg) <= known_bits {
        Err(Error::Collision)
    } else {
        Ok(spec_coll_pos(coll_reg))
    }
}

/// The number of known UID bits after a collision that CollReg reports.
pub fn collision_progress<E>(coll_reg: u8, known_bits: u8) -> (r: Result<u8, Error<E>>)
    ensures
        r == spec_collision_progress::<E>(coll_reg, known_bits),
        r is Ok ==> known_bits < r->Ok_0 <= 32,
{
    if coll_reg & 0x20 != 0 {
        // CollPosNotValid
        return Err(Error::Collision);
    }
    let mut coll_pos = coll_reg & 0x1F;
    if coll_pos == 0 {
        coll_pos = 32;
    }
    assert(coll_reg & 0x1F <= 31) by (bit_vector);
    if coll_pos <= known_bits {
        // no progress
        return Err(Error::Collision);
    }
    Ok(coll_pos)
}

/// Bit `k` of the UID bits gathered during anticollision, least
/// significant bit of the first byte first.
pub open spec fn uid_bit(uid: Seq<u8>, k: int) -> bool {
    (uid[k / 8] >> ((k % 8) as u8)) & 1 == 1
}

/// Sets to 1 the UID bit at which a collision was reported, the last of the
/// first `known_bits` bits: the tie is always resolved towards 1.
pub fn mark_collision_bit(uid: &mut [u8; 5], known_bits: u8)
    requires
        1 <= known_bits <= 32,
    ensures
        final(uid)@ == old(uid)@.update(
            (known_bits - 1) / 8,
            old(uid)@[(known_bits - 1) / 8] | (1u8 << ((known_bits - 1) % 8) as u8),
        ),
{
    let index: usize = ((known_bits - 1) / 8) as usize;
    let check_bit = (known_bits - 1) % 8;
    uid[index] = uid[index] | (1 << check_bit);
}

/// After a collision at bit position `known_bits` was marked, that bit is
/// set and every other UID bit is as it was.
pub proof fn lemma_mark_collision_bit(before: Seq<u8>, after: Seq<u8>, known_bits: u8, k: int)
    requires
        before.len() == 5,
        1 <= known_bits <= 32,
        0 <= k < 32,
        after == before.update(
            (known_bits - 1) / 8,
            before[(known_bits - 1) / 8] | (1u8 << ((known_bits - 1) % 8) as u8),
        ),
    ensures
        k == known_bits - 1 ==> uid_bit(after, k),
        k != known_bits - 1 ==> uid_bit(after, k) == uid_bit(before, k),
{
    let p = known_bits - 1;
    let i = k / 8;
    let b = before[i];
    let kb = (k % 8) as u8;
    let pb = (p % 8) as u8;
    if i == p / 8 {
        let a = after[i];
        assert(a == b | (1u8 << pb));
        if kb == pb {
            assert(((b | (1u8 << pb)) >> pb) & 1 == 1) by (bit_vector)
                requires
                    pb < 8,
            ;
        } else {
            assert(((b | (1u8 << pb)) >> kb) & 1 == (b >> kb) & 1) by (bit_vector)
                requires
                    pb < 8,
                    kb < 8,
                    kb != pb,
            ;
        }
    }
}

/// The NVB byte of an anticollision frame when `known_bits` UID bits are
/// sent: the number of whole bytes in the frame (the command and NVB
/// included) in the high nibble, and the bits of the partial byte in the
/// low one.
pub open spec fn spec_nvb(known_bits: u8) -> u8 {
    (16 * (2 + known_bits / 8) + known_bits % 8) as u8
}

/// The number of UID bytes, whole or partial, that an anticollision frame
/// with `known_bits` known bits carries.
pub open spec fn uid_bytes_sent(known_bits: u8) -> int {
    if known_bits % 8 > 0 {
        (known_bits / 8) as int + 1
    } else {
        (known_bits / 8) as int
    }
}

/// The anticollision frame that sends the first `known_bits` UID bits:
/// the select command of the cascade level, NVB, and the UID bytes that
/// hold those bits.
pub open spec fn spec_anticollision_frame(sel: u8, known_bits: u8, uid: Seq<u8>) -> Seq<u8> {
    seq![sel, spec_nvb(known_bits)] + uid.take(uid_bytes_sent(known_bits))
}

/// Builds the anticollision frame that sends the first `known_bits` UID bits.
pub fn anticollision_frame(sel: u8, known_bits: u8, uid: &[u8; 5]) -> (r: Vec<u8>)
    requires
        known_bits <= 32,
    ensures
        r@ == spec_anticollision_frame(sel, known_bits, uid@),
{
    let tx_last_bits = known_bits % 8;
    let tx_bytes = 2 + known_bits / 8;
    let n: usize = (known_bits / 8) as usize + if tx_last_bits > 0 {
        1
    } else {
        0
    };
    let mut frame: Vec<u8> = Vec::new();
    frame.push(sel);
    assert((tx_bytes << 4) as int + tx_last_bits as int <= 255 && ((tx_bytes << 4) + tx_last_bits) as u8 == spec_nvb(known_bits)) by (bit_vector)
        requires
            known_bits <= 32,
            tx_last_bits == known_bits % 8,
            tx_bytes == 2 + known_bits / 8,
    ;
    frame.push((tx_bytes << 4) + tx_last_bits);
    let mut i: usize = 0;
    while i < n
        invariant
            n == uid_bytes_sent(known_bits),
            n <= 5,
            i <= n,
            frame@ == seq![sel, spec_nvb(known_bits)] + uid@.take(i as int),
        decreases n - i,
    {
        frame.push(uid[i]);
        assert(uid@.take(i as int).push(uid@[i as int]) =~= uid@.take(i + 1));
        i += 1;
    }
    frame
}

/// A collision that CollReg reports past the known bits becomes the new
/// number of known bits, and the bit at that position is then resolved to 1;
/// a collision that CollReg marks invalid, or that lies at or before the
/// known bits, is a Collision error.
pub proof fn lemma_collision_step<E>(coll_reg: u8, known_bits: u8)
    requires
        known_bits <= 32,
    ensures
        coll_reg & 0x20 == 0 && spec_coll_pos(coll_reg) > known_bits ==> spec_collision_progress::<
            E,
        >(coll_reg, known_bits) == Ok::<u8, Error<E>>(spec_coll_pos(coll_reg)),
        coll_reg & 0x20 != 0 || spec_coll_pos(coll_reg) <= known_bits ==> spec_collision_progress::<
            E,
        >(coll_reg, known_bits) == Err::<u8, Error<E>>(Error::Collision),
{
}

/// The result of a halt: since a PICC must not answer HLTA, the expiry of
/// the chip's timer is success; a bus error, or a chip that stopped
/// answering, is passed on; any other result, a received frame included, is
/// a Nak.
pub open spec fn spec_hlta_outcome<E>(r: Result<FifoData, Error<E>>) -> Result<(), Error<E>> {
    match r {
        Err(Error::Timeout) => Ok(()),
        Err(Error::Comm(x)) => Err(Error::Comm(x)),
        Err(Error::PollLimit) => Err(Error::PollLimit),
        _ => Err(Error::Nak),
    }
}

/// The result of a halt, given the result of transmitting HLTA.
pub fn hlta_outcome<E>(r: Result<FifoData, Error<E>>) -> (out: Result<(), Error<E>>)
    ensures
        out == spec_hlta_outcome(r),
{
    match r {
        Err(Error::Timeout) => Ok(()),
        Err(Error::Comm(x)) => Err(Error::Comm(x)),
        Err(Error::PollLimit) => Err(Error::PollLimit),
        _ => Err(Error::Nak),
    }
}

/// Whether a reception is the acknowledgement of a MIFARE write: a single
/// 4-bit frame holding ACK (Ah). Any other nibble is a NAK.
pub open spec fn spec_is_ack(fifo: FifoData) -> bool {
    &&& fifo.valid_bytes == 1
    &&& fifo.valid_bits == 4
    &&& fifo.buffer@[0] & 0x0F == 0x0A
}

/// Whether a reception is the acknowledgement of a MIFARE write.
pub fn is_ack(fifo: &FifoData) -> (r: bool)
    requires
        fifo.wf(),
    ensures
        r == spec_is_ack(*fifo),
{
    fifo.valid_bytes == 1 && fifo.valid_bits == 4 && fifo.buffer[0] & 0x0F == 0x0A
}

/// A halt succeeds exactly when the chip's timer expires after HLTA; a bus
/// error and the poll limit are passed on; every other result, a
/// well-formed frame included, is a Nak.
pub proof fn lemma_hlta_outcome<E>(r: Result<FifoData, Error<E>>)
    ensures
        r == Err::<FifoData, Error<E>>(Error::Timeout) ==> spec_hlta_outcome(r) == Ok::<
            (),
            Error<E>,
        >(()),
        r matches Err(Error::Comm(x)) ==> spec_hlta_outcome(r) == Err::<(), Error<E>>(
            Error::Comm(x),
        ),
        r == Err::<FifoData, Error<E>>(Error::PollLimit) ==> spec_hlta_outcome(r) == Err::<
            (),
            Error<E>,
        >(Error::PollLimit),
        r != Err::<FifoData, Error<E>>(Error::Timeout) && r != Err::<FifoData, Error<E>>(
            Error::PollLimit,
        ) && !(r matches Err(Error::Comm(_))) ==> spec_hlta_outcome(r) == Err::<(), Error<E>>(
            Error::Nak,
        ),
{
}

} // verus!
