//! Errors reported by the driver.

use vstd::prelude::*;

verus! {

/// The ways an operation of the driver can fail.
#[derive(Debug, PartialEq, Eq)]
pub enum Error<E> {
    /// Wrong Block Character Check (BCC)
    Bcc,
    /// FIFO buffer overflow
    BufferOverflow,
    /// Collision
    Collision,
    /// Wrong CRC
    Crc,
    /// Incomplete RX frame
    IncompleteFrame,
    /// Internal temperature sensor detects overheating
    Overheating,
    /// Parity check failed
    Parity,
    /// Error during MFAuthent operation
    Protocol,
    /// Timeout: the chip's timer expired, or the CRC coprocessor did not finish
    Timeout,
    /// The chip did not end a command within the driver's bound on polling
    /// its status, as when it stops answering
    PollLimit,
    /// Write error: FIFO buffer was written at invalid time
    Wr,
    /// Not acknowledge
    Nak,
    /// Provided buffer not large enough
    NoRoom,
    /// Proprietary frames, commands or protocols used
    Proprietary,
    /// Communication error on the underlying interface
    Comm(E),
}

} // verus!
