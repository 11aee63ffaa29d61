//! Data harvested from the FIFO buffer of the MFRC522 after a reception.

use crate::error::Error;
use vstd::prelude::*;

verus! {

/// The contents of the FIFO buffer after a reception.
///
/// `buffer` has the capacity that the caller asked for; its first
/// `valid_bytes` bytes were received, and `valid_bits` is the number of
/// valid bits in the last of them (0 meaning that the whole byte is valid).
#[derive(Debug, PartialEq, Eq)]
pub struct FifoData {
    /// The contents of the FIFO buffer
    pub buffer: Vec<u8>,
    /// The number of valid bytes in the buffer
    pub valid_bytes: usize,
    /// The number of valid bits in the last byte
    pub valid_bits: usize,
}

impl FifoData {
    /// The buffer holds the received bytes, and the bit count fits in a byte.
    pub open spec fn wf(&self) -> bool {
        &&& self.valid_bytes <= self.buffer@.len()
        &&& self.valid_bits < 8
    }

    /// Mask of the bits of a byte at and above bit position `k`.
    pub open spec fn high_mask(k: u8) -> u8 {
        (0xFFu8 << k) as u8
    }

    /// `dst` after the received bits were appended behind its first
    /// `dst_valid_bits` bits: the first received byte fills the upper bits of
    /// the partial byte, and the next `valid_bytes - 1` bytes follow it.
    pub open spec fn merged(&self, dst: Seq<u8>, dst_valid_bits: u8) -> Seq<u8> {
        let idx = (dst_valid_bits / 8) as int;
        let mask = Self::high_mask(dst_valid_bits % 8);
        let len = self.valid_bytes - 1;
        Seq::new(
            dst.len(),
            |i: int|
                if i == idx {
                    ((self.buffer@[0] & mask) | (dst[idx] & !mask)) as u8
                } else if idx < i <= idx + len {
                    self.buffer@[i - idx]
                } else {
                    dst[i]
                },
        )
    }

    /// `dst` after only the partial byte at `dst_valid_bits` was merged.
    pub open spec fn merged_first(&self, dst: Seq<u8>, dst_valid_bits: u8) -> Seq<u8> {
        let idx = (dst_valid_bits / 8) as int;
        let mask = Self::high_mask(dst_valid_bits % 8);
        dst.update(idx, ((self.buffer@[0] & mask) | (dst[idx] & !mask)) as u8)
    }

    /// The number of valid bits in the destination after the copy, when
    /// `dst_valid_bits` were valid before.
    pub open spec fn bits_after(&self, dst_valid_bits: u8) -> int {
        dst_valid_bits + 8 * (self.valid_bytes - 1) + self.valid_bits
    }

    /// Copies FIFO data to destination buffer.
    /// Assumes the FIFO data is aligned properly to append directly to the current known bits.
    /// Returns the number of valid bits in the destination buffer after copy.
    ///
    /// Fails with NoRoom, writing nothing, when the received bytes do not
    /// fit in `dst` behind the known bits or when the bit count would not
    /// fit in a byte.
    pub fn copy_bits_to<E>(&self, dst: &mut [u8], dst_valid_bits: u8) -> (r: Result<u8, Error<E>>)
        requires
            self.wf(),
        ensures
            self.valid_bytes == 0 ==> r == Ok::<u8, Error<E>>(dst_valid_bits) && final(dst)@
                == old(dst)@,
            self.valid_bytes > 0 && (dst_valid_bits / 8 + self.valid_bytes > old(dst)@.len()
                || self.bits_after(dst_valid_bits) > 255) ==> r == Err::<u8, Error<E>>(
                Error::NoRoom,
            ) && final(dst)@ == old(dst)@,
            self.valid_bytes > 0 && self.bits_after(dst_valid_bits) <= 255 && dst_valid_bits / 8
                + self.valid_bytes <= old(dst)@.len() ==> r == Ok::<u8, Error<E>>(
                self.bits_after(dst_valid_bits) as u8,
            ) && final(dst)@ == self.merged(old(dst)@, dst_valid_bits),
    {
        if self.valid_bytes == 0 {
            // nothing to copy
            return Ok(dst_valid_bits);
        }
        let dst_valid_bytes = dst_valid_bits / 8;
        let dst_valid_last_bits = dst_valid_bits % 8;
        let len = self.valid_bytes - 1;
        // the number of valid bits after the copy must fit in a byte
        let room: usize = 255 - dst_valid_bits as usize;
        if self.valid_bits > room || len > (room - self.valid_bits) / 8 {
            assert(self.bits_after(dst_valid_bits) > 255) by (nonlinear_arith)
                requires
                    room == 255 - dst_valid_bits,
                    len == self.valid_bytes - 1,
                    self.valid_bits > room || len > (room - self.valid_bits) / 8,
            ;
            return Err(Error::NoRoom);
        }
        assert(self.bits_after(dst_valid_bits) <= 255) by (nonlinear_arith)
            requires
                room == 255 - dst_valid_bits,
                len == self.valid_bytes - 1,
                self.valid_bits <= room,
                len <= (room - self.valid_bits) / 8,
        ;
        // the partial byte and the bytes after it must fit in `dst`
        if dst_valid_bytes as usize >= dst.len() || len > dst.len() - 1 - dst_valid_bytes as usize {
            return Err(Error::NoRoom);
        }
        let mask: u8 = 0xFF << dst_valid_last_bits;
        let mut idx = dst_valid_bytes as usize;
        dst[idx] = (self.buffer[0] & mask) | (dst[idx] & !mask);
        idx += 1;
        let ghost first = dst@;
        let mut i: usize = 0;
        while i < len
            invariant
                self.wf(),
                len == self.valid_bytes - 1,
                idx == dst_valid_bytes + 1,
                idx + len <= dst@.len(),
                dst@.len() <= usize::MAX,
                first == self.merged_first(old(dst)@, dst_valid_bits),
                dst@.len() == first.len(),
                dst@.len() == old(dst)@.len(),
                i <= len,
                forall|j: int| 0 <= j < dst@.len() ==> #[trigger] dst@[j] == if idx <= j < idx + i {
                    self.buffer@[j - idx + 1]
                } else {
                    first[j]
                },
            decreases len - i,
        {
            dst[idx + i] = self.buffer[1 + i];
            i += 1;
        }
        assert(dst@ =~= self.merged(old(dst)@, dst_valid_bits));
        Ok(dst_valid_bits + (len * 8) as u8 + self.valid_bits as u8)
    }
}

} // verus!
