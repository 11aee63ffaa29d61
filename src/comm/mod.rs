//! The register interface of the MFRC522 and the framing of register
//! transactions on the SPI and I2C buses.

use crate::register::Register;
use vstd::prelude::*;

verus! {

/// One register transaction on the bus.
pub enum BusOp {
    /// A register was read and held the given value.
    Read(Register, u8),
    /// A register was read several times in a row, yielding the given bytes.
    ReadMany(Register, Seq<u8>),
    /// A value was written to a register.
    Write(Register, u8),
    /// Several bytes were written to a register in one transaction.
    WriteMany(Register, Seq<u8>),
    /// A register was read, modified and written back through the
    /// interface: the bits of the first mask set, those of the second cleared.
    Modify(Register, u8, u8),
    /// A transaction on the register failed on the bus.
    Failed(Register),
}

/// A log that is a prefix of a prefix of another is a prefix of it.
pub broadcast proof fn lemma_prefix_trans(a: Seq<BusOp>, b: Seq<BusOp>, c: Seq<BusOp>)
    requires
        #[trigger] a.is_prefix_of(b),
        #[trigger] b.is_prefix_of(c),
    ensures
        a.is_prefix_of(c),
{
    assert(a =~= c.subrange(0, a.len() as int));
}

/// No transaction of `after` past the length of `before` failed.
pub open spec fn clean(before: Seq<BusOp>, after: Seq<BusOp>) -> bool {
    forall|i: int| before.len() <= i < after.len() ==> !(#[trigger] after[i] is Failed)
}

/// Two stretches of a growing log without failures make one.
pub broadcast proof fn lemma_clean_trans(a: Seq<BusOp>, b: Seq<BusOp>, c: Seq<BusOp>)
    requires
        a.is_prefix_of(b),
        b.is_prefix_of(c),
        #[trigger] clean(a, b),
        #[trigger] clean(b, c),
    ensures
        clean(a, c),
{
    assert forall|i: int| a.len() <= i < c.len() implies !(#[trigger] c[i] is Failed) by {
        if i < b.len() {
            assert(c[i] == c.subrange(0, b.len() as int)[i]);
        }
    }
}

/// A stretch without failures, followed by another up to a failed last
/// transaction, has no failure before that last transaction.
pub broadcast proof fn lemma_clean_before_failure(a: Seq<BusOp>, b: Seq<BusOp>, c: Seq<BusOp>)
    requires
        a.is_prefix_of(b),
        b.is_prefix_of(c),
        b.len() < c.len(),
        #[trigger] clean(a, b),
        #[trigger] clean(b, c.drop_last()),
    ensures
        clean(a, c.drop_last()),
{
    assert forall|i: int| a.len() <= i < c.len() - 1 implies !(#[trigger] c.drop_last()[i] is Failed) by {
        if i < b.len() {
            assert(c[i] == c.subrange(0, b.len() as int)[i]);
        }
    }
}

/// Abstraction over the different communication interfaces.
///
/// What a register holds is up to the chip: the driver records each
/// transaction it makes, with the value it yielded or the fact that it
/// failed, and states its behaviour over that record. The methods therefore
/// promise nothing but what Rust's types already give.
pub trait Interface {
    type Error;

    /// Read the value of a register
    fn read(&mut self, reg: Register) -> (r: Result<u8, Self::Error>);

    /// Read the value of a register larger than a single byte (the FIFO),
    /// filling the whole buffer.
    fn read_many<'b>(&mut self, reg: Register, buf: &'b mut [u8]) -> (r: Result<&'b [u8], Self::Error>)
        ensures
            final(buf)@.len() == old(buf)@.len(),
    ;

    /// Write the value of a register
    fn write(&mut self, reg: Register, val: u8) -> (r: Result<(), Self::Error>);

    /// Write values to a register larger than a single byte (the FIFO)
    fn write_many(&mut self, reg: Register, bytes: &[u8]) -> (r: Result<(), Self::Error>);

    /// Execute a read-modify-write operation: read the register, apply `f`
    /// and write the result back. This is not atomic on the chip.
    fn rmw<F: FnOnce(u8) -> u8>(&mut self, reg: Register, f: F) -> (r: Result<(), Self::Error>)
        requires
            forall|b: u8| f.requires((b,)),
    {
        let byte = self.read(reg)?;
        let val = f(byte);
        self.write(reg, val)?;
        Ok(())
    }
}

/// The address byte that reads `reg` over SPI: the register address
/// shifted left by one, with the read bit (MSB) set.
pub fn spi_read_address(reg: Register) -> (r: u8)
    ensures
        r == 2 * reg.spec_addr() + 0x80,
{
    let a = reg.addr();
    assert(a < 64);
    assert((a << 1) | 0x80 == 2 * a + 0x80) by (bit_vector)
        requires
            a < 64,
    ;
    (a << 1) | 0x80
}

/// The address byte that writes `reg` over SPI: the register address
/// shifted left by one, with the read bit clear.
pub fn spi_write_address(reg: Register) -> (r: u8)
    ensures
        r == 2 * reg.spec_addr(),
{
    let a = reg.addr();
    assert(a < 64);
    assert(a << 1 == 2 * a) by (bit_vector)
        requires
            a < 64,
    ;
    a << 1
}

/// The bytes clocked out over SPI, after the address byte, to read `n`
/// bytes from `reg`: the read address once for each further byte, then a
/// dummy 0.
pub fn spi_read_many_request(reg: Register, n: usize) -> (r: Vec<u8>)
    ensures
        r@.len() == n,
        forall|i: int| 0 <= i < n - 1 ==> r@[i] == 2 * reg.spec_addr() + 0x80,
        n > 0 ==> r@[n - 1] == 0,
{
    let address = spi_read_address(reg);
    let mut out: Vec<u8> = Vec::new();
    let mut i: usize = 0;
    while i < n
        invariant
            i <= n,
            out@.len() == i,
            address == 2 * reg.spec_addr() + 0x80,
            forall|j: int| 0 <= j < i ==> out@[j] == if j == n - 1 {
                0
            } else {
                address
            },
        decreases n - i,
    {
        if i + 1 == n {
            out.push(0);
        } else {
            out.push(address);
        }
        i += 1;
    }
    out
}

} // verus!
