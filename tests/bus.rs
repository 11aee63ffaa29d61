use embedded_hal::i2c::{I2c, Operation as I2cOperation};
use embedded_hal::spi::{Operation as SpiOperation, SpiDevice};
use embedded_hal_mock::eh1::i2c::{Mock as I2cMock, Transaction as I2cTransaction};
use embedded_hal_mock::eh1::spi::{Mock as SpiMock, Transaction as SpiTransaction};
use mfrc522::comm::{spi_read_address, spi_read_many_request, spi_write_address, Interface};
use mfrc522::register::Register;
use mfrc522::{FifoData, Mfrc522};

/// SPI framing over an embedded-hal device.
struct Spi<S>(S);

impl<S: SpiDevice> Interface for Spi<S> {
    type Error = S::Error;

    fn read(&mut self, reg: Register) -> Result<u8, S::Error> {
        let mut buffer = [spi_read_address(reg), 0];
        self.0.transfer_in_place(&mut buffer)?;
        Ok(buffer[1])
    }

    fn read_many<'b>(&mut self, reg: Register, buf: &'b mut [u8]) -> Result<&'b [u8], S::Error> {
        buf.copy_from_slice(&spi_read_many_request(reg, buf.len()));
        let address = [spi_read_address(reg)];
        let mut operations = [SpiOperation::Write(&address), SpiOperation::TransferInPlace(&mut *buf)];
        self.0.transaction(&mut operations)?;
        Ok(buf)
    }

    fn write(&mut self, reg: Register, val: u8) -> Result<(), S::Error> {
        self.0.write(&[spi_write_address(reg), val])
    }

    fn write_many(&mut self, reg: Register, bytes: &[u8]) -> Result<(), S::Error> {
        let address = [spi_write_address(reg)];
        let mut operations = [SpiOperation::Write(&address), SpiOperation::Write(bytes)];
        self.0.transaction(&mut operations)
    }
}

/// I2C framing over an embedded-hal device.
struct I2cBus<D>(D, u8);

impl<D: I2c> Interface for I2cBus<D> {
    type Error = D::Error;

    fn read(&mut self, reg: Register) -> Result<u8, D::Error> {
        let mut buffer = [0];
        self.0.write_read(self.1, &[reg.addr()], &mut buffer)?;
        Ok(buffer[0])
    }

    fn read_many<'b>(&mut self, reg: Register, buf: &'b mut [u8]) -> Result<&'b [u8], D::Error> {
        self.0.write_read(self.1, &[reg.addr()], buf)?;
        Ok(buf)
    }

    fn write(&mut self, reg: Register, val: u8) -> Result<(), D::Error> {
        self.0.write(self.1, &[reg.addr(), val])
    }

    fn write_many(&mut self, reg: Register, bytes: &[u8]) -> Result<(), D::Error> {
        let address = [reg.addr()];
        let mut operations = [I2cOperation::Write(&address), I2cOperation::Write(bytes)];
        self.0.transaction(self.1, &mut operations)
    }
}

fn spi_write(bytes: Vec<u8>) -> Vec<SpiTransaction<u8>> {
    vec![
        SpiTransaction::transaction_start(),
        SpiTransaction::write_vec(bytes),
        SpiTransaction::transaction_end(),
    ]
}

fn spi_read(request: Vec<u8>, response: Vec<u8>) -> Vec<SpiTransaction<u8>> {
    vec![
        SpiTransaction::transaction_start(),
        SpiTransaction::transfer_in_place(request, response),
        SpiTransaction::transaction_end(),
    ]
}

#[test]
fn tests_test_calculate_crc() {
    let mut expectations = Vec::new();
    expectations.extend(spi_write([0x02, 0x00].to_vec()));
    expectations.extend(spi_write([0x0A, 0x04].to_vec()));
    expectations.extend(spi_write([0x14, 0x80].to_vec()));
    expectations.push(SpiTransaction::transaction_start());
    expectations.push(SpiTransaction::write_vec([0x12].to_vec()));
    expectations.push(SpiTransaction::write_vec([0x01, 0x02, 0x40].to_vec()));
    expectations.push(SpiTransaction::transaction_end());
    expectations.extend(spi_write([0x02, 0x03].to_vec()));
    expectations.extend(spi_read([0x8A, 0x00].to_vec(), [0x23, 0x00].to_vec()));
    expectations.extend(spi_read([0x8A, 0x00].to_vec(), [0x32, 0x1B].to_vec()));
    expectations.extend(spi_read([0x8A, 0x00].to_vec(), [0x63, 0x1F].to_vec()));
    expectations.extend(spi_write([0x02, 0x00].to_vec()));
    expectations.extend(spi_read([0xC4, 0x00].to_vec(), [0x29, 0xbe].to_vec()));
    expectations.extend(spi_read([0xC2, 0x00].to_vec(), [0x93, 0xef].to_vec()));

    let spi = SpiMock::new(&expectations);
    let mut spi_clone = spi.clone();

    assert_eq!(
        Mfrc522::new(Spi(spi)).calculate_crc(&[0x01, 0x02, 0x40]),
        Ok([0xbe, 0xef])
    );

    spi_clone.done();
}

#[test]
fn tests_test_transceive() {
    let mut expectations = Vec::new();
    expectations.extend(spi_write([0x02, 0x00].to_vec()));
    expectations.extend(spi_write([0x08, 0x7f].to_vec()));
    expectations.extend(spi_write([0x14, 0x80].to_vec()));
    expectations.push(SpiTransaction::transaction_start());
    expectations.push(SpiTransaction::write_vec([0x12].to_vec()));
    expectations.push(SpiTransaction::write_vec([0xfe, 0xed].to_vec()));
    expectations.push(SpiTransaction::transaction_end());
    expectations.extend(spi_write([0x02, 0x0C].to_vec()));
    expectations.extend(spi_write([0x1A, 0xA1].to_vec()));
    expectations.extend(spi_read([0x88, 0x00].to_vec(), [0x00, 0x04].to_vec()));
    expectations.extend(spi_read([0x88, 0x00].to_vec(), [0x00, 0x02].to_vec()));
    expectations.extend(spi_read([0x8C, 0x00].to_vec(), [0x00, 0x00].to_vec()));
    expectations.extend(spi_read([0x94, 0x00].to_vec(), [0x00, 0x04].to_vec()));
    expectations.push(SpiTransaction::transaction_start());
    expectations.push(SpiTransaction::write(0x92));
    expectations.push(SpiTransaction::transfer_in_place(
        [0x92, 0x92, 0x92, 0x00].to_vec(),
        [0x98, 0x76, 0x52, 0x2b].to_vec(),
    ));
    expectations.push(SpiTransaction::transaction_end());
    expectations.extend(spi_read([0x98, 0x00].to_vec(), [0x00, 0xf3].to_vec()));

    let spi = SpiMock::new(&expectations);
    let mut spi_clone = spi.clone();

    assert_eq!(
        Mfrc522::new(Spi(spi)).transceive(&[0xfe, 0xed], 0xf9, 0xfa, 4),
        Ok(FifoData {
            buffer: vec![0x98, 0x76, 0x52, 0x2b],
            valid_bytes: 4,
            valid_bits: 3,
        })
    );

    spi_clone.done();
}

#[test]
fn tests_test_calculate_crc_i2c() {
    let expectations = [
        I2cTransaction::write(0x2C, [0x01, 0x00].to_vec()),
        I2cTransaction::write(0x2C, [0x05, 0x04].to_vec()),
        I2cTransaction::write(0x2C, [0x0A, 0x80].to_vec()),
        I2cTransaction::transaction_start(0x2c),
        I2cTransaction::write(0x2c, [0x09].to_vec()),
        I2cTransaction::write(0x2c, [0x01, 0x02, 0x40].to_vec()),
        I2cTransaction::transaction_end(0x2c),
        I2cTransaction::write(0x2C, [0x01, 0x03].to_vec()),
        I2cTransaction::write_read(0x2C, [0x05].to_vec(), [0x00].to_vec()),
        I2cTransaction::write_read(0x2C, [0x05].to_vec(), [0x1B].to_vec()),
        I2cTransaction::write_read(0x2C, [0x05].to_vec(), [0x1F].to_vec()),
        I2cTransaction::write(0x2C, [0x01, 0x00].to_vec()),
        I2cTransaction::write_read(0x2C, [0x22].to_vec(), [0xbe].to_vec()),
        I2cTransaction::write_read(0x2C, [0x21].to_vec(), [0xef].to_vec()),
    ];

    let i2c = I2cMock::new(&expectations);
    let mut i2c_clone = i2c.clone();

    assert_eq!(
        Mfrc522::new(I2cBus(i2c, 0x2c)).calculate_crc(&[0x01, 0x02, 0x40]),
        Ok([0xbe, 0xef])
    );

    i2c_clone.done();
}

#[test]
fn tests_test_transceive_i2c() {
    let expectations = [
        I2cTransaction::write(0x2C, [0x01, 0x00].to_vec()),
        I2cTransaction::write(0x2C, [0x04, 0x7f].to_vec()),
        I2cTransaction::write(0x2C, [0x0A, 0x80].to_vec()),
        I2cTransaction::transaction_start(0x2c),
        I2cTransaction::write(0x2C, [0x09].to_vec()),
        I2cTransaction::write(0x2C, [0xfe, 0xed].to_vec()),
        I2cTransaction::transaction_end(0x2c),
        I2cTransaction::write(0x2C, [0x01, 0x0C].to_vec()),
        I2cTransaction::write(0x2C, [0x0D, 0xA1].to_vec()),
        I2cTransaction::write_read(0x2C, [0x04].to_vec(), [0x04].to_vec()),
        I2cTransaction::write_read(0x2C, [0x04].to_vec(), [0x02].to_vec()),
        I2cTransaction::write_read(0x2C, [0x06].to_vec(), [0x00].to_vec()),
        I2cTransaction::write_read(0x2C, [0x0A].to_vec(), [0x04].to_vec()),
        I2cTransaction::write_read(0x2C, [0x09].to_vec(), [0x98, 0x76, 0x52, 0x2b].to_vec()),
        I2cTransaction::write_read(0x2C, [0x0C].to_vec(), [0x91].to_vec()),
    ];

    let i2c = I2cMock::new(&expectations);
    let mut i2c_clone = i2c.clone();

    assert_eq!(
        Mfrc522::new(I2cBus(i2c, 0x2c)).transceive(&[0xfe, 0xed], 0xf9, 0xfa, 4),
        Ok(FifoData {
            buffer: vec![0x98, 0x76, 0x52, 0x2b],
            valid_bytes: 4,
            valid_bits: 1,
        })
    );

    i2c_clone.done();
}

#[test]
fn spi_addresses_shift_the_register_address() {
    assert_eq!(spi_read_address(Register::WaterLevelReg), 0x96);
    assert_eq!(spi_write_address(Register::CRCResultRegHigh), 0x42);
    assert_eq!(spi_read_many_request(Register::TxASKReg, 3), vec![0xAA, 0xAA, 0x00]);
    assert_eq!(spi_read_many_request(Register::TxASKReg, 0), Vec::<u8>::new());
}

#[test]
fn spi_test_read() {
    let expectations = spi_read([0x96, 0x00].to_vec(), [0x11, 0x37].to_vec());
    let spi = SpiMock::new(&expectations);
    let mut spi_clone = spi.clone();
    assert_eq!(Spi(spi).read(Register::WaterLevelReg), Ok(0x37));
    spi_clone.done();
}

#[test]
fn spi_test_write() {
    let expectations = spi_write([0x42, 0xfd].to_vec());
    let spi = SpiMock::new(&expectations);
    let mut spi_clone = spi.clone();
    Spi(spi).write(Register::CRCResultRegHigh, 0xfd).unwrap();
    spi_clone.done();
}

#[test]
fn spi_test_write_many() {
    let expectations = [
        SpiTransaction::transaction_start(),
        SpiTransaction::write(0x4E),
        SpiTransaction::write_vec([0xca, 0xfe, 0xf0, 0x0d].to_vec()),
        SpiTransaction::transaction_end(),
    ];
    let spi = SpiMock::new(&expectations);
    let mut spi_clone = spi.clone();
    Spi(spi).write_many(Register::GsNReg, &[0xca, 0xfe, 0xf0, 0x0d]).unwrap();
    spi_clone.done();
}

#[test]
fn spi_test_read_many_2() {
    let expectations = [
        SpiTransaction::transaction_start(),
        SpiTransaction::write(0xAA),
        SpiTransaction::transfer_in_place([0xAA, 0x00].to_vec(), [0x12, 0x23].to_vec()),
        SpiTransaction::transaction_end(),
    ];
    let spi = SpiMock::new(&expectations);
    let mut spi_clone = spi.clone();
    let mut buffer = [0u8; 2];
    Spi(spi).read_many(Register::TxASKReg, &mut buffer).unwrap();
    assert_eq!(buffer, [0x12, 0x23]);
    spi_clone.done();
}

#[test]
fn spi_test_read_many_3() {
    let expectations = [
        SpiTransaction::transaction_start(),
        SpiTransaction::write(0xAA),
        SpiTransaction::transfer_in_place(
            [0xAA, 0xAA, 0x00].to_vec(),
            [0x12, 0x23, 0x34].to_vec(),
        ),
        SpiTransaction::transaction_end(),
    ];
    let spi = SpiMock::new(&expectations);
    let mut spi_clone = spi.clone();
    let mut buffer = [0u8; 3];
    Spi(spi).read_many(Register::TxASKReg, &mut buffer).unwrap();
    assert_eq!(buffer, [0x12, 0x23, 0x34]);
    spi_clone.done();
}

#[test]
fn i2c_test_read() {
    let expectations = [I2cTransaction::write_read(0x2C, [0x0B].to_vec(), [0x37].to_vec())];
    let i2c = I2cMock::new(&expectations);
    let mut i2c_clone = i2c.clone();
    assert_eq!(I2cBus(i2c, 0x2C).read(Register::WaterLevelReg), Ok(0x37));
    i2c_clone.done();
}

#[test]
fn i2c_test_read_many_2() {
    let expectations = [I2cTransaction::write_read(0x2C, [0x15].to_vec(), [0x12, 0x23].to_vec())];
    let i2c = I2cMock::new(&expectations);
    let mut i2c_clone = i2c.clone();
    let mut buffer = [0u8; 2];
    I2cBus(i2c, 0x2C).read_many(Register::TxASKReg, &mut buffer).unwrap();
    assert_eq!(buffer, [0x12, 0x23]);
    i2c_clone.done();
}

#[test]
fn i2c_test_read_many_3() {
    let expectations = [I2cTransaction::write_read(
        0x2C,
        [0x15].to_vec(),
        [0x12, 0x23, 0x34].to_vec(),
    )];
    let i2c = I2cMock::new(&expectations);
    let mut i2c_clone = i2c.clone();
    let mut buffer = [0u8; 3];
    I2cBus(i2c, 0x2C).read_many(Register::TxASKReg, &mut buffer).unwrap();
    assert_eq!(buffer, [0x12, 0x23, 0x34]);
    i2c_clone.done();
}

#[test]
fn i2c_test_write() {
    let expectations = [I2cTransaction::write(0x2C, [0x21, 0xfd].to_vec())];
    let i2c = I2cMock::new(&expectations);
    let mut i2c_clone = i2c.clone();
    I2cBus(i2c, 0x2C).write(Register::CRCResultRegHigh, 0xfd).unwrap();
    i2c_clone.done();
}

#[test]
fn i2c_test_write_many() {
    let expectations = [
        I2cTransaction::transaction_start(0x2c),
        I2cTransaction::write(0x2C, [0x27].to_vec()),
        I2cTransaction::write(0x2C, [0xca, 0xfe, 0xf0, 0x0d].to_vec()),
        I2cTransaction::transaction_end(0x2c),
    ];
    let i2c = I2cMock::new(&expectations);
    let mut i2c_clone = i2c.clone();
    I2cBus(i2c, 0x2C).write_many(Register::GsNReg, &[0xca, 0xfe, 0xf0, 0x0d]).unwrap();
    i2c_clone.done();
}
