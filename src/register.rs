//! Register map and chip-level commands of the MFRC522.

use vstd::prelude::*;

verus! {

/// The registers of the MFRC522.
#[derive(Debug, Clone, Copy, PartialEq, Eq, Structural)]
pub enum Register {
    /// Starts and stops command execution.
    CommandReg,
    /// Control bits to enable and disable the passing of interrupt requests.
    ComlEnReg,
    /// Control bits to enable and disable the passing of interrupt requests.
    DivlEnReg,
    /// Interrupt request bits.
    ComIrqReg,
    /// Interrupt request bits.
    DivIrqReg,
    /// Error bit register showing the error status of the last command executed.
    ErrorReg,
    /// Contains status bits of the CRC, interrupt and FIFO buffer.
    Status1Reg,
    /// Contains status bits of the receiver, transmitter and data mode detector.
    Status2Reg,
    /// Input and output of 64 byte FIFO buffer.
    FIFODataReg,
    /// Indicates the number of bytes stored in the FIFO.
    FIFOLevelReg,
    /// Defines the level for FIFO under- and overflow warning.
    WaterLevelReg,
    /// Miscellaneous control bits.
    ControlReg,
    /// Adjustments for bit-oriented frames.
    BitFramingReg,
    /// Defines the first bit-collision detected on the RF interface.
    CollReg,
    /// Defines general mode settings for transmitting and receiving.
    ModeReg,
    /// Defines the data rate during transmission.
    TxModeReg,
    /// Defines the data rate during reception.
    RxModeReg,
    /// Controls the logical behavior of the antenna driver pins TX1 and TX2.
    TxControlReg,
    /// Controls transmit modulation settings.
    TxASKReg,
    /// Selects the internal sources for the analog module.
    TxSelReg,
    /// Selects internal receiver settings.
    RxSelReg,
    /// Selects thresholds for the bit decoder.
    RxThresholdReg,
    /// Defines demodulator settings.
    DemodReg,
    /// Controls some MIFARE communication transmit parameters.
    MfTxReg,
    /// Controls some MIFARE communication receive parameters.
    MfRxReg,
    /// Selects the speed of the serial UART interface.
    SerialSpeedReg,
    /// CRC calculation highest 8 bits.
    CRCResultRegHigh,
    /// CRC calculation lowest 8 bits.
    CRCResultRegLow,
    /// Sets the modulation width.
    ModWidthReg,
    /// Configures the receiver gain.
    RFCfgReg,
    /// Defines the conductance of the antenna driver pins TX1 and TX2 for the n-driver when the driver is switched on.
    GsNReg,
    /// Defines the conductance of the p-driver output during periods of no modulation.
    CWGsPReg,
    /// Defines the conductance of the p-driver output during modulation.
    ModGsPReg,
    /// Timer settings + prescaler highest 4 bits.
    TModeReg,
    /// Timer prescaler lowest 8 bits.
    TPrescalerReg,
    /// Timer reload value highest 8 bits.
    TReloadRegHigh,
    /// Timer reload value lowest 8 bits.
    TReloadRegLow,
    /// Timer value highest 8 bits.
    TCounterValRegHigh,
    /// Timer value lower 8 bits.
    TCounterValRegLow,
    /// General test signal configuration.
    TestSel1Reg,
    /// General test signal configuration and PRBS control.
    TestSel2Reg,
    /// Enables the test bus pin output driver.
    TestPinEnReg,
    /// Defines the HIGH and LOW values for the test port D1 to D7 when it is used as I/O.
    TestPinValueReg,
    /// Shows the status of the internal test bus.
    TestBusReg,
    /// Controls the digital self-test.
    AutoTestReg,
    /// Shows the MFRC522 software version.
    VersionReg,
    /// Determines the analog output test signal at, and status of, pins AUX1 and AUX2.
    AnalogTestReg,
    /// Defines the test value for TestDAC1.
    TestDAC1Reg,
    /// Defines the test value for TestDAC2.
    TestDAC2Reg,
    /// Shows the values of ADC I and Q channels.
    TestADCReg,
}

impl Register {
    /// The address of the register on the chip.
    pub open spec fn spec_addr(self) -> u8 {
        match self {
            Register::CommandReg => 0x01,
            Register::ComlEnReg => 0x02,
            Register::DivlEnReg => 0x03,
            Register::ComIrqReg => 0x04,
            Register::DivIrqReg => 0x05,
            Register::ErrorReg => 0x06,
            Register::Status1Reg => 0x07,
            Register::Status2Reg => 0x08,
            Register::FIFODataReg => 0x09,
            Register::FIFOLevelReg => 0x0A,
            Register::WaterLevelReg => 0x0B,
            Register::ControlReg => 0x0C,
            Register::BitFramingReg => 0x0D,
            Register::CollReg => 0x0E,
            Register::ModeReg => 0x11,
            Register::TxModeReg => 0x12,
            Register::RxModeReg => 0x13,
            Register::TxControlReg => 0x14,
            Register::TxASKReg => 0x15,
            Register::TxSelReg => 0x16,
            Register::RxSelReg => 0x17,
            Register::RxThresholdReg => 0x18,
            Register::DemodReg => 0x19,
            Register::MfTxReg => 0x1C,
            Register::MfRxReg => 0x1D,
            Register::SerialSpeedReg => 0x1F,
            Register::CRCResultRegHigh => 0x21,
            Register::CRCResultRegLow => 0x22,
            Register::ModWidthReg => 0x24,
            Register::RFCfgReg => 0x26,
            Register::GsNReg => 0x27,
            Register::CWGsPReg => 0x28,
            Register::ModGsPReg => 0x29,
            Register::TModeReg => 0x2A,
            Register::TPrescalerReg => 0x2B,
            Register::TReloadRegHigh => 0x2C,
            Register::TReloadRegLow => 0x2D,
            Register::TCounterValRegHigh => 0x2E,
            Register::TCounterValRegLow => 0x2F,
            Register::TestSel1Reg => 0x31,
            Register::TestSel2Reg => 0x32,
            Register::TestPinEnReg => 0x33,
            Register::TestPinValueReg => 0x34,
            Register::TestBusReg => 0x35,
            Register::AutoTestReg => 0x36,
            Register::VersionReg => 0x37,
            Register::AnalogTestReg => 0x38,
            Register::TestDAC1Reg => 0x39,
            Register::TestDAC2Reg => 0x3A,
            Register::TestADCReg => 0x3B,
        }
    }

    /// The address of the register on the chip.
    #[verifier::when_used_as_spec(spec_addr)]
    pub fn addr(self) -> (r: u8)
        ensures
            r == self.spec_addr(),
    {
        match self {
            Register::CommandReg => 0x01,
            Register::ComlEnReg => 0x02,
            Register::DivlEnReg => 0x03,
            Register::ComIrqReg => 0x04,
            Register::DivIrqReg => 0x05,
            Register::ErrorReg => 0x06,
            Register::Status1Reg => 0x07,
            Register::Status2Reg => 0x08,
            Register::FIFODataReg => 0x09,
            Register::FIFOLevelReg => 0x0A,
            Register::WaterLevelReg => 0x0B,
            Register::ControlReg => 0x0C,
            Register::BitFramingReg => 0x0D,
            Register::CollReg => 0x0E,
            Register::ModeReg => 0x11,
            Register::TxModeReg => 0x12,
            Register::RxModeReg => 0x13,
            Register::TxControlReg => 0x14,
            Register::TxASKReg => 0x15,
            Register::TxSelReg => 0x16,
            Register::RxSelReg => 0x17,
            Register::RxThresholdReg => 0x18,
            Register::DemodReg => 0x19,
            Register::MfTxReg => 0x1C,
            Register::MfRxReg => 0x1D,
            Register::SerialSpeedReg => 0x1F,
            Register::CRCResultRegHigh => 0x21,
            Register::CRCResultRegLow => 0x22,
            Register::ModWidthReg => 0x24,
            Register::RFCfgReg => 0x26,
            Register::GsNReg => 0x27,
            Register::CWGsPReg => 0x28,
            Register::ModGsPReg => 0x29,
            Register::TModeReg => 0x2A,
            Register::TPrescalerReg => 0x2B,
            Register::TReloadRegHigh => 0x2C,
            Register::TReloadRegLow => 0x2D,
            Register::TCounterValRegHigh => 0x2E,
            Register::TCounterValRegLow => 0x2F,
            Register::TestSel1Reg => 0x31,
            Register::TestSel2Reg => 0x32,
            Register::TestPinEnReg => 0x33,
            Register::TestPinValueReg => 0x34,
            Register::TestBusReg => 0x35,
            Register::AutoTestReg => 0x36,
            Register::VersionReg => 0x37,
            Register::AnalogTestReg => 0x38,
            Register::TestDAC1Reg => 0x39,
            Register::TestDAC2Reg => 0x3A,
            Register::TestADCReg => 0x3B,
        }
    }
}

/// The commands of the MFRC522, executed by writing their code to `CommandReg`.
#[derive(Debug, Clone, Copy, PartialEq, Eq, Structural)]
pub enum Command {
    /// No action, cancels current command.
    Idle,
    /// Store 25 bytes into the internal buffer.
    Mem,
    /// Generate a 10-byte random ID.
    GenerateRandomId,
    /// Activate the CRC coprocessor.
    CalcCRC,
    /// Transmit data from the FIFO buffer (to the antenna).
    Transmit,
    /// Modify other *CommandReg* bits without affecting the command.
    NoCmdChange,
    /// Activate the receiver circuit.
    Receive,
    /// Transmit data from the FIFO buffer and activate the receiver after transmission.
    Transceive,
    /// Perform MIFARE standard authentication as a reader.
    MFAuthent,
    /// Reset the MFRC522.
    SoftReset,
}

impl Command {
    /// The 4-bit code of the command.
    pub open spec fn spec_code(self) -> u8 {
        match self {
            Command::Idle => 0x0,
            Command::Mem => 0x1,
            Command::GenerateRandomId => 0x2,
            Command::CalcCRC => 0x3,
            Command::Transmit => 0x4,
            Command::NoCmdChange => 0x7,
            Command::Receive => 0x8,
            Command::Transceive => 0xC,
            Command::MFAuthent => 0xE,
            Command::SoftReset => 0xF,
        }
    }

    /// The 4-bit code of the command.
    #[verifier::when_used_as_spec(spec_code)]
    pub fn code(self) -> (r: u8)
        ensures
            r == self.spec_code(),
            r < 16,
    {
        match self {
            Command::Idle => 0x0,
            Command::Mem => 0x1,
            Command::GenerateRandomId => 0x2,
            Command::CalcCRC => 0x3,
            Command::Transmit => 0x4,
            Command::NoCmdChange => 0x7,
            Command::Receive => 0x8,
            Command::Transceive => 0xC,
            Command::MFAuthent => 0xE,
            Command::SoftReset => 0xF,
        }
    }
}

/// CommandReg PowerDown: soft power-down mode entered.
pub const POWER_DOWN: u8 = 0x10;

/// ComIrqReg: the timer decremented the timer value to zero.
pub const TIMER_IRQ: u8 = 0x01;
/// ComIrqReg: an error bit in ErrorReg is set.
pub const ERR_IRQ: u8 = 0x02;
/// ComIrqReg: a command terminated by itself.
pub const IDLE_IRQ: u8 = 0x10;
/// ComIrqReg: the receiver detected the end of a valid data stream.
pub const RX_IRQ: u8 = 0x20;

/// DivIrqReg: the CalcCRC command is active and all data is processed.
pub const CRC_IRQ: u8 = 0x04;

/// ErrorReg: the start of frame is incorrect.
pub const PROTOCOL_ERR: u8 = 0x01;
/// ErrorReg: the parity check failed.
pub const PARITY_ERR: u8 = 0x02;
/// ErrorReg: the CRC calculation failed.
pub const CRC_ERR: u8 = 0x04;
/// ErrorReg: a bit-collision was detected.
pub const COLL_ERR: u8 = 0x08;
/// ErrorReg: data was written to the FIFO buffer while it was full.
pub const BUFFER_OVFL: u8 = 0x10;
/// ErrorReg: the internal temperature sensor detects overheating.
pub const TEMP_ERR: u8 = 0x40;
/// ErrorReg: data was written into the FIFO buffer at an invalid time.
pub const WR_ERR: u8 = 0x80;

/// FIFOLevelReg: clears the FIFO read and write pointers and the BufferOvfl bit.
pub const FLUSH_BUFFER: u8 = 0x80;

/// TxASKReg: forces a 100 % ASK modulation.
pub const FORCE_100_ASK: u8 = 0x40;

} // verus!
