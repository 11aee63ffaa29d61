//! A simulated MFRC522 with cards in its field, for the scenario tests.
#![allow(dead_code)]

use mfrc522::comm::Interface;
use mfrc522::register::Register;

/// CRC_A of ISO/IEC 14443-3, low byte first.
pub fn crc_a(data: &[u8]) -> [u8; 2] {
    let mut crc: u16 = 0x6363;
    for &b in data {
        let mut ch = b ^ (crc as u8);
        ch ^= ch << 4;
        let ch = ch as u16;
        crc = (crc >> 8) ^ (ch << 8) ^ (ch << 3) ^ (ch >> 4);
    }
    [crc as u8, (crc >> 8) as u8]
}

#[derive(Debug, Clone, PartialEq)]
pub enum Op {
    Read(Register, u8),
    ReadMany(Register, Vec<u8>),
    Write(Register, u8),
    WriteMany(Register, Vec<u8>),
}

pub struct Card {
    pub uid: Vec<u8>,
    pub atqa: Vec<u8>,
    pub sak: u8,
    pub key: [u8; 6],
    pub blocks: Vec<[u8; 16]>,
    pub read_only: bool,
    pub corrupt_reads: bool,
    pub answers_halt: bool,
    pub short_reads: bool,
    pub bad_sak_crc: bool,
    pending_write: Option<u8>,
}

impl Card {
    pub fn new(uid: &[u8]) -> Card {
        Card {
            uid: uid.to_vec(),
            atqa: vec![0x04, 0x00],
            sak: 0x08,
            key: [0xFF; 6],
            blocks: vec![[0u8; 16]; 64],
            read_only: false,
            corrupt_reads: false,
            answers_halt: false,
            short_reads: false,
            bad_sak_crc: false,
            pending_write: None,
        }
    }

    /// The 4 UID bytes and the BCC sent at a cascade level.
    fn level_bytes(&self, level: usize) -> Option<[u8; 5]> {
        let u = &self.uid;
        let part: [u8; 4] = match (u.len(), level) {
            (4, 0) => [u[0], u[1], u[2], u[3]],
            (7, 0) | (10, 0) => [0x88, u[0], u[1], u[2]],
            (7, 1) => [u[3], u[4], u[5], u[6]],
            (10, 1) => [0x88, u[3], u[4], u[5]],
            (10, 2) => [u[6], u[7], u[8], u[9]],
            _ => return None,
        };
        Some([part[0], part[1], part[2], part[3], part[0] ^ part[1] ^ part[2] ^ part[3]])
    }

    fn levels(&self) -> usize {
        match self.uid.len() {
            4 => 1,
            7 => 2,
            _ => 3,
        }
    }
}

fn bit(bytes: &[u8], k: usize) -> u8 {
    (bytes[k / 8] >> (k % 8)) & 1
}

/// A reception as the chip reports it.
struct Rx {
    bytes: Vec<u8>,
    valid_bits: u8,
    error: u8,
    coll: u8,
}

pub struct Chip {
    pub cards: Vec<Card>,
    pub log: Vec<Op>,
    /// Every frame transmitted, with the BitFramingReg value that sent it.
    pub frames: Vec<(Vec<u8>, u8)>,
    /// CollReg value reported on every anticollision frame, whatever the cards.
    pub forced_collision: Option<u8>,
    /// ErrorReg value reported after every reception, whatever the cards.
    pub forced_error: Option<u8>,
    pub fail_reads_of: Option<Register>,
    /// A chip that never signals the end of a transmission.
    pub silent: bool,
    fifo: Vec<u8>,
    command: u8,
    com_irq: u8,
    div_irq: u8,
    error: u8,
    control: u8,
    coll: u8,
    crc: [u8; 2],
    status2: u8,
    tx_control: u8,
}

impl Chip {
    pub fn new(cards: Vec<Card>) -> Chip {
        Chip {
            cards,
            log: Vec::new(),
            frames: Vec::new(),
            forced_collision: None,
            forced_error: None,
            fail_reads_of: None,
            silent: false,
            fifo: Vec::new(),
            command: 0,
            com_irq: 0,
            div_irq: 0,
            error: 0,
            control: 0,
            coll: 0,
            crc: [0, 0],
            status2: 0,
            tx_control: 0x80,
        }
    }

    fn anticollision(&mut self, frame: &[u8], level: usize) -> Option<Rx> {
        if let Some(pos) = self.forced_collision {
            return Some(Rx { bytes: vec![0], valid_bits: 0, error: 0x08, coll: pos });
        }
        let nvb = frame[1];
        let known = ((nvb >> 4) as usize - 2) * 8 + (nvb & 7) as usize;
        let sent = &frame[2..];
        let answering: Vec<[u8; 5]> = self
            .cards
            .iter()
            .filter_map(|c| c.level_bytes(level))
            .filter(|b| (0..known).all(|k| bit(b, k) == bit(sent, k)))
            .collect();
        if answering.is_empty() {
            return None;
        }
        let mut bits: Vec<u8> = Vec::new();
        let mut collision: Option<usize> = None;
        for k in known..40 {
            let first = bit(&answering[0], k);
            if answering.iter().any(|b| bit(b, k) != first) {
                collision = Some(k);
                break;
            }
            bits.push(first);
        }
        // the received bits, stored from bit position `known % 8` on
        let align = known % 8;
        let total = align + bits.len() + usize::from(collision.is_some());
        let mut bytes = vec![0u8; (total + 7) / 8];
        for (i, b) in bits.iter().enumerate() {
            bytes[(align + i) / 8] |= b << ((align + i) % 8);
        }
        match collision {
            Some(k) => {
                let pos = (k + 1) as u8;
                Some(Rx { bytes, valid_bits: (total % 8) as u8, error: 0x08, coll: pos % 32 })
            }
            None => Some(Rx { bytes, valid_bits: 0, error: 0, coll: 0 }),
        }
    }

    fn respond(&mut self, frame: &[u8], tx_last_bits: u8) -> Option<Rx> {
        if frame.is_empty() || self.cards.is_empty() {
            return None;
        }
        let ok = |bytes: Vec<u8>| Some(Rx { bytes, valid_bits: 0, error: 0, coll: 0 });
        let ack = || Some(Rx { bytes: vec![0x0A], valid_bits: 4, error: 0, coll: 0 });
        match frame[0] {
            0x26 | 0x52 if frame.len() == 1 && tx_last_bits == 7 => ok(self.cards[0].atqa.clone()),
            0x93 | 0x95 | 0x97 if frame.len() >= 2 => {
                let level = ((frame[0] - 0x93) / 2) as usize;
                if frame[1] == 0x70 {
                    let card = self.cards.iter().find(|c| c.level_bytes(level).map(|b| b.to_vec()) == Some(frame[2..7].to_vec()))?;
                    if frame[7..9] != crc_a(&frame[..7]) {
                        return None;
                    }
                    let sak = if level + 1 < card.levels() { 0x04 } else { card.sak };
                    let mut c = crc_a(&[sak]);
                    if card.bad_sak_crc {
                        c[1] ^= 0x01;
                    }
                    ok(vec![sak, c[0], c[1]])
                } else {
                    self.anticollision(frame, level)
                }
            }
            0x50 => {
                if self.cards[0].answers_halt {
                    ok(vec![0x00])
                } else {
                    None
                }
            }
            0x30 if frame.len() == 4 => {
                let card = &self.cards[0];
                let mut data = card.blocks[frame[1] as usize].to_vec();
                let mut c = crc_a(&data);
                if card.corrupt_reads {
                    c[0] ^= 0xFF;
                }
                data.extend_from_slice(&c);
                if card.short_reads {
                    data.truncate(17);
                }
                ok(data)
            }
            0xA0 if frame.len() == 4 => {
                let card = &mut self.cards[0];
                if card.read_only {
                    return Some(Rx { bytes: vec![0x04], valid_bits: 4, error: 0, coll: 0 });
                }
                card.pending_write = Some(frame[1]);
                ack()
            }
            _ if frame.len() == 18 => {
                let card = &mut self.cards[0];
                let block = card.pending_write.take()?;
                if frame[16..] != crc_a(&frame[..16]) {
                    return None;
                }
                card.blocks[block as usize].copy_from_slice(&frame[..16]);
                ack()
            }
            _ => None,
        }
    }

    fn start_send(&mut self, framing: u8) {
        if self.silent {
            return;
        }
        let frame = self.fifo.clone();
        self.frames.push((frame.clone(), framing));
        self.fifo.clear();
        match self.respond(&frame, framing & 7) {
            None => self.com_irq |= 0x01,
            Some(rx) => {
                self.fifo = rx.bytes;
                self.control = rx.valid_bits;
                self.error = self.forced_error.unwrap_or(rx.error);
                self.coll = rx.coll;
                self.com_irq |= if self.error != 0 { 0x32 } else { 0x30 };
            }
        }
    }

    fn authenticate(&mut self) {
        let f = self.fifo.clone();
        let card = &self.cards[0];
        if f.len() == 12 && f[0] == 0x60 && f[2..8] == card.key && f[8..12] == card.uid[..4] {
            self.status2 |= 0x08;
            self.com_irq |= 0x10;
        } else {
            self.com_irq |= 0x01;
        }
    }
}

impl Interface for Chip {
    type Error = &'static str;

    fn read(&mut self, reg: Register) -> Result<u8, &'static str> {
        if self.fail_reads_of == Some(reg) {
            return Err("bus");
        }
        let v = match reg {
            Register::ComIrqReg => self.com_irq,
            Register::DivIrqReg => self.div_irq,
            Register::ErrorReg => self.error,
            Register::FIFOLevelReg => self.fifo.len() as u8,
            Register::ControlReg => 0x10 | self.control,
            Register::CollReg => self.coll,
            Register::CRCResultRegLow => self.crc[0],
            Register::CRCResultRegHigh => self.crc[1],
            Register::Status2Reg => self.status2,
            Register::TxControlReg => self.tx_control,
            Register::VersionReg => 0x92,
            _ => 0,
        };
        self.log.push(Op::Read(reg, v));
        Ok(v)
    }

    fn read_many<'b>(&mut self, reg: Register, buf: &'b mut [u8]) -> Result<&'b [u8], &'static str> {
        for b in buf.iter_mut() {
            *b = if self.fifo.is_empty() { 0 } else { self.fifo.remove(0) };
        }
        self.log.push(Op::ReadMany(reg, buf.to_vec()));
        Ok(buf)
    }

    fn write(&mut self, reg: Register, val: u8) -> Result<(), &'static str> {
        self.log.push(Op::Write(reg, val));
        match reg {
            Register::CommandReg => {
                self.command = val & 0x0F;
                match self.command {
                    0x3 => {
                        self.crc = crc_a(&self.fifo);
                        self.div_irq |= 0x04;
                    }
                    0xE => self.authenticate(),
                    _ => {}
                }
            }
            Register::ComIrqReg => {
                if val & 0x80 == 0 {
                    self.com_irq &= !val;
                }
            }
            Register::DivIrqReg => {
                if val & 0x80 == 0 {
                    self.div_irq &= !val;
                }
            }
            Register::FIFOLevelReg => {
                if val & 0x80 != 0 {
                    self.fifo.clear();
                }
            }
            Register::BitFramingReg => {
                if val & 0x80 != 0 && self.command == 0xC {
                    self.start_send(val);
                }
            }
            Register::Status2Reg => self.status2 = val,
            Register::TxControlReg => self.tx_control = val,
            _ => {}
        }
        Ok(())
    }

    fn write_many(&mut self, reg: Register, bytes: &[u8]) -> Result<(), &'static str> {
        self.log.push(Op::WriteMany(reg, bytes.to_vec()));
        if reg == Register::FIFODataReg {
            self.fifo.extend_from_slice(bytes);
        }
        Ok(())
    }
}

// ---------------------------------------------------------------- tests

use mfrc522::error::Error;
use mfrc522::picc::{Sak, Type};
use mfrc522::protocol::{
    bit_framing, collision_progress, error_from_register, hlta_outcome, is_standard_anticollision,
    mark_collision_bit,
};
use mfrc522::{FifoData, Initialized, Mfrc522, Uid};

fn driver(cards: Vec<Card>) -> Mfrc522<Chip, Initialized> {
    Mfrc522::new(Chip::new(cards)).init().unwrap()
}

fn bus(d: Mfrc522<Chip, Initialized>) -> Chip {
    d.release()
}

#[test]
fn init_writes_the_documented_settings() {
    let chip = bus(driver(vec![]));
    let writes: Vec<Op> = chip.log.iter().filter(|op| matches!(op, Op::Write(..))).cloned().collect();
    assert_eq!(
        writes,
        vec![
            Op::Write(Register::CommandReg, 0x0F),
            Op::Write(Register::TxModeReg, 0x00),
            Op::Write(Register::RxModeReg, 0x00),
            Op::Write(Register::ModWidthReg, 0x26),
            Op::Write(Register::TModeReg, 0x80),
            Op::Write(Register::TPrescalerReg, 0xA9),
            Op::Write(Register::TReloadRegHigh, 0x03),
            Op::Write(Register::TReloadRegLow, 0xE8),
            Op::Write(Register::TxASKReg, 0x40),
            Op::Write(Register::ModeReg, 0x3D),
            Op::Write(Register::TxControlReg, 0x83),
        ]
    );
}

#[test]
fn version_reads_the_version_register() {
    let mut d = driver(vec![]);
    assert_eq!(d.version(), Ok(0x92));
}

#[test]
fn crc_helper_matches_crc_a() {
    let mut d = driver(vec![]);
    assert_eq!(d.calculate_crc(&[0x50, 0x00]), Ok([0x57, 0xCD]));
    assert_eq!(d.calculate_crc(&[0x30, 0x00]), Ok([0x02, 0xA8]));
}

/// A chip whose CRC coprocessor never finishes.
struct Stuck {
    polls: usize,
}

impl Interface for Stuck {
    type Error = ();

    fn read(&mut self, reg: Register) -> Result<u8, ()> {
        if reg == Register::DivIrqReg {
            self.polls += 1;
        }
        Ok(0)
    }

    fn read_many<'b>(&mut self, _reg: Register, buf: &'b mut [u8]) -> Result<&'b [u8], ()> {
        Ok(buf)
    }

    fn write(&mut self, _reg: Register, _val: u8) -> Result<(), ()> {
        Ok(())
    }

    fn write_many(&mut self, _reg: Register, _bytes: &[u8]) -> Result<(), ()> {
        Ok(())
    }
}

#[test]
fn crc_helper_times_out_after_5000_polls() {
    let mut d = Mfrc522::new(Stuck { polls: 0 });
    assert_eq!(d.calculate_crc(&[1, 2]), Err(Error::Timeout));
    assert_eq!(d.release().polls, 5000);
}

#[test]
fn transceive_frames_partial_bytes() {
    let mut d = driver(vec![Card::new(&[0x12, 0x34, 0x56, 0x78])]);
    // the first 4 bits of the second UID byte are known: send 4 bits of the
    // last byte, and store the answer from bit 4 on
    let r = d.transceive(&[0x93, 0x34, 0x12, 0x04], 4, 4, 5).unwrap();
    // bits 12..39 arrive: 3 whole bytes and the upper half of the first one
    assert_eq!(r.valid_bytes, 4);
    assert_eq!(r.valid_bits, 0);
    assert_eq!(r.buffer[0] & 0xF0, 0x30);
    assert_eq!(&r.buffer[1..4], &[0x56, 0x78, 0x12 ^ 0x34 ^ 0x56 ^ 0x78]);
    let chip = bus(d);
    assert_eq!(chip.frames.last().unwrap().1, 0xC4);
    assert_eq!(bit_framing(4, 4), 0xC4);
    assert_eq!(bit_framing(7, 0), 0x87);
}

#[test]
fn copy_bits_merges_at_an_offset() {
    let fifo = FifoData { buffer: vec![0xA8, 0x11, 0x22, 0, 0], valid_bytes: 3, valid_bits: 0 };
    let mut dst = [0x05u8, 0, 0, 0, 0];
    assert_eq!(fifo.copy_bits_to::<()>(&mut dst, 3), Ok(19));
    assert_eq!(dst, [0xAD, 0x11, 0x22, 0, 0]);

    let mut dst = [0x12u8, 0x07, 0, 0, 0];
    let fifo = FifoData { buffer: vec![0xF0, 0x33], valid_bytes: 2, valid_bits: 5 };
    assert_eq!(fifo.copy_bits_to::<()>(&mut dst, 12), Ok(25));
    assert_eq!(dst, [0x12, 0xF7, 0x33, 0, 0]);

    let empty = FifoData { buffer: vec![0; 5], valid_bytes: 0, valid_bits: 0 };
    assert_eq!(empty.copy_bits_to::<()>(&mut dst, 7), Ok(7));
    assert_eq!(dst, [0x12, 0xF7, 0x33, 0, 0]);
}

#[test]
fn copy_bits_without_room_fails() {
    let fifo = FifoData { buffer: vec![0xFF, 1, 2, 3, 4], valid_bytes: 5, valid_bits: 0 };
    let mut dst = [0x5Au8; 5];
    assert_eq!(fifo.copy_bits_to::<()>(&mut dst, 8), Err(Error::NoRoom));
    // nothing was written
    assert_eq!(dst, [0x5A; 5]);
}

#[test]
fn anticollision_resolves_a_collision_towards_one() {
    let a = Card::new(&[0x12, 0x3C, 0x56, 0x78]);
    let b = Card::new(&[0x12, 0x34, 0x56, 0x78]);
    let mut d = driver(vec![a, b]);
    let atqa = d.reqa().unwrap();
    let uid = d.select(&atqa).unwrap();
    assert_eq!(uid.as_bytes(), &[0x12, 0x3C, 0x56, 0x78]);
    let chip = bus(d);
    let anticollision: Vec<&(Vec<u8>, u8)> =
        chip.frames.iter().filter(|(f, _)| f[0] == 0x93 && f[1] != 0x70).collect();
    assert_eq!(anticollision.len(), 2);
    assert_eq!(anticollision[0], &(vec![0x93, 0x20], 0x80));
    // second round: 12 known bits, bit 11 forced to 1
    assert_eq!(anticollision[1], &(vec![0x93, 0x34, 0x12, 0x0C], 0xC4));
}

#[test]
fn anticollision_without_progress_fails() {
    let mut chip = Chip::new(vec![Card::new(&[1, 2, 3, 4])]);
    chip.forced_collision = Some(12);
    let mut d = Mfrc522::new(chip).init().unwrap();
    let atqa = d.reqa().unwrap();
    assert_eq!(d.select(&atqa), Err(Error::Collision));
    let chip = bus(d);
    // the second collision, at bit 12 again, ends the selection right after
    // CollReg was read
    assert_eq!(chip.log.last(), Some(&Op::Read(Register::CollReg, 12)));
    let rounds = chip.frames.iter().filter(|(f, _)| f[0] == 0x93).count();
    assert_eq!(rounds, 2);
}

#[test]
fn anticollision_with_invalid_position_fails() {
    let mut chip = Chip::new(vec![Card::new(&[1, 2, 3, 4])]);
    chip.forced_collision = Some(0x20);
    let mut d = Mfrc522::new(chip).init().unwrap();
    let atqa = d.reqa().unwrap();
    assert_eq!(d.select(&atqa), Err(Error::Collision));
    assert_eq!(bus(d).log.last(), Some(&Op::Read(Register::CollReg, 0x20)));
}

#[test]
fn collision_progress_needs_progress() {
    assert_eq!(collision_progress::<()>(12, 0), Ok(12));
    assert_eq!(collision_progress::<()>(0, 31), Ok(32));
    assert_eq!(collision_progress::<()>(12, 12), Err(Error::Collision));
    assert_eq!(collision_progress::<()>(5, 12), Err(Error::Collision));
    assert_eq!(collision_progress::<()>(0x2C, 0), Err(Error::Collision));
    let mut uid = [0x12u8, 0x04, 0, 0, 0];
    mark_collision_bit(&mut uid, 12);
    assert_eq!(uid, [0x12, 0x0C, 0, 0, 0]);
    mark_collision_bit(&mut uid, 32);
    assert_eq!(uid, [0x12, 0x0C, 0, 0x80, 0]);
}

#[test]
fn uid_sizes_follow_cascade_levels() {
    for uid in [vec![1u8, 2, 3, 4], vec![1, 2, 3, 4, 5, 6, 7], vec![1, 2, 3, 4, 5, 6, 7, 8, 9, 10]] {
        let mut d = driver(vec![Card::new(&uid)]);
        let atqa = d.reqa().unwrap();
        let got = d.select(&atqa).unwrap();
        assert_eq!(got.as_bytes(), &uid[..]);
        match (&got, uid.len()) {
            (Uid::Single(u), 4) => assert!(!u.is_compliant()),
            (Uid::Double(_), 7) | (Uid::Triple(_), 10) => {}
            _ => panic!("wrong UID size"),
        }
    }
}

#[test]
fn proprietary_anticollision_is_refused() {
    let mut card = Card::new(&[1, 2, 3, 4]);
    card.atqa = vec![0x03, 0x00];
    let mut d = driver(vec![card]);
    let atqa = d.reqa().unwrap();
    assert!(matches!(d.select(&atqa), Err(Error::Proprietary)));
    // nothing was sent after the ATQA was read
    assert!(matches!(bus(d).log.last(), Some(Op::Read(Register::ControlReg, _))));
    assert!(!is_standard_anticollision(0x03));
    assert!(is_standard_anticollision(0x44));
}

#[test]
fn error_register_priority() {
    assert_eq!(error_from_register::<()>(0x00), Ok(()));
    assert_eq!(error_from_register::<()>(0xFF), Err(Error::Protocol));
    assert_eq!(error_from_register::<()>(0xFE), Err(Error::Parity));
    assert_eq!(error_from_register::<()>(0x0C), Err(Error::Crc));
    assert_eq!(error_from_register::<()>(0x18), Err(Error::Collision));
    assert_eq!(error_from_register::<()>(0xD0), Err(Error::BufferOverflow));
    assert_eq!(error_from_register::<()>(0xC0), Err(Error::Overheating));
    assert_eq!(error_from_register::<()>(0x80), Err(Error::Wr));
    assert_eq!(error_from_register::<()>(0x20), Ok(()));
}

#[test]
fn transceive_reports_the_first_error_bit() {
    let mut chip = Chip::new(vec![Card::new(&[1, 2, 3, 4])]);
    chip.forced_error = Some(0x06);
    let mut d = Mfrc522::new(chip).init().unwrap();
    assert!(matches!(d.reqa(), Err(Error::Parity)));
}

#[test]
fn fifo_overflow_is_no_room() {
    let mut d = driver(vec![Card::new(&[1, 2, 3, 4])]);
    let c = crc_a(&[0x30, 0x04]);
    assert!(matches!(d.transceive(&[0x30, 0x04, c[0], c[1]], 0, 0, 2), Err(Error::NoRoom)));
    let chip = bus(d);
    // the FIFO level was read, and no FIFO data after it
    assert_eq!(chip.log.last(), Some(&Op::Read(Register::FIFOLevelReg, 18)));
}

#[test]
fn hlta_timeout_is_success() {
    let mut d = driver(vec![Card::new(&[1, 2, 3, 4])]);
    assert_eq!(d.hlta(), Ok(()));
    let chip = bus(d);
    assert_eq!(chip.frames.last().unwrap().0, vec![0x50, 0x00, 0x57, 0xCD]);
}

#[test]
fn hlta_answer_is_nak() {
    let mut card = Card::new(&[1, 2, 3, 4]);
    card.answers_halt = true;
    let mut d = driver(vec![card]);
    assert_eq!(d.hlta(), Err(Error::Nak));
}

#[test]
fn hlta_outcome_maps_results() {
    assert_eq!(hlta_outcome::<()>(Err(Error::Timeout)), Ok(()));
    let fifo = FifoData { buffer: vec![], valid_bytes: 0, valid_bits: 0 };
    assert_eq!(hlta_outcome::<()>(Ok(fifo)), Err(Error::Nak));
    assert_eq!(hlta_outcome::<u8>(Err(Error::Comm(7))), Err(Error::Comm(7)));
    assert_eq!(hlta_outcome::<()>(Err(Error::Crc)), Err(Error::Nak));
    assert_eq!(hlta_outcome::<()>(Err(Error::Parity)), Err(Error::Nak));
    assert_eq!(hlta_outcome::<()>(Err(Error::PollLimit)), Err(Error::PollLimit));
}

#[test]
fn write_then_read_round_trips() {
    let mut d = driver(vec![Card::new(&[0xDE, 0xAD, 0xBE, 0xEF])]);
    let atqa = d.reqa().unwrap();
    let uid = d.select(&atqa).unwrap();
    d.mf_authenticate(&uid, 4, &[0xFF; 6]).unwrap();
    let data: [u8; 16] = [0, 1, 2, 3, 4, 5, 6, 7, 8, 9, 10, 11, 12, 13, 14, 0xFF];
    d.mf_write(4, data).unwrap();
    assert_eq!(d.mf_read(4), Ok(data));
    d.stop_crypto1().unwrap();
    let chip = bus(d);
    assert_eq!(chip.log.last(), Some(&Op::Write(Register::Status2Reg, 0x00)));
}

#[test]
fn authentication_with_a_wrong_key_times_out() {
    let mut d = driver(vec![Card::new(&[0xDE, 0xAD, 0xBE, 0xEF])]);
    let atqa = d.reqa().unwrap();
    let uid = d.select(&atqa).unwrap();
    assert_eq!(d.mf_authenticate(&uid, 4, &[0x00; 6]), Err(Error::Timeout));
}

#[test]
fn refused_write_is_nak() {
    let mut card = Card::new(&[1, 2, 3, 4]);
    card.read_only = true;
    let mut d = driver(vec![card]);
    assert_eq!(d.mf_write(4, [7; 16]), Err(Error::Nak));
}

#[test]
fn corrupted_read_is_crc_error() {
    let mut card = Card::new(&[1, 2, 3, 4]);
    card.corrupt_reads = true;
    let mut d = driver(vec![card]);
    assert_eq!(d.mf_read(1), Err(Error::Crc));
}

#[test]
fn no_card_times_out() {
    let mut d = driver(vec![]);
    assert!(matches!(d.reqa(), Err(Error::Timeout)));
    assert!(matches!(d.wupa(), Err(Error::Timeout)));
    assert!(matches!(d.new_card_present(), Err(Error::Timeout)));
}

#[test]
fn short_atqa_is_incomplete() {
    let mut card = Card::new(&[1, 2, 3, 4]);
    card.atqa = vec![0x04];
    let mut d = driver(vec![card]);
    assert!(matches!(d.wupa(), Err(Error::IncompleteFrame)));
}

#[test]
fn bus_errors_are_comm() {
    let mut chip = Chip::new(vec![]);
    chip.fail_reads_of = Some(Register::VersionReg);
    let mut d = Mfrc522::new(chip).init().unwrap();
    assert_eq!(d.version(), Err(Error::Comm("bus")));
}

#[test]
fn sak_bits_and_types() {
    let sak = Sak::from(0x20);
    assert!(sak.is_compliant());
    assert!(sak.is_complete());
    assert_eq!(sak.get_type(), Type::Iso14443_4);
    assert!(!Sak::from(0x04).is_complete());
    assert_eq!(Sak::from(0x04).get_type(), Type::NotComplete);
    assert_eq!(Sak::from(0x88).get_type(), Type::Mifare1k);
    assert_eq!(Sak::from(0x11).get_type(), Type::MifarePlus);
    assert_eq!(Sak::from(0x33).get_type(), Type::Unknown);
}

#[test]
fn hlta_protocol_error_is_nak() {
    let mut chip = Chip::new(vec![Card::new(&[1, 2, 3, 4])]);
    chip.cards[0].answers_halt = true;
    chip.forced_error = Some(0x02);
    let mut d = Mfrc522::new(chip).init().unwrap();
    assert_eq!(d.hlta(), Err(Error::Nak));
}

#[test]
fn short_block_read_is_incomplete() {
    let mut card = Card::new(&[1, 2, 3, 4]);
    card.short_reads = true;
    let mut d = driver(vec![card]);
    assert_eq!(d.mf_read(1), Err(Error::IncompleteFrame));
}

#[test]
fn sak_with_a_wrong_crc_fails() {
    let mut card = Card::new(&[1, 2, 3, 4, 5, 6, 7]);
    card.bad_sak_crc = true;
    let mut d = driver(vec![card]);
    let atqa = d.reqa().unwrap();
    assert_eq!(d.select(&atqa), Err(Error::Crc));
    // no second cascade level was started
    let chip = bus(d);
    assert!(chip.frames.iter().all(|(f, _)| f[0] != 0x95));
}

#[test]
fn fifo_read_of_nothing_touches_no_register() {
    let mut d = driver(vec![]);
    assert_eq!(d.fifo_data(0), Ok(FifoData { buffer: vec![], valid_bytes: 0, valid_bits: 0 }));
    let chip = bus(d);
    // the last transaction is still the one that ended initialization
    assert!(matches!(chip.log.last(), Some(Op::Write(Register::TxControlReg, _))));
}

#[test]
fn copy_bits_outside_the_destination_is_no_room() {
    let fifo = FifoData { buffer: vec![0xFF, 1], valid_bytes: 2, valid_bits: 0 };
    let mut dst = [0u8; 2];
    assert_eq!(fifo.copy_bits_to::<()>(&mut dst, 16), Err(Error::NoRoom));
    assert_eq!(dst, [0, 0]);
    // a bit count past 255 does not fit in the result
    let mut big = [0u8; 40];
    let many = FifoData { buffer: vec![7; 33], valid_bytes: 33, valid_bits: 0 };
    assert_eq!(many.copy_bits_to::<()>(&mut big, 0), Err(Error::NoRoom));
    assert_eq!(big, [0u8; 40]);
    // a long destination is fine while the count fits
    let few = FifoData { buffer: vec![9, 8], valid_bytes: 2, valid_bits: 3 };
    assert_eq!(few.copy_bits_to::<()>(&mut big, 8), Ok(19));
    assert_eq!(&big[..3], &[0, 9, 8]);
}

#[test]
fn bus_error_ends_the_operation() {
    let mut chip = Chip::new(vec![Card::new(&[1, 2, 3, 4])]);
    chip.fail_reads_of = Some(Register::ErrorReg);
    let mut d = Mfrc522::new(chip).init().unwrap();
    assert!(matches!(d.reqa(), Err(Error::Comm("bus"))));
    let chip = bus(d);
    // the ComIrqReg poll that woke is the last transaction that completed
    assert!(matches!(chip.log.last(), Some(Op::Read(Register::ComIrqReg, _))));
}

#[test]
fn silent_chip_reaches_the_poll_limit() {
    let mut chip = Chip::new(vec![Card::new(&[1, 2, 3, 4])]);
    chip.silent = true;
    let mut d = Mfrc522::new(chip).init().unwrap();
    assert!(matches!(d.reqa(), Err(Error::PollLimit)));
    // a chip that stops answering is no successful halt
    assert_eq!(d.hlta(), Err(Error::PollLimit));
}
