//! The STIr4200 as seen through its registers: vendor requests on the control
//! endpoint, the sequence that sets the baud rate, and the header of
//! transmitted frames.
//!
//! Registers are written one at a time; the chip does not take several in one
//! request.

use rusb::Direction;
use rusb::Recipient;
use rusb::RequestType;
use vstd::prelude::*;

use crate::bytes;
use crate::sir::framing;
use crate::text;

verus! {

/// Request that reads consecutive registers.
pub const REQ_READ_REG: u8 = 0x01;

/// Request that writes one register.
pub const REQ_WRITE_SINGLE: u8 = 0x03;

pub const REG_MODE: u16 = 1;

pub const REG_PDCLK: u16 = 2;

pub const REG_CTRL1: u16 = 3;

pub const REG_CTRL2: u16 = 4;

pub const REG_FIFOCTL: u16 = 5;

pub const REG_DPLL: u16 = 8;

/// Serial infrared mode.
pub const MODE_SIR: u8 = 0x20;

/// Fast receive.
pub const MODE_FASTRX: u8 = 0x08;

/// Not in reset.
pub const MODE_NRESET: u8 = 0x02;

/// 2400 baud.
pub const MODE_2400: u8 = 0x01;

/// Shutdown mode of the transceiver.
pub const CTRL1_SDMODE: u8 = 0x80;

/// Reset of the modulator.
pub const CTRL1_SRESET: u8 = 0x01;

/// The FIFO transmits.
pub const FIFOCTL_DIR: u8 = 0x10;

/// The FIFO is empty.
pub const FIFOCTL_EMPTY: u8 = 0x04;

/// Value of the DPLL register.
pub const DPLL_TUNING: u8 = 0x15;

/// Address of the endpoint that transmits.
pub const EP_BULK_OUT: u8 = 0x01;

/// Address of the endpoint that receives.
pub const EP_BULK_IN: u8 = 0x82;

/// Way of a control transfer.
#[derive(Debug, Clone, Copy, PartialEq, Eq, Structural)]
pub enum Way {
    ToDevice,
    ToHost,
}

/// Who defines a control request.
#[derive(Debug, Clone, Copy, PartialEq, Eq, Structural)]
pub enum Kind {
    Standard,
    Class,
    Vendor,
    Reserved,
}

/// Whom a control request is for.
#[derive(Debug, Clone, Copy, PartialEq, Eq, Structural)]
pub enum Target {
    Device,
    Interface,
    Endpoint,
    Other,
}

/// The `bmRequestType` byte of a control transfer.
pub open spec fn request_type_byte(way: Way, kind: Kind, target: Target) -> int {
    (match way {
        Way::ToDevice => 0int,
        Way::ToHost => 0x80,
    }) + (match kind {
        Kind::Standard => 0int,
        Kind::Class => 0x20,
        Kind::Vendor => 0x40,
        Kind::Reserved => 0x60,
    }) + (match target {
        Target::Device => 0int,
        Target::Interface => 1,
        Target::Endpoint => 2,
        Target::Other => 3,
    })
}

/// `rusb::request_type`: the `bmRequestType` byte, whose top bit is set on the
/// way to the host, whose next two bits tell who defines the request, and whose
/// low bits tell whom it is for.
#[verifier::external_body]
fn request_type(way: Way, kind: Kind, target: Target) -> (r: u8)
    ensures
        r == request_type_byte(way, kind, target),
{
    let direction = match way { Way::ToDevice => Direction::Out, Way::ToHost => Direction::In };
    let request = match kind {
        Kind::Standard => RequestType::Standard,
        Kind::Class => RequestType::Class,
        Kind::Vendor => RequestType::Vendor,
        Kind::Reserved => RequestType::Reserved,
    };
    let recipient = match target {
        Target::Device => Recipient::Device,
        Target::Interface => Recipient::Interface,
        Target::Endpoint => Recipient::Endpoint,
        Target::Other => Recipient::Other,
    };
    rusb::request_type(direction, request, recipient)
}

/// The setup of a control transfer.
#[derive(Debug, Clone, Copy, PartialEq, Eq, Structural)]
pub struct ControlRequest {
    pub request_type: u8,
    pub request: u8,
    pub value: u16,
    pub index: u16,
}

/// What the chip cannot do or did not say.
#[derive(Debug, Clone, Copy, PartialEq, Eq, Structural)]
pub enum ChipError {
    /// The chip has no clock for this baud rate.
    UnsupportedSpeed,
    /// Fewer registers came back than were asked for.
    ShortRead,
}

/// The clock divisor of a baud rate.
pub open spec fn divisor(speed: u32) -> Option<u8> {
    if speed == 2400 {
        Some(0xDF)
    } else if speed == 9600 {
        Some(0x77)
    } else if speed == 19200 {
        Some(0x3B)
    } else if speed == 38400 {
        Some(0x1D)
    } else if speed == 57600 {
        Some(0x13)
    } else if speed == 115200 {
        Some(0x09)
    } else {
        None
    }
}

/// Gives the clock divisor of a baud rate.
pub fn pdclk_for(speed: u32) -> (r: Option<u8>)
    ensures
        r == divisor(speed),
{
    match speed {
        2400 => Some(0xDF),
        9600 => Some(0x77),
        19200 => Some(0x3B),
        38400 => Some(0x1D),
        57600 => Some(0x13),
        115200 => Some(0x09),
        _ => None,
    }
}

/// The mode register for a baud rate.
pub open spec fn mode(speed: u32) -> u8 {
    (MODE_NRESET + MODE_FASTRX + MODE_SIR + if speed == 2400 {
        MODE_2400 as int
    } else {
        0
    }) as u8
}

/// Gives the mode register for a baud rate.
pub fn mode_for(speed: u32) -> (r: u8)
    ensures
        r == mode(speed),
{
    let mut mode: u8 = MODE_NRESET + MODE_FASTRX + MODE_SIR;
    if speed == 2400 {
        mode = mode + MODE_2400;
    }
    mode
}

/// Settings of the transceiver.
#[derive(Debug, Clone, Copy, PartialEq, Eq, Structural)]
pub struct Stir {
    /// Transmit power: 0 is the highest, 3 the lowest.
    pub tx_power: u8,
    /// Receiver sensitivity: 0 is the most sensitive, 6 the least.
    pub rx_sensitivity: u8,
}

/// A register and what is written to it.
pub type Write = (u16, u8);

/// The transmit power in its place in the first control register.
pub open spec fn power_bits(stir: Stir) -> int {
    2 * (stir.tx_power % 4)
}

/// The sensitivity in its place in the second control register.
pub open spec fn sensitivity_bits(stir: Stir) -> int {
    0x20 * (stir.rx_sensitivity % 8)
}

/// The register writes that set a baud rate.
pub open spec fn speed_change(stir: Stir, speed: u32) -> Seq<Write> {
    seq![
        (REG_CTRL1, CTRL1_SRESET),
        (REG_DPLL, DPLL_TUNING),
        (REG_PDCLK, divisor(speed)->0),
        (REG_MODE, mode(speed)),
        (REG_CTRL1, (CTRL1_SDMODE + power_bits(stir)) as u8),
        (REG_CTRL1, power_bits(stir) as u8),
        (REG_CTRL2, sensitivity_bits(stir) as u8),
    ]
}

/// The header that the chip wants in front of a transmitted frame.
pub open spec fn transmit_header(len: nat) -> Seq<u8> {
    seq![0x55u8, 0xAAu8, (len % 0x100) as u8, (len / 0x100) as u8]
}

impl Stir {
    /// Full transmit power and nearly full sensitivity.
    pub fn new() -> (r: Self)
        ensures
            r.tx_power == 0,
            r.rx_sensitivity == 1,
    {
        Stir { tx_power: 0, rx_sensitivity: 1 }
    }

    /// The request that writes a register; it carries no data.
    pub fn write_reg(&self, reg: u16, value: u8) -> (r: ControlRequest)
        ensures
            r == (ControlRequest {
                request_type: 0x40,
                request: REQ_WRITE_SINGLE,
                value: value as u16,
                index: reg,
            }),
    {
        ControlRequest {
            request_type: request_type(Way::ToDevice, Kind::Vendor, Target::Device),
            request: REQ_WRITE_SINGLE,
            value: value as u16,
            index: reg,
        }
    }

    /// The request that reads registers from `reg` on, as many as bytes are asked
    /// for.
    pub fn read_regs(&self, reg: u16) -> (r: ControlRequest)
        ensures
            r == (ControlRequest {
                request_type: 0xC0,
                request: REQ_READ_REG,
                value: 0,
                index: reg,
            }),
    {
        ControlRequest {
            request_type: request_type(Way::ToHost, Kind::Vendor, Target::Device),
            request: REQ_READ_REG,
            value: 0,
            index: reg,
        }
    }

    /// The value of one register, from the bytes that were read.
    pub fn read_reg(&self, reply: &[u8]) -> (r: Result<u8, ChipError>)
        ensures
            match r {
                Ok(v) => reply@.len() >= 1 && v == reply@[0],
                Err(e) => reply@.len() == 0 && e == ChipError::ShortRead,
            },
    {
        if reply.len() < 1 {
            return Err(ChipError::ShortRead);
        }
        Ok(reply[0])
    }

    /// Control byte and fill level of the FIFO, from the three registers that
    /// were read. The level has thirteen bits.
    pub fn fifo_status(&self, reply: &[u8]) -> (r: Result<(u8, u16), ChipError>)
        ensures
            match r {
                Ok(status) => {
                    &&& reply@.len() >= 3
                    &&& status.0 == reply@[0]
                    &&& status.1 == 0x100 * (reply@[2] % 0x20) + reply@[1]
                },
                Err(e) => reply@.len() < 3 && e == ChipError::ShortRead,
            },
    {
        if reply.len() < 3 {
            return Err(ChipError::ShortRead);
        }
        let count: u16 = 0x100 * (reply[2] % 0x20) as u16 + reply[1] as u16;
        Ok((reply[0], count))
    }

    /// The register writes, in order, that set a baud rate.
    pub fn change_speed(&self, speed: u32) -> (r: Result<Vec<Write>, ChipError>)
        ensures
            match r {
                Ok(writes) => divisor(speed) is Some && writes@ == speed_change(*self, speed),
                Err(e) => divisor(speed) is None && e == ChipError::UnsupportedSpeed,
            },
    {
        let pdclk: u8 = match pdclk_for(speed) {
            Some(d) => d,
            None => {
                return Err(ChipError::UnsupportedSpeed);
            },
        };
        let power: u8 = 2 * (self.tx_power % 4);
        let sensitivity: u8 = 0x20 * (self.rx_sensitivity % 8);
        let writes: Vec<Write> = vec![
            (REG_CTRL1, CTRL1_SRESET),
            (REG_DPLL, DPLL_TUNING),
            (REG_PDCLK, pdclk),
            (REG_MODE, mode_for(speed)),
            (REG_CTRL1, CTRL1_SDMODE + power),
            (REG_CTRL1, power),
            (REG_CTRL2, sensitivity),
        ];
        assert(writes@ =~= speed_change(*self, speed));
        Ok(writes)
    }

    /// What goes to the transmitting endpoint for a frame: the SIR frame behind
    /// the chip's header. `None` if the header cannot hold the length.
    pub fn send_sir(&self, frame: &[u8]) -> (r: Option<Vec<u8>>)
        ensures
            match r {
                Some(out) => {
                    let sir = framing::wrapped(frame@, framing::DEFAULT_XBOFS as nat);
                    &&& sir.len() <= 0xffff
                    &&& out@ == transmit_header(sir.len()) + sir
                },
                None => framing::wrapped(frame@, framing::DEFAULT_XBOFS as nat).len() > 0xffff,
            },
    {
        let sir = framing::async_wrap(frame, framing::DEFAULT_XBOFS);
        let len: usize = sir.len();
        if len > 0xffff {
            return None;
        }
        let mut out: Vec<u8> = vec![0x55, 0xAA, (len % 0x100) as u8, (len / 0x100) as u8];
        assert(out@ =~= transmit_header(len as nat));
        bytes::push_bytes(&mut out, sir.as_slice());
        Some(out)
    }
}

/// A register that is read back after a change of the baud rate.
#[derive(Debug, Clone, Copy, PartialEq, Eq, Structural)]
pub struct Expected {
    pub reg: u16,
    /// What was written.
    pub value: u8,
    /// The bits that keep what was written; the others are the chip's own.
    pub mask: u8,
}

/// The registers that are read back after a change of the baud rate.
pub open spec fn read_back(stir: Stir, speed: u32) -> Seq<Expected> {
    seq![
        Expected { reg: REG_PDCLK, value: divisor(speed)->0, mask: 0xff },
        Expected { reg: REG_MODE, value: mode(speed), mask: 0xff },
        Expected { reg: REG_CTRL2, value: sensitivity_bits(stir) as u8, mask: 0xE0 },
    ]
}

/// The name of a register that is read back.
pub open spec fn register_name(reg: u16) -> Seq<char> {
    if reg == REG_PDCLK {
        "PDCLK"@
    } else if reg == REG_MODE {
        "MODE"@
    } else {
        "CTRL2"@
    }
}

impl Expected {
    /// A value agrees with what was written, in the bits that are kept.
    pub open spec fn accepts(self, v: u8) -> bool {
        v & self.mask == self.value & self.mask
    }

    /// The start of the register's line in the report.
    pub open spec fn line_start(self) -> Seq<char> {
        "  "@ + text::padded_end(register_name(self.reg), 6) + " (reg "@ + text::padded_start(
            text::decimal(self.reg as nat),
            2,
            ' ',
        ) + "): "@
    }

    /// The register's line in the report.
    pub open spec fn line(self, read: Result<u8, Seq<char>>) -> Seq<char> {
        match read {
            Ok(v) => self.line_start() + "wrote 0x"@ + text::zero_hex(self.value as nat, 2)
                + ", read 0x"@ + text::zero_hex(v as nat, 2) + "  "@ + (if self.accepts(v) {
                "OK"@
            } else {
                "MISMATCH"@
            }) + if self.mask != 0xff {
                " (writable bits 0x"@ + text::zero_hex(self.mask as nat, 2) + ")"@
            } else {
                ""@
            },
            Err(e) => self.line_start() + "read error: "@ + e,
        }
    }

    /// Whether a value agrees with what was written, in the bits that are kept.
    pub fn check(&self, v: u8) -> (r: bool)
        ensures
            r == self.accepts(v),
    {
        v & self.mask == self.value & self.mask
    }

    /// The register's line in the report, from the value that was read or the
    /// reason why it could not be read.
    pub fn report(&self, read: &Result<u8, String>) -> (r: String)
        ensures
            r@ == self.line(text::error_view(*read)),
    {
        let name: &str = if self.reg == REG_PDCLK {
            "PDCLK"
        } else if self.reg == REG_MODE {
            "MODE"
        } else {
            "CTRL2"
        };
        let mut start = "  ".to_owned();
        start.append(text::pad_end(name, 6).as_str());
        start.append(" (reg ");
        start.append(
            text::pad_start(text::decimal_text(self.reg as u64).as_str(), 2, ' ').as_str(),
        );
        start.append("): ");
        let mut s = start;
        match read {
            Ok(v) => {
                s.append("wrote 0x");
                s.append(text::zero_hex_text(self.value as u64, 2).as_str());
                s.append(", read 0x");
                s.append(text::zero_hex_text(*v as u64, 2).as_str());
                s.append("  ");
                s.append(if self.check(*v) { "OK" } else { "MISMATCH" });
                let mut note = "".to_owned();
                if self.mask != 0xff {
                    note = " (writable bits 0x".to_owned();
                    note.append(text::zero_hex_text(self.mask as u64, 2).as_str());
                    note.append(")");
                }
                s.append(note.as_str());
            },
            Err(e) => {
                s.append("read error: ");
                s.append(e.as_str());
            },
        }
        s
    }
}

impl Stir {
    /// The registers to read back after a change to a baud rate that the chip
    /// supports.
    pub fn expected(&self, speed: u32) -> (r: Result<Vec<Expected>, ChipError>)
        ensures
            match r {
                Ok(list) => divisor(speed) is Some && list@ == read_back(*self, speed),
                Err(e) => divisor(speed) is None && e == ChipError::UnsupportedSpeed,
            },
    {
        let pdclk: u8 = match pdclk_for(speed) {
            Some(d) => d,
            None => {
                return Err(ChipError::UnsupportedSpeed);
            },
        };
        let list: Vec<Expected> = vec![
            Expected { reg: REG_PDCLK, value: pdclk, mask: 0xff },
            Expected { reg: REG_MODE, value: mode_for(speed), mask: 0xff },
            Expected { reg: REG_CTRL2, value: 0x20 * (self.rx_sensitivity % 8), mask: 0xE0 },
        ];
        assert(list@ =~= read_back(*self, speed));
        Ok(list)
    }
}

/// A register could be read and agrees with what was written.
pub open spec fn agrees(e: Expected, read: Result<u8, String>) -> bool {
    match read {
        Ok(v) => e.accepts(v),
        Err(_) => false,
    }
}

/// Every register could be read and agrees with what was written.
pub open spec fn all_agree(list: Seq<Expected>, reads: Seq<Result<u8, String>>) -> bool {
    forall|k: int| 0 <= k < list.len() ==> #[trigger] agrees(list[k], reads[k])
}

/// Whether every register could be read and agrees with what was written.
pub fn all_ok(list: &Vec<Expected>, reads: &Vec<Result<u8, String>>) -> (r: bool)
    requires
        list@.len() == reads@.len(),
    ensures
        r == all_agree(list@, reads@),
{
    let n: usize = list.len();
    for i in 0..n
        invariant
            n == list@.len(),
            list@.len() == reads@.len(),
            forall|k: int| 0 <= k < i ==> #[trigger] agrees(list@[k], reads@[k]),
    {
        let ok: bool = match &reads[i] {
            Ok(v) => list[i].check(*v),
            Err(_) => false,
        };
        assert(ok == agrees(list@[i as int], reads@[i as int]));
        if !ok {
            return false;
        }
    }
    true
}

/// The line that shows the chip's revision, from the second control register.
pub open spec fn revision_line(ctrl2: u8) -> Seq<char> {
    "  chip REVID (CTRL2 & 0x03) = "@ + text::decimal((ctrl2 % 4) as nat)
}

/// Shows the chip's revision.
pub fn revision_text(ctrl2: u8) -> (r: String)
    ensures
        r@ == revision_line(ctrl2),
{
    let mut s = "  chip REVID (CTRL2 & 0x03) = ".to_owned();
    s.append(text::decimal_text((ctrl2 % 4) as u64).as_str());
    s
}

/// The FIFO transmits.
pub open spec fn transmits(ctl: u8) -> bool {
    ctl / FIFOCTL_DIR % 2 == 1
}

/// The FIFO is empty.
pub open spec fn is_empty(ctl: u8) -> bool {
    ctl / FIFOCTL_EMPTY % 2 == 1
}

/// The line that shows the state of the FIFO.
pub open spec fn fifo_line(ctl: u8, count: u16) -> Seq<char> {
    "  FIFO status: ctl=0x"@ + text::zero_hex(ctl as nat, 2) + " (dir="@ + (if transmits(ctl) {
        "tx"@
    } else {
        "rx"@
    }) + ", empty="@ + (if is_empty(ctl) {
        "true"@
    } else {
        "false"@
    }) + ") count="@ + text::decimal(count as nat)
}

/// Shows the state of the FIFO.
pub fn fifo_text(ctl: u8, count: u16) -> (r: String)
    ensures
        r@ == fifo_line(ctl, count),
{
    let mut s = "  FIFO status: ctl=0x".to_owned();
    s.append(text::zero_hex_text(ctl as u64, 2).as_str());
    s.append(" (dir=");
    s.append(if ctl / FIFOCTL_DIR % 2 == 1 { "tx" } else { "rx" });
    s.append(", empty=");
    s.append(if ctl / FIFOCTL_EMPTY % 2 == 1 { "true" } else { "false" });
    s.append(") count=");
    s.append(text::decimal_text(count as u64).as_str());
    s
}

/// The read-back lines of the first `n` registers.
pub open spec fn read_back_lines(
    list: Seq<Expected>,
    reads: Seq<Result<u8, String>>,
    n: nat,
) -> Seq<char>
    decreases n,
{
    if n == 0 {
        Seq::empty()
    } else {
        read_back_lines(list, reads, (n - 1) as nat) + list[n - 1].line(
            text::error_view(reads[n - 1]),
        ) + "\n"@
    }
}

/// The report on a change of the baud rate: the registers that were read back,
/// the chip's revision if it could be read, the state of the FIFO, and whether
/// all registers agree.
pub open spec fn change_report(
    list: Seq<Expected>,
    reads: Seq<Result<u8, String>>,
    ctrl2: Option<u8>,
    fifo: Result<(u8, u16), String>,
) -> Seq<char> {
    "\nRegister read-back (written vs read):\n"@ + read_back_lines(list, reads, list.len()) + (
    match ctrl2 {
        Some(v) => revision_line(v) + "\n"@,
        None => ""@,
    }) + (match fifo {
        Ok((ctl, count)) => fifo_line(ctl, count),
        Err(e) => "  FIFO status read error: "@ + e@,
    }) + "\n\n"@ + (if all_agree(list, reads) {
        "M2 OK: the registers read back the written values.\n"@
    } else {
        "M2 partial: some registers did not read back as written. This may be normal for certain registers on this chip revision — record the exact values in NOTES.md before proceeding to M3.\n"@
    })
}

/// Reports on a change of the baud rate, from what was read back.
pub fn init_report(
    list: &Vec<Expected>,
    reads: &Vec<Result<u8, String>>,
    ctrl2: Option<u8>,
    fifo: &Result<(u8, u16), String>,
) -> (r: String)
    requires
        list@.len() == reads@.len(),
    ensures
        r@ == change_report(list@, reads@, ctrl2, *fifo),
{
    let mut s = "\nRegister read-back (written vs read):\n".to_owned();
    let mut lines = String::new();
    let n: usize = list.len();
    for i in 0..n
        invariant
            n == list@.len(),
            list@.len() == reads@.len(),
            lines@ == read_back_lines(list@, reads@, i as nat),
    {
        lines.append(list[i].report(&reads[i]).as_str());
        lines.append("\n");
    }
    s.append(lines.as_str());
    match ctrl2 {
        Some(v) => {
            let mut revision = revision_text(v);
            revision.append("\n");
            s.append(revision.as_str());
        },
        None => {
            s.append("");
        },
    }
    match fifo {
        Ok(status) => {
            s.append(fifo_text(status.0, status.1).as_str());
        },
        Err(e) => {
            let mut line = "  FIFO status read error: ".to_owned();
            line.append(e.as_str());
            s.append(line.as_str());
        },
    }
    s.append("\n\n");
    s.append(
        if all_ok(list, reads) {
            "M2 OK: the registers read back the written values.\n"
        } else {
            "M2 partial: some registers did not read back as written. This may be normal for certain registers on this chip revision — record the exact values in NOTES.md before proceeding to M3.\n"
        },
    );
    s
}

/// What is said about a baud rate that the chip does not support.
pub open spec fn unsupported(speed: u32) -> Seq<char> {
    "unsupported speed "@ + text::decimal(speed as nat)
        + " (use 2400/9600/19200/38400/57600/115200)"@
}

/// Says that the chip does not support a baud rate.
pub fn unsupported_text(speed: u32) -> (r: String)
    ensures
        r@ == unsupported(speed),
{
    let mut s = "unsupported speed ".to_owned();
    s.append(text::decimal_text(speed as u64).as_str());
    s.append(" (use 2400/9600/19200/38400/57600/115200)");
    s
}

/// The value that a register has after a list of writes, if it was written.
pub open spec fn written(writes: Seq<Write>, reg: u16) -> Option<u8>
    decreases writes.len(),
{
    if writes.len() == 0 {
        None
    } else if writes.last().0 == reg {
        Some(writes.last().1)
    } else {
        written(writes.drop_last(), reg)
    }
}

/// A chip that keeps what is written passes the read-back: each expected value
/// is the last one written to its register.
pub proof fn read_back_is_what_was_written(stir: Stir, speed: u32, k: int)
    requires
        divisor(speed) is Some,
        0 <= k < 3,
    ensures
        written(speed_change(stir, speed), read_back(stir, speed)[k].reg) == Some(
            read_back(stir, speed)[k].value,
        ),
        read_back(stir, speed)[k].accepts(read_back(stir, speed)[k].value),
{
    let w = speed_change(stir, speed);
    reveal_with_fuel(written, 8);
    assert(w.drop_last() =~= w.take(6));
    assert(w.take(6).drop_last() =~= w.take(5));
    assert(w.take(5).drop_last() =~= w.take(4));
    assert(w.take(4).drop_last() =~= w.take(3));
}

/// Different baud rates have different divisors.
pub proof fn divisors_differ(a: u32, b: u32)
    requires
        divisor(a) is Some,
        divisor(a) == divisor(b),
    ensures
        a == b,
{
}

/// The chip supports six baud rates. At all but the slowest, the divisor plus one
/// times the baud rate is the chip's clock of 1.152 MHz.
pub proof fn six_baud_rates(speed: u32)
    ensures
        divisor(speed) is Some <==> (speed == 2400 || speed == 9600 || speed == 19200 || speed
            == 38400 || speed == 57600 || speed == 115200),
        divisor(speed) is Some && speed != 2400 ==> (divisor(speed)->0 + 1) * speed == 1_152_000,
        divisor(speed) is Some && speed == 2400 ==> divisor(speed)->0 == 0xDF,
{
    if divisor(speed) is Some {
        let d = divisor(speed)->0;
        assert(speed != 2400 ==> (d + 1) * speed == 1_152_000) by (nonlinear_arith)
            requires
                speed == 2400 || (speed == 9600 && d == 0x77) || (speed == 19200 && d == 0x3B) || (
                speed == 38400 && d == 0x1D) || (speed == 57600 && d == 0x13) || (speed == 115200
                    && d == 0x09),
        ;
    }
}

proof fn last_writes(stir: Stir, speed: u32)
    ensures
        ({
            let w = speed_change(stir, speed);
            &&& w.len() == 7
            &&& written(w, 1) == Some(w[3].1)
            &&& written(w, 2) == Some(w[2].1)
            &&& written(w, 3) == Some(w[5].1)
            &&& written(w, 4) == Some(w[6].1)
            &&& written(w, 8) == Some(w[1].1)
        }),
{
    let w = speed_change(stir, speed);
    reveal_with_fuel(written, 8);
    assert(w.drop_last() =~= w.take(6));
    assert(w.take(6).drop_last() =~= w.take(5));
    assert(w.take(5).drop_last() =~= w.take(4));
    assert(w.take(4).drop_last() =~= w.take(3));
    assert(w.take(3).drop_last() =~= w.take(2));
}

/// After a change of the baud rate, the mode register has its 2400-baud bit if
/// and only if the baud rate is 2400; its other bits are SIR mode, fast receive
/// and not in reset, at every baud rate.
pub proof fn mode_bit_tells_2400(stir: Stir, speed: u32)
    requires
        divisor(speed) is Some,
    ensures
        written(speed_change(stir, speed), 1) matches Some(m) && {
            &&& m & 0x01 != 0 <==> speed == 2400
            &&& m & 0xFE == 0x2A
            &&& speed != 2400 ==> m == MODE_NRESET + MODE_FASTRX + MODE_SIR
            &&& speed == 2400 ==> m == MODE_NRESET + MODE_FASTRX + MODE_SIR + MODE_2400
        },
        written(speed_change(stir, speed), 2) == divisor(speed),
{
    last_writes(stir, speed);
    assert(0x2Au8 & 0x01 == 0 && 0x2Au8 & 0xFE == 0x2A && 0x2Bu8 & 0x01 != 0 && 0x2Bu8 & 0xFE
        == 0x2A) by (bit_vector);
}

/// Every change of the baud rate writes the registers in the same order: reset,
/// clock recovery, clock, mode, the transceiver in shutdown and out of it, and
/// the sensitivity. The power stands in bits 1 and 2 of the first control
/// register, the sensitivity in the top three bits of the second.
pub proof fn settings_are_written(stir: Stir, speed: u32)
    requires
        divisor(speed) is Some,
    ensures
        ({
            let w = speed_change(stir, speed);
            &&& w.len() == 7
            &&& w[0] == (3u16, 0x01u8)
            &&& w[1] == (8u16, 0x15u8)
            &&& w[2].0 == 2
            &&& w[3].0 == 1
            &&& w[4].0 == 3 && w[4].1 == w[5].1 + 0x80
            &&& w[5].0 == 3 && w[5].1 == ((stir.tx_power & 3) << 1)
            &&& w[6].0 == 4 && w[6].1 == ((stir.rx_sensitivity & 7) << 5)
        }),
{
    let tx = stir.tx_power;
    let rx = stir.rx_sensitivity;
    assert(2 * (tx % 4) == ((tx & 3) << 1)) by (bit_vector);
    assert(0x20 * (rx % 8) == ((rx & 7) << 5)) by (bit_vector);
}

/// The registers that are read back are the clock, the mode and the second
/// control register. Of the first two every bit counts, of the third the three
/// bits of the sensitivity: a value passes exactly if it agrees there.
pub proof fn read_back_notices_differences(stir: Stir, speed: u32, v: u8)
    requires
        divisor(speed) is Some,
    ensures
        read_back(stir, speed).len() == 3,
        read_back(stir, speed)[0].reg == 2,
        read_back(stir, speed)[1].reg == 1,
        read_back(stir, speed)[2].reg == 4,
        read_back(stir, speed)[0].accepts(v) <==> v == divisor(speed)->0,
        read_back(stir, speed)[1].accepts(v) <==> v == (if speed == 2400 {
            0x2Bu8
        } else {
            0x2A
        }),
        read_back(stir, speed)[2].accepts(v) <==> v >> 5 == stir.rx_sensitivity & 7,
{
    let d = divisor(speed)->0;
    let m = mode(speed);
    let rx = stir.rx_sensitivity;
    assert((v & 0xff == d & 0xff) <==> v == d) by (bit_vector);
    assert((v & 0xff == m & 0xff) <==> v == m) by (bit_vector);
    assert((v & 0xE0 == ((0x20 * (rx % 8)) as u8) & 0xE0) <==> (v >> 5 == rx & 7)) by (bit_vector);
}

/// The header of a transmitted frame gives its length, low byte first.
pub proof fn header_gives_the_length(len: nat)
    requires
        len <= 0xffff,
    ensures
        transmit_header(len).len() == 4,
        transmit_header(len)[0] == 0x55,
        transmit_header(len)[1] == 0xAA,
        transmit_header(len)[2] + 0x100 * transmit_header(len)[3] == len,
{
}

/// The state of the FIFO is in two bits of its control byte: bit 4 while it
/// transmits, bit 2 while it is empty. The line shows them, with the control
/// byte and the fill level.
pub proof fn fifo_bits_are_shown(ctl: u8, count: u16)
    ensures
        transmits(ctl) <==> ctl & 0x10 != 0,
        is_empty(ctl) <==> ctl & 0x04 != 0,
        text::starts_with(
            fifo_line(ctl, count),
            "  FIFO status: ctl=0x"@ + text::zero_hex(ctl as nat, 2) + " (dir="@,
        ),
        ctl & 0x10 != 0 ==> text::occurs(fifo_line(ctl, count), " (dir="@ + "tx"@ + ", empty="@),
        ctl & 0x10 == 0 ==> text::occurs(fifo_line(ctl, count), " (dir="@ + "rx"@ + ", empty="@),
        ctl & 0x04 != 0 ==> text::occurs(fifo_line(ctl, count), ", empty="@ + "true"@ + ") count="@),
        ctl & 0x04 == 0 ==> text::occurs(
            fifo_line(ctl, count),
            ", empty="@ + "false"@ + ") count="@,
        ),
        text::ends_with(fifo_line(ctl, count), ") count="@ + text::decimal(count as nat)),
{
    broadcast use text::group_occurs;

    assert((ctl / 0x10 % 2 == 1) == (ctl & 0x10 != 0)) by (bit_vector);
    assert((ctl / 0x04 % 2 == 1) == (ctl & 0x04 != 0)) by (bit_vector);
    let tail = ") count="@ + text::decimal(count as nat);
    let t = fifo_line(ctl, count);
    assert(t.skip(t.len() - tail.len()) =~= tail);
    let head = "  FIFO status: ctl=0x"@ + text::zero_hex(ctl as nat, 2) + " (dir="@;
    assert(t.take(head.len() as int) =~= head);
}

/// A read-back line shows the value that was written and the one that was read,
/// and says "OK" exactly if they agree in the bits that are kept.
pub proof fn read_back_lines_tell(e: Expected, v: u8)
    ensures
        text::occurs(e.line(Ok(v)), "wrote 0x"@ + text::zero_hex(e.value as nat, 2) + ", read 0x"@),
        v & e.mask == e.value & e.mask ==> text::occurs(
            e.line(Ok(v)),
            text::zero_hex(v as nat, 2) + "  "@ + "OK"@,
        ),
        v & e.mask != e.value & e.mask ==> text::occurs(
            e.line(Ok(v)),
            text::zero_hex(v as nat, 2) + "  "@ + "MISMATCH"@,
        ),
        text::starts_with(e.line(Ok(v)), e.line_start()),
        text::occurs(
            e.line_start(),
            " (reg "@ + text::padded_start(text::decimal(e.reg as nat), 2, ' ') + "): "@,
        ),
        e.mask != 0xff ==> text::ends_with(
            e.line(Ok(v)),
            " (writable bits 0x"@ + text::zero_hex(e.mask as nat, 2) + ")"@,
        ),
{
    broadcast use text::group_occurs;

    let t = e.line(Ok(v));
    assert(t.take(e.line_start().len() as int) =~= e.line_start());
    let tail = " (writable bits 0x"@ + text::zero_hex(e.mask as nat, 2) + ")"@;
    assert(e.mask != 0xff ==> t.skip(t.len() - tail.len()) =~= tail);
}

/// The report's last line calls the change good exactly if every register could
/// be read and agrees, in the bits that are kept, with what was written.
pub proof fn report_ends_with_the_verdict(
    list: Seq<Expected>,
    reads: Seq<Result<u8, String>>,
    ctrl2: Option<u8>,
    fifo: Result<(u8, u16), String>,
)
    requires
        list.len() == reads.len(),
    ensures
        (forall|k: int|
            0 <= k < list.len() ==> #[trigger] reads[k] is Ok && reads[k]->Ok_0 & list[k].mask
                == list[k].value & list[k].mask) ==> text::ends_with(
            change_report(list, reads, ctrl2, fifo),
            "M2 OK: the registers read back the written values.\n"@,
        ),
        (exists|k: int|
            0 <= k < list.len() && (#[trigger] reads[k] is Err || reads[k]->Ok_0 & list[k].mask
                != list[k].value & list[k].mask)) ==> text::ends_with(
            change_report(list, reads, ctrl2, fifo),
            "M2 partial: some registers did not read back as written. This may be normal for certain registers on this chip revision — record the exact values in NOTES.md before proceeding to M3.\n"@,
        ),
{
    let t = change_report(list, reads, ctrl2, fifo);
    let good = "M2 OK: the registers read back the written values.\n"@;
    let bad =
        "M2 partial: some registers did not read back as written. This may be normal for certain registers on this chip revision — record the exact values in NOTES.md before proceeding to M3.\n"@;
    if exists|k: int|
        0 <= k < list.len() && (#[trigger] reads[k] is Err || reads[k]->Ok_0 & list[k].mask
            != list[k].value & list[k].mask) {
        let k = choose|k: int|
            0 <= k < list.len() && (#[trigger] reads[k] is Err || reads[k]->Ok_0 & list[k].mask
                != list[k].value & list[k].mask);
        assert(!agrees(list[k], reads[k]));
        assert(t.skip(t.len() - bad.len()) =~= bad);
    } else {
        assert forall|k: int| 0 <= k < list.len() implies #[trigger] agrees(list[k], reads[k]) by {
            assert(!(reads[k] is Err));
        }
        assert(t.skip(t.len() - good.len()) =~= good);
    }
}

/// The revision is the number in the two lowest bits of the second control
/// register.
pub proof fn revision_is_in_the_low_bits(ctrl2: u8)
    ensures
        text::ends_with(revision_line(ctrl2), "= "@ + text::decimal((ctrl2 & 0x03) as nat)),
{
    reveal_strlit("  chip REVID (CTRL2 & 0x03) = ");
    reveal_strlit("= ");
    assert(ctrl2 % 4 == ctrl2 & 0x03) by (bit_vector);
    let t = revision_line(ctrl2);
    let tail = "= "@ + text::decimal((ctrl2 & 0x03) as nat);
    assert(t.skip(t.len() - tail.len()) =~= tail);
}

/// An unsupported baud rate is named, whatever it is.
pub proof fn unsupported_speeds_are_named(speed: u32)
    ensures
        text::starts_with(
            unsupported(speed),
            "unsupported speed "@ + text::decimal(speed as nat) + " (use "@,
        ),
{
    reveal_strlit(" (use ");
    reveal_strlit(" (use 2400/9600/19200/38400/57600/115200)");
    let t = unsupported(speed);
    let head = "unsupported speed "@ + text::decimal(speed as nat) + " (use "@;
    assert(t.take(head.len() as int) =~= head);
}

} // verus!
