//! The Uwatec Smart dialogue: what is asked of the dive computer, in which order,
//! and what its answers mean.

use vstd::prelude::*;

use super::ttp::u32_le;
use crate::bytes;
use crate::text;

verus! {

pub const CMD_MODEL: u8 = 0x10;

pub const CMD_HARDWARE: u8 = 0x11;

pub const CMD_SOFTWARE: u8 = 0x13;

pub const CMD_SERIAL: u8 = 0x14;

pub const CMD_DEVTIME: u8 = 0x1A;

pub const CMD_HANDSHAKE1: u8 = 0x1B;

pub const CMD_HANDSHAKE2: u8 = 0x1C;

pub const CMD_DATA: u8 = 0xC4;

pub const CMD_SIZE: u8 = 0xC6;

/// Answer to an accepted handshake.
pub const RSP_OK: u8 = 0x01;

/// The question whose answer is awaited.
#[derive(Debug, Clone, Copy, PartialEq, Eq, Structural)]
pub enum Stage {
    Handshake1,
    Handshake2,
    Model,
    Hardware,
    Software,
    Serial,
    Devtime,
    /// Length of the dive memory.
    Size,
    /// Length that the device announces in front of the dive memory.
    DataSize,
    /// The dive memory itself.
    Data,
}

/// What the device said about itself.
#[derive(Debug, Clone, Copy, PartialEq, Eq, Structural)]
pub struct Identity {
    pub model: u8,
    pub hardware: u8,
    pub software: u8,
    pub serial: u32,
    pub devtime: u32,
}

/// A download in progress.
#[derive(Debug, Clone, Copy, PartialEq, Eq, Structural)]
pub struct Download {
    pub stage: Stage,
    /// The answers so far; zero where there is none yet.
    pub identity: Identity,
    /// Length of the dive memory; zero while unknown.
    pub length: u32,
}

/// What to ask of the device.
#[derive(Debug, PartialEq, Eq)]
pub enum Request {
    /// Send a command, then receive `size` bytes.
    Transfer { cmd: u8, params: Vec<u8>, size: usize },
    /// Receive `size` more bytes.
    Receive { size: usize },
}

/// A request as specifications see it.
#[verifier::ext_equal]
pub enum Ask {
    Transfer { cmd: u8, params: Seq<u8>, size: nat },
    Receive { size: nat },
}

impl View for Request {
    type V = Ask;

    open spec fn view(&self) -> Ask {
        match self {
            Request::Transfer { cmd, params, size } => Ask::Transfer {
                cmd: *cmd,
                params: params@,
                size: *size as nat,
            },
            Request::Receive { size } => Ask::Receive { size: *size as nat },
        }
    }
}

/// Ten thousand, little-endian.
pub open spec fn ten_thousand() -> Seq<u8> {
    seq![0x10u8, 0x27u8, 0u8, 0u8]
}

/// Parameters that ask for all dives since the beginning.
pub open spec fn since_ever() -> Seq<u8> {
    seq![0u8, 0u8, 0u8, 0u8] + ten_thousand()
}

/// What is asked at each stage.
pub open spec fn asked(d: Download) -> Ask {
    let none = Seq::<u8>::empty();
    match d.stage {
        Stage::Handshake1 => Ask::Transfer { cmd: CMD_HANDSHAKE1, params: none, size: 1 },
        Stage::Handshake2 => Ask::Transfer {
            cmd: CMD_HANDSHAKE2,
            params: ten_thousand(),
            size: 1,
        },
        Stage::Model => Ask::Transfer { cmd: CMD_MODEL, params: none, size: 1 },
        Stage::Hardware => Ask::Transfer { cmd: CMD_HARDWARE, params: none, size: 1 },
        Stage::Software => Ask::Transfer { cmd: CMD_SOFTWARE, params: none, size: 1 },
        Stage::Serial => Ask::Transfer { cmd: CMD_SERIAL, params: none, size: 4 },
        Stage::Devtime => Ask::Transfer { cmd: CMD_DEVTIME, params: none, size: 4 },
        Stage::Size => Ask::Transfer { cmd: CMD_SIZE, params: since_ever(), size: 4 },
        Stage::DataSize => Ask::Transfer { cmd: CMD_DATA, params: since_ever(), size: 4 },
        Stage::Data => Ask::Receive { size: d.length as nat },
    }
}

/// Number of bytes that answer a request.
pub open spec fn answer_size(a: Ask) -> nat {
    match a {
        Ask::Transfer { size, .. } => size,
        Ask::Receive { size } => size,
    }
}

/// Why a download fails.
#[derive(Debug, Clone, Copy, PartialEq, Eq, Structural)]
pub enum DownloadError {
    /// A handshake was answered with something else than "OK".
    Handshake { number: u8, reply: u8 },
    /// The announced length does not fit the length of the dive memory.
    DataSize { total: u32, expected: u32 },
}

impl DownloadError {
    pub open spec fn spec_message(self) -> Seq<char> {
        match self {
            DownloadError::Handshake { number, reply } => "handshake "@ + text::decimal(
                number as nat,
            ) + " failed (got "@ + text::hex_list(seq![reply]) + ")"@,
            DownloadError::DataSize { total, expected } => "unexpected DATA size: got "@
                + text::decimal(total as nat) + ", expected "@ + text::decimal(expected as nat),
        }
    }

    /// The error in words.
    pub fn message(&self) -> (r: String)
        ensures
            r@ == self.spec_message(),
    {
        match self {
            DownloadError::Handshake { number, reply } => {
                let list: Vec<u8> = vec![*reply];
                assert(list@ =~= seq![*reply]);
                let mut s = "handshake ".to_owned();
                s.append(text::decimal_text(*number as u64).as_str());
                s.append(" failed (got ");
                s.append(text::hex_list_text(list.as_slice()).as_str());
                s.append(")");
                s
            },
            DownloadError::DataSize { total, expected } => {
                let mut s = "unexpected DATA size: got ".to_owned();
                s.append(text::decimal_text(*total as u64).as_str());
                s.append(", expected ");
                s.append(text::decimal_text(*expected as u64).as_str());
                s
            },
        }
    }
}

/// What an answer leads to.
#[derive(Debug, PartialEq, Eq)]
pub enum Step {
    /// Ask on; there may be something to report.
    Next { download: Download, report: Option<String> },
    /// The device holds no dives.
    Empty { notice: String },
    /// The dive memory.
    Complete(Vec<u8>),
    /// The download failed.
    Failed(DownloadError),
}

/// A step as specifications see it.
#[verifier::ext_equal]
pub enum Outcome {
    Next { download: Download, report: Option<Seq<char>> },
    Empty { notice: Seq<char> },
    Complete(Seq<u8>),
    Failed(DownloadError),
}

impl View for Step {
    type V = Outcome;

    open spec fn view(&self) -> Outcome {
        match self {
            Step::Next { download, report } => Outcome::Next {
                download: *download,
                report: text::optional(*report),
            },
            Step::Empty { notice } => Outcome::Empty { notice: notice@ },
            Step::Complete(data) => Outcome::Complete(data@),
            Step::Failed(e) => Outcome::Failed(*e),
        }
    }
}

/// A download before its first answer.
pub open spec fn started() -> Download {
    Download {
        stage: Stage::Handshake1,
        identity: Identity { model: 0, hardware: 0, software: 0, serial: 0, devtime: 0 },
        length: 0,
    }
}

/// The line that describes the device.
pub open spec fn identity_line(id: Identity) -> Seq<char> {
    "Device: model=0x"@ + text::zero_hex(id.model as nat, 2) + " hardware=0x"@ + text::zero_hex(
        id.hardware as nat,
        2,
    ) + " software=0x"@ + text::zero_hex(id.software as nat, 2) + " serial="@ + text::decimal(
        id.serial as nat,
    ) + " devtime="@ + text::decimal(id.devtime as nat)
}

/// The line that tells the length of the dive memory.
pub open spec fn size_line(length: u32) -> Seq<char> {
    "Dive memory size: "@ + text::decimal(length as nat) + " bytes."@
}

/// What an answer leads to.
pub open spec fn outcome(d: Download, reply: Seq<u8>) -> Outcome {
    let id = d.identity;
    let byte = reply[0];
    let word = bytes::le32(reply, 0) as u32;
    match d.stage {
        Stage::Handshake1 => if byte == RSP_OK {
            Outcome::Next { download: Download { stage: Stage::Handshake2, ..d }, report: None }
        } else {
            Outcome::Failed(DownloadError::Handshake { number: 1, reply: byte })
        },
        Stage::Handshake2 => if byte == RSP_OK {
            Outcome::Next {
                download: Download { stage: Stage::Model, ..d },
                report: Some("Handshake OK."@),
            }
        } else {
            Outcome::Failed(DownloadError::Handshake { number: 2, reply: byte })
        },
        Stage::Model => Outcome::Next {
            download: Download {
                stage: Stage::Hardware,
                identity: Identity { model: byte, ..id },
                ..d
            },
            report: None,
        },
        Stage::Hardware => Outcome::Next {
            download: Download {
                stage: Stage::Software,
                identity: Identity { hardware: byte, ..id },
                ..d
            },
            report: None,
        },
        Stage::Software => Outcome::Next {
            download: Download {
                stage: Stage::Serial,
                identity: Identity { software: byte, ..id },
                ..d
            },
            report: None,
        },
        Stage::Serial => Outcome::Next {
            download: Download {
                stage: Stage::Devtime,
                identity: Identity { serial: word, ..id },
                ..d
            },
            report: None,
        },
        Stage::Devtime => Outcome::Next {
            download: Download {
                stage: Stage::Size,
                identity: Identity { devtime: word, ..id },
                ..d
            },
            report: Some(identity_line(Identity { devtime: word, ..id })),
        },
        Stage::Size => if word == 0 {
            Outcome::Empty { notice: size_line(word) + "\nNo dive data on the device."@ }
        } else {
            Outcome::Next {
                download: Download { stage: Stage::DataSize, length: word, ..d },
                report: Some(size_line(word)),
            }
        },
        Stage::DataSize => if word == d.length + 4 {
            Outcome::Next {
                download: Download { stage: Stage::Data, ..d },
                report: Some(
                    "Downloading "@ + text::decimal(d.length as nat) + " bytes..."@,
                ),
            }
        } else {
            Outcome::Failed(
                DownloadError::DataSize { total: word, expected: (d.length + 4) as u32 },
            )
        },
        Stage::Data => Outcome::Complete(reply),
    }
}

fn identity_text(id: Identity) -> (r: String)
    ensures
        r@ == identity_line(id),
{
    let mut s = "Device: model=0x".to_owned();
    s.append(text::zero_hex_text(id.model as u64, 2).as_str());
    s.append(" hardware=0x");
    s.append(text::zero_hex_text(id.hardware as u64, 2).as_str());
    s.append(" software=0x");
    s.append(text::zero_hex_text(id.software as u64, 2).as_str());
    s.append(" serial=");
    s.append(text::decimal_text(id.serial as u64).as_str());
    s.append(" devtime=");
    s.append(text::decimal_text(id.devtime as u64).as_str());
    s
}

fn size_text(length: u32) -> (r: String)
    ensures
        r@ == size_line(length),
{
    let mut s = "Dive memory size: ".to_owned();
    s.append(text::decimal_text(length as u64).as_str());
    s.append(" bytes.");
    s
}

fn four(b0: u8, b1: u8, b2: u8, b3: u8) -> (r: Vec<u8>)
    ensures
        r@ == seq![b0, b1, b2, b3],
{
    let r: Vec<u8> = vec![b0, b1, b2, b3];
    assert(r@ =~= seq![b0, b1, b2, b3]);
    r
}

fn all_dives() -> (r: Vec<u8>)
    ensures
        r@ == since_ever(),
{
    let mut r: Vec<u8> = four(0, 0, 0, 0);
    bytes::push_bytes(&mut r, four(0x10, 0x27, 0, 0).as_slice());
    r
}

impl Download {
    /// A download before its first answer.
    pub fn new() -> (r: Download)
        ensures
            r == started(),
    {
        Download {
            stage: Stage::Handshake1,
            identity: Identity { model: 0, hardware: 0, software: 0, serial: 0, devtime: 0 },
            length: 0,
        }
    }

    fn next(self, stage: Stage) -> (r: Download)
        ensures
            r == (Download { stage, ..self }),
    {
        Download { stage, identity: self.identity, length: self.length }
    }

    /// What to ask now.
    pub fn request(&self) -> (r: Request)
        ensures
            r@ == asked(*self),
    {
        match self.stage {
            Stage::Handshake1 => Request::Transfer {
                cmd: CMD_HANDSHAKE1,
                params: Vec::new(),
                size: 1,
            },
            Stage::Handshake2 => Request::Transfer {
                cmd: CMD_HANDSHAKE2,
                params: four(0x10, 0x27, 0, 0),
                size: 1,
            },
            Stage::Model => Request::Transfer { cmd: CMD_MODEL, params: Vec::new(), size: 1 },
            Stage::Hardware => Request::Transfer {
                cmd: CMD_HARDWARE,
                params: Vec::new(),
                size: 1,
            },
            Stage::Software => Request::Transfer {
                cmd: CMD_SOFTWARE,
                params: Vec::new(),
                size: 1,
            },
            Stage::Serial => Request::Transfer { cmd: CMD_SERIAL, params: Vec::new(), size: 4 },
            Stage::Devtime => Request::Transfer { cmd: CMD_DEVTIME, params: Vec::new(), size: 4 },
            Stage::Size => Request::Transfer { cmd: CMD_SIZE, params: all_dives(), size: 4 },
            Stage::DataSize => Request::Transfer { cmd: CMD_DATA, params: all_dives(), size: 4 },
            Stage::Data => Request::Receive { size: self.length as usize },
        }
    }

    /// Whether [`Download::answer`] can compare the announced length.
    pub fn can_compare(&self) -> (r: bool)
        ensures
            r == (self.stage is DataSize ==> self.length + 4 <= u32::MAX),
    {
        match self.stage {
            Stage::DataSize => self.length <= u32::MAX - 4,
            _ => true,
        }
    }

    /// Takes the answer to the request.
    pub fn answer(self, reply: Vec<u8>) -> (r: Step)
        requires
            reply@.len() == answer_size(asked(self)),
            self.stage is DataSize ==> self.length + 4 <= u32::MAX,
        ensures
            r@ == outcome(self, reply@),
    {
        let id = self.identity;
        match self.stage {
            Stage::Handshake1 => if reply[0] == RSP_OK {
                Step::Next { download: self.next(Stage::Handshake2), report: None }
            } else {
                Step::Failed(DownloadError::Handshake { number: 1, reply: reply[0] })
            },
            Stage::Handshake2 => if reply[0] == RSP_OK {
                Step::Next {
                    download: self.next(Stage::Model),
                    report: Some("Handshake OK.".to_owned()),
                }
            } else {
                Step::Failed(DownloadError::Handshake { number: 2, reply: reply[0] })
            },
            Stage::Model => {
                let mut download = self.next(Stage::Hardware);
                download.identity.model = reply[0];
                Step::Next { download, report: None }
            },
            Stage::Hardware => {
                let mut download = self.next(Stage::Software);
                download.identity.hardware = reply[0];
                Step::Next { download, report: None }
            },
            Stage::Software => {
                let mut download = self.next(Stage::Serial);
                download.identity.software = reply[0];
                Step::Next { download, report: None }
            },
            Stage::Serial => {
                let mut download = self.next(Stage::Devtime);
                download.identity.serial = u32_le(reply.as_slice());
                Step::Next { download, report: None }
            },
            Stage::Devtime => {
                let mut download = self.next(Stage::Size);
                download.identity.devtime = u32_le(reply.as_slice());
                Step::Next { download, report: Some(identity_text(download.identity)) }
            },
            Stage::Size => {
                let length: u32 = u32_le(reply.as_slice());
                let mut report = size_text(length);
                if length == 0 {
                    report.append("\nNo dive data on the device.");
                    return Step::Empty { notice: report };
                }
                let mut download = self.next(Stage::DataSize);
                download.length = length;
                Step::Next { download, report: Some(report) }
            },
            Stage::DataSize => {
                let total: u32 = u32_le(reply.as_slice());
                if total != self.length + 4 {
                    return Step::Failed(
                        DownloadError::DataSize { total, expected: self.length + 4 },
                    );
                }
                let mut report = "Downloading ".to_owned();
                report.append(text::decimal_text(self.length as u64).as_str());
                report.append(" bytes...");
                Step::Next { download: self.next(Stage::Data), report: Some(report) }
            },
            Stage::Data => Step::Complete(reply),
        }
    }
}

/// What a list of answers leads to, from the start of a download.
pub open spec fn dialogue(answers: Seq<Seq<u8>>) -> Outcome
    decreases answers.len(),
{
    if answers.len() == 0 {
        Outcome::Next { download: started(), report: None }
    } else {
        match dialogue(answers.drop_last()) {
            Outcome::Next { download, .. } => outcome(download, answers.last()),
            over => over,
        }
    }
}

/// The answers of a device with these properties and this dive memory.
pub open spec fn device_answers(id: Identity, memory: Seq<u8>) -> Seq<Seq<u8>> {
    seq![
        seq![RSP_OK],
        seq![RSP_OK],
        seq![id.model],
        seq![id.hardware],
        seq![id.software],
        bytes::le32_bytes(id.serial),
        bytes::le32_bytes(id.devtime),
        bytes::le32_bytes(memory.len() as u32),
        bytes::le32_bytes((memory.len() + 4) as u32),
        memory,
    ]
}

/// The commands of a download, in order.
pub open spec fn commands() -> Seq<u8> {
    seq![
        CMD_HANDSHAKE1,
        CMD_HANDSHAKE2,
        CMD_MODEL,
        CMD_HARDWARE,
        CMD_SOFTWARE,
        CMD_SERIAL,
        CMD_DEVTIME,
        CMD_SIZE,
        CMD_DATA,
    ]
}

/// The download after the first `k` of a device's answers.
pub open spec fn reached(id: Identity, length: u32, k: int) -> Download {
    Download {
        stage: if k <= 0 {
            Stage::Handshake1
        } else if k == 1 {
            Stage::Handshake2
        } else if k == 2 {
            Stage::Model
        } else if k == 3 {
            Stage::Hardware
        } else if k == 4 {
            Stage::Software
        } else if k == 5 {
            Stage::Serial
        } else if k == 6 {
            Stage::Devtime
        } else if k == 7 {
            Stage::Size
        } else if k == 8 {
            Stage::DataSize
        } else {
            Stage::Data
        },
        identity: Identity {
            model: if k > 2 {
                id.model
            } else {
                0
            },
            hardware: if k > 3 {
                id.hardware
            } else {
                0
            },
            software: if k > 4 {
                id.software
            } else {
                0
            },
            serial: if k > 5 {
                id.serial
            } else {
                0
            },
            devtime: if k > 6 {
                id.devtime
            } else {
                0
            },
        },
        length: if k > 7 {
            length
        } else {
            0
        },
    }
}

proof fn answer_advances(id: Identity, memory: Seq<u8>, k: int)
    requires
        0 < memory.len() <= u32::MAX - 4,
        0 <= k < 9,
    ensures
        outcome(
            reached(id, memory.len() as u32, k),
            device_answers(id, memory)[k],
        ) matches Outcome::Next { download, .. } && download == reached(
            id,
            memory.len() as u32,
            k + 1,
        ),
{
    bytes::le32_reads_back(id.serial);
    bytes::le32_reads_back(id.devtime);
    bytes::le32_reads_back(memory.len() as u32);
    bytes::le32_reads_back((memory.len() + 4) as u32);
}

proof fn dialogue_reaches(id: Identity, memory: Seq<u8>, k: int)
    requires
        0 < memory.len() <= u32::MAX - 4,
        0 <= k < 10,
    ensures
        dialogue(device_answers(id, memory).take(k)) matches Outcome::Next { download, .. }
            && download == reached(id, memory.len() as u32, k),
    decreases k,
{
    let a = device_answers(id, memory);
    if k > 0 {
        dialogue_reaches(id, memory, k - 1);
        answer_advances(id, memory, k - 1);
        assert(a.take(k).drop_last() =~= a.take(k - 1));
        assert(a.take(k).last() == a[k - 1]);
    }
}

/// With a device that answers as it should, a download asks its nine commands in
/// order, each answer has the length that was asked for, and the download ends
/// with exactly the device's dive memory.
pub proof fn download_gives_the_memory(id: Identity, memory: Seq<u8>)
    requires
        0 < memory.len() <= u32::MAX - 4,
    ensures
        forall|k: int|
            0 <= k < 10 ==> {
                &&& dialogue(#[trigger] device_answers(id, memory).take(k)) is Next
                &&& answer_size(
                    asked(dialogue(device_answers(id, memory).take(k))->download),
                ) == device_answers(id, memory)[k].len()
            },
        forall|k: int|
            0 <= k < 9 ==> (asked(
                dialogue(#[trigger] device_answers(id, memory).take(k))->download,
            ) matches Ask::Transfer { cmd, .. } && cmd == commands()[k]),
        dialogue(device_answers(id, memory).take(9)) matches Outcome::Next { download, .. }
            && download.identity == id && download.length == memory.len(),
        dialogue(device_answers(id, memory)) == Outcome::Complete(memory),
{
    let a = device_answers(id, memory);
    assert forall|k: int| 0 <= k < 10 implies {
        &&& dialogue(#[trigger] a.take(k)) is Next
        &&& answer_size(asked(dialogue(a.take(k))->download)) == a[k].len()
    } by {
        dialogue_reaches(id, memory, k);
    }
    assert forall|k: int| 0 <= k < 9 implies (asked(
        dialogue(#[trigger] a.take(k))->download,
    ) matches Ask::Transfer { cmd, .. } && cmd == commands()[k]) by {
        dialogue_reaches(id, memory, k);
    }
    dialogue_reaches(id, memory, 9);
    assert(a.drop_last() =~= a.take(9));
    assert(a.last() == memory);
}

/// The bytes that a request writes to the stream.
pub open spec fn question(a: Ask) -> Seq<u8> {
    match a {
        Ask::Transfer { cmd, params, .. } => seq![cmd] + params,
        Ask::Receive { .. } => Seq::empty(),
    }
}

/// What each request writes to the stream, and how many bytes answer it.
pub proof fn questions_on_the_wire(d: Download)
    ensures
        ({
            let q = question(asked(d));
            let n = answer_size(asked(d));
            match d.stage {
                Stage::Handshake1 => q == seq![0x1Bu8] && n == 1,
                Stage::Handshake2 => q == seq![0x1Cu8, 0x10u8, 0x27u8, 0u8, 0u8] && n == 1,
                Stage::Model => q == seq![0x10u8] && n == 1,
                Stage::Hardware => q == seq![0x11u8] && n == 1,
                Stage::Software => q == seq![0x13u8] && n == 1,
                Stage::Serial => q == seq![0x14u8] && n == 4,
                Stage::Devtime => q == seq![0x1Au8] && n == 4,
                Stage::Size => q == seq![0xC6u8, 0u8, 0u8, 0u8, 0u8, 0x10u8, 0x27u8, 0u8, 0u8] && n
                    == 4,
                Stage::DataSize => q == seq![0xC4u8, 0u8, 0u8, 0u8, 0u8, 0x10u8, 0x27u8, 0u8, 0u8]
                    && n == 4,
                Stage::Data => q.len() == 0 && n == d.length,
            }
        }),
{
    let q = question(asked(d));
    assert(seq![0x1Bu8] + Seq::<u8>::empty() =~= seq![0x1Bu8]);
    assert(seq![0x10u8] + Seq::<u8>::empty() =~= seq![0x10u8]);
    assert(seq![0x11u8] + Seq::<u8>::empty() =~= seq![0x11u8]);
    assert(seq![0x13u8] + Seq::<u8>::empty() =~= seq![0x13u8]);
    assert(seq![0x14u8] + Seq::<u8>::empty() =~= seq![0x14u8]);
    assert(seq![0x1Au8] + Seq::<u8>::empty() =~= seq![0x1Au8]);
    assert(seq![0x1Cu8] + ten_thousand() =~= seq![0x1Cu8, 0x10u8, 0x27u8, 0u8, 0u8]);
    assert(seq![0xC6u8] + since_ever() =~= seq![
        0xC6u8,
        0u8,
        0u8,
        0u8,
        0u8,
        0x10u8,
        0x27u8,
        0u8,
        0u8,
    ]);
    assert(seq![0xC4u8] + since_ever() =~= seq![
        0xC4u8,
        0u8,
        0u8,
        0u8,
        0u8,
        0x10u8,
        0x27u8,
        0u8,
        0u8,
    ]);
}

/// A handshake is passed with the answer 1 and with no other; any other answer
/// ends the download and is named, with the number of the handshake.
pub proof fn handshakes_need_their_answer(d: Download, reply: u8)
    requires
        d.stage is Handshake1 || d.stage is Handshake2,
    ensures
        outcome(d, seq![reply]) is Next <==> reply == 1,
        outcome(d, seq![reply]) matches Outcome::Next { download, .. } ==> download.stage == (
        if d.stage is Handshake1 {
            Stage::Handshake2
        } else {
            Stage::Model
        }) && download.identity == d.identity && download.length == d.length,
        reply != 1 ==> outcome(d, seq![reply]) == Outcome::Failed(
            DownloadError::Handshake {
                number: if d.stage is Handshake1 {
                    1
                } else {
                    2
                },
                reply,
            },
        ),
{
}

/// The device's answers are kept in the fields that they are about, numbers low
/// byte first, and no answer changes another field.
pub proof fn answers_go_to_their_fields(d: Download, reply: Seq<u8>)
    requires
        d.stage is Model || d.stage is Hardware || d.stage is Software || d.stage is Serial
            || d.stage is Devtime,
        reply.len() == answer_size(asked(d)),
    ensures
        outcome(d, reply) matches Outcome::Next { download, report } && {
            let a = d.identity;
            let b = download.identity;
            let word = reply[0] + 0x100 * reply[1] + 0x1_0000 * reply[2] + 0x100_0000 * reply[3];
            &&& download.length == d.length
            &&& b.model == (if d.stage is Model {
                reply[0]
            } else {
                a.model
            })
            &&& b.hardware == (if d.stage is Hardware {
                reply[0]
            } else {
                a.hardware
            })
            &&& b.software == (if d.stage is Software {
                reply[0]
            } else {
                a.software
            })
            &&& b.serial == (if d.stage is Serial {
                word
            } else {
                a.serial as int
            })
            &&& b.devtime == (if d.stage is Devtime {
                word
            } else {
                a.devtime as int
            })
            &&& d.stage is Devtime ==> report == Some(identity_line(b))
        },
{
}

/// A memory of length zero ends the download. Otherwise the announced length must
/// be four more than the memory's length, or the download fails with both
/// numbers; and what was received last is what the download gives.
pub proof fn lengths_must_agree(d: Download, n: u32, memory: Seq<u8>)
    requires
        d.length <= u32::MAX - 4,
    ensures
        d.stage is Size ==> {
            &&& outcome(d, bytes::le32_bytes(n)) is Empty <==> n == 0
            &&& n != 0 ==> (outcome(d, bytes::le32_bytes(n)) matches Outcome::Next { download, .. }
                && download.length == n && download.stage is DataSize && download.identity
                == d.identity)
        },
        d.stage is DataSize ==> {
            &&& outcome(d, bytes::le32_bytes(n)) is Next <==> n == d.length + 4
            &&& n == d.length + 4 ==> (outcome(d, bytes::le32_bytes(n)) matches Outcome::Next {
                download,
                ..
            } && download.stage is Data && download.length == d.length)
            &&& n != d.length + 4 ==> outcome(d, bytes::le32_bytes(n)) == Outcome::Failed(
                DownloadError::DataSize { total: n, expected: (d.length + 4) as u32 },
            )
        },
        d.stage is Data ==> outcome(d, memory) == Outcome::Complete(memory),
{
    bytes::le32_reads_back(n);
}

/// The line about the device shows all that it said about itself: three bytes in
/// hexadecimal and two numbers in decimal.
pub proof fn identity_is_shown(id: Identity)
    ensures
        text::starts_with(
            identity_line(id),
            "Device: model=0x"@ + text::zero_hex(id.model as nat, 2) + " hardware=0x"@,
        ),
        text::occurs(
            identity_line(id),
            " hardware=0x"@ + text::zero_hex(id.hardware as nat, 2) + " software=0x"@,
        ),
        text::occurs(
            identity_line(id),
            " software=0x"@ + text::zero_hex(id.software as nat, 2) + " serial="@,
        ),
        text::occurs(
            identity_line(id),
            " serial="@ + text::decimal(id.serial as nat) + " devtime="@,
        ),
        text::ends_with(identity_line(id), " devtime="@ + text::decimal(id.devtime as nat)),
{
    broadcast use text::group_occurs;

    let t = identity_line(id);
    let head = "Device: model=0x"@ + text::zero_hex(id.model as nat, 2) + " hardware=0x"@;
    let tail = " devtime="@ + text::decimal(id.devtime as nat);
    assert(t.take(head.len() as int) =~= head);
    assert(t.skip(t.len() - tail.len()) =~= tail);
}

/// The length of the dive memory is shown when it is known and when its download
/// starts.
pub proof fn lengths_are_shown(d: Download, n: u32)
    requires
        d.length <= u32::MAX - 4,
    ensures
        text::occurs(
            size_line(n),
            "Dive memory size: "@ + text::decimal(n as nat) + " bytes."@,
        ),
        d.stage is Size && n != 0 ==> (outcome(d, bytes::le32_bytes(n)) matches Outcome::Next {
            report,
            ..
        } && report == Some(size_line(n))),
        d.stage is DataSize && n == d.length + 4 ==> (outcome(
            d,
            bytes::le32_bytes(n),
        ) matches Outcome::Next { report: Some(t), .. } && text::occurs(
            t,
            "Downloading "@ + text::decimal(d.length as nat) + " bytes..."@,
        )),
{
    broadcast use text::group_occurs;

    bytes::le32_reads_back(n);
}

/// A failed download is told with the numbers that it failed on.
pub proof fn failures_are_told(number: u8, reply: u8, total: u32, expected: u32)
    ensures
        ({
            let t = (DownloadError::Handshake { number, reply }).spec_message();
            &&& text::starts_with(t, "handshake "@ + text::decimal(number as nat) + " failed (got "@)
            &&& text::ends_with(t, " failed (got "@ + text::hex_list(seq![reply]) + ")"@)
        }),
        ({
            let t = (DownloadError::DataSize { total, expected }).spec_message();
            &&& text::starts_with(
                t,
                "unexpected DATA size: got "@ + text::decimal(total as nat) + ", expected "@,
            )
            &&& text::ends_with(t, ", expected "@ + text::decimal(expected as nat))
        }),
{
    let t = (DownloadError::Handshake { number, reply }).spec_message();
    let head = "handshake "@ + text::decimal(number as nat) + " failed (got "@;
    let tail = " failed (got "@ + text::hex_list(seq![reply]) + ")"@;
    assert(t.take(head.len() as int) =~= head);
    assert(t.skip(t.len() - tail.len()) =~= tail);
    let u = (DownloadError::DataSize { total, expected }).spec_message();
    let first = "unexpected DATA size: got "@ + text::decimal(total as nat) + ", expected "@;
    let last = ", expected "@ + text::decimal(expected as nat);
    assert(u.take(first.len() as int) =~= first);
    assert(u.skip(u.len() - last.len()) =~= last);
}

} // verus!
