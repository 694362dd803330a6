//! TinyTP session over IrLMP: connection to the dive computer's service,
//! credit-based flow control and the application byte stream.
//!
//! A session never talks to the link itself. It hands out the PDU to send and is
//! given what the link answered, so each exchange is a pair of calls.

use vstd::prelude::*;
use vstd::slice::slice_subrange;
use vstd::slice::slice_to_vec;

use crate::bytes;
use crate::text;

verus! {

/// Marks a control PDU in the destination byte.
pub const CONTROL_BIT: u8 = 0x80;

/// Connect request.
pub const CONNECT_CMD: u8 = 0x01;

/// Connect confirmation.
pub const CONNECT_CNF: u8 = 0x81;

/// Disconnect indication.
pub const LMP_DISCONNECT: u8 = 0x02;

/// Service access point of the dive download on the device.
pub const DEVICE_LSAP: u8 = 1;

/// Our own service access point.
pub const OUR_LSAP: u8 = 5;

/// Credit that the device is given at first, and kept at.
pub const CREDIT_TARGET: i32 = 127;

/// Polls for the connect confirmation after the request itself.
pub const CONNECT_POLLS: u32 = 20;

/// Exchanges in a row without data after which the device counts as stalled.
pub const MAX_MISSES: u32 = 2000;

/// Distance in bytes between two progress reports.
pub const REPORT_STEP: usize = 16384;

/// The little-endian number in the first four bytes.
pub fn u32_le(b: &[u8]) -> (r: u32)
    requires
        b@.len() >= 4,
    ensures
        r == bytes::le32(b@, 0),
{
    bytes::from_le32(b[0], b[1], b[2], b[3])
}

/// Control PDU that asks for a connection and grants `credit`.
pub open spec fn connect_pdu(credit: u8) -> Seq<u8> {
    seq![
        (DEVICE_LSAP + CONTROL_BIT) as u8,
        OUR_LSAP,
        CONNECT_CMD,
        0u8,
        (credit % 0x80) as u8,
    ]
}

/// Data PDU around a TinyTP header and its data.
pub open spec fn data_pdu(ttp: Seq<u8>) -> Seq<u8> {
    seq![DEVICE_LSAP, OUR_LSAP] + ttp
}

/// Builds the control PDU that asks for a connection; only the low seven bits of
/// the credit are sent.
pub fn lmp_connect(initial_credit: u8) -> (r: Vec<u8>)
    ensures
        r@ == connect_pdu(initial_credit),
{
    let r: Vec<u8> = vec![
        DEVICE_LSAP + CONTROL_BIT,
        OUR_LSAP,
        CONNECT_CMD,
        0,
        initial_credit % 0x80,
    ];
    assert(r@ =~= connect_pdu(initial_credit));
    r
}

/// Builds a data PDU around a TinyTP header and its data.
pub fn lmp_data(ttp: &[u8]) -> (r: Vec<u8>)
    ensures
        r@ == data_pdu(ttp@),
{
    let mut f: Vec<u8> = vec![DEVICE_LSAP, OUR_LSAP];
    assert(f@ =~= seq![DEVICE_LSAP, OUR_LSAP]);
    bytes::push_bytes(&mut f, ttp);
    f
}

/// What a received PDU says.
#[derive(Debug, PartialEq, Eq)]
pub enum Incoming {
    /// The connection is confirmed; the device grants this credit.
    ConnectCnf(i32),
    /// The device ends the connection.
    Disconnect,
    /// Data, and the credit granted with it.
    Data { data: Vec<u8>, credit: i32 },
    /// Nothing for this session.
    Ignored,
}

/// A received PDU as specifications see it.
#[verifier::ext_equal]
pub enum Message {
    ConnectCnf(int),
    Disconnect,
    Data { data: Seq<u8>, credit: int },
    Ignored,
}

impl View for Incoming {
    type V = Message;

    open spec fn view(&self) -> Message {
        match self {
            Incoming::ConnectCnf(credit) => Message::ConnectCnf(*credit as int),
            Incoming::Disconnect => Message::Disconnect,
            Incoming::Data { data, credit } => Message::Data { data: data@, credit: *credit as int },
            Incoming::Ignored => Message::Ignored,
        }
    }
}

/// What the bytes of a PDU say to this session.
pub open spec fn message(body: Seq<u8>) -> Message {
    if body.len() < 2 || body[0] % 0x80 != OUR_LSAP {
        Message::Ignored
    } else if body[0] >= CONTROL_BIT {
        if body.len() >= 3 && body[2] == CONNECT_CNF {
            Message::ConnectCnf(
                if body.len() >= 5 {
                    (body[4] % 0x80) as int
                } else {
                    0
                },
            )
        } else if body.len() >= 3 && body[2] == LMP_DISCONNECT {
            Message::Disconnect
        } else {
            Message::Ignored
        }
    } else if body.len() < 3 {
        Message::Ignored
    } else {
        Message::Data { data: body.skip(3), credit: (body[2] % 0x80) as int }
    }
}

/// What an answer of the link says; it may be without a PDU.
pub open spec fn heard(info: Option<Seq<u8>>) -> Message {
    match info {
        Some(body) => message(body),
        None => Message::Ignored,
    }
}

/// A TinyTP session.
#[derive(Debug, PartialEq, Eq)]
pub struct Ttp {
    /// Data PDUs that the device may still send.
    pub remote_credit: i32,
    /// Data PDUs that we may still send.
    pub send_credit: i32,
    /// Received bytes that nobody has taken yet.
    pub rx: Vec<u8>,
}

/// A session as specifications see it.
#[verifier::ext_equal]
pub struct Session {
    pub remote_credit: int,
    pub send_credit: int,
    pub rx: Seq<u8>,
}

impl View for Ttp {
    type V = Session;

    open spec fn view(&self) -> Session {
        Session {
            remote_credit: self.remote_credit as int,
            send_credit: self.send_credit as int,
            rx: self.rx@,
        }
    }
}

/// The session after a PDU.
pub open spec fn absorbed(s: Session, m: Message) -> Session {
    match m {
        Message::Data { data, credit } => Session {
            remote_credit: s.remote_credit - 1,
            send_credit: s.send_credit + credit,
            rx: s.rx + data,
        },
        Message::ConnectCnf(credit) => Session { send_credit: s.send_credit + credit, ..s },
        _ => s,
    }
}

/// The credits of a session are within the range of their type.
pub open spec fn in_range(s: Session) -> bool {
    i32::MIN <= s.remote_credit <= i32::MAX && i32::MIN <= s.send_credit <= i32::MAX
}

/// The session after one of our credits has been spent.
pub open spec fn spent(s: Session) -> Session {
    Session { send_credit: s.send_credit - 1, ..s }
}

/// What tops the device's credit up to its target, as far as one PDU can.
pub open spec fn grant(s: Session) -> int {
    let missing = CREDIT_TARGET - s.remote_credit;
    if missing < 0 {
        0
    } else if missing > 127 {
        127
    } else {
        missing
    }
}

/// The session after the device's credit has been topped up.
pub open spec fn topped_up(s: Session) -> Session {
    Session { remote_credit: s.remote_credit + grant(s), ..s }
}

/// The device's credit is one that a running session can have.
pub open spec fn sound(s: Session) -> bool {
    0 <= s.remote_credit <= CREDIT_TARGET
}

impl Ttp {
    /// Reads a PDU.
    pub fn parse(&self, body: &[u8]) -> (r: Incoming)
        ensures
            r@ == message(body@),
    {
        let n: usize = body.len();
        if n < 2 || body[0] % 0x80 != OUR_LSAP {
            return Incoming::Ignored;
        }
        if body[0] >= CONTROL_BIT {
            if n >= 3 && body[2] == CONNECT_CNF {
                let credit: u8 = if n >= 5 { body[4] % 0x80 } else { 0 };
                return Incoming::ConnectCnf(credit as i32);
            }
            if n >= 3 && body[2] == LMP_DISCONNECT {
                return Incoming::Disconnect;
            }
            return Incoming::Ignored;
        }
        if n < 3 {
            return Incoming::Ignored;
        }
        let data: Vec<u8> = slice_to_vec(slice_subrange(body, 3, n));
        assert(data@ =~= body@.skip(3));
        Incoming::Data { data, credit: (body[2] % 0x80) as i32 }
    }

    fn hear(&self, info: &Option<Vec<u8>>) -> (r: Incoming)
        ensures
            r@ == heard(bytes::optional(*info)),
    {
        match info {
            Some(body) => self.parse(body.as_slice()),
            None => Incoming::Ignored,
        }
    }

    fn fits(&self, inc: &Incoming) -> (r: bool)
        ensures
            r == in_range(absorbed(self@, inc@)),
    {
        match inc {
            Incoming::Data { data: _, credit } => self.remote_credit > i32::MIN
                && self.send_credit.checked_add(*credit).is_some(),
            Incoming::ConnectCnf(credit) => self.send_credit.checked_add(*credit).is_some(),
            _ => true,
        }
    }

    /// Counts the credits of a PDU and takes over its data.
    pub fn absorb(&mut self, inc: &Incoming)
        requires
            in_range(absorbed(old(self)@, inc@)),
        ensures
            final(self)@ == absorbed(old(self)@, inc@),
    {
        match inc {
            Incoming::Data { data, credit } => {
                self.remote_credit = self.remote_credit - 1;
                self.send_credit = self.send_credit + *credit;
                bytes::push_bytes(&mut self.rx, data.as_slice());
            },
            Incoming::ConnectCnf(credit) => {
                self.send_credit = self.send_credit + *credit;
            },
            _ => {},
        }
    }

    fn top_up(&mut self) -> (r: u8)
        requires
            CREDIT_TARGET - old(self).remote_credit <= i32::MAX,
        ensures
            r == grant(old(self)@),
            final(self)@ == topped_up(old(self)@),
    {
        let missing: i32 = CREDIT_TARGET - self.remote_credit;
        let grant: i32 = if missing < 0 {
            0
        } else if missing > 127 {
            127
        } else {
            missing
        };
        self.remote_credit = self.remote_credit + grant;
        grant as u8
    }
}

/// Why a session fails.
#[derive(Debug, Clone, Copy, PartialEq, Eq, Structural)]
pub enum TtpError {
    /// The device answered the connect request with a disconnect.
    Refused,
    /// The connect request was never confirmed.
    NoConfirmation,
    /// The device has granted us no credit for another data PDU.
    OutOfCredit,
    /// The device disconnected while data was awaited.
    Disconnected,
    /// Too many exchanges brought no data.
    Stalled { received: usize, expected: usize },
}

impl TtpError {
    pub open spec fn spec_message(self) -> Seq<char> {
        match self {
            TtpError::Refused => "device refused TTP connection (disconnect)"@,
            TtpError::NoConfirmation => "no TTP CONNECT_CNF received"@,
            TtpError::OutOfCredit => "out of TTP send credit"@,
            TtpError::Disconnected => "device disconnected during transfer"@,
            TtpError::Stalled { received, expected } => "device stopped sending after "@
                + text::decimal(received as nat) + " of "@ + text::decimal(expected as nat)
                + " bytes"@,
        }
    }

    /// The error in words.
    pub fn message(&self) -> (r: String)
        ensures
            r@ == self.spec_message(),
    {
        match self {
            TtpError::Refused => "device refused TTP connection (disconnect)".to_owned(),
            TtpError::NoConfirmation => "no TTP CONNECT_CNF received".to_owned(),
            TtpError::OutOfCredit => "out of TTP send credit".to_owned(),
            TtpError::Disconnected => "device disconnected during transfer".to_owned(),
            TtpError::Stalled { received, expected } => {
                let mut s = "device stopped sending after ".to_owned();
                s.append(text::decimal_text(*received as u64).as_str());
                s.append(" of ");
                s.append(text::decimal_text(*expected as u64).as_str());
                s.append(" bytes");
                s
            },
        }
    }
}

/// A connection that is being brought up.
#[derive(Debug, PartialEq, Eq)]
pub struct Connecting {
    pub ttp: Ttp,
    /// Answers taken so far; the first one is to the request, the others are to
    /// polls.
    pub taken: u32,
}

/// What comes after an answer while connecting.
#[derive(Debug, PartialEq, Eq)]
pub enum Connect {
    /// Poll the link once more.
    Poll(Connecting),
    /// The session is up.
    Up(Ttp),
    /// The connection failed.
    Failed(TtpError),
}

/// A connection attempt as specifications see it.
#[verifier::ext_equal]
pub enum Attempt {
    Poll { session: Session, taken: nat },
    Up(Session),
    Failed(TtpError),
}

impl View for Connect {
    type V = Attempt;

    open spec fn view(&self) -> Attempt {
        match self {
            Connect::Poll(c) => Attempt::Poll { session: c.ttp@, taken: c.taken as nat },
            Connect::Up(ttp) => Attempt::Up(ttp@),
            Connect::Failed(e) => Attempt::Failed(*e),
        }
    }
}

/// A new session: the device holds its first credit, we hold none.
pub open spec fn opened() -> Session {
    Session { remote_credit: CREDIT_TARGET as int, send_credit: 0, rx: Seq::empty() }
}

/// The attempt after one more answer. A disconnect counts only as the answer to
/// a poll, not as the one to the request.
pub open spec fn attempt_after(s: Session, taken: nat, m: Message) -> Attempt {
    if m is ConnectCnf {
        Attempt::Up(absorbed(s, m))
    } else if m is Disconnect && taken > 0 {
        Attempt::Failed(TtpError::Refused)
    } else if taken >= CONNECT_POLLS {
        Attempt::Failed(TtpError::NoConfirmation)
    } else {
        Attempt::Poll { session: absorbed(s, m), taken: taken + 1 }
    }
}

impl Connecting {
    /// Few enough answers have been taken, and they explain the credits.
    pub open spec fn wf(&self) -> bool {
        &&& self.taken <= CONNECT_POLLS
        &&& CREDIT_TARGET - self.taken <= self.ttp.remote_credit <= CREDIT_TARGET
        &&& 0 <= self.ttp.send_credit <= 127 * self.taken
    }

    /// Takes the answer to the connect request or to a poll.
    pub fn reply(self, info: Option<Vec<u8>>) -> (r: Connect)
        requires
            self.wf(),
        ensures
            r@ == attempt_after(self.ttp@, self.taken as nat, heard(bytes::optional(info))),
            r matches Connect::Poll(c) ==> c.wf(),
            r matches Connect::Up(ttp) ==> sound(ttp@),
    {
        let mut ttp = self.ttp;
        let inc = ttp.hear(&info);
        match inc {
            Incoming::ConnectCnf(_) => {
                ttp.absorb(&inc);
                return Connect::Up(ttp);
            },
            Incoming::Disconnect => {
                if self.taken > 0 {
                    return Connect::Failed(TtpError::Refused);
                }
            },
            _ => {},
        }
        if self.taken >= CONNECT_POLLS {
            return Connect::Failed(TtpError::NoConfirmation);
        }
        ttp.absorb(&inc);
        Connect::Poll(Connecting { ttp, taken: self.taken + 1 })
    }
}

impl Ttp {
    /// Starts a session: the PDU to send, and the attempt that takes the answers.
    pub fn connect() -> (r: (Vec<u8>, Connecting))
        ensures
            r.0@ == connect_pdu(CREDIT_TARGET as u8),
            r.1.ttp@ == opened(),
            r.1.taken == 0,
            r.1.wf(),
    {
        let ttp = Ttp { remote_credit: CREDIT_TARGET, send_credit: 0, rx: Vec::new() };
        assert(ttp@ =~= opened());
        (lmp_connect(CREDIT_TARGET as u8), Connecting { ttp, taken: 0 })
    }

    /// Wraps an application payload in a data PDU, together with the credit that
    /// the device is missing. Fails without credit of our own.
    pub fn send(&mut self, payload: &[u8]) -> (r: Result<Vec<u8>, TtpError>)
        requires
            old(self).send_credit <= 0 || CREDIT_TARGET - old(self).remote_credit <= i32::MAX,
        ensures
            match r {
                Ok(pdu) => {
                    &&& old(self).send_credit > 0
                    &&& pdu@ == data_pdu(seq![grant(old(self)@) as u8] + payload@)
                    &&& final(self)@ == topped_up(old(self)@)
                },
                Err(e) => {
                    &&& old(self).send_credit <= 0
                    &&& e == TtpError::OutOfCredit
                    &&& *final(self) == *old(self)
                },
            },
    {
        if self.send_credit <= 0 {
            return Err(TtpError::OutOfCredit);
        }
        let grant: u8 = self.top_up();
        let mut ttp: Vec<u8> = vec![grant];
        assert(ttp@ =~= seq![grant]);
        bytes::push_bytes(&mut ttp, payload);
        Ok(lmp_data(ttp.as_slice()))
    }

    /// Wraps a command and its parameters in a data PDU, as [`Ttp::send`] does.
    pub fn transfer(&mut self, cmd: u8, params: &[u8]) -> (r: Result<Vec<u8>, TtpError>)
        requires
            old(self).send_credit <= 0 || CREDIT_TARGET - old(self).remote_credit <= i32::MAX,
        ensures
            match r {
                Ok(pdu) => {
                    &&& old(self).send_credit > 0
                    &&& pdu@ == data_pdu(seq![grant(old(self)@) as u8] + (seq![cmd] + params@))
                    &&& final(self)@ == topped_up(old(self)@)
                },
                Err(e) => {
                    &&& old(self).send_credit <= 0
                    &&& e == TtpError::OutOfCredit
                    &&& *final(self) == *old(self)
                },
            },
    {
        let mut payload: Vec<u8> = vec![cmd];
        assert(payload@ =~= seq![cmd]);
        bytes::push_bytes(&mut payload, params);
        self.send(payload.as_slice())
    }

    /// Whether [`Ttp::sent`] can count the credits of an answer.
    pub fn can_count_sent(&self, info: &Option<Vec<u8>>) -> (r: bool)
        ensures
            r == (in_range(spent(self@)) && in_range(
                absorbed(spent(self@), heard(bytes::optional(*info))),
            )),
    {
        if self.send_credit == i32::MIN {
            return false;
        }
        let spent: i32 = self.send_credit - 1;
        match self.hear(info) {
            Incoming::Data { data: _, credit } => self.remote_credit > i32::MIN
                && spent.checked_add(credit).is_some(),
            Incoming::ConnectCnf(credit) => spent.checked_add(credit).is_some(),
            _ => true,
        }
    }

    /// Takes the link's answer to a data PDU, which has cost one credit.
    pub fn sent(&mut self, info: Option<Vec<u8>>)
        requires
            in_range(spent(old(self)@)),
            in_range(absorbed(spent(old(self)@), heard(bytes::optional(info)))),
        ensures
            final(self)@ == absorbed(spent(old(self)@), heard(bytes::optional(info))),
    {
        self.send_credit = self.send_credit - 1;
        let inc = self.hear(&info);
        self.absorb(&inc);
    }
}

/// A wait for received bytes.
#[derive(Debug, Clone, Copy, PartialEq, Eq)]
pub struct Receiving {
    /// Bytes wanted.
    pub n: usize,
    /// Exchanges in a row that brought no data.
    pub misses: u32,
    /// Length of the stream at the start or at the last report's mark.
    pub reported: usize,
}

/// What to do next while receiving.
#[derive(Debug, PartialEq, Eq)]
pub enum Turn {
    /// All bytes are there.
    Done(Vec<u8>),
    /// Send this PDU, which grants credit.
    Send(Vec<u8>),
    /// Poll the link.
    Poll,
}

/// The next move as specifications see it.
#[verifier::ext_equal]
pub enum Move {
    Done(Seq<u8>),
    Send(Seq<u8>),
    Poll,
}

impl View for Turn {
    type V = Move;

    open spec fn view(&self) -> Move {
        match self {
            Turn::Done(data) => Move::Done(data@),
            Turn::Send(pdu) => Move::Send(pdu@),
            Turn::Poll => Move::Poll,
        }
    }
}

/// The next move of a session that waits for `n` bytes.
pub open spec fn next_move(s: Session, n: nat) -> Move {
    if s.rx.len() >= n {
        Move::Done(s.rx.take(n as int))
    } else if grant(s) > 0 {
        Move::Send(data_pdu(seq![grant(s) as u8]))
    } else {
        Move::Poll
    }
}

/// The session after its next move.
pub open spec fn moved(s: Session, n: nat) -> Session {
    if s.rx.len() >= n {
        Session { rx: s.rx.skip(n as int), ..s }
    } else {
        topped_up(s)
    }
}

/// What an answer meant to a wait.
#[derive(Debug, Clone, Copy, PartialEq, Eq)]
pub struct Progress {
    /// The number of bytes to report, if a mark has been passed.
    pub report: Option<usize>,
    /// Why the wait is over, if it is.
    pub failed: Option<TtpError>,
}

/// The PDU carries at least one byte of data.
pub open spec fn brings_data(m: Message) -> bool {
    m matches Message::Data { data, .. } && data.len() > 0
}

/// The wait after an answer, and what the answer meant; `s` is the session that
/// has already absorbed the answer.
pub open spec fn waited(s: Session, w: Receiving, m: Message) -> (Receiving, Progress) {
    if m is Disconnect {
        (w, Progress { report: None, failed: Some(TtpError::Disconnected) })
    } else {
        let misses = if brings_data(m) {
            0
        } else {
            w.misses + 1
        };
        let passed = s.rx.len() >= w.reported + REPORT_STEP;
        let after = Receiving {
            n: w.n,
            misses: misses as u32,
            reported: if passed {
                (w.reported + REPORT_STEP) as usize
            } else {
                w.reported
            },
        };
        let report = if passed {
            Some(s.rx.len() as usize)
        } else {
            None
        };
        let failed = if misses > MAX_MISSES {
            Some(TtpError::Stalled { received: s.rx.len() as usize, expected: w.n })
        } else {
            None
        };
        (after, Progress { report, failed })
    }
}

impl Ttp {
    /// Starts to wait for exactly `n` bytes.
    pub fn recv(&self, n: usize) -> (r: Receiving)
        ensures
            r == (Receiving { n, misses: 0, reported: self@.rx.len() as usize }),
    {
        Receiving { n, misses: 0, reported: self.rx.len() }
    }

    /// Takes the bytes if they are all there; otherwise tops the device's credit
    /// up or polls. Granting credit costs none of our own.
    pub fn turn(&mut self, n: usize) -> (r: Turn)
        requires
            old(self)@.rx.len() >= n || CREDIT_TARGET - old(self).remote_credit <= i32::MAX,
        ensures
            r@ == next_move(old(self)@, n as nat),
            final(self)@ == moved(old(self)@, n as nat),
    {
        if self.rx.len() >= n {
            let rest: Vec<u8> = self.rx.split_off(n);
            let mut data: Vec<u8> = rest;
            std::mem::swap(&mut data, &mut self.rx);
            assert(self.rx@ =~= old(self).rx@.skip(n as int));
            assert(data@ =~= old(self).rx@.take(n as int));
            return Turn::Done(data);
        }
        let grant: u8 = self.top_up();
        if grant > 0 {
            let header: Vec<u8> = vec![grant];
            assert(header@ =~= seq![grant]);
            Turn::Send(lmp_data(header.as_slice()))
        } else {
            Turn::Poll
        }
    }

    /// Whether [`Ttp::received`] can count the credits of an answer.
    pub fn can_count(&self, info: &Option<Vec<u8>>) -> (r: bool)
        ensures
            r == in_range(absorbed(self@, heard(bytes::optional(*info)))),
    {
        self.fits(&self.hear(info))
    }

    /// Takes the link's answer while waiting for bytes.
    pub fn received(&mut self, wait: &mut Receiving, info: Option<Vec<u8>>) -> (r: Progress)
        requires
            in_range(absorbed(old(self)@, heard(bytes::optional(info)))),
            old(wait).misses < u32::MAX,
        ensures
            final(self)@ == absorbed(old(self)@, heard(bytes::optional(info))),
            (*final(wait), r) == waited(final(self)@, *old(wait), heard(bytes::optional(info))),
    {
        let inc = self.hear(&info);
        if let Incoming::Disconnect = inc {
            return Progress { report: None, failed: Some(TtpError::Disconnected) };
        }
        let got_data: bool = match &inc {
            Incoming::Data { data, credit: _ } => data.len() > 0,
            _ => false,
        };
        self.absorb(&inc);
        if got_data {
            wait.misses = 0;
        } else {
            wait.misses = wait.misses + 1;
        }
        let held: usize = self.rx.len();
        let mut report: Option<usize> = None;
        if held >= wait.reported && held - wait.reported >= REPORT_STEP {
            report = Some(held);
            wait.reported = wait.reported + REPORT_STEP;
        }
        let mut failed: Option<TtpError> = None;
        if wait.misses > MAX_MISSES {
            failed = Some(TtpError::Stalled { received: held, expected: wait.n });
        }
        Progress { report, failed }
    }
}

/// A data PDU that the device addresses to us is read as its data and credit.
pub proof fn data_from_device_is_read(from: u8, credit: u8, data: Seq<u8>)
    requires
        credit < 0x80,
    ensures
        message(seq![OUR_LSAP, from, credit] + data) == (Message::Data {
            data,
            credit: credit as int,
        }),
{
    let body = seq![OUR_LSAP, from, credit] + data;
    assert(body.skip(3) =~= data);
}

/// One PDU grants at most 127 credits, and never takes any back.
pub proof fn grants_are_small(info: Option<Seq<u8>>)
    ensures
        heard(info) matches Message::Data { credit, .. } ==> 0 <= credit <= 127,
        heard(info) matches Message::ConnectCnf(credit) ==> 0 <= credit <= 127,
{
}

/// The attempt after a list of answers.
pub open spec fn attempted(answers: Seq<Message>) -> Attempt
    decreases answers.len(),
{
    if answers.len() == 0 {
        Attempt::Poll { session: opened(), taken: 0 }
    } else {
        match attempted(answers.drop_last()) {
            Attempt::Poll { session, taken } => attempt_after(session, taken, answers.last()),
            over => over,
        }
    }
}

/// The first confirmation is answer number `i`, in time, and no poll before it
/// was answered with a disconnect.
pub open spec fn confirmed_at(answers: Seq<Message>, i: int) -> bool {
    &&& 0 <= i < answers.len()
    &&& i <= CONNECT_POLLS
    &&& answers[i] is ConnectCnf
    &&& forall|j: int|
        0 <= j < i ==> !(#[trigger] answers[j] is ConnectCnf) && (j > 0 ==> !(
        answers[j] is Disconnect))
}

/// The session comes up if and only if the request, or one of the polls after
/// it, is answered with a confirmation before any poll is answered with a
/// disconnect. The attempt is over after the request and twenty polls.
pub proof fn connection_needs_confirmation(answers: Seq<Message>)
    ensures
        attempted(answers) is Up <==> exists|i: int| confirmed_at(answers, i),
        attempted(answers) matches Attempt::Poll { taken, .. } ==> {
            &&& taken == answers.len()
            &&& taken <= CONNECT_POLLS
        },
        attempted(answers) matches Attempt::Poll { .. } ==> forall|j: int|
            0 <= j < answers.len() ==> !(#[trigger] answers[j] is ConnectCnf) && (j > 0 ==> !(
            answers[j] is Disconnect)),
    decreases answers.len(),
{
    if answers.len() > 0 {
        let init = answers.drop_last();
        let last = answers.len() - 1;
        connection_needs_confirmation(init);
        assert(forall|j: int| 0 <= j < last ==> init[j] == #[trigger] answers[j]);
        match attempted(init) {
            Attempt::Poll { session, taken } => {
                if answers.last() is ConnectCnf {
                    assert(confirmed_at(answers, last));
                } else if exists|i: int| confirmed_at(answers, i) {
                    let i = choose|i: int| confirmed_at(answers, i);
                    assert(i < last);
                    assert(init[i] is ConnectCnf);
                }
            },
            Attempt::Up(_) => {
                let i = choose|i: int| confirmed_at(init, i);
                assert(confirmed_at(answers, i));
            },
            Attempt::Failed(_) => {
                if exists|i: int| confirmed_at(answers, i) {
                    let i = choose|i: int| confirmed_at(answers, i);
                    confirmation_connects(answers, i);
                }
            },
        }
    }
}

proof fn confirmation_connects(answers: Seq<Message>, i: int)
    requires
        confirmed_at(answers, i),
    ensures
        attempted(answers) is Up,
    decreases answers.len(),
{
    let init = answers.drop_last();
    if i < answers.len() - 1 {
        assert(confirmed_at(init, i));
        confirmation_connects(init, i);
    } else {
        goes_on(init);
    }
}

proof fn goes_on(answers: Seq<Message>)
    requires
        answers.len() <= CONNECT_POLLS,
        forall|j: int|
            0 <= j < answers.len() ==> !(#[trigger] answers[j] is ConnectCnf) && (j > 0 ==> !(
            answers[j] is Disconnect)),
    ensures
        attempted(answers) matches Attempt::Poll { taken, .. } && taken == answers.len(),
    decreases answers.len(),
{
    if answers.len() > 0 {
        let init = answers.drop_last();
        assert(forall|j: int| 0 <= j < init.len() ==> init[j] == #[trigger] answers[j]);
        goes_on(init);
        assert(!(answers[answers.len() - 1] is ConnectCnf));
    }
}

/// The device's credit stays topped up: sending a payload and every move of a
/// wait bring it to the target, an answer costs at most one of it, and granting
/// it costs none of our own credit.
pub proof fn credit_is_kept_up(s: Session, n: nat, m: Message)
    requires
        sound(s),
    ensures
        topped_up(s).remote_credit == CREDIT_TARGET,
        s.rx.len() < n ==> moved(s, n).remote_credit == CREDIT_TARGET,
        moved(s, n).send_credit == s.send_credit,
        sound(moved(s, n)),
        CREDIT_TARGET - 1 <= absorbed(topped_up(s), m).remote_credit <= CREDIT_TARGET,
{
}

/// The data of a list of PDUs, in order.
pub open spec fn stream(answers: Seq<Message>) -> Seq<u8>
    decreases answers.len(),
{
    if answers.len() == 0 {
        Seq::empty()
    } else {
        stream(answers.drop_last()) + match answers.last() {
            Message::Data { data, .. } => data,
            _ => Seq::empty(),
        }
    }
}

/// The end of a wait, or the wait itself.
#[verifier::ext_equal]
pub enum Receipt {
    Waiting { session: Session, wait: Receiving },
    Done { session: Session, data: Seq<u8> },
    Failed { session: Session, error: TtpError },
}

/// A wait after a list of answers.
pub open spec fn receipt(s: Session, w: Receiving, answers: Seq<Message>) -> Receipt
    decreases answers.len(),
{
    if answers.len() == 0 {
        if s.rx.len() >= w.n {
            Receipt::Done { session: moved(s, w.n as nat), data: s.rx.take(w.n as int) }
        } else {
            Receipt::Waiting { session: s, wait: w }
        }
    } else {
        match receipt(s, w, answers.drop_last()) {
            Receipt::Waiting { session, wait } => {
                let after = absorbed(moved(session, wait.n as nat), answers.last());
                let (next, progress) = waited(after, wait, answers.last());
                match progress.failed {
                    Some(error) => Receipt::Failed { session: after, error },
                    None => if after.rx.len() >= next.n {
                        Receipt::Done {
                            session: moved(after, next.n as nat),
                            data: after.rx.take(next.n as int),
                        }
                    } else {
                        Receipt::Waiting { session: after, wait: next }
                    },
                }
            },
            over => over,
        }
    }
}

/// A wait that succeeds gives exactly the bytes it was asked for, and loses,
/// repeats and reorders nothing: what it gives and what it leaves are together
/// what was held before, followed by the data of the answers it took.
pub proof fn bytes_come_in_order(s: Session, w: Receiving, answers: Seq<Message>)
    ensures
        match receipt(s, w, answers) {
            Receipt::Waiting { session, wait } => {
                &&& session.rx == s.rx + stream(answers)
                &&& session.rx.len() < w.n
                &&& wait.n == w.n
            },
            Receipt::Done { session, data } => {
                &&& data.len() == w.n
                &&& exists|k: int|
                    0 <= k <= answers.len() && data + session.rx == s.rx + stream(
                        #[trigger] answers.take(k),
                    )
            },
            Receipt::Failed { .. } => true,
        },
    decreases answers.len(),
{
    if answers.len() == 0 {
        assert(s.rx + stream(answers) =~= s.rx);
        if s.rx.len() >= w.n {
            assert(answers.take(0) =~= answers);
            assert(s.rx.take(w.n as int) + s.rx.skip(w.n as int) =~= s.rx);
        }
    } else {
        let init = answers.drop_last();
        bytes_come_in_order(s, w, init);
        match receipt(s, w, init) {
            Receipt::Waiting { session, wait } => {
                let after = absorbed(moved(session, wait.n as nat), answers.last());
                assert(after.rx =~= s.rx + stream(answers));
                if after.rx.len() >= w.n {
                    assert(answers.take(answers.len() as int) =~= answers);
                    assert(after.rx.take(w.n as int) + after.rx.skip(w.n as int) =~= after.rx);
                }
            },
            Receipt::Done { session, data } => {
                let k = choose|k: int|
                    0 <= k <= init.len() && data + session.rx == s.rx + stream(
                        #[trigger] init.take(k),
                    );
                assert(answers.take(k) =~= init.take(k));
            },
            Receipt::Failed { .. } => {},
        }
    }
}

/// A device that brings no data for more than two thousand exchanges in a row
/// ends the wait, with the number of bytes that are there.
pub proof fn silence_ends_the_wait(s: Session, w: Receiving, answers: Seq<Message>)
    requires
        s.rx.len() < w.n,
        w.misses <= MAX_MISSES,
        w.misses + answers.len() == MAX_MISSES + 1,
        forall|j: int|
            0 <= j < answers.len() ==> !brings_data(#[trigger] answers[j]) && !(
            answers[j] is Disconnect),
    ensures
        receipt(s, w, answers) matches Receipt::Failed { session, error } && session.rx == s.rx
            && error == (TtpError::Stalled { received: s.rx.len() as usize, expected: w.n }),
{
    silence_is_counted(s, w, answers.drop_last());
    let init = answers.drop_last();
    assert(forall|j: int| 0 <= j < init.len() ==> init[j] == #[trigger] answers[j]);
    assert(!brings_data(answers[answers.len() - 1]));
    if let Receipt::Waiting { session, wait } = receipt(s, w, init) {
        let after = absorbed(moved(session, wait.n as nat), answers.last());
        assert(after.rx =~= s.rx);
    }
}

proof fn silence_is_counted(s: Session, w: Receiving, answers: Seq<Message>)
    requires
        s.rx.len() < w.n,
        w.misses + answers.len() <= MAX_MISSES,
        forall|j: int|
            0 <= j < answers.len() ==> !brings_data(#[trigger] answers[j]) && !(
            answers[j] is Disconnect),
    ensures
        receipt(s, w, answers) matches Receipt::Waiting { session, wait } && session.rx == s.rx
            && wait.n == w.n && wait.misses == w.misses + answers.len(),
    decreases answers.len(),
{
    if answers.len() > 0 {
        let init = answers.drop_last();
        assert(forall|j: int| 0 <= j < init.len() ==> init[j] == #[trigger] answers[j]);
        silence_is_counted(s, w, init);
        assert(!brings_data(answers[answers.len() - 1]));
        if let Receipt::Waiting { session, wait } = receipt(s, w, init) {
            let after = absorbed(moved(session, wait.n as nat), answers.last());
            assert(after.rx =~= s.rx);
        }
    }
}

/// What a PDU says follows from its bytes: it is for us if the low seven bits of
/// its first byte are our service access point; with the top bit set it is a
/// control PDU, told by its third byte, otherwise it carries data behind its
/// third byte. Credits are seven bits wide.
pub proof fn pdus_are_told_by_their_bytes(body: Seq<u8>)
    ensures
        body.len() < 3 ==> message(body) is Ignored,
        body.len() >= 3 && body[0] & 0x7f != 5 ==> message(body) is Ignored,
        body.len() >= 3 && body[0] == 0x85 && body[2] == 0x81 ==> message(body)
            == Message::ConnectCnf(
            if body.len() >= 5 {
                (body[4] & 0x7f) as int
            } else {
                0
            },
        ),
        body.len() >= 3 && body[0] == 0x85 && body[2] == 0x02 ==> message(body) is Disconnect,
        body.len() >= 3 && body[0] == 0x85 && body[2] != 0x81 && body[2] != 0x02 ==> message(
            body,
        ) is Ignored,
        body.len() >= 3 && body[0] == 5 ==> message(body) == (Message::Data {
            data: body.skip(3),
            credit: (body[2] & 0x7f) as int,
        }),
{
    if body.len() >= 3 {
        let a = body[0];
        let c = body[2];
        assert(a & 0x7f == a % 0x80) by (bit_vector);
        assert(c & 0x7f == c % 0x80) by (bit_vector);
        if body.len() >= 5 {
            let e = body[4];
            assert(e & 0x7f == e % 0x80) by (bit_vector);
        }
    }
}

/// A connect request goes from our service access point to the device's and
/// carries the low seven bits of a credit; a data PDU has the two access points
/// in front of its contents.
pub proof fn pdus_name_both_ends(credit: u8, ttp: Seq<u8>)
    ensures
        connect_pdu(credit) == seq![0x81u8, 5u8, 1u8, 0u8, credit & 0x7f],
        data_pdu(ttp).len() == ttp.len() + 2,
        data_pdu(ttp)[0] == 1,
        data_pdu(ttp)[1] == 5,
        data_pdu(ttp).skip(2) == ttp,
{
    assert(credit & 0x7f == credit % 0x80) by (bit_vector);
    assert(data_pdu(ttp).skip(2) =~= ttp);
}

/// The credit that a PDU grants us.
pub open spec fn granted(m: Message) -> int {
    match m {
        Message::Data { credit, .. } => credit,
        Message::ConnectCnf(credit) => credit,
        _ => 0,
    }
}

/// The credit that a list of PDUs grants us.
pub open spec fn total_granted(answers: Seq<Message>) -> int
    decreases answers.len(),
{
    if answers.len() == 0 {
        0
    } else {
        total_granted(answers.drop_last()) + granted(answers.last())
    }
}

/// The number of data PDUs in a list; each has cost the device one credit.
pub open spec fn data_pdus(answers: Seq<Message>) -> int
    decreases answers.len(),
{
    if answers.len() == 0 {
        0
    } else {
        data_pdus(answers.drop_last()) + if answers.last() is Data {
            1int
        } else {
            0
        }
    }
}

/// A PDU costs the device one credit if it carries data, even none; it adds what
/// it grants to our credit, and its data to the stream. Sending costs us one
/// credit and nothing else.
pub proof fn credits_are_counted(s: Session, m: Message)
    ensures
        absorbed(s, m).remote_credit == s.remote_credit - (if m is Data {
            1int
        } else {
            0
        }),
        absorbed(s, m).send_credit == s.send_credit + granted(m),
        absorbed(s, m).rx == s.rx + (match m {
            Message::Data { data, .. } => data,
            _ => Seq::empty(),
        }),
        spent(s).send_credit == s.send_credit - 1,
        spent(s).remote_credit == s.remote_credit,
        spent(s).rx == s.rx,
{
    assert(s.rx + Seq::<u8>::empty() =~= s.rx);
}

/// While a connection is brought up, every answer counts: the session that goes
/// on, or comes up, holds what all the answers it took have granted, cost and
/// brought.
pub proof fn connecting_counts_credits(answers: Seq<Message>)
    ensures
        attempted(answers) matches Attempt::Poll { session, .. } ==> {
            &&& session.remote_credit == 127 - data_pdus(answers)
            &&& session.send_credit == total_granted(answers)
            &&& session.rx == stream(answers)
        },
        attempted(answers) matches Attempt::Up(session) ==> exists|i: int|
            {
                &&& confirmed_at(answers, i)
                &&& session.remote_credit == 127 - data_pdus(#[trigger] answers.take(i + 1))
                &&& session.send_credit == total_granted(answers.take(i + 1))
                &&& session.rx == stream(answers.take(i + 1))
            },
    decreases answers.len(),
{
    if answers.len() > 0 {
        let init = answers.drop_last();
        let last = answers.len() - 1;
        connecting_counts_credits(init);
        connection_needs_confirmation(init);
        connection_needs_confirmation(answers);
        match attempted(init) {
            Attempt::Poll { session, taken } => {
                credits_are_counted(session, answers.last());
                if answers.last() is ConnectCnf {
                    assert forall|j: int| 0 <= j < last implies !(#[trigger] answers[j] is ConnectCnf)
                        && (j > 0 ==> !(answers[j] is Disconnect)) by {
                        assert(init[j] == answers[j]);
                    }
                    assert(confirmed_at(answers, last));
                    assert(answers.take(last + 1) =~= answers);
                }
            },
            Attempt::Up(session) => {
                let i = choose|i: int|
                    {
                        &&& confirmed_at(init, i)
                        &&& session.remote_credit == 127 - data_pdus(#[trigger] init.take(i + 1))
                        &&& session.send_credit == total_granted(init.take(i + 1))
                        &&& session.rx == stream(init.take(i + 1))
                    };
                assert(init.take(i + 1) =~= answers.take(i + 1));
                assert forall|j: int| 0 <= j < i implies !(#[trigger] answers[j] is ConnectCnf) && (
                j > 0 ==> !(answers[j] is Disconnect)) by {
                    assert(init[j] == answers[j]);
                }
                assert(init[i] == answers[i]);
                assert(confirmed_at(answers, i));
            },
            Attempt::Failed(_) => {},
        }
    }
}

/// The device refuses by answering a poll with a disconnect before any
/// confirmation; without one, the attempt ends after the request and twenty
/// polls.
pub open spec fn refused_at(answers: Seq<Message>, i: int) -> bool {
    &&& 0 < i < answers.len()
    &&& i <= 20
    &&& answers[i] is Disconnect
    &&& forall|j: int|
        0 <= j < i ==> !(#[trigger] answers[j] is ConnectCnf) && (j > 0 ==> !(
        answers[j] is Disconnect))
}

/// An attempt fails as refused if and only if the device refuses, and as
/// unconfirmed if and only if the request and twenty polls bring neither a
/// confirmation nor a refusal.
pub proof fn failures_have_their_reason(answers: Seq<Message>)
    ensures
        attempted(answers) == Attempt::Failed(TtpError::Refused) <==> exists|i: int|
            refused_at(answers, i),
        attempted(answers) == Attempt::Failed(TtpError::NoConfirmation) <==> (answers.len() >= 21
            && forall|j: int|
            0 <= j <= 20 ==> !(#[trigger] answers[j] is ConnectCnf) && (j > 0 ==> !(
            answers[j] is Disconnect))),
        attempted(answers) matches Attempt::Failed(e) ==> e == TtpError::Refused || e
            == TtpError::NoConfirmation,
    decreases answers.len(),
{
    if answers.len() > 0 {
        let init = answers.drop_last();
        let last = answers.len() - 1;
        failures_have_their_reason(init);
        connection_needs_confirmation(init);
        connection_needs_confirmation(answers);
        assert(forall|j: int| 0 <= j < last ==> init[j] == #[trigger] answers[j]);
        match attempted(init) {
            Attempt::Poll { session, taken } => {
                if answers.last() is Disconnect && last > 0 {
                    assert(refused_at(answers, last));
                }
                if exists|i: int| refused_at(answers, i) {
                    let i = choose|i: int| refused_at(answers, i);
                    assert(i < last ==> refused_at(init, i));
                }
            },
            Attempt::Up(_) => {
                let c = choose|i: int| confirmed_at(init, i);
                assert(answers[c] is ConnectCnf);
                assert(confirmed_at(answers, c));
                if exists|i: int| refused_at(answers, i) {
                    let i = choose|i: int| refused_at(answers, i);
                    assert(answers[i] is Disconnect);
                }
            },
            Attempt::Failed(e) => {
                if e == TtpError::Refused {
                    let i = choose|i: int| refused_at(init, i);
                    assert(refused_at(answers, i));
                    assert(answers[i] is Disconnect);
                } else {
                    assert(answers.len() >= 21);
                    assert(init.len() >= 21);
                    assert forall|j: int| 0 <= j <= 20 implies !(
                    #[trigger] answers[j] is ConnectCnf) && (j > 0 ==> !(
                    answers[j] is Disconnect)) by {
                        assert(init[j] == answers[j]);
                    }
                    if exists|i: int| refused_at(answers, i) {
                        let i = choose|i: int| refused_at(answers, i);
                        assert(answers[i] is Disconnect);
                    }
                }
            },
        }
    }
}

/// One PDU grants the device what it is missing of 127 credits, and never less
/// than nothing nor more than 127.
pub proof fn grant_fills_up(s: Session)
    ensures
        0 <= grant(s) <= 127,
        0 <= s.remote_credit <= 127 ==> s.remote_credit + grant(s) == 127,
        s.remote_credit < 0 ==> grant(s) == 127,
        s.remote_credit > 127 ==> grant(s) == 0,
        topped_up(s).remote_credit == s.remote_credit + grant(s),
        topped_up(s).send_credit == s.send_credit,
        topped_up(s).rx == s.rx,
{
}

/// A wait is done as soon as enough bytes are held, and gives the oldest of
/// them. Before, it sends a PDU with nothing but the missing credit, or polls if
/// none is missing.
pub proof fn moves_follow_the_need(s: Session, n: nat)
    ensures
        next_move(s, n) is Done <==> s.rx.len() >= n,
        s.rx.len() >= n ==> next_move(s, n) == Move::Done(s.rx.take(n as int)) && moved(s, n).rx
            == s.rx.skip(n as int) && moved(s, n).remote_credit == s.remote_credit,
        s.rx.len() < n && 0 <= s.remote_credit < 127 ==> next_move(s, n) == Move::Send(
            seq![1u8, 5u8, (127 - s.remote_credit) as u8],
        ),
        s.rx.len() < n && s.remote_credit >= 127 ==> next_move(s, n) == Move::Poll,
        s.rx.len() < n ==> moved(s, n).rx == s.rx,
        moved(s, n).send_credit == s.send_credit,
{
    let g = grant(s) as u8;
    assert(data_pdu(seq![g]) =~= seq![1u8, 5u8, g]);
}

/// What an answer does to a wait: a disconnect ends it at once; data starts the
/// count of empty exchanges anew, anything else adds one to it, and the
/// 2001st in a row ends the wait. Each time the stream has grown by another
/// 16384 bytes, its length is reported once.
pub proof fn waits_count_silence(s: Session, w: Receiving, m: Message)
    requires
        w.misses <= 2000,
        s.rx.len() <= usize::MAX,
    ensures
        ({
            let (after, p) = waited(s, w, m);
            let data = m matches Message::Data { data, .. } && data.len() > 0;
            &&& after.n == w.n
            &&& m is Disconnect ==> after == w && p.report is None && p.failed == Some(
                TtpError::Disconnected,
            )
            &&& !(m is Disconnect) && data ==> after.misses == 0 && p.failed is None
            &&& !(m is Disconnect) && !data ==> after.misses == w.misses + 1
            &&& !(m is Disconnect) && !data && w.misses == 2000 ==> p.failed == Some(
                TtpError::Stalled { received: s.rx.len() as usize, expected: w.n },
            )
            &&& !(m is Disconnect) && !data && w.misses < 2000 ==> p.failed is None
            &&& !(m is Disconnect) && s.rx.len() >= w.reported + 16384 ==> p.report == Some(
                s.rx.len() as usize,
            ) && after.reported == w.reported + 16384
            &&& !(m is Disconnect) && s.rx.len() < w.reported + 16384 ==> p.report is None
                && after.reported == w.reported
        }),
{
}

/// A wait takes credits as they come: while it goes on, our own credit is what it
/// was plus what the answers have granted, whatever was granted to the device.
pub proof fn waiting_costs_no_credit(s: Session, w: Receiving, answers: Seq<Message>)
    ensures
        receipt(s, w, answers) matches Receipt::Waiting { session, .. } ==> session.send_credit
            == s.send_credit + total_granted(answers),
    decreases answers.len(),
{
    if answers.len() > 0 {
        waiting_costs_no_credit(s, w, answers.drop_last());
    }
}

/// A stalled device is reported with both numbers of bytes.
pub proof fn stalls_are_told(received: usize, expected: usize)
    ensures
        ({
            let t = (TtpError::Stalled { received, expected }).spec_message();
            &&& text::starts_with(
                t,
                "device stopped sending after "@ + text::decimal(received as nat) + " of "@,
            )
            &&& text::ends_with(t, " of "@ + text::decimal(expected as nat) + " bytes"@)
        }),
{
    let t = (TtpError::Stalled { received, expected }).spec_message();
    let head = "device stopped sending after "@ + text::decimal(received as nat) + " of "@;
    let tail = " of "@ + text::decimal(expected as nat) + " bytes"@;
    assert(t.take(head.len() as int) =~= head);
    assert(t.skip(t.len() - tail.len()) =~= tail);
}

} // verus!
