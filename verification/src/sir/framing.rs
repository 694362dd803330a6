//! Asynchronous SIR framing: wrapping a payload for the wire and recovering
//! payloads from a received byte stream.
//!
//! ```text
//! [ XBOF × N ] [ BOF ] [ stuffed(payload, FCS low, FCS high) ] [ EOF ]
//! ```
//!
//! Inside a frame, a byte equal to `BOF`, `EOF` or `CE` is sent as `CE`
//! followed by the byte with the transparency bit toggled.

use vstd::prelude::*;
use vstd::slice::slice_subrange;
use vstd::slice::slice_to_vec;

use super::crc;
use crate::bytes;

verus! {

/// Beginning-of-frame flag.
pub const BOF: u8 = 0xC0;

/// End-of-frame flag.
pub const EOF: u8 = 0xC1;

/// Control-escape byte.
pub const CE: u8 = 0x7D;

/// Extra beginning-of-frame byte, sent as preamble.
pub const XBOF: u8 = 0xFF;

/// Transparency modifier of a stuffed byte.
pub const IRDA_TRANS: u8 = 0x20;

/// Preamble length of frames that no link parameters apply to.
pub const DEFAULT_XBOFS: usize = 10;

/// `b` has a meaning of its own on the wire.
pub open spec fn is_control(b: u8) -> bool {
    b == BOF || b == EOF || b == CE
}

/// What is sent for one byte of a frame's contents.
pub open spec fn stuffed_byte(b: u8) -> Seq<u8> {
    if is_control(b) {
        seq![CE, b ^ IRDA_TRANS]
    } else {
        seq![b]
    }
}

/// What is sent for a frame's contents.
pub open spec fn stuffed(data: Seq<u8>) -> Seq<u8>
    decreases data.len(),
{
    if data.len() == 0 {
        Seq::empty()
    } else {
        stuffed(data.drop_last()) + stuffed_byte(data.last())
    }
}

/// `n` preamble bytes.
pub open spec fn preamble(n: nat) -> Seq<u8> {
    Seq::new(n, |i: int| XBOF)
}

/// A frame with the contents `data` (payload and check sequence) on the wire.
pub open spec fn framed(data: Seq<u8>, xbofs: nat) -> Seq<u8> {
    preamble(xbofs) + seq![BOF] + stuffed(data) + seq![EOF]
}

/// The frame that carries `payload`.
pub open spec fn wrapped(payload: Seq<u8>, xbofs: nat) -> Seq<u8> {
    framed(payload + crc::fcs_of(payload), xbofs)
}

/// Appends one stuffed byte to `out`.
fn stuff(out: &mut Vec<u8>, b: u8)
    ensures
        final(out)@ == old(out)@ + stuffed_byte(b),
{
    if b == BOF || b == EOF || b == CE {
        out.push(CE);
        out.push(b ^ IRDA_TRANS);
    } else {
        out.push(b);
    }
    assert(out@ =~= old(out)@ + stuffed_byte(b));
}

/// Wraps `payload` into a complete frame with `xbofs` preamble bytes.
pub fn async_wrap(payload: &[u8], xbofs: usize) -> (r: Vec<u8>)
    ensures
        r@ == wrapped(payload@, xbofs as nat),
{
    let mut out: Vec<u8> = Vec::new();
    for k in 0..xbofs
        invariant
            out@ == preamble(k as nat),
    {
        out.push(XBOF);
        assert(out@ =~= preamble((k + 1) as nat));
    }
    out.push(BOF);
    let ghost head = preamble(xbofs as nat) + seq![BOF];
    assert(out@ =~= head);
    let n: usize = payload.len();
    assert(out@ =~= head + stuffed(payload@.take(0)));
    for i in 0..n
        invariant
            n == payload@.len(),
            out@ == head + stuffed(payload@.take(i as int)),
    {
        stuff(&mut out, payload[i]);
        proof {
            assert(payload@.take(i + 1).drop_last() =~= payload@.take(i as int));
            assert(out@ =~= head + stuffed(payload@.take(i + 1)));
        }
    }
    let fcs = crc::fcs_bytes(payload);
    stuff(&mut out, fcs[0]);
    stuff(&mut out, fcs[1]);
    out.push(EOF);
    proof {
        let p = payload@;
        let data = p + crc::fcs_of(p);
        assert(p.take(n as int) =~= p);
        let fcs_seq = crc::fcs_of(p);
        assert(data.drop_last().drop_last() =~= p);
        assert(stuffed(data.drop_last()) == stuffed(p) + stuffed_byte(fcs_seq[0]));
        assert(stuffed(data) == stuffed(p) + stuffed_byte(fcs_seq[0]) + stuffed_byte(fcs_seq[1]));
        assert(out@ =~= wrapped(p, xbofs as nat));
    }
    out
}

/// Where the receiver stands with respect to a frame.
#[derive(Debug, Clone, Copy, PartialEq, Eq, Structural)]
pub enum State {
    /// Between frames.
    Outside,
    /// Right after a beginning-of-frame flag.
    Begin,
    /// Inside the contents.
    Inside,
    /// Right after a control escape.
    Escape,
}

/// The receiver as its specification sees it.
pub struct Reception {
    pub state: State,
    /// Contents of the current frame so far.
    pub buf: Seq<u8>,
    /// Frames dropped for a wrong check sequence.
    pub crc_errors: nat,
    /// Frames dropped because they could not hold a check sequence.
    pub short_frames: nat,
}

/// The receiver before the first byte.
pub open spec fn idle() -> Reception {
    Reception { state: State::Outside, buf: Seq::empty(), crc_errors: 0, short_frames: 0 }
}

/// The receiver after an end-of-frame flag, and the payload if that completed a
/// valid frame.
pub open spec fn finished(r: Reception) -> (Reception, Option<Seq<u8>>) {
    let cleared = Reception { state: State::Outside, buf: Seq::empty(), ..r };
    if r.state == State::Outside {
        (r, None)
    } else if r.buf.len() < 2 {
        (Reception { short_frames: r.short_frames + 1, ..cleared }, None)
    } else if crc::checks(r.buf) {
        (cleared, Some(r.buf.take(r.buf.len() - 2)))
    } else {
        (Reception { crc_errors: r.crc_errors + 1, ..cleared }, None)
    }
}

/// The receiver after one more byte, and the payload that this byte completed.
pub open spec fn received(r: Reception, byte: u8) -> (Reception, Option<Seq<u8>>) {
    if byte == BOF {
        (Reception { state: State::Begin, buf: Seq::empty(), ..r }, None)
    } else if byte == CE {
        if r.state == State::Outside {
            (r, None)
        } else {
            (Reception { state: State::Escape, ..r }, None)
        }
    } else if byte == EOF {
        finished(r)
    } else {
        match r.state {
            State::Outside => (r, None),
            State::Escape => (
                Reception { state: State::Inside, buf: r.buf.push(byte ^ IRDA_TRANS), ..r },
                None,
            ),
            _ => (Reception { state: State::Inside, buf: r.buf.push(byte), ..r }, None),
        }
    }
}

/// `frames` followed by the frame that `last` may hold.
pub open spec fn with_frame(frames: Seq<Seq<u8>>, last: Option<Seq<u8>>) -> Seq<Seq<u8>> {
    match last {
        Some(f) => frames.push(f),
        None => frames,
    }
}

/// The receiver after all bytes, and the payloads completed on the way.
pub open spec fn received_all(r: Reception, bytes: Seq<u8>) -> (Reception, Seq<Seq<u8>>)
    decreases bytes.len(),
{
    if bytes.len() == 0 {
        (r, Seq::empty())
    } else {
        let before = received_all(r, bytes.drop_last());
        let last = received(before.0, bytes.last());
        (last.0, with_frame(before.1, last.1))
    }
}

/// The error counters of `r` fit the counters of an [`Unwrapper`].
pub open spec fn countable(r: Reception) -> bool {
    r.crc_errors <= u64::MAX && r.short_frames <= u64::MAX
}

/// Streaming receiver: fed with bytes as they arrive, it hands out the payload
/// of each valid frame and drops and counts the others.
#[derive(Debug)]
pub struct Unwrapper {
    pub state: State,
    /// Contents of the current frame so far.
    pub buf: Vec<u8>,
    /// Frames dropped because the check sequence did not match.
    pub crc_errors: u64,
    /// Frames dropped because they were too short to hold a check sequence.
    pub short_frames: u64,
}

impl View for Unwrapper {
    type V = Reception;

    open spec fn view(&self) -> Reception {
        Reception {
            state: self.state,
            buf: self.buf@,
            crc_errors: self.crc_errors as nat,
            short_frames: self.short_frames as nat,
        }
    }
}

impl Default for Unwrapper {
    /// A receiver that has seen nothing yet.
    fn default() -> (r: Self)
        ensures
            r@ == idle(),
    {
        Unwrapper { state: State::Outside, buf: Vec::new(), crc_errors: 0, short_frames: 0 }
    }
}

impl Unwrapper {
    /// A receiver that has seen nothing yet.
    pub fn new() -> (r: Self)
        ensures
            r@ == idle(),
    {
        Self::default()
    }

    /// Takes one received byte; returns the payload if it completes a valid
    /// frame.
    pub fn push(&mut self, byte: u8) -> (r: Option<Vec<u8>>)
        requires
            countable(received(old(self)@, byte).0),
        ensures
            final(self)@ == received(old(self)@, byte).0,
            bytes::optional(r) == received(old(self)@, byte).1,
    {
        if byte == BOF {
            self.state = State::Begin;
            self.buf.clear();
            None
        } else if byte == CE {
            if self.state != State::Outside {
                self.state = State::Escape;
            }
            None
        } else if byte == EOF {
            self.finish()
        } else {
            match self.state {
                State::Outside => {},
                State::Escape => {
                    self.buf.push(byte ^ IRDA_TRANS);
                    self.state = State::Inside;
                },
                State::Begin | State::Inside => {
                    self.buf.push(byte);
                    self.state = State::Inside;
                },
            }
            None
        }
    }

    /// Takes all received bytes; returns the payloads completed on the way.
    pub fn push_all(&mut self, data: &[u8]) -> (r: Vec<Vec<u8>>)
        requires
            countable(received_all(old(self)@, data@).0),
        ensures
            final(self)@ == received_all(old(self)@, data@).0,
            bytes::contents(r@) == received_all(old(self)@, data@).1,
    {
        let mut frames: Vec<Vec<u8>> = Vec::new();
        let n: usize = data.len();
        let ghost start = self@;
        assert(bytes::contents(frames@) =~= received_all(start, data@.take(0)).1);
        for i in 0..n
            invariant
                n == data@.len(),
                countable(received_all(start, data@).0),
                self@ == received_all(start, data@.take(i as int)).0,
                bytes::contents(frames@) == received_all(start, data@.take(i as int)).1,
        {
            let ghost before = frames@;
            proof {
                assert(data@.take(i + 1).drop_last() =~= data@.take(i as int));
                assert(data@ =~= data@.take(i + 1) + data@.skip(i + 1));
                counters_only_grow(start, data@.take(i + 1), data@.skip(i + 1));
            }
            let frame = self.push(data[i]);
            if let Some(f) = frame {
                frames.push(f);
                assert(bytes::contents(frames@) =~= bytes::contents(before).push(f@));
            }
        }
        assert(data@.take(n as int) =~= data@);
        frames
    }

    /// Ends the current frame.
    fn finish(&mut self) -> (r: Option<Vec<u8>>)
        requires
            countable(finished(old(self)@).0),
        ensures
            final(self)@ == finished(old(self)@).0,
            bytes::optional(r) == finished(old(self)@).1,
    {
        let prev = self.state;
        self.state = State::Outside;
        if prev == State::Outside {
            return None;
        }
        let n: usize = self.buf.len();
        if n < 2 {
            self.short_frames = self.short_frames + 1;
            self.buf.clear();
            return None;
        }
        if crc::check(self.buf.as_slice()) {
            let payload = slice_to_vec(slice_subrange(self.buf.as_slice(), 0, n - 2));
            self.buf.clear();
            Some(payload)
        } else {
            self.crc_errors = self.crc_errors + 1;
            self.buf.clear();
            None
        }
    }
}

/// Feeding two runs of bytes one after the other is feeding both in one: the
/// same receiver, and the frames of the first run followed by those of the
/// second.
pub proof fn reception_is_incremental(r: Reception, a: Seq<u8>, b: Seq<u8>)
    ensures
        received_all(r, a + b).0 == received_all(received_all(r, a).0, b).0,
        received_all(r, a + b).1 == received_all(r, a).1 + received_all(
            received_all(r, a).0,
            b,
        ).1,
    decreases b.len(),
{
    if b.len() == 0 {
        assert(a + b =~= a);
        assert(received_all(r, a).1 + received_all(received_all(r, a).0, b).1 =~= received_all(
            r,
            a,
        ).1);
    } else {
        reception_is_incremental(r, a, b.drop_last());
        assert((a + b).drop_last() =~= a + b.drop_last());
        assert((a + b).last() == b.last());
        assert(received_all(r, a + b).1 =~= received_all(r, a).1 + received_all(
            received_all(r, a).0,
            b,
        ).1);
    }
}

/// More bytes never lower the error counters.
pub proof fn counters_only_grow(r: Reception, a: Seq<u8>, b: Seq<u8>)
    ensures
        received_all(r, a).0.crc_errors <= received_all(r, a + b).0.crc_errors,
        received_all(r, a).0.short_frames <= received_all(r, a + b).0.short_frames,
    decreases b.len(),
{
    if b.len() == 0 {
        assert(a + b =~= a);
    } else {
        counters_only_grow(r, a, b.drop_last());
        assert((a + b).drop_last() =~= a + b.drop_last());
    }
}

/// Stuffed contents hold no frame flag, so a flag on the wire always delimits.
pub proof fn stuffing_hides_flags(data: Seq<u8>)
    ensures
        forall|i: int|
            0 <= i < stuffed(data).len() ==> #[trigger] stuffed(data)[i] != BOF && stuffed(data)[i]
                != EOF,
    decreases data.len(),
{
    if data.len() > 0 {
        stuffing_hides_flags(data.drop_last());
        let head = stuffed(data.drop_last());
        let b = data.last();
        escaped_is_plain(b);
        assert forall|i: int| 0 <= i < stuffed(data).len() implies #[trigger] stuffed(data)[i]
            != BOF && stuffed(data)[i] != EOF by {
            if i < head.len() {
                assert(stuffed(data)[i] == head[i]);
            } else {
                assert(stuffed(data)[i] == stuffed_byte(b)[i - head.len()]);
            }
        }
    }
}

proof fn escaped_is_plain(b: u8)
    ensures
        is_control(b) ==> !is_control(b ^ IRDA_TRANS),
        (b ^ IRDA_TRANS) ^ IRDA_TRANS == b,
{
    assert(b == 0xC0 || b == 0xC1 || b == 0x7D ==> (b ^ 0x20) != 0xC0 && (b ^ 0x20) != 0xC1 && (b
        ^ 0x20) != 0x7D) by (bit_vector);
    assert((b ^ 0x20) ^ 0x20 == b) by (bit_vector);
}

proof fn preamble_changes_no_count(r: Reception, n: nat)
    ensures
        received_all(r, preamble(n)).0.crc_errors == r.crc_errors,
        received_all(r, preamble(n)).0.short_frames == r.short_frames,
        received_all(r, preamble(n)).1 == Seq::<Seq<u8>>::empty(),
    decreases n,
{
    if n > 0 {
        preamble_changes_no_count(r, (n - 1) as nat);
        assert(preamble(n).drop_last() =~= preamble((n - 1) as nat));
    }
}

/// The contents of a frame arrive unstuffed in the buffer.
proof fn contents_arrive(r: Reception, data: Seq<u8>)
    requires
        r.state == State::Begin || r.state == State::Inside,
    ensures
        ({
            let end = received_all(r, stuffed(data));
            &&& end.0.state == State::Begin || end.0.state == State::Inside
            &&& end.0.buf == r.buf + data
            &&& end.0.crc_errors == r.crc_errors
            &&& end.0.short_frames == r.short_frames
            &&& end.1 == Seq::<Seq<u8>>::empty()
        }),
    decreases data.len(),
{
    if data.len() == 0 {
        assert(r.buf + data =~= r.buf);
    } else {
        let head = data.drop_last();
        let b = data.last();
        contents_arrive(r, head);
        escaped_is_plain(b);
        let mid = received_all(r, stuffed(head)).0;
        reception_is_incremental(r, stuffed(head), stuffed_byte(b));
        let tail = stuffed_byte(b);
        reveal_with_fuel(received_all, 3);
        if is_control(b) {
            assert(tail.drop_last() =~= seq![CE]);
            assert(tail.drop_last().drop_last() =~= Seq::<u8>::empty());
        } else {
            assert(tail.drop_last() =~= Seq::<u8>::empty());
        }
        assert(received_all(mid, tail).0.buf =~= mid.buf.push(b));
        assert(r.buf + data =~= (r.buf + head).push(b));
        assert(received_all(r, stuffed(data)).1 =~= Seq::<Seq<u8>>::empty());
    }
}

/// What a whole frame does to the receiver, whatever came before it: the same
/// as its end would do with the frame's contents in the buffer.
proof fn frame_ends(r: Reception, data: Seq<u8>, xbofs: nat)
    ensures
        ({
            let full = Reception { state: State::Inside, buf: data, ..r };
            &&& received_all(r, framed(data, xbofs)).0 == finished(full).0
            &&& received_all(r, framed(data, xbofs)).1 == with_frame(
                Seq::empty(),
                finished(full).1,
            )
        }),
{
    let pre = preamble(xbofs);
    let s1 = received_all(r, pre).0;
    preamble_changes_no_count(r, xbofs);
    reveal_with_fuel(received_all, 2);
    let bof = seq![BOF];
    assert(bof.drop_last() =~= Seq::<u8>::empty());
    reception_is_incremental(r, pre, bof);
    let s2 = received_all(r, pre + bof).0;
    assert(s2.state == State::Begin && s2.buf =~= Seq::<u8>::empty());
    reception_is_incremental(r, pre + bof, stuffed(data));
    contents_arrive(s2, data);
    let s3 = received_all(r, pre + bof + stuffed(data)).0;
    assert(s3.buf =~= data);
    let eof = seq![EOF];
    assert(eof.drop_last() =~= Seq::<u8>::empty());
    reception_is_incremental(r, pre + bof + stuffed(data), eof);
    assert(received_all(r, pre + bof + stuffed(data)).1 =~= Seq::<Seq<u8>>::empty());
    let full = Reception { state: State::Inside, buf: data, ..r };
    assert(received_all(r, framed(data, xbofs)).1 =~= with_frame(Seq::empty(), finished(full).1));
}

/// A wrapped payload is recovered exactly, whatever the receiver has seen
/// before: the frame yields that one payload, leaves the receiver between
/// frames and counts no error.
pub proof fn wrapping_round_trips(r: Reception, payload: Seq<u8>, xbofs: nat)
    ensures
        received_all(r, wrapped(payload, xbofs)).1 == seq![payload],
        received_all(r, wrapped(payload, xbofs)).0 == (Reception {
            state: State::Outside,
            buf: Seq::empty(),
            ..r
        }),
{
    let data = payload + crc::fcs_of(payload);
    crc::fcs_gives_good_residue(payload);
    frame_ends(r, data, xbofs);
    assert(data.take(data.len() - 2) =~= payload);
    assert(received_all(r, wrapped(payload, xbofs)).1 =~= seq![payload]);
}

/// A frame in whose contents one byte was changed yields nothing and is counted
/// as one check-sequence error.
pub proof fn corrupted_frame_is_dropped(
    r: Reception,
    payload: Seq<u8>,
    xbofs: nat,
    i: int,
    byte: u8,
)
    requires
        0 <= i < payload.len() + 2,
        byte != (payload + crc::fcs_of(payload))[i],
    ensures
        ({
            let bad = framed((payload + crc::fcs_of(payload)).update(i, byte), xbofs);
            &&& received_all(r, bad).1 == Seq::<Seq<u8>>::empty()
            &&& received_all(r, bad).0.crc_errors == r.crc_errors + 1
            &&& received_all(r, bad).0.short_frames == r.short_frames
        }),
{
    let data = payload + crc::fcs_of(payload);
    crc::fcs_gives_good_residue(payload);
    crc::one_changed_byte_is_detected(data, i, byte);
    frame_ends(r, data.update(i, byte), xbofs);
}

/// Between frames, bytes without a beginning-of-frame flag change nothing and
/// yield nothing.
pub proof fn garbage_is_ignored(r: Reception, bytes: Seq<u8>)
    requires
        r.state == State::Outside,
        forall|i: int| 0 <= i < bytes.len() ==> #[trigger] bytes[i] != BOF,
    ensures
        received_all(r, bytes).0 == r,
        received_all(r, bytes).1 == Seq::<Seq<u8>>::empty(),
    decreases bytes.len(),
{
    if bytes.len() > 0 {
        garbage_is_ignored(r, bytes.drop_last());
    }
}

/// A payload is handed out only at an end-of-frame flag, and only if the frame
/// carried that payload's own check sequence.
pub proof fn only_intact_payloads(r: Reception, byte: u8)
    ensures
        received(r, byte).1 matches Some(p) ==> byte == EOF && r.state != State::Outside && r.buf
            == p + crc::fcs_of(p),
{
    if let Some(p) = received(r, byte).1 {
        let n = r.buf.len();
        assert(r.buf =~= p + seq![r.buf[n - 2], r.buf[n - 1]]);
        crc::check_means_fcs(p, r.buf[n - 2], r.buf[n - 1]);
    }
}

/// A frame on the wire: FF for each byte of preamble, C0, the contents without any
/// C0 or C1, and C1 at the end.
pub proof fn frames_are_delimited(payload: Seq<u8>, xbofs: nat)
    ensures
        ({
            let w = wrapped(payload, xbofs);
            &&& w.len() >= xbofs + 4
            &&& forall|i: int| 0 <= i < xbofs ==> #[trigger] w[i] == 0xFF
            &&& w[xbofs as int] == 0xC0
            &&& w[w.len() - 1] == 0xC1
            &&& forall|i: int|
                xbofs < i < w.len() - 1 ==> #[trigger] w[i] != 0xC0 && w[i] != 0xC1
        }),
{
    let data = payload + crc::fcs_of(payload);
    let inner = stuffed(data);
    let w = wrapped(payload, xbofs);
    stuffing_hides_flags(data);
    stuffing_keeps_bytes(data);
    assert forall|i: int| xbofs < i < w.len() - 1 implies #[trigger] w[i] != 0xC0 && w[i]
        != 0xC1 by {
        assert(w[i] == inner[i - xbofs - 1]);
    }
}

proof fn stuffing_keeps_bytes(data: Seq<u8>)
    ensures
        stuffed(data).len() >= data.len(),
    decreases data.len(),
{
    if data.len() > 0 {
        stuffing_keeps_bytes(data.drop_last());
    }
}

/// A byte of a frame's contents is sent as it is, except that 7D, C0 and C1 are
/// sent as 7D 5D, 7D E0 and 7D E1; bytes are sent one after the other.
pub proof fn three_bytes_are_escaped(a: Seq<u8>, b: u8)
    ensures
        b == 0x7D ==> stuffed(a.push(b)) == stuffed(a) + seq![0x7Du8, 0x5D],
        b == 0xC0 ==> stuffed(a.push(b)) == stuffed(a) + seq![0x7Du8, 0xE0],
        b == 0xC1 ==> stuffed(a.push(b)) == stuffed(a) + seq![0x7Du8, 0xE1],
        b != 0x7D && b != 0xC0 && b != 0xC1 ==> stuffed(a.push(b)) == stuffed(a) + seq![b],
{
    assert(a.push(b).drop_last() =~= a);
    assert(0x7Du8 ^ 0x20 == 0x5D && 0xC0u8 ^ 0x20 == 0xE0 && 0xC1u8 ^ 0x20 == 0xE1)
        by (bit_vector);
}

/// A frame whose contents cannot hold a check sequence yields nothing and is
/// counted as short, whatever came before it; a frame of two bytes or more never
/// is.
pub proof fn short_frames_are_counted(r: Reception, data: Seq<u8>, xbofs: nat)
    ensures
        ({
            let end = received_all(r, framed(data, xbofs));
            &&& end.0.state == State::Outside && end.0.buf == Seq::<u8>::empty()
            &&& data.len() < 2 ==> {
                &&& end.1 == Seq::<Seq<u8>>::empty()
                &&& end.0.short_frames == r.short_frames + 1
                &&& end.0.crc_errors == r.crc_errors
            }
            &&& data.len() >= 2 ==> end.0.short_frames == r.short_frames
        }),
{
    frame_ends(r, data, xbofs);
}

/// An empty frame between frames is no frame: an end-of-frame flag that nothing
/// began is ignored, and so is an escape; a new beginning drops what came before.
pub proof fn flags_have_their_meaning(r: Reception)
    ensures
        r.state == State::Outside ==> received(r, 0xC1) == (r, None::<Seq<u8>>),
        r.state == State::Outside ==> received(r, 0x7D) == (r, None::<Seq<u8>>),
        received(r, 0xC0).1 is None,
        received(r, 0xC0).0.state == State::Begin,
        received(r, 0xC0).0.buf == Seq::<u8>::empty(),
        received(r, 0xC0).0.crc_errors == r.crc_errors,
        received(r, 0xC0).0.short_frames == r.short_frames,
{
}

} // verus!
