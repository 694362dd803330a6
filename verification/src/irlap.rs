//! IrLAP discovery: the XID commands that look for devices, and the XID
//! responses that devices give.
//!
//! Frames here are bodies, without SIR framing and check sequence.
//!
//! ```text
//! [ address ] [ control ] [ format ] [ source: 4 ] [ destination: 4 ]
//! [ flags ] [ slot ] [ version ] [ hints: 1 or 2 ] [ charset ] [ name ... ]
//! ```

use vstd::prelude::*;
use vstd::slice::slice_subrange;
use vstd::utf8;

use crate::bytes;
use crate::sir::framing;
use crate::sir::framing::Unwrapper;
use crate::text;

verus! {

/// Connection address of frames to everybody.
pub const CBROADCAST: u8 = 0xfe;

/// Marks a command in the address byte.
pub const CMD_FRAME: u8 = 0x01;

/// Control byte of an XID command.
pub const XID_CMD: u8 = 0x2f;

/// Control byte of an XID response.
pub const XID_RSP: u8 = 0xaf;

/// Poll/final bit of the control byte.
pub const PF_BIT: u8 = 0x10;

/// Format of a discovery XID.
pub const XID_FORMAT: u8 = 0x01;

/// Device address of everybody.
pub const BROADCAST: u32 = 0xffff_ffff;

/// Marks, in the first hint byte, that a second one follows.
pub const HINT_EXTENSION: u8 = 0x80;

/// Slot number that ends a discovery.
pub const SLOT_FINAL: u8 = 0xff;

/// Length of an XID frame without discovery information.
pub const XID_FIXED_LEN: usize = 14;

/// Our own station, as advertised in the final discovery slot.
#[derive(Debug)]
pub struct SelfInfo {
    pub saddr: u32,
    pub hints: [u8; 2],
    pub charset: u8,
    pub name: String,
}

impl Default for SelfInfo {
    /// A computer with an ASCII name.
    fn default() -> (r: Self)
        ensures
            r.saddr == 0xcafe,
            r.hints@ == seq![0x04u8, 0x00u8],
            r.charset == 0,
            r.name@ == "mac"@,
    {
        let r = SelfInfo { saddr: 0xcafe, hints: [0x04, 0x00], charset: 0, name: "mac".to_owned() };
        assert(r.hints@ =~= seq![0x04u8, 0x00u8]);
        r
    }
}

/// A device that answered a discovery.
#[derive(Debug, Clone, PartialEq, Eq)]
pub struct DiscoveredDevice {
    /// Address to connect to.
    pub address: u32,
    pub hints: [u8; 2],
    pub charset: u8,
    pub name: String,
}

/// A discovered device as specifications see it.
#[verifier::ext_equal]
pub struct DeviceView {
    pub address: u32,
    pub hints: Seq<u8>,
    pub charset: u8,
    pub name: Seq<char>,
}

impl View for DiscoveredDevice {
    type V = DeviceView;

    open spec fn view(&self) -> DeviceView {
        DeviceView {
            address: self.address,
            hints: self.hints@,
            charset: self.charset,
            name: self.name@,
        }
    }
}

/// The flags of an XID frame for a number of slots; numbers that IrLAP does not
/// know are sent as six.
pub open spec fn spec_slot_flags(s: u8) -> u8 {
    if s == 1 {
        0x00
    } else if s == 6 {
        0x01
    } else if s == 8 {
        0x02
    } else if s == 16 {
        0x03
    } else {
        0x01
    }
}

/// Encodes a number of slots in the flags of an XID frame.
pub fn slot_flags(s: u8) -> (r: u8)
    ensures
        r == spec_slot_flags(s),
{
    match s {
        1 => 0x00,
        6 => 0x01,
        8 => 0x02,
        16 => 0x03,
        _ => 0x01,
    }
}

/// The discovery information of a station.
pub open spec fn station_info(hints: Seq<u8>, charset: u8, name: Seq<char>) -> Seq<u8> {
    (if hints[0] >= HINT_EXTENSION {
        seq![hints[0], hints[1]]
    } else {
        seq![hints[0]]
    }) + seq![charset] + utf8::encode_utf8(name)
}

/// The fixed part of an XID command.
pub open spec fn xid_header(saddr: u32, s: u8, slot: u8) -> Seq<u8> {
    seq![(CBROADCAST + CMD_FRAME) as u8, (XID_CMD + PF_BIT) as u8, XID_FORMAT]
        + bytes::le32_bytes(saddr) + bytes::le32_bytes(BROADCAST) + seq![
        spec_slot_flags(s),
        slot,
        0u8,
    ]
}

/// An XID command; only the final slot carries the station's information.
pub open spec fn xid_command(saddr: u32, s: u8, slot: u8, info: Option<&SelfInfo>) -> Seq<u8> {
    match info {
        Some(me) => if slot == SLOT_FINAL {
            xid_header(saddr, s, slot) + station_info(me.hints@, me.charset, me.name@)
        } else {
            xid_header(saddr, s, slot)
        },
        None => xid_header(saddr, s, slot),
    }
}

/// Builds an XID discovery command.
pub fn build_xid_command(saddr: u32, s: u8, slot: u8, info: Option<&SelfInfo>) -> (r: Vec<u8>)
    ensures
        r@ == xid_command(saddr, s, slot, info),
{
    let mut f: Vec<u8> = vec![CBROADCAST + CMD_FRAME, XID_CMD + PF_BIT, XID_FORMAT];
    bytes::push_le32(&mut f, saddr);
    bytes::push_le32(&mut f, BROADCAST);
    f.push(slot_flags(s));
    f.push(slot);
    f.push(0x00);
    assert(f@ =~= xid_header(saddr, s, slot));
    if slot == SLOT_FINAL {
        if let Some(me) = info {
            f.push(me.hints[0]);
            if me.hints[0] >= HINT_EXTENSION {
                f.push(me.hints[1]);
            }
            f.push(me.charset);
            bytes::push_bytes(&mut f, me.name.as_str().as_bytes());
            assert(f@ =~= xid_command(saddr, s, slot, info));
        }
    }
    f
}

/// A body is an XID response, with or without the final bit.
pub open spec fn is_xid_response(body: Seq<u8>) -> bool {
    &&& body.len() >= XID_FIXED_LEN
    &&& body[1] == XID_RSP || body[1] == XID_RSP + PF_BIT
    &&& body[2] == XID_FORMAT
}

/// The byte at `i`, or zero behind the end.
pub open spec fn byte_or_zero(d: Seq<u8>, i: int) -> u8 {
    if i < d.len() {
        d[i]
    } else {
        0
    }
}

/// Number of hint bytes in front of the charset.
pub open spec fn hint_bytes(info: Seq<u8>) -> int {
    if info.len() > 0 && info[0] >= HINT_EXTENSION {
        2
    } else {
        1
    }
}

/// The name in a response, as it was sent.
pub open spec fn name_bytes(body: Seq<u8>) -> Seq<u8> {
    let info = body.skip(XID_FIXED_LEN as int);
    if hint_bytes(info) + 1 <= info.len() {
        info.skip(hint_bytes(info) + 1)
    } else {
        Seq::empty()
    }
}

/// A text without the zero characters at its end.
pub open spec fn without_padding(s: Seq<char>) -> Seq<char>
    decreases s.len(),
{
    if s.len() > 0 && s.last() == '\0' {
        without_padding(s.drop_last())
    } else {
        s
    }
}

/// The device that a response describes, once its name has been decoded.
pub open spec fn described(body: Seq<u8>, name: Seq<char>) -> DeviceView {
    let info = body.skip(XID_FIXED_LEN as int);
    DeviceView {
        address: bytes::le32(body, 3) as u32,
        hints: seq![
            byte_or_zero(info, 0),
            if hint_bytes(info) == 2 {
                byte_or_zero(info, 1)
            } else {
                0
            },
        ],
        charset: byte_or_zero(info, hint_bytes(info)),
        name: without_padding(name),
    }
}

/// The text that `String::from_utf8_lossy` makes of bytes.
pub uninterp spec fn lossy_text(data: Seq<u8>) -> Seq<char>;

/// `String::from_utf8_lossy` of the standard library, as an owned string: its
/// text depends on the bytes alone, and bytes that are valid UTF-8 give the text
/// they encode. Which replacement characters stand for invalid bytes is left
/// unsaid.
#[verifier::external_body]
fn from_utf8_lossy(data: &[u8]) -> (r: String)
    ensures
        r@ == lossy_text(data@),
        utf8::valid_utf8(data@) ==> r@ == utf8::decode_utf8(data@),
{
    String::from_utf8_lossy(data).into_owned()
}

fn trim_padding(s: &str) -> (r: String)
    ensures
        r@ == without_padding(s@),
{
    let mut n: usize = s.unicode_len();
    assert(s@.take(n as int) =~= s@);
    while n > 0 && s.get_char(n - 1) == '\0'
        invariant
            n <= s@.len(),
            without_padding(s@.take(n as int)) == without_padding(s@),
        decreases n,
    {
        assert(s@.take(n as int).drop_last() =~= s@.take(n - 1));
        n = n - 1;
    }
    s.substring_char(0, n).to_owned()
}

fn byte_at(d: &[u8], i: usize) -> (r: u8)
    ensures
        r == byte_or_zero(d@, i as int),
{
    if i < d.len() {
        d[i]
    } else {
        0
    }
}

/// Reads an XID response whose name has been decoded to `name`.
pub fn describe_response(body: &[u8], name: &str) -> (r: Option<DiscoveredDevice>)
    ensures
        r is Some <==> is_xid_response(body@),
        r matches Some(d) ==> d@ == described(body@, name@),
{
    if body.len() < XID_FIXED_LEN {
        return None;
    }
    if body[1] != XID_RSP && body[1] != XID_RSP + PF_BIT {
        return None;
    }
    if body[2] != XID_FORMAT {
        return None;
    }
    let address: u32 = bytes::from_le32(body[3], body[4], body[5], body[6]);
    let info = slice_subrange(body, XID_FIXED_LEN, body.len());
    assert(info@ =~= body@.skip(XID_FIXED_LEN as int));
    let extended: bool = info.len() > 0 && info[0] >= HINT_EXTENSION;
    let hints: [u8; 2] = [byte_at(info, 0), if extended { byte_at(info, 1) } else { 0 }];
    let charset: u8 = byte_at(info, if extended { 2 } else { 1 });
    let d = DiscoveredDevice { address, hints, charset, name: trim_padding(name) };
    assert(d@ =~= described(body@, name@));
    Some(d)
}

fn name_of(body: &[u8]) -> (r: &[u8])
    requires
        body@.len() >= XID_FIXED_LEN,
    ensures
        r@ == name_bytes(body@),
{
    let n: usize = body.len();
    let ghost info = body@.skip(XID_FIXED_LEN as int);
    let extended: bool = n > XID_FIXED_LEN && body[XID_FIXED_LEN] >= HINT_EXTENSION;
    assert(hint_bytes(info) == if extended { 2int } else { 1int });
    let hints: usize = if extended { 2 } else { 1 };
    let rest: usize = n - XID_FIXED_LEN;
    if hints + 1 <= rest {
        let r = slice_subrange(body, XID_FIXED_LEN + hints + 1, n);
        assert(r@ =~= info.skip(hints + 1));
        r
    } else {
        let r = slice_subrange(body, n, n);
        assert(r@ =~= Seq::empty());
        r
    }
}

/// The device that a body describes, if it is an XID response.
pub open spec fn response(body: Seq<u8>) -> Option<DeviceView> {
    if is_xid_response(body) {
        Some(described(body, lossy_text(name_bytes(body))))
    } else {
        None
    }
}

/// A discovered device as specifications see it, if there is one.
pub open spec fn optional_view(d: Option<DiscoveredDevice>) -> Option<DeviceView> {
    match d {
        Some(device) => Some(device@),
        None => None,
    }
}

/// Reads an XID response; `None` if the body is something else. A name that is
/// valid UTF-8 is read as such.
pub fn parse_xid_response(body: &[u8]) -> (r: Option<DiscoveredDevice>)
    ensures
        optional_view(r) == response(body@),
        r is Some && utf8::valid_utf8(name_bytes(body@)) ==> optional_view(r) == Some(
            described(body@, utf8::decode_utf8(name_bytes(body@))),
        ),
{
    if body.len() < XID_FIXED_LEN {
        return None;
    }
    let name = from_utf8_lossy(name_of(body));
    describe_response(body, name.as_str())
}

/// One of the devices has this address.
pub open spec fn is_known(found: Seq<DeviceView>, address: u32) -> bool {
    exists|k: int| 0 <= k < found.len() && (#[trigger] found[k]).address == address
}

/// The devices after one more frame: a response from a new address is kept.
pub open spec fn noted(found: Seq<DeviceView>, body: Seq<u8>) -> Seq<DeviceView> {
    match response(body) {
        Some(d) => if is_known(found, d.address) {
            found
        } else {
            found.push(d)
        },
        None => found,
    }
}

/// The devices after a list of frames.
pub open spec fn gathered(found: Seq<DeviceView>, bodies: Seq<Seq<u8>>) -> Seq<DeviceView>
    decreases bodies.len(),
{
    if bodies.len() == 0 {
        found
    } else {
        noted(gathered(found, bodies.drop_last()), bodies.last())
    }
}

/// A list of devices as specifications see it.
pub open spec fn views(found: Seq<DiscoveredDevice>) -> Seq<DeviceView> {
    found.map_values(|d: DiscoveredDevice| d@)
}

fn knows(found: &Vec<DiscoveredDevice>, address: u32) -> (r: bool)
    ensures
        r == is_known(views(found@), address),
{
    let n: usize = found.len();
    for i in 0..n
        invariant
            n == found@.len(),
            forall|k: int| 0 <= k < i ==> (#[trigger] views(found@)[k]).address != address,
    {
        if found[i].address == address {
            assert(views(found@)[i as int].address == address);
            return true;
        }
    }
    false
}

/// Takes bytes from the receiver and notes the devices that answered, each
/// address once.
pub fn collect_responses(
    unwrapper: &mut Unwrapper,
    data: &[u8],
    found: &mut Vec<DiscoveredDevice>,
)
    requires
        framing::countable(framing::received_all(old(unwrapper)@, data@).0),
    ensures
        final(unwrapper)@ == framing::received_all(old(unwrapper)@, data@).0,
        views(final(found)@) == gathered(
            views(old(found)@),
            framing::received_all(old(unwrapper)@, data@).1,
        ),
{
    let bodies = unwrapper.push_all(data);
    let n: usize = bodies.len();
    let ghost all = bytes::contents(bodies@);
    let ghost before = views(found@);
    assert(all.take(0) =~= Seq::empty());
    for i in 0..n
        invariant
            n == bodies@.len(),
            all == bytes::contents(bodies@),
            views(found@) == gathered(before, all.take(i as int)),
    {
        assert(all.take(i + 1).drop_last() =~= all.take(i as int));
        assert(all.take(i + 1).last() == bodies@[i as int]@);
        let ghost known = views(found@);
        if let Some(d) = parse_xid_response(bodies[i].as_slice()) {
            let ghost view = d@;
            if !knows(found, d.address) {
                found.push(d);
                assert(views(found@) =~= known.push(view));
            }
        }
    }
    assert(all.take(n as int) =~= all);
}

/// The commands of a discovery with `s` slots, up to slot `n`.
pub open spec fn slot_commands(saddr: u32, s: u8, n: nat) -> Seq<Seq<u8>> {
    Seq::new(n, |slot: int| xid_command(saddr, s, slot as u8, None))
}

/// The commands of a discovery: one for each slot, then the final one with our
/// own information.
pub open spec fn discovery(me: &SelfInfo, s: u8) -> Seq<Seq<u8>> {
    slot_commands(me.saddr, s, s as nat).push(xid_command(me.saddr, s, SLOT_FINAL, Some(me)))
}

/// Builds the commands of a discovery, in the order in which they are sent.
pub fn discover(me: &SelfInfo, s: u8) -> (r: Vec<Vec<u8>>)
    ensures
        bytes::contents(r@) == discovery(me, s),
{
    let mut commands: Vec<Vec<u8>> = Vec::new();
    assert(bytes::contents(commands@) =~= slot_commands(me.saddr, s, 0));
    for slot in 0..s
        invariant
            bytes::contents(commands@) == slot_commands(me.saddr, s, slot as nat),
    {
        let ghost before = commands@;
        commands.push(build_xid_command(me.saddr, s, slot, None));
        assert(bytes::contents(commands@) =~= bytes::contents(before).push(
            xid_command(me.saddr, s, slot, None),
        ));
        assert(bytes::contents(commands@) =~= slot_commands(me.saddr, s, (slot + 1) as nat));
    }
    let ghost before = commands@;
    commands.push(build_xid_command(me.saddr, s, SLOT_FINAL, Some(me)));
    assert(bytes::contents(commands@) =~= bytes::contents(before).push(
        xid_command(me.saddr, s, SLOT_FINAL, Some(me)),
    ));
    commands
}

/// The line that shows a device.
pub open spec fn device_line(d: DeviceView) -> Seq<char> {
    "  address=0x"@ + text::zero_hex(d.address as nat, 8) + "  hints="@ + text::zero_hex(
        d.hints[0] as nat,
        2,
    ) + text::zero_hex(d.hints[1] as nat, 2) + "  charset=0x"@ + text::zero_hex(
        d.charset as nat,
        2,
    ) + "  name=\""@ + d.name + "\""@
}

/// Shows a device in one line.
pub fn device_text(d: &DiscoveredDevice) -> (r: String)
    ensures
        r@ == device_line(d@),
{
    let mut s = "  address=0x".to_owned();
    s.append(text::zero_hex_text(d.address as u64, 8).as_str());
    s.append("  hints=");
    s.append(text::zero_hex_text(d.hints[0] as u64, 2).as_str());
    s.append(text::zero_hex_text(d.hints[1] as u64, 2).as_str());
    s.append("  charset=0x");
    s.append(text::zero_hex_text(d.charset as u64, 2).as_str());
    s.append("  name=\"");
    s.append(d.name.as_str());
    s.append("\"");
    s
}

/// What comes after an attempt to discover devices.
#[derive(Debug, Clone, Copy, PartialEq, Eq, Structural)]
pub enum Next {
    /// Show the devices.
    Report,
    /// Make the attempt with this number.
    Try(u32),
    /// No attempt is left.
    GiveUp,
}

/// Decides what comes after attempt number `attempt` of at most `retries`, which
/// found so many devices. Attempts count from one; zero stands for the moment
/// before the first.
pub fn after_attempt(attempt: u32, retries: u32, found: usize) -> (r: Next)
    ensures
        r == (if found > 0 {
            Next::Report
        } else if attempt < retries {
            Next::Try((attempt + 1) as u32)
        } else {
            Next::GiveUp
        }),
{
    if found > 0 {
        Next::Report
    } else if attempt < retries {
        Next::Try(attempt + 1)
    } else {
        Next::GiveUp
    }
}

/// A response that carries a station's information is read as that station: its
/// address, hints and charset, and its name without padding. A second hint byte
/// is not sent without the extension mark, and reads as zero.
pub proof fn response_reads_back(header: Seq<u8>, hints: Seq<u8>, charset: u8, name: Seq<char>)
    requires
        header.len() == XID_FIXED_LEN,
        is_xid_response(header),
        hints.len() == 2,
    ensures
        is_xid_response(header + station_info(hints, charset, name)),
        name_bytes(header + station_info(hints, charset, name)) == utf8::encode_utf8(name),
        utf8::valid_utf8(utf8::encode_utf8(name)),
        described(
            header + station_info(hints, charset, name),
            utf8::decode_utf8(utf8::encode_utf8(name)),
        ) == (DeviceView {
            address: bytes::le32(header, 3) as u32,
            hints: seq![
                hints[0],
                if hints[0] >= HINT_EXTENSION {
                    hints[1]
                } else {
                    0
                },
            ],
            charset,
            name: without_padding(name),
        }),
{
    let info = station_info(hints, charset, name);
    let body = header + info;
    utf8::encode_utf8_valid_utf8(name);
    utf8::encode_utf8_decode_utf8(name);
    assert(body.skip(XID_FIXED_LEN as int) =~= info);
    assert(info.skip(hint_bytes(info) + 1) =~= utf8::encode_utf8(name));
    let d = described(body, utf8::decode_utf8(utf8::encode_utf8(name)));
    assert(d.hints =~= seq![
        hints[0],
        if hints[0] >= HINT_EXTENSION {
            hints[1]
        } else {
            0
        },
    ]);
}

/// Our own commands, should they be received, are not taken for responses.
pub proof fn commands_are_no_responses(saddr: u32, s: u8, slot: u8, info: Option<&SelfInfo>)
    ensures
        response(xid_command(saddr, s, slot, info)) is None,
{
    assert(xid_command(saddr, s, slot, info)[1] == 0x3f);
}

/// No two devices have the same address.
pub open spec fn distinct(found: Seq<DeviceView>) -> bool {
    forall|i: int, j: int|
        0 <= i < j < found.len() ==> (#[trigger] found[i]).address != (
        #[trigger] found[j]).address
}

/// Gathering keeps what was found, in its order, and notes each address once.
pub proof fn each_address_once(found: Seq<DeviceView>, bodies: Seq<Seq<u8>>)
    requires
        distinct(found),
    ensures
        distinct(gathered(found, bodies)),
        gathered(found, bodies).len() >= found.len(),
        gathered(found, bodies).take(found.len() as int) == found,
    decreases bodies.len(),
{
    if bodies.len() == 0 {
        assert(found.take(found.len() as int) =~= found);
    } else {
        each_address_once(found, bodies.drop_last());
        let before = gathered(found, bodies.drop_last());
        let after = gathered(found, bodies);
        assert(after.take(found.len() as int) =~= before.take(found.len() as int));
    }
}

/// Every device that answers is found.
pub proof fn every_responder_is_found(found: Seq<DeviceView>, bodies: Seq<Seq<u8>>, k: int)
    requires
        0 <= k < bodies.len(),
        response(bodies[k]) is Some,
    ensures
        is_known(gathered(found, bodies), response(bodies[k])->0.address),
    decreases bodies.len(),
{
    let init = bodies.drop_last();
    let before = gathered(found, init);
    let after = gathered(found, bodies);
    let address = response(bodies[k])->0.address;
    if k < bodies.len() - 1 {
        every_responder_is_found(found, init, k);
        let i = choose|i: int| 0 <= i < before.len() && (#[trigger] before[i]).address == address;
        assert(after[i].address == address);
    } else if !is_known(before, address) {
        assert(after[before.len() as int].address == address);
    }
}

proof fn gathering_continues(found: Seq<DeviceView>, a: Seq<Seq<u8>>, b: Seq<Seq<u8>>)
    ensures
        gathered(found, a + b) == gathered(gathered(found, a), b),
    decreases b.len(),
{
    if b.len() == 0 {
        assert(a + b =~= a);
    } else {
        gathering_continues(found, a, b.drop_last());
        assert((a + b).drop_last() =~= a + b.drop_last());
    }
}

/// What is collected does not depend on how the received bytes are split: two
/// portions one after the other lead to the same devices as both in one.
pub proof fn collection_is_incremental(
    found: Seq<DeviceView>,
    r: framing::Reception,
    a: Seq<u8>,
    b: Seq<u8>,
)
    ensures
        gathered(found, framing::received_all(r, a + b).1) == gathered(
            gathered(found, framing::received_all(r, a).1),
            framing::received_all(framing::received_all(r, a).0, b).1,
        ),
{
    framing::reception_is_incremental(r, a, b);
    gathering_continues(
        found,
        framing::received_all(r, a).1,
        framing::received_all(framing::received_all(r, a).0, b).1,
    );
}

/// Every command tells, in its bytes: that it is a discovery command to
/// everybody, our own address, the number of slots of the discovery and the
/// present slot. Numbers of slots that IrLAP does not know are announced as six.
pub proof fn command_announces_the_slots(saddr: u32, s: u8, slot: u8, info: Option<&SelfInfo>)
    ensures
        ({
            let c = xid_command(saddr, s, slot, info);
            &&& c.len() >= 14
            &&& c[0] == 0xff && c[1] == 0x3f && c[2] == 0x01
            &&& c[3] + 0x100 * c[4] + 0x1_0000 * c[5] + 0x100_0000 * c[6] == saddr
            &&& c[7] == 0xff && c[8] == 0xff && c[9] == 0xff && c[10] == 0xff
            &&& s == 1 <==> c[11] == 0
            &&& s == 8 <==> c[11] == 2
            &&& s == 16 <==> c[11] == 3
            &&& (s != 1 && s != 8 && s != 16) <==> c[11] == 1
            &&& c[12] == slot
            &&& c[13] == 0
        }),
{
    let c = xid_command(saddr, s, slot, info);
    let h = xid_header(saddr, s, slot);
    assert(forall|i: int| 0 <= i < 14 ==> c[i] == #[trigger] h[i]);
    bytes::le32_reads_back(saddr);
    let b = bytes::le32_bytes(saddr);
    let all = bytes::le32_bytes(BROADCAST);
    assert(h[3] == b[0] && h[4] == b[1] && h[5] == b[2] && h[6] == b[3]);
    assert(h[7] == all[0] && h[8] == all[1] && h[9] == all[2] && h[10] == all[3]);
    assert(h[11] == spec_slot_flags(s) && h[12] == slot && h[13] == 0);
}

/// Our own information stands behind the fixed part of the final command: one
/// hint byte, or two if the first has its top bit set, then the charset, then
/// the name. No other command is longer than the fixed part.
pub proof fn final_command_carries_the_station(saddr: u32, s: u8, slot: u8, me: &SelfInfo)
    ensures
        xid_command(saddr, s, slot, None).len() == 14,
        slot != 0xff ==> xid_command(saddr, s, slot, Some(me)).len() == 14,
        slot == 0xff ==> {
            let c = xid_command(saddr, s, slot, Some(me));
            &&& c[14] == me.hints[0]
            &&& me.hints[0] < 0x80 ==> c[15] == me.charset && c.skip(16) == utf8::encode_utf8(
                me.name@,
            )
            &&& me.hints[0] >= 0x80 ==> c[15] == me.hints[1] && c[16] == me.charset && c.skip(17)
                == utf8::encode_utf8(me.name@)
        },
{
    let c = xid_command(saddr, s, slot, Some(me));
    let name = utf8::encode_utf8(me.name@);
    if slot == 0xff {
        if me.hints[0] < 0x80 {
            assert(c.skip(16) =~= name);
        } else {
            assert(c.skip(17) =~= name);
        }
    }
}

/// The commands of a discovery go through its slots in order, all announcing the
/// same number of them, and the last one ends the discovery.
pub proof fn discovery_goes_through_the_slots(me: &SelfInfo, s: u8, k: int)
    requires
        0 <= k <= s,
    ensures
        discovery(me, s).len() == s + 1,
        discovery(me, s)[k][12] == (if k < s {
            k
        } else {
            0xff
        }),
        k < s ==> discovery(me, s)[k].len() == 14,
        discovery(me, s)[k][11] == discovery(me, s)[0][11],
        discovery(me, s)[k].subrange(3, 7) == bytes::le32_bytes(me.saddr),
        discovery(me, s)[s as int] == xid_command(me.saddr, s, 0xff, Some(me)),
{
    let d = discovery(me, s);
    command_announces_the_slots(me.saddr, s, 0, None);
    command_announces_the_slots(me.saddr, s, k as u8, None);
    command_announces_the_slots(me.saddr, s, 0xff, Some(me));
    assert(d[s as int] == xid_command(me.saddr, s, SLOT_FINAL, Some(me)));
    assert(k < s ==> d[k] == xid_command(me.saddr, s, k as u8, None));
    assert(0 < s ==> d[0] == xid_command(me.saddr, s, 0, None));
    assert(d[k].subrange(3, 7) =~= bytes::le32_bytes(me.saddr));
}

/// A text without padding ends with no zero character, and only zero characters
/// were taken away, from its end.
pub proof fn only_padding_is_removed(s: Seq<char>)
    ensures
        without_padding(s).len() <= s.len(),
        without_padding(s) == s.take(without_padding(s).len() as int),
        without_padding(s).len() > 0 ==> without_padding(s).last() != '\0',
        forall|i: int| without_padding(s).len() <= i < s.len() ==> #[trigger] s[i] == '\0',
    decreases s.len(),
{
    if s.len() > 0 && s.last() == '\0' {
        let t = s.drop_last();
        only_padding_is_removed(t);
        assert(t.take(without_padding(t).len() as int) =~= s.take(without_padding(t).len() as int));
        assert forall|i: int| without_padding(s).len() <= i < s.len() implies #[trigger] s[i]
            == '\0' by {
            if i < t.len() {
                assert(t[i] == s[i]);
            }
        }
    } else {
        assert(s.take(s.len() as int) =~= s);
    }
}

/// A body is a response exactly by its length, its control byte, in which the
/// final bit does not matter, and its format. Its address, hints, charset and
/// name are read from their places; what is missing reads as zero.
pub proof fn response_fields_have_their_places(body: Seq<u8>, name: Seq<char>)
    ensures
        is_xid_response(body) <==> body.len() >= 14 && body[1] & 0xEF == 0xAF && body[2] == 0x01,
        body.len() >= 14 ==> {
            let d = described(body, name);
            let two = body.len() > 14 && body[14] >= 0x80;
            let at = if two {
                16int
            } else {
                15
            };
            &&& d.address == body[3] + 0x100 * body[4] + 0x1_0000 * body[5] + 0x100_0000 * body[6]
            &&& d.hints.len() == 2
            &&& d.hints[0] == (if body.len() > 14 {
                body[14]
            } else {
                0
            })
            &&& d.hints[1] == (if two && body.len() > 15 {
                body[15]
            } else {
                0
            })
            &&& d.charset == (if body.len() > at {
                body[at]
            } else {
                0
            })
            &&& d.name == without_padding(name)
            &&& name_bytes(body) == (if body.len() > at {
                body.skip(at + 1)
            } else {
                Seq::empty()
            })
        },
{
    if body.len() >= 14 {
        let c = body[1];
        assert((c & 0xEF == 0xAF) == (c == 0xAF || c == 0xBF)) by (bit_vector);
        let info = body.skip(14);
        let h = hint_bytes(info);
        assert(body.len() > 14 ==> info[0] == body[14]);
        assert(info.len() > h ==> info[h] == body[14 + h]);
        assert(info.len() > 1 ==> info[1] == body[15]);
        if h + 1 <= info.len() {
            assert(info.skip(h + 1) =~= body.skip(14 + h + 1));
        }
    }
}

/// Nothing is found that was not found before and did not answer; of the answers
/// from one address, the first one is kept.
pub proof fn first_answer_is_kept(found: Seq<DeviceView>, bodies: Seq<Seq<u8>>, i: int, k: int)
    requires
        0 <= i < gathered(found, bodies).len(),
        0 <= k < bodies.len(),
    ensures
        found.contains(gathered(found, bodies)[i]) || exists|j: int|
            0 <= j < bodies.len() && response(#[trigger] bodies[j]) == Some(
                gathered(found, bodies)[i],
            ),
        (response(bodies[k]) matches Some(d) && !is_known(found, d.address) && (forall|j: int|
            0 <= j < k ==> !(response(#[trigger] bodies[j]) matches Some(e) && e.address
                == d.address))) ==> gathered(found, bodies).contains(response(bodies[k])->0),
{
    gathered_from_answers(found, bodies, i);
    if let Some(d) = response(bodies[k]) {
        if !is_known(found, d.address) && (forall|j: int|
            0 <= j < k ==> !(response(#[trigger] bodies[j]) matches Some(e) && e.address
                == d.address)) {
            first_is_gathered(found, bodies, k);
        }
    }
}

proof fn gathered_from_answers(found: Seq<DeviceView>, bodies: Seq<Seq<u8>>, i: int)
    requires
        0 <= i < gathered(found, bodies).len(),
    ensures
        found.contains(gathered(found, bodies)[i]) || exists|j: int|
            0 <= j < bodies.len() && response(#[trigger] bodies[j]) == Some(
                gathered(found, bodies)[i],
            ),
    decreases bodies.len(),
{
    let all = gathered(found, bodies);
    if bodies.len() == 0 {
        assert(found[i] == all[i]);
    } else {
        let init = bodies.drop_last();
        let before = gathered(found, init);
        if i < before.len() {
            gathered_from_answers(found, init, i);
            assert(all[i] == before[i]);
            if !found.contains(all[i]) {
                let j = choose|j: int|
                    0 <= j < init.len() && response(#[trigger] init[j]) == Some(before[i]);
                assert(response(bodies[j]) == Some(all[i]));
            }
        } else {
            assert(response(bodies[bodies.len() - 1]) == Some(all[i]));
        }
    }
}

proof fn unanswered_is_unknown(found: Seq<DeviceView>, bodies: Seq<Seq<u8>>, address: u32)
    requires
        !is_known(found, address),
        forall|j: int|
            0 <= j < bodies.len() ==> !(response(#[trigger] bodies[j]) matches Some(e) && e.address
                == address),
    ensures
        !is_known(gathered(found, bodies), address),
{
    let all = gathered(found, bodies);
    assert forall|i: int| 0 <= i < all.len() implies (#[trigger] all[i]).address != address by {
        gathered_from_answers(found, bodies, i);
        if found.contains(all[i]) {
            let j = choose|j: int| 0 <= j < found.len() && found[j] == all[i];
            assert(found[j].address != address);
        }
    }
}

proof fn first_is_gathered(found: Seq<DeviceView>, bodies: Seq<Seq<u8>>, k: int)
    requires
        0 <= k < bodies.len(),
        response(bodies[k]) is Some,
        !is_known(found, response(bodies[k])->0.address),
        forall|j: int|
            0 <= j < k ==> !(response(#[trigger] bodies[j]) matches Some(e) && e.address
                == response(bodies[k])->0.address),
    ensures
        gathered(found, bodies).contains(response(bodies[k])->0),
    decreases bodies.len(),
{
    let init = bodies.drop_last();
    let before = gathered(found, init);
    let all = gathered(found, bodies);
    let d = response(bodies[k])->0;
    if k == bodies.len() - 1 {
        assert forall|j: int| 0 <= j < init.len() implies !(response(
            #[trigger] init[j],
        ) matches Some(e) && e.address == d.address) by {
            assert(init[j] == bodies[j]);
        }
        unanswered_is_unknown(found, init, d.address);
        assert(all[before.len() as int] == d);
    } else {
        assert forall|j: int| 0 <= j < k implies !(response(
            #[trigger] init[j],
        ) matches Some(e) && e.address == response(init[k])->0.address) by {
            assert(init[j] == bodies[j]);
        }
        first_is_gathered(found, init, k);
        let i = choose|i: int| 0 <= i < before.len() && before[i] == d;
        assert(all[i] == d);
    }
}

/// A device's line shows its address, hints, charset and name.
pub proof fn device_lines_show_all(d: DeviceView)
    ensures
        text::starts_with(
            device_line(d),
            "  address=0x"@ + text::zero_hex(d.address as nat, 8) + "  hints="@,
        ),
        text::occurs(
            device_line(d),
            text::zero_hex(d.hints[0] as nat, 2) + text::zero_hex(d.hints[1] as nat, 2)
                + "  charset=0x"@,
        ),
        text::occurs(
            device_line(d),
            "  charset=0x"@ + text::zero_hex(d.charset as nat, 2) + "  name=\""@,
        ),
        text::ends_with(device_line(d), "  name=\""@ + d.name + "\""@),
{
    broadcast use text::group_occurs;

    let t = device_line(d);
    let head = "  address=0x"@ + text::zero_hex(d.address as nat, 8) + "  hints="@;
    let tail = "  name=\""@ + d.name + "\""@;
    assert(t.take(head.len() as int) =~= head);
    assert(t.skip(t.len() - tail.len()) =~= tail);
}

} // verus!
