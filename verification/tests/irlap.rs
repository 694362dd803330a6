use stir4200::irlap::{
    after_attempt, build_xid_command, collect_responses, describe_response, device_text, discover,
    parse_xid_response, slot_flags, DiscoveredDevice, Next, SelfInfo, CBROADCAST, PF_BIT, SLOT_FINAL,
    XID_FIXED_LEN, XID_FORMAT, XID_RSP,
};
use stir4200::sir::framing::{async_wrap, Unwrapper};

fn response(address: u32, info: &[u8]) -> Vec<u8> {
    let mut r = vec![CBROADCAST, XID_RSP | PF_BIT, XID_FORMAT];
    r.extend_from_slice(&address.to_le_bytes());
    r.extend_from_slice(&0x0000cafeu32.to_le_bytes());
    r.extend_from_slice(&[0, 0, 0]);
    r.extend_from_slice(info);
    r
}

#[test]
fn command_frame_header_is_correct() {
    let f = build_xid_command(0x0000cafe, 1, 0, None);
    assert_eq!(f.len(), XID_FIXED_LEN);
    assert_eq!(f[0], 0xff);
    assert_eq!(f[1], 0x3f);
    assert_eq!(f[2], 0x01);
    assert_eq!(&f[3..7], &0x0000cafeu32.to_le_bytes());
    assert_eq!(&f[7..11], &0xffffffffu32.to_le_bytes());
    assert_eq!(f[11], 0x00);
    assert_eq!(f[12], 0x00);
    assert_eq!(f[13], 0x00);
}

#[test]
fn final_slot_appends_info() {
    let me = SelfInfo {
        saddr: 0x11223344,
        hints: [0x04, 0x00],
        charset: 0x00,
        name: "mac".to_string(),
    };
    let f = build_xid_command(me.saddr, 1, SLOT_FINAL, Some(&me));
    assert_eq!(f[12], 0xff);
    assert_eq!(f[14], 0x04);
    assert_eq!(f[15], 0x00);
    assert_eq!(&f[16..], b"mac");
}

#[test]
fn parse_roundtrip_response() {
    let mut r = vec![CBROADCAST, XID_RSP | PF_BIT, XID_FORMAT];
    r.extend_from_slice(&0xdeadbeefu32.to_le_bytes());
    r.extend_from_slice(&0x0000cafeu32.to_le_bytes());
    r.push(0x00);
    r.push(0x00);
    r.push(0x00);
    r.push(0x04);
    r.push(0x00);
    r.extend_from_slice(b"GALILEO");

    let dev = parse_xid_response(&r).expect("should parse");
    assert_eq!(dev.address, 0xdeadbeef);
    assert_eq!(dev.hints, [0x04, 0x00]);
    assert_eq!(dev.name, "GALILEO");
}

#[test]
fn rejects_non_xid_response() {
    let mut r = vec![0xfe, 0x11, 0x01];
    r.extend_from_slice(&[0u8; 11]);
    assert!(parse_xid_response(&r).is_none());
}

#[test]
fn parse_response_with_hint_extension() {
    let mut r = vec![CBROADCAST, XID_RSP, XID_FORMAT];
    r.extend_from_slice(&0x01020304u32.to_le_bytes());
    r.extend_from_slice(&0u32.to_le_bytes());
    r.extend_from_slice(&[0x00, 0x00, 0x00]);
    r.push(0x80 | 0x04);
    r.push(0x02);
    r.push(0x00);
    r.extend_from_slice(b"Dev");
    let dev = parse_xid_response(&r).unwrap();
    assert_eq!(dev.hints, [0x84, 0x02]);
    assert_eq!(dev.name, "Dev");
}

#[test]
fn slot_counts_are_encoded() {
    assert_eq!(slot_flags(1), 0);
    assert_eq!(slot_flags(6), 1);
    assert_eq!(slot_flags(8), 2);
    assert_eq!(slot_flags(16), 3);
    assert_eq!(slot_flags(7), 1);
}

#[test]
fn info_is_sent_in_the_final_slot_only() {
    let me = SelfInfo {
        saddr: 7,
        hints: [0x84, 0x20],
        charset: 1,
        name: "é".to_string(),
    };
    assert_eq!(build_xid_command(7, 8, 3, Some(&me)).len(), XID_FIXED_LEN);
    let f = build_xid_command(7, 8, SLOT_FINAL, Some(&me));
    assert_eq!(&f[XID_FIXED_LEN..], &[0x84, 0x20, 1, 0xc3, 0xa9]);
    assert_eq!(build_xid_command(7, 8, SLOT_FINAL, None).len(), XID_FIXED_LEN);
}

#[test]
fn default_station_is_a_computer() {
    let me = SelfInfo::default();
    assert_eq!(me.saddr, 0xcafe);
    assert_eq!(me.hints, [4, 0]);
    assert_eq!(me.charset, 0);
    assert_eq!(me.name, "mac");
}

#[test]
fn names_lose_padding_and_broken_bytes() {
    let d = parse_xid_response(&response(1, b"\x04\x00Galileo\0\0")).unwrap();
    assert_eq!(d.name, "Galileo");
    let d = parse_xid_response(&response(1, b"\x04\x00G\0l\0")).unwrap();
    assert_eq!(d.name, "G\0l");
    let d = parse_xid_response(&response(1, b"\x04\x00caf\xc3\xa9")).unwrap();
    assert_eq!(d.name, "café");
    let d = parse_xid_response(&response(1, b"\x04\x00a\xffb")).unwrap();
    assert_eq!(d.name, "a\u{fffd}b");
}

#[test]
fn missing_information_reads_as_zero() {
    let d = parse_xid_response(&response(9, b"")).unwrap();
    assert_eq!((d.hints, d.charset, d.name.as_str()), ([0, 0], 0, ""));
    let d = parse_xid_response(&response(9, b"\x84")).unwrap();
    assert_eq!((d.hints, d.charset, d.name.as_str()), ([0x84, 0], 0, ""));
    let d = parse_xid_response(&response(9, b"\x04\x05")).unwrap();
    assert_eq!((d.hints, d.charset, d.name.as_str()), ([4, 0], 5, ""));
    assert!(parse_xid_response(&response(9, b"")[..13]).is_none());
    let mut wrong_format = response(9, b"");
    wrong_format[2] = 2;
    assert!(parse_xid_response(&wrong_format).is_none());
}

#[test]
fn a_decoded_name_is_taken_as_it_is() {
    let d = describe_response(&response(0x01020304, b"\x04\x00xyz"), "other\0").unwrap();
    assert_eq!(d.address, 0x01020304);
    assert_eq!(d.name, "other");
    assert!(describe_response(b"too short", "x").is_none());
}

#[test]
fn station_reads_back_from_a_response() {
    let me = SelfInfo {
        saddr: 0x11223344,
        hints: [0x84, 0x20],
        charset: 2,
        name: "Ünï".to_string(),
    };
    let mut f = build_xid_command(me.saddr, 1, SLOT_FINAL, Some(&me));
    assert!(parse_xid_response(&f).is_none());
    f[1] = XID_RSP;
    let d = parse_xid_response(&f).unwrap();
    assert_eq!(d.address, me.saddr);
    assert_eq!(d.hints, me.hints);
    assert_eq!(d.charset, me.charset);
    assert_eq!(d.name, me.name);
}

#[test]
fn each_device_is_collected_once() {
    let mut wire = async_wrap(&response(2, b"\x04\x00two"), 10);
    wire.extend_from_slice(&async_wrap(&response(1, b"\x04\x00one"), 10));
    wire.extend_from_slice(&async_wrap(&response(2, b"\x04\x00again"), 10));
    wire.extend_from_slice(&async_wrap(b"no response at all", 10));
    let mut u = Unwrapper::new();
    let mut found: Vec<DiscoveredDevice> = Vec::new();
    let (a, b) = wire.split_at(20);
    collect_responses(&mut u, a, &mut found);
    collect_responses(&mut u, b, &mut found);
    let names: Vec<&str> = found.iter().map(|d| d.name.as_str()).collect();
    assert_eq!(names, vec!["two", "one"]);
    collect_responses(&mut u, &wire, &mut found);
    assert_eq!(found.len(), 2);
}

#[test]
fn discovery_sends_every_slot_and_ends() {
    let me = SelfInfo::default();
    let frames = discover(&me, 6);
    assert_eq!(frames.len(), 7);
    for slot in 0..6u8 {
        assert_eq!(frames[slot as usize], build_xid_command(0xcafe, 6, slot, None));
    }
    assert_eq!(frames[6], build_xid_command(0xcafe, 6, SLOT_FINAL, Some(&me)));
    assert_eq!(discover(&me, 0).len(), 1);
}

#[test]
fn attempts_end_with_a_device_or_the_last_try() {
    assert_eq!(after_attempt(0, 0, 0), Next::GiveUp);
    assert_eq!(after_attempt(0, 3, 0), Next::Try(1));
    assert_eq!(after_attempt(2, 3, 0), Next::Try(3));
    assert_eq!(after_attempt(3, 3, 0), Next::GiveUp);
    assert_eq!(after_attempt(1, 3, 2), Next::Report);
    assert_eq!(after_attempt(3, 3, 1), Next::Report);
    assert_eq!(after_attempt(u32::MAX, u32::MAX, 0), Next::GiveUp);
}

#[test]
fn devices_are_shown_in_a_line() {
    let d = DiscoveredDevice {
        address: 0xbeef,
        hints: [0x84, 0x02],
        charset: 0,
        name: "UWATEC Galileo".to_string(),
    };
    assert_eq!(
        device_text(&d),
        "  address=0x0000beef  hints=8402  charset=0x00  name=\"UWATEC Galileo\""
    );
}
