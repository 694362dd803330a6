use stir4200::sir::crc::{check, crc_ccitt, crc_ccitt_byte, fcs_bytes, GOOD_FCS, INIT_FCS};
use stir4200::sir::framing::{
    async_wrap, Unwrapper, BOF, CE, DEFAULT_XBOFS, EOF, IRDA_TRANS, XBOF,
};

#[test]
fn known_vector_123456789() {
    assert_eq!(crc_ccitt(INIT_FCS, b"123456789"), 0x6F91);
    assert_eq!(fcs_bytes(b"123456789"), [0x6E, 0x90]);
}

#[test]
fn empty_input_is_init() {
    assert_eq!(crc_ccitt(INIT_FCS, b""), INIT_FCS);
}

#[test]
fn good_fcs_residue_holds() {
    for payload in [
        &b""[..],
        &b"1"[..],
        &b"123456789"[..],
        &[0x00, 0xff, 0x7d, 0xc0, 0xc1][..],
    ] {
        let mut framed = payload.to_vec();
        framed.extend_from_slice(&fcs_bytes(payload));
        assert_eq!(
            crc_ccitt(INIT_FCS, &framed),
            GOOD_FCS,
            "residue mismatch for payload {payload:02x?}"
        );
        assert!(check(&framed));
    }
}

#[test]
fn corrupted_frame_fails_check() {
    let payload = b"hello galileo";
    let mut framed = payload.to_vec();
    framed.extend_from_slice(&fcs_bytes(payload));
    framed[3] ^= 0x01;
    assert!(!check(&framed));
}

#[test]
fn check_sequence_can_be_computed_in_parts() {
    let whole = crc_ccitt(INIT_FCS, b"123456789");
    assert_eq!(crc_ccitt(crc_ccitt(INIT_FCS, b"1234"), b"56789"), whole);
    assert_eq!(crc_ccitt_byte(crc_ccitt(INIT_FCS, b"12345678"), b'9'), whole);
}

#[test]
fn every_changed_byte_is_detected() {
    let payload = [0x00, 0xff, 0x7d, 0xc0];
    let mut framed = payload.to_vec();
    framed.extend_from_slice(&fcs_bytes(&payload));
    for at in 0..framed.len() {
        for change in 1..=255u8 {
            let mut bad = framed.clone();
            bad[at] ^= change;
            assert!(!check(&bad));
        }
    }
}

#[test]
fn wrap_structure() {
    let w = async_wrap(b"AB", DEFAULT_XBOFS);
    assert!(w[..DEFAULT_XBOFS].iter().all(|&b| b == XBOF));
    assert_eq!(w[DEFAULT_XBOFS], BOF);
    assert_eq!(*w.last().unwrap(), EOF);
}

#[test]
fn stuffing_of_control_bytes() {
    let w = async_wrap(&[EOF], 0);
    assert_eq!(w[0], BOF);
    assert_eq!(w[1], CE);
    assert_eq!(w[2], EOF ^ IRDA_TRANS);
}

#[test]
fn roundtrip_including_control_bytes() {
    let payloads: &[&[u8]] = &[
        b"",
        b"A",
        b"hello galileo",
        &[0x00, 0xC0, 0xC1, 0x7D, 0xFF, 0x55, 0xAA],
        &[0x1B],
    ];
    for &p in payloads {
        let wire = async_wrap(p, DEFAULT_XBOFS);
        let mut u = Unwrapper::new();
        let frames = u.push_all(&wire);
        assert_eq!(frames, vec![p.to_vec()], "roundtrip failed for {p:02x?}");
        assert_eq!(u.crc_errors, 0);
    }
}

#[test]
fn ignores_garbage_and_multiple_bofs() {
    let mut u = Unwrapper::new();
    let mut wire = vec![0x11, 0x22, XBOF, XBOF, BOF, BOF];
    wire.extend_from_slice(&async_wrap(b"OK", 0)[1..]);
    let frames = u.push_all(&wire);
    assert_eq!(frames, vec![b"OK".to_vec()]);
}

#[test]
fn corrupted_frame_is_dropped() {
    let mut wire = async_wrap(b"payload", 4);
    wire[6] ^= 0x01;
    let mut u = Unwrapper::new();
    let frames = u.push_all(&wire);
    assert!(frames.is_empty());
    assert_eq!(u.crc_errors, 1);
}

#[test]
fn whole_frame_on_the_wire() {
    assert_eq!(
        async_wrap(b"123456789", 2),
        vec![
            0xFF, 0xFF, 0xC0, b'1', b'2', b'3', b'4', b'5', b'6', b'7', b'8', b'9', 0x6E, 0x90,
            0xC1
        ]
    );
}

#[test]
fn no_flag_inside_a_frame() {
    let all: Vec<u8> = (0..=255).collect();
    let w = async_wrap(&all, 0);
    assert!(w[1..w.len() - 1].iter().all(|&b| b != BOF && b != EOF));
}

#[test]
fn reception_does_not_depend_on_how_bytes_arrive() {
    let mut wire = async_wrap(b"one", 3);
    wire.extend_from_slice(&async_wrap(&[0xC0, 0x7D], 0));
    let mut at_once = Unwrapper::new();
    let expected = at_once.push_all(&wire);
    assert_eq!(expected, vec![b"one".to_vec(), vec![0xC0, 0x7D]]);
    for split in 0..=wire.len() {
        let mut u = Unwrapper::new();
        let mut frames = u.push_all(&wire[..split]);
        frames.extend(u.push_all(&wire[split..]));
        assert_eq!(frames, expected);
    }
    let mut u = Unwrapper::new();
    let mut frames = Vec::new();
    for b in &wire {
        frames.extend(u.push(*b));
    }
    assert_eq!(frames, expected);
}

#[test]
fn default_receiver_has_seen_nothing() {
    let mut u = Unwrapper::default();
    assert!(u.buf.is_empty());
    assert_eq!((u.crc_errors, u.short_frames), (0, 0));
    assert_eq!(u.push_all(&async_wrap(b"first", 0)), vec![b"first".to_vec()]);
}

#[test]
fn too_short_frames_are_counted() {
    let mut u = Unwrapper::new();
    assert!(u.push_all(&[BOF, 0x41, EOF]).is_empty());
    assert_eq!(u.short_frames, 1);
    assert_eq!(u.crc_errors, 0);
    assert_eq!(u.push_all(&async_wrap(b"next", 1)), vec![b"next".to_vec()]);
}
