use stir4200::chip::{
    all_ok, fifo_text, init_report, mode_for, pdclk_for, revision_text, unsupported_text,
    ChipError, ControlRequest, Expected, Stir, REG_CTRL2, REG_FIFOCTL, REG_MODE, REG_PDCLK,
};
use stir4200::sir::framing::async_wrap;

#[test]
fn divisors_of_all_baud_rates() {
    assert_eq!(pdclk_for(2400), Some(0xDF));
    assert_eq!(pdclk_for(9600), Some(0x77));
    assert_eq!(pdclk_for(19200), Some(0x3B));
    assert_eq!(pdclk_for(38400), Some(0x1D));
    assert_eq!(pdclk_for(57600), Some(0x13));
    assert_eq!(pdclk_for(115200), Some(0x09));
    assert_eq!(pdclk_for(4800), None);
    assert_eq!(pdclk_for(0), None);
}

#[test]
fn mode_has_a_bit_for_2400() {
    assert_eq!(mode_for(9600), 0x2A);
    assert_eq!(mode_for(2400), 0x2B);
}

#[test]
fn requests_are_vendor_requests_to_the_device() {
    let stir = Stir::new();
    let write = stir.write_reg(REG_PDCLK, 0x77);
    assert_eq!(
        write,
        ControlRequest { request_type: 0x40, request: 3, value: 0x77, index: 2 }
    );
    let read = stir.read_regs(REG_FIFOCTL);
    assert_eq!(
        read,
        ControlRequest { request_type: 0xC0, request: 1, value: 0, index: 5 }
    );
    assert_eq!(
        write.request_type,
        rusb::request_type(
            rusb::Direction::Out,
            rusb::RequestType::Vendor,
            rusb::Recipient::Device
        )
    );
    assert_eq!(
        read.request_type,
        rusb::request_type(
            rusb::Direction::In,
            rusb::RequestType::Vendor,
            rusb::Recipient::Device
        )
    );
}

#[test]
fn speed_change_at_9600() {
    let writes = Stir::new().change_speed(9600).unwrap();
    assert_eq!(
        writes,
        vec![(3, 0x01), (8, 0x15), (2, 0x77), (1, 0x2A), (3, 0x80), (3, 0x00), (4, 0x20)]
    );
    assert_eq!(Stir::new().change_speed(1200), Err(ChipError::UnsupportedSpeed));
}

#[test]
fn settings_go_into_their_bits() {
    let stir = Stir { tx_power: 7, rx_sensitivity: 14 };
    let writes = stir.change_speed(2400).unwrap();
    assert_eq!(writes[3], (1, 0x2B));
    assert_eq!(writes[4], (3, 0x86));
    assert_eq!(writes[5], (3, 0x06));
    assert_eq!(writes[6], (4, 0xC0));
}

#[test]
fn replies_are_read() {
    let stir = Stir::new();
    assert_eq!(stir.read_reg(&[0x27]), Ok(0x27));
    assert_eq!(stir.read_reg(&[]), Err(ChipError::ShortRead));
    assert_eq!(stir.fifo_status(&[0x04, 0x34, 0xF2]), Ok((0x04, 0x1234)));
    assert_eq!(stir.fifo_status(&[0x04, 0x34]), Err(ChipError::ShortRead));
}

#[test]
fn transmitted_frames_have_a_header() {
    let sir = async_wrap(b"AB", 10);
    let out = Stir::new().send_sir(b"AB").unwrap();
    assert_eq!(&out[..4], &[0x55, 0xAA, sir.len() as u8, 0]);
    assert_eq!(&out[4..], &sir[..]);
    let long = Stir::new().send_sir(&[0x41; 600]).unwrap();
    assert_eq!(long[2] as usize + 256 * long[3] as usize, long.len() - 4);
    assert!(Stir::new().send_sir(&vec![0x41; 70000]).is_none());
}

#[test]
fn read_back_compares_the_kept_bits() {
    let list = Stir::new().expected(9600).unwrap();
    assert_eq!(
        list,
        vec![
            Expected { reg: REG_PDCLK, value: 0x77, mask: 0xff },
            Expected { reg: REG_MODE, value: 0x2A, mask: 0xff },
            Expected { reg: REG_CTRL2, value: 0x20, mask: 0xE0 },
        ]
    );
    assert!(list[2].check(0x27));
    assert!(!list[2].check(0x47));
    assert!(!list[0].check(0x76));
    assert_eq!(Stir::new().expected(1), Err(ChipError::UnsupportedSpeed));
    let good = vec![Ok(0x77), Ok(0x2A), Ok(0x27)];
    assert!(all_ok(&list, &good));
    let bad = vec![Ok(0x77), Ok(0x2B), Ok(0x27)];
    assert!(!all_ok(&list, &bad));
    let unread = vec![Ok(0x77), Err("timeout".to_string()), Ok(0x27)];
    assert!(!all_ok(&list, &unread));
}

#[test]
fn written_registers_pass_the_read_back() {
    for speed in [2400, 9600, 19200, 38400, 57600, 115200] {
        let stir = Stir { tx_power: 2, rx_sensitivity: 5 };
        let mut registers = [0u8; 16];
        for (reg, value) in stir.change_speed(speed).unwrap() {
            registers[reg as usize] = value;
        }
        for e in stir.expected(speed).unwrap() {
            assert!(e.check(registers[e.reg as usize]));
        }
    }
}

#[test]
fn read_back_is_shown() {
    let list = Stir::new().expected(9600).unwrap();
    assert_eq!(
        list[0].report(&Ok(0x77)),
        "  PDCLK  (reg  2): wrote 0x77, read 0x77  OK"
    );
    assert_eq!(
        list[1].report(&Ok(0x00)),
        "  MODE   (reg  1): wrote 0x2a, read 0x00  MISMATCH"
    );
    assert_eq!(
        list[2].report(&Ok(0x27)),
        "  CTRL2  (reg  4): wrote 0x20, read 0x27  OK (writable bits 0xe0)"
    );
    assert_eq!(
        list[2].report(&Err("Operation timed out".to_string())),
        "  CTRL2  (reg  4): read error: Operation timed out"
    );
    assert_eq!(revision_text(0x27), "  chip REVID (CTRL2 & 0x03) = 3");
    assert_eq!(
        fifo_text(0x04, 0),
        "  FIFO status: ctl=0x04 (dir=rx, empty=true) count=0"
    );
    assert_eq!(
        fifo_text(0x10, 300),
        "  FIFO status: ctl=0x10 (dir=tx, empty=false) count=300"
    );
}

#[test]
fn whole_report_on_a_change() {
    let list = Stir::new().expected(9600).unwrap();
    let good = vec![Ok(0x77), Ok(0x2A), Ok(0x27)];
    assert_eq!(
        init_report(&list, &good, Some(0x27), &Ok((0x04, 0))),
        "\nRegister read-back (written vs read):\n\
         \x20 PDCLK  (reg  2): wrote 0x77, read 0x77  OK\n\
         \x20 MODE   (reg  1): wrote 0x2a, read 0x2a  OK\n\
         \x20 CTRL2  (reg  4): wrote 0x20, read 0x27  OK (writable bits 0xe0)\n\
         \x20 chip REVID (CTRL2 & 0x03) = 3\n\
         \x20 FIFO status: ctl=0x04 (dir=rx, empty=true) count=0\n\
         \nM2 OK: the registers read back the written values.\n"
    );
    let bad = vec![Ok(0x77), Ok(0x2A), Err("Pipe error".to_string())];
    let text = init_report(&list, &bad, None, &Err("Pipe error".to_string()));
    assert!(text.contains("  CTRL2  (reg  4): read error: Pipe error\n  FIFO status read error: Pipe error\n\nM2 partial: "));
    assert!(text.ends_with(" before proceeding to M3.\n"));
}

#[test]
fn unsupported_speeds_are_named() {
    assert_eq!(
        unsupported_text(1200),
        "unsupported speed 1200 (use 2400/9600/19200/38400/57600/115200)"
    );
}
