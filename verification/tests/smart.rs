use stir4200::smart::dialogue::{Download, DownloadError, Identity, Request, Stage, Step};
use stir4200::smart::ttp::{
    lmp_connect, lmp_data, u32_le, Connect, Incoming, Progress, Receiving, Ttp, TtpError, Turn,
};

fn data(credit: u8, payload: &[u8]) -> Option<Vec<u8>> {
    let mut v = vec![5, 1, credit];
    v.extend_from_slice(payload);
    Some(v)
}

fn confirmation(credit: u8) -> Option<Vec<u8>> {
    Some(vec![0x85, 1, 0x81, 0, credit])
}

fn session() -> Ttp {
    let (_, connecting) = Ttp::connect();
    match connecting.reply(confirmation(5)) {
        Connect::Up(ttp) => ttp,
        other => panic!("{other:?}"),
    }
}

fn next(step: Step) -> (Download, Option<String>) {
    match step {
        Step::Next { download, report } => (download, report),
        other => panic!("{other:?}"),
    }
}

#[test]
fn numbers_are_little_endian() {
    assert_eq!(u32_le(&[0x78, 0x56, 0x34, 0x12, 0xff]), 0x12345678);
}

#[test]
fn pdus_on_the_wire() {
    assert_eq!(lmp_connect(127), vec![0x81, 5, 1, 0, 127]);
    assert_eq!(lmp_connect(0xff), vec![0x81, 5, 1, 0, 127]);
    assert_eq!(lmp_data(&[3, 0x1b]), vec![1, 5, 3, 0x1b]);
    assert_eq!(lmp_data(&[]), vec![1, 5]);
}

#[test]
fn pdus_are_read() {
    let t = session();
    assert_eq!(t.parse(&[]), Incoming::Ignored);
    assert_eq!(t.parse(&[5]), Incoming::Ignored);
    assert_eq!(t.parse(&[5, 1]), Incoming::Ignored);
    assert_eq!(t.parse(&[6, 1, 0, 9]), Incoming::Ignored);
    assert_eq!(t.parse(&[0x85, 1]), Incoming::Ignored);
    assert_eq!(t.parse(&[0x85, 1, 0x81]), Incoming::ConnectCnf(0));
    assert_eq!(t.parse(&[0x85, 1, 0x81, 0, 0x87]), Incoming::ConnectCnf(7));
    assert_eq!(t.parse(&[0x85, 1, 0x02]), Incoming::Disconnect);
    assert_eq!(t.parse(&[0x85, 1, 0x33]), Incoming::Ignored);
    assert_eq!(
        t.parse(&[5, 1, 0x83, 9, 8]),
        Incoming::Data { data: vec![9, 8], credit: 3 }
    );
    assert_eq!(t.parse(&[5, 1, 4]), Incoming::Data { data: vec![], credit: 4 });
}

#[test]
fn absorbing_counts_credits() {
    let mut t = session();
    assert_eq!((t.remote_credit, t.send_credit), (127, 5));
    t.absorb(&Incoming::Data { data: vec![1, 2], credit: 3 });
    assert_eq!((t.remote_credit, t.send_credit), (126, 8));
    t.absorb(&Incoming::ConnectCnf(2));
    t.absorb(&Incoming::Disconnect);
    t.absorb(&Incoming::Ignored);
    assert_eq!((t.remote_credit, t.send_credit), (126, 10));
    assert_eq!(t.rx, vec![1, 2]);
}

#[test]
fn connection_is_confirmed_at_once_or_later() {
    let (pdu, connecting) = Ttp::connect();
    assert_eq!(pdu, vec![0x81, 5, 1, 0, 127]);
    let mut state = connecting;
    for answer in [Some(vec![0x85, 1, 0x02]), None, data(2, b"early"), data(0, b"")] {
        state = match state.reply(answer) {
            Connect::Poll(c) => c,
            other => panic!("{other:?}"),
        };
    }
    match state.reply(confirmation(4)) {
        Connect::Up(t) => {
            assert_eq!((t.remote_credit, t.send_credit), (125, 6));
            assert_eq!(t.rx, b"early".to_vec());
        }
        other => panic!("{other:?}"),
    }
}

#[test]
fn connection_is_refused() {
    let (_, connecting) = Ttp::connect();
    let state = match connecting.reply(None) {
        Connect::Poll(c) => c,
        other => panic!("{other:?}"),
    };
    assert_eq!(
        state.reply(Some(vec![0x85, 1, 0x02])),
        Connect::Failed(TtpError::Refused)
    );
    assert_eq!(
        TtpError::Refused.message(),
        "device refused TTP connection (disconnect)"
    );
}

#[test]
fn connection_is_given_up() {
    let (_, mut state) = Ttp::connect();
    for _ in 0..20 {
        state = match state.reply(None) {
            Connect::Poll(c) => c,
            other => panic!("{other:?}"),
        };
    }
    assert_eq!(state.reply(None), Connect::Failed(TtpError::NoConfirmation));
    assert_eq!(TtpError::NoConfirmation.message(), "no TTP CONNECT_CNF received");
}

#[test]
fn sending_spends_one_credit_and_tops_up() {
    let mut t = session();
    t.remote_credit = 120;
    assert_eq!(t.send(&[0x1b]).unwrap(), vec![1, 5, 7, 0x1b]);
    assert_eq!((t.remote_credit, t.send_credit), (127, 5));
    let answer = data(1, &[1]);
    assert!(t.can_count_sent(&answer));
    t.sent(answer);
    assert_eq!((t.remote_credit, t.send_credit), (126, 5));
    assert_eq!(t.rx, vec![1]);
    t.sent(None);
    assert_eq!(t.send_credit, 4);
    t.send_credit = 0;
    assert_eq!(t.send(&[0x1b]), Err(TtpError::OutOfCredit));
    assert_eq!(t.remote_credit, 126);
    assert_eq!(TtpError::OutOfCredit.message(), "out of TTP send credit");
}

#[test]
fn grants_are_limited_to_one_pdu() {
    let mut t = session();
    t.remote_credit = -10;
    assert_eq!(t.send(&[]).unwrap(), vec![1, 5, 127]);
    assert_eq!(t.remote_credit, 117);
    t.remote_credit = 200;
    assert_eq!(t.send(&[]).unwrap(), vec![1, 5, 0]);
    assert_eq!(t.remote_credit, 200);
}

#[test]
fn commands_are_sent_with_their_parameters() {
    let mut t = session();
    assert_eq!(
        t.transfer(0x1c, &[0x10, 0x27, 0, 0]).unwrap(),
        vec![1, 5, 0, 0x1c, 0x10, 0x27, 0, 0]
    );
    t.send_credit = -1;
    assert_eq!(t.transfer(0x1b, &[]), Err(TtpError::OutOfCredit));
}

#[test]
fn bytes_are_received_in_order() {
    let mut t = session();
    t.rx = vec![9];
    let mut wait = t.recv(4);
    assert_eq!(wait, Receiving { n: 4, misses: 0, reported: 1 });
    assert_eq!(t.turn(4), Turn::Poll);
    let p = t.received(&mut wait, data(0, &[1, 2]));
    assert_eq!(p, Progress { report: None, failed: None });
    assert_eq!(t.turn(4), Turn::Send(vec![1, 5, 1]));
    assert_eq!((t.remote_credit, t.send_credit), (127, 5));
    t.received(&mut wait, None);
    assert_eq!(wait.misses, 1);
    t.received(&mut wait, data(0, &[]));
    assert_eq!(wait.misses, 2);
    t.received(&mut wait, data(0, &[3, 4]));
    assert_eq!(wait.misses, 0);
    assert_eq!(t.turn(4), Turn::Done(vec![9, 1, 2, 3]));
    assert_eq!(t.rx, vec![4]);
    assert_eq!(t.turn(0), Turn::Done(vec![]));
}

#[test]
fn progress_is_reported_at_marks() {
    let mut t = session();
    let mut wait = t.recv(40000);
    let p = t.received(&mut wait, data(0, &[0; 16383]));
    assert_eq!(p.report, None);
    let p = t.received(&mut wait, data(0, &[0; 1]));
    assert_eq!(p.report, Some(16384));
    let p = t.received(&mut wait, data(0, &[0; 33000]));
    assert_eq!(p.report, Some(49384));
    let p = t.received(&mut wait, None);
    assert_eq!(p.report, Some(49384));
    let p = t.received(&mut wait, None);
    assert_eq!(p.report, None);
}

#[test]
fn disconnect_ends_the_wait() {
    let mut t = session();
    let mut wait = t.recv(4);
    let p = t.received(&mut wait, Some(vec![0x85, 1, 0x02]));
    assert_eq!(p.failed, Some(TtpError::Disconnected));
    assert_eq!(
        TtpError::Disconnected.message(),
        "device disconnected during transfer"
    );
}

#[test]
fn stalled_device_is_given_up() {
    let mut t = session();
    let mut wait = t.recv(9);
    t.received(&mut wait, data(0, &[1, 2]));
    for _ in 0..2000 {
        assert_eq!(t.received(&mut wait, None).failed, None);
    }
    let error = t.received(&mut wait, None).failed.unwrap();
    assert_eq!(error, TtpError::Stalled { received: 2, expected: 9 });
    assert_eq!(error.message(), "device stopped sending after 2 of 9 bytes");
}

#[test]
fn credits_that_overflow_are_noticed() {
    let mut t = session();
    t.send_credit = i32::MAX - 3;
    assert!(t.can_count(&data(3, b"x")));
    assert!(!t.can_count(&data(4, b"x")));
    assert!(t.can_count_sent(&data(4, b"x")));
    assert!(!t.can_count_sent(&data(5, b"x")));
    assert!(!t.can_count(&confirmation(4)));
    assert!(t.can_count(&None));
    t.remote_credit = i32::MIN;
    t.send_credit = 0;
    assert!(!t.can_count(&data(0, b"x")));
}

#[test]
fn download_runs_to_its_end() {
    let mut d = Download::new();
    let none: Vec<u8> = vec![];
    let ten = vec![0x10, 0x27, 0, 0];
    let all = vec![0, 0, 0, 0, 0x10, 0x27, 0, 0];
    let expected: Vec<(u8, &Vec<u8>, usize, Vec<u8>, Option<&str>)> = vec![
        (0x1b, &none, 1, vec![1], None),
        (0x1c, &ten, 1, vec![1], Some("Handshake OK.")),
        (0x10, &none, 1, vec![0x11], None),
        (0x11, &none, 1, vec![2], None),
        (0x13, &none, 1, vec![3], None),
        (0x14, &none, 4, vec![0x39, 0x30, 0, 0], None),
        (
            0x1a,
            &none,
            4,
            vec![1, 0, 0, 0],
            Some("Device: model=0x11 hardware=0x02 software=0x03 serial=12345 devtime=1"),
        ),
        (0xc6, &all, 4, vec![3, 0, 0, 0], Some("Dive memory size: 3 bytes.")),
        (0xc4, &all, 4, vec![7, 0, 0, 0], Some("Downloading 3 bytes...")),
    ];
    for (cmd, params, size, reply, report) in expected {
        assert_eq!(
            d.request(),
            Request::Transfer { cmd, params: params.clone(), size }
        );
        assert!(d.can_compare());
        let (after, text) = next(d.answer(reply));
        d = after;
        assert_eq!(text.as_deref(), report);
    }
    assert_eq!(
        d.identity,
        Identity { model: 0x11, hardware: 2, software: 3, serial: 12345, devtime: 1 }
    );
    assert_eq!(d.request(), Request::Receive { size: 3 });
    assert_eq!(d.answer(vec![7, 8, 9]), Step::Complete(vec![7, 8, 9]));
}

#[test]
fn refused_handshakes_fail() {
    let e = match Download::new().answer(vec![0x0a]) {
        Step::Failed(e) => e,
        other => panic!("{other:?}"),
    };
    assert_eq!(e, DownloadError::Handshake { number: 1, reply: 0x0a });
    assert_eq!(e.message(), "handshake 1 failed (got [0a])");
    let (d, _) = next(Download::new().answer(vec![1]));
    assert_eq!(
        d.answer(vec![0]),
        Step::Failed(DownloadError::Handshake { number: 2, reply: 0 })
    );
}

#[test]
fn empty_memory_ends_the_download() {
    let mut d = Download::new();
    d.stage = Stage::Size;
    assert_eq!(
        d.answer(vec![0, 0, 0, 0]),
        Step::Empty {
            notice: "Dive memory size: 0 bytes.\nNo dive data on the device.".to_string()
        }
    );
}

#[test]
fn announced_length_must_fit() {
    let mut d = Download::new();
    d.stage = Stage::DataSize;
    d.length = 100;
    let e = match d.answer(vec![100, 0, 0, 0]) {
        Step::Failed(e) => e,
        other => panic!("{other:?}"),
    };
    assert_eq!(e.message(), "unexpected DATA size: got 100, expected 104");
    d.length = u32::MAX - 3;
    assert!(!d.can_compare());
    d.length = u32::MAX - 4;
    assert!(d.can_compare());
}
