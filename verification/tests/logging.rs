use stir4200::logging::{dump_frame, enabled, hexdump, level, log, set_level, Level, Verbosity};

const LEVELS: [Level; 5] = [Level::Error, Level::Warn, Level::Info, Level::Debug, Level::Trace];

#[test]
fn levels_are_set_and_read() {
    let mut v = Verbosity::default();
    assert_eq!(level(&v), Level::Info);
    for l in LEVELS {
        set_level(&mut v, l);
        assert_eq!(level(&v), l);
    }
    assert_eq!(level(&Verbosity { number: 200 }), Level::Trace);
}

#[test]
fn less_verbose_levels_are_enabled() {
    let mut v = Verbosity::default();
    for current in LEVELS {
        set_level(&mut v, current);
        for l in LEVELS {
            assert_eq!(enabled(&v, l), l <= current);
        }
    }
}

#[test]
fn messages_have_tags() {
    let v = Verbosity { number: 4 };
    assert_eq!(log(&v, Level::Error, "x y").unwrap(), "[ERROR] x y");
    assert_eq!(log(&v, Level::Warn, "x").unwrap(), "[WARN ] x");
    assert_eq!(log(&v, Level::Info, "x").unwrap(), "[INFO ] x");
    assert_eq!(log(&v, Level::Debug, "x").unwrap(), "[DEBUG] x");
    assert_eq!(log(&v, Level::Trace, "").unwrap(), "[TRACE] ");
    assert_eq!(log(&Verbosity::default(), Level::Debug, "x"), None);
}

#[test]
fn dump_of_nothing_is_empty() {
    assert_eq!(hexdump(&[]), "");
}

#[test]
fn dump_shows_offset_bytes_and_text() {
    let mut data = b"Galileo \x00\x7f~!".to_vec();
    assert_eq!(
        hexdump(&data),
        "  0000  47 61 6c 69 6c 65 6f 20  00 7f 7e 21              |Galileo ..~!|"
    );
    data.resize(17, 0xff);
    assert_eq!(
        hexdump(&data),
        "  0000  47 61 6c 69 6c 65 6f 20  00 7f 7e 21 ff ff ff ff  |Galileo ..~!....|\n\
         \x20 0010  ff                                                |.|"
    );
}

#[test]
fn offsets_grow_beyond_four_digits() {
    let data = vec![0u8; 0x10010];
    let dump = hexdump(&data);
    let last = dump.lines().last().unwrap();
    assert!(last.starts_with("  10000  00 00"));
    assert_eq!(dump.lines().count(), 0x1001);
}

#[test]
fn frames_are_shown_when_debugging() {
    assert_eq!(dump_frame(&Verbosity::default(), "RX", &[1]), None);
    assert_eq!(
        dump_frame(&Verbosity { number: 3 }, "RX", &[0x41]).unwrap(),
        format!("[DEBUG] RX 1 byte:\n  0000  {:<49} |A|", "41 ")
    );
}
