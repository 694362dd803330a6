use stir4200::subsurface::calendar::civil;
use stir4200::subsurface::dive::{
    parse_dive, parse_dump, try_parse_dive, Cylinder, Dive, DiveError, Dump, GasChange, Sample,
};
use stir4200::subsurface::records::{extract_dives, has_whole_lengths, u16_le, u32_le, MARKER};
use stir4200::subsurface::stream::{galileo_identify, signextend};

/// A record with the long header, 21 % oxygen in the first mix and the given
/// stream.
fn galileo(stream: &[u8]) -> Vec<u8> {
    let mut r = vec![0u8; 152];
    r[..4].copy_from_slice(&MARKER);
    r[8..12].copy_from_slice(&200u32.to_le_bytes());
    r[16] = 0xfc;
    r[22..24].copy_from_slice(&1234u16.to_le_bytes());
    r[26..28].copy_from_slice(&45u16.to_le_bytes());
    r[30..32].copy_from_slice(&(-15i16).to_le_bytes());
    r[44..46].copy_from_slice(&21u16.to_le_bytes());
    r[48..50].copy_from_slice(&50u16.to_le_bytes());
    r[50..52].copy_from_slice(&(60u16 * 128).to_le_bytes());
    r[54..56].copy_from_slice(&0xffffu16.to_le_bytes());
    r[56..58].copy_from_slice(&(200u16 * 128).to_le_bytes());
    r[94] = 0x10;
    r.extend_from_slice(stream);
    let len = r.len() as u32;
    r[4..8].copy_from_slice(&len.to_le_bytes());
    r
}

/// A trimix record with the given stream.
fn trimix(stream: &[u8]) -> Vec<u8> {
    let mut r = vec![0u8; 84];
    r[..4].copy_from_slice(&MARKER);
    r[43] = 0x80;
    r.extend_from_slice(stream);
    let len = r.len() as u32;
    r[4..8].copy_from_slice(&len.to_le_bytes());
    r
}

fn mix(id: u8, o2: u16, he: u16, begin: u16, end: u16) -> Vec<u8> {
    let mut v = vec![0xfb, 16, 32 + id];
    for n in [o2, he, begin, end] {
        v.extend_from_slice(&n.to_le_bytes());
    }
    v.extend_from_slice(&[0; 6]);
    v
}

fn point(time: u32, depth: i64, temp: Option<i32>, pressure: Option<i64>) -> Sample {
    Sample { time, depth, temp, pressure }
}

#[test]
fn identify_bits() {
    assert_eq!(galileo_identify(0b0000_0000), 0);
    assert_eq!(galileo_identify(0b0111_1111), 0);
    assert_eq!(galileo_identify(0b1000_0000), 1);
    assert_eq!(galileo_identify(0b1010_0000), 2);
    assert_eq!(galileo_identify(0b1011_0000), 3);
    assert_eq!(galileo_identify(0b1100_0000), 4);
    assert_eq!(galileo_identify(0b1111_0001), 8);
    assert_eq!(galileo_identify(0b1111_1011), 18);
}

#[test]
fn signextend_works() {
    assert_eq!(signextend(0b0011_1111, 7), 63);
    assert_eq!(signextend(0b0000_0001, 7), 1);
    assert_eq!(signextend(0b0111_1111, 7), -1);
    assert_eq!(signextend(0b0100_0000, 7), -64);
    assert_eq!(signextend(0, 0), 0);
}

#[test]
fn civil_epoch() {
    assert_eq!(civil(946_684_800), (2000, 1, 1, 0, 0, 0));
    assert_eq!(civil(1_678_128_206), (2023, 3, 6, 18, 43, 26));
}

#[test]
fn extract_finds_records() {
    let mut dump = Vec::new();
    for _ in 0..2 {
        dump.extend_from_slice(&MARKER);
        dump.extend_from_slice(&8u32.to_le_bytes());
    }
    let recs = extract_dives(&dump);
    assert_eq!(recs.len(), 2);
    assert!(recs.iter().all(|r| r.len() == 8));
}

#[test]
fn every_byte_has_a_type() {
    for b in 0..=255u8 {
        let expected = match b {
            0x00..=0x7f => 0,
            0x80..=0x9f => 1,
            0xa0..=0xaf => 2,
            0xb0..=0xbf => 3,
            0xc0..=0xcf => 4,
            0xd0..=0xdf => 5,
            0xe0..=0xef => 6,
            0xf0..=0xff => (b - 0xf0) as usize + 7,
        };
        assert_eq!(galileo_identify(b), expected);
    }
}

#[test]
fn sign_extension_at_its_limits() {
    assert_eq!(signextend(0xffff_ffff, 32), -1);
    assert_eq!(signextend(0x8000_0000, 32), i32::MIN);
    assert_eq!(signextend(1, 1), -1);
    assert_eq!(signextend(0x1ff, 8), -1);
    assert_eq!(signextend(5, 33), 0);
}

#[test]
fn civil_dates_follow_the_calendar() {
    assert_eq!(civil(0), (1970, 1, 1, 0, 0, 0));
    assert_eq!(civil(-1), (1969, 12, 31, 23, 59, 59));
    assert_eq!(civil(951_782_400), (2000, 2, 29, 0, 0, 0));
    assert_eq!(civil(4_107_542_400), (2100, 3, 1, 0, 0, 0));
    let mut previous = civil(0);
    for day in 1..200_000i64 {
        let c = civil(day * 86_400);
        let next_day = c.0 == previous.0 && c.1 == previous.1 && c.2 == previous.2 + 1;
        let next_month = c.2 == 1 && c.0 == previous.0 && c.1 == previous.1 + 1;
        let next_year = c.2 == 1 && c.1 == 1 && c.0 == previous.0 + 1;
        assert!(next_day || next_month || next_year);
        previous = c;
    }
    assert_eq!(previous, (2517, 7, 31, 0, 0, 0));
}

#[test]
fn numbers_in_a_record() {
    assert_eq!(u16_le(&[0, 0x34, 0x12], 1), 0x1234);
    assert_eq!(u32_le(&[0, 0x78, 0x56, 0x34, 0x12], 1), 0x12345678);
}

#[test]
fn records_come_oldest_first() {
    let a = galileo(&[0x01]);
    let b = galileo(&[0x02, 0x03]);
    let mut dump = vec![0xde, 0xad];
    dump.extend_from_slice(&a);
    dump.extend_from_slice(&[0xa5, 0xa5]);
    dump.extend_from_slice(&b);
    dump.extend_from_slice(&[0; 9]);
    assert_eq!(extract_dives(&dump), vec![&a[..], &b[..]]);
}

#[test]
fn search_stops_at_a_wrong_length() {
    let a = galileo(&[]);
    let mut wrong = galileo(&[]);
    wrong[4..8].copy_from_slice(&7u32.to_le_bytes());
    let mut dump = a.clone();
    dump.extend_from_slice(&wrong);
    dump.extend_from_slice(&a);
    assert_eq!(extract_dives(&dump).len(), 1);
    let mut long = galileo(&[]);
    long[4..8].copy_from_slice(&153u32.to_le_bytes());
    assert!(extract_dives(&long).is_empty());
    assert!(extract_dives(&[]).is_empty());
    assert!(extract_dives(&MARKER).is_empty());
}

#[test]
fn marker_without_its_length_is_noticed() {
    let mut dump = vec![0u8; 10];
    dump.extend_from_slice(&MARKER);
    assert!(has_whole_lengths(&dump));
    dump.push(0);
    assert!(!has_whole_lengths(&dump));
    dump.extend_from_slice(&[0, 0]);
    assert!(!has_whole_lengths(&dump));
    dump.push(0);
    assert!(has_whole_lengths(&dump));
    assert!(matches!(parse_dump(&dump[..17]), Dump::OutOfRange));
}

#[test]
fn header_of_a_dive() {
    let d = parse_dive(&galileo(&[])).unwrap();
    assert_eq!(
        d,
        Dive {
            unix_time: 946_684_800 + 100 - 4 * 900,
            divetime_s: 2700,
            maxdepth: 1234,
            temp_min: -15,
            salt: true,
            cylinders: vec![
                Cylinder { o2: 21, he: 0, begin: 200 * 128, end: 60 * 128 },
                Cylinder { o2: 50, he: 0, begin: 0, end: 0 },
            ],
            gas_changes: vec![],
            samples: vec![],
        }
    );
}

#[test]
fn profile_of_a_dive() {
    let d = parse_dive(&galileo(&[
        0x05, // depth delta, before any absolute depth
        0xf1, 0x01, 0x00, // absolute depth 256
        0xf3, 0x00, 0x32, // absolute temperature 50
        0xf4, 0x03, 0x20, // absolute pressure 800, first tank
        0x0a, // depth +10
        0xbf, // temperature -1
        0xaf, // pressure -1
        0x7f, // depth -1
        0xc2, // two more points
        0x83, 0xd1, 0xe7, // other readings
        0xf6, 0x02, 0x00, // absolute pressure 512, third tank
        0xc1,
    ]))
    .unwrap();
    assert_eq!(
        d.samples,
        vec![
            point(0, 0, None, None),
            point(4, 0, None, None),
            point(8, 10, Some(50), Some(800)),
            point(12, 9, Some(49), Some(799)),
            point(16, 9, Some(49), Some(799)),
            point(20, 9, Some(49), Some(799)),
            point(24, 9, Some(49), Some(512)),
        ]
    );
    assert_eq!(
        d.gas_changes,
        vec![
            GasChange { time: 0, cylinder: 0, o2: 21, he: 0 },
            GasChange { time: 24, cylinder: 1, o2: 50, he: 0 },
        ]
    );
}

#[test]
fn alarm_selects_a_gas() {
    let d = parse_dive(&galileo(&[0x01, 0xf0, 0x40, 0x01, 0xf0, 0x20, 0x01, 0xf0, 0x40, 0x01]))
        .unwrap();
    let changes: Vec<(u32, usize)> = d.gas_changes.iter().map(|g| (g.time, g.cylinder)).collect();
    assert_eq!(changes, vec![(0, 0), (4, 1), (12, 1)]);
}

#[test]
fn freedives_have_a_point_every_second() {
    let mut r = galileo(&[0x01, 0x01, 0x01]);
    r[92] = 0x80;
    r[94] = 0;
    let d = parse_dive(&r).unwrap();
    assert!(!d.salt);
    let times: Vec<u32> = d.samples.iter().map(|s| s.time).collect();
    assert_eq!(times, vec![0, 1, 2]);
    assert_eq!((d.cylinders[0].begin, d.cylinders[0].end), (0, 0));
}

#[test]
fn trimix_dives_describe_their_gases_in_the_stream() {
    let mut stream = mix(3, 18, 45, 200 * 128, 0xffff);
    stream.extend_from_slice(&mix(1, 50, 0, 0, 40 * 128));
    stream.extend_from_slice(&mix(1, 99, 0, 0, 0));
    stream.extend_from_slice(&mix(2, 0, 0, 1, 1));
    stream.extend_from_slice(&[0xf4, 0x31, 0x23, 0x01]);
    stream.extend_from_slice(&[0xf9, 0x1f, 0x01]);
    let d = parse_dive(&trimix(&stream)).unwrap();
    assert_eq!(
        d.cylinders,
        vec![
            Cylinder { o2: 50, he: 0, begin: 0, end: 40 * 128 },
            Cylinder { o2: 18, he: 45, begin: 200 * 128, end: 0 },
        ]
    );
    assert_eq!(
        d.gas_changes,
        vec![
            GasChange { time: 0, cylinder: 1, o2: 18, he: 45 },
            GasChange { time: 4, cylinder: 0, o2: 50, he: 0 },
        ]
    );
    assert_eq!(
        d.samples,
        vec![point(0, 0, None, Some(0x123)), point(4, 0, None, Some(0x123))]
    );
}

#[test]
fn incomplete_items_end_the_profile() {
    for stream in [
        &[0x01, 0xf1, 0x01][..],
        &[0x01, 0xfb, 0x00, 0x01][..],
        &[0x01, 0xfb, 0x05, 0x20][..],
        &[0x01, 0xfa, 0, 0][..],
    ] {
        let d = parse_dive(&galileo(stream)).unwrap();
        assert_eq!(d.samples.len(), 1);
    }
}

#[test]
fn wrong_records_are_refused() {
    assert_eq!(parse_dive(&[0; 43]), Err(DiveError::TooShort));
    assert_eq!(DiveError::TooShort.message(), "dive record too short");
    let e = parse_dive(&galileo(&[])[..151]).unwrap_err();
    assert_eq!(e.message(), "dive record shorter (151) than header (152)");
    let e = parse_dive(&trimix(&[])[..83]).unwrap_err();
    assert_eq!(e, DiveError::ShorterThanHeader { len: 83, header: 84 });
    let e = parse_dive(&galileo(&[0x01, 0xfc])).unwrap_err();
    assert_eq!(e, DiveError::InvalidType(0xfc));
    assert_eq!(e.message(), "invalid sample type bits 0xfc");
}

#[test]
fn records_beyond_reading() {
    assert!(try_parse_dive(&galileo(&[0xfb, 0x01])).is_none());
    let mut dump = galileo(&[0xfb, 0x01]);
    assert!(matches!(parse_dump(&dump), Dump::OutOfRange));
    dump = galileo(&[0x01]);
    match parse_dump(&dump) {
        Dump::Dives(dives) => assert_eq!(dives.len(), 1),
        _ => panic!("readable"),
    }
}

#[test]
fn dumps_give_all_their_dives() {
    let mut dump = galileo(&[0x01]);
    dump.extend_from_slice(&galileo(&[0xff]));
    dump.extend_from_slice(&trimix(&[0xc3]));
    match parse_dump(&dump) {
        Dump::Dives(dives) => {
            assert_eq!(dives.len(), 3);
            assert_eq!(dives[0].as_ref().unwrap().samples.len(), 1);
            assert_eq!(dives[1].as_ref().unwrap_err(), &DiveError::InvalidType(0xff));
            assert_eq!(dives[2].as_ref().unwrap().samples.len(), 3);
        }
        _ => panic!("three records"),
    }
    assert!(matches!(parse_dump(&[1, 2, 3]), Dump::NoRecords));
}
