use stir4200::subsurface::dive::{Cylinder, Dive, DiveError, GasChange, Sample};
use stir4200::subsurface::xml::{
    accept, dive_summary, gas_label, rejection_text, write_xml, xml_escape,
};

fn dive() -> Dive {
    Dive {
        unix_time: 1_678_128_206,
        divetime_s: 3125,
        maxdepth: 3045,
        temp_min: 87,
        salt: true,
        cylinders: vec![],
        gas_changes: vec![],
        samples: vec![],
    }
}

fn sample(depth: i64) -> Sample {
    Sample { time: 0, depth, temp: None, pressure: None }
}

/// The lines of a divelog that start with `start`, without it.
fn values<'a>(xml: &'a str, start: &str) -> Vec<&'a str> {
    xml.lines().filter_map(|l| l.strip_prefix(start)).collect()
}

#[test]
fn markup_is_escaped() {
    assert_eq!(xml_escape("a<b>&'c\"&amp;"), "a&lt;b&gt;&amp;&apos;c\"&amp;amp;");
    assert_eq!(xml_escape("Galileo Sol é"), "Galileo Sol é");
    assert_eq!(xml_escape(""), "");
    let s = "x' onload='<&>";
    let escaped = xml_escape(s);
    assert!(!escaped.contains('\'') && !escaped.contains('<') && !escaped.contains('>'));
    let back = escaped
        .replace("&apos;", "'")
        .replace("&gt;", ">")
        .replace("&lt;", "<")
        .replace("&amp;", "&");
    assert_eq!(back, s);
}

#[test]
fn gases_have_names() {
    assert_eq!(gas_label(21, 0), "air");
    assert_eq!(gas_label(0, 0), "air");
    assert_eq!(gas_label(32, 0), "Nx32");
    assert_eq!(gas_label(18, 45), "Tx18/45");
    assert_eq!(gas_label(0, 5), "Tx0/5");
}

#[test]
fn empty_log() {
    assert_eq!(
        write_xml(&[], "x"),
        "<divelog program='stir4200' version='3'>\n<dives>\n</dives>\n</divelog>\n"
    );
}

#[test]
fn whole_log() {
    let mut d = dive();
    d.cylinders = vec![
        Cylinder { o2: 21, he: 0, begin: 200 * 128, end: 0 },
        Cylinder { o2: 18, he: 45, begin: 0, end: 60 * 128 + 65 },
    ];
    d.gas_changes = vec![
        GasChange { time: 0, cylinder: 0, o2: 21, he: 0 },
        GasChange { time: 61, cylinder: 1, o2: 18, he: 45 },
    ];
    d.samples = vec![
        Sample { time: 0, depth: -3, temp: None, pressure: None },
        Sample { time: 4, depth: 100, temp: Some(50), pressure: Some(803) },
        Sample { time: 64, depth: 41, temp: Some(-1), pressure: Some(0) },
    ];
    let text = write_xml(&[dive(), d], "Galileo 'Sol'");
    assert_eq!(
        text,
        "<divelog program='stir4200' version='3'>\n\
         <dives>\n\
         <dive number='1' date='2023-03-06' time='18:43:26' duration='52:05 min'>\n\
         \x20 <divecomputer model='Galileo &apos;Sol&apos;' salinity='1025 g/l'>\n\
         \x20   <depth max='29.71 m' />\n\
         \x20   <temperature water='8.7 C' />\n\
         \x20 </divecomputer>\n\
         </dive>\n\
         <dive number='2' date='2023-03-06' time='18:43:26' duration='52:05 min'>\n\
         \x20 <cylinder o2='21.0%' description='mix 1' start='200 bar' />\n\
         \x20 <cylinder o2='18.0%' he='45.0%' description='mix 2' end='61 bar' />\n\
         \x20 <divecomputer model='Galileo &apos;Sol&apos;' salinity='1025 g/l'>\n\
         \x20   <depth max='29.71 m' />\n\
         \x20   <temperature water='8.7 C' />\n\
         \x20   <event time='0:00 min' type='25' name='gaschange' cylinder='0' o2='21.0%' />\n\
         \x20   <event time='1:01 min' type='25' name='gaschange' cylinder='1' o2='18.0%' he='45.0%' />\n\
         \x20   <sample time='0:00 min' depth='0.00 m' />\n\
         \x20   <sample time='0:04 min' depth='1.95 m' temp='20.0 C' pressure='200.8 bar' />\n\
         \x20   <sample time='1:04 min' depth='0.80 m' temp='-0.4 C' />\n\
         \x20 </divecomputer>\n\
         </dive>\n\
         </dives>\n\
         </divelog>\n"
    );
}

#[test]
fn greatest_depth_is_rounded_like_a_float() {
    for salt in [false, true] {
        let density = if salt { 1025.0 } else { 1000.0 };
        let dives: Vec<Dive> = (0..=u16::MAX)
            .step_by(3)
            .map(|raw| Dive { maxdepth: raw, salt, ..dive() })
            .collect();
        let text = write_xml(&dives, "m");
        let printed = values(&text, "    <depth max='");
        assert_eq!(printed.len(), dives.len());
        for (d, p) in dives.iter().zip(printed) {
            let metres = d.maxdepth as f64 * (100000.0 / 1000.0) / (density * 10.0);
            assert_eq!(p, format!("{metres:.2} m' />"));
        }
    }
}

#[test]
fn sample_depth_is_rounded_like_a_float() {
    for salt in [false, true] {
        let density = if salt { 1025.0 } else { 1000.0 };
        let mut d = Dive { salt, ..dive() };
        d.samples = (-5..30000).map(sample).collect();
        d.samples.extend((0..200).map(|k| sample(1_000_003 * k)));
        let text = write_xml(&[d], "m");
        let printed = values(&text, "    <sample time='0:00 min' depth='");
        let depths = (-5..30000).chain((0..200).map(|k| 1_000_003 * k));
        assert_eq!(printed.len(), 30205);
        for (steps, p) in depths.zip(printed) {
            let metres = steps as f64 * (2.0 * 100000.0 / 1000.0) / (density * 10.0);
            assert_eq!(p, format!("{:.2} m' />", metres.max(0.0)));
        }
    }
}

#[test]
fn temperature_and_pressure_are_rounded_like_floats() {
    let mut d = dive();
    d.samples = (-3000..3000)
        .map(|t| Sample { time: 0, depth: 0, temp: Some(t), pressure: Some(t as i64 + 2000) })
        .collect();
    let text = write_xml(&[d], "m");
    let printed = values(&text, "    <sample time='0:00 min' depth='0.00 m' temp='");
    assert_eq!(printed.len(), 6000);
    for (t, p) in (-3000..3000).zip(printed) {
        let temp = t as f64 / 2.5;
        let pressure = (t + 2000) as f64 / 4.0;
        if pressure > 0.0 {
            assert_eq!(p, format!("{temp:.1} C' pressure='{pressure:.1} bar' />"));
        } else {
            assert_eq!(p, format!("{temp:.1} C' />"));
        }
    }
}

#[test]
fn lowest_temperature_is_shown_in_tenths() {
    for raw in [i16::MIN, -105, -100, -5, 0, 5, 99, 287, i16::MAX] {
        let text = write_xml(&[Dive { temp_min: raw, ..dive() }], "m");
        let printed = values(&text, "    <temperature water='");
        assert_eq!(printed, vec![format!("{:.1} C' />", raw as f64 / 10.0)]);
    }
}

#[test]
fn cylinders_are_rounded_like_floats() {
    let mut d = dive();
    d.cylinders = (0..=u16::MAX)
        .step_by(7)
        .map(|raw| Cylinder { o2: raw % 101, he: raw % 40, begin: raw, end: raw ^ 1 })
        .collect();
    let expected: Vec<String> = d
        .cylinders
        .iter()
        .enumerate()
        .map(|(i, c)| {
            let mut s = format!("o2='{:.1}%'", c.o2 as f64 / 100.0 * 100.0);
            if c.he > 0 {
                s += &format!(" he='{:.1}%'", c.he as f64 / 100.0 * 100.0);
            }
            s += &format!(" description='mix {}'", i + 1);
            if c.begin > 0 {
                s += &format!(" start='{:.0} bar'", c.begin as f64 / 128.0);
            }
            if c.end > 0 {
                s += &format!(" end='{:.0} bar'", c.end as f64 / 128.0);
            }
            s + " />"
        })
        .collect();
    let text = write_xml(&[d], "m");
    assert_eq!(values(&text, "  <cylinder "), expected);
}

#[test]
fn half_bars_are_rounded_to_even() {
    let mut d = dive();
    d.cylinders = vec![
        Cylinder { o2: 21, he: 0, begin: 64, end: 192 },
        Cylinder { o2: 21, he: 0, begin: 320, end: 321 },
    ];
    let text = write_xml(&[d], "m");
    assert_eq!(
        values(&text, "  <cylinder o2='21.0%' description="),
        vec!["'mix 1' start='0 bar' end='2 bar' />", "'mix 2' start='2 bar' end='3 bar' />"]
    );
}

#[test]
fn years_outside_four_digits() {
    let text = write_xml(&[Dive { unix_time: -62_198_755_200, ..dive() }], "m");
    assert!(text.contains("<dive number='1' date='-001-01-01' time='00:00:00'"));
    let text = write_xml(&[Dive { unix_time: 253_402_300_800, ..dive() }], "m");
    assert!(text.contains("<dive number='1' date='10000-01-01' time='00:00:00'"));
}

#[test]
fn only_dives_are_accepted() {
    let kept = accept(vec![
        Err(DiveError::TooShort),
        Ok(Dive { maxdepth: 1, ..dive() }),
        Err(DiveError::InvalidType(0xff)),
        Ok(Dive { maxdepth: 2, ..dive() }),
    ]);
    let depths: Vec<u16> = kept.iter().map(|d| d.maxdepth).collect();
    assert_eq!(depths, vec![1, 2]);
    assert!(accept(vec![]).is_empty());
}

#[test]
fn summaries_are_lines() {
    let mut d = dive();
    assert_eq!(
        dive_summary(7, &d, "29.7"),
        "  dive   7: 2023-03-06 18:43   52 min  max  29.7 m  min  8.7 C  salt   0 samples\n"
    );
    d.salt = false;
    d.samples = vec![sample(1), sample(2)];
    d.cylinders = vec![
        Cylinder { o2: 21, he: 0, begin: 0, end: 0 },
        Cylinder { o2: 32, he: 0, begin: 0, end: 0 },
    ];
    assert_eq!(
        dive_summary(1234, &d, "100.25"),
        "  dive 1234: 2023-03-06 18:43   52 min  max 100.25 m  min  8.7 C  fresh  2 samples\n\
         \x20          gas: air, Nx32\n"
    );
}

#[test]
fn refused_records_are_told() {
    assert_eq!(
        rejection_text(3, &DiveError::InvalidType(0xfd)),
        "  dive 3: parse error: invalid sample type bits 0xfd"
    );
}
