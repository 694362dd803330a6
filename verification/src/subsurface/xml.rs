//! The parsed dives as a Subsurface divelog, and as a summary for the terminal.
//!
//! Depths, temperatures and pressures are printed from the integer units of the
//! dive computer. Depth is water pressure divided by density and by 10 m/s²;
//! numbers that fall between two printed values are rounded to the nearest, and
//! halfway to the even last digit.

use vstd::prelude::*;

use super::calendar;
use super::dive::Cylinder;
use super::dive::Dive;
use super::dive::DiveError;
use super::dive::DiveView;
use super::dive::GasChange;
use super::dive::Sample;
use crate::text;

verus! {

/// What stands for a character inside an attribute value.
pub open spec fn escaped_char(c: char) -> Seq<char> {
    if c == '&' {
        "&amp;"@
    } else if c == '<' {
        "&lt;"@
    } else if c == '>' {
        "&gt;"@
    } else if c == '\'' {
        "&apos;"@
    } else {
        seq![c]
    }
}

/// What stands for a text inside an attribute value.
pub open spec fn escaped(s: Seq<char>) -> Seq<char>
    decreases s.len(),
{
    if s.len() == 0 {
        Seq::empty()
    } else {
        escaped(s.drop_last()) + escaped_char(s.last())
    }
}

/// Replaces the characters that an attribute value cannot hold.
pub fn xml_escape(s: &str) -> (r: String)
    ensures
        r@ == escaped(s@),
{
    let mut out = String::new();
    let ghost all = s@;
    for c in it: s.chars()
        invariant
            it.seq() == all,
            out@ == escaped(all.take(it.index() as int)),
    {
        let ghost done = it.index() as int;
        assert(all.take(done + 1).drop_last() =~= all.take(done));
        let ghost before = out@;
        if c == '&' {
            out.append("&amp;");
        } else if c == '<' {
            out.append("&lt;");
        } else if c == '>' {
            out.append("&gt;");
        } else if c == '\'' {
            out.append("&apos;");
        } else {
            out.push(c);
            assert(out@ =~= before + seq![c]);
        }
    }
    assert(all.take(all.len() as int) =~= all);
    out
}

/// The text that an attribute value stands for.
pub open spec fn unescaped(s: Seq<char>) -> Seq<char>
    decreases s.len(),
{
    if s.len() == 0 {
        Seq::empty()
    } else if s.len() >= 5 && s.take(5) == "&amp;"@ {
        seq!['&'] + unescaped(s.skip(5))
    } else if s.len() >= 4 && s.take(4) == "&lt;"@ {
        seq!['<'] + unescaped(s.skip(4))
    } else if s.len() >= 4 && s.take(4) == "&gt;"@ {
        seq!['>'] + unescaped(s.skip(4))
    } else if s.len() >= 6 && s.take(6) == "&apos;"@ {
        seq!['\''] + unescaped(s.skip(6))
    } else {
        seq![s[0]] + unescaped(s.skip(1))
    }
}

/// Whether a character would end the attribute value or open a tag.
pub open spec fn is_markup(c: char) -> bool {
    c == '<' || c == '>' || c == '\''
}

proof fn entities()
    ensures
        "&amp;"@ == seq!['&', 'a', 'm', 'p', ';'],
        "&lt;"@ == seq!['&', 'l', 't', ';'],
        "&gt;"@ == seq!['&', 'g', 't', ';'],
        "&apos;"@ == seq!['&', 'a', 'p', 'o', 's', ';'],
{
    reveal_strlit("&amp;");
    reveal_strlit("&lt;");
    reveal_strlit("&gt;");
    reveal_strlit("&apos;");
    assert("&amp;"@ =~= seq!['&', 'a', 'm', 'p', ';']);
    assert("&lt;"@ =~= seq!['&', 'l', 't', ';']);
    assert("&gt;"@ =~= seq!['&', 'g', 't', ';']);
    assert("&apos;"@ =~= seq!['&', 'a', 'p', 'o', 's', ';']);
}

/// An escaped text holds no quote and no angle bracket, whatever the text.
pub proof fn escaping_leaves_no_markup(s: Seq<char>)
    ensures
        forall|i: int| 0 <= i < escaped(s).len() ==> !is_markup(#[trigger] escaped(s)[i]),
    decreases s.len(),
{
    if s.len() > 0 {
        escaping_leaves_no_markup(s.drop_last());
        entities();
        let head = escaped(s.drop_last());
        let piece = escaped_char(s.last());
        assert forall|i: int| 0 <= i < escaped(s).len() implies !is_markup(
            #[trigger] escaped(s)[i],
        ) by {
            if i < head.len() {
                assert(escaped(s)[i] == head[i]);
            } else {
                assert(escaped(s)[i] == piece[i - head.len()]);
            }
        }
    }
}

proof fn escaped_from_the_front(s: Seq<char>)
    requires
        s.len() > 0,
    ensures
        escaped(s) == escaped_char(s[0]) + escaped(s.skip(1)),
    decreases s.len(),
{
    if s.len() == 1 {
        assert(s.drop_last() =~= Seq::empty());
        assert(s.skip(1) =~= Seq::empty());
        assert(escaped(s) =~= escaped_char(s[0]) + escaped(s.skip(1)));
    } else {
        escaped_from_the_front(s.drop_last());
        assert(s.drop_last().skip(1) =~= s.skip(1).drop_last());
        assert(escaped(s) =~= escaped_char(s[0]) + escaped(s.skip(1)));
    }
}

/// An escaped text stands for the text that it was made of; so different texts
/// are never escaped alike.
pub proof fn escaping_is_undone(s: Seq<char>)
    ensures
        unescaped(escaped(s)) == s,
    decreases s.len(),
{
    entities();
    if s.len() > 0 {
        let rest = escaped(s.skip(1));
        let piece = escaped_char(s[0]);
        let e = escaped(s);
        escaped_from_the_front(s);
        escaping_is_undone(s.skip(1));
        assert(e[0] == piece[0]);
        assert(e.take(piece.len() as int) =~= piece);
        assert(e.skip(piece.len() as int) =~= rest);
        assert(s =~= seq![s[0]] + s.skip(1));
        if s[0] == '&' || is_markup(s[0]) {
            assert(e[1] == piece[1] && e[2] == piece[2]);
            assert(e.take(4)[1] == e[1]);
            assert(e.len() >= 5 ==> e.take(5)[1] == e[1] && e.take(5)[2] == e[2]);
            assert(e.len() >= 6 ==> e.take(6)[1] == e[1] && e.take(6)[2] == e[2]);
        } else {
            assert(e.len() >= 6 ==> e.take(6)[0] == e[0]);
            assert(e.len() >= 5 ==> e.take(5)[0] == e[0]);
            assert(e.len() >= 4 ==> e.take(4)[0] == e[0]);
        }
    }
}

/// Density of the water in g/l.
pub open spec fn salinity(salt: bool) -> nat {
    if salt {
        1025
    } else {
        1000
    }
}

/// Depth in centimetres under `mbar` of water: one per millibar in fresh water,
/// 40/41 of that in salt water.
pub open spec fn centimetres(mbar: nat, salt: bool) -> nat {
    if salt {
        (80 * mbar + 41) / 82
    } else {
        mbar
    }
}

fn depth_cm(steps: u64, salt: bool) -> (r: u64)
    requires
        steps <= i64::MAX,
    ensures
        r == centimetres(2 * steps as nat, salt),
{
    if salt {
        let k: u64 = steps / 41;
        let rest: u64 = steps % 41;
        k * 80 + (rest * 160 + 41) / 82
    } else {
        2 * steps
    }
}

/// A pressure in steps of 1/128 bar, in whole bar.
pub open spec fn whole_bar(raw: nat) -> nat {
    let q = raw / 128;
    if raw % 128 > 64 || (raw % 128 == 64 && q % 2 == 1) {
        q + 1
    } else {
        q
    }
}

fn bar(raw: u16) -> (r: u64)
    ensures
        r == whole_bar(raw as nat),
{
    let q: u64 = (raw / 128) as u64;
    if raw % 128 > 64 || (raw % 128 == 64 && q % 2 == 1) {
        q + 1
    } else {
        q
    }
}

/// A pressure in quarters of a bar, with one decimal place.
pub open spec fn quarter_bar(quarters: nat) -> Seq<char> {
    text::decimal(quarters / 4) + if quarters % 4 == 0 {
        ".0"@
    } else if quarters % 4 == 1 {
        ".2"@
    } else if quarters % 4 == 2 {
        ".5"@
    } else {
        ".8"@
    }
}

fn quarter_bar_text(quarters: u64) -> (r: String)
    ensures
        r@ == quarter_bar(quarters as nat),
{
    let mut s = text::decimal_text(quarters / 4);
    let rest: u64 = quarters % 4;
    s.append(
        if rest == 0 {
            ".0"
        } else if rest == 1 {
            ".2"
        } else if rest == 2 {
            ".5"
        } else {
            ".8"
        },
    );
    s
}

/// A whole percentage with one decimal place.
pub open spec fn percent(p: nat) -> Seq<char> {
    text::decimal(p) + ".0%"@
}

fn percent_text(p: u16) -> (r: String)
    ensures
        r@ == percent(p as nat),
{
    let mut s = text::decimal_text(p as u64);
    s.append(".0%");
    s
}

/// A duration in minutes and seconds.
pub open spec fn minutes(secs: nat) -> Seq<char> {
    text::decimal(secs / 60) + ":"@ + text::zero_decimal(secs % 60, 2) + " min"@
}

fn minutes_text(secs: u32) -> (r: String)
    ensures
        r@ == minutes(secs as nat),
{
    let mut s = text::decimal_text((secs / 60) as u64);
    s.append(":");
    s.append(text::zero_decimal_text((secs % 60) as u64, 2).as_str());
    s.append(" min");
    s
}

/// ` name='value'`, or nothing.
pub open spec fn attribute_if(present: bool, name: Seq<char>, value: Seq<char>) -> Seq<char> {
    if present {
        name + value + "'"@
    } else {
        Seq::empty()
    }
}

fn push_attribute_if(out: &mut String, present: bool, name: &str, value: &str)
    ensures
        final(out)@ == old(out)@ + attribute_if(present, name@, value@),
{
    if present {
        let mut s = name.to_owned();
        s.append(value);
        s.append("'");
        out.append(s.as_str());
    } else {
        assert(old(out)@ + Seq::<char>::empty() =~= old(out)@);
    }
}

/// The element of cylinder number `number`.
pub open spec fn cylinder_xml(number: nat, c: Cylinder) -> Seq<char> {
    "  <cylinder o2='"@ + percent(c.o2 as nat) + "'"@ + attribute_if(
        c.he > 0,
        " he='"@,
        percent(c.he as nat),
    ) + " description='mix "@ + text::decimal(number) + "'"@ + attribute_if(
        c.begin > 0,
        " start='"@,
        text::decimal(whole_bar(c.begin as nat)) + " bar"@,
    ) + attribute_if(c.end > 0, " end='"@, text::decimal(whole_bar(c.end as nat)) + " bar"@)
        + " />\n"@
}

fn cylinder_element(number: u64, c: Cylinder) -> (r: String)
    ensures
        r@ == cylinder_xml(number as nat, c),
{
    let mut s = "  <cylinder o2='".to_owned();
    s.append(percent_text(c.o2).as_str());
    s.append("'");
    push_attribute_if(&mut s, c.he > 0, " he='", percent_text(c.he).as_str());
    s.append(" description='mix ");
    s.append(text::decimal_text(number).as_str());
    s.append("'");
    let mut begin = text::decimal_text(bar(c.begin));
    begin.append(" bar");
    push_attribute_if(&mut s, c.begin > 0, " start='", begin.as_str());
    let mut end = text::decimal_text(bar(c.end));
    end.append(" bar");
    push_attribute_if(&mut s, c.end > 0, " end='", end.as_str());
    s.append(" />\n");
    s
}

/// The elements of the first `n` cylinders.
pub open spec fn cylinders_xml(cylinders: Seq<Cylinder>, n: nat) -> Seq<char>
    decreases n,
{
    if n == 0 {
        Seq::empty()
    } else {
        cylinders_xml(cylinders, (n - 1) as nat) + cylinder_xml(n, cylinders[n - 1])
    }
}

/// The element of a gas change.
pub open spec fn change_xml(g: GasChange) -> Seq<char> {
    "    <event time='"@ + minutes(g.time as nat)
        + "' type='25' name='gaschange' cylinder='"@ + text::decimal(g.cylinder as nat) + "' o2='"@
        + percent(g.o2 as nat) + "'"@ + attribute_if(g.he > 0, " he='"@, percent(g.he as nat))
        + " />\n"@
}

fn change_element(g: GasChange) -> (r: String)
    ensures
        r@ == change_xml(g),
{
    let mut s = "    <event time='".to_owned();
    s.append(minutes_text(g.time).as_str());
    s.append("' type='25' name='gaschange' cylinder='");
    s.append(text::decimal_text(g.cylinder as u64).as_str());
    s.append("' o2='");
    s.append(percent_text(g.o2).as_str());
    s.append("'");
    push_attribute_if(&mut s, g.he > 0, " he='", percent_text(g.he).as_str());
    s.append(" />\n");
    s
}

/// The elements of the first `n` gas changes.
pub open spec fn changes_xml(changes: Seq<GasChange>, n: nat) -> Seq<char>
    decreases n,
{
    if n == 0 {
        Seq::empty()
    } else {
        changes_xml(changes, (n - 1) as nat) + change_xml(changes[n - 1])
    }
}

/// The element of a profile point; a point above the surface is shown at it.
pub open spec fn sample_xml(p: Sample, salt: bool) -> Seq<char> {
    let steps = if p.depth > 0 {
        p.depth as nat
    } else {
        0
    };
    let head = "    <sample time='"@ + minutes(p.time as nat) + "' depth='"@ + text::two_places(
        centimetres(2 * steps, salt),
    ) + " m'"@;
    let temp = match p.temp {
        Some(t) => " temp='"@ + text::one_place(4 * t) + " C'"@,
        None => Seq::empty(),
    };
    let pressure = match p.pressure {
        Some(q) => if q > 0 {
            " pressure='"@ + quarter_bar(q as nat) + " bar'"@
        } else {
            Seq::empty()
        },
        None => Seq::empty(),
    };
    head + temp + pressure + " />\n"@
}

fn sample_element(p: Sample, salt: bool) -> (r: String)
    ensures
        r@ == sample_xml(p, salt),
{
    let steps: u64 = if p.depth > 0 { p.depth as u64 } else { 0 };
    let mut s = "    <sample time='".to_owned();
    s.append(minutes_text(p.time).as_str());
    s.append("' depth='");
    s.append(text::two_places_text(depth_cm(steps, salt)).as_str());
    s.append(" m'");
    let mut temp = String::new();
    if let Some(t) = p.temp {
        temp = " temp='".to_owned();
        temp.append(text::one_place_text(4 * t as i64).as_str());
        temp.append(" C'");
    }
    s.append(temp.as_str());
    let mut pressure = String::new();
    if let Some(q) = p.pressure {
        if q > 0 {
            pressure = " pressure='".to_owned();
            pressure.append(quarter_bar_text(q as u64).as_str());
            pressure.append(" bar'");
        }
    }
    s.append(pressure.as_str());
    s.append(" />\n");
    s
}

/// The elements of the first `n` profile points.
pub open spec fn samples_xml(samples: Seq<Sample>, salt: bool, n: nat) -> Seq<char>
    decreases n,
{
    if n == 0 {
        Seq::empty()
    } else {
        samples_xml(samples, salt, (n - 1) as nat) + sample_xml(samples[n - 1], salt)
    }
}

/// A date as year, month and day.
pub open spec fn date(c: calendar::Civil) -> Seq<char> {
    text::zero_signed(c.year, 4) + "-"@ + text::zero_decimal(c.month as nat, 2) + "-"@
        + text::zero_decimal(c.day as nat, 2)
}

fn date_text(c: (i64, u32, u32, u32, u32, u32)) -> (r: String)
    ensures
        r@ == date(calendar::as_civil(c)),
{
    let mut s = text::zero_signed_text(c.0, 4);
    s.append("-");
    s.append(text::zero_decimal_text(c.1 as u64, 2).as_str());
    s.append("-");
    s.append(text::zero_decimal_text(c.2 as u64, 2).as_str());
    s
}

/// The opening tag of a dive.
pub open spec fn dive_tag(number: nat, d: DiveView) -> Seq<char> {
    let c = calendar::civil_of(d.unix_time as int);
    "<dive number='"@ + text::decimal(number) + "' date='"@ + date(c) + "' time='"@
        + text::zero_decimal(c.hour as nat, 2) + ":"@ + text::zero_decimal(c.minute as nat, 2)
        + ":"@ + text::zero_decimal(c.second as nat, 2) + "' duration='"@ + minutes(
        d.divetime_s as nat,
    ) + "'>\n"@
}

fn dive_opening(number: u64, dive: &Dive) -> (r: String)
    ensures
        r@ == dive_tag(number as nat, dive@),
{
    let c = calendar::civil(dive.unix_time);
    let mut s = "<dive number='".to_owned();
    s.append(text::decimal_text(number).as_str());
    s.append("' date='");
    s.append(date_text(c).as_str());
    s.append("' time='");
    s.append(text::zero_decimal_text(c.3 as u64, 2).as_str());
    s.append(":");
    s.append(text::zero_decimal_text(c.4 as u64, 2).as_str());
    s.append(":");
    s.append(text::zero_decimal_text(c.5 as u64, 2).as_str());
    s.append("' duration='");
    s.append(minutes_text(dive.divetime_s).as_str());
    s.append("'>\n");
    s
}

/// The opening tag of the dive computer's data, with depth and temperature.
pub open spec fn computer_tag(d: DiveView, model: Seq<char>) -> Seq<char> {
    "  <divecomputer model='"@ + escaped(model) + "' salinity='"@ + text::decimal(salinity(d.salt))
        + " g/l'>\n    <depth max='"@ + text::two_places(centimetres(d.maxdepth as nat, d.salt))
        + " m' />\n    <temperature water='"@ + text::one_place(d.temp_min as int) + " C' />\n"@
}

fn computer_opening(dive: &Dive, model_name: &str) -> (r: String)
    ensures
        r@ == computer_tag(dive@, model_name@),
{
    let raw: u64 = dive.maxdepth as u64;
    let cm: u64 = if dive.salt { (80 * raw + 41) / 82 } else { raw };
    let mut s = "  <divecomputer model='".to_owned();
    s.append(xml_escape(model_name).as_str());
    s.append("' salinity='");
    s.append(text::decimal_text(if dive.salt { 1025 } else { 1000 }).as_str());
    s.append(" g/l'>\n    <depth max='");
    s.append(text::two_places_text(cm).as_str());
    s.append(" m' />\n    <temperature water='");
    s.append(text::one_place_text(dive.temp_min as i64).as_str());
    s.append(" C' />\n");
    s
}

/// The element of a dive.
pub open spec fn dive_xml(number: nat, d: DiveView, model: Seq<char>) -> Seq<char> {
    dive_tag(number, d) + cylinders_xml(d.cylinders, d.cylinders.len()) + computer_tag(d, model)
        + changes_xml(d.gas_changes, d.gas_changes.len()) + samples_xml(
        d.samples,
        d.salt,
        d.samples.len(),
    ) + "  </divecomputer>\n</dive>\n"@
}

fn dive_element(number: u64, dive: &Dive, model_name: &str) -> (r: String)
    ensures
        r@ == dive_xml(number as nat, dive@, model_name@),
{
    let mut out = dive_opening(number, dive);
    let mut part = String::new();
    let n: usize = dive.cylinders.len();
    for i in 0..n
        invariant
            n == dive.cylinders@.len(),
            part@ == cylinders_xml(dive.cylinders@, i as nat),
    {
        part.append(cylinder_element(i as u64 + 1, dive.cylinders[i]).as_str());
    }
    out.append(part.as_str());
    out.append(computer_opening(dive, model_name).as_str());
    let mut part = String::new();
    let n: usize = dive.gas_changes.len();
    for i in 0..n
        invariant
            n == dive.gas_changes@.len(),
            part@ == changes_xml(dive.gas_changes@, i as nat),
    {
        part.append(change_element(dive.gas_changes[i]).as_str());
    }
    out.append(part.as_str());
    let mut part = String::new();
    let n: usize = dive.samples.len();
    for i in 0..n
        invariant
            n == dive.samples@.len(),
            part@ == samples_xml(dive.samples@, dive.salt, i as nat),
    {
        part.append(sample_element(dive.samples[i], dive.salt).as_str());
    }
    out.append(part.as_str());
    out.append("  </divecomputer>\n</dive>\n");
    out
}

/// The elements of the first `n` dives, numbered from one.
pub open spec fn dives_xml(dives: Seq<Dive>, model: Seq<char>, n: nat) -> Seq<char>
    decreases n,
{
    if n == 0 {
        Seq::empty()
    } else {
        dives_xml(dives, model, (n - 1) as nat) + dive_xml(n, dives[n - 1]@, model)
    }
}

/// The divelog of a list of dives.
pub open spec fn divelog(dives: Seq<Dive>, model: Seq<char>) -> Seq<char> {
    "<divelog program='stir4200' version='3'>\n<dives>\n"@ + dives_xml(dives, model, dives.len())
        + "</dives>\n</divelog>\n"@
}

/// Writes a Subsurface divelog.
pub fn write_xml(dives: &[Dive], model_name: &str) -> (r: String)
    ensures
        r@ == divelog(dives@, model_name@),
{
    let mut out = "<divelog program='stir4200' version='3'>\n<dives>\n".to_owned();
    let mut part = String::new();
    let n: usize = dives.len();
    for i in 0..n
        invariant
            n == dives@.len(),
            part@ == dives_xml(dives@, model_name@, i as nat),
    {
        part.append(dive_element(i as u64 + 1, &dives[i], model_name).as_str());
    }
    out.append(part.as_str());
    out.append("</dives>\n</divelog>\n");
    out
}

/// The records that are dives, in their order.
pub open spec fn accepted(results: Seq<Result<Dive, DiveError>>) -> Seq<Dive>
    decreases results.len(),
{
    if results.len() == 0 {
        Seq::empty()
    } else {
        match results.last() {
            Ok(dive) => accepted(results.drop_last()).push(dive),
            Err(_) => accepted(results.drop_last()),
        }
    }
}

/// Keeps the records that are dives.
pub fn accept(results: Vec<Result<Dive, DiveError>>) -> (r: Vec<Dive>)
    ensures
        r@ == accepted(results@),
{
    let ghost all = results@;
    let mut dives: Vec<Dive> = Vec::new();
    assert(all.take(0) =~= Seq::empty());
    for result in it: results
        invariant
            it.seq() == all,
            dives@ == accepted(all.take(it.index() as int)),
    {
        let ghost done = it.index() as int;
        assert(all.take(done + 1).drop_last() =~= all.take(done));
        assert(all.take(done + 1).last() == result);
        if let Ok(dive) = result {
            dives.push(dive);
        }
    }
    assert(all.take(all.len() as int) =~= all);
    dives
}

/// Short name of a gas mix.
pub open spec fn label(o2: nat, he: nat) -> Seq<char> {
    if he > 0 {
        "Tx"@ + text::decimal(o2) + "/"@ + text::decimal(he)
    } else if o2 == 21 || o2 == 0 {
        "air"@
    } else {
        "Nx"@ + text::decimal(o2)
    }
}

/// Short name of a gas mix: air, nitrox or trimix.
pub fn gas_label(o2: u16, he: u16) -> (r: String)
    ensures
        r@ == label(o2 as nat, he as nat),
{
    if he > 0 {
        let mut s = "Tx".to_owned();
        s.append(text::decimal_text(o2 as u64).as_str());
        s.append("/");
        s.append(text::decimal_text(he as u64).as_str());
        s
    } else if o2 == 21 || o2 == 0 {
        "air".to_owned()
    } else {
        let mut s = "Nx".to_owned();
        s.append(text::decimal_text(o2 as u64).as_str());
        s
    }
}

/// The labels of the first `n` cylinders, separated by commas.
pub open spec fn labels(cylinders: Seq<Cylinder>, n: nat) -> Seq<char>
    decreases n,
{
    if n == 0 {
        Seq::empty()
    } else {
        labels(cylinders, (n - 1) as nat) + (if n == 1 {
            ""@
        } else {
            ", "@
        }) + label(cylinders[n - 1].o2 as nat, cylinders[n - 1].he as nat)
    }
}

/// The summary of a dive: one line, and a second one with its gases if it has
/// any. `max_depth` is the greatest depth as the line shows it.
pub open spec fn summary(number: nat, d: DiveView, max_depth: Seq<char>) -> Seq<char> {
    let c = calendar::civil_of(d.unix_time as int);
    let line = "  dive "@ + text::padded_start(text::decimal(number), 3, ' ') + ": "@ + date(c)
        + " "@ + text::zero_decimal(c.hour as nat, 2) + ":"@ + text::zero_decimal(
        c.minute as nat,
        2,
    ) + "  "@ + text::padded_start(text::decimal(d.divetime_s as nat / 60), 3, ' ')
        + " min  max "@ + text::padded_start(max_depth, 5, ' ') + " m  min "@
        + text::padded_start(text::one_place(d.temp_min as int), 4, ' ') + " C  "@ + (if d.salt {
        "salt "@
    } else {
        "fresh"@
    }) + "  "@ + text::decimal(d.samples.len()) + " samples\n"@;
    if d.cylinders.len() > 0 {
        line + ("           gas: "@ + labels(d.cylinders, d.cylinders.len()) + "\n"@)
    } else {
        line
    }
}

/// Summarises a dive for the terminal.
pub fn dive_summary(number: u64, dive: &Dive, max_depth: &str) -> (r: String)
    ensures
        r@ == summary(number as nat, dive@, max_depth@),
{
    let c = calendar::civil(dive.unix_time);
    let mut s = "  dive ".to_owned();
    s.append(text::pad_start(text::decimal_text(number).as_str(), 3, ' ').as_str());
    s.append(": ");
    s.append(date_text(c).as_str());
    s.append(" ");
    s.append(text::zero_decimal_text(c.3 as u64, 2).as_str());
    s.append(":");
    s.append(text::zero_decimal_text(c.4 as u64, 2).as_str());
    s.append("  ");
    s.append(
        text::pad_start(
            text::decimal_text((dive.divetime_s / 60) as u64).as_str(),
            3,
            ' ',
        ).as_str(),
    );
    s.append(" min  max ");
    s.append(text::pad_start(max_depth, 5, ' ').as_str());
    s.append(" m  min ");
    s.append(
        text::pad_start(text::one_place_text(dive.temp_min as i64).as_str(), 4, ' ').as_str(),
    );
    s.append(" C  ");
    s.append(if dive.salt { "salt " } else { "fresh" });
    s.append("  ");
    s.append(text::decimal_text(dive.samples.len() as u64).as_str());
    s.append(" samples\n");
    let n: usize = dive.cylinders.len();
    if n > 0 {
        let mut list = String::new();
        for i in 0..n
            invariant
                n == dive.cylinders@.len(),
                list@ == labels(dive.cylinders@, i as nat),
        {
            list.append(if i == 0 { "" } else { ", " });
            list.append(gas_label(dive.cylinders[i].o2, dive.cylinders[i].he).as_str());
        }
        let mut gases = "           gas: ".to_owned();
        gases.append(list.as_str());
        gases.append("\n");
        s.append(gases.as_str());
    }
    s
}

/// The line about a record that is not a dive.
pub open spec fn rejection(number: nat, e: DiveError) -> Seq<char> {
    "  dive "@ + text::decimal(number) + ": parse error: "@ + e.spec_message()
}

/// Tells why a record is not a dive.
pub fn rejection_text(number: u64, e: &DiveError) -> (r: String)
    ensures
        r@ == rejection(number as nat, *e),
{
    let mut s = "  dive ".to_owned();
    s.append(text::decimal_text(number).as_str());
    s.append(": parse error: ");
    s.append(e.message().as_str());
    s
}

/// A printed duration reads back as the number of seconds it was made of: the
/// number in front of the colon times sixty, and the two digits behind it, which
/// stay below sixty.
pub proof fn duration_reads_back(secs: nat)
    ensures
        ({
            let t = minutes(secs);
            let n = t.len() as int;
            let behind = text::decimal_value(t.subrange(n - 6, n - 4));
            &&& n >= 8
            &&& text::ends_with(t, " min"@)
            &&& t[n - 7] == ':'
            &&& text::is_decimal_digit(t[n - 6]) && text::is_decimal_digit(t[n - 5])
            &&& forall|i: int| 0 <= i < n - 7 ==> text::is_decimal_digit(#[trigger] t[i])
            &&& behind < 60
            &&& text::decimal_value(t.take(n - 7)) * 60 + behind == secs
        }),
{
    reveal_strlit(":");
    reveal_strlit(" min");
    let before = text::decimal(secs / 60);
    let behind = text::zero_decimal(secs % 60, 2);
    text::decimal_reads_back(secs / 60);
    text::leading_zeros_read_back(secs % 60, 2);
    text::two_digits(secs % 60);
    let t = minutes(secs);
    let n = t.len() as int;
    assert(t.take(n - 7) =~= before);
    assert(t.subrange(n - 6, n - 4) =~= behind);
    assert(t.skip(n - 4) =~= " min"@);
    assert(t[n - 6] == behind[0] && t[n - 5] == behind[1]);
    assert forall|i: int| 0 <= i < n - 7 implies text::is_decimal_digit(#[trigger] t[i]) by {
        assert(t[i] == before[i]);
    }
}

/// Different times are never printed alike.
pub proof fn durations_differ(a: nat, b: nat)
    ensures
        minutes(a) == minutes(b) ==> a == b,
{
    duration_reads_back(a);
    duration_reads_back(b);
}

/// The printed depth is the nearest centimetre: a millibar is one centimetre in
/// fresh water and 40/41 of it in salt water, and no depth falls halfway.
pub proof fn depths_are_nearest(mbar: nat)
    ensures
        centimetres(mbar, false) == mbar,
        -41 < 2 * (41 * centimetres(mbar, true) - 40 * mbar) < 41,
{
}

/// The printed bar is nearest to the pressure in steps of 1/128 bar, and the even
/// one of two that are equally near.
pub proof fn pressures_are_nearest(raw: nat)
    ensures
        -64 <= 128 * whole_bar(raw) - raw <= 64,
        128 * whole_bar(raw) - raw == 64 || 128 * whole_bar(raw) - raw == -64 ==> whole_bar(raw) % 2
            == 0,
{
}

/// A pressure in quarters of a bar is printed as the nearest tenth, and the even
/// one of two that are equally near.
pub proof fn quarters_are_nearest(quarters: nat)
    ensures
        exists|tenths: int|
            quarter_bar(quarters) == #[trigger] text::one_place(tenths) && -2 <= 4 * tenths - 10
                * quarters <= 2 && (4 * tenths - 10 * quarters == 2 || 4 * tenths - 10 * quarters
                == -2 ==> tenths % 2 == 0),
{
    reveal_strlit(".0");
    reveal_strlit(".2");
    reveal_strlit(".5");
    reveal_strlit(".8");
    let last = if quarters % 4 == 0 {
        0nat
    } else if quarters % 4 == 1 {
        2
    } else if quarters % 4 == 2 {
        5
    } else {
        8
    };
    let tenths = 10 * (quarters / 4) + last;
    assert(tenths / 10 == quarters / 4 && tenths % 10 == last);
    assert(quarter_bar(quarters) =~= text::one_place(tenths as int));
}

/// A percentage reads back.
pub proof fn percentages_read_back(p: nat)
    ensures
        text::ends_with(percent(p), ".0%"@),
        percent(p).len() >= 4,
        text::decimal_value(percent(p).take(percent(p).len() - 3)) == p,
{
    reveal_strlit(".0%");
    text::decimal_reads_back(p);
    assert(percent(p).take(percent(p).len() - 3) =~= text::decimal(p));
    assert(percent(p).skip(percent(p).len() - 3) =~= ".0%"@);
}

/// A printed date reads back: the year in front, and month and day in two digits
/// each behind it.
pub proof fn dates_read_back(c: calendar::Civil)
    requires
        0 <= c.month < 100,
        0 <= c.day < 100,
    ensures
        ({
            let t = date(c);
            let n = t.len() as int;
            &&& n >= 10
            &&& t[n - 3] == '-' && t[n - 6] == '-'
            &&& text::decimal_value(t.skip(n - 2)) == c.day
            &&& text::decimal_value(t.subrange(n - 5, n - 3)) == c.month
            &&& c.year >= 0 ==> text::decimal_value(t.take(n - 6)) == c.year
            &&& c.year < 0 ==> t[0] == '-' && text::decimal_value(t.subrange(1, n - 6)) == -c.year
        }),
{
    reveal_strlit("-");
    let year = text::zero_signed(c.year, 4);
    let month = text::zero_decimal(c.month as nat, 2);
    let day = text::zero_decimal(c.day as nat, 2);
    text::signed_numbers_read_back(c.year, 4);
    text::leading_zeros_read_back(c.month as nat, 2);
    text::leading_zeros_read_back(c.day as nat, 2);
    text::two_digits(c.month as nat);
    text::two_digits(c.day as nat);
    let t = date(c);
    let n = t.len() as int;
    assert(t.skip(n - 2) =~= day);
    assert(t.subrange(n - 5, n - 3) =~= month);
    assert(t.take(n - 6) =~= year);
    assert(t.subrange(1, n - 6) =~= year.skip(1));
}

/// A text without any of the four special characters is written as it is.
pub proof fn plain_text_is_kept(s: Seq<char>)
    requires
        forall|i: int| 0 <= i < s.len() ==> !is_markup(#[trigger] s[i]) && s[i] != '&',
    ensures
        escaped(s) == s,
    decreases s.len(),
{
    if s.len() > 0 {
        let init = s.drop_last();
        assert forall|i: int| 0 <= i < init.len() implies !is_markup(#[trigger] init[i]) && init[i]
            != '&' by {
            assert(init[i] == s[i]);
        }
        plain_text_is_kept(init);
        assert(!is_markup(s[s.len() - 1]));
        assert(escaped(s) =~= s);
    }
}

/// The name of a gas is "air" only for air, which has 21 percent of oxygen or
/// none recorded and no helium; every other name tells the percentages.
pub proof fn gas_names_tell_the_mix(o2: nat, he: nat)
    ensures
        label(o2, he) == "air"@ <==> he == 0 && (o2 == 0 || o2 == 21),
        he == 0 && o2 != 0 && o2 != 21 ==> text::starts_with(label(o2, he), "Nx"@)
            && text::decimal_value(label(o2, he).skip(2)) == o2,
        he > 0 ==> text::starts_with(label(o2, he), "Tx"@ + text::decimal(o2) + "/"@)
            && text::decimal_value(label(o2, he).skip((3 + text::decimal(o2).len()) as int)) == he,
{
    reveal_strlit("air");
    reveal_strlit("Nx");
    reveal_strlit("Tx");
    reveal_strlit("/");
    text::decimal_reads_back(o2);
    text::decimal_reads_back(he);
    let t = label(o2, he);
    if he > 0 {
        assert(t[0] == 'T');
        assert(t.take((3 + text::decimal(o2).len()) as int) =~= "Tx"@ + text::decimal(o2) + "/"@);
        assert(t.skip((3 + text::decimal(o2).len()) as int) =~= text::decimal(he));
    } else if o2 != 0 && o2 != 21 {
        assert(t[0] == 'N');
        assert(t.take(2) =~= "Nx"@);
        assert(t.skip(2) =~= text::decimal(o2));
    }
}

/// The element of a profile point shows its time, its depth in steps of 2 mbar or
/// else the surface, its temperature in steps of 0.4 degrees, and its pressure
/// unless that is zero; without a temperature or pressure only that attribute is
/// missing.
pub proof fn points_are_written(p: Sample, salt: bool)
    ensures
        ({
            let t = sample_xml(p, salt);
            &&& text::starts_with(t, "    <sample time='"@ + minutes(p.time as nat) + "' depth='"@)
            &&& text::ends_with(t, " />\n"@)
            &&& p.depth >= 0 ==> text::occurs(
                t,
                "' depth='"@ + text::two_places(centimetres((2 * p.depth) as nat, salt)) + " m'"@,
            )
            &&& p.depth < 0 ==> text::occurs(t, "' depth='"@ + text::two_places(0) + " m'"@)
            &&& p.temp matches Some(temp) ==> text::occurs(
                t,
                " temp='"@ + text::one_place(4 * temp) + " C'"@,
            )
            &&& p.pressure matches Some(q) ==> q > 0 ==> text::occurs(
                t,
                " pressure='"@ + quarter_bar(q as nat) + " bar'"@,
            )
        }),
        p.temp matches Some(temp) ==> text::inserted(
            sample_xml(p, salt),
            sample_xml(Sample { temp: None, ..p }, salt),
            " temp='"@ + text::one_place(4 * temp) + " C'"@,
        ),
        (p.pressure matches Some(q) ==> q > 0 ==> text::inserted(
            sample_xml(p, salt),
            sample_xml(Sample { pressure: None, ..p }, salt),
            " pressure='"@ + quarter_bar(q as nat) + " bar'"@,
        )),
        (p.pressure matches Some(q) ==> q <= 0 ==> sample_xml(p, salt) == sample_xml(
            Sample { pressure: None, ..p },
            salt,
        )),
{
    broadcast use text::group_occurs;

    let steps = if p.depth > 0 {
        p.depth as nat
    } else {
        0
    };
    let time = "    <sample time='"@ + minutes(p.time as nat) + "' depth='"@;
    let depth = text::two_places(centimetres(2 * steps, salt));
    let head = time + depth + " m'"@;
    let temp = match p.temp {
        Some(t) => " temp='"@ + text::one_place(4 * t) + " C'"@,
        None => Seq::empty(),
    };
    let pressure = match p.pressure {
        Some(q) => if q > 0 {
            " pressure='"@ + quarter_bar(q as nat) + " bar'"@
        } else {
            Seq::empty()
        },
        None => Seq::empty(),
    };
    let close = " />\n"@;
    let t = sample_xml(p, salt);
    assert(t == head + temp + pressure + close);
    assert(t.take(time.len() as int) =~= time);
    assert(t.skip(t.len() - close.len()) =~= close);
    text::occurs_in_longer(head, temp, "' depth='"@ + depth + " m'"@);
    text::part_is_inserted(head, temp, pressure + close);
    assert(t =~= head + temp + (pressure + close));
    assert(sample_xml(Sample { temp: None, ..p }, salt) =~= head + (pressure + close));
    text::part_is_inserted(head + temp, pressure, close);
    assert(sample_xml(Sample { pressure: None, ..p }, salt) =~= head + temp + close);
}

/// The element of a cylinder shows its number and its oxygen; helium and the two
/// pressures are shown where they are not zero, and are otherwise the only thing
/// missing.
pub proof fn cylinders_are_written(number: nat, c: Cylinder)
    ensures
        ({
            let t = cylinder_xml(number, c);
            &&& text::starts_with(t, "  <cylinder o2='"@ + percent(c.o2 as nat) + "'"@)
            &&& text::ends_with(t, " />\n"@)
            &&& text::occurs(t, " description='mix "@ + text::decimal(number) + "'"@)
        }),
        c.he > 0 ==> text::inserted(
            cylinder_xml(number, c),
            cylinder_xml(number, Cylinder { he: 0, ..c }),
            " he='"@ + percent(c.he as nat) + "'"@,
        ),
        c.begin > 0 ==> text::inserted(
            cylinder_xml(number, c),
            cylinder_xml(number, Cylinder { begin: 0, ..c }),
            " start='"@ + (text::decimal(whole_bar(c.begin as nat)) + " bar"@) + "'"@,
        ),
        c.end > 0 ==> text::inserted(
            cylinder_xml(number, c),
            cylinder_xml(number, Cylinder { end: 0, ..c }),
            " end='"@ + (text::decimal(whole_bar(c.end as nat)) + " bar"@) + "'"@,
        ),
{
    cylinder_shape(number, c);
    cylinder_shape(number, Cylinder { he: 0, ..c });
    cylinder_shape(number, Cylinder { begin: 0, ..c });
    cylinder_shape(number, Cylinder { end: 0, ..c });
    six_parts(
        cylinder_head(c),
        cylinder_helium(c),
        cylinder_number(number),
        cylinder_start(c),
        cylinder_end(c),
        " />\n"@,
    );
}

spec fn cylinder_head(c: Cylinder) -> Seq<char> {
    "  <cylinder o2='"@ + percent(c.o2 as nat) + "'"@
}

spec fn cylinder_helium(c: Cylinder) -> Seq<char> {
    attribute_if(c.he > 0, " he='"@, percent(c.he as nat))
}

spec fn cylinder_number(number: nat) -> Seq<char> {
    " description='mix "@ + text::decimal(number) + "'"@
}

spec fn cylinder_start(c: Cylinder) -> Seq<char> {
    attribute_if(c.begin > 0, " start='"@, text::decimal(whole_bar(c.begin as nat)) + " bar"@)
}

spec fn cylinder_end(c: Cylinder) -> Seq<char> {
    attribute_if(c.end > 0, " end='"@, text::decimal(whole_bar(c.end as nat)) + " bar"@)
}

proof fn cylinder_shape(number: nat, c: Cylinder)
    ensures
        cylinder_xml(number, c) == cylinder_head(c) + cylinder_helium(c) + cylinder_number(number)
            + cylinder_start(c) + cylinder_end(c) + " />\n"@,
{
    assert(cylinder_xml(number, c) =~= cylinder_head(c) + cylinder_helium(c) + cylinder_number(
        number,
    ) + cylinder_start(c) + cylinder_end(c) + " />\n"@);
}

proof fn six_parts(
    a: Seq<char>,
    b: Seq<char>,
    c: Seq<char>,
    d: Seq<char>,
    e: Seq<char>,
    f: Seq<char>,
)
    ensures
        ({
            let t = a + b + c + d + e + f;
            let none = Seq::<char>::empty();
            &&& text::starts_with(t, a)
            &&& text::ends_with(t, f)
            &&& text::occurs(t, c)
            &&& text::inserted(t, a + none + c + d + e + f, b)
            &&& text::inserted(t, a + b + c + none + e + f, d)
            &&& text::inserted(t, a + b + c + d + none + f, e)
        }),
{
    let t = a + b + c + d + e + f;
    let none = Seq::<char>::empty();
    assert(t.take(a.len() as int) =~= a);
    assert(t.skip(t.len() - f.len()) =~= f);
    text::occurs_at_end(a + b, c);
    text::occurs_in_longer(a + b + c, d, c);
    text::occurs_in_longer(a + b + c + d, e, c);
    text::occurs_in_longer(a + b + c + d + e, f, c);
    text::part_is_inserted(a, b, c + d + e + f);
    assert(t =~= a + b + (c + d + e + f));
    assert(a + none + c + d + e + f =~= a + (c + d + e + f));
    text::part_is_inserted(a + b + c, d, e + f);
    assert(t =~= a + b + c + d + (e + f));
    assert(a + b + c + none + e + f =~= a + b + c + (e + f));
    text::part_is_inserted(a + b + c + d, e, f);
    assert(a + b + c + d + none + f =~= a + b + c + d + f);
}

/// The element of a gas change shows its time, its cylinder, its oxygen, and its
/// helium where there is any; otherwise only that is missing.
pub proof fn changes_are_written(g: GasChange)
    ensures
        ({
            let t = change_xml(g);
            &&& text::starts_with(
                t,
                "    <event time='"@ + minutes(g.time as nat)
                    + "' type='25' name='gaschange' cylinder='"@,
            )
            &&& text::ends_with(t, " />\n"@)
            &&& text::occurs(
                t,
                "' type='25' name='gaschange' cylinder='"@ + text::decimal(g.cylinder as nat)
                    + "' o2='"@,
            )
            &&& text::occurs(t, "' o2='"@ + percent(g.o2 as nat) + "'"@)
        }),
        g.he > 0 ==> text::inserted(
            change_xml(g),
            change_xml(GasChange { he: 0, ..g }),
            " he='"@ + percent(g.he as nat) + "'"@,
        ),
{
    broadcast use text::group_occurs;

    let time = "    <event time='"@ + minutes(g.time as nat)
        + "' type='25' name='gaschange' cylinder='"@;
    let head = time + text::decimal(g.cylinder as nat) + "' o2='"@ + percent(g.o2 as nat) + "'"@;
    let he = attribute_if(g.he > 0, " he='"@, percent(g.he as nat));
    let close = " />\n"@;
    let t = change_xml(g);
    assert(t =~= head + he + close);
    assert(t.take(time.len() as int) =~= time);
    assert(t.skip(t.len() - close.len()) =~= close);
    text::part_is_inserted(head, he, close);
    assert(change_xml(GasChange { he: 0, ..g }) =~= head + close);
}

/// The tag of a dive shows its number, the date and time of day of its start, and
/// its duration.
pub proof fn dives_are_introduced(number: nat, d: DiveView, c: calendar::Civil)
    requires
        calendar::is_civil(d.unix_time as int, c),
    ensures
        ({
            let t = dive_tag(number, d);
            &&& text::starts_with(t, "<dive number='"@ + text::decimal(number) + "' date='"@)
            &&& text::occurs(t, "' date='"@ + date(c) + "' time='"@)
            &&& text::occurs(t, "' time='"@ + text::zero_decimal(c.hour as nat, 2) + ":"@)
            &&& text::occurs(t, ":"@ + text::zero_decimal(c.minute as nat, 2) + ":"@)
            &&& text::occurs(t, ":"@ + text::zero_decimal(c.second as nat, 2) + "' duration='"@)
            &&& text::ends_with(t, "' duration='"@ + minutes(d.divetime_s as nat) + "'>\n"@)
        }),
{
    broadcast use text::group_occurs;

    calendar::civil_is_unique(d.unix_time as int, c, calendar::civil_of(d.unix_time as int));
    let t = dive_tag(number, d);
    let head = "<dive number='"@ + text::decimal(number) + "' date='"@;
    let tail = "' duration='"@ + minutes(d.divetime_s as nat) + "'>\n"@;
    assert(t.take(head.len() as int) =~= head);
    assert(t.skip(t.len() - tail.len()) =~= tail);
}

/// The tag of the dive computer shows its model, the density of the water, 1025 g/l
/// for salt water and 1000 for fresh, the greatest depth, and the temperature in
/// tenths of a degree.
pub proof fn computers_are_introduced(d: DiveView, model: Seq<char>)
    ensures
        ({
            let t = computer_tag(d, model);
            &&& text::starts_with(
                t,
                "  <divecomputer model='"@ + escaped(model) + "' salinity='"@,
            )
            &&& text::occurs(
                t,
                "' salinity='"@ + text::decimal(
                    if d.salt {
                        1025
                    } else {
                        1000
                    },
                ) + " g/l'>\n    <depth max='"@,
            )
            &&& text::occurs(
                t,
                " g/l'>\n    <depth max='"@ + text::two_places(
                    centimetres(d.maxdepth as nat, d.salt),
                ) + " m' />\n    <temperature water='"@,
            )
            &&& text::ends_with(
                t,
                " m' />\n    <temperature water='"@ + text::one_place(d.temp_min as int)
                    + " C' />\n"@,
            )
        }),
{
    broadcast use text::group_occurs;

    let t = computer_tag(d, model);
    let head = "  <divecomputer model='"@ + escaped(model) + "' salinity='"@;
    let tail = " m' />\n    <temperature water='"@ + text::one_place(d.temp_min as int)
        + " C' />\n"@;
    assert(t.take(head.len() as int) =~= head);
    assert(t.skip(t.len() - tail.len()) =~= tail);
}

/// A record that is not a dive is shown under its number with the reason.
pub proof fn rejections_are_told(number: nat, e: DiveError)
    ensures
        ({
            let t = rejection(number, e);
            &&& text::starts_with(t, "  dive "@ + text::decimal(number) + ": parse error: "@)
            &&& e is TooShort ==> text::ends_with(t, "dive record too short"@)
            &&& e matches DiveError::ShorterThanHeader { len, header } ==> text::ends_with(
                t,
                "dive record shorter ("@ + text::decimal(len as nat) + ") than header ("@
                    + text::decimal(header as nat) + ")"@,
            )
            &&& e matches DiveError::InvalidType(b) ==> text::ends_with(
                t,
                "invalid sample type bits 0x"@ + text::zero_hex(b as nat, 2),
            )
        }),
{
    let t = rejection(number, e);
    let head = "  dive "@ + text::decimal(number) + ": parse error: "@;
    let tail = e.spec_message();
    assert(t.take(head.len() as int) =~= head);
    assert(t.skip(t.len() - tail.len()) =~= tail);
}

/// The dives of a list of results are those results that are dives, in their
/// order.
pub proof fn dives_are_the_good_results(results: Seq<Result<Dive, DiveError>>)
    ensures
        accepted(results) == results.filter(|r: Result<Dive, DiveError>| r is Ok).map_values(
            |r: Result<Dive, DiveError>| r->Ok_0,
        ),
    decreases results.len(),
{
    reveal(Seq::filter);
    let good = |r: Result<Dive, DiveError>| r is Ok;
    let value = |r: Result<Dive, DiveError>| r->Ok_0;
    if results.len() > 0 {
        dives_are_the_good_results(results.drop_last());
        assert(accepted(results) =~= results.filter(good).map_values(value));
    } else {
        assert(accepted(results) =~= results.filter(good).map_values(value));
    }
}

/// Each cylinder's element is followed by the next one's, and so are the elements
/// of the gas changes and of the profile points.
proof fn elements_follow_each_other(d: DiveView, n: nat, k: int)
    ensures
        1 <= k <= n ==> text::occurs(
            cylinders_xml(d.cylinders, n),
            cylinder_xml(k as nat, d.cylinders[k - 1]),
        ),
        1 <= k <= n ==> text::occurs(
            changes_xml(d.gas_changes, n),
            change_xml(d.gas_changes[k - 1]),
        ),
        1 <= k <= n ==> text::occurs(
            samples_xml(d.samples, d.salt, n),
            sample_xml(d.samples[k - 1], d.salt),
        ),
        2 <= k <= n ==> text::occurs(
            cylinders_xml(d.cylinders, n),
            cylinder_xml((k - 1) as nat, d.cylinders[k - 2]) + cylinder_xml(
                k as nat,
                d.cylinders[k - 1],
            ),
        ),
        2 <= k <= n ==> text::occurs(
            changes_xml(d.gas_changes, n),
            change_xml(d.gas_changes[k - 2]) + change_xml(d.gas_changes[k - 1]),
        ),
        2 <= k <= n ==> text::occurs(
            samples_xml(d.samples, d.salt, n),
            sample_xml(d.samples[k - 2], d.salt) + sample_xml(d.samples[k - 1], d.salt),
        ),
    decreases n,
{
    broadcast use text::group_occurs;

    if n > 0 {
        elements_follow_each_other(d, (n - 1) as nat, k);
        reveal_with_fuel(cylinders_xml, 3);
        reveal_with_fuel(changes_xml, 3);
        reveal_with_fuel(samples_xml, 3);
    }
}

/// The element of a dive holds its tag, then its cylinders numbered from one, then
/// the tag of the dive computer, then the gas changes, then the profile; nothing
/// is left out, and each element is followed by the next of its kind.
pub proof fn dives_are_written(number: nat, d: DiveView, model: Seq<char>, k: int)
    ensures
        ({
            let t = dive_xml(number, d, model);
            &&& text::starts_with(t, dive_tag(number, d))
            &&& text::occurs(t, computer_tag(d, model))
            &&& text::ends_with(t, "  </divecomputer>\n</dive>\n"@)
            &&& 1 <= k <= d.cylinders.len() ==> text::occurs(
                t,
                cylinder_xml(k as nat, d.cylinders[k - 1]),
            )
            &&& 2 <= k <= d.cylinders.len() ==> text::occurs(
                t,
                cylinder_xml((k - 1) as nat, d.cylinders[k - 2]) + cylinder_xml(
                    k as nat,
                    d.cylinders[k - 1],
                ),
            )
            &&& 1 <= k <= d.gas_changes.len() ==> text::occurs(t, change_xml(d.gas_changes[k - 1]))
            &&& 2 <= k <= d.gas_changes.len() ==> text::occurs(
                t,
                change_xml(d.gas_changes[k - 2]) + change_xml(d.gas_changes[k - 1]),
            )
            &&& 1 <= k <= d.samples.len() ==> text::occurs(
                t,
                sample_xml(d.samples[k - 1], d.salt),
            )
            &&& 2 <= k <= d.samples.len() ==> text::occurs(
                t,
                sample_xml(d.samples[k - 2], d.salt) + sample_xml(d.samples[k - 1], d.salt),
            )
        }),
        d.cylinders.len() == 0 ==> text::starts_with(
            dive_xml(number, d, model),
            dive_tag(number, d) + computer_tag(d, model),
        ),
        d.cylinders.len() == 0 && d.gas_changes.len() == 0 && d.samples.len() == 0 ==> dive_xml(
            number,
            d,
            model,
        ) == dive_tag(number, d) + computer_tag(d, model) + "  </divecomputer>\n</dive>\n"@,
{
    elements_follow_each_other(d, d.cylinders.len(), k);
    elements_follow_each_other(d, d.gas_changes.len(), k);
    elements_follow_each_other(d, d.samples.len(), k);
    let tag = dive_tag(number, d);
    let cylinders = cylinders_xml(d.cylinders, d.cylinders.len());
    let computer = computer_tag(d, model);
    let changes = changes_xml(d.gas_changes, d.gas_changes.len());
    let samples = samples_xml(d.samples, d.salt, d.samples.len());
    let close = "  </divecomputer>\n</dive>\n"@;
    let t = dive_xml(number, d, model);
    six_parts_hold(tag, cylinders, computer, changes, samples, close);
    assert forall|part: Seq<char>| #[trigger] text::occurs(cylinders, part) implies text::occurs(
        t,
        part,
    ) by {
        text::occurs_within(t, cylinders, part);
    }
    assert forall|part: Seq<char>| #[trigger] text::occurs(changes, part) implies text::occurs(
        t,
        part,
    ) by {
        text::occurs_within(t, changes, part);
    }
    assert forall|part: Seq<char>| #[trigger] text::occurs(samples, part) implies text::occurs(
        t,
        part,
    ) by {
        text::occurs_within(t, samples, part);
    }
    if d.cylinders.len() == 0 {
        assert(t.take((tag + computer).len() as int) =~= tag + computer);
        if d.gas_changes.len() == 0 && d.samples.len() == 0 {
            assert(t =~= tag + computer + close);
        }
    }
}

proof fn six_parts_hold(
    a: Seq<char>,
    b: Seq<char>,
    c: Seq<char>,
    d: Seq<char>,
    e: Seq<char>,
    f: Seq<char>,
)
    ensures
        ({
            let t = a + b + c + d + e + f;
            &&& text::starts_with(t, a)
            &&& text::occurs(t, b)
            &&& text::occurs(t, c)
            &&& text::occurs(t, d)
            &&& text::occurs(t, e)
            &&& text::ends_with(t, f)
        }),
{
    broadcast use text::group_occurs;

    let t = a + b + c + d + e + f;
    assert(t.take(a.len() as int) =~= a);
    assert(t.skip(t.len() - f.len()) =~= f);
}

proof fn dives_follow_each_other(dives: Seq<Dive>, model: Seq<char>, n: nat, k: int)
    ensures
        1 <= k <= n ==> text::occurs(
            dives_xml(dives, model, n),
            dive_xml(k as nat, dives[k - 1]@, model),
        ),
        2 <= k <= n ==> text::occurs(
            dives_xml(dives, model, n),
            dive_xml((k - 1) as nat, dives[k - 2]@, model) + dive_xml(
                k as nat,
                dives[k - 1]@,
                model,
            ),
        ),
    decreases n,
{
    if n > 0 {
        let before = dives_xml(dives, model, (n - 1) as nat);
        let last = dive_xml(n, dives[n - 1]@, model);
        dives_follow_each_other(dives, model, (n - 1) as nat, k);
        if k == n {
            text::occurs_at_end(before, last);
            if n > 1 {
                text::two_occur_at_end(
                    dives_xml(dives, model, (n - 2) as nat),
                    dive_xml((n - 1) as nat, dives[n - 2]@, model),
                    last,
                );
            }
        } else if 1 <= k < n {
            text::occurs_in_longer(before, last, dive_xml(k as nat, dives[k - 1]@, model));
            if k > 1 {
                text::occurs_in_longer(
                    before,
                    last,
                    dive_xml((k - 1) as nat, dives[k - 2]@, model) + dive_xml(
                        k as nat,
                        dives[k - 1]@,
                        model,
                    ),
                );
            }
        }
    }
}

proof fn first_dive_comes_first(dives: Seq<Dive>, model: Seq<char>, n: nat)
    requires
        n > 0,
    ensures
        text::starts_with(dives_xml(dives, model, n), dive_xml(1, dives[0]@, model)),
    decreases n,
{
    let first = dive_xml(1, dives[0]@, model);
    let t = dives_xml(dives, model, n);
    if n > 1 {
        first_dive_comes_first(dives, model, (n - 1) as nat);
        assert(t.take(first.len() as int) =~= dives_xml(dives, model, (n - 1) as nat).take(
            first.len() as int,
        ));
    } else {
        assert(dives_xml(dives, model, 0) =~= Seq::empty());
        assert(t.take(first.len() as int) =~= first);
    }
}

proof fn wrapped_list(
    open: Seq<char>,
    inner: Seq<char>,
    close: Seq<char>,
    first: Seq<char>,
    before: Seq<char>,
    last: Seq<char>,
)
    requires
        text::starts_with(inner, first),
        inner == before + last,
    ensures
        text::starts_with(open + inner + close, open + first),
        text::ends_with(open + inner + close, last + close),
{
    let t = open + inner + close;
    assert(inner =~= first + inner.skip(first.len() as int));
    assert(t.take((open + first).len() as int) =~= open + first);
    assert(t.skip(t.len() - (last + close).len()) =~= last + close);
}

/// The divelog holds every dive, numbered from one in the order of the list: the
/// first behind the opening tags, each behind the one before it, the last in
/// front of the closing tags.
pub proof fn log_holds_every_dive(dives: Seq<Dive>, model: Seq<char>, k: int)
    ensures
        ({
            let t = divelog(dives, model);
            let open = "<divelog program='stir4200' version='3'>\n<dives>\n"@;
            let close = "</dives>\n</divelog>\n"@;
            let n = dives.len();
            &&& n == 0 ==> t == open + close
            &&& n > 0 ==> text::starts_with(t, open + dive_xml(1, dives[0]@, model))
            &&& n > 0 ==> text::ends_with(t, dive_xml(n, dives[n - 1]@, model) + close)
            &&& 1 <= k <= n ==> text::occurs(t, dive_xml(k as nat, dives[k - 1]@, model))
            &&& 2 <= k <= n ==> text::occurs(
                t,
                dive_xml((k - 1) as nat, dives[k - 2]@, model) + dive_xml(
                    k as nat,
                    dives[k - 1]@,
                    model,
                ),
            )
        }),
{
    let open = "<divelog program='stir4200' version='3'>\n<dives>\n"@;
    let close = "</dives>\n</divelog>\n"@;
    let n = dives.len();
    let inner = dives_xml(dives, model, n);
    let t = divelog(dives, model);
    assert(t == open + inner + close);
    dives_follow_each_other(dives, model, n, k);
    text::occurs_at_end(open, inner);
    text::occurs_in_longer(open + inner, close, inner);
    if 1 <= k <= n {
        text::occurs_within(t, inner, dive_xml(k as nat, dives[k - 1]@, model));
    }
    if 2 <= k <= n {
        text::occurs_within(
            t,
            inner,
            dive_xml((k - 1) as nat, dives[k - 2]@, model) + dive_xml(
                k as nat,
                dives[k - 1]@,
                model,
            ),
        );
    }
    if n == 0 {
        assert(t =~= open + close);
    } else {
        first_dive_comes_first(dives, model, n);
        wrapped_list(
            open,
            inner,
            close,
            dive_xml(1, dives[0]@, model),
            dives_xml(dives, model, (n - 1) as nat),
            dive_xml(n, dives[n - 1]@, model),
        );
    }
}

/// The gases of a dive are listed in the order of its cylinders, separated by
/// commas.
pub proof fn labels_are_listed(cylinders: Seq<Cylinder>, n: nat, k: int)
    requires
        0 < n,
    ensures
        text::starts_with(labels(cylinders, n), label(cylinders[0].o2 as nat, cylinders[0].he as nat)),
        text::ends_with(
            labels(cylinders, n),
            label(cylinders[n - 1].o2 as nat, cylinders[n - 1].he as nat),
        ),
        1 <= k < n ==> text::occurs(
            labels(cylinders, n),
            label(cylinders[k - 1].o2 as nat, cylinders[k - 1].he as nat) + ", "@ + label(
                cylinders[k].o2 as nat,
                cylinders[k].he as nat,
            ),
        ),
    decreases n,
{
    broadcast use text::group_occurs;

    let t = labels(cylinders, n);
    let first = label(cylinders[0].o2 as nat, cylinders[0].he as nat);
    let last = label(cylinders[n - 1].o2 as nat, cylinders[n - 1].he as nat);
    assert(t.skip(t.len() - last.len()) =~= last);
    if n == 1 {
        reveal_strlit("");
        assert(labels(cylinders, 0) =~= Seq::empty());
        assert(t.take(first.len() as int) =~= first);
    } else {
        let before = labels(cylinders, (n - 1) as nat);
        labels_are_listed(cylinders, (n - 1) as nat, k);
        assert(t == before + ", "@ + last);
        assert(t.take(first.len() as int) =~= before.take(first.len() as int));
        reveal_with_fuel(labels, 3);
    }
}

/// The summary of a dive shows its number, date and time of day, whole minutes,
/// greatest depth, temperature, kind of water and number of profile points, and
/// its gases on a second line exactly if it has cylinders.
pub proof fn summaries_show_the_dive(
    number: nat,
    d: DiveView,
    max_depth: Seq<char>,
    c: calendar::Civil,
)
    requires
        calendar::is_civil(d.unix_time as int, c),
    ensures
        ({
            let t = summary(number, d, max_depth);
            &&& text::starts_with(
                t,
                "  dive "@ + text::padded_start(text::decimal(number), 3, ' ') + ": "@,
            )
            &&& text::occurs(t, ": "@ + date(c) + " "@)
            &&& text::occurs(t, " "@ + text::zero_decimal(c.hour as nat, 2) + ":"@)
            &&& text::occurs(t, ":"@ + text::zero_decimal(c.minute as nat, 2) + "  "@)
            &&& forall|m: nat|
                60 * m <= d.divetime_s < 60 * m + 60 ==> text::occurs(
                    t,
                    "  "@ + #[trigger] text::padded_start(text::decimal(m), 3, ' ') + " min  max "@,
                )
            &&& text::occurs(
                t,
                " min  max "@ + text::padded_start(max_depth, 5, ' ') + " m  min "@,
            )
            &&& text::occurs(
                t,
                " m  min "@ + text::padded_start(text::one_place(d.temp_min as int), 4, ' ')
                    + " C  "@,
            )
            &&& d.salt ==> text::occurs(t, " C  "@ + "salt "@ + "  "@)
            &&& !d.salt ==> text::occurs(t, " C  "@ + "fresh"@ + "  "@)
            &&& text::occurs(t, "  "@ + text::decimal(d.samples.len()) + " samples\n"@)
            &&& d.cylinders.len() == 0 ==> text::ends_with(t, " samples\n"@)
            &&& d.cylinders.len() > 0 ==> text::ends_with(
                t,
                " samples\n"@ + ("           gas: "@ + labels(d.cylinders, d.cylinders.len())
                    + "\n"@),
            )
        }),
{
    broadcast use text::group_occurs;

    calendar::civil_is_unique(d.unix_time as int, c, calendar::civil_of(d.unix_time as int));
    let t = summary(number, d, max_depth);
    let head = "  dive "@ + text::padded_start(text::decimal(number), 3, ' ') + ": "@;
    let gases = "           gas: "@ + labels(d.cylinders, d.cylinders.len()) + "\n"@;
    assert(t.take(head.len() as int) =~= head);
    if d.cylinders.len() > 0 {
        assert(t.skip(t.len() - (" samples\n"@ + gases).len()) =~= " samples\n"@ + gases);
    } else {
        assert(t.skip(t.len() - " samples\n"@.len()) =~= " samples\n"@);
    }
}

} // verus!
