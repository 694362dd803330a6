//! One dive record: header, gas mixes and the profile that its sample stream
//! describes.
//!
//! All quantities are kept in the integer units of the dive computer, so that
//! nothing is rounded here; [`super::xml`] converts them to text.

use vstd::prelude::*;

use super::records;
use super::records::u16_le;
use super::records::u32_le;
use super::stream;
use super::stream::Event;
use super::stream::Reading;
use crate::bytes;
use crate::text;

verus! {

/// 1 January 2000, 00:00 UTC, in unix seconds.
pub const EPOCH: i64 = 946_684_800;

/// One point of the dive profile.
#[derive(Debug, Clone, Copy, PartialEq, Eq)]
pub struct Sample {
    /// Seconds since the start of the dive.
    pub time: u32,
    /// Depth below the first recorded depth, in steps of 2 mbar; 0 while no
    /// depth has been recorded.
    pub depth: i64,
    /// Temperature in steps of 0.4 °C.
    pub temp: Option<i32>,
    /// Tank pressure in steps of a quarter bar.
    pub pressure: Option<i64>,
}

/// A gas mix and the pressures of its tank.
#[derive(Debug, Clone, Copy, PartialEq, Eq)]
pub struct Cylinder {
    /// Oxygen, in percent.
    pub o2: u16,
    /// Helium, in percent.
    pub he: u16,
    /// Pressure at the start in steps of 1/128 bar; 0 if unknown.
    pub begin: u16,
    /// Pressure at the end in steps of 1/128 bar; 0 if unknown.
    pub end: u16,
}

/// The diver switched to another gas mix.
#[derive(Debug, Clone, Copy, PartialEq, Eq)]
pub struct GasChange {
    /// Seconds since the start of the dive.
    pub time: u32,
    /// Index of the mix in the dive's cylinders.
    pub cylinder: usize,
    /// Oxygen, in percent.
    pub o2: u16,
    /// Helium, in percent.
    pub he: u16,
}

/// A parsed dive.
#[derive(Debug, PartialEq, Eq)]
pub struct Dive {
    /// Wall-clock time of the dive computer, as a unix timestamp.
    pub unix_time: i64,
    pub divetime_s: u32,
    /// Greatest depth, as water pressure in mbar.
    pub maxdepth: u16,
    /// Lowest temperature in tenths of a degree Celsius.
    pub temp_min: i16,
    /// The dive was in salt water.
    pub salt: bool,
    pub cylinders: Vec<Cylinder>,
    pub gas_changes: Vec<GasChange>,
    pub samples: Vec<Sample>,
}

/// A dive as specifications see it.
pub struct DiveView {
    pub unix_time: i64,
    pub divetime_s: u32,
    pub maxdepth: u16,
    pub temp_min: i16,
    pub salt: bool,
    pub cylinders: Seq<Cylinder>,
    pub gas_changes: Seq<GasChange>,
    pub samples: Seq<Sample>,
}

impl View for Dive {
    type V = DiveView;

    open spec fn view(&self) -> DiveView {
        DiveView {
            unix_time: self.unix_time,
            divetime_s: self.divetime_s,
            maxdepth: self.maxdepth,
            temp_min: self.temp_min,
            salt: self.salt,
            cylinders: self.cylinders@,
            gas_changes: self.gas_changes@,
            samples: self.samples@,
        }
    }
}

/// Why a record is not a dive.
#[derive(Debug, Clone, Copy, PartialEq, Eq, Structural)]
pub enum DiveError {
    /// Not even the byte that tells the header layout is there.
    TooShort,
    /// The record ends inside its header.
    ShorterThanHeader { len: usize, header: usize },
    /// The sample stream holds a byte that introduces no known type.
    InvalidType(u8),
}

impl DiveError {
    pub open spec fn spec_message(self) -> Seq<char> {
        match self {
            DiveError::TooShort => "dive record too short"@,
            DiveError::ShorterThanHeader { len, header } => "dive record shorter ("@
                + text::decimal(len as nat) + ") than header ("@ + text::decimal(header as nat)
                + ")"@,
            DiveError::InvalidType(b) => "invalid sample type bits 0x"@ + text::zero_hex(
                b as nat,
                2,
            ),
        }
    }

    /// The error in words.
    pub fn message(&self) -> (r: String)
        ensures
            r@ == self.spec_message(),
    {
        match self {
            DiveError::TooShort => "dive record too short".to_owned(),
            DiveError::ShorterThanHeader { len, header } => {
                let mut s = "dive record shorter (".to_owned();
                s.append(text::decimal_text(*len as u64).as_str());
                s.append(") than header (");
                s.append(text::decimal_text(*header as u64).as_str());
                s.append(")");
                s
            },
            DiveError::InvalidType(b) => {
                let mut s = "invalid sample type bits 0x".to_owned();
                s.append(text::zero_hex_text(*b as u64, 2).as_str());
                s
            },
        }
    }
}

/// A gas mix under the number that the dive computer gives it.
#[derive(Debug, Clone, Copy, PartialEq, Eq)]
pub struct Mix {
    pub id: u32,
    pub gas: Cylinder,
}

/// A gas change before the mixes are put in order: time, mix number, oxygen and
/// helium.
#[derive(Debug, Clone, Copy, PartialEq, Eq)]
pub struct Switch {
    pub time: u32,
    pub id: u32,
    pub o2: u16,
    pub he: u16,
}

/// The profile so far, and the readings that the next point will show.
pub struct Recording {
    /// Time of the next point.
    pub time: u32,
    pub depth: i64,
    /// First recorded depth.
    pub calibration: Option<i64>,
    pub temperature: i32,
    pub have_temperature: bool,
    pub pressure: i64,
    pub have_pressure: bool,
    /// Number of the mix in use.
    pub active: u32,
    /// Number of the mix in use at the last point.
    pub previous: Option<u32>,
    pub mixes: Seq<Mix>,
    pub switches: Seq<Switch>,
    pub samples: Seq<Sample>,
}

/// The recording before the first item of the stream.
pub open spec fn blank(mixes: Seq<Mix>) -> Recording {
    Recording {
        time: 0,
        depth: 0,
        calibration: None,
        temperature: 0,
        have_temperature: false,
        pressure: 0,
        have_pressure: false,
        active: 0,
        previous: None,
        mixes,
        switches: Seq::empty(),
        samples: Seq::empty(),
    }
}

/// The first mix with the number `id`.
pub open spec fn mix_of(mixes: Seq<Mix>, id: u32) -> Option<Cylinder>
    decreases mixes.len(),
{
    if mixes.len() == 0 {
        None
    } else {
        match mix_of(mixes.drop_last(), id) {
            Some(gas) => Some(gas),
            None => if mixes.last().id == id {
                Some(mixes.last().gas)
            } else {
                None
            },
        }
    }
}

/// Depth of the next point; `None` if it exceeds the range of depths.
pub open spec fn point_depth(r: Recording) -> Option<i64> {
    match r.calibration {
        Some(c) => r.depth.checked_sub(c),
        None => Some(0),
    }
}

/// A mix is known, and another one was in use at the last point.
pub open spec fn switching(r: Recording) -> bool {
    r.mixes.len() > 0 && r.previous != Some(r.active)
}

/// The recording after one more point; `None` if its depth or the clock
/// exceeds its range.
pub open spec fn with_point(r: Recording, interval: u32) -> Option<Recording> {
    match (point_depth(r), r.time.checked_add(interval)) {
        (Some(depth), Some(time)) => Some(
            Recording {
                time,
                previous: if switching(r) {
                    Some(r.active)
                } else {
                    r.previous
                },
                switches: match mix_of(r.mixes, r.active) {
                    Some(gas) => if switching(r) {
                        r.switches.push(
                            Switch { time: r.time, id: r.active, o2: gas.o2, he: gas.he },
                        )
                    } else {
                        r.switches
                    },
                    None => r.switches,
                },
                samples: r.samples.push(
                    Sample {
                        time: r.time,
                        depth,
                        temp: if r.have_temperature {
                            Some(r.temperature)
                        } else {
                            None
                        },
                        pressure: if r.have_pressure {
                            Some(r.pressure)
                        } else {
                            None
                        },
                    },
                ),
                ..r
            },
        ),
        _ => None,
    }
}

/// The recording after `n` more points.
pub open spec fn with_points(r: Recording, interval: u32, n: nat) -> Option<Recording>
    decreases n,
{
    if n == 0 {
        Some(r)
    } else {
        match with_points(r, interval, (n - 1) as nat) {
            Some(s) => with_point(s, interval),
            None => None,
        }
    }
}

/// The readings after an item of the stream; `None` if one exceeds its range.
pub open spec fn with_readings(r: Recording, trimix: bool, event: Event) -> Option<Recording> {
    match event {
        Event::DepthBy(by) => match r.depth.checked_add(by as i64) {
            Some(depth) => Some(Recording { depth, ..r }),
            None => None,
        },
        Event::Depth(value) => Some(
            Recording {
                depth: value as i64,
                calibration: match r.calibration {
                    Some(c) => Some(c),
                    None => Some(value as i64),
                },
                ..r
            },
        ),
        Event::TemperatureBy(by) => match r.temperature.checked_add(by) {
            Some(temperature) => Some(Recording { temperature, ..r }),
            None => None,
        },
        Event::Temperature(value) => Some(
            Recording { temperature: value, have_temperature: true, ..r },
        ),
        Event::PressureBy(by) => match r.pressure.checked_add(by as i64) {
            Some(pressure) => Some(Recording { pressure, ..r }),
            None => None,
        },
        Event::Pressure { value, index } => Some(
            Recording {
                pressure: if trimix {
                    (value % 4096) as i64
                } else {
                    value as i64
                },
                have_pressure: true,
                active: if trimix {
                    value / 4096 % 16
                } else {
                    index
                },
                ..r
            },
        ),
        Event::Alarm { value, index } => Some(
            Recording {
                active: if index == 1 {
                    value / 32 % 4
                } else if index == 2 && trimix {
                    value / 16 % 16
                } else {
                    r.active
                },
                ..r
            },
        ),
        Event::Gas { id, o2, he, begin, end } => if (o2 != 0 || he != 0) && mix_of(
            r.mixes,
            id,
        ) is None {
            Some(
                Recording {
                    mixes: r.mixes.push(
                        Mix {
                            id,
                            gas: Cylinder {
                                o2,
                                he,
                                begin: known_pressure(begin),
                                end: known_pressure(end),
                            },
                        },
                    ),
                    ..r
                },
            )
        } else {
            Some(r)
        },
        _ => Some(r),
    }
}

/// The number of points that an item completes.
pub open spec fn points_of(event: Event) -> nat {
    match event {
        Event::DepthBy(_) => 1,
        Event::Depth(_) => 1,
        Event::Points(n) => n as nat,
        _ => 0,
    }
}

/// The recording after an item of the stream.
pub open spec fn with_event(
    r: Recording,
    trimix: bool,
    interval: u32,
    event: Event,
) -> Option<Recording> {
    match with_readings(r, trimix, event) {
        Some(s) => with_points(s, interval, points_of(event)),
        None => None,
    }
}

/// What a sample stream gives.
pub enum Outcome {
    /// The stream was read to its end.
    Done(Recording),
    /// A byte introduces no known type.
    Invalid(u8),
    /// A reading, a depth or the clock exceeds its range, or an item's subtype
    /// lies behind the end of the record.
    OutOfRange,
}

/// What the stream from `off` on gives, continuing the recording `r`.
pub open spec fn recorded(
    rec: Seq<u8>,
    off: int,
    r: Recording,
    trimix: bool,
    interval: u32,
) -> Outcome
    decreases rec.len() - off,
{
    if off >= rec.len() {
        Outcome::Done(r)
    } else {
        match stream::reading(rec, off) {
            Reading::Item(event, next) => match with_event(r, trimix, interval, event) {
                Some(s) => if off < next <= rec.len() {
                    recorded(rec, next as int, s, trimix, interval)
                } else {
                    Outcome::Done(s)
                },
                None => Outcome::OutOfRange,
            },
            Reading::Invalid(b) => Outcome::Invalid(b),
            Reading::Incomplete => Outcome::Done(r),
            Reading::PastEnd => Outcome::OutOfRange,
        }
    }
}

/// The number of mixes with a number below `id`.
pub open spec fn below(mixes: Seq<Mix>, id: u32) -> nat
    decreases mixes.len(),
{
    if mixes.len() == 0 {
        0
    } else {
        below(mixes.drop_last(), id) + if mixes.last().id < id {
            1nat
        } else {
            0
        }
    }
}

/// The mixes in the order of their numbers.
pub open spec fn in_order(mixes: Seq<Mix>) -> Seq<Mix>
    decreases mixes.len(),
{
    if mixes.len() == 0 {
        Seq::empty()
    } else {
        let sorted = in_order(mixes.drop_last());
        sorted.insert(below(sorted, mixes.last().id) as int, mixes.last())
    }
}

/// A tank pressure, 0 where the dive computer marks it as unknown.
pub open spec fn known_pressure(raw: u16) -> u16 {
    if raw == 0xFFFF {
        0
    } else {
        raw
    }
}

/// The record has the short header of a trimix dive.
pub open spec fn is_trimix(rec: Seq<u8>) -> bool {
    rec[43] >= 0x80
}

pub open spec fn header_size(trimix: bool) -> nat {
    if trimix {
        84
    } else {
        152
    }
}

/// The settings bits of the record.
pub open spec fn settings_of(rec: Seq<u8>) -> nat {
    bytes::le32(
        rec,
        if is_trimix(rec) {
            68
        } else {
            92
        },
    )
}

/// Bit 7 of the settings: an apnea dive.
pub open spec fn is_freedive(settings: nat) -> bool {
    settings / 0x80 % 2 == 1
}

/// Bit 20 of the settings: salt water.
pub open spec fn is_salt(settings: nat) -> bool {
    settings / 0x10_0000 % 2 == 1
}

/// The first `n` gas mixes of a long header, without the unused ones.
pub open spec fn header_mixes(rec: Seq<u8>, freedive: bool, n: nat) -> Seq<Mix>
    decreases n,
{
    if n == 0 {
        Seq::empty()
    } else {
        let i = n - 1;
        let o2 = bytes::le16(rec, 44 + 2 * i) as u16;
        let others = header_mixes(rec, freedive, i as nat);
        if o2 == 0 {
            others
        } else {
            others.push(
                Mix {
                    id: i as u32,
                    gas: Cylinder {
                        o2,
                        he: 0,
                        begin: if freedive {
                            0
                        } else {
                            known_pressure(bytes::le16(rec, 56 + 2 * i) as u16)
                        },
                        end: if freedive {
                            0
                        } else {
                            known_pressure(bytes::le16(rec, 50 + 2 * i) as u16)
                        },
                    },
                },
            )
        }
    }
}

/// The cylinders that a list of mixes describes, in the order of the mixes'
/// numbers.
pub open spec fn cylinders_of(mixes: Seq<Mix>) -> Seq<Cylinder> {
    in_order(mixes).map_values(|m: Mix| m.gas)
}

/// Gas changes to cylinders instead of mix numbers.
pub open spec fn changes_of(switches: Seq<Switch>, mixes: Seq<Mix>) -> Seq<GasChange> {
    switches.map_values(
        |s: Switch|
            GasChange {
                time: s.time,
                cylinder: below(mixes, s.id) as usize,
                o2: s.o2,
                he: s.he,
            },
    )
}

/// The outcome of the record's sample stream.
pub open spec fn profile(rec: Seq<u8>) -> Outcome {
    let trimix = is_trimix(rec);
    let freedive = is_freedive(settings_of(rec));
    recorded(
        rec,
        header_size(trimix) as int,
        blank(
            if trimix {
                Seq::empty()
            } else {
                header_mixes(rec, freedive, 3)
            },
        ),
        trimix,
        if freedive {
            1
        } else {
            4
        },
    )
}

/// The dive of a record whose header is complete, from its recorded profile.
pub open spec fn dive_of(rec: Seq<u8>, r: Recording) -> DiveView {
    DiveView {
        unix_time: (EPOCH + bytes::le32(rec, 8) / 2 + stream::twos_complement(rec[16] as nat, 8)
            * 900) as i64,
        divetime_s: (bytes::le16(rec, 26) * 60) as u32,
        maxdepth: bytes::le16(rec, 22) as u16,
        temp_min: stream::twos_complement(bytes::le16(rec, 30), 16) as i16,
        salt: is_salt(settings_of(rec)),
        cylinders: cylinders_of(r.mixes),
        gas_changes: changes_of(r.switches, r.mixes),
        samples: r.samples,
    }
}

/// What a record gives: a dive, or why it is none. `None` for a record whose
/// profile exceeds the range of the profile's numbers or whose last item lies
/// partly behind its end.
pub open spec fn parsed(rec: Seq<u8>) -> Option<Result<DiveView, DiveError>> {
    if rec.len() < 44 {
        Some(Err(DiveError::TooShort))
    } else if rec.len() < header_size(is_trimix(rec)) {
        Some(
            Err(
                DiveError::ShorterThanHeader {
                    len: rec.len() as usize,
                    header: header_size(is_trimix(rec)) as usize,
                },
            ),
        )
    } else {
        match profile(rec) {
            Outcome::Done(r) => Some(Ok(dive_of(rec, r))),
            Outcome::Invalid(b) => Some(Err(DiveError::InvalidType(b))),
            Outcome::OutOfRange => None,
        }
    }
}

/// A dive, or an error, by what it holds.
pub open spec fn result_view(r: Result<Dive, DiveError>) -> Result<DiveView, DiveError> {
    match r {
        Ok(d) => Ok(d@),
        Err(e) => Err(e),
    }
}

/// The profile while it is being recorded.
struct Recorder {
    time: u32,
    depth: i64,
    calibration: Option<i64>,
    temperature: i32,
    have_temperature: bool,
    pressure: i64,
    have_pressure: bool,
    active: u32,
    previous: Option<u32>,
    mixes: Vec<Mix>,
    switches: Vec<Switch>,
    samples: Vec<Sample>,
}

impl View for Recorder {
    type V = Recording;

    closed spec fn view(&self) -> Recording {
        Recording {
            time: self.time,
            depth: self.depth,
            calibration: self.calibration,
            temperature: self.temperature,
            have_temperature: self.have_temperature,
            pressure: self.pressure,
            have_pressure: self.have_pressure,
            active: self.active,
            previous: self.previous,
            mixes: self.mixes@,
            switches: self.switches@,
            samples: self.samples@,
        }
    }
}

fn find_mix(mixes: &Vec<Mix>, id: u32) -> (r: Option<Cylinder>)
    ensures
        r == mix_of(mixes@, id),
{
    let mut found: Option<Cylinder> = None;
    let n: usize = mixes.len();
    for i in 0..n
        invariant
            n == mixes@.len(),
            found == mix_of(mixes@.take(i as int), id),
    {
        assert(mixes@.take(i + 1).drop_last() =~= mixes@.take(i as int));
        if found.is_none() && mixes[i].id == id {
            found = Some(mixes[i].gas);
        }
    }
    assert(mixes@.take(n as int) =~= mixes@);
    found
}

fn known(raw: u16) -> (r: u16)
    ensures
        r == known_pressure(raw),
{
    if raw == 0xFFFF {
        0
    } else {
        raw
    }
}

impl Recorder {
    fn new(mixes: Vec<Mix>) -> (r: Self)
        ensures
            r@ == blank(mixes@),
    {
        Recorder {
            time: 0,
            depth: 0,
            calibration: None,
            temperature: 0,
            have_temperature: false,
            pressure: 0,
            have_pressure: false,
            active: 0,
            previous: None,
            mixes,
            switches: Vec::new(),
            samples: Vec::new(),
        }
    }

    /// Records one point; `false` if it exceeds the range of the profile.
    fn point(&mut self, interval: u32) -> (ok: bool)
        ensures
            ok == with_point(old(self)@, interval) is Some,
            ok ==> with_point(old(self)@, interval) == Some(final(self)@),
    {
        let depth: i64 = match self.calibration {
            Some(c) => match self.depth.checked_sub(c) {
                Some(d) => d,
                None => return false,
            },
            None => 0,
        };
        let time: u32 = match self.time.checked_add(interval) {
            Some(t) => t,
            None => return false,
        };
        let same: bool = match self.previous {
            Some(p) => p == self.active,
            None => false,
        };
        if self.mixes.len() > 0 && !same {
            if let Some(gas) = find_mix(&self.mixes, self.active) {
                self.switches.push(
                    Switch { time: self.time, id: self.active, o2: gas.o2, he: gas.he },
                );
            }
            self.previous = Some(self.active);
        }
        let sample = Sample {
            time: self.time,
            depth,
            temp: if self.have_temperature { Some(self.temperature) } else { None },
            pressure: if self.have_pressure { Some(self.pressure) } else { None },
        };
        self.samples.push(sample);
        self.time = time;
        true
    }

    /// Records `n` points with the present readings.
    fn points(&mut self, interval: u32, n: u32) -> (ok: bool)
        ensures
            ok == with_points(old(self)@, interval, n as nat) is Some,
            ok ==> with_points(old(self)@, interval, n as nat) == Some(final(self)@),
    {
        let ghost start = self@;
        for i in 0..n
            invariant
                start == old(self)@,
                with_points(start, interval, i as nat) == Some(self@),
        {
            if !self.point(interval) {
                proof {
                    out_of_range_stays(start, interval, (i + 1) as nat, n as nat);
                }
                return false;
            }
        }
        true
    }

    /// Takes over the readings of an item.
    fn readings(&mut self, trimix: bool, event: Event) -> (ok: bool)
        ensures
            ok == with_readings(old(self)@, trimix, event) is Some,
            ok ==> with_readings(old(self)@, trimix, event) == Some(final(self)@),
    {
        match event {
            Event::DepthBy(by) => match self.depth.checked_add(by as i64) {
                Some(depth) => {
                    self.depth = depth;
                },
                None => return false,
            },
            Event::Depth(value) => {
                self.depth = value as i64;
                if self.calibration.is_none() {
                    self.calibration = Some(value as i64);
                }
            },
            Event::TemperatureBy(by) => match self.temperature.checked_add(by) {
                Some(temperature) => {
                    self.temperature = temperature;
                },
                None => return false,
            },
            Event::Temperature(value) => {
                self.temperature = value;
                self.have_temperature = true;
            },
            Event::PressureBy(by) => match self.pressure.checked_add(by as i64) {
                Some(pressure) => {
                    self.pressure = pressure;
                },
                None => return false,
            },
            Event::Pressure { value, index } => {
                if trimix {
                    self.pressure = (value % 4096) as i64;
                    self.active = value / 4096 % 16;
                } else {
                    self.pressure = value as i64;
                    self.active = index;
                }
                self.have_pressure = true;
            },
            Event::Alarm { value, index } => {
                if index == 1 {
                    self.active = value / 32 % 4;
                } else if index == 2 && trimix {
                    self.active = value / 16 % 16;
                }
            },
            Event::Gas { id, o2, he, begin, end } => {
                if (o2 != 0 || he != 0) && find_mix(&self.mixes, id).is_none() {
                    let gas = Cylinder { o2, he, begin: known(begin), end: known(end) };
                    self.mixes.push(Mix { id, gas });
                }
            },
            _ => {},
        }
        true
    }

    /// Takes over an item of the stream.
    fn event(&mut self, trimix: bool, interval: u32, event: Event) -> (ok: bool)
        ensures
            ok == with_event(old(self)@, trimix, interval, event) is Some,
            ok ==> with_event(old(self)@, trimix, interval, event) == Some(final(self)@),
    {
        if !self.readings(trimix, event) {
            return false;
        }
        let n: u32 = match event {
            Event::DepthBy(_) => 1,
            Event::Depth(_) => 1,
            Event::Points(n) => n,
            _ => 0,
        };
        self.points(interval, n)
    }
}

proof fn out_of_range_stays(r: Recording, interval: u32, m: nat, n: nat)
    requires
        m <= n,
        with_points(r, interval, m) is None,
    ensures
        with_points(r, interval, n) is None,
    decreases n,
{
    if m < n {
        out_of_range_stays(r, interval, m, (n - 1) as nat);
    }
}

/// How reading a sample stream ended.
enum Ending {
    Done,
    Invalid(u8),
    OutOfRange,
}

/// Reads the sample stream that starts at `start`.
fn record(
    rec: &[u8],
    start: usize,
    recorder: &mut Recorder,
    trimix: bool,
    interval: u32,
) -> (r: Ending)
    requires
        start <= rec@.len(),
    ensures
        match recorded(rec@, start as int, old(recorder)@, trimix, interval) {
            Outcome::Done(end) => r is Done && final(recorder)@ == end,
            Outcome::Invalid(b) => r == Ending::Invalid(b),
            Outcome::OutOfRange => r is OutOfRange,
        },
{
    let ghost first = recorder@;
    let mut off: usize = start;
    let n: usize = rec.len();
    while off < n
        invariant
            n == rec@.len(),
            off <= n,
            start <= n,
            first == old(recorder)@,
            recorded(rec@, start as int, first, trimix, interval) == recorded(
                rec@,
                off as int,
                recorder@,
                trimix,
                interval,
            ),
        decreases n - off,
    {
        proof {
            stream::reading_advances(rec@, off as int);
        }
        match stream::read_event(rec, off) {
            Reading::Item(event, next) => {
                if !recorder.event(trimix, interval, event) {
                    return Ending::OutOfRange;
                }
                off = next;
            },
            Reading::Invalid(b) => {
                return Ending::Invalid(b);
            },
            Reading::Incomplete => {
                return Ending::Done;
            },
            Reading::PastEnd => {
                return Ending::OutOfRange;
            },
        }
    }
    Ending::Done
}

/// Reads the gas mixes of a long header.
fn read_header_mixes(rec: &[u8], freedive: bool) -> (r: Vec<Mix>)
    requires
        rec@.len() >= 152,
    ensures
        r@ == header_mixes(rec@, freedive, 3),
{
    let mut mixes: Vec<Mix> = Vec::new();
    for i in 0..3usize
        invariant
            rec@.len() >= 152,
            mixes@ == header_mixes(rec@, freedive, i as nat),
    {
        let o2: u16 = u16_le(rec, 44 + i * 2);
        if o2 != 0 {
            let mut begin: u16 = 0;
            let mut end: u16 = 0;
            if !freedive {
                end = known(u16_le(rec, 50 + 2 * i));
                begin = known(u16_le(rec, 50 + 2 * i + 6));
            }
            mixes.push(Mix { id: i as u32, gas: Cylinder { o2, he: 0, begin, end } });
        }
    }
    mixes
}

fn count_below(mixes: &Vec<Mix>, id: u32) -> (r: usize)
    ensures
        r == below(mixes@, id),
        r <= mixes@.len(),
{
    let mut count: usize = 0;
    let n: usize = mixes.len();
    for i in 0..n
        invariant
            n == mixes@.len(),
            count <= i,
            count == below(mixes@.take(i as int), id),
    {
        assert(mixes@.take(i + 1).drop_last() =~= mixes@.take(i as int));
        if mixes[i].id < id {
            count = count + 1;
        }
    }
    assert(mixes@.take(n as int) =~= mixes@);
    count
}

fn sort_mixes(mixes: &Vec<Mix>) -> (r: Vec<Mix>)
    ensures
        r@ == in_order(mixes@),
{
    let mut sorted: Vec<Mix> = Vec::new();
    let n: usize = mixes.len();
    for i in 0..n
        invariant
            n == mixes@.len(),
            sorted@ == in_order(mixes@.take(i as int)),
    {
        assert(mixes@.take(i + 1).drop_last() =~= mixes@.take(i as int));
        let at: usize = count_below(&sorted, mixes[i].id);
        sorted.insert(at, mixes[i]);
    }
    assert(mixes@.take(n as int) =~= mixes@);
    sorted
}

fn cylinders(mixes: &Vec<Mix>) -> (r: Vec<Cylinder>)
    ensures
        r@ == cylinders_of(mixes@),
{
    let sorted = sort_mixes(mixes);
    let mut out: Vec<Cylinder> = Vec::new();
    let n: usize = sorted.len();
    for i in 0..n
        invariant
            n == sorted@.len(),
            out@.len() == i,
            forall|k: int| 0 <= k < i ==> #[trigger] out@[k] == sorted@[k].gas,
    {
        out.push(sorted[i].gas);
    }
    assert(out@ =~= cylinders_of(mixes@));
    out
}

fn gas_changes(switches: &Vec<Switch>, mixes: &Vec<Mix>) -> (r: Vec<GasChange>)
    ensures
        r@ == changes_of(switches@, mixes@),
{
    let mut out: Vec<GasChange> = Vec::new();
    let n: usize = switches.len();
    for i in 0..n
        invariant
            n == switches@.len(),
            out@.len() == i,
            forall|k: int|
                0 <= k < i ==> #[trigger] out@[k] == changes_of(switches@, mixes@)[k],
    {
        let s = switches[i];
        out.push(
            GasChange { time: s.time, cylinder: count_below(mixes, s.id), o2: s.o2, he: s.he },
        );
    }
    assert(out@ =~= changes_of(switches@, mixes@));
    out
}

/// Parses a dive record; `None` if its profile exceeds the range of the
/// profile's numbers, or if its last item lies partly behind its end.
pub fn try_parse_dive(rec: &[u8]) -> (r: Option<Result<Dive, DiveError>>)
    ensures
        match r {
            Some(d) => parsed(rec@) == Some(result_view(d)),
            None => parsed(rec@) is None,
        },
{
    let n: usize = rec.len();
    if n < 44 {
        return Some(Err(DiveError::TooShort));
    }
    let trimix: bool = rec[43] >= 0x80;
    let header: usize = if trimix { 84 } else { 152 };
    if n < header {
        return Some(Err(DiveError::ShorterThanHeader { len: n, header }));
    }
    let timestamp: u32 = u32_le(rec, 8);
    let tz_quarters: i32 = stream::signextend(rec[16] as u32, 8);
    proof {
        power_values();
    }
    let unix_time: i64 = EPOCH + (timestamp / 2) as i64 + tz_quarters as i64 * 900;
    let divetime_s: u32 = u16_le(rec, 26) as u32 * 60;
    let settings: u32 = u32_le(rec, if trimix { 68 } else { 92 });
    let salt: bool = settings / 0x10_0000 % 2 == 1;
    let freedive: bool = settings / 0x80 % 2 == 1;
    let maxdepth: u16 = u16_le(rec, 22);
    let temp_min: i16 = stream::signextend(u16_le(rec, 30) as u32, 16) as i16;
    let mixes: Vec<Mix> = if trimix { Vec::new() } else { read_header_mixes(rec, freedive) };
    let mut recorder = Recorder::new(mixes);
    match record(rec, header, &mut recorder, trimix, if freedive { 1 } else { 4 }) {
        Ending::Done => {
            let cylinders = cylinders(&recorder.mixes);
            let gas_changes = gas_changes(&recorder.switches, &recorder.mixes);
            Some(
                Ok(
                    Dive {
                        unix_time,
                        divetime_s,
                        maxdepth,
                        temp_min,
                        salt,
                        cylinders,
                        gas_changes,
                        samples: recorder.samples,
                    },
                ),
            )
        },
        Ending::Invalid(b) => Some(Err(DiveError::InvalidType(b))),
        Ending::OutOfRange => None,
    }
}

proof fn power_values()
    ensures
        vstd::arithmetic::power2::pow2(7) == 0x80,
        vstd::arithmetic::power2::pow2(8) == 0x100,
        vstd::arithmetic::power2::pow2(15) == 0x8000,
        vstd::arithmetic::power2::pow2(16) == 0x1_0000,
{
    vstd::arithmetic::power2::lemma2_to64();
}

/// Parses a dive record.
pub fn parse_dive(rec: &[u8]) -> (r: Result<Dive, DiveError>)
    requires
        parsed(rec@) is Some,
    ensures
        parsed(rec@) == Some(result_view(r)),
{
    try_parse_dive(rec).unwrap()
}

/// What a memory dump gives.
pub enum Dump {
    /// No dive record was found.
    NoRecords,
    /// Some record or marker cannot be read within the dump.
    OutOfRange,
    /// The dives, oldest first, and what is wrong with the other records.
    Dives(Vec<Result<Dive, DiveError>>),
}

/// Every record of the dump can be read, and every marker has its length.
pub open spec fn readable(data: Seq<u8>) -> bool {
    &&& records::lengths_are_whole(data)
    &&& forall|k: int|
        0 <= k < records::dive_records(data).len() ==> parsed(
            #[trigger] records::dive_records(data)[k],
        ) is Some
}

/// Parses all dive records of a memory dump.
pub fn parse_dump(data: &[u8]) -> (r: Dump)
    ensures
        r is OutOfRange <==> !readable(data@),
        r is NoRecords <==> readable(data@) && records::dive_records(data@).len() == 0,
        r matches Dump::Dives(dives) ==> {
            &&& dives@.len() == records::dive_records(data@).len()
            &&& forall|k: int|
                0 <= k < dives@.len() ==> parsed(records::dive_records(data@)[k]) == Some(
                    result_view(#[trigger] dives@[k]),
                )
        },
{
    if !records::has_whole_lengths(data) {
        return Dump::OutOfRange;
    }
    let found = records::extract_dives(data);
    let n: usize = found.len();
    let ghost all = records::dive_records(data@);
    assert(all.len() == n);
    if n == 0 {
        return Dump::NoRecords;
    }
    let mut dives: Vec<Result<Dive, DiveError>> = Vec::new();
    for i in 0..n
        invariant
            n == found@.len(),
            all == records::dive_records(data@),
            records::slices(found@) == all,
            records::lengths_are_whole(data@),
            dives@.len() == i,
            forall|k: int|
                0 <= k < i ==> parsed(all[k]) == Some(result_view(#[trigger] dives@[k])),
    {
        assert(records::slices(found@)[i as int] == found@[i as int]@);
        match try_parse_dive(found[i]) {
            Some(dive) => {
                dives.push(dive);
            },
            None => {
                assert(parsed(all[i as int]) is None);
                return Dump::OutOfRange;
            },
        }
    }
    proof {
        assert forall|k: int| 0 <= k < all.len() implies parsed(#[trigger] all[k]) is Some by {
            assert(parsed(all[k]) == Some(result_view(dives@[k])));
        }
    }
    Dump::Dives(dives)
}

/// No two mixes have the same number.
pub open spec fn distinct(mixes: Seq<Mix>) -> bool {
    forall|i: int, j: int|
        0 <= i < j < mixes.len() ==> (#[trigger] mixes[i]).id != (#[trigger] mixes[j]).id
}

/// The mixes stand in the order of their numbers.
pub open spec fn ascending(mixes: Seq<Mix>) -> bool {
    forall|i: int, j: int|
        0 <= i < j < mixes.len() ==> (#[trigger] mixes[i]).id < (#[trigger] mixes[j]).id
}

pub(crate) proof fn below_splits(s: Seq<Mix>, id: u32)
    requires
        ascending(s),
    ensures
        below(s, id) <= s.len(),
        forall|k: int| 0 <= k < below(s, id) ==> (#[trigger] s[k]).id < id,
        forall|k: int| below(s, id) <= k < s.len() ==> (#[trigger] s[k]).id >= id,
    decreases s.len(),
{
    if s.len() > 0 {
        let init = s.drop_last();
        below_splits(init, id);
        assert forall|k: int| 0 <= k < below(s, id) implies (#[trigger] s[k]).id < id by {
            if k < init.len() {
                assert(s[k] == init[k]);
            }
        }
        assert forall|k: int| below(s, id) <= k < s.len() implies (#[trigger] s[k]).id >= id by {
            if k < init.len() {
                assert(s[k] == init[k]);
            } else if s.last().id < id && init.len() > 0 {
                assert(init[init.len() - 1] == s[s.len() - 2]);
            }
        }
    }
}

proof fn position_within_number(s: Seq<Mix>, k: int)
    requires
        ascending(s),
        0 <= k < s.len(),
    ensures
        k <= s[k].id,
    decreases k,
{
    if k > 0 {
        position_within_number(s, k - 1);
        assert(s[k - 1].id < s[k].id);
    }
}

proof fn below_of_insert(s: Seq<Mix>, at: int, m: Mix, id: u32)
    requires
        0 <= at <= s.len(),
    ensures
        below(s.insert(at, m), id) == below(s, id) + if m.id < id {
            1nat
        } else {
            0
        },
    decreases s.len() - at,
{
    let t = s.insert(at, m);
    if at == s.len() {
        assert(t.drop_last() =~= s);
    } else {
        below_of_insert(s.drop_last(), at, m, id);
        assert(t.drop_last() =~= s.drop_last().insert(at, m));
        assert(t.last() == s.last());
    }
}

pub(crate) proof fn ordered(mixes: Seq<Mix>)
    requires
        distinct(mixes),
    ensures
        in_order(mixes).len() == mixes.len(),
        ascending(in_order(mixes)),
        forall|m: Mix| #[trigger] in_order(mixes).contains(m) <==> mixes.contains(m),
        forall|id: u32| #[trigger] below(in_order(mixes), id) == below(mixes, id),
    decreases mixes.len(),
{
    if mixes.len() > 0 {
        let init = mixes.drop_last();
        let m = mixes.last();
        let sorted = in_order(init);
        ordered(init);
        below_splits(sorted, m.id);
        let at = below(sorted, m.id) as int;
        let all = in_order(mixes);
        assert(all == sorted.insert(at, m));
        assert forall|k: int| 0 <= k < sorted.len() implies (#[trigger] sorted[k]).id != m.id by {
            assert(sorted.contains(sorted[k]));
            assert(init.contains(sorted[k]));
            let i = choose|i: int| 0 <= i < init.len() && init[i] == sorted[k];
            assert(mixes[i].id != mixes[mixes.len() - 1].id);
        }
        assert forall|i: int, j: int| 0 <= i < j < all.len() implies (#[trigger] all[i]).id < (
        #[trigger] all[j]).id by {
            let a = if i < at {
                i
            } else {
                i - 1
            };
            let b = if j < at {
                j
            } else {
                j - 1
            };
            if i != at {
                assert(all[i] == sorted[a]);
            }
            if j != at {
                assert(all[j] == sorted[b]);
            }
        }
        assert forall|x: Mix| #[trigger] all.contains(x) <==> mixes.contains(x) by {
            assert(sorted.contains(x) <==> init.contains(x));
            if all.contains(x) {
                let k = choose|k: int| 0 <= k < all.len() && all[k] == x;
                if k == at {
                    assert(mixes[mixes.len() - 1] == x);
                } else {
                    assert(sorted[if k < at {
                        k
                    } else {
                        k - 1
                    }] == x);
                    let i = choose|i: int| 0 <= i < init.len() && init[i] == x;
                    assert(mixes[i] == x);
                }
            }
            if mixes.contains(x) {
                let i = choose|i: int| 0 <= i < mixes.len() && mixes[i] == x;
                if i == mixes.len() - 1 {
                    assert(all[at] == x);
                } else {
                    assert(init[i] == x);
                    let k = choose|k: int| 0 <= k < sorted.len() && sorted[k] == x;
                    assert(all[if k < at {
                        k
                    } else {
                        k + 1
                    }] == x);
                }
            }
        }
        assert forall|id: u32| #[trigger] below(all, id) == below(mixes, id) by {
            below_of_insert(sorted, at, m, id);
            assert(below(sorted, id) == below(init, id));
        }
    }
}

pub(crate) proof fn found_mix_is_there(mixes: Seq<Mix>, id: u32)
    ensures
        mix_of(mixes, id) matches Some(gas) ==> mixes.contains(Mix { id, gas }),
        mix_of(mixes, id) is None ==> forall|i: int|
            0 <= i < mixes.len() ==> (#[trigger] mixes[i]).id != id,
    decreases mixes.len(),
{
    if mixes.len() > 0 {
        let init = mixes.drop_last();
        found_mix_is_there(init, id);
        if let Some(gas) = mix_of(init, id) {
            let i = choose|i: int| 0 <= i < init.len() && init[i] == (Mix { id, gas });
            assert(mixes[i] == (Mix { id, gas }));
        } else {
            if mixes.last().id == id {
                assert(mixes[mixes.len() - 1] == (Mix { id, gas: mixes.last().gas }));
            }
            assert forall|i: int| mix_of(mixes, id) is None && 0 <= i < mixes.len() implies (
            #[trigger] mixes[i]).id != id by {
                if i < init.len() {
                    assert(mixes[i] == init[i]);
                }
            }
        }
    }
}

/// What holds of a recording at every moment: its points are evenly spaced in
/// time, its mixes have different one-digit numbers, and every switch is to a mix
/// that is described, at the time of a point.
pub open spec fn sound(r: Recording, interval: u32) -> bool {
    &&& r.time == r.samples.len() * interval
    &&& forall|k: int|
        0 <= k < r.samples.len() ==> (#[trigger] r.samples[k]).time == k * interval
    &&& distinct(r.mixes)
    &&& forall|k: int| 0 <= k < r.mixes.len() ==> (#[trigger] r.mixes[k]).id < 10
    &&& forall|k: int| 0 <= k < r.switches.len() ==> sound_switch(r, #[trigger] r.switches[k])
    &&& forall|j: int, k: int|
        0 <= j < k < r.switches.len() ==> (#[trigger] r.switches[j]).time < (
        #[trigger] r.switches[k]).time
    &&& forall|k: int| 0 <= k < r.switches.len() ==> (#[trigger] r.switches[k]).time < r.time
}

/// The switch is to a described mix, at the time of a point.
pub open spec fn sound_switch(r: Recording, s: Switch) -> bool {
    &&& mix_of(r.mixes, s.id) matches Some(gas)
    &&& gas.o2 == s.o2
    &&& gas.he == s.he
    &&& exists|k: int| 0 <= k < r.samples.len() && (#[trigger] r.samples[k]).time == s.time
}

proof fn point_keeps_sound(r: Recording, interval: u32)
    requires
        sound(r, interval),
        interval > 0,
    ensures
        with_point(r, interval) matches Some(s) ==> sound(s, interval),
{
    if let Some(s) = with_point(r, interval) {
        let n = r.samples.len() as int;
        assert(s.samples[n].time == r.time);
        assert((n + 1) * interval == n * interval + interval) by (nonlinear_arith);
        assert forall|k: int| 0 <= k < s.samples.len() implies (#[trigger] s.samples[k]).time == k
            * interval by {
            if k < n {
                assert(s.samples[k] == r.samples[k]);
            }
        }
        assert forall|k: int| 0 <= k < s.switches.len() implies sound_switch(
            s,
            #[trigger] s.switches[k],
        ) by {
            if k < r.switches.len() {
                assert(s.switches[k] == r.switches[k]);
                assert(sound_switch(r, r.switches[k]));
                let i = choose|i: int|
                    0 <= i < r.samples.len() && (#[trigger] r.samples[i]).time
                        == r.switches[k].time;
                assert(s.samples[i] == r.samples[i]);
            } else {
                assert(s.samples[n].time == s.switches[k].time);
            }
        }
    }
}

proof fn points_keep_sound(r: Recording, interval: u32, n: nat)
    requires
        sound(r, interval),
        interval > 0,
    ensures
        with_points(r, interval, n) matches Some(s) ==> sound(s, interval),
    decreases n,
{
    if n > 0 {
        points_keep_sound(r, interval, (n - 1) as nat);
        if let Some(s) = with_points(r, interval, (n - 1) as nat) {
            point_keeps_sound(s, interval);
        }
    }
}

proof fn readings_keep_sound(r: Recording, interval: u32, trimix: bool, event: Event)
    requires
        sound(r, interval),
        event matches Event::Gas { id, .. } ==> id < 10,
    ensures
        with_readings(r, trimix, event) matches Some(s) ==> sound(s, interval),
{
    if let Some(s) = with_readings(r, trimix, event) {
        if let Event::Gas { id, .. } = event {
            found_mix_is_there(r.mixes, id);
            if s.mixes != r.mixes {
                assert(s.mixes.drop_last() =~= r.mixes);
            }
        }
        assert forall|k: int| 0 <= k < s.switches.len() implies sound_switch(
            s,
            #[trigger] s.switches[k],
        ) by {
            assert(sound_switch(r, r.switches[k]));
        }
    }
}

proof fn stream_keeps_sound(rec: Seq<u8>, off: int, r: Recording, trimix: bool, interval: u32)
    requires
        sound(r, interval),
        interval > 0,
    ensures
        recorded(rec, off, r, trimix, interval) matches Outcome::Done(s) ==> sound(s, interval),
    decreases rec.len() - off,
{
    if off < rec.len() {
        if let Reading::Item(event, next) = stream::reading(rec, off) {
            readings_keep_sound(r, interval, trimix, event);
            if let Some(s) = with_readings(r, trimix, event) {
                points_keep_sound(s, interval, points_of(event));
                if let Some(t) = with_event(r, trimix, interval, event) {
                    if off < next <= rec.len() {
                        stream_keeps_sound(rec, next as int, t, trimix, interval);
                    }
                }
            }
        }
    }
}

pub(crate) proof fn header_mixes_distinct(rec: Seq<u8>, freedive: bool, n: nat)
    requires
        n <= 3,
    ensures
        distinct(header_mixes(rec, freedive, n)),
        forall|i: int|
            0 <= i < header_mixes(rec, freedive, n).len() ==> (#[trigger] header_mixes(
                rec,
                freedive,
                n,
            )[i]).id < n,
    decreases n,
{
    if n > 0 {
        header_mixes_distinct(rec, freedive, (n - 1) as nat);
    }
}

/// Seconds between two points of a record's profile.
pub open spec fn interval_of(rec: Seq<u8>) -> u32 {
    if is_freedive(settings_of(rec)) {
        1
    } else {
        4
    }
}

/// The profile of a parsed dive has one point every four seconds, every second
/// for an apnea dive, starting at zero.
pub proof fn profile_is_evenly_spaced(rec: Seq<u8>)
    ensures
        parsed(rec) matches Some(Ok(d)) ==> forall|k: int|
            0 <= k < d.samples.len() ==> (#[trigger] d.samples[k]).time == k * interval_of(rec),
{
    if parsed(rec) matches Some(Ok(d)) {
        recording_is_sound(rec);
    }
}

pub(crate) proof fn recording_is_sound(rec: Seq<u8>)
    requires
        rec.len() >= 44,
    ensures
        profile(rec) matches Outcome::Done(r) ==> sound(r, interval_of(rec)),
{
    let trimix = is_trimix(rec);
    let freedive = is_freedive(settings_of(rec));
    header_mixes_distinct(rec, freedive, 3);
    stream_keeps_sound(
        rec,
        header_size(trimix) as int,
        blank(
            if trimix {
                Seq::empty()
            } else {
                header_mixes(rec, freedive, 3)
            },
        ),
        trimix,
        interval_of(rec),
    );
}

/// Every gas change of a parsed dive names one of the dive's cylinders and
/// repeats its oxygen and helium; it happens at the time of a profile point,
/// and no two happen at the same time.
pub proof fn gas_changes_name_cylinders(rec: Seq<u8>)
    ensures
        parsed(rec) matches Some(Ok(d)) ==> {
            &&& forall|k: int|
                0 <= k < d.gas_changes.len() ==> {
                    let c = #[trigger] d.gas_changes[k];
                    &&& c.cylinder < d.cylinders.len()
                    &&& d.cylinders[c.cylinder as int].o2 == c.o2
                    &&& d.cylinders[c.cylinder as int].he == c.he
                    &&& exists|i: int|
                        0 <= i < d.samples.len() && (#[trigger] d.samples[i]).time == c.time
                }
            &&& forall|j: int, k: int|
                0 <= j < k < d.gas_changes.len() ==> (#[trigger] d.gas_changes[j]).time < (
                #[trigger] d.gas_changes[k]).time
        },
{
    if let Some(Ok(d)) = parsed(rec) {
        recording_is_sound(rec);
        if let Outcome::Done(r) = profile(rec) {
            ordered(r.mixes);
            let sorted = in_order(r.mixes);
            assert forall|k: int| 0 <= k < d.gas_changes.len() implies {
                let c = #[trigger] d.gas_changes[k];
                &&& c.cylinder < d.cylinders.len()
                &&& d.cylinders[c.cylinder as int].o2 == c.o2
                &&& d.cylinders[c.cylinder as int].he == c.he
                &&& exists|i: int|
                    0 <= i < d.samples.len() && (#[trigger] d.samples[i]).time == c.time
            } by {
                let s = r.switches[k];
                assert(sound_switch(r, s));
                found_mix_is_there(r.mixes, s.id);
                let gas = mix_of(r.mixes, s.id)->0;
                let m = Mix { id: s.id, gas };
                assert(sorted.contains(m));
                let p = choose|p: int| 0 <= p < sorted.len() && sorted[p] == m;
                position_within_number(sorted, p);
                assert(r.mixes.contains(m));
                below_splits(sorted, s.id);
                assert(below(sorted, s.id) == below(r.mixes, s.id));
                assert(below(sorted, s.id) == p) by {
                    let b = below(sorted, s.id) as int;
                    if p < b {
                        assert(sorted[p].id < s.id);
                    } else if b < p {
                        assert(sorted[b].id < sorted[p].id);
                        assert(sorted[b].id >= s.id);
                    }
                }
                assert(d.cylinders[p] == sorted[p].gas);
                let q = choose|q: int| 0 <= q < r.mixes.len() && r.mixes[q] == m;
                assert(r.mixes[q].id < 10);
                assert(d.gas_changes[k].cylinder == p);
                assert(d.cylinders.len() == sorted.len());
                assert(d.samples == r.samples);
            }
            assert forall|j: int, k: int| 0 <= j < k < d.gas_changes.len() implies (
            #[trigger] d.gas_changes[j]).time < (#[trigger] d.gas_changes[k]).time by {
                assert(r.switches[j].time < r.switches[k].time);
            }
        }
    }
}

} // verus!
