//! What a parsed dive shows, told from the items of its sample stream: the
//! readings at every point, the gases, the gas changes, and which records are
//! dives at all.

use vstd::prelude::*;

use super::dive;
use super::dive::Cylinder;
use super::dive::DiveError;
use super::dive::Mix;
use super::dive::Outcome;
use super::dive::Recording;
use super::dive::Switch;
use super::stream;
use super::stream::Event;
use super::stream::Reading;

verus! {

/// The items of the stream from `off` on, in order, as far as it can be read.
pub open spec fn items(rec: Seq<u8>, off: int) -> Seq<Event>
    decreases rec.len() - off,
{
    if off >= rec.len() {
        Seq::empty()
    } else {
        match stream::reading(rec, off) {
            Reading::Item(e, next) => if off < next <= rec.len() {
                seq![e] + items(rec, next as int)
            } else {
                seq![e]
            },
            _ => Seq::empty(),
        }
    }
}

/// What keeps the stream from `off` on from being read to its end, if anything
/// does.
pub open spec fn obstacle(rec: Seq<u8>, off: int) -> Option<Reading>
    decreases rec.len() - off,
{
    if off >= rec.len() {
        None
    } else {
        match stream::reading(rec, off) {
            Reading::Item(_, next) => if off < next <= rec.len() {
                obstacle(rec, next as int)
            } else {
                None
            },
            other => Some(other),
        }
    }
}

/// The recording after a list of items.
pub open spec fn replay(
    r: Recording,
    trimix: bool,
    interval: u32,
    events: Seq<Event>,
) -> Option<Recording>
    decreases events.len(),
{
    if events.len() == 0 {
        Some(r)
    } else {
        match replay(r, trimix, interval, events.drop_last()) {
            Some(s) => dive::with_event(s, trimix, interval, events.last()),
            None => None,
        }
    }
}

proof fn replay_from_the_front(
    r: Recording,
    trimix: bool,
    interval: u32,
    e: Event,
    events: Seq<Event>,
)
    ensures
        replay(r, trimix, interval, seq![e] + events) == match dive::with_event(
            r,
            trimix,
            interval,
            e,
        ) {
            Some(s) => replay(s, trimix, interval, events),
            None => None,
        },
    decreases events.len(),
{
    let all = seq![e] + events;
    if events.len() == 0 {
        assert(all.drop_last() =~= Seq::empty());
        assert(replay(r, trimix, interval, all.drop_last()) == Some(r));
    } else {
        replay_from_the_front(r, trimix, interval, e, events.drop_last());
        assert(all.drop_last() =~= seq![e] + events.drop_last());
        assert(all.last() == events.last());
    }
}

/// A stream gives what its items give, one after the other.
proof fn stream_is_replayed(rec: Seq<u8>, off: int, r: Recording, trimix: bool, interval: u32)
    requires
        rec.len() <= usize::MAX,
        0 <= off,
    ensures
        dive::recorded(rec, off, r, trimix, interval) == match replay(
            r,
            trimix,
            interval,
            items(rec, off),
        ) {
            None => Outcome::OutOfRange,
            Some(s) => match obstacle(rec, off) {
                Some(Reading::Invalid(b)) => Outcome::Invalid(b),
                Some(Reading::PastEnd) => Outcome::OutOfRange,
                _ => Outcome::Done(s),
            },
        },
    decreases rec.len() - off,
{
    if off < rec.len() {
        stream::reading_advances(rec, off);
        if let Reading::Item(e, next) = stream::reading(rec, off) {
            replay_from_the_front(r, trimix, interval, e, items(rec, next as int));
            if let Some(s) = dive::with_event(r, trimix, interval, e) {
                stream_is_replayed(rec, next as int, s, trimix, interval);
            }
        }
    }
}

/// The number of points that an item completes: one for a depth, and as many as
/// it says for a run of points.
pub open spec fn completes(e: Event) -> nat {
    match e {
        Event::Depth(_) => 1,
        Event::DepthBy(_) => 1,
        Event::Points(n) => n as nat,
        _ => 0,
    }
}

/// The number of points that a list of items completes.
pub open spec fn points(events: Seq<Event>) -> nat
    decreases events.len(),
{
    if events.len() == 0 {
        0
    } else {
        points(events.drop_last()) + completes(events.last())
    }
}

/// The depth that a list of items leads to: the last absolute one plus the
/// changes since, from zero.
pub open spec fn raw_depth(events: Seq<Event>) -> int
    decreases events.len(),
{
    if events.len() == 0 {
        0
    } else {
        match events.last() {
            Event::Depth(v) => v as int,
            Event::DepthBy(by) => raw_depth(events.drop_last()) + by,
            _ => raw_depth(events.drop_last()),
        }
    }
}

/// The first absolute depth of a list of items.
pub open spec fn surface(events: Seq<Event>) -> Option<int>
    decreases events.len(),
{
    if events.len() == 0 {
        None
    } else {
        match surface(events.drop_last()) {
            Some(v) => Some(v),
            None => match events.last() {
                Event::Depth(v) => Some(v as int),
                _ => None,
            },
        }
    }
}

/// The temperature that a list of items leads to: the last absolute one plus the
/// changes since.
pub open spec fn raw_temperature(events: Seq<Event>) -> int
    decreases events.len(),
{
    if events.len() == 0 {
        0
    } else {
        match events.last() {
            Event::Temperature(v) => v as int,
            Event::TemperatureBy(by) => raw_temperature(events.drop_last()) + by,
            _ => raw_temperature(events.drop_last()),
        }
    }
}

/// The tank pressure that a list of items leads to: the last absolute one plus
/// the changes since. A trimix dive keeps it in twelve bits.
pub open spec fn raw_pressure(events: Seq<Event>, trimix: bool) -> int
    decreases events.len(),
{
    if events.len() == 0 {
        0
    } else {
        match events.last() {
            Event::Pressure { value, .. } => if trimix {
                value as int % 0x1000
            } else {
                value as int
            },
            Event::PressureBy(by) => raw_pressure(events.drop_last(), trimix) + by,
            _ => raw_pressure(events.drop_last(), trimix),
        }
    }
}

/// The mix in use after a list of items: the one of the last absolute pressure or
/// of the last alarm that names one, at first the mix 0.
pub open spec fn mix_in_use(events: Seq<Event>, trimix: bool) -> int
    decreases events.len(),
{
    if events.len() == 0 {
        0
    } else {
        match events.last() {
            Event::Pressure { value, index } => if trimix {
                value as int / 0x1000 % 16
            } else {
                index as int
            },
            Event::Alarm { value, index } => if index == 1 {
                value as int / 0x20 % 4
            } else if index == 2 && trimix {
                value as int / 0x10 % 16
            } else {
                mix_in_use(events.drop_last(), trimix)
            },
            _ => mix_in_use(events.drop_last(), trimix),
        }
    }
}

/// A reading has been taken.
pub open spec fn has_temperature(events: Seq<Event>) -> bool {
    exists|k: int| 0 <= k < events.len() && #[trigger] events[k] is Temperature
}

/// A tank pressure has been read.
pub open spec fn has_pressure(events: Seq<Event>) -> bool {
    exists|k: int| 0 <= k < events.len() && #[trigger] events[k] is Pressure
}

/// The first description of a mix in a list of items that gives it any gas; tank
/// pressures of FFFF are unknown.
pub open spec fn first_description(events: Seq<Event>, id: int) -> Option<Cylinder>
    decreases events.len(),
{
    if events.len() == 0 {
        None
    } else {
        match first_description(events.drop_last(), id) {
            Some(gas) => Some(gas),
            None => match events.last() {
                Event::Gas { id: number, o2, he, begin, end } => if number == id && (o2 != 0 || he
                    != 0) {
                    Some(
                        Cylinder {
                            o2,
                            he,
                            begin: if begin == 0xffff {
                                0
                            } else {
                                begin
                            },
                            end: if end == 0xffff {
                                0
                            } else {
                                end
                            },
                        },
                    )
                } else {
                    None
                },
                _ => None,
            },
        }
    }
}

proof fn has_after(events: Seq<Event>)
    requires
        events.len() > 0,
    ensures
        has_temperature(events) <==> has_temperature(events.drop_last())
            || events.last() is Temperature,
        has_pressure(events) <==> has_pressure(events.drop_last()) || events.last() is Pressure,
{
    let init = events.drop_last();
    let n = events.len() - 1;
    assert(events[n] == events.last());
    assert(forall|k: int| 0 <= k < n ==> init[k] == #[trigger] events[k]);
    if has_temperature(init) {
        let k = choose|k: int| 0 <= k < init.len() && #[trigger] init[k] is Temperature;
        assert(events[k] is Temperature);
    }
    if has_pressure(init) {
        let k = choose|k: int| 0 <= k < init.len() && #[trigger] init[k] is Pressure;
        assert(events[k] is Pressure);
    }
    if has_temperature(events) {
        let k = choose|k: int| 0 <= k < events.len() && #[trigger] events[k] is Temperature;
        assert(k < n ==> init[k] is Temperature);
    }
    if has_pressure(events) {
        let k = choose|k: int| 0 <= k < events.len() && #[trigger] events[k] is Pressure;
        assert(k < n ==> init[k] is Pressure);
    }
}

/// Points with the same readings: they follow each other in time, and only the
/// first can be a switch.
proof fn run_of_points(s: Recording, interval: u32, n: nat)
    ensures
        dive::with_points(s, interval, n) matches Some(r) ==> {
            &&& r.depth == s.depth
            &&& r.calibration == s.calibration
            &&& r.temperature == s.temperature
            &&& r.have_temperature == s.have_temperature
            &&& r.pressure == s.pressure
            &&& r.have_pressure == s.have_pressure
            &&& r.active == s.active
            &&& r.mixes == s.mixes
            &&& r.time == s.time + n * interval
            &&& r.samples.len() == s.samples.len() + n
            &&& forall|j: int| 0 <= j < s.samples.len() ==> #[trigger] r.samples[j] == s.samples[j]
            &&& forall|j: int|
                s.samples.len() <= j < r.samples.len() ==> {
                    let p = #[trigger] r.samples[j];
                    &&& dive::point_depth(s) == Some(p.depth)
                    &&& p.temp == (if s.have_temperature {
                        Some(s.temperature)
                    } else {
                        None
                    })
                    &&& p.pressure == (if s.have_pressure {
                        Some(s.pressure)
                    } else {
                        None
                    })
                    &&& p.time == s.time + (j - s.samples.len()) * interval
                }
            &&& r.previous == (if n > 0 && dive::switching(s) {
                Some(s.active)
            } else {
                s.previous
            })
            &&& r.switches == (if n > 0 && dive::switching(s) && dive::mix_of(
                s.mixes,
                s.active,
            ) is Some {
                s.switches.push(
                    Switch {
                        time: s.time,
                        id: s.active,
                        o2: dive::mix_of(s.mixes, s.active)->0.o2,
                        he: dive::mix_of(s.mixes, s.active)->0.he,
                    },
                )
            } else {
                s.switches
            })
        },
    decreases n,
{
    if n > 0 {
        run_of_points(s, interval, (n - 1) as nat);
        if let Some(q) = dive::with_points(s, interval, (n - 1) as nat) {
            if let Some(r) = dive::with_point(q, interval) {
                assert(n * interval == (n - 1) * interval + interval) by (nonlinear_arith);
            }
        }
    } else {
        assert(0 * interval == 0) by (nonlinear_arith);
    }
}

/// The readings of a recording are those that its items lead to.
pub open spec fn matches_items(
    r: Recording,
    trimix: bool,
    interval: u32,
    events: Seq<Event>,
) -> bool {
    &&& r.depth == raw_depth(events)
    &&& r.calibration is Some <==> surface(events) is Some
    &&& r.calibration matches Some(c) ==> surface(events) == Some(c as int)
    &&& r.temperature == raw_temperature(events)
    &&& r.have_temperature == has_temperature(events)
    &&& r.pressure == raw_pressure(events, trimix)
    &&& r.have_pressure == has_pressure(events)
    &&& r.active == mix_in_use(events, trimix)
    &&& r.samples.len() == points(events)
    &&& r.time == points(events) * interval
}

proof fn replay_matches_items(
    mixes: Seq<Mix>,
    trimix: bool,
    interval: u32,
    events: Seq<Event>,
)
    ensures
        replay(dive::blank(mixes), trimix, interval, events) matches Some(r) ==> matches_items(
            r,
            trimix,
            interval,
            events,
        ),
    decreases events.len(),
{
    let start = dive::blank(mixes);
    if events.len() == 0 {
        assert(0 * interval == 0) by (nonlinear_arith);
    } else {
        let init = events.drop_last();
        let e = events.last();
        replay_matches_items(mixes, trimix, interval, init);
        has_after(events);
        if let Some(q) = replay(start, trimix, interval, init) {
            if let Some(s) = dive::with_readings(q, trimix, e) {
                run_of_points(s, interval, dive::points_of(e));
                let m = points(init);
                let n = completes(e);
                assert((m + n) * interval == m * interval + n * interval) by (nonlinear_arith);
            }
        }
    }
}

/// What a point shows after a list of items: the depth below the first absolute
/// one, or none before there is one, and the readings that have been taken.
pub open spec fn shows(p: dive::Sample, events: Seq<Event>, trimix: bool) -> bool {
    &&& surface(events) matches Some(c) ==> p.depth == raw_depth(events) - c
    &&& surface(events) is None ==> p.depth == 0
    &&& has_temperature(events) ==> p.temp == Some(raw_temperature(events) as i32) && i32::MIN
        <= raw_temperature(events) <= i32::MAX
    &&& !has_temperature(events) ==> p.temp is None
    &&& has_pressure(events) ==> p.pressure == Some(raw_pressure(events, trimix) as i64)
        && i64::MIN <= raw_pressure(events, trimix) <= i64::MAX
    &&& !has_pressure(events) ==> p.pressure is None
}

proof fn replayed_points_show(
    mixes: Seq<Mix>,
    trimix: bool,
    interval: u32,
    events: Seq<Event>,
    k: int,
    j: int,
)
    requires
        0 <= k < events.len(),
        points(events.take(k)) <= j < points(events.take(k + 1)),
    ensures
        replay(dive::blank(mixes), trimix, interval, events) matches Some(r) ==> {
            &&& j < r.samples.len()
            &&& r.samples[j].time == j * interval
            &&& shows(r.samples[j], events.take(k + 1), trimix)
        },
    decreases events.len(),
{
    let start = dive::blank(mixes);
    let init = events.drop_last();
    let e = events.last();
    if let Some(q) = replay(start, trimix, interval, init) {
        if let Some(s) = dive::with_readings(q, trimix, e) {
            if let Some(r) = dive::with_points(s, interval, dive::points_of(e)) {
                run_of_points(s, interval, dive::points_of(e));
                replay_matches_items(mixes, trimix, interval, init);
                replay_matches_items(mixes, trimix, interval, events);
                if k < events.len() - 1 {
                    assert(init.take(k) =~= events.take(k));
                    assert(init.take(k + 1) =~= events.take(k + 1));
                    replayed_points_show(mixes, trimix, interval, init, k, j);
                    assert(r.samples[j] == q.samples[j]);
                } else {
                    assert(events.take(k) =~= init);
                    assert(events.take(k + 1) =~= events);
                    has_after(events);
                    let m = points(init) as int;
                    assert(s.samples.len() == m);
                    assert(j * interval == m * interval + (j - m) * interval) by (nonlinear_arith);
                    assert(dive::point_depth(s) == Some(r.samples[j].depth));
                }
            }
        }
    }
}

/// A record of a trimix dive has its mark in byte 43.
pub open spec fn trimix_record(rec: Seq<u8>) -> bool {
    rec[43] >= 0x80
}

/// Where the sample stream of a record starts.
pub open spec fn stream_start(rec: Seq<u8>) -> int {
    if trimix_record(rec) {
        84
    } else {
        152
    }
}

/// An apnea dive has its mark in the lowest byte of the settings.
pub open spec fn apnea_record(rec: Seq<u8>) -> bool {
    if trimix_record(rec) {
        rec[68] >= 0x80
    } else {
        rec[92] >= 0x80
    }
}

/// Seconds between two points.
pub open spec fn point_distance(rec: Seq<u8>) -> u32 {
    if apnea_record(rec) {
        1
    } else {
        4
    }
}

/// The items of a record's sample stream.
pub open spec fn record_items(rec: Seq<u8>) -> Seq<Event> {
    items(rec, stream_start(rec))
}

/// The gas mixes in the header of a record.
pub open spec fn mixes_at_first(rec: Seq<u8>) -> Seq<Mix> {
    if trimix_record(rec) {
        Seq::empty()
    } else {
        dive::header_mixes(rec, apnea_record(rec), 3)
    }
}

proof fn profile_is_replayed(rec: Seq<u8>)
    requires
        stream_start(rec) <= rec.len() <= usize::MAX,
        rec.len() >= 44,
    ensures
        dive::profile(rec) == match replay(
            dive::blank(mixes_at_first(rec)),
            trimix_record(rec),
            point_distance(rec),
            record_items(rec),
        ) {
            None => Outcome::OutOfRange,
            Some(s) => match obstacle(rec, stream_start(rec)) {
                Some(Reading::Invalid(b)) => Outcome::Invalid(b),
                Some(Reading::PastEnd) => Outcome::OutOfRange,
                _ => Outcome::Done(s),
            },
        },
        dive::interval_of(rec) == point_distance(rec),
{
    assert(dive::is_freedive(dive::settings_of(rec)) == apnea_record(rec));
    stream_is_replayed(
        rec,
        stream_start(rec),
        dive::blank(mixes_at_first(rec)),
        trimix_record(rec),
        point_distance(rec),
    );
}

/// Every point of a parsed dive shows the readings that the items up to its own
/// lead to. Its depth is the raw depth, which is the last absolute one plus the
/// changes since, minus the first absolute depth of the whole stream, which
/// never changes again; its temperature and pressure are the last absolute ones
/// plus the changes since. Points are four seconds apart, one second in an apnea
/// dive, and there are as many as the items complete.
pub proof fn points_show_the_readings(rec: Seq<u8>, k: int, j: int)
    requires
        rec.len() <= usize::MAX,
        0 <= k < record_items(rec).len(),
        points(record_items(rec).take(k)) <= j < points(record_items(rec).take(k + 1)),
    ensures
        dive::parsed(rec) matches Some(Ok(d)) ==> {
            &&& d.samples.len() == points(record_items(rec))
            &&& j < d.samples.len()
            &&& d.samples[j].time == j * point_distance(rec)
            &&& shows(d.samples[j], record_items(rec).take(k + 1), trimix_record(rec))
        },
{
    if let Some(Ok(d)) = dive::parsed(rec) {
        profile_is_replayed(rec);
        let events = record_items(rec);
        let mixes = mixes_at_first(rec);
        replay_matches_items(mixes, trimix_record(rec), point_distance(rec), events);
        replayed_points_show(mixes, trimix_record(rec), point_distance(rec), events, k, j);
    }
}

/// The surface is set by the first absolute depth alone: whatever items follow
/// one, it stays what it is.
pub proof fn surface_is_set_once(events: Seq<Event>, more: Seq<Event>)
    ensures
        surface(events) is Some ==> surface(events + more) == surface(events),
    decreases more.len(),
{
    if more.len() == 0 {
        assert(events + more =~= events);
    } else {
        surface_is_set_once(events, more.drop_last());
        assert((events + more).drop_last() =~= events + more.drop_last());
    }
}

/// A tank pressure in the header; it is unknown in an apnea dive and where it is
/// FFFF.
pub open spec fn header_pressure(rec: Seq<u8>, at: int) -> u16 {
    let raw = rec[at] + 0x100 * rec[at + 1];
    if apnea_record(rec) || raw == 0xffff {
        0
    } else {
        raw as u16
    }
}

/// The gas of a mix in the header: three mixes of oxygen alone, with their tank
/// pressures at the end of the dive and at its start. A trimix dive has none.
pub open spec fn header_gas(rec: Seq<u8>, id: int) -> Option<Cylinder> {
    let o2 = rec[44 + 2 * id] + 0x100 * rec[45 + 2 * id];
    if trimix_record(rec) || !(0 <= id < 3) || o2 == 0 {
        None
    } else {
        Some(
            Cylinder {
                o2: o2 as u16,
                he: 0,
                begin: header_pressure(rec, 56 + 2 * id),
                end: header_pressure(rec, 50 + 2 * id),
            },
        )
    }
}

/// The gas of a mix after a list of items: that of the header, or the first
/// description that gives it any gas.
pub open spec fn gas_of(rec: Seq<u8>, events: Seq<Event>, id: int) -> Option<Cylinder> {
    match header_gas(rec, id) {
        Some(gas) => Some(gas),
        None => first_description(events, id),
    }
}

/// The gas of some mix is known after a list of items.
pub open spec fn any_gas(rec: Seq<u8>, events: Seq<Event>) -> bool {
    exists|id: u32| #[trigger] gas_of(rec, events, id as int) is Some
}

proof fn mix_of_pushed(mixes: Seq<Mix>, m: Mix, id: u32)
    ensures
        dive::mix_of(mixes.push(m), id) == match dive::mix_of(mixes, id) {
            Some(gas) => Some(gas),
            None => if m.id == id {
                Some(m.gas)
            } else {
                None
            },
        },
{
    assert(mixes.push(m).drop_last() =~= mixes);
}

proof fn header_mixes_are_read(rec: Seq<u8>, n: nat, id: u32)
    requires
        rec.len() >= 152,
        n <= 3,
        !trimix_record(rec),
    ensures
        dive::mix_of(dive::header_mixes(rec, apnea_record(rec), n), id) == (if id < n {
            header_gas(rec, id as int)
        } else {
            None
        }),
    decreases n,
{
    if n > 0 {
        let i = n - 1;
        let others = dive::header_mixes(rec, apnea_record(rec), i as nat);
        header_mixes_are_read(rec, i as nat, id);
        let all = dive::header_mixes(rec, apnea_record(rec), n);
        if all != others {
            mix_of_pushed(others, all.last(), id);
            assert(all.drop_last() =~= others);
            assert(all =~= others.push(all.last()));
        }
    }
}

proof fn first_mixes_are_read(rec: Seq<u8>, id: u32)
    requires
        rec.len() >= stream_start(rec),
        rec.len() >= 84,
    ensures
        dive::mix_of(mixes_at_first(rec), id) == header_gas(rec, id as int),
{
    if !trimix_record(rec) {
        header_mixes_are_read(rec, 3, id);
    }
}

proof fn replay_describes(rec: Seq<u8>, events: Seq<Event>, id: u32)
    requires
        rec.len() >= stream_start(rec),
        rec.len() >= 84,
    ensures
        replay(
            dive::blank(mixes_at_first(rec)),
            trimix_record(rec),
            point_distance(rec),
            events,
        ) matches Some(r) ==> dive::mix_of(r.mixes, id) == gas_of(rec, events, id as int),
    decreases events.len(),
{
    let start = dive::blank(mixes_at_first(rec));
    let interval = point_distance(rec);
    first_mixes_are_read(rec, id);
    if events.len() > 0 {
        let init = events.drop_last();
        let e = events.last();
        replay_describes(rec, init, id);
        if let Some(q) = replay(start, trimix_record(rec), interval, init) {
            if let Some(s) = dive::with_readings(q, trimix_record(rec), e) {
                run_of_points(s, interval, dive::points_of(e));
                if let Event::Gas { id: number, .. } = e {
                    if number != id {
                        replay_describes(rec, init, number);
                    }
                    if s.mixes != q.mixes {
                        assert(s.mixes =~= q.mixes.push(s.mixes.last()));
                        mix_of_pushed(q.mixes, s.mixes.last(), id);
                    }
                }
            }
        }
    }
}

proof fn some_mix_means_any_gas(rec: Seq<u8>, events: Seq<Event>)
    requires
        rec.len() >= stream_start(rec),
        rec.len() >= 84,
    ensures
        replay(
            dive::blank(mixes_at_first(rec)),
            trimix_record(rec),
            point_distance(rec),
            events,
        ) matches Some(r) ==> (r.mixes.len() > 0 <==> any_gas(rec, events)),
{
    if let Some(r) = replay(
        dive::blank(mixes_at_first(rec)),
        trimix_record(rec),
        point_distance(rec),
        events,
    ) {
        if r.mixes.len() > 0 {
            let id = r.mixes[0].id;
            dive::found_mix_is_there(r.mixes, id);
            replay_describes(rec, events, id);
            assert(gas_of(rec, events, id as int) is Some);
        }
        if any_gas(rec, events) {
            let id = choose|id: u32| #[trigger] gas_of(rec, events, id as int) is Some;
            replay_describes(rec, events, id);
        }
    }
}

/// The mix that was in use at the last point, of those points at which the gas of
/// any mix was known.
pub open spec fn last_used(rec: Seq<u8>, events: Seq<Event>) -> Option<int>
    decreases events.len(),
{
    if events.len() == 0 {
        None
    } else if completes(events.last()) > 0 && any_gas(rec, events) {
        Some(mix_in_use(events, trimix_record(rec)))
    } else {
        last_used(rec, events.drop_last())
    }
}

/// The last item completes a point at which another mix is in use than at the
/// point before, and the gas of that mix is known.
pub open spec fn changes_gas(rec: Seq<u8>, events: Seq<Event>) -> bool {
    let id = mix_in_use(events, trimix_record(rec));
    &&& completes(events.last()) > 0
    &&& last_used(rec, events.drop_last()) != Some(id)
    &&& gas_of(rec, events, id) is Some
}

/// Time and mix of the gas changes after a list of items: one at the first point
/// of each item that changes the gas.
pub open spec fn gas_changes(rec: Seq<u8>, events: Seq<Event>) -> Seq<(int, int)>
    decreases events.len(),
{
    if events.len() == 0 {
        Seq::empty()
    } else {
        let before = gas_changes(rec, events.drop_last());
        if changes_gas(rec, events) {
            before.push(
                (
                    points(events.drop_last()) * point_distance(rec),
                    mix_in_use(events, trimix_record(rec)),
                ),
            )
        } else {
            before
        }
    }
}

proof fn replay_switches(rec: Seq<u8>, events: Seq<Event>)
    requires
        rec.len() >= stream_start(rec),
        rec.len() >= 84,
    ensures
        replay(
            dive::blank(mixes_at_first(rec)),
            trimix_record(rec),
            point_distance(rec),
            events,
        ) matches Some(r) ==> {
            &&& r.previous is Some <==> last_used(rec, events) is Some
            &&& r.previous matches Some(p) ==> last_used(rec, events) == Some(p as int)
            &&& r.switches.len() == gas_changes(rec, events).len()
            &&& forall|k: int|
                0 <= k < r.switches.len() ==> (#[trigger] r.switches[k]).time == gas_changes(
                    rec,
                    events,
                )[k].0 && r.switches[k].id == gas_changes(rec, events)[k].1
        },
    decreases events.len(),
{
    let start = dive::blank(mixes_at_first(rec));
    let trimix = trimix_record(rec);
    let interval = point_distance(rec);
    if events.len() > 0 {
        let init = events.drop_last();
        let e = events.last();
        replay_switches(rec, init);
        replay_matches_items(mixes_at_first(rec), trimix, interval, init);
        replay_matches_items(mixes_at_first(rec), trimix, interval, events);
        some_mix_means_any_gas(rec, events);
        if let Some(q) = replay(start, trimix, interval, init) {
            if let Some(s) = dive::with_readings(q, trimix, e) {
                run_of_points(s, interval, dive::points_of(e));
                if let Some(r) = dive::with_points(s, interval, dive::points_of(e)) {
                    replay_describes(rec, events, r.active);
                    if changes_gas(rec, events) {
                        assert(gas_of(rec, events, r.active as int) is Some);
                        assert(any_gas(rec, events));
                    }
                }
            }
        }
    }
}

/// `numbers` are the numbers of the mixes in the order of the cylinders.
pub open spec fn are_numbers(rec: Seq<u8>, numbers: Seq<u32>, cylinders: Seq<Cylinder>) -> bool {
    &&& numbers.len() == cylinders.len()
    &&& forall|p: int, q: int|
        0 <= p < q < numbers.len() ==> (#[trigger] numbers[p]) < (#[trigger] numbers[q])
    &&& forall|p: int|
        0 <= p < numbers.len() ==> gas_of(rec, record_items(rec), #[trigger] numbers[p] as int)
            == Some(cylinders[p])
    &&& forall|id: u32| #[trigger]
        gas_of(rec, record_items(rec), id as int) is Some ==> numbers.contains(id)
}

/// The cylinders of a parsed dive are the mixes whose gas is known, from the
/// header or from their first description in the stream, each with its oxygen,
/// helium and tank pressures, in the order of their numbers. Its gas changes are
/// at the first points at which another one of them is in use than at the point
/// before, and name its cylinder.
pub proof fn cylinders_and_changes(rec: Seq<u8>)
    requires
        rec.len() <= usize::MAX,
    ensures
        dive::parsed(rec) matches Some(Ok(d)) ==> exists|numbers: Seq<u32>|
            {
                &&& #[trigger] are_numbers(rec, numbers, d.cylinders)
                &&& d.gas_changes.len() == gas_changes(rec, record_items(rec)).len()
                &&& forall|k: int|
                    0 <= k < d.gas_changes.len() ==> {
                        let c = #[trigger] d.gas_changes[k];
                        let change = gas_changes(rec, record_items(rec))[k];
                        &&& c.time == change.0
                        &&& c.cylinder < d.cylinders.len()
                        &&& numbers[c.cylinder as int] == change.1
                        &&& c.o2 == d.cylinders[c.cylinder as int].o2
                        &&& c.he == d.cylinders[c.cylinder as int].he
                    }
            },
{
    if let Some(Ok(d)) = dive::parsed(rec) {
        let events = record_items(rec);
        profile_is_replayed(rec);
        dive::recording_is_sound(rec);
        dive::gas_changes_name_cylinders(rec);
        replay_switches(rec, events);
        if let Outcome::Done(r) = dive::profile(rec) {
            dive::ordered(r.mixes);
            let sorted = dive::in_order(r.mixes);
            let numbers = sorted.map_values(|m: Mix| m.id);
            assert forall|p: int| 0 <= p < numbers.len() implies gas_of(
                rec,
                events,
                #[trigger] numbers[p] as int,
            ) == Some(d.cylinders[p]) by {
                let m = sorted[p];
                assert(sorted.contains(m));
                assert(r.mixes.contains(m));
                only_mix_of_its_number(r.mixes, m);
                replay_describes(rec, events, m.id);
            }
            assert forall|id: u32| #[trigger]
                gas_of(rec, events, id as int) is Some implies numbers.contains(id) by {
                replay_describes(rec, events, id);
                dive::found_mix_is_there(r.mixes, id);
                let m = Mix { id, gas: dive::mix_of(r.mixes, id)->0 };
                assert(sorted.contains(m));
                let p = choose|p: int| 0 <= p < sorted.len() && sorted[p] == m;
                assert(numbers[p] == id);
            }
            assert forall|p: int, q: int| 0 <= p < q < numbers.len() implies (#[trigger] numbers[p])
                < (#[trigger] numbers[q]) by {
                assert(sorted[p].id < sorted[q].id);
            }
            assert(are_numbers(rec, numbers, d.cylinders));
            assert forall|k: int| 0 <= k < d.gas_changes.len() implies {
                let c = #[trigger] d.gas_changes[k];
                let change = gas_changes(rec, events)[k];
                &&& c.time == change.0
                &&& c.cylinder < d.cylinders.len()
                &&& numbers[c.cylinder as int] == change.1
                &&& c.o2 == d.cylinders[c.cylinder as int].o2
                &&& c.he == d.cylinders[c.cylinder as int].he
            } by {
                let s = r.switches[k];
                let c = d.gas_changes[k];
                assert(dive::sound_switch(r, s));
                dive::found_mix_is_there(r.mixes, s.id);
                let m = Mix { id: s.id, gas: dive::mix_of(r.mixes, s.id)->0 };
                assert(sorted.contains(m));
                let p = choose|p: int| 0 <= p < sorted.len() && sorted[p] == m;
                dive::below_splits(sorted, s.id);
                assert(dive::below(sorted, s.id) == dive::below(r.mixes, s.id));
                let b = dive::below(sorted, s.id) as int;
                if p < b {
                    assert(sorted[p].id < s.id);
                } else if b < p {
                    assert(sorted[b].id < sorted[p].id);
                    assert(sorted[b].id >= s.id);
                }
                assert(b == p);
                assert(r.mixes.contains(m));
                let q = choose|q: int| 0 <= q < r.mixes.len() && r.mixes[q] == m;
                assert(r.mixes[q].id < 10);
                position_below_number(sorted, p);
                assert(c.cylinder == p);
                assert(numbers[p] == s.id);
            }
        }
    }
}

proof fn position_below_number(s: Seq<Mix>, k: int)
    requires
        dive::ascending(s),
        0 <= k < s.len(),
    ensures
        k <= s[k].id,
    decreases k,
{
    if k > 0 {
        position_below_number(s, k - 1);
        assert(s[k - 1].id < s[k].id);
    }
}

proof fn only_mix_of_its_number(mixes: Seq<Mix>, m: Mix)
    requires
        dive::distinct(mixes),
        mixes.contains(m),
    ensures
        dive::mix_of(mixes, m.id) == Some(m.gas),
{
    dive::found_mix_is_there(mixes, m.id);
    let i = choose|i: int| 0 <= i < mixes.len() && mixes[i] == m;
    assert(mixes[i].id == m.id);
    let gas = dive::mix_of(mixes, m.id)->0;
    let n = Mix { id: m.id, gas };
    let j = choose|j: int| 0 <= j < mixes.len() && mixes[j] == n;
    if i < j {
        assert(mixes[i].id != mixes[j].id);
    } else if j < i {
        assert(mixes[j].id != mixes[i].id);
    }
}

/// Where the items of the stream from `off` on start.
pub open spec fn starts(rec: Seq<u8>, off: int) -> Seq<int>
    decreases rec.len() - off,
{
    if off >= rec.len() {
        Seq::empty()
    } else {
        match stream::reading(rec, off) {
            Reading::Item(_, next) => if off < next <= rec.len() {
                seq![off] + starts(rec, next as int)
            } else {
                seq![off]
            },
            _ => Seq::empty(),
        }
    }
}

proof fn items_stand_at_their_starts(rec: Seq<u8>, off: int)
    requires
        0 <= off,
    ensures
        starts(rec, off).len() == items(rec, off).len(),
        forall|k: int|
            0 <= k < items(rec, off).len() ==> {
                &&& off <= #[trigger] starts(rec, off)[k] < rec.len()
                &&& stream::reading(rec, starts(rec, off)[k]) is Item
                &&& stream::reading(rec, starts(rec, off)[k])->Item_0 == items(rec, off)[k]
            },
    decreases rec.len() - off,
{
    if off < rec.len() {
        if let Reading::Item(e, next) = stream::reading(rec, off) {
            if off < next <= rec.len() {
                items_stand_at_their_starts(rec, next as int);
                let rest = starts(rec, next as int);
                assert forall|k: int| 0 <= k < items(rec, off).len() implies {
                    &&& off <= #[trigger] starts(rec, off)[k] < rec.len()
                    &&& stream::reading(rec, starts(rec, off)[k]) is Item
                    &&& stream::reading(rec, starts(rec, off)[k])->Item_0 == items(rec, off)[k]
                } by {
                    if k > 0 {
                        assert(starts(rec, off)[k] == rest[k - 1]);
                        assert(items(rec, off)[k] == items(rec, next as int)[k - 1]);
                    }
                }
            }
        }
    }
}

/// The bytes at `p` describe the gas mix `id`, and give it some gas.
pub open spec fn describes_mix(rec: Seq<u8>, p: int, id: int) -> bool {
    &&& rec[p] == 0xFB
    &&& p + 1 + rec[p + 1] <= rec.len()
    &&& rec[p + 1] >= 16
    &&& rec[p + 2] == 32 + id
    &&& rec[p + 3] != 0 || rec[p + 4] != 0 || rec[p + 5] != 0 || rec[p + 6] != 0
}

/// A tank pressure of two bytes, low byte first; FFFF is unknown.
pub open spec fn described_pressure(rec: Seq<u8>, at: int) -> u16 {
    let raw = rec[at] + 0x100 * rec[at + 1];
    if raw == 0xffff {
        0
    } else {
        raw as u16
    }
}

/// A description of any of the mixes 0 to 9 in the sample stream gives the dive a
/// cylinder with that oxygen, that helium and those tank pressures, unless the
/// header or an earlier description has given the mix a gas.
pub proof fn described_mixes_have_cylinders(rec: Seq<u8>, k: int, id: int)
    requires
        rec.len() <= usize::MAX,
        0 <= id <= 9,
        0 <= k < starts(rec, stream_start(rec)).len(),
        describes_mix(rec, starts(rec, stream_start(rec))[k], id),
        header_gas(rec, id) is None,
        forall|j: int|
            0 <= j < k ==> !describes_mix(
                rec,
                #[trigger] starts(rec, stream_start(rec))[j],
                id,
            ),
    ensures
        ({
            let p = starts(rec, stream_start(rec))[k];
            dive::parsed(rec) matches Some(Ok(d)) ==> d.cylinders.contains(
                Cylinder {
                    o2: (rec[p + 3] + 0x100 * rec[p + 4]) as u16,
                    he: (rec[p + 5] + 0x100 * rec[p + 6]) as u16,
                    begin: described_pressure(rec, p + 7),
                    end: described_pressure(rec, p + 9),
                },
            )
        }),
{
    let at = starts(rec, stream_start(rec));
    let p = at[k];
    let events = record_items(rec);
    let gas = Cylinder {
        o2: (rec[p + 3] + 0x100 * rec[p + 4]) as u16,
        he: (rec[p + 5] + 0x100 * rec[p + 6]) as u16,
        begin: described_pressure(rec, p + 7),
        end: described_pressure(rec, p + 9),
    };
    items_stand_at_their_starts(rec, stream_start(rec));
    stream::gas_descriptions_are_read(rec, p);
    assert forall|j: int| 0 <= j < k implies first_description(
        seq![#[trigger] events[j]],
        id,
    ) is None by {
        let q = at[j];
        assert(!describes_mix(rec, q, id));
        assert(seq![events[j]].drop_last() =~= Seq::empty());
        assert(first_description(seq![events[j]].drop_last(), id) is None);
        if rec[q] == 0xFB {
            stream::broken_descriptions_are_noticed(rec, q);
            stream::gas_descriptions_are_read(rec, q);
        } else if rec[q] < 0xF0 {
            stream::short_items_are_told_by_their_byte(rec, q);
        } else {
            stream::long_items_are_told_by_their_byte(rec, q);
        }
    }
    assert(seq![events[k]].drop_last() =~= Seq::empty());
    assert(first_description(seq![events[k]].drop_last(), id) is None);
    first_description_is_found(events, id, k, gas);
    if let Some(Ok(d)) = dive::parsed(rec) {
        cylinders_and_changes(rec);
        let numbers = choose|numbers: Seq<u32>| #[trigger] are_numbers(rec, numbers, d.cylinders);
        assert(gas_of(rec, events, (id as u32) as int) == Some(gas));
        assert(numbers.contains(id as u32));
        let i = choose|i: int| 0 <= i < numbers.len() && numbers[i] == id as u32;
        assert(d.cylinders[i] == gas);
    }
}

proof fn first_description_is_found(events: Seq<Event>, id: int, k: int, gas: Cylinder)
    requires
        0 <= k < events.len(),
        forall|j: int| 0 <= j < k ==> first_description(seq![#[trigger] events[j]], id) is None,
        first_description(seq![events[k]], id) == Some(gas),
    ensures
        first_description(events, id) == Some(gas),
    decreases events.len(),
{
    let init = events.drop_last();
    let one = seq![events.last()];
    assert(one.drop_last() =~= Seq::empty());
    assert(first_description(one.drop_last(), id) is None);
    assert(forall|j: int| 0 <= j < init.len() ==> init[j] == #[trigger] events[j]);
    if k < events.len() - 1 {
        assert forall|j: int| 0 <= j < k implies first_description(
            seq![#[trigger] init[j]],
            id,
        ) is None by {
            assert(init[j] == events[j]);
        }
        first_description_is_found(init, id, k, gas);
    } else {
        nothing_described(init, id);
    }
}

proof fn nothing_described(events: Seq<Event>, id: int)
    requires
        forall|j: int|
            0 <= j < events.len() ==> first_description(seq![#[trigger] events[j]], id) is None,
    ensures
        first_description(events, id) is None,
    decreases events.len(),
{
    if events.len() > 0 {
        let init = events.drop_last();
        let one = seq![events[events.len() - 1]];
        assert(one.drop_last() =~= Seq::empty());
        assert(first_description(one, id) is None);
        assert forall|j: int| 0 <= j < init.len() implies first_description(
            seq![#[trigger] init[j]],
            id,
        ) is None by {
            assert(init[j] == events[j]);
        }
        nothing_described(init, id);
    }
}

/// The header of a parsed dive is read from its places: the clock counts half
/// seconds since 1 January 2000 and the time zone quarters of an hour, both
/// added; the duration is in minutes; depth and temperature are numbers of two
/// bytes, the temperature with a sign; salt water is marked in the settings.
pub proof fn header_fields_have_their_places(rec: Seq<u8>)
    ensures
        dive::parsed(rec) matches Some(Ok(d)) ==> {
            let half_seconds = rec[8] + 0x100 * rec[9] + 0x1_0000 * rec[10] + 0x100_0000 * rec[11];
            let quarters = if rec[16] < 0x80 {
                rec[16] as int
            } else {
                rec[16] - 0x100
            };
            let lowest = rec[30] + 0x100 * rec[31];
            let settings = if rec[43] >= 0x80 {
                rec[70]
            } else {
                rec[94]
            };
            &&& d.unix_time == 946_684_800 + half_seconds / 2 + 900 * quarters
            &&& d.divetime_s == 60 * (rec[26] + 0x100 * rec[27])
            &&& d.maxdepth == rec[22] + 0x100 * rec[23]
            &&& d.temp_min == (if lowest < 0x8000 {
                lowest
            } else {
                lowest - 0x1_0000
            })
            &&& d.salt <==> settings / 0x10 % 2 == 1
        },
{
    vstd::arithmetic::power2::lemma2_to64();
    if let Some(Ok(d)) = dive::parsed(rec) {
        assert(rec.len() >= 84);
        let base = if rec[43] >= 0x80 {
            68int
        } else {
            92
        };
        let a = rec[base] as int;
        let b = rec[base + 1] as int;
        let c = rec[base + 2] as int;
        let e = rec[base + 3] as int;
        let word = a + 0x100 * b + 0x1_0000 * c + 0x100_0000 * e;
        assert(dive::settings_of(rec) == word);
        assert(word / 0x10_0000 == c / 0x10 + 0x10 * e);
        assert((c / 0x10 + 0x10 * e) % 2 == c / 0x10 % 2);
    }
}

/// An item as the stream can hold one.
pub open spec fn is_bounded(e: Event) -> bool {
    match e {
        Event::DepthBy(by) => -64 <= by < 64,
        Event::Depth(v) => v <= 0xffff,
        Event::TemperatureBy(by) => -8 <= by < 8,
        Event::Temperature(v) => -0x8000 <= v < 0x8000,
        Event::PressureBy(by) => -8 <= by < 8,
        Event::Pressure { value, .. } => value <= 0xffff,
        Event::Points(n) => n <= 15,
        _ => true,
    }
}

proof fn items_are_bounded(rec: Seq<u8>, off: int)
    requires
        0 <= off,
        rec.len() <= usize::MAX,
    ensures
        items(rec, off).len() <= (if off < rec.len() {
            rec.len() - off
        } else {
            0
        }),
        forall|k: int| 0 <= k < items(rec, off).len() ==> is_bounded(#[trigger] items(rec, off)[k]),
    decreases rec.len() - off,
{
    if off < rec.len() {
        if let Reading::Item(e, next) = stream::reading(rec, off) {
            if rec[off] == 0xFB {
                stream::broken_descriptions_are_noticed(rec, off);
                stream::gas_descriptions_are_read(rec, off);
            } else if rec[off] < 0xF0 {
                stream::short_items_are_told_by_their_byte(rec, off);
            } else {
                stream::long_items_are_told_by_their_byte(rec, off);
            }
            assert(is_bounded(e));
            if off < next <= rec.len() {
                items_are_bounded(rec, next as int);
                let rest = items(rec, next as int);
                assert forall|k: int| 0 <= k < items(rec, off).len() implies is_bounded(
                    #[trigger] items(rec, off)[k],
                ) by {
                    if k > 0 {
                        assert(items(rec, off)[k] == rest[k - 1]);
                    }
                }
            }
        }
    }
}

proof fn points_fit(s: Recording, interval: u32, n: nat)
    requires
        interval <= 4,
        n <= 15,
        s.time <= 0x4000_0000,
        dive::point_depth(s) is Some,
    ensures
        dive::with_points(s, interval, n) is Some,
    decreases n,
{
    if n > 0 {
        points_fit(s, interval, (n - 1) as nat);
        run_of_points(s, interval, (n - 1) as nat);
        assert((n - 1) * interval <= 60) by (nonlinear_arith)
            requires
                n <= 15,
                interval <= 4,
                n > 0,
        ;
    }
}

proof fn replay_fits(mixes: Seq<Mix>, trimix: bool, interval: u32, events: Seq<Event>)
    requires
        interval <= 4,
        events.len() <= 0x100_0000,
        forall|k: int| 0 <= k < events.len() ==> is_bounded(#[trigger] events[k]),
    ensures
        replay(dive::blank(mixes), trimix, interval, events) matches Some(r) && {
            let n = events.len() as int;
            &&& -64 * n <= r.depth <= 0xffff + 64 * n
            &&& r.calibration matches Some(c) ==> 0 <= c <= 0xffff
            &&& -0x8000 - 8 * n <= r.temperature <= 0x8000 + 8 * n
            &&& -8 * n <= r.pressure <= 0xffff + 8 * n
            &&& r.time <= 60 * n
        },
    decreases events.len(),
{
    if events.len() > 0 {
        let init = events.drop_last();
        let e = events.last();
        assert(is_bounded(events[events.len() - 1]));
        assert forall|k: int| 0 <= k < init.len() implies is_bounded(#[trigger] init[k]) by {
            assert(init[k] == events[k]);
        }
        replay_fits(mixes, trimix, interval, init);
        let q = replay(dive::blank(mixes), trimix, interval, init)->0;
        let s = dive::with_readings(q, trimix, e)->0;
        let n = dive::points_of(e);
        points_fit(s, interval, n);
        run_of_points(s, interval, n);
        assert(n * interval <= 60) by (nonlinear_arith)
            requires
                n <= 15,
                interval <= 4,
        ;
    }
}

/// Which records are dives: those that hold their whole header, 84 bytes in a
/// trimix dive and 152 in others, and whose stream meets no byte that introduces
/// nothing. Depths above the surface, unknown gases and whatever else the stream
/// may hold do not matter. Records of more than sixteen megabytes are left out,
/// and so is a stream whose last item lacks its subtype.
pub proof fn ordinary_records_are_read(rec: Seq<u8>)
    requires
        rec.len() <= 0x100_0000,
    ensures
        rec.len() < 44 <==> dive::parsed(rec) == Some(Err::<dive::DiveView, _>(DiveError::TooShort)),
        44 <= rec.len() < stream_start(rec) ==> dive::parsed(rec) == Some(
            Err::<dive::DiveView, _>(
                DiveError::ShorterThanHeader {
                    len: rec.len() as usize,
                    header: stream_start(rec) as usize,
                },
            ),
        ),
        rec.len() >= 44 && rec.len() >= stream_start(rec) ==> match obstacle(
            rec,
            stream_start(rec),
        ) {
            Some(Reading::Invalid(b)) => dive::parsed(rec) == Some(
                Err::<dive::DiveView, _>(DiveError::InvalidType(b)),
            ),
            Some(Reading::PastEnd) => dive::parsed(rec) is None,
            _ => dive::parsed(rec) matches Some(Ok(_)),
        },
{
    if rec.len() >= 44 && rec.len() >= stream_start(rec) {
        profile_is_replayed(rec);
        items_are_bounded(rec, stream_start(rec));
        replay_fits(
            mixes_at_first(rec),
            trimix_record(rec),
            point_distance(rec),
            record_items(rec),
        );
    }
}

} // verus!
