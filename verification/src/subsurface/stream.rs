//! The sample stream of a dive record: a sequence of items, each introduced by
//! a few type bits that say what it is and how many data bits follow.

use vstd::prelude::*;
use vstd::arithmetic::power2;
use vstd::bits;

use super::records::u16_le;
use crate::bytes;

verus! {

/// What an item of the stream is about.
#[derive(Debug, Clone, Copy, PartialEq, Eq, Structural)]
pub enum SampleType {
    Rbt,
    Temperature,
    Pressure,
    Depth,
    Heartrate,
    Bearing,
    Alarms,
    Time,
    Apnea,
    Misc,
}

/// How one type of item is laid out.
#[derive(Debug, Clone, Copy, PartialEq, Eq, Structural)]
pub struct SInfo {
    pub sample: SampleType,
    /// The data is the value itself, not a change of it.
    pub absolute: bool,
    /// Tank or alarm group.
    pub index: u32,
    /// Number of type bits; the other bits of the byte are data.
    pub type_bits: u32,
    /// Data bytes after the type byte.
    pub extra_bytes: u32,
}

/// Number of item types.
pub const SAMPLE_TYPES: usize = 19;

pub open spec fn layout(
    sample: SampleType,
    absolute: bool,
    index: u32,
    type_bits: u32,
    extra_bytes: u32,
) -> SInfo {
    SInfo { sample, absolute, index, type_bits, extra_bytes }
}

/// The layout of each item type of the Galileo family.
pub open spec fn galileo_samples() -> Seq<SInfo> {
    seq![
        layout(SampleType::Depth, false, 0, 1, 0),
        layout(SampleType::Rbt, false, 0, 3, 0),
        layout(SampleType::Pressure, false, 0, 4, 0),
        layout(SampleType::Temperature, false, 0, 4, 0),
        layout(SampleType::Time, true, 0, 4, 0),
        layout(SampleType::Heartrate, false, 0, 4, 0),
        layout(SampleType::Alarms, true, 0, 4, 0),
        layout(SampleType::Alarms, true, 1, 8, 1),
        layout(SampleType::Depth, true, 0, 8, 2),
        layout(SampleType::Rbt, true, 0, 8, 1),
        layout(SampleType::Temperature, true, 0, 8, 2),
        layout(SampleType::Pressure, true, 0, 8, 2),
        layout(SampleType::Pressure, true, 1, 8, 2),
        layout(SampleType::Pressure, true, 2, 8, 2),
        layout(SampleType::Heartrate, true, 0, 8, 1),
        layout(SampleType::Bearing, true, 0, 8, 2),
        layout(SampleType::Alarms, true, 2, 8, 1),
        layout(SampleType::Apnea, true, 0, 8, 0),
        layout(SampleType::Misc, true, 0, 8, 1),
    ]
}

fn info(
    sample: SampleType,
    absolute: bool,
    index: u32,
    type_bits: u32,
    extra_bytes: u32,
) -> (r: SInfo)
    ensures
        r == layout(sample, absolute, index, type_bits, extra_bytes),
{
    SInfo { sample, absolute, index, type_bits, extra_bytes }
}

/// The layout of item type `id`.
pub fn sample_info(id: usize) -> (r: SInfo)
    requires
        id < SAMPLE_TYPES,
    ensures
        r == galileo_samples()[id as int],
{
    match id {
        0 => info(SampleType::Depth, false, 0, 1, 0),
        1 => info(SampleType::Rbt, false, 0, 3, 0),
        2 => info(SampleType::Pressure, false, 0, 4, 0),
        3 => info(SampleType::Temperature, false, 0, 4, 0),
        4 => info(SampleType::Time, true, 0, 4, 0),
        5 => info(SampleType::Heartrate, false, 0, 4, 0),
        6 => info(SampleType::Alarms, true, 0, 4, 0),
        7 => info(SampleType::Alarms, true, 1, 8, 1),
        8 => info(SampleType::Depth, true, 0, 8, 2),
        9 => info(SampleType::Rbt, true, 0, 8, 1),
        10 => info(SampleType::Temperature, true, 0, 8, 2),
        11 => info(SampleType::Pressure, true, 0, 8, 2),
        12 => info(SampleType::Pressure, true, 1, 8, 2),
        13 => info(SampleType::Pressure, true, 2, 8, 2),
        14 => info(SampleType::Heartrate, true, 0, 8, 1),
        15 => info(SampleType::Bearing, true, 0, 8, 2),
        16 => info(SampleType::Alarms, true, 2, 8, 1),
        17 => info(SampleType::Apnea, true, 0, 8, 0),
        _ => info(SampleType::Misc, true, 0, 8, 1),
    }
}

/// The item type that a byte introduces: `0ddddddd` is type 0, `100ddddd` type
/// 1, `1010dddd` to `1110dddd` are types 2 to 6, and `1111tttt` is type 7 and
/// up.
pub open spec fn type_of(value: u8) -> nat {
    if value < 0x80 {
        0
    } else if value < 0xA0 {
        1
    } else if value < 0xF0 {
        (value / 16 - 8) as nat
    } else {
        (value - 0xF0 + 7) as nat
    }
}

/// The item type that the byte `value` introduces; not all of them exist.
pub fn galileo_identify(value: u8) -> (r: usize)
    ensures
        r == type_of(value),
{
    proof {
        type_bits(value);
    }
    if value & 0x80 == 0 {
        0
    } else if value & 0xE0 == 0x80 {
        1
    } else if value & 0xF0 != 0xF0 {
        ((value & 0x70) >> 4) as usize
    } else {
        (value & 0x0F) as usize + 7
    }
}

proof fn type_bits(value: u8)
    by (bit_vector)
    ensures
        value & 0x80 == 0 <==> value < 0x80,
        value & 0xE0 == 0x80 <==> 0x80 <= value < 0xA0,
        value & 0xF0 != 0xF0 <==> value < 0xF0,
        0xA0 <= value < 0xF0 ==> (value & 0x70) >> 4 == value / 16 - 8,
        0xF0 <= value ==> value & 0x0F == value - 0xF0,
        value & 0x7F == value % 128,
        value & 0x1F == value % 32,
        value & 0x0F == value % 16,
{
}

/// The low `nbits` bits of `value`, read as a two's-complement number.
pub open spec fn twos_complement(value: nat, nbits: nat) -> int {
    if nbits == 0 || nbits > 32 {
        0
    } else {
        let low = value % power2::pow2(nbits);
        if low < power2::pow2((nbits - 1) as nat) {
            low as int
        } else {
            low - power2::pow2(nbits)
        }
    }
}

/// Sign-extends the low `nbits` of `value`.
pub fn signextend(value: u32, nbits: u32) -> (r: i32)
    ensures
        r == twos_complement(value as nat, nbits as nat),
{
    if nbits == 0 || nbits > 32 {
        return 0;
    }
    let signbit: u32 = 1u32 << (nbits - 1);
    proof {
        extension_bits(value, nbits, signbit);
    }
    let mask: u32 = signbit - 1;
    if value & signbit == signbit {
        (value | !mask) as i32
    } else {
        (value & mask) as i32
    }
}

proof fn extension_bits(value: u32, nbits: u32, signbit: u32)
    requires
        1 <= nbits <= 32,
        signbit == 1u32 << ((nbits - 1) as u32),
    ensures
        signbit > 0,
        value & signbit == signbit ==> ((value | !((signbit - 1) as u32)) as i32)
            == twos_complement(value as nat, nbits as nat),
        value & signbit != signbit ==> ((value & ((signbit - 1) as u32)) as i32)
            == twos_complement(value as nat, nbits as nat),
{
    extension_arith(value, nbits, signbit);
    let n = nbits as nat;
    power2::lemma_pow2_unfold(n);
    power_fits((n - 1) as nat);
    bits::lemma_u32_shl_is_mul(1, (nbits - 1) as u32);
    assert(signbit == power2::pow2((n - 1) as nat));
    bits::lemma_u64_low_bits_mask_is_mod(value as u64, n);
    assert(bits::low_bits_mask(n) == 2 * signbit - 1);
}

proof fn power_fits(n: nat)
    requires
        n < 32,
    ensures
        0 < power2::pow2(n) <= 0x8000_0000,
    decreases n,
{
    power2::lemma2_to64();
    power2::lemma_pow2_pos(n);
    if n < 31 {
        power2::lemma_pow2_strictly_increases(n, 31);
    }
}

proof fn extension_arith(value: u32, nbits: u32, signbit: u32)
    by (bit_vector)
    requires
        1 <= nbits <= 32,
        signbit == 1u32 << ((nbits - 1) as u32),
    ensures
        signbit > 0,
        ((value as u64) & ((2u64 * (signbit as u64) - 1) as u64)) < 2 * signbit,
        value & signbit == signbit ==> ((value | !((signbit - 1) as u32)) as i32) == ((value as u64)
            & ((2u64 * (signbit as u64) - 1) as u64)) - 2 * signbit,
        value & signbit == signbit ==> ((value as u64) & ((2u64 * (signbit as u64) - 1) as u64))
            >= signbit,
        value & signbit != signbit ==> ((value & ((signbit - 1) as u32)) as i32) == ((value as u64)
            & ((2u64 * (signbit as u64) - 1) as u64)),
        value & signbit != signbit ==> ((value as u64) & ((2u64 * (signbit as u64) - 1) as u64))
            < signbit,
{
}

/// One item of the stream, reduced to what a dive profile needs of it.
#[derive(Debug, Clone, Copy, PartialEq, Eq, Structural)]
pub enum Event {
    /// The depth changed by so much; one profile point is complete.
    DepthBy(i32),
    /// The depth is this; one profile point is complete.
    Depth(u32),
    TemperatureBy(i32),
    Temperature(i32),
    PressureBy(i32),
    /// A tank pressure, with the table's tank number.
    Pressure { value: u32, index: u32 },
    /// Alarm bits of an alarm group.
    Alarm { value: u32, index: u32 },
    /// So many profile points are complete.
    Points(u32),
    /// Description of a gas mix: percentages and tank pressures.
    Gas { id: u32, o2: u16, he: u16, begin: u16, end: u16 },
    /// Nothing that the profile shows.
    Other,
}

/// What the stream holds at some offset.
#[derive(Debug, Clone, Copy, PartialEq, Eq, Structural)]
pub enum Reading {
    /// An item, and the offset after it.
    Item(Event, usize),
    /// A byte that introduces no known type.
    Invalid(u8),
    /// An item that the record ends in the middle of.
    Incomplete,
    /// An item whose subtype would lie behind the end of the record.
    PastEnd,
}

/// The data bits in a type byte.
pub open spec fn bits_in_type_byte(byte: u8, type_bits: u32) -> nat {
    if type_bits == 1 {
        byte as nat % 128
    } else if type_bits == 3 {
        byte as nat % 32
    } else if type_bits == 4 {
        byte as nat % 16
    } else {
        0
    }
}

/// The data of the item at `off`: the data bits of its type byte, then its data
/// bytes, most significant first.
pub open spec fn item_value(rec: Seq<u8>, off: int, info: SInfo) -> nat {
    let head = bits_in_type_byte(rec[off], info.type_bits);
    if info.extra_bytes == 0 {
        head
    } else if info.extra_bytes == 1 {
        head * 256 + rec[off + 1] as nat
    } else {
        (head * 256 + rec[off + 1] as nat) * 256 + rec[off + 2] as nat
    }
}

/// The number of data bits of an item.
pub open spec fn item_bits(info: SInfo) -> nat {
    (8 - info.type_bits + 8 * info.extra_bytes) as nat
}

/// The gas mix that a miscellaneous payload at `off` describes, if it does.
pub open spec fn gas_at(rec: Seq<u8>, off: int, len: int) -> Event {
    if 32 <= rec[off] <= 41 && len >= 16 {
        Event::Gas {
            id: (rec[off] - 32) as u32,
            o2: bytes::le16(rec, off + 1) as u16,
            he: bytes::le16(rec, off + 3) as u16,
            begin: bytes::le16(rec, off + 5) as u16,
            end: bytes::le16(rec, off + 7) as u16,
        }
    } else {
        Event::Other
    }
}

/// The item at `off`, from its layout and data; `next` is the offset after its
/// data.
pub open spec fn item_event(rec: Seq<u8>, info: SInfo, value: nat, next: int) -> Reading {
    let n = rec.len();
    let change = twos_complement(value, item_bits(info)) as i32;
    let event = match info.sample {
        SampleType::Depth => if info.absolute {
            Event::Depth(value as u32)
        } else {
            Event::DepthBy(change)
        },
        SampleType::Temperature => if info.absolute {
            Event::Temperature(change)
        } else {
            Event::TemperatureBy(change)
        },
        SampleType::Pressure => if info.absolute {
            Event::Pressure { value: value as u32, index: info.index }
        } else {
            Event::PressureBy(change)
        },
        SampleType::Alarms => Event::Alarm { value: value as u32, index: info.index },
        SampleType::Time => Event::Points(value as u32),
        _ => Event::Other,
    };
    if info.sample == SampleType::Apnea {
        Reading::Item(Event::Other, if next + 8 < n { (next + 8) as usize } else { n as usize })
    } else if info.sample == SampleType::Misc {
        if value < 1 || next + value - 1 > n {
            Reading::Incomplete
        } else if next >= n {
            Reading::PastEnd
        } else {
            Reading::Item(gas_at(rec, next, value as int), (next + value - 1) as usize)
        }
    } else {
        Reading::Item(event, next as usize)
    }
}

/// What the stream holds at `off`.
pub open spec fn reading(rec: Seq<u8>, off: int) -> Reading {
    let id = type_of(rec[off]);
    if id >= SAMPLE_TYPES {
        Reading::Invalid(rec[off])
    } else {
        let info = galileo_samples()[id as int];
        let next = off + 1 + info.extra_bytes;
        if next > rec.len() {
            Reading::Incomplete
        } else {
            item_event(rec, info, item_value(rec, off, info), next)
        }
    }
}

/// Every reading moves on, and not beyond the end of the record.
pub proof fn reading_advances(rec: Seq<u8>, off: int)
    requires
        0 <= off < rec.len(),
        rec.len() <= usize::MAX,
    ensures
        reading(rec, off) matches Reading::Item(_, next) ==> off < next <= rec.len(),
{
}

/// Reads the item at `off`.
pub fn read_event(rec: &[u8], off: usize) -> (r: Reading)
    requires
        off < rec@.len(),
    ensures
        r == reading(rec@, off as int),
{
    let n: usize = rec.len();
    let first: u8 = rec[off];
    let id: usize = galileo_identify(first);
    if id >= SAMPLE_TYPES {
        return Reading::Invalid(first);
    }
    let info = sample_info(id);
    let extra: usize = info.extra_bytes as usize;
    if extra > n - 1 - off {
        return Reading::Incomplete;
    }
    let value: u32 = read_value(rec, off, info);
    let next: usize = off + 1 + extra;
    let bits: u32 = 8 - info.type_bits + 8 * info.extra_bytes;
    let change: i32 = signextend(value, bits);
    match info.sample {
        SampleType::Depth => if info.absolute {
            Reading::Item(Event::Depth(value), next)
        } else {
            Reading::Item(Event::DepthBy(change), next)
        },
        SampleType::Temperature => if info.absolute {
            Reading::Item(Event::Temperature(change), next)
        } else {
            Reading::Item(Event::TemperatureBy(change), next)
        },
        SampleType::Pressure => if info.absolute {
            Reading::Item(Event::Pressure { value, index: info.index }, next)
        } else {
            Reading::Item(Event::PressureBy(change), next)
        },
        SampleType::Alarms => Reading::Item(Event::Alarm { value, index: info.index }, next),
        SampleType::Time => Reading::Item(Event::Points(value), next),
        SampleType::Apnea => Reading::Item(Event::Other, if n - next > 8 { next + 8 } else { n }),
        SampleType::Misc => {
            let len: usize = value as usize;
            if len < 1 || len - 1 > n - next {
                Reading::Incomplete
            } else if next >= n {
                Reading::PastEnd
            } else {
                Reading::Item(read_gas(rec, next, len), next + (len - 1))
            }
        },
        _ => Reading::Item(Event::Other, next),
    }
}

fn read_value(rec: &[u8], off: usize, info: SInfo) -> (r: u32)
    requires
        off + 1 + info.extra_bytes <= rec@.len(),
        info.extra_bytes <= 2,
    ensures
        r == item_value(rec@, off as int, info),
        info.extra_bytes == 0 ==> r < 0x80,
        info.type_bits == 8 && info.extra_bytes == 1 ==> r < 0x100,
        info.type_bits == 8 && info.extra_bytes == 2 ==> r < 0x1_0000,
{
    let first: u8 = rec[off];
    proof {
        type_bits(first);
    }
    let head: u32 = if info.type_bits == 1 {
        (first & 0x7F) as u32
    } else if info.type_bits == 3 {
        (first & 0x1F) as u32
    } else if info.type_bits == 4 {
        (first & 0x0F) as u32
    } else {
        0
    };
    if info.extra_bytes == 0 {
        head
    } else if info.extra_bytes == 1 {
        head * 256 + rec[off + 1] as u32
    } else {
        (head * 256 + rec[off + 1] as u32) * 256 + rec[off + 2] as u32
    }
}

fn read_gas(rec: &[u8], off: usize, len: usize) -> (r: Event)
    requires
        off < rec@.len(),
        1 <= len,
        off + len - 1 <= rec@.len(),
    ensures
        r == gas_at(rec@, off as int, len as int),
{
    let subtype: u8 = rec[off];
    if 32 <= subtype && subtype <= 41 && len >= 16 {
        Event::Gas {
            id: (subtype - 32) as u32,
            o2: u16_le(rec, off + 1),
            he: u16_le(rec, off + 3),
            begin: u16_le(rec, off + 5),
            end: u16_le(rec, off + 7),
        }
    } else {
        Event::Other
    }
}

/// A sign-extended number lies in the range of its bits, and differs from the
/// number that was read by a multiple of that range.
pub proof fn sign_extension_keeps_the_bits(value: nat, nbits: nat)
    requires
        1 <= nbits <= 32,
    ensures
        ({
            let r = twos_complement(value, nbits);
            let half = power2::pow2((nbits - 1) as nat);
            &&& -half <= r < half
            &&& (value - r) % (2 * half as int) == 0
        }),
{
    let half = power2::pow2((nbits - 1) as nat);
    let full = power2::pow2(nbits);
    power2::lemma_pow2_pos((nbits - 1) as nat);
    power2::lemma_pow2_unfold(nbits);
    assert(full == 2 * half);
    let low = value % full;
    let r = twos_complement(value, nbits);
    let q = (value / full) as int;
    let f = full as int;
    assert(value - low == q * f) by {
        vstd::arithmetic::div_mod::lemma_fundamental_div_mod(value as int, f);
        assert(f * q == q * f) by (nonlinear_arith);
    }
    if low < half {
        vstd::arithmetic::div_mod::lemma_mod_multiples_basic(q, f);
    } else {
        assert((q + 1) * f == q * f + f) by (nonlinear_arith);
        vstd::arithmetic::div_mod::lemma_mod_multiples_basic(q + 1, f);
    }
}

/// The number that `n` below `range` stands for, its upper half being negative.
pub open spec fn with_sign(n: int, range: int) -> int {
    if 2 * n < range {
        n
    } else {
        n - range
    }
}

proof fn powers()
    ensures
        power2::pow2(3) == 8,
        power2::pow2(4) == 16,
        power2::pow2(6) == 64,
        power2::pow2(7) == 128,
        power2::pow2(15) == 0x8000,
        power2::pow2(16) == 0x1_0000,
{
    power2::lemma2_to64();
}

/// An item whose first byte is below F0 is that byte alone. Its low bits are a
/// change of the depth, the pressure or the temperature, which may be negative,
/// or a number of points; the other kinds do not matter to the profile.
pub proof fn short_items_are_told_by_their_byte(rec: Seq<u8>, off: int)
    requires
        0 <= off < rec.len() <= usize::MAX,
        rec[off] < 0xF0,
    ensures
        ({
            let b = rec[off] as int;
            let next = (off + 1) as usize;
            let r = reading(rec, off);
            &&& b < 0x80 ==> r == Reading::Item(Event::DepthBy(with_sign(b, 128) as i32), next)
            &&& 0x80 <= b < 0xA0 ==> r == Reading::Item(Event::Other, next)
            &&& 0xA0 <= b < 0xB0 ==> r == Reading::Item(
                Event::PressureBy(with_sign(b - 0xA0, 16) as i32),
                next,
            )
            &&& 0xB0 <= b < 0xC0 ==> r == Reading::Item(
                Event::TemperatureBy(with_sign(b - 0xB0, 16) as i32),
                next,
            )
            &&& 0xC0 <= b < 0xD0 ==> r == Reading::Item(Event::Points((b - 0xC0) as u32), next)
            &&& 0xD0 <= b < 0xE0 ==> r == Reading::Item(Event::Other, next)
            &&& 0xE0 <= b ==> r == Reading::Item(
                Event::Alarm { value: (b - 0xE0) as u32, index: 0 },
                next,
            )
        }),
{
    powers();
    let b = rec[off] as int;
    if b < 0x80 {
        assert(b % 128 == b);
    } else if 0xA0 <= b < 0xF0 {
        assert(type_of(rec[off]) == b / 16 - 8);
    }
}

/// An item whose first byte is F0 or more has the bytes that its kind asks for
/// behind it, most significant first; without them it is incomplete. A
/// temperature may be negative. Bytes from FC on introduce nothing.
pub proof fn long_items_are_told_by_their_byte(rec: Seq<u8>, off: int)
    requires
        0 <= off < rec.len() <= usize::MAX,
        rec[off] >= 0xF0,
        rec[off] != 0xFB,
    ensures
        ({
            let b = rec[off];
            let n = rec.len();
            let r = reading(rec, off);
            let one = b == 0xF0 || b == 0xF2 || b == 0xF7 || b == 0xF9;
            let two = b == 0xF1 || b == 0xF3 || b == 0xF4 || b == 0xF5 || b == 0xF6 || b == 0xF8;
            let byte = rec[off + 1] as int;
            let word = 0x100 * rec[off + 1] + rec[off + 2];
            &&& b >= 0xFC <==> r is Invalid
            &&& b >= 0xFC ==> r == Reading::Invalid(b)
            &&& one && off + 2 > n ==> r == Reading::Incomplete
            &&& two && off + 3 > n ==> r == Reading::Incomplete
            &&& off + 2 <= n && b == 0xF0 ==> r == Reading::Item(
                Event::Alarm { value: byte as u32, index: 1 },
                (off + 2) as usize,
            )
            &&& off + 2 <= n && b == 0xF9 ==> r == Reading::Item(
                Event::Alarm { value: byte as u32, index: 2 },
                (off + 2) as usize,
            )
            &&& off + 2 <= n && (b == 0xF2 || b == 0xF7) ==> r == Reading::Item(
                Event::Other,
                (off + 2) as usize,
            )
            &&& off + 3 <= n && b == 0xF1 ==> r == Reading::Item(
                Event::Depth(word as u32),
                (off + 3) as usize,
            )
            &&& off + 3 <= n && b == 0xF3 ==> r == Reading::Item(
                Event::Temperature(with_sign(word, 0x1_0000) as i32),
                (off + 3) as usize,
            )
            &&& off + 3 <= n && 0xF4 <= b <= 0xF6 ==> r == Reading::Item(
                Event::Pressure { value: word as u32, index: (b - 0xF4) as u32 },
                (off + 3) as usize,
            )
            &&& off + 3 <= n && b == 0xF8 ==> r == Reading::Item(Event::Other, (off + 3) as usize)
            &&& b == 0xFA && off + 9 <= n ==> r == Reading::Item(Event::Other, (off + 9) as usize)
            &&& b == 0xFA && off + 9 > n ==> r == Reading::Item(Event::Other, n as usize)
        }),
{
    powers();
}

/// A miscellaneous item has its length in its second byte and its subtype in its
/// third. With a length of at least sixteen, the subtypes 32 to 41 describe the
/// gas mixes 0 to 9: oxygen, helium and the two tank pressures, each low byte
/// first. Every other subtype is passed over.
pub proof fn gas_descriptions_are_read(rec: Seq<u8>, off: int)
    requires
        0 <= off,
        off + 3 <= rec.len() <= usize::MAX,
        rec[off] == 0xFB,
        1 <= rec[off + 1],
        off + 1 + rec[off + 1] <= rec.len(),
    ensures
        ({
            let next = (off + 1 + rec[off + 1]) as usize;
            let subtype = rec[off + 2];
            let gas = rec[off + 1] >= 16 && 32 <= subtype <= 41;
            &&& gas ==> reading(rec, off) == Reading::Item(
                Event::Gas {
                    id: (subtype - 32) as u32,
                    o2: (rec[off + 3] + 0x100 * rec[off + 4]) as u16,
                    he: (rec[off + 5] + 0x100 * rec[off + 6]) as u16,
                    begin: (rec[off + 7] + 0x100 * rec[off + 8]) as u16,
                    end: (rec[off + 9] + 0x100 * rec[off + 10]) as u16,
                },
                next,
            )
            &&& !gas ==> reading(rec, off) == Reading::Item(Event::Other, next)
        }),
{
}

/// A miscellaneous item without its length, of length zero, or with a length that
/// leads behind the end of the record is incomplete; if only its subtype is
/// missing, it lies behind the end.
pub proof fn broken_descriptions_are_noticed(rec: Seq<u8>, off: int)
    requires
        0 <= off < rec.len() <= usize::MAX,
        rec[off] == 0xFB,
    ensures
        off + 2 > rec.len() ==> reading(rec, off) == Reading::Incomplete,
        off + 2 <= rec.len() && (rec[off + 1] == 0 || off + 1 + rec[off + 1] > rec.len())
            ==> reading(rec, off) == Reading::Incomplete,
        off + 2 == rec.len() && rec[off + 1] == 1 ==> reading(rec, off) == Reading::PastEnd,
        reading(rec, off) is PastEnd ==> off + 2 == rec.len(),
{
}

} // verus!
