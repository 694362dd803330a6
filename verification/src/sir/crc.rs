//! The frame check sequence of IrDA SIR frames.
//!
//! It is the CRC-CCITT with the reflected polynomial `0x8408`, started from
//! `0xffff`. The transmitted sequence is the complement of the running value,
//! low byte first; a frame that carries a correct one leaves the residue
//! `0xf0b8`.

use vstd::prelude::*;

verus! {

/// The running value before the first byte.
pub const INIT_FCS: u16 = 0xffff;

/// The running value after a frame that ends in its correct check sequence.
pub const GOOD_FCS: u16 = 0xf0b8;

/// The reflected CRC-CCITT polynomial.
pub const POLY: u16 = 0x8408;

/// One shift of the register.
pub open spec fn crc_shift(crc: u16) -> u16 {
    if crc & 1 != 0 {
        (crc >> 1) ^ 0x8408
    } else {
        crc >> 1
    }
}

/// The register after one more byte: the byte is added in and shifted through.
pub open spec fn crc_step(crc: u16, byte: u8) -> u16 {
    crc_shift(crc_shift(crc_shift(crc_shift(crc_shift(crc_shift(crc_shift(crc_shift(
        crc ^ (byte as u16),
    ))))))))
}

/// The register after all bytes of `data`, in order.
pub open spec fn crc_of(crc: u16, data: Seq<u8>) -> u16
    decreases data.len(),
{
    if data.len() == 0 {
        crc
    } else {
        crc_step(crc_of(crc, data.drop_last()), data.last())
    }
}

/// The low byte of the transmitted sequence, from the running value.
pub open spec fn fcs_low(crc: u16) -> u8 {
    (!crc & 0xff) as u8
}

/// The high byte of the transmitted sequence, from the running value.
pub open spec fn fcs_high(crc: u16) -> u8 {
    (!crc >> 8) as u8
}

/// The two bytes that follow `data` on the wire.
pub open spec fn fcs_of(data: Seq<u8>) -> Seq<u8> {
    seq![fcs_low(crc_of(INIT_FCS, data)), fcs_high(crc_of(INIT_FCS, data))]
}

/// The check passes on `frame`.
pub open spec fn checks(frame: Seq<u8>) -> bool {
    crc_of(INIT_FCS, frame) == GOOD_FCS
}

/// Adds one byte to the running value.
pub fn crc_ccitt_byte(crc: u16, byte: u8) -> (r: u16)
    ensures
        r == crc_step(crc, byte),
{
    let mut c: u16 = crc ^ byte as u16;
    let ghost start = c;
    proof {
        reveal_with_fuel(crc_shift_times, 9);
    }
    for i in 0..8u8
        invariant
            crc_step(crc, byte) == crc_shift_times(start, 8),
            c == crc_shift_times(start, i as nat),
    {
        if c & 1 != 0 {
            c = (c >> 1) ^ POLY;
        } else {
            c = c >> 1;
        }
    }
    c
}

spec fn crc_shift_times(crc: u16, n: nat) -> u16
    decreases n,
{
    if n == 0 {
        crc
    } else {
        crc_shift(crc_shift_times(crc, (n - 1) as nat))
    }
}

/// Adds all bytes of `data` to the running value.
pub fn crc_ccitt(crc: u16, data: &[u8]) -> (r: u16)
    ensures
        r == crc_of(crc, data@),
{
    let mut c: u16 = crc;
    let n: usize = data.len();
    assert(data@.take(0).len() == 0);
    for i in 0..n
        invariant
            n == data@.len(),
            c == crc_of(crc, data@.take(i as int)),
    {
        assert(data@.take(i + 1).drop_last() =~= data@.take(i as int));
        c = crc_ccitt_byte(c, data[i]);
    }
    assert(data@.take(n as int) =~= data@);
    c
}

/// The check sequence to transmit after `data`: low byte, high byte.
pub fn fcs_bytes(data: &[u8]) -> (r: [u8; 2])
    ensures
        r@ == fcs_of(data@),
{
    let fcs: u16 = !crc_ccitt(INIT_FCS, data);
    let r: [u8; 2] = [(fcs & 0xff) as u8, (fcs >> 8) as u8];
    assert(r@ =~= fcs_of(data@));
    r
}

/// Whether a received frame, check sequence included, is intact.
pub fn check(frame_with_fcs: &[u8]) -> (r: bool)
    ensures
        r == checks(frame_with_fcs@),
{
    crc_ccitt(INIT_FCS, frame_with_fcs) == GOOD_FCS
}

/// The register after two runs of bytes is the register after both in one.
pub proof fn crc_of_concatenation(crc: u16, a: Seq<u8>, b: Seq<u8>)
    ensures
        crc_of(crc, a + b) == crc_of(crc_of(crc, a), b),
    decreases b.len(),
{
    if b.len() == 0 {
        assert(a + b =~= a);
    } else {
        crc_of_concatenation(crc, a, b.drop_last());
        assert((a + b).drop_last() =~= a + b.drop_last());
    }
}

/// The sixteen shifts of a check sequence, one register value each.
proof fn residue_bits(
    crc: u16,
    lo: u8,
    hi: u8,
    s1: u16,
    s2: u16,
    s3: u16,
    s4: u16,
    s5: u16,
    s6: u16,
    s7: u16,
    s8: u16,
    s9: u16,
    s10: u16,
    s11: u16,
    s12: u16,
    s13: u16,
    s14: u16,
    s15: u16,
    s16: u16,
)
    by (bit_vector)
    requires
        s1 == crc_shift(crc ^ (lo as u16)),
        s2 == crc_shift(s1),
        s3 == crc_shift(s2),
        s4 == crc_shift(s3),
        s5 == crc_shift(s4),
        s6 == crc_shift(s5),
        s7 == crc_shift(s6),
        s8 == crc_shift(s7),
        s9 == crc_shift(s8 ^ (hi as u16)),
        s10 == crc_shift(s9),
        s11 == crc_shift(s10),
        s12 == crc_shift(s11),
        s13 == crc_shift(s12),
        s14 == crc_shift(s13),
        s15 == crc_shift(s14),
        s16 == crc_shift(s15),
    ensures
        s16 == 0xf0b8 <==> (lo == fcs_low(crc) && hi == fcs_high(crc)),
{
}

/// Two bytes after the running value `crc` leave the good residue exactly when
/// they are the check sequence for it.
proof fn residue_fixes_fcs(crc: u16, lo: u8, hi: u8)
    ensures
        crc_step(crc_step(crc, lo), hi) == GOOD_FCS <==> (lo == fcs_low(crc) && hi == fcs_high(
            crc,
        )),
{
    let s1 = crc_shift(crc ^ (lo as u16));
    let s2 = crc_shift(s1);
    let s3 = crc_shift(s2);
    let s4 = crc_shift(s3);
    let s5 = crc_shift(s4);
    let s6 = crc_shift(s5);
    let s7 = crc_shift(s6);
    let s8 = crc_shift(s7);
    let s9 = crc_shift(s8 ^ (hi as u16));
    let s10 = crc_shift(s9);
    let s11 = crc_shift(s10);
    let s12 = crc_shift(s11);
    let s13 = crc_shift(s12);
    let s14 = crc_shift(s13);
    let s15 = crc_shift(s14);
    let s16 = crc_shift(s15);
    residue_bits(crc, lo, hi, s1, s2, s3, s4, s5, s6, s7, s8, s9, s10, s11, s12, s13, s14, s15, s16);
}

/// The check passes on a frame exactly when its last two bytes are the check
/// sequence of what stands before them.
pub proof fn check_means_fcs(payload: Seq<u8>, lo: u8, hi: u8)
    ensures
        checks(payload + seq![lo, hi]) <==> seq![lo, hi] == fcs_of(payload),
{
    let crc = crc_of(INIT_FCS, payload);
    let tail = seq![lo, hi];
    crc_of_concatenation(INIT_FCS, payload, tail);
    reveal_with_fuel(crc_of, 3);
    assert(tail.drop_last() =~= seq![lo]);
    assert(tail.drop_last().drop_last() =~= Seq::<u8>::empty());
    residue_fixes_fcs(crc, lo, hi);
    assert(fcs_of(payload)[0] == fcs_low(crc) && fcs_of(payload)[1] == fcs_high(crc));
    if lo == fcs_low(crc) && hi == fcs_high(crc) {
        assert(tail =~= fcs_of(payload));
    } else {
        assert(tail[0] == lo && tail[1] == hi);
    }
}

/// A payload followed by its transmitted check sequence always leaves the good
/// residue.
pub proof fn fcs_gives_good_residue(payload: Seq<u8>)
    ensures
        crc_of(INIT_FCS, payload + fcs_of(payload)) == GOOD_FCS,
        checks(payload + fcs_of(payload)),
{
    check_means_fcs(payload, fcs_of(payload)[0], fcs_of(payload)[1]);
    assert(fcs_of(payload) =~= seq![fcs_of(payload)[0], fcs_of(payload)[1]]);
}

/// A shift keeps different registers different.
proof fn shift_keeps_difference(a: u16, b: u16)
    by (bit_vector)
    requires
        a != b,
    ensures
        crc_shift(a) != crc_shift(b),
{
}

proof fn shifts_keep_difference(a: u16, b: u16, n: nat)
    requires
        a != b,
    ensures
        crc_shift_times(a, n) != crc_shift_times(b, n),
    decreases n,
{
    if n > 0 {
        shifts_keep_difference(a, b, (n - 1) as nat);
        shift_keeps_difference(
            crc_shift_times(a, (n - 1) as nat),
            crc_shift_times(b, (n - 1) as nat),
        );
    }
}

/// Different registers stay different while the same byte is added.
proof fn step_keeps_difference(a: u16, b: u16, byte: u8)
    requires
        a != b,
    ensures
        crc_step(a, byte) != crc_step(b, byte),
{
    reveal_with_fuel(crc_shift_times, 9);
    let w = byte as u16;
    assert(a != b ==> a ^ w != b ^ w) by (bit_vector);
    shifts_keep_difference(a ^ w, b ^ w, 8);
}

/// Different bytes added to the same register lead to different registers.
proof fn step_tells_bytes_apart(crc: u16, x: u8, y: u8)
    requires
        x != y,
    ensures
        crc_step(crc, x) != crc_step(crc, y),
{
    reveal_with_fuel(crc_shift_times, 9);
    assert(x != y ==> crc ^ (x as u16) != crc ^ (y as u16)) by (bit_vector);
    shifts_keep_difference(crc ^ (x as u16), crc ^ (y as u16), 8);
}

proof fn tail_keeps_difference(a: u16, b: u16, data: Seq<u8>)
    requires
        a != b,
    ensures
        crc_of(a, data) != crc_of(b, data),
    decreases data.len(),
{
    if data.len() > 0 {
        tail_keeps_difference(a, b, data.drop_last());
        step_keeps_difference(
            crc_of(a, data.drop_last()),
            crc_of(b, data.drop_last()),
            data.last(),
        );
    }
}

/// An intact frame in which any one byte is changed no longer passes the check.
pub proof fn one_changed_byte_is_detected(frame: Seq<u8>, i: int, byte: u8)
    requires
        0 <= i < frame.len(),
        byte != frame[i],
        checks(frame),
    ensures
        !checks(frame.update(i, byte)),
{
    let head = frame.take(i);
    let tail = frame.skip(i + 1);
    let changed = frame.update(i, byte);
    assert(frame =~= head.push(frame[i]) + tail);
    assert(changed =~= head.push(byte) + tail);
    crc_of_concatenation(INIT_FCS, head.push(frame[i]), tail);
    crc_of_concatenation(INIT_FCS, head.push(byte), tail);
    assert(head.push(frame[i]).drop_last() =~= head);
    assert(head.push(byte).drop_last() =~= head);
    step_tells_bytes_apart(crc_of(INIT_FCS, head), frame[i], byte);
    tail_keeps_difference(
        crc_step(crc_of(INIT_FCS, head), frame[i]),
        crc_step(crc_of(INIT_FCS, head), byte),
        tail,
    );
}

} // verus!
