//! Dive records in a memory dump.
//!
//! A record starts with the marker `A5 A5 5A 5A` and its own length, four bytes
//! little-endian. The dump is searched from its end, newest record first, and
//! the search stops at the first marker whose length cannot be right.

use vstd::prelude::*;
use vstd::slice::slice_subrange;

use crate::bytes;

verus! {

/// The start of every dive record.
pub const MARKER: [u8; 4] = [0xa5, 0xa5, 0x5a, 0x5a];

/// A marker stands at `p`.
pub open spec fn marker_at(data: Seq<u8>, p: int) -> bool {
    data[p] == 0xa5 && data[p + 1] == 0xa5 && data[p + 2] == 0x5a && data[p + 3] == 0x5a
}

/// Where the search goes on below position `p`: what ends above it is skipped.
pub open spec fn search_below(p: int) -> int {
    if p >= 4 {
        p - 4
    } else {
        0
    }
}

/// Start and length of the records found below `current`, oldest first, where
/// the next newer record starts at `previous`.
pub open spec fn spans(data: Seq<u8>, current: int, previous: int) -> Seq<(int, int)>
    decreases current,
{
    if current <= 0 {
        Seq::empty()
    } else {
        let p = current - 1;
        if marker_at(data, p) {
            let len = bytes::le32(data, p + 4) as int;
            if len < 8 || p + len > previous {
                Seq::empty()
            } else {
                spans(data, search_below(p), p).push((p, len))
            }
        } else {
            spans(data, p, previous)
        }
    }
}

/// Start and length of the records of a dump, oldest first.
pub open spec fn dive_spans(data: Seq<u8>) -> Seq<(int, int)> {
    spans(data, search_below(data.len() as int), data.len() as int)
}

/// The bytes of the given records.
pub open spec fn cut(data: Seq<u8>, parts: Seq<(int, int)>) -> Seq<Seq<u8>> {
    parts.map_values(|s: (int, int)| data.subrange(s.0, s.0 + s.1))
}

/// The dive records of a dump, oldest first.
pub open spec fn dive_records(data: Seq<u8>) -> Seq<Seq<u8>> {
    cut(data, dive_spans(data))
}

/// No marker stands so near to the end of the dump that its length is cut off.
pub open spec fn lengths_are_whole(data: Seq<u8>) -> bool {
    forall|p: int| 0 <= p <= data.len() - 5 && p + 8 > data.len() ==> !#[trigger] marker_at(data, p)
}

/// The contents of a list of slices.
pub open spec fn slices(list: Seq<&[u8]>) -> Seq<Seq<u8>> {
    list.map_values(|s: &[u8]| s@)
}

/// The little-endian 32-bit number at `off`.
pub fn u32_le(d: &[u8], off: usize) -> (r: u32)
    requires
        off + 4 <= d@.len(),
    ensures
        r == bytes::le32(d@, off as int),
{
    bytes::from_le32(d[off], d[off + 1], d[off + 2], d[off + 3])
}

/// The little-endian 16-bit number at `off`.
pub fn u16_le(d: &[u8], off: usize) -> (r: u16)
    requires
        off + 2 <= d@.len(),
    ensures
        r == bytes::le16(d@, off as int),
{
    bytes::from_le16(d[off], d[off + 1])
}

fn is_marker(data: &[u8], p: usize) -> (r: bool)
    requires
        p + 4 <= data@.len(),
    ensures
        r == marker_at(data@, p as int),
{
    data[p] == MARKER[0] && data[p + 1] == MARKER[1] && data[p + 2] == MARKER[2] && data[p + 3]
        == MARKER[3]
}

/// Whether every marker of the dump is followed by a whole length field.
pub fn has_whole_lengths(data: &[u8]) -> (r: bool)
    ensures
        r == lengths_are_whole(data@),
{
    let size: usize = data.len();
    let mut p: usize = if size >= 7 { size - 7 } else { 0 };
    while size >= 5 && p <= size - 5
        invariant
            size == data@.len(),
            size < 5 ==> lengths_are_whole(data@),
            forall|q: int| 0 <= q < p && q + 8 > size && q <= size - 5 ==> !#[trigger] marker_at(
                data@,
                q,
            ),
            p + 8 > size,
        decreases size - p,
    {
        if is_marker(data, p) {
            return false;
        }
        p = p + 1;
    }
    true
}

/// Splits a dump into its dive records, oldest first.
pub fn extract_dives<'a>(data: &'a [u8]) -> (r: Vec<&'a [u8]>)
    requires
        lengths_are_whole(data@),
    ensures
        slices(r@) == dive_records(data@),
{
    let size: usize = data.len();
    let mut found: Vec<(usize, usize)> = Vec::new();
    let mut previous: usize = size;
    let mut current: usize = if size >= 4 { size - 4 } else { 0 };
    let mut broken = false;
    let ghost all = dive_spans(data@);
    assert(all =~= spans(data@, current as int, previous as int) + oldest_first(found@));
    while current > 0 && !broken
        invariant
            size == data@.len(),
            current <= previous <= size,
            current > 0 ==> current + 4 <= previous,
            lengths_are_whole(data@),
            previous < size ==> previous + 8 <= size,
            found_in(found@, size as int),
            broken ==> all == oldest_first(found@),
            !broken ==> all == spans(data@, current as int, previous as int) + oldest_first(found@),
        decreases current,
    {
        current = current - 1;
        if is_marker(data, current) {
            let len: usize = u32_le(data, current + 4) as usize;
            if len < 8 || len > previous - current {
                proof {
                    assert(Seq::<(int, int)>::empty() + oldest_first(found@) =~= oldest_first(
                        found@,
                    ));
                }
                broken = true;
            } else {
                proof {
                    let older = spans(data@, search_below(current as int), current as int);
                    let span = (current as int, len as int);
                    assert(older.push(span) + oldest_first(found@) =~= older + oldest_first(
                        found@.push((current, len)),
                    ));
                }
                found.push((current, len));
                previous = current;
                current = if current >= 4 { current - 4 } else { 0 };
            }
        }
    }
    assert(all =~= oldest_first(found@));
    let mut out: Vec<&'a [u8]> = Vec::new();
    let n: usize = found.len();
    for i in 0..n
        invariant
            n == found@.len(),
            size == data@.len(),
            found_in(found@, size as int),
            all == oldest_first(found@),
            out@.len() == i,
            forall|k: int|
                0 <= k < i ==> (#[trigger] out@[k])@ == data@.subrange(
                    all[k].0,
                    all[k].0 + all[k].1,
                ),
    {
        let (start, len) = found[n - 1 - i];
        assert(found@[n - 1 - i] == (start, len));
        out.push(slice_subrange(data, start, start + len));
    }
    assert(slices(out@) =~= dive_records(data@));
    out
}

/// Spans found from the end, put in the order of the dump.
spec fn oldest_first(found: Seq<(usize, usize)>) -> Seq<(int, int)> {
    Seq::new(
        found.len(),
        |i: int| (found[found.len() - 1 - i].0 as int, found[found.len() - 1 - i].1 as int),
    )
}

spec fn found_in(found: Seq<(usize, usize)>, size: int) -> bool {
    forall|i: int| 0 <= i < found.len() ==> (#[trigger] found[i]).0 + found[i].1 <= size
}

/// The span is a whole record that starts below `current` and ends at or before
/// `previous`.
spec fn is_span(data: Seq<u8>, span: (int, int), current: int, previous: int) -> bool {
    &&& 0 <= span.0 < current
    &&& 8 <= span.1
    &&& span.0 + span.1 <= previous
    &&& marker_at(data, span.0)
    &&& span.1 == bytes::le32(data, span.0 + 4)
}

proof fn spans_in_order(data: Seq<u8>, current: int, previous: int)
    requires
        0 <= current <= previous,
    ensures
        forall|k: int|
            0 <= k < spans(data, current, previous).len() ==> is_span(
                data,
                #[trigger] spans(data, current, previous)[k],
                current,
                previous,
            ),
        forall|j: int, k: int|
            0 <= j < k < spans(data, current, previous).len() ==> (#[trigger] spans(
                data,
                current,
                previous,
            )[j]).0 + spans(data, current, previous)[j].1 <= (#[trigger] spans(
                data,
                current,
                previous,
            )[k]).0,
    decreases current,
{
    if current > 0 {
        let p = current - 1;
        let found = spans(data, current, previous);
        if marker_at(data, p) {
            let len = bytes::le32(data, p + 4) as int;
            if !(len < 8 || p + len > previous) {
                let older = spans(data, search_below(p), p);
                spans_in_order(data, search_below(p), p);
                assert(found == older.push((p, len)));
                assert forall|k: int| 0 <= k < found.len() implies is_span(
                    data,
                    #[trigger] found[k],
                    current,
                    previous,
                ) by {
                    if k < older.len() {
                        assert(found[k] == older[k]);
                        assert(is_span(data, older[k], search_below(p), p));
                    }
                }
                assert forall|j: int, k: int| 0 <= j < k < found.len() implies (
                #[trigger] found[j]).0 + found[j].1 <= (#[trigger] found[k]).0 by {
                    assert(found[j] == older[j]);
                    assert(is_span(data, older[j], search_below(p), p));
                    if k < older.len() {
                        assert(found[k] == older[k]);
                    }
                }
            }
        } else {
            spans_in_order(data, p, previous);
            assert(found == spans(data, p, previous));
            assert forall|k: int| 0 <= k < found.len() implies is_span(
                data,
                #[trigger] found[k],
                current,
                previous,
            ) by {
                assert(is_span(data, found[k], p, previous));
            }
        }
    }
}

/// The records of a dump lie inside it in the order in which they are given and
/// do not overlap; each starts with the marker and carries its own length.
pub proof fn records_are_disjoint(data: Seq<u8>)
    ensures
        forall|k: int|
            0 <= k < dive_spans(data).len() ==> {
                let (start, len) = #[trigger] dive_spans(data)[k];
                &&& 0 <= start
                &&& 8 <= len
                &&& start + len <= data.len()
                &&& dive_records(data)[k] == data.subrange(start, start + len)
                &&& marker_at(dive_records(data)[k], 0)
                &&& bytes::le32(dive_records(data)[k], 4) == len
            },
        forall|j: int, k: int|
            0 <= j < k < dive_spans(data).len() ==> (#[trigger] dive_spans(data)[j]).0
                + dive_spans(data)[j].1 <= (#[trigger] dive_spans(data)[k]).0,
{
    let n = data.len() as int;
    spans_in_order(data, search_below(n), n);
    assert forall|k: int| 0 <= k < dive_spans(data).len() implies {
        let (start, len) = #[trigger] dive_spans(data)[k];
        &&& 0 <= start
        &&& 8 <= len
        &&& start + len <= data.len()
        &&& dive_records(data)[k] == data.subrange(start, start + len)
        &&& marker_at(dive_records(data)[k], 0)
        &&& bytes::le32(dive_records(data)[k], 4) == len
    } by {
        assert(is_span(data, dive_spans(data)[k], search_below(n), n));
    }
}

/// Records written one after the other.
pub open spec fn joined(records: Seq<Seq<u8>>) -> Seq<u8>
    decreases records.len(),
{
    if records.len() == 0 {
        Seq::empty()
    } else {
        joined(records.drop_last()) + records.last()
    }
}

/// Where record `k` of `joined(records)` starts.
pub open spec fn start_of(records: Seq<Seq<u8>>, k: int) -> int {
    joined(records.take(k)).len() as int
}

/// A record as the dive computer writes it: the marker, its own length, and
/// anything after that.
pub open spec fn is_record(r: Seq<u8>) -> bool {
    r.len() >= 8 && marker_at(r, 0) && bytes::le32(r, 4) == r.len()
}

proof fn joined_holds(records: Seq<Seq<u8>>, k: int)
    requires
        0 <= k < records.len(),
    ensures
        0 <= start_of(records, k),
        start_of(records, k) + records[k].len() == start_of(records, k + 1),
        start_of(records, k + 1) <= joined(records).len(),
        joined(records).subrange(start_of(records, k), start_of(records, k + 1)) == records[k],
    decreases records.len(),
{
    let init = records.drop_last();
    assert(records.take(k + 1).drop_last() =~= records.take(k));
    if k == records.len() - 1 {
        assert(records.take(k) =~= init);
        assert(records.take(k + 1) =~= records);
        assert(joined(records).subrange(start_of(records, k), start_of(records, k + 1))
            =~= records[k]);
    } else {
        joined_holds(init, k);
        assert(init.take(k) =~= records.take(k));
        assert(init.take(k + 1) =~= records.take(k + 1));
        assert(joined(records).subrange(start_of(records, k), start_of(records, k + 1))
            =~= joined(init).subrange(start_of(records, k), start_of(records, k + 1)));
    }
}

/// Positions without a marker are passed over.
proof fn search_passes(data: Seq<u8>, low: int, current: int, previous: int)
    requires
        0 <= low <= current,
        forall|p: int| low <= p < current ==> !#[trigger] marker_at(data, p),
    ensures
        spans(data, current, previous) == spans(data, low, previous),
    decreases current,
{
    if low < current {
        assert(!marker_at(data, current - 1));
        search_passes(data, low, current - 1, previous);
    }
}

proof fn search_finds(records: Seq<Seq<u8>>, k: int)
    requires
        0 <= k <= records.len(),
        forall|i: int| 0 <= i < records.len() ==> is_record(#[trigger] records[i]),
        forall|p: int|
            0 <= p <= joined(records).len() - 4 && #[trigger] marker_at(joined(records), p)
                ==> exists|i: int| 0 <= i < records.len() && p == #[trigger] start_of(records, i),
    ensures
        ({
            let end = start_of(records, k);
            let found = spans(joined(records), search_below(end), end);
            &&& found.len() == k
            &&& forall|i: int|
                0 <= i < k ==> #[trigger] found[i] == (
                    start_of(records, i),
                    records[i].len() as int,
                )
        }),
    decreases k,
{
    let data = joined(records);
    let end = start_of(records, k);
    if k == 0 {
        assert(records.take(0) =~= Seq::empty());
        assert(end == 0);
    } else {
        let s = start_of(records, k - 1);
        joined_holds(records, k - 1);
        search_finds(records, k - 1);
        let r = records[k - 1];
        assert(is_record(r));
        assert(r[0] == data[s] && r[1] == data[s + 1] && r[2] == data[s + 2] && r[3] == data[s + 3]
            && r[4] == data[s + 4] && r[5] == data[s + 5] && r[6] == data[s + 6] && r[7] == data[s
            + 7]);
        assert(marker_at(data, s));
        assert forall|p: int| s + 1 <= p < search_below(end) implies !#[trigger] marker_at(
            data,
            p,
        ) by {
            if marker_at(data, p) {
                let i = choose|i: int|
                    0 <= i < records.len() && p == #[trigger] start_of(records, i);
                starts_increase(records, i, k - 1);
                starts_increase(records, k, i);
            }
        }
        search_passes(data, s + 1, search_below(end), end);
        assert(bytes::le32(data, s + 4) == r.len());
    }
}

proof fn starts_increase(records: Seq<Seq<u8>>, i: int, k: int)
    requires
        0 <= i,
        k <= records.len(),
    ensures
        i <= k ==> start_of(records, i) <= start_of(records, k),
    decreases k - i,
{
    if i < k {
        joined_holds(records, k - 1);
        starts_increase(records, i, k - 1);
    }
}

/// Records written one after the other are found again, all of them and in
/// their order, when the marker occurs in the dump only where a record starts.
pub proof fn written_records_are_found(records: Seq<Seq<u8>>)
    requires
        forall|i: int| 0 <= i < records.len() ==> is_record(#[trigger] records[i]),
        forall|p: int|
            0 <= p <= joined(records).len() - 4 && #[trigger] marker_at(joined(records), p)
                ==> exists|i: int| 0 <= i < records.len() && p == #[trigger] start_of(records, i),
    ensures
        lengths_are_whole(joined(records)),
        dive_records(joined(records)) == records,
{
    let data = joined(records);
    let n = records.len() as int;
    assert(records.take(n) =~= records);
    search_finds(records, n);
    assert forall|i: int| 0 <= i < n implies #[trigger] dive_records(data)[i] == records[i] by {
        joined_holds(records, i);
        assert(dive_spans(data)[i] == (start_of(records, i), records[i].len() as int));
    }
    assert(dive_records(data) =~= records);
    assert forall|p: int| 0 <= p <= data.len() - 5 && p + 8 > data.len() implies !#[trigger] marker_at(
        data,
        p,
    ) by {
        if marker_at(data, p) {
            let i = choose|i: int| 0 <= i < records.len() && p == #[trigger] start_of(records, i);
            joined_holds(records, i);
            starts_increase(records, i + 1, n);
            assert(is_record(records[i]));
        }
    }
}

proof fn search_passes_no_marker(data: Seq<u8>, current: int, previous: int, q: int)
    requires
        0 <= q < current,
        marker_at(data, q),
        forall|k: int|
            0 <= k < spans(data, current, previous).len() ==> !((#[trigger] spans(
                data,
                current,
                previous,
            )[k]).0 - 4 <= q < spans(data, current, previous)[k].0),
    ensures
        ({
            let found = spans(data, current, previous);
            ||| exists|k: int| 0 <= k < found.len() && (#[trigger] found[k]).0 == q
            ||| forall|k: int| 0 <= k < found.len() ==> (#[trigger] found[k]).0 > q
        }),
    decreases current,
{
    let p = current - 1;
    let found = spans(data, current, previous);
    if marker_at(data, p) {
        let len = bytes::le32(data, p + 4) as int;
        if !(len < 8 || p + len > previous) {
            let older = spans(data, search_below(p), p);
            let last = older.len() as int;
            assert(found == older.push((p, len)));
            assert(found[last] == (p, len));
            if q < p {
                assert(q < search_below(p));
                assert forall|k: int| 0 <= k < older.len() implies !((#[trigger] older[k]).0 - 4
                    <= q < older[k].0) by {
                    assert(found[k] == older[k]);
                }
                search_passes_no_marker(data, search_below(p), p, q);
                if exists|k: int| 0 <= k < older.len() && (#[trigger] older[k]).0 == q {
                    let k = choose|k: int| 0 <= k < older.len() && (#[trigger] older[k]).0 == q;
                    assert(found[k].0 == q);
                } else {
                    assert forall|k: int| 0 <= k < found.len() implies (#[trigger] found[k]).0
                        > q by {
                        if k < last {
                            assert(found[k] == older[k]);
                        }
                    }
                }
            }
        }
    } else {
        assert(found == spans(data, p, previous));
        search_passes_no_marker(data, p, previous, q);
    }
}

/// No marker is passed over: a marker that is not the start of a record, and that
/// is not within four bytes of the one behind it, has ended the search, so that
/// every record starts behind it.
pub proof fn bad_marker_ends_the_search(data: Seq<u8>, q: int)
    requires
        0 <= q < data.len() - 4,
        data[q] == 0xa5,
        data[q + 1] == 0xa5,
        data[q + 2] == 0x5a,
        data[q + 3] == 0x5a,
        forall|k: int|
            0 <= k < dive_spans(data).len() ==> !((#[trigger] dive_spans(data)[k]).0 - 4 <= q
                <= dive_spans(data)[k].0),
    ensures
        forall|k: int| 0 <= k < dive_spans(data).len() ==> (#[trigger] dive_spans(data)[k]).0 > q,
{
    search_passes_no_marker(data, search_below(data.len() as int), data.len() as int, q);
}

} // verus!
