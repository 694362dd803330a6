//! Leveled messages, and the hex dump that shows frames.
//!
//! Nothing is printed here: a function returns the text of a message, or nothing
//! if its level is not enabled.

use vstd::prelude::*;

use crate::text;

verus! {

/// Verbosity; later levels are more verbose.
#[derive(Copy, Clone, PartialEq, Eq, PartialOrd, Ord, Debug, Structural)]
pub enum Level {
    Error,
    Warn,
    Info,
    Debug,
    Trace,
}

impl Level {
    /// The level as a number.
    pub open spec fn rank(self) -> u8 {
        match self {
            Level::Error => 0,
            Level::Warn => 1,
            Level::Info => 2,
            Level::Debug => 3,
            Level::Trace => 4,
        }
    }

    /// What a message of this level starts with.
    pub open spec fn tag(self) -> Seq<char> {
        match self {
            Level::Error => "ERROR"@,
            Level::Warn => "WARN "@,
            Level::Info => "INFO "@,
            Level::Debug => "DEBUG"@,
            Level::Trace => "TRACE"@,
        }
    }

    /// Gives the level as a number.
    pub fn number(self) -> (r: u8)
        ensures
            r == self.rank(),
    {
        match self {
            Level::Error => 0,
            Level::Warn => 1,
            Level::Info => 2,
            Level::Debug => 3,
            Level::Trace => 4,
        }
    }
}

/// The verbosity in force, as a number; numbers above four mean the same as
/// four.
#[derive(Copy, Clone, PartialEq, Eq, Debug, Structural)]
pub struct Verbosity {
    pub number: u8,
}

impl Verbosity {
    /// The level that the number means.
    pub open spec fn spec_level(self) -> Level {
        if self.number == 0 {
            Level::Error
        } else if self.number == 1 {
            Level::Warn
        } else if self.number == 2 {
            Level::Info
        } else if self.number == 3 {
            Level::Debug
        } else {
            Level::Trace
        }
    }
}

impl Default for Verbosity {
    /// Messages up to [`Level::Info`].
    fn default() -> (r: Self)
        ensures
            r.number == Level::Info.rank(),
            r.spec_level() == Level::Info,
    {
        Verbosity { number: 2 }
    }
}

/// Changes the verbosity.
pub fn set_level(verbosity: &mut Verbosity, level: Level)
    ensures
        final(verbosity).number == level.rank(),
        final(verbosity).spec_level() == level,
{
    verbosity.number = level.number();
}

/// The verbosity in force.
pub fn level(verbosity: &Verbosity) -> (r: Level)
    ensures
        r == verbosity.spec_level(),
{
    match verbosity.number {
        0 => Level::Error,
        1 => Level::Warn,
        2 => Level::Info,
        3 => Level::Debug,
        _ => Level::Trace,
    }
}

/// Whether messages of a level are shown.
pub fn enabled(verbosity: &Verbosity, lvl: Level) -> (r: bool)
    ensures
        r == (lvl.rank() <= verbosity.spec_level().rank()),
{
    lvl.number() <= level(verbosity).number()
}

/// A message with its tag.
pub open spec fn tagged(lvl: Level, message: Seq<char>) -> Seq<char> {
    "["@ + lvl.tag() + "] "@ + message
}

/// A message with its tag, if its level is shown.
pub open spec fn logged(verbosity: Verbosity, lvl: Level, message: Seq<char>) -> Option<Seq<char>> {
    if lvl.rank() <= verbosity.spec_level().rank() {
        Some(tagged(lvl, message))
    } else {
        None
    }
}

/// Gives the line of a message, if its level is shown.
pub fn log(verbosity: &Verbosity, lvl: Level, message: &str) -> (r: Option<String>)
    ensures
        text::optional(r) == logged(*verbosity, lvl, message@),
{
    if !enabled(verbosity, lvl) {
        return None;
    }
    let tag: &str = match lvl {
        Level::Error => "ERROR",
        Level::Warn => "WARN ",
        Level::Info => "INFO ",
        Level::Debug => "DEBUG",
        Level::Trace => "TRACE",
    };
    let mut s = "[".to_owned();
    s.append(tag);
    s.append("] ");
    s.append(message);
    Some(s)
}

/// The character that shows a byte: itself if it is printable ASCII, else a dot.
pub open spec fn shown(b: u8) -> char {
    if 0x20 <= b <= 0x7e {
        b as char
    } else {
        '.'
    }
}

/// The hex column of the first `n` bytes of a row, with a gap in the middle.
pub open spec fn hex_column(row: Seq<u8>, n: nat) -> Seq<char>
    decreases n,
{
    if n == 0 {
        Seq::empty()
    } else {
        hex_column(row, (n - 1) as nat) + (if n == 9 {
            " "@
        } else {
            ""@
        }) + text::zero_hex(row[n - 1] as nat, 2) + " "@
    }
}

/// The text column of a row.
pub open spec fn text_column(row: Seq<u8>) -> Seq<char> {
    Seq::new(row.len(), |j: int| shown(row[j]))
}

/// Width of the hex column.
pub const HEX_WIDTH: usize = 49;

/// Row number `i` of a dump.
pub open spec fn dump_row(data: Seq<u8>, i: nat) -> Seq<char> {
    let end = if data.len() < 16 * i + 16 {
        data.len()
    } else {
        16 * i + 16
    };
    let row = data.subrange(16 * i as int, end as int);
    "  "@ + text::zero_hex(16 * i, 4) + "  "@ + text::padded_end(
        hex_column(row, row.len()),
        HEX_WIDTH as nat,
    ) + " |"@ + text_column(row) + "|"@
}

/// The first `n` rows of a dump, separated by line breaks.
pub open spec fn dump_rows(data: Seq<u8>, n: nat) -> Seq<char>
    decreases n,
{
    if n == 0 {
        Seq::empty()
    } else if n == 1 {
        dump_row(data, 0)
    } else {
        dump_rows(data, (n - 1) as nat) + "\n"@ + dump_row(data, (n - 1) as nat)
    }
}

/// The dump of data: rows of sixteen bytes, each with its offset in hexadecimal,
/// the bytes in hexadecimal, and the bytes as text.
pub open spec fn dump(data: Seq<u8>) -> Seq<char> {
    dump_rows(data, (data.len() + 15) / 16)
}

fn row_text(data: &[u8], start: usize, end: usize) -> (r: String)
    requires
        start <= end <= data@.len(),
        end - start <= 16,
    ensures
        r@ == ({
            let row = data@.subrange(start as int, end as int);
            "  "@ + text::zero_hex(start as nat, 4) + "  "@ + text::padded_end(
                hex_column(row, row.len()),
                HEX_WIDTH as nat,
            ) + " |"@ + text_column(row) + "|"@
        }),
{
    let ghost row = data@.subrange(start as int, end as int);
    let mut hex = String::new();
    let mut ascii = String::new();
    let n: usize = end - start;
    for j in 0..n
        invariant
            n == end - start,
            start <= end <= data@.len(),
            n <= 16,
            row == data@.subrange(start as int, end as int),
            hex@ == hex_column(row, j as nat),
            ascii@ == text_column(row).take(j as int),
    {
        let b: u8 = data[start + j];
        assert(b == row[j as int]);
        hex.append(if j == 8 { " " } else { "" });
        hex.append(text::zero_hex_text(b as u64, 2).as_str());
        hex.append(" ");
        ascii.push(if 0x20 <= b && b <= 0x7e { b as char } else { '.' });
        assert(ascii@ =~= text_column(row).take(j + 1));
    }
    assert(text_column(row).take(n as int) =~= text_column(row));
    let mut s = "  ".to_owned();
    s.append(text::zero_hex_text(start as u64, 4).as_str());
    s.append("  ");
    s.append(text::pad_end(hex.as_str(), HEX_WIDTH).as_str());
    s.append(" |");
    s.append(ascii.as_str());
    s.append("|");
    s
}

/// Dumps data in rows of sixteen bytes.
pub fn hexdump(data: &[u8]) -> (r: String)
    ensures
        r@ == dump(data@),
{
    let n: usize = data.len();
    let mut out = String::new();
    let mut start: usize = 0;
    let ghost mut rows: nat = 0;
    while start < n
        invariant
            n == data@.len(),
            start <= n,
            start == n || start == 16 * rows,
            rows == (start + 15) / 16,
            out@ == dump_rows(data@, rows),
        decreases n - start,
    {
        let end: usize = if n - start < 16 { n } else { start + 16 };
        let ghost before = out@;
        if start > 0 {
            out.append("\n");
        } else {
            assert(before =~= Seq::empty());
        }
        out.append(row_text(data, start, end).as_str());
        proof {
            rows = rows + 1;
            assert(out@ =~= dump_rows(data@, rows));
        }
        start = end;
    }
    out
}

/// The message that shows a frame.
pub open spec fn frame_message(dir: Seq<char>, data: Seq<u8>) -> Seq<char> {
    dir + " "@ + text::decimal(data.len()) + " byte:\n"@ + dump(data)
}

/// Gives the message that shows a frame, if [`Level::Debug`] is shown.
pub fn dump_frame(verbosity: &Verbosity, dir: &str, data: &[u8]) -> (r: Option<String>)
    ensures
        text::optional(r) == logged(*verbosity, Level::Debug, frame_message(dir@, data@)),
{
    if !enabled(verbosity, Level::Debug) {
        return None;
    }
    let mut s = dir.to_owned();
    s.append(" ");
    s.append(text::decimal_text(data.len() as u64).as_str());
    s.append(" byte:\n");
    s.append(hexdump(data).as_str());
    log(verbosity, Level::Debug, s.as_str())
}

/// More verbosity never hides a message.
pub proof fn verbosity_only_adds(low: Verbosity, high: Verbosity, lvl: Level, message: Seq<char>)
    requires
        low.spec_level().rank() <= high.spec_level().rank(),
        logged(low, lvl, message) is Some,
    ensures
        logged(high, lvl, message) == logged(low, lvl, message),
{
}

/// A message is shown exactly if its level is the chosen one or comes before it
/// in the order error, warning, info, debug, trace; it is then shown behind its
/// level.
pub proof fn levels_are_ordered(verbosity: Verbosity, lvl: Level, message: Seq<char>)
    ensures
        ({
            let n = verbosity.number;
            let r = logged(verbosity, lvl, message);
            &&& lvl == Level::Error ==> r == Some("[ERROR] "@ + message)
            &&& lvl == Level::Warn ==> r == (if n >= 1 {
                Some("[WARN ] "@ + message)
            } else {
                None
            })
            &&& lvl == Level::Info ==> r == (if n >= 2 {
                Some("[INFO ] "@ + message)
            } else {
                None
            })
            &&& lvl == Level::Debug ==> r == (if n >= 3 {
                Some("[DEBUG] "@ + message)
            } else {
                None
            })
            &&& lvl == Level::Trace ==> r == (if n >= 4 {
                Some("[TRACE] "@ + message)
            } else {
                None
            })
        }),
{
    reveal_strlit("[");
    reveal_strlit("] ");
    reveal_strlit("ERROR");
    reveal_strlit("WARN ");
    reveal_strlit("INFO ");
    reveal_strlit("DEBUG");
    reveal_strlit("TRACE");
    reveal_strlit("[ERROR] ");
    reveal_strlit("[WARN ] ");
    reveal_strlit("[INFO ] ");
    reveal_strlit("[DEBUG] ");
    reveal_strlit("[TRACE] ");
    assert("["@ + Level::Error.tag() + "] "@ =~= "[ERROR] "@);
    assert("["@ + Level::Warn.tag() + "] "@ =~= "[WARN ] "@);
    assert("["@ + Level::Info.tag() + "] "@ =~= "[INFO ] "@);
    assert("["@ + Level::Debug.tag() + "] "@ =~= "[DEBUG] "@);
    assert("["@ + Level::Trace.tag() + "] "@ =~= "[TRACE] "@);
}

/// Where byte `j` of a row stands in the hex column: three places for each byte,
/// and one more behind the eighth.
pub open spec fn hex_place(j: int) -> int {
    if j < 8 {
        3 * j
    } else {
        3 * j + 1
    }
}

proof fn hex_column_reads_back(row: Seq<u8>, n: nat, j: int)
    requires
        n <= row.len(),
    ensures
        hex_column(row, n).len() == hex_place(n as int) - (if n == 8 {
            1int
        } else {
            0
        }),
        0 <= j < n ==> text::hex_value(
            hex_column(row, n).subrange(hex_place(j), hex_place(j) + 2),
        ) == row[j],
    decreases n,
{
    if n > 0 {
        reveal_strlit(" ");
        reveal_strlit("");
        hex_column_reads_back(row, (n - 1) as nat, j);
        text::two_hex_digits(row[n - 1]);
        text::leading_zeros_read_back(row[n - 1] as nat, 2);
        let t = hex_column(row, n);
        if j == n - 1 {
            assert(t.subrange(hex_place(j), hex_place(j) + 2) =~= text::zero_hex(
                row[n - 1] as nat,
                2,
            ));
        } else if 0 <= j < n {
            assert(t.subrange(hex_place(j), hex_place(j) + 2) =~= hex_column(
                row,
                (n - 1) as nat,
            ).subrange(hex_place(j), hex_place(j) + 2));
        }
    }
}

/// A row of a dump starts with its offset and shows each of its bytes twice: in
/// hexadecimal, with a gap after eight of them, and between the bars as itself if
/// it is printable or else as a dot.
pub proof fn rows_show_their_bytes(data: Seq<u8>, i: nat, j: int)
    requires
        i < 0x1000,
        0 <= j < 16,
        16 * i + j < data.len(),
    ensures
        ({
            let t = dump_row(data, i);
            let b = data[16 * i + j];
            &&& text::hex_value(t.subrange(2, 6)) == 16 * i
            &&& text::hex_value(t.subrange(8 + hex_place(j), 10 + hex_place(j))) == b
            &&& t[58] == '|' && t[t.len() - 1] == '|'
            &&& 32 <= b < 127 ==> t[59 + j] as int == b
            &&& b < 32 || b >= 127 ==> t[59 + j] == '.'
            &&& 16 * i + 16 <= data.len() ==> t.len() == 76
            &&& 16 * i + 16 > data.len() ==> t.len() == 60 + data.len() - 16 * i
        }),
{
    reveal_strlit("  ");
    reveal_strlit(" |");
    reveal_strlit("|");
    let end = if data.len() < 16 * i + 16 {
        data.len() as int
    } else {
        (16 * i + 16) as int
    };
    let row = data.subrange(16 * i as int, end);
    let hex = hex_column(row, row.len());
    let wide = text::padded_end(hex, 49);
    let offset = text::zero_hex(16 * i, 4);
    hex_column_reads_back(row, row.len(), j);
    text::padding_only_fills(hex, 49, ' ');
    text::leading_zeros_read_back(16 * i, 4);
    four_hex_digits(16 * i);
    let t = dump_row(data, i);
    assert(t == "  "@ + offset + "  "@ + wide + " |"@ + text_column(row) + "|"@);
    assert(wide.len() == 49);
    assert(t.subrange(2, 6) =~= offset);
    assert(t.subrange(8 + hex_place(j), 10 + hex_place(j)) =~= hex.subrange(
        hex_place(j),
        hex_place(j) + 2,
    ));
    assert(t[59 + j] == text_column(row)[j]);
}

proof fn four_hex_digits(n: nat)
    requires
        n < 0x1_0000,
    ensures
        text::zero_hex(n, 4).len() == 4,
{
    reveal_with_fuel(text::hexadecimal, 5);
}

proof fn rows_follow_each_other(data: Seq<u8>, n: nat, i: int)
    requires
        0 < n,
    ensures
        text::starts_with(dump_rows(data, n), dump_row(data, 0)),
        text::ends_with(dump_rows(data, n), dump_row(data, (n - 1) as nat)),
        1 <= i < n ==> text::occurs(
            dump_rows(data, n),
            dump_row(data, (i - 1) as nat) + "\n"@ + dump_row(data, i as nat),
        ),
    decreases n,
{
    let t = dump_rows(data, n);
    let last = dump_row(data, (n - 1) as nat);
    if n == 1 {
        assert(t.take(t.len() as int) =~= t);
        assert(t.skip(0) =~= t);
    } else {
        rows_follow_each_other(data, (n - 1) as nat, i);
        list_grows(
            dump_rows(data, (n - 1) as nat),
            dump_row(data, 0),
            dump_row(data, (n - 2) as nat),
            last,
        );
        if 1 <= i < n - 1 {
            let pair = dump_row(data, (i - 1) as nat) + "\n"@ + dump_row(data, i as nat);
            text::occurs_in_longer(dump_rows(data, (n - 1) as nat), "\n"@, pair);
            text::occurs_in_longer(dump_rows(data, (n - 1) as nat) + "\n"@, last, pair);
        }
    }
}

proof fn list_grows(before: Seq<char>, first: Seq<char>, previous: Seq<char>, last: Seq<char>)
    requires
        text::starts_with(before, first),
        text::ends_with(before, previous),
    ensures
        text::starts_with(before + "\n"@ + last, first),
        text::ends_with(before + "\n"@ + last, last),
        text::occurs(before + "\n"@ + last, previous + "\n"@ + last),
{
    let t = before + "\n"@ + last;
    assert(t.take(first.len() as int) =~= before.take(first.len() as int));
    assert(t.skip(t.len() - last.len()) =~= last);
    let head = before.take(before.len() - previous.len());
    assert(before =~= head + previous);
    text::three_occur_at_end(head, previous, "\n"@, last);
}

/// A dump has one row for every sixteen bytes and for what is left over, the first
/// row at its start, the last at its end, and each on the line after the one
/// before it.
pub proof fn dumps_show_every_row(data: Seq<u8>, i: int)
    ensures
        data.len() == 0 ==> dump(data) == Seq::<char>::empty(),
        data.len() > 0 ==> text::starts_with(dump(data), dump_row(data, 0)),
        forall|last: nat|
            16 * last < data.len() <= 16 * last + 16 ==> text::ends_with(
                dump(data),
                #[trigger] dump_row(data, last),
            ),
        1 <= i && 16 * i < data.len() ==> text::occurs(
            dump(data),
            dump_row(data, (i - 1) as nat) + "\n"@ + dump_row(data, i as nat),
        ),
{
    let n = (data.len() + 15) / 16;
    if data.len() > 0 {
        rows_follow_each_other(data, n, i);
    }
}

/// The message about a frame shows its direction, its length and its bytes.
pub proof fn frames_are_shown(dir: Seq<char>, data: Seq<u8>)
    ensures
        text::starts_with(
            frame_message(dir, data),
            dir + " "@ + text::decimal(data.len()) + " byte:\n"@,
        ),
        text::ends_with(frame_message(dir, data), dump(data)),
{
    let t = frame_message(dir, data);
    let head = dir + " "@ + text::decimal(data.len()) + " byte:\n"@;
    assert(t.take(head.len() as int) =~= head);
    assert(t.skip(t.len() - dump(data).len()) =~= dump(data));
}

} // verus!
