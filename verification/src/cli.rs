//! The command line.

use vstd::prelude::*;

use crate::logging::Level;
use crate::text;
use crate::usb;

verus! {

/// What to do.
#[derive(Debug, Clone, Copy, PartialEq, Eq, Structural)]
pub enum Command {
    /// Show the dongle's descriptors.
    Enumerate,
    /// Set the dongle's baud rate.
    Init,
    /// Transmit test frames.
    Transmit,
    /// Listen for frames.
    Receive,
    /// Look for devices.
    Discover,
    /// Connect to a device and keep the connection.
    Connect,
    /// Save the dive memory of a device.
    Download,
    /// Write a saved dive memory as a divelog.
    Parse,
}

/// What the command line asks for.
#[derive(Debug, PartialEq, Eq)]
pub struct Args {
    pub level: Level,
    pub vid: u16,
    pub pid: u16,
    pub speed: u32,
    pub command: Command,
    /// Path of the file to read.
    pub input: Option<String>,
    /// Path of the file to write.
    pub output: Option<String>,
}

/// What the command line asks for, as specifications see it.
#[verifier::ext_equal]
pub struct ArgsView {
    pub level: Level,
    pub vid: u16,
    pub pid: u16,
    pub speed: u32,
    pub command: Command,
    pub input: Option<Seq<char>>,
    pub output: Option<Seq<char>>,
}

impl View for Args {
    type V = ArgsView;

    open spec fn view(&self) -> ArgsView {
        ArgsView {
            level: self.level,
            vid: self.vid,
            pid: self.pid,
            speed: self.speed,
            command: self.command,
            input: text::optional(self.input),
            output: text::optional(self.output),
        }
    }
}

/// A command line that can be followed.
#[derive(Debug, PartialEq, Eq)]
pub enum Parsed {
    Run(Args),
    /// The help was asked for.
    Help,
}

/// A command line that can be followed, as specifications see it.
#[verifier::ext_equal]
pub enum ParsedView {
    Run(ArgsView),
    Help,
}

impl View for Parsed {
    type V = ParsedView;

    open spec fn view(&self) -> ParsedView {
        match self {
            Parsed::Run(args) => ParsedView::Run(args@),
            Parsed::Help => ParsedView::Help,
        }
    }
}

/// A command line that can be followed, or what is wrong with it, as
/// specifications see it.
pub open spec fn result_view(r: Result<Parsed, String>) -> Result<ParsedView, Seq<char>> {
    match r {
        Ok(parsed) => Ok(parsed@),
        Err(e) => Err(e@),
    }
}

/// The value of a digit.
pub open spec fn digit_value(c: char, radix: nat) -> Option<nat> {
    let v = if '0' <= c && c <= '9' {
        (c as int - '0' as int) as nat
    } else if 'a' <= c && c <= 'z' {
        (c as int - 'a' as int + 10) as nat
    } else if 'A' <= c && c <= 'Z' {
        (c as int - 'A' as int + 10) as nat
    } else {
        radix
    };
    if v < radix {
        Some(v)
    } else {
        None
    }
}

/// The number that a row of digits stands for, if they are all digits.
pub open spec fn digits_value(s: Seq<char>, radix: nat) -> Option<nat>
    decreases s.len(),
{
    if s.len() == 0 {
        Some(0)
    } else {
        match (digits_value(s.drop_last(), radix), digit_value(s.last(), radix)) {
            (Some(v), Some(d)) => Some(v * radix + d),
            _ => None,
        }
    }
}

/// The number that a text stands for: at least one digit, which a plus sign may
/// precede, and no more than `max`.
pub open spec fn number(s: Seq<char>, radix: nat, max: nat) -> Option<nat> {
    let digits = if s.len() > 0 && s[0] == '+' {
        s.skip(1)
    } else {
        s
    };
    match digits_value(digits, radix) {
        Some(v) => if digits.len() > 0 && v <= max {
            Some(v)
        } else {
            None
        },
        None => None,
    }
}

fn digit(c: char, radix: u32) -> (r: Option<u32>)
    requires
        radix <= 36,
    ensures
        match r {
            Some(d) => digit_value(c, radix as nat) == Some(d as nat),
            None => digit_value(c, radix as nat) is None,
        },
{
    let v: u32 = if '0' <= c && c <= '9' {
        c as u32 - '0' as u32
    } else if 'a' <= c && c <= 'z' {
        c as u32 - 'a' as u32 + 10
    } else if 'A' <= c && c <= 'Z' {
        c as u32 - 'A' as u32 + 10
    } else {
        radix
    };
    if v < radix {
        Some(v)
    } else {
        None
    }
}

proof fn prefix_is_smaller(s: Seq<char>, radix: nat, n: int)
    requires
        radix >= 1,
        0 <= n <= s.len(),
        digits_value(s, radix) is Some,
    ensures
        digits_value(s.take(n), radix) is Some,
        digits_value(s.take(n), radix)->0 <= digits_value(s, radix)->0,
    decreases s.len() - n,
{
    if n < s.len() {
        prefix_is_smaller(s, radix, n + 1);
        assert(s.take(n + 1).drop_last() =~= s.take(n));
        let v = digits_value(s.take(n), radix)->0;
        assert(v <= v * radix) by (nonlinear_arith)
            requires
                radix >= 1,
        ;
    } else {
        assert(s.take(n) =~= s);
    }
}

fn parse_number(s: &str, radix: u32, max: u32) -> (r: Option<u32>)
    requires
        1 <= radix <= 36,
    ensures
        match r {
            Some(v) => number(s@, radix as nat, max as nat) == Some(v as nat),
            None => number(s@, radix as nat, max as nat) is None,
        },
{
    let n: usize = s.unicode_len();
    let start: usize = if n > 0 && s.get_char(0) == '+' { 1 } else { 0 };
    let ghost digits = s@.skip(start as int);
    assert(start == 0 ==> digits =~= s@);
    if start >= n {
        return None;
    }
    let mut value: u64 = 0;
    let mut i: usize = start;
    assert(digits.take(0) =~= Seq::empty());
    while i < n
        invariant
            n == s@.len(),
            start <= i <= n,
            start < n,
            1 <= radix <= 36,
            digits == s@.skip(start as int),
            digits == if s@.len() > 0 && s@[0] == '+' {
                s@.skip(1)
            } else {
                s@
            },
            value <= max,
            digits_value(digits.take(i - start), radix as nat) == Some(value as nat),
        decreases n - i,
    {
        let c: char = s.get_char(i);
        let ghost next = digits.take(i - start + 1);
        proof {
            assert(next.drop_last() =~= digits.take(i - start));
            assert(next.last() == c);
            if digits_value(digits, radix as nat) is Some {
                prefix_is_smaller(digits, radix as nat, i - start + 1);
            }
            assert(value * radix <= 0xffff_ffff * 36) by (nonlinear_arith)
                requires
                    value <= 0xffff_ffff,
                    radix <= 36,
            ;
        }
        match digit(c, radix) {
            Some(d) => {
                value = value * radix as u64 + d as u64;
                assert(digits_value(next, radix as nat) == Some(value as nat));
                if value > max as u64 {
                    return None;
                }
            },
            None => {
                return None;
            },
        }
        i = i + 1;
    }
    assert(digits.take(n - start) =~= digits);
    Some(value as u32)
}

/// A text without the `0x` marks at its start.
pub open spec fn unmarked(s: Seq<char>) -> Seq<char>
    decreases s.len(),
{
    if s.len() >= 2 && s[0] == '0' && s[1] == 'x' {
        unmarked(s.skip(2))
    } else {
        s
    }
}

fn strip_marks(s: &str) -> (r: &str)
    ensures
        r@ == unmarked(s@),
{
    let n: usize = s.unicode_len();
    let mut i: usize = 0;
    assert(s@.skip(0) =~= s@);
    while n - i >= 2 && s.get_char(i) == '0' && s.get_char(i + 1) == 'x'
        invariant
            n == s@.len(),
            i <= n,
            unmarked(s@.skip(i as int)) == unmarked(s@),
        decreases n - i,
    {
        assert(s@.skip(i as int).skip(2) =~= s@.skip(i + 2));
        i = i + 2;
    }
    let r = s.substring_char(i, n);
    assert(r@ =~= s@.skip(i as int));
    r
}

/// The position of the first colon; the length if there is none.
pub open spec fn colon(s: Seq<char>) -> int
    decreases s.len(),
{
    if s.len() == 0 || s[0] == ':' {
        0
    } else {
        1 + colon(s.skip(1))
    }
}

proof fn colon_is_first(s: Seq<char>, i: int)
    requires
        0 <= i <= s.len(),
        forall|k: int| 0 <= k < i ==> s[k] != ':',
        i < s.len() ==> s[i] == ':',
    ensures
        colon(s) == i,
    decreases s.len(),
{
    if i > 0 {
        assert(s[0] != ':');
        colon_is_first(s.skip(1), i - 1);
    }
}

/// Text between quotes, behind a message.
pub open spec fn quoted(message: Seq<char>, s: Seq<char>) -> Seq<char> {
    message + s + "'"@
}

fn quote(message: &str, s: &str) -> (r: String)
    ensures
        r@ == quoted(message@, s@),
{
    let mut r = message.to_owned();
    r.append(s);
    r.append("'");
    r
}

/// The vendor and product numbers that a text gives, or what is wrong with it.
pub open spec fn vid_pid(s: Seq<char>) -> Result<(u16, u16), Seq<char>> {
    let at = colon(s);
    if at >= s.len() {
        Err(quoted("expected VID:PID, got '"@, s))
    } else {
        let v = s.take(at);
        let p = s.skip(at + 1);
        match number(unmarked(v), 16, 0xffff) {
            None => Err(quoted("bad VID '"@, v)),
            Some(vid) => match number(unmarked(p), 16, 0xffff) {
                None => Err(quoted("bad PID '"@, p)),
                Some(pid) => Ok((vid as u16, pid as u16)),
            },
        }
    }
}

/// Reads vendor and product numbers: two hexadecimal numbers with a colon
/// between them.
pub fn parse_vid_pid(ids: &str) -> (r: Result<(u16, u16), String>)
    ensures
        text::error_view(r) == vid_pid(ids@),
{
    let n: usize = ids.unicode_len();
    let mut at: usize = 0;
    while at < n && ids.get_char(at) != ':'
        invariant
            n == ids@.len(),
            at <= n,
            forall|k: int| 0 <= k < at ==> ids@[k] != ':',
        decreases n - at,
    {
        at = at + 1;
    }
    proof {
        colon_is_first(ids@, at as int);
    }
    if at >= n {
        return Err(quote("expected VID:PID, got '", ids));
    }
    let v = ids.substring_char(0, at);
    let p = ids.substring_char(at + 1, n);
    assert(v@ =~= ids@.take(at as int));
    assert(p@ =~= ids@.skip(at + 1));
    match parse_number(strip_marks(v), 16, 0xffff) {
        None => Err(quote("bad VID '", v)),
        Some(vid) => match parse_number(strip_marks(p), 16, 0xffff) {
            None => Err(quote("bad PID '", p)),
            Some(pid) => Ok((vid as u16, pid as u16)),
        },
    }
}

/// The options seen so far.
pub struct Options {
    pub verbosity: nat,
    pub vid: u16,
    pub pid: u16,
    pub speed: u32,
    pub command: Command,
    pub input: Option<Seq<char>>,
    pub output: Option<Seq<char>>,
}

/// The options of an empty command line.
pub open spec fn defaults() -> Options {
    Options {
        verbosity: 0,
        vid: usb::STIR_VID,
        pid: usb::STIR_PID,
        speed: 9600,
        command: Command::Enumerate,
        input: None,
        output: None,
    }
}

/// The command that a word names.
pub open spec fn command_named(word: Seq<char>) -> Option<Command> {
    if word == "enumerate"@ {
        Some(Command::Enumerate)
    } else if word == "init"@ {
        Some(Command::Init)
    } else if word == "tx"@ {
        Some(Command::Transmit)
    } else if word == "rx"@ {
        Some(Command::Receive)
    } else if word == "discover"@ {
        Some(Command::Discover)
    } else if word == "connect"@ {
        Some(Command::Connect)
    } else if word == "download"@ {
        Some(Command::Download)
    } else if word == "parse"@ {
        Some(Command::Parse)
    } else {
        None
    }
}

/// What a command line comes to.
pub enum Scan {
    Help,
    Failed(Seq<char>),
    /// The verbosity cannot be counted.
    TooVerbose,
    Done(Options),
}

/// Reads one argument after the other.
pub open spec fn scan(args: Seq<Seq<char>>, o: Options) -> Scan
    decreases args.len(),
{
    if args.len() == 0 {
        Scan::Done(o)
    } else {
        let arg = args[0];
        let rest = args.skip(1);
        if arg == "-h"@ || arg == "--help"@ {
            Scan::Help
        } else if arg == "-v"@ || arg == "--verbose"@ || arg == "-vv"@ || arg == "-vvv"@ {
            let more = if arg == "-vvv"@ {
                3
            } else if arg == "-vv"@ {
                2
            } else {
                1nat
            };
            if o.verbosity + more > u8::MAX {
                Scan::TooVerbose
            } else {
                scan(rest, Options { verbosity: o.verbosity + more, ..o })
            }
        } else if arg == "-d"@ || arg == "--device"@ {
            if rest.len() == 0 {
                Scan::Failed("--device requires a VID:PID argument"@)
            } else {
                match vid_pid(rest[0]) {
                    Ok((vid, pid)) => scan(rest.skip(1), Options { vid, pid, ..o }),
                    Err(e) => Scan::Failed(e),
                }
            }
        } else if arg == "-s"@ || arg == "--speed"@ {
            if rest.len() == 0 {
                Scan::Failed("--speed requires a BAUD argument"@)
            } else {
                match number(rest[0], 10, u32::MAX as nat) {
                    Some(speed) => scan(rest.skip(1), Options { speed: speed as u32, ..o }),
                    None => Scan::Failed(quoted("bad speed '"@, rest[0])),
                }
            }
        } else if arg == "-i"@ {
            if rest.len() == 0 {
                Scan::Failed("-i requires a FILE argument"@)
            } else {
                scan(rest.skip(1), Options { input: Some(rest[0]), ..o })
            }
        } else if arg == "-o"@ {
            if rest.len() == 0 {
                Scan::Failed("-o requires a FILE argument"@)
            } else {
                scan(rest.skip(1), Options { output: Some(rest[0]), ..o })
            }
        } else {
            match command_named(arg) {
                Some(command) => scan(rest, Options { command, ..o }),
                None => Scan::Failed("unknown argument: "@ + arg),
            }
        }
    }
}

/// The level of a verbosity.
pub open spec fn level_for(verbosity: nat) -> Level {
    if verbosity == 0 {
        Level::Info
    } else if verbosity == 1 {
        Level::Debug
    } else {
        Level::Trace
    }
}

/// What a command line asks for, or what is wrong with it; `None` if its
/// verbosity cannot be counted.
pub open spec fn command_line(args: Seq<Seq<char>>) -> Option<Result<ParsedView, Seq<char>>> {
    match scan(args, defaults()) {
        Scan::Help => Some(Ok(ParsedView::Help)),
        Scan::Failed(e) => Some(Err(e)),
        Scan::TooVerbose => None,
        Scan::Done(o) => Some(
            Ok(
                ParsedView::Run(
                    ArgsView {
                        level: level_for(o.verbosity),
                        vid: o.vid,
                        pid: o.pid,
                        speed: o.speed,
                        command: o.command,
                        input: o.input,
                        output: o.output,
                    },
                ),
            ),
        ),
    }
}

/// Arguments as specifications see them.
pub open spec fn texts(args: Seq<String>) -> Seq<Seq<char>> {
    args.map_values(|a: String| a@)
}

fn same(arg: &String, word: &str) -> (r: bool)
    ensures
        r == (arg@ == word@),
{
    *arg == word.to_owned()
}

fn more_verbose(arg: &String) -> (r: u8)
    ensures
        r == if arg@ == "-vvv"@ {
            3nat
        } else if arg@ == "-vv"@ {
            2
        } else if arg@ == "-v"@ || arg@ == "--verbose"@ {
            1
        } else {
            0
        },
{
    if same(arg, "-vvv") {
        3
    } else if same(arg, "-vv") {
        2
    } else if same(arg, "-v") || same(arg, "--verbose") {
        1
    } else {
        0
    }
}

fn named(arg: &String) -> (r: Option<Command>)
    ensures
        r == command_named(arg@),
{
    if same(arg, "enumerate") {
        Some(Command::Enumerate)
    } else if same(arg, "init") {
        Some(Command::Init)
    } else if same(arg, "tx") {
        Some(Command::Transmit)
    } else if same(arg, "rx") {
        Some(Command::Receive)
    } else if same(arg, "discover") {
        Some(Command::Discover)
    } else if same(arg, "connect") {
        Some(Command::Connect)
    } else if same(arg, "download") {
        Some(Command::Download)
    } else if same(arg, "parse") {
        Some(Command::Parse)
    } else {
        None
    }
}

/// Reads a command line, without the program's name; `None` if its verbosity
/// cannot be counted.
pub fn try_parse_args(args: &[String]) -> (r: Option<Result<Parsed, String>>)
    ensures
        match r {
            Some(result) => command_line(texts(args@)) == Some(result_view(result)),
            None => command_line(texts(args@)) is None,
        },
{
    let ghost all = texts(args@);
    let mut verbosity: u8 = 0;
    let mut vid: u16 = usb::STIR_VID;
    let mut pid: u16 = usb::STIR_PID;
    let mut speed: u32 = 9600;
    let mut command = Command::Enumerate;
    let mut input: Option<String> = None;
    let mut output: Option<String> = None;
    let n: usize = args.len();
    let mut i: usize = 0;
    assert(all.skip(0) =~= all);
    while i < n
        invariant
            n == args@.len(),
            i <= n,
            all == texts(args@),
            scan(all, defaults()) == scan(
                all.skip(i as int),
                Options {
                    verbosity: verbosity as nat,
                    vid,
                    pid,
                    speed,
                    command,
                    input: text::optional(input),
                    output: text::optional(output),
                },
            ),
        decreases n - i,
    {
        let arg = &args[i];
        let ghost left = all.skip(i as int);
        proof {
            assert(left[0] == arg@);
            assert(left.skip(1) =~= all.skip(i + 1));
            assert(i + 1 < n ==> left.skip(1)[0] == args@[i + 1]@);
            assert(i + 1 < n ==> left.skip(1).skip(1) =~= all.skip(i + 2));
        }
        if same(arg, "-h") || same(arg, "--help") {
            return Some(Ok(Parsed::Help));
        }
        let more: u8 = more_verbose(arg);
        if more > 0 {
            if verbosity > u8::MAX - more {
                return None;
            }
            verbosity = verbosity + more;
            i = i + 1;
        } else if same(arg, "-d") || same(arg, "--device") {
            if i + 1 >= n {
                return Some(Err("--device requires a VID:PID argument".to_owned()));
            }
            match parse_vid_pid(args[i + 1].as_str()) {
                Ok(ids) => {
                    vid = ids.0;
                    pid = ids.1;
                },
                Err(e) => {
                    return Some(Err(e));
                },
            }
            i = i + 2;
        } else if same(arg, "-s") || same(arg, "--speed") {
            if i + 1 >= n {
                return Some(Err("--speed requires a BAUD argument".to_owned()));
            }
            match parse_number(args[i + 1].as_str(), 10, u32::MAX) {
                Some(s) => {
                    speed = s;
                },
                None => {
                    return Some(Err(quote("bad speed '", args[i + 1].as_str())));
                },
            }
            i = i + 2;
        } else if same(arg, "-i") {
            if i + 1 >= n {
                return Some(Err("-i requires a FILE argument".to_owned()));
            }
            input = Some(args[i + 1].as_str().to_owned());
            i = i + 2;
        } else if same(arg, "-o") {
            if i + 1 >= n {
                return Some(Err("-o requires a FILE argument".to_owned()));
            }
            output = Some(args[i + 1].as_str().to_owned());
            i = i + 2;
        } else {
            match named(arg) {
                Some(c) => {
                    command = c;
                },
                None => {
                    let mut e = "unknown argument: ".to_owned();
                    e.append(arg.as_str());
                    return Some(Err(e));
                },
            }
            i = i + 1;
        }
    }
    assert(all.skip(n as int) =~= Seq::empty());
    let level = if verbosity == 0 {
        Level::Info
    } else if verbosity == 1 {
        Level::Debug
    } else {
        Level::Trace
    };
    Some(Ok(Parsed::Run(Args { level, vid, pid, speed, command, input, output })))
}

/// Reads a command line, without the program's name.
pub fn parse_args(args: &[String]) -> (r: Result<Parsed, String>)
    requires
        command_line(texts(args@)) is Some,
    ensures
        command_line(texts(args@)) == Some(result_view(r)),
{
    try_parse_args(args).unwrap()
}

proof fn flags_differ()
    ensures
        "-v"@.len() == 2,
        "-vv"@.len() == 3,
        "-vvv"@.len() == 4,
        "-h"@ != "-v"@,
        "--help"@.len() == 6,
        "-h"@.len() == 2,
{
    reveal_strlit("-v");
    reveal_strlit("-vv");
    reveal_strlit("-vvv");
    reveal_strlit("-h");
    reveal_strlit("--help");
    assert("-h"@[1] != "-v"@[1]);
}

/// A doubled or tripled verbosity flag means the same as two or three flags.
pub proof fn verbosity_flags_add_up(args: Seq<Seq<char>>, o: Options)
    ensures
        scan(seq!["-vv"@] + args, o) == scan(seq!["-v"@, "-v"@] + args, o),
        scan(seq!["-vvv"@] + args, o) == scan(seq!["-v"@, "-v"@, "-v"@] + args, o),
{
    flags_differ();
    let one = seq!["-v"@] + args;
    let two = seq!["-v"@, "-v"@] + args;
    let three = seq!["-v"@, "-v"@, "-v"@] + args;
    assert((seq!["-vv"@] + args).skip(1) =~= args);
    assert((seq!["-vvv"@] + args).skip(1) =~= args);
    assert(one.skip(1) =~= args);
    assert(two.skip(1) =~= one);
    assert(three.skip(1) =~= two);
    let o1 = Options { verbosity: o.verbosity + 1, ..o };
    let o2 = Options { verbosity: o.verbosity + 2, ..o };
    assert(scan(one, o1) == if o.verbosity + 2 > u8::MAX {
        Scan::TooVerbose
    } else {
        scan(args, o2)
    });
    assert(scan(two, o1) == if o.verbosity + 2 > u8::MAX {
        Scan::TooVerbose
    } else {
        scan(one, o2)
    });
}

/// Every character is a hexadecimal digit.
pub open spec fn all_hex(s: Seq<char>) -> bool {
    forall|i: int| 0 <= i < s.len() ==> digit_value(#[trigger] s[i], 16) is Some
}

proof fn hexadecimal_value(n: nat)
    ensures
        digits_value(text::hexadecimal(n), 16) == Some(n),
        all_hex(text::hexadecimal(n)),
        text::hexadecimal(n).len() > 0,
    decreases n,
{
    let s = text::hexadecimal(n);
    assert(digit_value(text::digit_char(n % 16), 16) == Some(n % 16));
    if n < 16 {
        assert(s.drop_last() =~= Seq::empty());
    } else {
        hexadecimal_value(n / 16);
        assert(s.drop_last() =~= text::hexadecimal(n / 16));
    }
    assert(digits_value(s.drop_last(), 16) == Some(n / 16));
    assert(s.last() == text::digit_char(n % 16));
    assert((n / 16) * 16 + n % 16 == n);
}

proof fn leading_zeros(k: nat, s: Seq<char>)
    ensures
        digits_value(Seq::new(k, |i: int| '0') + s, 16) == digits_value(s, 16),
    decreases s.len(), k,
{
    let zeros = Seq::new(k, |i: int| '0');
    let t = zeros + s;
    if s.len() > 0 {
        leading_zeros(k, s.drop_last());
        assert(t.drop_last() =~= zeros + s.drop_last());
        assert(t.last() == s.last());
    } else if k > 0 {
        let fewer = Seq::new((k - 1) as nat, |i: int| '0');
        leading_zeros((k - 1) as nat, s);
        assert(t.drop_last() =~= fewer + s);
        assert(t.last() == '0');
    } else {
        assert(t =~= s);
    }
}

proof fn shown_number_reads_back(v: u16)
    ensures
        all_hex(text::zero_hex(v as nat, 4)),
        number(unmarked(text::zero_hex(v as nat, 4)), 16, 0xffff) == Some(v as nat),
{
    let digits = text::hexadecimal(v as nat);
    let s = text::zero_hex(v as nat, 4);
    hexadecimal_value(v as nat);
    if digits.len() < 4 {
        let k = (4 - digits.len()) as nat;
        leading_zeros(k, digits);
        assert(s == Seq::new(k, |i: int| '0') + digits);
        assert forall|i: int| 0 <= i < s.len() implies digit_value(#[trigger] s[i], 16) is Some by {
            if i >= k {
                assert(s[i] == digits[i - k]);
            }
        }
    }
    assert(digit_value(s[0], 16) is Some);
    assert(s.len() >= 2 ==> digit_value(s[1], 16) is Some);
    assert(unmarked(s) == s);
}

/// Vendor and product numbers, as they are shown, are read as those numbers.
pub proof fn shown_ids_read_back(vid: u16, pid: u16)
    ensures
        vid_pid(usb::id_pair(vid, pid)) == Ok::<(u16, u16), Seq<char>>((vid, pid)),
{
    let v = text::zero_hex(vid as nat, 4);
    let p = text::zero_hex(pid as nat, 4);
    let s = usb::id_pair(vid, pid);
    reveal_strlit(":");
    shown_number_reads_back(vid);
    shown_number_reads_back(pid);
    assert forall|k: int| 0 <= k < v.len() implies s[k] != ':' by {
        assert(digit_value(v[k], 16) is Some);
        assert(s[k] == v[k]);
    }
    assert(s[v.len() as int] == ':');
    colon_is_first(s, v.len() as int);
    assert(s.take(v.len() as int) =~= v);
    assert(s.skip(v.len() as int + 1) =~= p);
}

proof fn words_differ()
    ensures
        "download"@.len() == 8,
        "parse"@.len() == 5,
        "-i"@.len() == 2,
        "-o"@.len() == 2,
        "-i"@ != "-o"@,
        forall|w: Seq<char>| #[trigger]
            is_option(w) ==> w != "download"@ && w != "parse"@ && w != "-i"@ && w != "-o"@,
        command_named("download"@) == Some(Command::Download),
        command_named("parse"@) == Some(Command::Parse),
{
    reveal_strlit("-h");
    reveal_strlit("--help");
    reveal_strlit("-v");
    reveal_strlit("--verbose");
    reveal_strlit("-vv");
    reveal_strlit("-vvv");
    reveal_strlit("-d");
    reveal_strlit("--device");
    reveal_strlit("-s");
    reveal_strlit("--speed");
    reveal_strlit("-i");
    reveal_strlit("-o");
    reveal_strlit("enumerate");
    reveal_strlit("init");
    reveal_strlit("tx");
    reveal_strlit("rx");
    reveal_strlit("discover");
    reveal_strlit("connect");
    reveal_strlit("download");
    reveal_strlit("parse");
    assert("enumerate"@.len() == 9 && "init"@.len() == 4 && "tx"@.len() == 2 && "rx"@.len() == 2
        && "discover"@.len() == 8 && "connect"@.len() == 7);
    assert("-i"@[1] == 'i' && "-o"@[1] == 'o' && "-h"@[1] == 'h' && "-v"@[1] == 'v' && "-d"@[1]
        == 'd' && "-s"@[1] == 's');
    assert("download"@[0] == 'd' && "--device"@[0] == '-' && "discover"@[1] == 'i'
        && "download"@[1] == 'o');
}

/// The words that are options other than the two with a path.
pub open spec fn is_option(w: Seq<char>) -> bool {
    w == "-h"@ || w == "--help"@ || w == "-v"@ || w == "--verbose"@ || w == "-vv"@ || w == "-vvv"@
        || w == "-d"@ || w == "--device"@ || w == "-s"@ || w == "--speed"@
}

/// The paths of a download and of a conversion are kept as they were given,
/// whatever they are.
pub proof fn paths_are_kept(from: Seq<char>, to: Seq<char>)
    ensures
        scan(seq!["download"@, "-o"@, to], defaults()) == Scan::Done(
            Options { command: Command::Download, output: Some(to), ..defaults() },
        ),
        scan(seq!["parse"@, "-i"@, from, "-o"@, to], defaults()) == Scan::Done(
            Options {
                command: Command::Parse,
                input: Some(from),
                output: Some(to),
                ..defaults()
            },
        ),
{
    words_differ();
    assert(!is_option("download"@) && !is_option("parse"@) && !is_option("-i"@) && !is_option(
        "-o"@,
    ));
    let none = Seq::<Seq<char>>::empty();
    let out = seq!["-o"@, to];
    let both = seq!["-i"@, from, "-o"@, to];
    assert(out.skip(1).skip(1) =~= none);
    assert(both.skip(1).skip(1) =~= out);
    assert(seq!["download"@, "-o"@, to].skip(1) =~= out);
    assert(seq!["parse"@, "-i"@, from, "-o"@, to].skip(1) =~= both);
    let d = Options { command: Command::Download, ..defaults() };
    let p = Options { command: Command::Parse, ..defaults() };
    let q = Options { input: Some(from), ..p };
    assert(scan(none, Options { output: Some(to), ..d }) is Done);
    assert(scan(none, Options { output: Some(to), ..q }) is Done);
    assert(scan(out, d) == scan(none, Options { output: Some(to), ..d }));
    assert(scan(out, q) == scan(none, Options { output: Some(to), ..q }));
    assert(scan(both, p) == scan(out, q));
}

spec fn word_key(w: Seq<char>) -> (int, char, char) {
    (w.len() as int, w[0], w[1])
}

proof fn word_keys()
    ensures
        word_key("-h"@) == (2int, '-', 'h'),
        word_key("--help"@) == (6int, '-', '-'),
        word_key("-v"@) == (2int, '-', 'v'),
        word_key("--verbose"@) == (9int, '-', '-'),
        word_key("-vv"@) == (3int, '-', 'v'),
        word_key("-vvv"@) == (4int, '-', 'v'),
        word_key("-d"@) == (2int, '-', 'd'),
        word_key("--device"@) == (8int, '-', '-'),
        word_key("-s"@) == (2int, '-', 's'),
        word_key("--speed"@) == (7int, '-', '-'),
        word_key("-i"@) == (2int, '-', 'i'),
        word_key("-o"@) == (2int, '-', 'o'),
        word_key("enumerate"@) == (9int, 'e', 'n'),
        word_key("init"@) == (4int, 'i', 'n'),
        word_key("tx"@) == (2int, 't', 'x'),
        word_key("rx"@) == (2int, 'r', 'x'),
        word_key("discover"@) == (8int, 'd', 'i'),
        word_key("connect"@) == (7int, 'c', 'o'),
        word_key("download"@) == (8int, 'd', 'o'),
        word_key("parse"@) == (5int, 'p', 'a'),
{
    reveal_strlit("-h");
    reveal_strlit("--help");
    reveal_strlit("-v");
    reveal_strlit("--verbose");
    reveal_strlit("-vv");
    reveal_strlit("-vvv");
    reveal_strlit("-d");
    reveal_strlit("--device");
    reveal_strlit("-s");
    reveal_strlit("--speed");
    reveal_strlit("-i");
    reveal_strlit("-o");
    reveal_strlit("enumerate");
    reveal_strlit("init");
    reveal_strlit("tx");
    reveal_strlit("rx");
    reveal_strlit("discover");
    reveal_strlit("connect");
    reveal_strlit("download");
    reveal_strlit("parse");
}

proof fn scan_goes_on(args: Seq<Seq<char>>, more: Seq<Seq<char>>, o: Options)
    requires
        scan(args, o) is Done,
    ensures
        scan(args + more, o) == scan(more, scan(args, o)->Done_0),
    decreases args.len(),
{
    if args.len() == 0 {
        assert(args + more =~= more);
    } else {
        let all = args + more;
        let arg = args[0];
        let rest = args.skip(1);
        assert(all[0] == arg);
        assert(all.skip(1) =~= rest + more);
        if arg == "-v"@ || arg == "--verbose"@ || arg == "-vv"@ || arg == "-vvv"@ {
            let n = if arg == "-vvv"@ {
                3
            } else if arg == "-vv"@ {
                2
            } else {
                1nat
            };
            scan_goes_on(rest, more, Options { verbosity: o.verbosity + n, ..o });
        } else if arg == "-d"@ || arg == "--device"@ {
            if let Ok((vid, pid)) = vid_pid(rest[0]) {
                assert((rest + more).skip(1) =~= rest.skip(1) + more);
                scan_goes_on(rest.skip(1), more, Options { vid, pid, ..o });
            }
        } else if arg == "-s"@ || arg == "--speed"@ {
            if let Some(speed) = number(rest[0], 10, u32::MAX as nat) {
                assert((rest + more).skip(1) =~= rest.skip(1) + more);
                scan_goes_on(rest.skip(1), more, Options { speed: speed as u32, ..o });
            }
        } else if arg == "-i"@ {
            assert((rest + more).skip(1) =~= rest.skip(1) + more);
            scan_goes_on(rest.skip(1), more, Options { input: Some(rest[0]), ..o });
        } else if arg == "-o"@ {
            assert((rest + more).skip(1) =~= rest.skip(1) + more);
            scan_goes_on(rest.skip(1), more, Options { output: Some(rest[0]), ..o });
        } else if let Some(command) = command_named(arg) {
            scan_goes_on(rest, more, Options { command, ..o });
        }
    }
}

/// Behind arguments that make sense, a command's word chooses that command and
/// changes nothing else.
pub proof fn words_choose_commands(args: Seq<Seq<char>>, o: Options)
    requires
        scan(args, defaults()) == Scan::Done(o),
    ensures
        scan(args + seq!["enumerate"@], defaults()) == Scan::Done(
            Options { command: Command::Enumerate, ..o },
        ),
        scan(args + seq!["init"@], defaults()) == Scan::Done(
            Options { command: Command::Init, ..o },
        ),
        scan(args + seq!["tx"@], defaults()) == Scan::Done(
            Options { command: Command::Transmit, ..o },
        ),
        scan(args + seq!["rx"@], defaults()) == Scan::Done(
            Options { command: Command::Receive, ..o },
        ),
        scan(args + seq!["discover"@], defaults()) == Scan::Done(
            Options { command: Command::Discover, ..o },
        ),
        scan(args + seq!["connect"@], defaults()) == Scan::Done(
            Options { command: Command::Connect, ..o },
        ),
        scan(args + seq!["download"@], defaults()) == Scan::Done(
            Options { command: Command::Download, ..o },
        ),
        scan(args + seq!["parse"@], defaults()) == Scan::Done(
            Options { command: Command::Parse, ..o },
        ),
{
    command_words();
    command_word(args, "enumerate"@, Command::Enumerate, o);
    command_word(args, "init"@, Command::Init, o);
    command_word(args, "tx"@, Command::Transmit, o);
    command_word(args, "rx"@, Command::Receive, o);
    command_word(args, "discover"@, Command::Discover, o);
    command_word(args, "connect"@, Command::Connect, o);
    command_word(args, "download"@, Command::Download, o);
    command_word(args, "parse"@, Command::Parse, o);
}

proof fn command_words()
    ensures
        takes_no_value("enumerate"@) && command_named("enumerate"@) == Some(Command::Enumerate),
        takes_no_value("init"@) && command_named("init"@) == Some(Command::Init),
        takes_no_value("tx"@) && command_named("tx"@) == Some(Command::Transmit),
        takes_no_value("rx"@) && command_named("rx"@) == Some(Command::Receive),
        takes_no_value("discover"@) && command_named("discover"@) == Some(Command::Discover),
        takes_no_value("connect"@) && command_named("connect"@) == Some(Command::Connect),
        takes_no_value("download"@) && command_named("download"@) == Some(Command::Download),
        takes_no_value("parse"@) && command_named("parse"@) == Some(Command::Parse),
{
    word_keys();
}

spec fn takes_no_value(w: Seq<char>) -> bool {
    !is_option(w) && w != "-i"@ && w != "-o"@
}

proof fn command_word(args: Seq<Seq<char>>, word: Seq<char>, command: Command, o: Options)
    requires
        scan(args, defaults()) == Scan::Done(o),
        takes_no_value(word),
        command_named(word) == Some(command),
    ensures
        scan(args + seq![word], defaults()) == Scan::Done(Options { command, ..o }),
{
    let after = Options { command, ..o };
    one_word(args, word, o);
    assert(scan(Seq::empty(), after) == Scan::Done(after));
    assert(seq![word][0] == word);
}

proof fn verbose_word(args: Seq<Seq<char>>, word: Seq<char>, more: nat, o: Options)
    requires
        scan(args, defaults()) == Scan::Done(o),
        word != "-h"@ && word != "--help"@,
        word == "-v"@ || word == "--verbose"@ || word == "-vv"@ || word == "-vvv"@,
        more == (if word == "-vvv"@ {
            3nat
        } else if word == "-vv"@ {
            2
        } else {
            1
        }),
    ensures
        scan(args + seq![word], defaults()) == (if o.verbosity + more > 255 {
            Scan::TooVerbose
        } else {
            Scan::Done(Options { verbosity: o.verbosity + more, ..o })
        }),
{
    let after = Options { verbosity: o.verbosity + more, ..o };
    one_word(args, word, o);
    assert(scan(Seq::empty(), after) == Scan::Done(after));
    assert(seq![word][0] == word);
}

spec fn is_flag(w: Seq<char>) -> bool {
    w == "-h"@ || w == "--help"@ || w == "-v"@ || w == "--verbose"@ || w == "-vv"@ || w == "-vvv"@
}

proof fn value_words()
    ensures
        !is_flag("-d"@) && !is_flag("--device"@) && !is_flag("-s"@) && !is_flag("--speed"@)
            && !is_flag("-i"@) && !is_flag("-o"@),
        "-s"@ != "-d"@ && "-s"@ != "--device"@ && "--speed"@ != "-d"@ && "--speed"@ != "--device"@,
        !is_option("-i"@) && !is_option("-o"@) && "-o"@ != "-i"@,
{
    word_keys();
}

proof fn value_word(args: Seq<Seq<char>>, word: Seq<char>, value: Seq<char>, o: Options, p: Options)
    requires
        scan(args, defaults()) == Scan::Done(o),
        !is_flag(word),
        ({
            ||| word == "-d"@ || word == "--device"@
            ||| word != "-d"@ && word != "--device"@ && (word == "-s"@ || word == "--speed"@)
            ||| !is_option(word) && word == "-i"@ && word != "-o"@
            ||| !is_option(word) && word == "-o"@ && word != "-i"@
        }),
        word == "-d"@ || word == "--device"@ ==> (vid_pid(value) matches Ok(ids) && p == (Options {
            vid: ids.0,
            pid: ids.1,
            ..o
        })),
        word == "-s"@ || word == "--speed"@ ==> (number(value, 10, u32::MAX as nat) matches Some(n)
            && p == (Options { speed: n as u32, ..o })),
        word == "-i"@ ==> p == (Options { input: Some(value), ..o }),
        word == "-o"@ ==> p == (Options { output: Some(value), ..o }),
    ensures
        scan(args + seq![word, value], defaults()) == Scan::Done(p),
{
    two_words(args, word, value, o);
    assert(scan(Seq::empty(), p) == Scan::Done(p));
    assert(seq![word, value][0] == word);
    assert(seq![word, value].skip(1)[0] == value);
}

proof fn device_without_value(args: Seq<Seq<char>>, word: Seq<char>, o: Options)
    requires
        scan(args, defaults()) == Scan::Done(o),
        !is_flag(word),
        word == "-d"@ || word == "--device"@,
    ensures
        scan(args + seq![word], defaults()) == Scan::Failed("--device requires a VID:PID argument"@),
{
    one_word(args, word, o);
    assert(seq![word][0] == word);
}

proof fn speed_without_value(args: Seq<Seq<char>>, word: Seq<char>, o: Options)
    requires
        scan(args, defaults()) == Scan::Done(o),
        !is_flag(word),
        word != "-d"@ && word != "--device"@,
        word == "-s"@ || word == "--speed"@,
    ensures
        scan(args + seq![word], defaults()) == Scan::Failed("--speed requires a BAUD argument"@),
{
    one_word(args, word, o);
    assert(seq![word][0] == word);
}

proof fn input_without_value(args: Seq<Seq<char>>, word: Seq<char>, o: Options)
    requires
        scan(args, defaults()) == Scan::Done(o),
        !is_flag(word),
        !is_option(word) && word == "-i"@,
    ensures
        scan(args + seq![word], defaults()) == Scan::Failed("-i requires a FILE argument"@),
{
    one_word(args, word, o);
    assert(seq![word][0] == word);
}

proof fn output_without_value(args: Seq<Seq<char>>, word: Seq<char>, o: Options)
    requires
        scan(args, defaults()) == Scan::Done(o),
        !is_flag(word),
        !is_option(word) && word != "-i"@ && word == "-o"@,
    ensures
        scan(args + seq![word], defaults()) == Scan::Failed("-o requires a FILE argument"@),
{
    one_word(args, word, o);
    assert(seq![word][0] == word);
}

proof fn one_word(args: Seq<Seq<char>>, word: Seq<char>, o: Options)
    requires
        scan(args, defaults()) == Scan::Done(o),
    ensures
        scan(args + seq![word], defaults()) == scan(seq![word], o),
        seq![word].skip(1) == Seq::<Seq<char>>::empty(),
        forall|p: Options| #[trigger] scan(Seq::empty(), p) == Scan::Done(p),
{
    scan_goes_on(args, seq![word], defaults());
    assert(seq![word].skip(1) =~= Seq::empty());
}

proof fn two_words(args: Seq<Seq<char>>, word: Seq<char>, value: Seq<char>, o: Options)
    requires
        scan(args, defaults()) == Scan::Done(o),
    ensures
        scan(args + seq![word, value], defaults()) == scan(seq![word, value], o),
        seq![word, value].skip(1) == seq![value],
        seq![word, value].skip(1).skip(1) == Seq::<Seq<char>>::empty(),
        forall|p: Options| #[trigger] scan(Seq::empty(), p) == Scan::Done(p),
{
    scan_goes_on(args, seq![word, value], defaults());
    assert(seq![word, value].skip(1) =~= seq![value]);
    assert(seq![value].skip(1) =~= Seq::empty());
}

/// Behind arguments that make sense, each of the flags has its own effect: the
/// help is shown, or the verbosity grows by one, two or three as long as it stays
/// below 256.
pub proof fn flags_have_their_effect(args: Seq<Seq<char>>, o: Options)
    requires
        scan(args, defaults()) == Scan::Done(o),
    ensures
        scan(args + seq!["-h"@], defaults()) is Help,
        scan(args + seq!["--help"@], defaults()) is Help,
        ({
            let one = if o.verbosity < 255 {
                Scan::Done(Options { verbosity: o.verbosity + 1, ..o })
            } else {
                Scan::TooVerbose
            };
            &&& scan(args + seq!["-v"@], defaults()) == one
            &&& scan(args + seq!["--verbose"@], defaults()) == one
        }),
        scan(args + seq!["-vv"@], defaults()) == (if o.verbosity < 254 {
            Scan::Done(Options { verbosity: o.verbosity + 2, ..o })
        } else {
            Scan::TooVerbose
        }),
        scan(args + seq!["-vvv"@], defaults()) == (if o.verbosity < 253 {
            Scan::Done(Options { verbosity: o.verbosity + 3, ..o })
        } else {
            Scan::TooVerbose
        }),
{
    word_keys();
    one_word(args, "-h"@, o);
    one_word(args, "--help"@, o);
    assert(seq!["-h"@][0] == "-h"@ && seq!["--help"@][0] == "--help"@);
    verbose_word(args, "-v"@, 1, o);
    verbose_word(args, "--verbose"@, 1, o);
    verbose_word(args, "-vv"@, 2, o);
    verbose_word(args, "-vvv"@, 3, o);
}

/// Behind arguments that make sense, each option with a value sets what it names
/// and nothing else: the device by its two numbers, the speed by its decimal
/// digits, the files by their paths. Without its value it is refused.
pub proof fn options_set_their_value(
    args: Seq<Seq<char>>,
    o: Options,
    vid: u16,
    pid: u16,
    speed: u32,
    path: Seq<char>,
)
    requires
        scan(args, defaults()) == Scan::Done(o),
    ensures
        ({
            let ids = text::zero_hex(vid as nat, 4) + ":"@ + text::zero_hex(pid as nat, 4);
            let device = Scan::Done(Options { vid, pid, ..o });
            let baud = Scan::Done(Options { speed, ..o });
            let digits = text::decimal(speed as nat);
            &&& scan(args + seq!["-d"@, ids], defaults()) == device
            &&& scan(args + seq!["--device"@, ids], defaults()) == device
            &&& scan(args + seq!["-s"@, digits], defaults()) == baud
            &&& scan(args + seq!["--speed"@, digits], defaults()) == baud
        }),
        scan(args + seq!["-i"@, path], defaults()) == Scan::Done(
            Options { input: Some(path), ..o },
        ),
        scan(args + seq!["-o"@, path], defaults()) == Scan::Done(
            Options { output: Some(path), ..o },
        ),
        scan(args + seq!["-d"@], defaults()) == Scan::Failed("--device requires a VID:PID argument"@),
        scan(args + seq!["--device"@], defaults()) == Scan::Failed("--device requires a VID:PID argument"@),
        scan(args + seq!["-s"@], defaults()) == Scan::Failed("--speed requires a BAUD argument"@),
        scan(args + seq!["--speed"@], defaults()) == Scan::Failed("--speed requires a BAUD argument"@),
        scan(args + seq!["-i"@], defaults()) == Scan::Failed("-i requires a FILE argument"@),
        scan(args + seq!["-o"@], defaults()) == Scan::Failed("-o requires a FILE argument"@),
{
    value_words();
    let ids = usb::id_pair(vid, pid);
    let digits = text::decimal(speed as nat);
    shown_ids_read_back(vid, pid);
    decimal_digits_are_read(speed as nat, u32::MAX as nat);
    value_word(args, "-d"@, ids, o, Options { vid, pid, ..o });
    value_word(args, "--device"@, ids, o, Options { vid, pid, ..o });
    value_word(args, "-s"@, digits, o, Options { speed, ..o });
    value_word(args, "--speed"@, digits, o, Options { speed, ..o });
    value_word(args, "-i"@, path, o, Options { input: Some(path), ..o });
    value_word(args, "-o"@, path, o, Options { output: Some(path), ..o });
    device_without_value(args, "-d"@, o);
    device_without_value(args, "--device"@, o);
    speed_without_value(args, "-s"@, o);
    speed_without_value(args, "--speed"@, o);
    input_without_value(args, "-i"@, o);
    output_without_value(args, "-o"@, o);
}

/// An argument that is none of the known words is refused, and the message shows
/// it.
pub proof fn unknown_words_are_refused(args: Seq<Seq<char>>, o: Options, word: Seq<char>)
    requires
        scan(args, defaults()) == Scan::Done(o),
        word != "-h"@,
        word != "--help"@,
        word != "-v"@,
        word != "--verbose"@,
        word != "-vv"@,
        word != "-vvv"@,
        word != "-d"@,
        word != "--device"@,
        word != "-s"@,
        word != "--speed"@,
        word != "-i"@,
        word != "-o"@,
        word != "enumerate"@,
        word != "init"@,
        word != "tx"@,
        word != "rx"@,
        word != "discover"@,
        word != "connect"@,
        word != "download"@,
        word != "parse"@,
    ensures
        scan(args + seq![word], defaults()) == Scan::Failed("unknown argument: "@ + word),
{
    one_word(args, word, o);
}

/// An empty command line shows the descriptors of the dongle 066f:4200, with a
/// speed of 9600 baud and no file. One verbosity flag shows debug messages, more
/// show everything.
pub proof fn command_lines_become_requests(args: Seq<Seq<char>>, o: Options)
    requires
        scan(args, defaults()) == Scan::Done(o),
    ensures
        args.len() == 0 ==> {
            &&& o.vid == 0x066f && o.pid == 0x4200 && o.speed == 9600
            &&& o.command == Command::Enumerate && o.verbosity == 0
            &&& o.input is None && o.output is None
        },
        command_line(args) matches Some(Ok(ParsedView::Run(r))) && {
            &&& r.vid == o.vid && r.pid == o.pid && r.speed == o.speed && r.command == o.command
            &&& r.input == o.input && r.output == o.output
            &&& r.level == Level::Info <==> o.verbosity == 0
            &&& r.level == Level::Debug <==> o.verbosity == 1
            &&& r.level == Level::Trace <==> o.verbosity >= 2
        },
{
}

proof fn decimal_digits_are_read(n: nat, max: nat)
    ensures
        number(text::decimal(n), 10, max) == (if n <= max {
            Some(n)
        } else {
            None
        }),
{
    text::decimal_reads_back(n);
    decimal_numbers_are_read(text::decimal(n), max);
}

proof fn digits_have_their_value(s: Seq<char>)
    ensures
        (forall|i: int| 0 <= i < s.len() ==> text::is_decimal_digit(#[trigger] s[i])) ==> digits_value(
            s,
            10,
        ) == Some(text::decimal_value(s)),
        digits_value(s, 10) is Some ==> forall|i: int|
            0 <= i < s.len() ==> text::is_decimal_digit(#[trigger] s[i]),
    decreases s.len(),
{
    if s.len() > 0 {
        let init = s.drop_last();
        digits_have_their_value(init);
        assert forall|i: int|
            0 <= i < s.len() && digits_value(s, 10) is Some implies text::is_decimal_digit(
            #[trigger] s[i],
        ) by {
            if i < init.len() {
                assert(init[i] == s[i]);
            }
        }
        if forall|i: int| 0 <= i < s.len() ==> text::is_decimal_digit(#[trigger] s[i]) {
            assert forall|i: int| 0 <= i < init.len() implies text::is_decimal_digit(
                #[trigger] init[i],
            ) by {
                assert(init[i] == s[i]);
            }
            assert(text::is_decimal_digit(s[s.len() - 1]));
        }
    }
}

/// A decimal number is read exactly if it is made of digits only, at least one of
/// them, which a plus sign may precede, and if it is not too large; it is then
/// what its digits stand for.
pub proof fn decimal_numbers_are_read(s: Seq<char>, max: nat)
    ensures
        s.len() > 0 && s[0] == '+' ==> number(s, 10, max) == (if s.len() > 1 && s[1] == '+' {
            None
        } else {
            number(s.skip(1), 10, max)
        }),
        s.len() == 0 ==> number(s, 10, max) is None,
        s.len() > 0 && (forall|i: int| 0 <= i < s.len() ==> text::is_decimal_digit(#[trigger] s[i]))
            ==> number(s, 10, max) == (if text::decimal_value(s) <= max {
            Some(text::decimal_value(s))
        } else {
            None
        }),
        (exists|i: int|
            0 < i < s.len() && !text::is_decimal_digit(#[trigger] s[i])) ==> number(s, 10, max) is None,
        s.len() > 0 && s[0] != '+' && !text::is_decimal_digit(s[0]) ==> number(s, 10, max) is None,
{
    digits_have_their_value(s);
    digits_have_their_value(s.skip(1));
    if s.len() > 1 && s[0] == '+' && s[1] == '+' {
        assert(!text::is_decimal_digit(s.skip(1)[0]));
    }
    assert(s.len() > 1 ==> s.skip(1)[0] == s[1]);
    if exists|i: int| 0 < i < s.len() && !text::is_decimal_digit(#[trigger] s[i]) {
        let i = choose|i: int| 0 < i < s.len() && !text::is_decimal_digit(#[trigger] s[i]);
        assert(!text::is_decimal_digit(s.skip(1)[i - 1]));
    }
    if s.len() > 0 && forall|i: int| 0 <= i < s.len() ==> text::is_decimal_digit(#[trigger] s[i]) {
        assert(text::is_decimal_digit(s[0]));
    }
}

/// Hexadecimal digits are read in either case: the ten decimal digits and the
/// letters a to f, and nothing else.
pub proof fn hexadecimal_digits_are_read(c: char)
    ensures
        text::is_hex_digit(c) ==> digit_value(c, 16) == Some(text::hex_digit_value(c) as nat),
        'A' <= c && c <= 'F' ==> digit_value(c, 16) == Some((c as int - 65 + 10) as nat),
        !text::is_hex_digit(c) && !('A' <= c && c <= 'F') ==> digit_value(c, 16) is None,
{
}

/// Numbers of a device may be marked as hexadecimal; both have to be there, with
/// a colon between them.
pub proof fn marks_are_ignored(s: Seq<char>)
    ensures
        unmarked("0x"@ + s) == unmarked(s),
        (forall|i: int| 0 <= i < s.len() ==> #[trigger] s[i] != ':') ==> vid_pid(s) is Err,
{
    reveal_strlit("0x");
    assert(("0x"@ + s).skip(2) =~= s);
    if forall|i: int| 0 <= i < s.len() ==> #[trigger] s[i] != ':' {
        colon_is_first(s, s.len() as int);
    }
}

/// Two texts with a colon between them are read as a device, or the message quotes
/// the one that is no number.
pub proof fn bad_ids_are_quoted(v: Seq<char>, p: Seq<char>)
    requires
        forall|i: int| 0 <= i < v.len() ==> #[trigger] v[i] != ':',
    ensures
        vid_pid(v) == Err::<(u16, u16), _>("expected VID:PID, got '"@ + v + "'"@),
        ({
            let vid = number(unmarked(v), 16, 0xffff);
            let pid = number(unmarked(p), 16, 0xffff);
            let r = vid_pid(v + ":"@ + p);
            &&& vid is None ==> r == Err::<(u16, u16), _>("bad VID '"@ + v + "'"@)
            &&& vid is Some && pid is None ==> r == Err::<(u16, u16), _>("bad PID '"@ + p + "'"@)
            &&& vid is Some && pid is Some ==> r == Ok::<_, Seq<char>>(
                (vid->0 as u16, pid->0 as u16),
            )
        }),
{
    reveal_strlit(":");
    let s = v + ":"@ + p;
    colon_is_first(v, v.len() as int);
    assert forall|k: int| 0 <= k < v.len() implies s[k] != ':' by {
        assert(s[k] == v[k]);
    }
    colon_is_first(s, v.len() as int);
    assert(s.take(v.len() as int) =~= v);
    assert(s.skip(v.len() as int + 1) =~= p);
}

/// Behind arguments that make sense, a speed that is no number is quoted in the
/// message, and so is a device that cannot be read.
pub proof fn bad_values_are_refused(args: Seq<Seq<char>>, o: Options, value: Seq<char>)
    requires
        scan(args, defaults()) == Scan::Done(o),
    ensures
        number(value, 10, u32::MAX as nat) is None ==> scan(args + seq!["-s"@, value], defaults())
            == Scan::Failed("bad speed '"@ + value + "'"@),
        vid_pid(value) matches Err(e) ==> scan(args + seq!["-d"@, value], defaults())
            == Scan::Failed(e),
{
    value_words();
    two_words(args, "-s"@, value, o);
    two_words(args, "-d"@, value, o);
    assert(seq!["-s"@, value][0] == "-s"@ && seq!["-d"@, value][0] == "-d"@);
    assert(seq!["-s"@, value].skip(1)[0] == value && seq!["-d"@, value].skip(1)[0] == value);
}

} // verus!
