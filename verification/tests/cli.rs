use stir4200::cli::{parse_args, parse_vid_pid, try_parse_args, Args, Command, Parsed};
use stir4200::logging::Level;
use stir4200::usb::id_text;

fn line(words: &[&str]) -> Vec<String> {
    words.iter().map(|w| w.to_string()).collect()
}

fn run(words: &[&str]) -> Args {
    match parse_args(&line(words)) {
        Ok(Parsed::Run(a)) => a,
        other => panic!("{other:?}"),
    }
}

fn error(words: &[&str]) -> String {
    parse_args(&line(words)).unwrap_err()
}

#[test]
fn defaults_apply() {
    assert_eq!(
        run(&[]),
        Args {
            level: Level::Info,
            vid: 0x066f,
            pid: 0x4200,
            speed: 9600,
            command: Command::Enumerate,
            input: None,
            output: None
        }
    );
}

#[test]
fn options_are_read() {
    let a = run(&["init", "-s", "115200", "--device", "0x1234:ABCD", "-v"]);
    assert_eq!(
        a,
        Args {
            level: Level::Debug,
            vid: 0x1234,
            pid: 0xabcd,
            speed: 115200,
            command: Command::Init,
            input: None,
            output: None
        }
    );
    let a = run(&["init", "enumerate", "--speed", "+2400", "-d", "1:2"]);
    assert_eq!((a.command, a.speed, a.vid, a.pid), (Command::Enumerate, 2400, 1, 2));
}

#[test]
fn every_command_has_its_word() {
    for (word, command) in [
        ("enumerate", Command::Enumerate),
        ("init", Command::Init),
        ("tx", Command::Transmit),
        ("rx", Command::Receive),
        ("discover", Command::Discover),
        ("connect", Command::Connect),
        ("download", Command::Download),
        ("parse", Command::Parse),
    ] {
        let a = run(&[word, "-v"]);
        assert_eq!((a.command, a.level), (command, Level::Debug));
        assert_eq!((a.input, a.output), (None, None));
    }
}

#[test]
fn paths_stay_as_given() {
    let a = run(&["download", "-o", "dump.bin"]);
    assert_eq!(a.command, Command::Download);
    assert_eq!((a.input, a.output), (None, Some("dump.bin".to_string())));
    let a = run(&["parse", "-i", "dump.bin", "-o", "dives.xml"]);
    assert_eq!(a.command, Command::Parse);
    assert_eq!(
        (a.input.as_deref(), a.output.as_deref()),
        (Some("dump.bin"), Some("dives.xml"))
    );
    let a = run(&["-o", "-i", "-i", "", "-o", "é x"]);
    assert_eq!((a.input.as_deref(), a.output.as_deref()), (Some(""), Some("é x")));
}

#[test]
fn verbosity_adds_up() {
    assert_eq!(run(&["--verbose"]).level, Level::Debug);
    assert_eq!(run(&["-v", "-v"]).level, Level::Trace);
    assert_eq!(run(&["-vv"]).level, Level::Trace);
    assert_eq!(run(&["-vvv"]).level, Level::Trace);
}

#[test]
fn help_ends_the_reading() {
    assert_eq!(parse_args(&line(&["-h", "nonsense"])), Ok(Parsed::Help));
    assert_eq!(parse_args(&line(&["-v", "--help"])), Ok(Parsed::Help));
    assert_eq!(error(&["nonsense", "-h"]), "unknown argument: nonsense");
}

#[test]
fn wrong_lines_are_refused() {
    assert_eq!(error(&["-d"]), "--device requires a VID:PID argument");
    assert_eq!(error(&["--speed"]), "--speed requires a BAUD argument");
    assert_eq!(error(&["-s", "fast"]), "bad speed 'fast'");
    assert_eq!(error(&["-s", "4294967296"]), "bad speed '4294967296'");
    assert_eq!(error(&["-s", "-1"]), "bad speed '-1'");
    assert_eq!(error(&["-s", ""]), "bad speed ''");
    assert_eq!(error(&["-d", "12"]), "expected VID:PID, got '12'");
    assert_eq!(error(&["-i"]), "-i requires a FILE argument");
    assert_eq!(error(&["parse", "-o"]), "-o requires a FILE argument");
    assert_eq!(error(&["send"]), "unknown argument: send");
    assert_eq!(error(&["TX"]), "unknown argument: TX");
    assert_eq!(error(&["-vvvv"]), "unknown argument: -vvvv");
}

#[test]
fn verbosity_beyond_counting() {
    let mut words = vec!["-vvv"; 85];
    assert!(try_parse_args(&line(&words)).is_some());
    words.push("-v");
    assert!(try_parse_args(&line(&words)).is_none());
}

#[test]
fn ids_are_hexadecimal() {
    assert_eq!(parse_vid_pid("066f:4200"), Ok((0x066f, 0x4200)));
    assert_eq!(parse_vid_pid("0x066f:0x4200"), Ok((0x066f, 0x4200)));
    assert_eq!(parse_vid_pid("0x0x1:+Ff"), Ok((1, 0xff)));
    assert_eq!(parse_vid_pid("00000ffff:0"), Ok((0xffff, 0)));
    assert_eq!(parse_vid_pid("10000:0"), Err("bad VID '10000'".to_string()));
    assert_eq!(parse_vid_pid("0x:0"), Err("bad VID '0x'".to_string()));
    assert_eq!(parse_vid_pid("1:"), Err("bad PID ''".to_string()));
    assert_eq!(parse_vid_pid("1:2:3"), Err("bad PID '2:3'".to_string()));
    assert_eq!(parse_vid_pid("1:-2"), Err("bad PID '-2'".to_string()));
    assert_eq!(parse_vid_pid("1:+"), Err("bad PID '+'".to_string()));
    assert_eq!(parse_vid_pid("0X1:2"), Err("bad VID '0X1'".to_string()));
    assert_eq!(parse_vid_pid("ü:2"), Err("bad VID 'ü'".to_string()));
    assert_eq!(
        parse_vid_pid("nothing"),
        Err("expected VID:PID, got 'nothing'".to_string())
    );
}

#[test]
fn ids_agree_with_the_standard_reading() {
    for s in ["0", "+0", "++0", "7fff", "FFFF", "10000", "g", " 1", "1 ", "+", "", "aBcD"] {
        let expected = u16::from_str_radix(s, 16);
        assert_eq!(parse_vid_pid(&format!("{s}:1")).is_ok(), expected.is_ok());
        if let Ok(v) = expected {
            assert_eq!(parse_vid_pid(&format!("{s}:1")), Ok((v, 1)));
        }
        let speed: Result<u32, _> = s.parse();
        let parsed = parse_args(&line(&["-s", s]));
        assert_eq!(parsed.is_ok(), speed.is_ok());
    }
}

#[test]
fn shown_ids_are_read_back() {
    for id in [0, 1, 0x10, 0xfff, 0x066f, 0xffff] {
        assert_eq!(parse_vid_pid(&id_text(id, 0x4200)), Ok((id, 0x4200)));
    }
}
