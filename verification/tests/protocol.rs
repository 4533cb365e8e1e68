use laser::events::{Event, EventCommand};
use laser::protocol::{clean_line, react, react_to};

fn data(s: &str) -> Event {
    Event::Data(s.to_string())
}

fn input(s: &str) -> Event {
    Event::Input(s.to_string())
}

#[test]
fn end_of_input_quits() {
    let r = react(&Event::EOF);
    assert_eq!(r.output, "End of file - exiting.\n");
    assert_eq!(r.command, Some(EventCommand::Quit));
    assert!(r.stop);
    assert!(r.write.is_none());
}

#[test]
fn start_banner_asks_for_next_line() {
    let r = react(&data("start\n"));
    assert_eq!(r.output, "< start\n");
    assert_eq!(r.command, Some(EventCommand::Next));
    assert!(!r.stop);
}

#[test]
fn ok_asks_for_next_line() {
    let r = react(&data("  ok\r\n"));
    assert_eq!(r.output, "<   ok\r\n");
    assert_eq!(r.command, Some(EventCommand::Next));
    assert!(!r.stop);
    assert!(r.write.is_none());
}

#[test]
fn other_device_line_is_only_echoed() {
    let r = react(&data("X:0.00 Y:0.00\n"));
    assert_eq!(r.output, "< X:0.00 Y:0.00\n");
    assert_eq!(r.command, None);
    assert!(!r.stop);
}

#[test]
fn okay_is_not_ok() {
    let r = react(&data("okay\n"));
    assert_eq!(r.command, None);
}

#[test]
fn error_report_ends_the_session() {
    let r = react(&data("error:22 Error: bad number\n"));
    assert_eq!(
        r.output,
        "< error:22 Error: bad number\n\nError occured while processing command\nExiting\n"
    );
    assert_eq!(r.command, Some(EventCommand::Quit));
    assert!(r.stop);
}

#[test]
fn lower_case_error_is_not_an_error_report() {
    let r = react(&data("error: bad\n"));
    assert!(!r.stop);
    assert_eq!(r.command, None);
}

#[test]
fn error_inside_start_banner_line_is_not_checked() {
    let r = react(&data(" start "));
    assert_eq!(r.command, Some(EventCommand::Next));
}

#[test]
fn error_check_given_from_outside() {
    let r = react_to(&data("anything"), true);
    assert!(r.stop);
    let r = react_to(&data("anything"), false);
    assert!(!r.stop);
}

#[test]
fn quit_input_stops() {
    let r = react(&input(":q"));
    assert_eq!(r.output, "");
    assert_eq!(r.command, Some(EventCommand::Quit));
    assert!(r.stop);
    assert!(r.write.is_none());
}

#[test]
fn comment_and_empty_lines_are_skipped() {
    for line in [";comment", ";;", ""] {
        let r = react(&input(line));
        assert_eq!(r.command, Some(EventCommand::Next));
        assert!(r.write.is_none());
        assert!(!r.stop);
        assert_eq!(r.output, "");
    }
}

#[test]
fn lone_semicolon_is_sent() {
    let r = react(&input(";"));
    assert_eq!(r.write, Some(";\n".to_string()));
    assert_eq!(r.output, "> ;\n");
    assert_eq!(r.command, None);
}

#[test]
fn command_line_is_written_to_device() {
    let r = react(&input("G1 X10 Y5"));
    assert_eq!(r.write, Some("G1 X10 Y5\n".to_string()));
    assert_eq!(r.output, "> G1 X10 Y5\n");
    assert_eq!(r.command, None);
    assert!(!r.stop);
}

#[test]
fn stop_goes_with_quit() {
    let events = vec![
        Event::EOF,
        data("start"),
        data("ok"),
        data("Error"),
        data("hello"),
        input(":q"),
        input(";x"),
        input(""),
        input("M3"),
    ];
    for e in events.iter() {
        let r = react(e);
        assert_eq!(r.stop, r.command == Some(EventCommand::Quit));
    }
}

#[test]
fn clean_line_strips_nul_characters() {
    assert_eq!(clean_line("\0\0ok\n\0"), Some("ok\n".to_string()));
    assert_eq!(clean_line("\0\0"), None);
    assert_eq!(clean_line(""), None);
    assert_eq!(clean_line("a\0b"), Some("a\0b".to_string()));
    assert_eq!(clean_line(" ok "), Some(" ok ".to_string()));
}

use laser::input_handler::{answer_command, Round};
use std::collections::VecDeque;
use std::io::BufRead;

/// Runs a whole session against a device that opens with `start` and
/// answers every line with `ok`; gives what was written and what was printed.
fn session(input: &'static str) -> (String, String) {
    let mut lines = input.as_bytes().lines();
    let mut queue = VecDeque::new();
    queue.push_back(data("start\n"));
    let mut written = String::new();
    let mut printed = String::new();
    while let Some(ev) = queue.pop_front() {
        let r = react(&ev);
        printed.push_str(&r.output);
        if let Some(w) = &r.write {
            written.push_str(w);
            queue.push_back(data("ok\n"));
        }
        if r.command == Some(EventCommand::Next) {
            match answer_command(EventCommand::Next, || lines.next().map(|l| l.unwrap())) {
                Round::Send(e) => queue.push_back(e),
                other => panic!("unexpected {:?}", other),
            }
        }
        if r.stop {
            break;
        }
    }
    (written, printed)
}

#[test]
fn whole_session_writes_plain_lines_up_to_quit() {
    let (written, printed) = session("G0 X1\n;comment\n\nM3\n:q\nG1\n");
    assert_eq!(written, "G0 X1\nM3\n");
    assert!(!printed.contains("End of file"));
}

#[test]
fn whole_session_to_end_of_file() {
    let (written, printed) = session("G0\n;\nM5");
    assert_eq!(written, "G0\n;\nM5\n");
    assert!(printed.ends_with("End of file - exiting.\n"));
}

#[test]
fn writes_never_outrun_acknowledgements() {
    // The device acknowledges only once: one line is written, and the
    // session waits for the next `ok` before writing again.
    let mut lines = "G0\nG1\n".as_bytes().lines();
    let r = react(&data("start"));
    assert_eq!(r.command, Some(EventCommand::Next));
    let ev = match answer_command(EventCommand::Next, || lines.next().map(|l| l.unwrap())) {
        Round::Send(e) => e,
        other => panic!("unexpected {:?}", other),
    };
    let r = react(&ev);
    assert_eq!(r.write, Some("G0\n".to_string()));
    assert_eq!(r.command, None);
}

#[test]
fn error_anywhere_in_device_line_is_an_error_report() {
    assert!(react(&data("xxErrorxx")).stop);
    assert!(!react(&data("Erro r")).stop);
    assert!(react(&data("ok Error\n")).stop);
}
