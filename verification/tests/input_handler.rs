use laser::events::{Event, EventCommand};
use laser::input_handler::{answer_command, command_round, line_event, InputHandler, Round};
use std::io::BufRead;
use std::sync::mpsc::{channel, Receiver};

type Lines = std::io::Lines<&'static [u8]>;

fn lines_of(s: &'static str) -> Lines {
    s.as_bytes().lines()
}

fn read(lines: &mut Lines) -> impl FnOnce() -> Option<String> + '_ {
    move || lines.next().map(|l| l.unwrap())
}

/// Runs the input side until it stops, delivering each event.
fn run(handler: &InputHandler, input: &mut Lines) -> Vec<String> {
    let mut rounds = Vec::new();
    loop {
        let r = handler.handle_commands(read(input));
        rounds.push(format!("{:?}", r));
        let go = r.keep_going();
        if let Round::Send(ev) = r {
            assert!(handler.deliver(ev));
        }
        if !go {
            break;
        }
    }
    rounds
}

fn events(erx: &Receiver<Event>) -> Vec<String> {
    erx.try_iter().map(|e| format!("{:?}", e)).collect()
}

#[test]
fn line_event_wraps_line_or_end() {
    match line_event(Some("G0".to_string())) {
        Event::Input(l) => assert_eq!(l, "G0"),
        _ => panic!("expected input"),
    }
    assert!(matches!(line_event(None), Event::EOF));
}

#[test]
fn quit_is_answered_without_reading() {
    let mut lines = lines_of("a\n");
    assert!(matches!(answer_command(EventCommand::Quit, read(&mut lines)), Round::Quit));
    assert_eq!(lines.next().map(|l| l.unwrap()), Some("a".to_string()));
}

#[test]
fn next_takes_one_line() {
    let mut lines = lines_of("a\nb\n");
    assert!(matches!(answer_command(EventCommand::Next, read(&mut lines)), Round::Send(Event::Input(l)) if l == "a"));
    assert_eq!(lines.next().map(|l| l.unwrap()), Some("b".to_string()));
    assert!(matches!(answer_command(EventCommand::Next, read(&mut lines)), Round::Send(Event::EOF)));
}

#[test]
fn next_sends_lines_then_end() {
    let (etx, erx) = channel();
    let (ctx, crx) = channel();
    for c in [EventCommand::Next, EventCommand::Next, EventCommand::Next, EventCommand::Next, EventCommand::Quit] {
        ctx.send(c).unwrap();
    }
    let handler = InputHandler::new(etx, crx, None);
    assert!(handler.path().is_none());
    let mut input = lines_of("G0 X1\nM5");
    let rounds = run(&handler, &mut input);
    assert_eq!(rounds.len(), 5);
    assert_eq!(
        events(&erx),
        vec!["Input(\"G0 X1\")", "Input(\"M5\")", "EOF", "EOF"]
    );
}

#[test]
fn comments_and_empty_lines_pass_through() {
    let (etx, erx) = channel();
    let (ctx, crx) = channel();
    for _ in 0..5 {
        ctx.send(EventCommand::Next).unwrap();
    }
    ctx.send(EventCommand::Quit).unwrap();
    let handler = InputHandler::new(etx, crx, None);
    let mut input = lines_of("G0\r\n;c\n\nM3\n");
    run(&handler, &mut input);
    assert_eq!(
        events(&erx),
        vec!["Input(\"G0\")", "Input(\";c\")", "Input(\"\")", "Input(\"M3\")", "EOF"]
    );
}

#[test]
fn quit_first_sends_nothing_and_reads_nothing() {
    let (etx, erx) = channel();
    let (ctx, crx) = channel();
    ctx.send(EventCommand::Quit).unwrap();
    ctx.send(EventCommand::Next).unwrap();
    let handler = InputHandler::new(etx, crx, None);
    let mut input = lines_of("G0\n");
    assert_eq!(run(&handler, &mut input), vec!["Quit"]);
    assert!(events(&erx).is_empty());
    assert_eq!(input.next().map(|l| l.unwrap()), Some("G0".to_string()));
}

#[test]
fn closed_command_channel_ends_rounds() {
    let (etx, _erx) = channel();
    let (ctx, crx) = channel::<EventCommand>();
    drop(ctx);
    let handler = InputHandler::new(etx, crx, Some(std::path::PathBuf::from("cmds.gcode")));
    assert_eq!(handler.path().as_ref().unwrap().to_str(), Some("cmds.gcode"));
    let mut input = lines_of("x\n");
    assert!(matches!(handler.handle_commands(read(&mut input)), Round::Closed));
    assert_eq!(input.next().map(|l| l.unwrap()), Some("x".to_string()));
}

#[test]
fn command_round_answers_what_comes() {
    let (ctx, crx) = channel();
    ctx.send(EventCommand::Next).unwrap();
    let mut input = lines_of("M2\n");
    assert!(matches!(command_round(&crx, read(&mut input)), Round::Send(Event::Input(l)) if l == "M2"));
}

#[test]
fn deliver_fails_when_session_is_gone() {
    let (etx, erx) = channel::<Event>();
    let (_ctx, crx) = channel::<EventCommand>();
    drop(erx);
    let handler = InputHandler::new(etx, crx, None);
    assert!(!handler.deliver(Event::EOF));
}
