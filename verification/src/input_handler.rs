//! The input side of a streaming session: it waits for the session's
//! commands and answers each `Next` with the next line of input, or with the
//! end of the input.
use vstd::prelude::*;

use crate::events::{Event, EventCommand};
use crate::foreign::{channel_recv, channel_send};

verus! {

/// What one round of answering a command came to.
#[derive(Debug)]
pub enum Round {
    /// No command can come any more: the session side is gone.
    Closed,
    /// The session asked to stop.
    Quit,
    /// The session asked for the next line: this event is to be sent to it.
    Send(Event),
}

impl Round {
    /// Whether more commands are to be answered after this round.
    pub fn keep_going(&self) -> (r: bool)
        ensures
            r == (*self is Send),
    {
        match self {
            Round::Send(_) => true,
            _ => false,
        }
    }
}

/// The event that tells the session of `line`: the line itself, or the end
/// of the input.
pub open spec fn line_event_spec(line: Option<String>) -> Event {
    match line {
        Some(l) => Event::Input(l),
        None => Event::EOF,
    }
}

/// The event that tells the session of `line`: the line itself, or the end
/// of the input.
pub fn line_event(line: Option<String>) -> (ev: Event)
    ensures
        ev == line_event_spec(line),
{
    match line {
        Some(l) => Event::Input(l),
        None => Event::EOF,
    }
}

/// The answer to `command`, where `line` is what reading the next line
/// gives: `Quit` ends the rounds, `Next` is answered with that line, or with
/// the end of the input when there is none.
pub open spec fn answer_spec(command: EventCommand, line: Option<String>) -> Round {
    match command {
        EventCommand::Quit => Round::Quit,
        EventCommand::Next => Round::Send(line_event_spec(line)),
    }
}

/// Answers one command. `Quit` ends the rounds; `Next` reads the next line
/// with `read` (its one call) and gives the event that tells the session of
/// it, or of the end of the input when `read` gives none.
pub fn answer_command<F: FnOnce() -> Option<String>>(command: EventCommand, read: F) -> (r: Round)
    requires
        call_requires(read, ()),
    ensures
        command == EventCommand::Quit ==> r == Round::Quit,
        command == EventCommand::Next ==> exists|line: Option<String>|
            #[trigger] call_ensures(read, (), line) && r == answer_spec(command, line),
{
    match command {
        EventCommand::Quit => Round::Quit,
        EventCommand::Next => {
            let line = read();
            Round::Send(line_event(line))
        },
    }
}

/// Waits for one command from the session on `rx` and answers it with
/// `answer_command`: the result is `Closed` when no command can come any
/// more, `Quit`, or the event for the line that `read` gave.
pub fn command_round<F: FnOnce() -> Option<String>>(
    rx: &std::sync::mpsc::Receiver<EventCommand>,
    read: F,
) -> (r: Round)
    requires
        call_requires(read, ()),
    ensures
        r is Send ==> exists|line: Option<String>|
            #[trigger] call_ensures(read, (), line) && r == answer_spec(EventCommand::Next, line),
{
    match channel_recv(rx) {
        Some(command) => answer_command(command, read),
        None => Round::Closed,
    }
}

/// The input side of a session: the channel to the session, the channel of
/// its commands, and the file of commands (standard input when absent).
pub struct InputHandler {
    tx: std::sync::mpsc::Sender<Event>,
    rx: std::sync::mpsc::Receiver<EventCommand>,
    path: Option<std::path::PathBuf>,
}

impl InputHandler {
    /// The channel to the session.
    pub closed spec fn sender(&self) -> std::sync::mpsc::Sender<Event> {
        self.tx
    }

    /// The channel of the session's commands.
    pub closed spec fn receiver(&self) -> std::sync::mpsc::Receiver<EventCommand> {
        self.rx
    }

    /// The file of commands.
    pub closed spec fn path_spec(&self) -> Option<std::path::PathBuf> {
        self.path
    }

    /// An input side that sends on `tx`, takes commands from `rx` and reads
    /// the file at `path` (standard input when absent).
    pub fn new(
        tx: std::sync::mpsc::Sender<Event>,
        rx: std::sync::mpsc::Receiver<EventCommand>,
        path: Option<std::path::PathBuf>,
    ) -> (r: InputHandler)
        ensures
            r.sender() == tx,
            r.receiver() == rx,
            r.path_spec() == path,
    {
        InputHandler { tx, rx, path }
    }

    /// The file of commands; standard input when absent.
    pub fn path(&self) -> (r: &Option<std::path::PathBuf>)
        ensures
            *r == self.path_spec(),
    {
        &self.path
    }

    /// One round of the input side: waits for a command from the session
    /// and answers it, reading the next line with `read` for a `Next`; the
    /// event of a `Send` goes to the session with `deliver`. The rounds go on
    /// while the result says `keep_going`.
    pub fn handle_commands<F: FnOnce() -> Option<String>>(&self, read: F) -> (r: Round)
        requires
            call_requires(read, ()),
        ensures
            r is Send ==> exists|line: Option<String>|
                #[trigger] call_ensures(read, (), line) && r == answer_spec(EventCommand::Next, line),
    {
        command_round(&self.rx, read)
    }

    /// Sends `event` to the session; `false` when the session side is gone.
    pub fn deliver(&self, event: Event) -> (r: bool) {
        channel_send(&self.tx, event)
    }
}

/// The line a source whose lines still to come are `lines` gives next.
pub open spec fn next_line_spec(lines: Seq<String>) -> Option<String> {
    if lines.len() > 0 {
        Some(lines[0])
    } else {
        None
    }
}

/// The lines still to come after one is read.
pub open spec fn after_read(lines: Seq<String>) -> Seq<String> {
    if lines.len() > 0 {
        lines.drop_first()
    } else {
        lines
    }
}

/// How many `Next` commands come before the first `Quit` (or the end).
pub open spec fn nexts_before_quit(commands: Seq<EventCommand>) -> nat
    decreases commands.len(),
{
    if commands.len() == 0 || commands[0] == EventCommand::Quit {
        0
    } else {
        1 + nexts_before_quit(commands.drop_first())
    }
}

/// The events the input side sends when the session's commands are
/// `commands` and the reads give `lines` in order (and nothing once they
/// are used up), answering each with `answer_spec` until the first `Quit`;
/// and the lines left unread after that.
pub open spec fn run_commands(commands: Seq<EventCommand>, lines: Seq<String>) -> (
    Seq<Event>,
    Seq<String>,
)
    decreases commands.len(),
{
    if commands.len() == 0 {
        (Seq::empty(), lines)
    } else {
        match answer_spec(commands[0], next_line_spec(lines)) {
            Round::Send(e) => {
                let (events, rest) = run_commands(commands.drop_first(), after_read(lines));
                (seq![e] + events, rest)
            },
            _ => (Seq::empty(), lines),
        }
    }
}

/// The input side sends one event per `Next` and none for a `Quit`, after
/// which it answers nothing more: the `j`-th event is the `j`-th line while
/// lines are left and the end of the input after that, and exactly the
/// first `min(k, n)` lines are read, in order, for `k` `Next` commands
/// before the first `Quit`. Comments and empty lines are passed on like any
/// other line.
pub proof fn law_one_line_per_next(commands: Seq<EventCommand>, lines: Seq<String>)
    ensures
        ({
            let k = nexts_before_quit(commands);
            let (events, rest) = run_commands(commands, lines);
            &&& events.len() == k
            &&& forall|j: int|
                0 <= j < k ==> #[trigger] events[j] == if j < lines.len() {
                    Event::Input(lines[j])
                } else {
                    Event::EOF
                }
            &&& rest == lines.skip(
                if k < lines.len() {
                    k as int
                } else {
                    lines.len() as int
                },
            )
        }),
    decreases commands.len(),
{
    if commands.len() == 0 || commands[0] == EventCommand::Quit {
        assert(lines.skip(0) =~= lines);
    } else {
        let tail = commands.drop_first();
        let next = after_read(lines);
        law_one_line_per_next(tail, next);
        let k = nexts_before_quit(commands);
        let (events, rest) = run_commands(commands, lines);
        let (tevents, trest) = run_commands(tail, next);
        assert(events == seq![line_event_spec(next_line_spec(lines))] + tevents);
        assert forall|j: int| 0 <= j < k implies #[trigger] events[j] == if j < lines.len() {
            Event::Input(lines[j])
        } else {
            Event::EOF
        } by {
            if j > 0 {
                assert(events[j] == tevents[j - 1]);
                if lines.len() > 0 {
                    if j - 1 < next.len() {
                        assert(next[j - 1] == lines[j]);
                    }
                }
            }
        }
        if lines.len() > 0 {
            assert(next.skip(
                if k - 1 < next.len() {
                    (k - 1) as int
                } else {
                    next.len() as int
                },
            ) =~= lines.skip(
                if k < lines.len() {
                    k as int
                } else {
                    lines.len() as int
                },
            ));
        } else {
            assert(next.skip(0) =~= lines.skip(0));
        }
    }
}

} // verus!
