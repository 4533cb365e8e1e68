//! The decisions of a streaming session: what to print, what to write to the
//! device and what to ask of the input side, for each event that comes in;
//! and how a raw line read from the device is cleaned.
use vstd::prelude::*;

use crate::events::{Event, EventCommand};
use crate::foreign::{contains_run, regex_is_match};
use crate::input_handler::{after_read, line_event_spec, next_line_spec};
use crate::text::{str_eq, trim, trim_nul, trim_nul_spec, trim_spec};

verus! {

/// What the session does in answer to one event.
pub struct Reaction {
    /// Text for the console, written as it stands.
    pub output: String,
    /// Text for the device, if any.
    pub write: Option<String>,
    /// What to ask of the input side, if anything.
    pub command: Option<EventCommand>,
    /// Whether the session ends here.
    pub stop: bool,
}

/// A `Reaction` with its texts taken as character sequences.
pub struct ReactionModel {
    pub output: Seq<char>,
    pub write: Option<Seq<char>>,
    pub command: Option<EventCommand>,
    pub stop: bool,
}

impl View for Reaction {
    type V = ReactionModel;

    open spec fn view(&self) -> ReactionModel {
        ReactionModel {
            output: self.output@,
            write: match self.write {
                Some(w) => Some(w@),
                None => None,
            },
            command: self.command,
            stop: self.stop,
        }
    }
}

/// An input line that starts with `;` and has more after it is a comment.
pub open spec fn is_comment(text: Seq<char>) -> bool {
    text.len() > 1 && text[0] == ';'
}

/// The inputs on which the session cannot take the first byte of an input
/// line apart from the rest: a non-empty line whose first character is not
/// ASCII (byte index 1 is then not a character boundary).
pub open spec fn splits_first_char(event: Event) -> bool {
    match event {
        Event::Input(text) => text@.len() > 0 && (text@[0] as u32) >= 0x80,
        _ => false,
    }
}

/// Whether `event` is a device line that has to be checked for an error
/// report: every device line but the start banner.
pub open spec fn needs_error_check(event: Event) -> bool {
    match event {
        Event::Data(text) => trim_spec(text@) != "start"@,
        _ => false,
    }
}

/// The answer to `event`, given whether the device line matches the error
/// pattern (`error_match` is only read for a device line other than the
/// start banner).
pub open spec fn react_spec(event: Event, error_match: bool) -> ReactionModel {
    match event {
        Event::EOF => ReactionModel {
            output: "End of file - exiting.\n"@,
            write: None,
            command: Some(EventCommand::Quit),
            stop: true,
        },
        Event::Data(text) => {
            if trim_spec(text@) == "start"@ {
                ReactionModel {
                    output: "< "@ + text@,
                    write: None,
                    command: Some(EventCommand::Next),
                    stop: false,
                }
            } else if error_match {
                ReactionModel {
                    output: "< "@ + text@ + "\n"@ + "Error occured while processing command\n"@
                        + "Exiting\n"@,
                    write: None,
                    command: Some(EventCommand::Quit),
                    stop: true,
                }
            } else {
                ReactionModel {
                    output: "< "@ + text@,
                    write: None,
                    command: if trim_spec(text@) == "ok"@ {
                        Some(EventCommand::Next)
                    } else {
                        None
                    },
                    stop: false,
                }
            }
        },
        Event::Input(text) => {
            if text@ == ":q"@ {
                ReactionModel {
                    output: Seq::empty(),
                    write: None,
                    command: Some(EventCommand::Quit),
                    stop: true,
                }
            } else if is_comment(text@) || text@.len() == 0 {
                ReactionModel {
                    output: Seq::empty(),
                    write: None,
                    command: Some(EventCommand::Next),
                    stop: false,
                }
            } else {
                ReactionModel {
                    output: "> "@ + text@ + "\n"@,
                    write: Some(text@ + "\n"@),
                    command: None,
                    stop: false,
                }
            }
        },
    }
}

/// A device line reports an error when it contains `Error` (what the
/// regular expression `.*Error.*` matches).
pub open spec fn error_report(event: Event) -> bool {
    match event {
        Event::Data(text) => contains_run(text@, "Error"@),
        _ => false,
    }
}

fn from_str_concat(a: &str, b: &str) -> (r: String)
    ensures
        r@ == a@ + b@,
{
    let mut s = String::from_str(a);
    s.append(b);
    s
}

/// The answer to `event`, given whether the device line matches the error
/// pattern.
pub fn react_to(event: &Event, error_match: bool) -> (r: Reaction)
    requires
        !splits_first_char(*event),
    ensures
        r@ == react_spec(*event, error_match),
{
    match event {
        Event::EOF => Reaction {
            output: String::from_str("End of file - exiting.\n"),
            write: None,
            command: Some(EventCommand::Quit),
            stop: true,
        },
        Event::Data(text) => {
            let trimmed = trim(text.as_str());
            if str_eq(trimmed, "start") {
                Reaction {
                    output: from_str_concat("< ", text.as_str()),
                    write: None,
                    command: Some(EventCommand::Next),
                    stop: false,
                }
            } else if error_match {
                let mut out = from_str_concat("< ", text.as_str());
                out.append("\n");
                out.append("Error occured while processing command\n");
                out.append("Exiting\n");
                Reaction { output: out, write: None, command: Some(EventCommand::Quit), stop: true }
            } else {
                let command = if str_eq(trimmed, "ok") {
                    Some(EventCommand::Next)
                } else {
                    None
                };
                Reaction {
                    output: from_str_concat("< ", text.as_str()),
                    write: None,
                    command,
                    stop: false,
                }
            }
        },
        Event::Input(text) => {
            let t = text.as_str();
            if str_eq(t, ":q") {
                Reaction {
                    output: String::new(),
                    write: None,
                    command: Some(EventCommand::Quit),
                    stop: true,
                }
            } else if (t.unicode_len() > 1 && t.get_char(0) == ';') || t.unicode_len() == 0 {
                Reaction {
                    output: String::new(),
                    write: None,
                    command: Some(EventCommand::Next),
                    stop: false,
                }
            } else {
                let mut out = from_str_concat("> ", t);
                out.append("\n");
                let w = from_str_concat(t, "\n");
                Reaction { output: out, write: Some(w), command: None, stop: false }
            }
        },
    }
}

/// The answer to `event`; a device line other than the start banner is
/// checked against the error pattern `.*Error.*` with the `regex` crate.
pub fn react(event: &Event) -> (r: Reaction)
    requires
        !splits_first_char(*event),
    ensures
        r@ == react_spec(*event, error_report(*event)),
{
    match event {
        Event::Data(text) => {
            if str_eq(trim(text.as_str()), "start") {
                react_to(event, false)
            } else {
                match regex_is_match(".*Error.*", text.as_str()) {
                    Some(m) => react_to(event, m),
                    None => react_to(event, false),
                }
            }
        },
        _ => react_to(event, false),
    }
}

/// A line read from the device, with the NUL characters at both ends taken
/// off; `None` when nothing is left.
pub fn clean_line(line: &str) -> (r: Option<String>)
    ensures
        r is None <==> trim_nul_spec(line@).len() == 0,
        r matches Some(s) ==> s@ == trim_nul_spec(line@),
{
    let clean = trim_nul(line);
    if clean.unicode_len() == 0 {
        None
    } else {
        Some(clean.to_owned())
    }
}

/// The session ends exactly when it asks the input side to quit.
pub proof fn law_stop_iff_quit(event: Event, error_match: bool)
    ensures
        react_spec(event, error_match).stop <==> react_spec(event, error_match).command == Some(
            EventCommand::Quit,
        ),
{
}

/// Only a plain input line reaches the device, followed by a newline, and
/// the console shows `> ` and exactly what was written.
pub proof fn law_device_gets_plain_input(event: Event, error_match: bool)
    ensures
        react_spec(event, error_match).write is Some <==> (event matches Event::Input(text) && text@
            != ":q"@ && !(text@.len() > 1 && text@[0] == ';') && text@.len() > 0),
        react_spec(event, error_match).write matches Some(w) ==> (event matches Event::Input(text)
            && w == text@ + "\n"@ && react_spec(event, error_match).output == "> "@ + w),
{
}

/// A device line that does not report an error never ends the session:
/// it is echoed, nothing is written to the device, and the session never
/// says `Quit` for it.
pub proof fn law_device_line_keeps_session(text: String)
    ensures
        !react_spec(Event::Data(text), false).stop,
        react_spec(Event::Data(text), false).command != Some(EventCommand::Quit),
        react_spec(Event::Data(text), false).write is None,
        react_spec(Event::Data(text), false).output == "< "@ + text@,
{
}

/// A comment line (`;` followed by more) or an empty input line is skipped:
/// nothing is printed or written, the session goes on, and it asks for the
/// next line, whatever the error check says.
pub proof fn law_skipped_input_asks_next(text: String, error_match: bool)
    requires
        text@ != ":q"@,
        (text@.len() > 1 && text@[0] == ';') || text@.len() == 0,
    ensures
        react_spec(Event::Input(text), error_match).command == Some(EventCommand::Next),
        react_spec(Event::Input(text), error_match).write is None,
        !react_spec(Event::Input(text), error_match).stop,
        react_spec(Event::Input(text), error_match).output.len() == 0,
{
}

/// Every input line gets exactly one of three answers: `:q` stops the
/// session; a comment or empty line asks for the next line; any other line
/// is written to the device, and the session waits for the device before
/// asking again.
pub proof fn law_input_answers(text: String, error_match: bool)
    ensures
        ({
            let re = react_spec(Event::Input(text), error_match);
            &&& text@ == ":q"@ ==> re.stop && re.command == Some(EventCommand::Quit)
                && re.write is None
            &&& text@ != ":q"@ ==> !re.stop
            &&& re.write is Some ==> re.command is None
            &&& re.command is None ==> re.write == Some(text@ + "\n"@)
        }),
{
}

/// The end of the input, and a device line that reports an error, end the
/// session; so does `:q`.
pub proof fn law_session_ends(event: Event)
    ensures
        event is EOF ==> react_spec(event, false).stop,
        needs_error_check(event) ==> react_spec(event, true).stop,
        (event matches Event::Input(text) && text@ == ":q"@) ==> react_spec(event, false).stop,
{
}

/// Every device line is echoed to the console after `< `, and a device line
/// asks for the next input line exactly when it is the start banner or `ok`
/// (whitespace around it aside), unless it reports an error.
pub proof fn law_device_lines_echoed(event: Event, error_match: bool)
    ensures
        event matches Event::Data(text) ==> ("< "@ + text@).is_prefix_of(
            react_spec(event, error_match).output,
        ),
        event matches Event::Data(text) ==> (react_spec(event, error_match).command == Some(
            EventCommand::Next,
        ) <==> (trim_spec(text@) == "start"@ || (!error_match && trim_spec(text@) == "ok"@))),
{
    if let Event::Data(text) = event {
        let out = react_spec(event, error_match).output;
        let p = "< "@ + text@;
        if !(trim_spec(text@) == "start"@) && error_match {
            assert(out =~= p + ("\n"@ + "Error occured while processing command\n"@
                + "Exiting\n"@));
        }
        assert(p.is_prefix_of(out));
    }
}

/// The lines that reach the device when the input's lines are `lines`:
/// those before the first `:q`, without comments and empty lines, each
/// followed by a newline.
pub open spec fn expected_writes(lines: Seq<String>) -> Seq<Seq<char>>
    decreases lines.len(),
{
    if lines.len() == 0 {
        Seq::empty()
    } else {
        let l = lines[0]@;
        if l == ":q"@ {
            Seq::empty()
        } else if is_comment(l) || l.len() == 0 {
            expected_writes(lines.drop_first())
        } else {
            seq![l + "\n"@] + expected_writes(lines.drop_first())
        }
    }
}

/// What the session writes to the device from the moment it asks for the
/// next line, when the input side answers with `lines` in order (the end
/// of the input once they are used up) and the device answers each line
/// written with the device line `ok`, checked and found not to be an error.
pub open spec fn writes_after_next(lines: Seq<String>, ok: Event) -> Seq<Seq<char>>
    decreases lines.len(),
{
    if lines.len() == 0 {
        Seq::empty()
    } else {
        let re = react_spec(line_event_spec(next_line_spec(lines)), false);
        if re.stop {
            Seq::empty()
        } else if re.command == Some(EventCommand::Next) {
            writes_after_next(after_read(lines), ok)
        } else {
            let w = match re.write {
                Some(w) => seq![w],
                None => Seq::empty(),
            };
            if react_spec(ok, false).command == Some(EventCommand::Next) {
                w + writes_after_next(after_read(lines), ok)
            } else {
                w
            }
        }
    }
}

/// Whether the session, fed `lines` in order, comes to an input line on
/// which it cannot take the first byte apart (`splits_first_char`: it
/// panics there) before any `:q`.
pub open spec fn session_panics(lines: Seq<String>) -> bool
    decreases lines.len(),
{
    if lines.len() == 0 {
        false
    } else if lines[0]@ == ":q"@ {
        false
    } else {
        splits_first_char(Event::Input(lines[0])) || session_panics(lines.drop_first())
    }
}

/// Whether the session, from the moment it asks for the next line, with
/// the input side answering with `lines` and the device answering each line
/// written with `ok`, ends at the end of the input (printing the end of
/// file message) rather than at a `:q`.
pub open spec fn ends_at_end_of_input(lines: Seq<String>, ok: Event) -> bool
    decreases lines.len(),
{
    if lines.len() == 0 {
        true
    } else {
        let re = react_spec(line_event_spec(next_line_spec(lines)), false);
        if re.stop {
            false
        } else if re.command == Some(EventCommand::Next) {
            ends_at_end_of_input(after_read(lines), ok)
        } else if react_spec(ok, false).command == Some(EventCommand::Next) {
            ends_at_end_of_input(after_read(lines), ok)
        } else {
            false
        }
    }
}

/// A whole session against a device that opens with its start banner and
/// answers every line with `ok` (and never reports an error), on an input
/// that it does not panic on: the banner asks for the first line; the
/// device receives exactly the input lines before the first `:q`, comments
/// and empty lines left out, each followed by a newline, in order; and the
/// session ends printing the end of file message exactly when the input has
/// no `:q` line.
pub proof fn law_session_writes(lines: Seq<String>, start: Event, ok: Event)
    requires
        start matches Event::Data(t) && trim_spec(t@) == "start"@,
        ok matches Event::Data(t) && trim_spec(t@) == "ok"@,
        !session_panics(lines),
    ensures
        react_spec(start, false).command == Some(EventCommand::Next),
        writes_after_next(lines, ok) == expected_writes(lines),
        ends_at_end_of_input(lines, ok) <==> !(exists|i: int|
            0 <= i < lines.len() && (#[trigger] lines[i])@ == ":q"@),
        react_spec(Event::EOF, false).output == "End of file - exiting.\n"@,
    decreases lines.len(),
{
    if lines.len() > 0 {
        let l = lines[0];
        let rest = lines.drop_first();
        if l@ == ":q"@ {
            assert(lines[0]@ == ":q"@);
        } else {
            law_session_writes(rest, start, ok);
            let re = react_spec(Event::Input(l), false);
            if !(is_comment(l@) || l@.len() == 0) {
                assert(re.write == Some(l@ + "\n"@));
                assert(writes_after_next(lines, ok) =~= seq![l@ + "\n"@] + expected_writes(rest));
            }
            if exists|i: int| 0 <= i < lines.len() && (#[trigger] lines[i])@ == ":q"@ {
                let i = choose|i: int| 0 <= i < lines.len() && (#[trigger] lines[i])@ == ":q"@;
                assert(i > 0);
                assert(rest[i - 1] == lines[i]);
            }
            if exists|i: int| 0 <= i < rest.len() && (#[trigger] rest[i])@ == ":q"@ {
                let i = choose|i: int| 0 <= i < rest.len() && (#[trigger] rest[i])@ == ":q"@;
                assert(lines[i + 1] == rest[i]);
            }
        }
    }
}

/// How many steps of a session trace satisfy `p`.
pub open spec fn count_where(t: Seq<(Event, bool)>, p: spec_fn((Event, bool)) -> bool) -> nat
    decreases t.len(),
{
    if t.len() == 0 {
        0
    } else {
        count_where(t.drop_last(), p) + if p(t.last()) {
            1nat
        } else {
            0nat
        }
    }
}

/// The session answers this step (an event with its error check) by asking
/// for the next line.
pub open spec fn asks_next(x: (Event, bool)) -> bool {
    react_spec(x.0, x.1).command == Some(EventCommand::Next)
}

/// The device acknowledges: a device line that makes the session ask for
/// the next line (the start banner, or `ok`).
pub open spec fn is_ack(x: (Event, bool)) -> bool {
    x.0 is Data && asks_next(x)
}

/// An input line that the session skips and answers by asking again.
pub open spec fn is_skip(x: (Event, bool)) -> bool {
    x.0 is Input && asks_next(x)
}

/// The session writes to the device at this step.
pub open spec fn writes_device(x: (Event, bool)) -> bool {
    react_spec(x.0, x.1).write is Some
}

/// This step is an answer of the input side: a line or the end of input.
pub open spec fn is_answer(x: (Event, bool)) -> bool {
    x.0 is Input || x.0 is EOF
}

/// The session says `Quit` at this step.
pub open spec fn says_quit(x: (Event, bool)) -> bool {
    react_spec(x.0, x.1).command == Some(EventCommand::Quit)
}

/// In trace `t`, the input side only answers what was asked: at each of its
/// answers it has answered no more often than the session asked for a line
/// before that step.
pub open spec fn answers_only_requests(t: Seq<(Event, bool)>) -> bool {
    forall|i: int|
        0 <= i < t.len() && is_answer(#[trigger] t[i]) ==> count_where(
            t.take(i + 1),
            |x: (Event, bool)| is_answer(x),
        ) <= count_where(t.take(i), |x: (Event, bool)| asks_next(x))
}

proof fn lemma_count_split(t: Seq<(Event, bool)>)
    ensures
        count_where(t, |x: (Event, bool)| asks_next(x)) == count_where(
            t,
            |x: (Event, bool)| is_ack(x),
        ) + count_where(t, |x: (Event, bool)| is_skip(x)),
        count_where(t, |x: (Event, bool)| writes_device(x)) + count_where(
            t,
            |x: (Event, bool)| is_skip(x),
        ) <= count_where(t, |x: (Event, bool)| is_answer(x)),
    decreases t.len(),
{
    if t.len() > 0 {
        lemma_count_split(t.drop_last());
    }
}

proof fn lemma_answers_bounded(t: Seq<(Event, bool)>, n: int)
    requires
        answers_only_requests(t),
        0 <= n <= t.len(),
    ensures
        count_where(t.take(n), |x: (Event, bool)| is_answer(x)) <= count_where(
            t.take(n),
            |x: (Event, bool)| asks_next(x),
        ),
    decreases n,
{
    if n > 0 {
        lemma_answers_bounded(t, n - 1);
        assert(t.take(n).drop_last() =~= t.take(n - 1));
        assert(t.take(n).last() == t[n - 1]);
    }
}

/// Flow control: over any stretch of a session in which the input side
/// only answers the session's requests, the lines written to the device
/// are never more than the device's acknowledgements (its start banner and
/// its `ok`s).
pub proof fn law_flow_control(t: Seq<(Event, bool)>)
    requires
        answers_only_requests(t),
    ensures
        count_where(t, |x: (Event, bool)| writes_device(x)) <= count_where(
            t,
            |x: (Event, bool)| is_ack(x),
        ),
{
    lemma_answers_bounded(t, t.len() as int);
    assert(t.take(t.len() as int) =~= t);
    lemma_count_split(t);
}

proof fn lemma_no_quit_before(t: Seq<(Event, bool)>)
    requires
        forall|i: int| 0 <= i < t.len() ==> !react_spec(#[trigger] t[i].0, t[i].1).stop,
    ensures
        count_where(t, |x: (Event, bool)| says_quit(x)) == 0,
    decreases t.len(),
{
    if t.len() > 0 {
        lemma_no_quit_before(t.drop_last());
        law_stop_iff_quit(t.last().0, t.last().1);
    }
}

/// A session ends at its first stopping step, so it says `Quit` at most
/// once, and only as the answer to its last event.
pub proof fn law_single_quit(t: Seq<(Event, bool)>)
    requires
        t.len() > 0,
        forall|i: int| 0 <= i < t.len() - 1 ==> !react_spec(#[trigger] t[i].0, t[i].1).stop,
    ensures
        count_where(t, |x: (Event, bool)| says_quit(x)) <= 1,
        forall|i: int| 0 <= i < t.len() - 1 ==> !says_quit(#[trigger] t[i]),
{
    let front = t.drop_last();
    assert forall|i: int| 0 <= i < front.len() implies !react_spec(
        #[trigger] front[i].0,
        front[i].1,
    ).stop by {
        assert(front[i] == t[i]);
    }
    lemma_no_quit_before(front);
    assert forall|i: int| 0 <= i < t.len() - 1 implies !says_quit(#[trigger] t[i]) by {
        law_stop_iff_quit(t[i].0, t[i].1);
    }
}

} // verus!
