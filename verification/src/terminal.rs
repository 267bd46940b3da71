//! Consoles of PCs and servers: how long a command may run, how the events
//! of a terminal line make up a command's output, and how that output loses
//! the echo of the typed command.
use vstd::prelude::*;
use vstd::string::StringExecFns;

use crate::error::{cat, PtError};
use crate::text::{
    chars_of, int_str, int_text, same_text, slice_range, starts_with, starts_with_chars, string_of,
};

verus! {

/// Seconds a command may run when the request names none.
pub const DEFAULT_TIMEOUT_SECS: u64 = 30;

/// The longest a command may run, in seconds.
pub const MAX_TIMEOUT_SECS: u64 = 300;

/// The seconds to wait for a command: the requested ones, or 30; between 1 and
/// 300.
pub fn timeout(requested: Option<u64>) -> (r: Result<u64, PtError>)
    ensures
        ({
            let secs = match requested {
                Some(s) => s,
                None => DEFAULT_TIMEOUT_SECS,
            };
            &&& (1 <= secs <= MAX_TIMEOUT_SECS) ==> r == Ok::<u64, PtError>(secs)
            &&& !(1 <= secs <= MAX_TIMEOUT_SECS) ==> (r matches Err(PtError::InvalidInput(m))
                && m@ == "timeout_secs must be between 1 and "@ + int_str(MAX_TIMEOUT_SECS as int))
        }),
{
    let secs = match requested {
        Some(s) => s,
        None => DEFAULT_TIMEOUT_SECS,
    };
    if secs == 0 || secs > MAX_TIMEOUT_SECS {
        let most = int_text(MAX_TIMEOUT_SECS as i64);
        return Err(PtError::InvalidInput(cat("timeout_secs must be between 1 and ", most.as_str())));
    }
    Ok(secs)
}

/// `output` without the typed `command` in front of it, and without the line
/// break that follows the echo.
pub open spec fn unechoed(output: Seq<char>, command: Seq<char>) -> Seq<char> {
    if starts_with(output, command) {
        let rest = output.skip(command.len() as int);
        if rest.len() > 0 && rest[0] == '\n' {
            rest.skip(1)
        } else {
            rest
        }
    } else {
        output
    }
}

/// The output of a command without the echo of the command itself.
pub fn without_echo(output: &str, command: &str) -> (r: String)
    ensures
        r@ == unechoed(output@, command@),
{
    let out = chars_of(output);
    let cmd = chars_of(command);
    if !starts_with_chars(&out, &cmd) {
        return string_of(&out);
    }
    let mut start = cmd.len();
    if start < out.len() && out[start] == '\n' {
        start += 1;
    }
    let rest = slice_range(&out, start, out.len());
    assert(rest@ =~= unechoed(output@, command@));
    string_of(&rest)
}

/// A command typed in a terminal, as it ended or as far as it got.
#[derive(Debug, Clone, PartialEq, Eq)]
pub struct TerminalRun {
    /// The command ended before the timeout.
    pub finished: bool,
    /// Packet Tracer's status code of the ended command.
    pub status: Option<i64>,
    pub output: String,
}

/// An event of Packet Tracer, with the arguments a terminal line's events
/// carry: the text of `outputWritten` and the status of `commandEnded`.
#[derive(Debug, Clone, PartialEq, Eq)]
pub struct TerminalEvent {
    pub class: String,
    pub object: String,
    pub name: String,
    /// The first argument, when it is text.
    pub text: Option<String>,
    /// The second argument, when it is a number.
    pub code: Option<i64>,
}

/// What to do after an event.
#[derive(Debug, Clone, PartialEq, Eq)]
pub enum TerminalAction {
    /// Wait for the next event.
    Wait,
    /// Press space: the terminal shows `--More--`.
    PressSpace,
    /// The command ended.
    Done(TerminalRun),
    /// The event lacks the argument its name promises.
    Malformed,
}

/// The output a terminal line has written while a command runs.
#[derive(Debug, Clone, PartialEq, Eq)]
pub struct Collector {
    pub output: String,
}

/// The event belongs to the terminal line `id`.
pub open spec fn on_line(id: Seq<char>, event: TerminalEvent) -> bool {
    event.class@ == "TerminalLine"@ && event.object@ == id
}

impl Collector {
    /// Nothing written yet.
    pub fn new() -> (r: Collector)
        ensures
            r.output@ == Seq::<char>::empty(),
    {
        Collector { output: String::new() }
    }

    /// Takes one event of the command `command` on the line `id`: other
    /// lines' events and other events are passed over, written text is kept,
    /// a `--More--` prompt asks for a space, and the end of the command gives
    /// its status and the output without the echo.
    pub fn on_event(&mut self, id: &str, command: &str, event: &TerminalEvent) -> (r: TerminalAction)
        ensures
            !on_line(id@, *event) ==> r is Wait && final(self).output@ == old(self).output@,
            on_line(id@, *event) && event.name@ == "outputWritten"@ ==> match event.text {
                Some(t) => r is Wait && final(self).output@ == old(self).output@ + t@,
                None => r is Malformed && final(self).output@ == old(self).output@,
            },
            on_line(id@, *event) && event.name@ == "moreDisplayed"@ ==> r is PressSpace
                && final(self).output@ == old(self).output@,
            on_line(id@, *event) && event.name@ == "commandEnded"@ ==> match event.code {
                Some(c) => (r matches TerminalAction::Done(run) && run.finished && run.status
                    == Some(c) && run.output@ == unechoed(old(self).output@, command@)),
                None => r is Malformed,
            } && final(self).output@ == old(self).output@,
            on_line(id@, *event) && event.name@ != "outputWritten"@ && event.name@
                != "moreDisplayed"@ && event.name@ != "commandEnded"@ ==> r is Wait
                && final(self).output@ == old(self).output@,
    {
        proof {
            reveal_strlit("outputWritten");
            reveal_strlit("moreDisplayed");
            reveal_strlit("commandEnded");
            assert("outputWritten"@[0] != "moreDisplayed"@[0]);
            assert("outputWritten"@[0] != "commandEnded"@[0]);
            assert("moreDisplayed"@[0] != "commandEnded"@[0]);
        }
        if !(same_text(event.class.as_str(), "TerminalLine") && same_text(
            event.object.as_str(),
            id,
        )) {
            return TerminalAction::Wait;
        }
        if same_text(event.name.as_str(), "outputWritten") {
            return match &event.text {
                Some(t) => {
                    self.output.append(t.as_str());
                    TerminalAction::Wait
                },
                None => TerminalAction::Malformed,
            };
        }
        if same_text(event.name.as_str(), "moreDisplayed") {
            return TerminalAction::PressSpace;
        }
        if same_text(event.name.as_str(), "commandEnded") {
            return match event.code {
                Some(c) => TerminalAction::Done(
                    TerminalRun {
                        finished: true,
                        status: Some(c),
                        output: without_echo(self.output.as_str(), command),
                    },
                ),
                None => TerminalAction::Malformed,
            };
        }
        TerminalAction::Wait
    }

    /// The run when the timeout comes first: not finished, with the output
    /// so far, without the echo.
    pub fn timed_out(&self, command: &str) -> (r: TerminalRun)
        ensures
            !r.finished,
            r.status is None,
            r.output@ == unechoed(self.output@, command@),
    {
        TerminalRun { finished: false, status: None, output: without_echo(self.output.as_str(), command) }
    }
}

/// The error when the connection closes while a command runs.
pub fn connection_closed() -> (r: PtError)
    ensures
        r matches PtError::Unreachable(m) && m@ == "connection closed while the command ran"@,
{
    PtError::Unreachable("connection closed while the command ran".to_owned())
}

} // verus!
