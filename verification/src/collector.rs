//! The collector: what it displays for each thing it hears from the result
//! channel, and when it stops.

use vstd::prelude::*;
use vstd::string::*;

verus! {

/// What a wait on the result channel can bring.
#[derive(Debug, PartialEq, Eq)]
pub enum CollectorEvent {
    /// A result arrived.
    Result(String),
    /// No result arrived within the quiescence timeout.
    Timeout,
    /// Every sender is gone and the channel is empty.
    Disconnected,
}

/// The two ways in which collection ends. Both are normal completion.
#[derive(Debug, Clone, Copy, PartialEq, Eq)]
pub enum Ending {
    TimedOut,
    Disconnected,
}

/// What the collector does about one event: the line it displays, and the
/// ending if it stops.
#[derive(Debug, PartialEq, Eq)]
pub struct Shown {
    pub line: String,
    pub ending: Option<Ending>,
}

/// The line displayed for a result.
pub open spec fn result_line(result: Seq<char>) -> Seq<char> {
    "Result => "@ + result
}

/// The status line displayed for an ending.
pub open spec fn ending_line(ending: Ending) -> Seq<char> {
    match ending {
        Ending::TimedOut => "no more results within the timeout window"@,
        Ending::Disconnected => "results channel disconnected"@,
    }
}

/// The ending that an event brings about, if any: a result keeps the
/// collector going, a timeout and a disconnect each stop it at once.
pub open spec fn ending_of(event: CollectorEvent) -> Option<Ending> {
    match event {
        CollectorEvent::Result(_) => None,
        CollectorEvent::Timeout => Some(Ending::TimedOut),
        CollectorEvent::Disconnected => Some(Ending::Disconnected),
    }
}

/// The line displayed for an event.
pub open spec fn line_of(event: CollectorEvent) -> Seq<char> {
    match event {
        CollectorEvent::Result(result) => result_line(result@),
        CollectorEvent::Timeout => ending_line(Ending::TimedOut),
        CollectorEvent::Disconnected => ending_line(Ending::Disconnected),
    }
}

/// Writes the status line of an ending.
pub fn status_line(ending: Ending) -> (line: String)
    ensures
        line@ == ending_line(ending),
{
    match ending {
        Ending::TimedOut => String::from_str("no more results within the timeout window"),
        Ending::Disconnected => String::from_str("results channel disconnected"),
    }
}

/// Decides what the collector does about `event`: which line it displays,
/// and whether it goes on waiting or stops, and how.
pub fn on_event(event: CollectorEvent) -> (shown: Shown)
    ensures
        shown.line@ == line_of(event),
        shown.ending == ending_of(event),
{
    match event {
        CollectorEvent::Result(result) => {
            let mut line = String::from_str("Result => ");
            line.append(result.as_str());
            Shown { line, ending: None }
        },
        CollectorEvent::Timeout => Shown {
            line: status_line(Ending::TimedOut),
            ending: Some(Ending::TimedOut),
        },
        CollectorEvent::Disconnected => Shown {
            line: status_line(Ending::Disconnected),
            ending: Some(Ending::Disconnected),
        },
    }
}

} // verus!
