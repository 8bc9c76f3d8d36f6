//! Decision logic of the two concurrent tasks.
//!
//! The input task reads lines from an external line source and the output
//! task drains the channel and renders; both loops live at the edge of the
//! process. What each loop decides per event is pure and stands here: from
//! one event to the next action.

use vstd::prelude::*;

use crate::text::{is_exit_command, is_exit_word, is_sentinel, sentinel, trim_spec, trim_text};

verus! {

/// One reading from the external line source.
pub enum LineEvent {
    /// A line of text arrived (terminator included, as read).
    Line(String),
    /// The source reached end of input.
    EndOfInput,
    /// The user interrupted the task (a cancellation request).
    Interrupted,
    /// The source failed with some other read error.
    ReadFailure,
}

/// What the input task does with one event.
#[derive(Debug)]
pub enum InputAction {
    /// Forward the trimmed line as a message and keep reading.
    Forward(String),
    /// Send the shutdown sentinel, then stop: the graceful path, taken at
    /// end of input or on a shutdown keyword.
    SignalShutdown,
    /// Stop at once without signalling: an interrupt or a read failure. The
    /// consumer then learns of the end only from channel closure.
    StopSilently,
}

/// What the output task does with one received message.
#[derive(Debug)]
pub enum OutputAction {
    /// Render the message on the console, then pause for the fixed cadence.
    Render(String),
    /// Stop the consumer loop; its terminal state.
    Stop,
}

/// The input task's decision for one event: a line is trimmed and either
/// recognised as a shutdown keyword (`exit` or `quit`, any case) or
/// forwarded; end of input signals shutdown; an interrupt or a read failure
/// stops the task silently.
pub fn input_step(ev: LineEvent) -> (a: InputAction)
    ensures
        match ev {
            LineEvent::Line(l) => if is_exit_word(trim_spec(l@)) {
                a == InputAction::SignalShutdown
            } else {
                match a {
                    InputAction::Forward(t) => t@ == trim_spec(l@),
                    _ => false,
                }
            },
            LineEvent::EndOfInput => a == InputAction::SignalShutdown,
            LineEvent::Interrupted => a == InputAction::StopSilently,
            LineEvent::ReadFailure => a == InputAction::StopSilently,
        },
{
    match ev {
        LineEvent::Line(l) => {
            let t = trim_text(l.as_str());
            if is_exit_command(t.as_str()) {
                InputAction::SignalShutdown
            } else {
                InputAction::Forward(t)
            }
        },
        LineEvent::EndOfInput => InputAction::SignalShutdown,
        LineEvent::Interrupted => InputAction::StopSilently,
        LineEvent::ReadFailure => InputAction::StopSilently,
    }
}

/// The output task's decision for one receive: a closed channel (`None`) is
/// a virtual sentinel and stops the loop, the sentinel itself stops the
/// loop, and any other message is rendered.
pub fn output_step(m: Option<String>) -> (a: OutputAction)
    ensures
        match m {
            None => a == OutputAction::Stop,
            Some(msg) => if msg@ == sentinel() {
                a == OutputAction::Stop
            } else {
                match a {
                    OutputAction::Render(r) => r@ == msg@,
                    _ => false,
                }
            },
        },
{
    match m {
        None => OutputAction::Stop,
        Some(msg) => {
            if is_sentinel(&msg) {
                OutputAction::Stop
            } else {
                OutputAction::Render(msg)
            }
        },
    }
}

} // verus!
