//! Decisions of the Windows service wrapper: how control requests are
//! answered and how the service's status is reported.

use vstd::prelude::*;
use crate::text::{append_chars, chars_to_string, decimal, str_to_chars, u64_to_decimal};

verus! {

/// A control request sent by the service control manager.
#[derive(Debug, Clone, Copy, PartialEq, Eq, Structural)]
pub enum ControlRequest {
    Stop,
    Shutdown,
    Interrogate,
    /// Any other request (pause, continue, parameter change, power event...).
    Other,
}

/// The answer to a control request.
#[derive(Debug, Clone, Copy, PartialEq, Eq, Structural)]
pub enum ControlAnswer {
    NoError,
    NotImplemented,
}

/// What the service does on a control request: its answer, and whether the
/// service must stop.
#[derive(Debug, Clone, Copy, PartialEq, Eq, Structural)]
pub struct ControlDecision {
    pub answer: ControlAnswer,
    pub stop: bool,
}

/// Stop and shutdown stop the service; interrogate is answered; anything
/// else is not implemented.
pub open spec fn control_decision(c: ControlRequest) -> ControlDecision {
    match c {
        ControlRequest::Stop | ControlRequest::Shutdown => ControlDecision {
            answer: ControlAnswer::NoError,
            stop: true,
        },
        ControlRequest::Interrogate => ControlDecision { answer: ControlAnswer::NoError, stop: false },
        ControlRequest::Other => ControlDecision {
            answer: ControlAnswer::NotImplemented,
            stop: false,
        },
    }
}

/// Decides how to answer a control request.
pub fn handle_control(control: ControlRequest) -> (d: ControlDecision)
    ensures
        d == control_decision(control),
{
    match control {
        ControlRequest::Stop | ControlRequest::Shutdown => ControlDecision {
            answer: ControlAnswer::NoError,
            stop: true,
        },
        ControlRequest::Interrogate => ControlDecision { answer: ControlAnswer::NoError, stop: false },
        ControlRequest::Other => ControlDecision {
            answer: ControlAnswer::NotImplemented,
            stop: false,
        },
    }
}

/// The state of an installed service, as the service control manager reports it.
#[derive(Debug, Clone, Copy, PartialEq, Eq, Structural)]
pub enum ServiceStateKind {
    Running,
    Stopped,
    StartPending,
    StopPending,
    /// Paused, pausing or continuing.
    Other,
}

/// The word used for a service state in status reports.
pub open spec fn state_word(s: ServiceStateKind) -> Seq<char> {
    match s {
        ServiceStateKind::Running => "Running"@,
        ServiceStateKind::Stopped => "Stopped"@,
        ServiceStateKind::StartPending => "Starting"@,
        ServiceStateKind::StopPending => "Stopping"@,
        ServiceStateKind::Other => "Unknown"@,
    }
}

/// The word used for a service state in status reports.
pub fn state_text(s: ServiceStateKind) -> (t: &'static str)
    ensures
        t@ == state_word(s),
{
    match s {
        ServiceStateKind::Running => "Running",
        ServiceStateKind::Stopped => "Stopped",
        ServiceStateKind::StartPending => "Starting",
        ServiceStateKind::StopPending => "Stopping",
        ServiceStateKind::Other => "Unknown",
    }
}

/// How an optional process id is shown: `Some(<id>)` or `None`.
pub open spec fn process_id_text(pid: Option<u32>) -> Seq<char> {
    match pid {
        Some(p) => "Some("@ + decimal(p as nat) + ")"@,
        None => "None"@,
    }
}

/// The status report of the service.
pub open spec fn status_report(s: ServiceStateKind, pid: Option<u32>) -> Seq<char> {
    "Log4TC Service Status: "@ + state_word(s) + " (Process ID: "@ + process_id_text(pid) + ")"@
}

/// The status report of the service in state `s`, running as process `pid`.
pub fn status_message(s: ServiceStateKind, pid: Option<u32>) -> (m: String)
    ensures
        m@ == status_report(s, pid),
{
    let mut out = str_to_chars("Log4TC Service Status: ");
    let word = str_to_chars(state_text(s));
    append_chars(&mut out, &word);
    let middle = str_to_chars(" (Process ID: ");
    append_chars(&mut out, &middle);
    match pid {
        Some(p) => {
            let open_text = str_to_chars("Some(");
            append_chars(&mut out, &open_text);
            let digits = u64_to_decimal(p as u64);
            append_chars(&mut out, &digits);
            let close_text = str_to_chars(")");
            append_chars(&mut out, &close_text);
        },
        None => {
            let none_text = str_to_chars("None");
            append_chars(&mut out, &none_text);
        },
    }
    let end = str_to_chars(")");
    append_chars(&mut out, &end);
    let r = chars_to_string(&out);
    assert(r@ =~= status_report(s, pid));
    r
}

} // verus!
