//! The conformance report the host's status file yields.
use vstd::prelude::*;
use crate::text::{chars_of, contains_in, contains_text, text_of};

verus! {

/// The outcome of a conformance run.
#[derive(Debug, Clone, PartialEq, Eq)]
pub struct ConformanceReport {
    pub host_launched: bool,
    pub child_started: bool,
    pub child_exited_successfully: bool,
    pub status_file: String,
}

impl ConformanceReport {
    /// A run passes when the host launched, and the compositor started and exited successfully.
    pub fn passed(&self) -> (b: bool)
        ensures
            b == (self.host_launched && self.child_started && self.child_exited_successfully),
    {
        self.host_launched && self.child_started && self.child_exited_successfully
    }
}

/// The report a status file gives, once the host has run: the compositor
/// started when the status mentions `child_started`, and exited successfully
/// when it mentions `child_exit:0`. The status is the `status` field of the
/// file read as a JSON object (`envelope`) when it reads as one, else the
/// whole text of the file (`raw`).
pub fn parse_status(envelope: Option<&str>, raw: &str, status_file: &str) -> (r: ConformanceReport)
    ensures
        r.host_launched,
        r.child_started == contains_text(
            match envelope {
                Some(s) => s@,
                None => raw@,
            },
            "child_started"@,
        ),
        r.child_exited_successfully == contains_text(
            match envelope {
                Some(s) => s@,
                None => raw@,
            },
            "child_exit:0"@,
        ),
        r.status_file@ == status_file@,
{
    let text = match envelope {
        Some(s) => chars_of(s),
        None => chars_of(raw),
    };
    ConformanceReport {
        host_launched: true,
        child_started: contains_in(&text, &chars_of("child_started")),
        child_exited_successfully: contains_in(&text, &chars_of("child_exit:0")),
        status_file: text_of(status_file),
    }
}

} // verus!
