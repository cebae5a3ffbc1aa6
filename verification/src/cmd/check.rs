//! The check command.
use vstd::prelude::*;

use crate::text::{lines_of, push_line, push_text};

verus! {

/// The report of a programmer that answered: its firmware version, and that it echoes.
pub fn check_report(version: &str) -> (out: Vec<String>)
    ensures
        lines_of(out@) == seq![
            "Connected: FlashcatUSB Pro"@,
            "Firmware:  "@ + version@,
            "Echo:      OK"@,
        ],
{
    let mut out: Vec<String> = Vec::new();
    push_text(&mut out, "Connected: FlashcatUSB Pro");
    let mut s = String::from_str("Firmware:  ");
    s.append(version);
    push_line(&mut out, s);
    push_text(&mut out, "Echo:      OK");
    assert(lines_of(out@) =~= seq![
        "Connected: FlashcatUSB Pro"@,
        "Firmware:  "@ + version@,
        "Echo:      OK"@,
    ]);
    out
}

} // verus!
