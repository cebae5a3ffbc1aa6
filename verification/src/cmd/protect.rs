//! The protect and unprotect commands.
use vstd::prelude::*;

use crate::spi::protect::{WpGoal, WpStatus};
use crate::text::{lines_of, push_line, push_text};

verus! {

/// The report after the protection was changed.
pub open spec fn protect_lines(goal: WpGoal, wp: WpStatus) -> Seq<Seq<char>> {
    seq![
        if goal == WpGoal::Protect {
            "Protected"@
        } else {
            "Unprotected"@
        },
        "Status:  "@ + wp.summary_text(),
    ]
}

/// Reports that the protection was changed, and what the status registers say now.
pub fn protect_report(goal: WpGoal, wp: &WpStatus) -> (out: Vec<String>)
    ensures
        lines_of(out@) == protect_lines(goal, *wp),
{
    let mut out: Vec<String> = Vec::new();
    match goal {
        WpGoal::Protect => push_text(&mut out, "Protected"),
        WpGoal::Unprotect => push_text(&mut out, "Unprotected"),
    }
    let mut s = String::from_str("Status:  ");
    let summary = wp.summary();
    s.append(summary.as_str());
    push_line(&mut out, s);
    assert(lines_of(out@) =~= protect_lines(goal, *wp));
    out
}

/// The report tells what was done, and ends in the summary of the registers.
pub proof fn law_protection_report_tells_goal_and_status(goal: WpGoal, wp: WpStatus)
    ensures
        protect_lines(goal, wp).len() == 2,
        goal == WpGoal::Protect ==> protect_lines(goal, wp)[0] == "Protected"@,
        goal == WpGoal::Unprotect ==> protect_lines(goal, wp)[0] == "Unprotected"@,
        protect_lines(goal, wp)[1].skip(9) == wp.summary_text(),
{
    reveal_strlit("Status:  ");
    assert(protect_lines(goal, wp)[1].skip(9) =~= wp.summary_text());
}

} // verus!
