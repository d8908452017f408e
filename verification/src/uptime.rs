//! The standalone uptime display: the decision of what to show for each way
//! the external `uptime -p` invocation can go.

use vstd::prelude::*;
use vstd::string::*;
use crate::CommandOutcome;

verus! {

/// The display for each outcome: the command's own text behind a newline on
/// success, an error note otherwise.
pub open spec fn uptime_display_spec(outcome: CommandOutcome) -> Seq<char> {
    match outcome {
        CommandOutcome::Success(t) => "\n"@ + t@,
        CommandOutcome::Failed => "\nError getting uptime information"@,
        CommandOutcome::NotRun => "\nError running uptime command"@,
    }
}

/// Builds the uptime display from how running `uptime -p` went, exactly
/// `uptime_display_spec`.
pub fn run(outcome: CommandOutcome) -> (r: String)
    ensures
        r@ == uptime_display_spec(outcome),
{
    match outcome {
        CommandOutcome::Success(t) => {
            let mut out = String::from_str("\n");
            out.append(t.as_str());
            out
        },
        CommandOutcome::Failed => String::from_str("\nError getting uptime information"),
        CommandOutcome::NotRun => String::from_str("\nError running uptime command"),
    }
}

} // verus!
